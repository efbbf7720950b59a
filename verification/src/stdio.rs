//! A session over the standard streams of a child process: which process may be
//! started, how its output is cut into lines, and what each line means.

use vstd::prelude::*;
use vstd::string::*;
use vstd::utf8::*;
use crate::error::{ErrorKind, ErrorModel, EvaError};
use crate::http_framing;
use crate::http_framing::find_byte;
use crate::http_reply;
use crate::json;
use crate::json::protocol_error;
use crate::json_layout;
use crate::json_layout::Member;
use crate::json_rpc;
use crate::json_rpc::{enforce_response_limit, json_u64_field};
use crate::session::{McpServerTransport, McpSessionConfig};
use crate::text;
use crate::text::{
    bytes_of, chars_of, decimal_u64, decimal_usize, str_eq, string_from_utf8, trim,
};

verus! {

/// The longest line that a server may write, in bytes.
pub const STDOUT_LINE_LIMIT_BYTES: usize = 1_048_576;

// ---------------------------------------------------------------------------
// Starting
// ---------------------------------------------------------------------------

/// Whether a command is one of those that may be run.
pub open spec fn command_allowed(config: McpSessionConfig) -> bool {
    text::texts(config.process.allowed_commands@).contains(config.process.command@)
}

/// Why no process is started for a session, if none is.
pub open spec fn stdio_refusal(config: McpSessionConfig) -> Option<ErrorModel> {
    if config.server_transport != McpServerTransport::Stdio {
        Some(
            ErrorModel::new(ErrorKind::Unsupported, "unsupported MCP JSON-RPC transport"@).ctx(
                "server_transport"@,
                config.server_transport.name(),
            ),
        )
    } else if text::trimmed(config.process.command@).len() == 0 {
        Some(
            ErrorModel::new(
                ErrorKind::InvalidArgument,
                "MCP stdio command cannot be empty"@,
            ).ctx("adapter_id"@, config.adapter_id@),
        )
    } else if !command_allowed(config) {
        Some(
            ErrorModel::new(
                ErrorKind::PermissionDenied,
                "MCP stdio command is not allowlisted"@,
            ).ctx("adapter_id"@, config.adapter_id@).ctx("command"@, config.process.command@),
        )
    } else if config.process.startup_timeout_ms == 0 {
        Some(
            ErrorModel::new(
                ErrorKind::InvalidArgument,
                "MCP stdio startup timeout must be greater than zero"@,
            ),
        )
    } else {
        None
    }
}

/// Whether the text is one of the strings.
pub fn one_of(list: &Vec<String>, value: &str) -> (found: bool)
    ensures
        found == text::texts(list@).contains(value@),
{
    let mut i: usize = 0;
    while i < list.len()
        invariant
            i <= list@.len(),
            forall|k: int| 0 <= k < i ==> #[trigger] text::texts(list@)[k] != value@,
        decreases list@.len() - i,
    {
        if str_eq(list[i].as_str(), value) {
            assert(text::texts(list@)[i as int] == value@);
            return true;
        }
        i += 1;
    }
    false
}

/// Refuse a session whose process may not be started.
pub fn validate_stdio_config(config: &McpSessionConfig) -> (outcome: Result<(), EvaError>)
    ensures
        http_reply::refused_as(outcome, stdio_refusal(*config)),
{
    if config.server_transport != McpServerTransport::Stdio {
        return Err(
            EvaError::unsupported("unsupported MCP JSON-RPC transport").with_context(
                "server_transport",
                config.server_transport.as_str(),
            ),
        );
    }
    let command = config.process.command.as_str();
    if trim(command).as_str().is_empty() {
        return Err(
            EvaError::invalid_argument("MCP stdio command cannot be empty").with_context(
                "adapter_id",
                config.adapter_id.as_str(),
            ),
        );
    }
    if !one_of(&config.process.allowed_commands, command) {
        return Err(
            EvaError::permission_denied("MCP stdio command is not allowlisted").with_context(
                "adapter_id",
                config.adapter_id.as_str(),
            ).with_context("command", command),
        );
    }
    if config.process.startup_timeout_ms == 0 {
        return Err(
            EvaError::invalid_argument("MCP stdio startup timeout must be greater than zero"),
        );
    }
    Ok(())
}

/// Why a call over HTTP settings does not run a process, if it does not.
pub open spec fn process_transport_refusal(config: McpSessionConfig, message: Seq<char>) -> Option<
    ErrorModel,
> {
    if config.server_transport != McpServerTransport::Stdio {
        Some(
            ErrorModel::new(ErrorKind::Unsupported, message).ctx(
                "adapter_id"@,
                config.adapter_id@,
            ).ctx("server_transport"@, config.server_transport.name()),
        )
    } else {
        None
    }
}

/// Refuse a call over HTTP settings with the given message.
pub fn require_stdio_transport(config: &McpSessionConfig, message: &str) -> (outcome: Result<
    (),
    EvaError,
>)
    ensures
        http_reply::refused_as(outcome, process_transport_refusal(*config, message@)),
{
    if config.server_transport != McpServerTransport::Stdio {
        return Err(
            EvaError::unsupported(message).with_context(
                "adapter_id",
                config.adapter_id.as_str(),
            ).with_context("server_transport", config.server_transport.as_str()),
        );
    }
    Ok(())
}

/// The audit of a started process.
pub open spec fn start_audit(timeout_ms: u64, duration_ms: u64, process_id: u32) -> Seq<Seq<char>> {
    seq![
        "mcp.stdio:started"@,
        "shell:false"@,
        "command_allowlist:passed"@,
        "startup_timeout_ms:"@ + text::decimal(timeout_ms as nat),
        "startup_duration_ms:"@ + text::decimal(duration_ms as nat),
        "process_id:"@ + text::decimal(process_id as nat),
    ]
}

fn numbered(label: &str, value: u64) -> (entry: String)
    ensures
        entry@ == label@ + text::decimal(value as nat),
{
    let mut entry = String::new();
    entry.append(label);
    entry.append(decimal_u64(value).as_str());
    assert(entry@ =~= label@ + text::decimal(value as nat));
    entry
}

/// The audit of a started process.
pub fn started_audit(timeout_ms: u64, duration_ms: u64, process_id: u32) -> (audit: Vec<String>)
    ensures
        text::texts(audit@) == start_audit(timeout_ms, duration_ms, process_id),
{
    let mut audit: Vec<String> = Vec::new();
    audit.push("mcp.stdio:started".to_owned());
    audit.push("shell:false".to_owned());
    audit.push("command_allowlist:passed".to_owned());
    audit.push(numbered("startup_timeout_ms:", timeout_ms));
    audit.push(numbered("startup_duration_ms:", duration_ms));
    audit.push(numbered("process_id:", process_id as u64));
    assert(text::texts(audit@) =~= start_audit(timeout_ms, duration_ms, process_id));
    audit
}

// ---------------------------------------------------------------------------
// Lines
// ---------------------------------------------------------------------------

/// What a piece of output does to the line that is being gathered.
pub enum LineStep {
    /// The line grew past the limit.
    LimitExceeded,
    /// The line goes on; the whole piece was used.
    Partial,
    /// A line is complete; so many bytes of the piece were used.
    Line(Vec<u8>, usize),
}

/// The bytes of a piece up to and with its first line feed, or all of it.
pub open spec fn line_part(piece: Seq<u8>) -> Seq<u8> {
    let feed = http_framing::byte_position(piece, 10, 0);
    if feed < piece.len() {
        piece.take(feed + 1)
    } else {
        piece
    }
}

/// Gather output into lines of bounded length.
pub struct StdoutLines {
    line: Vec<u8>,
}

impl View for StdoutLines {
    type V = Seq<u8>;

    /// The bytes of the line that is not complete yet.
    closed spec fn view(&self) -> Seq<u8> {
        self.line@
    }
}

impl StdoutLines {
    pub fn new() -> (lines: StdoutLines)
        ensures
            lines@ == Seq::<u8>::empty(),
    {
        StdoutLines { line: Vec::new() }
    }

    /// Take in the next piece of output, up to the end of a line.
    pub fn push(&mut self, piece: &[u8]) -> (step: LineStep)
        requires
            old(self)@.len() <= STDOUT_LINE_LIMIT_BYTES,
        ensures
            final(self)@.len() <= STDOUT_LINE_LIMIT_BYTES,
            ({
                let part = line_part(piece@);
                if old(self)@.len() + part.len() > STDOUT_LINE_LIMIT_BYTES {
                    step is LimitExceeded && final(self)@ == old(self)@
                } else if part.len() > 0 && part.last() == 10 {
                    step matches LineStep::Line(line, used) && line@ == old(self)@ + part && used
                        == part.len() && final(self)@ == Seq::<u8>::empty()
                } else {
                    step is Partial && final(self)@ == old(self)@ + part
                }
            }),
    {
        let feed: usize = find_byte(piece, 10, 0);
        let take: usize = if feed < piece.len() {
            feed + 1
        } else {
            piece.len()
        };
        let ghost part = line_part(piece@);
        assert(part =~= piece@.take(take as int));
        if take > STDOUT_LINE_LIMIT_BYTES - self.line.len() {
            return LineStep::LimitExceeded;
        }
        let ghost before = self.line@;
        let mut bytes = bytes_of(piece, 0, take);
        assert(bytes@ =~= part);
        self.line.append(&mut bytes);
        assert(self.line@ =~= before + part);
        if feed < piece.len() {
            assert(part.last() == 10);
            let mut line: Vec<u8> = Vec::new();
            std::mem::swap(&mut line, &mut self.line);
            return LineStep::Line(line, take);
        }
        proof {
            http_framing::lemma_byte_position(piece@, 10, 0);
        }
        LineStep::Partial
    }
}

// ---------------------------------------------------------------------------
// Replies
// ---------------------------------------------------------------------------

/// What a waiting exchange hears of its server.
pub enum ReaderEvent {
    Line(Vec<u8>),
    LimitExceeded,
    ReadError(String),
    Eof,
    Timeout,
    ReaderStopped,
}

/// What an exchange does next.
pub enum StdioStep {
    /// The reply is there.
    Reply(String),
    /// The line was no reply; wait for another.
    Wait,
    /// The exchange fails, and with `stop` the process is stopped.
    Fail { error: EvaError, stop: bool },
}

/// What an exchange does next, as a value.
pub enum StepModel {
    Reply(Seq<char>),
    Wait,
    Fail { error: ErrorModel, stop: bool },
}

pub open spec fn mismatch_error(expected: u64, actual: int) -> ErrorModel {
    json::protocol_model("MCP JSON-RPC response id mismatch"@).ctx(
        "expected_id"@,
        text::decimal(expected as nat),
    ).ctx("actual_id"@, text::decimal(actual as nat))
}

/// What a line means to the exchange with the given identifier. A line that does
/// not keep to the protocol stops the process; a reply that is merely longer
/// than the caller takes does not.
pub open spec fn line_step(line: Seq<u8>, id: u64, limit: usize) -> StepModel {
    if !valid_utf8(line) {
        StepModel::Fail {
            error: ErrorModel::new(
                ErrorKind::Unavailable,
                "MCP JSON-RPC response was not UTF-8"@,
            ).code("mcp_protocol_error"@).ctx("utf8_error"@, text::utf8_error_text(line)),
            stop: true,
        }
    } else {
        let reply = decode_utf8(line);
        let envelope = text::trimmed(reply);
        match json_rpc::oversize_error(reply, limit) {
            Some(error) => StepModel::Fail { error, stop: false },
            None => if !json::holds(envelope, 0, '{') {
                StepModel::Wait
            } else {
                match json_rpc::u64_field(envelope, "id"@) {
                    Err(error) => StepModel::Fail { error, stop: true },
                    Ok(None) => StepModel::Wait,
                    Ok(Some(actual)) => if actual == id {
                        StepModel::Reply(reply)
                    } else {
                        StepModel::Fail { error: mismatch_error(id, actual), stop: true }
                    },
                }
            },
        }
    }
}

/// What an event means to the exchange with the given identifier.
pub open spec fn event_step(event: ReaderEvent, id: u64, limit: usize) -> StepModel {
    match event {
        ReaderEvent::Line(line) => line_step(line@, id, limit),
        ReaderEvent::LimitExceeded => StepModel::Fail {
            error: ErrorModel::new(
                ErrorKind::Conflict,
                "MCP JSON-RPC response exceeded output limit"@,
            ).code("mcp_response_too_large"@).ctx(
                "output_limit_bytes"@,
                text::decimal(limit as nat),
            ),
            stop: true,
        },
        ReaderEvent::ReadError(description) => StepModel::Fail {
            error: ErrorModel::new(
                ErrorKind::Unavailable,
                "failed to read MCP JSON-RPC response"@,
            ).ctx("io_error"@, description@),
            stop: true,
        },
        ReaderEvent::Eof => StepModel::Fail {
            error: ErrorModel::new(
                ErrorKind::Unavailable,
                "MCP stdio server closed stdout"@,
            ).code("mcp_stdio_eof"@),
            stop: true,
        },
        ReaderEvent::Timeout => StepModel::Fail {
            error: ErrorModel::new(ErrorKind::Timeout, "MCP JSON-RPC response timed out"@).ctx(
                "json_rpc_id"@,
                text::decimal(id as nat),
            ),
            stop: true,
        },
        ReaderEvent::ReaderStopped => StepModel::Fail {
            error: ErrorModel::new(ErrorKind::Unavailable, "MCP stdio reader stopped"@).code(
                "mcp_stdio_reader_stopped"@,
            ),
            stop: true,
        },
    }
}

/// Whether a step is the one that was specified.
pub open spec fn same_step(found: StdioStep, expected: StepModel) -> bool {
    match found {
        StdioStep::Reply(text) => expected == StepModel::Reply(text@),
        StdioStep::Wait => expected == StepModel::Wait,
        StdioStep::Fail { error, stop } => expected == (StepModel::Fail { error: error@, stop }),
    }
}

fn read_line(line: Vec<u8>, expected_id: u64, output_limit_bytes: usize) -> (step: StdioStep)
    ensures
        same_step(step, line_step(line@, expected_id, output_limit_bytes)),
{
    let reply = match string_from_utf8(line) {
        Ok(reply) => reply,
        Err(description) => return StdioStep::Fail {
            error: EvaError::unavailable("MCP JSON-RPC response was not UTF-8").with_provider_code(
                "mcp_protocol_error",
            ).with_context("utf8_error", description.as_str()),
            stop: true,
        },
    };
    match enforce_response_limit(reply.as_str(), output_limit_bytes) {
        Ok(()) => {},
        Err(error) => return StdioStep::Fail { error, stop: false },
    }
    let envelope = trim(reply.as_str());
    let chars = chars_of(envelope.as_str());
    if chars.len() == 0 || chars[0] != '{' {
        return StdioStep::Wait;
    }
    match json_u64_field(envelope.as_str(), "id") {
        Err(error) => StdioStep::Fail { error, stop: true },
        Ok(None) => StdioStep::Wait,
        Ok(Some(actual)) => if actual == expected_id {
            StdioStep::Reply(reply)
        } else {
            StdioStep::Fail {
                error: protocol_error("MCP JSON-RPC response id mismatch").with_context(
                    "expected_id",
                    decimal_u64(expected_id).as_str(),
                ).with_context("actual_id", decimal_u64(actual).as_str()),
                stop: true,
            }
        },
    }
}

/// Decide what an exchange does when it hears of its server.
pub fn exchange_step(event: ReaderEvent, expected_id: u64, output_limit_bytes: usize) -> (step:
    StdioStep)
    ensures
        same_step(step, event_step(event, expected_id, output_limit_bytes)),
{
    match event {
        ReaderEvent::Line(line) => read_line(line, expected_id, output_limit_bytes),
        ReaderEvent::LimitExceeded => StdioStep::Fail {
            error: EvaError::conflict(
                "MCP JSON-RPC response exceeded output limit",
            ).with_provider_code("mcp_response_too_large").with_context(
                "output_limit_bytes",
                decimal_usize(output_limit_bytes).as_str(),
            ),
            stop: true,
        },
        ReaderEvent::ReadError(description) => StdioStep::Fail {
            error: EvaError::unavailable("failed to read MCP JSON-RPC response").with_context(
                "io_error",
                description.as_str(),
            ),
            stop: true,
        },
        ReaderEvent::Eof => StdioStep::Fail {
            error: EvaError::unavailable("MCP stdio server closed stdout").with_provider_code(
                "mcp_stdio_eof",
            ),
            stop: true,
        },
        ReaderEvent::Timeout => StdioStep::Fail {
            error: EvaError::timeout("MCP JSON-RPC response timed out").with_context(
                "json_rpc_id",
                decimal_u64(expected_id).as_str(),
            ),
            stop: true,
        },
        ReaderEvent::ReaderStopped => StdioStep::Fail {
            error: EvaError::unavailable("MCP stdio reader stopped").with_provider_code(
                "mcp_stdio_reader_stopped",
            ),
            stop: true,
        },
    }
}

/// A line is taken for a reply only if it carries the identifier that is waited
/// for and keeps the limit.
pub proof fn law_reply_carries_the_id(line: Seq<u8>, id: u64, limit: usize)
    requires
        line_step(line, id, limit) is Reply,
    ensures
        json_rpc::u64_field(text::trimmed(decode_utf8(line)), "id"@) == Ok::<
            Option<int>,
            ErrorModel,
        >(Some(id as int)),
        encode_utf8(decode_utf8(line)).len() <= limit,
        line_step(line, id, limit) == StepModel::Reply(decode_utf8(line)),
{
}

/// An exchange that fails leaves the process running only where a reply keeps to
/// the protocol but is longer than the caller takes. In particular a line that is
/// not UTF-8, one whose identifier cannot be read and a reply to another request
/// all stop it.
pub proof fn law_failures_stop_the_process(event: ReaderEvent, id: u64, limit: usize)
    ensures
        event_step(event, id, limit) matches StepModel::Fail { error, stop } ==> stop || (event
            matches ReaderEvent::Line(line) && valid_utf8(line@) && json_rpc::oversize_error(
            decode_utf8(line@),
            limit,
        ) == Some(error)),
{
}

/// A line that holds one object is what is left of it when it is trimmed: it
/// starts with the brace of the object.
proof fn lemma_object_starts_with_its_brace(reply: Seq<char>)
    requires
        json::object_fields(text::trimmed(reply)) is Ok,
    ensures
        json::holds(text::trimmed(reply), 0, '{'),
{
    reveal(json::object_fields);
    let s = text::trimmed(reply);
    let _ = text::law_trimmed_stands_between_whitespace(reply);
    if s.len() > 0 && json::is_json_space(s[0]) {
        assert(text::is_whitespace(s[0]));
    }
}

/// A line within the limit whose text is an object with the identifier that is
/// waited for is the reply, whatever else the object holds: a result, an error or
/// neither.
pub proof fn law_objects_with_the_id_are_replies(line: Seq<u8>, id: u64, limit: usize, written: Seq<char>)
    requires
        valid_utf8(line),
        encode_utf8(decode_utf8(line)).len() <= limit,
        json::object_fields(text::trimmed(decode_utf8(line))) matches Ok(fields)
            && json::lookup(fields, "id"@) == Some(written),
        text::unsigned_value(text::trimmed(written)) == Ok::<int, text::IntegerFault>(id as int),
    ensures
        line_step(line, id, limit) == StepModel::Reply(decode_utf8(line)),
{
    lemma_object_starts_with_its_brace(decode_utf8(line));
}

/// A line whose text is an object with another identifier fails the exchange and
/// stops the process, whatever else the object holds; one whose text is an object
/// without an identifier is passed over.
pub proof fn law_other_objects_are_no_replies(line: Seq<u8>, id: u64, other: u64, limit: usize)
    requires
        valid_utf8(line),
        encode_utf8(decode_utf8(line)).len() <= limit,
        json::object_fields(text::trimmed(decode_utf8(line))) is Ok,
        id != other,
    ensures
        ({
            let fields = json::object_fields(text::trimmed(decode_utf8(line)))->Ok_0;
            &&& json::lookup(fields, "id"@) == Some(text::decimal(other as nat)) ==> line_step(
                line,
                id,
                limit,
            ) == (StepModel::Fail { error: mismatch_error(id, other as int), stop: true })
            &&& json::lookup(fields, "id"@) is None ==> line_step(line, id, limit)
                == StepModel::Wait
        }),
{
    lemma_object_starts_with_its_brace(decode_utf8(line));
    text::law_decimal_reads_back(other);
    text::lemma_decimal_digits(other as nat);
    let d = text::decimal(other as nat);
    assert(text::is_decimal_digit(d[0]) && text::is_decimal_digit(d[d.len() - 1]));
    text::lemma_trimmed_stays(d);
}

/// A line that does not start with the brace of an object, apart from whitespace,
/// is passed over, as long as it is within the limit.
pub proof fn law_other_output_is_passed_over(line: Seq<u8>, id: u64, limit: usize)
    requires
        valid_utf8(line),
        encode_utf8(decode_utf8(line)).len() <= limit,
        text::trimmed(decode_utf8(line)).len() == 0 || text::trimmed(decode_utf8(line))[0] != '{',
    ensures
        line_step(line, id, limit) == StepModel::Wait,
{
}

/// A line longer than the caller takes is reported with both lengths, and leaves
/// the process running.
pub proof fn law_long_lines_are_reported(line: Seq<u8>, id: u64, limit: usize)
    requires
        valid_utf8(line),
        encode_utf8(decode_utf8(line)).len() > limit,
    ensures
        line_step(line, id, limit) matches StepModel::Fail { error, stop } && !stop && error.kind
            == ErrorKind::Conflict && error.provider_code == Some("mcp_response_too_large"@),
{
}

/// A reply is found however it is written: as an object with the identifier among
/// its members, in any order, with blanks between them and behind it, as long as it
/// is within the limit.
pub proof fn law_written_replies_are_found(
    members: Seq<Member>,
    at: int,
    id: u64,
    end: Seq<char>,
    limit: usize,
)
    requires
        json_layout::members_wf(members, json::MAX_JSON_NESTING_DEPTH - 1),
        json::distinct_keys(json_layout::fields_of(members)),
        0 <= at < members.len(),
        members[at].field() == ("id"@, text::decimal(id as nat)),
        json_layout::is_blank(end),
        encode_utf8(json_layout::object_text(Seq::empty(), members) + end).len() <= limit,
    ensures
        line_step(encode_utf8(json_layout::object_text(Seq::empty(), members) + end), id, limit)
            == StepModel::Reply(json_layout::object_text(Seq::empty(), members) + end),
{
    let none = Seq::<char>::empty();
    let object = json_layout::object_text(none, members);
    let line = object + end;
    let fields = json_layout::fields_of(members);
    encode_utf8_valid_utf8(line);
    encode_utf8_decode_utf8(line);
    assert(object[0] == '{' && object.last() == '}');
    assert(text::all_whitespace(end)) by {
        assert forall|i: int| 0 <= i < end.len() implies text::is_whitespace(#[trigger] end[i]) by {
            let c = end[i];
            assert(c == ' ' || c == '\t' || c == '\r' || c == '\n');
        }
    }
    text::law_trimming_cuts_whitespace(none, object, end);
    assert(none + object + end =~= line);
    json_layout::law_objects_are_read(none, none, members, none);
    assert(none + object + none =~= object);
    assert(fields[at] == members[at].field());
    json::lemma_lookup_at(fields, at);
    text::law_decimal_reads_back(id);
    text::lemma_decimal_digits(id as nat);
    let d = text::decimal(id as nat);
    assert(text::is_decimal_digit(d[0]) && text::is_decimal_digit(d[d.len() - 1]));
    text::lemma_trimmed_stays(d);
    law_objects_with_the_id_are_replies(encode_utf8(line), id, limit, d);
}

/// Output is cut into lines at the line feeds, and nothing is lost: a line that is
/// complete is what was gathered before and the piece up to and with its first
/// line feed.
pub proof fn law_lines_end_at_line_feeds(piece: Seq<u8>)
    ensures
        line_part(piece).len() <= piece.len(),
        line_part(piece) == piece.take(line_part(piece).len() as int),
        forall|i: int| 0 <= i < line_part(piece).len() - 1 ==> #[trigger] line_part(piece)[i] != 10,
        line_part(piece).len() < piece.len() ==> line_part(piece).last() == 10,
        (exists|i: int| 0 <= i < piece.len() && #[trigger] piece[i] == 10) <==> line_part(
            piece,
        ).len() > 0 && line_part(piece).last() == 10,
{
    http_framing::lemma_byte_position(piece, 10, 0);
    assert(line_part(piece) =~= piece.take(line_part(piece).len() as int));
    let feed = http_framing::byte_position(piece, 10, 0);
    if feed < piece.len() {
        assert(piece[feed] == 10);
    } else if line_part(piece).len() > 0 {
        assert(piece[piece.len() - 1] != 10);
    }
}

/// A process is run only where its transport is that of processes, its command is
/// one of those allowed and not blank, and it has time to start; and then it is.
pub proof fn law_only_allowed_commands_are_run(config: McpSessionConfig)
    ensures
        stdio_refusal(config) is None <==> {
            &&& config.server_transport == McpServerTransport::Stdio
            &&& !text::all_whitespace(config.process.command@)
            &&& exists|i: int|
                0 <= i < config.process.allowed_commands@.len()
                    && (#[trigger] config.process.allowed_commands@[i])@ == config.process.command@
            &&& config.process.startup_timeout_ms > 0
        },
{
    text::lemma_trimmed_is_empty(config.process.command@);
    let allowed = config.process.allowed_commands@;
    let command = config.process.command@;
    if text::texts(allowed).contains(command) {
        let i = choose|i: int| 0 <= i < text::texts(allowed).len() && text::texts(allowed)[i] == command;
        assert(allowed[i]@ == command);
    }
    if exists|i: int| 0 <= i < allowed.len() && (#[trigger] allowed[i])@ == command {
        let i = choose|i: int| 0 <= i < allowed.len() && (#[trigger] allowed[i])@ == command;
        assert(text::texts(allowed)[i] == command);
    }
}

} // verus!

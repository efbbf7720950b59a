//! The runs that a compatibility measurement is made of: the tool that is
//! exposed, how the replies are read, and what the server on the other side of
//! a TLS connection answers.

use vstd::prelude::*;
use vstd::string::*;
use vstd::utf8::*;
use crate::compatibility::{
    ControlledServerRun, RunModel, TlsLifecycleRun, TlsRunModel, COMPATIBILITY_TOOL,
};
use crate::error::{ErrorKind, ErrorModel, EvaError};
use crate::http_registry::McpHttpAbortReceipt;
use crate::json;
use crate::json::{json_string, parse_json_object_fields, parse_json_string, Fields, JsonFields};
use crate::json_rpc::DEFAULT_PROTOCOL_VERSION;
use crate::server;
use crate::server::{
    EvaMcpServerSurface, HandledCall, McpServerTool, McpServerToolCall, McpServerToolHandler,
    McpServerToolResult, ToolModel,
};
use crate::server_rpc;
use crate::server_rpc::SERVER_VERSION;
use crate::server_transport::McpServerServeReport;
use crate::text;
use crate::text::{
    byte_len, bytes_of, chars_of, decimal_u64, decimal_usize, find_char, find_pattern, parse_u64,
    split_text, starts_with, str_eq, string_from_utf8, string_of, to_lower, trim,
};

verus! {

/// The schema of the tool that a measurement calls.
pub const COMPATIBILITY_SCHEMA: &'static str =
    "{\"type\":\"object\",\"properties\":{\"value\":{\"type\":\"string\"}},\"required\":[\"value\"],\"additionalProperties\":false}";

/// The arguments that a measurement calls the tool with.
pub const COMPATIBILITY_INPUT: &'static str = "{\"value\":\"loopback-ok\"}";

/// How many milliseconds one exchange of a measurement may take.
pub const COMPATIBILITY_TIMEOUT_MS: u64 = 3_000;

/// How many bytes one message of a measurement may have.
pub const COMPATIBILITY_OUTPUT_LIMIT: usize = 65_536;

// ---------------------------------------------------------------------------
// The tool
// ---------------------------------------------------------------------------

/// A tool that answers with its argument.
pub struct CompatibilityEchoHandler {
    handled: Ghost<Seq<HandledCall>>,
}

impl CompatibilityEchoHandler {
    pub fn new() -> (handler: CompatibilityEchoHandler)
        ensures
            handler.handled() == Seq::<HandledCall>::empty(),
    {
        CompatibilityEchoHandler { handled: Ghost(Seq::empty()) }
    }

    fn echo(request: &McpServerToolCall<'_>) -> (answer: Result<McpServerToolResult, EvaError>)
        ensures
            server::answer_model(answer) == echoed(request.arguments_text()),
    {
        let allowed: Vec<&str> = vec!["value"];
        proof {
            lemma_only_value(allowed@);
        }
        match request.require_only_arguments(allowed.as_slice()) {
            Ok(()) => {},
            Err(error) => return Err(error),
        }
        match request.required_string_argument("value") {
            Ok(value) => Ok(McpServerToolResult::text(value.as_str())),
            Err(error) => Err(error),
        }
    }
}

proof fn lemma_only_value(allowed: Seq<&str>)
    requires
        allowed.len() == 1,
        allowed[0]@ == "value"@,
    ensures
        forall|fields: Fields|
            server::all_among(fields, allowed) <==> #[trigger] only_value(fields),
{
    assert forall|fields: Fields|
        server::all_among(fields, allowed) <==> #[trigger] only_value(fields) by {
        if only_value(fields) {
            assert forall|i: int| 0 <= i < fields.len() implies server::is_among(
                (#[trigger] fields[i]).0,
                allowed,
            ) by {
                assert(allowed[0]@ == fields[i].0);
            }
        }
    }
}

/// Whether no field but `value` is there.
pub open spec fn only_value(fields: Fields) -> bool {
    forall|i: int| 0 <= i < fields.len() ==> (#[trigger] fields[i]).0 == "value"@
}

/// What the tool answers.
pub open spec fn echoed(arguments: Seq<char>) -> Result<server::ToolResultModel, ErrorModel> {
    match json::object_fields(arguments) {
        Err(_) => Err(server::arguments_error_model()),
        Ok(fields) => if !only_value(fields) {
            Err(server::unknown_argument_model())
        } else {
            match server::string_argument_of(arguments, "value"@) {
                Err(error) => Err(error),
                Ok(None) => Err(server::missing_argument_model()),
                Ok(Some(text)) => Ok(server::ToolResultModel { text, is_error: false }),
            }
        },
    }
}

impl McpServerToolHandler for CompatibilityEchoHandler {
    closed spec fn handled(&self) -> Seq<HandledCall> {
        self.handled@
    }

    fn call_tool(&mut self, request: McpServerToolCall<'_>) -> (answer: Result<
        McpServerToolResult,
        EvaError,
    >)
        ensures
            server::answer_model(answer) == echoed(request.arguments_text()),
    {
        let answer = CompatibilityEchoHandler::echo(&request);
        self.handled = Ghost(
            self.handled@.push(
                HandledCall {
                    tool: request.name(),
                    arguments: request.arguments_text(),
                    answer: server::answer_model(answer),
                },
            ),
        );
        answer
    }
}

/// The tool that a measurement exposes.
pub open spec fn compatibility_tool() -> ToolModel {
    ToolModel {
        name: COMPATIBILITY_TOOL@,
        description: "Echo one controlled compatibility value"@,
        input_schema: COMPATIBILITY_SCHEMA@,
        side_effects: false,
    }
}

/// The surface that a measurement exposes.
pub fn compatibility_surface() -> (outcome: Result<EvaMcpServerSurface, EvaError>)
    ensures
        match outcome {
            Ok(surface) => surface.wf() && surface@ == seq![compatibility_tool()],
            Err(error) => server::surface_refusal(seq![compatibility_tool()]) == Some(error@),
        },
{
    match McpServerTool::new(
        COMPATIBILITY_TOOL,
        "Echo one controlled compatibility value",
        COMPATIBILITY_SCHEMA,
        false,
    ) {
        Ok(tool) => {
            let tools = vec![tool];
            assert(server::tool_models(tools@) =~= seq![compatibility_tool()]);
            EvaMcpServerSurface::new(tools)
        },
        Err(error) => {
            proof {
                let tools = seq![compatibility_tool()];
                assert(tools[0] == compatibility_tool());
                assert(server::tools_refusal(tools, 0) == server::tool_refusal(tools[0]));
            }
            Err(error)
        },
    }
}

// ---------------------------------------------------------------------------
// Reading the replies
// ---------------------------------------------------------------------------

pub open spec fn compatibility_model(message: Seq<char>) -> ErrorModel {
    ErrorModel::new(ErrorKind::Unavailable, message).code("mcp_compatibility_protocol_invalid"@)
}

pub fn compatibility_protocol_error(message: &str) -> (error: EvaError)
    ensures
        error@ == compatibility_model(message@),
{
    EvaError::unavailable(message).with_provider_code("mcp_compatibility_protocol_invalid")
}

/// The result that a reply carries whose identifier is written as expected.
pub open spec fn direct_result(response: Seq<char>, expected_id: Seq<char>) -> Result<
    Seq<char>,
    ErrorModel,
> {
    match json::object_fields(response) {
        Err(fault) => Err(fault.model()),
        Ok(fields) => if json::lookup(fields, "jsonrpc"@) != Some("\"2.0\""@) || json::lookup(
            fields,
            "id"@,
        ) != Some(expected_id) || json::lookup(fields, "error"@) is Some {
            Err(
                compatibility_model("MCP compatibility JSON-RPC response envelope is invalid"@),
            )
        } else {
            match json::lookup(fields, "result"@) {
                Some(result) => Ok(result),
                None => Err(
                    compatibility_model(
                        "MCP compatibility JSON-RPC response is missing result"@,
                    ),
                ),
            }
        },
    }
}

fn holds_text(fields: &JsonFields, key: &str, value: &str) -> (holds: bool)
    ensures
        holds == (json::lookup(fields@, key@) == Some(value@)),
{
    match fields.get(key) {
        Some(found) => str_eq(found, value),
        None => false,
    }
}

pub fn direct_json_rpc_result(response: &str, expected_id: &str) -> (outcome: Result<
    String,
    EvaError,
>)
    ensures
        crate::json_rpc::same_reply(outcome, direct_result(response@, expected_id@)),
{
    let fields = match parse_json_object_fields(response) {
        Ok(fields) => fields,
        Err(error) => return Err(error),
    };
    if !holds_text(&fields, "jsonrpc", "\"2.0\"") || !holds_text(&fields, "id", expected_id)
        || fields.get("error").is_some() {
        return Err(
            compatibility_protocol_error("MCP compatibility JSON-RPC response envelope is invalid"),
        );
    }
    match fields.get("result") {
        Some(result) => Ok(result.to_owned()),
        None => Err(
            compatibility_protocol_error("MCP compatibility JSON-RPC response is missing result"),
        ),
    }
}

/// What a string field holds that must be there.
pub open spec fn direct_string(fields: Fields, name: Seq<char>) -> Result<Seq<char>, ErrorModel> {
    match json::lookup(fields, name) {
        None => Err(compatibility_model("MCP compatibility field is missing"@)),
        Some(value) => match json::string_value(value) {
            Ok(text) => Ok(text),
            Err(fault) => Err(fault.model()),
        },
    }
}

pub fn direct_json_string_field(fields: &JsonFields, name: &str) -> (outcome: Result<
    String,
    EvaError,
>)
    ensures
        crate::json_rpc::same_reply(outcome, direct_string(fields@, name@)),
{
    match fields.get(name) {
        None => Err(compatibility_protocol_error("MCP compatibility field is missing")),
        Some(value) => parse_json_string(value),
    }
}

/// The object that an array of one object holds.
pub open spec fn single_object(value: Seq<char>) -> Result<Seq<char>, ErrorModel> {
    let core = text::trimmed(value);
    if !(core.len() >= 2 && core[0] == '[' && core.last() == ']') {
        Err(compatibility_model("MCP compatibility array is invalid"@))
    } else {
        let inner = text::trimmed(core.subrange(1, core.len() - 1));
        if inner.len() == 0 {
            Err(compatibility_model("MCP compatibility array is empty"@))
        } else {
            match json::object_fields(inner) {
                Ok(_) => Ok(inner),
                Err(fault) => Err(fault.model()),
            }
        }
    }
}

pub fn single_array_value(value: &str) -> (outcome: Result<String, EvaError>)
    ensures
        crate::json_rpc::same_reply(outcome, single_object(value@)),
{
    let core = chars_of(trim(value).as_str());
    let len: usize = core.len();
    if len < 2 || core[0] != '[' || core[len - 1] != ']' {
        return Err(compatibility_protocol_error("MCP compatibility array is invalid"));
    }
    let inner = trim(string_of(core.as_slice(), 1, len - 1).as_str());
    if inner.as_str().is_empty() {
        return Err(compatibility_protocol_error("MCP compatibility array is empty"));
    }
    match parse_json_object_fields(inner.as_str()) {
        Ok(_) => Ok(inner),
        Err(error) => Err(error),
    }
}

/// The version of the protocol, and the name and the version of the server, that
/// the result of `initialize` names.
pub open spec fn server_info(result: Seq<char>) -> Result<
    (Seq<char>, Seq<char>, Seq<char>),
    ErrorModel,
> {
    match json::object_fields(result) {
        Err(fault) => Err(fault.model()),
        Ok(fields) => match direct_string(fields, "protocolVersion"@) {
            Err(error) => Err(error),
            Ok(protocol) => match json::lookup(fields, "serverInfo"@) {
                None => Err(
                    compatibility_model("initialize result is missing direct serverInfo"@),
                ),
                Some(info) => match json::object_fields(info) {
                    Err(fault) => Err(fault.model()),
                    Ok(server) => match direct_string(server, "name"@) {
                        Err(error) => Err(error),
                        Ok(name) => match direct_string(server, "version"@) {
                            Err(error) => Err(error),
                            Ok(version) => Ok((protocol, name, version)),
                        },
                    },
                },
            },
        },
    }
}

fn read_server_info(result: &str) -> (outcome: Result<(String, String, String), EvaError>)
    ensures
        match outcome {
            Ok((protocol, name, version)) => server_info(result@) == Ok::<
                (Seq<char>, Seq<char>, Seq<char>),
                ErrorModel,
            >((protocol@, name@, version@)),
            Err(error) => server_info(result@) == Err::<
                (Seq<char>, Seq<char>, Seq<char>),
                ErrorModel,
            >(error@),
        },
{
    let fields = match parse_json_object_fields(result) {
        Ok(fields) => fields,
        Err(error) => return Err(error),
    };
    let protocol = match direct_json_string_field(&fields, "protocolVersion") {
        Ok(protocol) => protocol,
        Err(error) => return Err(error),
    };
    let server = match fields.get("serverInfo") {
        None => return Err(
            compatibility_protocol_error("initialize result is missing direct serverInfo"),
        ),
        Some(info) => match parse_json_object_fields(info) {
            Ok(server) => server,
            Err(error) => return Err(error),
        },
    };
    let name = match direct_json_string_field(&server, "name") {
        Ok(name) => name,
        Err(error) => return Err(error),
    };
    match direct_json_string_field(&server, "version") {
        Ok(version) => Ok((protocol, name, version)),
        Err(error) => Err(error),
    }
}

/// The schema of the tool, in a list that holds it and no other.
pub open spec fn listed_schema(result: Seq<char>) -> Result<Seq<char>, ErrorModel> {
    match json::object_fields(result) {
        Err(fault) => Err(fault.model()),
        Ok(fields) => match json::lookup(fields, "tools"@) {
            None => Err(compatibility_model("tools/list result is missing direct tools"@)),
            Some(tools) => match single_object(tools) {
                Err(error) => Err(error),
                Ok(tool) => match json::object_fields(tool) {
                    Err(fault) => Err(fault.model()),
                    Ok(tool_fields) => match direct_string(tool_fields, "name"@) {
                        Err(error) => Err(error),
                        Ok(name) => if name != COMPATIBILITY_TOOL@ {
                            Err(
                                compatibility_model(
                                    "tools/list did not return the measured tool"@,
                                ),
                            )
                        } else {
                            match json::lookup(tool_fields, "inputSchema"@) {
                                Some(schema) => Ok(schema),
                                None => Err(
                                    compatibility_model(
                                        "tools/list tool is missing direct inputSchema"@,
                                    ),
                                ),
                            }
                        },
                    },
                },
            },
        },
    }
}

fn read_listed_schema(result: &str) -> (outcome: Result<String, EvaError>)
    ensures
        crate::json_rpc::same_reply(outcome, listed_schema(result@)),
{
    let fields = match parse_json_object_fields(result) {
        Ok(fields) => fields,
        Err(error) => return Err(error),
    };
    let tool = match fields.get("tools") {
        None => return Err(
            compatibility_protocol_error("tools/list result is missing direct tools"),
        ),
        Some(tools) => match single_array_value(tools) {
            Ok(tool) => tool,
            Err(error) => return Err(error),
        },
    };
    let tool_fields = match parse_json_object_fields(tool.as_str()) {
        Ok(tool_fields) => tool_fields,
        Err(error) => return Err(error),
    };
    match direct_json_string_field(&tool_fields, "name") {
        Ok(name) => {
            if !str_eq(name.as_str(), COMPATIBILITY_TOOL) {
                return Err(
                    compatibility_protocol_error("tools/list did not return the measured tool"),
                );
            }
        },
        Err(error) => return Err(error),
    }
    match tool_fields.get("inputSchema") {
        Some(schema) => Ok(schema.to_owned()),
        None => Err(
            compatibility_protocol_error("tools/list tool is missing direct inputSchema"),
        ),
    }
}

/// What the replies to the three requests of a run show.
pub open spec fn run_of(initialize: Seq<char>, list: Seq<char>, call: Seq<char>) -> Result<
    RunModel,
    ErrorModel,
> {
    match direct_result(initialize, "1"@) {
        Err(error) => Err(error),
        Ok(opened) => match server_info(opened) {
            Err(error) => Err(error),
            Ok((protocol, name, version)) => match direct_result(list, "2"@) {
                Err(error) => Err(error),
                Ok(listed) => match listed_schema(listed) {
                    Err(error) => Err(error),
                    Ok(schema) => match direct_result(call, "3"@) {
                        Err(error) => Err(error),
                        Ok(output) => Ok(
                            RunModel {
                                server_name: name,
                                server_version: version,
                                protocol_version: protocol,
                                schema_bytes: encode_utf8(schema),
                                output_bytes: encode_utf8(output),
                            },
                        ),
                    },
                },
            },
        },
    }
}

fn bytes_of_text(content: &str) -> (bytes: Vec<u8>)
    ensures
        bytes@ == encode_utf8(content@),
{
    let all = content.as_bytes();
    let bytes = bytes_of(all, 0, all.len());
    assert(bytes@ =~= encode_utf8(content@));
    bytes
}

/// Read the replies to the three requests of a run.
pub fn read_controlled_run(initialize: &str, list: &str, call: &str) -> (outcome: Result<
    ControlledServerRun,
    EvaError,
>)
    ensures
        match outcome {
            Ok(run) => run_of(initialize@, list@, call@) == Ok::<RunModel, ErrorModel>(run@),
            Err(error) => run_of(initialize@, list@, call@) == Err::<RunModel, ErrorModel>(error@),
        },
{
    let opened = match direct_json_rpc_result(initialize, "1") {
        Ok(opened) => opened,
        Err(error) => return Err(error),
    };
    let (protocol, name, version) = match read_server_info(opened.as_str()) {
        Ok((protocol, name, version)) => (protocol, name, version),
        Err(error) => return Err(error),
    };
    let listed = match direct_json_rpc_result(list, "2") {
        Ok(listed) => listed,
        Err(error) => return Err(error),
    };
    let schema = match read_listed_schema(listed.as_str()) {
        Ok(schema) => schema,
        Err(error) => return Err(error),
    };
    let output = match direct_json_rpc_result(call, "3") {
        Ok(output) => output,
        Err(error) => return Err(error),
    };
    Ok(
        ControlledServerRun {
            server_name: name,
            server_version: version,
            protocol_version: protocol,
            schema_bytes: bytes_of_text(schema.as_str()),
            output_bytes: bytes_of_text(output.as_str()),
        },
    )
}

/// Whether a server saw exactly one session with one call, and nothing go wrong.
pub open spec fn is_clean_report(report: McpServerServeReport) -> bool {
    report.sessions_created == 1 && report.sessions_deleted == 1
        && report.sessions_closed_on_shutdown == 0 && report.handler_calls == 1
        && report.blocked_tool_calls == 0 && report.protocol_errors == 0
        && report.dangling_sessions == 0
}

pub open spec fn server_incomplete_model() -> ErrorModel {
    ErrorModel::new(
        ErrorKind::Unavailable,
        "MCP compatibility controlled server run was incomplete"@,
    ).code("mcp_compatibility_server_incomplete"@)
}

pub fn validate_controlled_server_report(report: &McpServerServeReport) -> (outcome: Result<
    (),
    EvaError,
>)
    ensures
        match outcome {
            Ok(()) => is_clean_report(*report),
            Err(error) => !is_clean_report(*report) && error@ == server_incomplete_model(),
        },
{
    if report.sessions_created != 1 || report.sessions_deleted != 1
        || report.sessions_closed_on_shutdown != 0 || report.handler_calls != 1
        || report.blocked_tool_calls != 0 || report.protocol_errors != 0
        || report.dangling_sessions != 0 {
        return Err(
            EvaError::unavailable(
                "MCP compatibility controlled server run was incomplete",
            ).with_provider_code("mcp_compatibility_server_incomplete"),
        );
    }
    Ok(())
}

// ---------------------------------------------------------------------------
// The requests of a run over TLS
// ---------------------------------------------------------------------------

/// Whether an empty line ends at the given position of the bytes.
pub open spec fn blank_line_at(b: Seq<u8>, at: int) -> bool {
    0 <= at && at + 4 <= b.len() && b[at] == 13 && b[at + 1] == 10 && b[at + 2] == 13 && b[at + 3]
        == 10
}

/// Where the head of a request ends, if it does.
pub open spec fn head_end(b: Seq<u8>, at: int) -> Option<int>
    decreases b.len() - at,
{
    if at + 4 > b.len() {
        None
    } else if blank_line_at(b, at) {
        Some(at)
    } else {
        head_end(b, at + 1)
    }
}

/// The length that a line declares, if it does.
pub open spec fn line_length(line: Seq<char>) -> Option<int> {
    let colon = text::char_position(line, ':', 0);
    if colon >= line.len() || text::lower(line.subrange(0, colon)) != "content-length"@ {
        None
    } else {
        match text::unsigned_value(text::trimmed(line.subrange(colon + 1, line.len() as int))) {
            Ok(length) => if length <= usize::MAX {
                Some(length)
            } else {
                None
            },
            Err(_) => None,
        }
    }
}

/// The length that the first of the lines declares that does; none is zero.
pub open spec fn lines_length(lines: Seq<Seq<char>>, at: int) -> int
    decreases lines.len() - at,
{
    if at < 0 || at >= lines.len() {
        0
    } else {
        match line_length(lines[at]) {
            Some(length) => length,
            None => lines_length(lines, at + 1),
        }
    }
}

/// What the bytes at hand are: a request, or part of one. Where they are too
/// many or no text, they are refused.
pub open spec fn bounded_request(b: Seq<u8>, ended: bool) -> Result<Option<Seq<char>>, ErrorModel> {
    if ended {
        Err(
            compatibility_model(
                "MCP compatibility TLS request ended before framing completed"@,
            ),
        )
    } else if b.len() > COMPATIBILITY_OUTPUT_LIMIT {
        Err(compatibility_model("MCP compatibility TLS request exceeded its bound"@))
    } else {
        match head_end(b, 0) {
            None => Ok(None),
            Some(end) => if !valid_utf8(b.subrange(0, end)) {
                Err(
                    compatibility_model("MCP compatibility TLS request headers are not UTF-8"@),
                )
            } else {
                let length = lines_length(text::split(decode_utf8(b.subrange(0, end)), '\n'), 0);
                if length > COMPATIBILITY_OUTPUT_LIMIT {
                    Err(
                        compatibility_model(
                            "MCP compatibility TLS request body exceeded its bound"@,
                        ),
                    )
                } else if b.len() < end + 4 + length {
                    Ok(None)
                } else if valid_utf8(b) {
                    Ok(Some(decode_utf8(b)))
                } else {
                    Err(compatibility_model("MCP compatibility TLS request is not UTF-8"@))
                }
            },
        }
    }
}

fn find_head_end(b: &[u8]) -> (end: Option<usize>)
    ensures
        match end {
            Some(end) => head_end(b@, 0) == Some(end as int) && end + 4 <= b@.len(),
            None => head_end(b@, 0) is None,
        },
{
    let len: usize = b.len();
    let mut i: usize = 0;
    while len >= 4 && i <= len - 4
        invariant
            len == b@.len(),
            i <= len,
            head_end(b@, 0) == head_end(b@, i as int),
        decreases len - i,
    {
        if b[i] == 13 && b[i + 1] == 10 && b[i + 2] == 13 && b[i + 3] == 10 {
            return Some(i);
        }
        i += 1;
    }
    None
}

fn read_line_length(line: &str) -> (length: Option<usize>)
    ensures
        match length {
            Some(n) => line_length(line@) == Some(n as int),
            None => line_length(line@) is None,
        },
{
    let chars = chars_of(line);
    let colon: usize = find_char(chars.as_slice(), ':', 0);
    if colon >= chars.len() {
        return None;
    }
    let name = string_of(chars.as_slice(), 0, colon);
    if !str_eq(to_lower(name.as_str()).as_str(), "content-length") {
        return None;
    }
    let value = string_of(chars.as_slice(), colon + 1, chars.len());
    match parse_u64(trim(value.as_str()).as_str()) {
        Ok(length) => if length <= usize::MAX as u64 {
            Some(length as usize)
        } else {
            None
        },
        Err(_) => None,
    }
}

fn read_lines_length(head: &str) -> (length: usize)
    ensures
        length == lines_length(text::split(head@, '\n'), 0),
{
    let lines = split_text(head, '\n');
    let ghost all = text::split(head@, '\n');
    assert(all == text::texts(lines@));
    let mut i: usize = 0;
    while i < lines.len()
        invariant
            i <= lines@.len(),
            all == text::split(head@, '\n'),
            all == text::texts(lines@),
            lines_length(all, 0) == lines_length(all, i as int),
        decreases lines@.len() - i,
    {
        assert(all[i as int] == lines@[i as int]@);
        match read_line_length(lines[i].as_str()) {
            Some(length) => return length,
            None => {},
        }
        i += 1;
    }
    assert(all.len() == lines@.len());
    0
}

/// Read a request from the bytes that have arrived; none while more are needed.
pub fn read_bounded_http_request(b: &[u8], ended: bool) -> (outcome: Result<
    Option<String>,
    EvaError,
>)
    ensures
        match outcome {
            Ok(request) => bounded_request(b@, ended) == Ok::<Option<Seq<char>>, ErrorModel>(
                crate::error::option_text(request),
            ),
            Err(error) => bounded_request(b@, ended) == Err::<Option<Seq<char>>, ErrorModel>(
                error@,
            ),
        },
{
    if ended {
        return Err(
            compatibility_protocol_error(
                "MCP compatibility TLS request ended before framing completed",
            ),
        );
    }
    let len: usize = b.len();
    if len > COMPATIBILITY_OUTPUT_LIMIT {
        return Err(
            compatibility_protocol_error("MCP compatibility TLS request exceeded its bound"),
        );
    }
    let end: usize = match find_head_end(b) {
        Some(end) => end,
        None => return Ok(None),
    };
    let head = match string_from_utf8(bytes_of(b, 0, end)) {
        Ok(head) => head,
        Err(_) => return Err(
            compatibility_protocol_error("MCP compatibility TLS request headers are not UTF-8"),
        ),
    };
    let length: usize = read_lines_length(head.as_str());
    if length > COMPATIBILITY_OUTPUT_LIMIT {
        return Err(
            compatibility_protocol_error("MCP compatibility TLS request body exceeded its bound"),
        );
    }
    if len - (end + 4) < length {
        return Ok(None);
    }
    let all = bytes_of(b, 0, len);
    assert(all@ =~= b@);
    match string_from_utf8(all) {
        Ok(request) => Ok(Some(request)),
        Err(_) => Err(compatibility_protocol_error("MCP compatibility TLS request is not UTF-8")),
    }
}

/// The reason phrase of an answer in a run over TLS.
pub open spec fn fixture_reason(status: u16) -> Seq<char> {
    if status == 200 {
        "OK"@
    } else if status == 202 {
        "Accepted"@
    } else if status == 204 {
        "No Content"@
    } else {
        "Compatibility"@
    }
}

/// An answer in a run over TLS.
pub open spec fn fixture_answer(status: u16, body: Seq<char>) -> Seq<char> {
    "HTTP/1.1 "@ + text::decimal(status as nat) + " "@ + fixture_reason(status)
        + "\r\nMcp-Session-Id: compatibility-tls-session\r\n"@ + (if body.len() == 0 {
        ""@
    } else {
        "Content-Type: application/json\r\n"@
    }) + "Content-Length: "@ + text::decimal(encode_utf8(body).len())
        + "\r\nConnection: close\r\n\r\n"@ + body
}

pub fn compatibility_http_response(status: u16, body: &str) -> (response: String)
    ensures
        response@ == fixture_answer(status, body@),
{
    let reason = match status {
        200 => "OK",
        202 => "Accepted",
        204 => "No Content",
        _ => "Compatibility",
    };
    let content_type = if body.is_empty() {
        ""
    } else {
        "Content-Type: application/json\r\n"
    };
    let mut response = String::new();
    response.append("HTTP/1.1 ");
    response.append(decimal_u64(status as u64).as_str());
    response.append(" ");
    response.append(reason);
    response.append("\r\nMcp-Session-Id: compatibility-tls-session\r\n");
    response.append(content_type);
    response.append("Content-Length: ");
    response.append(decimal_usize(byte_len(body)).as_str());
    response.append("\r\nConnection: close\r\n\r\n");
    response.append(body);
    assert(response@ =~= fixture_answer(status, body@));
    response
}

/// The head of the answer that opens an event stream.
pub const STREAM_ANSWER: &'static str =
    "HTTP/1.1 200 OK\r\nMcp-Session-Id: compatibility-tls-session\r\nContent-Type: text/event-stream\r\nTransfer-Encoding: chunked\r\nConnection: keep-alive\r\n\r\n";

/// What the server of a run over TLS has seen.
#[verifier::ext_equal]
pub struct FixtureModel {
    pub tls_protocol: Seq<char>,
    pub handshake_count: usize,
    pub initialize_observed: bool,
    pub initialized_observed: bool,
    pub list_observed: bool,
    pub call_observed: bool,
    pub stream_closed_before_delete: bool,
    pub delete_observed: bool,
}

/// What the server of a run over TLS has seen.
#[derive(Debug)]
pub struct TlsFixtureRun {
    tls_protocol: String,
    handshake_count: usize,
    initialize_observed: bool,
    initialized_observed: bool,
    list_observed: bool,
    call_observed: bool,
    stream_closed_before_delete: bool,
    delete_observed: bool,
}

impl View for TlsFixtureRun {
    type V = FixtureModel;

    closed spec fn view(&self) -> FixtureModel {
        FixtureModel {
            tls_protocol: self.tls_protocol@,
            handshake_count: self.handshake_count,
            initialize_observed: self.initialize_observed,
            initialized_observed: self.initialized_observed,
            list_observed: self.list_observed,
            call_observed: self.call_observed,
            stream_closed_before_delete: self.stream_closed_before_delete,
            delete_observed: self.delete_observed,
        }
    }
}

/// What a request in a run over TLS asks for.
#[derive(Debug, Clone, Copy, PartialEq, Eq, Structural)]
pub enum FixtureRequest {
    OpenStream,
    Delete,
    Initialize,
    Initialized,
    List,
    Call,
}

/// Whether the text holds the part.
pub open spec fn holds_part(s: Seq<char>, part: Seq<char>) -> bool {
    text::find_from(s, part, 0) is Some
}

/// What a request asks for: by its first line, or by the method that its body
/// names.
pub open spec fn fixture_request(request: Seq<char>) -> Option<FixtureRequest> {
    if text::stands_at(request, "GET /mcp HTTP/1.1\r\n"@, 0) {
        Some(FixtureRequest::OpenStream)
    } else if text::stands_at(request, "DELETE /mcp HTTP/1.1\r\n"@, 0) {
        Some(FixtureRequest::Delete)
    } else if holds_part(request, "\"method\":\"initialize\""@) {
        Some(FixtureRequest::Initialize)
    } else if holds_part(request, "\"method\":\"notifications/initialized\""@) {
        Some(FixtureRequest::Initialized)
    } else if holds_part(request, "\"method\":\"tools/list\""@) {
        Some(FixtureRequest::List)
    } else if holds_part(request, "\"method\":\"tools/call\""@) {
        Some(FixtureRequest::Call)
    } else {
        None
    }
}

fn contains_part(s: &Vec<char>, part: &str) -> (found: bool)
    requires
        part@.len() > 0,
    ensures
        found == holds_part(s@, part@),
{
    let pattern = chars_of(part);
    find_pattern(s.as_slice(), pattern.as_slice(), 0).is_some()
}

/// What a request asks for.
pub fn classify_fixture_request(request: &str) -> (asked: Option<FixtureRequest>)
    ensures
        asked == fixture_request(request@),
{
    proof {
        reveal_strlit("\"method\":\"initialize\"");
        reveal_strlit("\"method\":\"notifications/initialized\"");
        reveal_strlit("\"method\":\"tools/list\"");
        reveal_strlit("\"method\":\"tools/call\"");
    }
    if starts_with(request, "GET /mcp HTTP/1.1\r\n") {
        return Some(FixtureRequest::OpenStream);
    }
    if starts_with(request, "DELETE /mcp HTTP/1.1\r\n") {
        return Some(FixtureRequest::Delete);
    }
    let chars = chars_of(request);
    if contains_part(&chars, "\"method\":\"initialize\"") {
        Some(FixtureRequest::Initialize)
    } else if contains_part(&chars, "\"method\":\"notifications/initialized\"") {
        Some(FixtureRequest::Initialized)
    } else if contains_part(&chars, "\"method\":\"tools/list\"") {
        Some(FixtureRequest::List)
    } else if contains_part(&chars, "\"method\":\"tools/call\"") {
        Some(FixtureRequest::Call)
    } else {
        None
    }
}

/// The body of the list of tools in a run over TLS.
pub open spec fn fixture_list() -> Seq<char> {
    "{\"jsonrpc\":\"2.0\",\"id\":2,\"result\":{\"tools\":[{\"name\":"@ + json::quoted(
        COMPATIBILITY_TOOL@,
    ) + ",\"description\":\"Compatibility echo\",\"inputSchema\":"@ + COMPATIBILITY_SCHEMA@
        + "}]}}"@
}

/// The body of the result of a call in a run over TLS.
pub open spec fn fixture_call() -> Seq<char> {
    "{\"jsonrpc\":\"2.0\",\"id\":3,\"result\":{\"content\":[{\"type\":\"text\",\"text\":\"tls-loopback-ok\"}],\"isError\":false}}"@
}

/// What a request is answered with.
pub open spec fn fixture_reply(asked: FixtureRequest) -> Seq<char> {
    match asked {
        FixtureRequest::OpenStream => STREAM_ANSWER@,
        FixtureRequest::Delete => fixture_answer(204, ""@),
        FixtureRequest::Initialize => fixture_answer(200, server_rpc::initialize_body("1"@)),
        FixtureRequest::Initialized => fixture_answer(202, ""@),
        FixtureRequest::List => fixture_answer(200, fixture_list()),
        FixtureRequest::Call => fixture_answer(200, fixture_call()),
    }
}

pub open spec fn handshake_model(message: Seq<char>) -> ErrorModel {
    ErrorModel::new(ErrorKind::Unavailable, message).code(
        "mcp_compatibility_tls_handshake_failed"@,
    )
}

/// What the server has seen after one more connection whose handshake goes on or
/// not, and has settled on a protocol or not.
pub open spec fn after_handshake(
    seen: FixtureModel,
    handshaking: bool,
    protocol: Option<Seq<char>>,
) -> Result<FixtureModel, ErrorModel> {
    if handshaking {
        Err(handshake_model("MCP compatibility TLS handshake did not complete"@))
    } else {
        match protocol {
            None => Err(handshake_model("MCP compatibility TLS protocol was not negotiated"@)),
            Some(protocol) => if seen.tls_protocol.len() > 0 && seen.tls_protocol != protocol {
                Err(
                    ErrorModel::new(
                        ErrorKind::Conflict,
                        "MCP compatibility TLS protocol changed during one run"@,
                    ).code("mcp_compatibility_tls_protocol_changed"@),
                )
            } else {
                Ok(
                    FixtureModel {
                        tls_protocol: protocol,
                        handshake_count: if seen.handshake_count == usize::MAX {
                            usize::MAX
                        } else {
                            (seen.handshake_count + 1) as usize
                        },
                        ..seen
                    },
                )
            },
        }
    }
}

fn handshake_failed(message: &str) -> (error: EvaError)
    ensures
        error@ == handshake_model(message@),
{
    EvaError::unavailable(message).with_provider_code("mcp_compatibility_tls_handshake_failed")
}

/// The error of a connection that TLS could not be set up for.
pub fn connection_failed(tls_error: &str) -> (error: EvaError)
    ensures
        error@ == handshake_model("MCP compatibility TLS server connection failed"@).ctx(
            "tls_error"@,
            tls_error@,
        ),
{
    handshake_failed("MCP compatibility TLS server connection failed").with_context(
        "tls_error",
        tls_error,
    )
}

/// What the server has seen after one more request. For a deletion it is told
/// whether the stream was closed before.
pub open spec fn after_request(seen: FixtureModel, asked: FixtureRequest, stream_closed: bool) -> FixtureModel {
    match asked {
        FixtureRequest::OpenStream => seen,
        FixtureRequest::Delete => FixtureModel {
            stream_closed_before_delete: stream_closed,
            delete_observed: true,
            ..seen
        },
        FixtureRequest::Initialize => FixtureModel { initialize_observed: true, ..seen },
        FixtureRequest::Initialized => FixtureModel { initialized_observed: true, ..seen },
        FixtureRequest::List => FixtureModel { list_observed: true, ..seen },
        FixtureRequest::Call => FixtureModel { call_observed: true, ..seen },
    }
}

pub open spec fn unexpected_request_model() -> ErrorModel {
    compatibility_model("MCP compatibility TLS fixture received an unexpected request"@)
}

fn list_body() -> (body: String)
    ensures
        body@ == fixture_list(),
{
    let mut body = String::new();
    body.append("{\"jsonrpc\":\"2.0\",\"id\":2,\"result\":{\"tools\":[{\"name\":");
    body.append(json_string(COMPATIBILITY_TOOL).as_str());
    body.append(",\"description\":\"Compatibility echo\",\"inputSchema\":");
    body.append(COMPATIBILITY_SCHEMA);
    body.append("}]}}");
    assert(body@ =~= fixture_list());
    body
}

fn initialize_body_text() -> (body: String)
    ensures
        body@ == server_rpc::initialize_body("1"@),
{
    let mut body = String::new();
    body.append("{\"jsonrpc\":\"2.0\",\"id\":");
    body.append("1");
    body.append(",\"result\":{\"protocolVersion\":");
    body.append(json_string(DEFAULT_PROTOCOL_VERSION).as_str());
    body.append(",\"capabilities\":{\"tools\":{}},\"serverInfo\":{\"name\":\"eva\",\"version\":");
    body.append(json_string(SERVER_VERSION).as_str());
    body.append("}}}");
    assert(body@ =~= server_rpc::initialize_body("1"@));
    body
}

/// What a request is answered with.
pub fn fixture_response(asked: FixtureRequest) -> (response: String)
    ensures
        response@ == fixture_reply(asked),
{
    match asked {
        FixtureRequest::OpenStream => STREAM_ANSWER.to_owned(),
        FixtureRequest::Delete => compatibility_http_response(204, ""),
        FixtureRequest::Initialize => compatibility_http_response(
            200,
            initialize_body_text().as_str(),
        ),
        FixtureRequest::Initialized => compatibility_http_response(202, ""),
        FixtureRequest::List => compatibility_http_response(200, list_body().as_str()),
        FixtureRequest::Call => compatibility_http_response(
            200,
            "{\"jsonrpc\":\"2.0\",\"id\":3,\"result\":{\"content\":[{\"type\":\"text\",\"text\":\"tls-loopback-ok\"}],\"isError\":false}}",
        ),
    }
}

/// What the server has seen before the first connection.
pub open spec fn nothing_seen() -> FixtureModel {
    FixtureModel {
        tls_protocol: Seq::empty(),
        handshake_count: 0,
        initialize_observed: false,
        initialized_observed: false,
        list_observed: false,
        call_observed: false,
        stream_closed_before_delete: false,
        delete_observed: false,
    }
}

/// Whether the server has seen every step of a run.
pub open spec fn saw_everything(seen: FixtureModel) -> bool {
    seen.initialize_observed && seen.initialized_observed && seen.list_observed
        && seen.call_observed && seen.stream_closed_before_delete && seen.delete_observed
        && seen.handshake_count > 0 && seen.tls_protocol.len() > 0
}

pub open spec fn delete_unseen_model() -> ErrorModel {
    ErrorModel::new(
        ErrorKind::Timeout,
        "MCP compatibility TLS fixture did not observe DELETE"@,
    ).code("mcp_compatibility_tls_fixture_timeout"@)
}

pub open spec fn fixture_incomplete_model() -> ErrorModel {
    ErrorModel::new(
        ErrorKind::Unavailable,
        "MCP compatibility TLS fixture run was incomplete"@,
    ).code("mcp_compatibility_tls_incomplete"@)
}

impl TlsFixtureRun {
    pub fn new() -> (run: TlsFixtureRun)
        ensures
            run@ == nothing_seen(),
    {
        let run = TlsFixtureRun {
            tls_protocol: String::new(),
            handshake_count: 0,
            initialize_observed: false,
            initialized_observed: false,
            list_observed: false,
            call_observed: false,
            stream_closed_before_delete: false,
            delete_observed: false,
        };
        assert(run@.tls_protocol =~= Seq::<char>::empty());
        run
    }

    /// Whether the run goes on: until the session was deleted.
    pub fn goes_on(&self) -> (goes_on: bool)
        ensures
            goes_on == !self@.delete_observed,
    {
        !self.delete_observed
    }

    /// Take in a handshake that agreed on the given protocol.
    pub fn note_handshake(&mut self, handshaking: bool, protocol: Option<String>) -> (outcome:
        Result<(), EvaError>)
        ensures
            match outcome {
                Ok(()) => after_handshake(
                    old(self)@,
                    handshaking,
                    crate::error::option_text(protocol),
                ) == Ok::<FixtureModel, ErrorModel>(final(self)@),
                Err(error) => after_handshake(
                    old(self)@,
                    handshaking,
                    crate::error::option_text(protocol),
                ) == Err::<FixtureModel, ErrorModel>(error@) && final(self)@ == old(self)@,
            },
    {
        if handshaking {
            return Err(handshake_failed("MCP compatibility TLS handshake did not complete"));
        }
        let protocol = match protocol {
            Some(protocol) => protocol,
            None => return Err(
                handshake_failed("MCP compatibility TLS protocol was not negotiated"),
            ),
        };
        if self.tls_protocol.as_str().is_empty() {
            self.tls_protocol = protocol;
        } else if !str_eq(self.tls_protocol.as_str(), protocol.as_str()) {
            return Err(
                EvaError::conflict(
                    "MCP compatibility TLS protocol changed during one run",
                ).with_provider_code("mcp_compatibility_tls_protocol_changed"),
            );
        }
        if self.handshake_count < usize::MAX {
            self.handshake_count = self.handshake_count + 1;
        }
        Ok(())
    }

    /// Take in a request and say what it is answered with. For a deletion it is
    /// told whether the stream was closed before.
    pub fn take_request(&mut self, asked: Option<FixtureRequest>, stream_closed: bool) -> (outcome:
        Result<String, EvaError>)
        ensures
            match asked {
                Some(asked) => outcome matches Ok(response) && response@ == fixture_reply(asked)
                    && final(self)@ == after_request(old(self)@, asked, stream_closed),
                None => outcome matches Err(error) && error@ == unexpected_request_model()
                    && final(self)@ == old(self)@,
            },
    {
        let asked = match asked {
            Some(asked) => asked,
            None => return Err(
                compatibility_protocol_error(
                    "MCP compatibility TLS fixture received an unexpected request",
                ),
            ),
        };
        match asked {
            FixtureRequest::OpenStream => {},
            FixtureRequest::Delete => {
                self.stream_closed_before_delete = stream_closed;
                self.delete_observed = true;
            },
            FixtureRequest::Initialize => {
                self.initialize_observed = true;
            },
            FixtureRequest::Initialized => {
                self.initialized_observed = true;
            },
            FixtureRequest::List => {
                self.list_observed = true;
            },
            FixtureRequest::Call => {
                self.call_observed = true;
            },
        }
        Ok(fixture_response(asked))
    }

    /// End the run. Where a stream was opened, whoever watched it says whether it
    /// was closed.
    pub fn finish(self, stream_closed: Option<bool>) -> (outcome: Result<TlsFixtureRun, EvaError>)
        ensures
            match outcome {
                Ok(run) => self@.delete_observed && run@ == (FixtureModel {
                    stream_closed_before_delete: self@.stream_closed_before_delete
                        && stream_closed != Some(false),
                    ..self@
                }),
                Err(error) => !self@.delete_observed && error@ == delete_unseen_model(),
            },
    {
        if !self.delete_observed {
            return Err(
                EvaError::timeout(
                    "MCP compatibility TLS fixture did not observe DELETE",
                ).with_provider_code("mcp_compatibility_tls_fixture_timeout"),
            );
        }
        let closed = match stream_closed {
            Some(closed) => closed,
            None => true,
        };
        let mut run = self;
        run.stream_closed_before_delete = run.stream_closed_before_delete && closed;
        Ok(run)
    }

    /// What the run has shown, with what the client found.
    pub fn into_lifecycle_run(self, lifecycle: McpHttpAbortReceipt) -> (outcome: Result<
        TlsLifecycleRun,
        EvaError,
    >)
        ensures
            match outcome {
                Ok(run) => saw_everything(self@) && run@ == (TlsRunModel {
                    tls_protocol: self@.tls_protocol,
                    handshake_count: self@.handshake_count,
                    stream_closed_before_delete: true,
                    delete_observed: true,
                    lifecycle: lifecycle@,
                }),
                Err(error) => !saw_everything(self@) && error@ == fixture_incomplete_model(),
            },
    {
        if !self.initialize_observed || !self.initialized_observed || !self.list_observed
            || !self.call_observed || !self.stream_closed_before_delete || !self.delete_observed
            || self.handshake_count == 0 || self.tls_protocol.as_str().is_empty() {
            return Err(
                EvaError::unavailable(
                    "MCP compatibility TLS fixture run was incomplete",
                ).with_provider_code("mcp_compatibility_tls_incomplete"),
            );
        }
        Ok(
            TlsLifecycleRun {
                tls_protocol: self.tls_protocol,
                handshake_count: self.handshake_count,
                stream_closed_before_delete: self.stream_closed_before_delete,
                delete_observed: self.delete_observed,
                lifecycle,
            },
        )
    }
}

pub open spec fn residual_model() -> ErrorModel {
    ErrorModel::new(
        ErrorKind::Unavailable,
        "MCP compatibility registry abort left residual state"@,
    ).code("mcp_compatibility_registry_residual"@)
}

/// Refuse an abort that left anything behind.
pub fn require_complete_abort(receipt: &McpHttpAbortReceipt) -> (outcome: Result<(), EvaError>)
    ensures
        match outcome {
            Ok(()) => receipt@.complete(),
            Err(error) => !receipt@.complete() && error@ == residual_model(),
        },
{
    if receipt.complete() {
        Ok(())
    } else {
        Err(
            EvaError::unavailable(
                "MCP compatibility registry abort left residual state",
            ).with_provider_code("mcp_compatibility_registry_residual"),
        )
    }
}

} // verus!

//! What a compatibility run reads in the replies and requests that it sees.

use vstd::prelude::*;
use vstd::utf8::*;
use crate::compatibility::COMPATIBILITY_TOOL;
use crate::compatibility_run;
use crate::compatibility_run::{FixtureModel, FixtureRequest, COMPATIBILITY_OUTPUT_LIMIT};
use crate::error::ErrorModel;
use crate::json;
use crate::json::{Fields, JsonFault};
use crate::server;
use crate::server_reading;
use crate::server_transport::McpServerServeReport;
use crate::text;

verus! {

// ---------------------------------------------------------------------------
// Replies
// ---------------------------------------------------------------------------

/// A reply gives a result exactly if it is an object of this version with the
/// identifier that was expected, no error, and that result.
pub proof fn law_direct_results(response: Seq<char>, id: Seq<char>, result: Seq<char>)
    ensures
        compatibility_run::direct_result(response, id) == Ok::<Seq<char>, ErrorModel>(result) <==> (
        json::object_fields(response) matches Ok(fields) && {
            &&& server_reading::has(fields, "jsonrpc"@, "\"2.0\""@)
            &&& server_reading::has(fields, "id"@, id)
            &&& server_reading::has(fields, "result"@, result)
            &&& !server_reading::names(fields, "error"@)
        }),
{
    if json::object_fields(response) is Ok {
        let fields = json::object_fields(response)->Ok_0;
        server_reading::law_fields_are_found_under_their_keys(response, fields, "jsonrpc"@);
        server_reading::law_fields_are_found_under_their_keys(response, fields, "id"@);
        server_reading::law_fields_are_found_under_their_keys(response, fields, "result"@);
        server_reading::law_fields_are_found_under_their_keys(response, fields, "error"@);
        assert(server_reading::has(fields, "jsonrpc"@, "\"2.0\""@) <==> json::lookup(
            fields,
            "jsonrpc"@,
        ) == Some("\"2.0\""@));
        assert(server_reading::has(fields, "id"@, id) <==> json::lookup(fields, "id"@) == Some(id));
        assert(server_reading::has(fields, "result"@, result) <==> json::lookup(fields, "result"@)
            == Some(result));
    }
}

/// Whether a field is there whose value is a string with the given content.
pub open spec fn says(fields: Fields, key: Seq<char>, content: Seq<char>) -> bool {
    exists|v: Seq<char>| #[trigger]
        server_reading::has(fields, key, v) && json::string_value(v) == Ok::<Seq<char>, JsonFault>(
            content,
        )
}

proof fn lemma_says(s: Seq<char>, fields: Fields, key: Seq<char>, content: Seq<char>)
    requires
        json::object_fields(s) == Ok::<Fields, JsonFault>(fields),
    ensures
        compatibility_run::direct_string(fields, key) == Ok::<Seq<char>, ErrorModel>(content)
            <==> says(fields, key, content),
{
    server_reading::law_fields_are_found_under_their_keys(s, fields, key);
    if compatibility_run::direct_string(fields, key) == Ok::<Seq<char>, ErrorModel>(content) {
        let v = json::lookup(fields, key)->Some_0;
        assert(server_reading::has(fields, key, v));
        assert(says(fields, key, content));
    }
    if says(fields, key, content) {
        let v = choose|v: Seq<char>| #[trigger]
            server_reading::has(fields, key, v) && json::string_value(v) == Ok::<
                Seq<char>,
                JsonFault,
            >(content);
        assert(json::lookup(fields, key) == Some(v));
    }
}

/// Whether a field is an object that says a name and a version.
pub open spec fn presents(fields: Fields, name: Seq<char>, version: Seq<char>) -> bool {
    exists|info: Seq<char>| #[trigger]
        server_reading::has(fields, "serverInfo"@, info) && (json::object_fields(info) matches Ok(
            server,
        ) && says(server, "name"@, name) && says(server, "version"@, version))
}

/// The result of an opening presents a server exactly if it says its version of the
/// protocol and, in `serverInfo`, its name and version.
pub proof fn law_servers_present_themselves(
    result: Seq<char>,
    protocol: Seq<char>,
    name: Seq<char>,
    version: Seq<char>,
)
    ensures
        compatibility_run::server_info(result) == Ok::<
            (Seq<char>, Seq<char>, Seq<char>),
            ErrorModel,
        >((protocol, name, version)) <==> (json::object_fields(result) matches Ok(fields) && says(
            fields,
            "protocolVersion"@,
            protocol,
        ) && presents(fields, name, version)),
{
    if json::object_fields(result) is Ok {
        let fields = json::object_fields(result)->Ok_0;
        lemma_says(result, fields, "protocolVersion"@, protocol);
        server_reading::law_fields_are_found_under_their_keys(result, fields, "serverInfo"@);
        if json::lookup(fields, "serverInfo"@) is Some {
            let info = json::lookup(fields, "serverInfo"@)->Some_0;
            assert(server_reading::has(fields, "serverInfo"@, info));
            if json::object_fields(info) is Ok {
                let server = json::object_fields(info)->Ok_0;
                lemma_says(info, server, "name"@, name);
                lemma_says(info, server, "version"@, version);
            }
        }
        if presents(fields, name, version) {
            let info = choose|info: Seq<char>| #[trigger]
                server_reading::has(fields, "serverInfo"@, info) && (json::object_fields(
                    info,
                ) matches Ok(server) && says(server, "name"@, name) && says(
                    server,
                    "version"@,
                    version,
                ));
            assert(json::lookup(fields, "serverInfo"@) == Some(info));
        }
    }
}

/// Whether a text is another between brackets and whitespace.
pub open spec fn is_sole_item(value: Seq<char>, item: Seq<char>) -> bool {
    exists|a: Seq<char>, b: Seq<char>, c: Seq<char>, d: Seq<char>|
        text::all_whitespace(a) && text::all_whitespace(b) && text::all_whitespace(c)
            && text::all_whitespace(d) && value == #[trigger] (a + (seq!['['] + (b + item + c)
            + seq![']']) + d)
}

/// An object that stands alone in an array is handed out without the brackets and
/// the whitespace around it; and what is handed out is such an object.
pub proof fn law_sole_objects_are_handed_out(value: Seq<char>, object: Seq<char>)
    requires
        object.len() > 0,
        !text::is_whitespace(object[0]),
        !text::is_whitespace(object.last()),
    ensures
        compatibility_run::single_object(value) == Ok::<Seq<char>, ErrorModel>(object)
            <==> json::object_fields(object) is Ok && is_sole_item(value, object),
{
    if is_sole_item(value, object) {
        let (a, b, c, d) = choose|a: Seq<char>, b: Seq<char>, c: Seq<char>, d: Seq<char>|
            text::all_whitespace(a) && text::all_whitespace(b) && text::all_whitespace(c)
                && text::all_whitespace(d) && value == #[trigger] (a + (seq!['['] + (b + object + c)
                + seq![']']) + d);
        lemma_sole_item(a, b, object, c, d);
    }
    if compatibility_run::single_object(value) == Ok::<Seq<char>, ErrorModel>(object) {
        lemma_handed_out(value, object);
    }
}

#[verifier::spinoff_prover]
#[verifier::rlimit(40)]
proof fn lemma_sole_item(
    a: Seq<char>,
    b: Seq<char>,
    object: Seq<char>,
    c: Seq<char>,
    d: Seq<char>,
)
    requires
        object.len() > 0,
        !text::is_whitespace(object[0]),
        !text::is_whitespace(object.last()),
        text::all_whitespace(a),
        text::all_whitespace(b),
        text::all_whitespace(c),
        text::all_whitespace(d),
    ensures
        ({
            let core = seq!['['] + (b + object + c) + seq![']'];
            &&& text::trimmed(a + core + d) == core
            &&& core.len() >= 2
            &&& core[0] == '['
            &&& core.last() == ']'
            &&& text::trimmed(core.subrange(1, core.len() - 1)) == object
        }),
{
    let middle = b + object + c;
    let core = seq!['['] + middle + seq![']'];
    text::law_ascii_whitespace('[');
    text::law_ascii_whitespace(']');
    assert(core[0] == '[' && core.last() == ']');
    text::law_trimming_cuts_whitespace(a, core, d);
    assert(core.subrange(1, core.len() - 1) == middle) by {
        assert(core.subrange(1, core.len() - 1) =~= middle);
    }
    text::law_trimming_cuts_whitespace(b, object, c);
}

#[verifier::spinoff_prover]
#[verifier::rlimit(40)]
proof fn lemma_handed_out(value: Seq<char>, object: Seq<char>)
    requires
        compatibility_run::single_object(value) == Ok::<Seq<char>, ErrorModel>(object),
    ensures
        is_sole_item(value, object),
        json::object_fields(object) is Ok,
{
    let core = text::trimmed(value);
    let inside = core.subrange(1, core.len() - 1);
    let (from, to) = text::law_trimmed_stands_between_whitespace(value);
    let (first, last) = text::law_trimmed_stands_between_whitespace(inside);
    let a = value.take(from);
    let d = value.skip(to);
    let b = inside.take(first);
    let c = inside.skip(last);
    assert(inside == b + object + c) by {
        assert(inside =~= b + object + c);
    }
    assert(core == seq!['['] + inside + seq![']']) by {
        assert(core =~= seq!['['] + inside + seq![']']);
    }
    assert(value == a + core + d) by {
        assert(value =~= a + core + d);
    }
}

/// What is handed out of an array of one object starts and ends with something else
/// than whitespace.
pub proof fn law_handed_out_objects_are_trimmed(value: Seq<char>)
    ensures
        compatibility_run::single_object(value) matches Ok(object) ==> object.len() > 0
            && !text::is_whitespace(object[0]) && !text::is_whitespace(object.last()),
{
    let core = text::trimmed(value);
    if core.len() >= 2 {
        let (_, _) = text::law_trimmed_stands_between_whitespace(core.subrange(1, core.len() - 1));
    }
}

/// Whether the only tool of a list is the measured one, with the given schema.
pub open spec fn lists_only(fields: Fields, schema: Seq<char>) -> bool {
    exists|tools: Seq<char>| #[trigger]
        server_reading::has(fields, "tools"@, tools) && (compatibility_run::single_object(
            tools,
        ) matches Ok(tool) && (json::object_fields(tool) matches Ok(tool_fields) && says(
            tool_fields,
            "name"@,
            COMPATIBILITY_TOOL@,
        ) && server_reading::has(tool_fields, "inputSchema"@, schema)))
}

/// The schema that is measured is that of the only tool in the list, which must be
/// the measured one.
pub proof fn law_listed_schemas(result: Seq<char>, schema: Seq<char>)
    ensures
        compatibility_run::listed_schema(result) == Ok::<Seq<char>, ErrorModel>(schema) <==> (
        json::object_fields(result) matches Ok(fields) && lists_only(fields, schema)),
{
    if json::object_fields(result) is Ok {
        let fields = json::object_fields(result)->Ok_0;
        server_reading::law_fields_are_found_under_their_keys(result, fields, "tools"@);
        if json::lookup(fields, "tools"@) is Some {
            let tools = json::lookup(fields, "tools"@)->Some_0;
            assert(server_reading::has(fields, "tools"@, tools));
            if compatibility_run::single_object(tools) is Ok {
                let tool = compatibility_run::single_object(tools)->Ok_0;
                if json::object_fields(tool) is Ok {
                    let tool_fields = json::object_fields(tool)->Ok_0;
                    lemma_says(tool, tool_fields, "name"@, COMPATIBILITY_TOOL@);
                    server_reading::law_fields_are_found_under_their_keys(
                        tool,
                        tool_fields,
                        "inputSchema"@,
                    );
                    assert(server_reading::has(tool_fields, "inputSchema"@, schema)
                        <==> json::lookup(tool_fields, "inputSchema"@) == Some(schema));
                }
            }
        }
        if lists_only(fields, schema) {
            let tools = choose|tools: Seq<char>| #[trigger]
                server_reading::has(fields, "tools"@, tools) && (compatibility_run::single_object(
                    tools,
                ) matches Ok(tool) && (json::object_fields(tool) matches Ok(tool_fields) && says(
                    tool_fields,
                    "name"@,
                    COMPATIBILITY_TOOL@,
                ) && server_reading::has(tool_fields, "inputSchema"@, schema)));
            assert(json::lookup(fields, "tools"@) == Some(tools));
        }
    }
}

/// A run shows what its three replies, to the requests numbered one to three, show:
/// the server that presents itself in the first, the schema that is listed in the
/// second, and the result of the third as it is written.
pub proof fn law_runs_show_what_the_replies_show(
    replies: (Seq<char>, Seq<char>, Seq<char>),
    results: (Seq<char>, Seq<char>, Seq<char>),
    server: (Seq<char>, Seq<char>, Seq<char>),
    schema: Seq<char>,
)
    requires
        compatibility_run::direct_result(replies.0, "1"@) == Ok::<Seq<char>, ErrorModel>(results.0),
        compatibility_run::direct_result(replies.1, "2"@) == Ok::<Seq<char>, ErrorModel>(results.1),
        compatibility_run::direct_result(replies.2, "3"@) == Ok::<Seq<char>, ErrorModel>(results.2),
        compatibility_run::server_info(results.0) == Ok::<
            (Seq<char>, Seq<char>, Seq<char>),
            ErrorModel,
        >(server),
        compatibility_run::listed_schema(results.1) == Ok::<Seq<char>, ErrorModel>(schema),
    ensures
        compatibility_run::run_of(replies.0, replies.1, replies.2) matches Ok(run) && {
            &&& run.protocol_version == server.0
            &&& run.server_name == server.1
            &&& run.server_version == server.2
            &&& run.schema_bytes == encode_utf8(schema)
            &&& run.output_bytes == encode_utf8(results.2)
        },
{
}

/// No run is shown where one of the three replies is no result to its request, or
/// does not say what it should.
pub proof fn law_broken_runs_show_nothing(initialize: Seq<char>, list: Seq<char>, call: Seq<char>)
    requires
        compatibility_run::run_of(initialize, list, call) is Ok,
    ensures
        compatibility_run::direct_result(initialize, "1"@) matches Ok(opened)
            && compatibility_run::server_info(opened) is Ok,
        compatibility_run::direct_result(list, "2"@) matches Ok(listed)
            && compatibility_run::listed_schema(listed) is Ok,
        compatibility_run::direct_result(call, "3"@) is Ok,
{
}

/// The measured tool answers exactly if its one argument is the string `value`, and
/// it answers with what that string holds.
pub proof fn law_values_are_echoed(arguments: Seq<char>, content: Seq<char>)
    ensures
        compatibility_run::echoed(arguments) == Ok::<server::ToolResultModel, ErrorModel>(
            server::ToolResultModel { text: content, is_error: false },
        ) <==> (json::object_fields(arguments) matches Ok(fields) && fields.len() == 1
            && fields[0].0 == "value"@ && json::string_value(fields[0].1) == Ok::<
            Seq<char>,
            JsonFault,
        >(content)),
{
    if json::object_fields(arguments) is Ok {
        let fields = json::object_fields(arguments)->Ok_0;
        json::law_accepted_fields_are_distinct(arguments);
        server_reading::law_fields_are_found_under_their_keys(arguments, fields, "value"@);
        if fields.len() == 1 && fields[0].0 == "value"@ {
            assert(fields[0] == ("value"@, fields[0].1));
            assert(server_reading::has(fields, "value"@, fields[0].1));
        }
        if compatibility_run::only_value(fields) && fields.len() > 1 {
            assert(fields[0].0 == fields[1].0);
            assert(false);
        }
        if compatibility_run::only_value(fields) && fields.len() == 1 {
            assert(fields[0].0 == "value"@);
        }
        if fields.len() == 0 {
            assert(json::lookup(fields, "value"@) is None);
        }
    }
}

/// A report is clean exactly if one session was created and deleted with one call in
/// it, and every count of what can go wrong is zero.
pub proof fn law_clean_reports(report: McpServerServeReport)
    ensures
        compatibility_run::is_clean_report(report) <==> {
            &&& (report.sessions_created, report.sessions_deleted, report.handler_calls) == (
                1usize,
                1usize,
                1usize,
            )
            &&& report.sessions_closed_on_shutdown + report.blocked_tool_calls
                + report.protocol_errors + report.dangling_sessions == 0
        },
{
}

// ---------------------------------------------------------------------------
// Requests over TLS
// ---------------------------------------------------------------------------

/// The head of a request ends at the first blank line.
pub proof fn law_heads_end_at_the_first_blank_line(b: Seq<u8>, at: int)
    requires
        0 <= at,
    ensures
        match compatibility_run::head_end(b, at) {
            Some(end) => {
                &&& at <= end && end + 4 <= b.len()
                &&& b.subrange(end, end + 4) == seq![13u8, 10, 13, 10]
                &&& forall|i: int|
                    at <= i < end ==> #[trigger] b.subrange(i, i + 4) != seq![13u8, 10, 13, 10]
            },
            None => forall|i: int|
                at <= i && i + 4 <= b.len() ==> #[trigger] b.subrange(i, i + 4) != seq![
                    13u8,
                    10,
                    13,
                    10,
                ],
        },
    decreases b.len() - at,
{
    if at + 4 <= b.len() {
        if compatibility_run::blank_line_at(b, at) {
            assert(b.subrange(at, at + 4) =~= seq![13u8, 10, 13, 10]);
        } else {
            law_heads_end_at_the_first_blank_line(b, at + 1);
            assert(b.subrange(at, at + 4) != seq![13u8, 10, 13, 10]) by {
                let w = b.subrange(at, at + 4);
                assert(w[0] == b[at] && w[1] == b[at + 1] && w[2] == b[at + 2] && w[3] == b[at
                    + 3]);
                let e = seq![13u8, 10, 13, 10];
                assert(e[0] == 13 && e[1] == 10 && e[2] == 13 && e[3] == 10);
            }
        }
    }
}

/// A line declares a length where its name is that header's, however capitals are
/// set, and behind the colon stand digits with any whitespace around them.
pub proof fn law_lines_declare_lengths(
    name: Seq<char>,
    before: Seq<char>,
    digits: Seq<char>,
    behind: Seq<char>,
)
    requires
        !text::has_char(name, ':'),
        text::all_whitespace(before),
        text::all_whitespace(behind),
        digits.len() > 0,
        text::all_digits(digits),
    ensures
        ({
            let line = name + seq![':'] + (before + digits + behind);
            compatibility_run::line_length(line) == if text::lower(name) == "content-length"@
                && text::number_of(digits) <= u64::MAX && text::number_of(digits) <= usize::MAX {
                Some(text::number_of(digits))
            } else {
                None
            }
        }),
{
    let line = name + seq![':'] + (before + digits + behind);
    text::lemma_char_position(line, ':', 0);
    let colon = text::char_position(line, ':', 0);
    assert(line[name.len() as int] == ':');
    assert(colon == name.len()) by {
        if colon < name.len() {
            assert(name[colon] == ':');
        }
    }
    assert(line.subrange(0, colon) =~= name);
    assert(line.subrange(colon + 1, line.len() as int) =~= before + digits + behind);
    text::law_ascii_whitespace(digits[0]);
    text::law_ascii_whitespace(digits.last());
    text::law_trimming_cuts_whitespace(before, digits, behind);
    text::law_digits_denote_their_number(digits, false);
}

/// A line without a colon declares no length.
pub proof fn law_plain_lines_declare_nothing(line: Seq<char>)
    requires
        !text::has_char(line, ':'),
    ensures
        compatibility_run::line_length(line) is None,
{
    text::lemma_char_position(line, ':', 0);
    let colon = text::char_position(line, ':', 0);
    if colon < line.len() {
        assert(line[colon] == ':');
    }
}

/// Of several lines the first that declares a length counts; without one the length
/// is zero.
pub proof fn law_the_first_length_counts(lines: Seq<Seq<char>>, at: int)
    requires
        0 <= at < lines.len(),
        forall|i: int|
            0 <= i < at ==> compatibility_run::line_length(#[trigger] lines[i]) is None,
    ensures
        compatibility_run::line_length(lines[at]) matches Some(n)
            ==> compatibility_run::lines_length(lines, 0) == n,
        at + 1 == lines.len() && compatibility_run::line_length(lines[at]) is None
            ==> compatibility_run::lines_length(lines, 0) == 0,
{
    lemma_first_length(lines, 0, at);
}

proof fn lemma_first_length(lines: Seq<Seq<char>>, from: int, at: int)
    requires
        0 <= from <= at < lines.len(),
        forall|i: int|
            from <= i < at ==> compatibility_run::line_length(#[trigger] lines[i]) is None,
    ensures
        compatibility_run::line_length(lines[at]) matches Some(n)
            ==> compatibility_run::lines_length(lines, from) == n,
        at + 1 == lines.len() && compatibility_run::line_length(lines[at]) is None
            ==> compatibility_run::lines_length(lines, from) == 0,
    decreases at - from,
{
    if from < at {
        lemma_first_length(lines, from + 1, at);
    } else {
        assert(compatibility_run::lines_length(lines, lines.len() as int) == 0);
    }
}

/// Bytes that hold a head, a blank line and a body are a request exactly when the
/// connection goes on, the whole stays within the bound, all of it is text, and as
/// many bytes of the body are there as the head declares.
pub proof fn law_bounded_requests(b: Seq<u8>, ended: bool, end: int, length: int)
    requires
        compatibility_run::head_end(b, 0) == Some(end),
        valid_utf8(b.subrange(0, end)),
        length == compatibility_run::lines_length(
            text::split(decode_utf8(b.subrange(0, end)), '\n'),
            0,
        ),
    ensures
        ({
            let read = compatibility_run::bounded_request(b, ended);
            let in_bounds = !ended && b.len() <= COMPATIBILITY_OUTPUT_LIMIT && length
                <= COMPATIBILITY_OUTPUT_LIMIT;
            &&& (read matches Ok(Some(request)) && request == decode_utf8(b)) <==> in_bounds
                && length <= b.len() - (end + 4) && valid_utf8(b)
            &&& read == Ok::<Option<Seq<char>>, ErrorModel>(None) <==> in_bounds && length > b.len()
                - (end + 4)
        }),
{
}

/// Without a blank line nothing is a request yet, and what has ended or passes the
/// bound never becomes one.
pub proof fn law_unfinished_requests(b: Seq<u8>, ended: bool)
    requires
        forall|i: int|
            0 <= i && i + 4 <= b.len() ==> #[trigger] b.subrange(i, i + 4) != seq![13u8, 10, 13, 10],
    ensures
        compatibility_run::bounded_request(b, ended) == Ok::<Option<Seq<char>>, ErrorModel>(None)
            <==> !ended && b.len() <= COMPATIBILITY_OUTPUT_LIMIT,
        compatibility_run::bounded_request(b, ended) is Err <==> ended || b.len()
            > COMPATIBILITY_OUTPUT_LIMIT,
{
    law_heads_end_at_the_first_blank_line(b, 0);
    if compatibility_run::head_end(b, 0) is Some {
        let end = compatibility_run::head_end(b, 0)->Some_0;
        assert(b.subrange(end, end + 4) == seq![13u8, 10, 13, 10]);
    }
}

/// Whether the text holds the part somewhere.
pub open spec fn mentions(s: Seq<char>, part: Seq<char>) -> bool {
    exists|at: int|
        0 <= at && at + part.len() <= s.len() && #[trigger] s.subrange(at, at + part.len()) == part
}

proof fn lemma_mentions(s: Seq<char>, part: Seq<char>)
    requires
        part.len() > 0,
    ensures
        compatibility_run::holds_part(s, part) == mentions(s, part),
{
    text::law_found_is_first(s, part, 0);
    if mentions(s, part) {
        let at = choose|at: int|
            0 <= at && at + part.len() <= s.len() && #[trigger] s.subrange(at, at + part.len())
                == part;
        assert(text::stands_at(s, part, at));
    }
}

/// Whether a request names a method.
pub open spec fn names_method(request: Seq<char>, method: Seq<char>) -> bool {
    mentions(request, "\"method\":\""@ + method + "\""@)
}

/// A request is a stream's or a deletion by its first line, whatever else it holds,
/// and otherwise what the method makes it that its body names.
pub proof fn law_requests_are_told_apart(request: Seq<char>)
    ensures
        ({
            let asked = compatibility_run::fixture_request(request);
            let get = text::stands_at(request, "GET /mcp HTTP/1.1\r\n"@, 0);
            let delete = text::stands_at(request, "DELETE /mcp HTTP/1.1\r\n"@, 0);
            let opens = names_method(request, "initialize"@);
            let opened = names_method(request, "notifications/initialized"@);
            let lists = names_method(request, "tools/list"@);
            let calls = names_method(request, "tools/call"@);
            &&& !(get && delete)
            &&& asked == Some(FixtureRequest::OpenStream) <==> get
            &&& asked == Some(FixtureRequest::Delete) <==> delete
            &&& !get && !delete ==> {
                &&& opens && !opened && !lists && !calls ==> asked == Some(
                    FixtureRequest::Initialize,
                )
                &&& opened && !opens && !lists && !calls ==> asked == Some(
                    FixtureRequest::Initialized,
                )
                &&& lists && !opens && !opened && !calls ==> asked == Some(FixtureRequest::List)
                &&& calls && !opens && !opened && !lists ==> asked == Some(FixtureRequest::Call)
                &&& asked is None <==> !opens && !opened && !lists && !calls
            }
        }),
{
    reveal_strlit("\"method\":\"");
    reveal_strlit("\"");
    reveal_strlit("initialize");
    reveal_strlit("notifications/initialized");
    reveal_strlit("tools/list");
    reveal_strlit("tools/call");
    reveal_strlit("\"method\":\"initialize\"");
    reveal_strlit("\"method\":\"notifications/initialized\"");
    reveal_strlit("\"method\":\"tools/list\"");
    reveal_strlit("\"method\":\"tools/call\"");
    assert("\"method\":\""@ + "initialize"@ + "\""@ =~= "\"method\":\"initialize\""@);
    assert("\"method\":\""@ + "notifications/initialized"@ + "\""@
        =~= "\"method\":\"notifications/initialized\""@);
    assert("\"method\":\""@ + "tools/list"@ + "\""@ =~= "\"method\":\"tools/list\""@);
    assert("\"method\":\""@ + "tools/call"@ + "\""@ =~= "\"method\":\"tools/call\""@);
    lemma_mentions(request, "\"method\":\"initialize\""@);
    lemma_mentions(request, "\"method\":\"notifications/initialized\""@);
    lemma_mentions(request, "\"method\":\"tools/list\""@);
    lemma_mentions(request, "\"method\":\"tools/call\""@);
    let g = "GET /mcp HTTP/1.1\r\n"@;
    let d = "DELETE /mcp HTTP/1.1\r\n"@;
    reveal_strlit("GET /mcp HTTP/1.1\r\n");
    reveal_strlit("DELETE /mcp HTTP/1.1\r\n");
    assert(g.len() == 19 && d.len() == 22);
    if text::stands_at(request, g, 0) && text::stands_at(request, d, 0) {
        assert(request.subrange(0, 19)[0] == 'G');
        assert(request.subrange(0, 22)[0] == 'D');
    }
}

/// What a server has seen after several requests, each with whether the stream was
/// closed by then.
pub open spec fn seen_after(start: FixtureModel, asked: Seq<(FixtureRequest, bool)>) -> FixtureModel
    decreases asked.len(),
{
    if asked.len() == 0 {
        start
    } else {
        compatibility_run::after_request(
            seen_after(start, asked.drop_last()),
            asked.last().0,
            asked.last().1,
        )
    }
}

/// Whether one of the requests asked for the given thing.
pub open spec fn was_asked(asked: Seq<(FixtureRequest, bool)>, wanted: FixtureRequest) -> bool {
    exists|i: int| 0 <= i < asked.len() && (#[trigger] asked[i]).0 == wanted
}

proof fn lemma_asked(asked: Seq<(FixtureRequest, bool)>, wanted: FixtureRequest)
    requires
        asked.len() > 0,
    ensures
        was_asked(asked, wanted) <==> was_asked(asked.drop_last(), wanted) || asked.last().0
            == wanted,
{
    let shorter = asked.drop_last();
    if was_asked(asked, wanted) && asked.last().0 != wanted {
        let i = choose|i: int| 0 <= i < asked.len() && (#[trigger] asked[i]).0 == wanted;
        assert(shorter[i].0 == wanted);
    }
    if was_asked(shorter, wanted) {
        let i = choose|i: int| 0 <= i < shorter.len() && (#[trigger] shorter[i]).0 == wanted;
        assert(asked[i].0 == wanted);
    }
    if asked.last().0 == wanted {
        assert(asked[asked.len() - 1].0 == wanted);
    }
}

/// Of each step the server has seen exactly what was asked, in whatever order, and
/// nothing else changes.
pub proof fn law_steps_are_seen(asked: Seq<(FixtureRequest, bool)>)
    ensures
        ({
            let seen = seen_after(compatibility_run::nothing_seen(), asked);
            &&& seen.initialize_observed == was_asked(asked, FixtureRequest::Initialize)
            &&& seen.initialized_observed == was_asked(asked, FixtureRequest::Initialized)
            &&& seen.list_observed == was_asked(asked, FixtureRequest::List)
            &&& seen.call_observed == was_asked(asked, FixtureRequest::Call)
            &&& seen.delete_observed == was_asked(asked, FixtureRequest::Delete)
            &&& asked.len() > 0 && asked.last().0 == FixtureRequest::Delete
                ==> seen.stream_closed_before_delete == asked.last().1
            &&& !was_asked(asked, FixtureRequest::Delete) ==> !seen.stream_closed_before_delete
            &&& seen.handshake_count == 0 && seen.tls_protocol.len() == 0
        }),
    decreases asked.len(),
{
    if asked.len() > 0 {
        law_steps_are_seen(asked.drop_last());
        lemma_asked(asked, FixtureRequest::Initialize);
        lemma_asked(asked, FixtureRequest::Initialized);
        lemma_asked(asked, FixtureRequest::List);
        lemma_asked(asked, FixtureRequest::Call);
        lemma_asked(asked, FixtureRequest::Delete);
    }
}

/// A request leaves what was seen of the handshakes, and a deletion stays seen with
/// whether the stream was closed until another one comes.
pub proof fn law_requests_leave_the_rest(seen: FixtureModel, asked: FixtureRequest, closed: bool)
    ensures
        ({
            let after = compatibility_run::after_request(seen, asked, closed);
            &&& after.handshake_count == seen.handshake_count
            &&& after.tls_protocol == seen.tls_protocol
            &&& after.stream_closed_before_delete == if asked == FixtureRequest::Delete {
                closed
            } else {
                seen.stream_closed_before_delete
            }
            &&& asked != FixtureRequest::Initialize ==> after.initialize_observed
                == seen.initialize_observed
            &&& asked != FixtureRequest::Initialized ==> after.initialized_observed
                == seen.initialized_observed
            &&& asked != FixtureRequest::List ==> after.list_observed == seen.list_observed
            &&& asked != FixtureRequest::Call ==> after.call_observed == seen.call_observed
            &&& asked != FixtureRequest::Delete ==> after.delete_observed == seen.delete_observed
        }),
{
}

/// A handshake counts exactly if it is over, it settled on a protocol, and that is the
/// protocol of the handshakes before it; then only it and the count are told anew.
pub proof fn law_handshakes_count(
    seen: FixtureModel,
    handshaking: bool,
    protocol: Option<Seq<char>>,
)
    ensures
        ({
            let after = compatibility_run::after_handshake(seen, handshaking, protocol);
            &&& after is Ok <==> !handshaking && (protocol matches Some(p) && (
            seen.tls_protocol.len() == 0 || p == seen.tls_protocol))
            &&& after matches Ok(next) ==> {
                &&& Some(next.tls_protocol) == protocol
                &&& seen.handshake_count < usize::MAX ==> next.handshake_count
                    == seen.handshake_count + 1
                &&& seen.handshake_count == usize::MAX ==> next.handshake_count == usize::MAX
                &&& next == (FixtureModel {
                    tls_protocol: next.tls_protocol,
                    handshake_count: next.handshake_count,
                    ..seen
                })
            }
        }),
{
}

/// A run is whole exactly if each of its five requests was seen, the stream was closed
/// before the deletion, and a handshake settled on a protocol.
pub proof fn law_whole_runs(seen: FixtureModel)
    ensures
        compatibility_run::saw_everything(seen) <==> {
            &&& seen.initialize_observed
            &&& seen.initialized_observed
            &&& seen.list_observed
            &&& seen.call_observed
            &&& seen.delete_observed
            &&& seen.stream_closed_before_delete
            &&& seen.handshake_count != 0
            &&& seen.tls_protocol.len() != 0
        },
{
}

} // verus!

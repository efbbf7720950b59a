//! What a client writes, a server reads, and the other way round.

use vstd::prelude::*;
use crate::error::{ErrorKind, ErrorModel};
use crate::http_session;
use crate::json;
use crate::json::{Fields, JsonFault};
use crate::json_rpc;
use crate::json_rpc::DEFAULT_PROTOCOL_VERSION;
use crate::json_text;
use crate::server;
use crate::server::ToolModel;
use crate::server_rpc;
use crate::server_rpc::{
    EnvelopeModel, RpcFailureModel, MAX_CLIENT_INFO_BYTES, MAX_METHOD_BYTES, SERVER_VERSION,
};
use crate::server_transport;
use crate::server_transport::{DispatchModel, SessionPhase};
use crate::text;

verus! {

// ---------------------------------------------------------------------------
// Objects of a few members
// ---------------------------------------------------------------------------

proof fn lemma_object_of_one(a: (Seq<char>, Seq<char>))
    ensures
        json_text::object_text(seq![a]) == seq!['{'] + json_text::member_text(a) + seq!['}'],
{
}

proof fn lemma_members_of_two(a: (Seq<char>, Seq<char>), b: (Seq<char>, Seq<char>))
    ensures
        json_text::members_text(seq![a, b]) == json_text::member_text(a) + seq![',']
            + json_text::member_text(b),
{
    assert(seq![a, b].drop_first() =~= seq![b]);
    reveal_with_fuel(json_text::members_text, 2);
}

proof fn lemma_object_of_two(a: (Seq<char>, Seq<char>), b: (Seq<char>, Seq<char>))
    ensures
        json_text::object_text(seq![a, b]) == seq!['{'] + json_text::member_text(a) + seq![',']
            + json_text::member_text(b) + seq!['}'],
{
    lemma_members_of_two(a, b);
    assert(json_text::object_text(seq![a, b]) =~= seq!['{'] + json_text::member_text(a) + seq![',']
        + json_text::member_text(b) + seq!['}']);
}

proof fn lemma_object_of_three(
    a: (Seq<char>, Seq<char>),
    b: (Seq<char>, Seq<char>),
    c: (Seq<char>, Seq<char>),
)
    ensures
        json_text::object_text(seq![a, b, c]) == seq!['{'] + json_text::member_text(a) + seq![',']
            + json_text::member_text(b) + seq![','] + json_text::member_text(c) + seq!['}'],
{
    assert(seq![a, b, c].drop_first() =~= seq![b, c]);
    lemma_members_of_two(b, c);
    assert(json_text::object_text(seq![a, b, c]) =~= seq!['{'] + json_text::member_text(a)
        + seq![','] + json_text::member_text(b) + seq![','] + json_text::member_text(c)
        + seq!['}']);
}

proof fn lemma_object_of_four(
    a: (Seq<char>, Seq<char>),
    b: (Seq<char>, Seq<char>),
    c: (Seq<char>, Seq<char>),
    d: (Seq<char>, Seq<char>),
)
    ensures
        json_text::object_text(seq![a, b, c, d]) == seq!['{'] + json_text::member_text(a)
            + seq![','] + json_text::member_text(b) + seq![','] + json_text::member_text(c)
            + seq![','] + json_text::member_text(d) + seq!['}'],
{
    assert(seq![a, b, c, d].drop_first() =~= seq![b, c, d]);
    assert(seq![b, c, d].drop_first() =~= seq![c, d]);
    lemma_members_of_two(c, d);
    assert(json_text::members_text(seq![b, c, d]) == json_text::member_text(b) + seq![',']
        + json_text::members_text(seq![c, d]));
    assert(json_text::object_text(seq![a, b, c, d]) =~= seq!['{'] + json_text::member_text(a)
        + seq![','] + json_text::member_text(b) + seq![','] + json_text::member_text(c)
        + seq![','] + json_text::member_text(d) + seq!['}']);
}

/// The empty object.
proof fn lemma_empty_object()
    ensures
        "{}"@ == json_text::object_text(Seq::empty()),
        json_text::is_token("{}"@, 1),
        json::object_fields("{}"@) == Ok::<Fields, JsonFault>(Seq::empty()),
{
    reveal_strlit("{}");
    let none: Fields = Seq::empty();
    assert("{}"@ =~= json_text::object_text(none));
    json_text::lemma_object_is_token(none, 0);
    json_text::law_written_object_reads_back(none);
}

// ---------------------------------------------------------------------------
// Requests
// ---------------------------------------------------------------------------

/// The members of a request.
pub open spec fn request_fields(id: u64, method: Seq<char>, params: Seq<char>) -> Fields {
    seq![
        ("jsonrpc"@, json::quoted("2.0"@)),
        ("id"@, text::decimal(id as nat)),
        ("method"@, json::quoted(method)),
        ("params"@, params),
    ]
}

/// The members of a notification.
pub open spec fn notification_fields(method: Seq<char>, params: Seq<char>) -> Fields {
    seq![
        ("jsonrpc"@, json::quoted("2.0"@)),
        ("method"@, json::quoted(method)),
        ("params"@, params),
    ]
}

proof fn lemma_envelope_keys()
    ensures
        "jsonrpc"@ != "id"@,
        "jsonrpc"@ != "method"@,
        "jsonrpc"@ != "params"@,
        "id"@ != "method"@,
        "id"@ != "params"@,
        "method"@ != "params"@,
{
    reveal_strlit("jsonrpc");
    reveal_strlit("id");
    reveal_strlit("method");
    reveal_strlit("params");
    assert("jsonrpc"@.len() == 7);
    assert("id"@.len() == 2);
    assert("method"@.len() == 6);
    assert("params"@.len() == 6);
    assert("method"@[0] == 'm');
    assert("params"@[0] == 'p');
}

proof fn lemma_number_id(id: u64)
    ensures
        server_rpc::is_request_id(text::decimal(id as nat)),
{
    text::law_decimal_reads_back(id);
    json_text::lemma_decimal_shape(id as nat);
}

/// A server reads the method and the parameters of a request.
proof fn lemma_request_is_read(id: u64, method: Seq<char>, params: Seq<char>)
    requires
        json_text::is_token(params, json::MAX_JSON_NESTING_DEPTH - 1),
        server_rpc::is_bounded_text(method, MAX_METHOD_BYTES),
    ensures
        server_rpc::request_envelope(json_text::object_text(request_fields(id, method, params)))
            == Ok::<EnvelopeModel, RpcFailureModel>(
            EnvelopeModel { id: Some(text::decimal(id as nat)), method, params: Some(params) },
        ),
        json::object_fields(json_text::object_text(request_fields(id, method, params))) == Ok::<
            Fields,
            JsonFault,
        >(request_fields(id, method, params)),
{
    let fields = request_fields(id, method, params);
    lemma_envelope_keys();
    json_text::lemma_quoted_is_token("2.0"@);
    json_text::lemma_quoted_is_token(method);
    json_text::lemma_decimal_is_token(id as nat);
    json_text::lemma_token_levels(fields[0].1, 0, params_depth());
    json_text::lemma_token_levels(fields[1].1, 0, params_depth());
    json_text::lemma_token_levels(fields[2].1, 0, params_depth());
    assert(json_text::token_fields(fields, json::MAX_JSON_NESTING_DEPTH - 1));
    assert(json::distinct_keys(fields));
    json_text::law_written_object_reads_back(fields);
    json::lemma_lookup_at(fields, 0);
    json::lemma_lookup_at(fields, 1);
    json::lemma_lookup_at(fields, 2);
    json::lemma_lookup_at(fields, 3);
    lemma_number_id(id);
    json::law_quoted_text_decodes("2.0"@);
    json::law_quoted_text_decodes(method);
}

/// A server reads the method and the parameters of a notification.
proof fn lemma_notification_is_read(method: Seq<char>, params: Seq<char>)
    requires
        json_text::is_token(params, json::MAX_JSON_NESTING_DEPTH - 1),
        server_rpc::is_bounded_text(method, MAX_METHOD_BYTES),
    ensures
        server_rpc::request_envelope(json_text::object_text(notification_fields(method, params)))
            == Ok::<EnvelopeModel, RpcFailureModel>(
            EnvelopeModel { id: None, method, params: Some(params) },
        ),
{
    let fields = notification_fields(method, params);
    lemma_envelope_keys();
    json_text::lemma_quoted_is_token("2.0"@);
    json_text::lemma_quoted_is_token(method);
    json_text::lemma_token_levels(fields[0].1, 0, params_depth());
    json_text::lemma_token_levels(fields[1].1, 0, params_depth());
    assert(json_text::token_fields(fields, json::MAX_JSON_NESTING_DEPTH - 1));
    assert(json::distinct_keys(fields));
    json_text::law_written_object_reads_back(fields);
    json::lemma_lookup_at(fields, 0);
    json::lemma_lookup_at(fields, 1);
    json::lemma_lookup_at(fields, 2);
    json::lemma_lookup_absent(fields, "id"@);
    json::law_quoted_text_decodes("2.0"@);
    json::law_quoted_text_decodes(method);
}

proof fn lemma_request_start()
    ensures
        "{\"jsonrpc\":\"2.0\",\"id\":"@ == seq!['{'] + json_text::member_text(
            ("jsonrpc"@, json::quoted("2.0"@)),
        ) + seq![','] + json::quoted("id"@) + seq![':'],
        "{\"jsonrpc\":\"2.0\","@ == seq!['{'] + json_text::member_text(
            ("jsonrpc"@, json::quoted("2.0"@)),
        ) + seq![','],
{
    reveal_strlit("{\"jsonrpc\":\"2.0\",\"id\":");
    reveal_strlit("{\"jsonrpc\":\"2.0\",");
    reveal_strlit("jsonrpc");
    reveal_strlit("2.0");
    reveal_strlit("id");
    json_text::lemma_plain_text_quoted("jsonrpc"@);
    json_text::lemma_plain_text_quoted("2.0"@);
    json_text::lemma_plain_text_quoted("id"@);
    assert("{\"jsonrpc\":\"2.0\","@ =~= seq!['{'] + json_text::member_text(
        ("jsonrpc"@, json::quoted("2.0"@)),
    ) + seq![',']);
    assert("{\"jsonrpc\":\"2.0\",\"id\":"@ =~= "{\"jsonrpc\":\"2.0\","@ + json::quoted("id"@)
        + seq![':']);
}

/// A request as it is written, around what its method and parameters say.
proof fn lemma_request_text(id: u64, method: Seq<char>, params: Seq<char>, middle: Seq<char>)
    requires
        middle == seq![','] + json_text::member_text(("method"@, json::quoted(method))) + seq![',']
            + json::quoted("params"@) + seq![':'],
    ensures
        json_text::object_text(request_fields(id, method, params))
            == "{\"jsonrpc\":\"2.0\",\"id\":"@ + text::decimal(id as nat) + middle + params
            + seq!['}'],
{
    lemma_request_start();
    let a = ("jsonrpc"@, json::quoted("2.0"@));
    let b = ("id"@, text::decimal(id as nat));
    let c = ("method"@, json::quoted(method));
    let d = ("params"@, params);
    lemma_object_of_four(a, b, c, d);
    assert(json_text::object_text(request_fields(id, method, params))
        =~= "{\"jsonrpc\":\"2.0\",\"id\":"@ + text::decimal(id as nat) + middle + params
        + seq!['}']);
}

proof fn lemma_list_text(id: u64)
    ensures
        json_rpc::tools_list_text(id) == json_text::object_text(
            request_fields(id, "tools/list"@, "{}"@),
        ),
{
    reveal_strlit(",\"method\":\"tools/list\",\"params\":{}}");
    reveal_strlit("tools/list");
    reveal_strlit("method");
    reveal_strlit("params");
    reveal_strlit("{}");
    json_text::lemma_plain_text_quoted("method"@);
    json_text::lemma_plain_text_quoted("params"@);
    json_text::lemma_plain_text_quoted("tools/list"@);
    let middle = seq![','] + json_text::member_text(("method"@, json::quoted("tools/list"@)))
        + seq![','] + json::quoted("params"@) + seq![':'];
    assert(",\"method\":\"tools/list\",\"params\":{}}"@ =~= middle + "{}"@ + seq!['}']);
    lemma_request_text(id, "tools/list"@, "{}"@, middle);
    assert(json_rpc::tools_list_text(id) =~= "{\"jsonrpc\":\"2.0\",\"id\":"@ + text::decimal(
        id as nat,
    ) + middle + "{}"@ + seq!['}']);
}

/// The parameters of a call.
pub open spec fn call_fields(tool: Seq<char>, input: Seq<char>) -> Fields {
    seq![("name"@, json::quoted(tool)), ("arguments"@, json_rpc::tool_arguments(input))]
}

proof fn lemma_call_params(tool: Seq<char>, input: Seq<char>)
    ensures
        json_text::object_text(call_fields(tool, input)) == "{\"name\":"@ + json::quoted(tool)
            + ",\"arguments\":"@ + json_rpc::tool_arguments(input) + seq!['}'],
{
    reveal_strlit("{\"name\":");
    reveal_strlit(",\"arguments\":");
    reveal_strlit("name");
    reveal_strlit("arguments");
    json_text::lemma_plain_text_quoted("name"@);
    json_text::lemma_plain_text_quoted("arguments"@);
    let a = ("name"@, json::quoted(tool));
    let b = ("arguments"@, json_rpc::tool_arguments(input));
    lemma_object_of_two(a, b);
    assert(json_text::object_text(call_fields(tool, input)) =~= "{\"name\":"@ + json::quoted(tool)
        + ",\"arguments\":"@ + json_rpc::tool_arguments(input) + seq!['}']);
}

proof fn lemma_call_text(id: u64, tool: Seq<char>, input: Seq<char>)
    ensures
        json_rpc::tools_call_text(id, tool, input) == json_text::object_text(
            request_fields(id, "tools/call"@, json_text::object_text(call_fields(tool, input))),
        ),
{
    let params = json_text::object_text(call_fields(tool, input));
    let middle = seq![','] + json_text::member_text(("method"@, json::quoted("tools/call"@)))
        + seq![','] + json::quoted("params"@) + seq![':'];
    lemma_call_params(tool, input);
    assert(",\"method\":\"tools/call\",\"params\":{\"name\":"@ == middle + "{\"name\":"@
        && "}}"@ == seq!['}'] + seq!['}']) by {
        reveal_strlit(",\"method\":\"tools/call\",\"params\":{\"name\":");
        reveal_strlit("{\"name\":");
        reveal_strlit("tools/call");
        reveal_strlit("method");
        reveal_strlit("params");
        reveal_strlit("}}");
        json_text::lemma_plain_text_quoted("method"@);
        json_text::lemma_plain_text_quoted("params"@);
        json_text::lemma_plain_text_quoted("tools/call"@);
        assert(",\"method\":\"tools/call\",\"params\":{\"name\":"@ =~= middle + "{\"name\":"@);
        assert("}}"@ =~= seq!['}'] + seq!['}']);
    }
    lemma_request_text(id, "tools/call"@, params, middle);
    assert(json_rpc::tools_call_text(id, tool, input) =~= "{\"jsonrpc\":\"2.0\",\"id\":"@
        + text::decimal(id as nat) + middle + params + seq!['}']);
}

proof fn lemma_initialized_text()
    ensures
        json_rpc::initialized_text() == json_text::object_text(
            notification_fields("notifications/initialized"@, "{}"@),
        ),
{
    let a = ("jsonrpc"@, json::quoted("2.0"@));
    let b = ("method"@, json::quoted("notifications/initialized"@));
    let c = ("params"@, "{}"@);
    lemma_object_of_three(a, b, c);
    lemma_request_start();
    reveal_strlit("{\"jsonrpc\":\"2.0\",");
    reveal_strlit("{\"jsonrpc\":\"2.0\",\"method\":\"notifications/initialized\",\"params\":{}}");
    reveal_strlit("notifications/initialized");
    reveal_strlit("method");
    reveal_strlit("params");
    reveal_strlit("{}");
    json_text::lemma_plain_text_quoted("method"@);
    json_text::lemma_plain_text_quoted("params"@);
    json_text::lemma_plain_text_quoted("notifications/initialized"@);
    assert(json_rpc::initialized_text() =~= "{\"jsonrpc\":\"2.0\","@ + json_text::member_text(b)
        + seq![','] + json_text::member_text(c) + seq!['}']);
}

/// What a client tells of itself.
pub open spec fn client_info_fields(name: Seq<char>, version: Seq<char>) -> Fields {
    seq![("name"@, json::quoted(name)), ("version"@, json::quoted(version))]
}

/// The parameters of `initialize`.
pub open spec fn initialize_fields(
    protocol: Seq<char>,
    name: Seq<char>,
    version: Seq<char>,
) -> Fields {
    seq![
        ("protocolVersion"@, json::quoted(protocol)),
        ("capabilities"@, "{}"@),
        ("clientInfo"@, json_text::object_text(client_info_fields(name, version))),
    ]
}

proof fn lemma_client_info_text(name: Seq<char>, version: Seq<char>)
    ensures
        json_text::object_text(client_info_fields(name, version)) == "{\"name\":"@ + json::quoted(
            name,
        ) + ",\"version\":"@ + json::quoted(version) + seq!['}'],
{
    reveal_strlit("{\"name\":");
    reveal_strlit(",\"version\":");
    reveal_strlit("name");
    reveal_strlit("version");
    json_text::lemma_plain_text_quoted("name"@);
    json_text::lemma_plain_text_quoted("version"@);
    lemma_object_of_two(("name"@, json::quoted(name)), ("version"@, json::quoted(version)));
    assert(json_text::object_text(client_info_fields(name, version)) =~= "{\"name\":"@
        + json::quoted(name) + ",\"version\":"@ + json::quoted(version) + seq!['}']);
}

proof fn lemma_initialize_params(protocol: Seq<char>, name: Seq<char>, version: Seq<char>)
    ensures
        json_text::object_text(initialize_fields(protocol, name, version))
            == "{\"protocolVersion\":"@ + json::quoted(protocol)
            + ",\"capabilities\":{},\"clientInfo\":"@ + json_text::object_text(
            client_info_fields(name, version),
        ) + seq!['}'],
{
    let info = json_text::object_text(client_info_fields(name, version));
    reveal_strlit("{\"protocolVersion\":");
    reveal_strlit(",\"capabilities\":{},\"clientInfo\":");
    reveal_strlit("protocolVersion");
    reveal_strlit("capabilities");
    reveal_strlit("clientInfo");
    reveal_strlit("{}");
    json_text::lemma_plain_text_quoted("protocolVersion"@);
    json_text::lemma_plain_text_quoted("capabilities"@);
    json_text::lemma_plain_text_quoted("clientInfo"@);
    let a = ("protocolVersion"@, json::quoted(protocol));
    let b = ("capabilities"@, "{}"@);
    let c = ("clientInfo"@, info);
    lemma_object_of_three(a, b, c);
    assert(",\"capabilities\":{},\"clientInfo\":"@ =~= seq![','] + json_text::member_text(b)
        + seq![','] + json::quoted("clientInfo"@) + seq![':']);
    assert(json_text::object_text(initialize_fields(protocol, name, version))
        =~= "{\"protocolVersion\":"@ + json::quoted(protocol)
        + ",\"capabilities\":{},\"clientInfo\":"@ + info + seq!['}']);
}

proof fn lemma_initialize_joined(
    start: Seq<char>,
    id: Seq<char>,
    middle: Seq<char>,
    first: Seq<char>,
    protocol: Seq<char>,
    second: Seq<char>,
    third: Seq<char>,
    name: Seq<char>,
    fourth: Seq<char>,
    version: Seq<char>,
    close: Seq<char>,
)
    ensures
        start + id + (middle + first) + protocol + (second + third) + name + fourth + version + (
        close + close + close) == start + id + middle + (first + protocol + second + (third + name
            + fourth + version + close) + close) + close,
{
    let info = third + name + fourth + version + close;
    assert(start + id + (middle + first) + protocol + (second + third) + name + fourth + version + (
    close + close + close) =~= start + id + middle + first + protocol + second + info + close
        + close);
    assert(start + id + middle + (first + protocol + second + info + close) + close =~= start + id
        + middle + first + protocol + second + info + close + close);
}

proof fn lemma_initialize_text(id: u64, protocol: Seq<char>, name: Seq<char>, version: Seq<char>)
    ensures
        json_rpc::initialize_text(id, protocol, name, version) == json_text::object_text(
            request_fields(
                id,
                "initialize"@,
                json_text::object_text(initialize_fields(protocol, name, version)),
            ),
        ),
{
    let info = json_text::object_text(client_info_fields(name, version));
    let params = json_text::object_text(initialize_fields(protocol, name, version));
    let middle = seq![','] + json_text::member_text(("method"@, json::quoted("initialize"@)))
        + seq![','] + json::quoted("params"@) + seq![':'];
    lemma_client_info_text(name, version);
    lemma_initialize_params(protocol, name, version);
    lemma_request_text(id, "initialize"@, params, middle);
    assert(",\"method\":\"initialize\",\"params\":{\"protocolVersion\":"@ == middle
        + "{\"protocolVersion\":"@ && "}}}"@ == seq!['}'] + seq!['}'] + seq!['}']
        && ",\"capabilities\":{},\"clientInfo\":{\"name\":"@
        == ",\"capabilities\":{},\"clientInfo\":"@ + "{\"name\":"@) by {
        reveal_strlit(",\"method\":\"initialize\",\"params\":{\"protocolVersion\":");
        reveal_strlit("{\"protocolVersion\":");
        reveal_strlit(",\"capabilities\":{},\"clientInfo\":{\"name\":");
        reveal_strlit(",\"capabilities\":{},\"clientInfo\":");
        reveal_strlit("{\"name\":");
        reveal_strlit("initialize");
        reveal_strlit("method");
        reveal_strlit("params");
        reveal_strlit("}}}");
        json_text::lemma_plain_text_quoted("method"@);
        json_text::lemma_plain_text_quoted("params"@);
        json_text::lemma_plain_text_quoted("initialize"@);
        assert(",\"method\":\"initialize\",\"params\":{\"protocolVersion\":"@ =~= middle
            + "{\"protocolVersion\":"@);
        assert("}}}"@ =~= seq!['}'] + seq!['}'] + seq!['}']);
        assert(",\"capabilities\":{},\"clientInfo\":{\"name\":"@
            =~= ",\"capabilities\":{},\"clientInfo\":"@ + "{\"name\":"@);
    }
    lemma_initialize_joined(
        "{\"jsonrpc\":\"2.0\",\"id\":"@,
        text::decimal(id as nat),
        middle,
        "{\"protocolVersion\":"@,
        json::quoted(protocol),
        ",\"capabilities\":{},\"clientInfo\":"@,
        "{\"name\":"@,
        json::quoted(name),
        ",\"version\":"@,
        json::quoted(version),
        seq!['}'],
    );
}

proof fn lemma_methods_are_bounded()
    ensures
        server_rpc::is_bounded_text("initialize"@, MAX_METHOD_BYTES),
        server_rpc::is_bounded_text("notifications/initialized"@, MAX_METHOD_BYTES),
        server_rpc::is_bounded_text("tools/list"@, MAX_METHOD_BYTES),
        server_rpc::is_bounded_text("tools/call"@, MAX_METHOD_BYTES),
{
    reveal_strlit("initialize");
    reveal_strlit("notifications/initialized");
    reveal_strlit("tools/list");
    reveal_strlit("tools/call");
    text::lemma_encoded_len_bound("initialize"@);
    text::lemma_encoded_len_bound("notifications/initialized"@);
    text::lemma_encoded_len_bound("tools/list"@);
    text::lemma_encoded_len_bound("tools/call"@);
}

/// The deepest that the parameters of a request may nest.
pub open spec fn params_depth() -> int {
    json::MAX_JSON_NESTING_DEPTH - 1
}

/// A server reads the notification that ends the opening of a session as one
/// without an identifier and without parameters.
pub proof fn law_servers_read_the_end_of_an_opening()
    ensures
        server_rpc::request_envelope(json_rpc::initialized_text()) == Ok::<
            EnvelopeModel,
            RpcFailureModel,
        >(
            EnvelopeModel {
                id: None,
                method: "notifications/initialized"@,
                params: Some("{}"@),
            },
        ),
        server_rpc::no_params(Some("{}"@)),
{
    lemma_initialized_text();
    lemma_empty_object();
    lemma_methods_are_bounded();
    json_text::lemma_token_levels("{}"@, 1, params_depth());
    lemma_notification_is_read("notifications/initialized"@, "{}"@);
}

/// A server reads the request for the tools with its identifier.
pub proof fn law_servers_read_requests_for_tools(id: u64)
    ensures
        server_rpc::request_envelope(json_rpc::tools_list_text(id)) == Ok::<
            EnvelopeModel,
            RpcFailureModel,
        >(
            EnvelopeModel {
                id: Some(text::decimal(id as nat)),
                method: "tools/list"@,
                params: Some("{}"@),
            },
        ),
        server_rpc::no_params(Some("{}"@)),
{
    lemma_list_text(id);
    lemma_empty_object();
    lemma_methods_are_bounded();
    json_text::lemma_token_levels("{}"@, 1, params_depth());
    lemma_request_is_read(id, "tools/list"@, "{}"@);
}

/// Whether an input can be sent as the arguments of a call: it is no object, or
/// one that may still be nested in a request.
pub open spec fn is_sendable(input: Seq<char>) -> bool {
    let core = text::trimmed(input);
    core.len() > 0 && core[0] == '{' && core.last() == '}' ==> json::value_end(core, 0, 2) == Ok::<
        int,
        JsonFault,
    >(core.len() as int)
}

proof fn lemma_arguments_are_a_token(input: Seq<char>)
    requires
        is_sendable(input),
    ensures
        json_text::is_token(json_rpc::tool_arguments(input), json::MAX_JSON_NESTING_DEPTH - 2),
{
    let core = text::trimmed(input);
    let arguments = json_rpc::tool_arguments(input);
    if core.len() == 0 {
        lemma_empty_object();
        json_text::lemma_token_levels(arguments, 1, json::MAX_JSON_NESTING_DEPTH - 2);
    } else if core[0] == '{' && core.last() == '}' {
        json_text::lemma_read_object_is_token(core, json::MAX_JSON_NESTING_DEPTH - 2);
    } else {
        let field = ("input"@, json::quoted(input));
        reveal_strlit("{\"input\":");
        reveal_strlit("input");
        reveal_strlit("}");
        json_text::lemma_plain_text_quoted("input"@);
        lemma_object_of_one(field);
        assert(arguments =~= json_text::object_text(seq![field]));
        json_text::lemma_quoted_is_token(input);
        json_text::lemma_object_is_token(seq![field], 0);
        json_text::lemma_token_levels(arguments, 1, json::MAX_JSON_NESTING_DEPTH - 2);
    }
}

proof fn lemma_call_fields_are_read(tool: Seq<char>, input: Seq<char>)
    requires
        is_sendable(input),
    ensures
        json_text::is_token(json_text::object_text(call_fields(tool, input)), params_depth()),
        json::object_fields(json_text::object_text(call_fields(tool, input))) == Ok::<
            Fields,
            JsonFault,
        >(call_fields(tool, input)),
        json::lookup(call_fields(tool, input), "name"@) == Some(json::quoted(tool)),
        json::lookup(call_fields(tool, input), "arguments"@) == Some(
            json_rpc::tool_arguments(input),
        ),
{
    let fields = call_fields(tool, input);
    assert("name"@ != "arguments"@) by {
        reveal_strlit("name");
        reveal_strlit("arguments");
        assert("name"@.len() == 4);
        assert("arguments"@.len() == 9);
    }
    json_text::lemma_quoted_is_token(tool);
    json_text::lemma_token_levels(json::quoted(tool), 0, json::MAX_JSON_NESTING_DEPTH - 2);
    lemma_arguments_are_a_token(input);
    assert(json_text::token_fields(fields, json::MAX_JSON_NESTING_DEPTH - 2));
    json_text::lemma_object_is_token(fields, json::MAX_JSON_NESTING_DEPTH - 2);
    assert(json::distinct_keys(fields));
    json_text::lemma_fields_levels(fields, json::MAX_JSON_NESTING_DEPTH - 2, params_depth());
    json_text::law_written_object_reads_back(fields);
    json::lemma_lookup_at(fields, 0);
    json::lemma_lookup_at(fields, 1);
}

proof fn lemma_call_is_run(
    id: Seq<char>,
    tool: Seq<char>,
    params: Seq<char>,
    fields: Fields,
    tools: Seq<ToolModel>,
    session_id: Seq<char>,
)
    requires
        json::object_fields(params) == Ok::<Fields, JsonFault>(fields),
        fields.len() == 2,
        fields[0].0 == "name"@,
        fields[1].0 == "arguments"@,
        json::lookup(fields, "name"@) == Some(json::quoted(tool)),
        json::lookup(fields, "arguments"@) == Some(fields[1].1),
        server_rpc::is_bounded_text(tool, MAX_METHOD_BYTES),
        server::gate_of(tools, tool).allowed,
        server::call_refusal(tools, tool, fields[1].1) is None,
    ensures
        server_transport::call_outcome(tools, id, Some(params), session_id, SessionPhase::Ready)
            == (DispatchModel::Call { id, session_id, tool, arguments: fields[1].1 }),
{
    json::law_quoted_text_decodes(tool);
    assert(server_transport::called_tool(fields) == Some(tool));
    assert(server_rpc::keys_within(fields, "name"@, "arguments"@, "arguments"@));
}

/// A server reads the call of a tool as the client meant it: with its
/// identifier, the name of the tool, and the arguments.
pub proof fn law_servers_read_calls(id: u64, tool: Seq<char>, input: Seq<char>)
    requires
        is_sendable(input),
    ensures
        server_rpc::request_envelope(json_rpc::tools_call_text(id, tool, input)) == Ok::<
            EnvelopeModel,
            RpcFailureModel,
        >(
            EnvelopeModel {
                id: Some(text::decimal(id as nat)),
                method: "tools/call"@,
                params: Some(json_text::object_text(call_fields(tool, input))),
            },
        ),
        json::object_fields(json_text::object_text(call_fields(tool, input))) == Ok::<
            Fields,
            JsonFault,
        >(call_fields(tool, input)),
{
    let params = json_text::object_text(call_fields(tool, input));
    lemma_call_text(id, tool, input);
    lemma_call_fields_are_read(tool, input);
    lemma_methods_are_bounded();
    lemma_request_is_read(id, "tools/call"@, params);
}

/// In a session that is ready, a server hands the call of an exposed tool on
/// with the arguments that the client gave, where the tool takes them.
pub proof fn law_servers_run_calls(
    id: u64,
    tool: Seq<char>,
    input: Seq<char>,
    tools: Seq<ToolModel>,
    session_id: Seq<char>,
)
    requires
        is_sendable(input),
        server_rpc::is_bounded_text(tool, MAX_METHOD_BYTES),
        server::gate_of(tools, tool).allowed,
        server::call_refusal(tools, tool, json_rpc::tool_arguments(input)) is None,
    ensures
        server_transport::call_outcome(
            tools,
            text::decimal(id as nat),
            Some(json_text::object_text(call_fields(tool, input))),
            session_id,
            SessionPhase::Ready,
        ) == (DispatchModel::Call {
            id: text::decimal(id as nat),
            session_id,
            tool,
            arguments: json_rpc::tool_arguments(input),
        }),
{
    lemma_call_fields_are_read(tool, input);
    lemma_call_is_run(
        text::decimal(id as nat),
        tool,
        json_text::object_text(call_fields(tool, input)),
        call_fields(tool, input),
        tools,
        session_id,
    );
}

proof fn lemma_initialize_keys()
    ensures
        "protocolVersion"@ != "capabilities"@,
        "protocolVersion"@ != "clientInfo"@,
        "capabilities"@ != "clientInfo"@,
        "name"@ != "version"@,
{
    reveal_strlit("protocolVersion");
    reveal_strlit("capabilities");
    reveal_strlit("clientInfo");
    reveal_strlit("name");
    reveal_strlit("version");
    assert("protocolVersion"@.len() == 15);
    assert("capabilities"@.len() == 12);
    assert("clientInfo"@.len() == 10);
    assert("name"@.len() == 4);
    assert("version"@.len() == 7);
}

proof fn lemma_client_info_is_read(name: Seq<char>, version: Seq<char>)
    ensures
        json_text::is_token(json_text::object_text(client_info_fields(name, version)), 1),
        server_rpc::client_info_refusal(json_text::object_text(client_info_fields(name, version)))
            is None <==> server_rpc::is_bounded_text(name, MAX_CLIENT_INFO_BYTES)
            && server_rpc::is_bounded_text(version, MAX_CLIENT_INFO_BYTES),
{
    let fields = client_info_fields(name, version);
    lemma_initialize_keys();
    json_text::lemma_quoted_is_token(name);
    json_text::lemma_quoted_is_token(version);
    assert(json_text::token_fields(fields, 0));
    lemma_pair_is_read(fields, 0);
    assert(json::distinct_keys(fields));
    json::lemma_lookup_at(fields, 0);
    json::lemma_lookup_at(fields, 1);
    json::law_quoted_text_decodes(name);
    json::law_quoted_text_decodes(version);
}

proof fn lemma_initialize_fields_are_read(
    protocol: Seq<char>,
    name: Seq<char>,
    version: Seq<char>,
)
    ensures
        json_text::is_token(
            json_text::object_text(initialize_fields(protocol, name, version)),
            params_depth(),
        ),
        json::object_fields(json_text::object_text(initialize_fields(protocol, name, version)))
            == Ok::<Fields, JsonFault>(initialize_fields(protocol, name, version)),
        json::lookup(initialize_fields(protocol, name, version), "protocolVersion"@) == Some(
            json::quoted(protocol),
        ),
        json::lookup(initialize_fields(protocol, name, version), "capabilities"@) == Some("{}"@),
        json::lookup(initialize_fields(protocol, name, version), "clientInfo"@) == Some(
            json_text::object_text(client_info_fields(name, version)),
        ),
{
    let fields = initialize_fields(protocol, name, version);
    lemma_initialize_keys();
    lemma_empty_object();
    lemma_client_info_is_read(name, version);
    json_text::lemma_quoted_is_token(protocol);
    json_text::lemma_token_levels(json::quoted(protocol), 0, 1);
    assert(json_text::token_fields(fields, 1));
    json_text::lemma_object_is_token(fields, 1);
    json_text::lemma_token_levels(json_text::object_text(fields), 2, params_depth());
    json_text::lemma_fields_levels(fields, 1, params_depth());
    assert(json::distinct_keys(fields));
    json_text::law_written_object_reads_back(fields);
    json::lemma_lookup_at(fields, 0);
    json::lemma_lookup_at(fields, 1);
    json::lemma_lookup_at(fields, 2);
}

proof fn lemma_initialize_is_taken(params: Seq<char>, fields: Fields, protocol: Seq<char>)
    requires
        json::object_fields(params) == Ok::<Fields, JsonFault>(fields),
        fields.len() == 3,
        fields[0].0 == "protocolVersion"@,
        fields[1].0 == "capabilities"@,
        fields[2].0 == "clientInfo"@,
        json::lookup(fields, "protocolVersion"@) == Some(json::quoted(protocol)),
        json::lookup(fields, "capabilities"@) == Some("{}"@),
        json::lookup(fields, "clientInfo"@) == Some(fields[2].1),
    ensures
        server_rpc::initialize_refusal(Some(params)) is None <==> protocol
            == DEFAULT_PROTOCOL_VERSION@ && server_rpc::client_info_refusal(fields[2].1) is None,
{
    lemma_empty_object();
    json::law_quoted_text_decodes(protocol);
    assert(server_rpc::keys_within(fields, "protocolVersion"@, "capabilities"@, "clientInfo"@));
}

/// A server reads the request that opens a session with its identifier.
pub proof fn law_servers_read_openings(
    id: u64,
    protocol: Seq<char>,
    name: Seq<char>,
    version: Seq<char>,
)
    ensures
        server_rpc::request_envelope(json_rpc::initialize_text(id, protocol, name, version)) == Ok::<
            EnvelopeModel,
            RpcFailureModel,
        >(
            EnvelopeModel {
                id: Some(text::decimal(id as nat)),
                method: "initialize"@,
                params: Some(json_text::object_text(initialize_fields(protocol, name, version))),
            },
        ),
{
    let params = json_text::object_text(initialize_fields(protocol, name, version));
    lemma_initialize_text(id, protocol, name, version);
    lemma_initialize_fields_are_read(protocol, name, version);
    lemma_methods_are_bounded();
    lemma_request_is_read(id, "initialize"@, params);
}

/// A server takes the parameters of a client's opening request exactly if it
/// speaks the version that the client asks for and the client tells who it is in
/// bounded texts.
pub proof fn law_servers_take_openings(
    protocol: Seq<char>,
    name: Seq<char>,
    version: Seq<char>,
)
    ensures
        server_rpc::initialize_refusal(
            Some(json_text::object_text(initialize_fields(protocol, name, version))),
        ) is None <==> protocol == DEFAULT_PROTOCOL_VERSION@ && server_rpc::is_bounded_text(
            name,
            MAX_CLIENT_INFO_BYTES,
        ) && server_rpc::is_bounded_text(version, MAX_CLIENT_INFO_BYTES),
{
    lemma_initialize_fields_are_read(protocol, name, version);
    lemma_client_info_is_read(name, version);
    lemma_initialize_is_taken(
        json_text::object_text(initialize_fields(protocol, name, version)),
        initialize_fields(protocol, name, version),
        protocol,
    );
}

/// The version that a client reads from its own opening request is the one it
/// was set up with.
pub proof fn law_clients_ask_for_their_version(
    id: u64,
    protocol: Seq<char>,
    name: Seq<char>,
    version: Seq<char>,
)
    requires
        text::trimmed(protocol).len() > 0,
        json_rpc::valid_protocol_version(protocol),
    ensures
        http_session::requested_version(json_rpc::initialize_text(id, protocol, name, version))
            == Ok::<Seq<char>, ErrorModel>(protocol),
        json_rpc::string_field(json_rpc::initialize_text(id, protocol, name, version), "method"@)
            == Ok::<Option<Seq<char>>, ErrorModel>(Some("initialize"@)),
{
    let params = json_text::object_text(initialize_fields(protocol, name, version));
    let fields = request_fields(id, "initialize"@, params);
    lemma_initialize_text(id, protocol, name, version);
    lemma_initialize_fields_are_read(protocol, name, version);
    lemma_methods_are_bounded();
    lemma_request_is_read(id, "initialize"@, params);
    lemma_envelope_keys();
    assert(json::distinct_keys(fields));
    json::lemma_lookup_at(fields, 2);
    json::lemma_lookup_at(fields, 3);
    json::law_quoted_text_decodes("initialize"@);
    json::law_quoted_text_decodes(protocol);
}

// ---------------------------------------------------------------------------
// Replies
// ---------------------------------------------------------------------------

/// The members of a reply that carries a result.
pub open spec fn result_fields(id: u64, result: Seq<char>) -> Fields {
    seq![
        ("jsonrpc"@, json::quoted("2.0"@)),
        ("id"@, text::decimal(id as nat)),
        ("result"@, result),
    ]
}

/// The members of a reply that carries an error.
pub open spec fn error_fields(id: u64, error: Seq<char>) -> Fields {
    seq![
        ("jsonrpc"@, json::quoted("2.0"@)),
        ("id"@, text::decimal(id as nat)),
        ("error"@, error),
    ]
}

proof fn lemma_reply_keys()
    ensures
        "jsonrpc"@ != "id"@,
        "jsonrpc"@ != "result"@,
        "jsonrpc"@ != "error"@,
        "id"@ != "result"@,
        "id"@ != "error"@,
        "result"@ != "error"@,
{
    reveal_strlit("jsonrpc");
    reveal_strlit("id");
    reveal_strlit("result");
    reveal_strlit("error");
    assert("jsonrpc"@.len() == 7);
    assert("id"@.len() == 2);
    assert("result"@.len() == 6);
    assert("error"@.len() == 5);
}

proof fn lemma_decimal_is_trimmed(n: nat)
    ensures
        text::trimmed(text::decimal(n)) == text::decimal(n),
{
    json_text::lemma_decimal_shape(n);
    let d = text::decimal(n);
    assert(json::is_digit(d[0]));
    assert(json::is_digit(d[d.len() - 1]));
    text::lemma_trimmed_stays(d);
}

proof fn lemma_reply_fields_are_read(fields: Fields, id: u64, name: Seq<char>, value: Seq<char>)
    requires
        fields == seq![
            ("jsonrpc"@, json::quoted("2.0"@)),
            ("id"@, text::decimal(id as nat)),
            (name, value),
        ],
        name == "result"@ || name == "error"@,
        json_text::is_token(value, json::MAX_JSON_NESTING_DEPTH - 1),
    ensures
        json::object_fields(json_text::object_text(fields)) == Ok::<Fields, JsonFault>(fields),
        json::lookup(fields, "jsonrpc"@) == Some(json::quoted("2.0"@)),
        json::lookup(fields, "id"@) == Some(text::decimal(id as nat)),
        json::lookup(fields, name) == Some(value),
        name == "result"@ ==> json::lookup(fields, "error"@) is None,
{
    lemma_reply_keys();
    json_text::lemma_quoted_is_token("2.0"@);
    json_text::lemma_decimal_is_token(id as nat);
    json_text::lemma_token_levels(fields[0].1, 0, params_depth());
    json_text::lemma_token_levels(fields[1].1, 0, params_depth());
    assert(json_text::token_fields(fields, json::MAX_JSON_NESTING_DEPTH - 1));
    assert(json::distinct_keys(fields));
    json_text::law_written_object_reads_back(fields);
    json::lemma_lookup_at(fields, 0);
    json::lemma_lookup_at(fields, 1);
    json::lemma_lookup_at(fields, 2);
    json::lemma_lookup_absent(fields, "error"@);
}

proof fn lemma_reply_is_for(reply: Seq<char>, fields: Fields, id: u64)
    requires
        json::object_fields(reply) == Ok::<Fields, JsonFault>(fields),
        json::lookup(fields, "jsonrpc"@) == Some(json::quoted("2.0"@)),
        json::lookup(fields, "id"@) == Some(text::decimal(id as nat)),
    ensures
        json_rpc::string_field(reply, "jsonrpc"@) == Ok::<Option<Seq<char>>, ErrorModel>(
            Some("2.0"@),
        ),
        json_rpc::u64_field(reply, "id"@) == Ok::<Option<int>, ErrorModel>(Some(id as int)),
{
    json::law_quoted_text_decodes("2.0"@);
    lemma_decimal_is_trimmed(id as nat);
    text::law_decimal_reads_back(id);
}

/// A client reads the result of the reply to its request.
proof fn lemma_result_is_read(id: u64, result: Seq<char>)
    requires
        json_text::is_token(result, json::MAX_JSON_NESTING_DEPTH - 1),
    ensures
        json_rpc::reply_result(json_text::object_text(result_fields(id, result)), id) == Ok::<
            Seq<char>,
            ErrorModel,
        >(result),
{
    let fields = result_fields(id, result);
    lemma_reply_fields_are_read(fields, id, "result"@, result);
    lemma_reply_is_for(json_text::object_text(fields), fields, id);
}

/// A client reads the error of the reply to its request.
proof fn lemma_error_is_read(id: u64, error: Seq<char>)
    requires
        json_text::is_token(error, json::MAX_JSON_NESTING_DEPTH - 1),
    ensures
        json_rpc::reply_result(json_text::object_text(error_fields(id, error)), id) == Err::<
            Seq<char>,
            ErrorModel,
        >(json_rpc::error_object_model(error, id)),
{
    let fields = error_fields(id, error);
    lemma_reply_fields_are_read(fields, id, "error"@, error);
    lemma_reply_is_for(json_text::object_text(fields), fields, id);
}

/// A reply as it is written, around what it carries.
proof fn lemma_reply_text(id: u64, name: Seq<char>, value: Seq<char>, middle: Seq<char>)
    requires
        middle == seq![','] + json::quoted(name) + seq![':'],
    ensures
        json_text::object_text(
            seq![
                ("jsonrpc"@, json::quoted("2.0"@)),
                ("id"@, text::decimal(id as nat)),
                (name, value),
            ],
        ) == "{\"jsonrpc\":\"2.0\",\"id\":"@ + text::decimal(id as nat) + middle + value + seq!['}'],
{
    lemma_request_start();
    let a = ("jsonrpc"@, json::quoted("2.0"@));
    let b = ("id"@, text::decimal(id as nat));
    lemma_object_of_three(a, b, (name, value));
    assert(json_text::object_text(seq![a, b, (name, value)]) =~= "{\"jsonrpc\":\"2.0\",\"id\":"@
        + text::decimal(id as nat) + middle + value + seq!['}']);
}

/// The error object of a reply.
pub open spec fn error_object_fields(code: i64, message: Seq<char>) -> Fields {
    seq![("code"@, text::signed_decimal(code as int)), ("message"@, json::quoted(message))]
}

proof fn lemma_error_object_text(code: i64, message: Seq<char>)
    ensures
        json_text::object_text(error_object_fields(code, message)) == "{\"code\":"@
            + text::signed_decimal(code as int) + ",\"message\":"@ + json::quoted(message)
            + seq!['}'],
{
    reveal_strlit("{\"code\":");
    reveal_strlit(",\"message\":");
    reveal_strlit("code");
    reveal_strlit("message");
    json_text::lemma_plain_text_quoted("code"@);
    json_text::lemma_plain_text_quoted("message"@);
    let number = text::signed_decimal(code as int);
    let content = json::quoted(message);
    lemma_object_of_two(("code"@, number), ("message"@, content));
    assert(json_text::object_text(error_object_fields(code, message)) =~= "{\"code\":"@ + number
        + ",\"message\":"@ + content + seq!['}']);
}

proof fn lemma_error_object_is_read(code: i64, message: Seq<char>)
    ensures
        json_text::is_token(json_text::object_text(error_object_fields(code, message)), 1),
        json_rpc::error_object_code(json_text::object_text(error_object_fields(code, message)))
            == code,
        json_rpc::error_object_message(json_text::object_text(error_object_fields(code, message)))
            == message,
{
    let fields = error_object_fields(code, message);
    assert("code"@ != "message"@) by {
        reveal_strlit("code");
        reveal_strlit("message");
        assert("code"@.len() == 4);
        assert("message"@.len() == 7);
    }
    json_text::lemma_signed_decimal_is_token(code as int);
    json_text::lemma_quoted_is_token(message);
    assert(json_text::token_fields(fields, 0));
    lemma_pair_is_read(fields, 0);
    assert(json::distinct_keys(fields));
    json::lemma_lookup_at(fields, 0);
    json::lemma_lookup_at(fields, 1);
    json::law_quoted_text_decodes(message);
    lemma_signed_decimal_is_trimmed(code as int);
    text::law_signed_decimal_reads_back(code);
}

proof fn lemma_signed_decimal_is_trimmed(n: int)
    ensures
        text::trimmed(text::signed_decimal(n)) == text::signed_decimal(n),
{
    if n >= 0 {
        lemma_decimal_is_trimmed(n as nat);
    } else {
        let d = text::decimal((-n) as nat);
        let s = text::signed_decimal(n);
        json_text::lemma_decimal_shape((-n) as nat);
        assert(s[0] == '-');
        assert(s.last() == d.last());
        assert(json::is_digit(d[d.len() - 1]));
        text::lemma_trimmed_stays(s);
    }
}

/// A client reads the code and the message of the error that a server answers
/// its request with.
pub proof fn law_clients_read_errors(id: u64, code: i64, message: Seq<char>)
    ensures
        json_rpc::reply_result(
            server_rpc::error_body(Some(text::decimal(id as nat)), code as int, message),
            id,
        ) == Err::<Seq<char>, ErrorModel>(
            ErrorModel::new(
                ErrorKind::Unavailable,
                "MCP JSON-RPC error object returned"@,
            ).code("json_rpc_"@ + text::signed_decimal(code as int)).ctx(
                "json_rpc_id"@,
                text::decimal(id as nat),
            ).ctx("json_rpc_code"@, text::signed_decimal(code as int)).ctx(
                "json_rpc_message"@,
                json_rpc::truncated(message),
            ),
        ),
{
    let error = json_text::object_text(error_object_fields(code, message));
    lemma_error_object_is_read(code, message);
    json_text::lemma_token_levels(error, 1, json::MAX_JSON_NESTING_DEPTH - 1);
    lemma_error_is_read(id, error);
    lemma_error_text(id, code, message);
}

proof fn lemma_error_text(id: u64, code: i64, message: Seq<char>)
    ensures
        server_rpc::error_body(Some(text::decimal(id as nat)), code as int, message)
            == json_text::object_text(
            error_fields(id, json_text::object_text(error_object_fields(code, message))),
        ),
{
    let error = json_text::object_text(error_object_fields(code, message));
    let middle = seq![','] + json::quoted("error"@) + seq![':'];
    lemma_error_object_text(code, message);
    lemma_reply_text(id, "error"@, error, middle);
    assert(",\"error\":{\"code\":"@ == middle + "{\"code\":"@ && "}}"@ == seq!['}'] + seq!['}']) by {
        reveal_strlit(",\"error\":{\"code\":");
        reveal_strlit("{\"code\":");
        reveal_strlit("error");
        reveal_strlit("}}");
        json_text::lemma_plain_text_quoted("error"@);
        assert(",\"error\":{\"code\":"@ =~= middle + "{\"code\":"@);
        assert("}}"@ =~= seq!['}'] + seq!['}']);
    }
    assert(server_rpc::error_body(Some(text::decimal(id as nat)), code as int, message)
        =~= "{\"jsonrpc\":\"2.0\",\"id\":"@ + text::decimal(id as nat) + middle + error
        + seq!['}']);
}

proof fn lemma_result_text(id: u64, result: Seq<char>)
    ensures
        json_text::object_text(result_fields(id, result)) == "{\"jsonrpc\":\"2.0\",\"id\":"@
            + text::decimal(id as nat) + ",\"result\":"@ + result + seq!['}'],
{
    reveal_strlit(",\"result\":");
    reveal_strlit("result");
    json_text::lemma_plain_text_quoted("result"@);
    assert(",\"result\":"@ =~= seq![','] + json::quoted("result"@) + seq![':']);
    lemma_reply_text(id, "result"@, result, ",\"result\":"@);
}

/// One part of the content of a result.
pub open spec fn text_part_fields(content: Seq<char>) -> Fields {
    seq![("type"@, json::quoted("text"@)), ("text"@, json::quoted(content))]
}

/// The result of a call.
pub open spec fn tool_result_fields(content: Seq<char>, is_error: bool) -> Fields {
    seq![
        (
            "content"@,
            json_text::array_text(seq![json_text::object_text(text_part_fields(content))]),
        ),
        (
            "isError"@,
            if is_error {
                "true"@
            } else {
                "false"@
            },
        ),
    ]
}

proof fn lemma_text_part(content: Seq<char>)
    ensures
        json_text::object_text(text_part_fields(content)) == "{\"type\":\"text\",\"text\":"@
            + json::quoted(content) + seq!['}'],
{
    reveal_strlit("{\"type\":\"text\",\"text\":");
    reveal_strlit("type");
    reveal_strlit("text");
    json_text::lemma_plain_text_quoted("type"@);
    json_text::lemma_plain_text_quoted("text"@);
    let quoted = json::quoted(content);
    lemma_object_of_two(("type"@, json::quoted("text"@)), ("text"@, quoted));
    assert(json_text::object_text(text_part_fields(content)) =~= "{\"type\":\"text\",\"text\":"@
        + quoted + seq!['}']);
}

proof fn lemma_tool_result_object(part: Seq<char>, flag: Seq<char>)
    ensures
        json_text::object_text(
            seq![("content"@, json_text::array_text(seq![part])), ("isError"@, flag)],
        ) == "{\"content\":["@ + part + "],\"isError\":"@ + flag + seq!['}'],
{
    reveal_strlit("{\"content\":[");
    reveal_strlit("],\"isError\":");
    reveal_strlit("content");
    reveal_strlit("isError");
    json_text::lemma_plain_text_quoted("content"@);
    json_text::lemma_plain_text_quoted("isError"@);
    let a = ("content"@, json_text::array_text(seq![part]));
    let b = ("isError"@, flag);
    lemma_object_of_two(a, b);
    assert(json_text::object_text(seq![a, b]) =~= "{\"content\":["@ + part + "],\"isError\":"@ + flag
        + seq!['}']);
}

#[verifier::rlimit(30)]
proof fn lemma_tool_body_text(id: u64, content: Seq<char>, is_error: bool)
    ensures
        server_rpc::tool_body(text::decimal(id as nat), content, is_error)
            == json_text::object_text(
            result_fields(id, json_text::object_text(tool_result_fields(content, is_error))),
        ),
{
    let part = json_text::object_text(text_part_fields(content));
    let flag = if is_error {
        "true"@
    } else {
        "false"@
    };
    let result = json_text::object_text(tool_result_fields(content, is_error));
    let quoted = json::quoted(content);
    lemma_text_part(content);
    lemma_tool_result_object(part, flag);
    lemma_result_text(id, result);
    assert(",\"result\":{\"content\":[{\"type\":\"text\",\"text\":"@ == ",\"result\":"@
        + "{\"content\":["@ + "{\"type\":\"text\",\"text\":"@ && "}],\"isError\":"@ == seq!['}']
        + "],\"isError\":"@ && "}}"@ == seq!['}'] + seq!['}']) by {
        reveal_strlit(",\"result\":{\"content\":[{\"type\":\"text\",\"text\":");
        reveal_strlit(",\"result\":");
        reveal_strlit("{\"content\":[");
        reveal_strlit("{\"type\":\"text\",\"text\":");
        reveal_strlit("}],\"isError\":");
        reveal_strlit("],\"isError\":");
        reveal_strlit("}}");
        assert(",\"result\":{\"content\":[{\"type\":\"text\",\"text\":"@ =~= ",\"result\":"@
            + "{\"content\":["@ + "{\"type\":\"text\",\"text\":"@);
        assert("}],\"isError\":"@ =~= seq!['}'] + "],\"isError\":"@);
        assert("}}"@ =~= seq!['}'] + seq!['}']);
    }
    assert(server_rpc::tool_body(text::decimal(id as nat), content, is_error)
        =~= "{\"jsonrpc\":\"2.0\",\"id\":"@ + text::decimal(id as nat) + ",\"result\":"@ + result
        + seq!['}']);
}

/// A client reads the result of a call from what the server answers: the text
/// that the tool gave, and whether it is an error.
pub proof fn law_clients_read_results(id: u64, content: Seq<char>, is_error: bool)
    ensures
        json_rpc::reply_result(
            server_rpc::tool_body(text::decimal(id as nat), content, is_error),
            id,
        ) == Ok::<Seq<char>, ErrorModel>(
            json_text::object_text(tool_result_fields(content, is_error)),
        ),
        json::object_fields(json_text::object_text(tool_result_fields(content, is_error))) == Ok::<
            Fields,
            JsonFault,
        >(tool_result_fields(content, is_error)),
        json::object_fields(json_text::object_text(text_part_fields(content))) == Ok::<
            Fields,
            JsonFault,
        >(text_part_fields(content)),
        json::string_value(text_part_fields(content)[1].1) == Ok::<Seq<char>, JsonFault>(content),
{
    let result = json_text::object_text(tool_result_fields(content, is_error));
    lemma_tool_body_text(id, content, is_error);
    lemma_tool_result_is_read(content, is_error);
    lemma_text_part_is_read(content);
    json_text::lemma_token_levels(result, 3, json::MAX_JSON_NESTING_DEPTH - 1);
    lemma_result_is_read(id, result);
    json::law_quoted_text_decodes(content);
}

/// An object of two members is one value and reads back.
proof fn lemma_pair_is_read(fields: Fields, levels: int)
    requires
        fields.len() == 2,
        fields[0].0 != fields[1].0,
        json_text::token_fields(fields, levels),
        0 <= levels < json::MAX_JSON_NESTING_DEPTH - 1,
    ensures
        json_text::is_token(json_text::object_text(fields), levels + 1),
        json::object_fields(json_text::object_text(fields)) == Ok::<Fields, JsonFault>(fields),
{
    json_text::lemma_object_is_token(fields, levels);
    json_text::lemma_fields_levels(fields, levels, params_depth());
    assert(json::distinct_keys(fields));
    json_text::law_written_object_reads_back(fields);
}

proof fn lemma_result_keys()
    ensures
        "type"@ != "text"@,
        "content"@ != "isError"@,
{
    reveal_strlit("type");
    reveal_strlit("text");
    reveal_strlit("content");
    reveal_strlit("isError");
    assert("type"@[1] == 'y');
    assert("text"@[1] == 'e');
    assert("content"@[0] == 'c');
    assert("isError"@[0] == 'i');
}

proof fn lemma_text_part_is_read(content: Seq<char>)
    ensures
        json_text::is_token(json_text::object_text(text_part_fields(content)), 1),
        json::object_fields(json_text::object_text(text_part_fields(content))) == Ok::<
            Fields,
            JsonFault,
        >(text_part_fields(content)),
{
    let part = text_part_fields(content);
    lemma_result_keys();
    json_text::lemma_quoted_is_token("text"@);
    json_text::lemma_quoted_is_token(content);
    assert(json_text::token_fields(part, 0));
    lemma_pair_is_read(part, 0);
}

proof fn lemma_tool_result_is_read(content: Seq<char>, is_error: bool)
    ensures
        json_text::is_token(json_text::object_text(tool_result_fields(content, is_error)), 3),
        json::object_fields(json_text::object_text(tool_result_fields(content, is_error))) == Ok::<
            Fields,
            JsonFault,
        >(tool_result_fields(content, is_error)),
{
    let fields = tool_result_fields(content, is_error);
    let items = seq![json_text::object_text(text_part_fields(content))];
    lemma_result_keys();
    lemma_text_part_is_read(content);
    assert(json_text::token_items(items, 1));
    json_text::lemma_array_is_token(items, 1);
    json_text::lemma_true_is_token();
    json_text::lemma_false_is_token();
    json_text::lemma_token_levels(fields[1].1, 0, 2);
    assert(json_text::token_fields(fields, 2));
    lemma_pair_is_read(fields, 2);
}

/// What a server tells a client that opens a session.
pub open spec fn opened_fields() -> Fields {
    seq![
        ("protocolVersion"@, json::quoted(DEFAULT_PROTOCOL_VERSION@)),
        ("capabilities"@, json_text::object_text(seq![("tools"@, "{}"@)])),
        ("serverInfo"@, json_text::object_text(client_info_fields("eva"@, SERVER_VERSION@))),
    ]
}

proof fn lemma_capabilities_text()
    ensures
        json_text::object_text(seq![("tools"@, "{}"@)]) == "{\"tools\":{}}"@,
{
    reveal_strlit("{\"tools\":{}}");
    reveal_strlit("tools");
    reveal_strlit("{}");
    json_text::lemma_plain_text_quoted("tools"@);
    lemma_object_of_one(("tools"@, "{}"@));
    assert(json_text::object_text(seq![("tools"@, "{}"@)]) =~= "{\"tools\":{}}"@);
}

proof fn lemma_opened_object(protocol: Seq<char>, capabilities: Seq<char>, info: Seq<char>)
    ensures
        json_text::object_text(
            seq![
                ("protocolVersion"@, protocol),
                ("capabilities"@, capabilities),
                ("serverInfo"@, info),
            ],
        ) == "{\"protocolVersion\":"@ + protocol + ",\"capabilities\":"@ + capabilities
            + ",\"serverInfo\":"@ + info + seq!['}'],
{
    reveal_strlit("{\"protocolVersion\":");
    reveal_strlit(",\"capabilities\":");
    reveal_strlit(",\"serverInfo\":");
    reveal_strlit("protocolVersion");
    reveal_strlit("capabilities");
    reveal_strlit("serverInfo");
    json_text::lemma_plain_text_quoted("protocolVersion"@);
    json_text::lemma_plain_text_quoted("capabilities"@);
    json_text::lemma_plain_text_quoted("serverInfo"@);
    let a = ("protocolVersion"@, protocol);
    let b = ("capabilities"@, capabilities);
    let c = ("serverInfo"@, info);
    lemma_object_of_three(a, b, c);
    assert(json_text::object_text(seq![a, b, c]) =~= "{\"protocolVersion\":"@ + protocol
        + ",\"capabilities\":"@ + capabilities + ",\"serverInfo\":"@ + info + seq!['}']);
}

proof fn lemma_opened_joined(
    start: Seq<char>,
    id: Seq<char>,
    middle: Seq<char>,
    first: Seq<char>,
    protocol: Seq<char>,
    second: Seq<char>,
    capabilities: Seq<char>,
    third: Seq<char>,
    fourth: Seq<char>,
    name: Seq<char>,
    fifth: Seq<char>,
    version: Seq<char>,
    close: Seq<char>,
)
    ensures
        start + id + (middle + first) + protocol + (second + capabilities + third + fourth + name
            + fifth) + version + (close + close + close) == start + id + middle + (first + protocol
            + second + capabilities + third + (fourth + name + fifth + version + close) + close)
            + close,
{
    let info = fourth + name + fifth + version + close;
    assert(start + id + (middle + first) + protocol + (second + capabilities + third + fourth + name
        + fifth) + version + (close + close + close) =~= start + id + middle + first + protocol
        + second + capabilities + third + info + close + close);
    assert(start + id + middle + (first + protocol + second + capabilities + third + info + close)
        + close =~= start + id + middle + first + protocol + second + capabilities + third + info
        + close + close);
}

proof fn lemma_opened_literals()
    ensures
        ",\"result\":{\"protocolVersion\":"@ == ",\"result\":"@ + "{\"protocolVersion\":"@,
        ",\"capabilities\":{\"tools\":{}},\"serverInfo\":{\"name\":\"eva\",\"version\":"@
            == ",\"capabilities\":"@ + "{\"tools\":{}}"@ + ",\"serverInfo\":"@ + "{\"name\":"@
            + json::quoted("eva"@) + ",\"version\":"@,
        "}}}"@ == seq!['}'] + seq!['}'] + seq!['}'],
{
    reveal_strlit(",\"result\":{\"protocolVersion\":");
    reveal_strlit(",\"result\":");
    reveal_strlit("{\"protocolVersion\":");
    reveal_strlit(
        ",\"capabilities\":{\"tools\":{}},\"serverInfo\":{\"name\":\"eva\",\"version\":",
    );
    reveal_strlit(",\"capabilities\":");
    reveal_strlit("{\"tools\":{}}");
    reveal_strlit(",\"serverInfo\":");
    reveal_strlit("{\"name\":");
    reveal_strlit("eva");
    reveal_strlit(",\"version\":");
    reveal_strlit("}}}");
    json_text::lemma_plain_text_quoted("eva"@);
    assert(",\"result\":{\"protocolVersion\":"@ =~= ",\"result\":"@ + "{\"protocolVersion\":"@);
    assert(",\"capabilities\":{\"tools\":{}},\"serverInfo\":{\"name\":\"eva\",\"version\":"@
        =~= ",\"capabilities\":"@ + "{\"tools\":{}}"@ + ",\"serverInfo\":"@ + "{\"name\":"@
        + json::quoted("eva"@) + ",\"version\":"@);
    assert("}}}"@ =~= seq!['}'] + seq!['}'] + seq!['}']);
}

proof fn lemma_opened_text(id: u64)
    ensures
        server_rpc::initialize_body(text::decimal(id as nat)) == json_text::object_text(
            result_fields(id, json_text::object_text(opened_fields())),
        ),
{
    let protocol = json::quoted(DEFAULT_PROTOCOL_VERSION@);
    let info = json_text::object_text(client_info_fields("eva"@, SERVER_VERSION@));
    lemma_capabilities_text();
    lemma_client_info_text("eva"@, SERVER_VERSION@);
    lemma_opened_object(protocol, "{\"tools\":{}}"@, info);
    lemma_result_text(id, json_text::object_text(opened_fields()));
    lemma_opened_literals();
    lemma_opened_joined(
        "{\"jsonrpc\":\"2.0\",\"id\":"@,
        text::decimal(id as nat),
        ",\"result\":"@,
        "{\"protocolVersion\":"@,
        protocol,
        ",\"capabilities\":"@,
        "{\"tools\":{}}"@,
        ",\"serverInfo\":"@,
        "{\"name\":"@,
        json::quoted("eva"@),
        ",\"version\":"@,
        json::quoted(SERVER_VERSION@),
        seq!['}'],
    );
}

proof fn lemma_opened_values_are_read(fields: Fields)
    requires
        fields.len() == 3,
        fields[0].0 == "protocolVersion"@,
        fields[1].0 == "capabilities"@,
        fields[2].0 == "serverInfo"@,
        json_text::token_fields(fields, 2),
    ensures
        json_text::is_token(json_text::object_text(fields), params_depth()),
        json::object_fields(json_text::object_text(fields)) == Ok::<Fields, JsonFault>(fields),
        json::lookup(fields, "protocolVersion"@) == Some(fields[0].1),
{
    assert("protocolVersion"@ != "capabilities"@ && "protocolVersion"@ != "serverInfo"@
        && "capabilities"@ != "serverInfo"@) by {
        reveal_strlit("protocolVersion");
        reveal_strlit("capabilities");
        reveal_strlit("serverInfo");
        assert("protocolVersion"@.len() == 15);
        assert("capabilities"@.len() == 12);
        assert("serverInfo"@.len() == 10);
    }
    json_text::lemma_object_is_token(fields, 2);
    json_text::lemma_token_levels(json_text::object_text(fields), 3, params_depth());
    json_text::lemma_fields_levels(fields, 2, params_depth());
    assert(json::distinct_keys(fields));
    json_text::law_written_object_reads_back(fields);
    json::lemma_lookup_at(fields, 0);
}

proof fn lemma_opened_fields_are_tokens()
    ensures
        json_text::token_fields(opened_fields(), 2),
{
    let fields = opened_fields();
    let inner = seq![("tools"@, "{}"@)];
    lemma_empty_object();
    assert(json_text::token_fields(inner, 1));
    json_text::lemma_object_is_token(inner, 1);
    lemma_client_info_is_read("eva"@, SERVER_VERSION@);
    json_text::lemma_quoted_is_token(DEFAULT_PROTOCOL_VERSION@);
    json_text::lemma_token_levels(json::quoted(DEFAULT_PROTOCOL_VERSION@), 0, 2);
    json_text::lemma_token_levels(
        json_text::object_text(client_info_fields("eva"@, SERVER_VERSION@)),
        1,
        2,
    );
}

proof fn lemma_default_version_is_valid()
    ensures
        json_rpc::valid_protocol_version(DEFAULT_PROTOCOL_VERSION@),
        text::trimmed(DEFAULT_PROTOCOL_VERSION@).len() > 0,
{
    reveal_strlit("2025-11-25");
    let v = DEFAULT_PROTOCOL_VERSION@;
    assert(v.len() == 10);
    assert(v[0] == '2' && v[9] == '5');
    text::lemma_trimmed_stays(v);
    text::lemma_encoded_len_bound(v);
    vstd::utf8::is_ascii_chars_encode_utf8(v);
    assert forall|i: int| 0 <= i < v.len() implies 0x21 <= #[trigger] v[i] as u32 <= 0x7e by {}
}

/// A client that asks for the version that the server speaks reads from the
/// answer that they agree on it.
pub proof fn law_clients_agree_with_servers(id: u64)
    ensures
        http_session::agreed_version(
            Ok(server_rpc::initialize_body(text::decimal(id as nat))),
            id,
            DEFAULT_PROTOCOL_VERSION@,
        ) == Ok::<Seq<char>, ErrorModel>(DEFAULT_PROTOCOL_VERSION@),
{
    let result = json_text::object_text(opened_fields());
    lemma_opened_text(id);
    lemma_opened_fields_are_tokens();
    lemma_opened_values_are_read(opened_fields());
    lemma_result_is_read(id, result);
    lemma_default_version_is_valid();
    json::law_quoted_text_decodes(DEFAULT_PROTOCOL_VERSION@);
    assert(json_rpc::string_field(result, "protocolVersion"@) == Ok::<
        Option<Seq<char>>,
        ErrorModel,
    >(Some(DEFAULT_PROTOCOL_VERSION@)));
}

/// The members of the entry of a tool.
pub open spec fn tool_entry_fields(tool: ToolModel) -> Fields {
    seq![
        ("name"@, json::quoted(tool.name)),
        ("description"@, json::quoted(tool.description)),
        ("inputSchema"@, tool.input_schema),
        ("annotations"@, json_text::object_text(seq![("readOnlyHint"@, "true"@)])),
    ]
}

/// The entries of several tools.
pub open spec fn entry_texts(tools: Seq<ToolModel>) -> Seq<Seq<char>> {
    tools.map_values(|tool: ToolModel| json_text::object_text(tool_entry_fields(tool)))
}

/// The result that lists tools.
pub open spec fn list_fields(tools: Seq<ToolModel>) -> Fields {
    seq![("tools"@, json_text::array_text(entry_texts(tools)))]
}

/// Whether the schema of a tool is one value that may be nested in the answer to
/// a request for the tools.
pub open spec fn has_listable_schema(tool: ToolModel) -> bool {
    &&& tool.input_schema.len() > 0
    &&& tool.input_schema[0] == '{'
    &&& json::value_end(tool.input_schema, 0, 4) == Ok::<int, JsonFault>(
        tool.input_schema.len() as int,
    )
}

proof fn lemma_hint_text()
    ensures
        json_text::object_text(seq![("readOnlyHint"@, "true"@)]) == "{\"readOnlyHint\":true}"@,
        json_text::is_token(json_text::object_text(seq![("readOnlyHint"@, "true"@)]), 1),
{
    let field = ("readOnlyHint"@, "true"@);
    json_text::lemma_true_is_token();
    assert(json_text::token_fields(seq![field], 0));
    json_text::lemma_object_is_token(seq![field], 0);
    reveal_strlit("{\"readOnlyHint\":true}");
    reveal_strlit("readOnlyHint");
    reveal_strlit("true");
    json_text::lemma_plain_text_quoted("readOnlyHint"@);
    lemma_object_of_one(field);
    assert(json_text::object_text(seq![field]) =~= "{\"readOnlyHint\":true}"@);
}

#[verifier::rlimit(30)]
proof fn lemma_entry_object(name: Seq<char>, description: Seq<char>, schema: Seq<char>, hint: Seq<char>)
    ensures
        json_text::object_text(
            seq![
                ("name"@, name),
                ("description"@, description),
                ("inputSchema"@, schema),
                ("annotations"@, hint),
            ],
        ) == "{\"name\":"@ + name + ",\"description\":"@ + description + ",\"inputSchema\":"@
            + schema + ",\"annotations\":"@ + hint + seq!['}'],
{
    reveal_strlit("{\"name\":");
    reveal_strlit(",\"description\":");
    reveal_strlit(",\"inputSchema\":");
    reveal_strlit(",\"annotations\":");
    reveal_strlit("name");
    reveal_strlit("description");
    reveal_strlit("inputSchema");
    reveal_strlit("annotations");
    json_text::lemma_plain_text_quoted("name"@);
    json_text::lemma_plain_text_quoted("description"@);
    json_text::lemma_plain_text_quoted("inputSchema"@);
    json_text::lemma_plain_text_quoted("annotations"@);
    let a = ("name"@, name);
    let b = ("description"@, description);
    let c = ("inputSchema"@, schema);
    let d = ("annotations"@, hint);
    lemma_object_of_four(a, b, c, d);
    assert(json_text::object_text(seq![a, b, c, d]) =~= "{\"name\":"@ + name
        + ",\"description\":"@ + description + ",\"inputSchema\":"@ + schema
        + ",\"annotations\":"@ + hint + seq!['}']);
}

/// The entry of a tool is an object with its members.
pub proof fn lemma_entry_text(tool: ToolModel)
    ensures
        server_rpc::tool_entry(tool) == json_text::object_text(tool_entry_fields(tool)),
{
    let name = json::quoted(tool.name);
    let description = json::quoted(tool.description);
    lemma_hint_text();
    lemma_entry_object(name, description, tool.input_schema, "{\"readOnlyHint\":true}"@);
    assert(",\"annotations\":{\"readOnlyHint\":true}}"@ == ",\"annotations\":"@
        + "{\"readOnlyHint\":true}"@ + seq!['}']) by {
        reveal_strlit(",\"annotations\":{\"readOnlyHint\":true}}");
        reveal_strlit(",\"annotations\":");
        reveal_strlit("{\"readOnlyHint\":true}");
        assert(",\"annotations\":{\"readOnlyHint\":true}}"@ =~= ",\"annotations\":"@
            + "{\"readOnlyHint\":true}"@ + seq!['}']);
    }
    let front = "{\"name\":"@ + name + ",\"description\":"@ + description + ",\"inputSchema\":"@
        + tool.input_schema;
    assert(front + (",\"annotations\":"@ + "{\"readOnlyHint\":true}"@ + seq!['}']) =~= front
        + ",\"annotations\":"@ + "{\"readOnlyHint\":true}"@ + seq!['}']);
}

proof fn lemma_items_pushed(items: Seq<Seq<char>>, last: Seq<char>)
    requires
        items.len() > 0,
    ensures
        json_text::items_text(items.push(last)) == json_text::items_text(items) + seq![','] + last,
    decreases items.len(),
{
    let all = items.push(last);
    if items.len() == 1 {
        assert(all.drop_first() =~= seq![last]);
        assert(json_text::items_text(seq![last]) == last);
    } else {
        assert(all.drop_first() =~= items.drop_first().push(last));
        lemma_items_pushed(items.drop_first(), last);
    }
    assert(json_text::items_text(all) =~= json_text::items_text(items) + seq![','] + last);
}

proof fn lemma_entries_text(tools: Seq<ToolModel>)
    ensures
        server_rpc::tool_entries(tools) == json_text::items_text(entry_texts(tools)),
    decreases tools.len(),
{
    if tools.len() == 1 {
        lemma_entry_text(tools[0]);
    } else if tools.len() > 1 {
        let front = tools.drop_last();
        let last = json_text::object_text(tool_entry_fields(tools.last()));
        lemma_entries_text(front);
        lemma_entry_text(tools.last());
        assert(entry_texts(tools) =~= entry_texts(front).push(last));
        lemma_items_pushed(entry_texts(front), last);
        reveal_strlit(",");
        assert(","@ =~= seq![',']);
    }
}

proof fn lemma_list_body_text(id: u64, tools: Seq<ToolModel>)
    ensures
        server_rpc::tools_list_body(text::decimal(id as nat), tools) == json_text::object_text(
            result_fields(id, json_text::object_text(list_fields(tools))),
        ),
{
    let items = json_text::items_text(entry_texts(tools));
    let start = "{\"jsonrpc\":\"2.0\",\"id\":"@ + text::decimal(id as nat);
    lemma_entries_text(tools);
    lemma_result_text(id, json_text::object_text(list_fields(tools)));
    lemma_list_object(entry_texts(tools));
    assert(",\"result\":{\"tools\":["@ == ",\"result\":"@ + "{\"tools\":["@ && "]}}"@ == seq![']']
        + seq!['}'] + seq!['}']) by {
        reveal_strlit(",\"result\":{\"tools\":[");
        reveal_strlit(",\"result\":");
        reveal_strlit("{\"tools\":[");
        reveal_strlit("]}}");
        assert(",\"result\":{\"tools\":["@ =~= ",\"result\":"@ + "{\"tools\":["@);
        assert("]}}"@ =~= seq![']'] + seq!['}'] + seq!['}']);
    }
    lemma_list_joined(start, ",\"result\":"@, "{\"tools\":["@, items, seq![']'], seq!['}']);
}

proof fn lemma_list_joined(
    start: Seq<char>,
    middle: Seq<char>,
    first: Seq<char>,
    items: Seq<char>,
    end: Seq<char>,
    close: Seq<char>,
)
    ensures
        start + (middle + first) + items + (end + close + close) == start + middle + (first + items
            + end + close) + close,
{
    assert(start + (middle + first) + items + (end + close + close) =~= start + middle + (first
        + items + end + close) + close);
}

proof fn lemma_list_object(items: Seq<Seq<char>>)
    ensures
        json_text::object_text(seq![("tools"@, json_text::array_text(items))]) == "{\"tools\":["@
            + json_text::items_text(items) + seq![']'] + seq!['}'],
{
    reveal_strlit("{\"tools\":[");
    reveal_strlit("tools");
    json_text::lemma_plain_text_quoted("tools"@);
    lemma_object_of_one(("tools"@, json_text::array_text(items)));
    assert(json_text::object_text(seq![("tools"@, json_text::array_text(items))])
        =~= "{\"tools\":["@ + json_text::items_text(items) + seq![']'] + seq!['}']);
}

proof fn lemma_entry_is_read(tool: ToolModel)
    requires
        has_listable_schema(tool),
    ensures
        json_text::is_token(
            json_text::object_text(tool_entry_fields(tool)),
            json::MAX_JSON_NESTING_DEPTH - 3,
        ),
        json::object_fields(json_text::object_text(tool_entry_fields(tool))) == Ok::<
            Fields,
            JsonFault,
        >(tool_entry_fields(tool)),
{
    let fields = tool_entry_fields(tool);
    assert("name"@ != "description"@ && "name"@ != "inputSchema"@ && "name"@ != "annotations"@
        && "description"@ != "inputSchema"@ && "description"@ != "annotations"@ && "inputSchema"@
        != "annotations"@) by {
        reveal_strlit("name");
        reveal_strlit("description");
        reveal_strlit("inputSchema");
        reveal_strlit("annotations");
        assert("name"@[0] == 'n');
        assert("description"@[0] == 'd');
        assert("inputSchema"@[0] == 'i');
        assert("annotations"@[0] == 'a');
    }
    let levels = json::MAX_JSON_NESTING_DEPTH - 4;
    lemma_hint_text();
    json_text::lemma_quoted_is_token(tool.name);
    json_text::lemma_quoted_is_token(tool.description);
    json_text::lemma_read_object_is_token(tool.input_schema, levels);
    json_text::lemma_token_levels(fields[0].1, 0, levels);
    json_text::lemma_token_levels(fields[1].1, 0, levels);
    json_text::lemma_token_levels(fields[3].1, 1, levels);
    assert(json_text::token_fields(fields, levels));
    json_text::lemma_object_is_token(fields, levels);
    json_text::lemma_fields_levels(fields, levels, params_depth());
    assert(json::distinct_keys(fields));
    json_text::law_written_object_reads_back(fields);
}

proof fn lemma_list_is_read(items: Seq<Seq<char>>)
    requires
        json_text::token_items(items, json::MAX_JSON_NESTING_DEPTH - 3),
    ensures
        json_text::is_token(
            json_text::object_text(seq![("tools"@, json_text::array_text(items))]),
            params_depth(),
        ),
        json_rpc::field_value(
            json_text::object_text(seq![("tools"@, json_text::array_text(items))]),
            "tools"@,
        ) == Ok::<Option<Seq<char>>, ErrorModel>(Some(json_text::array_text(items))),
{
    let fields = seq![("tools"@, json_text::array_text(items))];
    json_text::lemma_array_is_token(items, json::MAX_JSON_NESTING_DEPTH - 3);
    assert(json_text::token_fields(fields, json::MAX_JSON_NESTING_DEPTH - 2));
    json_text::lemma_object_is_token(fields, json::MAX_JSON_NESTING_DEPTH - 2);
    json_text::lemma_fields_levels(fields, json::MAX_JSON_NESTING_DEPTH - 2, params_depth());
    assert(json::distinct_keys(fields));
    json_text::law_written_object_reads_back(fields);
    json::lemma_lookup_at(fields, 0);
}

proof fn lemma_entries_are_read(tools: Seq<ToolModel>)
    requires
        forall|i: int| 0 <= i < tools.len() ==> has_listable_schema(#[trigger] tools[i]),
    ensures
        json_text::token_items(entry_texts(tools), json::MAX_JSON_NESTING_DEPTH - 3),
        forall|i: int|
            0 <= i < tools.len() ==> json::object_fields(#[trigger] entry_texts(tools)[i]) == Ok::<
                Fields,
                JsonFault,
            >(tool_entry_fields(tools[i])),
{
    let items = entry_texts(tools);
    assert forall|i: int| 0 <= i < items.len() implies json_text::is_token(
        #[trigger] items[i],
        json::MAX_JSON_NESTING_DEPTH - 3,
    ) && json::object_fields(items[i]) == Ok::<Fields, JsonFault>(tool_entry_fields(tools[i])) by {
        assert(has_listable_schema(tools[i]));
        lemma_entry_is_read(tools[i]);
    }
}

/// A client reads the tools of a server from the answer to its request for them:
/// the entry of every tool, and in it the name, the description and the schema.
pub proof fn law_clients_read_lists(id: u64, tools: Seq<ToolModel>)
    requires
        forall|i: int| 0 <= i < tools.len() ==> has_listable_schema(#[trigger] tools[i]),
    ensures
        json_rpc::reply_result(
            server_rpc::tools_list_body(text::decimal(id as nat), tools),
            id,
        ) == Ok::<Seq<char>, ErrorModel>(json_text::object_text(list_fields(tools))),
        json_rpc::field_value(json_text::object_text(list_fields(tools)), "tools"@) == Ok::<
            Option<Seq<char>>,
            ErrorModel,
        >(Some(json_text::array_text(entry_texts(tools)))),
        forall|i: int|
            0 <= i < tools.len() ==> json::object_fields(#[trigger] entry_texts(tools)[i]) == Ok::<
                Fields,
                JsonFault,
            >(tool_entry_fields(tools[i])),
{
    lemma_entries_are_read(tools);
    lemma_list_is_read(entry_texts(tools));
    lemma_list_body_text(id, tools);
    lemma_result_is_read(id, json_text::object_text(list_fields(tools)));
}

} // verus!

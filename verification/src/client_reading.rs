//! What a client reads in the replies of servers, however these are written, and
//! what it makes of them.

use vstd::prelude::*;
use vstd::utf8::*;
use crate::client;
use crate::error::{ErrorKind, ErrorModel, EvaError};
use crate::identity::RequestId;
use crate::json;
use crate::json::{Fields, JsonFault};
use crate::json_layout;
use crate::json_layout::Unit;
use crate::json_rpc;
use crate::json_rpc::{
    McpJsonRpcCallReport, McpJsonRpcClient, McpJsonRpcClientConfig, McpJsonRpcMessageKind,
    MessageIdModel, WireEvent,
};
use crate::json_text;
use crate::server_reading;
use crate::text;
use crate::text::IntegerFault;

verus! {

// ---------------------------------------------------------------------------
// Configuration
// ---------------------------------------------------------------------------

/// A configuration can be used exactly if its version is visible ASCII of between
/// one and so many characters, its client has a name that is not blank, and time
/// and output are not zero.
pub proof fn law_usable_configurations(config: McpJsonRpcClientConfig)
    ensures
        json_rpc::config_refusal(config) is None <==> {
            let version = config.protocol_version@;
            &&& 1 <= version.len() <= 128
            &&& forall|i: int| 0 <= i < version.len() ==> '!' <= #[trigger] version[i] <= '~'
            &&& !text::all_whitespace(config.client_name@)
            &&& config.request_timeout_ms > 0
            &&& config.output_limit_bytes > 0
        },
{
    text::lemma_trimmed_is_empty(config.client_name@);
    lemma_visible(config.protocol_version@);
}

/// The bytes of a text are visible ASCII exactly if its characters are.
pub proof fn lemma_visible(s: Seq<char>)
    ensures
        json_rpc::all_visible_ascii(encode_utf8(s)) <==> forall|i: int|
            0 <= i < s.len() ==> '!' <= #[trigger] s[i] <= '~',
        json_rpc::all_visible_ascii(encode_utf8(s)) ==> encode_utf8(s).len() == s.len(),
{
    let b = encode_utf8(s);
    if json_rpc::all_visible_ascii(b) {
        assert forall|i: int| 0 <= i < b.len() implies #[trigger] b[i] < 0x80 by {}
        text::lemma_ascii_bytes_are_ascii_chars(s);
        assert forall|i: int| 0 <= i < s.len() implies '!' <= #[trigger] s[i] <= '~' by {
            assert(b[i] == s[i] as u8);
            assert(0x21 <= b[i] <= 0x7e);
        }
    }
    if forall|i: int| 0 <= i < s.len() ==> '!' <= #[trigger] s[i] <= '~' {
        assert(is_ascii_chars(s)) by {
            assert forall|i: int| 0 <= i < s.len() implies '\0' <= #[trigger] s[i]
                <= '\u{7f}' by {
                assert('!' <= s[i] <= '~');
            }
        }
        is_ascii_chars_encode_utf8(s);
        assert forall|i: int| 0 <= i < b.len() implies 0x21 <= #[trigger] b[i] <= 0x7e by {
            assert(b[i] == s[i] as u8);
            assert('!' <= s[i] <= '~');
        }
    }
}

// ---------------------------------------------------------------------------
// Replies
// ---------------------------------------------------------------------------

/// Whether the fields of a reply answer the request with the given identifier.
pub open spec fn answers(fields: Fields, id: u64) -> bool {
    &&& exists|v: Seq<char>| #[trigger]
        server_reading::has(fields, "jsonrpc"@, v) && json::string_value(v) == Ok::<
            Seq<char>,
            JsonFault,
        >("2.0"@)
    &&& exists|v: Seq<char>| #[trigger]
        server_reading::has(fields, "id"@, v) && text::unsigned_value(text::trimmed(v)) == Ok::<
            int,
            IntegerFault,
        >(id as int)
}

proof fn lemma_reply_fields(s: Seq<char>, fields: Fields)
    requires
        json::object_fields(s) == Ok::<Fields, JsonFault>(fields),
    ensures
        forall|key: Seq<char>, v: Seq<char>| #[trigger]
            server_reading::has(fields, key, v) <==> json::lookup(fields, key) == Some(v),
        forall|key: Seq<char>| #[trigger]
            server_reading::names(fields, key) <==> json::lookup(fields, key) is Some,
{
    assert forall|key: Seq<char>, v: Seq<char>| #[trigger]
        server_reading::has(fields, key, v) <==> json::lookup(fields, key) == Some(v) by {
        server_reading::law_fields_are_found_under_their_keys(s, fields, key);
    }
    assert forall|key: Seq<char>| #[trigger]
        server_reading::names(fields, key) <==> json::lookup(fields, key) is Some by {
        server_reading::law_fields_are_found_under_their_keys(s, fields, key);
    }
}

proof fn lemma_answers(s: Seq<char>, fields: Fields, id: u64)
    requires
        json::object_fields(s) == Ok::<Fields, JsonFault>(fields),
    ensures
        answers(fields, id) <==> {
            &&& json_rpc::string_field(s, "jsonrpc"@) == Ok::<Option<Seq<char>>, ErrorModel>(
                Some("2.0"@),
            )
            &&& json_rpc::u64_field(s, "id"@) == Ok::<Option<int>, ErrorModel>(Some(id as int))
        },
{
    lemma_reply_fields(s, fields);
    let version = json::lookup(fields, "jsonrpc"@);
    let written = json::lookup(fields, "id"@);
    if version is Some {
        assert(server_reading::has(fields, "jsonrpc"@, version->0));
    }
    if written is Some {
        assert(server_reading::has(fields, "id"@, written->0));
    }
}

/// A reply gives a result exactly if it is one object of this protocol with the
/// identifier of the request, a result and no error; and the result is the value
/// that was written for it.
pub proof fn law_results_are_read(s: Seq<char>, id: u64, result: Seq<char>)
    ensures
        json_rpc::reply_result(s, id) == Ok::<Seq<char>, ErrorModel>(result) <==> (
        json::object_fields(s) matches Ok(fields) && {
            &&& answers(fields, id)
            &&& !server_reading::names(fields, "error"@)
            &&& server_reading::has(fields, "result"@, result)
        }),
{
    if json::object_fields(s) is Ok {
        let fields = json::object_fields(s)->Ok_0;
        lemma_reply_fields(s, fields);
        lemma_answers(s, fields, id);
        assert(server_reading::names(fields, "error"@) <==> json::lookup(fields, "error"@)
            is Some);
        assert(server_reading::has(fields, "result"@, result) <==> json::lookup(
            fields,
            "result"@,
        ) == Some(result));
    }
}

/// A reply with an error is reported with the code and the message that were
/// written in it, whether or not it also has a result.
pub proof fn law_errors_are_reported(
    s: Seq<char>,
    id: u64,
    object: Seq<char>,
    code: i64,
    written: Seq<char>,
    message: Seq<char>,
)
    requires
        json::object_fields(s) matches Ok(fields) && answers(fields, id) && server_reading::has(
            fields,
            "error"@,
            object,
        ),
        json::object_fields(object) matches Ok(fields) && server_reading::has(
            fields,
            "code"@,
            text::signed_decimal(code as int),
        ) && server_reading::has(fields, "message"@, written),
        json::string_value(written) == Ok::<Seq<char>, JsonFault>(message),
    ensures
        json_rpc::reply_result(s, id) matches Err(error) && {
            &&& error.kind == ErrorKind::Unavailable
            &&& error.provider_code == Some("json_rpc_"@ + text::signed_decimal(code as int))
            &&& error.context.contains(
                ("json_rpc_code"@, text::signed_decimal(code as int)),
            )
            &&& error.context.contains(("json_rpc_id"@, text::decimal(id as nat)))
            &&& message.len() <= 120 ==> error.context.contains(("json_rpc_message"@, message))
            &&& message.len() > 120 ==> error.context.contains(
                ("json_rpc_message"@, message.take(120)),
            )
        },
{
    let fields = json::object_fields(s)->Ok_0;
    let inner = json::object_fields(object)->Ok_0;
    lemma_reply_fields(s, fields);
    lemma_answers(s, fields, id);
    lemma_reply_fields(object, inner);
    assert(server_reading::has(inner, "code"@, text::signed_decimal(code as int)));
    lemma_signed_is_trimmed(code);
    text::law_signed_decimal_reads_back(code);
    assert(json_rpc::error_object_code(object) == code);
    assert(json_rpc::error_object_message(object) == message);
    let error = json_rpc::error_object_model(object, id);
    let n = error.context.len() as int;
    assert(json_rpc::reply_result(s, id) == Err::<Seq<char>, ErrorModel>(error));
    assert(error.context[n - 1] == ("json_rpc_message"@, json_rpc::truncated(message)));
    assert(error.context[n - 2] == ("json_rpc_code"@, text::signed_decimal(code as int)));
    assert(error.context[n - 3] == ("json_rpc_id"@, text::decimal(id as nat)));
}

proof fn lemma_signed_is_trimmed(n: i64)
    ensures
        text::trimmed(text::signed_decimal(n as int)) == text::signed_decimal(n as int),
{
    let m = if n < 0 {
        (-(n as int)) as nat
    } else {
        n as nat
    };
    let d = text::decimal(m);
    let s = text::signed_decimal(n as int);
    text::lemma_decimal_digits(m);
    assert(text::is_decimal_digit(d[0]) && text::is_decimal_digit(d[d.len() - 1]));
    assert(s.last() == d.last());
    text::lemma_trimmed_stays(s);
}

/// A reply without an identifier, with another one, or of another protocol gives
/// no result.
pub proof fn law_other_replies_give_no_result(s: Seq<char>, id: u64)
    requires
        !(json::object_fields(s) matches Ok(fields) && answers(fields, id)),
    ensures
        json_rpc::reply_result(s, id) is Err,
{
    if json_rpc::reply_result(s, id) is Ok {
        law_results_are_read(s, id, json_rpc::reply_result(s, id)->Ok_0);
    }
}

// ---------------------------------------------------------------------------
// Messages in an event stream
// ---------------------------------------------------------------------------

/// A message of an event stream is taken for what its fields make it: with a
/// method and neither result nor error it is a request or, without an identifier, a
/// notification; with an identifier and exactly one of result and error it is a
/// response; anything else is refused.
pub proof fn law_messages_are_told_apart(s: Seq<char>, fields: Fields)
    requires
        json::object_fields(s) == Ok::<Fields, JsonFault>(fields),
        json_rpc::message_envelope(s) is Ok,
    ensures
        ({
            let (id, kind) = json_rpc::message_envelope(s)->Ok_0;
            let method = server_reading::names(fields, "method"@);
            let result = server_reading::names(fields, "result"@);
            let error = server_reading::names(fields, "error"@);
            &&& id is Some <==> server_reading::names(fields, "id"@)
            &&& kind == McpJsonRpcMessageKind::Request <==> method && id is Some && !result
                && !error
            &&& kind == McpJsonRpcMessageKind::Notification <==> method && id is None && !result
                && !error
            &&& kind == McpJsonRpcMessageKind::Response <==> !method && id is Some && result
                != error
        }),
{
    lemma_reply_fields(s, fields);
    assert(server_reading::names(fields, "method"@) <==> json::lookup(fields, "method"@) is Some);
    assert(server_reading::names(fields, "result"@) <==> json::lookup(fields, "result"@) is Some);
    assert(server_reading::names(fields, "error"@) <==> json::lookup(fields, "error"@) is Some);
    assert(server_reading::names(fields, "id"@) <==> json::lookup(fields, "id"@) is Some);
}

/// Whether a value can identify a message, and which one.
pub open spec fn identifies(value: Seq<char>, id: MessageIdModel) -> bool {
    match id {
        MessageIdModel::Text(content) => value.len() > 0 && value[0] == '"' && json::string_value(
            value,
        ) == Ok::<Seq<char>, JsonFault>(content),
        MessageIdModel::Number(n) => text::unsigned_value(value) == Ok::<int, IntegerFault>(n),
    }
}

/// A message of an event stream is accepted exactly if it is one object of this
/// protocol, its identifier is a string or an unsigned number or absent, its method
/// is a string that is not empty or absent, and its fields fit together.
pub proof fn law_messages_are_accepted(s: Seq<char>, id: Option<MessageIdModel>, kind: McpJsonRpcMessageKind)
    ensures
        json_rpc::message_envelope(s) == Ok::<
            (Option<MessageIdModel>, McpJsonRpcMessageKind),
            ErrorModel,
        >((id, kind)) <==> (json::object_fields(s) matches Ok(fields) && {
            let method = server_reading::names(fields, "method"@);
            let result = server_reading::names(fields, "result"@);
            let error = server_reading::names(fields, "error"@);
            &&& exists|v: Seq<char>| #[trigger]
                server_reading::has(fields, "jsonrpc"@, v) && json::string_value(v) == Ok::<
                    Seq<char>,
                    JsonFault,
                >("2.0"@)
            &&& match id {
                Some(id) => exists|v: Seq<char>| #[trigger]
                    server_reading::has(fields, "id"@, v) && identifies(v, id),
                None => !server_reading::names(fields, "id"@),
            }
            &&& forall|v: Seq<char>| #[trigger]
                server_reading::has(fields, "method"@, v) ==> json::string_value(v) is Ok
                    && json::string_value(v)->Ok_0.len() > 0
            &&& match kind {
                McpJsonRpcMessageKind::Request => method && id is Some && !result && !error,
                McpJsonRpcMessageKind::Notification => method && id is None && !result && !error,
                McpJsonRpcMessageKind::Response => !method && id is Some && result != error,
            }
        }),
{
    if json::object_fields(s) is Ok {
        let fields = json::object_fields(s)->Ok_0;
        lemma_reply_fields(s, fields);
        let written = json::lookup(fields, "id"@);
        let version = json::lookup(fields, "jsonrpc"@);
        let method = json::lookup(fields, "method"@);
        assert(server_reading::names(fields, "method"@) <==> method is Some);
        assert(server_reading::names(fields, "result"@) <==> json::lookup(fields, "result"@)
            is Some);
        assert(server_reading::names(fields, "error"@) <==> json::lookup(fields, "error"@) is Some);
        assert(server_reading::names(fields, "id"@) <==> written is Some);
        if version is Some {
            assert(server_reading::has(fields, "jsonrpc"@, version->0));
        }
        if written is Some {
            assert(server_reading::has(fields, "id"@, written->0));
            if written->0.len() > 0 && written->0[0] == '"' {
                lemma_quote_is_no_number(written->0);
            }
        }
        if method is Some {
            assert(server_reading::has(fields, "method"@, method->0));
            if json::string_value(method->0) is Ok && json::string_value(method->0)->Ok_0.len()
                == 0 {
                assert(json::string_value(method->0)->Ok_0 =~= Seq::<char>::empty());
            }
        }
    }
}

proof fn lemma_quote_is_no_number(value: Seq<char>)
    requires
        value.len() > 0,
        value[0] == '"',
    ensures
        text::unsigned_value(value) is Err,
{
    if text::unsigned_value(value) is Ok {
        text::law_numbers_are_digits(value);
        assert('0' <= value[0] <= '9');
    }
}

// ---------------------------------------------------------------------------
// Calls
// ---------------------------------------------------------------------------

/// The arguments of a call are one object: without a field where nothing was
/// given, the object that was given, or one with the text that was given under
/// `input`.
pub proof fn law_arguments_are_objects(input: Seq<char>)
    ensures
        text::all_whitespace(input) ==> json::object_fields(json_rpc::tool_arguments(input))
            == Ok::<Fields, JsonFault>(Seq::empty()),
        ({
            let core = text::trimmed(input);
            &&& core.len() > 0 && core[0] == '{' && core.last() == '}'
                ==> json_rpc::tool_arguments(input) == core
            &&& core.len() > 0 && !(core[0] == '{' && core.last() == '}') ==> json::object_fields(
                json_rpc::tool_arguments(input),
            ) == Ok::<Fields, JsonFault>(seq![("input"@, json::quoted(input))])
        }),
        json::string_value(json::quoted(input)) == Ok::<Seq<char>, JsonFault>(input),
{
    let core = text::trimmed(input);
    text::lemma_trimmed_is_empty(input);
    json::law_quoted_text_decodes(input);
    if core.len() == 0 {
        let none: Fields = Seq::empty();
        json_text::law_written_object_reads_back(none);
        reveal_strlit("{}");
        assert("{}"@ =~= json_text::object_text(none));
    } else if !(core[0] == '{' && core.last() == '}') {
        let fields: Fields = seq![("input"@, json::quoted(input))];
        json_text::lemma_quoted_is_token(input);
        json_text::lemma_token_levels(json::quoted(input), 0, json::MAX_JSON_NESTING_DEPTH - 1);
        json_text::law_written_object_reads_back(fields);
        reveal_strlit("input");
        reveal_strlit("{\"input\":");
        reveal_strlit("}");
        json_text::lemma_plain_text_quoted("input"@);
        assert(json_rpc::tool_arguments(input) =~= json_text::object_text(fields));
    }
}

/// A call that may be made, and whose replies are all good and offer the tool,
/// succeeds with the result of the last reply, in four steps.
pub proof fn law_offered_calls_succeed(
    client: McpJsonRpcClient,
    tool: Seq<char>,
    input: Seq<char>,
    events: Seq<WireEvent>,
    log: Seq<Seq<char>>,
    request_id: RequestId,
    outcome: Result<McpJsonRpcCallReport, EvaError>,
    replies: (Seq<char>, Seq<char>, Seq<char>),
    results: (Seq<char>, Seq<char>, Seq<char>),
    names: Seq<Seq<char>>,
)
    requires
        json_rpc::call_went(client, tool, input, events, log, request_id, outcome),
        json_rpc::config_refusal(client.settings()) is None,
        client.allowed_tools().contains(tool),
        events.len() >= 1 ==> events[0]->Exchange_reply == Ok::<Seq<char>, ErrorModel>(replies.0),
        events.len() >= 2 ==> events[1]->Notify_reply is Ok,
        events.len() >= 3 ==> events[2]->Exchange_reply == Ok::<Seq<char>, ErrorModel>(replies.1),
        events.len() >= 4 ==> events[3]->Exchange_reply == Ok::<Seq<char>, ErrorModel>(replies.2),
        encode_utf8(replies.0).len() <= client.settings().output_limit_bytes,
        encode_utf8(replies.1).len() <= client.settings().output_limit_bytes,
        encode_utf8(replies.2).len() <= client.settings().output_limit_bytes,
        json_rpc::reply_result(replies.0, 1) == Ok::<Seq<char>, ErrorModel>(results.0),
        json_rpc::reply_result(replies.1, 2) == Ok::<Seq<char>, ErrorModel>(results.1),
        json_rpc::reply_result(replies.2, 3) == Ok::<Seq<char>, ErrorModel>(results.2),
        json_rpc::listed_tools(results.1) == Ok::<Seq<Seq<char>>, ErrorModel>(names),
        names.contains(tool),
    ensures
        events.len() == 4,
        events[0] is Exchange && events[1] is Notify && events[2] is Exchange && events[3]
            is Exchange,
        outcome matches Ok(report) && {
            &&& report.request_id == request_id
            &&& report.adapter_id@ == client.adapter()
            &&& report.tool@ == tool
            &&& report.output@ == json_rpc::call_output(client.adapter(), tool, results.2)
        },
{
}

/// A call fails with what stopped it: a reply that could not be had, one longer than
/// the limit, or one without a result ends it at once, and nothing more is sent.
pub proof fn law_failed_steps_end_calls(
    client: McpJsonRpcClient,
    tool: Seq<char>,
    input: Seq<char>,
    events: Seq<WireEvent>,
    log: Seq<Seq<char>>,
    request_id: RequestId,
    outcome: Result<McpJsonRpcCallReport, EvaError>,
    at: int,
)
    requires
        json_rpc::call_went(client, tool, input, events, log, request_id, outcome),
        0 <= at < events.len(),
        ({
            ||| events[at] matches WireEvent::Exchange { reply: Err(_), .. }
            ||| events[at] matches WireEvent::Notify { reply: Err(_), .. }
            ||| events[at] matches WireEvent::Exchange { reply: Ok(text), .. } && encode_utf8(
                text,
            ).len() > client.settings().output_limit_bytes
            ||| events[at] matches WireEvent::Exchange { reply: Ok(text), id, .. }
                && json_rpc::reply_result(text, id) is Err
        }),
    ensures
        outcome is Err,
        events.len() == at + 1,
{
    assert(at == 0 || at == 1 || at == 2 || at == 3);
}

/// What a finished call hands out is one object: the adapter, the tool, and the
/// result as the server wrote it.
pub proof fn law_outputs_read_back(adapter: Seq<char>, tool: Seq<char>, result: Seq<char>)
    requires
        json_text::is_token(result, json::MAX_JSON_NESTING_DEPTH - 1),
    ensures
        json::object_fields(json_rpc::call_output(adapter, tool, result)) == Ok::<
            Fields,
            JsonFault,
        >(
            seq![
                ("transport"@, json::quoted("mcp"@)),
                ("adapter_id"@, json::quoted(adapter)),
                ("tool"@, json::quoted(tool)),
                ("mode"@, json::quoted("json-rpc"@)),
                ("result"@, result),
            ],
        ),
{
    let fields: Fields = seq![
        ("transport"@, json::quoted("mcp"@)),
        ("adapter_id"@, json::quoted(adapter)),
        ("tool"@, json::quoted(tool)),
        ("mode"@, json::quoted("json-rpc"@)),
        ("result"@, result),
    ];
    let levels = json::MAX_JSON_NESTING_DEPTH - 1;
    assert forall|i: int| 0 <= i < fields.len() implies json_text::is_token(
        (#[trigger] fields[i]).1,
        levels,
    ) by {
        if i < 4 {
            let content = if i == 0 {
                "mcp"@
            } else if i == 1 {
                adapter
            } else if i == 2 {
                tool
            } else {
                "json-rpc"@
            };
            assert(fields[i].1 == json::quoted(content));
            json_text::lemma_quoted_is_token(content);
            json_text::lemma_token_levels(json::quoted(content), 0, levels);
        }
    }
    assert(json::distinct_keys(fields)) by {
        reveal_strlit("transport");
        reveal_strlit("adapter_id");
        reveal_strlit("tool");
        reveal_strlit("mode");
        reveal_strlit("result");
        assert("transport"@.len() == 9 && "adapter_id"@.len() == 10 && "tool"@.len() == 4
            && "mode"@.len() == 4 && "result"@.len() == 6);
        assert("tool"@[0] != "mode"@[0]);
    }
    json_text::law_written_object_reads_back(fields);
    lemma_output_text(adapter, tool, result);
}

proof fn lemma_output_text(adapter: Seq<char>, tool: Seq<char>, result: Seq<char>)
    ensures
        json_rpc::call_output(adapter, tool, result) == json_text::object_text(
            seq![
                ("transport"@, json::quoted("mcp"@)),
                ("adapter_id"@, json::quoted(adapter)),
                ("tool"@, json::quoted(tool)),
                ("mode"@, json::quoted("json-rpc"@)),
                ("result"@, result),
            ],
        ),
{
    let f0 = ("transport"@, json::quoted("mcp"@));
    let f1 = ("adapter_id"@, json::quoted(adapter));
    let f2 = ("tool"@, json::quoted(tool));
    let f3 = ("mode"@, json::quoted("json-rpc"@));
    let f4 = ("result"@, result);
    let fields: Fields = seq![f0, f1, f2, f3, f4];
    let t1 = fields.drop_first();
    let t2 = t1.drop_first();
    let t3 = t2.drop_first();
    let t4 = t3.drop_first();
    assert(fields[0] == f0 && t1[0] == f1 && t2[0] == f2 && t3[0] == f3 && t4[0] == f4);
    assert(t4.len() == 1);
    reveal_strlit("transport");
    reveal_strlit("adapter_id");
    reveal_strlit("tool");
    reveal_strlit("mode");
    reveal_strlit("result");
    reveal_strlit("mcp");
    reveal_strlit("json-rpc");
    json_text::lemma_plain_text_quoted("transport"@);
    json_text::lemma_plain_text_quoted("adapter_id"@);
    json_text::lemma_plain_text_quoted("tool"@);
    json_text::lemma_plain_text_quoted("mode"@);
    json_text::lemma_plain_text_quoted("result"@);
    json_text::lemma_plain_text_quoted("mcp"@);
    json_text::lemma_plain_text_quoted("json-rpc"@);
    reveal_strlit("{\"transport\":\"mcp\",\"adapter_id\":");
    reveal_strlit(",\"tool\":");
    reveal_strlit(",\"mode\":\"json-rpc\",\"result\":");
    reveal_strlit("}");
    let m4 = json_text::members_text(t4);
    let m3 = json_text::members_text(t3);
    let m2 = json_text::members_text(t2);
    let m1 = json_text::members_text(t1);
    let m0 = json_text::members_text(fields);
    assert(m4 == json_text::member_text(f4));
    assert(m3 == json_text::member_text(f3) + seq![','] + m4);
    assert(m2 == json_text::member_text(f2) + seq![','] + m3);
    assert(m1 == json_text::member_text(f1) + seq![','] + m2);
    assert(m0 == json_text::member_text(f0) + seq![','] + m1);
    let head = "{\"transport\":\"mcp\",\"adapter_id\":"@;
    assert(head =~= seq!['{'] + json_text::member_text(f0) + seq![','] + json::quoted(
        "adapter_id"@,
    ) + seq![':']);
    assert(",\"tool\":"@ =~= seq![','] + json::quoted("tool"@) + seq![':']);
    assert(",\"mode\":\"json-rpc\",\"result\":"@ =~= seq![','] + json_text::member_text(f3) + seq![
        ',',
    ] + json::quoted("result"@) + seq![':']);
    assert(json_rpc::call_output(adapter, tool, result) =~= seq!['{'] + m0 + seq!['}']);
}

// ---------------------------------------------------------------------------
// Calls without a server
// ---------------------------------------------------------------------------

/// How a character of an envelope is written.
pub open spec fn envelope_unit(c: char) -> Unit {
    if c == '"' || c == '\\' {
        Unit::Short(c)
    } else if c == '\n' {
        Unit::Short('n')
    } else if c == '\r' {
        Unit::Short('r')
    } else if c == '\t' {
        Unit::Short('t')
    } else {
        Unit::Plain(c)
    }
}

pub open spec fn envelope_units(s: Seq<char>) -> Seq<Unit> {
    s.map_values(|c: char| envelope_unit(c))
}

/// Whether the only control characters of a text below the space are line feeds,
/// carriage returns and tabs.
pub open spec fn is_ordinary(s: Seq<char>) -> bool {
    forall|i: int|
        0 <= i < s.len() ==> (#[trigger] s[i]) as u32 >= 0x20 || s[i] == '\n' || s[i] == '\r'
            || s[i] == '\t'
}

proof fn lemma_units_pushed(units: Seq<Unit>, last: Unit)
    ensures
        json_layout::units_text(units.push(last)) == json_layout::units_text(units) + last.text(),
    decreases units.len(),
{
    let all = units.push(last);
    if units.len() == 0 {
        assert(all.drop_first() =~= units);
        assert(json_layout::units_text(units) =~= Seq::<char>::empty());
        assert(last.text() + Seq::<char>::empty() =~= Seq::<char>::empty() + last.text());
    } else {
        lemma_units_pushed(units.drop_first(), last);
        assert(all.drop_first() =~= units.drop_first().push(last));
        assert(all[0] == units[0]);
        let head = units[0].text();
        let rest = json_layout::units_text(units.drop_first());
        assert(head + (rest + last.text()) =~= head + rest + last.text());
    }
}

proof fn lemma_envelope_units(s: Seq<char>)
    ensures
        json_layout::units_text(envelope_units(s)) == client::envelope_escaped(s),
        json_layout::units_value(envelope_units(s)) == s,
        is_ordinary(s) ==> json_layout::units_wf(envelope_units(s)),
    decreases s.len(),
{
    let units = envelope_units(s);
    assert forall|i: int| 0 <= i < s.len() implies (#[trigger] units[i]).value() == s[i] && (
    is_ordinary(s) ==> units[i].wf()) by {
        assert(units[i] == envelope_unit(s[i]));
    }
    assert(json_layout::units_value(units) =~= s);
    if s.len() > 0 {
        lemma_envelope_units(s.drop_last());
        assert(units =~= envelope_units(s.drop_last()).push(envelope_unit(s.last())));
        lemma_units_pushed(envelope_units(s.drop_last()), envelope_unit(s.last()));
        assert(envelope_unit(s.last()).text() =~= client::envelope_char(s.last()));
    }
}

/// A text as it stands in an envelope, in quotes.
pub open spec fn envelope_value(s: Seq<char>) -> Seq<char> {
    seq!['"'] + client::envelope_escaped(s) + seq!['"']
}

proof fn lemma_envelope_value(s: Seq<char>)
    requires
        is_ordinary(s),
    ensures
        json::string_value(envelope_value(s)) == Ok::<Seq<char>, JsonFault>(s),
        json_text::is_token(envelope_value(s), 0),
{
    lemma_envelope_units(s);
    json_layout::law_strings_are_read(envelope_units(s));
    json_layout::law_strings_are_values(envelope_units(s));
}

spec fn envelope_fields(adapter: Seq<char>, tool: Seq<char>, input: Seq<char>) -> Fields {
    seq![
        ("transport"@, json::quoted("mcp"@)),
        ("adapter_id"@, envelope_value(adapter)),
        ("tool"@, envelope_value(tool)),
        ("mode"@, json::quoted("controlled-envelope"@)),
        ("input"@, envelope_value(input)),
    ]
}

#[verifier::spinoff_prover]
#[verifier::rlimit(60)]
proof fn lemma_envelope_members(
    a: (Seq<char>, Seq<char>),
    b: (Seq<char>, Seq<char>),
    c: (Seq<char>, Seq<char>),
    d: (Seq<char>, Seq<char>),
    e: (Seq<char>, Seq<char>),
)
    ensures
        json_text::object_text(seq![a, b, c, d, e]) == seq!['{'] + json_text::member_text(a)
            + seq![','] + json_text::member_text(b) + seq![','] + json_text::member_text(c)
            + seq![','] + json_text::member_text(d) + seq![','] + json_text::member_text(e)
            + seq!['}'],
{
    assert(seq![a, b, c, d, e].drop_first() =~= seq![b, c, d, e]);
    assert(seq![b, c, d, e].drop_first() =~= seq![c, d, e]);
    assert(seq![c, d, e].drop_first() =~= seq![d, e]);
    assert(seq![d, e].drop_first() =~= seq![e]);
    assert(json_text::members_text(seq![e]) == json_text::member_text(e));
    assert(json_text::members_text(seq![d, e]) == json_text::member_text(d) + seq![',']
        + json_text::members_text(seq![e]));
    assert(json_text::members_text(seq![c, d, e]) == json_text::member_text(c) + seq![',']
        + json_text::members_text(seq![d, e]));
    assert(json_text::members_text(seq![b, c, d, e]) == json_text::member_text(b) + seq![',']
        + json_text::members_text(seq![c, d, e]));
    assert(json_text::object_text(seq![a, b, c, d, e]) =~= seq!['{'] + json_text::member_text(a)
        + seq![','] + json_text::member_text(b) + seq![','] + json_text::member_text(c)
        + seq![','] + json_text::member_text(d) + seq![','] + json_text::member_text(e)
        + seq!['}']);
}

proof fn lemma_envelope_words()
    ensures
        json::quoted("mcp"@) == seq!['"'] + "mcp"@ + seq!['"'],
        json::quoted("controlled-envelope"@) == seq!['"'] + "controlled-envelope"@ + seq!['"'],
        json::quoted("transport"@) == seq!['"'] + "transport"@ + seq!['"'],
        json::quoted("adapter_id"@) == seq!['"'] + "adapter_id"@ + seq!['"'],
        json::quoted("tool"@) == seq!['"'] + "tool"@ + seq!['"'],
        json::quoted("mode"@) == seq!['"'] + "mode"@ + seq!['"'],
        json::quoted("input"@) == seq!['"'] + "input"@ + seq!['"'],
        "transport"@.len() == 9,
        "adapter_id"@.len() == 10,
        "tool"@.len() == 4,
        "mode"@.len() == 4,
        "tool"@[0] == 't',
        "mode"@[0] == 'm',
        "input"@.len() == 5,
{
    reveal_strlit("mcp");
    reveal_strlit("controlled-envelope");
    reveal_strlit("transport");
    reveal_strlit("adapter_id");
    reveal_strlit("tool");
    reveal_strlit("mode");
    reveal_strlit("input");
    json_text::lemma_plain_text_quoted("mcp"@);
    json_text::lemma_plain_text_quoted("controlled-envelope"@);
    json_text::lemma_plain_text_quoted("transport"@);
    json_text::lemma_plain_text_quoted("adapter_id"@);
    json_text::lemma_plain_text_quoted("tool"@);
    json_text::lemma_plain_text_quoted("mode"@);
    json_text::lemma_plain_text_quoted("input"@);
}

proof fn lemma_envelope_literals()
    ensures
        "{\"transport\":\"mcp\",\"adapter_id\":\""@ == seq!['{'] + json::quoted("transport"@)
            + seq![':'] + json::quoted("mcp"@) + seq![','] + json::quoted("adapter_id"@) + seq![
            ':',
            '"',
        ],
        "\",\"tool\":\""@ == seq!['"', ','] + json::quoted("tool"@) + seq![':', '"'],
        "\",\"mode\":\"controlled-envelope\",\"input\":\""@ == seq!['"', ','] + json::quoted(
            "mode"@,
        ) + seq![':'] + json::quoted("controlled-envelope"@) + seq![','] + json::quoted("input"@)
            + seq![':', '"'],
        "\"}"@ == seq!['"', '}'],
{
    lemma_envelope_words();
    reveal_strlit("mcp");
    reveal_strlit("controlled-envelope");
    reveal_strlit("transport");
    reveal_strlit("adapter_id");
    reveal_strlit("tool");
    reveal_strlit("mode");
    reveal_strlit("input");
    reveal_strlit("{\"transport\":\"mcp\",\"adapter_id\":\"");
    reveal_strlit("\",\"tool\":\"");
    reveal_strlit("\",\"mode\":\"controlled-envelope\",\"input\":\"");
    reveal_strlit("\"}");
    assert("{\"transport\":\"mcp\",\"adapter_id\":\""@ =~= seq!['{'] + json::quoted("transport"@)
        + seq![':'] + json::quoted("mcp"@) + seq![','] + json::quoted("adapter_id"@) + seq![
        ':',
        '"',
    ]);
    assert("\",\"tool\":\""@ =~= seq!['"', ','] + json::quoted("tool"@) + seq![':', '"']);
    assert("\",\"mode\":\"controlled-envelope\",\"input\":\""@ =~= seq!['"', ','] + json::quoted(
        "mode"@,
    ) + seq![':'] + json::quoted("controlled-envelope"@) + seq![','] + json::quoted("input"@)
        + seq![':', '"']);
    assert("\"}"@ =~= seq!['"', '}']);
}

#[verifier::spinoff_prover]
#[verifier::rlimit(60)]
proof fn lemma_envelope_joined(
    adapter: Seq<char>,
    tool: Seq<char>,
    input: Seq<char>,
    k: (Seq<char>, Seq<char>, Seq<char>, Seq<char>, Seq<char>),
    mcp: Seq<char>,
    mode: Seq<char>,
)
    ensures
        (seq!['{'] + k.0 + seq![':'] + mcp + seq![','] + k.1 + seq![':', '"']) + adapter + (seq![
            '"',
            ',',
        ] + k.2 + seq![':', '"']) + tool + (seq!['"', ','] + k.3 + seq![':'] + mode + seq![',']
            + k.4 + seq![':', '"']) + input + seq!['"', '}'] == seq!['{'] + (k.0 + seq![':'] + mcp)
            + seq![','] + (k.1 + seq![':'] + (seq!['"'] + adapter + seq!['"'])) + seq![','] + (k.2
            + seq![':'] + (seq!['"'] + tool + seq!['"'])) + seq![','] + (k.3 + seq![':'] + mode)
            + seq![','] + (k.4 + seq![':'] + (seq!['"'] + input + seq!['"'])) + seq!['}'],
{
    let left = (seq!['{'] + k.0 + seq![':'] + mcp + seq![','] + k.1 + seq![':', '"']) + adapter + (
    seq!['"', ','] + k.2 + seq![':', '"']) + tool + (seq!['"', ','] + k.3 + seq![':'] + mode
        + seq![','] + k.4 + seq![':', '"']) + input + seq!['"', '}'];
    let right = seq!['{'] + (k.0 + seq![':'] + mcp) + seq![','] + (k.1 + seq![':'] + (seq!['"']
        + adapter + seq!['"'])) + seq![','] + (k.2 + seq![':'] + (seq!['"'] + tool + seq!['"']))
        + seq![','] + (k.3 + seq![':'] + mode) + seq![','] + (k.4 + seq![':'] + (seq!['"'] + input
        + seq!['"'])) + seq!['}'];
    assert(left =~= right);
}

#[verifier::spinoff_prover]
#[verifier::rlimit(60)]
proof fn lemma_envelope_text(adapter: Seq<char>, tool: Seq<char>, input: Seq<char>)
    ensures
        client::envelope(adapter, tool, input) == json_text::object_text(
            envelope_fields(adapter, tool, input),
        ),
{
    let f = envelope_fields(adapter, tool, input);
    lemma_envelope_members(f[0], f[1], f[2], f[3], f[4]);
    assert(f =~= seq![f[0], f[1], f[2], f[3], f[4]]);
    lemma_envelope_literals();
    lemma_envelope_joined(
        client::envelope_escaped(adapter),
        client::envelope_escaped(tool),
        client::envelope_escaped(input),
        (
            json::quoted("transport"@),
            json::quoted("adapter_id"@),
            json::quoted("tool"@),
            json::quoted("mode"@),
            json::quoted("input"@),
        ),
        json::quoted("mcp"@),
        json::quoted("controlled-envelope"@),
    );
}

/// Whether a field is a string with the given content.
pub open spec fn tells(fields: Fields, key: Seq<char>, content: Seq<char>) -> bool {
    exists|v: Seq<char>| #[trigger]
        server_reading::has(fields, key, v) && json::string_value(v) == Ok::<Seq<char>, JsonFault>(
            content,
        )
}

/// What a call without a server answers is an object that tells the adapter, the tool
/// and the input as they were given.
pub proof fn law_envelopes_tell_the_call(adapter: Seq<char>, tool: Seq<char>, input: Seq<char>)
    requires
        is_ordinary(adapter),
        is_ordinary(tool),
        is_ordinary(input),
    ensures
        json::object_fields(client::envelope(adapter, tool, input)) matches Ok(fields) && {
            &&& fields.len() == 5
            &&& tells(fields, "transport"@, "mcp"@)
            &&& tells(fields, "adapter_id"@, adapter)
            &&& tells(fields, "tool"@, tool)
            &&& tells(fields, "mode"@, "controlled-envelope"@)
            &&& tells(fields, "input"@, input)
        },
{
    let f = envelope_fields(adapter, tool, input);
    lemma_envelope_text(adapter, tool, input);
    lemma_envelope_value(adapter);
    lemma_envelope_value(tool);
    lemma_envelope_value(input);
    json_text::lemma_quoted_is_token("mcp"@);
    json_text::lemma_quoted_is_token("controlled-envelope"@);
    json::law_quoted_text_decodes("mcp"@);
    json::law_quoted_text_decodes("controlled-envelope"@);
    lemma_envelope_words();
    assert(json_text::token_fields(f, json::MAX_JSON_NESTING_DEPTH - 1)) by {
        assert forall|i: int| 0 <= i < f.len() implies json_text::is_token(
            (#[trigger] f[i]).1,
            json::MAX_JSON_NESTING_DEPTH - 1,
        ) by {
            json_text::lemma_token_levels(f[i].1, 0, json::MAX_JSON_NESTING_DEPTH - 1);
        }
    }
    assert(json::distinct_keys(f)) by {
        assert(f[0].0.len() == 9 && f[1].0.len() == 10 && f[2].0.len() == 4 && f[3].0.len() == 4
            && f[4].0.len() == 5);
        assert(f[2].0[0] != f[3].0[0]);
    }
    json_text::law_written_object_reads_back(f);
    assert(server_reading::has(f, "transport"@, f[0].1));
    assert(server_reading::has(f, "adapter_id"@, f[1].1));
    assert(server_reading::has(f, "tool"@, f[2].1));
    assert(server_reading::has(f, "mode"@, f[3].1));
    assert(server_reading::has(f, "input"@, f[4].1));
}

} // verus!

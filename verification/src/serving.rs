//! What a server does with the requests of its clients.

use vstd::prelude::*;
use vstd::utf8::*;
use crate::error::ErrorModel;
use crate::json;
use crate::json_rpc::DEFAULT_PROTOCOL_VERSION;
use crate::server;
use crate::server::{ToolModel, ToolResultModel};
use crate::server_config::ServerConfigModel;
use crate::server_request;
use crate::server_request::RequestModel;
use crate::server_rpc;
use crate::server_rpc::{EnvelopeModel, RpcFailureModel};
use crate::server_transport;
use crate::server_transport::{
    ActionModel, DispatchModel, PeerAddress, ReportModel, ResponseWriteOutcome,
    ServerSession, ServerState, SessionPhase,
};

verus! {

/// Whether a request is addressed to the server: it asks for its path, names it, and
/// comes from no origin or an allowed one.
pub open spec fn is_addressed(state: ServerState, request: RequestModel) -> bool {
    &&& request.target == state.config.path
    &&& json::lookup(request.headers, "host"@) == Some(state.host)
    &&& json::lookup(request.headers, "origin"@) is None || state.config.allowed_origins.contains(
        json::lookup(request.headers, "origin"@)->0,
    )
}

/// Whether a request posts a message in JSON and wants JSON back.
pub open spec fn posts_json(request: RequestModel) -> bool {
    &&& request.method == "POST"@
    &&& json::lookup(request.headers, "content-type"@) is Some
    &&& server_request::is_json_type(json::lookup(request.headers, "content-type"@)->0)
    &&& json::lookup(request.headers, "accept"@) is Some
    &&& server_request::json_accepted(json::lookup(request.headers, "accept"@)->0)
}

/// Whether a request belongs to a session of the address it comes from.
pub open spec fn is_in_session(
    state: ServerState,
    request: RequestModel,
    peer: PeerAddress,
    session_id: Seq<char>,
) -> bool {
    &&& json::lookup(request.headers, "mcp-protocol-version"@) == Some(DEFAULT_PROTOCOL_VERSION@)
    &&& json::lookup(request.headers, "mcp-session-id"@) == Some(session_id)
    &&& server_rpc::is_session_id(session_id)
    &&& state.sessions.dom().contains(session_id)
    &&& state.sessions[session_id].peer == peer
}

proof fn lemma_words()
    ensures
        "POST"@ != "DELETE"@,
        "initialize"@ != "tools/list"@,
        "initialize"@ != "tools/call"@,
        "initialize"@ != "notifications/initialized"@,
        "tools/list"@ != "tools/call"@,
        "tools/list"@ != "notifications/initialized"@,
        "tools/call"@ != "notifications/initialized"@,
{
    reveal_strlit("POST");
    reveal_strlit("DELETE");
    reveal_strlit("initialize");
    reveal_strlit("tools/list");
    reveal_strlit("tools/call");
    reveal_strlit("notifications/initialized");
    assert("POST"@.len() == 4 && "DELETE"@.len() == 6);
    assert("initialize"@.len() == 10 && "tools/list"@.len() == 10 && "tools/call"@.len() == 10
        && "notifications/initialized"@.len() == 25);
    assert("initialize"@[0] == 'i' && "tools/list"@[0] == 't' && "tools/call"@[0] == 't');
    assert("tools/list"@[6] == 'l' && "tools/call"@[6] == 'c');
}

/// A call is made where it is addressed to the server, comes in a session that is
/// ready, and names an exposed tool with arguments that fit; what is made is that
/// call.
pub proof fn law_good_calls_are_made(
    state: ServerState,
    request: RequestModel,
    peer: PeerAddress,
    session_id: Seq<char>,
    envelope: EnvelopeModel,
    id: Seq<char>,
    params: Seq<char>,
    tool: Seq<char>,
)
    requires
        is_addressed(state, request),
        posts_json(request),
        is_in_session(state, request, peer, session_id),
        state.sessions[session_id].phase == SessionPhase::Ready,
        server_rpc::request_envelope(request.body) == Ok::<EnvelopeModel, RpcFailureModel>(
            envelope,
        ),
        envelope.method == "tools/call"@,
        envelope.id == Some(id),
        envelope.params == Some(params),
        json::object_fields(params) matches Ok(fields) && server_rpc::keys_within(
            fields,
            "name"@,
            "arguments"@,
            "arguments"@,
        ) && server_transport::called_tool(fields) == Some(tool) && server::call_refusal(
            state.tools,
            tool,
            server_transport::called_arguments(fields),
        ) is None,
        server::gate_of(state.tools, tool).allowed,
    ensures
        server_transport::dispatched(state, request, peer) == (DispatchModel::Call {
            id,
            session_id,
            tool,
            arguments: server_transport::called_arguments(json::object_fields(params)->Ok_0),
        }),
{
    lemma_words();
}

/// The tool of a call is the string under its name, of between one and 128 bytes
/// without control characters, and its arguments are what stands under theirs, or an
/// object without fields.
pub proof fn law_calls_name_tool_and_arguments(
    params: Seq<char>,
    fields: json::Fields,
    written: Seq<char>,
    tool: Seq<char>,
)
    requires
        json::object_fields(params) == Ok::<json::Fields, json::JsonFault>(fields),
        crate::server_reading::has(fields, "name"@, written),
        json::string_value(written) == Ok::<Seq<char>, json::JsonFault>(tool),
    ensures
        server_transport::called_tool(fields) == if crate::server_reading::is_short_text(
            tool,
            128,
        ) {
            Some(tool)
        } else {
            None
        },
        forall|arguments: Seq<char>| #[trigger]
            crate::server_reading::has(fields, "arguments"@, arguments)
                ==> server_transport::called_arguments(fields) == arguments,
        !crate::server_reading::names(fields, "arguments"@) ==> server_transport::called_arguments(
            fields,
        ) == "{}"@,
{
    crate::server_reading::law_fields_are_found_under_their_keys(params, fields, "name"@);
    crate::server_reading::law_fields_are_found_under_their_keys(params, fields, "arguments"@);
    crate::server_reading::lemma_short(tool, 128);
}

/// A request for the tools is answered with them where it is addressed to the
/// server, comes in a session that is ready and has no parameters.
pub proof fn law_good_lists_are_answered(
    state: ServerState,
    request: RequestModel,
    peer: PeerAddress,
    session_id: Seq<char>,
    envelope: EnvelopeModel,
    id: Seq<char>,
)
    requires
        is_addressed(state, request),
        posts_json(request),
        is_in_session(state, request, peer, session_id),
        state.sessions[session_id].phase == SessionPhase::Ready,
        server_rpc::request_envelope(request.body) == Ok::<EnvelopeModel, RpcFailureModel>(
            envelope,
        ),
        envelope.method == "tools/list"@,
        envelope.id == Some(id),
        server_rpc::no_params(envelope.params),
    ensures
        server_transport::dispatched(state, request, peer) matches DispatchModel::Answer(answer) && {
            &&& answer.action is Nothing
            &&& !answer.reply.error
            &&& answer.reply.status == 200
            &&& answer.reply.content_type == Some("application/json"@)
            &&& answer.reply.session_id == Some(session_id)
            &&& answer.reply.body == server_rpc::tools_list_body(id, state.tools)
        },
{
    lemma_words();
}

/// A session is opened where a request for it is addressed to the server, names no
/// session yet, is complete, and there is room; without room it is put off.
pub proof fn law_good_openings_are_taken(
    state: ServerState,
    request: RequestModel,
    peer: PeerAddress,
    envelope: EnvelopeModel,
    id: Seq<char>,
)
    requires
        is_addressed(state, request),
        posts_json(request),
        json::lookup(request.headers, "mcp-session-id"@) is None,
        json::lookup(request.headers, "mcp-protocol-version"@) is None,
        server_rpc::request_envelope(request.body) == Ok::<EnvelopeModel, RpcFailureModel>(
            envelope,
        ),
        envelope.method == "initialize"@,
        envelope.id == Some(id),
        server_rpc::initialize_refusal(envelope.params) is None,
    ensures
        state.sessions.dom().len() < state.config.max_sessions ==> server_transport::dispatched(
            state,
            request,
            peer,
        ) == (DispatchModel::Open { id, peer }),
        state.sessions.dom().len() >= state.config.max_sessions ==> (server_transport::dispatched(
            state,
            request,
            peer,
        ) matches DispatchModel::Answer(answer) && answer.reply.status == 503 && answer.reply.error
            && answer.action is Nothing),
{
    lemma_words();
}

/// What opens a session answers with its identifier and creates it for the address
/// that asked.
pub proof fn law_openings_are_answered(id: Seq<char>, peer: PeerAddress, session_id: Seq<char>)
    ensures
        ({
            let answer = server_transport::opened(id, peer, Some(session_id));
            &&& answer.reply.status == 200
            &&& !answer.reply.error
            &&& answer.reply.session_id == Some(session_id)
            &&& answer.reply.body == server_rpc::initialize_body(id)
            &&& answer.action == (ActionModel::Create {
                session_id,
                session: ServerSession { peer, phase: SessionPhase::AwaitingInitialized },
            })
        }),
        server_transport::opened(id, peer, None).reply.error,
        server_transport::opened(id, peer, None).action is Nothing,
{
}

/// The notification that a session is in use makes a waiting session ready, without
/// a body in the answer.
pub proof fn law_good_notifications_make_ready(
    state: ServerState,
    request: RequestModel,
    peer: PeerAddress,
    session_id: Seq<char>,
    envelope: EnvelopeModel,
)
    requires
        is_addressed(state, request),
        posts_json(request),
        is_in_session(state, request, peer, session_id),
        state.sessions[session_id].phase == SessionPhase::AwaitingInitialized,
        server_rpc::request_envelope(request.body) == Ok::<EnvelopeModel, RpcFailureModel>(
            envelope,
        ),
        envelope.method == "notifications/initialized"@,
        envelope.id is None,
        server_rpc::no_params(envelope.params),
    ensures
        server_transport::dispatched(state, request, peer) matches DispatchModel::Answer(answer) && {
            &&& answer.reply.status == 202
            &&& answer.reply.body.len() == 0
            &&& !answer.reply.error
            &&& answer.action == (ActionModel::MarkReady { session_id })
        },
{
    lemma_words();
}

/// A deletion without a body deletes the session it names.
pub proof fn law_good_deletions_delete(
    state: ServerState,
    request: RequestModel,
    peer: PeerAddress,
    session_id: Seq<char>,
)
    requires
        is_addressed(state, request),
        request.method == "DELETE"@,
        request.body.len() == 0,
        is_in_session(state, request, peer, session_id),
    ensures
        server_transport::dispatched(state, request, peer) matches DispatchModel::Answer(answer) && {
            &&& answer.reply.status == 204
            &&& answer.reply.body.len() == 0
            &&& !answer.reply.error
            &&& answer.action == (ActionModel::Delete { session_id })
        },
{
    lemma_words();
}

/// Whether an answer is an error of the given status that changes nothing.
pub open spec fn is_refusal(outcome: DispatchModel, status: u16) -> bool {
    outcome matches DispatchModel::Answer(answer) && answer.reply.status == status
        && answer.reply.error && answer.action is Nothing
}

/// What is not addressed to the server, or cannot be read, is refused with a status
/// that says why: 404 for another path, 421 for another host, 403 for another
/// origin, 405 for another method, 415 for another type and 406 for another wish.
pub proof fn law_stray_requests_are_refused(state: ServerState, request: RequestModel, peer: PeerAddress)
    ensures
        ({
            let outcome = server_transport::dispatched(state, request, peer);
            let here = request.target == state.config.path;
            let hosted = json::lookup(request.headers, "host"@) == Some(state.host);
            &&& !here ==> is_refusal(outcome, 404)
            &&& here && !hosted ==> is_refusal(outcome, 421)
            &&& here && hosted && !is_addressed(state, request) ==> is_refusal(outcome, 403)
            &&& is_addressed(state, request) && request.method != "POST"@ && request.method
                != "DELETE"@ ==> is_refusal(outcome, 405)
            &&& is_addressed(state, request) && request.method == "POST"@ && !(json::lookup(
                request.headers,
                "content-type"@,
            ) matches Some(value) && server_request::is_json_type(value)) ==> is_refusal(
                outcome,
                415,
            )
            &&& is_addressed(state, request) && request.method == "POST"@ && (json::lookup(
                request.headers,
                "content-type"@,
            ) matches Some(value) && server_request::is_json_type(value)) && !posts_json(request)
                ==> is_refusal(outcome, 406)
        }),
{
    lemma_words();
}

/// A message outside a session is refused: 400 without the version or an identifier
/// that could be one, 404 where no session of that address has it.
pub proof fn law_messages_outside_sessions_are_refused(
    state: ServerState,
    request: RequestModel,
    peer: PeerAddress,
    envelope: EnvelopeModel,
)
    requires
        is_addressed(state, request),
        posts_json(request),
        server_rpc::request_envelope(request.body) == Ok::<EnvelopeModel, RpcFailureModel>(
            envelope,
        ),
        envelope.method != "initialize"@,
    ensures
        ({
            let outcome = server_transport::dispatched(state, request, peer);
            let version = json::lookup(request.headers, "mcp-protocol-version"@);
            let named = json::lookup(request.headers, "mcp-session-id"@);
            &&& version != Some(DEFAULT_PROTOCOL_VERSION@) ==> is_refusal(outcome, 400)
            &&& version == Some(DEFAULT_PROTOCOL_VERSION@) && !(named matches Some(id)
                && server_rpc::is_session_id(id)) ==> is_refusal(outcome, 400)
            &&& version == Some(DEFAULT_PROTOCOL_VERSION@) && named is Some
                && server_rpc::is_session_id(named->0) && !is_in_session(
                state,
                request,
                peer,
                named->0,
            ) ==> is_refusal(outcome, 404)
        }),
{
    lemma_words();
}

/// A request for tools in a session that is not ready yet, and one for a method that
/// is not known, is answered with an error; other notifications are accepted without
/// a word; a call of a hidden tool is blocked.
pub proof fn law_other_messages_in_sessions(
    state: ServerState,
    request: RequestModel,
    peer: PeerAddress,
    session_id: Seq<char>,
    envelope: EnvelopeModel,
)
    requires
        is_addressed(state, request),
        posts_json(request),
        is_in_session(state, request, peer, session_id),
        server_rpc::request_envelope(request.body) == Ok::<EnvelopeModel, RpcFailureModel>(
            envelope,
        ),
        envelope.method != "initialize"@,
    ensures
        ({
            let outcome = server_transport::dispatched(state, request, peer);
            let ready = state.sessions[session_id].phase == SessionPhase::Ready;
            let of_tools = envelope.method == "tools/list"@ || envelope.method == "tools/call"@;
            let in_use = envelope.method == "notifications/initialized"@;
            &&& envelope.id is Some && of_tools && !ready ==> is_refusal(outcome, 200)
            &&& envelope.id is Some && !of_tools && !in_use ==> is_refusal(outcome, 200)
            &&& envelope.id is None && !in_use ==> (outcome matches DispatchModel::Answer(answer)
                && answer.reply.status == 202 && !answer.reply.error && answer.action is Nothing)
            &&& in_use && (envelope.id is Some || ready) ==> is_refusal(outcome, 400)
            &&& envelope.id is Some && envelope.method == "tools/call"@ && ready && (
            envelope.params matches Some(params) && json::object_fields(params) matches Ok(fields)
                && server_transport::called_tool(fields) matches Some(tool) && !server::gate_of(
                state.tools,
                tool,
            ).allowed) ==> outcome is Blocked
        }),
{
    lemma_words();
}

/// A body that is no request is answered with the error that reading it gave, with
/// the identifier where there was one.
pub proof fn law_unreadable_messages_are_refused(
    state: ServerState,
    request: RequestModel,
    peer: PeerAddress,
    failure: RpcFailureModel,
)
    requires
        is_addressed(state, request),
        posts_json(request),
        server_rpc::request_envelope(request.body) == Err::<EnvelopeModel, RpcFailureModel>(
            failure,
        ),
    ensures
        server_transport::dispatched(state, request, peer) matches DispatchModel::Answer(answer)
            && answer.action is Nothing && answer.reply == server_transport::rpc_error_reply(
            failure.id,
            failure.code,
            failure.message,
        ),
{
    lemma_words();
}

/// The result of a call is sent with its text and its mark of failure; where the
/// handler failed, or the text does not fit, an error is.
pub proof fn law_results_are_sent(
    id: Seq<char>,
    session_id: Seq<char>,
    result: ToolResultModel,
    error: ErrorModel,
    limit: usize,
)
    ensures
        ({
            let fits = encode_utf8(server_rpc::tool_body(id, result.text, false)).len() <= limit;
            let reply = server_transport::call_reply(id, session_id, Ok(result), limit);
            &&& reply.status == 200
            &&& reply.session_id == Some(session_id)
            &&& reply.content_type == Some("application/json"@)
            &&& reply.error == !fits
            &&& fits ==> reply.body == server_rpc::tool_body(id, result.text, result.is_error)
        }),
        server_transport::call_reply(id, session_id, Err(error), limit).error,
        server_transport::call_reply(id, session_id, Err(error), limit).session_id == Some(
            session_id,
        ),
{
}

/// An answer that was sent as it is by a server that goes on takes effect: a session
/// is created, made ready or deleted, and nothing else changes but the count.
pub proof fn law_sent_answers_take_effect(
    state: ServerState,
    session_id: Seq<char>,
    session: ServerSession,
    other: Seq<char>,
)
    requires
        other != session_id,
        state.sessions.dom().contains(session_id),
    ensures
        ({
            let sent = Some(ResponseWriteOutcome::Original);
            let created = server_transport::committed(
                state,
                ActionModel::Create { session_id, session },
                sent,
                false,
            );
            let ready = server_transport::committed(
                state,
                ActionModel::MarkReady { session_id },
                sent,
                false,
            );
            let deleted = server_transport::committed(
                state,
                ActionModel::Delete { session_id },
                sent,
                false,
            );
            &&& created.sessions[session_id] == session
            &&& ready.sessions[session_id].phase == SessionPhase::Ready
            &&& ready.sessions[session_id].peer == state.sessions[session_id].peer
            &&& !deleted.sessions.dom().contains(session_id)
            &&& created.sessions.dom().contains(other) == state.sessions.dom().contains(other)
            &&& ready.sessions.dom().contains(other) == state.sessions.dom().contains(other)
            &&& deleted.sessions.dom().contains(other) == state.sessions.dom().contains(other)
            &&& state.sessions.dom().contains(other) ==> created.sessions[other]
                == state.sessions[other] && ready.sessions[other] == state.sessions[other]
                && deleted.sessions[other] == state.sessions[other]
            &&& server_transport::committed(state, ActionModel::Nothing, sent, false) == state
        }),
{
}

/// A server is set up exactly on an address of this machine, with at least one and
/// at most 128 tools, none of which has side effects, and with no origin but its
/// own.
pub proof fn law_servers_that_are_set_up(
    address: PeerAddress,
    host: Seq<char>,
    config: ServerConfigModel,
    tools: Seq<ToolModel>,
)
    ensures
        server_transport::setup_refusal(address, host, config, tools) is None <==> {
            &&& match address {
                PeerAddress::V4(bits) => bits / 0x100_0000 == 127,
                PeerAddress::V6(bits) => bits == 1,
            }
            &&& 1 <= tools.len() <= 128
            &&& forall|i: int| 0 <= i < tools.len() ==> !(#[trigger] tools[i]).side_effects
            &&& forall|origin: Seq<char>| #[trigger]
                config.allowed_origins.contains(origin) ==> origin == "http://"@ + host
        },
{
}

/// An address is the machine's own exactly if it is written with 127 in front, or, in
/// the longer form, as all zeros and a one.
pub proof fn law_own_addresses(a: u8, b: u8, c: u8, d: u8, long: u128)
    ensures
        PeerAddress::V4(
            (a as u32 * 0x100_0000 + b as u32 * 0x1_0000 + c as u32 * 0x100 + d as u32) as u32,
        ).loopback() <==> a == 127,
        PeerAddress::V6(long).loopback() <==> long == 1,
{
}

/// Whether a dispatch answers with an error object of a code, for the request with
/// the given identifier, in the given session.
pub open spec fn is_error_answer(
    outcome: DispatchModel,
    id: Seq<char>,
    code: int,
    session_id: Option<Seq<char>>,
) -> bool {
    let answered = match outcome {
        DispatchModel::Answer(answer) => Some(answer),
        DispatchModel::Blocked(answer) => Some(answer),
        _ => None,
    };
    &&& answered is Some
    &&& answered->0.action is Nothing
    &&& answered->0.reply.error
    &&& answered->0.reply.status == 200
    &&& answered->0.reply.session_id == session_id
    &&& exists|message: Seq<char>|
        answered->0.reply.body == #[trigger] server_rpc::error_body(Some(id), code, message)
}

/// Errors have the codes of their kinds: an unknown method, parameters that are not
/// right, tools asked for too early, and an opening with session headers.
#[verifier::spinoff_prover]
#[verifier::rlimit(40)]
pub proof fn law_errors_have_their_codes(
    state: ServerState,
    request: RequestModel,
    peer: PeerAddress,
    session_id: Seq<char>,
    envelope: EnvelopeModel,
    id: Seq<char>,
)
    requires
        is_addressed(state, request),
        posts_json(request),
        server_rpc::request_envelope(request.body) == Ok::<EnvelopeModel, RpcFailureModel>(
            envelope,
        ),
        envelope.id == Some(id),
    ensures
        ({
            let outcome = server_transport::dispatched(state, request, peer);
            let ready = state.sessions[session_id].phase == SessionPhase::Ready;
            let lists = envelope.method == "tools/list"@;
            let calls = envelope.method == "tools/call"@;
            let opens = envelope.method == "initialize"@;
            let told = envelope.method == "notifications/initialized"@;
            let marked = json::lookup(request.headers, "mcp-session-id"@) is Some || json::lookup(
                request.headers,
                "mcp-protocol-version"@,
            ) is Some;
            &&& is_in_session(state, request, peer, session_id) && !opens ==> {
                &&& !lists && !calls && !told ==> is_error_answer(
                    outcome,
                    id,
                    -32601,
                    Some(session_id),
                )
                &&& (lists || calls) && !ready ==> is_error_answer(
                    outcome,
                    id,
                    -32002,
                    Some(session_id),
                )
                &&& lists && ready && !server_rpc::no_params(envelope.params) ==> is_error_answer(
                    outcome,
                    id,
                    -32602,
                    Some(session_id),
                )
                &&& calls && ready && !(outcome is Call) ==> is_error_answer(
                    outcome,
                    id,
                    -32602,
                    Some(session_id),
                )
            }
            &&& opens && marked ==> is_error_answer(outcome, id, -32600, None)
            &&& opens && !marked && server_rpc::initialize_refusal(envelope.params) is Some
                ==> is_error_answer(outcome, id, -32602, None)
            &&& opens && !marked && server_rpc::initialize_refusal(envelope.params) is None
                && state.sessions.dom().len() >= state.config.max_sessions ==> is_refusal(
                outcome,
                503,
            )
        }),
{
    lemma_words();
}

/// An answer takes effect exactly if it was sent as it is by a server that goes on:
/// otherwise no session changes, and what could not be sent as it is counts as an
/// error.
pub proof fn law_unsent_answers_take_no_effect(
    state: ServerState,
    action: ActionModel,
    written: Option<ResponseWriteOutcome>,
    stopping: bool,
)
    requires
        stopping || written != Some(ResponseWriteOutcome::Original),
        state.report.protocol_errors < usize::MAX,
    ensures
        ({
            let after = server_transport::committed(state, action, written, stopping);
            &&& after.sessions == state.sessions
            &&& after.report.protocol_errors == state.report.protocol_errors + if written != Some(
                ResponseWriteOutcome::Original,
            ) {
                1int
            } else {
                0int
            }
            &&& after.report.sessions_created == state.report.sessions_created
            &&& after.report.sessions_deleted == state.report.sessions_deleted
        }),
{
}

/// Every request that was received counts once; it counts as an error exactly if it
/// was answered with one, and as blocked exactly if it called a hidden tool.
pub proof fn law_requests_are_counted(
    report: ReportModel,
    outcome: DispatchModel,
    fresh: Option<Seq<char>>,
)
    requires
        report.requests < usize::MAX,
        report.protocol_errors < usize::MAX,
        report.blocked_tool_calls < usize::MAX,
    ensures
        ({
            let after = server_transport::received_report(report, outcome, fresh);
            let refused = match outcome {
                DispatchModel::Answer(answer) => answer.reply.error,
                DispatchModel::Blocked(answer) => answer.reply.error,
                DispatchModel::Open { .. } => fresh is None,
                DispatchModel::Call { .. } => false,
            };
            &&& after.requests == report.requests + 1
            &&& after.protocol_errors == report.protocol_errors + if refused {
                1int
            } else {
                0int
            }
            &&& after.blocked_tool_calls == report.blocked_tool_calls + if outcome is Blocked {
                1int
            } else {
                0int
            }
            &&& after.handler_calls == report.handler_calls
            &&& after.sessions_created == report.sessions_created
            &&& after.sessions_deleted == report.sessions_deleted
            &&& after.accepted_connections == report.accepted_connections
        }),
{
}

/// A call that was made counts once, and counts as an error exactly if it failed or
/// was not made after all.
pub proof fn law_calls_are_counted(state: ServerState, call: Option<bool>)
    requires
        state.report.handler_calls < usize::MAX,
        state.report.protocol_errors < usize::MAX,
    ensures
        ({
            let after = server_transport::called(state, call);
            &&& after.report.handler_calls == state.report.handler_calls + if call is Some {
                1int
            } else {
                0int
            }
            &&& after.report.protocol_errors == state.report.protocol_errors + if call
                != Some(false) {
                1int
            } else {
                0int
            }
            &&& after.sessions == state.sessions
        }),
{
}

} // verus!

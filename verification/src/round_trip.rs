//! Sessions and calls, from the client over the wire to the server and back.

use vstd::prelude::*;
use vstd::utf8::*;
use crate::dialogue;
use crate::error::ErrorModel;
use crate::http_framing;
use crate::http_framing::{Progress, ResponseModel};
use crate::http_reply;
use crate::http_request;
use crate::http_request::{Headers, UrlModel};
use crate::http_session;
use crate::http_session::{PlanModel, SessionModel};
use crate::json;
use crate::json_rpc;
use crate::json_rpc::DEFAULT_PROTOCOL_VERSION;
use crate::json_text;
use crate::server;
use crate::server::ToolResultModel;
use crate::server_request;
use crate::server_request::{FailureModel, Reading, RequestModel};
use crate::server_rpc;
use crate::server_rpc::{MAX_CLIENT_INFO_BYTES, MAX_METHOD_BYTES};
use crate::server_transport;
use crate::server_transport::{DispatchModel, PeerAddress, ServerState, SessionPhase};
use crate::text;
use crate::wire;
use crate::wire_request;

verus! {

// ---------------------------------------------------------------------------
// Calls
// ---------------------------------------------------------------------------

/// The headers of a session that has an identifier.
pub open spec fn session_headers(session_id: Seq<char>) -> Headers {
    seq![
        ("MCP-Protocol-Version"@, DEFAULT_PROTOCOL_VERSION@),
        ("Mcp-Session-Id"@, session_id),
    ]
}

/// A message that was posted in a session, as the server reads it.
pub open spec fn posted(
    url: UrlModel,
    body: Seq<char>,
    headers: Headers,
    session_id: Seq<char>,
) -> RequestModel {
    RequestModel {
        method: "POST"@,
        target: url.path,
        headers: wire_request::lowered(
            wire_request::asking_headers(
                url,
                wire_request::message_accept(),
                body,
                headers,
                session_headers(session_id),
            ),
        ),
        body,
    }
}

/// Whether a message can be posted in a session of the server: the session is
/// known to come from there, the address and the path are the server's, and the
/// message keeps within its limits.
pub open spec fn can_be_posted(
    state: ServerState,
    peer: PeerAddress,
    url: UrlModel,
    body: Seq<char>,
    headers: Headers,
    session_id: Seq<char>,
) -> bool {
    let session = session_headers(session_id);
    let accept = wire_request::message_accept();
    &&& server_rpc::is_session_id(session_id)
    &&& state.sessions.dom().contains(session_id)
    &&& state.sessions[session_id].peer == peer
    &&& url.path == state.config.path
    &&& url.authority == state.host
    &&& body.len() > 0
    &&& encode_utf8(body).len() <= state.config.request_limit_bytes
    &&& http_request::request_text(url, "POST"@, accept, body, headers, session) is Ok
    &&& wire_request::is_unobtrusive(headers + session)
    &&& wire_request::is_readable(
        url,
        "POST"@,
        accept,
        body,
        headers,
        session,
        state.config.header_limit_bytes as int,
    )
}

proof fn lemma_session_words()
    ensures
        text::lower("MCP-Protocol-Version"@) == "mcp-protocol-version"@,
        text::lower("Mcp-Session-Id"@) == "mcp-session-id"@,
{
    reveal_strlit("MCP-Protocol-Version");
    reveal_strlit("mcp-protocol-version");
    reveal_strlit("Mcp-Session-Id");
    reveal_strlit("mcp-session-id");
    assert(text::lower("MCP-Protocol-Version"@) =~= "mcp-protocol-version"@);
    assert(text::lower("Mcp-Session-Id"@) =~= "mcp-session-id"@);
}

/// The headers of a posted message tell the server what it looks at.
proof fn lemma_posted_headers(url: UrlModel, body: Seq<char>, headers: Headers, session_id: Seq<char>)
    requires
        body.len() > 0,
        http_request::request_text(
            url,
            "POST"@,
            wire_request::message_accept(),
            body,
            headers,
            session_headers(session_id),
        ) is Ok,
        wire_request::is_unobtrusive(headers + session_headers(session_id)),
    ensures
        ({
            let fields = posted(url, body, headers, session_id).headers;
            &&& json::lookup(fields, "host"@) == Some(url.authority)
            &&& json::lookup(fields, "accept"@) == Some(wire_request::message_accept())
            &&& json::lookup(fields, "content-type"@) == Some("application/json"@)
            &&& json::lookup(fields, "mcp-protocol-version"@) == Some(DEFAULT_PROTOCOL_VERSION@)
            &&& json::lookup(fields, "mcp-session-id"@) == Some(session_id)
            &&& json::lookup(fields, "origin"@) is None
        }),
{
    let accept = wire_request::message_accept();
    let session = session_headers(session_id);
    let all = wire_request::asking_headers(url, accept, body, headers, session);
    let fields = wire_request::lowered(all);
    let at = (5 + headers.len()) as int;
    wire_request::lemma_asking_text(url, "POST"@, accept, body, headers, session);
    wire_request::lemma_nothing_is_framed_otherwise(url, accept, body, headers, session);
    wire_request::lemma_transport_words();
    lemma_session_words();
    assert(all[0] == ("Host"@, url.authority));
    assert(all[2] == ("Accept"@, accept));
    assert(all[3] == ("Content-Type"@, "application/json"@));
    assert(all[at] == session[0]);
    assert(all[at + 1] == session[1]);
    json::lemma_lookup_at(fields, 0);
    json::lemma_lookup_at(fields, 2);
    json::lemma_lookup_at(fields, 3);
    json::lemma_lookup_at(fields, at);
    json::lemma_lookup_at(fields, at + 1);
}

/// A message that is posted in a session arrives in that session: the server
/// reads it from the connection and does with it what it does with the message
/// it is.
pub proof fn law_posted_messages_arrive(
    state: ServerState,
    peer: PeerAddress,
    url: UrlModel,
    body: Seq<char>,
    headers: Headers,
    session_id: Seq<char>,
    ended: bool,
)
    requires
        can_be_posted(state, peer, url, body, headers, session_id),
        server_rpc::request_envelope(body) is Ok,
        server_rpc::request_envelope(body)->Ok_0.method != "initialize"@,
    ensures
        server_request::request_of(
            encode_utf8(
                http_request::request_text(
                    url,
                    "POST"@,
                    wire_request::message_accept(),
                    body,
                    headers,
                    session_headers(session_id),
                )->Ok_0,
            ),
            ended,
            state.config,
            state.host,
        ) == Reading::<RequestModel, FailureModel>::Ready(posted(url, body, headers, session_id)),
        server_transport::dispatched(state, posted(url, body, headers, session_id), peer)
            == server_transport::message_outcome(
            state.tools,
            server_rpc::request_envelope(body)->Ok_0,
            session_id,
            state.sessions[session_id].phase,
        ),
{
    wire_request::law_servers_take_posted_messages(
        url,
        body,
        headers,
        session_headers(session_id),
        state.config,
        ended,
    );
    lemma_posted_headers(url, body, headers, session_id);
    wire_request::lemma_messages_accept_json();
    wire_request::lemma_json_entry();
    let request = posted(url, body, headers, session_id);
    assert(server_transport::session_of(state, request, peer) == Ok::<
        (Seq<char>, SessionPhase),
        server_transport::ReplyModel,
    >((session_id, state.sessions[session_id].phase)));
}

proof fn lemma_call_is_no_other_method()
    ensures
        "tools/call"@ != "initialize"@,
        "tools/call"@ != "notifications/initialized"@,
        "tools/call"@ != "tools/list"@,
{
    reveal_strlit("tools/call");
    reveal_strlit("initialize");
    reveal_strlit("notifications/initialized");
    reveal_strlit("tools/list");
    assert("tools/call"@[0] == 't' && "tools/call"@[6] == 'c');
    assert("initialize"@[0] == 'i');
    assert("notifications/initialized"@[0] == 'n');
    assert("tools/list"@[6] == 'l');
}

/// A call that a client posts in a session that is ready reaches the handler as
/// the client meant it, if the tool is exposed and takes the arguments.
pub proof fn law_posted_calls_are_run(
    state: ServerState,
    peer: PeerAddress,
    url: UrlModel,
    headers: Headers,
    session_id: Seq<char>,
    id: u64,
    tool: Seq<char>,
    input: Seq<char>,
    ended: bool,
)
    requires
        can_be_posted(
            state,
            peer,
            url,
            json_rpc::tools_call_text(id, tool, input),
            headers,
            session_id,
        ),
        state.sessions[session_id].phase == SessionPhase::Ready,
        dialogue::is_sendable(input),
        server_rpc::is_bounded_text(tool, MAX_METHOD_BYTES),
        server::gate_of(state.tools, tool).allowed,
        server::call_refusal(state.tools, tool, json_rpc::tool_arguments(input)) is None,
    ensures
        ({
            let body = json_rpc::tools_call_text(id, tool, input);
            let request = posted(url, body, headers, session_id);
            let sent = http_request::request_text(
                url,
                "POST"@,
                wire_request::message_accept(),
                body,
                headers,
                session_headers(session_id),
            )->Ok_0;
            &&& server_request::request_of(encode_utf8(sent), ended, state.config, state.host)
                == Reading::<RequestModel, FailureModel>::Ready(request)
            &&& server_transport::dispatched(state, request, peer) == (DispatchModel::Call {
                id: text::decimal(id as nat),
                session_id,
                tool,
                arguments: json_rpc::tool_arguments(input),
            })
        }),
{
    let body = json_rpc::tools_call_text(id, tool, input);
    dialogue::law_servers_read_calls(id, tool, input);
    dialogue::law_servers_run_calls(id, tool, input, state.tools, session_id);
    lemma_call_is_no_other_method();
    law_posted_messages_arrive(state, peer, url, body, headers, session_id, ended);
}

/// What a tool gives comes back to the client that called it: over the wire, out
/// of the session's response, and out of the reply to its request.
pub proof fn law_results_come_back(
    id: u64,
    session_id: Seq<char>,
    result: ToolResultModel,
    server_limit: usize,
    client_limit: usize,
    ended: bool,
    allow: bool,
)
    requires
        server_rpc::is_session_id(session_id),
        encode_utf8(server_rpc::tool_body(text::decimal(id as nat), result.text, false)).len()
            <= server_limit,
        encode_utf8(
            server_rpc::tool_body(text::decimal(id as nat), result.text, result.is_error),
        ).len() <= client_limit,
    ensures
        ({
            let body = server_rpc::tool_body(
                text::decimal(id as nat),
                result.text,
                result.is_error,
            );
            let reply = server_transport::call_reply(
                text::decimal(id as nat),
                session_id,
                Ok(result),
                server_limit,
            );
            let response = ResponseModel {
                status_code: 200,
                content_type: Some("application/json"@),
                body: encode_utf8(body),
                body_truncated: false,
                session_id: Some(session_id),
            };
            &&& http_framing::response_of(
                encode_utf8(server_transport::wire_text(reply)),
                ended,
                client_limit as int,
                allow,
            ) == Progress::Ready(response)
            &&& http_reply::exchange_text(response, id, client_limit) == Ok::<
                Seq<char>,
                ErrorModel,
            >(body)
            &&& json_rpc::reply_result(body, id) == Ok::<Seq<char>, ErrorModel>(
                json_text::object_text(
                    dialogue::tool_result_fields(result.text, result.is_error),
                ),
            )
        }),
{
    let body = server_rpc::tool_body(text::decimal(id as nat), result.text, result.is_error);
    let reply = server_transport::call_reply(
        text::decimal(id as nat),
        session_id,
        Ok(result),
        server_limit,
    );
    wire::law_clients_read_answers(reply, ended, client_limit, allow);
    dialogue::law_clients_read_results(id, result.text, result.is_error);
    encode_utf8_valid_utf8(body);
    encode_utf8_decode_utf8(body);
    reveal_strlit("{\"jsonrpc\":\"2.0\",\"id\":");
    assert(body.len() > 0);
    text::lemma_encoded_len_bound(body);
}

// ---------------------------------------------------------------------------
// Openings
// ---------------------------------------------------------------------------

/// The request that opens a session, as the server reads it.
pub open spec fn posted_opening(url: UrlModel, body: Seq<char>, headers: Headers) -> RequestModel {
    RequestModel {
        method: "POST"@,
        target: url.path,
        headers: wire_request::lowered(
            wire_request::asking_headers(
                url,
                wire_request::message_accept(),
                body,
                headers,
                Seq::empty(),
            ),
        ),
        body,
    }
}

/// Headers that were written were not refused.
proof fn lemma_written_headers_are_accepted(
    headers: Headers,
    at: int,
    names: Set<Seq<char>>,
    out: Seq<char>,
)
    requires
        0 <= at <= headers.len(),
        http_request::caller_lines(headers, at, names, out) is Ok,
    ensures
        forall|i: int|
            at <= i < headers.len() ==> http_request::header_refusal(
                (#[trigger] headers[i]).0,
                headers[i].1,
            ) is None,
    decreases headers.len() - at,
{
    if at < headers.len() {
        lemma_written_headers_are_accepted(
            headers,
            at + 1,
            names.insert(text::lower(headers[at].0)),
            out + http_request::header_text(headers[at].0, headers[at].1),
        );
    }
}

proof fn lemma_callers_name_no_session(url: UrlModel, body: Seq<char>, headers: Headers)
    requires
        http_request::request_text(
            url,
            "POST"@,
            wire_request::message_accept(),
            body,
            headers,
            Seq::empty(),
        ) is Ok,
    ensures
        !http_request::lower_names(headers).contains("mcp-session-id"@),
        !http_request::lower_names(headers).contains("mcp-protocol-version"@),
{
    let accept = wire_request::message_accept();
    lemma_written_headers_are_accepted(
        headers,
        0,
        http_request::transport_names(body),
        http_request::transport_lines("POST"@, url, accept, body),
    );
    if http_request::lower_names(headers).contains("mcp-session-id"@) {
        let k = choose|k: int|
            0 <= k < headers.len() && text::lower((#[trigger] headers[k]).0) == "mcp-session-id"@;
        assert(http_request::header_refusal(headers[k].0, headers[k].1) is Some);
    }
    if http_request::lower_names(headers).contains("mcp-protocol-version"@) {
        let k = choose|k: int|
            0 <= k < headers.len() && text::lower((#[trigger] headers[k]).0)
                == "mcp-protocol-version"@;
        assert(http_request::header_refusal(headers[k].0, headers[k].1) is Some);
    }
}

proof fn lemma_opening_headers(url: UrlModel, body: Seq<char>, headers: Headers)
    requires
        body.len() > 0,
        http_request::request_text(
            url,
            "POST"@,
            wire_request::message_accept(),
            body,
            headers,
            Seq::empty(),
        ) is Ok,
        wire_request::is_unobtrusive(headers),
    ensures
        ({
            let fields = posted_opening(url, body, headers).headers;
            &&& json::lookup(fields, "host"@) == Some(url.authority)
            &&& json::lookup(fields, "accept"@) == Some(wire_request::message_accept())
            &&& json::lookup(fields, "content-type"@) == Some("application/json"@)
            &&& json::lookup(fields, "mcp-protocol-version"@) is None
            &&& json::lookup(fields, "mcp-session-id"@) is None
            &&& json::lookup(fields, "origin"@) is None
        }),
{
    let accept = wire_request::message_accept();
    let none: Headers = Seq::empty();
    let all = wire_request::asking_headers(url, accept, body, headers, none);
    let fields = wire_request::lowered(all);
    assert(headers + none =~= headers);
    wire_request::lemma_asking_text(url, "POST"@, accept, body, headers, none);
    wire_request::lemma_nothing_is_framed_otherwise(url, accept, body, headers, none);
    wire_request::lemma_transport_words();
    lemma_callers_name_no_session(url, body, headers);
    assert("mcp-session-id"@ != "content-length"@ && "mcp-session-id"@.len() == 14
        && "mcp-protocol-version"@.len() == 20) by {
        reveal_strlit("mcp-session-id");
        reveal_strlit("content-length");
        reveal_strlit("mcp-protocol-version");
        assert("mcp-session-id"@[0] == 'm');
        assert("content-length"@[0] == 'c');
    }
    wire_request::lemma_not_added(url, accept, body, headers, none, "mcp-session-id"@);
    wire_request::lemma_not_added(url, accept, body, headers, none, "mcp-protocol-version"@);
    assert(all[0] == ("Host"@, url.authority));
    assert(all[2] == ("Accept"@, accept));
    assert(all[3] == ("Content-Type"@, "application/json"@));
    json::lemma_lookup_at(fields, 0);
    json::lemma_lookup_at(fields, 2);
    json::lemma_lookup_at(fields, 3);
}

/// Whether a client's opening request keeps within what a server takes: it goes to
/// the server's address and path, within its limits.
pub open spec fn can_open(
    state: ServerState,
    url: UrlModel,
    body: Seq<char>,
    headers: Headers,
) -> bool {
    let accept = wire_request::message_accept();
    &&& url.path == state.config.path
    &&& url.authority == state.host
    &&& encode_utf8(body).len() <= state.config.request_limit_bytes
    &&& http_request::request_text(url, "POST"@, accept, body, headers, Seq::empty()) is Ok
    &&& wire_request::is_unobtrusive(headers)
    &&& wire_request::is_readable(
        url,
        "POST"@,
        accept,
        body,
        headers,
        Seq::empty(),
        state.config.header_limit_bytes as int,
    )
}

/// A client that speaks the version of the server and tells who it is opens a
/// session, as long as the server has room for one.
pub proof fn law_posted_openings_are_taken(
    state: ServerState,
    peer: PeerAddress,
    url: UrlModel,
    headers: Headers,
    id: u64,
    name: Seq<char>,
    version: Seq<char>,
    ended: bool,
)
    requires
        can_open(
            state,
            url,
            json_rpc::initialize_text(id, DEFAULT_PROTOCOL_VERSION@, name, version),
            headers,
        ),
        server_rpc::is_bounded_text(name, MAX_CLIENT_INFO_BYTES),
        server_rpc::is_bounded_text(version, MAX_CLIENT_INFO_BYTES),
        state.sessions.dom().len() < state.config.max_sessions,
    ensures
        ({
            let body = json_rpc::initialize_text(id, DEFAULT_PROTOCOL_VERSION@, name, version);
            let request = posted_opening(url, body, headers);
            let sent = http_request::request_text(
                url,
                "POST"@,
                wire_request::message_accept(),
                body,
                headers,
                Seq::empty(),
            )->Ok_0;
            &&& server_request::request_of(encode_utf8(sent), ended, state.config, state.host)
                == Reading::<RequestModel, FailureModel>::Ready(request)
            &&& server_transport::dispatched(state, request, peer) == (DispatchModel::Open {
                id: text::decimal(id as nat),
                peer,
            })
        }),
{
    let none: Headers = Seq::empty();
    let body = json_rpc::initialize_text(id, DEFAULT_PROTOCOL_VERSION@, name, version);
    assert(headers + none =~= headers);
    assert(body.len() > 0) by {
        reveal_strlit("{\"jsonrpc\":\"2.0\",\"id\":");
    }
    dialogue::law_servers_read_openings(id, DEFAULT_PROTOCOL_VERSION@, name, version);
    dialogue::law_servers_take_openings(DEFAULT_PROTOCOL_VERSION@, name, version);
    wire_request::law_servers_take_posted_messages(url, body, headers, none, state.config, ended);
    lemma_opening_headers(url, body, headers);
    wire_request::lemma_messages_accept_json();
    wire_request::lemma_json_entry();
}

/// The client learns the identifier of the session that the server has opened
/// for it, and that they agree on the version.
pub proof fn law_opened_sessions_are_agreed_on(
    session: SessionModel,
    id: u64,
    peer: PeerAddress,
    session_id: Seq<char>,
    client_limit: usize,
    ended: bool,
    allow: bool,
)
    requires
        server_rpc::is_session_id(session_id),
        encode_utf8(server_rpc::initialize_body(text::decimal(id as nat))).len() <= client_limit,
    ensures
        ({
            let body = server_rpc::initialize_body(text::decimal(id as nat));
            let reply = server_transport::opened(
                text::decimal(id as nat),
                peer,
                Some(session_id),
            ).reply;
            let response = ResponseModel {
                status_code: 200,
                content_type: Some("application/json"@),
                body: encode_utf8(body),
                body_truncated: false,
                session_id: Some(session_id),
            };
            let plan = PlanModel {
                initialize: true,
                requested_protocol: DEFAULT_PROTOCOL_VERSION@,
                session_headers: Seq::empty(),
            };
            let (after, outcome) = http_session::after_exchange(
                session,
                plan,
                response,
                http_reply::exchange_text(response, id, client_limit),
                id,
            );
            &&& http_framing::response_of(
                encode_utf8(server_transport::wire_text(reply)),
                ended,
                client_limit as int,
                allow,
            ) == Progress::Ready(response)
            &&& outcome == Ok::<Seq<char>, ErrorModel>(body)
            &&& after.session_id == Some(session_id)
            &&& after.protocol_version == Some(DEFAULT_PROTOCOL_VERSION@)
            &&& after.closed == session.closed
        }),
{
    let body = server_rpc::initialize_body(text::decimal(id as nat));
    let reply = server_transport::opened(text::decimal(id as nat), peer, Some(session_id)).reply;
    wire::law_clients_read_answers(reply, ended, client_limit, allow);
    dialogue::law_clients_agree_with_servers(id);
    encode_utf8_valid_utf8(body);
    encode_utf8_decode_utf8(body);
    reveal_strlit("{\"jsonrpc\":\"2.0\",\"id\":");
    assert(body.len() > 0);
    text::lemma_encoded_len_bound(body);
}

} // verus!

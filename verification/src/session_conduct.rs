//! How a client conducts a session over HTTP: what it sends when, and what it makes
//! of each response.

use vstd::prelude::*;
use crate::error::ErrorModel;
use crate::http_framing::ResponseModel;
use crate::http_request::Headers;
use crate::http_session;
use crate::http_session::{PlanModel, SessionModel};
use crate::json_rpc;
use crate::json_rpc::{McpJsonRpcMessageKind, MessageIdModel};
use crate::text;

verus! {

/// Whether a session is in use: it is not closed, a version was agreed on, and the
/// server was told that the opening is over.
pub open spec fn is_in_use(session: SessionModel) -> bool {
    &&& !session.closed
    &&& session.exchange_count != 0
    &&& session.protocol_version is Some
    &&& session.initialized_sent
}

/// The headers that say what was agreed on: the version, and the identifier where
/// one was issued.
pub open spec fn agreed_headers(session: SessionModel) -> Headers {
    match session.session_id {
        Some(id) => seq![
            ("MCP-Protocol-Version"@, session.protocol_version->0),
            ("Mcp-Session-Id"@, id),
        ],
        None => seq![("MCP-Protocol-Version"@, session.protocol_version->0)],
    }
}

/// A request other than an opening is sent exactly in a session that is in use, with
/// the headers that say what was agreed on.
pub proof fn law_requests_are_sent_in_use(session: SessionModel, request: Seq<char>, method: Seq<char>, limit: usize)
    requires
        json_rpc::string_field(request, "method"@) == Ok::<Option<Seq<char>>, ErrorModel>(
            Some(method),
        ),
        method != "initialize"@,
    ensures
        limit > 0 && is_in_use(session) <==> http_session::exchange_plan(session, request, limit)
            is Ok,
        http_session::exchange_plan(session, request, limit) matches Ok(plan) ==> !plan.initialize
            && plan.session_headers == agreed_headers(session),
{
}

/// An opening is sent exactly as the first thing in a session, with a version that
/// can be one, and without headers of a session.
pub proof fn law_openings_are_sent_first(
    session: SessionModel,
    request: Seq<char>,
    params: Seq<char>,
    version: Seq<char>,
    limit: usize,
)
    requires
        json_rpc::string_field(request, "method"@) == Ok::<Option<Seq<char>>, ErrorModel>(
            Some("initialize"@),
        ),
        json_rpc::field_value(request, "params"@) == Ok::<Option<Seq<char>>, ErrorModel>(
            Some(params),
        ),
        json_rpc::string_field(params, "protocolVersion"@) == Ok::<Option<Seq<char>>, ErrorModel>(
            Some(version),
        ),
        !text::all_whitespace(version),
    ensures
        limit > 0 && !session.closed && session.exchange_count == 0
            && json_rpc::valid_protocol_version(version) <==> http_session::exchange_plan(
            session,
            request,
            limit,
        ) is Ok,
        http_session::exchange_plan(session, request, limit) matches Ok(plan) ==> plan == (
        PlanModel {
            initialize: true,
            requested_protocol: version,
            session_headers: Seq::empty(),
        }),
{
    text::lemma_trimmed_is_empty(version);
}

/// Whether a response belongs to a session: the server still knows it, and names the
/// session that it issued, or none.
pub open spec fn belongs(session: SessionModel, response: ResponseModel) -> bool {
    response.status_code != 404 && (response.session_id is None || response.session_id
        == session.session_id)
}

/// A reply in a session is handed out as it is, and counted, if it belongs to the
/// session; the session goes on.
pub proof fn law_replies_are_handed_out(
    session: SessionModel,
    plan: PlanModel,
    head: ResponseModel,
    payload: Result<Seq<char>, ErrorModel>,
    id: u64,
)
    requires
        !plan.initialize,
        session.exchange_count < usize::MAX,
    ensures
        ({
            let (after, outcome) = http_session::after_exchange(session, plan, head, payload, id);
            &&& belongs(session, head) ==> outcome == payload
            &&& belongs(session, head) && payload is Ok ==> after == (SessionModel {
                exchange_count: session.exchange_count + 1,
                ..session
            })
            &&& belongs(session, head) && payload is Err ==> after == session
            &&& !belongs(session, head) ==> outcome is Err && after.closed
        }),
{
}

/// An opening succeeds exactly if the reply gives the version that was asked for;
/// the session then has that version and the identifier that was issued, and goes
/// on. Otherwise it is closed.
pub proof fn law_openings_succeed(
    session: SessionModel,
    version: Seq<char>,
    head: ResponseModel,
    reply: Seq<char>,
    result: Seq<char>,
    answered: Seq<char>,
    id: u64,
)
    requires
        json_rpc::reply_result(reply, id) == Ok::<Seq<char>, ErrorModel>(result),
        json_rpc::string_field(result, "protocolVersion"@) == Ok::<Option<Seq<char>>, ErrorModel>(
            Some(answered),
        ),
        json_rpc::valid_protocol_version(version),
        !text::all_whitespace(version),
        session.exchange_count < usize::MAX,
    ensures
        ({
            let plan = PlanModel {
                initialize: true,
                requested_protocol: version,
                session_headers: Seq::empty(),
            };
            let (after, outcome) = http_session::after_exchange(session, plan, head, Ok(reply), id);
            &&& outcome is Ok <==> answered == version
            &&& answered == version ==> {
                &&& outcome == Ok::<Seq<char>, ErrorModel>(reply)
                &&& after.session_id == head.session_id
                &&& after.protocol_version == Some(version)
                &&& after.exchange_count == session.exchange_count + 1
                &&& after.closed == session.closed
                &&& after.initialized_sent == session.initialized_sent
            }
            &&& answered != version ==> after.closed
        }),
{
    text::lemma_trimmed_is_empty(version);
    text::lemma_trimmed_is_empty(answered);
}

/// The notification that the opening is over is sent exactly once, after a
/// successful opening; others are sent exactly in a session that is in use.
pub proof fn law_notifications_are_sent_in_order(
    session: SessionModel,
    notification: Seq<char>,
    method: Seq<char>,
    limit: usize,
)
    requires
        json_rpc::string_field(notification, "method"@) == Ok::<Option<Seq<char>>, ErrorModel>(
            Some(method),
        ),
    ensures
        ({
            let plan = http_session::notify_plan(session, notification, limit);
            let open = limit > 0 && !session.closed && session.exchange_count != 0
                && session.protocol_version is Some;
            let ends = method == "notifications/initialized"@;
            &&& plan is Ok <==> open && session.initialized_sent != ends
            &&& plan matches Ok((initialized, headers)) ==> initialized == ends && headers
                == agreed_headers(session)
        }),
{
}

/// The opening is over once the server has accepted the notification of it, with
/// status 202 and no body.
pub proof fn law_accepted_notifications_end_the_opening(
    session: SessionModel,
    initialized: bool,
    response: ResponseModel,
    limit: usize,
)
    requires
        session.notification_count < usize::MAX,
    ensures
        ({
            let (after, error) = http_session::after_notify(session, initialized, response, limit);
            &&& error is None <==> belongs(session, response) && response.status_code == 202
                && !response.body_truncated && response.body.len() == 0
            &&& error is None ==> {
                &&& after.initialized_sent == (session.initialized_sent || initialized)
                &&& after.notification_count == session.notification_count + 1
                &&& after.closed == session.closed
                &&& after.session_id == session.session_id
                &&& after.protocol_version == session.protocol_version
                &&& after.exchange_count == session.exchange_count
            }
            &&& error is Some && belongs(session, response) ==> after == session
        }),
{
}

/// Streams are asked for exactly in a session that is in use, with the headers that
/// say what was agreed on; a request whose answer is a stream must moreover be one,
/// under its number, and no opening.
pub proof fn law_streams_are_asked_for_in_use(
    session: SessionModel,
    request: Seq<char>,
    kind: McpJsonRpcMessageKind,
    number: Option<MessageIdModel>,
    method: Seq<char>,
    id: u64,
    limit: usize,
)
    requires
        json_rpc::message_envelope(request) == Ok::<
            (Option<MessageIdModel>, McpJsonRpcMessageKind),
            ErrorModel,
        >((number, kind)),
        json_rpc::string_field(request, "method"@) == Ok::<Option<Seq<char>>, ErrorModel>(
            Some(method),
        ),
    ensures
        limit > 0 && is_in_use(session) <==> http_session::stream_plan(session, limit) is Ok,
        http_session::stream_plan(session, limit) matches Ok(headers) ==> headers
            == agreed_headers(session),
        limit > 0 && is_in_use(session) && kind == McpJsonRpcMessageKind::Request && number == Some(
            MessageIdModel::Number(id as int),
        ) && method != "initialize"@ <==> http_session::post_stream_plan(
            session,
            request,
            id,
            limit,
        ) is Ok,
        http_session::post_stream_plan(session, request, id, limit) matches Ok(headers) ==> headers
            == agreed_headers(session),
{
}

/// A stream is opened by a response that belongs to the session, has status 200 and
/// is an event stream, or, for a posted request, has a status of success; the
/// session goes on.
pub proof fn law_streams_open(session: SessionModel, response: ResponseModel, id: u64, limit: usize)
    requires
        session.exchange_count < usize::MAX,
    ensures
        ({
            let (opened, error) = http_session::after_stream_open(session, response);
            let (posted, failed) = http_session::after_post_stream(session, response, id);
            let (got, body) = http_session::after_get(session, response, limit);
            let events = response.content_type == Some("text/event-stream"@);
            &&& error is None <==> belongs(session, response) && response.status_code == 200
                && events
            &&& failed is None <==> belongs(session, response) && 200 <= response.status_code
                <= 299 && events
            &&& body is Ok <==> belongs(session, response) && response.status_code == 200 && events
                && !response.body_truncated
            &&& body matches Ok(bytes) ==> bytes == response.body
            &&& failed is None ==> posted.exchange_count == session.exchange_count + 1
            &&& error is None ==> opened.exchange_count == session.exchange_count
            &&& belongs(session, response) ==> opened.closed == session.closed && posted.closed
                == session.closed && got.closed == session.closed
            &&& belongs(session, response) ==> opened.session_id == session.session_id
                && posted.session_id == session.session_id && got.session_id == session.session_id
        }),
{
}

/// A deletion succeeds exactly with a status of success, or with the one that says
/// that the server does not delete sessions; then the session is closed.
pub proof fn law_deletions_succeed(session: SessionModel, response: ResponseModel, limit: usize)
    ensures
        ({
            let (after, error) = http_session::after_delete(session, response, limit);
            &&& error is None <==> belongs(session, response) && (response.status_code == 405 || (
            200 <= response.status_code <= 299 && !response.body_truncated))
            &&& error is None ==> after.closed && after.session_id is None
            &&& error is Some && belongs(session, response) ==> after == session
        }),
{
}

/// The error of a call stays what it was when its session could not be deleted
/// either; the failed deletion is noted beside it.
pub proof fn law_cleanup_does_not_hide_errors(error: ErrorModel, cleanup: Option<ErrorModel>)
    ensures
        ({
            let told = http_session::with_cleanup(error, cleanup);
            &&& told.kind == error.kind
            &&& told.message == error.message
            &&& told.provider_code == error.provider_code
            &&& cleanup is None ==> told == error
            &&& cleanup is Some ==> told.context.contains(("mcp_session_cleanup"@, "failed"@))
            &&& forall|i: int|
                0 <= i < error.context.len() ==> #[trigger] told.context[i] == error.context[i]
        }),
{
    let told = http_session::with_cleanup(error, cleanup);
    if cleanup is Some {
        assert(told.context[error.context.len() as int] == ("mcp_session_cleanup"@, "failed"@));
    }
}

/// How a session ended is told by the last note of its deletion.
pub proof fn law_endings_are_told(audit: Seq<Seq<char>>, later: Seq<char>)
    requires
        later != "mcp.http:session_deleted"@,
        later != "mcp.http:session_delete_unsupported"@,
    ensures
        http_session::shutdown_entry(audit.push("mcp.http:session_deleted"@))
            == "mcp.http:session_deleted"@,
        http_session::shutdown_entry(audit.push("mcp.http:session_delete_unsupported"@))
            == "mcp.http:session_delete_unsupported"@,
        http_session::shutdown_entry(audit.push(later)) == http_session::shutdown_entry(audit),
        http_session::shutdown_entry(Seq::empty()) == "mcp.http:session_closed"@,
{
    assert(audit.push(later).drop_last() =~= audit);
    assert(audit.push(later).last() == later);
    assert(audit.push("mcp.http:session_deleted"@).last() == "mcp.http:session_deleted"@);
    assert(audit.push("mcp.http:session_delete_unsupported"@).last()
        == "mcp.http:session_delete_unsupported"@);
}

} // verus!

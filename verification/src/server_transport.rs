//! A local HTTP server of tools without side effects: its sessions, what it
//! answers to a request, and what an answer changes once it was sent.
//!
//! The server reads and writes nothing itself. Whoever runs it hands in the
//! requests that arrived, sends the answers, and reports whether they were
//! written.

use vstd::prelude::*;
use vstd::string::*;
use vstd::utf8::*;
use crate::collections::NameMap;
use crate::error;
use crate::error::{ErrorKind, ErrorModel, EvaError};
use crate::json;
use crate::json::{parse_json_object_fields, parse_json_string, Fields, JsonFields};
use crate::json_rpc::DEFAULT_PROTOCOL_VERSION;
use crate::server;
use crate::server::{
    EvaMcpServerSurface, HandledCall, McpServerToolCall, McpServerToolHandler, McpServerToolResult,
    ToolModel, ToolResultModel,
};
use crate::server_config::{McpStreamableHttpServerConfig, ServerConfigModel};
use crate::server_request;
use crate::server_request::{
    accepts_json, is_json_content_type, FailureModel, HttpReadFailure, HttpRequest, RequestModel,
};
use crate::server_rpc;
use crate::server_rpc::{
    initialize_result_body, json_rpc_error_body, new_session_id, only_keys, params_are_empty,
    parse_request_envelope, tool_result_body, tool_result_fits, tools_list_result_body,
    valid_session_id, validate_initialize_params, EnvelopeModel, ParsedRequestEnvelope,
    ValidatedRequestId, MAX_METHOD_BYTES,
};
use crate::text;
use crate::text::{byte_len, decimal_u64, decimal_usize, str_eq};

verus! {

pub const RESPONSIBILITY: &'static str =
    "bounded loopback MCP Streamable HTTP server transport and session gate";

/// The most tools that a server exposes.
pub const MAX_SURFACE_TOOLS: usize = 128;

// ---------------------------------------------------------------------------
// Answers
// ---------------------------------------------------------------------------

/// What an answer says.
#[verifier::ext_equal]
pub struct ReplyModel {
    pub status: u16,
    pub body: Seq<char>,
    pub content_type: Option<Seq<char>>,
    pub session_id: Option<Seq<char>>,
    pub allow: Option<Seq<char>>,
    pub error: bool,
}

impl ReplyModel {
    pub open spec fn with_session(self, session_id: Seq<char>) -> ReplyModel {
        ReplyModel { session_id: Some(session_id), ..self }
    }
}

pub open spec fn json_reply(status: u16, body: Seq<char>) -> ReplyModel {
    ReplyModel {
        status,
        body,
        content_type: Some("application/json"@),
        session_id: None,
        allow: None,
        error: false,
    }
}

pub open spec fn empty_reply(status: u16) -> ReplyModel {
    ReplyModel {
        status,
        body: Seq::empty(),
        content_type: None,
        session_id: None,
        allow: None,
        error: false,
    }
}

pub open spec fn http_error_reply(status: u16, message: Seq<char>) -> ReplyModel {
    ReplyModel {
        error: true,
        ..json_reply(status, server_rpc::error_body(None, -32600, message))
    }
}

pub open spec fn rpc_error_reply(id: Option<Seq<char>>, code: int, message: Seq<char>) -> ReplyModel {
    ReplyModel { error: true, ..json_reply(200, server_rpc::error_body(id, code, message)) }
}

/// The answer to a request that was not dispatched.
pub open spec fn failure_reply(failure: FailureModel) -> ReplyModel {
    ReplyModel { allow: failure.allow, ..http_error_reply(failure.status, failure.message) }
}

/// An answer to a request.
pub struct HttpResponse {
    status: u16,
    body: String,
    content_type: Option<&'static str>,
    session_id: Option<String>,
    allow: Option<&'static str>,
    error: bool,
}

/// The text of an optional literal.
pub open spec fn literal_text(s: Option<&'static str>) -> Option<Seq<char>> {
    match s {
        Some(text) => Some(text@),
        None => None,
    }
}

impl View for HttpResponse {
    type V = ReplyModel;

    closed spec fn view(&self) -> ReplyModel {
        ReplyModel {
            status: self.status,
            body: self.body@,
            content_type: literal_text(self.content_type),
            session_id: error::option_text(self.session_id),
            allow: literal_text(self.allow),
            error: self.error,
        }
    }
}

impl HttpResponse {
    pub fn json(status: u16, body: String) -> (response: HttpResponse)
        ensures
            response@ == json_reply(status, body@),
    {
        HttpResponse {
            status,
            body,
            content_type: Some("application/json"),
            session_id: None,
            allow: None,
            error: false,
        }
    }

    pub fn empty(status: u16) -> (response: HttpResponse)
        ensures
            response@ == empty_reply(status),
    {
        let response = HttpResponse {
            status,
            body: String::new(),
            content_type: None,
            session_id: None,
            allow: None,
            error: false,
        };
        assert(response@.body =~= empty_reply(status).body);
        response
    }

    pub fn http_error(status: u16, message: &str) -> (response: HttpResponse)
        ensures
            response@ == http_error_reply(status, message@),
    {
        let body = json_rpc_error_body(None, -32600, message);
        HttpResponse {
            status,
            body,
            content_type: Some("application/json"),
            session_id: None,
            allow: None,
            error: true,
        }
    }

    pub fn rpc_error(id: Option<&ValidatedRequestId>, code: i64, message: &str) -> (response:
        HttpResponse)
        ensures
            response@ == rpc_error_reply(
                match id {
                    Some(id) => Some(id@),
                    None => None,
                },
                code as int,
                message@,
            ),
    {
        let body = json_rpc_error_body(id, code, message);
        HttpResponse {
            status: 200,
            body,
            content_type: Some("application/json"),
            session_id: None,
            allow: None,
            error: true,
        }
    }

    pub fn with_session(self, session_id: &str) -> (response: HttpResponse)
        ensures
            response@ == self@.with_session(session_id@),
    {
        HttpResponse { session_id: Some(session_id.to_owned()), ..self }
    }

    pub fn with_allow(self, methods: &'static str) -> (response: HttpResponse)
        ensures
            response@ == (ReplyModel { allow: Some(methods@), ..self@ }),
    {
        HttpResponse { allow: Some(methods), ..self }
    }

    /// The answer to a request that was not dispatched.
    pub fn from_failure(failure: HttpReadFailure) -> (response: HttpResponse)
        ensures
            response@ == failure_reply(failure@),
    {
        let response = HttpResponse::http_error(failure.status, failure.message);
        match failure.allow {
            Some(methods) => response.with_allow(methods),
            None => response,
        }
    }

    pub fn status(&self) -> (status: u16)
        ensures
            status == self@.status,
    {
        self.status
    }

    pub fn body(&self) -> (body: &str)
        ensures
            body@ == self@.body,
    {
        self.body.as_str()
    }

    pub fn session_id(&self) -> (id: Option<&str>)
        ensures
            match id {
                Some(id) => self@.session_id == Some(id@),
                None => self@.session_id is None,
            },
    {
        match &self.session_id {
            Some(id) => Some(id.as_str()),
            None => None,
        }
    }

    /// Whether the answer reports an error.
    pub fn is_error(&self) -> (is_error: bool)
        ensures
            is_error == self@.error,
    {
        self.error
    }
}

/// The reason phrase of a status.
pub open spec fn reason_phrase(status: u16) -> Seq<char> {
    if status == 200 {
        "OK"@
    } else if status == 202 {
        "Accepted"@
    } else if status == 204 {
        "No Content"@
    } else if status == 400 {
        "Bad Request"@
    } else if status == 403 {
        "Forbidden"@
    } else if status == 404 {
        "Not Found"@
    } else if status == 405 {
        "Method Not Allowed"@
    } else if status == 406 {
        "Not Acceptable"@
    } else if status == 408 {
        "Request Timeout"@
    } else if status == 411 {
        "Length Required"@
    } else if status == 413 {
        "Payload Too Large"@
    } else if status == 415 {
        "Unsupported Media Type"@
    } else if status == 421 {
        "Misdirected Request"@
    } else if status == 431 {
        "Request Header Fields Too Large"@
    } else if status == 500 {
        "Internal Server Error"@
    } else if status == 503 {
        "Service Unavailable"@
    } else {
        "Error"@
    }
}

pub fn http_reason(status: u16) -> (reason: &'static str)
    ensures
        reason@ == reason_phrase(status),
{
    match status {
        200 => "OK",
        202 => "Accepted",
        204 => "No Content",
        400 => "Bad Request",
        403 => "Forbidden",
        404 => "Not Found",
        405 => "Method Not Allowed",
        406 => "Not Acceptable",
        408 => "Request Timeout",
        411 => "Length Required",
        413 => "Payload Too Large",
        415 => "Unsupported Media Type",
        421 => "Misdirected Request",
        431 => "Request Header Fields Too Large",
        500 => "Internal Server Error",
        503 => "Service Unavailable",
        _ => "Error",
    }
}

/// One header line, where there is a value.
pub open spec fn optional_header(name: Seq<char>, value: Option<Seq<char>>) -> Seq<char> {
    match value {
        Some(text) => name + text + "\r\n"@,
        None => Seq::empty(),
    }
}

/// The session identifier that is written, if there is one that can be.
pub open spec fn written_session(reply: ReplyModel) -> Option<Seq<char>> {
    match reply.session_id {
        Some(id) => if server_rpc::is_session_id(id) {
            Some(id)
        } else {
            None
        },
        None => None,
    }
}

/// An answer as it is sent.
pub open spec fn wire_text(reply: ReplyModel) -> Seq<char> {
    "HTTP/1.1 "@ + text::decimal(reply.status as nat) + " "@ + reason_phrase(reply.status)
        + "\r\nConnection: close\r\nCache-Control: no-store\r\nX-Content-Type-Options: nosniff\r\n"@
        + optional_header("Mcp-Session-Id: "@, written_session(reply)) + optional_header(
        "Allow: "@,
        reply.allow,
    ) + optional_header("Content-Type: "@, reply.content_type) + (if reply.status != 204 {
        "Content-Length: "@ + text::decimal(encode_utf8(reply.body).len()) + "\r\n"@
    } else {
        Seq::empty()
    }) + "\r\n"@ + reply.body
}

/// Whether the answer was sent, or another one in its place because its body
/// was too long.
#[derive(Debug, Clone, Copy, PartialEq, Eq, Structural)]
pub enum ResponseWriteOutcome {
    Original,
    LimitFallback,
}

/// The answer that is sent under a limit on the body.
pub open spec fn limited_reply(reply: ReplyModel, limit: usize) -> (ReplyModel, ResponseWriteOutcome) {
    if encode_utf8(reply.body).len() > limit {
        (
            http_error_reply(500, "response exceeded the server limit"@),
            ResponseWriteOutcome::LimitFallback,
        )
    } else {
        (reply, ResponseWriteOutcome::Original)
    }
}

/// An answer as it is sent under a limit on the body.
pub fn http_response_text(response: HttpResponse, response_limit_bytes: usize) -> (sent: (
    String,
    ResponseWriteOutcome,
))
    ensures
        sent.0@ == wire_text(limited_reply(response@, response_limit_bytes).0),
        sent.1 == limited_reply(response@, response_limit_bytes).1,
{
    let ghost reply = limited_reply(response@, response_limit_bytes).0;
    let (response, outcome) = if byte_len(response.body.as_str()) > response_limit_bytes {
        (
            HttpResponse::http_error(500, "response exceeded the server limit"),
            ResponseWriteOutcome::LimitFallback,
        )
    } else {
        (response, ResponseWriteOutcome::Original)
    };
    assert(response@ == reply);
    let mut wire = String::new();
    wire.append("HTTP/1.1 ");
    wire.append(decimal_u64(response.status as u64).as_str());
    wire.append(" ");
    wire.append(http_reason(response.status));
    wire.append(
        "\r\nConnection: close\r\nCache-Control: no-store\r\nX-Content-Type-Options: nosniff\r\n",
    );
    let ghost head = wire@;
    match &response.session_id {
        Some(id) => {
            if valid_session_id(id.as_str()) {
                wire.append("Mcp-Session-Id: ");
                wire.append(id.as_str());
                wire.append("\r\n");
            }
        },
        None => {},
    }
    assert(wire@ =~= head + optional_header("Mcp-Session-Id: "@, written_session(reply)));
    let ghost head = wire@;
    match response.allow {
        Some(methods) => {
            wire.append("Allow: ");
            wire.append(methods);
            wire.append("\r\n");
        },
        None => {},
    }
    assert(wire@ =~= head + optional_header("Allow: "@, reply.allow));
    let ghost head = wire@;
    match response.content_type {
        Some(content_type) => {
            wire.append("Content-Type: ");
            wire.append(content_type);
            wire.append("\r\n");
        },
        None => {},
    }
    assert(wire@ =~= head + optional_header("Content-Type: "@, reply.content_type));
    if response.status != 204 {
        wire.append("Content-Length: ");
        wire.append(decimal_usize(byte_len(response.body.as_str())).as_str());
        wire.append("\r\n");
    }
    wire.append("\r\n");
    wire.append(response.body.as_str());
    assert(wire@ =~= wire_text(reply));
    (wire, outcome)
}

// ---------------------------------------------------------------------------
// State
// ---------------------------------------------------------------------------

/// The address of a peer.
#[derive(Debug, Clone, Copy, PartialEq, Eq, Structural)]
pub enum PeerAddress {
    V4(u32),
    V6(u128),
}

impl PeerAddress {
    /// Whether the address is the machine itself: `127.0.0.0/8` or `::1`.
    pub open spec fn loopback(self) -> bool {
        match self {
            PeerAddress::V4(bits) => 0x7f00_0000 <= bits <= 0x7fff_ffff,
            PeerAddress::V6(bits) => bits == 1,
        }
    }

    pub fn is_loopback(self) -> (loopback: bool)
        ensures
            loopback == self.loopback(),
    {
        match self {
            PeerAddress::V4(bits) => 0x7f00_0000 <= bits && bits <= 0x7fff_ffff,
            PeerAddress::V6(bits) => bits == 1,
        }
    }
}

/// How far a session has come.
#[derive(Debug, Clone, Copy, PartialEq, Eq, Structural)]
pub enum SessionPhase {
    AwaitingInitialized,
    Ready,
}

/// A session belongs to the address that opened it.
#[derive(Debug, Clone, Copy, PartialEq, Eq, Structural)]
pub struct ServerSession {
    pub peer: PeerAddress,
    pub phase: SessionPhase,
}

/// What a server counts. No request, session or payload shows in it.
#[derive(Debug, Clone, PartialEq, Eq)]
pub struct McpServerServeReport {
    pub accepted_connections: usize,
    /// Complete requests that were dispatched.
    pub requests: usize,
    pub sessions_created: usize,
    pub sessions_deleted: usize,
    pub sessions_closed_on_shutdown: usize,
    /// Calls that reached the handler.
    pub handler_calls: usize,
    /// Calls of hidden tools.
    pub blocked_tool_calls: usize,
    pub protocol_errors: usize,
    /// Sessions left when the server has stopped.
    pub dangling_sessions: usize,
    pub audit: Vec<String>,
}

/// What a server has counted.
#[verifier::ext_equal]
pub struct ReportModel {
    pub accepted_connections: usize,
    pub requests: usize,
    pub sessions_created: usize,
    pub sessions_deleted: usize,
    pub sessions_closed_on_shutdown: usize,
    pub handler_calls: usize,
    pub blocked_tool_calls: usize,
    pub protocol_errors: usize,
    pub dangling_sessions: usize,
    pub audit: Seq<Seq<char>>,
}

impl View for McpServerServeReport {
    type V = ReportModel;

    open spec fn view(&self) -> ReportModel {
        ReportModel {
            accepted_connections: self.accepted_connections,
            requests: self.requests,
            sessions_created: self.sessions_created,
            sessions_deleted: self.sessions_deleted,
            sessions_closed_on_shutdown: self.sessions_closed_on_shutdown,
            handler_calls: self.handler_calls,
            blocked_tool_calls: self.blocked_tool_calls,
            protocol_errors: self.protocol_errors,
            dangling_sessions: self.dangling_sessions,
            audit: text::texts(self.audit@),
        }
    }
}

impl Default for McpServerServeReport {
    fn default() -> (report: McpServerServeReport)
        ensures
            report@ == ReportModel::zero(),
    {
        let report = McpServerServeReport {
            accepted_connections: 0,
            requests: 0,
            sessions_created: 0,
            sessions_deleted: 0,
            sessions_closed_on_shutdown: 0,
            handler_calls: 0,
            blocked_tool_calls: 0,
            protocol_errors: 0,
            dangling_sessions: 0,
            audit: Vec::new(),
        };
        assert(report@ =~= ReportModel::zero());
        report
    }
}

impl ReportModel {
    pub open spec fn zero() -> ReportModel {
        ReportModel {
            accepted_connections: 0,
            requests: 0,
            sessions_created: 0,
            sessions_deleted: 0,
            sessions_closed_on_shutdown: 0,
            handler_calls: 0,
            blocked_tool_calls: 0,
            protocol_errors: 0,
            dangling_sessions: 0,
            audit: Seq::empty(),
        }
    }

    /// One protocol error more, if there was one.
    pub open spec fn noting(self, error: bool) -> ReportModel {
        if error {
            ReportModel { protocol_errors: bumped(self.protocol_errors), ..self }
        } else {
            self
        }
    }
}

/// One more, as far as the counter goes.
pub open spec fn bumped(n: usize) -> usize {
    if n == usize::MAX {
        n
    } else {
        (n + 1) as usize
    }
}

fn bump(n: usize) -> (more: usize)
    ensures
        more == bumped(n),
{
    if n == usize::MAX {
        n
    } else {
        n + 1
    }
}

/// What a server knows.
#[verifier::ext_equal]
pub struct ServerState {
    /// The authority that requests must name.
    pub host: Seq<char>,
    pub config: ServerConfigModel,
    pub tools: Seq<ToolModel>,
    pub sessions: Map<Seq<char>, ServerSession>,
    pub report: ReportModel,
}

/// A local HTTP server of tools without side effects.
pub struct McpStreamableHttpServer<H> {
    host: String,
    config: McpStreamableHttpServerConfig,
    surface: EvaMcpServerSurface,
    handler: H,
    sessions: NameMap<ServerSession>,
    report: McpServerServeReport,
}

pub open spec fn not_loopback_model() -> ErrorModel {
    ErrorModel::new(
        ErrorKind::PermissionDenied,
        "MCP HTTP server must bind a numeric loopback address"@,
    ).code("mcp_server_bind_not_loopback"@)
}

pub open spec fn not_read_only_model() -> ErrorModel {
    ErrorModel::new(
        ErrorKind::PermissionDenied,
        "local MCP HTTP server may expose only bounded side-effect-free tools"@,
    ).code("mcp_server_surface_not_read_only"@)
}

pub open spec fn origin_not_bound_model() -> ErrorModel {
    ErrorModel::new(
        ErrorKind::PermissionDenied,
        "MCP HTTP server allowed origins must exactly match its bound origin"@,
    ).code("mcp_server_origin_not_bound"@)
}

/// Refuse an address that other machines can reach.
pub fn require_loopback(address: PeerAddress) -> (outcome: Result<(), EvaError>)
    ensures
        match outcome {
            Ok(()) => address.loopback(),
            Err(error) => !address.loopback() && error@ == not_loopback_model(),
        },
{
    if address.is_loopback() {
        Ok(())
    } else {
        Err(
            EvaError::permission_denied(
                "MCP HTTP server must bind a numeric loopback address",
            ).with_provider_code("mcp_server_bind_not_loopback"),
        )
    }
}

/// Whether tools are few and without side effects.
pub open spec fn is_read_only(tools: Seq<ToolModel>) -> bool {
    &&& 0 < tools.len() <= MAX_SURFACE_TOOLS
    &&& forall|i: int| 0 <= i < tools.len() ==> !(#[trigger] tools[i]).side_effects
}

/// Why a server is not set up, if it is not.
pub open spec fn setup_refusal(
    address: PeerAddress,
    host: Seq<char>,
    config: ServerConfigModel,
    tools: Seq<ToolModel>,
) -> Option<ErrorModel> {
    if !address.loopback() {
        Some(not_loopback_model())
    } else if !is_read_only(tools) {
        Some(not_read_only_model())
    } else if !(forall|o: Seq<char>| #[trigger]
        config.allowed_origins.contains(o) ==> o == "http://"@ + host) {
        Some(origin_not_bound_model())
    } else {
        None
    }
}

fn read_only(surface: &EvaMcpServerSurface) -> (valid: bool)
    ensures
        valid == is_read_only(surface@),
{
    let tools = surface.tools();
    let ghost models = surface@;
    assert(models.len() == tools@.len());
    if tools.len() == 0 || tools.len() > MAX_SURFACE_TOOLS {
        return false;
    }
    let mut i: usize = 0;
    while i < tools.len()
        invariant
            i <= tools@.len(),
            models == surface@,
            models == server::tool_models(tools@),
            forall|k: int| 0 <= k < i ==> !(#[trigger] models[k]).side_effects,
        decreases tools@.len() - i,
    {
        assert(models[i as int] == tools@[i as int]@);
        if tools[i].side_effects {
            return false;
        }
        i += 1;
    }
    true
}

// ---------------------------------------------------------------------------
// Dispatch
// ---------------------------------------------------------------------------

/// What an answer changes once it was sent.
pub enum ActionModel {
    Nothing,
    Create { session_id: Seq<char>, session: ServerSession },
    MarkReady { session_id: Seq<char> },
    Delete { session_id: Seq<char> },
}

/// An answer, and what it changes once it was sent.
pub struct AnswerModel {
    pub reply: ReplyModel,
    pub action: ActionModel,
}

/// What a request comes to.
pub enum DispatchModel {
    /// It is answered.
    Answer(AnswerModel),
    /// It asks for a tool that is not exposed, and is answered so.
    Blocked(AnswerModel),
    /// It opens a session, which needs an identifier.
    Open { id: Seq<char>, peer: PeerAddress },
    /// It calls a tool.
    Call { id: Seq<char>, session_id: Seq<char>, tool: Seq<char>, arguments: Seq<char> },
}

pub open spec fn respond(reply: ReplyModel) -> DispatchModel {
    DispatchModel::Answer(AnswerModel { reply, action: ActionModel::Nothing })
}

/// The session that a request names and its phase, or why there is none for it.
pub open spec fn session_of(state: ServerState, request: RequestModel, peer: PeerAddress) -> Result<
    (Seq<char>, SessionPhase),
    ReplyModel,
> {
    if json::lookup(request.headers, "mcp-protocol-version"@) != Some(DEFAULT_PROTOCOL_VERSION@) {
        Err(http_error_reply(400, "MCP-Protocol-Version is missing or unsupported"@))
    } else {
        match json::lookup(request.headers, "mcp-session-id"@) {
            None => Err(http_error_reply(400, "Mcp-Session-Id is missing or invalid"@)),
            Some(id) => if !server_rpc::is_session_id(id) {
                Err(http_error_reply(400, "Mcp-Session-Id is missing or invalid"@))
            } else if !state.sessions.dom().contains(id) || state.sessions[id].peer != peer {
                Err(http_error_reply(404, "MCP session was not found"@))
            } else {
                Ok((id, state.sessions[id].phase))
            },
        }
    }
}

/// What a request to open a session comes to.
pub open spec fn initialize_outcome(
    state: ServerState,
    request: RequestModel,
    id: Seq<char>,
    params: Option<Seq<char>>,
    peer: PeerAddress,
) -> DispatchModel {
    if json::lookup(request.headers, "mcp-session-id"@) is Some || json::lookup(
        request.headers,
        "mcp-protocol-version"@,
    ) is Some {
        respond(
            rpc_error_reply(
                Some(id),
                -32600,
                "initialize must not carry session control headers"@,
            ),
        )
    } else {
        match server_rpc::initialize_refusal(params) {
            Some(message) => respond(rpc_error_reply(Some(id), -32602, message)),
            None => if state.sessions.dom().len() >= state.config.max_sessions {
                respond(http_error_reply(503, "server session capacity is exhausted"@))
            } else {
                DispatchModel::Open { id, peer }
            },
        }
    }
}

/// The answer to a request that opens a session, with the identifier that was
/// found for it, if one was.
pub open spec fn opened(id: Seq<char>, peer: PeerAddress, fresh: Option<Seq<char>>) -> AnswerModel {
    match fresh {
        None => AnswerModel {
            reply: rpc_error_reply(Some(id), -32603, "server could not create a session"@),
            action: ActionModel::Nothing,
        },
        Some(session_id) => AnswerModel {
            reply: json_reply(200, server_rpc::initialize_body(id)).with_session(session_id),
            action: ActionModel::Create {
                session_id,
                session: ServerSession { peer, phase: SessionPhase::AwaitingInitialized },
            },
        },
    }
}

/// What the notification that a session is in use comes to.
pub open spec fn initialized_outcome(
    envelope: EnvelopeModel,
    session_id: Seq<char>,
    phase: SessionPhase,
) -> DispatchModel {
    if envelope.id is Some || !server_rpc::no_params(envelope.params) || phase
        != SessionPhase::AwaitingInitialized {
        respond(
            http_error_reply(400, "initialized notification is out of phase"@).with_session(
                session_id,
            ),
        )
    } else {
        DispatchModel::Answer(
            AnswerModel {
                reply: empty_reply(202).with_session(session_id),
                action: ActionModel::MarkReady { session_id },
            },
        )
    }
}

/// What a request for the tools comes to.
pub open spec fn list_outcome(
    tools: Seq<ToolModel>,
    id: Seq<char>,
    params: Option<Seq<char>>,
    session_id: Seq<char>,
    phase: SessionPhase,
) -> DispatchModel {
    if phase != SessionPhase::Ready {
        respond(
            rpc_error_reply(
                Some(id),
                -32002,
                "session is awaiting notifications/initialized"@,
            ).with_session(session_id),
        )
    } else if !server_rpc::no_params(params) {
        respond(
            rpc_error_reply(Some(id), -32602, "tools/list params are invalid"@).with_session(
                session_id,
            ),
        )
    } else {
        respond(
            json_reply(200, server_rpc::tools_list_body(id, tools)).with_session(session_id),
        )
    }
}

/// The tool that a call names, if its name is a bounded text.
pub open spec fn called_tool(fields: Fields) -> Option<Seq<char>> {
    match json::lookup(fields, "name"@) {
        None => None,
        Some(value) => match json::string_value(value) {
            Ok(name) => if server_rpc::is_bounded_text(name, MAX_METHOD_BYTES) {
                Some(name)
            } else {
                None
            },
            Err(_) => None,
        },
    }
}

/// The arguments of a call; none given is an empty object.
pub open spec fn called_arguments(fields: Fields) -> Seq<char> {
    match json::lookup(fields, "arguments"@) {
        Some(arguments) => arguments,
        None => "{}"@,
    }
}

/// What a call with the given parameters comes to. Nothing but the name is
/// looked at before the tool is admitted.
pub open spec fn call_outcome(
    tools: Seq<ToolModel>,
    id: Seq<char>,
    params: Option<Seq<char>>,
    session_id: Seq<char>,
    phase: SessionPhase,
) -> DispatchModel {
    if phase != SessionPhase::Ready {
        respond(
            rpc_error_reply(
                Some(id),
                -32002,
                "session is awaiting notifications/initialized"@,
            ).with_session(session_id),
        )
    } else if params is None || json::object_fields(params->0) is Err {
        respond(
            rpc_error_reply(Some(id), -32602, "tools/call params are invalid"@).with_session(
                session_id,
            ),
        )
    } else {
        let fields = json::object_fields(params->0)->Ok_0;
        match called_tool(fields) {
            None => respond(
                rpc_error_reply(Some(id), -32602, "tool name is invalid"@).with_session(session_id),
            ),
            Some(tool) => if !server::gate_of(tools, tool).allowed {
                DispatchModel::Blocked(
                    AnswerModel {
                        reply: rpc_error_reply(
                            Some(id),
                            -32602,
                            "tool is not explicitly exposed"@,
                        ).with_session(session_id),
                        action: ActionModel::Nothing,
                    },
                )
            } else if !server_rpc::keys_within(fields, "name"@, "arguments"@, "arguments"@) {
                respond(
                    rpc_error_reply(
                        Some(id),
                        -32602,
                        "tools/call params are invalid"@,
                    ).with_session(session_id),
                )
            } else if server::call_refusal(tools, tool, called_arguments(fields)) is Some {
                respond(
                    rpc_error_reply(Some(id), -32602, "tool arguments are invalid"@).with_session(
                        session_id,
                    ),
                )
            } else {
                DispatchModel::Call { id, session_id, tool, arguments: called_arguments(fields) }
            },
        }
    }
}

/// What a message within a session comes to.
pub open spec fn message_outcome(
    tools: Seq<ToolModel>,
    envelope: EnvelopeModel,
    session_id: Seq<char>,
    phase: SessionPhase,
) -> DispatchModel {
    if envelope.method == "notifications/initialized"@ {
        initialized_outcome(envelope, session_id, phase)
    } else {
        match envelope.id {
            None => respond(empty_reply(202).with_session(session_id)),
            Some(id) => if envelope.method == "tools/list"@ {
                list_outcome(tools, id, envelope.params, session_id, phase)
            } else if envelope.method == "tools/call"@ {
                call_outcome(tools, id, envelope.params, session_id, phase)
            } else {
                respond(
                    rpc_error_reply(Some(id), -32601, "method is not supported"@).with_session(
                        session_id,
                    ),
                )
            },
        }
    }
}

/// What a message that was posted comes to.
pub open spec fn post_outcome(state: ServerState, request: RequestModel, peer: PeerAddress) -> DispatchModel {
    if !(json::lookup(request.headers, "content-type"@) matches Some(value)
        && server_request::is_json_type(value)) {
        respond(http_error_reply(415, "Content-Type must be application/json"@))
    } else if !(json::lookup(request.headers, "accept"@) matches Some(value)
        && server_request::json_accepted(value)) {
        respond(http_error_reply(406, "Accept must allow application/json"@))
    } else {
        match server_rpc::request_envelope(request.body) {
            Err(failure) => respond(rpc_error_reply(failure.id, failure.code, failure.message)),
            Ok(envelope) => if envelope.method == "initialize"@ {
                match envelope.id {
                    None => respond(empty_reply(202)),
                    Some(id) => initialize_outcome(state, request, id, envelope.params, peer),
                }
            } else {
                match session_of(state, request, peer) {
                    Err(reply) => respond(reply),
                    Ok((session_id, phase)) => message_outcome(
                        state.tools,
                        envelope,
                        session_id,
                        phase,
                    ),
                }
            },
        }
    }
}

/// What a request to delete a session comes to.
pub open spec fn delete_outcome(state: ServerState, request: RequestModel, peer: PeerAddress) -> DispatchModel {
    if request.body.len() != 0 {
        respond(http_error_reply(400, "DELETE request body must be empty"@))
    } else {
        match session_of(state, request, peer) {
            Err(reply) => respond(reply),
            Ok((session_id, _)) => DispatchModel::Answer(
                AnswerModel {
                    reply: empty_reply(204).with_session(session_id),
                    action: ActionModel::Delete { session_id },
                },
            ),
        }
    }
}

/// What a request comes to.
pub open spec fn dispatched(state: ServerState, request: RequestModel, peer: PeerAddress) -> DispatchModel {
    if request.target != state.config.path {
        respond(http_error_reply(404, "endpoint not found"@))
    } else if json::lookup(request.headers, "host"@) != Some(state.host) {
        respond(http_error_reply(421, "Host does not match the bound listener"@))
    } else if json::lookup(request.headers, "origin"@) matches Some(origin)
        && !state.config.allowed_origins.contains(origin) {
        respond(http_error_reply(403, "Origin is not explicitly allowed"@))
    } else if request.method == "POST"@ {
        post_outcome(state, request, peer)
    } else if request.method == "DELETE"@ {
        delete_outcome(state, request, peer)
    } else {
        respond(failure_reply(server_request::unsupported_method()))
    }
}

/// What an answer changes once it was sent.
pub enum ServerAction {
    Nothing,
    Create { session_id: String, session: ServerSession },
    MarkReady { session_id: String },
    Delete { session_id: String },
}

impl View for ServerAction {
    type V = ActionModel;

    open spec fn view(&self) -> ActionModel {
        match self {
            ServerAction::Nothing => ActionModel::Nothing,
            ServerAction::Create { session_id, session } => ActionModel::Create {
                session_id: session_id@,
                session: *session,
            },
            ServerAction::MarkReady { session_id } => ActionModel::MarkReady {
                session_id: session_id@,
            },
            ServerAction::Delete { session_id } => ActionModel::Delete { session_id: session_id@ },
        }
    }
}

/// An answer, and what it changes once it was sent.
pub struct DispatchResult {
    pub response: HttpResponse,
    pub action: ServerAction,
}

impl View for DispatchResult {
    type V = AnswerModel;

    open spec fn view(&self) -> AnswerModel {
        AnswerModel { reply: self.response@, action: self.action@ }
    }
}

/// A call that every gate has let through.
pub struct PendingCall {
    id: ValidatedRequestId,
    session_id: String,
    tool: String,
    arguments: String,
}

impl PendingCall {
    /// The arguments are an object.
    pub closed spec fn wf(&self) -> bool {
        json::object_fields(self.arguments@) is Ok
    }

    /// The identifier of the request.
    pub closed spec fn request(&self) -> Seq<char> {
        self.id@
    }

    /// The session that the call belongs to.
    pub closed spec fn session(&self) -> Seq<char> {
        self.session_id@
    }

    /// The name of the tool.
    pub closed spec fn name(&self) -> Seq<char> {
        self.tool@
    }

    /// The text of the arguments.
    pub closed spec fn arguments_text(&self) -> Seq<char> {
        self.arguments@
    }
}

/// What a request comes to.
pub enum Dispatch {
    Answer(DispatchResult),
    Blocked(DispatchResult),
    Open { id: ValidatedRequestId, peer: PeerAddress },
    Call(PendingCall),
}

impl View for Dispatch {
    type V = DispatchModel;

    open spec fn view(&self) -> DispatchModel {
        match self {
            Dispatch::Answer(result) => DispatchModel::Answer(result@),
            Dispatch::Blocked(result) => DispatchModel::Blocked(result@),
            Dispatch::Open { id, peer } => DispatchModel::Open { id: id@, peer: *peer },
            Dispatch::Call(call) => DispatchModel::Call {
                id: call.request(),
                session_id: call.session(),
                tool: call.name(),
                arguments: call.arguments_text(),
            },
        }
    }
}

fn answer(response: HttpResponse) -> (outcome: Dispatch)
    ensures
        outcome@ == respond(response@),
{
    Dispatch::Answer(DispatchResult { response, action: ServerAction::Nothing })
}

fn initialized_answer(envelope: &ParsedRequestEnvelope, session_id: String, phase: SessionPhase) -> (outcome:
    Dispatch)
    ensures
        outcome@ == initialized_outcome(envelope@, session_id@, phase),
{
    if envelope.id.is_some() || !params_are_empty(&envelope.params) || phase
        != SessionPhase::AwaitingInitialized {
        return answer(
            HttpResponse::http_error(400, "initialized notification is out of phase").with_session(
                session_id.as_str(),
            ),
        );
    }
    Dispatch::Answer(
        DispatchResult {
            response: HttpResponse::empty(202).with_session(session_id.as_str()),
            action: ServerAction::MarkReady { session_id },
        },
    )
}

fn list_answer(
    surface: &EvaMcpServerSurface,
    id: &ValidatedRequestId,
    params: &Option<String>,
    session_id: &str,
    phase: SessionPhase,
) -> (outcome: Dispatch)
    ensures
        outcome@ == list_outcome(
            surface@,
            id@,
            error::option_text(*params),
            session_id@,
            phase,
        ),
{
    if phase != SessionPhase::Ready {
        return answer(
            HttpResponse::rpc_error(
                Some(id),
                -32002,
                "session is awaiting notifications/initialized",
            ).with_session(session_id),
        );
    }
    if !params_are_empty(params) {
        return answer(
            HttpResponse::rpc_error(
                Some(id),
                -32602,
                "tools/list params are invalid",
            ).with_session(session_id),
        );
    }
    let body = tools_list_result_body(id, surface.tools());
    answer(HttpResponse::json(200, body).with_session(session_id))
}

fn tool_called(fields: &JsonFields) -> (name: Option<String>)
    ensures
        match name {
            Some(name) => called_tool(fields@) == Some(name@),
            None => called_tool(fields@) is None,
        },
{
    match fields.get("name") {
        None => None,
        Some(value) => match parse_json_string(value) {
            Ok(name) => if !name.as_str().is_empty() && byte_len(name.as_str())
                <= MAX_METHOD_BYTES && !server::control_in(name.as_str()) {
                Some(name)
            } else {
                None
            },
            Err(_) => None,
        },
    }
}

fn call_answer(
    surface: &EvaMcpServerSurface,
    id: &ValidatedRequestId,
    params: &Option<String>,
    session_id: &str,
    phase: SessionPhase,
) -> (outcome: Dispatch)
    ensures
        outcome@ == call_outcome(
            surface@,
            id@,
            error::option_text(*params),
            session_id@,
            phase,
        ),
        outcome matches Dispatch::Call(call) ==> call.wf(),
{
    if phase != SessionPhase::Ready {
        return answer(
            HttpResponse::rpc_error(
                Some(id),
                -32002,
                "session is awaiting notifications/initialized",
            ).with_session(session_id),
        );
    }
    let fields = match params {
        None => return answer(
            HttpResponse::rpc_error(
                Some(id),
                -32602,
                "tools/call params are invalid",
            ).with_session(session_id),
        ),
        Some(params) => match parse_json_object_fields(params.as_str()) {
            Ok(fields) => fields,
            Err(_) => return answer(
                HttpResponse::rpc_error(
                    Some(id),
                    -32602,
                    "tools/call params are invalid",
                ).with_session(session_id),
            ),
        },
    };
    let tool = match tool_called(&fields) {
        Some(tool) => tool,
        None => return answer(
            HttpResponse::rpc_error(Some(id), -32602, "tool name is invalid").with_session(
                session_id,
            ),
        ),
    };
    // Admission comes first: the arguments of a hidden tool are not looked at.
    match surface.require_tool(tool.as_str()) {
        Ok(_) => {},
        Err(_) => return Dispatch::Blocked(
            DispatchResult {
                response: HttpResponse::rpc_error(
                    Some(id),
                    -32602,
                    "tool is not explicitly exposed",
                ).with_session(session_id),
                action: ServerAction::Nothing,
            },
        ),
    }
    if !only_keys(&fields, "name", "arguments", "arguments") {
        return answer(
            HttpResponse::rpc_error(
                Some(id),
                -32602,
                "tools/call params are invalid",
            ).with_session(session_id),
        );
    }
    let arguments = match fields.get("arguments") {
        Some(arguments) => arguments,
        None => "{}",
    };
    match surface.validate_tool_arguments(tool.as_str(), arguments) {
        Ok(()) => {},
        Err(_) => return answer(
            HttpResponse::rpc_error(Some(id), -32602, "tool arguments are invalid").with_session(
                session_id,
            ),
        ),
    }
    Dispatch::Call(
        PendingCall {
            id: id.copy(),
            session_id: session_id.to_owned(),
            tool,
            arguments: arguments.to_owned(),
        },
    )
}

fn message_answer(
    surface: &EvaMcpServerSurface,
    envelope: &ParsedRequestEnvelope,
    session_id: String,
    phase: SessionPhase,
) -> (outcome: Dispatch)
    ensures
        outcome@ == message_outcome(surface@, envelope@, session_id@, phase),
        outcome matches Dispatch::Call(call) ==> call.wf(),
{
    if str_eq(envelope.method.as_str(), "notifications/initialized") {
        return initialized_answer(envelope, session_id, phase);
    }
    match &envelope.id {
        None => answer(HttpResponse::empty(202).with_session(session_id.as_str())),
        Some(id) => if str_eq(envelope.method.as_str(), "tools/list") {
            list_answer(surface, id, &envelope.params, session_id.as_str(), phase)
        } else if str_eq(envelope.method.as_str(), "tools/call") {
            call_answer(surface, id, &envelope.params, session_id.as_str(), phase)
        } else {
            answer(
                HttpResponse::rpc_error(Some(id), -32601, "method is not supported").with_session(
                    session_id.as_str(),
                ),
            )
        },
    }
}

/// The answer to a request that opens a session, with the identifier that was
/// found for it, if one was.
pub fn opened_session(id: &ValidatedRequestId, peer: PeerAddress, fresh: Option<String>) -> (result:
    DispatchResult)
    ensures
        result@ == opened(id@, peer, error::option_text(fresh)),
{
    match fresh {
        None => DispatchResult {
            response: HttpResponse::rpc_error(
                Some(id),
                -32603,
                "server could not create a session",
            ),
            action: ServerAction::Nothing,
        },
        Some(session_id) => DispatchResult {
            response: HttpResponse::json(200, initialize_result_body(id)).with_session(
                session_id.as_str(),
            ),
            action: ServerAction::Create {
                session_id,
                session: ServerSession { peer, phase: SessionPhase::AwaitingInitialized },
            },
        },
    }
}

/// The answer to a call, after what the handler made of it.
pub open spec fn call_reply(
    id: Seq<char>,
    session_id: Seq<char>,
    result: Result<ToolResultModel, ErrorModel>,
    limit: usize,
) -> ReplyModel {
    match result {
        Err(_) => rpc_error_reply(Some(id), -32603, "tool handler failed"@),
        Ok(result) => if encode_utf8(server_rpc::tool_body(id, result.text, false)).len() > limit {
            rpc_error_reply(Some(id), -32603, "tool result exceeded server limit"@)
        } else {
            json_reply(200, server_rpc::tool_body(id, result.text, result.is_error))
        },
    }.with_session(session_id)
}

/// The answer to a call, after what the handler made of it.
pub fn finished_call(
    call: &PendingCall,
    result: &Result<McpServerToolResult, EvaError>,
    response_limit_bytes: usize,
) -> (response: HttpResponse)
    ensures
        response@ == call_reply(
            call.request(),
            call.session(),
            server::answer_model(*result),
            response_limit_bytes,
        ),
{
    let response = match result {
        Err(_) => HttpResponse::rpc_error(Some(&call.id), -32603, "tool handler failed"),
        Ok(result) => if tool_result_fits(&call.id, result, response_limit_bytes) {
            HttpResponse::json(200, tool_result_body(&call.id, result))
        } else {
            HttpResponse::rpc_error(Some(&call.id), -32603, "tool result exceeded server limit")
        },
    };
    response.with_session(call.session_id.as_str())
}

// ---------------------------------------------------------------------------
// The server
// ---------------------------------------------------------------------------

/// A request that was answered at once, or the call that it makes.
pub enum Admission {
    Answer(DispatchResult),
    Call(PendingCall),
}

/// The report after a request that comes to the given outcome, with the
/// identifier that was found where it opens a session.
pub open spec fn received_report(report: ReportModel, outcome: DispatchModel, fresh: Option<Seq<char>>) -> ReportModel {
    let counted = ReportModel { requests: bumped(report.requests), ..report };
    match outcome {
        DispatchModel::Answer(result) => counted.noting(result.reply.error),
        DispatchModel::Blocked(result) => (ReportModel {
            blocked_tool_calls: bumped(counted.blocked_tool_calls),
            ..counted
        }).noting(result.reply.error),
        DispatchModel::Open { id, peer } => counted.noting(opened(id, peer, fresh).reply.error),
        DispatchModel::Call { .. } => counted,
    }
}

/// Whether a request is admitted as it was dispatched, with the identifier that
/// was found where it opens a session.
pub open spec fn admitted_as(admission: Admission, outcome: DispatchModel, fresh: Option<Seq<char>>) -> bool {
    match outcome {
        DispatchModel::Answer(result) => admission matches Admission::Answer(r) && r@ == result,
        DispatchModel::Blocked(result) => admission matches Admission::Answer(r) && r@ == result,
        DispatchModel::Open { id, peer } => admission matches Admission::Answer(r) && r@ == opened(
            id,
            peer,
            fresh,
        ),
        DispatchModel::Call { .. } => admission matches Admission::Call(call)
            && Dispatch::Call(call)@ == outcome,
    }
}

/// Whether there is room for what an action creates.
pub open spec fn has_room(state: ServerState, action: ActionModel) -> bool {
    action is Create ==> state.sessions.dom().len() < state.config.max_sessions
}

/// The state after an action.
pub open spec fn acted(state: ServerState, action: ActionModel) -> ServerState {
    match action {
        ActionModel::Nothing => state,
        ActionModel::Create { session_id, session } => ServerState {
            sessions: state.sessions.insert(session_id, session),
            report: ReportModel {
                sessions_created: bumped(state.report.sessions_created),
                ..state.report
            },
            ..state
        },
        ActionModel::MarkReady { session_id } => if state.sessions.dom().contains(session_id) {
            ServerState {
                sessions: state.sessions.insert(
                    session_id,
                    ServerSession {
                        peer: state.sessions[session_id].peer,
                        phase: SessionPhase::Ready,
                    },
                ),
                ..state
            }
        } else {
            state
        },
        ActionModel::Delete { session_id } => if state.sessions.dom().contains(session_id) {
            ServerState {
                sessions: state.sessions.remove(session_id),
                report: ReportModel {
                    sessions_deleted: bumped(state.report.sessions_deleted),
                    ..state.report
                },
                ..state
            }
        } else {
            state
        },
    }
}

/// The state after an answer was written, or failed to be: only an answer that
/// was sent as it is changes anything, and only while the server runs.
pub open spec fn committed(
    state: ServerState,
    action: ActionModel,
    written: Option<ResponseWriteOutcome>,
    stopping: bool,
) -> ServerState {
    match written {
        Some(ResponseWriteOutcome::Original) => if stopping {
            state
        } else {
            acted(state, action)
        },
        _ => ServerState { report: state.report.noting(true), ..state },
    }
}

/// The state after the sessions were closed.
pub open spec fn all_closed(state: ServerState) -> ServerState {
    let closed = state.report.sessions_closed_on_shutdown + state.sessions.dom().len();
    ServerState {
        sessions: Map::empty(),
        report: ReportModel {
            sessions_closed_on_shutdown: if closed > usize::MAX {
                usize::MAX
            } else {
                closed as usize
            },
            ..state.report
        },
        ..state
    }
}

/// What a server notes when it starts.
pub open spec fn start_audit() -> Seq<Seq<char>> {
    seq![
        "mcp.server.transport:streamable_http"@,
        "mcp.server.bind:loopback"@,
        "mcp.server.tools:read_only"@,
        "mcp.server.origin:explicit_or_absent"@,
    ]
}

pub open spec fn accept_failed_model(io_error: Seq<char>) -> ErrorModel {
    ErrorModel::new(ErrorKind::Unavailable, "MCP HTTP server accept failed"@).code(
        "mcp_server_accept_failed"@,
    ).ctx("io_error"@, io_error)
}

impl<H: McpServerToolHandler> McpStreamableHttpServer<H> {
    pub closed spec fn wf(&self) -> bool {
        &&& self.config.wf()
        &&& self.surface.wf()
        &&& self.sessions.wf()
        &&& is_read_only(self.surface@)
        &&& self.sessions@.dom().len() <= self.config@.max_sessions
    }

    /// What the server knows.
    pub closed spec fn state(&self) -> ServerState {
        ServerState {
            host: self.host@,
            config: self.config@,
            tools: self.surface@,
            sessions: self.sessions@,
            report: self.report@,
        }
    }

    /// The calls that reached the handler so far.
    pub closed spec fn handled(&self) -> Seq<HandledCall> {
        self.handler.handled()
    }

    /// A server never holds more sessions than it is configured for, and only
    /// exposes tools without side effects.
    pub proof fn law_bounds(&self)
        requires
            self.wf(),
        ensures
            self.state().sessions.dom().len() <= self.state().config.max_sessions,
            is_read_only(self.state().tools),
            server::surface_refusal(self.state().tools) is None,
    {
    }

    /// A server behind a listener that is bound to the given address, which
    /// requests name by the given host.
    pub fn from_listener(
        address: PeerAddress,
        host: &str,
        config: McpStreamableHttpServerConfig,
        surface: EvaMcpServerSurface,
        handler: H,
    ) -> (outcome: Result<McpStreamableHttpServer<H>, EvaError>)
        requires
            config.wf(),
            surface.wf(),
        ensures
            match outcome {
                Ok(server) => {
                    &&& server.wf()
                    &&& setup_refusal(address, host@, config@, surface@) is None
                    &&& server.state() == (ServerState {
                        host: host@,
                        config: config@,
                        tools: surface@,
                        sessions: Map::empty(),
                        report: ReportModel::zero(),
                    })
                    &&& server.handled() == handler.handled()
                },
                Err(error) => setup_refusal(address, host@, config@, surface@) == Some(error@),
            },
    {
        match require_loopback(address) {
            Ok(()) => {},
            Err(error) => return Err(error),
        }
        if !read_only(&surface) {
            return Err(
                EvaError::permission_denied(
                    "local MCP HTTP server may expose only bounded side-effect-free tools",
                ).with_provider_code("mcp_server_surface_not_read_only"),
            );
        }
        let mut origin = String::new();
        origin.append("http://");
        origin.append(host);
        assert(origin@ =~= "http://"@ + host@);
        if !config.allows_only(origin.as_str()) {
            return Err(
                EvaError::permission_denied(
                    "MCP HTTP server allowed origins must exactly match its bound origin",
                ).with_provider_code("mcp_server_origin_not_bound"),
            );
        }
        let server = McpStreamableHttpServer {
            host: host.to_owned(),
            config,
            surface,
            handler,
            sessions: NameMap::new(),
            report: McpServerServeReport::default(),
        };
        Ok(server)
    }

    pub fn config(&self) -> (config: &McpStreamableHttpServerConfig)
        requires
            self.wf(),
        ensures
            config@ == self.state().config,
            config.wf(),
    {
        &self.config
    }

    pub fn host(&self) -> (host: &str)
        ensures
            host@ == self.state().host,
    {
        self.host.as_str()
    }

    /// How many sessions there are.
    pub fn session_count(&self) -> (count: usize)
        requires
            self.wf(),
        ensures
            count == self.state().sessions.dom().len(),
    {
        self.sessions.len()
    }

    /// Note that the server starts.
    pub fn started(&mut self)
        requires
            old(self).wf(),
        ensures
            final(self).wf(),
            final(self).handled() == old(self).handled(),
            final(self).state() == (ServerState {
                report: ReportModel {
                    audit: old(self).state().report.audit + start_audit(),
                    ..old(self).state().report
                },
                ..old(self).state()
            }),
    {
        self.report.audit.push("mcp.server.transport:streamable_http".to_owned());
        self.report.audit.push("mcp.server.bind:loopback".to_owned());
        self.report.audit.push("mcp.server.tools:read_only".to_owned());
        self.report.audit.push("mcp.server.origin:explicit_or_absent".to_owned());
        assert(self.state().report.audit =~= old(self).state().report.audit + start_audit());
    }

    /// Note a connection.
    pub fn note_connection(&mut self)
        requires
            old(self).wf(),
        ensures
            final(self).wf(),
            final(self).handled() == old(self).handled(),
            final(self).state() == (ServerState {
                report: ReportModel {
                    accepted_connections: bumped(old(self).state().report.accepted_connections),
                    ..old(self).state().report
                },
                ..old(self).state()
            }),
    {
        self.report.accepted_connections = bump(self.report.accepted_connections);
    }

    /// Note a connection that came to nothing.
    pub fn note_failure(&mut self)
        requires
            old(self).wf(),
        ensures
            final(self).wf(),
            final(self).handled() == old(self).handled(),
            final(self).state() == (ServerState {
                report: old(self).state().report.noting(true),
                ..old(self).state()
            }),
    {
        self.report.protocol_errors = bump(self.report.protocol_errors);
    }

    /// Answer a request that is not dispatched.
    pub fn refuse(&mut self, failure: HttpReadFailure) -> (response: HttpResponse)
        requires
            old(self).wf(),
        ensures
            final(self).wf(),
            final(self).handled() == old(self).handled(),
            response@ == failure_reply(failure@),
            final(self).state() == (ServerState {
                report: old(self).state().report.noting(true),
                ..old(self).state()
            }),
    {
        self.note_failure();
        HttpResponse::from_failure(failure)
    }

    /// Answer a peer on another machine; let one on this machine through.
    pub fn refuse_peer(&mut self, peer: PeerAddress) -> (response: Option<HttpResponse>)
        requires
            old(self).wf(),
        ensures
            final(self).wf(),
            final(self).handled() == old(self).handled(),
            match response {
                None => peer.loopback() && final(self).state() == old(self).state(),
                Some(response) => !peer.loopback() && response@ == http_error_reply(
                    403,
                    "loopback client required"@,
                ) && final(self).state() == (ServerState {
                    report: old(self).state().report.noting(true),
                    ..old(self).state()
                }),
            },
    {
        if peer.is_loopback() {
            None
        } else {
            self.note_failure();
            Some(HttpResponse::http_error(403, "loopback client required"))
        }
    }

    fn controlled_session(&self, request: &HttpRequest, peer: PeerAddress) -> (outcome: Result<
        (String, SessionPhase),
        HttpResponse,
    >)
        requires
            self.wf(),
        ensures
            match outcome {
                Ok((id, phase)) => session_of(self.state(), request@, peer) == Ok::<
                    (Seq<char>, SessionPhase),
                    ReplyModel,
                >((id@, phase)),
                Err(response) => session_of(self.state(), request@, peer) == Err::<
                    (Seq<char>, SessionPhase),
                    ReplyModel,
                >(response@),
            },
    {
        let version_matches = match request.header("mcp-protocol-version") {
            Some(version) => str_eq(version, DEFAULT_PROTOCOL_VERSION),
            None => false,
        };
        if !version_matches {
            return Err(
                HttpResponse::http_error(400, "MCP-Protocol-Version is missing or unsupported"),
            );
        }
        let session_id = match request.header("mcp-session-id") {
            None => return Err(
                HttpResponse::http_error(400, "Mcp-Session-Id is missing or invalid"),
            ),
            Some(id) => id,
        };
        if !valid_session_id(session_id) {
            return Err(HttpResponse::http_error(400, "Mcp-Session-Id is missing or invalid"));
        }
        match self.sessions.get(session_id) {
            None => Err(HttpResponse::http_error(404, "MCP session was not found")),
            Some(session) => if session.peer == peer {
                Ok((session_id.to_owned(), session.phase))
            } else {
                Err(HttpResponse::http_error(404, "MCP session was not found"))
            },
        }
    }

    fn dispatch_initialize(
        &self,
        request: &HttpRequest,
        id: ValidatedRequestId,
        params: &Option<String>,
        peer: PeerAddress,
    ) -> (outcome: Dispatch)
        requires
            self.wf(),
        ensures
            outcome@ == initialize_outcome(
                self.state(),
                request@,
                id@,
                error::option_text(*params),
                peer,
            ),
            !(outcome is Call),
    {
        if request.header("mcp-session-id").is_some() || request.header(
            "mcp-protocol-version",
        ).is_some() {
            return answer(
                HttpResponse::rpc_error(
                    Some(&id),
                    -32600,
                    "initialize must not carry session control headers",
                ),
            );
        }
        match validate_initialize_params(params) {
            Ok(()) => {},
            Err(message) => return answer(HttpResponse::rpc_error(Some(&id), -32602, message)),
        }
        if self.sessions.len() >= self.config.max_sessions() {
            return answer(HttpResponse::http_error(503, "server session capacity is exhausted"));
        }
        Dispatch::Open { id, peer }
    }

    fn dispatch_post(&self, request: &HttpRequest, peer: PeerAddress) -> (outcome: Dispatch)
        requires
            self.wf(),
        ensures
            outcome@ == post_outcome(self.state(), request@, peer),
            outcome matches Dispatch::Call(call) ==> call.wf(),
    {
        let json_type = match request.header("content-type") {
            Some(value) => is_json_content_type(value),
            None => false,
        };
        if !json_type {
            return answer(HttpResponse::http_error(415, "Content-Type must be application/json"));
        }
        let accepted = match request.header("accept") {
            Some(value) => accepts_json(value),
            None => false,
        };
        if !accepted {
            return answer(HttpResponse::http_error(406, "Accept must allow application/json"));
        }
        let envelope = match parse_request_envelope(request.body.as_str()) {
            Ok(envelope) => envelope,
            Err(failure) => return answer(
                HttpResponse::rpc_error(failure.id.as_ref(), failure.code, failure.message),
            ),
        };
        if str_eq(envelope.method.as_str(), "initialize") {
            return match envelope.id {
                None => answer(HttpResponse::empty(202)),
                Some(id) => self.dispatch_initialize(request, id, &envelope.params, peer),
            };
        }
        match self.controlled_session(request, peer) {
            Ok((session_id, phase)) => message_answer(&self.surface, &envelope, session_id, phase),
            Err(response) => answer(response),
        }
    }

    fn dispatch_delete(&self, request: &HttpRequest, peer: PeerAddress) -> (outcome: Dispatch)
        requires
            self.wf(),
        ensures
            outcome@ == delete_outcome(self.state(), request@, peer),
            !(outcome is Call),
    {
        if !request.body.as_str().is_empty() {
            return answer(HttpResponse::http_error(400, "DELETE request body must be empty"));
        }
        match self.controlled_session(request, peer) {
            Ok((session_id, _)) => Dispatch::Answer(
                DispatchResult {
                    response: HttpResponse::empty(204).with_session(session_id.as_str()),
                    action: ServerAction::Delete { session_id },
                },
            ),
            Err(response) => answer(response),
        }
    }

    /// Find out what a request comes to. Nothing changes by it.
    pub fn dispatch(&self, request: &HttpRequest, peer: PeerAddress) -> (outcome: Dispatch)
        requires
            self.wf(),
        ensures
            outcome@ == dispatched(self.state(), request@, peer),
            outcome matches Dispatch::Call(call) ==> call.wf(),
    {
        if !str_eq(request.target.as_str(), self.config.path()) {
            return answer(HttpResponse::http_error(404, "endpoint not found"));
        }
        let host_matches = match request.header("host") {
            Some(host) => str_eq(host, self.host.as_str()),
            None => false,
        };
        if !host_matches {
            return answer(HttpResponse::http_error(421, "Host does not match the bound listener"));
        }
        match request.header("origin") {
            Some(origin) => {
                if !self.config.allows_origin(origin) {
                    return answer(
                        HttpResponse::http_error(403, "Origin is not explicitly allowed"),
                    );
                }
            },
            None => {},
        }
        if str_eq(request.method.as_str(), "POST") {
            self.dispatch_post(request, peer)
        } else if str_eq(request.method.as_str(), "DELETE") {
            self.dispatch_delete(request, peer)
        } else {
            answer(HttpResponse::from_failure(HttpReadFailure::method_not_allowed()))
        }
    }

    /// Take in a request: answer it, or hand out the call that it makes. A
    /// session that it opens gets a random identifier; where none can be had,
    /// the answer says so.
    pub fn receive(&mut self, request: &HttpRequest, peer: PeerAddress) -> (admission: Admission)
        requires
            old(self).wf(),
        ensures
            final(self).wf(),
            final(self).handled() == old(self).handled(),
            exists|fresh: Option<Seq<char>>|
                {
                    &&& fresh matches Some(id) ==> server_rpc::is_fresh_id(id)
                    &&& #[trigger] admitted_as(
                        admission,
                        dispatched(old(self).state(), request@, peer),
                        fresh,
                    )
                    &&& final(self).state() == (ServerState {
                        report: received_report(
                            old(self).state().report,
                            dispatched(old(self).state(), request@, peer),
                            fresh,
                        ),
                        ..old(self).state()
                    })
                },
            admission matches Admission::Call(call) ==> call.wf(),
            admission matches Admission::Answer(result) ==> has_room(
                final(self).state(),
                result@.action,
            ),
    {
        let ghost before = self.state();
        let ghost expected = dispatched(before, request@, peer);
        let outcome = self.dispatch(request, peer);
        proof {
            lemma_creation_has_room(before, request@, peer);
        }
        self.report.requests = bump(self.report.requests);
        match outcome {
            Dispatch::Answer(result) => {
                if result.response.is_error() {
                    self.report.protocol_errors = bump(self.report.protocol_errors);
                }
                let admission = Admission::Answer(result);
                assert(admitted_as(admission, expected, None));
                admission
            },
            Dispatch::Blocked(result) => {
                self.report.blocked_tool_calls = bump(self.report.blocked_tool_calls);
                if result.response.is_error() {
                    self.report.protocol_errors = bump(self.report.protocol_errors);
                }
                let admission = Admission::Answer(result);
                assert(admitted_as(admission, expected, None));
                admission
            },
            Dispatch::Open { id, peer } => {
                let fresh = match new_session_id() {
                    Ok(session_id) => Some(session_id),
                    Err(_) => None,
                };
                let ghost found = error::option_text(fresh);
                let result = opened_session(&id, peer, fresh);
                if result.response.is_error() {
                    self.report.protocol_errors = bump(self.report.protocol_errors);
                }
                let admission = Admission::Answer(result);
                assert(admitted_as(admission, expected, found));
                admission
            },
            Dispatch::Call(call) => {
                let admission = Admission::Call(call);
                assert(admitted_as(admission, expected, None));
                admission
            },
        }
    }

    /// Make the call, unless the server stops or the time is up.
    pub fn run_call(&mut self, call: PendingCall, stopped: bool) -> (result: DispatchResult)
        requires
            old(self).wf(),
            call.wf(),
        ensures
            final(self).wf(),
            result@.action is Nothing,
            stopped ==> {
                &&& final(self).handled() == old(self).handled()
                &&& result@.reply == http_error_reply(
                    503,
                    "server is shutting down"@,
                ).with_session(call.session())
                &&& final(self).state() == (ServerState {
                    report: old(self).state().report.noting(true),
                    ..old(self).state()
                })
            },
            !stopped ==> {
                let made = final(self).handled().last();
                &&& final(self).handled() == old(self).handled().push(made)
                &&& made.tool == call.name()
                &&& made.arguments == call.arguments_text()
                &&& result@.reply == call_reply(
                    call.request(),
                    call.session(),
                    made.answer,
                    old(self).state().config.response_limit_bytes,
                )
                &&& final(self).state() == (ServerState {
                    report: (ReportModel {
                        handler_calls: bumped(old(self).state().report.handler_calls),
                        ..old(self).state().report
                    }).noting(result@.reply.error),
                    ..old(self).state()
                })
            },
    {
        if stopped {
            self.report.protocol_errors = bump(self.report.protocol_errors);
            return DispatchResult {
                response: HttpResponse::http_error(503, "server is shutting down").with_session(
                    call.session_id.as_str(),
                ),
                action: ServerAction::Nothing,
            };
        }
        let result = match McpServerToolCall::admitted(call.tool.as_str(), call.arguments.as_str()) {
            Ok(request) => {
                self.report.handler_calls = bump(self.report.handler_calls);
                self.handler.call_tool(request)
            },
            Err(error) => Err(error),
        };
        let response = finished_call(&call, &result, self.config.response_limit_bytes());
        if response.is_error() {
            self.report.protocol_errors = bump(self.report.protocol_errors);
        }
        DispatchResult { response, action: ServerAction::Nothing }
    }

    fn apply_action(&mut self, action: ServerAction)
        requires
            old(self).wf(),
            has_room(old(self).state(), action@),
        ensures
            final(self).wf(),
            final(self).handled() == old(self).handled(),
            final(self).state() == acted(old(self).state(), action@),
    {
        let ghost before = self.sessions@;
        proof {
            self.sessions.lemma_len();
        }
        match action {
            ServerAction::Nothing => {},
            ServerAction::Create { session_id, session } => {
                self.sessions.insert(session_id, session);
                self.report.sessions_created = bump(self.report.sessions_created);
            },
            ServerAction::MarkReady { session_id } => {
                let held = match self.sessions.get(session_id.as_str()) {
                    Some(session) => Some(*session),
                    None => None,
                };
                match held {
                    Some(session) => {
                        let ghost key = session_id@;
                        self.sessions.insert(
                            session_id,
                            ServerSession { peer: session.peer, phase: SessionPhase::Ready },
                        );
                        assert(self.sessions@.dom() =~= before.dom());
                    },
                    None => {},
                }
            },
            ServerAction::Delete { session_id } => {
                if self.sessions.remove(session_id.as_str()).is_some() {
                    self.report.sessions_deleted = bump(self.report.sessions_deleted);
                }
            },
        }
    }

    /// Commit what an answer changes, after it was written or failed to be.
    pub fn commit_action_after_response(
        &mut self,
        action: ServerAction,
        written: Option<ResponseWriteOutcome>,
        stopping: bool,
    )
        requires
            old(self).wf(),
            has_room(old(self).state(), action@),
        ensures
            final(self).wf(),
            final(self).handled() == old(self).handled(),
            final(self).state() == committed(old(self).state(), action@, written, stopping),
    {
        match written {
            Some(ResponseWriteOutcome::Original) => {
                if !stopping {
                    self.apply_action(action);
                }
            },
            _ => {
                self.report.protocol_errors = bump(self.report.protocol_errors);
            },
        }
    }

    /// Close all sessions.
    pub fn close_all_sessions(&mut self)
        requires
            old(self).wf(),
        ensures
            final(self).wf(),
            final(self).handled() == old(self).handled(),
            final(self).state() == all_closed(old(self).state()),
    {
        let open: usize = self.sessions.len();
        let closed: usize = self.report.sessions_closed_on_shutdown;
        self.report.sessions_closed_on_shutdown = if open > usize::MAX - closed {
            usize::MAX
        } else {
            closed + open
        };
        self.sessions = NameMap::new();
    }

    /// Stop the server, and say what it has counted. No session is left.
    pub fn finish(self) -> (report: McpServerServeReport)
        requires
            self.wf(),
        ensures
            report@ == (ReportModel {
                dangling_sessions: 0,
                audit: self.state().report.audit.push("mcp.server.shutdown:complete"@),
                ..all_closed(self.state()).report
            }),
    {
        let mut server = self;
        server.close_all_sessions();
        let dangling: usize = server.sessions.len();
        let mut report = server.report;
        report.dangling_sessions = dangling;
        report.audit.push("mcp.server.shutdown:complete".to_owned());
        assert(report@.audit =~= self.state().report.audit.push("mcp.server.shutdown:complete"@));
        report
    }

    /// Stop the server because no connection can be accepted any more.
    pub fn accept_failed(&mut self, io_error: &str) -> (error: EvaError)
        requires
            old(self).wf(),
        ensures
            final(self).wf(),
            final(self).handled() == old(self).handled(),
            final(self).state() == all_closed(old(self).state()),
            error@ == accept_failed_model(io_error@),
    {
        self.close_all_sessions();
        EvaError::unavailable("MCP HTTP server accept failed").with_provider_code(
            "mcp_server_accept_failed",
        ).with_context("io_error", io_error)
    }
}

/// A session is created only where there is room for it.
proof fn lemma_creation_has_room(state: ServerState, request: RequestModel, peer: PeerAddress)
    ensures
        dispatched(state, request, peer) matches DispatchModel::Answer(result)
            ==> !(result.action is Create),
        dispatched(state, request, peer) matches DispatchModel::Blocked(result)
            ==> result.action is Nothing,
        dispatched(state, request, peer) is Open ==> state.sessions.dom().len()
            < state.config.max_sessions,
{
}

// ---------------------------------------------------------------------------
// Laws
// ---------------------------------------------------------------------------

/// A call reaches the handler only from a session of the calling address that
/// is ready, for a tool that is exposed, with arguments that its schema
/// describes.
pub proof fn law_calls_have_passed_every_gate(
    state: ServerState,
    request: RequestModel,
    peer: PeerAddress,
)
    ensures
        dispatched(state, request, peer) matches DispatchModel::Call {
            id,
            session_id,
            tool,
            arguments,
        } ==> {
            &&& state.sessions.dom().contains(session_id)
            &&& state.sessions[session_id] == (ServerSession { peer, phase: SessionPhase::Ready })
            &&& json::lookup(request.headers, "mcp-session-id"@) == Some(session_id)
            &&& server::gate_of(state.tools, tool).allowed
            &&& server::call_refusal(state.tools, tool, arguments) is None
            &&& server_rpc::request_envelope(request.body) matches Ok(envelope) && envelope.id
                == Some(id) && envelope.method == "tools/call"@
        },
{
}

/// A call of a tool that is not exposed is answered in the same words whatever
/// tool and arguments it names.
pub proof fn law_hidden_tools_are_answered_alike(
    tools: Seq<ToolModel>,
    id: Seq<char>,
    session_id: Seq<char>,
    a: Seq<char>,
    b: Seq<char>,
)
    requires
        json::object_fields(a) matches Ok(fields) && called_tool(fields) matches Some(tool)
            && !server::gate_of(tools, tool).allowed,
        json::object_fields(b) matches Ok(fields) && called_tool(fields) matches Some(tool)
            && !server::gate_of(tools, tool).allowed,
    ensures
        call_outcome(tools, id, Some(a), session_id, SessionPhase::Ready) is Blocked,
        call_outcome(tools, id, Some(a), session_id, SessionPhase::Ready) == call_outcome(
            tools,
            id,
            Some(b),
            session_id,
            SessionPhase::Ready,
        ),
{
}

/// An answer that was not sent as it is, or was sent by a server that stops,
/// changes no session.
pub proof fn law_unsent_answers_change_no_session(
    state: ServerState,
    action: ActionModel,
    written: Option<ResponseWriteOutcome>,
    stopping: bool,
)
    requires
        written != Some(ResponseWriteOutcome::Original) || stopping,
    ensures
        committed(state, action, written, stopping).sessions == state.sessions,
{
}

/// A session that was opened waits for the client to say that it is in use:
/// until then its requests for tools are turned away, and afterwards they are
/// not turned away for that reason.
pub proof fn law_sessions_open_in_two_steps(
    state: ServerState,
    id: Seq<char>,
    peer: PeerAddress,
    session_id: Seq<char>,
)
    ensures
        ({
            let open = acted(state, opened(id, peer, Some(session_id)).action);
            let ready = acted(open, ActionModel::MarkReady { session_id });
            &&& open.sessions.dom().contains(session_id)
            &&& open.sessions[session_id] == (ServerSession {
                peer,
                phase: SessionPhase::AwaitingInitialized,
            })
            &&& ready.sessions.dom().contains(session_id)
            &&& ready.sessions[session_id] == (ServerSession { peer, phase: SessionPhase::Ready })
            &&& ready.sessions.remove(session_id) == state.sessions.remove(session_id)
        }),
{
    let open = acted(state, opened(id, peer, Some(session_id)).action);
    let ready = acted(open, ActionModel::MarkReady { session_id });
    assert(ready.sessions.remove(session_id) =~= state.sessions.remove(session_id));
}

/// A session becomes ready only by the notification that it is in use, sent by
/// the address that opened it, and only once.
pub proof fn law_only_waiting_sessions_become_ready(
    state: ServerState,
    request: RequestModel,
    peer: PeerAddress,
)
    ensures
        dispatched(state, request, peer) matches DispatchModel::Answer(result) ==> (
        result.action matches ActionModel::MarkReady { session_id } ==> {
            &&& state.sessions.dom().contains(session_id)
            &&& state.sessions[session_id] == (ServerSession {
                peer,
                phase: SessionPhase::AwaitingInitialized,
            })
            &&& server_rpc::request_envelope(request.body) matches Ok(envelope)
                && envelope.method == "notifications/initialized"@ && envelope.id is None
        }),
{
}

/// A session that was deleted is unknown, and every other session stays.
pub proof fn law_deleted_sessions_are_gone(
    state: ServerState,
    session_id: Seq<char>,
    request: RequestModel,
    peer: PeerAddress,
)
    requires
        json::lookup(request.headers, "mcp-protocol-version"@) == Some(DEFAULT_PROTOCOL_VERSION@),
        json::lookup(request.headers, "mcp-session-id"@) == Some(session_id),
        server_rpc::is_session_id(session_id),
    ensures
        ({
            let after = acted(state, ActionModel::Delete { session_id });
            &&& session_of(after, request, peer) == Err::<
                (Seq<char>, SessionPhase),
                ReplyModel,
            >(http_error_reply(404, "MCP session was not found"@))
            &&& forall|other: Seq<char>|
                other != session_id ==> (#[trigger] after.sessions.dom().contains(other)
                    == state.sessions.dom().contains(other)) && (state.sessions.dom().contains(
                    other,
                ) ==> after.sessions[other] == state.sessions[other])
        }),
{
}

/// To another address a session looks as if it did not exist.
pub proof fn law_sessions_are_hidden_from_other_peers(
    state: ServerState,
    session_id: Seq<char>,
    request: RequestModel,
    peer: PeerAddress,
)
    requires
        state.sessions.dom().contains(session_id),
        state.sessions[session_id].peer != peer,
        json::lookup(request.headers, "mcp-session-id"@) == Some(session_id),
    ensures
        session_of(state, request, peer) == session_of(
            (ServerState { sessions: state.sessions.remove(session_id), ..state }),
            request,
            peer,
        ),
{
}

/// A server that has stopped holds no session, and has counted every one that
/// it closed, as far as the counter goes.
pub proof fn law_nothing_dangles(state: ServerState)
    ensures
        all_closed(state).sessions.dom().len() == 0,
        state.report.sessions_closed_on_shutdown + state.sessions.dom().len() <= usize::MAX
            ==> all_closed(state).report.sessions_closed_on_shutdown
            == state.report.sessions_closed_on_shutdown + state.sessions.dom().len(),
{
}

/// What is sent as an answer has a body within the limit, if the limit leaves
/// room for the answer that says otherwise.
pub proof fn law_sent_bodies_stay_within_the_limit(reply: ReplyModel, limit: usize)
    requires
        crate::server_config::MIN_RESPONSE_LIMIT_BYTES <= limit,
    ensures
        encode_utf8(limited_reply(reply, limit).0.body).len() <= limit,
{
    if encode_utf8(reply.body).len() > limit {
        let body = http_error_reply(500, "response exceeded the server limit"@).body;
        lemma_fallback_is_short();
        assert(encode_utf8(body).len() <= 512);
    }
}

proof fn lemma_fallback_is_short()
    ensures
        encode_utf8(
            http_error_reply(500, "response exceeded the server limit"@).body,
        ).len() <= 512,
{
    let message = "response exceeded the server limit"@;
    let body = server_rpc::error_body(None, -32600, message);
    reveal_strlit("response exceeded the server limit");
    assert(message.len() == 34);
    let code = text::signed_decimal(-32600);
    assert(code.len() <= 8) by {
        lemma_decimal_len(32600);
    }
    reveal_strlit("{\"jsonrpc\":\"2.0\",\"id\":");
    reveal_strlit("null");
    reveal_strlit(",\"error\":{\"code\":");
    reveal_strlit(",\"message\":");
    reveal_strlit("}}");
    assert("{\"jsonrpc\":\"2.0\",\"id\":"@.len() == 22);
    assert("null"@.len() == 4);
    assert(",\"error\":{\"code\":"@.len() == 17);
    assert(",\"message\":"@.len() == 11);
    assert("}}"@.len() == 2);
    crate::json_text::lemma_plain_text_quoted(message);
    assert(body.len() <= 128);
    text::lemma_encoded_len_bound(body);
}

proof fn lemma_decimal_len(n: nat)
    requires
        n < 100_000,
    ensures
        text::decimal(n).len() <= 5,
{
    reveal_with_fuel(text::decimal, 6);
}

/// What becomes of a connection.
pub enum Connection {
    /// No request comes by it.
    Silent,
    /// What comes by it is refused before it is dispatched, or it fails.
    Refused,
    /// A request comes by it. If that opens a session, an identifier is found or
    /// not. If it makes a call, the call is not made, or is made and answered
    /// with an error or not. Its answer is given up, or is written in some way by
    /// a server that stops or not.
    Asked {
        request: RequestModel,
        peer: PeerAddress,
        fresh: Option<Seq<char>>,
        call: Option<bool>,
        sent: Option<(Option<ResponseWriteOutcome>, bool)>,
    },
}

/// The state after a call that was not made, or was made and answered with an
/// error or not.
pub open spec fn called(state: ServerState, call: Option<bool>) -> ServerState {
    ServerState {
        report: match call {
            None => state.report.noting(true),
            Some(error) => (ReportModel {
                handler_calls: bumped(state.report.handler_calls),
                ..state.report
            }).noting(error),
        },
        ..state
    }
}

/// The state after a connection.
pub open spec fn connection_served(state: ServerState, connection: Connection) -> ServerState {
    let noted = ServerState {
        report: ReportModel {
            accepted_connections: bumped(state.report.accepted_connections),
            ..state.report
        },
        ..state
    };
    match connection {
        Connection::Silent => noted,
        Connection::Refused => ServerState { report: noted.report.noting(true), ..noted },
        Connection::Asked { request, peer, fresh, call, sent } => {
            let outcome = dispatched(noted, request, peer);
            let received = ServerState {
                report: received_report(noted.report, outcome, fresh),
                ..noted
            };
            let (answered, action) = match outcome {
                DispatchModel::Answer(result) => (received, result.action),
                DispatchModel::Blocked(result) => (received, result.action),
                DispatchModel::Open { id, peer } => (received, opened(id, peer, fresh).action),
                DispatchModel::Call { .. } => (called(received, call), ActionModel::Nothing),
            };
            match sent {
                None => answered,
                Some((written, stopping)) => committed(answered, action, written, stopping),
            }
        },
    }
}

/// The state after connections that came one after the other.
pub open spec fn served(start: ServerState, connections: Seq<Connection>) -> ServerState
    decreases connections.len(),
{
    if connections.len() == 0 {
        start
    } else {
        connection_served(served(start, connections.drop_last()), connections.last())
    }
}

/// Whether no identifier that is found for a session belongs to one already.
pub open spec fn identifiers_are_new(start: ServerState, connections: Seq<Connection>) -> bool {
    forall|i: int|
        0 <= i < connections.len() ==> (#[trigger] connections[i] matches Connection::Asked {
            fresh: Some(id),
            ..
        } ==> !served(start, connections.take(i)).sessions.dom().contains(id))
}

/// What the counters of a server say of one another.
pub open spec fn counters_agree(state: ServerState) -> bool {
    let report = state.report;
    &&& state.sessions.dom().finite()
    &&& report.sessions_created == report.sessions_deleted + report.sessions_closed_on_shutdown
        + state.sessions.dom().len()
    &&& report.handler_calls + report.blocked_tool_calls <= report.requests
    &&& report.requests <= report.accepted_connections
    &&& report.sessions_created <= report.accepted_connections
    &&& report.dangling_sessions == 0
}

/// The counters of a server go on to agree with every connection, as long as they
/// can count and a new session gets an identifier of its own.
pub proof fn law_connections_keep_the_counters(state: ServerState, connection: Connection)
    requires
        counters_agree(state),
        state.report.accepted_connections < usize::MAX,
        connection matches Connection::Asked { fresh: Some(id), .. }
            ==> !state.sessions.dom().contains(id),
    ensures
        counters_agree(connection_served(state, connection)),
        connection_served(state, connection).report.accepted_connections
            == state.report.accepted_connections + 1,
        connection_served(state, connection).report.sessions_closed_on_shutdown
            == state.report.sessions_closed_on_shutdown,
        connection_served(state, connection).report.audit == state.report.audit,
{
    match connection {
        Connection::Asked { request, peer, fresh, call, sent } => {
            let noted = ServerState {
                report: ReportModel {
                    accepted_connections: bumped(state.report.accepted_connections),
                    ..state.report
                },
                ..state
            };
            lemma_creation_has_room(noted, request, peer);
            if dispatched(noted, request, peer) matches DispatchModel::Answer(result)
                && result.action is MarkReady {
                assert(connection_served(state, connection).sessions.dom()
                    =~= state.sessions.dom());
            }
        },
        _ => {},
    }
}

proof fn lemma_counters(start: ServerState, connections: Seq<Connection>)
    requires
        counters_agree(start),
        start.report.accepted_connections == 0,
        connections.len() <= usize::MAX,
        identifiers_are_new(start, connections),
    ensures
        counters_agree(served(start, connections)),
        served(start, connections).report.accepted_connections == connections.len(),
        served(start, connections).report.sessions_closed_on_shutdown
            == start.report.sessions_closed_on_shutdown,
        served(start, connections).report.audit == start.report.audit,
    decreases connections.len(),
{
    if connections.len() > 0 {
        let before = connections.drop_last();
        assert forall|i: int| 0 <= i < before.len() implies (#[trigger] before[i] matches
            Connection::Asked { fresh: Some(id), .. } ==> !served(
            start,
            before.take(i),
        ).sessions.dom().contains(id)) by {
            assert(before[i] == connections[i]);
            assert(before.take(i) =~= connections.take(i));
        }
        lemma_counters(start, before);
        assert(connections.take(connections.len() - 1) =~= before);
        assert(connections.last() == connections[connections.len() - 1]);
        law_connections_keep_the_counters(served(start, before), connections.last());
    }
}

/// Whatever connections a server serves from its start until it stops, its report
/// adds up: every session that was created was deleted or closed, no more calls
/// were made or blocked than requests came, and no more requests came than
/// connections. It ends with the note that the server has stopped.
pub proof fn law_reports_add_up(start: ServerState, connections: Seq<Connection>, report: ReportModel)
    requires
        start.sessions == Map::<Seq<char>, ServerSession>::empty(),
        start.report == (ReportModel { audit: start_audit(), ..ReportModel::zero() }),
        connections.len() <= usize::MAX,
        identifiers_are_new(start, connections),
        report == (ReportModel {
            dangling_sessions: 0,
            audit: served(start, connections).report.audit.push("mcp.server.shutdown:complete"@),
            ..all_closed(served(start, connections)).report
        }),
    ensures
        report.dangling_sessions == 0,
        report.sessions_created == report.sessions_deleted + report.sessions_closed_on_shutdown,
        report.handler_calls + report.blocked_tool_calls <= report.requests,
        report.requests <= report.accepted_connections,
        report.accepted_connections == connections.len(),
        report.audit == start_audit().push("mcp.server.shutdown:complete"@),
        report.audit.last() == "mcp.server.shutdown:complete"@,
{
    assert(start.sessions.dom().len() == 0);
    lemma_counters(start, connections);
}

} // verus!

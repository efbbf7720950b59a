//! The client side of one Streamable HTTP session: what may be sent in which
//! phase, and what each response does to the session.
//!
//! Sending and receiving happen elsewhere. An operation begins with a plan or a
//! refusal, and ends with the response that came back.

use vstd::prelude::*;
use vstd::string::*;
use crate::collections;
use crate::collections::NameMap;
use crate::error::{ErrorKind, ErrorModel, EvaError};
use crate::http_framing::{HttpJsonRpcResponse, ResponseModel};
use crate::http_reply;
use crate::http_reply::{
    check_stream_reply, decode_http_event_stream_response, decode_http_exchange_payload,
    validate_http_event_stream_metadata, validate_http_notification_response, HttpExchangeResponse,
};
use crate::http_request;
use crate::http_request::{validate_headers, Headers, ParsedHttpUrl, UrlModel};
use crate::json;
use crate::json::protocol_error;
use crate::json_rpc;
use crate::json_rpc::{
    json_field_value, json_string_field, parse_json_rpc_response, parse_sse_json_rpc_envelope,
    validate_mcp_protocol_version, McpJsonRpcCallReport, McpJsonRpcMessageId, McpJsonRpcMessageKind,
    MessageIdModel,
};
use crate::text;
use crate::text::{decimal_u64, decimal_usize, str_eq, trim};

verus! {

/// The state of a session.
#[verifier::ext_equal]
pub struct SessionModel {
    /// The identifier that the server issued.
    pub session_id: Option<Seq<char>>,
    /// The protocol version that was agreed on.
    pub protocol_version: Option<Seq<char>>,
    /// Whether nothing more may be sent but the end of the session.
    pub closed: bool,
    /// Whether the server accepted `notifications/initialized`.
    pub initialized_sent: bool,
    pub exchange_count: int,
    pub notification_count: int,
    pub audit: Seq<Seq<char>>,
}

pub open spec fn conflict(message: Seq<char>, code: Seq<char>) -> ErrorModel {
    ErrorModel::new(ErrorKind::Conflict, message).code(code)
}

/// One more, unless the counter is full.
pub open spec fn bumped(count: int) -> int {
    if count < usize::MAX {
        count + 1
    } else {
        count
    }
}

impl SessionModel {
    /// A session on which nothing was sent.
    pub open spec fn fresh(audit: Seq<Seq<char>>) -> SessionModel {
        SessionModel {
            session_id: None,
            protocol_version: None,
            closed: false,
            initialized_sent: false,
            exchange_count: 0,
            notification_count: 0,
            audit,
        }
    }

    /// The session with nothing left of it.
    pub open spec fn cleared(self) -> SessionModel {
        SessionModel {
            closed: true,
            session_id: None,
            protocol_version: None,
            initialized_sent: false,
            ..self
        }
    }

    pub open spec fn poisoned(self) -> SessionModel {
        SessionModel { closed: true, ..self }
    }

    pub open spec fn noted(self, entry: Seq<char>) -> SessionModel {
        SessionModel { audit: self.audit.push(entry), ..self }
    }

    /// Why nothing may be sent in the session, if nothing may.
    pub open spec fn closed_refusal(self) -> Option<ErrorModel> {
        if self.closed {
            Some(conflict("MCP HTTP session is already closed"@, "mcp_http_session_closed"@))
        } else {
            None
        }
    }

    /// Why the session is not open, if it is not.
    pub open spec fn open_refusal(self) -> Option<ErrorModel> {
        if self.closed {
            self.closed_refusal()
        } else if self.exchange_count == 0 || self.protocol_version is None {
            Some(
                conflict(
                    "MCP HTTP session requires a successful initialize exchange"@,
                    "mcp_http_session_not_initialized"@,
                ),
            )
        } else {
            None
        }
    }

    /// Why the session is not in its operating phase, if it is not.
    pub open spec fn ready_refusal(self) -> Option<ErrorModel> {
        if self.open_refusal() is Some {
            self.open_refusal()
        } else if !self.initialized_sent {
            Some(
                conflict(
                    "MCP HTTP session requires notifications/initialized before application I/O"@,
                    "mcp_http_session_not_ready"@,
                ),
            )
        } else {
            None
        }
    }

    /// The headers that end or use the session.
    pub open spec fn cleanup_headers(self) -> Result<Headers, ErrorModel> {
        match self.protocol_version {
            None => Err(
                conflict(
                    "MCP HTTP protocol version was not negotiated"@,
                    "mcp_protocol_version_missing"@,
                ),
            ),
            Some(version) => Ok(
                match self.session_id {
                    None => seq![("MCP-Protocol-Version"@, version)],
                    Some(id) => seq![
                        ("MCP-Protocol-Version"@, version),
                        ("Mcp-Session-Id"@, id),
                    ],
                },
            ),
        }
    }

    /// The headers of a request in an open session.
    pub open spec fn session_headers(self) -> Result<Headers, ErrorModel> {
        match self.open_refusal() {
            Some(error) => Err(error),
            None => self.cleanup_headers(),
        }
    }

    /// What the head of a response does to the session, and the error it ends
    /// the operation with, if it does.
    pub open spec fn gated(self, response: ResponseModel) -> (SessionModel, Option<ErrorModel>) {
        if response.status_code == 404 {
            (
                self.cleared(),
                Some(
                    ErrorModel::new(
                        ErrorKind::NotFound,
                        "MCP HTTP session is no longer known"@,
                    ).code("mcp_http_session_not_found"@),
                ),
            )
        } else if self.session_id is Some && response.session_id is Some && self.session_id
            != response.session_id {
            (
                self.poisoned(),
                Some(
                    ErrorModel::new(
                        ErrorKind::PermissionDenied,
                        "MCP HTTP response carried an unexpected session"@,
                    ).code("mcp_http_session_id_mismatch"@),
                ),
            )
        } else if self.session_id is None && response.session_id is Some {
            (
                self.poisoned(),
                Some(
                    ErrorModel::new(
                        ErrorKind::PermissionDenied,
                        "MCP HTTP response introduced an unknown session"@,
                    ).code("mcp_http_session_id_unexpected"@),
                ),
            )
        } else {
            (self, None)
        }
    }
}

/// The refusal of a zero output limit.
pub open spec fn limit_refusal(limit: usize) -> Option<ErrorModel> {
    if limit == 0 {
        Some(
            ErrorModel::new(
                ErrorKind::InvalidArgument,
                "MCP HTTP response output limit must be greater than zero"@,
            ),
        )
    } else {
        None
    }
}

/// The client side of one session.
pub struct McpHttpJsonRpcTransport {
    url: ParsedHttpUrl,
    headers: Vec<(String, String)>,
    audit: Vec<String>,
    exchange_count: usize,
    notification_count: usize,
    session_id: Option<String>,
    protocol_version: Option<String>,
    session_closed: bool,
    initialized_notification_sent: bool,
}

impl View for McpHttpJsonRpcTransport {
    type V = SessionModel;

    closed spec fn view(&self) -> SessionModel {
        SessionModel {
            session_id: crate::error::option_text(self.session_id),
            protocol_version: crate::error::option_text(self.protocol_version),
            closed: self.session_closed,
            initialized_sent: self.initialized_notification_sent,
            exchange_count: self.exchange_count as int,
            notification_count: self.notification_count as int,
            audit: text::texts(self.audit@),
        }
    }
}

/// The audit entries for headers: their names, never their values.
pub open spec fn header_audit(headers: Headers) -> Seq<Seq<char>> {
    Seq::new(headers.len(), |i: int| "mcp.http.header:"@ + headers[i].0 + ":redacted"@)
}

/// The audit of a session on which nothing was sent.
pub open spec fn opening_audit(url: UrlModel, headers: Headers, client_auth: bool) -> Seq<Seq<char>> {
    let base = seq![
        "mcp.http:client"@,
        "mcp.http.origin:"@ + url.origin,
        "mcp.http.method:POST"@,
    ];
    let tls = if url.scheme == "https"@ {
        seq![
            "mcp.tls:certificate_verification_enabled"@,
            "mcp.tls:sni_enabled"@,
            "mcp.tls:client_auth_configured:"@ + bool_text(client_auth),
        ]
    } else {
        Seq::empty()
    };
    base + tls + header_audit(headers)
}

pub open spec fn bool_text(value: bool) -> Seq<char> {
    if value {
        "true"@
    } else {
        "false"@
    }
}

/// `true` or `false`.
pub fn bool_str(value: bool) -> (text: &'static str)
    ensures
        text@ == bool_text(value),
{
    if value {
        "true"
    } else {
        "false"
    }
}

fn joined(a: &str, b: &str) -> (out: String)
    ensures
        out@ == a@ + b@,
{
    let mut out = String::new();
    out.append(a);
    out.append(b);
    assert(out@ =~= a@ + b@);
    out
}

/// Put an entry behind the others.
fn note(audit: &mut Vec<String>, entry: String)
    ensures
        text::texts(final(audit)@) == text::texts(old(audit)@).push(entry@),
{
    let ghost before = text::texts(audit@);
    audit.push(entry);
    assert(text::texts(audit@) =~= before.push(entry@));
}

/// Headers in the order of their names.
pub open spec fn ordered_headers(headers: Map<Seq<char>, String>) -> Headers {
    let names = collections::sorted(headers.dom());
    Seq::new(names.len(), |i: int| (names[i], headers[names[i]]@))
}

fn header_list(headers: &NameMap<String>) -> (list: Vec<(String, String)>)
    requires
        headers.wf(),
    ensures
        crate::error::pair_texts(list@) == ordered_headers(headers@),
{
    let ghost names = headers.names();
    let ghost all = ordered_headers(headers@);
    proof {
        headers.lemma_names();
        collections::lemma_sorted(names, headers@.dom());
    }
    let mut list: Vec<(String, String)> = Vec::new();
    let mut i: usize = 0;
    assert(crate::error::pair_texts(list@) =~= all.take(0));
    while i < headers.len()
        invariant
            i <= names.len(),
            headers.wf(),
            names == headers.names(),
            names == collections::sorted(headers@.dom()),
            all == ordered_headers(headers@),
            crate::error::pair_texts(list@) == all.take(i as int),
        decreases names.len() - i,
    {
        let name = headers.name_at(i).to_owned();
        let value = headers.value_at(i).as_str().to_owned();
        let ghost before = crate::error::pair_texts(list@);
        let ghost entry = (name@, value@);
        list.push((name, value));
        assert(crate::error::pair_texts(list@) =~= before.push(entry));
        assert(all.take(i + 1) =~= all.take(i as int).push(entry));
        i += 1;
    }
    assert(all.take(i as int) =~= all);
    list
}

/// The headers of a caller are named in increasing order, each name once.
pub proof fn law_caller_headers_are_ordered(headers: NameMap<String>)
    requires
        headers.wf(),
    ensures
        forall|i: int, j: int|
            0 <= i < j < ordered_headers(headers@).len() ==> collections::name_less(
                (#[trigger] ordered_headers(headers@)[i]).0,
                (#[trigger] ordered_headers(headers@)[j]).0,
            ),
{
    headers.lemma_names();
    collections::lemma_sorted(headers.names(), headers@.dom());
}

impl McpHttpJsonRpcTransport {
    /// The place that requests go to.
    pub closed spec fn place(&self) -> UrlModel {
        self.url@
    }

    /// The headers that the caller adds to every request.
    pub closed spec fn caller_headers(&self) -> Headers {
        crate::error::pair_texts(self.headers@)
    }

    /// A session to come, with headers that are fit to be sent, in the order of
    /// their names.
    pub fn new(url: ParsedHttpUrl, headers: &NameMap<String>, client_auth: bool) -> (outcome:
        Result<McpHttpJsonRpcTransport, EvaError>)
        requires
            headers.wf(),
        ensures
            match outcome {
                Ok(session) => {
                    &&& http_request::headers_refusal(ordered_headers(headers@)) is None
                    &&& session@ == SessionModel::fresh(
                        opening_audit(url@, ordered_headers(headers@), client_auth),
                    )
                    &&& session.place() == url@
                    &&& session.caller_headers() == ordered_headers(headers@)
                },
                Err(error) => http_request::headers_refusal(ordered_headers(headers@)) == Some(
                    error@,
                ),
            },
    {
        let headers = header_list(headers);
        match validate_headers(&headers) {
            Ok(()) => {},
            Err(error) => return Err(error),
        }
        let ghost all = crate::error::pair_texts(headers@);
        let mut audit: Vec<String> = Vec::new();
        note(&mut audit, "mcp.http:client".to_owned());
        note(&mut audit, joined("mcp.http.origin:", url.origin.as_str()));
        note(&mut audit, "mcp.http.method:POST".to_owned());
        if str_eq(url.scheme.as_str(), "https") {
            note(&mut audit, "mcp.tls:certificate_verification_enabled".to_owned());
            note(&mut audit, "mcp.tls:sni_enabled".to_owned());
            note(&mut audit, joined("mcp.tls:client_auth_configured:", bool_str(client_auth)));
        }
        let ghost base = text::texts(audit@);
        let mut i: usize = 0;
        while i < headers.len()
            invariant
                i <= headers@.len(),
                all == crate::error::pair_texts(headers@),
                text::texts(audit@) == base + header_audit(all.take(i as int)),
            decreases headers@.len() - i,
        {
            let entry = joined(
                joined("mcp.http.header:", headers[i].0.as_str()).as_str(),
                ":redacted",
            );
            note(&mut audit, entry);
            assert(all[i as int].0 == headers@[i as int].0@);
            assert(header_audit(all.take(i + 1)) =~= header_audit(all.take(i as int)).push(entry@));
            i += 1;
        }
        assert(all.take(i as int) =~= all);
        assert(text::texts(audit@) =~= opening_audit(url@, all, client_auth));
        Ok(
            McpHttpJsonRpcTransport {
                url,
                headers,
                audit,
                exchange_count: 0,
                notification_count: 0,
                session_id: None,
                protocol_version: None,
                session_closed: false,
                initialized_notification_sent: false,
            },
        )
    }

    /// The headers that the caller adds to every request.
    pub fn headers(&self) -> (headers: &Vec<(String, String)>)
        ensures
            crate::error::pair_texts(headers@) == self.caller_headers(),
    {
        &self.headers
    }

    /// The place that requests go to.
    pub fn endpoint(&self) -> (url: &ParsedHttpUrl)
        ensures
            url@ == self.place(),
    {
        &self.url
    }

    /// The identifier of the session, while it is in use.
    pub fn session_id(&self) -> (id: Option<&str>)
        ensures
            match id {
                Some(id) => !self@.closed && self@.exchange_count > 0 && self@.session_id == Some(
                    id@,
                ),
                None => self@.closed || self@.exchange_count == 0 || self@.session_id is None,
            },
    {
        if self.session_closed || self.exchange_count == 0 {
            return None;
        }
        match &self.session_id {
            Some(id) => Some(id.as_str()),
            None => None,
        }
    }

    /// The protocol version that was agreed on, while the session is in use.
    pub fn negotiated_protocol_version(&self) -> (version: Option<&str>)
        ensures
            match version {
                Some(version) => !self@.closed && self@.exchange_count > 0
                    && self@.protocol_version == Some(version@),
                None => self@.closed || self@.exchange_count == 0 || self@.protocol_version is None,
            },
    {
        if self.session_closed || self.exchange_count == 0 {
            return None;
        }
        match &self.protocol_version {
            Some(version) => Some(version.as_str()),
            None => None,
        }
    }

    /// Whether the session is in its operating phase.
    pub fn is_ready(&self) -> (ready: bool)
        ensures
            ready == (!self@.closed && self@.initialized_sent),
    {
        !self.session_closed && self.initialized_notification_sent
    }

    /// Whether nothing more may be sent but the end of the session.
    pub fn is_closed(&self) -> (closed: bool)
        ensures
            closed == self@.closed,
    {
        self.session_closed
    }

    fn ensure_not_closed(&self) -> (outcome: Result<(), EvaError>)
        ensures
            http_reply::refused_as(outcome, self@.closed_refusal()),
    {
        if self.session_closed {
            return Err(
                EvaError::conflict("MCP HTTP session is already closed").with_provider_code(
                    "mcp_http_session_closed",
                ),
            );
        }
        Ok(())
    }

    fn ensure_session_open(&self) -> (outcome: Result<(), EvaError>)
        ensures
            http_reply::refused_as(outcome, self@.open_refusal()),
    {
        match self.ensure_not_closed() {
            Ok(()) => {},
            Err(error) => return Err(error),
        }
        if self.exchange_count == 0 || self.protocol_version.is_none() {
            return Err(
                EvaError::conflict(
                    "MCP HTTP session requires a successful initialize exchange",
                ).with_provider_code("mcp_http_session_not_initialized"),
            );
        }
        Ok(())
    }

    fn ensure_session_ready(&self) -> (outcome: Result<(), EvaError>)
        ensures
            http_reply::refused_as(outcome, self@.ready_refusal()),
    {
        match self.ensure_session_open() {
            Ok(()) => {},
            Err(error) => return Err(error),
        }
        if !self.initialized_notification_sent {
            return Err(
                EvaError::conflict(
                    "MCP HTTP session requires notifications/initialized before application I/O",
                ).with_provider_code("mcp_http_session_not_ready"),
            );
        }
        Ok(())
    }

    fn cleanup_headers(&self) -> (headers: Result<Vec<(String, String)>, EvaError>)
        ensures
            same_headers(headers, self@.cleanup_headers()),
    {
        let mut headers: Vec<(String, String)> = Vec::new();
        match &self.protocol_version {
            Some(version) => {
                headers.push(("MCP-Protocol-Version".to_owned(), version.clone()));
            },
            None => return Err(
                EvaError::conflict(
                    "MCP HTTP protocol version was not negotiated",
                ).with_provider_code("mcp_protocol_version_missing"),
            ),
        }
        match &self.session_id {
            Some(id) => {
                headers.push(("Mcp-Session-Id".to_owned(), id.clone()));
            },
            None => {},
        }
        assert(crate::error::pair_texts(headers@) =~= self@.cleanup_headers()->Ok_0);
        Ok(headers)
    }

    fn session_headers(&self) -> (headers: Result<Vec<(String, String)>, EvaError>)
        ensures
            same_headers(headers, self@.session_headers()),
    {
        match self.ensure_session_open() {
            Ok(()) => {},
            Err(error) => return Err(error),
        }
        self.cleanup_headers()
    }

    fn close_and_clear_session(&mut self)
        ensures
            final(self)@ == old(self)@.cleared(),
            final(self).place() == old(self).place(),
            final(self).caller_headers() == old(self).caller_headers(),
    {
        self.session_closed = true;
        self.session_id = None;
        self.protocol_version = None;
        self.initialized_notification_sent = false;
    }

    /// Let the head of a response act on the session.
    fn gate(&mut self, response: &HttpJsonRpcResponse) -> (outcome: Result<(), EvaError>)
        ensures
            final(self)@ == old(self)@.gated(response@).0,
            http_reply::refused_as(outcome, old(self)@.gated(response@).1),
            final(self).place() == old(self).place(),
            final(self).caller_headers() == old(self).caller_headers(),
    {
        if response.status_code == 404 {
            self.close_and_clear_session();
            return Err(
                EvaError::not_found("MCP HTTP session is no longer known").with_provider_code(
                    "mcp_http_session_not_found",
                ),
            );
        }
        match (&self.session_id, &response.session_id) {
            (Some(expected), Some(actual)) => {
                if !str_eq(expected.as_str(), actual.as_str()) {
                    self.session_closed = true;
                    return Err(
                        EvaError::permission_denied(
                            "MCP HTTP response carried an unexpected session",
                        ).with_provider_code("mcp_http_session_id_mismatch"),
                    );
                }
            },
            (None, Some(_)) => {
                self.session_closed = true;
                return Err(
                    EvaError::permission_denied(
                        "MCP HTTP response introduced an unknown session",
                    ).with_provider_code("mcp_http_session_id_unexpected"),
                );
            },
            _ => {},
        }
        Ok(())
    }
}

/// Whether headers or an error are the ones that were specified.
pub open spec fn same_headers(
    found: Result<Vec<(String, String)>, EvaError>,
    expected: Result<Headers, ErrorModel>,
) -> bool {
    match found {
        Ok(headers) => expected == Ok::<Headers, ErrorModel>(
            crate::error::pair_texts(headers@),
        ),
        Err(error) => expected == Err::<Headers, ErrorModel>(error@),
    }
}

// ---------------------------------------------------------------------------
// Exchanges
// ---------------------------------------------------------------------------

/// How an exchange is to be sent.
pub struct ExchangePlan {
    /// Whether the exchange opens the session.
    pub initialize: bool,
    /// The protocol version that an opening exchange asks for.
    pub requested_protocol: String,
    /// The headers of the session.
    pub session_headers: Vec<(String, String)>,
}

/// What a plan is.
pub struct PlanModel {
    pub initialize: bool,
    pub requested_protocol: Seq<char>,
    pub session_headers: Headers,
}

impl View for ExchangePlan {
    type V = PlanModel;

    open spec fn view(&self) -> PlanModel {
        PlanModel {
            initialize: self.initialize,
            requested_protocol: self.requested_protocol@,
            session_headers: crate::error::pair_texts(self.session_headers@),
        }
    }
}

pub open spec fn version_missing(message: Seq<char>) -> ErrorModel {
    json::protocol_model(message).code("mcp_protocol_version_missing"@)
}

pub open spec fn version_invalid(message: Seq<char>) -> ErrorModel {
    json::protocol_model(message).code("mcp_protocol_version_invalid"@)
}

/// A text that is there and not all whitespace.
pub open spec fn is_filled(value: Option<Seq<char>>) -> bool {
    value matches Some(v) && text::trimmed(v).len() > 0
}

/// The protocol version that an `initialize` request asks for.
pub open spec fn requested_version(request: Seq<char>) -> Result<Seq<char>, ErrorModel> {
    match json_rpc::field_value(request, "params"@) {
        Err(error) => Err(error),
        Ok(None) => Err(version_missing("MCP initialize request is missing params"@)),
        Ok(Some(params)) => match json_rpc::string_field(params, "protocolVersion"@) {
            Err(error) => Err(error),
            Ok(version) => if !is_filled(version) {
                Err(version_missing("MCP initialize request is missing protocolVersion"@))
            } else if !json_rpc::valid_protocol_version(version->0) {
                Err(version_invalid("MCP initialize request has an invalid protocolVersion"@))
            } else {
                Ok(version->0)
            },
        },
    }
}

/// How a request is to be sent in the session, or why it is not.
pub open spec fn exchange_plan(session: SessionModel, request: Seq<char>, limit: usize) -> Result<
    PlanModel,
    ErrorModel,
> {
    if limit_refusal(limit) is Some {
        Err(limit_refusal(limit)->0)
    } else if session.closed_refusal() is Some {
        Err(session.closed_refusal()->0)
    } else {
        match json_rpc::string_field(request, "method"@) {
            Err(error) => Err(error),
            Ok(None) => Err(
                json::protocol_model(
                    "MCP HTTP JSON-RPC request is missing a top-level method"@,
                ),
            ),
            Ok(Some(method)) => if session.exchange_count == 0 {
                if method != "initialize"@ {
                    Err(
                        json::protocol_model("MCP HTTP session must begin with initialize"@).code(
                            "mcp_http_session_not_initialized"@,
                        ),
                    )
                } else {
                    match requested_version(request) {
                        Err(error) => Err(error),
                        Ok(version) => Ok(
                            PlanModel {
                                initialize: true,
                                requested_protocol: version,
                                session_headers: Seq::empty(),
                            },
                        ),
                    }
                }
            } else if method == "initialize"@ {
                Err(
                    conflict(
                        "MCP HTTP session is already initialized"@,
                        "mcp_http_session_already_initialized"@,
                    ),
                )
            } else if session.ready_refusal() is Some {
                Err(session.ready_refusal()->0)
            } else {
                match session.session_headers() {
                    Err(error) => Err(error),
                    Ok(headers) => Ok(
                        PlanModel {
                            initialize: false,
                            requested_protocol: Seq::empty(),
                            session_headers: headers,
                        },
                    ),
                }
            },
        }
    }
}

/// The protocol version that the reply to `initialize` agrees on.
pub open spec fn agreed_version(payload: Result<Seq<char>, ErrorModel>, id: u64, requested: Seq<char>) -> Result<
    Seq<char>,
    ErrorModel,
> {
    match payload {
        Err(error) => Err(error),
        Ok(text) => match json_rpc::reply_result(text, id) {
            Err(error) => Err(error),
            Ok(result) => match json_rpc::string_field(result, "protocolVersion"@) {
                Err(error) => Err(error),
                Ok(version) => if !is_filled(version) {
                    Err(version_missing("MCP initialize response is missing protocolVersion"@))
                } else if !json_rpc::valid_protocol_version(version->0) {
                    Err(version_invalid("MCP initialize response has an invalid protocolVersion"@))
                } else if version->0 != requested {
                    Err(
                        ErrorModel::new(
                            ErrorKind::Unsupported,
                            "MCP server negotiated an unsupported protocol version"@,
                        ).code("mcp_protocol_version_mismatch"@),
                    )
                } else {
                    Ok(version->0)
                },
            },
        },
    }
}

/// The session with what is needed to delete it, before the reply is read.
pub open spec fn provisional(session: SessionModel, issued: Option<Seq<char>>, requested: Seq<char>) -> SessionModel {
    SessionModel {
        session_id: issued,
        protocol_version: if issued is Some {
            Some(requested)
        } else {
            session.protocol_version
        },
        ..session
    }
}

/// What the reply to `initialize` does to the session, and what it returns.
pub open spec fn after_initialize(
    session: SessionModel,
    requested: Seq<char>,
    issued: Option<Seq<char>>,
    payload: Result<Seq<char>, ErrorModel>,
    id: u64,
) -> (SessionModel, Result<Seq<char>, ErrorModel>) {
    let held = provisional(session, issued, requested);
    match agreed_version(payload, id, requested) {
        Err(error) => (held.poisoned(), Err(error)),
        Ok(version) => {
            let noted = SessionModel { protocol_version: Some(version), ..held }.noted(
                "mcp.http:session_initialized"@,
            );
            let named = if issued is Some {
                noted.noted("mcp.http:session_id_received"@)
            } else {
                noted
            };
            (
                SessionModel { exchange_count: bumped(session.exchange_count), ..named },
                payload,
            )
        },
    }
}

/// What the reply to a request does to the session, and what it returns.
pub open spec fn after_exchange(
    session: SessionModel,
    plan: PlanModel,
    head: ResponseModel,
    payload: Result<Seq<char>, ErrorModel>,
    id: u64,
) -> (SessionModel, Result<Seq<char>, ErrorModel>) {
    if plan.initialize {
        after_initialize(session, plan.requested_protocol, head.session_id, payload, id)
    } else {
        let (gated, error) = session.gated(head);
        match error {
            Some(error) => (gated, Err(error)),
            None => match payload {
                Err(error) => (gated, Err(error)),
                Ok(text) => (
                    SessionModel { exchange_count: bumped(gated.exchange_count), ..gated },
                    Ok(text),
                ),
            },
        }
    }
}

fn bump(count: usize) -> (next: usize)
    ensures
        next == bumped(count as int),
{
    if count < usize::MAX {
        count + 1
    } else {
        count
    }
}

fn filled(value: &Option<String>) -> (full: bool)
    ensures
        full == is_filled(crate::error::option_text(*value)),
{
    match value {
        Some(text) => !trim(text.as_str()).as_str().is_empty(),
        None => false,
    }
}

fn read_requested_version(request: &str) -> (version: Result<String, EvaError>)
    ensures
        json_rpc::same_reply(version, requested_version(request@)),
{
    let params = match json_field_value(request, "params") {
        Err(error) => return Err(error),
        Ok(Some(params)) => params,
        Ok(None) => return Err(
            protocol_error("MCP initialize request is missing params").with_provider_code(
                "mcp_protocol_version_missing",
            ),
        ),
    };
    let version = match json_string_field(params.as_str(), "protocolVersion") {
        Err(error) => return Err(error),
        Ok(version) => version,
    };
    if !filled(&version) {
        return Err(
            protocol_error("MCP initialize request is missing protocolVersion").with_provider_code(
                "mcp_protocol_version_missing",
            ),
        );
    }
    let version = version.unwrap();
    match validate_mcp_protocol_version(version.as_str()) {
        Ok(()) => Ok(version),
        Err(_) => Err(
            protocol_error(
                "MCP initialize request has an invalid protocolVersion",
            ).with_provider_code("mcp_protocol_version_invalid"),
        ),
    }
}

fn read_agreed_version(payload: &str, id: u64, requested: &str) -> (version: Result<
    String,
    EvaError,
>)
    ensures
        json_rpc::same_reply(version, agreed_version(Ok(payload@), id, requested@)),
{
    let result = match parse_json_rpc_response(payload, id) {
        Ok(result) => result,
        Err(error) => return Err(error),
    };
    let version = match json_string_field(result.as_str(), "protocolVersion") {
        Err(error) => return Err(error),
        Ok(version) => version,
    };
    if !filled(&version) {
        return Err(
            protocol_error("MCP initialize response is missing protocolVersion").with_provider_code(
                "mcp_protocol_version_missing",
            ),
        );
    }
    let version = version.unwrap();
    match validate_mcp_protocol_version(version.as_str()) {
        Ok(()) => {},
        Err(_) => return Err(
            protocol_error(
                "MCP initialize response has an invalid protocolVersion",
            ).with_provider_code("mcp_protocol_version_invalid"),
        ),
    }
    if !str_eq(version.as_str(), requested) {
        return Err(
            EvaError::unsupported(
                "MCP server negotiated an unsupported protocol version",
            ).with_provider_code("mcp_protocol_version_mismatch"),
        );
    }
    Ok(version)
}

fn limit_error() -> (error: EvaError)
    ensures
        limit_refusal(0) == Some(error@),
{
    EvaError::invalid_argument("MCP HTTP response output limit must be greater than zero")
}

/// The characters of an optional string, copied.
fn copied(value: &Option<String>) -> (copy: Option<String>)
    ensures
        crate::error::option_text(copy) == crate::error::option_text(*value),
{
    match value {
        Some(text) => Some(text.clone()),
        None => None,
    }
}

impl McpHttpJsonRpcTransport {
    /// Plan an exchange, or refuse it before anything is sent.
    pub fn begin_exchange(&self, request: &str, output_limit_bytes: usize) -> (plan: Result<
        ExchangePlan,
        EvaError,
    >)
        ensures
            match plan {
                Ok(plan) => exchange_plan(self@, request@, output_limit_bytes) == Ok::<
                    PlanModel,
                    ErrorModel,
                >(plan@),
                Err(error) => exchange_plan(self@, request@, output_limit_bytes) == Err::<
                    PlanModel,
                    ErrorModel,
                >(error@),
            },
    {
        if output_limit_bytes == 0 {
            return Err(limit_error());
        }
        match self.ensure_not_closed() {
            Ok(()) => {},
            Err(error) => return Err(error),
        }
        let method = match json_string_field(request, "method") {
            Err(error) => return Err(error),
            Ok(Some(method)) => method,
            Ok(None) => return Err(
                protocol_error("MCP HTTP JSON-RPC request is missing a top-level method"),
            ),
        };
        let opening = str_eq(method.as_str(), "initialize");
        if self.exchange_count == 0 {
            if !opening {
                return Err(
                    protocol_error("MCP HTTP session must begin with initialize").with_provider_code(
                        "mcp_http_session_not_initialized",
                    ),
                );
            }
            return match read_requested_version(request) {
                Ok(version) => {
                    let none: Vec<(String, String)> = Vec::new();
                    assert(crate::error::pair_texts(none@) =~= Seq::<(Seq<char>, Seq<char>)>::empty());
                    Ok(
                        ExchangePlan {
                            initialize: true,
                            requested_protocol: version,
                            session_headers: none,
                        },
                    )
                },
                Err(error) => Err(error),
            };
        }
        if opening {
            return Err(
                EvaError::conflict("MCP HTTP session is already initialized").with_provider_code(
                    "mcp_http_session_already_initialized",
                ),
            );
        }
        match self.ensure_session_ready() {
            Ok(()) => {},
            Err(error) => return Err(error),
        }
        match self.session_headers() {
            Ok(session_headers) => Ok(
                ExchangePlan {
                    initialize: false,
                    requested_protocol: String::new(),
                    session_headers,
                },
            ),
            Err(error) => Err(error),
        }
    }

    /// Take in what came back for an exchange. Where an opening exchange fails,
    /// the session is closed to everything but its deletion.
    pub fn finish_exchange(
        &mut self,
        plan: ExchangePlan,
        response: HttpExchangeResponse,
        expected_id: u64,
        output_limit_bytes: usize,
    ) -> (outcome: Result<String, EvaError>)
        ensures
            ({
                let (session, result) = after_exchange(
                    old(self)@,
                    plan@,
                    response.head(),
                    response.payload(expected_id, output_limit_bytes),
                    expected_id,
                );
                &&& final(self)@ == session
                &&& json_rpc::same_reply(outcome, result)
            }),
            final(self).place() == old(self).place(),
            final(self).caller_headers() == old(self).caller_headers(),
    {
        if !plan.initialize {
            match self.gate(response.metadata()) {
                Ok(()) => {},
                Err(error) => return Err(error),
            }
            return match decode_http_exchange_payload(response, expected_id, output_limit_bytes) {
                Ok(text) => {
                    self.exchange_count = bump(self.exchange_count);
                    Ok(text)
                },
                Err(error) => Err(error),
            };
        }
        self.session_id = copied(&response.metadata().session_id);
        if self.session_id.is_some() {
            self.protocol_version = Some(plan.requested_protocol.clone());
        }
        let text = match decode_http_exchange_payload(response, expected_id, output_limit_bytes) {
            Ok(text) => text,
            Err(error) => {
                self.session_closed = true;
                return Err(error);
            },
        };
        match read_agreed_version(text.as_str(), expected_id, plan.requested_protocol.as_str()) {
            Ok(version) => {
                self.protocol_version = Some(version);
            },
            Err(error) => {
                self.session_closed = true;
                return Err(error);
            },
        }
        note(&mut self.audit, "mcp.http:session_initialized".to_owned());
        if self.session_id.is_some() {
            note(&mut self.audit, "mcp.http:session_id_received".to_owned());
        }
        self.exchange_count = bump(self.exchange_count);
        Ok(text)
    }
}

// ---------------------------------------------------------------------------
// Notifications
// ---------------------------------------------------------------------------

/// Whether a notification is the one that ends the opening, with the headers it
/// is sent with, or why it is not sent.
pub open spec fn notify_plan(session: SessionModel, notification: Seq<char>, limit: usize) -> Result<
    (bool, Headers),
    ErrorModel,
> {
    if limit_refusal(limit) is Some {
        Err(limit_refusal(limit)->0)
    } else if session.closed_refusal() is Some {
        Err(session.closed_refusal()->0)
    } else {
        match json_rpc::string_field(notification, "method"@) {
            Err(error) => Err(error),
            Ok(None) => Err(
                json::protocol_model(
                    "MCP HTTP JSON-RPC notification is missing a top-level method"@,
                ),
            ),
            Ok(Some(method)) => {
                let initialized = method == "notifications/initialized"@;
                if session.exchange_count == 0 {
                    Err(
                        conflict(
                            "MCP initialized notification requires a successful initialize exchange"@,
                            "mcp_http_session_not_initialized"@,
                        ),
                    )
                } else if !session.initialized_sent && !initialized {
                    Err(
                        conflict(
                            "MCP HTTP session requires notifications/initialized as its first notification"@,
                            "mcp_http_initialized_notification_required"@,
                        ),
                    )
                } else if session.initialized_sent && initialized {
                    Err(
                        conflict(
                            "MCP HTTP notifications/initialized was already accepted"@,
                            "mcp_http_initialized_notification_duplicate"@,
                        ),
                    )
                } else {
                    match session.session_headers() {
                        Err(error) => Err(error),
                        Ok(headers) => Ok((initialized, headers)),
                    }
                }
            },
        }
    }
}

/// What the response to a notification does to the session, and the error it
/// ends with, if it does.
pub open spec fn after_notify(
    session: SessionModel,
    initialized: bool,
    response: ResponseModel,
    limit: usize,
) -> (SessionModel, Option<ErrorModel>) {
    let (gated, error) = session.gated(response);
    if error is Some {
        (gated, error)
    } else if http_reply::notification_refusal(response, limit) is Some {
        (gated, http_reply::notification_refusal(response, limit))
    } else {
        let counted = SessionModel {
            notification_count: bumped(gated.notification_count),
            ..gated
        };
        if initialized {
            (
                SessionModel { initialized_sent: true, ..counted }.noted(
                    "mcp.http:initialized_notification_accepted"@,
                ),
                None,
            )
        } else {
            (counted, None)
        }
    }
}

// ---------------------------------------------------------------------------
// Event streams
// ---------------------------------------------------------------------------

/// The headers that a session-bound GET is sent with, or why it is not sent.
pub open spec fn stream_plan(session: SessionModel, limit: usize) -> Result<Headers, ErrorModel> {
    if limit_refusal(limit) is Some {
        Err(limit_refusal(limit)->0)
    } else if session.ready_refusal() is Some {
        Err(session.ready_refusal()->0)
    } else {
        session.session_headers()
    }
}

/// The headers that a streaming POST is sent with, or why it is not sent.
pub open spec fn post_stream_plan(session: SessionModel, request: Seq<char>, id: u64, limit: usize) -> Result<
    Headers,
    ErrorModel,
> {
    if limit_refusal(limit) is Some {
        Err(limit_refusal(limit)->0)
    } else if session.ready_refusal() is Some {
        Err(session.ready_refusal()->0)
    } else {
        match json_rpc::message_envelope(request) {
            Err(error) => Err(error),
            Ok((request_id, kind)) => if kind != McpJsonRpcMessageKind::Request || request_id
                != Some(MessageIdModel::Number(id as int)) {
                Err(
                    json::protocol_model(
                        "MCP HTTP streaming POST request id does not match its envelope"@,
                    ),
                )
            } else {
                match json_rpc::string_field(request, "method"@) {
                    Err(error) => Err(error),
                    Ok(method) => if method == Some("initialize"@) {
                        Err(
                            conflict(
                                "MCP HTTP session is already initialized"@,
                                "mcp_http_session_already_initialized"@,
                            ),
                        )
                    } else {
                        session.session_headers()
                    },
                }
            },
        }
    }
}

/// What the response to a buffered GET does to the session, and what it returns.
pub open spec fn after_get(session: SessionModel, response: ResponseModel, limit: usize) -> (
    SessionModel,
    Result<Seq<u8>, ErrorModel>,
) {
    let (gated, error) = session.gated(response);
    match error {
        Some(error) => (gated, Err(error)),
        None => match http_reply::stream_body(response, limit) {
            Err(error) => (gated, Err(error)),
            Ok(body) => (gated.noted("mcp.http:session_get"@), Ok(body)),
        },
    }
}

/// What the head of a stream-opening GET does to the session, and the error it
/// ends with, if it does.
pub open spec fn after_stream_open(session: SessionModel, response: ResponseModel) -> (
    SessionModel,
    Option<ErrorModel>,
) {
    let (gated, error) = session.gated(response);
    if error is Some {
        (gated, error)
    } else if http_reply::stream_open_refusal(response) is Some {
        (gated, http_reply::stream_open_refusal(response))
    } else {
        (gated.noted("mcp.http:session_stream_opened"@), None)
    }
}

/// What the head of a streaming POST does to the session, and the error it ends
/// with, if it does.
pub open spec fn after_post_stream(session: SessionModel, response: ResponseModel, id: u64) -> (
    SessionModel,
    Option<ErrorModel>,
) {
    let (gated, error) = session.gated(response);
    let refusal = http_reply::stream_reply_refusal(response.status_code, response.content_type, id);
    if error is Some {
        (gated, error)
    } else if refusal is Some {
        (gated, refusal)
    } else {
        (
            SessionModel { exchange_count: bumped(gated.exchange_count), ..gated }.noted(
                "mcp.http:session_post_stream_opened"@,
            ),
            None,
        )
    }
}

// ---------------------------------------------------------------------------
// The end of a session
// ---------------------------------------------------------------------------

/// How a session is to be ended.
pub enum ShutdownPlan {
    /// Nothing has to be sent; the session is closed.
    Closed,
    /// A DELETE with these headers has to be sent.
    Delete(Vec<(String, String)>),
}

/// What the response to the DELETE does to the session, and the error it ends
/// with, if it does.
pub open spec fn after_delete(session: SessionModel, response: ResponseModel, limit: usize) -> (
    SessionModel,
    Option<ErrorModel>,
) {
    let (gated, error) = session.gated(response);
    if error is Some {
        (gated, error)
    } else if response.status_code == 405 {
        (gated.cleared().noted("mcp.http:session_delete_unsupported"@), None)
    } else if !http_reply::is_success(response.status_code) {
        (
            gated,
            Some(
                ErrorModel::new(
                    ErrorKind::Unavailable,
                    "MCP HTTP session DELETE returned non-success status"@,
                ).code("mcp_http_session_delete_failed"@).ctx(
                    "status_code"@,
                    text::decimal(response.status_code as nat),
                ),
            ),
        )
    } else if response.body_truncated {
        (
            gated,
            Some(
                conflict(
                    "MCP HTTP session DELETE response exceeded output limit"@,
                    "mcp_response_too_large"@,
                ).ctx("output_limit_bytes"@, text::decimal(limit as nat)),
            ),
        )
    } else {
        (gated.cleared().noted("mcp.http:session_deleted"@), None)
    }
}

/// The last entry of the audit that tells how the session ended.
pub open spec fn shutdown_entry(audit: Seq<Seq<char>>) -> Seq<char>
    decreases audit.len(),
{
    if audit.len() == 0 {
        "mcp.http:session_closed"@
    } else if audit.last() == "mcp.http:session_deleted"@ || audit.last()
        == "mcp.http:session_delete_unsupported"@ {
        audit.last()
    } else {
        shutdown_entry(audit.drop_last())
    }
}

/// The audit of a session: its notes, its counters and its phase.
pub open spec fn session_audit(session: SessionModel) -> Seq<Seq<char>> {
    let used = !session.closed && session.exchange_count > 0;
    session.audit + seq![
        "mcp.http.exchange_count:"@ + text::decimal(session.exchange_count as nat),
        "mcp.http.notification_count:"@ + text::decimal(session.notification_count as nat),
        "mcp.http.session_present:"@ + bool_text(used && session.session_id is Some),
        "mcp.http.protocol_version_present:"@ + bool_text(
            used && session.protocol_version is Some,
        ),
        "mcp.http.session_ready:"@ + bool_text(!session.closed && session.initialized_sent),
        "mcp.http.session_closed:"@ + bool_text(session.closed),
    ]
}

/// The names of headers, with commas between them.
pub open spec fn header_names(headers: Headers) -> Seq<char>
    decreases headers.len(),
{
    if headers.len() == 0 {
        Seq::empty()
    } else if headers.len() == 1 {
        headers[0].0
    } else {
        header_names(headers.drop_last()) + ", "@ + headers.last().0
    }
}

/// How a session is described: what it has come to, and nothing that was agreed
/// on or that the headers hold.
pub open spec fn session_description(place: UrlModel, headers: Headers, session: SessionModel) -> Seq<
    char,
> {
    "McpHttpJsonRpcTransport { endpoint_present: "@ + bool_text(place.origin.len() > 0)
        + ", header_names: ["@ + header_names(headers) + "], header_count: "@ + text::decimal(
        headers.len(),
    ) + ", audit_count: "@ + text::decimal(session.audit.len()) + ", exchange_count: "@
        + text::decimal(session.exchange_count as nat) + ", notification_count: "@ + text::decimal(
        session.notification_count as nat,
    ) + ", session_present: "@ + bool_text(session.session_id is Some)
        + ", protocol_version_present: "@ + bool_text(session.protocol_version is Some)
        + ", session_closed: "@ + bool_text(session.closed) + ", initialized_notification_sent: "@
        + bool_text(session.initialized_sent) + " }"@
}

/// The error of an operation whose cleanup was tried: it names the code of a
/// failed cleanup, or its class where it has no code.
pub open spec fn with_cleanup(error: ErrorModel, cleanup: Option<ErrorModel>) -> ErrorModel {
    match cleanup {
        None => error,
        Some(failed) => error.ctx("mcp_session_cleanup"@, "failed"@).ctx(
            "mcp_session_cleanup_code"@,
            match failed.provider_code {
                Some(code) => code,
                None => failed.kind.name(),
            },
        ),
    }
}

/// What an optional error says.
pub open spec fn failure_of(outcome: Result<(), EvaError>) -> Option<ErrorModel> {
    match outcome {
        Ok(()) => None,
        Err(error) => Some(error@),
    }
}

/// The error of an operation whose cleanup was tried.
pub fn attach_cleanup(error: EvaError, cleanup: Result<(), EvaError>) -> (combined: EvaError)
    ensures
        combined@ == with_cleanup(error@, failure_of(cleanup)),
{
    match cleanup {
        Ok(()) => error,
        Err(failed) => {
            let code = match failed.provider_code() {
                Some(code) => code,
                None => failed.kind().as_str(),
            };
            error.with_context("mcp_session_cleanup", "failed").with_context(
                "mcp_session_cleanup_code",
                code,
            )
        },
    }
}

impl McpHttpJsonRpcTransport {
    /// Plan a notification, or refuse it before anything is sent. The flag
    /// tells whether it ends the opening.
    pub fn begin_notify(&self, notification: &str, output_limit_bytes: usize) -> (plan: Result<
        (bool, Vec<(String, String)>),
        EvaError,
    >)
        ensures
            match plan {
                Ok((initialized, headers)) => notify_plan(self@, notification@, output_limit_bytes)
                    == Ok::<(bool, Headers), ErrorModel>(
                    (initialized, crate::error::pair_texts(headers@)),
                ),
                Err(error) => notify_plan(self@, notification@, output_limit_bytes) == Err::<
                    (bool, Headers),
                    ErrorModel,
                >(error@),
            },
    {
        if output_limit_bytes == 0 {
            return Err(limit_error());
        }
        match self.ensure_not_closed() {
            Ok(()) => {},
            Err(error) => return Err(error),
        }
        let method = match json_string_field(notification, "method") {
            Err(error) => return Err(error),
            Ok(Some(method)) => method,
            Ok(None) => return Err(
                protocol_error("MCP HTTP JSON-RPC notification is missing a top-level method"),
            ),
        };
        if self.exchange_count == 0 {
            return Err(
                EvaError::conflict(
                    "MCP initialized notification requires a successful initialize exchange",
                ).with_provider_code("mcp_http_session_not_initialized"),
            );
        }
        let initialized = str_eq(method.as_str(), "notifications/initialized");
        if !self.initialized_notification_sent && !initialized {
            return Err(
                EvaError::conflict(
                    "MCP HTTP session requires notifications/initialized as its first notification",
                ).with_provider_code("mcp_http_initialized_notification_required"),
            );
        }
        if self.initialized_notification_sent && initialized {
            return Err(
                EvaError::conflict(
                    "MCP HTTP notifications/initialized was already accepted",
                ).with_provider_code("mcp_http_initialized_notification_duplicate"),
            );
        }
        match self.session_headers() {
            Ok(headers) => Ok((initialized, headers)),
            Err(error) => Err(error),
        }
    }

    /// Take in the response to a notification.
    pub fn finish_notify(
        &mut self,
        initialized: bool,
        response: &HttpJsonRpcResponse,
        output_limit_bytes: usize,
    ) -> (outcome: Result<(), EvaError>)
        ensures
            ({
                let (session, error) = after_notify(
                    old(self)@,
                    initialized,
                    response@,
                    output_limit_bytes,
                );
                &&& final(self)@ == session
                &&& http_reply::refused_as(outcome, error)
            }),
            final(self).place() == old(self).place(),
            final(self).caller_headers() == old(self).caller_headers(),
    {
        match self.gate(response) {
            Ok(()) => {},
            Err(error) => return Err(error),
        }
        match validate_http_notification_response(response, output_limit_bytes) {
            Ok(()) => {},
            Err(error) => return Err(error),
        }
        self.notification_count = bump(self.notification_count);
        if initialized {
            self.initialized_notification_sent = true;
            note(&mut self.audit, "mcp.http:initialized_notification_accepted".to_owned());
        }
        Ok(())
    }

    /// Plan a session-bound GET, or refuse it before anything is sent.
    pub fn begin_stream(&self, output_limit_bytes: usize) -> (plan: Result<
        Vec<(String, String)>,
        EvaError,
    >)
        ensures
            same_headers(plan, stream_plan(self@, output_limit_bytes)),
    {
        if output_limit_bytes == 0 {
            return Err(limit_error());
        }
        match self.ensure_session_ready() {
            Ok(()) => {},
            Err(error) => return Err(error),
        }
        self.session_headers()
    }

    /// Take in the buffered response to a GET.
    pub fn get(&mut self, response: HttpJsonRpcResponse, output_limit_bytes: usize) -> (outcome:
        Result<Vec<u8>, EvaError>)
        ensures
            ({
                let (session, result) = after_get(old(self)@, response@, output_limit_bytes);
                &&& final(self)@ == session
                &&& match outcome {
                    Ok(body) => result == Ok::<Seq<u8>, ErrorModel>(body@),
                    Err(error) => result == Err::<Seq<u8>, ErrorModel>(error@),
                }
            }),
            final(self).place() == old(self).place(),
            final(self).caller_headers() == old(self).caller_headers(),
    {
        match self.gate(&response) {
            Ok(()) => {},
            Err(error) => return Err(error),
        }
        let body = match decode_http_event_stream_response(response, output_limit_bytes) {
            Ok(body) => body,
            Err(error) => return Err(error),
        };
        note(&mut self.audit, "mcp.http:session_get".to_owned());
        Ok(body)
    }

    /// Take in the head of the response that opens an event stream.
    pub fn open_event_stream(&mut self, response: &HttpJsonRpcResponse) -> (outcome: Result<
        (),
        EvaError,
    >)
        ensures
            ({
                let (session, error) = after_stream_open(old(self)@, response@);
                &&& final(self)@ == session
                &&& http_reply::refused_as(outcome, error)
            }),
            final(self).place() == old(self).place(),
            final(self).caller_headers() == old(self).caller_headers(),
    {
        match self.gate(response) {
            Ok(()) => {},
            Err(error) => return Err(error),
        }
        match validate_http_event_stream_metadata(response) {
            Ok(()) => {},
            Err(error) => return Err(error),
        }
        note(&mut self.audit, "mcp.http:session_stream_opened".to_owned());
        Ok(())
    }

    /// Plan a streaming POST, or refuse it before anything is sent.
    pub fn begin_post_stream(&self, expected_id: u64, request: &str, output_limit_bytes: usize) -> (plan:
        Result<Vec<(String, String)>, EvaError>)
        ensures
            same_headers(
                plan,
                post_stream_plan(self@, request@, expected_id, output_limit_bytes),
            ),
    {
        if output_limit_bytes == 0 {
            return Err(limit_error());
        }
        match self.ensure_session_ready() {
            Ok(()) => {},
            Err(error) => return Err(error),
        }
        let envelope = match parse_sse_json_rpc_envelope(request) {
            Ok(envelope) => envelope,
            Err(error) => return Err(error),
        };
        let same_id = match &envelope.request_id {
            Some(McpJsonRpcMessageId::Number(number)) => *number == expected_id,
            _ => false,
        };
        if envelope.kind != McpJsonRpcMessageKind::Request || !same_id {
            return Err(
                protocol_error("MCP HTTP streaming POST request id does not match its envelope"),
            );
        }
        match json_string_field(request, "method") {
            Err(error) => return Err(error),
            Ok(Some(method)) => {
                if str_eq(method.as_str(), "initialize") {
                    return Err(
                        EvaError::conflict(
                            "MCP HTTP session is already initialized",
                        ).with_provider_code("mcp_http_session_already_initialized"),
                    );
                }
            },
            Ok(None) => {},
        }
        self.session_headers()
    }

    /// Take in the head of the response to a streaming POST.
    pub fn post_event_stream(&mut self, response: &HttpJsonRpcResponse, expected_id: u64) -> (outcome:
        Result<(), EvaError>)
        ensures
            ({
                let (session, error) = after_post_stream(old(self)@, response@, expected_id);
                &&& final(self)@ == session
                &&& http_reply::refused_as(outcome, error)
            }),
            final(self).place() == old(self).place(),
            final(self).caller_headers() == old(self).caller_headers(),
    {
        match self.gate(response) {
            Ok(()) => {},
            Err(error) => return Err(error),
        }
        match check_stream_reply(response, expected_id) {
            Ok(()) => {},
            Err(error) => return Err(error),
        }
        self.exchange_count = bump(self.exchange_count);
        note(&mut self.audit, "mcp.http:session_post_stream_opened".to_owned());
        Ok(())
    }

    /// Plan the end of the session. A session that the server does not know is
    /// closed at once.
    pub fn begin_shutdown(&mut self, output_limit_bytes: usize) -> (plan: Result<
        ShutdownPlan,
        EvaError,
    >)
        ensures
            final(self).place() == old(self).place(),
            final(self).caller_headers() == old(self).caller_headers(),
            if output_limit_bytes == 0 {
                plan matches Err(error) && limit_refusal(0) == Some(error@) && final(self)@
                    == old(self)@
            } else if old(self)@.session_id is None {
                plan matches Ok(ShutdownPlan::Closed) && final(self)@ == old(self)@.cleared()
            } else {
                &&& final(self)@ == old(self)@
                &&& match old(self)@.cleanup_headers() {
                    Ok(expected) => plan matches Ok(ShutdownPlan::Delete(headers))
                        && crate::error::pair_texts(headers@) == expected,
                    Err(expected) => plan matches Err(error) && error@ == expected,
                }
            },
    {
        if output_limit_bytes == 0 {
            return Err(limit_error());
        }
        if self.session_id.is_none() {
            self.close_and_clear_session();
            return Ok(ShutdownPlan::Closed);
        }
        match self.cleanup_headers() {
            Ok(headers) => Ok(ShutdownPlan::Delete(headers)),
            Err(error) => Err(error),
        }
    }

    /// Take in the response to the DELETE that ends the session. A failure
    /// keeps what is needed to try again.
    pub fn shutdown_session(&mut self, response: &HttpJsonRpcResponse, output_limit_bytes: usize) -> (outcome:
        Result<(), EvaError>)
        ensures
            ({
                let (session, error) = after_delete(old(self)@, response@, output_limit_bytes);
                &&& final(self)@ == session
                &&& http_reply::refused_as(outcome, error)
            }),
            final(self).place() == old(self).place(),
            final(self).caller_headers() == old(self).caller_headers(),
    {
        match self.gate(response) {
            Ok(()) => {},
            Err(error) => return Err(error),
        }
        if response.status_code == 405 {
            self.close_and_clear_session();
            note(&mut self.audit, "mcp.http:session_delete_unsupported".to_owned());
            return Ok(());
        }
        if response.status_code < 200 || 300 <= response.status_code {
            return Err(
                EvaError::unavailable(
                    "MCP HTTP session DELETE returned non-success status",
                ).with_provider_code("mcp_http_session_delete_failed").with_context(
                    "status_code",
                    decimal_u64(response.status_code as u64).as_str(),
                ),
            );
        }
        if response.body_truncated {
            return Err(
                EvaError::conflict(
                    "MCP HTTP session DELETE response exceeded output limit",
                ).with_provider_code("mcp_response_too_large").with_context(
                    "output_limit_bytes",
                    decimal_usize(output_limit_bytes).as_str(),
                ),
            );
        }
        self.close_and_clear_session();
        note(&mut self.audit, "mcp.http:session_deleted".to_owned());
        Ok(())
    }

    /// The audit entry that tells how the session ended.
    pub fn session_shutdown_audit(&self) -> (entry: String)
        ensures
            entry@ == shutdown_entry(self@.audit),
    {
        let mut i: usize = self.audit.len();
        assert(self@.audit.take(i as int) =~= self@.audit);
        while i > 0
            invariant
                i <= self.audit@.len(),
                shutdown_entry(self@.audit) == shutdown_entry(self@.audit.take(i as int)),
            decreases i,
        {
            i -= 1;
            proof {
                let head = self@.audit.take(i + 1);
                assert(head.drop_last() =~= self@.audit.take(i as int));
                assert(head.last() == self.audit@[i as int]@);
            }
            let entry = self.audit[i].as_str();
            if str_eq(entry, "mcp.http:session_deleted") || str_eq(
                entry,
                "mcp.http:session_delete_unsupported",
            ) {
                return entry.to_owned();
            }
        }
        "mcp.http:session_closed".to_owned()
    }

    /// The audit of the session. The identifier that the server issued is not
    /// in it.
    pub fn audit(&self) -> (entries: Vec<String>)
        ensures
            text::texts(entries@) == session_audit(self@),
    {
        let mut entries: Vec<String> = Vec::new();
        let mut i: usize = 0;
        while i < self.audit.len()
            invariant
                i <= self.audit@.len(),
                text::texts(entries@) == self@.audit.take(i as int),
            decreases self.audit@.len() - i,
        {
            note(&mut entries, self.audit[i].clone());
            assert(self@.audit.take(i + 1) =~= self@.audit.take(i as int).push(
                self@.audit[i as int],
            ));
            i += 1;
        }
        assert(self@.audit.take(i as int) =~= self@.audit);
        note(
            &mut entries,
            joined("mcp.http.exchange_count:", decimal_usize(self.exchange_count).as_str()),
        );
        note(
            &mut entries,
            joined("mcp.http.notification_count:", decimal_usize(self.notification_count).as_str()),
        );
        note(
            &mut entries,
            joined("mcp.http.session_present:", bool_str(self.session_id().is_some())),
        );
        note(
            &mut entries,
            joined(
                "mcp.http.protocol_version_present:",
                bool_str(self.negotiated_protocol_version().is_some()),
            ),
        );
        note(&mut entries, joined("mcp.http.session_ready:", bool_str(self.is_ready())));
        note(&mut entries, joined("mcp.http.session_closed:", bool_str(self.is_closed())));
        assert(text::texts(entries@) =~= session_audit(self@));
        entries
    }
}

// ---------------------------------------------------------------------------
// The end of a call
// ---------------------------------------------------------------------------

/// Combine the outcome of a call with that of the shutdown that followed it. A
/// call that had a session tells in its audit how the session ended.
pub fn finish_http_call(
    call: Result<McpJsonRpcCallReport, EvaError>,
    shutdown: Result<(), EvaError>,
    had_session: bool,
    shutdown_audit: &str,
) -> (outcome: Result<McpJsonRpcCallReport, EvaError>)
    ensures
        match call {
            Ok(report) => match shutdown {
                Err(failed) => outcome matches Err(error) && error@ == failed@,
                Ok(()) => outcome matches Ok(finished) && {
                    &&& finished.request_id == report.request_id
                    &&& finished.adapter_id == report.adapter_id
                    &&& finished.tool == report.tool
                    &&& finished.output == report.output
                    &&& text::texts(finished.audit@) == (if had_session {
                        text::texts(report.audit@).push(shutdown_audit@)
                    } else {
                        text::texts(report.audit@)
                    })
                },
            },
            Err(error) => outcome matches Err(combined) && combined@ == with_cleanup(
                error@,
                failure_of(shutdown),
            ),
        },
{
    match call {
        Ok(report) => {
            match shutdown {
                Ok(()) => {},
                Err(error) => return Err(error),
            }
            let mut finished = report;
            if had_session {
                note(&mut finished.audit, shutdown_audit.to_owned());
            }
            Ok(finished)
        },
        Err(error) => Err(attach_cleanup(error, shutdown)),
    }
}

// ---------------------------------------------------------------------------
// What holds of every session
// ---------------------------------------------------------------------------

/// A closed session sends nothing but its own deletion, whatever it is asked to
/// send.
pub proof fn law_closed_session_sends_nothing(
    session: SessionModel,
    message: Seq<char>,
    id: u64,
    limit: usize,
)
    requires
        session.closed,
    ensures
        exchange_plan(session, message, limit) is Err,
        notify_plan(session, message, limit) is Err,
        stream_plan(session, limit) is Err,
        post_stream_plan(session, message, id, limit) is Err,
{
}

/// Before the server accepted `notifications/initialized`, neither requests nor
/// event streams are sent; the first thing sent is `initialize`.
pub proof fn law_phases_come_in_order(session: SessionModel, message: Seq<char>, id: u64, limit: usize)
    requires
        !session.initialized_sent,
    ensures
        exchange_plan(session, message, limit) matches Ok(plan) ==> plan.initialize
            && session.exchange_count == 0,
        stream_plan(session, limit) is Err,
        post_stream_plan(session, message, id, limit) is Err,
        notify_plan(session, message, limit) matches Ok((initialized, _)) ==> initialized
            && session.exchange_count != 0,
{
}

/// A response with status 404 leaves nothing of the session.
pub proof fn law_unknown_session_is_forgotten(session: SessionModel, response: ResponseModel)
    requires
        response.status_code == 404,
    ensures
        session.gated(response).1 is Some,
        session.gated(response).0 == session.cleared(),
{
}

/// A response that names another session closes the session to everything but
/// its deletion, for which the original identifier is kept.
pub proof fn law_changed_session_keeps_its_deletion(session: SessionModel, response: ResponseModel)
    requires
        response.status_code != 404,
        response.session_id is Some,
        response.session_id != session.session_id,
    ensures
        session.gated(response).1 is Some,
        session.gated(response).0.closed,
        session.gated(response).0.session_id == session.session_id,
        session.gated(response).0.cleanup_headers() == session.cleanup_headers(),
{
}

/// An opening exchange that fails leaves the session closed, with what is
/// needed to delete the one that the server issued.
pub proof fn law_failed_opening_can_be_deleted(
    session: SessionModel,
    requested: Seq<char>,
    issued: Seq<char>,
    payload: Result<Seq<char>, ErrorModel>,
    id: u64,
)
    requires
        after_initialize(session, requested, Some(issued), payload, id).1 is Err,
    ensures
        ({
            let after = after_initialize(session, requested, Some(issued), payload, id).0;
            &&& after.closed
            &&& after.exchange_count == session.exchange_count
            &&& after.cleanup_headers() == Ok::<Headers, ErrorModel>(
                seq![("MCP-Protocol-Version"@, requested), ("Mcp-Session-Id"@, issued)],
            )
        }),
{
}

/// A deletion that succeeds leaves nothing of the session; one that fails
/// leaves it to be tried again, unless the server does not know the session.
pub proof fn law_deletion_is_final_or_retryable(
    session: SessionModel,
    response: ResponseModel,
    limit: usize,
)
    ensures
        after_delete(session, response, limit).1 is None ==> {
            let after = after_delete(session, response, limit).0;
            after.closed && after.session_id is None && after.protocol_version is None
        },
        after_delete(session, response, limit).1 is Some && response.status_code != 404 ==> {
            let after = after_delete(session, response, limit).0;
            after.session_id == session.session_id && after.cleanup_headers()
                == session.cleanup_headers()
        },
{
}

/// Nothing of the identifier that the server issued is in the audit: another
/// identifier gives the same audit.
pub proof fn law_audit_hides_the_session_id(session: SessionModel, other: Seq<char>)
    requires
        session.session_id is Some,
    ensures
        session_audit(session) == session_audit(SessionModel { session_id: Some(other), ..session }),
{
}

/// The headers of a session with a well-formed identifier and version are fit
/// to be sent.
pub proof fn law_session_headers_can_be_sent(version: Seq<char>, id: Seq<char>)
    requires
        json_rpc::valid_protocol_version(version),
        crate::http_framing::valid_session_token(id),
    ensures
        http_request::internal_header_refusal("MCP-Protocol-Version"@, version) is None,
        http_request::internal_header_refusal("Mcp-Session-Id"@, id) is None,
{
    reveal_strlit("MCP-Protocol-Version");
    reveal_strlit("Mcp-Session-Id");
    lemma_plain_header_name("MCP-Protocol-Version"@);
    lemma_plain_header_name("Mcp-Session-Id"@);
    lemma_visible_value(version);
    lemma_visible_value(id);
}

proof fn lemma_visible_value(value: Seq<char>)
    requires
        json_rpc::all_visible_ascii(vstd::utf8::encode_utf8(value)),
    ensures
        !(exists|i: int|
            0 <= i < vstd::utf8::encode_utf8(value).len() && !http_request::is_ascii_text_byte(
                #[trigger] vstd::utf8::encode_utf8(value)[i],
            )),
{
}

proof fn lemma_plain_header_name(name: Seq<char>)
    requires
        name.len() > 0,
        forall|i: int|
            0 <= i < name.len() ==> ('a' <= #[trigger] name[i] <= 'z' || 'A' <= name[i] <= 'Z'
                || name[i] == '-'),
    ensures
        text::trimmed(name).len() > 0,
        crate::http_framing::all_token_bytes(vstd::utf8::encode_utf8(name)),
{
    assert(vstd::utf8::is_ascii_chars(name));
    vstd::utf8::is_ascii_chars_encode_utf8(name);
    text::lemma_trimmed_is_empty(name);
    assert(!text::is_whitespace(name[0]));
    assert forall|i: int|
        0 <= i < vstd::utf8::encode_utf8(name).len() implies crate::http_framing::is_token_byte(
        #[trigger] vstd::utf8::encode_utf8(name)[i],
    ) by {
        assert(name[i] as u8 == vstd::utf8::encode_utf8(name)[i]);
    }
}

fn write_header_names(headers: &Vec<(String, String)>) -> (names: String)
    ensures
        names@ == header_names(crate::error::pair_texts(headers@)),
{
    let ghost all = crate::error::pair_texts(headers@);
    let mut names = String::new();
    let mut i: usize = 0;
    assert(all.take(0) =~= Seq::empty());
    while i < headers.len()
        invariant
            i <= headers@.len(),
            all == crate::error::pair_texts(headers@),
            names@ == header_names(all.take(i as int)),
        decreases headers@.len() - i,
    {
        if i > 0 {
            names.append(", ");
        }
        names.append(headers[i].0.as_str());
        assert(all.take(i + 1).drop_last() =~= all.take(i as int));
        assert(all.take(i + 1).last().0 == headers@[i as int].0@);
        assert(names@ =~= header_names(all.take(i + 1)));
        i += 1;
    }
    assert(all.take(i as int) =~= all);
    names
}

impl McpHttpJsonRpcTransport {
    /// A description of the session that keeps its identifier and the values of
    /// its headers out.
    pub fn describe(&self) -> (text: String)
        ensures
            text@ == session_description(self.place(), self.caller_headers(), self@),
    {
        let mut text = String::new();
        text.append("McpHttpJsonRpcTransport { endpoint_present: ");
        text.append(bool_str(!self.url.origin.as_str().is_empty()));
        text.append(", header_names: [");
        text.append(write_header_names(&self.headers).as_str());
        text.append("], header_count: ");
        text.append(decimal_usize(self.headers.len()).as_str());
        text.append(", audit_count: ");
        text.append(decimal_usize(self.audit.len()).as_str());
        text.append(", exchange_count: ");
        text.append(decimal_usize(self.exchange_count).as_str());
        text.append(", notification_count: ");
        text.append(decimal_usize(self.notification_count).as_str());
        text.append(", session_present: ");
        text.append(bool_str(self.session_id.is_some()));
        text.append(", protocol_version_present: ");
        text.append(bool_str(self.protocol_version.is_some()));
        text.append(", session_closed: ");
        text.append(bool_str(self.session_closed));
        text.append(", initialized_notification_sent: ");
        text.append(bool_str(self.initialized_notification_sent));
        text.append(" }");
        assert(text@ =~= session_description(self.place(), self.caller_headers(), self@));
        text
    }
}

/// The description of a session tells neither the identifier that the server
/// issued nor what the headers hold: others give the same description.
pub proof fn law_descriptions_hide_the_session(
    place: UrlModel,
    headers: Headers,
    others: Headers,
    session: SessionModel,
    other: Seq<char>,
)
    requires
        session.session_id is Some,
        headers.len() == others.len(),
        forall|i: int| 0 <= i < headers.len() ==> (#[trigger] headers[i]).0 == others[i].0,
    ensures
        session_description(place, headers, session) == session_description(
            place,
            others,
            SessionModel { session_id: Some(other), ..session },
        ),
{
    lemma_same_names(headers, others);
}

proof fn lemma_same_names(headers: Headers, others: Headers)
    requires
        headers.len() == others.len(),
        forall|i: int| 0 <= i < headers.len() ==> (#[trigger] headers[i]).0 == others[i].0,
    ensures
        header_names(headers) == header_names(others),
    decreases headers.len(),
{
    if headers.len() > 1 {
        let front = headers.drop_last();
        assert forall|i: int| 0 <= i < front.len() implies (#[trigger] front[i]).0
            == others.drop_last()[i].0 by {
            assert(front[i] == headers[i]);
        }
        lemma_same_names(front, others.drop_last());
        assert(headers.last() == headers[headers.len() - 1]);
    }
}

} // verus!

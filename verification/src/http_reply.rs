//! What a client accepts as the answer to a request, a notification or the
//! opening of an event stream.

use vstd::prelude::*;
use vstd::utf8::*;
use crate::error::{ErrorKind, ErrorModel, EvaError};
use crate::http_framing::{HttpJsonRpcResponse, HttpResponseHead, ResponseModel};
use crate::json;
use crate::json::protocol_error;
use crate::json_rpc;
use crate::json_rpc::enforce_response_limit;
use crate::text;
use crate::text::{bytes_of, decimal_u64, decimal_usize, str_eq, string_from_utf8};

verus! {

pub open spec fn is_success(status_code: int) -> bool {
    200 <= status_code < 300
}

/// The error for a status other than success.
pub open spec fn status_error(id: u64, status_code: int) -> ErrorModel {
    ErrorModel::new(
        ErrorKind::Unavailable,
        "MCP HTTP server returned non-success status"@,
    ).code("mcp_http_status"@).ctx("json_rpc_id"@, text::decimal(id as nat)).ctx(
        "status_code"@,
        text::decimal(status_code as nat),
    )
}

fn non_success(expected_id: u64, status_code: u16) -> (error: EvaError)
    ensures
        error@ == status_error(expected_id, status_code as int),
{
    EvaError::unavailable("MCP HTTP server returned non-success status").with_provider_code(
        "mcp_http_status",
    ).with_context("json_rpc_id", decimal_u64(expected_id).as_str()).with_context(
        "status_code",
        decimal_u64(status_code as u64).as_str(),
    )
}

/// Why a media type is not `application/json`, if it is not.
pub open spec fn json_type_error(content_type: Option<Seq<char>>) -> Option<ErrorModel> {
    match content_type {
        Some(name) => if name == "application/json"@ {
            None
        } else {
            Some(
                ErrorModel::new(
                    ErrorKind::Unsupported,
                    "MCP HTTP response content type is unsupported"@,
                ).code("mcp_http_content_type_unsupported"@),
            )
        },
        None => Some(
            ErrorModel::new(
                ErrorKind::Unavailable,
                "MCP HTTP response content type is missing"@,
            ).code("mcp_http_content_type_missing"@),
        ),
    }
}

/// Why a media type is not `text/event-stream`, if it is not.
pub open spec fn stream_type_error(content_type: Option<Seq<char>>) -> Option<ErrorModel> {
    match content_type {
        Some(name) => if name == "text/event-stream"@ {
            None
        } else {
            Some(
                ErrorModel::new(
                    ErrorKind::Unsupported,
                    "MCP HTTP GET response is not an event stream"@,
                ).code("mcp_http_content_type_unsupported"@),
            )
        },
        None => Some(
            ErrorModel::new(
                ErrorKind::Unavailable,
                "MCP HTTP GET response content type is missing"@,
            ).code("mcp_http_content_type_missing"@),
        ),
    }
}

/// Whether an outcome is a success or the specified refusal.
pub open spec fn refused_as(outcome: Result<(), EvaError>, refusal: Option<ErrorModel>) -> bool {
    match outcome {
        Ok(()) => refusal is None,
        Err(error) => refusal == Some(error@),
    }
}

pub fn require_json_content_type(content_type: &Option<String>) -> (outcome: Result<(), EvaError>)
    ensures
        refused_as(outcome, json_type_error(crate::error::option_text(*content_type))),
{
    match content_type {
        Some(name) => if str_eq(name.as_str(), "application/json") {
            Ok(())
        } else {
            Err(
                EvaError::unsupported(
                    "MCP HTTP response content type is unsupported",
                ).with_provider_code("mcp_http_content_type_unsupported"),
            )
        },
        None => Err(
            EvaError::unavailable("MCP HTTP response content type is missing").with_provider_code(
                "mcp_http_content_type_missing",
            ),
        ),
    }
}

pub fn require_event_stream_content_type(content_type: &Option<String>) -> (outcome: Result<
    (),
    EvaError,
>)
    ensures
        refused_as(outcome, stream_type_error(crate::error::option_text(*content_type))),
{
    match content_type {
        Some(name) => if str_eq(name.as_str(), "text/event-stream") {
            Ok(())
        } else {
            Err(
                EvaError::unsupported(
                    "MCP HTTP GET response is not an event stream",
                ).with_provider_code("mcp_http_content_type_unsupported"),
            )
        },
        None => Err(
            EvaError::unavailable(
                "MCP HTTP GET response content type is missing",
            ).with_provider_code("mcp_http_content_type_missing"),
        ),
    }
}

/// The text of a response that must carry one JSON-RPC object.
pub open spec fn exchange_text(response: ResponseModel, id: u64, limit: usize) -> Result<
    Seq<char>,
    ErrorModel,
> {
    if !is_success(response.status_code) {
        Err(status_error(id, response.status_code))
    } else if response.body_truncated {
        Err(
            ErrorModel::new(
                ErrorKind::Conflict,
                "MCP HTTP response exceeded output limit"@,
            ).code("mcp_response_too_large"@).ctx("json_rpc_id"@, text::decimal(id as nat)).ctx(
                "output_limit_bytes"@,
                text::decimal(limit as nat),
            ),
        )
    } else if response.body.len() == 0 {
        Err(
            ErrorModel::new(
                ErrorKind::Unavailable,
                "MCP HTTP response did not contain a JSON-RPC body"@,
            ).code("mcp_http_body_missing"@).ctx("json_rpc_id"@, text::decimal(id as nat)).ctx(
                "status_code"@,
                text::decimal(response.status_code as nat),
            ),
        )
    } else if json_type_error(response.content_type) is Some {
        Err(json_type_error(response.content_type)->0)
    } else if !valid_utf8(response.body) {
        Err(
            ErrorModel::new(ErrorKind::Unavailable, "MCP HTTP response was not UTF-8"@).code(
                "mcp_protocol_error"@,
            ).ctx("utf8_error"@, text::utf8_error_text(response.body)),
        )
    } else {
        match json_rpc::oversize_error(decode_utf8(response.body), limit) {
            Some(error) => Err(error),
            None => Ok(decode_utf8(response.body)),
        }
    }
}

/// The text of a response that must carry one JSON-RPC object.
pub fn decode_http_exchange_response(
    response: &HttpJsonRpcResponse,
    expected_id: u64,
    output_limit_bytes: usize,
) -> (decoded: Result<String, EvaError>)
    ensures
        json_rpc::same_reply(decoded, exchange_text(response@, expected_id, output_limit_bytes)),
{
    if response.status_code < 200 || 300 <= response.status_code {
        return Err(non_success(expected_id, response.status_code));
    }
    if response.body_truncated {
        return Err(
            EvaError::conflict("MCP HTTP response exceeded output limit").with_provider_code(
                "mcp_response_too_large",
            ).with_context("json_rpc_id", decimal_u64(expected_id).as_str()).with_context(
                "output_limit_bytes",
                decimal_usize(output_limit_bytes).as_str(),
            ),
        );
    }
    if response.body.len() == 0 {
        return Err(
            EvaError::unavailable(
                "MCP HTTP response did not contain a JSON-RPC body",
            ).with_provider_code("mcp_http_body_missing").with_context(
                "json_rpc_id",
                decimal_u64(expected_id).as_str(),
            ).with_context("status_code", decimal_u64(response.status_code as u64).as_str()),
        );
    }
    match require_json_content_type(&response.content_type) {
        Ok(()) => {},
        Err(error) => return Err(error),
    }
    let body = bytes_of(response.body.as_slice(), 0, response.body.len());
    assert(body@ =~= response.body@);
    let text = match string_from_utf8(body) {
        Ok(text) => text,
        Err(description) => return Err(
            EvaError::unavailable("MCP HTTP response was not UTF-8").with_provider_code(
                "mcp_protocol_error",
            ).with_context("utf8_error", description.as_str()),
        ),
    };
    match enforce_response_limit(text.as_str(), output_limit_bytes) {
        Ok(()) => Ok(text),
        Err(error) => Err(error),
    }
}

/// Why an event stream is not read for the reply to a request, if it is not.
pub open spec fn stream_reply_refusal(status_code: int, content_type: Option<Seq<char>>, id: u64) -> Option<
    ErrorModel,
> {
    if !is_success(status_code) {
        Some(status_error(id, status_code))
    } else {
        stream_type_error(content_type)
    }
}

/// Refuse an event stream before anything of its body is read.
pub fn check_stream_reply(response: &HttpJsonRpcResponse, expected_id: u64) -> (outcome: Result<
    (),
    EvaError,
>)
    ensures
        refused_as(
            outcome,
            stream_reply_refusal(response@.status_code, response@.content_type, expected_id),
        ),
{
    if response.status_code < 200 || 300 <= response.status_code {
        return Err(non_success(expected_id, response.status_code));
    }
    require_event_stream_content_type(&response.content_type)
}

/// Whether the answer to a request is read event by event.
pub fn answers_with_events(head: &HttpResponseHead) -> (events: bool)
    ensures
        events == (head@.content_type == Some("text/event-stream"@)),
{
    match &head.content_type {
        Some(content_type) => str_eq(content_type.as_str(), "text/event-stream"),
        None => false,
    }
}

/// A response of which only the head was read.
pub fn response_metadata(head: HttpResponseHead) -> (response: HttpJsonRpcResponse)
    ensures
        response@ == (ResponseModel {
            status_code: head@.status_code,
            content_type: head@.content_type,
            body: Seq::empty(),
            body_truncated: false,
            session_id: head@.session_id,
        }),
{
    let response = HttpJsonRpcResponse {
        status_code: head.status_code,
        content_type: head.content_type,
        body: Vec::new(),
        body_truncated: false,
        session_id: head.session_id,
    };
    assert(response@.body =~= Seq::<u8>::empty());
    response
}

/// What a request gets back: a buffered response, or an event stream and the
/// message that was read from it for the request.
pub enum HttpExchangeResponse {
    Buffered(HttpJsonRpcResponse),
    EventStream { metadata: HttpJsonRpcResponse, message: Result<String, EvaError> },
}

impl HttpExchangeResponse {
    /// The head of the response.
    pub open spec fn head(&self) -> ResponseModel {
        match self {
            HttpExchangeResponse::Buffered(response) => response@,
            HttpExchangeResponse::EventStream { metadata, .. } => metadata@,
        }
    }

    /// The text that answers the request.
    pub open spec fn payload(&self, id: u64, limit: usize) -> Result<Seq<char>, ErrorModel> {
        match self {
            HttpExchangeResponse::Buffered(response) => exchange_text(response@, id, limit),
            HttpExchangeResponse::EventStream { metadata, message } => match stream_reply_refusal(
                metadata@.status_code,
                metadata@.content_type,
                id,
            ) {
                Some(error) => Err(error),
                None => match *message {
                    Err(error) => Err(error@),
                    Ok(text) => match json_rpc::oversize_error(text@, limit) {
                        Some(error) => Err(error),
                        None => Ok(text@),
                    },
                },
            },
        }
    }

    /// The head of the response.
    pub fn metadata(&self) -> (metadata: &HttpJsonRpcResponse)
        ensures
            metadata@ == self.head(),
    {
        match self {
            HttpExchangeResponse::Buffered(response) => response,
            HttpExchangeResponse::EventStream { metadata, .. } => metadata,
        }
    }
}

/// The text that answers a request.
pub fn decode_http_exchange_payload(
    response: HttpExchangeResponse,
    expected_id: u64,
    output_limit_bytes: usize,
) -> (decoded: Result<String, EvaError>)
    ensures
        json_rpc::same_reply(decoded, response.payload(expected_id, output_limit_bytes)),
{
    match response {
        HttpExchangeResponse::Buffered(response) => decode_http_exchange_response(
            &response,
            expected_id,
            output_limit_bytes,
        ),
        HttpExchangeResponse::EventStream { metadata, message } => {
            match check_stream_reply(&metadata, expected_id) {
                Ok(()) => {},
                Err(error) => return Err(error),
            }
            let text = match message {
                Ok(text) => text,
                Err(error) => return Err(error),
            };
            match enforce_response_limit(text.as_str(), output_limit_bytes) {
                Ok(()) => Ok(text),
                Err(error) => Err(error),
            }
        },
    }
}

/// Why a response does not open an event stream, if it does not.
pub open spec fn stream_open_refusal(response: ResponseModel) -> Option<ErrorModel> {
    if response.status_code == 405 {
        Some(
            ErrorModel::new(
                ErrorKind::Unsupported,
                "MCP HTTP server does not provide a server event stream"@,
            ).code("mcp_http_sse_unsupported"@),
        )
    } else if response.status_code != 200 {
        Some(
            ErrorModel::new(
                ErrorKind::Unavailable,
                "MCP HTTP GET did not return an event stream"@,
            ).code("mcp_http_status"@).ctx(
                "status_code"@,
                text::decimal(response.status_code as nat),
            ),
        )
    } else {
        stream_type_error(response.content_type)
    }
}

pub fn validate_http_event_stream_metadata(response: &HttpJsonRpcResponse) -> (outcome: Result<
    (),
    EvaError,
>)
    ensures
        refused_as(outcome, stream_open_refusal(response@)),
{
    if response.status_code == 405 {
        return Err(
            EvaError::unsupported(
                "MCP HTTP server does not provide a server event stream",
            ).with_provider_code("mcp_http_sse_unsupported"),
        );
    }
    if response.status_code != 200 {
        return Err(
            EvaError::unavailable("MCP HTTP GET did not return an event stream").with_provider_code(
                "mcp_http_status",
            ).with_context("status_code", decimal_u64(response.status_code as u64).as_str()),
        );
    }
    require_event_stream_content_type(&response.content_type)
}

/// The buffered body of an event stream, or why it is refused.
pub open spec fn stream_body(response: ResponseModel, limit: usize) -> Result<Seq<u8>, ErrorModel> {
    match stream_open_refusal(response) {
        Some(error) => Err(error),
        None => if response.body_truncated {
            Err(
                ErrorModel::new(
                    ErrorKind::Conflict,
                    "MCP HTTP GET response exceeded output limit"@,
                ).code("mcp_response_too_large"@).ctx(
                    "output_limit_bytes"@,
                    text::decimal(limit as nat),
                ),
            )
        } else {
            Ok(response.body)
        },
    }
}

pub fn decode_http_event_stream_response(
    response: HttpJsonRpcResponse,
    output_limit_bytes: usize,
) -> (body: Result<Vec<u8>, EvaError>)
    ensures
        match body {
            Ok(bytes) => stream_body(response@, output_limit_bytes) == Ok::<Seq<u8>, ErrorModel>(
                bytes@,
            ),
            Err(error) => stream_body(response@, output_limit_bytes) == Err::<Seq<u8>, ErrorModel>(
                error@,
            ),
        },
{
    match validate_http_event_stream_metadata(&response) {
        Ok(()) => {},
        Err(error) => return Err(error),
    }
    if response.body_truncated {
        return Err(
            EvaError::conflict("MCP HTTP GET response exceeded output limit").with_provider_code(
                "mcp_response_too_large",
            ).with_context("output_limit_bytes", decimal_usize(output_limit_bytes).as_str()),
        );
    }
    Ok(response.body)
}

/// Why a response does not accept a notification, if it does not.
pub open spec fn notification_refusal(response: ResponseModel, limit: usize) -> Option<ErrorModel> {
    if response.status_code != 202 {
        Some(
            ErrorModel::new(
                ErrorKind::Unavailable,
                "MCP HTTP notification was not accepted with status 202"@,
            ).code("mcp_http_status"@).ctx(
                "status_code"@,
                text::decimal(response.status_code as nat),
            ),
        )
    } else if response.body_truncated {
        Some(
            ErrorModel::new(
                ErrorKind::Conflict,
                "MCP HTTP notification response exceeded output limit"@,
            ).code("mcp_response_too_large"@).ctx(
                "output_limit_bytes"@,
                text::decimal(limit as nat),
            ),
        )
    } else if response.body.len() > 0 {
        Some(
            json::protocol_model("MCP HTTP notification response must not contain a body"@).code(
                "mcp_http_notification_body_unexpected"@,
            ),
        )
    } else {
        None
    }
}

pub fn validate_http_notification_response(
    response: &HttpJsonRpcResponse,
    output_limit_bytes: usize,
) -> (outcome: Result<(), EvaError>)
    ensures
        refused_as(outcome, notification_refusal(response@, output_limit_bytes)),
{
    if response.status_code != 202 {
        return Err(
            EvaError::unavailable(
                "MCP HTTP notification was not accepted with status 202",
            ).with_provider_code("mcp_http_status").with_context(
                "status_code",
                decimal_u64(response.status_code as u64).as_str(),
            ),
        );
    }
    if response.body_truncated {
        return Err(
            EvaError::conflict(
                "MCP HTTP notification response exceeded output limit",
            ).with_provider_code("mcp_response_too_large").with_context(
                "output_limit_bytes",
                decimal_usize(output_limit_bytes).as_str(),
            ),
        );
    }
    if response.body.len() > 0 {
        return Err(
            protocol_error(
                "MCP HTTP notification response must not contain a body",
            ).with_provider_code("mcp_http_notification_body_unexpected"),
        );
    }
    Ok(())
}

} // verus!

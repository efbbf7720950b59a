//! HTTP framing, replies and client sessions.

use eva_mcp::collections::NameMap;
use eva_mcp::error::{ErrorKind, EvaError};
use eva_mcp::event_source::HttpSseSource;
use eva_mcp::http_framing::{
    parse_http_chunk_size, read_http_json_rpc_response, HttpBodyFraming, HttpJsonRpcResponse,
    Progress, HTTP_HEADER_LIMIT_BYTES, MCP_SESSION_ID_LIMIT_BYTES,
};
use eva_mcp::http_reply::{
    check_stream_reply, decode_http_event_stream_response, decode_http_exchange_payload,
    decode_http_exchange_response, validate_http_notification_response, HttpExchangeResponse,
};
use eva_mcp::http_request::{
    http_request_head, parse_http_port, validate_headers, validate_http_header, ParsedHttpUrl,
};
use eva_mcp::http_session::{
    attach_cleanup, finish_http_call, ExchangePlan, McpHttpJsonRpcTransport, ShutdownPlan,
};
use eva_mcp::identity::{AdapterId, RequestId};
use eva_mcp::json::parse_json_string;
use eva_mcp::json_rpc::{
    initialize_request, initialized_notification, parse_json_rpc_response,
    parse_sse_json_rpc_envelope, McpJsonRpcCallReport, McpJsonRpcClient, McpJsonRpcClientConfig,
    McpJsonRpcMessageId, McpJsonRpcMessageKind, McpJsonRpcTransport, DEFAULT_PROTOCOL_VERSION,
};
use eva_mcp::policy::McpAllowlist;
use eva_mcp::session::{McpProcessSpec, McpServerTransport, McpSessionConfig};
use eva_mcp::stdio::{
    exchange_step, require_stdio_transport, started_audit, validate_stdio_config, LineStep,
    ReaderEvent, StdioStep, StdoutLines,
    STDOUT_LINE_LIMIT_BYTES,
};

fn assert_provider_code(error: &EvaError, expected: &str) {
    assert_eq!(error.provider_code(), Some(expected), "unexpected error: {error:?}");
}

fn response(id: u64, result: &str) -> String {
    format!("{{\"jsonrpc\":\"2.0\",\"id\":{id},\"result\":{result}}}")
}

fn http_response(status: u16, body: &str) -> String {
    format!(
        "HTTP/1.1 {status} OK\r\nContent-Type: application/json\r\nContent-Length: {}\r\nConnection: close\r\n\r\n{body}",
        body.len()
    )
}

fn http_response_with_session(status: u16, body: &str, session_id: &str) -> String {
    format!(
        "HTTP/1.1 {status} OK\r\nMcp-Session-Id: {session_id}\r\nContent-Type: application/json\r\nContent-Length: {}\r\nConnection: close\r\n\r\n{body}",
        body.len()
    )
}

fn keep_alive_http_response(status: u16, body: &str) -> String {
    format!(
        "HTTP/1.1 {status} OK\r\nContent-Type: application/json; charset=utf-8\r\nContent-Length: {}\r\nConnection: keep-alive\r\n\r\n{body}",
        body.len()
    )
}

fn chunked_keep_alive_http_response(body: &str) -> String {
    let split = body.len() / 2;
    let (first, second) = body.split_at(split);
    format!(
        "HTTP/1.1 200 OK\r\nContent-Type: application/json\r\nTransfer-Encoding: chunked\r\nConnection: keep-alive\r\n\r\n{:x}\r\n{first}\r\n{:x}\r\n{second}\r\n0\r\nX-Test: complete\r\n\r\n",
        first.len(),
        second.len()
    )
}

/// The response in bytes that arrive one by one on a connection that stays open.
fn read_fragmented(
    bytes: &[u8],
    limit: usize,
    allow_bodyless: bool,
) -> Result<HttpJsonRpcResponse, EvaError> {
    for arrived in 0..=bytes.len() {
        match read_http_json_rpc_response(&bytes[..arrived], false, limit, allow_bodyless) {
            Progress::Wait => {}
            Progress::Ready(response) => return Ok(response),
            Progress::Fail(fault) => return Err(fault.to_error("http://framing.test")),
        }
    }
    panic!("the reader waits for the end of the stream");
}

/// The response in bytes behind which the stream ends.
fn read_ended(bytes: &[u8], limit: usize) -> Result<HttpJsonRpcResponse, EvaError> {
    match read_http_json_rpc_response(bytes, true, limit, false) {
        Progress::Wait => panic!("the reader waits behind the end of the stream"),
        Progress::Ready(response) => Ok(response),
        Progress::Fail(fault) => Err(fault.to_error("http://framing.test")),
    }
}

fn failure(outcome: Result<HttpJsonRpcResponse, EvaError>) -> EvaError {
    outcome.err().unwrap()
}

fn plain(status_code: u16, content_type: Option<&str>, body: &str, session_id: Option<&str>) -> HttpJsonRpcResponse {
    HttpJsonRpcResponse {
        status_code,
        content_type: content_type.map(str::to_owned),
        body: body.as_bytes().to_vec(),
        body_truncated: false,
        session_id: session_id.map(str::to_owned),
    }
}

// ---------------------------------------------------------------------------
// Framing
// ---------------------------------------------------------------------------

#[test]
fn http_framing_reads_fragmented_content_length_without_waiting_for_eof() {
    let body = br#"{"ok":true}"#;
    let head = format!(
        "HTTP/1.1 200 OK\r\nContent-Type: application/json; charset=utf-8\r\nContent-Length: {}\r\nConnection: keep-alive\r\n\r\n",
        body.len()
    );
    let bytes = [head.as_bytes(), body].concat();

    let response = read_fragmented(&bytes, 1024, false).unwrap();

    assert_eq!(response.status_code, 200);
    assert_eq!(response.content_type.as_deref(), Some("application/json"));
    assert_eq!(response.body, body);
    assert!(!response.body_truncated);
}

#[test]
fn http_framing_skips_bounded_informational_responses() {
    let body = br#"{"ok":true}"#;
    let head = format!(
        "HTTP/1.1 100 Continue\r\nContent-Length: 0\r\n\r\nHTTP/1.1 200 OK\r\nContent-Type: application/json\r\nContent-Length: {}\r\nConnection: keep-alive\r\n\r\n",
        body.len()
    );
    let bytes = [head.as_bytes(), body].concat();
    let response = read_fragmented(&bytes, 1024, false).unwrap();
    assert_eq!(response.status_code, 200);
    assert_eq!(response.body, body);

    let error = failure(read_ended(b"HTTP/1.1 100 Continue\r\nContent-Length: 1\r\n\r\nx", 1024));
    assert_provider_code(&error, "mcp_http_framing_invalid");
}

#[test]
fn http_framing_decodes_fragmented_chunks_extensions_and_trailers() {
    let raw = b"HTTP/1.1 200 OK\r\nContent-Type: application/json\r\nTransfer-Encoding: chunked\r\nConnection: keep-alive\r\n\r\n6;fixture=yes\r\n{\"ok\":\r\n5\r\ntrue}\r\n0\r\nX-Trace: complete\r\n\r\n";

    let response = read_fragmented(raw, 1024, false).unwrap();

    assert_eq!(response.body, br#"{"ok":true}"#);
    assert!(!response.body_truncated);
}

#[test]
fn http_framing_handles_bodyless_statuses_without_waiting_for_eof() {
    for (status, raw) in [
        (
            202,
            b"HTTP/1.1 202 Accepted\r\nContent-Length: 0\r\nConnection: keep-alive\r\n\r\n"
                .as_slice(),
        ),
        (204, b"HTTP/1.1 204 No Content\r\nConnection: keep-alive\r\n\r\n".as_slice()),
    ] {
        let response = read_fragmented(raw, 1024, false).unwrap();
        assert_eq!(response.status_code, status);
        assert!(response.body.is_empty());
        if status == 202 {
            validate_http_notification_response(&response, 1024).unwrap();
        } else {
            assert_provider_code(
                &validate_http_notification_response(&response, 1024).unwrap_err(),
                "mcp_http_status",
            );
        }
        let error = decode_http_exchange_response(&response, 7, 1024).unwrap_err();
        assert_provider_code(&error, "mcp_http_body_missing");
    }

    let raw = b"HTTP/1.1 202 Accepted\r\nConnection: keep-alive\r\n\r\n";
    let error = failure(read_fragmented(raw, 1024, false));
    assert_provider_code(&error, "mcp_http_framing_invalid");

    let response = read_fragmented(raw, 1024, true).unwrap();
    validate_http_notification_response(&response, 1024).unwrap();
}

#[test]
fn http_framing_rejects_ambiguous_or_invalid_response_headers() {
    for raw in [
        "HTTP/1.1 200 OK\r\nContent-Length: 1\r\nContent-Length: 1\r\n\r\nx",
        "HTTP/1.1 200 OK\r\nContent-Length: 1\r\nTransfer-Encoding: chunked\r\n\r\n0\r\n\r\n",
        "HTTP/1.1 200 OK\r\nContent-Length: +1\r\n\r\nx",
        "HTTP/1.1 200 OK\r\nTransfer-Encoding: gzip\r\n\r\nx",
        "HTTP/1.1 200 OK\r\n Folded: value\r\nContent-Length: 0\r\n\r\n",
        "HTTP/1.1 200 OK\nContent-Length: 0\n\n",
        "HTTP/2 200 OK\r\nContent-Length: 0\r\n\r\n",
        "HTTP/1.1 099 Invalid\r\nContent-Length: 0\r\n\r\n",
        "HTTP/1.1 600 Invalid\r\nContent-Length: 0\r\n\r\n",
        "HTTP/1.1 200 OK\r\nConnection: keep-alive\r\n\r\n",
        "HTTP/1.1 204 No Content\r\nContent-Length: 1\r\n\r\nx",
        "HTTP/1.1 200 OK\r\nContent-Encoding: gzip\r\nContent-Length: 1\r\n\r\nx",
    ] {
        let error = failure(read_ended(raw.as_bytes(), 1024));
        assert_provider_code(&error, "mcp_http_framing_invalid");
    }
}

#[test]
fn http_framing_rejects_incomplete_or_malformed_bodies() {
    for (raw, expected_code) in [
        (
            "HTTP/1.1 200 OK\r\nContent-Length: 4\r\n\r\nxx",
            "mcp_http_body_incomplete",
        ),
        (
            "HTTP/1.1 200 OK\r\nTransfer-Encoding: chunked\r\n\r\nnot-hex\r\n",
            "mcp_http_framing_invalid",
        ),
        (
            "HTTP/1.1 200 OK\r\nTransfer-Encoding: chunked\r\n\r\n1\r\nxXX",
            "mcp_http_framing_invalid",
        ),
        (
            "HTTP/1.1 200 OK\r\nTransfer-Encoding: chunked\r\n\r\n0\r\nContent-Length: 0\r\n\r\n",
            "mcp_http_framing_invalid",
        ),
    ] {
        let error = failure(read_ended(raw.as_bytes(), 1024));
        assert_provider_code(&error, expected_code);
    }
}

#[test]
fn http_framing_enforces_header_and_decoded_body_limits_before_waiting() {
    let fixed = b"HTTP/1.1 200 OK\r\nContent-Type: application/json\r\nContent-Length: 99\r\nConnection: keep-alive\r\n\r\n";
    let response = read_fragmented(fixed, 8, false).unwrap();
    assert!(response.body_truncated);

    let chunked = b"HTTP/1.1 200 OK\r\nContent-Type: application/json\r\nTransfer-Encoding: chunked\r\nConnection: keep-alive\r\n\r\n9\r\n";
    let response = read_fragmented(chunked, 8, false).unwrap();
    assert!(response.body_truncated);

    let oversized_header = format!(
        "HTTP/1.1 200 OK\r\nX-Oversized: {}\r\nContent-Length: 0\r\n\r\n",
        "x".repeat(HTTP_HEADER_LIMIT_BYTES)
    );
    let error = failure(read_ended(oversized_header.as_bytes(), 8));
    assert_provider_code(&error, "mcp_http_headers_too_large");
}

#[test]
fn streamable_http_session_header_is_bounded_visible_ascii() {
    let valid = b"HTTP/1.1 204 No Content\r\nMcp-Session-Id: opaque.123_-~\r\nConnection: keep-alive\r\n\r\n";
    let response = read_fragmented(valid, 1024, false).unwrap();
    assert_eq!(response.session_id.as_deref(), Some("opaque.123_-~"));

    let oversized = "x".repeat(MCP_SESSION_ID_LIMIT_BYTES + 1);
    for raw in [
        "HTTP/1.1 204 No Content\r\nMcp-Session-Id:\r\n\r\n".to_owned(),
        "HTTP/1.1 204 No Content\r\nMcp-Session-Id: has space\r\n\r\n".to_owned(),
        "HTTP/1.1 204 No Content\r\nMcp-Session-Id: first\r\nMcp-Session-Id: second\r\n\r\n"
            .to_owned(),
        format!("HTTP/1.1 204 No Content\r\nMcp-Session-Id: {oversized}\r\n\r\n"),
    ] {
        let error = failure(read_ended(raw.as_bytes(), 1024));
        assert_provider_code(&error, "mcp_http_framing_invalid");
    }
}

#[test]
fn close_delimited_bodies_end_with_the_stream() {
    let raw = b"HTTP/1.0 200 OK\r\nContent-Type: application/json\r\n\r\nabc";
    assert!(matches!(
        read_http_json_rpc_response(raw, false, 1024, false),
        Progress::Wait
    ));
    let response = read_ended(raw, 1024).unwrap();
    assert_eq!(response.body, b"abc");
    assert!(read_ended(raw, 2).unwrap().body_truncated);
}

#[test]
fn header_values_that_are_no_text_are_replaced() {
    let response = read_ended(b"HTTP/1.1 204 N\r\nX-A: \xff\r\n\r\n", 8).unwrap();
    assert_eq!(response.status_code, 204);
    let response = read_ended(
        b"HTTP/1.1 200 N\r\nContent-Type: a/\xff\r\nContent-Length: 0\r\n\r\n",
        8,
    )
    .unwrap();
    assert_eq!(response.content_type.as_deref(), Some("a/\u{fffd}"));
    let error = failure(read_ended(b"HTTP/1.1 204 N\r\nMcp-Session-Id: a\xff\r\n\r\n", 8));
    assert_provider_code(&error, "mcp_http_framing_invalid");
}

#[test]
fn chunk_sizes_are_hexadecimal() {
    assert_eq!(parse_http_chunk_size(b"1aF").ok(), Some(0x1af));
    assert_eq!(parse_http_chunk_size(b"10;name=value").ok(), Some(16));
    assert!(parse_http_chunk_size(b"").is_err());
    assert!(parse_http_chunk_size(b"-1").is_err());
    assert!(parse_http_chunk_size(b"fffffffffffffffff").is_err());
}

// ---------------------------------------------------------------------------
// Event streams
// ---------------------------------------------------------------------------

/// The messages of an event stream whose bytes arrive one by one on a
/// connection that stays open.
fn read_messages(framing: HttpBodyFraming, bytes: &[u8]) -> Vec<String> {
    let mut source = HttpSseSource::new(framing);
    let mut text = Vec::new();
    let mut at = 0;
    for arrived in 0..=bytes.len() {
        loop {
            let pulled = source.read_sse(&bytes[..arrived], at, false, 64);
            at = pulled.next;
            match pulled.data {
                Progress::Ready(data) => {
                    if data.is_empty() {
                        break;
                    }
                    text.extend_from_slice(&data);
                }
                Progress::Wait => break,
                Progress::Fail(fault) => panic!("{:?}", fault.to_error("http://sse.test")),
            }
        }
    }
    String::from_utf8(text)
        .unwrap()
        .split("\n\n")
        .filter_map(|event| event.strip_prefix("data: ").map(str::to_owned))
        .collect()
}

#[test]
fn sse_http_body_framings_return_matching_events_without_terminal_eof() {
    let payload = format!("data: {}\n\n", response(7, "true"));

    let first = &payload[..9];
    let second = &payload[9..payload.len() - 3];
    let third = &payload[payload.len() - 3..];
    let chunked = format!(
        "{:x}\r\n{first}\r\n{:x}\r\n{second}\r\n{:x}\r\n{third}\r\n",
        first.len(),
        second.len(),
        third.len()
    );
    for messages in [
        read_messages(HttpBodyFraming::ContentLength(payload.len()), payload.as_bytes()),
        read_messages(HttpBodyFraming::CloseDelimited, payload.as_bytes()),
        read_messages(HttpBodyFraming::Chunked, chunked.as_bytes()),
    ] {
        assert_eq!(messages.len(), 1);
        let envelope = parse_sse_json_rpc_envelope(&messages[0]).ok().unwrap();
        assert_eq!(envelope.kind, McpJsonRpcMessageKind::Response);
        assert!(envelope.request_id == Some(McpJsonRpcMessageId::Number(7)));
    }
}

/// The first message that answers the request.
fn answer_among(messages: Vec<String>, id: u64) -> Result<String, EvaError> {
    messages
        .into_iter()
        .find(|message| {
            let envelope = parse_sse_json_rpc_envelope(message).ok().unwrap();
            envelope.kind == McpJsonRpcMessageKind::Response
                && envelope.request_id == Some(McpJsonRpcMessageId::Number(id))
        })
        .ok_or_else(|| EvaError::unavailable("the stream holds no answer"))
}

#[test]
fn http_exchange_payload_correlates_sse_and_rejects_status_before_body_read() {
    let payload = [
        "data: {\"jsonrpc\":\"2.0\",\"method\":\"notice\"}\n\n".to_owned(),
        format!("data: {}\n\n", response(8, "true")),
    ]
    .concat();
    let messages = read_messages(HttpBodyFraming::CloseDelimited, payload.as_bytes());
    let metadata = plain(200, Some("text/event-stream"), "", None);
    check_stream_reply(&metadata, 8).unwrap();
    let text = decode_http_exchange_payload(
        HttpExchangeResponse::EventStream { metadata, message: answer_among(messages, 8) },
        8,
        1024,
    )
    .unwrap();
    assert_eq!(text, response(8, "true"));

    let metadata = plain(503, Some("text/event-stream"), "", None);
    assert_provider_code(&check_stream_reply(&metadata, 9).unwrap_err(), "mcp_http_status");
    let error = decode_http_exchange_payload(
        HttpExchangeResponse::EventStream {
            metadata,
            message: Err(EvaError::internal("the body was read")),
        },
        9,
        1024,
    )
    .unwrap_err();
    assert_provider_code(&error, "mcp_http_status");
}

#[test]
fn ended_event_streams_are_told_from_waiting_ones() {
    let mut source = HttpSseSource::new(HttpBodyFraming::ContentLength(4));
    let pulled = source.read_sse(b"ab", 0, false, 8);
    assert!(matches!(&pulled.data, Progress::Ready(data) if data == b"ab"));
    let pulled = source.read_sse(b"ab", 2, true, 8);
    match pulled.data {
        Progress::Fail(fault) => {
            assert_provider_code(&fault.to_error("http://sse.test"), "mcp_http_body_incomplete")
        }
        _ => panic!("the body is not complete"),
    }
    let mut source = HttpSseSource::new(HttpBodyFraming::CloseDelimited);
    let pulled = source.read_sse(b"", 0, true, 8);
    assert!(matches!(&pulled.data, Progress::Ready(data) if data.is_empty()));
    let mut source = HttpSseSource::new(HttpBodyFraming::Chunked);
    let body = b"2\r\nab\r\n0\r\n\r\n";
    let first = source.read_sse(body, 0, false, 1);
    assert!(matches!(&first.data, Progress::Ready(data) if data == b"a"));
    let second = source.read_sse(body, first.next, false, 8);
    assert!(matches!(&second.data, Progress::Ready(data) if data == b"b"));
    let last = source.read_sse(body, second.next, false, 8);
    assert!(matches!(&last.data, Progress::Ready(data) if data.is_empty()));
    assert_eq!(last.next, body.len());
}

// ---------------------------------------------------------------------------
// Replies
// ---------------------------------------------------------------------------

#[test]
fn http_response_semantics_require_json_for_nonempty_bodies() {
    let valid = HttpJsonRpcResponse {
        status_code: 200,
        content_type: Some("application/json".to_owned()),
        body: br#"{"jsonrpc":"2.0","id":1,"result":{}}"#.to_vec(),
        body_truncated: false,
        session_id: None,
    };
    assert!(decode_http_exchange_response(&valid, 1, 1024).is_ok());

    let missing = HttpJsonRpcResponse { content_type: None, ..valid.clone() };
    assert_provider_code(
        &decode_http_exchange_response(&missing, 1, 1024).unwrap_err(),
        "mcp_http_content_type_missing",
    );

    let unsupported =
        HttpJsonRpcResponse { content_type: Some("text/plain".to_owned()), ..valid };
    assert_provider_code(
        &decode_http_exchange_response(&unsupported, 1, 1024).unwrap_err(),
        "mcp_http_content_type_unsupported",
    );

    let truncated_notification = HttpJsonRpcResponse {
        status_code: 202,
        content_type: None,
        body: Vec::new(),
        body_truncated: true,
        session_id: None,
    };
    assert_provider_code(
        &validate_http_notification_response(&truncated_notification, 8).unwrap_err(),
        "mcp_response_too_large",
    );
}

#[test]
fn bodies_that_are_no_text_are_named() {
    let mut reply = plain(200, Some("application/json"), "", None);
    reply.body = vec![0xff];
    let error = decode_http_exchange_response(&reply, 1, 1024).unwrap_err();
    assert_provider_code(&error, "mcp_protocol_error");
    assert!(error.context_len() > 0, "{error:?}");
}

#[test]
fn streamable_http_response_shapes_are_protocol_exact() {
    for status in [200, 204] {
        let response = plain(status, None, "", None);
        assert_provider_code(
            &validate_http_notification_response(&response, 1024).unwrap_err(),
            "mcp_http_status",
        );
    }
    let notification_body = plain(202, Some("application/json"), "{}", None);
    assert_provider_code(
        &validate_http_notification_response(&notification_body, 1024).unwrap_err(),
        "mcp_http_notification_body_unexpected",
    );

    for (status, content_type, expected_code) in [
        (204, Some("text/event-stream"), "mcp_http_status"),
        (200, Some("application/json"), "mcp_http_content_type_unsupported"),
        (200, None, "mcp_http_content_type_missing"),
        (405, None, "mcp_http_sse_unsupported"),
    ] {
        let response = plain(status, content_type, "", None);
        assert_provider_code(
            &decode_http_event_stream_response(response, 1024).unwrap_err(),
            expected_code,
        );
    }
    let event_stream = plain(200, Some("text/event-stream"), ": ping\n\n", None);
    assert_eq!(decode_http_event_stream_response(event_stream, 1024).unwrap(), b": ping\n\n");
}

// ---------------------------------------------------------------------------
// Requests
// ---------------------------------------------------------------------------

fn url(text: &str) -> ParsedHttpUrl {
    ParsedHttpUrl::parse(text, None).ok().unwrap()
}

/// Headers by their names.
fn named(headers: &[(String, String)]) -> NameMap<String> {
    let mut map = NameMap::new();
    for (name, value) in headers {
        map.insert(name.clone(), value.clone());
    }
    map
}

fn pair(name: &str, value: &str) -> (String, String) {
    (name.to_owned(), value.to_owned())
}

#[test]
fn http_transport_rejects_reserved_and_injected_headers() {
    for header in [
        "Host",
        "content-length",
        "Transfer-Encoding",
        "Connection",
        "Content-Type",
        "Accept",
        "Mcp-Session-Id",
        "MCP-Protocol-Version",
    ] {
        assert!(validate_http_header(header, "controlled").is_err(), "{header}");
    }
    assert!(validate_http_header("X-Custom", "ok").is_ok());
    assert!(validate_http_header("X-Custom", "one\ttwo").is_ok());
    assert!(validate_http_header("X-Custom", "ok\r\nInjected: true").is_err());
    assert!(validate_http_header("X-Custom", "bad\0value").is_err());
    assert!(validate_http_header("X-Custom", "bad\u{7f}value").is_err());

    let duplicate_headers = vec![pair("X-Token", "first"), pair("x-token", "second")];
    assert!(validate_headers(&duplicate_headers).is_err());
    assert!(
        McpHttpJsonRpcTransport::new(
            url("http://127.0.0.1/mcp"),
            &named(&duplicate_headers),
            false
        )
        .is_err()
    );

    let error = McpHttpJsonRpcTransport::new(
        url("https://example.test/mcp"),
        &named(&[pair("Host", "attacker.test")]),
        false,
    )
    .err()
    .unwrap();
    assert!(error.message().contains("controlled by the transport"));
    assert_ne!(error.provider_code(), Some("mcp_tls_project_root_required"));

    let client = client(&["list_issues"])
        .with_config(McpJsonRpcClientConfig::new().with_request_timeout_ms(0));
    let error = client.check_call("list_issues").unwrap_err();
    assert!(error.message().contains("timeout must be greater than zero"));
    assert_ne!(error.provider_code(), Some("mcp_tls_project_root_required"));
}

#[test]
fn places_are_read_and_written_exactly() {
    let place = url("http://Example.test:8080/a/b?c");
    assert_eq!(place.port, 8080);
    let head = http_request_head(
        &place,
        "POST",
        "application/json",
        "{}",
        &vec![pair("X-A", "1")],
        &vec![pair("Mcp-Session-Id", "s")],
    )
    .unwrap();
    assert!(head.starts_with("POST /a/b?c HTTP/1.1\r\nHost: "), "{head}");
    assert!(head.contains("Content-Length: 2\r\n"));
    assert!(head.ends_with("\r\n\r\n"));
    for text in [
        "no-scheme",
        "http://",
        "http:///path",
        "http://a:0/",
        "http://a:65536/",
        "http://a:/",
        "http://u@a/",
        "http://::1/",
        "http://[x]/",
    ] {
        assert!(ParsedHttpUrl::parse(text, None).is_err(), "{text}");
    }
    assert_eq!(ParsedHttpUrl::ipv6_part("http://[0:0::1]:80/p").as_deref(), Some("0:0::1"));
    let six = ParsedHttpUrl::parse("http://[0:0::1]/p", Some("::1".to_owned())).ok().unwrap();
    assert_eq!((six.host.as_str(), six.port, six.path.as_str()), ("::1", 80, "/p"));
    let bare = url("https://a?b");
    assert_eq!((bare.path.as_str(), bare.port, bare.origin.as_str()), ("/?b", 443, "https://a"));
    assert_eq!(parse_http_port("65535").ok(), Some(65535));
    assert!(parse_http_port("").is_err());
}

// ---------------------------------------------------------------------------
// Sessions
// ---------------------------------------------------------------------------

/// A client session whose server is a list of responses.
struct Wire {
    transport: McpHttpJsonRpcTransport,
    replies: Vec<String>,
    requests: Vec<String>,
}

impl Wire {
    fn new(headers: Vec<(String, String)>, replies: Vec<String>) -> Self {
        Self {
            transport: McpHttpJsonRpcTransport::new(
                url("http://127.0.0.1:8123/mcp"),
                &named(&headers),
                false,
            )
            .ok()
            .unwrap(),
            replies,
            requests: Vec::new(),
        }
    }

    /// A session in which everything has been agreed on.
    fn ready(session_id: Option<&str>, replies: Vec<String>) -> Self {
        let agreed = response(1, "{\"protocolVersion\":\"2025-11-25\"}");
        let mut wire = Self::new(
            Vec::new(),
            match session_id {
                Some(id) => vec![
                    http_response_with_session(200, &agreed, id),
                    http_response_with_session(202, "", id),
                ],
                None => vec![http_response(200, &agreed), http_response(202, "")],
            },
        );
        wire.open().unwrap();
        wire.requests.clear();
        wire.replies = replies;
        wire
    }

    fn open(&mut self) -> Result<(), EvaError> {
        self.post(1, &initialize_request(1, &McpJsonRpcClientConfig::new()))?;
        self.tell(&initialized_notification())
    }

    fn send(
        &mut self,
        method: &str,
        accept: &str,
        body: &str,
        session: &Vec<(String, String)>,
    ) -> String {
        let mut request =
            http_request_head(self.transport.endpoint(), method, accept, body, self.transport.headers(), session)
                .unwrap();
        request.push_str(body);
        self.requests.push(request);
        assert!(!self.replies.is_empty(), "nothing more should be sent");
        self.replies.remove(0)
    }

    fn post(&mut self, id: u64, body: &str) -> Result<String, EvaError> {
        let plan = self.transport.begin_exchange(body, 1024)?;
        let accept = "application/json, text/event-stream";
        let raw = self.send("POST", accept, body, &plan.session_headers);
        let reply = read_fragmented(raw.as_bytes(), 1024, false)?;
        let opening = plan.initialize;
        let outcome =
            self.transport.finish_exchange(plan, HttpExchangeResponse::Buffered(reply), id, 1024);
        match outcome {
            Err(error) if opening => {
                let cleanup = self.shutdown();
                Err(attach_cleanup(error, cleanup))
            }
            other => other,
        }
    }

    fn tell(&mut self, body: &str) -> Result<(), EvaError> {
        let (initialized, headers) = self.transport.begin_notify(body, 1024)?;
        let raw = self.send("POST", "application/json, text/event-stream", body, &headers);
        let reply = read_fragmented(raw.as_bytes(), 1024, true)?;
        self.transport.finish_notify(initialized, &reply, 1024)
    }

    fn get(&mut self) -> Result<Vec<u8>, EvaError> {
        let headers = self.transport.begin_stream(1024)?;
        let raw = self.send("GET", "text/event-stream", "", &headers);
        let reply = read_fragmented(raw.as_bytes(), 1024, false)?;
        self.transport.get(reply, 1024)
    }

    fn shutdown(&mut self) -> Result<(), EvaError> {
        match self.transport.begin_shutdown(1024)? {
            ShutdownPlan::Closed => Ok(()),
            ShutdownPlan::Delete(headers) => {
                let raw = self.send("DELETE", "application/json", "", &headers);
                let reply = read_fragmented(raw.as_bytes(), 1024, true)?;
                self.transport.shutdown_session(&reply, 1024)
            }
        }
    }

    /// The identifier that the end of the session would send.
    fn kept_session_id(&mut self) -> Option<String> {
        match self.transport.begin_shutdown(1024) {
            Ok(ShutdownPlan::Delete(headers)) => headers
                .iter()
                .find(|(name, _)| name == "Mcp-Session-Id")
                .map(|(_, value)| value.clone()),
            _ => None,
        }
    }

    fn call(mut self, tool: &str, input: &str) -> (Result<McpJsonRpcCallReport, EvaError>, Wire) {
        let call = client(&["list_issues"]).call_tool_with_transport(
            &mut self,
            RequestId::new("req-mcp-http"),
            tool,
            input,
        );
        let had_session = self.transport.session_id().is_some();
        let shutdown = self.shutdown();
        let entry = self.transport.session_shutdown_audit();
        (finish_http_call(call, shutdown, had_session, &entry), self)
    }
}

impl McpJsonRpcTransport for Wire {
    fn exchange(
        &mut self,
        expected_id: u64,
        request: &str,
        _timeout_ms: u64,
        _output_limit_bytes: usize,
    ) -> Result<String, EvaError> {
        self.post(expected_id, request)
    }

    fn notify(
        &mut self,
        notification: &str,
        _timeout_ms: u64,
        _output_limit_bytes: usize,
    ) -> Result<(), EvaError> {
        self.tell(notification)
    }

    fn audit(&self) -> Vec<String> {
        self.transport.audit()
    }
}

fn client(tools: &[&str]) -> McpJsonRpcClient {
    McpJsonRpcClient::new(AdapterId::new("github-mcp"), McpAllowlist::from_tools(tools).unwrap())
}

const LISTED: &str =
    "{\"tools\":[{\"name\":\"list_issues\",\"inputSchema\":{\"type\":\"object\"}}]}";

#[test]
fn json_rpc_client_calls_fake_http_mcp_server_with_auth_header() {
    let wire = Wire::new(
        vec![pair("Authorization", "Bearer test-token")],
        vec![
            http_response(
                200,
                &response(1, "{\"protocolVersion\":\"2025-11-25\",\"capabilities\":{},\"serverInfo\":{\"name\":\"fake-http\",\"version\":\"1\"}}"),
            ),
            http_response(202, ""),
            http_response(200, &response(2, LISTED)),
            http_response(
                200,
                &response(3, "{\"content\":[{\"type\":\"text\",\"text\":\"ok\"}],\"isError\":false}"),
            ),
        ],
    );
    let (report, wire) = wire.call("list_issues", "{\"owner\":\"eva\"}");
    let report = report.ok().unwrap();

    assert_eq!(report.tool, "list_issues");
    assert!(report.audit.contains(&"mcp.http.exchange_count:3".to_owned()));
    assert!(report.audit.contains(&"mcp.http.notification_count:1".to_owned()));
    let requests = &wire.requests;
    assert_eq!(requests.len(), 4);
    assert!(requests
        .iter()
        .all(|request| request.contains("Authorization: Bearer test-token")));
    assert!(requests
        .iter()
        .any(|request| request.contains("\"method\":\"tools/call\"")));
    assert!(!requests[0].contains("MCP-Protocol-Version:"));
    assert!(requests[1..]
        .iter()
        .all(|request| request.contains("MCP-Protocol-Version: 2025-11-25\r\n")));
    assert!(requests.iter().all(|request| !request.contains("Mcp-Session-Id:")));
}

#[test]
fn streamable_http_session_propagates_headers_and_deletes() {
    let wire = Wire::new(
        Vec::new(),
        vec![
            http_response_with_session(
                200,
                &response(1, "{\"protocolVersion\":\"2025-11-25\",\"capabilities\":{},\"serverInfo\":{\"name\":\"session-fake\",\"version\":\"1\"}}"),
                "session-opaque-1",
            ),
            http_response_with_session(202, "", "session-opaque-1"),
            http_response_with_session(200, &response(2, LISTED), "session-opaque-1"),
            http_response_with_session(
                200,
                &response(3, "{\"content\":[{\"type\":\"text\",\"text\":\"session-ok\"}],\"isError\":false}"),
                "session-opaque-1",
            ),
            "HTTP/1.1 204 No Content\r\nMcp-Session-Id: session-opaque-1\r\nConnection: close\r\n\r\n".to_owned(),
        ],
    );
    let (report, wire) = wire.call("list_issues", "{}");
    let report = report.ok().unwrap();

    let requests = &wire.requests;
    assert_eq!(requests.len(), 5);
    assert!(requests[0].starts_with("POST /mcp HTTP/1.1\r\n"));
    assert!(!requests[0].contains("Mcp-Session-Id:"));
    assert!(!requests[0].contains("MCP-Protocol-Version:"));
    for request in &requests[1..] {
        assert!(request.contains("Mcp-Session-Id: session-opaque-1\r\n"));
        assert!(request.contains("MCP-Protocol-Version: 2025-11-25\r\n"));
    }
    assert!(requests[4].starts_with("DELETE /mcp HTTP/1.1\r\n"));
    assert!(!requests[4].contains("Content-Type:"));
    assert!(!requests[4].contains("Content-Length:"));
    assert!(report.audit.contains(&"mcp.http:session_deleted".to_owned()));
    assert!(!report.describe().contains("session-opaque-1"));
    assert!(report.describe().contains("output: [REDACTED_OUTPUT]"));
    assert!(!report.audit.iter().any(|entry| entry.contains("session-opaque-1")));
}

#[test]
fn streamable_http_protocol_error_still_deletes_original_session() {
    let wire = Wire::new(
        Vec::new(),
        vec![
            http_response_with_session(
                200,
                &response(1, "{\"protocolVersion\":\"2025-11-25\"}"),
                "original-session",
            ),
            http_response_with_session(202, "", "rotated-session"),
            "HTTP/1.1 204 No Content\r\nMcp-Session-Id: original-session\r\nConnection: close\r\n\r\n".to_owned(),
        ],
    );
    let (outcome, wire) = wire.call("list_issues", "{}");
    let error = outcome.err().unwrap();

    assert_provider_code(&error, "mcp_http_session_id_mismatch");
    let requests = &wire.requests;
    assert_eq!(requests.len(), 3);
    assert!(requests[2].starts_with("DELETE /mcp HTTP/1.1\r\n"));
    assert!(requests[2].contains("Mcp-Session-Id: original-session\r\n"));
    assert!(!requests[2].contains("rotated-session"));
}

#[test]
fn streamable_http_get_uses_negotiated_session_headers() {
    let mut wire = Wire::new(
        Vec::new(),
        vec![
            http_response_with_session(
                200,
                &response(1, "{\"protocolVersion\":\"2025-11-25\"}"),
                "get-session",
            ),
            http_response_with_session(202, "", "get-session"),
            "HTTP/1.1 200 OK\r\nMcp-Session-Id: get-session\r\nContent-Type: text/event-stream; charset=utf-8\r\nContent-Length: 8\r\nConnection: close\r\n\r\n: ping\n\n".to_owned(),
        ],
    );
    wire.open().unwrap();
    assert_eq!(wire.get().unwrap(), b": ping\n\n");

    let (initialize, initialized, get) =
        (&wire.requests[0], &wire.requests[1], &wire.requests[2]);
    assert!(!initialize.contains("Mcp-Session-Id:"));
    assert!(initialized.contains("notifications/initialized"));
    assert!(get.starts_with("GET /mcp HTTP/1.1\r\n"));
    assert!(get.contains("Accept: text/event-stream\r\n"));
    assert!(get.contains("Mcp-Session-Id: get-session\r\n"));
    assert!(get.contains("MCP-Protocol-Version: 2025-11-25\r\n"));
    assert!(!get.contains("Content-Type:"));
    assert!(!get.contains("Content-Length:"));
}

#[test]
fn streamable_http_open_event_stream_is_chunked_and_session_bound() {
    let mut wire = Wire::ready(Some("stream-session-secret"), Vec::new());
    let payload = format!("data: {}\n\n", response(7, "true"));
    let (first, second) = (&payload[..11], &payload[11..]);
    let mut body = "8\r\n: ping\n\n\r\n".repeat(4);
    body.push_str(&format!("{:x}\r\n{first}\r\n{:x}\r\n{second}\r\n", first.len(), second.len()));

    let headers = wire.transport.begin_stream(1024).unwrap();
    wire.replies = vec![String::new()];
    wire.send("GET", "text/event-stream", "", &headers);
    let head = plain(200, Some("text/event-stream"), "", Some("stream-session-secret"));
    wire.transport.open_event_stream(&head).unwrap();
    let messages = read_messages(HttpBodyFraming::Chunked, body.as_bytes());
    let answer = answer_among(messages, 7).unwrap();
    assert!(
        parse_sse_json_rpc_envelope(&answer).ok().unwrap().request_id
            == Some(McpJsonRpcMessageId::Number(7))
    );

    let get = &wire.requests[0];
    assert!(get.starts_with("GET /mcp HTTP/1.1\r\n"));
    assert!(get.contains("Accept: text/event-stream\r\n"));
    assert!(get.contains("Mcp-Session-Id: stream-session-secret\r\n"));
    assert!(get.contains("MCP-Protocol-Version: 2025-11-25\r\n"));
    assert!(!wire.transport.describe().contains("stream-session-secret"));
    assert!(!wire
        .transport
        .audit()
        .iter()
        .any(|entry| entry.contains("stream-session-secret")));
}

#[test]
fn headers_of_a_caller_are_sent_in_name_order() {
    let headers = vec![pair("X-B", "2"), pair("Authorization", "1"), pair("X-A", "3")];
    let wire = Wire::new(headers, Vec::new());
    assert_eq!(
        wire.transport.headers(),
        &vec![pair("Authorization", "1"), pair("X-A", "3"), pair("X-B", "2")]
    );
    let error = McpHttpJsonRpcTransport::new(
        url("http://127.0.0.1/mcp"),
        &named(&[pair("Z", "bad\0value"), pair("Accept", "controlled")]),
        false,
    )
    .err()
    .unwrap();
    assert!(error.message().contains("controlled by the transport"));
}

#[test]
fn responses_are_not_read_without_room_for_a_body() {
    match read_http_json_rpc_response(b"HTTP/1.1 204 No Content\r\n\r\n", true, 0, false) {
        Progress::Fail(fault) => {
            let error = fault.to_error("http://127.0.0.1");
            assert_eq!(error.kind(), ErrorKind::InvalidArgument);
            assert_eq!(
                error.message(),
                "MCP HTTP response output limit must be greater than zero"
            );
        }
        _ => panic!("a limit of zero is refused"),
    }
}

#[test]
fn defaults_are_what_new_gives() {
    assert_eq!(McpJsonRpcClientConfig::default(), McpJsonRpcClientConfig::new());
    assert_eq!(McpAllowlist::default(), McpAllowlist::new());
    assert_eq!(McpJsonRpcClientConfig::default().client_name, "eva-mcp");
}

#[test]
fn sessions_are_described_without_their_secrets() {
    let headers = vec![pair("Authorization", "Bearer secret"), pair("X-B", "other")];
    let wire = Wire::new(headers, Vec::new());
    assert_eq!(
        wire.transport.describe(),
        "McpHttpJsonRpcTransport { endpoint_present: true, header_names: [Authorization, X-B], header_count: 2, audit_count: 5, exchange_count: 0, notification_count: 0, session_present: false, protocol_version_present: false, session_closed: false, initialized_notification_sent: false }"
    );
    assert_eq!(McpJsonRpcMessageId::from(7_u64).describe(), "Number(<redacted>)");
    assert_eq!(McpJsonRpcMessageId::from("secret".to_owned()).describe(), "String(<redacted>)");
}

#[test]
fn streamable_http_post_event_stream_retains_interleaved_peer_messages() {
    let mut wire = Wire::ready(Some("post-stream-session"), vec![String::new()]);
    let body = [
        "data: {\"jsonrpc\":\"2.0\",\"method\":\"notice\"}\n\n".to_owned(),
        "data: {\"jsonrpc\":\"2.0\",\"id\":2,\"method\":\"ping\"}\n\n".to_owned(),
        format!("data: {}\n\n", response(2, "true")),
    ]
    .concat();
    let request = "{\"jsonrpc\":\"2.0\",\"id\":2,\"method\":\"tools/list\"}";
    let headers = wire.transport.begin_post_stream(2, request, 2048).unwrap();
    wire.send("POST", "application/json, text/event-stream", request, &headers);
    let head = plain(200, Some("text/event-stream"), "", Some("post-stream-session"));
    wire.transport.post_event_stream(&head, 2).unwrap();
    let kinds = read_messages(HttpBodyFraming::ContentLength(body.len()), body.as_bytes())
        .iter()
        .map(|message| parse_sse_json_rpc_envelope(message).ok().unwrap().kind)
        .collect::<Vec<_>>();
    assert_eq!(
        kinds,
        vec![
            McpJsonRpcMessageKind::Notification,
            McpJsonRpcMessageKind::Request,
            McpJsonRpcMessageKind::Response,
        ]
    );
    assert!(wire.transport.begin_post_stream(3, request, 2048).is_err());

    let post = &wire.requests[0];
    assert!(post.starts_with("POST /mcp HTTP/1.1\r\n"));
    assert!(post.contains("Accept: application/json, text/event-stream\r\n"));
    assert!(post.contains("Mcp-Session-Id: post-stream-session\r\n"));
    assert!(post.contains("MCP-Protocol-Version: 2025-11-25\r\n"));
}

fn opening_plan() -> ExchangePlan {
    ExchangePlan {
        initialize: true,
        requested_protocol: DEFAULT_PROTOCOL_VERSION.to_owned(),
        session_headers: Vec::new(),
    }
}

#[test]
fn streamable_http_protocol_and_session_changes_fail_closed() {
    for (result, expected_code) in [
        ("{}", "mcp_protocol_version_missing"),
        ("{\"protocolVersion\":\"2024-11-05\"}", "mcp_protocol_version_mismatch"),
        ("{\"protocolVersion\":\"bad version\"}", "mcp_protocol_version_invalid"),
    ] {
        let reply = plain(
            200,
            Some("application/json"),
            &response(1, result),
            Some("must-not-be-retained"),
        );
        let mut wire = Wire::new(Vec::new(), Vec::new());
        let error = wire
            .transport
            .finish_exchange(opening_plan(), HttpExchangeResponse::Buffered(reply), 1, 1024)
            .unwrap_err();
        assert_provider_code(&error, expected_code);
        assert!(wire.transport.session_id().is_none());
        assert!(wire.transport.negotiated_protocol_version().is_none());
        assert!(wire.transport.is_closed());
        assert_eq!(wire.kept_session_id().as_deref(), Some("must-not-be-retained"));
    }

    let mut wire = Wire::ready(
        Some("expected-session"),
        vec![http_response_with_session(202, "", "rotated-session")],
    );
    let error = wire
        .tell("{\"jsonrpc\":\"2.0\",\"method\":\"notifications/progress\",\"params\":{}}")
        .unwrap_err();
    assert_provider_code(&error, "mcp_http_session_id_mismatch");
    assert!(wire.transport.is_closed());
    assert_eq!(wire.kept_session_id().as_deref(), Some("expected-session"));
    let shown = wire.transport.describe();
    assert!(shown.contains("session_present: true"));
    assert!(!shown.contains("expected-session"));
    assert!(!shown.contains("rotated-session"));
}

#[test]
fn streamable_http_session_bound_404_invalidates_post_and_notification() {
    for (request_kind, response_session) in [
        ("post", None),
        ("post", Some("different-session")),
        ("notification", None),
    ] {
        let session_header = response_session
            .map(|value| format!("Mcp-Session-Id: {value}\r\n"))
            .unwrap_or_default();
        let reply = format!(
            "HTTP/1.1 404 Not Found\r\n{session_header}Content-Length: 0\r\nConnection: close\r\n\r\n"
        );
        let mut wire = Wire::ready(Some("known-session"), vec![reply]);
        let error = if request_kind == "post" {
            wire.post(2, "{\"jsonrpc\":\"2.0\",\"id\":2,\"method\":\"tools/list\",\"params\":{}}")
                .unwrap_err()
        } else {
            wire.tell("{\"jsonrpc\":\"2.0\",\"method\":\"notifications/progress\",\"params\":{}}")
                .unwrap_err()
        };

        assert_provider_code(&error, "mcp_http_session_not_found");
        assert!(wire.transport.is_closed());
        assert!(wire.kept_session_id().is_none());
        assert!(wire.transport.negotiated_protocol_version().is_none());
        assert!(wire.requests[0].contains("Mcp-Session-Id: known-session\r\n"));
    }
}

#[test]
fn streamable_http_session_mismatch_blocks_followup_before_network_io() {
    let mut wire = Wire::ready(
        Some("trusted-session"),
        vec![http_response_with_session(202, "", "rotated-session")],
    );
    assert_provider_code(
        &wire
            .tell("{\"jsonrpc\":\"2.0\",\"method\":\"notifications/progress\",\"params\":{}}")
            .unwrap_err(),
        "mcp_http_session_id_mismatch",
    );

    let sent = wire.requests.len();
    let followup = wire
        .post(2, "{\"jsonrpc\":\"2.0\",\"id\":2,\"method\":\"tools/list\",\"params\":{}}")
        .unwrap_err();
    assert_provider_code(&followup, "mcp_http_session_closed");
    assert_eq!(wire.kept_session_id().as_deref(), Some("trusted-session"));
    assert_eq!(wire.requests.len(), sent);
}

#[test]
fn streamable_http_initialize_fields_must_be_direct_object_members() {
    let missing_method = Wire::new(Vec::new(), Vec::new());
    let error = missing_method
        .transport
        .begin_exchange(
            "{\"jsonrpc\":\"2.0\",\"id\":1,\"params\":{\"method\":\"initialize\",\"protocolVersion\":\"2025-11-25\"}}",
            1024,
        )
        .err()
        .unwrap();
    assert_provider_code(&error, "mcp_protocol_error");

    let nested_version = Wire::new(Vec::new(), Vec::new());
    let error = nested_version
        .transport
        .begin_exchange(
            "{\"jsonrpc\":\"2.0\",\"id\":1,\"method\":\"initialize\",\"params\":{\"nested\":{\"protocolVersion\":\"2025-11-25\"}}}",
            1024,
        )
        .err()
        .unwrap();
    assert_provider_code(&error, "mcp_protocol_version_missing");

    let nested_result = plain(
        200,
        Some("application/json"),
        &response(1, "{\"serverInfo\":{\"protocolVersion\":\"2025-11-25\"}}"),
        None,
    );
    let mut wire = Wire::new(Vec::new(), Vec::new());
    assert_provider_code(
        &wire
            .transport
            .finish_exchange(opening_plan(), HttpExchangeResponse::Buffered(nested_result), 1, 1024)
            .unwrap_err(),
        "mcp_protocol_version_missing",
    );

    for malformed in [
        "{\"result\":{\"jsonrpc\":\"2.0\",\"id\":1,\"protocolVersion\":\"2025-11-25\"}}",
        "{\"jsonrpc\":\"2.0\",\"jsonrpc\":\"2.0\",\"id\":1,\"result\":{}}",
        "{\"jsonrpc\":\"2.0\",\"id\":1,\"result\":{},\"unknown\":{\"missing_colon\" 1}}",
        "{\"jsonrpc\":\"2.0\",\"id\":1,\"result\":{},\"unknown\":[1,]}",
    ] {
        assert_provider_code(
            &parse_json_rpc_response(malformed, 1).unwrap_err(),
            "mcp_protocol_error",
        );
    }
    assert!(parse_json_string("\"\\uD800\"").is_err());
    assert_eq!(parse_json_string("\"\\uD83D\\uDE00\"").unwrap(), "\u{1f600}");
}

#[test]
fn streamable_http_wrapper_enforces_phase_and_closes_stateless_session() {
    let config = McpJsonRpcClientConfig::new();
    let normal_request = "{\"jsonrpc\":\"2.0\",\"id\":2,\"method\":\"tools/list\",\"params\":{}}";
    let mut session = Wire::new(
        Vec::new(),
        vec![
            http_response(200, &response(1, "{\"protocolVersion\":\"2025-11-25\"}")),
            http_response(202, ""),
        ],
    );
    assert_provider_code(
        &session.post(2, normal_request).unwrap_err(),
        "mcp_http_session_not_initialized",
    );
    session.post(1, &initialize_request(1, &config)).unwrap();
    assert!(!session.transport.is_ready());
    assert_provider_code(
        &session.post(2, normal_request).unwrap_err(),
        "mcp_http_session_not_ready",
    );
    assert_provider_code(&session.get().unwrap_err(), "mcp_http_session_not_ready");
    assert_provider_code(
        &session.post(2, &initialize_request(2, &config)).unwrap_err(),
        "mcp_http_session_already_initialized",
    );
    assert_provider_code(
        &session
            .tell("{\"jsonrpc\":\"2.0\",\"method\":\"notifications/progress\",\"params\":{}}")
            .unwrap_err(),
        "mcp_http_initialized_notification_required",
    );
    session.tell(&initialized_notification()).unwrap();
    assert!(session.transport.is_ready());
    assert_provider_code(
        &session.tell(&initialized_notification()).unwrap_err(),
        "mcp_http_initialized_notification_duplicate",
    );
    assert_provider_code(
        &session.post(2, &initialize_request(2, &config)).unwrap_err(),
        "mcp_http_session_already_initialized",
    );
    session.shutdown().unwrap();
    assert!(session.transport.is_closed());
    assert!(!session.transport.is_ready());
    assert!(session.transport.negotiated_protocol_version().is_none());
    assert_provider_code(
        &session.post(2, normal_request).unwrap_err(),
        "mcp_http_session_closed",
    );

    assert_eq!(session.requests.len(), 2);
    assert!(session.requests[0].contains("\"method\":\"initialize\""));
    assert!(session.requests[1].contains("notifications/initialized"));
    assert!(session.requests.iter().all(|request| !request.starts_with("DELETE ")));
}

#[test]
fn streamable_http_invalid_initialize_deletes_provisional_session() {
    let mut wire = Wire::new(
        Vec::new(),
        vec![
            http_response_with_session(
                200,
                &response(1, "{\"serverInfo\":{\"protocolVersion\":\"2025-11-25\"}}"),
                "provisional-session",
            ),
            "HTTP/1.1 204 No Content\r\nMcp-Session-Id: provisional-session\r\nConnection: close\r\n\r\n".to_owned(),
        ],
    );
    let error = wire
        .post(1, &initialize_request(1, &McpJsonRpcClientConfig::new()))
        .unwrap_err();
    assert_provider_code(&error, "mcp_protocol_version_missing");
    assert!(wire.transport.is_closed());
    assert!(wire.kept_session_id().is_none());
    assert!(wire.transport.negotiated_protocol_version().is_none());

    assert_eq!(wire.requests.len(), 2);
    assert!(wire.requests[1].starts_with("DELETE /mcp HTTP/1.1\r\n"));
    assert!(wire.requests[1].contains("Mcp-Session-Id: provisional-session\r\n"));
    assert!(wire.requests[1].contains("MCP-Protocol-Version: 2025-11-25\r\n"));
}

#[test]
fn streamable_http_delete_handles_bodyless_and_terminal_statuses() {
    for (status, expected_error) in [
        (202, None),
        (204, None),
        (405, None),
        (404, Some("mcp_http_session_not_found")),
    ] {
        let reply = if status == 202 {
            "HTTP/1.1 202 Accepted\r\nMcp-Session-Id: delete-session\r\nConnection: keep-alive\r\n\r\n".to_owned()
        } else {
            format!(
                "HTTP/1.1 {status} Status\r\nMcp-Session-Id: delete-session\r\nContent-Length: 0\r\nConnection: keep-alive\r\n\r\n"
            )
        };
        let mut wire = Wire::new(
            Vec::new(),
            vec![
                http_response_with_session(
                    200,
                    &response(1, "{\"protocolVersion\":\"2025-11-25\"}"),
                    "delete-session",
                ),
                reply,
            ],
        );
        wire.post(1, &initialize_request(1, &McpJsonRpcClientConfig::new())).unwrap();
        let shutdown = wire.shutdown();
        assert!(wire.requests[1].starts_with("DELETE /mcp HTTP/1.1\r\n"));
        assert!(wire.requests[1].contains("Mcp-Session-Id: delete-session\r\n"));
        match expected_error {
            Some(code) => assert_provider_code(&shutdown.unwrap_err(), code),
            None => shutdown.unwrap(),
        }
        assert!(wire.transport.session_id().is_none());
        assert!(wire.transport.negotiated_protocol_version().is_none());
        wire.shutdown().unwrap();
    }
}

#[test]
fn json_rpc_client_handles_fragmented_chunked_keep_alive_http_responses() {
    let wire = Wire::new(
        Vec::new(),
        vec![
            keep_alive_http_response(
                200,
                &response(1, "{\"protocolVersion\":\"2025-11-25\",\"capabilities\":{},\"serverInfo\":{\"name\":\"framed\",\"version\":\"1\"}}"),
            ),
            "HTTP/1.1 202 Accepted\r\nConnection: keep-alive\r\n\r\n".to_owned(),
            chunked_keep_alive_http_response(&response(2, LISTED)),
            keep_alive_http_response(
                200,
                &response(3, "{\"content\":[{\"type\":\"text\",\"text\":\"framed-ok\"}],\"isError\":false}"),
            ),
        ],
    );
    let (report, _) = wire.call("list_issues", "{}");
    assert!(report.ok().unwrap().output.as_str().contains("framed-ok"));
}

#[test]
fn failed_deletes_can_be_repeated() {
    let mut wire = Wire::ready(
        Some("kept"),
        vec![
            "HTTP/1.1 500 Status\r\nMcp-Session-Id: kept\r\nContent-Length: 0\r\n\r\n".to_owned(),
            "HTTP/1.1 204 Status\r\nMcp-Session-Id: kept\r\n\r\n".to_owned(),
        ],
    );
    assert_provider_code(&wire.shutdown().unwrap_err(), "mcp_http_session_delete_failed");
    assert_eq!(wire.kept_session_id().as_deref(), Some("kept"));
    wire.shutdown().unwrap();
    assert!(wire.kept_session_id().is_none());
}

// ---------------------------------------------------------------------------
// Standard streams
// ---------------------------------------------------------------------------

fn process_config() -> McpSessionConfig {
    McpSessionConfig {
        adapter_id: AdapterId::new("github-mcp"),
        server_transport: McpServerTransport::Stdio,
        process: McpProcessSpec {
            command: "server".to_owned(),
            args: Vec::new(),
            allowed_commands: vec!["other".to_owned(), "server".to_owned()],
            startup_timeout_ms: 100,
        },
    }
}

#[test]
fn processes_need_a_command_that_may_run_and_time() {
    validate_stdio_config(&process_config()).unwrap();
    require_stdio_transport(&process_config(), "message").unwrap();

    let mut other = process_config();
    other.server_transport = McpServerTransport::Http;
    assert_eq!(require_stdio_transport(&other, "message").unwrap_err().message(), "message");
    assert_eq!(validate_stdio_config(&other).unwrap_err().kind(), ErrorKind::Unsupported);

    let mut blank = process_config();
    blank.process.command = " \t".to_owned();
    assert_eq!(validate_stdio_config(&blank).unwrap_err().kind(), ErrorKind::InvalidArgument);

    let mut unknown = process_config();
    unknown.process.command = "serve".to_owned();
    assert_eq!(validate_stdio_config(&unknown).unwrap_err().kind(), ErrorKind::PermissionDenied);

    let mut hasty = process_config();
    hasty.process.startup_timeout_ms = 0;
    assert_eq!(validate_stdio_config(&hasty).unwrap_err().kind(), ErrorKind::InvalidArgument);
    assert_eq!(
        started_audit(1, 2, 3),
        vec![
            "mcp.stdio:started",
            "shell:false",
            "command_allowlist:passed",
            "startup_timeout_ms:1",
            "startup_duration_ms:2",
            "process_id:3",
        ]
    );
}

#[test]
fn lines_are_put_together_from_pieces() {
    let mut lines = StdoutLines::new();
    assert!(matches!(lines.push(b"{\"a\""), LineStep::Partial));
    match lines.push(b":1}\nrest") {
        LineStep::Line(line, used) => {
            assert_eq!(line, b"{\"a\":1}\n");
            assert_eq!(used, 4);
        }
        _ => panic!("the line is complete"),
    }
    assert!(matches!(lines.push(&vec![b'x'; STDOUT_LINE_LIMIT_BYTES]), LineStep::Partial));
    assert!(matches!(lines.push(b"x"), LineStep::LimitExceeded));
}

#[test]
fn steps_of_an_exchange_are_told_apart() {
    let step = |line: &str| exchange_step(ReaderEvent::Line(line.as_bytes().to_vec()), 4, 64);
    let answer = response(4, "{}");
    assert!(matches!(step(&answer), StdioStep::Reply(text) if text == answer));
    assert!(matches!(step("{\"jsonrpc\":\"2.0\",\"method\":\"notice\"}"), StdioStep::Wait));
    assert!(matches!(step("starting up\n"), StdioStep::Wait));
    let failed = |step: StdioStep| match step {
        StdioStep::Fail { error, stop } => (error, stop),
        _ => panic!("the exchange goes on"),
    };
    let (error, stop) = failed(step(&response(5, "{}")));
    assert_eq!(error.message(), "MCP JSON-RPC response id mismatch");
    assert_eq!(error.context_value("actual_id"), Some("5"));
    assert!(stop);
    let (error, stop) = failed(exchange_step(
        ReaderEvent::Line(b"{\"jsonrpc\":\"2.0\",\"id\":9,\"result\":{}}\n".to_vec()),
        1,
        65_536,
    ));
    assert_provider_code(&error, "mcp_protocol_error");
    assert!(stop);
    let (_, stop) = failed(step("{\"id\":\"four\"}"));
    assert!(stop);
    let (error, stop) = failed(step(&response(4, &format!("\"{}\"", "x".repeat(64)))));
    assert_provider_code(&error, "mcp_response_too_large");
    assert!(!stop);
    let (error, stop) = failed(exchange_step(ReaderEvent::Line(vec![b'a', 0xff]), 4, 64));
    assert_provider_code(&error, "mcp_protocol_error");
    assert_eq!(
        error.context_value("utf8_error"),
        Some("invalid utf-8 sequence of 1 bytes from index 1")
    );
    assert!(stop);
    for (event, kind) in [
        (ReaderEvent::LimitExceeded, ErrorKind::Conflict),
        (ReaderEvent::ReadError("broken".to_owned()), ErrorKind::Unavailable),
        (ReaderEvent::Eof, ErrorKind::Unavailable),
        (ReaderEvent::Timeout, ErrorKind::Timeout),
        (ReaderEvent::ReaderStopped, ErrorKind::Unavailable),
    ] {
        let (error, stop) = failed(exchange_step(event, 4, 64));
        assert_eq!(error.kind(), kind);
        assert!(stop);
    }
}

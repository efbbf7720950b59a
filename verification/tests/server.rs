//! The tools of a server, and the server that exposes them.

use std::sync::atomic::{AtomicUsize, Ordering};
use std::sync::Arc;
use std::time::Duration;

use eva_mcp::collections::NameMap;
use eva_mcp::error::{ErrorKind, EvaError};
use eva_mcp::http_framing::{read_http_json_rpc_response, HttpJsonRpcResponse, Progress};
use eva_mcp::http_reply::HttpExchangeResponse;
use eva_mcp::http_request::{http_request_head, ParsedHttpUrl};
use eva_mcp::http_session::{McpHttpJsonRpcTransport, ShutdownPlan};
use eva_mcp::json::json_string;
use eva_mcp::json_rpc::DEFAULT_PROTOCOL_VERSION;
use eva_mcp::server::{
    EvaMcpServerSurface, McpServerTool, McpServerToolCall, McpServerToolHandler,
    McpServerToolResult, ADAPTER_LIST_SCHEMA, ADAPTER_PROBE_SCHEMA,
};
use eva_mcp::server_config::{McpStreamableHttpServerConfig, DEFAULT_PATH};
use eva_mcp::server_request::{
    accepts_json, is_json_content_type, map_request_io_error, parse_http_quality,
    read_http_request, HttpReadFailure, Reading,
};
use eva_mcp::server_rpc::{
    hex_string, new_session_id, parse_request_envelope, tool_result_body, tool_result_fits,
    valid_session_id, validate_request_id, MAX_ID_STRING_BYTES,
};
use eva_mcp::server_transport::{
    http_reason, http_response_text, opened_session, Admission, HttpResponse, McpServerServeReport,
    McpStreamableHttpServer, PeerAddress, ResponseWriteOutcome, ServerAction, ServerSession,
    SessionPhase,
};

const HOST: &str = "127.0.0.1:8123";
const LOOPBACK: PeerAddress = PeerAddress::V4(0x7f00_0001);

/// So many milliseconds, in nanoseconds.
fn ms(milliseconds: u64) -> u128 {
    Duration::from_millis(milliseconds).as_nanos()
}

fn assert_provider_code(error: &EvaError, expected: &str) {
    assert_eq!(error.provider_code(), Some(expected), "unexpected error: {error:?}");
}

// ---------------------------------------------------------------------------
// Surfaces
// ---------------------------------------------------------------------------

#[test]
fn minimal_server_surface_exposes_only_side_effect_free_tools() {
    let surface = EvaMcpServerSurface::v11_minimal();

    assert!(surface.tools().iter().any(|tool| tool.name == "adapter.list"));
    assert!(surface.tools().iter().all(|tool| !tool.side_effects));
}

#[test]
fn illegal_proxy_request_is_rejected_with_audit() {
    let surface = EvaMcpServerSurface::v11_minimal();

    let gate = surface.gate_tool("topic.publish");
    let error = surface.require_tool("topic.publish").err().unwrap();

    assert!(!gate.allowed);
    assert!(gate.audit.contains(&"proxy_boundary:explicit_tools_only".to_owned()));
    assert_eq!(error.kind(), ErrorKind::PermissionDenied);
    assert_provider_code(&error, "mcp_server_tool_not_exposed");
    assert!(!gate.describe().contains("topic.publish"));
    assert!(!format!("{error:?}").contains("topic.publish"));
}

#[test]
fn server_surface_rejects_invalid_and_duplicate_tools() {
    assert!(McpServerTool::new("bad tool", "description", ADAPTER_LIST_SCHEMA, false).is_err());
    assert!(McpServerTool::new("valid", "description", "{}", false).is_err());
    assert!(McpServerTool::new(
        "valid",
        "description",
        r#"{"type":"object","additionalProperties":true}"#,
        false
    )
    .is_err());
    let tool =
        McpServerTool::new("adapter.list", "description", ADAPTER_LIST_SCHEMA, false).unwrap();
    let error = EvaMcpServerSurface::new(vec![tool.clone(), tool]).unwrap_err();

    assert_eq!(error.kind(), ErrorKind::Conflict);
    assert_provider_code(&error, "mcp_server_tool_duplicate");
}

#[test]
fn handler_envelopes_redact_arguments_and_output() {
    let call = McpServerToolCall::admitted("adapter.list", "{\"secret\":\"opaque-value\"}")
        .ok()
        .unwrap();
    let result = McpServerToolResult::text("opaque-result");

    assert!(!call.describe().contains("opaque-value"));
    assert!(!result.describe().contains("opaque-result"));
    assert_eq!(
        call.describe(),
        "McpServerToolCall { tool: \"adapter.list\", arguments: \"[REDACTED_ARGUMENTS]\", argument_bytes: 25 }"
    );
    assert_eq!(
        McpServerToolResult::error("ab").describe(),
        "McpServerToolResult { text: \"[REDACTED_OUTPUT]\", text_bytes: 2, is_error: true }"
    );
}

#[test]
fn tool_call_reads_only_direct_string_arguments() {
    let call = McpServerToolCall::admitted("adapter.probe", "{\"adapter_id\":\"github-mcp\"}")
        .ok()
        .unwrap();

    call.require_only_arguments(&["adapter_id"]).unwrap();
    assert_eq!(call.required_string_argument("adapter_id").unwrap(), "github-mcp");
    assert!(McpServerToolCall::admitted(
        "adapter.probe",
        "{\"nested\":{\"adapter_id\":\"hidden\"}}"
    )
    .ok()
    .unwrap()
    .required_string_argument("adapter_id")
    .is_err());
}

#[test]
fn advertised_schema_rejects_missing_wrong_and_extra_arguments() {
    let surface = EvaMcpServerSurface::v11_minimal();

    surface.validate_tool_arguments("adapter.list", "{}").unwrap();
    assert!(surface
        .validate_tool_arguments("adapter.list", "{\"extra\":\"value\"}")
        .is_err());
    assert!(surface.validate_tool_arguments("adapter.probe", "{}").is_err());
    assert!(surface
        .validate_tool_arguments("adapter.probe", "{\"adapter_id\":1}")
        .is_err());
    surface
        .validate_tool_arguments("adapter.probe", "{\"adapter_id\":\"github-mcp\"}")
        .unwrap();
}

#[test]
fn built_in_descriptors_are_valid_on_their_own() {
    let surface = EvaMcpServerSurface::v11_minimal();
    for tool in surface.tools() {
        tool.validate().unwrap();
    }
    let again = EvaMcpServerSurface::new(surface.tools().to_vec()).unwrap();
    assert_eq!(again, surface);
    assert_eq!(surface.tool("adapter.probe").unwrap().input_schema, ADAPTER_PROBE_SCHEMA);
    assert!(surface.tool("adapter").is_none());
}

#[test]
fn each_fault_of_a_descriptor_has_its_code() {
    let code = |name: &str, description: &str, schema: &str| {
        McpServerTool::new(name, description, schema, false)
            .unwrap_err()
            .provider_code()
            .unwrap()
            .to_owned()
    };
    assert_eq!(code("", "d", ADAPTER_LIST_SCHEMA), "mcp_server_tool_name_invalid");
    assert_eq!(code(&"x".repeat(129), "d", ADAPTER_LIST_SCHEMA), "mcp_server_tool_name_invalid");
    assert_eq!(code("\u{e9}", "d", ADAPTER_LIST_SCHEMA), "mcp_server_tool_name_invalid");
    assert_eq!(code("n", "", ADAPTER_LIST_SCHEMA), "mcp_server_tool_description_invalid");
    assert_eq!(code("n", "a\nb", ADAPTER_LIST_SCHEMA), "mcp_server_tool_description_invalid");
    assert_eq!(code("n", &"x".repeat(1025), ADAPTER_LIST_SCHEMA), "mcp_server_tool_description_invalid");
    assert_eq!(code("n", "d", ""), "mcp_server_tool_schema_invalid");
    assert_eq!(code("n", "d", &" ".repeat(16385)), "mcp_server_tool_schema_invalid");
    for schema in [
        "{\"type\":\"array\",\"additionalProperties\":false}",
        "{\"type\":\"object\"}",
        "{\"type\":\"object\",\"additionalProperties\":false,\"title\":\"t\"}",
        "{\"type\":\"object\",\"additionalProperties\":false,\"properties\":{\"a\":{\"type\":\"number\"}}}",
        "{\"type\":\"object\",\"additionalProperties\":false,\"properties\":{\"\":{\"type\":\"string\"}}}",
        "{\"type\":\"object\",\"additionalProperties\":false,\"required\":[\"a\"]}",
        "{\"type\":\"object\",\"additionalProperties\":false,\"properties\":{\"a\":{\"type\":\"string\"}},\"required\":[\"a\",\"a\"]}",
    ] {
        assert_eq!(code("n", "d", schema), "mcp_server_tool_schema_invalid", "{schema}");
    }
    assert_provider_code(
        &EvaMcpServerSurface::new(Vec::new()).unwrap_err(),
        "mcp_server_surface_empty",
    );
}

#[test]
fn each_fault_of_arguments_has_its_code() {
    let surface = EvaMcpServerSurface::v11_minimal();
    let code = |tool: &str, arguments: &str| {
        surface
            .validate_tool_arguments(tool, arguments)
            .unwrap_err()
            .provider_code()
            .unwrap()
            .to_owned()
    };
    assert_eq!(code("nothing", "{}"), "mcp_server_tool_not_exposed");
    assert_eq!(code("adapter.probe", "[]"), "mcp_server_tool_arguments_invalid");
    assert_eq!(code("adapter.probe", "{\"x\":1}"), "mcp_server_tool_argument_unknown");
    assert_eq!(code("adapter.probe", "{}"), "mcp_server_tool_argument_missing");
    assert_eq!(code("adapter.probe", "{\"adapter_id\":1}"), "mcp_server_tool_argument_type_invalid");
    let call = McpServerToolCall::admitted("t", "{\"a\":1}").ok().unwrap();
    assert_eq!(call.tool(), "t");
    assert_eq!(call.arguments_json(), "{\"a\":1}");
    assert_provider_code(&call.string_argument("a").unwrap_err(), "mcp_server_tool_argument_type_invalid");
    assert_eq!(call.string_argument("b").unwrap(), None);
    assert_provider_code(&call.require_only_arguments(&["b"]).unwrap_err(), "mcp_server_tool_argument_unknown");
    assert!(McpServerToolCall::admitted("t", "[]").is_err());
}

// ---------------------------------------------------------------------------
// Messages
// ---------------------------------------------------------------------------

#[test]
fn envelope_parser_rejects_batch_duplicates_nested_spoofs_and_bad_ids() {
    for body in [
        "[]",
        "{\"jsonrpc\":\"2.0\",\"id\":1,\"method\":\"tools/list\",\"method\":\"tools/call\"}",
        "{\"jsonrpc\":\"2.0\",\"id\":1,\"params\":{\"method\":\"tools/list\"}}",
        "{\"jsonrpc\":\"2.0\",\"id\":1,\"method\":\"tools/list\"}{}",
        "{\"jsonrpc\":\"2.0\",\"id\":null,\"method\":\"tools/list\"}",
        "{\"jsonrpc\":\"2.0\",\"id\":-1,\"method\":\"tools/list\"}",
        "{\"jsonrpc\":\"2.0\",\"id\":1.5,\"method\":\"tools/list\"}",
    ] {
        assert!(parse_request_envelope(body).is_err(), "{body}");
    }
    let secret_id = parse_request_envelope(
        "{\"jsonrpc\":\"2.0\",\"id\":\"private-request-id\",\"extra\":true,\"method\":\"tools/list\"}",
    )
    .err()
    .unwrap();
    assert!(!secret_id.describe().contains("private-request-id"));
    assert_eq!(
        secret_id.describe(),
        "RpcFailure { id: Some(ValidatedRequestId([REDACTED])), code: -32600, message: \"request contains an unknown envelope field\" }"
    );
}

#[test]
fn each_fault_of_an_envelope_has_its_message() {
    let fault = |body: &str| {
        let failure = parse_request_envelope(body).err().unwrap();
        (failure.code, failure.message, failure.id.is_some())
    };
    assert_eq!(fault("x"), (-32700, "request body is not one complete JSON object", false));
    assert_eq!(fault("{\"id\":null}"), (-32600, "request id is invalid", false));
    assert_eq!(fault("{\"id\":1,\"x\":2}"), (-32600, "request contains an unknown envelope field", true));
    assert_eq!(fault("{\"id\":1}"), (-32600, "jsonrpc version is missing", true));
    assert_eq!(fault("{\"jsonrpc\":2}"), (-32600, "jsonrpc version is invalid", false));
    assert_eq!(fault("{\"jsonrpc\":\"1.0\"}"), (-32600, "jsonrpc version is unsupported", false));
    assert_eq!(fault("{\"jsonrpc\":\"2.0\"}"), (-32600, "request method is missing", false));
    assert_eq!(fault("{\"jsonrpc\":\"2.0\",\"method\":1}"), (-32600, "request method is invalid", false));
    assert_eq!(fault("{\"jsonrpc\":\"2.0\",\"method\":\"\"}"), (-32600, "request method is invalid", false));
    assert!(validate_request_id(&format!("\"{}\"", "a".repeat(MAX_ID_STRING_BYTES))).is_ok());
    assert!(validate_request_id(&format!("\"{}\"", "a".repeat(MAX_ID_STRING_BYTES + 1))).is_err());
    assert!(validate_request_id("\"\"").is_err());
    assert!(validate_request_id("\"\\u0001\"").is_err());
    assert!(validate_request_id("18446744073709551615").is_ok());
    assert!(validate_request_id("18446744073709551616").is_err());
}

#[test]
fn accept_quality_excludes_unacceptable_json_ranges() {
    assert!(!accepts_json("application/json;q=0"));
    assert!(!accepts_json("application/json;q=0, */*;q=0.5"));
    assert!(accepts_json("application/*;q=0.5, */*;q=0"));
    assert!(accepts_json("text/plain, */*;q=0.5"));
}

#[test]
fn qualities_and_media_types_are_read_exactly() {
    for (text, quality) in [
        ("0", Some(0)),
        ("1", Some(1000)),
        ("0.", Some(0)),
        ("0.5", Some(500)),
        ("0.05", Some(50)),
        ("0.123", Some(123)),
        ("1.000", Some(1000)),
        ("1.", Some(1000)),
        ("1.001", None),
        ("0.1234", None),
        ("2", None),
        ("", None),
        (".5", None),
        ("0.a", None),
    ] {
        assert_eq!(parse_http_quality(text), quality, "{text}");
    }
    assert!(accepts_json("Application/JSON ; Q = 0.001"));
    assert!(!accepts_json("application/json;q=1;q=1"));
    assert!(accepts_json("application/json;q=x, application/json;q=0.1"));
    assert!(!accepts_json(""));
    assert!(!accepts_json("text/html"));
    assert!(accepts_json("application/json;q=0, application/json;q=0.3"));
    assert!(is_json_content_type("application/json"));
    assert!(is_json_content_type(" Application/Json ; Charset=UTF-8; charset=\"utf-8\""));
    assert!(!is_json_content_type("application/json; charset=latin1"));
    assert!(!is_json_content_type("text/json"));
}

#[test]
fn tool_result_limit_estimate_matches_encoded_body() {
    let id = validate_request_id("1").ok().unwrap();
    let result = McpServerToolResult::text("quote=\" control=\u{0001} utf8=中");
    let body = tool_result_body(&id, &result);

    assert!(tool_result_fits(&id, &result, body.len()));
    assert!(!tool_result_fits(&id, &result, body.len() - 1));
}

#[test]
fn failed_results_are_counted_like_successful_ones() {
    let id = validate_request_id("\"x\"").ok().unwrap();
    let failed = McpServerToolResult::error("t");
    let body = tool_result_body(&id, &failed);
    assert!(body.ends_with("\"isError\":true}}"));
    assert!(!tool_result_fits(&id, &failed, body.len()));
    assert!(tool_result_fits(&id, &failed, body.len() + 1));
}

#[test]
fn session_ids_are_random_and_valid() {
    let first = new_session_id().unwrap();
    let second = new_session_id().unwrap();
    assert_eq!(first.len(), 64);
    assert!(first.bytes().all(|b| b.is_ascii_digit() || (b'a'..=b'f').contains(&b)));
    assert_ne!(first, second);
    assert_ne!(first, "0".repeat(64));
    assert!(valid_session_id(&first));
    assert_eq!(hex_string(&[0x00, 0x0f, 0xa5, 0xff]), "000fa5ff");
    assert!(valid_session_id(&"x".repeat(256)));
    assert!(!valid_session_id(&"x".repeat(257)));
    assert!(!valid_session_id(""));
    assert!(!valid_session_id("a b"));
}

// ---------------------------------------------------------------------------
// The server
// ---------------------------------------------------------------------------

struct RecordingHandler {
    calls: Arc<AtomicUsize>,
}

impl McpServerToolHandler for RecordingHandler {
    fn call_tool(
        &mut self,
        request: McpServerToolCall<'_>,
    ) -> Result<McpServerToolResult, EvaError> {
        self.calls.fetch_add(1, Ordering::SeqCst);
        match request.tool() {
            "adapter.list" => {
                request.require_only_arguments(&[])?;
                Ok(McpServerToolResult::text("adapter-count:0"))
            }
            "adapter.probe" => {
                request.require_only_arguments(&["adapter_id"])?;
                let adapter_id = request.required_string_argument("adapter_id")?;
                match adapter_id.as_str() {
                    "fail-secret" => Err(EvaError::internal(
                        "private handler path C:\\secrets\\credential.txt",
                    )),
                    "huge" => Ok(McpServerToolResult::text(&"x".repeat(4096))),
                    _ => Ok(McpServerToolResult::text(&format!("probe-ready:{adapter_id}"))),
                }
            }
            _ => Err(EvaError::internal("unreachable hidden handler")),
        }
    }
}

/// A server whose connections are made of byte strings.
struct Local {
    server: McpStreamableHttpServer<RecordingHandler>,
    calls: Arc<AtomicUsize>,
}

impl Local {
    fn new(config: McpStreamableHttpServerConfig) -> Self {
        let calls = Arc::new(AtomicUsize::new(0));
        let mut server = McpStreamableHttpServer::from_listener(
            LOOPBACK,
            HOST,
            config,
            EvaMcpServerSurface::v11_minimal(),
            RecordingHandler { calls: calls.clone() },
        )
        .ok()
        .unwrap();
        server.started();
        Self { server, calls }
    }

    fn default() -> Self {
        Self::new(McpStreamableHttpServerConfig::default())
    }

    /// The answer to a request whose bytes arrive one by one; the stream ends
    /// behind them where `ended` is set.
    fn send(&mut self, bytes: &[u8], ended: bool) -> Vec<u8> {
        self.send_from(bytes, ended, LOOPBACK, true, false)
    }

    fn send_from(
        &mut self,
        bytes: &[u8],
        ended: bool,
        peer: PeerAddress,
        writable: bool,
        stopped: bool,
    ) -> Vec<u8> {
        self.server.note_connection();
        if let Some(response) = self.server.refuse_peer(peer) {
            return self.write(response).0;
        }
        let mut arrived = 0;
        let request = loop {
            let at_end = ended && arrived == bytes.len();
            match read_http_request(&bytes[..arrived], at_end, self.server.config(), HOST) {
                Reading::Ready(request) => break request,
                Reading::Closed => return Vec::new(),
                Reading::Wait => {
                    if arrived == bytes.len() {
                        assert!(!ended);
                        let response = self.server.refuse(map_request_io_error(true));
                        return self.write(response).0;
                    }
                    arrived += 1;
                }
                Reading::Fail(failure) => {
                    let response = self.server.refuse(failure);
                    return self.write(response).0;
                }
            }
        };
        let result = match self.server.receive(&request, peer) {
            Admission::Answer(result) => result,
            Admission::Call(call) => self.server.run_call(call, stopped),
        };
        let (bytes, outcome) = self.write(result.response);
        let written = if writable { Some(outcome) } else { None };
        self.server.commit_action_after_response(result.action, written, stopped);
        if writable {
            bytes
        } else {
            Vec::new()
        }
    }

    fn write(&self, response: HttpResponse) -> (Vec<u8>, ResponseWriteOutcome) {
        let limit = self.server.config().response_limit_bytes();
        let (text, outcome) = http_response_text(response, limit);
        (text.into_bytes(), outcome)
    }

    fn post(
        &mut self,
        body: &str,
        session_id: Option<&str>,
        host: Option<&str>,
        origin: Option<&str>,
    ) -> String {
        let mut request = format!(
            "POST {} HTTP/1.1\r\nHost: {}\r\nConnection: close\r\nAccept: application/json\r\nContent-Type: application/json\r\nContent-Length: {}\r\n",
            DEFAULT_PATH,
            host.unwrap_or(HOST),
            body.len()
        );
        if let Some(session_id) = session_id {
            request.push_str(&format!(
                "MCP-Protocol-Version: {}\r\nMcp-Session-Id: {}\r\n",
                DEFAULT_PROTOCOL_VERSION, session_id
            ));
        }
        if let Some(origin) = origin {
            request.push_str("Origin: ");
            request.push_str(origin);
            request.push_str("\r\n");
        }
        request.push_str("\r\n");
        request.push_str(body);
        String::from_utf8(self.send(request.as_bytes(), true)).unwrap()
    }

    fn finish(self) -> McpServerServeReport {
        self.server.finish()
    }
}

/// A client that speaks to a server in memory.
struct Client {
    transport: McpHttpJsonRpcTransport,
}

impl Client {
    fn new() -> Self {
        let url = ParsedHttpUrl::parse(&format!("http://{HOST}{DEFAULT_PATH}"), None).unwrap();
        Self { transport: McpHttpJsonRpcTransport::new(url, &NameMap::new(), false).ok().unwrap() }
    }

    fn request(
        &self,
        server: &mut Local,
        method: &str,
        body: &str,
        session: &Vec<(String, String)>,
        allow_bodyless: bool,
    ) -> HttpJsonRpcResponse {
        let mut request = http_request_head(
            self.transport.endpoint(),
            method,
            "application/json, text/event-stream",
            body,
            &Vec::new(),
            session,
        )
        .unwrap();
        request.push_str(body);
        let wire = server.send(request.as_bytes(), false);
        match read_http_json_rpc_response(&wire, false, 64 * 1024, allow_bodyless) {
            Progress::Ready(response) => response,
            Progress::Wait => panic!("the response is not complete"),
            Progress::Fail(fault) => panic!("{:?}", fault.to_error(HOST)),
        }
    }

    fn exchange(&mut self, server: &mut Local, id: u64, body: &str) -> Result<String, EvaError> {
        let plan = self.transport.begin_exchange(body, 64 * 1024)?;
        let response = self.request(server, "POST", body, &plan.session_headers, false);
        self.transport.finish_exchange(plan, HttpExchangeResponse::Buffered(response), id, 64 * 1024)
    }

    fn notify(&mut self, server: &mut Local, body: &str) -> Result<(), EvaError> {
        let (initialized, headers) = self.transport.begin_notify(body, 64 * 1024)?;
        let response = self.request(server, "POST", body, &headers, true);
        self.transport.finish_notify(initialized, &response, 64 * 1024)
    }

    fn ready(server: &mut Local) -> Self {
        let mut client = Self::new();
        client.exchange(server, 1, &initialize_request(1)).unwrap();
        client.notify(server, initialized_notification()).unwrap();
        client
    }

    fn session_id(&self) -> String {
        self.transport.session_id().unwrap().to_owned()
    }

    fn shutdown(&mut self, server: &mut Local) {
        match self.transport.begin_shutdown(64 * 1024) {
            Ok(ShutdownPlan::Delete(headers)) => {
                let response = self.request(server, "DELETE", "", &headers, true);
                self.transport.shutdown_session(&response, 64 * 1024).unwrap();
            }
            Ok(ShutdownPlan::Closed) => panic!("the session should be deleted"),
            Err(error) => panic!("{error:?}"),
        }
    }
}

fn initialize_request(id: u64) -> String {
    format!(
        "{{\"jsonrpc\":\"2.0\",\"id\":{id},\"method\":\"initialize\",\"params\":{{\"protocolVersion\":{},\"capabilities\":{{}},\"clientInfo\":{{\"name\":\"external-test-client\",\"version\":\"1\"}}}}}}",
        json_string(DEFAULT_PROTOCOL_VERSION)
    )
}

fn initialized_notification() -> &'static str {
    "{\"jsonrpc\":\"2.0\",\"method\":\"notifications/initialized\",\"params\":{}}"
}

#[test]
fn real_external_http_client_runs_full_server_lifecycle() {
    let mut server = Local::default();
    let mut client = Client::new();

    let initialized = client.exchange(&mut server, 1, &initialize_request(1)).unwrap();
    assert!(initialized.contains("\"protocolVersion\":\"2025-11-25\""));
    assert!(client.transport.session_id().is_some());
    client.notify(&mut server, initialized_notification()).unwrap();
    let listed = client
        .exchange(
            &mut server,
            2,
            "{\"jsonrpc\":\"2.0\",\"id\":2,\"method\":\"tools/list\",\"params\":{}}",
        )
        .unwrap();
    assert!(listed.contains("\"name\":\"adapter.list\""));
    assert!(listed.contains("\"inputSchema\":{\"type\":\"object\""));
    let called = client
        .exchange(
            &mut server,
            3,
            "{\"jsonrpc\":\"2.0\",\"id\":3,\"method\":\"tools/call\",\"params\":{\"name\":\"adapter.probe\",\"arguments\":{\"adapter_id\":\"github-mcp\"}}}",
        )
        .unwrap();
    assert!(called.contains("probe-ready:github-mcp"));
    assert!(called.contains("\"isError\":false"));
    client.shutdown(&mut server);

    let calls = server.calls.clone();
    let report = server.finish();
    assert_eq!(calls.load(Ordering::SeqCst), 1);
    assert_eq!(report.requests, 5);
    assert_eq!(report.sessions_created, 1);
    assert_eq!(report.sessions_deleted, 1);
    assert_eq!(report.handler_calls, 1);
    assert_eq!(report.dangling_sessions, 0);
    assert_eq!(
        report.audit,
        vec![
            "mcp.server.transport:streamable_http",
            "mcp.server.bind:loopback",
            "mcp.server.tools:read_only",
            "mcp.server.origin:explicit_or_absent",
            "mcp.server.shutdown:complete",
        ]
    );
}

#[test]
fn hidden_tool_is_rejected_before_arguments_and_handler() {
    let mut server = Local::default();
    let mut client = Client::ready(&mut server);
    let denied = client
        .exchange(
            &mut server,
            2,
            "{\"jsonrpc\":\"2.0\",\"id\":2,\"method\":\"tools/call\",\"params\":{\"name\":\"topic.publish\",\"arguments\":{\"secret\":\"opaque-value\"}}}",
        )
        .unwrap();

    assert!(denied.contains("tool is not explicitly exposed"));
    assert!(!denied.contains("topic.publish"));
    assert!(!denied.contains("opaque-value"));
    assert_eq!(server.calls.load(Ordering::SeqCst), 0);
    client.shutdown(&mut server);
    let report = server.finish();
    assert_eq!(report.blocked_tool_calls, 1);
    assert_eq!(report.handler_calls, 0);
    assert!(!format!("{report:?}").contains("topic.publish"));
}

#[test]
fn schema_rejects_invalid_arguments_before_handler_and_errors_are_redacted() {
    let mut server = Local::default();
    let mut client = Client::ready(&mut server);
    for (id, params) in [
        (2, "{\"name\":\"adapter.list\",\"arguments\":{\"extra\":\"x\"}}"),
        (3, "{\"name\":\"adapter.probe\",\"arguments\":{}}"),
        (4, "{\"name\":\"adapter.probe\",\"arguments\":{\"adapter_id\":1}}"),
        (5, "{\"name\":\"adapter.probe\",\"arguments\":{\"adapter_id\":\"x\",\"extra\":\"y\"}}"),
    ] {
        let response = client
            .exchange(
                &mut server,
                id,
                &format!(
                    "{{\"jsonrpc\":\"2.0\",\"id\":{id},\"method\":\"tools/call\",\"params\":{params}}}"
                ),
            )
            .unwrap();
        assert!(response.contains("tool arguments are invalid"));
    }
    assert_eq!(server.calls.load(Ordering::SeqCst), 0);

    let failed = client
        .exchange(
            &mut server,
            6,
            "{\"jsonrpc\":\"2.0\",\"id\":6,\"method\":\"tools/call\",\"params\":{\"name\":\"adapter.probe\",\"arguments\":{\"adapter_id\":\"fail-secret\"}}}",
        )
        .unwrap();
    assert!(failed.contains("tool handler failed"));
    assert!(!failed.contains("credential.txt"));
    client.shutdown(&mut server);
    let report = server.finish();
    assert_eq!(report.handler_calls, 1);
    assert_eq!(report.dangling_sessions, 0);
}

#[test]
fn string_id_is_echoed_as_validated_raw_json_token() {
    let mut server = Local::default();
    let mut client = Client::ready(&mut server);
    let session_id = client.session_id();
    let body = "{\"jsonrpc\":\"2.0\",\"id\":\"opaque\\u002did\",\"method\":\"tools/list\",\"params\":{}}";
    let response = server.post(body, Some(&session_id), None, None);

    assert!(response.starts_with("HTTP/1.1 200 OK\r\n"));
    assert!(response.contains("\"id\":\"opaque\\u002did\""));
    client.shutdown(&mut server);
    assert_eq!(server.finish().dangling_sessions, 0);
}

fn assert_empty_202(response: &str) {
    let (head, body) = response.split_once("\r\n\r\n").unwrap();
    assert!(head.starts_with("HTTP/1.1 202 Accepted\r\n"), "{response}");
    assert!(body.is_empty(), "{response}");
}

#[test]
fn notifications_receive_empty_202_without_session_or_handler_side_effects() {
    let mut server = Local::default();
    let initialize_notification = initialize_request(1).replacen("\"id\":1,", "", 1);
    let response = server.post(&initialize_notification, None, None, None);
    assert_empty_202(&response);
    assert!(!response.contains("Mcp-Session-Id:"));

    let mut client = Client::ready(&mut server);
    let session_id = client.session_id();
    for notification in [
        "{\"jsonrpc\":\"2.0\",\"method\":\"notifications/unknown\",\"params\":{\"opaque\":\"secret\"}}",
        "{\"jsonrpc\":\"2.0\",\"method\":\"tools/list\",\"params\":{}}",
        "{\"jsonrpc\":\"2.0\",\"method\":\"tools/call\",\"params\":{\"name\":\"adapter.probe\",\"arguments\":{\"adapter_id\":\"must-not-run\"}}}",
    ] {
        let response = server.post(notification, Some(&session_id), None, None);
        assert_empty_202(&response);
        assert!(!response.contains("secret"));
        assert!(!response.contains("must-not-run"));
    }
    assert_eq!(server.calls.load(Ordering::SeqCst), 0);

    let listed = client
        .exchange(
            &mut server,
            2,
            "{\"jsonrpc\":\"2.0\",\"id\":2,\"method\":\"tools/list\",\"params\":{}}",
        )
        .unwrap();
    assert!(listed.contains("adapter.list"));
    client.shutdown(&mut server);
    let report = server.finish();
    assert_eq!(report.sessions_created, 1);
    assert_eq!(report.sessions_deleted, 1);
    assert_eq!(report.handler_calls, 0);
    assert_eq!(report.dangling_sessions, 0);
}

#[test]
fn excessive_json_nesting_is_rejected_without_stopping_the_server() {
    let mut server = Local::default();
    let nested = format!("{}null{}", "[".repeat(70), "]".repeat(70));
    let initialize = format!(
        "{{\"jsonrpc\":\"2.0\",\"id\":1,\"method\":\"initialize\",\"params\":{{\"protocolVersion\":{},\"capabilities\":{nested},\"clientInfo\":{{\"name\":\"deep-client\",\"version\":\"1\"}}}}}}",
        json_string(DEFAULT_PROTOCOL_VERSION)
    );
    let rejected_initialize = server.post(&initialize, None, None, None);
    assert!(
        rejected_initialize.contains("request body is not one complete JSON object"),
        "{rejected_initialize}"
    );
    assert_eq!(server.calls.load(Ordering::SeqCst), 0);

    let mut client = Client::ready(&mut server);
    let session_id = client.session_id();
    let hidden = format!(
        "{{\"jsonrpc\":\"2.0\",\"id\":2,\"method\":\"tools/call\",\"params\":{{\"name\":\"topic.publish\",\"arguments\":{nested}}}}}"
    );
    let rejected_hidden = server.post(&hidden, Some(&session_id), None, None);
    assert!(rejected_hidden.contains("request body is not one complete JSON object"));
    assert!(!rejected_hidden.contains("topic.publish"));
    assert_eq!(server.calls.load(Ordering::SeqCst), 0);

    let listed = client
        .exchange(
            &mut server,
            3,
            "{\"jsonrpc\":\"2.0\",\"id\":3,\"method\":\"tools/list\",\"params\":{}}",
        )
        .unwrap();
    assert!(listed.contains("adapter.list"));
    client.shutdown(&mut server);
    let report = server.finish();
    assert_eq!(report.handler_calls, 0);
    assert_eq!(report.dangling_sessions, 0);
}

#[test]
fn session_phase_duplicate_initialized_and_stale_session_fail_closed() {
    let mut server = Local::default();
    let mut client = Client::new();
    client.exchange(&mut server, 1, &initialize_request(1)).unwrap();
    let session_id = client.session_id();
    let list = "{\"jsonrpc\":\"2.0\",\"id\":2,\"method\":\"tools/list\",\"params\":{}}";

    let before_ready = server.post(list, Some(&session_id), None, None);
    assert!(before_ready.contains("awaiting notifications/initialized"));
    client.notify(&mut server, initialized_notification()).unwrap();
    let duplicate = server.post(initialized_notification(), Some(&session_id), None, None);
    assert!(duplicate.starts_with("HTTP/1.1 400 Bad Request\r\n"));
    client.shutdown(&mut server);
    let stale = server.post(list, Some(&session_id), None, None);
    assert!(stale.starts_with("HTTP/1.1 404 Not Found\r\n"));

    let report = server.finish();
    assert_eq!(report.sessions_created, 1);
    assert_eq!(report.sessions_deleted, 1);
    assert_eq!(report.dangling_sessions, 0);
}

#[test]
fn failed_response_write_never_commits_session_actions() {
    let mut server = Local::default().server;
    let session_id = "test-session".to_owned();
    let create = || ServerAction::Create {
        session_id: "test-session".to_owned(),
        session: ServerSession { peer: LOOPBACK, phase: SessionPhase::AwaitingInitialized },
    };

    server.commit_action_after_response(create(), None, false);
    assert_eq!(server.session_count(), 0);

    server.commit_action_after_response(create(), Some(ResponseWriteOutcome::Original), false);
    assert_eq!(server.session_count(), 1);
    server.commit_action_after_response(
        ServerAction::MarkReady { session_id: session_id.clone() },
        None,
        false,
    );
    server.commit_action_after_response(
        ServerAction::Delete { session_id: session_id.clone() },
        None,
        false,
    );
    assert_eq!(server.session_count(), 1);

    server.commit_action_after_response(
        ServerAction::Delete { session_id },
        Some(ResponseWriteOutcome::Original),
        false,
    );
    assert_eq!(server.session_count(), 0);
    let report = server.finish();
    assert_eq!(report.protocol_errors, 3);
}

#[test]
fn oversized_initialize_fallback_does_not_create_an_unreachable_session() {
    let config = McpStreamableHttpServerConfig::default()
        .with_limits(16 * 1024, 64 * 1024, 512)
        .unwrap()
        .with_max_sessions(1)
        .unwrap();
    let mut server = Local::new(config);
    let escaped_id = format!("\"{}\"", "\\u0061".repeat(MAX_ID_STRING_BYTES));
    let oversized_initialize = format!(
        "{{\"jsonrpc\":\"2.0\",\"id\":{escaped_id},\"method\":\"initialize\",\"params\":{{\"protocolVersion\":{},\"capabilities\":{{}},\"clientInfo\":{{\"name\":\"external-test-client\",\"version\":\"1\"}}}}}}",
        json_string(DEFAULT_PROTOCOL_VERSION)
    );

    let fallback = server.post(&oversized_initialize, None, None, None);
    assert!(fallback.starts_with("HTTP/1.1 500 Internal Server Error\r\n"));
    assert!(!fallback.contains("Mcp-Session-Id:"));

    let mut client = Client::ready(&mut server);
    client.shutdown(&mut server);
    let calls = server.calls.clone();
    let report = server.finish();
    assert_eq!(calls.load(Ordering::SeqCst), 0);
    assert_eq!(report.sessions_created, 1);
    assert_eq!(report.sessions_deleted, 1);
    assert_eq!(report.sessions_closed_on_shutdown, 0);
    assert_eq!(report.dangling_sessions, 0);
    assert!(report.protocol_errors >= 1);
}

#[test]
fn request_smuggling_compression_and_invalid_utf8_are_rejected() {
    let mut server = Local::default();
    let body = initialize_request(1);
    let prefix = format!(
        "POST {DEFAULT_PATH} HTTP/1.1\r\nHost: {HOST}\r\nConnection: close\r\nAccept: application/json\r\nContent-Type: application/json\r\n"
    );
    for headers in [
        format!(
            "Content-Length: {}\r\nContent-Length: {}\r\n\r\n{body}",
            body.len(),
            body.len()
        ),
        format!("Content-Length: {}\r\nTransfer-Encoding: chunked\r\n\r\n{body}", body.len()),
        format!("Content-Length: {}\r\nContent-Encoding: gzip\r\n\r\n{body}", body.len()),
    ] {
        let response =
            String::from_utf8(server.send(format!("{prefix}{headers}").as_bytes(), true)).unwrap();
        assert!(response.starts_with("HTTP/1.1 400 Bad Request\r\n"));
    }
    let mut invalid_utf8 = format!("{prefix}Content-Length: 1\r\n\r\n").into_bytes();
    invalid_utf8.push(0xff);
    let response = String::from_utf8(server.send(&invalid_utf8, true)).unwrap();
    assert!(response.starts_with("HTTP/1.1 400 Bad Request\r\n"));

    let report = server.finish();
    assert_eq!(report.sessions_created, 0);
    assert_eq!(report.dangling_sessions, 0);
}

#[test]
fn host_origin_path_and_non_loopback_bind_fail_closed() {
    assert!(McpStreamableHttpServerConfig::default().with_timeouts(ms(61_000), ms(5)).is_err());
    let calls = Arc::new(AtomicUsize::new(0));
    let error = McpStreamableHttpServer::from_listener(
        PeerAddress::V4(0),
        "0.0.0.0:0",
        McpStreamableHttpServerConfig::default(),
        EvaMcpServerSurface::v11_minimal(),
        RecordingHandler { calls },
    )
    .err()
    .unwrap();
    assert_provider_code(&error, "mcp_server_bind_not_loopback");

    let mut server = Local::default();
    let body = initialize_request(1);
    let wrong_host = server.post(&body, None, Some("localhost:1"), None);
    assert!(wrong_host.starts_with("HTTP/1.1 421 Misdirected Request\r\n"));
    let origin = format!("http://{HOST}");
    let blocked_origin = server.post(&body, None, None, Some(&origin));
    assert!(blocked_origin.starts_with("HTTP/1.1 403 Forbidden\r\n"));

    let report = server.finish();
    assert_eq!(report.sessions_created, 0);
    assert_eq!(report.dangling_sessions, 0);
}

#[test]
fn request_head_gates_reject_before_waiting_for_a_body() {
    let mut server = Local::default();
    let valid_headers = format!(
        "Host: {HOST}\r\nAccept: application/json\r\nContent-Type: application/json\r\nContent-Length: 128\r\n"
    );
    let cases = [
        (format!("POST /wrong HTTP/1.1\r\n{valid_headers}\r\n"), "HTTP/1.1 404 Not Found\r\n"),
        (format!("POST /mcp?query HTTP/1.1\r\n{valid_headers}\r\n"), "HTTP/1.1 404 Not Found\r\n"),
        (
            "POST /mcp HTTP/1.1\r\nHost: localhost:1\r\nAccept: application/json\r\nContent-Type: application/json\r\nContent-Length: 128\r\n\r\n".to_owned(),
            "HTTP/1.1 421 Misdirected Request\r\n",
        ),
        (
            format!("POST /mcp HTTP/1.1\r\n{valid_headers}Origin: http://evil.invalid\r\n\r\n"),
            "HTTP/1.1 403 Forbidden\r\n",
        ),
        (
            format!(
                "POST /mcp HTTP/1.1\r\nHost: {HOST}\r\nAccept: application/json\r\nContent-Type: text/plain\r\nContent-Length: 128\r\n\r\n"
            ),
            "HTTP/1.1 415 Unsupported Media Type\r\n",
        ),
        (
            format!(
                "POST /mcp HTTP/1.1\r\nHost: {HOST}\r\nAccept: application/json;q=0\r\nContent-Type: application/json\r\nContent-Length: 128\r\n\r\n"
            ),
            "HTTP/1.1 406 Not Acceptable\r\n",
        ),
        (
            format!("GET /mcp HTTP/1.1\r\nHost: {HOST}\r\nContent-Length: 128\r\n\r\n"),
            "HTTP/1.1 405 Method Not Allowed\r\n",
        ),
        (
            format!("DELETE /mcp HTTP/1.1\r\nHost: {HOST}\r\nContent-Length: 1\r\n\r\n"),
            "HTTP/1.1 400 Bad Request\r\n",
        ),
    ];

    for (request, expected_status) in cases {
        let response = String::from_utf8(server.send(request.as_bytes(), false)).unwrap();
        assert!(response.starts_with(expected_status), "{response}");
    }
    let calls = server.calls.clone();
    assert_eq!(calls.load(Ordering::SeqCst), 0);

    let report = server.finish();
    assert_eq!(report.sessions_created, 0);
    assert_eq!(report.handler_calls, 0);
    assert_eq!(report.dangling_sessions, 0);
}

#[test]
fn exact_bound_origin_is_accepted() {
    let origin = format!("http://{HOST}");
    let config = McpStreamableHttpServerConfig::default().with_allowed_origin(&origin).unwrap();
    let mut server = Local::new(config);

    let response = server.post(&initialize_request(1), None, None, Some(&origin));
    assert!(response.starts_with("HTTP/1.1 200 OK\r\n"));
    let calls = server.calls.clone();
    assert_eq!(calls.load(Ordering::SeqCst), 0);

    let report = server.finish();
    assert_eq!(report.sessions_created, 1);
    assert_eq!(report.sessions_closed_on_shutdown, 1);
    assert_eq!(report.dangling_sessions, 0);

    let other = McpStreamableHttpServerConfig::default()
        .with_allowed_origin("http://127.0.0.1:1")
        .unwrap();
    let error = McpStreamableHttpServer::from_listener(
        LOOPBACK,
        HOST,
        other,
        EvaMcpServerSurface::v11_minimal(),
        RecordingHandler { calls },
    )
    .err()
    .unwrap();
    assert_provider_code(&error, "mcp_server_origin_not_bound");
}

#[test]
fn total_read_deadline_and_request_limit_stop_slow_or_large_clients() {
    let config = McpStreamableHttpServerConfig::default()
        .with_limits(512, 64, 1024)
        .unwrap()
        .with_timeouts(ms(60), ms(5))
        .unwrap();
    let mut server = Local::new(config);

    let oversized_body = "x".repeat(65);
    let oversized = server.post(&oversized_body, None, None, None);
    assert!(oversized.starts_with("HTTP/1.1 413 Payload Too Large\r\n"));

    let slow = String::from_utf8(server.send(b"POST", false)).unwrap();
    assert!(slow.starts_with("HTTP/1.1 408 Request Timeout\r\n"), "{slow}");

    let report = server.finish();
    assert!(report.protocol_errors >= 2);
    assert_eq!(report.sessions_created, 0);
    assert_eq!(report.dangling_sessions, 0);
}

#[test]
fn shutdown_aborts_an_accepted_partial_request_before_handler() {
    let mut server = Local::default();
    let client = Client::ready(&mut server);
    let session_id = client.session_id();
    let body = "{\"jsonrpc\":\"2.0\",\"id\":2,\"method\":\"tools/call\",\"params\":{\"name\":\"adapter.probe\",\"arguments\":{\"adapter_id\":\"must-not-run\"}}}";
    let request = format!(
        "POST {DEFAULT_PATH} HTTP/1.1\r\nHost: {HOST}\r\nConnection: close\r\nAccept: application/json\r\nContent-Type: application/json\r\nContent-Length: {}\r\nMCP-Protocol-Version: {DEFAULT_PROTOCOL_VERSION}\r\nMcp-Session-Id: {session_id}\r\n\r\n{body}",
        body.len()
    );
    let partial = &request.as_bytes()[..request.len() - 1];
    assert!(matches!(
        read_http_request(partial, false, server.server.config(), HOST),
        Reading::Wait
    ));
    let response = server.send_from(request.as_bytes(), false, LOOPBACK, true, true);
    assert!(response.starts_with(b"HTTP/1.1 503 Service Unavailable\r\n"));

    let calls = server.calls.clone();
    let report = server.finish();
    assert_eq!(calls.load(Ordering::SeqCst), 0);
    assert_eq!(report.handler_calls, 0);
    assert_eq!(report.sessions_closed_on_shutdown, 1);
    assert_eq!(report.dangling_sessions, 0);
}

#[test]
fn oversized_handler_result_is_replaced_without_partial_payload() {
    let config =
        McpStreamableHttpServerConfig::default().with_limits(16 * 1024, 64 * 1024, 512).unwrap();
    let mut server = Local::new(config);
    let mut client = Client::ready(&mut server);
    let response = client
        .exchange(
            &mut server,
            2,
            "{\"jsonrpc\":\"2.0\",\"id\":2,\"method\":\"tools/call\",\"params\":{\"name\":\"adapter.probe\",\"arguments\":{\"adapter_id\":\"huge\"}}}",
        )
        .unwrap();
    assert!(response.contains("tool result exceeded server limit"));
    assert!(!response.contains(&"x".repeat(32)));
    client.shutdown(&mut server);
    let calls = server.calls.clone();
    let report = server.finish();
    assert_eq!(calls.load(Ordering::SeqCst), 1);
    assert_eq!(report.dangling_sessions, 0);
}

#[test]
fn sessions_are_bounded_and_belong_to_their_peer() {
    let config = McpStreamableHttpServerConfig::default().with_max_sessions(1).unwrap();
    let mut server = Local::new(config);
    let client = Client::ready(&mut server);
    let full = server.post(&initialize_request(2), None, None, None);
    assert!(full.starts_with("HTTP/1.1 503 Service Unavailable\r\n"));
    let list = format!(
        "POST /mcp HTTP/1.1\r\nHost: {HOST}\r\nAccept: application/json\r\nContent-Type: application/json\r\nContent-Length: 45\r\nMCP-Protocol-Version: 2025-11-25\r\nMcp-Session-Id: {}\r\n\r\n{{\"jsonrpc\":\"2.0\",\"id\":2,\"method\":\"tools/list\"}}",
        client.session_id()
    );
    let list = list.replace("Content-Length: 45", "Content-Length: 46");
    let own = server.send_from(list.as_bytes(), true, LOOPBACK, true, false);
    assert!(own.starts_with(b"HTTP/1.1 200 OK\r\n"), "{:?}", String::from_utf8(own));
    let other = server.send_from(list.as_bytes(), true, PeerAddress::V6(1), true, false);
    assert!(other.starts_with(b"HTTP/1.1 404 Not Found\r\n"));
    let remote = server.send_from(list.as_bytes(), true, PeerAddress::V4(0x0808_0808), true, false);
    assert!(remote.starts_with(b"HTTP/1.1 403 Forbidden\r\n"));
    assert_eq!(server.server.session_count(), 1);
    assert_eq!(server.finish().sessions_closed_on_shutdown, 1);
}

#[test]
fn unwritten_answers_open_no_session() {
    let mut server = Local::default();
    let body = initialize_request(1);
    let request = format!(
        "POST /mcp HTTP/1.1\r\nHost: {HOST}\r\nAccept: application/json\r\nContent-Type: application/json\r\nContent-Length: {}\r\n\r\n{body}",
        body.len()
    );
    server.send_from(request.as_bytes(), true, LOOPBACK, false, false);
    assert_eq!(server.server.session_count(), 0);
    server.send_from(request.as_bytes(), true, LOOPBACK, true, true);
    assert_eq!(server.server.session_count(), 0);
    server.send_from(request.as_bytes(), true, LOOPBACK, true, false);
    assert_eq!(server.server.session_count(), 1);
    let error = server.server.accept_failed("broken");
    assert_provider_code(&error, "mcp_server_accept_failed");
    assert_eq!(server.server.session_count(), 0);
}

#[test]
fn side_effects_and_large_surfaces_are_not_exposed() {
    let tool = McpServerTool::new("a", "d", ADAPTER_LIST_SCHEMA, true).unwrap();
    let surface = EvaMcpServerSurface::new(vec![tool]).unwrap();
    let error = McpStreamableHttpServer::from_listener(
        LOOPBACK,
        HOST,
        McpStreamableHttpServerConfig::default(),
        surface,
        RecordingHandler { calls: Arc::new(AtomicUsize::new(0)) },
    )
    .err()
    .unwrap();
    assert_provider_code(&error, "mcp_server_surface_not_read_only");
    let many = (0..129)
        .map(|i| McpServerTool::new(&format!("t{i}"), "d", ADAPTER_LIST_SCHEMA, false).unwrap())
        .collect::<Vec<_>>();
    let surface = EvaMcpServerSurface::new(many).unwrap();
    assert!(McpStreamableHttpServer::from_listener(
        LOOPBACK,
        HOST,
        McpStreamableHttpServerConfig::default(),
        surface,
        RecordingHandler { calls: Arc::new(AtomicUsize::new(0)) },
    )
    .is_err());
}

#[test]
fn configurations_are_bounded() {
    for path in ["", "mcp", "//mcp", "/a//b", "/a?b", "/a#b", "/a%b", "/a\\b", "/./a", "/a/..", "/a b", "/\u{e9}"] {
        assert_provider_code(
            &McpStreamableHttpServerConfig::new(path).unwrap_err(),
            "mcp_server_path_invalid",
        );
    }
    for path in ["/", "/mcp", "/a/b/", "/.a/b..", &format!("/{}", "x".repeat(1023))] {
        assert_eq!(McpStreamableHttpServerConfig::new(path).unwrap().path(), path);
    }
    assert!(McpStreamableHttpServerConfig::new(&format!("/{}", "x".repeat(1024))).is_err());
    let config = McpStreamableHttpServerConfig::default;
    for (head, body, response) in [(511, 1, 512), (512, 0, 512), (512, 1, 511), (16_777_217, 1, 512)] {
        assert_provider_code(
            &config().with_limits(head, body, response).unwrap_err(),
            "mcp_server_limits_invalid",
        );
    }
    assert!(config().with_limits(512, 1, 512).is_ok());
    assert!(config().with_max_sessions(0).is_err());
    assert!(config().with_max_sessions(4097).is_err());
    assert!(config().with_timeouts(0, ms(1)).is_err());
    assert!(config().with_timeouts(ms(1), 0).is_err());
    assert!(config().with_timeouts(ms(1), ms(1000) + 1).is_err());
    assert!(config().with_timeouts(ms(60_000) + 1, ms(1)).is_err());
    let quick = config().with_timeouts(1, Duration::from_micros(500).as_nanos()).ok().unwrap();
    assert_eq!((quick.io_timeout_ns(), quick.accept_poll_interval_ns()), (1, 500_000));
    for origin in ["https://a", "http://", "http://a/b", "http://a?b", "http://a@b", "http://a b", "http://\u{e9}"] {
        assert_provider_code(
            &config().with_allowed_origin(origin).unwrap_err(),
            "mcp_server_origin_invalid",
        );
    }
    assert!(config().with_allowed_origin("http://[::1]:80").unwrap().allows_origin("http://[::1]:80"));
}

#[test]
fn malformed_heads_are_told_apart() {
    let config = McpStreamableHttpServerConfig::default().with_limits(512, 64, 1024).unwrap();
    let fail = |bytes: &[u8]| match read_http_request(bytes, true, &config, HOST) {
        Reading::Fail(HttpReadFailure { status, message, .. }) => (status, message),
        _ => panic!("{:?}", String::from_utf8_lossy(bytes)),
    };
    assert!(matches!(read_http_request(b"", true, &config, HOST), Reading::Closed));
    assert!(matches!(read_http_request(b"", false, &config, HOST), Reading::Wait));
    assert_eq!(fail(b"POST / HTTP/1.1\n"), (400, "request lines must use CRLF framing"));
    assert_eq!(fail(b"\xff\r\n"), (400, "request line must be ASCII"));
    assert_eq!(fail(b"POST /\r\n"), (400, "request line is invalid"));
    assert_eq!(fail(b"post / HTTP/1.1\r\n"), (400, "request line is invalid"));
    assert_eq!(fail(b"POST / HTTP/1.0\r\n"), (400, "request line is invalid"));
    assert_eq!(fail(b"POST / HTTP/1.1\r\n"), (400, "request headers ended early"));
    assert_eq!(fail(b"POST / HTTP/1.1\r\n a: b\r\n"), (400, "folded headers are not supported"));
    assert_eq!(fail(b"POST / HTTP/1.1\r\nabc\r\n"), (400, "request header is malformed"));
    assert_eq!(fail(b"POST / HTTP/1.1\r\na b: c\r\n"), (400, "request header is invalid"));
    assert_eq!(fail(b"POST / HTTP/1.1\r\na: \x01\r\n"), (400, "request header is invalid"));
    assert_eq!(fail(b"POST / HTTP/1.1\r\nA: b\r\na: c\r\n"), (400, "duplicate request header"));
    assert_eq!(fail(b"POST / HTTP/1.1\r\n\r\n"), (400, "Host header is required"));
    assert_eq!(
        fail(b"POST / HTTP/1.1\r\nHost: h\r\n\r\n"),
        (411, "Content-Length is required for POST")
    );
    assert_eq!(
        fail(b"POST / HTTP/1.1\r\nHost: h\r\nContent-Length: +1\r\n\r\n"),
        (400, "Content-Length is invalid")
    );
    assert_eq!(
        fail(b"POST / HTTP/1.1\r\nHost: h\r\nExpect: 100-continue\r\n\r\n"),
        (400, "request uses an unsupported framing control header")
    );
    assert_eq!(
        fail(format!("POST /{} HTTP/1.1\r\n", "x".repeat(600)).as_bytes()),
        (431, "request headers exceeded the server limit")
    );
    let roomy = McpStreamableHttpServerConfig::default();
    let many = (0..129).map(|i| format!("h{i}: v\r\n")).collect::<String>();
    match read_http_request(format!("POST / HTTP/1.1\r\n{many}\r\n").as_bytes(), true, &roomy, HOST) {
        Reading::Fail(failure) => assert_eq!(failure.message, "too many request headers"),
        _ => panic!("129 headers"),
    }
    let short = format!(
        "POST /mcp HTTP/1.1\r\nHost: {HOST}\r\nAccept: */*\r\nContent-Type: application/json\r\nContent-Length: 5\r\n\r\nabc"
    );
    assert_eq!(fail(short.as_bytes()), (400, "request body ended before Content-Length"));
}

#[test]
fn answers_are_written_exactly() {
    let (text, outcome) = http_response_text(
        HttpResponse::json(200, "{}".to_owned()).with_session("abc"),
        512,
    );
    assert_eq!(outcome, ResponseWriteOutcome::Original);
    assert_eq!(
        text,
        "HTTP/1.1 200 OK\r\nConnection: close\r\nCache-Control: no-store\r\nX-Content-Type-Options: nosniff\r\nMcp-Session-Id: abc\r\nContent-Type: application/json\r\nContent-Length: 2\r\n\r\n{}"
    );
    let (text, _) = http_response_text(HttpResponse::empty(204).with_session("a b"), 512);
    assert_eq!(
        text,
        "HTTP/1.1 204 No Content\r\nConnection: close\r\nCache-Control: no-store\r\nX-Content-Type-Options: nosniff\r\n\r\n"
    );
    let refused = HttpResponse::from_failure(HttpReadFailure::method_not_allowed());
    let (text, _) = http_response_text(refused, 512);
    assert!(text.contains("\r\nAllow: POST, DELETE\r\n"));
    assert!(text.ends_with(
        "{\"jsonrpc\":\"2.0\",\"id\":null,\"error\":{\"code\":-32600,\"message\":\"HTTP method is not supported\"}}"
    ));
    let (text, outcome) = http_response_text(HttpResponse::json(200, "x".repeat(513)), 512);
    assert_eq!(outcome, ResponseWriteOutcome::LimitFallback);
    assert!(text.starts_with("HTTP/1.1 500 Internal Server Error\r\n"));
    assert_eq!(http_reason(418), "Error");
    let id = validate_request_id("9").ok().unwrap();
    let failed = opened_session(&id, LOOPBACK, None);
    assert!(failed.response.is_error());
    assert!(matches!(failed.action, ServerAction::Nothing));
    let opened = opened_session(&id, LOOPBACK, Some("s".to_owned()));
    assert_eq!(opened.response.session_id(), Some("s"));
    assert_eq!(
        opened.response.body(),
        "{\"jsonrpc\":\"2.0\",\"id\":9,\"result\":{\"protocolVersion\":\"2025-11-25\",\"capabilities\":{\"tools\":{}},\"serverInfo\":{\"name\":\"eva\",\"version\":\"0.1.0\"}}}"
    );
    assert!(PeerAddress::V4(0x7fff_ffff).is_loopback());
    assert!(!PeerAddress::V4(0x8000_0000).is_loopback());
    assert!(!PeerAddress::V6(2).is_loopback());
}

#[test]
fn an_empty_report_counts_nothing() {
    let report = McpServerServeReport::default();
    assert_eq!((report.accepted_connections, report.requests, report.sessions_created), (0, 0, 0));
    assert!(report.audit.is_empty());
}

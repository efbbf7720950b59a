//! Clients and servers read what the other side writes.

use eva_mcp::http_framing::{read_http_json_rpc_response, Progress};
use eva_mcp::http_request::{http_request_text, ParsedHttpUrl};
use eva_mcp::json::{parse_json_object_fields, parse_json_string};
use eva_mcp::json_rpc::{
    initialize_request, initialized_notification, json_field_value, parse_json_rpc_response,
    parse_tools_list, tools_call_request, tools_list_request, McpJsonRpcClientConfig,
};
use eva_mcp::server::{EvaMcpServerSurface, McpServerTool, McpServerToolResult};
use eva_mcp::server_config::McpStreamableHttpServerConfig;
use eva_mcp::server_request::{read_http_request, Reading};
use eva_mcp::server_rpc::{
    initialize_result_body, json_rpc_error_body, params_are_empty, parse_request_envelope,
    tool_result_body, tools_list_result_body, validate_initialize_params, validate_request_id,
    ParsedRequestEnvelope,
};
use eva_mcp::server_transport::{http_response_text, HttpResponse, ResponseWriteOutcome};

fn read(body: &str) -> ParsedRequestEnvelope {
    parse_request_envelope(body).ok().unwrap()
}

fn raw_id(envelope: &ParsedRequestEnvelope) -> Option<String> {
    envelope.id.as_ref().map(|id| id.raw().to_owned())
}

#[test]
fn servers_read_the_opening_of_a_session() {
    let config = McpJsonRpcClientConfig::new().with_client_name("a \"client\"");
    let envelope = read(&initialize_request(u64::MAX, &config));
    assert_eq!(raw_id(&envelope).as_deref(), Some("18446744073709551615"));
    assert_eq!(envelope.method, "initialize");
    assert!(validate_initialize_params(&envelope.params).is_ok());

    let other = McpJsonRpcClientConfig::new().with_protocol_version("2024-11-05");
    let envelope = read(&initialize_request(1, &other));
    assert_eq!(
        validate_initialize_params(&envelope.params),
        Err("initialize protocolVersion is unsupported")
    );
    let nameless = McpJsonRpcClientConfig::new().with_client_name("");
    let envelope = read(&initialize_request(1, &nameless));
    assert_eq!(
        validate_initialize_params(&envelope.params),
        Err("initialize clientInfo is invalid")
    );

    let envelope = read(&initialized_notification());
    assert_eq!(raw_id(&envelope), None);
    assert_eq!(envelope.method, "notifications/initialized");
    assert!(params_are_empty(&envelope.params));
}

#[test]
fn servers_read_calls_and_requests_for_tools() {
    let envelope = read(&tools_list_request(2));
    assert_eq!(raw_id(&envelope).as_deref(), Some("2"));
    assert_eq!(envelope.method, "tools/list");
    assert!(params_are_empty(&envelope.params));

    for (input, arguments) in [
        ("", "{}"),
        (" {\"a\": [1, {}]} ", "{\"a\": [1, {}]}"),
        ("plain \"text\"", "{\"input\":\"plain \\\"text\\\"\"}"),
    ] {
        let envelope = read(&tools_call_request(3, "tool \u{e9}", input));
        assert_eq!(envelope.method, "tools/call");
        let params = parse_json_object_fields(envelope.params.as_deref().unwrap()).unwrap();
        assert_eq!(parse_json_string(params.get("name").unwrap()).unwrap(), "tool \u{e9}");
        assert_eq!(params.get("arguments"), Some(arguments));
    }
}

#[test]
fn clients_read_the_answers_of_servers() {
    let id = validate_request_id("3").ok().unwrap();
    let opened = parse_json_rpc_response(&initialize_result_body(&id), 3).unwrap();
    assert_eq!(
        json_field_value(&opened, "protocolVersion").unwrap().as_deref(),
        Some("\"2025-11-25\"")
    );

    let result = McpServerToolResult::error("a\n\"b\" \u{1f600}");
    let read = parse_json_rpc_response(&tool_result_body(&id, &result), 3).unwrap();
    assert_eq!(json_field_value(&read, "isError").unwrap().as_deref(), Some("true"));
    assert_eq!(
        json_field_value(&read, "content").unwrap().as_deref(),
        Some("[{\"type\":\"text\",\"text\":\"a\\n\\\"b\\\" \u{1f600}\"}]")
    );

    let surface = EvaMcpServerSurface::v11_minimal();
    let body = tools_list_result_body(&id, surface.tools());
    let listed = parse_tools_list(&parse_json_rpc_response(&body, 3).unwrap()).unwrap();
    let names = listed.iter().map(|tool| tool.name.as_str()).collect::<Vec<_>>();
    let exposed = surface.tools().iter().map(|tool| tool.name.as_str()).collect::<Vec<_>>();
    assert_eq!(names, exposed);

    let body = json_rpc_error_body(Some(&id), -32602, "tool arguments are invalid");
    let error = parse_json_rpc_response(&body, 3).unwrap_err();
    assert_eq!(error.provider_code(), Some("json_rpc_-32602"));
    assert_eq!(error.context_value("json_rpc_message"), Some("tool arguments are invalid"));
    assert!(parse_json_rpc_response(&body, 4).is_err());
}

#[test]
fn schemas_that_name_a_property_name_are_not_listed() {
    let schema = "{\"type\":\"object\",\"properties\":{\"name\":{\"type\":\"string\"}},\"additionalProperties\":false}";
    let tool = McpServerTool::new("greet", "Greet somebody", schema, false).unwrap();
    let id = validate_request_id("3").ok().unwrap();
    let body = tools_list_result_body(&id, &[tool]);
    assert!(parse_tools_list(&parse_json_rpc_response(&body, 3).unwrap()).is_err());
}

#[test]
fn requests_cross_the_wire() {
    let url = ParsedHttpUrl::parse("http://127.0.0.1:80/mcp", None).ok().unwrap();
    let pair = |name: &str, value: &str| (name.to_owned(), value.to_owned());
    let body = tools_call_request(3, "echo", "\u{e9}");
    let text = http_request_text(
        &url,
        "POST",
        "application/json, text/event-stream",
        &body,
        &vec![pair("X-Token", "a b")],
        &vec![pair("MCP-Protocol-Version", "2025-11-25"), pair("Mcp-Session-Id", "s")],
    )
    .unwrap();
    let config = McpStreamableHttpServerConfig::default();
    for arrived in 0..text.len() {
        assert!(matches!(
            read_http_request(&text.as_bytes()[..arrived], false, &config, "127.0.0.1:80"),
            Reading::Wait
        ));
    }
    match read_http_request(text.as_bytes(), false, &config, "127.0.0.1:80") {
        Reading::Ready(request) => {
            assert_eq!(request.method, "POST");
            assert_eq!(request.target, "/mcp");
            assert_eq!(request.header("host"), Some("127.0.0.1:80"));
            assert_eq!(request.header("x-token"), Some("a b"));
            assert_eq!(request.header("mcp-session-id"), Some("s"));
            assert_eq!(request.body, body);
        }
        _ => panic!("the request is complete"),
    }
}

#[test]
fn answers_cross_the_wire() {
    let body = "{\"a\":\"\u{e9}\"}".to_owned();
    let (text, outcome) =
        http_response_text(HttpResponse::json(200, body.clone()).with_session("s"), 4096);
    assert_eq!(outcome, ResponseWriteOutcome::Original);
    match read_http_json_rpc_response(text.as_bytes(), false, 4096, false) {
        Progress::Ready(response) => {
            assert_eq!(response.status_code, 200);
            assert_eq!(response.content_type.as_deref(), Some("application/json"));
            assert_eq!(response.session_id.as_deref(), Some("s"));
            assert_eq!(response.body, body.as_bytes());
            assert!(!response.body_truncated);
        }
        _ => panic!("the answer is complete"),
    }
    let (text, _) = http_response_text(HttpResponse::empty(204), 4096);
    match read_http_json_rpc_response(text.as_bytes(), false, 4096, false) {
        Progress::Ready(response) => {
            assert_eq!(response.status_code, 204);
            assert!(response.body.is_empty());
        }
        _ => panic!("the answer is complete"),
    }
}

//! The JSON-RPC client, the JSON it reads and the allowlist it applies.

use std::collections::VecDeque;

use eva_mcp::client::{InMemoryMcpClient, McpProbeStatus};
use eva_mcp::error::{ErrorKind, EvaError};
use eva_mcp::identity::{AdapterId, RequestId};
use eva_mcp::json::{
    escape_json, json_string, parse_json_object_fields, parse_json_string,
    parse_json_string_array, MAX_JSON_NESTING_DEPTH,
};
use eva_mcp::json_rpc::{
    enforce_response_limit, initialize_request, initialized_notification, json_i64_field,
    json_u64_field, map_json_rpc_error, parse_json_rpc_response, parse_sse_json_rpc_envelope,
    parse_tools_list, tool_arguments_json, tools_call_request, tools_list_request,
    truncate_context, validate_client_config, validate_mcp_protocol_version, McpJsonRpcClient,
    McpJsonRpcClientConfig, McpJsonRpcMessageId, McpJsonRpcMessageKind, McpJsonRpcTransport,
    MAX_CONTEXT_CHARS,
};
use eva_mcp::policy::McpAllowlist;
use eva_mcp::schema::McpSchemaFamily;

fn assert_provider_code(error: &EvaError, expected: &str) {
    assert_eq!(error.provider_code(), Some(expected), "unexpected error: {error:?}");
}

struct FakeTransport {
    responses: VecDeque<Result<String, EvaError>>,
    requests: Vec<String>,
    notifications: Vec<String>,
}

impl FakeTransport {
    fn with_responses(responses: Vec<String>) -> Self {
        Self {
            responses: responses.into_iter().map(Ok).collect(),
            requests: Vec::new(),
            notifications: Vec::new(),
        }
    }

    fn with_error(error: EvaError) -> Self {
        Self {
            responses: vec![Err(error)].into_iter().collect(),
            requests: Vec::new(),
            notifications: Vec::new(),
        }
    }
}

impl McpJsonRpcTransport for FakeTransport {
    fn exchange(
        &mut self,
        _expected_id: u64,
        request: &str,
        _timeout_ms: u64,
        _output_limit_bytes: usize,
    ) -> Result<String, EvaError> {
        self.requests.push(request.to_owned());
        self.responses
            .pop_front()
            .unwrap_or_else(|| Err(EvaError::unavailable("fake response missing")))
    }

    fn notify(
        &mut self,
        notification: &str,
        _timeout_ms: u64,
        _output_limit_bytes: usize,
    ) -> Result<(), EvaError> {
        self.notifications.push(notification.to_owned());
        Ok(())
    }

    fn audit(&self) -> Vec<String> {
        Vec::new()
    }
}

fn client(tools: &[&str]) -> McpJsonRpcClient {
    McpJsonRpcClient::new(AdapterId::new("github-mcp"), McpAllowlist::from_tools(tools).unwrap())
}

fn response(id: u64, result: &str) -> String {
    format!("{{\"jsonrpc\":\"2.0\",\"id\":{id},\"result\":{result}}}")
}

fn nested_arrays(depth: usize) -> String {
    format!("{}null{}", "[".repeat(depth), "]".repeat(depth))
}

#[test]
fn direct_object_parser_enforces_json_nesting_boundary() {
    let accepted = format!("{{\"value\":{}}}", nested_arrays(MAX_JSON_NESTING_DEPTH - 1));
    let rejected = format!("{{\"value\":{}}}", nested_arrays(MAX_JSON_NESTING_DEPTH));

    assert!(parse_json_object_fields(&accepted).is_ok());
    let error = parse_json_object_fields(&rejected).unwrap_err();
    assert!(error.message().contains("nesting limit exceeded"));
}

#[test]
fn json_rpc_client_calls_fake_mcp_server_tool() {
    let client = client(&["list_issues"]);
    let mut transport = FakeTransport::with_responses(vec![
        response(1, "{\"protocolVersion\":\"2025-11-25\",\"capabilities\":{},\"serverInfo\":{\"name\":\"fake\",\"version\":\"1\"}}"),
        response(2, "{\"tools\":[{\"name\":\"list_issues\",\"inputSchema\":{\"type\":\"object\"}}]}"),
        response(3, "{\"content\":[{\"type\":\"text\",\"text\":\"ok\"}],\"isError\":false}"),
    ]);

    let report = client
        .call_tool_with_transport(
            &mut transport,
            RequestId::new("req-mcp-json-rpc"),
            "list_issues",
            "{\"owner\":\"eva\"}",
        )
        .unwrap();

    assert_eq!(report.tool, "list_issues");
    assert!(report.output.as_str().contains("\"mode\":\"json-rpc\""));
    assert_eq!(transport.requests.len(), 3);
    assert!(transport.requests[0].contains("\"method\":\"initialize\""));
    assert!(transport.requests[1].contains("\"method\":\"tools/list\""));
    assert!(transport.requests[2].contains("\"method\":\"tools/call\""));
    assert!(transport.notifications[0].contains("notifications/initialized"));
}

#[test]
fn blocked_tool_does_not_send_rpc() {
    let client = client(&["list_issues"]);
    let mut transport = FakeTransport::with_responses(Vec::new());

    let error = client
        .call_tool_with_transport(
            &mut transport,
            RequestId::new("req-mcp-blocked"),
            "delete_repo",
            "{}",
        )
        .err()
        .unwrap();

    assert_eq!(error.kind(), ErrorKind::PermissionDenied);
    assert!(transport.requests.is_empty());
    assert!(transport.notifications.is_empty());
}

#[test]
fn blocked_http_tool_is_rejected_before_endpoint_validation() {
    let error = client(&["list_issues"]).check_call("delete_repo").unwrap_err();

    assert_eq!(error.kind(), ErrorKind::PermissionDenied);
}

#[test]
fn json_rpc_error_object_maps_to_stable_provider_error() {
    let client = client(&["list_issues"]);
    let mut transport = FakeTransport::with_responses(vec![
        response(1, "{\"protocolVersion\":\"2025-11-25\"}"),
        response(2, "{\"tools\":[{\"name\":\"list_issues\"}]}"),
        "{\"jsonrpc\":\"2.0\",\"id\":3,\"error\":{\"code\":-32602,\"message\":\"bad params\"}}"
            .to_owned(),
    ]);

    let error = client
        .call_tool_with_transport(
            &mut transport,
            RequestId::new("req-mcp-error"),
            "list_issues",
            "{}",
        )
        .err()
        .unwrap();

    assert_eq!(error.kind(), ErrorKind::Unavailable);
    assert_provider_code(&error, "json_rpc_-32602");
}

#[test]
fn oversized_response_has_stable_error() {
    let client = client(&["list_issues"]).with_config(
        McpJsonRpcClientConfig::new()
            .with_request_timeout_ms(1_000)
            .with_output_limit_bytes(32),
    );
    let mut transport = FakeTransport::with_responses(vec![response(
        1,
        "{\"protocolVersion\":\"2025-11-25\",\"padding\":\"this response is too large\"}",
    )]);

    let error = client
        .call_tool_with_transport(
            &mut transport,
            RequestId::new("req-mcp-large"),
            "list_issues",
            "{}",
        )
        .err()
        .unwrap();

    assert_eq!(error.kind(), ErrorKind::Conflict);
    assert_provider_code(&error, "mcp_response_too_large");
}

#[test]
fn transport_timeout_is_preserved() {
    let client = client(&["list_issues"]);
    let mut transport = FakeTransport::with_error(EvaError::timeout("fake timeout"));

    let error = client
        .call_tool_with_transport(
            &mut transport,
            RequestId::new("req-mcp-timeout"),
            "list_issues",
            "{}",
        )
        .err()
        .unwrap();

    assert_eq!(error.kind(), ErrorKind::Timeout);
    assert_eq!(transport.requests.len(), 1);
}

#[test]
fn allowlist_rejects_unknown_tool() {
    let allowlist = McpAllowlist::from_tools(&["list_issues"]).unwrap();

    assert!(allowlist.permits_tool("list_issues"));
    assert_eq!(
        allowlist.require_tool("delete_repo").unwrap_err().kind(),
        ErrorKind::PermissionDenied
    );
}

#[test]
fn in_memory_client_blocks_unlisted_tool() {
    let client = InMemoryMcpClient::new(
        AdapterId::new("github-mcp"),
        McpAllowlist::from_tools(&["list_issues"]).unwrap(),
    );

    assert_eq!(client.probe_tool("list_issues").status, McpProbeStatus::Allowed);
    assert!(client.call_tool(RequestId::new("req-1"), "delete_repo", "{}").is_err());
}

#[test]
fn in_memory_client_answers_with_an_envelope() {
    let client = InMemoryMcpClient::new(
        AdapterId::new("github-mcp"),
        McpAllowlist::from_tools(&["list_issues"]).unwrap(),
    );
    let report = client
        .call_tool(RequestId::new("req-1"), "list_issues", "{\"a\":\"b\\\n\t\r\u{1}\"}")
        .unwrap();
    assert_eq!(
        report.output.as_str(),
        "{\"transport\":\"mcp\",\"adapter_id\":\"github-mcp\",\"tool\":\"list_issues\",\"mode\":\"controlled-envelope\",\"input\":\"{\\\"a\\\":\\\"b\\\\\\n\\t\\r\u{1}\\\"}\"}"
    );
    assert!(!report.describe().contains("controlled-envelope"));
    assert_eq!(client.probe_tool("delete_repo").status.as_str(), "blocked");
    assert_eq!(client.probe_tool("delete_repo").message, "tool is not in the MCP allowlist");
    assert_eq!(client.adapter_id().as_str(), "github-mcp");
    assert_eq!(client.allowlist().tools(), vec!["list_issues".to_owned()]);
}

#[test]
fn allowlist_tokens_are_trimmed_and_ordered() {
    let mut list = McpAllowlist::new();
    for refused in ["", " a", "a ", "a b", "a\u{a0}b", "\u{2003}a"] {
        assert!(list.allow_tool(refused).is_err(), "{refused:?}");
        assert!(list.allow_resource(refused).is_err());
        assert!(list.allow_prompt(refused).is_err());
    }
    for tool in ["b", "a", "ab", "b", "\u{e9}"] {
        list.allow_tool(tool).unwrap();
    }
    list.allow_resource("r").unwrap();
    list.allow_prompt("p").unwrap();
    assert_eq!(list.tools(), vec!["a", "ab", "b", "\u{e9}"]);
    assert_eq!(list.resources(), vec!["r"]);
    assert_eq!(list.prompts(), vec!["p"]);
    let error = McpAllowlist::from_tools(&["good", "bad token", ""]).unwrap_err();
    assert_eq!(error.message(), "MCP allowlist token cannot contain whitespace");
    assert_eq!(error.context_value("value"), Some("bad token"));
}

#[test]
fn listed_tool_is_required_before_the_call() {
    let client = client(&["list_issues"]);
    let mut transport = FakeTransport::with_responses(vec![
        response(1, "{\"protocolVersion\":\"2025-11-25\"}"),
        response(2, "{\"tools\":[{\"name\":\"other\"}]}"),
    ]);
    let error = client
        .call_tool_with_transport(&mut transport, RequestId::new("r"), "list_issues", "{}")
        .err()
        .unwrap();
    assert_eq!(transport.requests.len(), 2);
    assert_eq!(error.context_value("tool"), Some("list_issues"));
}

#[test]
fn requests_are_written_exactly() {
    let config = McpJsonRpcClientConfig::new().with_client_name("a\"b");
    assert_eq!(
        initialize_request(1, &config),
        "{\"jsonrpc\":\"2.0\",\"id\":1,\"method\":\"initialize\",\"params\":{\"protocolVersion\":\"2025-11-25\",\"capabilities\":{},\"clientInfo\":{\"name\":\"a\\\"b\",\"version\":\"0.1.0\"}}}"
    );
    assert_eq!(
        initialized_notification(),
        "{\"jsonrpc\":\"2.0\",\"method\":\"notifications/initialized\",\"params\":{}}"
    );
    assert_eq!(
        tools_list_request(18446744073709551615),
        "{\"jsonrpc\":\"2.0\",\"id\":18446744073709551615,\"method\":\"tools/list\",\"params\":{}}"
    );
    assert_eq!(
        tools_call_request(3, "t", " {\"x\":1} "),
        "{\"jsonrpc\":\"2.0\",\"id\":3,\"method\":\"tools/call\",\"params\":{\"name\":\"t\",\"arguments\":{\"x\":1}}}"
    );
    assert_eq!(tool_arguments_json("  "), "{}");
    assert_eq!(tool_arguments_json("plain"), "{\"input\":\"plain\"}");
}

#[test]
fn quoted_text_decodes_to_itself() {
    let mut text = String::new();
    for code in 0..0x3000_u32 {
        if let Some(c) = char::from_u32(code) {
            text.push(c);
        }
    }
    text.push('\u{1f600}');
    assert_eq!(parse_json_string(&json_string(&text)).unwrap(), text);
    assert_eq!(escape_json("\u{1}\u{7f}\u{9f}"), "\\u0001\\u007f\\u009f");
    assert_eq!(parse_json_string("\"\\u00e9\\/\\b\\f\"").unwrap(), "\u{e9}/\u{8}\u{c}");
    for malformed in ["", "x", "\"", "\"\\", "\"\\x\"", "\"\\u12\"", "\"\\uZZZZ\"", "\"\\uDC00\"", "\"\\uD800x\""] {
        assert!(parse_json_string(malformed).is_err(), "{malformed}");
    }
}

#[test]
fn object_fields_are_read_in_order() {
    let fields = parse_json_object_fields(" { \"a\" : [1, 2.5e3] , \"b\" : {\"c\":null} } ").unwrap();
    assert_eq!(fields.len(), 2);
    assert_eq!(fields.key_at(0), "a");
    assert_eq!(fields.value_at(0), "[1, 2.5e3]");
    assert_eq!(fields.get("b"), Some("{\"c\":null}"));
    assert_eq!(fields.get("c"), None);
    for malformed in [
        "", "[]", "{", "{\"a\"}", "{\"a\":1,}", "{\"a\":1 \"b\":2}", "{\"a\":1,\"a\":2}",
        "{\"a\":01}", "{\"a\":+1}", "{\"a\":1}x", "{\"a\":tru}", "{\"a\":[1,]}", "{\"a\":{\"b\" 1}}",
    ] {
        assert!(parse_json_object_fields(malformed).is_err(), "{malformed}");
    }
    assert_eq!(parse_json_string_array("[\"a\" , \"b\"]").unwrap(), vec!["a", "b"]);
    assert!(parse_json_string_array("[\"a\",]").is_err());
    assert!(parse_json_string_array("[1]").is_err());
}

#[test]
fn replies_are_checked_exactly() {
    assert_eq!(parse_json_rpc_response(&response(7, "{\"a\":1}"), 7).unwrap(), "{\"a\":1}");
    assert!(parse_json_rpc_response(&response(8, "1"), 7).unwrap_err().message().contains("id mismatch"));
    assert!(parse_json_rpc_response("{\"jsonrpc\":\"1.0\",\"id\":7,\"result\":1}", 7).is_err());
    assert!(parse_json_rpc_response("{\"jsonrpc\":\"2.0\",\"result\":1}", 7).is_err());
    assert!(parse_json_rpc_response("{\"jsonrpc\":\"2.0\",\"id\":7}", 7).is_err());
    let mapped = map_json_rpc_error("{}", 4);
    assert_provider_code(&mapped, "json_rpc_0");
    assert_eq!(mapped.context_value("json_rpc_message"), Some("MCP JSON-RPC error"));
    assert_eq!(json_u64_field("{\"n\":18446744073709551615}", "n").unwrap(), Some(u64::MAX));
    assert!(json_u64_field("{\"n\":18446744073709551616}", "n").is_err());
    assert_eq!(json_i64_field("{\"n\":-9223372036854775808}", "n").unwrap(), Some(i64::MIN));
    assert!(json_i64_field("{\"n\":9223372036854775808}", "n").is_err());
    assert!(enforce_response_limit("\u{e9}", 2).is_ok());
    assert!(enforce_response_limit("\u{e9}", 1).is_err());
    let long = "x".repeat(MAX_CONTEXT_CHARS + 5);
    assert_eq!(truncate_context(&long).len(), MAX_CONTEXT_CHARS);
    assert_eq!(parse_tools_list("{\"tools\":[{\"name\":\"a\"},{\"name\":\"b\"}]}").unwrap().len(), 2);
    assert_provider_code(&parse_tools_list("{}").unwrap_err(), "mcp_tools_list_missing_tools");
}

#[test]
fn envelopes_of_a_stream_are_told_apart() {
    let notice = parse_sse_json_rpc_envelope("{\"jsonrpc\":\"2.0\",\"method\":\"notice\"}").unwrap();
    assert_eq!(notice.kind, McpJsonRpcMessageKind::Notification);
    assert!(notice.request_id.is_none());
    let request =
        parse_sse_json_rpc_envelope("{\"jsonrpc\":\"2.0\",\"id\":\"x\",\"method\":\"ask\"}").unwrap();
    assert_eq!(request.kind, McpJsonRpcMessageKind::Request);
    assert!(request.request_id == Some(McpJsonRpcMessageId::String("x".to_owned())));
    let reply = parse_sse_json_rpc_envelope(&response(7, "true")).unwrap();
    assert_eq!(reply.kind, McpJsonRpcMessageKind::Response);
    assert!(reply.request_id == Some(McpJsonRpcMessageId::Number(7)));
    assert!(parse_sse_json_rpc_envelope("{\"jsonrpc\":\"2.0\"}").is_err());
}

#[test]
fn client_settings_are_bounded() {
    assert!(validate_client_config(&McpJsonRpcClientConfig::new()).is_ok());
    let error = validate_client_config(&McpJsonRpcClientConfig::new().with_request_timeout_ms(0))
        .unwrap_err();
    assert!(error.message().contains("timeout must be greater than zero"));
    assert!(validate_client_config(&McpJsonRpcClientConfig::new().with_output_limit_bytes(0)).is_err());
    assert!(validate_mcp_protocol_version("2025-11-25").is_ok());
    for refused in ["", "bad version", "\u{e9}"] {
        assert_provider_code(
            &validate_mcp_protocol_version(refused).unwrap_err(),
            "mcp_protocol_version_invalid",
        );
    }
    assert!(validate_mcp_protocol_version(&"x".repeat(128)).is_ok());
    assert!(validate_mcp_protocol_version(&"x".repeat(129)).is_err());
}

#[test]
fn schema_families_have_stable_names() {
    assert_eq!(McpSchemaFamily::ToolCall.as_str(), "mcp.tool_call");
    assert_eq!(McpSchemaFamily::ToolResult.as_str(), "mcp.tool_result");
    assert_eq!(McpSchemaFamily::ErrorEnvelope.as_str(), "mcp.error_envelope");
}

//! Compatibility evidence.

use eva_mcp::collections::NameMap;
use eva_mcp::compatibility::{
    sha256_digest, write_manifest, McpCompatibilityEvidenceKind, McpCompatibilityMatrix,
    McpCompatibilityMeasurement, TlsLifecycleRun, COMPATIBILITY_TOOL,
};
use eva_mcp::compatibility_run::{
    classify_fixture_request, compatibility_surface, connection_failed, direct_json_rpc_result,
    read_bounded_http_request, read_controlled_run, require_complete_abort, single_array_value,
    validate_controlled_server_report, CompatibilityEchoHandler, FixtureRequest, TlsFixtureRun,
    COMPATIBILITY_INPUT, COMPATIBILITY_SCHEMA,
};
use eva_mcp::error::EvaError;
use eva_mcp::http_framing::{read_http_json_rpc_response, Progress};
use eva_mcp::http_registry::{
    ManagedReaderExit, McpHttpAbortReceipt, McpStreamableHttpSessionRegistry, ReaderOutcome,
    ReaderWait,
};
use eva_mcp::http_reply::HttpExchangeResponse;
use eva_mcp::http_request::{http_request_head, ParsedHttpUrl};
use eva_mcp::http_session::{McpHttpJsonRpcTransport, ShutdownPlan};
use eva_mcp::identity::AdapterId;
use eva_mcp::json_rpc::{
    initialize_request, initialized_notification, tools_call_request, tools_list_request,
    McpJsonRpcClientConfig, DEFAULT_PROTOCOL_VERSION,
};
use eva_mcp::server_config::McpStreamableHttpServerConfig;
use eva_mcp::server_request::{read_http_request, Reading};
use eva_mcp::server_transport::{
    http_response_text, Admission, McpStreamableHttpServer, PeerAddress,
};
use eva_mcp::session::McpServerTransport;

const HOST: &str = "127.0.0.1:8123";

fn assert_provider_code(error: &EvaError, expected: &str) {
    assert_eq!(error.provider_code(), Some(expected), "unexpected error: {error:?}");
}

#[test]
fn v1137_fixture_verifies_mcp_compatibility_matrix() {
    let matrix = McpCompatibilityMatrix::v1137_fixture();
    assert_eq!(matrix.evidence_kind(), McpCompatibilityEvidenceKind::Fixture);
    let report = matrix.verify().unwrap();

    assert_eq!(report.evidence_kind(), McpCompatibilityEvidenceKind::Fixture);
    assert_eq!(report.status, "compatible");
    assert_eq!(report.transport_count, 2);
    assert_eq!(report.tool_schema_count, 1);
    assert!(report.failures.is_empty());
    assert!(report.audit.contains(
        &"mcp.transport:http:json_rpc=true,auth_headers=true,limits=true,stream_lifecycle=true"
            .to_owned()
    ));
}

#[test]
fn compatibility_matrix_blocks_missing_stream_cleanup() {
    let mut matrix = McpCompatibilityMatrix::v1137_fixture();
    matrix.stream_lifecycle.cleanup = false;

    let report = matrix.verify().unwrap();

    assert_eq!(report.status, "blocked");
    assert!(report.failures.contains(&"stream_lifecycle:cleanup_missing".to_owned()));
}

#[test]
fn compatibility_matrix_blocks_missing_transport_stream_lifecycle() {
    let mut matrix = McpCompatibilityMatrix::v1137_fixture();
    matrix.transports[1].stream_lifecycle = false;

    let report = matrix.verify().unwrap();

    assert_eq!(report.status, "blocked");
    assert!(report.failures.contains(&"transport:http_stream_lifecycle_missing".to_owned()));
}

#[test]
fn compatibility_matrix_blocks_unlimited_server_proxy() {
    let mut matrix = McpCompatibilityMatrix::v1137_fixture();
    matrix.server_surface.unlimited_proxy_exposed = true;

    let report = matrix.verify().unwrap();

    assert_eq!(report.status, "blocked");
    assert!(report.failures.contains(&"server_surface:unlimited_proxy_exposed".to_owned()));
}

/// What answers the requests of a client.
trait Peer {
    fn answer(&mut self, request: &str) -> Vec<u8>;
}

struct ControlledServer {
    server: McpStreamableHttpServer<CompatibilityEchoHandler>,
}

impl Peer for ControlledServer {
    fn answer(&mut self, request: &str) -> Vec<u8> {
        self.server.note_connection();
        let request =
            match read_http_request(request.as_bytes(), false, self.server.config(), HOST) {
                Reading::Ready(request) => request,
                _ => panic!("the request is not complete"),
            };
        let result = match self.server.receive(&request, PeerAddress::V4(0x7f00_0001)) {
            Admission::Answer(result) => result,
            Admission::Call(call) => self.server.run_call(call, false),
        };
        let limit = self.server.config().response_limit_bytes();
        let (text, outcome) = http_response_text(result.response, limit);
        self.server.commit_action_after_response(result.action, Some(outcome), false);
        text.into_bytes()
    }
}

struct Fixture {
    run: TlsFixtureRun,
}

impl Peer for Fixture {
    fn answer(&mut self, request: &str) -> Vec<u8> {
        self.run.note_handshake(false, Some("TLSv1_3".to_owned())).unwrap();
        let whole = match read_bounded_http_request(request.as_bytes(), false) {
            Ok(Some(whole)) => whole,
            _ => panic!("the request is not complete"),
        };
        let asked = classify_fixture_request(&whole);
        self.run.take_request(asked, true).unwrap().into_bytes()
    }
}

struct Session {
    transport: McpHttpJsonRpcTransport,
}

impl Session {
    fn new() -> Self {
        let url = ParsedHttpUrl::parse(&format!("http://{HOST}/mcp"), None).ok().unwrap();
        Self { transport: McpHttpJsonRpcTransport::new(url, &NameMap::new(), false).ok().unwrap() }
    }

    fn send<P: Peer>(
        &self,
        peer: &mut P,
        method: &str,
        body: &str,
        session: &Vec<(String, String)>,
    ) -> eva_mcp::http_framing::HttpJsonRpcResponse {
        let mut request = http_request_head(
            self.transport.endpoint(),
            method,
            if method == "GET" { "text/event-stream" } else { "application/json, text/event-stream" },
            body,
            &Vec::new(),
            session,
        )
        .unwrap();
        request.push_str(body);
        let mut raw = peer.answer(&request);
        if method == "GET" {
            raw.extend_from_slice(b"0\r\n\r\n");
        }
        match read_http_json_rpc_response(&raw, false, 65536, true) {
            Progress::Ready(response) => response,
            Progress::Wait => panic!("the response is not complete"),
            Progress::Fail(fault) => panic!("{:?}", fault.to_error(HOST)),
        }
    }

    fn exchange<P: Peer>(&mut self, peer: &mut P, id: u64, body: &str) -> String {
        let plan = self.transport.begin_exchange(body, 65536).ok().unwrap();
        let response = self.send(peer, "POST", body, &plan.session_headers);
        self.transport
            .finish_exchange(plan, HttpExchangeResponse::Buffered(response), id, 65536)
            .unwrap()
    }

    /// Open a session and call the tool; the three replies.
    fn call_tool<P: Peer>(&mut self, peer: &mut P) -> (String, String, String) {
        let initialize =
            self.exchange(peer, 1, &initialize_request(1, &McpJsonRpcClientConfig::new()));
        let notification = initialized_notification();
        let (initialized, headers) = self.transport.begin_notify(&notification, 65536).unwrap();
        let response = self.send(peer, "POST", &notification, &headers);
        self.transport.finish_notify(initialized, &response, 65536).unwrap();
        let list = self.exchange(peer, 2, &tools_list_request(2));
        let call = self.exchange(
            peer,
            3,
            &tools_call_request(3, COMPATIBILITY_TOOL, COMPATIBILITY_INPUT),
        );
        (initialize, list, call)
    }

    fn delete<P: Peer>(&mut self, peer: &mut P) -> Option<EvaError> {
        match self.transport.begin_shutdown(65536) {
            Ok(ShutdownPlan::Delete(headers)) => {
                let response = self.send(peer, "DELETE", "", &headers);
                self.transport.shutdown_session(&response, 65536).err()
            }
            Ok(ShutdownPlan::Closed) => None,
            Err(error) => Some(error),
        }
    }
}

fn controlled_run() -> (String, String, String) {
    let mut peer = ControlledServer {
        server: McpStreamableHttpServer::from_listener(
            PeerAddress::V4(0x7f00_0001),
            HOST,
            McpStreamableHttpServerConfig::default(),
            compatibility_surface().ok().unwrap(),
            CompatibilityEchoHandler::new(),
        )
        .ok()
        .unwrap(),
    };
    peer.server.started();
    let mut session = Session::new();
    let replies = session.call_tool(&mut peer);
    assert!(session.delete(&mut peer).is_none());
    validate_controlled_server_report(&peer.server.finish()).unwrap();
    replies
}

fn abort_receipt(session: &mut Session, peer: &mut Fixture) -> McpHttpAbortReceipt {
    let mut registry = McpStreamableHttpSessionRegistry::new();
    let registered =
        registry.register_session(AdapterId::new("compatibility"), session.transport.is_ready()).unwrap();
    registry.begin_stream(&registered.session_id, "events").unwrap();
    let headers = session.transport.begin_stream(65536).ok().unwrap();
    let response = session.send(peer, "GET", "", &headers);
    session.transport.open_event_stream(&response).unwrap();
    registry.stream_opened(&registered.session_id, "events").unwrap();
    let abort = registry.begin_abort(&registered.session_id, "events").ok().unwrap();
    let abort = abort.socket_shutdown(Ok(())).ok().unwrap();
    let deleted = if abort.deletes_session() { session.delete(peer) } else { None };
    let outcome = ReaderOutcome {
        wait: ReaderWait::Joined { panicked: false },
        reason: Some(ManagedReaderExit::Cancelled),
    };
    registry.abort_stream_with_receipt(abort, deleted, outcome).ok().unwrap().1
}

fn lifecycle_run() -> TlsLifecycleRun {
    let mut peer = Fixture { run: TlsFixtureRun::new() };
    let mut session = Session::new();
    session.call_tool(&mut peer);
    assert!(peer.run.goes_on());
    let receipt = abort_receipt(&mut session, &mut peer);
    require_complete_abort(&receipt).unwrap();
    assert!(!peer.run.goes_on());
    peer.run.finish(Some(true)).ok().unwrap().into_lifecycle_run(receipt).unwrap()
}

#[test]
fn loopback_measurement_runs_server_tls_and_real_abort_before_sealing_subject() {
    let (initialize, list, call) = controlled_run();
    let run = read_controlled_run(&initialize, &list, &call).unwrap();
    let measurement =
        McpCompatibilityMeasurement::measure_loopback(run, lifecycle_run()).ok().unwrap();

    assert_eq!(measurement.server_name(), "eva");
    assert_eq!(measurement.server_version(), "0.1.0");
    assert_eq!(measurement.protocol_version(), DEFAULT_PROTOCOL_VERSION);
    assert_eq!(measurement.transport(), McpServerTransport::StreamableHttp);
    assert_eq!(measurement.tool_name(), COMPATIBILITY_TOOL);
    assert!(measurement.tls().handshake_completed());
    assert_eq!(measurement.tls().peer_name(), "127.0.0.1");
    assert!(matches!(measurement.tls().protocol(), "TLSv1_2" | "TLSv1_3"));
    assert!(measurement.tls().handshake_count() > 0);
    assert_eq!(measurement.schema().sha256(), sha256_digest(COMPATIBILITY_SCHEMA.as_bytes()));
    assert_eq!(measurement.schema().bytes(), COMPATIBILITY_SCHEMA.len());
    assert!(measurement.output().sha256().starts_with("sha256:"));
    assert!(measurement.output().bytes() > 0);
    assert!(measurement.observations().initialize_server_info());
    assert!(measurement.observations().tools_list_schema());
    assert!(measurement.observations().tools_call_result());
    assert!(measurement.abort().complete());
    assert_eq!(measurement.abort().sessions_after(), 0);
    assert_eq!(measurement.abort().readers_after(), 0);
    assert_eq!(measurement.abort().cleanup_pending_after(), 0);

    let manifest = measurement.canonical_manifest();
    assert!(manifest.starts_with("format=eva.mcp-compatibility.v1\n"));
    assert!(manifest.ends_with("abort_cleanup_pending_after=0\n"));
    assert!(!manifest.contains(COMPATIBILITY_SCHEMA));
    assert!(!manifest.contains("loopback-ok"));
    assert_eq!(
        measurement.canonical_digest(),
        sha256_digest(measurement.subject_bytes())
    );
    let report = measurement.verify().unwrap();
    assert_eq!(report.evidence_kind(), McpCompatibilityEvidenceKind::Measurement);
    assert_eq!(report.status, "compatible");
    assert!(report.failures.is_empty());
}

#[test]
fn digests_are_sha256() {
    assert_eq!(
        sha256_digest(b""),
        "sha256:e3b0c44298fc1c149afbf4c8996fb92427ae41e4649b934ca495991b7852b855"
    );
    assert_eq!(
        sha256_digest(b"abc"),
        "sha256:ba7816bf8f01cfea414140de5dae2223b00361a396177a9cb410ff61f20015ad"
    );
}

#[test]
fn incomplete_runs_are_not_measured() {
    let (initialize, list, call) = controlled_run();
    let mut late = lifecycle_run();
    late.delete_observed = false;
    let run = read_controlled_run(&initialize, &list, &call).unwrap();
    assert!(McpCompatibilityMeasurement::measure_loopback(run, late).is_err());
    assert!(read_controlled_run(&list, &list, &call).is_err());
    assert!(read_controlled_run(&initialize, &initialize, &call).is_err());
    assert!(read_controlled_run(&initialize, &list, &list).is_err());
    assert!(direct_json_rpc_result("{\"jsonrpc\":\"2.0\",\"id\":1,\"result\":[2]}", "1").ok().as_deref() == Some("[2]"));
    assert!(direct_json_rpc_result("{\"jsonrpc\":\"2.0\",\"id\":2,\"result\":[2]}", "1").is_err());
    assert_eq!(single_array_value(" [ {\"a\":1} ] ").unwrap(), "{\"a\":1}");
    assert!(single_array_value("[1,2]").is_err());
    assert!(single_array_value("[]").is_err());
}

#[test]
fn manifests_hold_plain_lines() {
    let entry = |key: &str, value: &str| (key.to_owned(), value.to_owned());
    assert_eq!(
        write_manifest(&vec![entry("a", "1"), entry("b", "x y")]).unwrap(),
        "a=1\nb=x y\n"
    );
    for value in ["", "a=b", "a\nb", "\u{e9}"] {
        assert_provider_code(
            &write_manifest(&vec![entry("a", value)]).unwrap_err(),
            "mcp_compatibility_manifest_invalid",
        );
    }
}

#[test]
fn servers_of_a_run_see_every_step_in_order() {
    let mut run = TlsFixtureRun::new();
    run.note_handshake(false, Some("TLSv1_3".to_owned())).unwrap();
    assert_provider_code(
        &run.note_handshake(false, Some("TLSv1_2".to_owned())).unwrap_err(),
        "mcp_compatibility_tls_protocol_changed",
    );
    for (handshaking, protocol, message) in [
        (true, Some("TLSv1_3".to_owned()), "MCP compatibility TLS handshake did not complete"),
        (false, None, "MCP compatibility TLS protocol was not negotiated"),
    ] {
        let error = run.note_handshake(handshaking, protocol).unwrap_err();
        assert_provider_code(&error, "mcp_compatibility_tls_handshake_failed");
        assert_eq!(error.message(), message);
    }
    let error = connection_failed("no cipher");
    assert_provider_code(&error, "mcp_compatibility_tls_handshake_failed");
    assert_eq!(error.context_value("tls_error"), Some("no cipher"));
    assert!(run.take_request(None, true).is_err());
    assert!(run.finish(Some(true)).is_err());

    let mut run = TlsFixtureRun::new();
    run.note_handshake(false, Some("TLSv1_3".to_owned())).unwrap();
    run.take_request(Some(FixtureRequest::Delete), true).unwrap();
    let receipt = lifecycle_run().lifecycle;
    assert_provider_code(
        &run.finish(None).ok().unwrap().into_lifecycle_run(receipt).unwrap_err(),
        "mcp_compatibility_tls_incomplete",
    );
}

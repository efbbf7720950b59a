//! The registries of sessions and streams.

use eva_mcp::collections::NameMap;
use eva_mcp::error::{ErrorKind, EvaError};
use eva_mcp::http_framing::{read_http_json_rpc_response, HttpJsonRpcResponse, Progress};
use eva_mcp::http_reply::HttpExchangeResponse;
use eva_mcp::http_registry::{
    delete_expired, delete_plan, managed_reader_terminal_error, reader_failed,
    release_queued_bytes, reserve_queued_bytes, run_managed_http_reader, wait_step, DeletePlan,
    ManagedReaderExit, McpHttpAbortReceipt, McpHttpDrainReport, McpStreamableHttpSessionRegistry,
    ReaderMove, ReaderOutcome, ReaderSight, ReaderWait, WaitStep,
};
use eva_mcp::http_request::{http_request_head, ParsedHttpUrl};
use eva_mcp::http_session::{McpHttpJsonRpcTransport, ShutdownPlan};
use eva_mcp::identity::{AdapterId, RequestId};
use eva_mcp::json_rpc::{McpJsonRpcCallReport, McpJsonRpcClient, McpJsonRpcTransport};
use eva_mcp::lifecycle::{
    validate_explicit_tools, validate_stream_id, McpProcessInspector, McpSessionLifecycleReport,
    McpSessionLifecycleStatus, McpSessionRegistry, McpSessionStart, McpSessionStop,
    McpStreamReport, McpStreamStatus,
};
use eva_mcp::policy::McpAllowlist;
use eva_mcp::session::McpServerTransport;

fn assert_provider_code(error: &EvaError, expected: &str) {
    assert_eq!(error.provider_code(), Some(expected), "unexpected error: {error:?}");
}

// ---------------------------------------------------------------------------
// Sessions of processes
// ---------------------------------------------------------------------------

#[derive(Debug, Clone, Copy)]
struct StaticInspector {
    running: bool,
}

impl McpProcessInspector for StaticInspector {
    fn process_is_running(&self, _process_id: u32) -> bool {
        self.running
    }
}

fn started(session_id: &str, process_id: Option<u32>) -> McpSessionStart {
    McpSessionStart {
        adapter_id: AdapterId::new("github-mcp"),
        session_id: session_id.to_owned(),
        process_id,
        server_transport: McpServerTransport::Stdio,
        running: true,
        audit: vec!["mcp.session:started".to_owned()],
    }
}

fn start(
    registry: &mut McpSessionRegistry,
    session_id: &str,
    process_id: Option<u32>,
) -> McpSessionLifecycleReport {
    registry.start(started(session_id, process_id), &["list_issues"]).unwrap()
}

#[test]
fn registry_start_health_shutdown_removes_session() {
    let mut registry = McpSessionRegistry::new();

    let start = start(&mut registry, "session-1", Some(42));
    let health = registry.health(&start.session_id).unwrap();

    assert_eq!(start.status, McpSessionLifecycleStatus::Running);
    assert!(health.healthy);
    assert_eq!(registry.list().len(), 1);

    assert_eq!(registry.begin_shutdown(&start.session_id).unwrap(), Some(42));
    let stop = registry
        .shutdown(
            &start.session_id,
            Ok(McpSessionStop {
                adapter_id: AdapterId::new("github-mcp"),
                session_id: "session-1".to_owned(),
                audit: Vec::new(),
            }),
        )
        .unwrap();

    assert_eq!(stop.status, McpSessionLifecycleStatus::Stopped);
    assert!(registry.list().is_empty());
}

#[test]
fn stream_can_be_aborted_and_removed_from_health() {
    let mut registry = McpSessionRegistry::new();
    let start = start(&mut registry, "session-2", Some(7));

    let stream = registry.start_stream(&start.session_id, "stream-1").unwrap();
    assert_eq!(stream.status, McpStreamStatus::Running);
    assert_eq!(
        registry.health(&start.session_id).unwrap().active_streams,
        vec!["stream-1".to_owned()]
    );

    let aborted = registry.abort_stream(&start.session_id, "stream-1").unwrap();

    assert_eq!(aborted.status, McpStreamStatus::Aborted);
    assert!(registry.health(&start.session_id).unwrap().active_streams.is_empty());
}

#[test]
fn orphan_cleanup_removes_missing_process_session() {
    let mut registry = McpSessionRegistry::new();
    start(&mut registry, "session-3", Some(99));

    let cleanup = registry.cleanup_orphans(&StaticInspector { running: false });

    assert_eq!(cleanup.removed_sessions, vec!["session-3".to_owned()]);
    assert!(registry.list().is_empty());
    assert!(cleanup.audit.contains(&"mcp.session:orphan_cleanup_checked".to_owned()));
}

#[test]
fn invalid_stream_id_is_rejected() {
    let mut registry = McpSessionRegistry::new();
    let start = start(&mut registry, "session-4", Some(9));

    let error = registry.start_stream(&start.session_id, "bad stream").unwrap_err();

    assert_eq!(error.kind(), ErrorKind::InvalidArgument);
}

#[test]
fn running_processes_keep_their_sessions() {
    let mut registry = McpSessionRegistry::new();
    start(&mut registry, "session-5", Some(9));
    start(&mut registry, "session-6", None);
    let cleanup = registry.cleanup_orphans(&StaticInspector { running: true });
    assert!(cleanup.removed_sessions.is_empty());
    assert_eq!(registry.list().len(), 2);
    let cleanup = registry.cleanup_orphans(&StaticInspector { running: false });
    assert_eq!(cleanup.removed_sessions, vec!["session-5".to_owned()]);
    assert_eq!(
        registry.start(started("session-6", None), &["b", "a"]).unwrap_err().kind(),
        ErrorKind::Conflict
    );
    let failed = registry.shutdown("session-6", Err(EvaError::unavailable("busy"))).unwrap_err();
    assert_eq!(failed.message(), "busy");
    assert_eq!(registry.list()[0].explicit_tools, vec!["list_issues".to_owned()]);
    assert_eq!(registry.health("session-5").unwrap_err().kind(), ErrorKind::NotFound);
    assert!(registry.abort_stream("session-6", "none").is_err());
    assert!(validate_explicit_tools(&[]).is_ok());
    assert!(validate_explicit_tools(&[""]).is_err());
    assert!(validate_explicit_tools(&["a b"]).is_err());
    assert!(validate_stream_id("").is_err());
    assert!(validate_stream_id("a\tb").is_err());
}

/// Tells that the listed processes run.
struct ListedInspector {
    running: Vec<u32>,
}

impl McpProcessInspector for ListedInspector {
    fn process_is_running(&self, process_id: u32) -> bool {
        self.running.contains(&process_id)
    }
}

#[test]
fn abandoned_sessions_are_removed_in_order_and_once() {
    let mut registry = McpSessionRegistry::default();
    start(&mut registry, "d", Some(4));
    start(&mut registry, "b", Some(2));
    start(&mut registry, "c", Some(3));
    start(&mut registry, "a", None);
    registry
        .start(McpSessionStart { running: false, ..started("e", Some(3)) }, &[])
        .unwrap();
    let inspector = ListedInspector { running: vec![3] };
    let cleanup = registry.cleanup_orphans(&inspector);
    assert_eq!(cleanup.removed_sessions, vec!["b".to_owned(), "d".to_owned(), "e".to_owned()]);
    assert_eq!(
        cleanup.audit,
        vec![
            "transport:mcp",
            "mcp.session:orphan_cleanup_checked",
            "removed_count:3",
            "mcp.session:orphan_removed:b",
            "mcp.session:orphan_removed:d",
            "mcp.session:orphan_removed:e",
        ]
    );
    let left: Vec<String> = registry.list().into_iter().map(|s| s.session_id).collect();
    assert_eq!(left, vec!["a".to_owned(), "c".to_owned()]);
    let again = registry.cleanup_orphans(&inspector);
    assert!(again.removed_sessions.is_empty());
    assert_eq!(again.audit.len(), 3);
    assert_eq!(registry.list().len(), 2);
}

#[test]
fn sessions_with_unstable_tools_are_not_registered() {
    let mut registry = McpSessionRegistry::new();
    start(&mut registry, "session-7", None);
    let error = registry.start(started("session-7", None), &["fine", "a b", ""]).unwrap_err();
    assert_eq!(error.kind(), ErrorKind::InvalidArgument);
    assert_eq!(error.message(), "MCP explicit tool name must be non-empty and stable");
    assert_eq!(error.context_value("tool"), Some("a b"));
    assert!(registry.start(started("session-8", None), &["a b"]).is_err());
    assert_eq!(registry.list().len(), 1);
}

// ---------------------------------------------------------------------------
// HTTP sessions
// ---------------------------------------------------------------------------

/// Sessions whose server is a list of responses.
struct Managed {
    registry: McpStreamableHttpSessionRegistry,
    transport: McpHttpJsonRpcTransport,
    sent_before: bool,
    replies: Vec<String>,
    requests: Vec<String>,
}

fn fixture_http_response(status: u16, body: &str, session: bool) -> String {
    let session = if session { "Mcp-Session-Id: opaque-session-secret\r\n" } else { "" };
    if status == 204 {
        return format!("HTTP/1.1 204 No Content\r\n{session}Connection: close\r\n\r\n");
    }
    format!(
        "HTTP/1.1 {status} Fixture\r\n{session}Content-Type: application/json\r\nContent-Length: {}\r\nConnection: close\r\n\r\n{body}",
        body.len()
    )
}

fn joined(reason: ManagedReaderExit) -> ReaderOutcome {
    ReaderOutcome { wait: ReaderWait::Joined { panicked: false }, reason: Some(reason) }
}

impl Managed {
    fn new(replies: Vec<String>) -> Self {
        let url = ParsedHttpUrl::parse("http://127.0.0.1:9/mcp", None).ok().unwrap();
        Self {
            registry: McpStreamableHttpSessionRegistry::new(),
            transport: McpHttpJsonRpcTransport::new(url, &NameMap::new(), false).ok().unwrap(),
            sent_before: false,
            replies,
            requests: Vec::new(),
        }
    }

    /// A session that is ready, with the responses to what comes.
    fn ready(statuses: &[u16]) -> Self {
        let mut managed = Self::new(vec![
            fixture_http_response(
                200,
                "{\"jsonrpc\":\"2.0\",\"id\":1,\"result\":{\"protocolVersion\":\"2025-11-25\"}}",
                true,
            ),
            fixture_http_response(202, "", true),
        ]);
        managed
            .exchange(
                1,
                "{\"jsonrpc\":\"2.0\",\"id\":1,\"method\":\"initialize\",\"params\":{\"protocolVersion\":\"2025-11-25\"}}",
                0,
                4096,
            )
            .unwrap();
        managed
            .notify("{\"jsonrpc\":\"2.0\",\"method\":\"notifications/initialized\"}", 0, 4096)
            .unwrap();
        managed.replies =
            statuses.iter().map(|status| fixture_http_response(*status, "", false)).collect();
        managed
    }

    fn send(
        &mut self,
        method: &str,
        body: &str,
        session: &Vec<(String, String)>,
    ) -> Result<HttpJsonRpcResponse, EvaError> {
        let head = http_request_head(
            self.transport.endpoint(),
            method,
            if method == "GET" { "text/event-stream" } else { "application/json" },
            body,
            &Vec::new(),
            session,
        )
        .unwrap();
        self.sent_before = true;
        self.requests.push(format!("{head}{body}"));
        let raw = self.replies.remove(0);
        match read_http_json_rpc_response(raw.as_bytes(), false, 4096, true) {
            Progress::Ready(response) => Ok(response),
            Progress::Wait => panic!("the response is not complete"),
            Progress::Fail(fault) => Err(fault.to_error("http://127.0.0.1:9")),
        }
    }

    fn register(&mut self) -> McpSessionLifecycleReport {
        let ready = self.transport.is_ready();
        self.registry.register_session(AdapterId::new("managed-mcp"), ready).unwrap()
    }

    fn open(&mut self, session_id: &str, stream_id: &str) -> Result<McpStreamReport, EvaError> {
        self.registry.begin_stream(session_id, stream_id)?;
        let headers = self.transport.begin_stream(4096)?;
        let head = http_request_head(
            self.transport.endpoint(),
            "GET",
            "text/event-stream",
            "",
            &Vec::new(),
            &headers,
        )
        .unwrap();
        self.requests.push(head);
        let answer = HttpJsonRpcResponse {
            status_code: 200,
            content_type: Some("text/event-stream".to_owned()),
            body: Vec::new(),
            body_truncated: false,
            session_id: Some("opaque-session-secret".to_owned()),
        };
        self.transport.open_event_stream(&answer)?;
        self.registry.stream_opened(session_id, stream_id)
    }

    /// Delete the session, in what is left of the time.
    fn delete(&mut self) -> Option<EvaError> {
        let outcome = match self.transport.begin_shutdown(4096) {
            Ok(ShutdownPlan::Closed) => Ok(()),
            Ok(ShutdownPlan::Delete(headers)) => match self.send("DELETE", "", &headers) {
                Ok(response) => self.transport.shutdown_session(&response, 4096),
                Err(error) => Err(error),
            },
            Err(error) => Err(error),
        };
        outcome.err()
    }

    fn abort(
        &mut self,
        session_id: &str,
        stream_id: &str,
    ) -> Result<(McpStreamReport, McpHttpAbortReceipt), EvaError> {
        let abort = self.registry.begin_abort(session_id, stream_id)?.socket_shutdown(Ok(()))?;
        let deleted = if abort.deletes_session() { self.delete() } else { None };
        self.registry.abort_stream_with_receipt(abort, deleted, joined(ManagedReaderExit::Cancelled))
    }

    fn shutdown(&mut self, session_id: &str) -> Result<McpSessionLifecycleReport, EvaError> {
        let shutdown = self.registry.begin_shutdown(session_id)?;
        let outcomes =
            (0..shutdown.stream_count()).map(|_| joined(ManagedReaderExit::Cancelled)).collect();
        let aborts = (0..shutdown.stream_count()).map(|_| None).collect();
        let shutdown = shutdown.sockets_shutdown(aborts)?;
        let deleted = self.delete();
        self.registry.shutdown_session(shutdown, deleted, outcomes)
    }

    fn drain(&mut self, expired: bool) -> Result<McpHttpDrainReport, EvaError> {
        let mut drain = self.registry.begin_drain();
        while let Some(session_id) = drain.next(expired) {
            if let Err(error) = self.shutdown(&session_id) {
                drain.note(error);
            }
        }
        self.registry.drain_all(drain, expired)
    }

    fn call(
        &mut self,
        session_id: &str,
        tool: &str,
        input: &str,
    ) -> Result<McpJsonRpcCallReport, EvaError> {
        self.registry.begin_call(session_id)?;
        let client = McpJsonRpcClient::new(
            AdapterId::new("owned-mcp"),
            McpAllowlist::from_tools(&["echo"]).unwrap(),
        );
        let outcome =
            client.call_tool_with_transport(self, RequestId::new("req-owned-mcp"), tool, input);
        let pristine = !self.sent_before;
        self.registry.finish_call(session_id, outcome.is_err(), pristine);
        outcome
    }
}

impl McpJsonRpcTransport for Managed {
    fn exchange(
        &mut self,
        expected_id: u64,
        request: &str,
        _timeout_ms: u64,
        output_limit_bytes: usize,
    ) -> Result<String, EvaError> {
        let plan = self.transport.begin_exchange(request, output_limit_bytes)?;
        let response = self.send("POST", request, &plan.session_headers)?;
        self.transport.finish_exchange(
            plan,
            HttpExchangeResponse::Buffered(response),
            expected_id,
            output_limit_bytes,
        )
    }

    fn notify(
        &mut self,
        notification: &str,
        _timeout_ms: u64,
        output_limit_bytes: usize,
    ) -> Result<(), EvaError> {
        let (initialized, headers) =
            self.transport.begin_notify(notification, output_limit_bytes)?;
        let response = self.send("POST", notification, &headers)?;
        self.transport.finish_notify(initialized, &response, output_limit_bytes)
    }

    fn audit(&self) -> Vec<String> {
        self.transport.audit()
    }
}

#[test]
fn real_http_abort_closes_socket_deletes_session_joins_reader_and_clears_registry() {
    let mut managed = Managed::ready(&[204]);
    let registered = managed.register();
    managed.open(&registered.session_id, "events").unwrap();

    assert_eq!(managed.registry.dangling_session_count(), 1);
    assert_eq!(managed.registry.dangling_reader_count(), 1);
    let (aborted, receipt) = managed.abort(&registered.session_id, "events").ok().unwrap();

    assert_eq!(aborted.status, McpStreamStatus::Aborted);
    assert!(aborted.audit.contains(&"mcp.stream:socket_shutdown".to_owned()));
    assert!(aborted.audit.contains(&"mcp.http:session_delete_complete".to_owned()));
    assert_eq!(managed.registry.dangling_session_count(), 0);
    assert_eq!(managed.registry.dangling_reader_count(), 0);
    assert!(receipt.complete());

    let requests = &managed.requests;
    assert_eq!(requests.len(), 4);
    assert!(requests[2].starts_with("GET /mcp HTTP/1.1\r\n"));
    assert!(requests[3].starts_with("DELETE /mcp HTTP/1.1\r\n"));
    assert!(requests[3].contains("Mcp-Session-Id: opaque-session-secret\r\n"));
    assert!(requests[3].contains("MCP-Protocol-Version: 2025-11-25\r\n"));
    let debug = managed.registry.describe();
    assert!(!debug.contains("opaque-session-secret"));
    assert_eq!(
        debug,
        "McpStreamableHttpSessionRegistry { session_count: 0, dangling_reader_count: 0, admission_closed: false, draining: false, .. }"
    );
    assert!(!aborted.audit.iter().any(|entry| entry.contains("opaque-session-secret")));
}

#[test]
fn failed_delete_keeps_only_retryable_session_cleanup_without_a_reader() {
    let mut managed = Managed::ready(&[500, 204]);
    let registered = managed.register();
    managed.open(&registered.session_id, "events").unwrap();

    let error = managed.abort(&registered.session_id, "events").err().unwrap();
    assert_provider_code(&error, "mcp_http_session_delete_failed");
    assert_eq!(managed.registry.dangling_session_count(), 1);
    assert_eq!(managed.registry.dangling_reader_count(), 0);
    let fenced = managed.open(&registered.session_id, "must-not-open").unwrap_err();
    assert_provider_code(&fenced, "mcp_http_registry_cleanup_pending");
    let poll_fenced =
        managed.registry.begin_take(&registered.session_id, "events").unwrap_err();
    assert_provider_code(&poll_fenced, "mcp_http_registry_cleanup_pending");

    managed.abort(&registered.session_id, "events").ok().unwrap();
    assert_eq!(managed.registry.dangling_session_count(), 0);
    assert_eq!(managed.registry.dangling_reader_count(), 0);
    assert_eq!(
        managed.requests.iter().filter(|request| request.starts_with("DELETE ")).count(),
        2
    );
}

#[test]
fn completed_reader_is_distinct_from_an_empty_queue_and_is_reaped() {
    let mut managed = Managed::ready(&[204]);
    let registered = managed.register();
    managed.open(&registered.session_id, "events").unwrap();
    managed.registry.begin_take(&registered.session_id, "events").unwrap();

    let terminal = managed.registry.reader_ended(
        &registered.session_id,
        "events",
        joined(ManagedReaderExit::SourceEnded { provider_code: None }),
    );
    assert_provider_code(&terminal, "mcp_stream_reader_ended");
    assert_eq!(managed.registry.dangling_reader_count(), 0);
    assert_eq!(managed.registry.dangling_session_count(), 1);

    managed.shutdown(&registered.session_id).unwrap();
    assert_eq!(managed.registry.dangling_session_count(), 0);
    assert_eq!(managed.requests.len(), 4);
}

#[test]
fn not_ready_session_retains_cleanup_owner_instead_of_being_dropped() {
    let mut managed = Managed::new(Vec::new());
    let registered = managed.register();

    assert_eq!(registered.status, McpSessionLifecycleStatus::Orphaned);
    assert_eq!(managed.registry.dangling_session_count(), 1);
    let fenced = managed.open(&registered.session_id, "must-not-open").unwrap_err();
    assert_provider_code(&fenced, "mcp_http_registry_cleanup_pending");
    managed.shutdown(&registered.session_id).unwrap();
    assert_eq!(managed.registry.dangling_session_count(), 0);
}

#[test]
fn starting_session_is_owned_before_io_and_admission_is_one_way() {
    let mut registry = McpStreamableHttpSessionRegistry::new();
    let registered =
        registry.register_starting_session(AdapterId::new("starting-mcp"), true).unwrap();
    assert_eq!(registry.dangling_session_count(), 1);
    assert_eq!(registered.status, McpSessionLifecycleStatus::Running);

    registry.close_admission();
    assert!(registry.admission_is_closed());
    let rejected = registry
        .register_starting_session(AdapterId::new("rejected-mcp"), true)
        .unwrap_err();
    assert_provider_code(&rejected, "mcp_http_registry_admission_closed");
}

#[test]
fn drain_is_idempotent_and_reports_zero_after_repeat() {
    let mut managed = Managed::new(Vec::new());
    managed.registry.register_starting_session(AdapterId::new("drain-mcp"), true).unwrap();

    let first = managed.drain(false).ok().unwrap();
    assert_eq!(first.sessions_before, 1);
    assert_eq!(first.sessions_after, 0);
    assert_eq!(first.cleanup_pending_after, 0);
    assert!(first.complete);

    let second = managed.drain(false).ok().unwrap();
    assert_eq!(second.sessions_before, 0);
    assert_eq!(second.readers_before, 0);
    assert_eq!(second.cleanup_pending_before, 0);
    assert_eq!(second.sessions_after, 0);
    assert_eq!(second.readers_after, 0);
    assert!(second.complete);
    assert!(second.admission_closed);
}

#[test]
fn empty_registry_drain_never_succeeds_after_the_absolute_deadline() {
    let mut managed = Managed::new(Vec::new());
    let error = managed.drain(true).err().unwrap();
    assert_provider_code(&error, "mcp_http_registry_drain_timeout");
    assert_eq!(managed.registry.dangling_session_count(), 0);
    assert!(managed.registry.admission_is_closed());
}

#[test]
fn failed_drain_retains_cleanup_owner_for_retry() {
    let mut managed = Managed::ready(&[500, 204]);
    let registered = managed.register();
    managed.open(&registered.session_id, "events").unwrap();

    let first = managed.drain(false).err().unwrap();
    assert_provider_code(&first, "mcp_http_session_delete_failed");
    assert_eq!(managed.registry.dangling_session_count(), 1);
    assert_eq!(managed.registry.dangling_reader_count(), 0);
    assert_eq!(managed.registry.cleanup_pending_session_count(), 1);

    let second = managed.drain(false).ok().unwrap();
    assert_eq!(second.sessions_before, 1);
    assert_eq!(second.sessions_after, 0);
    assert_eq!(second.readers_after, 0);
    assert!(second.complete);
    assert_eq!(
        managed.requests.iter().filter(|request| request.starts_with("DELETE ")).count(),
        2
    );
}

#[test]
fn closed_provisional_session_retries_delete_with_remaining_drain_budget() {
    let mut managed = Managed::new(vec![
        fixture_http_response(200, "{\"jsonrpc\":\"2.0\",\"id\":1,\"result\":{}}", true),
        fixture_http_response(500, "", false),
        fixture_http_response(204, "", false),
    ]);
    let initialize = "{\"jsonrpc\":\"2.0\",\"id\":1,\"method\":\"initialize\",\"params\":{\"protocolVersion\":\"2025-11-25\"}}";
    let initialize_error = managed.exchange(1, initialize, 0, 4096).unwrap_err();
    assert_provider_code(&initialize_error, "mcp_protocol_version_missing");
    assert!(managed.delete().is_some());
    assert!(managed.transport.is_closed());
    assert!(managed.transport.session_id().is_none());
    assert!(matches!(
        managed.transport.begin_shutdown(4096),
        Ok(ShutdownPlan::Delete(_))
    ));

    managed.register();
    let drained = managed.drain(false).ok().unwrap();
    assert_eq!(drained.sessions_after, 0);
    assert_eq!(drained.readers_after, 0);
    assert_eq!(drained.cleanup_pending_after, 0);

    let requests = &managed.requests;
    assert_eq!(
        requests.iter().filter(|request| request.starts_with("DELETE ")).count(),
        2
    );
    assert!(requests[2].contains("Mcp-Session-Id: opaque-session-secret\r\n"));
}

#[test]
fn registry_owned_session_drives_complete_json_rpc_client_flow() {
    let mut managed = Managed::new(vec![
        fixture_http_response(
            200,
            "{\"jsonrpc\":\"2.0\",\"id\":1,\"result\":{\"protocolVersion\":\"2025-11-25\",\"capabilities\":{},\"serverInfo\":{\"name\":\"fixture\",\"version\":\"1\"}}}",
            true,
        ),
        fixture_http_response(202, "", true),
        fixture_http_response(
            200,
            "{\"jsonrpc\":\"2.0\",\"id\":2,\"result\":{\"tools\":[{\"name\":\"echo\",\"inputSchema\":{\"type\":\"object\"}}]}}",
            true,
        ),
        fixture_http_response(
            200,
            "{\"jsonrpc\":\"2.0\",\"id\":3,\"result\":{\"content\":[{\"type\":\"text\",\"text\":\"ok\"}],\"isError\":false}}",
            true,
        ),
        fixture_http_response(204, "", false),
    ]);
    let registered = managed
        .registry
        .register_starting_session(AdapterId::new("owned-mcp"), true)
        .unwrap();
    assert!(managed.requests.is_empty());
    let report = managed.call(&registered.session_id, "echo", "{\"value\":\"ok\"}").ok().unwrap();
    assert_eq!(report.tool, "echo");
    assert_eq!(managed.registry.dangling_session_count(), 1);
    managed.shutdown(&registered.session_id).unwrap();
    let requests = &managed.requests;
    assert_eq!(requests.len(), 5);
    assert!(requests[0].contains("\"method\":\"initialize\""));
    assert!(requests[1].contains("notifications/initialized"));
    assert!(requests[2].contains("\"method\":\"tools/list\""));
    assert!(requests[3].contains("\"method\":\"tools/call\""));
    assert!(requests[4].starts_with("DELETE /mcp HTTP/1.1\r\n"));
}

#[test]
fn failed_calls_fence_a_session_once_something_was_sent() {
    let mut managed = Managed::ready(&[]);
    let registered = managed.register();
    managed.registry.finish_call(&registered.session_id, true, true);
    managed.registry.begin_call(&registered.session_id).unwrap();
    managed.registry.finish_call(&registered.session_id, true, false);
    assert_provider_code(
        &managed.registry.begin_call(&registered.session_id).unwrap_err(),
        "mcp_http_registry_cleanup_pending",
    );
    assert!(managed.registry.contains_session(&registered.session_id));
    managed.registry.begin_drain();
    assert_provider_code(
        &managed.registry.begin_call(&registered.session_id).unwrap_err(),
        "mcp_http_registry_draining",
    );
}

#[test]
fn streams_of_one_session_are_aborted_one_by_one() {
    let mut managed = Managed::ready(&[204]);
    let registered = managed.register();
    managed.open(&registered.session_id, "a").unwrap();
    managed.open(&registered.session_id, "b").unwrap();
    assert!(managed.open(&registered.session_id, "b").is_err());
    let (_, receipt) = managed.abort(&registered.session_id, "a").ok().unwrap();
    assert!(!receipt.complete());
    assert!(!receipt.session_deleted());
    assert_eq!(receipt.readers_after(), 1);
    let abort = managed.registry.begin_abort(&registered.session_id, "b").ok().unwrap();
    let reported = abort.socket_shutdown(Err(EvaError::unavailable("stuck"))).err().unwrap();
    assert_eq!(reported.message(), "stuck");
    assert_eq!(reported.context_value("socket_closed"), Some("false"));
    assert_eq!(reported.context_value("session_delete_outcome"), Some("not_attempted"));
    assert_eq!(managed.registry.cleanup_pending_session_count(), 1);
    let abort = managed.registry.begin_abort(&registered.session_id, "b").ok().unwrap();
    let abort = abort.socket_shutdown(Ok(())).ok().unwrap();
    assert!(abort.deletes_session());
    let late = ReaderOutcome { wait: ReaderWait::TimedOut, reason: None };
    let error = managed.registry.abort_stream(abort, None, late).unwrap_err();
    assert_provider_code(&error, "mcp_stream_reader_join_timeout");
    assert_eq!(managed.registry.dangling_reader_count(), 1);
    assert_eq!(managed.registry.cleanup_pending_session_count(), 1);
    let shutdown = managed.registry.begin_shutdown(&registered.session_id).ok().unwrap();
    assert_eq!(shutdown.stream_count(), 1);
    assert_eq!(shutdown.stream_at(0), "b");
    let stuck = shutdown
        .sockets_shutdown(vec![Some(EvaError::unavailable("stuck"))])
        .err()
        .unwrap();
    assert_eq!(stuck.context_value("sockets_closed"), Some("false"));
    assert_eq!(stuck.message(), "stuck");
}

#[test]
fn readers_are_waited_for_and_their_bytes_counted() {
    assert!(matches!(wait_step(0, false), WaitStep::TimedOut));
    assert!(matches!(wait_step(5, true), WaitStep::Join));
    assert!(matches!(wait_step(5, false), WaitStep::Wait(_)));
    assert_eq!(reserve_queued_bytes(3, 4, 7), Some(7));
    assert_eq!(reserve_queued_bytes(3, 5, 7), None);
    assert_eq!(reserve_queued_bytes(usize::MAX, 1, usize::MAX), None);
    assert_eq!(release_queued_bytes(7, 4), 3);
    assert_eq!(release_queued_bytes(3, 4), 0);
    assert_eq!(reader_failed(true, None), ManagedReaderExit::Cancelled);
    let ended = reader_failed(false, Some("code".to_owned()));
    assert_eq!(ended, ManagedReaderExit::SourceEnded { provider_code: Some("code".to_owned()) });
    let error = managed_reader_terminal_error(&Some(ended), "fallback");
    assert_provider_code(&error, "mcp_stream_reader_ended");
    assert_eq!(error.context_value("source_provider_code"), Some("code"));
    let error = managed_reader_terminal_error(&None, "fallback");
    assert_eq!(error.context_value("reader_exit"), Some("fallback"));
    for (exit, code) in [
        (ManagedReaderExit::Cancelled, "mcp_stream_reader_cancelled"),
        (ManagedReaderExit::QueueLimit, "mcp_stream_reader_queue_limit"),
    ] {
        assert_provider_code(&managed_reader_terminal_error(&Some(exit), "fallback"), code);
    }
    assert!(matches!(delete_plan(false, 0), DeletePlan::Local));
    assert!(matches!(delete_plan(true, 0), DeletePlan::Expired));
    assert!(matches!(delete_plan(true, 3), DeletePlan::Remote(3)));
    assert_provider_code(&delete_expired(), "mcp_http_registry_drain_timeout");
}

#[test]
fn reader_done_signal_does_not_bypass_the_join_deadline() {
    let mut managed = Managed::ready(&[204]);
    let registered = managed.register();
    managed.open(&registered.session_id, "events").unwrap();
    assert!(matches!(wait_step(20, false), WaitStep::Wait(_)));
    assert!(matches!(wait_step(0, false), WaitStep::TimedOut));

    let abort = managed.registry.begin_abort(&registered.session_id, "events").ok().unwrap();
    let abort = abort.socket_shutdown(Ok(())).ok().unwrap();
    let deleted = managed.delete();
    let signalled = ReaderOutcome {
        wait: ReaderWait::TimedOut,
        reason: Some(ManagedReaderExit::Cancelled),
    };
    let error = managed.registry.abort_stream(abort, deleted, signalled).unwrap_err();
    assert_provider_code(&error, "mcp_stream_reader_join_timeout");
    assert_eq!(managed.registry.dangling_reader_count(), 1);

    let abort = managed.registry.begin_abort(&registered.session_id, "events").ok().unwrap();
    let abort = abort.socket_shutdown(Ok(())).ok().unwrap();
    let endless = ReaderOutcome { wait: ReaderWait::OutOfRange, reason: None };
    let error = managed.registry.abort_stream(abort, None, endless).unwrap_err();
    assert_provider_code(&error, "mcp_stream_reader_timeout_invalid");
    assert_eq!(error.context_value("reader_joined"), Some("false"));
    assert_eq!(managed.registry.dangling_reader_count(), 1);

    let abort = managed.registry.begin_abort(&registered.session_id, "events").ok().unwrap();
    let abort = abort.socket_shutdown(Ok(())).ok().unwrap();
    let deleted = managed.delete();
    let joined = ReaderOutcome { wait: ReaderWait::Joined { panicked: false }, reason: None };
    let report = managed.registry.abort_stream(abort, deleted, joined).unwrap();
    assert!(report.audit.contains(&"mcp.stream:reader_joined:cancelled".to_owned()));
    assert_eq!(managed.registry.dangling_reader_count(), 0);
}

#[test]
fn readers_stop_when_they_are_told_or_must() {
    let stopped = |cancelled: bool, seen: ReaderSight| match run_managed_http_reader(cancelled, seen)
    {
        ReaderMove::Stop { exit, queued } => Some((exit, queued)),
        _ => None,
    };
    assert!(matches!(run_managed_http_reader(false, ReaderSight::Idle), ReaderMove::Read));
    assert_eq!(stopped(true, ReaderSight::Idle), Some((ManagedReaderExit::Cancelled, None)));
    let failed = || ReaderSight::Failed { provider_code: None };
    assert_eq!(stopped(true, failed()), Some((ManagedReaderExit::Cancelled, None)));
    assert_eq!(
        stopped(false, failed()),
        Some((ManagedReaderExit::SourceEnded { provider_code: None }, None))
    );
    assert!(matches!(
        run_managed_http_reader(true, ReaderSight::Item { queued: 3, bytes: 4, limit: 7 }),
        ReaderMove::Queue { queued: 7 }
    ));
    assert_eq!(
        stopped(false, ReaderSight::Item { queued: 3, bytes: 5, limit: 7 }),
        Some((ManagedReaderExit::QueueLimit, None))
    );
    assert_eq!(
        stopped(false, ReaderSight::NotTaken { queued: 7, bytes: 4 }),
        Some((ManagedReaderExit::QueueLimit, Some(3)))
    );
}

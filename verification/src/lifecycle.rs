//! The sessions of server processes: which are registered, which streams they
//! run, and which of them have lost their process.

use vstd::prelude::*;
use vstd::string::*;
use crate::collections;
use crate::collections::{NameMap, NameSet};
use crate::error::{ErrorKind, ErrorModel, EvaError};
use crate::http_session;
use crate::http_session::bool_str;
use crate::identity::AdapterId;
use crate::session::McpServerTransport;
use crate::text;
use crate::text::{contains_whitespace, decimal_usize, str_eq, trim};

verus! {

pub const RESPONSIBILITY: &'static str =
    "MCP session registry, health, stream abort, and orphan cleanup";

// ---------------------------------------------------------------------------
// Reports
// ---------------------------------------------------------------------------

#[derive(Debug, Clone, Copy, PartialEq, Eq, Structural)]
pub enum McpSessionLifecycleStatus {
    Running,
    Stopped,
    Orphaned,
}

impl McpSessionLifecycleStatus {
    /// The stable name of the status.
    pub open spec fn name(self) -> Seq<char> {
        match self {
            McpSessionLifecycleStatus::Running => "running"@,
            McpSessionLifecycleStatus::Stopped => "stopped"@,
            McpSessionLifecycleStatus::Orphaned => "orphaned"@,
        }
    }

    pub fn as_str(self) -> (name: &'static str)
        ensures
            name@ == self.name(),
    {
        match self {
            McpSessionLifecycleStatus::Running => "running",
            McpSessionLifecycleStatus::Stopped => "stopped",
            McpSessionLifecycleStatus::Orphaned => "orphaned",
        }
    }
}

#[derive(Debug, Clone, Copy, PartialEq, Eq, Structural)]
pub enum McpStreamStatus {
    Running,
    Aborted,
}

impl McpStreamStatus {
    /// The stable name of the status.
    pub open spec fn name(self) -> Seq<char> {
        match self {
            McpStreamStatus::Running => "running"@,
            McpStreamStatus::Aborted => "aborted"@,
        }
    }

    pub fn as_str(self) -> (name: &'static str)
        ensures
            name@ == self.name(),
    {
        match self {
            McpStreamStatus::Running => "running",
            McpStreamStatus::Aborted => "aborted",
        }
    }
}

/// What a change of a session is reported as.
#[verifier::ext_equal]
pub struct LifecycleModel {
    pub adapter: Seq<char>,
    pub session_id: Seq<char>,
    pub status: McpSessionLifecycleStatus,
    pub process_id: Option<u32>,
    pub audit: Seq<Seq<char>>,
}

#[derive(Debug, Clone, PartialEq, Eq)]
pub struct McpSessionLifecycleReport {
    pub adapter_id: AdapterId,
    pub session_id: String,
    pub status: McpSessionLifecycleStatus,
    pub process_id: Option<u32>,
    pub audit: Vec<String>,
}

impl View for McpSessionLifecycleReport {
    type V = LifecycleModel;

    open spec fn view(&self) -> LifecycleModel {
        LifecycleModel {
            adapter: self.adapter_id@,
            session_id: self.session_id@,
            status: self.status,
            process_id: self.process_id,
            audit: text::texts(self.audit@),
        }
    }
}

/// How a session is found to be.
#[verifier::ext_equal]
pub struct HealthModel {
    pub adapter: Seq<char>,
    pub session_id: Seq<char>,
    pub status: McpSessionLifecycleStatus,
    pub healthy: bool,
    pub active_streams: Seq<Seq<char>>,
    pub audit: Seq<Seq<char>>,
}

#[derive(Debug, Clone, PartialEq, Eq)]
pub struct McpSessionHealthReport {
    pub adapter_id: AdapterId,
    pub session_id: String,
    pub status: McpSessionLifecycleStatus,
    pub healthy: bool,
    pub active_streams: Vec<String>,
    pub audit: Vec<String>,
}

impl View for McpSessionHealthReport {
    type V = HealthModel;

    open spec fn view(&self) -> HealthModel {
        HealthModel {
            adapter: self.adapter_id@,
            session_id: self.session_id@,
            status: self.status,
            healthy: self.healthy,
            active_streams: text::texts(self.active_streams@),
            audit: text::texts(self.audit@),
        }
    }
}

/// How a session is listed.
#[verifier::ext_equal]
pub struct RegisteredModel {
    pub adapter: Seq<char>,
    pub session_id: Seq<char>,
    pub process_id: Option<u32>,
    pub server_transport: McpServerTransport,
    pub explicit_tools: Seq<Seq<char>>,
    pub active_streams: Seq<Seq<char>>,
}

#[derive(Debug, Clone, PartialEq, Eq)]
pub struct McpRegisteredSession {
    pub adapter_id: AdapterId,
    pub session_id: String,
    pub process_id: Option<u32>,
    pub server_transport: McpServerTransport,
    pub explicit_tools: Vec<String>,
    pub active_streams: Vec<String>,
}

impl View for McpRegisteredSession {
    type V = RegisteredModel;

    open spec fn view(&self) -> RegisteredModel {
        RegisteredModel {
            adapter: self.adapter_id@,
            session_id: self.session_id@,
            process_id: self.process_id,
            server_transport: self.server_transport,
            explicit_tools: text::texts(self.explicit_tools@),
            active_streams: text::texts(self.active_streams@),
        }
    }
}

/// What a change of a stream is reported as.
#[verifier::ext_equal]
pub struct StreamModel {
    pub adapter: Seq<char>,
    pub session_id: Seq<char>,
    pub stream_id: Seq<char>,
    pub status: McpStreamStatus,
    pub audit: Seq<Seq<char>>,
}

#[derive(Debug, Clone, PartialEq, Eq)]
pub struct McpStreamReport {
    pub adapter_id: AdapterId,
    pub session_id: String,
    pub stream_id: String,
    pub status: McpStreamStatus,
    pub audit: Vec<String>,
}

impl View for McpStreamReport {
    type V = StreamModel;

    open spec fn view(&self) -> StreamModel {
        StreamModel {
            adapter: self.adapter_id@,
            session_id: self.session_id@,
            stream_id: self.stream_id@,
            status: self.status,
            audit: text::texts(self.audit@),
        }
    }
}

#[derive(Debug, Clone, PartialEq, Eq)]
pub struct McpOrphanCleanupReport {
    pub removed_sessions: Vec<String>,
    pub audit: Vec<String>,
}

// ---------------------------------------------------------------------------
// Names
// ---------------------------------------------------------------------------

/// Whether a text is not empty and holds no whitespace.
pub open spec fn is_stable(value: Seq<char>) -> bool {
    value.len() > 0 && text::trimmed(value) == value && !text::has_whitespace(value)
}

fn stable(value: &str) -> (stable: bool)
    ensures
        stable == is_stable(value@),
{
    !value.is_empty() && str_eq(trim(value).as_str(), value) && !contains_whitespace(value)
}

pub open spec fn unstable_stream_id(stream_id: Seq<char>) -> ErrorModel {
    ErrorModel::new(ErrorKind::InvalidArgument, "MCP stream id must be stable"@).ctx(
        "stream_id"@,
        stream_id,
    )
}

/// Refuse a stream identifier with whitespace, or without anything.
pub fn validate_stream_id(stream_id: &str) -> (outcome: Result<(), EvaError>)
    ensures
        match outcome {
            Ok(()) => is_stable(stream_id@),
            Err(error) => !is_stable(stream_id@) && error@ == unstable_stream_id(stream_id@),
        },
{
    if stable(stream_id) {
        Ok(())
    } else {
        Err(
            EvaError::invalid_argument("MCP stream id must be stable").with_context(
                "stream_id",
                stream_id,
            ),
        )
    }
}

pub open spec fn unstable_tool(tool: Seq<char>) -> ErrorModel {
    ErrorModel::new(
        ErrorKind::InvalidArgument,
        "MCP explicit tool name must be non-empty and stable"@,
    ).ctx("tool"@, tool)
}

/// Whether the name is one of the given ones.
pub open spec fn is_given(name: Seq<char>, tools: Seq<&str>) -> bool {
    exists|i: int| 0 <= i < tools.len() && (#[trigger] tools[i])@ == name
}

/// The given names as a set.
pub open spec fn tool_set(tools: Seq<&str>) -> Set<Seq<char>> {
    Set::new(|n: Seq<char>| is_given(n, tools))
}

/// Whether an error is the refusal of the first of the tools that is no stable
/// name.
pub open spec fn is_tool_refusal(error: ErrorModel, tools: Seq<&str>) -> bool {
    exists|i: int|
        {
            &&& 0 <= i < tools.len()
            &&& !is_stable((#[trigger] tools[i])@)
            &&& error == unstable_tool(tools[i]@)
            &&& forall|j: int| 0 <= j < i ==> is_stable((#[trigger] tools[j])@)
        }
}

/// The tools of a session as a set. The first one that is no stable name decides
/// the error.
pub fn validate_explicit_tools(tools: &[&str]) -> (outcome: Result<NameSet, EvaError>)
    ensures
        match outcome {
            Ok(explicit) => {
                &&& explicit.wf()
                &&& forall|i: int| 0 <= i < tools@.len() ==> is_stable((#[trigger] tools@[i])@)
                &&& explicit@ == tool_set(tools@)
            },
            Err(error) => is_tool_refusal(error@, tools@),
        },
{
    let mut explicit = NameSet::new();
    let mut i: usize = 0;
    while i < tools.len()
        invariant
            i <= tools@.len(),
            explicit.wf(),
            forall|k: int| 0 <= k < i ==> is_stable((#[trigger] tools@[k])@),
            forall|n: Seq<char>| #[trigger]
                explicit@.contains(n) <==> is_given(n, tools@.take(i as int)),
        decreases tools@.len() - i,
    {
        let tool = tools[i];
        if !stable(tool) {
            return Err(
                EvaError::invalid_argument(
                    "MCP explicit tool name must be non-empty and stable",
                ).with_context("tool", tool),
            );
        }
        let ghost before = explicit@;
        explicit.insert(tool.to_owned());
        proof {
            let less = tools@.take(i as int);
            let more = tools@.take(i + 1);
            assert forall|n: Seq<char>| #[trigger]
                explicit@.contains(n) <==> is_given(n, more) by {
                if n == tool@ {
                    assert(more[i as int]@ == n);
                } else if before.contains(n) {
                    let k = choose|k: int| 0 <= k < less.len() && (#[trigger] less[k])@ == n;
                    assert(more[k]@ == n);
                } else if is_given(n, more) {
                    let k = choose|k: int| 0 <= k < more.len() && (#[trigger] more[k])@ == n;
                    assert(less[k]@ == n);
                }
            }
        }
        i += 1;
    }
    assert(tools@.take(i as int) =~= tools@);
    assert(explicit@ =~= tool_set(tools@));
    Ok(explicit)
}

// ---------------------------------------------------------------------------
// The registry
// ---------------------------------------------------------------------------

/// What is known of a registered session.
#[verifier::ext_equal]
pub struct SessionEntry {
    pub adapter: Seq<char>,
    pub running: bool,
    pub process_id: Option<u32>,
    pub server_transport: McpServerTransport,
    pub explicit_tools: Set<Seq<char>>,
    pub streams: Map<Seq<char>, McpStreamStatus>,
}

/// A session that is registered.
#[derive(Debug)]
pub struct RegisteredSession {
    adapter_id: AdapterId,
    running: bool,
    process_id: Option<u32>,
    server_transport: McpServerTransport,
    explicit_tools: NameSet,
    streams: NameMap<McpStreamStatus>,
}

impl View for RegisteredSession {
    type V = SessionEntry;

    closed spec fn view(&self) -> SessionEntry {
        SessionEntry {
            adapter: self.adapter_id@,
            running: self.running,
            process_id: self.process_id,
            server_transport: self.server_transport,
            explicit_tools: self.explicit_tools@,
            streams: self.streams@,
        }
    }
}

/// A session whose process was started.
#[derive(Debug)]
pub struct McpSessionStart {
    pub adapter_id: AdapterId,
    pub session_id: String,
    pub process_id: Option<u32>,
    pub server_transport: McpServerTransport,
    pub running: bool,
    pub audit: Vec<String>,
}

/// A session whose process was stopped.
#[derive(Debug)]
pub struct McpSessionStop {
    pub adapter_id: AdapterId,
    pub session_id: String,
    pub audit: Vec<String>,
}

/// Tells whether a process is running.
pub trait McpProcessInspector {
    /// Whether the answer can be given of the process. An inspector whose answers
    /// are to be reasoned about says here which they are; one that does not may
    /// give any.
    open spec fn tells(&self, process_id: u32, runs: bool) -> bool {
        true
    }

    fn process_is_running(&self, process_id: u32) -> (runs: bool)
        ensures
            self.tells(process_id, runs),
    ;
}

/// The sessions of server processes.
#[derive(Debug)]
pub struct McpSessionRegistry {
    sessions: NameMap<RegisteredSession>,
}

/// The streams that are running.
pub open spec fn running_streams(streams: Map<Seq<char>, McpStreamStatus>) -> Set<Seq<char>> {
    Set::new(|n: Seq<char>| streams.dom().contains(n) && streams[n] == McpStreamStatus::Running)
}

pub open spec fn not_registered(session_id: Seq<char>) -> ErrorModel {
    ErrorModel::new(ErrorKind::NotFound, "MCP session is not registered"@).ctx(
        "session_id"@,
        session_id,
    )
}

fn unregistered(session_id: &str) -> (error: EvaError)
    ensures
        error@ == not_registered(session_id@),
{
    EvaError::not_found("MCP session is not registered").with_context("session_id", session_id)
}

/// How a session is listed.
pub open spec fn listed(session_id: Seq<char>, entry: SessionEntry) -> RegisteredModel {
    RegisteredModel {
        adapter: entry.adapter,
        session_id,
        process_id: entry.process_id,
        server_transport: entry.server_transport,
        explicit_tools: collections::sorted(entry.explicit_tools),
        active_streams: collections::sorted(running_streams(entry.streams)),
    }
}

/// How a session is found to be.
pub open spec fn health_of(session_id: Seq<char>, entry: SessionEntry) -> HealthModel {
    HealthModel {
        adapter: entry.adapter,
        session_id,
        status: if entry.running {
            McpSessionLifecycleStatus::Running
        } else {
            McpSessionLifecycleStatus::Stopped
        },
        healthy: entry.running,
        active_streams: collections::sorted(running_streams(entry.streams)),
        audit: seq![
            "transport:mcp"@,
            "mcp.session:health_checked"@,
            "healthy:"@ + http_session::bool_text(entry.running),
        ],
    }
}

/// Whether a session is to be removed, when its process, if it has one, was
/// found to be running or not.
pub open spec fn is_orphaned(entry: SessionEntry, process_runs: bool) -> bool {
    !entry.running || (entry.process_id is Some && !process_runs)
}

/// Those of the names, in order, whose sessions are to be removed, by what was
/// found of the process of each.
pub open spec fn orphans(
    names: Seq<Seq<char>>,
    sessions: Map<Seq<char>, SessionEntry>,
    process_runs: Seq<bool>,
    upto: int,
) -> Seq<Seq<char>>
    decreases upto,
{
    if upto <= 0 {
        Seq::empty()
    } else {
        let before = orphans(names, sessions, process_runs, upto - 1);
        if is_orphaned(sessions[names[upto - 1]], process_runs[upto - 1]) {
            before.push(names[upto - 1])
        } else {
            before
        }
    }
}

/// What a removal of orphans notes.
pub open spec fn orphan_audit(removed: Seq<Seq<char>>) -> Seq<Seq<char>> {
    seq![
        "transport:mcp"@,
        "mcp.session:orphan_cleanup_checked"@,
        "removed_count:"@ + text::decimal(removed.len()),
    ] + removed.map_values(|id: Seq<char>| "mcp.session:orphan_removed:"@ + id)
}

/// The sessions without the removed ones.
pub open spec fn without(sessions: Map<Seq<char>, SessionEntry>, removed: Seq<Seq<char>>) -> Map<
    Seq<char>,
    SessionEntry,
> {
    sessions.remove_keys(removed.to_set())
}

fn active_streams(streams: &NameMap<McpStreamStatus>) -> (names: Vec<String>)
    requires
        streams.wf(),
    ensures
        text::texts(names@) == collections::sorted(running_streams(streams@)),
{
    let mut names: Vec<String> = Vec::new();
    let ghost all = streams.names();
    let ghost running = running_streams(streams@);
    proof {
        streams.lemma_names();
    }
    let mut i: usize = 0;
    while i < streams.len()
        invariant
            i <= all.len(),
            streams.wf(),
            all == streams.names(),
            running == running_streams(streams@),
            collections::in_order(all),
            collections::in_order(text::texts(names@)),
            forall|n: Seq<char>| #[trigger]
                text::texts(names@).contains(n) <==> running.contains(n) && exists|k: int|
                    0 <= k < i && #[trigger] all[k] == n,
        decreases all.len() - i,
    {
        let ghost before = text::texts(names@);
        let name = streams.name_at(i);
        if *streams.value_at(i) == McpStreamStatus::Running {
            names.push(name.to_owned());
            proof {
                let now = text::texts(names@);
                assert(now =~= before.push(name@));
                assert forall|a: int, b: int| 0 <= a < b < now.len() implies collections::name_less(
                    #[trigger] now[a],
                    #[trigger] now[b],
                ) by {
                    if b == before.len() {
                        assert(before.contains(before[a]));
                        let k = choose|k: int| 0 <= k < i && #[trigger] all[k] == before[a];
                        assert(collections::name_less(all[k], all[i as int]));
                    } else {
                        assert(collections::name_less(before[a], before[b]));
                    }
                }
                assert forall|n: Seq<char>| #[trigger]
                    now.contains(n) <==> running.contains(n) && exists|k: int|
                        0 <= k < i + 1 && #[trigger] all[k] == n by {
                    if now.contains(n) {
                        let k = choose|k: int| 0 <= k < now.len() && now[k] == n;
                        if k == before.len() {
                            assert(all[i as int] == n);
                        } else {
                            assert(before.contains(n));
                            let j = choose|j: int| 0 <= j < i && #[trigger] all[j] == n;
                            assert(all[j] == n);
                        }
                    } else if running.contains(n) && exists|k: int|
                        0 <= k < i + 1 && #[trigger] all[k] == n {
                        let k = choose|k: int| 0 <= k < i + 1 && #[trigger] all[k] == n;
                        if k == i {
                            assert(now[before.len() as int] == n);
                        } else {
                            assert(before.contains(n));
                            let j = choose|j: int| 0 <= j < before.len() && before[j] == n;
                            assert(now[j] == n);
                        }
                    }
                }
            }
        } else {
            assert(!running.contains(all[i as int]));
        }
        i += 1;
    }
    proof {
        assert forall|n: Seq<char>| #[trigger]
            text::texts(names@).contains(n) <==> running.contains(n) by {
            if running.contains(n) {
                assert(all.contains(n));
                let k = choose|k: int| 0 <= k < all.len() && all[k] == n;
                assert(all[k] == n);
            }
        }
        collections::lemma_sorted(text::texts(names@), running);
    }
    names
}

/// Whether no name of the set is empty or holds whitespace.
pub open spec fn names_are_stable(names: Set<Seq<char>>) -> bool {
    forall|n: Seq<char>| #[trigger] names.contains(n) ==> is_stable(n)
}

impl RegisteredSession {
    pub closed spec fn wf(&self) -> bool {
        &&& self.explicit_tools.wf()
        &&& self.streams.wf()
        &&& names_are_stable(self.explicit_tools@)
        &&& names_are_stable(self.streams@.dom())
    }
}

impl View for McpSessionRegistry {
    type V = Map<Seq<char>, SessionEntry>;

    closed spec fn view(&self) -> Map<Seq<char>, SessionEntry> {
        self.sessions@.map_values(|s: RegisteredSession| s@)
    }
}

/// The entry of a session that was started.
pub open spec fn started_entry(started: McpSessionStart, explicit_tools: Set<Seq<char>>) -> SessionEntry {
    SessionEntry {
        adapter: started.adapter_id@,
        running: started.running,
        process_id: started.process_id,
        server_transport: started.server_transport,
        explicit_tools,
        streams: Map::empty(),
    }
}

impl Default for McpSessionRegistry {
    fn default() -> (registry: McpSessionRegistry)
        ensures
            registry.wf(),
            registry@ == Map::<Seq<char>, SessionEntry>::empty(),
    {
        McpSessionRegistry::new()
    }
}

impl McpSessionRegistry {
    pub closed spec fn wf(&self) -> bool {
        &&& self.sessions.wf()
        &&& forall|n: Seq<char>| #[trigger]
            self.sessions@.dom().contains(n) ==> self.sessions@[n].wf()
    }

    pub fn new() -> (registry: McpSessionRegistry)
        ensures
            registry.wf(),
            registry@ == Map::<Seq<char>, SessionEntry>::empty(),
    {
        let registry = McpSessionRegistry { sessions: NameMap::new() };
        assert(registry@ =~= Map::<Seq<char>, SessionEntry>::empty());
        registry
    }

    /// Register a session whose process was started, with the tools that it may
    /// use. A tool without a stable name is refused before anything else.
    pub fn start(&mut self, started: McpSessionStart, explicit_tools: &[&str]) -> (outcome: Result<
        McpSessionLifecycleReport,
        EvaError,
    >)
        requires
            old(self).wf(),
        ensures
            final(self).wf(),
            match outcome {
                Ok(report) => {
                    &&& forall|i: int|
                        0 <= i < explicit_tools@.len() ==> is_stable(
                            (#[trigger] explicit_tools@[i])@,
                        )
                    &&& !old(self)@.dom().contains(started.session_id@)
                    &&& final(self)@ == old(self)@.insert(
                        started.session_id@,
                        started_entry(started, tool_set(explicit_tools@)),
                    )
                    &&& report@ == (LifecycleModel {
                        adapter: started.adapter_id@,
                        session_id: started.session_id@,
                        status: McpSessionLifecycleStatus::Running,
                        process_id: started.process_id,
                        audit: text::texts(started.audit@).push(
                            "mcp.session_registry:registered"@,
                        ),
                    })
                },
                Err(error) => {
                    &&& final(self)@ == old(self)@
                    &&& is_tool_refusal(error@, explicit_tools@) || {
                        &&& forall|i: int|
                            0 <= i < explicit_tools@.len() ==> is_stable(
                                (#[trigger] explicit_tools@[i])@,
                            )
                        &&& old(self)@.dom().contains(started.session_id@)
                        &&& error@ == ErrorModel::new(
                            ErrorKind::Conflict,
                            "MCP session already exists"@,
                        ).ctx("session_id"@, started.session_id@)
                    }
                },
            },
    {
        let ghost told = started;
        let explicit_tools = match validate_explicit_tools(explicit_tools) {
            Ok(explicit) => explicit,
            Err(error) => return Err(error),
        };
        if self.sessions.contains(started.session_id.as_str()) {
            return Err(
                EvaError::conflict("MCP session already exists").with_context(
                    "session_id",
                    started.session_id.as_str(),
                ),
            );
        }
        let session_id = started.session_id;
        let streams: NameMap<McpStreamStatus> = NameMap::new();
        let entry = RegisteredSession {
            adapter_id: started.adapter_id.copy(),
            running: started.running,
            process_id: started.process_id,
            server_transport: started.server_transport,
            explicit_tools,
            streams,
        };
        assert(entry@ == started_entry(told, explicit_tools@));
        self.sessions.insert(session_id.as_str().to_owned(), entry);
        assert(self@ =~= old(self)@.insert(
            told.session_id@,
            started_entry(told, explicit_tools@),
        ));
        let mut audit = started.audit;
        audit.push("mcp.session_registry:registered".to_owned());
        assert(text::texts(audit@) =~= text::texts(told.audit@).push(
            "mcp.session_registry:registered"@,
        ));
        Ok(
            McpSessionLifecycleReport {
                adapter_id: started.adapter_id,
                session_id,
                status: McpSessionLifecycleStatus::Running,
                process_id: started.process_id,
                audit,
            },
        )
    }

    /// The registered sessions, in the order of their identifiers.
    pub fn list(&self) -> (list: Vec<McpRegisteredSession>)
        requires
            self.wf(),
        ensures
            list@.len() == collections::sorted(self@.dom()).len(),
            forall|i: int|
                0 <= i < list@.len() ==> (#[trigger] list@[i])@ == listed(
                    collections::sorted(self@.dom())[i],
                    self@[collections::sorted(self@.dom())[i]],
                ),
    {
        let ghost names = self.sessions.names();
        proof {
            self.sessions.lemma_names();
            collections::lemma_sorted(names, self@.dom());
        }
        let mut list: Vec<McpRegisteredSession> = Vec::new();
        let mut i: usize = 0;
        while i < self.sessions.len()
            invariant
                i <= names.len(),
                self.wf(),
                names == self.sessions.names(),
                list@.len() == i,
                forall|k: int|
                    0 <= k < i ==> (#[trigger] list@[k])@ == listed(names[k], self@[names[k]]),
            decreases names.len() - i,
        {
            let name = self.sessions.name_at(i);
            let entry = self.sessions.value_at(i);
            proof {
                entry.explicit_tools.lemma_names();
                collections::lemma_sorted(entry.explicit_tools.names(), entry.explicit_tools@);
            }
            let session = McpRegisteredSession {
                adapter_id: entry.adapter_id.copy(),
                session_id: name.to_owned(),
                process_id: entry.process_id,
                server_transport: entry.server_transport,
                explicit_tools: entry.explicit_tools.to_vec(),
                active_streams: active_streams(&entry.streams),
            };
            assert(session@ == listed(names[i as int], self@[names[i as int]]));
            list.push(session);
            i += 1;
        }
        list
    }

    /// Say how a session is.
    pub fn health(&self, session_id: &str) -> (outcome: Result<McpSessionHealthReport, EvaError>)
        requires
            self.wf(),
        ensures
            match outcome {
                Ok(report) => self@.dom().contains(session_id@) && report@ == health_of(
                    session_id@,
                    self@[session_id@],
                ),
                Err(error) => !self@.dom().contains(session_id@) && error@ == not_registered(
                    session_id@,
                ),
            },
    {
        let entry = match self.sessions.get(session_id) {
            Some(entry) => entry,
            None => return Err(unregistered(session_id)),
        };
        let mut healthy_text = String::new();
        healthy_text.append("healthy:");
        healthy_text.append(bool_str(entry.running));
        assert(healthy_text@ =~= "healthy:"@ + http_session::bool_text(entry.running));
        let report = McpSessionHealthReport {
            adapter_id: entry.adapter_id.copy(),
            session_id: session_id.to_owned(),
            status: if entry.running {
                McpSessionLifecycleStatus::Running
            } else {
                McpSessionLifecycleStatus::Stopped
            },
            healthy: entry.running,
            active_streams: active_streams(&entry.streams),
            audit: vec![
                "transport:mcp".to_owned(),
                "mcp.session:health_checked".to_owned(),
                healthy_text,
            ],
        };
        assert(report@.audit =~= health_of(session_id@, self@[session_id@]).audit);
        Ok(report)
    }

    /// Find the process of a session that is to be stopped.
    pub fn begin_shutdown(&self, session_id: &str) -> (outcome: Result<Option<u32>, EvaError>)
        requires
            self.wf(),
        ensures
            match outcome {
                Ok(process_id) => self@.dom().contains(session_id@) && process_id
                    == self@[session_id@].process_id,
                Err(error) => !self@.dom().contains(session_id@) && error@ == not_registered(
                    session_id@,
                ),
            },
    {
        match self.sessions.get(session_id) {
            Some(entry) => Ok(entry.process_id),
            None => Err(unregistered(session_id)),
        }
    }

    /// Remove a session after the attempt to stop it. Where that failed, the
    /// session stays registered.
    pub fn shutdown(&mut self, session_id: &str, stopped: Result<McpSessionStop, EvaError>) -> (outcome:
        Result<McpSessionLifecycleReport, EvaError>)
        requires
            old(self).wf(),
        ensures
            final(self).wf(),
            outcome is Err ==> final(self)@ == old(self)@,
            !old(self)@.dom().contains(session_id@) ==> (outcome matches Err(error) && error@
                == not_registered(session_id@)),
            old(self)@.dom().contains(session_id@) ==> match stopped {
                Err(error) => outcome == Err::<McpSessionLifecycleReport, EvaError>(error),
                Ok(stop) => {
                    &&& outcome matches Ok(report) && report@ == (LifecycleModel {
                        adapter: stop.adapter_id@,
                        session_id: stop.session_id@,
                        status: McpSessionLifecycleStatus::Stopped,
                        process_id: old(self)@[session_id@].process_id,
                        audit: shutdown_audit(
                            text::texts(stop.audit@),
                            old(self)@[session_id@].streams,
                        ),
                    })
                    &&& final(self)@ == old(self)@.remove(session_id@)
                },
            },
    {
        if !self.sessions.contains(session_id) {
            return Err(unregistered(session_id));
        }
        let stop = match stopped {
            Ok(stop) => stop,
            Err(error) => return Err(error),
        };
        let removed = match self.sessions.remove(session_id) {
            Some(removed) => removed,
            None => return Err(unregistered(session_id)),
        };
        assert(self@ =~= old(self)@.remove(session_id@));
        let ghost told = stop;
        let mut audit = stop.audit;
        if any_running(&removed.streams) {
            audit.push("mcp.stream:aborted_by_session_shutdown".to_owned());
        }
        audit.push("mcp.session_registry:removed".to_owned());
        assert(text::texts(audit@) =~= shutdown_audit(text::texts(told.audit@), removed.streams@));
        Ok(
            McpSessionLifecycleReport {
                adapter_id: stop.adapter_id,
                session_id: stop.session_id,
                status: McpSessionLifecycleStatus::Stopped,
                process_id: removed.process_id,
                audit,
            },
        )
    }

    fn with_stream(&mut self, session_id: &str, stream_id: &str, status: McpStreamStatus)
        requires
            old(self).wf(),
            old(self)@.dom().contains(session_id@),
            is_stable(stream_id@),
        ensures
            final(self).wf(),
            final(self)@ == old(self)@.insert(
                session_id@,
                (SessionEntry {
                    streams: old(self)@[session_id@].streams.insert(stream_id@, status),
                    ..old(self)@[session_id@]
                }),
            ),
    {
        match self.sessions.remove(session_id) {
            Some(entry) => {
                let mut entry = entry;
                entry.streams.insert(stream_id.to_owned(), status);
                self.sessions.insert(session_id.to_owned(), entry);
            },
            None => {},
        }
        assert(self@ =~= old(self)@.insert(
            session_id@,
            (SessionEntry {
                streams: old(self)@[session_id@].streams.insert(stream_id@, status),
                ..old(self)@[session_id@]
            }),
        ));
    }

    /// Start a stream of a session. One that was aborted may start again.
    pub fn start_stream(&mut self, session_id: &str, stream_id: &str) -> (outcome: Result<
        McpStreamReport,
        EvaError,
    >)
        requires
            old(self).wf(),
        ensures
            final(self).wf(),
            outcome is Err ==> final(self)@ == old(self)@,
            match start_stream_refusal(old(self)@, session_id@, stream_id@) {
                Some(refusal) => outcome matches Err(error) && error@ == refusal,
                None => {
                    &&& outcome matches Ok(report) && report@ == (StreamModel {
                        adapter: old(self)@[session_id@].adapter,
                        session_id: session_id@,
                        stream_id: stream_id@,
                        status: McpStreamStatus::Running,
                        audit: seq![
                            "transport:mcp"@,
                            "mcp.stream:started"@,
                            "stream_boundary:controlled"@,
                        ],
                    })
                    &&& final(self)@ == old(self)@.insert(
                        session_id@,
                        (SessionEntry {
                            streams: old(self)@[session_id@].streams.insert(
                                stream_id@,
                                McpStreamStatus::Running,
                            ),
                            ..old(self)@[session_id@]
                        }),
                    )
                },
            },
    {
        match validate_stream_id(stream_id) {
            Ok(()) => {},
            Err(error) => return Err(error),
        }
        let adapter_id = match self.sessions.get(session_id) {
            Some(entry) => {
                let running = match entry.streams.get(stream_id) {
                    Some(status) => *status == McpStreamStatus::Running,
                    None => false,
                };
                if running {
                    return Err(
                        EvaError::conflict("MCP stream is already running").with_context(
                            "session_id",
                            session_id,
                        ).with_context("stream_id", stream_id),
                    );
                }
                entry.adapter_id.copy()
            },
            None => return Err(unregistered(session_id)),
        };
        self.with_stream(session_id, stream_id, McpStreamStatus::Running);
        let report = McpStreamReport {
            adapter_id,
            session_id: session_id.to_owned(),
            stream_id: stream_id.to_owned(),
            status: McpStreamStatus::Running,
            audit: vec![
                "transport:mcp".to_owned(),
                "mcp.stream:started".to_owned(),
                "stream_boundary:controlled".to_owned(),
            ],
        };
        assert(report@.audit =~= seq![
            "transport:mcp"@,
            "mcp.stream:started"@,
            "stream_boundary:controlled"@,
        ]);
        Ok(report)
    }

    /// Abort a stream of a session.
    pub fn abort_stream(&mut self, session_id: &str, stream_id: &str) -> (outcome: Result<
        McpStreamReport,
        EvaError,
    >)
        requires
            old(self).wf(),
        ensures
            final(self).wf(),
            outcome is Err ==> final(self)@ == old(self)@,
            match abort_stream_refusal(old(self)@, session_id@, stream_id@) {
                Some(refusal) => outcome matches Err(error) && error@ == refusal,
                None => {
                    &&& outcome matches Ok(report) && report@ == (StreamModel {
                        adapter: old(self)@[session_id@].adapter,
                        session_id: session_id@,
                        stream_id: stream_id@,
                        status: McpStreamStatus::Aborted,
                        audit: seq![
                            "transport:mcp"@,
                            "mcp.stream:abort_requested"@,
                            "mcp.stream:aborted"@,
                        ],
                    })
                    &&& final(self)@ == old(self)@.insert(
                        session_id@,
                        (SessionEntry {
                            streams: old(self)@[session_id@].streams.insert(
                                stream_id@,
                                McpStreamStatus::Aborted,
                            ),
                            ..old(self)@[session_id@]
                        }),
                    )
                },
            },
    {
        let adapter_id = match self.sessions.get(session_id) {
            Some(entry) => {
                if !entry.streams.contains(stream_id) {
                    return Err(
                        EvaError::not_found("MCP stream does not exist").with_context(
                            "session_id",
                            session_id,
                        ).with_context("stream_id", stream_id),
                    );
                }
                entry.adapter_id.copy()
            },
            None => return Err(unregistered(session_id)),
        };
        self.with_stream(session_id, stream_id, McpStreamStatus::Aborted);
        let report = McpStreamReport {
            adapter_id,
            session_id: session_id.to_owned(),
            stream_id: stream_id.to_owned(),
            status: McpStreamStatus::Aborted,
            audit: vec![
                "transport:mcp".to_owned(),
                "mcp.stream:abort_requested".to_owned(),
                "mcp.stream:aborted".to_owned(),
            ],
        };
        assert(report@.audit =~= seq![
            "transport:mcp"@,
            "mcp.stream:abort_requested"@,
            "mcp.stream:aborted"@,
        ]);
        Ok(report)
    }
}

/// What the removal of a session notes.
pub open spec fn shutdown_audit(audit: Seq<Seq<char>>, streams: Map<Seq<char>, McpStreamStatus>) -> Seq<
    Seq<char>,
> {
    (if exists|n: Seq<char>| running_streams(streams).contains(n) {
        audit.push("mcp.stream:aborted_by_session_shutdown"@)
    } else {
        audit
    }).push("mcp.session_registry:removed"@)
}

fn any_running(streams: &NameMap<McpStreamStatus>) -> (found: bool)
    requires
        streams.wf(),
    ensures
        found == exists|n: Seq<char>| running_streams(streams@).contains(n),
{
    let ghost all = streams.names();
    proof {
        streams.lemma_names();
    }
    let mut i: usize = 0;
    while i < streams.len()
        invariant
            i <= all.len(),
            streams.wf(),
            all == streams.names(),
            forall|k: int| 0 <= k < i ==> !running_streams(streams@).contains(#[trigger] all[k]),
        decreases all.len() - i,
    {
        if *streams.value_at(i) == McpStreamStatus::Running {
            assert(running_streams(streams@).contains(all[i as int]));
            return true;
        }
        i += 1;
    }
    assert forall|n: Seq<char>| !running_streams(streams@).contains(n) by {
        if running_streams(streams@).contains(n) {
            assert(all.contains(n));
        }
    }
    false
}

/// Why a stream is not started, if it is not.
pub open spec fn start_stream_refusal(
    sessions: Map<Seq<char>, SessionEntry>,
    session_id: Seq<char>,
    stream_id: Seq<char>,
) -> Option<ErrorModel> {
    if !is_stable(stream_id) {
        Some(unstable_stream_id(stream_id))
    } else if !sessions.dom().contains(session_id) {
        Some(not_registered(session_id))
    } else if running_streams(sessions[session_id].streams).contains(stream_id) {
        Some(
            ErrorModel::new(ErrorKind::Conflict, "MCP stream is already running"@).ctx(
                "session_id"@,
                session_id,
            ).ctx("stream_id"@, stream_id),
        )
    } else {
        None
    }
}

/// Why a stream is not aborted, if it is not.
pub open spec fn abort_stream_refusal(
    sessions: Map<Seq<char>, SessionEntry>,
    session_id: Seq<char>,
    stream_id: Seq<char>,
) -> Option<ErrorModel> {
    if !sessions.dom().contains(session_id) {
        Some(not_registered(session_id))
    } else if !sessions[session_id].streams.dom().contains(stream_id) {
        Some(
            ErrorModel::new(ErrorKind::NotFound, "MCP stream does not exist"@).ctx(
                "session_id"@,
                session_id,
            ).ctx("stream_id"@, stream_id),
        )
    } else {
        None
    }
}

/// What a removal of orphans did, when the sessions stood under the given names.
pub open spec fn orphans_removed(
    before: Map<Seq<char>, SessionEntry>,
    after: Map<Seq<char>, SessionEntry>,
    report: McpOrphanCleanupReport,
    process_runs: Seq<bool>,
) -> bool {
    let names = collections::sorted(before.dom());
    let removed = orphans(names, before, process_runs, names.len() as int);
    &&& process_runs.len() == names.len()
    &&& text::texts(report.removed_sessions@) == removed
    &&& text::texts(report.audit@) == orphan_audit(removed)
    &&& after == without(before, removed)
}

/// Whether the findings, one for each session in the order of the list, are what
/// an inspector tells of the processes of the sessions.
pub open spec fn told_by<I: McpProcessInspector>(
    inspector: &I,
    sessions: Map<Seq<char>, SessionEntry>,
    process_runs: Seq<bool>,
) -> bool {
    let names = collections::sorted(sessions.dom());
    forall|i: int|
        0 <= i < process_runs.len() ==> (sessions[#[trigger] names[i]].process_id matches Some(
            process_id,
        ) ==> inspector.tells(process_id, process_runs[i]))
}

/// Whether an inspector tells of a process only whether it is one of those that
/// run.
pub open spec fn tells_of<I: McpProcessInspector>(
    inspector: &I,
    running: spec_fn(u32) -> bool,
) -> bool {
    forall|process_id: u32, runs: bool| #[trigger]
        inspector.tells(process_id, runs) ==> runs == running(process_id)
}

/// Whether a session has stopped or has a process that is not one of those that
/// run.
pub open spec fn is_abandoned(entry: SessionEntry, running: spec_fn(u32) -> bool) -> bool {
    !entry.running || (entry.process_id matches Some(process_id) && !running(process_id))
}

impl McpSessionRegistry {
    fn find_orphans(&self, process_runs: &Vec<bool>) -> (removed: Vec<String>)
        requires
            self.wf(),
            process_runs@.len() == collections::sorted(self@.dom()).len(),
        ensures
            text::texts(removed@) == orphans(
                collections::sorted(self@.dom()),
                self@,
                process_runs@,
                process_runs@.len() as int,
            ),
    {
        let ghost names = self.sessions.names();
        proof {
            self.sessions.lemma_names();
            collections::lemma_sorted(names, self@.dom());
        }
        let mut removed: Vec<String> = Vec::new();
        let mut i: usize = 0;
        assert(text::texts(removed@) =~= Seq::<Seq<char>>::empty());
        while i < process_runs.len()
            invariant
                i <= process_runs@.len(),
                process_runs@.len() == names.len(),
                self.wf(),
                names == self.sessions.names(),
                text::texts(removed@) == orphans(names, self@, process_runs@, i as int),
            decreases process_runs@.len() - i,
        {
            let entry = self.sessions.value_at(i);
            assert(self@[names[i as int]] == entry@);
            let missing = entry.process_id.is_some() && !process_runs[i];
            let ghost before = text::texts(removed@);
            if !entry.running || missing {
                let name = self.sessions.name_at(i);
                removed.push(name.to_owned());
                assert(text::texts(removed@) =~= before.push(name@));
            }
            i += 1;
        }
        removed
    }

    /// Remove the sessions that have stopped or whose process was found not to
    /// run. There is one finding for each session, in the order of the list.
    pub fn remove_orphans(&mut self, process_runs: &Vec<bool>) -> (report: McpOrphanCleanupReport)
        requires
            old(self).wf(),
            process_runs@.len() == collections::sorted(old(self)@.dom()).len(),
        ensures
            final(self).wf(),
            orphans_removed(old(self)@, final(self)@, report, process_runs@),
    {
        let removed = self.find_orphans(process_runs);
        let ghost names = text::texts(removed@);
        let mut count = String::new();
        count.append("removed_count:");
        count.append(decimal_usize(removed.len()).as_str());
        assert(count@ =~= "removed_count:"@ + text::decimal(names.len()));
        let mut audit: Vec<String> = vec![
            "transport:mcp".to_owned(),
            "mcp.session:orphan_cleanup_checked".to_owned(),
            count,
        ];
        let ghost head = text::texts(audit@);
        let ghost all = orphan_audit(names);
        assert(head =~= all.take(3));
        let mut i: usize = 0;
        assert(names.take(0).to_set() =~= Set::<Seq<char>>::empty());
        assert(self@.remove_keys(Set::<Seq<char>>::empty()) =~= self@);
        while i < removed.len()
            invariant
                i <= removed@.len(),
                names == text::texts(removed@),
                self.wf(),
                self@ == old(self)@.remove_keys(names.take(i as int).to_set()),
                all == orphan_audit(names),
                text::texts(audit@) == all.take(3 + i),
            decreases removed@.len() - i,
        {
            let id = removed[i].as_str();
            assert(names[i as int] == id@);
            let ghost earlier = self@;
            let _ = self.sessions.remove(id);
            assert(self@ =~= earlier.remove(id@));
            let mut entry = String::new();
            entry.append("mcp.session:orphan_removed:");
            entry.append(id);
            let ghost noted = text::texts(audit@);
            let ghost text = entry@;
            audit.push(entry);
            proof {
                assert(text =~= "mcp.session:orphan_removed:"@ + id@);
                assert(all[3 + i] == text);
                assert(text::texts(audit@) =~= noted.push(text));
                assert(all.take(3 + i + 1) =~= all.take(3 + i).push(text));
                let less = names.take(i as int);
                let more = names.take(i + 1);
                assert(more =~= less.push(id@));
                assert(more.to_set() =~= less.to_set().insert(id@)) by {
                    assert forall|n: Seq<char>| more.to_set().contains(n) <==> less.to_set().insert(
                        id@,
                    ).contains(n) by {
                        if more.contains(n) {
                            let k = choose|k: int| 0 <= k < more.len() && more[k] == n;
                            if k < i {
                                assert(less[k] == n);
                            }
                        }
                        if less.contains(n) {
                            let k = choose|k: int| 0 <= k < less.len() && less[k] == n;
                            assert(more[k] == n);
                        }
                        if n == id@ {
                            assert(more[i as int] == n);
                        }
                    }
                }
                assert(self@ =~= old(self)@.remove_keys(more.to_set()));
            }
            i += 1;
        }
        assert(names.take(i as int) =~= names);
        assert(all.take(3 + i) =~= all);
        McpOrphanCleanupReport { removed_sessions: removed, audit }
    }

    /// Remove the sessions that have stopped or whose process does not run. A
    /// session without a process is not asked about.
    pub fn cleanup_orphans<I: McpProcessInspector>(&mut self, inspector: &I) -> (report:
        McpOrphanCleanupReport)
        requires
            old(self).wf(),
        ensures
            final(self).wf(),
            exists|process_runs: Seq<bool>|
                {
                    &&& #[trigger] orphans_removed(old(self)@, final(self)@, report, process_runs)
                    &&& told_by(inspector, old(self)@, process_runs)
                },
    {
        let ghost names = self.sessions.names();
        proof {
            self.sessions.lemma_names();
            collections::lemma_sorted(names, self@.dom());
        }
        let mut process_runs: Vec<bool> = Vec::new();
        let mut i: usize = 0;
        while i < self.sessions.len()
            invariant
                i <= names.len(),
                self.wf(),
                *self == *old(self),
                names == self.sessions.names(),
                process_runs@.len() == i,
                forall|k: int|
                    0 <= k < i ==> (self@[#[trigger] names[k]].process_id matches Some(process_id)
                        ==> inspector.tells(process_id, process_runs@[k])),
            decreases names.len() - i,
        {
            let entry = self.sessions.value_at(i);
            assert(self@[names[i as int]] == entry@);
            let runs = match entry.process_id {
                Some(process_id) => inspector.process_is_running(process_id),
                None => true,
            };
            process_runs.push(runs);
            i += 1;
        }
        assert(told_by(inspector, self@, process_runs@));
        let report = self.remove_orphans(&process_runs);
        assert(orphans_removed(old(self)@, self@, report, process_runs@));
        report
    }
}

// ---------------------------------------------------------------------------
// Laws
// ---------------------------------------------------------------------------

proof fn lemma_orphans_contain(
    names: Seq<Seq<char>>,
    sessions: Map<Seq<char>, SessionEntry>,
    process_runs: Seq<bool>,
    upto: int,
    name: Seq<char>,
)
    requires
        0 <= upto <= names.len(),
    ensures
        orphans(names, sessions, process_runs, upto).contains(name) <==> exists|i: int|
            0 <= i < upto && #[trigger] names[i] == name && is_orphaned(
                sessions[name],
                process_runs[i],
            ),
    decreases upto,
{
    if upto > 0 {
        let before = orphans(names, sessions, process_runs, upto - 1);
        let now = orphans(names, sessions, process_runs, upto);
        lemma_orphans_contain(names, sessions, process_runs, upto - 1, name);
        if now.contains(name) {
            let k = choose|k: int| 0 <= k < now.len() && now[k] == name;
            if k < before.len() {
                assert(before[k] == name);
                assert(before.contains(name));
            } else {
                assert(names[upto - 1] == name);
            }
        }
        if before.contains(name) {
            let k = choose|k: int| 0 <= k < before.len() && before[k] == name;
            assert(now[k] == name);
        }
        if names[upto - 1] == name && is_orphaned(sessions[name], process_runs[upto - 1]) {
            assert(now[now.len() - 1] == name);
        }
    }
}

proof fn lemma_orphans_in_order(
    names: Seq<Seq<char>>,
    sessions: Map<Seq<char>, SessionEntry>,
    process_runs: Seq<bool>,
    upto: int,
)
    requires
        0 <= upto <= names.len(),
        collections::in_order(names),
    ensures
        collections::in_order(orphans(names, sessions, process_runs, upto)),
    decreases upto,
{
    if upto > 0 {
        let before = orphans(names, sessions, process_runs, upto - 1);
        let now = orphans(names, sessions, process_runs, upto);
        lemma_orphans_in_order(names, sessions, process_runs, upto - 1);
        assert forall|a: int, b: int| 0 <= a < b < now.len() implies collections::name_less(
            #[trigger] now[a],
            #[trigger] now[b],
        ) by {
            if b < before.len() {
                assert(collections::name_less(before[a], before[b]));
            } else {
                assert(before.contains(before[a]));
                lemma_orphans_contain(names, sessions, process_runs, upto - 1, before[a]);
                let k = choose|k: int| 0 <= k < upto - 1 && #[trigger] names[k] == before[a];
                assert(collections::name_less(names[k], names[upto - 1]));
            }
        }
    }
}

/// Where an inspector tells only which processes run, the sessions removed are,
/// in the order of the list, exactly those that have stopped or whose process
/// does not run. The list afterwards is the one before without them, and the
/// record of the removal has their number and a line for each.
pub proof fn law_cleanup_removes_the_abandoned<I: McpProcessInspector>(
    inspector: &I,
    running: spec_fn(u32) -> bool,
    before: McpSessionRegistry,
    after: Map<Seq<char>, SessionEntry>,
    report: McpOrphanCleanupReport,
    process_runs: Seq<bool>,
)
    requires
        before.wf(),
        orphans_removed(before@, after, report, process_runs),
        told_by(inspector, before@, process_runs),
        tells_of(inspector, running),
    ensures
        ({
            let removed = text::texts(report.removed_sessions@);
            let audit = text::texts(report.audit@);
            &&& collections::in_order(removed)
            &&& forall|n: Seq<char>| #[trigger]
                removed.contains(n) <==> before@.dom().contains(n) && is_abandoned(
                    before@[n],
                    running,
                )
            &&& forall|n: Seq<char>| #[trigger]
                after.dom().contains(n) <==> before@.dom().contains(n) && !is_abandoned(
                    before@[n],
                    running,
                )
            &&& forall|n: Seq<char>| #[trigger] after.dom().contains(n) ==> after[n] == before@[n]
            &&& audit.len() == 3 + removed.len()
            &&& audit[2] == "removed_count:"@ + text::decimal(removed.len())
            &&& forall|i: int|
                0 <= i < removed.len() ==> #[trigger] audit[3 + i]
                    == "mcp.session:orphan_removed:"@ + removed[i]
        }),
{
    let names = collections::sorted(before@.dom());
    let removed = text::texts(report.removed_sessions@);
    before.sessions.lemma_names();
    collections::lemma_sorted(before.sessions.names(), before@.dom());
    lemma_orphans_in_order(names, before@, process_runs, names.len() as int);
    assert forall|n: Seq<char>| #[trigger]
        removed.contains(n) <==> before@.dom().contains(n) && is_abandoned(before@[n], running) by {
        lemma_orphans_contain(names, before@, process_runs, names.len() as int, n);
        if before@.dom().contains(n) {
            assert(names.contains(n));
            let k = choose|k: int| 0 <= k < names.len() && names[k] == n;
            assert(names[k] == n);
            if is_abandoned(before@[n], running) {
                assert(is_orphaned(before@[n], process_runs[k]));
            }
        }
        if removed.contains(n) {
            let k = choose|k: int|
                0 <= k < names.len() && #[trigger] names[k] == n && is_orphaned(
                    before@[n],
                    process_runs[k],
                );
            assert(names.contains(names[k]));
        }
    }
    assert forall|n: Seq<char>| #[trigger]
        after.dom().contains(n) <==> before@.dom().contains(n) && !is_abandoned(
            before@[n],
            running,
        ) by {
        assert(removed.to_set().contains(n) == removed.contains(n));
    }
}

/// Where an inspector tells only which processes run, a removal of orphans right
/// after another one removes nothing.
pub proof fn law_cleanup_is_idempotent<I: McpProcessInspector>(
    inspector: &I,
    running: spec_fn(u32) -> bool,
    before: McpSessionRegistry,
    between: McpSessionRegistry,
    after: Map<Seq<char>, SessionEntry>,
    first: McpOrphanCleanupReport,
    second: McpOrphanCleanupReport,
    first_runs: Seq<bool>,
    second_runs: Seq<bool>,
)
    requires
        before.wf(),
        between.wf(),
        orphans_removed(before@, between@, first, first_runs),
        orphans_removed(between@, after, second, second_runs),
        told_by(inspector, before@, first_runs),
        told_by(inspector, between@, second_runs),
        tells_of(inspector, running),
    ensures
        second.removed_sessions@.len() == 0,
        after == between@,
{
    law_cleanup_removes_the_abandoned(inspector, running, before, between@, first, first_runs);
    law_cleanup_removes_the_abandoned(inspector, running, between, after, second, second_runs);
    let removed = text::texts(second.removed_sessions@);
    if removed.len() > 0 {
        assert(removed.contains(removed[0]));
        assert(between@.dom().contains(removed[0]));
    }
    assert(after =~= between@);
}

/// A session is removed as an orphan only if it has stopped or its process was
/// found not to run; a running session whose process runs stays as it is.
pub proof fn law_cleanup_spares_running_sessions(
    before: Map<Seq<char>, SessionEntry>,
    after: Map<Seq<char>, SessionEntry>,
    report: McpOrphanCleanupReport,
    process_runs: Seq<bool>,
    name: Seq<char>,
)
    requires
        orphans_removed(before, after, report, process_runs),
        before.dom().contains(name),
        before[name].running,
        before[name].process_id is None || forall|i: int|
            0 <= i < process_runs.len() ==> #[trigger] process_runs[i],
    ensures
        after.dom().contains(name),
        after[name] == before[name],
{
    let names = collections::sorted(before.dom());
    lemma_orphans_contain(names, before, process_runs, names.len() as int, name);
}

/// The tools and the streams of every registered session have stable names.
pub proof fn law_registered_names_are_stable(registry: McpSessionRegistry, session_id: Seq<char>)
    requires
        registry.wf(),
        registry@.dom().contains(session_id),
    ensures
        names_are_stable(registry@[session_id].explicit_tools),
        names_are_stable(registry@[session_id].streams.dom()),
{
    assert(registry.sessions@.dom().contains(session_id));
}

/// A stream that was started is running, and one that was aborted is not; the
/// other streams and sessions stay as they are.
pub proof fn law_streams_are_independent(
    sessions: Map<Seq<char>, SessionEntry>,
    session_id: Seq<char>,
    stream_id: Seq<char>,
    other_session: Seq<char>,
    other_stream: Seq<char>,
    status: McpStreamStatus,
)
    requires
        sessions.dom().contains(session_id),
    ensures
        ({
            let after = sessions.insert(
                session_id,
                (SessionEntry {
                    streams: sessions[session_id].streams.insert(stream_id, status),
                    ..sessions[session_id]
                }),
            );
            &&& running_streams(after[session_id].streams).contains(stream_id) <==> status
                == McpStreamStatus::Running
            &&& other_stream != stream_id ==> (running_streams(after[session_id].streams).contains(
                other_stream,
            ) <==> running_streams(sessions[session_id].streams).contains(other_stream))
            &&& other_session != session_id ==> after.dom().contains(other_session)
                == sessions.dom().contains(other_session) && after[other_session]
                == sessions[other_session]
        }),
{
}

} // verus!

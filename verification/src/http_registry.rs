//! The HTTP sessions that a supervisor owns: their streams, their readers, and
//! how they are aborted, shut down and drained.
//!
//! The registry holds no socket and no thread. A cleanup is a transaction: the
//! registry says what is to be done, whoever owns the sockets and threads does
//! it, and the registry takes in how it went. What has failed stays registered,
//! fenced off until it is cleaned up.

use vstd::prelude::*;
use vstd::string::*;
use crate::collections;
use crate::collections::NameMap;
use crate::error;
use crate::error::{ErrorKind, ErrorModel, EvaError};
use crate::http_session;
use crate::http_session::bool_str;
use crate::identity::AdapterId;
use crate::lifecycle;
use crate::lifecycle::{
    validate_stream_id, LifecycleModel, McpSessionLifecycleReport, McpSessionLifecycleStatus,
    McpStreamReport, McpStreamStatus, StreamModel,
};
use crate::text;
use crate::text::{decimal_u64, decimal_usize};

verus! {

/// How many items a reader may have waiting.
pub const MANAGED_STREAM_QUEUE_ITEMS: usize = 64;

/// How long one wait for a reader lasts at most.
pub const READER_WAIT_MS: u64 = 50;

// ---------------------------------------------------------------------------
// Readers
// ---------------------------------------------------------------------------

/// Why a reader stopped.
pub enum ExitModel {
    Cancelled,
    SourceEnded { provider_code: Option<Seq<char>> },
    QueueLimit,
}

/// Why a reader stopped.
#[derive(Debug, Clone, PartialEq, Eq)]
pub enum ManagedReaderExit {
    Cancelled,
    SourceEnded { provider_code: Option<String> },
    QueueLimit,
}

impl View for ManagedReaderExit {
    type V = ExitModel;

    open spec fn view(&self) -> ExitModel {
        match self {
            ManagedReaderExit::Cancelled => ExitModel::Cancelled,
            ManagedReaderExit::SourceEnded { provider_code } => ExitModel::SourceEnded {
                provider_code: error::option_text(*provider_code),
            },
            ManagedReaderExit::QueueLimit => ExitModel::QueueLimit,
        }
    }
}

impl ExitModel {
    /// The stable name of the reason.
    pub open spec fn name(self) -> Seq<char> {
        match self {
            ExitModel::Cancelled => "cancelled"@,
            ExitModel::SourceEnded { .. } => "source_ended"@,
            ExitModel::QueueLimit => "queue_limit"@,
        }
    }
}

impl ManagedReaderExit {
    pub fn as_str(&self) -> (name: &'static str)
        ensures
            name@ == self@.name(),
    {
        match self {
            ManagedReaderExit::Cancelled => "cancelled",
            ManagedReaderExit::SourceEnded { .. } => "source_ended",
            ManagedReaderExit::QueueLimit => "queue_limit",
        }
    }
}

/// An optional reason.
pub open spec fn exit_model(exit: Option<ManagedReaderExit>) -> Option<ExitModel> {
    match exit {
        Some(exit) => Some(exit@),
        None => None,
    }
}

/// Why a reader stops whose source gives no item: it was cancelled, or the
/// source has ended.
pub fn reader_failed(cancelled: bool, provider_code: Option<String>) -> (exit: ManagedReaderExit)
    ensures
        exit@ == if cancelled {
            ExitModel::Cancelled
        } else {
            ExitModel::SourceEnded { provider_code: error::option_text(provider_code) }
        },
{
    if cancelled {
        ManagedReaderExit::Cancelled
    } else {
        ManagedReaderExit::SourceEnded { provider_code }
    }
}

/// The bytes that are queued after an item was added, if they stay within the
/// limit.
pub open spec fn reserved(current: usize, amount: usize, limit: usize) -> Option<usize> {
    if current + amount > limit {
        None
    } else {
        Some((current + amount) as usize)
    }
}

/// The bytes that are queued after an item was taken.
pub open spec fn released(current: usize, amount: usize) -> usize {
    if amount <= current {
        (current - amount) as usize
    } else {
        0
    }
}

pub fn reserve_queued_bytes(current: usize, amount: usize, limit: usize) -> (next: Option<usize>)
    ensures
        next == reserved(current, amount, limit),
{
    if amount > usize::MAX - current {
        return None;
    }
    let next: usize = current + amount;
    if next > limit {
        None
    } else {
        Some(next)
    }
}

pub fn release_queued_bytes(current: usize, amount: usize) -> (next: usize)
    ensures
        next == released(current, amount),
{
    if amount <= current {
        current - amount
    } else {
        0
    }
}

/// What a reader has come to.
pub enum ReaderSight {
    /// It is about to wait for an item.
    Idle,
    /// Its source gave no item.
    Failed { provider_code: Option<String> },
    /// It has an item of so many bytes, while so many are queued.
    Item { queued: usize, bytes: usize, limit: usize },
    /// It has counted an item of so many bytes in, but the queue did not take
    /// it.
    NotTaken { queued: usize, bytes: usize },
}

/// What a reader does next.
pub enum ReaderMove {
    /// Wait for an item.
    Read,
    /// Queue the item; so many bytes are queued then.
    Queue { queued: usize },
    /// Stop; so many bytes are queued then, if that has changed.
    Stop { exit: ManagedReaderExit, queued: Option<usize> },
}

/// Whether a reader stops with the given reason and count.
pub open spec fn stops(next: ReaderMove, exit: ExitModel, queued: Option<usize>) -> bool {
    next matches ReaderMove::Stop { exit: e, queued: q } && e@ == exit && q == queued
}

/// What a reader does next. It looks whether it was cancelled before it waits
/// and when its source fails. An item that does not fit, or that the queue does
/// not take, ends it, and is not counted.
pub fn run_managed_http_reader(cancelled: bool, seen: ReaderSight) -> (next: ReaderMove)
    ensures
        match seen {
            ReaderSight::Idle => if cancelled {
                stops(next, ExitModel::Cancelled, None)
            } else {
                next is Read
            },
            ReaderSight::Failed { provider_code } => stops(
                next,
                if cancelled {
                    ExitModel::Cancelled
                } else {
                    ExitModel::SourceEnded { provider_code: error::option_text(provider_code) }
                },
                None,
            ),
            ReaderSight::Item { queued, bytes, limit } => match reserved(queued, bytes, limit) {
                Some(count) => next == (ReaderMove::Queue { queued: count }),
                None => stops(next, ExitModel::QueueLimit, None),
            },
            ReaderSight::NotTaken { queued, bytes } => stops(
                next,
                ExitModel::QueueLimit,
                Some(released(queued, bytes)),
            ),
        },
{
    match seen {
        ReaderSight::Idle => if cancelled {
            ReaderMove::Stop { exit: ManagedReaderExit::Cancelled, queued: None }
        } else {
            ReaderMove::Read
        },
        ReaderSight::Failed { provider_code } => ReaderMove::Stop {
            exit: reader_failed(cancelled, provider_code),
            queued: None,
        },
        ReaderSight::Item { queued, bytes, limit } => match reserve_queued_bytes(
            queued,
            bytes,
            limit,
        ) {
            Some(count) => ReaderMove::Queue { queued: count },
            None => ReaderMove::Stop { exit: ManagedReaderExit::QueueLimit, queued: None },
        },
        ReaderSight::NotTaken { queued, bytes } => ReaderMove::Stop {
            exit: ManagedReaderExit::QueueLimit,
            queued: Some(release_queued_bytes(queued, bytes)),
        },
    }
}

/// Taking an item gives back what adding it took.
pub proof fn law_released_bytes_are_those_reserved(current: usize, amount: usize, limit: usize)
    ensures
        reserved(current, amount, limit) matches Some(next) ==> next <= limit && released(
            next,
            amount,
        ) == current,
{
}

/// What a read from a stream reports whose reader has stopped.
pub open spec fn terminal_model(exit: Option<ExitModel>, fallback: Seq<char>) -> ErrorModel {
    match exit {
        Some(ExitModel::QueueLimit) => ErrorModel::new(
            ErrorKind::Conflict,
            "MCP managed SSE event queue reached its bounded limit"@,
        ).code("mcp_stream_reader_queue_limit"@),
        Some(ExitModel::SourceEnded { provider_code }) => {
            let ended = ErrorModel::new(
                ErrorKind::Unavailable,
                "MCP managed SSE reader terminated"@,
            ).code("mcp_stream_reader_ended"@);
            match provider_code {
                Some(code) => ended.ctx("source_provider_code"@, code),
                None => ended,
            }
        },
        Some(ExitModel::Cancelled) => ErrorModel::new(
            ErrorKind::Unavailable,
            "MCP managed SSE reader was cancelled"@,
        ).code("mcp_stream_reader_cancelled"@),
        None => ErrorModel::new(
            ErrorKind::Unavailable,
            "MCP managed SSE reader terminated without an exit report"@,
        ).code("mcp_stream_reader_ended"@).ctx("reader_exit"@, fallback),
    }
}

pub fn managed_reader_terminal_error(exit: &Option<ManagedReaderExit>, fallback: &str) -> (error:
    EvaError)
    ensures
        error@ == terminal_model(exit_model(*exit), fallback@),
{
    match exit {
        Some(ManagedReaderExit::QueueLimit) => EvaError::conflict(
            "MCP managed SSE event queue reached its bounded limit",
        ).with_provider_code("mcp_stream_reader_queue_limit"),
        Some(ManagedReaderExit::SourceEnded { provider_code }) => {
            let ended = EvaError::unavailable(
                "MCP managed SSE reader terminated",
            ).with_provider_code("mcp_stream_reader_ended");
            match provider_code {
                Some(code) => ended.with_context("source_provider_code", code.as_str()),
                None => ended,
            }
        },
        Some(ManagedReaderExit::Cancelled) => EvaError::unavailable(
            "MCP managed SSE reader was cancelled",
        ).with_provider_code("mcp_stream_reader_cancelled"),
        None => EvaError::unavailable(
            "MCP managed SSE reader terminated without an exit report",
        ).with_provider_code("mcp_stream_reader_ended").with_context("reader_exit", fallback),
    }
}

/// What to do while waiting for a reader to stop.
#[derive(Debug, Clone, Copy, PartialEq, Eq, Structural)]
pub enum WaitStep {
    TimedOut,
    Join,
    /// Wait for so many milliseconds; if nothing comes, close the socket again.
    Wait(u64),
}

/// What to do next while waiting for a reader, with so many milliseconds left.
/// A reader that has stopped is joined only before the time is up.
pub fn wait_step(remaining_ms: u64, finished: bool) -> (step: WaitStep)
    ensures
        step == if remaining_ms == 0 {
            WaitStep::TimedOut
        } else if finished {
            WaitStep::Join
        } else if remaining_ms < READER_WAIT_MS {
            WaitStep::Wait(remaining_ms)
        } else {
            WaitStep::Wait(READER_WAIT_MS)
        },
{
    if remaining_ms == 0 {
        WaitStep::TimedOut
    } else if finished {
        WaitStep::Join
    } else if remaining_ms < READER_WAIT_MS {
        WaitStep::Wait(remaining_ms)
    } else {
        WaitStep::Wait(READER_WAIT_MS)
    }
}

/// How the wait for a reader ended.
#[derive(Debug)]
pub enum ReaderWait {
    /// There was no wait: the time given for it ends at no moment that can be told.
    OutOfRange,
    TimedOut,
    /// The socket could not be closed again.
    AbortFailed(EvaError),
    /// The reader has stopped and was joined.
    Joined { panicked: bool },
}

/// How the wait for a reader ended.
pub enum WaitModel {
    OutOfRange,
    TimedOut,
    AbortFailed(ErrorModel),
    Joined { panicked: bool },
}

impl View for ReaderWait {
    type V = WaitModel;

    open spec fn view(&self) -> WaitModel {
        match self {
            ReaderWait::OutOfRange => WaitModel::OutOfRange,
            ReaderWait::TimedOut => WaitModel::TimedOut,
            ReaderWait::AbortFailed(error) => WaitModel::AbortFailed(error@),
            ReaderWait::Joined { panicked } => WaitModel::Joined { panicked: *panicked },
        }
    }
}

/// How the wait for a reader ended, and the reason that the reader gave for
/// stopping, if it gave one meanwhile.
#[derive(Debug)]
pub struct ReaderOutcome {
    pub wait: ReaderWait,
    pub reason: Option<ManagedReaderExit>,
}

/// How the wait for a reader ended, and the reason that it gave.
#[verifier::ext_equal]
pub struct OutcomeModel {
    pub wait: WaitModel,
    pub reason: Option<ExitModel>,
}

impl View for ReaderOutcome {
    type V = OutcomeModel;

    open spec fn view(&self) -> OutcomeModel {
        OutcomeModel { wait: self.wait@, reason: exit_model(self.reason) }
    }
}

// ---------------------------------------------------------------------------
// Streams
// ---------------------------------------------------------------------------

#[derive(Debug, Clone, Copy, PartialEq, Eq, Structural)]
pub enum ManagedHttpStreamState {
    Running,
    Cancelling,
    Joined,
}

#[derive(Debug, Clone, Copy, PartialEq, Eq, Structural)]
pub enum ManagedHttpSessionState {
    Active,
    CleanupPending,
}

/// What is known of a stream.
#[verifier::ext_equal]
pub struct StreamEntry {
    pub state: ManagedHttpStreamState,
    /// Whether the reader was joined.
    pub joined: bool,
    pub last_exit: Option<ExitModel>,
}

/// A stream with its reader.
#[derive(Debug)]
pub struct RegisteredHttpStream {
    state: ManagedHttpStreamState,
    joined: bool,
    last_exit: Option<ManagedReaderExit>,
}

impl View for RegisteredHttpStream {
    type V = StreamEntry;

    closed spec fn view(&self) -> StreamEntry {
        StreamEntry {
            state: self.state,
            joined: self.joined,
            last_exit: exit_model(self.last_exit),
        }
    }
}

pub open spec fn fresh_stream() -> StreamEntry {
    StreamEntry { state: ManagedHttpStreamState::Running, joined: false, last_exit: None }
}

pub open spec fn join_range_model() -> ErrorModel {
    ErrorModel::new(
        ErrorKind::InvalidArgument,
        "MCP SSE reader join timeout is out of range"@,
    ).code("mcp_stream_reader_timeout_invalid"@)
}

pub open spec fn join_timeout_model() -> ErrorModel {
    ErrorModel::new(ErrorKind::Timeout, "MCP SSE reader did not exit after socket abort"@).code(
        "mcp_stream_reader_join_timeout"@,
    )
}

pub open spec fn reader_panicked_model() -> ErrorModel {
    ErrorModel::new(ErrorKind::Internal, "MCP SSE reader thread panicked"@).code(
        "mcp_stream_reader_panicked"@,
    )
}

/// The name of the reason, or the given text where there is none.
pub open spec fn exit_name(exit: Option<ExitModel>, fallback: Seq<char>) -> Seq<char> {
    match exit {
        Some(exit) => exit.name(),
        None => fallback,
    }
}

/// The stream after the wait for its reader, and why the reader stopped. A time
/// out of range is refused before anything else. A reader that was joined before
/// is not waited for.
pub open spec fn after_wait(stream: StreamEntry, outcome: OutcomeModel) -> (
    StreamEntry,
    Result<Seq<char>, ErrorModel>,
) {
    if outcome.wait == WaitModel::OutOfRange {
        (stream, Err(join_range_model()))
    } else if stream.joined {
        (stream, Ok(exit_name(stream.last_exit, "already_joined"@)))
    } else {
        let last_exit = if outcome.reason is Some {
            outcome.reason
        } else {
            stream.last_exit
        };
        let waited = StreamEntry { last_exit, ..stream };
        match outcome.wait {
            WaitModel::OutOfRange => (stream, Err(join_range_model())),
            WaitModel::TimedOut => (waited, Err(join_timeout_model())),
            WaitModel::AbortFailed(error) => (waited, Err(error)),
            WaitModel::Joined { panicked } => (
                StreamEntry { state: ManagedHttpStreamState::Joined, joined: true, last_exit },
                if panicked {
                    Err(reader_panicked_model())
                } else {
                    Ok(exit_name(last_exit, "completed"@))
                },
            ),
        }
    }
}

fn exit_str(exit: &Option<ManagedReaderExit>, fallback: &'static str) -> (name: &'static str)
    ensures
        name@ == exit_name(exit_model(*exit), fallback@),
{
    match exit {
        Some(exit) => exit.as_str(),
        None => fallback,
    }
}

fn join_out_of_range() -> (error: EvaError)
    ensures
        error@ == join_range_model(),
{
    EvaError::invalid_argument("MCP SSE reader join timeout is out of range").with_provider_code(
        "mcp_stream_reader_timeout_invalid",
    )
}

/// Take in how the wait for the reader of a stream ended.
fn wait_and_join_reader(stream: &mut RegisteredHttpStream, outcome: ReaderOutcome) -> (joined: Result<
    &'static str,
    EvaError,
>)
    ensures
        final(stream)@ == after_wait(old(stream)@, outcome@).0,
        match joined {
            Ok(name) => after_wait(old(stream)@, outcome@).1 == Ok::<Seq<char>, ErrorModel>(name@),
            Err(error) => after_wait(old(stream)@, outcome@).1 == Err::<Seq<char>, ErrorModel>(
                error@,
            ),
        },
{
    if matches!(outcome.wait, ReaderWait::OutOfRange) {
        return Err(join_out_of_range());
    }
    if stream.joined {
        return Ok(exit_str(&stream.last_exit, "already_joined"));
    }
    if outcome.reason.is_some() {
        stream.last_exit = outcome.reason;
    }
    match outcome.wait {
        ReaderWait::OutOfRange => Err(join_out_of_range()),
        ReaderWait::TimedOut => Err(
            EvaError::timeout(
                "MCP SSE reader did not exit after socket abort",
            ).with_provider_code("mcp_stream_reader_join_timeout"),
        ),
        ReaderWait::AbortFailed(error) => Err(error),
        ReaderWait::Joined { panicked } => {
            stream.joined = true;
            stream.state = ManagedHttpStreamState::Joined;
            if panicked {
                Err(
                    EvaError::internal("MCP SSE reader thread panicked").with_provider_code(
                        "mcp_stream_reader_panicked",
                    ),
                )
            } else {
                Ok(exit_str(&stream.last_exit, "completed"))
            }
        },
    }
}

// ---------------------------------------------------------------------------
// Sessions
// ---------------------------------------------------------------------------

/// What is known of a session.
#[verifier::ext_equal]
pub struct HttpEntry {
    pub adapter: Seq<char>,
    pub state: ManagedHttpSessionState,
    pub streams: Map<Seq<char>, StreamEntry>,
}

/// A session with its streams.
#[derive(Debug)]
pub struct RegisteredHttpSession {
    adapter_id: AdapterId,
    state: ManagedHttpSessionState,
    streams: NameMap<RegisteredHttpStream>,
}

impl View for RegisteredHttpSession {
    type V = HttpEntry;

    closed spec fn view(&self) -> HttpEntry {
        HttpEntry {
            adapter: self.adapter_id@,
            state: self.state,
            streams: self.streams@.map_values(|s: RegisteredHttpStream| s@),
        }
    }
}

/// What a registry knows.
#[verifier::ext_equal]
pub struct RegistryModel {
    pub sessions: Map<Seq<char>, HttpEntry>,
    pub next_session_id: u64,
    pub admission_closed: bool,
    pub draining: bool,
}

/// The HTTP sessions that a supervisor owns.
#[derive(Debug)]
pub struct McpStreamableHttpSessionRegistry {
    sessions: NameMap<RegisteredHttpSession>,
    next_session_id: u64,
    admission_closed: bool,
    draining: bool,
}

impl View for McpStreamableHttpSessionRegistry {
    type V = RegistryModel;

    closed spec fn view(&self) -> RegistryModel {
        RegistryModel {
            sessions: self.sessions@.map_values(|s: RegisteredHttpSession| s@),
            next_session_id: self.next_session_id,
            admission_closed: self.admission_closed,
            draining: self.draining,
        }
    }
}

/// The identifier of the session that was registered with the given number.
pub open spec fn registry_id(number: u64) -> Seq<char> {
    "mcp-http-session-"@ + text::decimal(number as nat)
}

// ---------------------------------------------------------------------------
// Counts
// ---------------------------------------------------------------------------

/// A number, as far as it can be counted.
pub open spec fn capped(n: nat) -> usize {
    if n > usize::MAX {
        usize::MAX
    } else {
        n as usize
    }
}

/// How many of the first named streams have a reader that was not joined.
pub open spec fn unjoined(names: Seq<Seq<char>>, streams: Map<Seq<char>, StreamEntry>, upto: int) -> nat
    decreases upto,
{
    if upto <= 0 {
        0
    } else {
        unjoined(names, streams, upto - 1) + if streams[names[upto - 1]].joined {
            0nat
        } else {
            1nat
        }
    }
}

/// How many readers of a session were not joined.
pub open spec fn session_readers(entry: HttpEntry) -> nat {
    let names = collections::sorted(entry.streams.dom());
    unjoined(names, entry.streams, names.len() as int)
}

/// How many readers of the first named sessions were not joined.
pub open spec fn readers_of(names: Seq<Seq<char>>, sessions: Map<Seq<char>, HttpEntry>, upto: int) -> nat
    decreases upto,
{
    if upto <= 0 {
        0
    } else {
        readers_of(names, sessions, upto - 1) + session_readers(sessions[names[upto - 1]])
    }
}

/// How many readers were not joined.
pub open spec fn reader_count(sessions: Map<Seq<char>, HttpEntry>) -> nat {
    let names = collections::sorted(sessions.dom());
    readers_of(names, sessions, names.len() as int)
}

/// How many of the first named sessions wait for cleanup.
pub open spec fn pending_of(names: Seq<Seq<char>>, sessions: Map<Seq<char>, HttpEntry>, upto: int) -> nat
    decreases upto,
{
    if upto <= 0 {
        0
    } else {
        pending_of(names, sessions, upto - 1) + if sessions[names[upto - 1]].state
            == ManagedHttpSessionState::CleanupPending {
            1nat
        } else {
            0nat
        }
    }
}

/// How many sessions wait for cleanup.
pub open spec fn pending_count(sessions: Map<Seq<char>, HttpEntry>) -> nat {
    let names = collections::sorted(sessions.dom());
    pending_of(names, sessions, names.len() as int)
}

impl RegisteredHttpSession {
    pub closed spec fn wf(&self) -> bool {
        self.streams.wf()
    }

    fn reader_count(&self) -> (count: usize)
        requires
            self.wf(),
        ensures
            count == session_readers(self@),
    {
        let ghost names = self.streams.names();
        let ghost streams = self@.streams;
        proof {
            self.streams.lemma_names();
            collections::lemma_sorted(names, streams.dom());
        }
        let mut count: usize = 0;
        let mut i: usize = 0;
        while i < self.streams.len()
            invariant
                i <= names.len(),
                self.wf(),
                names == self.streams.names(),
                streams == self@.streams,
                count == unjoined(names, streams, i as int),
                count <= i,
            decreases names.len() - i,
        {
            let stream = self.streams.value_at(i);
            assert(streams[names[i as int]] == stream@);
            if !stream.joined {
                count += 1;
            }
            i += 1;
        }
        count
    }
}

/// How a registry is described: how much it holds, not what.
pub open spec fn registry_description(registry: RegistryModel) -> Seq<char> {
    "McpStreamableHttpSessionRegistry { session_count: "@ + text::decimal(
        registry.sessions.dom().len(),
    ) + ", dangling_reader_count: "@ + text::decimal(
        capped(reader_count(registry.sessions)) as nat,
    ) + ", admission_closed: "@ + http_session::bool_text(registry.admission_closed)
        + ", draining: "@ + http_session::bool_text(registry.draining) + ", .. }"@
}

impl Default for McpStreamableHttpSessionRegistry {
    fn default() -> (registry: McpStreamableHttpSessionRegistry)
        ensures
            registry.wf(),
            registry@ == (RegistryModel {
                sessions: Map::empty(),
                next_session_id: 1,
                admission_closed: false,
                draining: false,
            }),
    {
        McpStreamableHttpSessionRegistry::new()
    }
}

impl McpStreamableHttpSessionRegistry {
    /// The sessions are valid, and their identifiers are those handed out.
    pub closed spec fn wf(&self) -> bool {
        &&& self.sessions.wf()
        &&& forall|n: Seq<char>| #[trigger]
            self.sessions@.dom().contains(n) ==> self.sessions@[n].wf()
        &&& forall|n: Seq<char>| #[trigger]
            self.sessions@.dom().contains(n) ==> exists|k: u64|
                k < self.next_session_id && n == #[trigger] registry_id(k)
    }

    proof fn lemma_count(&self)
        requires
            self.wf(),
        ensures
            self@.sessions.dom().finite(),
            self@.sessions.dom().len() <= usize::MAX,
    {
        self.sessions.lemma_len();
        assert(self@.sessions.dom() =~= self.sessions@.dom());
    }

    pub fn new() -> (registry: McpStreamableHttpSessionRegistry)
        ensures
            registry.wf(),
            registry@ == (RegistryModel {
                sessions: Map::empty(),
                next_session_id: 1,
                admission_closed: false,
                draining: false,
            }),
    {
        let registry = McpStreamableHttpSessionRegistry {
            sessions: NameMap::new(),
            next_session_id: 1,
            admission_closed: false,
            draining: false,
        };
        assert(registry@.sessions =~= Map::<Seq<char>, HttpEntry>::empty());
        registry
    }

    /// Accept no more sessions. This cannot be taken back.
    pub fn close_admission(&mut self)
        requires
            old(self).wf(),
        ensures
            final(self).wf(),
            final(self)@ == (RegistryModel { admission_closed: true, ..old(self)@ }),
    {
        self.admission_closed = true;
    }

    pub fn admission_is_closed(&self) -> (closed: bool)
        ensures
            closed == self@.admission_closed,
    {
        self.admission_closed
    }

    /// Whether the session is registered.
    pub fn contains_session(&self, session_id: &str) -> (found: bool)
        requires
            self.wf(),
        ensures
            found == self@.sessions.dom().contains(session_id@),
    {
        self.sessions.contains(session_id)
    }

    /// How many sessions are registered.
    pub fn dangling_session_count(&self) -> (count: usize)
        requires
            self.wf(),
        ensures
            count == self@.sessions.dom().len(),
            self@.sessions.dom().finite(),
    {
        assert(self@.sessions.dom() =~= self.sessions@.dom());
        self.sessions.len()
    }

    /// A description of the registry: how much it holds, not what.
    pub fn describe(&self) -> (text: String)
        requires
            self.wf(),
        ensures
            text@ == registry_description(self@),
    {
        let mut text = String::new();
        text.append("McpStreamableHttpSessionRegistry { session_count: ");
        text.append(decimal_usize(self.dangling_session_count()).as_str());
        text.append(", dangling_reader_count: ");
        text.append(decimal_usize(self.dangling_reader_count()).as_str());
        text.append(", admission_closed: ");
        text.append(bool_str(self.admission_closed));
        text.append(", draining: ");
        text.append(bool_str(self.draining));
        text.append(", .. }");
        assert(text@ =~= registry_description(self@));
        text
    }

    /// How many readers were not joined.
    pub fn dangling_reader_count(&self) -> (count: usize)
        requires
            self.wf(),
        ensures
            count == capped(reader_count(self@.sessions)),
    {
        let ghost names = self.sessions.names();
        let ghost sessions = self@.sessions;
        proof {
            self.sessions.lemma_names();
            collections::lemma_sorted(names, sessions.dom());
        }
        let mut count: usize = 0;
        let mut i: usize = 0;
        while i < self.sessions.len()
            invariant
                i <= names.len(),
                self.wf(),
                names == self.sessions.names(),
                sessions == self@.sessions,
                count == capped(readers_of(names, sessions, i as int)),
            decreases names.len() - i,
        {
            let entry = self.sessions.value_at(i);
            assert(sessions[names[i as int]] == entry@);
            let readers: usize = entry.reader_count();
            count = if readers > usize::MAX - count {
                usize::MAX
            } else {
                count + readers
            };
            i += 1;
        }
        count
    }

    /// How many sessions wait for cleanup.
    pub fn cleanup_pending_session_count(&self) -> (count: usize)
        requires
            self.wf(),
        ensures
            count == pending_count(self@.sessions),
    {
        let ghost names = self.sessions.names();
        let ghost sessions = self@.sessions;
        proof {
            self.sessions.lemma_names();
            collections::lemma_sorted(names, sessions.dom());
        }
        let mut count: usize = 0;
        let mut i: usize = 0;
        while i < self.sessions.len()
            invariant
                i <= names.len(),
                self.wf(),
                names == self.sessions.names(),
                sessions == self@.sessions,
                count == pending_of(names, sessions, i as int),
                count <= i,
            decreases names.len() - i,
        {
            let entry = self.sessions.value_at(i);
            assert(sessions[names[i as int]] == entry@);
            if entry.state == ManagedHttpSessionState::CleanupPending {
                count += 1;
            }
            i += 1;
        }
        count
    }
}

// ---------------------------------------------------------------------------
// Registration and calls
// ---------------------------------------------------------------------------

pub open spec fn admission_closed_model() -> ErrorModel {
    ErrorModel::new(
        ErrorKind::Conflict,
        "MCP Streamable HTTP registry admission is closed"@,
    ).code("mcp_http_registry_admission_closed"@)
}

pub open spec fn not_pristine_model() -> ErrorModel {
    ErrorModel::new(
        ErrorKind::Conflict,
        "MCP Streamable HTTP starting session must be pristine"@,
    ).code("mcp_http_registry_session_not_pristine"@)
}

pub open spec fn ids_exhausted_model() -> ErrorModel {
    ErrorModel::new(
        ErrorKind::Conflict,
        "MCP Streamable HTTP registry ID space is exhausted"@,
    ).code("mcp_http_registry_id_exhausted"@)
}

pub open spec fn session_not_found_model() -> ErrorModel {
    ErrorModel::new(
        ErrorKind::NotFound,
        "MCP Streamable HTTP session is not registered"@,
    ).code("mcp_http_registry_session_not_found"@)
}

pub open spec fn stream_not_found_model() -> ErrorModel {
    ErrorModel::new(
        ErrorKind::NotFound,
        "MCP Streamable HTTP stream is not registered"@,
    ).code("mcp_http_registry_stream_not_found"@)
}

pub open spec fn fenced_model() -> ErrorModel {
    ErrorModel::new(
        ErrorKind::Conflict,
        "MCP Streamable HTTP session is fenced for cleanup"@,
    ).code("mcp_http_registry_cleanup_pending"@)
}

pub open spec fn draining_model() -> ErrorModel {
    ErrorModel::new(ErrorKind::Conflict, "MCP Streamable HTTP registry is draining"@).code(
        "mcp_http_registry_draining"@,
    )
}

pub open spec fn stream_exists_model(session_id: Seq<char>, stream_id: Seq<char>) -> ErrorModel {
    ErrorModel::new(ErrorKind::Conflict, "MCP Streamable HTTP stream already exists"@).code(
        "mcp_http_registry_stream_exists"@,
    ).ctx("session_id"@, session_id).ctx("stream_id"@, stream_id)
}

fn session_not_found() -> (error: EvaError)
    ensures
        error@ == session_not_found_model(),
{
    EvaError::not_found("MCP Streamable HTTP session is not registered").with_provider_code(
        "mcp_http_registry_session_not_found",
    )
}

fn stream_not_found() -> (error: EvaError)
    ensures
        error@ == stream_not_found_model(),
{
    EvaError::not_found("MCP Streamable HTTP stream is not registered").with_provider_code(
        "mcp_http_registry_stream_not_found",
    )
}

fn fenced() -> (error: EvaError)
    ensures
        error@ == fenced_model(),
{
    EvaError::conflict("MCP Streamable HTTP session is fenced for cleanup").with_provider_code(
        "mcp_http_registry_cleanup_pending",
    )
}

/// The registry after a session was registered.
pub open spec fn registered(
    registry: RegistryModel,
    adapter: Seq<char>,
    state: ManagedHttpSessionState,
) -> RegistryModel {
    RegistryModel {
        sessions: registry.sessions.insert(
            registry_id(registry.next_session_id),
            HttpEntry { adapter, state, streams: Map::empty() },
        ),
        next_session_id: (registry.next_session_id + 1) as u64,
        ..registry
    }
}

/// What the registration of a session is reported as.
pub open spec fn registration_report(
    registry: RegistryModel,
    adapter: Seq<char>,
    state: ManagedHttpSessionState,
) -> LifecycleModel {
    let audit = seq![
        "transport:mcp_streamable_http"@,
        "mcp.http_registry:session_registered"@,
        "mcp.http_registry:opaque_session_redacted"@,
    ];
    LifecycleModel {
        adapter,
        session_id: registry_id(registry.next_session_id),
        status: if state == ManagedHttpSessionState::Active {
            McpSessionLifecycleStatus::Running
        } else {
            McpSessionLifecycleStatus::Orphaned
        },
        process_id: None,
        audit: if state == ManagedHttpSessionState::CleanupPending {
            audit.push("mcp.http_registry:session_requires_cleanup"@)
        } else {
            audit
        },
    }
}

/// The state of a session when it is registered: one that is not ready is only
/// kept to be cleaned up.
pub open spec fn entry_state(ready: bool) -> ManagedHttpSessionState {
    if ready {
        ManagedHttpSessionState::Active
    } else {
        ManagedHttpSessionState::CleanupPending
    }
}

/// Whether a registration went as it should.
pub open spec fn registration_went(
    before: RegistryModel,
    after: RegistryModel,
    adapter: Seq<char>,
    state: ManagedHttpSessionState,
    refusal: Option<ErrorModel>,
    outcome: Result<McpSessionLifecycleReport, EvaError>,
) -> bool {
    match outcome {
        Ok(report) => {
            &&& refusal is None
            &&& before.next_session_id < u64::MAX
            &&& !before.sessions.dom().contains(registry_id(before.next_session_id))
            &&& after == registered(before, adapter, state)
            &&& report@ == registration_report(before, adapter, state)
        },
        Err(error) => {
            &&& after == before
            &&& match refusal {
                Some(model) => error@ == model,
                None => before.next_session_id == u64::MAX && error@ == ids_exhausted_model(),
            }
        },
    }
}

/// Why a new session is not accepted, if it is not.
pub open spec fn starting_refusal(registry: RegistryModel, pristine: bool) -> Option<ErrorModel> {
    if registry.admission_closed {
        Some(admission_closed_model())
    } else if !pristine {
        Some(not_pristine_model())
    } else {
        None
    }
}

/// Why a session is not accepted, if it is not.
pub open spec fn session_refusal(registry: RegistryModel) -> Option<ErrorModel> {
    if registry.admission_closed {
        Some(admission_closed_model())
    } else {
        None
    }
}

/// Why a session is not called, if it is not.
pub open spec fn call_refusal(registry: RegistryModel, session_id: Seq<char>) -> Option<ErrorModel> {
    if registry.draining {
        Some(draining_model())
    } else {
        active_refusal(registry, session_id)
    }
}

/// Why a session cannot be used, if it cannot.
pub open spec fn active_refusal(registry: RegistryModel, session_id: Seq<char>) -> Option<ErrorModel> {
    if !registry.sessions.dom().contains(session_id) {
        Some(session_not_found_model())
    } else if registry.sessions[session_id].state == ManagedHttpSessionState::CleanupPending {
        Some(fenced_model())
    } else {
        None
    }
}

/// Why a stream is not opened, if it is not.
pub open spec fn open_refusal(registry: RegistryModel, session_id: Seq<char>, stream_id: Seq<char>) -> Option<
    ErrorModel,
> {
    if !lifecycle::is_stable(stream_id) {
        Some(lifecycle::unstable_stream_id(stream_id))
    } else if active_refusal(registry, session_id) is Some {
        active_refusal(registry, session_id)
    } else if registry.sessions[session_id].streams.dom().contains(stream_id) {
        Some(stream_exists_model(session_id, stream_id))
    } else {
        None
    }
}

/// Why nothing is taken from a stream, if nothing is.
pub open spec fn take_refusal(registry: RegistryModel, session_id: Seq<char>, stream_id: Seq<char>) -> Option<
    ErrorModel,
> {
    if active_refusal(registry, session_id) is Some {
        active_refusal(registry, session_id)
    } else if !registry.sessions[session_id].streams.dom().contains(stream_id) {
        Some(stream_not_found_model())
    } else {
        None
    }
}

/// The registry with another entry for a session.
pub open spec fn with_entry(registry: RegistryModel, session_id: Seq<char>, entry: HttpEntry) -> RegistryModel {
    RegistryModel { sessions: registry.sessions.insert(session_id, entry), ..registry }
}

/// A session that is fenced off until it is cleaned up.
pub open spec fn fence(entry: HttpEntry) -> HttpEntry {
    HttpEntry { state: ManagedHttpSessionState::CleanupPending, ..entry }
}

/// What the change of a stream is reported as.
pub open spec fn stream_report(
    adapter: Seq<char>,
    session_id: Seq<char>,
    stream_id: Seq<char>,
    status: McpStreamStatus,
    audit: Seq<Seq<char>>,
) -> StreamModel {
    StreamModel {
        adapter,
        session_id,
        stream_id,
        status,
        audit: seq!["transport:mcp_streamable_http"@] + audit,
    }
}

fn http_stream_report(
    adapter_id: &AdapterId,
    session_id: &str,
    stream_id: &str,
    status: McpStreamStatus,
    audit: Vec<String>,
) -> (report: McpStreamReport)
    ensures
        report@ == stream_report(
            adapter_id@,
            session_id@,
            stream_id@,
            status,
            text::texts(audit@),
        ),
{
    let ghost noted = text::texts(audit@);
    let mut all: Vec<String> = vec!["transport:mcp_streamable_http".to_owned()];
    let mut more = audit;
    all.append(&mut more);
    assert(text::texts(all@) =~= seq!["transport:mcp_streamable_http"@] + noted);
    McpStreamReport {
        adapter_id: adapter_id.copy(),
        session_id: session_id.to_owned(),
        stream_id: stream_id.to_owned(),
        status,
        audit: all,
    }
}

proof fn lemma_ids_differ(a: u64, b: u64)
    requires
        registry_id(a) == registry_id(b),
    ensures
        a == b,
{
    let prefix = "mcp-http-session-"@;
    let x = text::decimal(a as nat);
    let y = text::decimal(b as nat);
    assert(x =~= registry_id(a).skip(prefix.len() as int));
    assert(y =~= registry_id(b).skip(prefix.len() as int));
    text::law_decimal_reads_back(a);
    text::law_decimal_reads_back(b);
}

impl McpStreamableHttpSessionRegistry {
    /// Put back an entry for a session that is registered.
    fn put_back(&mut self, session_id: &str, entry: RegisteredHttpSession)
        requires
            old(self).sessions.wf(),
            entry.wf(),
            forall|n: Seq<char>| #[trigger]
                old(self).sessions@.dom().contains(n) ==> old(self).sessions@[n].wf(),
            forall|n: Seq<char>| #[trigger]
                old(self).sessions@.dom().contains(n) ==> exists|k: u64|
                    k < old(self).next_session_id && n == #[trigger] registry_id(k),
            exists|k: u64| k < old(self).next_session_id && session_id@ == #[trigger] registry_id(k),
        ensures
            final(self).wf(),
            final(self)@ == with_entry(old(self)@, session_id@, entry@),
    {
        let ghost model = entry@;
        self.sessions.insert(session_id.to_owned(), entry);
        assert(self@.sessions =~= old(self)@.sessions.insert(session_id@, model));
    }

    fn insert_http_session(&mut self, adapter_id: AdapterId, state: ManagedHttpSessionState) -> (outcome:
        Result<McpSessionLifecycleReport, EvaError>)
        requires
            old(self).wf(),
        ensures
            final(self).wf(),
            registration_went(old(self)@, final(self)@, adapter_id@, state, None, outcome),
    {
        if self.next_session_id == u64::MAX {
            return Err(
                EvaError::conflict(
                    "MCP Streamable HTTP registry ID space is exhausted",
                ).with_provider_code("mcp_http_registry_id_exhausted"),
            );
        }
        let number: u64 = self.next_session_id;
        let mut session_id = String::new();
        session_id.append("mcp-http-session-");
        session_id.append(decimal_u64(number).as_str());
        assert(session_id@ =~= registry_id(number));
        proof {
            if self.sessions@.dom().contains(session_id@) {
                let k = choose|k: u64|
                    k < self.next_session_id && session_id@ == #[trigger] registry_id(k);
                lemma_ids_differ(k, number);
            }
        }
        let entry = RegisteredHttpSession {
            adapter_id: adapter_id.copy(),
            state,
            streams: NameMap::new(),
        };
        assert(entry@.streams =~= Map::<Seq<char>, StreamEntry>::empty());
        let ghost model = entry@;
        let ghost before = *self;
        self.next_session_id = number + 1;
        self.sessions.insert(session_id.as_str().to_owned(), entry);
        proof {
            assert(self@.sessions =~= before@.sessions.insert(session_id@, model));
            assert forall|n: Seq<char>| #[trigger] self.sessions@.dom().contains(n) implies exists|
                k: u64,
            | k < self.next_session_id && n == #[trigger] registry_id(k) by {
                if n == session_id@ {
                    assert(n == registry_id(number));
                } else {
                    assert(before.sessions@.dom().contains(n));
                    let k = choose|k: u64|
                        k < before.next_session_id && n == #[trigger] registry_id(k);
                    assert(n == registry_id(k));
                }
            }
        }
        let mut audit: Vec<String> = vec![
            "transport:mcp_streamable_http".to_owned(),
            "mcp.http_registry:session_registered".to_owned(),
            "mcp.http_registry:opaque_session_redacted".to_owned(),
        ];
        if state == ManagedHttpSessionState::CleanupPending {
            audit.push("mcp.http_registry:session_requires_cleanup".to_owned());
        }
        let status = if state == ManagedHttpSessionState::Active {
            McpSessionLifecycleStatus::Running
        } else {
            McpSessionLifecycleStatus::Orphaned
        };
        let report = McpSessionLifecycleReport {
            adapter_id,
            session_id,
            status,
            process_id: None,
            audit,
        };
        assert(report@.audit =~= registration_report(before@, adapter_id@, state).audit);
        Ok(report)
    }

    /// Register a session before it sends anything.
    pub fn register_starting_session(&mut self, adapter_id: AdapterId, pristine: bool) -> (outcome:
        Result<McpSessionLifecycleReport, EvaError>)
        requires
            old(self).wf(),
        ensures
            final(self).wf(),
            registration_went(
                old(self)@,
                final(self)@,
                adapter_id@,
                ManagedHttpSessionState::Active,
                starting_refusal(old(self)@, pristine),
                outcome,
            ),
    {
        if self.admission_closed {
            return Err(
                EvaError::conflict(
                    "MCP Streamable HTTP registry admission is closed",
                ).with_provider_code("mcp_http_registry_admission_closed"),
            );
        }
        if !pristine {
            return Err(
                EvaError::conflict(
                    "MCP Streamable HTTP starting session must be pristine",
                ).with_provider_code("mcp_http_registry_session_not_pristine"),
            );
        }
        self.insert_http_session(adapter_id, ManagedHttpSessionState::Active)
    }

    /// Register a session. One that is not ready is kept to be cleaned up.
    pub fn register_session(&mut self, adapter_id: AdapterId, ready: bool) -> (outcome: Result<
        McpSessionLifecycleReport,
        EvaError,
    >)
        requires
            old(self).wf(),
        ensures
            final(self).wf(),
            registration_went(
                old(self)@,
                final(self)@,
                adapter_id@,
                entry_state(ready),
                session_refusal(old(self)@),
                outcome,
            ),
    {
        if self.admission_closed {
            return Err(
                EvaError::conflict(
                    "MCP Streamable HTTP registry admission is closed",
                ).with_provider_code("mcp_http_registry_admission_closed"),
            );
        }
        self.insert_http_session(
            adapter_id,
            if ready {
                ManagedHttpSessionState::Active
            } else {
                ManagedHttpSessionState::CleanupPending
            },
        )
    }

    fn require_active(&self, session_id: &str) -> (outcome: Result<(), EvaError>)
        requires
            self.wf(),
        ensures
            crate::http_reply::refused_as(outcome, active_refusal(self@, session_id@)),
    {
        match self.sessions.get(session_id) {
            None => Err(session_not_found()),
            Some(entry) => if entry.state == ManagedHttpSessionState::CleanupPending {
                Err(fenced())
            } else {
                Ok(())
            },
        }
    }

    /// Refuse a call while the registry drains or the session is fenced off.
    pub fn begin_call(&self, session_id: &str) -> (outcome: Result<(), EvaError>)
        requires
            self.wf(),
        ensures
            crate::http_reply::refused_as(outcome, call_refusal(self@, session_id@)),
    {
        if self.draining {
            return Err(
                EvaError::conflict("MCP Streamable HTTP registry is draining").with_provider_code(
                    "mcp_http_registry_draining",
                ),
            );
        }
        self.require_active(session_id)
    }

    /// Take in how a call went. A session whose call has failed after it sent
    /// anything is fenced off.
    pub fn finish_call(&mut self, session_id: &str, failed: bool, pristine: bool)
        requires
            old(self).wf(),
        ensures
            final(self).wf(),
            final(self)@ == if failed && !pristine && old(self)@.sessions.dom().contains(
                session_id@,
            ) {
                with_entry(old(self)@, session_id@, fence(old(self)@.sessions[session_id@]))
            } else {
                old(self)@
            },
    {
        if failed && !pristine {
            match self.sessions.remove(session_id) {
                Some(entry) => {
                    let mut entry = entry;
                    entry.state = ManagedHttpSessionState::CleanupPending;
                    self.put_back(session_id, entry);
                    assert(self@.sessions =~= old(self)@.sessions.insert(
                        session_id@,
                        fence(old(self)@.sessions[session_id@]),
                    ));
                },
                None => {},
            }
        }
    }

    /// Refuse a stream that cannot be opened.
    pub fn begin_stream(&self, session_id: &str, stream_id: &str) -> (outcome: Result<(), EvaError>)
        requires
            self.wf(),
        ensures
            crate::http_reply::refused_as(outcome, open_refusal(self@, session_id@, stream_id@)),
    {
        match validate_stream_id(stream_id) {
            Ok(()) => {},
            Err(error) => return Err(error),
        }
        match self.require_active(session_id) {
            Ok(()) => {},
            Err(error) => return Err(error),
        }
        match self.sessions.get(session_id) {
            None => Err(session_not_found()),
            Some(entry) => {
                assert(entry@.streams.dom() =~= entry.streams@.dom());
                if entry.streams.contains(stream_id) {
                    Err(
                        EvaError::conflict(
                            "MCP Streamable HTTP stream already exists",
                        ).with_provider_code("mcp_http_registry_stream_exists").with_context(
                            "session_id",
                            session_id,
                        ).with_context("stream_id", stream_id),
                    )
                } else {
                    Ok(())
                }
            },
        }
    }

    /// Register the reader of a stream that was opened.
    pub fn stream_opened(&mut self, session_id: &str, stream_id: &str) -> (outcome: Result<
        McpStreamReport,
        EvaError,
    >)
        requires
            old(self).wf(),
        ensures
            final(self).wf(),
            match outcome {
                Ok(report) => {
                    let entry = old(self)@.sessions[session_id@];
                    &&& open_refusal(old(self)@, session_id@, stream_id@) is None
                    &&& final(self)@ == with_entry(
                        old(self)@,
                        session_id@,
                        (HttpEntry {
                            streams: entry.streams.insert(stream_id@, fresh_stream()),
                            ..entry
                        }),
                    )
                    &&& report@ == stream_report(
                        entry.adapter,
                        session_id@,
                        stream_id@,
                        McpStreamStatus::Running,
                        seq![
                            "mcp.stream:reader_owned_by_registry"@,
                            "mcp.stream:socket_abort_handle_registered"@,
                        ],
                    )
                },
                Err(error) => final(self)@ == old(self)@ && open_refusal(
                    old(self)@,
                    session_id@,
                    stream_id@,
                ) == Some(error@),
            },
    {
        match self.begin_stream(session_id, stream_id) {
            Ok(()) => {},
            Err(error) => return Err(error),
        }
        match self.sessions.remove(session_id) {
            None => Err(session_not_found()),
            Some(entry) => {
                let ghost was = entry@;
                let mut entry = entry;
                let stream = RegisteredHttpStream {
                    state: ManagedHttpStreamState::Running,
                    joined: false,
                    last_exit: None,
                };
                let ghost fresh = stream@;
                assert(fresh == fresh_stream());
                entry.streams.insert(stream_id.to_owned(), stream);
                assert(entry@.streams =~= was.streams.insert(stream_id@, fresh_stream()));
                let audit = vec![
                    "mcp.stream:reader_owned_by_registry".to_owned(),
                    "mcp.stream:socket_abort_handle_registered".to_owned(),
                ];
                assert(text::texts(audit@) =~= seq![
                    "mcp.stream:reader_owned_by_registry"@,
                    "mcp.stream:socket_abort_handle_registered"@,
                ]);
                let report = http_stream_report(
                    &entry.adapter_id,
                    session_id,
                    stream_id,
                    McpStreamStatus::Running,
                    audit,
                );
                let ghost model = entry@;
                self.put_back(session_id, entry);
                assert(self@.sessions =~= old(self)@.sessions.insert(session_id@, model));
                Ok(report)
            },
        }
    }

    /// Refuse to take an item from a stream that is not there to be read.
    pub fn begin_take(&self, session_id: &str, stream_id: &str) -> (outcome: Result<(), EvaError>)
        requires
            self.wf(),
        ensures
            crate::http_reply::refused_as(outcome, take_refusal(self@, session_id@, stream_id@)),
    {
        match self.require_active(session_id) {
            Ok(()) => {},
            Err(error) => return Err(error),
        }
        match self.sessions.get(session_id) {
            None => Err(session_not_found()),
            Some(entry) => {
                assert(entry@.streams.dom() =~= entry.streams@.dom());
                if entry.streams.contains(stream_id) {
                    Ok(())
                } else {
                    Err(stream_not_found())
                }
            },
        }
    }

    /// Report that the reader of a stream has stopped. Once the reader was joined
    /// the stream is gone.
    pub fn reader_ended(&mut self, session_id: &str, stream_id: &str, outcome: ReaderOutcome) -> (error:
        EvaError)
        requires
            old(self).wf(),
        ensures
            final(self).wf(),
            match take_refusal(old(self)@, session_id@, stream_id@) {
                Some(refusal) => error@ == refusal && final(self)@ == old(self)@,
                None => {
                    let entry = old(self)@.sessions[session_id@];
                    let (stream, joined) = after_wait(entry.streams[stream_id@], outcome@);
                    match joined {
                        Err(model) => error@ == model && final(self)@ == with_entry(
                            old(self)@,
                            session_id@,
                            (HttpEntry {
                                streams: entry.streams.insert(stream_id@, stream),
                                ..entry
                            }),
                        ),
                        Ok(name) => error@ == terminal_model(stream.last_exit, name) && final(self)@
                            == with_entry(
                            old(self)@,
                            session_id@,
                            (HttpEntry { streams: entry.streams.remove(stream_id@), ..entry }),
                        ),
                    }
                },
            },
    {
        match self.begin_take(session_id, stream_id) {
            Ok(()) => {},
            Err(error) => return error,
        }
        match self.sessions.remove(session_id) {
            None => session_not_found(),
            Some(entry) => {
                let ghost was = entry@;
                let mut entry = entry;
                let error = match entry.streams.remove(stream_id) {
                    None => stream_not_found(),
                    Some(stream) => {
                        let mut stream = stream;
                        match wait_and_join_reader(&mut stream, outcome) {
                            Ok(name) => {
                                assert(entry@.streams =~= was.streams.remove(stream_id@));
                                managed_reader_terminal_error(&stream.last_exit, name)
                            },
                            Err(error) => {
                                let ghost model = stream@;
                                entry.streams.insert(stream_id.to_owned(), stream);
                                assert(entry@.streams =~= was.streams.insert(stream_id@, model));
                                error
                            },
                        }
                    },
                };
                let ghost model = entry@;
                self.put_back(session_id, entry);
                assert(self@.sessions =~= old(self)@.sessions.insert(session_id@, model));
                error
            },
        }
    }
}

// ---------------------------------------------------------------------------
// Aborting a stream
// ---------------------------------------------------------------------------

/// What is left after a stream was aborted.
#[verifier::ext_equal]
pub struct ReceiptModel {
    pub socket_closed: bool,
    pub session_deleted: bool,
    pub reader_joined: bool,
    pub sessions_after: usize,
    pub readers_after: usize,
    pub cleanup_pending_after: usize,
}

impl ReceiptModel {
    /// Whether everything was cleaned up and nothing is left.
    pub open spec fn complete(self) -> bool {
        self.socket_closed && self.session_deleted && self.reader_joined && self.sessions_after == 0
            && self.readers_after == 0 && self.cleanup_pending_after == 0
    }
}

/// What is left after a stream was aborted. Only an abort makes one.
#[derive(Debug, Clone, PartialEq, Eq)]
pub struct McpHttpAbortReceipt {
    socket_closed: bool,
    session_deleted: bool,
    reader_joined: bool,
    sessions_after: usize,
    readers_after: usize,
    cleanup_pending_after: usize,
}

impl View for McpHttpAbortReceipt {
    type V = ReceiptModel;

    closed spec fn view(&self) -> ReceiptModel {
        ReceiptModel {
            socket_closed: self.socket_closed,
            session_deleted: self.session_deleted,
            reader_joined: self.reader_joined,
            sessions_after: self.sessions_after,
            readers_after: self.readers_after,
            cleanup_pending_after: self.cleanup_pending_after,
        }
    }
}

impl McpHttpAbortReceipt {
    /// Whether the socket of the reader was closed.
    pub fn socket_closed(&self) -> (closed: bool)
        ensures
            closed == self@.socket_closed,
    {
        self.socket_closed
    }

    /// Whether the session was deleted with its last stream.
    pub fn session_deleted(&self) -> (deleted: bool)
        ensures
            deleted == self@.session_deleted,
    {
        self.session_deleted
    }

    /// Whether the reader was joined.
    pub fn reader_joined(&self) -> (joined: bool)
        ensures
            joined == self@.reader_joined,
    {
        self.reader_joined
    }

    /// How many sessions are left.
    pub fn sessions_after(&self) -> (count: usize)
        ensures
            count == self@.sessions_after,
    {
        self.sessions_after
    }

    /// How many readers are left.
    pub fn readers_after(&self) -> (count: usize)
        ensures
            count == self@.readers_after,
    {
        self.readers_after
    }

    /// How many sessions are left to be cleaned up.
    pub fn cleanup_pending_after(&self) -> (count: usize)
        ensures
            count == self@.cleanup_pending_after,
    {
        self.cleanup_pending_after
    }

    /// Whether everything was cleaned up and nothing is left.
    pub fn complete(&self) -> (complete: bool)
        ensures
            complete == self@.complete(),
    {
        self.socket_closed && self.session_deleted && self.reader_joined && self.sessions_after == 0
            && self.readers_after == 0 && self.cleanup_pending_after == 0
    }
}

/// A stream that is being aborted.
#[verifier::ext_equal]
pub struct AbortModel {
    pub adapter: Seq<char>,
    pub session_id: Seq<char>,
    pub stream_id: Seq<char>,
    /// Whether the stream is the last one of its session, so that the session
    /// ends with it.
    pub final_stream: bool,
}

/// A stream that is being aborted.
#[derive(Debug)]
pub struct AbortTransaction {
    adapter_id: AdapterId,
    session_id: String,
    stream_id: String,
    final_stream: bool,
}

impl View for AbortTransaction {
    type V = AbortModel;

    closed spec fn view(&self) -> AbortModel {
        AbortModel {
            adapter: self.adapter_id@,
            session_id: self.session_id@,
            stream_id: self.stream_id@,
            final_stream: self.final_stream,
        }
    }
}

/// A stream whose reader is told to stop.
pub open spec fn cancelling(stream: StreamEntry) -> StreamEntry {
    StreamEntry { state: ManagedHttpStreamState::Cancelling, ..stream }
}

/// The session of a stream that is being aborted.
pub open spec fn aborting_entry(entry: HttpEntry, stream_id: Seq<char>) -> HttpEntry {
    HttpEntry {
        adapter: entry.adapter,
        state: if entry.streams.dom().len() == 1 {
            ManagedHttpSessionState::CleanupPending
        } else {
            entry.state
        },
        streams: entry.streams.insert(stream_id, cancelling(entry.streams[stream_id])),
    }
}

/// Why a stream is not aborted, if it is not.
pub open spec fn abort_refusal(registry: RegistryModel, session_id: Seq<char>, stream_id: Seq<char>) -> Option<
    ErrorModel,
> {
    if !registry.sessions.dom().contains(session_id) {
        Some(session_not_found_model())
    } else if !registry.sessions[session_id].streams.dom().contains(stream_id) {
        Some(stream_not_found_model())
    } else {
        None
    }
}

/// What an abort reports whose socket could not be closed.
pub open spec fn socket_failed_model(error: ErrorModel, final_stream: bool) -> ErrorModel {
    error.ctx("socket_closed"@, "false"@).ctx(
        "session_delete_outcome"@,
        if final_stream {
            "not_attempted"@
        } else {
            "not_required"@
        },
    ).ctx("reader_joined"@, "false"@).ctx("cleanup_pending"@, "true"@)
}

pub open spec fn stream_lost_model() -> ErrorModel {
    ErrorModel::new(
        ErrorKind::Internal,
        "MCP Streamable HTTP stream disappeared during abort"@,
    ).code("mcp_http_registry_stream_lost"@)
}

/// How the deletion of the session went.
pub open spec fn delete_outcome(final_stream: bool, deleted: Option<ErrorModel>) -> Seq<char> {
    if !final_stream {
        "not_required"@
    } else if deleted is None {
        "complete"@
    } else {
        "failed"@
    }
}

/// What an abort notes that went through.
pub open spec fn abort_audit(final_stream: bool, reader_exit: Seq<char>) -> Seq<Seq<char>> {
    let audit = seq![
        "mcp.stream:abort_requested"@,
        "mcp.stream:socket_shutdown"@,
        "mcp.stream:reader_joined:"@ + reader_exit,
    ];
    if final_stream {
        audit + seq![
            "mcp.http:session_delete_complete"@,
            "mcp.http_registry:session_removed"@,
            "mcp.http_registry:session_dangling_readers:0"@,
        ]
    } else {
        audit.push("mcp.http_registry:session_retained_for_other_streams"@)
    }
}

/// What is left in a registry after an abort that went through.
pub open spec fn receipt_of(registry: RegistryModel, final_stream: bool) -> ReceiptModel {
    ReceiptModel {
        socket_closed: true,
        session_deleted: final_stream,
        reader_joined: true,
        sessions_after: capped(registry.sessions.dom().len()),
        readers_after: capped(reader_count(registry.sessions)),
        cleanup_pending_after: capped(pending_count(registry.sessions)),
    }
}

/// The registry after an abort whose socket was closed, and what is reported: by
/// whether the deletion failed, where the session ends with the stream, and by
/// how the wait for the reader ended. A deletion that failed is reported before
/// a reader that did not stop.
pub open spec fn aborted(
    registry: RegistryModel,
    abort: AbortModel,
    deleted: Option<ErrorModel>,
    outcome: OutcomeModel,
) -> (RegistryModel, Result<(StreamModel, ReceiptModel), ErrorModel>) {
    if !registry.sessions.dom().contains(abort.session_id) {
        (registry, Err(session_not_found_model()))
    } else {
        let entry = registry.sessions[abort.session_id];
        if !entry.streams.dom().contains(abort.stream_id) {
            (registry, Err(stream_lost_model()))
        } else {
            let (stream, joined) = after_wait(entry.streams[abort.stream_id], outcome);
            let failure = if abort.final_stream && deleted is Some {
                deleted
            } else {
                match joined {
                    Err(error) => Some(error),
                    Ok(_) => None,
                }
            };
            match failure {
                Some(error) => (
                    with_entry(
                        registry,
                        abort.session_id,
                        HttpEntry {
                            streams: entry.streams.insert(abort.stream_id, stream),
                            ..entry
                        },
                    ),
                    Err(
                        error.ctx("socket_closed"@, "true"@).ctx(
                            "session_delete_outcome"@,
                            delete_outcome(abort.final_stream, deleted),
                        ).ctx(
                            "reader_joined"@,
                            http_session::bool_text(joined is Ok),
                        ).ctx("cleanup_pending"@, "true"@),
                    ),
                ),
                None => {
                    let after = if abort.final_stream {
                        RegistryModel {
                            sessions: registry.sessions.remove(abort.session_id),
                            ..registry
                        }
                    } else {
                        with_entry(
                            registry,
                            abort.session_id,
                            HttpEntry { streams: entry.streams.remove(abort.stream_id), ..entry },
                        )
                    };
                    (
                        after,
                        Ok(
                            (
                                stream_report(
                                    abort.adapter,
                                    abort.session_id,
                                    abort.stream_id,
                                    McpStreamStatus::Aborted,
                                    abort_audit(abort.final_stream, joined->Ok_0),
                                ),
                                receipt_of(after, abort.final_stream),
                            ),
                        ),
                    )
                },
            }
        }
    }
}

/// What an optional error says.
pub open spec fn error_model(error: Option<EvaError>) -> Option<ErrorModel> {
    match error {
        Some(error) => Some(error@),
        None => None,
    }
}

/// A stream that is being aborted and whose socket was closed. Only a socket that
/// was closed makes one.
#[derive(Debug)]
pub struct ClosedAbort {
    abort: AbortTransaction,
}

impl View for ClosedAbort {
    type V = AbortModel;

    closed spec fn view(&self) -> AbortModel {
        self.abort@
    }
}

impl AbortTransaction {
    /// Go on once the socket was closed. If it could not be, the abort ends here,
    /// and everything stays registered.
    pub fn socket_shutdown(self, closed: Result<(), EvaError>) -> (outcome: Result<
        ClosedAbort,
        EvaError,
    >)
        ensures
            match (closed, outcome) {
                (Ok(()), Ok(abort)) => abort@ == self@,
                (Err(error), Err(reported)) => reported@ == socket_failed_model(
                    error@,
                    self@.final_stream,
                ),
                _ => false,
            },
    {
        match closed {
            Ok(()) => Ok(ClosedAbort { abort: self }),
            Err(error) => Err(
                error.with_context("socket_closed", "false").with_context(
                    "session_delete_outcome",
                    if self.final_stream {
                        "not_attempted"
                    } else {
                        "not_required"
                    },
                ).with_context("reader_joined", "false").with_context("cleanup_pending", "true"),
            ),
        }
    }
}

impl ClosedAbort {
    /// Whether the session is to be deleted now.
    pub fn deletes_session(&self) -> (deletes: bool)
        ensures
            deletes == self@.final_stream,
    {
        self.abort.final_stream
    }
}

fn abort_notes(final_stream: bool, reader_exit: &str) -> (audit: Vec<String>)
    ensures
        text::texts(audit@) == abort_audit(final_stream, reader_exit@),
{
    let mut joined = String::new();
    joined.append("mcp.stream:reader_joined:");
    joined.append(reader_exit);
    assert(joined@ =~= "mcp.stream:reader_joined:"@ + reader_exit@);
    let mut audit: Vec<String> = vec![
        "mcp.stream:abort_requested".to_owned(),
        "mcp.stream:socket_shutdown".to_owned(),
        joined,
    ];
    if final_stream {
        audit.push("mcp.http:session_delete_complete".to_owned());
        audit.push("mcp.http_registry:session_removed".to_owned());
        audit.push("mcp.http_registry:session_dangling_readers:0".to_owned());
    } else {
        audit.push("mcp.http_registry:session_retained_for_other_streams".to_owned());
    }
    assert(text::texts(audit@) =~= abort_audit(final_stream, reader_exit@));
    audit
}

impl McpStreamableHttpSessionRegistry {
    /// Start to abort a stream: its reader is told to stop, and its session is
    /// fenced off if it ends with the stream.
    pub fn begin_abort(&mut self, session_id: &str, stream_id: &str) -> (outcome: Result<
        AbortTransaction,
        EvaError,
    >)
        requires
            old(self).wf(),
        ensures
            final(self).wf(),
            match outcome {
                Ok(abort) => {
                    let entry = old(self)@.sessions[session_id@];
                    &&& abort_refusal(old(self)@, session_id@, stream_id@) is None
                    &&& final(self)@ == with_entry(
                        old(self)@,
                        session_id@,
                        aborting_entry(entry, stream_id@),
                    )
                    &&& abort@ == (AbortModel {
                        adapter: entry.adapter,
                        session_id: session_id@,
                        stream_id: stream_id@,
                        final_stream: entry.streams.dom().len() == 1,
                    })
                },
                Err(error) => final(self)@ == old(self)@ && abort_refusal(
                    old(self)@,
                    session_id@,
                    stream_id@,
                ) == Some(error@),
            },
    {
        match self.sessions.get(session_id) {
            None => return Err(session_not_found()),
            Some(entry) => {
                assert(entry@.streams.dom() =~= entry.streams@.dom());
                if !entry.streams.contains(stream_id) {
                    return Err(stream_not_found());
                }
            },
        }
        match self.sessions.remove(session_id) {
            None => Err(session_not_found()),
            Some(entry) => {
                let ghost was = entry@;
                assert(was.streams.dom() =~= entry.streams@.dom());
                let mut entry = entry;
                let final_stream = entry.streams.len() == 1;
                if final_stream {
                    entry.state = ManagedHttpSessionState::CleanupPending;
                }
                match entry.streams.remove(stream_id) {
                    Some(stream) => {
                        let mut stream = stream;
                        stream.state = ManagedHttpStreamState::Cancelling;
                        entry.streams.insert(stream_id.to_owned(), stream);
                    },
                    None => {},
                }
                assert(entry@.streams =~= aborting_entry(was, stream_id@).streams);
                let abort = AbortTransaction {
                    adapter_id: entry.adapter_id.copy(),
                    session_id: session_id.to_owned(),
                    stream_id: stream_id.to_owned(),
                    final_stream,
                };
                let ghost model = entry@;
                self.put_back(session_id, entry);
                assert(self@.sessions =~= old(self)@.sessions.insert(session_id@, model));
                Ok(abort)
            },
        }
    }

    fn receipt(&self, final_stream: bool) -> (receipt: McpHttpAbortReceipt)
        requires
            self.wf(),
        ensures
            receipt@ == receipt_of(self@, final_stream),
    {
        McpHttpAbortReceipt {
            socket_closed: true,
            session_deleted: final_stream,
            reader_joined: true,
            sessions_after: self.dangling_session_count(),
            readers_after: self.dangling_reader_count(),
            cleanup_pending_after: self.cleanup_pending_session_count(),
        }
    }

    /// Finish to abort a stream whose socket was closed. With its last stream a
    /// session is removed, if its deletion and the join of the reader both went
    /// through; otherwise it stays, fenced off.
    pub fn abort_stream_with_receipt(
        &mut self,
        abort: ClosedAbort,
        deleted: Option<EvaError>,
        outcome: ReaderOutcome,
    ) -> (result: Result<(McpStreamReport, McpHttpAbortReceipt), EvaError>)
        requires
            old(self).wf(),
        ensures
            final(self).wf(),
            final(self)@ == aborted(old(self)@, abort@, error_model(deleted), outcome@).0,
            match result {
                Ok((report, receipt)) => aborted(
                    old(self)@,
                    abort@,
                    error_model(deleted),
                    outcome@,
                ).1 == Ok::<(StreamModel, ReceiptModel), ErrorModel>((report@, receipt@)),
                Err(error) => aborted(old(self)@, abort@, error_model(deleted), outcome@).1
                    == Err::<(StreamModel, ReceiptModel), ErrorModel>(error@),
            },
    {
        let abort = abort.abort;
        let session_id = abort.session_id.as_str();
        let stream_id = abort.stream_id.as_str();
        match self.sessions.get(session_id) {
            None => return Err(session_not_found()),
            Some(entry) => {
                assert(entry@.streams.dom() =~= entry.streams@.dom());
                if !entry.streams.contains(stream_id) {
                    return Err(
                        EvaError::internal(
                            "MCP Streamable HTTP stream disappeared during abort",
                        ).with_provider_code("mcp_http_registry_stream_lost"),
                    );
                }
            },
        }
        let entry = match self.sessions.remove(session_id) {
            Some(entry) => entry,
            None => return Err(session_not_found()),
        };
        let ghost was = entry@;
        let mut entry = entry;
        let stream = match entry.streams.remove(stream_id) {
            Some(stream) => stream,
            None => return Err(stream_not_found()),
        };
        let mut stream = stream;
        let joined = wait_and_join_reader(&mut stream, outcome);
        let outcome_text = if !abort.final_stream {
            "not_required"
        } else if deleted.is_none() {
            "complete"
        } else {
            "failed"
        };
        let joined_text = bool_str(joined.is_ok());
        let ghost fault = error_model(deleted);
        let ghost model = stream@;
        let delete_failed = abort.final_stream && deleted.is_some();
        let (failure, reader_exit) = match (deleted, joined) {
            (Some(error), joined) => if delete_failed {
                (Some(error), "not_joined")
            } else {
                match joined {
                    Ok(name) => (None, name),
                    Err(error) => (Some(error), "not_joined"),
                }
            },
            (None, Ok(name)) => (None, name),
            (None, Err(error)) => (Some(error), "not_joined"),
        };
        match failure {
            Some(error) => {
                entry.streams.insert(stream_id.to_owned(), stream);
                assert(entry@.streams =~= was.streams.insert(stream_id@, model));
                let ghost put = entry@;
                self.put_back(session_id, entry);
                assert(self@.sessions =~= old(self)@.sessions.insert(session_id@, put));
                Err(
                    error.with_context("socket_closed", "true").with_context(
                        "session_delete_outcome",
                        outcome_text,
                    ).with_context("reader_joined", joined_text).with_context(
                        "cleanup_pending",
                        "true",
                    ),
                )
            },
            None => {
                assert(entry@.streams =~= was.streams.remove(stream_id@));
                if abort.final_stream {
                    assert(self@.sessions =~= old(self)@.sessions.remove(session_id@));
                } else {
                    let ghost put = entry@;
                    self.put_back(session_id, entry);
                    assert(self@.sessions =~= old(self)@.sessions.insert(session_id@, put));
                }
                let report = http_stream_report(
                    &abort.adapter_id,
                    session_id,
                    stream_id,
                    McpStreamStatus::Aborted,
                    abort_notes(abort.final_stream, reader_exit),
                );
                let receipt = self.receipt(abort.final_stream);
                Ok((report, receipt))
            },
        }
    }
}

impl McpStreamableHttpSessionRegistry {
    /// Finish to abort a stream whose socket was closed, without a receipt.
    pub fn abort_stream(
        &mut self,
        abort: ClosedAbort,
        deleted: Option<EvaError>,
        outcome: ReaderOutcome,
    ) -> (result: Result<McpStreamReport, EvaError>)
        requires
            old(self).wf(),
        ensures
            final(self).wf(),
            final(self)@ == aborted(old(self)@, abort@, error_model(deleted), outcome@).0,
            match result {
                Ok(report) => aborted(old(self)@, abort@, error_model(deleted), outcome@).1 matches Ok(
                    told,
                ) && told.0 == report@,
                Err(error) => aborted(old(self)@, abort@, error_model(deleted), outcome@).1
                    == Err::<(StreamModel, ReceiptModel), ErrorModel>(error@),
            },
    {
        match self.abort_stream_with_receipt(abort, deleted, outcome) {
            Ok((report, _)) => Ok(report),
            Err(error) => Err(error),
        }
    }
}

// ---------------------------------------------------------------------------
// Shutting down a session
// ---------------------------------------------------------------------------

/// A session that is being shut down.
#[verifier::ext_equal]
pub struct ShutdownModel {
    pub adapter: Seq<char>,
    pub session_id: Seq<char>,
    pub stream_ids: Seq<Seq<char>>,
}

/// A session that is being shut down.
#[derive(Debug)]
pub struct ShutdownTransaction {
    adapter_id: AdapterId,
    session_id: String,
    stream_ids: Vec<String>,
}

impl View for ShutdownTransaction {
    type V = ShutdownModel;

    closed spec fn view(&self) -> ShutdownModel {
        ShutdownModel {
            adapter: self.adapter_id@,
            session_id: self.session_id@,
            stream_ids: text::texts(self.stream_ids@),
        }
    }
}

/// A session that is being shut down and all of whose sockets were closed. Only
/// sockets that were closed make one.
#[derive(Debug)]
pub struct ClosedShutdown {
    shutdown: ShutdownTransaction,
}

impl View for ClosedShutdown {
    type V = ShutdownModel;

    closed spec fn view(&self) -> ShutdownModel {
        self.shutdown@
    }
}

impl ClosedShutdown {
    /// What is being shut down.
    pub fn transaction(&self) -> (shutdown: &ShutdownTransaction)
        ensures
            shutdown@ == self@,
    {
        &self.shutdown
    }
}

/// A session that is being shut down: all its readers are told to stop.
pub open spec fn closing_entry(entry: HttpEntry) -> HttpEntry {
    HttpEntry {
        adapter: entry.adapter,
        state: ManagedHttpSessionState::CleanupPending,
        streams: entry.streams.map_values(|s: StreamEntry| cancelling(s)),
    }
}

/// The first of the errors, if there is one.
pub open spec fn first_error(errors: Seq<Option<EvaError>>, at: int) -> Option<ErrorModel>
    decreases errors.len() - at,
{
    if at < 0 || at >= errors.len() {
        None
    } else if errors[at] is Some {
        error_model(errors[at])
    } else {
        first_error(errors, at + 1)
    }
}

/// What a shutdown reports some of whose sockets could not be closed.
pub open spec fn sockets_failed_model(error: ErrorModel) -> ErrorModel {
    error.ctx("sockets_closed"@, "false"@).ctx("session_delete_complete"@, "false"@).ctx(
        "readers_joined"@,
        "false"@,
    ).ctx("cleanup_pending"@, "true"@)
}

pub open spec fn drain_timeout_model() -> ErrorModel {
    ErrorModel::new(
        ErrorKind::Timeout,
        "MCP Streamable HTTP registry drain deadline elapsed"@,
    ).code("mcp_http_registry_drain_timeout"@)
}

pub open spec fn delete_timeout_model() -> ErrorModel {
    ErrorModel::new(
        ErrorKind::Timeout,
        "MCP Streamable HTTP drain deadline elapsed before session DELETE"@,
    ).code("mcp_http_registry_drain_timeout"@)
}

pub open spec fn lost_in_shutdown_model() -> ErrorModel {
    ErrorModel::new(
        ErrorKind::Internal,
        "MCP Streamable HTTP stream disappeared during shutdown"@,
    ).code("mcp_http_registry_stream_lost"@)
}

/// How a session is to be deleted.
#[derive(Debug, Clone, Copy, PartialEq, Eq, Structural)]
pub enum DeletePlan {
    /// The time is up: it is not.
    Expired,
    /// At the server, within so many milliseconds.
    Remote(u64),
    /// Here only: the server knows nothing of it.
    Local,
}

/// How a session is to be deleted, with so many milliseconds left.
pub fn delete_plan(requires_remote_delete: bool, remaining_ms: u64) -> (plan: DeletePlan)
    ensures
        plan == if !requires_remote_delete {
            DeletePlan::Local
        } else if remaining_ms == 0 {
            DeletePlan::Expired
        } else {
            DeletePlan::Remote(remaining_ms)
        },
{
    if !requires_remote_delete {
        DeletePlan::Local
    } else if remaining_ms == 0 {
        DeletePlan::Expired
    } else {
        DeletePlan::Remote(remaining_ms)
    }
}

/// The error of a deletion that there was no time for.
pub fn delete_expired() -> (error: EvaError)
    ensures
        error@ == delete_timeout_model(),
{
    EvaError::timeout(
        "MCP Streamable HTTP drain deadline elapsed before session DELETE",
    ).with_provider_code("mcp_http_registry_drain_timeout")
}

/// The streams after the waits for their readers, the first failure, and
/// whether all readers were joined.
#[verifier::ext_equal]
pub struct JoinedModel {
    pub streams: Map<Seq<char>, StreamEntry>,
    pub failure: Option<ErrorModel>,
    pub readers_joined: bool,
    /// Whether one of the streams was not there.
    pub lost: bool,
}

/// What outcomes say.
pub open spec fn outcome_models(outcomes: Seq<ReaderOutcome>) -> Seq<OutcomeModel> {
    outcomes.map_values(|o: ReaderOutcome| o@)
}

/// The streams after the first waits for their readers. A stream that is not
/// there ends the matter.
pub open spec fn join_all(
    start: JoinedModel,
    stream_ids: Seq<Seq<char>>,
    outcomes: Seq<OutcomeModel>,
    upto: int,
) -> JoinedModel
    decreases upto,
{
    if upto <= 0 {
        start
    } else {
        let before = join_all(start, stream_ids, outcomes, upto - 1);
        let id = stream_ids[upto - 1];
        if before.lost {
            before
        } else if !before.streams.dom().contains(id) {
            JoinedModel { lost: true, ..before }
        } else {
            let (stream, joined) = after_wait(before.streams[id], outcomes[upto - 1]);
            JoinedModel {
                streams: before.streams.insert(id, stream),
                failure: match joined {
                    Ok(_) => before.failure,
                    Err(error) => if before.failure is Some {
                        before.failure
                    } else {
                        Some(error)
                    },
                },
                readers_joined: before.readers_joined && joined is Ok,
                lost: false,
            }
        }
    }
}

/// What a shutdown notes that went through.
pub open spec fn closed_audit() -> Seq<Seq<char>> {
    seq![
        "transport:mcp_streamable_http"@,
        "mcp.stream:all_sockets_shutdown"@,
        "mcp.http:session_delete_complete"@,
        "mcp.stream:all_readers_joined"@,
        "mcp.http_registry:session_removed"@,
        "mcp.http_registry:session_dangling_readers:0"@,
    ]
}

/// The registry after the shutdown of a session whose sockets were closed, and
/// what is reported. The session is removed only if its deletion and all joins
/// went through; the first failure is reported.
pub open spec fn closed(
    registry: RegistryModel,
    shutdown: ShutdownModel,
    deleted: Option<ErrorModel>,
    outcomes: Seq<OutcomeModel>,
) -> (RegistryModel, Result<LifecycleModel, ErrorModel>) {
    if !registry.sessions.dom().contains(shutdown.session_id) {
        (registry, Err(session_not_found_model()))
    } else {
        let entry = registry.sessions[shutdown.session_id];
        let start = JoinedModel {
            streams: entry.streams,
            failure: deleted,
            readers_joined: true,
            lost: false,
        };
        let joined = join_all(start, shutdown.stream_ids, outcomes, outcomes.len() as int);
        let kept = with_entry(
            registry,
            shutdown.session_id,
            HttpEntry { streams: joined.streams, ..entry },
        );
        if joined.lost {
            (kept, Err(lost_in_shutdown_model()))
        } else {
            match joined.failure {
                Some(error) => (
                    kept,
                    Err(
                        error.ctx("sockets_closed"@, "true"@).ctx(
                            "session_delete_complete"@,
                            http_session::bool_text(deleted is None),
                        ).ctx(
                            "readers_joined"@,
                            http_session::bool_text(joined.readers_joined),
                        ).ctx("cleanup_pending"@, "true"@),
                    ),
                ),
                None => (
                    RegistryModel {
                        sessions: registry.sessions.remove(shutdown.session_id),
                        ..registry
                    },
                    Ok(
                        LifecycleModel {
                            adapter: shutdown.adapter,
                            session_id: shutdown.session_id,
                            status: McpSessionLifecycleStatus::Stopped,
                            process_id: None,
                            audit: closed_audit(),
                        },
                    ),
                ),
            }
        }
    }
}

impl ShutdownTransaction {
    /// How many streams the session has.
    pub fn stream_count(&self) -> (count: usize)
        ensures
            count == self@.stream_ids.len(),
    {
        self.stream_ids.len()
    }

    /// The stream at the given place.
    pub fn stream_at(&self, index: usize) -> (stream_id: &str)
        requires
            index < self@.stream_ids.len(),
        ensures
            stream_id@ == self@.stream_ids[index as int],
    {
        self.stream_ids[index].as_str()
    }

    /// Go on once the sockets of all streams were closed, each with an error or
    /// without, in the order of the transaction. If one could not be, the first
    /// error is reported, and everything stays registered.
    pub fn sockets_shutdown(self, errors: Vec<Option<EvaError>>) -> (outcome: Result<
        ClosedShutdown,
        EvaError,
    >)
        requires
            errors@.len() == self@.stream_ids.len(),
        ensures
            match outcome {
                Ok(shutdown) => first_error(errors@, 0) is None && shutdown@ == self@,
                Err(error) => first_error(errors@, 0) matches Some(first) && error@
                    == sockets_failed_model(first),
            },
    {
        let ghost all = errors@;
        let ghost mut seen: int = 0;
        let mut rest = errors;
        assert(rest@ =~= all.skip(0));
        while rest.len() > 0
            invariant
                0 <= seen <= all.len(),
                rest@ == all.skip(seen),
                all == errors@,
                first_error(all, 0) == first_error(all, seen),
            decreases rest@.len(),
        {
            let first = rest.remove(0);
            assert(first == all[seen]);
            assert(rest@ =~= all.skip(seen + 1));
            match first {
                Some(error) => {
                    return Err(
                        error.with_context("sockets_closed", "false").with_context(
                            "session_delete_complete",
                            "false",
                        ).with_context("readers_joined", "false").with_context(
                            "cleanup_pending",
                            "true",
                        ),
                    );
                },
                None => {},
            }
            proof {
                seen = seen + 1;
            }
        }
        Ok(ClosedShutdown { shutdown: self })
    }
}

/// Tell all readers of a session to stop.
fn cancel_all(streams: &mut NameMap<RegisteredHttpStream>) -> (names: Vec<String>)
    requires
        old(streams).wf(),
    ensures
        final(streams).wf(),
        final(streams)@.map_values(|s: RegisteredHttpStream| s@) == old(streams)@.map_values(
            |s: RegisteredHttpStream| s@,
        ).map_values(|s: StreamEntry| cancelling(s)),
        text::texts(names@) == collections::sorted(old(streams)@.dom()),
{
    let ghost before = streams@;
    let ghost all = streams.names();
    proof {
        streams.lemma_names();
        collections::lemma_sorted(all, before.dom());
    }
    let mut names: Vec<String> = Vec::new();
    let mut i: usize = 0;
    while i < streams.len()
        invariant
            i <= all.len(),
            streams.wf(),
            streams@ == before,
            all == streams.names(),
            text::texts(names@) == all.take(i as int),
        decreases all.len() - i,
    {
        let name = streams.name_at(i).to_owned();
        let ghost was = text::texts(names@);
        let ghost added = name@;
        names.push(name);
        assert(text::texts(names@) =~= was.push(added));
        assert(all.take(i + 1) =~= all.take(i as int).push(added));
        i += 1;
    }
    assert(text::texts(names@) =~= all);
    let mut j: usize = 0;
    while j < names.len()
        invariant
            j <= names@.len(),
            streams.wf(),
            text::texts(names@) == all,
            streams@.dom() == before.dom(),
            forall|n: Seq<char>| #[trigger] all.contains(n) <==> before.dom().contains(n),
            collections::in_order(all),
            forall|k: int|
                0 <= k < all.len() ==> streams@[#[trigger] all[k]]@ == if k < j {
                    cancelling(before[all[k]]@)
                } else {
                    before[all[k]]@
                },
        decreases names@.len() - j,
    {
        let name = names[j].as_str();
        assert(all[j as int] == name@);
        assert(all.contains(name@));
        let ghost earlier = streams@;
        match streams.remove(name) {
            Some(stream) => {
                let mut stream = stream;
                stream.state = ManagedHttpStreamState::Cancelling;
                streams.insert(name.to_owned(), stream);
            },
            None => {},
        }
        proof {
            assert(streams@.dom() =~= before.dom());
            assert forall|k: int| 0 <= k < all.len() implies streams@[#[trigger] all[k]]@ == if k
                < j + 1 {
                cancelling(before[all[k]]@)
            } else {
                before[all[k]]@
            } by {
                if k != j {
                    collections::lemma_name_less_irreflexive(all[k]);
                    if k < j {
                        assert(collections::name_less(all[k], all[j as int]));
                    } else {
                        assert(collections::name_less(all[j as int], all[k]));
                    }
                    assert(streams@[all[k]] == earlier[all[k]]);
                }
            }
        }
        j += 1;
    }
    proof {
        let now = streams@.map_values(|s: RegisteredHttpStream| s@);
        let then = before.map_values(|s: RegisteredHttpStream| s@).map_values(
            |s: StreamEntry| cancelling(s),
        );
        assert forall|n: Seq<char>| now.dom().contains(n) implies now[n] == then[n] by {
            assert(all.contains(n));
            let k = choose|k: int| 0 <= k < all.len() && all[k] == n;
            assert(streams@[all[k]]@ == cancelling(before[all[k]]@));
        }
        assert(now =~= then);
    }
    names
}

impl McpStreamableHttpSessionRegistry {
    /// Start to shut a session down: it is fenced off, and all its readers are
    /// told to stop.
    pub fn begin_shutdown(&mut self, session_id: &str) -> (outcome: Result<
        ShutdownTransaction,
        EvaError,
    >)
        requires
            old(self).wf(),
        ensures
            final(self).wf(),
            match outcome {
                Ok(shutdown) => {
                    let entry = old(self)@.sessions[session_id@];
                    &&& old(self)@.sessions.dom().contains(session_id@)
                    &&& final(self)@ == with_entry(old(self)@, session_id@, closing_entry(entry))
                    &&& shutdown@ == (ShutdownModel {
                        adapter: entry.adapter,
                        session_id: session_id@,
                        stream_ids: collections::sorted(entry.streams.dom()),
                    })
                },
                Err(error) => {
                    &&& !old(self)@.sessions.dom().contains(session_id@)
                    &&& final(self)@ == old(self)@
                    &&& error@ == session_not_found_model()
                },
            },
    {
        match self.sessions.remove(session_id) {
            None => Err(session_not_found()),
            Some(entry) => {
                let ghost was = entry@;
                assert(was.streams.dom() =~= entry.streams@.dom());
                let mut entry = entry;
                entry.state = ManagedHttpSessionState::CleanupPending;
                let stream_ids = cancel_all(&mut entry.streams);
                let shutdown = ShutdownTransaction {
                    adapter_id: entry.adapter_id.copy(),
                    session_id: session_id.to_owned(),
                    stream_ids,
                };
                let ghost model = entry@;
                assert(model == closing_entry(was));
                self.put_back(session_id, entry);
                assert(self@.sessions =~= old(self)@.sessions.insert(session_id@, model));
                Ok(shutdown)
            },
        }
    }

    /// Finish to shut a session down whose sockets were closed. There is one
    /// outcome for each stream, in the order of the transaction.
    pub fn shutdown_session(
        &mut self,
        shutdown: ClosedShutdown,
        deleted: Option<EvaError>,
        outcomes: Vec<ReaderOutcome>,
    ) -> (result: Result<McpSessionLifecycleReport, EvaError>)
        requires
            old(self).wf(),
            outcomes@.len() == shutdown@.stream_ids.len(),
        ensures
            final(self).wf(),
            final(self)@ == closed(
                old(self)@,
                shutdown@,
                error_model(deleted),
                outcome_models(outcomes@),
            ).0,
            match result {
                Ok(report) => closed(
                    old(self)@,
                    shutdown@,
                    error_model(deleted),
                    outcome_models(outcomes@),
                ).1 == Ok::<LifecycleModel, ErrorModel>(report@),
                Err(error) => closed(
                    old(self)@,
                    shutdown@,
                    error_model(deleted),
                    outcome_models(outcomes@),
                ).1 == Err::<LifecycleModel, ErrorModel>(error@),
            },
    {
        let shutdown = shutdown.shutdown;
        let session_id = shutdown.session_id.as_str();
        let ghost fault = error_model(deleted);
        let entry = match self.sessions.remove(session_id) {
            None => return Err(session_not_found()),
            Some(entry) => entry,
        };
        let ghost was = entry@;
        let deleted_text = bool_str(deleted.is_none());
        let mut entry = entry;
        let joined = join_streams(&mut entry.streams, &shutdown.stream_ids, outcomes, deleted);
        match joined.failure {
            None => {
                if !joined.lost {
                    assert(self@.sessions =~= old(self)@.sessions.remove(session_id@));
                    let report = McpSessionLifecycleReport {
                        adapter_id: shutdown.adapter_id.copy(),
                        session_id: session_id.to_owned(),
                        status: McpSessionLifecycleStatus::Stopped,
                        process_id: None,
                        audit: vec![
                            "transport:mcp_streamable_http".to_owned(),
                            "mcp.stream:all_sockets_shutdown".to_owned(),
                            "mcp.http:session_delete_complete".to_owned(),
                            "mcp.stream:all_readers_joined".to_owned(),
                            "mcp.http_registry:session_removed".to_owned(),
                            "mcp.http_registry:session_dangling_readers:0".to_owned(),
                        ],
                    };
                    assert(report@.audit =~= closed_audit());
                    return Ok(report);
                }
                let ghost put = entry@;
                self.put_back(session_id, entry);
                assert(self@.sessions =~= old(self)@.sessions.insert(session_id@, put));
                Err(lost_in_shutdown())
            },
            Some(error) => {
                let ghost put = entry@;
                self.put_back(session_id, entry);
                assert(self@.sessions =~= old(self)@.sessions.insert(session_id@, put));
                if joined.lost {
                    return Err(lost_in_shutdown());
                }
                Err(
                    error.with_context("sockets_closed", "true").with_context(
                        "session_delete_complete",
                        deleted_text,
                    ).with_context("readers_joined", bool_str(joined.readers_joined)).with_context(
                        "cleanup_pending",
                        "true",
                    ),
                )
            },
        }
    }
}

fn lost_in_shutdown() -> (error: EvaError)
    ensures
        error@ == lost_in_shutdown_model(),
{
    EvaError::internal(
        "MCP Streamable HTTP stream disappeared during shutdown",
    ).with_provider_code("mcp_http_registry_stream_lost")
}

/// How the waits for the readers of a session ended.
struct JoinedStreams {
    failure: Option<EvaError>,
    readers_joined: bool,
    lost: bool,
}

proof fn lemma_lost_stays(
    start: JoinedModel,
    stream_ids: Seq<Seq<char>>,
    outcomes: Seq<OutcomeModel>,
    at: int,
    upto: int,
)
    requires
        0 <= at <= upto,
        join_all(start, stream_ids, outcomes, at).lost,
    ensures
        join_all(start, stream_ids, outcomes, upto) == join_all(start, stream_ids, outcomes, at),
    decreases upto - at,
{
    if at < upto {
        lemma_lost_stays(start, stream_ids, outcomes, at, upto - 1);
    }
}

/// Take in how the waits for the readers of a session ended.
fn join_streams(
    streams: &mut NameMap<RegisteredHttpStream>,
    stream_ids: &Vec<String>,
    outcomes: Vec<ReaderOutcome>,
    deleted: Option<EvaError>,
) -> (joined: JoinedStreams)
    requires
        old(streams).wf(),
        outcomes@.len() == stream_ids@.len(),
    ensures
        final(streams).wf(),
        join_all(
            (JoinedModel {
                streams: old(streams)@.map_values(|s: RegisteredHttpStream| s@),
                failure: error_model(deleted),
                readers_joined: true,
                lost: false,
            }),
            text::texts(stream_ids@),
            outcome_models(outcomes@),
            outcomes@.len() as int,
        ) == (JoinedModel {
            streams: final(streams)@.map_values(|s: RegisteredHttpStream| s@),
            failure: error_model(joined.failure),
            readers_joined: joined.readers_joined,
            lost: joined.lost,
        }),
{
    let ghost told = outcome_models(outcomes@);
    let ghost all = outcomes@;
    let ghost ids = text::texts(stream_ids@);
    let ghost start = JoinedModel {
        streams: streams@.map_values(|s: RegisteredHttpStream| s@),
        failure: error_model(deleted),
        readers_joined: true,
        lost: false,
    };
    let mut failure = deleted;
    let mut readers_joined: bool = true;
    let mut rest = outcomes;
    let mut i: usize = 0;
    assert(rest@ =~= all.skip(0));
    while i < stream_ids.len()
        invariant
            i <= ids.len(),
            ids == text::texts(stream_ids@),
            told == outcome_models(all),
            all == outcomes@,
            all.len() == ids.len(),
            rest@ == all.skip(i as int),
            streams.wf(),
            start == (JoinedModel {
                streams: old(streams)@.map_values(|s: RegisteredHttpStream| s@),
                failure: error_model(deleted),
                readers_joined: true,
                lost: false,
            }),
            join_all(start, ids, told, i as int) == (JoinedModel {
                streams: streams@.map_values(|s: RegisteredHttpStream| s@),
                failure: error_model(failure),
                readers_joined,
                lost: false,
            }),
        decreases ids.len() - i,
    {
        let id = stream_ids[i].as_str();
        let ghost earlier = streams@.map_values(|s: RegisteredHttpStream| s@);
        assert(earlier.dom() =~= streams@.dom());
        assert(ids[i as int] == id@);
        let outcome = rest.remove(0);
        assert(outcome == all[i as int]);
        assert(told[i as int] == outcome@);
        assert(rest@ =~= all.skip(i + 1));
        match streams.remove(id) {
            None => {
                proof {
                    assert(join_all(start, ids, told, i + 1).lost);
                    lemma_lost_stays(start, ids, told, i + 1, told.len() as int);
                }
                return JoinedStreams { failure, readers_joined, lost: true };
            },
            Some(stream) => {
                let mut stream = stream;
                let joined = wait_and_join_reader(&mut stream, outcome);
                let ghost model = stream@;
                streams.insert(id.to_owned(), stream);
                assert(streams@.map_values(|s: RegisteredHttpStream| s@) =~= earlier.insert(
                    id@,
                    model,
                ));
                match joined {
                    Ok(_) => {},
                    Err(error) => {
                        readers_joined = false;
                        if failure.is_none() {
                            failure = Some(error);
                        }
                    },
                }
            },
        }
        i += 1;
    }
    JoinedStreams { failure, readers_joined, lost: false }
}

// ---------------------------------------------------------------------------
// Draining
// ---------------------------------------------------------------------------

/// What is left of a registry after it was drained. It counts; it names no
/// session.
#[derive(Debug, Clone, Copy, PartialEq, Eq, Structural)]
pub struct McpHttpDrainReport {
    pub sessions_before: usize,
    pub readers_before: usize,
    pub cleanup_pending_before: usize,
    pub sessions_after: usize,
    pub readers_after: usize,
    pub cleanup_pending_after: usize,
    pub attempted_sessions: usize,
    pub drained_sessions: usize,
    pub failed_sessions: usize,
    pub admission_closed: bool,
    pub complete: bool,
}

/// A registry that is being drained.
#[verifier::ext_equal]
pub struct DrainModel {
    pub sessions_before: usize,
    pub readers_before: usize,
    pub cleanup_pending_before: usize,
    pub session_ids: Seq<Seq<char>>,
    pub attempted: usize,
    pub first_error: Option<ErrorModel>,
}

/// A registry that is being drained.
#[derive(Debug)]
pub struct DrainTransaction {
    sessions_before: usize,
    readers_before: usize,
    cleanup_pending_before: usize,
    session_ids: Vec<String>,
    attempted: usize,
    first_error: Option<EvaError>,
}

impl View for DrainTransaction {
    type V = DrainModel;

    closed spec fn view(&self) -> DrainModel {
        DrainModel {
            sessions_before: self.sessions_before,
            readers_before: self.readers_before,
            cleanup_pending_before: self.cleanup_pending_before,
            session_ids: text::texts(self.session_ids@),
            attempted: self.attempted,
            first_error: error_model(self.first_error),
        }
    }
}

/// A registry that is being drained accepts no session and no call, and all its
/// sessions are fenced off.
pub open spec fn drain_begun(registry: RegistryModel) -> RegistryModel {
    RegistryModel {
        sessions: registry.sessions.map_values(|e: HttpEntry| fence(e)),
        next_session_id: registry.next_session_id,
        admission_closed: true,
        draining: true,
    }
}

/// A drain before its first session.
pub open spec fn drain_of(registry: RegistryModel) -> DrainModel {
    DrainModel {
        sessions_before: capped(registry.sessions.dom().len()),
        readers_before: capped(reader_count(registry.sessions)),
        cleanup_pending_before: capped(pending_count(registry.sessions)),
        session_ids: collections::sorted(registry.sessions.dom()),
        attempted: 0,
        first_error: None,
    }
}

/// A drain after an error, of which the first is kept.
pub open spec fn noting(drain: DrainModel, error: ErrorModel) -> DrainModel {
    DrainModel {
        first_error: if drain.first_error is Some {
            drain.first_error
        } else {
            Some(error)
        },
        ..drain
    }
}

/// What a drain has come to.
pub open spec fn drain_report(registry: RegistryModel, drain: DrainModel) -> McpHttpDrainReport {
    let sessions_after = capped(registry.sessions.dom().len());
    let readers_after = capped(reader_count(registry.sessions));
    let cleanup_pending_after = capped(pending_count(registry.sessions));
    McpHttpDrainReport {
        sessions_before: drain.sessions_before,
        readers_before: drain.readers_before,
        cleanup_pending_before: drain.cleanup_pending_before,
        sessions_after,
        readers_after,
        cleanup_pending_after,
        attempted_sessions: drain.attempted,
        drained_sessions: if sessions_after <= drain.sessions_before {
            (drain.sessions_before - sessions_after) as usize
        } else {
            0
        },
        failed_sessions: sessions_after,
        admission_closed: registry.admission_closed,
        complete: sessions_after == 0 && readers_after == 0 && cleanup_pending_after == 0,
    }
}

pub open spec fn drain_incomplete_model() -> ErrorModel {
    ErrorModel::new(
        ErrorKind::Unavailable,
        "MCP Streamable HTTP registry drain is incomplete"@,
    ).code("mcp_http_registry_drain_incomplete"@)
}

/// What a drain ends with: its report if nothing is left and the time is not up,
/// otherwise an error that says what is left.
pub open spec fn drain_result(report: McpHttpDrainReport, first_error: Option<ErrorModel>, expired: bool) -> Result<
    McpHttpDrainReport,
    ErrorModel,
> {
    if report.complete && expired {
        Err(
            drain_timeout_model().ctx(
                "sessions_after"@,
                text::decimal(report.sessions_after as nat),
            ).ctx("readers_after"@, text::decimal(report.readers_after as nat)).ctx(
                "cleanup_pending_after"@,
                text::decimal(report.cleanup_pending_after as nat),
            ).ctx("complete"@, "true"@),
        )
    } else if report.complete {
        Ok(report)
    } else {
        let error = match first_error {
            Some(error) => error,
            None => drain_incomplete_model(),
        };
        Err(
            error.ctx("sessions_before"@, text::decimal(report.sessions_before as nat)).ctx(
                "readers_before"@,
                text::decimal(report.readers_before as nat),
            ).ctx(
                "cleanup_pending_before"@,
                text::decimal(report.cleanup_pending_before as nat),
            ).ctx("sessions_after"@, text::decimal(report.sessions_after as nat)).ctx(
                "readers_after"@,
                text::decimal(report.readers_after as nat),
            ).ctx(
                "cleanup_pending_after"@,
                text::decimal(report.cleanup_pending_after as nat),
            ).ctx("attempted_sessions"@, text::decimal(report.attempted_sessions as nat)).ctx(
                "failed_sessions"@,
                text::decimal(report.failed_sessions as nat),
            ).ctx(
                "admission_closed"@,
                http_session::bool_text(report.admission_closed),
            ).ctx("complete"@, "false"@),
        )
    }
}

impl DrainTransaction {
    /// The next session to be shut down, while there is one and the time is not
    /// up.
    pub fn next(&mut self, expired: bool) -> (session_id: Option<String>)
        ensures
            match session_id {
                Some(id) => {
                    &&& !expired
                    &&& old(self)@.attempted < old(self)@.session_ids.len()
                    &&& id@ == old(self)@.session_ids[old(self)@.attempted as int]
                    &&& final(self)@ == (DrainModel {
                        attempted: (old(self)@.attempted + 1) as usize,
                        ..old(self)@
                    })
                },
                None => if old(self)@.attempted < old(self)@.session_ids.len() {
                    expired && final(self)@ == noting(old(self)@, drain_timeout_model())
                } else {
                    final(self)@ == old(self)@
                },
            },
    {
        if self.attempted >= self.session_ids.len() {
            return None;
        }
        if expired {
            self.note(
                EvaError::timeout(
                    "MCP Streamable HTTP registry drain deadline elapsed",
                ).with_provider_code("mcp_http_registry_drain_timeout"),
            );
            return None;
        }
        let id = self.session_ids[self.attempted].as_str().to_owned();
        self.attempted = self.attempted + 1;
        Some(id)
    }

    /// Take in that a session could not be shut down.
    pub fn note(&mut self, error: EvaError)
        ensures
            final(self)@ == noting(old(self)@, error@),
    {
        if self.first_error.is_none() {
            self.first_error = Some(error);
        }
    }
}

fn drain_error(report: &McpHttpDrainReport, first_error: Option<EvaError>) -> (error: EvaError)
    requires
        !report.complete,
    ensures
        drain_result(*report, error_model(first_error), false) == Err::<
            McpHttpDrainReport,
            ErrorModel,
        >(error@),
{
    let error = match first_error {
        Some(error) => error,
        None => EvaError::unavailable(
            "MCP Streamable HTTP registry drain is incomplete",
        ).with_provider_code("mcp_http_registry_drain_incomplete"),
    };
    error.with_context("sessions_before", decimal_usize(report.sessions_before).as_str()).with_context(
        "readers_before",
        decimal_usize(report.readers_before).as_str(),
    ).with_context(
        "cleanup_pending_before",
        decimal_usize(report.cleanup_pending_before).as_str(),
    ).with_context("sessions_after", decimal_usize(report.sessions_after).as_str()).with_context(
        "readers_after",
        decimal_usize(report.readers_after).as_str(),
    ).with_context(
        "cleanup_pending_after",
        decimal_usize(report.cleanup_pending_after).as_str(),
    ).with_context(
        "attempted_sessions",
        decimal_usize(report.attempted_sessions).as_str(),
    ).with_context("failed_sessions", decimal_usize(report.failed_sessions).as_str()).with_context(
        "admission_closed",
        bool_str(report.admission_closed),
    ).with_context("complete", "false")
}

impl McpStreamableHttpSessionRegistry {
    fn session_names(&self) -> (names: Vec<String>)
        requires
            self.wf(),
        ensures
            text::texts(names@) == self.sessions.names(),
    {
        let ghost all = self.sessions.names();
        let mut names: Vec<String> = Vec::new();
        let mut i: usize = 0;
        while i < self.sessions.len()
            invariant
                i <= all.len(),
                self.wf(),
                all == self.sessions.names(),
                text::texts(names@) == all.take(i as int),
            decreases all.len() - i,
        {
            let name = self.sessions.name_at(i).to_owned();
            let ghost was = text::texts(names@);
            let ghost added = name@;
            names.push(name);
            assert(text::texts(names@) =~= was.push(added));
            assert(all.take(i + 1) =~= all.take(i as int).push(added));
            i += 1;
        }
        assert(text::texts(names@) =~= all);
        names
    }

    /// Start to drain the registry.
    pub fn begin_drain(&mut self) -> (drain: DrainTransaction)
        requires
            old(self).wf(),
        ensures
            final(self).wf(),
            final(self)@ == drain_begun(old(self)@),
            drain@ == drain_of(old(self)@),
    {
        self.admission_closed = true;
        self.draining = true;
        let sessions_before = self.dangling_session_count();
        let readers_before = self.dangling_reader_count();
        let cleanup_pending_before = self.cleanup_pending_session_count();
        let ghost before = self.sessions@;
        let ghost models = self@.sessions;
        let ghost all = self.sessions.names();
        let session_ids = self.session_names();
        proof {
            self.sessions.lemma_names();
            assert(models.dom() =~= before.dom());
            collections::lemma_sorted(all, models.dom());
        }
        let mut j: usize = 0;
        while j < session_ids.len()
            invariant
                j <= session_ids@.len(),
                self.wf(),
                text::texts(session_ids@) == all,
                self.sessions@.dom() == before.dom(),
                self.next_session_id == old(self).next_session_id,
                self.admission_closed,
                self.draining,
                forall|n: Seq<char>| #[trigger] all.contains(n) <==> before.dom().contains(n),
                collections::in_order(all),
                forall|k: int|
                    0 <= k < all.len() ==> self.sessions@[#[trigger] all[k]]@ == if k < j {
                        fence(before[all[k]]@)
                    } else {
                        before[all[k]]@
                    },
            decreases session_ids@.len() - j,
        {
            let name = session_ids[j].as_str();
            assert(all[j as int] == name@);
            assert(all.contains(name@));
            let ghost earlier = self.sessions@;
            match self.sessions.remove(name) {
                Some(entry) => {
                    let mut entry = entry;
                    entry.state = ManagedHttpSessionState::CleanupPending;
                    self.sessions.insert(name.to_owned(), entry);
                },
                None => {},
            }
            proof {
                assert(self.sessions@.dom() =~= before.dom());
                assert forall|k: int| 0 <= k < all.len() implies self.sessions@[#[trigger] all[k]]@
                    == if k < j + 1 {
                    fence(before[all[k]]@)
                } else {
                    before[all[k]]@
                } by {
                    if k != j {
                        collections::lemma_name_less_irreflexive(all[k]);
                        if k < j {
                            assert(collections::name_less(all[k], all[j as int]));
                        } else {
                            assert(collections::name_less(all[j as int], all[k]));
                        }
                        assert(self.sessions@[all[k]] == earlier[all[k]]);
                    }
                }
            }
            j += 1;
        }
        proof {
            let then = models.map_values(|e: HttpEntry| fence(e));
            assert forall|n: Seq<char>| self@.sessions.dom().contains(n) implies self@.sessions[n]
                == then[n] by {
                assert(all.contains(n));
                let k = choose|k: int| 0 <= k < all.len() && all[k] == n;
                assert(self.sessions@[all[k]]@ == fence(before[all[k]]@));
            }
            assert(self@.sessions =~= then);
        }
        DrainTransaction {
            sessions_before,
            readers_before,
            cleanup_pending_before,
            session_ids,
            attempted: 0,
            first_error: None,
        }
    }

    /// Finish to drain the registry.
    pub fn drain_all(&self, drain: DrainTransaction, expired: bool) -> (result: Result<
        McpHttpDrainReport,
        EvaError,
    >)
        requires
            self.wf(),
        ensures
            match result {
                Ok(report) => drain_result(
                    drain_report(self@, drain@),
                    drain@.first_error,
                    expired,
                ) == Ok::<McpHttpDrainReport, ErrorModel>(report),
                Err(error) => drain_result(
                    drain_report(self@, drain@),
                    drain@.first_error,
                    expired,
                ) == Err::<McpHttpDrainReport, ErrorModel>(error@),
            },
    {
        let sessions_after = self.dangling_session_count();
        let readers_after = self.dangling_reader_count();
        let cleanup_pending_after = self.cleanup_pending_session_count();
        let complete = sessions_after == 0 && readers_after == 0 && cleanup_pending_after == 0;
        let report = McpHttpDrainReport {
            sessions_before: drain.sessions_before,
            readers_before: drain.readers_before,
            cleanup_pending_before: drain.cleanup_pending_before,
            sessions_after,
            readers_after,
            cleanup_pending_after,
            attempted_sessions: drain.attempted,
            drained_sessions: if sessions_after <= drain.sessions_before {
                drain.sessions_before - sessions_after
            } else {
                0
            },
            failed_sessions: sessions_after,
            admission_closed: self.admission_closed,
            complete,
        };
        assert(report == drain_report(self@, drain@));
        if complete && expired {
            return Err(
                EvaError::timeout(
                    "MCP Streamable HTTP registry drain deadline elapsed",
                ).with_provider_code("mcp_http_registry_drain_timeout").with_context(
                    "sessions_after",
                    decimal_usize(sessions_after).as_str(),
                ).with_context("readers_after", decimal_usize(readers_after).as_str()).with_context(
                    "cleanup_pending_after",
                    decimal_usize(cleanup_pending_after).as_str(),
                ).with_context("complete", "true"),
            );
        }
        if complete {
            return Ok(report);
        }
        Err(drain_error(&report, drain.first_error))
    }
}

// ---------------------------------------------------------------------------
// Laws
// ---------------------------------------------------------------------------

/// A drain that reports success has left no session, and admits no new one.
pub proof fn law_drained_registries_are_empty(
    registry: RegistryModel,
    drain: DrainModel,
    expired: bool,
    report: McpHttpDrainReport,
)
    requires
        registry.sessions.dom().finite(),
        drain_result(drain_report(registry, drain), drain.first_error, expired) == Ok::<
            McpHttpDrainReport,
            ErrorModel,
        >(report),
    ensures
        registry.sessions == Map::<Seq<char>, HttpEntry>::empty(),
        report.complete && report.failed_sessions == 0,
        !expired,
{
    assert(registry.sessions.dom().len() == 0);
    assert(registry.sessions.dom() =~= Set::<Seq<char>>::empty());
    assert(registry.sessions =~= Map::<Seq<char>, HttpEntry>::empty());
}

/// A receipt is complete exactly if the session was deleted with its last stream
/// and no other session is left.
pub proof fn law_complete_receipts_leave_nothing(registry: RegistryModel, final_stream: bool)
    requires
        registry.sessions.dom().finite(),
    ensures
        receipt_of(registry, final_stream).complete() <==> final_stream && registry.sessions
            == Map::<Seq<char>, HttpEntry>::empty(),
{
    if receipt_of(registry, final_stream).complete() {
        assert(registry.sessions.dom().len() == 0);
        assert(registry.sessions.dom() =~= Set::<Seq<char>>::empty());
        assert(registry.sessions =~= Map::<Seq<char>, HttpEntry>::empty());
    }
    if registry.sessions == Map::<Seq<char>, HttpEntry>::empty() {
        let none = Map::<Seq<char>, HttpEntry>::empty();
        assert(none.dom().len() == 0);
        assert(collections::in_order(Seq::<Seq<char>>::empty()));
        collections::lemma_sorted(Seq::empty(), none.dom());
        assert(reader_count(none) == 0);
        assert(pending_count(none) == 0);
    }
}

/// An abort that failed has removed neither the session nor the stream, and
/// leaves the session fenced off if it was.
pub proof fn law_failed_aborts_keep_what_is_left(
    registry: RegistryModel,
    abort: AbortModel,
    deleted: Option<ErrorModel>,
    outcome: OutcomeModel,
)
    requires
        abort_refusal(registry, abort.session_id, abort.stream_id) is None,
        aborted(registry, abort, deleted, outcome).1 is Err,
    ensures
        ({
            let after = aborted(registry, abort, deleted, outcome).0;
            &&& after.sessions.dom() == registry.sessions.dom()
            &&& after.sessions[abort.session_id].state == registry.sessions[abort.session_id].state
            &&& after.sessions[abort.session_id].streams.dom()
                == registry.sessions[abort.session_id].streams.dom()
            &&& abort_refusal(after, abort.session_id, abort.stream_id) is None
        }),
{
    let after = aborted(registry, abort, deleted, outcome).0;
    assert(after.sessions.dom() =~= registry.sessions.dom());
    assert(after.sessions[abort.session_id].streams.dom()
        =~= registry.sessions[abort.session_id].streams.dom());
}

/// An abort that went through has joined the reader; with the last stream it
/// has removed the session, and with another one only the stream.
pub proof fn law_finished_aborts_remove_what_they_ended(
    registry: RegistryModel,
    abort: AbortModel,
    deleted: Option<ErrorModel>,
    outcome: OutcomeModel,
)
    requires
        aborted(registry, abort, deleted, outcome).1 is Ok,
    ensures
        ({
            let entry = registry.sessions[abort.session_id];
            let after = aborted(registry, abort, deleted, outcome).0;
            &&& registry.sessions.dom().contains(abort.session_id)
            &&& after_wait(entry.streams[abort.stream_id], outcome).0.joined
            &&& abort.final_stream ==> deleted is None && after.sessions
                == registry.sessions.remove(abort.session_id)
            &&& !abort.final_stream ==> after.sessions == registry.sessions.insert(
                abort.session_id,
                (HttpEntry { streams: entry.streams.remove(abort.stream_id), ..entry }),
            )
        }),
{
}

/// An abort of the last stream fences its session off before anything is
/// closed: from then on no call and no new stream is let through.
pub proof fn law_last_stream_aborts_fence_the_session(
    registry: RegistryModel,
    session_id: Seq<char>,
    stream_id: Seq<char>,
    other_stream: Seq<char>,
)
    requires
        abort_refusal(registry, session_id, stream_id) is None,
        registry.sessions[session_id].streams.dom().len() == 1,
    ensures
        ({
            let begun = with_entry(
                registry,
                session_id,
                aborting_entry(registry.sessions[session_id], stream_id),
            );
            &&& call_refusal(begun, session_id) is Some
            &&& open_refusal(begun, session_id, other_stream) is Some
            &&& take_refusal(begun, session_id, other_stream) is Some
        }),
{
}

proof fn lemma_joined_streams(
    start: JoinedModel,
    stream_ids: Seq<Seq<char>>,
    outcomes: Seq<OutcomeModel>,
    upto: int,
    at: int,
)
    requires
        0 <= at < upto <= stream_ids.len(),
        !join_all(start, stream_ids, outcomes, upto).lost,
        join_all(start, stream_ids, outcomes, upto).failure is None,
    ensures
        join_all(start, stream_ids, outcomes, upto).streams[stream_ids[at]].joined,
    decreases upto,
{
    if at < upto - 1 {
        lemma_joined_streams(start, stream_ids, outcomes, upto - 1, at);
    }
}

/// A session is removed only after it was deleted and every one of its readers
/// was joined.
pub proof fn law_removed_sessions_are_cleaned_up(
    registry: RegistryModel,
    shutdown: ShutdownModel,
    deleted: Option<ErrorModel>,
    outcomes: Seq<OutcomeModel>,
    at: int,
)
    requires
        closed(registry, shutdown, deleted, outcomes).1 is Ok,
        outcomes.len() == shutdown.stream_ids.len(),
        0 <= at < outcomes.len(),
    ensures
        ({
            let entry = registry.sessions[shutdown.session_id];
            let start = JoinedModel {
                streams: entry.streams,
                failure: deleted,
                readers_joined: true,
                lost: false,
            };
            let joined = join_all(start, shutdown.stream_ids, outcomes, outcomes.len() as int);
            &&& deleted is None
            &&& joined.streams[shutdown.stream_ids[at]].joined
            &&& closed(registry, shutdown, deleted, outcomes).0.sessions
                == registry.sessions.remove(shutdown.session_id)
        }),
{
    let entry = registry.sessions[shutdown.session_id];
    let start = JoinedModel {
        streams: entry.streams,
        failure: deleted,
        readers_joined: true,
        lost: false,
    };
    lemma_joined_streams(start, shutdown.stream_ids, outcomes, outcomes.len() as int, at);
    lemma_first_failure_stays(start, shutdown.stream_ids, outcomes, outcomes.len() as int);
}

proof fn lemma_first_failure_stays(
    start: JoinedModel,
    stream_ids: Seq<Seq<char>>,
    outcomes: Seq<OutcomeModel>,
    upto: int,
)
    requires
        0 <= upto,
    ensures
        start.failure is Some ==> join_all(start, stream_ids, outcomes, upto).failure
            == start.failure,
    decreases upto,
{
    if upto > 0 {
        lemma_first_failure_stays(start, stream_ids, outcomes, upto - 1);
    }
}

/// A shutdown that failed keeps the session registered and fenced off, so that
/// it can be tried again.
pub proof fn law_failed_shutdowns_can_be_retried(
    registry: RegistryModel,
    shutdown: ShutdownModel,
    deleted: Option<ErrorModel>,
    outcomes: Seq<OutcomeModel>,
)
    requires
        registry.sessions.dom().contains(shutdown.session_id),
        registry.sessions[shutdown.session_id].state == ManagedHttpSessionState::CleanupPending,
        closed(registry, shutdown, deleted, outcomes).1 is Err,
    ensures
        ({
            let after = closed(registry, shutdown, deleted, outcomes).0;
            &&& after.sessions.dom() == registry.sessions.dom()
            &&& after.sessions[shutdown.session_id].state
                == ManagedHttpSessionState::CleanupPending
            &&& call_refusal(after, shutdown.session_id) is Some
        }),
{
    let after = closed(registry, shutdown, deleted, outcomes).0;
    assert(after.sessions.dom() =~= registry.sessions.dom());
}

/// Once admission is closed it stays closed, and no session is registered any
/// more.
pub proof fn law_admission_closes_for_good(
    registry: RegistryModel,
    abort: AbortModel,
    shutdown: ShutdownModel,
    deleted: Option<ErrorModel>,
    outcome: OutcomeModel,
    outcomes: Seq<OutcomeModel>,
    session_id: Seq<char>,
    entry: HttpEntry,
    pristine: bool,
)
    requires
        registry.admission_closed,
    ensures
        session_refusal(registry) is Some,
        starting_refusal(registry, pristine) is Some,
        with_entry(registry, session_id, entry).admission_closed,
        aborted(registry, abort, deleted, outcome).0.admission_closed,
        closed(registry, shutdown, deleted, outcomes).0.admission_closed,
        drain_begun(registry).admission_closed,
{
}

/// A drain fences off every session before it shuts down the first one.
pub proof fn law_drains_fence_every_session(registry: RegistryModel, session_id: Seq<char>, stream_id: Seq<char>)
    ensures
        drain_begun(registry).sessions.dom() == registry.sessions.dom(),
        call_refusal(drain_begun(registry), session_id) is Some,
        open_refusal(drain_begun(registry), session_id, stream_id) is Some,
        session_refusal(drain_begun(registry)) is Some,
{
    assert(drain_begun(registry).sessions.dom() =~= registry.sessions.dom());
}

/// How the shutdown of a session in a drain ends.
pub enum SessionEnd {
    /// A socket could not be closed.
    Stuck(ErrorModel),
    /// All sockets were closed; the session was deleted with an error or without,
    /// and the waits for its readers ended in some way.
    Closed(Option<ErrorModel>, Seq<OutcomeModel>),
}

/// A registry and its drain after one more session was shut down, or could not
/// be.
pub open spec fn drain_step(
    state: (RegistryModel, DrainModel),
    end: SessionEnd,
) -> (RegistryModel, DrainModel) {
    let (registry, drain) = state;
    let session_id = drain.session_ids[drain.attempted as int];
    let taken = DrainModel { attempted: (drain.attempted + 1) as usize, ..drain };
    if !registry.sessions.dom().contains(session_id) {
        (registry, noting(taken, session_not_found_model()))
    } else {
        let entry = registry.sessions[session_id];
        let begun = with_entry(registry, session_id, closing_entry(entry));
        let shutdown = ShutdownModel {
            adapter: entry.adapter,
            session_id,
            stream_ids: collections::sorted(entry.streams.dom()),
        };
        match end {
            SessionEnd::Stuck(error) => (begun, noting(taken, sockets_failed_model(error))),
            SessionEnd::Closed(deleted, outcomes) => {
                let (after, told) = closed(begun, shutdown, deleted, outcomes);
                match told {
                    Ok(_) => (after, taken),
                    Err(error) => (after, noting(taken, error)),
                }
            },
        }
    }
}

/// A registry and its drain after the shutdowns of its first sessions ended in
/// the given ways.
pub open spec fn drain_steps(registry: RegistryModel, ends: Seq<SessionEnd>) -> (
    RegistryModel,
    DrainModel,
)
    decreases ends.len(),
{
    if ends.len() == 0 {
        (drain_begun(registry), drain_of(registry))
    } else {
        drain_step(drain_steps(registry, ends.drop_last()), ends.last())
    }
}

/// A registry and its drain when no session is taken any more: there is none
/// left, or the time is up.
pub open spec fn drain_stopped(registry: RegistryModel, ends: Seq<SessionEnd>) -> (
    RegistryModel,
    DrainModel,
) {
    let (after, drain) = drain_steps(registry, ends);
    if drain.attempted < drain.session_ids.len() {
        (after, noting(drain, drain_timeout_model()))
    } else {
        (after, drain)
    }
}

proof fn lemma_drain_steps(registry: RegistryModel, ends: Seq<SessionEnd>)
    requires
        registry.sessions.dom().finite(),
        registry.sessions.dom().len() <= usize::MAX,
        ends.len() <= registry.sessions.dom().len(),
    ensures
        ({
            let (after, drain) = drain_steps(registry, ends);
            let start = drain_of(registry);
            &&& after.admission_closed
            &&& after.draining
            &&& after.sessions.dom().subset_of(registry.sessions.dom())
            &&& forall|n: Seq<char>| #[trigger]
                after.sessions.dom().contains(n) ==> after.sessions[n].state
                    == ManagedHttpSessionState::CleanupPending
            &&& forall|i: int|
                ends.len() <= i < start.session_ids.len() ==> after.sessions.dom().contains(
                    #[trigger] start.session_ids[i],
                )
            &&& drain.attempted == ends.len()
            &&& drain.session_ids == start.session_ids
            &&& drain.sessions_before == start.sessions_before
        }),
    decreases ends.len(),
{
    collections::lemma_sorted_lists_all(registry.sessions.dom());
    let ids = collections::sorted(registry.sessions.dom());
    if ends.len() == 0 {
        assert forall|i: int| 0 <= i < ids.len() implies drain_begun(
            registry,
        ).sessions.dom().contains(#[trigger] ids[i]) by {
            assert(ids.contains(ids[i]));
        }
    } else {
        lemma_drain_steps(registry, ends.drop_last());
        let (before, drain) = drain_steps(registry, ends.drop_last());
        let (after, _) = drain_steps(registry, ends);
        let at = ends.len() - 1;
        let id = ids[at];
        assert(before.sessions.dom().contains(id));
        assert forall|i: int| ends.len() <= i < ids.len() implies after.sessions.dom().contains(
            #[trigger] ids[i],
        ) by {
            assert(collections::name_less(ids[at], ids[i]));
            collections::lemma_name_less_irreflexive(ids[i]);
        }
    }
}

proof fn lemma_all_pending(sessions: Map<Seq<char>, HttpEntry>)
    requires
        sessions.dom().finite(),
        forall|n: Seq<char>| #[trigger]
            sessions.dom().contains(n) ==> sessions[n].state
                == ManagedHttpSessionState::CleanupPending,
    ensures
        pending_count(sessions) == sessions.dom().len(),
{
    collections::lemma_sorted_lists_all(sessions.dom());
    let names = collections::sorted(sessions.dom());
    lemma_pending_up_to(names, sessions, names.len() as int);
}

proof fn lemma_pending_up_to(names: Seq<Seq<char>>, sessions: Map<Seq<char>, HttpEntry>, upto: int)
    requires
        0 <= upto <= names.len(),
        forall|n: Seq<char>| #[trigger] names.contains(n) <==> sessions.dom().contains(n),
        forall|n: Seq<char>| #[trigger]
            sessions.dom().contains(n) ==> sessions[n].state
                == ManagedHttpSessionState::CleanupPending,
    ensures
        pending_of(names, sessions, upto) == upto,
    decreases upto,
{
    if upto > 0 {
        lemma_pending_up_to(names, sessions, upto - 1);
        assert(names.contains(names[upto - 1]));
    }
}

proof fn lemma_nothing_to_count()
    ensures
        reader_count(Map::<Seq<char>, HttpEntry>::empty()) == 0,
        pending_count(Map::<Seq<char>, HttpEntry>::empty()) == 0,
        collections::sorted(Map::<Seq<char>, HttpEntry>::empty().dom()).len() == 0,
{
    let none = Map::<Seq<char>, HttpEntry>::empty();
    assert(none.dom().len() == 0);
    collections::lemma_sorted_lists_all(none.dom());
}

/// However the shutdowns of its sessions end, and whenever the time is up, a
/// registry that was drained admits nothing any more, and every session that is
/// left waits for cleanup.
pub proof fn law_drains_leave_only_pending_sessions(
    registry: McpStreamableHttpSessionRegistry,
    ends: Seq<SessionEnd>,
)
    requires
        registry.wf(),
        ends.len() <= registry@.sessions.dom().len(),
    ensures
        ({
            let (after, drain) = drain_stopped(registry@, ends);
            let report = drain_report(after, drain);
            &&& after.admission_closed
            &&& session_refusal(after) is Some
            &&& after.sessions.dom().subset_of(registry@.sessions.dom())
            &&& pending_count(after.sessions) == after.sessions.dom().len()
            &&& report.admission_closed
            &&& report.cleanup_pending_after == report.sessions_after
            &&& report.attempted_sessions == ends.len()
            &&& report.sessions_before == registry@.sessions.dom().len()
            &&& report.sessions_after == after.sessions.dom().len()
            &&& report.drained_sessions + report.failed_sessions == report.sessions_before
        }),
{
    registry.lemma_count();
    lemma_drain_steps(registry@, ends);
    let (after, _) = drain_stopped(registry@, ends);
    vstd::set_lib::lemma_len_subset(after.sessions.dom(), registry@.sessions.dom());
    lemma_all_pending(after.sessions);
}

/// A drain that succeeds has taken every session in turn and removed it: nothing
/// is left, and a later drain that is in time succeeds too, with nothing to do.
pub proof fn law_successful_drains_remove_every_session(
    registry: McpStreamableHttpSessionRegistry,
    ends: Seq<SessionEnd>,
    expired: bool,
)
    requires
        registry.wf(),
        ends.len() <= registry@.sessions.dom().len(),
        ({
            let (after, drain) = drain_stopped(registry@, ends);
            drain_result(drain_report(after, drain), drain.first_error, expired) is Ok
        }),
    ensures
        ({
            let (after, drain) = drain_stopped(registry@, ends);
            let report = drain_report(after, drain);
            let (again, redrain) = drain_stopped(after, Seq::empty());
            let second = drain_report(again, redrain);
            &&& !expired
            &&& drain_result(report, drain.first_error, expired) == Ok::<
                McpHttpDrainReport,
                ErrorModel,
            >(report)
            &&& report.complete
            &&& report.sessions_before == registry@.sessions.dom().len()
            &&& report.attempted_sessions == report.sessions_before
            &&& report.drained_sessions == report.sessions_before
            &&& report.sessions_after == 0
            &&& report.readers_after == 0
            &&& report.cleanup_pending_after == 0
            &&& report.failed_sessions == 0
            &&& after.sessions == Map::<Seq<char>, HttpEntry>::empty()
            &&& drain_result(second, redrain.first_error, false) == Ok::<
                McpHttpDrainReport,
                ErrorModel,
            >(second)
            &&& second.sessions_before == 0
        }),
{
    registry.lemma_count();
    lemma_drain_steps(registry@, ends);
    collections::lemma_sorted_lists_all(registry@.sessions.dom());
    law_drains_leave_only_pending_sessions(registry, ends);
    let (after, drain) = drain_stopped(registry@, ends);
    law_drained_registries_are_empty(after, drain, expired, drain_report(after, drain));
    let ids = drain_of(registry@).session_ids;
    if ends.len() < ids.len() {
        assert(after.sessions.dom().contains(ids[ends.len() as int]));
    }
    lemma_nothing_to_count();
    assert(drain_begun(after).sessions =~= Map::<Seq<char>, HttpEntry>::empty());
}

/// A drain whose time is up fails, whatever it has come to.
pub proof fn law_late_drains_fail(registry: RegistryModel, drain: DrainModel)
    ensures
        drain_result(drain_report(registry, drain), drain.first_error, true) is Err,
{
}

} // verus!

//! What registries of sessions and streams let through, and what they keep.

use vstd::prelude::*;
use crate::collections;
use crate::error::ErrorModel;
use crate::http_registry;
use crate::http_registry::{
    AbortModel, HttpEntry, ManagedHttpSessionState, OutcomeModel, RegistryModel, ShutdownModel,
    StreamEntry, WaitModel,
};
use crate::lifecycle;
use crate::lifecycle::{McpSessionLifecycleStatus, McpStreamStatus, SessionEntry};
use crate::policy;
use crate::text;

verus! {

/// Whether a session may be used: it is registered and not fenced off.
pub open spec fn is_usable(registry: RegistryModel, session_id: Seq<char>) -> bool {
    registry.sessions.dom().contains(session_id) && registry.sessions[session_id].state
        == ManagedHttpSessionState::Active
}

/// Whether a name is not empty and holds no whitespace.
pub open spec fn is_steady(name: Seq<char>) -> bool {
    name.len() > 0 && forall|i: int| 0 <= i < name.len() ==> !text::is_whitespace(#[trigger] name[i])
}

/// A name is stable exactly if it is not empty and holds no whitespace anywhere.
pub proof fn law_stable_names(name: Seq<char>)
    ensures
        lifecycle::is_stable(name) <==> is_steady(name),
{
    if is_steady(name) {
        assert(!text::is_whitespace(name[0]) && !text::is_whitespace(name[name.len() - 1]));
        text::lemma_trimmed_stays(name);
        assert(!text::has_whitespace(name));
    }
    if lifecycle::is_stable(name) {
        assert forall|i: int| 0 <= i < name.len() implies !text::is_whitespace(
            #[trigger] name[i],
        ) by {
            assert(!text::has_whitespace(name));
        }
    }
}

/// A session is called exactly if it may be used and the registry is not being
/// drained; a stream of it is opened exactly if it may be used and has no stream of
/// that stable name; and something is taken from a stream exactly if the session may
/// be used and has the stream.
pub proof fn law_sessions_that_are_let_through(
    registry: RegistryModel,
    session_id: Seq<char>,
    stream_id: Seq<char>,
)
    ensures
        http_registry::call_refusal(registry, session_id) is None <==> is_usable(
            registry,
            session_id,
        ) && !registry.draining,
        http_registry::open_refusal(registry, session_id, stream_id) is None <==> is_usable(
            registry,
            session_id,
        ) && is_steady(stream_id) && !registry.sessions[session_id].streams.dom().contains(
            stream_id,
        ),
        http_registry::take_refusal(registry, session_id, stream_id) is None <==> is_usable(
            registry,
            session_id,
        ) && registry.sessions[session_id].streams.dom().contains(stream_id),
        http_registry::abort_refusal(registry, session_id, stream_id) is None
            <==> registry.sessions.dom().contains(session_id)
            && registry.sessions[session_id].streams.dom().contains(stream_id),
{
    law_stable_names(stream_id);
}

/// Sessions are admitted exactly until admission is closed, and one that is to start
/// here exactly if nothing was sent in it yet.
pub proof fn law_sessions_that_are_admitted(registry: RegistryModel, pristine: bool)
    ensures
        http_registry::session_refusal(registry) is None <==> !registry.admission_closed,
        http_registry::starting_refusal(registry, pristine) is None <==> !registry.admission_closed
            && pristine,
{
}

/// A session that was registered has an identifier of its own; it may be used if it
/// is ready, and is kept for cleanup alone if it is not. Others stay as they are.
pub proof fn law_registered_sessions(
    registry: RegistryModel,
    adapter: Seq<char>,
    ready: bool,
    other: Seq<char>,
)
    requires
        registry.next_session_id < u64::MAX,
    ensures
        ({
            let id = http_registry::registry_id(registry.next_session_id);
            let state = http_registry::entry_state(ready);
            let after = http_registry::registered(registry, adapter, state);
            let report = http_registry::registration_report(registry, adapter, state);
            &&& after.sessions.dom().contains(id)
            &&& is_usable(after, id) == ready
            &&& after.sessions[id].streams.dom() =~= Set::<Seq<char>>::empty()
            &&& after.sessions[id].adapter == adapter
            &&& after.next_session_id == registry.next_session_id + 1
            &&& other != id ==> after.sessions.dom().contains(other)
                == registry.sessions.dom().contains(other) && after.sessions[other]
                == registry.sessions[other]
            &&& report.session_id == id
            &&& report.status == if ready {
                McpSessionLifecycleStatus::Running
            } else {
                McpSessionLifecycleStatus::Orphaned
            }
            &&& after.admission_closed == registry.admission_closed
            &&& after.draining == registry.draining
        }),
{
}

/// Identifiers of different numbers differ.
pub proof fn law_identifiers_differ(a: u64, b: u64)
    requires
        a != b,
    ensures
        http_registry::registry_id(a) != http_registry::registry_id(b),
{
    let x = http_registry::registry_id(a);
    let y = http_registry::registry_id(b);
    let n = "mcp-http-session-"@.len() as int;
    if x == y {
        assert(x.skip(n) =~= text::decimal(a as nat));
        assert(y.skip(n) =~= text::decimal(b as nat));
        text::law_decimal_reads_back(a);
        text::law_decimal_reads_back(b);
    }
}

/// Whether a reader has stopped for good after the wait for it.
pub open spec fn has_stopped(stream: StreamEntry, outcome: OutcomeModel) -> bool {
    &&& !(outcome.wait is OutOfRange)
    &&& stream.joined || outcome.wait == (WaitModel::Joined { panicked: false })
}

/// The wait for a reader succeeds exactly if the reader was joined before or was
/// joined now without having panicked.
pub proof fn law_waits_succeed(stream: StreamEntry, outcome: OutcomeModel)
    ensures
        http_registry::after_wait(stream, outcome).1 is Ok <==> has_stopped(stream, outcome),
        http_registry::after_wait(stream, outcome).1 is Ok ==> http_registry::after_wait(
            stream,
            outcome,
        ).0.joined,
        stream.joined ==> http_registry::after_wait(stream, outcome).0.joined,
{
}

/// An abort whose socket was closed succeeds exactly if its stream is there, its
/// reader has stopped, and, where the session ends with it, the session was deleted.
pub proof fn law_aborts_succeed(
    registry: RegistryModel,
    abort: AbortModel,
    deleted: Option<ErrorModel>,
    outcome: OutcomeModel,
)
    ensures
        ({
            let (after, told) = http_registry::aborted(registry, abort, deleted, outcome);
            let there = registry.sessions.dom().contains(abort.session_id)
                && registry.sessions[abort.session_id].streams.dom().contains(abort.stream_id);
            &&& told is Ok <==> there && has_stopped(
                registry.sessions[abort.session_id].streams[abort.stream_id],
                outcome,
            ) && (abort.final_stream ==> deleted is None)
            &&& told matches Ok((report, receipt)) ==> {
                &&& report.status == McpStreamStatus::Aborted
                &&& report.session_id == abort.session_id
                &&& report.stream_id == abort.stream_id
                &&& receipt.socket_closed
                &&& receipt.reader_joined
                &&& receipt.session_deleted == abort.final_stream
                &&& abort.final_stream ==> !after.sessions.dom().contains(abort.session_id)
                &&& !abort.final_stream ==> after.sessions.dom().contains(abort.session_id)
                    && !after.sessions[abort.session_id].streams.dom().contains(abort.stream_id)
            }
        }),
{
}

proof fn lemma_joins(
    start: http_registry::JoinedModel,
    stream_ids: Seq<Seq<char>>,
    outcomes: Seq<OutcomeModel>,
    upto: int,
)
    requires
        !start.lost,
        collections::in_order(stream_ids),
        0 <= upto <= outcomes.len(),
        outcomes.len() == stream_ids.len(),
        forall|i: int| 0 <= i < stream_ids.len() ==> start.streams.dom().contains(
            #[trigger] stream_ids[i],
        ),
    ensures
        ({
            let after = http_registry::join_all(start, stream_ids, outcomes, upto);
            &&& !after.lost
            &&& after.streams.dom() == start.streams.dom()
            &&& forall|i: int|
                upto <= i < stream_ids.len() ==> after.streams[#[trigger] stream_ids[i]]
                    == start.streams[stream_ids[i]]
            &&& after.failure is None <==> start.failure is None && forall|i: int|
                0 <= i < upto ==> has_stopped(
                    start.streams[#[trigger] stream_ids[i]],
                    outcomes[i],
                )
        }),
    decreases upto,
{
    if upto > 0 {
        let n = upto - 1;
        lemma_joins(start, stream_ids, outcomes, n);
        let before = http_registry::join_all(start, stream_ids, outcomes, n);
        let after = http_registry::join_all(start, stream_ids, outcomes, upto);
        let id = stream_ids[n];
        assert(before.streams.dom().contains(id));
        law_waits_succeed(before.streams[id], outcomes[n]);
        assert(after.streams.dom() =~= start.streams.dom());
        assert forall|i: int| upto <= i < stream_ids.len() implies after.streams[
            #[trigger] stream_ids[i]] == start.streams[stream_ids[i]] by {
            assert(collections::name_less(stream_ids[n], stream_ids[i]));
            collections::lemma_name_less_irreflexive(stream_ids[i]);
        }
    }
}

/// A shutdown whose sockets were closed succeeds exactly if the session is there, it
/// was deleted, and every one of its readers has stopped; then the session is gone.
pub proof fn law_shutdowns_succeed(
    registry: RegistryModel,
    shutdown: ShutdownModel,
    deleted: Option<ErrorModel>,
    outcomes: Seq<OutcomeModel>,
)
    requires
        registry.sessions.dom().contains(shutdown.session_id),
        collections::in_order(shutdown.stream_ids),
        outcomes.len() == shutdown.stream_ids.len(),
        forall|i: int|
            0 <= i < outcomes.len()
                ==> registry.sessions[shutdown.session_id].streams.dom().contains(
                #[trigger] shutdown.stream_ids[i],
            ),
    ensures
        ({
            let (after, told) = http_registry::closed(registry, shutdown, deleted, outcomes);
            let streams = registry.sessions[shutdown.session_id].streams;
            &&& told is Ok <==> deleted is None && forall|i: int|
                0 <= i < outcomes.len() ==> has_stopped(
                    streams[#[trigger] shutdown.stream_ids[i]],
                    outcomes[i],
                )
            &&& told matches Ok(report) ==> report.status == McpSessionLifecycleStatus::Stopped
                && report.session_id == shutdown.session_id && !after.sessions.dom().contains(
                shutdown.session_id,
            )
            &&& told is Err ==> after.sessions.dom().contains(shutdown.session_id)
        }),
{
    let entry = registry.sessions[shutdown.session_id];
    let start = http_registry::JoinedModel {
        streams: entry.streams,
        failure: deleted,
        readers_joined: true,
        lost: false,
    };
    lemma_joins(start, shutdown.stream_ids, outcomes, outcomes.len() as int);
}

/// A process session starts a stream exactly if the name is stable, the session is
/// registered, and no stream of that name is running; it aborts one exactly if the
/// session has it.
pub proof fn law_process_streams(
    sessions: Map<Seq<char>, SessionEntry>,
    session_id: Seq<char>,
    stream_id: Seq<char>,
)
    ensures
        lifecycle::start_stream_refusal(sessions, session_id, stream_id) is None <==> is_steady(
            stream_id,
        ) && sessions.dom().contains(session_id) && !(sessions[session_id].streams.dom().contains(
            stream_id,
        ) && sessions[session_id].streams[stream_id] == McpStreamStatus::Running),
        lifecycle::abort_stream_refusal(sessions, session_id, stream_id) is None
            <==> sessions.dom().contains(session_id)
            && sessions[session_id].streams.dom().contains(stream_id),
{
    law_stable_names(stream_id);
}

/// A process session is listed and found with what it was registered with: it is
/// healthy exactly if it runs, and the streams that show are exactly those running.
pub proof fn law_sessions_show_what_they_are(session_id: Seq<char>, entry: SessionEntry)
    requires
        entry.streams.dom().finite(),
    ensures
        ({
            let health = lifecycle::health_of(session_id, entry);
            let shown = lifecycle::listed(session_id, entry);
            &&& health.healthy == entry.running
            &&& health.status == if entry.running {
                McpSessionLifecycleStatus::Running
            } else {
                McpSessionLifecycleStatus::Stopped
            }
            &&& health.session_id == session_id && shown.session_id == session_id
            &&& health.adapter == entry.adapter && shown.adapter == entry.adapter
            &&& shown.process_id == entry.process_id
            &&& shown.server_transport == entry.server_transport
            &&& health.active_streams == shown.active_streams
            &&& forall|n: Seq<char>| #[trigger]
                shown.active_streams.contains(n) <==> entry.streams.dom().contains(n)
                    && entry.streams[n] == McpStreamStatus::Running
        }),
{
    let running = lifecycle::running_streams(entry.streams);
    assert(running.subset_of(entry.streams.dom()));
    vstd::set_lib::lemma_set_subset_finite(entry.streams.dom(), running);
    collections::lemma_sorted_lists_all(running);
}

proof fn lemma_unjoined(names: Seq<Seq<char>>, streams: Map<Seq<char>, StreamEntry>, upto: int)
    requires
        0 <= upto <= names.len(),
    ensures
        http_registry::unjoined(names, streams, upto) == 0 <==> forall|i: int|
            0 <= i < upto ==> (streams[#[trigger] names[i]]).joined,
    decreases upto,
{
    if upto > 0 {
        lemma_unjoined(names, streams, upto - 1);
    }
}

/// No reader is left in a session exactly if every one of its streams was joined.
pub proof fn law_no_reader_is_left(entry: HttpEntry)
    requires
        entry.streams.dom().finite(),
    ensures
        http_registry::session_readers(entry) == 0 <==> forall|n: Seq<char>|
            entry.streams.dom().contains(n) ==> (#[trigger] entry.streams[n]).joined,
{
    let names = collections::sorted(entry.streams.dom());
    collections::lemma_sorted_lists_all(entry.streams.dom());
    lemma_unjoined(names, entry.streams, names.len() as int);
    if http_registry::session_readers(entry) == 0 {
        assert forall|n: Seq<char>|
            entry.streams.dom().contains(n) implies (#[trigger] entry.streams[n]).joined by {
            assert(names.contains(n));
            let i = choose|i: int| 0 <= i < names.len() && names[i] == n;
            assert((entry.streams[names[i]]).joined);
        }
    } else {
        let i = choose|i: int| 0 <= i < names.len() && !(entry.streams[#[trigger] names[i]]).joined;
        assert(names.contains(names[i]));
        assert(!entry.streams[names[i]].joined);
    }
}

/// The bytes that wait to be taken never pass the limit, and an item fits exactly if
/// they would not.
pub proof fn law_queued_bytes_are_bounded(current: usize, amount: usize, limit: usize)
    ensures
        http_registry::reserved(current, amount, limit) is Some <==> current + amount <= limit,
        http_registry::reserved(current, amount, limit) matches Some(next) ==> next == current
            + amount,
        http_registry::released(current, amount) + amount >= current,
        amount <= current ==> http_registry::released(current, amount) + amount == current,
        amount > current ==> http_registry::released(current, amount) == 0,
{
}

proof fn lemma_pending(names: Seq<Seq<char>>, sessions: Map<Seq<char>, HttpEntry>, upto: int)
    requires
        0 <= upto <= names.len(),
    ensures
        http_registry::pending_of(names, sessions, upto) <= upto,
        http_registry::pending_of(names, sessions, upto) == 0 <==> forall|i: int|
            0 <= i < upto ==> sessions[#[trigger] names[i]].state
                == ManagedHttpSessionState::Active,
        http_registry::pending_of(names, sessions, upto) == upto <==> forall|i: int|
            0 <= i < upto ==> sessions[#[trigger] names[i]].state
                == ManagedHttpSessionState::CleanupPending,
    decreases upto,
{
    if upto > 0 {
        lemma_pending(names, sessions, upto - 1);
        assert(sessions[names[upto - 1]].state == ManagedHttpSessionState::Active
            || sessions[names[upto - 1]].state == ManagedHttpSessionState::CleanupPending);
    }
}

/// No session waits for cleanup exactly if all may be used, and all wait exactly if
/// none may.
pub proof fn law_sessions_that_wait_for_cleanup(sessions: Map<Seq<char>, HttpEntry>)
    requires
        sessions.dom().finite(),
    ensures
        http_registry::pending_count(sessions) == 0 <==> forall|n: Seq<char>|
            sessions.dom().contains(n) ==> (#[trigger] sessions[n]).state
                == ManagedHttpSessionState::Active,
        http_registry::pending_count(sessions) == sessions.dom().len() <==> forall|n: Seq<char>|
            sessions.dom().contains(n) ==> (#[trigger] sessions[n]).state
                == ManagedHttpSessionState::CleanupPending,
{
    let names = collections::sorted(sessions.dom());
    collections::lemma_sorted_lists_all(sessions.dom());
    lemma_pending(names, sessions, names.len() as int);
    assert forall|n: Seq<char>| sessions.dom().contains(n) implies exists|i: int|
        0 <= i < names.len() && #[trigger] names[i] == n by {
        assert(names.contains(n));
    }
    assert forall|i: int| 0 <= i < names.len() implies sessions.dom().contains(
        #[trigger] names[i],
    ) by {
        assert(names.contains(names[i]));
    }
}

proof fn lemma_readers(names: Seq<Seq<char>>, sessions: Map<Seq<char>, HttpEntry>, upto: int)
    requires
        0 <= upto <= names.len(),
    ensures
        http_registry::readers_of(names, sessions, upto) == 0 <==> forall|i: int|
            0 <= i < upto ==> http_registry::session_readers(sessions[#[trigger] names[i]]) == 0,
    decreases upto,
{
    if upto > 0 {
        lemma_readers(names, sessions, upto - 1);
    }
}

/// No reader is left in a registry exactly if none is left in any of its sessions.
pub proof fn law_no_reader_is_left_anywhere(sessions: Map<Seq<char>, HttpEntry>)
    requires
        sessions.dom().finite(),
    ensures
        http_registry::reader_count(sessions) == 0 <==> forall|n: Seq<char>|
            sessions.dom().contains(n) ==> http_registry::session_readers(#[trigger] sessions[n])
                == 0,
{
    let names = collections::sorted(sessions.dom());
    collections::lemma_sorted_lists_all(sessions.dom());
    lemma_readers(names, sessions, names.len() as int);
    assert forall|n: Seq<char>| sessions.dom().contains(n) implies exists|i: int|
        0 <= i < names.len() && #[trigger] names[i] == n by {
        assert(names.contains(n));
    }
    assert forall|i: int| 0 <= i < names.len() implies sessions.dom().contains(
        #[trigger] names[i],
    ) by {
        assert(names.contains(names[i]));
    }
}

/// A drain goes through exactly if it ends in time with no session, no reader and no
/// cleanup left, and then reports these counts.
pub proof fn law_drains_that_go_through(
    registry: RegistryModel,
    drain: http_registry::DrainModel,
    expired: bool,
)
    ensures
        ({
            let report = http_registry::drain_report(registry, drain);
            let told = http_registry::drain_result(report, drain.first_error, expired);
            &&& told is Ok <==> !expired && registry.sessions.dom().len() == 0
                && http_registry::reader_count(registry.sessions) == 0
                && http_registry::pending_count(registry.sessions) == 0
            &&& told matches Ok(r) ==> {
                &&& r.sessions_before == drain.sessions_before
                &&& r.readers_before == drain.readers_before
                &&& r.cleanup_pending_before == drain.cleanup_pending_before
                &&& r.attempted_sessions == drain.attempted
                &&& r.drained_sessions == drain.sessions_before
                &&& r.failed_sessions == 0
                &&& r.sessions_after == 0 && r.readers_after == 0 && r.cleanup_pending_after == 0
                &&& r.admission_closed == registry.admission_closed
                &&& r.complete
            }
        }),
{
}

/// A text can stand in an allowlist exactly if it is not empty and holds no whitespace.
pub proof fn law_names_that_can_be_listed(field: Seq<char>, value: Seq<char>)
    ensures
        policy::token_refusal(field, value) is None <==> is_steady(value),
{
    law_stable_names(value);
    if is_steady(value) {
        assert(!text::has_whitespace(value));
        text::lemma_trimmed_stays(value);
    }
}

} // verus!

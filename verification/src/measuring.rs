//! What a measurement tells of the runs it was made from.

use vstd::prelude::*;
use crate::compatibility;
use crate::compatibility::{
    Entries, MatrixModel, McpCompatibilityEvidenceKind, McpTransportCompatibility,
    MeasurementModel, RunModel, TlsRunModel,
    COMPATIBILITY_PEER, COMPATIBILITY_TOOL,
};
use crate::http_session;
use crate::session::McpServerTransport;
use crate::text;

verus! {

/// Whether a text has the line of a key and its value.
pub open spec fn has_line(manifest: Seq<char>, key: Seq<char>, value: Seq<char>) -> bool {
    exists|at: int|
        (at == 0 || 0 < at < manifest.len() && manifest[at - 1] == '\n') && #[trigger]
        text::stands_at(manifest, key + "="@ + value + "\n"@, at)
}

/// A manifest is written exactly if every value can stand in it.
pub proof fn law_manifests_are_written(entries: Entries, upto: int)
    requires
        0 <= upto <= entries.len(),
    ensures
        compatibility::manifest_text(entries, upto) is Ok <==> forall|i: int|
            0 <= i < upto ==> compatibility::is_scalar_text((#[trigger] entries[i]).1),
    decreases upto,
{
    if upto > 0 {
        law_manifests_are_written(entries, upto - 1);
        if compatibility::manifest_text(entries, upto) is Ok {
            assert(compatibility::is_scalar_text(entries[upto - 1].1));
        }
    }
}

/// A manifest has the line of every entry.
pub proof fn law_manifests_have_a_line_for_each(entries: Entries, upto: int, i: int)
    requires
        0 <= i < upto <= entries.len(),
        compatibility::manifest_text(entries, upto) is Ok,
    ensures
        has_line(
            compatibility::manifest_text(entries, upto)->Ok_0,
            entries[i].0,
            entries[i].1,
        ),
        compatibility::manifest_text(entries, upto)->Ok_0.last() == '\n',
        compatibility::manifest_text(entries, upto)->Ok_0.len() > 0,
    decreases upto,
{
    reveal_strlit("\n");
    assert("\n"@.len() == 1 && "\n"@[0] == '\n');
    let before = compatibility::manifest_text(entries, upto - 1)->Ok_0;
    let (key, value) = entries[upto - 1];
    let line = key + "="@ + value + "\n"@;
    let manifest = compatibility::manifest_text(entries, upto)->Ok_0;
    assert(manifest =~= before + line);
    assert(manifest.last() == '\n');
    if upto > 1 {
        let j = if i < upto - 1 {
            i
        } else {
            0int
        };
        law_manifests_have_a_line_for_each(entries, upto - 1, j);
    }
    if i == upto - 1 {
        let at = before.len() as int;
        assert(manifest.subrange(at, at + line.len()) =~= line);
        assert(text::stands_at(manifest, line, at));
        if at > 0 {
            assert(manifest[at - 1] == before.last());
        }
    } else {
        let wanted = entries[i].0 + "="@ + entries[i].1 + "\n"@;
        let at = choose|at: int|
            (at == 0 || 0 < at < before.len() && before[at - 1] == '\n') && #[trigger]
            text::stands_at(before, wanted, at);
        assert(manifest.subrange(at, at + wanted.len()) =~= before.subrange(
            at,
            at + wanted.len(),
        ));
        assert(text::stands_at(manifest, wanted, at));
    }
}

/// Two runs are measured exactly if the second was cleaned up on both sides and made
/// a handshake, and everything that they report of the server can stand in the
/// manifest, with a version of the protocol that is not blank.
pub proof fn law_runs_that_are_measured(run: RunModel, tls_run: TlsRunModel)
    ensures
        compatibility::measurement_of(run, tls_run) is Ok <==> {
            &&& tls_run.stream_closed_before_delete
            &&& tls_run.delete_observed
            &&& tls_run.handshake_count > 0
            &&& tls_run.lifecycle.socket_closed
            &&& tls_run.lifecycle.session_deleted
            &&& tls_run.lifecycle.reader_joined
            &&& tls_run.lifecycle.sessions_after == 0
            &&& tls_run.lifecycle.readers_after == 0
            &&& tls_run.lifecycle.cleanup_pending_after == 0
            &&& compatibility::is_scalar_text(run.server_name)
            &&& compatibility::is_scalar_text(run.server_version)
            &&& compatibility::is_scalar_text(run.protocol_version)
            &&& compatibility::is_scalar_text(tls_run.tls_protocol)
            &&& text::trimmed(run.protocol_version).len() > 0
        },
{
    let entries = entries_of(run, tls_run);
    if compatibility::measurement_of(run, tls_run) is Ok {
        law_manifests_are_written(entries, entries.len() as int);
        assert(entries[2].1 == run.server_name);
        assert(entries[3].1 == run.server_version);
        assert(entries[4].1 == run.protocol_version);
        assert(entries[8].1 == tls_run.tls_protocol);
    }
    if tls_run.stream_closed_before_delete && tls_run.delete_observed
        && tls_run.handshake_count > 0 && tls_run.lifecycle.complete()
        && compatibility::is_scalar_text(run.server_name) && compatibility::is_scalar_text(
        run.server_version,
    ) && compatibility::is_scalar_text(run.protocol_version) && compatibility::is_scalar_text(
        tls_run.tls_protocol,
    ) && text::trimmed(run.protocol_version).len() > 0 {
        compatibility::law_complete_runs_are_measured(run, tls_run);
    }
}

spec fn entries_of(run: RunModel, tls_run: TlsRunModel) -> Entries {
    compatibility::manifest_entries(
        run,
        compatibility::tls_seen(tls_run),
        compatibility::digest_of(run.schema_bytes),
        compatibility::digest_of(run.output_bytes),
        compatibility::all_seen(),
        compatibility::abort_seen(tls_run),
    )
}

/// The label of the digest of some bytes.
pub open spec fn label_of(bytes: Seq<u8>) -> Seq<char> {
    "sha256:"@ + crate::server_rpc::hex_text(compatibility::sha256(bytes))
}

/// A measurement names the server and the versions that the run saw, the digests and
/// the lengths of the schema and the output, the handshakes, and a clean abort.
pub proof fn law_measurements_tell_what_was_seen(run: RunModel, tls_run: TlsRunModel)
    requires
        compatibility::measurement_of(run, tls_run) is Ok,
        run.schema_bytes.len() <= usize::MAX,
        run.output_bytes.len() <= usize::MAX,
    ensures
        ({
            let m = compatibility::measurement_of(run, tls_run)->Ok_0;
            &&& m.server_name == run.server_name
            &&& m.server_version == run.server_version
            &&& m.protocol_version == run.protocol_version
            &&& m.transport == McpServerTransport::StreamableHttp
            &&& m.tool_name == COMPATIBILITY_TOOL@
            &&& m.tls.handshake_completed
            &&& m.tls.handshake_count == tls_run.handshake_count
            &&& m.tls.protocol == tls_run.tls_protocol
            &&& m.tls.peer_name == COMPATIBILITY_PEER@
            &&& m.schema.sha256 == label_of(run.schema_bytes)
            &&& m.schema.bytes == run.schema_bytes.len()
            &&& m.output.sha256 == label_of(run.output_bytes)
            &&& m.output.bytes == run.output_bytes.len()
            &&& m.observations.initialize_server_info
            &&& m.observations.tools_list_schema
            &&& m.observations.tools_call_result
            &&& m.abort == tls_run.lifecycle
            &&& m.canonical_digest == label_of(vstd::utf8::encode_utf8(m.canonical_manifest))
            &&& m.matrix.evidence_kind == McpCompatibilityEvidenceKind::Measurement
            &&& m.matrix.protocol_version == run.protocol_version
            &&& m.matrix.transports.len() == 1
            &&& m.matrix.transports[0].transport == McpServerTransport::StreamableHttp
            &&& m.matrix.tool_schemas.len() == 1
            &&& m.matrix.tool_schemas[0].tool == COMPATIBILITY_TOOL@
            &&& m.matrix.tool_schemas[0].input_schema == m.schema.sha256
            &&& m.matrix.tool_schemas[0].output_content == m.output.sha256
            &&& m.matrix.stream_lifecycle.dangling_sessions_after_abort == 0
            &&& m.matrix.stream_lifecycle.abort && m.matrix.stream_lifecycle.cleanup
        }),
{
}

/// The manifest of a measurement has a line for each of the things that it tells.
pub proof fn law_manifests_tell_what_was_seen(run: RunModel, tls_run: TlsRunModel)
    requires
        compatibility::measurement_of(run, tls_run) is Ok,
        run.schema_bytes.len() <= usize::MAX,
        run.output_bytes.len() <= usize::MAX,
    ensures
        ({
            let manifest = compatibility::measurement_of(run, tls_run)->Ok_0.canonical_manifest;
            &&& has_line(manifest, "evidence_kind"@, "measurement"@)
            &&& has_line(manifest, "server_name"@, run.server_name)
            &&& has_line(manifest, "server_version"@, run.server_version)
            &&& has_line(manifest, "protocol_version"@, run.protocol_version)
            &&& has_line(manifest, "transport"@, "streamable_http"@)
            &&& has_line(manifest, "tls_handshake_completed"@, "true"@)
            &&& has_line(manifest, "tls_peer_name"@, COMPATIBILITY_PEER@)
            &&& has_line(manifest, "tls_protocol"@, tls_run.tls_protocol)
            &&& has_line(
                manifest,
                "tls_handshake_count"@,
                text::decimal(tls_run.handshake_count as nat),
            )
            &&& has_line(manifest, "tool_name"@, COMPATIBILITY_TOOL@)
            &&& has_line(manifest, "schema_sha256"@, label_of(run.schema_bytes))
            &&& has_line(manifest, "schema_bytes"@, text::decimal(run.schema_bytes.len()))
            &&& has_line(manifest, "output_sha256"@, label_of(run.output_bytes))
            &&& has_line(manifest, "output_bytes"@, text::decimal(run.output_bytes.len()))
            &&& has_line(manifest, "abort_socket_closed"@, "true"@)
            &&& has_line(manifest, "abort_session_deleted"@, "true"@)
            &&& has_line(manifest, "abort_reader_joined"@, "true"@)
            &&& has_line(manifest, "abort_sessions_after"@, text::decimal(0))
            &&& has_line(manifest, "abort_readers_after"@, text::decimal(0))
            &&& has_line(manifest, "abort_cleanup_pending_after"@, text::decimal(0))
        }),
{
    let entries = entries_of(run, tls_run);
    let n = entries.len() as int;
    law_manifests_have_a_line_for_each(entries, n, 1);
    law_manifests_have_a_line_for_each(entries, n, 2);
    law_manifests_have_a_line_for_each(entries, n, 3);
    law_manifests_have_a_line_for_each(entries, n, 4);
    law_manifests_have_a_line_for_each(entries, n, 5);
    law_manifests_have_a_line_for_each(entries, n, 6);
    law_manifests_have_a_line_for_each(entries, n, 7);
    law_manifests_have_a_line_for_each(entries, n, 8);
    law_manifests_have_a_line_for_each(entries, n, 9);
    law_manifests_have_a_line_for_each(entries, n, 10);
    law_manifests_have_a_line_for_each(entries, n, 11);
    law_manifests_have_a_line_for_each(entries, n, 12);
    law_manifests_have_a_line_for_each(entries, n, 13);
    law_manifests_have_a_line_for_each(entries, n, 14);
    law_manifests_have_a_line_for_each(entries, n, 18);
    law_manifests_have_a_line_for_each(entries, n, 19);
    law_manifests_have_a_line_for_each(entries, n, 20);
    law_manifests_have_a_line_for_each(entries, n, 21);
    law_manifests_have_a_line_for_each(entries, n, 22);
    law_manifests_have_a_line_for_each(entries, n, 23);
}

/// A measurement is verified exactly if its manifest has its digest, everything was
/// seen, the abort left nothing, it is a measurement, and its matrix names a version
/// and lacks nothing.
pub proof fn law_measurements_that_verify(m: MeasurementModel)
    ensures
        compatibility::verification_of(m) is Ok <==> {
            &&& m.canonical_digest == label_of(vstd::utf8::encode_utf8(m.canonical_manifest))
            &&& m.tls.handshake_completed
            &&& m.observations.initialize_server_info && m.observations.tools_list_schema
                && m.observations.tools_call_result
            &&& m.abort.socket_closed && m.abort.session_deleted && m.abort.reader_joined
            &&& m.abort.sessions_after == 0 && m.abort.readers_after == 0
                && m.abort.cleanup_pending_after == 0
            &&& m.matrix.evidence_kind == McpCompatibilityEvidenceKind::Measurement
            &&& !text::all_whitespace(m.matrix.protocol_version)
            &&& compatibility::failures_of(m.matrix) == Seq::<Seq<char>>::empty()
        },
{
    let version = m.matrix.protocol_version;
    let (from, to) = text::law_trimmed_stands_between_whitespace(version);
    if text::all_whitespace(version) && text::trimmed(version).len() > 0 {
        assert(text::trimmed(version)[0] == version[from]);
    }
    if text::trimmed(version).len() == 0 {
        assert forall|i: int| 0 <= i < version.len() implies text::is_whitespace(
            #[trigger] version[i],
        ) by {
            if i < from {
                assert(version.take(from)[i] == version[i]);
            } else {
                assert(version.skip(to)[i - to] == version[i]);
            }
        }
    }
    if compatibility::failures_of(m.matrix).len() == 0 {
        assert(compatibility::failures_of(m.matrix) =~= Seq::<Seq<char>>::empty());
    }
}

// ---------------------------------------------------------------------------
// Notes
// ---------------------------------------------------------------------------

proof fn lemma_front_cancels(front: Seq<char>, a: Seq<char>, b: Seq<char>)
    requires
        front + a == front + b,
    ensures
        a == b,
{
    let n = front.len() as int;
    assert((front + a).skip(n) =~= a);
    assert((front + b).skip(n) =~= b);
}

proof fn lemma_flag_in_front(x: bool, a: Seq<char>, y: bool, b: Seq<char>)
    requires
        http_session::bool_text(x) + a == http_session::bool_text(y) + b,
    ensures
        x == y,
        a == b,
{
    reveal_strlit("true");
    reveal_strlit("false");
    assert((http_session::bool_text(x) + a)[0] == http_session::bool_text(x)[0]);
    assert((http_session::bool_text(y) + b)[0] == http_session::bool_text(y)[0]);
    lemma_front_cancels(http_session::bool_text(x), a, b);
}

proof fn lemma_transport_in_front(
    x: McpServerTransport,
    a: Seq<char>,
    y: McpServerTransport,
    b: Seq<char>,
)
    requires
        x.name() + a == y.name() + b,
    ensures
        x == y,
        a == b,
{
    reveal_strlit("stdio");
    reveal_strlit("http");
    reveal_strlit("streamable_http");
    let p = x.name() + a;
    let q = y.name() + b;
    assert(p[0] == x.name()[0] && p[2] == x.name()[2]);
    assert(q[0] == y.name()[0] && q[2] == y.name()[2]);
    lemma_front_cancels(x.name(), a, b);
}

spec fn flag_and(x: bool, rest: Seq<char>) -> Seq<char> {
    http_session::bool_text(x) + rest
}

spec fn note_from_limits(e: McpTransportCompatibility) -> Seq<char> {
    flag_and(
        e.timeout_and_output_limits,
        ",stream_lifecycle="@ + http_session::bool_text(e.stream_lifecycle),
    )
}

spec fn note_from_headers(e: McpTransportCompatibility) -> Seq<char> {
    flag_and(e.auth_headers, ",limits="@ + note_from_limits(e))
}

spec fn note_from_rpc(e: McpTransportCompatibility) -> Seq<char> {
    flag_and(e.json_rpc, ",auth_headers="@ + note_from_headers(e))
}

#[verifier::spinoff_prover]
#[verifier::rlimit(40)]
proof fn lemma_note_parts(e: McpTransportCompatibility)
    ensures
        compatibility::transport_note(e) == "mcp.transport:"@ + (e.transport.name() + (":json_rpc="@
            + note_from_rpc(e))),
{
    let a = "mcp.transport:"@;
    let n = e.transport.name();
    let b = ":json_rpc="@;
    let x = http_session::bool_text(e.json_rpc);
    let c = ",auth_headers="@;
    let y = http_session::bool_text(e.auth_headers);
    let d = ",limits="@;
    let z = http_session::bool_text(e.timeout_and_output_limits);
    let f = ",stream_lifecycle="@;
    let w = http_session::bool_text(e.stream_lifecycle);
    let p0 = a + n;
    let p1 = p0 + b;
    let p2 = p1 + x;
    let p3 = p2 + c;
    let p4 = p3 + y;
    let p5 = p4 + d;
    let p6 = p5 + z;
    let r6 = f + w;
    let r5 = z + r6;
    let r4 = d + r5;
    let r3 = y + r4;
    let r2 = c + r3;
    let r1 = x + r2;
    let r0 = b + r1;
    lemma_grouped(p6, f, w);
    lemma_grouped(p5, z, r6);
    lemma_grouped(p4, d, r5);
    lemma_grouped(p3, y, r4);
    lemma_grouped(p2, c, r3);
    lemma_grouped(p1, x, r2);
    lemma_grouped(p0, b, r1);
    lemma_grouped(a, n, r0);
}

proof fn lemma_grouped(a: Seq<char>, b: Seq<char>, c: Seq<char>)
    ensures
        a + b + c == a + (b + c),
{
    assert(a + b + c =~= a + (b + c));
}

/// The note on a transport tells all that is known of it: transports that differ in
/// anything are noted differently.
pub proof fn law_notes_tell_everything(a: McpTransportCompatibility, b: McpTransportCompatibility)
    requires
        compatibility::transport_note(a) == compatibility::transport_note(b),
    ensures
        a == b,
{
    lemma_note_parts(a);
    lemma_note_parts(b);
    lemma_front_cancels(
        "mcp.transport:"@,
        a.transport.name() + (":json_rpc="@ + note_from_rpc(a)),
        b.transport.name() + (":json_rpc="@ + note_from_rpc(b)),
    );
    lemma_transport_in_front(
        a.transport,
        ":json_rpc="@ + note_from_rpc(a),
        b.transport,
        ":json_rpc="@ + note_from_rpc(b),
    );
    lemma_front_cancels(":json_rpc="@, note_from_rpc(a), note_from_rpc(b));
    lemma_flag_in_front(
        a.json_rpc,
        ",auth_headers="@ + note_from_headers(a),
        b.json_rpc,
        ",auth_headers="@ + note_from_headers(b),
    );
    lemma_front_cancels(",auth_headers="@, note_from_headers(a), note_from_headers(b));
    lemma_flag_in_front(
        a.auth_headers,
        ",limits="@ + note_from_limits(a),
        b.auth_headers,
        ",limits="@ + note_from_limits(b),
    );
    lemma_front_cancels(",limits="@, note_from_limits(a), note_from_limits(b));
    let f = ",stream_lifecycle="@;
    let v = http_session::bool_text(a.stream_lifecycle);
    let w = http_session::bool_text(b.stream_lifecycle);
    lemma_flag_in_front(a.timeout_and_output_limits, f + v, b.timeout_and_output_limits, f + w);
    lemma_front_cancels(f, v, w);
    assert(v + Seq::<char>::empty() =~= v);
    assert(w + Seq::<char>::empty() =~= w);
    lemma_flag_in_front(a.stream_lifecycle, Seq::empty(), b.stream_lifecycle, Seq::empty());
}

/// A check notes the version, how many transports and schemas there are, and each
/// transport in its order.
pub proof fn law_checks_note_what_they_saw(matrix: MatrixModel, i: int)
    requires
        0 <= i < matrix.transports.len(),
    ensures
        ({
            let audit = compatibility::conclusion_of(matrix).audit;
            &&& audit.len() == 5 + matrix.transports.len()
            &&& audit[0] == "mcp.protocol_version:"@ + matrix.protocol_version
            &&& audit[1] == "mcp.transport_count:"@ + text::decimal(matrix.transports.len())
            &&& audit[2] == "mcp.tool_schema_count:"@ + text::decimal(matrix.tool_schemas.len())
            &&& audit[5 + i] == compatibility::transport_note(matrix.transports[i])
        }),
{
}

} // verus!

//! What a compatibility check of servers looks at, and what it concludes.

use vstd::prelude::*;
use vstd::string::*;
use vstd::utf8::*;
use crate::error::{ErrorKind, ErrorModel, EvaError};
use crate::http_registry::{McpHttpAbortReceipt, ReceiptModel};
use crate::http_session;
use crate::http_session::bool_str;
use crate::json;
use crate::json_text;
use crate::server_rpc;
use crate::server_rpc::hex_string;
use crate::session::McpServerTransport;
use crate::text;
use crate::text::{chars_of, decimal_u64, decimal_usize, str_eq, trim};

verus! {

pub const RESPONSIBILITY: &'static str =
    "MCP transport, schema, and stream lifecycle compatibility matrix";

pub const COMPATIBILITY_FORMAT: &'static str = "eva.mcp-compatibility.v1";

/// The tool that a measurement calls.
pub const COMPATIBILITY_TOOL: &'static str = "compat.echo";

/// The name by which a measurement addresses its server.
pub const COMPATIBILITY_PEER: &'static str = "127.0.0.1";

// ---------------------------------------------------------------------------
// The matrix
// ---------------------------------------------------------------------------

/// Where compatibility data comes from.
#[derive(Debug, Clone, Copy, PartialEq, Eq, Structural)]
pub enum McpCompatibilityEvidenceKind {
    /// It was written down.
    Fixture,
    /// A server was run.
    Measurement,
}

impl McpCompatibilityEvidenceKind {
    /// The stable name of the origin.
    pub open spec fn name(self) -> Seq<char> {
        match self {
            McpCompatibilityEvidenceKind::Fixture => "fixture"@,
            McpCompatibilityEvidenceKind::Measurement => "measurement"@,
        }
    }

    pub fn as_str(self) -> (name: &'static str)
        ensures
            name@ == self.name(),
    {
        match self {
            McpCompatibilityEvidenceKind::Fixture => "fixture",
            McpCompatibilityEvidenceKind::Measurement => "measurement",
        }
    }
}

#[derive(Debug, Clone, PartialEq, Eq)]
pub struct McpTransportCompatibility {
    pub transport: McpServerTransport,
    pub json_rpc: bool,
    pub auth_headers: bool,
    pub timeout_and_output_limits: bool,
    pub stream_lifecycle: bool,
}

#[derive(Debug, Clone, PartialEq, Eq)]
pub struct McpToolSchemaCompatibility {
    pub tool: String,
    pub input_schema: String,
    pub output_content: String,
    pub schema_checked: bool,
}

/// What is known of the schema of a tool.
#[verifier::ext_equal]
pub struct SchemaEntry {
    pub tool: Seq<char>,
    pub input_schema: Seq<char>,
    pub output_content: Seq<char>,
    pub schema_checked: bool,
}

impl View for McpToolSchemaCompatibility {
    type V = SchemaEntry;

    open spec fn view(&self) -> SchemaEntry {
        SchemaEntry {
            tool: self.tool@,
            input_schema: self.input_schema@,
            output_content: self.output_content@,
            schema_checked: self.schema_checked,
        }
    }
}

/// What is known of the schemas of tools.
pub open spec fn schema_entries(schemas: Seq<McpToolSchemaCompatibility>) -> Seq<SchemaEntry> {
    schemas.map_values(|s: McpToolSchemaCompatibility| s@)
}

#[derive(Debug, Clone, PartialEq, Eq)]
pub struct McpStreamLifecycleCompatibility {
    pub start: bool,
    pub abort: bool,
    pub cleanup: bool,
    pub dangling_sessions_after_abort: u32,
}

#[derive(Debug, Clone, PartialEq, Eq)]
pub struct McpServerSurfaceCompatibility {
    pub explicit_tool_gate: bool,
    pub unlimited_proxy_exposed: bool,
}

/// What is known of the compatibility of servers.
#[derive(Debug, Clone, PartialEq, Eq)]
pub struct McpCompatibilityMatrix {
    evidence_kind: McpCompatibilityEvidenceKind,
    pub protocol_version: String,
    pub transports: Vec<McpTransportCompatibility>,
    pub tool_schemas: Vec<McpToolSchemaCompatibility>,
    pub stream_lifecycle: McpStreamLifecycleCompatibility,
    pub server_surface: McpServerSurfaceCompatibility,
}

/// What is known of the compatibility of servers.
#[verifier::ext_equal]
pub struct MatrixModel {
    pub evidence_kind: McpCompatibilityEvidenceKind,
    pub protocol_version: Seq<char>,
    pub transports: Seq<McpTransportCompatibility>,
    pub tool_schemas: Seq<SchemaEntry>,
    pub stream_lifecycle: McpStreamLifecycleCompatibility,
    pub server_surface: McpServerSurfaceCompatibility,
}

impl View for McpCompatibilityMatrix {
    type V = MatrixModel;

    closed spec fn view(&self) -> MatrixModel {
        MatrixModel {
            evidence_kind: self.evidence_kind,
            protocol_version: self.protocol_version@,
            transports: self.transports@,
            tool_schemas: schema_entries(self.tool_schemas@),
            stream_lifecycle: self.stream_lifecycle,
            server_surface: self.server_surface,
        }
    }
}

/// What a check of the compatibility has concluded.
#[verifier::ext_equal]
pub struct CompatibilityModel {
    pub evidence_kind: McpCompatibilityEvidenceKind,
    pub protocol_version: Seq<char>,
    pub status: Seq<char>,
    pub transport_count: usize,
    pub tool_schema_count: usize,
    pub failures: Seq<Seq<char>>,
    pub audit: Seq<Seq<char>>,
}

#[derive(Debug, Clone, PartialEq, Eq)]
pub struct McpCompatibilityReport {
    evidence_kind: McpCompatibilityEvidenceKind,
    pub protocol_version: String,
    pub status: String,
    pub transport_count: usize,
    pub tool_schema_count: usize,
    pub failures: Vec<String>,
    pub audit: Vec<String>,
}

impl View for McpCompatibilityReport {
    type V = CompatibilityModel;

    closed spec fn view(&self) -> CompatibilityModel {
        CompatibilityModel {
            evidence_kind: self.evidence_kind,
            protocol_version: self.protocol_version@,
            status: self.status@,
            transport_count: self.transport_count,
            tool_schema_count: self.tool_schema_count,
            failures: text::texts(self.failures@),
            audit: text::texts(self.audit@),
        }
    }
}

impl McpCompatibilityReport {
    pub fn evidence_kind(&self) -> (kind: McpCompatibilityEvidenceKind)
        ensures
            kind == self@.evidence_kind,
    {
        self.evidence_kind
    }
}

/// The text alone, where the condition holds.
pub open spec fn listed_if(condition: bool, item: Seq<char>) -> Seq<Seq<char>> {
    if condition {
        seq![item]
    } else {
        Seq::empty()
    }
}

/// The transports that lack limits, each as a failure.
pub open spec fn limit_failures(transports: Seq<McpTransportCompatibility>) -> Seq<Seq<char>>
    decreases transports.len(),
{
    if transports.len() == 0 {
        Seq::empty()
    } else {
        limit_failures(transports.drop_last()) + listed_if(
            !transports.last().timeout_and_output_limits,
            "transport:"@ + transports.last().transport.name() + "_limits_missing"@,
        )
    }
}

/// The transports whose streams are not cleaned up, each as a failure.
pub open spec fn stream_failures(transports: Seq<McpTransportCompatibility>) -> Seq<Seq<char>>
    decreases transports.len(),
{
    if transports.len() == 0 {
        Seq::empty()
    } else {
        stream_failures(transports.drop_last()) + listed_if(
            !transports.last().stream_lifecycle,
            "transport:"@ + transports.last().transport.name() + "_stream_lifecycle_missing"@,
        )
    }
}

/// The tools whose schema was not checked, each as a failure.
pub open spec fn schema_failures(schemas: Seq<SchemaEntry>) -> Seq<Seq<char>>
    decreases schemas.len(),
{
    if schemas.len() == 0 {
        Seq::empty()
    } else {
        schema_failures(schemas.drop_last()) + listed_if(
            !schemas.last().schema_checked,
            "tool_schema:"@ + schemas.last().tool + "_unchecked"@,
        )
    }
}

/// Whether a process speaks JSON-RPC.
pub open spec fn stdio_speaks(transports: Seq<McpTransportCompatibility>) -> bool {
    exists|i: int|
        0 <= i < transports.len() && (#[trigger] transports[i]).transport
            == McpServerTransport::Stdio && transports[i].json_rpc
}

/// Whether an HTTP server speaks JSON-RPC.
pub open spec fn http_speaks(transports: Seq<McpTransportCompatibility>) -> bool {
    exists|i: int|
        0 <= i < transports.len() && (#[trigger] transports[i]).transport.speaks_http()
            && transports[i].json_rpc
}

/// Whether an HTTP server takes authorization headers.
pub open spec fn http_authorizes(transports: Seq<McpTransportCompatibility>) -> bool {
    exists|i: int|
        0 <= i < transports.len() && (#[trigger] transports[i]).transport.speaks_http()
            && transports[i].auth_headers
}

/// What keeps servers from being compatible.
pub open spec fn failures_of(matrix: MatrixModel) -> Seq<Seq<char>> {
    let fixture = matrix.evidence_kind == McpCompatibilityEvidenceKind::Fixture;
    let lifecycle = matrix.stream_lifecycle;
    listed_if(
        fixture && !stdio_speaks(matrix.transports),
        "transport:stdio_json_rpc_missing"@,
    ) + listed_if(!http_speaks(matrix.transports), "transport:http_json_rpc_missing"@) + listed_if(
        fixture && !http_authorizes(matrix.transports),
        "transport:http_auth_headers_missing"@,
    ) + limit_failures(matrix.transports) + stream_failures(matrix.transports) + listed_if(
        matrix.tool_schemas.len() == 0,
        "tool_schema:matrix_empty"@,
    ) + schema_failures(matrix.tool_schemas) + listed_if(
        !lifecycle.start,
        "stream_lifecycle:start_missing"@,
    ) + listed_if(!lifecycle.abort, "stream_lifecycle:abort_missing"@) + listed_if(
        !lifecycle.cleanup,
        "stream_lifecycle:cleanup_missing"@,
    ) + listed_if(
        lifecycle.dangling_sessions_after_abort > 0,
        "stream_lifecycle:dangling_sessions:"@ + text::decimal(
            lifecycle.dangling_sessions_after_abort as nat,
        ),
    ) + listed_if(
        !matrix.server_surface.explicit_tool_gate,
        "server_surface:explicit_tool_gate_missing"@,
    ) + listed_if(
        matrix.server_surface.unlimited_proxy_exposed,
        "server_surface:unlimited_proxy_exposed"@,
    )
}

/// How a transport is noted.
pub open spec fn transport_note(entry: McpTransportCompatibility) -> Seq<char> {
    "mcp.transport:"@ + entry.transport.name() + ":json_rpc="@ + http_session::bool_text(
        entry.json_rpc,
    ) + ",auth_headers="@ + http_session::bool_text(entry.auth_headers) + ",limits="@
        + http_session::bool_text(entry.timeout_and_output_limits) + ",stream_lifecycle="@
        + http_session::bool_text(entry.stream_lifecycle)
}

/// What a check notes.
pub open spec fn audit_of(matrix: MatrixModel) -> Seq<Seq<char>> {
    let lifecycle = matrix.stream_lifecycle;
    seq![
        "mcp.protocol_version:"@ + matrix.protocol_version,
        "mcp.transport_count:"@ + text::decimal(matrix.transports.len()),
        "mcp.tool_schema_count:"@ + text::decimal(matrix.tool_schemas.len()),
        "mcp.stream_lifecycle:start="@ + http_session::bool_text(lifecycle.start) + ",abort="@
            + http_session::bool_text(lifecycle.abort) + ",cleanup="@ + http_session::bool_text(
            lifecycle.cleanup,
        ),
        "mcp.server_surface:explicit_tool_gate="@ + http_session::bool_text(
            matrix.server_surface.explicit_tool_gate,
        ),
    ] + matrix.transports.map_values(|e: McpTransportCompatibility| transport_note(e))
}

/// What a check of the matrix concludes.
pub open spec fn conclusion_of(matrix: MatrixModel) -> CompatibilityModel {
    CompatibilityModel {
        evidence_kind: matrix.evidence_kind,
        protocol_version: matrix.protocol_version,
        status: if failures_of(matrix).len() == 0 {
            "compatible"@
        } else {
            "blocked"@
        },
        transport_count: matrix.transports.len() as usize,
        tool_schema_count: matrix.tool_schemas.len() as usize,
        failures: failures_of(matrix),
        audit: audit_of(matrix),
    }
}

fn list_if(list: &mut Vec<String>, condition: bool, item: &str)
    ensures
        text::texts(final(list)@) == text::texts(old(list)@) + listed_if(condition, item@),
{
    if condition {
        list.push(item.to_owned());
    }
    assert(text::texts(list@) =~= text::texts(old(list)@) + listed_if(condition, item@));
}

/// Three texts behind each other.
fn joined(a: &str, b: &str, c: &str) -> (out: String)
    ensures
        out@ == a@ + b@ + c@,
{
    let mut out = String::new();
    out.append(a);
    out.append(b);
    out.append(c);
    assert(out@ =~= a@ + b@ + c@);
    out
}

fn list_limit_failures(list: &mut Vec<String>, transports: &Vec<McpTransportCompatibility>)
    ensures
        text::texts(final(list)@) == text::texts(old(list)@) + limit_failures(transports@),
{
    let ghost before = text::texts(list@);
    let mut i: usize = 0;
    assert(transports@.take(0) =~= Seq::<McpTransportCompatibility>::empty());
    assert(before + Seq::<Seq<char>>::empty() =~= before);
    while i < transports.len()
        invariant
            i <= transports@.len(),
            text::texts(list@) == before + limit_failures(transports@.take(i as int)),
        decreases transports@.len() - i,
    {
        let entry = &transports[i];
        let ghost so_far = text::texts(list@);
        let ghost upto = transports@.take(i + 1);
        let failure = joined("transport:", entry.transport.as_str(), "_limits_missing");
        list_if(list, !entry.timeout_and_output_limits, failure.as_str());
        proof {
            assert(upto.drop_last() =~= transports@.take(i as int));
            assert(upto.last() == *entry);
            assert(text::texts(list@) =~= before + limit_failures(upto));
        }
        i += 1;
    }
    assert(transports@.take(i as int) =~= transports@);
}

fn list_stream_failures(list: &mut Vec<String>, transports: &Vec<McpTransportCompatibility>)
    ensures
        text::texts(final(list)@) == text::texts(old(list)@) + stream_failures(transports@),
{
    let ghost before = text::texts(list@);
    let mut i: usize = 0;
    assert(transports@.take(0) =~= Seq::<McpTransportCompatibility>::empty());
    assert(before + Seq::<Seq<char>>::empty() =~= before);
    while i < transports.len()
        invariant
            i <= transports@.len(),
            text::texts(list@) == before + stream_failures(transports@.take(i as int)),
        decreases transports@.len() - i,
    {
        let entry = &transports[i];
        let ghost upto = transports@.take(i + 1);
        let failure = joined("transport:", entry.transport.as_str(), "_stream_lifecycle_missing");
        list_if(list, !entry.stream_lifecycle, failure.as_str());
        proof {
            assert(upto.drop_last() =~= transports@.take(i as int));
            assert(upto.last() == *entry);
            assert(text::texts(list@) =~= before + stream_failures(upto));
        }
        i += 1;
    }
    assert(transports@.take(i as int) =~= transports@);
}

fn list_schema_failures(list: &mut Vec<String>, schemas: &Vec<McpToolSchemaCompatibility>)
    ensures
        text::texts(final(list)@) == text::texts(old(list)@) + schema_failures(
            schema_entries(schemas@),
        ),
{
    let ghost before = text::texts(list@);
    let ghost entries = schema_entries(schemas@);
    let mut i: usize = 0;
    assert(entries.take(0) =~= Seq::<SchemaEntry>::empty());
    assert(before + Seq::<Seq<char>>::empty() =~= before);
    while i < schemas.len()
        invariant
            i <= schemas@.len(),
            entries == schema_entries(schemas@),
            text::texts(list@) == before + schema_failures(entries.take(i as int)),
        decreases schemas@.len() - i,
    {
        let entry = &schemas[i];
        let ghost upto = entries.take(i + 1);
        let failure = joined("tool_schema:", entry.tool.as_str(), "_unchecked");
        list_if(list, !entry.schema_checked, failure.as_str());
        proof {
            assert(upto.drop_last() =~= entries.take(i as int));
            assert(upto.last() == entry@);
            assert(text::texts(list@) =~= before + schema_failures(upto));
        }
        i += 1;
    }
    assert(entries.take(i as int) =~= entries);
}

/// What the transports can do: whether a process speaks JSON-RPC, whether an
/// HTTP server does, and whether one takes authorization headers.
fn capabilities(transports: &Vec<McpTransportCompatibility>) -> (found: (bool, bool, bool))
    ensures
        found.0 == stdio_speaks(transports@),
        found.1 == http_speaks(transports@),
        found.2 == http_authorizes(transports@),
{
    let mut stdio: bool = false;
    let mut http: bool = false;
    let mut authorizes: bool = false;
    let mut i: usize = 0;
    while i < transports.len()
        invariant
            i <= transports@.len(),
            stdio == exists|k: int|
                0 <= k < i && (#[trigger] transports@[k]).transport == McpServerTransport::Stdio
                    && transports@[k].json_rpc,
            http == exists|k: int|
                0 <= k < i && (#[trigger] transports@[k]).transport.speaks_http()
                    && transports@[k].json_rpc,
            authorizes == exists|k: int|
                0 <= k < i && (#[trigger] transports@[k]).transport.speaks_http()
                    && transports@[k].auth_headers,
        decreases transports@.len() - i,
    {
        let entry = &transports[i];
        let ghost last = transports@[i as int];
        if entry.transport == McpServerTransport::Stdio && entry.json_rpc {
            stdio = true;
            assert(last.transport == McpServerTransport::Stdio && last.json_rpc);
        }
        if entry.transport.is_http() && entry.json_rpc {
            http = true;
            assert(last.transport.speaks_http() && last.json_rpc);
        }
        if entry.transport.is_http() && entry.auth_headers {
            authorizes = true;
            assert(last.transport.speaks_http() && last.auth_headers);
        }
        i += 1;
    }
    (stdio, http, authorizes)
}

pub open spec fn blank_version_model() -> ErrorModel {
    ErrorModel::new(
        ErrorKind::InvalidArgument,
        "MCP compatibility protocol version must be non-empty"@,
    )
}

impl McpCompatibilityMatrix {
    pub fn evidence_kind(&self) -> (kind: McpCompatibilityEvidenceKind)
        ensures
            kind == self@.evidence_kind,
    {
        self.evidence_kind
    }

    /// A matrix that was written down.
    pub fn v1137_fixture() -> (matrix: McpCompatibilityMatrix)
        ensures
            matrix@.evidence_kind == McpCompatibilityEvidenceKind::Fixture,
            matrix@.protocol_version == "2025-11-25"@,
            matrix@.transports == seq![
                McpTransportCompatibility {
                    transport: McpServerTransport::Stdio,
                    json_rpc: true,
                    auth_headers: false,
                    timeout_and_output_limits: true,
                    stream_lifecycle: true,
                },
                McpTransportCompatibility {
                    transport: McpServerTransport::Http,
                    json_rpc: true,
                    auth_headers: true,
                    timeout_and_output_limits: true,
                    stream_lifecycle: true,
                },
            ],
            matrix@.tool_schemas == seq![
                SchemaEntry {
                    tool: "list_issues"@,
                    input_schema: "object"@,
                    output_content: "content[].text"@,
                    schema_checked: true,
                },
            ],
            matrix@.stream_lifecycle == (McpStreamLifecycleCompatibility {
                start: true,
                abort: true,
                cleanup: true,
                dangling_sessions_after_abort: 0,
            }),
            matrix@.server_surface == (McpServerSurfaceCompatibility {
                explicit_tool_gate: true,
                unlimited_proxy_exposed: false,
            }),
    {
        let matrix = McpCompatibilityMatrix {
            evidence_kind: McpCompatibilityEvidenceKind::Fixture,
            protocol_version: "2025-11-25".to_owned(),
            transports: vec![
                McpTransportCompatibility {
                    transport: McpServerTransport::Stdio,
                    json_rpc: true,
                    auth_headers: false,
                    timeout_and_output_limits: true,
                    stream_lifecycle: true,
                },
                McpTransportCompatibility {
                    transport: McpServerTransport::Http,
                    json_rpc: true,
                    auth_headers: true,
                    timeout_and_output_limits: true,
                    stream_lifecycle: true,
                },
            ],
            tool_schemas: vec![
                McpToolSchemaCompatibility {
                    tool: "list_issues".to_owned(),
                    input_schema: "object".to_owned(),
                    output_content: "content[].text".to_owned(),
                    schema_checked: true,
                },
            ],
            stream_lifecycle: McpStreamLifecycleCompatibility {
                start: true,
                abort: true,
                cleanup: true,
                dangling_sessions_after_abort: 0,
            },
            server_surface: McpServerSurfaceCompatibility {
                explicit_tool_gate: true,
                unlimited_proxy_exposed: false,
            },
        };
        assert(matrix@.tool_schemas =~= seq![
            SchemaEntry {
                tool: "list_issues"@,
                input_schema: "object"@,
                output_content: "content[].text"@,
                schema_checked: true,
            },
        ]);
        matrix
    }

    fn find_failures(&self) -> (failures: Vec<String>)
        ensures
            text::texts(failures@) == failures_of(self@),
    {
        let (stdio, http, authorizes) = capabilities(&self.transports);
        let fixture = self.evidence_kind == McpCompatibilityEvidenceKind::Fixture;
        let lifecycle = &self.stream_lifecycle;
        let mut failures: Vec<String> = Vec::new();
        list_if(&mut failures, fixture && !stdio, "transport:stdio_json_rpc_missing");
        list_if(&mut failures, !http, "transport:http_json_rpc_missing");
        list_if(&mut failures, fixture && !authorizes, "transport:http_auth_headers_missing");
        list_limit_failures(&mut failures, &self.transports);
        list_stream_failures(&mut failures, &self.transports);
        list_if(&mut failures, self.tool_schemas.len() == 0, "tool_schema:matrix_empty");
        list_schema_failures(&mut failures, &self.tool_schemas);
        list_if(&mut failures, !lifecycle.start, "stream_lifecycle:start_missing");
        list_if(&mut failures, !lifecycle.abort, "stream_lifecycle:abort_missing");
        list_if(&mut failures, !lifecycle.cleanup, "stream_lifecycle:cleanup_missing");
        let dangling = joined(
            "stream_lifecycle:dangling_sessions:",
            decimal_u64(lifecycle.dangling_sessions_after_abort as u64).as_str(),
            "",
        );
        assert(dangling@ =~= "stream_lifecycle:dangling_sessions:"@ + text::decimal(
            lifecycle.dangling_sessions_after_abort as nat,
        )) by {
            reveal_strlit("");
        }
        list_if(
            &mut failures,
            lifecycle.dangling_sessions_after_abort > 0,
            dangling.as_str(),
        );
        list_if(
            &mut failures,
            !self.server_surface.explicit_tool_gate,
            "server_surface:explicit_tool_gate_missing",
        );
        list_if(
            &mut failures,
            self.server_surface.unlimited_proxy_exposed,
            "server_surface:unlimited_proxy_exposed",
        );
        assert(text::texts(failures@) =~= failures_of(self@));
        failures
    }

    /// Check the matrix.
    pub fn verify(&self) -> (outcome: Result<McpCompatibilityReport, EvaError>)
        ensures
            match outcome {
                Ok(report) => text::trimmed(self@.protocol_version).len() > 0 && report@
                    == conclusion_of(self@),
                Err(error) => text::trimmed(self@.protocol_version).len() == 0 && error@
                    == blank_version_model(),
            },
    {
        if trim(self.protocol_version.as_str()).as_str().is_empty() {
            return Err(
                EvaError::invalid_argument("MCP compatibility protocol version must be non-empty"),
            );
        }
        let failures = self.find_failures();
        let status = if failures.len() == 0 {
            "compatible"
        } else {
            "blocked"
        };
        Ok(
            McpCompatibilityReport {
                evidence_kind: self.evidence_kind,
                protocol_version: self.protocol_version.as_str().to_owned(),
                status: status.to_owned(),
                transport_count: self.transports.len(),
                tool_schema_count: self.tool_schemas.len(),
                failures,
                audit: self.audit_entries(),
            },
        )
    }

    fn audit_entries(&self) -> (audit: Vec<String>)
        ensures
            text::texts(audit@) == audit_of(self@),
    {
        let ghost all = audit_of(self@);
        let mut version = String::new();
        version.append("mcp.protocol_version:");
        version.append(self.protocol_version.as_str());
        assert(version@ =~= all[0]);
        let mut transports = String::new();
        transports.append("mcp.transport_count:");
        transports.append(decimal_usize(self.transports.len()).as_str());
        assert(transports@ =~= all[1]);
        let mut schemas = String::new();
        schemas.append("mcp.tool_schema_count:");
        schemas.append(decimal_usize(self.tool_schemas.len()).as_str());
        assert(schemas@ =~= all[2]);
        let mut lifecycle = String::new();
        lifecycle.append("mcp.stream_lifecycle:start=");
        lifecycle.append(bool_str(self.stream_lifecycle.start));
        lifecycle.append(",abort=");
        lifecycle.append(bool_str(self.stream_lifecycle.abort));
        lifecycle.append(",cleanup=");
        lifecycle.append(bool_str(self.stream_lifecycle.cleanup));
        assert(lifecycle@ =~= all[3]);
        let mut surface = String::new();
        surface.append("mcp.server_surface:explicit_tool_gate=");
        surface.append(bool_str(self.server_surface.explicit_tool_gate));
        assert(surface@ =~= all[4]);
        let mut audit: Vec<String> = vec![version, transports, schemas, lifecycle, surface];
        assert(text::texts(audit@) =~= all.take(5));
        let mut i: usize = 0;
        while i < self.transports.len()
            invariant
                i <= self.transports@.len(),
                all == audit_of(self@),
                text::texts(audit@) == all.take(5 + i),
            decreases self.transports@.len() - i,
        {
            let entry = &self.transports[i];
            let mut note = String::new();
            note.append("mcp.transport:");
            note.append(entry.transport.as_str());
            note.append(":json_rpc=");
            note.append(bool_str(entry.json_rpc));
            note.append(",auth_headers=");
            note.append(bool_str(entry.auth_headers));
            note.append(",limits=");
            note.append(bool_str(entry.timeout_and_output_limits));
            note.append(",stream_lifecycle=");
            note.append(bool_str(entry.stream_lifecycle));
            assert(note@ =~= transport_note(*entry));
            let ghost before = text::texts(audit@);
            let ghost added = note@;
            audit.push(note);
            proof {
                assert(all[5 + i] == transport_note(self.transports@[i as int]));
                assert(text::texts(audit@) =~= before.push(added));
                assert(all.take(5 + i + 1) =~= all.take(5 + i).push(added));
            }
            i += 1;
        }
        assert(all.take(5 + i) =~= all);
        audit
    }
}

// ---------------------------------------------------------------------------
// Digests
// ---------------------------------------------------------------------------

/// What SHA-256 makes of bytes.
pub uninterp spec fn sha256(bytes: Seq<u8>) -> Seq<u8>;

/// `Hash::hash` of the hash that belongs to the cipher suite
/// `TLS13_AES_128_GCM_SHA256` in the `ring` provider of `rustls`, which is
/// SHA-256: the thirty-two bytes of the digest, a function of the bytes.
#[verifier::external_body]
fn sha256_bytes(bytes: &[u8]) -> (digest: Vec<u8>)
    ensures
        digest@ == sha256(bytes@),
        digest@.len() == 32,
{
    match rustls::crypto::ring::cipher_suite::TLS13_AES_128_GCM_SHA256 {
        rustls::SupportedCipherSuite::Tls13(suite) => {
            suite.common.hash_provider.hash(bytes).as_ref().to_vec()
        },
        rustls::SupportedCipherSuite::Tls12(suite) => {
            suite.common.hash_provider.hash(bytes).as_ref().to_vec()
        },
    }
}

/// How a digest is written.
pub open spec fn digest_label(digest: Seq<u8>) -> Seq<char> {
    "sha256:"@ + server_rpc::hex_text(digest)
}

/// How a digest is written.
pub fn write_digest(digest: &[u8]) -> (label: String)
    ensures
        label@ == digest_label(digest@),
{
    let mut label = String::new();
    label.append("sha256:");
    label.append(hex_string(digest).as_str());
    assert(label@ =~= digest_label(digest@));
    label
}

/// The SHA-256 digest of bytes, as it is written.
pub fn sha256_digest(bytes: &[u8]) -> (label: String)
    ensures
        label@ == digest_label(sha256(bytes@)),
{
    write_digest(sha256_bytes(bytes).as_slice())
}

/// The digest of a value that was observed, and its length.
#[verifier::ext_equal]
pub struct DigestModel {
    pub sha256: Seq<char>,
    pub bytes: usize,
}

/// The digest of a value that was observed, and its length.
#[derive(Debug, Clone, PartialEq, Eq)]
pub struct McpCompatibilityDigestReceipt {
    sha256: String,
    bytes: usize,
}

impl View for McpCompatibilityDigestReceipt {
    type V = DigestModel;

    closed spec fn view(&self) -> DigestModel {
        DigestModel { sha256: self.sha256@, bytes: self.bytes }
    }
}

impl McpCompatibilityDigestReceipt {
    pub fn sha256(&self) -> (label: &str)
        ensures
            label@ == self@.sha256,
    {
        self.sha256.as_str()
    }

    pub fn bytes(&self) -> (count: usize)
        ensures
            count == self@.bytes,
    {
        self.bytes
    }
}

/// The digest of a value, and its length.
pub open spec fn digest_of(bytes: Seq<u8>) -> DigestModel {
    DigestModel { sha256: digest_label(sha256(bytes)), bytes: bytes.len() as usize }
}

fn digest_receipt(bytes: &[u8]) -> (receipt: McpCompatibilityDigestReceipt)
    ensures
        receipt@ == digest_of(bytes@),
{
    McpCompatibilityDigestReceipt { sha256: sha256_digest(bytes), bytes: bytes.len() }
}

// ---------------------------------------------------------------------------
// Receipts
// ---------------------------------------------------------------------------

/// What was seen of TLS.
#[verifier::ext_equal]
pub struct TlsModel {
    pub handshake_completed: bool,
    pub peer_name: Seq<char>,
    pub protocol: Seq<char>,
    pub handshake_count: usize,
}

/// What was seen of TLS.
#[derive(Debug, Clone, PartialEq, Eq)]
pub struct McpCompatibilityTlsReceipt {
    handshake_completed: bool,
    peer_name: String,
    protocol: String,
    handshake_count: usize,
}

impl View for McpCompatibilityTlsReceipt {
    type V = TlsModel;

    closed spec fn view(&self) -> TlsModel {
        TlsModel {
            handshake_completed: self.handshake_completed,
            peer_name: self.peer_name@,
            protocol: self.protocol@,
            handshake_count: self.handshake_count,
        }
    }
}

impl McpCompatibilityTlsReceipt {
    pub fn handshake_completed(&self) -> (completed: bool)
        ensures
            completed == self@.handshake_completed,
    {
        self.handshake_completed
    }

    pub fn peer_name(&self) -> (name: &str)
        ensures
            name@ == self@.peer_name,
    {
        self.peer_name.as_str()
    }

    pub fn protocol(&self) -> (protocol: &str)
        ensures
            protocol@ == self@.protocol,
    {
        self.protocol.as_str()
    }

    pub fn handshake_count(&self) -> (count: usize)
        ensures
            count == self@.handshake_count,
    {
        self.handshake_count
    }
}

/// Which replies were read directly. No reply is kept.
#[derive(Debug, Clone, Copy, PartialEq, Eq, Structural)]
pub struct McpCompatibilityObservationReceipt {
    initialize_server_info: bool,
    tools_list_schema: bool,
    tools_call_result: bool,
}

/// Which replies were read directly.
#[verifier::ext_equal]
pub struct ObservationModel {
    pub initialize_server_info: bool,
    pub tools_list_schema: bool,
    pub tools_call_result: bool,
}

impl View for McpCompatibilityObservationReceipt {
    type V = ObservationModel;

    closed spec fn view(&self) -> ObservationModel {
        ObservationModel {
            initialize_server_info: self.initialize_server_info,
            tools_list_schema: self.tools_list_schema,
            tools_call_result: self.tools_call_result,
        }
    }
}

impl McpCompatibilityObservationReceipt {
    /// Whether the name and the version of the server were read.
    pub fn initialize_server_info(&self) -> (observed: bool)
        ensures
            observed == self@.initialize_server_info,
    {
        self.initialize_server_info
    }

    /// Whether the schema of the tool was read.
    pub fn tools_list_schema(&self) -> (observed: bool)
        ensures
            observed == self@.tools_list_schema,
    {
        self.tools_list_schema
    }

    /// Whether the result of the call was read.
    pub fn tools_call_result(&self) -> (observed: bool)
        ensures
            observed == self@.tools_call_result,
    {
        self.tools_call_result
    }
}

/// What was left after the abort of a stream, as both sides saw it.
#[derive(Debug, Clone, Copy, PartialEq, Eq, Structural)]
pub struct McpCompatibilityAbortReceipt {
    socket_closed: bool,
    session_deleted: bool,
    reader_joined: bool,
    sessions_after: usize,
    readers_after: usize,
    cleanup_pending_after: usize,
}

impl View for McpCompatibilityAbortReceipt {
    type V = ReceiptModel;

    closed spec fn view(&self) -> ReceiptModel {
        ReceiptModel {
            socket_closed: self.socket_closed,
            session_deleted: self.session_deleted,
            reader_joined: self.reader_joined,
            sessions_after: self.sessions_after,
            readers_after: self.readers_after,
            cleanup_pending_after: self.cleanup_pending_after,
        }
    }
}

impl McpCompatibilityAbortReceipt {
    pub fn socket_closed(&self) -> (closed: bool)
        ensures
            closed == self@.socket_closed,
    {
        self.socket_closed
    }

    pub fn session_deleted(&self) -> (deleted: bool)
        ensures
            deleted == self@.session_deleted,
    {
        self.session_deleted
    }

    pub fn reader_joined(&self) -> (joined: bool)
        ensures
            joined == self@.reader_joined,
    {
        self.reader_joined
    }

    pub fn sessions_after(&self) -> (count: usize)
        ensures
            count == self@.sessions_after,
    {
        self.sessions_after
    }

    pub fn readers_after(&self) -> (count: usize)
        ensures
            count == self@.readers_after,
    {
        self.readers_after
    }

    pub fn cleanup_pending_after(&self) -> (count: usize)
        ensures
            count == self@.cleanup_pending_after,
    {
        self.cleanup_pending_after
    }

    /// Whether everything was cleaned up and nothing is left.
    pub fn complete(&self) -> (complete: bool)
        ensures
            complete == self@.complete(),
    {
        self.socket_closed && self.session_deleted && self.reader_joined && self.sessions_after == 0
            && self.readers_after == 0 && self.cleanup_pending_after == 0
    }
}

// ---------------------------------------------------------------------------
// The manifest
// ---------------------------------------------------------------------------

/// What a run of the server has shown.
#[verifier::ext_equal]
pub struct RunModel {
    pub server_name: Seq<char>,
    pub server_version: Seq<char>,
    pub protocol_version: Seq<char>,
    pub schema_bytes: Seq<u8>,
    pub output_bytes: Seq<u8>,
}

/// What a run of the server has shown.
#[derive(Debug)]
pub struct ControlledServerRun {
    pub server_name: String,
    pub server_version: String,
    pub protocol_version: String,
    pub schema_bytes: Vec<u8>,
    pub output_bytes: Vec<u8>,
}

impl View for ControlledServerRun {
    type V = RunModel;

    open spec fn view(&self) -> RunModel {
        RunModel {
            server_name: self.server_name@,
            server_version: self.server_version@,
            protocol_version: self.protocol_version@,
            schema_bytes: self.schema_bytes@,
            output_bytes: self.output_bytes@,
        }
    }
}

/// What a run over TLS has shown.
#[verifier::ext_equal]
pub struct TlsRunModel {
    pub tls_protocol: Seq<char>,
    pub handshake_count: usize,
    pub stream_closed_before_delete: bool,
    pub delete_observed: bool,
    pub lifecycle: ReceiptModel,
}

/// What a run over TLS has shown.
#[derive(Debug)]
pub struct TlsLifecycleRun {
    pub tls_protocol: String,
    pub handshake_count: usize,
    pub stream_closed_before_delete: bool,
    pub delete_observed: bool,
    pub lifecycle: McpHttpAbortReceipt,
}

impl View for TlsLifecycleRun {
    type V = TlsRunModel;

    open spec fn view(&self) -> TlsRunModel {
        TlsRunModel {
            tls_protocol: self.tls_protocol@,
            handshake_count: self.handshake_count,
            stream_closed_before_delete: self.stream_closed_before_delete,
            delete_observed: self.delete_observed,
            lifecycle: self.lifecycle@,
        }
    }
}

/// What a measurement writes down: keys and values.
pub type Entries = Seq<(Seq<char>, Seq<char>)>;

/// What a measurement writes down.
pub open spec fn manifest_entries(
    run: RunModel,
    tls: TlsModel,
    schema: DigestModel,
    output: DigestModel,
    seen: ObservationModel,
    abort: ReceiptModel,
) -> Entries {
    seq![
        ("format"@, COMPATIBILITY_FORMAT@),
        ("evidence_kind"@, "measurement"@),
        ("server_name"@, run.server_name),
        ("server_version"@, run.server_version),
        ("protocol_version"@, run.protocol_version),
        ("transport"@, McpServerTransport::StreamableHttp.name()),
        ("tls_handshake_completed"@, http_session::bool_text(tls.handshake_completed)),
        ("tls_peer_name"@, tls.peer_name),
        ("tls_protocol"@, tls.protocol),
        ("tls_handshake_count"@, text::decimal(tls.handshake_count as nat)),
        ("tool_name"@, COMPATIBILITY_TOOL@),
        ("schema_sha256"@, schema.sha256),
        ("schema_bytes"@, text::decimal(schema.bytes as nat)),
        ("output_sha256"@, output.sha256),
        ("output_bytes"@, text::decimal(output.bytes as nat)),
        (
            "initialize_server_info_observed"@,
            http_session::bool_text(seen.initialize_server_info),
        ),
        ("tools_list_schema_observed"@, http_session::bool_text(seen.tools_list_schema)),
        ("tools_call_result_observed"@, http_session::bool_text(seen.tools_call_result)),
        ("abort_socket_closed"@, http_session::bool_text(abort.socket_closed)),
        ("abort_session_deleted"@, http_session::bool_text(abort.session_deleted)),
        ("abort_reader_joined"@, http_session::bool_text(abort.reader_joined)),
        ("abort_sessions_after"@, text::decimal(abort.sessions_after as nat)),
        ("abort_readers_after"@, text::decimal(abort.readers_after as nat)),
        ("abort_cleanup_pending_after"@, text::decimal(abort.cleanup_pending_after as nat)),
    ]
}

/// Whether a text can stand as a value: printable ASCII without an equals sign.
pub open spec fn is_scalar_text(value: Seq<char>) -> bool {
    &&& value.len() > 0
    &&& forall|i: int|
        0 <= i < value.len() ==> ' ' <= #[trigger] value[i] && value[i] <= '~' && value[i] != '='
}

pub open spec fn manifest_error(key: Seq<char>) -> ErrorModel {
    ErrorModel::new(
        ErrorKind::Conflict,
        "MCP compatibility canonical manifest contains an invalid scalar"@,
    ).code("mcp_compatibility_manifest_invalid"@).ctx("field"@, key)
}

/// The manifest of the first entries: one line for each. The first value that
/// cannot stand decides the error.
pub open spec fn manifest_text(entries: Entries, upto: int) -> Result<Seq<char>, ErrorModel>
    decreases upto,
{
    if upto <= 0 {
        Ok(Seq::empty())
    } else {
        match manifest_text(entries, upto - 1) {
            Err(error) => Err(error),
            Ok(before) => {
                let (key, value) = entries[upto - 1];
                if is_scalar_text(value) {
                    Ok(before + key + "="@ + value + "\n"@)
                } else {
                    Err(manifest_error(key))
                }
            },
        }
    }
}

fn scalar_text(value: &str) -> (valid: bool)
    ensures
        valid == is_scalar_text(value@),
{
    let chars = chars_of(value);
    if chars.len() == 0 {
        return false;
    }
    let mut i: usize = 0;
    while i < chars.len()
        invariant
            i <= chars@.len(),
            chars@ == value@,
            forall|k: int|
                0 <= k < i ==> ' ' <= #[trigger] value@[k] && value@[k] <= '~' && value@[k] != '=',
        decreases chars@.len() - i,
    {
        let c = chars[i];
        if c < ' ' || '~' < c || c == '=' {
            assert(!(' ' <= value@[i as int] && value@[i as int] <= '~' && value@[i as int]
                != '='));
            return false;
        }
        i += 1;
    }
    true
}

fn enter(entries: &mut Vec<(String, String)>, key: &str, value: &str)
    ensures
        crate::error::pair_texts(final(entries)@) == crate::error::pair_texts(old(entries)@).push(
            (key@, value@),
        ),
{
    entries.push((key.to_owned(), value.to_owned()));
    assert(crate::error::pair_texts(entries@) =~= crate::error::pair_texts(old(entries)@).push(
        (key@, value@),
    ));
}

proof fn lemma_manifest_fails(entries: Entries, at: int, upto: int)
    requires
        0 <= at <= upto,
        manifest_text(entries, at) is Err,
    ensures
        manifest_text(entries, upto) == manifest_text(entries, at),
    decreases upto - at,
{
    if at < upto {
        lemma_manifest_fails(entries, at, upto - 1);
    }
}

/// Write down a manifest.
pub fn write_manifest(entries: &Vec<(String, String)>) -> (outcome: Result<String, EvaError>)
    ensures
        match outcome {
            Ok(manifest) => manifest_text(
                crate::error::pair_texts(entries@),
                entries@.len() as int,
            ) == Ok::<Seq<char>, ErrorModel>(manifest@),
            Err(error) => manifest_text(crate::error::pair_texts(entries@), entries@.len() as int)
                == Err::<Seq<char>, ErrorModel>(error@),
        },
{
    let ghost all = crate::error::pair_texts(entries@);
    let mut manifest = String::new();
    let mut i: usize = 0;
    assert(manifest@ =~= Seq::<char>::empty());
    while i < entries.len()
        invariant
            i <= entries@.len(),
            all == crate::error::pair_texts(entries@),
            manifest_text(all, i as int) == Ok::<Seq<char>, ErrorModel>(manifest@),
        decreases entries@.len() - i,
    {
        let key = entries[i].0.as_str();
        let value = entries[i].1.as_str();
        assert(all[i as int] == (key@, value@));
        if !scalar_text(value) {
            proof {
                lemma_manifest_fails(all, i + 1, entries@.len() as int);
            }
            return Err(
                EvaError::conflict(
                    "MCP compatibility canonical manifest contains an invalid scalar",
                ).with_provider_code("mcp_compatibility_manifest_invalid").with_context(
                    "field",
                    key,
                ),
            );
        }
        let ghost before = manifest@;
        manifest.append(key);
        manifest.append("=");
        manifest.append(value);
        manifest.append("\n");
        assert(manifest@ =~= before + key@ + "="@ + value@ + "\n"@);
        i += 1;
    }
    Ok(manifest)
}

#[verifier::rlimit(30)]
fn compatibility_manifest(
    run: &ControlledServerRun,
    tls: &McpCompatibilityTlsReceipt,
    schema: &McpCompatibilityDigestReceipt,
    output: &McpCompatibilityDigestReceipt,
    seen: &McpCompatibilityObservationReceipt,
    abort: &McpCompatibilityAbortReceipt,
) -> (outcome: Result<String, EvaError>)
    ensures
        ({
            let entries = manifest_entries(run@, tls@, schema@, output@, seen@, abort@);
            match outcome {
                Ok(manifest) => manifest_text(entries, entries.len() as int) == Ok::<
                    Seq<char>,
                    ErrorModel,
                >(manifest@),
                Err(error) => manifest_text(entries, entries.len() as int) == Err::<
                    Seq<char>,
                    ErrorModel,
                >(error@),
            }
        }),
{
    let mut entries: Vec<(String, String)> = Vec::new();
    enter(&mut entries, "format", COMPATIBILITY_FORMAT);
    enter(&mut entries, "evidence_kind", "measurement");
    enter(&mut entries, "server_name", run.server_name.as_str());
    enter(&mut entries, "server_version", run.server_version.as_str());
    enter(&mut entries, "protocol_version", run.protocol_version.as_str());
    enter(&mut entries, "transport", McpServerTransport::StreamableHttp.as_str());
    enter(&mut entries, "tls_handshake_completed", bool_str(tls.handshake_completed));
    enter(&mut entries, "tls_peer_name", tls.peer_name.as_str());
    enter(&mut entries, "tls_protocol", tls.protocol.as_str());
    enter(&mut entries, "tls_handshake_count", decimal_usize(tls.handshake_count).as_str());
    enter(&mut entries, "tool_name", COMPATIBILITY_TOOL);
    enter(&mut entries, "schema_sha256", schema.sha256.as_str());
    enter(&mut entries, "schema_bytes", decimal_usize(schema.bytes).as_str());
    enter(&mut entries, "output_sha256", output.sha256.as_str());
    enter(&mut entries, "output_bytes", decimal_usize(output.bytes).as_str());
    enter(
        &mut entries,
        "initialize_server_info_observed",
        bool_str(seen.initialize_server_info),
    );
    enter(&mut entries, "tools_list_schema_observed", bool_str(seen.tools_list_schema));
    enter(&mut entries, "tools_call_result_observed", bool_str(seen.tools_call_result));
    enter(&mut entries, "abort_socket_closed", bool_str(abort.socket_closed));
    enter(&mut entries, "abort_session_deleted", bool_str(abort.session_deleted));
    enter(&mut entries, "abort_reader_joined", bool_str(abort.reader_joined));
    enter(&mut entries, "abort_sessions_after", decimal_usize(abort.sessions_after).as_str());
    enter(&mut entries, "abort_readers_after", decimal_usize(abort.readers_after).as_str());
    enter(
        &mut entries,
        "abort_cleanup_pending_after",
        decimal_usize(abort.cleanup_pending_after).as_str(),
    );
    assert(crate::error::pair_texts(entries@) =~= manifest_entries(
        run@,
        tls@,
        schema@,
        output@,
        seen@,
        abort@,
    ));
    write_manifest(&entries)
}

// ---------------------------------------------------------------------------
// Measurements
// ---------------------------------------------------------------------------

/// What was measured.
#[verifier::ext_equal]
pub struct MeasurementModel {
    pub server_name: Seq<char>,
    pub server_version: Seq<char>,
    pub protocol_version: Seq<char>,
    pub transport: McpServerTransport,
    pub tool_name: Seq<char>,
    pub tls: TlsModel,
    pub schema: DigestModel,
    pub output: DigestModel,
    pub observations: ObservationModel,
    pub abort: ReceiptModel,
    pub matrix: MatrixModel,
    pub canonical_manifest: Seq<char>,
    pub canonical_digest: Seq<char>,
}

/// What was measured. Only runs of a server make one, and nothing in it can be
/// changed.
#[derive(Debug, Clone, PartialEq, Eq)]
pub struct McpCompatibilityMeasurement {
    server_name: String,
    server_version: String,
    protocol_version: String,
    transport: McpServerTransport,
    tool_name: String,
    tls: McpCompatibilityTlsReceipt,
    schema: McpCompatibilityDigestReceipt,
    output: McpCompatibilityDigestReceipt,
    observations: McpCompatibilityObservationReceipt,
    abort: McpCompatibilityAbortReceipt,
    matrix: McpCompatibilityMatrix,
    canonical_manifest: String,
    canonical_digest: String,
}

impl View for McpCompatibilityMeasurement {
    type V = MeasurementModel;

    closed spec fn view(&self) -> MeasurementModel {
        MeasurementModel {
            server_name: self.server_name@,
            server_version: self.server_version@,
            protocol_version: self.protocol_version@,
            transport: self.transport,
            tool_name: self.tool_name@,
            tls: self.tls@,
            schema: self.schema@,
            output: self.output@,
            observations: self.observations@,
            abort: self.abort@,
            matrix: self.matrix@,
            canonical_manifest: self.canonical_manifest@,
            canonical_digest: self.canonical_digest@,
        }
    }
}

/// Whether the parts of a measurement agree, and everything was seen.
pub open spec fn is_consistent(m: MeasurementModel) -> bool {
    &&& m.canonical_digest == digest_label(sha256(encode_utf8(m.canonical_manifest)))
    &&& m.tls.handshake_completed
    &&& m.observations.initialize_server_info
    &&& m.observations.tools_list_schema
    &&& m.observations.tools_call_result
    &&& m.abort.complete()
    &&& m.matrix.evidence_kind == McpCompatibilityEvidenceKind::Measurement
}

pub open spec fn inconsistent_model() -> ErrorModel {
    ErrorModel::new(
        ErrorKind::Conflict,
        "MCP compatibility measurement receipt is inconsistent"@,
    ).code("mcp_compatibility_measurement_invalid"@)
}

pub open spec fn incompatible_model() -> ErrorModel {
    ErrorModel::new(
        ErrorKind::Conflict,
        "MCP compatibility measurement matrix is not compatible"@,
    ).code("mcp_compatibility_measurement_blocked"@)
}

/// What a check of a measurement concludes.
pub open spec fn verification_of(m: MeasurementModel) -> Result<CompatibilityModel, ErrorModel> {
    if !is_consistent(m) {
        Err(inconsistent_model())
    } else if text::trimmed(m.matrix.protocol_version).len() == 0 {
        Err(blank_version_model())
    } else if failures_of(m.matrix).len() > 0 {
        Err(incompatible_model())
    } else {
        Ok(conclusion_of(m.matrix))
    }
}

pub open spec fn lifecycle_incomplete_model() -> ErrorModel {
    ErrorModel::new(
        ErrorKind::Unavailable,
        "MCP compatibility lifecycle measurement did not complete"@,
    ).code("mcp_compatibility_lifecycle_incomplete"@)
}

pub open spec fn handshakes_incomplete_model() -> ErrorModel {
    ErrorModel::new(
        ErrorKind::Unavailable,
        "MCP compatibility TLS handshakes were incomplete"@,
    ).code("mcp_compatibility_tls_incomplete"@)
}

/// The matrix of a measurement.
pub open spec fn matrix_of(
    protocol_version: Seq<char>,
    schema: DigestModel,
    output: DigestModel,
    abort: ReceiptModel,
) -> MatrixModel {
    MatrixModel {
        evidence_kind: McpCompatibilityEvidenceKind::Measurement,
        protocol_version,
        transports: seq![
            McpTransportCompatibility {
                transport: McpServerTransport::StreamableHttp,
                json_rpc: true,
                auth_headers: false,
                timeout_and_output_limits: true,
                stream_lifecycle: true,
            },
        ],
        tool_schemas: seq![
            SchemaEntry {
                tool: COMPATIBILITY_TOOL@,
                input_schema: schema.sha256,
                output_content: output.sha256,
                schema_checked: true,
            },
        ],
        stream_lifecycle: McpStreamLifecycleCompatibility {
            start: true,
            abort: abort.socket_closed,
            cleanup: abort.session_deleted && abort.reader_joined,
            dangling_sessions_after_abort: if abort.sessions_after > u32::MAX {
                u32::MAX
            } else {
                abort.sessions_after as u32
            },
        },
        server_surface: McpServerSurfaceCompatibility {
            explicit_tool_gate: true,
            unlimited_proxy_exposed: false,
        },
    }
}

/// What a measurement of two runs holds, with the manifest that was written.
pub open spec fn measured(run: RunModel, tls_run: TlsRunModel, manifest: Seq<char>) -> MeasurementModel {
    let schema = digest_of(run.schema_bytes);
    let output = digest_of(run.output_bytes);
    let abort = abort_seen(tls_run);
    MeasurementModel {
        server_name: run.server_name,
        server_version: run.server_version,
        protocol_version: run.protocol_version,
        transport: McpServerTransport::StreamableHttp,
        tool_name: COMPATIBILITY_TOOL@,
        tls: tls_seen(tls_run),
        schema,
        output,
        observations: all_seen(),
        abort,
        matrix: matrix_of(run.protocol_version, schema, output, abort),
        canonical_manifest: manifest,
        canonical_digest: digest_label(sha256(encode_utf8(manifest))),
    }
}

/// What was seen of TLS in a run.
pub open spec fn tls_seen(tls_run: TlsRunModel) -> TlsModel {
    TlsModel {
        handshake_completed: tls_run.handshake_count > 0,
        peer_name: COMPATIBILITY_PEER@,
        protocol: tls_run.tls_protocol,
        handshake_count: tls_run.handshake_count,
    }
}

/// What both sides saw of the abort in a run.
pub open spec fn abort_seen(tls_run: TlsRunModel) -> ReceiptModel {
    ReceiptModel {
        socket_closed: tls_run.stream_closed_before_delete && tls_run.lifecycle.socket_closed,
        session_deleted: tls_run.delete_observed && tls_run.lifecycle.session_deleted,
        ..tls_run.lifecycle
    }
}

pub open spec fn all_seen() -> ObservationModel {
    ObservationModel {
        initialize_server_info: true,
        tools_list_schema: true,
        tools_call_result: true,
    }
}

/// What two runs are measured as.
pub open spec fn measurement_of(run: RunModel, tls_run: TlsRunModel) -> Result<
    MeasurementModel,
    ErrorModel,
> {
    if !tls_run.stream_closed_before_delete || !tls_run.delete_observed
        || !tls_run.lifecycle.complete() {
        Err(lifecycle_incomplete_model())
    } else if tls_run.handshake_count == 0 {
        Err(handshakes_incomplete_model())
    } else {
        let entries = manifest_entries(
            run,
            tls_seen(tls_run),
            digest_of(run.schema_bytes),
            digest_of(run.output_bytes),
            all_seen(),
            abort_seen(tls_run),
        );
        match manifest_text(entries, entries.len() as int) {
            Err(error) => Err(error),
            Ok(manifest) => match verification_of(measured(run, tls_run, manifest)) {
                Err(error) => Err(error),
                Ok(_) => Ok(measured(run, tls_run, manifest)),
            },
        }
    }
}

fn measured_matrix(
    protocol_version: &str,
    schema: &McpCompatibilityDigestReceipt,
    output: &McpCompatibilityDigestReceipt,
    abort: &McpCompatibilityAbortReceipt,
) -> (matrix: McpCompatibilityMatrix)
    ensures
        matrix@ == matrix_of(protocol_version@, schema@, output@, abort@),
{
    let matrix = McpCompatibilityMatrix {
        evidence_kind: McpCompatibilityEvidenceKind::Measurement,
        protocol_version: protocol_version.to_owned(),
        transports: vec![
            McpTransportCompatibility {
                transport: McpServerTransport::StreamableHttp,
                json_rpc: true,
                auth_headers: false,
                timeout_and_output_limits: true,
                stream_lifecycle: true,
            },
        ],
        tool_schemas: vec![
            McpToolSchemaCompatibility {
                tool: COMPATIBILITY_TOOL.to_owned(),
                input_schema: schema.sha256.as_str().to_owned(),
                output_content: output.sha256.as_str().to_owned(),
                schema_checked: true,
            },
        ],
        stream_lifecycle: McpStreamLifecycleCompatibility {
            start: true,
            abort: abort.socket_closed,
            cleanup: abort.session_deleted && abort.reader_joined,
            dangling_sessions_after_abort: if abort.sessions_after > u32::MAX as usize {
                u32::MAX
            } else {
                abort.sessions_after as u32
            },
        },
        server_surface: McpServerSurfaceCompatibility {
            explicit_tool_gate: true,
            unlimited_proxy_exposed: false,
        },
    };
    assert(matrix@.tool_schemas =~= seq![
        SchemaEntry {
            tool: COMPATIBILITY_TOOL@,
            input_schema: schema@.sha256,
            output_content: output@.sha256,
            schema_checked: true,
        },
    ]);
    matrix
}

impl McpCompatibilityMeasurement {
    /// Put two runs of a server on the loopback interface together.
    pub fn measure_loopback(run: ControlledServerRun, tls_run: TlsLifecycleRun) -> (outcome: Result<
        McpCompatibilityMeasurement,
        EvaError,
    >)
        ensures
            match outcome {
                Ok(measurement) => measurement_of(run@, tls_run@) == Ok::<
                    MeasurementModel,
                    ErrorModel,
                >(measurement@),
                Err(error) => measurement_of(run@, tls_run@) == Err::<MeasurementModel, ErrorModel>(
                    error@,
                ),
            },
    {
        if !tls_run.stream_closed_before_delete || !tls_run.delete_observed
            || !tls_run.lifecycle.complete() {
            return Err(
                EvaError::unavailable(
                    "MCP compatibility lifecycle measurement did not complete",
                ).with_provider_code("mcp_compatibility_lifecycle_incomplete"),
            );
        }
        let schema = digest_receipt(run.schema_bytes.as_slice());
        let output = digest_receipt(run.output_bytes.as_slice());
        if tls_run.handshake_count == 0 {
            return Err(
                EvaError::unavailable(
                    "MCP compatibility TLS handshakes were incomplete",
                ).with_provider_code("mcp_compatibility_tls_incomplete"),
            );
        }
        let tls = McpCompatibilityTlsReceipt {
            handshake_completed: true,
            peer_name: COMPATIBILITY_PEER.to_owned(),
            protocol: tls_run.tls_protocol.as_str().to_owned(),
            handshake_count: tls_run.handshake_count,
        };
        let observations = McpCompatibilityObservationReceipt {
            initialize_server_info: true,
            tools_list_schema: true,
            tools_call_result: true,
        };
        let abort = McpCompatibilityAbortReceipt {
            socket_closed: tls_run.stream_closed_before_delete && tls_run.lifecycle.socket_closed(),
            session_deleted: tls_run.delete_observed && tls_run.lifecycle.session_deleted(),
            reader_joined: tls_run.lifecycle.reader_joined(),
            sessions_after: tls_run.lifecycle.sessions_after(),
            readers_after: tls_run.lifecycle.readers_after(),
            cleanup_pending_after: tls_run.lifecycle.cleanup_pending_after(),
        };
        assert(tls@ == tls_seen(tls_run@));
        assert(abort@ == abort_seen(tls_run@));
        assert(observations@ == all_seen());
        let manifest = match compatibility_manifest(
            &run,
            &tls,
            &schema,
            &output,
            &observations,
            &abort,
        ) {
            Ok(manifest) => manifest,
            Err(error) => return Err(error),
        };
        let matrix = measured_matrix(run.protocol_version.as_str(), &schema, &output, &abort);
        let canonical_digest = sha256_digest(manifest.as_str().as_bytes());
        let measurement = McpCompatibilityMeasurement {
            server_name: run.server_name,
            server_version: run.server_version,
            protocol_version: run.protocol_version,
            transport: McpServerTransport::StreamableHttp,
            tool_name: COMPATIBILITY_TOOL.to_owned(),
            tls,
            schema,
            output,
            observations,
            abort,
            matrix,
            canonical_manifest: manifest,
            canonical_digest,
        };
        assert(measurement@ == measured(run@, tls_run@, measurement@.canonical_manifest));
        match measurement.verify() {
            Ok(_) => Ok(measurement),
            Err(error) => Err(error),
        }
    }

    pub fn server_name(&self) -> (name: &str)
        ensures
            name@ == self@.server_name,
    {
        self.server_name.as_str()
    }

    pub fn server_version(&self) -> (version: &str)
        ensures
            version@ == self@.server_version,
    {
        self.server_version.as_str()
    }

    pub fn protocol_version(&self) -> (version: &str)
        ensures
            version@ == self@.protocol_version,
    {
        self.protocol_version.as_str()
    }

    pub fn transport(&self) -> (transport: McpServerTransport)
        ensures
            transport == self@.transport,
    {
        self.transport
    }

    pub fn tool_name(&self) -> (name: &str)
        ensures
            name@ == self@.tool_name,
    {
        self.tool_name.as_str()
    }

    pub fn tls(&self) -> (tls: &McpCompatibilityTlsReceipt)
        ensures
            tls@ == self@.tls,
    {
        &self.tls
    }

    pub fn schema(&self) -> (schema: &McpCompatibilityDigestReceipt)
        ensures
            schema@ == self@.schema,
    {
        &self.schema
    }

    pub fn output(&self) -> (output: &McpCompatibilityDigestReceipt)
        ensures
            output@ == self@.output,
    {
        &self.output
    }

    pub fn observations(&self) -> (observations: &McpCompatibilityObservationReceipt)
        ensures
            observations@ == self@.observations,
    {
        &self.observations
    }

    pub fn abort(&self) -> (abort: &McpCompatibilityAbortReceipt)
        ensures
            abort@ == self@.abort,
    {
        &self.abort
    }

    /// The manifest: lines of a key and a value, each ended by a line feed.
    pub fn canonical_manifest(&self) -> (manifest: &str)
        ensures
            manifest@ == self@.canonical_manifest,
    {
        self.canonical_manifest.as_str()
    }

    /// The bytes of the manifest.
    pub fn subject_bytes(&self) -> (bytes: &[u8])
        ensures
            bytes@ == encode_utf8(self@.canonical_manifest),
    {
        self.canonical_manifest.as_str().as_bytes()
    }

    /// The digest of the manifest.
    pub fn canonical_digest(&self) -> (digest: &str)
        ensures
            digest@ == self@.canonical_digest,
    {
        self.canonical_digest.as_str()
    }

    /// Check the measurement.
    pub fn verify(&self) -> (outcome: Result<McpCompatibilityReport, EvaError>)
        ensures
            match outcome {
                Ok(report) => verification_of(self@) == Ok::<CompatibilityModel, ErrorModel>(
                    report@,
                ),
                Err(error) => verification_of(self@) == Err::<CompatibilityModel, ErrorModel>(
                    error@,
                ),
            },
    {
        let digest = sha256_digest(self.subject_bytes());
        if !str_eq(digest.as_str(), self.canonical_digest.as_str())
            || !self.tls.handshake_completed || !self.observations.initialize_server_info
            || !self.observations.tools_list_schema || !self.observations.tools_call_result
            || !self.abort.complete() || self.matrix.evidence_kind
            != McpCompatibilityEvidenceKind::Measurement {
            return Err(
                EvaError::conflict(
                    "MCP compatibility measurement receipt is inconsistent",
                ).with_provider_code("mcp_compatibility_measurement_invalid"),
            );
        }
        let report = match self.matrix.verify() {
            Ok(report) => report,
            Err(error) => return Err(error),
        };
        if report.failures.len() != 0 {
            return Err(
                EvaError::conflict(
                    "MCP compatibility measurement matrix is not compatible",
                ).with_provider_code("mcp_compatibility_measurement_blocked"),
            );
        }
        Ok(report)
    }
}

// ---------------------------------------------------------------------------
// Laws
// ---------------------------------------------------------------------------

/// A measurement that was made can be checked again at any time, and is found
/// compatible, with nothing left by the abort.
pub proof fn law_measurements_verify(run: RunModel, tls_run: TlsRunModel)
    ensures
        measurement_of(run, tls_run) matches Ok(m) ==> {
            &&& verification_of(m) == Ok::<CompatibilityModel, ErrorModel>(conclusion_of(m.matrix))
            &&& conclusion_of(m.matrix).status == "compatible"@
            &&& m.abort.complete()
            &&& m.canonical_digest == digest_label(sha256(encode_utf8(m.canonical_manifest)))
        },
{
}

proof fn lemma_scalars_are_written(entries: Entries, upto: int)
    requires
        0 <= upto <= entries.len(),
        forall|i: int| 0 <= i < upto ==> is_scalar_text((#[trigger] entries[i]).1),
    ensures
        manifest_text(entries, upto) is Ok,
    decreases upto,
{
    if upto > 0 {
        lemma_scalars_are_written(entries, upto - 1);
        assert(is_scalar_text(entries[upto - 1].1));
    }
}

proof fn lemma_decimal_is_scalar(n: nat)
    ensures
        is_scalar_text(text::decimal(n)),
{
    json_text::lemma_decimal_shape(n);
    assert forall|i: int| 0 <= i < text::decimal(n).len() implies ' ' <= #[trigger] text::decimal(
        n,
    )[i] && text::decimal(n)[i] <= '~' && text::decimal(n)[i] != '=' by {
        assert(json::is_digit(text::decimal(n)[i]));
    }
}

proof fn lemma_bool_is_scalar(value: bool)
    ensures
        is_scalar_text(http_session::bool_text(value)),
{
    reveal_strlit("true");
    reveal_strlit("false");
}

proof fn lemma_digest_is_scalar(digest: Seq<u8>)
    ensures
        is_scalar_text(digest_label(digest)),
{
    let label = digest_label(digest);
    let hex = server_rpc::hex_text(digest);
    server_rpc::lemma_hex_text(digest);
    reveal_strlit("sha256:");
    assert forall|i: int| 0 <= i < label.len() implies ' ' <= #[trigger] label[i] && label[i] <= '~'
        && label[i] != '=' by {
        if i >= 7 {
            assert(label[i] == hex[i - 7]);
            assert(json::is_hex_digit(hex[i - 7]));
        }
    }
}

proof fn lemma_constants_are_scalars()
    ensures
        is_scalar_text(COMPATIBILITY_FORMAT@),
        is_scalar_text("measurement"@),
        is_scalar_text(McpServerTransport::StreamableHttp.name()),
        is_scalar_text(COMPATIBILITY_PEER@),
        is_scalar_text(COMPATIBILITY_TOOL@),
{
    assert(is_scalar_text(COMPATIBILITY_FORMAT@)) by {
        reveal_strlit("eva.mcp-compatibility.v1");
    }
    assert(is_scalar_text("measurement"@)) by {
        reveal_strlit("measurement");
    }
    assert(is_scalar_text(McpServerTransport::StreamableHttp.name())) by {
        reveal_strlit("streamable_http");
    }
    assert(is_scalar_text(COMPATIBILITY_PEER@)) by {
        reveal_strlit("127.0.0.1");
    }
    assert(is_scalar_text(COMPATIBILITY_TOOL@)) by {
        reveal_strlit("compat.echo");
    }
}

proof fn lemma_entries_are_scalars(
    run: RunModel,
    tls: TlsModel,
    schema: Seq<u8>,
    output: Seq<u8>,
    seen: ObservationModel,
    abort: ReceiptModel,
)
    requires
        is_scalar_text(run.server_name),
        is_scalar_text(run.server_version),
        is_scalar_text(run.protocol_version),
        is_scalar_text(tls.protocol),
        tls.peer_name == COMPATIBILITY_PEER@,
    ensures
        ({
            let entries = manifest_entries(
                run,
                tls,
                digest_of(schema),
                digest_of(output),
                seen,
                abort,
            );
            manifest_text(entries, entries.len() as int) is Ok
        }),
{
    let entries = manifest_entries(run, tls, digest_of(schema), digest_of(output), seen, abort);
    lemma_constants_are_scalars();
    lemma_bool_is_scalar(true);
    lemma_bool_is_scalar(false);
    lemma_digest_is_scalar(sha256(schema));
    lemma_digest_is_scalar(sha256(output));
    lemma_decimal_is_scalar(tls.handshake_count as nat);
    lemma_decimal_is_scalar(digest_of(schema).bytes as nat);
    lemma_decimal_is_scalar(digest_of(output).bytes as nat);
    lemma_decimal_is_scalar(abort.sessions_after as nat);
    lemma_decimal_is_scalar(abort.readers_after as nat);
    lemma_decimal_is_scalar(abort.cleanup_pending_after as nat);
    lemma_scalars_are_written(entries, entries.len() as int);
}

/// Two runs that completed are measured, if what they report of the server can
/// stand in the manifest and the version of the protocol is not blank.
pub proof fn law_complete_runs_are_measured(run: RunModel, tls_run: TlsRunModel)
    requires
        tls_run.stream_closed_before_delete,
        tls_run.delete_observed,
        tls_run.lifecycle.complete(),
        tls_run.handshake_count > 0,
        is_scalar_text(run.server_name),
        is_scalar_text(run.server_version),
        is_scalar_text(run.protocol_version),
        is_scalar_text(tls_run.tls_protocol),
        text::trimmed(run.protocol_version).len() > 0,
    ensures
        measurement_of(run, tls_run) is Ok,
{
    let entries = manifest_entries(
        run,
        tls_seen(tls_run),
        digest_of(run.schema_bytes),
        digest_of(run.output_bytes),
        all_seen(),
        abort_seen(tls_run),
    );
    lemma_entries_are_scalars(
        run,
        tls_seen(tls_run),
        run.schema_bytes,
        run.output_bytes,
        all_seen(),
        abort_seen(tls_run),
    );
    let m = measured(run, tls_run, manifest_text(entries, entries.len() as int)->Ok_0);
    let transports = m.matrix.transports;
    let schemas = m.matrix.tool_schemas;
    assert(transports[0].transport.speaks_http() && transports[0].json_rpc);
    assert(transports.drop_last() =~= Seq::<McpTransportCompatibility>::empty());
    assert(schemas.drop_last() =~= Seq::<SchemaEntry>::empty());
    assert(limit_failures(transports) =~= Seq::<Seq<char>>::empty()) by {
        assert(limit_failures(transports.drop_last()) =~= Seq::<Seq<char>>::empty());
    }
    assert(stream_failures(transports) =~= Seq::<Seq<char>>::empty()) by {
        assert(stream_failures(transports.drop_last()) =~= Seq::<Seq<char>>::empty());
    }
    assert(schema_failures(schemas) =~= Seq::<Seq<char>>::empty()) by {
        assert(schema_failures(schemas.drop_last()) =~= Seq::<Seq<char>>::empty());
    }
    assert(failures_of(m.matrix).len() == 0);
}

// ---------------------------------------------------------------------------
// What a check concludes
// ---------------------------------------------------------------------------

proof fn lemma_listed_in_both(a: Seq<Seq<char>>, b: Seq<Seq<char>>, x: Seq<char>)
    ensures
        (a + b).contains(x) <==> a.contains(x) || b.contains(x),
{
    let all = a + b;
    if a.contains(x) {
        let i = choose|i: int| 0 <= i < a.len() && a[i] == x;
        assert(all[i] == x);
    }
    if b.contains(x) {
        let i = choose|i: int| 0 <= i < b.len() && b[i] == x;
        assert(all[a.len() + i] == x);
    }
    if all.contains(x) {
        let i = choose|i: int| 0 <= i < all.len() && all[i] == x;
        if i < a.len() {
            assert(a[i] == x);
        } else {
            assert(b[i - a.len()] == x);
        }
    }
}

proof fn lemma_listed_alone(condition: bool, item: Seq<char>, x: Seq<char>)
    ensures
        listed_if(condition, item).contains(x) <==> condition && item == x,
{
    if condition {
        assert(listed_if(condition, item)[0] == item);
    }
}

/// How a transport without limits is reported.
pub open spec fn limits_missing(entry: McpTransportCompatibility) -> Seq<char> {
    "transport:"@ + entry.transport.name() + "_limits_missing"@
}

/// How a transport whose streams are not cleaned up is reported.
pub open spec fn streams_missing(entry: McpTransportCompatibility) -> Seq<char> {
    "transport:"@ + entry.transport.name() + "_stream_lifecycle_missing"@
}

/// How a tool whose schema was not checked is reported.
pub open spec fn schema_unchecked(entry: SchemaEntry) -> Seq<char> {
    "tool_schema:"@ + entry.tool + "_unchecked"@
}

proof fn lemma_limits_listed(transports: Seq<McpTransportCompatibility>, x: Seq<char>)
    ensures
        limit_failures(transports).contains(x) <==> exists|i: int|
            0 <= i < transports.len() && !(#[trigger] transports[i]).timeout_and_output_limits && x
                == limits_missing(transports[i]),
        limit_failures(transports).len() == 0 <==> forall|i: int|
            0 <= i < transports.len() ==> (#[trigger] transports[i]).timeout_and_output_limits,
    decreases transports.len(),
{
    if transports.len() > 0 {
        let front = transports.drop_last();
        let last = transports.last();
        let listed = listed_if(!last.timeout_and_output_limits, limits_missing(last));
        lemma_limits_listed(front, x);
        lemma_listed_in_both(limit_failures(front), listed, x);
        lemma_listed_alone(!last.timeout_and_output_limits, limits_missing(last), x);
        assert(forall|i: int| 0 <= i < front.len() ==> front[i] == transports[i]);
        assert(transports[transports.len() - 1] == last);
        if limit_failures(front).contains(x) {
            let i = choose|i: int|
                0 <= i < front.len() && !(#[trigger] front[i]).timeout_and_output_limits && x
                    == limits_missing(front[i]);
            assert(transports[i] == front[i]);
        }
        if limit_failures(transports).len() == 0 {
            assert forall|i: int| 0 <= i < transports.len() implies (
            #[trigger] transports[i]).timeout_and_output_limits by {
                if i < front.len() {
                    assert(front[i].timeout_and_output_limits);
                }
            }
        }
    }
}

proof fn lemma_streams_listed(transports: Seq<McpTransportCompatibility>, x: Seq<char>)
    ensures
        stream_failures(transports).contains(x) <==> exists|i: int|
            0 <= i < transports.len() && !(#[trigger] transports[i]).stream_lifecycle && x
                == streams_missing(transports[i]),
        stream_failures(transports).len() == 0 <==> forall|i: int|
            0 <= i < transports.len() ==> (#[trigger] transports[i]).stream_lifecycle,
    decreases transports.len(),
{
    if transports.len() > 0 {
        let front = transports.drop_last();
        let last = transports.last();
        let listed = listed_if(!last.stream_lifecycle, streams_missing(last));
        lemma_streams_listed(front, x);
        lemma_listed_in_both(stream_failures(front), listed, x);
        lemma_listed_alone(!last.stream_lifecycle, streams_missing(last), x);
        assert(forall|i: int| 0 <= i < front.len() ==> front[i] == transports[i]);
        assert(transports[transports.len() - 1] == last);
        if stream_failures(front).contains(x) {
            let i = choose|i: int|
                0 <= i < front.len() && !(#[trigger] front[i]).stream_lifecycle && x
                    == streams_missing(front[i]);
            assert(transports[i] == front[i]);
        }
        if stream_failures(transports).len() == 0 {
            assert forall|i: int| 0 <= i < transports.len() implies (
            #[trigger] transports[i]).stream_lifecycle by {
                if i < front.len() {
                    assert(front[i].stream_lifecycle);
                }
            }
        }
    }
}

proof fn lemma_schemas_listed(schemas: Seq<SchemaEntry>, x: Seq<char>)
    ensures
        schema_failures(schemas).contains(x) <==> exists|i: int|
            0 <= i < schemas.len() && !(#[trigger] schemas[i]).schema_checked && x
                == schema_unchecked(schemas[i]),
        schema_failures(schemas).len() == 0 <==> forall|i: int|
            0 <= i < schemas.len() ==> (#[trigger] schemas[i]).schema_checked,
    decreases schemas.len(),
{
    if schemas.len() > 0 {
        let front = schemas.drop_last();
        let last = schemas.last();
        let listed = listed_if(!last.schema_checked, schema_unchecked(last));
        lemma_schemas_listed(front, x);
        lemma_listed_in_both(schema_failures(front), listed, x);
        lemma_listed_alone(!last.schema_checked, schema_unchecked(last), x);
        assert(forall|i: int| 0 <= i < front.len() ==> front[i] == schemas[i]);
        assert(schemas[schemas.len() - 1] == last);
        if schema_failures(front).contains(x) {
            let i = choose|i: int|
                0 <= i < front.len() && !(#[trigger] front[i]).schema_checked && x
                    == schema_unchecked(front[i]);
            assert(schemas[i] == front[i]);
        }
        if schema_failures(schemas).len() == 0 {
            assert forall|i: int| 0 <= i < schemas.len() implies (
            #[trigger] schemas[i]).schema_checked by {
                if i < front.len() {
                    assert(front[i].schema_checked);
                }
            }
        }
    }
}

/// Servers are found to be compatible exactly if nothing is missing: every
/// transport has limits and cleans up its streams, an HTTP server speaks JSON-RPC,
/// there are schemas and all were checked, streams are started, aborted and cleaned
/// up without a session left over, and tools are reached through an explicit gate
/// alone. What was written down, and not measured, must moreover hold a process that
/// speaks JSON-RPC and an HTTP server that takes authorization. Otherwise they are
/// blocked.
pub proof fn law_compatible_servers_lack_nothing(matrix: MatrixModel)
    ensures
        ({
            let told = conclusion_of(matrix);
            let whole = {
                &&& forall|i: int|
                    0 <= i < matrix.transports.len() ==> (
                    #[trigger] matrix.transports[i]).timeout_and_output_limits
                        && matrix.transports[i].stream_lifecycle
                &&& exists|i: int|
                    0 <= i < matrix.transports.len() && (#[trigger] matrix.transports[i]).transport
                        != McpServerTransport::Stdio && matrix.transports[i].json_rpc
                &&& matrix.tool_schemas.len() > 0
                &&& forall|i: int|
                    0 <= i < matrix.tool_schemas.len() ==> (
                    #[trigger] matrix.tool_schemas[i]).schema_checked
                &&& matrix.stream_lifecycle.start
                &&& matrix.stream_lifecycle.abort
                &&& matrix.stream_lifecycle.cleanup
                &&& matrix.stream_lifecycle.dangling_sessions_after_abort == 0
                &&& matrix.server_surface.explicit_tool_gate
                &&& !matrix.server_surface.unlimited_proxy_exposed
                &&& matrix.evidence_kind == McpCompatibilityEvidenceKind::Fixture ==> {
                    &&& exists|i: int|
                        0 <= i < matrix.transports.len() && (
                        #[trigger] matrix.transports[i]).transport == McpServerTransport::Stdio
                            && matrix.transports[i].json_rpc
                    &&& exists|i: int|
                        0 <= i < matrix.transports.len() && (
                        #[trigger] matrix.transports[i]).transport != McpServerTransport::Stdio
                            && matrix.transports[i].auth_headers
                }
            };
            &&& told.status == "compatible"@ <==> whole
            &&& told.failures.len() == 0 <==> whole
            &&& told.status == "compatible"@ || told.status == "blocked"@
            &&& "compatible"@ != "blocked"@
            &&& told.evidence_kind == matrix.evidence_kind
            &&& told.protocol_version == matrix.protocol_version
            &&& told.transport_count == matrix.transports.len() as usize
            &&& told.tool_schema_count == matrix.tool_schemas.len() as usize
        }),
{
    let none = Seq::<char>::empty();
    lemma_limits_listed(matrix.transports, none);
    lemma_streams_listed(matrix.transports, none);
    lemma_schemas_listed(matrix.tool_schemas, none);
    reveal_strlit("compatible");
    reveal_strlit("blocked");
    assert("compatible"@.len() == 10 && "blocked"@.len() == 7);
    if http_speaks(matrix.transports) {
        let i = choose|i: int|
            0 <= i < matrix.transports.len() && (
            #[trigger] matrix.transports[i]).transport.speaks_http()
                && matrix.transports[i].json_rpc;
        assert(matrix.transports[i].transport != McpServerTransport::Stdio);
    }
    if http_authorizes(matrix.transports) {
        let i = choose|i: int|
            0 <= i < matrix.transports.len() && (
            #[trigger] matrix.transports[i]).transport.speaks_http()
                && matrix.transports[i].auth_headers;
        assert(matrix.transports[i].transport != McpServerTransport::Stdio);
    }
}

/// The failures that are not told of one transport or one schema, each with
/// whether it is there.
pub open spec fn single_failures(matrix: MatrixModel) -> Seq<(bool, Seq<char>)> {
    let fixture = matrix.evidence_kind == McpCompatibilityEvidenceKind::Fixture;
    let t = matrix.transports;
    let life = matrix.stream_lifecycle;
    seq![
        (
            fixture && forall|i: int|
                0 <= i < t.len() ==> !((#[trigger] t[i]).transport == McpServerTransport::Stdio
                    && t[i].json_rpc),
            "transport:stdio_json_rpc_missing"@,
        ),
        (
            forall|i: int|
                0 <= i < t.len() ==> !((#[trigger] t[i]).transport != McpServerTransport::Stdio
                    && t[i].json_rpc),
            "transport:http_json_rpc_missing"@,
        ),
        (
            fixture && forall|i: int|
                0 <= i < t.len() ==> !((#[trigger] t[i]).transport != McpServerTransport::Stdio
                    && t[i].auth_headers),
            "transport:http_auth_headers_missing"@,
        ),
        (matrix.tool_schemas.len() == 0, "tool_schema:matrix_empty"@),
        (!life.start, "stream_lifecycle:start_missing"@),
        (!life.abort, "stream_lifecycle:abort_missing"@),
        (!life.cleanup, "stream_lifecycle:cleanup_missing"@),
        (
            life.dangling_sessions_after_abort > 0,
            "stream_lifecycle:dangling_sessions:"@ + text::decimal(
                life.dangling_sessions_after_abort as nat,
            ),
        ),
        (
            !matrix.server_surface.explicit_tool_gate,
            "server_surface:explicit_tool_gate_missing"@,
        ),
        (matrix.server_surface.unlimited_proxy_exposed, "server_surface:unlimited_proxy_exposed"@),
    ]
}

/// The failures, part by part.
spec fn failure_parts(matrix: MatrixModel) -> Seq<Seq<Seq<char>>> {
    let fixture = matrix.evidence_kind == McpCompatibilityEvidenceKind::Fixture;
    let life = matrix.stream_lifecycle;
    seq![
        listed_if(
            fixture && !stdio_speaks(matrix.transports),
            "transport:stdio_json_rpc_missing"@,
        ),
        listed_if(!http_speaks(matrix.transports), "transport:http_json_rpc_missing"@),
        listed_if(
            fixture && !http_authorizes(matrix.transports),
            "transport:http_auth_headers_missing"@,
        ),
        limit_failures(matrix.transports),
        stream_failures(matrix.transports),
        listed_if(matrix.tool_schemas.len() == 0, "tool_schema:matrix_empty"@),
        schema_failures(matrix.tool_schemas),
        listed_if(!life.start, "stream_lifecycle:start_missing"@),
        listed_if(!life.abort, "stream_lifecycle:abort_missing"@),
        listed_if(!life.cleanup, "stream_lifecycle:cleanup_missing"@),
        listed_if(
            life.dangling_sessions_after_abort > 0,
            "stream_lifecycle:dangling_sessions:"@ + text::decimal(
                life.dangling_sessions_after_abort as nat,
            ),
        ),
        listed_if(
            !matrix.server_surface.explicit_tool_gate,
            "server_surface:explicit_tool_gate_missing"@,
        ),
        listed_if(
            matrix.server_surface.unlimited_proxy_exposed,
            "server_surface:unlimited_proxy_exposed"@,
        ),
    ]
}

proof fn lemma_failure_parts(matrix: MatrixModel)
    ensures
        failures_of(matrix) == behind_each_other(failure_parts(matrix)),
{
    lemma_thirteen(failure_parts(matrix));
}

/// The part that a single failure is told in.
spec fn part_of(k: int) -> int {
    if k <= 2 {
        k
    } else if k == 3 {
        5
    } else {
        k + 3
    }
}

proof fn lemma_single_part(matrix: MatrixModel, k: int, x: Seq<char>)
    requires
        0 <= k < 10,
    ensures
        failure_parts(matrix)[part_of(k)].contains(x) <==> single_failures(matrix)[k].0
            && single_failures(matrix)[k].1 == x,
{
    let s = single_failures(matrix);
    lemma_listed_alone(s[k].0, s[k].1, x);
    assert(failure_parts(matrix)[part_of(k)] == listed_if(s[k].0, s[k].1)) by {
        if k == 0 {
            assert(s[0].0 == (matrix.evidence_kind == McpCompatibilityEvidenceKind::Fixture
                && !stdio_speaks(matrix.transports)));
        } else if k == 1 {
            assert(s[1].0 == !http_speaks(matrix.transports));
        } else if k == 2 {
            assert(s[2].0 == (matrix.evidence_kind == McpCompatibilityEvidenceKind::Fixture
                && !http_authorizes(matrix.transports)));
        } else {
            assert(k == 3 || k == 4 || k == 5 || k == 6 || k == 7 || k == 8 || k == 9);
        }
    }
}

/// A failure is told exactly if it is there: a transport lacks limits or does not
/// clean up its streams, a schema was not checked, or something is amiss with the
/// whole.
pub proof fn law_failures_are_told_exactly(matrix: MatrixModel, x: Seq<char>)
    ensures
        conclusion_of(matrix).failures.contains(x) <==> {
            ||| exists|i: int|
                0 <= i < matrix.transports.len() && !(
                #[trigger] matrix.transports[i]).timeout_and_output_limits && x == limits_missing(
                    matrix.transports[i],
                )
            ||| exists|i: int|
                0 <= i < matrix.transports.len() && !(
                #[trigger] matrix.transports[i]).stream_lifecycle && x == streams_missing(
                    matrix.transports[i],
                )
            ||| exists|i: int|
                0 <= i < matrix.tool_schemas.len() && !(
                #[trigger] matrix.tool_schemas[i]).schema_checked && x == schema_unchecked(
                    matrix.tool_schemas[i],
                )
            ||| exists|k: int|
                0 <= k < single_failures(matrix).len() && (
                #[trigger] single_failures(matrix)[k]).0 && single_failures(matrix)[k].1 == x
        },
{
    let s = single_failures(matrix);
    let parts = failure_parts(matrix);
    lemma_failure_parts(matrix);
    lemma_listed_in_one(parts, x);
    lemma_limits_listed(matrix.transports, x);
    lemma_streams_listed(matrix.transports, x);
    lemma_schemas_listed(matrix.tool_schemas, x);
    assert(parts[3] == limit_failures(matrix.transports));
    assert(parts[4] == stream_failures(matrix.transports));
    assert(parts[6] == schema_failures(matrix.tool_schemas));
    assert(parts.len() == 13 && s.len() == 10);
    if failures_of(matrix).contains(x) {
        let j = choose|j: int| 0 <= j < parts.len() && (#[trigger] parts[j]).contains(x);
        if j != 3 && j != 4 && j != 6 {
            let k = if j <= 2 {
                j
            } else if j == 5 {
                3
            } else {
                j - 3
            };
            assert(part_of(k) == j);
            lemma_single_part(matrix, k, x);
            assert(s[k].0 && s[k].1 == x);
        }
    }
    if exists|k: int| 0 <= k < s.len() && (#[trigger] s[k]).0 && s[k].1 == x {
        let k = choose|k: int| 0 <= k < s.len() && (#[trigger] s[k]).0 && s[k].1 == x;
        lemma_single_part(matrix, k, x);
        assert(parts[part_of(k)].contains(x));
    }
}

/// Lists behind each other.
pub open spec fn behind_each_other(parts: Seq<Seq<Seq<char>>>) -> Seq<Seq<char>>
    decreases parts.len(),
{
    if parts.len() == 0 {
        Seq::empty()
    } else {
        behind_each_other(parts.drop_last()) + parts.last()
    }
}

proof fn lemma_listed_in_one(parts: Seq<Seq<Seq<char>>>, x: Seq<char>)
    ensures
        behind_each_other(parts).contains(x) <==> exists|j: int|
            0 <= j < parts.len() && (#[trigger] parts[j]).contains(x),
    decreases parts.len(),
{
    if parts.len() > 0 {
        let front = parts.drop_last();
        lemma_listed_in_one(front, x);
        lemma_listed_in_both(behind_each_other(front), parts.last(), x);
        assert(forall|j: int| 0 <= j < front.len() ==> front[j] == parts[j]);
        if behind_each_other(front).contains(x) {
            let j = choose|j: int| 0 <= j < front.len() && (#[trigger] front[j]).contains(x);
            assert(parts[j].contains(x));
        }
        if exists|j: int| 0 <= j < parts.len() && (#[trigger] parts[j]).contains(x) {
            let j = choose|j: int| 0 <= j < parts.len() && (#[trigger] parts[j]).contains(x);
            if j < front.len() {
                assert(front[j].contains(x));
            }
        }
    }
}

proof fn lemma_thirteen(p: Seq<Seq<Seq<char>>>)
    requires
        p.len() == 13,
    ensures
        behind_each_other(p) == p[0] + p[1] + p[2] + p[3] + p[4] + p[5] + p[6] + p[7] + p[8] + p[9]
            + p[10] + p[11] + p[12],
{
    let none = Seq::<Seq<char>>::empty();
    assert(none + p[0] =~= p[0]);
    assert(p.take(0) =~= Seq::<Seq<Seq<char>>>::empty());
    assert(behind_each_other(p.take(0)) == none);
    lemma_one_more(p, 0);
    lemma_one_more(p, 1);
    lemma_one_more(p, 2);
    lemma_one_more(p, 3);
    lemma_one_more(p, 4);
    lemma_one_more(p, 5);
    lemma_one_more(p, 6);
    lemma_one_more(p, 7);
    lemma_one_more(p, 8);
    lemma_one_more(p, 9);
    lemma_one_more(p, 10);
    lemma_one_more(p, 11);
    lemma_one_more(p, 12);
    assert(p.take(13) =~= p);
}

proof fn lemma_one_more(p: Seq<Seq<Seq<char>>>, n: int)
    requires
        0 <= n < p.len(),
    ensures
        behind_each_other(p.take(n + 1)) == behind_each_other(p.take(n)) + p[n],
{
    assert(p.take(n + 1).drop_last() =~= p.take(n));
    assert(p.take(n + 1).last() == p[n]);
}

proof fn lemma_limit_text(transport: McpServerTransport)
    ensures
        ({
            let x = "transport:"@ + transport.name() + "_limits_missing"@;
            &&& x.len() > 15
            &&& x[0] == 't'
            &&& x[1] == 'r'
            &&& x[x.len() - 9] == 's'
            &&& x[x.len() - 10] == 't'
        }),
{
    reveal_strlit("transport:");
    reveal_strlit("_limits_missing");
    let x = "transport:"@ + transport.name() + "_limits_missing"@;
    assert("transport:"@.len() == 10 && "_limits_missing"@.len() == 15);
    assert(x[0] == "transport:"@[0] && x[1] == "transport:"@[1]);
    assert(x[x.len() - 9] == "_limits_missing"@[6]);
    assert(x[x.len() - 10] == "_limits_missing"@[5]);
}

proof fn lemma_other_texts(matrix: MatrixModel, k: int, x: Seq<char>)
    requires
        0 <= k < single_failures(matrix).len(),
        x == single_failures(matrix)[k].1,
        x.len() > 15,
    ensures
        !(x[0] == 't' && x[1] == 'r' && x[x.len() - 9] == 's' && x[x.len() - 10] == 't'),
{
    let s = single_failures(matrix);
    reveal_strlit("transport:stdio_json_rpc_missing");
    reveal_strlit("transport:http_json_rpc_missing");
    reveal_strlit("transport:http_auth_headers_missing");
    reveal_strlit("tool_schema:matrix_empty");
    reveal_strlit("stream_lifecycle:start_missing");
    reveal_strlit("stream_lifecycle:abort_missing");
    reveal_strlit("stream_lifecycle:cleanup_missing");
    reveal_strlit("stream_lifecycle:dangling_sessions:");
    reveal_strlit("server_surface:explicit_tool_gate_missing");
    reveal_strlit("server_surface:unlimited_proxy_exposed");
    assert("transport:stdio_json_rpc_missing"@.len() == 32);
    assert("transport:http_json_rpc_missing"@.len() == 31);
    assert("transport:http_auth_headers_missing"@.len() == 35);
    assert(k == 0 || k == 1 || k == 2 || k == 3 || k == 4 || k == 5 || k == 6 || k == 7 || k == 8
        || k == 9);
    if k == 7 {
        assert(x[0] == "stream_lifecycle:dangling_sessions:"@[0]);
    }
}

/// A transport of some name is told to lack limits exactly if one of that name
/// does.
pub proof fn law_missing_limits_are_told(matrix: MatrixModel, transport: McpServerTransport)
    ensures
        conclusion_of(matrix).failures.contains(
            "transport:"@ + transport.name() + "_limits_missing"@,
        ) <==> exists|i: int|
            0 <= i < matrix.transports.len() && (#[trigger] matrix.transports[i]).transport
                == transport && !matrix.transports[i].timeout_and_output_limits,
{
    let x = "transport:"@ + transport.name() + "_limits_missing"@;
    let t = matrix.transports;
    law_failures_are_told_exactly(matrix, x);
    lemma_limit_text(transport);
    assert forall|i: int|
        0 <= i < t.len() && x == limits_missing(#[trigger] t[i]) implies t[i].transport
        == transport by {
        lemma_names_differ(transport, t[i].transport);
    }
    assert forall|i: int| 0 <= i < t.len() implies x != streams_missing(#[trigger] t[i]) by {
        let y = streams_missing(t[i]);
        reveal_strlit("_stream_lifecycle_missing");
        assert("_stream_lifecycle_missing"@.len() == 25);
        assert(y[y.len() - 9] == "_stream_lifecycle_missing"@[16]);
    }
    assert forall|i: int| 0 <= i < matrix.tool_schemas.len() implies x != schema_unchecked(
        #[trigger] matrix.tool_schemas[i],
    ) by {
        let y = schema_unchecked(matrix.tool_schemas[i]);
        reveal_strlit("tool_schema:");
        assert(y[1] == "tool_schema:"@[1]);
    }
    assert forall|k: int| 0 <= k < single_failures(matrix).len() implies (
    #[trigger] single_failures(matrix)[k]).1 != x by {
        if single_failures(matrix)[k].1 == x {
            lemma_other_texts(matrix, k, x);
        }
    }
    if exists|i: int|
        0 <= i < t.len() && (#[trigger] t[i]).transport == transport
            && !t[i].timeout_and_output_limits {
        let i = choose|i: int|
            0 <= i < t.len() && (#[trigger] t[i]).transport == transport
                && !t[i].timeout_and_output_limits;
        assert(x == limits_missing(t[i]));
    }
}

/// Transports with the same report have the same name, and are the same.
proof fn lemma_names_differ(a: McpServerTransport, b: McpServerTransport)
    requires
        "transport:"@ + a.name() + "_limits_missing"@ == "transport:"@ + b.name()
            + "_limits_missing"@,
    ensures
        a == b,
{
    reveal_strlit("stdio");
    reveal_strlit("http");
    reveal_strlit("streamable_http");
    assert("stdio"@.len() == 5 && "http"@.len() == 4 && "streamable_http"@.len() == 15);
    let x = "transport:"@ + a.name() + "_limits_missing"@;
    let y = "transport:"@ + b.name() + "_limits_missing"@;
    assert(x.len() == "transport:"@.len() + a.name().len() + "_limits_missing"@.len());
    assert(y.len() == "transport:"@.len() + b.name().len() + "_limits_missing"@.len());
}

} // verus!

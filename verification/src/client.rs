//! A client that applies the allowlist without any server behind it.

use vstd::prelude::*;
use vstd::string::*;
use crate::identity::{AdapterId, InvokeOutput, RequestId};
use crate::error::EvaError;
use crate::policy;
use crate::policy::McpAllowlist;
use crate::text::chars_of;

verus! {

pub const RESPONSIBILITY: &'static str = "MCP client protocol integration";

/// Whether a tool may be called.
#[derive(Debug, Clone, Copy, PartialEq, Eq, Structural)]
pub enum McpProbeStatus {
    Allowed,
    Blocked,
}

impl McpProbeStatus {
    /// The stable name of the status.
    pub open spec fn name(self) -> Seq<char> {
        match self {
            McpProbeStatus::Allowed => "allowed"@,
            McpProbeStatus::Blocked => "blocked"@,
        }
    }

    pub fn as_str(self) -> (name: &'static str)
        ensures
            name@ == self.name(),
    {
        match self {
            McpProbeStatus::Allowed => "allowed",
            McpProbeStatus::Blocked => "blocked",
        }
    }
}

/// What a probe of a tool found. Nothing is called to find it.
#[derive(Debug, Clone, PartialEq, Eq)]
pub struct McpProbeReport {
    pub adapter_id: AdapterId,
    pub status: McpProbeStatus,
    pub tool: String,
    pub message: String,
}

/// What a call of a tool gave.
#[derive(Clone, PartialEq, Eq)]
pub struct McpCallReport {
    pub request_id: RequestId,
    pub adapter_id: AdapterId,
    pub tool: String,
    pub output: InvokeOutput,
}

impl McpCallReport {
    /// How the report is described, without its output.
    pub open spec fn description(&self) -> Seq<char> {
        "McpCallReport { request_id: "@ + self.request_id@ + ", adapter_id: "@ + self.adapter_id@
            + ", tool: "@ + self.tool@ + ", output: [REDACTED_OUTPUT] }"@
    }

    /// A description of the report that keeps its output out.
    pub fn describe(&self) -> (text: String)
        ensures
            text@ == self.description(),
    {
        let mut text = String::new();
        text.append("McpCallReport { request_id: ");
        text.append(self.request_id.as_str());
        text.append(", adapter_id: ");
        text.append(self.adapter_id.as_str());
        text.append(", tool: ");
        text.append(self.tool.as_str());
        text.append(", output: [REDACTED_OUTPUT] }");
        assert(text@ =~= self.description());
        text
    }
}

/// How a character stands in the envelope.
pub open spec fn envelope_char(c: char) -> Seq<char> {
    if c == '"' {
        seq!['\\', '"']
    } else if c == '\\' {
        seq!['\\', '\\']
    } else if c == '\n' {
        seq!['\\', 'n']
    } else if c == '\r' {
        seq!['\\', 'r']
    } else if c == '\t' {
        seq!['\\', 't']
    } else {
        seq![c]
    }
}

/// How a text stands in the envelope.
pub open spec fn envelope_escaped(s: Seq<char>) -> Seq<char>
    decreases s.len(),
{
    if s.len() == 0 {
        Seq::empty()
    } else {
        envelope_escaped(s.drop_last()) + envelope_char(s.last())
    }
}

fn escape_json(value: &str) -> (out: String)
    ensures
        out@ == envelope_escaped(value@),
{
    let chars = chars_of(value);
    let mut out = String::new();
    let mut i: usize = 0;
    assert(value@.take(0) =~= Seq::<char>::empty());
    while i < chars.len()
        invariant
            i <= chars@.len(),
            chars@ == value@,
            out@ == envelope_escaped(value@.take(i as int)),
        decreases chars@.len() - i,
    {
        let c = chars[i];
        let ghost before = out@;
        if c == '"' {
            out.push('\\');
            out.push('"');
        } else if c == '\\' {
            out.push('\\');
            out.push('\\');
        } else if c == '\n' {
            out.push('\\');
            out.push('n');
        } else if c == '\r' {
            out.push('\\');
            out.push('r');
        } else if c == '\t' {
            out.push('\\');
            out.push('t');
        } else {
            out.push(c);
        }
        assert(out@ =~= before + envelope_char(c));
        assert(value@.take(i + 1).drop_last() =~= value@.take(i as int));
        assert(value@.take(i + 1).last() == c);
        i += 1;
    }
    assert(value@.take(i as int) =~= value@);
    out
}

/// What a call without a server answers: the call itself.
pub open spec fn envelope(adapter: Seq<char>, tool: Seq<char>, input: Seq<char>) -> Seq<char> {
    "{\"transport\":\"mcp\",\"adapter_id\":\""@ + envelope_escaped(adapter) + "\",\"tool\":\""@
        + envelope_escaped(tool) + "\",\"mode\":\"controlled-envelope\",\"input\":\""@
        + envelope_escaped(input) + "\"}"@
}

/// A client that applies the allowlist without any server behind it.
#[derive(Debug, Clone, PartialEq, Eq)]
pub struct InMemoryMcpClient {
    adapter_id: AdapterId,
    allowlist: McpAllowlist,
}

impl InMemoryMcpClient {
    pub closed spec fn wf(&self) -> bool {
        self.allowlist.wf()
    }

    /// The adapter on whose behalf the client calls.
    pub closed spec fn adapter(&self) -> AdapterId {
        self.adapter_id
    }

    /// The names that the client may use.
    pub closed spec fn permissions(&self) -> McpAllowlist {
        self.allowlist
    }

    pub fn new(adapter_id: AdapterId, allowlist: McpAllowlist) -> (client: InMemoryMcpClient)
        requires
            allowlist.wf(),
        ensures
            client.wf(),
            client.adapter() == adapter_id,
            client.permissions() == allowlist,
    {
        InMemoryMcpClient { adapter_id, allowlist }
    }

    pub fn adapter_id(&self) -> (adapter_id: &AdapterId)
        ensures
            *adapter_id == self.adapter(),
    {
        &self.adapter_id
    }

    pub fn allowlist(&self) -> (allowlist: &McpAllowlist)
        requires
            self.wf(),
        ensures
            *allowlist == self.permissions(),
            allowlist.wf(),
    {
        &self.allowlist
    }

    /// Say whether the tool may be called.
    pub fn probe_tool(&self, tool: &str) -> (report: McpProbeReport)
        requires
            self.wf(),
        ensures
            report.adapter_id@ == self.adapter()@,
            report.tool@ == tool@,
            self.permissions().tool_set().contains(tool@) ==> report.status
                == McpProbeStatus::Allowed && report.message@
                == "tool is allowlisted for controlled MCP invocation"@,
            !self.permissions().tool_set().contains(tool@) ==> report.status
                == McpProbeStatus::Blocked && report.message@
                == "tool is not in the MCP allowlist"@,
    {
        if self.allowlist.permits_tool(tool) {
            McpProbeReport {
                adapter_id: self.adapter_id.copy(),
                status: McpProbeStatus::Allowed,
                tool: tool.to_owned(),
                message: "tool is allowlisted for controlled MCP invocation".to_owned(),
            }
        } else {
            McpProbeReport {
                adapter_id: self.adapter_id.copy(),
                status: McpProbeStatus::Blocked,
                tool: tool.to_owned(),
                message: "tool is not in the MCP allowlist".to_owned(),
            }
        }
    }

    /// Answer a call of a listed tool with an envelope of the call.
    pub fn call_tool(&self, request_id: RequestId, tool: &str, input: &str) -> (outcome: Result<
        McpCallReport,
        EvaError,
    >)
        requires
            self.wf(),
        ensures
            match outcome {
                Ok(report) => {
                    &&& self.permissions().tool_set().contains(tool@)
                    &&& report.request_id == request_id
                    &&& report.adapter_id@ == self.adapter()@
                    &&& report.tool@ == tool@
                    &&& report.output@ == envelope(self.adapter()@, tool@, input@)
                },
                Err(error) => !self.permissions().tool_set().contains(tool@) && error@
                    == policy::tool_not_allowlisted(tool@),
            },
    {
        match self.allowlist.require_tool(tool) {
            Ok(()) => {},
            Err(error) => return Err(error),
        }
        let mut output = String::new();
        output.append("{\"transport\":\"mcp\",\"adapter_id\":\"");
        output.append(escape_json(self.adapter_id.as_str()).as_str());
        output.append("\",\"tool\":\"");
        output.append(escape_json(tool).as_str());
        output.append("\",\"mode\":\"controlled-envelope\",\"input\":\"");
        output.append(escape_json(input).as_str());
        output.append("\"}");
        assert(output@ =~= envelope(self.adapter()@, tool@, input@));
        Ok(
            McpCallReport {
                request_id,
                adapter_id: self.adapter_id.copy(),
                tool: tool.to_owned(),
                output: InvokeOutput::text(output),
            },
        )
    }
}

} // verus!

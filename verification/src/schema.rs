//! The families of messages that cross the boundary.

use vstd::prelude::*;

verus! {

pub const RESPONSIBILITY: &'static str = "MCP input and output schema boundaries";

#[derive(Debug, Clone, Copy, PartialEq, Eq, Structural)]
pub enum McpSchemaFamily {
    ToolCall,
    ToolResult,
    ErrorEnvelope,
}

impl McpSchemaFamily {
    /// The stable name of the family.
    pub open spec fn name(self) -> Seq<char> {
        match self {
            McpSchemaFamily::ToolCall => "mcp.tool_call"@,
            McpSchemaFamily::ToolResult => "mcp.tool_result"@,
            McpSchemaFamily::ErrorEnvelope => "mcp.error_envelope"@,
        }
    }

    pub fn as_str(self) -> (name: &'static str)
        ensures
            name@ == self.name(),
    {
        match self {
            McpSchemaFamily::ToolCall => "mcp.tool_call",
            McpSchemaFamily::ToolResult => "mcp.tool_result",
            McpSchemaFamily::ErrorEnvelope => "mcp.error_envelope",
        }
    }
}

} // verus!

//! How a server is reached, and the process that a stdio session runs.

use vstd::prelude::*;
use crate::identity::AdapterId;

verus! {

/// The transport that reaches a server.
#[derive(Debug, Clone, Copy, PartialEq, Eq, Structural)]
pub enum McpServerTransport {
    Stdio,
    Http,
    StreamableHttp,
}

impl McpServerTransport {
    pub open spec fn name(self) -> Seq<char> {
        match self {
            McpServerTransport::Stdio => "stdio"@,
            McpServerTransport::Http => "http"@,
            McpServerTransport::StreamableHttp => "streamable_http"@,
        }
    }

    pub open spec fn speaks_http(self) -> bool {
        self != McpServerTransport::Stdio
    }

    /// The stable name of the transport.
    pub fn as_str(self) -> (name: &'static str)
        ensures
            name@ == self.name(),
    {
        match self {
            McpServerTransport::Stdio => "stdio",
            McpServerTransport::Http => "http",
            McpServerTransport::StreamableHttp => "streamable_http",
        }
    }

    /// Whether the transport is HTTP in one of its forms.
    pub fn is_http(self) -> (http: bool)
        ensures
            http == self.speaks_http(),
    {
        match self {
            McpServerTransport::Stdio => false,
            _ => true,
        }
    }
}

/// The process that a stdio session runs.
#[derive(Debug, Clone, PartialEq, Eq)]
pub struct McpProcessSpec {
    pub command: String,
    pub args: Vec<String>,
    /// The commands that may be run.
    pub allowed_commands: Vec<String>,
    pub startup_timeout_ms: u64,
}

/// How a session is set up.
#[derive(Debug, Clone, PartialEq, Eq)]
pub struct McpSessionConfig {
    pub adapter_id: AdapterId,
    pub server_transport: McpServerTransport,
    pub process: McpProcessSpec,
}

} // verus!

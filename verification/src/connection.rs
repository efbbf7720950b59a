//! How connections are made: what a resolver may return, what is reported when
//! a connection, a handshake or a transfer fails, and how long each may take.

use vstd::prelude::*;
use crate::error::{ErrorKind, ErrorModel, EvaError};
use crate::http_reply;
use crate::text;
use crate::text::{decimal_usize, str_eq};

verus! {

/// How many resolvers may run at once.
pub const MAX_DNS_RESOLVER_THREADS: usize = 16;

/// How many addresses a name may have.
pub const MAX_DNS_ADDRESSES: usize = 64;

// ---------------------------------------------------------------------------
// Connectors
// ---------------------------------------------------------------------------

/// Which connector an endpoint needs.
#[derive(Debug, Clone, Copy, PartialEq, Eq, Structural)]
pub enum ConnectorKind {
    Plaintext,
    Tls,
}

pub open spec fn unsupported_scheme_model(scheme: Seq<char>) -> ErrorModel {
    ErrorModel::new(ErrorKind::Unsupported, "unsupported MCP HTTP connector scheme"@).code(
        "mcp_http_scheme_unsupported"@,
    ).ctx("scheme"@, scheme)
}

/// The connector that a scheme needs.
pub open spec fn connector_of(scheme: Seq<char>) -> Option<ConnectorKind> {
    if scheme == "http"@ {
        Some(ConnectorKind::Plaintext)
    } else if scheme == "https"@ {
        Some(ConnectorKind::Tls)
    } else {
        None
    }
}

/// The connector that a scheme needs.
pub fn connector_kind(scheme: &str) -> (outcome: Result<ConnectorKind, EvaError>)
    ensures
        match outcome {
            Ok(kind) => connector_of(scheme@) == Some(kind),
            Err(error) => connector_of(scheme@) is None && error@ == unsupported_scheme_model(
                scheme@,
            ),
        },
{
    if str_eq(scheme, "http") {
        Ok(ConnectorKind::Plaintext)
    } else if str_eq(scheme, "https") {
        Ok(ConnectorKind::Tls)
    } else {
        Err(
            EvaError::unsupported("unsupported MCP HTTP connector scheme").with_provider_code(
                "mcp_http_scheme_unsupported",
            ).with_context("scheme", scheme),
        )
    }
}

pub open spec fn scheme_mismatch_model(origin: Seq<char>) -> ErrorModel {
    ErrorModel::new(
        ErrorKind::Internal,
        "MCP HTTP connector does not match endpoint scheme"@,
    ).code("mcp_http_connector_scheme_mismatch"@).ctx("origin"@, origin)
}

/// Refuse a scheme that a connector was not made for.
pub fn require_scheme(kind: ConnectorKind, scheme: &str, origin: &str) -> (outcome: Result<
    (),
    EvaError,
>)
    ensures
        match outcome {
            Ok(()) => connector_of(scheme@) == Some(kind),
            Err(error) => connector_of(scheme@) != Some(kind) && error@ == scheme_mismatch_model(
                origin@,
            ),
        },
{
    let matches_kind = match connector_kind(scheme) {
        Ok(needed) => needed == kind,
        Err(_) => false,
    };
    if matches_kind {
        Ok(())
    } else {
        Err(
            EvaError::internal(
                "MCP HTTP connector does not match endpoint scheme",
            ).with_provider_code("mcp_http_connector_scheme_mismatch").with_context(
                "origin",
                origin,
            ),
        )
    }
}

// ---------------------------------------------------------------------------
// Time
// ---------------------------------------------------------------------------

/// How long a socket may take.
#[derive(Debug, Clone, Copy, PartialEq, Eq, Structural)]
pub enum McpSocketTimeout {
    /// Until a moment so many milliseconds away.
    Deadline(u64),
    /// So many milliseconds for each transfer.
    Idle(u64),
}

/// How many milliseconds the next transfer may take; none where the time is up.
pub fn remaining_timeout(timeout: McpSocketTimeout) -> (remaining: Option<u64>)
    ensures
        remaining == match timeout {
            McpSocketTimeout::Deadline(ms) => if ms > 0 {
                Some(ms)
            } else {
                None
            },
            McpSocketTimeout::Idle(ms) => if ms > 0 {
                Some(ms)
            } else {
                None
            },
        },
{
    match timeout {
        McpSocketTimeout::Deadline(ms) => if ms > 0 {
            Some(ms)
        } else {
            None
        },
        McpSocketTimeout::Idle(ms) => if ms > 0 {
            Some(ms)
        } else {
            None
        },
    }
}

/// Whether what a transfer gave still counts: not after the deadline.
pub fn transfer_counts(timeout: McpSocketTimeout) -> (counts: bool)
    ensures
        counts == (timeout != McpSocketTimeout::Deadline(0)),
{
    match timeout {
        McpSocketTimeout::Deadline(ms) => ms > 0,
        McpSocketTimeout::Idle(_) => true,
    }
}

// ---------------------------------------------------------------------------
// Names
// ---------------------------------------------------------------------------

pub open spec fn resolvers_exhausted_model(origin: Seq<char>) -> ErrorModel {
    ErrorModel::new(
        ErrorKind::Unavailable,
        "MCP HTTP DNS resolver capacity is exhausted"@,
    ).code("mcp_http_dns_capacity_exhausted"@).retry(true).ctx("origin"@, origin)
}

/// The number of resolvers after one more has started, if it may.
pub fn acquire_resolver(active: usize, limit: usize) -> (more: Option<usize>)
    ensures
        more == if active < limit {
            Some((active + 1) as usize)
        } else {
            None
        },
{
    if active < limit {
        Some(active + 1)
    } else {
        None
    }
}

/// The error of a resolver that may not start.
pub fn resolvers_exhausted(origin: &str) -> (error: EvaError)
    ensures
        error@ == resolvers_exhausted_model(origin@),
{
    EvaError::unavailable("MCP HTTP DNS resolver capacity is exhausted").with_provider_code(
        "mcp_http_dns_capacity_exhausted",
    ).with_retryable(true).with_context("origin", origin)
}

/// How a name was resolved.
#[derive(Debug, Clone, Copy, PartialEq, Eq, Structural)]
pub enum Resolution {
    /// The time was up before.
    Expired,
    /// No resolver could be started.
    NotStarted,
    /// The resolver did not answer in time.
    TimedOut,
    /// The resolver stopped without an answer.
    Stopped,
    /// The resolver answered in time, with so many addresses or an error.
    Answered { in_time: bool, addresses: Option<usize> },
}

pub open spec fn dns_timeout_model(origin: Seq<char>) -> ErrorModel {
    ErrorModel::new(ErrorKind::Timeout, "MCP HTTP DNS resolution timed out"@).code(
        "mcp_http_dns_timeout"@,
    ).ctx("origin"@, origin)
}

/// Why a resolution is refused, if it is.
pub open spec fn resolution_refusal(resolution: Resolution, origin: Seq<char>) -> Option<ErrorModel> {
    match resolution {
        Resolution::Expired => Some(dns_timeout_model(origin)),
        Resolution::TimedOut => Some(dns_timeout_model(origin)),
        Resolution::NotStarted => Some(
            ErrorModel::new(
                ErrorKind::Unavailable,
                "failed to start MCP HTTP DNS resolver"@,
            ).code("mcp_http_dns_worker_unavailable"@).ctx("origin"@, origin),
        ),
        Resolution::Stopped => Some(
            ErrorModel::new(
                ErrorKind::Unavailable,
                "MCP HTTP DNS resolver stopped unexpectedly"@,
            ).code("mcp_http_dns_failed"@).ctx("origin"@, origin),
        ),
        Resolution::Answered { in_time, addresses } => if !in_time {
            Some(dns_timeout_model(origin))
        } else {
            match addresses {
                None => Some(
                    ErrorModel::new(
                        ErrorKind::Unavailable,
                        "failed to resolve MCP HTTP server"@,
                    ).code("mcp_http_dns_failed"@).ctx("origin"@, origin),
                ),
                Some(count) => if count > MAX_DNS_ADDRESSES {
                    Some(
                        ErrorModel::new(
                            ErrorKind::Conflict,
                            "MCP HTTP server resolved to too many addresses"@,
                        ).code("mcp_http_dns_address_limit"@).ctx("origin"@, origin).ctx(
                            "address_limit"@,
                            text::decimal(MAX_DNS_ADDRESSES as nat),
                        ),
                    )
                } else {
                    None
                },
            }
        },
    }
}

fn dns_timeout_error(origin: &str) -> (error: EvaError)
    ensures
        error@ == dns_timeout_model(origin@),
{
    EvaError::timeout("MCP HTTP DNS resolution timed out").with_provider_code(
        "mcp_http_dns_timeout",
    ).with_context("origin", origin)
}

/// Refuse a resolution that failed, or gave too many addresses.
pub fn check_resolution(resolution: Resolution, origin: &str) -> (outcome: Result<(), EvaError>)
    ensures
        http_reply::refused_as(outcome, resolution_refusal(resolution, origin@)),
{
    match resolution {
        Resolution::Expired => Err(dns_timeout_error(origin)),
        Resolution::TimedOut => Err(dns_timeout_error(origin)),
        Resolution::NotStarted => Err(
            EvaError::unavailable("failed to start MCP HTTP DNS resolver").with_provider_code(
                "mcp_http_dns_worker_unavailable",
            ).with_context("origin", origin),
        ),
        Resolution::Stopped => Err(
            EvaError::unavailable("MCP HTTP DNS resolver stopped unexpectedly").with_provider_code(
                "mcp_http_dns_failed",
            ).with_context("origin", origin),
        ),
        Resolution::Answered { in_time, addresses } => {
            if !in_time {
                return Err(dns_timeout_error(origin));
            }
            match addresses {
                None => Err(
                    EvaError::unavailable("failed to resolve MCP HTTP server").with_provider_code(
                        "mcp_http_dns_failed",
                    ).with_context("origin", origin),
                ),
                Some(count) => if count > MAX_DNS_ADDRESSES {
                    Err(
                        EvaError::conflict(
                            "MCP HTTP server resolved to too many addresses",
                        ).with_provider_code("mcp_http_dns_address_limit").with_context(
                            "origin",
                            origin,
                        ).with_context(
                            "address_limit",
                            decimal_usize(MAX_DNS_ADDRESSES).as_str(),
                        ),
                    )
                } else {
                    Ok(())
                },
            }
        },
    }
}

// ---------------------------------------------------------------------------
// Connecting
// ---------------------------------------------------------------------------

/// Why no connection was made.
#[derive(Debug, Clone, Copy, PartialEq, Eq, Structural)]
pub enum ConnectFault {
    /// The name has no address.
    NoAddress,
    /// The time was up, or the last attempt timed out.
    TimedOut,
    /// The timeouts of the socket could not be set.
    NotConfigured,
    /// The attempts failed.
    Failed,
}

pub open spec fn connect_model(fault: ConnectFault, origin: Seq<char>) -> ErrorModel {
    match fault {
        ConnectFault::NoAddress => ErrorModel::new(
            ErrorKind::Unavailable,
            "MCP HTTP server host did not resolve"@,
        ).code("mcp_http_dns_empty"@),
        ConnectFault::TimedOut => ErrorModel::new(
            ErrorKind::Timeout,
            "MCP HTTP connection timed out"@,
        ).code("mcp_http_connect_timeout"@),
        ConnectFault::NotConfigured => ErrorModel::new(
            ErrorKind::Unavailable,
            "failed to configure MCP HTTP socket timeouts"@,
        ).code("mcp_http_timeout_config_failed"@),
        ConnectFault::Failed => ErrorModel::new(
            ErrorKind::Unavailable,
            "failed to connect MCP HTTP server"@,
        ).code("mcp_http_connect_failed"@),
    }.ctx("origin"@, origin)
}

/// The error of a connection that was not made.
pub fn connect_error(fault: ConnectFault, origin: &str) -> (error: EvaError)
    ensures
        error@ == connect_model(fault, origin@),
{
    let error = match fault {
        ConnectFault::NoAddress => EvaError::unavailable(
            "MCP HTTP server host did not resolve",
        ).with_provider_code("mcp_http_dns_empty"),
        ConnectFault::TimedOut => EvaError::timeout(
            "MCP HTTP connection timed out",
        ).with_provider_code("mcp_http_connect_timeout"),
        ConnectFault::NotConfigured => EvaError::unavailable(
            "failed to configure MCP HTTP socket timeouts",
        ).with_provider_code("mcp_http_timeout_config_failed"),
        ConnectFault::Failed => EvaError::unavailable(
            "failed to connect MCP HTTP server",
        ).with_provider_code("mcp_http_connect_failed"),
    };
    error.with_context("origin", origin)
}

/// Why none of the attempts to connect went through.
pub fn attempts_failed(expired: bool, last_timed_out: bool) -> (fault: ConnectFault)
    ensures
        fault == if expired || last_timed_out {
            ConnectFault::TimedOut
        } else {
            ConnectFault::Failed
        },
{
    if expired || last_timed_out {
        ConnectFault::TimedOut
    } else {
        ConnectFault::Failed
    }
}

// ---------------------------------------------------------------------------
// Handshakes
// ---------------------------------------------------------------------------

/// What is wrong with the certificate of a server.
#[derive(Debug, Clone, Copy, PartialEq, Eq, Structural)]
pub enum CertificateFault {
    Expired,
    NotValidYet,
    UnknownIssuer,
    NotValidForName,
    Revoked,
    Other,
}

/// How a fault of a certificate is described, and its code.
pub open spec fn certificate_text(fault: CertificateFault) -> (Seq<char>, Seq<char>) {
    match fault {
        CertificateFault::Expired => (
            "MCP TLS server certificate is expired"@,
            "mcp_tls_certificate_expired"@,
        ),
        CertificateFault::NotValidYet => (
            "MCP TLS server certificate is not valid yet"@,
            "mcp_tls_certificate_not_valid_yet"@,
        ),
        CertificateFault::UnknownIssuer => (
            "MCP TLS server certificate chain has an unknown issuer"@,
            "mcp_tls_unknown_ca"@,
        ),
        CertificateFault::NotValidForName => (
            "MCP TLS server certificate does not match the endpoint hostname"@,
            "mcp_tls_hostname_mismatch"@,
        ),
        CertificateFault::Revoked => (
            "MCP TLS server certificate is revoked"@,
            "mcp_tls_certificate_revoked"@,
        ),
        CertificateFault::Other => (
            "MCP TLS server certificate validation failed"@,
            "mcp_tls_certificate_invalid"@,
        ),
    }
}

/// How a fault of a certificate is described, and its code.
pub fn classify_certificate_error(fault: CertificateFault) -> (described: (
    &'static str,
    &'static str,
))
    ensures
        (described.0@, described.1@) == certificate_text(fault),
{
    match fault {
        CertificateFault::Expired => (
            "MCP TLS server certificate is expired",
            "mcp_tls_certificate_expired",
        ),
        CertificateFault::NotValidYet => (
            "MCP TLS server certificate is not valid yet",
            "mcp_tls_certificate_not_valid_yet",
        ),
        CertificateFault::UnknownIssuer => (
            "MCP TLS server certificate chain has an unknown issuer",
            "mcp_tls_unknown_ca",
        ),
        CertificateFault::NotValidForName => (
            "MCP TLS server certificate does not match the endpoint hostname",
            "mcp_tls_hostname_mismatch",
        ),
        CertificateFault::Revoked => (
            "MCP TLS server certificate is revoked",
            "mcp_tls_certificate_revoked",
        ),
        CertificateFault::Other => (
            "MCP TLS server certificate validation failed",
            "mcp_tls_certificate_invalid",
        ),
    }
}

/// Why a handshake failed.
#[derive(Debug, Clone, Copy, PartialEq, Eq, Structural)]
pub enum HandshakeFault {
    TimedOut,
    /// The certificate of the server was not accepted.
    Certificate(CertificateFault),
    /// The server did not accept the certificate of the client.
    ClientRejected,
    Other,
}

pub open spec fn handshake_model(fault: HandshakeFault, origin: Seq<char>) -> ErrorModel {
    match fault {
        HandshakeFault::TimedOut => ErrorModel::new(
            ErrorKind::Timeout,
            "MCP TLS handshake timed out"@,
        ).code("mcp_tls_handshake_timeout"@),
        HandshakeFault::Certificate(fault) => ErrorModel::new(
            ErrorKind::PermissionDenied,
            certificate_text(fault).0,
        ).code(certificate_text(fault).1),
        HandshakeFault::ClientRejected => ErrorModel::new(
            ErrorKind::PermissionDenied,
            "MCP TLS peer rejected client authentication"@,
        ).code("mcp_tls_client_auth_rejected"@),
        HandshakeFault::Other => ErrorModel::new(
            ErrorKind::Unavailable,
            "MCP TLS handshake failed"@,
        ).code("mcp_tls_handshake_failed"@),
    }.ctx("origin"@, origin)
}

/// The error of a handshake that failed.
pub fn map_tls_handshake_error(fault: HandshakeFault, origin: &str) -> (error: EvaError)
    ensures
        error@ == handshake_model(fault, origin@),
{
    let error = match fault {
        HandshakeFault::TimedOut => EvaError::timeout(
            "MCP TLS handshake timed out",
        ).with_provider_code("mcp_tls_handshake_timeout"),
        HandshakeFault::Certificate(fault) => {
            let (message, code) = classify_certificate_error(fault);
            EvaError::permission_denied(message).with_provider_code(code)
        },
        HandshakeFault::ClientRejected => EvaError::permission_denied(
            "MCP TLS peer rejected client authentication",
        ).with_provider_code("mcp_tls_client_auth_rejected"),
        HandshakeFault::Other => EvaError::unavailable(
            "MCP TLS handshake failed",
        ).with_provider_code("mcp_tls_handshake_failed"),
    };
    error.with_context("origin", origin)
}

// ---------------------------------------------------------------------------
// Transfers
// ---------------------------------------------------------------------------

pub open spec fn read_model(timed_out: bool, origin: Seq<char>) -> ErrorModel {
    if timed_out {
        ErrorModel::new(ErrorKind::Timeout, "MCP HTTP response read timed out"@).code(
            "mcp_http_read_timeout"@,
        ).ctx("origin"@, origin)
    } else {
        ErrorModel::new(ErrorKind::Unavailable, "failed to read MCP HTTP response"@).code(
            "mcp_http_read_failed"@,
        ).ctx("origin"@, origin)
    }
}

/// The error of a response that could not be read. It says nothing of the cause
/// but whether the time was up.
pub fn map_http_read_error(timed_out: bool, origin: &str) -> (error: EvaError)
    ensures
        error@ == read_model(timed_out, origin@),
{
    if timed_out {
        EvaError::timeout("MCP HTTP response read timed out").with_provider_code(
            "mcp_http_read_timeout",
        ).with_context("origin", origin)
    } else {
        EvaError::unavailable("failed to read MCP HTTP response").with_provider_code(
            "mcp_http_read_failed",
        ).with_context("origin", origin)
    }
}

pub open spec fn write_model(timed_out: bool, origin: Seq<char>) -> ErrorModel {
    if timed_out {
        ErrorModel::new(ErrorKind::Timeout, "MCP HTTP request write timed out"@).code(
            "mcp_http_write_timeout"@,
        ).ctx("origin"@, origin)
    } else {
        ErrorModel::new(ErrorKind::Unavailable, "failed to write MCP HTTP request"@).code(
            "mcp_http_write_failed"@,
        ).ctx("origin"@, origin)
    }
}

/// The error of a request that could not be written.
pub fn map_http_write_error(timed_out: bool, origin: &str) -> (error: EvaError)
    ensures
        error@ == write_model(timed_out, origin@),
{
    if timed_out {
        EvaError::timeout("MCP HTTP request write timed out").with_provider_code(
            "mcp_http_write_timeout",
        ).with_context("origin", origin)
    } else {
        EvaError::unavailable("failed to write MCP HTTP request").with_provider_code(
            "mcp_http_write_failed",
        ).with_context("origin", origin)
    }
}

/// How the shutdown of a socket went.
pub enum SocketShutdown {
    Done,
    /// The socket was not connected any more.
    NotConnected,
    /// It failed for a reason of the given kind.
    Failed(String),
}

pub open spec fn abort_failed_model(kind: Seq<char>) -> ErrorModel {
    ErrorModel::new(ErrorKind::Unavailable, "failed to abort MCP HTTP socket"@).code(
        "mcp_http_abort_failed"@,
    ).ctx("io_error_kind"@, kind)
}

/// Whether a socket is shut down. One that was not connected any more is.
pub fn abort_outcome(shutdown: SocketShutdown) -> (outcome: Result<(), EvaError>)
    ensures
        match shutdown {
            SocketShutdown::Done => outcome is Ok,
            SocketShutdown::NotConnected => outcome is Ok,
            SocketShutdown::Failed(kind) => outcome matches Err(error) && error@
                == abort_failed_model(kind@),
        },
{
    match shutdown {
        SocketShutdown::Done => Ok(()),
        SocketShutdown::NotConnected => Ok(()),
        SocketShutdown::Failed(kind) => Err(
            EvaError::unavailable("failed to abort MCP HTTP socket").with_provider_code(
                "mcp_http_abort_failed",
            ).with_context("io_error_kind", kind.as_str()),
        ),
    }
}

// ---------------------------------------------------------------------------
// The names of servers
// ---------------------------------------------------------------------------

/// Whether `ServerName::try_from` of `rustls` takes a text as the name of a
/// server: as a DNS name or as an address.
pub uninterp spec fn names_a_server(host: Seq<char>) -> bool;

/// `ServerName::try_from` of `rustls` on a text: whether it is a DNS name or an
/// address, which is a function of the text. Which texts these are is not
/// stated.
#[verifier::external_body]
fn is_server_name(host: &str) -> (valid: bool)
    ensures
        valid == names_a_server(host@),
{
    rustls::pki_types::ServerName::try_from(host).is_ok()
}

pub open spec fn server_name_model(origin: Seq<char>) -> ErrorModel {
    ErrorModel::new(ErrorKind::InvalidArgument, "MCP TLS server name is invalid"@).code(
        "mcp_tls_server_name_invalid"@,
    ).ctx("origin"@, origin)
}

/// Refuse a host that cannot be verified over TLS.
pub fn require_server_name(host: &str, origin: &str) -> (outcome: Result<(), EvaError>)
    ensures
        match outcome {
            Ok(()) => names_a_server(host@),
            Err(error) => !names_a_server(host@) && error@ == server_name_model(origin@),
        },
{
    if is_server_name(host) {
        Ok(())
    } else {
        Err(
            EvaError::invalid_argument("MCP TLS server name is invalid").with_provider_code(
                "mcp_tls_server_name_invalid",
            ).with_context("origin", origin),
        )
    }
}

} // verus!

//! The bounds of a local HTTP server.

use vstd::prelude::*;
use crate::collections::NameSet;
use crate::error::{ErrorKind, ErrorModel, EvaError};
use crate::http_reply;
use crate::text;
use crate::text::{chars_of, split_text, starts_with, str_eq};

verus! {

pub const DEFAULT_PATH: &'static str = "/mcp";

pub const DEFAULT_HEADER_LIMIT_BYTES: usize = 16_384;

pub const DEFAULT_REQUEST_LIMIT_BYTES: usize = 1_048_576;

pub const DEFAULT_RESPONSE_LIMIT_BYTES: usize = 1_048_576;

pub const DEFAULT_MAX_SESSIONS: usize = 64;

pub const DEFAULT_IO_TIMEOUT_NS: u128 = 2_000_000_000;

pub const DEFAULT_ACCEPT_POLL_INTERVAL_NS: u128 = 10_000_000;

pub const MAX_IO_TIMEOUT_NS: u128 = 60_000_000_000;

pub const MAX_ACCEPT_POLL_INTERVAL_NS: u128 = 1_000_000_000;

pub const MAX_PATH_BYTES: usize = 1_024;

pub const MIN_HEADER_LIMIT_BYTES: usize = 512;

pub const MIN_RESPONSE_LIMIT_BYTES: usize = 512;

pub const MAX_CONFIGURED_LIMIT_BYTES: usize = 16_777_216;

pub const MAX_CONFIGURED_SESSIONS: usize = 4_096;

/// What a server is configured to do.
#[verifier::ext_equal]
pub struct ServerConfigModel {
    pub path: Seq<char>,
    pub header_limit_bytes: usize,
    pub request_limit_bytes: usize,
    pub response_limit_bytes: usize,
    pub max_sessions: usize,
    pub io_timeout_ns: u128,
    pub accept_poll_interval_ns: u128,
    pub allowed_origins: Set<Seq<char>>,
}

/// The bounds of one local HTTP server.
#[derive(Debug, Clone, PartialEq, Eq)]
pub struct McpStreamableHttpServerConfig {
    path: String,
    header_limit_bytes: usize,
    request_limit_bytes: usize,
    response_limit_bytes: usize,
    max_sessions: usize,
    io_timeout_ns: u128,
    accept_poll_interval_ns: u128,
    allowed_origins: NameSet,
}

impl View for McpStreamableHttpServerConfig {
    type V = ServerConfigModel;

    closed spec fn view(&self) -> ServerConfigModel {
        ServerConfigModel {
            path: self.path@,
            header_limit_bytes: self.header_limit_bytes,
            request_limit_bytes: self.request_limit_bytes,
            response_limit_bytes: self.response_limit_bytes,
            max_sessions: self.max_sessions,
            io_timeout_ns: self.io_timeout_ns,
            accept_poll_interval_ns: self.accept_poll_interval_ns,
            allowed_origins: self.allowed_origins@,
        }
    }
}

/// A visible ASCII character.
pub open spec fn is_visible(c: char) -> bool {
    ' ' < c && c < '\u{7f}'
}

/// Visible ASCII without the characters of a query, a fragment or an escape.
pub open spec fn is_path_char(c: char) -> bool {
    is_visible(c) && c != '?' && c != '#' && c != '%' && c != '\\'
}

/// Whether a text is an absolute path without empty inner, `.` or `..`
/// segments.
pub open spec fn is_exact_path(path: Seq<char>) -> bool {
    &&& 0 < path.len() <= MAX_PATH_BYTES
    &&& path[0] == '/'
    &&& forall|i: int| 0 <= i < path.len() ==> is_path_char(#[trigger] path[i])
    &&& forall|i: int| 0 < i < path.len() ==> !(path[i - 1] == '/' && #[trigger] path[i] == '/')
    &&& forall|i: int|
        0 <= i < text::split(path, '/').len() ==> (#[trigger] text::split(path, '/')[i]) != "."@
            && text::split(path, '/')[i] != ".."@
}

/// Whether every bound lies in its range.
pub open spec fn bounds_hold(config: ServerConfigModel) -> bool {
    &&& MIN_HEADER_LIMIT_BYTES <= config.header_limit_bytes <= MAX_CONFIGURED_LIMIT_BYTES
    &&& 1 <= config.request_limit_bytes <= MAX_CONFIGURED_LIMIT_BYTES
    &&& MIN_RESPONSE_LIMIT_BYTES <= config.response_limit_bytes <= MAX_CONFIGURED_LIMIT_BYTES
    &&& 1 <= config.max_sessions <= MAX_CONFIGURED_SESSIONS
    &&& 1 <= config.io_timeout_ns <= MAX_IO_TIMEOUT_NS
    &&& 1 <= config.accept_poll_interval_ns <= MAX_ACCEPT_POLL_INTERVAL_NS
}

/// Why a configuration is refused, if it is.
pub open spec fn server_config_refusal(config: ServerConfigModel) -> Option<ErrorModel> {
    if !is_exact_path(config.path) {
        Some(
            ErrorModel::new(
                ErrorKind::InvalidArgument,
                "MCP HTTP server path must be bounded exact origin-form ASCII"@,
            ).code("mcp_server_path_invalid"@),
        )
    } else if !bounds_hold(config) {
        Some(
            ErrorModel::new(
                ErrorKind::InvalidArgument,
                "MCP HTTP server resource bounds are invalid"@,
            ).code("mcp_server_limits_invalid"@),
        )
    } else {
        None
    }
}

/// Whether a text is the authority of an origin.
pub open spec fn is_origin_authority(authority: Seq<char>) -> bool {
    &&& 0 < authority.len()
    &&& forall|i: int|
        0 <= i < authority.len() ==> is_visible(#[trigger] authority[i]) && authority[i] != '/'
            && authority[i] != '?' && authority[i] != '#' && authority[i] != '@'
}

/// Why an origin cannot be allowed, if it cannot.
pub open spec fn origin_refusal(origin: Seq<char>) -> Option<ErrorModel> {
    if !text::stands_at(origin, "http://"@, 0) {
        Some(
            ErrorModel::new(
                ErrorKind::InvalidArgument,
                "MCP HTTP server origin must use explicit http scheme"@,
            ).code("mcp_server_origin_invalid"@),
        )
    } else if !is_origin_authority(origin.skip(7)) {
        Some(
            ErrorModel::new(
                ErrorKind::InvalidArgument,
                "MCP HTTP server origin must be an exact bounded authority"@,
            ).code("mcp_server_origin_invalid"@),
        )
    } else {
        None
    }
}

/// Refuse an origin that is not `http://` and an authority.
pub fn validate_origin_literal(origin: &str) -> (outcome: Result<(), EvaError>)
    ensures
        http_reply::refused_as(outcome, origin_refusal(origin@)),
{
    if !starts_with(origin, "http://") {
        return Err(
            EvaError::invalid_argument(
                "MCP HTTP server origin must use explicit http scheme",
            ).with_provider_code("mcp_server_origin_invalid"),
        );
    }
    proof {
        reveal_strlit("http://");
        assert("http://"@.len() == 7);
    }
    let chars = chars_of(origin);
    let mut valid: bool = chars.len() > 7;
    let mut i: usize = 7;
    while i < chars.len()
        invariant
            chars@ == origin@,
            7 <= i <= chars@.len(),
            valid == (chars@.len() > 7 && forall|k: int|
                0 <= k < i - 7 ==> is_visible(#[trigger] origin@.skip(7)[k]) && origin@.skip(7)[k]
                    != '/' && origin@.skip(7)[k] != '?' && origin@.skip(7)[k] != '#'
                    && origin@.skip(7)[k] != '@'),
        decreases chars@.len() - i,
    {
        let c = chars[i];
        assert(origin@.skip(7)[i - 7] == c);
        if !(' ' < c && c < '\u{7f}') || c == '/' || c == '?' || c == '#' || c == '@' {
            valid = false;
        }
        i += 1;
    }
    if !valid {
        return Err(
            EvaError::invalid_argument(
                "MCP HTTP server origin must be an exact bounded authority",
            ).with_provider_code("mcp_server_origin_invalid"),
        );
    }
    Ok(())
}

fn exact_path(path: &str) -> (valid: bool)
    ensures
        valid == is_exact_path(path@),
{
    let chars = chars_of(path);
    if chars.len() == 0 || chars.len() > MAX_PATH_BYTES || chars[0] != '/' {
        return false;
    }
    let mut i: usize = 0;
    while i < chars.len()
        invariant
            i <= chars@.len(),
            chars@ == path@,
            forall|k: int| 0 <= k < i ==> is_path_char(#[trigger] path@[k]),
            forall|k: int| 0 < k < i ==> !(path@[k - 1] == '/' && #[trigger] path@[k] == '/'),
        decreases chars@.len() - i,
    {
        let c = chars[i];
        if !(' ' < c && c < '\u{7f}') || c == '?' || c == '#' || c == '%' || c == '\\' {
            assert(!is_path_char(path@[i as int]));
            return false;
        }
        if i > 0 && chars[i - 1] == '/' && c == '/' {
            assert(path@[i - 1] == '/' && path@[i as int] == '/');
            return false;
        }
        i += 1;
    }
    let parts = split_text(path, '/');
    let mut j: usize = 0;
    while j < parts.len()
        invariant
            j <= parts@.len(),
            text::texts(parts@) == text::split(path@, '/'),
            forall|k: int|
                0 <= k < j ==> (#[trigger] text::split(path@, '/')[k]) != "."@ && text::split(
                    path@,
                    '/',
                )[k] != ".."@,
        decreases parts@.len() - j,
    {
        assert(text::split(path@, '/')[j as int] == parts@[j as int]@);
        if str_eq(parts[j].as_str(), ".") || str_eq(parts[j].as_str(), "..") {
            return false;
        }
        j += 1;
    }
    assert(text::split(path@, '/').len() == parts@.len());
    true
}

impl McpStreamableHttpServerConfig {
    /// The path and the bounds are valid, and so is every allowed origin.
    pub closed spec fn wf(&self) -> bool {
        &&& self.allowed_origins.wf()
        &&& server_config_refusal(self@) is None
        &&& forall|origin: Seq<char>| #[trigger]
            self@.allowed_origins.contains(origin) ==> origin_refusal(origin) is None
    }

    /// Whatever a configuration was built with, its bounds are valid ones and its
    /// origins are exact.
    pub proof fn law_configurations_are_bounded(&self)
        requires
            self.wf(),
        ensures
            server_config_refusal(self@) is None,
            forall|origin: Seq<char>| #[trigger]
                self@.allowed_origins.contains(origin) ==> origin_refusal(origin) is None,
    {
    }

    /// A server at the given path, with the default bounds.
    pub fn new(path: &str) -> (outcome: Result<McpStreamableHttpServerConfig, EvaError>)
        ensures
            built_as(outcome, (ServerConfigModel { path: path@, ..default_config() })),
    {
        let config = McpStreamableHttpServerConfig {
            path: path.to_owned(),
            header_limit_bytes: DEFAULT_HEADER_LIMIT_BYTES,
            request_limit_bytes: DEFAULT_REQUEST_LIMIT_BYTES,
            response_limit_bytes: DEFAULT_RESPONSE_LIMIT_BYTES,
            max_sessions: DEFAULT_MAX_SESSIONS,
            io_timeout_ns: DEFAULT_IO_TIMEOUT_NS,
            accept_poll_interval_ns: DEFAULT_ACCEPT_POLL_INTERVAL_NS,
            allowed_origins: NameSet::new(),
        };
        match config.validate() {
            Ok(()) => Ok(config),
            Err(error) => Err(error),
        }
    }

    /// Bound the head of a request, its body, and the body of a response.
    pub fn with_limits(
        self,
        header_limit_bytes: usize,
        request_limit_bytes: usize,
        response_limit_bytes: usize,
    ) -> (outcome: Result<McpStreamableHttpServerConfig, EvaError>)
        requires
            self.wf(),
        ensures
            built_as(
                outcome,
                (ServerConfigModel {
                    header_limit_bytes,
                    request_limit_bytes,
                    response_limit_bytes,
                    ..self@
                }),
            ),
    {
        let config = McpStreamableHttpServerConfig {
            path: self.path,
            header_limit_bytes,
            request_limit_bytes,
            response_limit_bytes,
            max_sessions: self.max_sessions,
            io_timeout_ns: self.io_timeout_ns,
            accept_poll_interval_ns: self.accept_poll_interval_ns,
            allowed_origins: self.allowed_origins,
        };
        match config.validate() {
            Ok(()) => Ok(config),
            Err(error) => Err(error),
        }
    }

    /// Bound the number of sessions.
    pub fn with_max_sessions(self, max_sessions: usize) -> (outcome: Result<
        McpStreamableHttpServerConfig,
        EvaError,
    >)
        requires
            self.wf(),
        ensures
            built_as(outcome, (ServerConfigModel { max_sessions, ..self@ })),
    {
        let config = McpStreamableHttpServerConfig {
            path: self.path,
            header_limit_bytes: self.header_limit_bytes,
            request_limit_bytes: self.request_limit_bytes,
            response_limit_bytes: self.response_limit_bytes,
            max_sessions,
            io_timeout_ns: self.io_timeout_ns,
            accept_poll_interval_ns: self.accept_poll_interval_ns,
            allowed_origins: self.allowed_origins,
        };
        match config.validate() {
            Ok(()) => Ok(config),
            Err(error) => Err(error),
        }
    }

    /// Bound the time of one connection and the pause between two looks for one,
    /// in nanoseconds.
    pub fn with_timeouts(self, io_timeout_ns: u128, accept_poll_interval_ns: u128) -> (outcome:
        Result<McpStreamableHttpServerConfig, EvaError>)
        requires
            self.wf(),
        ensures
            built_as(
                outcome,
                (ServerConfigModel { io_timeout_ns, accept_poll_interval_ns, ..self@ }),
            ),
    {
        let config = McpStreamableHttpServerConfig {
            path: self.path,
            header_limit_bytes: self.header_limit_bytes,
            request_limit_bytes: self.request_limit_bytes,
            response_limit_bytes: self.response_limit_bytes,
            max_sessions: self.max_sessions,
            io_timeout_ns,
            accept_poll_interval_ns,
            allowed_origins: self.allowed_origins,
        };
        match config.validate() {
            Ok(()) => Ok(config),
            Err(error) => Err(error),
        }
    }

    /// Allow one more origin. Where none is allowed, every request that names
    /// its origin is refused.
    pub fn with_allowed_origin(self, origin: &str) -> (outcome: Result<
        McpStreamableHttpServerConfig,
        EvaError,
    >)
        requires
            self.wf(),
        ensures
            match outcome {
                Ok(config) => {
                    &&& config.wf()
                    &&& origin_refusal(origin@) is None
                    &&& config@ == (ServerConfigModel {
                        allowed_origins: self@.allowed_origins.insert(origin@),
                        ..self@
                    })
                },
                Err(error) => origin_refusal(origin@) == Some(error@),
            },
    {
        match validate_origin_literal(origin) {
            Ok(()) => {},
            Err(error) => return Err(error),
        }
        let mut origins = self.allowed_origins;
        origins.insert(origin.to_owned());
        Ok(
            McpStreamableHttpServerConfig {
                path: self.path,
                header_limit_bytes: self.header_limit_bytes,
                request_limit_bytes: self.request_limit_bytes,
                response_limit_bytes: self.response_limit_bytes,
                max_sessions: self.max_sessions,
                io_timeout_ns: self.io_timeout_ns,
                accept_poll_interval_ns: self.accept_poll_interval_ns,
                allowed_origins: origins,
            },
        )
    }

    pub fn path(&self) -> (path: &str)
        ensures
            path@ == self@.path,
    {
        self.path.as_str()
    }

    pub fn header_limit_bytes(&self) -> (limit: usize)
        ensures
            limit == self@.header_limit_bytes,
    {
        self.header_limit_bytes
    }

    pub fn request_limit_bytes(&self) -> (limit: usize)
        ensures
            limit == self@.request_limit_bytes,
    {
        self.request_limit_bytes
    }

    pub fn response_limit_bytes(&self) -> (limit: usize)
        ensures
            limit == self@.response_limit_bytes,
    {
        self.response_limit_bytes
    }

    pub fn max_sessions(&self) -> (limit: usize)
        ensures
            limit == self@.max_sessions,
    {
        self.max_sessions
    }

    /// The time of one connection, in nanoseconds.
    pub fn io_timeout_ns(&self) -> (timeout: u128)
        ensures
            timeout == self@.io_timeout_ns,
    {
        self.io_timeout_ns
    }

    /// The pause between two looks for a connection, in nanoseconds.
    pub fn accept_poll_interval_ns(&self) -> (interval: u128)
        ensures
            interval == self@.accept_poll_interval_ns,
    {
        self.accept_poll_interval_ns
    }

    /// Whether requests from the origin are allowed.
    pub fn allows_origin(&self, origin: &str) -> (allowed: bool)
        requires
            self.wf(),
        ensures
            allowed == self@.allowed_origins.contains(origin@),
    {
        self.allowed_origins.contains(origin)
    }

    /// Whether no origin but the given one is allowed.
    pub fn allows_only(&self, origin: &str) -> (only: bool)
        requires
            self.wf(),
        ensures
            only == (forall|o: Seq<char>| #[trigger]
                self@.allowed_origins.contains(o) ==> o == origin@),
    {
        proof {
            self.allowed_origins.lemma_names();
        }
        let mut i: usize = 0;
        while i < self.allowed_origins.len()
            invariant
                i <= self.allowed_origins.names().len(),
                self.wf(),
                forall|n: Seq<char>| #[trigger]
                    self.allowed_origins.names().contains(n)
                        <==> self@.allowed_origins.contains(n),
                forall|k: int|
                    0 <= k < i ==> #[trigger] self.allowed_origins.names()[k] == origin@,
            decreases self.allowed_origins.names().len() - i,
        {
            let name = self.allowed_origins.name_at(i);
            if !str_eq(name, origin) {
                assert(self@.allowed_origins.contains(name@));
                return false;
            }
            i += 1;
        }
        assert forall|o: Seq<char>| self@.allowed_origins.contains(o) implies o == origin@ by {
            assert(self.allowed_origins.names().contains(o));
        }
        true
    }

    /// Refuse a path or bounds that no server can have.
    fn validate(&self) -> (outcome: Result<(), EvaError>)
        ensures
            http_reply::refused_as(outcome, server_config_refusal(self@)),
    {
        if !exact_path(self.path.as_str()) {
            return Err(
                EvaError::invalid_argument(
                    "MCP HTTP server path must be bounded exact origin-form ASCII",
                ).with_provider_code("mcp_server_path_invalid"),
            );
        }
        if self.header_limit_bytes < MIN_HEADER_LIMIT_BYTES || self.header_limit_bytes
            > MAX_CONFIGURED_LIMIT_BYTES || self.request_limit_bytes == 0
            || self.request_limit_bytes > MAX_CONFIGURED_LIMIT_BYTES || self.response_limit_bytes
            < MIN_RESPONSE_LIMIT_BYTES || self.response_limit_bytes > MAX_CONFIGURED_LIMIT_BYTES
            || self.max_sessions == 0 || self.max_sessions > MAX_CONFIGURED_SESSIONS
            || self.io_timeout_ns == 0 || self.io_timeout_ns > MAX_IO_TIMEOUT_NS
            || self.accept_poll_interval_ns == 0 || self.accept_poll_interval_ns
            > MAX_ACCEPT_POLL_INTERVAL_NS {
            return Err(
                EvaError::invalid_argument(
                    "MCP HTTP server resource bounds are invalid",
                ).with_provider_code("mcp_server_limits_invalid"),
            );
        }
        Ok(())
    }
}

/// The configuration of a server that nobody configured.
pub open spec fn default_config() -> ServerConfigModel {
    ServerConfigModel {
        path: DEFAULT_PATH@,
        header_limit_bytes: DEFAULT_HEADER_LIMIT_BYTES,
        request_limit_bytes: DEFAULT_REQUEST_LIMIT_BYTES,
        response_limit_bytes: DEFAULT_RESPONSE_LIMIT_BYTES,
        max_sessions: DEFAULT_MAX_SESSIONS,
        io_timeout_ns: DEFAULT_IO_TIMEOUT_NS,
        accept_poll_interval_ns: DEFAULT_ACCEPT_POLL_INTERVAL_NS,
        allowed_origins: Set::empty(),
    }
}

/// A configuration that was built if it is valid, and refused otherwise.
pub open spec fn built_as(
    outcome: Result<McpStreamableHttpServerConfig, EvaError>,
    config: ServerConfigModel,
) -> bool {
    match outcome {
        Ok(built) => built.wf() && built@ == config && server_config_refusal(config) is None,
        Err(error) => server_config_refusal(config) == Some(error@),
    }
}

impl Default for McpStreamableHttpServerConfig {
    fn default() -> (config: McpStreamableHttpServerConfig)
        ensures
            config.wf(),
            config@ == default_config(),
    {
        proof {
            lemma_default_path();
        }
        McpStreamableHttpServerConfig {
            path: DEFAULT_PATH.to_owned(),
            header_limit_bytes: DEFAULT_HEADER_LIMIT_BYTES,
            request_limit_bytes: DEFAULT_REQUEST_LIMIT_BYTES,
            response_limit_bytes: DEFAULT_RESPONSE_LIMIT_BYTES,
            max_sessions: DEFAULT_MAX_SESSIONS,
            io_timeout_ns: DEFAULT_IO_TIMEOUT_NS,
            accept_poll_interval_ns: DEFAULT_ACCEPT_POLL_INTERVAL_NS,
            allowed_origins: NameSet::new(),
        }
    }
}

proof fn lemma_default_path()
    ensures
        is_exact_path(DEFAULT_PATH@),
{
    reveal_strlit("/mcp");
    reveal_strlit(".");
    reveal_strlit("..");
    let path = DEFAULT_PATH@;
    assert(path.len() == 4);
    assert(text::char_position(path, '/', 0) == 0);
    text::lemma_char_position(path, '/', 1);
    assert(text::char_position(path, '/', 1) == 4) by {
        let end = text::char_position(path, '/', 1);
        if end < 4 {
            assert(path[end] == '/');
        }
    }
    let parts = text::split(path, '/');
    assert(text::parts_from(path, '/', 1) == seq![path.subrange(1, 4)]);
    assert(parts == seq![path.subrange(0, 0)] + seq![path.subrange(1, 4)]);
    assert(parts.len() == 2);
    assert(parts[0].len() == 0);
    assert(parts[1].len() == 3);
    assert("."@.len() == 1);
    assert(".."@.len() == 2);
}

} // verus!

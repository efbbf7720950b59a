//! Requests of the HTTP client: the endpoint they go to and the bytes of their
//! heads.

use vstd::prelude::*;
use vstd::string::*;
use vstd::utf8::*;
use crate::collections::NameSet;
use crate::error::{ErrorKind, ErrorModel, EvaError};
use crate::http_framing;
use crate::http_framing::token_bytes;
use crate::text;
use crate::text::{
    byte_len, chars_of, decimal_usize, find_char, find_pattern, str_eq, string_of, to_lower, trim,
    IntegerFault,
};

verus! {

// ---------------------------------------------------------------------------
// Endpoints
// ---------------------------------------------------------------------------

/// The place that a request goes to.
#[derive(Debug, Clone, PartialEq, Eq)]
pub struct ParsedHttpUrl {
    pub scheme: String,
    pub host: String,
    pub port: u16,
    pub path: String,
    pub authority: String,
    pub origin: String,
}

/// What a place is.
pub struct UrlModel {
    pub scheme: Seq<char>,
    pub host: Seq<char>,
    pub port: int,
    pub path: Seq<char>,
    pub authority: Seq<char>,
    pub origin: Seq<char>,
}

impl View for ParsedHttpUrl {
    type V = UrlModel;

    open spec fn view(&self) -> UrlModel {
        UrlModel {
            scheme: self.scheme@,
            host: self.host@,
            port: self.port as int,
            path: self.path@,
            authority: self.authority@,
            origin: self.origin@,
        }
    }
}

pub open spec fn invalid(message: Seq<char>) -> ErrorModel {
    ErrorModel::new(ErrorKind::InvalidArgument, message)
}

/// The port that a text denotes: decimal, from 1 to 65535.
pub open spec fn port_value(value: Seq<char>) -> Result<int, ErrorModel> {
    let number = if value.len() == 0 {
        Err(IntegerFault::Empty)
    } else if value == seq!['+'] {
        Err(IntegerFault::InvalidDigit)
    } else if value[0] == '+' {
        text::digits_value(value, 1, 0, false, 0, 65535)
    } else {
        text::digits_value(value, 0, 0, false, 0, 65535)
    };
    match number {
        Err(fault) => Err(
            invalid("MCP HTTP URL port is invalid"@).ctx("port"@, value).ctx(
                "parse_error"@,
                fault.text(),
            ),
        ),
        Ok(port) => if port == 0 {
            Err(invalid("MCP HTTP URL port must be non-zero"@))
        } else {
            Ok(port)
        },
    }
}

fn port_error(value: &str, fault: IntegerFault) -> (error: EvaError)
    ensures
        error@ == invalid("MCP HTTP URL port is invalid"@).ctx("port"@, value@).ctx(
            "parse_error"@,
            fault.text(),
        ),
{
    EvaError::invalid_argument("MCP HTTP URL port is invalid").with_context(
        "port",
        value,
    ).with_context("parse_error", fault.message())
}

/// The port that a text denotes.
pub fn parse_http_port(value: &str) -> (port: Result<u16, EvaError>)
    ensures
        match port {
            Ok(p) => port_value(value@) == Ok::<int, ErrorModel>(p as int),
            Err(error) => port_value(value@) == Err::<int, ErrorModel>(error@),
        },
{
    let s = chars_of(value);
    if s.len() == 0 {
        return Err(port_error(value, IntegerFault::Empty));
    }
    let mut i: usize = 0;
    if s[0] == '+' {
        if s.len() == 1 {
            assert(value@ =~= seq!['+']);
            return Err(port_error(value, IntegerFault::InvalidDigit));
        }
        i = 1;
    }
    let ghost start = i as int;
    let mut acc: u32 = 0;
    while i < s.len()
        invariant
            start <= i <= s@.len(),
            s@ == value@,
            s@.len() > 0,
            start == (if value@[0] == '+' {
                1int
            } else {
                0int
            }),
            value@ != seq!['+'],
            acc <= 65535,
            text::digits_value(value@, start, 0, false, 0, 65535) == text::digits_value(
                s@,
                i as int,
                acc as int,
                false,
                0,
                65535,
            ),
        decreases s@.len() - i,
    {
        let c = s[i];
        if c < '0' || '9' < c {
            return Err(port_error(value, IntegerFault::InvalidDigit));
        }
        let next: u32 = acc * 10 + (c as u32 - '0' as u32);
        if next > 65535 {
            return Err(port_error(value, IntegerFault::TooLarge));
        }
        acc = next;
        i += 1;
    }
    if acc == 0 {
        return Err(EvaError::invalid_argument("MCP HTTP URL port must be non-zero"));
    }
    Ok(acc as u16)
}

/// The port that a scheme implies.
pub open spec fn default_port(scheme: Seq<char>) -> int {
    if scheme == "https"@ {
        443
    } else {
        80
    }
}

/// The number of colons in a text.
pub open spec fn colons(s: Seq<char>) -> nat
    decreases s.len(),
{
    if s.len() == 0 {
        0
    } else {
        colons(s.drop_last()) + (if s.last() == ':' {
            1nat
        } else {
            0nat
        })
    }
}

/// The text between the brackets of an IPv6 authority.
pub open spec fn bracketed(authority: Seq<char>) -> Option<Seq<char>> {
    let close = text::char_position(authority, ']', 0);
    if authority.len() > 0 && authority[0] == '[' && close < authority.len() {
        Some(authority.subrange(1, close))
    } else {
        None
    }
}

/// The host and port of an authority. `ipv6` is how the bracketed address is
/// written in canonical form, or none where it is no address.
pub open spec fn authority_parts(scheme: Seq<char>, authority: Seq<char>, ipv6: Option<Seq<char>>) -> Result<
    (Seq<char>, int),
    ErrorModel,
> {
    if authority.len() > 0 && authority[0] == '[' {
        let close = text::char_position(authority, ']', 0);
        if close >= authority.len() {
            Err(invalid("MCP HTTP URL IPv6 authority is malformed"@))
        } else {
            match ipv6 {
                None => Err(invalid("MCP HTTP URL IPv6 address is malformed"@)),
                Some(host) => {
                    let suffix = authority.skip(close + 1);
                    if suffix.len() == 0 {
                        Ok((host, default_port(scheme)))
                    } else if suffix[0] != ':' {
                        Err(invalid("MCP HTTP URL IPv6 authority is malformed"@))
                    } else {
                        match port_value(suffix.skip(1)) {
                            Ok(port) => Ok((host, port)),
                            Err(error) => Err(error),
                        }
                    }
                },
            }
        }
    } else if colons(authority) > 1 {
        Err(invalid("MCP HTTP URL IPv6 addresses must use brackets"@))
    } else {
        let colon = text::char_position(authority, ':', 0);
        if colon >= authority.len() {
            Ok((authority, default_port(scheme)))
        } else if colon == 0 || colon + 1 == authority.len() {
            Err(invalid("MCP HTTP URL authority is malformed"@))
        } else {
            match port_value(authority.skip(colon + 1)) {
                Ok(port) => Ok((authority.take(colon), port)),
                Err(error) => Err(error),
            }
        }
    }
}

/// The text between the brackets of an IPv6 authority.
pub fn ipv6_literal(authority: &str) -> (literal: Option<String>)
    ensures
        crate::error::option_text(literal) == bracketed(authority@),
{
    let s = chars_of(authority);
    if s.len() == 0 || s[0] != '[' {
        return None;
    }
    let close: usize = find_char(s.as_slice(), ']', 0);
    if close >= s.len() {
        return None;
    }
    proof {
        text::lemma_char_position(authority@, ']', 0);
    }
    Some(string_of(s.as_slice(), 1, close))
}

fn count_colons(s: &[char]) -> (count: usize)
    ensures
        count == colons(s@),
{
    let mut count: usize = 0;
    let mut i: usize = 0;
    while i < s.len()
        invariant
            i <= s@.len(),
            count <= i,
            count == colons(s@.take(i as int)),
        decreases s@.len() - i,
    {
        assert(s@.take(i + 1).drop_last() =~= s@.take(i as int));
        if s[i] == ':' {
            count += 1;
        }
        i += 1;
    }
    assert(s@.take(i as int) =~= s@);
    count
}

/// The host and port of an authority.
pub fn parse_http_authority(scheme: &str, authority: &str, ipv6: Option<String>) -> (parts: Result<
    (String, u16),
    EvaError,
>)
    ensures
        match parts {
            Ok((host, port)) => authority_parts(
                scheme@,
                authority@,
                crate::error::option_text(ipv6),
            ) == Ok::<(Seq<char>, int), ErrorModel>((host@, port as int)),
            Err(error) => authority_parts(scheme@, authority@, crate::error::option_text(ipv6))
                == Err::<(Seq<char>, int), ErrorModel>(error@),
        },
{
    let implied: u16 = if str_eq(scheme, "https") {
        443
    } else {
        80
    };
    let s = chars_of(authority);
    if s.len() > 0 && s[0] == '[' {
        let close: usize = find_char(s.as_slice(), ']', 0);
        if close >= s.len() {
            return Err(EvaError::invalid_argument("MCP HTTP URL IPv6 authority is malformed"));
        }
        let host = match ipv6 {
            Some(host) => host,
            None => return Err(
                EvaError::invalid_argument("MCP HTTP URL IPv6 address is malformed"),
            ),
        };
        if close + 1 == s.len() {
            return Ok((host, implied));
        }
        assert(authority@.skip(close + 1)[0] == s@[close + 1]);
        if s[close + 1] != ':' {
            return Err(EvaError::invalid_argument("MCP HTTP URL IPv6 authority is malformed"));
        }
        let digits = string_of(s.as_slice(), close + 2, s.len());
        assert(digits@ =~= authority@.skip(close + 1).skip(1));
        return match parse_http_port(digits.as_str()) {
            Ok(port) => Ok((host, port)),
            Err(error) => Err(error),
        };
    }
    if count_colons(s.as_slice()) > 1 {
        return Err(EvaError::invalid_argument("MCP HTTP URL IPv6 addresses must use brackets"));
    }
    let colon: usize = find_char(s.as_slice(), ':', 0);
    if colon >= s.len() {
        return Ok((authority.to_owned(), implied));
    }
    if colon == 0 || colon + 1 == s.len() {
        return Err(EvaError::invalid_argument("MCP HTTP URL authority is malformed"));
    }
    let digits = string_of(s.as_slice(), colon + 1, s.len());
    assert(digits@ =~= authority@.skip(colon + 1));
    match parse_http_port(digits.as_str()) {
        Ok(port) => Ok((string_of(s.as_slice(), 0, colon), port)),
        Err(error) => Err(error),
    }
}

pub open spec fn ends_authority(c: char) -> bool {
    c == '/' || c == '?' || c == '#'
}

/// The first position from `at` on where an authority ends.
pub open spec fn authority_end(s: Seq<char>, at: int) -> int
    decreases s.len() - at,
{
    if !(0 <= at < s.len()) || ends_authority(s[at]) {
        at
    } else {
        authority_end(s, at + 1)
    }
}

/// The place that a canonical URL names.
pub open spec fn url_parts(url: Seq<char>, ipv6: Option<Seq<char>>) -> Result<UrlModel, ErrorModel> {
    match text::find_from(url, "://"@, 0) {
        None => Err(invalid("MCP HTTP URL must include a scheme"@)),
        Some(at) => {
            let scheme = url.take(at);
            let rest = url.skip(at + 3);
            let end = authority_end(rest, 0);
            let authority = rest.take(end);
            let tail = rest.skip(end);
            if text::trimmed(authority).len() == 0 {
                Err(invalid("MCP HTTP URL must include a host"@))
            } else if text::has_char(authority, '@') {
                Err(invalid("MCP HTTP URL must not include userinfo"@).ctx("url"@, url))
            } else {
                match authority_parts(scheme, authority, ipv6) {
                    Err(error) => Err(error),
                    Ok((host, port)) => Ok(
                        UrlModel {
                            scheme,
                            host,
                            port,
                            path: if tail.len() == 0 {
                                "/"@
                            } else if tail[0] == '/' {
                                tail
                            } else {
                                "/"@ + tail
                            },
                            authority,
                            origin: scheme + "://"@ + authority,
                        },
                    ),
                }
            }
        },
    }
}

/// The authority of a canonical URL, where it has a scheme.
pub open spec fn url_authority(url: Seq<char>) -> Option<Seq<char>> {
    match text::find_from(url, "://"@, 0) {
        None => None,
        Some(at) => Some(url.skip(at + 3).take(authority_end(url.skip(at + 3), 0))),
    }
}

fn find_authority_end(s: &[char], at: usize) -> (end: usize)
    requires
        at <= s@.len(),
    ensures
        end == at + authority_end(s@.skip(at as int), 0),
        at <= end <= s@.len(),
{
    let ghost rest = s@.skip(at as int);
    let mut i: usize = at;
    while i < s.len() && s[i] != '/' && s[i] != '?' && s[i] != '#'
        invariant
            at <= i <= s@.len(),
            rest == s@.skip(at as int),
            authority_end(rest, 0) == authority_end(rest, i - at),
        decreases s@.len() - i,
    {
        assert(rest[i - at] == s@[i as int]);
        i += 1;
    }
    if i < s.len() {
        assert(rest[i - at] == s@[i as int]);
    }
    i
}

impl ParsedHttpUrl {
    /// The bracketed address in the authority of a canonical URL.
    pub fn ipv6_part(url: &str) -> (literal: Option<String>)
        ensures
            crate::error::option_text(literal) == (match url_authority(url@) {
                Some(authority) => bracketed(authority),
                None => None,
            }),
    {
        let s = chars_of(url);
        proof {
            reveal_strlit("://");
        }
        let at = match find_pattern(s.as_slice(), chars_of("://").as_slice(), 0) {
            Some(at) => at,
            None => return None,
        };
        let len: usize = s.len();
        assert(at + 3 <= len);
        let start: usize = at + 3;
        let end: usize = find_authority_end(s.as_slice(), start);
        let authority = string_of(s.as_slice(), start, end);
        assert(authority@ =~= url@.skip(at + 3).take(authority_end(url@.skip(at + 3), 0)));
        ipv6_literal(authority.as_str())
    }

    /// The place that a canonical URL names. `ipv6` is how the bracketed
    /// address in it is written in canonical form, or none where it is no
    /// address.
    pub fn parse(url: &str, ipv6: Option<String>) -> (parsed: Result<ParsedHttpUrl, EvaError>)
        ensures
            match parsed {
                Ok(place) => url_parts(url@, crate::error::option_text(ipv6)) == Ok::<
                    UrlModel,
                    ErrorModel,
                >(place@),
                Err(error) => url_parts(url@, crate::error::option_text(ipv6)) == Err::<
                    UrlModel,
                    ErrorModel,
                >(error@),
            },
    {
        let s = chars_of(url);
        proof {
            reveal_strlit("://");
        }
        let at = match find_pattern(s.as_slice(), chars_of("://").as_slice(), 0) {
            Some(at) => at,
            None => return Err(EvaError::invalid_argument("MCP HTTP URL must include a scheme")),
        };
        let scheme = string_of(s.as_slice(), 0, at);
        assert(scheme@ =~= url@.take(at as int));
        let len: usize = s.len();
        assert(at + 3 <= len);
        let start: usize = at + 3;
        let ghost rest = url@.skip(at + 3);
        let end: usize = find_authority_end(s.as_slice(), start);
        let authority = string_of(s.as_slice(), start, end);
        assert(authority@ =~= rest.take(authority_end(rest, 0)));
        if trim(authority.as_str()).as_str().is_empty() {
            return Err(EvaError::invalid_argument("MCP HTTP URL must include a host"));
        }
        if text::contains_char(authority.as_str(), '@') {
            return Err(
                EvaError::invalid_argument("MCP HTTP URL must not include userinfo").with_context(
                    "url",
                    url,
                ),
            );
        }
        let (host, port) = match parse_http_authority(scheme.as_str(), authority.as_str(), ipv6) {
            Ok(parts) => parts,
            Err(error) => return Err(error),
        };
        let tail = string_of(s.as_slice(), end, s.len());
        assert(tail@ =~= rest.skip(authority_end(rest, 0)));
        let mut path = String::new();
        if end == s.len() {
            path.append("/");
            assert(path@ =~= "/"@);
        } else {
            assert(tail@[0] == s@[end as int]);
            if s[end] != '/' {
                path.append("/");
                path.append(tail.as_str());
                assert(path@ =~= "/"@ + tail@);
            } else {
                path.append(tail.as_str());
                assert(path@ =~= tail@);
            }
        }
        let mut origin = String::new();
        origin.append(scheme.as_str());
        origin.append("://");
        origin.append(authority.as_str());
        assert(origin@ =~= scheme@ + "://"@ + authority@);
        Ok(ParsedHttpUrl { scheme, host, port, path, authority, origin })
    }
}

// ---------------------------------------------------------------------------
// Headers
// ---------------------------------------------------------------------------

/// The headers that only the transport sets.
pub open spec fn is_transport_header(name: Seq<char>) -> bool {
    ||| name == "host"@
    ||| name == "connection"@
    ||| name == "content-type"@
    ||| name == "accept"@
    ||| name == "content-length"@
    ||| name == "transfer-encoding"@
    ||| name == "te"@
    ||| name == "trailer"@
    ||| name == "upgrade"@
    ||| name == "proxy-connection"@
    ||| name == "mcp-session-id"@
    ||| name == "mcp-protocol-version"@
}

pub open spec fn is_alphanumeric_or_dash(byte: u8) -> bool {
    0x30 <= byte <= 0x39 || 0x41 <= byte <= 0x5a || 0x61 <= byte <= 0x7a || byte == 0x2d
}

/// Whether a name is made of ASCII letters, digits and dashes.
pub open spec fn is_plain_name(name: Seq<char>) -> bool {
    &&& text::trimmed(name).len() > 0
    &&& forall|i: int|
        0 <= i < encode_utf8(name).len() ==> is_alphanumeric_or_dash(
            #[trigger] encode_utf8(name)[i],
        )
}

/// Whether a value holds a control character other than the tab.
pub open spec fn has_forbidden_control(value: Seq<char>) -> bool {
    exists|i: int|
        0 <= i < value.len() && #[trigger] value[i] != '\t' && crate::json::is_control(value[i])
}

/// Why a caller's header is refused, if it is.
pub open spec fn header_refusal(name: Seq<char>, value: Seq<char>) -> Option<ErrorModel> {
    if !is_plain_name(name) {
        Some(invalid("MCP HTTP header name is unsupported"@).ctx("header"@, name))
    } else if is_transport_header(text::lower(name)) {
        Some(
            ErrorModel::new(
                ErrorKind::PermissionDenied,
                "MCP HTTP header is controlled by the transport"@,
            ).ctx("header"@, name),
        )
    } else if has_forbidden_control(value) {
        Some(invalid("MCP HTTP header value contains a control character"@).ctx("header"@, name))
    } else {
        None
    }
}

fn plain_bytes(bytes: &[u8]) -> (plain: bool)
    ensures
        plain == forall|i: int|
            0 <= i < bytes@.len() ==> is_alphanumeric_or_dash(#[trigger] bytes@[i]),
{
    let mut i: usize = 0;
    while i < bytes.len()
        invariant
            i <= bytes@.len(),
            forall|k: int| 0 <= k < i ==> is_alphanumeric_or_dash(#[trigger] bytes@[k]),
        decreases bytes@.len() - i,
    {
        let c: u8 = bytes[i];
        if !((0x30 <= c && c <= 0x39) || (0x41 <= c && c <= 0x5a) || (0x61 <= c && c <= 0x7a) || c
            == 0x2d) {
            assert(!is_alphanumeric_or_dash(bytes@[i as int]));
            return false;
        }
        i += 1;
    }
    true
}

fn forbidden_control(value: &str) -> (found: bool)
    ensures
        found == has_forbidden_control(value@),
{
    let s = chars_of(value);
    let mut i: usize = 0;
    while i < s.len()
        invariant
            i <= s@.len(),
            s@ == value@,
            forall|k: int|
                0 <= k < i ==> !(#[trigger] value@[k] != '\t' && crate::json::is_control(value@[k])),
        decreases s@.len() - i,
    {
        let c = s[i];
        if c != '\t' && ((c as u32) < 0x20 || (0x7f <= c as u32 && c as u32 <= 0x9f)) {
            assert(value@[i as int] != '\t' && crate::json::is_control(value@[i as int]));
            return true;
        }
        i += 1;
    }
    false
}

/// Refuse a caller's header that is malformed or that only the transport sets.
pub fn validate_http_header(name: &str, value: &str) -> (outcome: Result<(), EvaError>)
    ensures
        match outcome {
            Ok(()) => header_refusal(name@, value@) is None,
            Err(error) => header_refusal(name@, value@) == Some(error@),
        },
{
    if trim(name).as_str().is_empty() || !plain_bytes(name.as_bytes()) {
        return Err(
            EvaError::invalid_argument("MCP HTTP header name is unsupported").with_context(
                "header",
                name,
            ),
        );
    }
    let small = to_lower(name);
    let key = small.as_str();
    if str_eq(key, "host") || str_eq(key, "connection") || str_eq(key, "content-type") || str_eq(
        key,
        "accept",
    ) || str_eq(key, "content-length") || str_eq(key, "transfer-encoding") || str_eq(key, "te")
        || str_eq(key, "trailer") || str_eq(key, "upgrade") || str_eq(key, "proxy-connection")
        || str_eq(key, "mcp-session-id") || str_eq(key, "mcp-protocol-version") {
        return Err(
            EvaError::permission_denied(
                "MCP HTTP header is controlled by the transport",
            ).with_context("header", name),
        );
    }
    if forbidden_control(value) {
        return Err(
            EvaError::invalid_argument(
                "MCP HTTP header value contains a control character",
            ).with_context("header", name),
        );
    }
    Ok(())
}

pub open spec fn is_ascii_text_byte(byte: u8) -> bool {
    0x20 <= byte <= 0x7e
}

/// Why a header of the session is refused, if it is.
pub open spec fn internal_header_refusal(name: Seq<char>, value: Seq<char>) -> Option<ErrorModel> {
    if text::trimmed(name).len() == 0 || !http_framing::all_token_bytes(encode_utf8(name)) {
        Some(
            ErrorModel::new(
                ErrorKind::Internal,
                "MCP HTTP internal header name is invalid"@,
            ).code("mcp_http_internal_header_invalid"@),
        )
    } else if value.len() == 0 || exists|i: int|
        0 <= i < encode_utf8(value).len() && !is_ascii_text_byte(#[trigger] encode_utf8(value)[i]) {
        Some(
            ErrorModel::new(
                ErrorKind::Internal,
                "MCP HTTP internal header value is invalid"@,
            ).code("mcp_http_internal_header_invalid"@),
        )
    } else {
        None
    }
}

fn ascii_text_bytes(bytes: &[u8]) -> (plain: bool)
    ensures
        plain == !(exists|i: int|
            0 <= i < bytes@.len() && !is_ascii_text_byte(#[trigger] bytes@[i])),
{
    let mut i: usize = 0;
    while i < bytes.len()
        invariant
            i <= bytes@.len(),
            forall|k: int| 0 <= k < i ==> is_ascii_text_byte(#[trigger] bytes@[k]),
        decreases bytes@.len() - i,
    {
        if bytes[i] < 0x20 || 0x7e < bytes[i] {
            assert(!is_ascii_text_byte(bytes@[i as int]));
            return false;
        }
        i += 1;
    }
    true
}

/// Refuse a header of the session that could not be sent as it is.
pub fn validate_internal_http_header(name: &str, value: &str) -> (outcome: Result<(), EvaError>)
    ensures
        match outcome {
            Ok(()) => internal_header_refusal(name@, value@) is None,
            Err(error) => internal_header_refusal(name@, value@) == Some(error@),
        },
{
    if trim(name).as_str().is_empty() || !token_bytes(name.as_bytes()) {
        return Err(
            EvaError::internal("MCP HTTP internal header name is invalid").with_provider_code(
                "mcp_http_internal_header_invalid",
            ),
        );
    }
    if value.is_empty() || !ascii_text_bytes(value.as_bytes()) {
        return Err(
            EvaError::internal("MCP HTTP internal header value is invalid").with_provider_code(
                "mcp_http_internal_header_invalid",
            ),
        );
    }
    Ok(())
}

/// A header: name and value.
pub type Headers = Seq<(Seq<char>, Seq<char>)>;

/// Header names in small letters, without repetition.
pub open spec fn lower_names(headers: Headers) -> Set<Seq<char>> {
    Set::new(
        |n: Seq<char>|
            exists|i: int| 0 <= i < headers.len() && text::lower((#[trigger] headers[i]).0) == n,
    )
}

/// Why a set of a caller's headers is refused, if it is: the first header that
/// is refused on its own or repeats an earlier name decides.
pub open spec fn headers_refusal(headers: Headers) -> Option<ErrorModel>
    decreases headers.len(),
{
    if headers.len() == 0 {
        None
    } else if headers_refusal(headers.drop_last()) is Some {
        headers_refusal(headers.drop_last())
    } else if header_refusal(headers.last().0, headers.last().1) is Some {
        header_refusal(headers.last().0, headers.last().1)
    } else if lower_names(headers.drop_last()).contains(text::lower(headers.last().0)) {
        Some(
            invalid("MCP HTTP header names must be unique ignoring ASCII case"@).ctx(
                "header"@,
                headers.last().0,
            ),
        )
    } else {
        None
    }
}

proof fn lemma_headers_refusal_prefix(headers: Headers, k: int)
    requires
        0 <= k <= headers.len(),
        headers_refusal(headers.take(k)) is Some,
    ensures
        headers_refusal(headers) == headers_refusal(headers.take(k)),
    decreases headers.len() - k,
{
    if k < headers.len() {
        assert(headers.take(k + 1).drop_last() =~= headers.take(k));
        lemma_headers_refusal_prefix(headers, k + 1);
    } else {
        assert(headers.take(k) =~= headers);
    }
}

/// Refuse a caller's headers that are malformed, that only the transport sets,
/// or that repeat a name.
pub fn validate_headers(headers: &Vec<(String, String)>) -> (outcome: Result<(), EvaError>)
    ensures
        match outcome {
            Ok(()) => headers_refusal(crate::error::pair_texts(headers@)) is None,
            Err(error) => headers_refusal(crate::error::pair_texts(headers@)) == Some(error@),
        },
{
    let ghost all = crate::error::pair_texts(headers@);
    let mut seen = NameSet::new();
    let mut i: usize = 0;
    assert(seen@ =~= lower_names(all.take(0)));
    while i < headers.len()
        invariant
            i <= headers@.len(),
            all == crate::error::pair_texts(headers@),
            seen.wf(),
            seen@ == lower_names(all.take(i as int)),
            headers_refusal(all.take(i as int)) is None,
        decreases headers@.len() - i,
    {
        let name = headers[i].0.as_str();
        let value = headers[i].1.as_str();
        proof {
            let next = all.take(i + 1);
            assert(next.drop_last() =~= all.take(i as int));
            assert(next.last() == (name@, value@));
            if headers_refusal(next) is Some {
                lemma_headers_refusal_prefix(all, i + 1);
            }
        }
        match validate_http_header(name, value) {
            Ok(()) => {},
            Err(error) => return Err(error),
        }
        let small = to_lower(name);
        if seen.contains(small.as_str()) {
            return Err(
                EvaError::invalid_argument(
                    "MCP HTTP header names must be unique ignoring ASCII case",
                ).with_context("header", name),
            );
        }
        proof {
            let now = all.take(i as int);
            let next = all.take(i + 1);
            assert forall|n: Seq<char>|
                lower_names(next).contains(n) <==> lower_names(now).insert(small@).contains(n) by {
                if lower_names(now).contains(n) {
                    let k = choose|k: int|
                        0 <= k < now.len() && text::lower((#[trigger] now[k]).0) == n;
                    assert(next[k] == now[k]);
                }
                if n == small@ {
                    assert(text::lower(next[i as int].0) == n);
                }
                if lower_names(next).contains(n) {
                    let k = choose|k: int|
                        0 <= k < next.len() && text::lower((#[trigger] next[k]).0) == n;
                    if k < i {
                        assert(now[k] == next[k]);
                    }
                }
            }
            assert(lower_names(next) =~= lower_names(now).insert(small@));
        }
        seen.insert(small);
        i += 1;
    }
    assert(all.take(i as int) =~= all);
    Ok(())
}

// ---------------------------------------------------------------------------
// Request heads
// ---------------------------------------------------------------------------

/// One header line.
pub open spec fn header_text(name: Seq<char>, value: Seq<char>) -> Seq<char> {
    name + ": "@ + value + "\r\n"@
}

/// A caller's header lines from `at` on, behind those already written, with the
/// names in use.
pub open spec fn caller_lines(headers: Headers, at: int, names: Set<Seq<char>>, out: Seq<char>) -> Result<
    (Set<Seq<char>>, Seq<char>),
    ErrorModel,
>
    decreases headers.len() - at,
{
    if !(0 <= at < headers.len()) {
        Ok((names, out))
    } else {
        let (name, value) = headers[at];
        if header_refusal(name, value) is Some {
            Err(header_refusal(name, value)->0)
        } else if names.contains(text::lower(name)) {
            Err(
                invalid("MCP HTTP request header collides with a transport header"@).ctx(
                    "header"@,
                    name,
                ),
            )
        } else {
            caller_lines(
                headers,
                at + 1,
                names.insert(text::lower(name)),
                out + header_text(name, value),
            )
        }
    }
}

/// The session's header lines from `at` on, behind those already written.
pub open spec fn session_lines(headers: Headers, at: int, names: Set<Seq<char>>, out: Seq<char>) -> Result<
    Seq<char>,
    ErrorModel,
>
    decreases headers.len() - at,
{
    if !(0 <= at < headers.len()) {
        Ok(out)
    } else {
        let (name, value) = headers[at];
        if internal_header_refusal(name, value) is Some {
            Err(internal_header_refusal(name, value)->0)
        } else if names.contains(text::lower(name)) {
            Err(
                ErrorModel::new(
                    ErrorKind::Internal,
                    "MCP HTTP internal header collides with a transport header"@,
                ).code("mcp_http_internal_header_collision"@),
            )
        } else {
            session_lines(
                headers,
                at + 1,
                names.insert(text::lower(name)),
                out + header_text(name, value),
            )
        }
    }
}

pub open spec fn is_method_byte(byte: u8) -> bool {
    0x41 <= byte <= 0x5a || 0x30 <= byte <= 0x39 || byte == 0x2d
}

pub open spec fn valid_method(method: Seq<char>) -> bool {
    &&& method.len() > 0
    &&& forall|i: int|
        0 <= i < encode_utf8(method).len() ==> is_method_byte(#[trigger] encode_utf8(method)[i])
}

pub open spec fn has_control_bytes(bytes: Seq<u8>) -> bool {
    exists|i: int| 0 <= i < bytes.len() && (#[trigger] bytes[i] < 0x20 || bytes[i] == 0x7f)
}

/// The names that the transport itself writes.
pub open spec fn transport_names(body: Seq<char>) -> Set<Seq<char>> {
    let base = Set::<Seq<char>>::empty().insert("host"@).insert("connection"@).insert("accept"@);
    if body.len() == 0 {
        base
    } else {
        base.insert("content-type"@).insert("content-length"@)
    }
}

/// The lines that the transport itself writes.
pub open spec fn transport_lines(method: Seq<char>, url: UrlModel, accept: Seq<char>, body: Seq<char>) -> Seq<
    char,
> {
    let base = method + " "@ + url.path + " HTTP/1.1\r\nHost: "@ + url.authority
        + "\r\nConnection: close\r\nAccept: "@ + accept + "\r\n"@;
    if body.len() == 0 {
        base
    } else {
        base + "Content-Type: application/json\r\nContent-Length: "@ + text::decimal(
            encode_utf8(body).len(),
        ) + "\r\n"@
    }
}

/// The head of a request: its line, the transport's headers, the caller's, the
/// session's, and the empty line.
pub open spec fn request_head(
    url: UrlModel,
    method: Seq<char>,
    accept: Seq<char>,
    body: Seq<char>,
    headers: Headers,
    session: Headers,
) -> Result<Seq<char>, ErrorModel> {
    if !valid_method(method) {
        Err(
            ErrorModel::new(ErrorKind::Internal, "MCP HTTP method is invalid"@).code(
                "mcp_http_method_invalid"@,
            ),
        )
    } else if accept.len() == 0 || has_control_bytes(encode_utf8(accept)) {
        Err(
            ErrorModel::new(ErrorKind::Internal, "MCP HTTP accept value is invalid"@).code(
                "mcp_http_accept_invalid"@,
            ),
        )
    } else {
        match caller_lines(
            headers,
            0,
            transport_names(body),
            transport_lines(method, url, accept, body),
        ) {
            Err(error) => Err(error),
            Ok((names, out)) => match session_lines(session, 0, names, out) {
                Err(error) => Err(error),
                Ok(all) => Ok(all + "\r\n"@),
            },
        }
    }
}

fn method_bytes(bytes: &[u8]) -> (plain: bool)
    ensures
        plain == forall|i: int| 0 <= i < bytes@.len() ==> is_method_byte(#[trigger] bytes@[i]),
{
    let mut i: usize = 0;
    while i < bytes.len()
        invariant
            i <= bytes@.len(),
            forall|k: int| 0 <= k < i ==> is_method_byte(#[trigger] bytes@[k]),
        decreases bytes@.len() - i,
    {
        let c: u8 = bytes[i];
        if !((0x41 <= c && c <= 0x5a) || (0x30 <= c && c <= 0x39) || c == 0x2d) {
            assert(!is_method_byte(bytes@[i as int]));
            return false;
        }
        i += 1;
    }
    true
}

fn control_bytes(bytes: &[u8]) -> (found: bool)
    ensures
        found == has_control_bytes(bytes@),
{
    let mut i: usize = 0;
    while i < bytes.len()
        invariant
            i <= bytes@.len(),
            forall|k: int| 0 <= k < i ==> !(#[trigger] bytes@[k] < 0x20 || bytes@[k] == 0x7f),
        decreases bytes@.len() - i,
    {
        if bytes[i] < 0x20 || bytes[i] == 0x7f {
            assert(bytes@[i as int] < 0x20 || bytes@[i as int] == 0x7f);
            return true;
        }
        i += 1;
    }
    false
}

fn push_header(out: &mut String, name: &str, value: &str)
    ensures
        final(out)@ == old(out)@ + header_text(name@, value@),
{
    let ghost before = out@;
    out.append(name);
    out.append(": ");
    out.append(value);
    out.append("\r\n");
    assert(out@ =~= before + header_text(name@, value@));
}

/// The head of a request.
pub fn http_request_head(
    url: &ParsedHttpUrl,
    method: &str,
    accept: &str,
    body: &str,
    headers: &Vec<(String, String)>,
    session: &Vec<(String, String)>,
) -> (head: Result<String, EvaError>)
    ensures
        match head {
            Ok(text) => request_head(
                url@,
                method@,
                accept@,
                body@,
                crate::error::pair_texts(headers@),
                crate::error::pair_texts(session@),
            ) == Ok::<Seq<char>, ErrorModel>(text@),
            Err(error) => request_head(
                url@,
                method@,
                accept@,
                body@,
                crate::error::pair_texts(headers@),
                crate::error::pair_texts(session@),
            ) == Err::<Seq<char>, ErrorModel>(error@),
        },
{
    let ghost callers = crate::error::pair_texts(headers@);
    let ghost sessions = crate::error::pair_texts(session@);
    if method.is_empty() || !method_bytes(method.as_bytes()) {
        return Err(
            EvaError::internal("MCP HTTP method is invalid").with_provider_code(
                "mcp_http_method_invalid",
            ),
        );
    }
    if accept.is_empty() || control_bytes(accept.as_bytes()) {
        return Err(
            EvaError::internal("MCP HTTP accept value is invalid").with_provider_code(
                "mcp_http_accept_invalid",
            ),
        );
    }
    let mut names = NameSet::new();
    names.insert("host".to_owned());
    names.insert("connection".to_owned());
    names.insert("accept".to_owned());
    let mut out = String::new();
    out.append(method);
    out.append(" ");
    out.append(url.path.as_str());
    out.append(" HTTP/1.1\r\nHost: ");
    out.append(url.authority.as_str());
    out.append("\r\nConnection: close\r\nAccept: ");
    out.append(accept);
    out.append("\r\n");
    if !body.is_empty() {
        names.insert("content-type".to_owned());
        names.insert("content-length".to_owned());
        out.append("Content-Type: application/json\r\nContent-Length: ");
        out.append(decimal_usize(byte_len(body)).as_str());
        out.append("\r\n");
    }
    assert(out@ =~= transport_lines(method@, url@, accept@, body@));
    assert(names@ =~= transport_names(body@));
    let ghost first = caller_lines(callers, 0, names@, out@);
    let mut i: usize = 0;
    while i < headers.len()
        invariant
            i <= headers@.len(),
            callers == crate::error::pair_texts(headers@),
            names.wf(),
            first == caller_lines(callers, i as int, names@, out@),
            first == caller_lines(
                callers,
                0,
                transport_names(body@),
                transport_lines(method@, url@, accept@, body@),
            ),
            valid_method(method@),
            accept@.len() > 0,
            !has_control_bytes(encode_utf8(accept@)),
            sessions == crate::error::pair_texts(session@),
        decreases headers@.len() - i,
    {
        let name = headers[i].0.as_str();
        let value = headers[i].1.as_str();
        assert(callers[i as int] == (name@, value@));
        match validate_http_header(name, value) {
            Ok(()) => {},
            Err(error) => return Err(error),
        }
        let small = to_lower(name);
        if names.contains(small.as_str()) {
            return Err(
                EvaError::invalid_argument(
                    "MCP HTTP request header collides with a transport header",
                ).with_context("header", name),
            );
        }
        names.insert(small);
        push_header(&mut out, name, value);
        i += 1;
    }
    let ghost second = session_lines(sessions, 0, names@, out@);
    let mut j: usize = 0;
    while j < session.len()
        invariant
            j <= session@.len(),
            sessions == crate::error::pair_texts(session@),
            names.wf(),
            second == session_lines(sessions, j as int, names@, out@),
            first matches Ok(f) && second == session_lines(sessions, 0, f.0, f.1),
            first == caller_lines(
                callers,
                0,
                transport_names(body@),
                transport_lines(method@, url@, accept@, body@),
            ),
            callers == crate::error::pair_texts(headers@),
            valid_method(method@),
            accept@.len() > 0,
            !has_control_bytes(encode_utf8(accept@)),
        decreases session@.len() - j,
    {
        let name = session[j].0.as_str();
        let value = session[j].1.as_str();
        assert(sessions[j as int] == (name@, value@));
        match validate_internal_http_header(name, value) {
            Ok(()) => {},
            Err(error) => return Err(error),
        }
        let small = to_lower(name);
        if names.contains(small.as_str()) {
            return Err(
                EvaError::internal(
                    "MCP HTTP internal header collides with a transport header",
                ).with_provider_code("mcp_http_internal_header_collision"),
            );
        }
        names.insert(small);
        push_header(&mut out, name, value);
        j += 1;
    }
    out.append("\r\n");
    Ok(out)
}

/// A request as it is sent: its head and its body.
pub open spec fn request_text(
    url: UrlModel,
    method: Seq<char>,
    accept: Seq<char>,
    body: Seq<char>,
    headers: Headers,
    session: Headers,
) -> Result<Seq<char>, ErrorModel> {
    match request_head(url, method, accept, body, headers, session) {
        Ok(head) => Ok(head + body),
        Err(error) => Err(error),
    }
}

/// A request as it is sent: its head and its body.
pub fn http_request_text(
    url: &ParsedHttpUrl,
    method: &str,
    accept: &str,
    body: &str,
    headers: &Vec<(String, String)>,
    session: &Vec<(String, String)>,
) -> (request: Result<String, EvaError>)
    ensures
        match request {
            Ok(text) => request_text(
                url@,
                method@,
                accept@,
                body@,
                crate::error::pair_texts(headers@),
                crate::error::pair_texts(session@),
            ) == Ok::<Seq<char>, ErrorModel>(text@),
            Err(error) => request_text(
                url@,
                method@,
                accept@,
                body@,
                crate::error::pair_texts(headers@),
                crate::error::pair_texts(session@),
            ) == Err::<Seq<char>, ErrorModel>(error@),
        },
{
    match http_request_head(url, method, accept, body, headers, session) {
        Ok(head) => {
            let mut request = head;
            request.append(body);
            Ok(request)
        },
        Err(error) => Err(error),
    }
}

/// A header that is accepted breaks no line: what a caller passes cannot add a
/// header or end the head.
pub proof fn law_accepted_header_breaks_no_line(name: Seq<char>, value: Seq<char>)
    requires
        header_refusal(name, value) is None,
    ensures
        !text::has_char(name, '\r'),
        !text::has_char(name, '\n'),
        !text::has_char(name, ':'),
        !text::has_char(value, '\r'),
        !text::has_char(value, '\n'),
{
    let bytes = encode_utf8(name);
    assert forall|i: int| 0 <= i < bytes.len() implies #[trigger] bytes[i] < 0x80 by {
        assert(is_alphanumeric_or_dash(bytes[i]));
    }
    text::lemma_ascii_bytes_are_ascii_chars(name);
    assert forall|i: int| 0 <= i < name.len() implies #[trigger] name[i] != '\r' && name[i] != '\n'
        && name[i] != ':' by {
        assert(is_alphanumeric_or_dash(bytes[i]));
        assert(bytes[i] == name[i] as u8);
    }
    assert forall|i: int| 0 <= i < value.len() implies #[trigger] value[i] != '\r' && value[i]
        != '\n' by {
        if value[i] == '\r' || value[i] == '\n' {
            assert(crate::json::is_control(value[i]));
        }
    }
}

/// The same of a header that the session adds.
pub proof fn law_session_header_breaks_no_line(name: Seq<char>, value: Seq<char>)
    requires
        internal_header_refusal(name, value) is None,
    ensures
        !text::has_char(name, '\r'),
        !text::has_char(name, '\n'),
        !text::has_char(value, '\r'),
        !text::has_char(value, '\n'),
{
    let names = encode_utf8(name);
    let bytes = encode_utf8(value);
    assert forall|i: int| 0 <= i < names.len() implies #[trigger] names[i] < 0x80 by {
        assert(http_framing::is_token_byte(names[i]));
    }
    text::lemma_ascii_bytes_are_ascii_chars(name);
    assert forall|i: int| 0 <= i < name.len() implies #[trigger] name[i] != '\r' && name[i]
        != '\n' by {
        assert(http_framing::is_token_byte(names[i]));
        assert(names[i] == name[i] as u8);
    }
    assert forall|i: int| 0 <= i < bytes.len() implies #[trigger] bytes[i] < 0x80 by {
        assert(is_ascii_text_byte(bytes[i]));
    }
    text::lemma_ascii_bytes_are_ascii_chars(value);
    assert forall|i: int| 0 <= i < value.len() implies #[trigger] value[i] != '\r' && value[i]
        != '\n' by {
        assert(is_ascii_text_byte(bytes[i]));
        assert(bytes[i] == value[i] as u8);
    }
}

} // verus!

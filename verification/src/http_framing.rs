//! Response heads and body framing of HTTP/1.1, read from bytes that arrive bit
//! by bit. Every reader says whether the bytes at hand decide the outcome or
//! more of them are needed.

use vstd::prelude::*;
use vstd::string::*;
use vstd::utf8::*;
use crate::error::{ErrorKind, ErrorModel, EvaError};
use crate::json_rpc;
use crate::text;
use crate::text::{
    bytes_of, chars_of, contains_char, decimal_usize, find_char, has_list_token, str_eq,
    string_from_utf8, string_from_utf8_lossy, string_of, to_lower, trim,
};

verus! {

/// The most bytes that the lines of one head may take.
pub const HTTP_HEADER_LIMIT_BYTES: usize = 65_536;

/// The longest session identifier that is accepted, in bytes.
pub const MCP_SESSION_ID_LIMIT_BYTES: usize = 4096;

/// The most informational responses that may come before the final one.
pub const MAX_INFORMATIONAL_RESPONSES: u8 = 8;

/// Why a response cannot be read.
#[derive(Debug, Clone, Copy, PartialEq, Eq, Structural)]
pub enum HttpFault {
    /// The caller takes no byte of a body.
    NoOutput,
    HeadersTooLarge,
    LineIncomplete,
    BodyIncomplete,
    StreamBodyIncomplete,
    StreamChunkIncomplete,
    LineEnd,
    DuplicateContentLength,
    DuplicateTransferEncoding,
    UnsupportedTransferEncoding,
    DuplicateContentType,
    DuplicateSessionId,
    ConflictingConnection,
    UnsupportedContentEncoding,
    StatusLineText,
    MissingStatusCode,
    UnsupportedVersion,
    InvalidStatusCode,
    StatusCodeRange,
    InvalidReasonPhrase,
    FoldedHeader,
    MissingColon,
    InvalidHeaderName,
    InvalidHeaderValue,
    InvalidContentLength,
    ContentLengthOverflow,
    EmptyContentType,
    InvalidContentType,
    InvalidSessionId,
    BodyForbidden,
    ContentLengthConflict,
    FramingMissing,
    InformationalBody,
    TooManyInformational,
    ChunkEnd,
    InvalidChunkExtension,
    ChunkSizeText,
    InvalidChunkSize,
    ChunkSizeOverflow,
    ForbiddenTrailer,
}

impl HttpFault {
    /// Whether the bytes ended too early.
    pub open spec fn is_incomplete(self) -> bool {
        match self {
            HttpFault::LineIncomplete => true,
            HttpFault::BodyIncomplete => true,
            HttpFault::StreamBodyIncomplete => true,
            HttpFault::StreamChunkIncomplete => true,
            _ => false,
        }
    }

    /// The reason that the fault is reported with.
    pub open spec fn reason(self) -> Seq<char> {
        match self {
            HttpFault::NoOutput => Seq::empty(),
            HttpFault::HeadersTooLarge => Seq::empty(),
            HttpFault::LineIncomplete => "missing CRLF-terminated line"@,
            HttpFault::BodyIncomplete => "content-length body ended early"@,
            HttpFault::StreamBodyIncomplete => "content-length SSE body ended early"@,
            HttpFault::StreamChunkIncomplete => "chunked SSE body ended early"@,
            HttpFault::LineEnd => "line is not CRLF terminated"@,
            HttpFault::DuplicateContentLength => "duplicate content-length"@,
            HttpFault::DuplicateTransferEncoding => "duplicate transfer-encoding"@,
            HttpFault::UnsupportedTransferEncoding => "unsupported transfer-encoding"@,
            HttpFault::DuplicateContentType => "duplicate content-type"@,
            HttpFault::DuplicateSessionId => "duplicate MCP session id"@,
            HttpFault::ConflictingConnection => "conflicting connection directives"@,
            HttpFault::UnsupportedContentEncoding => "unsupported content-encoding"@,
            HttpFault::StatusLineText => "status line is not valid UTF-8"@,
            HttpFault::MissingStatusCode => "missing status code"@,
            HttpFault::UnsupportedVersion => "unsupported HTTP version"@,
            HttpFault::InvalidStatusCode => "invalid status code"@,
            HttpFault::StatusCodeRange => "status code is outside HTTP range"@,
            HttpFault::InvalidReasonPhrase => "invalid reason phrase"@,
            HttpFault::FoldedHeader => "obsolete folded header"@,
            HttpFault::MissingColon => "header is missing colon"@,
            HttpFault::InvalidHeaderName => "invalid header name"@,
            HttpFault::InvalidHeaderValue => "invalid header value"@,
            HttpFault::InvalidContentLength => "invalid content-length"@,
            HttpFault::ContentLengthOverflow => "content-length overflows host size"@,
            HttpFault::EmptyContentType => "empty content-type"@,
            HttpFault::InvalidContentType => "invalid content-type"@,
            HttpFault::InvalidSessionId => "invalid MCP session id"@,
            HttpFault::BodyForbidden => "body is forbidden for status"@,
            HttpFault::ContentLengthConflict => "content-length conflicts with transfer-encoding"@,
            HttpFault::FramingMissing => "response body framing is missing"@,
            HttpFault::InformationalBody => "informational response carried a body"@,
            HttpFault::TooManyInformational => "too many informational responses"@,
            HttpFault::ChunkEnd => "chunk data is not CRLF terminated"@,
            HttpFault::InvalidChunkExtension => "invalid chunk extension"@,
            HttpFault::ChunkSizeText => "chunk size is not ASCII"@,
            HttpFault::InvalidChunkSize => "invalid chunk size"@,
            HttpFault::ChunkSizeOverflow => "chunk size overflows host size"@,
            HttpFault::ForbiddenTrailer => "forbidden trailer field"@,
        }
    }

    /// The error that the fault is reported as.
    pub open spec fn model(self, origin: Seq<char>) -> ErrorModel {
        if self == HttpFault::NoOutput {
            ErrorModel::new(
                ErrorKind::InvalidArgument,
                "MCP HTTP response output limit must be greater than zero"@,
            )
        } else if self == HttpFault::HeadersTooLarge {
            ErrorModel::new(
                ErrorKind::Conflict,
                "MCP HTTP response headers exceeded limit"@,
            ).code("mcp_http_headers_too_large"@).ctx("origin"@, origin).ctx(
                "header_limit_bytes"@,
                text::decimal(HTTP_HEADER_LIMIT_BYTES as nat),
            )
        } else if self.is_incomplete() {
            ErrorModel::new(
                ErrorKind::Unavailable,
                "MCP HTTP response body ended before its framing completed"@,
            ).code("mcp_http_body_incomplete"@).ctx("origin"@, origin).ctx(
                "reason"@,
                self.reason(),
            )
        } else {
            ErrorModel::new(
                ErrorKind::Unavailable,
                "MCP HTTP response framing is invalid"@,
            ).code("mcp_http_framing_invalid"@).ctx("origin"@, origin).ctx("reason"@, self.reason())
        }
    }

    fn reason_text(self) -> (reason: &'static str)
        requires
            self != HttpFault::NoOutput,
            self != HttpFault::HeadersTooLarge,
        ensures
            reason@ == self.reason(),
    {
        match self {
            HttpFault::NoOutput => "",
            HttpFault::HeadersTooLarge => "",
            HttpFault::LineIncomplete => "missing CRLF-terminated line",
            HttpFault::BodyIncomplete => "content-length body ended early",
            HttpFault::StreamBodyIncomplete => "content-length SSE body ended early",
            HttpFault::StreamChunkIncomplete => "chunked SSE body ended early",
            HttpFault::LineEnd => "line is not CRLF terminated",
            HttpFault::DuplicateContentLength => "duplicate content-length",
            HttpFault::DuplicateTransferEncoding => "duplicate transfer-encoding",
            HttpFault::UnsupportedTransferEncoding => "unsupported transfer-encoding",
            HttpFault::DuplicateContentType => "duplicate content-type",
            HttpFault::DuplicateSessionId => "duplicate MCP session id",
            HttpFault::ConflictingConnection => "conflicting connection directives",
            HttpFault::UnsupportedContentEncoding => "unsupported content-encoding",
            HttpFault::StatusLineText => "status line is not valid UTF-8",
            HttpFault::MissingStatusCode => "missing status code",
            HttpFault::UnsupportedVersion => "unsupported HTTP version",
            HttpFault::InvalidStatusCode => "invalid status code",
            HttpFault::StatusCodeRange => "status code is outside HTTP range",
            HttpFault::InvalidReasonPhrase => "invalid reason phrase",
            HttpFault::FoldedHeader => "obsolete folded header",
            HttpFault::MissingColon => "header is missing colon",
            HttpFault::InvalidHeaderName => "invalid header name",
            HttpFault::InvalidHeaderValue => "invalid header value",
            HttpFault::InvalidContentLength => "invalid content-length",
            HttpFault::ContentLengthOverflow => "content-length overflows host size",
            HttpFault::EmptyContentType => "empty content-type",
            HttpFault::InvalidContentType => "invalid content-type",
            HttpFault::InvalidSessionId => "invalid MCP session id",
            HttpFault::BodyForbidden => "body is forbidden for status",
            HttpFault::ContentLengthConflict => "content-length conflicts with transfer-encoding",
            HttpFault::FramingMissing => "response body framing is missing",
            HttpFault::InformationalBody => "informational response carried a body",
            HttpFault::TooManyInformational => "too many informational responses",
            HttpFault::ChunkEnd => "chunk data is not CRLF terminated",
            HttpFault::InvalidChunkExtension => "invalid chunk extension",
            HttpFault::ChunkSizeText => "chunk size is not ASCII",
            HttpFault::InvalidChunkSize => "invalid chunk size",
            HttpFault::ChunkSizeOverflow => "chunk size overflows host size",
            HttpFault::ForbiddenTrailer => "forbidden trailer field",
        }
    }

    /// The error that the fault is reported as. What the peer sent stays out of it.
    pub fn to_error(self, origin: &str) -> (error: EvaError)
        ensures
            error@ == self.model(origin@),
    {
        match self {
            HttpFault::NoOutput => EvaError::invalid_argument(
                "MCP HTTP response output limit must be greater than zero",
            ),
            HttpFault::HeadersTooLarge => EvaError::conflict(
                "MCP HTTP response headers exceeded limit",
            ).with_provider_code("mcp_http_headers_too_large").with_context(
                "origin",
                origin,
            ).with_context("header_limit_bytes", decimal_usize(HTTP_HEADER_LIMIT_BYTES).as_str()),
            HttpFault::LineIncomplete | HttpFault::BodyIncomplete | HttpFault::StreamBodyIncomplete | HttpFault::StreamChunkIncomplete => EvaError::unavailable(
                "MCP HTTP response body ended before its framing completed",
            ).with_provider_code("mcp_http_body_incomplete").with_context(
                "origin",
                origin,
            ).with_context("reason", self.reason_text()),
            _ => EvaError::unavailable("MCP HTTP response framing is invalid").with_provider_code(
                "mcp_http_framing_invalid",
            ).with_context("origin", origin).with_context("reason", self.reason_text()),
        }
    }
}

/// What the bytes at hand say: the value, that more bytes are needed, or that
/// no value will come.
pub enum Progress<T> {
    Ready(T),
    Wait,
    Fail(HttpFault),
}

// ---------------------------------------------------------------------------
// Lines
// ---------------------------------------------------------------------------

/// The first position from `at` on that holds the byte, or the end.
pub open spec fn byte_position(b: Seq<u8>, byte: u8, at: int) -> int
    decreases b.len() - at,
{
    if !(0 <= at < b.len()) || b[at] == byte {
        at
    } else {
        byte_position(b, byte, at + 1)
    }
}

pub proof fn lemma_byte_position(b: Seq<u8>, byte: u8, at: int)
    requires
        0 <= at <= b.len(),
    ensures
        at <= byte_position(b, byte, at) <= b.len(),
        byte_position(b, byte, at) < b.len() ==> b[byte_position(b, byte, at)] == byte,
        forall|k: int| at <= k < byte_position(b, byte, at) ==> #[trigger] b[k] != byte,
    decreases b.len() - at,
{
    if at < b.len() && b[at] != byte {
        lemma_byte_position(b, byte, at + 1);
    }
}

/// The first position from `at` on that holds the byte, or the end.
pub fn find_byte(b: &[u8], byte: u8, at: usize) -> (position: usize)
    requires
        at <= b@.len(),
    ensures
        position == byte_position(b@, byte, at as int),
        at <= position <= b@.len(),
        position < b@.len() ==> b@[position as int] == byte,
{
    let mut i: usize = at;
    while i < b.len() && b[i] != byte
        invariant
            at <= i <= b@.len(),
            byte_position(b@, byte, at as int) == byte_position(b@, byte, i as int),
        decreases b@.len() - i,
    {
        i += 1;
    }
    i
}

/// Where a line ends, where the next one starts, and how many bytes the lines
/// of the head have taken so far.
pub struct LineSpan {
    pub end: int,
    pub next: int,
    pub consumed: int,
}

/// The line that starts at `at`, when `consumed` bytes of the head came before.
/// The limit strikes before the line ends.
pub open spec fn line_at(b: Seq<u8>, at: int, consumed: int, ended: bool) -> Progress<LineSpan> {
    let feed = byte_position(b, 10, at);
    let taken = if feed < b.len() {
        feed - at + 1
    } else {
        b.len() - at
    };
    if consumed + taken > HTTP_HEADER_LIMIT_BYTES {
        Progress::Fail(HttpFault::HeadersTooLarge)
    } else if feed >= b.len() {
        if ended {
            Progress::Fail(HttpFault::LineIncomplete)
        } else {
            Progress::Wait
        }
    } else if feed == at || b[feed - 1] != 13 {
        Progress::Fail(HttpFault::LineEnd)
    } else {
        Progress::Ready(LineSpan { end: feed - 1, next: feed + 1, consumed: consumed + taken })
    }
}

/// The span of a line that was read.
#[derive(Clone, Copy)]
pub struct HttpLine {
    pub end: usize,
    pub next: usize,
    pub consumed: usize,
}

/// Read the line that starts at `at`.
pub fn read_http_line(b: &[u8], at: usize, consumed: usize, ended: bool) -> (line: Progress<
    HttpLine,
>)
    requires
        at <= b@.len(),
        consumed <= HTTP_HEADER_LIMIT_BYTES,
    ensures
        match line {
            Progress::Ready(l) => line_at(b@, at as int, consumed as int, ended)
                == Progress::Ready(
                (LineSpan { end: l.end as int, next: l.next as int, consumed: l.consumed as int }),
            ) && at <= l.end < l.next <= b@.len() && l.consumed <= HTTP_HEADER_LIMIT_BYTES,
            Progress::Wait => line_at(b@, at as int, consumed as int, ended) == Progress::<
                LineSpan,
            >::Wait,
            Progress::Fail(fault) => line_at(b@, at as int, consumed as int, ended)
                == Progress::<LineSpan>::Fail(fault),
        },
{
    let feed: usize = find_byte(b, 10, at);
    let room: usize = HTTP_HEADER_LIMIT_BYTES - consumed;
    if feed >= b.len() {
        if b.len() - at > room {
            return Progress::Fail(HttpFault::HeadersTooLarge);
        }
        return if ended {
            Progress::Fail(HttpFault::LineIncomplete)
        } else {
            Progress::Wait
        };
    }
    if feed - at >= room {
        return Progress::Fail(HttpFault::HeadersTooLarge);
    }
    if feed == at || b[feed - 1] != 13 {
        return Progress::Fail(HttpFault::LineEnd);
    }
    Progress::Ready(HttpLine { end: feed - 1, next: feed + 1, consumed: consumed + (feed - at + 1) })
}

// ---------------------------------------------------------------------------
// Status lines and headers
// ---------------------------------------------------------------------------

/// The bytes that a header name may hold.
pub open spec fn is_token_byte(byte: u8) -> bool {
    ||| 0x30 <= byte <= 0x39
    ||| 0x41 <= byte <= 0x5a
    ||| 0x61 <= byte <= 0x7a
    ||| byte == 0x21
    ||| 0x23 <= byte <= 0x27
    ||| byte == 0x2a
    ||| byte == 0x2b
    ||| byte == 0x2d
    ||| byte == 0x2e
    ||| byte == 0x5e
    ||| byte == 0x5f
    ||| byte == 0x60
    ||| byte == 0x7c
    ||| byte == 0x7e
}

pub fn is_http_token_byte(byte: u8) -> (token: bool)
    ensures
        token == is_token_byte(byte),
{
    (0x30 <= byte && byte <= 0x39) || (0x41 <= byte && byte <= 0x5a) || (0x61 <= byte && byte
        <= 0x7a) || byte == 0x21 || (0x23 <= byte && byte <= 0x27) || byte == 0x2a || byte == 0x2b
        || byte == 0x2d || byte == 0x2e || byte == 0x5e || byte == 0x5f || byte == 0x60 || byte
        == 0x7c || byte == 0x7e
}

pub open spec fn all_token_bytes(b: Seq<u8>) -> bool {
    forall|i: int| 0 <= i < b.len() ==> is_token_byte(#[trigger] b[i])
}

pub fn token_bytes(b: &[u8]) -> (token: bool)
    ensures
        token == all_token_bytes(b@),
{
    let mut i: usize = 0;
    while i < b.len()
        invariant
            i <= b@.len(),
            forall|k: int| 0 <= k < i ==> is_token_byte(#[trigger] b@[k]),
        decreases b@.len() - i,
    {
        if !is_http_token_byte(b[i]) {
            return false;
        }
        i += 1;
    }
    true
}

/// Control bytes that may not stand in a header value or a reason phrase.
pub open spec fn is_refused_control(byte: int) -> bool {
    (byte < 0x20 && byte != 9) || byte == 0x7f
}

pub open spec fn has_refused_control(b: Seq<u8>) -> bool {
    exists|i: int| 0 <= i < b.len() && is_refused_control(#[trigger] b[i] as int)
}

fn refused_control(b: &[u8]) -> (found: bool)
    ensures
        found == has_refused_control(b@),
{
    let mut i: usize = 0;
    while i < b.len()
        invariant
            i <= b@.len(),
            forall|k: int| 0 <= k < i ==> !is_refused_control(#[trigger] b@[k] as int),
        decreases b@.len() - i,
    {
        if (b[i] < 0x20 && b[i] != 9) || b[i] == 0x7f {
            assert(is_refused_control(b@[i as int] as int));
            return true;
        }
        i += 1;
    }
    false
}

/// ASCII bytes as text.
pub open spec fn ascii_text(b: Seq<u8>) -> Seq<char> {
    Seq::new(b.len(), |i: int| b[i] as char)
}

pub fn text_of_ascii(b: &[u8]) -> (out: String)
    ensures
        out@ == ascii_text(b@),
{
    let mut out = String::new();
    let mut i: usize = 0;
    while i < b.len()
        invariant
            i <= b@.len(),
            out@ == ascii_text(b@).take(i as int),
        decreases b@.len() - i,
    {
        out.push(b[i] as char);
        assert(ascii_text(b@).take(i + 1) =~= ascii_text(b@).take(i as int).push(
            ascii_text(b@)[i as int],
        ));
        i += 1;
    }
    assert(ascii_text(b@).take(i as int) =~= ascii_text(b@));
    out
}

pub open spec fn is_blank(c: char) -> bool {
    c == ' ' || c == '\t'
}

/// The text without leading spaces and tabs.
pub open spec fn blank_front(s: Seq<char>) -> Seq<char>
    decreases s.len(),
{
    if s.len() > 0 && is_blank(s[0]) {
        blank_front(s.drop_first())
    } else {
        s
    }
}

/// The text without trailing spaces and tabs.
pub open spec fn blank_back(s: Seq<char>) -> Seq<char>
    decreases s.len(),
{
    if s.len() > 0 && is_blank(s.last()) {
        blank_back(s.drop_last())
    } else {
        s
    }
}

/// The text without the spaces and tabs around it.
pub open spec fn unpadded(s: Seq<char>) -> Seq<char> {
    blank_back(blank_front(s))
}

/// The text without the spaces and tabs around it.
pub fn trim_blanks(s: &str) -> (out: String)
    ensures
        out@ == unpadded(s@),
{
    let chars = chars_of(s);
    let mut from: usize = 0;
    assert(s@.skip(0) =~= s@);
    while from < chars.len() && (chars[from] == ' ' || chars[from] == '\t')
        invariant
            from <= chars@.len(),
            chars@ == s@,
            blank_front(s@) == blank_front(s@.skip(from as int)),
        decreases chars@.len() - from,
    {
        assert(s@.skip(from as int).drop_first() =~= s@.skip(from + 1));
        from += 1;
    }
    let mut to: usize = chars.len();
    let ghost front = s@.skip(from as int);
    assert(blank_front(s@) == front);
    assert(s@.subrange(from as int, to as int) =~= front);
    while from < to && (chars[to - 1] == ' ' || chars[to - 1] == '\t')
        invariant
            from <= to <= chars@.len(),
            chars@ == s@,
            blank_back(front) == blank_back(s@.subrange(from as int, to as int)),
        decreases to,
    {
        assert(s@.subrange(from as int, to as int).drop_last() =~= s@.subrange(
            from as int,
            to - 1,
        ));
        to -= 1;
    }
    string_of(chars.as_slice(), from, to)
}

/// The name, in small letters, and the value of a header line.
pub open spec fn header_line(line: Seq<u8>) -> Result<(Seq<char>, Seq<char>), HttpFault> {
    let colon = byte_position(line, 0x3a, 0);
    if line.len() > 0 && (line[0] == 0x20 || line[0] == 9) {
        Err(HttpFault::FoldedHeader)
    } else if colon >= line.len() {
        Err(HttpFault::MissingColon)
    } else if colon == 0 || !all_token_bytes(line.take(colon)) {
        Err(HttpFault::InvalidHeaderName)
    } else if has_refused_control(line.skip(colon + 1)) {
        Err(HttpFault::InvalidHeaderValue)
    } else {
        Ok(
            (
                text::lower(ascii_text(line.take(colon))),
                unpadded(text::lossy_text(line.skip(colon + 1))),
            ),
        )
    }
}

/// The name, in small letters, and the value of a header line.
pub fn parse_http_header_line(line: &[u8]) -> (header: Result<(String, String), HttpFault>)
    ensures
        match header {
            Ok((name, value)) => header_line(line@) == Ok::<(Seq<char>, Seq<char>), HttpFault>(
                (name@, value@),
            ),
            Err(fault) => header_line(line@) == Err::<(Seq<char>, Seq<char>), HttpFault>(fault),
        },
{
    if line.len() > 0 && (line[0] == 0x20 || line[0] == 9) {
        return Err(HttpFault::FoldedHeader);
    }
    let colon: usize = find_byte(line, 0x3a, 0);
    if colon >= line.len() {
        return Err(HttpFault::MissingColon);
    }
    let name = vstd::slice::slice_subrange(line, 0, colon);
    let rest = vstd::slice::slice_subrange(line, colon + 1, line.len());
    assert(name@ =~= line@.take(colon as int));
    assert(rest@ =~= line@.skip(colon + 1));
    if colon == 0 || !token_bytes(name) {
        return Err(HttpFault::InvalidHeaderName);
    }
    if refused_control(rest) {
        return Err(HttpFault::InvalidHeaderValue);
    }
    Ok(
        (
            to_lower(text_of_ascii(name).as_str()),
            trim_blanks(string_from_utf8_lossy(rest).as_str()),
        ),
    )
}

pub open spec fn all_digits(s: Seq<char>) -> bool {
    forall|i: int| 0 <= i < s.len() ==> text::is_decimal_digit(#[trigger] s[i])
}

/// The length that a `Content-Length` value declares.
pub open spec fn content_length_value(value: Seq<char>) -> Result<int, HttpFault> {
    if value.len() == 0 || !all_digits(value) {
        Err(HttpFault::InvalidContentLength)
    } else {
        match text::digits_value(value, 0, 0, false, 0, usize::MAX as int) {
            Ok(length) => Ok(length),
            Err(_) => Err(HttpFault::ContentLengthOverflow),
        }
    }
}

/// The length that a `Content-Length` value declares.
pub fn parse_http_content_length(value: &str) -> (length: Result<usize, HttpFault>)
    ensures
        match length {
            Ok(n) => content_length_value(value@) == Ok::<int, HttpFault>(n as int),
            Err(fault) => content_length_value(value@) == Err::<int, HttpFault>(fault),
        },
{
    let s = chars_of(value);
    if s.len() == 0 {
        return Err(HttpFault::InvalidContentLength);
    }
    let mut i: usize = 0;
    while i < s.len()
        invariant
            i <= s@.len(),
            s@ == value@,
            forall|k: int| 0 <= k < i ==> text::is_decimal_digit(#[trigger] s@[k]),
        decreases s@.len() - i,
    {
        if s[i] < '0' || '9' < s[i] {
            assert(!text::is_decimal_digit(value@[i as int]));
            return Err(HttpFault::InvalidContentLength);
        }
        i += 1;
    }
    let mut acc: usize = 0;
    let mut j: usize = 0;
    while j < s.len()
        invariant
            j <= s@.len(),
            s@ == value@,
            all_digits(s@),
            s@.len() > 0,
            text::digits_value(value@, 0, 0, false, 0, usize::MAX as int) == text::digits_value(
                s@,
                j as int,
                acc as int,
                false,
                0,
                usize::MAX as int,
            ),
        decreases s@.len() - j,
    {
        assert(text::is_decimal_digit(s@[j as int]));
        let digit: usize = (s[j] as u32 - '0' as u32) as usize;
        if acc > usize::MAX / 10 || acc * 10 > usize::MAX - digit {
            return Err(HttpFault::ContentLengthOverflow);
        }
        acc = acc * 10 + digit;
        j += 1;
    }
    Ok(acc)
}

pub open spec fn has_ascii_control(s: Seq<char>) -> bool {
    exists|i: int| 0 <= i < s.len() && ((#[trigger] s[i] as u32) < 0x20 || s[i] == '\u{7f}')
}

fn contains_ascii_control(s: &str) -> (found: bool)
    ensures
        found == has_ascii_control(s@),
{
    let chars = chars_of(s);
    let mut i: usize = 0;
    while i < chars.len()
        invariant
            i <= chars@.len(),
            chars@ == s@,
            forall|k: int|
                0 <= k < i ==> !((#[trigger] s@[k] as u32) < 0x20 || s@[k] == '\u{7f}'),
        decreases chars@.len() - i,
    {
        if (chars[i] as u32) < 0x20 || chars[i] == '\u{7f}' {
            assert((s@[i as int] as u32) < 0x20 || s@[i as int] == '\u{7f}');
            return true;
        }
        i += 1;
    }
    false
}

/// The media type that a `Content-Type` value names, without parameters and in
/// small letters.
pub open spec fn media_type_value(value: Seq<char>) -> Result<Seq<char>, HttpFault> {
    let name = text::trimmed(text::split(value, ';')[0]);
    if name.len() == 0 {
        Err(HttpFault::EmptyContentType)
    } else if !text::has_char(name, '/') || has_ascii_control(name) {
        Err(HttpFault::InvalidContentType)
    } else {
        Ok(text::lower(name))
    }
}

/// The media type that a `Content-Type` value names.
pub fn parse_http_media_type(value: &str) -> (media_type: Result<String, HttpFault>)
    ensures
        match media_type {
            Ok(name) => media_type_value(value@) == Ok::<Seq<char>, HttpFault>(name@),
            Err(fault) => media_type_value(value@) == Err::<Seq<char>, HttpFault>(fault),
        },
{
    let chars = chars_of(value);
    let end: usize = find_char(chars.as_slice(), ';', 0);
    let first = string_of(chars.as_slice(), 0, end);
    assert(text::split(value@, ';')[0] == first@);
    let name = trim(first.as_str());
    if name.as_str().is_empty() {
        return Err(HttpFault::EmptyContentType);
    }
    if !contains_char(name.as_str(), '/') || contains_ascii_control(name.as_str()) {
        return Err(HttpFault::InvalidContentType);
    }
    Ok(to_lower(name.as_str()))
}

/// A session identifier is a bounded run of visible ASCII.
pub open spec fn valid_session_token(value: Seq<char>) -> bool {
    &&& 0 < value.len()
    &&& encode_utf8(value).len() <= MCP_SESSION_ID_LIMIT_BYTES
    &&& json_rpc::all_visible_ascii(encode_utf8(value))
}

/// The session identifier that an `Mcp-Session-Id` value carries.
pub fn parse_mcp_session_id(value: &str) -> (id: Result<String, HttpFault>)
    ensures
        match id {
            Ok(id) => valid_session_token(value@) && id@ == value@,
            Err(fault) => !valid_session_token(value@) && fault == HttpFault::InvalidSessionId,
        },
{
    if value.is_empty() || value.as_bytes().len() > MCP_SESSION_ID_LIMIT_BYTES
        || !json_rpc::visible_ascii(value.as_bytes()) {
        return Err(HttpFault::InvalidSessionId);
    }
    Ok(value.to_owned())
}

pub open spec fn has_refused_control_char(s: Seq<char>) -> bool {
    exists|i: int| 0 <= i < s.len() && is_refused_control(#[trigger] s[i] as int)
}

fn refused_control_char(s: &[char], from: usize) -> (found: bool)
    requires
        from <= s@.len(),
    ensures
        found == has_refused_control_char(s@.skip(from as int)),
{
    let mut i: usize = from;
    let ghost rest = s@.skip(from as int);
    while i < s.len()
        invariant
            from <= i <= s@.len(),
            rest == s@.skip(from as int),
            forall|k: int| 0 <= k < i - from ==> !is_refused_control(#[trigger] rest[k] as int),
        decreases s@.len() - i,
    {
        let c = s[i];
        assert(rest[i - from] == c);
        if (c < '\u{20}' && c != '\t') || c == '\u{7f}' {
            assert(is_refused_control(rest[i - from] as int));
            return true;
        }
        i += 1;
    }
    false
}

/// The status code of a status line, and whether it speaks HTTP/1.1.
pub open spec fn status_line(line: Seq<u8>) -> Result<(int, bool), HttpFault> {
    if !valid_utf8(line) {
        Err(HttpFault::StatusLineText)
    } else {
        let s = decode_utf8(line);
        let first = text::char_position(s, ' ', 0);
        let second = text::char_position(s, ' ', first + 1);
        if first >= s.len() {
            Err(HttpFault::MissingStatusCode)
        } else {
            let version = s.take(first);
            let code = s.subrange(first + 1, second);
            if version != "HTTP/1.1"@ && version != "HTTP/1.0"@ {
                Err(HttpFault::UnsupportedVersion)
            } else if code.len() != 3 || !all_digits(code) {
                Err(HttpFault::InvalidStatusCode)
            } else if !(100 <= code_value(code) <= 599) {
                Err(HttpFault::StatusCodeRange)
            } else if second < s.len() && has_refused_control_char(s.skip(second + 1)) {
                Err(HttpFault::InvalidReasonPhrase)
            } else {
                Ok((code_value(code), version == "HTTP/1.1"@))
            }
        }
    }
}

/// The number that three digits denote.
pub open spec fn code_value(code: Seq<char>) -> int {
    100 * (code[0] as int - '0' as int) + 10 * (code[1] as int - '0' as int) + (code[2] as int
        - '0' as int)
}

/// The status code of a status line, and whether it speaks HTTP/1.1.
pub fn parse_http_status_line(line: &[u8]) -> (status: Result<(u16, bool), HttpFault>)
    ensures
        match status {
            Ok((code, http_11)) => status_line(line@) == Ok::<(int, bool), HttpFault>(
                (code as int, http_11),
            ) && 100 <= code <= 599,
            Err(fault) => status_line(line@) == Err::<(int, bool), HttpFault>(fault),
        },
{
    let content = bytes_of(line, 0, line.len());
    assert(content@ =~= line@);
    let s = match string_from_utf8(content) {
        Ok(decoded) => chars_of(decoded.as_str()),
        Err(_) => return Err(HttpFault::StatusLineText),
    };
    let first: usize = find_char(s.as_slice(), ' ', 0);
    if first >= s.len() {
        return Err(HttpFault::MissingStatusCode);
    }
    let second: usize = find_char(s.as_slice(), ' ', first + 1);
    let version = string_of(s.as_slice(), 0, first);
    let http_11 = str_eq(version.as_str(), "HTTP/1.1");
    if !http_11 && !str_eq(version.as_str(), "HTTP/1.0") {
        return Err(HttpFault::UnsupportedVersion);
    }
    let ghost code = s@.subrange(first + 1, second as int);
    if second - first != 4 {
        return Err(HttpFault::InvalidStatusCode);
    }
    let a = s[first + 1];
    let b = s[first + 2];
    let c = s[first + 3];
    assert(code[0] == a && code[1] == b && code[2] == c);
    if a < '0' || '9' < a || b < '0' || '9' < b || c < '0' || '9' < c {
        assert(!all_digits(code)) by {
            if all_digits(code) {
                assert(text::is_decimal_digit(code[0]));
                assert(text::is_decimal_digit(code[1]));
                assert(text::is_decimal_digit(code[2]));
            }
        }
        return Err(HttpFault::InvalidStatusCode);
    }
    assert(all_digits(code)) by {
        assert forall|i: int| 0 <= i < code.len() implies text::is_decimal_digit(
            #[trigger] code[i],
        ) by {
            assert(i == 0 || i == 1 || i == 2);
        }
    }
    let value: u32 = 100 * (a as u32 - '0' as u32) + 10 * (b as u32 - '0' as u32) + (c as u32
        - '0' as u32);
    if value < 100 || 599 < value {
        return Err(HttpFault::StatusCodeRange);
    }
    if second < s.len() && refused_control_char(s.as_slice(), second + 1) {
        return Err(HttpFault::InvalidReasonPhrase);
    }
    Ok((value as u16, http_11))
}

/// What the head of a response says.
pub struct HeadModel {
    pub status_code: int,
    pub http_11: bool,
    pub content_length: Option<int>,
    pub chunked: bool,
    pub content_type: Option<Seq<char>>,
    pub close: bool,
    pub keep_alive: bool,
    pub session_id: Option<Seq<char>>,
}

/// The head of a response, as far as framing and the session need it.
#[derive(Clone, PartialEq, Eq)]
pub struct HttpResponseHead {
    pub status_code: u16,
    pub http_11: bool,
    pub content_length: Option<usize>,
    pub transfer_encoding_chunked: bool,
    pub content_type: Option<String>,
    pub connection_close: bool,
    pub connection_keep_alive: bool,
    pub session_id: Option<String>,
}

impl View for HttpResponseHead {
    type V = HeadModel;

    open spec fn view(&self) -> HeadModel {
        HeadModel {
            status_code: self.status_code as int,
            http_11: self.http_11,
            content_length: match self.content_length {
                Some(length) => Some(length as int),
                None => None,
            },
            chunked: self.transfer_encoding_chunked,
            content_type: crate::error::option_text(self.content_type),
            close: self.connection_close,
            keep_alive: self.connection_keep_alive,
            session_id: crate::error::option_text(self.session_id),
        }
    }
}

/// The head with nothing but its status line read.
pub open spec fn fresh_head(status_code: int, http_11: bool) -> HeadModel {
    HeadModel {
        status_code,
        http_11,
        content_length: None,
        chunked: false,
        content_type: None,
        close: false,
        keep_alive: false,
        session_id: None,
    }
}

/// The head with one more header taken in.
pub open spec fn head_with(head: HeadModel, name: Seq<char>, value: Seq<char>) -> Result<
    HeadModel,
    HttpFault,
> {
    if name == "content-length"@ {
        if head.content_length is Some {
            Err(HttpFault::DuplicateContentLength)
        } else {
            match content_length_value(value) {
                Ok(length) => Ok(HeadModel { content_length: Some(length), ..head }),
                Err(fault) => Err(fault),
            }
        }
    } else if name == "transfer-encoding"@ {
        if head.chunked {
            Err(HttpFault::DuplicateTransferEncoding)
        } else if text::has_char(value, ',') || text::lower(text::trimmed(value)) != "chunked"@ {
            Err(HttpFault::UnsupportedTransferEncoding)
        } else {
            Ok(HeadModel { chunked: true, ..head })
        }
    } else if name == "content-type"@ {
        if head.content_type is Some {
            Err(HttpFault::DuplicateContentType)
        } else {
            match media_type_value(value) {
                Ok(media_type) => Ok(HeadModel { content_type: Some(media_type), ..head }),
                Err(fault) => Err(fault),
            }
        }
    } else if name == "mcp-session-id"@ {
        if head.session_id is Some {
            Err(HttpFault::DuplicateSessionId)
        } else if !valid_session_token(value) {
            Err(HttpFault::InvalidSessionId)
        } else {
            Ok(HeadModel { session_id: Some(value), ..head })
        }
    } else if name == "connection"@ {
        let close = head.close || text::lists_token(value, ',', "close"@);
        let keep_alive = head.keep_alive || text::lists_token(value, ',', "keep-alive"@);
        if close && keep_alive {
            Err(HttpFault::ConflictingConnection)
        } else {
            Ok(HeadModel { close, keep_alive, ..head })
        }
    } else if name == "content-encoding"@ && text::lower(text::trimmed(value)) != "identity"@ {
        Err(HttpFault::UnsupportedContentEncoding)
    } else {
        Ok(head)
    }
}

/// Take one more header into the head.
fn apply_header(head: HttpResponseHead, name: &str, value: &str) -> (outcome: Result<
    HttpResponseHead,
    HttpFault,
>)
    ensures
        match outcome {
            Ok(next) => head_with(head@, name@, value@) == Ok::<HeadModel, HttpFault>(next@),
            Err(fault) => head_with(head@, name@, value@) == Err::<HeadModel, HttpFault>(fault),
        },
{
    let mut head = head;
    if str_eq(name, "content-length") {
        if head.content_length.is_some() {
            return Err(HttpFault::DuplicateContentLength);
        }
        match parse_http_content_length(value) {
            Ok(length) => {
                head.content_length = Some(length);
            },
            Err(fault) => return Err(fault),
        }
    } else if str_eq(name, "transfer-encoding") {
        if head.transfer_encoding_chunked {
            return Err(HttpFault::DuplicateTransferEncoding);
        }
        if contains_char(value, ',') || !str_eq(to_lower(trim(value).as_str()).as_str(), "chunked") {
            return Err(HttpFault::UnsupportedTransferEncoding);
        }
        head.transfer_encoding_chunked = true;
    } else if str_eq(name, "content-type") {
        if head.content_type.is_some() {
            return Err(HttpFault::DuplicateContentType);
        }
        match parse_http_media_type(value) {
            Ok(media_type) => {
                head.content_type = Some(media_type);
            },
            Err(fault) => return Err(fault),
        }
    } else if str_eq(name, "mcp-session-id") {
        if head.session_id.is_some() {
            return Err(HttpFault::DuplicateSessionId);
        }
        match parse_mcp_session_id(value) {
            Ok(id) => {
                head.session_id = Some(id);
            },
            Err(fault) => return Err(fault),
        }
    } else if str_eq(name, "connection") {
        if has_list_token(value, ',', "close") {
            head.connection_close = true;
        }
        if has_list_token(value, ',', "keep-alive") {
            head.connection_keep_alive = true;
        }
        if head.connection_close && head.connection_keep_alive {
            return Err(HttpFault::ConflictingConnection);
        }
    } else if str_eq(name, "content-encoding") && !str_eq(
        to_lower(trim(value).as_str()).as_str(),
        "identity",
    ) {
        return Err(HttpFault::UnsupportedContentEncoding);
    }
    Ok(head)
}

/// The head whose header lines go on at `at`, and the position after it.
pub open spec fn headers_from(b: Seq<u8>, at: int, consumed: int, ended: bool, head: HeadModel) -> Progress<
    (HeadModel, int),
>
    decreases b.len() - at,
{
    match line_at(b, at, consumed, ended) {
        Progress::Wait => Progress::Wait,
        Progress::Fail(fault) => Progress::Fail(fault),
        Progress::Ready(line) => if line.end == at {
            Progress::Ready((head, line.next))
        } else {
            match header_line(b.subrange(at, line.end)) {
                Err(fault) => Progress::Fail(fault),
                Ok((name, value)) => match head_with(head, name, value) {
                    Err(fault) => Progress::Fail(fault),
                    // A line ends behind its start: see `lemma_line_advances`.
                    Ok(next) => if at < line.next <= b.len() {
                        headers_from(b, line.next, line.consumed, ended, next)
                    } else {
                        Progress::Wait
                    },
                },
            }
        },
    }
}

/// The response head that starts at `at`, and the position after it.
pub open spec fn head_at(b: Seq<u8>, at: int, ended: bool) -> Progress<(HeadModel, int)> {
    match line_at(b, at, 0, ended) {
        Progress::Wait => Progress::Wait,
        Progress::Fail(fault) => Progress::Fail(fault),
        Progress::Ready(line) => match status_line(b.subrange(at, line.end)) {
            Err(fault) => Progress::Fail(fault),
            Ok((status_code, http_11)) => headers_from(
                b,
                line.next,
                line.consumed,
                ended,
                fresh_head(status_code, http_11),
            ),
        },
    }
}

/// A line that was read ends behind its start and within the bytes.
pub proof fn lemma_line_advances(b: Seq<u8>, at: int, consumed: int, ended: bool)
    requires
        0 <= at <= b.len(),
    ensures
        line_at(b, at, consumed, ended) matches Progress::Ready(line) ==> at <= line.end
            && line.next == line.end + 2 && line.next <= b.len() && line.consumed == consumed
            + line.next - at,
{
    lemma_byte_position(b, 10, at);
}

/// A header block ends behind its start and within the bytes.
pub proof fn lemma_headers_advance(b: Seq<u8>, at: int, consumed: int, ended: bool, head: HeadModel)
    requires
        0 <= at <= b.len(),
    ensures
        headers_from(b, at, consumed, ended, head) matches Progress::Ready((_, next)) ==> at < next
            <= b.len(),
    decreases b.len() - at,
{
    lemma_line_advances(b, at, consumed, ended);
    if line_at(b, at, consumed, ended) is Ready {
        let line = line_at(b, at, consumed, ended)->Ready_0;
        if line.end != at && header_line(b.subrange(at, line.end)) is Ok {
            let (name, value) = header_line(b.subrange(at, line.end))->Ok_0;
            if head_with(head, name, value) is Ok {
                lemma_headers_advance(
                    b,
                    line.next,
                    line.consumed,
                    ended,
                    head_with(head, name, value)->Ok_0,
                );
            }
        }
    }
}

/// Read the response head that starts at `at`.
pub fn read_http_response_head(b: &[u8], at: usize, ended: bool) -> (outcome: Progress<
    (HttpResponseHead, usize),
>)
    requires
        at <= b@.len(),
    ensures
        match outcome {
            Progress::Ready((head, next)) => head_at(b@, at as int, ended) == Progress::Ready(
                (head@, next as int),
            ) && at < next <= b@.len(),
            Progress::Wait => head_at(b@, at as int, ended) == Progress::<(HeadModel, int)>::Wait,
            Progress::Fail(fault) => head_at(b@, at as int, ended) == Progress::<
                (HeadModel, int),
            >::Fail(fault),
        },
{
    let first = match read_http_line(b, at, 0, ended) {
        Progress::Ready(line) => line,
        Progress::Wait => return Progress::Wait,
        Progress::Fail(fault) => return Progress::Fail(fault),
    };
    let status = match parse_http_status_line(vstd::slice::slice_subrange(b, at, first.end)) {
        Ok(status) => status,
        Err(fault) => return Progress::Fail(fault),
    };
    let mut head = HttpResponseHead {
        status_code: status.0,
        http_11: status.1,
        content_length: None,
        transfer_encoding_chunked: false,
        content_type: None,
        connection_close: false,
        connection_keep_alive: false,
        session_id: None,
    };
    let mut i: usize = first.next;
    let mut consumed: usize = first.consumed;
    loop
        invariant
            at < i <= b@.len(),
            consumed <= HTTP_HEADER_LIMIT_BYTES,
            head_at(b@, at as int, ended) == headers_from(
                b@,
                i as int,
                consumed as int,
                ended,
                head@,
            ),
        decreases b@.len() - i,
    {
        let line = match read_http_line(b, i, consumed, ended) {
            Progress::Ready(line) => line,
            Progress::Wait => return Progress::Wait,
            Progress::Fail(fault) => return Progress::Fail(fault),
        };
        if line.end == i {
            return Progress::Ready((head, line.next));
        }
        let header = match parse_http_header_line(vstd::slice::slice_subrange(b, i, line.end)) {
            Ok(header) => header,
            Err(fault) => return Progress::Fail(fault),
        };
        head = match apply_header(head, header.0.as_str(), header.1.as_str()) {
            Ok(next) => next,
            Err(fault) => return Progress::Fail(fault),
        };
        i = line.next;
        consumed = line.consumed;
    }
}

// ---------------------------------------------------------------------------
// Framing
// ---------------------------------------------------------------------------

/// How the body of a response is delimited.
#[derive(Debug, Clone, Copy, PartialEq, Eq, Structural)]
pub enum HttpBodyFraming {
    /// The status forbids a body.
    Bodyless,
    /// So many bytes follow.
    ContentLength(usize),
    /// Chunks follow.
    Chunked,
    /// The end of the connection ends the body.
    CloseDelimited,
}

pub open spec fn is_informational(status_code: int) -> bool {
    100 <= status_code < 200
}

/// The framing that a head selects.
pub open spec fn framing_of(head: HeadModel, allow_bodyless_accepted: bool) -> Result<
    HttpBodyFraming,
    HttpFault,
> {
    let status = head.status_code;
    let declared = match head.content_length {
        Some(length) => length,
        None => 0,
    };
    if is_informational(status) || status == 204 || status == 205 || status == 304 {
        if head.chunked || (status != 304 && declared > 0) {
            Err(HttpFault::BodyForbidden)
        } else {
            Ok(HttpBodyFraming::Bodyless)
        }
    } else if allow_bodyless_accepted && status == 202 && head.content_length is None
        && !head.chunked {
        Ok(HttpBodyFraming::Bodyless)
    } else if head.chunked {
        if head.content_length is Some {
            Err(HttpFault::ContentLengthConflict)
        } else {
            Ok(HttpBodyFraming::Chunked)
        }
    } else if head.content_length is Some {
        Ok(HttpBodyFraming::ContentLength(declared as usize))
    } else if head.close || (!head.http_11 && !head.keep_alive) {
        Ok(HttpBodyFraming::CloseDelimited)
    } else {
        Err(HttpFault::FramingMissing)
    }
}

/// The framing that a head selects.
pub fn select_http_body_framing(head: &HttpResponseHead, allow_bodyless_accepted: bool) -> (framing:
    Result<HttpBodyFraming, HttpFault>)
    ensures
        framing == framing_of(head@, allow_bodyless_accepted),
{
    let status: u16 = head.status_code;
    if (100 <= status && status < 200) || status == 204 || status == 205 || status == 304 {
        let declared: usize = match head.content_length {
            Some(length) => length,
            None => 0,
        };
        if head.transfer_encoding_chunked || (status != 304 && declared > 0) {
            return Err(HttpFault::BodyForbidden);
        }
        return Ok(HttpBodyFraming::Bodyless);
    }
    if allow_bodyless_accepted && status == 202 && head.content_length.is_none()
        && !head.transfer_encoding_chunked {
        return Ok(HttpBodyFraming::Bodyless);
    }
    if head.transfer_encoding_chunked {
        if head.content_length.is_some() {
            return Err(HttpFault::ContentLengthConflict);
        }
        return Ok(HttpBodyFraming::Chunked);
    }
    match head.content_length {
        Some(length) => return Ok(HttpBodyFraming::ContentLength(length)),
        None => {},
    }
    if head.connection_close || (!head.http_11 && !head.connection_keep_alive) {
        return Ok(HttpBodyFraming::CloseDelimited);
    }
    Err(HttpFault::FramingMissing)
}

/// The final head from `at` on, past the informational ones, with its framing
/// and the position after it. `skipped` informational heads came before.
pub open spec fn final_head(b: Seq<u8>, at: int, ended: bool, skipped: int, allow: bool) -> Progress<
    (HeadModel, HttpBodyFraming, int),
>
    decreases b.len() - at,
{
    match head_at(b, at, ended) {
        Progress::Wait => Progress::Wait,
        Progress::Fail(fault) => Progress::Fail(fault),
        Progress::Ready((head, next)) => if is_informational(head.status_code) && head.status_code
            != 101 {
            match framing_of(head, false) {
                Err(fault) => Progress::Fail(fault),
                Ok(framing) => if framing != HttpBodyFraming::Bodyless {
                    Progress::Fail(HttpFault::InformationalBody)
                } else if skipped + 1 > MAX_INFORMATIONAL_RESPONSES {
                    Progress::Fail(HttpFault::TooManyInformational)
                } else if at < next <= b.len() {
                    final_head(b, next, ended, skipped + 1, allow)
                } else {
                    Progress::Wait
                },
            }
        } else {
            match framing_of(head, allow) {
                Err(fault) => Progress::Fail(fault),
                Ok(framing) => Progress::Ready((head, framing, next)),
            }
        },
    }
}

/// Read the final head, past the informational ones.
pub fn read_final_http_response_head(b: &[u8], ended: bool, allow_bodyless_accepted: bool) -> (outcome:
    Progress<(HttpResponseHead, HttpBodyFraming, usize)>)
    ensures
        match outcome {
            Progress::Ready((head, framing, next)) => final_head(
                b@,
                0,
                ended,
                0,
                allow_bodyless_accepted,
            ) == Progress::Ready((head@, framing, next as int)) && next <= b@.len(),
            Progress::Wait => final_head(b@, 0, ended, 0, allow_bodyless_accepted) == Progress::<
                (HeadModel, HttpBodyFraming, int),
            >::Wait,
            Progress::Fail(fault) => final_head(b@, 0, ended, 0, allow_bodyless_accepted)
                == Progress::<(HeadModel, HttpBodyFraming, int)>::Fail(fault),
        },
{
    let mut at: usize = 0;
    let mut skipped: u8 = 0;
    loop
        invariant
            at <= b@.len(),
            skipped <= MAX_INFORMATIONAL_RESPONSES,
            final_head(b@, 0, ended, 0, allow_bodyless_accepted) == final_head(
                b@,
                at as int,
                ended,
                skipped as int,
                allow_bodyless_accepted,
            ),
        decreases b@.len() - at,
    {
        let (head, next) = match read_http_response_head(b, at, ended) {
            Progress::Ready(ready) => ready,
            Progress::Wait => return Progress::Wait,
            Progress::Fail(fault) => return Progress::Fail(fault),
        };
        if 100 <= head.status_code && head.status_code < 200 && head.status_code != 101 {
            match select_http_body_framing(&head, false) {
                Ok(framing) => {
                    if framing != HttpBodyFraming::Bodyless {
                        return Progress::Fail(HttpFault::InformationalBody);
                    }
                },
                Err(fault) => return Progress::Fail(fault),
            }
            if skipped >= MAX_INFORMATIONAL_RESPONSES {
                return Progress::Fail(HttpFault::TooManyInformational);
            }
            skipped += 1;
            at = next;
        } else {
            return match select_http_body_framing(&head, allow_bodyless_accepted) {
                Ok(framing) => Progress::Ready((head, framing, next)),
                Err(fault) => Progress::Fail(fault),
            };
        }
    }
}

// ---------------------------------------------------------------------------
// Chunks
// ---------------------------------------------------------------------------

pub open spec fn is_hex_byte(byte: u8) -> bool {
    0x30 <= byte <= 0x39 || 0x41 <= byte <= 0x46 || 0x61 <= byte <= 0x66
}

pub open spec fn hex_byte_value(byte: u8) -> int {
    if byte <= 0x39 {
        byte - 0x30
    } else if byte <= 0x46 {
        byte - 0x41 + 10
    } else {
        byte - 0x61 + 10
    }
}

/// The number that hexadecimal digits denote.
pub open spec fn hex_value(b: Seq<u8>) -> int
    decreases b.len(),
{
    if b.len() == 0 {
        0
    } else {
        16 * hex_value(b.drop_last()) + hex_byte_value(b.last())
    }
}

pub open spec fn all_hex_bytes(b: Seq<u8>) -> bool {
    forall|i: int| 0 <= i < b.len() ==> is_hex_byte(#[trigger] b[i])
}

pub open spec fn has_control_byte(b: Seq<u8>) -> bool {
    exists|i: int| 0 <= i < b.len() && (#[trigger] b[i] < 0x20 || b[i] == 0x7f)
}

/// The size that a chunk line declares; extensions are skipped.
pub open spec fn chunk_size(line: Seq<u8>) -> Result<int, HttpFault> {
    let digits = line.take(byte_position(line, 0x3b, 0));
    if has_control_byte(line) {
        Err(HttpFault::InvalidChunkExtension)
    } else if !valid_utf8(digits) {
        Err(HttpFault::ChunkSizeText)
    } else if digits.len() == 0 || !all_hex_bytes(digits) {
        Err(HttpFault::InvalidChunkSize)
    } else if hex_value(digits) > usize::MAX {
        Err(HttpFault::ChunkSizeOverflow)
    } else {
        Ok(hex_value(digits))
    }
}

proof fn lemma_hex_value_grows(b: Seq<u8>, k: int)
    requires
        all_hex_bytes(b),
        0 <= k <= b.len(),
    ensures
        0 <= hex_value(b.take(k)) <= hex_value(b),
    decreases b.len() - k, k,
{
    if k < b.len() {
        let next = b.take(k + 1);
        assert(next.drop_last() =~= b.take(k));
        assert(is_hex_byte(b[k]));
        lemma_hex_value_grows(b, k + 1);
        lemma_hex_value_nonnegative(b, k);
    } else {
        assert(b.take(k) =~= b);
        lemma_hex_value_nonnegative(b, k);
    }
}

proof fn lemma_hex_value_nonnegative(b: Seq<u8>, k: int)
    requires
        all_hex_bytes(b),
        0 <= k <= b.len(),
    ensures
        0 <= hex_value(b.take(k)),
    decreases k,
{
    if k > 0 {
        assert(b.take(k).drop_last() =~= b.take(k - 1));
        assert(is_hex_byte(b[k - 1]));
        lemma_hex_value_nonnegative(b, k - 1);
    }
}

/// The size that a chunk line declares.
pub fn parse_http_chunk_size(line: &[u8]) -> (size: Result<usize, HttpFault>)
    ensures
        match size {
            Ok(n) => chunk_size(line@) == Ok::<int, HttpFault>(n as int),
            Err(fault) => chunk_size(line@) == Err::<int, HttpFault>(fault),
        },
{
    let mut i: usize = 0;
    while i < line.len()
        invariant
            i <= line@.len(),
            forall|k: int| 0 <= k < i ==> !(#[trigger] line@[k] < 0x20 || line@[k] == 0x7f),
        decreases line@.len() - i,
    {
        if line[i] < 0x20 || line[i] == 0x7f {
            assert(line@[i as int] < 0x20 || line@[i as int] == 0x7f);
            return Err(HttpFault::InvalidChunkExtension);
        }
        i += 1;
    }
    let end: usize = find_byte(line, 0x3b, 0);
    let digits = bytes_of(line, 0, end);
    let ghost d = line@.take(byte_position(line@, 0x3b, 0));
    assert(digits@ =~= d);
    match string_from_utf8(bytes_of(line, 0, end)) {
        Ok(_) => {},
        Err(_) => return Err(HttpFault::ChunkSizeText),
    }
    if digits.len() == 0 {
        return Err(HttpFault::InvalidChunkSize);
    }
    let mut j: usize = 0;
    while j < digits.len()
        invariant
            j <= digits@.len(),
            digits@ == d,
            d == line@.take(byte_position(line@, 0x3b, 0)),
            valid_utf8(d),
            !has_control_byte(line@),
            forall|k: int| 0 <= k < j ==> is_hex_byte(#[trigger] digits@[k]),
        decreases digits@.len() - j,
    {
        let c: u8 = digits[j];
        if !((0x30 <= c && c <= 0x39) || (0x41 <= c && c <= 0x46) || (0x61 <= c && c <= 0x66)) {
            assert(!is_hex_byte(d[j as int]));
            return Err(HttpFault::InvalidChunkSize);
        }
        j += 1;
    }
    let mut acc: usize = 0;
    let mut k: usize = 0;
    while k < digits.len()
        invariant
            k <= digits@.len(),
            digits@ == d,
            d == line@.take(byte_position(line@, 0x3b, 0)),
            digits@.len() > 0,
            valid_utf8(d),
            !has_control_byte(line@),
            all_hex_bytes(digits@),
            acc == hex_value(digits@.take(k as int)),
        decreases digits@.len() - k,
    {
        let c: u8 = digits[k];
        assert(is_hex_byte(digits@[k as int]));
        let value: usize = if c <= 0x39 {
            (c - 0x30) as usize
        } else if c <= 0x46 {
            (c - 0x41 + 10) as usize
        } else {
            (c - 0x61 + 10) as usize
        };
        proof {
            let next = digits@.take(k + 1);
            assert(next.drop_last() =~= digits@.take(k as int));
            assert(hex_value(next) == 16 * acc + value);
            lemma_hex_value_grows(digits@, k + 1);
        }
        if acc > usize::MAX / 16 || acc * 16 > usize::MAX - value {
            return Err(HttpFault::ChunkSizeOverflow);
        }
        acc = acc * 16 + value;
        k += 1;
    }
    assert(digits@.take(k as int) =~= d);
    Ok(acc)
}

/// The fields that may not stand in a trailer.
pub open spec fn is_forbidden_trailer(name: Seq<char>) -> bool {
    ||| name == "host"@
    ||| name == "content-length"@
    ||| name == "transfer-encoding"@
    ||| name == "content-type"@
    ||| name == "content-encoding"@
    ||| name == "connection"@
    ||| name == "trailer"@
    ||| name == "te"@
    ||| name == "upgrade"@
    ||| name == "proxy-authenticate"@
    ||| name == "proxy-authorization"@
}

/// Why a trailer line is refused, if it is.
pub open spec fn trailer_fault(line: Seq<u8>) -> Option<HttpFault> {
    match header_line(line) {
        Err(fault) => Some(fault),
        Ok((name, _)) => if is_forbidden_trailer(name) {
            Some(HttpFault::ForbiddenTrailer)
        } else {
            None
        },
    }
}

/// Refuse a trailer line that is malformed or forbidden.
pub fn validate_http_trailer(line: &[u8]) -> (outcome: Result<(), HttpFault>)
    ensures
        match outcome {
            Ok(()) => trailer_fault(line@) is None,
            Err(fault) => trailer_fault(line@) == Some(fault),
        },
{
    let header = match parse_http_header_line(line) {
        Ok(header) => header,
        Err(fault) => return Err(fault),
    };
    let name = header.0.as_str();
    if str_eq(name, "host") || str_eq(name, "content-length") || str_eq(name, "transfer-encoding")
        || str_eq(name, "content-type") || str_eq(name, "content-encoding") || str_eq(
        name,
        "connection",
    ) || str_eq(name, "trailer") || str_eq(name, "te") || str_eq(name, "upgrade") || str_eq(
        name,
        "proxy-authenticate",
    ) || str_eq(name, "proxy-authorization") {
        return Err(HttpFault::ForbiddenTrailer);
    }
    Ok(())
}

// ---------------------------------------------------------------------------
// Bodies
// ---------------------------------------------------------------------------

/// The trailers from `at` on: the position after the empty line that ends them.
pub open spec fn trailers_from(b: Seq<u8>, at: int, consumed: int, ended: bool) -> Progress<int>
    decreases b.len() - at,
{
    match line_at(b, at, consumed, ended) {
        Progress::Wait => Progress::Wait,
        Progress::Fail(fault) => Progress::Fail(fault),
        Progress::Ready(line) => if line.end == at {
            Progress::Ready(line.next)
        } else {
            match trailer_fault(b.subrange(at, line.end)) {
                Some(fault) => Progress::Fail(fault),
                None => if at < line.next <= b.len() {
                    trailers_from(b, line.next, line.consumed, ended)
                } else {
                    Progress::Wait
                },
            }
        },
    }
}

/// The body that the chunks from `at` on complete, whether it was cut at the
/// limit, and the position behind it. `body` was decoded before.
pub open spec fn chunks_from(b: Seq<u8>, at: int, consumed: int, ended: bool, limit: int, body: Seq<u8>) -> Progress<
    (Seq<u8>, bool, int),
>
    decreases b.len() - at,
{
    match line_at(b, at, consumed, ended) {
        Progress::Wait => Progress::Wait,
        Progress::Fail(fault) => Progress::Fail(fault),
        Progress::Ready(line) => match chunk_size(b.subrange(at, line.end)) {
            Err(fault) => Progress::Fail(fault),
            Ok(size) => if size == 0 {
                match trailers_from(b, line.next, line.consumed, ended) {
                    Progress::Wait => Progress::Wait,
                    Progress::Fail(fault) => Progress::Fail(fault),
                    Progress::Ready(next) => Progress::Ready((body, false, next)),
                }
            } else if body.len() + size > limit {
                Progress::Ready((body, true, line.next))
            } else if line.next + size + 2 > b.len() {
                if ended {
                    Progress::Fail(HttpFault::BodyIncomplete)
                } else {
                    Progress::Wait
                }
            } else if b[line.next + size] != 13 || b[line.next + size + 1] != 10 {
                Progress::Fail(HttpFault::ChunkEnd)
            } else if at < line.next && 0 < size {
                chunks_from(
                    b,
                    line.next + size + 2,
                    line.consumed,
                    ended,
                    limit,
                    body + b.subrange(line.next, line.next + size),
                )
            } else {
                Progress::Wait
            },
        },
    }
}

/// The body that starts at `at`, whether it was cut at the limit, and the
/// position behind it.
pub open spec fn body_at(b: Seq<u8>, at: int, ended: bool, framing: HttpBodyFraming, limit: int) -> Progress<
    (Seq<u8>, bool, int),
> {
    match framing {
        HttpBodyFraming::Bodyless => Progress::Ready((Seq::empty(), false, at)),
        HttpBodyFraming::ContentLength(length) => if length > limit {
            Progress::Ready((Seq::empty(), true, at))
        } else if at + length <= b.len() {
            Progress::Ready((b.subrange(at, at + length), false, at + length))
        } else if ended {
            Progress::Fail(HttpFault::BodyIncomplete)
        } else {
            Progress::Wait
        },
        HttpBodyFraming::Chunked => chunks_from(b, at, 0, ended, limit, Seq::empty()),
        HttpBodyFraming::CloseDelimited => if b.len() - at > limit {
            Progress::Ready((b.subrange(at, at + limit), true, at + limit))
        } else if ended {
            Progress::Ready((b.skip(at), false, b.len() as int))
        } else {
            Progress::Wait
        },
    }
}

/// Whether the read trailers are the ones that were specified.
fn read_http_trailers(b: &[u8], at: usize, consumed: usize, ended: bool) -> (outcome: Progress<
    usize,
>)
    requires
        at <= b@.len(),
        consumed <= HTTP_HEADER_LIMIT_BYTES,
    ensures
        match outcome {
            Progress::Ready(next) => trailers_from(b@, at as int, consumed as int, ended)
                == Progress::Ready(next as int) && next <= b@.len(),
            Progress::Wait => trailers_from(b@, at as int, consumed as int, ended) == Progress::<
                int,
            >::Wait,
            Progress::Fail(fault) => trailers_from(b@, at as int, consumed as int, ended)
                == Progress::<int>::Fail(fault),
        },
{
    let mut i: usize = at;
    let mut used: usize = consumed;
    loop
        invariant
            at <= i <= b@.len(),
            used <= HTTP_HEADER_LIMIT_BYTES,
            trailers_from(b@, at as int, consumed as int, ended) == trailers_from(
                b@,
                i as int,
                used as int,
                ended,
            ),
        decreases b@.len() - i,
    {
        let line = match read_http_line(b, i, used, ended) {
            Progress::Ready(line) => line,
            Progress::Wait => return Progress::Wait,
            Progress::Fail(fault) => return Progress::Fail(fault),
        };
        if line.end == i {
            return Progress::Ready(line.next);
        }
        match validate_http_trailer(vstd::slice::slice_subrange(b, i, line.end)) {
            Ok(()) => {},
            Err(fault) => return Progress::Fail(fault),
        }
        i = line.next;
        used = line.consumed;
    }
}

/// Whether a read body is the one that was specified.
pub open spec fn same_body(
    found: Progress<(Vec<u8>, bool, usize)>,
    expected: Progress<(Seq<u8>, bool, int)>,
) -> bool {
    match found {
        Progress::Ready((body, truncated, next)) => expected == Progress::Ready(
            (body@, truncated, next as int),
        ),
        Progress::Wait => expected == Progress::<(Seq<u8>, bool, int)>::Wait,
        Progress::Fail(fault) => expected == Progress::<(Seq<u8>, bool, int)>::Fail(fault),
    }
}

/// Decode a chunked body that starts at `at`.
pub fn read_http_chunked_body(b: &[u8], at: usize, ended: bool, limit: usize) -> (outcome: Progress<
    (Vec<u8>, bool, usize),
>)
    requires
        at <= b@.len(),
    ensures
        same_body(outcome, chunks_from(b@, at as int, 0, ended, limit as int, Seq::empty())),
{
    let mut i: usize = at;
    let mut used: usize = 0;
    let mut body: Vec<u8> = Vec::new();
    loop
        invariant
            at <= i <= b@.len(),
            used <= HTTP_HEADER_LIMIT_BYTES,
            body@.len() <= limit,
            chunks_from(b@, at as int, 0, ended, limit as int, Seq::empty()) == chunks_from(
                b@,
                i as int,
                used as int,
                ended,
                limit as int,
                body@,
            ),
        decreases b@.len() - i,
    {
        let line = match read_http_line(b, i, used, ended) {
            Progress::Ready(line) => line,
            Progress::Wait => return Progress::Wait,
            Progress::Fail(fault) => return Progress::Fail(fault),
        };
        let size = match parse_http_chunk_size(vstd::slice::slice_subrange(b, i, line.end)) {
            Ok(size) => size,
            Err(fault) => return Progress::Fail(fault),
        };
        if size == 0 {
            return match read_http_trailers(b, line.next, line.consumed, ended) {
                Progress::Ready(next) => Progress::Ready((body, false, next)),
                Progress::Wait => Progress::Wait,
                Progress::Fail(fault) => Progress::Fail(fault),
            };
        }
        if size > limit - body.len() {
            return Progress::Ready((body, true, line.next));
        }
        let available: usize = b.len() - line.next;
        if size > available || available - size < 2 {
            return if ended {
                Progress::Fail(HttpFault::BodyIncomplete)
            } else {
                Progress::Wait
            };
        }
        let close: usize = line.next + size;
        if b[close] != 13 || b[close + 1] != 10 {
            return Progress::Fail(HttpFault::ChunkEnd);
        }
        let ghost before = body@;
        let mut chunk = bytes_of(b, line.next, close);
        body.append(&mut chunk);
        assert(body@ =~= before + b@.subrange(line.next as int, close as int));
        i = close + 2;
        used = line.consumed;
    }
}

/// Read the body that starts at `at`.
pub fn read_http_body(b: &[u8], at: usize, ended: bool, framing: HttpBodyFraming, limit: usize) -> (outcome:
    Progress<(Vec<u8>, bool, usize)>)
    requires
        at <= b@.len(),
    ensures
        same_body(outcome, body_at(b@, at as int, ended, framing, limit as int)),
{
    match framing {
        HttpBodyFraming::Bodyless => Progress::Ready((Vec::new(), false, at)),
        HttpBodyFraming::ContentLength(length) => {
            if length > limit {
                return Progress::Ready((Vec::new(), true, at));
            }
            if length <= b.len() - at {
                return Progress::Ready((bytes_of(b, at, at + length), false, at + length));
            }
            if ended {
                Progress::Fail(HttpFault::BodyIncomplete)
            } else {
                Progress::Wait
            }
        },
        HttpBodyFraming::Chunked => read_http_chunked_body(b, at, ended, limit),
        HttpBodyFraming::CloseDelimited => {
            if b.len() - at > limit {
                return Progress::Ready((bytes_of(b, at, at + limit), true, at + limit));
            }
            if ended {
                let body = bytes_of(b, at, b.len());
                assert(body@ =~= b@.skip(at as int));
                Progress::Ready((body, false, b.len()))
            } else {
                Progress::Wait
            }
        },
    }
}

// ---------------------------------------------------------------------------
// Whole responses
// ---------------------------------------------------------------------------

/// What a response says.
pub struct ResponseModel {
    pub status_code: int,
    pub content_type: Option<Seq<char>>,
    pub body: Seq<u8>,
    pub body_truncated: bool,
    pub session_id: Option<Seq<char>>,
}

/// A response with its body.
#[derive(Clone, PartialEq, Eq)]
pub struct HttpJsonRpcResponse {
    pub status_code: u16,
    pub content_type: Option<String>,
    pub body: Vec<u8>,
    pub body_truncated: bool,
    pub session_id: Option<String>,
}

impl View for HttpJsonRpcResponse {
    type V = ResponseModel;

    open spec fn view(&self) -> ResponseModel {
        ResponseModel {
            status_code: self.status_code as int,
            content_type: crate::error::option_text(self.content_type),
            body: self.body@,
            body_truncated: self.body_truncated,
            session_id: crate::error::option_text(self.session_id),
        }
    }
}

/// The response that the bytes hold.
pub open spec fn response_of(b: Seq<u8>, ended: bool, limit: int, allow: bool) -> Progress<
    ResponseModel,
> {
    if limit == 0 {
        Progress::Fail(HttpFault::NoOutput)
    } else {
        match final_head(b, 0, ended, 0, allow) {
            Progress::Wait => Progress::Wait,
            Progress::Fail(fault) => Progress::Fail(fault),
            Progress::Ready((head, framing, next)) => match body_at(
                b,
                next,
                ended,
                framing,
                limit,
            ) {
                Progress::Wait => Progress::Wait,
                Progress::Fail(fault) => Progress::Fail(fault),
                Progress::Ready((body, truncated, _)) => Progress::Ready(
                    (ResponseModel {
                        status_code: head.status_code,
                        content_type: head.content_type,
                        body,
                        body_truncated: truncated,
                        session_id: head.session_id,
                    }),
                ),
            },
        }
    }
}

/// Read a response from the bytes that have arrived. `ended` tells that no more
/// will come. A status of 202 without framing counts as bodyless where allowed. A
/// limit of zero is refused before anything is read.
pub fn read_http_json_rpc_response(
    b: &[u8],
    ended: bool,
    output_limit_bytes: usize,
    allow_bodyless_accepted: bool,
) -> (outcome: Progress<HttpJsonRpcResponse>)
    ensures
        match outcome {
            Progress::Ready(response) => response_of(
                b@,
                ended,
                output_limit_bytes as int,
                allow_bodyless_accepted,
            ) == Progress::Ready(response@),
            Progress::Wait => response_of(
                b@,
                ended,
                output_limit_bytes as int,
                allow_bodyless_accepted,
            ) == Progress::<ResponseModel>::Wait,
            Progress::Fail(fault) => response_of(
                b@,
                ended,
                output_limit_bytes as int,
                allow_bodyless_accepted,
            ) == Progress::<ResponseModel>::Fail(fault),
        },
{
    if output_limit_bytes == 0 {
        return Progress::Fail(HttpFault::NoOutput);
    }
    let (head, framing, next) = match read_final_http_response_head(
        b,
        ended,
        allow_bodyless_accepted,
    ) {
        Progress::Ready(ready) => ready,
        Progress::Wait => return Progress::Wait,
        Progress::Fail(fault) => return Progress::Fail(fault),
    };
    match read_http_body(b, next, ended, framing, output_limit_bytes) {
        Progress::Ready((body, body_truncated, _)) => Progress::Ready(
            HttpJsonRpcResponse {
                status_code: head.status_code,
                content_type: head.content_type,
                body,
                body_truncated,
                session_id: head.session_id,
            },
        ),
        Progress::Wait => Progress::Wait,
        Progress::Fail(fault) => Progress::Fail(fault),
    }
}

// ---------------------------------------------------------------------------
// What is decided stays decided
// ---------------------------------------------------------------------------

pub proof fn lemma_byte_position_stays(b: Seq<u8>, more: Seq<u8>, byte: u8, at: int)
    requires
        0 <= at <= b.len(),
    ensures
        byte_position(b, byte, at) < b.len() ==> byte_position(b + more, byte, at)
            == byte_position(b, byte, at),
        byte_position(b, byte, at) == b.len() ==> byte_position(b + more, byte, at) >= b.len(),
    decreases b.len() - at,
{
    if at < b.len() {
        assert((b + more)[at] == b[at]);
        if b[at] != byte {
            lemma_byte_position_stays(b, more, byte, at + 1);
        }
    } else {
        lemma_byte_position(b + more, byte, at);
    }
}

proof fn lemma_line_stays(b: Seq<u8>, more: Seq<u8>, at: int, consumed: int, ended: bool)
    requires
        0 <= at <= b.len(),
        line_at(b, at, consumed, false) !is Wait,
    ensures
        line_at(b + more, at, consumed, ended) == line_at(b, at, consumed, false),
{
    lemma_byte_position(b, 10, at);
    lemma_byte_position(b + more, 10, at);
    lemma_byte_position_stays(b, more, 10, at);
    let feed = byte_position(b, 10, at);
    if feed < b.len() && feed > at {
        assert((b + more)[feed - 1] == b[feed - 1]);
    }
}

proof fn lemma_headers_stay(b: Seq<u8>, more: Seq<u8>, at: int, consumed: int, ended: bool, head: HeadModel)
    requires
        0 <= at <= b.len(),
        headers_from(b, at, consumed, false, head) !is Wait,
    ensures
        headers_from(b + more, at, consumed, ended, head) == headers_from(
            b,
            at,
            consumed,
            false,
            head,
        ),
    decreases b.len() - at,
{
    lemma_line_stays(b, more, at, consumed, ended);
    lemma_line_advances(b, at, consumed, false);
    if line_at(b, at, consumed, false) is Ready {
        let line = line_at(b, at, consumed, false)->Ready_0;
        assert((b + more).subrange(at, line.end) =~= b.subrange(at, line.end));
        if line.end != at && header_line(b.subrange(at, line.end)) is Ok {
            let (name, value) = header_line(b.subrange(at, line.end))->Ok_0;
            if head_with(head, name, value) is Ok {
                lemma_headers_stay(
                    b,
                    more,
                    line.next,
                    line.consumed,
                    ended,
                    head_with(head, name, value)->Ok_0,
                );
            }
        }
    }
}

proof fn lemma_head_stays(b: Seq<u8>, more: Seq<u8>, at: int, ended: bool)
    requires
        0 <= at <= b.len(),
        head_at(b, at, false) !is Wait,
    ensures
        head_at(b + more, at, ended) == head_at(b, at, false),
{
    lemma_line_stays(b, more, at, 0, ended);
    lemma_line_advances(b, at, 0, false);
    if line_at(b, at, 0, false) is Ready {
        let line = line_at(b, at, 0, false)->Ready_0;
        assert((b + more).subrange(at, line.end) =~= b.subrange(at, line.end));
        if status_line(b.subrange(at, line.end)) is Ok {
            let (status_code, http_11) = status_line(b.subrange(at, line.end))->Ok_0;
            lemma_headers_stay(
                b,
                more,
                line.next,
                line.consumed,
                ended,
                fresh_head(status_code, http_11),
            );
        }
    }
}

proof fn lemma_head_advances(b: Seq<u8>, at: int, ended: bool)
    requires
        0 <= at <= b.len(),
    ensures
        head_at(b, at, ended) matches Progress::Ready((_, next)) ==> at < next <= b.len(),
{
    lemma_line_advances(b, at, 0, ended);
    if line_at(b, at, 0, ended) is Ready {
        let line = line_at(b, at, 0, ended)->Ready_0;
        if status_line(b.subrange(at, line.end)) is Ok {
            let (status_code, http_11) = status_line(b.subrange(at, line.end))->Ok_0;
            lemma_headers_advance(
                b,
                line.next,
                line.consumed,
                ended,
                fresh_head(status_code, http_11),
            );
        }
    }
}

proof fn lemma_final_head_stays(b: Seq<u8>, more: Seq<u8>, at: int, ended: bool, skipped: int, allow: bool)
    requires
        0 <= at <= b.len(),
        final_head(b, at, false, skipped, allow) !is Wait,
    ensures
        final_head(b + more, at, ended, skipped, allow) == final_head(
            b,
            at,
            false,
            skipped,
            allow,
        ),
        final_head(b, at, false, skipped, allow) matches Progress::Ready((_, _, next)) ==> at < next
            <= b.len(),
    decreases b.len() - at,
{
    lemma_head_stays(b, more, at, ended);
    lemma_head_advances(b, at, false);
    if head_at(b, at, false) is Ready {
        let (head, next) = head_at(b, at, false)->Ready_0;
        if is_informational(head.status_code) && head.status_code != 101 && framing_of(head, false)
            == Ok::<HttpBodyFraming, HttpFault>(HttpBodyFraming::Bodyless) && skipped + 1
            <= MAX_INFORMATIONAL_RESPONSES {
            lemma_final_head_stays(b, more, next, ended, skipped + 1, allow);
        }
    }
}

proof fn lemma_trailers_stay(b: Seq<u8>, more: Seq<u8>, at: int, consumed: int, ended: bool)
    requires
        0 <= at <= b.len(),
        trailers_from(b, at, consumed, false) !is Wait,
    ensures
        trailers_from(b + more, at, consumed, ended) == trailers_from(b, at, consumed, false),
    decreases b.len() - at,
{
    lemma_line_stays(b, more, at, consumed, ended);
    lemma_line_advances(b, at, consumed, false);
    if line_at(b, at, consumed, false) is Ready {
        let line = line_at(b, at, consumed, false)->Ready_0;
        assert((b + more).subrange(at, line.end) =~= b.subrange(at, line.end));
        if line.end != at && trailer_fault(b.subrange(at, line.end)) is None {
            lemma_trailers_stay(b, more, line.next, line.consumed, ended);
        }
    }
}

pub proof fn lemma_chunk_size_nonnegative(line: Seq<u8>)
    ensures
        chunk_size(line) matches Ok(size) ==> 0 <= size,
{
    let digits = line.take(byte_position(line, 0x3b, 0));
    if all_hex_bytes(digits) {
        lemma_hex_value_nonnegative(digits, digits.len() as int);
        assert(digits.take(digits.len() as int) =~= digits);
    }
}

proof fn lemma_chunks_stay(
    b: Seq<u8>,
    more: Seq<u8>,
    at: int,
    consumed: int,
    ended: bool,
    limit: int,
    body: Seq<u8>,
)
    requires
        0 <= at <= b.len(),
        chunks_from(b, at, consumed, false, limit, body) !is Wait,
    ensures
        chunks_from(b + more, at, consumed, ended, limit, body) == chunks_from(
            b,
            at,
            consumed,
            false,
            limit,
            body,
        ),
    decreases b.len() - at,
{
    lemma_line_stays(b, more, at, consumed, ended);
    lemma_line_advances(b, at, consumed, false);
    if line_at(b, at, consumed, false) is Ready {
        let line = line_at(b, at, consumed, false)->Ready_0;
        assert((b + more).subrange(at, line.end) =~= b.subrange(at, line.end));
        lemma_chunk_size_nonnegative(b.subrange(at, line.end));
        if chunk_size(b.subrange(at, line.end)) is Ok {
            let size = chunk_size(b.subrange(at, line.end))->Ok_0;
            if size == 0 {
                lemma_trailers_stay(b, more, line.next, line.consumed, ended);
            } else if body.len() + size <= limit && line.next + size + 2 <= b.len() && size > 0 {
                let close = line.next + size;
                assert((b + more)[close] == b[close]);
                assert((b + more)[close + 1] == b[close + 1]);
                assert((b + more).subrange(line.next, close) =~= b.subrange(line.next, close));
                if b[close] == 13 && b[close + 1] == 10 {
                    lemma_chunks_stay(
                        b,
                        more,
                        close + 2,
                        line.consumed,
                        ended,
                        limit,
                        body + b.subrange(line.next, close),
                    );
                }
            }
        }
    }
}

/// Once the bytes decide a response, neither later bytes nor the end of the
/// connection change it: a reader need not wait for either, and how the bytes
/// were cut up on the way does not matter.
pub proof fn law_decided_response_stays(b: Seq<u8>, more: Seq<u8>, ended: bool, limit: int, allow: bool)
    requires
        0 <= limit,
        response_of(b, false, limit, allow) !is Wait,
    ensures
        response_of(b + more, ended, limit, allow) == response_of(b, false, limit, allow),
{
    if limit > 0 {
        lemma_final_head_stays(b, more, 0, ended, 0, allow);
    }
    if limit > 0 && final_head(b, 0, false, 0, allow) is Ready {
        let (head, framing, next) = final_head(b, 0, false, 0, allow)->Ready_0;
        match framing {
            HttpBodyFraming::Chunked => {
                lemma_chunks_stay(b, more, next, 0, ended, limit, Seq::empty());
            },
            HttpBodyFraming::ContentLength(length) => {
                if length <= limit && next + length <= b.len() {
                    assert((b + more).subrange(next, next + length) =~= b.subrange(
                        next,
                        next + length,
                    ));
                }
            },
            HttpBodyFraming::CloseDelimited => {
                if b.len() - next > limit {
                    assert((b + more).subrange(next, next + limit) =~= b.subrange(
                        next,
                        next + limit,
                    ));
                }
            },
            HttpBodyFraming::Bodyless => {},
        }
    }
}

proof fn lemma_chunks_bounded(b: Seq<u8>, at: int, consumed: int, ended: bool, limit: int, body: Seq<u8>)
    requires
        0 <= at <= b.len(),
        body.len() <= limit,
    ensures
        chunks_from(b, at, consumed, ended, limit, body) matches Progress::Ready((all, _, _))
            ==> all.len() <= limit,
    decreases b.len() - at,
{
    lemma_line_advances(b, at, consumed, ended);
    if line_at(b, at, consumed, ended) is Ready {
        let line = line_at(b, at, consumed, ended)->Ready_0;
        if chunk_size(b.subrange(at, line.end)) is Ok {
            let size = chunk_size(b.subrange(at, line.end))->Ok_0;
            if size > 0 && body.len() + size <= limit && line.next + size + 2 <= b.len() {
                lemma_chunks_bounded(
                    b,
                    line.next + size + 2,
                    line.consumed,
                    ended,
                    limit,
                    body + b.subrange(line.next, line.next + size),
                );
            }
        }
    }
}

/// No response carries more body than the limit allows, whatever the peer sends.
pub proof fn law_body_stays_within_limit(b: Seq<u8>, ended: bool, limit: int, allow: bool)
    requires
        0 <= limit,
    ensures
        response_of(b, ended, limit, allow) matches Progress::Ready(response) ==> response.body.len()
            <= limit,
{
    if final_head(b, 0, ended, 0, allow) is Ready {
        let (head, framing, next) = final_head(b, 0, ended, 0, allow)->Ready_0;
        lemma_final_head_advances(b, 0, ended, 0, allow);
        if framing == HttpBodyFraming::Chunked {
            lemma_chunks_bounded(b, next, 0, ended, limit, Seq::empty());
        }
    }
}

proof fn lemma_final_head_advances(b: Seq<u8>, at: int, ended: bool, skipped: int, allow: bool)
    requires
        0 <= at <= b.len(),
    ensures
        final_head(b, at, ended, skipped, allow) matches Progress::Ready((_, _, next)) ==> at < next
            <= b.len(),
    decreases b.len() - at,
{
    lemma_head_advances(b, at, ended);
    if head_at(b, at, ended) is Ready {
        let (head, next) = head_at(b, at, ended)->Ready_0;
        if is_informational(head.status_code) && head.status_code != 101 && framing_of(head, false)
            == Ok::<HttpBodyFraming, HttpFault>(HttpBodyFraming::Bodyless) && skipped + 1
            <= MAX_INFORMATIONAL_RESPONSES {
            lemma_final_head_advances(b, next, ended, skipped + 1, allow);
        }
    }
}

} // verus!

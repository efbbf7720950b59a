//! What one side writes to a connection, the other side reads from it.

use vstd::prelude::*;
use vstd::utf8::*;
use crate::error::ErrorModel;
use crate::http_framing;
use crate::http_framing::{
    HeadModel, HttpBodyFraming, HttpFault, LineSpan, Progress, ResponseModel,
    HTTP_HEADER_LIMIT_BYTES,
};
use crate::http_request;
use crate::http_request::Headers;
use crate::server::ToolResultModel;
use crate::server_request::RequestModel;
use crate::server_rpc;
use crate::server_transport;
use crate::server_transport::{DispatchModel, PeerAddress, ReplyModel, ServerState};
use crate::text;

verus! {

// ---------------------------------------------------------------------------
// Lines
// ---------------------------------------------------------------------------

/// Whether a text can stand in a line: printable ASCII and tabs.
pub open spec fn is_line_text(s: Seq<char>) -> bool {
    forall|i: int| 0 <= i < s.len() ==> ' ' <= #[trigger] s[i] <= '~' || s[i] == '\t'
}

/// The bytes of a line text are its characters.
pub proof fn lemma_line_bytes(s: Seq<char>)
    requires
        is_line_text(s),
    ensures
        encode_utf8(s).len() == s.len(),
        forall|i: int|
            #![trigger s[i]]
            #![trigger encode_utf8(s)[i]]
            0 <= i < s.len() ==> encode_utf8(s)[i] == s[i] as u8 && (0x20 <= encode_utf8(s)[i]
                <= 0x7e || encode_utf8(s)[i] == 9),
        http_framing::ascii_text(encode_utf8(s)) == s,
{
    assert(is_ascii_chars(s));
    is_ascii_chars_encode_utf8(s);
    assert(http_framing::ascii_text(encode_utf8(s)) =~= s);
}

/// The two bytes that end a line.
pub open spec fn line_end() -> Seq<u8> {
    seq![13u8, 10u8]
}

/// The two bytes that `\r\n` encodes.
pub proof fn lemma_line_end_bytes()
    ensures
        encode_utf8("\r\n"@) == line_end(),
        "\r\n"@.len() == 2,
{
    reveal_strlit("\r\n");
    let s = "\r\n"@;
    assert(s.len() == 2 && s[0] == '\r' && s[1] == '\n');
    assert(is_ascii_chars(s));
    is_ascii_chars_encode_utf8(s);
    assert(encode_utf8(s) =~= line_end());
}

/// The first place from `at` on that holds a byte.
pub proof fn lemma_feed_position(b: Seq<u8>, byte: u8, at: int, to: int)
    requires
        0 <= at <= to < b.len(),
        b[to] == byte,
        forall|i: int| at <= i < to ==> #[trigger] b[i] != byte,
    ensures
        http_framing::byte_position(b, byte, at) == to,
    decreases to - at,
{
    if at < to {
        lemma_feed_position(b, byte, at + 1, to);
    }
}

/// A line that stands between other bytes is read as that line.
pub proof fn lemma_line_is_read(before: Seq<u8>, line: Seq<char>, after: Seq<u8>, consumed: int, ended: bool)
    requires
        is_line_text(line),
        consumed + line.len() + 2 <= HTTP_HEADER_LIMIT_BYTES,
    ensures
        ({
            let b = before + encode_utf8(line) + line_end() + after;
            let at = before.len() as int;
            let end = at + line.len();
            &&& http_framing::line_at(b, at, consumed, ended) == Progress::Ready(
                LineSpan { end, next: end + 2, consumed: consumed + line.len() + 2 },
            )
            &&& b.subrange(at, end) == encode_utf8(line)
            &&& end + 2 <= b.len()
        }),
{
    lemma_line_bytes(line);
    let b = before + encode_utf8(line) + line_end() + after;
    let at = before.len() as int;
    let end = at + line.len();
    assert(b.subrange(at, end) =~= encode_utf8(line));
    assert(b[end] == 13 && b[end + 1] == 10);
    assert forall|i: int| at <= i < end + 1 implies #[trigger] b[i] != 10 by {
        if i < end {
            assert(b[i] == encode_utf8(line)[i - at]);
        }
    }
    lemma_feed_position(b, 10, at, end + 1);
}

// ---------------------------------------------------------------------------
// Headers
// ---------------------------------------------------------------------------

/// Whether a text can be the name of a header.
pub open spec fn is_header_name(name: Seq<char>) -> bool {
    name.len() > 0 && forall|i: int|
        0 <= i < name.len() ==> '!' <= #[trigger] name[i] <= '~' && name[i] != ':'
            && http_framing::is_token_byte(name[i] as u8)
}

/// Whether a text can be the value of a header as it is: it stands in a line and
/// has no blanks at its ends.
pub open spec fn is_header_value(value: Seq<char>) -> bool {
    is_line_text(value) && (value.len() > 0 ==> !http_framing::is_blank(value[0])
        && !http_framing::is_blank(value.last()))
}

/// Whether headers can be written as they are.
pub open spec fn are_written_headers(headers: Headers) -> bool {
    forall|i: int|
        0 <= i < headers.len() ==> is_header_name((#[trigger] headers[i]).0) && is_header_value(
            headers[i].1,
        )
}

/// The lines of headers.
pub open spec fn header_lines(headers: Headers) -> Seq<char>
    decreases headers.len(),
{
    if headers.len() == 0 {
        Seq::empty()
    } else {
        http_request::header_text(headers[0].0, headers[0].1) + header_lines(headers.drop_first())
    }
}

/// A header as one line, without its end.
pub open spec fn header_content(name: Seq<char>, value: Seq<char>) -> Seq<char> {
    name + ": "@ + value
}

proof fn lemma_unpadded_value(value: Seq<char>)
    requires
        is_header_value(value),
    ensures
        http_framing::unpadded(seq![' '] + value) == value,
{
    let s = seq![' '] + value;
    assert(s.drop_first() =~= value);
    reveal_with_fuel(http_framing::blank_front, 2);
    if value.len() == 0 {
        assert(value =~= Seq::<char>::empty());
    }
    assert(http_framing::blank_front(s) == value);
    assert(http_framing::blank_back(value) == value);
}

/// A header line is the name, a colon, a space and the value.
pub proof fn lemma_header_content(name: Seq<char>, value: Seq<char>)
    requires
        is_header_name(name),
        is_header_value(value),
    ensures
        header_content(name, value) == name + seq![':'] + (seq![' '] + value),
        header_content(name, value).len() == name.len() + value.len() + 2,
        is_line_text(header_content(name, value)),
{
    reveal_strlit(": ");
    let line = header_content(name, value);
    assert(line =~= name + seq![':'] + (seq![' '] + value));
    assert forall|i: int| 0 <= i < line.len() implies ' ' <= #[trigger] line[i] <= '~' || line[i]
        == '\t' by {
        if i < name.len() {
            assert(line[i] == name[i]);
        } else if i >= name.len() + 2 {
            assert(line[i] == value[i - name.len() - 2]);
        }
    }
}

/// A header line is read as its name in small letters and its value.
proof fn lemma_header_is_read(name: Seq<char>, value: Seq<char>)
    requires
        is_header_name(name),
        is_header_value(value),
    ensures
        http_framing::header_line(encode_utf8(header_content(name, value))) == Ok::<
            (Seq<char>, Seq<char>),
            HttpFault,
        >((text::lower(name), value)),
{
    let content = header_content(name, value);
    let line = encode_utf8(content);
    let padded = seq![' '] + value;
    lemma_header_content(name, value);
    lemma_line_bytes(content);
    assert(is_line_text(name)) by {
        assert forall|i: int| 0 <= i < name.len() implies ' ' <= #[trigger] name[i] <= '~' by {}
    }
    lemma_line_bytes(name);
    assert(is_line_text(padded)) by {
        assert forall|i: int| 0 <= i < padded.len() implies ' ' <= #[trigger] padded[i] <= '~'
            || padded[i] == '\t' by {
            if i > 0 {
                assert(padded[i] == value[i - 1]);
            }
        }
    }
    lemma_line_bytes(padded);
    let colon = name.len() as int;
    assert(content[colon] == ':');
    assert(content[0] == name[0]);
    assert forall|i: int| 0 <= i < colon implies #[trigger] line[i] != 0x3a by {
        assert(content[i] == name[i]);
    }
    lemma_feed_position(line, 0x3a, 0, colon);
    assert(line.take(colon) =~= encode_utf8(name)) by {
        assert forall|i: int| 0 <= i < colon implies line[i] == #[trigger] encode_utf8(name)[i] by {
            assert(content[i] == name[i]);
        }
    }
    assert(line.skip(colon + 1) =~= encode_utf8(padded)) by {
        assert forall|i: int| 0 <= i < padded.len() implies line[colon + 1 + i]
            == #[trigger] encode_utf8(padded)[i] by {
            assert(content[colon + 1 + i] == padded[i]);
        }
    }
    assert(http_framing::all_token_bytes(encode_utf8(name))) by {
        assert forall|i: int| 0 <= i < name.len() implies http_framing::is_token_byte(
            #[trigger] encode_utf8(name)[i],
        ) by {
            assert(http_framing::is_token_byte(name[i] as u8));
        }
    }
    encode_utf8_valid_utf8(padded);
    encode_utf8_decode_utf8(padded);
    lemma_unpadded_value(value);
}

/// A head with several headers taken in, one after the other.
pub open spec fn head_with_all(head: HeadModel, headers: Headers) -> Result<HeadModel, HttpFault>
    decreases headers.len(),
{
    if headers.len() == 0 {
        Ok(head)
    } else {
        match http_framing::head_with(head, text::lower(headers[0].0), headers[0].1) {
            Ok(next) => head_with_all(next, headers.drop_first()),
            Err(fault) => Err(fault),
        }
    }
}

/// Headers that stand between other bytes, with the empty line behind them, are
/// taken in one after the other.
#[verifier::rlimit(30)]
pub proof fn lemma_headers_are_read(
    before: Seq<u8>,
    headers: Headers,
    after: Seq<u8>,
    consumed: int,
    ended: bool,
    head: HeadModel,
)
    requires
        are_written_headers(headers),
        consumed + encode_utf8(header_lines(headers)).len() + 2 <= HTTP_HEADER_LIMIT_BYTES,
        head_with_all(head, headers) is Ok,
    ensures
        http_framing::headers_from(
            before + encode_utf8(header_lines(headers)) + line_end() + after,
            before.len() as int,
            consumed,
            ended,
            head,
        ) == Progress::Ready(
            (
                head_with_all(head, headers)->Ok_0,
                (before.len() + encode_utf8(header_lines(headers)).len() + 2) as int,
            ),
        ),
    decreases headers.len(),
{
    let lines = header_lines(headers);
    let b = before + encode_utf8(lines) + line_end() + after;
    let at = before.len() as int;
    if headers.len() == 0 {
        let none = Seq::<char>::empty();
        assert(is_line_text(none));
        lemma_line_bytes(none);
        lemma_line_is_read(before, none, after, consumed, ended);
    } else {
        let (name, value) = headers[0];
        let content = header_content(name, value);
        let rest = headers.drop_first();
        let next = http_framing::head_with(head, text::lower(name), value)->Ok_0;
        assert(is_header_name(headers[0].0) && is_header_value(headers[0].1));
        lemma_header_content(name, value);
        lemma_header_is_read(name, value);
        lemma_line_bytes(content);
        lemma_line_end_bytes();
        text::lemma_encode_concat(content, "\r\n"@);
        text::lemma_encode_concat(http_request::header_text(name, value), header_lines(rest));
        let tail = encode_utf8(header_lines(rest)) + line_end() + after;
        assert(b =~= before + encode_utf8(content) + line_end() + tail);
        lemma_line_is_read(before, content, tail, consumed, ended);
        let front = before + encode_utf8(content) + line_end();
        assert(b =~= front + encode_utf8(header_lines(rest)) + line_end() + after);
        assert forall|i: int| 0 <= i < rest.len() implies is_header_name((#[trigger] rest[i]).0)
            && is_header_value(rest[i].1) by {
            assert(rest[i] == headers[i + 1]);
        }
        lemma_headers_are_read(
            front,
            rest,
            after,
            consumed + content.len() + 2,
            ended,
            next,
        );
    }
}

/// The lines of headers behind each other.
pub proof fn lemma_lines_joined(a: Headers, b: Headers)
    ensures
        header_lines(a + b) == header_lines(a) + header_lines(b),
    decreases a.len(),
{
    if a.len() == 0 {
        assert(a + b =~= b);
        assert(header_lines(a) + header_lines(b) =~= header_lines(b));
    } else {
        let first = http_request::header_text(a[0].0, a[0].1);
        assert((a + b).drop_first() =~= a.drop_first() + b);
        lemma_lines_joined(a.drop_first(), b);
        assert(first + (header_lines(a.drop_first()) + header_lines(b)) =~= first + header_lines(
            a.drop_first(),
        ) + header_lines(b));
    }
}

proof fn lemma_heads_joined(head: HeadModel, a: Headers, b: Headers)
    requires
        head_with_all(head, a) is Ok,
    ensures
        head_with_all(head, a + b) == head_with_all(head_with_all(head, a)->Ok_0, b),
    decreases a.len(),
{
    if a.len() == 0 {
        assert(a + b =~= b);
    } else {
        assert((a + b).drop_first() =~= a.drop_first() + b);
        lemma_heads_joined(
            http_framing::head_with(head, text::lower(a[0].0), a[0].1)->Ok_0,
            a.drop_first(),
            b,
        );
    }
}

/// The line of one header.
pub proof fn lemma_one_line(name: Seq<char>, value: Seq<char>)
    ensures
        header_lines(seq![(name, value)]) == http_request::header_text(name, value),
{
    let one = seq![(name, value)];
    assert(one.drop_first() =~= Seq::empty());
    reveal_with_fuel(header_lines, 2);
    assert(header_lines(one) =~= http_request::header_text(name, value));
}

proof fn lemma_one_head(head: HeadModel, name: Seq<char>, value: Seq<char>)
    ensures
        head_with_all(head, seq![(name, value)]) == http_framing::head_with(
            head,
            text::lower(name),
            value,
        ),
{
    let one = seq![(name, value)];
    assert(one.drop_first() =~= Seq::empty());
    reveal_with_fuel(head_with_all, 2);
}

// ---------------------------------------------------------------------------
// Answers
// ---------------------------------------------------------------------------

/// The first line of an answer.
pub open spec fn answer_line(status: u16) -> Seq<char> {
    "HTTP/1.1 "@ + text::decimal(status as nat) + " "@ + server_transport::reason_phrase(status)
}

proof fn lemma_three_digits(n: nat)
    requires
        100 <= n <= 999,
    ensures
        text::decimal(n).len() == 3,
        http_framing::all_digits(text::decimal(n)),
        http_framing::code_value(text::decimal(n)) == n,
{
    reveal_with_fuel(text::decimal, 3);
    text::lemma_decimal_digits(n);
    let d = text::decimal(n);
    let high = ('0' as int + n / 10 / 10) as char;
    let middle = ('0' as int + n / 10 % 10) as char;
    let low = ('0' as int + n % 10) as char;
    assert(d =~= seq![high, middle, low]);
    assert(n == 100 * (n / 10 / 10) + 10 * (n / 10 % 10) + n % 10) by (nonlinear_arith)
        requires
            100 <= n <= 999,
    ;
}

proof fn lemma_reason_is_a_line(status: u16)
    ensures
        is_line_text(server_transport::reason_phrase(status)),
        server_transport::reason_phrase(status).len() <= 31,
{
    reveal_strlit("OK");
    reveal_strlit("Accepted");
    reveal_strlit("No Content");
    reveal_strlit("Bad Request");
    reveal_strlit("Forbidden");
    reveal_strlit("Not Found");
    reveal_strlit("Method Not Allowed");
    reveal_strlit("Not Acceptable");
    reveal_strlit("Request Timeout");
    reveal_strlit("Length Required");
    reveal_strlit("Payload Too Large");
    reveal_strlit("Unsupported Media Type");
    reveal_strlit("Misdirected Request");
    reveal_strlit("Request Header Fields Too Large");
    reveal_strlit("Internal Server Error");
    reveal_strlit("Service Unavailable");
    reveal_strlit("Error");
}

/// The first place from `at` on that holds a character.
pub proof fn lemma_space_position(s: Seq<char>, c: char, at: int, to: int)
    requires
        0 <= at <= to < s.len(),
        s[to] == c,
        forall|i: int| at <= i < to ==> #[trigger] s[i] != c,
    ensures
        text::char_position(s, c, at) == to,
    decreases to - at,
{
    if at < to {
        lemma_space_position(s, c, at + 1, to);
    }
}

/// The first line of an answer is read as its status.
proof fn lemma_answer_line_is_read(status: u16)
    requires
        100 <= status <= 599,
    ensures
        is_line_text(answer_line(status)),
        answer_line(status).len() <= 44,
        http_framing::status_line(encode_utf8(answer_line(status))) == Ok::<
            (int, bool),
            HttpFault,
        >((status as int, true)),
{
    let s = answer_line(status);
    let code = text::decimal(status as nat);
    let reason = server_transport::reason_phrase(status);
    lemma_three_digits(status as nat);
    lemma_reason_is_a_line(status);
    reveal_strlit("HTTP/1.1 ");
    reveal_strlit("HTTP/1.1");
    reveal_strlit(" ");
    assert("HTTP/1.1 "@.len() == 9);
    assert(s.len() == 13 + reason.len());
    assert forall|i: int| 9 <= i < 12 implies #[trigger] s[i] == code[i - 9] by {}
    assert forall|i: int| 9 <= i < 12 implies text::is_decimal_digit(#[trigger] s[i]) by {
        assert(text::is_decimal_digit(code[i - 9]));
    }
    assert forall|i: int| 0 <= i < s.len() implies ' ' <= #[trigger] s[i] <= '~' || s[i]
        == '\t' by {
        if 9 <= i < 12 {
            assert(text::is_decimal_digit(s[i]));
        } else if i >= 13 {
            assert(s[i] == reason[i - 13]);
        }
    }
    encode_utf8_valid_utf8(s);
    encode_utf8_decode_utf8(s);
    assert(s[8] == ' ' && s[12] == ' ');
    lemma_space_position(s, ' ', 0, 8);
    lemma_space_position(s, ' ', 9, 12);
    assert(s.take(8) =~= "HTTP/1.1"@);
    assert(s.subrange(9, 12) =~= code);
    assert(s.skip(13) =~= reason);
    assert forall|i: int| 0 <= i < reason.len() implies !http_framing::is_refused_control(
        #[trigger] reason[i] as int,
    ) by {
        assert(' ' <= reason[i] <= '~' || reason[i] == '\t');
    }
}

proof fn lemma_special_lengths()
    ensures
        "content-length"@.len() == 14,
        "transfer-encoding"@.len() == 17,
        "content-type"@.len() == 12,
        "mcp-session-id"@.len() == 14,
        "connection"@.len() == 10,
        "content-encoding"@.len() == 16,
        "content-length"@ != "mcp-session-id"@,
{
    reveal_strlit("content-length");
    reveal_strlit("transfer-encoding");
    reveal_strlit("content-type");
    reveal_strlit("mcp-session-id");
    reveal_strlit("connection");
    reveal_strlit("content-encoding");
    assert("content-length"@[0] == 'c');
    assert("mcp-session-id"@[0] == 'm');
}

/// A header whose name has the length of none that matters changes nothing.
proof fn lemma_ignored_header(head: HeadModel, name: Seq<char>, value: Seq<char>)
    requires
        name.len() != 14 && name.len() != 17 && name.len() != 12 && name.len() != 10 && name.len()
            != 16,
    ensures
        http_framing::head_with(head, text::lower(name), value) == Ok::<HeadModel, HttpFault>(head),
{
    lemma_special_lengths();
}

/// A text without the separator is one part.
pub proof fn lemma_undivided(s: Seq<char>, separator: char)
    requires
        forall|i: int| 0 <= i < s.len() ==> #[trigger] s[i] != separator,
    ensures
        text::split(s, separator) == seq![s],
{
    text::lemma_char_position(s, separator, 0);
    assert(s.subrange(0, s.len() as int) =~= s);
}

proof fn lemma_connection_header(head: HeadModel)
    requires
        !head.keep_alive,
    ensures
        http_framing::head_with(head, text::lower("Connection"@), "close"@) == Ok::<
            HeadModel,
            HttpFault,
        >(HeadModel { close: true, ..head }),
{
    lemma_special_lengths();
    reveal_strlit("Connection");
    reveal_strlit("connection");
    reveal_strlit("close");
    reveal_strlit("keep-alive");
    assert(text::lower("Connection"@) =~= "connection"@);
    let value = "close"@;
    lemma_undivided(value, ',');
    assert(value.len() == 5 && value[0] == 'c' && value[4] == 'e');
    text::lemma_trimmed_stays(value);
    assert(text::lower(value) =~= value);
    assert("keep-alive"@.len() == 10);
    assert(text::split(value, ',')[0] == value);
    assert(text::lists_token(value, ',', value));
    assert(!text::lists_token(value, ',', "keep-alive"@));
}

proof fn lemma_media_type()
    ensures
        http_framing::media_type_value("application/json"@) == Ok::<Seq<char>, HttpFault>(
            "application/json"@,
        ),
        is_header_value("application/json"@),
        "application/json"@.len() == 16,
{
    reveal_strlit("application/json");
    let value = "application/json"@;
    assert(value.len() == 16);
    lemma_undivided(value, ';');
    assert(value[0] == 'a' && value[15] == 'n' && value[11] == '/');
    text::lemma_trimmed_stays(value);
    assert(text::has_char(value, '/'));
    assert(text::lower(value) =~= value);
    assert(!http_framing::has_ascii_control(value));
}

proof fn lemma_type_header(head: HeadModel)
    requires
        head.content_type is None,
    ensures
        http_framing::head_with(head, text::lower("Content-Type"@), "application/json"@) == Ok::<
            HeadModel,
            HttpFault,
        >(HeadModel { content_type: Some("application/json"@), ..head }),
{
    lemma_special_lengths();
    lemma_media_type();
    reveal_strlit("Content-Type");
    reveal_strlit("content-type");
    assert(text::lower("Content-Type"@) =~= "content-type"@);
}

proof fn lemma_session_header(head: HeadModel, id: Seq<char>)
    requires
        head.session_id is None,
        http_framing::valid_session_token(id),
    ensures
        http_framing::head_with(head, text::lower("Mcp-Session-Id"@), id) == Ok::<
            HeadModel,
            HttpFault,
        >(HeadModel { session_id: Some(id), ..head }),
{
    lemma_special_lengths();
    reveal_strlit("Mcp-Session-Id");
    reveal_strlit("mcp-session-id");
    assert(text::lower("Mcp-Session-Id"@) =~= "mcp-session-id"@);
}

proof fn lemma_length_header(head: HeadModel, length: nat)
    requires
        head.content_length is None,
        length <= usize::MAX,
    ensures
        http_framing::head_with(head, text::lower("Content-Length"@), text::decimal(length))
            == Ok::<HeadModel, HttpFault>(
            HeadModel { content_length: Some(length as int), ..head },
        ),
{
    lemma_special_lengths();
    reveal_strlit("Content-Length");
    reveal_strlit("content-length");
    assert(text::lower("Content-Length"@) =~= "content-length"@);
    text::lemma_decimal_digits(length);
    text::lemma_digits_read_back(length, usize::MAX as int);
    assert(http_framing::all_digits(text::decimal(length)));
}

/// A header where there is a value for it.
pub open spec fn header_if(name: Seq<char>, value: Option<Seq<char>>) -> Headers {
    match value {
        Some(value) => seq![(name, value)],
        None => Seq::empty(),
    }
}

/// The headers of every answer.
pub open spec fn fixed_headers() -> Headers {
    seq![
        ("Connection"@, "close"@),
        ("Cache-Control"@, "no-store"@),
        ("X-Content-Type-Options"@, "nosniff"@),
    ]
}

/// The length of an answer, where it is told.
pub open spec fn told_length(reply: ReplyModel) -> Option<Seq<char>> {
    if reply.status != 204 {
        Some(text::decimal(encode_utf8(reply.body).len()))
    } else {
        None
    }
}

/// The headers of an answer.
pub open spec fn answer_headers(reply: ReplyModel) -> Headers {
    fixed_headers() + header_if("Mcp-Session-Id"@, server_transport::written_session(reply))
        + header_if("Allow"@, reply.allow) + header_if("Content-Type"@, reply.content_type)
        + header_if("Content-Length"@, told_length(reply))
}

proof fn lemma_fixed_lines()
    ensures
        "\r\nConnection: close\r\nCache-Control: no-store\r\nX-Content-Type-Options: nosniff\r\n"@
            == "\r\n"@ + header_lines(fixed_headers()),
        header_lines(fixed_headers()).len() == 77,
{
    let a = ("Connection"@, "close"@);
    let b = ("Cache-Control"@, "no-store"@);
    let c = ("X-Content-Type-Options"@, "nosniff"@);
    lemma_one_line(a.0, a.1);
    lemma_one_line(b.0, b.1);
    lemma_one_line(c.0, c.1);
    lemma_lines_joined(seq![a], seq![b]);
    lemma_lines_joined(seq![a] + seq![b], seq![c]);
    assert(seq![a] + seq![b] + seq![c] =~= fixed_headers());
    let lines = http_request::header_text(a.0, a.1) + http_request::header_text(b.0, b.1)
        + http_request::header_text(c.0, c.1);
    assert(header_lines(fixed_headers()) == lines);
    reveal_strlit(
        "\r\nConnection: close\r\nCache-Control: no-store\r\nX-Content-Type-Options: nosniff\r\n",
    );
    reveal_strlit("\r\n");
    reveal_strlit("Connection");
    reveal_strlit("close");
    reveal_strlit("Cache-Control");
    reveal_strlit("no-store");
    reveal_strlit("X-Content-Type-Options");
    reveal_strlit("nosniff");
    reveal_strlit(": ");
    assert("\r\nConnection: close\r\nCache-Control: no-store\r\nX-Content-Type-Options: nosniff\r\n"@
        =~= "\r\n"@ + lines);
}

proof fn lemma_optional_line(named: Seq<char>, name: Seq<char>, value: Option<Seq<char>>)
    requires
        named == name + ": "@,
    ensures
        server_transport::optional_header(named, value) == header_lines(header_if(name, value)),
{
    match value {
        Some(value) => {
            lemma_one_line(name, value);
            assert(named + value + "\r\n"@ =~= http_request::header_text(name, value));
        },
        None => {},
    }
}

proof fn lemma_header_labels()
    ensures
        "Mcp-Session-Id: "@ == "Mcp-Session-Id"@ + ": "@,
        "Allow: "@ == "Allow"@ + ": "@,
        "Content-Type: "@ == "Content-Type"@ + ": "@,
        "Content-Length: "@ == "Content-Length"@ + ": "@,
{
    reveal_strlit("Mcp-Session-Id: ");
    reveal_strlit("Mcp-Session-Id");
    reveal_strlit("Allow: ");
    reveal_strlit("Allow");
    reveal_strlit("Content-Type: ");
    reveal_strlit("Content-Type");
    reveal_strlit("Content-Length: ");
    reveal_strlit("Content-Length");
    reveal_strlit(": ");
    assert("Mcp-Session-Id: "@ =~= "Mcp-Session-Id"@ + ": "@);
    assert("Allow: "@ =~= "Allow"@ + ": "@);
    assert("Content-Type: "@ =~= "Content-Type"@ + ": "@);
    assert("Content-Length: "@ =~= "Content-Length"@ + ": "@);
}

proof fn lemma_answer_joined(
    line: Seq<char>,
    end: Seq<char>,
    a: Seq<char>,
    b: Seq<char>,
    c: Seq<char>,
    d: Seq<char>,
    e: Seq<char>,
    body: Seq<char>,
)
    ensures
        line + (end + a) + b + c + d + e + end + body == line + end + (a + b + c + d + e) + end
            + body,
{
    assert(line + (end + a) + b + c + d + e =~= line + end + (a + b + c + d + e));
}

/// An answer is written as its first line, its headers and its body.
proof fn lemma_answer_text(reply: ReplyModel)
    ensures
        server_transport::wire_text(reply) == answer_line(reply.status) + "\r\n"@ + header_lines(
            answer_headers(reply),
        ) + "\r\n"@ + reply.body,
{
    let session = header_if("Mcp-Session-Id"@, server_transport::written_session(reply));
    let allow = header_if("Allow"@, reply.allow);
    let kind = header_if("Content-Type"@, reply.content_type);
    let length = header_if("Content-Length"@, told_length(reply));
    lemma_fixed_lines();
    lemma_header_labels();
    lemma_optional_line(
        "Mcp-Session-Id: "@,
        "Mcp-Session-Id"@,
        server_transport::written_session(reply),
    );
    lemma_optional_line("Allow: "@, "Allow"@, reply.allow);
    lemma_optional_line("Content-Type: "@, "Content-Type"@, reply.content_type);
    lemma_optional_line("Content-Length: "@, "Content-Length"@, told_length(reply));
    lemma_lines_joined(fixed_headers(), session);
    lemma_lines_joined(fixed_headers() + session, allow);
    lemma_lines_joined(fixed_headers() + session + allow, kind);
    lemma_lines_joined(fixed_headers() + session + allow + kind, length);
    lemma_answer_joined(
        answer_line(reply.status),
        "\r\n"@,
        header_lines(fixed_headers()),
        header_lines(session),
        header_lines(allow),
        header_lines(kind),
        header_lines(length),
        reply.body,
    );
}

/// Whether an answer has the form of those that the server gives.
pub open spec fn is_answer(reply: ReplyModel) -> bool {
    &&& 200 <= reply.status <= 599
    &&& reply.status == 204 || reply.status == 205 || reply.status == 304 ==> reply.body.len() == 0
    &&& reply.content_type is None || reply.content_type == Some("application/json"@)
    &&& reply.allow matches Some(methods) ==> is_header_value(methods) && methods.len() <= 1024
}

proof fn lemma_session_id_is_a_value(id: Seq<char>)
    requires
        server_rpc::is_session_id(id),
    ensures
        is_header_value(id),
        http_framing::valid_session_token(id),
        id.len() <= 256,
{
    let bytes = encode_utf8(id);
    assert forall|i: int| 0 <= i < bytes.len() implies #[trigger] bytes[i] < 0x80 by {}
    text::lemma_ascii_bytes_are_ascii_chars(id);
    text::lemma_encoded_len_bound(id);
    assert forall|i: int| 0 <= i < id.len() implies '!' <= #[trigger] id[i] <= '~' by {
        assert(bytes[i] == id[i] as u8);
    }
}

/// A number in decimal can be the value of a header.
pub proof fn lemma_decimal_is_a_value(n: nat)
    ensures
        is_header_value(text::decimal(n)),
{
    text::lemma_decimal_digits(n);
    let d = text::decimal(n);
    assert forall|i: int| 0 <= i < d.len() implies '0' <= #[trigger] d[i] <= '9' by {
        assert(text::is_decimal_digit(d[i]));
    }
}

proof fn lemma_header_names()
    ensures
        is_header_name("Connection"@),
        is_header_name("Cache-Control"@),
        is_header_name("X-Content-Type-Options"@),
        is_header_name("Mcp-Session-Id"@),
        is_header_name("Allow"@),
        is_header_name("Content-Type"@),
        is_header_name("Content-Length"@),
        "Cache-Control"@.len() == 13,
        "X-Content-Type-Options"@.len() == 22,
        "Mcp-Session-Id"@.len() == 14,
        "Allow"@.len() == 5,
        "Content-Type"@.len() == 12,
        "Content-Length"@.len() == 14,
        is_header_value("close"@),
        is_header_value("no-store"@),
        is_header_value("nosniff"@),
{
    reveal_strlit("Connection");
    reveal_strlit("Cache-Control");
    reveal_strlit("X-Content-Type-Options");
    reveal_strlit("Mcp-Session-Id");
    reveal_strlit("Allow");
    reveal_strlit("Content-Type");
    reveal_strlit("Content-Length");
    reveal_strlit("close");
    reveal_strlit("no-store");
    reveal_strlit("nosniff");
}

proof fn lemma_answer_headers_are_written(reply: ReplyModel)
    requires
        is_answer(reply),
    ensures
        are_written_headers(answer_headers(reply)),
{
    lemma_header_names();
    lemma_media_type();
    lemma_decimal_is_a_value(encode_utf8(reply.body).len());
    if server_transport::written_session(reply) is Some {
        lemma_session_id_is_a_value(server_transport::written_session(reply)->0);
    }
    assert(are_written_headers(fixed_headers()));
}

/// What a client learns from the headers of an answer.
pub open spec fn told_head(reply: ReplyModel) -> HeadModel {
    HeadModel {
        status_code: reply.status as int,
        http_11: true,
        content_length: if reply.status != 204 {
            Some(encode_utf8(reply.body).len() as int)
        } else {
            None
        },
        chunked: false,
        content_type: reply.content_type,
        close: true,
        keep_alive: false,
        session_id: server_transport::written_session(reply),
    }
}

proof fn lemma_fixed_head(status: int)
    ensures
        head_with_all(http_framing::fresh_head(status, true), fixed_headers()) == Ok::<
            HeadModel,
            HttpFault,
        >(HeadModel { close: true, ..http_framing::fresh_head(status, true) }),
{
    let fresh = http_framing::fresh_head(status, true);
    let closed = HeadModel { close: true, ..fresh };
    let a = ("Connection"@, "close"@);
    let b = ("Cache-Control"@, "no-store"@);
    let c = ("X-Content-Type-Options"@, "nosniff"@);
    lemma_header_names();
    lemma_connection_header(fresh);
    lemma_ignored_header(closed, b.0, b.1);
    lemma_ignored_header(closed, c.0, c.1);
    lemma_one_head(fresh, a.0, a.1);
    lemma_one_head(closed, b.0, b.1);
    lemma_one_head(closed, c.0, c.1);
    lemma_heads_joined(fresh, seq![a], seq![b]);
    lemma_heads_joined(fresh, seq![a] + seq![b], seq![c]);
    assert(seq![a] + seq![b] + seq![c] =~= fixed_headers());
}

proof fn lemma_answer_head(reply: ReplyModel)
    requires
        is_answer(reply),
        encode_utf8(reply.body).len() <= usize::MAX,
    ensures
        head_with_all(
            http_framing::fresh_head(reply.status as int, true),
            answer_headers(reply),
        ) == Ok::<HeadModel, HttpFault>(told_head(reply)),
{
    let fresh = http_framing::fresh_head(reply.status as int, true);
    let session = header_if("Mcp-Session-Id"@, server_transport::written_session(reply));
    let allow = header_if("Allow"@, reply.allow);
    let kind = header_if("Content-Type"@, reply.content_type);
    let length = header_if("Content-Length"@, told_length(reply));
    let closed = HeadModel { close: true, ..fresh };
    let named = HeadModel { session_id: server_transport::written_session(reply), ..closed };
    let typed = HeadModel { content_type: reply.content_type, ..named };
    lemma_header_names();
    lemma_fixed_head(reply.status as int);
    if server_transport::written_session(reply) is Some {
        let id = server_transport::written_session(reply)->0;
        lemma_session_id_is_a_value(id);
        lemma_session_header(closed, id);
        lemma_one_head(closed, "Mcp-Session-Id"@, id);
    }
    assert(head_with_all(closed, session) == Ok::<HeadModel, HttpFault>(named));
    if reply.allow is Some {
        lemma_ignored_header(named, "Allow"@, reply.allow->0);
        lemma_one_head(named, "Allow"@, reply.allow->0);
    }
    assert(head_with_all(named, allow) == Ok::<HeadModel, HttpFault>(named));
    if reply.content_type is Some {
        lemma_type_header(named);
        lemma_one_head(named, "Content-Type"@, "application/json"@);
    }
    assert(head_with_all(named, kind) == Ok::<HeadModel, HttpFault>(typed));
    if reply.status != 204 {
        lemma_length_header(typed, encode_utf8(reply.body).len());
        lemma_one_head(typed, "Content-Length"@, text::decimal(encode_utf8(reply.body).len()));
    }
    assert(head_with_all(typed, length) == Ok::<HeadModel, HttpFault>(told_head(reply)));
    lemma_heads_joined(fresh, fixed_headers(), session);
    lemma_heads_joined(fresh, fixed_headers() + session, allow);
    lemma_heads_joined(fresh, fixed_headers() + session + allow, kind);
    lemma_heads_joined(fresh, fixed_headers() + session + allow + kind, length);
}

/// The lines of headers have as many bytes as characters.
proof fn lemma_lines_len(headers: Headers)
    requires
        are_written_headers(headers),
    ensures
        encode_utf8(header_lines(headers)).len() == header_lines(headers).len(),
    decreases headers.len(),
{
    if headers.len() == 0 {
        assert(encode_utf8(header_lines(headers)).len() == 0);
    } else {
        let (name, value) = headers[0];
        let content = header_content(name, value);
        let rest = headers.drop_first();
        assert(is_header_name(headers[0].0) && is_header_value(headers[0].1));
        assert forall|i: int| 0 <= i < rest.len() implies is_header_name((#[trigger] rest[i]).0)
            && is_header_value(rest[i].1) by {
            assert(rest[i] == headers[i + 1]);
        }
        lemma_lines_len(rest);
        lemma_header_content(name, value);
        lemma_line_bytes(content);
        lemma_line_end_bytes();
        text::lemma_encode_concat(content, "\r\n"@);
        text::lemma_encode_concat(http_request::header_text(name, value), header_lines(rest));
    }
}

spec fn power_of_ten(k: nat) -> nat
    decreases k,
{
    if k == 0 {
        1
    } else {
        10 * power_of_ten((k - 1) as nat)
    }
}

proof fn lemma_decimal_len(n: nat, k: nat)
    requires
        n < power_of_ten(k),
        k > 0,
    ensures
        text::decimal(n).len() <= k,
    decreases n,
{
    if n >= 10 {
        if k == 1 {
            reveal_with_fuel(power_of_ten, 2);
        }
        assert(n / 10 < power_of_ten((k - 1) as nat));
        lemma_decimal_len(n / 10, (k - 1) as nat);
    }
}

proof fn lemma_length_text(n: nat)
    requires
        n <= usize::MAX,
    ensures
        text::decimal(n).len() <= 20,
{
    reveal_with_fuel(power_of_ten, 21);
    lemma_decimal_len(n, 20);
}

proof fn lemma_line_of_header(name: Seq<char>, value: Option<Seq<char>>, most: int)
    requires
        value matches Some(v) ==> v.len() <= most,
        0 <= most,
    ensures
        header_lines(header_if(name, value)).len() <= name.len() + most + 4,
{
    match value {
        Some(value) => {
            lemma_one_line(name, value);
            reveal_strlit(": ");
            reveal_strlit("\r\n");
        },
        None => {},
    }
}

proof fn lemma_answer_is_short(reply: ReplyModel)
    requires
        is_answer(reply),
        encode_utf8(reply.body).len() <= usize::MAX,
    ensures
        header_lines(answer_headers(reply)).len() <= 2000,
{
    let session = header_if("Mcp-Session-Id"@, server_transport::written_session(reply));
    let allow = header_if("Allow"@, reply.allow);
    let kind = header_if("Content-Type"@, reply.content_type);
    let length = header_if("Content-Length"@, told_length(reply));
    lemma_header_names();
    lemma_fixed_lines();
    lemma_media_type();
    lemma_length_text(encode_utf8(reply.body).len());
    if server_transport::written_session(reply) is Some {
        lemma_session_id_is_a_value(server_transport::written_session(reply)->0);
    }
    lemma_line_of_header("Mcp-Session-Id"@, server_transport::written_session(reply), 256);
    lemma_line_of_header("Allow"@, reply.allow, 1024);
    lemma_line_of_header("Content-Type"@, reply.content_type, 16);
    lemma_line_of_header("Content-Length"@, told_length(reply), 20);
    lemma_lines_joined(fixed_headers(), session);
    lemma_lines_joined(fixed_headers() + session, allow);
    lemma_lines_joined(fixed_headers() + session + allow, kind);
    lemma_lines_joined(fixed_headers() + session + allow + kind, length);
}

/// The bytes of an answer are those of its parts.
proof fn lemma_answer_bytes(reply: ReplyModel)
    ensures
        encode_utf8(server_transport::wire_text(reply)) == encode_utf8(answer_line(reply.status))
            + line_end() + encode_utf8(header_lines(answer_headers(reply))) + line_end()
            + encode_utf8(reply.body),
{
    let line = answer_line(reply.status);
    let lines = header_lines(answer_headers(reply));
    lemma_answer_text(reply);
    lemma_line_end_bytes();
    text::lemma_encode_concat(line, "\r\n"@);
    text::lemma_encode_concat(line + "\r\n"@, lines);
    text::lemma_encode_concat(line + "\r\n"@ + lines, "\r\n"@);
    text::lemma_encode_concat(line + "\r\n"@ + lines + "\r\n"@, reply.body);
}

proof fn lemma_answer_head_is_read(reply: ReplyModel, ended: bool)
    requires
        is_answer(reply),
        encode_utf8(reply.body).len() <= usize::MAX,
    ensures
        ({
            let b = encode_utf8(server_transport::wire_text(reply));
            let start = b.len() - encode_utf8(reply.body).len();
            &&& http_framing::head_at(b, 0, ended) == Progress::Ready((told_head(reply), start))
            &&& 0 <= start
            &&& b.subrange(start, b.len() as int) == encode_utf8(reply.body)
        }),
{
    let line = answer_line(reply.status);
    let headers = answer_headers(reply);
    let lines = encode_utf8(header_lines(headers));
    let body = encode_utf8(reply.body);
    let b = encode_utf8(server_transport::wire_text(reply));
    let none = Seq::<u8>::empty();
    lemma_answer_bytes(reply);
    lemma_answer_line_is_read(reply.status);
    lemma_line_bytes(line);
    lemma_answer_headers_are_written(reply);
    lemma_lines_len(headers);
    lemma_answer_is_short(reply);
    lemma_answer_head(reply);
    let tail = lines + line_end() + body;
    assert(b =~= none + encode_utf8(line) + line_end() + tail);
    lemma_line_is_read(none, line, tail, 0, ended);
    let front = encode_utf8(line) + line_end();
    assert(b =~= front + lines + line_end() + body);
    lemma_headers_are_read(
        front,
        headers,
        body,
        (line.len() + 2) as int,
        ended,
        http_framing::fresh_head(reply.status as int, true),
    );
    let start = b.len() - body.len();
    assert(b.subrange(start, b.len() as int) =~= body);
}

/// A client reads from a connection the answer that a server has written to it:
/// the status, the type, the session and the body, whether or not more is to
/// come.
pub proof fn law_clients_read_answers(reply: ReplyModel, ended: bool, limit: usize, allow: bool)
    requires
        is_answer(reply),
        encode_utf8(reply.body).len() <= limit,
        0 < limit,
    ensures
        http_framing::response_of(
            encode_utf8(server_transport::wire_text(reply)),
            ended,
            limit as int,
            allow,
        ) == Progress::Ready(
            (ResponseModel {
                status_code: reply.status as int,
                content_type: reply.content_type,
                body: encode_utf8(reply.body),
                body_truncated: false,
                session_id: server_transport::written_session(reply),
            }),
        ),
{
    let b = encode_utf8(server_transport::wire_text(reply));
    let body = encode_utf8(reply.body);
    let start = b.len() - body.len();
    lemma_answer_head_is_read(reply, ended);
    if reply.status == 204 || reply.status == 205 || reply.status == 304 {
        assert(reply.body =~= Seq::empty());
        assert(body =~= Seq::empty());
    } else {
        assert(http_framing::framing_of(told_head(reply), allow) == Ok::<
            HttpBodyFraming,
            HttpFault,
        >(HttpBodyFraming::ContentLength(body.len() as usize)));
        assert(start + body.len() == b.len());
    }
}

proof fn lemma_allowed_methods()
    ensures
        is_header_value("POST, DELETE"@),
        "POST, DELETE"@.len() == 12,
{
    reveal_strlit("POST, DELETE");
}

/// Whatever a request that was read comes to, the answer has a form that clients
/// read back.
pub proof fn law_answers_are_readable(state: ServerState, request: RequestModel, peer: PeerAddress)
    ensures
        match server_transport::dispatched(state, request, peer) {
            DispatchModel::Answer(answer) => is_answer(answer.reply),
            DispatchModel::Blocked(answer) => is_answer(answer.reply),
            _ => true,
        },
{
    lemma_allowed_methods();
}

/// The answers to an opened session, to a call that was run and to a request
/// whose answer is too long have a form that clients read back.
pub proof fn law_later_answers_are_readable(
    id: Seq<char>,
    peer: PeerAddress,
    fresh: Option<Seq<char>>,
    session_id: Seq<char>,
    result: Result<ToolResultModel, ErrorModel>,
    reply: ReplyModel,
    limit: usize,
)
    requires
        is_answer(reply),
    ensures
        is_answer(server_transport::opened(id, peer, fresh).reply),
        is_answer(server_transport::call_reply(id, session_id, result, limit)),
        is_answer(server_transport::limited_reply(reply, limit).0),
{
}

} // verus!

//! What a client reads in the responses of HTTP servers, however these are written.

use vstd::prelude::*;
use vstd::utf8::*;
use crate::http_framing;
use crate::http_framing::{
    HeadModel, HttpBodyFraming, HttpFault, LineSpan, Progress, ResponseModel,
    HTTP_HEADER_LIMIT_BYTES,
};
use crate::http_reply;
use crate::http_request::Headers;
use crate::text;
use crate::wire;

verus! {

// ---------------------------------------------------------------------------
// Lines
// ---------------------------------------------------------------------------

/// The two bytes that end a line: a return and a feed.
pub open spec fn line_end() -> Seq<u8> {
    seq![13u8, 10u8]
}

/// Whether bytes can stand in one line.
pub open spec fn within_line(line: Seq<u8>) -> bool {
    forall|i: int| 0 <= i < line.len() ==> #[trigger] line[i] != 10
}

/// A line is read up to its end, as long as the limit is kept.
pub proof fn law_lines_are_read(before: Seq<u8>, line: Seq<u8>, after: Seq<u8>, consumed: int, ended: bool)
    requires
        within_line(line),
    ensures
        ({
            let b = before + line + line_end() + after;
            let at = before.len() as int;
            let end = at + line.len();
            let taken = consumed + line.len() + 2;
            &&& taken <= HTTP_HEADER_LIMIT_BYTES ==> http_framing::line_at(b, at, consumed, ended)
                == Progress::Ready(LineSpan { end, next: end + 2, consumed: taken })
            &&& taken > HTTP_HEADER_LIMIT_BYTES ==> http_framing::line_at(b, at, consumed, ended)
                == Progress::<LineSpan>::Fail(HttpFault::HeadersTooLarge)
            &&& b.subrange(at, end) == line
            &&& b.skip(end + 2) == after
            &&& end + 2 <= b.len()
        }),
{
    let b = before + line + line_end() + after;
    let at = before.len() as int;
    let end = at + line.len();
    assert(b.subrange(at, end) =~= line);
    assert(b.skip(end + 2) =~= after);
    assert(b[end] == 13 && b[end + 1] == 10);
    assert forall|i: int| at <= i < end + 1 implies #[trigger] b[i] != 10 by {
        if i < end {
            assert(b[i] == line[i - at]);
        }
    }
    wire::lemma_feed_position(b, 10, at, end + 1);
}

/// A line that is not complete is waited for, and one that a feed without a return
/// ends is refused.
pub proof fn law_incomplete_lines(before: Seq<u8>, line: Seq<u8>, after: Seq<u8>, consumed: int)
    requires
        within_line(line),
        consumed + line.len() + 1 <= HTTP_HEADER_LIMIT_BYTES,
    ensures
        http_framing::line_at(before + line, before.len() as int, consumed, false) == Progress::<
            LineSpan,
        >::Wait,
        http_framing::line_at(before + line, before.len() as int, consumed, true) == Progress::<
            LineSpan,
        >::Fail(HttpFault::LineIncomplete),
        line.len() == 0 || line.last() != 13 ==> http_framing::line_at(
            before + line + seq![10u8] + after,
            before.len() as int,
            consumed,
            false,
        ) == Progress::<LineSpan>::Fail(HttpFault::LineEnd),
{
    let at = before.len() as int;
    let open = before + line;
    http_framing::lemma_byte_position(open, 10, at);
    let feed = http_framing::byte_position(open, 10, at);
    if feed < open.len() {
        assert(open[feed] == line[feed - at]);
    }
    let b = before + line + seq![10u8] + after;
    let end = at + line.len();
    assert(b[end] == 10);
    assert forall|i: int| at <= i < end implies #[trigger] b[i] != 10 by {
        assert(b[i] == line[i - at]);
    }
    wire::lemma_feed_position(b, 10, at, end);
    if line.len() > 0 {
        assert(b[end - 1] == line.last());
    }
}

// ---------------------------------------------------------------------------
// Headers
// ---------------------------------------------------------------------------

/// Whether a text is spaces and tabs and nothing else.
pub open spec fn is_padding(s: Seq<char>) -> bool {
    forall|i: int| 0 <= i < s.len() ==> (#[trigger] s[i] == ' ' || s[i] == '\t')
}

proof fn lemma_front_cut(a: Seq<char>, m: Seq<char>)
    requires
        is_padding(a),
        m.len() == 0 || (m[0] != ' ' && m[0] != '\t'),
    ensures
        http_framing::blank_front(a + m) == m,
    decreases a.len(),
{
    if a.len() == 0 {
        assert(a + m =~= m);
    } else {
        assert(a[0] == ' ' || a[0] == '\t');
        assert((a + m).drop_first() =~= a.drop_first() + m);
        assert(is_padding(a.drop_first())) by {
            assert forall|i: int| 0 <= i < a.drop_first().len() implies (
            #[trigger] a.drop_first()[i] == ' ' || a.drop_first()[i] == '\t') by {
                assert(a[i + 1] == ' ' || a[i + 1] == '\t');
            }
        }
        lemma_front_cut(a.drop_first(), m);
    }
}

proof fn lemma_back_cut(m: Seq<char>, b: Seq<char>)
    requires
        is_padding(b),
        m.len() == 0 || (m.last() != ' ' && m.last() != '\t'),
    ensures
        http_framing::blank_back(m + b) == m,
    decreases b.len(),
{
    if b.len() == 0 {
        assert(m + b =~= m);
    } else {
        assert(b[b.len() - 1] == ' ' || b[b.len() - 1] == '\t');
        assert((m + b).drop_last() =~= m + b.drop_last());
        assert(is_padding(b.drop_last())) by {
            assert forall|i: int| 0 <= i < b.drop_last().len() implies (
            #[trigger] b.drop_last()[i] == ' ' || b.drop_last()[i] == '\t') by {
                assert(b[i] == ' ' || b[i] == '\t');
            }
        }
        lemma_back_cut(m, b.drop_last());
    }
}

/// A header line is read as its name in small letters and its value without the
/// spaces and tabs around it, however many there are.
pub proof fn law_headers_are_read(name: Seq<char>, a: Seq<char>, value: Seq<char>, b: Seq<char>)
    requires
        wire::is_header_name(name),
        is_padding(a),
        wire::is_line_text(value),
        value.len() > 0,
        value[0] != ' ' && value[0] != '\t',
        value.last() != ' ' && value.last() != '\t',
        is_padding(b),
    ensures
        http_framing::header_line(encode_utf8(name + seq![':'] + a + value + b)) == Ok::<
            (Seq<char>, Seq<char>),
            HttpFault,
        >((text::lower(name), value)),
{
    let content = name + seq![':'] + a + value + b;
    let padded = a + value + b;
    let line = encode_utf8(content);
    let colon = name.len() as int;
    assert(wire::is_line_text(name)) by {
        assert forall|i: int| 0 <= i < name.len() implies ' ' <= #[trigger] name[i] <= '~' by {}
    }
    assert(wire::is_line_text(padded)) by {
        assert forall|i: int| 0 <= i < padded.len() implies ' ' <= #[trigger] padded[i] <= '~'
            || padded[i] == '\t' by {
            if i < a.len() {
                assert(padded[i] == a[i]);
                assert(a[i] == ' ' || a[i] == '\t');
            } else if i < a.len() + value.len() {
                assert(padded[i] == value[i - a.len()]);
            } else {
                assert(padded[i] == b[i - a.len() - value.len()]);
                assert(b[i - a.len() - value.len()] == ' ' || b[i - a.len() - value.len()] == '\t');
            }
        }
    }
    assert(content =~= name + seq![':'] + padded);
    assert(wire::is_line_text(content)) by {
        assert forall|i: int| 0 <= i < content.len() implies ' ' <= #[trigger] content[i] <= '~'
            || content[i] == '\t' by {
            if i < colon {
                assert(content[i] == name[i]);
            } else if i > colon {
                assert(content[i] == padded[i - colon - 1]);
            }
        }
    }
    wire::lemma_line_bytes(name);
    wire::lemma_line_bytes(padded);
    wire::lemma_line_bytes(content);
    assert(content[colon] == ':');
    assert(content[0] == name[0]);
    assert forall|i: int| 0 <= i < colon implies #[trigger] line[i] != 0x3a by {
        assert(content[i] == name[i]);
    }
    wire::lemma_feed_position(line, 0x3a, 0, colon);
    assert(line.take(colon) =~= encode_utf8(name)) by {
        assert forall|i: int| 0 <= i < colon implies line[i] == #[trigger] encode_utf8(name)[i] by {
            assert(content[i] == name[i]);
        }
    }
    assert(line.skip(colon + 1) =~= encode_utf8(padded)) by {
        assert forall|i: int| 0 <= i < padded.len() implies line[colon + 1 + i]
            == #[trigger] encode_utf8(padded)[i] by {
            assert(content[colon + 1 + i] == padded[i]);
        }
    }
    assert(http_framing::all_token_bytes(encode_utf8(name))) by {
        assert forall|i: int| 0 <= i < name.len() implies http_framing::is_token_byte(
            #[trigger] encode_utf8(name)[i],
        ) by {
            assert(http_framing::is_token_byte(name[i] as u8));
        }
    }
    assert(http_framing::ascii_text(encode_utf8(name)) =~= name);
    encode_utf8_valid_utf8(padded);
    encode_utf8_decode_utf8(padded);
    assert(padded =~= a + (value + b));
    lemma_front_cut(a, value + b);
    lemma_back_cut(value, b);
}

/// What headers say of a response, whatever came before them: a length is a run of
/// digits, once; an encoding of the transfer is `chunked`, in whatever letters,
/// once; a session is named once; closing and keeping alive exclude each other;
/// content is not encoded; and headers of other names say nothing.
pub proof fn law_headers_say_what_they_name(head: HeadModel, name: Seq<char>, value: Seq<char>)
    ensures
        name == "content-length"@ ==> (http_framing::head_with(head, name, value) is Ok <==> {
            &&& head.content_length is None
            &&& value.len() > 0
            &&& text::all_digits(value)
            &&& text::number_of(value) <= usize::MAX
        }),
        name == "content-length"@ ==> (http_framing::head_with(head, name, value) matches Ok(after)
            ==> after == (HeadModel { content_length: Some(text::number_of(value)), ..head })),
        name == "transfer-encoding"@ ==> (http_framing::head_with(head, name, value) is Ok <==> {
            &&& !head.chunked
            &&& text::lower(text::trimmed(value)) == "chunked"@
            &&& forall|i: int| 0 <= i < value.len() ==> #[trigger] value[i] != ','
        }),
        name == "transfer-encoding"@ ==> (http_framing::head_with(head, name, value) matches Ok(
            after,
        ) ==> after == (HeadModel { chunked: true, ..head })),
        name == "mcp-session-id"@ ==> (http_framing::head_with(head, name, value) is Ok
            <==> head.session_id is None && http_framing::valid_session_token(value)),
        name == "mcp-session-id"@ ==> (http_framing::head_with(head, name, value) matches Ok(after)
            ==> after == (HeadModel { session_id: Some(value), ..head })),
        name == "connection"@ ==> (http_framing::head_with(head, name, value) matches Ok(after)
            ==> {
            &&& after.close == (head.close || text::lists_token(value, ',', "close"@))
            &&& after.keep_alive == (head.keep_alive || text::lists_token(
                value,
                ',',
                "keep-alive"@,
            ))
            &&& !(after.close && after.keep_alive)
            &&& after == (HeadModel { close: after.close, keep_alive: after.keep_alive, ..head })
        }),
        name == "content-encoding"@ ==> (http_framing::head_with(head, name, value) is Ok
            <==> text::lower(text::trimmed(value)) == "identity"@),
        name != "content-length"@ && name != "transfer-encoding"@ && name != "content-type"@ && name
            != "mcp-session-id"@ && name != "connection"@ && name != "content-encoding"@
            ==> http_framing::head_with(head, name, value) == Ok::<HeadModel, HttpFault>(head),
{
    reveal_strlit("content-length");
    reveal_strlit("transfer-encoding");
    reveal_strlit("content-type");
    reveal_strlit("mcp-session-id");
    reveal_strlit("connection");
    reveal_strlit("content-encoding");
    assert("content-length"@.len() == 14 && "mcp-session-id"@.len() == 14);
    assert("transfer-encoding"@.len() == 17 && "content-type"@.len() == 12);
    assert("connection"@.len() == 10 && "content-encoding"@.len() == 16);
    assert("content-length"@[0] == 'c' && "mcp-session-id"@[0] == 'm');
    if value.len() > 0 && text::all_digits(value) {
        text::lemma_bounded_digits(value, usize::MAX as int);
        assert(http_framing::all_digits(value)) by {
            assert forall|i: int| 0 <= i < value.len() implies text::is_decimal_digit(
                #[trigger] value[i],
            ) by {
                assert('0' <= value[i] <= '9');
            }
        }
    }
    if http_framing::all_digits(value) {
        assert(text::all_digits(value)) by {
            assert forall|i: int| 0 <= i < value.len() implies '0' <= #[trigger] value[i]
                <= '9' by {
                assert(text::is_decimal_digit(value[i]));
            }
        }
    }
    if !text::has_char(value, ',') {
        assert forall|i: int| 0 <= i < value.len() implies #[trigger] value[i] != ',' by {}
    }
}

/// Whether a status line names a code: the version, a space, three digits from 100
/// to 599, and a phrase or none.
pub proof fn law_status_lines_are_read(
    version: Seq<char>,
    code: Seq<char>,
    phrase: Option<Seq<char>>,
)
    requires
        version == "HTTP/1.1"@ || version == "HTTP/1.0"@,
        code.len() == 3,
        text::all_digits(code),
        100 <= text::number_of(code) <= 599,
        phrase matches Some(p) ==> forall|i: int|
            0 <= i < p.len() ==> (#[trigger] p[i] as int) == 9 || (p[i] as int >= 0x20 && p[i] as int
                != 0x7f),
    ensures
        ({
            let line = version + seq![' '] + code + match phrase {
                Some(p) => seq![' '] + p,
                None => Seq::empty(),
            };
            http_framing::status_line(encode_utf8(line)) == Ok::<(int, bool), HttpFault>(
                (text::number_of(code), version == "HTTP/1.1"@),
            )
        }),
{
    let tail = match phrase {
        Some(p) => seq![' '] + p,
        None => Seq::empty(),
    };
    let s = version + seq![' '] + code + tail;
    encode_utf8_valid_utf8(s);
    encode_utf8_decode_utf8(s);
    reveal_strlit("HTTP/1.1");
    reveal_strlit("HTTP/1.0");
    assert("HTTP/1.1"@.len() == 8 && "HTTP/1.0"@.len() == 8);
    assert(s[8] == ' ');
    assert forall|i: int| 0 <= i < 8 implies #[trigger] s[i] != ' ' by {
        assert(s[i] == version[i]);
    }
    wire::lemma_space_position(s, ' ', 0, 8);
    assert forall|i: int| 9 <= i < 12 implies #[trigger] s[i] != ' ' by {
        assert(s[i] == code[i - 9]);
        assert('0' <= code[i - 9] <= '9');
    }
    assert(s.take(8) =~= version);
    text::lemma_char_position(s, ' ', 9);
    let second = text::char_position(s, ' ', 9);
    if phrase is Some {
        assert(s[12] == ' ');
        wire::lemma_space_position(s, ' ', 9, 12);
        assert(s.skip(13) =~= phrase->0);
        let p = phrase->0;
        assert forall|i: int| 0 <= i < p.len() implies !http_framing::is_refused_control(
            #[trigger] p[i] as int,
        ) by {
            assert((p[i] as int) == 9 || (p[i] as int >= 0x20 && p[i] as int != 0x7f));
        }
    } else {
        assert(s.len() == 12);
        assert(second == 12);
    }
    assert(s.subrange(9, 12) =~= code);
    assert(http_framing::all_digits(code)) by {
        assert forall|i: int| 0 <= i < code.len() implies text::is_decimal_digit(
            #[trigger] code[i],
        ) by {
            assert('0' <= code[i] <= '9');
        }
    }
    assert(http_framing::code_value(code) == text::number_of(code)) by {
        reveal_with_fuel(text::number_of, 4);
        assert(code.drop_last().last() == code[1]);
        assert(code.drop_last().drop_last().last() == code[0]);
        assert(code.drop_last().drop_last().drop_last().len() == 0);
    }
}

// ---------------------------------------------------------------------------
// Framing
// ---------------------------------------------------------------------------

/// Whether a status never has a body.
pub open spec fn is_bodyless(status: int) -> bool {
    100 <= status < 200 || status == 204 || status == 205 || status == 304
}

/// How a body is framed, in every case: some statuses have none, and say so; an
/// accepted notification may have none; chunks exclude a length; a length counts;
/// and a body without either goes up to the end of the connection, if that is to be
/// closed.
pub proof fn law_framing_is_chosen(head: HeadModel, allow: bool, length: usize)
    requires
        head.content_length matches Some(n) ==> 0 <= n <= usize::MAX,
    ensures
        ({
            let chosen = http_framing::framing_of(head, allow);
            let plain = !is_bodyless(head.status_code);
            let silent = head.content_length is None && !head.chunked;
            let accepted = allow && head.status_code == 202 && silent;
            &&& !plain && !head.chunked && (head.status_code == 304 || head.content_length is None
                || head.content_length == Some(0int)) <==> !plain && chosen == Ok::<
                HttpBodyFraming,
                HttpFault,
            >(HttpBodyFraming::Bodyless)
            &&& plain ==> (chosen == Ok::<HttpBodyFraming, HttpFault>(HttpBodyFraming::Bodyless)
                <==> accepted)
            &&& chosen == Ok::<HttpBodyFraming, HttpFault>(HttpBodyFraming::Chunked) <==> plain
                && head.chunked && head.content_length is None
            &&& chosen == Ok::<HttpBodyFraming, HttpFault>(HttpBodyFraming::ContentLength(length))
                <==> plain && !head.chunked && head.content_length == Some(length as int)
            &&& chosen == Ok::<HttpBodyFraming, HttpFault>(HttpBodyFraming::CloseDelimited)
                <==> plain && silent && !accepted && (head.close || (!head.http_11
                && !head.keep_alive))
        }),
{
}

// ---------------------------------------------------------------------------
// Bodies
// ---------------------------------------------------------------------------

pub open spec fn hex_nibble(byte: u8) -> Option<int> {
    if 0x30 <= byte <= 0x39 {
        Some(byte - 0x30)
    } else if 0x41 <= byte <= 0x46 {
        Some(byte - 0x37)
    } else if 0x61 <= byte <= 0x66 {
        Some(byte - 0x57)
    } else {
        None
    }
}

/// The number that hexadecimal digits, large or small, denote.
pub open spec fn hex_number(digits: Seq<u8>) -> int
    decreases digits.len(),
{
    if digits.len() == 0 {
        0
    } else {
        16 * hex_number(digits.drop_last()) + hex_nibble(digits.last())->0
    }
}

pub open spec fn are_hex_digits(digits: Seq<u8>) -> bool {
    digits.len() > 0 && forall|i: int|
        0 <= i < digits.len() ==> hex_nibble(#[trigger] digits[i]) is Some
}

/// Whether an extension of a chunk can stand behind its size.
pub open spec fn is_extension(extension: Seq<u8>) -> bool {
    &&& extension.len() > 0 ==> extension[0] == 0x3b
    &&& forall|i: int|
        0 <= i < extension.len() ==> #[trigger] extension[i] >= 0x20 && extension[i] != 0x7f
}

proof fn lemma_hex(digits: Seq<u8>)
    requires
        forall|i: int| 0 <= i < digits.len() ==> hex_nibble(#[trigger] digits[i]) is Some,
    ensures
        http_framing::hex_value(digits) == hex_number(digits),
        http_framing::all_hex_bytes(digits),
    decreases digits.len(),
{
    if digits.len() > 0 {
        let front = digits.drop_last();
        assert forall|i: int| 0 <= i < front.len() implies hex_nibble(
            #[trigger] front[i],
        ) is Some by {
            assert(front[i] == digits[i]);
        }
        lemma_hex(front);
        assert(hex_nibble(digits[digits.len() - 1]) is Some);
    }
    assert forall|i: int| 0 <= i < digits.len() implies http_framing::is_hex_byte(
        #[trigger] digits[i],
    ) by {
        assert(hex_nibble(digits[i]) is Some);
    }
}

proof fn lemma_ascii_is_valid(digits: Seq<u8>)
    requires
        forall|i: int| 0 <= i < digits.len() ==> #[trigger] digits[i] < 0x80,
    ensures
        valid_utf8(digits),
{
    let s = Seq::new(digits.len(), |i: int| digits[i] as char);
    assert(is_ascii_chars(s)) by {
        assert forall|i: int| 0 <= i < s.len() implies '\0' <= #[trigger] s[i] <= '\u{7f}' by {
            assert(digits[i] < 0x80);
        }
    }
    is_ascii_chars_encode_utf8(s);
    encode_utf8_valid_utf8(s);
    assert(encode_utf8(s) =~= digits);
}

/// The size of a chunk is the number that its digits denote, large or small,
/// whatever extension stands behind them, as long as the machine can count it.
pub proof fn law_chunk_sizes_are_read(digits: Seq<u8>, extension: Seq<u8>)
    requires
        are_hex_digits(digits),
        is_extension(extension),
    ensures
        http_framing::chunk_size(digits + extension) == if hex_number(digits) <= usize::MAX {
            Ok::<int, HttpFault>(hex_number(digits))
        } else {
            Err(HttpFault::ChunkSizeOverflow)
        },
{
    let line = digits + extension;
    let n = digits.len() as int;
    lemma_hex(digits);
    assert forall|i: int| 0 <= i < digits.len() implies #[trigger] digits[i] < 0x80 by {
        assert(hex_nibble(digits[i]) is Some);
    }
    lemma_ascii_is_valid(digits);
    assert forall|i: int| 0 <= i < n implies #[trigger] line[i] != 0x3b by {
        assert(line[i] == digits[i]);
        assert(hex_nibble(digits[i]) is Some);
    }
    if extension.len() > 0 {
        assert(line[n] == extension[0]);
        wire::lemma_feed_position(line, 0x3b, 0, n);
    } else {
        http_framing::lemma_byte_position(line, 0x3b, 0);
    }
    assert(line.take(n) =~= digits);
    assert forall|i: int| 0 <= i < line.len() implies !(#[trigger] line[i] < 0x20 || line[i]
        == 0x7f) by {
        if i < n {
            assert(line[i] == digits[i]);
            assert(hex_nibble(digits[i]) is Some);
        } else {
            assert(line[i] == extension[i - n]);
        }
    }
}

/// A chunk of a body: the digits of its size, an extension, and its bytes.
pub struct Chunk {
    pub digits: Seq<u8>,
    pub extension: Seq<u8>,
    pub data: Seq<u8>,
}

impl Chunk {
    pub open spec fn wf(self) -> bool {
        &&& are_hex_digits(self.digits)
        &&& is_extension(self.extension)
        &&& hex_number(self.digits) == self.data.len()
        &&& 0 < self.data.len() <= usize::MAX
    }

    pub open spec fn line(self) -> Seq<u8> {
        self.digits + self.extension
    }

    pub open spec fn bytes(self) -> Seq<u8> {
        self.line() + line_end() + self.data + line_end()
    }
}

pub open spec fn chunks_wf(chunks: Seq<Chunk>) -> bool {
    forall|i: int| 0 <= i < chunks.len() ==> (#[trigger] chunks[i]).wf()
}

/// The bytes of chunks, one behind the other.
pub open spec fn chunk_bytes(chunks: Seq<Chunk>) -> Seq<u8>
    decreases chunks.len(),
{
    if chunks.len() == 0 {
        Seq::empty()
    } else {
        chunks[0].bytes() + chunk_bytes(chunks.drop_first())
    }
}

/// What chunks hold, one behind the other.
pub open spec fn chunk_data(chunks: Seq<Chunk>) -> Seq<u8>
    decreases chunks.len(),
{
    if chunks.len() == 0 {
        Seq::empty()
    } else {
        chunks[0].data + chunk_data(chunks.drop_first())
    }
}

/// How many bytes the lines of chunks take.
pub open spec fn chunk_lines(chunks: Seq<Chunk>) -> int
    decreases chunks.len(),
{
    if chunks.len() == 0 {
        0
    } else {
        chunks[0].line().len() + 2 + chunk_lines(chunks.drop_first())
    }
}

proof fn lemma_line_within(chunk: Chunk)
    requires
        are_hex_digits(chunk.digits),
        is_extension(chunk.extension),
    ensures
        within_line(chunk.line()),
{
    let line = chunk.line();
    assert forall|i: int| 0 <= i < line.len() implies #[trigger] line[i] != 10 by {
        if i < chunk.digits.len() {
            assert(line[i] == chunk.digits[i]);
            assert(hex_nibble(chunk.digits[i]) is Some);
        } else {
            assert(line[i] == chunk.extension[i - chunk.digits.len()]);
        }
    }
}

proof fn lemma_lines_count(chunks: Seq<Chunk>)
    ensures
        0 <= chunk_lines(chunks),
    decreases chunks.len(),
{
    if chunks.len() > 0 {
        lemma_lines_count(chunks.drop_first());
    }
}

/// A chunk that fits is taken in.
#[verifier::spinoff_prover]
#[verifier::rlimit(40)]
proof fn lemma_one_chunk(
    before: Seq<u8>,
    c: Chunk,
    tail: Seq<u8>,
    consumed: int,
    ended: bool,
    limit: int,
    body: Seq<u8>,
)
    requires
        c.wf(),
        consumed + c.line().len() + 2 <= HTTP_HEADER_LIMIT_BYTES,
        body.len() + c.data.len() <= limit,
    ensures
        ({
            let b = before + c.bytes() + tail;
            http_framing::chunks_from(b, before.len() as int, consumed, ended, limit, body)
                == http_framing::chunks_from(
                b,
                (before + c.bytes()).len() as int,
                consumed + c.line().len() + 2,
                ended,
                limit,
                body + c.data,
            )
        }),
{
    let b = before + c.bytes() + tail;
    let behind = c.data + line_end() + tail;
    let next = before.len() as int + c.line().len() + 2;
    let size = c.data.len() as int;
    lemma_line_within(c);
    assert(b == before + c.line() + line_end() + behind) by {
        assert(b =~= before + c.line() + line_end() + behind);
    }
    law_lines_are_read(before, c.line(), behind, consumed, ended);
    law_chunk_sizes_are_read(c.digits, c.extension);
    assert(b.subrange(next, next + size) =~= c.data);
    assert(b[next + size] == line_end()[0]);
    assert(b[next + size + 1] == line_end()[1]);
    assert((before + c.bytes()).len() == next + size + 2);
}

/// The chunk of size zero ends the body, with the empty line behind it.
#[verifier::spinoff_prover]
proof fn lemma_last_chunk(
    before: Seq<u8>,
    last: Chunk,
    after: Seq<u8>,
    consumed: int,
    ended: bool,
    limit: int,
    body: Seq<u8>,
)
    requires
        are_hex_digits(last.digits),
        is_extension(last.extension),
        hex_number(last.digits) == 0,
        0 <= consumed,
        consumed + last.line().len() + 4 <= HTTP_HEADER_LIMIT_BYTES,
    ensures
        http_framing::chunks_from(
            before + last.line() + line_end() + line_end() + after,
            before.len() as int,
            consumed,
            ended,
            limit,
            body,
        ) == Progress::Ready(
            (body, false, (before + last.line() + line_end() + line_end()).len() as int),
        ),
{
    let b = before + last.line() + line_end() + line_end() + after;
    let none = Seq::<u8>::empty();
    let front = before + last.line() + line_end();
    lemma_line_within(last);
    assert(b == before + last.line() + line_end() + (line_end() + after)) by {
        assert(b =~= before + last.line() + line_end() + (line_end() + after));
    }
    law_lines_are_read(before, last.line(), line_end() + after, consumed, ended);
    law_chunk_sizes_are_read(last.digits, last.extension);
    assert(b == front + none + line_end() + after) by {
        assert(b =~= front + none + line_end() + after);
    }
    law_lines_are_read(front, none, after, consumed + last.line().len() + 2, ended);
}

#[verifier::spinoff_prover]
#[verifier::rlimit(40)]
proof fn lemma_chunks_read(
    before: Seq<u8>,
    chunks: Seq<Chunk>,
    last: Chunk,
    after: Seq<u8>,
    consumed: int,
    ended: bool,
    limit: int,
    body: Seq<u8>,
)
    requires
        chunks_wf(chunks),
        are_hex_digits(last.digits),
        is_extension(last.extension),
        hex_number(last.digits) == 0,
        0 <= consumed,
        consumed + chunk_lines(chunks) + last.line().len() + 4 <= HTTP_HEADER_LIMIT_BYTES,
        body.len() + chunk_data(chunks).len() <= limit,
    ensures
        ({
            let whole = chunk_bytes(chunks) + last.line() + line_end() + line_end();
            http_framing::chunks_from(
                before + whole + after,
                before.len() as int,
                consumed,
                ended,
                limit,
                body,
            ) == Progress::Ready(
                (body + chunk_data(chunks), false, (before.len() + whole.len()) as int),
            )
        }),
    decreases chunks.len(),
{
    let whole = chunk_bytes(chunks) + last.line() + line_end() + line_end();
    let b = before + whole + after;
    if chunks.len() == 0 {
        assert(b =~= before + last.line() + line_end() + line_end() + after);
        lemma_last_chunk(before, last, after, consumed, ended, limit, body);
        assert(body + chunk_data(chunks) =~= body);
    } else {
        let c = chunks[0];
        let rest = chunks.drop_first();
        let inner = chunk_bytes(rest) + last.line() + line_end() + line_end();
        let front = before + c.bytes();
        assert(c.wf());
        assert(chunks_wf(rest)) by {
            assert forall|i: int| 0 <= i < rest.len() implies (#[trigger] rest[i]).wf() by {
                assert(chunks[i + 1].wf());
            }
        }
        lemma_lines_count(rest);
        assert(b == front + (inner + after)) by {
            assert(b =~= front + (inner + after));
        }
        lemma_one_chunk(before, c, inner + after, consumed, ended, limit, body);
        assert(front + (inner + after) =~= front + inner + after);
        assert(body + c.data + chunk_data(rest) =~= body + chunk_data(chunks));
        lemma_chunks_read(
            front,
            rest,
            last,
            after,
            consumed + c.line().len() + 2,
            ended,
            limit,
            body + c.data,
        );
        assert(front.len() + inner.len() == before.len() + whole.len());
    }
}

/// A body in chunks is read as what the chunks hold, one behind the other, whatever
/// their sizes and extensions, up to the chunk of size zero and the empty line
/// behind it.
pub proof fn law_chunked_bodies_are_read(
    before: Seq<u8>,
    chunks: Seq<Chunk>,
    last: Chunk,
    after: Seq<u8>,
    ended: bool,
    limit: int,
)
    requires
        chunks_wf(chunks),
        are_hex_digits(last.digits),
        is_extension(last.extension),
        hex_number(last.digits) == 0,
        chunk_lines(chunks) + last.line().len() + 4 <= HTTP_HEADER_LIMIT_BYTES,
        chunk_data(chunks).len() <= limit,
    ensures
        ({
            let whole = chunk_bytes(chunks) + last.line() + line_end() + line_end();
            http_framing::body_at(
                before + whole + after,
                before.len() as int,
                ended,
                HttpBodyFraming::Chunked,
                limit,
            ) == Progress::Ready(
                (chunk_data(chunks), false, (before.len() + whole.len()) as int),
            )
        }),
{
    lemma_chunks_read(before, chunks, last, after, 0, ended, limit, Seq::empty());
    assert(Seq::<u8>::empty() + chunk_data(chunks) =~= chunk_data(chunks));
}

/// A chunk that does not fit any more cuts the body off before it.
pub proof fn law_long_chunks_cut_the_body(
    before: Seq<u8>,
    chunk: Chunk,
    after: Seq<u8>,
    consumed: int,
    ended: bool,
    limit: int,
    body: Seq<u8>,
)
    requires
        are_hex_digits(chunk.digits),
        is_extension(chunk.extension),
        0 < hex_number(chunk.digits) <= usize::MAX,
        body.len() + hex_number(chunk.digits) > limit,
        consumed + chunk.line().len() + 2 <= HTTP_HEADER_LIMIT_BYTES,
    ensures
        http_framing::chunks_from(
            before + chunk.line() + line_end() + after,
            before.len() as int,
            consumed,
            ended,
            limit,
            body,
        ) matches Progress::Ready((read, cut, _)) && read == body && cut,
{
    lemma_line_within(chunk);
    law_lines_are_read(before, chunk.line(), after, consumed, ended);
    law_chunk_sizes_are_read(chunk.digits, chunk.extension);
}

/// A body of a declared length is the next so many bytes; one longer than the limit
/// is not read at all; and one that has not come whole is waited for.
pub proof fn law_counted_bodies_are_read(
    before: Seq<u8>,
    body: Seq<u8>,
    after: Seq<u8>,
    length: usize,
    ended: bool,
    limit: int,
)
    ensures
        ({
            let counted = HttpBodyFraming::ContentLength(length);
            let at = before.len() as int;
            &&& length <= limit && body.len() == length ==> http_framing::body_at(
                before + body + after,
                at,
                ended,
                counted,
                limit,
            ) == Progress::Ready((body, false, at + length))
            &&& length > limit ==> http_framing::body_at(before + body, at, ended, counted, limit)
                == Progress::Ready((Seq::<u8>::empty(), true, at))
            &&& length <= limit && body.len() < length ==> http_framing::body_at(
                before + body,
                at,
                ended,
                counted,
                limit,
            ) == if ended {
                Progress::<(Seq<u8>, bool, int)>::Fail(HttpFault::BodyIncomplete)
            } else {
                Progress::Wait
            }
        }),
{
    let at = before.len() as int;
    if body.len() == length {
        assert((before + body + after).subrange(at, at + length) =~= body);
    }
}

/// A body that goes up to the end of the connection is all that comes until then,
/// cut at the limit.
pub proof fn law_closed_bodies_are_read(before: Seq<u8>, body: Seq<u8>, ended: bool, limit: int)
    requires
        0 <= limit,
    ensures
        ({
            let at = before.len() as int;
            let closed = HttpBodyFraming::CloseDelimited;
            http_framing::body_at(before + body, at, ended, closed, limit) == if body.len()
                > limit {
                Progress::Ready((body.take(limit), true, at + limit))
            } else if ended {
                Progress::Ready((body, false, at + body.len()))
            } else {
                Progress::Wait
            }
        }),
{
    let b = before + body;
    let at = before.len() as int;
    if body.len() > limit {
        assert(b.subrange(at, at + limit) =~= body.take(limit));
    } else {
        assert(b.skip(at) =~= body);
    }
}

// ---------------------------------------------------------------------------
// Responses
// ---------------------------------------------------------------------------

/// The text of a status line.
pub open spec fn status_text(version: Seq<char>, code: Seq<char>, phrase: Seq<char>) -> Seq<char> {
    version + seq![' '] + code + (seq![' '] + phrase)
}

/// The bytes of a response up to its body.
pub open spec fn head_bytes(status: Seq<char>, headers: Headers) -> Seq<u8> {
    encode_utf8(status) + line_end() + encode_utf8(wire::header_lines(headers)) + line_end()
}

/// A response is read as what its status line and its headers say, with the body
/// that they frame, whatever code, phrase and headers these are; one that only
/// informs is another matter.
#[verifier::spinoff_prover]
#[verifier::rlimit(40)]
pub proof fn law_responses_are_read(
    version: Seq<char>,
    code: Seq<char>,
    phrase: Seq<char>,
    headers: Headers,
    head: HeadModel,
    framing: HttpBodyFraming,
    after: Seq<u8>,
    ended: bool,
    limit: int,
    allow: bool,
)
    requires
        version == "HTTP/1.1"@ || version == "HTTP/1.0"@,
        code.len() == 3,
        text::all_digits(code),
        200 <= text::number_of(code) <= 599,
        wire::is_line_text(phrase),
        wire::are_written_headers(headers),
        head_bytes(status_text(version, code, phrase), headers).len() <= HTTP_HEADER_LIMIT_BYTES,
        wire::head_with_all(
            http_framing::fresh_head(text::number_of(code), version == "HTTP/1.1"@),
            headers,
        ) == Ok::<HeadModel, HttpFault>(head),
        http_framing::framing_of(head, allow) == Ok::<HttpBodyFraming, HttpFault>(framing),
        head.status_code == text::number_of(code),
        limit > 0,
    ensures
        ({
            let written = head_bytes(status_text(version, code, phrase), headers);
            let b = written + after;
            http_framing::response_of(b, ended, limit, allow) == (match http_framing::body_at(
                b,
                written.len() as int,
                ended,
                framing,
                limit,
            ) {
                Progress::Ready((body, cut, _)) => Progress::Ready(
                    ResponseModel {
                        status_code: text::number_of(code),
                        content_type: head.content_type,
                        body,
                        body_truncated: cut,
                        session_id: head.session_id,
                    },
                ),
                Progress::Wait => Progress::Wait,
                Progress::Fail(fault) => Progress::Fail(fault),
            })
        }),
{
    let status = status_text(version, code, phrase);
    let written = head_bytes(status, headers);
    let b = written + after;
    let none = Seq::<u8>::empty();
    let lines = encode_utf8(wire::header_lines(headers));
    assert(wire::is_line_text(status)) by {
        lemma_status_is_a_line(version, code, phrase);
    }
    wire::lemma_line_bytes(status);
    assert forall|i: int| 0 <= i < phrase.len() implies (#[trigger] phrase[i] as int) == 9 || (
    phrase[i] as int >= 0x20 && phrase[i] as int != 0x7f) by {
        assert(' ' <= phrase[i] <= '~' || phrase[i] == '\t');
    }
    law_status_lines_are_read(version, code, Some(phrase));
    let tail = lines + line_end() + after;
    assert(b == none + encode_utf8(status) + wire::line_end() + tail) by {
        assert(b =~= none + encode_utf8(status) + wire::line_end() + tail);
    }
    wire::lemma_line_is_read(none, status, tail, 0, ended);
    let front = encode_utf8(status) + line_end();
    assert(b == front + lines + wire::line_end() + after) by {
        assert(b =~= front + lines + wire::line_end() + after);
    }
    wire::lemma_headers_are_read(
        front,
        headers,
        after,
        status.len() as int + 2,
        ended,
        http_framing::fresh_head(text::number_of(code), version == "HTTP/1.1"@),
    );
}

proof fn lemma_status_is_a_line(version: Seq<char>, code: Seq<char>, phrase: Seq<char>)
    requires
        version == "HTTP/1.1"@ || version == "HTTP/1.0"@,
        text::all_digits(code),
        wire::is_line_text(phrase),
    ensures
        wire::is_line_text(status_text(version, code, phrase)),
{
    reveal_strlit("HTTP/1.1");
    reveal_strlit("HTTP/1.0");
    let s = status_text(version, code, phrase);
    let n = version.len() as int;
    let m = n + 1 + code.len();
    assert forall|i: int| 0 <= i < s.len() implies ' ' <= #[trigger] s[i] <= '~' || s[i]
        == '\t' by {
        if i < n {
            assert(s[i] == version[i]);
        } else if n < i < m {
            assert(s[i] == code[i - n - 1]);
            assert('0' <= code[i - n - 1] <= '9');
        } else if i > m {
            assert(s[i] == phrase[i - m - 1]);
        }
    }
}

/// A type is read by its name, in small letters, whatever parameters and blanks
/// stand behind and around it.
pub proof fn law_types_are_read_by_name(a: Seq<char>, name: Seq<char>, b: Seq<char>, rest: Option<Seq<char>>)
    requires
        text::all_whitespace(a),
        text::all_whitespace(b),
        name.len() > 0,
        !text::is_whitespace(name[0]),
        !text::is_whitespace(name.last()),
        text::has_char(name, '/'),
        forall|i: int|
            0 <= i < name.len() ==> #[trigger] name[i] != ';' && (name[i] as u32) >= 0x20 && name[i]
                != '\u{7f}',
    ensures
        http_framing::media_type_value(
            a + name + b + match rest {
                Some(parameters) => seq![';'] + parameters,
                None => Seq::empty(),
            },
        ) == Ok::<Seq<char>, HttpFault>(text::lower(name)),
{
    let first = a + name + b;
    let tail = match rest {
        Some(parameters) => seq![';'] + parameters,
        None => Seq::empty(),
    };
    let value = first + tail;
    assert forall|i: int| 0 <= i < first.len() implies #[trigger] first[i] != ';' by {
        if i < a.len() {
            assert(first[i] == a[i]);
            assert(text::is_whitespace(a[i]));
        } else if i < a.len() + name.len() {
            assert(first[i] == name[i - a.len()]);
        } else {
            assert(first[i] == b[i - a.len() - name.len()]);
            assert(text::is_whitespace(b[i - a.len() - name.len()]));
        }
    }
    text::lemma_char_position(value, ';', 0);
    let end = text::char_position(value, ';', 0);
    if rest is Some {
        assert(value[first.len() as int] == ';');
        wire::lemma_space_position(value, ';', 0, first.len() as int);
    } else {
        assert(value =~= first);
    }
    if end < value.len() {
        assert(rest is Some);
    }
    assert(text::split(value, ';')[0] =~= first);
    text::law_trimming_cuts_whitespace(a, name, b);
    assert forall|i: int| 0 <= i < name.len() implies !((#[trigger] name[i] as u32) < 0x20
        || name[i] == '\u{7f}') by {}
}

// ---------------------------------------------------------------------------
// Replies
// ---------------------------------------------------------------------------

/// A response carries a reply exactly if its status is a success, its body is JSON
/// by its type, whole, not empty, UTF-8 and within the limit; the reply is the text
/// of the body.
pub proof fn law_replies_are_taken(response: ResponseModel, id: u64, limit: usize, reply: Seq<char>)
    ensures
        http_reply::exchange_text(response, id, limit) == Ok::<Seq<char>, crate::error::ErrorModel>(
            reply,
        ) <==> {
            &&& 200 <= response.status_code <= 299
            &&& response.content_type == Some("application/json"@)
            &&& !response.body_truncated
            &&& response.body.len() > 0
            &&& valid_utf8(response.body)
            &&& reply == decode_utf8(response.body)
            &&& encode_utf8(reply).len() <= limit
        },
{
}

/// A response with another status than a success is reported with that status,
/// whatever else it holds.
pub proof fn law_bad_statuses_are_reported(response: ResponseModel, id: u64, limit: usize)
    requires
        !(200 <= response.status_code <= 299),
    ensures
        http_reply::exchange_text(response, id, limit) matches Err(error) && error.provider_code
            == Some("mcp_http_status"@) && error.context.contains(
            ("status_code"@, text::decimal(response.status_code as nat)),
        ),
{
    let error = http_reply::status_error(id, response.status_code);
    let n = error.context.len() as int;
    assert(error.context[n - 1] == ("status_code"@, text::decimal(response.status_code as nat)));
}

/// A stream is opened exactly by a response of status 200 whose type is that of
/// event streams; a reply is read from a stream exactly if the status is a success
/// and the type is that one.
pub proof fn law_streams_are_opened(response: ResponseModel, id: u64)
    ensures
        http_reply::stream_open_refusal(response) is None <==> response.status_code == 200
            && response.content_type == Some("text/event-stream"@),
        http_reply::stream_reply_refusal(response.status_code, response.content_type, id) is None
            <==> 200 <= response.status_code <= 299 && response.content_type == Some(
            "text/event-stream"@,
        ),
{
}

/// A notification is accepted exactly by a response of status 202 without a body.
pub proof fn law_notifications_are_accepted(response: ResponseModel, limit: usize)
    ensures
        http_reply::notification_refusal(response, limit) is None <==> response.status_code == 202
            && !response.body_truncated && response.body.len() == 0,
{
}

// ---------------------------------------------------------------------------
// Trailers and informational heads
// ---------------------------------------------------------------------------

/// The names that may not stand behind a body.
pub open spec fn names_barred_from_trailers() -> Seq<Seq<char>> {
    seq![
        "connection"@,
        "content-encoding"@,
        "content-length"@,
        "content-type"@,
        "host"@,
        "proxy-authenticate"@,
        "proxy-authorization"@,
        "te"@,
        "trailer"@,
        "transfer-encoding"@,
        "upgrade"@,
    ]
}

/// A trailer is taken exactly if it is a header whose name may stand behind a body.
pub proof fn law_trailers_that_are_taken(line: Seq<u8>)
    ensures
        http_framing::trailer_fault(line) is None <==> (http_framing::header_line(line) matches Ok(
            (name, _),
        ) && !names_barred_from_trailers().contains(name)),
{
    if http_framing::header_line(line) is Ok {
        let (name, _) = http_framing::header_line(line)->Ok_0;
        let names = names_barred_from_trailers();
        assert(names[0] == "connection"@ && names[1] == "content-encoding"@ && names[2]
            == "content-length"@ && names[3] == "content-type"@ && names[4] == "host"@ && names[5]
            == "proxy-authenticate"@ && names[6] == "proxy-authorization"@ && names[7] == "te"@
            && names[8] == "trailer"@ && names[9] == "transfer-encoding"@ && names[10]
            == "upgrade"@);
        if names.contains(name) {
            let i = choose|i: int| 0 <= i < names.len() && names[i] == name;
            assert(http_framing::is_forbidden_trailer(name));
        }
    }
}

/// A trailer that is taken is passed over, and one that is not ends the reading.
pub proof fn law_trailers_are_passed_over(
    before: Seq<u8>,
    line: Seq<char>,
    after: Seq<u8>,
    consumed: int,
    ended: bool,
)
    requires
        wire::is_line_text(line),
        line.len() > 0,
        0 <= consumed,
        consumed + line.len() + 2 <= HTTP_HEADER_LIMIT_BYTES,
    ensures
        ({
            let b = before + encode_utf8(line) + wire::line_end() + after;
            let at = before.len() as int;
            let read = http_framing::trailers_from(b, at, consumed, ended);
            if http_framing::trailer_fault(encode_utf8(line)) is None {
                read == http_framing::trailers_from(
                    b,
                    at + line.len() + 2,
                    consumed + line.len() + 2,
                    ended,
                )
            } else {
                read is Fail
            }
        }),
{
    wire::lemma_line_is_read(before, line, after, consumed, ended);
}

/// An empty line ends the trailers.
pub proof fn law_empty_lines_end_trailers(
    before: Seq<u8>,
    after: Seq<u8>,
    consumed: int,
    ended: bool,
)
    requires
        0 <= consumed,
        consumed + 2 <= HTTP_HEADER_LIMIT_BYTES,
    ensures
        http_framing::trailers_from(
            before + wire::line_end() + after,
            before.len() as int,
            consumed,
            ended,
        ) == Progress::Ready(before.len() as int + 2),
{
    let none: Seq<char> = Seq::empty();
    wire::lemma_line_is_read(before, none, after, consumed, ended);
    assert(encode_utf8(none) =~= Seq::<u8>::empty());
    assert(before + encode_utf8(none) + wire::line_end() + after =~= before + wire::line_end()
        + after);
}

/// A head that only informs is passed over: any code from 100 to 199 but the one that
/// changes the protocol, as long as it frames no body and not too many came before.
/// What is told in the end is never such a head.
pub proof fn law_informing_heads_are_passed_over(
    b: Seq<u8>,
    at: int,
    ended: bool,
    skipped: int,
    allow: bool,
)
    requires
        0 <= at,
        http_framing::head_at(b, at, ended) is Ready,
        at < (http_framing::head_at(b, at, ended)->Ready_0).1 <= b.len(),
    ensures
        ({
            let (head, next) = http_framing::head_at(b, at, ended)->Ready_0;
            let told = http_framing::final_head(b, at, ended, skipped, allow);
            let informs = 100 <= head.status_code <= 199 && head.status_code != 101;
            if !informs {
                match http_framing::framing_of(head, allow) {
                    Ok(framing) => told == Progress::Ready((head, framing, next)),
                    Err(_) => told is Fail,
                }
            } else if http_framing::framing_of(head, false) == Ok::<HttpBodyFraming, HttpFault>(
                HttpBodyFraming::Bodyless,
            ) && skipped < http_framing::MAX_INFORMATIONAL_RESPONSES {
                told == http_framing::final_head(b, next, ended, skipped + 1, allow)
            } else {
                told is Fail
            }
        }),
{
}

/// A line declares the size of a chunk exactly if it holds no control bytes and has
/// hexadecimal digits of a size that can be held up to its end or the first semicolon.
pub proof fn law_chunk_lines_that_are_taken(digits: Seq<u8>, extension: Seq<u8>)
    requires
        extension.len() == 0 || extension[0] == 0x3b,
        forall|i: int| 0 <= i < digits.len() ==> #[trigger] digits[i] != 0x3b,
    ensures
        http_framing::chunk_size(digits + extension) is Ok ==> {
            &&& digits.len() > 0
            &&& forall|i: int|
                0 <= i < digits.len() ==> (0x30 <= #[trigger] digits[i] <= 0x39 || 0x41
                    <= digits[i] <= 0x46 || 0x61 <= digits[i] <= 0x66)
            &&& forall|i: int|
                0 <= i < extension.len() ==> 0x20 <= #[trigger] extension[i] && extension[i] != 0x7f
            &&& http_framing::hex_value(digits) <= usize::MAX
            &&& http_framing::chunk_size(digits + extension)->Ok_0 == http_framing::hex_value(
                digits,
            )
        },
{
    let line = digits + extension;
    http_framing::lemma_byte_position(line, 0x3b, 0);
    let at = http_framing::byte_position(line, 0x3b, 0);
    assert(at == digits.len()) by {
        if at < digits.len() {
            assert(digits[at] == 0x3b);
        }
        if at > digits.len() {
            assert(line[digits.len() as int] == extension[0]);
        }
    }
    assert(line.take(at) =~= digits);
    if http_framing::chunk_size(line) is Ok {
        assert forall|i: int| 0 <= i < extension.len() implies 0x20 <= #[trigger] extension[i]
            && extension[i] != 0x7f by {
            assert(line[digits.len() + i] == extension[i]);
        }
        assert forall|i: int| 0 <= i < digits.len() implies (0x30 <= #[trigger] digits[i] <= 0x39
            || 0x41 <= digits[i] <= 0x46 || 0x61 <= digits[i] <= 0x66) by {
            assert(http_framing::is_hex_byte(digits[i]));
        }
    }
}

/// A line is a header exactly if it has a name of one or more bytes of names in front
/// of its first colon, and no control bytes but tabs behind it.
pub proof fn law_lines_that_are_headers(name: Seq<u8>, value: Seq<u8>)
    requires
        forall|i: int| 0 <= i < name.len() ==> #[trigger] name[i] != 0x3a,
    ensures
        http_framing::header_line(name + seq![0x3au8] + value) is Ok <==> {
            &&& name.len() > 0
            &&& forall|i: int|
                0 <= i < name.len() ==> crate::request_reading::is_name_byte(#[trigger] name[i])
            &&& forall|i: int|
                0 <= i < value.len() ==> (#[trigger] value[i] == 9 || 0x20 <= value[i]) && value[i]
                    != 0x7f
        },
{
    let line = name + seq![0x3au8] + value;
    http_framing::lemma_byte_position(line, 0x3a, 0);
    let colon = http_framing::byte_position(line, 0x3a, 0);
    assert(line[name.len() as int] == 0x3a);
    assert(colon == name.len()) by {
        if colon < name.len() {
            assert(name[colon] == 0x3a);
        }
    }
    assert(line.take(colon) =~= name);
    assert(line.skip(colon + 1) =~= value);
    if name.len() > 0 {
        assert(line[0] == name[0]);
    }
    assert forall|i: int| 0 <= i < name.len() implies http_framing::is_token_byte(
        #[trigger] name[i],
    ) == crate::request_reading::is_name_byte(name[i]) by {}
    if !http_framing::has_refused_control(value) {
        assert forall|i: int| 0 <= i < value.len() implies (#[trigger] value[i] == 9 || 0x20
            <= value[i]) && value[i] != 0x7f by {
            assert(!http_framing::is_refused_control(value[i] as int));
        }
    } else {
        let i = choose|i: int|
            0 <= i < value.len() && http_framing::is_refused_control(#[trigger] value[i] as int);
        assert(!((value[i] == 9 || 0x20 <= value[i]) && value[i] != 0x7f));
    }
}

/// A line without a colon is no header.
pub proof fn law_lines_without_a_colon(line: Seq<u8>)
    requires
        forall|i: int| 0 <= i < line.len() ==> #[trigger] line[i] != 0x3a,
    ensures
        http_framing::header_line(line) is Err,
{
    http_framing::lemma_byte_position(line, 0x3a, 0);
}

/// A connection header is taken exactly if it does not make the response both close
/// and keep the connection; a type is taken, once, exactly if what stands in front of
/// its parameters is two names with a slash and no control characters.
pub proof fn law_connections_and_types_that_are_taken(head: HeadModel, value: Seq<char>)
    ensures
        http_framing::head_with(head, "connection"@, value) is Ok <==> !((head.close
            || text::lists_token(value, ',', "close"@)) && (head.keep_alive || text::lists_token(
            value,
            ',',
            "keep-alive"@,
        ))),
        ({
            let name = text::trimmed(text::split(value, ';')[0]);
            let taken = http_framing::head_with(head, "content-type"@, value);
            &&& taken is Ok <==> head.content_type is None && text::has_char(name, '/')
                && forall|i: int|
                0 <= i < name.len() ==> (#[trigger] name[i]) as u32 >= 0x20 && name[i] != '\u{7f}'
            &&& taken matches Ok(after) ==> after == (HeadModel {
                content_type: Some(text::lower(name)),
                ..head
            })
        }),
{
    reveal_strlit("content-length");
    reveal_strlit("transfer-encoding");
    reveal_strlit("content-type");
    reveal_strlit("mcp-session-id");
    reveal_strlit("connection");
    reveal_strlit("content-encoding");
    assert("content-length"@.len() == 14 && "mcp-session-id"@.len() == 14);
    assert("transfer-encoding"@.len() == 17 && "content-type"@.len() == 12);
    assert("connection"@.len() == 10 && "content-encoding"@.len() == 16);
    let name = text::trimmed(text::split(value, ';')[0]);
    if http_framing::has_ascii_control(name) {
        let i = choose|i: int|
            0 <= i < name.len() && ((#[trigger] name[i] as u32) < 0x20 || name[i] == '\u{7f}');
        assert(!(name[i] as u32 >= 0x20 && name[i] != '\u{7f}'));
    } else {
        assert forall|i: int| 0 <= i < name.len() implies (#[trigger] name[i]) as u32 >= 0x20
            && name[i] != '\u{7f}' by {}
    }
}

} // verus!

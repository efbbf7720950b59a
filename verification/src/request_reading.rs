//! What a server reads in the requests of HTTP clients, and which of them it admits.

use vstd::prelude::*;
use vstd::utf8::*;
use crate::http_framing;
use crate::json;
use crate::json::Fields;
use crate::server_config;
use crate::server_config::ServerConfigModel;
use crate::server_request;
use crate::server_request::{FailureModel, Reading};
use crate::text;
use crate::wire;

verus! {

// ---------------------------------------------------------------------------
// Accepted types
// ---------------------------------------------------------------------------

/// A quality is read in thousandths: zero and one, with at most three digits behind
/// the point, all of them zero behind a one.
pub proof fn law_qualities_are_read(digits: Seq<char>)
    requires
        digits.len() <= 3,
        text::all_digits(digits),
    ensures
        server_request::quality_value("0"@) == Some(0int),
        server_request::quality_value("1"@) == Some(1000int),
        server_request::quality_value(seq!['0', '.'] + digits) == Some(
            if digits.len() == 0 {
                0
            } else if digits.len() == 1 {
                100 * text::number_of(digits)
            } else if digits.len() == 2 {
                10 * text::number_of(digits)
            } else {
                text::number_of(digits)
            },
        ),
        server_request::quality_value(seq!['1', '.'] + digits) == if text::number_of(digits) == 0 {
            Some(1000int)
        } else {
            None
        },
{
    reveal_strlit("0");
    reveal_strlit("1");
    assert("0"@ =~= seq!['0'] && "1"@ =~= seq!['1']);
    assert("0"@[0] != "1"@[0]);
    let zero = seq!['0', '.'] + digits;
    let one = seq!['1', '.'] + digits;
    wire::lemma_space_position(zero, '.', 0, 1);
    wire::lemma_space_position(one, '.', 0, 1);
    assert(zero.subrange(0, 1) =~= seq!['0']);
    assert(one.subrange(0, 1) =~= seq!['1']);
    assert(zero.subrange(2, zero.len() as int) =~= digits);
    assert(one.subrange(2, one.len() as int) =~= digits);
    assert(http_framing::all_digits(digits)) by {
        assert forall|i: int| 0 <= i < digits.len() implies text::is_decimal_digit(
            #[trigger] digits[i],
        ) by {
            assert('0' <= digits[i] <= '9');
        }
    }
    reveal_with_fuel(text::number_of, 4);
    if digits.len() >= 1 {
        assert('0' <= digits[0] <= '9');
    }
    if digits.len() >= 2 {
        assert('0' <= digits[1] <= '9');
        assert(digits.drop_last().last() == digits[digits.len() - 2]);
    }
    if digits.len() >= 3 {
        assert('0' <= digits[2] <= '9');
        assert(digits.drop_last().drop_last().last() == digits[0]);
    }
    if text::number_of(digits) == 0 {
        assert forall|i: int| 0 <= i < digits.len() implies #[trigger] digits[i] == '0' by {
            assert(i == 0 || i == 1 || i == 2);
        }
    } else {
        assert(exists|i: int| 0 <= i < digits.len() && #[trigger] digits[i] != '0') by {
            if forall|i: int| 0 <= i < digits.len() ==> #[trigger] digits[i] == '0' {
                if digits.len() >= 1 {
                    assert(digits[0] == '0');
                }
                if digits.len() >= 2 {
                    assert(digits[1] == '0');
                }
                if digits.len() >= 3 {
                    assert(digits[2] == '0');
                }
            }
        }
    }
}

/// How closely an entry names JSON: 2 exactly, 1 by its main type, 0 by everything.
pub open spec fn closeness(entry: Seq<char>) -> Option<int> {
    let media = text::trimmed(text::split(entry, ';')[0]);
    if text::lower(media) == "application/json"@ {
        Some(2)
    } else if text::lower(media) == "application/*"@ {
        Some(1)
    } else if media == "*/*"@ {
        Some(0)
    } else {
        None
    }
}

/// Whether no parameter of an entry is a quality.
pub open spec fn says_no_quality(entry: Seq<char>) -> bool {
    forall|i: int|
        1 <= i < text::split(entry, ';').len() ==> server_request::parameter_quality(
            #[trigger] text::split(entry, ';')[i],
        ) is None
}

proof fn lemma_no_quality(parts: Seq<Seq<char>>, at: int)
    requires
        forall|i: int|
            at <= i < parts.len() ==> server_request::parameter_quality(#[trigger] parts[i]) is None,
        0 <= at,
    ensures
        server_request::quality_from(parts, at, None) == Some(1000int),
    decreases parts.len() - at,
{
    if at < parts.len() {
        assert(server_request::parameter_quality(parts[at]) is None);
        lemma_no_quality(parts, at + 1);
    }
}

/// JSON is allowed where it is named without a quality and nothing names it more
/// closely: exactly, by its main type, or by everything.
pub proof fn law_named_types_are_allowed(value: Seq<char>, i: int)
    requires
        0 <= i < text::split(value, ',').len(),
        closeness(text::split(value, ',')[i]) is Some,
        says_no_quality(text::split(value, ',')[i]),
        forall|j: int|
            0 <= j < text::split(value, ',').len() ==> (closeness(
                #[trigger] text::split(value, ',')[j],
            ) matches Some(other) ==> other <= closeness(text::split(value, ',')[i])->0),
    ensures
        server_request::json_accepted(value),
{
    let entries = text::split(value, ',');
    let entry = entries[i];
    lemma_no_quality(text::split(entry, ';'), 1);
    assert(server_request::entry_rank(entry) == Some((closeness(entry)->0, 1000int)));
    assert forall|j: int| 0 <= j < entries.len() implies (server_request::entry_rank(
        #[trigger] entries[j],
    ) matches Some(other) ==> other.0 <= closeness(entry)->0) by {
        assert(closeness(entries[j]) matches Some(other) ==> other <= closeness(entry)->0);
    }
    assert(server_request::is_closest(entries, entries.len() as int, closeness(entry)->0));
}

/// JSON is not allowed where nothing names it, nor where what names it most closely
/// has a quality of zero.
pub proof fn law_refused_types_are_not_allowed(value: Seq<char>, closest: int)
    requires
        forall|j: int|
            0 <= j < text::split(value, ',').len() ==> (server_request::entry_rank(
                #[trigger] text::split(value, ',')[j],
            ) matches Some(rank) ==> rank.1 == 0 || rank.0 < closest),
        closest >= 0,
        closest == 0 || exists|j: int|
            0 <= j < text::split(value, ',').len() && (server_request::entry_rank(
                #[trigger] text::split(value, ',')[j],
            ) matches Some(rank) && rank.0 == closest),
    ensures
        !server_request::json_accepted(value),
{
    let entries = text::split(value, ',');
    assert forall|j: int| 0 <= j < entries.len() implies (server_request::entry_rank(
        #[trigger] entries[j],
    ) matches Some(rank) ==> 0 <= rank.0) by {}
    if server_request::json_accepted(value) {
        let i = choose|i: int|
            0 <= i < entries.len() && (server_request::entry_rank(
                #[trigger] entries[i],
            ) matches Some(rank) && rank.1 > 0 && server_request::is_closest(
                entries,
                entries.len() as int,
                rank.0,
            ));
        let rank = server_request::entry_rank(entries[i])->0;
        if closest > 0 {
            let j = choose|j: int|
                0 <= j < entries.len() && (server_request::entry_rank(
                    #[trigger] entries[j],
                ) matches Some(r) && r.0 == closest);
            let found = server_request::entry_rank(entries[j])->0;
            assert(found.0 <= rank.0);
        }
    }
}

/// A type counts as JSON exactly if it is named so, in whatever letters, and every
/// parameter says that it is UTF-8.
pub proof fn law_json_types(name: Seq<char>, parameters: Option<Seq<char>>)
    requires
        !text::has_char(name, ';'),
        parameters matches Some(p) ==> !text::has_char(p, ';'),
    ensures
        server_request::is_json_type(
            name + match parameters {
                Some(p) => seq![';'] + p,
                None => Seq::empty(),
            },
        ) <==> {
            &&& text::lower(text::trimmed(name)) == "application/json"@
            &&& parameters matches Some(p) ==> text::lower(text::trimmed(p)) == "charset=utf-8"@
                || text::lower(text::trimmed(p)) == "charset=\"utf-8\""@
        },
{
    let tail = match parameters {
        Some(p) => seq![';'] + p,
        None => Seq::empty(),
    };
    let value = name + tail;
    let n = name.len() as int;
    assert forall|i: int| 0 <= i < n implies #[trigger] value[i] != ';' by {
        assert(value[i] == name[i]);
    }
    text::lemma_char_position(value, ';', 0);
    match parameters {
        Some(p) => {
            assert(value[n] == ';');
            wire::lemma_space_position(value, ';', 0, n);
            text::lemma_char_position(value, ';', n + 1);
            let second = text::char_position(value, ';', n + 1);
            if second < value.len() {
                assert(p[second - n - 1] == ';');
            }
            assert(value.subrange(0, n) =~= name);
            assert(value.subrange(n + 1, value.len() as int) =~= p);
            assert(text::parts_from(value, ';', n + 1) =~= seq![p]);
            let parts = text::split(value, ';');
            assert(parts =~= seq![name, p]);
            assert(parts[1] == p);
        },
        None => {
            let at = text::char_position(value, ';', 0);
            if at < value.len() {
                assert(name[at] == ';');
            }
            assert(value.subrange(0, value.len() as int) =~= name);
            assert(text::split(value, ';') =~= seq![name]);
        },
    }
}

// ---------------------------------------------------------------------------
// Lines
// ---------------------------------------------------------------------------

/// A request line is read as its method and target: capitals, a space, visible
/// characters, a space, and the version.
pub proof fn law_request_lines_are_read(method: Seq<char>, target: Seq<char>)
    requires
        method.len() > 0,
        forall|i: int| 0 <= i < method.len() ==> 'A' <= #[trigger] method[i] <= 'Z',
        target.len() > 0,
        forall|i: int| 0 <= i < target.len() ==> '!' <= #[trigger] target[i] <= '~',
    ensures
        server_request::request_line(
            encode_utf8(method + seq![' '] + target + seq![' '] + "HTTP/1.1"@),
        ) == Ok::<(Seq<char>, Seq<char>), FailureModel>((method, target)),
{
    let version = "HTTP/1.1"@;
    reveal_strlit("HTTP/1.1");
    assert(version.len() == 8);
    let s = method + seq![' '] + target + seq![' '] + version;
    encode_utf8_valid_utf8(s);
    encode_utf8_decode_utf8(s);
    let m = method.len() as int;
    let t = m + 1 + target.len();
    assert forall|i: int| 0 <= i < m implies #[trigger] s[i] != ' ' by {
        assert(s[i] == method[i]);
    }
    assert forall|i: int| m + 1 <= i < t implies #[trigger] s[i] != ' ' by {
        assert(s[i] == target[i - m - 1]);
    }
    assert forall|i: int| t + 1 <= i < s.len() implies #[trigger] s[i] != ' ' by {
        assert(s[i] == version[i - t - 1]);
    }
    assert(s[m] == ' ' && s[t] == ' ');
    wire::lemma_space_position(s, ' ', 0, m);
    wire::lemma_space_position(s, ' ', m + 1, t);
    text::lemma_char_position(s, ' ', t + 1);
    let third = text::char_position(s, ' ', t + 1);
    assert(s.subrange(0, m) =~= method);
    assert(s.subrange(m + 1, t) =~= target);
    assert(s.subrange(t + 1, s.len() as int) =~= version);
    assert(text::parts_from(s, ' ', t + 1) =~= seq![version]);
    assert(text::parts_from(s, ' ', m + 1) =~= seq![target, version]);
    assert(text::split(s, ' ') =~= seq![method, target, version]);
    assert forall|i: int| 0 <= i < target.len() implies server_config::is_visible(
        #[trigger] target[i],
    ) by {
        assert('!' <= target[i] <= '~');
    }
}

/// A line of a request is read up to its end, as long as all lines keep the limit;
/// it is waited for until it is complete; and one that a feed without a return ends
/// is refused.
pub proof fn law_request_lines_end(before: Seq<u8>, line: Seq<u8>, after: Seq<u8>, ended: bool, limit: int)
    requires
        forall|i: int| 0 <= i < line.len() ==> #[trigger] line[i] != 10,
        before.len() < limit,
    ensures
        ({
            let at = before.len() as int;
            let whole = before + line + seq![13u8, 10u8] + after;
            let end = at + line.len();
            &&& end + 2 <= limit ==> server_request::crlf_line(whole, at, ended, limit)
                == Reading::<(int, int), FailureModel>::Ready((end, end + 2))
            &&& end + 2 > limit ==> server_request::crlf_line(whole, at, ended, limit)
                == Reading::<(int, int), FailureModel>::Fail(server_request::headers_too_large())
            &&& end <= limit ==> server_request::crlf_line(before + line, at, false, limit)
                == Reading::<(int, int), FailureModel>::Wait
            &&& whole.subrange(at, end) == line
        }),
{
    let at = before.len() as int;
    let whole = before + line + seq![13u8, 10u8] + after;
    let end = at + line.len();
    assert(whole[end] == 13 && whole[end + 1] == 10);
    assert forall|i: int| at <= i < end + 1 implies #[trigger] whole[i] != 10 by {
        if i < end {
            assert(whole[i] == line[i - at]);
        }
    }
    wire::lemma_feed_position(whole, 10, at, end + 1);
    assert(whole.subrange(at, end) =~= line);
    let open = before + line;
    http_framing::lemma_byte_position(open, 10, at);
    let feed = http_framing::byte_position(open, 10, at);
    if feed < open.len() {
        assert(open[feed] == line[feed - at]);
    }
}

// ---------------------------------------------------------------------------
// Heads
// ---------------------------------------------------------------------------

/// The length that is declared: digits, or none.
pub open spec fn declares(headers: Fields, length: int) -> bool {
    match json::lookup(headers, "content-length"@) {
        None => length == 0,
        Some(value) => value.len() > 0 && text::all_digits(value) && text::number_of(value)
            == length && length <= usize::MAX,
    }
}

/// The head of a request is admitted exactly if it names the server, asks for its
/// path, comes from no origin or an allowed one, uses no framing but a length within
/// the limit, and is a message in JSON that wants JSON, with a length, or a deletion
/// without a body.
pub proof fn law_heads_that_are_admitted(
    method: Seq<char>,
    target: Seq<char>,
    headers: Fields,
    config: ServerConfigModel,
    host: Seq<char>,
    length: int,
)
    ensures
        server_request::body_length(method, target, headers, config, host) == Ok::<
            int,
            FailureModel,
        >(length) <==> {
            &&& declares(headers, length)
            &&& length <= config.request_limit_bytes
            &&& target == config.path
            &&& json::lookup(headers, "host"@) == Some(host)
            &&& json::lookup(headers, "origin"@) is None || config.allowed_origins.contains(
                json::lookup(headers, "origin"@)->0,
            )
            &&& json::lookup(headers, "transfer-encoding"@) is None
            &&& json::lookup(headers, "content-encoding"@) is None
            &&& json::lookup(headers, "expect"@) is None
            &&& json::lookup(headers, "proxy-connection"@) is None
            &&& json::lookup(headers, "te"@) is None
            &&& json::lookup(headers, "trailer"@) is None
            &&& json::lookup(headers, "upgrade"@) is None
            &&& {
                ||| method == "DELETE"@ && length == 0
                ||| {
                    &&& method == "POST"@
                    &&& json::lookup(headers, "content-length"@) is Some
                    &&& json::lookup(headers, "content-type"@) is Some
                    &&& server_request::is_json_type(json::lookup(headers, "content-type"@)->0)
                    &&& json::lookup(headers, "accept"@) is Some
                    &&& server_request::json_accepted(json::lookup(headers, "accept"@)->0)
                }
            }
        },
{
    reveal_strlit("POST");
    reveal_strlit("DELETE");
    assert("POST"@.len() == 4 && "DELETE"@.len() == 6);
    if json::lookup(headers, "content-length"@) is Some {
        let value = json::lookup(headers, "content-length"@)->0;
        lemma_length(value);
    }
}

proof fn lemma_length(value: Seq<char>)
    ensures
        http_framing::content_length_value(value) is Ok <==> value.len() > 0 && text::all_digits(
            value,
        ) && text::number_of(value) <= usize::MAX,
        http_framing::content_length_value(value) matches Ok(n) ==> n == text::number_of(value),
{
    if value.len() > 0 && text::all_digits(value) {
        text::lemma_bounded_digits(value, usize::MAX as int);
        assert(http_framing::all_digits(value)) by {
            assert forall|i: int| 0 <= i < value.len() implies text::is_decimal_digit(
                #[trigger] value[i],
            ) by {
                assert('0' <= value[i] <= '9');
            }
        }
    }
    if http_framing::all_digits(value) {
        assert(text::all_digits(value)) by {
            assert forall|i: int| 0 <= i < value.len() implies '0' <= #[trigger] value[i]
                <= '9' by {
                assert(text::is_decimal_digit(value[i]));
            }
        }
    }
}

/// The body of a request is the next so many bytes, as text.
pub proof fn law_request_bodies_are_read(before: Seq<u8>, body: Seq<char>, after: Seq<u8>, ended: bool)
    ensures
        server_request::request_body(
            before + encode_utf8(body) + after,
            before.len() as int,
            encode_utf8(body).len() as int,
            ended,
        ) == Reading::<Seq<char>, FailureModel>::Ready(body),
{
    let b = encode_utf8(body);
    let at = before.len() as int;
    encode_utf8_valid_utf8(body);
    encode_utf8_decode_utf8(body);
    assert((before + b + after).subrange(at, at + b.len()) =~= b);
}

// ---------------------------------------------------------------------------
// Configurations
// ---------------------------------------------------------------------------

/// A configuration is taken exactly if its path is exact and every bound lies in
/// its range.
pub proof fn law_configurations_that_are_taken(config: ServerConfigModel)
    ensures
        server_config::server_config_refusal(config) is None <==> {
            &&& server_config::is_exact_path(config.path)
            &&& 512 <= config.header_limit_bytes <= 16_777_216
            &&& 1 <= config.request_limit_bytes <= 16_777_216
            &&& 512 <= config.response_limit_bytes <= 16_777_216
            &&& 1 <= config.max_sessions <= 4_096
            &&& 1 <= config.io_timeout_ns <= 60_000_000_000
            &&& 1 <= config.accept_poll_interval_ns <= 1_000_000_000
        },
{
}

/// An origin may be allowed exactly if it is `http://` and an authority of visible
/// characters without a path, a query, a fragment or a user.
pub proof fn law_origins_that_may_be_allowed(authority: Seq<char>)
    ensures
        server_config::origin_refusal("http://"@ + authority) is None <==> {
            &&& authority.len() > 0
            &&& forall|i: int|
                0 <= i < authority.len() ==> '!' <= #[trigger] authority[i] <= '~' && authority[i]
                    != '/' && authority[i] != '?' && authority[i] != '#' && authority[i] != '@'
        },
{
    reveal_strlit("http://");
    let origin = "http://"@ + authority;
    assert("http://"@.len() == 7);
    assert(origin.subrange(0, 7) =~= "http://"@);
    assert(origin.skip(7) =~= authority);
    if server_config::is_origin_authority(authority) {
        assert forall|i: int| 0 <= i < authority.len() implies '!' <= #[trigger] authority[i]
            <= '~' && authority[i] != '/' && authority[i] != '?' && authority[i] != '#'
            && authority[i] != '@' by {
            assert(server_config::is_visible(authority[i]));
        }
    }
}

/// A path is exact only if it starts with a slash, is visible ASCII of at most 1024
/// characters, and holds no query, fragment, escape or backslash; one such segment
/// behind the slash makes an exact path, unless it is one dot or two.
pub proof fn law_exact_paths(path: Seq<char>, segment: Seq<char>)
    ensures
        server_config::is_exact_path(path) ==> {
            &&& 1 <= path.len() <= 1024
            &&& path[0] == '/'
            &&& forall|i: int|
                0 <= i < path.len() ==> '!' <= #[trigger] path[i] <= '~' && path[i] != '?'
                    && path[i] != '#' && path[i] != '%' && path[i] != '\\'
        },
        server_config::is_exact_path(seq!['/'] + segment) <== {
            &&& 1 <= segment.len() <= 1023
            &&& segment != "."@
            &&& segment != ".."@
            &&& forall|i: int|
                0 <= i < segment.len() ==> '!' <= #[trigger] segment[i] <= '~' && segment[i] != '?'
                    && segment[i] != '#' && segment[i] != '%' && segment[i] != '\\' && segment[i]
                    != '/'
        },
{
    if server_config::is_exact_path(path) {
        assert forall|i: int| 0 <= i < path.len() implies '!' <= #[trigger] path[i] <= '~'
            && path[i] != '?' && path[i] != '#' && path[i] != '%' && path[i] != '\\' by {
            assert(server_config::is_path_char(path[i]));
        }
    }
    if 1 <= segment.len() <= 1023 && segment != "."@ && segment != ".."@ && (forall|i: int|
        0 <= i < segment.len() ==> '!' <= #[trigger] segment[i] <= '~' && segment[i] != '?'
            && segment[i] != '#' && segment[i] != '%' && segment[i] != '\\' && segment[i] != '/') {
        let s = seq!['/'] + segment;
        assert forall|i: int| 0 <= i < s.len() implies server_config::is_path_char(
            #[trigger] s[i],
        ) by {
            if i > 0 {
                assert(s[i] == segment[i - 1]);
            }
        }
        assert forall|i: int| 0 < i < s.len() implies !(s[i - 1] == '/' && #[trigger] s[i]
            == '/') by {
            assert(s[i] == segment[i - 1]);
        }
        assert(s[0] == '/');
        text::lemma_char_position(s, '/', 1);
        let next = text::char_position(s, '/', 1);
        if next < s.len() {
            assert(s[next] == segment[next - 1]);
        }
        assert(s.subrange(0, 0) =~= Seq::<char>::empty());
        assert(s.subrange(1, s.len() as int) =~= segment);
        assert(text::parts_from(s, '/', 1) =~= seq![segment]);
        assert(text::split(s, '/') =~= seq![Seq::<char>::empty(), segment]);
        reveal_strlit(".");
        reveal_strlit("..");
        assert("."@.len() == 1 && ".."@.len() == 2);
    }
}

// ---------------------------------------------------------------------------
// Header lines
// ---------------------------------------------------------------------------

/// Whether all bytes are spaces.
pub open spec fn all_spaces(b: Seq<u8>) -> bool {
    forall|i: int| 0 <= i < b.len() ==> #[trigger] b[i] == 32
}

proof fn lemma_spaces_in_front(a: Seq<u8>, m: Seq<u8>)
    requires
        all_spaces(a),
        m.len() == 0 || m[0] != 32,
    ensures
        server_request::space_front(a + m) == m,
    decreases a.len(),
{
    if a.len() == 0 {
        assert(a + m =~= m);
    } else {
        assert((a + m)[0] == a[0]);
        assert((a + m).drop_first() =~= a.drop_first() + m);
        lemma_spaces_in_front(a.drop_first(), m);
    }
}

proof fn lemma_spaces_behind(m: Seq<u8>, b: Seq<u8>)
    requires
        all_spaces(b),
        m.len() == 0 || m.last() != 32,
    ensures
        server_request::space_back(m + b) == m,
    decreases b.len(),
{
    if b.len() == 0 {
        assert(m + b =~= m);
    } else {
        assert((m + b).last() == b.last());
        assert((m + b).drop_last() =~= m + b.drop_last());
        lemma_spaces_behind(m, b.drop_last());
    }
}

/// The bytes that may stand in the name of a header.
pub open spec fn is_name_byte(byte: u8) -> bool {
    let c = byte as char;
    ||| '0' <= c <= '9'
    ||| 'A' <= c <= 'Z'
    ||| 'a' <= c <= 'z'
    ||| c == '!' || c == '#' || c == '$' || c == '%' || c == '&' || c == '\'' || c == '*' || c
        == '+' || c == '-' || c == '.' || c == '^' || c == '_' || c == '`' || c == '|' || c == '~'
}

/// A header line of a request is taken exactly if its name, up to the first colon, is
/// one or more bytes of names, and its value, without the spaces around it, is
/// printable; then the name is told in small letters and the value as it is.
pub proof fn law_request_headers_are_read(
    name: Seq<u8>,
    before: Seq<u8>,
    value: Seq<u8>,
    behind: Seq<u8>,
)
    requires
        all_spaces(before),
        all_spaces(behind),
        value.len() > 0,
        value[0] != 32,
        value.last() != 32,
        forall|i: int| 0 <= i < name.len() ==> #[trigger] name[i] != 58,
    ensures
        ({
            let line = name + seq![58u8] + (before + value + behind);
            let read = server_request::request_header(line);
            &&& read is Ok <==> name.len() > 0 && (forall|i: int|
                0 <= i < name.len() ==> is_name_byte(#[trigger] name[i])) && forall|i: int|
                0 <= i < value.len() ==> 0x20 <= #[trigger] value[i] <= 0x7e
            &&& read matches Ok((key, content)) ==> key == text::lower(
                http_framing::ascii_text(name),
            ) && content == http_framing::ascii_text(value)
        }),
{
    let line = name + seq![58u8] + (before + value + behind);
    http_framing::lemma_byte_position(line, 58, 0);
    let colon = http_framing::byte_position(line, 58, 0);
    assert(line[name.len() as int] == 58);
    assert(colon == name.len()) by {
        if colon < name.len() {
            assert(name[colon] == 58);
        }
    }
    assert(line.subrange(0, colon) =~= name);
    let tail = before + (value + behind);
    assert(line.skip(colon + 1) =~= tail);
    lemma_spaces_in_front(before, value + behind);
    lemma_spaces_behind(value, behind);
    if name.len() > 0 {
        assert(line[0] == name[0]);
    }
    assert forall|i: int| 0 <= i < name.len() implies http_framing::is_token_byte(
        #[trigger] name[i],
    ) == is_name_byte(name[i]) by {}
}

/// A line without a colon, or one that starts with whitespace, is no header.
pub proof fn law_other_lines_are_no_request_headers(line: Seq<u8>)
    requires
        line.len() > 0,
        line[0] == 32 || line[0] == 9 || forall|i: int| 0 <= i < line.len() ==> #[trigger] line[i] != 58,
    ensures
        server_request::request_header(line) is Err,
{
    http_framing::lemma_byte_position(line, 58, 0);
    let colon = http_framing::byte_position(line, 58, 0);
    if colon < line.len() {
        assert(line[colon] == 58);
    }
}

/// The headers that are read are no more than the limit, and no two have one name.
pub proof fn law_read_headers_are_few_and_distinct(
    b: Seq<u8>,
    at: int,
    ended: bool,
    limit: int,
    headers: Fields,
)
    requires
        json::distinct_keys(headers),
        headers.len() <= server_request::MAX_HEADER_COUNT,
    ensures
        server_request::request_headers(b, at, ended, limit, headers) matches Reading::Ready(
            (read, _),
        ) ==> {
            &&& json::distinct_keys(read)
            &&& headers.len() <= read.len() <= server_request::MAX_HEADER_COUNT
            &&& read.take(headers.len() as int) == headers
        },
    decreases b.len() - at,
{
    assert(headers.take(headers.len() as int) =~= headers);
    match server_request::crlf_line(b, at, ended, limit) {
        Reading::Ready((end, next)) => {
            if end != at && headers.len() < server_request::MAX_HEADER_COUNT {
                match server_request::request_header(b.subrange(at, end)) {
                    Ok((name, value)) => {
                        if json::lookup(headers, name) is None && at < next <= b.len() {
                            let more = headers.push((name, value));
                            json::lemma_lookup_absent(headers, name);
                            assert(json::distinct_keys(more)) by {
                                assert forall|i: int, j: int| 0 <= i < j < more.len() implies (
                                #[trigger] more[i]).0 != (#[trigger] more[j]).0 by {
                                    assert(more[i] == headers[i]);
                                    if j < headers.len() {
                                        assert(more[j] == headers[j]);
                                    }
                                }
                            }
                            law_read_headers_are_few_and_distinct(b, next, ended, limit, more);
                            match server_request::request_headers(b, next, ended, limit, more) {
                                Reading::Ready((read, _)) => {
                                    assert(read.take(more.len() as int).take(headers.len() as int)
                                        =~= read.take(headers.len() as int));
                                    assert(more.take(headers.len() as int) =~= headers);
                                },
                                _ => {},
                            }
                        }
                    },
                    Err(_) => {},
                }
            }
        },
        _ => {},
    }
}

} // verus!

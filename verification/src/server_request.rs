//! The requests that a local HTTP server reads.
//!
//! Nothing here waits: each function looks at the bytes that have arrived and
//! says what they are, that more are needed, or what is wrong with them.

use vstd::prelude::*;
use vstd::utf8::*;
use crate::error;
use crate::http_framing;
use crate::http_framing::{find_byte, parse_http_content_length, text_of_ascii, token_bytes};
use crate::json;
use crate::json::Fields;
use crate::server_config;
use crate::server_config::{McpStreamableHttpServerConfig, ServerConfigModel};
use crate::text;
use crate::text::{
    bytes_of, chars_of, find_char, split_text, str_eq, string_from_utf8, string_of, to_lower, trim,
};

verus! {

pub const MAX_HEADER_COUNT: usize = 128;

// ---------------------------------------------------------------------------
// Media types
// ---------------------------------------------------------------------------

/// The value of the digit at the given place behind the point; a place behind
/// the last digit counts as zero.
pub open spec fn digit_at(s: Seq<char>, at: int) -> int {
    if at < s.len() {
        s[at] as int - '0' as int
    } else {
        0
    }
}

/// The thousandths that a quality value stands for.
pub open spec fn quality_value(s: Seq<char>) -> Option<int> {
    let point = text::char_position(s, '.', 0);
    let whole = s.subrange(0, point);
    let fraction = s.subrange(point + 1, s.len() as int);
    if s == "0"@ {
        Some(0)
    } else if s == "1"@ {
        Some(1000)
    } else if point >= s.len() {
        None
    } else if fraction.len() > 3 || !http_framing::all_digits(fraction) {
        None
    } else if whole == "0"@ {
        Some(100 * digit_at(fraction, 0) + 10 * digit_at(fraction, 1) + digit_at(fraction, 2))
    } else if whole == "1"@ && forall|i: int|
        0 <= i < fraction.len() ==> #[trigger] fraction[i] == '0' {
        Some(1000)
    } else {
        None
    }
}

fn digit_of(s: &[char], from: usize, at: usize) -> (value: u16)
    requires
        from <= s@.len(),
        at <= 3,
        s@.len() - from <= 3,
        http_framing::all_digits(s@.subrange(from as int, s@.len() as int)),
    ensures
        value == digit_at(s@.subrange(from as int, s@.len() as int), at as int),
        value <= 9,
{
    let ghost fraction = s@.subrange(from as int, s@.len() as int);
    let len: usize = s.len();
    if at < len - from {
        assert(fraction[at as int] == s@[from + at]);
        assert(text::is_decimal_digit(fraction[at as int]));
        (s[from + at] as u32 - '0' as u32) as u16
    } else {
        0
    }
}

/// The thousandths that a quality value stands for.
pub fn parse_http_quality(value: &str) -> (quality: Option<u16>)
    ensures
        match quality {
            Some(q) => quality_value(value@) == Some(q as int),
            None => quality_value(value@) is None,
        },
        quality matches Some(q) ==> q <= 1000,
{
    if str_eq(value, "0") {
        return Some(0);
    }
    if str_eq(value, "1") {
        return Some(1_000);
    }
    let s = chars_of(value);
    let len: usize = s.len();
    let point: usize = find_char(s.as_slice(), '.', 0);
    if point >= len {
        return None;
    }
    let ghost fraction = value@.subrange(point + 1, value@.len() as int);
    if len - (point + 1) > 3 {
        return None;
    }
    let mut zeros: bool = true;
    let mut i: usize = point + 1;
    while i < len
        invariant
            s@ == value@,
            len == s@.len(),
            value@ != "0"@,
            value@ != "1"@,
            point == text::char_position(value@, '.', 0),
            point < len,
            point + 1 <= i <= len,
            fraction == value@.subrange(point + 1, value@.len() as int),
            forall|k: int|
                0 <= k < i - point - 1 ==> text::is_decimal_digit(#[trigger] fraction[k]),
            zeros == forall|k: int| 0 <= k < i - point - 1 ==> #[trigger] fraction[k] == '0',
        decreases len - i,
    {
        let c = s[i];
        assert(fraction[i - point - 1] == c);
        if c < '0' || '9' < c {
            assert(!http_framing::all_digits(fraction));
            return None;
        }
        if c != '0' {
            zeros = false;
        }
        i += 1;
    }
    let whole = string_of(s.as_slice(), 0, point);
    if str_eq(whole.as_str(), "0") {
        let hundreds = digit_of(s.as_slice(), point + 1, 0);
        let tens = digit_of(s.as_slice(), point + 1, 1);
        let ones = digit_of(s.as_slice(), point + 1, 2);
        Some(100 * hundreds + 10 * tens + ones)
    } else if str_eq(whole.as_str(), "1") && zeros {
        Some(1_000)
    } else {
        None
    }
}

pub proof fn lemma_parts_exist(s: Seq<char>, separator: char)
    ensures
        text::split(s, separator).len() > 0,
{
}

/// How closely a media range names JSON: exactly, by its main type, or by
/// naming everything.
pub open spec fn specificity(media: Seq<char>) -> Option<int> {
    if text::lower(media) == "application/json"@ {
        Some(2)
    } else if text::lower(media) == "application/*"@ {
        Some(1)
    } else if media == "*/*"@ {
        Some(0)
    } else {
        None
    }
}

/// What a parameter says of the quality: nothing, or a value that may be
/// invalid.
pub open spec fn parameter_quality(parameter: Seq<char>) -> Option<Option<int>> {
    let p = text::trimmed(parameter);
    let equals = text::char_position(p, '=', 0);
    if equals >= p.len() || text::lower(text::trimmed(p.subrange(0, equals))) != "q"@ {
        None
    } else {
        Some(quality_value(text::trimmed(p.subrange(equals + 1, p.len() as int))))
    }
}

/// The quality that the parameters from `at` on give, with the quality seen
/// before them. Two qualities, or an invalid one, give none.
pub open spec fn quality_from(parts: Seq<Seq<char>>, at: int, seen: Option<int>) -> Option<int>
    decreases parts.len() - at,
{
    if at >= parts.len() {
        match seen {
            Some(quality) => Some(quality),
            None => Some(1000),
        }
    } else {
        match parameter_quality(parts[at]) {
            None => quality_from(parts, at + 1, seen),
            Some(quality) => if seen is Some || quality is None {
                None
            } else {
                quality_from(parts, at + 1, quality)
            },
        }
    }
}

/// How closely an entry of an `Accept` value names JSON, and its quality.
pub open spec fn entry_rank(entry: Seq<char>) -> Option<(int, int)> {
    let parts = text::split(entry, ';');
    match (specificity(text::trimmed(parts[0])), quality_from(parts, 1, None)) {
        (Some(specific), Some(quality)) => Some((specific, quality)),
        _ => None,
    }
}

/// Whether an `Accept` value allows JSON: among the entries that name it most
/// closely, one has a quality above zero.
pub open spec fn json_accepted(value: Seq<char>) -> bool {
    let entries = text::split(value, ',');
    exists|i: int|
        {
            &&& 0 <= i < entries.len()
            &&& entry_rank(#[trigger] entries[i]) matches Some(rank) && rank.1 > 0 && is_closest(
                entries,
                entries.len() as int,
                rank.0,
            )
        }
}

/// Whether none of the first entries names JSON more closely.
pub open spec fn is_closest(entries: Seq<Seq<char>>, upto: int, specific: int) -> bool {
    forall|j: int|
        0 <= j < upto ==> (entry_rank(#[trigger] entries[j]) matches Some(other) ==> other.0
            <= specific)
}

fn media_specificity(media: &str) -> (specific: Option<u8>)
    ensures
        match specific {
            Some(level) => specificity(media@) == Some(level as int),
            None => specificity(media@) is None,
        },
{
    let small = to_lower(media);
    if str_eq(small.as_str(), "application/json") {
        Some(2)
    } else if str_eq(small.as_str(), "application/*") {
        Some(1)
    } else if str_eq(media, "*/*") {
        Some(0)
    } else {
        None
    }
}

fn read_parameter_quality(parameter: &str) -> (found: Option<Option<u16>>)
    ensures
        match found {
            None => parameter_quality(parameter@) is None,
            Some(None) => parameter_quality(parameter@) == Some(None::<int>),
            Some(Some(quality)) => parameter_quality(parameter@) == Some(Some(quality as int)),
        },
{
    let p = chars_of(trim(parameter).as_str());
    let equals: usize = find_char(p.as_slice(), '=', 0);
    if equals >= p.len() {
        return None;
    }
    let name = string_of(p.as_slice(), 0, equals);
    if !str_eq(to_lower(trim(name.as_str()).as_str()).as_str(), "q") {
        return None;
    }
    let value = string_of(p.as_slice(), equals + 1, p.len());
    Some(parse_http_quality(trim(value.as_str()).as_str()))
}

fn rank_entry(entry: &str) -> (rank: Option<(u8, u16)>)
    ensures
        match rank {
            Some((specific, quality)) => entry_rank(entry@) == Some(
                (specific as int, quality as int),
            ),
            None => entry_rank(entry@) is None,
        },
{
    let parts = split_text(entry, ';');
    let ghost all = text::split(entry@, ';');
    proof {
        lemma_parts_exist(entry@, ';');
        assert(all.len() == parts@.len());
        assert(all[0] == parts@[0]@);
    }
    let specific = match media_specificity(trim(parts[0].as_str()).as_str()) {
        Some(specific) => specific,
        None => return None,
    };
    let mut seen: Option<u16> = None;
    let mut i: usize = 1;
    while i < parts.len()
        invariant
            1 <= i <= parts@.len(),
            all == text::split(entry@, ';'),
            all == text::texts(parts@),
            specificity(text::trimmed(all[0])) == Some(specific as int),
            quality_from(all, 1, None) == quality_from(
                all,
                i as int,
                match seen {
                    Some(quality) => Some(quality as int),
                    None => None,
                },
            ),
        decreases parts@.len() - i,
    {
        assert(all[i as int] == parts@[i as int]@);
        match read_parameter_quality(parts[i].as_str()) {
            None => {},
            Some(found) => {
                if seen.is_some() {
                    return None;
                }
                match found {
                    None => return None,
                    Some(quality) => {
                        seen = Some(quality);
                    },
                }
            },
        }
        i += 1;
    }
    let quality: u16 = match seen {
        Some(quality) => quality,
        None => 1_000,
    };
    Some((specific, quality))
}

/// Whether an `Accept` value allows JSON.
pub fn accepts_json(value: &str) -> (accepted: bool)
    ensures
        accepted == json_accepted(value@),
{
    let entries = split_text(value, ',');
    let ghost all = text::split(value@, ',');
    let mut selected: Option<(u8, u16)> = None;
    let mut i: usize = 0;
    while i < entries.len()
        invariant
            i <= entries@.len(),
            all == text::split(value@, ','),
            all == text::texts(entries@),
            match selected {
                None => forall|j: int| 0 <= j < i ==> entry_rank(#[trigger] all[j]) is None,
                Some((specific, quality)) => {
                    &&& exists|j: int|
                        0 <= j < i && entry_rank(#[trigger] all[j]) == Some(
                            (specific as int, quality as int),
                        )
                    &&& is_closest(all, i as int, specific as int)
                    &&& forall|j: int|
                        0 <= j < i ==> (entry_rank(#[trigger] all[j]) matches Some(other) ==> (
                        other.0 == specific ==> other.1 <= quality))
                },
            },
        decreases entries@.len() - i,
    {
        assert(all[i as int] == entries@[i as int]@);
        match rank_entry(entries[i].as_str()) {
            None => {},
            Some((specific, quality)) => {
                let keep = match selected {
                    Some((held, held_quality)) => held > specific || (held == specific
                        && held_quality >= quality),
                    None => false,
                };
                if !keep {
                    selected = Some((specific, quality));
                    assert(entry_rank(all[i as int]) == Some((specific as int, quality as int)));
                }
            },
        }
        i += 1;
    }
    assert(all.len() == entries@.len());
    match selected {
        Some((specific, quality)) => {
            proof {
                let j = choose|j: int|
                    0 <= j < i && entry_rank(#[trigger] all[j]) == Some(
                        (specific as int, quality as int),
                    );
                if quality > 0 {
                    assert(json_accepted(value@)) by {
                        assert(entry_rank(all[j]) is Some);
                    }
                }
            }
            quality > 0
        },
        None => false,
    }
}

/// Whether a parameter says that the text is UTF-8.
pub open spec fn is_utf8_parameter(parameter: Seq<char>) -> bool {
    text::lower(text::trimmed(parameter)) == "charset=utf-8"@ || text::lower(
        text::trimmed(parameter),
    ) == "charset=\"utf-8\""@
}

/// Whether a `Content-Type` value is JSON in UTF-8.
pub open spec fn is_json_type(value: Seq<char>) -> bool {
    let parts = text::split(value, ';');
    &&& text::lower(text::trimmed(parts[0])) == "application/json"@
    &&& forall|i: int| 1 <= i < parts.len() ==> is_utf8_parameter(#[trigger] parts[i])
}

/// Whether a `Content-Type` value is JSON in UTF-8.
pub fn is_json_content_type(value: &str) -> (json: bool)
    ensures
        json == is_json_type(value@),
{
    let parts = split_text(value, ';');
    let ghost all = text::split(value@, ';');
    proof {
        lemma_parts_exist(value@, ';');
        assert(all.len() == parts@.len());
        assert(all[0] == parts@[0]@);
    }
    if !str_eq(to_lower(trim(parts[0].as_str()).as_str()).as_str(), "application/json") {
        return false;
    }
    let mut i: usize = 1;
    while i < parts.len()
        invariant
            1 <= i <= parts@.len(),
            all == text::split(value@, ';'),
            all == text::texts(parts@),
            forall|k: int| 1 <= k < i ==> is_utf8_parameter(#[trigger] all[k]),
        decreases parts@.len() - i,
    {
        assert(all[i as int] == parts@[i as int]@);
        let parameter = to_lower(trim(parts[i].as_str()).as_str());
        if !(str_eq(parameter.as_str(), "charset=utf-8") || str_eq(
            parameter.as_str(),
            "charset=\"utf-8\"",
        )) {
            assert(!is_utf8_parameter(all[i as int]));
            return false;
        }
        i += 1;
    }
    true
}

// ---------------------------------------------------------------------------
// Failures
// ---------------------------------------------------------------------------

/// Why a request is answered without being dispatched.
#[verifier::ext_equal]
pub struct FailureModel {
    pub status: u16,
    pub message: Seq<char>,
    pub allow: Option<Seq<char>>,
}

pub open spec fn failure(status: u16, message: Seq<char>) -> FailureModel {
    FailureModel { status, message, allow: None }
}

pub open spec fn bad_request(message: Seq<char>) -> FailureModel {
    failure(400, message)
}

pub open spec fn headers_too_large() -> FailureModel {
    failure(431, "request headers exceeded the server limit"@)
}

/// Why a request is answered without being dispatched.
#[derive(Debug, Clone, Copy)]
pub struct HttpReadFailure {
    pub status: u16,
    pub message: &'static str,
    pub allow: Option<&'static str>,
}

impl View for HttpReadFailure {
    type V = FailureModel;

    open spec fn view(&self) -> FailureModel {
        FailureModel {
            status: self.status,
            message: self.message@,
            allow: match self.allow {
                Some(methods) => Some(methods@),
                None => None,
            },
        }
    }
}

impl HttpReadFailure {
    pub fn bad_request(message: &'static str) -> (failed: HttpReadFailure)
        ensures
            failed@ == bad_request(message@),
    {
        HttpReadFailure { status: 400, message, allow: None }
    }

    pub fn timeout() -> (failed: HttpReadFailure)
        ensures
            failed@ == failure(408, "request did not complete within the server deadline"@),
    {
        HttpReadFailure {
            status: 408,
            message: "request did not complete within the server deadline",
            allow: None,
        }
    }

    pub fn rejected(status: u16, message: &'static str) -> (failed: HttpReadFailure)
        ensures
            failed@ == failure(status, message@),
    {
        HttpReadFailure { status, message, allow: None }
    }

    pub fn method_not_allowed() -> (failed: HttpReadFailure)
        ensures
            failed@ == unsupported_method(),
    {
        HttpReadFailure {
            status: 405,
            message: "HTTP method is not supported",
            allow: Some("POST, DELETE"),
        }
    }
}

pub open spec fn unsupported_method() -> FailureModel {
    FailureModel {
        status: 405,
        message: "HTTP method is not supported"@,
        allow: Some("POST, DELETE"@),
    }
}

/// The failure of a request whose bytes stopped coming: in time or not.
pub fn map_request_io_error(timed_out: bool) -> (failed: HttpReadFailure)
    ensures
        failed@ == if timed_out {
            failure(408, "request did not complete within the server deadline"@)
        } else {
            bad_request("request body ended before Content-Length"@)
        },
{
    if timed_out {
        HttpReadFailure::timeout()
    } else {
        HttpReadFailure::bad_request("request body ended before Content-Length")
    }
}

// ---------------------------------------------------------------------------
// Lines
// ---------------------------------------------------------------------------

/// What the bytes at hand say: the value, that nothing was sent, that more
/// bytes are needed, or what is wrong.
pub enum Reading<T, F> {
    Ready(T),
    Closed,
    Wait,
    Fail(F),
}

/// How many bytes the line that starts at `at` takes, as far as they have
/// arrived: up to its line feed, or one more than there is room for.
pub open spec fn line_take(b: Seq<u8>, at: int, ended: bool, room: int) -> Option<int> {
    let feed = http_framing::byte_position(b, 10, at);
    if feed < b.len() && feed - at <= room {
        Some(feed - at + 1)
    } else if b.len() - at > room {
        Some(room + 1)
    } else if ended {
        Some(b.len() - at)
    } else {
        None
    }
}

/// The line that starts at `at`, all lines before it counted against the
/// limit: where it ends and where the next one starts.
pub open spec fn crlf_line(b: Seq<u8>, at: int, ended: bool, limit: int) -> Reading<
    (int, int),
    FailureModel,
> {
    if at >= limit {
        Reading::Fail(headers_too_large())
    } else {
        match line_take(b, at, ended, limit - at) {
            None => Reading::Wait,
            Some(taken) => if taken == 0 {
                Reading::Closed
            } else if taken > limit - at {
                Reading::Fail(headers_too_large())
            } else if taken < 2 || b[at + taken - 2] != 13 || b[at + taken - 1] != 10 {
                Reading::Fail(bad_request("request lines must use CRLF framing"@))
            } else {
                Reading::Ready((at + taken - 2, at + taken))
            },
        }
    }
}

/// Read the line that starts at `at`.
pub fn read_crlf_line(b: &[u8], at: usize, ended: bool, limit: usize) -> (line: Reading<
    (usize, usize),
    HttpReadFailure,
>)
    requires
        at <= b@.len(),
    ensures
        match line {
            Reading::Ready((end, next)) => crlf_line(b@, at as int, ended, limit as int)
                == Reading::<(int, int), FailureModel>::Ready((end as int, next as int)) && at <= end
                < next <= b@.len() && next <= limit,
            Reading::Closed => crlf_line(b@, at as int, ended, limit as int) == Reading::<
                (int, int),
                FailureModel,
            >::Closed,
            Reading::Wait => crlf_line(b@, at as int, ended, limit as int) == Reading::<
                (int, int),
                FailureModel,
            >::Wait,
            Reading::Fail(failed) => crlf_line(b@, at as int, ended, limit as int) == Reading::<
                (int, int),
                FailureModel,
            >::Fail(failed@),
        },
{
    if at >= limit {
        return Reading::Fail(
            HttpReadFailure::rejected(431, "request headers exceeded the server limit"),
        );
    }
    let len: usize = b.len();
    let room: usize = limit - at;
    let feed: usize = find_byte(b, 10, at);
    if feed < len && feed - at <= room {
        if feed - at == room {
            return Reading::Fail(
                HttpReadFailure::rejected(431, "request headers exceeded the server limit"),
            );
        }
        if feed == at || b[feed - 1] != 13 {
            return Reading::Fail(
                HttpReadFailure::bad_request("request lines must use CRLF framing"),
            );
        }
        return Reading::Ready((feed - 1, feed + 1));
    }
    if len - at > room {
        return Reading::Fail(
            HttpReadFailure::rejected(431, "request headers exceeded the server limit"),
        );
    }
    if !ended {
        return Reading::Wait;
    }
    if len == at {
        return Reading::Closed;
    }
    proof {
        http_framing::lemma_byte_position(b@, 10, at as int);
        assert(b@[len - 1] != 10);
    }
    Reading::Fail(HttpReadFailure::bad_request("request lines must use CRLF framing"))
}

// ---------------------------------------------------------------------------
// The head
// ---------------------------------------------------------------------------

pub open spec fn all_upper(s: Seq<char>) -> bool {
    forall|i: int| 0 <= i < s.len() ==> 'A' <= #[trigger] s[i] && s[i] <= 'Z'
}

pub open spec fn all_visible(s: Seq<char>) -> bool {
    forall|i: int| 0 <= i < s.len() ==> server_config::is_visible(#[trigger] s[i])
}

/// The method and the target of a request line.
pub open spec fn request_line(line: Seq<u8>) -> Result<(Seq<char>, Seq<char>), FailureModel> {
    if !valid_utf8(line) {
        Err(bad_request("request line must be ASCII"@))
    } else {
        let parts = text::split(decode_utf8(line), ' ');
        if parts.len() == 3 && parts[0].len() > 0 && all_upper(parts[0]) && parts[1].len() > 0
            && all_visible(parts[1]) && parts[2] == "HTTP/1.1"@ {
            Ok((parts[0], parts[1]))
        } else {
            Err(bad_request("request line is invalid"@))
        }
    }
}

fn upper(s: &str) -> (all: bool)
    ensures
        all == all_upper(s@),
{
    let chars = chars_of(s);
    let mut i: usize = 0;
    while i < chars.len()
        invariant
            i <= chars@.len(),
            chars@ == s@,
            forall|k: int| 0 <= k < i ==> 'A' <= #[trigger] s@[k] && s@[k] <= 'Z',
        decreases chars@.len() - i,
    {
        if chars[i] < 'A' || 'Z' < chars[i] {
            assert(!('A' <= s@[i as int] && s@[i as int] <= 'Z'));
            return false;
        }
        i += 1;
    }
    true
}

fn visible(s: &str) -> (all: bool)
    ensures
        all == all_visible(s@),
{
    let chars = chars_of(s);
    let mut i: usize = 0;
    while i < chars.len()
        invariant
            i <= chars@.len(),
            chars@ == s@,
            forall|k: int| 0 <= k < i ==> server_config::is_visible(#[trigger] s@[k]),
        decreases chars@.len() - i,
    {
        if !(' ' < chars[i] && chars[i] < '\u{7f}') {
            assert(!server_config::is_visible(s@[i as int]));
            return false;
        }
        i += 1;
    }
    true
}

/// The method and the target of a request line.
pub fn parse_request_line(line: &[u8]) -> (outcome: Result<(String, String), HttpReadFailure>)
    ensures
        match outcome {
            Ok((method, target)) => request_line(line@) == Ok::<
                (Seq<char>, Seq<char>),
                FailureModel,
            >((method@, target@)),
            Err(failed) => request_line(line@) == Err::<(Seq<char>, Seq<char>), FailureModel>(
                failed@,
            ),
        },
{
    let bytes = bytes_of(line, 0, line.len());
    assert(bytes@ =~= line@);
    let content = match string_from_utf8(bytes) {
        Ok(content) => content,
        Err(_) => return Err(HttpReadFailure::bad_request("request line must be ASCII")),
    };
    let parts = split_text(content.as_str(), ' ');
    let ghost all = text::split(decode_utf8(line@), ' ');
    assert(all == text::texts(parts@));
    assert(all.len() == parts@.len());
    if parts.len() != 3 {
        return Err(HttpReadFailure::bad_request("request line is invalid"));
    }
    assert(all[0] == parts@[0]@ && all[1] == parts@[1]@ && all[2] == parts@[2]@);
    let method = parts[0].as_str();
    let target = parts[1].as_str();
    if method.is_empty() || !upper(method) || target.is_empty() || !visible(target) || !str_eq(
        parts[2].as_str(),
        "HTTP/1.1",
    ) {
        return Err(HttpReadFailure::bad_request("request line is invalid"));
    }
    Ok((method.to_owned(), target.to_owned()))
}

/// The bytes without the spaces in front.
pub open spec fn space_front(b: Seq<u8>) -> Seq<u8>
    decreases b.len(),
{
    if b.len() > 0 && b[0] == 32 {
        space_front(b.drop_first())
    } else {
        b
    }
}

/// The bytes without the spaces behind.
pub open spec fn space_back(b: Seq<u8>) -> Seq<u8>
    decreases b.len(),
{
    if b.len() > 0 && b.last() == 32 {
        space_back(b.drop_last())
    } else {
        b
    }
}

/// The bytes without the spaces around them.
pub open spec fn unspaced(b: Seq<u8>) -> Seq<u8> {
    space_back(space_front(b))
}

/// The bytes `from..` without the spaces around them.
pub fn trim_ascii_spaces(b: &[u8], from: usize) -> (out: Vec<u8>)
    requires
        from <= b@.len(),
    ensures
        out@ == unspaced(b@.skip(from as int)),
{
    let mut start: usize = from;
    while start < b.len() && b[start] == 32
        invariant
            from <= start <= b@.len(),
            space_front(b@.skip(from as int)) == space_front(b@.skip(start as int)),
        decreases b@.len() - start,
    {
        assert(b@.skip(start as int).drop_first() =~= b@.skip(start + 1));
        start += 1;
    }
    let mut end: usize = b.len();
    assert(b@.subrange(start as int, end as int) =~= b@.skip(start as int));
    while start < end && b[end - 1] == 32
        invariant
            start <= end <= b@.len(),
            space_back(b@.skip(start as int)) == space_back(
                b@.subrange(start as int, end as int),
            ),
        decreases end - start,
    {
        assert(b@.subrange(start as int, end as int).drop_last() =~= b@.subrange(
            start as int,
            end - 1,
        ));
        end -= 1;
    }
    bytes_of(b, start, end)
}

pub open spec fn is_ascii_space(byte: u8) -> bool {
    byte == 9 || byte == 10 || byte == 12 || byte == 13 || byte == 32
}

pub open spec fn all_printable(b: Seq<u8>) -> bool {
    forall|i: int| 0 <= i < b.len() ==> 0x20 <= #[trigger] b[i] <= 0x7e
}

fn printable(b: &[u8]) -> (all: bool)
    ensures
        all == all_printable(b@),
{
    let mut i: usize = 0;
    while i < b.len()
        invariant
            i <= b@.len(),
            forall|k: int| 0 <= k < i ==> 0x20 <= #[trigger] b@[k] <= 0x7e,
        decreases b@.len() - i,
    {
        if b[i] < 0x20 || b[i] > 0x7e {
            return false;
        }
        i += 1;
    }
    true
}

/// The name, in small letters, and the value of a header line that is not
/// empty.
pub open spec fn request_header(line: Seq<u8>) -> Result<(Seq<char>, Seq<char>), FailureModel> {
    let colon = http_framing::byte_position(line, 58, 0);
    let name = line.subrange(0, colon);
    let value = unspaced(line.skip(colon + 1));
    if is_ascii_space(line[0]) {
        Err(bad_request("folded headers are not supported"@))
    } else if colon >= line.len() {
        Err(bad_request("request header is malformed"@))
    } else if name.len() == 0 || !http_framing::all_token_bytes(name) || !all_printable(value) {
        Err(bad_request("request header is invalid"@))
    } else {
        Ok((text::lower(http_framing::ascii_text(name)), http_framing::ascii_text(value)))
    }
}

/// The name, in small letters, and the value of a header line.
pub fn parse_request_header(line: &[u8]) -> (outcome: Result<(String, String), HttpReadFailure>)
    requires
        line@.len() > 0,
    ensures
        match outcome {
            Ok((name, value)) => request_header(line@) == Ok::<
                (Seq<char>, Seq<char>),
                FailureModel,
            >((name@, value@)),
            Err(failed) => request_header(line@) == Err::<(Seq<char>, Seq<char>), FailureModel>(
                failed@,
            ),
        },
{
    let first: u8 = line[0];
    if first == 9 || first == 10 || first == 12 || first == 13 || first == 32 {
        return Err(HttpReadFailure::bad_request("folded headers are not supported"));
    }
    let colon: usize = find_byte(line, 58, 0);
    if colon >= line.len() {
        return Err(HttpReadFailure::bad_request("request header is malformed"));
    }
    let name = bytes_of(line, 0, colon);
    let value = trim_ascii_spaces(line, colon + 1);
    if name.len() == 0 || !token_bytes(name.as_slice()) || !printable(value.as_slice()) {
        return Err(HttpReadFailure::bad_request("request header is invalid"));
    }
    Ok((to_lower(text_of_ascii(name.as_slice()).as_str()), text_of_ascii(value.as_slice())))
}

/// The headers from `at` on, with those that were read before, and where the
/// body starts.
pub open spec fn request_headers(b: Seq<u8>, at: int, ended: bool, limit: int, headers: Fields) -> Reading<
    (Fields, int),
    FailureModel,
>
    decreases b.len() - at,
{
    match crlf_line(b, at, ended, limit) {
        Reading::Fail(failed) => Reading::Fail(failed),
        Reading::Wait => Reading::Wait,
        Reading::Closed => Reading::Fail(bad_request("request headers ended early"@)),
        Reading::Ready((end, next)) => if end == at {
            Reading::Ready((headers, next))
        } else if headers.len() == MAX_HEADER_COUNT {
            Reading::Fail(failure(431, "too many request headers"@))
        } else {
            match request_header(b.subrange(at, end)) {
                Err(failed) => Reading::Fail(failed),
                Ok((name, value)) => if json::lookup(headers, name) is Some {
                    Reading::Fail(bad_request("duplicate request header"@))
                } else if at < next <= b.len() {
                    request_headers(b, next, ended, limit, headers.push((name, value)))
                } else {
                    Reading::Wait
                },
            }
        },
    }
}

/// The headers of a request, in written order.
pub struct RequestHeaders {
    entries: Vec<(String, String)>,
}

impl View for RequestHeaders {
    type V = Fields;

    closed spec fn view(&self) -> Fields {
        error::pair_texts(self.entries@)
    }
}

impl RequestHeaders {
    pub fn new() -> (headers: RequestHeaders)
        ensures
            headers@ == Seq::<(Seq<char>, Seq<char>)>::empty(),
    {
        let headers = RequestHeaders { entries: Vec::new() };
        assert(headers@ =~= Seq::<(Seq<char>, Seq<char>)>::empty());
        headers
    }

    pub fn len(&self) -> (len: usize)
        ensures
            len == self@.len(),
    {
        self.entries.len()
    }

    pub fn push(&mut self, name: String, value: String)
        ensures
            final(self)@ == old(self)@.push((name@, value@)),
    {
        self.entries.push((name, value));
        assert(self@ =~= old(self)@.push((name@, value@)));
    }

    /// The value of the header with the given name in small letters.
    pub fn get(&self, name: &str) -> (value: Option<&str>)
        ensures
            match value {
                Some(v) => json::lookup(self@, name@) == Some(v@),
                None => json::lookup(self@, name@) is None,
            },
    {
        let mut i: usize = self.entries.len();
        assert(self@.take(i as int) =~= self@);
        while i > 0
            invariant
                i <= self.entries@.len(),
                json::lookup(self@, name@) == json::lookup(self@.take(i as int), name@),
            decreases i,
        {
            i -= 1;
            proof {
                let head = self@.take(i + 1);
                assert(head.drop_last() =~= self@.take(i as int));
                assert(head.last() == self@[i as int]);
            }
            if str_eq(self.entries[i].0.as_str(), name) {
                return Some(self.entries[i].1.as_str());
            }
        }
        None
    }

    /// Whether there is a header with the given name in small letters.
    pub fn has(&self, name: &str) -> (found: bool)
        ensures
            found == json::lookup(self@, name@) is Some,
    {
        self.get(name).is_some()
    }
}

fn read_request_headers(b: &[u8], at: usize, ended: bool, limit: usize) -> (outcome: Reading<
    (RequestHeaders, usize),
    HttpReadFailure,
>)
    requires
        at <= b@.len(),
    ensures
        match outcome {
            Reading::Ready((headers, next)) => request_headers(
                b@,
                at as int,
                ended,
                limit as int,
                Seq::empty(),
            ) == Reading::<(Fields, int), FailureModel>::Ready((headers@, next as int)) && next
                <= b@.len(),
            Reading::Closed => false,
            Reading::Wait => request_headers(b@, at as int, ended, limit as int, Seq::empty())
                == Reading::<(Fields, int), FailureModel>::Wait,
            Reading::Fail(failed) => request_headers(
                b@,
                at as int,
                ended,
                limit as int,
                Seq::empty(),
            ) == Reading::<(Fields, int), FailureModel>::Fail(failed@),
        },
{
    let mut headers = RequestHeaders::new();
    let mut from: usize = at;
    loop
        invariant
            at <= from <= b@.len(),
            request_headers(b@, at as int, ended, limit as int, Seq::empty()) == request_headers(
                b@,
                from as int,
                ended,
                limit as int,
                headers@,
            ),
        decreases b@.len() - from,
    {
        match read_crlf_line(b, from, ended, limit) {
            Reading::Fail(failed) => return Reading::Fail(failed),
            Reading::Wait => return Reading::Wait,
            Reading::Closed => return Reading::Fail(
                HttpReadFailure::bad_request("request headers ended early"),
            ),
            Reading::Ready((end, next)) => {
                if end == from {
                    return Reading::Ready((headers, next));
                }
                if headers.len() == MAX_HEADER_COUNT {
                    return Reading::Fail(
                        HttpReadFailure::rejected(431, "too many request headers"),
                    );
                }
                let line = bytes_of(b, from, end);
                match parse_request_header(line.as_slice()) {
                    Err(failed) => return Reading::Fail(failed),
                    Ok((name, value)) => {
                        if headers.has(name.as_str()) {
                            return Reading::Fail(
                                HttpReadFailure::bad_request("duplicate request header"),
                            );
                        }
                        headers.push(name, value);
                        from = next;
                    },
                }
            },
        }
    }
}

/// Whether a header asks for framing that the server does not speak.
pub open spec fn has_framing_control(headers: Fields) -> bool {
    json::lookup(headers, "content-encoding"@) is Some || json::lookup(headers, "expect"@) is Some
        || json::lookup(headers, "proxy-connection"@) is Some || json::lookup(headers, "te"@) is Some
        || json::lookup(headers, "trailer"@) is Some || json::lookup(headers, "upgrade"@) is Some
}

/// The body length that the headers declare; none declared is none to come.
pub open spec fn declared_length(headers: Fields) -> Result<int, FailureModel> {
    match json::lookup(headers, "content-length"@) {
        None => Ok(0),
        Some(value) => match http_framing::content_length_value(value) {
            Ok(length) => Ok(length),
            Err(_) => Err(bad_request("Content-Length is invalid"@)),
        },
    }
}

/// Why a request for this server is refused by its head, if it is.
pub open spec fn head_refusal(
    method: Seq<char>,
    target: Seq<char>,
    headers: Fields,
    content_length: int,
    config: ServerConfigModel,
    host: Seq<char>,
) -> Option<FailureModel> {
    if target != config.path {
        Some(failure(404, "endpoint not found"@))
    } else if json::lookup(headers, "host"@) != Some(host) {
        Some(failure(421, "Host does not match the bound listener"@))
    } else if json::lookup(headers, "origin"@) matches Some(origin)
        && !config.allowed_origins.contains(origin) {
        Some(failure(403, "Origin is not explicitly allowed"@))
    } else if method == "POST"@ {
        if !(json::lookup(headers, "content-type"@) matches Some(value) && is_json_type(value)) {
            Some(failure(415, "Content-Type must be application/json"@))
        } else if !(json::lookup(headers, "accept"@) matches Some(value) && json_accepted(value)) {
            Some(failure(406, "Accept must allow application/json"@))
        } else {
            None
        }
    } else if method == "DELETE"@ {
        if content_length != 0 {
            Some(bad_request("DELETE request body must be empty"@))
        } else {
            None
        }
    } else {
        Some(unsupported_method())
    }
}

/// Whether an outcome refuses as it was specified.
pub open spec fn failed_as(outcome: Result<(), HttpReadFailure>, refusal: Option<FailureModel>) -> bool {
    match outcome {
        Ok(()) => refusal is None,
        Err(failed) => refusal == Some(failed@),
    }
}

/// Refuse a request that is not for this server.
pub fn validate_request_head(
    method: &str,
    target: &str,
    headers: &RequestHeaders,
    content_length: usize,
    config: &McpStreamableHttpServerConfig,
    expected_host: &str,
) -> (outcome: Result<(), HttpReadFailure>)
    requires
        config.wf(),
    ensures
        failed_as(
            outcome,
            head_refusal(
                method@,
                target@,
                headers@,
                content_length as int,
                config@,
                expected_host@,
            ),
        ),
{
    if !str_eq(target, config.path()) {
        return Err(HttpReadFailure::rejected(404, "endpoint not found"));
    }
    let host_matches = match headers.get("host") {
        Some(host) => str_eq(host, expected_host),
        None => false,
    };
    if !host_matches {
        return Err(HttpReadFailure::rejected(421, "Host does not match the bound listener"));
    }
    match headers.get("origin") {
        Some(origin) => {
            if !config.allows_origin(origin) {
                return Err(HttpReadFailure::rejected(403, "Origin is not explicitly allowed"));
            }
        },
        None => {},
    }
    if str_eq(method, "POST") {
        let json_type = match headers.get("content-type") {
            Some(value) => is_json_content_type(value),
            None => false,
        };
        if !json_type {
            return Err(HttpReadFailure::rejected(415, "Content-Type must be application/json"));
        }
        let accepted = match headers.get("accept") {
            Some(value) => accepts_json(value),
            None => false,
        };
        if !accepted {
            return Err(HttpReadFailure::rejected(406, "Accept must allow application/json"));
        }
        Ok(())
    } else if str_eq(method, "DELETE") {
        if content_length != 0 {
            return Err(HttpReadFailure::bad_request("DELETE request body must be empty"));
        }
        Ok(())
    } else {
        Err(HttpReadFailure::method_not_allowed())
    }
}

/// How many bytes the body of a request has, when its head is accepted.
pub open spec fn body_length(
    method: Seq<char>,
    target: Seq<char>,
    headers: Fields,
    config: ServerConfigModel,
    host: Seq<char>,
) -> Result<int, FailureModel> {
    if json::lookup(headers, "host"@) is None {
        Err(bad_request("Host header is required"@))
    } else if json::lookup(headers, "transfer-encoding"@) is Some {
        Err(bad_request("request transfer encoding is not supported"@))
    } else if has_framing_control(headers) {
        Err(bad_request("request uses an unsupported framing control header"@))
    } else {
        match declared_length(headers) {
            Err(failed) => Err(failed),
            Ok(length) => if method == "POST"@ && json::lookup(headers, "content-length"@) is None {
                Err(failure(411, "Content-Length is required for POST"@))
            } else {
                match head_refusal(method, target, headers, length, config, host) {
                    Some(failed) => Err(failed),
                    None => if length > config.request_limit_bytes {
                        Err(failure(413, "request body exceeded the server limit"@))
                    } else {
                        Ok(length)
                    },
                }
            },
        }
    }
}

fn check_request_head(
    method: &str,
    target: &str,
    headers: &RequestHeaders,
    config: &McpStreamableHttpServerConfig,
    expected_host: &str,
) -> (outcome: Result<usize, HttpReadFailure>)
    requires
        config.wf(),
    ensures
        match outcome {
            Ok(length) => body_length(method@, target@, headers@, config@, expected_host@) == Ok::<
                int,
                FailureModel,
            >(length as int),
            Err(failed) => body_length(method@, target@, headers@, config@, expected_host@)
                == Err::<int, FailureModel>(failed@),
        },
{
    if !headers.has("host") {
        return Err(HttpReadFailure::bad_request("Host header is required"));
    }
    if headers.has("transfer-encoding") {
        return Err(HttpReadFailure::bad_request("request transfer encoding is not supported"));
    }
    if headers.has("content-encoding") || headers.has("expect") || headers.has("proxy-connection")
        || headers.has("te") || headers.has("trailer") || headers.has("upgrade") {
        return Err(
            HttpReadFailure::bad_request("request uses an unsupported framing control header"),
        );
    }
    let length: usize = match headers.get("content-length") {
        Some(value) => match parse_http_content_length(value) {
            Ok(length) => length,
            Err(_) => return Err(HttpReadFailure::bad_request("Content-Length is invalid")),
        },
        None => 0,
    };
    if str_eq(method, "POST") && !headers.has("content-length") {
        return Err(HttpReadFailure::rejected(411, "Content-Length is required for POST"));
    }
    match validate_request_head(method, target, headers, length, config, expected_host) {
        Ok(()) => {},
        Err(failed) => return Err(failed),
    }
    if length > config.request_limit_bytes() {
        return Err(HttpReadFailure::rejected(413, "request body exceeded the server limit"));
    }
    Ok(length)
}

// ---------------------------------------------------------------------------
// Requests
// ---------------------------------------------------------------------------

/// What a request says.
#[verifier::ext_equal]
pub struct RequestModel {
    pub method: Seq<char>,
    pub target: Seq<char>,
    pub headers: Fields,
    pub body: Seq<char>,
}

/// A complete request.
pub struct HttpRequest {
    pub method: String,
    pub target: String,
    pub headers: RequestHeaders,
    pub body: String,
}

impl View for HttpRequest {
    type V = RequestModel;

    open spec fn view(&self) -> RequestModel {
        RequestModel {
            method: self.method@,
            target: self.target@,
            headers: self.headers@,
            body: self.body@,
        }
    }
}

impl HttpRequest {
    /// The value of the header with the given name in small letters.
    pub fn header(&self, name: &str) -> (value: Option<&str>)
        ensures
            match value {
                Some(v) => json::lookup(self@.headers, name@) == Some(v@),
                None => json::lookup(self@.headers, name@) is None,
            },
    {
        self.headers.get(name)
    }
}

/// The body that starts at `at`.
pub open spec fn request_body(b: Seq<u8>, at: int, length: int, ended: bool) -> Reading<
    Seq<char>,
    FailureModel,
> {
    if b.len() - at < length {
        if ended {
            Reading::Fail(bad_request("request body ended before Content-Length"@))
        } else {
            Reading::Wait
        }
    } else if valid_utf8(b.subrange(at, at + length)) {
        Reading::Ready(decode_utf8(b.subrange(at, at + length)))
    } else {
        Reading::Fail(bad_request("request body must be UTF-8 JSON"@))
    }
}

/// The request that the bytes hold.
pub open spec fn request_of(b: Seq<u8>, ended: bool, config: ServerConfigModel, host: Seq<char>) -> Reading<
    RequestModel,
    FailureModel,
> {
    let limit = config.header_limit_bytes as int;
    match crlf_line(b, 0, ended, limit) {
        Reading::Fail(failed) => Reading::Fail(failed),
        Reading::Wait => Reading::Wait,
        Reading::Closed => Reading::Closed,
        Reading::Ready((end, next)) => match request_line(b.subrange(0, end)) {
            Err(failed) => Reading::Fail(failed),
            Ok((method, target)) => match request_headers(b, next, ended, limit, Seq::empty()) {
                Reading::Fail(failed) => Reading::Fail(failed),
                Reading::Closed => Reading::Closed,
                Reading::Wait => Reading::Wait,
                Reading::Ready((headers, at)) => match body_length(
                    method,
                    target,
                    headers,
                    config,
                    host,
                ) {
                    Err(failed) => Reading::Fail(failed),
                    Ok(length) => match request_body(b, at, length, ended) {
                        Reading::Fail(failed) => Reading::Fail(failed),
                        Reading::Closed => Reading::Closed,
                        Reading::Wait => Reading::Wait,
                        Reading::Ready(body) => Reading::Ready(
                            RequestModel { method, target, headers, body },
                        ),
                    },
                },
            },
        },
    }
}

/// Read the request that the bytes hold. The bytes have come to an end where
/// `ended` is set; otherwise more may come.
pub fn read_http_request(
    b: &[u8],
    ended: bool,
    config: &McpStreamableHttpServerConfig,
    expected_host: &str,
) -> (outcome: Reading<HttpRequest, HttpReadFailure>)
    requires
        config.wf(),
    ensures
        match outcome {
            Reading::Ready(request) => request_of(b@, ended, config@, expected_host@)
                == Reading::<RequestModel, FailureModel>::Ready(request@),
            Reading::Closed => request_of(b@, ended, config@, expected_host@) == Reading::<
                RequestModel,
                FailureModel,
            >::Closed,
            Reading::Wait => request_of(b@, ended, config@, expected_host@) == Reading::<
                RequestModel,
                FailureModel,
            >::Wait,
            Reading::Fail(failed) => request_of(b@, ended, config@, expected_host@) == Reading::<
                RequestModel,
                FailureModel,
            >::Fail(failed@),
        },
{
    let limit: usize = config.header_limit_bytes();
    let (end, next) = match read_crlf_line(b, 0, ended, limit) {
        Reading::Ready((end, next)) => (end, next),
        Reading::Closed => return Reading::Closed,
        Reading::Wait => return Reading::Wait,
        Reading::Fail(failed) => return Reading::Fail(failed),
    };
    let line = bytes_of(b, 0, end);
    let (method, target) = match parse_request_line(line.as_slice()) {
        Ok((method, target)) => (method, target),
        Err(failed) => return Reading::Fail(failed),
    };
    let (headers, at) = match read_request_headers(b, next, ended, limit) {
        Reading::Ready((headers, at)) => (headers, at),
        Reading::Closed => return Reading::Closed,
        Reading::Wait => return Reading::Wait,
        Reading::Fail(failed) => return Reading::Fail(failed),
    };
    let length: usize = match check_request_head(
        method.as_str(),
        target.as_str(),
        &headers,
        config,
        expected_host,
    ) {
        Ok(length) => length,
        Err(failed) => return Reading::Fail(failed),
    };
    if b.len() - at < length {
        return if ended {
            Reading::Fail(HttpReadFailure::bad_request("request body ended before Content-Length"))
        } else {
            Reading::Wait
        };
    }
    let bytes = bytes_of(b, at, at + length);
    let body = match string_from_utf8(bytes) {
        Ok(body) => body,
        Err(_) => return Reading::Fail(
            HttpReadFailure::bad_request("request body must be UTF-8 JSON"),
        ),
    };
    Reading::Ready(HttpRequest { method, target, headers, body })
}

// ---------------------------------------------------------------------------
// Laws
// ---------------------------------------------------------------------------

proof fn lemma_crlf_line_stays(b: Seq<u8>, more: Seq<u8>, at: int, ended: bool, limit: int)
    requires
        0 <= at <= b.len(),
        !(crlf_line(b, at, false, limit) is Wait),
    ensures
        crlf_line(b + more, at, ended, limit) == crlf_line(b, at, false, limit),
        crlf_line(b, at, false, limit) matches Reading::Ready((end, next)) ==> at <= end < next
            <= b.len() && (b + more).subrange(at, end) == b.subrange(at, end),
        !(crlf_line(b, at, false, limit) is Closed),
{
    let feed = http_framing::byte_position(b, 10, at);
    http_framing::lemma_byte_position(b, 10, at);
    http_framing::lemma_byte_position(b + more, 10, at);
    if at < limit {
        if feed < b.len() {
            http_framing::lemma_byte_position_stays(b, more, 10, at);
        } else {
            let later = http_framing::byte_position(b + more, 10, at);
            if later < b.len() {
                assert((b + more)[later] == b[later]);
            }
        }
        match crlf_line(b, at, false, limit) {
            Reading::Ready((end, next)) => {
                assert((b + more).subrange(at, end) =~= b.subrange(at, end));
            },
            _ => {},
        }
    }
}

proof fn lemma_request_headers_stay(
    b: Seq<u8>,
    more: Seq<u8>,
    at: int,
    ended: bool,
    limit: int,
    headers: Fields,
)
    requires
        0 <= at <= b.len(),
        !(request_headers(b, at, false, limit, headers) is Wait),
    ensures
        request_headers(b + more, at, ended, limit, headers) == request_headers(
            b,
            at,
            false,
            limit,
            headers,
        ),
        request_headers(b, at, false, limit, headers) matches Reading::Ready((_, next)) ==> 0 <= next
            <= b.len(),
    decreases b.len() - at,
{
    lemma_crlf_line_stays(b, more, at, ended, limit);
    match crlf_line(b, at, false, limit) {
        Reading::Ready((end, next)) => {
            if end != at && headers.len() != MAX_HEADER_COUNT {
                match request_header(b.subrange(at, end)) {
                    Ok((name, value)) => {
                        if json::lookup(headers, name) is None {
                            lemma_request_headers_stay(
                                b,
                                more,
                                next,
                                ended,
                                limit,
                                headers.push((name, value)),
                            );
                        }
                    },
                    Err(_) => {},
                }
            }
        },
        _ => {},
    }
}

/// Once the bytes that have arrived decide what a request is, bytes that arrive
/// later do not change it, and neither does the end of the stream.
pub proof fn law_decided_request_stays(
    b: Seq<u8>,
    more: Seq<u8>,
    ended: bool,
    config: ServerConfigModel,
    host: Seq<char>,
)
    requires
        !(request_of(b, false, config, host) is Wait),
    ensures
        request_of(b + more, ended, config, host) == request_of(b, false, config, host),
{
    let limit = config.header_limit_bytes as int;
    lemma_crlf_line_stays(b, more, 0, ended, limit);
    match crlf_line(b, 0, false, limit) {
        Reading::Ready((end, next)) => {
            match request_line(b.subrange(0, end)) {
                Ok((method, target)) => {
                    lemma_request_headers_stay(b, more, next, ended, limit, Seq::empty());
                    match request_headers(b, next, false, limit, Seq::empty()) {
                        Reading::Ready((headers, at)) => {
                            match body_length(method, target, headers, config, host) {
                                Ok(length) => {
                                    lemma_body_length(method, target, headers, config, host);
                                    assert((b + more).subrange(at, at + length) =~= b.subrange(
                                        at,
                                        at + length,
                                    ));
                                },
                                Err(_) => {},
                            }
                        },
                        _ => {},
                    }
                },
                Err(_) => {},
            }
        },
        _ => {},
    }
}

proof fn lemma_digits_value_nonnegative(s: Seq<char>, at: int, acc: int, max: int)
    requires
        0 <= at,
        0 <= acc,
    ensures
        text::digits_value(s, at, acc, false, 0, max) matches Ok(value) ==> 0 <= value,
    decreases s.len() - at,
{
    if at < s.len() {
        let digit = s[at] as int - '0' as int;
        if text::is_decimal_digit(s[at]) {
            lemma_digits_value_nonnegative(s, at + 1, acc * 10 + digit, max);
        }
    }
}

proof fn lemma_body_length(
    method: Seq<char>,
    target: Seq<char>,
    headers: Fields,
    config: ServerConfigModel,
    host: Seq<char>,
)
    ensures
        body_length(method, target, headers, config, host) matches Ok(length) ==> 0 <= length
            <= config.request_limit_bytes,
{
    match json::lookup(headers, "content-length"@) {
        Some(value) => {
            lemma_digits_value_nonnegative(value, 0, 0, usize::MAX as int);
        },
        None => {},
    }
}

proof fn lemma_crlf_line_within(b: Seq<u8>, at: int, ended: bool, limit: int)
    requires
        0 <= at <= b.len(),
    ensures
        crlf_line(b, at, ended, limit) matches Reading::Ready((end, next)) ==> at <= end < next
            <= b.len(),
{
    http_framing::lemma_byte_position(b, 10, at);
}

proof fn lemma_request_headers_within(b: Seq<u8>, at: int, ended: bool, limit: int, headers: Fields)
    requires
        0 <= at <= b.len(),
    ensures
        request_headers(b, at, ended, limit, headers) matches Reading::Ready((_, next)) ==> 0 <= next
            <= b.len(),
    decreases b.len() - at,
{
    lemma_crlf_line_within(b, at, ended, limit);
    match crlf_line(b, at, ended, limit) {
        Reading::Ready((end, next)) => {
            match request_header(b.subrange(at, end)) {
                Ok((name, value)) => {
                    lemma_request_headers_within(
                        b,
                        next,
                        ended,
                        limit,
                        headers.push((name, value)),
                    );
                },
                Err(_) => {},
            }
        },
        _ => {},
    }
}

/// A request that is dispatched was addressed to this server, from an allowed
/// origin or none, and a request for deletion has no body.
pub proof fn law_dispatched_requests_are_admitted(
    b: Seq<u8>,
    ended: bool,
    config: ServerConfigModel,
    host: Seq<char>,
)
    ensures
        request_of(b, ended, config, host) matches Reading::Ready(request) ==> {
            &&& request.target == config.path
            &&& json::lookup(request.headers, "host"@) == Some(host)
            &&& (json::lookup(request.headers, "origin"@) matches Some(origin)
                ==> config.allowed_origins.contains(origin))
            &&& request.method == "POST"@ || request.method == "DELETE"@
            &&& request.method == "DELETE"@ && request.method != "POST"@ ==> request.body.len() == 0
        },
{
    match request_of(b, ended, config, host) {
        Reading::Ready(request) => {
            let limit = config.header_limit_bytes as int;
            let line = crlf_line(b, 0, ended, limit)->Ready_0;
            let at = request_headers(b, line.1, ended, limit, Seq::empty())->Ready_0.1;
            lemma_body_length(request.method, request.target, request.headers, config, host);
            lemma_crlf_line_within(b, 0, ended, limit);
            lemma_request_headers_within(b, line.1, ended, limit, Seq::empty());
            if request.method == "DELETE"@ && request.method != "POST"@ {
                assert(b.subrange(at, at + 0) =~= Seq::<u8>::empty());
                assert(request.body == decode_utf8(Seq::<u8>::empty()));
            }
        },
        _ => {},
    }
}

} // verus!

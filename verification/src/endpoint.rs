//! What a URL names, and which headers a caller may add to a request.

use vstd::prelude::*;
use vstd::utf8::*;
use crate::error::ErrorModel;
use crate::http_request;
use crate::http_request::{Headers, UrlModel};
use crate::json;
use crate::text;

verus! {

// ---------------------------------------------------------------------------
// URLs
// ---------------------------------------------------------------------------

/// Whether a text can stand in a URL where its authority stands: it ends where a
/// slash, a question mark or a number sign comes, and names no user.
pub open spec fn within_authority(s: Seq<char>) -> bool {
    forall|i: int|
        0 <= i < s.len() ==> #[trigger] s[i] != '/' && s[i] != '?' && s[i] != '#' && s[i] != '@'
}

/// Whether a text is a host by its name: it is not blank and holds no colon, and
/// does not start with a bracket.
pub open spec fn is_host_name(host: Seq<char>) -> bool {
    &&& within_authority(host)
    &&& !text::all_whitespace(host)
    &&& host[0] != '['
    &&& forall|i: int| 0 <= i < host.len() ==> #[trigger] host[i] != ':'
}

/// Whether a text can follow the authority of a URL.
pub open spec fn follows_authority(tail: Seq<char>) -> bool {
    tail.len() == 0 || tail[0] == '/' || tail[0] == '?' || tail[0] == '#'
}

/// Whether digits denote a port.
pub open spec fn is_port(digits: Seq<char>) -> bool {
    digits.len() > 0 && text::all_digits(digits) && 1 <= text::number_of(digits) <= 65535
}

/// The port that is meant where none is named.
pub open spec fn implied_port(scheme: Seq<char>) -> int {
    if scheme == "https"@ {
        443
    } else {
        80
    }
}

/// The path that is asked for: what follows the authority, from a slash on.
pub open spec fn path_of(tail: Seq<char>) -> Seq<char> {
    if tail.len() > 0 && tail[0] == '/' {
        tail
    } else {
        seq!['/'] + tail
    }
}

/// What a URL with the given parts names.
pub open spec fn place(scheme: Seq<char>, host: Seq<char>, port: int, authority: Seq<char>, tail: Seq<char>) -> UrlModel {
    UrlModel {
        scheme,
        host,
        port,
        path: path_of(tail),
        authority,
        origin: scheme + "://"@ + authority,
    }
}

proof fn lemma_separator()
    ensures
        "://"@ == seq![':', '/', '/'],
        "/"@ == seq!['/'],
{
    reveal_strlit("://");
    reveal_strlit("/");
    assert("://"@ =~= seq![':', '/', '/']);
    assert("/"@ =~= seq!['/']);
}

/// The scheme of a URL ends at its first separator.
proof fn lemma_scheme_found(scheme: Seq<char>, rest: Seq<char>)
    requires
        forall|i: int| 0 <= i < scheme.len() ==> #[trigger] scheme[i] != ':',
    ensures
        ({
            let url = scheme + "://"@ + rest;
            &&& text::find_from(url, "://"@, 0) == Some(scheme.len() as int)
            &&& url.take(scheme.len() as int) == scheme
            &&& url.skip(scheme.len() as int + 3) == rest
        }),
{
    lemma_separator();
    let url = scheme + "://"@ + rest;
    let n = scheme.len() as int;
    assert(url.subrange(n, n + 3) =~= "://"@);
    assert(text::stands_at(url, "://"@, n));
    text::law_found_is_first(url, "://"@, 0);
    let found = text::find_from(url, "://"@, 0)->0;
    if found < n {
        assert(url.subrange(found, found + 3)[0] == url[found]);
        assert(url[found] == scheme[found]);
    }
    assert(found == n) by {
        if found > n {
            assert(!text::stands_at(url, "://"@, n));
        }
    }
    assert(url.take(n) =~= scheme);
    assert(url.skip(n + 3) =~= rest);
}

/// The authority of a URL ends where something follows it.
proof fn lemma_authority_ends(authority: Seq<char>, tail: Seq<char>, at: int)
    requires
        within_authority(authority),
        follows_authority(tail),
        0 <= at <= authority.len(),
    ensures
        http_request::authority_end(authority + tail, at) == authority.len(),
    decreases authority.len() - at,
{
    let rest = authority + tail;
    if at < authority.len() {
        assert(rest[at] == authority[at]);
        lemma_authority_ends(authority, tail, at + 1);
    } else if tail.len() > 0 {
        assert(rest[at] == tail[0]);
    }
}

/// What a URL names is settled by its scheme, its authority and what follows.
proof fn lemma_url(scheme: Seq<char>, authority: Seq<char>, tail: Seq<char>, ipv6: Option<Seq<char>>)
    requires
        forall|i: int| 0 <= i < scheme.len() ==> #[trigger] scheme[i] != ':',
        within_authority(authority),
        !text::all_whitespace(authority),
        follows_authority(tail),
    ensures
        http_request::url_parts(scheme + "://"@ + authority + tail, ipv6) == match http_request::authority_parts(
            scheme,
            authority,
            ipv6,
        ) {
            Ok((host, port)) => Ok::<UrlModel, ErrorModel>(
                place(scheme, host, port, authority, tail),
            ),
            Err(error) => Err(error),
        },
{
    lemma_separator();
    let rest = authority + tail;
    let url = scheme + "://"@ + authority + tail;
    assert(url =~= scheme + "://"@ + rest);
    lemma_scheme_found(scheme, rest);
    lemma_authority_ends(authority, tail, 0);
    let n = authority.len() as int;
    assert(rest.take(n) =~= authority);
    assert(rest.skip(n) =~= tail);
    text::lemma_trimmed_is_empty(authority);
    assert(!text::has_char(authority, '@'));
    if tail.len() == 0 {
        assert(seq!['/'] + tail =~= "/"@);
    }
}

proof fn lemma_no_colons(s: Seq<char>)
    requires
        forall|i: int| 0 <= i < s.len() ==> #[trigger] s[i] != ':',
    ensures
        http_request::colons(s) == 0,
    decreases s.len(),
{
    if s.len() > 0 {
        lemma_no_colons(s.drop_last());
    }
}

proof fn lemma_one_colon(before: Seq<char>, after: Seq<char>)
    requires
        forall|i: int| 0 <= i < before.len() ==> #[trigger] before[i] != ':',
        forall|i: int| 0 <= i < after.len() ==> #[trigger] after[i] != ':',
    ensures
        http_request::colons(before + seq![':'] + after) == 1,
    decreases after.len(),
{
    let s = before + seq![':'] + after;
    if after.len() == 0 {
        assert(s.drop_last() =~= before);
        lemma_no_colons(before);
    } else {
        assert(s.drop_last() =~= before + seq![':'] + after.drop_last());
        lemma_one_colon(before, after.drop_last());
    }
}

proof fn lemma_port(digits: Seq<char>)
    requires
        digits.len() > 0,
        text::all_digits(digits),
    ensures
        is_port(digits) ==> http_request::port_value(digits) == Ok::<int, ErrorModel>(
            text::number_of(digits),
        ),
        !is_port(digits) ==> http_request::port_value(digits) is Err,
{
    assert('0' <= digits[0] <= '9');
    text::lemma_bounded_digits(digits, 65535);
}

/// A URL with a host by its name and a port names that host and that port, with
/// the path that follows.
pub proof fn law_urls_with_a_port(
    scheme: Seq<char>,
    host: Seq<char>,
    digits: Seq<char>,
    tail: Seq<char>,
    ipv6: Option<Seq<char>>,
)
    requires
        forall|i: int| 0 <= i < scheme.len() ==> #[trigger] scheme[i] != ':',
        is_host_name(host),
        digits.len() > 0,
        text::all_digits(digits),
        follows_authority(tail),
    ensures
        ({
            let authority = host + seq![':'] + digits;
            let parsed = http_request::url_parts(scheme + "://"@ + authority + tail, ipv6);
            &&& is_port(digits) ==> parsed == Ok::<UrlModel, ErrorModel>(
                place(scheme, host, text::number_of(digits), authority, tail),
            )
            &&& !is_port(digits) ==> parsed is Err
        }),
{
    let authority = host + seq![':'] + digits;
    let colon = host.len() as int;
    assert(host.len() > 0) by {
        if host.len() == 0 {
            assert(text::all_whitespace(host));
        }
    }
    assert forall|i: int| 0 <= i < digits.len() implies #[trigger] digits[i] != ':' by {
        assert('0' <= digits[i] <= '9');
    }
    assert forall|i: int| 0 <= i < authority.len() implies #[trigger] authority[i] != '/'
        && authority[i] != '?' && authority[i] != '#' && authority[i] != '@' by {
        if i < colon {
            assert(authority[i] == host[i]);
        } else if i > colon {
            assert(authority[i] == digits[i - colon - 1]);
            assert('0' <= digits[i - colon - 1] <= '9');
        }
    }
    let k = choose|k: int| 0 <= k < host.len() && !text::is_whitespace(#[trigger] host[k]);
    assert(authority[k] == host[k]);
    lemma_url(scheme, authority, tail, ipv6);
    lemma_one_colon(host, digits);
    text::lemma_char_position(authority, ':', 0);
    assert(authority[colon] == ':');
    let found = text::char_position(authority, ':', 0);
    if found < colon {
        assert(authority[found] == host[found]);
    }
    assert(found == colon);
    assert(authority.take(colon) =~= host);
    assert(authority.skip(colon + 1) =~= digits);
    assert(authority[0] == host[0]);
    lemma_port(digits);
}

/// A URL with a host by its name and no port names that host and the port that
/// its scheme implies.
pub proof fn law_urls_without_a_port(
    scheme: Seq<char>,
    host: Seq<char>,
    tail: Seq<char>,
    ipv6: Option<Seq<char>>,
)
    requires
        forall|i: int| 0 <= i < scheme.len() ==> #[trigger] scheme[i] != ':',
        is_host_name(host),
        follows_authority(tail),
    ensures
        http_request::url_parts(scheme + "://"@ + host + tail, ipv6) == Ok::<UrlModel, ErrorModel>(
            place(scheme, host, implied_port(scheme), host, tail),
        ),
{
    lemma_url(scheme, host, tail, ipv6);
    lemma_no_colons(host);
    text::lemma_char_position(host, ':', 0);
}

/// A URL with an address in brackets names the host that the address is in its
/// canonical form, and the port behind the brackets or the one that its scheme
/// implies; one whose address is no address is refused.
pub proof fn law_urls_with_an_address(
    scheme: Seq<char>,
    literal: Seq<char>,
    digits: Option<Seq<char>>,
    tail: Seq<char>,
    ipv6: Option<Seq<char>>,
)
    requires
        forall|i: int| 0 <= i < scheme.len() ==> #[trigger] scheme[i] != ':',
        within_authority(literal),
        forall|i: int| 0 <= i < literal.len() ==> #[trigger] literal[i] != ']',
        digits matches Some(d) ==> d.len() > 0 && text::all_digits(d),
        follows_authority(tail),
    ensures
        ({
            let authority = match digits {
                Some(d) => seq!['['] + literal + seq![']', ':'] + d,
                None => seq!['['] + literal + seq![']'],
            };
            let port = match digits {
                Some(d) => text::number_of(d),
                None => implied_port(scheme),
            };
            let parsed = http_request::url_parts(scheme + "://"@ + authority + tail, ipv6);
            &&& http_request::bracketed(authority) == Some(literal)
            &&& match ipv6 {
                None => parsed is Err,
                Some(host) => if digits is None || is_port(digits->0) {
                    parsed == Ok::<UrlModel, ErrorModel>(place(scheme, host, port, authority, tail))
                } else {
                    parsed is Err
                },
            }
        }),
{
    let authority = match digits {
        Some(d) => seq!['['] + literal + seq![']', ':'] + d,
        None => seq!['['] + literal + seq![']'],
    };
    let close = literal.len() as int + 1;
    assert(authority[0] == '[');
    assert(authority[close] == ']');
    assert forall|i: int| 0 <= i < authority.len() implies #[trigger] authority[i] != '/'
        && authority[i] != '?' && authority[i] != '#' && authority[i] != '@' by {
        if 0 < i < close {
            assert(authority[i] == literal[i - 1]);
        } else if digits is Some && i > close + 1 {
            assert(authority[i] == digits->0[i - close - 2]);
            assert('0' <= digits->0[i - close - 2] <= '9');
        }
    }
    assert(!text::is_whitespace(authority[0]));
    lemma_url(scheme, authority, tail, ipv6);
    text::lemma_char_position(authority, ']', 0);
    let found = text::char_position(authority, ']', 0);
    if found < close {
        if found > 0 {
            assert(authority[found] == literal[found - 1]);
        }
    }
    assert(found == close);
    assert(authority.subrange(1, found) =~= literal);
    let suffix = authority.skip(close + 1);
    match digits {
        Some(d) => {
            assert(suffix =~= seq![':'] + d);
            assert(suffix.skip(1) =~= d);
            lemma_port(d);
        },
        None => {
            assert(suffix.len() == 0);
        },
    }
}

/// What a URL is read as gives the URL back: its scheme, its authority and what
/// follows. The host is the authority or stands before its port, without a colon;
/// a port is a number from 1 to 65535; and the path starts with a slash.
pub proof fn law_read_urls_are_what_was_written(url: Seq<char>, ipv6: Option<Seq<char>>) -> (tail: Seq<char>)
    requires
        http_request::url_parts(url, ipv6) is Ok,
    ensures
        ({
            let place = http_request::url_parts(url, ipv6)->Ok_0;
            &&& url == place.scheme + "://"@ + place.authority + tail
            &&& follows_authority(tail)
            &&& place.path == path_of(tail)
            &&& place.path[0] == '/'
            &&& place.origin == place.scheme + "://"@ + place.authority
            &&& within_authority(place.authority)
            &&& 1 <= place.port <= 65535
            &&& place.authority.len() > 0
            &&& place.authority[0] != '[' ==> {
                &&& forall|i: int| 0 <= i < place.host.len() ==> #[trigger] place.host[i] != ':'
                &&& place.host == place.authority || exists|digits: Seq<char>|
                    place.authority == #[trigger] (place.host + seq![':'] + digits)
            }
            &&& place.authority[0] == '[' ==> ipv6 == Some(place.host)
        }),
{
    lemma_separator();
    let place = http_request::url_parts(url, ipv6)->Ok_0;
    text::law_found_is_first(url, "://"@, 0);
    let at = text::find_from(url, "://"@, 0)->0;
    let rest = url.skip(at + 3);
    lemma_authority_end_within(rest, 0);
    let end = http_request::authority_end(rest, 0);
    let authority = rest.take(end);
    let tail = rest.skip(end);
    assert(url =~= url.take(at) + url.subrange(at, at + 3) + authority + tail);
    if tail.len() > 0 {
        assert(tail[0] == rest[end]);
    } else {
        assert(seq!['/'] + tail =~= "/"@);
    }
    assert forall|i: int| 0 <= i < authority.len() implies #[trigger] authority[i] != '/'
        && authority[i] != '?' && authority[i] != '#' && authority[i] != '@' by {
        assert(authority[i] == rest[i]);
    }
    text::lemma_trimmed_is_empty(authority);
    if authority[0] == '[' {
        text::lemma_char_position(authority, ']', 0);
        let close = text::char_position(authority, ']', 0);
        let suffix = authority.skip(close + 1);
        if suffix.len() > 0 {
            lemma_port_range(suffix.skip(1));
        }
    } else {
        text::lemma_char_position(authority, ':', 0);
        let colon = text::char_position(authority, ':', 0);
        if colon < authority.len() {
            lemma_port_range(authority.skip(colon + 1));
            assert(authority =~= authority.take(colon) + seq![':'] + authority.skip(colon + 1));
            assert forall|i: int| 0 <= i < place.host.len() implies #[trigger] place.host[i]
                != ':' by {
                assert(place.host[i] == authority[i]);
            }
        }
    }
    tail
}

proof fn lemma_authority_end_within(s: Seq<char>, at: int)
    requires
        0 <= at <= s.len(),
    ensures
        at <= http_request::authority_end(s, at) <= s.len(),
        forall|i: int|
            at <= i < http_request::authority_end(s, at) ==> #[trigger] s[i] != '/' && s[i] != '?'
                && s[i] != '#',
        http_request::authority_end(s, at) < s.len() ==> {
            let c = s[http_request::authority_end(s, at)];
            c == '/' || c == '?' || c == '#'
        },
    decreases s.len() - at,
{
    if at < s.len() && !http_request::ends_authority(s[at]) {
        lemma_authority_end_within(s, at + 1);
    }
}

proof fn lemma_port_range(value: Seq<char>)
    requires
        http_request::port_value(value) is Ok,
    ensures
        1 <= http_request::port_value(value)->Ok_0 <= 65535,
{
    text::lemma_value_range(value, 0, 0, 65535);
    if value.len() > 1 {
        text::lemma_value_range(value, 1, 0, 65535);
    }
}

/// A URL without a separator has no scheme; one with a user, without a host, or
/// with colons in a host that stands in no brackets is refused.
pub proof fn law_other_urls_are_refused(url: Seq<char>, ipv6: Option<Seq<char>>, i: int, j: int)
    ensures
        (forall|k: int| !#[trigger] text::stands_at(url, "://"@, k)) ==> http_request::url_parts(
            url,
            ipv6,
        ) is Err,
        http_request::url_authority(url) matches Some(authority) && {
            ||| text::all_whitespace(authority)
            ||| 0 <= i < authority.len() && authority[i] == '@'
            ||| 0 <= i < j < authority.len() && authority[0] != '[' && authority[i] == ':'
                && authority[j] == ':'
        } ==> http_request::url_parts(url, ipv6) is Err,
{
    lemma_separator();
    text::law_found_is_first(url, "://"@, 0);
    if text::find_from(url, "://"@, 0) is Some {
        assert(text::stands_at(url, "://"@, text::find_from(url, "://"@, 0)->0));
    }
    if http_request::url_authority(url) is Some {
        let authority = http_request::url_authority(url)->0;
        text::lemma_trimmed_is_empty(authority);
        if 0 <= i < j < authority.len() && authority[i] == ':' && authority[j] == ':' {
            lemma_two_colons(authority, i, j);
        }
    }
}

proof fn lemma_colon(s: Seq<char>, i: int)
    requires
        0 <= i < s.len(),
        s[i] == ':',
    ensures
        http_request::colons(s) >= 1,
    decreases s.len(),
{
    if i < s.len() - 1 {
        lemma_colon(s.drop_last(), i);
    }
}

proof fn lemma_two_colons(s: Seq<char>, i: int, j: int)
    requires
        0 <= i < j < s.len(),
        s[i] == ':',
        s[j] == ':',
    ensures
        http_request::colons(s) >= 2,
    decreases s.len(),
{
    if j < s.len() - 1 {
        lemma_two_colons(s.drop_last(), i, j);
    } else {
        lemma_colon(s.drop_last(), i);
    }
}

// ---------------------------------------------------------------------------
// Headers
// ---------------------------------------------------------------------------

/// Whether a text is a header name that a caller may use: letters, digits and
/// dashes, at least one.
pub open spec fn is_caller_name(name: Seq<char>) -> bool {
    &&& name.len() > 0
    &&& forall|i: int|
        0 <= i < name.len() ==> ('a' <= #[trigger] name[i] <= 'z' || 'A' <= name[i] <= 'Z' || '0'
            <= name[i] <= '9' || name[i] == '-')
}

/// The names that a caller may not use, in whatever letters.
pub open spec fn reserved_names() -> Seq<Seq<char>> {
    seq![
        "host"@,
        "connection"@,
        "content-type"@,
        "accept"@,
        "content-length"@,
        "transfer-encoding"@,
        "te"@,
        "trailer"@,
        "upgrade"@,
        "proxy-connection"@,
        "mcp-session-id"@,
        "mcp-protocol-version"@,
    ]
}

/// Whether two names differ in their letter case at most.
pub open spec fn same_name(a: Seq<char>, b: Seq<char>) -> bool {
    text::lower(a) == text::lower(b)
}

proof fn lemma_name_bytes(name: Seq<char>)
    ensures
        http_request::is_plain_name(name) <==> is_caller_name(name),
{
    text::lemma_trimmed_is_empty(name);
    if http_request::is_plain_name(name) {
        let b = encode_utf8(name);
        assert forall|i: int| 0 <= i < b.len() implies #[trigger] b[i] < 0x80 by {
            assert(http_request::is_alphanumeric_or_dash(b[i]));
        }
        text::lemma_ascii_bytes_are_ascii_chars(name);
        assert forall|i: int| 0 <= i < name.len() implies ('a' <= #[trigger] name[i] <= 'z' || 'A'
            <= name[i] <= 'Z' || '0' <= name[i] <= '9' || name[i] == '-') by {
            assert(b[i] == name[i] as u8);
            assert(http_request::is_alphanumeric_or_dash(b[i]));
        }
    }
    if is_caller_name(name) {
        let b = encode_utf8(name);
        assert(is_ascii_chars(name)) by {
            assert forall|i: int| 0 <= i < name.len() implies '\0' <= #[trigger] name[i]
                <= '\u{7f}' by {}
        }
        is_ascii_chars_encode_utf8(name);
        assert forall|i: int| 0 <= i < b.len() implies http_request::is_alphanumeric_or_dash(
            #[trigger] b[i],
        ) by {
            assert(b[i] == name[i] as u8);
            let c = name[i];
            assert('a' <= c <= 'z' || 'A' <= c <= 'Z' || '0' <= c <= '9' || c == '-');
        }
        assert(!text::is_whitespace(name[0]));
    }
}

/// A header of a caller is taken exactly if its name is one that a caller may use,
/// is none of those that the transport sets in whatever letters, and its value
/// holds no control character but tabs.
pub proof fn law_headers_that_are_taken(name: Seq<char>, value: Seq<char>)
    ensures
        http_request::header_refusal(name, value) is None <==> {
            &&& is_caller_name(name)
            &&& !reserved_names().contains(text::lower(name))
            &&& forall|i: int|
                0 <= i < value.len() ==> #[trigger] value[i] == '\t' || (0x20 <= value[i] as u32
                    && !(0x7f <= value[i] as u32 <= 0x9f))
        },
{
    lemma_name_bytes(name);
    let all = reserved_names();
    let n = text::lower(name);
    assert(all.contains(n) <==> http_request::is_transport_header(n)) by {
        if http_request::is_transport_header(n) {
            assert(all[0] == "host"@ && all[1] == "connection"@ && all[2] == "content-type"@
                && all[3] == "accept"@ && all[4] == "content-length"@ && all[5]
                == "transfer-encoding"@ && all[6] == "te"@ && all[7] == "trailer"@ && all[8]
                == "upgrade"@ && all[9] == "proxy-connection"@ && all[10] == "mcp-session-id"@
                && all[11] == "mcp-protocol-version"@);
        }
    }
    if !http_request::has_forbidden_control(value) {
        assert forall|i: int| 0 <= i < value.len() implies #[trigger] value[i] == '\t' || (0x20
            <= value[i] as u32 && !(0x7f <= value[i] as u32 <= 0x9f)) by {
            assert(!(value[i] != '\t' && json::is_control(value[i])));
        }
    } else {
        let i = choose|i: int|
            0 <= i < value.len() && #[trigger] value[i] != '\t' && json::is_control(value[i]);
        assert(value[i] != '\t');
    }
}

/// The headers of a caller are taken exactly if each of them is on its own, and no
/// two names differ in their letter case at most.
pub proof fn law_header_lists_that_are_taken(headers: Headers)
    ensures
        http_request::headers_refusal(headers) is None <==> {
            &&& forall|i: int|
                0 <= i < headers.len() ==> http_request::header_refusal(
                    (#[trigger] headers[i]).0,
                    headers[i].1,
                ) is None
            &&& forall|i: int, j: int|
                0 <= i < j < headers.len() ==> !same_name(
                    (#[trigger] headers[i]).0,
                    (#[trigger] headers[j]).0,
                )
        },
    decreases headers.len(),
{
    if headers.len() > 0 {
        let front = headers.drop_last();
        let last = headers.last();
        law_header_lists_that_are_taken(front);
        assert(forall|i: int| 0 <= i < front.len() ==> front[i] == headers[i]);
        if http_request::headers_refusal(headers) is None {
            assert forall|i: int| 0 <= i < headers.len() implies http_request::header_refusal(
                (#[trigger] headers[i]).0,
                headers[i].1,
            ) is None by {
                if i < front.len() {
                    assert(http_request::header_refusal(front[i].0, front[i].1) is None);
                }
            }
            assert forall|i: int, j: int| 0 <= i < j < headers.len() implies !same_name(
                (#[trigger] headers[i]).0,
                (#[trigger] headers[j]).0,
            ) by {
                if j < front.len() {
                    assert(!same_name(front[i].0, front[j].0));
                } else if same_name(headers[i].0, last.0) {
                    assert(text::lower(front[i].0) == text::lower(last.0));
                    assert(http_request::lower_names(front).contains(text::lower(last.0)));
                }
            }
        } else {
            if http_request::headers_refusal(front) is None && http_request::header_refusal(
                last.0,
                last.1,
            ) is None {
                let i = choose|i: int|
                    0 <= i < front.len() && text::lower((#[trigger] front[i]).0) == text::lower(
                        last.0,
                    );
                assert(same_name(headers[i].0, headers[headers.len() - 1].0));
            } else if http_request::headers_refusal(front) is Some {
                if forall|i: int|
                    0 <= i < headers.len() ==> http_request::header_refusal(
                        (#[trigger] headers[i]).0,
                        headers[i].1,
                    ) is None {
                    assert forall|i: int| 0 <= i < front.len() implies http_request::header_refusal(
                        (#[trigger] front[i]).0,
                        front[i].1,
                    ) is None by {
                        assert(http_request::header_refusal(headers[i].0, headers[i].1) is None);
                    }
                    let (i, j) = choose|i: int, j: int|
                        0 <= i < j < front.len() && same_name(
                            (#[trigger] front[i]).0,
                            (#[trigger] front[j]).0,
                        );
                    assert(same_name(headers[i].0, headers[j].0));
                }
            } else {
                assert(http_request::header_refusal(
                    headers[headers.len() - 1].0,
                    headers[headers.len() - 1].1,
                ) is Some);
            }
        }
    }
}

// ---------------------------------------------------------------------------
// Heads of requests
// ---------------------------------------------------------------------------

/// Whether the headers from a position on have names, whatever their case, that are
/// not in use and differ from one another.
pub open spec fn are_free(headers: Headers, at: int, names: Set<Seq<char>>) -> bool {
    &&& forall|i: int|
        at <= i < headers.len() ==> !names.contains(text::lower((#[trigger] headers[i]).0))
    &&& forall|i: int, j: int|
        at <= i < j < headers.len() ==> text::lower((#[trigger] headers[i]).0) != text::lower(
            (#[trigger] headers[j]).0,
        )
}

proof fn lemma_free_step(headers: Headers, at: int, names: Set<Seq<char>>)
    requires
        0 <= at < headers.len(),
    ensures
        are_free(headers, at, names) <==> !names.contains(text::lower(headers[at].0)) && are_free(
            headers,
            at + 1,
            names.insert(text::lower(headers[at].0)),
        ),
{
    let name = text::lower(headers[at].0);
    let more = names.insert(name);
    if are_free(headers, at, names) {
        assert forall|i: int| at + 1 <= i < headers.len() implies !more.contains(
            text::lower((#[trigger] headers[i]).0),
        ) by {
            assert(text::lower(headers[at].0) != text::lower(headers[i].0));
        }
    }
    if !names.contains(name) && are_free(headers, at + 1, more) {
        assert forall|i: int| at <= i < headers.len() implies !names.contains(
            text::lower((#[trigger] headers[i]).0),
        ) by {
            if i > at {
                assert(!more.contains(text::lower(headers[i].0)));
            }
        }
        assert forall|i: int, j: int| at <= i < j < headers.len() implies text::lower(
            (#[trigger] headers[i]).0,
        ) != text::lower((#[trigger] headers[j]).0) by {
            if i == at {
                assert(!more.contains(text::lower(headers[j].0)));
            }
        }
    }
}

proof fn lemma_caller_lines(headers: Headers, at: int, names: Set<Seq<char>>, out: Seq<char>)
    requires
        0 <= at <= headers.len(),
    ensures
        http_request::caller_lines(headers, at, names, out) is Ok <==> are_free(headers, at, names)
            && forall|i: int|
            at <= i < headers.len() ==> http_request::header_refusal(
                (#[trigger] headers[i]).0,
                headers[i].1,
            ) is None,
        http_request::caller_lines(headers, at, names, out) matches Ok((used, _)) ==> forall|
            n: Seq<char>,
        | #[trigger]
            used.contains(n) <==> names.contains(n) || exists|i: int|
                at <= i < headers.len() && text::lower((#[trigger] headers[i]).0) == n,
    decreases headers.len() - at,
{
    if at < headers.len() {
        let (name, value) = headers[at];
        let more = names.insert(text::lower(name));
        lemma_free_step(headers, at, names);
        lemma_caller_lines(headers, at + 1, more, out + http_request::header_text(name, value));
        if http_request::caller_lines(headers, at, names, out) is Ok {
            assert forall|i: int| at <= i < headers.len() implies http_request::header_refusal(
                (#[trigger] headers[i]).0,
                headers[i].1,
            ) is None by {}
            let (used, _) = http_request::caller_lines(headers, at, names, out)->Ok_0;
            assert forall|n: Seq<char>| #[trigger] used.contains(n) <==> names.contains(n)
                || exists|i: int|
                at <= i < headers.len() && text::lower((#[trigger] headers[i]).0) == n by {
                if n == text::lower(name) {
                    assert(text::lower(headers[at].0) == n);
                }
            }
        }
    }
}

proof fn lemma_session_lines(headers: Headers, at: int, names: Set<Seq<char>>, out: Seq<char>)
    requires
        0 <= at <= headers.len(),
    ensures
        http_request::session_lines(headers, at, names, out) is Ok <==> are_free(headers, at, names)
            && forall|i: int|
            at <= i < headers.len() ==> http_request::internal_header_refusal(
                (#[trigger] headers[i]).0,
                headers[i].1,
            ) is None,
    decreases headers.len() - at,
{
    if at < headers.len() {
        let (name, value) = headers[at];
        let more = names.insert(text::lower(name));
        lemma_free_step(headers, at, names);
        lemma_session_lines(headers, at + 1, more, out + http_request::header_text(name, value));
        if http_request::session_lines(headers, at, names, out) is Ok {
            assert forall|i: int|
                at <= i < headers.len() implies http_request::internal_header_refusal(
                (#[trigger] headers[i]).0,
                headers[i].1,
            ) is None by {}
        }
    }
}

/// Whether a name is one that the transport writes itself, with a body or without.
pub open spec fn is_written_anyway(name: Seq<char>, body: Seq<char>) -> bool {
    ||| name == "host"@
    ||| name == "connection"@
    ||| name == "accept"@
    ||| body.len() > 0 && (name == "content-type"@ || name == "content-length"@)
}

/// The head of a request is written exactly if its method is capitals, digits and
/// hyphens, what it accepts is not empty and holds no control bytes, every header is
/// one that may be written, and no two headers have one name, those of the transport
/// among them.
pub proof fn law_heads_that_are_written(
    url: UrlModel,
    method: Seq<char>,
    accept: Seq<char>,
    body: Seq<char>,
    headers: Headers,
    session: Headers,
)
    ensures
        http_request::request_head(url, method, accept, body, headers, session) is Ok <==> {
            &&& method.len() > 0
            &&& forall|i: int|
                0 <= i < encode_utf8(method).len() ==> {
                    let byte = #[trigger] encode_utf8(method)[i];
                    0x41 <= byte <= 0x5a || 0x30 <= byte <= 0x39 || byte == 0x2d
                }
            &&& accept.len() > 0
            &&& forall|i: int|
                0 <= i < encode_utf8(accept).len() ==> 0x20 <= #[trigger] encode_utf8(accept)[i]
                    && encode_utf8(accept)[i] != 0x7f
            &&& forall|i: int|
                0 <= i < headers.len() ==> http_request::header_refusal(
                    (#[trigger] headers[i]).0,
                    headers[i].1,
                ) is None
            &&& forall|i: int|
                0 <= i < session.len() ==> http_request::internal_header_refusal(
                    (#[trigger] session[i]).0,
                    session[i].1,
                ) is None
            &&& are_free(headers, 0, Set::new(|n: Seq<char>| is_written_anyway(n, body)))
            &&& are_free(
                session,
                0,
                Set::new(
                    |n: Seq<char>|
                        is_written_anyway(n, body) || exists|i: int|
                            0 <= i < headers.len() && text::lower((#[trigger] headers[i]).0) == n,
                ),
            )
        },
{
    let base = http_request::transport_names(body);
    let anyway = Set::new(|n: Seq<char>| is_written_anyway(n, body));
    let all = Set::new(
        |n: Seq<char>|
            is_written_anyway(n, body) || exists|i: int|
                0 <= i < headers.len() && text::lower((#[trigger] headers[i]).0) == n,
    );
    assert(base =~= anyway);
    let out = http_request::transport_lines(method, url, accept, body);
    lemma_caller_lines(headers, 0, base, out);
    if http_request::caller_lines(headers, 0, base, out) is Ok {
        let (used, text) = http_request::caller_lines(headers, 0, base, out)->Ok_0;
        assert(used =~= all) by {
            assert forall|n: Seq<char>| used.contains(n) == all.contains(n) by {
                assert(base.contains(n) == is_written_anyway(n, body));
            }
        }
        lemma_session_lines(session, 0, used, text);
    }
    assert(http_request::valid_method(method) <==> method.len() > 0 && forall|i: int|
        0 <= i < encode_utf8(method).len() ==> {
            let byte = #[trigger] encode_utf8(method)[i];
            0x41 <= byte <= 0x5a || 0x30 <= byte <= 0x39 || byte == 0x2d
        });
    let bytes = encode_utf8(accept);
    if http_request::has_control_bytes(bytes) {
        let i = choose|i: int| 0 <= i < bytes.len() && (#[trigger] bytes[i] < 0x20 || bytes[i] == 0x7f);
        assert(!(0x20 <= encode_utf8(accept)[i] && encode_utf8(accept)[i] != 0x7f));
    }
}

/// A header of the session may be written exactly if its name is bytes of names, not
/// blank, and its value is printable and not empty.
pub proof fn law_session_headers_that_are_taken(name: Seq<char>, value: Seq<char>)
    ensures
        http_request::internal_header_refusal(name, value) is None <==> {
            &&& text::trimmed(name).len() > 0
            &&& forall|i: int|
                0 <= i < encode_utf8(name).len() ==> crate::request_reading::is_name_byte(
                    #[trigger] encode_utf8(name)[i],
                )
            &&& value.len() > 0
            &&& forall|i: int|
                0 <= i < encode_utf8(value).len() ==> 0x20 <= #[trigger] encode_utf8(value)[i]
                    <= 0x7e
        },
{
    assert forall|byte: u8| #[trigger]
        crate::http_framing::is_token_byte(byte) == crate::request_reading::is_name_byte(byte) by {}
    let b = encode_utf8(name);
    if crate::http_framing::all_token_bytes(b) {
        assert forall|i: int| 0 <= i < b.len() implies crate::request_reading::is_name_byte(
            #[trigger] encode_utf8(name)[i],
        ) by {
            assert(crate::http_framing::is_token_byte(b[i]));
        }
    }
    if forall|i: int|
        0 <= i < encode_utf8(name).len() ==> crate::request_reading::is_name_byte(
            #[trigger] encode_utf8(name)[i],
        ) {
        assert forall|i: int| 0 <= i < b.len() implies crate::http_framing::is_token_byte(
            #[trigger] b[i],
        ) by {
            assert(crate::request_reading::is_name_byte(encode_utf8(name)[i]));
        }
    }
}

} // verus!

//! What a client writes as a request, a server reads as that request.

use vstd::prelude::*;
use vstd::utf8::*;
use crate::http_framing;
use crate::http_request;
use crate::http_request::{Headers, UrlModel};
use crate::json;
use crate::json::Fields;
use crate::server_config;
use crate::server_config::ServerConfigModel;
use crate::server_request;
use crate::server_request::{FailureModel, Reading, RequestModel, MAX_HEADER_COUNT};
use crate::text;
use crate::wire;

verus! {

// ---------------------------------------------------------------------------
// Lines and headers
// ---------------------------------------------------------------------------

/// A line that stands between other bytes is read as that line.
proof fn lemma_line_is_taken(before: Seq<u8>, line: Seq<char>, after: Seq<u8>, ended: bool, limit: int)
    requires
        wire::is_line_text(line),
        before.len() + line.len() + 2 <= limit,
    ensures
        ({
            let b = before + encode_utf8(line) + wire::line_end() + after;
            let at = before.len() as int;
            let end = at + line.len();
            &&& server_request::crlf_line(b, at, ended, limit) == Reading::<
                (int, int),
                FailureModel,
            >::Ready((end, end + 2))
            &&& b.subrange(at, end) == encode_utf8(line)
            &&& end + 2 <= b.len()
        }),
{
    wire::lemma_line_bytes(line);
    let b = before + encode_utf8(line) + wire::line_end() + after;
    let at = before.len() as int;
    let end = at + line.len();
    assert(b.subrange(at, end) =~= encode_utf8(line));
    assert(b[end] == 13 && b[end + 1] == 10);
    assert forall|i: int| at <= i < end + 1 implies #[trigger] b[i] != 10 by {
        if i < end {
            assert(b[i] == encode_utf8(line)[i - at]);
        }
    }
    wire::lemma_feed_position(b, 10, at, end + 1);
}

/// Whether a text is printable ASCII.
pub open spec fn is_printable(s: Seq<char>) -> bool {
    forall|i: int| 0 <= i < s.len() ==> ' ' <= #[trigger] s[i] <= '~'
}

/// Whether a text can be the value of a request header as it is.
pub open spec fn is_request_value(value: Seq<char>) -> bool {
    is_printable(value) && (value.len() > 0 ==> value[0] != ' ' && value.last() != ' ')
}

/// Whether headers can be written in a request as they are.
pub open spec fn are_request_headers(headers: Headers) -> bool {
    forall|i: int|
        0 <= i < headers.len() ==> wire::is_header_name((#[trigger] headers[i]).0)
            && is_request_value(headers[i].1)
}

proof fn lemma_request_value(value: Seq<char>)
    requires
        is_request_value(value),
    ensures
        wire::is_header_value(value),
{
    assert forall|i: int| 0 <= i < value.len() implies ' ' <= #[trigger] value[i] <= '~' by {}
}

proof fn lemma_unspaced_value(value: Seq<u8>)
    requires
        value.len() > 0 ==> value[0] != 32 && value.last() != 32,
    ensures
        server_request::unspaced(seq![32u8] + value) == value,
{
    let s = seq![32u8] + value;
    assert(s.drop_first() =~= value);
    reveal_with_fuel(server_request::space_front, 2);
    if value.len() == 0 {
        assert(value =~= Seq::<u8>::empty());
    }
    assert(server_request::space_front(s) == value);
    assert(server_request::space_back(value) == value);
}

/// A header line is read as its name in small letters and its value.
proof fn lemma_request_header_is_read(name: Seq<char>, value: Seq<char>)
    requires
        wire::is_header_name(name),
        is_request_value(value),
    ensures
        server_request::request_header(encode_utf8(wire::header_content(name, value))) == Ok::<
            (Seq<char>, Seq<char>),
            FailureModel,
        >((text::lower(name), value)),
{
    let content = wire::header_content(name, value);
    let line = encode_utf8(content);
    lemma_request_value(value);
    wire::lemma_header_content(name, value);
    wire::lemma_line_bytes(content);
    assert(wire::is_line_text(name)) by {
        assert forall|i: int| 0 <= i < name.len() implies ' ' <= #[trigger] name[i] <= '~' by {}
    }
    wire::lemma_line_bytes(name);
    wire::lemma_line_bytes(value);
    let colon = name.len() as int;
    let bytes = encode_utf8(value);
    assert(content[colon] == ':' && content[colon + 1] == ' ');
    assert(content[0] == name[0]);
    assert forall|i: int| 0 <= i < colon implies #[trigger] line[i] != 58 by {
        assert(content[i] == name[i]);
    }
    wire::lemma_feed_position(line, 58, 0, colon);
    assert(line.subrange(0, colon) =~= encode_utf8(name)) by {
        assert forall|i: int| 0 <= i < colon implies line[i] == #[trigger] encode_utf8(name)[i] by {
            assert(content[i] == name[i]);
        }
    }
    assert(line.skip(colon + 1) =~= seq![32u8] + bytes) by {
        assert forall|i: int| 0 <= i < bytes.len() implies line[colon + 2 + i] == #[trigger] bytes[i] by {
            assert(content[colon + 2 + i] == value[i]);
        }
    }
    if value.len() > 0 {
        assert(bytes[0] == value[0] as u8);
        assert(bytes[bytes.len() - 1] == value[value.len() - 1] as u8);
    }
    lemma_unspaced_value(bytes);
    assert(http_framing::all_token_bytes(encode_utf8(name))) by {
        assert forall|i: int| 0 <= i < name.len() implies http_framing::is_token_byte(
            #[trigger] encode_utf8(name)[i],
        ) by {
            assert(http_framing::is_token_byte(name[i] as u8));
        }
    }
    assert(server_request::all_printable(bytes)) by {
        assert forall|i: int| 0 <= i < bytes.len() implies 0x20 <= #[trigger] bytes[i] <= 0x7e by {
            assert(bytes[i] == value[i] as u8);
        }
    }
    assert(line[0] == name[0] as u8);
}

/// Headers with their names in small letters.
pub open spec fn lowered(headers: Headers) -> Fields {
    headers.map_values(|h: (Seq<char>, Seq<char>)| (text::lower(h.0), h.1))
}

/// Headers that stand between other bytes, with the empty line behind them, are
/// read in their order.
#[verifier::rlimit(30)]
proof fn lemma_request_headers_are_read(
    before: Seq<u8>,
    read: Fields,
    headers: Headers,
    after: Seq<u8>,
    ended: bool,
    limit: int,
)
    requires
        are_request_headers(headers),
        before.len() + encode_utf8(wire::header_lines(headers)).len() + 2 <= limit,
        read.len() + headers.len() <= MAX_HEADER_COUNT,
        json::distinct_keys(read + lowered(headers)),
    ensures
        server_request::request_headers(
            before + encode_utf8(wire::header_lines(headers)) + wire::line_end() + after,
            before.len() as int,
            ended,
            limit,
            read,
        ) == Reading::<(Fields, int), FailureModel>::Ready(
            (
                read + lowered(headers),
                (before.len() + encode_utf8(wire::header_lines(headers)).len() + 2) as int,
            ),
        ),
    decreases headers.len(),
{
    let lines = wire::header_lines(headers);
    let b = before + encode_utf8(lines) + wire::line_end() + after;
    if headers.len() == 0 {
        let none = Seq::<char>::empty();
        wire::lemma_line_bytes(none);
        lemma_line_is_taken(before, none, after, ended, limit);
        assert(read + lowered(headers) =~= read);
    } else {
        let (name, value) = headers[0];
        let content = wire::header_content(name, value);
        let rest = headers.drop_first();
        assert(wire::is_header_name(headers[0].0) && is_request_value(headers[0].1));
        lemma_request_value(value);
        wire::lemma_header_content(name, value);
        lemma_request_header_is_read(name, value);
        wire::lemma_line_bytes(content);
        wire::lemma_line_end_bytes();
        text::lemma_encode_concat(content, "\r\n"@);
        text::lemma_encode_concat(http_request::header_text(name, value), wire::header_lines(rest));
        let tail = encode_utf8(wire::header_lines(rest)) + wire::line_end() + after;
        assert(b =~= before + encode_utf8(content) + wire::line_end() + tail);
        lemma_line_is_taken(before, content, tail, ended, limit);
        let front = before + encode_utf8(content) + wire::line_end();
        assert(b =~= front + encode_utf8(wire::header_lines(rest)) + wire::line_end() + after);
        assert forall|i: int| 0 <= i < rest.len() implies wire::is_header_name(
            (#[trigger] rest[i]).0,
        ) && is_request_value(rest[i].1) by {
            assert(rest[i] == headers[i + 1]);
        }
        let all = read + lowered(headers);
        let next = read.push((text::lower(name), value));
        assert(next + lowered(rest) =~= all);
        assert(all[read.len() as int] == (text::lower(name), value));
        assert forall|i: int| 0 <= i < read.len() implies (#[trigger] read[i]).0 != text::lower(
            name,
        ) by {
            assert(all[i] == read[i]);
            assert(all[i].0 != all[read.len() as int].0);
        }
        json::lemma_lookup_absent(read, text::lower(name));
        lemma_request_headers_are_read(front, next, rest, after, ended, limit);
    }
}

// ---------------------------------------------------------------------------
// What a request is written as
// ---------------------------------------------------------------------------

/// The first line of a request.
pub open spec fn asking_line(method: Seq<char>, path: Seq<char>) -> Seq<char> {
    method + " "@ + path + " HTTP/1.1"@
}

/// The headers that the transport itself writes.
pub open spec fn transport_headers(url: UrlModel, accept: Seq<char>, body: Seq<char>) -> Headers {
    let base = seq![("Host"@, url.authority), ("Connection"@, "close"@), ("Accept"@, accept)];
    if body.len() == 0 {
        base
    } else {
        base + seq![
            ("Content-Type"@, "application/json"@),
            ("Content-Length"@, text::decimal(encode_utf8(body).len())),
        ]
    }
}

/// The headers of a request: the transport's, the caller's and the session's.
pub open spec fn asking_headers(
    url: UrlModel,
    accept: Seq<char>,
    body: Seq<char>,
    headers: Headers,
    session: Headers,
) -> Headers {
    transport_headers(url, accept, body) + headers + session
}

proof fn lemma_asking_literals()
    ensures
        " HTTP/1.1\r\nHost: "@ == " HTTP/1.1"@ + "\r\n"@ + "Host"@ + ": "@,
        "\r\nConnection: close\r\nAccept: "@ == "\r\n"@ + ("Connection"@ + ": "@ + "close"@
            + "\r\n"@) + ("Accept"@ + ": "@),
        "Content-Type: application/json\r\nContent-Length: "@ == "Content-Type"@ + ": "@
            + "application/json"@ + "\r\n"@ + ("Content-Length"@ + ": "@),
{
    reveal_strlit(" HTTP/1.1\r\nHost: ");
    reveal_strlit(" HTTP/1.1");
    reveal_strlit("\r\n");
    reveal_strlit("Host");
    reveal_strlit(": ");
    reveal_strlit("\r\nConnection: close\r\nAccept: ");
    reveal_strlit("Connection");
    reveal_strlit("close");
    reveal_strlit("Accept");
    reveal_strlit("Content-Type: application/json\r\nContent-Length: ");
    reveal_strlit("Content-Type");
    reveal_strlit("application/json");
    reveal_strlit("Content-Length");
    assert(" HTTP/1.1\r\nHost: "@ =~= " HTTP/1.1"@ + "\r\n"@ + "Host"@ + ": "@);
    assert("\r\nConnection: close\r\nAccept: "@ =~= "\r\n"@ + ("Connection"@ + ": "@ + "close"@
        + "\r\n"@) + ("Accept"@ + ": "@));
    assert("Content-Type: application/json\r\nContent-Length: "@ =~= "Content-Type"@ + ": "@
        + "application/json"@ + "\r\n"@ + ("Content-Length"@ + ": "@));
}

proof fn lemma_base_joined(
    line: Seq<char>,
    version: Seq<char>,
    end: Seq<char>,
    host: Seq<char>,
    colon: Seq<char>,
    authority: Seq<char>,
    connection: Seq<char>,
    accept_label: Seq<char>,
    accept: Seq<char>,
)
    ensures
        line + (version + end + host + colon) + authority + (end + connection + (accept_label
            + colon)) + accept + end == line + version + end + ((host + colon + authority + end)
            + connection + (accept_label + colon + accept + end)),
{
    assert(line + (version + end + host + colon) + authority + (end + connection + (accept_label
        + colon)) + accept + end =~= line + version + end + ((host + colon + authority + end)
        + connection + (accept_label + colon + accept + end)));
}

proof fn lemma_length_joined(
    front: Seq<char>,
    kind: Seq<char>,
    label: Seq<char>,
    length: Seq<char>,
    end: Seq<char>,
    first: Seq<char>,
    base: Seq<char>,
)
    requires
        front == first + base,
    ensures
        front + (kind + label) + length + end == first + (base + (kind + (label + length + end))),
{
    assert(front + (kind + label) + length + end =~= first + (base + (kind + (label + length
        + end))));
}

/// The transport's lines are the first line and the transport's headers.
proof fn lemma_transport_lines(method: Seq<char>, url: UrlModel, accept: Seq<char>, body: Seq<char>)
    ensures
        http_request::transport_lines(method, url, accept, body) == asking_line(method, url.path)
            + "\r\n"@ + wire::header_lines(transport_headers(url, accept, body)),
{
    let host = ("Host"@, url.authority);
    let connection = ("Connection"@, "close"@);
    let accepts = ("Accept"@, accept);
    let base = seq![host, connection, accepts];
    lemma_asking_literals();
    wire::lemma_one_line(host.0, host.1);
    wire::lemma_one_line(connection.0, connection.1);
    wire::lemma_one_line(accepts.0, accepts.1);
    wire::lemma_lines_joined(seq![host], seq![connection]);
    wire::lemma_lines_joined(seq![host] + seq![connection], seq![accepts]);
    assert(seq![host] + seq![connection] + seq![accepts] =~= base);
    let base_lines = http_request::header_text(host.0, host.1) + http_request::header_text(
        connection.0,
        connection.1,
    ) + http_request::header_text(accepts.0, accepts.1);
    assert(wire::header_lines(base) == base_lines);
    lemma_base_joined(
        method + " "@ + url.path,
        " HTTP/1.1"@,
        "\r\n"@,
        "Host"@,
        ": "@,
        url.authority,
        http_request::header_text(connection.0, connection.1),
        "Accept"@,
        accept,
    );
    let first = asking_line(method, url.path) + "\r\n"@;
    let front = method + " "@ + url.path + " HTTP/1.1\r\nHost: "@ + url.authority
        + "\r\nConnection: close\r\nAccept: "@ + accept + "\r\n"@;
    assert(front == first + base_lines);
    if body.len() > 0 {
        let kind = ("Content-Type"@, "application/json"@);
        let length = ("Content-Length"@, text::decimal(encode_utf8(body).len()));
        wire::lemma_one_line(kind.0, kind.1);
        wire::lemma_one_line(length.0, length.1);
        wire::lemma_lines_joined(seq![kind], seq![length]);
        assert(seq![kind] + seq![length] =~= seq![kind, length]);
        wire::lemma_lines_joined(base, seq![kind, length]);
        lemma_length_joined(
            front,
            http_request::header_text(kind.0, kind.1),
            "Content-Length"@ + ": "@,
            length.1,
            "\r\n"@,
            first,
            base_lines,
        );
    }
}

proof fn lemma_one_more_name(prior: Headers, header: (Seq<char>, Seq<char>))
    requires
        json::distinct_keys(lowered(prior)),
        !http_request::lower_names(prior).contains(text::lower(header.0)),
    ensures
        json::distinct_keys(lowered(prior.push(header))),
        http_request::lower_names(prior.push(header)) == http_request::lower_names(prior).insert(
            text::lower(header.0),
        ),
{
    let next = prior.push(header);
    let small = text::lower(header.0);
    assert forall|i: int, j: int| 0 <= i < j < lowered(next).len() implies (#[trigger] lowered(
        next,
    )[i]).0 != (#[trigger] lowered(next)[j]).0 by {
        assert(next[i] == prior[i]);
        if j < prior.len() {
            assert(next[j] == prior[j]);
            assert(lowered(prior)[i].0 != lowered(prior)[j].0);
        } else {
            assert(text::lower(prior[i].0) == lowered(next)[i].0);
        }
    }
    assert forall|n: Seq<char>|
        http_request::lower_names(next).contains(n) <==> http_request::lower_names(prior).insert(
            small,
        ).contains(n) by {
        if http_request::lower_names(prior).contains(n) {
            let k = choose|k: int|
                0 <= k < prior.len() && text::lower((#[trigger] prior[k]).0) == n;
            assert(next[k] == prior[k]);
        }
        if n == small {
            assert(text::lower(next[prior.len() as int].0) == n);
        }
        if http_request::lower_names(next).contains(n) {
            let k = choose|k: int| 0 <= k < next.len() && text::lower((#[trigger] next[k]).0) == n;
            if k < prior.len() {
                assert(prior[k] == next[k]);
            }
        }
    }
    assert(http_request::lower_names(next) =~= http_request::lower_names(prior).insert(small));
}

/// The caller's lines are written behind the others, under names not used yet.
proof fn lemma_caller_lines(headers: Headers, at: int, names: Set<Seq<char>>, out: Seq<char>, prior: Headers)
    requires
        0 <= at <= headers.len(),
        names == http_request::lower_names(prior),
        json::distinct_keys(lowered(prior)),
        http_request::caller_lines(headers, at, names, out) is Ok,
    ensures
        ({
            let all = prior + headers.skip(at);
            &&& http_request::caller_lines(headers, at, names, out)->Ok_0 == (
                http_request::lower_names(all),
                out + wire::header_lines(headers.skip(at)),
            )
            &&& json::distinct_keys(lowered(all))
        }),
    decreases headers.len() - at,
{
    let rest = headers.skip(at);
    if at < headers.len() {
        let (name, value) = headers[at];
        lemma_one_more_name(prior, headers[at]);
        lemma_caller_lines(
            headers,
            at + 1,
            names.insert(text::lower(name)),
            out + http_request::header_text(name, value),
            prior.push(headers[at]),
        );
        assert(rest.drop_first() =~= headers.skip(at + 1));
        assert(prior.push(headers[at]) + headers.skip(at + 1) =~= prior + rest);
        assert(out + http_request::header_text(name, value) + wire::header_lines(
            headers.skip(at + 1),
        ) =~= out + wire::header_lines(rest));
    } else {
        assert(rest =~= Seq::empty());
        assert(prior + rest =~= prior);
        assert(out + wire::header_lines(rest) =~= out);
    }
}

/// The session's lines are written behind the others, under names not used yet.
proof fn lemma_session_lines(headers: Headers, at: int, names: Set<Seq<char>>, out: Seq<char>, prior: Headers)
    requires
        0 <= at <= headers.len(),
        names == http_request::lower_names(prior),
        json::distinct_keys(lowered(prior)),
        http_request::session_lines(headers, at, names, out) is Ok,
    ensures
        ({
            let all = prior + headers.skip(at);
            &&& http_request::session_lines(headers, at, names, out)->Ok_0 == out
                + wire::header_lines(headers.skip(at))
            &&& json::distinct_keys(lowered(all))
        }),
    decreases headers.len() - at,
{
    let rest = headers.skip(at);
    if at < headers.len() {
        let (name, value) = headers[at];
        lemma_one_more_name(prior, headers[at]);
        lemma_session_lines(
            headers,
            at + 1,
            names.insert(text::lower(name)),
            out + http_request::header_text(name, value),
            prior.push(headers[at]),
        );
        assert(rest.drop_first() =~= headers.skip(at + 1));
        assert(prior.push(headers[at]) + headers.skip(at + 1) =~= prior + rest);
        assert(out + http_request::header_text(name, value) + wire::header_lines(
            headers.skip(at + 1),
        ) =~= out + wire::header_lines(rest));
    } else {
        assert(rest =~= Seq::empty());
        assert(prior + rest =~= prior);
        assert(out + wire::header_lines(rest) =~= out);
    }
}

/// The names that the transport writes, in small letters.
pub proof fn lemma_transport_words()
    ensures
        text::lower("Host"@) == "host"@,
        text::lower("Connection"@) == "connection"@,
        text::lower("Accept"@) == "accept"@,
        text::lower("Content-Type"@) == "content-type"@,
        text::lower("Content-Length"@) == "content-length"@,
        "host"@.len() == 4,
        "connection"@.len() == 10,
        "accept"@.len() == 6,
        "content-type"@.len() == 12,
        "content-length"@.len() == 14,
{
    reveal_strlit("Host");
    reveal_strlit("host");
    reveal_strlit("Connection");
    reveal_strlit("connection");
    reveal_strlit("Accept");
    reveal_strlit("accept");
    reveal_strlit("Content-Type");
    reveal_strlit("content-type");
    reveal_strlit("Content-Length");
    reveal_strlit("content-length");
    assert(text::lower("Host"@) =~= "host"@);
    assert(text::lower("Connection"@) =~= "connection"@);
    assert(text::lower("Accept"@) =~= "accept"@);
    assert(text::lower("Content-Type"@) =~= "content-type"@);
    assert(text::lower("Content-Length"@) =~= "content-length"@);
}

proof fn lemma_transport_names(url: UrlModel, accept: Seq<char>, body: Seq<char>)
    ensures
        http_request::lower_names(transport_headers(url, accept, body))
            == http_request::transport_names(body),
        json::distinct_keys(lowered(transport_headers(url, accept, body))),
{
    let none: Headers = Seq::empty();
    let host = ("Host"@, url.authority);
    let connection = ("Connection"@, "close"@);
    let accepts = ("Accept"@, accept);
    let kind = ("Content-Type"@, "application/json"@);
    let length = ("Content-Length"@, text::decimal(encode_utf8(body).len()));
    lemma_transport_words();
    assert(http_request::lower_names(none) =~= Set::empty());
    lemma_one_more_name(none, host);
    lemma_one_more_name(none.push(host), connection);
    lemma_one_more_name(none.push(host).push(connection), accepts);
    let base = none.push(host).push(connection).push(accepts);
    assert(base =~= seq![host, connection, accepts]);
    if body.len() > 0 {
        lemma_one_more_name(base, kind);
        lemma_one_more_name(base.push(kind), length);
        assert(base.push(kind).push(length) =~= transport_headers(url, accept, body));
    }
}

/// A request that is sent is written as its first line, its headers and its body.
pub proof fn lemma_asking_text(
    url: UrlModel,
    method: Seq<char>,
    accept: Seq<char>,
    body: Seq<char>,
    headers: Headers,
    session: Headers,
)
    requires
        http_request::request_text(url, method, accept, body, headers, session) is Ok,
    ensures
        http_request::request_text(url, method, accept, body, headers, session)->Ok_0
            == asking_line(method, url.path) + "\r\n"@ + wire::header_lines(
            asking_headers(url, accept, body, headers, session),
        ) + "\r\n"@ + body,
        json::distinct_keys(lowered(asking_headers(url, accept, body, headers, session))),
{
    let own = transport_headers(url, accept, body);
    let names = http_request::transport_names(body);
    let out = http_request::transport_lines(method, url, accept, body);
    let first = asking_line(method, url.path) + "\r\n"@;
    lemma_transport_lines(method, url, accept, body);
    lemma_transport_names(url, accept, body);
    lemma_caller_lines(headers, 0, names, out, own);
    assert(headers.skip(0) =~= headers);
    let (more, next) = http_request::caller_lines(headers, 0, names, out)->Ok_0;
    lemma_session_lines(session, 0, more, next, own + headers);
    assert(session.skip(0) =~= session);
    wire::lemma_lines_joined(own, headers);
    wire::lemma_lines_joined(own + headers, session);
    assert(first + wire::header_lines(own) + wire::header_lines(headers) + wire::header_lines(
        session,
    ) =~= first + (wire::header_lines(own) + wire::header_lines(headers) + wire::header_lines(
        session,
    )));
}

// ---------------------------------------------------------------------------
// What a server reads
// ---------------------------------------------------------------------------

proof fn lemma_parts_of_three(a: Seq<char>, b: Seq<char>, c: Seq<char>)
    requires
        forall|i: int| 0 <= i < a.len() ==> #[trigger] a[i] != ' ',
        forall|i: int| 0 <= i < b.len() ==> #[trigger] b[i] != ' ',
        forall|i: int| 0 <= i < c.len() ==> #[trigger] c[i] != ' ',
    ensures
        text::split(a + seq![' '] + b + seq![' '] + c, ' ') == seq![a, b, c],
{
    let s = a + seq![' '] + b + seq![' '] + c;
    let one = a.len() as int;
    let two = (a.len() + 1 + b.len()) as int;
    assert(s[one] == ' ' && s[two] == ' ');
    assert forall|i: int| 0 <= i < one implies #[trigger] s[i] != ' ' by {
        assert(s[i] == a[i]);
    }
    assert forall|i: int| one < i < two implies #[trigger] s[i] != ' ' by {
        assert(s[i] == b[i - one - 1]);
    }
    assert forall|i: int| two < i < s.len() implies #[trigger] s[i] != ' ' by {
        assert(s[i] == c[i - two - 1]);
    }
    wire::lemma_space_position(s, ' ', 0, one);
    wire::lemma_space_position(s, ' ', one + 1, two);
    text::lemma_char_position(s, ' ', two + 1);
    assert(s.subrange(0, one) =~= a);
    assert(s.subrange(one + 1, two) =~= b);
    assert(s.subrange(two + 1, s.len() as int) =~= c);
    reveal_with_fuel(text::parts_from, 3);
    assert(text::split(s, ' ') =~= seq![a, b, c]);
}

/// The first line of a request is read as its method and its target.
proof fn lemma_asking_line_is_read(method: Seq<char>, path: Seq<char>)
    requires
        method.len() > 0,
        server_request::all_upper(method),
        path.len() > 0,
        server_request::all_visible(path),
    ensures
        wire::is_line_text(asking_line(method, path)),
        server_request::request_line(encode_utf8(asking_line(method, path))) == Ok::<
            (Seq<char>, Seq<char>),
            FailureModel,
        >((method, path)),
{
    let s = asking_line(method, path);
    reveal_strlit(" ");
    reveal_strlit(" HTTP/1.1");
    reveal_strlit("HTTP/1.1");
    let version = "HTTP/1.1"@;
    assert(s =~= method + seq![' '] + path + seq![' '] + version);
    assert forall|i: int| 0 <= i < method.len() implies #[trigger] method[i] != ' ' by {
        assert('A' <= method[i]);
    }
    assert forall|i: int| 0 <= i < path.len() implies #[trigger] path[i] != ' ' by {
        assert(server_config::is_visible(path[i]));
    }
    lemma_parts_of_three(method, path, version);
    assert forall|i: int| 0 <= i < s.len() implies ' ' <= #[trigger] s[i] <= '~' || s[i]
        == '\t' by {
        let two = method.len() + 1 + path.len();
        if i < method.len() {
            assert(s[i] == method[i]);
        } else if method.len() < i < two {
            assert(s[i] == path[i - method.len() - 1]);
            assert(server_config::is_visible(path[i - method.len() - 1]));
        } else if two < i {
            assert(s[i] == version[i - two - 1]);
        }
    }
    encode_utf8_valid_utf8(s);
    encode_utf8_decode_utf8(s);
}

/// Whether a request can be read by a server that bounds its head: every part of
/// it stands in a line as it is, no header but the transport's tells a length,
/// and the head is not too long.
pub open spec fn is_readable(
    url: UrlModel,
    method: Seq<char>,
    accept: Seq<char>,
    body: Seq<char>,
    headers: Headers,
    session: Headers,
    limit: int,
) -> bool {
    let all = asking_headers(url, accept, body, headers, session);
    &&& method.len() > 0 && server_request::all_upper(method)
    &&& url.path.len() > 0 && server_request::all_visible(url.path)
    &&& is_request_value(url.authority)
    &&& is_request_value(accept)
    &&& are_request_headers(headers)
    &&& are_request_headers(session)
    &&& !http_request::lower_names(headers + session).contains("content-length"@)
    &&& encode_utf8(body).len() <= usize::MAX
    &&& all.len() <= MAX_HEADER_COUNT
    &&& asking_line(method, url.path).len() + encode_utf8(wire::header_lines(all)).len() + 4
        <= limit
}

proof fn lemma_transport_headers_are_written(url: UrlModel, accept: Seq<char>, body: Seq<char>)
    requires
        is_request_value(url.authority),
        is_request_value(accept),
    ensures
        are_request_headers(transport_headers(url, accept, body)),
{
    reveal_strlit("Host");
    reveal_strlit("Connection");
    reveal_strlit("Accept");
    reveal_strlit("Content-Type");
    reveal_strlit("Content-Length");
    reveal_strlit("close");
    reveal_strlit("application/json");
    assert(wire::is_header_name("Host"@));
    assert(wire::is_header_name("Connection"@));
    assert(wire::is_header_name("Accept"@));
    assert(wire::is_header_name("Content-Type"@));
    assert(wire::is_header_name("Content-Length"@));
    assert(is_request_value("close"@));
    assert(is_request_value("application/json"@));
    let d = text::decimal(encode_utf8(body).len());
    text::lemma_decimal_digits(encode_utf8(body).len());
    assert forall|i: int| 0 <= i < d.len() implies '0' <= #[trigger] d[i] <= '9' by {
        assert(text::is_decimal_digit(d[i]));
    }
    assert(is_request_value(d));
}

/// The headers of a request tell the length of its body.
proof fn lemma_length_is_told(
    url: UrlModel,
    accept: Seq<char>,
    body: Seq<char>,
    headers: Headers,
    session: Headers,
)
    requires
        json::distinct_keys(lowered(asking_headers(url, accept, body, headers, session))),
        !http_request::lower_names(headers + session).contains("content-length"@),
        encode_utf8(body).len() <= usize::MAX,
    ensures
        server_request::declared_length(
            lowered(asking_headers(url, accept, body, headers, session)),
        ) == Ok::<int, FailureModel>(encode_utf8(body).len() as int),
{
    let all = asking_headers(url, accept, body, headers, session);
    let fields = lowered(all);
    let length = encode_utf8(body).len();
    lemma_transport_words();
    if body.len() > 0 {
        assert(all[4] == ("Content-Length"@, text::decimal(length)));
        json::lemma_lookup_at(fields, 4);
        text::lemma_decimal_digits(length);
        text::lemma_digits_read_back(length, usize::MAX as int);
        assert(http_framing::all_digits(text::decimal(length)));
    } else {
        assert(body =~= Seq::empty());
        assert(length == 0);
        let others = headers + session;
        assert forall|i: int| 0 <= i < fields.len() implies (#[trigger] fields[i]).0
            != "content-length"@ by {
            if i >= 3 {
                assert(all[i] == others[i - 3]);
                assert(text::lower(others[i - 3].0) == fields[i].0);
            } else {
                assert(all[i] == transport_headers(url, accept, body)[i]);
            }
        }
        json::lemma_lookup_absent(fields, "content-length"@);
    }
}

proof fn lemma_told_is_body_length(
    method: Seq<char>,
    target: Seq<char>,
    headers: Fields,
    config: ServerConfigModel,
    host: Seq<char>,
)
    ensures
        server_request::body_length(method, target, headers, config, host) matches Ok(length)
            ==> server_request::declared_length(headers) == Ok::<int, FailureModel>(length),
{
}

/// A server reads from a connection the request that a client has written to it:
/// the method, the target, every header under its name in small letters, and the
/// body. It refuses it where the head gives it a reason to, whether or not more
/// is to come.
#[verifier::rlimit(30)]
pub proof fn law_servers_read_requests(
    url: UrlModel,
    method: Seq<char>,
    accept: Seq<char>,
    body: Seq<char>,
    headers: Headers,
    session: Headers,
    config: ServerConfigModel,
    host: Seq<char>,
    ended: bool,
)
    requires
        http_request::request_text(url, method, accept, body, headers, session) is Ok,
        is_readable(
            url,
            method,
            accept,
            body,
            headers,
            session,
            config.header_limit_bytes as int,
        ),
    ensures
        ({
            let sent = http_request::request_text(
                url,
                method,
                accept,
                body,
                headers,
                session,
            )->Ok_0;
            let fields = lowered(asking_headers(url, accept, body, headers, session));
            server_request::request_of(encode_utf8(sent), ended, config, host) == (
            match server_request::body_length(method, url.path, fields, config, host) {
                Err(failed) => Reading::<RequestModel, FailureModel>::Fail(failed),
                Ok(_) => Reading::Ready(
                    RequestModel { method, target: url.path, headers: fields, body },
                ),
            })
        }),
{
    let sent = http_request::request_text(url, method, accept, body, headers, session)->Ok_0;
    let all = asking_headers(url, accept, body, headers, session);
    let fields = lowered(all);
    let line = asking_line(method, url.path);
    let lines = wire::header_lines(all);
    let limit = config.header_limit_bytes as int;
    let bytes = encode_utf8(body);
    let none = Seq::<u8>::empty();
    lemma_asking_text(url, method, accept, body, headers, session);
    wire::lemma_line_end_bytes();
    text::lemma_encode_concat(line, "\r\n"@);
    text::lemma_encode_concat(line + "\r\n"@, lines);
    text::lemma_encode_concat(line + "\r\n"@ + lines, "\r\n"@);
    text::lemma_encode_concat(line + "\r\n"@ + lines + "\r\n"@, body);
    let b = encode_utf8(sent);
    assert(b == encode_utf8(line) + wire::line_end() + encode_utf8(lines) + wire::line_end()
        + bytes);
    lemma_asking_line_is_read(method, url.path);
    wire::lemma_line_bytes(line);
    lemma_transport_headers_are_written(url, accept, body);
    assert(are_request_headers(all)) by {
        let own = transport_headers(url, accept, body);
        assert forall|i: int| 0 <= i < all.len() implies wire::is_header_name(
            (#[trigger] all[i]).0,
        ) && is_request_value(all[i].1) by {
            if i < own.len() {
                assert(all[i] == own[i]);
            } else if i < own.len() + headers.len() {
                assert(all[i] == headers[i - own.len()]);
            } else {
                assert(all[i] == session[i - own.len() - headers.len()]);
            }
        }
    }
    let tail = encode_utf8(lines) + wire::line_end() + bytes;
    assert(b =~= none + encode_utf8(line) + wire::line_end() + tail);
    lemma_line_is_taken(none, line, tail, ended, limit);
    let front = encode_utf8(line) + wire::line_end();
    assert(b =~= front + encode_utf8(lines) + wire::line_end() + bytes);
    let read: Fields = Seq::empty();
    assert(read + fields =~= fields);
    lemma_request_headers_are_read(front, read, all, bytes, ended, limit);
    lemma_length_is_told(url, accept, body, headers, session);
    lemma_told_is_body_length(method, url.path, fields, config, host);
    let start = b.len() - bytes.len();
    assert(b.subrange(start, start + bytes.len()) =~= bytes);
    encode_utf8_valid_utf8(body);
    encode_utf8_decode_utf8(body);
}

/// What a client accepts in answer to a message.
pub open spec fn message_accept() -> Seq<char> {
    "application/json, text/event-stream"@
}

/// The media type of JSON names it most closely, at full quality.
pub proof fn lemma_json_entry()
    ensures
        server_request::entry_rank("application/json"@) == Some((2int, 1000int)),
        server_request::is_json_type("application/json"@),
{
    let media = "application/json"@;
    reveal_strlit("application/json");
    assert(media.len() == 16 && media[0] == 'a' && media[15] == 'n');
    wire::lemma_undivided(media, ';');
    text::lemma_trimmed_stays(media);
    assert(text::lower(media) =~= media);
    let parts = text::split(media, ';');
    assert(server_request::quality_from(parts, 1, None) == Some(1000int));
}

/// What a client accepts in answer to a message allows JSON.
pub proof fn lemma_messages_accept_json()
    ensures
        server_request::json_accepted(message_accept()),
        is_request_value(message_accept()),
{
    let value = message_accept();
    let media = "application/json"@;
    reveal_strlit("application/json, text/event-stream");
    reveal_strlit("application/json");
    assert(value.len() == 35 && value[16] == ',');
    wire::lemma_space_position(value, ',', 0, 16);
    assert(value.subrange(0, 16) =~= media);
    let entries = text::split(value, ',');
    assert(entries == seq![media] + text::parts_from(value, ',', 17));
    assert(entries[0] == media);
    lemma_json_entry();
    assert forall|j: int| 0 <= j < entries.len() implies (server_request::entry_rank(
        #[trigger] entries[j],
    ) matches Some(other) ==> other.0 <= 2) by {}
    assert(server_request::is_closest(entries, entries.len() as int, 2));
}

/// Whether the headers that are added to a request leave its framing and its
/// origin alone.
pub open spec fn is_unobtrusive(headers: Headers) -> bool {
    let names = http_request::lower_names(headers);
    &&& !names.contains("content-length"@)
    &&& !names.contains("transfer-encoding"@)
    &&& !names.contains("content-encoding"@)
    &&& !names.contains("expect"@)
    &&& !names.contains("proxy-connection"@)
    &&& !names.contains("te"@)
    &&& !names.contains("trailer"@)
    &&& !names.contains("upgrade"@)
    &&& !names.contains("origin"@)
}

/// A header that nobody writes is not among those of a request.
pub proof fn lemma_not_added(
    url: UrlModel,
    accept: Seq<char>,
    body: Seq<char>,
    headers: Headers,
    session: Headers,
    name: Seq<char>,
)
    requires
        !http_request::lower_names(headers + session).contains(name),
        !http_request::transport_names(body).contains(name),
    ensures
        json::lookup(lowered(asking_headers(url, accept, body, headers, session)), name) is None,
{
    let own = transport_headers(url, accept, body);
    let others = headers + session;
    let all = asking_headers(url, accept, body, headers, session);
    let fields = lowered(all);
    lemma_transport_names(url, accept, body);
    assert forall|i: int| 0 <= i < fields.len() implies (#[trigger] fields[i]).0 != name by {
        if i < own.len() {
            assert(all[i] == own[i]);
            assert(text::lower(own[i].0) == fields[i].0);
        } else {
            assert(all[i] == others[i - own.len()]);
            assert(text::lower(others[i - own.len()].0) == fields[i].0);
        }
    }
    json::lemma_lookup_absent(fields, name);
}

proof fn lemma_control_lengths()
    ensures
        "transfer-encoding"@.len() == 17,
        "content-encoding"@.len() == 16,
        "expect"@.len() == 6,
        "expect"@ != "accept"@,
        "proxy-connection"@.len() == 16,
        "te"@.len() == 2,
        "trailer"@.len() == 7,
        "upgrade"@.len() == 7,
        "origin"@.len() == 6,
        "origin"@ != "accept"@,
{
    reveal_strlit("transfer-encoding");
    reveal_strlit("content-encoding");
    reveal_strlit("expect");
    reveal_strlit("accept");
    reveal_strlit("proxy-connection");
    reveal_strlit("te");
    reveal_strlit("trailer");
    reveal_strlit("upgrade");
    reveal_strlit("origin");
    assert("expect"@[0] == 'e');
    assert("accept"@[0] == 'a');
    assert("origin"@[0] == 'o');
}

/// A request with unobtrusive headers has no other framing and no origin.
pub proof fn lemma_nothing_is_framed_otherwise(
    url: UrlModel,
    accept: Seq<char>,
    body: Seq<char>,
    headers: Headers,
    session: Headers,
)
    requires
        is_unobtrusive(headers + session),
    ensures
        ({
            let fields = lowered(asking_headers(url, accept, body, headers, session));
            &&& json::lookup(fields, "transfer-encoding"@) is None
            &&& !server_request::has_framing_control(fields)
            &&& json::lookup(fields, "origin"@) is None
        }),
{
    lemma_control_lengths();
    lemma_transport_words();
    lemma_not_added(url, accept, body, headers, session, "transfer-encoding"@);
    lemma_not_added(url, accept, body, headers, session, "content-encoding"@);
    lemma_not_added(url, accept, body, headers, session, "expect"@);
    lemma_not_added(url, accept, body, headers, session, "proxy-connection"@);
    lemma_not_added(url, accept, body, headers, session, "te"@);
    lemma_not_added(url, accept, body, headers, session, "trailer"@);
    lemma_not_added(url, accept, body, headers, session, "upgrade"@);
    lemma_not_added(url, accept, body, headers, session, "origin"@);
}

/// A server takes every message that a client posts to its address and path, as
/// long as it keeps within the limits of the server and the client's own headers
/// leave the framing and the origin alone.
pub proof fn law_servers_take_posted_messages(
    url: UrlModel,
    body: Seq<char>,
    headers: Headers,
    session: Headers,
    config: ServerConfigModel,
    ended: bool,
)
    requires
        http_request::request_text(url, "POST"@, message_accept(), body, headers, session) is Ok,
        body.len() > 0,
        encode_utf8(body).len() <= config.request_limit_bytes,
        url.path == config.path,
        is_unobtrusive(headers + session),
        is_readable(
            url,
            "POST"@,
            message_accept(),
            body,
            headers,
            session,
            config.header_limit_bytes as int,
        ),
    ensures
        server_request::request_of(
            encode_utf8(
                http_request::request_text(
                    url,
                    "POST"@,
                    message_accept(),
                    body,
                    headers,
                    session,
                )->Ok_0,
            ),
            ended,
            config,
            url.authority,
        ) == Reading::<RequestModel, FailureModel>::Ready(
            RequestModel {
                method: "POST"@,
                target: config.path,
                headers: lowered(asking_headers(url, message_accept(), body, headers, session)),
                body,
            },
        ),
{
    let accept = message_accept();
    let all = asking_headers(url, accept, body, headers, session);
    let fields = lowered(all);
    law_servers_read_requests(
        url,
        "POST"@,
        accept,
        body,
        headers,
        session,
        config,
        url.authority,
        ended,
    );
    lemma_asking_text(url, "POST"@, accept, body, headers, session);
    lemma_nothing_is_framed_otherwise(url, accept, body, headers, session);
    lemma_length_is_told(url, accept, body, headers, session);
    lemma_messages_accept_json();
    lemma_json_entry();
    lemma_transport_words();
    assert(all[0] == ("Host"@, url.authority));
    assert(all[2] == ("Accept"@, accept));
    assert(all[3] == ("Content-Type"@, "application/json"@));
    assert(all[4] == ("Content-Length"@, text::decimal(encode_utf8(body).len())));
    json::lemma_lookup_at(fields, 0);
    json::lemma_lookup_at(fields, 2);
    json::lemma_lookup_at(fields, 3);
    json::lemma_lookup_at(fields, 4);
    assert(server_request::body_length("POST"@, config.path, fields, config, url.authority) is Ok);
}

} // verus!

//! The body of an open response, handed out piece by piece as it arrives.

use vstd::prelude::*;
use crate::http_framing;
use crate::http_framing::{
    parse_http_chunk_size, read_http_line, validate_http_trailer, HttpBodyFraming, HttpFault,
    Progress, HTTP_HEADER_LIMIT_BYTES,
};
use crate::text::bytes_of;

verus! {

/// Where a reader stands inside a chunked body.
#[derive(Debug, Clone, Copy, PartialEq, Eq, Structural)]
pub enum HttpChunkReadState {
    /// Before a size line.
    Size,
    /// Inside a chunk, with so many bytes to come.
    Data(usize),
    /// Behind the data of a chunk.
    Delimiter,
    /// Inside the trailers, which took so many bytes so far.
    Trailers(usize),
    /// Behind the body.
    Done,
}

/// What one pull does: the state after it, the position after the bytes it
/// used, and what it hands out. No bytes mean the end of the body.
pub struct PullModel {
    pub state: HttpChunkReadState,
    pub next: int,
    pub data: Progress<Seq<u8>>,
}

pub open spec fn least(a: int, b: int) -> int {
    if a <= b {
        a
    } else {
        b
    }
}

/// One pull of at most `room` bytes from a chunked body.
pub open spec fn chunk_pull(b: Seq<u8>, at: int, ended: bool, room: int, state: HttpChunkReadState) -> PullModel
    decreases b.len() - at,
{
    match state {
        HttpChunkReadState::Size => match http_framing::line_at(b, at, 0, ended) {
            Progress::Wait => PullModel { state, next: at, data: Progress::Wait },
            Progress::Fail(fault) => PullModel { state, next: at, data: Progress::Fail(fault) },
            Progress::Ready(line) => match http_framing::chunk_size(b.subrange(at, line.end)) {
                Err(fault) => PullModel { state, next: at, data: Progress::Fail(fault) },
                Ok(size) => if !(at < line.next <= b.len()) {
                    PullModel { state, next: at, data: Progress::Wait }
                } else if size == 0 {
                    chunk_pull(b, line.next, ended, room, HttpChunkReadState::Trailers(0))
                } else {
                    chunk_pull(b, line.next, ended, room, HttpChunkReadState::Data(size as usize))
                },
            },
        },
        HttpChunkReadState::Data(remaining) => if at >= b.len() {
            PullModel {
                state,
                next: at,
                data: if ended {
                    Progress::Fail(HttpFault::StreamChunkIncomplete)
                } else {
                    Progress::Wait
                },
            }
        } else {
            let take = least(least(room, remaining as int), b.len() - at);
            PullModel {
                state: if take == remaining {
                    HttpChunkReadState::Delimiter
                } else {
                    HttpChunkReadState::Data((remaining - take) as usize)
                },
                next: at + take,
                data: Progress::Ready(b.subrange(at, at + take)),
            }
        },
        HttpChunkReadState::Delimiter => if at + 2 > b.len() {
            PullModel {
                state,
                next: at,
                data: if ended {
                    Progress::Fail(HttpFault::BodyIncomplete)
                } else {
                    Progress::Wait
                },
            }
        } else if b[at] != 13 || b[at + 1] != 10 {
            PullModel { state, next: at, data: Progress::Fail(HttpFault::ChunkEnd) }
        } else {
            chunk_pull(b, at + 2, ended, room, HttpChunkReadState::Size)
        },
        HttpChunkReadState::Trailers(used) => match http_framing::line_at(
            b,
            at,
            used as int,
            ended,
        ) {
            Progress::Wait => PullModel { state, next: at, data: Progress::Wait },
            Progress::Fail(fault) => PullModel { state, next: at, data: Progress::Fail(fault) },
            Progress::Ready(line) => if line.end == at {
                PullModel {
                    state: HttpChunkReadState::Done,
                    next: line.next,
                    data: Progress::Ready(Seq::empty()),
                }
            } else {
                match http_framing::trailer_fault(b.subrange(at, line.end)) {
                    Some(fault) => PullModel { state, next: at, data: Progress::Fail(fault) },
                    None => if at < line.next <= b.len() {
                        chunk_pull(
                            b,
                            line.next,
                            ended,
                            room,
                            HttpChunkReadState::Trailers(line.consumed as usize),
                        )
                    } else {
                        PullModel { state, next: at, data: Progress::Wait }
                    },
                }
            },
        },
        HttpChunkReadState::Done => PullModel {
            state,
            next: at,
            data: Progress::Ready(Seq::empty()),
        },
    }
}

/// One pull of at most `room` bytes from a body that so many bytes end.
pub open spec fn length_pull(b: Seq<u8>, at: int, ended: bool, room: int, remaining: int) -> Progress<
    Seq<u8>,
> {
    if remaining == 0 {
        Progress::Ready(Seq::empty())
    } else if at >= b.len() {
        if ended {
            Progress::Fail(HttpFault::StreamBodyIncomplete)
        } else {
            Progress::Wait
        }
    } else {
        Progress::Ready(b.subrange(at, at + least(least(room, remaining), b.len() - at)))
    }
}

/// One pull of at most `room` bytes from a body that the connection's end ends.
pub open spec fn close_pull(b: Seq<u8>, at: int, ended: bool, room: int) -> Progress<Seq<u8>> {
    if at >= b.len() {
        if ended {
            Progress::Ready(Seq::empty())
        } else {
            Progress::Wait
        }
    } else {
        Progress::Ready(b.subrange(at, at + least(room, b.len() - at)))
    }
}

/// A reader of one response body.
#[derive(Debug)]
pub struct HttpSseSource {
    framing: HttpBodyFraming,
    chunk_state: HttpChunkReadState,
}

/// A pull: what it hands out and the position after the bytes it used.
pub struct Pulled {
    pub data: Progress<Vec<u8>>,
    pub next: usize,
}

/// Whether pulled data are the ones that were specified.
pub open spec fn same_data(found: Progress<Vec<u8>>, expected: Progress<Seq<u8>>) -> bool {
    match found {
        Progress::Ready(data) => expected == Progress::Ready(data@),
        Progress::Wait => expected == Progress::<Seq<u8>>::Wait,
        Progress::Fail(fault) => expected == Progress::<Seq<u8>>::Fail(fault),
    }
}

/// The bytes used by a pull that hands out its data as they are.
pub open spec fn used(data: Progress<Seq<u8>>) -> int {
    match data {
        Progress::Ready(bytes) => bytes.len() as int,
        _ => 0,
    }
}

impl HttpSseSource {
    /// How the body is delimited, with what is left of a declared length.
    pub closed spec fn framing(&self) -> HttpBodyFraming {
        self.framing
    }

    /// Where the reader stands inside a chunked body.
    pub closed spec fn chunk_state(&self) -> HttpChunkReadState {
        self.chunk_state
    }

    /// The trailers read so far kept within the limit.
    pub open spec fn wf(&self) -> bool {
        self.chunk_state() matches HttpChunkReadState::Trailers(n) ==> n <= HTTP_HEADER_LIMIT_BYTES
    }

    /// A reader at the start of a body.
    pub fn new(framing: HttpBodyFraming) -> (source: HttpSseSource)
        ensures
            source.wf(),
            source.framing() == framing,
            source.chunk_state() == HttpChunkReadState::Size,
    {
        HttpSseSource { framing, chunk_state: HttpChunkReadState::Size }
    }

    /// Hand out at most `room` bytes of the body from the bytes at `at`.
    pub fn read_sse(&mut self, b: &[u8], at: usize, ended: bool, room: usize) -> (pulled: Pulled)
        requires
            old(self).wf(),
            at <= b@.len(),
            room > 0,
        ensures
            final(self).wf(),
            at <= pulled.next <= b@.len(),
            match old(self).framing() {
                HttpBodyFraming::Bodyless => {
                    &&& same_data(pulled.data, Progress::Ready(Seq::empty()))
                    &&& pulled.next == at
                    &&& *final(self) == *old(self)
                },
                HttpBodyFraming::ContentLength(remaining) => {
                    let data = length_pull(b@, at as int, ended, room as int, remaining as int);
                    &&& same_data(pulled.data, data)
                    &&& pulled.next == at + used(data)
                    &&& final(self).framing() == HttpBodyFraming::ContentLength(
                        (remaining - used(data)) as usize,
                    )
                    &&& used(data) <= remaining
                    &&& final(self).chunk_state() == old(self).chunk_state()
                },
                HttpBodyFraming::Chunked => {
                    let pull = chunk_pull(b@, at as int, ended, room as int, old(self).chunk_state());
                    &&& same_data(pulled.data, pull.data)
                    &&& pulled.next == pull.next
                    &&& final(self).chunk_state() == pull.state
                    &&& final(self).framing() == HttpBodyFraming::Chunked
                },
                HttpBodyFraming::CloseDelimited => {
                    let data = close_pull(b@, at as int, ended, room as int);
                    &&& same_data(pulled.data, data)
                    &&& pulled.next == at + used(data)
                    &&& *final(self) == *old(self)
                },
            },
    {
        match self.framing {
            HttpBodyFraming::Bodyless => {
                let none: Vec<u8> = Vec::new();
                assert(none@ =~= Seq::<u8>::empty());
                Pulled { data: Progress::Ready(none), next: at }
            },
            HttpBodyFraming::ContentLength(remaining) => {
                if remaining == 0 {
                    let none: Vec<u8> = Vec::new();
                    assert(none@ =~= Seq::<u8>::empty());
                    return Pulled { data: Progress::Ready(none), next: at };
                }
                if at >= b.len() {
                    let data = if ended {
                        Progress::Fail(HttpFault::StreamBodyIncomplete)
                    } else {
                        Progress::Wait
                    };
                    return Pulled { data, next: at };
                }
                let take: usize = smaller(smaller(room, remaining), b.len() - at);
                self.framing = HttpBodyFraming::ContentLength(remaining - take);
                Pulled { data: Progress::Ready(bytes_of(b, at, at + take)), next: at + take }
            },
            HttpBodyFraming::Chunked => self.read_chunked(b, at, ended, room),
            HttpBodyFraming::CloseDelimited => {
                if at >= b.len() {
                    if ended {
                        let none: Vec<u8> = Vec::new();
                        assert(none@ =~= Seq::<u8>::empty());
                        return Pulled { data: Progress::Ready(none), next: at };
                    }
                    return Pulled { data: Progress::Wait, next: at };
                }
                let take: usize = smaller(room, b.len() - at);
                Pulled { data: Progress::Ready(bytes_of(b, at, at + take)), next: at + take }
            },
        }
    }

    fn read_chunked(&mut self, b: &[u8], at: usize, ended: bool, room: usize) -> (pulled: Pulled)
        requires
            old(self).wf(),
            at <= b@.len(),
            room > 0,
        ensures
            final(self).wf(),
            at <= pulled.next <= b@.len(),
            final(self).framing() == old(self).framing(),
            ({
                let pull = chunk_pull(b@, at as int, ended, room as int, old(self).chunk_state());
                &&& same_data(pulled.data, pull.data)
                &&& pulled.next == pull.next
                &&& final(self).chunk_state() == pull.state
            }),
    {
        let mut i: usize = at;
        loop
            invariant
                self.wf(),
                at <= i <= b@.len(),
                room > 0,
                self.framing == old(self).framing,
                chunk_pull(b@, at as int, ended, room as int, old(self).chunk_state())
                    == chunk_pull(b@, i as int, ended, room as int, self.chunk_state),
            decreases b@.len() - i,
        {
            match self.chunk_state {
                HttpChunkReadState::Size => {
                    let line = match read_http_line(b, i, 0, ended) {
                        Progress::Ready(line) => line,
                        Progress::Wait => return Pulled { data: Progress::Wait, next: i },
                        Progress::Fail(fault) => return Pulled {
                            data: Progress::Fail(fault),
                            next: i,
                        },
                    };
                    let size = match parse_http_chunk_size(
                        vstd::slice::slice_subrange(b, i, line.end),
                    ) {
                        Ok(size) => size,
                        Err(fault) => return Pulled { data: Progress::Fail(fault), next: i },
                    };
                    self.chunk_state = if size == 0 {
                        HttpChunkReadState::Trailers(0)
                    } else {
                        HttpChunkReadState::Data(size)
                    };
                    i = line.next;
                },
                HttpChunkReadState::Data(remaining) => {
                    if i >= b.len() {
                        let data = if ended {
                            Progress::Fail(HttpFault::StreamChunkIncomplete)
                        } else {
                            Progress::Wait
                        };
                        return Pulled { data, next: i };
                    }
                    let take: usize = smaller(smaller(room, remaining), b.len() - i);
                    self.chunk_state = if take == remaining {
                        HttpChunkReadState::Delimiter
                    } else {
                        HttpChunkReadState::Data(remaining - take)
                    };
                    return Pulled {
                        data: Progress::Ready(bytes_of(b, i, i + take)),
                        next: i + take,
                    };
                },
                HttpChunkReadState::Delimiter => {
                    if b.len() - i < 2 {
                        let data = if ended {
                            Progress::Fail(HttpFault::BodyIncomplete)
                        } else {
                            Progress::Wait
                        };
                        return Pulled { data, next: i };
                    }
                    if b[i] != 13 || b[i + 1] != 10 {
                        return Pulled { data: Progress::Fail(HttpFault::ChunkEnd), next: i };
                    }
                    self.chunk_state = HttpChunkReadState::Size;
                    i += 2;
                },
                HttpChunkReadState::Trailers(used) => {
                    let line = match read_http_line(b, i, used, ended) {
                        Progress::Ready(line) => line,
                        Progress::Wait => return Pulled { data: Progress::Wait, next: i },
                        Progress::Fail(fault) => return Pulled {
                            data: Progress::Fail(fault),
                            next: i,
                        },
                    };
                    if line.end == i {
                        self.chunk_state = HttpChunkReadState::Done;
                        let none: Vec<u8> = Vec::new();
                        assert(none@ =~= Seq::<u8>::empty());
                        return Pulled { data: Progress::Ready(none), next: line.next };
                    }
                    match validate_http_trailer(vstd::slice::slice_subrange(b, i, line.end)) {
                        Ok(()) => {},
                        Err(fault) => return Pulled { data: Progress::Fail(fault), next: i },
                    }
                    self.chunk_state = HttpChunkReadState::Trailers(line.consumed);
                    i = line.next;
                },
                HttpChunkReadState::Done => {
                    let none: Vec<u8> = Vec::new();
                    assert(none@ =~= Seq::<u8>::empty());
                    return Pulled { data: Progress::Ready(none), next: i };
                },
            }
        }
    }
}

fn smaller(a: usize, b: usize) -> (m: usize)
    ensures
        m == least(a as int, b as int),
{
    if a <= b {
        a
    } else {
        b
    }
}

// ---------------------------------------------------------------------------
// Pulling and buffering agree
// ---------------------------------------------------------------------------

/// The data to come when the whole body is at hand; none where it is malformed
/// or incomplete.
pub open spec fn stream_rest(b: Seq<u8>, at: int, state: HttpChunkReadState) -> Option<Seq<u8>>
    decreases b.len() - at, (if state is Data { 1int } else { 0int }),
{
    match state {
        HttpChunkReadState::Size => match http_framing::line_at(b, at, 0, true) {
            Progress::Ready(line) => match http_framing::chunk_size(b.subrange(at, line.end)) {
                Err(_) => None,
                Ok(size) => if !(at < line.next <= b.len()) {
                    None
                } else if size == 0 {
                    stream_rest(b, line.next, HttpChunkReadState::Trailers(0))
                } else {
                    stream_rest(b, line.next, HttpChunkReadState::Data(size as usize))
                },
            },
            _ => None,
        },
        HttpChunkReadState::Data(remaining) => if at + remaining <= b.len() {
            match stream_rest(b, at + remaining, HttpChunkReadState::Delimiter) {
                Some(rest) => Some(b.subrange(at, at + remaining) + rest),
                None => None,
            }
        } else {
            None
        },
        HttpChunkReadState::Delimiter => if at + 2 <= b.len() && b[at] == 13 && b[at + 1] == 10 {
            stream_rest(b, at + 2, HttpChunkReadState::Size)
        } else {
            None
        },
        HttpChunkReadState::Trailers(used) => match http_framing::line_at(b, at, used as int, true) {
            Progress::Ready(line) => if line.end == at {
                Some(Seq::empty())
            } else if http_framing::trailer_fault(b.subrange(at, line.end)) is Some || !(at
                < line.next <= b.len()) {
                None
            } else {
                stream_rest(b, line.next, HttpChunkReadState::Trailers(line.consumed as usize))
            },
            _ => None,
        },
        HttpChunkReadState::Done => Some(Seq::empty()),
    }
}

/// A pull hands out the next bytes of what is to come, and leaves the rest.
pub proof fn law_pull_hands_out_the_next_bytes(
    b: Seq<u8>,
    at: int,
    room: int,
    state: HttpChunkReadState,
)
    requires
        0 <= at <= b.len(),
        0 < room,
        stream_rest(b, at, state) is Some,
    ensures
        ({
            let pull = chunk_pull(b, at, true, room, state);
            &&& pull.data is Ready
            &&& stream_rest(b, pull.next, pull.state) is Some
            &&& stream_rest(b, at, state)->0 == pull.data->Ready_0 + stream_rest(
                b,
                pull.next,
                pull.state,
            )->0
        }),
    decreases b.len() - at,
{
    match state {
        HttpChunkReadState::Size => {
            http_framing::lemma_line_advances(b, at, 0, true);
            let line = http_framing::line_at(b, at, 0, true)->Ready_0;
            let size = http_framing::chunk_size(b.subrange(at, line.end))->Ok_0;
            if size == 0 {
                law_pull_hands_out_the_next_bytes(
                    b,
                    line.next,
                    room,
                    HttpChunkReadState::Trailers(0),
                );
            } else {
                law_pull_hands_out_the_next_bytes(
                    b,
                    line.next,
                    room,
                    HttpChunkReadState::Data(size as usize),
                );
            }
        },
        HttpChunkReadState::Data(remaining) => {
            let rest = stream_rest(b, at + remaining, HttpChunkReadState::Delimiter)->0;
            if at == b.len() {
                assert(stream_rest(b, at, HttpChunkReadState::Delimiter) is None);
            }
            let take = least(least(room, remaining as int), b.len() - at);
            if take < remaining {
                assert(b.subrange(at, at + remaining) + rest =~= b.subrange(at, at + take) + (
                b.subrange(at + take, at + remaining) + rest));
            }
        },
        HttpChunkReadState::Delimiter => {
            law_pull_hands_out_the_next_bytes(b, at + 2, room, HttpChunkReadState::Size);
        },
        HttpChunkReadState::Trailers(used) => {
            http_framing::lemma_line_advances(b, at, used as int, true);
            let line = http_framing::line_at(b, at, used as int, true)->Ready_0;
            if line.end != at {
                law_pull_hands_out_the_next_bytes(
                    b,
                    line.next,
                    room,
                    HttpChunkReadState::Trailers(line.consumed as usize),
                );
            } else {
                assert(Seq::<u8>::empty() + Seq::<u8>::empty() =~= Seq::<u8>::empty());
            }
        },
        HttpChunkReadState::Done => {
            assert(Seq::<u8>::empty() + Seq::<u8>::empty() =~= Seq::<u8>::empty());
        },
    }
}

proof fn lemma_line_with_less_used(b: Seq<u8>, at: int, used: int, less: int)
    requires
        0 <= at <= b.len(),
        less <= used,
        http_framing::line_at(b, at, used, true) is Ready,
    ensures
        http_framing::line_at(b, at, less, true) is Ready,
        http_framing::line_at(b, at, less, true)->Ready_0.end == http_framing::line_at(
            b,
            at,
            used,
            true,
        )->Ready_0.end,
        http_framing::line_at(b, at, less, true)->Ready_0.next == http_framing::line_at(
            b,
            at,
            used,
            true,
        )->Ready_0.next,
        http_framing::line_at(b, at, less, true)->Ready_0.consumed <= http_framing::line_at(
            b,
            at,
            used,
            true,
        )->Ready_0.consumed,
{
    http_framing::lemma_byte_position(b, 10, at);
}

proof fn lemma_trailers_agree(b: Seq<u8>, at: int, used: int, less: usize)
    requires
        0 <= at <= b.len(),
        less <= used,
        http_framing::trailers_from(b, at, used, true) is Ready,
    ensures
        stream_rest(b, at, HttpChunkReadState::Trailers(less)) == Some(Seq::<u8>::empty()),
    decreases b.len() - at,
{
    lemma_line_with_less_used(b, at, used, less as int);
    http_framing::lemma_line_advances(b, at, used, true);
    http_framing::lemma_line_advances(b, at, less as int, true);
    let line = http_framing::line_at(b, at, used, true)->Ready_0;
    let span = http_framing::line_at(b, at, less as int, true)->Ready_0;
    if line.end != at {
        assert(span.consumed <= HTTP_HEADER_LIMIT_BYTES);
        lemma_trailers_agree(b, line.next, line.consumed, span.consumed as usize);
    }
}

/// A chunked body that the buffered reader completes is what the pulls hand
/// out: both readers decode the same bytes.
pub proof fn law_pulls_agree_with_buffered_reading(
    b: Seq<u8>,
    at: int,
    used: int,
    limit: int,
    body: Seq<u8>,
)
    requires
        0 <= at <= b.len(),
        0 <= used,
        http_framing::chunks_from(b, at, used, true, limit, body) matches Progress::Ready(
            (_, false, _),
        ),
    ensures
        stream_rest(b, at, HttpChunkReadState::Size) is Some,
        http_framing::chunks_from(b, at, used, true, limit, body)->Ready_0.0 == body + stream_rest(
            b,
            at,
            HttpChunkReadState::Size,
        )->0,
    decreases b.len() - at,
{
    http_framing::lemma_line_advances(b, at, used, true);
    let line = http_framing::line_at(b, at, used, true)->Ready_0;
    lemma_line_with_less_used(b, at, used, 0);
    http_framing::lemma_chunk_size_nonnegative(b.subrange(at, line.end));
    let size = http_framing::chunk_size(b.subrange(at, line.end))->Ok_0;
    if size == 0 {
        lemma_trailers_agree(b, line.next, line.consumed, 0);
        assert(body + Seq::<u8>::empty() =~= body);
    } else {
        let close = line.next + size;
        let chunk = b.subrange(line.next, close);
        law_pulls_agree_with_buffered_reading(b, close + 2, line.consumed, limit, body + chunk);
        let rest = stream_rest(b, close + 2, HttpChunkReadState::Size)->0;
        assert(stream_rest(b, close, HttpChunkReadState::Delimiter) == Some(rest));
        assert(size as usize == size);
        assert(stream_rest(b, line.next, HttpChunkReadState::Data(size as usize)) == Some(
            chunk + rest,
        ));
        assert((body + chunk) + rest =~= body + (chunk + rest));
    }
}

/// Of a body with a declared length a pull hands out what comes next: as much as there
/// is room for, as is left of the length, and as is at hand, and at least one byte
/// while something is left and at hand. One that ends before its length fails.
pub proof fn law_counted_pulls(b: Seq<u8>, at: int, ended: bool, room: int, remaining: int)
    requires
        0 <= at <= b.len(),
        0 < room,
        0 <= remaining,
    ensures
        match length_pull(b, at, ended, room, remaining) {
            Progress::Ready(data) => {
                &&& at + data.len() <= b.len()
                &&& data == b.subrange(at, at + data.len())
                &&& data.len() <= room
                &&& data.len() <= remaining
                &&& data.len() == room || data.len() == remaining || at + data.len() == b.len()
                &&& data.len() == 0 <==> remaining == 0
            },
            Progress::Wait => remaining > 0 && at == b.len() && !ended,
            Progress::Fail(_) => remaining > 0 && at == b.len() && ended,
        },
{
}

/// Of a body up to the end of the connection a pull hands out what comes next: as much
/// as there is room for and as is at hand. Nothing is handed out exactly at the end.
pub proof fn law_pulls_up_to_the_end(b: Seq<u8>, at: int, ended: bool, room: int)
    requires
        0 <= at <= b.len(),
        0 < room,
    ensures
        match close_pull(b, at, ended, room) {
            Progress::Ready(data) => {
                &&& at + data.len() <= b.len()
                &&& data == b.subrange(at, at + data.len())
                &&& data.len() <= room
                &&& data.len() == room || at + data.len() == b.len()
                &&& data.len() == 0 <==> at == b.len() && ended
            },
            Progress::Wait => at == b.len() && !ended,
            Progress::Fail(_) => false,
        },
{
    if at == b.len() {
        assert(b.subrange(at, at) =~= Seq::<u8>::empty());
    }
}

} // verus!

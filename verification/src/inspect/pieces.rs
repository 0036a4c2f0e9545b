//! What reading a message comes to, however the bytes are cut into pieces.

use super::body::{
    body_run, body_start, body_step, chunk_size, crlf_from, enough, keep, lemma_line_end_in,
    lf_from, line_break, line_end, pass, BodyPhase, BodyState, BODY_CAP,
};
use super::head::{BodyMode, HttpError};
use super::reader::{law_bytes_preserved, Stage};
use vstd::prelude::*;

verus! {

/// One after the other, as one byte string.
pub open spec fn together(pieces: Seq<Seq<u8>>) -> Seq<u8>
    decreases pieces.len(),
{
    if pieces.len() == 0 {
        Seq::empty()
    } else {
        together(pieces.drop_last()) + pieces.last()
    }
}

/// More bytes came.
pub open spec fn fed(s: BodyState, piece: Seq<u8>) -> BodyState {
    BodyState { available: s.available + piece, ..s }
}

/// Reading on after each piece, while more bytes may come.
pub open spec fn read_pieces(s: BodyState, pieces: Seq<Seq<u8>>) -> Result<BodyState, HttpError>
    decreases pieces.len(),
{
    if pieces.len() == 0 {
        Ok(s)
    } else {
        match read_pieces(s, pieces.drop_last()) {
            Err(e) => Err(e),
            Ok(t) => body_run(fed(t, pieces.last()), false, enough(fed(t, pieces.last()))),
        }
    }
}

/// What is kept of a body.
pub open spec fn capped(body: Seq<u8>) -> Seq<u8> {
    if body.len() <= BODY_CAP {
        body
    } else {
        body.take(BODY_CAP as int)
    }
}

/// What is kept of the body is its beginning, up to the cap.
pub open spec fn keeps(s: BodyState, body: Seq<u8>) -> bool {
    s.captured == capped(body) && s.truncated == (body.len() > BODY_CAP)
}

pub proof fn lemma_keeps(s: BodyState, body: Seq<u8>, chunk: Seq<u8>)
    requires
        keeps(s, body),
    ensures
        keeps(keep(s, chunk), body + chunk),
{
    assert(keep(s, chunk).captured =~= capped(body + chunk));
}

/// However a body is cut into pieces, the bytes of the message and those after it are
/// the bytes that came.
pub proof fn law_bytes_preserved_over_pieces(s: BodyState, pieces: Seq<Seq<u8>>)
    ensures
        read_pieces(s, pieces) matches Ok(t) ==> t.wire + t.available == s.wire + s.available
            + together(pieces),
    decreases pieces.len(),
{
    if pieces.len() == 0 {
        assert(s.wire + s.available + together(pieces) =~= s.wire + s.available);
    } else {
        law_bytes_preserved_over_pieces(s, pieces.drop_last());
        if let Ok(t) = read_pieces(s, pieces.drop_last()) {
            let u = fed(t, pieces.last());
            law_bytes_preserved(u, false, enough(u));
            assert(t.wire + u.available =~= (t.wire + t.available) + pieces.last());
            assert(s.wire + s.available + together(pieces) =~= (s.wire + s.available + together(
                pieces.drop_last(),
            )) + pieces.last());
        }
    }
}

/// A body of known length of which `data` has come.
pub open spec fn sized(s: BodyState, data: Seq<u8>, len: usize) -> bool {
    if data.len() < len {
        &&& s.phase == BodyPhase::Length { remaining: (len - data.len()) as usize }
        &&& s.wire == data
        &&& s.available.len() == 0
        &&& keeps(s, data)
    } else {
        &&& s.phase is Done
        &&& s.wire == data.take(len as int)
        &&& s.available == data.skip(len as int)
        &&& keeps(s, data.take(len as int))
    }
}

/// Where no step is left, reading stops.
proof fn lemma_stops(s: BodyState, eof: bool, fuel: nat)
    requires
        body_step(s, eof) == Ok::<Option<BodyState>, HttpError>(None),
    ensures
        body_run(s, eof, fuel) == Ok::<BodyState, HttpError>(s),
{
}

/// A step, and then the rest.
proof fn lemma_steps(s: BodyState, t: BodyState, eof: bool, fuel: nat)
    requires
        fuel > 0,
        body_step(s, eof) == Ok::<Option<BodyState>, HttpError>(Some(t)),
    ensures
        body_run(s, eof, fuel) == body_run(t, eof, (fuel - 1) as nat),
{
}

pub proof fn lemma_sized(s: BodyState, data: Seq<u8>, len: usize, piece: Seq<u8>, eof: bool)
    requires
        sized(s, data, len) || (data.len() == 0 && s == body_start(
            Seq::empty(),
            BodyMode::ContentLength(len),
        )),
    ensures
        !eof ==> body_run(fed(s, piece), eof, enough(fed(s, piece))) is Ok,
        body_run(fed(s, piece), eof, enough(fed(s, piece))) matches Ok(t) ==> sized(
            t,
            data + piece,
            len,
        ),
{
    let a = fed(s, piece);
    let all = data + piece;
    if s.phase is Done {
        lemma_stops(a, eof, enough(a));
        assert(a.available =~= all.skip(len as int));
        assert(a.wire =~= all.take(len as int));
        assert(data.take(len as int) =~= all.take(len as int));
    } else {
        if data.len() == 0 {
            assert(s.wire =~= data);
            assert(s.captured =~= capped(data));
        }
        assert(a.available =~= piece);
        assert(data.len() <= len);
        lemma_sized_part(a, data, len, piece, eof);
    }
}

/// The same where the body has not come in full.
proof fn lemma_sized_part(a: BodyState, data: Seq<u8>, len: usize, piece: Seq<u8>, eof: bool)
    requires
        data.len() <= len,
        a.phase == (BodyPhase::Length { remaining: (len - data.len()) as usize }),
        a.wire == data,
        a.available == piece,
        keeps(a, data),
    ensures
        !eof ==> body_run(a, eof, enough(a)) is Ok,
        body_run(a, eof, enough(a)) matches Ok(t) ==> sized(t, data + piece, len),
{
    let all = data + piece;
    let remaining = (len - data.len()) as usize;
    let fuel = enough(a);
    if remaining == 0 {
        let t = BodyState { phase: BodyPhase::Done, ..a };
        lemma_steps(a, t, eof, fuel);
        lemma_stops(t, eof, (fuel - 1) as nat);
        assert(all.take(len as int) =~= data);
        assert(all.skip(len as int) =~= piece);
    } else if piece.len() == 0 {
        assert(all =~= data);
        if eof {
            assert(body_step(a, eof) is Err);
        } else {
            lemma_stops(a, eof, fuel);
        }
    } else {
        let n = if remaining <= piece.len() {
            remaining as int
        } else {
            piece.len() as int
        };
        let b = BodyState {
            phase: BodyPhase::Length { remaining: (remaining - n) as usize },
            ..pass(keep(a, piece.take(n)), n)
        };
        lemma_steps(a, b, eof, fuel);
        lemma_keeps(a, data, piece.take(n));
        if remaining == n {
            let t = BodyState { phase: BodyPhase::Done, ..b };
            lemma_steps(b, t, eof, (fuel - 1) as nat);
            lemma_stops(t, eof, (fuel - 2) as nat);
            assert(data + piece.take(n) =~= all.take(len as int));
            assert(piece.skip(n) =~= all.skip(len as int));
        } else {
            assert(data + piece.take(n) =~= all);
            if eof {
                assert(body_step(b, eof) is Err);
                assert(body_run(b, eof, (fuel - 1) as nat) is Err);
            } else {
                lemma_stops(b, eof, (fuel - 1) as nat);
            }
        }
    }
}

/// A body of known length is read to its end and no further, and what is kept of it is
/// its beginning up to the cap, however its bytes are cut into pieces.
pub proof fn law_sized_body_over_pieces(pieces: Seq<Seq<u8>>, len: usize)
    requires
        pieces.len() > 0,
        len <= together(pieces).len(),
    ensures
        read_pieces(body_start(Seq::empty(), BodyMode::ContentLength(len)), pieces) matches Ok(t)
            && t.phase is Done && t.wire == together(pieces).take(len as int) && t.available
            == together(pieces).skip(len as int) && keeps(t, together(pieces).take(len as int)),
{
    lemma_sized_pieces(pieces, len);
}

proof fn lemma_sized_pieces(pieces: Seq<Seq<u8>>, len: usize)
    ensures
        pieces.len() > 0 ==> (read_pieces(
            body_start(Seq::empty(), BodyMode::ContentLength(len)),
            pieces,
        ) matches Ok(t) && sized(t, together(pieces), len)),
    decreases pieces.len(),
{
    let s = body_start(Seq::empty(), BodyMode::ContentLength(len));
    if pieces.len() > 0 {
        let d = pieces.drop_last();
        lemma_sized_pieces(d, len);
        if let Ok(t) = read_pieces(s, d) {
            lemma_sized(t, together(d), len, pieces.last(), false);
        }
    }
}

proof fn lemma_until_eof(pieces: Seq<Seq<u8>>)
    ensures
        read_pieces(body_start(Seq::empty(), BodyMode::UntilEof), pieces) matches Ok(t)
            && t.phase is UntilEof && t.available.len() == 0 && t.wire == together(pieces) && keeps(
            t,
            together(pieces),
        ),
    decreases pieces.len(),
{
    let s = body_start(Seq::empty(), BodyMode::UntilEof);
    if pieces.len() == 0 {
        assert(s.captured =~= capped(together(pieces)));
    } else {
        let d = pieces.drop_last();
        let p = pieces.last();
        lemma_until_eof(d);
        if let Ok(t) = read_pieces(s, d) {
            let a = fed(t, p);
            reveal_with_fuel(body_run, 3);
            assert(a.available =~= p);
            if p.len() == 0 {
                assert(together(pieces) =~= together(d));
                assert(body_step(a, false) == Ok::<Option<BodyState>, HttpError>(None));
            } else {
                let b = pass(keep(a, p), p.len() as int);
                assert(body_step(a, false) == Ok::<Option<BodyState>, HttpError>(Some(b)));
                assert(body_step(b, false) == Ok::<Option<BodyState>, HttpError>(None));
                lemma_keeps(a, together(d), p);
                assert(p.take(p.len() as int) =~= p);
            }
        }
    }
}

/// A body that ends with the stream is everything that came, and what is kept of it is
/// its beginning up to the cap, however its bytes are cut into pieces.
pub proof fn law_open_body_over_pieces(pieces: Seq<Seq<u8>>)
    ensures
        read_pieces(body_start(Seq::empty(), BodyMode::UntilEof), pieces) matches Ok(t)
            && body_run(t, true, enough(t)) matches Ok(u) && u.phase is Done && u.wire == together(
            pieces,
        ) && u.available.len() == 0 && keeps(u, together(pieces)),
{
    lemma_until_eof(pieces);
    if let Ok(t) = read_pieces(body_start(Seq::empty(), BodyMode::UntilEof), pieces) {
        reveal_with_fuel(body_run, 3);
        let u = BodyState { phase: BodyPhase::Done, ..t };
        assert(body_step(t, true) == Ok::<Option<BodyState>, HttpError>(Some(u)));
        assert(body_step(u, true) == Ok::<Option<BodyState>, HttpError>(None));
    }
}

/// The end of a line.
pub open spec fn crlf() -> Seq<u8> {
    seq![13u8, 10u8]
}

/// One chunk: the line with its size, and its data.
pub struct Chunk {
    pub line: Seq<u8>,
    pub data: Seq<u8>,
}

/// A chunked body: its chunks, the line of the empty chunk that ends them, the trailers.
pub struct Chunked {
    pub chunks: Seq<Chunk>,
    pub last: Seq<u8>,
    pub trailers: Seq<Seq<u8>>,
}

/// No line ends in it.
pub open spec fn one_line(s: Seq<u8>) -> bool {
    forall|i: int| 0 <= i < s.len() ==> #[trigger] s[i] != 10 && s[i] != 13
}

pub open spec fn chunk_ok(c: Chunk) -> bool {
    &&& one_line(c.line)
    &&& c.data.len() > 0
    &&& chunk_size(c.line) matches Ok(n) && n == c.data.len()
}

/// The sizes are those of the data, and every line is one line.
pub open spec fn chunked_ok(c: Chunked) -> bool {
    &&& forall|i: int| 0 <= i < c.chunks.len() ==> chunk_ok(#[trigger] c.chunks[i])
    &&& one_line(c.last)
    &&& chunk_size(c.last) matches Ok(n) && n == 0
    &&& forall|i: int|
        0 <= i < c.trailers.len() ==> one_line(#[trigger] c.trailers[i]) && c.trailers[i].len() > 0
}

/// The trailers and the blank line behind them.
pub open spec fn closing(trailers: Seq<Seq<u8>>) -> Seq<u8>
    decreases trailers.len(),
{
    if trailers.len() == 0 {
        crlf()
    } else {
        trailers[0] + (crlf() + closing(trailers.drop_first()))
    }
}

/// The bytes of a chunked body.
pub open spec fn coded(c: Chunked) -> Seq<u8>
    decreases c.chunks.len(),
{
    if c.chunks.len() == 0 {
        c.last + (crlf() + closing(c.trailers))
    } else {
        c.chunks[0].line + (crlf() + (c.chunks[0].data + (crlf() + coded(later(c)))))
    }
}

/// Without the first chunk.
pub open spec fn later(c: Chunked) -> Chunked {
    Chunked { chunks: c.chunks.drop_first(), ..c }
}

/// The data of the chunks.
pub open spec fn data_of(chunks: Seq<Chunk>) -> Seq<u8>
    decreases chunks.len(),
{
    if chunks.len() == 0 {
        Seq::empty()
    } else {
        chunks[0].data + data_of(chunks.drop_first())
    }
}

/// A line that is there in full is found, and one that is not there in full is not.
proof fn lemma_first_line(a: Seq<u8>, future: Seq<u8>, line: Seq<u8>, tail: Seq<u8>)
    requires
        one_line(line),
        a + future == line + (crlf() + tail),
    ensures
        a.len() < line.len() + 2 ==> line_end(a) is None,
        a.len() >= line.len() + 2 ==> line_end(a) == Some(line.len() as int) && a.take(
            line.len() as int,
        ) == line && line_break(a, line.len() as int) == 2 && a.skip(line.len() as int + 2) + future
            == tail,
{
    let whole = line + (crlf() + tail);
    let n = line.len() as int;
    assert forall|i: int| 0 <= i < a.len() implies #[trigger] a[i] == whole[i] by {
        assert((a + future)[i] == a[i]);
    }
    assert forall|i: int| 0 <= i < n && i < a.len() implies #[trigger] a[i] == line[i] by {}
    if a.len() > n {
        assert(whole[n] == 13);
    }
    if a.len() > n + 1 {
        assert(whole[n + 1] == 10);
    }
    lemma_scan(a, line, 0);
    if a.len() >= n + 2 {
        assert(a.take(n) =~= line);
        assert((a + future).skip(n + 2) =~= a.skip(n + 2) + future);
        assert(whole.skip(n + 2) =~= tail);
    }
}

proof fn lemma_scan(a: Seq<u8>, line: Seq<u8>, i: int)
    requires
        one_line(line),
        0 <= i <= line.len(),
        forall|j: int| 0 <= j < line.len() && j < a.len() ==> #[trigger] a[j] == line[j],
        a.len() > line.len() ==> a[line.len() as int] == 13,
        a.len() > line.len() + 1 ==> a[line.len() as int + 1] == 10,
    ensures
        a.len() < line.len() + 2 ==> crlf_from(a, i) is None && lf_from(a, i) is None,
        a.len() >= line.len() + 2 ==> crlf_from(a, i) == Some(line.len() as int),
    decreases line.len() - i,
{
    if i < line.len() {
        lemma_scan(a, line, i + 1);
        if i < a.len() {
            assert(a[i] == line[i]);
        }
    } else if i < a.len() {
        reveal_with_fuel(crlf_from, 3);
        reveal_with_fuel(lf_from, 3);
    }
}

/// A step takes a byte or ends something, so reading comes to an end.
proof fn lemma_step_shrinks(s: BodyState)
    ensures
        body_step(s, false) matches Ok(Some(t)) ==> enough(t) < enough(s),
{
    lemma_line_end_in(s.available, 0);
}

/// Reading is on course: what was read is right, and what is still to come is the rest
/// `c` of the body and then `rest`. `done` is the data so far.
pub open spec fn on_course(
    s: BodyState,
    future: Seq<u8>,
    c: Chunked,
    done: Seq<u8>,
    rest: Seq<u8>,
) -> bool {
    let stream = s.available + future;
    &&& chunked_ok(c)
    &&& keeps(s, done)
    &&& match s.phase {
        BodyPhase::ChunkLine => stream == coded(c) + rest,
        BodyPhase::ChunkData { size } => if size > 0 {
            &&& c.chunks.len() > 0
            &&& c.chunks[0].data.len() == size
            &&& stream == (c.chunks[0].data + (crlf() + coded(later(c)))) + rest
        } else {
            c.chunks.len() == 0 && stream == closing(c.trailers) + rest
        },
        BodyPhase::Trailers => c.chunks.len() == 0 && stream == closing(c.trailers) + rest,
        BodyPhase::Done => c.chunks.len() == 0 && stream == rest,
        _ => false,
    }
}

/// Where a reading that is on course stands.
pub struct Place {
    pub c: Chunked,
    pub done: Seq<u8>,
}

/// One step stays on course, and where everything has come there is a step until the
/// body is read.
proof fn lemma_course_step(s: BodyState, future: Seq<u8>, p: Place, rest: Seq<u8>) -> (q: Place)
    requires
        on_course(s, future, p.c, p.done, rest),
    ensures
        body_step(s, false) is Ok,
        body_step(s, false) matches Ok(Some(t)) ==> on_course(t, future, q.c, q.done, rest) && q.done
            + data_of(q.c.chunks) == p.done + data_of(p.c.chunks),
        future.len() == 0 && !(s.phase is Done) ==> body_step(s, false) != Ok::<
            Option<BodyState>,
            HttpError,
        >(None),
{
    let (c, done) = (p.c, p.done);
    let a = s.available;
    match s.phase {
        BodyPhase::ChunkLine => {
            if c.chunks.len() == 0 {
                let tail = closing(c.trailers) + rest;
                assert(coded(c) + rest =~= c.last + (crlf() + tail));
                lemma_first_line(a, future, c.last, tail);
                assert(future.len() == 0 ==> a + future =~= a);
                assert((a + future).len() >= c.last.len() + 2);
            } else {
                let k = c.chunks[0];
                assert(chunk_ok(k));
                let tail = (k.data + (crlf() + coded(later(c)))) + rest;
                assert(coded(c) + rest =~= k.line + (crlf() + tail));
                lemma_first_line(a, future, k.line, tail);
                assert(future.len() == 0 ==> a + future =~= a);
                assert((a + future).len() >= k.line.len() + 2);
            }
            p
        },
        BodyPhase::ChunkData { size } => {
            if size == 0 {
                lemma_line_end_in(a, 0);
                assert(closing(c.trailers).len() >= 2) by {
                    reveal_with_fuel(closing, 2);
                }
                assert(future.len() == 0 ==> a + future =~= a);
                p
            } else {
                let k = c.chunks[0];
                let n = size as int;
                let stream = a + future;
                let whole = (k.data + (crlf() + coded(later(c)))) + rest;
                assert(future.len() == 0 ==> a + future =~= a);
                assert(whole.len() >= n + 2);
                if a.len() >= n + 2 {
                    assert(a.take(n) =~= k.data) by {
                        assert forall|i: int| 0 <= i < n implies #[trigger] a[i] == k.data[i] by {
                            assert(stream[i] == a[i]);
                            assert(whole[i] == k.data[i]);
                        }
                    }
                    assert(stream.skip(n + 2) =~= a.skip(n + 2) + future);
                    assert(whole.skip(n + 2) =~= coded(later(c)) + rest);
                    lemma_keeps(s, done, k.data);
                    assert forall|i: int| 0 <= i < later(c).chunks.len() implies chunk_ok(
                        #[trigger] later(c).chunks[i],
                    ) by {
                        assert(later(c).chunks[i] == c.chunks[i + 1]);
                    }
                    assert((done + k.data) + data_of(later(c).chunks) =~= done + data_of(c.chunks));
                }
                Place { c: later(c), done: done + k.data }
            }
        },
        BodyPhase::Trailers => {
            assert(future.len() == 0 ==> a + future =~= a);
            if c.trailers.len() == 0 {
                let none = Seq::<u8>::empty();
                assert(closing(c.trailers) + rest =~= none + (crlf() + rest));
                lemma_first_line(a, future, none, rest);
                assert((a + future).len() >= 2);
                p
            } else {
                let line = c.trailers[0];
                let tail = closing(c.trailers.drop_first()) + rest;
                assert(closing(c.trailers) + rest =~= line + (crlf() + tail));
                lemma_first_line(a, future, line, tail);
                assert((a + future).len() >= line.len() + 2);
                if a.len() >= line.len() + 2 {
                    assert(a[0] == a.take(line.len() as int)[0]);
                    assert(line[0] != 13);
                }
                let d = Chunked { trailers: c.trailers.drop_first(), ..c };
                assert forall|i: int| 0 <= i < d.trailers.len() implies one_line(
                    #[trigger] d.trailers[i],
                ) && d.trailers[i].len() > 0 by {
                    assert(d.trailers[i] == c.trailers[i + 1]);
                }
                Place { c: d, done }
            }
        },
        _ => { p },
    }
}

proof fn lemma_course_run(s: BodyState, future: Seq<u8>, p: Place, rest: Seq<u8>, fuel: nat) -> (q:
    Place)
    requires
        on_course(s, future, p.c, p.done, rest),
        fuel >= enough(s),
    ensures
        body_run(s, false, fuel) matches Ok(t) && on_course(t, future, q.c, q.done, rest) && q.done
            + data_of(q.c.chunks) == p.done + data_of(p.c.chunks) && (future.len() == 0
            ==> t.phase is Done),
    decreases fuel,
{
    let q = lemma_course_step(s, future, p, rest);
    lemma_step_shrinks(s);
    if fuel == 0 {
        assert(s.phase is Done);
        p
    } else {
        match body_step(s, false) {
            Ok(Some(t)) => lemma_course_run(t, future, q, rest, (fuel - 1) as nat),
            _ => p,
        }
    }
}

proof fn lemma_course_pieces(c: Chunked, rest: Seq<u8>, pieces: Seq<Seq<u8>>, future: Seq<u8>) -> (q:
    Place)
    requires
        chunked_ok(c),
        together(pieces) + future == coded(c) + rest,
    ensures
        read_pieces(body_start(Seq::empty(), BodyMode::Chunked), pieces) matches Ok(t) && on_course(
            t,
            future,
            q.c,
            q.done,
            rest,
        ) && q.done + data_of(q.c.chunks) == data_of(c.chunks) && (future.len() == 0 && pieces.len()
            > 0 ==> t.phase is Done),
    decreases pieces.len(),
{
    let s = body_start(Seq::empty(), BodyMode::Chunked);
    if pieces.len() == 0 {
        assert(s.available + future =~= coded(c) + rest);
        assert(s.captured =~= capped(Seq::<u8>::empty()));
        assert(Seq::<u8>::empty() + data_of(c.chunks) =~= data_of(c.chunks));
        Place { c, done: Seq::empty() }
    } else {
        let d = pieces.drop_last();
        let piece = pieces.last();
        assert(together(d) + (piece + future) =~= together(pieces) + future);
        let p = lemma_course_pieces(c, rest, d, piece + future);
        let t = read_pieces(s, d)->Ok_0;
        let a = fed(t, piece);
        assert(a.available + future =~= t.available + (piece + future));
        lemma_course_run(a, future, p, rest, enough(a))
    }
}

/// A chunked body is read to its blank line and no further, and what is kept of it is
/// the data of its chunks up to the cap, however its bytes are cut into pieces.
pub proof fn law_chunked_body_over_pieces(c: Chunked, rest: Seq<u8>, pieces: Seq<Seq<u8>>)
    requires
        chunked_ok(c),
        together(pieces) == coded(c) + rest,
    ensures
        read_pieces(body_start(Seq::empty(), BodyMode::Chunked), pieces) matches Ok(t)
            && t.phase is Done && t.wire == coded(c) && t.available == rest && keeps(
            t,
            data_of(c.chunks),
        ),
{
    let s = body_start(Seq::empty(), BodyMode::Chunked);
    let none = Seq::<u8>::empty();
    assert(together(pieces) + none =~= together(pieces));
    let q = lemma_course_pieces(c, rest, pieces, none);
    law_bytes_preserved_over_pieces(s, pieces);
    let t = read_pieces(s, pieces)->Ok_0;
    if pieces.len() == 0 {
        assert(coded(c).len() >= 2) by {
            reveal_with_fuel(coded, 2);
        }
    }
    assert(t.available + none =~= t.available);
    assert(q.done + data_of(q.c.chunks) =~= q.done);
    assert(s.wire + s.available + together(pieces) =~= together(pieces));
    assert(t.wire + rest == coded(c) + rest);
    assert(t.wire =~= coded(c)) by {
        assert(t.wire =~= (t.wire + rest).take(t.wire.len() as int));
        assert(coded(c) =~= (coded(c) + rest).take(coded(c).len() as int));
    }
}

/// More bytes came for a message.
pub open spec fn stage_fed(s: Stage, piece: Seq<u8>) -> Stage {
    match s {
        Stage::Head { buf } => Stage::Head { buf: buf + piece },
        Stage::Body { head_bytes, head, body } => Stage::Body {
            head_bytes,
            head,
            body: fed(body, piece),
        },
    }
}

} // verus!

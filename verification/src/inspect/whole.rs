//! What reading a whole message comes to, however its bytes come in.

use super::body::{
    blank_line_from, body_run, body_start, body_step, enough, header_end, keep, lemma_header_end_in,
    pass, BodyPhase, BodyState, BODY_CAP,
};
use super::head::{head_of, plan_of, BodyMode, HeadView, HttpError, MessageKind};
use super::pieces::{capped, fed, keeps, lemma_keeps, lemma_sized, sized, stage_fed, together};
use super::reader::{
    body_method, law_bytes_preserved, law_capture_bounded, message_of, read_on, MessageView,
    Progress, Stage, MAX_HEAD_BYTES,
};
use vstd::prelude::*;

verus! {

/// More bytes come for a message; a head that grows too long is refused.
pub open spec fn feed_on(s: Stage, piece: Seq<u8>) -> Result<Stage, HttpError> {
    if s matches Stage::Head { buf } && buf.len() + piece.len() > MAX_HEAD_BYTES {
        Err(HttpError::HeadersTooLarge)
    } else {
        Ok(stage_fed(s, piece))
    }
}

/// A reader that starts with `leftover` and is polled; then fed each piece, and polled after
/// each. `eof` tells the last poll that no more will come.
pub open spec fn read_message(
    leftover: Seq<u8>,
    kind: MessageKind,
    method: Seq<char>,
    pieces: Seq<Seq<u8>>,
    eof: bool,
) -> Result<(Stage, Progress), HttpError>
    decreases pieces.len(),
{
    if pieces.len() == 0 {
        read_on(Stage::Head { buf: leftover }, kind, method, eof)
    } else {
        match read_message(leftover, kind, method, pieces.drop_last(), false) {
            Err(e) => Err(e),
            Ok((t, _)) => match feed_on(t, pieces.last()) {
                Err(e) => Err(e),
                Ok(u) => read_on(u, kind, method, eof),
            },
        }
    }
}

/// How the end of the body of a message with this head is found.
pub open spec fn mode_of(kind: MessageKind, head: HeadView, method: Seq<char>) -> BodyMode {
    plan_of(body_method(kind, head, method), head.status, head.headers, kind)
}

/// The reading of a body of which `data` has come, and what followed it.
pub open spec fn body_at(mode: BodyMode, body: BodyState, data: Seq<u8>) -> bool {
    &&& body.wire + body.available == data
    &&& body.captured.len() <= BODY_CAP
    &&& match mode {
        BodyMode::Empty => body.phase is Done && body.wire.len() == 0 && keeps(
            body,
            Seq::empty(),
        ),
        BodyMode::ContentLength(n) => sized(body, data, n),
        BodyMode::Chunked => true,
        BodyMode::UntilEof => body.available.len() == 0 && (body.phase is UntilEof
            || body.phase is Done) && keeps(body, data),
    }
}

/// The reading of a message of which `all` has come.
pub open spec fn stage_at(s: Stage, kind: MessageKind, method: Seq<char>, all: Seq<u8>) -> bool {
    match s {
        Stage::Head { buf } => buf == all,
        Stage::Body { head_bytes, head, body } => {
            &&& header_end(all) == Some(head_bytes.len() as int)
            &&& head_bytes.len() <= all.len()
            &&& head_bytes == all.take(head_bytes.len() as int)
            &&& head_of(head_bytes, kind) == Ok::<HeadView, HttpError>(head)
            &&& body_at(mode_of(kind, head, method), body, all.skip(head_bytes.len() as int))
        },
    }
}

proof fn lemma_blank_line_stays(b: Seq<u8>, more: Seq<u8>, i: int)
    ensures
        blank_line_from(b, i) is Some ==> blank_line_from(b + more, i) == blank_line_from(b, i),
    decreases b.len() - i,
{
    if 0 <= i && i + 3 < b.len() {
        lemma_blank_line_stays(b, more, i + 1);
    }
}

/// Reading on in a body of which `data` had come, with a piece more.
proof fn lemma_body_on(mode: BodyMode, body: BodyState, data: Seq<u8>, piece: Seq<u8>, eof: bool)
    requires
        (body_at(mode, body, data) && !(mode is UntilEof && body.phase is Done)) || (data.len()
            == 0 && body == body_start(Seq::empty(), mode)),
    ensures
        body_run(fed(body, piece), eof, enough(fed(body, piece))) matches Ok(t) ==> body_at(
            mode,
            t,
            data + piece,
        ) && (mode is UntilEof && t.phase is Done ==> eof),
{
    let a = fed(body, piece);
    assert(data.len() == 0 ==> data =~= Seq::empty());
    assert(body.wire + body.available =~= data);
    law_bytes_preserved(a, eof, enough(a));
    law_capture_bounded(a, eof, enough(a));
    assert(a.wire + a.available =~= data + piece);
    assert(keeps(body_start(Seq::empty(), mode), Seq::empty())) by {
        assert(capped(Seq::<u8>::empty()) =~= Seq::empty());
    }
    match mode {
        BodyMode::Empty => {
            reveal_with_fuel(body_run, 2);
            assert(body_step(a, eof) == Ok::<Option<BodyState>, HttpError>(None));
        },
        BodyMode::ContentLength(n) => {
            lemma_sized(body, data, n, piece, eof);
        },
        BodyMode::Chunked => {},
        BodyMode::UntilEof => {
            reveal_with_fuel(body_run, 4);
            assert(a.available =~= piece);
            let b = if piece.len() > 0 {
                pass(keep(a, piece), piece.len() as int)
            } else {
                a
            };
            if piece.len() > 0 {
                assert(body_step(a, eof) == Ok::<Option<BodyState>, HttpError>(Some(b)));
                lemma_keeps(a, data, piece);
                assert(piece.take(piece.len() as int) =~= piece);
            } else {
                assert(data + piece =~= data);
            }
            let t = BodyState { phase: BodyPhase::Done, ..b };
            if eof {
                assert(body_step(b, eof) == Ok::<Option<BodyState>, HttpError>(Some(t)));
                assert(body_step(t, eof) == Ok::<Option<BodyState>, HttpError>(None));
            } else {
                assert(body_step(b, eof) == Ok::<Option<BodyState>, HttpError>(None));
            }
        },
    }
}

/// Reading on in a message of which `all` has come.
proof fn lemma_stage_on(
    s: Stage,
    kind: MessageKind,
    method: Seq<char>,
    before: Seq<u8>,
    piece: Seq<u8>,
    eof: bool,
)
    requires
        stage_at(s, kind, method, before),
        s matches Stage::Body { head_bytes: _, head, body } ==> !(mode_of(
            kind,
            head,
            method,
        ) is UntilEof && body.phase is Done),
    ensures
        read_on(stage_fed(s, piece), kind, method, eof) matches Ok((t, p)) ==> {
            &&& stage_at(t, kind, method, before + piece)
            &&& p is Message ==> t is Body && t->body.phase is Done
            &&& t matches Stage::Body { head_bytes: _, head, body } ==> (mode_of(
                kind,
                head,
                method,
            ) is UntilEof && body.phase is Done ==> eof)
        },
{
    let all = before + piece;
    match s {
        Stage::Head { buf } => {
            if let Some(h) = header_end(all) {
                lemma_header_end_in(all);
                if let Ok(head) = head_of(all.take(h), kind) {
                    let mode = mode_of(kind, head, method);
                    let data = all.skip(h);
                    let none = Seq::<u8>::empty();
                    let start = body_start(none, mode);
                    assert(none + data =~= data);
                    assert(fed(start, data) == body_start(data, mode));
                    lemma_body_on(mode, start, none, data, eof);
                }
            }
        },
        Stage::Body { head_bytes, head, body } => {
            let h = head_bytes.len() as int;
            lemma_blank_line_stays(before, piece, 0);
            assert(all.take(h) =~= before.take(h));
            assert(all.skip(h) =~= before.skip(h) + piece);
            lemma_body_on(mode_of(kind, head, method), body, before.skip(h), piece, eof);
        },
    }
}

proof fn lemma_read_message(
    leftover: Seq<u8>,
    kind: MessageKind,
    method: Seq<char>,
    pieces: Seq<Seq<u8>>,
    eof: bool,
)
    ensures
        read_message(leftover, kind, method, pieces, eof) matches Ok((t, p)) ==> {
            &&& stage_at(t, kind, method, leftover + together(pieces))
            &&& p is Message ==> t is Body && t->body.phase is Done
            &&& t matches Stage::Body { head_bytes: _, head, body } ==> (mode_of(
                kind,
                head,
                method,
            ) is UntilEof && body.phase is Done ==> eof)
        },
    decreases pieces.len(),
{
    if pieces.len() == 0 {
        let none = Seq::<u8>::empty();
        let s = Stage::Head { buf: leftover };
        assert(leftover + none =~= leftover);
        assert(stage_fed(s, none) == s);
        lemma_stage_on(s, kind, method, leftover, none, eof);
    } else {
        let d = pieces.drop_last();
        lemma_read_message(leftover, kind, method, d, false);
        if let Ok((t, _)) = read_message(leftover, kind, method, d, false) {
            lemma_stage_on(t, kind, method, leftover + together(d), pieces.last(), eof);
            assert((leftover + together(d)) + pieces.last() =~= leftover + together(pieces));
        }
    }
}

/// What a message and the bytes after it are of all the bytes that came: nothing is lost,
/// changed or moved, however large the body is; what is kept of the body is bounded; and
/// where its end is known from the head, it is the beginning of the body up to the cap.
pub open spec fn whole(
    m: MessageView,
    rest: Seq<u8>,
    all: Seq<u8>,
    kind: MessageKind,
    method: Seq<char>,
) -> bool {
    let h = header_end(all)->Some_0;
    &&& header_end(all) is Some
    &&& 0 <= h <= all.len()
    &&& head_of(all.take(h), kind) is Ok
    &&& m.raw + rest == all
    &&& m.body.len() <= BODY_CAP
    &&& match mode_of(kind, head_of(all.take(h), kind)->Ok_0, method) {
        BodyMode::Empty => m.raw == all.take(h) && m.body.len() == 0 && !m.body_truncated,
        BodyMode::ContentLength(n) => {
            &&& h + n <= all.len()
            &&& m.raw == all.take(h + n)
            &&& m.body == capped(all.subrange(h, h + n))
            &&& m.body_truncated == (n > BODY_CAP)
        },
        BodyMode::Chunked => true,
        BodyMode::UntilEof => {
            &&& m.raw == all
            &&& m.body == capped(all.skip(h))
            &&& m.body_truncated == (all.len() - h > BODY_CAP)
        },
    }
}

/// A message that was read in full, from the bytes that were left over and those that came
/// in pieces, with the end of the stream at the last poll or without it: the message and
/// what is left for the next one are [`whole`].
pub proof fn law_message_is_whole(
    leftover: Seq<u8>,
    kind: MessageKind,
    method: Seq<char>,
    pieces: Seq<Seq<u8>>,
    eof: bool,
)
    ensures
        read_message(leftover, kind, method, pieces, eof) matches Ok((t, Progress::Message)) ==> (
        t matches Stage::Body { head_bytes, head, body } && body.phase is Done && whole(
            message_of(head_bytes, head, body),
            body.available,
            leftover + together(pieces),
            kind,
            method,
        )),
{
    lemma_read_message(leftover, kind, method, pieces, eof);
    if let Ok((t, Progress::Message)) = read_message(leftover, kind, method, pieces, eof) {
        let all = leftover + together(pieces);
        if let Stage::Body { head_bytes, head, body } = t {
            let h = head_bytes.len() as int;
            let data = all.skip(h);
            assert((head_bytes + body.wire) + body.available =~= head_bytes + data);
            assert(head_bytes + data =~= all);
            match mode_of(kind, head, method) {
                BodyMode::Empty => {
                    assert(head_bytes + body.wire =~= head_bytes);
                },
                BodyMode::ContentLength(n) => {
                    assert(data.take(n as int) =~= all.subrange(h, h + n));
                    assert(head_bytes + data.take(n as int) =~= all.take(h + n));
                },
                BodyMode::Chunked => {},
                BodyMode::UntilEof => {
                    assert(body.wire + body.available =~= body.wire);
                },
            }
        }
    }
}

/// The head of a message that was read in full is what its first bytes say, up to the blank
/// line.
pub proof fn law_head_of_message(
    leftover: Seq<u8>,
    kind: MessageKind,
    method: Seq<char>,
    pieces: Seq<Seq<u8>>,
    eof: bool,
)
    ensures
        read_message(leftover, kind, method, pieces, eof) matches Ok((
            Stage::Body { head_bytes, head, body: _ },
            Progress::Message,
        )) ==> ({
            let all = leftover + together(pieces);
            &&& header_end(all) == Some(head_bytes.len() as int)
            &&& head_bytes.len() <= all.len()
            &&& head_bytes == all.take(head_bytes.len() as int)
            &&& head_of(head_bytes, kind) == Ok::<HeadView, HttpError>(head)
        }),
{
    lemma_read_message(leftover, kind, method, pieces, eof);
}

} // verus!

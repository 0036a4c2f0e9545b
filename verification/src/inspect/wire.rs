//! What the head of a message says of its body and of the connection, and what a replay
//! puts on the wire.

use super::body::{blank_line_from, header_end};
use super::exchange::{
    exchange_of, follows, kept_lines, names_host, pushed, replay_bytes, with_id, AfterExchange,
    ExchangeView,
};
use super::head::{
    head_from, keeps_alive, named_headers, plan_of, value_of, BodyMode, HeadView, HttpError,
    MessageKind, ParsedView, RawHeadView,
};
use super::pieces::together;
use super::reader::{message_of, read_on, MessageView, Progress, Stage};
use super::whole::{law_message_is_whole, mode_of, read_message};
use crate::numerals::{
    blank, law_decimal_numbers, law_parts_are_found, law_trimming_takes_the_ends, numeral,
};
use crate::text::{contains_text, lowered};
use vstd::prelude::*;
use vstd::utf8::encode_utf8;

verus! {

/// A header is found by its name in any case; of several, the first counts.
pub proof fn law_header_is_found(h: Seq<(Seq<char>, Seq<char>)>, name: Seq<char>, i: int)
    requires
        0 <= i <= h.len(),
        forall|j: int| 0 <= j < i ==> lowered((#[trigger] h[j]).0) != lowered(name),
        i < h.len() ==> lowered(h[i].0) == lowered(name),
    ensures
        value_of(h, name) == (if i < h.len() {
            Some(h[i].1)
        } else {
            None
        }),
    decreases h.len(),
{
    if h.len() > 0 && i > 0 {
        let t = h.drop_first();
        assert(lowered(h[0].0) != lowered(name));
        assert forall|j: int| 0 <= j < i - 1 implies lowered((#[trigger] t[j]).0) != lowered(
            name,
        ) by {
            assert(t[j] == h[j + 1]);
        }
        law_header_is_found(t, name, i - 1);
    }
}

/// The message has one such header, and its value is `value`.
pub open spec fn says(
    h: Seq<(Seq<char>, Seq<char>)>,
    name: Seq<char>,
    value: Seq<char>,
    i: int,
) -> bool {
    &&& 0 <= i < h.len()
    &&& h[i].1 == value
    &&& lowered(h[i].0) == lowered(name)
    &&& forall|j: int| 0 <= j < i ==> lowered((#[trigger] h[j]).0) != lowered(name)
}

/// The message has no such header.
pub open spec fn silent(h: Seq<(Seq<char>, Seq<char>)>, name: Seq<char>) -> bool {
    forall|j: int| 0 <= j < h.len() ==> lowered((#[trigger] h[j]).0) != lowered(name)
}

/// A connection stays open after a message of HTTP/1.1 and closes after one of HTTP/1.0,
/// unless the message says otherwise: `close` closes it, `keep-alive` keeps it, in any case
/// and with anything around it.
pub proof fn law_connection_stays_open(
    h: Seq<(Seq<char>, Seq<char>)>,
    a: Seq<char>,
    word: Seq<char>,
    b: Seq<char>,
    i: int,
    http11: bool,
)
    ensures
        silent(h, "connection"@) ==> keeps_alive(h, http11) == http11,
        says(h, "connection"@, a + word + b, i) && lowered(word) == "close"@ ==> !keeps_alive(
            h,
            http11,
        ),
        says(h, "connection"@, word, i) && lowered(word) == "keep-alive"@ ==> keeps_alive(
            h,
            http11,
        ),
        says(h, "connection"@, word, i) && word.len() == 0 ==> keeps_alive(h, http11) == http11,
{
    if silent(h, "connection"@) {
        law_header_is_found(h, "connection"@, h.len() as int);
    }
    if says(h, "connection"@, a + word + b, i) {
        law_header_is_found(h, "connection"@, i);
        assert(lowered(a + word + b) =~= lowered(a) + lowered(word) + lowered(b));
        law_parts_are_found(lowered(a), lowered(word), lowered(b));
    }
    if says(h, "connection"@, word, i) {
        law_header_is_found(h, "connection"@, i);
        let e = Seq::<char>::empty();
        law_parts_are_found(e, lowered(word), e);
        assert(e + lowered(word) + e =~= lowered(word));
        reveal_strlit("close");
        reveal_strlit("keep-alive");
        let k = "keep-alive"@;
        let c = "close"@;
        assert(!contains_text(k, c)) by {
            if contains_text(k, c) {
                let x = choose|x: int| crate::text::occurs_at(k, c, x);
                let s = k.subrange(x, x + 5);
                assert(s[0] == k[x]);
                assert(c[0] == 'c');
            }
        }
        if word.len() == 0 {
            assert(!contains_text(lowered(word), c));
            assert(!contains_text(lowered(word), k));
        }
    }
}

/// How the end of a body is found. A response to `HEAD`, or with a status of 1xx, 204 or
/// 304, has none. Else a body that is sent in chunks, in any case, ends as chunks do,
/// whatever length is given; a given length counts, with white space around it; and with
/// neither, a request has no body and a response runs to the end of the stream.
pub proof fn law_end_of_a_body(
    method: Seq<char>,
    status: Option<u16>,
    h: Seq<(Seq<char>, Seq<char>)>,
    kind: MessageKind,
    a: Seq<char>,
    word: Seq<char>,
    b: Seq<char>,
    n: nat,
    i: int,
    j: int,
)
    requires
        blank(a),
        blank(b),
    ensures
        ({
            let mode = plan_of(method, status, h, kind);
            let none = kind is Response && (method == "HEAD"@ || (status matches Some(s) && (s
                == 204 || s == 304 || 100 <= s <= 199)));
            let sized = says(h, "content-length"@, a + numeral(n, 10, false) + b, i);
            let chunked = says(h, "transfer-encoding"@, a + word + b, j) && lowered(word)
                == "chunked"@;
            &&& none ==> mode == BodyMode::Empty
            &&& !none && chunked ==> mode == BodyMode::Chunked
            &&& !none && sized && silent(h, "transfer-encoding"@) && n <= usize::MAX ==> mode
                == BodyMode::ContentLength(n as usize)
            &&& !none && silent(h, "content-length"@) && silent(h, "transfer-encoding"@) ==> mode
                == (if kind is Request {
                BodyMode::Empty
            } else {
                BodyMode::UntilEof
            })
        }),
{
    if says(h, "content-length"@, a + numeral(n, 10, false) + b, i) {
        law_header_is_found(h, "content-length"@, i);
        law_decimal_numbers(n);
        let s = numeral(n, 10, false);
        crate::numerals::lemma_numeral(n, 10, false);
        assert(s[s.len() - 1] == s.last());
        law_trimming_takes_the_ends(a, s, b);
    }
    if says(h, "transfer-encoding"@, a + word + b, j) {
        law_header_is_found(h, "transfer-encoding"@, j);
        assert(lowered(a + word + b) =~= lowered(a) + lowered(word) + lowered(b));
        law_parts_are_found(lowered(a), lowered(word), lowered(b));
    }
    if silent(h, "content-length"@) {
        law_header_is_found(h, "content-length"@, h.len() as int);
    }
    if silent(h, "transfer-encoding"@) {
        law_header_is_found(h, "transfer-encoding"@, h.len() as int);
    }
}

/// A head that was parsed is taken over: the method and path of a request, the status of a
/// response, the headers that have a name, in order. The minor version 1, or none, stands
/// for HTTP/1.1.
pub proof fn law_head_is_taken_over(p: RawHeadView)
    ensures
        ({
            let q = head_from(ParsedView::Head(p), MessageKind::Request);
            &&& q is Ok
            &&& p.method is Some ==> q->Ok_0.method == p.method->0
            &&& p.path is Some ==> q->Ok_0.path == p.path->0
            &&& q->Ok_0.status is None
            &&& q->Ok_0.version_11 == (p.version is None || p.version == Some(1u8))
            &&& (forall|i: int| 0 <= i < p.headers.len() ==> (#[trigger] p.headers[i]).0.len() > 0)
                ==> q->Ok_0.headers == Seq::new(
                p.headers.len(),
                |i: int| (p.headers[i].0, super::head::lossy_text(p.headers[i].1)),
            )
        }),
        ({
            let r = head_from(ParsedView::Head(p), MessageKind::Response);
            &&& r is Ok
            &&& r->Ok_0.status == p.code
            &&& r->Ok_0.version_11 == (p.version is None || p.version == Some(1u8))
            &&& r->Ok_0.headers == named_headers(p.headers)
        }),
        head_from(ParsedView::Bad, MessageKind::Request) == Err::<HeadView, HttpError>(
            HttpError::ParseRequest,
        ),
        head_from(ParsedView::Bad, MessageKind::Response) == Err::<HeadView, HttpError>(
            HttpError::ParseResponse,
        ),
{
    if forall|i: int| 0 <= i < p.headers.len() ==> (#[trigger] p.headers[i]).0.len() > 0 {
        lemma_named(p.headers);
    }
}

proof fn lemma_named(h: Seq<(Seq<char>, Seq<u8>)>)
    requires
        forall|i: int| 0 <= i < h.len() ==> (#[trigger] h[i]).0.len() > 0,
    ensures
        named_headers(h) == Seq::new(
            h.len(),
            |i: int| (h[i].0, super::head::lossy_text(h[i].1)),
        ),
    decreases h.len(),
{
    if h.len() > 0 {
        let t = h.drop_last();
        assert forall|i: int| 0 <= i < t.len() implies (#[trigger] t[i]).0.len() > 0 by {
            assert(t[i] == h[i]);
        }
        lemma_named(t);
        assert(h[h.len() - 1].0.len() > 0);
    }
    assert(named_headers(h) =~= Seq::new(
        h.len(),
        |i: int| (h[i].0, super::head::lossy_text(h[i].1)),
    ));
}

/// The head of a message ends with its first blank line: CR LF CR LF.
pub proof fn law_head_ends_at_the_blank_line(b: Seq<u8>)
    ensures
        header_end(b) matches Some(h) ==> 4 <= h <= b.len() && b.subrange(h - 4, h) == seq![
            13u8,
            10u8,
            13u8,
            10u8,
        ] && forall|i: int|
            #![trigger b[i]]
            0 <= i < h - 4 ==> !(b[i] == 13 && b[i + 1] == 10 && b[i + 2] == 13 && b[i + 3] == 10),
        header_end(b) is None ==> forall|i: int|
            #![trigger b[i]]
            0 <= i <= b.len() - 4 ==> !(b[i] == 13 && b[i + 1] == 10 && b[i + 2] == 13 && b[i + 3]
                == 10),
{
    lemma_blank_line(b, 0);
    if let Some(h) = header_end(b) {
        assert(b.subrange(h - 4, h) =~= seq![13u8, 10u8, 13u8, 10u8]);
    }
}

proof fn lemma_blank_line(b: Seq<u8>, from: int)
    requires
        0 <= from,
    ensures
        blank_line_from(b, from) matches Some(h) ==> from + 4 <= h <= b.len() && b[h - 4] == 13
            && b[h - 3] == 10 && b[h - 2] == 13 && b[h - 1] == 10 && forall|i: int|
            #![trigger b[i]]
            from <= i < h - 4 ==> !(b[i] == 13 && b[i + 1] == 10 && b[i + 2] == 13 && b[i + 3]
                == 10),
        blank_line_from(b, from) is None ==> forall|i: int|
            #![trigger b[i]]
            from <= i <= b.len() - 4 ==> !(b[i] == 13 && b[i + 1] == 10 && b[i + 2] == 13 && b[i
                + 3] == 10),
    decreases b.len() - from,
{
    if from + 3 < b.len() {
        lemma_blank_line(b, from + 1);
    }
}

/// A message with a length of `n` bytes is exactly as long as that behind its head, and at
/// most one mebibyte of its body is kept, from the start.
pub proof fn law_message_of_known_length(
    leftover: Seq<u8>,
    kind: MessageKind,
    method: Seq<char>,
    pieces: Seq<Seq<u8>>,
    eof: bool,
    n: usize,
)
    requires
        read_message(leftover, kind, method, pieces, eof) matches Ok((
            Stage::Body { head_bytes: _, head, body: _ },
            Progress::Message,
        )) && mode_of(kind, head, method) == BodyMode::ContentLength(n),
    ensures
        read_message(leftover, kind, method, pieces, eof) matches Ok((
            Stage::Body { head_bytes, head, body },
            Progress::Message,
        )) && ({
            let m = message_of(head_bytes, head, body);
            let all = leftover + together(pieces);
            let kept = if n > 1_048_576 {
                1_048_576
            } else {
                n as int
            };
            &&& m.raw + body.available == all
            &&& m.raw.len() == head_bytes.len() + n
            &&& m.body == all.subrange(head_bytes.len() as int, head_bytes.len() + kept)
            &&& m.body_truncated == (n > 1_048_576)
        }),
{
    law_message_is_whole(leftover, kind, method, pieces, eof);
    super::whole::law_head_of_message(leftover, kind, method, pieces, eof);
    let all = leftover + together(pieces);
    if let Ok((Stage::Body { head_bytes, head, body }, _)) = read_message(
        leftover,
        kind,
        method,
        pieces,
        eof,
    ) {
        let h = head_bytes.len() as int;
        let m = message_of(head_bytes, head, body);
        let kept = if n > 1_048_576 {
            1_048_576
        } else {
            n as int
        };
        assert(all.subrange(h, h + n).take(kept) =~= all.subrange(h, h + kept));
        assert(all.subrange(h, h + n).take(n as int) =~= all.subrange(h, h + n));
    }
}

/// After an exchange: an upgrade makes the rest opaque; the next request follows where both
/// messages keep the connection, and not otherwise.
pub proof fn law_what_follows_an_exchange(req: MessageView, resp: MessageView, v: Seq<char>, i: int)
    ensures
        resp.status == Some(101u16) ==> follows(req, resp) == AfterExchange::Splice,
        says(req.headers, "upgrade"@, v, i) ==> follows(req, resp) == AfterExchange::Splice,
        silent(req.headers, "upgrade"@) && resp.status != Some(101u16) ==> follows(req, resp) == (
        if req.keep_alive && resp.keep_alive {
            AfterExchange::NextRequest
        } else {
            AfterExchange::Stop
        }),
{
    if says(req.headers, "upgrade"@, v, i) {
        law_header_is_found(req.headers, "upgrade"@, i);
    }
    if silent(req.headers, "upgrade"@) {
        law_header_is_found(req.headers, "upgrade"@, req.headers.len() as int);
    }
}

/// A captured exchange holds what was asked and what was answered.
pub proof fn law_exchange_holds_both_messages(
    id: Seq<char>,
    tunnel: Seq<char>,
    at: Seq<char>,
    ms: u64,
    req: MessageView,
    resp: MessageView,
)
    ensures
        ({
            let e = exchange_of(id, tunnel, at, ms, req, Some(resp));
            &&& e.id == id && e.tunnel_id == tunnel && e.started_at == at && e.latency_ms == ms
            &&& e.method == req.method && e.path == req.path
            &&& e.request_headers == req.headers && e.request_body == req.body
            &&& e.response_headers == resp.headers && e.response_body == resp.body
            &&& resp.status matches Some(s) ==> e.status == s
            &&& e.request_body_truncated == req.body_truncated
            &&& e.response_body_truncated == resp.body_truncated
            &&& e.replayed_from is None
        }),
{
}

/// The headers of a request that a replay sends again, line by line and in order: all but
/// those on the length, the coding and the connection, in any case.
pub proof fn law_replayed_headers(h: Seq<(Seq<char>, Seq<char>)>, name: Seq<char>, value: Seq<char>)
    ensures
        ({
            let n = lowered(name);
            let own = n == "content-length"@ || n == "transfer-encoding"@ || n == "connection"@;
            kept_lines(h.push((name, value))) == (if own {
                kept_lines(h)
            } else {
                kept_lines(h) + encode_utf8(name) + encode_utf8(": "@) + encode_utf8(value)
                    + encode_utf8("\r\n"@)
            })
        }),
        kept_lines(Seq::empty()).len() == 0,
        names_host(h.push(("Host"@, value))),
        !names_host(Seq::empty()),
{
    assert(h.push((name, value)).drop_last() =~= h);
    assert(h.push(("Host"@, value)).drop_last() =~= h);
    reveal_strlit("Host");
    reveal_strlit("host");
    reveal_strlit("content-length");
    reveal_strlit("transfer-encoding");
    reveal_strlit("connection");
    assert(lowered("Host"@) =~= "host"@);
    assert("host"@.len() == 4);
}

/// A replay asks for the same thing: the method and the path in its first line, the headers
/// that it keeps, a host, and then, for its own part, that the connection be closed, the
/// length of the body in decimal, a blank line and the body as it was captured.
pub proof fn law_replay_sends_the_request_again(e: ExchangeView) -> (host: Seq<u8>)
    requires
        e.path.len() > 0,
    ensures
        replay_bytes(e) == encode_utf8(e.method) + encode_utf8(" "@) + encode_utf8(e.path)
            + encode_utf8(" HTTP/1.1\r\n"@) + kept_lines(e.request_headers) + host + encode_utf8(
            "Connection: close\r\n"@,
        ) + encode_utf8("Content-Length: "@) + encode_utf8(
            numeral(e.request_body.len(), 10, false),
        ) + encode_utf8("\r\n\r\n"@) + e.request_body,
        host == (if names_host(e.request_headers) {
            Seq::<u8>::empty()
        } else {
            encode_utf8("Host: localhost\r\n"@)
        }),
{
    law_decimal_numbers(e.request_body.len());
    if names_host(e.request_headers) {
        Seq::empty()
    } else {
        encode_utf8("Host: localhost\r\n"@)
    }
}

/// The last hundred exchanges are kept, in order, and one is found by its id; where two have
/// the id, the older is.
pub proof fn law_exchanges_are_kept(s: Seq<ExchangeView>, e: ExchangeView, i: int)
    requires
        s.len() <= 100,
    ensures
        pushed(s, e).last() == e,
        pushed(s, e).len() == (if s.len() == 100 {
            100
        } else {
            (s.len() + 1) as int
        }),
        s.len() < 100 ==> pushed(s, e).drop_last() == s,
        s.len() == 100 ==> pushed(s, e).drop_last() == s.skip(1),
        (forall|j: int| 0 <= j < s.len() ==> (#[trigger] s[j]).id != e.id) ==> with_id(
            pushed(s, e),
            e.id,
        ) == Some(e),
        0 <= i < s.len() && (forall|j: int| 0 <= j < i ==> (#[trigger] s[j]).id != s[i].id)
            ==> with_id(s, s[i].id) == Some(s[i]),
        (forall|j: int| 0 <= j < s.len() ==> (#[trigger] s[j]).id != e.id) ==> with_id(s, e.id)
            is None,
{
    let t = pushed(s, e);
    assert(t.drop_last() =~= if s.len() < 100 {
        s
    } else {
        s.skip(1)
    });
    if forall|j: int| 0 <= j < s.len() ==> (#[trigger] s[j]).id != e.id {
        assert forall|j: int| 0 <= j < t.len() - 1 implies (#[trigger] t[j]).id != e.id by {
            if s.len() < 100 {
                assert(t[j] == s[j]);
            } else {
                assert(t[j] == s[j + 1]);
            }
        }
        lemma_with_id(t, e.id, t.len() - 1);
        lemma_with_id(s, e.id, s.len() as int);
    }
    if 0 <= i < s.len() && (forall|j: int| 0 <= j < i ==> (#[trigger] s[j]).id != s[i].id) {
        lemma_with_id(s, s[i].id, i);
    }
}

proof fn lemma_with_id(s: Seq<ExchangeView>, id: Seq<char>, i: int)
    requires
        0 <= i <= s.len(),
        forall|j: int| 0 <= j < i ==> (#[trigger] s[j]).id != id,
        i < s.len() ==> s[i].id == id,
    ensures
        with_id(s, id) == (if i < s.len() {
            Some(s[i])
        } else {
            None
        }),
    decreases s.len(),
{
    if s.len() > 0 && i > 0 {
        let t = s.drop_first();
        assert(s[0].id != id);
        assert forall|j: int| 0 <= j < i - 1 implies (#[trigger] t[j]).id != id by {
            assert(t[j] == s[j + 1]);
        }
        lemma_with_id(t, id, i - 1);
    }
}

/// A connection that ends before anything has come is closed; one that ends within the head
/// of a message is an error; and while it is open, more is waited for.
pub proof fn law_connection_that_ends(buf: Seq<u8>, kind: MessageKind, method: Seq<char>)
    requires
        header_end(buf) is None,
    ensures
        read_on(Stage::Head { buf }, kind, method, false) == Ok::<(Stage, Progress), HttpError>(
            (Stage::Head { buf }, Progress::NeedMore),
        ),
        buf.len() > 0 ==> read_on(Stage::Head { buf }, kind, method, true) == Err::<
            (Stage, Progress),
            HttpError,
        >(HttpError::EofInHeaders),
        buf.len() == 0 ==> read_on(Stage::Head { buf }, kind, method, true) == Ok::<
            (Stage, Progress),
            HttpError,
        >((Stage::Head { buf }, Progress::Closed)),
{
}

} // verus!

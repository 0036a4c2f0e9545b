//! Reading one HTTP/1.1 message from bytes that come in pieces.

use super::body::{
    body_run, body_start, body_step, enough, find_header_end, header_end, keep, pass, BodyPhase,
    BodyReader, BodyState, BODY_CAP,
};
use super::head::{
    body_plan, connection_keep_alive, head_of, header_has, headers_seen, keeps_alive, parse_headers,
    plan_of, value_of, BodyMode, Head, HeadView, HttpError, MessageKind,
};
use crate::octets::{append, slice};
use vstd::prelude::*;
use vstd::string::*;

verus! {

/// The most bytes that are read in search of the end of a head.
pub const MAX_HEAD_BYTES: usize = 262_144;

/// A message that was read.
#[derive(Debug)]
pub struct HttpMessage {
    /// All its bytes.
    pub raw: Vec<u8>,
    pub method: String,
    pub path: String,
    pub status: Option<u16>,
    pub headers: Vec<(String, String)>,
    /// What is kept of its body.
    pub body: Vec<u8>,
    pub body_truncated: bool,
    pub keep_alive: bool,
}

/// An [`HttpMessage`] by its texts and bytes.
pub struct MessageView {
    pub raw: Seq<u8>,
    pub method: Seq<char>,
    pub path: Seq<char>,
    pub status: Option<u16>,
    pub headers: Seq<(Seq<char>, Seq<char>)>,
    pub body: Seq<u8>,
    pub body_truncated: bool,
    pub keep_alive: bool,
}

impl View for HttpMessage {
    type V = MessageView;

    open spec fn view(&self) -> MessageView {
        MessageView {
            raw: self.raw@,
            method: self.method@,
            path: self.path@,
            status: self.status,
            headers: headers_seen(self.headers@),
            body: self.body@,
            body_truncated: self.body_truncated,
            keep_alive: self.keep_alive,
        }
    }
}

/// Where the reading of a message stands: in its head, or in its body.
pub enum Stage {
    Head { buf: Seq<u8> },
    Body { head_bytes: Seq<u8>, head: HeadView, body: BodyState },
}

/// What reading comes to.
#[derive(Debug, Clone, Copy, PartialEq, Eq, Structural)]
pub enum Progress {
    NeedMore,
    /// The stream ended between two messages.
    Closed,
    /// The message is complete.
    Message,
}

/// The method that decides on the body: a response is read by that of its request.
pub open spec fn body_method(kind: MessageKind, head: HeadView, request_method: Seq<char>) -> Seq<
    char,
> {
    match kind {
        MessageKind::Request => head.method,
        MessageKind::Response => request_method,
    }
}

pub open spec fn after_body(
    kind: MessageKind,
    head_bytes: Seq<u8>,
    head: HeadView,
    body: BodyState,
    eof: bool,
) -> Result<(Stage, Progress), HttpError> {
    match body_run(body, eof, enough(body)) {
        Err(e) => Err(e),
        Ok(b) => Ok(
            (
                Stage::Body { head_bytes, head, body: b },
                if b.phase is Done {
                    Progress::Message
                } else {
                    Progress::NeedMore
                },
            ),
        ),
    }
}

/// Reading on with what has come.
pub open spec fn read_on(s: Stage, kind: MessageKind, request_method: Seq<char>, eof: bool) -> Result<
    (Stage, Progress),
    HttpError,
> {
    match s {
        Stage::Head { buf } => match header_end(buf) {
            None => if !eof {
                Ok((s, Progress::NeedMore))
            } else if buf.len() == 0 {
                Ok((s, Progress::Closed))
            } else {
                Err(HttpError::EofInHeaders)
            },
            Some(h) => match head_of(buf.take(h), kind) {
                Err(e) => Err(e),
                Ok(head) => after_body(
                    kind,
                    buf.take(h),
                    head,
                    body_start(
                        buf.skip(h),
                        plan_of(
                            body_method(kind, head, request_method),
                            head.status,
                            head.headers,
                            kind,
                        ),
                    ),
                    eof,
                ),
            },
        },
        Stage::Body { head_bytes, head, body } => after_body(kind, head_bytes, head, body, eof),
    }
}

/// The message that was read.
pub open spec fn message_of(head_bytes: Seq<u8>, head: HeadView, body: BodyState) -> MessageView {
    MessageView {
        raw: head_bytes + body.wire,
        method: head.method,
        path: head.path,
        status: head.status,
        headers: head.headers,
        body: body.captured,
        body_truncated: body.truncated,
        keep_alive: keeps_alive(head.headers, head.version_11) && value_of(
            head.headers,
            "upgrade"@,
        ) is None && head.status != Some(101u16),
    }
}

#[derive(Debug)]
pub struct MessageReader {
    pub kind: MessageKind,
    pub request_method: String,
    pub buf: Vec<u8>,
    pub head: Option<Head>,
    pub body: BodyReader,
}

impl MessageReader {
    pub open spec fn wf(&self) -> bool {
        self.body.wf()
    }

    pub open spec fn stage(&self) -> Stage {
        match self.head {
            None => Stage::Head { buf: self.buf@ },
            Some(h) => Stage::Body { head_bytes: self.buf@, head: h@, body: self.body@ },
        }
    }

    /// Starts to read a message whose first bytes are `leftover`. For a response,
    /// `request_method` is the method of the request.
    pub fn new(kind: MessageKind, request_method: &str, leftover: Vec<u8>) -> (r: Self)
        ensures
            r.wf(),
            r.kind == kind,
            r.request_method@ == request_method@,
            r.stage() == (Stage::Head { buf: leftover@ }),
    {
        MessageReader {
            kind,
            request_method: request_method.to_owned(),
            buf: leftover,
            head: None,
            body: BodyReader::start(Vec::new(), BodyMode::Empty),
        }
    }

    /// More bytes came.
    pub fn feed(&mut self, bytes: &[u8]) -> (r: Result<(), HttpError>)
        requires
            old(self).wf(),
        ensures
            final(self).wf(),
            final(self).kind == old(self).kind,
            final(self).request_method == old(self).request_method,
            final(self).stage() == (match old(self).stage() {
                Stage::Head { buf } => Stage::Head { buf: buf + bytes@ },
                Stage::Body { head_bytes, head, body } => Stage::Body {
                    head_bytes,
                    head,
                    body: BodyState { available: body.available + bytes@, ..body },
                },
            }),
            r == (if old(self).stage() is Head && old(self).buf@.len() + bytes@.len()
                > MAX_HEAD_BYTES {
                Err::<(), HttpError>(HttpError::HeadersTooLarge)
            } else {
                Ok::<(), HttpError>(())
            }),
    {
        if self.head.is_some() {
            self.body.feed(bytes);
            return Ok(());
        }
        append(&mut self.buf, bytes);
        if self.buf.len() > MAX_HEAD_BYTES {
            return Err(HttpError::HeadersTooLarge);
        }
        Ok(())
    }

    fn run_body(&mut self, eof: bool) -> (r: Result<Progress, HttpError>)
        requires
            old(self).wf(),
            old(self).head is Some,
        ensures
            final(self).wf(),
            final(self).kind == old(self).kind,
            final(self).request_method == old(self).request_method,
            match after_body(
                old(self).kind,
                old(self).buf@,
                old(self).head->Some_0@,
                old(self).body@,
                eof,
            ) {
                Err(e) => r == Err::<Progress, HttpError>(e),
                Ok((s, p)) => r == Ok::<Progress, HttpError>(p) && final(self).stage() == s,
            },
    {
        match self.body.run(eof) {
            Err(e) => Err(e),
            Ok(()) => if matches!(self.body.phase, BodyPhase::Done) {
                Ok(Progress::Message)
            } else {
                Ok(Progress::NeedMore)
            },
        }
    }

    /// Reads on with what has come; `eof` tells that no more will.
    pub fn poll(&mut self, eof: bool) -> (r: Result<Progress, HttpError>)
        requires
            old(self).wf(),
        ensures
            final(self).wf(),
            final(self).kind == old(self).kind,
            final(self).request_method == old(self).request_method,
            match read_on(old(self).stage(), old(self).kind, old(self).request_method@, eof) {
                Err(e) => r == Err::<Progress, HttpError>(e),
                Ok((s, p)) => r == Ok::<Progress, HttpError>(p) && final(self).stage() == s,
            },
    {
        if self.head.is_some() {
            return self.run_body(eof);
        }
        let end: usize = match find_header_end(self.buf.as_slice()) {
            None => {
                if !eof {
                    return Ok(Progress::NeedMore);
                }
                if self.buf.len() == 0 {
                    return Ok(Progress::Closed);
                }
                return Err(HttpError::EofInHeaders);
            },
            Some(i) => i,
        };
        let len: usize = self.buf.len();
        let head_bytes = slice(self.buf.as_slice(), 0, end);
        let rest = slice(self.buf.as_slice(), end, len);
        proof {
            assert(head_bytes@ =~= self.buf@.take(end as int));
            assert(rest@ =~= self.buf@.skip(end as int));
        }
        let head = match parse_headers(head_bytes.as_slice(), self.kind) {
            Ok(h) => h,
            Err(e) => {
                return Err(e);
            },
        };
        let method = match self.kind {
            MessageKind::Request => head.method.as_str(),
            MessageKind::Response => self.request_method.as_str(),
        };
        let mode = body_plan(method, head.status, head.headers.as_slice(), self.kind);
        self.buf = head_bytes;
        self.body = BodyReader::start(rest, mode);
        self.head = Some(head);
        self.run_body(eof)
    }

    /// The message that was read, and the bytes after it.
    pub fn finish(self) -> (r: Option<(HttpMessage, Vec<u8>)>)
        ensures
            r is Some == (self.stage() is Body && self.body@.phase is Done),
            r matches Some(m) ==> m.0@ == message_of(
                self.buf@,
                self.head->Some_0@,
                self.body@,
            ) && m.1@ == self.body@.available,
    {
        let head = match self.head {
            None => {
                return None;
            },
            Some(h) => h,
        };
        let body = self.body;
        if !matches!(body.phase, BodyPhase::Done) {
            return None;
        }
        let upgrade = header_has(head.headers.as_slice(), "upgrade");
        let switching = match head.status {
            Some(s) => s == 101,
            None => false,
        };
        let keep_alive = connection_keep_alive(head.headers.as_slice(), head.version_11)
            && !upgrade && !switching;
        let mut raw = self.buf;
        append(&mut raw, body.wire.as_slice());
        Some(
            (
                HttpMessage {
                    raw,
                    method: head.method,
                    path: head.path,
                    status: head.status,
                    headers: head.headers,
                    body: body.captured,
                    body_truncated: body.truncated,
                    keep_alive,
                },
                body.available,
            ),
        )
    }
}

proof fn lemma_step_keeps_bytes(s: BodyState, eof: bool)
    ensures
        body_step(s, eof) matches Ok(Some(t)) ==> t.wire + t.available == s.wire + s.available,
{
    if let Ok(Some(t)) = body_step(s, eof) {
        super::body::lemma_line_end_in(s.available, 0);
        assert(t.wire + t.available =~= s.wire + s.available);
    }
}

/// Nothing is lost and nothing is made up: the bytes of the message and those after it
/// are the bytes that came.
pub proof fn law_bytes_preserved(s: BodyState, eof: bool, fuel: nat)
    ensures
        body_run(s, eof, fuel) matches Ok(t) ==> t.wire + t.available == s.wire + s.available,
    decreases fuel,
{
    if fuel > 0 {
        lemma_step_keeps_bytes(s, eof);
        if let Ok(Some(t)) = body_step(s, eof) {
            law_bytes_preserved(t, eof, (fuel - 1) as nat);
        }
    }
}

/// At most [`BODY_CAP`] bytes of a body are kept.
pub proof fn law_capture_bounded(s: BodyState, eof: bool, fuel: nat)
    requires
        s.captured.len() <= BODY_CAP,
    ensures
        body_run(s, eof, fuel) matches Ok(t) ==> t.captured.len() <= BODY_CAP,
    decreases fuel,
{
    if fuel > 0 {
        if let Ok(Some(t)) = body_step(s, eof) {
            law_capture_bounded(t, eof, (fuel - 1) as nat);
        }
    }
}

/// A body of known length that has come in full is read to its end and no further; what
/// is kept of it is its beginning, up to the cap.
pub proof fn law_sized_body(data: Seq<u8>, len: usize, eof: bool)
    requires
        len <= data.len(),
    ensures
        ({
            let s = body_start(data, BodyMode::ContentLength(len));
            body_run(s, eof, enough(s)) matches Ok(t) && t.phase is Done && t.wire == data.take(
                len as int,
            ) && t.available == data.skip(len as int) && t.truncated == (len > BODY_CAP)
                && t.captured == data.take(
                if len <= BODY_CAP {
                    len as int
                } else {
                    BODY_CAP as int
                },
            )
        }),
{
    let s = body_start(data, BodyMode::ContentLength(len));
    reveal_with_fuel(body_run, 4);
    if len == 0 {
        let t = BodyState { phase: BodyPhase::Done, ..s };
        assert(data.take(0) =~= Seq::<u8>::empty());
        assert(data.skip(0) =~= data);
        assert(body_step(t, eof) == Ok::<Option<BodyState>, HttpError>(None));
    } else {
        let a = BodyState {
            phase: BodyPhase::Length { remaining: 0 },
            ..pass(keep(s, data.take(len as int)), len as int)
        };
        assert(body_step(s, eof) == Ok::<Option<BodyState>, HttpError>(Some(a)));
        let t = BodyState { phase: BodyPhase::Done, ..a };
        assert(body_step(a, eof) == Ok::<Option<BodyState>, HttpError>(Some(t)));
        assert(body_step(t, eof) == Ok::<Option<BodyState>, HttpError>(None));
        assert(enough(s) >= 3);
        assert(body_run(s, eof, enough(s)) == body_run(a, eof, (enough(s) - 1) as nat));
        assert(body_run(a, eof, (enough(s) - 1) as nat) == body_run(
            t,
            eof,
            (enough(s) - 2) as nat,
        ));
        assert(t.wire =~= data.take(len as int));
        assert(t.captured =~= data.take(
            if len <= BODY_CAP {
                len as int
            } else {
                BODY_CAP as int
            },
        ));
    }
}

/// A message without a body ends with its head: what follows is left for the next one.
pub proof fn law_bodiless_message(
    buf: Seq<u8>,
    kind: MessageKind,
    method: Seq<char>,
    h: int,
    head: HeadView,
    eof: bool,
)
    requires
        header_end(buf) == Some(h),
        head_of(buf.take(h), kind) == Ok::<HeadView, HttpError>(head),
        plan_of(body_method(kind, head, method), head.status, head.headers, kind)
            == BodyMode::Empty,
    ensures
        read_on(Stage::Head { buf }, kind, method, eof) == Ok::<(Stage, Progress), HttpError>(
            (
                Stage::Body {
                    head_bytes: buf.take(h),
                    head,
                    body: body_start(buf.skip(h), BodyMode::Empty),
                },
                Progress::Message,
            ),
        ),
        body_start(buf.skip(h), BodyMode::Empty).available == buf.skip(h),
{
    let b = body_start(buf.skip(h), BodyMode::Empty);
    reveal_with_fuel(body_run, 2);
    assert(body_step(b, eof) == Ok::<Option<BodyState>, HttpError>(None));
    assert(body_run(b, eof, enough(b)) == Ok::<BodyState, HttpError>(b));
}

} // verus!

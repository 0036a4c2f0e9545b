//! Reading the body of a message from bytes that come in pieces.

use super::head::{BodyMode, HttpError};
use crate::octets::{append, slice};
use crate::text::{chars_of, substring, trim, trimmed};
use vstd::prelude::*;
use vstd::string::*;
use vstd::utf8::{decode_utf8, valid_utf8};

verus! {

/// Max bytes of each body kept in the inspector.
pub const BODY_CAP: usize = 1_048_576;

/// `std::str::from_utf8` reads bytes as text where they are UTF-8.
#[verifier::external_body]
pub(crate) fn read_utf8(bytes: &[u8]) -> (r: Option<String>)
    ensures
        r is Some == valid_utf8(bytes@),
        r matches Some(s) ==> s@ == decode_utf8(bytes@),
{
    std::str::from_utf8(bytes).ok().map(String::from)
}

/// The first place from `i` on where a line ends with CR LF.
pub open spec fn crlf_from(b: Seq<u8>, i: int) -> Option<int>
    decreases b.len() - i,
{
    if i < 0 || i + 1 >= b.len() {
        None
    } else if b[i] == 13 && b[i + 1] == 10 {
        Some(i)
    } else {
        crlf_from(b, i + 1)
    }
}

/// The first place from `i` on where there is an LF.
pub open spec fn lf_from(b: Seq<u8>, i: int) -> Option<int>
    decreases b.len() - i,
{
    if i < 0 || i >= b.len() {
        None
    } else if b[i] == 10 {
        Some(i)
    } else {
        lf_from(b, i + 1)
    }
}

/// Where the first line ends: at the first CR LF, or without one at the first LF.
pub open spec fn line_end(b: Seq<u8>) -> Option<int> {
    if crlf_from(b, 0) is Some {
        crlf_from(b, 0)
    } else {
        lf_from(b, 0)
    }
}

pub fn find_line_end(b: &[u8]) -> (r: Option<usize>)
    ensures
        r is Some == line_end(b@) is Some,
        r matches Some(i) ==> line_end(b@) == Some(i as int) && i < b@.len(),
{
    let mut i: usize = 0;
    while i < b.len() && i + 1 < b.len()
        invariant
            i <= b@.len(),
            crlf_from(b@, 0) == crlf_from(b@, i as int),
        decreases b.len() - i,
    {
        if b[i] == 13 && b[i + 1] == 10 {
            return Some(i);
        }
        i += 1;
    }
    assert(crlf_from(b@, 0) is None);
    let mut j: usize = 0;
    while j < b.len()
        invariant
            j <= b@.len(),
            crlf_from(b@, 0) is None,
            lf_from(b@, 0) == lf_from(b@, j as int),
        decreases b.len() - j,
    {
        if b[j] == 10 {
            return Some(j);
        }
        j += 1;
    }
    None
}

/// The first place from `i` on where the head of a message ends.
pub open spec fn blank_line_from(b: Seq<u8>, i: int) -> Option<int>
    decreases b.len() - i,
{
    if i < 0 || i + 3 >= b.len() {
        None
    } else if b[i] == 13 && b[i + 1] == 10 && b[i + 2] == 13 && b[i + 3] == 10 {
        Some(i + 4)
    } else {
        blank_line_from(b, i + 1)
    }
}

/// Where the body starts: after the first blank line.
pub open spec fn header_end(b: Seq<u8>) -> Option<int> {
    blank_line_from(b, 0)
}

pub proof fn lemma_header_end_in(b: Seq<u8>)
    ensures
        header_end(b) matches Some(h) ==> 0 <= h <= b.len(),
{
    lemma_blank_line_in(b, 0);
}

proof fn lemma_blank_line_in(b: Seq<u8>, i: int)
    ensures
        blank_line_from(b, i) matches Some(h) ==> 0 <= h <= b.len(),
    decreases b.len() - i,
{
    if 0 <= i && i < b.len() {
        lemma_blank_line_in(b, i + 1);
    }
}

pub fn find_header_end(b: &[u8]) -> (r: Option<usize>)
    ensures
        r is Some == header_end(b@) is Some,
        r matches Some(i) ==> header_end(b@) == Some(i as int) && i <= b@.len(),
{
    let len: usize = b.len();
    let mut i: usize = 0;
    while len >= 4 && i <= len - 4
        invariant
            len == b@.len(),
            i <= len,
            header_end(b@) == blank_line_from(b@, i as int),
        decreases len - i,
    {
        if b[i] == 13 && b[i + 1] == 10 && b[i + 2] == 13 && b[i + 3] == 10 {
            return Some(i + 4);
        }
        i += 1;
    }
    None
}

/// What a line end takes up.
pub open spec fn line_break(b: Seq<u8>, pos: int) -> int {
    if pos + 2 <= b.len() && b[pos] == 13 && b[pos + 1] == 10 {
        2
    } else {
        1
    }
}

/// Where the next line starts.
fn next_line(b: &[u8], pos: usize) -> (n: usize)
    requires
        pos < b@.len(),
    ensures
        n == pos + line_break(b@, pos as int),
        pos < n <= b@.len(),
{
    let len: usize = b.len();
    if len - pos >= 2 && b[pos] == 13 && b[pos + 1] == 10 {
        pos + 2
    } else {
        pos + 1
    }
}

pub open spec fn hex_digit(c: char) -> Option<nat> {
    if '0' <= c <= '9' {
        Some((c as u32 - 48) as nat)
    } else if 'a' <= c <= 'f' {
        Some((c as u32 - 87) as nat)
    } else if 'A' <= c <= 'F' {
        Some((c as u32 - 55) as nat)
    } else {
        None
    }
}

/// The number that hexadecimal digits stand for; none if there is another character.
pub open spec fn hex_value(s: Seq<char>) -> Option<nat>
    decreases s.len(),
{
    if s.len() == 0 {
        Some(0)
    } else {
        match (hex_value(s.drop_last()), hex_digit(s.last())) {
            (Some(n), Some(d)) => Some(n * 16 + d),
            _ => None,
        }
    }
}

/// The largest chunk whose data and line end can be counted.
pub open spec fn max_chunk() -> nat {
    (usize::MAX - 2) as nat
}

/// The size that a chunk's first line gives: hexadecimal digits, perhaps after a plus
/// sign, that fit.
pub open spec fn hex_size(s: Seq<char>) -> Option<usize> {
    let t = if s.len() > 0 && s[0] == '+' {
        s.drop_first()
    } else {
        s
    };
    if t.len() == 0 {
        None
    } else {
        match hex_value(t) {
            Some(n) => if n <= max_chunk() {
                Some(n as usize)
            } else {
                None
            },
            None => None,
        }
    }
}

proof fn lemma_hex_grows(s: Seq<char>, i: int)
    requires
        0 <= i <= s.len(),
    ensures
        hex_value(s) is Some ==> hex_value(s.take(i)) is Some && hex_value(s.take(i))->Some_0
            <= hex_value(s)->Some_0,
    decreases s.len(),
{
    if i < s.len() {
        lemma_hex_grows(s.drop_last(), i);
        assert(s.drop_last().take(i) =~= s.take(i));
    } else {
        assert(s.take(i) =~= s);
    }
}

fn hex_of(c: char) -> (r: Option<usize>)
    ensures
        r is Some == hex_digit(c) is Some,
        r matches Some(d) ==> hex_digit(c) == Some(d as nat) && d < 16,
{
    if c >= '0' && c <= '9' {
        Some((c as u32 - 48) as usize)
    } else if c >= 'a' && c <= 'f' {
        Some((c as u32 - 87) as usize)
    } else if c >= 'A' && c <= 'F' {
        Some((c as u32 - 55) as usize)
    } else {
        None
    }
}

fn parse_hex(v: &[char]) -> (r: Option<usize>)
    ensures
        r == hex_size(v@),
{
    let from: usize = if v.len() > 0 && v[0] == '+' {
        1
    } else {
        0
    };
    let ghost t = v@.skip(from as int);
    proof {
        if from == 1 {
            assert(t =~= v@.drop_first());
        } else {
            assert(t =~= v@);
        }
    }
    if v.len() == from {
        return None;
    }
    let mut n: usize = 0;
    let mut i: usize = from;
    assert(t.take(0) =~= Seq::<char>::empty());
    while i < v.len()
        invariant
            from <= i <= v@.len(),
            t == v@.skip(from as int),
            t.len() > 0,
            hex_size(v@) == (match hex_value(t) {
                Some(n) => if n <= max_chunk() {
                    Some(n as usize)
                } else {
                    None
                },
                None => None,
            }),
            hex_value(t.take(i - from)) == Some(n as nat),
            n <= max_chunk(),
        decreases v.len() - i,
    {
        proof {
            assert(t.take(i - from + 1).drop_last() =~= t.take(i - from));
            assert(t.take(i - from + 1).last() == v@[i as int]);
            lemma_hex_grows(t, i - from + 1);
        }
        match hex_of(v[i]) {
            None => {
                return None;
            },
            Some(d) => {
                if n > (usize::MAX - 2 - d) / 16 {
                    assert(n * 16 + d > usize::MAX - 2);
                    return None;
                }
                n = n * 16 + d;
            },
        }
        i += 1;
    }
    assert(t.take(i - from) =~= t);
    Some(n)
}

/// What stands before the first semicolon.
pub open spec fn before_semicolon(s: Seq<char>) -> Seq<char>
    decreases s.len(),
{
    if s.len() == 0 || s[0] == ';' {
        Seq::empty()
    } else {
        seq![s[0]] + before_semicolon(s.drop_first())
    }
}

/// The size that a chunk's first line gives.
pub open spec fn chunk_size(line: Seq<u8>) -> Result<usize, HttpError> {
    if !valid_utf8(line) {
        Err(HttpError::ChunkSizeUtf8)
    } else {
        match hex_size(trimmed(before_semicolon(decode_utf8(line)))) {
            Some(n) => Ok(n),
            None => Err(HttpError::ChunkSize),
        }
    }
}

proof fn lemma_before_semicolon(s: Seq<char>, i: int)
    requires
        0 <= i <= s.len(),
        forall|j: int| 0 <= j < i ==> s[j] != ';',
        i < s.len() ==> s[i] == ';',
    ensures
        before_semicolon(s) == s.take(i),
    decreases s.len(),
{
    if i > 0 {
        assert(s[0] != ';');
        let t = s.drop_first();
        assert forall|j: int| 0 <= j < i - 1 implies t[j] != ';' by {
            assert(s[j + 1] != ';');
        }
        lemma_before_semicolon(t, i - 1);
        assert(seq![s[0]] + t.take(i - 1) =~= s.take(i));
    } else {
        assert(s.take(0) =~= Seq::<char>::empty());
    }
}

fn read_chunk_size(line: &[u8]) -> (r: Result<usize, HttpError>)
    ensures
        r == chunk_size(line@),
        r matches Ok(n) ==> n <= usize::MAX - 2,
{
    let text = match read_utf8(line) {
        Some(t) => t,
        None => {
            return Err(HttpError::ChunkSizeUtf8);
        },
    };
    let v = chars_of(text.as_str());
    let mut i: usize = 0;
    while i < v.len() && v[i] != ';'
        invariant
            i <= v@.len(),
            forall|j: int| 0 <= j < i ==> v@[j] != ';',
        decreases v.len() - i,
    {
        i += 1;
    }
    proof {
        lemma_before_semicolon(v@, i as int);
        assert(v@.subrange(0, i as int) =~= v@.take(i as int));
    }
    let head = substring(v.as_slice(), 0, i);
    let size = trim(head.as_str());
    let digits = chars_of(size.as_str());
    match parse_hex(digits.as_slice()) {
        Some(n) => Ok(n),
        None => Err(HttpError::ChunkSize),
    }
}

/// Where the reading of a body stands.
#[derive(Debug, Clone, Copy, PartialEq, Eq, Structural)]
pub enum BodyPhase {
    Length { remaining: usize },
    ChunkLine,
    ChunkData { size: usize },
    Trailers,
    UntilEof,
    Done,
}

/// The reading of a body: the bytes that came and were not read yet, the bytes of the
/// message, and what is kept of the body.
pub struct BodyState {
    pub available: Seq<u8>,
    pub wire: Seq<u8>,
    pub captured: Seq<u8>,
    pub truncated: bool,
    pub phase: BodyPhase,
}

/// More of the body is kept, up to the cap.
pub open spec fn keep(s: BodyState, chunk: Seq<u8>) -> BodyState {
    BodyState {
        captured: if s.captured.len() + chunk.len() <= BODY_CAP {
            s.captured + chunk
        } else {
            (s.captured + chunk).take(BODY_CAP as int)
        },
        truncated: s.truncated || s.captured.len() + chunk.len() > BODY_CAP,
        ..s
    }
}

/// The first `n` bytes that came are read.
pub open spec fn pass(s: BodyState, n: int) -> BodyState {
    BodyState { wire: s.wire + s.available.take(n), available: s.available.skip(n), ..s }
}

/// One step of reading. Behind the last chunk, which is empty, stand the trailers, and a
/// blank line ends the body: what follows it stays. The step gives the next state, or
/// `None` where more bytes are needed; `eof` tells that no more will come.
pub open spec fn body_step(s: BodyState, eof: bool) -> Result<Option<BodyState>, HttpError> {
    match s.phase {
        BodyPhase::Done => Ok(None),
        BodyPhase::Length { remaining } => if remaining == 0 {
            Ok(Some(BodyState { phase: BodyPhase::Done, ..s }))
        } else if s.available.len() == 0 {
            if eof {
                Err(HttpError::EofInBody)
            } else {
                Ok(None)
            }
        } else {
            let n = if remaining <= s.available.len() {
                remaining as int
            } else {
                s.available.len() as int
            };
            Ok(
                Some(
                    BodyState {
                        phase: BodyPhase::Length { remaining: (remaining - n) as usize },
                        ..pass(keep(s, s.available.take(n)), n)
                    },
                ),
            )
        },
        BodyPhase::ChunkLine => match line_end(s.available) {
            None => if eof {
                Err(HttpError::EofInChunked)
            } else {
                Ok(None)
            },
            Some(pos) => match chunk_size(s.available.take(pos)) {
                Err(e) => Err(e),
                Ok(size) => Ok(
                    Some(
                        BodyState {
                            phase: BodyPhase::ChunkData { size },
                            ..pass(s, pos + line_break(s.available, pos))
                        },
                    ),
                ),
            },
        },
        BodyPhase::ChunkData { size } => if s.available.len() < size + 2 && !(size == 0
            && line_end(s.available) is Some) {
            if eof {
                Err(HttpError::EofInChunkData)
            } else {
                Ok(None)
            }
        } else if size == 0 {
            Ok(Some(BodyState { phase: BodyPhase::Trailers, ..s }))
        } else {
            Ok(
                Some(
                    BodyState {
                        phase: BodyPhase::ChunkLine,
                        ..pass(keep(s, s.available.take(size as int)), size + 2)
                    },
                ),
            )
        },
        BodyPhase::Trailers => match line_end(s.available) {
            None => if eof {
                Ok(Some(BodyState { phase: BodyPhase::Done, ..s }))
            } else {
                Ok(None)
            },
            Some(pos) => Ok(
                Some(
                    BodyState {
                        phase: if pos == 0 || (pos == 1 && s.available[0] == 13) {
                            BodyPhase::Done
                        } else {
                            BodyPhase::Trailers
                        },
                        ..pass(s, pos + line_break(s.available, pos))
                    },
                ),
            ),
        },
        BodyPhase::UntilEof => if s.available.len() > 0 {
            Ok(
                Some(
                    pass(keep(s, s.available), s.available.len() as int),
                ),
            )
        } else if eof {
            Ok(Some(BodyState { phase: BodyPhase::Done, ..s }))
        } else {
            Ok(None)
        },
    }
}

/// Reading until more bytes are needed or the body is read.
pub open spec fn body_run(s: BodyState, eof: bool, fuel: nat) -> Result<BodyState, HttpError>
    decreases fuel,
{
    if fuel == 0 {
        Ok(s)
    } else {
        match body_step(s, eof) {
            Err(e) => Err(e),
            Ok(None) => Ok(s),
            Ok(Some(t)) => body_run(t, eof, (fuel - 1) as nat),
        }
    }
}

/// Each step takes a byte or ends the body, so that this many are enough.
pub open spec fn enough(s: BodyState) -> nat {
    (2 * s.available.len() + (if s.phase is Done {
        0int
    } else if s.phase is Length && s.phase->remaining == 0 {
        1
    } else if s.phase is ChunkData && s.phase->size == 0 {
        3
    } else {
        2
    })) as nat
}

#[derive(Debug)]
pub struct BodyReader {
    pub available: Vec<u8>,
    pub wire: Vec<u8>,
    pub captured: Vec<u8>,
    pub truncated: bool,
    pub phase: BodyPhase,
}

impl View for BodyReader {
    type V = BodyState;

    open spec fn view(&self) -> BodyState {
        BodyState {
            available: self.available@,
            wire: self.wire@,
            captured: self.captured@,
            truncated: self.truncated,
            phase: self.phase,
        }
    }
}

/// The start of reading a body whose first bytes are `available`.
pub open spec fn body_start(available: Seq<u8>, mode: BodyMode) -> BodyState {
    BodyState {
        available,
        wire: Seq::empty(),
        captured: Seq::empty(),
        truncated: false,
        phase: match mode {
            BodyMode::Empty => BodyPhase::Done,
            BodyMode::ContentLength(n) => BodyPhase::Length { remaining: n },
            BodyMode::Chunked => BodyPhase::ChunkLine,
            BodyMode::UntilEof => BodyPhase::UntilEof,
        },
    }
}

/// What one step of a reader comes to.
spec fn stepped(a: BodyState, b: BodyState, eof: bool, r: Result<bool, HttpError>) -> bool {
    match body_step(a, eof) {
        Err(e) => r == Err::<bool, HttpError>(e),
        Ok(None) => r == Ok::<bool, HttpError>(false) && b == a,
        Ok(Some(t)) => r == Ok::<bool, HttpError>(true) && b == t && enough(b) < enough(a),
    }
}

pub proof fn lemma_line_end_in(b: Seq<u8>, i: int)
    ensures
        crlf_from(b, i) matches Some(p) ==> i <= p && p + 1 < b.len() && b[p] == 13,
        lf_from(b, i) matches Some(p) ==> i <= p < b.len() && b[p] == 10,
    decreases b.len() - i,
{
    if 0 <= i && i < b.len() {
        lemma_line_end_in(b, i + 1);
    }
}

impl BodyReader {
    pub open spec fn wf(&self) -> bool {
        &&& self.captured@.len() <= BODY_CAP
        &&& self.phase matches BodyPhase::ChunkData { size } ==> size <= usize::MAX - 2
    }

    pub fn start(available: Vec<u8>, mode: BodyMode) -> (r: Self)
        ensures
            r.wf(),
            r@ == body_start(available@, mode),
    {
        let r = BodyReader {
            available,
            wire: Vec::new(),
            captured: Vec::new(),
            truncated: false,
            phase: match mode {
                BodyMode::Empty => BodyPhase::Done,
                BodyMode::ContentLength(n) => BodyPhase::Length { remaining: n },
                BodyMode::Chunked => BodyPhase::ChunkLine,
                BodyMode::UntilEof => BodyPhase::UntilEof,
            },
        };
        proof {
            assert(r@.wire =~= Seq::<u8>::empty());
            assert(r@.captured =~= Seq::<u8>::empty());
        }
        r
    }

    fn keep_first(&mut self, n: usize)
        requires
            old(self).wf(),
            n <= old(self).available@.len(),
        ensures
            final(self).wf(),
            final(self)@ == keep(old(self)@, old(self).available@.take(n as int)),
    {
        let space: usize = BODY_CAP - self.captured.len();
        let take: usize = if n <= space {
            n
        } else {
            space
        };
        let part = slice(self.available.as_slice(), 0, take);
        let ghost before = self.captured@;
        let ghost chunk = self.available@.take(n as int);
        append(&mut self.captured, part.as_slice());
        if take < n {
            self.truncated = true;
        }
        proof {
            assert(part@ =~= chunk.take(take as int));
            if n <= space {
                assert(self.captured@ =~= before + chunk);
            } else {
                assert(self.captured@ =~= (before + chunk).take(BODY_CAP as int));
            }
        }
    }

    fn pass_first(&mut self, n: usize)
        requires
            old(self).wf(),
            n <= old(self).available@.len(),
        ensures
            final(self).wf(),
            final(self)@ == pass(old(self)@, n as int),
    {
        let part = slice(self.available.as_slice(), 0, n);
        let len: usize = self.available.len();
        let rest = slice(self.available.as_slice(), n, len);
        append(&mut self.wire, part.as_slice());
        proof {
            assert(part@ =~= self.available@.take(n as int));
            assert(rest@ =~= self.available@.skip(n as int));
        }
        self.available = rest;
    }

    fn step_length(&mut self, eof: bool) -> (r: Result<bool, HttpError>)
        requires
            old(self).wf(),
            old(self).phase is Length,
        ensures
            final(self).wf(),
            stepped(old(self)@, final(self)@, eof, r),
    {
        let remaining: usize = match self.phase {
            BodyPhase::Length { remaining } => remaining,
            _ => 0,
        };
        if remaining == 0 {
            self.phase = BodyPhase::Done;
            return Ok(true);
        }
        let have: usize = self.available.len();
        if have == 0 {
            if eof {
                return Err(HttpError::EofInBody);
            }
            return Ok(false);
        }
        let n: usize = if remaining <= have {
            remaining
        } else {
            have
        };
        self.keep_first(n);
        self.pass_first(n);
        self.phase = BodyPhase::Length { remaining: remaining - n };
        Ok(true)
    }

    fn step_line(&mut self, eof: bool) -> (r: Result<bool, HttpError>)
        requires
            old(self).wf(),
            old(self).phase is ChunkLine,
        ensures
            final(self).wf(),
            stepped(old(self)@, final(self)@, eof, r),
    {
        proof {
            lemma_line_end_in(self.available@, 0);
        }
        match find_line_end(self.available.as_slice()) {
            None => {
                if eof {
                    Err(HttpError::EofInChunked)
                } else {
                    Ok(false)
                }
            },
            Some(pos) => {
                let line = slice(self.available.as_slice(), 0, pos);
                assert(line@ =~= self.available@.take(pos as int));
                let size: usize = match read_chunk_size(line.as_slice()) {
                    Ok(n) => n,
                    Err(e) => {
                        return Err(e);
                    },
                };
                let n: usize = next_line(self.available.as_slice(), pos);
                self.pass_first(n);
                self.phase = BodyPhase::ChunkData { size };
                Ok(true)
            },
        }
    }

    fn step_data(&mut self, eof: bool) -> (r: Result<bool, HttpError>)
        requires
            old(self).wf(),
            old(self).phase is ChunkData,
        ensures
            final(self).wf(),
            stepped(old(self)@, final(self)@, eof, r),
    {
        let size: usize = match self.phase {
            BodyPhase::ChunkData { size } => size,
            _ => 0,
        };
        if self.available.len() < size + 2 && !(size == 0 && find_line_end(
            self.available.as_slice(),
        ).is_some()) {
            if eof {
                return Err(HttpError::EofInChunkData);
            }
            return Ok(false);
        }
        if size == 0 {
            self.phase = BodyPhase::Trailers;
        } else {
            self.keep_first(size);
            self.pass_first(size + 2);
            self.phase = BodyPhase::ChunkLine;
        }
        Ok(true)
    }

    fn step_trailers(&mut self, eof: bool) -> (r: Result<bool, HttpError>)
        requires
            old(self).wf(),
            old(self).phase is Trailers,
        ensures
            final(self).wf(),
            stepped(old(self)@, final(self)@, eof, r),
    {
        proof {
            lemma_line_end_in(self.available@, 0);
        }
        match find_line_end(self.available.as_slice()) {
            None => {
                if eof {
                    self.phase = BodyPhase::Done;
                    Ok(true)
                } else {
                    Ok(false)
                }
            },
            Some(pos) => {
                let blank = pos == 0 || (pos == 1 && self.available[0] == 13);
                let n: usize = next_line(self.available.as_slice(), pos);
                self.pass_first(n);
                if blank {
                    self.phase = BodyPhase::Done;
                }
                Ok(true)
            },
        }
    }

    fn step_until_eof(&mut self, eof: bool) -> (r: Result<bool, HttpError>)
        requires
            old(self).wf(),
            old(self).phase is UntilEof,
        ensures
            final(self).wf(),
            stepped(old(self)@, final(self)@, eof, r),
    {
        let have: usize = self.available.len();
        if have > 0 {
            assert(self.available@.take(have as int) =~= self.available@);
            self.keep_first(have);
            self.pass_first(have);
            return Ok(true);
        }
        if eof {
            self.phase = BodyPhase::Done;
            return Ok(true);
        }
        Ok(false)
    }

    /// One step. Tells whether there was something to do.
    fn step(&mut self, eof: bool) -> (r: Result<bool, HttpError>)
        requires
            old(self).wf(),
        ensures
            final(self).wf(),
            stepped(old(self)@, final(self)@, eof, r),
    {
        match self.phase {
            BodyPhase::Done => Ok(false),
            BodyPhase::Length { .. } => self.step_length(eof),
            BodyPhase::ChunkLine => self.step_line(eof),
            BodyPhase::ChunkData { .. } => self.step_data(eof),
            BodyPhase::Trailers => self.step_trailers(eof),
            BodyPhase::UntilEof => self.step_until_eof(eof),
        }
    }

    /// Reads on until more bytes are needed or the body is read.
    pub fn run(&mut self, eof: bool) -> (r: Result<(), HttpError>)
        requires
            old(self).wf(),
        ensures
            final(self).wf(),
            match body_run(old(self)@, eof, enough(old(self)@)) {
                Err(e) => r == Err::<(), HttpError>(e),
                Ok(t) => r == Ok::<(), HttpError>(()) && final(self)@ == t && body_step(t, eof)
                    == Ok::<Option<BodyState>, HttpError>(None),
            },
    {
        let ghost goal = body_run(self@, eof, enough(self@));
        let ghost mut fuel: nat = enough(self@);
        loop
            invariant
                self.wf(),
                fuel >= enough(self@),
                body_run(self@, eof, fuel) == goal,
                goal == body_run(old(self)@, eof, enough(old(self)@)),
            decreases enough(self@),
        {
            let ghost cur = self@;
            match self.step(eof) {
                Err(e) => {
                    return Err(e);
                },
                Ok(more) => {
                    if !more {
                        return Ok(());
                    }
                    proof {
                        fuel = (fuel - 1) as nat;
                    }
                },
            }
        }
    }

    /// More bytes came.
    pub fn feed(&mut self, bytes: &[u8])
        requires
            old(self).wf(),
        ensures
            final(self).wf(),
            final(self)@ == (BodyState { available: old(self)@.available + bytes@, ..old(self)@ }),
    {
        append(&mut self.available, bytes);
    }
}

} // verus!

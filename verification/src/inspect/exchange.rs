//! Captured exchanges, and the ring that keeps them.

use super::body::read_utf8;
use super::head::{header_has, headers_seen, value_of};
use super::reader::{HttpMessage, MessageView};
use crate::chance::fresh_id;
use crate::octets::append;
use crate::policy::denylog::text_of;
use crate::text::{copy_text, decimal, lowered, push_decimal, same_text, to_lower};
use std::collections::VecDeque;
use vstd::prelude::*;
use vstd::string::*;
use vstd::utf8::{decode_utf8, encode_utf8, valid_utf8};

verus! {

/// Max exchanges retained (oldest dropped).
pub const RING_CAP: usize = 100;

#[derive(Debug)]
pub struct CapturedExchange {
    pub id: String,
    pub tunnel_id: String,
    pub started_at: String,
    pub method: String,
    pub path: String,
    pub request_headers: Vec<(String, String)>,
    pub request_body: Vec<u8>,
    pub request_body_truncated: bool,
    pub status: u16,
    pub response_headers: Vec<(String, String)>,
    pub response_body: Vec<u8>,
    pub response_body_truncated: bool,
    pub latency_ms: u64,
    pub replayed_from: Option<String>,
}

/// A [`CapturedExchange`] by its texts and bytes.
pub struct ExchangeView {
    pub id: Seq<char>,
    pub tunnel_id: Seq<char>,
    pub started_at: Seq<char>,
    pub method: Seq<char>,
    pub path: Seq<char>,
    pub request_headers: Seq<(Seq<char>, Seq<char>)>,
    pub request_body: Seq<u8>,
    pub request_body_truncated: bool,
    pub status: u16,
    pub response_headers: Seq<(Seq<char>, Seq<char>)>,
    pub response_body: Seq<u8>,
    pub response_body_truncated: bool,
    pub latency_ms: u64,
    pub replayed_from: Option<Seq<char>>,
}

impl View for CapturedExchange {
    type V = ExchangeView;

    open spec fn view(&self) -> ExchangeView {
        ExchangeView {
            id: self.id@,
            tunnel_id: self.tunnel_id@,
            started_at: self.started_at@,
            method: self.method@,
            path: self.path@,
            request_headers: headers_seen(self.request_headers@),
            request_body: self.request_body@,
            request_body_truncated: self.request_body_truncated,
            status: self.status,
            response_headers: headers_seen(self.response_headers@),
            response_body: self.response_body@,
            response_body_truncated: self.response_body_truncated,
            latency_ms: self.latency_ms,
            replayed_from: text_of(self.replayed_from),
        }
    }
}

fn copy_headers(h: &[(String, String)]) -> (v: Vec<(String, String)>)
    ensures
        headers_seen(v@) == headers_seen(h@),
{
    let mut v: Vec<(String, String)> = Vec::new();
    let mut i: usize = 0;
    while i < h.len()
        invariant
            i <= h@.len(),
            v@.len() == i,
            forall|j: int| 0 <= j < i ==> (#[trigger] v@[j]).0@ == h@[j].0@ && v@[j].1@ == h@[j].1@,
        decreases h.len() - i,
    {
        v.push((h[i].0.clone(), h[i].1.clone()));
        i += 1;
    }
    assert(headers_seen(v@) =~= headers_seen(h@));
    v
}

fn copy_bytes(b: &[u8]) -> (v: Vec<u8>)
    ensures
        v@ == b@,
{
    let mut v: Vec<u8> = Vec::new();
    append(&mut v, b);
    assert(v@ =~= b@);
    v
}

impl CapturedExchange {
    pub fn copy(&self) -> (e: Self)
        ensures
            e@ == self@,
    {
        CapturedExchange {
            id: self.id.clone(),
            tunnel_id: self.tunnel_id.clone(),
            started_at: self.started_at.clone(),
            method: self.method.clone(),
            path: self.path.clone(),
            request_headers: copy_headers(self.request_headers.as_slice()),
            request_body: copy_bytes(self.request_body.as_slice()),
            request_body_truncated: self.request_body_truncated,
            status: self.status,
            response_headers: copy_headers(self.response_headers.as_slice()),
            response_body: copy_bytes(self.response_body.as_slice()),
            response_body_truncated: self.response_body_truncated,
            latency_ms: self.latency_ms,
            replayed_from: copy_text(&self.replayed_from),
        }
    }
}

/// Where and when an exchange took place.
#[derive(Debug)]
pub struct Occasion {
    pub id: String,
    pub tunnel_id: String,
    pub started_at: String,
    pub latency_ms: u64,
}

/// The exchange of a request and its response; without one, the status is zero.
pub open spec fn exchange_of(
    id: Seq<char>,
    tunnel_id: Seq<char>,
    started_at: Seq<char>,
    latency_ms: u64,
    req: MessageView,
    resp: Option<MessageView>,
) -> ExchangeView {
    ExchangeView {
        id,
        tunnel_id,
        started_at,
        method: req.method,
        path: req.path,
        request_headers: req.headers,
        request_body: req.body,
        request_body_truncated: req.body_truncated,
        status: match resp {
            Some(r) => match r.status {
                Some(s) => s,
                None => 0,
            },
            None => 0,
        },
        response_headers: match resp {
            Some(r) => r.headers,
            None => Seq::empty(),
        },
        response_body: match resp {
            Some(r) => r.body,
            None => Seq::empty(),
        },
        response_body_truncated: match resp {
            Some(r) => r.body_truncated,
            None => false,
        },
        latency_ms,
        replayed_from: None,
    }
}

pub fn captured(at: Occasion, req: HttpMessage, resp: Option<HttpMessage>) -> (e: CapturedExchange)
    ensures
        e@ == exchange_of(
            at.id@,
            at.tunnel_id@,
            at.started_at@,
            at.latency_ms,
            req@,
            (match resp {
                Some(r) => Some(r@),
                None => None,
            }),
        ),
{
    let mut e = CapturedExchange {
        id: at.id,
        tunnel_id: at.tunnel_id,
        started_at: at.started_at,
        method: req.method,
        path: req.path,
        request_headers: req.headers,
        request_body: req.body,
        request_body_truncated: req.body_truncated,
        status: 0,
        response_headers: Vec::new(),
        response_body: Vec::new(),
        response_body_truncated: false,
        latency_ms: at.latency_ms,
        replayed_from: None,
    };
    match resp {
        Some(r) => {
            e.status = match r.status {
                Some(s) => s,
                None => 0,
            };
            e.response_headers = r.headers;
            e.response_body = r.body;
            e.response_body_truncated = r.body_truncated;
        },
        None => {
            proof {
                assert(e@.response_headers =~= Seq::<(Seq<char>, Seq<char>)>::empty());
                assert(e@.response_body =~= Seq::<u8>::empty());
            }
        },
    }
    e
}

/// The exchange of a replayed request: the request as it was captured, with the new
/// response.
pub fn replayed(ex: &CapturedExchange, at: Occasion, resp: HttpMessage) -> (e: CapturedExchange)
    ensures
        e@ == (ExchangeView {
            id: at.id@,
            started_at: at.started_at@,
            status: match resp@.status {
                Some(s) => s,
                None => 0,
            },
            response_headers: resp@.headers,
            response_body: resp@.body,
            response_body_truncated: resp@.body_truncated,
            latency_ms: at.latency_ms,
            replayed_from: Some(ex@.id),
            ..ex@
        }),
{
    CapturedExchange {
        id: at.id,
        tunnel_id: ex.tunnel_id.clone(),
        started_at: at.started_at,
        method: ex.method.clone(),
        path: ex.path.clone(),
        request_headers: copy_headers(ex.request_headers.as_slice()),
        request_body: copy_bytes(ex.request_body.as_slice()),
        request_body_truncated: ex.request_body_truncated,
        status: match resp.status {
            Some(s) => s,
            None => 0,
        },
        response_headers: resp.headers,
        response_body: resp.body,
        response_body_truncated: resp.body_truncated,
        latency_ms: at.latency_ms,
        replayed_from: Some(ex.id.clone()),
    }
}

/// What follows an exchange.
#[derive(Debug, Clone, Copy, PartialEq, Eq, Structural)]
pub enum AfterExchange {
    /// The protocol changes: the remaining bytes are opaque.
    Splice,
    /// The next request may follow.
    NextRequest,
    Stop,
}

pub open spec fn follows(req: MessageView, resp: MessageView) -> AfterExchange {
    if value_of(req.headers, "upgrade"@) is Some || resp.status == Some(101u16) {
        AfterExchange::Splice
    } else if req.keep_alive && resp.keep_alive {
        AfterExchange::NextRequest
    } else {
        AfterExchange::Stop
    }
}

pub fn after_exchange(req: &HttpMessage, resp: &HttpMessage) -> (a: AfterExchange)
    ensures
        a == follows(req@, resp@),
{
    let switching = match resp.status {
        Some(s) => s == 101,
        None => false,
    };
    if header_has(req.headers.as_slice(), "upgrade") || switching {
        return AfterExchange::Splice;
    }
    if req.keep_alive && resp.keep_alive {
        AfterExchange::NextRequest
    } else {
        AfterExchange::Stop
    }
}

/// The header is written anew when a request is replayed.
pub open spec fn rewritten(name: Seq<char>) -> bool {
    let n = lowered(name);
    n == "content-length"@ || n == "transfer-encoding"@ || n == "connection"@
}

/// The lines of the headers that are kept in a replay.
pub open spec fn kept_lines(h: Seq<(Seq<char>, Seq<char>)>) -> Seq<u8>
    decreases h.len(),
{
    if h.len() == 0 {
        Seq::empty()
    } else {
        let rest = kept_lines(h.drop_last());
        if rewritten(h.last().0) {
            rest
        } else {
            rest + encode_utf8(h.last().0) + encode_utf8(": "@) + encode_utf8(h.last().1)
                + encode_utf8("\r\n"@)
        }
    }
}

/// One of the headers names the host.
pub open spec fn names_host(h: Seq<(Seq<char>, Seq<char>)>) -> bool
    decreases h.len(),
{
    h.len() > 0 && (names_host(h.drop_last()) || (!rewritten(h.last().0) && lowered(h.last().0)
        == "host"@))
}

/// The bytes that replay a captured request.
pub open spec fn replay_bytes(e: ExchangeView) -> Seq<u8> {
    encode_utf8(e.method) + encode_utf8(" "@) + encode_utf8(
        if e.path.len() == 0 {
            "/"@
        } else {
            e.path
        },
    ) + encode_utf8(" HTTP/1.1\r\n"@) + kept_lines(e.request_headers) + (if names_host(
        e.request_headers,
    ) {
        Seq::empty()
    } else {
        encode_utf8("Host: localhost\r\n"@)
    }) + encode_utf8("Connection: close\r\n"@) + encode_utf8("Content-Length: "@) + encode_utf8(
        decimal(e.request_body.len()),
    ) + encode_utf8("\r\n\r\n"@) + e.request_body
}

fn push_text(out: &mut Vec<u8>, s: &str)
    ensures
        final(out)@ == old(out)@ + encode_utf8(s@),
{
    append(out, s.as_bytes());
}

/// The bytes that replay a captured request.
pub fn rebuild_request(ex: &CapturedExchange) -> (out: Vec<u8>)
    ensures
        out@ == replay_bytes(ex@),
{
    let mut out: Vec<u8> = Vec::new();
    let ghost h = ex@.request_headers;
    push_text(&mut out, ex.method.as_str());
    assert(out@ =~= encode_utf8(ex.method@));
    push_text(&mut out, " ");
    if ex.path.as_str().is_empty() {
        push_text(&mut out, "/");
    } else {
        push_text(&mut out, ex.path.as_str());
    }
    push_text(&mut out, " HTTP/1.1\r\n");
    let ghost start = out@;
    let mut has_host = false;
    let mut i: usize = 0;
    assert(out@ =~= start + kept_lines(h.take(0)));
    while i < ex.request_headers.len()
        invariant
            h == ex@.request_headers,
            i <= h.len(),
            out@ == start + kept_lines(h.take(i as int)),
            has_host == names_host(h.take(i as int)),
        decreases ex.request_headers.len() - i,
    {
        proof {
            assert(h.take(i + 1).drop_last() =~= h.take(i as int));
            assert(h.take(i + 1).last() == h[i as int]);
        }
        let k = &ex.request_headers[i].0;
        let v = &ex.request_headers[i].1;
        let lower = to_lower(k.as_str());
        let skip = same_text(lower.as_str(), "content-length") || same_text(
            lower.as_str(),
            "transfer-encoding",
        ) || same_text(lower.as_str(), "connection");
        if !skip {
            if same_text(lower.as_str(), "host") {
                has_host = true;
            }
            let ghost before = out@;
            push_text(&mut out, k.as_str());
            push_text(&mut out, ": ");
            push_text(&mut out, v.as_str());
            push_text(&mut out, "\r\n");
            assert(out@ =~= start + kept_lines(h.take(i + 1)));
        }
        i += 1;
    }
    assert(h.take(i as int) =~= h);
    let ghost mid = out@;
    if !has_host {
        push_text(&mut out, "Host: localhost\r\n");
    } else {
        assert(mid + Seq::<u8>::empty() =~= mid);
    }
    push_text(&mut out, "Connection: close\r\n");
    push_text(&mut out, "Content-Length: ");
    let mut n: String = String::new();
    push_decimal(&mut n, ex.request_body.len() as u64);
    assert(n@ =~= decimal(ex@.request_body.len()));
    push_text(&mut out, n.as_str());
    push_text(&mut out, "\r\n\r\n");
    append(&mut out, ex.request_body.as_slice());
    out
}

/// Bytes in base64, in the standard alphabet and with padding.
pub uninterp spec fn base64_of(bytes: Seq<u8>) -> Seq<char>;

/// `base64::engine::general_purpose::STANDARD` encodes bytes.
#[verifier::external_body]
fn encode_base64(bytes: &[u8]) -> (s: String)
    ensures
        s@ == base64_of(bytes@),
{
    base64::Engine::encode(&base64::engine::general_purpose::STANDARD, bytes)
}

/// A body as it is shown: text where it is UTF-8, else base64 after a mark.
pub open spec fn shown_body(bytes: Seq<u8>) -> Seq<char> {
    if valid_utf8(bytes) {
        decode_utf8(bytes)
    } else {
        "base64:"@ + base64_of(bytes)
    }
}

pub fn body_text(bytes: &[u8]) -> (s: String)
    ensures
        s@ == shown_body(bytes@),
{
    match read_utf8(bytes) {
        Some(t) => t,
        None => {
            let mut s: String = "base64:".to_owned();
            let b = encode_base64(bytes);
            s.append(b.as_str());
            s
        },
    }
}

#[derive(Debug)]
pub struct ExchangeSummary {
    pub id: String,
    pub tunnel_id: String,
    pub started_at: String,
    pub method: String,
    pub path: String,
    pub status: u16,
    pub latency_ms: u64,
    pub request_body_truncated: bool,
    pub response_body_truncated: bool,
    pub replayed_from: Option<String>,
}

impl ExchangeSummary {
    pub fn of(e: &CapturedExchange) -> (s: Self)
        ensures
            s.id == e.id,
            s.tunnel_id == e.tunnel_id,
            s.started_at == e.started_at,
            s.method == e.method,
            s.path == e.path,
            s.status == e.status,
            s.latency_ms == e.latency_ms,
            s.request_body_truncated == e.request_body_truncated,
            s.response_body_truncated == e.response_body_truncated,
            s.replayed_from == e.replayed_from,
    {
        ExchangeSummary {
            id: e.id.clone(),
            tunnel_id: e.tunnel_id.clone(),
            started_at: e.started_at.clone(),
            method: e.method.clone(),
            path: e.path.clone(),
            status: e.status,
            latency_ms: e.latency_ms,
            request_body_truncated: e.request_body_truncated,
            response_body_truncated: e.response_body_truncated,
            replayed_from: copy_text(&e.replayed_from),
        }
    }
}

/// In-memory ring buffer of captured HTTP exchanges.
#[derive(Debug)]
pub struct ExchangeStore {
    pub ring: VecDeque<CapturedExchange>,
}

impl View for ExchangeStore {
    type V = Seq<ExchangeView>;

    open spec fn view(&self) -> Seq<ExchangeView> {
        Seq::new(self.ring@.len(), |i: int| self.ring@[i]@)
    }
}

/// The ring with one more exchange; at capacity the oldest makes room.
pub open spec fn pushed(s: Seq<ExchangeView>, e: ExchangeView) -> Seq<ExchangeView> {
    if s.len() >= RING_CAP {
        s.drop_first().push(e)
    } else {
        s.push(e)
    }
}

/// The first exchange with the id.
pub open spec fn with_id(s: Seq<ExchangeView>, id: Seq<char>) -> Option<ExchangeView>
    decreases s.len(),
{
    if s.len() == 0 {
        None
    } else if s[0].id == id {
        Some(s[0])
    } else {
        with_id(s.drop_first(), id)
    }
}

impl Default for ExchangeStore {
    fn default() -> (s: Self)
        ensures
            s.wf(),
            s@.len() == 0,
    {
        ExchangeStore { ring: VecDeque::new() }
    }
}

impl ExchangeStore {
    pub open spec fn wf(&self) -> bool {
        self@.len() <= RING_CAP
    }

    /// A new id for an exchange.
    pub fn new_id() -> (s: String)
        ensures
            s@.len() == 36,
    {
        fresh_id()
    }

    pub fn new() -> (s: Self)
        ensures
            s.wf(),
            s@.len() == 0,
    {
        ExchangeStore { ring: VecDeque::new() }
    }

    pub fn push(&mut self, exchange: CapturedExchange)
        requires
            old(self).wf(),
        ensures
            final(self).wf(),
            final(self)@ == pushed(old(self)@, exchange@),
    {
        let ghost was = self@;
        let ghost e = exchange@;
        if self.ring.len() >= RING_CAP {
            self.ring.pop_front();
        }
        self.ring.push_back(exchange);
        assert(self@ =~= pushed(was, e));
    }

    pub fn list(&self) -> (v: Vec<CapturedExchange>)
        ensures
            v@.len() == self@.len(),
            forall|i: int| 0 <= i < v@.len() ==> (#[trigger] v@[i])@ == self@[i],
    {
        let mut v: Vec<CapturedExchange> = Vec::new();
        let mut i: usize = 0;
        while i < self.ring.len()
            invariant
                i <= self.ring@.len(),
                v@.len() == i,
                forall|j: int| 0 <= j < i ==> (#[trigger] v@[j])@ == self@[j],
            decreases self.ring.len() - i,
        {
            v.push(self.ring[i].copy());
            i += 1;
        }
        v
    }

    pub fn get(&self, id: &str) -> (r: Option<CapturedExchange>)
        ensures
            r is Some == with_id(self@, id@) is Some,
            r matches Some(e) ==> with_id(self@, id@) == Some(e@),
    {
        let ghost s = self@;
        let mut i: usize = 0;
        assert(s.skip(0) =~= s);
        while i < self.ring.len()
            invariant
                s == self@,
                i <= s.len(),
                with_id(s, id@) == with_id(s.skip(i as int), id@),
            decreases self.ring.len() - i,
        {
            proof {
                assert(s.skip(i as int)[0] == s[i as int]);
                assert(s.skip(i as int).drop_first() =~= s.skip(i + 1));
            }
            if same_text(self.ring[i].id.as_str(), id) {
                return Some(self.ring[i].copy());
            }
            i += 1;
        }
        None
    }

    pub fn clear(&mut self)
        ensures
            final(self).wf(),
            final(self)@.len() == 0,
    {
        self.ring.clear();
    }
}

} // verus!

//! The head of an HTTP/1.1 message, and what it says of the body.

use crate::text::{
    contains_text, holds, lower_chars, lowered, parse_usize, same_ignoring_case, same_text, trim,
    trimmed, usize_of,
};
use vstd::prelude::*;
use vstd::string::*;
use vstd::utf8::{decode_utf8, valid_utf8};

verus! {

/// The most headers that a message may have.
pub const MAX_HEADERS: usize = 64;

#[derive(Debug, Clone, Copy, PartialEq, Eq, Structural)]
pub enum MessageKind {
    Request,
    Response,
}

/// Why a message cannot be read.
#[derive(Debug, Clone, Copy, PartialEq, Eq, Structural)]
pub enum HttpError {
    HeadersTooLarge,
    EofInHeaders,
    ParseRequest,
    ParseResponse,
    IncompleteRequest,
    IncompleteResponse,
    EofInBody,
    EofInChunked,
    EofInChunkData,
    ChunkSizeUtf8,
    ChunkSize,
}

pub open spec fn error_text(e: HttpError) -> Seq<char> {
    match e {
        HttpError::HeadersTooLarge => "HTTP headers too large"@,
        HttpError::EofInHeaders => "unexpected EOF while reading HTTP headers"@,
        HttpError::ParseRequest => "parse request"@,
        HttpError::ParseResponse => "parse response"@,
        HttpError::IncompleteRequest => "incomplete request headers"@,
        HttpError::IncompleteResponse => "incomplete response headers"@,
        HttpError::EofInBody => "unexpected EOF in request/response body"@,
        HttpError::EofInChunked => "unexpected EOF in chunked body"@,
        HttpError::EofInChunkData => "unexpected EOF in chunk data"@,
        HttpError::ChunkSizeUtf8 => "chunk size utf8"@,
        HttpError::ChunkSize => "parse chunk size"@,
    }
}

impl HttpError {
    pub fn as_str(self) -> (s: &'static str)
        ensures
            s@ == error_text(self),
    {
        match self {
            HttpError::HeadersTooLarge => "HTTP headers too large",
            HttpError::EofInHeaders => "unexpected EOF while reading HTTP headers",
            HttpError::ParseRequest => "parse request",
            HttpError::ParseResponse => "parse response",
            HttpError::IncompleteRequest => "incomplete request headers",
            HttpError::IncompleteResponse => "incomplete response headers",
            HttpError::EofInBody => "unexpected EOF in request/response body",
            HttpError::EofInChunked => "unexpected EOF in chunked body",
            HttpError::EofInChunkData => "unexpected EOF in chunk data",
            HttpError::ChunkSizeUtf8 => "chunk size utf8",
            HttpError::ChunkSize => "parse chunk size",
        }
    }
}

/// A head as the parser gives it.
#[derive(Debug)]
pub struct RawHead {
    pub method: Option<String>,
    pub path: Option<String>,
    pub version: Option<u8>,
    pub code: Option<u16>,
    pub headers: Vec<(String, Vec<u8>)>,
}

/// A [`RawHead`] by its texts and bytes.
pub struct RawHeadView {
    pub method: Option<Seq<char>>,
    pub path: Option<Seq<char>>,
    pub version: Option<u8>,
    pub code: Option<u16>,
    pub headers: Seq<(Seq<char>, Seq<u8>)>,
}

/// What the parser makes of a head: it is refused, it is incomplete, or it is read.
#[derive(Debug)]
pub enum Parsed {
    Bad,
    Partial,
    Head(RawHead),
}

pub enum ParsedView {
    Bad,
    Partial,
    Head(RawHeadView),
}

pub open spec fn opt_text(s: Option<String>) -> Option<Seq<char>> {
    match s {
        Some(t) => Some(t@),
        None => None,
    }
}

impl View for Parsed {
    type V = ParsedView;

    open spec fn view(&self) -> ParsedView {
        match *self {
            Parsed::Bad => ParsedView::Bad,
            Parsed::Partial => ParsedView::Partial,
            Parsed::Head(h) => ParsedView::Head(h@),
        }
    }
}

impl View for RawHead {
    type V = RawHeadView;

    open spec fn view(&self) -> RawHeadView {
        RawHeadView {
            method: opt_text(self.method),
            path: opt_text(self.path),
            version: self.version,
            code: self.code,
            headers: Seq::new(
                self.headers@.len(),
                |i: int| (self.headers@[i].0@, self.headers@[i].1@),
            ),
        }
    }
}

/// What a parser that takes at most `max` headers makes of the head of a request.
pub uninterp spec fn request_head(bytes: Seq<u8>, max: usize) -> ParsedView;

/// `httparse::Request::parse` reads the head of a request: its method, path, minor
/// version and headers, each header as its name and the bytes of its value.
#[verifier::external_body]
pub(crate) fn parse_request(bytes: &[u8], max: usize) -> (r: Parsed)
    ensures
        r@ == request_head(bytes@, max),
{
    let mut buf = vec![httparse::EMPTY_HEADER; max];
    let mut req = httparse::Request::new(&mut buf);
    match req.parse(bytes) {
        Err(_) => Parsed::Bad,
        Ok(httparse::Status::Partial) => Parsed::Partial,
        Ok(httparse::Status::Complete(_)) => Parsed::Head(RawHead {
            method: req.method.map(String::from),
            path: req.path.map(String::from),
            version: req.version,
            code: None,
            headers: req.headers.iter().map(|h| (h.name.to_string(), h.value.to_vec())).collect(),
        }),
    }
}

/// What a parser that takes at most `max` headers makes of the head of a response.
pub uninterp spec fn response_head(bytes: Seq<u8>, max: usize) -> ParsedView;

/// `httparse::Response::parse` reads the head of a response: its status, minor version
/// and headers, each header as its name and the bytes of its value.
#[verifier::external_body]
pub(crate) fn parse_response(bytes: &[u8], max: usize) -> (r: Parsed)
    ensures
        r@ == response_head(bytes@, max),
{
    let mut buf = vec![httparse::EMPTY_HEADER; max];
    let mut res = httparse::Response::new(&mut buf);
    match res.parse(bytes) {
        Err(_) => Parsed::Bad,
        Ok(httparse::Status::Partial) => Parsed::Partial,
        Ok(httparse::Status::Complete(_)) => Parsed::Head(RawHead {
            method: None,
            path: None,
            version: res.version,
            code: res.code,
            headers: res.headers.iter().map(|h| (h.name.to_string(), h.value.to_vec())).collect(),
        }),
    }
}

/// Bytes as text, with a replacement character for each part that is no UTF-8.
pub uninterp spec fn lossy_text(bytes: Seq<u8>) -> Seq<char>;

/// `String::from_utf8_lossy` reads bytes as text: those that are UTF-8 as they stand.
#[verifier::external_body]
pub(crate) fn read_lossy(bytes: &[u8]) -> (s: String)
    ensures
        s@ == lossy_text(bytes@),
        valid_utf8(bytes@) ==> s@ == decode_utf8(bytes@),
{
    String::from_utf8_lossy(bytes).into_owned()
}

/// Headers by their texts.
pub open spec fn headers_seen(h: Seq<(String, String)>) -> Seq<(Seq<char>, Seq<char>)> {
    Seq::new(h.len(), |i: int| (h[i].0@, h[i].1@))
}

/// The headers that have a name, with their values as text.
pub open spec fn named_headers(h: Seq<(Seq<char>, Seq<u8>)>) -> Seq<(Seq<char>, Seq<char>)>
    decreases h.len(),
{
    if h.len() == 0 {
        Seq::empty()
    } else {
        let rest = named_headers(h.drop_last());
        if h.last().0.len() == 0 {
            rest
        } else {
            rest.push((h.last().0, lossy_text(h.last().1)))
        }
    }
}

fn collect_headers(h: &[(String, Vec<u8>)]) -> (v: Vec<(String, String)>)
    ensures
        headers_seen(v@) == named_headers(
            Seq::new(h@.len(), |i: int| (h@[i].0@, h@[i].1@)),
        ),
{
    let mut v: Vec<(String, String)> = Vec::new();
    let ghost s = Seq::new(h@.len(), |i: int| (h@[i].0@, h@[i].1@));
    let mut i: usize = 0;
    assert(headers_seen(v@) =~= named_headers(s.take(0)));
    while i < h.len()
        invariant
            s == Seq::new(h@.len(), |i: int| (h@[i].0@, h@[i].1@)),
            i <= h@.len(),
            headers_seen(v@) == named_headers(s.take(i as int)),
        decreases h.len() - i,
    {
        proof {
            assert(s.take(i + 1).drop_last() =~= s.take(i as int));
        }
        if !h[i].0.as_str().is_empty() {
            let ghost before = headers_seen(v@);
            v.push((h[i].0.clone(), read_lossy(h[i].1.as_slice())));
            assert(headers_seen(v@) =~= before.push(
                (s[i as int].0, lossy_text(s[i as int].1)),
            ));
        }
        i += 1;
    }
    assert(s.take(i as int) =~= s);
    v
}

/// The head of a message.
#[derive(Debug)]
pub struct Head {
    pub method: String,
    pub path: String,
    pub status: Option<u16>,
    pub headers: Vec<(String, String)>,
    pub version_11: bool,
}

/// A [`Head`] by its texts.
pub struct HeadView {
    pub method: Seq<char>,
    pub path: Seq<char>,
    pub status: Option<u16>,
    pub headers: Seq<(Seq<char>, Seq<char>)>,
    pub version_11: bool,
}

impl View for Head {
    type V = HeadView;

    open spec fn view(&self) -> HeadView {
        HeadView {
            method: self.method@,
            path: self.path@,
            status: self.status,
            headers: headers_seen(self.headers@),
            version_11: self.version_11,
        }
    }
}

pub open spec fn or_text(s: Option<Seq<char>>, other: Seq<char>) -> Seq<char> {
    match s {
        Some(t) => t,
        None => other,
    }
}

/// The head that a parser's result stands for.
pub open spec fn head_from(p: ParsedView, kind: MessageKind) -> Result<HeadView, HttpError> {
    match (kind, p) {
        (MessageKind::Request, ParsedView::Bad) => Err(HttpError::ParseRequest),
        (MessageKind::Request, ParsedView::Partial) => Err(HttpError::IncompleteRequest),
        (MessageKind::Request, ParsedView::Head(h)) => Ok(
            HeadView {
                method: or_text(h.method, "GET"@),
                path: or_text(h.path, "/"@),
                status: None,
                headers: named_headers(h.headers),
                version_11: h.version is None || h.version == Some(1u8),
            },
        ),
        (MessageKind::Response, ParsedView::Bad) => Err(HttpError::ParseResponse),
        (MessageKind::Response, ParsedView::Partial) => Err(HttpError::IncompleteResponse),
        (MessageKind::Response, ParsedView::Head(h)) => Ok(
            HeadView {
                method: Seq::empty(),
                path: Seq::empty(),
                status: h.code,
                headers: named_headers(h.headers),
                version_11: h.version is None || h.version == Some(1u8),
            },
        ),
    }
}

/// The head of a message in its bytes.
pub open spec fn head_of(bytes: Seq<u8>, kind: MessageKind) -> Result<HeadView, HttpError> {
    head_from(
        match kind {
            MessageKind::Request => request_head(bytes, MAX_HEADERS),
            MessageKind::Response => response_head(bytes, MAX_HEADERS),
        },
        kind,
    )
}

/// A result by its view.
pub open spec fn is_head(r: Result<Head, HttpError>, v: Result<HeadView, HttpError>) -> bool {
    match (r, v) {
        (Ok(h), Ok(w)) => h@ == w,
        (Err(e), Err(f)) => e == f,
        _ => false,
    }
}

/// The head that a parser's result stands for.
pub fn take_head(p: Parsed, kind: MessageKind) -> (r: Result<Head, HttpError>)
    ensures
        is_head(r, head_from(p@, kind)),
{
    match kind {
        MessageKind::Request => match p {
            Parsed::Bad => Err(HttpError::ParseRequest),
            Parsed::Partial => Err(HttpError::IncompleteRequest),
            Parsed::Head(h) => {
                let headers = collect_headers(h.headers.as_slice());
                let version_11 = match h.version {
                    Some(v) => v == 1,
                    None => true,
                };
                let method = match h.method {
                    Some(m) => m,
                    None => "GET".to_owned(),
                };
                let path = match h.path {
                    Some(m) => m,
                    None => "/".to_owned(),
                };
                Ok(Head { method, path, status: None, headers, version_11 })
            },
        },
        MessageKind::Response => match p {
            Parsed::Bad => Err(HttpError::ParseResponse),
            Parsed::Partial => Err(HttpError::IncompleteResponse),
            Parsed::Head(h) => {
                let headers = collect_headers(h.headers.as_slice());
                let version_11 = match h.version {
                    Some(v) => v == 1,
                    None => true,
                };
                let r = Head {
                    method: String::new(),
                    path: String::new(),
                    status: h.code,
                    headers,
                    version_11,
                };
                proof {
                    assert(r@.method =~= Seq::<char>::empty());
                    assert(r@.path =~= Seq::<char>::empty());
                }
                Ok(r)
            },
        },
    }
}

/// Reads the head of a message.
pub fn parse_headers(bytes: &[u8], kind: MessageKind) -> (r: Result<Head, HttpError>)
    ensures
        is_head(r, head_of(bytes@, kind)),
{
    let p = match kind {
        MessageKind::Request => parse_request(bytes, MAX_HEADERS),
        MessageKind::Response => parse_response(bytes, MAX_HEADERS),
    };
    take_head(p, kind)
}

/// The value of the first header of that name, in any case.
pub open spec fn value_of(h: Seq<(Seq<char>, Seq<char>)>, name: Seq<char>) -> Option<Seq<char>>
    decreases h.len(),
{
    if h.len() == 0 {
        None
    } else if lowered(h[0].0) == lowered(name) {
        Some(h[0].1)
    } else {
        value_of(h.drop_first(), name)
    }
}

pub fn header_value<'a>(headers: &'a [(String, String)], name: &str) -> (r: Option<&'a str>)
    ensures
        r is Some == value_of(headers_seen(headers@), name@) is Some,
        r matches Some(v) ==> value_of(headers_seen(headers@), name@) == Some(v@),
{
    let ghost s = headers_seen(headers@);
    let mut i: usize = 0;
    assert(s.skip(0) =~= s);
    while i < headers.len()
        invariant
            s == headers_seen(headers@),
            i <= headers@.len(),
            value_of(s, name@) == value_of(s.skip(i as int), name@),
        decreases headers.len() - i,
    {
        proof {
            assert(s.skip(i as int)[0] == s[i as int]);
            assert(s.skip(i as int).drop_first() =~= s.skip(i + 1));
        }
        if same_ignoring_case(headers[i].0.as_str(), name) {
            return Some(headers[i].1.as_str());
        }
        i += 1;
    }
    None
}

pub fn header_has(headers: &[(String, String)], name: &str) -> (b: bool)
    ensures
        b == value_of(headers_seen(headers@), name@) is Some,
{
    header_value(headers, name).is_some()
}

/// The connection stays open after the message.
pub open spec fn keeps_alive(h: Seq<(Seq<char>, Seq<char>)>, http11: bool) -> bool {
    match value_of(h, "connection"@) {
        Some(v) => if contains_text(lowered(v), "close"@) {
            false
        } else if contains_text(lowered(v), "keep-alive"@) {
            true
        } else {
            http11
        },
        None => http11,
    }
}

pub fn connection_keep_alive(headers: &[(String, String)], http11: bool) -> (b: bool)
    ensures
        b == keeps_alive(headers_seen(headers@), http11),
{
    match header_value(headers, "connection") {
        Some(v) => {
            let l = lower_chars(v);
            if holds(l.as_slice(), "close") {
                false
            } else if holds(l.as_slice(), "keep-alive") {
                true
            } else {
                http11
            }
        },
        None => http11,
    }
}

/// How the end of a body is found.
#[derive(Debug, Clone, Copy, PartialEq, Eq, Structural)]
pub enum BodyMode {
    ContentLength(usize),
    Chunked,
    Empty,
    /// Read until EOF (HTTP/1.0 response without Content-Length).
    UntilEof,
}

pub open spec fn never_has_body(status: u16) -> bool {
    status == 204 || status == 304 || (100 <= status && status < 200)
}

/// How the end of a message's body is found. For a response, `method` is that of the
/// request.
pub open spec fn plan_of(
    method: Seq<char>,
    status: Option<u16>,
    h: Seq<(Seq<char>, Seq<char>)>,
    kind: MessageKind,
) -> BodyMode {
    if kind is Response && ((status is Some && never_has_body(status->Some_0)) || method
        == "HEAD"@) {
        BodyMode::Empty
    } else if value_of(h, "transfer-encoding"@) matches Some(v) && contains_text(
        lowered(v),
        "chunked"@,
    ) {
        BodyMode::Chunked
    } else if value_of(h, "content-length"@) matches Some(v) && usize_of(trimmed(v)) is Some {
        BodyMode::ContentLength(usize_of(trimmed(value_of(h, "content-length"@)->Some_0))->Some_0)
    } else {
        match kind {
            MessageKind::Request => BodyMode::Empty,
            MessageKind::Response => BodyMode::UntilEof,
        }
    }
}

pub fn body_plan(
    method: &str,
    status: Option<u16>,
    headers: &[(String, String)],
    kind: MessageKind,
) -> (m: BodyMode)
    ensures
        m == plan_of(method@, status, headers_seen(headers@), kind),
{
    if matches!(kind, MessageKind::Response) {
        if let Some(s) = status {
            if s == 204 || s == 304 || (s >= 100 && s < 200) {
                return BodyMode::Empty;
            }
        }
        if same_text(method, "HEAD") {
            return BodyMode::Empty;
        }
    }
    if let Some(v) = header_value(headers, "transfer-encoding") {
        let l = lower_chars(v);
        if holds(l.as_slice(), "chunked") {
            return BodyMode::Chunked;
        }
    }
    if let Some(v) = header_value(headers, "content-length") {
        let t = trim(v);
        if let Some(n) = parse_usize(t.as_str()) {
            return BodyMode::ContentLength(n);
        }
    }
    match kind {
        MessageKind::Request => BodyMode::Empty,
        MessageKind::Response => BodyMode::UntilEof,
    }
}

} // verus!

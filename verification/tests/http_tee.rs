use tunnet_core::inspect::body::{BodyPhase, BodyReader, BODY_CAP};
use tunnet_core::inspect::exchange::{
    after_exchange, body_text, captured, rebuild_request, replayed, AfterExchange,
    CapturedExchange, ExchangeStore, ExchangeSummary, Occasion, RING_CAP,
};
use tunnet_core::inspect::head::{
    body_plan, connection_keep_alive, header_has, header_value, parse_headers, BodyMode,
    HttpError, MessageKind,
};
use tunnet_core::inspect::hub::{default_addr, refusal, InspectorHub, Registered, ReplayPlan};
use tunnet_core::inspect::reader::{HttpMessage, MessageReader, Progress, MAX_HEAD_BYTES};
use tunnet_core::text::parse_usize;

/// Reads one message out of what is left over and a stream that ends.
fn read_all(
    kind: MessageKind,
    method: &str,
    leftover: &mut Vec<u8>,
    stream: &[u8],
    step: usize,
) -> Result<Option<HttpMessage>, HttpError> {
    let mut r = MessageReader::new(kind, method, std::mem::take(leftover));
    let mut at = 0;
    loop {
        let eof = at == stream.len();
        match r.poll(eof)? {
            Progress::Message => {
                let (m, rest) = r.finish().unwrap();
                *leftover = rest;
                leftover.extend_from_slice(&stream[at..]);
                return Ok(Some(m));
            }
            Progress::Closed => return Ok(None),
            Progress::NeedMore => {
                assert!(!eof, "nothing more will come");
                let end = (at + step).min(stream.len());
                r.feed(&stream[at..end])?;
                at = end;
            }
        }
    }
}

fn read(kind: MessageKind, method: &str, raw: &[u8]) -> Result<Option<HttpMessage>, HttpError> {
    read_all(kind, method, &mut Vec::new(), raw, 8192)
}

#[test]
fn parse_get_request_no_body() {
    let raw = b"GET /hello HTTP/1.1\r\nHost: example.com\r\nConnection: close\r\n\r\n";
    let msg = read(MessageKind::Request, "", raw).unwrap().unwrap();
    assert_eq!(msg.method, "GET");
    assert_eq!(msg.path, "/hello");
    assert!(msg.body.is_empty());
    assert!(!msg.body_truncated);
    assert_eq!(&msg.raw[..], &raw[..]);
}

#[test]
fn parse_post_content_length() {
    let raw = b"POST /api HTTP/1.1\r\nHost: x\r\nContent-Length: 5\r\n\r\nhello";
    let msg = read(MessageKind::Request, "", raw).unwrap().unwrap();
    assert_eq!(msg.method, "POST");
    assert_eq!(msg.body, b"hello");
    assert!(!msg.body_truncated);
}

#[test]
fn truncate_large_body() {
    let body = vec![b'a'; BODY_CAP + 100];
    let header = format!(
        "POST /big HTTP/1.1\r\nHost: x\r\nContent-Length: {}\r\n\r\n",
        body.len()
    );
    let header_len = header.len();
    let mut raw = header.into_bytes();
    raw.extend_from_slice(&body);
    let msg = read(MessageKind::Request, "", &raw).unwrap().unwrap();
    assert_eq!(msg.body.len(), BODY_CAP);
    assert!(msg.body_truncated);
    assert_eq!(msg.raw.len(), header_len + body.len());
}

#[test]
fn parse_chunked_body() {
    let raw = b"HTTP/1.1 200 OK\r\nTransfer-Encoding: chunked\r\n\r\n5\r\nhello\r\n0\r\n\r\n";
    let msg = read(MessageKind::Response, "GET", raw).unwrap().unwrap();
    assert_eq!(msg.status, Some(200));
    assert_eq!(msg.body, b"hello");
    assert!(!msg.body_truncated);
}

#[test]
fn keep_alive_two_requests() {
    let raw = "GET /a HTTP/1.1\r\nHost: x\r\n\r\nGET /b HTTP/1.1\r\nHost: x\r\nConnection: close\r\n\r\n";
    let mut leftover = Vec::new();
    let a = read_all(MessageKind::Request, "", &mut leftover, raw.as_bytes(), 8192)
        .unwrap()
        .unwrap();
    assert_eq!(a.path, "/a");
    assert!(a.keep_alive);
    let b = read_all(MessageKind::Request, "", &mut leftover, b"", 8192).unwrap().unwrap();
    assert_eq!(b.path, "/b");
    assert!(!b.keep_alive);
}

#[test]
fn messages_are_the_same_however_they_arrive() {
    let raw = b"HTTP/1.1 200 OK\r\nTransfer-Encoding: chunked\r\n\r\n5\r\nhello\r\n3;x=1\r\nabc\r\n0\r\n\r\n";
    for step in 1..20 {
        let m = read_all(MessageKind::Response, "GET", &mut Vec::new(), raw, step)
            .unwrap()
            .unwrap();
        assert_eq!(m.body, b"helloabc", "step {step}");
        assert_eq!(&m.raw[..], &raw[..], "step {step}");
    }
}

#[test]
fn a_chunked_body_ends_at_the_blank_line() {
    let mut r = BodyReader::start(
        b"5\r\nhello\r\n0\r\n\r\nGET /b HTTP/1.1\r\n\r\n".to_vec(),
        BodyMode::Chunked,
    );
    r.run(false).unwrap();
    assert_eq!(r.phase, BodyPhase::Done);
    assert_eq!(r.captured, b"hello");
    assert!(!r.truncated);
    assert_eq!(r.wire, b"5\r\nhello\r\n0\r\n\r\n");
    assert_eq!(r.available, b"GET /b HTTP/1.1\r\n\r\n");

    // Trailers belong to the message.
    let raw = b"HTTP/1.1 200 OK\r\nTransfer-Encoding: chunked\r\n\r\n1\r\na\r\n0\r\nX: y\r\n\r\nrest";
    let mut left = Vec::new();
    let m = read_all(MessageKind::Response, "GET", &mut left, raw, 8192).unwrap().unwrap();
    assert_eq!(m.body, b"a");
    assert_eq!(left, b"rest");
}

#[test]
fn streams_may_end_early() {
    let req = MessageKind::Request;
    let resp = MessageKind::Response;
    assert!(read(req, "", b"").unwrap().is_none());
    assert_eq!(read(req, "", b"GET / HT").unwrap_err(), HttpError::EofInHeaders);
    assert_eq!(
        read(req, "", b"POST / HTTP/1.1\r\nContent-Length: 5\r\n\r\nhel").unwrap_err(),
        HttpError::EofInBody
    );
    assert_eq!(
        read(resp, "GET", b"HTTP/1.1 200 OK\r\nTransfer-Encoding: chunked\r\n\r\n5").unwrap_err(),
        HttpError::EofInChunked
    );
    assert_eq!(
        read(resp, "GET", b"HTTP/1.1 200 OK\r\nTransfer-Encoding: chunked\r\n\r\n5\r\nhe")
            .unwrap_err(),
        HttpError::EofInChunkData
    );
    // Without a length a response runs to the end of the stream.
    let m = read(resp, "GET", b"HTTP/1.1 200 OK\r\n\r\nrest").unwrap().unwrap();
    assert_eq!(m.body, b"rest");
}

#[test]
fn messages_may_be_bad() {
    let req = MessageKind::Request;
    let resp = MessageKind::Response;
    assert_eq!(read(req, "", b"\x01\x02 /\r\n\r\n").unwrap_err(), HttpError::ParseRequest);
    assert_eq!(read(resp, "GET", b"BAD\r\n\r\n").unwrap_err(), HttpError::ParseResponse);
    let chunked = |size: &[u8]| {
        let mut raw = b"HTTP/1.1 200 OK\r\nTransfer-Encoding: chunked\r\n\r\n".to_vec();
        raw.extend_from_slice(size);
        raw.extend_from_slice(b"\r\n");
        read(resp, "GET", &raw).unwrap_err()
    };
    assert_eq!(chunked(b"xyz"), HttpError::ChunkSize);
    assert_eq!(chunked(b"\xff"), HttpError::ChunkSizeUtf8);
    assert_eq!(chunked(b"ffffffffffffffff"), HttpError::ChunkSize);
    let long = vec![b'a'; MAX_HEAD_BYTES + 9000];
    assert_eq!(read(req, "", &long).unwrap_err(), HttpError::HeadersTooLarge);
    assert_eq!(parse_headers(b"GET / HTTP/1.1\r\n", req).unwrap_err(), HttpError::IncompleteRequest);
    assert_eq!(
        parse_headers(b"HTTP/1.1 200 OK\r\n", resp).unwrap_err(),
        HttpError::IncompleteResponse
    );
    assert!(!HttpError::ChunkSize.as_str().is_empty());
}

fn headers(v: &[(&str, &str)]) -> Vec<(String, String)> {
    v.iter().map(|(a, b)| (a.to_string(), b.to_string())).collect()
}

#[test]
fn heads_are_read() {
    let h = parse_headers(b"GET /x HTTP/1.0\r\nA: b\r\nc: \xff\r\n\r\n", MessageKind::Request)
        .unwrap();
    assert_eq!((h.method.as_str(), h.path.as_str(), h.version_11), ("GET", "/x", false));
    assert_eq!(header_value(&h.headers, "a"), Some("b"));
    assert_eq!(header_value(&h.headers, "c"), Some("\u{fffd}"));
    assert!(!header_has(&h.headers, "d"));
    assert!(connection_keep_alive(&[], true));
    assert!(!connection_keep_alive(&[], false));
    assert!(!connection_keep_alive(&headers(&[("Connection", "close")]), true));
    assert!(connection_keep_alive(&headers(&[("Connection", "Keep-Alive")]), false));
    assert_eq!(parse_usize("12"), Some(12));
    assert_eq!(parse_usize("1x"), None);
    assert_eq!(parse_usize("99999999999999999999"), None);
}

#[test]
fn bodies_are_planned() {
    let req = MessageKind::Request;
    let resp = MessageKind::Response;
    assert_eq!(body_plan("GET", None, &[], req), BodyMode::Empty);
    assert_eq!(
        body_plan("POST", None, &headers(&[("content-length", "7")]), req),
        BodyMode::ContentLength(7)
    );
    assert_eq!(
        body_plan("POST", None, &headers(&[("transfer-encoding", "chunked")]), req),
        BodyMode::Chunked
    );
    assert_eq!(body_plan("HEAD", Some(200), &headers(&[("content-length", "7")]), resp), BodyMode::Empty);
    assert_eq!(body_plan("GET", Some(204), &[], resp), BodyMode::Empty);
    assert_eq!(body_plan("GET", Some(200), &[], resp), BodyMode::UntilEof);
}

fn at(id: &str) -> Occasion {
    Occasion {
        id: id.to_string(),
        tunnel_id: "t".to_string(),
        started_at: "now".to_string(),
        latency_ms: 3,
    }
}

fn exchange(id: &str) -> CapturedExchange {
    let req = read(
        MessageKind::Request,
        "",
        b"POST /p HTTP/1.1\r\nHost: x\r\nContent-Length: 2\r\n\r\nhi",
    )
    .unwrap()
    .unwrap();
    let resp = read(MessageKind::Response, "POST", b"HTTP/1.1 201 Created\r\nContent-Length: 2\r\n\r\nok")
        .unwrap()
        .unwrap();
    assert_eq!(after_exchange(&req, &resp), AfterExchange::NextRequest);
    captured(at(id), req, Some(resp))
}

#[test]
fn exchanges_are_captured_and_replayed() {
    let e = exchange("one");
    assert_eq!((e.method.as_str(), e.path.as_str(), e.status), ("POST", "/p", 201));
    assert_eq!(e.request_body, b"hi");
    let raw = rebuild_request(&e);
    let again = read(MessageKind::Request, "", &raw).unwrap().unwrap();
    assert_eq!((again.method.as_str(), again.path.as_str()), ("POST", "/p"));
    assert_eq!(again.body, b"hi");
    assert!(!again.keep_alive);
    let resp = read(MessageKind::Response, "POST", b"HTTP/1.1 500 No\r\nContent-Length: 0\r\n\r\n")
        .unwrap()
        .unwrap();
    let r = replayed(&e, at("two"), resp);
    assert_eq!(r.replayed_from.as_deref(), Some("one"));
    assert_eq!(r.status, 500);
    let s = ExchangeSummary::of(&r);
    assert_eq!((s.id.as_str(), s.status, s.latency_ms), ("two", 500, 3));
    assert_eq!(body_text(b"plain"), "plain");
    assert_eq!(body_text(&[0xff, 0xfe]), "base64://4=");
}

#[test]
fn the_ring_holds_the_newest() {
    let mut s = ExchangeStore::new();
    for i in 0..RING_CAP + 5 {
        s.push(exchange(&format!("{i}")));
    }
    assert_eq!(s.list().len(), RING_CAP);
    assert_eq!(ExchangeStore::new_id().len(), 36);
    assert_ne!(ExchangeStore::new_id(), ExchangeStore::new_id());
    assert!(s.get("0").is_none());
    assert!(s.get("104").is_some());
    s.clear();
    assert!(s.list().is_empty());
}

#[test]
fn the_hub_serves_one_address() {
    let mut h = InspectorHub::new();
    assert_eq!(h.inspector_url(), None);
    let addr = default_addr().to_string();
    match h.register_tunnel("t", "127.0.0.1:80".to_string(), addr.clone()) {
        Registered::Ready { url, spawn } => {
            assert!(url.contains(&addr));
            assert!(spawn);
        }
        other => panic!("unexpected {other:?}"),
    }
    assert!(matches!(
        h.register_tunnel("u", "127.0.0.1:81".to_string(), "127.0.0.1:1".to_string()),
        Registered::Conflict { .. }
    ));
    assert_eq!(h.target_for("t").as_deref(), Some("127.0.0.1:80"));
    h.store.push(exchange("one"));
    match h.plan_replay("one") {
        ReplayPlan::Replay { exchange, target } => {
            assert_eq!(exchange.id, "one");
            assert_eq!(target, "127.0.0.1:80");
        }
        other => panic!("unexpected {other:?}"),
    }
    assert_eq!(refusal(&h.plan_replay("none")).map(|r| r.0), Some(404));
    assert!(h.unregister_tunnel("t"));
    assert!(matches!(h.plan_replay("one"), ReplayPlan::TunnelGone));
}

#[test]
fn bodies_are_the_same_however_they_are_cut() {
    let sized = b"POST / HTTP/1.1\r\nContent-Length: 11\r\n\r\nhello worldGET".to_vec();
    let chunked =
        b"POST / HTTP/1.1\r\nTransfer-Encoding: chunked\r\n\r\n6\r\nhello \r\n5;x=y\r\nworld\r\n0\r\nA: b\r\n\r\nGET"
            .to_vec();
    for stream in [sized, chunked] {
        for step in 1..stream.len() {
            let mut left = Vec::new();
            let m = read_all(MessageKind::Request, "", &mut left, &stream, step).unwrap().unwrap();
            assert_eq!(m.body, b"hello world");
            assert!(!m.body_truncated);
            assert_eq!(left, b"GET");
            assert_eq!([m.raw, left].concat(), stream);
        }
    }
    let open = b"HTTP/1.1 200 OK\r\n\r\nhello world";
    for step in 1..open.len() {
        let mut left = Vec::new();
        let m = read_all(MessageKind::Response, "GET", &mut left, open, step).unwrap().unwrap();
        assert_eq!(m.body, b"hello world");
        assert_eq!(m.raw, open);
        assert!(left.is_empty());
    }
}

#[test]
fn a_large_message_is_whole() {
    let n = BODY_CAP + 5;
    let body: Vec<u8> = (0..n).map(|i| i as u8).collect();
    let mut stream = format!("POST / HTTP/1.1\r\nContent-Length: {n}\r\n\r\n").into_bytes();
    let h = stream.len();
    stream.extend_from_slice(&body);
    stream.extend_from_slice(b"next");
    // Some of it was left over from the message before.
    let mut left = stream[..10].to_vec();
    let m = read_all(MessageKind::Request, "", &mut left, &stream[10..], 100_000)
        .unwrap()
        .unwrap();
    assert_eq!(m.raw, stream[..h + n]);
    assert_eq!(m.body, body[..BODY_CAP]);
    assert!(m.body_truncated);
    assert_eq!(left, b"next");
    // A body that ends with the stream: the last poll is told so.
    let open = [b"HTTP/1.1 200 OK\r\n\r\n".to_vec(), body.clone()].concat();
    let mut left = Vec::new();
    let m = read_all(MessageKind::Response, "GET", &mut left, &open, 100_000).unwrap().unwrap();
    assert_eq!(m.raw, open);
    assert_eq!(m.body, body[..BODY_CAP]);
    assert!(m.body_truncated);
    assert!(left.is_empty());
}

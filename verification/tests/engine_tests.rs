use async_web_client::error::HttpError;
use async_web_client::headers::HeaderMap;
use async_web_client::request::Request;
use async_web_client::uri::Uri;

fn post_request(target: &[u8], body: Vec<u8>) -> Request<Vec<u8>> {
    Request {
        method: b"POST".to_vec(),
        uri: Uri::parse(target).unwrap(),
        headers: HeaderMap::new(),
        body,
    }
}

#[test]
fn full_request_round_trip_over_a_scripted_transport() {
    let req = post_request(b"http://example.com/x", b"abc".to_vec());
    let (mut send, mut reader) = req.into_send::<()>();
    assert!(!send.is_terminated());

    let origin = send.start_connect().unwrap();
    assert!(!origin.tls);
    assert_eq!(origin.host, b"example.com".to_vec());
    assert_eq!(origin.port, 80);

    send.connect_ok(());

    // The head goes out first; Host and Content-Length are injected.
    let head = send.to_write().to_vec();
    let head_text = String::from_utf8(head.clone()).unwrap();
    assert!(head_text.starts_with("POST /x HTTP/1.1\r\n"));
    assert!(head_text.contains("host: example.com\r\n"));
    assert!(head_text.contains("content-length: 3\r\n"));
    assert!(head_text.ends_with("\r\n\r\n"));
    // Partial writes keep the remainder pending.
    send.wrote(2);
    assert_eq!(send.to_write().to_vec(), head[2..].to_vec());
    let rest = head.len() - 2;
    send.wrote(rest);

    // The body is pumped through the bounded buffer.
    let max = send.next_body_read();
    assert_eq!(max, 3);
    let chunk = reader.read(max as usize);
    assert_eq!(chunk, b"abc".to_vec());
    send.body_chunk(chunk);
    assert_eq!(send.to_write().to_vec(), b"abc".to_vec());
    send.wrote(3);

    send.flushed();

    // The response head arrives with a piece of the body; the surplus
    // byte-exactly becomes the body's backlog.
    let resp = send
        .head_data(b"HTTP/1.1 200 OK\r\ncontent-length: 5\r\n\r\nhel")
        .unwrap()
        .unwrap();
    assert!(send.is_terminated());
    assert_eq!(resp.status, 200);
    let mut body = resp.body;
    body.feed(b"loEXTRA");
    let bytes = body.bytes(None).unwrap();
    assert_eq!(bytes, b"hello".to_vec());
    // The transport and the unread surplus are reclaimable.
    let (_state, leftover, ()) = body.into_inner().unwrap();
    assert_eq!(leftover, b"EXTRA".to_vec());
}

#[test]
fn zero_length_body_skips_to_flushing() {
    let req = post_request(b"http://example.com/", Vec::new());
    let (mut send, _reader) = req.into_send::<()>();
    send.start_connect().unwrap();
    send.connect_ok(());
    let head = send.to_write().to_vec();
    let head_text = String::from_utf8(head.clone()).unwrap();
    assert!(head_text.contains("content-length: 0\r\n"));
    let n = head.len();
    send.wrote(n);
    // No body to send: flushing comes next.
    send.flushed();
}

#[test]
fn body_source_ending_early_is_fatal() {
    let req = post_request(b"http://example.com/", b"abcdef".to_vec());
    let (mut send, _reader) = req.into_send::<()>();
    send.start_connect().unwrap();
    send.connect_ok(());
    let n = send.to_write().len();
    send.wrote(n);
    // The source dries up before the declared six bytes.
    match send.body_source_eof() {
        HttpError::IoError(k) => {
            assert!(matches!(k, async_web_client::error::IoErrorKind::UnexpectedEof))
        }
        _ => panic!("expected IoError"),
    }
    assert!(send.is_terminated());
}

#[test]
fn missing_host_rejects_before_any_connect() {
    let req = post_request(b"/relative", Vec::new());
    let (mut send, _reader) = req.into_send::<()>();
    match send.start_connect() {
        Err(HttpError::MissingHost) => {}
        _ => panic!("expected MissingHost"),
    }
    assert!(send.is_terminated());
}

#[test]
fn unsupported_transfer_encoding_in_response_is_refused() {
    let req = post_request(b"http://example.com/", Vec::new());
    let (mut send, _reader) = req.into_send::<()>();
    send.start_connect().unwrap();
    send.connect_ok(());
    let n = send.to_write().len();
    send.wrote(n);
    send.flushed();
    match send.head_data(b"HTTP/1.1 200 OK\r\ntransfer-encoding: gzip\r\n\r\n") {
        Err(HttpError::UnsupportedTransferEncoding(v)) => assert_eq!(v, b"gzip".to_vec()),
        _ => panic!("expected UnsupportedTransferEncoding"),
    }
}

#[test]
fn abort_releases_the_transport_at_any_phase() {
    // Before the connect there is nothing to release.
    let req = post_request(b"http://example.com/", b"x".to_vec());
    let (mut send, _reader) = req.into_send::<u32>();
    send.start_connect().unwrap();
    assert_eq!(send.abort(), None);

    // From the connect on, the single owned transport comes back intact.
    let req = post_request(b"http://example.com/", b"x".to_vec());
    let (mut send, _reader) = req.into_send::<u32>();
    send.start_connect().unwrap();
    send.connect_ok(7);
    assert_eq!(send.abort(), Some(7));

    let req = post_request(b"http://example.com/", b"x".to_vec());
    let (mut send, _reader) = req.into_send::<u32>();
    send.start_connect().unwrap();
    send.connect_ok(7);
    let n = send.to_write().len();
    send.wrote(n);
    // Mid-body.
    assert_eq!(send.abort(), Some(7));

    let req = post_request(b"http://example.com/", Vec::new());
    let (mut send, _reader) = req.into_send::<u32>();
    send.start_connect().unwrap();
    send.connect_ok(7);
    let n = send.to_write().len();
    send.wrote(n);
    send.flushed();
    // While receiving the head.
    assert_eq!(send.abort(), Some(7));
}

#[test]
fn transport_is_accessible_only_while_owned() {
    let req = post_request(b"http://example.com/", Vec::new());
    let (mut send, _reader) = req.into_send::<u32>();
    send.start_connect().unwrap();
    send.connect_ok(41);
    let t = send.transport_mut();
    *t += 1;
    assert_eq!(send.abort(), Some(42));
}

#[test]
fn status_only_response_parses() {
    let req = post_request(b"http://example.com/", Vec::new());
    let (mut send, _reader) = req.into_send::<()>();
    send.start_connect().unwrap();
    send.connect_ok(());
    let n = send.to_write().len();
    send.wrote(n);
    send.flushed();
    let out = send.head_data(b"HTTP/1.1 204 No Content\r\n\r\n").unwrap();
    let resp = out.unwrap();
    assert_eq!(resp.status, 204);
    let mut body = resp.body;
    // No framing headers: the body is empty and already ended.
    assert!(body.is_done());
    assert_eq!(body.bytes(None).unwrap(), Vec::<u8>::new());
}

#[test]
fn chunked_response_decodes_through_the_engine() {
    let req = post_request(b"http://example.com/", Vec::new());
    let (mut send, _reader) = req.into_send::<()>();
    send.start_connect().unwrap();
    send.connect_ok(());
    let n = send.to_write().len();
    send.wrote(n);
    send.flushed();
    let resp = send
        .head_data(b"HTTP/1.1 200 OK\r\ntransfer-encoding: chunked\r\n\r\n4\r\nwiki\r\n")
        .unwrap()
        .unwrap();
    let mut body = resp.body;
    body.feed(b"5\r\npedia\r\n0\r\n\r\nNEXT");
    assert_eq!(body.bytes(None).unwrap(), b"wikipedia".to_vec());
    let (_state, leftover, ()) = body.into_inner().unwrap();
    assert_eq!(leftover, b"NEXT".to_vec());
}

#[test]
fn foreign_scheme_is_refused_with_the_scheme_named() {
    let req = post_request(b"ftp://files.example/x", Vec::new());
    let (mut send, _reader) = req.into_send::<()>();
    match send.start_connect() {
        Err(HttpError::UnexpectedScheme(s)) => assert_eq!(s, b"ftp".to_vec()),
        _ => panic!("expected UnexpectedScheme"),
    }
    assert!(send.is_terminated());
}

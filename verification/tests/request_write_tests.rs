use async_web_client::error::HttpError;
use async_web_client::headers::HeaderMap;
use async_web_client::request::Request;
use async_web_client::request_write::RequestWrite;
use async_web_client::uri::Uri;

fn request_with(method: &[u8], headers: HeaderMap) -> Request<()> {
    Request {
        method: method.to_vec(),
        uri: Uri::parse(b"https://example.com/x").unwrap(),
        headers,
        body: (),
    }
}

#[test]
fn start_captures_the_head_and_buffers_writes() {
    let mut headers = HeaderMap::new();
    headers.append(b"accept".to_vec(), b"*/*".to_vec());
    let req = request_with(b"POST", headers);
    let mut w = RequestWrite::start(&req);
    assert_eq!(w.method(), &b"POST".to_vec());
    assert_eq!(w.headers().len(), 1);
    assert_eq!(w.body(), &Vec::<u8>::new());
    assert_eq!(w.write(b"abc"), 3);
    assert_eq!(w.write(b"de"), 2);
    assert_eq!(w.body(), &b"abcde".to_vec());
}

#[test]
fn known_methods_pass_and_others_are_refused() {
    for m in [
        &b"OPTIONS"[..],
        b"GET",
        b"POST",
        b"PUT",
        b"DELETE",
        b"HEAD",
        b"TRACE",
        b"CONNECT",
        b"PATCH",
    ] {
        let w = RequestWrite::start(&request_with(m, HeaderMap::new()));
        assert!(w.check_method().is_ok());
    }
    let w = RequestWrite::start(&request_with(b"BREW", HeaderMap::new()));
    match w.check_method() {
        Err(HttpError::InvalidMethod(m)) => assert_eq!(m, b"BREW".to_vec()),
        _ => panic!("expected InvalidMethod"),
    }
}

#[test]
fn header_values_must_be_sendable_text() {
    let mut headers = HeaderMap::new();
    headers.append(b"fine".to_vec(), b"value".to_vec());
    let w = RequestWrite::start(&request_with(b"GET", headers));
    assert!(w.check_headers().is_ok());
}

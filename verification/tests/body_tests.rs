use async_web_client::body::{BodyReader, IntoRequestBody};
use async_web_client::request::RequestExt;
use async_web_client::headers::HeaderMap;
use async_web_client::request::Request;
use async_web_client::uri::Uri;

fn post(target: &[u8]) -> Request<()> {
    Request {
        method: b"POST".to_vec(),
        uri: Uri::parse(target).unwrap(),
        headers: HeaderMap::new(),
        body: (),
    }
}

fn start<B: IntoRequestBody>(body: B) -> (u64, Vec<u8>) {
    let req = post(b"http://postman-echo.com/post");
    let (req, ()) = req.swap_body(body);
    let (mut send, mut reader) = req.into_send::<()>();
    send.start_connect().unwrap();
    let declared = {
        // The injected Content-Length reflects the declared length; read it
        // back out of the encoded head.
        send.connect_ok(());
        let head = send.to_write().to_vec();
        let text = String::from_utf8(head).unwrap();
        let line = text
            .lines()
            .find(|l| l.starts_with("content-length: "))
            .unwrap()
            .to_string();
        line["content-length: ".len()..].trim_end().parse::<u64>().unwrap()
    };
    (declared, reader.read(usize::MAX))
}

#[test]
fn test_send_with_async_read_body() {
    // A caller-supplied stream paired with an explicit length.
    let stream = (BodyReader::new(vec![3u8]), 1u64);
    let (declared, produced) = start(stream);
    assert_eq!(declared, 1);
    assert_eq!(produced, vec![3u8]);
}

#[test]
fn test_send_with_as_ref() {
    let (declared, produced) = start(&[3u8][..]);
    assert_eq!(declared, 1);
    assert_eq!(produced, vec![3u8]);
}

#[test]
fn test_send_with_vec() {
    let (declared, produced) = start(vec![1u8, 2, 3]);
    assert_eq!(declared, 3);
    assert_eq!(produced, vec![1u8, 2, 3]);
}

#[test]
fn test_send_with_string() {
    let (declared, produced) = start("test".to_string());
    assert_eq!(declared, 4);
    assert_eq!(produced, b"test".to_vec());
}

#[test]
fn test_send_with_option() {
    let (declared, produced) = start(Some(vec![1u8, 2, 3]));
    assert_eq!(declared, 3);
    assert_eq!(produced, vec![1u8, 2, 3]);

    let (declared, produced) = start(None::<Vec<u8>>);
    assert_eq!(declared, 0);
    assert_eq!(produced, Vec::<u8>::new());
}

#[test]
fn unit_body_declares_zero() {
    let (reader, len) = ().into_request_body();
    let mut reader = reader;
    assert_eq!(len, 0);
    assert_eq!(reader.read(16), Vec::<u8>::new());
}

#[test]
fn declared_length_equals_bytes_produced_for_every_kind() {
    let cases: Vec<(Box<dyn Fn() -> (BodyReader, u64)>, u64)> = vec![
        (Box::new(|| ().into_request_body()), 0),
        (Box::new(|| vec![9u8, 8, 7].into_request_body()), 3),
        (Box::new(|| "hi".to_string().into_request_body()), 2),
        (Box::new(|| (&[1u8, 2][..]).into_request_body()), 2),
        (Box::new(|| Some("xyz".to_string()).into_request_body()), 3),
    ];
    for (make, want) in cases {
        let (mut reader, declared) = make();
        assert_eq!(declared, want);
        assert_eq!(reader.read(usize::MAX).len() as u64, declared);
    }
}

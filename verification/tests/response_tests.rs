use async_web_client::error::IoErrorKind;
use async_web_client::framing::BodyDecodeState;
use async_web_client::response::ResponseBody;

fn body_of(total: &[u8]) -> ResponseBody<()> {
    let decode = BodyDecodeState::new(Some(total.len() as u64));
    ResponseBody::new(decode, total.to_vec(), ())
}

#[test]
fn body_string_at_exactly_the_limit_succeeds() {
    let mut body = body_of(b"0123456789");
    let s = body.string(Some(10)).unwrap();
    assert_eq!(s, "0123456789");
}

#[test]
fn body_string_one_past_the_limit_is_out_of_memory() {
    let mut body = body_of(b"0123456789X");
    assert_eq!(body.string(Some(10)), Err(IoErrorKind::OutOfMemory));
}

#[test]
fn body_bytes_at_and_past_the_limit() {
    let mut body = body_of(b"abcde");
    assert_eq!(body.bytes(Some(5)).unwrap(), b"abcde".to_vec());
    let mut body = body_of(b"abcdef");
    assert_eq!(body.bytes(Some(5)), Err(IoErrorKind::OutOfMemory));
    let mut body = body_of(b"abcdef");
    assert_eq!(body.bytes(None).unwrap(), b"abcdef".to_vec());
}

#[test]
fn body_string_rejects_invalid_utf8() {
    let mut body = body_of(&[0x66, 0x6f, 0xff]);
    assert_eq!(body.string(None), Err(IoErrorKind::InvalidData));
}

#[test]
fn incremental_reads_and_feeds() {
    let decode = BodyDecodeState::new(Some(4));
    let mut body: ResponseBody<()> = ResponseBody::new(decode, Vec::new(), ());
    assert!(body.needs_input());
    body.feed(b"ab");
    let out = body.read_step(16).unwrap();
    assert_eq!(out, b"ab".to_vec());
    assert!(body.needs_input());
    body.feed(b"cdTAIL");
    let out = body.read_step(16).unwrap();
    assert_eq!(out, b"cd".to_vec());
    assert!(body.is_done());
    let (_state, leftover, ()) = body.into_inner().unwrap();
    assert_eq!(leftover, b"TAIL".to_vec());
}

#[test]
fn transport_eof_latches_and_resurfaces() {
    let decode = BodyDecodeState::new(Some(4));
    let mut body: ResponseBody<()> = ResponseBody::new(decode, Vec::new(), ());
    assert_eq!(body.on_transport_eof(), IoErrorKind::UnexpectedEof);
    assert_eq!(body.read_step(16), Err(IoErrorKind::UnexpectedEof));
    // The same error is reported again, and blocks reclaiming the state.
    assert_eq!(body.read_step(16), Err(IoErrorKind::UnexpectedEof));
    assert!(body.into_inner().is_err());
}

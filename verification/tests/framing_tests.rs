use async_web_client::error::{HttpError, IoErrorKind};
use async_web_client::framing::BodyDecodeState;
use async_web_client::headers::HeaderMap;

fn headers(entries: &[(&[u8], &[u8])]) -> HeaderMap {
    let mut h = HeaderMap::new();
    for (n, v) in entries {
        h.append(n.to_vec(), v.to_vec());
    }
    h
}

#[test]
fn unrecognized_transfer_encoding_is_refused() {
    let h = headers(&[(b"Transfer-Encoding", b"gzip")]);
    match BodyDecodeState::from_headers(&h) {
        Err(HttpError::UnsupportedTransferEncoding(v)) => assert_eq!(v, b"gzip".to_vec()),
        _ => panic!("expected UnsupportedTransferEncoding"),
    }
    // Even beside a chunked coding, another coding is never guessed around.
    let h = headers(&[
        (b"Transfer-Encoding", b"chunked"),
        (b"Transfer-Encoding", b"gzip"),
    ]);
    assert!(BodyDecodeState::from_headers(&h).is_err());
}

#[test]
fn content_length_framing_yields_exactly_n_bytes() {
    let h = headers(&[(b"Content-Length", b"5")]);
    let mut d = BodyDecodeState::from_headers(&h).unwrap();
    // Feed in uneven pieces: the split never changes what comes out.
    let (used, out) = d.step(b"he", 1024).unwrap();
    assert_eq!((used, out), (2, b"he".to_vec()));
    let (used, out) = d.step(b"l", 1024).unwrap();
    assert_eq!((used, out), (1, b"l".to_vec()));
    assert!(!d.is_done());
    let (used, out) = d.step(b"lo EXTRA", 1024).unwrap();
    assert_eq!((used, out), (2, b"lo".to_vec()));
    assert!(d.is_done());
    // End of stream: nothing more is consumed or produced.
    let (used, out) = d.step(b" EXTRA", 1024).unwrap();
    assert_eq!((used, out), (0, Vec::new()));
}

#[test]
fn missing_framing_means_empty_body() {
    let h = HeaderMap::new();
    let d = BodyDecodeState::from_headers(&h).unwrap();
    assert!(d.is_done());
}

#[test]
fn bad_content_length_is_refused() {
    for bad in [&b"abc"[..], b"", b"-1", b"18446744073709551616"] {
        let h = headers(&[(b"Content-Length", bad)]);
        assert!(BodyDecodeState::from_headers(&h).is_err());
    }
    // A leading plus sign parses, as the platform's integer parser allows.
    let h = headers(&[(b"Content-Length", b"+7")]);
    assert!(BodyDecodeState::from_headers(&h).is_ok());
}

#[test]
fn chunked_framing_decodes_chunks_and_stops() {
    let h = headers(&[(b"Transfer-Encoding", b"chunked")]);
    let mut d = BodyDecodeState::from_headers(&h).unwrap();
    let mut input: &[u8] = b"5\r\nhello\r\n3\r\n wo\r\n0\r\n\r\nLEFTOVER";
    let mut out = Vec::new();
    while !d.is_done() {
        let (used, bytes) = d.step(input, 1024).unwrap();
        assert!(used > 0, "decoder stalled");
        out.extend_from_slice(&bytes);
        input = &input[used..];
    }
    assert_eq!(out, b"hello wo".to_vec());
    assert_eq!(input, b"LEFTOVER");
}

#[test]
fn malformed_chunk_size_fails_permanently() {
    let h = headers(&[(b"Transfer-Encoding", b"chunked")]);
    let mut d = BodyDecodeState::from_headers(&h).unwrap();
    assert_eq!(d.step(b"Z", 16), Err(IoErrorKind::InvalidData));
    // The failure latches.
    assert_eq!(d.step(b"5", 16), Err(IoErrorKind::BrokenPipe));
}

#[test]
fn eof_before_the_boundary_is_unexpected_eof() {
    let h = headers(&[(b"Content-Length", b"5")]);
    let mut d = BodyDecodeState::from_headers(&h).unwrap();
    let (_, _) = d.step(b"he", 16).unwrap();
    assert_eq!(d.on_eof(), IoErrorKind::UnexpectedEof);
}

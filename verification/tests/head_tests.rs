use async_web_client::head::{encode_request_head, find_crlf, parse_response_head};
use async_web_client::headers::HeaderMap;

#[test]
fn request_head_encodes_byte_exactly() {
    let mut headers = HeaderMap::new();
    headers.append(b"host".to_vec(), b"example.com".to_vec());
    headers.append(b"accept".to_vec(), b"*/*".to_vec());
    let head = encode_request_head(b"GET", b"/a?b=c", &headers);
    assert_eq!(
        head,
        b"GET /a?b=c HTTP/1.1\r\nhost: example.com\r\naccept: */*\r\n\r\n".to_vec()
    );
}

#[test]
fn response_head_parses_status_and_headers() {
    let head = b"HTTP/1.1 404 Not Found\r\nContent-Length: 9\r\nServer: t\r\n\r\n";
    let (status, headers) = parse_response_head(head).unwrap();
    assert_eq!(status, 404);
    assert_eq!(headers.len(), 2);
    assert_eq!(
        headers.get(b"content-length").unwrap(),
        &b"9".to_vec()
    );
    assert_eq!(headers.get(b"server").unwrap(), &b"t".to_vec());
}

#[test]
fn header_values_are_trimmed_of_optional_whitespace() {
    let head = b"HTTP/1.1 200 OK\r\nX-A:   padded \t \r\n\r\n";
    let (_, headers) = parse_response_head(head).unwrap();
    assert_eq!(headers.get(b"x-a").unwrap(), &b"padded".to_vec());
}

#[test]
fn status_line_without_reason_parses() {
    let (status, headers) = parse_response_head(b"HTTP/1.1 200\r\n\r\n").unwrap();
    assert_eq!(status, 200);
    assert_eq!(headers.len(), 0);
}

#[test]
fn malformed_heads_are_refused() {
    // Wrong protocol version.
    assert!(parse_response_head(b"HTTP/1.0 200 OK\r\n\r\n").is_none());
    // Too few status digits.
    assert!(parse_response_head(b"HTTP/1.1 20 OK\r\n\r\n").is_none());
    // A header line without a colon.
    assert!(parse_response_head(b"HTTP/1.1 200 OK\r\nbroken\r\n\r\n").is_none());
    // Truncated: the empty line never comes.
    assert!(parse_response_head(b"HTTP/1.1 200 OK\r\n").is_none());
}

#[test]
fn first_crlf_is_found() {
    assert_eq!(find_crlf(b"abc\r\ndef\r\n"), Some(3));
    assert_eq!(find_crlf(b"abc"), None);
    assert_eq!(find_crlf(b""), None);
}

#[test]
fn encoded_head_parses_back_to_the_same_headers() {
    let mut headers = HeaderMap::new();
    headers.append(b"host".to_vec(), b"example.com:81".to_vec());
    headers.append(b"content-length".to_vec(), b"12".to_vec());
    headers.append(b"x-empty".to_vec(), b"".to_vec());
    let head = encode_request_head(b"PUT", b"/", &headers);
    // Skip the request line; the header section is shared between the
    // encoder and the response parser.
    let section_start = head.windows(2).position(|w| w == b"\r\n").unwrap() + 2;
    let mut response_head = b"HTTP/1.1 200 OK\r\n".to_vec();
    response_head.extend_from_slice(&head[section_start..]);
    let (_, parsed) = parse_response_head(&response_head).unwrap();
    assert_eq!(parsed.len(), headers.len());
    for i in 0..headers.len() {
        assert_eq!(parsed.name_at(i), headers.name_at(i));
        assert_eq!(parsed.value_at(i), headers.value_at(i));
    }
}

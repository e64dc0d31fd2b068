use async_web_client::error::HttpError;
use async_web_client::headers::HeaderMap;
use async_web_client::uri::{extract_origin, parse_authority, resolve_origin, Uri};

fn headers_with_host(host: &[u8]) -> HeaderMap {
    let mut h = HeaderMap::new();
    h.append(b"Host".to_vec(), host.to_vec());
    h
}

#[test]
fn absolute_http_uri_gives_plaintext_origin_with_port() {
    let uri = Uri::parse(b"http://host:8080/x").unwrap();
    let headers = HeaderMap::new();
    let origin = resolve_origin(&uri, &headers).unwrap();
    assert!(!origin.tls);
    assert_eq!(origin.host, b"host".to_vec());
    assert_eq!(origin.port, 8080);
    assert_eq!(origin.named_port, Some(8080));
}

#[test]
fn relative_uri_with_host_header_defaults_to_tls_443() {
    let uri = Uri::parse(b"/x").unwrap();
    let headers = headers_with_host(b"a.com");
    let origin = resolve_origin(&uri, &headers).unwrap();
    assert!(origin.tls);
    assert_eq!(origin.host, b"a.com".to_vec());
    assert_eq!(origin.port, 443);
    assert_eq!(origin.named_port, None);
}

#[test]
fn relative_uri_without_host_fails_with_missing_host() {
    let uri = Uri::parse(b"/x").unwrap();
    let headers = HeaderMap::new();
    match resolve_origin(&uri, &headers) {
        Err(HttpError::MissingHost) => {}
        other => panic!("expected MissingHost, got {:?}", other.is_ok()),
    }
}

#[test]
fn https_and_unknown_schemes() {
    let uri = Uri::parse(b"https://secure.example/").unwrap();
    let origin = resolve_origin(&uri, &HeaderMap::new()).unwrap();
    assert!(origin.tls);
    assert_eq!(origin.port, 443);

    let uri = Uri::parse(b"ftp://files.example/x").unwrap();
    match resolve_origin(&uri, &HeaderMap::new()) {
        Err(HttpError::UnexpectedScheme(s)) => assert_eq!(s, b"ftp".to_vec()),
        _ => panic!("expected UnexpectedScheme"),
    }
}

#[test]
fn host_header_grammar_is_exact() {
    // Exactly host[:port].
    assert_eq!(
        parse_authority(b"a.com:8080"),
        Some((b"a.com".to_vec(), Some(8080)))
    );
    assert_eq!(parse_authority(b"a.com"), Some((b"a.com".to_vec(), None)));
    // Userinfo, empty hosts and bad ports carry residual characters.
    assert_eq!(parse_authority(b"user@a.com"), None);
    assert_eq!(parse_authority(b""), None);
    assert_eq!(parse_authority(b"a.com:99999"), None);
    assert_eq!(parse_authority(b"a.com:12:13"), None);
    // An empty port after the colon is tolerated and means no port.
    assert_eq!(parse_authority(b"a.com:"), Some((b"a.com".to_vec(), None)));
}

#[test]
fn extract_origin_prefers_uri_authority() {
    let uri = Uri::parse(b"http://u.example:81/p").unwrap();
    let headers = headers_with_host(b"other.example:9");
    let (scheme, host, port) = extract_origin(&uri, &headers).unwrap();
    assert_eq!(scheme, Some(b"http".to_vec()));
    assert_eq!(host, b"u.example".to_vec());
    assert_eq!(port, Some(81));
}

#[test]
fn uri_grammar_edges() {
    // Authority with no path or query at all.
    let u = Uri::parse(b"http://host").unwrap();
    assert_eq!(u.host, Some(b"host".to_vec()));
    assert_eq!(u.path_and_query, Vec::<u8>::new());
    // A query straight after the authority.
    let u = Uri::parse(b"http://host?q=1").unwrap();
    assert_eq!(u.host, Some(b"host".to_vec()));
    assert_eq!(u.path_and_query, b"?q=1".to_vec());
    // A colon without the double slash is no supported target.
    assert!(Uri::parse(b"mailto:user").is_none());
    assert!(Uri::parse(b"http:/x").is_none());
    // Schemeless authority-only targets are outside the subset.
    assert!(Uri::parse(b"a.com/x").is_none());
    // The empty target is relative with an empty path.
    let u = Uri::parse(b"").unwrap();
    assert!(u.host.is_none());
    assert_eq!(u.path_and_query, Vec::<u8>::new());
}

use async_web_client::headers::HeaderMap;
use async_web_client::ws::{
    check_upgrade_response, connect_request_builder, derive_accept_key, is_upgrade_request,
    precheck_upgrade_request, validate_upgrade_response, WsConnectError,
};

fn upgrade_response_headers(accept: &[u8]) -> HeaderMap {
    let mut h = HeaderMap::new();
    h.append(b"Connection".to_vec(), b"Upgrade".to_vec());
    h.append(b"Upgrade".to_vec(), b"websocket".to_vec());
    h.append(b"Sec-WebSocket-Accept".to_vec(), accept.to_vec());
    h
}

#[test]
fn accept_key_matches_the_protocol_example() {
    // The worked example from the WebSocket protocol specification.
    let key = b"dGhlIHNhbXBsZSBub25jZQ==";
    let accept = derive_accept_key(key);
    assert_eq!(accept, b"s3pPLMBiTxaQ9kYGzzhZRbK+xOo=".to_vec());
}

#[test]
fn request_without_upgrade_headers_is_rejected_before_io() {
    let headers = HeaderMap::new();
    assert!(!is_upgrade_request(b"GET", &headers));
    match precheck_upgrade_request(b"GET", &headers) {
        Err(WsConnectError::InvalidUpgradeRequest) => {}
        _ => panic!("expected InvalidUpgradeRequest"),
    }
}

#[test]
fn builder_request_carries_all_upgrade_markers() {
    let req = connect_request_builder(vec![7u8; 16]);
    assert!(is_upgrade_request(&req.method, &req.headers));
    assert!(precheck_upgrade_request(&req.method, &req.headers).is_ok());
    // A non-GET method is no upgrade request, whatever the headers.
    assert!(!is_upgrade_request(b"POST", &req.headers));
}

#[test]
fn conforming_response_is_accepted() {
    let req = connect_request_builder(vec![7u8; 16]);
    let key = req.headers.get(b"sec-websocket-key").unwrap().clone();
    let accept = derive_accept_key(&key);
    let resp = upgrade_response_headers(&accept);
    assert!(check_upgrade_response(&req.method, &req.headers, 101, &resp));
    assert!(validate_upgrade_response(&req.method, &req.headers, 101, &resp, Vec::new()).is_ok());
}

#[test]
fn mismatched_accept_key_or_status_is_refused() {
    let req = connect_request_builder(vec![7u8; 16]);
    let resp = upgrade_response_headers(b"bogus-accept-value+A=");
    assert!(!check_upgrade_response(&req.method, &req.headers, 101, &resp));

    let key = req.headers.get(b"sec-websocket-key").unwrap().clone();
    let accept = derive_accept_key(&key);
    let resp = upgrade_response_headers(&accept);
    assert!(!check_upgrade_response(&req.method, &req.headers, 200, &resp));

    match validate_upgrade_response(&req.method, &req.headers, 200, &resp, b"why".to_vec()) {
        Err(WsConnectError::InvalidUpgradeResponse { status, body, .. }) => {
            assert_eq!(status, 200);
            assert_eq!(body, b"why".to_vec());
        }
        _ => panic!("expected InvalidUpgradeResponse"),
    }
}

#[test]
fn connection_header_is_read_as_a_token_list() {
    let mut h = HeaderMap::new();
    h.append(b"Connection".to_vec(), b"keep-alive, Upgrade".to_vec());
    h.append(b"Upgrade".to_vec(), b"websocket".to_vec());
    h.append(b"Sec-WebSocket-Version".to_vec(), b"13".to_vec());
    h.append(b"Sec-WebSocket-Key".to_vec(), b"AQIDBAUGBwgJCgsMDQ4PEA==".to_vec());
    assert!(is_upgrade_request(b"GET", &h));

    let mut h2 = HeaderMap::new();
    // `xupgrade` is not the element `upgrade`.
    h2.append(b"Connection".to_vec(), b"xupgrade".to_vec());
    h2.append(b"Upgrade".to_vec(), b"websocket".to_vec());
    h2.append(b"Sec-WebSocket-Version".to_vec(), b"13".to_vec());
    h2.append(b"Sec-WebSocket-Key".to_vec(), b"AQIDBAUGBwgJCgsMDQ4PEA==".to_vec());
    assert!(!is_upgrade_request(b"GET", &h2));
}

#[test]
fn builder_key_is_the_base64_nonce() {
    let req = connect_request_builder((1u8..=16).collect());
    let key = req.headers.get(b"sec-websocket-key").unwrap().clone();
    // Sixteen nonce bytes become twenty-four base64 characters.
    assert_eq!(key.len(), 24);
    assert_eq!(
        key,
        async_web_client::base64::base64_encode(&(1u8..=16).collect::<Vec<u8>>())
    );
}

use async_web_client::ascii::{format_u64, parse_u64_digits};
use async_web_client::base64::base64_encode;

#[test]
fn base64_matches_known_vectors() {
    assert_eq!(base64_encode(b""), b"".to_vec());
    assert_eq!(base64_encode(b"f"), b"Zg==".to_vec());
    assert_eq!(base64_encode(b"fo"), b"Zm8=".to_vec());
    assert_eq!(base64_encode(b"foo"), b"Zm9v".to_vec());
    assert_eq!(base64_encode(b"foob"), b"Zm9vYg==".to_vec());
    assert_eq!(base64_encode(b"fooba"), b"Zm9vYmE=".to_vec());
    assert_eq!(base64_encode(b"foobar"), b"Zm9vYmFy".to_vec());
}

#[test]
fn decimal_formatting_and_parsing_agree() {
    assert_eq!(format_u64(0), b"0".to_vec());
    assert_eq!(format_u64(16384), b"16384".to_vec());
    assert_eq!(format_u64(u64::MAX), b"18446744073709551615".to_vec());
    assert_eq!(parse_u64_digits(b"16384"), Some(16384));
    assert_eq!(parse_u64_digits(b"18446744073709551615"), Some(u64::MAX));
    assert_eq!(parse_u64_digits(b"18446744073709551616"), None);
    assert_eq!(parse_u64_digits(b""), None);
    assert_eq!(parse_u64_digits(b"12a"), None);
    for n in [1u64, 9, 10, 99, 100, 12345] {
        assert_eq!(parse_u64_digits(&format_u64(n)), Some(n));
    }
}

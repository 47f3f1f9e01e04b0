use trx_client::base64::base64_encode;

#[test]
fn test_base64_encode_empty() {
    assert_eq!(base64_encode(b""), "");
}

#[test]
fn test_base64_encode_standard_vectors() {
    // RFC 4648 test vectors
    assert_eq!(base64_encode(b"f"), "Zg==");
    assert_eq!(base64_encode(b"fo"), "Zm8=");
    assert_eq!(base64_encode(b"foo"), "Zm9v");
    assert_eq!(base64_encode(b"foob"), "Zm9vYg==");
    assert_eq!(base64_encode(b"fooba"), "Zm9vYmE=");
    assert_eq!(base64_encode(b"foobar"), "Zm9vYmFy");
}


//! The base64url-no-pad codec: known vectors, key round trips, and the
//! rejections that make decoding strict.

use entangle::base64::{decode64, encode64};

#[test]
fn known_vectors() {
    assert_eq!(encode64(b""), b"".to_vec());
    assert_eq!(encode64(b"f"), b"Zg".to_vec());
    assert_eq!(encode64(b"fo"), b"Zm8".to_vec());
    assert_eq!(encode64(b"foo"), b"Zm9v".to_vec());
    assert_eq!(encode64(b"foob"), b"Zm9vYg".to_vec());
    assert_eq!(encode64(b"fooba"), b"Zm9vYmE".to_vec());
    assert_eq!(encode64(b"foobar"), b"Zm9vYmFy".to_vec());
    assert_eq!(encode64(&[0, 0, 0]), b"AAAA".to_vec());
    assert_eq!(encode64(&[255, 255, 255]), b"____".to_vec());
    assert_eq!(encode64(&[0xfb, 0xef]), b"--8".to_vec());
}

#[test]
fn key_round_trips() {
    let pk: Vec<u8> = (0..32u8).collect();
    let sk: Vec<u8> = (0..64u8).map(|i| i.wrapping_mul(37)).collect();
    assert_eq!(decode64(&encode64(&pk)).unwrap(), pk);
    assert_eq!(decode64(&encode64(&sk)).unwrap(), sk);
}

#[test]
fn encoded_key_shape() {
    let pk = [0xabu8; 32];
    let s = encode64(&pk);
    assert_eq!(s.len(), 43);
    assert!(s.iter().all(|c| c.is_ascii_alphanumeric() || *c == b'-' || *c == b'_'));
    assert_eq!(decode64(&s).unwrap(), pk.to_vec());
}

#[test]
fn decode_rejects_bad_input() {
    assert!(decode64(b"A").is_none());
    assert!(decode64(b"AAAAA").is_none());
    assert!(decode64(b"Zg=").is_none());
    assert!(decode64(b"Zm9v!").is_none());
    assert!(decode64(b"Zh").is_none());
    assert!(decode64(b"Zm9").is_none());
}

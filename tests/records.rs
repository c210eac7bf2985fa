use tutorial::address::path_for_digest;
use tutorial::error::Error;
use tutorial::gate::{decode_status, encode_status};
use tutorial::record::{
    decode_credential, decode_key_info, encode_credential, encode_key_info, Credential, KeyHandle,
    KeyInfo,
};

#[test]
fn path_is_hex_of_first_eight_digest_bytes() {
    let digest: Vec<u8> = (0u8..32).map(|i| i * 17).collect();
    let path = path_for_digest(&digest).unwrap();
    assert_eq!(path, b"0011223344556677".to_vec());
}

#[test]
fn path_uses_lowercase_digits() {
    let digest = vec![0xab, 0xcd, 0xef, 0x01, 0x9f, 0xf9, 0x00, 0xff, 0x12];
    assert_eq!(path_for_digest(&digest).unwrap(), b"abcdef019ff900ff".to_vec());
}

#[test]
fn path_is_deterministic() {
    let digest: Vec<u8> = (0u8..32).collect();
    let a = path_for_digest(&digest).unwrap();
    let b = path_for_digest(&digest).unwrap();
    assert_eq!(a, b);
    let mut other = digest.clone();
    other[20] = 0xee;
    assert_eq!(path_for_digest(&other).unwrap(), a);
}

#[test]
fn short_digest_is_backend_failure() {
    assert_eq!(path_for_digest(&[1, 2, 3]), Err(Error::BackendFailure));
}

#[test]
fn credential_layout_is_exact() {
    let c = Credential { label: b"ab".to_vec(), period_seconds: 30, key_handle: KeyHandle(0x0102) };
    let bytes = encode_credential(&c).unwrap();
    let mut expected = vec![2, 0, b'a', b'b', 30, 0, 0, 0, 0, 0, 0, 0, 0x02, 0x01];
    expected.extend_from_slice(&[0u8; 14]);
    assert_eq!(bytes, expected);
}

#[test]
fn credential_round_trip() {
    let c = Credential {
        label: b"alice@example".to_vec(),
        period_seconds: 30,
        key_handle: KeyHandle(u128::MAX - 5),
    };
    let bytes = encode_credential(&c).unwrap();
    assert_eq!(decode_credential(&bytes), Ok(c));
}

#[test]
fn credential_with_longest_label_round_trips() {
    let c = Credential { label: vec![7u8; 256], period_seconds: u64::MAX, key_handle: KeyHandle(9) };
    let bytes = encode_credential(&c).unwrap();
    assert_eq!(bytes.len(), 2 + 256 + 24);
    assert_eq!(decode_credential(&bytes), Ok(c));
}

#[test]
fn credential_with_long_label_overflows() {
    let c = Credential { label: vec![7u8; 257], period_seconds: 30, key_handle: KeyHandle(9) };
    assert_eq!(encode_credential(&c), Err(Error::EncodingOverflow));
}

#[test]
fn corrupt_credential_is_decoding_error() {
    let c = Credential { label: b"x".to_vec(), period_seconds: 30, key_handle: KeyHandle(1) };
    let bytes = encode_credential(&c).unwrap();
    assert_eq!(decode_credential(&bytes[..bytes.len() - 1]), Err(Error::DecodingError));
    let mut longer = bytes.clone();
    longer.push(0);
    assert_eq!(decode_credential(&longer), Err(Error::DecodingError));
    assert_eq!(decode_credential(&[]), Err(Error::DecodingError));
    let zero = Credential { label: b"x".to_vec(), period_seconds: 0, key_handle: KeyHandle(1) };
    let zero_bytes = encode_credential(&zero).unwrap();
    assert_eq!(decode_credential(&zero_bytes), Err(Error::DecodingError));
}

#[test]
fn key_info_round_trip() {
    let k = KeyInfo { label: b"k1".to_vec(), privkey: KeyHandle(77) };
    let bytes = encode_key_info(&k).unwrap();
    assert_eq!(bytes.len(), 2 + 2 + 16);
    assert_eq!(decode_key_info(&bytes), Ok(k));
    assert_eq!(decode_key_info(&bytes[..3]), Err(Error::DecodingError));
}

#[test]
fn key_info_with_long_label_overflows() {
    let k = KeyInfo { label: vec![1u8; 300], privkey: KeyHandle(77) };
    assert_eq!(encode_key_info(&k), Err(Error::EncodingOverflow));
}

#[test]
fn unlock_status_round_trip() {
    assert_eq!(encode_status(true), vec![1]);
    assert_eq!(encode_status(false), vec![0]);
    assert_eq!(decode_status(&encode_status(true)), Ok(true));
    assert_eq!(decode_status(&encode_status(false)), Ok(false));
    assert_eq!(decode_status(&[2]), Err(Error::DecodingError));
    assert_eq!(decode_status(&[1, 1]), Err(Error::DecodingError));
}

use tutorial::authenticator::{
    check_register, otp_from_signature, Authenticate, Otp, Register,
};
use tutorial::error::Error;
use tutorial::record::KeyHandle;

fn register(label: &str, secret: &str, period: u64) -> Register {
    Register { label: label.to_string(), base32_secret: secret.to_string(), period_seconds: period }
}

/// The store as the application keeps it: one record per address.
fn store_at(store: &mut Vec<(Vec<u8>, Vec<u8>)>, path: Vec<u8>, bytes: Vec<u8>) {
    store.retain(|(p, _)| *p != path);
    store.push((path, bytes));
}

fn read_at(store: &[(Vec<u8>, Vec<u8>)], path: &[u8]) -> Option<Vec<u8>> {
    store.iter().find(|(p, _)| p.as_slice() == path).map(|(_, b)| b.clone())
}

fn fake_digest(label: &str) -> Vec<u8> {
    let mut d = vec![0u8; 32];
    for (i, b) in label.bytes().enumerate() {
        d[i % 8] ^= b;
    }
    d
}

#[test]
fn scenario_a_sixteen_character_secret_is_too_short() {
    let r = register("alice@example", "JBSWY3DPEHPK3PXP", 30);
    assert_eq!(r.raw_secret(), Err(Error::InvalidSecretLength));
}

#[test]
fn scenario_a_register_then_authenticate_at_ninety() {
    let r = register("alice@example", "JBSWY3DPEHPK3PXPJBSWY3DPEHPK3PXP", 30);
    let secret = r.raw_secret().unwrap();
    let mut expected = b"Hello!".to_vec();
    expected.extend_from_slice(&[0xde, 0xad, 0xbe, 0xef]);
    expected.extend_from_slice(b"Hello!");
    expected.extend_from_slice(&[0xde, 0xad, 0xbe, 0xef]);
    assert_eq!(secret, expected);
    let record = r.credential_record(KeyHandle(5)).unwrap();
    let a = Authenticate { label: "alice@example".to_string(), timestamp: 90 };
    assert_eq!(a.load(Some(&record)), Ok((KeyHandle(5), 3)));
}

#[test]
fn scenario_b_unregistered_label_is_not_found() {
    let a = Authenticate { label: "nobody".to_string(), timestamp: 90 };
    assert_eq!(a.load(None), Err(Error::CredentialNotFound));
}

#[test]
fn corrupt_credential_fails_to_load() {
    let a = Authenticate { label: "x".to_string(), timestamp: 90 };
    assert_eq!(a.load(Some(&[1, 2, 3])), Err(Error::DecodingError));
}

#[test]
fn invalid_base32_is_rejected() {
    let r = register("alice", "not base32!", 30);
    assert_eq!(r.raw_secret(), Err(Error::InvalidSecretEncoding));
}

#[test]
fn zero_period_is_rejected() {
    let r = register("alice", "JBSWY3DPEHPK3PXPJBSWY3DPEHPK3PXP", 0);
    assert_eq!(r.raw_secret(), Err(Error::InvalidPeriod));
}

#[test]
fn long_label_is_rejected() {
    let label = "l".repeat(257);
    let r = register(&label, "JBSWY3DPEHPK3PXPJBSWY3DPEHPK3PXP", 30);
    assert_eq!(r.raw_secret(), Err(Error::EncodingOverflow));
    assert_eq!(r.credential_record(KeyHandle(1)), Err(Error::EncodingOverflow));
}

#[test]
fn check_register_on_decoded_values() {
    assert_eq!(check_register(b"a", None, 30), Err(Error::InvalidSecretEncoding));
    assert_eq!(check_register(b"a", Some(vec![0u8; 19]), 30), Err(Error::InvalidSecretLength));
    assert_eq!(check_register(b"a", Some(vec![0u8; 20]), 0), Err(Error::InvalidPeriod));
    assert_eq!(check_register(&[0u8; 257], Some(vec![0u8; 20]), 30), Err(Error::EncodingOverflow));
    assert_eq!(check_register(b"a", Some(vec![3u8; 20]), 30), Ok(vec![3u8; 20]));
}

#[test]
fn registering_twice_keeps_only_the_second() {
    let mut store = Vec::new();
    let path = tutorial::address::path_for_digest(&fake_digest("bob")).unwrap();
    let first = register("bob", "JBSWY3DPEHPK3PXPJBSWY3DPEHPK3PXP", 30);
    store_at(&mut store, path.clone(), first.credential_record(KeyHandle(1)).unwrap());
    let second = register("bob", "GEZDGNBVGY3TQOJQGEZDGNBVGY3TQOJQ", 60);
    store_at(&mut store, path.clone(), second.credential_record(KeyHandle(2)).unwrap());
    assert_eq!(store.len(), 1);
    let a = Authenticate { label: "bob".to_string(), timestamp: 120 };
    let stored = read_at(&store, &path);
    assert_eq!(a.load(stored.as_deref()), Ok((KeyHandle(2), 2)));
}

#[test]
fn counter_is_timestamp_over_period() {
    let r = register("c", "JBSWY3DPEHPK3PXPJBSWY3DPEHPK3PXP", 30);
    let record = r.credential_record(KeyHandle(8)).unwrap();
    for k in [0u64, 1, 2, 1000, 61_489_146] {
        let a = Authenticate { label: "c".to_string(), timestamp: k * 30 };
        assert_eq!(a.load(Some(&record)), Ok((KeyHandle(8), k)));
        if k > 0 {
            let b = Authenticate { label: "c".to_string(), timestamp: k * 30 - 1 };
            assert_eq!(b.load(Some(&record)), Ok((KeyHandle(8), k - 1)));
        }
    }
    let last = Authenticate { label: "c".to_string(), timestamp: u64::MAX };
    assert_eq!(last.load(Some(&record)), Ok((KeyHandle(8), u64::MAX / 30)));
}

#[test]
fn otp_is_little_endian_prefix_of_signature() {
    let sig = [0x01, 0x02, 0, 0, 0, 0, 0, 0, 0xff, 0xff];
    assert_eq!(otp_from_signature(&sig, true), Ok(Otp(0x0201)));
    assert_eq!(otp_from_signature(&[0xff; 8], true), Ok(Otp(u64::MAX)));
}

#[test]
fn otp_needs_presence() {
    assert_eq!(otp_from_signature(&[0; 20], false), Err(Error::UserPresenceTimeout));
}

#[test]
fn short_signature_is_backend_failure() {
    assert_eq!(otp_from_signature(&[0; 7], true), Err(Error::BackendFailure));
}

#[test]
fn otp_display_is_six_digits() {
    assert_eq!(Otp(42).to_string(), "000042");
    assert_eq!(Otp(755224).to_string(), "755224");
    assert_eq!(Otp(1_287_082).code(), 287_082);
    assert_eq!(Otp(1_287_082).to_string(), "287082");
    assert_eq!(Otp(0).to_string(), "000000");
}

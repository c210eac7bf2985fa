use tutorial::error::Error;
use tutorial::record::{KeyHandle, KeyInfo};
use tutorial::vault::KeyVault;

fn key(label: &str, h: u128) -> KeyInfo {
    KeyInfo { label: label.as_bytes().to_vec(), privkey: KeyHandle(h) }
}

fn labels(v: &KeyVault) -> Vec<(u64, Vec<u8>)> {
    v.list_keys().into_iter().map(|(i, k)| (i, k.label)).collect()
}

#[test]
fn duplicate_label_is_refused_and_vault_unchanged() {
    let mut v = KeyVault::new();
    assert_eq!(v.add_key(key("a", 1)), Ok(0));
    assert_eq!(v.add_key(key("b", 2)), Ok(1));
    let before = v.encode();
    assert_eq!(v.add_key(key("a", 3)), Err(Error::DuplicateLabel));
    assert_eq!(v.encode(), before);
    assert_eq!(v.find_label(b"a"), Some(0));
}

#[test]
fn ninth_key_is_refused_until_one_is_deleted() {
    let mut v = KeyVault::new();
    for i in 0..8u64 {
        assert_eq!(v.add_key(key(&format!("k{}", i), i as u128)), Ok(i));
    }
    assert_eq!(v.add_key(key("k8", 8)), Err(Error::VaultFull));
    assert_eq!(v.delete_key(3), Ok(()));
    assert_eq!(v.add_key(key("k8", 8)), Ok(3));
    assert_eq!(v.add_key(key("k9", 9)), Err(Error::VaultFull));
}

#[test]
fn deletion_leaves_slots_in_place() {
    let mut v = KeyVault::new();
    v.add_key(key("a", 1)).unwrap();
    v.add_key(key("b", 2)).unwrap();
    v.add_key(key("c", 3)).unwrap();
    assert_eq!(v.delete_key(1), Ok(()));
    assert_eq!(v.slot_count(), 3);
    assert_eq!(labels(&v), vec![(0, b"a".to_vec()), (2, b"c".to_vec())]);
    assert_eq!(v.delete_key(1), Err(Error::KeyNotFound));
    assert_eq!(v.delete_key(7), Err(Error::KeyNotFound));
}

#[test]
fn update_replaces_in_place() {
    let mut v = KeyVault::new();
    v.add_key(key("a", 1)).unwrap();
    v.add_key(key("b", 2)).unwrap();
    assert_eq!(v.update_key(key("b", 20)), Ok(1));
    let listed = v.list_keys();
    assert_eq!(listed[1], (1, key("b", 20)));
    assert_eq!(v.update_key(key("z", 5)), Err(Error::KeyNotFound));
}

#[test]
fn long_label_is_refused() {
    let mut v = KeyVault::new();
    let k = KeyInfo { label: vec![b'x'; 257], privkey: KeyHandle(1) };
    assert_eq!(v.add_key(k), Err(Error::EncodingOverflow));
    assert_eq!(v.slot_count(), 0);
}

#[test]
fn vault_round_trip() {
    let mut v = KeyVault::new();
    v.add_key(key("a", 1)).unwrap();
    v.add_key(key("bb", u128::MAX)).unwrap();
    v.add_key(key("ccc", 3)).unwrap();
    v.delete_key(1).unwrap();
    let bytes = v.encode();
    let back = KeyVault::decode(&bytes).unwrap();
    assert_eq!(back.encode(), bytes);
    assert_eq!(labels(&back), vec![(0, b"a".to_vec()), (2, b"ccc".to_vec())]);
    assert_eq!(back.slot_count(), 3);
}

#[test]
fn empty_vault_layout() {
    assert_eq!(KeyVault::new().encode(), vec![0]);
}

#[test]
fn vault_with_duplicate_labels_does_not_decode() {
    let mut bytes = vec![2u8];
    for h in [1u8, 2] {
        bytes.push(1);
        bytes.extend_from_slice(&[1, 0, b'a', h]);
        bytes.extend_from_slice(&[0u8; 15]);
    }
    assert_eq!(KeyVault::decode(&bytes).err(), Some(Error::DecodingError));
}

#[test]
fn corrupt_vault_does_not_decode() {
    assert_eq!(KeyVault::decode(&[]).err(), Some(Error::DecodingError));
    assert_eq!(KeyVault::decode(&[9]).err(), Some(Error::DecodingError));
    assert_eq!(KeyVault::decode(&[1, 2]).err(), Some(Error::DecodingError));
    assert_eq!(KeyVault::decode(&[1, 0, 0]).err(), Some(Error::DecodingError));
}

#[test]
fn missing_or_corrupt_vault_loads_empty() {
    assert_eq!(KeyVault::load(None).slot_count(), 0);
    assert_eq!(KeyVault::load(Some(&[5, 5, 5])).slot_count(), 0);
    let mut v = KeyVault::new();
    v.add_key(key("a", 1)).unwrap();
    let bytes = v.encode();
    assert_eq!(labels(&KeyVault::load(Some(&bytes))), vec![(0, b"a".to_vec())]);
}

use tutorial::cli::hex_string_to32_char_array;
use tutorial::error::Error;
use tutorial::gate::encode_status;
use tutorial::platform::UserInterface;
use tutorial::record::KeyHandle;
use tutorial::wireguard::{
    pubkey_array, DeleteKeyPair, EmptyError, GenerateKeyPair, GetAead, RegisterKeyPair,
    UpdateKeyPair, Wireguard,
};

fn unlocked() -> Wireguard {
    let status = encode_status(true);
    Wireguard::new(Some(&status), None)
}

fn generate(label: &str) -> GenerateKeyPair {
    GenerateKeyPair { label: label.to_string() }
}

#[test]
fn locked_gate_refuses_every_change() {
    let mut wg = Wireguard::new(None, None);
    assert!(!wg.gate.unlocked);
    assert_eq!(wg.check_generate(&generate("k")), Err(Error::DeviceLocked));
    assert_eq!(wg.generate_key_pair(&generate("k"), KeyHandle(1), &[1; 32]), Err(Error::DeviceLocked));
    let reg = RegisterKeyPair { privkey: [1; 32], pubkey: [2; 32], label: "r".to_string() };
    assert_eq!(wg.register_key_pair(&reg, KeyHandle(1)), Err(Error::DeviceLocked));
    let upd = UpdateKeyPair { privkey: [1; 32], pubkey: [2; 32], label: "r".to_string() };
    assert_eq!(wg.update_key_pair(&upd, KeyHandle(1)), Err(Error::DeviceLocked));
    assert_eq!(wg.delete_key_pair(&DeleteKeyPair { uid: 0 }), Err(Error::DeviceLocked));
    assert_eq!(wg.vault_record(), vec![0]);
}

#[test]
fn unlocked_gate_allows_changes() {
    let mut wg = unlocked();
    let reg = RegisterKeyPair { privkey: [1; 32], pubkey: [2; 32], label: "r".to_string() };
    let resp = wg.register_key_pair(&reg, KeyHandle(1)).unwrap();
    assert_eq!(resp.id, 0);
    assert_eq!(resp.label, "r");
    assert_eq!(resp.pubkey, [2; 32]);
    let upd = UpdateKeyPair { privkey: [3; 32], pubkey: [4; 32], label: "r".to_string() };
    assert_eq!(wg.update_key_pair(&upd, KeyHandle(9)).unwrap().id, 0);
    assert_eq!(wg.list_keys()[0].1.privkey, KeyHandle(9));
    assert_eq!(wg.delete_key_pair(&DeleteKeyPair { uid: 0 }), Ok(()));
    assert_eq!(wg.list_keys().len(), 0);
}

#[test]
fn unreadable_status_is_locked() {
    let wg = Wireguard::new(Some(&[7]), None);
    assert!(!wg.gate.unlocked);
    let wg = Wireguard::new(Some(&encode_status(false)), None);
    assert!(!wg.gate.unlocked);
}

#[test]
fn scenario_c_wrong_pin_stays_locked() {
    let mut wg = Wireguard::new(None, None);
    let secret = [9u8; 32];
    let wrong = [8u8; 32];
    assert_eq!(wg.unlock(&wrong, Some(&secret)), Err(Error::PinMismatch));
    assert!(!wg.gate.unlocked);
    assert_eq!(wg.generate_key_pair(&generate("k1"), KeyHandle(1), &[0; 32]), Err(Error::DeviceLocked));
}

#[test]
fn right_pin_unlocks() {
    let mut wg = Wireguard::new(None, None);
    let secret = [9u8; 32];
    assert_eq!(wg.unlock(&secret, Some(&secret)), Ok(vec![1]));
    assert!(wg.gate.unlocked);
    assert_eq!(wg.generate_key_pair(&generate("k1"), KeyHandle(1), &[0; 32]).unwrap().id, 0);
}

#[test]
fn unlock_without_secret_fails() {
    let mut wg = Wireguard::new(None, None);
    assert_eq!(wg.unlock(&[1, 2], None), Err(Error::PinMismatch));
    assert!(!wg.gate.unlocked);
}

#[test]
fn unlock_secret_rules() {
    let locked = Wireguard::new(None, None);
    assert_eq!(locked.set_unlock_secret(&[5, 6], None), Ok(vec![5, 6]));
    assert_eq!(locked.set_unlock_secret(&[5, 6], Some(&[1])), Err(Error::DeviceLocked));
    assert_eq!(unlocked().set_unlock_secret(&[5, 6], Some(&[1])), Ok(vec![5, 6]));
}

#[test]
fn scenario_d_ninth_generation_fails() {
    let mut wg = unlocked();
    for i in 0..8u64 {
        let g = generate(&format!("k{}", i + 1));
        assert_eq!(wg.check_generate(&g), Ok(i));
        let resp = wg.generate_key_pair(&g, KeyHandle(100 + i as u128), &[i as u8; 32]).unwrap();
        assert_eq!(resp.id, i);
        assert_eq!(resp.pubkey, [i as u8; 32]);
    }
    let ninth = generate("k9");
    assert_eq!(wg.check_generate(&ninth), Err(Error::VaultFull));
    assert_eq!(wg.generate_key_pair(&ninth, KeyHandle(200), &[0; 32]), Err(Error::VaultFull));
}

#[test]
fn generation_survives_storing_and_loading() {
    let status = encode_status(true);
    let mut wg = Wireguard::new(Some(&status), None);
    wg.generate_key_pair(&generate("k1"), KeyHandle(1), &[0; 32]).unwrap();
    let record = wg.vault_record();
    let mut again = Wireguard::new(Some(&status), Some(&record));
    assert_eq!(again.generate_key_pair(&generate("k1"), KeyHandle(2), &[0; 32]), Err(Error::DuplicateLabel));
    assert_eq!(again.generate_key_pair(&generate("k2"), KeyHandle(2), &[0; 32]).unwrap().id, 1);
}

#[test]
fn aead_key_by_identifier() {
    let mut wg = unlocked();
    wg.generate_key_pair(&generate("k1"), KeyHandle(41), &[0; 32]).unwrap();
    let q = GetAead { pubkey: [0; 32], c: [0; 32], h: [0; 32], key_id: 0 };
    assert_eq!(wg.aead_key(&q), Ok(KeyHandle(41)));
    let missing = GetAead { key_id: 5, ..q };
    assert_eq!(wg.aead_key(&missing), Err(Error::KeyNotFound));
    let locked = Wireguard::new(None, Some(&wg.vault_record()));
    assert_eq!(locked.aead_key(&q), Ok(KeyHandle(41)));
}

#[test]
fn public_key_is_padded_or_cut() {
    let mut short = [0u8; 32];
    short[0] = 1;
    short[1] = 2;
    assert_eq!(pubkey_array(&[1, 2]), short);
    assert_eq!(pubkey_array(&[7u8; 40]), [7u8; 32]);
}

#[test]
fn hex_argument_parses() {
    let mut expected = [0u8; 32];
    expected[0] = 0x0a;
    expected[1] = 0xBF;
    assert_eq!(hex_string_to32_char_array("0abf"), Ok(expected));
    assert_eq!(hex_string_to32_char_array("0ABF"), Ok(expected));
    assert_eq!(hex_string_to32_char_array(&"11".repeat(32)), Ok([0x11; 32]));
}

#[test]
fn bad_hex_argument_is_refused() {
    assert_eq!(hex_string_to32_char_array("abc"), Err(Error::InvalidHex));
    assert_eq!(hex_string_to32_char_array("zz"), Err(Error::InvalidHex));
    assert_eq!(hex_string_to32_char_array(&"11".repeat(33)), Err(Error::InvalidHex));
}

#[test]
fn empty_error_from_unit() {
    assert_eq!(EmptyError::from(()), EmptyError::Empty);
}

#[test]
fn user_interface_confirms_silently() {
    let ui = UserInterface::new();
    assert!(ui.check_user_presence());
    assert!(ui.uptime().as_secs() < 3600);
}

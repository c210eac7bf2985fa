//! The key vault's commands, guarded by the unlock gate.
//!
//! Each command works on a `Wireguard` value: the unlock gate and the vault as
//! loaded from the store at the start of the command. A command that changes
//! the vault leaves the new vault in it, to be encoded and stored whole; one
//! that opens the unlock gate returns the status record to store.
use vstd::prelude::*;
use vstd::utf8::encode_utf8;
use crate::error::Error;
use crate::gate::{UnlockGate, encode_status_spec, gated, loaded_status};
use crate::record::{KeyHandle, KeyInfo, KeyInfoModel, copy_range};
use crate::vault::{KeyVault, add_key_spec, admission_spec, delete_key_spec, encode_vault_spec, loaded_vault};
use crate::vault::{present_entries, update_key_spec};

verus! {

pub const SIZE_CK: usize = 32;

pub const SIZE_HS: usize = 32;

pub const SIZE_PUBKEY: usize = 32;

pub const SIZE_PRIVKEY: usize = 32;

/// Where the unlock status is stored.
pub const UNLOCK_STATUS_PATH: &'static str = "/wg/unlocked_status";

/// Where the vault is stored.
pub const KEY_STORE_PATH: &'static str = "/wg/key_store";

/// Where the digest of the unlock secret is stored.
pub const UNLOCK_SECRET_PATH: &'static str = "/wg/unlock_secret";

/// Asks for the AEAD value of a handshake: the peer's public key, the
/// chaining key `c`, the chaining hash `h`, and the local key to use.
#[derive(Clone, Debug, PartialEq, Eq)]
pub struct GetAead {
    pub pubkey: [u8; 32],
    pub c: [u8; 32],
    pub h: [u8; 32],
    pub key_id: u32,
}

/// Opens the unlock gate with a pin.
#[derive(Clone, Debug, PartialEq, Eq)]
pub struct Unlock {
    pub pin: String,
}

/// Stores a given key pair under a label.
#[derive(Clone, Debug, PartialEq, Eq)]
pub struct RegisterKeyPair {
    pub privkey: [u8; 32],
    pub pubkey: [u8; 32],
    pub label: String,
}

/// Replaces the key pair stored under a label.
#[derive(Clone, Debug, PartialEq, Eq)]
pub struct UpdateKeyPair {
    pub privkey: [u8; 32],
    pub pubkey: [u8; 32],
    pub label: String,
}

/// Deletes the key with an identifier.
#[derive(Clone, Debug, PartialEq, Eq)]
pub struct DeleteKeyPair {
    pub uid: u64,
}

/// Generates a key pair and stores it under a label.
#[derive(Clone, Debug, PartialEq, Eq)]
pub struct GenerateKeyPair {
    pub label: String,
}

/// Lists the stored keys.
#[derive(Clone, Debug, PartialEq, Eq)]
pub struct ListKeys {}

/// Sets the secret that opens the unlock gate.
#[derive(Clone, Debug, PartialEq, Eq)]
pub struct SetUnlockSecret {
    pub secret: String,
}

/// An AEAD value derived for a handshake.
#[derive(Clone, Debug, PartialEq, Eq)]
pub struct AEAD(pub [u8; 32]);

/// A stored key as reported to the caller.
#[derive(Clone, Debug, PartialEq, Eq)]
pub struct KeyResponse {
    pub id: u64,
    pub label: String,
    pub pubkey: [u8; 32],
}

/// The commands of the key vault.
#[derive(Clone, Debug, PartialEq, Eq)]
pub enum WgCommand {
    Unlock(Unlock),
    RegisterKeyPair(RegisterKeyPair),
    DeleteKeyPair(DeleteKeyPair),
    UpdateKeyPair(UpdateKeyPair),
    ListKeys(ListKeys),
    SetUnlockSecret(SetUnlockSecret),
    GenerateKeyPair(GenerateKeyPair),
    GetAead(GetAead),
}

/// The unit error of an operation that reports no detail.
#[derive(Clone, Copy, Debug, PartialEq, Eq, Structural)]
pub enum EmptyError {
    Empty,
}

impl From<()> for EmptyError {
    fn from(_e: ()) -> (r: EmptyError) {
        EmptyError::Empty
    }
}

impl vstd::std_specs::convert::FromSpecImpl<()> for EmptyError {
    open spec fn obeys_from_spec() -> bool {
        true
    }

    open spec fn from_spec(v: ()) -> EmptyError {
        EmptyError::Empty
    }
}

/// A public key as reported: the first 32 bytes of the serialized key, zeros
/// after a shorter one.
pub open spec fn pubkey_spec(b: Seq<u8>) -> Seq<u8> {
    Seq::new(32, |i: int| if i < b.len() { b[i] } else { 0u8 })
}

/// Copies a serialized public key into a 32-byte array.
pub fn pubkey_array(b: &[u8]) -> (r: [u8; 32])
    ensures
        r@ == pubkey_spec(b@),
{
    let mut out = [0u8; 32];
    let mut i: usize = 0;
    while i < 32 && i < b.len()
        invariant
            i <= 32,
            i <= b@.len(),
            out@.len() == 32,
            forall|j: int| 0 <= j < 32 ==> #[trigger] out@[j] == if j < i { b@[j] } else { 0u8 },
        decreases 32 - i,
    {
        out[i] = b[i];
        i = i + 1;
    }
    assert(out@ =~= pubkey_spec(b@));
    out
}

/// The response to an addition: the key's identifier, its label, its public key.
pub open spec fn response_matches(r: KeyResponse, id: u64, label: Seq<char>, pubkey: Seq<u8>) -> bool {
    r.id == id && r.label@ == label && r.pubkey@ == pubkey
}

/// The vault's state for one command.
pub struct Wireguard {
    pub gate: UnlockGate,
    pub vault: KeyVault,
}

pub open spec fn opt_view(o: Option<&[u8]>) -> Option<Seq<u8>> {
    match o {
        Some(b) => Some(b@),
        None => None,
    }
}

impl Wireguard {
    pub open spec fn wf(&self) -> bool {
        self.vault.wf()
    }

    /// The state that the stored status and vault records give. Without a
    /// readable status the unlock gate is locked; without a readable vault the vault
    /// is empty.
    pub fn new(status: Option<&[u8]>, keys: Option<&[u8]>) -> (r: Wireguard)
        ensures
            r.gate.unlocked == loaded_status(opt_view(status)),
            r.vault@ == loaded_vault(opt_view(keys)),
            r.wf(),
    {
        Wireguard { gate: UnlockGate::load(status), vault: KeyVault::load(keys) }
    }

    /// Opens the unlock gate when the pin's digest equals the stored secret's digest;
    /// the result is the status record to store. `PinMismatch` otherwise, and
    /// the unlock gate stays as it was.
    pub fn unlock(&mut self, pin_digest: &[u8], stored_secret: Option<&[u8]>) -> (r: Result<Vec<u8>, Error>)
        ensures
            final(self).vault == old(self).vault,
            final(self).wf() == old(self).wf(),
            match stored_secret {
                Some(s) if s@ == pin_digest@ => final(self).gate.unlocked && (r matches Ok(b) && b@
                    == encode_status_spec(true)),
                _ => final(self).gate == old(self).gate && r == Err::<Vec<u8>, Error>(
                    Error::PinMismatch,
                ),
            },
    {
        self.gate.unlock(pin_digest, stored_secret)
    }

    /// The record to store as the new unlock secret; replacing a stored
    /// secret needs the unlock gate open.
    pub fn set_unlock_secret(&self, secret_digest: &[u8], stored_secret: Option<&[u8]>) -> (r: Result<
        Vec<u8>,
        Error,
    >)
        ensures
            stored_secret is Some && !self.gate.unlocked ==> r == Err::<Vec<u8>, Error>(
                Error::DeviceLocked,
            ),
            stored_secret is None || self.gate.unlocked ==> (r matches Ok(b) && b@ == secret_digest@),
    {
        self.gate.set_unlock_secret(secret_digest, stored_secret)
    }

    /// The identifier a new key under the label would get: checked before the
    /// backend generates a key, so that no key is made for a command that
    /// would fail.
    pub fn check_generate(&self, parameters: &GenerateKeyPair) -> (r: Result<u64, Error>)
        ensures
            match gated(self.gate.unlocked, admission_spec(self.vault@, encode_utf8(parameters.label@))) {
                Ok(i) => r == Ok::<u64, Error>(i as u64),
                Err(e) => r == Err::<u64, Error>(e),
            },
    {
        if !self.gate.unlocked {
            return Err(Error::DeviceLocked);
        }
        self.vault.slot_for_label(parameters.label.as_str().as_bytes())
    }

    fn add_labelled(&mut self, label: &String, privkey: KeyHandle) -> (r: Result<u64, Error>)
        requires
            old(self).wf(),
        ensures
            final(self).wf(),
            final(self).gate == old(self).gate,
            match gated(
                old(self).gate.unlocked,
                add_key_spec(old(self).vault@, KeyInfoModel { label: encode_utf8(label@), privkey: privkey.0 }),
            ) {
                Ok((s, i)) => r == Ok::<u64, Error>(i as u64) && final(self).vault@ == s,
                Err(e) => r == Err::<u64, Error>(e) && final(self).vault@ == old(self).vault@,
            },
    {
        if !self.gate.unlocked {
            return Err(Error::DeviceLocked);
        }
        let bytes = label.as_str().as_bytes();
        let entry = KeyInfo { label: copy_range(bytes, 0, bytes.len()), privkey };
        assert(entry.label@ =~= encode_utf8(label@));
        self.vault.add_key(entry)
    }

    /// Stores a given key pair, whose private key the backend has imported,
    /// under a new label. `DeviceLocked` while the unlock gate is locked; otherwise
    /// as `KeyVault::add_key`.
    pub fn register_key_pair(&mut self, parameters: &RegisterKeyPair, privkey: KeyHandle) -> (r: Result<
        KeyResponse,
        Error,
    >)
        requires
            old(self).wf(),
        ensures
            final(self).wf(),
            final(self).gate == old(self).gate,
            match gated(
                old(self).gate.unlocked,
                add_key_spec(
                    old(self).vault@,
                    KeyInfoModel { label: encode_utf8(parameters.label@), privkey: privkey.0 },
                ),
            ) {
                Ok((s, i)) => (r matches Ok(resp) && response_matches(resp, i as u64, parameters.label@, parameters.pubkey@))
                    && final(self).vault@ == s,
                Err(e) => r == Err::<KeyResponse, Error>(e) && final(self).vault@ == old(self).vault@,
            },
    {
        match self.add_labelled(&parameters.label, privkey) {
            Ok(id) => Ok(KeyResponse { id, label: parameters.label.clone(), pubkey: parameters.pubkey }),
            Err(e) => Err(e),
        }
    }

    /// Stores a key pair that the backend generated under a new label; the
    /// response carries the serialized public key. `DeviceLocked` while the
    /// gate is locked; otherwise as `KeyVault::add_key`.
    pub fn generate_key_pair(
        &mut self,
        parameters: &GenerateKeyPair,
        privkey: KeyHandle,
        public_key: &[u8],
    ) -> (r: Result<KeyResponse, Error>)
        requires
            old(self).wf(),
        ensures
            final(self).wf(),
            final(self).gate == old(self).gate,
            match gated(
                old(self).gate.unlocked,
                add_key_spec(
                    old(self).vault@,
                    KeyInfoModel { label: encode_utf8(parameters.label@), privkey: privkey.0 },
                ),
            ) {
                Ok((s, i)) => (r matches Ok(resp) && response_matches(resp, i as u64, parameters.label@, pubkey_spec(public_key@)))
                    && final(self).vault@ == s,
                Err(e) => r == Err::<KeyResponse, Error>(e) && final(self).vault@ == old(self).vault@,
            },
    {
        match self.add_labelled(&parameters.label, privkey) {
            Ok(id) => Ok(
                KeyResponse { id, label: parameters.label.clone(), pubkey: pubkey_array(public_key) },
            ),
            Err(e) => Err(e),
        }
    }

    /// Replaces the key stored under a label with one the backend imported.
    /// `DeviceLocked` while the unlock gate is locked; `KeyNotFound` without a key
    /// under the label.
    pub fn update_key_pair(&mut self, parameters: &UpdateKeyPair, privkey: KeyHandle) -> (r: Result<
        KeyResponse,
        Error,
    >)
        requires
            old(self).wf(),
        ensures
            final(self).wf(),
            final(self).gate == old(self).gate,
            match gated(
                old(self).gate.unlocked,
                update_key_spec(
                    old(self).vault@,
                    KeyInfoModel { label: encode_utf8(parameters.label@), privkey: privkey.0 },
                ),
            ) {
                Ok((s, i)) => (r matches Ok(resp) && response_matches(resp, i as u64, parameters.label@, parameters.pubkey@))
                    && final(self).vault@ == s,
                Err(e) => r == Err::<KeyResponse, Error>(e) && final(self).vault@ == old(self).vault@,
            },
    {
        if !self.gate.unlocked {
            return Err(Error::DeviceLocked);
        }
        let bytes = parameters.label.as_str().as_bytes();
        let entry = KeyInfo { label: copy_range(bytes, 0, bytes.len()), privkey };
        assert(entry.label@ =~= encode_utf8(parameters.label@));
        match self.vault.update_key(entry) {
            Ok(id) => Ok(KeyResponse { id, label: parameters.label.clone(), pubkey: parameters.pubkey }),
            Err(e) => Err(e),
        }
    }

    /// Deletes the key with the identifier; its slot stays, empty.
    /// `DeviceLocked` while the unlock gate is locked; `KeyNotFound` without a key
    /// under the identifier.
    pub fn delete_key_pair(&mut self, parameters: &DeleteKeyPair) -> (r: Result<(), Error>)
        requires
            old(self).wf(),
        ensures
            final(self).wf(),
            final(self).gate == old(self).gate,
            match gated(old(self).gate.unlocked, delete_key_spec(old(self).vault@, parameters.uid)) {
                Ok(s) => r is Ok && final(self).vault@ == s,
                Err(e) => r == Err::<(), Error>(e) && final(self).vault@ == old(self).vault@,
            },
    {
        if !self.gate.unlocked {
            return Err(Error::DeviceLocked);
        }
        self.vault.delete_key(parameters.uid)
    }

    /// The stored keys with their identifiers, in slot order. Listing needs
    /// no unlocking.
    pub fn list_keys(&self) -> (r: Vec<(u64, KeyInfo)>)
        ensures
            r@.len() == present_entries(self.vault@).len(),
            forall|i: int|
                0 <= i < r@.len() ==> (#[trigger] r@[i]).0 == present_entries(self.vault@)[i].0
                    && r@[i].1@ == present_entries(self.vault@)[i].1,
    {
        self.vault.list_keys()
    }

    /// The private key that an AEAD derivation uses. Deriving needs no
    /// unlocking; `KeyNotFound` without a key under the identifier.
    pub fn aead_key(&self, parameters: &GetAead) -> (r: Result<KeyHandle, Error>)
        ensures
            ((parameters.key_id as int) < self.vault@.len() && self.vault@[parameters.key_id as int] is Some)
                ==> r == Ok::<KeyHandle, Error>(KeyHandle(self.vault@[parameters.key_id as int]->Some_0.privkey)),
            !((parameters.key_id as int) < self.vault@.len() && self.vault@[parameters.key_id as int] is Some)
                ==> r == Err::<KeyHandle, Error>(Error::KeyNotFound),
    {
        let n = self.vault.slot_count();
        if parameters.key_id as usize >= n {
            return Err(Error::KeyNotFound);
        }
        match self.vault.slot(parameters.key_id as usize) {
            Some(k) => Ok(k.privkey),
            None => Err(Error::KeyNotFound),
        }
    }

    /// The vault record to store after a change.
    pub fn vault_record(&self) -> (r: Vec<u8>)
        requires
            self.wf(),
        ensures
            r@ == encode_vault_spec(self.vault@),
    {
        self.vault.encode()
    }
}

/// Every operation that changes the vault fails with `DeviceLocked` while the
/// gate is locked, and once it is unlocked gives exactly what the vault
/// operation itself gives.
pub proof fn lemma_gate(unlocked: bool, s: Seq<Option<KeyInfoModel>>, k: KeyInfoModel, id: u64)
    ensures
        !unlocked ==> gated(unlocked, add_key_spec(s, k)) is Err && gated(unlocked, add_key_spec(s, k))->Err_0 == Error::DeviceLocked,
        !unlocked ==> gated(unlocked, update_key_spec(s, k)) is Err && gated(unlocked, update_key_spec(s, k))->Err_0 == Error::DeviceLocked,
        !unlocked ==> gated(unlocked, delete_key_spec(s, id)) is Err && gated(unlocked, delete_key_spec(s, id))->Err_0 == Error::DeviceLocked,
        unlocked ==> gated(unlocked, add_key_spec(s, k)) == add_key_spec(s, k),
        unlocked ==> gated(unlocked, update_key_spec(s, k)) == update_key_spec(s, k),
        unlocked ==> gated(unlocked, delete_key_spec(s, id)) == delete_key_spec(s, id),
{
}

} // verus!

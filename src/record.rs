//! The records that the store keeps, and their byte layout.
//!
//! A label is written as its length in two little-endian bytes followed by
//! its bytes; integers are fixed-width little-endian. A key record is a label
//! and a 16-byte key handle; a credential is a label, an 8-byte period and a
//! 16-byte key handle.
use vstd::prelude::*;
use crate::error::Error;
use crate::le::{le_bytes, le_value, pow256, push_le, read_le};
use crate::le::{lemma_le_bytes_len, lemma_le_round_trip, lemma_pow256_values};

verus! {

/// The longest label a record can hold, in bytes.
pub const MAX_LABEL_LEN: usize = 256;

/// An opaque reference to key material held by the backend.
#[derive(Clone, Copy, Debug, PartialEq, Eq, Structural)]
pub struct KeyHandle(pub u128);

/// A key record of the vault: a label and the handle of its private key.
#[derive(Clone, Debug, PartialEq, Eq)]
pub struct KeyInfo {
    pub label: Vec<u8>,
    pub privkey: KeyHandle,
}

/// What a key record means.
pub struct KeyInfoModel {
    pub label: Seq<u8>,
    pub privkey: u128,
}

impl View for KeyInfo {
    type V = KeyInfoModel;

    open spec fn view(&self) -> KeyInfoModel {
        KeyInfoModel { label: self.label@, privkey: self.privkey.0 }
    }
}

impl KeyInfoModel {
    pub open spec fn wf(self) -> bool {
        self.label.len() <= MAX_LABEL_LEN
    }
}

/// The metadata of a TOTP secret held by the backend.
#[derive(Clone, Debug, PartialEq, Eq)]
pub struct Credential {
    pub label: Vec<u8>,
    pub period_seconds: u64,
    pub key_handle: KeyHandle,
}

/// What a credential means.
pub struct CredentialModel {
    pub label: Seq<u8>,
    pub period_seconds: u64,
    pub key_handle: u128,
}

impl View for Credential {
    type V = CredentialModel;

    open spec fn view(&self) -> CredentialModel {
        CredentialModel {
            label: self.label@,
            period_seconds: self.period_seconds,
            key_handle: self.key_handle.0,
        }
    }
}

impl CredentialModel {
    pub open spec fn wf(self) -> bool {
        self.label.len() <= MAX_LABEL_LEN && self.period_seconds > 0
    }
}

/// A label as written: two length bytes, then the label.
pub open spec fn label_field(l: Seq<u8>) -> Seq<u8> {
    le_bytes(l.len(), 2) + l
}

pub open spec fn encode_key_info_spec(k: KeyInfoModel) -> Seq<u8> {
    label_field(k.label) + le_bytes(k.privkey as nat, 16)
}

pub open spec fn encode_credential_spec(c: CredentialModel) -> Seq<u8> {
    label_field(c.label) + le_bytes(c.period_seconds as nat, 8) + le_bytes(c.key_handle as nat, 16)
}

/// Reads a label at the start of `s`: the label and the number of bytes it took.
pub open spec fn parse_label(s: Seq<u8>) -> Option<(Seq<u8>, int)> {
    if s.len() < 2 {
        None
    } else {
        let n = le_value(s.subrange(0, 2)) as int;
        if n <= MAX_LABEL_LEN && 2 + n <= s.len() {
            Some((s.subrange(2, 2 + n), 2 + n))
        } else {
            None
        }
    }
}

/// Reads a key record at the start of `s`: the record and the number of bytes it took.
pub open spec fn parse_key_info(s: Seq<u8>) -> Option<(KeyInfoModel, int)> {
    match parse_label(s) {
        Some((l, m)) => if m + 16 <= s.len() {
            Some((KeyInfoModel { label: l, privkey: le_value(s.subrange(m, m + 16)) as u128 }, m + 16))
        } else {
            None
        },
        None => None,
    }
}

/// The key record that `s` holds, with no byte left over.
pub open spec fn decode_key_info_spec(s: Seq<u8>) -> Option<KeyInfoModel> {
    match parse_key_info(s) {
        Some((k, m)) => if m == s.len() {
            Some(k)
        } else {
            None
        },
        None => None,
    }
}

/// The credential that `s` holds, with no byte left over and a period above zero.
pub open spec fn decode_credential_spec(s: Seq<u8>) -> Option<CredentialModel> {
    match parse_label(s) {
        Some((l, m)) => if m + 24 == s.len() && le_value(s.subrange(m, m + 8)) > 0 {
            Some(
                CredentialModel {
                    label: l,
                    period_seconds: le_value(s.subrange(m, m + 8)) as u64,
                    key_handle: le_value(s.subrange(m + 8, m + 24)) as u128,
                },
            )
        } else {
            None
        },
        None => None,
    }
}

proof fn lemma_u128_fits(x: u128, n: nat)
    requires
        n == 16,
    ensures
        (x as nat) < pow256(n),
{
    lemma_pow256_values();
}

proof fn lemma_u64_fits(x: u64, n: nat)
    requires
        n == 8,
    ensures
        (x as nat) < pow256(n),
{
    lemma_pow256_values();
}

/// A label written and then read back, whatever follows it.
pub proof fn lemma_parse_label(l: Seq<u8>, rest: Seq<u8>)
    requires
        l.len() <= MAX_LABEL_LEN,
    ensures
        label_field(l).len() == 2 + l.len(),
        parse_label(label_field(l) + rest) == Some((l, 2 + l.len() as int)),
{
    let s = label_field(l) + rest;
    lemma_pow256_values();
    lemma_le_bytes_len(l.len(), 2);
    lemma_le_round_trip(l.len(), 2);
    assert(s.subrange(0, 2) =~= le_bytes(l.len(), 2));
    assert(s.subrange(2, 2 + l.len() as int) =~= l);
}

/// A key record written and then read back, whatever follows it.
pub proof fn lemma_parse_key_info(k: KeyInfoModel, rest: Seq<u8>)
    requires
        k.wf(),
    ensures
        encode_key_info_spec(k).len() == 18 + k.label.len(),
        parse_key_info(encode_key_info_spec(k) + rest) == Some((k, 18 + k.label.len() as int)),
{
    let h = le_bytes(k.privkey as nat, 16);
    let s = encode_key_info_spec(k) + rest;
    lemma_le_bytes_len(k.privkey as nat, 16);
    lemma_u128_fits(k.privkey, 16);
    lemma_le_round_trip(k.privkey as nat, 16);
    assert(s =~= label_field(k.label) + (h + rest));
    lemma_parse_label(k.label, h + rest);
    let m = 2 + k.label.len() as int;
    assert(s.subrange(m, m + 16) =~= h);
}

/// Decoding an encoded key record gives the record back.
pub proof fn lemma_key_info_round_trip(k: KeyInfoModel)
    requires
        k.wf(),
    ensures
        decode_key_info_spec(encode_key_info_spec(k)) == Some(k),
{
    lemma_parse_key_info(k, Seq::empty());
    assert(encode_key_info_spec(k) + Seq::<u8>::empty() =~= encode_key_info_spec(k));
}

/// Decoding an encoded credential gives the credential back.
pub proof fn lemma_credential_round_trip(c: CredentialModel)
    requires
        c.wf(),
    ensures
        decode_credential_spec(encode_credential_spec(c)) == Some(c),
{
    let p = le_bytes(c.period_seconds as nat, 8);
    let h = le_bytes(c.key_handle as nat, 16);
    let s = encode_credential_spec(c);
    lemma_le_bytes_len(c.period_seconds as nat, 8);
    lemma_le_bytes_len(c.key_handle as nat, 16);
    lemma_u64_fits(c.period_seconds, 8);
    lemma_u128_fits(c.key_handle, 16);
    lemma_le_round_trip(c.period_seconds as nat, 8);
    lemma_le_round_trip(c.key_handle as nat, 16);
    assert(s =~= label_field(c.label) + (p + h));
    lemma_parse_label(c.label, p + h);
    let m = 2 + c.label.len() as int;
    assert(s.subrange(m, m + 8) =~= p);
    assert(s.subrange(m + 8, m + 24) =~= h);
}

/// Copies `s[start..end]` into a new vector.
pub fn copy_range(s: &[u8], start: usize, end: usize) -> (r: Vec<u8>)
    requires
        start <= end <= s@.len(),
    ensures
        r@ == s@.subrange(start as int, end as int),
{
    let mut out: Vec<u8> = Vec::new();
    let mut i: usize = start;
    while i < end
        invariant
            start <= i <= end <= s@.len(),
            out@ == s@.subrange(start as int, i as int),
        decreases end - i,
    {
        out.push(s[i]);
        i = i + 1;
        assert(out@ =~= s@.subrange(start as int, i as int));
    }
    out
}

/// Appends the bytes of `b`.
pub fn push_bytes(out: &mut Vec<u8>, b: &[u8])
    ensures
        final(out)@ == old(out)@ + b@,
{
    let mut i: usize = 0;
    while i < b.len()
        invariant
            i <= b@.len(),
            out@ == old(out)@ + b@.subrange(0, i as int),
        decreases b@.len() - i,
    {
        out.push(b[i]);
        i = i + 1;
        assert(out@ =~= old(out)@ + b@.subrange(0, i as int));
    }
    assert(b@.subrange(0, b@.len() as int) =~= b@);
}

/// Appends a label field.
pub fn push_label(out: &mut Vec<u8>, l: &[u8])
    requires
        l@.len() <= MAX_LABEL_LEN,
    ensures
        final(out)@ == old(out)@ + label_field(l@),
{
    proof {
        lemma_pow256_values();
    }
    push_le(out, l.len() as u128, 2);
    push_bytes(out, l);
    assert(final(out)@ =~= old(out)@ + label_field(l@));
}

/// Reads a label field of `s` at `pos`: the label and the position after it.
pub fn read_label(s: &[u8], pos: usize) -> (r: Option<(Vec<u8>, usize)>)
    requires
        pos <= s@.len(),
    ensures
        match parse_label(s@.subrange(pos as int, s@.len() as int)) {
            None => r is None,
            Some((l, m)) => r matches Some((v, e)) && v@ == l && e == pos + m,
        },
{
    let ghost t = s@.subrange(pos as int, s@.len() as int);
    let len = s.len();
    if len - pos < 2 {
        return None;
    }
    let n = read_le(s, pos, 2);
    assert(s@.subrange(pos as int, pos + 2) =~= t.subrange(0, 2));
    if n > MAX_LABEL_LEN as u128 || (n as usize) > len - pos - 2 {
        return None;
    }
    let n = n as usize;
    let label = copy_range(s, pos + 2, pos + 2 + n);
    assert(label@ =~= t.subrange(2, 2 + n));
    Some((label, pos + 2 + n))
}

/// Reads a key record of `s` at `pos`: the record and the position after it.
pub fn read_key_info(s: &[u8], pos: usize) -> (r: Option<(KeyInfo, usize)>)
    requires
        pos <= s@.len(),
    ensures
        match parse_key_info(s@.subrange(pos as int, s@.len() as int)) {
            None => r is None,
            Some((k, m)) => r matches Some((v, e)) && v@ == k && e == pos + m,
        },
{
    let ghost t = s@.subrange(pos as int, s@.len() as int);
    match read_label(s, pos) {
        None => None,
        Some((label, e)) => {
            if s.len() - e < 16 {
                return None;
            }
            let h = read_le(s, e, 16);
            assert(s@.subrange(e as int, e + 16) =~= t.subrange(e - pos, e - pos + 16));
            Some((KeyInfo { label, privkey: KeyHandle(h) }, e + 16))
        },
    }
}

/// Appends the encoding of a key record.
pub fn push_key_info(out: &mut Vec<u8>, k: &KeyInfo)
    requires
        k@.wf(),
    ensures
        final(out)@ == old(out)@ + encode_key_info_spec(k@),
{
    push_label(out, k.label.as_slice());
    proof {
        lemma_u128_fits(k.privkey.0, 16);
    }
    push_le(out, k.privkey.0, 16);
    assert(final(out)@ =~= old(out)@ + encode_key_info_spec(k@));
}

/// The bytes of a credential. It fails with `EncodingOverflow` exactly when
/// the label is longer than a record can hold.
pub fn encode_credential(c: &Credential) -> (r: Result<Vec<u8>, Error>)
    ensures
        c@.label.len() > MAX_LABEL_LEN ==> r == Err::<Vec<u8>, Error>(Error::EncodingOverflow),
        c@.label.len() <= MAX_LABEL_LEN ==> (r matches Ok(b) && b@ == encode_credential_spec(c@)),
{
    if c.label.len() > MAX_LABEL_LEN {
        return Err(Error::EncodingOverflow);
    }
    let mut out: Vec<u8> = Vec::new();
    push_label(&mut out, c.label.as_slice());
    proof {
        lemma_u64_fits(c.period_seconds, 8);
        lemma_u128_fits(c.key_handle.0, 16);
    }
    push_le(&mut out, c.period_seconds as u128, 8);
    push_le(&mut out, c.key_handle.0, 16);
    assert(out@ =~= encode_credential_spec(c@));
    Ok(out)
}

/// The credential that stored bytes hold; `DecodingError` when they hold none.
pub fn decode_credential(s: &[u8]) -> (r: Result<Credential, Error>)
    ensures
        match decode_credential_spec(s@) {
            None => r == Err::<Credential, Error>(Error::DecodingError),
            Some(c) => r matches Ok(v) && v@ == c,
        },
        r matches Ok(v) ==> v@.wf(),
{
    assert(s@.subrange(0, s@.len() as int) =~= s@);
    match read_label(s, 0) {
        None => Err(Error::DecodingError),
        Some((label, e)) => {
            if s.len() - e != 24 {
                return Err(Error::DecodingError);
            }
            let period = read_le(s, e, 8);
            let handle = read_le(s, e + 8, 16);
            if period == 0 {
                return Err(Error::DecodingError);
            }
            proof {
                crate::le::lemma_le_value_bound(s@.subrange(e as int, e + 8));
                lemma_pow256_values();
            }
            Ok(Credential { label, period_seconds: period as u64, key_handle: KeyHandle(handle) })
        },
    }
}

/// The bytes of a key record. It fails with `EncodingOverflow` exactly when
/// the label is longer than a record can hold.
pub fn encode_key_info(k: &KeyInfo) -> (r: Result<Vec<u8>, Error>)
    ensures
        k@.label.len() > MAX_LABEL_LEN ==> r == Err::<Vec<u8>, Error>(Error::EncodingOverflow),
        k@.label.len() <= MAX_LABEL_LEN ==> (r matches Ok(b) && b@ == encode_key_info_spec(k@)),
{
    if k.label.len() > MAX_LABEL_LEN {
        return Err(Error::EncodingOverflow);
    }
    let mut out: Vec<u8> = Vec::new();
    push_key_info(&mut out, k);
    assert(out@ =~= encode_key_info_spec(k@));
    Ok(out)
}

/// The key record that stored bytes hold; `DecodingError` when they hold none.
pub fn decode_key_info(s: &[u8]) -> (r: Result<KeyInfo, Error>)
    ensures
        match decode_key_info_spec(s@) {
            None => r == Err::<KeyInfo, Error>(Error::DecodingError),
            Some(k) => r matches Ok(v) && v@ == k,
        },
{
    assert(s@.subrange(0, s@.len() as int) =~= s@);
    match read_key_info(s, 0) {
        None => Err(Error::DecodingError),
        Some((k, e)) => if e == s.len() {
            Ok(k)
        } else {
            Err(Error::DecodingError)
        },
    }
}

} // verus!

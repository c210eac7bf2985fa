//! The credential store: one TOTP credential per label.
//!
//! Registering decodes the secret, which the backend then imports as a key;
//! the credential that names that key is stored at the address of its label,
//! replacing whatever was there. Authenticating reads the credential back,
//! derives the time step, and turns the backend's signature into a password.
use vstd::prelude::*;
use vstd::utf8::encode_utf8;
use crate::address::hex_path;
use crate::error::Error;
use crate::le::{le_value, read_le, lemma_le_value_bound, lemma_pow256_values};
use crate::record::{Credential, CredentialModel, KeyHandle, MAX_LABEL_LEN};
use crate::record::{decode_credential, decode_credential_spec, encode_credential, encode_credential_spec};
use crate::record::{copy_range, lemma_credential_round_trip};

verus! {

/// The length of a TOTP secret, in bytes.
pub const SECRET_LEN: usize = 20;

/// How long the backend waits for the user to confirm presence, in milliseconds.
pub const PRESENCE_TIMEOUT_MS: u32 = 5_000;

/// Registers a TOTP secret under a label.
#[derive(Clone, Debug, PartialEq, Eq)]
pub struct Register {
    /// Label for the credential, e.g. `alice@example`.
    pub label: String,
    /// The secret in base32.
    pub base32_secret: String,
    /// Seconds after which the counter of the password advances.
    pub period_seconds: u64,
}

/// Asks for the password of a registered credential at a point in time.
#[derive(Clone, Debug, PartialEq, Eq)]
pub struct Authenticate {
    /// Label of the credential.
    pub label: String,
    /// Seconds since the UNIX epoch.
    pub timestamp: u64,
}

/// The commands of the credential store.
#[derive(Clone, Debug, PartialEq, Eq)]
pub enum Command {
    Register(Register),
    Authenticate(Authenticate),
}

/// A one-time password.
#[derive(Clone, Copy, Debug, PartialEq, Eq, Structural)]
pub struct Otp(pub u64);

/// What `data_encoding::BASE32` decodes a string to, if it decodes.
pub uninterp spec fn base32_decoded(s: Seq<u8>) -> Option<Seq<u8>>;

/// Relies on data_encoding::BASE32.decode: standard base32 with padding; the
/// result depends on the input alone.
#[verifier::external_body]
fn base32_decode(s: &[u8]) -> (r: Option<Vec<u8>>)
    ensures
        r is Some <==> base32_decoded(s@) is Some,
        r is Some ==> base32_decoded(s@) == Some(r.unwrap()@),
{
    data_encoding::BASE32.decode(s).ok()
}

/// The raw secret that a decoding gives: `InvalidSecretEncoding` when there
/// is none, `InvalidSecretLength` when it is not twenty bytes long.
pub open spec fn secret_spec(decoded: Option<Seq<u8>>) -> Result<Seq<u8>, Error> {
    match decoded {
        None => Err(Error::InvalidSecretEncoding),
        Some(v) => if v.len() == SECRET_LEN {
            Ok(v)
        } else {
            Err(Error::InvalidSecretLength)
        },
    }
}

/// What registration checks before any key is made: the secret, then a
/// period above zero (`InvalidPeriod`), then a label that a record can hold
/// (`EncodingOverflow`). The result is the raw secret.
pub open spec fn register_check_spec(label: Seq<u8>, decoded: Option<Seq<u8>>, period: u64) -> Result<
    Seq<u8>,
    Error,
> {
    match secret_spec(decoded) {
        Err(e) => Err(e),
        Ok(k) => if period == 0 {
            Err(Error::InvalidPeriod)
        } else if label.len() > MAX_LABEL_LEN {
            Err(Error::EncodingOverflow)
        } else {
            Ok(k)
        },
    }
}

pub open spec fn bytes_result(r: Result<Vec<u8>, Error>) -> Result<Seq<u8>, Error> {
    match r {
        Ok(v) => Ok(v@),
        Err(e) => Err(e),
    }
}

/// The checks of registration on a label, a decoded secret and a period.
pub fn check_register(label: &[u8], decoded: Option<Vec<u8>>, period_seconds: u64) -> (r: Result<
    Vec<u8>,
    Error,
>)
    ensures
        bytes_result(r) == register_check_spec(
            label@,
            match decoded {
                Some(v) => Some(v@),
                None => None,
            },
            period_seconds,
        ),
{
    match decoded {
        None => Err(Error::InvalidSecretEncoding),
        Some(v) => {
            if v.len() != SECRET_LEN {
                Err(Error::InvalidSecretLength)
            } else if period_seconds == 0 {
                Err(Error::InvalidPeriod)
            } else if label.len() > MAX_LABEL_LEN {
                Err(Error::EncodingOverflow)
            } else {
                Ok(v)
            }
        },
    }
}

/// The credential that a registration stores, once the backend has made its key.
pub open spec fn registered_credential(label: Seq<u8>, period: u64, key_handle: u128) -> CredentialModel {
    CredentialModel { label, period_seconds: period, key_handle }
}

impl Register {
    /// The raw TOTP secret to hand to the backend, once every check of
    /// registration has passed.
    pub fn raw_secret(&self) -> (r: Result<Vec<u8>, Error>)
        ensures
            bytes_result(r) == register_check_spec(
                encode_utf8(self.label@),
                base32_decoded(encode_utf8(self.base32_secret@)),
                self.period_seconds,
            ),
    {
        let decoded = base32_decode(self.base32_secret.as_str().as_bytes());
        check_register(self.label.as_str().as_bytes(), decoded, self.period_seconds)
    }

    /// The credential record to store at the label's address, for the key the
    /// backend made. `EncodingOverflow` when the label does not fit a record.
    pub fn credential_record(&self, key_handle: KeyHandle) -> (r: Result<Vec<u8>, Error>)
        ensures
            encode_utf8(self.label@).len() > MAX_LABEL_LEN ==> r == Err::<Vec<u8>, Error>(
                Error::EncodingOverflow,
            ),
            encode_utf8(self.label@).len() <= MAX_LABEL_LEN ==> (r matches Ok(b) && b@
                == encode_credential_spec(
                registered_credential(encode_utf8(self.label@), self.period_seconds, key_handle.0),
            )),
    {
        let bytes = self.label.as_str().as_bytes();
        let credential = Credential {
            label: copy_range(bytes, 0, bytes.len()),
            period_seconds: self.period_seconds,
            key_handle,
        };
        assert(credential.label@ =~= encode_utf8(self.label@));
        encode_credential(&credential)
    }
}

/// What authentication reads from the store: `CredentialNotFound` without a
/// record, `DecodingError` for one that is not a credential, and otherwise the
/// credential's key handle and the time step `timestamp / period`.
pub open spec fn load_spec(stored: Option<Seq<u8>>, timestamp: u64) -> Result<(u128, u64), Error> {
    match stored {
        None => Err(Error::CredentialNotFound),
        Some(b) => match decode_credential_spec(b) {
            None => Err(Error::DecodingError),
            Some(c) => Ok((c.key_handle, (timestamp / c.period_seconds) as u64)),
        },
    }
}

impl Authenticate {
    /// The key to sign with and the counter to sign, from the record stored
    /// at the label's address.
    pub fn load(&self, stored: Option<&[u8]>) -> (r: Result<(KeyHandle, u64), Error>)
        ensures
            match load_spec(
                match stored {
                    Some(b) => Some(b@),
                    None => None,
                },
                self.timestamp,
            ) {
                Ok((h, counter)) => r == Ok::<(KeyHandle, u64), Error>((KeyHandle(h), counter)),
                Err(e) => r == Err::<(KeyHandle, u64), Error>(e),
            },
    {
        match stored {
            None => Err(Error::CredentialNotFound),
            Some(b) => match decode_credential(b) {
                Err(e) => Err(e),
                Ok(c) => {
                    let counter = self.timestamp / c.period_seconds;
                    Ok((c.key_handle, counter))
                },
            },
        }
    }
}

/// The password of a signature: its first eight bytes as a little-endian
/// number. `UserPresenceTimeout` when the user did not confirm presence;
/// `BackendFailure` for a signature shorter than eight bytes.
pub fn otp_from_signature(signature: &[u8], presence_confirmed: bool) -> (r: Result<Otp, Error>)
    ensures
        !presence_confirmed ==> r == Err::<Otp, Error>(Error::UserPresenceTimeout),
        presence_confirmed && signature@.len() < 8 ==> r == Err::<Otp, Error>(
            Error::BackendFailure,
        ),
        presence_confirmed && signature@.len() >= 8 ==> r == Ok::<Otp, Error>(
            Otp(le_value(signature@.subrange(0, 8)) as u64),
        ),
{
    if !presence_confirmed {
        return Err(Error::UserPresenceTimeout);
    }
    if signature.len() < 8 {
        return Err(Error::BackendFailure);
    }
    proof {
        lemma_le_value_bound(signature@.subrange(0, 8));
        lemma_pow256_values();
    }
    let v = read_le(signature, 0, 8);
    Ok(Otp(v as u64))
}

/// The ASCII digit for a number below ten.
pub open spec fn digit_char(d: int) -> char {
    if d == 0 {
        '0'
    } else if d == 1 {
        '1'
    } else if d == 2 {
        '2'
    } else if d == 3 {
        '3'
    } else if d == 4 {
        '4'
    } else if d == 5 {
        '5'
    } else if d == 6 {
        '6'
    } else if d == 7 {
        '7'
    } else if d == 8 {
        '8'
    } else {
        '9'
    }
}

/// A number below a million as six decimal digits, zeros in front.
pub open spec fn six_digits_spec(n: u32) -> Seq<char> {
    seq![
        digit_char((n / 100000) as int % 10),
        digit_char((n / 10000) as int % 10),
        digit_char((n / 1000) as int % 10),
        digit_char((n / 100) as int % 10),
        digit_char((n / 10) as int % 10),
        digit_char(n as int % 10),
    ]
}

/// Relies on std's `format!` with `{:06}`: the decimal digits of a number,
/// padded with zeros in front to six.
#[verifier::external_body]
fn six_digits(n: u32) -> (r: String)
    requires
        n < 1_000_000,
    ensures
        r@ == six_digits_spec(n),
{
    format!("{:06}", n)
}

impl Otp {
    /// The six-digit code shown to the user: the password modulo a million.
    /// The password itself is the full number that the signature gives; only
    /// its display is reduced.
    pub fn code(&self) -> (r: u32)
        ensures
            r == self.0 % 1_000_000,
    {
        (self.0 % 1_000_000) as u32
    }

    /// The code as six decimal digits, zeros in front.
    pub fn to_string(&self) -> (r: String)
        ensures
            r@ == six_digits_spec((self.0 % 1_000_000) as u32),
    {
        six_digits(self.code())
    }
}

/// Registering a label twice leaves the second credential alone readable
/// under it: both go to the label's address, and reading that address gives
/// the second key and its period, at any timestamp.
pub proof fn lemma_register_overwrites(
    store: Map<Seq<u8>, Seq<u8>>,
    digest: Seq<u8>,
    label: Seq<u8>,
    first: (u64, u128),
    second: (u64, u128),
    timestamp: u64,
)
    requires
        digest.len() >= 8,
        label.len() <= MAX_LABEL_LEN,
        first.0 > 0,
        second.0 > 0,
    ensures
        ({
            let p = hex_path(digest);
            let c1 = registered_credential(label, first.0, first.1);
            let c2 = registered_credential(label, second.0, second.1);
            let after = store.insert(p, encode_credential_spec(c1)).insert(p, encode_credential_spec(c2));
            &&& after.contains_key(p)
            &&& after[p] == encode_credential_spec(c2)
            &&& load_spec(Some(after[p]), timestamp) == Ok::<(u128, u64), Error>(
                (second.1, timestamp / second.0),
            )
        }),
{
    lemma_credential_round_trip(registered_credential(label, second.0, second.1));
}

/// A timestamp that is a whole number `k` of periods gives the time step `k`
/// exactly; one second earlier gives `k - 1`.
pub proof fn lemma_counter(k: int, period: int)
    requires
        k >= 0,
        period > 0,
    ensures
        (k * period) / period == k,
        k > 0 ==> (k * period - 1) / period == k - 1,
{
    assert((k * period) / period == k) by (nonlinear_arith)
        requires
            period > 0,
    ;
    if k > 0 {
        assert((k * period - 1) / period == k - 1) by (nonlinear_arith)
            requires
                period > 0,
                k > 0,
        ;
    }
}

} // verus!

//! The unlock gate, and the comparison it relies on.
use vstd::prelude::*;
use crate::error::Error;

verus! {

/// Whether two byte strings are equal. Every byte of the shorter one is
/// examined whatever the outcome, so the time taken does not tell where the
/// first difference lies.
pub fn bytes_equal(a: &[u8], b: &[u8]) -> (r: bool)
    ensures
        r == (a@ == b@),
{
    let n = if a.len() < b.len() {
        a.len()
    } else {
        b.len()
    };
    let mut diff: u8 = 0;
    let mut i: usize = 0;
    assert(a@.subrange(0, 0) =~= b@.subrange(0, 0));
    while i < n
        invariant
            n <= a@.len(),
            n <= b@.len(),
            i <= n,
            (diff == 0) == (a@.subrange(0, i as int) == b@.subrange(0, i as int)),
        decreases n - i,
    {
        let x = a[i];
        let y = b[i];
        let d = diff | (x ^ y);
        assert((d == 0) == (diff == 0 && x == y)) by (bit_vector)
            requires
                d == diff | (x ^ y),
        ;
        if diff == 0 && x == y {
            assert(a@.subrange(0, i + 1) =~= a@.subrange(0, i as int).push(x));
            assert(b@.subrange(0, i + 1) =~= b@.subrange(0, i as int).push(y));
        } else if x != y {
            assert(a@.subrange(0, i + 1)[i as int] != b@.subrange(0, i + 1)[i as int]);
        } else {
            assert(a@.subrange(0, i as int) =~= a@.subrange(0, i + 1).subrange(0, i as int));
            assert(b@.subrange(0, i as int) =~= b@.subrange(0, i + 1).subrange(0, i as int));
        }
        diff = d;
        i = i + 1;
    }
    if a.len() != b.len() {
        return false;
    }
    assert(a@.subrange(0, n as int) =~= a@);
    assert(b@.subrange(0, n as int) =~= b@);
    diff == 0
}

/// The unlock status as written: one byte, `1` when unlocked.
pub open spec fn encode_status_spec(unlocked: bool) -> Seq<u8> {
    seq![if unlocked { 1u8 } else { 0u8 }]
}

/// The unlock status that stored bytes hold.
pub open spec fn decode_status_spec(b: Seq<u8>) -> Option<bool> {
    if b.len() == 1 && b[0] == 1 {
        Some(true)
    } else if b.len() == 1 && b[0] == 0 {
        Some(false)
    } else {
        None
    }
}

/// Decoding an encoded unlock status gives it back.
pub proof fn lemma_status_round_trip(unlocked: bool)
    ensures
        decode_status_spec(encode_status_spec(unlocked)) == Some(unlocked),
{
}

/// The bytes of an unlock status.
pub fn encode_status(unlocked: bool) -> (r: Vec<u8>)
    ensures
        r@ == encode_status_spec(unlocked),
{
    let mut out: Vec<u8> = Vec::new();
    out.push(if unlocked { 1u8 } else { 0u8 });
    assert(out@ =~= encode_status_spec(unlocked));
    out
}

/// The unlock status that stored bytes hold; `DecodingError` when they hold none.
pub fn decode_status(b: &[u8]) -> (r: Result<bool, Error>)
    ensures
        match decode_status_spec(b@) {
            Some(u) => r == Ok::<bool, Error>(u),
            None => r == Err::<bool, Error>(Error::DecodingError),
        },
{
    if b.len() == 1 && b[0] == 1 {
        Ok(true)
    } else if b.len() == 1 && b[0] == 0 {
        Ok(false)
    } else {
        Err(Error::DecodingError)
    }
}

/// Whether privileged vault operations are allowed.
#[derive(Clone, Copy, Debug, PartialEq, Eq, Structural)]
pub struct UnlockGate {
    pub unlocked: bool,
}

/// The result of an operation that the unlock gate guards: `DeviceLocked` while
/// locked, the operation's own result once unlocked.
pub open spec fn gated<T>(unlocked: bool, r: Result<T, Error>) -> Result<T, Error> {
    if unlocked {
        r
    } else {
        Err(Error::DeviceLocked)
    }
}

/// Whether a stored status opens the unlock gate: absent or unreadable, it does not.
pub open spec fn loaded_status(stored: Option<Seq<u8>>) -> bool {
    match stored {
        Some(b) => decode_status_spec(b) == Some(true),
        None => false,
    }
}

impl UnlockGate {
    /// The unlock gate as the stored status gives it; locked without a readable status.
    pub fn load(stored: Option<&[u8]>) -> (r: UnlockGate)
        ensures
            r.unlocked == loaded_status(
                match stored {
                    Some(b) => Some(b@),
                    None => None,
                },
            ),
    {
        match stored {
            None => UnlockGate { unlocked: false },
            Some(b) => match decode_status(b) {
                Ok(u) => UnlockGate { unlocked: u },
                Err(_) => UnlockGate { unlocked: false },
            },
        }
    }

    /// `DeviceLocked` unless the unlock gate is open.
    pub fn require_unlocked(&self) -> (r: Result<(), Error>)
        ensures
            r == gated(self.unlocked, Ok::<(), Error>(())),
    {
        if self.unlocked {
            Ok(())
        } else {
            Err(Error::DeviceLocked)
        }
    }

    /// Opens the unlock gate when the digest of the pin equals the stored digest of
    /// the unlock secret, and gives the status record to store. With no secret
    /// stored, or a different one, it fails with `PinMismatch` and the unlock gate
    /// keeps its state.
    pub fn unlock(&mut self, pin_digest: &[u8], stored_secret: Option<&[u8]>) -> (r: Result<Vec<u8>, Error>)
        ensures
            match stored_secret {
                Some(s) if s@ == pin_digest@ => final(self).unlocked && (r matches Ok(b) && b@
                    == encode_status_spec(true)),
                _ => *final(self) == *old(self) && r == Err::<Vec<u8>, Error>(Error::PinMismatch),
            },
    {
        match stored_secret {
            Some(s) => {
                if bytes_equal(s, pin_digest) {
                    self.unlocked = true;
                    Ok(encode_status(true))
                } else {
                    Err(Error::PinMismatch)
                }
            },
            None => Err(Error::PinMismatch),
        }
    }

    /// The record to store as the new unlock secret. A first secret may be set
    /// at any time; replacing one needs the unlock gate open (`DeviceLocked` otherwise).
    pub fn set_unlock_secret(&self, secret_digest: &[u8], stored_secret: Option<&[u8]>) -> (r: Result<
        Vec<u8>,
        Error,
    >)
        ensures
            stored_secret is Some && !self.unlocked ==> r == Err::<Vec<u8>, Error>(
                Error::DeviceLocked,
            ),
            stored_secret is None || self.unlocked ==> (r matches Ok(b) && b@ == secret_digest@),
    {
        if stored_secret.is_some() && !self.unlocked {
            return Err(Error::DeviceLocked);
        }
        let out = crate::record::copy_range(secret_digest, 0, secret_digest.len());
        assert(out@ =~= secret_digest@);
        Ok(out)
    }
}

} // verus!

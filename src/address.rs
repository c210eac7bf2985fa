//! Storage addresses derived from the digest of a label.
use vstd::prelude::*;

verus! {

/// Number of digest bytes that make up a storage address.
pub const ADDRESS_DIGEST_BYTES: usize = 8;

/// The lowercase ASCII hexadecimal digit for a nibble.
pub open spec fn hex_char(n: u8) -> u8
    recommends
        n < 16,
{
    if n < 10 {
        (48 + n) as u8
    } else {
        (87 + n) as u8
    }
}

/// The storage address of a digest: its first eight bytes as sixteen lowercase
/// hexadecimal digits, high nibble first.
pub open spec fn hex_path(digest: Seq<u8>) -> Seq<u8>
    recommends
        digest.len() >= 8,
{
    Seq::new(16, |i: int| if i % 2 == 0 {
        hex_char(digest[i / 2] / 16)
    } else {
        hex_char(digest[i / 2] % 16)
    })
}

fn nibble_char(n: u8) -> (r: u8)
    requires
        n < 16,
    ensures
        r == hex_char(n),
{
    if n < 10 {
        48 + n
    } else {
        87 + n
    }
}

/// The storage address for a label, given the backend's digest of the label's
/// bytes. A digest shorter than eight bytes is a backend failure.
pub fn path_for_digest(digest: &[u8]) -> (r: Result<Vec<u8>, crate::error::Error>)
    ensures
        digest@.len() < 8 ==> r == Err::<Vec<u8>, crate::error::Error>(
            crate::error::Error::BackendFailure,
        ),
        digest@.len() >= 8 ==> (r matches Ok(p) && p@ == hex_path(digest@)),
{
    if digest.len() < ADDRESS_DIGEST_BYTES {
        return Err(crate::error::Error::BackendFailure);
    }
    let mut out: Vec<u8> = Vec::new();
    let mut i: usize = 0;
    while i < ADDRESS_DIGEST_BYTES
        invariant
            i <= 8,
            digest@.len() >= 8,
            out@.len() == 2 * i,
            forall|j: int| 0 <= j < 2 * i ==> out@[j] == #[trigger] hex_path(digest@)[j],
        decreases 8 - i,
    {
        let b = digest[i];
        out.push(nibble_char(b / 16));
        out.push(nibble_char(b % 16));
        i = i + 1;
    }
    assert(out@ =~= hex_path(digest@));
    Ok(out)
}

/// The address depends on the digest alone, and on its first eight bytes only:
/// the same label always yields the same sixteen-digit address.
pub proof fn lemma_path_deterministic(d1: Seq<u8>, d2: Seq<u8>)
    requires
        d1.len() >= 8,
        d2.len() >= 8,
        d1.subrange(0, 8) == d2.subrange(0, 8),
    ensures
        hex_path(d1) == hex_path(d2),
        hex_path(d1).len() == 16,
{
    assert forall|j: int| 0 <= j < 8 implies d1[j] == d2[j] by {
        assert(d1[j] == d1.subrange(0, 8)[j]);
        assert(d2[j] == d2.subrange(0, 8)[j]);
    }
    assert(hex_path(d1) =~= hex_path(d2));
}

} // verus!

//! Parsing of the hexadecimal arguments of the command line.
use vstd::prelude::*;
use crate::error::Error;
use crate::wireguard::{pubkey_array, pubkey_spec};

verus! {

/// The value of a hexadecimal digit, in either case.
pub open spec fn hex_value(c: u8) -> Option<u8> {
    if 48 <= c <= 57 {
        Some((c - 48) as u8)
    } else if 65 <= c <= 70 {
        Some((c - 55) as u8)
    } else if 97 <= c <= 102 {
        Some((c - 87) as u8)
    } else {
        None
    }
}

/// The bytes that pairs of hexadecimal digits denote, high digit first; none
/// for an odd number of characters or a character that is not a digit.
pub open spec fn hex_decode_spec(s: Seq<u8>) -> Option<Seq<u8>> {
    if s.len() % 2 == 0 && forall|i: int| 0 <= i < s.len() ==> (#[trigger] hex_value(s[i])) is Some {
        Some(
            Seq::new(
                (s.len() / 2) as nat,
                |i: int| (hex_value(s[2 * i]).unwrap() * 16 + hex_value(s[2 * i + 1]).unwrap()) as u8,
            ),
        )
    } else {
        None
    }
}

/// Relies on hex::decode: pairs of hexadecimal digits of either case, high
/// digit first; an odd length or any other character is an error.
#[verifier::external_body]
fn hex_decode(s: &[u8]) -> (r: Option<Vec<u8>>)
    ensures
        r is Some <==> hex_decode_spec(s@) is Some,
        r is Some ==> hex_decode_spec(s@) == Some(r.unwrap()@),
{
    hex::decode(s).ok()
}

/// The 32-byte value that a hexadecimal argument denotes; a shorter value is
/// followed by zeros. `InvalidHex` when the argument is not hexadecimal or
/// denotes more than 32 bytes.
pub fn hex_string_to32_char_array(s: &str) -> (r: Result<[u8; 32], Error>)
    ensures
        match hex_decode_spec(vstd::utf8::encode_utf8(s@)) {
            Some(v) if v.len() <= 32 => r matches Ok(a) && a@ == pubkey_spec(v),
            _ => r == Err::<[u8; 32], Error>(Error::InvalidHex),
        },
{
    match hex_decode(s.as_bytes()) {
        None => Err(Error::InvalidHex),
        Some(v) => {
            if v.len() > 32 {
                Err(Error::InvalidHex)
            } else {
                Ok(pubkey_array(v.as_slice()))
            }
        },
    }
}

} // verus!

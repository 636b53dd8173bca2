//! External entropy for the first proof-of-time seed, given as a hex string.
use vstd::prelude::*;
use vstd::string::StringSliceAdditionalSpecFns;

verus! {

/// Why a hex string was refused.
#[derive(Debug, Clone, Copy, PartialEq, Eq)]
pub enum EntropyError {
    /// A byte of the text is not a hex digit; `index` is its byte offset.
    InvalidHexCharacter { c: char, index: usize },
    /// The text has an odd number of bytes.
    OddLength,
    /// The decoded length does not fit the destination (never for a vector).
    InvalidStringLength,
}

pub open spec fn is_hex_digit(b: u8) -> bool {
    (48 <= b <= 57) || (65 <= b <= 70) || (97 <= b <= 102)
}

/// The value of a hex digit, either case.
pub open spec fn hex_value(b: u8) -> int {
    if 48 <= b <= 57 {
        b - 48
    } else if 65 <= b <= 70 {
        b - 55
    } else {
        b - 87
    }
}

/// Two digits for each byte, the high half first.
pub open spec fn hex_bytes(t: Seq<u8>) -> Seq<u8> {
    Seq::new((t.len() / 2) as nat, |i: int| (hex_value(t[2 * i]) * 16 + hex_value(t[2 * i + 1])) as u8)
}

/// The offset of the first byte of `t` that is no hex digit.
pub open spec fn first_non_hex(t: Seq<u8>) -> int {
    choose|k: int| 0 <= k < t.len() && !is_hex_digit(t[k]) && forall|j: int| 0 <= j < k ==> is_hex_digit(#[trigger] t[j])
}

pub open spec fn all_hex(t: Seq<u8>) -> bool {
    forall|i: int| 0 <= i < t.len() ==> is_hex_digit(#[trigger] t[i])
}

/// What decoding the hex text `t` gives: first the length is checked, then the
/// digits from the start.
pub open spec fn hex_decoding(t: Seq<u8>) -> Result<Seq<u8>, EntropyError> {
    if t.len() % 2 != 0 {
        Err(EntropyError::OddLength)
    } else if !all_hex(t) {
        Err(
            EntropyError::InvalidHexCharacter {
                c: t[first_non_hex(t)] as char,
                index: first_non_hex(t) as usize,
            },
        )
    } else {
        Ok(hex_bytes(t))
    }
}

/// Relies on hex::decode (hex 0.4): an odd length is refused first, then the
/// digits are read pairwise from the start and the first byte that is no digit
/// is reported with its offset; otherwise two digits make one byte.
#[verifier::external_body]
fn decode_hex(s: &str) -> (r: Result<Vec<u8>, EntropyError>)
    ensures
        match r {
            Ok(v) => hex_decoding(s.spec_bytes()) == Ok::<Seq<u8>, EntropyError>(v@),
            Err(e) => hex_decoding(s.spec_bytes()) == Err::<Seq<u8>, EntropyError>(e),
        },
{
    match hex::decode(s) {
        Ok(v) => Ok(v),
        Err(hex::FromHexError::InvalidHexCharacter { c, index }) => Err(
            EntropyError::InvalidHexCharacter { c, index },
        ),
        Err(hex::FromHexError::OddLength) => Err(EntropyError::OddLength),
        Err(hex::FromHexError::InvalidStringLength) => Err(EntropyError::InvalidStringLength),
    }
}

/// Reads external entropy written as hex digits, two for each byte.
pub fn parse_pot_external_entropy(s: &str) -> (r: Result<Vec<u8>, EntropyError>)
    ensures
        match r {
            Ok(v) => hex_decoding(s.spec_bytes()) == Ok::<Seq<u8>, EntropyError>(v@),
            Err(e) => hex_decoding(s.spec_bytes()) == Err::<Seq<u8>, EntropyError>(e),
        },
{
    decode_hex(s)
}

} // verus!

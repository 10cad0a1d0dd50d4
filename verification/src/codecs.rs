//! Trusted bindings to the outside encoding and hashing routines the core
//! relies on: hex rendering of offending hashes in fatal reports, and the
//! blake2b-256 digest used for transaction identities.

use vstd::prelude::*;
use crate::store::FatalError;

verus! {

/// Lowercase hex digit of a nibble.
pub open spec fn hex_digit(n: u8) -> char
    recommends
        n < 16,
{
    if n < 10 {
        (('0' as u8) + n) as char
    } else {
        (('a' as u8) + (n - 10)) as char
    }
}

/// Lowercase hex rendering of a byte string: two digits per byte, high
/// nibble first.
pub open spec fn hex_str_of(bytes: Seq<u8>) -> Seq<char>
    decreases bytes.len(),
{
    if bytes.len() == 0 {
        Seq::<char>::empty()
    } else {
        seq![hex_digit(bytes[0] / 16), hex_digit(bytes[0] % 16)] + hex_str_of(bytes.drop_first())
    }
}

/// Relies on hex::encode: lowercase hex, two digits per byte, high nibble
/// first.
#[verifier::external_body]
pub fn hex_encode(bytes: &[u8]) -> (r: String)
    ensures
        r@ == hex_str_of(bytes@),
{
    hex::encode(bytes)
}

/// Names the blake2b-256 digest of a byte string: the digest is a function
/// of the input alone.
pub uninterp spec fn blake2b256_of(data: Seq<u8>) -> Seq<u8>;

/// Relies on cryptoxide::hashing::blake2b_256: the 32-byte blake2b digest of
/// the input.
#[verifier::external_body]
pub fn blake2b256(data: &[u8]) -> (r: [u8; 32])
    ensures
        r@ == blake2b256_of(data@),
{
    cryptoxide::hashing::blake2b_256(data)
}

/// Hex rendering of the ledger identifier a fatal error complains about, for
/// reporting; errors without one render nothing.
pub fn fatal_error_hex(e: &FatalError) -> (r: Option<String>)
    ensures
        match *e {
            FatalError::MissingOutput { ref tx_hash, .. } => r matches Some(s) && s@ == hex_str_of(
                tx_hash@,
            ),
            FatalError::MissingTransaction { ref hash } => r matches Some(s) && s@ == hex_str_of(
                hash@,
            ),
            FatalError::MissingBlock { ref hash } => r matches Some(s) && s@ == hex_str_of(hash@),
            FatalError::MissingAsset { ref policy_id, .. } => r matches Some(s) && s@ == hex_str_of(
                policy_id@,
            ),
            FatalError::MissingAddress { ref payload } => r matches Some(s) && s@ == hex_str_of(
                payload@,
            ),
            FatalError::DuplicateRow { ref hash } => r is None,
            _ => r is None,
        },
{
    match e {
        FatalError::MissingOutput { tx_hash, .. } => Some(hex_encode(tx_hash.as_slice())),
        FatalError::MissingTransaction { hash } => Some(hex_encode(hash.as_slice())),
        FatalError::MissingBlock { hash } => Some(hex_encode(hash.as_slice())),
        FatalError::MissingAsset { policy_id, .. } => Some(hex_encode(policy_id.as_slice())),
        FatalError::MissingAddress { payload } => Some(hex_encode(payload.as_slice())),
        FatalError::MissingOutputPointer { .. } => None,
        FatalError::UnsupportedInput { .. } => None,
        FatalError::DuplicateRow { .. } => None,
        FatalError::CapacityExceeded => None,
        FatalError::ContextMismatch => None,
    }
}

} // verus!

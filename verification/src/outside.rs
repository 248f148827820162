//! Trusted declarations for the calls this library makes into outside crates
//! and into parts of the standard library that carry no specification. Each
//! wrapper's contract states only what the callee's own source or
//! documentation shows; everything built on top of them is verified.

use std::hash::Hash;
use std::hash::Hasher;
use vstd::prelude::*;

verus! {

/// Relies on `chrono::Utc::now`: the current wall-clock time in milliseconds
/// since the Unix epoch. Nothing can be promised of a clock reading.
#[verifier::external_body]
pub(crate) fn now_millis() -> i64 {
    chrono::Utc::now().timestamp_millis()
}

/// Relies on `uuid::Uuid::new_v4` and its `Display` form: a freshly drawn
/// random identifier, rendered as the 36-character hyphenated form. Nothing
/// more can be promised of a random value.
#[verifier::external_body]
pub(crate) fn new_uuid_string() -> (r: String)
    ensures
        r@.len() == 36,
{
    uuid::Uuid::new_v4().to_string()
}

/// The SHA-256 digest of a byte string: a function of the bytes alone, left
/// uninterpreted here.
pub uninterp spec fn sha256_of(bytes: Seq<u8>) -> Seq<u8>;

/// Relies on `sha2::Sha256` (through the `Digest` trait): the 32-byte SHA-256
/// digest of the input, depending on the input alone.
#[verifier::external_body]
pub(crate) fn sha256_digest(bytes: &Vec<u8>) -> (r: Vec<u8>)
    ensures
        r@ == sha256_of(bytes@),
        r@.len() == 32,
{
    <sha2::Sha256 as sha2::Digest>::digest(bytes.as_slice()).to_vec()
}

/// The 64-bit digest that `std`'s default hasher assigns to a byte string: a
/// function of the bytes alone (every hasher made by `DefaultHasher::new`
/// hashes alike, per its documentation), left uninterpreted here.
pub uninterp spec fn default_hash64_of(bytes: Seq<u8>) -> u64;

/// Relies on `std::collections::hash_map::DefaultHasher` (`new`, one `Hash::hash`
/// of the byte vector, `finish`): the default hasher's 64-bit digest of the
/// input, depending on the input alone.
#[verifier::external_body]
pub(crate) fn default_hash64(bytes: &Vec<u8>) -> (r: u64)
    ensures
        r == default_hash64_of(bytes@),
{
    let mut hasher = std::collections::hash_map::DefaultHasher::new();
    bytes.hash(&mut hasher);
    hasher.finish()
}

} // verus!

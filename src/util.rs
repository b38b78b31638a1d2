//! Random identifiers and string hashing.
use vstd::prelude::*;
use rand::distributions::DistString;
use std::hash::{Hash, Hasher};

verus! {

/// An ASCII letter or digit.
pub open spec fn is_alphanumeric_ascii(c: char) -> bool {
    ('a' <= c && c <= 'z') || ('A' <= c && c <= 'Z') || ('0' <= c && c <= '9')
}

/// Relies on `rand::distributions::Alphanumeric::sample_string` with the
/// thread-local generator: `length` characters, each an ASCII letter or
/// digit.
#[verifier::external_body]
pub fn generate_rand_id(length: usize) -> (r: String)
    ensures
        r@.len() == length,
        forall|i: int| 0 <= i < length ==> is_alphanumeric_ascii(#[trigger] r@[i]),
{
    rand::distributions::Alphanumeric.sample_string(&mut rand::thread_rng(), length)
}

/// The 64-bit digest that std's default hasher gives a string.
pub uninterp spec fn hash_of(s: Seq<char>) -> u64;

/// Relies on `std::collections::hash_map::DefaultHasher` (built with `new`,
/// hence unseeded) fed through `str`'s `Hash`: the digest depends on the
/// string alone.
#[verifier::external_body]
pub fn calculate_hash(t: &str) -> (r: u64)
    ensures
        r == hash_of(t@),
{
    let mut s = std::collections::hash_map::DefaultHasher::new();
    t.hash(&mut s);
    s.finish()
}

} // verus!

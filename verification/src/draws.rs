//! Sources of randomness and identity.  Every draw happens behind a
//! trusted wrapper; verified code states only what holds of every
//! possible outcome.

use vstd::prelude::*;

verus! {

/// Relies on `rand::random_range` over the inclusive range
/// `lo..=hi`: the drawn value lies within the range.
#[verifier::external_body]
pub fn random_in(lo: i32, hi: i32) -> (r: i32)
    requires
        lo <= hi,
    ensures
        lo <= r <= hi,
{
    rand::random_range(lo..=hi)
}

/// Relies on `rand::random_range` over `0..n`: the drawn index is
/// below `n`.
#[verifier::external_body]
pub fn random_index(n: usize) -> (r: usize)
    requires
        n >= 1,
    ensures
        r < n,
{
    rand::random_range(0..n)
}

/// Relies on `rand::random::<bool>`: a coin flip; nothing is promised
/// of the outcome.
#[verifier::external_body]
pub fn random_flag() -> bool {
    rand::random()
}

/// Relies on `rand::random_ratio`: true with probability
/// `num / den`; certainly false when `num` is 0 and certainly true
/// when `num` equals `den`.
#[verifier::external_body]
pub fn random_chance(num: u32, den: u32) -> (r: bool)
    requires
        1 <= den,
        num <= den,
    ensures
        num == 0 ==> !r,
        num == den ==> r,
{
    rand::random_ratio(num, den)
}

/// Relies on `uuid::Uuid::new_v4`: a freshly drawn random identifier,
/// carried as its 128-bit value; nothing is promised of the draw.
#[verifier::external_body]
pub fn fresh_id() -> u128 {
    uuid::Uuid::new_v4().as_u128()
}

} // verus!

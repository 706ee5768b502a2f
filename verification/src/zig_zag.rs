//! The zig-zag transform: a bijection between signed and unsigned 64-bit
//! integers that keeps small-magnitude values small, so that they stay short
//! under variable-length encoding.

use vstd::prelude::*;

verus! {

/// The zig-zag image of a signed integer: non-negative `n` maps to `2n`,
/// negative `n` maps to `-2n - 1`.
pub open spec fn spec_zigzag(n: i64) -> u64 {
    if n >= 0 {
        (2 * n) as u64
    } else {
        (-2 * n - 1) as u64
    }
}

/// The inverse of [`spec_zigzag`]: even `u` maps to `u / 2`, odd `u` maps to
/// `-(u / 2) - 1`.
pub open spec fn spec_unzigzag(u: u64) -> i64 {
    if u % 2 == 0 {
        (u / 2) as i64
    } else {
        (-((u / 2) as int) - 1) as i64
    }
}

/// Maps a signed integer onto the unsigned zig-zag space.
pub fn into(num: i64) -> (r: u64)
    ensures
        r == spec_zigzag(num),
{
    if num >= 0 {
        (num as u64) * 2
    } else {
        (-(num + 1)) as u64 * 2 + 1
    }
}

/// Maps an unsigned integer back from the zig-zag space.
pub fn from(num: u64) -> (r: i64)
    ensures
        r == spec_unzigzag(num),
{
    if num % 2 == 0 {
        (num / 2) as i64
    } else {
        -((num / 2) as i64) - 1
    }
}

/// Zig-zag is a bijection over the whole 64-bit range: decoding an encoding
/// gives back the original signed value, and encoding a decoding gives back
/// the original unsigned value.
pub proof fn lemma_zigzag_bijection(n: i64, u: u64)
    ensures
        spec_unzigzag(spec_zigzag(n)) == n,
        spec_zigzag(spec_unzigzag(u)) == u,
{
}

} // verus!

//! Widening conversions into float bit patterns, done entirely in integer
//! arithmetic. Small integers are exactly representable in IEEE 754 binary32
//! and binary64, so their bit patterns are a pure function of the value:
//! a biased exponent at the position of the highest set bit, and the
//! remaining bits shifted up into the mantissa.

use vstd::prelude::*;

verus! {

/// `2^k` for `k >= 0`.
pub open spec fn p2(k: int) -> int
    decreases k,
{
    if k <= 0 {
        1
    } else {
        2 * p2(k - 1)
    }
}

/// The position of the highest set bit of `n >= 1`.
pub open spec fn spec_msb(n: int) -> int
    decreases n,
{
    if n < 2 {
        0
    } else {
        1 + spec_msb(n / 2)
    }
}

pub proof fn lemma_p2_pos(k: int)
    ensures
        p2(k) >= 1,
    decreases k,
{
    if k > 0 {
        lemma_p2_pos(k - 1);
    }
}

pub proof fn lemma_p2_mono(i: int, j: int)
    requires
        i <= j,
    ensures
        p2(i) <= p2(j),
    decreases j - i,
{
    lemma_p2_pos(i);
    if i < j {
        lemma_p2_mono(i, j - 1);
        lemma_p2_pos(j - 1);
    }
}

pub proof fn lemma_p2_add(a: int, b: int)
    requires
        0 <= a,
        0 <= b,
    ensures
        p2(a) * p2(b) == p2(a + b),
    decreases a,
{
    if a == 0 {
    } else {
        lemma_p2_add(a - 1, b);
        assert(p2(a) * p2(b) == 2 * (p2(a - 1) * p2(b))) by (nonlinear_arith)
            requires
                p2(a) == 2 * p2(a - 1),
        ;
    }
}

/// The highest set bit brackets the value: `2^msb(n) <= n < 2^(msb(n)+1)`.
pub proof fn lemma_msb_bounds(n: int)
    requires
        n >= 1,
    ensures
        0 <= spec_msb(n),
        p2(spec_msb(n)) <= n,
        n < p2(spec_msb(n) + 1),
    decreases n,
{
    if n >= 2 {
        lemma_msb_bounds(n / 2);
        let m = spec_msb(n / 2);
        assert(p2(m) <= n / 2);
        assert(n / 2 < p2(m + 1));
        assert(n < 2 * (n / 2) + 2);
    }
}

/// `n < 2^k` bounds the highest set bit below `k`.
pub proof fn lemma_msb_below(n: int, k: int)
    requires
        1 <= n,
        0 <= k,
        n < p2(k),
    ensures
        spec_msb(n) < k,
{
    lemma_msb_bounds(n);
    if spec_msb(n) >= k {
        lemma_p2_mono(k, spec_msb(n));
    }
}

/// The IEEE 754 binary64 bit pattern of a small non-negative integer:
/// zero maps to all-zero bits; otherwise the exponent field holds
/// `1023 + msb(n)` and the mantissa the bits of `n` below its highest,
/// shifted to the top of the 52-bit field.
pub open spec fn f64_bits_of_nat(n: int) -> u64
    recommends
        0 <= n < p2(32),
{
    if n <= 0 {
        0
    } else {
        (((1023 + spec_msb(n)) * p2(52)) + (n - p2(spec_msb(n))) * p2(52 - spec_msb(n))) as u64
    }
}

/// The binary64 bit pattern of a small signed integer: the magnitude's
/// pattern with the sign bit set for negative values.
pub open spec fn f64_bits_of_int(n: int) -> u64
    recommends
        -p2(31) <= n < p2(32),
{
    if n >= 0 {
        f64_bits_of_nat(n)
    } else {
        (p2(63) + f64_bits_of_nat(-n)) as u64
    }
}

/// The IEEE 754 binary32 bit pattern of a small non-negative integer.
pub open spec fn f32_bits_of_nat(n: int) -> u32
    recommends
        0 <= n < p2(16),
{
    if n <= 0 {
        0
    } else {
        (((127 + spec_msb(n)) * p2(23)) + (n - p2(spec_msb(n))) * p2(23 - spec_msb(n))) as u32
    }
}

/// The binary32 bit pattern of a small signed integer.
pub open spec fn f32_bits_of_int(n: int) -> u32
    recommends
        -p2(15) <= n < p2(16),
{
    if n >= 0 {
        f32_bits_of_nat(n)
    } else {
        (p2(31) + f32_bits_of_nat(-n)) as u32
    }
}

/// The binary64 bit pattern carrying the same number as a binary32 bit
/// pattern: the sign moves to the top bit, the exponent is re-biased from
/// 127 to 1023, the mantissa gains 29 low zero bits. An infinity or NaN
/// keeps the all-ones exponent; a subnormal is renormalized by the position
/// of its mantissa's highest bit.
pub open spec fn f64_bits_of_f32_bits(b: u32) -> u64 {
    let sign = (b as int) / p2(31);
    let e = ((b as int) / p2(23)) % p2(8);
    let m = (b as int) % p2(23);
    if e == 255 {
        (sign * p2(63) + 2047 * p2(52) + m * p2(29)) as u64
    } else if e == 0 {
        if m == 0 {
            (sign * p2(63)) as u64
        } else {
            let k = spec_msb(m);
            (sign * p2(63) + (874 + k) * p2(52) + (m - p2(k)) * p2(52 - k)) as u64
        }
    } else {
        (sign * p2(63) + (e + 896) * p2(52) + m * p2(29)) as u64
    }
}

/// `2^k` as a 64-bit value.
fn two_pow(k: usize) -> (r: u64)
    requires
        k <= 63,
    ensures
        r as int == p2(k as int),
{
    let mut r: u64 = 1;
    let mut i: usize = 0;
    while i < k
        invariant
            i <= k <= 63,
            r as int == p2(i as int),
            r <= 0x8000_0000_0000_0000,
        decreases k - i,
    {
        proof {
            lemma_p2_mono(i as int + 1, 63);
            assert(p2(63) == 0x8000_0000_0000_0000) by {
                reveal_with_fuel(p2, 64);
            }
        }
        r = r * 2;
        i = i + 1;
    }
    r
}

/// The position of the highest set bit.
fn floor_log2(n: u64) -> (r: usize)
    requires
        n >= 1,
    ensures
        r as int == spec_msb(n as int),
        r <= 63,
{
    let mut m: u64 = n;
    let mut k: usize = 0;
    while m >= 2
        invariant
            m >= 1,
            k <= 63,
            spec_msb(n as int) == k + spec_msb(m as int),
            p2(k as int) <= n,
        decreases m,
    {
        proof {
            lemma_msb_bounds(m as int);
            assert(p2(k as int + 1) <= n) by {
                assert(p2(k as int + 1) == 2 * p2(k as int));
                assert(2 * (m as int / 2) <= m);
                lemma_p2_mult_div_bound(n as int, k as int, m as int);
            }
            assert(k + 1 <= 63) by {
                if k + 1 > 63 {
                    assert(p2(64) > u64::MAX) by {
                        reveal_with_fuel(p2, 65);
                    }
                }
            }
        }
        m = m / 2;
        k = k + 1;
    }
    k
}

/// Carries the `p2(k) <= n` invariant of [`floor_log2`] one step.
proof fn lemma_p2_mult_div_bound(n: int, k: int, m: int)
    requires
        0 <= k,
        2 <= m,
        p2(k) <= n,
        spec_msb(n) == k + spec_msb(m),
    ensures
        p2(k + 1) <= n,
    decreases m,
{
    lemma_p2_pos(k);
    lemma_msb_bounds(n);
    lemma_msb_bounds(m);
    assert(spec_msb(m) >= 1);
    assert(spec_msb(n) >= k + 1);
    lemma_p2_mono(k + 1, spec_msb(n));
}

/// The shared normal-number construction: sign, biased exponent at the
/// highest set bit, and the remaining bits shifted into a 52-bit mantissa.
fn f64_bits_from_magnitude(mag: u64, negative: bool) -> (r: u64)
    requires
        1 <= mag < 0x1_0000_0000,
    ensures
        r as int == if negative {
            p2(63) + f64_bits_of_nat(mag as int)
        } else {
            f64_bits_of_nat(mag as int) as int
        },
{
    let m = floor_log2(mag);
    proof {
        assert(p2(32) == 0x1_0000_0000) by {
            reveal_with_fuel(p2, 33);
        }
        lemma_msb_below(mag as int, 32);
        lemma_msb_bounds(mag as int);
        lemma_p2_pos(52 - spec_msb(mag as int));
        lemma_p2_add(spec_msb(mag as int), 52 - spec_msb(mag as int));
        assert((mag - p2(spec_msb(mag as int))) * p2(52 - spec_msb(mag as int)) < p2(
            spec_msb(mag as int),
        ) * p2(52 - spec_msb(mag as int))) by (nonlinear_arith)
            requires
                mag - p2(spec_msb(mag as int)) < p2(spec_msb(mag as int)),
                p2(52 - spec_msb(mag as int)) >= 1,
        ;
        assert(p2(52) == 0x10_0000_0000_0000) by {
            reveal_with_fuel(p2, 53);
        }
        assert(p2(63) == 0x8000_0000_0000_0000) by {
            reveal_with_fuel(p2, 64);
        }
        lemma_p2_mono(52 - spec_msb(mag as int), 52);
    }
    let exp: u64 = 1023 + (m as u64);
    let low = mag - two_pow(m);
    let mant = low * two_pow(52 - m);
    let bits = exp * 0x10_0000_0000_0000u64 + mant;
    if negative {
        0x8000_0000_0000_0000u64 + bits
    } else {
        bits
    }
}

/// The shared binary32 construction for magnitudes below `2^16`.
fn f32_bits_from_magnitude(mag: u32, negative: bool) -> (r: u32)
    requires
        1 <= mag < 0x1_0000,
    ensures
        r as int == if negative {
            p2(31) + f32_bits_of_nat(mag as int)
        } else {
            f32_bits_of_nat(mag as int) as int
        },
{
    let m = floor_log2(mag as u64);
    proof {
        assert(p2(16) == 0x1_0000 && p2(15) == 0x8000) by {
            reveal_with_fuel(p2, 17);
        }
        lemma_msb_below(mag as int, 16);
        lemma_msb_bounds(mag as int);
        lemma_p2_pos(23 - spec_msb(mag as int));
        lemma_p2_add(spec_msb(mag as int), 23 - spec_msb(mag as int));
        assert((mag - p2(spec_msb(mag as int))) * p2(23 - spec_msb(mag as int)) < p2(
            spec_msb(mag as int),
        ) * p2(23 - spec_msb(mag as int))) by (nonlinear_arith)
            requires
                mag - p2(spec_msb(mag as int)) < p2(spec_msb(mag as int)),
                p2(23 - spec_msb(mag as int)) >= 1,
        ;
        assert(p2(23) == 0x80_0000 && p2(31) == 0x8000_0000) by {
            reveal_with_fuel(p2, 32);
        }
        lemma_p2_mono(23 - spec_msb(mag as int), 23);
    }
    let exp: u32 = 127 + (m as u32);
    let low = mag - (two_pow(m) as u32);
    let mant = low * (two_pow(23 - m) as u32);
    let bits = exp * 0x80_0000u32 + mant;
    if negative {
        0x8000_0000u32 + bits
    } else {
        bits
    }
}

/// The binary64 bits of an unsigned 32-bit integer.
pub fn f64_bits_from_u32(n: u32) -> (r: u64)
    ensures
        r == f64_bits_of_nat(n as int),
{
    if n == 0 {
        0
    } else {
        f64_bits_from_magnitude(n as u64, false)
    }
}

/// The binary64 bits of a signed 32-bit integer.
pub fn f64_bits_from_i32(n: i32) -> (r: u64)
    ensures
        r == f64_bits_of_int(n as int),
{
    if n == 0 {
        0
    } else if n > 0 {
        f64_bits_from_magnitude(n as u64, false)
    } else {
        let mag = -(n as i64);
        proof {
            assert(p2(31) == 0x8000_0000) by {
                reveal_with_fuel(p2, 32);
            }
        }
        f64_bits_from_magnitude(mag as u64, true)
    }
}

/// The binary32 bits of an unsigned 16-bit integer.
pub fn f32_bits_from_u16(n: u16) -> (r: u32)
    ensures
        r == f32_bits_of_nat(n as int),
{
    if n == 0 {
        0
    } else {
        f32_bits_from_magnitude(n as u32, false)
    }
}

/// The binary32 bits of a signed 16-bit integer.
pub fn f32_bits_from_i16(n: i16) -> (r: u32)
    ensures
        r == f32_bits_of_int(n as int),
{
    if n == 0 {
        0
    } else if n > 0 {
        f32_bits_from_magnitude(n as u32, false)
    } else {
        let mag = -(n as i32);
        proof {
            assert(p2(15) == 0x8000) by {
                reveal_with_fuel(p2, 16);
            }
            assert(p2(31) == 0x8000_0000) by {
                reveal_with_fuel(p2, 32);
            }
        }
        f32_bits_from_magnitude(mag as u32, true)
    }
}

/// The binary64 bits carrying the same number as the given binary32 bits.
pub fn f64_bits_from_f32_bits(b: u32) -> (r: u64)
    ensures
        r == f64_bits_of_f32_bits(b),
{
    proof {
        assert(p2(23) == 0x80_0000 && p2(8) == 256 && p2(31) == 0x8000_0000 && p2(29)
            == 0x2000_0000 && p2(52) == 0x10_0000_0000_0000 && p2(63)
            == 0x8000_0000_0000_0000) by {
            reveal_with_fuel(p2, 64);
        }
    }
    let sign: u64 = (b / 0x8000_0000) as u64;
    let e: u64 = ((b / 0x80_0000) % 256) as u64;
    let m: u64 = (b % 0x80_0000) as u64;
    if e == 255 {
        sign * 0x8000_0000_0000_0000 + 2047 * 0x10_0000_0000_0000 + m * 0x2000_0000
    } else if e == 0 {
        if m == 0 {
            sign * 0x8000_0000_0000_0000
        } else {
            let k = floor_log2(m);
            proof {
                lemma_msb_below(m as int, 23);
                lemma_msb_bounds(m as int);
                lemma_p2_pos(52 - k as int);
                lemma_p2_add(k as int, 52 - k as int);
                lemma_p2_mono(k as int, 22);
                lemma_p2_mono(52 - k as int, 52);
                assert(p2(22) == 0x40_0000) by {
                    reveal_with_fuel(p2, 23);
                }
                assert((m - p2(k as int)) * p2(52 - k as int) < p2(k as int) * p2(
                    52 - k as int,
                )) by (nonlinear_arith)
                    requires
                        m - p2(k as int) < p2(k as int),
                        p2(52 - k as int) >= 1,
                ;
            }
            let low = m - two_pow(k);
            let mant = low * two_pow(52 - k);
            sign * 0x8000_0000_0000_0000 + (874 + (k as u64)) * 0x10_0000_0000_0000 + mant
        }
    } else {
        sign * 0x8000_0000_0000_0000 + (e + 896) * 0x10_0000_0000_0000 + m * 0x2000_0000
    }
}

} // verus!

//! LEB128 variable-length integers: seven value bits per byte, least
//! significant group first, with the high bit of each byte as a continuation
//! flag. A 64-bit value takes at most ten bytes; a tenth byte above `1` would
//! overflow 64 bits and is rejected.

use vstd::prelude::*;

use crate::errors::{Error, UnexpectedEof, VarIntError, WireError, matches_wire_error};

verus! {

/// `128^k`, the weight of the `k`-th seven-bit group.
pub open spec fn pow128(k: int) -> int
    decreases k,
{
    if k <= 0 {
        1
    } else {
        128 * pow128(k - 1)
    }
}

pub proof fn lemma_pow128_pos(k: int)
    ensures
        pow128(k) >= 1,
    decreases k,
{
    if k > 0 {
        lemma_pow128_pos(k - 1);
    }
}

pub proof fn lemma_pow128_mono(i: int, j: int)
    requires
        i <= j,
    ensures
        pow128(i) <= pow128(j),
    decreases j - i,
{
    lemma_pow128_pos(i);
    if i < j {
        lemma_pow128_mono(i, j - 1);
        lemma_pow128_pos(j - 1);
    }
}

pub proof fn lemma_pow128_bounds(i: int)
    requires
        0 <= i <= 9,
    ensures
        pow128(i) >= 1,
        pow128(i) <= 0x8000_0000_0000_0000,
        i <= 8 ==> pow128(i) <= 0x100_0000_0000_0000,
{
    lemma_pow128_pos(i);
    lemma_pow128_mono(i, 9);
    lemma_pow128_expand();
    if i <= 8 {
        lemma_pow128_mono(i, 8);
    }
}

/// The LEB128 encoding of `n`: its seven-bit groups, least significant first,
/// each with the continuation bit set except the last.
pub open spec fn spec_varint(n: u64) -> Seq<u8>
    decreases n,
    via spec_varint_decreases
{
    if n < 128 {
        seq![n as u8]
    } else {
        seq![(n % 128 + 128) as u8] + spec_varint((n / 128) as u64)
    }
}

#[via_fn]
proof fn spec_varint_decreases(n: u64) {
    assert(n >= 128 ==> n / 128 < n) by (nonlinear_arith);
}

/// The number of bytes in the LEB128 encoding of `n`.
pub open spec fn spec_varint_len(n: u64) -> int {
    spec_varint(n).len() as int
}

/// Decoding of a LEB128 integer whose first byte is the `i`-th group of the
/// value: the decoded value of the remaining groups, and the bytes consumed.
/// A tenth group above `1` would overflow 64 bits and is refused.
pub open spec fn spec_dec_varint_at(s: Seq<u8>, i: int) -> Result<(u64, int), WireError>
    decreases s.len(),
{
    if s.len() == 0 {
        Err(WireError::Eof)
    } else {
        let b = s[0];
        if i == 9 && b >= 2 {
            Err(WireError::VarInt)
        } else if b < 128 {
            Ok((b as u64, 1))
        } else {
            match spec_dec_varint_at(s.drop_first(), i + 1) {
                Ok((v, n)) => Ok((((b - 128) + 128 * v) as u64, n + 1)),
                Err(e) => Err(e),
            }
        }
    }
}

/// Decoding of a LEB128 integer from the front of `s`: the value and the
/// bytes consumed, or the failure kind.
pub open spec fn spec_dec_varint(s: Seq<u8>) -> Result<(u64, int), WireError> {
    spec_dec_varint_at(s, 0)
}

/// A decoded group sequence starting at group `i` is below `2 * 128^(9-i)`,
/// so the recomposed value always fits 64 bits, and consumes between one byte
/// and the rest of the groups.
pub proof fn lemma_dec_varint_at_bound(s: Seq<u8>, i: int)
    requires
        0 <= i <= 9,
    ensures
        spec_dec_varint_at(s, i) matches Ok((v, n)) ==> v <= 2 * pow128(9 - i) - 1 && 1 <= n <= 10
            - i && n <= s.len(),
    decreases s.len(),
{
    lemma_pow128_pos(9 - i);
    if s.len() > 0 {
        let b = s[0];
        if i == 9 && b >= 2 {
        } else if b < 128 {
            if i < 9 {
                lemma_pow128_expand();
                lemma_pow128_mono(1, 9 - i);
            }
        } else {
            assert(i < 9);
            lemma_dec_varint_at_bound(s.drop_first(), i + 1);
            match spec_dec_varint_at(s.drop_first(), i + 1) {
                Ok((v, n)) => {
                    assert(128 * v <= 128 * (2 * pow128(8 - i) - 1));
                    assert((b - 128) + 128 * v <= 127 + 128 * (2 * pow128(8 - i) - 1));
                },
                Err(_) => {},
            }
        }
    }
}

/// A varint decode fails only for want of input or a 64-bit overflow.
pub proof fn lemma_dec_varint_err_kind(s: Seq<u8>, i: int)
    ensures
        spec_dec_varint_at(s, i) matches Err(w) ==> (w is Eof || w is VarInt),
    decreases s.len(),
{
    if s.len() > 0 {
        let b = s[0];
        if !(i == 9 && b >= 2) && b >= 128 {
            lemma_dec_varint_err_kind(s.drop_first(), i + 1);
        }
    }
}

/// Decoding inverts encoding: parsing the encoding of `n` (with anything
/// after it) gives back exactly `n`, consuming exactly the encoded bytes.
/// The helper is generalized over the starting group index.
proof fn lemma_dec_enc_varint_at(n: u64, i: int, rest: Seq<u8>)
    requires
        0 <= i <= 9,
        n <= 2 * pow128(9 - i) - 1,
    ensures
        spec_dec_varint_at(spec_varint(n) + rest, i) == Ok::<(u64, int), WireError>(
            (n, spec_varint_len(n)),
        ),
    decreases n,
{
    let s = spec_varint(n) + rest;
    if n < 128 {
        assert(s[0] == n as u8);
    } else {
        assert(i < 9) by {
            lemma_pow128_bounds(9 - i);
        }
        let b = (n % 128 + 128) as u8;
        assert(s[0] == b);
        let m = (n / 128) as u64;
        assert(m <= 2 * pow128(9 - (i + 1)) - 1);
        lemma_dec_enc_varint_at(m, i + 1, rest);
        assert(s.drop_first() =~= spec_varint(m) + rest);
        assert((b - 128) + 128 * m == n);
    }
}

/// LEB128 round trip: decoding the encoding of any `n`, with any suffix
/// behind it, yields `n` and consumes exactly its encoded length. The length
/// is the number of seven-bit groups `n` needs: the least `k` with
/// `n < 128^k` — that is, the bit length of `n` divided by seven, rounded up,
/// and one byte for `n == 0`.
pub proof fn lemma_varint_round_trip(n: u64, rest: Seq<u8>)
    ensures
        spec_dec_varint(spec_varint(n) + rest) == Ok::<(u64, int), WireError>(
            (n, spec_varint_len(n)),
        ),
        1 <= spec_varint_len(n) <= 10,
        n < pow128(spec_varint_len(n)),
        spec_varint_len(n) > 1 ==> n >= pow128(spec_varint_len(n) - 1),
{
    assert(pow128(9) == 0x8000_0000_0000_0000) by {
        lemma_pow128_expand();
    }
    lemma_dec_enc_varint_at(n, 0, rest);
    lemma_varint_len_tight(n);
}

proof fn lemma_pow128_expand()
    ensures
        pow128(0) == 1,
        pow128(1) == 128,
        pow128(5) == 0x8_0000_0000,
        pow128(8) == 0x100_0000_0000_0000,
        pow128(9) == 0x8000_0000_0000_0000,
{
    reveal_with_fuel(pow128, 11);
}

/// Every value encodes within ten bytes, and a 32-bit value within five.
pub proof fn lemma_varint_len_small(n: u64)
    ensures
        1 <= spec_varint_len(n) <= 10,
        n <= u32::MAX ==> spec_varint_len(n) <= 5,
{
    lemma_varint_len_tight(n);
    if n <= u32::MAX && spec_varint_len(n) > 5 {
        assert(pow128(spec_varint_len(n) - 1) >= pow128(5)) by {
            lemma_pow128_mono(5, spec_varint_len(n) - 1);
        }
        assert(pow128(5) == 0x8_0000_0000) by {
            reveal_with_fuel(pow128, 6);
        }
    }
}

proof fn lemma_varint_len_tight(n: u64)
    ensures
        1 <= spec_varint_len(n) <= 10,
        n < pow128(spec_varint_len(n)),
        spec_varint_len(n) > 1 ==> n >= pow128(spec_varint_len(n) - 1),
    decreases n,
{
    lemma_pow128_expand();
    if n >= 128 {
        lemma_varint_len_tight((n / 128) as u64);
        let k = spec_varint_len((n / 128) as u64);
        assert(spec_varint_len(n) == k + 1);
        assert(n / 128 <= pow128(k) - 1);
        assert(n <= 128 * (n / 128) + 127);
        assert(k + 1 <= 10) by {
            if k == 10 {
                lemma_pow128_expand();
                assert(n / 128 >= pow128(9));
            }
        }
    }
}

/// Reads a LEB128-encoded 64-bit integer at the cursor, as
/// [`spec_dec_varint`] describes: `Ok` exactly when the specification
/// decodes, with the same value and the same bytes consumed. On an error the
/// bytes read so far stay consumed, so the caller can report an offset.
#[verifier::loop_isolation(false)]
pub fn read_u64(buf: &[u8], pos: &mut usize) -> (r: Result<u64, Error>)
    requires
        *old(pos) <= buf@.len(),
    ensures
        *old(pos) <= *final(pos) <= buf@.len(),
        *final(pos) <= *old(pos) + 10,
        match r {
            Ok(v) => *final(pos) > *old(pos) && spec_dec_varint(buf@.skip(*old(pos) as int))
                == Ok::<(u64, int), WireError>((v, *final(pos) - *old(pos))),
            Err(e) => {
                &&& spec_dec_varint(buf@.skip(*old(pos) as int)) matches Err(w)
                    && matches_wire_error(e, w)
                &&& (e is Eof ==> e == Error::Eof(UnexpectedEof { size: 1 }))
                &&& (e is VarInt ==> e == Error::VarInt(VarIntError))
                &&& (e is Eof || e is VarInt)
            },
        },
{
    let ghost start = *pos;
    let ghost s0 = buf@.skip(*pos as int);
    let mut result: u64 = 0;
    let mut mult: u64 = 1;
    let mut i: u8 = 0;
    proof {
        lemma_dec_varint_at_bound(s0, 0);
        lemma_pow128_expand();
    }
    loop
        invariant
            start <= *pos <= buf@.len(),
            i <= 9,
            *pos == start + i,
            mult == pow128(i as int),
            result < mult,
            s0 == buf@.skip(start as int),
            (match spec_dec_varint_at(buf@.skip(*pos as int), i as int) {
                Ok((v, n)) => spec_dec_varint_at(s0, 0) == Ok::<(u64, int), WireError>(
                    (
                        (result + v * mult) as u64,
                        i + n,
                    ),
                ) && result + v * mult <= u64::MAX,
                Err(w) => spec_dec_varint_at(s0, 0) == Err::<(u64, int), WireError>(w),
            }),
        decreases 10 - i,
    {
        proof {
            lemma_pow128_bounds(i as int);
        }
        let ghost si = buf@.skip(*pos as int);
        let b = match crate::utils::read_byte(buf, pos) {
            Ok(b) => b,
            Err(e) => {
                proof {
                    assert(si.len() == 0);
                }
                return Err(e);
            },
        };
        proof {
            assert(si[0] == b);
            assert(si.drop_first() =~= buf@.skip(*pos as int));
            lemma_dec_varint_at_bound(si, i as int);
        }
        if i == 9 && b >= 2 {
            return Err(Error::VarInt(VarIntError));
        }
        if b < 128 {
            proof {
                assert(spec_dec_varint_at(si, i as int) == Ok::<(u64, int), WireError>(
                    (b as u64, 1),
                ));
            }
            return Ok(result + (b as u64) * mult);
        }
        // A continuation bit on the tenth group would have been refused
        // above, so at most eight groups precede this one.
        assert(i <= 8);
        proof {
            lemma_dec_varint_at_bound(si.drop_first(), i as int + 1);
            assert(((b - 128) as int) * (mult as int) <= 127 * (mult as int))
                by (nonlinear_arith)
                requires
                    128 <= b <= 255,
                    mult >= 1,
            ;
            match spec_dec_varint_at(si.drop_first(), i as int + 1) {
                Ok((v, n)) => {
                    assert(((b - 128) + 128 * v) * (mult as int) == ((b - 128) as int) * (
                    mult as int) + v * (128 * (mult as int))) by (nonlinear_arith);
                },
                Err(_) => {},
            }
        }
        result = result + ((b - 128) as u64) * mult;
        proof {
            lemma_pow128_bounds(i as int + 1);
        }
        mult = mult * 128;
        i = i + 1;
    }
}

/// A byte sink for LEB128 writing: a current byte sequence and the room left
/// for more.
pub trait LEB128 {
    /// The bytes written so far.
    spec fn bytes(&self) -> Seq<u8>;

    /// How many more bytes may be written.
    spec fn room(&self) -> int;

    /// Appends one byte.
    fn write_byte(&mut self, byte: u8)
        requires
            old(self).room() >= 1,
        ensures
            final(self).bytes() == old(self).bytes().push(byte),
            final(self).room() == old(self).room() - 1,
    ;

    /// Appends the LEB128 encoding of a 32-bit value, which takes at most
    /// five bytes.
    fn write_u32(&mut self, num: u32)
        requires
            old(self).room() >= 5,
        ensures
            final(self).bytes() == old(self).bytes() + spec_varint(num as u64),
            final(self).room() >= old(self).room() - 5,
    ;

    /// Appends the LEB128 encoding of a 64-bit value, which takes at most
    /// ten bytes.
    fn write_u64(&mut self, num: u64)
        requires
            old(self).room() >= 10,
        ensures
            final(self).bytes() == old(self).bytes() + spec_varint(num),
            final(self).room() >= old(self).room() - 10,
    ;
}

/// A small fixed-capacity buffer to assemble one LEB128 value in.
#[derive(Debug)]
pub struct Leb128Buf<const N: usize> {
    buf: Vec<u8>,
}

impl<const N: usize> Leb128Buf<N> {
    pub fn new() -> (r: Self)
        ensures
            r.bytes() == Seq::<u8>::empty(),
            r.room() == N as int,
    {
        Leb128Buf { buf: Vec::with_capacity(N) }
    }

    pub fn as_bytes(&self) -> (r: &[u8])
        ensures
            r@ == self.bytes(),
    {
        self.buf.as_slice()
    }
}

impl<const N: usize> LEB128 for Leb128Buf<N> {
    closed spec fn bytes(&self) -> Seq<u8> {
        self.buf@
    }

    closed spec fn room(&self) -> int {
        N - self.buf@.len()
    }

    fn write_byte(&mut self, byte: u8) {
        self.buf.push(byte);
    }

    fn write_u32(&mut self, num: u32) {
        proof {
            lemma_varint_len_small(num as u64);
        }
        self.push_varint(num as u64);
    }

    fn write_u64(&mut self, num: u64) {
        proof {
            lemma_varint_len_small(num);
        }
        self.push_varint(num);
    }
}

impl<const N: usize> Leb128Buf<N> {
    /// Appends the LEB128 encoding of `num`, given exactly the room it needs.
    #[verifier::loop_isolation(false)]
    fn push_varint(&mut self, num: u64)
        requires
            old(self).room() >= spec_varint_len(num),
        ensures
            final(self).bytes() == old(self).bytes() + spec_varint(num),
            final(self).room() == old(self).room() - spec_varint_len(num),
    {
        let ghost prefix = self.buf@;
        let ghost n0 = num;
        let mut num = num;
        loop
            invariant
                self.buf@ + spec_varint(num) == prefix + spec_varint(n0),
                self.buf@.len() + spec_varint_len(num) == prefix.len() + spec_varint_len(n0),
                prefix.len() + spec_varint_len(n0) <= N,
                1 <= spec_varint_len(num),
            decreases num,
        {
            if num < 128 {
                self.buf.push(num as u8);
                proof {
                    assert(self.buf@ =~= prefix + spec_varint(n0));
                }
                return ;
            }
            let ghost before = self.buf@;
            self.buf.push((num % 128 + 128) as u8);
            proof {
                assert(self.buf@ + spec_varint((num / 128) as u64) =~= before + spec_varint(num));
            }
            num = num / 128;
        }
    }
}

} // verus!

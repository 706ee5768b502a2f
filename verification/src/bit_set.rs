//! A packed-bit boolean set over byte storage, least-significant-bit first
//! within each byte. Boolean lists travel on the wire in this form.

use vstd::prelude::*;
use vstd::slice::slice_to_vec;

use crate::utils::spec_bool_packed_len;

verus! {

/// Whether bit `k` of a storage byte is set.
pub open spec fn nth_bit(slot: u8, k: int) -> bool
    recommends
        0 <= k < 8,
{
    slot & (1u8 << (k as u8)) != 0
}

/// Whether the bit for index `i` is set in the given storage. An index beyond
/// the storage reads as unset.
pub open spec fn spec_has(slots: Seq<u8>, i: int) -> bool {
    0 <= i && i / 8 < slots.len() && nth_bit(slots[i / 8], i % 8)
}

/// `1` if `0 <= i < b.len()` and `b[i]`, else `0`.
pub open spec fn spec_bool_bit(b: Seq<bool>, i: int) -> u8 {
    if 0 <= i < b.len() && b[i] {
        1
    } else {
        0
    }
}

/// The first `j` bits at `base`, packed least-significant-bit first.
pub open spec fn spec_pack_bits(b: Seq<bool>, base: int, j: int) -> u8
    decreases j,
{
    if j <= 0 {
        0
    } else {
        (spec_pack_bits(b, base, j - 1) + spec_bool_bit(b, base + j - 1) * spec_bit_weight(
            j - 1,
        )) as u8
    }
}

/// `2^k` for a bit position within a byte.
pub open spec fn spec_bit_weight(k: int) -> u8 {
    if k == 0 {
        1
    } else if k == 1 {
        2
    } else if k == 2 {
        4
    } else if k == 3 {
        8
    } else if k == 4 {
        16
    } else if k == 5 {
        32
    } else if k == 6 {
        64
    } else {
        128
    }
}

/// The storage byte holding bits `base .. base + 8` of a boolean sequence,
/// with bits beyond the sequence left unset.
pub open spec fn spec_pack_byte(b: Seq<bool>, base: int) -> u8 {
    spec_pack_bits(b, base, 8)
}

/// A boolean sequence packed into bytes, eight to a byte, the final byte
/// padded with unset bits.
pub open spec fn spec_pack(b: Seq<bool>) -> Seq<u8> {
    Seq::new(spec_bool_packed_len(b.len() as int) as nat, |k: int| spec_pack_byte(b, 8 * k))
}

/// The `len` booleans held in packed storage.
pub open spec fn spec_unpack(slots: Seq<u8>, len: int) -> Seq<bool> {
    Seq::new(len as nat, |i: int| spec_has(slots, i))
}

/// The table of byte bit weights agrees with shifting.
proof fn lemma_bit_weight_shift(k: int)
    requires
        0 <= k < 8,
    ensures
        spec_bit_weight(k) == (1u8 << (k as u8)),
{
    let kk = k as u8;
    assert(kk < 8 ==> (1u8 << kk) == (if kk == 0 {
        1u8
    } else if kk == 1 {
        2u8
    } else if kk == 2 {
        4u8
    } else if kk == 3 {
        8u8
    } else if kk == 4 {
        16u8
    } else if kk == 5 {
        32u8
    } else if kk == 6 {
        64u8
    } else {
        128u8
    })) by (bit_vector);
}

/// The first `j` packed bits of a byte agree with the booleans they came
/// from, and the bits above `j` are unset.
proof fn lemma_pack_bits(b: Seq<bool>, base: int, j: int)
    requires
        0 <= j <= 8,
    ensures
        forall|k: int|
            0 <= k < 8 ==> nth_bit(spec_pack_bits(b, base, j), k) == (k < j && spec_bool_bit(
                b,
                base + k,
            ) == 1),
    decreases j,
{
    if j == 0 {
        assert forall|k: int| 0 <= k < 8 implies !nth_bit(spec_pack_bits(b, base, j), k) by {
            let kk = k as u8;
            assert((0u8 & (1u8 << kk)) == 0) by (bit_vector);
        }
    } else {
        lemma_pack_bits(b, base, j - 1);
        let prev = spec_pack_bits(b, base, j - 1);
        let bit = spec_bool_bit(b, base + j - 1);
        let w = spec_bit_weight(j - 1);
        lemma_bit_weight_shift(j - 1);
        let jj = (j - 1) as u8;
        assert(!nth_bit(prev, j - 1));
        assert forall|k: int| 0 <= k < 8 implies nth_bit(spec_pack_bits(b, base, j), k) == (k < j
            && spec_bool_bit(b, base + k) == 1) by {
            let kk = k as u8;
            assert(nth_bit(spec_pack_bits(b, base, j - 1), k) == (k < j - 1 && spec_bool_bit(
                b,
                base + k,
            ) == 1));
            assert(spec_pack_bits(b, base, j) == (prev + bit * w) as u8);
            if bit == 1 {
                assert((prev & (1u8 << jj) == 0 && jj < 8 && kk < 8 && w == (1u8 << jj)) ==> ((((
                prev + w) as u8) & (1u8 << kk)) != 0) == (((prev & (1u8 << kk)) != 0) || kk == jj))
                    by (bit_vector);
                assert((kk < 8 && kk == jj) ==> ((1u8 << kk) == (1u8 << jj))) by (bit_vector);
            } else {
                assert(spec_pack_bits(b, base, j) == prev);
            }
        }
    }
}

/// Packing booleans into bytes and reading them back is the identity; the
/// padding bits of a partially used final byte stay unset.
pub proof fn lemma_pack_round_trip(b: Seq<bool>)
    ensures
        spec_unpack(spec_pack(b), b.len() as int) =~= b,
        forall|i: int|
            b.len() <= i < 8 * spec_pack(b).len() ==> !(#[trigger] spec_has(spec_pack(b), i)),
{
    assert forall|i: int|
        #![trigger spec_has(spec_pack(b), i)]
        0 <= i < 8 * spec_pack(b).len() implies spec_has(spec_pack(b), i) == (i < b.len()
        && b[i]) by {
        lemma_pack_bits(b, 8 * (i / 8), 8);
        assert(nth_bit(spec_pack_bits(b, 8 * (i / 8), 8), i % 8) == (i % 8 < 8 && spec_bool_bit(
            b,
            8 * (i / 8) + i % 8,
        ) == 1));
        assert(spec_pack(b)[i / 8] == spec_pack_byte(b, 8 * (i / 8)));
        assert(8 * (i / 8) + i % 8 == i);
    }
}

/// A packed-bit boolean set: a logical capacity and its byte storage. The
/// storage normally holds `capacity.div_ceil(8)` bytes; a set decoded from
/// the wire keeps exactly the bytes it was given.
#[derive(Debug, Clone, PartialEq, Eq)]
pub struct BitSet {
    pub len: usize,
    pub slots: Vec<u8>,
}

impl BitSet {
    /// The storage matches the capacity: one byte per eight booleans.
    pub open spec fn wf(&self) -> bool {
        self.slots@.len() == spec_bool_packed_len(self.len as int)
    }

    /// The logical capacity of the set.
    pub fn capacity(&self) -> (r: usize)
        ensures
            r == self.len,
    {
        self.len
    }

    /// Whether no bit at all is set in the storage.
    pub fn is_empty(&self) -> (r: bool)
        ensures
            r == (forall|k: int| 0 <= k < self.slots@.len() ==> self.slots@[k] == 0),
    {
        let mut i: usize = 0;
        while i < self.slots.len()
            invariant
                i <= self.slots@.len(),
                forall|k: int| 0 <= k < i ==> self.slots@[k] == 0,
            decreases self.slots@.len() - i,
        {
            if self.slots[i] != 0 {
                return false;
            }
            i = i + 1;
        }
        true
    }

    /// Whether the bit for `index` is set. An index at or beyond the
    /// capacity reads as unset — also inside storage slack, where a set
    /// decoded from the wire may hold stray bits — rather than failing.
    pub fn has(&self, index: usize) -> (r: bool)
        ensures
            r == (index < self.len && spec_has(self.slots@, index as int)),
    {
        if index >= self.len {
            return false;
        }
        let slot_idx = index / 8;
        if slot_idx < self.slots.len() {
            self.slots[slot_idx] & (1u8 << ((index % 8) as u8)) != 0
        } else {
            false
        }
    }

    /// The packed storage bytes.
    pub fn as_packed_bytes(&self) -> (r: &[u8])
        ensures
            r@ == self.slots@,
    {
        self.slots.as_slice()
    }

    /// Unsets every bit, keeping the capacity and the storage size.
    pub fn clear(&mut self)
        ensures
            final(self).len == old(self).len,
            final(self).slots@.len() == old(self).slots@.len(),
            forall|k: int| 0 <= k < final(self).slots@.len() ==> final(self).slots@[k] == 0,
    {
        let n = self.slots.len();
        let mut i: usize = 0;
        while i < n
            invariant
                i <= n,
                self.len == old(self).len,
                self.slots@.len() == n == old(self).slots@.len(),
                forall|k: int| 0 <= k < i ==> self.slots@[k] == 0,
            decreases n - i,
        {
            self.slots[i] = 0;
            i = i + 1;
        }
    }

    /// Sets the bit for `index` and reports whether it was set before. An
    /// index beyond the storage is a recoverable error carrying the
    /// out-of-range slot index, and mutates nothing.
    pub fn insert(&mut self, index: usize) -> (r: Result<bool, usize>)
        ensures
            match r {
                Ok(old_bit) => {
                    &&& old_bit == spec_has(old(self).slots@, index as int)
                    &&& final(self).len == old(self).len
                    &&& final(self).slots@.len() == old(self).slots@.len()
                    &&& forall|k: int|
                        0 <= k < old(self).slots@.len() && k != index as int / 8
                            ==> #[trigger] final(self).slots@[k] == old(self).slots@[k]
                    &&& forall|j: int|
                        0 <= j ==> spec_has(final(self).slots@, j) == (j == index as int
                            || spec_has(old(self).slots@, j))
                },
                Err(idx) => {
                    &&& *final(self) == *old(self)
                    &&& idx == index as int / 8
                    &&& idx >= old(self).slots@.len()
                },
            },
    {
        let slot_idx = index / 8;
        if slot_idx >= self.slots.len() {
            return Err(slot_idx);
        }
        let k = (index % 8) as u8;
        let slot = self.slots[slot_idx];
        let old_bit = slot & (1u8 << k) != 0;
        self.slots[slot_idx] = slot | (1u8 << k);
        proof {
            assert forall|j: int| 0 <= j implies spec_has(self.slots@, j) == (j == index as int
                || spec_has(old(self).slots@, j)) by {
                let jj = (j % 8) as u8;
                assert(k < 8 && jj < 8 ==> ((slot | (1u8 << k)) & (1u8 << jj) != 0) == ((jj == k)
                    || (slot & (1u8 << jj) != 0))) by (bit_vector);
                assert(index as int / 8 * 8 + index as int % 8 == index as int);
                assert(j / 8 * 8 + j % 8 == j);
            }
        }
        Ok(old_bit)
    }

    /// Unsets the bit for `index` and reports whether it was set before. An
    /// index beyond the storage yields `None` and mutates nothing.
    pub fn remove(&mut self, index: usize) -> (r: Option<bool>)
        ensures
            match r {
                Some(old_bit) => {
                    &&& index as int / 8 < old(self).slots@.len()
                    &&& old_bit == spec_has(old(self).slots@, index as int)
                    &&& final(self).len == old(self).len
                    &&& final(self).slots@.len() == old(self).slots@.len()
                    &&& forall|k: int|
                        0 <= k < old(self).slots@.len() && k != index as int / 8
                            ==> #[trigger] final(self).slots@[k] == old(self).slots@[k]
                    &&& forall|j: int|
                        0 <= j ==> spec_has(final(self).slots@, j) == (j != index as int
                            && spec_has(old(self).slots@, j))
                },
                None => {
                    &&& *final(self) == *old(self)
                    &&& index as int / 8 >= old(self).slots@.len()
                },
            },
    {
        let slot_idx = index / 8;
        if slot_idx >= self.slots.len() {
            return None;
        }
        let k = (index % 8) as u8;
        let slot = self.slots[slot_idx];
        let old_bit = slot & (1u8 << k) != 0;
        self.slots[slot_idx] = slot & !(1u8 << k);
        proof {
            assert forall|j: int| 0 <= j implies spec_has(self.slots@, j) == (j != index as int
                && spec_has(old(self).slots@, j)) by {
                let jj = (j % 8) as u8;
                assert(k < 8 && jj < 8 ==> ((slot & !(1u8 << k)) & (1u8 << jj) != 0) == ((jj != k)
                    && (slot & (1u8 << jj) != 0))) by (bit_vector);
                assert(index as int / 8 * 8 + index as int % 8 == index as int);
                assert(j / 8 * 8 + j % 8 == j);
            }
        }
        Some(old_bit)
    }

    /// A fresh set of the given capacity, all bits unset.
    pub fn new(len: usize) -> (r: Self)
        ensures
            r.len == len,
            r.wf(),
            forall|k: int| 0 <= k < r.slots@.len() ==> r.slots@[k] == 0,
            forall|i: int| !spec_has(r.slots@, i),
    {
        let slots = vec_of_zeros(crate::utils::bool_packed_len(len));
        let r = BitSet { len, slots };
        proof {
            assert forall|i: int| !spec_has(r.slots@, i) by {
                if 0 <= i && i / 8 < r.slots@.len() {
                    assert(r.slots@[i / 8] == 0);
                    let jj = (i % 8) as u8;
                    assert(jj < 8 ==> (0u8 & (1u8 << jj)) == 0) by (bit_vector);
                }
            }
        }
        r
    }

    /// A set viewing pre-existing packed bytes, with one capacity slot per
    /// stored bit.
    pub fn from_packed(bytes: Vec<u8>) -> (r: Self)
        requires
            bytes@.len() * 8 <= usize::MAX,
        ensures
            r.len == bytes@.len() * 8,
            r.slots@ == bytes@,
            r.wf(),
    {
        let len = bytes.len() * 8;
        BitSet { len, slots: bytes }
    }

    /// A set of capacity `len` over a copy of a packed byte region, as when a
    /// boolean list is decoded from the wire.
    pub fn from_parts(len: usize, packed: &[u8]) -> (r: Self)
        ensures
            r.len == len,
            r.slots@ == packed@,
    {
        BitSet { len, slots: slice_to_vec(packed) }
    }

    /// Packs a boolean sequence, one bit per value, into a fresh set whose
    /// storage is exactly [`spec_pack`] of it.
    pub fn from_bools(bools: &[bool]) -> (r: Self)
        ensures
            r.len == bools@.len(),
            r.slots@ == spec_pack(bools@),
            r.wf(),
    {
        let n = bools.len();
        let packed_len = crate::utils::bool_packed_len(n);
        let mut slots: Vec<u8> = Vec::with_capacity(packed_len);
        let mut k: usize = 0;
        while k < packed_len
            invariant
                k <= packed_len,
                packed_len == spec_bool_packed_len(n as int),
                n == bools@.len(),
                slots@.len() == k,
                forall|m: int| 0 <= m < k ==> slots@[m] == spec_pack_byte(bools@, 8 * m),
            decreases packed_len - k,
        {
            assert(8 * k < n);
            let base = 8 * k;
            let mut byte: u8 = 0;
            let mut j: usize = 0;
            while j < 8
                invariant
                    j <= 8,
                    k < packed_len,
                    base == 8 * k,
                    base < n,
                    packed_len == spec_bool_packed_len(n as int),
                    n == bools@.len(),
                    byte == spec_pack_bits(bools@, base as int, j as int),
                decreases 8 - j,
            {
                proof {
                    lemma_pack_bits_bound(bools@, base as int, j as int);
                }
                let ghost byte0 = byte;
                let ghost j0 = j as int;
                if j < n - base && bools[base + j] {
                    proof {
                        assert(spec_bool_bit(bools@, base as int + j0) == 1);
                    }
                    byte = byte + bit_weight(j);
                    proof {
                        assert(byte == byte0 + spec_bit_weight(j0));
                    }
                } else {
                    proof {
                        assert(spec_bool_bit(bools@, base as int + j0) == 0);
                    }
                }
                j = j + 1;
                proof {
                    assert(byte == (byte0 + spec_bool_bit(bools@, base as int + j0)
                        * spec_bit_weight(j0)) as u8);
                    assert(spec_pack_bits(bools@, base as int, j0 + 1) == (byte0 + spec_bool_bit(
                        bools@,
                        base as int + j0,
                    ) * spec_bit_weight(j0)) as u8);
                    assert(byte == spec_pack_bits(bools@, base as int, j as int));
                }
            }
            proof {
                assert(byte == spec_pack_bits(bools@, 8 * (k as int), 8));
            }
            slots.push(byte);
            k = k + 1;
        }
        proof {
            assert(slots@ =~= spec_pack(bools@));
        }
        BitSet { len: n, slots }
    }

    /// Reads the set back out as one boolean per capacity slot.
    pub fn to_bools(&self) -> (r: Vec<bool>)
        ensures
            r@ =~= spec_unpack(self.slots@, self.len as int),
    {
        let mut out: Vec<bool> = Vec::with_capacity(self.len);
        let mut i: usize = 0;
        while i < self.len
            invariant
                i <= self.len,
                out@.len() == i,
                forall|m: int| 0 <= m < i ==> out@[m] == spec_has(self.slots@, m),
            decreases self.len - i,
        {
            out.push(self.has(i));
            i = i + 1;
        }
        out
    }
}

/// The boolean round trip of the packed representation: a sequence packed
/// by [`BitSet::from_bools`] reads back exactly through [`BitSet::to_bools`],
/// including a partially filled final byte.
pub proof fn lemma_bools_round_trip(b: Seq<bool>)
    ensures
        spec_unpack(spec_pack(b), b.len() as int) == b,
{
    lemma_pack_round_trip(b);
}

/// An index within a set's capacity always lands inside well-formed
/// storage, so inserting at `i < capacity` never reports an out-of-range
/// slot, and a following read of the same bit sees it set.
pub proof fn lemma_capacity_within_storage(len: int, i: int)
    requires
        0 <= i < len,
    ensures
        i / 8 < spec_bool_packed_len(len),
{
}

/// The partial packed byte stays below the weight of its next bit.
proof fn lemma_pack_bits_bound(b: Seq<bool>, base: int, j: int)
    requires
        0 <= j <= 7,
    ensures
        spec_pack_bits(b, base, j) < spec_bit_weight(j),
    decreases j,
{
    if j > 0 {
        lemma_pack_bits_bound(b, base, j - 1);
    }
}

/// `2^k` as a byte, for a bit position within a byte.
fn bit_weight(k: usize) -> (r: u8)
    requires
        k < 8,
    ensures
        r == spec_bit_weight(k as int),
{
    match k {
        0 => 1,
        1 => 2,
        2 => 4,
        3 => 8,
        4 => 16,
        5 => 32,
        6 => 64,
        _ => 128,
    }
}

/// A vector of `n` zero bytes.
fn vec_of_zeros(n: usize) -> (r: Vec<u8>)
    ensures
        r@.len() == n,
        forall|k: int| 0 <= k < n ==> r@[k] == 0,
{
    let mut out: Vec<u8> = Vec::with_capacity(n);
    let mut i: usize = 0;
    while i < n
        invariant
            i <= n,
            out@.len() == i,
            forall|k: int| 0 <= k < i ==> out@[k] == 0,
        decreases n - i,
    {
        out.push(0);
        i = i + 1;
    }
    out
}

} // verus!

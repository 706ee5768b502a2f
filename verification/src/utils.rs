//! Bounds-checked cursor reads over a borrowed byte buffer, and small value
//! conversions. The cursor is a read position that a caller owns; no byte is
//! consumed when a read fails.

use vstd::prelude::*;
use vstd::slice::slice_subrange;
use vstd::std_specs::convert::TryFromSpec;

use crate::errors::{Error, InvalidBoolean, UnexpectedEof};

verus! {

/// Reads one byte and advances the position; fails without moving when the
/// buffer is exhausted.
pub fn read_byte(buf: &[u8], pos: &mut usize) -> (r: Result<u8, Error>)
    requires
        *old(pos) <= buf@.len(),
    ensures
        match r {
            Ok(b) => *final(pos) == *old(pos) + 1 && *final(pos) <= buf@.len() && b == buf@[*old(
                pos,
            ) as int],
            Err(e) => *final(pos) == *old(pos) && *old(pos) == buf@.len() && e == Error::Eof(
                UnexpectedEof { size: 1 },
            ),
        },
{
    if *pos < buf.len() {
        let b = buf[*pos];
        *pos = *pos + 1;
        Ok(b)
    } else {
        Err(Error::Eof(UnexpectedEof { size: 1 }))
    }
}

/// Reads `len` bytes as a borrowed slice of the input and advances the
/// position; fails without moving when fewer than `len` bytes remain.
pub fn read_bytes<'a>(buf: &'a [u8], pos: &mut usize, len: usize) -> (r: Result<&'a [u8], Error>)
    requires
        *old(pos) <= buf@.len(),
    ensures
        match r {
            Ok(s) => *final(pos) == *old(pos) + len && *final(pos) <= buf@.len() && s@ == buf@
                .subrange(*old(pos) as int, *old(pos) + len),
            Err(e) => *final(pos) == *old(pos) && *old(pos) + len > buf@.len() && e == Error::Eof(
                UnexpectedEof { size: (*old(pos) + len - buf@.len()) as usize },
            ),
        },
{
    let blen: usize = buf.len();
    if len <= blen - *pos {
        let s = slice_subrange(buf, *pos, *pos + len);
        *pos = *pos + len;
        Ok(s)
    } else {
        Err(Error::Eof(UnexpectedEof { size: len - (blen - *pos) }))
    }
}

/// Reads `N` bytes into a fixed-size buffer and advances the position; fails
/// without moving when fewer than `N` bytes remain.
pub fn read_buf<const N: usize>(buf: &[u8], pos: &mut usize) -> (r: Result<[u8; N], Error>)
    requires
        *old(pos) <= buf@.len(),
    ensures
        match r {
            Ok(s) => *final(pos) == *old(pos) + N && *final(pos) <= buf@.len() && s@ == buf@
                .subrange(*old(pos) as int, *old(pos) + N),
            Err(e) => *final(pos) == *old(pos) && *old(pos) + N > buf@.len() && e == Error::Eof(
                UnexpectedEof { size: (*old(pos) + N - buf@.len()) as usize },
            ),
        },
{
    let blen: usize = buf.len();
    if N <= blen - *pos {
        let mut out: [u8; N] = [0; N];
        let mut i: usize = 0;
        while i < N
            invariant
                i <= N,
                *pos + N <= blen,
                blen == buf@.len(),
                out@.len() == N,
                forall|j: int| 0 <= j < i ==> out@[j] == buf@[*pos + j],
            decreases N - i,
        {
            out[i] = buf[*pos + i];
            i = i + 1;
        }
        proof {
            assert(out@ =~= buf@.subrange(*pos as int, *pos + N));
        }
        *pos = *pos + N;
        Ok(out)
    } else {
        Err(Error::Eof(UnexpectedEof { size: N - (blen - *pos) }))
    }
}

/// The signed reinterpretation of a byte.
pub open spec fn spec_i8_of_byte(b: u8) -> i8 {
    if b < 128 {
        b as i8
    } else {
        (b - 256) as i8
    }
}

/// The byte holding a signed value.
pub open spec fn spec_byte_of_i8(v: i8) -> u8 {
    if v >= 0 {
        v as u8
    } else {
        (v + 256) as u8
    }
}

/// Reinterprets a byte as a signed integer, keeping its bit pattern.
pub fn i8_from_byte(b: u8) -> (r: i8)
    ensures
        r == spec_i8_of_byte(b),
        spec_byte_of_i8(r) == b,
{
    if b < 128 {
        b as i8
    } else {
        ((b as i16) - 256) as i8
    }
}

/// Reinterprets a signed integer as a byte, keeping its bit pattern.
pub fn byte_from_i8(v: i8) -> (r: u8)
    ensures
        r == spec_byte_of_i8(v),
        spec_i8_of_byte(r) == v,
{
    if v >= 0 {
        v as u8
    } else {
        ((v as i16) + 256) as u8
    }
}

/// The signed reinterpretation of a byte slice, element for element.
pub fn i8_vec_from(bytes: &[u8]) -> (r: Vec<i8>)
    ensures
        r@.len() == bytes@.len(),
        forall|j: int| 0 <= j < r@.len() ==> r@[j] == spec_i8_of_byte(bytes@[j]),
{
    let mut out: Vec<i8> = Vec::with_capacity(bytes.len());
    let mut i: usize = 0;
    while i < bytes.len()
        invariant
            i <= bytes@.len(),
            out@.len() == i,
            forall|j: int| 0 <= j < i ==> out@[j] == spec_i8_of_byte(bytes@[j]),
        decreases bytes@.len() - i,
    {
        out.push(i8_from_byte(bytes[i]));
        i = i + 1;
    }
    out
}

/// The unsigned reinterpretation of a signed slice, element for element.
pub fn u8_vec_from(data: &[i8]) -> (r: Vec<u8>)
    ensures
        r@.len() == data@.len(),
        forall|j: int| 0 <= j < r@.len() ==> r@[j] == spec_byte_of_i8(data@[j]),
{
    let mut out: Vec<u8> = Vec::with_capacity(data.len());
    let mut i: usize = 0;
    while i < data.len()
        invariant
            i <= data@.len(),
            out@.len() == i,
            forall|j: int| 0 <= j < i ==> out@[j] == spec_byte_of_i8(data@[j]),
        decreases data@.len() - i,
    {
        out.push(byte_from_i8(data[i]));
        i = i + 1;
    }
    out
}

/// Interprets a payload byte as a boolean: `0` is `false`, `1` is `true`, and
/// anything else is an [`InvalidBoolean`] error carrying the byte.
pub fn bool_from(byte: u8) -> (r: Result<bool, Error>)
    ensures
        byte == 0 ==> r == Ok::<bool, Error>(false),
        byte == 1 ==> r == Ok::<bool, Error>(true),
        byte >= 2 ==> r == Err::<bool, Error>(Error::InvalidBoolean(InvalidBoolean { byte })),
{
    match byte {
        0 => Ok(false),
        1 => Ok(true),
        _ => Err(Error::InvalidBoolean(InvalidBoolean { byte })),
    }
}

/// The number of bytes that hold `len` packed booleans.
pub open spec fn spec_bool_packed_len(len: int) -> int {
    (len + 7) / 8
}

/// The number of bytes that hold `len` packed booleans, eight to a byte with
/// a partially used final byte.
pub fn bool_packed_len(len: usize) -> (r: usize)
    ensures
        r == spec_bool_packed_len(len as int),
{
    len / 8 + if len % 8 == 0 {
        0
    } else {
        1
    }
}

/// Converts a slice element by element into a vector of a narrower or wider
/// integer type, failing on the first element the target cannot hold. The
/// stated behaviour holds for target types whose `TryFrom` follows its
/// specification.
pub fn try_convert_into_vec<T: Copy, M: TryFrom<T>>(items: &[T]) -> (r: Result<Vec<M>, M::Error>)
    ensures
        M::obeys_try_from_spec() ==> match r {
            Ok(out) => out@.len() == items@.len() && forall|i: int|
                0 <= i < items@.len() ==> M::try_from_spec(items@[i]) == Ok::<M, M::Error>(
                    #[trigger] out@[i],
                ),
            Err(_) => exists|i: int|
                0 <= i < items@.len() && (#[trigger] M::try_from_spec(items@[i])) is Err,
        },
{
    let mut out: Vec<M> = Vec::with_capacity(items.len());
    let mut i: usize = 0;
    #[verifier::loop_isolation(false)]
    while i < items.len()
        invariant
            i <= items@.len(),
            out@.len() == i,
            M::obeys_try_from_spec() ==> forall|j: int|
                0 <= j < i ==> M::try_from_spec(items@[j]) == Ok::<M, M::Error>(
                    #[trigger] out@[j],
                ),
        decreases items@.len() - i,
    {
        let v = match M::try_from(items[i]) {
            Ok(v) => v,
            Err(e) => {
                return Err(e);
            },
        };
        out.push(v);
        i = i + 1;
    }
    Ok(out)
}

} // verus!

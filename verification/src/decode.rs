//! Typed decoding: the tag space, the header-level parsing helpers, and the
//! per-scalar decode with widening dispatch.

use vstd::prelude::*;
use vstd::slice::slice_to_vec;
use vstd::utf8::{decode_utf8, valid_utf8};

use crate::bit_set::BitSet;
use crate::errors::{matches_wire_error, Error, ParseError, WireError};
use crate::utils::{bool_packed_len, read_byte, read_bytes, spec_bool_packed_len};
use crate::varint::read_u64;
use crate::errors::{InvalidBoolean, InvalidType, RequiredField};
use crate::float_bits::{f32_bits_from_i16, f32_bits_from_u16, f32_bits_of_int, f32_bits_of_nat,
    f64_bits_from_f32_bits, f64_bits_from_i32, f64_bits_from_u32, f64_bits_of_f32_bits,
    f64_bits_of_int, f64_bits_of_nat};
use crate::utils::{bool_from, spec_i8_of_byte, i8_from_byte};
use crate::varint::spec_dec_varint;
use crate::wire::{dec_bytes, dec_header, dec_len, dec_value, ValueV};
use crate::zig_zag::spec_unzigzag;
use crate::{F32Bits, F64Bits};
use vstd::bytes::{spec_u32_from_le_bytes, spec_u64_from_le_bytes, u32_from_le_bytes,
    u64_from_le_bytes};

verus! {

/// The sixteen wire type tags. The low nibble of a header byte holds one of
/// these; the three reserved tags carry opaque length-prefixed blobs so that
/// future tags round-trip through old decoders.
#[derive(Debug, Clone, Copy, PartialEq, Eq, Structural)]
pub enum DataType {
    False,
    True,
    U8,
    I8,
    F32,
    F64,
    UInt,
    Int,
    Str,
    Struct,
    Union,
    List,
    Table,
    UnknownI,
    UnknownII,
    UnknownIII,
}

/// The four-bit code of a tag.
pub open spec fn spec_tag_code(t: DataType) -> u8 {
    match t {
        DataType::False => 0,
        DataType::True => 1,
        DataType::U8 => 2,
        DataType::I8 => 3,
        DataType::F32 => 4,
        DataType::F64 => 5,
        DataType::UInt => 6,
        DataType::Int => 7,
        DataType::Str => 8,
        DataType::Struct => 9,
        DataType::Union => 10,
        DataType::List => 11,
        DataType::Table => 12,
        DataType::UnknownI => 13,
        DataType::UnknownII => 14,
        DataType::UnknownIII => 15,
    }
}

/// The tag of a four-bit code.
pub open spec fn spec_tag_of_code(code: u8) -> DataType
    recommends
        code < 16,
{
    if code == 0 {
        DataType::False
    } else if code == 1 {
        DataType::True
    } else if code == 2 {
        DataType::U8
    } else if code == 3 {
        DataType::I8
    } else if code == 4 {
        DataType::F32
    } else if code == 5 {
        DataType::F64
    } else if code == 6 {
        DataType::UInt
    } else if code == 7 {
        DataType::Int
    } else if code == 8 {
        DataType::Str
    } else if code == 9 {
        DataType::Struct
    } else if code == 10 {
        DataType::Union
    } else if code == 11 {
        DataType::List
    } else if code == 12 {
        DataType::Table
    } else if code == 13 {
        DataType::UnknownI
    } else if code == 14 {
        DataType::UnknownII
    } else {
        DataType::UnknownIII
    }
}

impl DataType {
    /// The four-bit code of this tag.
    pub fn code(self) -> (r: u8)
        ensures
            r == spec_tag_code(self),
            r < 16,
    {
        match self {
            DataType::False => 0,
            DataType::True => 1,
            DataType::U8 => 2,
            DataType::I8 => 3,
            DataType::F32 => 4,
            DataType::F64 => 5,
            DataType::UInt => 6,
            DataType::Int => 7,
            DataType::Str => 8,
            DataType::Struct => 9,
            DataType::Union => 10,
            DataType::List => 11,
            DataType::Table => 12,
            DataType::UnknownI => 13,
            DataType::UnknownII => 14,
            DataType::UnknownIII => 15,
        }
    }

    /// The tag of a four-bit code.
    pub fn from_code(code: u8) -> (r: DataType)
        requires
            code < 16,
        ensures
            r == spec_tag_of_code(code),
            spec_tag_code(r) == code,
    {
        if code == 0 {
            DataType::False
        } else if code == 1 {
            DataType::True
        } else if code == 2 {
            DataType::U8
        } else if code == 3 {
            DataType::I8
        } else if code == 4 {
            DataType::F32
        } else if code == 5 {
            DataType::F64
        } else if code == 6 {
            DataType::UInt
        } else if code == 7 {
            DataType::Int
        } else if code == 8 {
            DataType::Str
        } else if code == 9 {
            DataType::Struct
        } else if code == 10 {
            DataType::Union
        } else if code == 11 {
            DataType::List
        } else if code == 12 {
            DataType::Table
        } else if code == 13 {
            DataType::UnknownI
        } else if code == 14 {
            DataType::UnknownII
        } else {
            DataType::UnknownIII
        }
    }
}

impl DataType {
    /// Checks this tag against the one a caller expects, failing with an
    /// [`InvalidType`] error naming both otherwise.
    pub fn expected(self, expected: DataType) -> (r: Result<(), Error>)
        ensures
            self == expected ==> r == Ok::<(), Error>(()),
            self != expected ==> r == Err::<(), Error>(
                Error::InvalidType(InvalidType { found: self, expected }),
            ),
    {
        if self.code() == expected.code() {
            proof {
                lemma_tag_code_injective(self, expected);
            }
            Ok(())
        } else {
            Err(Error::InvalidType(InvalidType { found: self, expected }))
        }
    }
}

/// Tags with equal codes are the same tag.
proof fn lemma_tag_code_injective(a: DataType, b: DataType)
    requires
        spec_tag_code(a) == spec_tag_code(b),
    ensures
        a == b,
{
}

/// Reads a varint as a length that must fit the machine's address width, as
/// [`dec_len`] describes.
pub fn parse_length(buf: &[u8], pos: &mut usize) -> (r: Result<usize, Error>)
    requires
        *old(pos) <= buf@.len(),
    ensures
        *old(pos) <= *final(pos) <= buf@.len(),
        match r {
            Ok(v) => *final(pos) > *old(pos) && dec_len(buf@.skip(*old(pos) as int)) == Ok::<
                (int, int),
                WireError,
            >((v as int, *final(pos) - *old(pos))),
            Err(e) => dec_len(buf@.skip(*old(pos) as int)) matches Err(w) && matches_wire_error(
                e,
                w,
            ),
        },
{
    let v = match read_u64(buf, pos) {
        Ok(v) => v,
        Err(e) => {
            return Err(e);
        },
    };
    if v > usize::MAX as u64 {
        return Err(Error::Parse(ParseError::new("length does not fit this machine".to_owned())));
    }
    Ok(v as usize)
}

/// Reads a header byte, extending the id through the escape nibble, as
/// [`dec_header`] describes.
pub fn parse_header(buf: &[u8], pos: &mut usize) -> (r: Result<(u64, DataType), Error>)
    requires
        *old(pos) <= buf@.len(),
    ensures
        *old(pos) <= *final(pos) <= buf@.len(),
        match r {
            Ok((id, dt)) => *final(pos) > *old(pos) && dec_header(buf@.skip(*old(pos) as int))
                == Ok::<((u64, u8), int), WireError>(
                ((id, spec_tag_code(dt)), *final(pos) - *old(pos)),
            ),
            Err(e) => dec_header(buf@.skip(*old(pos) as int)) matches Err(w)
                && matches_wire_error(e, w),
        },
{
    let ghost s = buf@.skip(*pos as int);
    let b = match read_byte(buf, pos) {
        Ok(b) => b,
        Err(e) => {
            return Err(e);
        },
    };
    proof {
        assert(s[0] == b);
    }
    let ty = b % 16;
    let id0 = b / 16;
    if id0 < 15 {
        Ok(((id0 as u64), DataType::from_code(ty)))
    } else {
        proof {
            assert(s.drop_first() =~= buf@.skip(*pos as int));
        }
        let v = match read_u64(buf, pos) {
            Ok(v) => v,
            Err(e) => {
                return Err(e);
            },
        };
        if v > u64::MAX - 15 {
            return Err(
                Error::Parse(ParseError::new("extended field id out of range".to_owned())),
            );
        }
        Ok((v + 15, DataType::from_code(ty)))
    }
}

/// Reads the packed-bit block of a boolean list of logical length `len`.
pub fn parse_packed_booleans(buf: &[u8], pos: &mut usize, len: usize) -> (r: Result<BitSet, Error>)
    requires
        *old(pos) <= buf@.len(),
    ensures
        *old(pos) <= *final(pos) <= buf@.len(),
        match r {
            Ok(bs) => {
                &&& *final(pos) == *old(pos) + spec_bool_packed_len(len as int) <= buf@.len()
                &&& bs.len == len
                &&& bs.slots@ == buf@.subrange(*old(pos) as int, *final(pos) as int)
            },
            Err(e) => {
                &&& *final(pos) == *old(pos)
                &&& *old(pos) + spec_bool_packed_len(len as int) > buf@.len()
                &&& e is Eof
            },
        },
{
    let packed = bool_packed_len(len);
    let bytes = match read_bytes(buf, pos, packed) {
        Ok(b) => b,
        Err(e) => {
            return Err(e);
        },
    };
    Ok(BitSet::from_parts(len, bytes))
}

/// Reads a length-prefixed byte block, borrowed from the input, as
/// [`dec_bytes`] describes.
pub fn parse_bytes<'a>(buf: &'a [u8], pos: &mut usize) -> (r: Result<&'a [u8], Error>)
    requires
        *old(pos) <= buf@.len(),
    ensures
        *old(pos) <= *final(pos) <= buf@.len(),
        match r {
            Ok(b) => *final(pos) > *old(pos) && dec_bytes(buf@.skip(*old(pos) as int)) == Ok::<
                (Seq<u8>, int),
                WireError,
            >((b@, *final(pos) - *old(pos))),
            Err(e) => {
                &&& dec_bytes(buf@.skip(*old(pos) as int)) matches Err(w) && matches_wire_error(
                    e,
                    w,
                )
                &&& (dec_len(buf@.skip(*old(pos) as int)) matches Ok((len, n)) ==> e is Eof
                    && *final(pos) == *old(pos) + n)
            },
        },
{
    let ghost s = buf@.skip(*pos as int);
    let ghost p0 = *pos;
    let len = match parse_length(buf, pos) {
        Ok(v) => v,
        Err(e) => {
            return Err(e);
        },
    };
    let ghost n = *pos - p0;
    let bytes = match read_bytes(buf, pos, len) {
        Ok(b) => b,
        Err(e) => {
            proof {
                assert(n + len > s.len());
            }
            return Err(e);
        },
    };
    proof {
        assert(bytes@ =~= s.subrange(n as int, n + len));
    }
    Ok(bytes)
}

/// Relies on `String::from_utf8`: it accepts exactly valid UTF-8 and decodes
/// the bytes to the characters they encode. This matches vstd's own model of
/// UTF-8 (`valid_utf8`, `decode_utf8`), which vstd ties to the same std
/// string type through its `str::from_utf8_unchecked` specification.
#[verifier::external_body]
fn string_from_utf8(bytes: Vec<u8>) -> (r: Option<String>)
    ensures
        r is Some <==> valid_utf8(bytes@),
        r matches Some(s) ==> s@ == decode_utf8(bytes@),
{
    String::from_utf8(bytes).ok()
}

/// Reads a length-prefixed UTF-8 string, failing on bytes that are not valid
/// UTF-8, as the string case of [`dec_value`] describes.
pub fn parse_str(buf: &[u8], pos: &mut usize) -> (r: Result<String, Error>)
    requires
        *old(pos) <= buf@.len(),
    ensures
        *old(pos) <= *final(pos) <= buf@.len(),
        match r {
            Ok(st) => *final(pos) > *old(pos) && dec_value(buf@.skip(*old(pos) as int), 8)
                == Ok::<(ValueV, int), WireError>((ValueV::Str(st@), *final(pos) - *old(pos))),
            Err(e) => dec_value(buf@.skip(*old(pos) as int), 8) matches Err(w)
                && matches_wire_error(e, w),
        },
{
    let bytes = match parse_bytes(buf, pos) {
        Ok(b) => b,
        Err(e) => {
            return Err(e);
        },
    };
    match string_from_utf8(slice_to_vec(bytes)) {
        Some(s) => Ok(s),
        None => Err(Error::Parse(ParseError::new("string is not valid UTF-8".to_owned()))),
    }
}


/// A type that decodes itself from the wire: a bare payload read
/// ([`Decode::decode`]) and a tag-dispatched field read with widening
/// ([`Decode::decode_field`]). The specification functions say exactly which
/// value and consumed length a successful read yields, and on which inputs
/// the read fails instead.
pub trait Decode: Sized {
    /// Whether a bare payload read at the front of `s` yields value `v`
    /// consuming `n` bytes.
    spec fn dec_ok(s: Seq<u8>, v: Self, n: int) -> bool;

    /// The failure kind of a bare payload read, or `None` when it succeeds.
    spec fn dec_err(s: Seq<u8>) -> Option<WireError>;

    /// Whether a field read under wire tag `ty` yields `v` consuming `n`.
    spec fn field_ok(ty: DataType, s: Seq<u8>, v: Self, n: int) -> bool;

    /// The failure kind of a field read under `ty`, or `None`.
    spec fn field_err(ty: DataType, s: Seq<u8>) -> Option<WireError>;

    /// The tag named as `expected` when a field read rejects the wire tag.
    spec fn expected_tag() -> DataType;

    /// Reads one bare payload at the cursor.
    fn decode(buf: &[u8], pos: &mut usize) -> (r: Result<Self, Error>)
        requires
            *old(pos) <= buf@.len(),
        ensures
            *old(pos) <= *final(pos) <= buf@.len(),
            match r {
                Ok(v) => Self::dec_err(buf@.skip(*old(pos) as int)) is None && Self::dec_ok(
                    buf@.skip(*old(pos) as int),
                    v,
                    *final(pos) - *old(pos),
                ),
                Err(e) => Self::dec_err(buf@.skip(*old(pos) as int)) matches Some(w)
                    && matches_wire_error(e, w),
            },
    ;

    /// Reads one field payload under the given wire tag, widening smaller
    /// numeric wire values into the target where the format allows it.
    fn decode_field(ty: DataType, buf: &[u8], pos: &mut usize) -> (r: Result<Self, Error>)
        requires
            *old(pos) <= buf@.len(),
        ensures
            *old(pos) <= *final(pos) <= buf@.len(),
            match r {
                Ok(v) => Self::field_err(ty, buf@.skip(*old(pos) as int)) is None
                    && Self::field_ok(ty, buf@.skip(*old(pos) as int), v, *final(pos) - *old(pos)),
                Err(e) => {
                    &&& Self::field_err(ty, buf@.skip(*old(pos) as int)) matches Some(w)
                        && matches_wire_error(e, w)
                    &&& (Self::field_err(ty, buf@.skip(*old(pos) as int)) == Some(WireError::Type)
                        ==> e == Error::InvalidType(
                        InvalidType { found: ty, expected: Self::expected_tag() },
                    ) && *final(pos) == *old(pos))
                },
            },
    ;
}

/// The numeric value carried by a field of one of the four integer wire
/// tags.
pub open spec fn field_num_val(ty: DataType, s: Seq<u8>) -> int {
    match ty {
        DataType::U8 => if s.len() >= 1 {
            s[0] as int
        } else {
            0
        },
        DataType::I8 => if s.len() >= 1 {
            spec_i8_of_byte(s[0]) as int
        } else {
            0
        },
        DataType::UInt => match spec_dec_varint(s) {
            Ok((x, _)) => x as int,
            Err(_) => 0,
        },
        DataType::Int => match spec_dec_varint(s) {
            Ok((x, _)) => spec_unzigzag(x) as int,
            Err(_) => 0,
        },
        _ => 0,
    }
}

/// The bytes such a field consumes.
pub open spec fn field_num_len(ty: DataType, s: Seq<u8>) -> int {
    match ty {
        DataType::U8 => 1,
        DataType::I8 => 1,
        DataType::UInt => match spec_dec_varint(s) {
            Ok((_, n)) => n,
            Err(_) => 0,
        },
        DataType::Int => match spec_dec_varint(s) {
            Ok((_, n)) => n,
            Err(_) => 0,
        },
        _ => 0,
    }
}

/// Why reading an integer field into a target with range `lo ..= hi` fails,
/// or `None` when it succeeds: a non-integer tag is a type error, and an
/// integer outside the target's range is a range error.
pub open spec fn field_num_err(ty: DataType, s: Seq<u8>, lo: int, hi: int) -> Option<WireError> {
    match ty {
        DataType::U8 => if s.len() == 0 {
            Some(WireError::Eof)
        } else if !(lo <= s[0] <= hi) {
            Some(WireError::Range)
        } else {
            None
        },
        DataType::I8 => if s.len() == 0 {
            Some(WireError::Eof)
        } else if !(lo <= spec_i8_of_byte(s[0]) <= hi) {
            Some(WireError::Range)
        } else {
            None
        },
        DataType::UInt => match spec_dec_varint(s) {
            Ok((x, _)) => if x <= hi {
                None
            } else {
                Some(WireError::Range)
            },
            Err(w) => Some(w),
        },
        DataType::Int => match spec_dec_varint(s) {
            Ok((x, _)) => if lo <= spec_unzigzag(x) <= hi {
                None
            } else {
                Some(WireError::Range)
            },
            Err(w) => Some(w),
        },
        _ => Some(WireError::Type),
    }
}

/// Reads an integer field of any of the four integer wire tags into the
/// range `lo ..= hi`, as [`field_num_err`], [`field_num_val`] and
/// [`field_num_len`] describe.
pub fn decode_field_num(
    ty: DataType,
    buf: &[u8],
    pos: &mut usize,
    lo: i128,
    hi: i128,
    expected: DataType,
) -> (r: Result<i128, Error>)
    requires
        *old(pos) <= buf@.len(),
        -0x8000_0000_0000_0000 <= lo <= 0,
        0 <= hi <= u64::MAX,
    ensures
        *old(pos) <= *final(pos) <= buf@.len(),
        match r {
            Ok(v) => {
                &&& field_num_err(ty, buf@.skip(*old(pos) as int), lo as int, hi as int) is None
                &&& v == field_num_val(ty, buf@.skip(*old(pos) as int))
                &&& *final(pos) - *old(pos) == field_num_len(ty, buf@.skip(*old(pos) as int))
                &&& lo <= v <= hi
            },
            Err(e) => {
                &&& field_num_err(ty, buf@.skip(*old(pos) as int), lo as int, hi as int)
                    matches Some(w) && matches_wire_error(e, w)
                &&& (e is InvalidType ==> e == Error::InvalidType(
                    InvalidType { found: ty, expected },
                ) && *final(pos) == *old(pos))
            },
        },
{
    let ghost s = buf@.skip(*pos as int);
    match ty {
        DataType::U8 => {
            let b = match read_byte(buf, pos) {
                Ok(b) => b,
                Err(e) => {
                    return Err(e);
                },
            };
            proof {
                assert(s[0] == b);
            }
            if (b as i128) > hi {
                return Err(
                    Error::Parse(ParseError::new("value out of range for target".to_owned())),
                );
            }
            Ok(b as i128)
        },
        DataType::I8 => {
            let b = match read_byte(buf, pos) {
                Ok(b) => b,
                Err(e) => {
                    return Err(e);
                },
            };
            proof {
                assert(s[0] == b);
            }
            let v = i8_from_byte(b);
            if (v as i128) < lo || (v as i128) > hi {
                return Err(
                    Error::Parse(ParseError::new("value out of range for target".to_owned())),
                );
            }
            Ok(v as i128)
        },
        DataType::UInt => {
            let x = match read_u64(buf, pos) {
                Ok(x) => x,
                Err(e) => {
                    return Err(e);
                },
            };
            if (x as i128) > hi {
                return Err(
                    Error::Parse(ParseError::new("value out of range for target".to_owned())),
                );
            }
            Ok(x as i128)
        },
        DataType::Int => {
            let x = match read_u64(buf, pos) {
                Ok(x) => x,
                Err(e) => {
                    return Err(e);
                },
            };
            let v = crate::zig_zag::from(x);
            if (v as i128) < lo || (v as i128) > hi {
                return Err(
                    Error::Parse(ParseError::new("value out of range for target".to_owned())),
                );
            }
            Ok(v as i128)
        },
        _ => Err(Error::InvalidType(InvalidType { found: ty, expected })),
    }
}

impl Decode for u8 {
    open spec fn dec_ok(s: Seq<u8>, v: u8, n: int) -> bool {
        s.len() >= 1 && v == s[0] && n == 1
    }

    open spec fn dec_err(s: Seq<u8>) -> Option<WireError> {
        if s.len() == 0 {
            Some(WireError::Eof)
        } else {
            None
        }
    }

    open spec fn field_ok(ty: DataType, s: Seq<u8>, v: u8, n: int) -> bool {
        &&& field_num_err(ty, s, 0, u8::MAX as int) is None
        &&& v == field_num_val(ty, s)
        &&& n == field_num_len(ty, s)
    }

    open spec fn field_err(ty: DataType, s: Seq<u8>) -> Option<WireError> {
        field_num_err(ty, s, 0, u8::MAX as int)
    }

    open spec fn expected_tag() -> DataType {
        DataType::U8
    }

    fn decode(buf: &[u8], pos: &mut usize) -> (r: Result<u8, Error>) {
        read_byte(buf, pos)
    }

    fn decode_field(ty: DataType, buf: &[u8], pos: &mut usize) -> (r: Result<u8, Error>) {
        match decode_field_num(ty, buf, pos, 0, 0xff, DataType::U8) {
            Ok(v) => Ok(v as u8),
            Err(e) => Err(e),
        }
    }
}


impl Decode for i8 {
    open spec fn dec_ok(s: Seq<u8>, v: i8, n: int) -> bool {
        s.len() >= 1 && v == spec_i8_of_byte(s[0]) && n == 1
    }

    open spec fn dec_err(s: Seq<u8>) -> Option<WireError> {
        if s.len() == 0 {
            Some(WireError::Eof)
        } else {
            None
        }
    }

    open spec fn field_ok(ty: DataType, s: Seq<u8>, v: i8, n: int) -> bool {
        &&& field_num_err(ty, s, i8::MIN as int, i8::MAX as int) is None
        &&& v == field_num_val(ty, s)
        &&& n == field_num_len(ty, s)
    }

    open spec fn field_err(ty: DataType, s: Seq<u8>) -> Option<WireError> {
        field_num_err(ty, s, i8::MIN as int, i8::MAX as int)
    }

    open spec fn expected_tag() -> DataType {
        DataType::U8
    }

    fn decode(buf: &[u8], pos: &mut usize) -> (r: Result<i8, Error>) {
        let ghost s = buf@.skip(*pos as int);
        let b = match read_byte(buf, pos) {
            Ok(b) => b,
            Err(e) => {
                return Err(e);
            },
        };
        proof {
            assert(s[0] == b);
        }
        Ok(i8_from_byte(b))
    }

    fn decode_field(ty: DataType, buf: &[u8], pos: &mut usize) -> (r: Result<i8, Error>) {
        match decode_field_num(ty, buf, pos, -0x80, 0x7f, DataType::U8) {
            Ok(v) => Ok(v as i8),
            Err(e) => Err(e),
        }
    }
}


impl Decode for u64 {
    open spec fn dec_ok(s: Seq<u8>, v: u64, n: int) -> bool {
        spec_dec_varint(s) == Ok::<(u64, int), WireError>((v, n))
    }

    open spec fn dec_err(s: Seq<u8>) -> Option<WireError> {
        match spec_dec_varint(s) {
            Ok(_) => None,
            Err(w) => Some(w),
        }
    }

    open spec fn field_ok(ty: DataType, s: Seq<u8>, v: u64, n: int) -> bool {
        &&& field_num_err(ty, s, 0, u64::MAX as int) is None
        &&& v == field_num_val(ty, s)
        &&& n == field_num_len(ty, s)
    }

    open spec fn field_err(ty: DataType, s: Seq<u8>) -> Option<WireError> {
        field_num_err(ty, s, 0, u64::MAX as int)
    }

    open spec fn expected_tag() -> DataType {
        DataType::UInt
    }

    fn decode(buf: &[u8], pos: &mut usize) -> (r: Result<u64, Error>) {
        read_u64(buf, pos)
    }

    fn decode_field(ty: DataType, buf: &[u8], pos: &mut usize) -> (r: Result<u64, Error>) {
        match decode_field_num(ty, buf, pos, 0, 0xffff_ffff_ffff_ffff, DataType::UInt) {
            Ok(v) => Ok(v as u64),
            Err(e) => Err(e),
        }
    }
}


impl Decode for i64 {
    open spec fn dec_ok(s: Seq<u8>, v: i64, n: int) -> bool {
        match spec_dec_varint(s) {
            Ok((x, m)) => v == spec_unzigzag(x) && n == m,
            Err(_) => false,
        }
    }

    open spec fn dec_err(s: Seq<u8>) -> Option<WireError> {
        match spec_dec_varint(s) {
            Ok(_) => None,
            Err(w) => Some(w),
        }
    }

    open spec fn field_ok(ty: DataType, s: Seq<u8>, v: i64, n: int) -> bool {
        &&& field_num_err(ty, s, i64::MIN as int, i64::MAX as int) is None
        &&& v == field_num_val(ty, s)
        &&& n == field_num_len(ty, s)
    }

    open spec fn field_err(ty: DataType, s: Seq<u8>) -> Option<WireError> {
        field_num_err(ty, s, i64::MIN as int, i64::MAX as int)
    }

    open spec fn expected_tag() -> DataType {
        DataType::Int
    }

    fn decode(buf: &[u8], pos: &mut usize) -> (r: Result<i64, Error>) {
        match read_u64(buf, pos) {
            Ok(x) => Ok(crate::zig_zag::from(x)),
            Err(e) => Err(e),
        }
    }

    fn decode_field(ty: DataType, buf: &[u8], pos: &mut usize) -> (r: Result<i64, Error>) {
        match decode_field_num(ty, buf, pos, -0x8000_0000_0000_0000, 0x7fff_ffff_ffff_ffff, DataType::Int) {
            Ok(v) => Ok(v as i64),
            Err(e) => Err(e),
        }
    }
}


impl Decode for u16 {
    open spec fn dec_ok(s: Seq<u8>, v: u16, n: int) -> bool {
        match spec_dec_varint(s) {
            Ok((x, m)) => x <= u16::MAX && v == x && n == m,
            Err(_) => false,
        }
    }

    open spec fn dec_err(s: Seq<u8>) -> Option<WireError> {
        match spec_dec_varint(s) {
            Ok((x, _)) => if x <= u16::MAX {
                None
            } else {
                Some(WireError::Range)
            },
            Err(w) => Some(w),
        }
    }

    open spec fn field_ok(ty: DataType, s: Seq<u8>, v: u16, n: int) -> bool {
        &&& field_num_err(ty, s, 0, u16::MAX as int) is None
        &&& v == field_num_val(ty, s)
        &&& n == field_num_len(ty, s)
    }

    open spec fn field_err(ty: DataType, s: Seq<u8>) -> Option<WireError> {
        field_num_err(ty, s, 0, u16::MAX as int)
    }

    open spec fn expected_tag() -> DataType {
        DataType::UInt
    }

    fn decode(buf: &[u8], pos: &mut usize) -> (r: Result<u16, Error>) {
        let x = match read_u64(buf, pos) {
            Ok(x) => x,
            Err(e) => {
                return Err(e);
            },
        };
        if x > u16::MAX as u64 {
            return Err(
                Error::Parse(ParseError::new("value out of range for target".to_owned())),
            );
        }
        Ok(x as u16)
    }

    fn decode_field(ty: DataType, buf: &[u8], pos: &mut usize) -> (r: Result<u16, Error>) {
        match decode_field_num(ty, buf, pos, 0, 0xffff, DataType::UInt) {
            Ok(v) => Ok(v as u16),
            Err(e) => Err(e),
        }
    }
}


impl Decode for u32 {
    open spec fn dec_ok(s: Seq<u8>, v: u32, n: int) -> bool {
        match spec_dec_varint(s) {
            Ok((x, m)) => x <= u32::MAX && v == x && n == m,
            Err(_) => false,
        }
    }

    open spec fn dec_err(s: Seq<u8>) -> Option<WireError> {
        match spec_dec_varint(s) {
            Ok((x, _)) => if x <= u32::MAX {
                None
            } else {
                Some(WireError::Range)
            },
            Err(w) => Some(w),
        }
    }

    open spec fn field_ok(ty: DataType, s: Seq<u8>, v: u32, n: int) -> bool {
        &&& field_num_err(ty, s, 0, u32::MAX as int) is None
        &&& v == field_num_val(ty, s)
        &&& n == field_num_len(ty, s)
    }

    open spec fn field_err(ty: DataType, s: Seq<u8>) -> Option<WireError> {
        field_num_err(ty, s, 0, u32::MAX as int)
    }

    open spec fn expected_tag() -> DataType {
        DataType::UInt
    }

    fn decode(buf: &[u8], pos: &mut usize) -> (r: Result<u32, Error>) {
        let x = match read_u64(buf, pos) {
            Ok(x) => x,
            Err(e) => {
                return Err(e);
            },
        };
        if x > u32::MAX as u64 {
            return Err(
                Error::Parse(ParseError::new("value out of range for target".to_owned())),
            );
        }
        Ok(x as u32)
    }

    fn decode_field(ty: DataType, buf: &[u8], pos: &mut usize) -> (r: Result<u32, Error>) {
        match decode_field_num(ty, buf, pos, 0, 0xffff_ffff, DataType::UInt) {
            Ok(v) => Ok(v as u32),
            Err(e) => Err(e),
        }
    }
}


impl Decode for i16 {
    open spec fn dec_ok(s: Seq<u8>, v: i16, n: int) -> bool {
        match spec_dec_varint(s) {
            Ok((x, m)) => i16::MIN <= spec_unzigzag(x) <= i16::MAX && v == spec_unzigzag(x) && n == m,
            Err(_) => false,
        }
    }

    open spec fn dec_err(s: Seq<u8>) -> Option<WireError> {
        match spec_dec_varint(s) {
            Ok((x, _)) => if i16::MIN <= spec_unzigzag(x) <= i16::MAX {
                None
            } else {
                Some(WireError::Range)
            },
            Err(w) => Some(w),
        }
    }

    open spec fn field_ok(ty: DataType, s: Seq<u8>, v: i16, n: int) -> bool {
        &&& field_num_err(ty, s, i16::MIN as int, i16::MAX as int) is None
        &&& v == field_num_val(ty, s)
        &&& n == field_num_len(ty, s)
    }

    open spec fn field_err(ty: DataType, s: Seq<u8>) -> Option<WireError> {
        field_num_err(ty, s, i16::MIN as int, i16::MAX as int)
    }

    open spec fn expected_tag() -> DataType {
        DataType::Int
    }

    fn decode(buf: &[u8], pos: &mut usize) -> (r: Result<i16, Error>) {
        let x = match read_u64(buf, pos) {
            Ok(x) => x,
            Err(e) => {
                return Err(e);
            },
        };
        let v = crate::zig_zag::from(x);
        if v < i16::MIN as i64 || v > i16::MAX as i64 {
            return Err(
                Error::Parse(ParseError::new("value out of range for target".to_owned())),
            );
        }
        Ok(v as i16)
    }

    fn decode_field(ty: DataType, buf: &[u8], pos: &mut usize) -> (r: Result<i16, Error>) {
        match decode_field_num(ty, buf, pos, -0x8000, 0x7fff, DataType::Int) {
            Ok(v) => Ok(v as i16),
            Err(e) => Err(e),
        }
    }
}


impl Decode for i32 {
    open spec fn dec_ok(s: Seq<u8>, v: i32, n: int) -> bool {
        match spec_dec_varint(s) {
            Ok((x, m)) => i32::MIN <= spec_unzigzag(x) <= i32::MAX && v == spec_unzigzag(x) && n == m,
            Err(_) => false,
        }
    }

    open spec fn dec_err(s: Seq<u8>) -> Option<WireError> {
        match spec_dec_varint(s) {
            Ok((x, _)) => if i32::MIN <= spec_unzigzag(x) <= i32::MAX {
                None
            } else {
                Some(WireError::Range)
            },
            Err(w) => Some(w),
        }
    }

    open spec fn field_ok(ty: DataType, s: Seq<u8>, v: i32, n: int) -> bool {
        &&& field_num_err(ty, s, i32::MIN as int, i32::MAX as int) is None
        &&& v == field_num_val(ty, s)
        &&& n == field_num_len(ty, s)
    }

    open spec fn field_err(ty: DataType, s: Seq<u8>) -> Option<WireError> {
        field_num_err(ty, s, i32::MIN as int, i32::MAX as int)
    }

    open spec fn expected_tag() -> DataType {
        DataType::Int
    }

    fn decode(buf: &[u8], pos: &mut usize) -> (r: Result<i32, Error>) {
        let x = match read_u64(buf, pos) {
            Ok(x) => x,
            Err(e) => {
                return Err(e);
            },
        };
        let v = crate::zig_zag::from(x);
        if v < i32::MIN as i64 || v > i32::MAX as i64 {
            return Err(
                Error::Parse(ParseError::new("value out of range for target".to_owned())),
            );
        }
        Ok(v as i32)
    }

    fn decode_field(ty: DataType, buf: &[u8], pos: &mut usize) -> (r: Result<i32, Error>) {
        match decode_field_num(ty, buf, pos, -0x8000_0000, 0x7fff_ffff, DataType::Int) {
            Ok(v) => Ok(v as i32),
            Err(e) => Err(e),
        }
    }
}

impl Decode for bool {
    open spec fn dec_ok(s: Seq<u8>, v: bool, n: int) -> bool {
        s.len() >= 1 && n == 1 && ((s[0] == 0 && !v) || (s[0] == 1 && v))
    }

    open spec fn dec_err(s: Seq<u8>) -> Option<WireError> {
        if s.len() == 0 {
            Some(WireError::Eof)
        } else if s[0] >= 2 {
            Some(WireError::Boolean)
        } else {
            None
        }
    }

    open spec fn field_ok(ty: DataType, s: Seq<u8>, v: bool, n: int) -> bool {
        n == 0 && ((ty == DataType::False && !v) || (ty == DataType::True && v))
    }

    open spec fn field_err(ty: DataType, s: Seq<u8>) -> Option<WireError> {
        if ty == DataType::False || ty == DataType::True {
            None
        } else {
            Some(WireError::Type)
        }
    }

    open spec fn expected_tag() -> DataType {
        DataType::True
    }

    fn decode(buf: &[u8], pos: &mut usize) -> (r: Result<bool, Error>) {
        let ghost s = buf@.skip(*pos as int);
        let b = match read_byte(buf, pos) {
            Ok(b) => b,
            Err(e) => {
                return Err(e);
            },
        };
        proof {
            assert(s[0] == b);
        }
        bool_from(b)
    }

    fn decode_field(ty: DataType, buf: &[u8], pos: &mut usize) -> (r: Result<bool, Error>) {
        match ty {
            DataType::False => Ok(false),
            DataType::True => Ok(true),
            _ => Err(Error::InvalidType(InvalidType { found: ty, expected: DataType::True })),
        }
    }
}

impl Decode for String {
    open spec fn dec_ok(s: Seq<u8>, v: String, n: int) -> bool {
        dec_value(s, 8) == Ok::<(ValueV, int), WireError>((ValueV::Str(v@), n))
    }

    open spec fn dec_err(s: Seq<u8>) -> Option<WireError> {
        match dec_value(s, 8) {
            Ok(_) => None,
            Err(w) => Some(w),
        }
    }

    open spec fn field_ok(ty: DataType, s: Seq<u8>, v: String, n: int) -> bool {
        ty == DataType::Str && dec_value(s, 8) == Ok::<(ValueV, int), WireError>(
            (ValueV::Str(v@), n),
        )
    }

    open spec fn field_err(ty: DataType, s: Seq<u8>) -> Option<WireError> {
        if ty != DataType::Str {
            Some(WireError::Type)
        } else {
            match dec_value(s, 8) {
                Ok(_) => None,
                Err(w) => Some(w),
            }
        }
    }

    open spec fn expected_tag() -> DataType {
        DataType::Str
    }

    fn decode(buf: &[u8], pos: &mut usize) -> (r: Result<String, Error>) {
        parse_str(buf, pos)
    }

    fn decode_field(ty: DataType, buf: &[u8], pos: &mut usize) -> (r: Result<String, Error>) {
        match ty {
            DataType::Str => {
                proof {
                    crate::wire::lemma_dec_str_err_kind(buf@.skip(*pos as int));
                }
                parse_str(buf, pos)
            },
            _ => Err(Error::InvalidType(InvalidType { found: ty, expected: DataType::Str })),
        }
    }
}

impl Decode for F32Bits {
    open spec fn dec_ok(s: Seq<u8>, v: F32Bits, n: int) -> bool {
        s.len() >= 4 && v.0 == spec_u32_from_le_bytes(s.subrange(0, 4)) && n == 4
    }

    open spec fn dec_err(s: Seq<u8>) -> Option<WireError> {
        if s.len() < 4 {
            Some(WireError::Eof)
        } else {
            None
        }
    }

    open spec fn field_ok(ty: DataType, s: Seq<u8>, v: F32Bits, n: int) -> bool {
        match ty {
            DataType::U8 => s.len() >= 1 && v.0 == f32_bits_of_nat(s[0] as int) && n == 1,
            DataType::I8 => s.len() >= 1 && v.0 == f32_bits_of_int(spec_i8_of_byte(s[0]) as int)
                && n == 1,
            DataType::F32 => s.len() >= 4 && v.0 == spec_u32_from_le_bytes(s.subrange(0, 4)) && n
                == 4,
            DataType::UInt => field_num_err(ty, s, 0, u16::MAX as int) is None && v.0
                == f32_bits_of_nat(field_num_val(ty, s)) && n == field_num_len(ty, s),
            DataType::Int => field_num_err(ty, s, i16::MIN as int, i16::MAX as int) is None && v.0
                == f32_bits_of_int(field_num_val(ty, s)) && n == field_num_len(ty, s),
            _ => false,
        }
    }

    open spec fn field_err(ty: DataType, s: Seq<u8>) -> Option<WireError> {
        match ty {
            DataType::U8 => if s.len() == 0 {
                Some(WireError::Eof)
            } else {
                None
            },
            DataType::I8 => if s.len() == 0 {
                Some(WireError::Eof)
            } else {
                None
            },
            DataType::F32 => if s.len() < 4 {
                Some(WireError::Eof)
            } else {
                None
            },
            DataType::UInt => field_num_err(ty, s, 0, u16::MAX as int),
            DataType::Int => field_num_err(ty, s, i16::MIN as int, i16::MAX as int),
            _ => Some(WireError::Type),
        }
    }

    open spec fn expected_tag() -> DataType {
        DataType::F32
    }

    fn decode(buf: &[u8], pos: &mut usize) -> (r: Result<F32Bits, Error>) {
        let ghost s = buf@.skip(*pos as int);
        let bytes = match read_bytes(buf, pos, 4) {
            Ok(b) => b,
            Err(e) => {
                return Err(e);
            },
        };
        proof {
            assert(bytes@ =~= s.subrange(0, 4));
        }
        Ok(F32Bits(u32_from_le_bytes(bytes)))
    }

    fn decode_field(ty: DataType, buf: &[u8], pos: &mut usize) -> (r: Result<F32Bits, Error>) {
        match ty {
            DataType::U8 => {
                let ghost s = buf@.skip(*pos as int);
                let b = match read_byte(buf, pos) {
                    Ok(b) => b,
                    Err(e) => {
                        return Err(e);
                    },
                };
                proof {
                    assert(s[0] == b);
                }
                Ok(F32Bits(f32_bits_from_u16(b as u16)))
            },
            DataType::I8 => {
                let ghost s = buf@.skip(*pos as int);
                let b = match read_byte(buf, pos) {
                    Ok(b) => b,
                    Err(e) => {
                        return Err(e);
                    },
                };
                proof {
                    assert(s[0] == b);
                }
                Ok(F32Bits(f32_bits_from_i16(i8_from_byte(b) as i16)))
            },
            DataType::F32 => Self::decode(buf, pos),
            DataType::UInt => {
                match decode_field_num(ty, buf, pos, 0, 0xffff, DataType::F32) {
                    Ok(v) => Ok(F32Bits(f32_bits_from_u16(v as u16))),
                    Err(e) => Err(e),
                }
            },
            DataType::Int => {
                match decode_field_num(ty, buf, pos, -0x8000, 0x7fff, DataType::F32) {
                    Ok(v) => Ok(F32Bits(f32_bits_from_i16(v as i16))),
                    Err(e) => Err(e),
                }
            },
            _ => Err(Error::InvalidType(InvalidType { found: ty, expected: DataType::F32 })),
        }
    }
}

impl Decode for F64Bits {
    open spec fn dec_ok(s: Seq<u8>, v: F64Bits, n: int) -> bool {
        s.len() >= 8 && v.0 == spec_u64_from_le_bytes(s.subrange(0, 8)) && n == 8
    }

    open spec fn dec_err(s: Seq<u8>) -> Option<WireError> {
        if s.len() < 8 {
            Some(WireError::Eof)
        } else {
            None
        }
    }

    open spec fn field_ok(ty: DataType, s: Seq<u8>, v: F64Bits, n: int) -> bool {
        match ty {
            DataType::U8 => s.len() >= 1 && v.0 == f64_bits_of_nat(s[0] as int) && n == 1,
            DataType::I8 => s.len() >= 1 && v.0 == f64_bits_of_int(spec_i8_of_byte(s[0]) as int)
                && n == 1,
            DataType::F32 => s.len() >= 4 && v.0 == f64_bits_of_f32_bits(
                spec_u32_from_le_bytes(s.subrange(0, 4)),
            ) && n == 4,
            DataType::F64 => s.len() >= 8 && v.0 == spec_u64_from_le_bytes(s.subrange(0, 8)) && n
                == 8,
            DataType::UInt => field_num_err(ty, s, 0, u32::MAX as int) is None && v.0
                == f64_bits_of_nat(field_num_val(ty, s)) && n == field_num_len(ty, s),
            DataType::Int => field_num_err(ty, s, i32::MIN as int, i32::MAX as int) is None && v.0
                == f64_bits_of_int(field_num_val(ty, s)) && n == field_num_len(ty, s),
            _ => false,
        }
    }

    open spec fn field_err(ty: DataType, s: Seq<u8>) -> Option<WireError> {
        match ty {
            DataType::U8 => if s.len() == 0 {
                Some(WireError::Eof)
            } else {
                None
            },
            DataType::I8 => if s.len() == 0 {
                Some(WireError::Eof)
            } else {
                None
            },
            DataType::F32 => if s.len() < 4 {
                Some(WireError::Eof)
            } else {
                None
            },
            DataType::F64 => if s.len() < 8 {
                Some(WireError::Eof)
            } else {
                None
            },
            DataType::UInt => field_num_err(ty, s, 0, u32::MAX as int),
            DataType::Int => field_num_err(ty, s, i32::MIN as int, i32::MAX as int),
            _ => Some(WireError::Type),
        }
    }

    open spec fn expected_tag() -> DataType {
        DataType::F64
    }

    fn decode(buf: &[u8], pos: &mut usize) -> (r: Result<F64Bits, Error>) {
        let ghost s = buf@.skip(*pos as int);
        let bytes = match read_bytes(buf, pos, 8) {
            Ok(b) => b,
            Err(e) => {
                return Err(e);
            },
        };
        proof {
            assert(bytes@ =~= s.subrange(0, 8));
        }
        Ok(F64Bits(u64_from_le_bytes(bytes)))
    }

    fn decode_field(ty: DataType, buf: &[u8], pos: &mut usize) -> (r: Result<F64Bits, Error>) {
        match ty {
            DataType::U8 => {
                let ghost s = buf@.skip(*pos as int);
                let b = match read_byte(buf, pos) {
                    Ok(b) => b,
                    Err(e) => {
                        return Err(e);
                    },
                };
                proof {
                    assert(s[0] == b);
                }
                Ok(F64Bits(f64_bits_from_u32(b as u32)))
            },
            DataType::I8 => {
                let ghost s = buf@.skip(*pos as int);
                let b = match read_byte(buf, pos) {
                    Ok(b) => b,
                    Err(e) => {
                        return Err(e);
                    },
                };
                proof {
                    assert(s[0] == b);
                }
                Ok(F64Bits(f64_bits_from_i32(i8_from_byte(b) as i32)))
            },
            DataType::F32 => {
                let ghost s = buf@.skip(*pos as int);
                let bytes = match read_bytes(buf, pos, 4) {
                    Ok(b) => b,
                    Err(e) => {
                        return Err(e);
                    },
                };
                proof {
                    assert(bytes@ =~= s.subrange(0, 4));
                }
                Ok(F64Bits(f64_bits_from_f32_bits(u32_from_le_bytes(bytes))))
            },
            DataType::F64 => Self::decode(buf, pos),
            DataType::UInt => {
                match decode_field_num(ty, buf, pos, 0, 0xffff_ffff, DataType::F64) {
                    Ok(v) => Ok(F64Bits(f64_bits_from_u32(v as u32))),
                    Err(e) => Err(e),
                }
            },
            DataType::Int => {
                match decode_field_num(ty, buf, pos, -0x8000_0000, 0x7fff_ffff, DataType::F64) {
                    Ok(v) => Ok(F64Bits(f64_bits_from_i32(v as i32))),
                    Err(e) => Err(e),
                }
            },
            _ => Err(Error::InvalidType(InvalidType { found: ty, expected: DataType::F64 })),
        }
    }
}

/// Walks the fields of a count-prefixed struct body, handing each field's
/// header to the caller, who then decodes the payload it announces.
pub struct FieldDecoder {
    remaining: usize,
}

impl FieldDecoder {
    /// How many fields are still to be read.
    pub closed spec fn spec_len(&self) -> int {
        self.remaining as int
    }

    /// Reads the field count that opens a struct body.
    pub fn new(buf: &[u8], pos: &mut usize) -> (r: Result<FieldDecoder, Error>)
        requires
            *old(pos) <= buf@.len(),
        ensures
            *old(pos) <= *final(pos) <= buf@.len(),
            match r {
                Ok(fd) => dec_len(buf@.skip(*old(pos) as int)) == Ok::<(int, int), WireError>(
                    (fd.spec_len(), *final(pos) - *old(pos)),
                ),
                Err(e) => dec_len(buf@.skip(*old(pos) as int)) matches Err(w)
                    && matches_wire_error(e, w),
            },
    {
        let len = parse_length(buf, pos)?;
        Ok(FieldDecoder { remaining: len })
    }

    /// The next field's header, or `None` once the declared count is done.
    pub fn header(&mut self, buf: &[u8], pos: &mut usize) -> (r: Result<
        Option<(u64, DataType)>,
        Error,
    >)
        requires
            *old(pos) <= buf@.len(),
        ensures
            *old(pos) <= *final(pos) <= buf@.len(),
            match r {
                Ok(h) => match h {
                    None => old(self).spec_len() == 0 && *final(self) == *old(self) && *final(pos)
                        == *old(pos),
                    Some((id, dt)) => {
                        &&& old(self).spec_len() > 0
                        &&& final(self).spec_len() == old(self).spec_len() - 1
                        &&& dec_header(buf@.skip(*old(pos) as int)) == Ok::<
                            ((u64, u8), int),
                            WireError,
                        >(((id, spec_tag_code(dt)), *final(pos) - *old(pos)))
                    },
                },
                Err(e) => dec_header(buf@.skip(*old(pos) as int)) matches Err(w)
                    && matches_wire_error(e, w),
            },
    {
        if self.remaining == 0 {
            return Ok(None);
        }
        self.remaining = self.remaining - 1;
        match parse_header(buf, pos) {
            Ok(h) => Ok(Some(h)),
            Err(e) => Err(e),
        }
    }

    /// Decodes one bare payload for the caller, as [`Decode::decode`] does,
    /// wrapped for the present-field convention of generated glue.
    pub fn decode<T: Decode>(&mut self, buf: &[u8], pos: &mut usize) -> (r: Result<
        Option<T>,
        Error,
    >)
        requires
            *old(pos) <= buf@.len(),
        ensures
            *old(pos) <= *final(pos) <= buf@.len(),
            *final(self) == *old(self),
            match r {
                Ok(h) => h matches Some(v) && T::dec_err(buf@.skip(*old(pos) as int)) is None
                    && T::dec_ok(buf@.skip(*old(pos) as int), v, *final(pos) - *old(pos)),
                Err(e) => T::dec_err(buf@.skip(*old(pos) as int)) matches Some(w)
                    && matches_wire_error(e, w),
            },
    {
        match T::decode(buf, pos) {
            Ok(v) => Ok(Some(v)),
            Err(e) => Err(e),
        }
    }

    /// How many fields remain.
    pub fn len(&self) -> (r: usize)
        ensures
            r == self.spec_len(),
    {
        self.remaining
    }
}

/// How a decoded field value settles into a target field: an optional target
/// tolerates absence, a required target demands presence and otherwise fails
/// with a [`RequiredField`] error naming the field.
pub trait Optional<T>: Sized {
    /// What the target holds for a present or absent value; `None` means the
    /// conversion must fail.
    spec fn of_option(val: Option<T>) -> Option<Self>;

    /// Settles a decoded (or absent) value into the target.
    fn convert(val: Option<T>, name: &'static str) -> (r: Result<Self, RequiredField>)
        ensures
            match r {
                Ok(v) => Self::of_option(val) == Some(v),
                Err(e) => Self::of_option(val) is None && e == RequiredField { name },
            },
    ;
}

impl<T> Optional<T> for Option<T> {
    open spec fn of_option(val: Option<T>) -> Option<Option<T>> {
        Some(val)
    }

    fn convert(val: Option<T>, name: &'static str) -> (r: Result<Option<T>, RequiredField>) {
        Ok(val)
    }
}

impl<T> Optional<T> for T {
    open spec fn of_option(val: Option<T>) -> Option<T> {
        val
    }

    fn convert(val: Option<T>, name: &'static str) -> (r: Result<T, RequiredField>) {
        match val {
            Some(v) => Ok(v),
            None => Err(RequiredField { name }),
        }
    }
}

} // verus!

//! The type-coercion layer: converting a dynamic decoded value into a
//! statically requested target type, with the same numeric widening rules as
//! field decoding, and errors annotated with the field key they arose under.
//! A value of the wrong kind is reported as an [`InvalidType`] error naming
//! both the tag found and the tag the target expected.

use vstd::prelude::*;
use vstd::slice::slice_to_vec;

use crate::bit_set::spec_has;
use crate::decode::{spec_tag_of_code, DataType};
use crate::encoder::{list_elem_tag, value_tag};
use crate::entries::{spec_lookup, Entries};
use crate::errors::{ConvertError, Error, InvalidType, RequiredField};
use crate::float_bits::{f32_bits_from_i16, f32_bits_from_u16, f32_bits_of_int, f32_bits_of_nat,
    f64_bits_from_f32_bits, f64_bits_from_i32, f64_bits_from_u32, f64_bits_of_f32_bits,
    f64_bits_of_int, f64_bits_of_nat};
use crate::wire::{list_len, list_tag, tag_of, ListV, ValueV};
use crate::{F32Bits, F64Bits, List, Value};

verus! {

broadcast use vstd::seq::group_seq_axioms, vstd::std_specs::vec::group_vec_axioms;

/// The tag a mismatch error reports for a scalar target: the value's own.
pub open spec fn spec_found_tag(v: ValueV) -> DataType {
    spec_tag_of_code(tag_of(v))
}

/// The tag a mismatch error reports for a list-shaped target: the element
/// tag when a list of the wrong kind was offered, the value's own otherwise.
pub open spec fn spec_found_elem_tag(v: ValueV) -> DataType {
    match v {
        ValueV::List(l) => spec_tag_of_code(list_tag(l)),
        _ => spec_found_tag(v),
    }
}

/// The element count of a list-shaped value, zero for anything else.
pub open spec fn spec_items_len(v: ValueV) -> int {
    match v {
        ValueV::List(l) => list_len(l),
        _ => 0,
    }
}

fn found_tag(value: &Value) -> (r: DataType)
    ensures
        r == spec_found_tag(value@),
{
    DataType::from_code(value_tag(value))
}

fn found_elem_tag(value: &Value) -> (r: DataType)
    ensures
        r == spec_found_elem_tag(value@),
{
    match value {
        Value::List(l) => DataType::from_code(list_elem_tag(l)),
        _ => found_tag(value),
    }
}

fn mismatch(value: &Value, found: DataType, expected: DataType) -> (r: ConvertError)
    ensures
        r.key is None,
        r.error == Error::InvalidType(InvalidType { found, expected }),
{
    ConvertError { key: None, error: Error::InvalidType(InvalidType { found, expected }) }
}

/// A target type that a dynamic [`Value`] converts into: a direct tag match,
/// a numeric widening, or a failure that names no key until a keyed lookup
/// adds one. A tag mismatch names the tag found and the tag expected; a
/// value of the right tag outside the target's range is a range failure.
pub trait ConvertFrom: Sized {
    /// Whether converting the mirrored value yields `r`.
    spec fn convert_ok(value: ValueV, r: Self) -> bool;

    /// Whether the conversion fails on the mirrored value.
    spec fn convert_fails(value: ValueV) -> bool;

    /// The part of [`ConvertFrom::convert_fails`] that is a wrong kind of
    /// value rather than an out-of-range one.
    spec fn tag_mismatch(value: ValueV) -> bool;

    /// The tag a mismatch error names as found.
    spec fn mismatch_found(value: ValueV) -> DataType;

    /// The tag a mismatch error names as expected.
    spec fn expected_tag() -> DataType;

    /// Converts a decoded value into the target.
    fn convert_from(value: &Value) -> (r: Result<Self, ConvertError>)
        ensures
            match r {
                Ok(v) => Self::convert_ok(value@, v) && !Self::convert_fails(value@),
                Err(e) => {
                    &&& Self::convert_fails(value@)
                    &&& e.key is None
                    &&& (Self::tag_mismatch(value@) ==> e.error == Error::InvalidType(
                        InvalidType {
                            found: Self::mismatch_found(value@),
                            expected: Self::expected_tag(),
                        },
                    ))
                },
            },
    ;
}

impl ConvertFrom for bool {
    open spec fn convert_ok(value: ValueV, r: bool) -> bool {
        value == ValueV::Bool(r)
    }

    open spec fn convert_fails(value: ValueV) -> bool {
        !(value is Bool)
    }

    open spec fn tag_mismatch(value: ValueV) -> bool {
        !(value is Bool)
    }

    open spec fn mismatch_found(value: ValueV) -> DataType {
        spec_found_tag(value)
    }

    open spec fn expected_tag() -> DataType {
        DataType::True
    }

    fn convert_from(value: &Value) -> (r: Result<bool, ConvertError>) {
        match value {
            Value::Bool(b) => Ok(*b),
            _ => Err(mismatch(value, found_tag(value), DataType::True)),
        }
    }
}

impl ConvertFrom for String {
    open spec fn convert_ok(value: ValueV, r: String) -> bool {
        value == ValueV::Str(r@)
    }

    open spec fn convert_fails(value: ValueV) -> bool {
        !(value is Str)
    }

    open spec fn tag_mismatch(value: ValueV) -> bool {
        !(value is Str)
    }

    open spec fn mismatch_found(value: ValueV) -> DataType {
        spec_found_tag(value)
    }

    open spec fn expected_tag() -> DataType {
        DataType::Str
    }

    fn convert_from(value: &Value) -> (r: Result<String, ConvertError>) {
        match value {
            Value::Str(s) => Ok(s.clone()),
            _ => Err(mismatch(value, found_tag(value), DataType::Str)),
        }
    }
}

impl ConvertFrom for u8 {
    open spec fn convert_ok(value: ValueV, r: u8) -> bool {
        value == ValueV::U8(r)
    }

    open spec fn convert_fails(value: ValueV) -> bool {
        !(value is U8)
    }

    open spec fn tag_mismatch(value: ValueV) -> bool {
        !(value is U8)
    }

    open spec fn mismatch_found(value: ValueV) -> DataType {
        spec_found_tag(value)
    }

    open spec fn expected_tag() -> DataType {
        DataType::U8
    }

    fn convert_from(value: &Value) -> (r: Result<u8, ConvertError>) {
        match value {
            Value::U8(n) => Ok(*n),
            _ => Err(mismatch(value, found_tag(value), DataType::U8)),
        }
    }
}

impl ConvertFrom for i8 {
    open spec fn convert_ok(value: ValueV, r: i8) -> bool {
        value == ValueV::I8(r)
    }

    open spec fn convert_fails(value: ValueV) -> bool {
        !(value is I8)
    }

    open spec fn tag_mismatch(value: ValueV) -> bool {
        !(value is I8)
    }

    open spec fn mismatch_found(value: ValueV) -> DataType {
        spec_found_tag(value)
    }

    open spec fn expected_tag() -> DataType {
        DataType::I8
    }

    fn convert_from(value: &Value) -> (r: Result<i8, ConvertError>) {
        match value {
            Value::I8(n) => Ok(*n),
            _ => Err(mismatch(value, found_tag(value), DataType::I8)),
        }
    }
}

impl ConvertFrom for u64 {
    open spec fn convert_ok(value: ValueV, r: u64) -> bool {
        value == ValueV::UInt(r)
    }

    open spec fn convert_fails(value: ValueV) -> bool {
        !(value is UInt)
    }

    open spec fn tag_mismatch(value: ValueV) -> bool {
        !(value is UInt)
    }

    open spec fn mismatch_found(value: ValueV) -> DataType {
        spec_found_tag(value)
    }

    open spec fn expected_tag() -> DataType {
        DataType::UInt
    }

    fn convert_from(value: &Value) -> (r: Result<u64, ConvertError>) {
        match value {
            Value::UInt(n) => Ok(*n),
            _ => Err(mismatch(value, found_tag(value), DataType::UInt)),
        }
    }
}

impl ConvertFrom for i64 {
    open spec fn convert_ok(value: ValueV, r: i64) -> bool {
        value == ValueV::Int(r)
    }

    open spec fn convert_fails(value: ValueV) -> bool {
        !(value is Int)
    }

    open spec fn tag_mismatch(value: ValueV) -> bool {
        !(value is Int)
    }

    open spec fn mismatch_found(value: ValueV) -> DataType {
        spec_found_tag(value)
    }

    open spec fn expected_tag() -> DataType {
        DataType::Int
    }

    fn convert_from(value: &Value) -> (r: Result<i64, ConvertError>) {
        match value {
            Value::Int(n) => Ok(*n),
            _ => Err(mismatch(value, found_tag(value), DataType::Int)),
        }
    }
}

impl ConvertFrom for u16 {
    open spec fn convert_ok(value: ValueV, r: u16) -> bool {
        value matches ValueV::UInt(n) && n <= u16::MAX && r == n as u16
    }

    open spec fn convert_fails(value: ValueV) -> bool {
        !(value matches ValueV::UInt(n) && n <= u16::MAX)
    }

    open spec fn tag_mismatch(value: ValueV) -> bool {
        !(value is UInt)
    }

    open spec fn mismatch_found(value: ValueV) -> DataType {
        spec_found_tag(value)
    }

    open spec fn expected_tag() -> DataType {
        DataType::UInt
    }

    fn convert_from(value: &Value) -> (r: Result<u16, ConvertError>) {
        match value {
            Value::UInt(n) => {
                if *n > u16::MAX as u64 {
                    return Err(ConvertError::new("value out of range for target".to_owned()));
                }
                Ok(*n as u16)
            },
            _ => Err(mismatch(value, found_tag(value), DataType::UInt)),
        }
    }
}

impl ConvertFrom for u32 {
    open spec fn convert_ok(value: ValueV, r: u32) -> bool {
        value matches ValueV::UInt(n) && n <= u32::MAX && r == n as u32
    }

    open spec fn convert_fails(value: ValueV) -> bool {
        !(value matches ValueV::UInt(n) && n <= u32::MAX)
    }

    open spec fn tag_mismatch(value: ValueV) -> bool {
        !(value is UInt)
    }

    open spec fn mismatch_found(value: ValueV) -> DataType {
        spec_found_tag(value)
    }

    open spec fn expected_tag() -> DataType {
        DataType::UInt
    }

    fn convert_from(value: &Value) -> (r: Result<u32, ConvertError>) {
        match value {
            Value::UInt(n) => {
                if *n > u32::MAX as u64 {
                    return Err(ConvertError::new("value out of range for target".to_owned()));
                }
                Ok(*n as u32)
            },
            _ => Err(mismatch(value, found_tag(value), DataType::UInt)),
        }
    }
}

impl ConvertFrom for i16 {
    open spec fn convert_ok(value: ValueV, r: i16) -> bool {
        value matches ValueV::Int(n) && i16::MIN <= n <= i16::MAX && r == n as i16
    }

    open spec fn convert_fails(value: ValueV) -> bool {
        !(value matches ValueV::Int(n) && i16::MIN <= n <= i16::MAX)
    }

    open spec fn tag_mismatch(value: ValueV) -> bool {
        !(value is Int)
    }

    open spec fn mismatch_found(value: ValueV) -> DataType {
        spec_found_tag(value)
    }

    open spec fn expected_tag() -> DataType {
        DataType::Int
    }

    fn convert_from(value: &Value) -> (r: Result<i16, ConvertError>) {
        match value {
            Value::Int(n) => {
                if *n < i16::MIN as i64 || *n > i16::MAX as i64 {
                    return Err(ConvertError::new("value out of range for target".to_owned()));
                }
                Ok(*n as i16)
            },
            _ => Err(mismatch(value, found_tag(value), DataType::Int)),
        }
    }
}

impl ConvertFrom for i32 {
    open spec fn convert_ok(value: ValueV, r: i32) -> bool {
        value matches ValueV::Int(n) && i32::MIN <= n <= i32::MAX && r == n as i32
    }

    open spec fn convert_fails(value: ValueV) -> bool {
        !(value matches ValueV::Int(n) && i32::MIN <= n <= i32::MAX)
    }

    open spec fn tag_mismatch(value: ValueV) -> bool {
        !(value is Int)
    }

    open spec fn mismatch_found(value: ValueV) -> DataType {
        spec_found_tag(value)
    }

    open spec fn expected_tag() -> DataType {
        DataType::Int
    }

    fn convert_from(value: &Value) -> (r: Result<i32, ConvertError>) {
        match value {
            Value::Int(n) => {
                if *n < i32::MIN as i64 || *n > i32::MAX as i64 {
                    return Err(ConvertError::new("value out of range for target".to_owned()));
                }
                Ok(*n as i32)
            },
            _ => Err(mismatch(value, found_tag(value), DataType::Int)),
        }
    }
}

impl ConvertFrom for F32Bits {
    open spec fn convert_ok(value: ValueV, r: F32Bits) -> bool {
        match value {
            ValueV::U8(n) => r.0 == f32_bits_of_nat(n as int),
            ValueV::I8(n) => r.0 == f32_bits_of_int(n as int),
            ValueV::F32(b) => r.0 == b,
            ValueV::UInt(n) => n <= u16::MAX && r.0 == f32_bits_of_nat(n as int),
            ValueV::Int(n) => i16::MIN <= n <= i16::MAX && r.0 == f32_bits_of_int(n as int),
            _ => false,
        }
    }

    open spec fn convert_fails(value: ValueV) -> bool {
        match value {
            ValueV::U8(_) => false,
            ValueV::I8(_) => false,
            ValueV::F32(_) => false,
            ValueV::UInt(n) => n > u16::MAX,
            ValueV::Int(n) => !(i16::MIN <= n <= i16::MAX),
            _ => true,
        }
    }

    open spec fn tag_mismatch(value: ValueV) -> bool {
        !(value is U8 || value is I8 || value is F32 || value is UInt || value is Int)
    }

    open spec fn mismatch_found(value: ValueV) -> DataType {
        spec_found_tag(value)
    }

    open spec fn expected_tag() -> DataType {
        DataType::F32
    }

    fn convert_from(value: &Value) -> (r: Result<F32Bits, ConvertError>) {
        match value {
            Value::U8(n) => Ok(F32Bits(f32_bits_from_u16(*n as u16))),
            Value::I8(n) => Ok(F32Bits(f32_bits_from_i16(*n as i16))),
            Value::F32(b) => Ok(*b),
            Value::UInt(n) => {
                if *n > u16::MAX as u64 {
                    return Err(ConvertError::new("value out of range for target".to_owned()));
                }
                Ok(F32Bits(f32_bits_from_u16(*n as u16)))
            },
            Value::Int(n) => {
                if *n < i16::MIN as i64 || *n > i16::MAX as i64 {
                    return Err(ConvertError::new("value out of range for target".to_owned()));
                }
                Ok(F32Bits(f32_bits_from_i16(*n as i16)))
            },
            _ => Err(mismatch(value, found_tag(value), DataType::F32)),
        }
    }
}

impl ConvertFrom for F64Bits {
    open spec fn convert_ok(value: ValueV, r: F64Bits) -> bool {
        match value {
            ValueV::U8(n) => r.0 == f64_bits_of_nat(n as int),
            ValueV::I8(n) => r.0 == f64_bits_of_int(n as int),
            ValueV::F32(b) => r.0 == f64_bits_of_f32_bits(b),
            ValueV::F64(b) => r.0 == b,
            ValueV::UInt(n) => n <= u32::MAX && r.0 == f64_bits_of_nat(n as int),
            ValueV::Int(n) => i32::MIN <= n <= i32::MAX && r.0 == f64_bits_of_int(n as int),
            _ => false,
        }
    }

    open spec fn convert_fails(value: ValueV) -> bool {
        match value {
            ValueV::U8(_) => false,
            ValueV::I8(_) => false,
            ValueV::F32(_) => false,
            ValueV::F64(_) => false,
            ValueV::UInt(n) => n > u32::MAX,
            ValueV::Int(n) => !(i32::MIN <= n <= i32::MAX),
            _ => true,
        }
    }

    open spec fn tag_mismatch(value: ValueV) -> bool {
        !(value is U8 || value is I8 || value is F32 || value is F64 || value is UInt
            || value is Int)
    }

    open spec fn mismatch_found(value: ValueV) -> DataType {
        spec_found_tag(value)
    }

    open spec fn expected_tag() -> DataType {
        DataType::F64
    }

    fn convert_from(value: &Value) -> (r: Result<F64Bits, ConvertError>) {
        match value {
            Value::U8(n) => Ok(F64Bits(f64_bits_from_u32(*n as u32))),
            Value::I8(n) => Ok(F64Bits(f64_bits_from_i32(*n as i32))),
            Value::F32(b) => Ok(F64Bits(f64_bits_from_f32_bits(b.0))),
            Value::F64(b) => Ok(*b),
            Value::UInt(n) => {
                if *n > u32::MAX as u64 {
                    return Err(ConvertError::new("value out of range for target".to_owned()));
                }
                Ok(F64Bits(f64_bits_from_u32(*n as u32)))
            },
            Value::Int(n) => {
                if *n < i32::MIN as i64 || *n > i32::MAX as i64 {
                    return Err(ConvertError::new("value out of range for target".to_owned()));
                }
                Ok(F64Bits(f64_bits_from_i32(*n as i32)))
            },
            _ => Err(mismatch(value, found_tag(value), DataType::F64)),
        }
    }
}

impl ConvertFrom for Vec<u8> {
    open spec fn convert_ok(value: ValueV, r: Vec<u8>) -> bool {
        &&& value matches ValueV::List(l)
        &&& l matches ListV::Items { ty, items }
        &&& ty == 2
        &&& items.len() == r@.len()
        &&& forall|i: int| 0 <= i < items.len() ==> items[i] == ValueV::U8(r@[i])
    }

    open spec fn convert_fails(value: ValueV) -> bool {
        !(value matches ValueV::List(l) && l matches ListV::Items { ty, .. } && ty == 2)
    }

    open spec fn tag_mismatch(value: ValueV) -> bool {
        Self::convert_fails(value)
    }

    open spec fn mismatch_found(value: ValueV) -> DataType {
        spec_found_elem_tag(value)
    }

    open spec fn expected_tag() -> DataType {
        DataType::U8
    }

    fn convert_from(value: &Value) -> (r: Result<Vec<u8>, ConvertError>) {
        match value {
            Value::List(List::U8(v)) => {
                let out = slice_to_vec(v.as_slice());
                proof {
                    assert(out@ =~= v@);
                    let lv = crate::wire::view_list(List::U8(*v));
                    assert(lv is Items && lv->Items_ty == 2);
                    assert(lv->Items_items.len() == out@.len());
                    assert(forall|i: int|
                        0 <= i < lv->Items_items.len() ==> lv->Items_items[i] == ValueV::U8(out@[i]));
                    assert(value@ == ValueV::List(lv));
                }
                Ok(out)
            },
            _ => {
                proof {
                    crate::wire::lemma_view_list_tag(*value);
                }
                Err(mismatch(value, found_elem_tag(value), DataType::U8))
            },
        }
    }
}

impl ConvertFrom for Vec<i8> {
    open spec fn convert_ok(value: ValueV, r: Vec<i8>) -> bool {
        &&& value matches ValueV::List(l)
        &&& l matches ListV::Items { ty, items }
        &&& ty == 3
        &&& items.len() == r@.len()
        &&& forall|i: int| 0 <= i < items.len() ==> items[i] == ValueV::I8(r@[i])
    }

    open spec fn convert_fails(value: ValueV) -> bool {
        !(value matches ValueV::List(l) && l matches ListV::Items { ty, .. } && ty == 3)
    }

    open spec fn tag_mismatch(value: ValueV) -> bool {
        Self::convert_fails(value)
    }

    open spec fn mismatch_found(value: ValueV) -> DataType {
        spec_found_elem_tag(value)
    }

    open spec fn expected_tag() -> DataType {
        DataType::I8
    }

    fn convert_from(value: &Value) -> (r: Result<Vec<i8>, ConvertError>) {
        match value {
            Value::List(List::I8(v)) => {
                let out = slice_to_vec(v.as_slice());
                proof {
                    assert(out@ =~= v@);
                    let lv = crate::wire::view_list(List::I8(*v));
                    assert(lv is Items && lv->Items_ty == 3);
                    assert(lv->Items_items.len() == out@.len());
                    assert(forall|i: int|
                        0 <= i < lv->Items_items.len() ==> lv->Items_items[i] == ValueV::I8(out@[i]));
                    assert(value@ == ValueV::List(lv));
                }
                Ok(out)
            },
            _ => {
                proof {
                    crate::wire::lemma_view_list_tag(*value);
                }
                Err(mismatch(value, found_elem_tag(value), DataType::I8))
            },
        }
    }
}

impl ConvertFrom for Vec<F32Bits> {
    open spec fn convert_ok(value: ValueV, r: Vec<F32Bits>) -> bool {
        &&& value matches ValueV::List(l)
        &&& l matches ListV::Items { ty, items }
        &&& ty == 4
        &&& items.len() == r@.len()
        &&& forall|i: int| 0 <= i < items.len() ==> items[i] == ValueV::F32(r@[i].0)
    }

    open spec fn convert_fails(value: ValueV) -> bool {
        !(value matches ValueV::List(l) && l matches ListV::Items { ty, .. } && ty == 4)
    }

    open spec fn tag_mismatch(value: ValueV) -> bool {
        Self::convert_fails(value)
    }

    open spec fn mismatch_found(value: ValueV) -> DataType {
        spec_found_elem_tag(value)
    }

    open spec fn expected_tag() -> DataType {
        DataType::F32
    }

    fn convert_from(value: &Value) -> (r: Result<Vec<F32Bits>, ConvertError>) {
        match value {
            Value::List(List::F32(v)) => {
                let out = slice_to_vec(v.as_slice());
                proof {
                    assert(out@ =~= v@);
                    let lv = crate::wire::view_list(List::F32(*v));
                    assert(lv is Items && lv->Items_ty == 4);
                    assert(lv->Items_items.len() == out@.len());
                    assert(forall|i: int|
                        0 <= i < lv->Items_items.len() ==> lv->Items_items[i] == ValueV::F32(out@[i].0));
                    assert(value@ == ValueV::List(lv));
                }
                Ok(out)
            },
            _ => {
                proof {
                    crate::wire::lemma_view_list_tag(*value);
                }
                Err(mismatch(value, found_elem_tag(value), DataType::F32))
            },
        }
    }
}

impl ConvertFrom for Vec<F64Bits> {
    open spec fn convert_ok(value: ValueV, r: Vec<F64Bits>) -> bool {
        &&& value matches ValueV::List(l)
        &&& l matches ListV::Items { ty, items }
        &&& ty == 5
        &&& items.len() == r@.len()
        &&& forall|i: int| 0 <= i < items.len() ==> items[i] == ValueV::F64(r@[i].0)
    }

    open spec fn convert_fails(value: ValueV) -> bool {
        !(value matches ValueV::List(l) && l matches ListV::Items { ty, .. } && ty == 5)
    }

    open spec fn tag_mismatch(value: ValueV) -> bool {
        Self::convert_fails(value)
    }

    open spec fn mismatch_found(value: ValueV) -> DataType {
        spec_found_elem_tag(value)
    }

    open spec fn expected_tag() -> DataType {
        DataType::F64
    }

    fn convert_from(value: &Value) -> (r: Result<Vec<F64Bits>, ConvertError>) {
        match value {
            Value::List(List::F64(v)) => {
                let out = slice_to_vec(v.as_slice());
                proof {
                    assert(out@ =~= v@);
                    let lv = crate::wire::view_list(List::F64(*v));
                    assert(lv is Items && lv->Items_ty == 5);
                    assert(lv->Items_items.len() == out@.len());
                    assert(forall|i: int|
                        0 <= i < lv->Items_items.len() ==> lv->Items_items[i] == ValueV::F64(out@[i].0));
                    assert(value@ == ValueV::List(lv));
                }
                Ok(out)
            },
            _ => {
                proof {
                    crate::wire::lemma_view_list_tag(*value);
                }
                Err(mismatch(value, found_elem_tag(value), DataType::F64))
            },
        }
    }
}

impl ConvertFrom for Vec<u64> {
    open spec fn convert_ok(value: ValueV, r: Vec<u64>) -> bool {
        &&& value matches ValueV::List(l)
        &&& l matches ListV::Items { ty, items }
        &&& ty == 6
        &&& items.len() == r@.len()
        &&& forall|i: int| 0 <= i < items.len() ==> items[i] == ValueV::UInt(r@[i])
    }

    open spec fn convert_fails(value: ValueV) -> bool {
        !(value matches ValueV::List(l) && l matches ListV::Items { ty, .. } && ty == 6)
    }

    open spec fn tag_mismatch(value: ValueV) -> bool {
        Self::convert_fails(value)
    }

    open spec fn mismatch_found(value: ValueV) -> DataType {
        spec_found_elem_tag(value)
    }

    open spec fn expected_tag() -> DataType {
        DataType::UInt
    }

    fn convert_from(value: &Value) -> (r: Result<Vec<u64>, ConvertError>) {
        match value {
            Value::List(List::UInt(v)) => {
                let out = slice_to_vec(v.as_slice());
                proof {
                    assert(out@ =~= v@);
                    let lv = crate::wire::view_list(List::UInt(*v));
                    assert(lv is Items && lv->Items_ty == 6);
                    assert(lv->Items_items.len() == out@.len());
                    assert(forall|i: int|
                        0 <= i < lv->Items_items.len() ==> lv->Items_items[i] == ValueV::UInt(out@[i]));
                    assert(value@ == ValueV::List(lv));
                }
                Ok(out)
            },
            _ => {
                proof {
                    crate::wire::lemma_view_list_tag(*value);
                }
                Err(mismatch(value, found_elem_tag(value), DataType::UInt))
            },
        }
    }
}

impl ConvertFrom for Vec<i64> {
    open spec fn convert_ok(value: ValueV, r: Vec<i64>) -> bool {
        &&& value matches ValueV::List(l)
        &&& l matches ListV::Items { ty, items }
        &&& ty == 7
        &&& items.len() == r@.len()
        &&& forall|i: int| 0 <= i < items.len() ==> items[i] == ValueV::Int(r@[i])
    }

    open spec fn convert_fails(value: ValueV) -> bool {
        !(value matches ValueV::List(l) && l matches ListV::Items { ty, .. } && ty == 7)
    }

    open spec fn tag_mismatch(value: ValueV) -> bool {
        Self::convert_fails(value)
    }

    open spec fn mismatch_found(value: ValueV) -> DataType {
        spec_found_elem_tag(value)
    }

    open spec fn expected_tag() -> DataType {
        DataType::Int
    }

    fn convert_from(value: &Value) -> (r: Result<Vec<i64>, ConvertError>) {
        match value {
            Value::List(List::Int(v)) => {
                let out = slice_to_vec(v.as_slice());
                proof {
                    assert(out@ =~= v@);
                    let lv = crate::wire::view_list(List::Int(*v));
                    assert(lv is Items && lv->Items_ty == 7);
                    assert(lv->Items_items.len() == out@.len());
                    assert(forall|i: int|
                        0 <= i < lv->Items_items.len() ==> lv->Items_items[i] == ValueV::Int(out@[i]));
                    assert(value@ == ValueV::List(lv));
                }
                Ok(out)
            },
            _ => {
                proof {
                    crate::wire::lemma_view_list_tag(*value);
                }
                Err(mismatch(value, found_elem_tag(value), DataType::Int))
            },
        }
    }
}

impl ConvertFrom for Vec<bool> {
    open spec fn convert_ok(value: ValueV, r: Vec<bool>) -> bool {
        &&& value matches ValueV::List(l)
        &&& l matches ListV::Bools { len, slots }
        &&& r@.len() == len
        &&& forall|i: int| 0 <= i < r@.len() ==> r@[i] == spec_has(slots, i)
    }

    open spec fn convert_fails(value: ValueV) -> bool {
        !(value matches ValueV::List(l) && l is Bools)
    }

    open spec fn tag_mismatch(value: ValueV) -> bool {
        Self::convert_fails(value)
    }

    open spec fn mismatch_found(value: ValueV) -> DataType {
        spec_found_elem_tag(value)
    }

    open spec fn expected_tag() -> DataType {
        DataType::True
    }

    fn convert_from(value: &Value) -> (r: Result<Vec<bool>, ConvertError>) {
        match value {
            Value::List(List::Bool(bs)) => {
                let out = bs.to_bools();
                proof {
                    let lv = crate::wire::view_list(List::Bool(*bs));
                    assert(lv is Bools && lv->Bools_len == bs.len as int && lv->Bools_slots
                        == bs.slots@);
                    assert(value@ == ValueV::List(lv));
                    assert(forall|i: int|
                        0 <= i < out@.len() ==> #[trigger] out@[i] == spec_has(bs.slots@, i));
                }
                Ok(out)
            },
            _ => {
                proof {
                    crate::wire::lemma_view_list_tag(*value);
                }
                Err(mismatch(value, found_elem_tag(value), DataType::True))
            },
        }
    }
}


impl ConvertFrom for Vec<String> {
    open spec fn convert_ok(value: ValueV, r: Vec<String>) -> bool {
        &&& value matches ValueV::List(l)
        &&& l matches ListV::Items { ty, items }
        &&& ty == 8
        &&& items.len() == r@.len()
        &&& forall|i: int| 0 <= i < items.len() ==> items[i] == ValueV::Str(r@[i]@)
    }

    open spec fn convert_fails(value: ValueV) -> bool {
        !(value matches ValueV::List(l) && l matches ListV::Items { ty, .. } && ty == 8)
    }

    open spec fn tag_mismatch(value: ValueV) -> bool {
        Self::convert_fails(value)
    }

    open spec fn mismatch_found(value: ValueV) -> DataType {
        spec_found_elem_tag(value)
    }

    open spec fn expected_tag() -> DataType {
        DataType::Str
    }

    fn convert_from(value: &Value) -> (r: Result<Vec<String>, ConvertError>) {
        match value {
            Value::List(List::Str(v)) => {
                let mut out: Vec<String> = Vec::with_capacity(v.len());
                let mut i: usize = 0;
                #[verifier::loop_isolation(false)]
                while i < v.len()
                    invariant
                        i <= v@.len(),
                        out@.len() == i,
                        forall|j: int| 0 <= j < i ==> #[trigger] out@[j]@ == v@[j]@,
                    decreases v@.len() - i,
                {
                    out.push(v[i].clone());
                    i = i + 1;
                }
                proof {
                    let lv = crate::wire::view_list(List::Str(*v));
                    assert(lv is Items && lv->Items_ty == 8);
                    assert(lv->Items_items.len() == out@.len());
                    assert(forall|j: int|
                        0 <= j < lv->Items_items.len() ==> lv->Items_items[j] == ValueV::Str(
                            out@[j]@,
                        ));
                    assert(value@ == ValueV::List(lv));
                }
                Ok(out)
            },
            _ => {
                proof {
                    crate::wire::lemma_view_list_tag(*value);
                }
                Err(mismatch(value, found_elem_tag(value), DataType::Str))
            },
        }
    }
}

impl ConvertFrom for Vec<u16> {
    open spec fn convert_ok(value: ValueV, r: Vec<u16>) -> bool {
        &&& value matches ValueV::List(l)
        &&& l matches ListV::Items { ty, items }
        &&& ty == 6
        &&& items.len() == r@.len()
        &&& forall|i: int| 0 <= i < items.len() ==> items[i] == ValueV::UInt(r@[i] as u64)
    }

    open spec fn convert_fails(value: ValueV) -> bool {
        !(value matches ValueV::List(l) && l matches ListV::Items { ty, items } && ty == 6
            && (forall|i: int| 0 <= i < items.len() ==> (#[trigger] items[i] matches ValueV::UInt(n) && n <= u16::MAX)))
    }

    open spec fn tag_mismatch(value: ValueV) -> bool {
        !(value matches ValueV::List(l) && l matches ListV::Items { ty, .. } && ty == 6)
    }

    open spec fn mismatch_found(value: ValueV) -> DataType {
        spec_found_elem_tag(value)
    }

    open spec fn expected_tag() -> DataType {
        DataType::UInt
    }

    fn convert_from(value: &Value) -> (r: Result<Vec<u16>, ConvertError>) {
        match value {
            Value::List(List::UInt(v)) => {
                let ghost lv = crate::wire::view_list(List::UInt(*v));
                proof {
                    assert(lv is Items && lv->Items_ty == 6);
                    assert(lv->Items_items.len() == v@.len());
                    assert(forall|j: int|
                        0 <= j < v@.len() ==> lv->Items_items[j] == ValueV::UInt(v@[j]));
                    assert(value@ == ValueV::List(lv));
                }
                let mut out: Vec<u16> = Vec::with_capacity(v.len());
                let mut i: usize = 0;
                #[verifier::loop_isolation(false)]
                while i < v.len()
                    invariant
                        i <= v@.len(),
                        out@.len() == i,
                        forall|j: int| 0 <= j < i ==> #[trigger] v@[j] <= u16::MAX,
                        forall|j: int| 0 <= j < i ==> #[trigger] out@[j] == v@[j] as u16,
                    decreases v@.len() - i,
                {
                    let n = v[i];
                    if n > u16::MAX as u64 {
                        proof {
                            assert(lv->Items_items[i as int] == ValueV::UInt(v@[i as int]));
                            assert(!(lv->Items_items[i as int] matches ValueV::UInt(m) && m <= u16::MAX));
                        }
                        return Err(
                            ConvertError::new("value out of range for target".to_owned()),
                        );
                    }
                    out.push(n as u16);
                    i = i + 1;
                }
                proof {
                    assert forall|j: int| 0 <= j < lv->Items_items.len() implies lv->Items_items[j]
                        == ValueV::UInt(out@[j] as u64) by {
                        assert(lv->Items_items[j] == ValueV::UInt(v@[j]));
                    }
                    assert forall|j: int|
                        0 <= j < lv->Items_items.len() implies (#[trigger] lv->Items_items[j]
                        matches ValueV::UInt(n) && n <= u16::MAX) by {
                        assert(lv->Items_items[j] == ValueV::UInt(v@[j]));
                    }
                }
                Ok(out)
            },
            _ => {
                proof {
                    crate::wire::lemma_view_list_tag(*value);
                }
                Err(mismatch(value, found_elem_tag(value), DataType::UInt))
            },
        }
    }
}

impl ConvertFrom for Vec<u32> {
    open spec fn convert_ok(value: ValueV, r: Vec<u32>) -> bool {
        &&& value matches ValueV::List(l)
        &&& l matches ListV::Items { ty, items }
        &&& ty == 6
        &&& items.len() == r@.len()
        &&& forall|i: int| 0 <= i < items.len() ==> items[i] == ValueV::UInt(r@[i] as u64)
    }

    open spec fn convert_fails(value: ValueV) -> bool {
        !(value matches ValueV::List(l) && l matches ListV::Items { ty, items } && ty == 6
            && (forall|i: int| 0 <= i < items.len() ==> (#[trigger] items[i] matches ValueV::UInt(n) && n <= u32::MAX)))
    }

    open spec fn tag_mismatch(value: ValueV) -> bool {
        !(value matches ValueV::List(l) && l matches ListV::Items { ty, .. } && ty == 6)
    }

    open spec fn mismatch_found(value: ValueV) -> DataType {
        spec_found_elem_tag(value)
    }

    open spec fn expected_tag() -> DataType {
        DataType::UInt
    }

    fn convert_from(value: &Value) -> (r: Result<Vec<u32>, ConvertError>) {
        match value {
            Value::List(List::UInt(v)) => {
                let ghost lv = crate::wire::view_list(List::UInt(*v));
                proof {
                    assert(lv is Items && lv->Items_ty == 6);
                    assert(lv->Items_items.len() == v@.len());
                    assert(forall|j: int|
                        0 <= j < v@.len() ==> lv->Items_items[j] == ValueV::UInt(v@[j]));
                    assert(value@ == ValueV::List(lv));
                }
                let mut out: Vec<u32> = Vec::with_capacity(v.len());
                let mut i: usize = 0;
                #[verifier::loop_isolation(false)]
                while i < v.len()
                    invariant
                        i <= v@.len(),
                        out@.len() == i,
                        forall|j: int| 0 <= j < i ==> #[trigger] v@[j] <= u32::MAX,
                        forall|j: int| 0 <= j < i ==> #[trigger] out@[j] == v@[j] as u32,
                    decreases v@.len() - i,
                {
                    let n = v[i];
                    if n > u32::MAX as u64 {
                        proof {
                            assert(lv->Items_items[i as int] == ValueV::UInt(v@[i as int]));
                            assert(!(lv->Items_items[i as int] matches ValueV::UInt(m) && m <= u32::MAX));
                        }
                        return Err(
                            ConvertError::new("value out of range for target".to_owned()),
                        );
                    }
                    out.push(n as u32);
                    i = i + 1;
                }
                proof {
                    assert forall|j: int| 0 <= j < lv->Items_items.len() implies lv->Items_items[j]
                        == ValueV::UInt(out@[j] as u64) by {
                        assert(lv->Items_items[j] == ValueV::UInt(v@[j]));
                    }
                    assert forall|j: int|
                        0 <= j < lv->Items_items.len() implies (#[trigger] lv->Items_items[j]
                        matches ValueV::UInt(n) && n <= u32::MAX) by {
                        assert(lv->Items_items[j] == ValueV::UInt(v@[j]));
                    }
                }
                Ok(out)
            },
            _ => {
                proof {
                    crate::wire::lemma_view_list_tag(*value);
                }
                Err(mismatch(value, found_elem_tag(value), DataType::UInt))
            },
        }
    }
}

impl ConvertFrom for Vec<i16> {
    open spec fn convert_ok(value: ValueV, r: Vec<i16>) -> bool {
        &&& value matches ValueV::List(l)
        &&& l matches ListV::Items { ty, items }
        &&& ty == 7
        &&& items.len() == r@.len()
        &&& forall|i: int| 0 <= i < items.len() ==> items[i] == ValueV::Int(r@[i] as i64)
    }

    open spec fn convert_fails(value: ValueV) -> bool {
        !(value matches ValueV::List(l) && l matches ListV::Items { ty, items } && ty == 7
            && (forall|i: int| 0 <= i < items.len() ==> (#[trigger] items[i] matches ValueV::Int(n) && i16::MIN <= n <= i16::MAX)))
    }

    open spec fn tag_mismatch(value: ValueV) -> bool {
        !(value matches ValueV::List(l) && l matches ListV::Items { ty, .. } && ty == 7)
    }

    open spec fn mismatch_found(value: ValueV) -> DataType {
        spec_found_elem_tag(value)
    }

    open spec fn expected_tag() -> DataType {
        DataType::Int
    }

    fn convert_from(value: &Value) -> (r: Result<Vec<i16>, ConvertError>) {
        match value {
            Value::List(List::Int(v)) => {
                let ghost lv = crate::wire::view_list(List::Int(*v));
                proof {
                    assert(lv is Items && lv->Items_ty == 7);
                    assert(lv->Items_items.len() == v@.len());
                    assert(forall|j: int|
                        0 <= j < v@.len() ==> lv->Items_items[j] == ValueV::Int(v@[j]));
                    assert(value@ == ValueV::List(lv));
                }
                let mut out: Vec<i16> = Vec::with_capacity(v.len());
                let mut i: usize = 0;
                #[verifier::loop_isolation(false)]
                while i < v.len()
                    invariant
                        i <= v@.len(),
                        out@.len() == i,
                        forall|j: int| 0 <= j < i ==> i16::MIN <= #[trigger] v@[j] <= i16::MAX,
                        forall|j: int| 0 <= j < i ==> #[trigger] out@[j] == v@[j] as i16,
                    decreases v@.len() - i,
                {
                    let n = v[i];
                    if n < i16::MIN as i64 || n > i16::MAX as i64 {
                        proof {
                            assert(lv->Items_items[i as int] == ValueV::Int(v@[i as int]));
                            assert(!(lv->Items_items[i as int] matches ValueV::Int(m) && i16::MIN <= m <= i16::MAX));
                        }
                        return Err(
                            ConvertError::new("value out of range for target".to_owned()),
                        );
                    }
                    out.push(n as i16);
                    i = i + 1;
                }
                proof {
                    assert forall|j: int| 0 <= j < lv->Items_items.len() implies lv->Items_items[j]
                        == ValueV::Int(out@[j] as i64) by {
                        assert(lv->Items_items[j] == ValueV::Int(v@[j]));
                    }
                    assert forall|j: int|
                        0 <= j < lv->Items_items.len() implies (#[trigger] lv->Items_items[j]
                        matches ValueV::Int(n) && i16::MIN <= n <= i16::MAX) by {
                        assert(lv->Items_items[j] == ValueV::Int(v@[j]));
                    }
                }
                Ok(out)
            },
            _ => {
                proof {
                    crate::wire::lemma_view_list_tag(*value);
                }
                Err(mismatch(value, found_elem_tag(value), DataType::Int))
            },
        }
    }
}

impl ConvertFrom for Vec<i32> {
    open spec fn convert_ok(value: ValueV, r: Vec<i32>) -> bool {
        &&& value matches ValueV::List(l)
        &&& l matches ListV::Items { ty, items }
        &&& ty == 7
        &&& items.len() == r@.len()
        &&& forall|i: int| 0 <= i < items.len() ==> items[i] == ValueV::Int(r@[i] as i64)
    }

    open spec fn convert_fails(value: ValueV) -> bool {
        !(value matches ValueV::List(l) && l matches ListV::Items { ty, items } && ty == 7
            && (forall|i: int| 0 <= i < items.len() ==> (#[trigger] items[i] matches ValueV::Int(n) && i32::MIN <= n <= i32::MAX)))
    }

    open spec fn tag_mismatch(value: ValueV) -> bool {
        !(value matches ValueV::List(l) && l matches ListV::Items { ty, .. } && ty == 7)
    }

    open spec fn mismatch_found(value: ValueV) -> DataType {
        spec_found_elem_tag(value)
    }

    open spec fn expected_tag() -> DataType {
        DataType::Int
    }

    fn convert_from(value: &Value) -> (r: Result<Vec<i32>, ConvertError>) {
        match value {
            Value::List(List::Int(v)) => {
                let ghost lv = crate::wire::view_list(List::Int(*v));
                proof {
                    assert(lv is Items && lv->Items_ty == 7);
                    assert(lv->Items_items.len() == v@.len());
                    assert(forall|j: int|
                        0 <= j < v@.len() ==> lv->Items_items[j] == ValueV::Int(v@[j]));
                    assert(value@ == ValueV::List(lv));
                }
                let mut out: Vec<i32> = Vec::with_capacity(v.len());
                let mut i: usize = 0;
                #[verifier::loop_isolation(false)]
                while i < v.len()
                    invariant
                        i <= v@.len(),
                        out@.len() == i,
                        forall|j: int| 0 <= j < i ==> i32::MIN <= #[trigger] v@[j] <= i32::MAX,
                        forall|j: int| 0 <= j < i ==> #[trigger] out@[j] == v@[j] as i32,
                    decreases v@.len() - i,
                {
                    let n = v[i];
                    if n < i32::MIN as i64 || n > i32::MAX as i64 {
                        proof {
                            assert(lv->Items_items[i as int] == ValueV::Int(v@[i as int]));
                            assert(!(lv->Items_items[i as int] matches ValueV::Int(m) && i32::MIN <= m <= i32::MAX));
                        }
                        return Err(
                            ConvertError::new("value out of range for target".to_owned()),
                        );
                    }
                    out.push(n as i32);
                    i = i + 1;
                }
                proof {
                    assert forall|j: int| 0 <= j < lv->Items_items.len() implies lv->Items_items[j]
                        == ValueV::Int(out@[j] as i64) by {
                        assert(lv->Items_items[j] == ValueV::Int(v@[j]));
                    }
                    assert forall|j: int|
                        0 <= j < lv->Items_items.len() implies (#[trigger] lv->Items_items[j]
                        matches ValueV::Int(n) && i32::MIN <= n <= i32::MAX) by {
                        assert(lv->Items_items[j] == ValueV::Int(v@[j]));
                    }
                }
                Ok(out)
            },
            _ => {
                proof {
                    crate::wire::lemma_view_list_tag(*value);
                }
                Err(mismatch(value, found_elem_tag(value), DataType::Int))
            },
        }
    }
}

impl Entries {
    /// Looks a key up and converts the value found into the target; failures
    /// are annotated with the key. A missing key is a required-field error —
    /// an optional field uses [`Entries::get_and_convert_opt`] instead.
    pub fn get_and_convert<T: ConvertFrom>(&self, k: u16) -> (r: Result<T, ConvertError>)
        ensures
            match r {
                Ok(v) => spec_lookup(self@, k) matches Some(vv) && T::convert_ok(vv, v)
                    && !T::convert_fails(vv),
                Err(e) => {
                    &&& e.key == Some(k)
                    &&& match spec_lookup(self@, k) {
                        Some(vv) => T::convert_fails(vv) && (T::tag_mismatch(vv) ==> e.error
                            == Error::InvalidType(
                            InvalidType { found: T::mismatch_found(vv), expected: T::expected_tag() },
                        )),
                        None => e.error is Required,
                    }
                },
            },
    {
        match self.get(k) {
            Some(v) => match T::convert_from(v) {
                Ok(x) => Ok(x),
                Err(ce) => Err(ConvertError { key: Some(k), error: ce.error }),
            },
            None => Err(
                ConvertError { key: Some(k), error: Error::Required(RequiredField { name: "" }) },
            ),
        }
    }

    /// Looks a key up and converts it for an optional target: a missing key
    /// is no value rather than an error.
    pub fn get_and_convert_opt<T: ConvertFrom>(&self, k: u16) -> (r: Result<
        Option<T>,
        ConvertError,
    >)
        ensures
            match r {
                Ok(o) => match o {
                    Some(v) => spec_lookup(self@, k) matches Some(vv) && T::convert_ok(vv, v)
                        && !T::convert_fails(vv),
                    None => spec_lookup(self@, k) is None,
                },
                Err(e) => {
                    &&& e.key == Some(k)
                    &&& spec_lookup(self@, k) matches Some(vv) && T::convert_fails(vv)
                },
            },
    {
        match self.get(k) {
            Some(v) => match T::convert_from(v) {
                Ok(x) => Ok(Some(x)),
                Err(ce) => Err(ConvertError { key: Some(k), error: ce.error }),
            },
            None => Ok(None),
        }
    }
}

/// Converts a two-entry struct body — a list of keys under key `0` and a
/// list of values under key `1`, of equal lengths — into ordered key/value
/// pairs: the mapping-shaped aggregate target. Any other shape fails whole:
/// a body with more or fewer entries, a missing or ill-typed column, or
/// columns of unequal lengths.
pub fn map_pairs_from_entries<K, V>(e: &Entries) -> (r: Result<Vec<(K, V)>, ConvertError>) where
    Vec<K>: ConvertFrom,
    Vec<V>: ConvertFrom,

    ensures
        match r {
            Ok(pairs) => {
                &&& e@.len() == 2
                &&& spec_lookup(e@, 0) matches Some(kv) && !<Vec<K> as ConvertFrom>::convert_fails(
                    kv,
                )
                &&& spec_lookup(e@, 1) matches Some(vv) && !<Vec<V> as ConvertFrom>::convert_fails(
                    vv,
                )
                &&& exists|ks: Vec<K>, vs: Vec<V>|
                    {
                        &&& #[trigger] <Vec<K> as ConvertFrom>::convert_ok(
                            spec_lookup(e@, 0)->0,
                            ks,
                        )
                        &&& #[trigger] <Vec<V> as ConvertFrom>::convert_ok(
                            spec_lookup(e@, 1)->0,
                            vs,
                        )
                        &&& ks@.len() == vs@.len() && pairs@.len() == ks@.len()
                        &&& forall|i: int|
                            0 <= i < pairs@.len() ==> #[trigger] pairs@[i] == (ks@[i], vs@[i])
                    }
            },
            Err(_) => {
                ||| !(e@.len() == 2 && (spec_lookup(e@, 0) matches Some(kv) && !<Vec<
                    K,
                > as ConvertFrom>::convert_fails(kv)) && (spec_lookup(e@, 1) matches Some(vv)
                    && !<Vec<V> as ConvertFrom>::convert_fails(vv)))
                ||| exists|ks: Vec<K>, vs: Vec<V>|
                    {
                        &&& #[trigger] <Vec<K> as ConvertFrom>::convert_ok(
                            spec_lookup(e@, 0)->0,
                            ks,
                        )
                        &&& #[trigger] <Vec<V> as ConvertFrom>::convert_ok(
                            spec_lookup(e@, 1)->0,
                            vs,
                        )
                        &&& ks@.len() != vs@.len()
                    }
            },
        },
{
    if e.len() != 2 {
        return Err(ConvertError::new("a mapping takes exactly two columns".to_owned()));
    }
    let keys: Vec<K> = match e.get_and_convert::<Vec<K>>(0) {
        Ok(ks) => ks,
        Err(err) => {
            return Err(err);
        },
    };
    let values: Vec<V> = match e.get_and_convert::<Vec<V>>(1) {
        Ok(vs) => vs,
        Err(err) => {
            return Err(err);
        },
    };
    if keys.len() != values.len() {
        return Err(ConvertError::new("mismatched key and value lengths".to_owned()));
    }
    let ghost ks = keys;
    let ghost vs = values;
    let n = keys.len();
    let mut pairs: Vec<(K, V)> = Vec::with_capacity(n);
    let mut keys = keys;
    let mut values = values;
    let mut i: usize = 0;
    #[verifier::loop_isolation(false)]
    while i < n
        invariant
            i <= n,
            keys@ == ks@.skip(i as int),
            values@ == vs@.skip(i as int),
            ks@.len() == vs@.len() == n,
            pairs@.len() == i,
            forall|j: int| 0 <= j < i ==> #[trigger] pairs@[j] == (ks@[j], vs@[j]),
        decreases n - i,
    {
        let k = keys.remove(0);
        let v = values.remove(0);
        proof {
            assert(ks@.skip(i as int).drop_first() =~= ks@.skip(i as int + 1));
            assert(vs@.skip(i as int).drop_first() =~= vs@.skip(i as int + 1));
        }
        pairs.push((k, v));
        i = i + 1;
    }
    Ok(pairs)
}

} // verus!

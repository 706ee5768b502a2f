//! The push-based encoder: writes values into a byte sink, mirroring the
//! decode tag space. Every function appends exactly the bytes that the
//! specification functions in [`crate::wire`] prescribe; a container whose
//! length exceeds the 32-bit wire limit is reported as [`Error::Oversize`],
//! and bytes already written stay written.

use vstd::prelude::*;
use vstd::bytes::{spec_u32_to_le_bytes, spec_u64_to_le_bytes, u32_to_le_bytes, u64_to_le_bytes};
use vstd::utf8::encode_utf8;

use crate::bit_set::BitSet;
use crate::entries::{Entries, Entry};
use crate::errors::Error;
use crate::utils::u8_vec_from;
use crate::varint::spec_varint;
use crate::wire::{blob_items, lemma_blob_items_len, lemma_enc_ok_items_pointwise, enc_column_seq, enc_entries, enc_entry, enc_entry_seq, enc_header, enc_items,
    enc_list, enc_list_payload, enc_ok_column_seq, enc_ok_entry_seq, enc_ok_items, enc_ok_list,
    enc_ok_list_payload, enc_ok_value, enc_table, enc_value, lemma_enc_items_i8,
    lemma_enc_items_u8, lemma_view_column_seq_len, lemma_view_list_items_len,
    lemma_view_struct_items_len, lemma_view_table_items_len, lemma_view_union_items_len, list_len,
    list_tag, tag_of, view_column_seq, view_entry_seq, view_list, view_list_items,
    view_struct_items, view_table_items, view_union_items, view_value, ListV, ValueV};
use crate::zig_zag;
use crate::{F32Bits, F64Bits, List, Table, Value};

verus! {

broadcast use vstd::seq::group_seq_axioms, vstd::std_specs::vec::group_vec_axioms;

/// Appends the LEB128 encoding of `num`.
fn write_varint(writer: &mut Vec<u8>, num: u64)
    ensures
        final(writer)@ == old(writer)@ + spec_varint(num),
{
    let ghost prefix = writer@;
    let ghost n0 = num;
    let mut num = num;
    #[verifier::loop_isolation(false)]
    loop
        invariant
            writer@ + spec_varint(num) == prefix + spec_varint(n0),
        decreases num,
    {
        if num < 128 {
            writer.push(num as u8);
            proof {
                assert(writer@ =~= prefix + spec_varint(n0));
            }
            return ;
        }
        let ghost before = writer@;
        writer.push((num % 128 + 128) as u8);
        proof {
            assert(writer@ + spec_varint((num / 128) as u64) =~= before + spec_varint(num));
        }
        num = num / 128;
    }
}

/// Writes an unsigned payload: one varint.
pub fn encode_uint(writer: &mut Vec<u8>, num: u64)
    ensures
        final(writer)@ == old(writer)@ + spec_varint(num),
{
    write_varint(writer, num);
}

/// Writes a signed payload: the zig-zag image as a varint.
pub fn encode_int(writer: &mut Vec<u8>, num: i64)
    ensures
        final(writer)@ == old(writer)@ + spec_varint(crate::zig_zag::spec_zigzag(num)),
{
    write_varint(writer, zig_zag::into(num));
}

/// Writes a header: the id in the high nibble when it fits, else the escape
/// nibble and `varint(id - 15)`.
pub fn encode_header(writer: &mut Vec<u8>, num: u32, ty: u8)
    requires
        ty < 16,
    ensures
        final(writer)@ == old(writer)@ + enc_header(num as u64, ty),
{
    if num < 15 {
        writer.push((num as u8) * 16 + ty);
        proof {
            assert(writer@ =~= old(writer)@ + enc_header(num as u64, ty));
        }
    } else {
        let ghost w0 = writer@;
        writer.push(240 + ty);
        write_varint(writer, (num - 15) as u64);
        proof {
            assert(writer@ =~= w0 + enc_header(num as u64, ty));
        }
    }
}

/// Writes a length as a varint, refusing one beyond the 32-bit wire limit.
pub fn encode_length(writer: &mut Vec<u8>, length: usize) -> (r: Result<(), Error>)
    ensures
        r is Ok <==> length <= u32::MAX,
        r is Ok ==> final(writer)@ == old(writer)@ + spec_varint(length as u64),
        r is Err ==> *final(writer) == *old(writer) && r == Err::<(), Error>(Error::Oversize),
{
    if length as u64 > u32::MAX as u64 {
        return Err(Error::Oversize);
    }
    write_varint(writer, length as u64);
    Ok(())
}

/// Writes a length-prefixed byte block.
pub fn encode_bytes(writer: &mut Vec<u8>, bytes: &[u8]) -> (r: Result<(), Error>)
    ensures
        r is Ok <==> bytes@.len() <= u32::MAX,
        r is Ok ==> final(writer)@ == old(writer)@ + spec_varint(bytes@.len() as u64) + bytes@,
        r is Err ==> *final(writer) == *old(writer) && r == Err::<(), Error>(Error::Oversize),
{
    let ghost w0 = writer@;
    encode_length(writer, bytes.len())?;
    writer.extend_from_slice(bytes);
    proof {
        assert(writer@ =~= w0 + spec_varint(bytes@.len() as u64) + bytes@);
    }
    Ok(())
}

/// Writes the two headers that open a list field: the field header and the
/// list's own length-and-element-tag header.
pub fn encode_header_list(writer: &mut Vec<u8>, id: u16, len: usize, ty: u8) -> (r: Result<
    (),
    Error,
>)
    requires
        ty < 16,
    ensures
        r is Ok <==> len <= u32::MAX,
        r is Ok ==> final(writer)@ == old(writer)@ + enc_header(id as u64, 11) + enc_header(
            len as u64,
            ty,
        ),
        r is Err ==> *final(writer) == *old(writer) && r == Err::<(), Error>(Error::Oversize),
{
    if len as u64 > u32::MAX as u64 {
        return Err(Error::Oversize);
    }
    encode_header(writer, id as u32, 11);
    encode_header(writer, len as u32, ty);
    Ok(())
}

/// The wire tag of a value.
pub fn value_tag(v: &Value) -> (r: u8)
    ensures
        r == tag_of(v@),
        r < 16,
{
    match v {
        Value::Bool(b) => if *b {
            1
        } else {
            0
        },
        Value::U8(_) => 2,
        Value::I8(_) => 3,
        Value::F32(_) => 4,
        Value::F64(_) => 5,
        Value::UInt(_) => 6,
        Value::Int(_) => 7,
        Value::Str(_) => 8,
        Value::Struct(_) => 9,
        Value::Union(_) => 10,
        Value::List(_) => 11,
        Value::Table(_) => 12,
        Value::UnknownI(_) => 13,
        Value::UnknownII(_) => 14,
        Value::UnknownIII(_) => 15,
    }
}

/// The element tag of a list.
pub fn list_elem_tag(l: &List) -> (r: u8)
    ensures
        r == list_tag(l@),
        1 <= r <= 15,
{
    match l {
        List::Bool(_) => 1,
        List::U8(_) => 2,
        List::I8(_) => 3,
        List::F32(_) => 4,
        List::F64(_) => 5,
        List::UInt(_) => 6,
        List::Int(_) => 7,
        List::Str(_) => 8,
        List::Struct(_) => 9,
        List::Union(_) => 10,
        List::List(_) => 11,
        List::Table(_) => 12,
        List::UnknownI(_) => 13,
        List::UnknownII(_) => 14,
        List::UnknownIII(_) => 15,
    }
}

/// The logical length of a list.
pub fn list_length(l: &List) -> (r: usize)
    ensures
        r as int == list_len(l@),
{
    match l {
        List::Bool(bs) => bs.capacity(),
        List::U8(v) => v.len(),
        List::I8(v) => v.len(),
        List::F32(v) => v.len(),
        List::F64(v) => v.len(),
        List::UInt(v) => v.len(),
        List::Int(v) => v.len(),
        List::Str(v) => v.len(),
        List::Struct(v) => {
            proof {
                lemma_view_struct_items_len(v@);
            }
            v.len()
        },
        List::Union(v) => {
            proof {
                lemma_view_union_items_len(v@);
            }
            v.len()
        },
        List::List(v) => {
            proof {
                lemma_view_list_items_len(v@);
            }
            v.len()
        },
        List::Table(v) => {
            proof {
                lemma_view_table_items_len(v@);
            }
            v.len()
        },
        List::UnknownI(v) => v.len(),
        List::UnknownII(v) => v.len(),
        List::UnknownIII(v) => v.len(),
    }
}

/// Writes the payload of one value: what follows its header on the wire.
pub fn encode_value(v: &Value, writer: &mut Vec<u8>) -> (r: Result<(), Error>)
    ensures
        r is Ok <==> enc_ok_value(v@),
        r is Ok ==> final(writer)@ == old(writer)@ + enc_value(v@),
        r is Err ==> r == Err::<(), Error>(Error::Oversize),
        old(writer)@.is_prefix_of(final(writer)@),
    decreases *v, 0int,
{
    let ghost w0 = writer@;
    match v {
        Value::Bool(_) => {
            proof {
                assert(writer@ =~= w0 + enc_value(v@));
            }
            Ok(())
        },
        Value::U8(n) => {
            writer.push(*n);
            proof {
                assert(writer@ =~= w0 + enc_value(v@));
            }
            Ok(())
        },
        Value::I8(n) => {
            writer.push(crate::utils::byte_from_i8(*n));
            proof {
                assert(writer@ =~= w0 + enc_value(v@));
            }
            Ok(())
        },
        Value::F32(b) => {
            let mut bytes = u32_to_le_bytes(b.0);
            writer.append(&mut bytes);
            Ok(())
        },
        Value::F64(b) => {
            let mut bytes = u64_to_le_bytes(b.0);
            writer.append(&mut bytes);
            Ok(())
        },
        Value::UInt(n) => {
            write_varint(writer, *n);
            Ok(())
        },
        Value::Int(n) => {
            write_varint(writer, zig_zag::into(*n));
            Ok(())
        },
        Value::Str(s) => {
            let r = encode_bytes(writer, s.as_str().as_bytes());
            proof {
                if r is Ok {
                    assert(writer@ =~= w0 + enc_value(v@));
                }
            }
            r
        },
        Value::Struct(e) => encode_entries(e, writer),
        Value::Union(e) => encode_entry(&**e, writer),
        Value::List(l) => encode_list(l, writer),
        Value::Table(t) => encode_table(t, writer),
        Value::UnknownI(b) => {
            let r = encode_bytes(writer, b.as_slice());
            proof {
                if r is Ok {
                    assert(writer@ =~= w0 + enc_value(v@));
                }
            }
            r
        },
        Value::UnknownII(b) => {
            let r = encode_bytes(writer, b.as_slice());
            proof {
                if r is Ok {
                    assert(writer@ =~= w0 + enc_value(v@));
                }
            }
            r
        },
        Value::UnknownIII(b) => {
            let r = encode_bytes(writer, b.as_slice());
            proof {
                if r is Ok {
                    assert(writer@ =~= w0 + enc_value(v@));
                }
            }
            r
        },
    }
}

/// Writes one header-prefixed field: header of key and tag, then payload.
pub fn encode_entry(e: &Entry, writer: &mut Vec<u8>) -> (r: Result<(), Error>)
    ensures
        r is Ok <==> enc_ok_value(view_value(e.value)),
        r is Ok ==> final(writer)@ == old(writer)@ + enc_entry(e.key, view_value(e.value)),
        r is Err ==> r == Err::<(), Error>(Error::Oversize),
        old(writer)@.is_prefix_of(final(writer)@),
    decreases e.value, 1int,
{
    let ghost w0 = writer@;
    let tag = value_tag(&e.value);
    encode_header(writer, e.key as u32, tag);
    let r = encode_value(&e.value, writer);
    proof {
        if r is Ok {
            assert(writer@ =~= w0 + enc_entry(e.key, view_value(e.value)));
        } else {
            assert(w0.is_prefix_of(writer@));
        }
    }
    r
}

/// Writes a struct body: a varint entry count, then each field in order.
pub fn encode_entries(e: &Entries, writer: &mut Vec<u8>) -> (r: Result<(), Error>)
    ensures
        r is Ok <==> enc_ok_value(ValueV::Struct(e@)),
        r is Ok ==> final(writer)@ == old(writer)@ + enc_entries(e@),
        r is Err ==> r == Err::<(), Error>(Error::Oversize),
        old(writer)@.is_prefix_of(final(writer)@),
    decreases *e, 0int,
{
    let ghost w0 = writer@;
    let ghost es = e@;
    proof {
        crate::entries::lemma_view_entry_seq_len(e.0@);
    }
    if encode_length(writer, self_len(e)).is_err() {
        return Err(Error::Oversize);
    }
    let n = e.0.len();
    let mut i: usize = 0;
    proof {
        assert(es.skip(0) =~= es);
        assert(writer@ + enc_entry_seq(es.skip(0)) =~= w0 + enc_entries(es));
    }
    #[verifier::loop_isolation(false)]
    while i < n
        invariant
            i <= n,
            writer@ + enc_entry_seq(es.skip(i as int)) == w0 + enc_entries(es),
            enc_ok_entry_seq(es) == enc_ok_entry_seq(es.skip(i as int)),
            w0.is_prefix_of(writer@),
        decreases n - i,
    {
        let ghost i0 = i as int;
        proof {
            assert(es.skip(i0)[0] == es[i0]);
            assert(es.skip(i0).drop_first() =~= es.skip(i0 + 1));
            assert(es[i0] == (e.0@[i0].key, view_value(e.0@[i0].value)));
            assert(enc_entry_seq(es.skip(i0)) == enc_entry(es[i0].0, es[i0].1) + enc_entry_seq(
                es.skip(i0 + 1),
            ));
            assert(enc_ok_entry_seq(es.skip(i0)) == (enc_ok_value(es[i0].1) && enc_ok_entry_seq(
                es.skip(i0 + 1),
            )));
        }
        let r = encode_entry(&e.0[i], writer);
        if r.is_err() {
            return Err(Error::Oversize);
        }
        i = i + 1;
        proof {
            assert(writer@ + enc_entry_seq(es.skip(i as int)) =~= w0 + enc_entries(es));
            assert(enc_ok_entry_seq(es) == enc_ok_entry_seq(es.skip(i as int)));
        }
    }
    proof {
        assert(es.skip(n as int) =~= Seq::<(u16, ValueV)>::empty());
        assert(writer@ + enc_entry_seq(es.skip(n as int)) =~= writer@);
    }
    Ok(())
}

/// The entry count of a struct body.
fn self_len(e: &Entries) -> (r: usize)
    ensures
        r == e@.len(),
{
    proof {
        crate::entries::lemma_view_entry_seq_len(e.0@);
    }
    e.0.len()
}

/// Writes a list value: a header of its length and element tag, then its
/// bare payload.
pub fn encode_list(l: &List, writer: &mut Vec<u8>) -> (r: Result<(), Error>)
    ensures
        r is Ok <==> enc_ok_list(l@),
        r is Ok ==> final(writer)@ == old(writer)@ + enc_list(l@),
        r is Err ==> r == Err::<(), Error>(Error::Oversize),
        old(writer)@.is_prefix_of(final(writer)@),
    decreases *l, 1int,
{
    let ghost w0 = writer@;
    let len = list_length(l);
    if len as u64 > u32::MAX as u64 {
        return Err(Error::Oversize);
    }
    let tag = list_elem_tag(l);
    encode_header(writer, len as u32, tag);
    let r = encode_list_payload(l, writer);
    proof {
        if r is Ok {
            assert(writer@ =~= w0 + enc_list(l@));
        }
    }
    r
}

/// Writes the bare payload of a list: packed bytes for booleans, element
/// payloads otherwise.
pub fn encode_list_payload(l: &List, writer: &mut Vec<u8>) -> (r: Result<(), Error>)
    ensures
        r is Ok <==> enc_ok_list_payload(l@),
        r is Ok ==> final(writer)@ == old(writer)@ + enc_list_payload(l@),
        r is Err ==> r == Err::<(), Error>(Error::Oversize),
        old(writer)@.is_prefix_of(final(writer)@),
    decreases *l, 0int,
{
    let ghost w0 = writer@;
    match l {
        List::Bool(bs) => {
            writer.extend_from_slice(bs.as_packed_bytes());
            proof {
                assert(writer@ =~= w0 + enc_list_payload(l@));
            }
            Ok(())
        },
        List::U8(v) => {
            writer.extend_from_slice(v.as_slice());
            proof {
                lemma_enc_items_u8(v@);
                assert(writer@ =~= w0 + enc_list_payload(l@));
            }
            proof {
                let items = v@.map_values(|n: u8| ValueV::U8(n));
                lemma_enc_ok_items_pointwise(items);
                assert forall|i: int| 0 <= i < items.len() implies enc_ok_value(
                    #[trigger] items[i],
                ) by {
                    assert(items[i] == ValueV::U8(v@[i]));
                }
            }
            Ok(())
        },
        List::I8(v) => {
            let bytes = u8_vec_from(v.as_slice());
            writer.extend_from_slice(bytes.as_slice());
            proof {
                lemma_enc_items_i8(v@);
                assert(bytes@ =~= v@.map_values(|n: i8| crate::utils::spec_byte_of_i8(n)));
                assert(writer@ =~= w0 + enc_list_payload(l@));
            }
            proof {
                let items = v@.map_values(|n: i8| ValueV::I8(n));
                lemma_enc_ok_items_pointwise(items);
                assert forall|i: int| 0 <= i < items.len() implies enc_ok_value(
                    #[trigger] items[i],
                ) by {
                    assert(items[i] == ValueV::I8(v@[i]));
                }
            }
            Ok(())
        },
        List::F32(v) => {
            encode_items_f32(v, writer);
            proof {
                let items = v@.map_values(|b: F32Bits| ValueV::F32(b.0));
                lemma_enc_ok_items_pointwise(items);
                assert forall|i: int| 0 <= i < items.len() implies enc_ok_value(
                    #[trigger] items[i],
                ) by {
                    assert(items[i] == ValueV::F32(v@[i].0));
                }
            }
            Ok(())
        },
        List::F64(v) => {
            encode_items_f64(v, writer);
            proof {
                let items = v@.map_values(|b: F64Bits| ValueV::F64(b.0));
                lemma_enc_ok_items_pointwise(items);
                assert forall|i: int| 0 <= i < items.len() implies enc_ok_value(
                    #[trigger] items[i],
                ) by {
                    assert(items[i] == ValueV::F64(v@[i].0));
                }
            }
            Ok(())
        },
        List::UInt(v) => {
            encode_items_uint(v, writer);
            proof {
                let items = v@.map_values(|n: u64| ValueV::UInt(n));
                lemma_enc_ok_items_pointwise(items);
                assert forall|i: int| 0 <= i < items.len() implies enc_ok_value(
                    #[trigger] items[i],
                ) by {
                    assert(items[i] == ValueV::UInt(v@[i]));
                }
            }
            Ok(())
        },
        List::Int(v) => {
            encode_items_int(v, writer);
            proof {
                let items = v@.map_values(|n: i64| ValueV::Int(n));
                lemma_enc_ok_items_pointwise(items);
                assert forall|i: int| 0 <= i < items.len() implies enc_ok_value(
                    #[trigger] items[i],
                ) by {
                    assert(items[i] == ValueV::Int(v@[i]));
                }
            }
            Ok(())
        },
        List::Str(v) => encode_items_str(v, writer),
        List::Struct(v) => encode_items_struct(v, writer),
        List::Union(v) => encode_items_union(v, writer),
        List::List(v) => encode_items_list(v, writer),
        List::Table(v) => encode_items_table(v, writer),
        List::UnknownI(v) => encode_items_blobs(v, writer, Ghost(l@)),
        List::UnknownII(v) => encode_items_blobs(v, writer, Ghost(l@)),
        List::UnknownIII(v) => encode_items_blobs(v, writer, Ghost(l@)),
    }
}

fn encode_items_f32(v: &Vec<F32Bits>, writer: &mut Vec<u8>)
    ensures
        final(writer)@ == old(writer)@ + enc_items(v@.map_values(|b: F32Bits| ValueV::F32(b.0))),
{
    let ghost w0 = writer@;
    let ghost items = v@.map_values(|b: F32Bits| ValueV::F32(b.0));
    let n = v.len();
    let mut i: usize = 0;
    proof {
        assert(items.skip(0) =~= items);
    }
    #[verifier::loop_isolation(false)]
    while i < n
        invariant
            i <= n,
            writer@ + enc_items(items.skip(i as int)) == w0 + enc_items(items),
        decreases n - i,
    {
        let ghost i0 = i as int;
        proof {
            assert(items.skip(i0)[0] == items[i0]);
            assert(items.skip(i0).drop_first() =~= items.skip(i0 + 1));
            assert(items[i0] == ValueV::F32(v@[i0].0));
            assert(enc_items(items.skip(i0)) == enc_value(items[i0]) + enc_items(
                items.skip(i0 + 1),
            ));
            assert(enc_value(items[i0]) == vstd::bytes::spec_u32_to_le_bytes(v@[i0].0));
        }
        let mut bytes = u32_to_le_bytes(v[i].0);
        writer.append(&mut bytes);
        i = i + 1;
        proof {
            assert(writer@ + enc_items(items.skip(i as int)) =~= w0 + enc_items(items));
        }
    }
    proof {
        assert(items.skip(n as int) =~= Seq::<ValueV>::empty());
        assert(writer@ + enc_items(items.skip(n as int)) =~= writer@);
    }
}

fn encode_items_f64(v: &Vec<F64Bits>, writer: &mut Vec<u8>)
    ensures
        final(writer)@ == old(writer)@ + enc_items(v@.map_values(|b: F64Bits| ValueV::F64(b.0))),
{
    let ghost w0 = writer@;
    let ghost items = v@.map_values(|b: F64Bits| ValueV::F64(b.0));
    let n = v.len();
    let mut i: usize = 0;
    proof {
        assert(items.skip(0) =~= items);
    }
    #[verifier::loop_isolation(false)]
    while i < n
        invariant
            i <= n,
            writer@ + enc_items(items.skip(i as int)) == w0 + enc_items(items),
        decreases n - i,
    {
        let ghost i0 = i as int;
        proof {
            assert(items.skip(i0)[0] == items[i0]);
            assert(items.skip(i0).drop_first() =~= items.skip(i0 + 1));
            assert(items[i0] == ValueV::F64(v@[i0].0));
            assert(enc_items(items.skip(i0)) == enc_value(items[i0]) + enc_items(
                items.skip(i0 + 1),
            ));
            assert(enc_value(items[i0]) == vstd::bytes::spec_u64_to_le_bytes(v@[i0].0));
        }
        let mut bytes = u64_to_le_bytes(v[i].0);
        writer.append(&mut bytes);
        i = i + 1;
        proof {
            assert(writer@ + enc_items(items.skip(i as int)) =~= w0 + enc_items(items));
        }
    }
    proof {
        assert(items.skip(n as int) =~= Seq::<ValueV>::empty());
        assert(writer@ + enc_items(items.skip(n as int)) =~= writer@);
    }
}

fn encode_items_uint(v: &Vec<u64>, writer: &mut Vec<u8>)
    ensures
        final(writer)@ == old(writer)@ + enc_items(v@.map_values(|n: u64| ValueV::UInt(n))),
{
    let ghost w0 = writer@;
    let ghost items = v@.map_values(|n: u64| ValueV::UInt(n));
    let n = v.len();
    let mut i: usize = 0;
    proof {
        assert(items.skip(0) =~= items);
    }
    #[verifier::loop_isolation(false)]
    while i < n
        invariant
            i <= n,
            writer@ + enc_items(items.skip(i as int)) == w0 + enc_items(items),
        decreases n - i,
    {
        proof {
            assert(items.skip(i as int)[0] == items[i as int]);
            assert(items.skip(i as int).drop_first() =~= items.skip(i as int + 1));
        }
        let ghost i0 = i as int;
        write_varint(writer, v[i]);
        i = i + 1;
        proof {
            assert(items[i0] == ValueV::UInt(v@[i0]));
            assert(enc_value(items[i0]) == spec_varint(v@[i0]));
            assert(enc_items(items.skip(i0)) == enc_value(items[i0]) + enc_items(
                items.skip(i0 + 1),
            ));
            assert(writer@ + enc_items(items.skip(i as int)) =~= w0 + enc_items(items));
        }
    }
    proof {
        assert(items.skip(n as int) =~= Seq::<ValueV>::empty());
        assert(writer@ + enc_items(items.skip(n as int)) =~= writer@);
    }
}

fn encode_items_int(v: &Vec<i64>, writer: &mut Vec<u8>)
    ensures
        final(writer)@ == old(writer)@ + enc_items(v@.map_values(|n: i64| ValueV::Int(n))),
{
    let ghost w0 = writer@;
    let ghost items = v@.map_values(|n: i64| ValueV::Int(n));
    let n = v.len();
    let mut i: usize = 0;
    proof {
        assert(items.skip(0) =~= items);
    }
    #[verifier::loop_isolation(false)]
    while i < n
        invariant
            i <= n,
            writer@ + enc_items(items.skip(i as int)) == w0 + enc_items(items),
        decreases n - i,
    {
        let ghost i0 = i as int;
        proof {
            assert(items.skip(i0)[0] == items[i0]);
            assert(items.skip(i0).drop_first() =~= items.skip(i0 + 1));
            assert(items[i0] == ValueV::Int(v@[i0]));
            assert(enc_items(items.skip(i0)) == enc_value(items[i0]) + enc_items(
                items.skip(i0 + 1),
            ));
            assert(enc_value(items[i0]) == spec_varint(crate::zig_zag::spec_zigzag(v@[i0])));
        }
        write_varint(writer, zig_zag::into(v[i]));
        i = i + 1;
        proof {
            assert(writer@ + enc_items(items.skip(i as int)) =~= w0 + enc_items(items));
        }
    }
    proof {
        assert(items.skip(n as int) =~= Seq::<ValueV>::empty());
        assert(writer@ + enc_items(items.skip(n as int)) =~= writer@);
    }
}

fn encode_items_str(v: &Vec<String>, writer: &mut Vec<u8>) -> (r: Result<(), Error>)
    ensures
        r is Ok <==> enc_ok_items(v@.map_values(|s: String| ValueV::Str(s@))),
        r is Ok ==> final(writer)@ == old(writer)@ + enc_items(
            v@.map_values(|s: String| ValueV::Str(s@)),
        ),
        r is Err ==> r == Err::<(), Error>(Error::Oversize),
        old(writer)@.is_prefix_of(final(writer)@),
{
    let ghost w0 = writer@;
    let ghost items = v@.map_values(|s: String| ValueV::Str(s@));
    let n = v.len();
    let mut i: usize = 0;
    proof {
        assert(items.skip(0) =~= items);
    }
    #[verifier::loop_isolation(false)]
    while i < n
        invariant
            i <= n,
            writer@ + enc_items(items.skip(i as int)) == w0 + enc_items(items),
            enc_ok_items(items) == enc_ok_items(items.skip(i as int)),
            w0.is_prefix_of(writer@),
        decreases n - i,
    {
        let ghost i0 = i as int;
        proof {
            assert(items.skip(i0)[0] == items[i0]);
            assert(items.skip(i0).drop_first() =~= items.skip(i0 + 1));
            assert(items[i0] == ValueV::Str(v@[i0]@));
            assert(enc_items(items.skip(i0)) == enc_value(items[i0]) + enc_items(
                items.skip(i0 + 1),
            ));
            assert(enc_ok_items(items.skip(i0)) == (enc_ok_value(items[i0]) && enc_ok_items(items.skip(i0 + 1))));
        }
        if encode_bytes(writer, v[i].as_str().as_bytes()).is_err() {
            return Err(Error::Oversize);
        }
        i = i + 1;
        proof {
            assert(writer@ + enc_items(items.skip(i as int)) =~= w0 + enc_items(items));
        }
    }
    proof {
        assert(items.skip(n as int) =~= Seq::<ValueV>::empty());
        assert(writer@ + enc_items(items.skip(n as int)) =~= writer@);
    }
    Ok(())
}

fn encode_items_struct(v: &Vec<Entries>, writer: &mut Vec<u8>) -> (r: Result<(), Error>)
    ensures
        r is Ok <==> enc_ok_items(view_struct_items(v@)),
        r is Ok ==> final(writer)@ == old(writer)@ + enc_items(view_struct_items(v@)),
        r is Err ==> r == Err::<(), Error>(Error::Oversize),
        old(writer)@.is_prefix_of(final(writer)@),
    decreases v@, 2int,
{
    let ghost w0 = writer@;
    let ghost items = view_struct_items(v@);
    proof {
        lemma_view_struct_items_len(v@);
    }
    let n = v.len();
    let mut i: usize = 0;
    proof {
        assert(items.skip(0) =~= items);
    }
    #[verifier::loop_isolation(false)]
    while i < n
        invariant
            i <= n,
            writer@ + enc_items(items.skip(i as int)) == w0 + enc_items(items),
            enc_ok_items(items) == enc_ok_items(items.skip(i as int)),
            w0.is_prefix_of(writer@),
        decreases n - i,
    {
        let ghost i0 = i as int;
        proof {
            assert(items.skip(i0)[0] == items[i0]);
            assert(items.skip(i0).drop_first() =~= items.skip(i0 + 1));
            assert(items[i0] == ValueV::Struct(view_entry_seq(v@[i0].0@)));
            assert(enc_items(items.skip(i0)) == enc_value(items[i0]) + enc_items(
                items.skip(i0 + 1),
            ));
            assert(enc_ok_items(items.skip(i0)) == (enc_ok_value(items[i0]) && enc_ok_items(items.skip(i0 + 1))));
        }
        if encode_entries(&v[i], writer).is_err() {
            return Err(Error::Oversize);
        }
        i = i + 1;
        proof {
            assert(writer@ + enc_items(items.skip(i as int)) =~= w0 + enc_items(items));
        }
    }
    proof {
        assert(items.skip(n as int) =~= Seq::<ValueV>::empty());
        assert(writer@ + enc_items(items.skip(n as int)) =~= writer@);
    }
    Ok(())
}

fn encode_items_union(v: &Vec<Entry>, writer: &mut Vec<u8>) -> (r: Result<(), Error>)
    ensures
        r is Ok <==> enc_ok_items(view_union_items(v@)),
        r is Ok ==> final(writer)@ == old(writer)@ + enc_items(view_union_items(v@)),
        r is Err ==> r == Err::<(), Error>(Error::Oversize),
        old(writer)@.is_prefix_of(final(writer)@),
    decreases v@, 2int,
{
    let ghost w0 = writer@;
    let ghost items = view_union_items(v@);
    proof {
        lemma_view_union_items_len(v@);
    }
    let n = v.len();
    let mut i: usize = 0;
    proof {
        assert(items.skip(0) =~= items);
    }
    #[verifier::loop_isolation(false)]
    while i < n
        invariant
            i <= n,
            writer@ + enc_items(items.skip(i as int)) == w0 + enc_items(items),
            enc_ok_items(items) == enc_ok_items(items.skip(i as int)),
            w0.is_prefix_of(writer@),
        decreases n - i,
    {
        let ghost i0 = i as int;
        proof {
            assert(items.skip(i0)[0] == items[i0]);
            assert(items.skip(i0).drop_first() =~= items.skip(i0 + 1));
            assert(items[i0] == ValueV::Union(v@[i0].key, Box::new(view_value(v@[i0].value))));
            assert(enc_items(items.skip(i0)) == enc_value(items[i0]) + enc_items(
                items.skip(i0 + 1),
            ));
            assert(enc_ok_items(items.skip(i0)) == (enc_ok_value(items[i0]) && enc_ok_items(items.skip(i0 + 1))));
        }
        if encode_entry(&v[i], writer).is_err() {
            return Err(Error::Oversize);
        }
        i = i + 1;
        proof {
            assert(writer@ + enc_items(items.skip(i as int)) =~= w0 + enc_items(items));
        }
    }
    proof {
        assert(items.skip(n as int) =~= Seq::<ValueV>::empty());
        assert(writer@ + enc_items(items.skip(n as int)) =~= writer@);
    }
    Ok(())
}

fn encode_items_list(v: &Vec<List>, writer: &mut Vec<u8>) -> (r: Result<(), Error>)
    ensures
        r is Ok <==> enc_ok_items(view_list_items(v@)),
        r is Ok ==> final(writer)@ == old(writer)@ + enc_items(view_list_items(v@)),
        r is Err ==> r == Err::<(), Error>(Error::Oversize),
        old(writer)@.is_prefix_of(final(writer)@),
    decreases v@, 2int,
{
    let ghost w0 = writer@;
    let ghost items = view_list_items(v@);
    proof {
        lemma_view_list_items_len(v@);
    }
    let n = v.len();
    let mut i: usize = 0;
    proof {
        assert(items.skip(0) =~= items);
    }
    #[verifier::loop_isolation(false)]
    while i < n
        invariant
            i <= n,
            writer@ + enc_items(items.skip(i as int)) == w0 + enc_items(items),
            enc_ok_items(items) == enc_ok_items(items.skip(i as int)),
            w0.is_prefix_of(writer@),
        decreases n - i,
    {
        let ghost i0 = i as int;
        proof {
            assert(items.skip(i0)[0] == items[i0]);
            assert(items.skip(i0).drop_first() =~= items.skip(i0 + 1));
            assert(items[i0] == ValueV::List(view_list(v@[i0])));
            assert(enc_items(items.skip(i0)) == enc_value(items[i0]) + enc_items(
                items.skip(i0 + 1),
            ));
            assert(enc_ok_items(items.skip(i0)) == (enc_ok_value(items[i0]) && enc_ok_items(items.skip(i0 + 1))));
        }
        if encode_list(&v[i], writer).is_err() {
            return Err(Error::Oversize);
        }
        i = i + 1;
        proof {
            assert(writer@ + enc_items(items.skip(i as int)) =~= w0 + enc_items(items));
        }
    }
    proof {
        assert(items.skip(n as int) =~= Seq::<ValueV>::empty());
        assert(writer@ + enc_items(items.skip(n as int)) =~= writer@);
    }
    Ok(())
}

fn encode_items_table(v: &Vec<Table>, writer: &mut Vec<u8>) -> (r: Result<(), Error>)
    ensures
        r is Ok <==> enc_ok_items(view_table_items(v@)),
        r is Ok ==> final(writer)@ == old(writer)@ + enc_items(view_table_items(v@)),
        r is Err ==> r == Err::<(), Error>(Error::Oversize),
        old(writer)@.is_prefix_of(final(writer)@),
    decreases v@, 2int,
{
    let ghost w0 = writer@;
    let ghost items = view_table_items(v@);
    proof {
        lemma_view_table_items_len(v@);
    }
    let n = v.len();
    let mut i: usize = 0;
    proof {
        assert(items.skip(0) =~= items);
    }
    #[verifier::loop_isolation(false)]
    while i < n
        invariant
            i <= n,
            writer@ + enc_items(items.skip(i as int)) == w0 + enc_items(items),
            enc_ok_items(items) == enc_ok_items(items.skip(i as int)),
            w0.is_prefix_of(writer@),
        decreases n - i,
    {
        let ghost i0 = i as int;
        proof {
            assert(items.skip(i0)[0] == items[i0]);
            assert(items.skip(i0).drop_first() =~= items.skip(i0 + 1));
            assert(items[i0] == ValueV::Table(view_column_seq(v@[i0].0@)));
            assert(enc_items(items.skip(i0)) == enc_value(items[i0]) + enc_items(
                items.skip(i0 + 1),
            ));
            assert(enc_ok_items(items.skip(i0)) == (enc_ok_value(items[i0]) && enc_ok_items(items.skip(i0 + 1))));
        }
        if encode_table(&v[i], writer).is_err() {
            return Err(Error::Oversize);
        }
        i = i + 1;
        proof {
            assert(writer@ + enc_items(items.skip(i as int)) =~= w0 + enc_items(items));
        }
    }
    proof {
        assert(items.skip(n as int) =~= Seq::<ValueV>::empty());
        assert(writer@ + enc_items(items.skip(n as int)) =~= writer@);
    }
    Ok(())
}

fn encode_items_blobs(v: &Vec<Vec<u8>>, writer: &mut Vec<u8>, Ghost(lv): Ghost<ListV>) -> (r:
    Result<(), Error>)
    requires
        lv matches ListV::Items { ty, items } && 13 <= ty <= 15 && items == blob_items(ty, v@),
    ensures
        r is Ok <==> enc_ok_list_payload(lv),
        r is Ok ==> final(writer)@ == old(writer)@ + enc_list_payload(lv),
        r is Err ==> r == Err::<(), Error>(Error::Oversize),
        old(writer)@.is_prefix_of(final(writer)@),
{
    let ghost items = lv->Items_items;
    let ghost w0 = writer@;
    proof {
        lemma_blob_items_len(lv->Items_ty, v@);
    }
    let n = v.len();
    let mut i: usize = 0;
    proof {
        assert(items.skip(0) =~= items);
    }
    #[verifier::loop_isolation(false)]
    while i < n
        invariant
            i <= n,
            writer@ + enc_items(items.skip(i as int)) == w0 + enc_items(items),
            enc_ok_items(items) == enc_ok_items(items.skip(i as int)),
            w0.is_prefix_of(writer@),
        decreases n - i,
    {
        let ghost i0 = i as int;
        proof {
            assert(items.skip(i0)[0] == items[i0]);
            assert(items.skip(i0).drop_first() =~= items.skip(i0 + 1));
            assert(items[i0] == items[i0]);
            assert(enc_items(items.skip(i0)) == enc_value(items[i0]) + enc_items(
                items.skip(i0 + 1),
            ));
            assert(enc_ok_items(items.skip(i0)) == (enc_ok_value(items[i0]) && enc_ok_items(items.skip(i0 + 1))));
        }
        if encode_bytes(writer, v[i].as_slice()).is_err() {
            return Err(Error::Oversize);
        }
        i = i + 1;
        proof {
            assert(writer@ + enc_items(items.skip(i as int)) =~= w0 + enc_items(items));
        }
    }
    proof {
        assert(items.skip(n as int) =~= Seq::<ValueV>::empty());
        assert(writer@ + enc_items(items.skip(n as int)) =~= writer@);
    }
    Ok(())
}

/// Writes a table value: varint column and row counts, then per column a
/// header of its key and element tag followed by the column's bare payload.
#[verifier::rlimit(50)]
pub fn encode_table(t: &Table, writer: &mut Vec<u8>) -> (r: Result<(), Error>)
    ensures
        r is Ok <==> enc_ok_value(ValueV::Table(t@)),
        r is Ok ==> final(writer)@ == old(writer)@ + enc_table(t@),
        r is Err ==> r == Err::<(), Error>(Error::Oversize),
        old(writer)@.is_prefix_of(final(writer)@),
    decreases *t, 0int,
{
    let ghost w0 = writer@;
    let ghost cols = t@;
    proof {
        lemma_view_column_seq_len(t.0@);
    }
    let rows: usize = if t.0.len() > 0 {
        list_length(&t.0[0].1)
    } else {
        0
    };
    if encode_length(writer, t.0.len()).is_err() {
        return Err(Error::Oversize);
    }
    if encode_length(writer, rows).is_err() {
        return Err(Error::Oversize);
    }
    let n = t.0.len();
    let mut i: usize = 0;
    proof {
        assert(cols.skip(0) =~= cols);
        assert(writer@ + enc_column_seq(cols.skip(0)) =~= w0 + enc_table(cols));
    }
    #[verifier::loop_isolation(false)]
    while i < n
        invariant
            i <= n,
            writer@ + enc_column_seq(cols.skip(i as int)) == w0 + enc_table(cols),
            enc_ok_column_seq(cols) == enc_ok_column_seq(cols.skip(i as int)),
            w0.is_prefix_of(writer@),
        decreases n - i,
    {
        let ghost i0 = i as int;
        proof {
            assert(cols.skip(i0)[0] == cols[i0]);
            assert(cols.skip(i0).drop_first() =~= cols.skip(i0 + 1));
            assert(cols[i0] == (t.0@[i0].0, view_list(t.0@[i0].1)));
            assert(enc_column_seq(cols.skip(i0)) == enc_header(cols[i0].0 as u64, list_tag(
                cols[i0].1,
            )) + enc_list_payload(cols[i0].1) + enc_column_seq(cols.skip(i0 + 1)));
            assert(enc_ok_column_seq(cols.skip(i0)) == (enc_ok_list_payload(cols[i0].1)
                && enc_ok_column_seq(cols.skip(i0 + 1))));
        }
        let key = t.0[i].0;
        let tag = list_elem_tag(&t.0[i].1);
        encode_header(writer, key as u32, tag);
        if encode_list_payload(&t.0[i].1, writer).is_err() {
            return Err(Error::Oversize);
        }
        i = i + 1;
        proof {
            assert(writer@ + enc_column_seq(cols.skip(i as int)) =~= w0 + enc_table(cols));
            assert(enc_ok_column_seq(cols) == enc_ok_column_seq(cols.skip(i as int)));
        }
    }
    proof {
        assert(cols.skip(n as int) =~= Seq::<(u16, ListV)>::empty());
        assert(writer@ + enc_column_seq(cols.skip(n as int)) =~= writer@);
    }
    Ok(())
}

/// A value that writes itself as one header-prefixed field: a header of the
/// caller's field id and the value's tag, then the value's payload. An
/// optional field that is absent writes nothing at all; a boolean field
/// writes only its header, the tag carrying the value.
pub trait FieldEncoder {
    /// The bytes the field write appends when it succeeds.
    spec fn field_enc(&self, id: u16) -> Seq<u8>;

    /// Whether the write succeeds: every container length involved fits the
    /// 32-bit wire limit.
    spec fn field_enc_ok(&self) -> bool;

    /// Writes the field.
    fn encode(&self, writer: &mut Vec<u8>, id: u16) -> (r: Result<(), Error>)
        ensures
            r is Ok <==> self.field_enc_ok(),
            r is Ok ==> final(writer)@ == old(writer)@ + self.field_enc(id),
            r is Err ==> r == Err::<(), Error>(Error::Oversize),
            old(writer)@.is_prefix_of(final(writer)@),
    ;
}

impl FieldEncoder for bool {
    open spec fn field_enc(&self, id: u16) -> Seq<u8> {
        enc_header(
            id as u64,
            if *self {
                1
            } else {
                0
            },
        )
    }

    open spec fn field_enc_ok(&self) -> bool {
        true
    }

    fn encode(&self, writer: &mut Vec<u8>, id: u16) -> (r: Result<(), Error>) {
        encode_header(
            writer,
            id as u32,
            if *self {
                1
            } else {
                0
            },
        );
        Ok(())
    }
}

impl FieldEncoder for u8 {
    open spec fn field_enc(&self, id: u16) -> Seq<u8> {
        enc_header(id as u64, 2) + seq![*self]
    }

    open spec fn field_enc_ok(&self) -> bool {
        true
    }

    fn encode(&self, writer: &mut Vec<u8>, id: u16) -> (r: Result<(), Error>) {
        let ghost w0 = writer@;
        encode_header(writer, id as u32, 2);
        writer.push(*self);
        proof {
            assert(writer@ =~= w0 + self.field_enc(id));
        }
        Ok(())
    }
}

impl FieldEncoder for i8 {
    open spec fn field_enc(&self, id: u16) -> Seq<u8> {
        enc_header(id as u64, 3) + seq![crate::utils::spec_byte_of_i8(*self)]
    }

    open spec fn field_enc_ok(&self) -> bool {
        true
    }

    fn encode(&self, writer: &mut Vec<u8>, id: u16) -> (r: Result<(), Error>) {
        let ghost w0 = writer@;
        encode_header(writer, id as u32, 3);
        writer.push(crate::utils::byte_from_i8(*self));
        proof {
            assert(writer@ =~= w0 + self.field_enc(id));
        }
        Ok(())
    }
}

impl FieldEncoder for F32Bits {
    open spec fn field_enc(&self, id: u16) -> Seq<u8> {
        enc_header(id as u64, 4) + spec_u32_to_le_bytes(self.0)
    }

    open spec fn field_enc_ok(&self) -> bool {
        true
    }

    fn encode(&self, writer: &mut Vec<u8>, id: u16) -> (r: Result<(), Error>) {
        let ghost w0 = writer@;
        encode_header(writer, id as u32, 4);
        let mut bytes = u32_to_le_bytes(self.0);
        writer.append(&mut bytes);
        Ok(())
    }
}

impl FieldEncoder for F64Bits {
    open spec fn field_enc(&self, id: u16) -> Seq<u8> {
        enc_header(id as u64, 5) + spec_u64_to_le_bytes(self.0)
    }

    open spec fn field_enc_ok(&self) -> bool {
        true
    }

    fn encode(&self, writer: &mut Vec<u8>, id: u16) -> (r: Result<(), Error>) {
        let ghost w0 = writer@;
        encode_header(writer, id as u32, 5);
        let mut bytes = u64_to_le_bytes(self.0);
        writer.append(&mut bytes);
        Ok(())
    }
}

impl FieldEncoder for u16 {
    open spec fn field_enc(&self, id: u16) -> Seq<u8> {
        enc_header(id as u64, 6) + spec_varint(*self as u64)
    }

    open spec fn field_enc_ok(&self) -> bool {
        true
    }

    fn encode(&self, writer: &mut Vec<u8>, id: u16) -> (r: Result<(), Error>) {
        encode_header(writer, id as u32, 6);
        write_varint(writer, *self as u64);
        Ok(())
    }
}

impl FieldEncoder for u32 {
    open spec fn field_enc(&self, id: u16) -> Seq<u8> {
        enc_header(id as u64, 6) + spec_varint(*self as u64)
    }

    open spec fn field_enc_ok(&self) -> bool {
        true
    }

    fn encode(&self, writer: &mut Vec<u8>, id: u16) -> (r: Result<(), Error>) {
        encode_header(writer, id as u32, 6);
        write_varint(writer, *self as u64);
        Ok(())
    }
}

impl FieldEncoder for u64 {
    open spec fn field_enc(&self, id: u16) -> Seq<u8> {
        enc_header(id as u64, 6) + spec_varint(*self as u64)
    }

    open spec fn field_enc_ok(&self) -> bool {
        true
    }

    fn encode(&self, writer: &mut Vec<u8>, id: u16) -> (r: Result<(), Error>) {
        encode_header(writer, id as u32, 6);
        write_varint(writer, *self as u64);
        Ok(())
    }
}

impl FieldEncoder for i16 {
    open spec fn field_enc(&self, id: u16) -> Seq<u8> {
        enc_header(id as u64, 7) + spec_varint(crate::zig_zag::spec_zigzag(*self as i64))
    }

    open spec fn field_enc_ok(&self) -> bool {
        true
    }

    fn encode(&self, writer: &mut Vec<u8>, id: u16) -> (r: Result<(), Error>) {
        encode_header(writer, id as u32, 7);
        write_varint(writer, zig_zag::into(*self as i64));
        Ok(())
    }
}

impl FieldEncoder for i32 {
    open spec fn field_enc(&self, id: u16) -> Seq<u8> {
        enc_header(id as u64, 7) + spec_varint(crate::zig_zag::spec_zigzag(*self as i64))
    }

    open spec fn field_enc_ok(&self) -> bool {
        true
    }

    fn encode(&self, writer: &mut Vec<u8>, id: u16) -> (r: Result<(), Error>) {
        encode_header(writer, id as u32, 7);
        write_varint(writer, zig_zag::into(*self as i64));
        Ok(())
    }
}

impl FieldEncoder for i64 {
    open spec fn field_enc(&self, id: u16) -> Seq<u8> {
        enc_header(id as u64, 7) + spec_varint(crate::zig_zag::spec_zigzag(*self as i64))
    }

    open spec fn field_enc_ok(&self) -> bool {
        true
    }

    fn encode(&self, writer: &mut Vec<u8>, id: u16) -> (r: Result<(), Error>) {
        encode_header(writer, id as u32, 7);
        write_varint(writer, zig_zag::into(*self as i64));
        Ok(())
    }
}

impl FieldEncoder for str {
    open spec fn field_enc(&self, id: u16) -> Seq<u8> {
        enc_header(id as u64, 8) + spec_varint(encode_utf8(self@).len() as u64) + encode_utf8(
            self@,
        )
    }

    open spec fn field_enc_ok(&self) -> bool {
        encode_utf8(self@).len() <= u32::MAX
    }

    fn encode(&self, writer: &mut Vec<u8>, id: u16) -> (r: Result<(), Error>) {
        let ghost w0 = writer@;
        encode_header(writer, id as u32, 8);
        let r = encode_bytes(writer, self.as_bytes());
        proof {
            if r is Ok {
                assert(writer@ =~= w0 + self.field_enc(id));
            }
        }
        r
    }
}

impl FieldEncoder for String {
    open spec fn field_enc(&self, id: u16) -> Seq<u8> {
        enc_header(id as u64, 8) + spec_varint(encode_utf8(self@).len() as u64) + encode_utf8(
            self@,
        )
    }

    open spec fn field_enc_ok(&self) -> bool {
        encode_utf8(self@).len() <= u32::MAX
    }

    fn encode(&self, writer: &mut Vec<u8>, id: u16) -> (r: Result<(), Error>) {
        let ghost w0 = writer@;
        encode_header(writer, id as u32, 8);
        let r = encode_bytes(writer, self.as_str().as_bytes());
        proof {
            if r is Ok {
                assert(writer@ =~= w0 + self.field_enc(id));
            }
        }
        r
    }
}

impl FieldEncoder for Vec<u8> {
    open spec fn field_enc(&self, id: u16) -> Seq<u8> {
        enc_header(id as u64, 11) + enc_header(self@.len() as u64, 2) + self@
    }

    open spec fn field_enc_ok(&self) -> bool {
        self@.len() <= u32::MAX
    }

    fn encode(&self, writer: &mut Vec<u8>, id: u16) -> (r: Result<(), Error>) {
        let ghost w0 = writer@;
        encode_header_list(writer, id, self.len(), 2)?;
        writer.extend_from_slice(self.as_slice());
        proof {
            assert(writer@ =~= w0 + self.field_enc(id));
        }
        Ok(())
    }
}

impl FieldEncoder for Vec<i8> {
    open spec fn field_enc(&self, id: u16) -> Seq<u8> {
        enc_header(id as u64, 11) + enc_header(self@.len() as u64, 3) + self@.map_values(
            |n: i8| crate::utils::spec_byte_of_i8(n),
        )
    }

    open spec fn field_enc_ok(&self) -> bool {
        self@.len() <= u32::MAX
    }

    fn encode(&self, writer: &mut Vec<u8>, id: u16) -> (r: Result<(), Error>) {
        let ghost w0 = writer@;
        encode_header_list(writer, id, self.len(), 3)?;
        let bytes = u8_vec_from(self.as_slice());
        writer.extend_from_slice(bytes.as_slice());
        proof {
            assert(bytes@ =~= self@.map_values(|n: i8| crate::utils::spec_byte_of_i8(n)));
            assert(writer@ =~= w0 + self.field_enc(id));
        }
        Ok(())
    }
}

impl FieldEncoder for BitSet {
    open spec fn field_enc(&self, id: u16) -> Seq<u8> {
        enc_header(id as u64, 11) + enc_header(self.len as u64, 1) + self.slots@
    }

    open spec fn field_enc_ok(&self) -> bool {
        self.len <= u32::MAX
    }

    fn encode(&self, writer: &mut Vec<u8>, id: u16) -> (r: Result<(), Error>) {
        let ghost w0 = writer@;
        encode_header_list(writer, id, self.capacity(), 1)?;
        writer.extend_from_slice(self.as_packed_bytes());
        proof {
            assert(writer@ =~= w0 + self.field_enc(id));
        }
        Ok(())
    }
}

impl FieldEncoder for Vec<bool> {
    open spec fn field_enc(&self, id: u16) -> Seq<u8> {
        enc_header(id as u64, 11) + enc_header(self@.len() as u64, 1) + crate::bit_set::spec_pack(
            self@,
        )
    }

    open spec fn field_enc_ok(&self) -> bool {
        self@.len() <= u32::MAX
    }

    fn encode(&self, writer: &mut Vec<u8>, id: u16) -> (r: Result<(), Error>) {
        let ghost w0 = writer@;
        let bs = BitSet::from_bools(self.as_slice());
        encode_header_list(writer, id, self.len(), 1)?;
        writer.extend_from_slice(bs.as_packed_bytes());
        proof {
            assert(writer@ =~= w0 + self.field_enc(id));
        }
        Ok(())
    }
}

impl FieldEncoder for Value {
    open spec fn field_enc(&self, id: u16) -> Seq<u8> {
        enc_entry(id, view_value(*self))
    }

    open spec fn field_enc_ok(&self) -> bool {
        enc_ok_value(view_value(*self))
    }

    fn encode(&self, writer: &mut Vec<u8>, id: u16) -> (r: Result<(), Error>) {
        let ghost w0 = writer@;
        let tag = value_tag(self);
        encode_header(writer, id as u32, tag);
        let r = encode_value(self, writer);
        proof {
            if r is Ok {
                assert(writer@ =~= w0 + self.field_enc(id));
            }
        }
        r
    }
}

impl FieldEncoder for List {
    open spec fn field_enc(&self, id: u16) -> Seq<u8> {
        enc_header(id as u64, 11) + enc_list(view_list(*self))
    }

    open spec fn field_enc_ok(&self) -> bool {
        enc_ok_list(view_list(*self))
    }

    fn encode(&self, writer: &mut Vec<u8>, id: u16) -> (r: Result<(), Error>) {
        let ghost w0 = writer@;
        encode_header(writer, id as u32, 11);
        let r = encode_list(self, writer);
        proof {
            if r is Ok {
                assert(writer@ =~= w0 + self.field_enc(id));
            }
        }
        r
    }
}

impl FieldEncoder for Entries {
    open spec fn field_enc(&self, id: u16) -> Seq<u8> {
        enc_header(id as u64, 9) + enc_entries(self@)
    }

    open spec fn field_enc_ok(&self) -> bool {
        enc_ok_value(ValueV::Struct(self@))
    }

    fn encode(&self, writer: &mut Vec<u8>, id: u16) -> (r: Result<(), Error>) {
        let ghost w0 = writer@;
        encode_header(writer, id as u32, 9);
        let r = encode_entries(self, writer);
        proof {
            if r is Ok {
                assert(writer@ =~= w0 + self.field_enc(id));
            }
        }
        r
    }
}

impl FieldEncoder for Table {
    open spec fn field_enc(&self, id: u16) -> Seq<u8> {
        enc_header(id as u64, 12) + enc_table(self@)
    }

    open spec fn field_enc_ok(&self) -> bool {
        enc_ok_value(ValueV::Table(self@))
    }

    fn encode(&self, writer: &mut Vec<u8>, id: u16) -> (r: Result<(), Error>) {
        let ghost w0 = writer@;
        encode_header(writer, id as u32, 12);
        let r = encode_table(self, writer);
        proof {
            if r is Ok {
                assert(writer@ =~= w0 + self.field_enc(id));
            }
        }
        r
    }
}

impl<T: FieldEncoder> FieldEncoder for Option<T> {
    open spec fn field_enc(&self, id: u16) -> Seq<u8> {
        match self {
            Some(v) => v.field_enc(id),
            None => Seq::empty(),
        }
    }

    open spec fn field_enc_ok(&self) -> bool {
        match self {
            Some(v) => v.field_enc_ok(),
            None => true,
        }
    }

    fn encode(&self, writer: &mut Vec<u8>, id: u16) -> (r: Result<(), Error>) {
        match self {
            Some(v) => v.encode(writer, id),
            None => {
                proof {
                    assert(writer@ =~= old(writer)@ + self.field_enc(id));
                }
                Ok(())
            },
        }
    }
}

/// A record type that writes itself as a count-prefixed struct body: what
/// the generated per-field glue of a record implements, and what
/// [`encode_struct`] frames as a struct field.
pub trait Encode {
    /// The bytes the body write appends when it succeeds.
    spec fn enc(&self) -> Seq<u8>;

    /// Whether the write succeeds.
    spec fn enc_ok(&self) -> bool;

    /// Writes the struct body: a varint field count, then each field.
    fn encode(&self, writer: &mut Vec<u8>) -> (r: Result<(), Error>)
        ensures
            r is Ok <==> self.enc_ok(),
            r is Ok ==> final(writer)@ == old(writer)@ + self.enc(),
            r is Err ==> r == Err::<(), Error>(Error::Oversize),
            old(writer)@.is_prefix_of(final(writer)@),
    ;
}

impl Encode for Entries {
    open spec fn enc(&self) -> Seq<u8> {
        enc_entries(self@)
    }

    open spec fn enc_ok(&self) -> bool {
        enc_ok_value(ValueV::Struct(self@))
    }

    fn encode(&self, writer: &mut Vec<u8>) -> (r: Result<(), Error>) {
        encode_entries(self, writer)
    }
}

/// Writes a record as one struct-tagged field: the field header, then the
/// record's body.
pub fn encode_struct<T: Encode>(this: &T, writer: &mut Vec<u8>, id: u16) -> (r: Result<(), Error>)
    ensures
        r is Ok <==> this.enc_ok(),
        r is Ok ==> final(writer)@ == old(writer)@ + enc_header(id as u64, 9) + this.enc(),
        r is Err ==> r == Err::<(), Error>(Error::Oversize),
        old(writer)@.is_prefix_of(final(writer)@),
{
    let ghost w0 = writer@;
    encode_header(writer, id as u32, 9);
    let r = this.encode(writer);
    proof {
        if r is Ok {
            assert(writer@ =~= w0 + enc_header(id as u64, 9) + this.enc());
        }
    }
    r
}

/// The header-prefixed record write under its older name, kept for callers
/// of the original entry point.
pub fn field_encoder<T: Encode>(this: &T, writer: &mut Vec<u8>, id: u16) -> (r: Result<(), Error>)
    ensures
        r is Ok <==> this.enc_ok(),
        r is Ok ==> final(writer)@ == old(writer)@ + enc_header(id as u64, 9) + this.enc(),
        r is Err ==> r == Err::<(), Error>(Error::Oversize),
        old(writer)@.is_prefix_of(final(writer)@),
{
    encode_struct(this, writer, id)
}

} // verus!

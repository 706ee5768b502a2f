//! The wire format itself, as mathematics: a ghost mirror of the value model,
//! the encoding of every value as a byte sequence, and the decoding of byte
//! sequences back into values. The executable encoder and decoder are proved
//! against these functions, and [`lemma_entries_round_trip`] shows the two
//! are inverse.
//!
//! Framing: every struct body is count-prefixed — a varint entry count, then
//! that many header-prefixed fields — and the same framing is used end to
//! end.

use vstd::prelude::*;
use vstd::bytes::{spec_u32_to_le_bytes, spec_u64_to_le_bytes, spec_u32_from_le_bytes,
    spec_u64_from_le_bytes};
use vstd::utf8::{valid_utf8, decode_utf8, encode_utf8};

use crate::bit_set::BitSet;
use crate::entries::{Entries, Entry};
use crate::errors::WireError;
use crate::utils::{spec_bool_packed_len, spec_byte_of_i8, spec_i8_of_byte};
use crate::varint::{spec_dec_varint, spec_varint};
use crate::zig_zag::{spec_unzigzag, spec_zigzag};
use crate::{F32Bits, F64Bits, List, Table, Value};

verus! {

broadcast use vstd::seq::group_seq_axioms, vstd::std_specs::vec::group_vec_axioms;

/// The mathematical mirror of [`Value`]: owned containers become sequences,
/// strings become their characters, float payloads their bit patterns.
pub enum ValueV {
    Bool(bool),
    U8(u8),
    I8(i8),
    F32(u32),
    F64(u64),
    UInt(u64),
    Int(i64),
    Str(Seq<char>),
    Struct(Seq<(u16, ValueV)>),
    Union(u16, Box<ValueV>),
    List(ListV),
    Table(Seq<(u16, ListV)>),
    UnknownI(Seq<u8>),
    UnknownII(Seq<u8>),
    UnknownIII(Seq<u8>),
}

/// The mathematical mirror of [`List`]: packed booleans keep their logical
/// length and their raw storage bytes; every other list is its element tag
/// and its elements, each mirrored as a [`ValueV`].
pub enum ListV {
    Bools { len: int, slots: Seq<u8> },
    Items { ty: u8, items: Seq<ValueV> },
}

/// The wire tag of a mirrored value.
pub open spec fn tag_of(v: ValueV) -> u8 {
    match v {
        ValueV::Bool(b) => if b {
            1
        } else {
            0
        },
        ValueV::U8(_) => 2,
        ValueV::I8(_) => 3,
        ValueV::F32(_) => 4,
        ValueV::F64(_) => 5,
        ValueV::UInt(_) => 6,
        ValueV::Int(_) => 7,
        ValueV::Str(_) => 8,
        ValueV::Struct(_) => 9,
        ValueV::Union(_, _) => 10,
        ValueV::List(_) => 11,
        ValueV::Table(_) => 12,
        ValueV::UnknownI(_) => 13,
        ValueV::UnknownII(_) => 14,
        ValueV::UnknownIII(_) => 15,
    }
}

/// The element tag of a mirrored list.
pub open spec fn list_tag(l: ListV) -> u8 {
    match l {
        ListV::Bools { .. } => 1,
        ListV::Items { ty, .. } => ty,
    }
}

/// The logical length of a mirrored list.
pub open spec fn list_len(l: ListV) -> int {
    match l {
        ListV::Bools { len, .. } => len,
        ListV::Items { items, .. } => items.len() as int,
    }
}

// ---------------------------------------------------------------------------
// Views: from the executable model to the mirror.
// ---------------------------------------------------------------------------

pub open spec fn view_value(v: Value) -> ValueV
    decreases v,
{
    match v {
        Value::Bool(b) => ValueV::Bool(b),
        Value::U8(n) => ValueV::U8(n),
        Value::I8(n) => ValueV::I8(n),
        Value::F32(b) => ValueV::F32(b.0),
        Value::F64(b) => ValueV::F64(b.0),
        Value::UInt(n) => ValueV::UInt(n),
        Value::Int(n) => ValueV::Int(n),
        Value::Str(s) => ValueV::Str(s@),
        Value::Struct(e) => ValueV::Struct(view_entry_seq(e.0@)),
        Value::Union(e) => ValueV::Union((*e).key, Box::new(view_value((*e).value))),
        Value::List(l) => ValueV::List(view_list(l)),
        Value::Table(t) => ValueV::Table(view_column_seq(t.0@)),
        Value::UnknownI(b) => ValueV::UnknownI(b@),
        Value::UnknownII(b) => ValueV::UnknownII(b@),
        Value::UnknownIII(b) => ValueV::UnknownIII(b@),
    }
}

pub open spec fn view_entry_seq(s: Seq<Entry>) -> Seq<(u16, ValueV)>
    decreases s,
{
    if s.len() == 0 {
        Seq::empty()
    } else {
        seq![(s[0].key, view_value(s[0].value))] + view_entry_seq(s.drop_first())
    }
}

pub open spec fn view_list(l: List) -> ListV
    decreases l,
{
    match l {
        List::Bool(bs) => ListV::Bools { len: bs.len as int, slots: bs.slots@ },
        List::U8(v) => ListV::Items { ty: 2, items: v@.map_values(|n: u8| ValueV::U8(n)) },
        List::I8(v) => ListV::Items { ty: 3, items: v@.map_values(|n: i8| ValueV::I8(n)) },
        List::F32(v) => ListV::Items {
            ty: 4,
            items: v@.map_values(|b: F32Bits| ValueV::F32(b.0)),
        },
        List::F64(v) => ListV::Items {
            ty: 5,
            items: v@.map_values(|b: F64Bits| ValueV::F64(b.0)),
        },
        List::UInt(v) => ListV::Items { ty: 6, items: v@.map_values(|n: u64| ValueV::UInt(n)) },
        List::Int(v) => ListV::Items { ty: 7, items: v@.map_values(|n: i64| ValueV::Int(n)) },
        List::Str(v) => ListV::Items { ty: 8, items: v@.map_values(|s: String| ValueV::Str(s@)) },
        List::Struct(v) => ListV::Items { ty: 9, items: view_struct_items(v@) },
        List::Union(v) => ListV::Items { ty: 10, items: view_union_items(v@) },
        List::List(v) => ListV::Items { ty: 11, items: view_list_items(v@) },
        List::Table(v) => ListV::Items { ty: 12, items: view_table_items(v@) },
        List::UnknownI(v) => ListV::Items {
            ty: 13,
            items: v@.map_values(|b: Vec<u8>| ValueV::UnknownI(b@)),
        },
        List::UnknownII(v) => ListV::Items {
            ty: 14,
            items: v@.map_values(|b: Vec<u8>| ValueV::UnknownII(b@)),
        },
        List::UnknownIII(v) => ListV::Items {
            ty: 15,
            items: v@.map_values(|b: Vec<u8>| ValueV::UnknownIII(b@)),
        },
    }
}

pub open spec fn view_struct_items(s: Seq<Entries>) -> Seq<ValueV>
    decreases s,
{
    if s.len() == 0 {
        Seq::empty()
    } else {
        seq![ValueV::Struct(view_entry_seq(s[0].0@))] + view_struct_items(s.drop_first())
    }
}

pub open spec fn view_union_items(s: Seq<Entry>) -> Seq<ValueV>
    decreases s,
{
    if s.len() == 0 {
        Seq::empty()
    } else {
        seq![ValueV::Union(s[0].key, Box::new(view_value(s[0].value)))] + view_union_items(
            s.drop_first(),
        )
    }
}

pub open spec fn view_list_items(s: Seq<List>) -> Seq<ValueV>
    decreases s,
{
    if s.len() == 0 {
        Seq::empty()
    } else {
        seq![ValueV::List(view_list(s[0]))] + view_list_items(s.drop_first())
    }
}

pub open spec fn view_table_items(s: Seq<Table>) -> Seq<ValueV>
    decreases s,
{
    if s.len() == 0 {
        Seq::empty()
    } else {
        seq![ValueV::Table(view_column_seq(s[0].0@))] + view_table_items(s.drop_first())
    }
}

pub open spec fn view_column_seq(s: Seq<(u16, List)>) -> Seq<(u16, ListV)>
    decreases s,
{
    if s.len() == 0 {
        Seq::empty()
    } else {
        seq![(s[0].0, view_list(s[0].1))] + view_column_seq(s.drop_first())
    }
}

/// The views of the typed element sequences have one element per item.
pub proof fn lemma_view_struct_items_len(s: Seq<Entries>)
    ensures
        view_struct_items(s).len() == s.len(),
        forall|i: int|
            0 <= i < s.len() ==> #[trigger] view_struct_items(s)[i] == ValueV::Struct(
                view_entry_seq(s[i].0@),
            ),
    decreases s.len(),
{
    if s.len() > 0 {
        lemma_view_struct_items_len(s.drop_first());
    }
}

pub proof fn lemma_view_union_items_len(s: Seq<Entry>)
    ensures
        view_union_items(s).len() == s.len(),
        forall|i: int|
            0 <= i < s.len() ==> #[trigger] view_union_items(s)[i] == ValueV::Union(
                s[i].key,
                Box::new(view_value(s[i].value)),
            ),
    decreases s.len(),
{
    if s.len() > 0 {
        lemma_view_union_items_len(s.drop_first());
    }
}

pub proof fn lemma_view_list_items_len(s: Seq<List>)
    ensures
        view_list_items(s).len() == s.len(),
        forall|i: int|
            0 <= i < s.len() ==> #[trigger] view_list_items(s)[i] == ValueV::List(view_list(s[i])),
    decreases s.len(),
{
    if s.len() > 0 {
        lemma_view_list_items_len(s.drop_first());
    }
}

pub proof fn lemma_view_table_items_len(s: Seq<Table>)
    ensures
        view_table_items(s).len() == s.len(),
        forall|i: int|
            0 <= i < s.len() ==> #[trigger] view_table_items(s)[i] == ValueV::Table(
                view_column_seq(s[i].0@),
            ),
    decreases s.len(),
{
    if s.len() > 0 {
        lemma_view_table_items_len(s.drop_first());
    }
}

/// The view of columns has one pair per column.
pub proof fn lemma_view_column_seq_len(s: Seq<(u16, List)>)
    ensures
        view_column_seq(s).len() == s.len(),
        forall|i: int|
            0 <= i < s.len() ==> #[trigger] view_column_seq(s)[i] == (s[i].0, view_list(s[i].1)),
    decreases s.len(),
{
    if s.len() > 0 {
        lemma_view_column_seq_len(s.drop_first());
    }
}

/// Pushing a column appends its view.
pub proof fn lemma_view_column_seq_push(s: Seq<(u16, List)>, col: (u16, List))
    ensures
        view_column_seq(s.push(col)) == view_column_seq(s).push((col.0, view_list(col.1))),
{
    lemma_view_column_seq_len(s);
    lemma_view_column_seq_len(s.push(col));
    assert(view_column_seq(s.push(col)) =~= view_column_seq(s).push((col.0, view_list(col.1))));
}

// ---------------------------------------------------------------------------
// Well-formedness: what a value must satisfy to stand for wire data.
// ---------------------------------------------------------------------------

/// Whether an element belongs under a list element tag.
pub open spec fn item_matches(ty: u8, v: ValueV) -> bool {
    tag_of(v) == ty
}

/// Structural well-formedness: packed boolean storage is sized to its
/// length, list elements match their element tag, and every column of a
/// table holds one value per row.
pub open spec fn wf_value(v: ValueV) -> bool
    decreases v,
{
    match v {
        ValueV::Struct(es) => wf_entry_seq(es),
        ValueV::Union(_, b) => wf_value(*b),
        ValueV::List(l) => wf_list(l),
        ValueV::Table(cols) => wf_column_seq(cols, table_rows(cols)),
        _ => true,
    }
}

pub open spec fn wf_entry_seq(es: Seq<(u16, ValueV)>) -> bool
    decreases es,
{
    if es.len() == 0 {
        true
    } else {
        wf_value(es[0].1) && wf_entry_seq(es.drop_first())
    }
}

pub open spec fn wf_list(l: ListV) -> bool
    decreases l,
{
    match l {
        ListV::Bools { len, slots } => len >= 0 && slots.len() == spec_bool_packed_len(len),
        ListV::Items { ty, items } => 2 <= ty <= 15 && wf_items(ty, items),
    }
}

pub open spec fn wf_items(ty: u8, items: Seq<ValueV>) -> bool
    decreases items,
{
    if items.len() == 0 {
        true
    } else {
        item_matches(ty, items[0]) && wf_value(items[0]) && wf_items(ty, items.drop_first())
    }
}

/// The row count of a table: the length of its first column, or zero.
pub open spec fn table_rows(cols: Seq<(u16, ListV)>) -> int {
    if cols.len() == 0 {
        0
    } else {
        list_len(cols[0].1)
    }
}

pub open spec fn wf_column_seq(cols: Seq<(u16, ListV)>, rows: int) -> bool
    decreases cols,
{
    if cols.len() == 0 {
        true
    } else {
        list_len(cols[0].1) == rows && wf_list(cols[0].1) && wf_column_seq(cols.drop_first(), rows)
    }
}

// ---------------------------------------------------------------------------
// Encodability: every container length must fit the 32-bit length fields of
// the wire format.
// ---------------------------------------------------------------------------

pub open spec fn enc_ok_value(v: ValueV) -> bool
    decreases v,
{
    match v {
        ValueV::Str(s) => encode_utf8(s).len() <= u32::MAX,
        ValueV::Struct(es) => es.len() <= u32::MAX && enc_ok_entry_seq(es),
        ValueV::Union(_, b) => enc_ok_value(*b),
        ValueV::List(l) => enc_ok_list(l),
        ValueV::Table(cols) => cols.len() <= u32::MAX && table_rows(cols) <= u32::MAX
            && enc_ok_column_seq(cols),
        ValueV::UnknownI(b) => b.len() <= u32::MAX,
        ValueV::UnknownII(b) => b.len() <= u32::MAX,
        ValueV::UnknownIII(b) => b.len() <= u32::MAX,
        _ => true,
    }
}

pub open spec fn enc_ok_entry_seq(es: Seq<(u16, ValueV)>) -> bool
    decreases es,
{
    if es.len() == 0 {
        true
    } else {
        enc_ok_value(es[0].1) && enc_ok_entry_seq(es.drop_first())
    }
}

pub open spec fn enc_ok_list(l: ListV) -> bool
    decreases l,
{
    match l {
        ListV::Bools { len, .. } => len <= u32::MAX,
        ListV::Items { items, .. } => items.len() <= u32::MAX && enc_ok_items(items),
    }
}

pub open spec fn enc_ok_items(items: Seq<ValueV>) -> bool
    decreases items,
{
    if items.len() == 0 {
        true
    } else {
        enc_ok_value(items[0]) && enc_ok_items(items.drop_first())
    }
}

/// Whether a list's bare payload fits the wire limits. A column of a table
/// carries no length header of its own, so only its elements matter.
pub open spec fn enc_ok_list_payload(l: ListV) -> bool
    decreases l,
{
    match l {
        ListV::Bools { .. } => true,
        ListV::Items { items, .. } => enc_ok_items(items),
    }
}

pub open spec fn enc_ok_column_seq(cols: Seq<(u16, ListV)>) -> bool
    decreases cols,
{
    if cols.len() == 0 {
        true
    } else {
        enc_ok_list_payload(cols[0].1) && enc_ok_column_seq(cols.drop_first())
    }
}

/// A list payload is encodable exactly when each of its elements is.
pub proof fn lemma_enc_ok_items_pointwise(items: Seq<ValueV>)
    ensures
        enc_ok_items(items) <==> (forall|i: int|
            0 <= i < items.len() ==> enc_ok_value(#[trigger] items[i])),
    decreases items.len(),
{
    if items.len() > 0 {
        lemma_enc_ok_items_pointwise(items.drop_first());
        if enc_ok_value(items[0]) && enc_ok_items(items.drop_first()) {
            assert forall|i: int| 0 <= i < items.len() implies enc_ok_value(
                #[trigger] items[i],
            ) by {
                if i > 0 {
                    assert(items.drop_first()[i - 1] == items[i]);
                }
            }
        }
        if forall|i: int| 0 <= i < items.len() ==> enc_ok_value(#[trigger] items[i]) {
            assert forall|i: int| 0 <= i < items.drop_first().len() implies enc_ok_value(
                #[trigger] items.drop_first()[i],
            ) by {
                assert(items.drop_first()[i] == items[i + 1]);
            }
        }
    }
}

// ---------------------------------------------------------------------------
// Encoding.
// ---------------------------------------------------------------------------

/// A header byte: the tag in the low nibble and the id in the high nibble
/// when it fits, else the escape nibble `15` followed by `varint(id - 15)`.
pub open spec fn enc_header(id: u64, ty: u8) -> Seq<u8>
    recommends
        ty < 16,
{
    if id < 15 {
        seq![(id * 16 + ty) as u8]
    } else {
        seq![(240 + ty) as u8] + spec_varint((id - 15) as u64)
    }
}

/// The payload of one value: what follows its header on the wire. Booleans
/// are carried entirely in the tag and have an empty payload.
pub open spec fn enc_value(v: ValueV) -> Seq<u8>
    decreases v, 2int,
{
    match v {
        ValueV::Bool(_) => Seq::empty(),
        ValueV::U8(n) => seq![n],
        ValueV::I8(n) => seq![spec_byte_of_i8(n)],
        ValueV::F32(b) => spec_u32_to_le_bytes(b),
        ValueV::F64(b) => spec_u64_to_le_bytes(b),
        ValueV::UInt(n) => spec_varint(n),
        ValueV::Int(n) => spec_varint(spec_zigzag(n)),
        ValueV::Str(s) => spec_varint(encode_utf8(s).len() as u64) + encode_utf8(s),
        ValueV::Struct(es) => enc_entries(es),
        ValueV::Union(k, b) => enc_entry(k, *b),
        ValueV::List(l) => enc_list(l),
        ValueV::Table(cols) => enc_table(cols),
        ValueV::UnknownI(b) => spec_varint(b.len() as u64) + b,
        ValueV::UnknownII(b) => spec_varint(b.len() as u64) + b,
        ValueV::UnknownIII(b) => spec_varint(b.len() as u64) + b,
    }
}

/// One header-prefixed field: the header of its key and tag, then the
/// payload.
pub open spec fn enc_entry(k: u16, v: ValueV) -> Seq<u8>
    decreases v, 3int,
{
    enc_header(k as u64, tag_of(v)) + enc_value(v)
}

/// A struct body: a varint entry count, then each field in order.
pub open spec fn enc_entries(es: Seq<(u16, ValueV)>) -> Seq<u8>
    decreases es, 5int,
{
    spec_varint(es.len() as u64) + enc_entry_seq(es)
}

pub open spec fn enc_entry_seq(es: Seq<(u16, ValueV)>) -> Seq<u8>
    decreases es, 4int,
{
    if es.len() == 0 {
        Seq::empty()
    } else {
        enc_entry(es[0].0, es[0].1) + enc_entry_seq(es.drop_first())
    }
}

/// A list value: a header of its length and element tag, then bare element
/// payloads.
pub open spec fn enc_list(l: ListV) -> Seq<u8>
    decreases l, 1int,
{
    enc_header(list_len(l) as u64, list_tag(l)) + enc_list_payload(l)
}

/// The bare payload of a list: packed bytes for booleans, concatenated
/// element payloads otherwise.
pub open spec fn enc_list_payload(l: ListV) -> Seq<u8>
    decreases l, 0int,
{
    match l {
        ListV::Bools { slots, .. } => slots,
        ListV::Items { items, .. } => enc_items(items),
    }
}

pub open spec fn enc_items(items: Seq<ValueV>) -> Seq<u8>
    decreases items, 4int,
{
    if items.len() == 0 {
        Seq::empty()
    } else {
        enc_value(items[0]) + enc_items(items.drop_first())
    }
}

/// A table value: varint column and row counts, then per column a header of
/// its key and element tag followed by the column's bare payload.
pub open spec fn enc_table(cols: Seq<(u16, ListV)>) -> Seq<u8>
    decreases cols, 5int,
{
    spec_varint(cols.len() as u64) + spec_varint(table_rows(cols) as u64) + enc_column_seq(cols)
}

pub open spec fn enc_column_seq(cols: Seq<(u16, ListV)>) -> Seq<u8>
    decreases cols, 4int,
{
    if cols.len() == 0 {
        Seq::empty()
    } else {
        enc_header(cols[0].0 as u64, list_tag(cols[0].1)) + enc_list_payload(cols[0].1)
            + enc_column_seq(cols.drop_first())
    }
}

/// A byte list's element payloads are exactly its bytes.
pub proof fn lemma_enc_items_u8(b: Seq<u8>)
    ensures
        enc_items(b.map_values(|n: u8| ValueV::U8(n))) == b,
    decreases b.len(),
{
    let items = b.map_values(|n: u8| ValueV::U8(n));
    if b.len() == 0 {
        assert(enc_items(items) =~= b);
    } else {
        lemma_enc_items_u8(b.drop_first());
        assert(items.drop_first() =~= b.drop_first().map_values(|n: u8| ValueV::U8(n)));
        assert(enc_value(items[0]) =~= seq![b[0]]);
        assert(enc_value(items[0]) + enc_items(items.drop_first()) =~= b);
    }
}

/// A signed byte list's element payloads are its values reinterpreted as
/// bytes.
pub proof fn lemma_enc_items_i8(v: Seq<i8>)
    ensures
        enc_items(v.map_values(|n: i8| ValueV::I8(n))) == v.map_values(
            |n: i8| spec_byte_of_i8(n),
        ),
    decreases v.len(),
{
    let items = v.map_values(|n: i8| ValueV::I8(n));
    let bytes = v.map_values(|n: i8| spec_byte_of_i8(n));
    if v.len() == 0 {
        assert(enc_items(items) =~= bytes);
    } else {
        lemma_enc_items_i8(v.drop_first());
        assert(items.drop_first() =~= v.drop_first().map_values(|n: i8| ValueV::I8(n)));
        assert(bytes.drop_first() =~= v.drop_first().map_values(|n: i8| spec_byte_of_i8(n)));
        assert(enc_value(items[0]) + enc_items(items.drop_first()) =~= bytes);
    }
}

/// The mirrored elements of a reserved-tag blob list.
pub open spec fn blob_items(ty: u8, v: Seq<Vec<u8>>) -> Seq<ValueV> {
    if ty == 13 {
        v.map_values(|b: Vec<u8>| ValueV::UnknownI(b@))
    } else if ty == 14 {
        v.map_values(|b: Vec<u8>| ValueV::UnknownII(b@))
    } else {
        v.map_values(|b: Vec<u8>| ValueV::UnknownIII(b@))
    }
}

/// Pointwise facts about blob list elements.
pub proof fn lemma_blob_items_len(ty: u8, v: Seq<Vec<u8>>)
    ensures
        blob_items(ty, v).len() == v.len(),
        forall|i: int|
            0 <= i < v.len() ==> #[trigger] enc_value(blob_items(ty, v)[i]) == spec_varint(
                v[i]@.len() as u64,
            ) + v[i]@ && (enc_ok_value(blob_items(ty, v)[i]) <==> v[i]@.len() <= u32::MAX),
{
}

/// Pushing onto the typed element sequences appends the mirrored element.
pub proof fn lemma_view_struct_items_push(s: Seq<Entries>, e: Entries)
    ensures
        view_struct_items(s.push(e)) == view_struct_items(s).push(
            ValueV::Struct(view_entry_seq(e.0@)),
        ),
{
    lemma_view_struct_items_len(s);
    lemma_view_struct_items_len(s.push(e));
    assert(view_struct_items(s.push(e)) =~= view_struct_items(s).push(
        ValueV::Struct(view_entry_seq(e.0@)),
    ));
}

pub proof fn lemma_view_union_items_push(s: Seq<Entry>, e: Entry)
    ensures
        view_union_items(s.push(e)) == view_union_items(s).push(
            ValueV::Union(e.key, Box::new(view_value(e.value))),
        ),
{
    lemma_view_union_items_len(s);
    lemma_view_union_items_len(s.push(e));
    assert(view_union_items(s.push(e)) =~= view_union_items(s).push(
        ValueV::Union(e.key, Box::new(view_value(e.value))),
    ));
}

pub proof fn lemma_view_list_items_push(s: Seq<List>, l: List)
    ensures
        view_list_items(s.push(l)) == view_list_items(s).push(ValueV::List(view_list(l))),
{
    lemma_view_list_items_len(s);
    lemma_view_list_items_len(s.push(l));
    assert(view_list_items(s.push(l)) =~= view_list_items(s).push(ValueV::List(view_list(l))));
}

pub proof fn lemma_view_table_items_push(s: Seq<Table>, t: Table)
    ensures
        view_table_items(s.push(t)) == view_table_items(s).push(
            ValueV::Table(view_column_seq(t.0@)),
        ),
{
    lemma_view_table_items_len(s);
    lemma_view_table_items_len(s.push(t));
    assert(view_table_items(s.push(t)) =~= view_table_items(s).push(
        ValueV::Table(view_column_seq(t.0@)),
    ));
}


/// The element of a mirrored list at an index: packed booleans read through
/// their storage bits, item lists index their elements.
pub open spec fn spec_list_elem(l: ListV, i: int) -> ValueV
    recommends
        0 <= i < list_len(l),
{
    match l {
        ListV::Bools { len, slots } => ValueV::Bool(crate::bit_set::spec_has(slots, i)),
        ListV::Items { items, .. } => items[i],
    }
}

/// A string payload decode fails only for want of input, a bad varint, an
/// oversized length or invalid UTF-8 — never with a type-rejection kind.
pub proof fn lemma_dec_str_err_kind(s: Seq<u8>)
    ensures
        dec_value(s, 8) matches Err(w) ==> !(w is Type),
{
    crate::varint::lemma_dec_varint_err_kind(s, 0);
}

/// Which list variants view to which element tags: used to settle that a
/// value of any other variant cannot mirror to a given tagged item list.
pub proof fn lemma_view_list_tag(v: Value)
    ensures
        (view_value(v) matches ValueV::List(lv) && lv matches ListV::Items { ty, .. } && ty == 2)
            <==> (v matches Value::List(l) && l is U8),
        (view_value(v) matches ValueV::List(lv) && lv matches ListV::Items { ty, .. } && ty == 3)
            <==> (v matches Value::List(l) && l is I8),
        (view_value(v) matches ValueV::List(lv) && lv matches ListV::Items { ty, .. } && ty == 6)
            <==> (v matches Value::List(l) && l is UInt),
        (view_value(v) matches ValueV::List(lv) && lv matches ListV::Items { ty, .. } && ty == 7)
            <==> (v matches Value::List(l) && l is Int),
        (view_value(v) matches ValueV::List(lv) && lv matches ListV::Items { ty, .. } && ty == 4)
            <==> (v matches Value::List(l) && l is F32),
        (view_value(v) matches ValueV::List(lv) && lv matches ListV::Items { ty, .. } && ty == 5)
            <==> (v matches Value::List(l) && l is F64),
        (view_value(v) matches ValueV::List(lv) && lv matches ListV::Items { ty, .. } && ty == 8)
            <==> (v matches Value::List(l) && l is Str),
        (view_value(v) matches ValueV::List(lv) && lv is Bools) <==> (v matches Value::List(l)
            && l is Bool),
{
    match v {
        Value::List(l) => {
            match l {
                List::Bool(_) => {
                    assert(view_list(l) is Bools);
                },
                List::U8(_) => {
                    assert(view_list(l) is Items && view_list(l)->Items_ty == 2);
                },
                List::I8(_) => {
                    assert(view_list(l) is Items && view_list(l)->Items_ty == 3);
                },
                List::F32(_) => {
                    assert(view_list(l) is Items && view_list(l)->Items_ty == 4);
                },
                List::F64(_) => {
                    assert(view_list(l) is Items && view_list(l)->Items_ty == 5);
                },
                List::UInt(_) => {
                    assert(view_list(l) is Items && view_list(l)->Items_ty == 6);
                },
                List::Int(_) => {
                    assert(view_list(l) is Items && view_list(l)->Items_ty == 7);
                },
                List::Str(_) => {
                    assert(view_list(l) is Items && view_list(l)->Items_ty == 8);
                },
                List::Struct(_) => {
                    assert(view_list(l) is Items && view_list(l)->Items_ty == 9);
                },
                List::Union(_) => {
                    assert(view_list(l) is Items && view_list(l)->Items_ty == 10);
                },
                List::List(_) => {
                    assert(view_list(l) is Items && view_list(l)->Items_ty == 11);
                },
                List::Table(_) => {
                    assert(view_list(l) is Items && view_list(l)->Items_ty == 12);
                },
                List::UnknownI(_) => {
                    assert(view_list(l) is Items && view_list(l)->Items_ty == 13);
                },
                List::UnknownII(_) => {
                    assert(view_list(l) is Items && view_list(l)->Items_ty == 14);
                },
                List::UnknownIII(_) => {
                    assert(view_list(l) is Items && view_list(l)->Items_ty == 15);
                },
            }
        },
        _ => {},
    }
}

// ---------------------------------------------------------------------------
// Decoding. Each function takes the remaining input and yields the decoded
// item and the bytes consumed, or the kind of failure.
// ---------------------------------------------------------------------------

/// Decodes a varint as a length that must fit the machine's address width.
pub open spec fn dec_len(s: Seq<u8>) -> Result<(int, int), WireError> {
    match spec_dec_varint(s) {
        Ok((v, n)) => if v <= usize::MAX {
            Ok((v as int, n))
        } else {
            Err(WireError::Len)
        },
        Err(e) => Err(e),
    }
}

/// Decodes a header: the id from the high nibble, extended by `15 + varint`
/// when the high nibble is the escape value, and the tag from the low nibble.
pub open spec fn dec_header(s: Seq<u8>) -> Result<((u64, u8), int), WireError> {
    if s.len() == 0 {
        Err(WireError::Eof)
    } else {
        let ty = s[0] % 16;
        let id0 = s[0] / 16;
        if id0 < 15 {
            Ok(((id0 as u64, ty), 1))
        } else {
            match spec_dec_varint(s.drop_first()) {
                Ok((v, n)) => if v <= u64::MAX - 15 {
                    Ok((((v + 15) as u64, ty), 1 + n))
                } else {
                    Err(WireError::Key)
                },
                Err(e) => Err(e),
            }
        }
    }
}

/// Decodes a length-prefixed byte block.
pub open spec fn dec_bytes(s: Seq<u8>) -> Result<(Seq<u8>, int), WireError> {
    match dec_len(s) {
        Ok((len, n)) => if n + len <= s.len() {
            Ok((s.subrange(n, n + len), n + len))
        } else {
            Err(WireError::Eof)
        },
        Err(e) => Err(e),
    }
}

/// Decodes the payload of one value with the given tag. Boolean tags carry
/// their value and consume nothing.
pub open spec fn dec_value(s: Seq<u8>, ty: u8) -> Result<(ValueV, int), WireError>
    decreases s.len(), 4int, 0int,
{
    if ty == 0 {
        Ok((ValueV::Bool(false), 0))
    } else if ty == 1 {
        Ok((ValueV::Bool(true), 0))
    } else if ty == 2 {
        if s.len() >= 1 {
            Ok((ValueV::U8(s[0]), 1))
        } else {
            Err(WireError::Eof)
        }
    } else if ty == 3 {
        if s.len() >= 1 {
            Ok((ValueV::I8(spec_i8_of_byte(s[0])), 1))
        } else {
            Err(WireError::Eof)
        }
    } else if ty == 4 {
        if s.len() >= 4 {
            Ok((ValueV::F32(spec_u32_from_le_bytes(s.subrange(0, 4))), 4))
        } else {
            Err(WireError::Eof)
        }
    } else if ty == 5 {
        if s.len() >= 8 {
            Ok((ValueV::F64(spec_u64_from_le_bytes(s.subrange(0, 8))), 8))
        } else {
            Err(WireError::Eof)
        }
    } else if ty == 6 {
        match spec_dec_varint(s) {
            Ok((v, n)) => Ok((ValueV::UInt(v), n)),
            Err(e) => Err(e),
        }
    } else if ty == 7 {
        match spec_dec_varint(s) {
            Ok((v, n)) => Ok((ValueV::Int(spec_unzigzag(v)), n)),
            Err(e) => Err(e),
        }
    } else if ty == 8 {
        match dec_bytes(s) {
            Ok((b, n)) => if valid_utf8(b) {
                Ok((ValueV::Str(decode_utf8(b)), n))
            } else {
                Err(WireError::Utf8)
            },
            Err(e) => Err(e),
        }
    } else if ty == 9 {
        match dec_entries(s) {
            Ok((es, n)) => Ok((ValueV::Struct(es), n)),
            Err(e) => Err(e),
        }
    } else if ty == 10 {
        match dec_entry(s) {
            Ok(((k, v), n)) => Ok((ValueV::Union(k, Box::new(v)), n)),
            Err(e) => Err(e),
        }
    } else if ty == 11 {
        match dec_list(s) {
            Ok((l, n)) => Ok((ValueV::List(l), n)),
            Err(e) => Err(e),
        }
    } else if ty == 12 {
        match dec_table(s) {
            Ok((cols, n)) => Ok((ValueV::Table(cols), n)),
            Err(e) => Err(e),
        }
    } else if ty == 13 {
        match dec_bytes(s) {
            Ok((b, n)) => Ok((ValueV::UnknownI(b), n)),
            Err(e) => Err(e),
        }
    } else if ty == 14 {
        match dec_bytes(s) {
            Ok((b, n)) => Ok((ValueV::UnknownII(b), n)),
            Err(e) => Err(e),
        }
    } else {
        match dec_bytes(s) {
            Ok((b, n)) => Ok((ValueV::UnknownIII(b), n)),
            Err(e) => Err(e),
        }
    }
}

/// Decodes one header-prefixed field: its key and its value.
pub open spec fn dec_entry(s: Seq<u8>) -> Result<((u16, ValueV), int), WireError>
    decreases s.len(), 2int, 0int,
{
    match dec_header(s) {
        Ok(((id, ty), h)) => if id > u16::MAX {
            Err(WireError::Key)
        } else if 1 <= h <= s.len() {
            match dec_value(s.skip(h), ty) {
                Ok((v, n)) => Ok(((id as u16, v), h + n)),
                Err(e) => Err(e),
            }
        } else {
            Err(WireError::Eof)
        },
        Err(e) => Err(e),
    }
}

/// Decodes a struct body: a varint count, then that many fields.
pub open spec fn dec_entries(s: Seq<u8>) -> Result<(Seq<(u16, ValueV)>, int), WireError>
    decreases s.len(), 3int, 0int,
{
    match dec_len(s) {
        Ok((count, n)) => if 1 <= n <= s.len() {
            match dec_entry_items(s.skip(n), count) {
                Ok((es, m)) => Ok((es, n + m)),
                Err(e) => Err(e),
            }
        } else {
            Err(WireError::Eof)
        },
        Err(e) => Err(e),
    }
}

pub open spec fn dec_entry_items(s: Seq<u8>, count: int) -> Result<
    (Seq<(u16, ValueV)>, int),
    WireError,
>
    decreases s.len(), 3int, count,
{
    if count <= 0 {
        Ok((Seq::empty(), 0))
    } else {
        match dec_entry(s) {
            Ok(((k, v), n)) => if 1 <= n <= s.len() {
                match dec_entry_items(s.skip(n), count - 1) {
                    Ok((es, m)) => Ok((seq![(k, v)] + es, n + m)),
                    Err(e) => Err(e),
                }
            } else {
                Err(WireError::Eof)
            },
            Err(e) => Err(e),
        }
    }
}

/// Decodes a list body of known length and element tag: a packed-bit block
/// for booleans, bare element payloads otherwise. The element tag reserved
/// for `false` is refused.
pub open spec fn dec_list_values(s: Seq<u8>, len: int, ty: u8) -> Result<(ListV, int), WireError>
    decreases s.len(), 6int, 0int,
{
    if ty == 0 {
        Err(WireError::Tag)
    } else if len < 0 {
        Err(WireError::Len)
    } else if ty == 1 {
        let packed = spec_bool_packed_len(len);
        if packed <= s.len() {
            Ok((ListV::Bools { len, slots: s.subrange(0, packed) }, packed))
        } else {
            Err(WireError::Eof)
        }
    } else {
        match dec_items(s, len, ty) {
            Ok((items, n)) => Ok((ListV::Items { ty, items }, n)),
            Err(e) => Err(e),
        }
    }
}

/// Decodes a list value: a header of length and element tag, then the list
/// body.
pub open spec fn dec_list(s: Seq<u8>) -> Result<(ListV, int), WireError>
    decreases s.len(), 3int, 0int,
{
    match dec_header(s) {
        Ok(((len64, ty), h)) => if len64 > usize::MAX {
            Err(WireError::Len)
        } else if 1 <= h <= s.len() {
            match dec_list_values(s.skip(h), len64 as int, ty) {
                Ok((l, n)) => Ok((l, h + n)),
                Err(e) => Err(e),
            }
        } else {
            Err(WireError::Eof)
        },
        Err(e) => Err(e),
    }
}

pub open spec fn dec_items(s: Seq<u8>, count: int, ty: u8) -> Result<(Seq<ValueV>, int), WireError>
    decreases s.len(), 5int, count,
{
    if count <= 0 {
        Ok((Seq::empty(), 0))
    } else {
        match dec_value(s, ty) {
            Ok((v, n)) => if 1 <= n <= s.len() {
                match dec_items(s.skip(n), count - 1, ty) {
                    Ok((items, m)) => Ok((seq![v] + items, n + m)),
                    Err(e) => Err(e),
                }
            } else {
                Err(WireError::Eof)
            },
            Err(e) => Err(e),
        }
    }
}

/// Decodes a table value: varint column and row counts, then the columns.
pub open spec fn dec_table(s: Seq<u8>) -> Result<(Seq<(u16, ListV)>, int), WireError>
    decreases s.len(), 3int, 0int,
{
    match dec_len(s) {
        Ok((cols, n1)) => if 1 <= n1 <= s.len() {
            match dec_len(s.skip(n1)) {
                Ok((rows, n2)) => if 1 <= n2 <= s.len() - n1 {
                    match dec_column_items(s.skip(n1 + n2), cols, rows) {
                        Ok((cs, m)) => Ok((cs, n1 + n2 + m)),
                        Err(e) => Err(e),
                    }
                } else {
                    Err(WireError::Eof)
                },
                Err(e) => Err(e),
            }
        } else {
            Err(WireError::Eof)
        },
        Err(e) => Err(e),
    }
}

pub open spec fn dec_column_items(s: Seq<u8>, count: int, rows: int) -> Result<
    (Seq<(u16, ListV)>, int),
    WireError,
>
    decreases s.len(), 0int, count,
{
    if count <= 0 {
        Ok((Seq::empty(), 0))
    } else {
        match dec_header(s) {
            Ok(((key, ty), h)) => if key > u16::MAX {
                Err(WireError::Key)
            } else if 1 <= h <= s.len() {
                match dec_list_values(s.skip(h), rows, ty) {
                    Ok((col, n)) => if 0 <= n && h + n <= s.len() {
                        match dec_column_items(s.skip(h + n), count - 1, rows) {
                            Ok((cs, m)) => Ok((seq![(key as u16, col)] + cs, h + n + m)),
                            Err(e) => Err(e),
                        }
                    } else {
                        Err(WireError::Eof)
                    },
                    Err(e) => Err(e),
                }
            } else {
                Err(WireError::Eof)
            },
            Err(e) => Err(e),
        }
    }
}

} // verus!

//! A compact, self-describing binary encoding: a 16-tag dynamic value model
//! (scalars, strings, structs, unions, lists, tables) with a byte-level codec.
//!
//! The wire format is defined by the specification functions in [`wire`]; the
//! executable encoder and decoder are proved to follow them exactly, and
//! [`laws::lemma_entries_round_trip`] shows that decoding an encoding always
//! gives back the original value.

pub mod bit_set;
pub mod convert;
pub mod decode;
pub mod decoder;
pub mod encoder;
pub mod entries;
pub mod laws;
pub mod errors;
pub mod float_bits;
pub mod utils;
pub mod varint;
pub mod wire;
pub mod zig_zag;

use vstd::prelude::*;
use vstd::slice::slice_to_vec;

pub use crate::bit_set::BitSet;
pub use crate::convert::ConvertFrom;
pub use crate::encoder::{Encode, FieldEncoder};
pub use crate::entries::{Entries, Entry};

use crate::wire::{view_column_seq, view_entry_seq, view_list, ListV, ValueV};

verus! {

/// The bit pattern of a 32-bit IEEE 754 number. The codec carries such
/// payloads as four little-endian bytes and never does arithmetic on them.
#[derive(Debug, Clone, Copy, PartialEq, Eq, Structural)]
pub struct F32Bits(pub u32);

/// The bit pattern of a 64-bit IEEE 754 number, carried as eight
/// little-endian bytes.
#[derive(Debug, Clone, Copy, PartialEq, Eq, Structural)]
pub struct F64Bits(pub u64);

/// One decoded value, a variant per wire tag. All payloads are owned.
#[derive(Debug, PartialEq)]
pub enum Value {
    Bool(bool),
    U8(u8),
    I8(i8),
    F32(F32Bits),
    F64(F64Bits),
    UInt(u64),
    Int(i64),
    Str(String),
    Struct(Entries),
    Union(Box<Entry>),
    List(List),
    Table(Table),
    UnknownI(Vec<u8>),
    UnknownII(Vec<u8>),
    UnknownIII(Vec<u8>),
}

/// A homogeneous sequence, tagged by its element type. Booleans are kept
/// bit-packed exactly as they travel on the wire.
#[derive(Debug, PartialEq)]
pub enum List {
    Bool(BitSet),
    U8(Vec<u8>),
    I8(Vec<i8>),
    F32(Vec<F32Bits>),
    F64(Vec<F64Bits>),
    UInt(Vec<u64>),
    Int(Vec<i64>),
    Str(Vec<String>),
    Struct(Vec<Entries>),
    Union(Vec<Entry>),
    List(Vec<List>),
    Table(Vec<Table>),
    UnknownI(Vec<Vec<u8>>),
    UnknownII(Vec<Vec<u8>>),
    UnknownIII(Vec<Vec<u8>>),
}

/// A columnar collection: ordered columns, each a key and a list. Every
/// column must hold one value per row; a table built by hand with unequal
/// column lengths is a caller error, not a wire error.
#[derive(Debug, PartialEq)]
pub struct Table(pub Vec<(u16, List)>);

impl View for Value {
    type V = ValueV;

    open spec fn view(&self) -> ValueV {
        wire::view_value(*self)
    }
}

impl View for List {
    type V = ListV;

    open spec fn view(&self) -> ListV {
        view_list(*self)
    }
}

impl View for Table {
    type V = Seq<(u16, ListV)>;

    open spec fn view(&self) -> Seq<(u16, ListV)> {
        view_column_seq(self.0@)
    }
}

impl Table {
    /// An empty table.
    pub fn new() -> (r: Self)
        ensures
            r@ == Seq::<(u16, ListV)>::empty(),
            r.0@.len() == 0,
    {
        Table(Vec::new())
    }

    /// An empty table with room reserved for the given number of columns.
    pub fn with_capacity(capacity: usize) -> (r: Self)
        ensures
            r@ == Seq::<(u16, ListV)>::empty(),
            r.0@.len() == 0,
    {
        Table(Vec::with_capacity(capacity))
    }

    /// Appends a column.
    pub fn insert(&mut self, key: u16, value: List)
        ensures
            final(self)@ == old(self)@.push((key, value@)),
            final(self).0@ == old(self).0@.push((key, value)),
    {
        let ghost old_cols = self.0@;
        self.0.push((key, value));
        proof {
            wire::lemma_view_column_seq_push(old_cols, (key, value));
        }
    }

    /// Whether the table has no columns.
    pub fn is_empty(&self) -> (r: bool)
        ensures
            r == (self@.len() == 0),
    {
        proof {
            wire::lemma_view_column_seq_len(self.0@);
        }
        self.0.is_empty()
    }

    /// The number of columns.
    pub fn len(&self) -> (r: usize)
        ensures
            r == self@.len(),
    {
        proof {
            wire::lemma_view_column_seq_len(self.0@);
        }
        self.0.len()
    }

    /// The column at an index, by reference.
    pub fn get_column(&self, idx: usize) -> (r: Option<&(u16, List)>)
        ensures
            match r {
                Some(col) => idx < self.0@.len() && *col == self.0@[idx as int],
                None => idx >= self.0@.len(),
            },
    {
        if idx < self.0.len() {
            Some(&self.0[idx])
        } else {
            None
        }
    }
}

impl Default for Table {
    fn default() -> (r: Self)
        ensures
            r@ == Seq::<(u16, ListV)>::empty(),
    {
        Table::new()
    }
}

// ---------------------------------------------------------------------------
// Deep copies. The model types are mutually recursive through vectors, so a
// derived clone is out of reach; these rebuild a value and are proved to
// preserve its view exactly.
// ---------------------------------------------------------------------------

fn dup_vec_string(v: &Vec<String>) -> (r: Vec<String>)
    ensures
        r@.len() == v@.len(),
        forall|j: int| 0 <= j < v@.len() ==> #[trigger] r@[j]@ == v@[j]@,
    decreases v@, 2int,
{
    let mut out: Vec<String> = Vec::with_capacity(v.len());
    let mut i: usize = 0;
    #[verifier::loop_isolation(false)]
    while i < v.len()
        invariant
            i <= v@.len(),
            out@.len() == i,
            forall|j: int| 0 <= j < i ==> #[trigger] out@[j]@ == v@[j]@,
        decreases v@.len() - i,
    {
        out.push(v[i].clone());
        i = i + 1;
    }
    out
}

fn dup_vec_blob(v: &Vec<Vec<u8>>) -> (r: Vec<Vec<u8>>)
    ensures
        r@.len() == v@.len(),
        forall|j: int| 0 <= j < v@.len() ==> #[trigger] r@[j]@ == v@[j]@,
    decreases v@, 2int,
{
    let mut out: Vec<Vec<u8>> = Vec::with_capacity(v.len());
    let mut i: usize = 0;
    #[verifier::loop_isolation(false)]
    while i < v.len()
        invariant
            i <= v@.len(),
            out@.len() == i,
            forall|j: int| 0 <= j < i ==> #[trigger] out@[j]@ == v@[j]@,
        decreases v@.len() - i,
    {
        out.push(slice_to_vec(v[i].as_slice()));
        i = i + 1;
    }
    out
}

fn dup_vec_entries(v: &Vec<Entries>) -> (r: Vec<Entries>)
    ensures
        r@.len() == v@.len(),
        forall|j: int| 0 <= j < v@.len() ==> #[trigger] r@[j]@ == v@[j]@,
    decreases v@, 2int,
{
    let mut out: Vec<Entries> = Vec::with_capacity(v.len());
    let mut i: usize = 0;
    #[verifier::loop_isolation(false)]
    while i < v.len()
        invariant
            i <= v@.len(),
            out@.len() == i,
            forall|j: int| 0 <= j < i ==> #[trigger] out@[j]@ == v@[j]@,
        decreases v@.len() - i,
    {
        out.push(v[i].duplicate());
        i = i + 1;
    }
    out
}

fn dup_vec_entry(v: &Vec<Entry>) -> (r: Vec<Entry>)
    ensures
        r@.len() == v@.len(),
        forall|j: int| 0 <= j < v@.len() ==> #[trigger] r@[j].key == v@[j].key && r@[j].value@ == v@[j].value@,
    decreases v@, 2int,
{
    let mut out: Vec<Entry> = Vec::with_capacity(v.len());
    let mut i: usize = 0;
    #[verifier::loop_isolation(false)]
    while i < v.len()
        invariant
            i <= v@.len(),
            out@.len() == i,
            forall|j: int| 0 <= j < i ==> #[trigger] out@[j].key == v@[j].key && out@[j].value@ == v@[j].value@,
        decreases v@.len() - i,
    {
        out.push(v[i].duplicate());
        i = i + 1;
    }
    out
}

fn dup_vec_list(v: &Vec<List>) -> (r: Vec<List>)
    ensures
        r@.len() == v@.len(),
        forall|j: int| 0 <= j < v@.len() ==> #[trigger] r@[j]@ == v@[j]@,
    decreases v@, 2int,
{
    let mut out: Vec<List> = Vec::with_capacity(v.len());
    let mut i: usize = 0;
    #[verifier::loop_isolation(false)]
    while i < v.len()
        invariant
            i <= v@.len(),
            out@.len() == i,
            forall|j: int| 0 <= j < i ==> #[trigger] out@[j]@ == v@[j]@,
        decreases v@.len() - i,
    {
        out.push(v[i].duplicate());
        i = i + 1;
    }
    out
}

fn dup_vec_table(v: &Vec<Table>) -> (r: Vec<Table>)
    ensures
        r@.len() == v@.len(),
        forall|j: int| 0 <= j < v@.len() ==> #[trigger] r@[j]@ == v@[j]@,
    decreases v@, 2int,
{
    let mut out: Vec<Table> = Vec::with_capacity(v.len());
    let mut i: usize = 0;
    #[verifier::loop_isolation(false)]
    while i < v.len()
        invariant
            i <= v@.len(),
            out@.len() == i,
            forall|j: int| 0 <= j < i ==> #[trigger] out@[j]@ == v@[j]@,
        decreases v@.len() - i,
    {
        out.push(v[i].duplicate());
        i = i + 1;
    }
    out
}

impl Entry {
    /// A copy of this entry carrying the same key and the same value.
    pub fn duplicate(&self) -> (r: Entry)
        ensures
            r.key == self.key,
            r.value@ == self.value@,
        decreases self.value, 1int,
    {
        Entry { key: self.key, value: self.value.duplicate() }
    }
}

impl Entries {
    /// A copy of this struct body with the same entries.
    pub fn duplicate(&self) -> (r: Entries)
        ensures
            r@ == self@,
        decreases self, 0int,
    {
        let out = dup_vec_entry(&self.0);
        proof {
            crate::entries::lemma_view_entry_seq_len(out@);
            crate::entries::lemma_view_entry_seq_len(self.0@);
            assert(view_entry_seq(out@) =~= view_entry_seq(self.0@));
        }
        Entries(out)
    }
}

impl Table {
    /// A copy of this table with the same columns.
    pub fn duplicate(&self) -> (r: Table)
        ensures
            r@ == self@,
        decreases self, 0int,
    {
        let out = dup_vec_table_col(&self.0);
        proof {
            wire::lemma_view_column_seq_len(out@);
            wire::lemma_view_column_seq_len(self.0@);
            assert(view_column_seq(out@) =~= view_column_seq(self.0@));
        }
        Table(out)
    }
}

fn dup_vec_table_col(v: &Vec<(u16, List)>) -> (r: Vec<(u16, List)>)
    ensures
        r@.len() == v@.len(),
        forall|j: int|
            0 <= j < v@.len() ==> #[trigger] r@[j].0 == v@[j].0 && r@[j].1@ == v@[j].1@,
    decreases v@, 2int,
{
    let mut out: Vec<(u16, List)> = Vec::with_capacity(v.len());
    let mut i: usize = 0;
    #[verifier::loop_isolation(false)]
    while i < v.len()
        invariant
            i <= v@.len(),
            out@.len() == i,
            forall|j: int|
                0 <= j < i ==> #[trigger] out@[j].0 == v@[j].0 && out@[j].1@ == v@[j].1@,
        decreases v@.len() - i,
    {
        out.push((v[i].0, v[i].1.duplicate()));
        i = i + 1;
    }
    out
}

impl List {
    /// A copy of this list with the same elements.
    pub fn duplicate(&self) -> (r: List)
        ensures
            r@ == self@,
        decreases self, 1int,
    {
        match self {
            List::Bool(bs) => List::Bool(
                BitSet { len: bs.len, slots: vstd::slice::slice_to_vec(bs.slots.as_slice()) },
            ),
            List::U8(v) => List::U8(slice_to_vec(v.as_slice())),
            List::I8(v) => List::I8(slice_to_vec(v.as_slice())),
            List::F32(v) => List::F32(slice_to_vec(v.as_slice())),
            List::F64(v) => List::F64(slice_to_vec(v.as_slice())),
            List::UInt(v) => List::UInt(slice_to_vec(v.as_slice())),
            List::Int(v) => List::Int(slice_to_vec(v.as_slice())),
            List::Str(v) => {
                let out = dup_vec_string(v);
                proof {
                    assert(out@.map_values(|s: String| ValueV::Str(s@)) =~= v@.map_values(
                        |s: String| ValueV::Str(s@),
                    ));
                }
                List::Str(out)
            },
            List::Struct(v) => {
                let out = dup_vec_entries(v);
                proof {
                    wire::lemma_view_struct_items_len(out@);
                    wire::lemma_view_struct_items_len(v@);
                    assert forall|j: int| 0 <= j < v@.len() implies wire::view_struct_items(out@)[j]
                        == wire::view_struct_items(v@)[j] by {
                        assert(out@[j]@ == v@[j]@);
                    }
                    assert(wire::view_struct_items(out@) =~= wire::view_struct_items(v@));
                }
                List::Struct(out)
            },
            List::Union(v) => {
                let out = dup_vec_entry(v);
                proof {
                    wire::lemma_view_union_items_len(out@);
                    wire::lemma_view_union_items_len(v@);
                    assert(wire::view_union_items(out@) =~= wire::view_union_items(v@));
                }
                List::Union(out)
            },
            List::List(v) => {
                let out = dup_vec_list(v);
                proof {
                    wire::lemma_view_list_items_len(out@);
                    wire::lemma_view_list_items_len(v@);
                    assert forall|j: int| 0 <= j < v@.len() implies wire::view_list_items(out@)[j]
                        == wire::view_list_items(v@)[j] by {
                        assert(out@[j]@ == v@[j]@);
                    }
                    assert(wire::view_list_items(out@) =~= wire::view_list_items(v@));
                }
                List::List(out)
            },
            List::Table(v) => {
                let out = dup_vec_table(v);
                proof {
                    wire::lemma_view_table_items_len(out@);
                    wire::lemma_view_table_items_len(v@);
                    assert forall|j: int| 0 <= j < v@.len() implies wire::view_table_items(out@)[j]
                        == wire::view_table_items(v@)[j] by {
                        assert(out@[j]@ == v@[j]@);
                    }
                    assert(wire::view_table_items(out@) =~= wire::view_table_items(v@));
                }
                List::Table(out)
            },
            List::UnknownI(v) => {
                let out = dup_vec_blob(v);
                proof {
                    assert(out@.map_values(|b: Vec<u8>| ValueV::UnknownI(b@)) =~= v@.map_values(
                        |b: Vec<u8>| ValueV::UnknownI(b@),
                    ));
                }
                List::UnknownI(out)
            },
            List::UnknownII(v) => {
                let out = dup_vec_blob(v);
                proof {
                    assert(out@.map_values(|b: Vec<u8>| ValueV::UnknownII(b@)) =~= v@.map_values(
                        |b: Vec<u8>| ValueV::UnknownII(b@),
                    ));
                }
                List::UnknownII(out)
            },
            List::UnknownIII(v) => {
                let out = dup_vec_blob(v);
                proof {
                    assert(out@.map_values(|b: Vec<u8>| ValueV::UnknownIII(b@)) =~= v@.map_values(
                        |b: Vec<u8>| ValueV::UnknownIII(b@),
                    ));
                }
                List::UnknownIII(out)
            },
        }
    }

    /// The element at an index as a fresh value, or `None` beyond the list's
    /// logical length. Packed boolean lists read their bit; every other list
    /// copies its element.
    pub fn get(&self, idx: usize) -> (r: Option<Value>)
        ensures
            match r {
                Some(v) => idx < wire::list_len(self@) && v@ == wire::spec_list_elem(
                    self@,
                    idx as int,
                ),
                None => idx >= wire::list_len(self@),
            },
    {
        match self {
            List::Bool(bs) => {
                if idx < bs.capacity() {
                    Some(Value::Bool(bs.has(idx)))
                } else {
                    None
                }
            },
            List::U8(v) => {
                if idx < v.len() {
                    Some(Value::U8(v[idx]))
                } else {
                    None
                }
            },
            List::I8(v) => {
                if idx < v.len() {
                    Some(Value::I8(v[idx]))
                } else {
                    None
                }
            },
            List::F32(v) => {
                if idx < v.len() {
                    Some(Value::F32(v[idx]))
                } else {
                    None
                }
            },
            List::F64(v) => {
                if idx < v.len() {
                    Some(Value::F64(v[idx]))
                } else {
                    None
                }
            },
            List::UInt(v) => {
                if idx < v.len() {
                    Some(Value::UInt(v[idx]))
                } else {
                    None
                }
            },
            List::Int(v) => {
                if idx < v.len() {
                    Some(Value::Int(v[idx]))
                } else {
                    None
                }
            },
            List::Str(v) => {
                if idx < v.len() {
                    Some(Value::Str(v[idx].clone()))
                } else {
                    None
                }
            },
            List::Struct(v) => {
                proof {
                    wire::lemma_view_struct_items_len(v@);
                }
                if idx < v.len() {
                    Some(Value::Struct(v[idx].duplicate()))
                } else {
                    None
                }
            },
            List::Union(v) => {
                proof {
                    wire::lemma_view_union_items_len(v@);
                }
                if idx < v.len() {
                    Some(Value::Union(Box::new(v[idx].duplicate())))
                } else {
                    None
                }
            },
            List::List(v) => {
                proof {
                    wire::lemma_view_list_items_len(v@);
                }
                if idx < v.len() {
                    Some(Value::List(v[idx].duplicate()))
                } else {
                    None
                }
            },
            List::Table(v) => {
                proof {
                    wire::lemma_view_table_items_len(v@);
                }
                if idx < v.len() {
                    Some(Value::Table(v[idx].duplicate()))
                } else {
                    None
                }
            },
            List::UnknownI(v) => {
                if idx < v.len() {
                    Some(Value::UnknownI(slice_to_vec(v[idx].as_slice())))
                } else {
                    None
                }
            },
            List::UnknownII(v) => {
                if idx < v.len() {
                    Some(Value::UnknownII(slice_to_vec(v[idx].as_slice())))
                } else {
                    None
                }
            },
            List::UnknownIII(v) => {
                if idx < v.len() {
                    Some(Value::UnknownIII(slice_to_vec(v[idx].as_slice())))
                } else {
                    None
                }
            },
        }
    }
}

impl Value {
    /// A copy of this value with the same view.
    pub fn duplicate(&self) -> (r: Value)
        ensures
            r@ == self@,
        decreases self, 0int,
    {
        match self {
            Value::Bool(b) => Value::Bool(*b),
            Value::U8(n) => Value::U8(*n),
            Value::I8(n) => Value::I8(*n),
            Value::F32(b) => Value::F32(*b),
            Value::F64(b) => Value::F64(*b),
            Value::UInt(n) => Value::UInt(*n),
            Value::Int(n) => Value::Int(*n),
            Value::Str(s) => Value::Str(s.clone()),
            Value::Struct(e) => Value::Struct(e.duplicate()),
            Value::Union(e) => Value::Union(Box::new((**e).duplicate())),
            Value::List(l) => Value::List(l.duplicate()),
            Value::Table(t) => Value::Table(t.duplicate()),
            Value::UnknownI(b) => Value::UnknownI(slice_to_vec(b.as_slice())),
            Value::UnknownII(b) => Value::UnknownII(slice_to_vec(b.as_slice())),
            Value::UnknownIII(b) => Value::UnknownIII(slice_to_vec(b.as_slice())),
        }
    }
}

} // verus!

//! The round-trip law of the wire format: decoding the encoding of any
//! well-formed value gives back exactly that value, consuming exactly its
//! encoded bytes, whatever follows them in the input.

use vstd::prelude::*;
use vstd::utf8::{encode_utf8_valid_utf8, encode_utf8_decode_utf8, encode_utf8};
use vstd::bytes::{lemma_auto_spec_u32_to_from_le_bytes, lemma_auto_spec_u64_to_from_le_bytes,
    spec_u32_to_le_bytes, spec_u64_to_le_bytes};

use crate::errors::WireError;
use crate::utils::spec_bool_packed_len;
use crate::varint::{lemma_varint_len_small, lemma_varint_round_trip, spec_varint};
use crate::wire::{dec_bytes, dec_column_items, dec_entries, dec_entry, dec_entry_items,
    dec_header, dec_items, dec_len, dec_list, dec_list_values, dec_table, dec_value, enc_column_seq,
    enc_entries, enc_entry, enc_entry_seq, enc_header, enc_items, enc_list, enc_list_payload,
    enc_ok_column_seq, enc_ok_entry_seq, enc_ok_items, enc_ok_list, enc_ok_list_payload,
    enc_ok_value, enc_table, enc_value, item_matches, list_len, list_tag, table_rows, tag_of,
    wf_column_seq, wf_entry_seq, wf_items, wf_list, wf_value, ListV, ValueV};
use crate::zig_zag::lemma_zigzag_bijection;

verus! {

broadcast use vstd::seq::group_seq_axioms;

/// A header round-trips: decoding its encoding yields the id and tag back.
proof fn lemma_header_round_trip(id: u64, ty: u8, rest: Seq<u8>)
    requires
        ty < 16,
    ensures
        dec_header(enc_header(id, ty) + rest) == Ok::<((u64, u8), int), WireError>(
            ((id, ty), enc_header(id, ty).len() as int),
        ),
        enc_header(id, ty).len() >= 1,
{
    let s = enc_header(id, ty) + rest;
    if id < 15 {
        assert(s[0] == (id * 16 + ty) as u8);
        assert((id * 16 + ty) as u8 % 16 == ty);
        assert((id * 16 + ty) as u8 / 16 == id);
    } else {
        assert(s[0] == (240 + ty) as u8);
        assert((240 + ty) as u8 / 16 == 15);
        assert((240 + ty) as u8 % 16 == ty);
        lemma_varint_round_trip((id - 15) as u64, rest);
        assert(s.drop_first() =~= spec_varint((id - 15) as u64) + rest);
    }
}

/// A varint length field round-trips when the length fits the wire limit.
proof fn lemma_len_round_trip(n: u64, rest: Seq<u8>)
    requires
        n <= u32::MAX,
    ensures
        dec_len(spec_varint(n) + rest) == Ok::<(int, int), WireError>(
            (n as int, spec_varint(n).len() as int),
        ),
        1 <= spec_varint(n).len() <= 5,
{
    lemma_varint_round_trip(n, rest);
    lemma_varint_len_small(n);
}

/// A length-prefixed byte block round-trips when its length fits.
proof fn lemma_bytes_round_trip(b: Seq<u8>, rest: Seq<u8>)
    requires
        b.len() <= u32::MAX,
    ensures
        dec_bytes(spec_varint(b.len() as u64) + b + rest) == Ok::<(Seq<u8>, int), WireError>(
            (b, spec_varint(b.len() as u64).len() + b.len() as int),
        ),
{
    let s = spec_varint(b.len() as u64) + b + rest;
    lemma_len_round_trip(b.len() as u64, b + rest);
    assert(s =~= spec_varint(b.len() as u64) + (b + rest));
    let n = spec_varint(b.len() as u64).len() as int;
    assert(s.subrange(n, n + b.len()) =~= b);
}

/// A header is never empty.
proof fn lemma_enc_header_len(id: u64, ty: u8)
    ensures
        enc_header(id, ty).len() >= 1,
{
    if id >= 15 {
        lemma_varint_len_small((id - 15) as u64);
    }
}

/// A payload of a tag at or above the first scalar tag is never empty.
proof fn lemma_enc_value_len_pos(v: ValueV)
    ensures
        tag_of(v) >= 2 ==> enc_value(v).len() >= 1,
{
    match v {
        ValueV::F32(b) => {
            lemma_auto_spec_u32_to_from_le_bytes();
        },
        ValueV::F64(b) => {
            lemma_auto_spec_u64_to_from_le_bytes();
        },
        ValueV::UInt(n) => {
            lemma_varint_len_small(n);
        },
        ValueV::Int(n) => {
            lemma_varint_len_small(crate::zig_zag::spec_zigzag(n));
        },
        ValueV::Str(s) => {
            lemma_varint_len_small(encode_utf8(s).len() as u64);
        },
        ValueV::Struct(es) => {
            lemma_varint_len_small(es.len() as u64);
        },
        ValueV::Union(k, b) => {
            lemma_enc_header_len(k as u64, tag_of(*b));
        },
        ValueV::List(l) => {
            lemma_enc_header_len(list_len(l) as u64, list_tag(l));
        },
        ValueV::Table(cols) => {
            lemma_varint_len_small(cols.len() as u64);
        },
        ValueV::UnknownI(b) => {
            lemma_varint_len_small(b.len() as u64);
        },
        ValueV::UnknownII(b) => {
            lemma_varint_len_small(b.len() as u64);
        },
        ValueV::UnknownIII(b) => {
            lemma_varint_len_small(b.len() as u64);
        },
        _ => {},
    }
}

/// One value's payload round-trips under its own tag.
proof fn lemma_value_round_trip(v: ValueV, rest: Seq<u8>)
    requires
        wf_value(v),
        enc_ok_value(v),
    ensures
        dec_value(enc_value(v) + rest, tag_of(v)) == Ok::<(ValueV, int), WireError>(
            (v, enc_value(v).len() as int),
        ),
    decreases v, 0int,
{
    let s = enc_value(v) + rest;
    match v {
        ValueV::Bool(b) => {
            assert(s =~= rest);
        },
        ValueV::U8(n) => {
            assert(s[0] == n);
        },
        ValueV::I8(n) => {
            assert(s[0] == crate::utils::spec_byte_of_i8(n));
        },
        ValueV::F32(b) => {
            lemma_auto_spec_u32_to_from_le_bytes();
            assert(s.subrange(0, 4) =~= spec_u32_to_le_bytes(b));
        },
        ValueV::F64(b) => {
            lemma_auto_spec_u64_to_from_le_bytes();
            assert(s.subrange(0, 8) =~= spec_u64_to_le_bytes(b));
        },
        ValueV::UInt(n) => {
            lemma_varint_round_trip(n, rest);
        },
        ValueV::Int(n) => {
            lemma_varint_round_trip(crate::zig_zag::spec_zigzag(n), rest);
            lemma_zigzag_bijection(n, 0);
        },
        ValueV::Str(chars) => {
            let b = encode_utf8(chars);
            assert(s =~= spec_varint(b.len() as u64) + b + rest);
            lemma_bytes_round_trip(b, rest);
            broadcast use encode_utf8_valid_utf8, encode_utf8_decode_utf8;

            assert(vstd::utf8::valid_utf8(b));
        },
        ValueV::Struct(es) => {
            lemma_entries_body_round_trip(es, rest);
        },
        ValueV::Union(k, b) => {
            lemma_entry_round_trip(k, *b, rest);
        },
        ValueV::List(l) => {
            lemma_list_round_trip(l, rest);
        },
        ValueV::Table(cols) => {
            lemma_table_round_trip(cols, rest);
        },
        ValueV::UnknownI(b) => {
            assert(s =~= spec_varint(b.len() as u64) + b + rest);
            lemma_bytes_round_trip(b, rest);
        },
        ValueV::UnknownII(b) => {
            assert(s =~= spec_varint(b.len() as u64) + b + rest);
            lemma_bytes_round_trip(b, rest);
        },
        ValueV::UnknownIII(b) => {
            assert(s =~= spec_varint(b.len() as u64) + b + rest);
            lemma_bytes_round_trip(b, rest);
        },
    }
}

/// One header-prefixed field round-trips.
proof fn lemma_entry_round_trip(k: u16, v: ValueV, rest: Seq<u8>)
    requires
        wf_value(v),
        enc_ok_value(v),
    ensures
        dec_entry(enc_entry(k, v) + rest) == Ok::<((u16, ValueV), int), WireError>(
            ((k, v), enc_entry(k, v).len() as int),
        ),
        enc_entry(k, v).len() >= 1,
    decreases v, 1int,
{
    let s = enc_entry(k, v) + rest;
    let h = enc_header(k as u64, tag_of(v));
    assert(s =~= h + (enc_value(v) + rest));
    lemma_header_round_trip(k as u64, tag_of(v), enc_value(v) + rest);
    assert(s.skip(h.len() as int) =~= enc_value(v) + rest);
    lemma_value_round_trip(v, rest);
}

/// A field sequence of known count round-trips.
proof fn lemma_entry_items_round_trip(es: Seq<(u16, ValueV)>, rest: Seq<u8>)
    requires
        wf_entry_seq(es),
        enc_ok_entry_seq(es),
    ensures
        dec_entry_items(enc_entry_seq(es) + rest, es.len() as int) == Ok::<
            (Seq<(u16, ValueV)>, int),
            WireError,
        >((es, enc_entry_seq(es).len() as int)),
    decreases es, 2int,
{
    if es.len() == 0 {
        assert(enc_entry_seq(es) + rest =~= rest);
        assert(es =~= Seq::<(u16, ValueV)>::empty());
    } else {
        let (k, v) = es[0];
        let tail = es.drop_first();
        let s = enc_entry_seq(es) + rest;
        assert(s =~= enc_entry(k, v) + (enc_entry_seq(tail) + rest));
        lemma_entry_round_trip(k, v, enc_entry_seq(tail) + rest);
        let n = enc_entry(k, v).len() as int;
        assert(dec_entry(s) == Ok::<((u16, ValueV), int), WireError>(((k, v), n)));
        assert(s.skip(n) =~= enc_entry_seq(tail) + rest);
        lemma_entry_items_round_trip(tail, rest);
        assert(dec_entry_items(s.skip(n), es.len() - 1) == Ok::<
            (Seq<(u16, ValueV)>, int),
            WireError,
        >((tail, enc_entry_seq(tail).len() as int)));
        assert(seq![(k, v)] + tail =~= es);
        assert(enc_entry_seq(es).len() == n + enc_entry_seq(tail).len());
    }
}

/// A count-prefixed struct body round-trips when its entry count fits.
proof fn lemma_entries_body_round_trip(es: Seq<(u16, ValueV)>, rest: Seq<u8>)
    requires
        wf_entry_seq(es),
        enc_ok_entry_seq(es),
        es.len() <= u32::MAX,
    ensures
        dec_entries(enc_entries(es) + rest) == Ok::<(Seq<(u16, ValueV)>, int), WireError>(
            (es, enc_entries(es).len() as int),
        ),
    decreases es, 3int,
{
    let s = enc_entries(es) + rest;
    assert(s =~= spec_varint(es.len() as u64) + (enc_entry_seq(es) + rest));
    lemma_len_round_trip(es.len() as u64, enc_entry_seq(es) + rest);
    let n = spec_varint(es.len() as u64).len() as int;
    assert(s.skip(n) =~= enc_entry_seq(es) + rest);
    lemma_entry_items_round_trip(es, rest);
}

/// A bare element sequence round-trips under its element tag.
proof fn lemma_items_round_trip(ty: u8, items: Seq<ValueV>, rest: Seq<u8>)
    requires
        2 <= ty <= 15,
        wf_items(ty, items),
        enc_ok_items(items),
    ensures
        dec_items(enc_items(items) + rest, items.len() as int, ty) == Ok::<
            (Seq<ValueV>, int),
            WireError,
        >((items, enc_items(items).len() as int)),
    decreases items, 2int,
{
    if items.len() == 0 {
        assert(enc_items(items) + rest =~= rest);
        assert(items =~= Seq::<ValueV>::empty());
    } else {
        let v = items[0];
        let tail = items.drop_first();
        let s = enc_items(items) + rest;
        assert(tag_of(v) == ty);
        assert(s =~= enc_value(v) + (enc_items(tail) + rest));
        lemma_value_round_trip(v, enc_items(tail) + rest);
        lemma_enc_value_len_pos(v);
        let n = enc_value(v).len() as int;
        assert(dec_value(s, ty) == Ok::<(ValueV, int), WireError>((v, n)));
        assert(s.skip(n) =~= enc_items(tail) + rest);
        lemma_items_round_trip(ty, tail, rest);
        assert(dec_items(s.skip(n), items.len() - 1, ty) == Ok::<(Seq<ValueV>, int), WireError>(
            (tail, enc_items(tail).len() as int),
        ));
        assert(seq![v] + tail =~= items);
        assert(enc_items(items).len() == n + enc_items(tail).len());
    }
}

/// A list body round-trips given its length and element tag.
proof fn lemma_list_values_round_trip(l: ListV, rest: Seq<u8>)
    requires
        wf_list(l),
        enc_ok_list(l),
    ensures
        dec_list_values(enc_list_payload(l) + rest, list_len(l), list_tag(l)) == Ok::<
            (ListV, int),
            WireError,
        >((l, enc_list_payload(l).len() as int)),
    decreases l, 1int,
{
    match l {
        ListV::Bools { len, slots } => {
            let s = enc_list_payload(l) + rest;
            assert(s.subrange(0, spec_bool_packed_len(len)) =~= slots);
        },
        ListV::Items { ty, items } => {
            lemma_items_round_trip(ty, items, rest);
        },
    }
}

/// Restates the list-body round trip at a column's decode site.
proof fn lemma_list_values_rt_consumed(col: ListV, rest: Seq<u8>)
    requires
        wf_list(col),
        enc_ok_list(col),
    ensures
        dec_list_values(enc_list_payload(col) + rest, list_len(col), list_tag(col)) == Ok::<
            (ListV, int),
            WireError,
        >((col, enc_list_payload(col).len() as int)),
    decreases col, 2int,
{
    lemma_list_values_round_trip(col, rest);
}

/// A whole list value round-trips.
proof fn lemma_list_round_trip(l: ListV, rest: Seq<u8>)
    requires
        wf_list(l),
        enc_ok_list(l),
    ensures
        dec_list(enc_list(l) + rest) == Ok::<(ListV, int), WireError>(
            (l, enc_list(l).len() as int),
        ),
    decreases l, 2int,
{
    let s = enc_list(l) + rest;
    let h = enc_header(list_len(l) as u64, list_tag(l));
    assert(s =~= h + (enc_list_payload(l) + rest));
    lemma_header_round_trip(list_len(l) as u64, list_tag(l), enc_list_payload(l) + rest);
    assert(s.skip(h.len() as int) =~= enc_list_payload(l) + rest);
    lemma_list_values_round_trip(l, rest);
}

/// A column sequence of known count and row count round-trips.
#[verifier::rlimit(80)]
proof fn lemma_columns_round_trip(cols: Seq<(u16, ListV)>, rows: int, rest: Seq<u8>)
    requires
        wf_column_seq(cols, rows),
        enc_ok_column_seq(cols),
        0 <= rows <= u32::MAX,
    ensures
        dec_column_items(enc_column_seq(cols) + rest, cols.len() as int, rows) == Ok::<
            (Seq<(u16, ListV)>, int),
            WireError,
        >((cols, enc_column_seq(cols).len() as int)),
    decreases cols, 2int,
{
    if cols.len() == 0 {
        assert(enc_column_seq(cols) + rest =~= rest);
        assert(cols =~= Seq::<(u16, ListV)>::empty());
    } else {
        let (k, col) = cols[0];
        let tail = cols.drop_first();
        let s = enc_column_seq(cols) + rest;
        assert(wf_list(col) && list_len(col) == rows && enc_ok_list_payload(col));
        assert(list_tag(col) < 16);
        assert(enc_ok_list(col));
        let h = enc_header(k as u64, list_tag(col));
        assert(s =~= h + (enc_list_payload(col) + (enc_column_seq(tail) + rest)));
        lemma_header_round_trip(
            k as u64,
            list_tag(col),
            enc_list_payload(col) + (enc_column_seq(tail) + rest),
        );
        assert(s.skip(h.len() as int) =~= enc_list_payload(col) + (enc_column_seq(tail) + rest));
        lemma_list_values_round_trip(col, enc_column_seq(tail) + rest);
        let n = enc_list_payload(col).len() as int;
        assert(s.skip(h.len() + n) =~= enc_column_seq(tail) + rest);
        lemma_list_values_rt_consumed(col, enc_column_seq(tail) + rest);
        lemma_columns_round_trip(tail, rows, rest);
        assert(seq![(k, col)] + tail =~= cols);
        assert(enc_column_seq(cols).len() == h.len() + enc_list_payload(col).len()
            + enc_column_seq(tail).len());
    }
}

/// A whole table value round-trips.
#[verifier::rlimit(50)]
proof fn lemma_table_round_trip(cols: Seq<(u16, ListV)>, rest: Seq<u8>)
    requires
        wf_column_seq(cols, table_rows(cols)),
        enc_ok_column_seq(cols),
        cols.len() <= u32::MAX,
        table_rows(cols) <= u32::MAX,
    ensures
        dec_table(enc_table(cols) + rest) == Ok::<(Seq<(u16, ListV)>, int), WireError>(
            (cols, enc_table(cols).len() as int),
        ),
    decreases cols, 3int,
{
    let rows = table_rows(cols);
    assert(0 <= rows) by {
        if cols.len() > 0 {
            assert(wf_list(cols[0].1));
        }
    }
    let s = enc_table(cols) + rest;
    let v1 = spec_varint(cols.len() as u64);
    let v2 = spec_varint(rows as u64);
    assert(s =~= v1 + (v2 + (enc_column_seq(cols) + rest)));
    lemma_len_round_trip(cols.len() as u64, v2 + (enc_column_seq(cols) + rest));
    assert(s.skip(v1.len() as int) =~= v2 + (enc_column_seq(cols) + rest));
    lemma_len_round_trip(rows as u64, enc_column_seq(cols) + rest);
    assert(s.skip(v1.len() + v2.len() as int) =~= enc_column_seq(cols) + rest);
    lemma_columns_round_trip(cols, rows, rest);
}

/// Round trip of the wire format: decoding the encoding of any well-formed,
/// encodable struct body gives back exactly that body and consumes exactly
/// its encoded bytes, whatever follows them. Together with the contracts of
/// [`crate::encoder::encode_entries`] and [`crate::entries::Entries::parse`],
/// this says that parsing what the encoder wrote always reproduces the
/// original value tree — scalars, strings, lists, tables and nested structs
/// alike.
pub proof fn lemma_entries_round_trip(es: Seq<(u16, ValueV)>, rest: Seq<u8>)
    requires
        wf_entry_seq(es),
        enc_ok_entry_seq(es),
        es.len() <= u32::MAX,
    ensures
        dec_entries(enc_entries(es) + rest) == Ok::<(Seq<(u16, ValueV)>, int), WireError>(
            (es, enc_entries(es).len() as int),
        ),
{
    lemma_entries_body_round_trip(es, rest);
}

/// Round trip for one value of any tag, stated for callers that work at the
/// level of single header-prefixed fields.
pub proof fn lemma_field_round_trip(k: u16, v: ValueV, rest: Seq<u8>)
    requires
        wf_value(v),
        enc_ok_value(v),
    ensures
        dec_entry(enc_entry(k, v) + rest) == Ok::<((u16, ValueV), int), WireError>(
            ((k, v), enc_entry(k, v).len() as int),
        ),
{
    lemma_entry_round_trip(k, v, rest);
}

} // verus!

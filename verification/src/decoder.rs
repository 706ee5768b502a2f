//! The recursive-descent decoder: from a byte cursor into the value model.
//! Each parser returns exactly what the corresponding specification function
//! in [`crate::wire`] decodes, value and consumed bytes alike, and fails
//! exactly when it fails.

use vstd::prelude::*;
use vstd::bytes::{u32_from_le_bytes, u64_from_le_bytes};
use vstd::slice::slice_to_vec;

use crate::decode::{parse_bytes, parse_header, parse_length, parse_packed_booleans, parse_str};
use crate::entries::{lemma_view_entry_seq_len, lemma_view_entry_seq_push, Entries, Entry};
use crate::errors::{matches_wire_error, Error, ParseError, WireError};
use crate::utils::{i8_from_byte, read_byte, read_bytes};
use crate::varint::read_u64;
use crate::wire::{blob_items, dec_entries, dec_entry, dec_entry_items, dec_header, dec_items, dec_len,
    dec_list, dec_list_values, dec_table, dec_value, dec_column_items, lemma_view_list_items_len,
    lemma_view_struct_items_len, lemma_view_table_items_len, lemma_view_union_items_len,
    lemma_view_column_seq_len, view_column_seq, view_entry_seq, view_list, view_list_items,
    view_struct_items, view_table_items, view_union_items, view_value, ListV, ValueV};
use crate::zig_zag;
use crate::{F32Bits, F64Bits, List, Table, Value};

verus! {

broadcast use vstd::seq::group_seq_axioms, vstd::std_specs::vec::group_vec_axioms;

/// Parses the payload of one value with the given tag, as [`dec_value`]
/// describes. Boolean tags consume nothing; every other tag consumes at
/// least one byte.
pub(crate) fn parse_value(buf: &[u8], pos: usize, ty: u8) -> (r: Result<(Value, usize), Error>)
    requires
        pos <= buf@.len(),
        ty < 16,
    ensures
        match r {
            Ok((v, p)) => {
                &&& pos <= p <= buf@.len()
                &&& dec_value(buf@.skip(pos as int), ty) == Ok::<(ValueV, int), WireError>(
                    (v@, p - pos),
                )
                &&& (2 <= ty ==> p > pos)
            },
            Err(e) => dec_value(buf@.skip(pos as int), ty) matches Err(w) && matches_wire_error(
                e,
                w,
            ),
        },
    decreases buf@.len() - pos, 4int,
{
    let ghost s = buf@.skip(pos as int);
    if ty == 0 {
        Ok((Value::Bool(false), pos))
    } else if ty == 1 {
        Ok((Value::Bool(true), pos))
    } else if ty == 2 {
        let mut p = pos;
        let b = match read_byte(buf, &mut p) {
            Ok(b) => b,
            Err(e) => {
                return Err(e);
            },
        };
        proof {
            assert(s[0] == b);
        }
        Ok((Value::U8(b), p))
    } else if ty == 3 {
        let mut p = pos;
        let b = match read_byte(buf, &mut p) {
            Ok(b) => b,
            Err(e) => {
                return Err(e);
            },
        };
        proof {
            assert(s[0] == b);
        }
        Ok((Value::I8(i8_from_byte(b)), p))
    } else if ty == 4 {
        let mut p = pos;
        let bytes = match read_bytes(buf, &mut p, 4) {
            Ok(b) => b,
            Err(e) => {
                return Err(e);
            },
        };
        proof {
            assert(bytes@ =~= s.subrange(0, 4));
        }
        Ok((Value::F32(F32Bits(u32_from_le_bytes(bytes))), p))
    } else if ty == 5 {
        let mut p = pos;
        let bytes = match read_bytes(buf, &mut p, 8) {
            Ok(b) => b,
            Err(e) => {
                return Err(e);
            },
        };
        proof {
            assert(bytes@ =~= s.subrange(0, 8));
        }
        Ok((Value::F64(F64Bits(u64_from_le_bytes(bytes))), p))
    } else if ty == 6 {
        let mut p = pos;
        let v = match read_u64(buf, &mut p) {
            Ok(v) => v,
            Err(e) => {
                return Err(e);
            },
        };
        Ok((Value::UInt(v), p))
    } else if ty == 7 {
        let mut p = pos;
        let v = match read_u64(buf, &mut p) {
            Ok(v) => v,
            Err(e) => {
                return Err(e);
            },
        };
        Ok((Value::Int(zig_zag::from(v)), p))
    } else if ty == 8 {
        let mut p = pos;
        match parse_str(buf, &mut p) {
            Ok(st) => Ok((Value::Str(st), p)),
            Err(e) => Err(e),
        }
    } else if ty == 9 {
        match parse_entries_body(buf, pos) {
            Ok((es, p)) => Ok((Value::Struct(es), p)),
            Err(e) => Err(e),
        }
    } else if ty == 10 {
        match parse_entry(buf, pos) {
            Ok((e, p)) => Ok((Value::Union(Box::new(e)), p)),
            Err(e) => Err(e),
        }
    } else if ty == 11 {
        match parse_list(buf, pos) {
            Ok((l, p)) => Ok((Value::List(l), p)),
            Err(e) => Err(e),
        }
    } else if ty == 12 {
        match parse_table(buf, pos) {
            Ok((t, p)) => Ok((Value::Table(t), p)),
            Err(e) => Err(e),
        }
    } else {
        let mut p = pos;
        let bytes = match parse_bytes(buf, &mut p) {
            Ok(b) => b,
            Err(e) => {
                return Err(e);
            },
        };
        let blob = slice_to_vec(bytes);
        if ty == 13 {
            Ok((Value::UnknownI(blob), p))
        } else if ty == 14 {
            Ok((Value::UnknownII(blob), p))
        } else {
            Ok((Value::UnknownIII(blob), p))
        }
    }
}

/// Parses one header-prefixed field, as [`dec_entry`] describes.
pub(crate) fn parse_entry(buf: &[u8], pos: usize) -> (r: Result<(Entry, usize), Error>)
    requires
        pos <= buf@.len(),
    ensures
        match r {
            Ok((e, p)) => {
                &&& pos < p <= buf@.len()
                &&& dec_entry(buf@.skip(pos as int)) == Ok::<((u16, ValueV), int), WireError>(
                    ((e.key, view_value(e.value)), p - pos),
                )
            },
            Err(e) => dec_entry(buf@.skip(pos as int)) matches Err(w) && matches_wire_error(e, w),
        },
    decreases buf@.len() - pos, 2int,
{
    let ghost s = buf@.skip(pos as int);
    let mut p = pos;
    let (id, dt) = match parse_header(buf, &mut p) {
        Ok(h) => h,
        Err(e) => {
            return Err(e);
        },
    };
    if id > u16::MAX as u64 {
        return Err(Error::Parse(ParseError::new("field key does not fit 16 bits".to_owned())));
    }
    let ghost h = p - pos;
    proof {
        assert(s.skip(h as int) =~= buf@.skip(p as int));
    }
    let ty = dt.code();
    match parse_value(buf, p, ty) {
        Ok((v, p2)) => Ok((Entry { key: id as u16, value: v }, p2)),
        Err(e) => Err(e),
    }
}

/// Parses a struct body: a varint entry count, then that many fields, as
/// [`dec_entries`] describes.
pub(crate) fn parse_entries_body(buf: &[u8], pos: usize) -> (r: Result<(Entries, usize), Error>)
    requires
        pos <= buf@.len(),
    ensures
        match r {
            Ok((es, p)) => {
                &&& pos < p <= buf@.len()
                &&& dec_entries(buf@.skip(pos as int)) == Ok::<
                    (Seq<(u16, ValueV)>, int),
                    WireError,
                >((es@, p - pos))
            },
            Err(e) => dec_entries(buf@.skip(pos as int)) matches Err(w) && matches_wire_error(
                e,
                w,
            ),
        },
    decreases buf@.len() - pos, 3int,
{
    let ghost s = buf@.skip(pos as int);
    let mut p = pos;
    let count = match parse_length(buf, &mut p) {
        Ok(c) => c,
        Err(e) => {
            return Err(e);
        },
    };
    let ghost h = p - pos;
    let ghost body = buf@.skip(p as int);
    proof {
        assert(s.skip(h as int) =~= body);
    }
    let start = p;
    let mut out: Vec<Entry> = Vec::new();
    let mut j: usize = 0;
    proof {
        lemma_view_entry_seq_len(out@);
        assert(view_entry_seq(out@) =~= Seq::<(u16, ValueV)>::empty());
    }
    #[verifier::loop_isolation(false)]
    while j < count
        invariant
            j <= count,
            start <= p <= buf@.len(),
            out@.len() == j,
            (match dec_entry_items(buf@.skip(p as int), count - j) {
                Ok((tail, m)) => dec_entry_items(body, count as int) == Ok::<
                    (Seq<(u16, ValueV)>, int),
                    WireError,
                >((view_entry_seq(out@) + tail, (p - start) + m)),
                Err(w) => dec_entry_items(body, count as int) == Err::<
                    (Seq<(u16, ValueV)>, int),
                    WireError,
                >(w),
            }),
        decreases count - j,
    {
        let ghost sj = buf@.skip(p as int);
        let ghost acc = view_entry_seq(out@);
        let (e, p2) = match parse_entry(buf, p) {
            Ok(x) => x,
            Err(err) => {
                return Err(err);
            },
        };
        proof {
            assert(sj.skip((p2 - p) as int) =~= buf@.skip(p2 as int));
        }
        let ghost ev = (e.key, view_value(e.value));
        proof {
            lemma_view_entry_seq_push(out@, e);
        }
        out.push(e);
        j = j + 1;
        p = p2;
        proof {
            assert(view_entry_seq(out@) =~= acc.push(ev));
            match dec_entry_items(buf@.skip(p as int), count - j) {
                Ok((tail, m)) => {
                    assert(acc.push(ev) + tail =~= acc + (seq![ev] + tail));
                },
                Err(_) => {},
            }
        }
    }
    proof {
        assert(dec_entry_items(buf@.skip(p as int), 0) == Ok::<(Seq<(u16, ValueV)>, int), WireError>(
            (Seq::empty(), 0),
        ));
        assert(view_entry_seq(out@) + Seq::<(u16, ValueV)>::empty() =~= view_entry_seq(out@));
    }
    Ok((Entries(out), p))
}

/// Parses a list value: its header, then its body, as [`dec_list`] describes.
pub(crate) fn parse_list(buf: &[u8], pos: usize) -> (r: Result<(List, usize), Error>)
    requires
        pos <= buf@.len(),
    ensures
        match r {
            Ok((l, p)) => {
                &&& pos < p <= buf@.len()
                &&& dec_list(buf@.skip(pos as int)) == Ok::<(ListV, int), WireError>(
                    (l@, p - pos),
                )
            },
            Err(e) => dec_list(buf@.skip(pos as int)) matches Err(w) && matches_wire_error(e, w),
        },
    decreases buf@.len() - pos, 3int,
{
    let ghost s = buf@.skip(pos as int);
    let mut p = pos;
    let (len64, dt) = match parse_header(buf, &mut p) {
        Ok(h) => h,
        Err(e) => {
            return Err(e);
        },
    };
    if len64 > usize::MAX as u64 {
        return Err(Error::Parse(ParseError::new("length does not fit this machine".to_owned())));
    }
    let ghost h = p - pos;
    proof {
        assert(s.skip(h as int) =~= buf@.skip(p as int));
    }
    match parse_list_values(buf, p, len64 as usize, dt.code()) {
        Ok((l, p2)) => Ok((l, p2)),
        Err(e) => Err(e),
    }
}

/// Parses a list body of known length and element tag, as
/// [`dec_list_values`] describes: a packed-bit block for booleans, `len`
/// bare element payloads otherwise. The element tag reserved for `false` is
/// refused.
pub(crate) fn parse_list_values(buf: &[u8], pos: usize, len: usize, ty: u8) -> (r: Result<
    (List, usize),
    Error,
>)
    requires
        pos <= buf@.len(),
        ty < 16,
    ensures
        match r {
            Ok((l, p)) => {
                &&& pos <= p <= buf@.len()
                &&& dec_list_values(buf@.skip(pos as int), len as int, ty) == Ok::<
                    (ListV, int),
                    WireError,
                >((l@, p - pos))
            },
            Err(e) => dec_list_values(buf@.skip(pos as int), len as int, ty) matches Err(w)
                && matches_wire_error(e, w),
        },
    decreases buf@.len() - pos, 6int,
{
    let ghost s = buf@.skip(pos as int);
    if ty == 0 {
        return Err(
            Error::Parse(ParseError::new("a list cannot carry the false tag".to_owned())),
        );
    }
    if ty == 1 {
        let mut p = pos;
        match parse_packed_booleans(buf, &mut p, len) {
            Ok(bs) => {
                proof {
                    assert(bs.slots@ =~= s.subrange(
                        0,
                        crate::utils::spec_bool_packed_len(len as int),
                    ));
                }
                return Ok((List::Bool(bs), p));
            },
            Err(e) => {
                return Err(e);
            },
        }
    }
    if ty == 2 {
        let (out, p) = parse_scalar_items_u8(buf, pos, len)?;
        return Ok((List::U8(out), p));
    }
    if ty == 3 {
        let (out, p) = parse_scalar_items_i8(buf, pos, len)?;
        return Ok((List::I8(out), p));
    }
    if ty == 4 {
        let (out, p) = parse_scalar_items_f32(buf, pos, len)?;
        return Ok((List::F32(out), p));
    }
    if ty == 5 {
        let (out, p) = parse_scalar_items_f64(buf, pos, len)?;
        return Ok((List::F64(out), p));
    }
    if ty == 6 {
        let (out, p) = parse_scalar_items_uint(buf, pos, len)?;
        return Ok((List::UInt(out), p));
    }
    if ty == 7 {
        let (out, p) = parse_scalar_items_int(buf, pos, len)?;
        return Ok((List::Int(out), p));
    }
    if ty == 8 {
        let (out, p) = parse_scalar_items_str(buf, pos, len)?;
        return Ok((List::Str(out), p));
    }
    if ty == 9 {
        let (out, p) = parse_items_struct(buf, pos, len)?;
        return Ok((List::Struct(out), p));
    }
    if ty == 10 {
        let (out, p) = parse_items_union(buf, pos, len)?;
        return Ok((List::Union(out), p));
    }
    if ty == 11 {
        let (out, p) = parse_items_list(buf, pos, len)?;
        return Ok((List::List(out), p));
    }
    if ty == 12 {
        let (out, p) = parse_items_table(buf, pos, len)?;
        return Ok((List::Table(out), p));
    }
    let (out, p) = parse_items_blobs(buf, pos, len, ty)?;
    if ty == 13 {
        Ok((List::UnknownI(out), p))
    } else if ty == 14 {
        Ok((List::UnknownII(out), p))
    } else {
        Ok((List::UnknownIII(out), p))
    }
}


/// Parses `len` bare payloads of tag 2, as [`dec_items`] describes.
fn parse_scalar_items_u8(buf: &[u8], pos: usize, len: usize) -> (r: Result<(Vec<u8>, usize), Error>)
    requires
        pos <= buf@.len(),
    ensures
        match r {
            Ok((out, p)) => {
                &&& pos <= p <= buf@.len()
                &&& out@.len() == len
                &&& dec_items(buf@.skip(pos as int), len as int, 2) == Ok::<
                    (Seq<ValueV>, int),
                    WireError,
                >((out@.map_values(|n: u8| ValueV::U8(n)), p - pos))
            },
            Err(e) => dec_items(buf@.skip(pos as int), len as int, 2) matches Err(w)
                && matches_wire_error(e, w),
        },
    decreases buf@.len() - pos, 5int,
{
    let mut out: Vec<u8> = Vec::new();
    let mut p = pos;
    let mut j: usize = 0;
    #[verifier::loop_isolation(false)]
    while j < len
        invariant
            j <= len,
            pos <= p <= buf@.len(),
            out@.len() == j,
            (match dec_items(buf@.skip(p as int), len - j, 2) {
                Ok((tail, m)) => dec_items(buf@.skip(pos as int), len as int, 2) == Ok::<
                    (Seq<ValueV>, int),
                    WireError,
                >((out@.map_values(|n: u8| ValueV::U8(n)) + tail, (p - pos) + m)),
                Err(w) => dec_items(buf@.skip(pos as int), len as int, 2) == Err::<
                    (Seq<ValueV>, int),
                    WireError,
                >(w),
            }),
        decreases len - j,
    {
        let ghost sj = buf@.skip(p as int);
        let ghost acc = out@.map_values(|n: u8| ValueV::U8(n));
        let mut p2 = p;
        let item = match read_byte(buf, &mut p2) {
            Ok(b) => b,
            Err(e) => {
                return Err(e);
            },
        };
        proof {
            assert(sj[0] == item);
        }
        let ghost item_view = ValueV::U8(item);
        proof {
            assert(dec_value(sj, 2) == Ok::<(ValueV, int), WireError>((item_view, p2 - p)));
            assert(sj.skip((p2 - p) as int) =~= buf@.skip(p2 as int));
        }
        let ghost pre = out@;
        out.push(item);
        j = j + 1;
        p = p2;
        proof {
            assert(out@.map_values(|n: u8| ValueV::U8(n)) =~= acc.push(item_view));
            match dec_items(buf@.skip(p as int), len - j, 2) {
                Ok((tail, m)) => {
                    assert(acc.push(item_view) + tail =~= acc + (seq![item_view] + tail));
                },
                Err(_) => {},
            }
        }
    }
    proof {
        assert(dec_items(buf@.skip(p as int), 0, 2) == Ok::<(Seq<ValueV>, int), WireError>(
            (Seq::empty(), 0),
        ));
        assert(out@.map_values(|n: u8| ValueV::U8(n)) + Seq::<ValueV>::empty() =~= out@.map_values(|n: u8| ValueV::U8(n)));
    }
    Ok((out, p))
}


/// Parses `len` bare payloads of tag 3, as [`dec_items`] describes.
fn parse_scalar_items_i8(buf: &[u8], pos: usize, len: usize) -> (r: Result<(Vec<i8>, usize), Error>)
    requires
        pos <= buf@.len(),
    ensures
        match r {
            Ok((out, p)) => {
                &&& pos <= p <= buf@.len()
                &&& out@.len() == len
                &&& dec_items(buf@.skip(pos as int), len as int, 3) == Ok::<
                    (Seq<ValueV>, int),
                    WireError,
                >((out@.map_values(|n: i8| ValueV::I8(n)), p - pos))
            },
            Err(e) => dec_items(buf@.skip(pos as int), len as int, 3) matches Err(w)
                && matches_wire_error(e, w),
        },
    decreases buf@.len() - pos, 5int,
{
    let mut out: Vec<i8> = Vec::new();
    let mut p = pos;
    let mut j: usize = 0;
    #[verifier::loop_isolation(false)]
    while j < len
        invariant
            j <= len,
            pos <= p <= buf@.len(),
            out@.len() == j,
            (match dec_items(buf@.skip(p as int), len - j, 3) {
                Ok((tail, m)) => dec_items(buf@.skip(pos as int), len as int, 3) == Ok::<
                    (Seq<ValueV>, int),
                    WireError,
                >((out@.map_values(|n: i8| ValueV::I8(n)) + tail, (p - pos) + m)),
                Err(w) => dec_items(buf@.skip(pos as int), len as int, 3) == Err::<
                    (Seq<ValueV>, int),
                    WireError,
                >(w),
            }),
        decreases len - j,
    {
        let ghost sj = buf@.skip(p as int);
        let ghost acc = out@.map_values(|n: i8| ValueV::I8(n));
        let mut p2 = p;
        let b = match read_byte(buf, &mut p2) {
            Ok(b) => b,
            Err(e) => {
                return Err(e);
            },
        };
        proof {
            assert(sj[0] == b);
        }
        let item = i8_from_byte(b);
        let ghost item_view = ValueV::I8(item);
        proof {
            assert(dec_value(sj, 3) == Ok::<(ValueV, int), WireError>((item_view, p2 - p)));
            assert(sj.skip((p2 - p) as int) =~= buf@.skip(p2 as int));
        }
        let ghost pre = out@;
        out.push(item);
        j = j + 1;
        p = p2;
        proof {
            assert(out@.map_values(|n: i8| ValueV::I8(n)) =~= acc.push(item_view));
            match dec_items(buf@.skip(p as int), len - j, 3) {
                Ok((tail, m)) => {
                    assert(acc.push(item_view) + tail =~= acc + (seq![item_view] + tail));
                },
                Err(_) => {},
            }
        }
    }
    proof {
        assert(dec_items(buf@.skip(p as int), 0, 3) == Ok::<(Seq<ValueV>, int), WireError>(
            (Seq::empty(), 0),
        ));
        assert(out@.map_values(|n: i8| ValueV::I8(n)) + Seq::<ValueV>::empty() =~= out@.map_values(|n: i8| ValueV::I8(n)));
    }
    Ok((out, p))
}


/// Parses `len` bare payloads of tag 4, as [`dec_items`] describes.
fn parse_scalar_items_f32(buf: &[u8], pos: usize, len: usize) -> (r: Result<(Vec<F32Bits>, usize), Error>)
    requires
        pos <= buf@.len(),
    ensures
        match r {
            Ok((out, p)) => {
                &&& pos <= p <= buf@.len()
                &&& out@.len() == len
                &&& dec_items(buf@.skip(pos as int), len as int, 4) == Ok::<
                    (Seq<ValueV>, int),
                    WireError,
                >((out@.map_values(|b: F32Bits| ValueV::F32(b.0)), p - pos))
            },
            Err(e) => dec_items(buf@.skip(pos as int), len as int, 4) matches Err(w)
                && matches_wire_error(e, w),
        },
    decreases buf@.len() - pos, 5int,
{
    let mut out: Vec<F32Bits> = Vec::new();
    let mut p = pos;
    let mut j: usize = 0;
    #[verifier::loop_isolation(false)]
    while j < len
        invariant
            j <= len,
            pos <= p <= buf@.len(),
            out@.len() == j,
            (match dec_items(buf@.skip(p as int), len - j, 4) {
                Ok((tail, m)) => dec_items(buf@.skip(pos as int), len as int, 4) == Ok::<
                    (Seq<ValueV>, int),
                    WireError,
                >((out@.map_values(|b: F32Bits| ValueV::F32(b.0)) + tail, (p - pos) + m)),
                Err(w) => dec_items(buf@.skip(pos as int), len as int, 4) == Err::<
                    (Seq<ValueV>, int),
                    WireError,
                >(w),
            }),
        decreases len - j,
    {
        let ghost sj = buf@.skip(p as int);
        let ghost acc = out@.map_values(|b: F32Bits| ValueV::F32(b.0));
        let mut p2 = p;
        let bytes = match read_bytes(buf, &mut p2, 4) {
            Ok(b) => b,
            Err(e) => {
                return Err(e);
            },
        };
        proof {
            assert(bytes@ =~= sj.subrange(0, 4));
        }
        let item = F32Bits(u32_from_le_bytes(bytes));
        let ghost item_view = ValueV::F32(item.0);
        proof {
            assert(dec_value(sj, 4) == Ok::<(ValueV, int), WireError>((item_view, p2 - p)));
            assert(sj.skip((p2 - p) as int) =~= buf@.skip(p2 as int));
        }
        let ghost pre = out@;
        out.push(item);
        j = j + 1;
        p = p2;
        proof {
            assert(out@.map_values(|b: F32Bits| ValueV::F32(b.0)) =~= acc.push(item_view));
            match dec_items(buf@.skip(p as int), len - j, 4) {
                Ok((tail, m)) => {
                    assert(acc.push(item_view) + tail =~= acc + (seq![item_view] + tail));
                },
                Err(_) => {},
            }
        }
    }
    proof {
        assert(dec_items(buf@.skip(p as int), 0, 4) == Ok::<(Seq<ValueV>, int), WireError>(
            (Seq::empty(), 0),
        ));
        assert(out@.map_values(|b: F32Bits| ValueV::F32(b.0)) + Seq::<ValueV>::empty() =~= out@.map_values(|b: F32Bits| ValueV::F32(b.0)));
    }
    Ok((out, p))
}


/// Parses `len` bare payloads of tag 5, as [`dec_items`] describes.
fn parse_scalar_items_f64(buf: &[u8], pos: usize, len: usize) -> (r: Result<(Vec<F64Bits>, usize), Error>)
    requires
        pos <= buf@.len(),
    ensures
        match r {
            Ok((out, p)) => {
                &&& pos <= p <= buf@.len()
                &&& out@.len() == len
                &&& dec_items(buf@.skip(pos as int), len as int, 5) == Ok::<
                    (Seq<ValueV>, int),
                    WireError,
                >((out@.map_values(|b: F64Bits| ValueV::F64(b.0)), p - pos))
            },
            Err(e) => dec_items(buf@.skip(pos as int), len as int, 5) matches Err(w)
                && matches_wire_error(e, w),
        },
    decreases buf@.len() - pos, 5int,
{
    let mut out: Vec<F64Bits> = Vec::new();
    let mut p = pos;
    let mut j: usize = 0;
    #[verifier::loop_isolation(false)]
    while j < len
        invariant
            j <= len,
            pos <= p <= buf@.len(),
            out@.len() == j,
            (match dec_items(buf@.skip(p as int), len - j, 5) {
                Ok((tail, m)) => dec_items(buf@.skip(pos as int), len as int, 5) == Ok::<
                    (Seq<ValueV>, int),
                    WireError,
                >((out@.map_values(|b: F64Bits| ValueV::F64(b.0)) + tail, (p - pos) + m)),
                Err(w) => dec_items(buf@.skip(pos as int), len as int, 5) == Err::<
                    (Seq<ValueV>, int),
                    WireError,
                >(w),
            }),
        decreases len - j,
    {
        let ghost sj = buf@.skip(p as int);
        let ghost acc = out@.map_values(|b: F64Bits| ValueV::F64(b.0));
        let mut p2 = p;
        let bytes = match read_bytes(buf, &mut p2, 8) {
            Ok(b) => b,
            Err(e) => {
                return Err(e);
            },
        };
        proof {
            assert(bytes@ =~= sj.subrange(0, 8));
        }
        let item = F64Bits(u64_from_le_bytes(bytes));
        let ghost item_view = ValueV::F64(item.0);
        proof {
            assert(dec_value(sj, 5) == Ok::<(ValueV, int), WireError>((item_view, p2 - p)));
            assert(sj.skip((p2 - p) as int) =~= buf@.skip(p2 as int));
        }
        let ghost pre = out@;
        out.push(item);
        j = j + 1;
        p = p2;
        proof {
            assert(out@.map_values(|b: F64Bits| ValueV::F64(b.0)) =~= acc.push(item_view));
            match dec_items(buf@.skip(p as int), len - j, 5) {
                Ok((tail, m)) => {
                    assert(acc.push(item_view) + tail =~= acc + (seq![item_view] + tail));
                },
                Err(_) => {},
            }
        }
    }
    proof {
        assert(dec_items(buf@.skip(p as int), 0, 5) == Ok::<(Seq<ValueV>, int), WireError>(
            (Seq::empty(), 0),
        ));
        assert(out@.map_values(|b: F64Bits| ValueV::F64(b.0)) + Seq::<ValueV>::empty() =~= out@.map_values(|b: F64Bits| ValueV::F64(b.0)));
    }
    Ok((out, p))
}


/// Parses `len` bare payloads of tag 6, as [`dec_items`] describes.
fn parse_scalar_items_uint(buf: &[u8], pos: usize, len: usize) -> (r: Result<(Vec<u64>, usize), Error>)
    requires
        pos <= buf@.len(),
    ensures
        match r {
            Ok((out, p)) => {
                &&& pos <= p <= buf@.len()
                &&& out@.len() == len
                &&& dec_items(buf@.skip(pos as int), len as int, 6) == Ok::<
                    (Seq<ValueV>, int),
                    WireError,
                >((out@.map_values(|n: u64| ValueV::UInt(n)), p - pos))
            },
            Err(e) => dec_items(buf@.skip(pos as int), len as int, 6) matches Err(w)
                && matches_wire_error(e, w),
        },
    decreases buf@.len() - pos, 5int,
{
    let mut out: Vec<u64> = Vec::new();
    let mut p = pos;
    let mut j: usize = 0;
    #[verifier::loop_isolation(false)]
    while j < len
        invariant
            j <= len,
            pos <= p <= buf@.len(),
            out@.len() == j,
            (match dec_items(buf@.skip(p as int), len - j, 6) {
                Ok((tail, m)) => dec_items(buf@.skip(pos as int), len as int, 6) == Ok::<
                    (Seq<ValueV>, int),
                    WireError,
                >((out@.map_values(|n: u64| ValueV::UInt(n)) + tail, (p - pos) + m)),
                Err(w) => dec_items(buf@.skip(pos as int), len as int, 6) == Err::<
                    (Seq<ValueV>, int),
                    WireError,
                >(w),
            }),
        decreases len - j,
    {
        let ghost sj = buf@.skip(p as int);
        let ghost acc = out@.map_values(|n: u64| ValueV::UInt(n));
        let mut p2 = p;
        let item = match read_u64(buf, &mut p2) {
            Ok(v) => v,
            Err(e) => {
                return Err(e);
            },
        };
        let ghost item_view = ValueV::UInt(item);
        proof {
            assert(dec_value(sj, 6) == Ok::<(ValueV, int), WireError>((item_view, p2 - p)));
            assert(sj.skip((p2 - p) as int) =~= buf@.skip(p2 as int));
        }
        let ghost pre = out@;
        out.push(item);
        j = j + 1;
        p = p2;
        proof {
            assert(out@.map_values(|n: u64| ValueV::UInt(n)) =~= acc.push(item_view));
            match dec_items(buf@.skip(p as int), len - j, 6) {
                Ok((tail, m)) => {
                    assert(acc.push(item_view) + tail =~= acc + (seq![item_view] + tail));
                },
                Err(_) => {},
            }
        }
    }
    proof {
        assert(dec_items(buf@.skip(p as int), 0, 6) == Ok::<(Seq<ValueV>, int), WireError>(
            (Seq::empty(), 0),
        ));
        assert(out@.map_values(|n: u64| ValueV::UInt(n)) + Seq::<ValueV>::empty() =~= out@.map_values(|n: u64| ValueV::UInt(n)));
    }
    Ok((out, p))
}


/// Parses `len` bare payloads of tag 7, as [`dec_items`] describes.
fn parse_scalar_items_int(buf: &[u8], pos: usize, len: usize) -> (r: Result<(Vec<i64>, usize), Error>)
    requires
        pos <= buf@.len(),
    ensures
        match r {
            Ok((out, p)) => {
                &&& pos <= p <= buf@.len()
                &&& out@.len() == len
                &&& dec_items(buf@.skip(pos as int), len as int, 7) == Ok::<
                    (Seq<ValueV>, int),
                    WireError,
                >((out@.map_values(|n: i64| ValueV::Int(n)), p - pos))
            },
            Err(e) => dec_items(buf@.skip(pos as int), len as int, 7) matches Err(w)
                && matches_wire_error(e, w),
        },
    decreases buf@.len() - pos, 5int,
{
    let mut out: Vec<i64> = Vec::new();
    let mut p = pos;
    let mut j: usize = 0;
    #[verifier::loop_isolation(false)]
    while j < len
        invariant
            j <= len,
            pos <= p <= buf@.len(),
            out@.len() == j,
            (match dec_items(buf@.skip(p as int), len - j, 7) {
                Ok((tail, m)) => dec_items(buf@.skip(pos as int), len as int, 7) == Ok::<
                    (Seq<ValueV>, int),
                    WireError,
                >((out@.map_values(|n: i64| ValueV::Int(n)) + tail, (p - pos) + m)),
                Err(w) => dec_items(buf@.skip(pos as int), len as int, 7) == Err::<
                    (Seq<ValueV>, int),
                    WireError,
                >(w),
            }),
        decreases len - j,
    {
        let ghost sj = buf@.skip(p as int);
        let ghost acc = out@.map_values(|n: i64| ValueV::Int(n));
        let mut p2 = p;
        let v = match read_u64(buf, &mut p2) {
            Ok(v) => v,
            Err(e) => {
                return Err(e);
            },
        };
        let item = zig_zag::from(v);
        let ghost item_view = ValueV::Int(item);
        proof {
            assert(dec_value(sj, 7) == Ok::<(ValueV, int), WireError>((item_view, p2 - p)));
            assert(sj.skip((p2 - p) as int) =~= buf@.skip(p2 as int));
        }
        let ghost pre = out@;
        out.push(item);
        j = j + 1;
        p = p2;
        proof {
            assert(out@.map_values(|n: i64| ValueV::Int(n)) =~= acc.push(item_view));
            match dec_items(buf@.skip(p as int), len - j, 7) {
                Ok((tail, m)) => {
                    assert(acc.push(item_view) + tail =~= acc + (seq![item_view] + tail));
                },
                Err(_) => {},
            }
        }
    }
    proof {
        assert(dec_items(buf@.skip(p as int), 0, 7) == Ok::<(Seq<ValueV>, int), WireError>(
            (Seq::empty(), 0),
        ));
        assert(out@.map_values(|n: i64| ValueV::Int(n)) + Seq::<ValueV>::empty() =~= out@.map_values(|n: i64| ValueV::Int(n)));
    }
    Ok((out, p))
}


/// Parses `len` bare payloads of tag 8, as [`dec_items`] describes.
fn parse_scalar_items_str(buf: &[u8], pos: usize, len: usize) -> (r: Result<(Vec<String>, usize), Error>)
    requires
        pos <= buf@.len(),
    ensures
        match r {
            Ok((out, p)) => {
                &&& pos <= p <= buf@.len()
                &&& out@.len() == len
                &&& dec_items(buf@.skip(pos as int), len as int, 8) == Ok::<
                    (Seq<ValueV>, int),
                    WireError,
                >((out@.map_values(|s: String| ValueV::Str(s@)), p - pos))
            },
            Err(e) => dec_items(buf@.skip(pos as int), len as int, 8) matches Err(w)
                && matches_wire_error(e, w),
        },
    decreases buf@.len() - pos, 5int,
{
    let mut out: Vec<String> = Vec::new();
    let mut p = pos;
    let mut j: usize = 0;
    #[verifier::loop_isolation(false)]
    while j < len
        invariant
            j <= len,
            pos <= p <= buf@.len(),
            out@.len() == j,
            (match dec_items(buf@.skip(p as int), len - j, 8) {
                Ok((tail, m)) => dec_items(buf@.skip(pos as int), len as int, 8) == Ok::<
                    (Seq<ValueV>, int),
                    WireError,
                >((out@.map_values(|s: String| ValueV::Str(s@)) + tail, (p - pos) + m)),
                Err(w) => dec_items(buf@.skip(pos as int), len as int, 8) == Err::<
                    (Seq<ValueV>, int),
                    WireError,
                >(w),
            }),
        decreases len - j,
    {
        let ghost sj = buf@.skip(p as int);
        let ghost acc = out@.map_values(|s: String| ValueV::Str(s@));
        let mut p2 = p;
        let item = match parse_str(buf, &mut p2) {
            Ok(st) => st,
            Err(e) => {
                return Err(e);
            },
        };
        let ghost item_view = ValueV::Str(item@);
        proof {
            assert(dec_value(sj, 8) == Ok::<(ValueV, int), WireError>((item_view, p2 - p)));
            assert(sj.skip((p2 - p) as int) =~= buf@.skip(p2 as int));
        }
        let ghost pre = out@;
        out.push(item);
        j = j + 1;
        p = p2;
        proof {
            assert(out@.map_values(|s: String| ValueV::Str(s@)) =~= acc.push(item_view));
            match dec_items(buf@.skip(p as int), len - j, 8) {
                Ok((tail, m)) => {
                    assert(acc.push(item_view) + tail =~= acc + (seq![item_view] + tail));
                },
                Err(_) => {},
            }
        }
    }
    proof {
        assert(dec_items(buf@.skip(p as int), 0, 8) == Ok::<(Seq<ValueV>, int), WireError>(
            (Seq::empty(), 0),
        ));
        assert(out@.map_values(|s: String| ValueV::Str(s@)) + Seq::<ValueV>::empty() =~= out@.map_values(|s: String| ValueV::Str(s@)));
    }
    Ok((out, p))
}


/// Parses `len` bare payloads of tag 9, as [`dec_items`] describes.
fn parse_items_struct(buf: &[u8], pos: usize, len: usize) -> (r: Result<(Vec<Entries>, usize), Error>)
    requires
        pos <= buf@.len(),
    ensures
        match r {
            Ok((out, p)) => {
                &&& pos <= p <= buf@.len()
                &&& out@.len() == len
                &&& dec_items(buf@.skip(pos as int), len as int, 9) == Ok::<
                    (Seq<ValueV>, int),
                    WireError,
                >((view_struct_items(out@), p - pos))
            },
            Err(e) => dec_items(buf@.skip(pos as int), len as int, 9) matches Err(w)
                && matches_wire_error(e, w),
        },
    decreases buf@.len() - pos, 5int,
{
    let mut out: Vec<Entries> = Vec::new();
    let mut p = pos;
    let mut j: usize = 0;
    #[verifier::loop_isolation(false)]
    while j < len
        invariant
            j <= len,
            pos <= p <= buf@.len(),
            out@.len() == j,
            (match dec_items(buf@.skip(p as int), len - j, 9) {
                Ok((tail, m)) => dec_items(buf@.skip(pos as int), len as int, 9) == Ok::<
                    (Seq<ValueV>, int),
                    WireError,
                >((view_struct_items(out@) + tail, (p - pos) + m)),
                Err(w) => dec_items(buf@.skip(pos as int), len as int, 9) == Err::<
                    (Seq<ValueV>, int),
                    WireError,
                >(w),
            }),
        decreases len - j,
    {
        let ghost sj = buf@.skip(p as int);
        let ghost acc = view_struct_items(out@);
        let (item, p2) = match parse_entries_body(buf, p) {
            Ok(x) => x,
            Err(e) => {
                return Err(e);
            },
        };
        let ghost item_view = ValueV::Struct(item@);
        proof {
            assert(dec_value(sj, 9) == Ok::<(ValueV, int), WireError>((item_view, p2 - p)));
            assert(sj.skip((p2 - p) as int) =~= buf@.skip(p2 as int));
        }
        let ghost pre = out@;
        out.push(item);
        j = j + 1;
        p = p2;
        proof {
            crate::wire::lemma_view_struct_items_push(pre, item);
            assert(view_struct_items(out@) =~= acc.push(item_view));
            match dec_items(buf@.skip(p as int), len - j, 9) {
                Ok((tail, m)) => {
                    assert(acc.push(item_view) + tail =~= acc + (seq![item_view] + tail));
                },
                Err(_) => {},
            }
        }
    }
    proof {
        assert(dec_items(buf@.skip(p as int), 0, 9) == Ok::<(Seq<ValueV>, int), WireError>(
            (Seq::empty(), 0),
        ));
        assert(view_struct_items(out@) + Seq::<ValueV>::empty() =~= view_struct_items(out@));
    }
    Ok((out, p))
}


/// Parses `len` bare payloads of tag 10, as [`dec_items`] describes.
fn parse_items_union(buf: &[u8], pos: usize, len: usize) -> (r: Result<(Vec<Entry>, usize), Error>)
    requires
        pos <= buf@.len(),
    ensures
        match r {
            Ok((out, p)) => {
                &&& pos <= p <= buf@.len()
                &&& out@.len() == len
                &&& dec_items(buf@.skip(pos as int), len as int, 10) == Ok::<
                    (Seq<ValueV>, int),
                    WireError,
                >((view_union_items(out@), p - pos))
            },
            Err(e) => dec_items(buf@.skip(pos as int), len as int, 10) matches Err(w)
                && matches_wire_error(e, w),
        },
    decreases buf@.len() - pos, 5int,
{
    let mut out: Vec<Entry> = Vec::new();
    let mut p = pos;
    let mut j: usize = 0;
    #[verifier::loop_isolation(false)]
    while j < len
        invariant
            j <= len,
            pos <= p <= buf@.len(),
            out@.len() == j,
            (match dec_items(buf@.skip(p as int), len - j, 10) {
                Ok((tail, m)) => dec_items(buf@.skip(pos as int), len as int, 10) == Ok::<
                    (Seq<ValueV>, int),
                    WireError,
                >((view_union_items(out@) + tail, (p - pos) + m)),
                Err(w) => dec_items(buf@.skip(pos as int), len as int, 10) == Err::<
                    (Seq<ValueV>, int),
                    WireError,
                >(w),
            }),
        decreases len - j,
    {
        let ghost sj = buf@.skip(p as int);
        let ghost acc = view_union_items(out@);
        let (item, p2) = match parse_entry(buf, p) {
            Ok(x) => x,
            Err(e) => {
                return Err(e);
            },
        };
        let ghost item_view = ValueV::Union(item.key, Box::new(view_value(item.value)));
        proof {
            assert(dec_value(sj, 10) == Ok::<(ValueV, int), WireError>((item_view, p2 - p)));
            assert(sj.skip((p2 - p) as int) =~= buf@.skip(p2 as int));
        }
        let ghost pre = out@;
        out.push(item);
        j = j + 1;
        p = p2;
        proof {
            crate::wire::lemma_view_union_items_push(pre, item);
            assert(view_union_items(out@) =~= acc.push(item_view));
            match dec_items(buf@.skip(p as int), len - j, 10) {
                Ok((tail, m)) => {
                    assert(acc.push(item_view) + tail =~= acc + (seq![item_view] + tail));
                },
                Err(_) => {},
            }
        }
    }
    proof {
        assert(dec_items(buf@.skip(p as int), 0, 10) == Ok::<(Seq<ValueV>, int), WireError>(
            (Seq::empty(), 0),
        ));
        assert(view_union_items(out@) + Seq::<ValueV>::empty() =~= view_union_items(out@));
    }
    Ok((out, p))
}


/// Parses `len` bare payloads of tag 11, as [`dec_items`] describes.
fn parse_items_list(buf: &[u8], pos: usize, len: usize) -> (r: Result<(Vec<List>, usize), Error>)
    requires
        pos <= buf@.len(),
    ensures
        match r {
            Ok((out, p)) => {
                &&& pos <= p <= buf@.len()
                &&& out@.len() == len
                &&& dec_items(buf@.skip(pos as int), len as int, 11) == Ok::<
                    (Seq<ValueV>, int),
                    WireError,
                >((view_list_items(out@), p - pos))
            },
            Err(e) => dec_items(buf@.skip(pos as int), len as int, 11) matches Err(w)
                && matches_wire_error(e, w),
        },
    decreases buf@.len() - pos, 5int,
{
    let mut out: Vec<List> = Vec::new();
    let mut p = pos;
    let mut j: usize = 0;
    #[verifier::loop_isolation(false)]
    while j < len
        invariant
            j <= len,
            pos <= p <= buf@.len(),
            out@.len() == j,
            (match dec_items(buf@.skip(p as int), len - j, 11) {
                Ok((tail, m)) => dec_items(buf@.skip(pos as int), len as int, 11) == Ok::<
                    (Seq<ValueV>, int),
                    WireError,
                >((view_list_items(out@) + tail, (p - pos) + m)),
                Err(w) => dec_items(buf@.skip(pos as int), len as int, 11) == Err::<
                    (Seq<ValueV>, int),
                    WireError,
                >(w),
            }),
        decreases len - j,
    {
        let ghost sj = buf@.skip(p as int);
        let ghost acc = view_list_items(out@);
        let (item, p2) = match parse_list(buf, p) {
            Ok(x) => x,
            Err(e) => {
                return Err(e);
            },
        };
        let ghost item_view = ValueV::List(item@);
        proof {
            assert(dec_value(sj, 11) == Ok::<(ValueV, int), WireError>((item_view, p2 - p)));
            assert(sj.skip((p2 - p) as int) =~= buf@.skip(p2 as int));
        }
        let ghost pre = out@;
        out.push(item);
        j = j + 1;
        p = p2;
        proof {
            crate::wire::lemma_view_list_items_push(pre, item);
            assert(view_list_items(out@) =~= acc.push(item_view));
            match dec_items(buf@.skip(p as int), len - j, 11) {
                Ok((tail, m)) => {
                    assert(acc.push(item_view) + tail =~= acc + (seq![item_view] + tail));
                },
                Err(_) => {},
            }
        }
    }
    proof {
        assert(dec_items(buf@.skip(p as int), 0, 11) == Ok::<(Seq<ValueV>, int), WireError>(
            (Seq::empty(), 0),
        ));
        assert(view_list_items(out@) + Seq::<ValueV>::empty() =~= view_list_items(out@));
    }
    Ok((out, p))
}


/// Parses `len` bare payloads of tag 12, as [`dec_items`] describes.
fn parse_items_table(buf: &[u8], pos: usize, len: usize) -> (r: Result<(Vec<Table>, usize), Error>)
    requires
        pos <= buf@.len(),
    ensures
        match r {
            Ok((out, p)) => {
                &&& pos <= p <= buf@.len()
                &&& out@.len() == len
                &&& dec_items(buf@.skip(pos as int), len as int, 12) == Ok::<
                    (Seq<ValueV>, int),
                    WireError,
                >((view_table_items(out@), p - pos))
            },
            Err(e) => dec_items(buf@.skip(pos as int), len as int, 12) matches Err(w)
                && matches_wire_error(e, w),
        },
    decreases buf@.len() - pos, 5int,
{
    let mut out: Vec<Table> = Vec::new();
    let mut p = pos;
    let mut j: usize = 0;
    #[verifier::loop_isolation(false)]
    while j < len
        invariant
            j <= len,
            pos <= p <= buf@.len(),
            out@.len() == j,
            (match dec_items(buf@.skip(p as int), len - j, 12) {
                Ok((tail, m)) => dec_items(buf@.skip(pos as int), len as int, 12) == Ok::<
                    (Seq<ValueV>, int),
                    WireError,
                >((view_table_items(out@) + tail, (p - pos) + m)),
                Err(w) => dec_items(buf@.skip(pos as int), len as int, 12) == Err::<
                    (Seq<ValueV>, int),
                    WireError,
                >(w),
            }),
        decreases len - j,
    {
        let ghost sj = buf@.skip(p as int);
        let ghost acc = view_table_items(out@);
        let (item, p2) = match parse_table(buf, p) {
            Ok(x) => x,
            Err(e) => {
                return Err(e);
            },
        };
        let ghost item_view = ValueV::Table(item@);
        proof {
            assert(dec_value(sj, 12) == Ok::<(ValueV, int), WireError>((item_view, p2 - p)));
            assert(sj.skip((p2 - p) as int) =~= buf@.skip(p2 as int));
        }
        let ghost pre = out@;
        out.push(item);
        j = j + 1;
        p = p2;
        proof {
            crate::wire::lemma_view_table_items_push(pre, item);
            assert(view_table_items(out@) =~= acc.push(item_view));
            match dec_items(buf@.skip(p as int), len - j, 12) {
                Ok((tail, m)) => {
                    assert(acc.push(item_view) + tail =~= acc + (seq![item_view] + tail));
                },
                Err(_) => {},
            }
        }
    }
    proof {
        assert(dec_items(buf@.skip(p as int), 0, 12) == Ok::<(Seq<ValueV>, int), WireError>(
            (Seq::empty(), 0),
        ));
        assert(view_table_items(out@) + Seq::<ValueV>::empty() =~= view_table_items(out@));
    }
    Ok((out, p))
}


/// Parses `len` length-prefixed blobs of a reserved tag, as [`dec_items`]
/// describes.
fn parse_items_blobs(buf: &[u8], pos: usize, len: usize, ty: u8) -> (r: Result<
    (Vec<Vec<u8>>, usize),
    Error,
>)
    requires
        pos <= buf@.len(),
        13 <= ty <= 15,
    ensures
        match r {
            Ok((out, p)) => {
                &&& pos <= p <= buf@.len()
                &&& out@.len() == len
                &&& dec_items(buf@.skip(pos as int), len as int, ty) == Ok::<
                    (Seq<ValueV>, int),
                    WireError,
                >((blob_items(ty, out@), p - pos))
            },
            Err(e) => dec_items(buf@.skip(pos as int), len as int, ty) matches Err(w)
                && matches_wire_error(e, w),
        },
    decreases buf@.len() - pos, 5int,
{
    let mut out: Vec<Vec<u8>> = Vec::new();
    let mut p = pos;
    let mut j: usize = 0;
    #[verifier::loop_isolation(false)]
    while j < len
        invariant
            j <= len,
            pos <= p <= buf@.len(),
            out@.len() == j,
            (match dec_items(buf@.skip(p as int), len - j, ty) {
                Ok((tail, m)) => dec_items(buf@.skip(pos as int), len as int, ty) == Ok::<
                    (Seq<ValueV>, int),
                    WireError,
                >((blob_items(ty, out@) + tail, (p - pos) + m)),
                Err(w) => dec_items(buf@.skip(pos as int), len as int, ty) == Err::<
                    (Seq<ValueV>, int),
                    WireError,
                >(w),
            }),
        decreases len - j,
    {
        let ghost sj = buf@.skip(p as int);
        let ghost acc = blob_items(ty, out@);
        let mut p2 = p;
        let bytes = match parse_bytes(buf, &mut p2) {
            Ok(b) => b,
            Err(e) => {
                return Err(e);
            },
        };
        let item = slice_to_vec(bytes);
        let ghost item_view = if ty == 13 {
            ValueV::UnknownI(item@)
        } else if ty == 14 {
            ValueV::UnknownII(item@)
        } else {
            ValueV::UnknownIII(item@)
        };
        proof {
            assert(dec_value(sj, ty) == Ok::<(ValueV, int), WireError>((item_view, p2 - p)));
            assert(sj.skip((p2 - p) as int) =~= buf@.skip(p2 as int));
        }
        let ghost pre = out@;
        out.push(item);
        j = j + 1;
        p = p2;
        proof {
            assert(blob_items(ty, out@) =~= acc.push(item_view));
            match dec_items(buf@.skip(p as int), len - j, ty) {
                Ok((tail, m)) => {
                    assert(acc.push(item_view) + tail =~= acc + (seq![item_view] + tail));
                },
                Err(_) => {},
            }
        }
    }
    proof {
        assert(dec_items(buf@.skip(p as int), 0, ty) == Ok::<(Seq<ValueV>, int), WireError>(
            (Seq::empty(), 0),
        ));
        assert(blob_items(ty, out@) + Seq::<ValueV>::empty() =~= blob_items(ty, out@));
    }
    Ok((out, p))
}

/// Parses a table value, as [`dec_table`] describes: varint column and row
/// counts, then per column a header and a list body of `rows` elements.
#[verifier::rlimit(60)]
pub(crate) fn parse_table(buf: &[u8], pos: usize) -> (r: Result<(Table, usize), Error>)
    requires
        pos <= buf@.len(),
    ensures
        match r {
            Ok((t, p)) => {
                &&& pos < p <= buf@.len()
                &&& dec_table(buf@.skip(pos as int)) == Ok::<
                    (Seq<(u16, ListV)>, int),
                    WireError,
                >((t@, p - pos))
            },
            Err(e) => dec_table(buf@.skip(pos as int)) matches Err(w) && matches_wire_error(e, w),
        },
    decreases buf@.len() - pos, 3int,
{
    let ghost s = buf@.skip(pos as int);
    let mut p = pos;
    let cols = match parse_length(buf, &mut p) {
        Ok(c) => c,
        Err(e) => {
            return Err(e);
        },
    };
    let ghost n1 = p - pos;
    proof {
        assert(s.skip(n1 as int) =~= buf@.skip(p as int));
    }
    let rows = match parse_length(buf, &mut p) {
        Ok(c) => c,
        Err(e) => {
            return Err(e);
        },
    };
    let ghost n2 = p - pos - n1;
    let ghost body = buf@.skip(p as int);
    proof {
        assert(s.skip(n1 + n2) =~= body);
    }
    let start = p;
    let mut out: Vec<(u16, List)> = Vec::new();
    let mut j: usize = 0;
    proof {
        lemma_view_column_seq_len(out@);
        assert(view_column_seq(out@) =~= Seq::<(u16, ListV)>::empty());
    }
    #[verifier::loop_isolation(false)]
    while j < cols
        invariant
            j <= cols,
            start <= p <= buf@.len(),
            out@.len() == j,
            (match dec_column_items(buf@.skip(p as int), cols - j, rows as int) {
                Ok((tail, m)) => dec_column_items(body, cols as int, rows as int) == Ok::<
                    (Seq<(u16, ListV)>, int),
                    WireError,
                >((view_column_seq(out@) + tail, (p - start) + m)),
                Err(w) => dec_column_items(body, cols as int, rows as int) == Err::<
                    (Seq<(u16, ListV)>, int),
                    WireError,
                >(w),
            }),
        decreases cols - j,
    {
        let ghost sj = buf@.skip(p as int);
        let ghost acc = view_column_seq(out@);
        let mut ph = p;
        let (id, dt) = match parse_header(buf, &mut ph) {
            Ok(h) => h,
            Err(e) => {
                return Err(e);
            },
        };
        if id > u16::MAX as u64 {
            return Err(
                Error::Parse(ParseError::new("column key does not fit 16 bits".to_owned())),
            );
        }
        let ghost h = ph - p;
        proof {
            assert(sj.skip(h as int) =~= buf@.skip(ph as int));
        }
        let (col, p2) = match parse_list_values(buf, ph, rows, dt.code()) {
            Ok(x) => x,
            Err(e) => {
                return Err(e);
            },
        };
        proof {
            assert(sj.skip((p2 - p) as int) =~= buf@.skip(p2 as int));
        }
        let ghost cv = (id as u16, col@);
        proof {
            crate::wire::lemma_view_column_seq_push(out@, (id as u16, col));
        }
        out.push((id as u16, col));
        j = j + 1;
        p = p2;
        proof {
            assert(view_column_seq(out@) =~= acc.push(cv));
            match dec_column_items(buf@.skip(p as int), cols - j, rows as int) {
                Ok((tail, m)) => {
                    assert(acc.push(cv) + tail =~= acc + (seq![cv] + tail));
                },
                Err(_) => {},
            }
        }
    }
    proof {
        assert(dec_column_items(buf@.skip(p as int), 0, rows as int) == Ok::<
            (Seq<(u16, ListV)>, int),
            WireError,
        >((Seq::empty(), 0)));
        assert(view_column_seq(out@) + Seq::<(u16, ListV)>::empty() =~= view_column_seq(out@));
    }
    Ok((Table(out), p))
}


/// Parses the payload of one field of a known tag into the dynamic value
/// model: the tag-dispatched counterpart of [`Entries::parse`], which
/// generated glue uses to skip fields it has no mapping for.
pub fn parse_field_value(ty: crate::decode::DataType, buf: &[u8], pos: &mut usize) -> (r: Result<
    Value,
    Error,
>)
    requires
        *old(pos) <= buf@.len(),
    ensures
        *old(pos) <= *final(pos) <= buf@.len(),
        match r {
            Ok(v) => dec_value(
                buf@.skip(*old(pos) as int),
                crate::decode::spec_tag_code(ty),
            ) == Ok::<(ValueV, int), WireError>((v@, *final(pos) - *old(pos))),
            Err(e) => dec_value(buf@.skip(*old(pos) as int), crate::decode::spec_tag_code(ty))
                matches Err(w) && matches_wire_error(e, w),
        },
{
    match parse_value(buf, *pos, ty.code()) {
        Ok((v, p)) => {
            *pos = p;
            Ok(v)
        },
        Err(e) => Err(e),
    }
}

impl Entries {
    /// Parses a whole count-prefixed struct body from the cursor: the
    /// top-level entry point for decoding a message.
    pub fn parse(buf: &[u8], pos: &mut usize) -> (r: Result<Entries, Error>)
        requires
            *old(pos) <= buf@.len(),
        ensures
            *old(pos) <= *final(pos) <= buf@.len(),
            match r {
                Ok(es) => dec_entries(buf@.skip(*old(pos) as int)) == Ok::<
                    (Seq<(u16, ValueV)>, int),
                    WireError,
                >((es@, *final(pos) - *old(pos))),
                Err(e) => dec_entries(buf@.skip(*old(pos) as int)) matches Err(w)
                    && matches_wire_error(e, w),
            },
    {
        match parse_entries_body(buf, *pos) {
            Ok((es, p)) => {
                *pos = p;
                Ok(es)
            },
            Err(e) => Err(e),
        }
    }
}

} // verus!

//! The error model: one variant per failure kind, each carrying the data a
//! caller needs to report it.

use vstd::prelude::*;

use crate::decode::DataType;
use crate::wire::{ListV, ValueV};
use crate::{List, Value};

verus! {

/// The input ended before a read of `size` more bytes could be served.
#[derive(Debug, Clone, PartialEq, Eq)]
pub struct UnexpectedEof {
    pub size: usize,
}

/// A variable-length integer was malformed: its groups would overflow 64 bits.
#[derive(Debug, Clone, PartialEq, Eq)]
pub struct VarIntError;

/// A malformed stream that no more specific kind covers.
#[derive(Debug, Clone, PartialEq, Eq)]
pub struct ParseError {
    pub message: String,
}

impl ParseError {
    pub fn new(message: String) -> (r: Self)
        ensures
            r.message@ == message@,
    {
        ParseError { message }
    }
}

/// A type code outside the 16-tag space. A four-bit tag cannot reach this,
/// but the kind is kept should the tag space ever be read at another width.
#[derive(Debug, Clone, PartialEq, Eq)]
pub struct UnknownType {
    pub code: u8,
}

/// A byte that should have held `0` or `1` held something else.
#[derive(Debug, Clone, PartialEq, Eq)]
pub struct InvalidBoolean {
    pub byte: u8,
}

/// A wire tag that the requested target type does not accept.
#[derive(Debug, Clone, PartialEq, Eq)]
pub struct InvalidType {
    pub found: DataType,
    pub expected: DataType,
}

/// A required field's key was absent from a decoded struct body.
#[derive(Debug, Clone, PartialEq, Eq)]
pub struct RequiredField {
    pub name: &'static str,
}

/// Any failure of decoding or of encoding.
#[derive(Debug, Clone, PartialEq, Eq)]
pub enum Error {
    Eof(UnexpectedEof),
    VarInt(VarIntError),
    Parse(ParseError),
    UnknownType(UnknownType),
    InvalidBoolean(InvalidBoolean),
    InvalidType(InvalidType),
    Required(RequiredField),
    /// A container length too large for the 32-bit length field of the wire
    /// format, on the encode side.
    Oversize,
}

/// The failure kinds of the wire-format specification functions. They carry
/// no runtime payload; [`matches_wire_error`] ties each to the [`Error`]
/// values an executable decoder may return for it.
pub enum WireError {
    /// The input ended before the item was complete.
    Eof,
    /// A variable-length integer would overflow 64 bits.
    VarInt,
    /// A length does not fit the machine's address width.
    Len,
    /// A field key does not fit 16 bits.
    Key,
    /// A list carried the element tag reserved for `false`.
    Tag,
    /// A string payload was not valid UTF-8.
    Utf8,
    /// A boolean payload byte other than `0` or `1`.
    Boolean,
    /// A scalar outside the range of the requested target type.
    Range,
    /// A wire tag that the requested target type does not accept.
    Type,
}

/// Which runtime errors an executable decoder may report for each
/// specification-level failure kind.
pub open spec fn matches_wire_error(e: Error, w: WireError) -> bool {
    match w {
        WireError::Eof => e is Eof,
        WireError::VarInt => e is VarInt,
        WireError::Len => e is Parse,
        WireError::Key => e is Parse,
        WireError::Tag => e is Parse,
        WireError::Utf8 => e is Parse,
        WireError::Boolean => e is InvalidBoolean,
        WireError::Range => e is Parse,
        WireError::Type => e is InvalidType,
    }
}

/// The diagnostic name of a mirrored list's kind.
pub open spec fn spec_list_kind_name(l: ListV) -> Seq<char> {
    match l {
        ListV::Bools { .. } => "[boolean]"@,
        ListV::Items { ty, .. } => if ty == 2 {
            "[u8]"@
        } else if ty == 3 {
            "[i8]"@
        } else if ty == 4 {
            "[binary32]"@
        } else if ty == 5 {
            "[binary64]"@
        } else if ty == 6 {
            "[uint]"@
        } else if ty == 7 {
            "[int]"@
        } else if ty == 8 {
            "[string]"@
        } else if ty == 9 {
            "[struct]"@
        } else if ty == 10 {
            "[union]"@
        } else if ty == 11 {
            "[...]"@
        } else if ty == 12 {
            "[table]"@
        } else {
            "[unknown]"@
        },
    }
}

/// The diagnostic name of a mirrored value's kind.
pub open spec fn spec_value_kind_name(v: ValueV) -> Seq<char> {
    match v {
        ValueV::Bool(_) => "boolean"@,
        ValueV::U8(_) => "u8"@,
        ValueV::I8(_) => "i8"@,
        ValueV::F32(_) => "binary32"@,
        ValueV::F64(_) => "binary64"@,
        ValueV::UInt(_) => "uint"@,
        ValueV::Int(_) => "int"@,
        ValueV::Str(_) => "string"@,
        ValueV::Struct(_) => "struct"@,
        ValueV::Union(_, _) => "union"@,
        ValueV::List(l) => spec_list_kind_name(l),
        ValueV::Table(_) => "table"@,
        ValueV::UnknownI(_) => "unknown"@,
        ValueV::UnknownII(_) => "unknown"@,
        ValueV::UnknownIII(_) => "unknown"@,
    }
}

impl List {
    /// The diagnostic name of this list's kind, for error reports.
    pub fn kind_name(&self) -> (r: &'static str)
        ensures
            r@ == spec_list_kind_name(self@),
    {
        match self {
            List::Bool(_) => "[boolean]",
            List::U8(_) => "[u8]",
            List::I8(_) => "[i8]",
            List::F32(_) => "[binary32]",
            List::F64(_) => "[binary64]",
            List::UInt(_) => "[uint]",
            List::Int(_) => "[int]",
            List::Str(_) => "[string]",
            List::Struct(_) => "[struct]",
            List::Union(_) => "[union]",
            List::List(_) => "[...]",
            List::Table(_) => "[table]",
            List::UnknownI(_) => "[unknown]",
            List::UnknownII(_) => "[unknown]",
            List::UnknownIII(_) => "[unknown]",
        }
    }
}

impl Value {
    /// The diagnostic name of this value's kind, for error reports.
    pub fn kind_name(&self) -> (r: &'static str)
        ensures
            r@ == spec_value_kind_name(self@),
    {
        match self {
            Value::Bool(_) => "boolean",
            Value::U8(_) => "u8",
            Value::I8(_) => "i8",
            Value::F32(_) => "binary32",
            Value::F64(_) => "binary64",
            Value::UInt(_) => "uint",
            Value::Int(_) => "int",
            Value::Str(_) => "string",
            Value::Struct(_) => "struct",
            Value::Union(_) => "union",
            Value::List(l) => l.kind_name(),
            Value::Table(_) => "table",
            Value::UnknownI(_) => "unknown",
            Value::UnknownII(_) => "unknown",
            Value::UnknownIII(_) => "unknown",
        }
    }
}

/// A conversion failure, annotated with the struct field key it arose under
/// once it propagates through a keyed lookup.
#[derive(Debug, Clone, PartialEq, Eq)]
pub struct ConvertError {
    pub key: Option<u16>,
    pub error: Error,
}

impl ConvertError {
    pub fn new(message: String) -> (r: Self)
        ensures
            r.key is None,
            r.error matches Error::Parse(p) && p.message@ == message@,
    {
        ConvertError { key: None, error: Error::Parse(ParseError { message }) }
    }

    pub fn from(value: Error) -> (r: Self)
        ensures
            r.key is None,
            r.error == value,
    {
        ConvertError { key: None, error: value }
    }
}

} // verus!

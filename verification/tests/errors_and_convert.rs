use lipi::convert::ConvertFrom;
use lipi::decode::{DataType, Decode};
use lipi::entries::Entries;
use lipi::errors::Error;
use lipi::{F64Bits, List, Value};

fn parse_all(buf: &[u8]) -> Result<Entries, Error> {
    let mut pos = 0;
    Entries::parse(buf, &mut pos)
}

#[test]
fn eof_mid_struct() {
    // Two fields announced, one present.
    let buf = [0x02u8, 0x12, 0x07];
    match parse_all(&buf) {
        Err(Error::Eof(_)) => {}
        other => panic!("expected an end-of-input error, got {:?}", other),
    }
}

#[test]
fn invalid_boolean_byte() {
    let buf = [2u8];
    let mut pos = 0;
    match bool::decode(&buf, &mut pos) {
        Err(Error::InvalidBoolean(e)) => assert_eq!(e.byte, 2),
        other => panic!("expected an invalid-boolean error, got {:?}", other),
    }
}

#[test]
fn invalid_utf8_string_is_rejected() {
    // One field: id 1, string tag, length 1, an invalid UTF-8 byte.
    let buf = [0x01u8, 0x18, 0x01, 0xFF];
    match parse_all(&buf) {
        Err(Error::Parse(_)) => {}
        other => panic!("expected a parse error, got {:?}", other),
    }

    // A valid multi-byte string parses and is preserved.
    let text = "héllo";
    let mut good = vec![0x01u8, 0x18, text.len() as u8];
    good.extend_from_slice(text.as_bytes());
    let parsed = parse_all(&good).unwrap();
    assert_eq!(parsed.get(1), Some(&Value::Str(text.to_owned())));
}

#[test]
fn list_with_false_tag_is_rejected() {
    // One field: id 1, list tag, then a list header of len 1 with element
    // tag 0, which is reserved.
    let buf = [0x01u8, 0x1B, 0x10];
    match parse_all(&buf) {
        Err(Error::Parse(_)) => {}
        other => panic!("expected a parse error, got {:?}", other),
    }
}

#[test]
fn range_error_on_narrowing() {
    let mut buf = Vec::new();
    lipi::encoder::encode_uint(&mut buf, 70000);
    let mut pos = 0;
    match u16::decode_field(DataType::UInt, &buf, &mut pos) {
        Err(Error::Parse(_)) => {}
        other => panic!("expected a range error, got {:?}", other),
    }
    let mut pos = 0;
    assert_eq!(u32::decode_field(DataType::UInt, &buf, &mut pos).unwrap(), 70000);
}

#[test]
fn convert_scalars_and_lists() {
    let mut e = Entries::new();
    e.insert(1, Value::UInt(300));
    e.insert(2, Value::Str("hey".to_owned()));
    e.insert(3, Value::List(List::U8(vec![1, 2])));
    e.insert(4, Value::U8(200));
    e.insert(5, Value::Int(-7));

    assert_eq!(e.get_and_convert::<u64>(1).unwrap(), 300);
    assert_eq!(e.get_and_convert::<u16>(1).unwrap(), 300);
    assert_eq!(e.get_and_convert::<String>(2).unwrap(), "hey");
    assert_eq!(e.get_and_convert::<Vec<u8>>(3).unwrap(), vec![1, 2]);
    assert_eq!(e.get_and_convert::<i64>(5).unwrap(), -7);

    // Numeric widening applies during conversion too.
    assert_eq!(e.get_and_convert::<F64Bits>(4).unwrap().0, 200.0f64.to_bits());

    // A type mismatch is annotated with the key it arose under.
    let err = e.get_and_convert::<bool>(1).unwrap_err();
    assert_eq!(err.key, Some(1));

    // An absent required key is a required-field failure under its key.
    let err = e.get_and_convert::<u64>(9).unwrap_err();
    assert_eq!(err.key, Some(9));
    assert!(matches!(err.error, Error::Required(_)));

    // An absent optional key is simply no value.
    assert_eq!(e.get_and_convert_opt::<u64>(9).unwrap(), None);
    assert_eq!(e.get_and_convert_opt::<u64>(1).unwrap(), Some(300));
}

#[test]
fn lookup_returns_first_match() {
    let mut e = Entries::new();
    e.insert(1, Value::U8(10));
    e.insert(1, Value::U8(20));
    assert_eq!(e.get(1), Some(&Value::U8(10)));
    assert_eq!(e.len(), 2);
    assert!(!e.is_empty());
    assert_eq!(e.get_index(1).map(|x| &x.value), Some(&Value::U8(20)));
}

#[test]
fn table_accessors() {
    let mut t = lipi::Table::new();
    assert!(t.is_empty());
    t.insert(4, List::UInt(vec![8]));
    assert_eq!(t.len(), 1);
    assert_eq!(t.get_column(0).map(|c| c.0), Some(4));
    assert!(t.get_column(1).is_none());
}

#[test]
fn expected_tag_check() {
    assert!(DataType::Str.expected(DataType::Str).is_ok());
    match DataType::U8.expected(DataType::Str) {
        Err(Error::InvalidType(e)) => {
            assert_eq!(e.found, DataType::U8);
            assert_eq!(e.expected, DataType::Str);
        }
        other => panic!("expected a type error, got {:?}", other),
    }
}

#[test]
fn try_convert_vectors() {
    let ok: Result<Vec<u8>, _> = lipi::utils::try_convert_into_vec(&[1u64, 2, 255]);
    assert_eq!(ok.unwrap(), vec![1u8, 2, 255]);
    let bad: Result<Vec<u8>, _> = lipi::utils::try_convert_into_vec(&[1u64, 256]);
    assert!(bad.is_err());
}

#[test]
fn mapping_target_zips_two_columns() {
    let mut e = Entries::new();
    e.insert(0, Value::List(List::UInt(vec![1, 2, 3])));
    e.insert(1, Value::List(List::Int(vec![-1, -2, -3])));
    let pairs: Vec<(u64, i64)> = lipi::convert::map_pairs_from_entries(&e).unwrap();
    assert_eq!(pairs, vec![(1, -1), (2, -2), (3, -3)]);

    let mut uneven = Entries::new();
    uneven.insert(0, Value::List(List::UInt(vec![1])));
    uneven.insert(1, Value::List(List::Int(vec![])));
    assert!(lipi::convert::map_pairs_from_entries::<u64, i64>(&uneven).is_err());

    let empty = Entries::new();
    assert!(lipi::convert::map_pairs_from_entries::<u64, i64>(&empty).is_err());

    // A third column makes the shape invalid even when two columns match.
    let mut three = Entries::new();
    three.insert(0, Value::List(List::UInt(vec![1])));
    three.insert(1, Value::List(List::Int(vec![-1])));
    three.insert(2, Value::List(List::Int(vec![0])));
    assert!(lipi::convert::map_pairs_from_entries::<u64, i64>(&three).is_err());
}

#[test]
fn conversion_mismatch_names_found_and_expected() {
    let mut e = Entries::new();
    e.insert(1, Value::UInt(300));
    e.insert(2, Value::List(List::I8(vec![-1])));

    let err = e.get_and_convert::<bool>(1).unwrap_err();
    assert_eq!(err.key, Some(1));
    match err.error {
        Error::InvalidType(t) => {
            assert_eq!(t.found, DataType::UInt);
            assert_eq!(t.expected, DataType::True);
        }
        other => panic!("expected a type error, got {:?}", other),
    }

    // A list of the wrong element kind names the element tags.
    let err = e.get_and_convert::<Vec<u8>>(2).unwrap_err();
    match err.error {
        Error::InvalidType(t) => {
            assert_eq!(t.found, DataType::I8);
            assert_eq!(t.expected, DataType::U8);
        }
        other => panic!("expected a type error, got {:?}", other),
    }
}

#[test]
fn convert_aggregate_targets() {
    let mut e = Entries::new();
    e.insert(1, Value::List(List::Bool(lipi::bit_set::BitSet::from_bools(&[true, false]))));
    e.insert(2, Value::List(List::Str(vec!["a".to_owned(), "b".to_owned()])));
    e.insert(3, Value::List(List::UInt(vec![1, 70000])));
    e.insert(4, Value::List(List::Int(vec![-1, 2])));
    e.insert(5, Value::List(List::F32(vec![lipi::F32Bits(1.5f32.to_bits())])));
    e.insert(6, Value::List(List::F64(vec![lipi::F64Bits(2.5f64.to_bits())])));

    assert_eq!(e.get_and_convert::<Vec<bool>>(1).unwrap(), vec![true, false]);
    assert_eq!(
        e.get_and_convert::<Vec<String>>(2).unwrap(),
        vec!["a".to_owned(), "b".to_owned()]
    );
    assert_eq!(e.get_and_convert::<Vec<u32>>(3).unwrap(), vec![1, 70000]);
    // One element is too large for a 16-bit target: the whole conversion fails.
    assert!(e.get_and_convert::<Vec<u16>>(3).is_err());
    assert_eq!(e.get_and_convert::<Vec<i16>>(4).unwrap(), vec![-1, 2]);
    assert_eq!(e.get_and_convert::<Vec<i32>>(4).unwrap(), vec![-1, 2]);
    assert_eq!(e.get_and_convert::<Vec<lipi::F32Bits>>(5).unwrap()[0].0, 1.5f32.to_bits());
    assert_eq!(e.get_and_convert::<Vec<lipi::F64Bits>>(6).unwrap()[0].0, 2.5f64.to_bits());
}

#[test]
fn kind_names() {
    assert_eq!(Value::Bool(true).kind_name(), "boolean");
    assert_eq!(Value::UInt(1).kind_name(), "uint");
    assert_eq!(Value::List(List::U8(vec![])).kind_name(), "[u8]");
    assert_eq!(List::Str(vec![]).kind_name(), "[string]");
    assert_eq!(
        Value::List(List::Bool(lipi::bit_set::BitSet::new(0))).kind_name(),
        "[boolean]"
    );
}

#[test]
fn list_get_reads_one_element() {
    let bools = List::Bool(lipi::bit_set::BitSet::from_bools(&[true, false]));
    assert_eq!(bools.get(0), Some(Value::Bool(true)));
    assert_eq!(bools.get(1), Some(Value::Bool(false)));
    assert_eq!(bools.get(2), None);

    let bytes = List::U8(vec![7, 8]);
    assert_eq!(bytes.get(1), Some(Value::U8(8)));
    assert_eq!(bytes.get(2), None);

    let strs = List::Str(vec!["x".to_owned()]);
    assert_eq!(strs.get(0), Some(Value::Str("x".to_owned())));

    let mut inner = Entries::new();
    inner.insert(3, Value::Int(-9));
    let structs = List::Struct(vec![inner]);
    match structs.get(0) {
        Some(Value::Struct(e2)) => assert_eq!(e2.get(3), Some(&Value::Int(-9))),
        other => panic!("expected a struct element, got {:?}", other),
    }

    // A reserved-tag element keeps its own reserved tag.
    let blobs = List::UnknownIII(vec![vec![1, 2]]);
    assert_eq!(blobs.get(0), Some(Value::UnknownIII(vec![1, 2])));
}

#[test]
fn duplicate_preserves_values() {
    let mut t = lipi::Table::new();
    t.insert(1, List::UInt(vec![4, 5]));
    let mut e = Entries::new();
    e.insert(1, Value::Table(t));
    e.insert(2, Value::Str("deep".to_owned()));
    let copy = e.duplicate();
    assert_eq!(copy, e);
}

#[test]
fn errors_carry_their_payloads() {
    let e = lipi::errors::ParseError::new("boom".to_owned());
    assert_eq!(e.message, "boom");
    let c = lipi::errors::ConvertError::new("bad".to_owned());
    assert_eq!(c.key, None);
    let c2 = lipi::errors::ConvertError::from(Error::VarInt(lipi::errors::VarIntError));
    assert!(matches!(c2.error, Error::VarInt(_)));
    let u = lipi::errors::UnknownType { code: 77 };
    assert_eq!(u.code, 77);
}

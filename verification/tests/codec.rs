use lipi::bit_set::BitSet;
use lipi::decode::{DataType, Decode, FieldDecoder, Optional};
use lipi::decoder::parse_field_value;
use lipi::encoder::{encode_entries, encode_struct, Encode, FieldEncoder};
use lipi::entries::{Entries, Entry};
use lipi::errors::Error;
use lipi::{F32Bits, F64Bits, List, Table, Value};

fn encode_to_bytes(entries: &Entries) -> Vec<u8> {
    let mut buf = Vec::new();
    encode_entries(entries, &mut buf).unwrap();
    buf
}

fn parse_all(buf: &[u8]) -> Entries {
    let mut pos = 0;
    let entries = Entries::parse(buf, &mut pos).unwrap();
    assert_eq!(pos, buf.len());
    entries
}

#[test]
fn scalar_round_trip() {
    let mut e = Entries::new();
    e.insert(1, Value::Bool(true));
    e.insert(2, Value::Bool(false));
    e.insert(3, Value::U8(200));
    e.insert(4, Value::I8(-5));
    e.insert(5, Value::F32(F32Bits(1.5f32.to_bits())));
    e.insert(6, Value::F64(F64Bits(2.25f64.to_bits())));
    e.insert(7, Value::UInt(u64::MAX));
    e.insert(8, Value::Int(i64::MIN));
    e.insert(9, Value::Str("héllo".to_owned()));

    let buf = encode_to_bytes(&e);
    assert_eq!(parse_all(&buf), e);
}

#[test]
fn list_round_trip() {
    let mut e = Entries::new();
    e.insert(1, Value::List(List::Bool(BitSet::from_bools(&[true, false, true]))));
    e.insert(2, Value::List(List::U8(vec![1, 2, 3])));
    e.insert(3, Value::List(List::I8(vec![-1, 0, 1])));
    e.insert(4, Value::List(List::F32(vec![F32Bits(0.5f32.to_bits())])));
    e.insert(5, Value::List(List::F64(vec![F64Bits(0.5f64.to_bits())])));
    e.insert(6, Value::List(List::UInt(vec![0, 300, u64::MAX])));
    e.insert(7, Value::List(List::Int(vec![i64::MIN, 0, i64::MAX])));
    e.insert(8, Value::List(List::Str(vec!["a".to_owned(), "".to_owned()])));
    e.insert(9, Value::List(List::List(vec![List::U8(vec![9]), List::U8(vec![])])));
    e.insert(10, Value::List(List::UnknownI(vec![vec![0xde, 0xad]])));

    let buf = encode_to_bytes(&e);
    assert_eq!(parse_all(&buf), e);
}

#[test]
fn nested_struct_union_table_round_trip() {
    let mut inner = Entries::new();
    inner.insert(1, Value::Str("nested".to_owned()));
    inner.insert(1, Value::U8(7)); // duplicate keys survive the wire

    let mut table = Table::new();
    table.insert(10, List::UInt(vec![1, 2]));
    table.insert(11, List::Str(vec!["x".to_owned(), "y".to_owned()]));

    let mut structs = Entries::new();
    structs.insert(2, Value::UInt(42));

    let mut e = Entries::new();
    e.insert(1, Value::Struct(inner));
    e.insert(2, Value::Union(Box::new(Entry { key: 5, value: Value::Int(-3) })));
    e.insert(3, Value::Table(table));
    e.insert(4, Value::List(List::Struct(vec![structs])));
    e.insert(5, Value::UnknownII(vec![1, 2, 3]));

    let buf = encode_to_bytes(&e);
    assert_eq!(parse_all(&buf), e);
}

#[test]
fn empty_containers_round_trip() {
    let mut e = Entries::new();
    e.insert(1, Value::Struct(Entries::new()));
    e.insert(2, Value::Table(Table::new()));
    e.insert(3, Value::List(List::UInt(vec![])));
    e.insert(4, Value::Str(String::new()));
    e.insert(5, Value::List(List::Bool(BitSet::from_bools(&[]))));

    let buf = encode_to_bytes(&e);
    assert_eq!(parse_all(&buf), e);
}

#[test]
fn exact_bytes_end_to_end() {
    // The record {1 -> true, 2 -> "hi", 3 -> [1u8, 2, 3]}.
    let mut buf = Vec::new();
    lipi::encoder::encode_length(&mut buf, 3).unwrap();
    FieldEncoder::encode(&true, &mut buf, 1).unwrap();
    FieldEncoder::encode("hi", &mut buf, 2).unwrap();
    FieldEncoder::encode(&vec![1u8, 2, 3], &mut buf, 3).unwrap();

    assert_eq!(
        buf,
        vec![
            0x03, // three fields
            0x11, // id 1, tag true
            0x28, 0x02, b'h', b'i', // id 2, tag string, two bytes
            0x3B, 0x32, 0x01, 0x02, 0x03, // id 3, tag list; len 3, element tag u8; payload
        ]
    );

    let parsed = parse_all(&buf);
    assert_eq!(parsed.get(1), Some(&Value::Bool(true)));
    assert_eq!(parsed.get(2), Some(&Value::Str("hi".to_owned())));
    assert_eq!(parsed.get(3), Some(&Value::List(List::U8(vec![1, 2, 3]))));
}

#[test]
fn widening_u8_into_f64() {
    // A wire value of tag U8 with payload 200 decodes into a binary64 target
    // as 200.0; the same payload against a boolean target is a type error.
    let payload = [200u8];
    let mut pos = 0;
    let got = F64Bits::decode_field(DataType::U8, &payload, &mut pos).unwrap();
    assert_eq!(got.0, 200.0f64.to_bits());
    assert_eq!(pos, 1);

    let mut pos = 0;
    match bool::decode_field(DataType::U8, &payload, &mut pos) {
        Err(Error::InvalidType(e)) => {
            assert_eq!(e.found, DataType::U8);
            assert_eq!(e.expected, DataType::True);
        }
        other => panic!("expected a type error, got {:?}", other),
    }
}

#[test]
fn widening_table_matches_native_casts() {
    for n in [0u8, 1, 127, 200, 255] {
        let payload = [n];
        let mut pos = 0;
        assert_eq!(
            F64Bits::decode_field(DataType::U8, &payload, &mut pos).unwrap().0,
            (n as f64).to_bits()
        );
        let mut pos = 0;
        assert_eq!(
            F32Bits::decode_field(DataType::U8, &payload, &mut pos).unwrap().0,
            (n as f32).to_bits()
        );
        let mut pos = 0;
        assert_eq!(
            F64Bits::decode_field(DataType::I8, &payload, &mut pos).unwrap().0,
            (n as i8 as f64).to_bits()
        );
        let mut pos = 0;
        assert_eq!(
            F32Bits::decode_field(DataType::I8, &payload, &mut pos).unwrap().0,
            (n as i8 as f32).to_bits()
        );
    }

    // UInt widens through u32 into binary64 and through u16 into binary32.
    for v in [0u64, 1, 65535, 65536, u32::MAX as u64] {
        let mut buf = Vec::new();
        lipi::encoder::encode_uint(&mut buf, v);
        let mut pos = 0;
        assert_eq!(
            F64Bits::decode_field(DataType::UInt, &buf, &mut pos).unwrap().0,
            (v as u32 as f64).to_bits()
        );
        let mut pos = 0;
        let r32 = F32Bits::decode_field(DataType::UInt, &buf, &mut pos);
        if v <= u16::MAX as u64 {
            assert_eq!(r32.unwrap().0, (v as u16 as f32).to_bits());
        } else {
            assert!(r32.is_err());
        }
    }

    // Int widens through i32 and i16.
    for v in [-40000i64, -129, -1, 0, 1, 32767, 40000] {
        let mut buf = Vec::new();
        lipi::encoder::encode_int(&mut buf, v);
        let mut pos = 0;
        assert_eq!(
            F64Bits::decode_field(DataType::Int, &buf, &mut pos).unwrap().0,
            (v as i32 as f64).to_bits()
        );
        let mut pos = 0;
        let r32 = F32Bits::decode_field(DataType::Int, &buf, &mut pos);
        if v >= i16::MIN as i64 && v <= i16::MAX as i64 {
            assert_eq!(r32.unwrap().0, (v as i16 as f32).to_bits());
        } else {
            assert!(r32.is_err());
        }
    }
}

#[test]
fn widening_f32_into_f64_matches_native_cast() {
    let samples = [
        0.0f32,
        -0.0,
        1.5,
        -123.25,
        f32::MAX,
        f32::MIN_POSITIVE,
        f32::INFINITY,
        f32::NEG_INFINITY,
        f32::from_bits(1),          // smallest subnormal
        f32::from_bits(0x007f_ffff), // largest subnormal
    ];
    for x in samples {
        let mut buf = Vec::new();
        FieldEncoder::encode(&F32Bits(x.to_bits()), &mut buf, 1).unwrap();
        // skip the field header byte, leaving the four payload bytes
        let mut pos = 1;
        let got = F64Bits::decode_field(DataType::F32, &buf, &mut pos).unwrap();
        assert_eq!(got.0, (x as f64).to_bits());
    }
}

#[derive(Debug, PartialEq)]
struct User {
    name: String,
    email: Option<String>,
    id: u64,
    is_admin: bool,
}

fn decode_user(buf: &[u8], pos: &mut usize) -> Result<User, Error> {
    let mut name: Option<String> = None;
    let mut email: Option<String> = None;
    let mut id: Option<u64> = None;
    let mut is_admin: Option<bool> = None;

    let mut fd = FieldDecoder::new(buf, pos)?;
    while let Some((key, ty)) = fd.header(buf, pos)? {
        match key {
            1 => name = Some(String::decode_field(ty, buf, pos)?),
            2 => email = Some(String::decode_field(ty, buf, pos)?),
            3 => id = Some(u64::decode_field(ty, buf, pos)?),
            4 => is_admin = Some(bool::decode_field(ty, buf, pos)?),
            // an unknown field: skip its payload
            _ => {
                parse_field_value(ty, buf, pos)?;
            }
        }
    }

    Ok(User {
        name: Optional::convert(name, "name").map_err(Error::Required)?,
        email: Optional::convert(email, "email").map_err(Error::Required)?,
        id: Optional::convert(id, "id").map_err(Error::Required)?,
        is_admin: Optional::convert(is_admin, "is_admin").map_err(Error::Required)?,
    })
}

struct UserRecord<'a> {
    name: &'a str,
    email: Option<&'a str>,
    id: u64,
    is_admin: bool,
}

fn encode_user_record(record: &UserRecord<'_>, writer: &mut Vec<u8>) -> Result<(), Error> {
    let field_count = 3 + record.email.iter().count();
    lipi::encoder::encode_length(writer, field_count)?;
    FieldEncoder::encode(record.name, writer, 1)?;
    if let Some(email) = record.email {
        FieldEncoder::encode(email, writer, 2)?;
    }
    FieldEncoder::encode(&record.id, writer, 3)?;
    FieldEncoder::encode(&record.is_admin, writer, 4)?;
    Ok(())
}

#[test]
fn optional_field_absent_is_no_value() {
    let record = UserRecord { name: "Alex", email: None, id: 9, is_admin: false };
    let mut buf = Vec::new();
    encode_user_record(&record, &mut buf).unwrap();

    let mut pos = 0;
    let user = decode_user(&buf, &mut pos).unwrap();
    assert_eq!(
        user,
        User { name: "Alex".to_owned(), email: None, id: 9, is_admin: false }
    );
}

#[test]
fn required_field_missing_names_the_field() {
    // A record that never writes field 1, the required name.
    let mut buf = Vec::new();
    lipi::encoder::encode_length(&mut buf, 1).unwrap();
    FieldEncoder::encode(&7u64, &mut buf, 3).unwrap();

    let mut pos = 0;
    match decode_user(&buf, &mut pos) {
        Err(Error::Required(e)) => assert_eq!(e.name, "name"),
        other => panic!("expected a required-field error, got {:?}", other),
    }
}

#[test]
fn forward_compatibility_unknown_tag_is_skipped() {
    // A struct carrying a reserved-tag field with arbitrary bytes decodes
    // without error into a target with no mapping for that key; the unmapped
    // field is simply absent from the result.
    let mut e = Entries::new();
    e.insert(1, Value::Str("Alex".to_owned()));
    e.insert(99, Value::UnknownI(vec![0xAA, 0xBB, 0xCC]));
    e.insert(3, Value::UInt(5));
    e.insert(4, Value::Bool(true));
    let buf = encode_to_bytes(&e);

    let mut pos = 0;
    let user = decode_user(&buf, &mut pos).unwrap();
    assert_eq!(
        user,
        User { name: "Alex".to_owned(), email: None, id: 5, is_admin: true }
    );

    // The raw tree still carries the unknown field as opaque bytes.
    let parsed = parse_all(&buf);
    assert_eq!(parsed.get(99), Some(&Value::UnknownI(vec![0xAA, 0xBB, 0xCC])));
    assert_eq!(parsed.get(7), None);
}

#[test]
fn encode_struct_frames_a_record() {
    let mut record = Entries::new();
    record.insert(1, Value::UInt(1));
    record.insert(4, Value::Bool(true));
    let mut buf = Vec::new();
    encode_struct(&record, &mut buf, 2).unwrap();
    assert_eq!(buf[0], 0x29); // id 2, struct tag

    let mut inner = Vec::new();
    Encode::encode(&record, &mut inner).unwrap();
    assert_eq!(&buf[1..], &inner[..]);

    let mut via_field_encoder = Vec::new();
    lipi::encoder::field_encoder(&record, &mut via_field_encoder, 2).unwrap();
    assert_eq!(via_field_encoder, buf);
}

#[test]
fn extended_field_ids_round_trip() {
    let mut e = Entries::new();
    e.insert(14, Value::U8(1));
    e.insert(15, Value::U8(2));
    e.insert(16, Value::U8(3));
    e.insert(300, Value::U8(4));
    e.insert(u16::MAX, Value::U8(5));

    let buf = encode_to_bytes(&e);
    let parsed = parse_all(&buf);
    assert_eq!(parsed, e);
    assert_eq!(parsed.get(300), Some(&Value::U8(4)));
}

#[test]
fn decode_test_name() {}

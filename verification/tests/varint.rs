use lipi::errors::Error;
use lipi::varint::{read_u64, Leb128Buf, LEB128};
use lipi::zig_zag::{from, into};

fn encoded_varint64_len(value: u64) -> usize {
    // Bitwise-or'ing by 1 lets the zero case work without affecting others.
    let significant_bits = 64 - (value | 1).leading_zeros();
    (significant_bits + 6) as usize / 7
}

fn check(num: u64) {
    let mut buf = Leb128Buf::<10>::new();
    buf.write_u64(num);
    assert_eq!(buf.as_bytes().len(), encoded_varint64_len(num));
}

#[test]
fn test_varint_encoding() {
    for n in 0..1000 {
        check(n);
    }

    for n in (0..).map_while(|exp| 2u64.checked_pow(exp)) {
        check(n);
    }

    for n in (0..).map_while(|exp| 3u64.checked_pow(exp)) {
        check(n);
    }

    check(u64::MAX);
    check(u64::MAX - 1);

    check(i64::MAX as u64);
    check((i64::MAX as u64) + 1);
    check((i64::MAX as u64) - 1);

    check(u32::MAX as u64);
    check((u32::MAX as u64) + 1);
    check((u32::MAX as u64) - 1);

    check(i32::MAX as u64);
    check((i32::MAX as u64) + 1);
    check((i32::MAX as u64) - 1);
}

fn decode_varint64(buf: &[u8]) -> Result<u64, Error> {
    let mut pos = 0;
    read_u64(buf, &mut pos)
}

#[test]
fn test_varint_decoding() {
    assert_eq!(0, decode_varint64(&[0]).unwrap());
    assert_eq!(
        u64::MAX,
        decode_varint64(&[0xff, 0xff, 0xff, 0xff, 0xff, 0xff, 0xff, 0xff, 0xff, 0x01]).unwrap()
    );
    assert!(decode_varint64(&[0xff, 0xff, 0xff, 0xff, 0xff, 0xff, 0xff, 0xff, 0xff, 0x02]).is_err());
}

#[test]
fn varint_round_trip_samples() {
    for n in [0u64, 1, 127, 128, 300, 16383, 16384, u32::MAX as u64, u64::MAX] {
        let mut buf = Leb128Buf::<10>::new();
        buf.write_u64(n);
        let bytes = buf.as_bytes();
        let mut pos = 0;
        assert_eq!(read_u64(bytes, &mut pos).unwrap(), n);
        assert_eq!(pos, bytes.len());
    }
}

#[test]
fn varint_overflow_is_invalid() {
    // Eleven continuation bytes can never be a 64-bit value.
    let bytes = [0x80u8, 0x80, 0x80, 0x80, 0x80, 0x80, 0x80, 0x80, 0x80, 0x80, 0x01];
    let mut pos = 0;
    match read_u64(&bytes, &mut pos) {
        Err(Error::VarInt(_)) => {}
        other => panic!("expected an invalid-varint error, got {:?}", other),
    }
}

#[test]
fn varint_eof_is_unexpected_eof() {
    let bytes = [0x80u8, 0x80];
    let mut pos = 0;
    match read_u64(&bytes, &mut pos) {
        Err(Error::Eof(e)) => assert_eq!(e.size, 1),
        other => panic!("expected an end-of-input error, got {:?}", other),
    }
}

#[test]
fn write_u32_matches_write_u64() {
    for n in [0u32, 1, 14, 15, 127, 128, 300, u32::MAX] {
        let mut a = Leb128Buf::<5>::new();
        a.write_u32(n);
        let mut b = Leb128Buf::<10>::new();
        b.write_u64(n as u64);
        assert_eq!(a.as_bytes(), b.as_bytes());
    }
}

#[test]
fn test_zig_zag() {
    assert_eq!(into(0), 0);
    assert_eq!(into(1), 2);
    assert_eq!(into(-1), 1);
    assert_eq!(into(2), 4);
    assert_eq!(into(-2), 3);

    assert_eq!(from(0), 0);
    assert_eq!(from(2), 1);
    assert_eq!(from(1), -1);
    assert_eq!(from(4), 2);
    assert_eq!(from(3), -2);
}

#[test]
fn test_min_max() {
    assert!(into(i64::MIN) == u64::MAX);
    assert!(from(u64::MAX) == i64::MIN);

    assert!(into(i64::MAX) == u64::MAX - 1);
    assert!(from(u64::MAX - 1) == i64::MAX);
}

#[test]
fn test_read_byte() {
    let buf = [1u8; 1];
    let mut pos = 0;
    assert_eq!(lipi::utils::read_byte(&buf, &mut pos).unwrap(), 1);

    assert_eq!(pos, 1);
    assert!(lipi::utils::read_byte(&buf, &mut pos).is_err());
}

#[test]
fn test_read_bytes() {
    let buf = [1u8, 2, 3];
    let mut pos = 0;
    assert_eq!(lipi::utils::read_bytes(&buf, &mut pos, 2).unwrap(), &[1, 2]);

    assert_eq!(pos, 1 + 1);
    assert!(lipi::utils::read_bytes(&buf, &mut pos, 2).is_err());

    assert_eq!(pos, 2);
    assert_eq!(lipi::utils::read_bytes(&buf, &mut pos, 0).unwrap(), &[]);
    assert_eq!(lipi::utils::read_bytes(&buf, &mut pos, 1).unwrap(), &[3]);

    assert_eq!(pos, 3);
    assert!(lipi::utils::read_bytes(&buf, &mut pos, 1).is_err());
}

#[test]
fn test_conversion_u8_to_i8_slice() {
    let bytes: &[u8] = &[0, 1, 127, 128, 254, 255];
    let i8_values = lipi::utils::i8_vec_from(bytes);

    assert_eq!(i8_values, [0, 1, 127, -128, -2, -1]);
    assert_eq!(lipi::utils::u8_vec_from(&i8_values), bytes);
}

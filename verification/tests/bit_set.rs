use lipi::bit_set::BitSet;

#[test]
fn create_bit_set() {
    let bit_set_1 = BitSet::from_bools(&[true, false]);
    let bit_set_2 = BitSet::from_bools(&[true, false]);
    assert_eq!(bit_set_1.as_packed_bytes(), bit_set_2.as_packed_bytes());

    let mut bit_set_3 = BitSet::new(2);
    bit_set_3.insert(0).unwrap();
    assert_eq!(bit_set_1.as_packed_bytes(), bit_set_3.as_packed_bytes());
}

#[test]
fn packed_bool_len() {
    assert_eq!(0_u8.div_ceil(8), 0);
    assert_eq!(1_u8.div_ceil(8), 1);
    assert_eq!(8_u8.div_ceil(8), 1);
    assert_eq!(9_u8.div_ceil(8), 2);
    assert_eq!(16u8.div_ceil(8), 2);

    for i in 0..=256 as usize {
        assert_eq!(i.div_ceil(8), (i + 7) / 8);
        assert_eq!(lipi::utils::bool_packed_len(i), (i + 7) / 8);
    }
}

#[test]
fn has_and_is_lsb_first() {
    let mut bs = BitSet::new(8);

    bs.insert(0).unwrap();
    assert_eq!(bs.as_packed_bytes(), &[0b0000_0001]);

    bs.insert(1).unwrap();
    assert_eq!(bs.as_packed_bytes(), &[0b0000_0011]);

    bs.insert(7).unwrap();
    assert_eq!(bs.as_packed_bytes(), &[0b1000_0011]);

    assert!(bs.has(0));
    assert!(bs.has(1));
    assert!(bs.has(7));
    assert!(!bs.has(2));
}

#[test]
fn insert_and_returns_old_value() {
    let mut bs = BitSet::new(16);

    assert_eq!(bs.insert(3).unwrap(), false);
    assert!(bs.has(3));

    assert_eq!(bs.insert(3).unwrap(), true);
    assert!(bs.has(3));
}

#[test]
fn remove_and_returns_old_value() {
    let mut bs = BitSet::new(16);

    assert_eq!(bs.remove(5), Some(false));
    assert!(!bs.has(5));

    assert_eq!(bs.insert(5).unwrap(), false);
    assert!(bs.has(5));

    assert_eq!(bs.remove(5), Some(true));
    assert!(!bs.has(5));
}

#[test]
fn out_of_bounds_insert_and_remove() {
    let mut bs = BitSet::new(8);

    // slots.len() == 1, so index 8 lands in slot 1, which is out of range
    let err = bs.insert(8).unwrap_err();
    assert_eq!(err, 1);

    assert_eq!(bs.remove(8), None);

    assert_eq!(bs.has(8), false);
    assert_eq!(bs.has(9999), false);
}

#[test]
fn bools_roundtrip() {
    let input = vec![
        true, false, true, true, false, false, false, true, // first byte
        false, true, false, false, true, false, true, false, // second byte
        true, // third byte partially used
    ];

    let bs = BitSet::from_bools(&input);
    let output: Vec<bool> = bs.to_bools();

    assert_eq!(output, input);
}

#[test]
fn cross_byte_boundaries() {
    // boundary at 8 bits
    let mut bs = BitSet::new(16);

    bs.insert(7).unwrap();
    bs.insert(8).unwrap();
    bs.insert(15).unwrap();

    assert!(bs.has(7));
    assert!(bs.has(8));
    assert!(bs.has(15));

    // byte0: bit7 set, byte1: bit0 and bit7 set
    assert_eq!(bs.as_packed_bytes(), &[0b1000_0000, 0b1000_0001]);
}

#[test]
fn clear_unsets_every_bit() {
    let mut bs = BitSet::new(16);
    bs.insert(1).unwrap();
    bs.insert(9).unwrap();
    assert!(!bs.is_empty());
    bs.clear();
    assert!(bs.is_empty());
    assert_eq!(bs.capacity(), 16);
    assert_eq!(bs.as_packed_bytes(), &[0, 0]);
}

#[test]
fn slack_bits_read_as_unset() {
    // A set viewing a packed byte with stray bits beyond its capacity: reads
    // at or past the capacity answer false even though the storage bit is set.
    let bs = lipi::bit_set::BitSet::from_parts(1, &[0xFF]);
    assert!(bs.has(0));
    assert!(!bs.has(1));
    assert!(!bs.has(7));
    assert_eq!(bs.as_packed_bytes(), &[0xFF]);
}

#[test]
fn from_packed_keeps_bytes() {
    let bs = BitSet::from_packed(vec![0xAB, 0x01]);
    assert_eq!(bs.capacity(), 16);
    assert_eq!(bs.as_packed_bytes(), &[0xAB, 0x01]);
    assert!(bs.has(0));
    assert!(!bs.has(2));
    assert!(bs.has(8));
}

use librqbit::bitfield::BF;

#[test]
fn bitfield_bits_are_counted_from_the_most_significant() {
    let bf = BF::from_vec(vec![0b1000_0001, 0b0100_0000]);
    assert_eq!(bf.get(0), Some(true));
    assert_eq!(bf.get(1), Some(false));
    assert_eq!(bf.get(7), Some(true));
    assert_eq!(bf.get(8), Some(false));
    assert_eq!(bf.get(9), Some(true));
    assert_eq!(bf.get(15), Some(false));
    assert_eq!(bf.get(16), None);
    assert_eq!(bf.byte_len(), 2);
    assert_eq!(bf.as_raw_slice(), &[0b1000_0001u8, 0b0100_0000u8][..]);
}

#[test]
fn bitfield_new_is_empty() {
    let bf = BF::new();
    assert_eq!(bf.byte_len(), 0);
    assert_eq!(bf.get(0), None);
    assert!(!bf.is_set(0));
    assert!(bf.all_in_prefix(0));
    assert!(!bf.all_in_prefix(1));
}

#[test]
fn bitfield_set_writes_one_bit() {
    let mut bf = BF::zeroed(2);
    assert!(bf.set(0, true));
    assert!(bf.set(10, true));
    assert_eq!(bf.as_raw_slice(), &[0b1000_0000u8, 0b0010_0000u8][..]);
    assert!(bf.is_set(10));
    assert!(!bf.is_set(11));
    assert!(bf.set(0, false));
    assert_eq!(bf.as_raw_slice(), &[0u8, 0b0010_0000u8][..]);
    // setting a set bit, clearing a clear bit
    assert!(bf.set(10, true));
    assert!(bf.set(3, false));
    assert_eq!(bf.as_raw_slice(), &[0u8, 0b0010_0000u8][..]);
}

#[test]
fn bitfield_set_past_the_end_changes_nothing() {
    let mut bf = BF::from_vec(vec![0xAA]);
    assert!(!bf.set(8, true));
    assert!(!bf.set(usize::MAX, true));
    assert_eq!(bf.as_raw_slice(), &[0xAAu8][..]);
}

#[test]
fn bitfield_all_in_prefix() {
    let bf = BF::from_vec(vec![0xFF, 0b1110_0000]);
    assert!(bf.all_in_prefix(0));
    assert!(bf.all_in_prefix(8));
    assert!(bf.all_in_prefix(11));
    assert!(!bf.all_in_prefix(12));
    assert!(!bf.all_in_prefix(16));
    assert!(!bf.all_in_prefix(17));
}

#[test]
fn bitfield_zeroed_has_no_bit_set() {
    let bf = BF::zeroed(3);
    assert_eq!(bf.byte_len(), 3);
    for i in 0..24 {
        assert_eq!(bf.get(i), Some(false));
    }
    assert_eq!(bf.get(24), None);
}

use librqbit::protocol::{serialize_bitfield_message, MSGID_BITFIELD};
use librqbit::timed_existence::{timeit, TimedExistence};

#[test]
fn bitfield_message_is_framed() {
    let mut buf = vec![9u8, 9, 9];
    let n = serialize_bitfield_message(&[0xF0, 0x01], &mut buf);
    assert_eq!(n, Some(7));
    assert_eq!(buf, vec![0, 0, 0, 3, 5, 0xF0, 0x01]);
    assert_eq!(MSGID_BITFIELD, 5);
}

#[test]
fn bitfield_message_of_an_empty_bitfield() {
    let mut buf = Vec::new();
    assert_eq!(serialize_bitfield_message(&[], &mut buf), Some(5));
    assert_eq!(buf, vec![0, 0, 0, 1, 5]);
}

#[test]
fn bitfield_message_length_prefix_is_big_endian() {
    let payload = vec![0xABu8; 0x0102_03];
    let mut buf = Vec::new();
    assert_eq!(serialize_bitfield_message(&payload, &mut buf), Some(0x0102_03 + 5));
    assert_eq!(&buf[..5], &[0x00, 0x01, 0x02, 0x04, 5][..]);
    assert_eq!(buf.len(), 0x0102_03 + 5);
    assert!(buf[5..].iter().all(|b| *b == 0xAB));
}

#[test]
fn timed_existence_hands_its_object_through() {
    let t = TimedExistence::new(17u32, "reason");
    assert_eq!(*t.value(), 17);
    assert_eq!(t.into_inner(), 17);
}

#[test]
fn timeit_runs_the_closure() {
    let x = 20u32;
    assert_eq!(timeit("adding", || x + 1), 21);
}

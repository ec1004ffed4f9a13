use backside::uuenc::{armor, uuencode};
use bytes::Bytes;

#[test]
fn armor_moves_six_bits_into_printable_range() {
    assert_eq!(armor(0), Some(33));
    assert_eq!(armor(1), Some(34));
    assert_eq!(armor(63), Some(96));
    assert_eq!(armor(64), None);
    assert_eq!(armor(255), None);
}

#[test]
fn nothing_encodes_to_nothing() {
    assert_eq!(uuencode(Bytes::new()), Ok(Vec::new()));
}

#[test]
fn one_byte_makes_a_full_group_and_a_short_one() {
    assert_eq!(uuencode(Bytes::from_static(&[0x00])), Ok(vec![33, 33]));
    assert_eq!(uuencode(Bytes::from_static(&[0xff])), Ok(vec![96, 36]));
    assert_eq!(uuencode(Bytes::from_static(&[0x01])), Ok(vec![34, 33]));
    assert_eq!(uuencode(Bytes::from_static(&[0x80])), Ok(vec![33, 35]));
}

#[test]
fn three_bytes_make_four_groups() {
    assert_eq!(uuencode(Bytes::from_static(b"abc")), Ok(vec![66, 42, 87, 57]));
}

#[test]
fn the_result_is_not_the_input() {
    let out = uuencode(Bytes::from_static(b"abc")).unwrap();
    assert_ne!(out, b"abc".to_vec());
    assert_eq!(out.len(), 4);
}

#[test]
fn every_length_gives_its_number_of_groups_in_range() {
    for n in 0..40usize {
        let data: Vec<u8> = (0..n).map(|i| (i * 37 + 11) as u8).collect();
        let out = uuencode(Bytes::from(data)).unwrap();
        assert_eq!(out.len(), (8 * n + 5) / 6);
        for c in out {
            assert!((33..=96).contains(&c));
        }
    }
}

use rol::err::{ErrKind, ROLErr};
use rol::mac::mac_from_str;

#[test]
fn colon_form_parses_in_order() {
    let h = mac_from_str("00:1A:2B:3C:4D:5E").unwrap();
    assert_eq!(h.octets, vec![0x00, 0x1A, 0x2B, 0x3C, 0x4D, 0x5E]);
}

#[test]
fn contiguous_form_matches_colon_form() {
    let a = mac_from_str("001A2B3C4D5E").unwrap();
    let b = mac_from_str("00:1A:2B:3C:4D:5E").unwrap();
    assert_eq!(a.octets, b.octets);
    assert_eq!(a.octets, vec![0x00, 0x1A, 0x2B, 0x3C, 0x4D, 0x5E]);
}

#[test]
fn parsing_is_case_insensitive() {
    let lower = mac_from_str("aa:bb:cc:dd:ee:ff").unwrap();
    let upper = mac_from_str("AA:BB:CC:DD:EE:FF").unwrap();
    assert_eq!(lower.octets, upper.octets);
    assert_eq!(lower.octets, vec![0xAA, 0xBB, 0xCC, 0xDD, 0xEE, 0xFF]);
    let mixed = mac_from_str("aAbBcCdDeEfF").unwrap();
    assert_eq!(mixed.octets, lower.octets);
}

#[test]
fn too_few_segments() {
    assert_eq!(mac_from_str("00:1A:2B"), Err(ROLErr::of(ErrKind::TooShort)));
    assert_eq!(mac_from_str("00:1A:2B:3C:4D"), Err(ROLErr::of(ErrKind::TooShort)));
}

#[test]
fn too_many_segments() {
    assert_eq!(mac_from_str("00:1A:2B:3C:4D:5E:FF"), Err(ROLErr::of(ErrKind::TooLong)));
    assert_eq!(mac_from_str("00:1A:2B:3C:4D:5E:"), Err(ROLErr::of(ErrKind::TooLong)));
}

#[test]
fn non_hex_segment_is_invalid() {
    assert_eq!(mac_from_str("00:1A:ZZ:3C:4D:5E"), Err(ROLErr::of(ErrKind::InvalidFormat)));
    assert_eq!(mac_from_str("00:1A:2B:3C:4D:5G"), Err(ROLErr::of(ErrKind::InvalidFormat)));
}

#[test]
fn empty_segment_is_invalid() {
    assert_eq!(mac_from_str("00::2B:3C:4D:5E"), Err(ROLErr::of(ErrKind::InvalidFormat)));
    assert_eq!(mac_from_str("00:1A:2B:3C:4D:"), Err(ROLErr::of(ErrKind::InvalidFormat)));
}

#[test]
fn oversized_segment_is_invalid() {
    assert_eq!(mac_from_str("100:1A:2B:3C:4D:5E"), Err(ROLErr::of(ErrKind::InvalidFormat)));
}

#[test]
fn short_segments_carry_their_value() {
    let h = mac_from_str("0:1:2:3:4:5").unwrap();
    assert_eq!(h.octets, vec![0, 1, 2, 3, 4, 5]);
    let padded = mac_from_str("0AA:BB:CC:DD:EE:FF");
    assert_eq!(padded.unwrap().octets, vec![0xAA, 0xBB, 0xCC, 0xDD, 0xEE, 0xFF]);
}

#[test]
fn contiguous_length_is_checked() {
    assert_eq!(mac_from_str(""), Err(ROLErr::of(ErrKind::TooShort)));
    assert_eq!(mac_from_str("00"), Err(ROLErr::of(ErrKind::TooShort)));
    assert_eq!(mac_from_str("001A2B3C4D"), Err(ROLErr::of(ErrKind::TooShort)));
    assert_eq!(mac_from_str("001A2B3C4D5E7"), Err(ROLErr::of(ErrKind::TooLong)));
    assert_eq!(mac_from_str("001A2B3C4D5E7F"), Err(ROLErr::of(ErrKind::TooLong)));
}

#[test]
fn contiguous_odd_length_is_invalid() {
    assert_eq!(mac_from_str("001A2B3C4D5"), Err(ROLErr::of(ErrKind::InvalidFormat)));
}

#[test]
fn contiguous_non_hex_is_invalid() {
    assert_eq!(mac_from_str("001A2B3C4D5Z"), Err(ROLErr::of(ErrKind::InvalidFormat)));
    assert_eq!(mac_from_str("0-1A2B3C4D5E"), Err(ROLErr::of(ErrKind::InvalidFormat)));
}

#[test]
fn non_ascii_input_is_rejected_not_panicked() {
    assert_eq!(mac_from_str("é0:1A:2B:3C:4D:5E"), Err(ROLErr::of(ErrKind::InvalidFormat)));
    assert_eq!(mac_from_str("ééééééééééée"), Err(ROLErr::of(ErrKind::InvalidFormat)));
}

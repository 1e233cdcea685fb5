use rol::mac::mac_from_str;
use rol::packet::build_packet;

#[test]
fn packet_layout_is_exact() {
    let h = mac_from_str("00:1A:2B:3C:4D:5E").unwrap();
    let data = build_packet(&h);
    assert_eq!(data.len(), 102);
    let mut expected: Vec<u8> = vec![0xFF; 6];
    for _ in 0..16 {
        expected.extend_from_slice(&[0x00, 0x1A, 0x2B, 0x3C, 0x4D, 0x5E]);
    }
    assert_eq!(data, expected);
}

#[test]
fn packet_building_is_deterministic() {
    let h = mac_from_str("FF:00:A5:5A:C3:3C").unwrap();
    let first = build_packet(&h);
    let second = build_packet(&h);
    assert_eq!(first, second);
    assert_eq!(first.len(), 102);
}

#[test]
fn packet_prefix_is_all_ff() {
    let h = mac_from_str("000000000000").unwrap();
    let data = build_packet(&h);
    assert_eq!(&data[..6], &[0xFF; 6]);
    assert!(data[6..].iter().all(|b| *b == 0));
}

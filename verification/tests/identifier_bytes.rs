use wealth_tracker::get_random_bytes_from_uuid;
use wealth_tracker::plot_utils::xor_octets;

#[test]
fn xor_octets_folds_every_byte() {
    assert_eq!(xor_octets(&[0u8; 16]), 0);
    assert_eq!(xor_octets(&[1u8; 16]), 0);
    let mut bytes = [0u8; 16];
    bytes[0] = 0xff;
    assert_eq!(xor_octets(&bytes), 0xff);
    let ramp: [u8; 16] = [0, 1, 2, 3, 4, 5, 6, 7, 8, 9, 10, 11, 12, 13, 14, 15];
    let expected = ramp.iter().fold(0u8, |acc, b| acc ^ b);
    assert_eq!(xor_octets(&ramp), expected);
    assert_eq!(expected, 0);
    let mixed: [u8; 16] = [
        0xde, 0xad, 0xbe, 0xef, 0x01, 0x23, 0x45, 0x67, 0x89, 0xab, 0xcd, 0xef, 0x10, 0x32,
        0x54, 0x76,
    ];
    assert_eq!(xor_octets(&mixed), mixed.iter().fold(0u8, |acc, b| acc ^ b));
}

#[test]
fn uuid_fold_matches_manual_xor() {
    let bytes: [u8; 16] = [
        0x12, 0x34, 0x56, 0x78, 0x9a, 0xbc, 0xde, 0xf0, 0x0f, 0xed, 0xcb, 0xa9, 0x87, 0x65,
        0x43, 0x21,
    ];
    let uuid = uuid::Uuid::from_bytes(bytes);
    let expected = uuid.as_bytes().iter().fold(0u8, |acc, b| acc ^ b);
    assert_eq!(get_random_bytes_from_uuid(&uuid), expected);
}

#[test]
fn uuid_fold_differs_for_different_identifiers() {
    let a = uuid::Uuid::from_bytes([7u8; 16]);
    let mut other = [7u8; 16];
    other[3] = 0x55;
    let b = uuid::Uuid::from_bytes(other);
    assert_eq!(get_random_bytes_from_uuid(&a), 0);
    assert_ne!(get_random_bytes_from_uuid(&a), get_random_bytes_from_uuid(&b));
}

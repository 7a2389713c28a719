use blockchainlib::{difficulty_bytes_as_u128, u128_bytes, u32_bytes, u64_bytes};
use blockchainlib::block::check_difficulty;

#[test]
fn test_u32_bytes() {
    assert_eq!(u32_bytes(&0x12345678), [0x78, 0x56, 0x34, 0x12]);
}

#[test]
fn test_u64_bytes() {
    assert_eq!(
        u64_bytes(&0x0123456789abcdef),
        [0xef, 0xcd, 0xab, 0x89, 0x67, 0x45, 0x23, 0x01]
    );
}

#[test]
fn test_u128_bytes() {
    assert_eq!(
        u128_bytes(&0x0123456789abcdef0123456789abcdef),
        [
            0xef, 0xcd, 0xab, 0x89, 0x67, 0x45, 0x23, 0x01, 0xef, 0xcd, 0xab, 0x89, 0x67, 0x45,
            0x23, 0x01
        ]
    );
}

#[test]
fn test_difficulty_bytes_as_u128() {
    assert_eq!(
        difficulty_bytes_as_u128(&vec![
            0x01, 0x23, 0x45, 0x67, 0x89, 0xab, 0xcd, 0xef, 0x01, 0x23, 0x45, 0x67, 0x89, 0xab,
            0xcd, 0xef
        ]),
        0x0123456789abcdef0123456789abcdef
    );
}

#[test]
fn test_difficulty_bytes_uses_trailing_window() {
    // 20 bytes: only the last 16 count, read big-endian
    let mut v = vec![0xffu8, 0xff, 0xff, 0xff];
    v.extend_from_slice(&[0u8; 15]);
    v.push(0x2a);
    assert_eq!(difficulty_bytes_as_u128(&v), 0x2a);
}

#[test]
fn test_check_difficulty_boundary() {
    let mut h = vec![0u8; 31];
    h.push(5);
    assert_eq!(h.len(), 32);
    assert!(check_difficulty(&h, 6));
    assert!(!check_difficulty(&h, 5));
}

//! Arithmetic utility checks.

use zuc::add;
use zuc::zuc::ZucFromBytes;
use zuc::rol;
use zuc::U256;

#[test]
fn add_wraps() {
    assert_eq!(add(1, 2), 3);
    assert_eq!(add(0xFFFF_FFFF, 1), 0);
    assert_eq!(add(0xFFFF_FFFF, 0xFFFF_FFFF), 0xFFFF_FFFE);
}

#[test]
fn rol_rotates() {
    assert_eq!(rol(0x8000_0001, 1), 0x0000_0003);
    assert_eq!(rol(0x1234_5678, 8), 0x3456_7812);
    assert_eq!(rol(0xDEAD_BEEF, 0), 0xDEAD_BEEF);
    assert_eq!(rol(0xDEAD_BEEF, 32), 0xDEAD_BEEF);
}

#[test]
fn u256_shl() {
    let mut x = U256::new(0, 1);
    x.shl_assign(1);
    assert_eq!((x.high, x.low), (0, 2));

    let mut x = U256::new(0, 1);
    x.shl_assign(128);
    assert_eq!((x.high, x.low), (1, 0));

    let mut x = U256::new(0, 0x8000_0000_0000_0000_0000_0000_0000_0000);
    x.shl_assign(1);
    assert_eq!((x.high, x.low), (1, 0));

    let mut x = U256::new(0, 3);
    x.shl_assign(130);
    assert_eq!((x.high, x.low), (12, 0));

    let mut x = U256::new(5, 7);
    x.shl_assign(0);
    assert_eq!((x.high, x.low), (5, 7));

    let mut x = U256::new(5, 7);
    x.shl_assign(256);
    assert_eq!((x.high, x.low), (0, 0));

    let mut x = U256::new(1, 0xFFFF_FFFF_FFFF_FFFF_FFFF_FFFF_FFFF_FFFF);
    x.shl_assign(4);
    assert_eq!((x.high, x.low), (0x1F, 0xFFFF_FFFF_FFFF_FFFF_FFFF_FFFF_FFFF_FFF0));
}

#[test]
fn remaining_bits_extraction() {
    let m: Vec<u8> = (1u8..=20).collect();

    // 72 bits reach one byte into the third 32-bit block
    let r = u32::get_zuc_remaining_bits(72, &m);
    assert_eq!(r, 0x0900_0000);

    // 47 bits reach two bytes into the second 32-bit block
    let r = u32::get_zuc_remaining_bits(47, &m);
    assert_eq!(r, 0x0506_0000);

    // 65 bits reach one byte into the second 64-bit block
    let r64 = u64::get_zuc_remaining_bits(65, &m);
    assert_eq!(r64, 0x0900_0000_0000_0000);

    // 129 bits reach one byte into the second 128-bit block
    let r128 = u128::get_zuc_remaining_bits(129, &m);
    assert_eq!(r128, 0x11u128 << 120);
}

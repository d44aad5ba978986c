use byteorder::extend_sign;
use byteorder::extend_sign128;
use byteorder::pack_size;
use byteorder::pack_size128;
use byteorder::unextend_sign;
use byteorder::unextend_sign128;

#[test]
fn extend_sign_exact_values() {
    assert_eq!(extend_sign(0xFF, 1), -1);
    assert_eq!(extend_sign(0x7F, 1), 127);
    assert_eq!(extend_sign(0x80, 1), -128);
    assert_eq!(extend_sign(0xFF18, 2), -232);
    assert_eq!(extend_sign(0x0102030405, 5), 0x0102030405);
    assert_eq!(extend_sign(0xFFFFFFFFFFFFFFFF, 8), -1);
    assert_eq!(extend_sign(0xDEAD_FFFFFFFFFFFF, 6), -1);
}

#[test]
fn unextend_sign_exact_values() {
    assert_eq!(unextend_sign(-1, 1), 0xFF);
    assert_eq!(unextend_sign(-1, 3), 0xFFFFFF);
    assert_eq!(unextend_sign(127, 1), 0x7F);
    assert_eq!(unextend_sign(-128, 1), 0x80);
    assert_eq!(unextend_sign(-232, 2), 0xFF18);
    assert_eq!(unextend_sign(i64::MIN, 8), 0x8000000000000000);
}

#[test]
fn sign_round_trip_64() {
    for nbytes in 1..=8usize {
        for v in [-1i64, 0, 1, -77, 113] {
            assert_eq!(extend_sign(unextend_sign(v, nbytes), nbytes), v);
        }
    }
}

#[test]
fn extend_sign128_exact_values() {
    assert_eq!(extend_sign128(0xFF, 1), -1);
    assert_eq!(extend_sign128(0x80000000000000000000, 10), -(1i128 << 79));
    assert_eq!(extend_sign128(0x0102030405060708090A, 10), 0x0102030405060708090A);
}

#[test]
fn unextend_sign128_exact_values() {
    assert_eq!(unextend_sign128(-1, 1), 0xFF);
    assert_eq!(unextend_sign128(-1, 16), u128::MAX);
    assert_eq!(unextend_sign128(-2, 3), 0xFFFFFE);
}

#[test]
fn sign_round_trip_128() {
    for nbytes in 1..=16usize {
        for v in [-1i128, 0, 1, -77, 113] {
            assert_eq!(extend_sign128(unextend_sign128(v, nbytes), nbytes), v);
        }
    }
}

#[test]
fn pack_size_thresholds() {
    assert_eq!(pack_size(0), 1);
    assert_eq!(pack_size(255), 1);
    assert_eq!(pack_size(256), 2);
    assert_eq!(pack_size(65535), 2);
    assert_eq!(pack_size(65536), 3);
    assert_eq!(pack_size(0xFFFFFF), 3);
    assert_eq!(pack_size(0x1000000), 4);
    assert_eq!(pack_size(0xFFFFFFFF), 4);
    assert_eq!(pack_size(0x100000000), 5);
    assert_eq!(pack_size(0xFFFFFFFFFF), 5);
    assert_eq!(pack_size(0x10000000000), 6);
    assert_eq!(pack_size(0xFFFFFFFFFFFF), 6);
    assert_eq!(pack_size(0x1000000000000), 7);
    assert_eq!(pack_size(0xFFFFFFFFFFFFFF), 7);
    assert_eq!(pack_size(0x100000000000000), 8);
    assert_eq!(pack_size(u64::MAX), 8);
}

#[test]
fn pack_size128_thresholds() {
    assert_eq!(pack_size128(0), 1);
    assert_eq!(pack_size128(255), 1);
    assert_eq!(pack_size128(256), 2);
    for k in 1..=15usize {
        let boundary = 1u128 << (8 * k);
        assert_eq!(pack_size128(boundary - 1), k);
        assert_eq!(pack_size128(boundary), k + 1);
    }
    assert_eq!(pack_size128(u128::MAX), 16);
}

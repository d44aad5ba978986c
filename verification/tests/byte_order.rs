use byteorder::BigEndian;
use byteorder::ByteOrder;
use byteorder::LittleEndian;
use byteorder::NativeEndian;
use byteorder::NetworkEndian;

#[test]
fn uint_bigger_buffer() {
    let n = LittleEndian::read_uint(&[1, 2, 3, 4, 5, 6, 7, 8], 5);
    assert_eq!(n, 0x0504030201);
}

#[test]
fn read_two_u16_big_endian() {
    let buf = [2u8, 5, 3, 0];
    assert_eq!(517, BigEndian::read_u16(&buf));
    assert_eq!(768, BigEndian::read_u16(&buf[2..]));
}

#[test]
fn write_two_u16_little_endian() {
    let mut buf = [0u8; 4];
    LittleEndian::write_u16(&mut buf, 517);
    LittleEndian::write_u16(&mut buf[2..], 768);
    assert_eq!(buf, [5, 2, 0, 3]);
}

#[test]
fn u16_round_trip() {
    let mut buf = [0u8; 2];
    BigEndian::write_u16(&mut buf, 0xA1B2);
    assert_eq!(buf, [0xA1, 0xB2]);
    assert_eq!(0xA1B2, BigEndian::read_u16(&buf));
    LittleEndian::write_u16(&mut buf, 0xA1B2);
    assert_eq!(buf, [0xB2, 0xA1]);
    assert_eq!(0xA1B2, LittleEndian::read_u16(&buf));
}

#[test]
fn u32_round_trip() {
    let mut buf = [0u8; 4];
    LittleEndian::write_u32(&mut buf, 1_000_000);
    assert_eq!(1_000_000, LittleEndian::read_u32(&buf));
    BigEndian::write_u32(&mut buf, 1_000_000);
    assert_eq!(1_000_000, BigEndian::read_u32(&buf));
    assert_eq!(buf, [0x00, 0x0F, 0x42, 0x40]);
}

#[test]
fn u64_round_trip() {
    let mut buf = [0u8; 8];
    BigEndian::write_u64(&mut buf, 0x0102030405060708);
    assert_eq!(buf, [1, 2, 3, 4, 5, 6, 7, 8]);
    assert_eq!(0x0102030405060708, BigEndian::read_u64(&buf));
    LittleEndian::write_u64(&mut buf, 0x0102030405060708);
    assert_eq!(buf, [8, 7, 6, 5, 4, 3, 2, 1]);
    assert_eq!(0x0102030405060708, LittleEndian::read_u64(&buf));
}

#[test]
fn u128_round_trip() {
    let mut buf = [0u8; 16];
    let v = 0x0102030405060708090A0B0C0D0E0F10u128;
    BigEndian::write_u128(&mut buf, v);
    assert_eq!(buf[0], 1);
    assert_eq!(buf[15], 0x10);
    assert_eq!(v, BigEndian::read_u128(&buf));
    LittleEndian::write_u128(&mut buf, v);
    assert_eq!(buf[0], 0x10);
    assert_eq!(buf[15], 1);
    assert_eq!(v, LittleEndian::read_u128(&buf));
}

#[test]
fn i16_round_trip() {
    let mut buf = [0u8; 2];
    BigEndian::write_i16(&mut buf, -50_000i32 as i16);
    assert_eq!(-50_000i32 as i16, BigEndian::read_i16(&buf));
    LittleEndian::write_i16(&mut buf, -1_000);
    assert_eq!(-1_000, LittleEndian::read_i16(&buf));
    assert_eq!(buf, [0x18, 0xFC]);
}

#[test]
fn i32_round_trip() {
    let mut buf = [0u8; 4];
    LittleEndian::write_i32(&mut buf, -1_000_000);
    assert_eq!(-1_000_000, LittleEndian::read_i32(&buf));
    BigEndian::write_i32(&mut buf, i32::MIN);
    assert_eq!(buf, [0x80, 0, 0, 0]);
    assert_eq!(i32::MIN, BigEndian::read_i32(&buf));
}

#[test]
fn i64_round_trip() {
    let mut buf = [0u8; 8];
    LittleEndian::write_i64(&mut buf, -1_000_000_000);
    assert_eq!(-1_000_000_000, LittleEndian::read_i64(&buf));
    BigEndian::write_i64(&mut buf, -1);
    assert_eq!(buf, [0xFF; 8]);
    assert_eq!(-1, BigEndian::read_i64(&buf));
}

#[test]
fn i128_round_trip() {
    let mut buf = [0u8; 16];
    BigEndian::write_i128(&mut buf, -2);
    assert_eq!(buf[15], 0xFE);
    assert_eq!(-2, BigEndian::read_i128(&buf));
    LittleEndian::write_i128(&mut buf, i128::MIN);
    assert_eq!(i128::MIN, LittleEndian::read_i128(&buf));
}

#[test]
fn uint_round_trip_every_width() {
    for nbytes in 1..=8usize {
        let v: u64 = 0xF1E2D3C4B5A69788 >> (8 * (8 - nbytes));
        let mut buf = [0u8; 8];
        BigEndian::write_uint(&mut buf, v, nbytes);
        assert_eq!(v, BigEndian::read_uint(&buf, nbytes));
        LittleEndian::write_uint(&mut buf, v, nbytes);
        assert_eq!(v, LittleEndian::read_uint(&buf, nbytes));
    }
}

#[test]
fn uint128_round_trip_every_width() {
    for nbytes in 1..=16usize {
        let v: u128 = 0xF1E2D3C4B5A697880102030405060708 >> (8 * (16 - nbytes));
        let mut buf = [0u8; 16];
        BigEndian::write_uint128(&mut buf, v, nbytes);
        assert_eq!(v, BigEndian::read_uint128(&buf, nbytes));
        LittleEndian::write_uint128(&mut buf, v, nbytes);
        assert_eq!(v, LittleEndian::read_uint128(&buf, nbytes));
    }
}

#[test]
fn int_round_trip_every_width() {
    for nbytes in 1..=8usize {
        let (lo, hi) = if nbytes == 8 {
            (i64::MIN, i64::MAX)
        } else {
            let half = 1i64 << (8 * nbytes - 1);
            (-half, half - 1)
        };
        for v in [lo, -1, 0, 1, hi] {
            let mut buf = [0u8; 8];
            BigEndian::write_int(&mut buf, v, nbytes);
            assert_eq!(v, BigEndian::read_int(&buf, nbytes));
            LittleEndian::write_int(&mut buf, v, nbytes);
            assert_eq!(v, LittleEndian::read_int(&buf, nbytes));
        }
    }
}

#[test]
fn int128_round_trip_every_width() {
    for nbytes in 1..=16usize {
        let (lo, hi) = if nbytes == 16 {
            (i128::MIN, i128::MAX)
        } else {
            let half = 1i128 << (8 * nbytes - 1);
            (-half, half - 1)
        };
        for v in [lo, -1, 0, 1, hi] {
            let mut buf = [0u8; 16];
            BigEndian::write_int128(&mut buf, v, nbytes);
            assert_eq!(v, BigEndian::read_int128(&buf, nbytes));
            LittleEndian::write_int128(&mut buf, v, nbytes);
            assert_eq!(v, LittleEndian::read_int128(&buf, nbytes));
        }
    }
}

#[test]
fn uint_five_byte_packing() {
    let mut buf = [0u8; 5];
    LittleEndian::write_uint(&mut buf, 0x0102030405, 5);
    assert_eq!(buf, [5, 4, 3, 2, 1]);
    assert_eq!(0x0102030405, LittleEndian::read_uint(&buf, 5));
    BigEndian::write_uint(&mut buf, 0x0102030405, 5);
    assert_eq!(buf, [1, 2, 3, 4, 5]);
    assert_eq!(0x0102030405, BigEndian::read_uint(&buf, 5));
}

#[test]
fn orderings_differ_on_multibyte_values() {
    let mut be = [0u8; 4];
    let mut le = [0u8; 4];
    BigEndian::write_u32(&mut be, 0x01020304);
    LittleEndian::write_u32(&mut le, 0x01020304);
    assert_ne!(be, le);
    assert_eq!(be, [1, 2, 3, 4]);
    assert_eq!(le, [4, 3, 2, 1]);
}

#[test]
fn orderings_agree_on_palindromes() {
    let mut be = [0u8; 2];
    let mut le = [0u8; 2];
    BigEndian::write_u16(&mut be, 0x0707);
    LittleEndian::write_u16(&mut le, 0x0707);
    assert_eq!(be, le);
}

#[test]
fn network_endian_is_big_endian() {
    let mut buf = [0u8; 2];
    BigEndian::write_i16(&mut buf, -50_000i32 as i16);
    assert_eq!(-50_000i32 as i16, NetworkEndian::read_i16(&buf));
}

#[test]
fn native_endian_round_trip() {
    let mut buf = [0u8; 4];
    NativeEndian::write_u32(&mut buf, 0xDEADBEEF);
    assert_eq!(0xDEADBEEF, NativeEndian::read_u32(&buf));
}

#[test]
fn reads_use_only_the_prefix() {
    let buf = [0xABu8, 0xCD, 0xEF, 0x01, 0x02, 0x03, 0x04, 0x05, 0x06, 0x07];
    assert_eq!(0xABCD, BigEndian::read_u16(&buf));
    assert_eq!(0xCDAB, LittleEndian::read_u16(&buf));
    assert_eq!(0xABCDEF, BigEndian::read_uint(&buf, 3));
}

#[test]
fn writes_leave_the_tail_alone() {
    let mut buf = [0x11u8; 6];
    BigEndian::write_u16(&mut buf, 0x0203);
    assert_eq!(buf, [0x02, 0x03, 0x11, 0x11, 0x11, 0x11]);
    LittleEndian::write_uint(&mut buf, 0x99, 1);
    assert_eq!(buf, [0x99, 0x03, 0x11, 0x11, 0x11, 0x11]);
}

use byteorder::BigEndian;
use byteorder::ByteOrder;
use byteorder::LittleEndian;

#[test]
fn read_snan() {
    let sbits = BigEndian::read_f32_bits(&[0xFF, 0x80, 0x00, 0x01]);
    assert_eq!(sbits, 0xFFC00001);
    assert_eq!(f32::from_bits(sbits).classify(), std::num::FpCategory::Nan);

    let dbits = BigEndian::read_f64_bits(&[0x7F, 0xF0, 0, 0, 0, 0, 0, 0x01]);
    assert_eq!(dbits, 0x7FF8000000000001);
    assert_eq!(f64::from_bits(dbits).classify(), std::num::FpCategory::Nan);

    let bbits = BigEndian::read_float_bits(&[0x7F, 0xF0, 0, 0, 0, 0, 0, 0x01], 8);
    assert_eq!(bbits, 0x7FF8000000000001);
    assert_eq!(f64::from_bits(bbits).classify(), std::num::FpCategory::Nan);

    let lbits = LittleEndian::read_float_bits(&[0x01, 0, 0, 0, 0, 0, 0xF0, 0xFF], 8);
    assert_eq!(lbits, 0xFFF8000000000001);
    assert_eq!(f64::from_bits(lbits).classify(), std::num::FpCategory::Nan);
}

#[test]
fn f32_round_trip() {
    let e = 2.71828f32;
    let mut buf = [0u8; 4];
    LittleEndian::write_u32(&mut buf, e.to_bits());
    assert_eq!(e, f32::from_bits(LittleEndian::read_f32_bits(&buf)));
    BigEndian::write_u32(&mut buf, e.to_bits());
    assert_eq!(e, f32::from_bits(BigEndian::read_f32_bits(&buf)));
}

#[test]
fn f64_round_trip() {
    let phi = 1.6180339887f64;
    let mut buf = [0u8; 8];
    LittleEndian::write_u64(&mut buf, phi.to_bits());
    assert_eq!(phi, f64::from_bits(LittleEndian::read_f64_bits(&buf)));
    BigEndian::write_u64(&mut buf, phi.to_bits());
    assert_eq!(phi, f64::from_bits(BigEndian::read_f64_bits(&buf)));
}

#[test]
fn quiet_nan_reads_back_bit_identical() {
    let q: u32 = 0xFFC00001;
    let mut buf = [0u8; 4];
    BigEndian::write_u32(&mut buf, q);
    assert_eq!(q, BigEndian::read_f32_bits(&buf));
    LittleEndian::write_u32(&mut buf, q);
    assert_eq!(q, LittleEndian::read_f32_bits(&buf));

    let q64: u64 = 0x7FF8000000000001;
    let mut buf8 = [0u8; 8];
    BigEndian::write_u64(&mut buf8, q64);
    assert_eq!(q64, BigEndian::read_f64_bits(&buf8));
    LittleEndian::write_u64(&mut buf8, q64);
    assert_eq!(q64, LittleEndian::read_f64_bits(&buf8));
}

#[test]
fn infinity_is_not_touched() {
    let mut buf = [0u8; 4];
    BigEndian::write_u32(&mut buf, 0x7F800000);
    assert_eq!(0x7F800000, BigEndian::read_f32_bits(&buf));
    let mut buf8 = [0u8; 8];
    LittleEndian::write_u64(&mut buf8, 0xFFF0000000000000);
    assert_eq!(0xFFF0000000000000, LittleEndian::read_f64_bits(&buf8));
}

#[test]
fn read_float_fills_low_bytes_with_zero() {
    let buf = [0xF0u8, 0x3F];
    assert_eq!(1.0, f64::from_bits(LittleEndian::read_float_bits(&buf, 2)));
    let buf = [0x3Fu8, 0xF0];
    assert_eq!(1.0, f64::from_bits(BigEndian::read_float_bits(&buf, 2)));
}

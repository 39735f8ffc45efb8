//! Tests for the fixed-width big-endian numeric codec.

use nbt::codec::i16_from_be_bytes;
use nbt::codec::i16_to_be_bytes;
use nbt::codec::i32_from_be_bytes;
use nbt::codec::i32_to_be_bytes;
use nbt::codec::i64_from_be_bytes;
use nbt::codec::i64_to_be_bytes;
use nbt::codec::i8_from_be_bytes;
use nbt::codec::i8_to_be_bytes;
use nbt::codec::u16_from_be_bytes;
use nbt::codec::u16_to_be_bytes;
use nbt::codec::u32_from_be_bytes;
use nbt::codec::u32_to_be_bytes;
use nbt::codec::u64_from_be_bytes;
use nbt::codec::u64_to_be_bytes;

#[test]
fn test_encode_decode() {
    assert_eq!(
        Some(0x1A2B_i16),
        i16_from_be_bytes(&i16_to_be_bytes(0x1A2B_i16))
    );
    let bits = (-3.14_f32).to_bits();
    assert_eq!(
        Some(-3.14_f32),
        u32_from_be_bytes(&u32_to_be_bytes(bits)).map(f32::from_bits)
    );
}

#[test]
fn big_endian_layout_is_most_significant_first() {
    assert_eq!(i8_to_be_bytes(-1), vec![0xff]);
    assert_eq!(i16_to_be_bytes(0x0102), vec![0x01, 0x02]);
    assert_eq!(i32_to_be_bytes(0x01020304), vec![0x01, 0x02, 0x03, 0x04]);
    assert_eq!(
        i64_to_be_bytes(0x0102030405060708),
        vec![0x01, 0x02, 0x03, 0x04, 0x05, 0x06, 0x07, 0x08]
    );
    assert_eq!(u16_to_be_bytes(0xBEEF), vec![0xBE, 0xEF]);
    assert_eq!(i32_to_be_bytes(-2), vec![0xff, 0xff, 0xff, 0xfe]);
}

#[test]
fn every_width_round_trips() {
    for x in [i8::MIN, -1, 0, 1, i8::MAX] {
        assert_eq!(Some(x), i8_from_be_bytes(&i8_to_be_bytes(x)));
    }
    for x in [i16::MIN, -1, 0, 1, i16::MAX] {
        assert_eq!(Some(x), i16_from_be_bytes(&i16_to_be_bytes(x)));
    }
    for x in [i32::MIN, -1, 0, 1, i32::MAX] {
        assert_eq!(Some(x), i32_from_be_bytes(&i32_to_be_bytes(x)));
    }
    for x in [i64::MIN, -1, 0, 1, i64::MAX] {
        assert_eq!(Some(x), i64_from_be_bytes(&i64_to_be_bytes(x)));
    }
    for x in [0_u64, 1, u64::MAX] {
        assert_eq!(Some(x), u64_from_be_bytes(&u64_to_be_bytes(x)));
    }
}

#[test]
fn float_bit_patterns_round_trip_exactly() {
    for x in [0.0_f32, -0.0, 1.5, f32::NAN, f32::INFINITY, f32::MIN_POSITIVE] {
        let bits = x.to_bits();
        assert_eq!(Some(bits), u32_from_be_bytes(&u32_to_be_bytes(bits)));
    }
    let neg_zero = (-0.0_f64).to_bits();
    assert_eq!(Some(neg_zero), u64_from_be_bytes(&u64_to_be_bytes(neg_zero)));
    let nan = f64::NAN.to_bits();
    assert_eq!(Some(nan), u64_from_be_bytes(&u64_to_be_bytes(nan)));
}

#[test]
fn wrong_length_is_always_rejected() {
    assert_eq!(None, i8_from_be_bytes(&[]));
    assert_eq!(None, i8_from_be_bytes(&[1, 2]));
    assert_eq!(None, i16_from_be_bytes(&[1]));
    assert_eq!(None, i16_from_be_bytes(&[1, 2, 3]));
    assert_eq!(None, i32_from_be_bytes(&[1, 2, 3]));
    assert_eq!(None, i32_from_be_bytes(&[1, 2, 3, 4, 5]));
    assert_eq!(None, i64_from_be_bytes(&[1, 2, 3, 4, 5, 6, 7]));
    assert_eq!(None, u16_from_be_bytes(&[]));
    assert_eq!(None, u32_from_be_bytes(&[0; 3]));
    assert_eq!(None, u64_from_be_bytes(&[0; 9]));
}

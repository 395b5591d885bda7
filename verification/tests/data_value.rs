use clif_interp::data_value::{
    unsigned, BinaryOp, DataValue, ValueConversionKind, ValueError,
};
use clif_interp::data_value::ValueConversionKind::{Exact, SignExtend, Truncate, ZeroExtend};
use clif_interp::ir::types::Type;

#[test]
fn constructors_take_their_kind_of_type_only() {
    assert_eq!(DataValue::integer(-1, Type::I8), Ok(DataValue::I8(-1)));
    assert_eq!(DataValue::integer(0x1_0000, Type::I16), Ok(DataValue::I16(0)));
    assert_eq!(DataValue::integer(1, Type::I64), Ok(DataValue::I64(1)));
    assert_eq!(DataValue::integer(1, Type::B8), Err(ValueError::InvalidValue(Type::B8)));
    assert_eq!(DataValue::bool(true, Type::B32), Ok(DataValue::B(true)));
    assert_eq!(DataValue::bool(true, Type::I32), Err(ValueError::InvalidValue(Type::I32)));
    assert_eq!(DataValue::float(0x1_0000_0002, Type::F32), Ok(DataValue::F32(2)));
    assert_eq!(DataValue::float(0x1_0000_0002, Type::F64), Ok(DataValue::F64(0x1_0000_0002)));
    assert_eq!(DataValue::float(0, Type::I32), Err(ValueError::InvalidValue(Type::I32)));
    assert_eq!(DataValue::vector(5, Type::I8X16), Ok(DataValue::V128(5)));
    assert_eq!(DataValue::vector(5, Type::I64), Err(ValueError::InvalidValue(Type::I64)));
}

#[test]
fn types_of_values() {
    assert_eq!(DataValue::B(true).ty(), Type::B8);
    assert_eq!(DataValue::I8(0).ty(), Type::I8);
    assert_eq!(DataValue::I16(0).ty(), Type::I16);
    assert_eq!(DataValue::I32(0).ty(), Type::I32);
    assert_eq!(DataValue::I64(0).ty(), Type::I64);
    assert_eq!(DataValue::F32(0).ty(), Type::F32);
    assert_eq!(DataValue::F64(0).ty(), Type::F64);
    assert_eq!(DataValue::V128(0).ty(), Type::I8X16);
    assert!(Type::I16.is_int() && !Type::B1.is_int());
    assert!(Type::B1.is_bool() && !Type::I8.is_bool());
    assert!(Type::F64.is_float() && !Type::I64.is_float());
    assert!(Type::I8X16.is_vector() && !Type::I8.is_vector());
    assert_eq!(Type::B1.bits(), 1);
    assert_eq!(Type::I16.bits(), 16);
    assert_eq!(Type::F32.bits(), 32);
    assert_eq!(Type::I8X16.bits(), 128);
    assert_eq!(Type::Invalid.bits(), 0);
}

#[test]
fn arithmetic_wraps() {
    assert_eq!(DataValue::I8(127).add(DataValue::I8(1)), Ok(DataValue::I8(-128)));
    assert_eq!(DataValue::I8(-128).sub(DataValue::I8(1)), Ok(DataValue::I8(127)));
    assert_eq!(DataValue::I16(256).mul(DataValue::I16(256)), Ok(DataValue::I16(0)));
    assert_eq!(DataValue::I64(i64::MAX).add(DataValue::I64(1)), Ok(DataValue::I64(i64::MIN)));
    assert_eq!(DataValue::I32(3).add(DataValue::I32(4)), Ok(DataValue::I32(7)));
    assert_eq!(DataValue::I32(3).add(DataValue::I64(4)), Err(ValueError::TypeMismatch));
    assert_eq!(DataValue::F32(3).add(DataValue::F32(4)), Err(ValueError::InvalidValue(Type::F32)));
    assert_eq!(
        DataValue::V128(3).xor(DataValue::V128(4)),
        Err(ValueError::InvalidValue(Type::I8X16))
    );
}

#[test]
fn division_truncates_and_fails_loudly() {
    assert_eq!(DataValue::I32(-7).div(DataValue::I32(2)), Ok(DataValue::I32(-3)));
    assert_eq!(DataValue::I32(-7).rem(DataValue::I32(2)), Ok(DataValue::I32(-1)));
    assert_eq!(DataValue::I32(7).div(DataValue::I32(-2)), Ok(DataValue::I32(-3)));
    assert_eq!(DataValue::I32(7).rem(DataValue::I32(-2)), Ok(DataValue::I32(1)));
    assert_eq!(DataValue::I32(7).div(DataValue::I32(0)), Err(ValueError::DivisionByZero));
    assert_eq!(DataValue::I32(7).rem(DataValue::I32(0)), Err(ValueError::DivisionByZero));
    assert_eq!(DataValue::I8(-128).div(DataValue::I8(-1)), Err(ValueError::IntegerOverflow));
    assert_eq!(
        DataValue::I64(i64::MIN).div(DataValue::I64(-1)),
        Err(ValueError::IntegerOverflow)
    );
    assert_eq!(DataValue::I8(-128).rem(DataValue::I8(-1)), Ok(DataValue::I8(0)));
    assert_eq!(DataValue::I64(i64::MIN).rem(DataValue::I64(-1)), Ok(DataValue::I64(0)));
}

#[test]
fn shifts_and_rotations_stay_in_the_width() {
    assert_eq!(DataValue::I8(1).shl(DataValue::I8(7)), Ok(DataValue::I8(-128)));
    assert_eq!(DataValue::I8(1).shl(DataValue::I8(8)), Ok(DataValue::I8(1)));
    assert_eq!(DataValue::I8(-128).ushr(DataValue::I8(7)), Ok(DataValue::I8(1)));
    assert_eq!(DataValue::I8(-128).ishr(DataValue::I8(7)), Ok(DataValue::I8(-1)));
    assert_eq!(DataValue::I16(-2).ushr(DataValue::I16(1)), Ok(DataValue::I16(0x7fff)));
    assert_eq!(DataValue::I8(-127).rotl(DataValue::I8(1)), Ok(DataValue::I8(3)));
    assert_eq!(DataValue::I8(3).rotr(DataValue::I8(1)), Ok(DataValue::I8(-127)));
    assert_eq!(DataValue::I8(3).rotr(DataValue::I8(0)), Ok(DataValue::I8(3)));
    assert_eq!(
        DataValue::I64(1).rotr(DataValue::I64(1)),
        Ok(DataValue::I64(i64::MIN))
    );
    assert_eq!(
        DataValue::I32(0x1234_5678).rotl(DataValue::I32(8)),
        Ok(DataValue::I32(0x3456_7812))
    );
    assert_eq!(DataValue::binary(BinaryOp::Shl, DataValue::I32(3), DataValue::I32(33)),
        Ok(DataValue::I32(6)));
}

#[test]
fn bit_operations() {
    assert_eq!(DataValue::I8(0b1100).and(DataValue::I8(0b1010)), Ok(DataValue::I8(0b1000)));
    assert_eq!(DataValue::I8(0b1100).or(DataValue::I8(0b1010)), Ok(DataValue::I8(0b1110)));
    assert_eq!(DataValue::I8(0b1100).xor(DataValue::I8(0b1010)), Ok(DataValue::I8(0b0110)));
    assert_eq!(DataValue::I8(-1).and(DataValue::I8(5)), Ok(DataValue::I8(5)));
    assert_eq!(DataValue::B(true).and(DataValue::B(false)), Ok(DataValue::B(false)));
    assert_eq!(DataValue::B(true).or(DataValue::B(false)), Ok(DataValue::B(true)));
    assert_eq!(DataValue::B(true).xor(DataValue::B(true)), Ok(DataValue::B(false)));
    assert_eq!(DataValue::B(true).add(DataValue::B(true)), Err(ValueError::InvalidValue(Type::B8)));
    assert_eq!(DataValue::I32(5).not(), Ok(DataValue::I32(-6)));
    assert_eq!(DataValue::B(true).not(), Ok(DataValue::B(false)));
    assert_eq!(DataValue::F64(0).not(), Err(ValueError::InvalidValue(Type::F64)));
    assert_eq!(unsigned(-1, Type::I8), 255);
    assert_eq!(unsigned(-1, Type::I32), 0xffff_ffff);
    assert_eq!(unsigned(-1, Type::I64), u64::MAX);
}

#[test]
fn conversions() {
    assert_eq!(DataValue::I64(42).convert(Exact(Type::I8)), Ok(DataValue::I8(42)));
    assert_eq!(
        DataValue::I64(300).convert(Exact(Type::I8)),
        Err(ValueError::InvalidValue(Type::I8))
    );
    assert_eq!(DataValue::I8(-1).convert(Exact(Type::I64)), Ok(DataValue::I64(-1)));
    assert_eq!(DataValue::B(true).convert(Exact(Type::B1)), Ok(DataValue::B(true)));
    assert_eq!(
        DataValue::B(true).convert(Exact(Type::I8)),
        Err(ValueError::InvalidValue(Type::I8))
    );
    assert_eq!(DataValue::F32(7).convert(Exact(Type::F32)), Ok(DataValue::F32(7)));
    assert_eq!(
        DataValue::F32(7).convert(Exact(Type::F64)),
        Err(ValueError::InvalidValue(Type::F64))
    );
    assert_eq!(DataValue::I32(0x1ff).convert(Truncate(Type::I8)), Ok(DataValue::I8(-1)));
    assert_eq!(
        DataValue::I8(1).convert(Truncate(Type::I32)),
        Err(ValueError::InvalidValue(Type::I32))
    );
    assert_eq!(DataValue::I8(-1).convert(ZeroExtend(Type::I32)), Ok(DataValue::I32(255)));
    assert_eq!(DataValue::I8(-1).convert(SignExtend(Type::I32)), Ok(DataValue::I32(-1)));
    assert_eq!(
        DataValue::I32(-1).convert(ZeroExtend(Type::I64)),
        Ok(DataValue::I64(0xffff_ffff))
    );
    assert_eq!(
        DataValue::I32(1).convert(SignExtend(Type::I8)),
        Err(ValueError::InvalidValue(Type::I8))
    );
    assert_eq!(
        DataValue::B(true).convert(ZeroExtend(Type::I8)),
        Err(ValueError::InvalidValue(Type::I8))
    );
    assert_eq!(DataValue::I16(5).into_int(), Ok(5));
    assert_eq!(DataValue::B(true).into_int(), Err(ValueError::InvalidValue(Type::B8)));
    assert_eq!(DataValue::B(true).into_bool(), Ok(true));
    assert_eq!(DataValue::I8(1).into_bool(), Err(ValueError::InvalidValue(Type::I8)));
    assert_eq!(DataValue::F32(9).into_float(), Ok(9));
    assert_eq!(DataValue::I8(1).into_float(), Err(ValueError::InvalidValue(Type::I8)));
}

fn f32v(x: f32) -> DataValue {
    DataValue::F32(x.to_bits())
}

fn f64v(x: f64) -> DataValue {
    DataValue::F64(x.to_bits())
}

#[test]
fn comparisons() {
    assert_eq!(DataValue::I32(3).eq(DataValue::I32(3)), Ok(true));
    assert_eq!(DataValue::I32(3).eq(DataValue::I32(4)), Ok(false));
    assert_eq!(DataValue::I32(3).eq(DataValue::I8(3)), Err(ValueError::TypeMismatch));
    assert_eq!(DataValue::I32(-1).gt(DataValue::I32(-2)), Ok(true));
    assert_eq!(DataValue::I32(-1).gt(DataValue::I32(0)), Ok(false));
    assert_eq!(DataValue::B(true).gt(DataValue::B(false)), Ok(true));
    assert_eq!(DataValue::V128(1).gt(DataValue::V128(0)), Err(ValueError::InvalidValue(Type::I8X16)));
    let values = [-2.5f32, -0.0, 0.0, 1.0, f32::INFINITY, f32::NEG_INFINITY, f32::NAN, 1e-40];
    for a in values {
        for b in values {
            assert_eq!(f32v(a).eq(f32v(b)), Ok(a == b), "{} == {}", a, b);
            assert_eq!(f32v(a).gt(f32v(b)), Ok(a > b), "{} > {}", a, b);
            assert_eq!(f32v(a).uno(f32v(b)), Ok(a.is_nan() || b.is_nan()));
            let (x, y) = (a as f64, b as f64);
            assert_eq!(f64v(x).eq(f64v(y)), Ok(x == y));
            assert_eq!(f64v(x).gt(f64v(y)), Ok(x > y));
            assert_eq!(f64v(x).uno(f64v(y)), Ok(x.is_nan() || y.is_nan()));
        }
        assert_eq!(f32v(a).is_nan(), Ok(a.is_nan()));
        assert_eq!(f64v(a as f64).is_nan(), Ok(a.is_nan()));
    }
    assert_eq!(DataValue::I32(1).uno(DataValue::I32(1)), Err(ValueError::InvalidValue(Type::I32)));
    assert_eq!(DataValue::I32(1).is_nan(), Err(ValueError::InvalidValue(Type::I32)));
}

/// Bit patterns at the corners of the format (zeros, subnormals, the
/// largest and smallest normals, infinities, quiet and signalling NaNs, each
/// with both signs) and a sweep of others.
fn patterns32() -> Vec<u32> {
    let mut out = Vec::new();
    for sign in [0u32, 0x8000_0000] {
        for exponent in [0u32, 1, 2, 126, 127, 128, 253, 254, 255] {
            for mantissa in [0u32, 1, 2, 0x3f_ffff, 0x40_0000, 0x40_0001, 0x7f_fffe, 0x7f_ffff] {
                out.push(sign | (exponent << 23) | mantissa);
            }
        }
    }
    let mut x: u32 = 0x9e37_79b9;
    for _ in 0..64 {
        x = x.wrapping_mul(1_664_525).wrapping_add(1_013_904_223);
        out.push(x);
    }
    out
}

fn patterns64() -> Vec<u64> {
    let mut out = Vec::new();
    for sign in [0u64, 0x8000_0000_0000_0000] {
        for exponent in [0u64, 1, 2, 1022, 1023, 1024, 2045, 2046, 2047] {
            for mantissa in [
                0u64,
                1,
                2,
                0x7_ffff_ffff_ffff,
                0x8_0000_0000_0000,
                0x8_0000_0000_0001,
                0xf_ffff_ffff_fffe,
                0xf_ffff_ffff_ffff,
            ] {
                out.push(sign | (exponent << 52) | mantissa);
            }
        }
    }
    let mut x: u64 = 0x9e37_79b9_7f4a_7c15;
    for _ in 0..64 {
        x = x.wrapping_mul(6_364_136_223_846_793_005).wrapping_add(1_442_695_040_888_963_407);
        out.push(x);
    }
    out
}

#[test]
fn float_comparisons_are_those_of_the_format() {
    let singles = patterns32();
    for &a in &singles {
        let x = f32::from_bits(a);
        assert_eq!(DataValue::F32(a).is_nan(), Ok(x.is_nan()), "{:#x}", a);
        for &b in &singles {
            let y = f32::from_bits(b);
            assert_eq!(DataValue::F32(a).eq(DataValue::F32(b)), Ok(x == y), "{:#x} {:#x}", a, b);
            assert_eq!(DataValue::F32(a).gt(DataValue::F32(b)), Ok(x > y), "{:#x} {:#x}", a, b);
            assert_eq!(
                DataValue::F32(a).uno(DataValue::F32(b)),
                Ok(x.is_nan() || y.is_nan()),
                "{:#x} {:#x}",
                a,
                b
            );
        }
    }
    let doubles = patterns64();
    for &a in &doubles {
        let x = f64::from_bits(a);
        assert_eq!(DataValue::F64(a).is_nan(), Ok(x.is_nan()), "{:#x}", a);
        for &b in &doubles {
            let y = f64::from_bits(b);
            assert_eq!(DataValue::F64(a).eq(DataValue::F64(b)), Ok(x == y), "{:#x} {:#x}", a, b);
            assert_eq!(DataValue::F64(a).gt(DataValue::F64(b)), Ok(x > y), "{:#x} {:#x}", a, b);
            assert_eq!(
                DataValue::F64(a).uno(DataValue::F64(b)),
                Ok(x.is_nan() || y.is_nan()),
                "{:#x} {:#x}",
                a,
                b
            );
        }
    }
}

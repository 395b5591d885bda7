//! Typed scalar values and the operations on them.
//!
//! A float is held by its IEEE-754 bits and a 128-bit vector by its sixteen
//! bytes taken as one little-endian number, so that every value is a plain
//! integer or a boolean.
use crate::ir::types::Type;
use vstd::prelude::*;

verus! {

/// A value together with its type.
#[derive(Clone, Copy, PartialEq, Eq, Structural, Debug, Hash)]
pub enum DataValue {
    B(bool),
    I8(i8),
    I16(i16),
    I32(i32),
    I64(i64),
    /// The bits of a 32-bit float.
    F32(u32),
    /// The bits of a 64-bit float.
    F64(u64),
    /// The sixteen bytes of a vector, the first one least significant.
    V128(u128),
}

/// Why an immediate or a value could not be cast.
#[derive(Clone, Copy, PartialEq, Eq, Structural, Debug, Hash)]
pub enum DataValueCastFailure {
    /// A value of the first type was asked for as one of the second.
    TryInto(Type, Type),
    /// The immediate cannot be a value of the type.
    FromImm64(i64, Type),
}

/// Why an operation on values failed.
#[derive(Clone, Copy, PartialEq, Eq, Structural, Debug, Hash)]
pub enum ValueError {
    /// The operands are not of one type.
    TypeMismatch,
    /// The operation has no meaning for a value of this type.
    InvalidValue(Type),
    DivisionByZero,
    /// The exact result does not fit the type.
    IntegerOverflow,
}

/// How [`DataValue::convert`] changes the type of a value.
#[derive(Clone, Copy, PartialEq, Eq, Structural, Debug, Hash)]
pub enum ValueConversionKind {
    /// Keep the value as it is; fails where the type cannot hold it.
    Exact(Type),
    /// Keep the low bits.
    Truncate(Type),
    /// Widen with zero bits.
    ZeroExtend(Type),
    /// Widen with copies of the sign bit.
    SignExtend(Type),
}

/// The operations on two values.
#[derive(Clone, Copy, PartialEq, Eq, Structural, Debug, Hash)]
pub enum BinaryOp {
    Add,
    Sub,
    Mul,
    Div,
    Rem,
    Shl,
    Ushr,
    Ishr,
    Rotl,
    Rotr,
    And,
    Or,
    Xor,
}

/// The bits of an integer type that are set in a 64-bit word.
pub open spec fn spec_mask(ty: Type) -> u64 {
    match ty {
        Type::I8 => 0xffu64,
        Type::I16 => 0xffffu64,
        Type::I32 => 0xffff_ffffu64,
        _ => 0xffff_ffff_ffff_ffffu64,
    }
}

/// The integer of type `ty` that has the low bits of `n`; `None` where `ty`
/// is not an integer type.
pub open spec fn spec_int_of(n: i64, ty: Type) -> Option<DataValue> {
    match ty {
        Type::I8 => Some(DataValue::I8(n as i8)),
        Type::I16 => Some(DataValue::I16(n as i16)),
        Type::I32 => Some(DataValue::I32(n as i32)),
        Type::I64 => Some(DataValue::I64(n)),
        _ => None,
    }
}

/// The number that an integer value of type `ty` holds when its bits are
/// read without a sign.
pub open spec fn spec_unsigned(n: i64, ty: Type) -> u64 {
    (n as u64) & spec_mask(ty)
}

/// `u` turned left by `amt` places within the `bits` low bits.
pub open spec fn spec_rotate_left(u: u64, amt: u32, bits: u32, mask: u64) -> u64 {
    if amt == 0 || amt >= bits {
        u
    } else {
        ((u << amt) | (u >> ((bits - amt) as u32))) & mask
    }
}

/// The key by which non-NaN floats of `frac + exp` magnitude bits are
/// ordered: the magnitude, negated where the sign bit is set.
pub open spec fn spec_float_key(bits: u64, sign: u64) -> int {
    if bits & sign != 0 {
        -((bits & !sign) as int)
    } else {
        bits as int
    }
}

pub open spec fn spec_is_nan32(bits: u32) -> bool {
    bits & 0x7f80_0000u32 == 0x7f80_0000u32 && bits & 0x007f_ffffu32 != 0
}

pub open spec fn spec_is_nan64(bits: u64) -> bool {
    bits & 0x7ff0_0000_0000_0000u64 == 0x7ff0_0000_0000_0000u64 && bits
        & 0x000f_ffff_ffff_ffffu64 != 0
}

/// The number that an integer of type `ty` holds when its bits are read
/// without a sign.
pub fn unsigned(n: i64, ty: Type) -> (r: u64)
    ensures
        r == spec_unsigned(n, ty),
{
    (#[verifier::truncate] (n as u64)) & mask(ty)
}

fn mask(ty: Type) -> (r: u64)
    ensures
        r == spec_mask(ty),
{
    match ty {
        Type::I8 => 0xffu64,
        Type::I16 => 0xffffu64,
        Type::I32 => 0xffff_ffffu64,
        _ => 0xffff_ffff_ffff_ffffu64,
    }
}

fn rotate_left(u: u64, amt: u32, bits: u32, mask: u64) -> (r: u64)
    requires
        bits <= 64,
    ensures
        r == spec_rotate_left(u, amt, bits, mask),
{
    if amt == 0 || amt >= bits {
        u
    } else {
        ((u << amt) | (u >> (bits - amt))) & mask
    }
}

fn float_key(bits: u64, sign: u64) -> (r: i128)
    ensures
        r == spec_float_key(bits, sign),
{
    if bits & sign != 0 {
        let m: u64 = bits & !sign;
        -(m as i128)
    } else {
        bits as i128
    }
}

fn is_nan32(bits: u32) -> (r: bool)
    ensures
        r == spec_is_nan32(bits),
{
    bits & 0x7f80_0000u32 == 0x7f80_0000u32 && bits & 0x007f_ffffu32 != 0
}

fn is_nan64(bits: u64) -> (r: bool)
    ensures
        r == spec_is_nan64(bits),
{
    bits & 0x7ff0_0000_0000_0000u64 == 0x7ff0_0000_0000_0000u64 && bits
        & 0x000f_ffff_ffff_ffffu64 != 0
}

impl DataValue {
    /// The type of the value. A boolean has the type `B8` and a vector the
    /// type `I8X16`, whatever type it was made for.
    pub open spec fn spec_ty(self) -> Type {
        match self {
            DataValue::B(_) => Type::B8,
            DataValue::I8(_) => Type::I8,
            DataValue::I16(_) => Type::I16,
            DataValue::I32(_) => Type::I32,
            DataValue::I64(_) => Type::I64,
            DataValue::F32(_) => Type::F32,
            DataValue::F64(_) => Type::F64,
            DataValue::V128(_) => Type::I8X16,
        }
    }

    /// The number that an integer value holds, with its sign.
    pub open spec fn spec_int(self) -> Option<i64> {
        match self {
            DataValue::I8(n) => Some(n as i64),
            DataValue::I16(n) => Some(n as i64),
            DataValue::I32(n) => Some(n as i64),
            DataValue::I64(n) => Some(n),
            _ => None,
        }
    }

    pub open spec fn spec_is_int(self) -> bool {
        self.spec_int() is Some
    }

    /// What [`from_integer`](Self::from_integer) returns.
    pub open spec fn spec_from_integer(imm: i64, ty: Type) -> Result<
        DataValue,
        DataValueCastFailure,
    > {
        match spec_int_of(imm, ty) {
            Some(v) => Ok(v),
            None => Err(DataValueCastFailure::FromImm64(imm, ty)),
        }
    }

    /// What [`integer`](Self::integer) returns.
    pub open spec fn spec_make_int(n: i64, ty: Type) -> Result<DataValue, ValueError> {
        match spec_int_of(n, ty) {
            Some(v) => Ok(v),
            None => Err(ValueError::InvalidValue(ty)),
        }
    }

    /// What [`bool`](Self::bool) returns.
    pub open spec fn spec_make_bool(b: bool, ty: Type) -> Result<DataValue, ValueError> {
        if ty.spec_is_bool() {
            Ok(DataValue::B(b))
        } else {
            Err(ValueError::InvalidValue(ty))
        }
    }

    /// What [`float`](Self::float) returns.
    pub open spec fn spec_make_float(bits: u64, ty: Type) -> Result<DataValue, ValueError> {
        match ty {
            Type::F32 => Ok(DataValue::F32(bits as u32)),
            Type::F64 => Ok(DataValue::F64(bits)),
            _ => Err(ValueError::InvalidValue(ty)),
        }
    }

    /// What [`vector`](Self::vector) returns.
    pub open spec fn spec_make_vector(v: u128, ty: Type) -> Result<DataValue, ValueError> {
        if ty == Type::I8X16 {
            Ok(DataValue::V128(v))
        } else {
            Err(ValueError::InvalidValue(ty))
        }
    }

    /// What [`into_int`](Self::into_int) returns.
    pub open spec fn spec_into_int(self) -> Result<i64, ValueError> {
        match self.spec_int() {
            Some(n) => Ok(n),
            None => Err(ValueError::InvalidValue(self.spec_ty())),
        }
    }

    /// What [`into_bool`](Self::into_bool) returns.
    pub open spec fn spec_into_bool(self) -> Result<bool, ValueError> {
        match self {
            DataValue::B(b) => Ok(b),
            _ => Err(ValueError::InvalidValue(self.spec_ty())),
        }
    }

    /// What [`into_float`](Self::into_float) returns: the bits of the float,
    /// those of a 32-bit float in the low half.
    pub open spec fn spec_into_float(self) -> Result<u64, ValueError> {
        match self {
            DataValue::F32(b) => Ok(b as u64),
            DataValue::F64(b) => Ok(b),
            _ => Err(ValueError::InvalidValue(self.spec_ty())),
        }
    }

    /// What [`is_nan`](Self::is_nan) returns.
    pub open spec fn spec_is_nan(self) -> Result<bool, ValueError> {
        match self {
            DataValue::F32(b) => Ok(spec_is_nan32(b)),
            DataValue::F64(b) => Ok(spec_is_nan64(b)),
            _ => Err(ValueError::InvalidValue(self.spec_ty())),
        }
    }

    /// What [`convert`](Self::convert) returns.
    pub open spec fn spec_convert(self, kind: ValueConversionKind) -> Result<
        DataValue,
        ValueError,
    > {
        match kind {
            ValueConversionKind::Exact(ty) => match self {
                DataValue::B(b) => Self::spec_make_bool(b, ty),
                DataValue::F32(_) | DataValue::F64(_) | DataValue::V128(_) => if self.spec_ty()
                    == ty {
                    Ok(self)
                } else {
                    Err(ValueError::InvalidValue(ty))
                },
                _ => match spec_int_of(self.spec_int().unwrap(), ty) {
                    Some(v) => if v.spec_int() == self.spec_int() {
                        Ok(v)
                    } else {
                        Err(ValueError::InvalidValue(ty))
                    },
                    None => Err(ValueError::InvalidValue(ty)),
                },
            },
            ValueConversionKind::Truncate(ty) => if self.spec_is_int() && ty.spec_is_int()
                && ty.spec_bits() <= self.spec_ty().spec_bits() {
                Ok(spec_int_of(self.spec_int().unwrap(), ty).unwrap())
            } else {
                Err(ValueError::InvalidValue(ty))
            },
            ValueConversionKind::ZeroExtend(ty) => if self.spec_is_int() && ty.spec_is_int()
                && ty.spec_bits() >= self.spec_ty().spec_bits() {
                Ok(
                    spec_int_of(
                        spec_unsigned(self.spec_int().unwrap(), self.spec_ty()) as i64,
                        ty,
                    ).unwrap(),
                )
            } else {
                Err(ValueError::InvalidValue(ty))
            },
            ValueConversionKind::SignExtend(ty) => if self.spec_is_int() && ty.spec_is_int()
                && ty.spec_bits() >= self.spec_ty().spec_bits() {
                Ok(spec_int_of(self.spec_int().unwrap(), ty).unwrap())
            } else {
                Err(ValueError::InvalidValue(ty))
            },
        }
    }

    /// The result of `op` on two integers of type `ty` that hold `a` and
    /// `b`, before it is cut to the type.
    pub open spec fn spec_int_op(op: BinaryOp, a: i64, b: i64, ty: Type) -> Result<
        i64,
        ValueError,
    > {
        let bits = ty.spec_bits();
        let amt = ((b as u64) % (bits as u64)) as u32;
        let ua = spec_unsigned(a, ty);
        match op {
            BinaryOp::Add => Ok(a.wrapping_add(b)),
            BinaryOp::Sub => Ok(a.wrapping_sub(b)),
            BinaryOp::Mul => Ok(a.wrapping_mul(b)),
            BinaryOp::Div => if b == 0 {
                Err(ValueError::DivisionByZero)
            } else {
                match a.checked_div(b) {
                    Some(q) => if spec_int_of(q, ty).unwrap().spec_int() == Some(q) {
                        Ok(q)
                    } else {
                        Err(ValueError::IntegerOverflow)
                    },
                    None => Err(ValueError::IntegerOverflow),
                }
            },
            BinaryOp::Rem => if b == 0 {
                Err(ValueError::DivisionByZero)
            } else {
                match a.checked_rem(b) {
                    Some(r) => Ok(r),
                    None => Ok(0i64),
                }
            },
            BinaryOp::Shl => Ok((ua << amt) as i64),
            BinaryOp::Ushr => Ok((ua >> amt) as i64),
            BinaryOp::Ishr => Ok(a >> amt),
            BinaryOp::Rotl => Ok(spec_rotate_left(ua, amt, bits, spec_mask(ty)) as i64),
            BinaryOp::Rotr => Ok(
                spec_rotate_left(
                    ua,
                    if amt == 0 {
                        0
                    } else {
                        (bits - amt) as u32
                    },
                    bits,
                    spec_mask(ty),
                ) as i64,
            ),
            BinaryOp::And => Ok(a & b),
            BinaryOp::Or => Ok(a | b),
            BinaryOp::Xor => Ok(a ^ b),
        }
    }

    /// What [`binary`](Self::binary) returns: booleans take `And`, `Or` and
    /// `Xor`; integers of one type take every operation; anything else is
    /// refused.
    pub open spec fn spec_binary(op: BinaryOp, a: DataValue, b: DataValue) -> Result<
        DataValue,
        ValueError,
    > {
        if a.spec_ty() != b.spec_ty() {
            Err(ValueError::TypeMismatch)
        } else {
            match (a, b) {
                (DataValue::B(x), DataValue::B(y)) => match op {
                    BinaryOp::And => Ok(DataValue::B(x && y)),
                    BinaryOp::Or => Ok(DataValue::B(x || y)),
                    BinaryOp::Xor => Ok(DataValue::B(x != y)),
                    _ => Err(ValueError::InvalidValue(a.spec_ty())),
                },
                _ => if a.spec_is_int() {
                    match Self::spec_int_op(
                        op,
                        a.spec_int().unwrap(),
                        b.spec_int().unwrap(),
                        a.spec_ty(),
                    ) {
                        Ok(n) => Ok(spec_int_of(n, a.spec_ty()).unwrap()),
                        Err(e) => Err(e),
                    }
                } else {
                    Err(ValueError::InvalidValue(a.spec_ty()))
                },
            }
        }
    }

    /// What [`not`](Self::not) returns.
    pub open spec fn spec_not(self) -> Result<DataValue, ValueError> {
        match self {
            DataValue::B(b) => Ok(DataValue::B(!b)),
            DataValue::I8(n) => Ok(DataValue::I8(!n)),
            DataValue::I16(n) => Ok(DataValue::I16(!n)),
            DataValue::I32(n) => Ok(DataValue::I32(!n)),
            DataValue::I64(n) => Ok(DataValue::I64(!n)),
            _ => Err(ValueError::InvalidValue(self.spec_ty())),
        }
    }

    /// What [`eq`](Self::eq) returns: floats compare as IEEE-754 says (a NaN
    /// equals nothing, the two zeros are equal), all else by content.
    pub open spec fn spec_eq(self, other: DataValue) -> Result<bool, ValueError> {
        if self.spec_ty() != other.spec_ty() {
            Err(ValueError::TypeMismatch)
        } else {
            match (self, other) {
                (DataValue::F32(x), DataValue::F32(y)) => Ok(
                    !spec_is_nan32(x) && !spec_is_nan32(y) && spec_float_key(
                        x as u64,
                        0x8000_0000u64,
                    ) == spec_float_key(y as u64, 0x8000_0000u64),
                ),
                (DataValue::F64(x), DataValue::F64(y)) => Ok(
                    !spec_is_nan64(x) && !spec_is_nan64(y) && spec_float_key(
                        x,
                        0x8000_0000_0000_0000u64,
                    ) == spec_float_key(y, 0x8000_0000_0000_0000u64),
                ),
                _ => Ok(self == other),
            }
        }
    }

    /// What [`gt`](Self::gt) returns: integers compare with their sign,
    /// floats as IEEE-754 says, `true` is above `false`.
    pub open spec fn spec_gt(self, other: DataValue) -> Result<bool, ValueError> {
        if self.spec_ty() != other.spec_ty() {
            Err(ValueError::TypeMismatch)
        } else {
            match (self, other) {
                (DataValue::B(x), DataValue::B(y)) => Ok(x && !y),
                (DataValue::F32(x), DataValue::F32(y)) => Ok(
                    !spec_is_nan32(x) && !spec_is_nan32(y) && spec_float_key(
                        x as u64,
                        0x8000_0000u64,
                    ) > spec_float_key(y as u64, 0x8000_0000u64),
                ),
                (DataValue::F64(x), DataValue::F64(y)) => Ok(
                    !spec_is_nan64(x) && !spec_is_nan64(y) && spec_float_key(
                        x,
                        0x8000_0000_0000_0000u64,
                    ) > spec_float_key(y, 0x8000_0000_0000_0000u64),
                ),
                (DataValue::V128(_), _) => Err(ValueError::InvalidValue(Type::I8X16)),
                _ => Ok(self.spec_int().unwrap() > other.spec_int().unwrap()),
            }
        }
    }

    /// What [`uno`](Self::uno) returns: whether two floats are unordered,
    /// that is, whether one of them is a NaN.
    pub open spec fn spec_uno(self, other: DataValue) -> Result<bool, ValueError> {
        if self.spec_ty() != other.spec_ty() {
            Err(ValueError::TypeMismatch)
        } else {
            match (self, other) {
                (DataValue::F32(x), DataValue::F32(y)) => Ok(spec_is_nan32(x) || spec_is_nan32(y)),
                (DataValue::F64(x), DataValue::F64(y)) => Ok(spec_is_nan64(x) || spec_is_nan64(y)),
                _ => Err(ValueError::InvalidValue(self.spec_ty())),
            }
        }
    }

    #[verifier::when_used_as_spec(spec_ty)]
    pub fn ty(self) -> (r: Type)
        ensures
            r == self.spec_ty(),
    {
        match self {
            DataValue::B(_) => Type::B8,
            DataValue::I8(_) => Type::I8,
            DataValue::I16(_) => Type::I16,
            DataValue::I32(_) => Type::I32,
            DataValue::I64(_) => Type::I64,
            DataValue::F32(_) => Type::F32,
            DataValue::F64(_) => Type::F64,
            DataValue::V128(_) => Type::I8X16,
        }
    }

    fn int_of(n: i64, ty: Type) -> (r: Option<DataValue>)
        ensures
            r == spec_int_of(n, ty),
    {
        match ty {
            Type::I8 => Some(DataValue::I8(#[verifier::truncate] (n as i8))),
            Type::I16 => Some(DataValue::I16(#[verifier::truncate] (n as i16))),
            Type::I32 => Some(DataValue::I32(#[verifier::truncate] (n as i32))),
            Type::I64 => Some(DataValue::I64(n)),
            _ => None,
        }
    }

    fn int_value(self) -> (r: Option<i64>)
        ensures
            r == self.spec_int(),
    {
        match self {
            DataValue::I8(n) => Some(n as i64),
            DataValue::I16(n) => Some(n as i64),
            DataValue::I32(n) => Some(n as i64),
            DataValue::I64(n) => Some(n),
            _ => None,
        }
    }

    /// Casts an immediate integer to the integer type `ty`, keeping its low
    /// bits; fails where `ty` is not an integer type.
    pub fn from_integer(imm: i64, ty: Type) -> (r: Result<DataValue, DataValueCastFailure>)
        ensures
            r == Self::spec_from_integer(imm, ty),
    {
        match Self::int_of(imm, ty) {
            Some(v) => Ok(v),
            None => Err(DataValueCastFailure::FromImm64(imm, ty)),
        }
    }

    /// The integer of type `ty` with the low bits of `n`.
    pub fn integer(n: i64, ty: Type) -> (r: Result<DataValue, ValueError>)
        ensures
            r == Self::spec_make_int(n, ty),
    {
        match Self::int_of(n, ty) {
            Some(v) => Ok(v),
            None => Err(ValueError::InvalidValue(ty)),
        }
    }

    /// The boolean `b`, for a boolean type.
    pub fn bool(b: bool, ty: Type) -> (r: Result<DataValue, ValueError>)
        ensures
            r == Self::spec_make_bool(b, ty),
    {
        if ty.is_bool() {
            Ok(DataValue::B(b))
        } else {
            Err(ValueError::InvalidValue(ty))
        }
    }

    /// The float of type `ty` with the given bits (the low half for `F32`).
    pub fn float(bits: u64, ty: Type) -> (r: Result<DataValue, ValueError>)
        ensures
            r == Self::spec_make_float(bits, ty),
    {
        match ty {
            Type::F32 => Ok(DataValue::F32(#[verifier::truncate] (bits as u32))),
            Type::F64 => Ok(DataValue::F64(bits)),
            _ => Err(ValueError::InvalidValue(ty)),
        }
    }

    /// The vector with the given bytes.
    pub fn vector(v: u128, ty: Type) -> (r: Result<DataValue, ValueError>)
        ensures
            r == Self::spec_make_vector(v, ty),
    {
        if ty == Type::I8X16 {
            Ok(DataValue::V128(v))
        } else {
            Err(ValueError::InvalidValue(ty))
        }
    }

    /// The number that an integer value holds.
    pub fn into_int(self) -> (r: Result<i64, ValueError>)
        ensures
            r == self.spec_into_int(),
    {
        match self.int_value() {
            Some(n) => Ok(n),
            None => Err(ValueError::InvalidValue(self.ty())),
        }
    }

    /// The boolean that a boolean value holds.
    pub fn into_bool(self) -> (r: Result<bool, ValueError>)
        ensures
            r == self.spec_into_bool(),
    {
        match self {
            DataValue::B(b) => Ok(b),
            _ => Err(ValueError::InvalidValue(self.ty())),
        }
    }

    /// The bits of a float value.
    pub fn into_float(self) -> (r: Result<u64, ValueError>)
        ensures
            r == self.spec_into_float(),
    {
        match self {
            DataValue::F32(b) => Ok(b as u64),
            DataValue::F64(b) => Ok(b),
            _ => Err(ValueError::InvalidValue(self.ty())),
        }
    }

    /// Whether a float value is a NaN.
    pub fn is_nan(self) -> (r: Result<bool, ValueError>)
        ensures
            r == self.spec_is_nan(),
    {
        match self {
            DataValue::F32(b) => Ok(is_nan32(b)),
            DataValue::F64(b) => Ok(is_nan64(b)),
            _ => Err(ValueError::InvalidValue(self.ty())),
        }
    }

    /// The failure of taking a value of this type for one of type `wanted`.
    pub open spec fn cast_failure(self, wanted: Type) -> DataValueCastFailure {
        DataValueCastFailure::TryInto(self.spec_ty(), wanted)
    }

    /// The boolean of a boolean value; any other value fails.
    pub fn try_into_bool(self) -> (r: Result<bool, DataValueCastFailure>)
        ensures
            r == match self {
                DataValue::B(b) => Ok(b),
                _ => Err(self.cast_failure(Type::B8)),
            },
    {
        match self {
            DataValue::B(b) => Ok(b),
            _ => Err(DataValueCastFailure::TryInto(self.ty(), Type::B8)),
        }
    }

    /// The number of an 8-bit integer; any other value fails.
    pub fn try_into_i8(self) -> (r: Result<i8, DataValueCastFailure>)
        ensures
            r == match self {
                DataValue::I8(n) => Ok(n),
                _ => Err(self.cast_failure(Type::I8)),
            },
    {
        match self {
            DataValue::I8(n) => Ok(n),
            _ => Err(DataValueCastFailure::TryInto(self.ty(), Type::I8)),
        }
    }

    /// The number of a 16-bit integer; any other value fails.
    pub fn try_into_i16(self) -> (r: Result<i16, DataValueCastFailure>)
        ensures
            r == match self {
                DataValue::I16(n) => Ok(n),
                _ => Err(self.cast_failure(Type::I16)),
            },
    {
        match self {
            DataValue::I16(n) => Ok(n),
            _ => Err(DataValueCastFailure::TryInto(self.ty(), Type::I16)),
        }
    }

    /// The number of a 32-bit integer; any other value fails.
    pub fn try_into_i32(self) -> (r: Result<i32, DataValueCastFailure>)
        ensures
            r == match self {
                DataValue::I32(n) => Ok(n),
                _ => Err(self.cast_failure(Type::I32)),
            },
    {
        match self {
            DataValue::I32(n) => Ok(n),
            _ => Err(DataValueCastFailure::TryInto(self.ty(), Type::I32)),
        }
    }

    /// The number of a 64-bit integer; any other value fails.
    pub fn try_into_i64(self) -> (r: Result<i64, DataValueCastFailure>)
        ensures
            r == match self {
                DataValue::I64(n) => Ok(n),
                _ => Err(self.cast_failure(Type::I64)),
            },
    {
        match self {
            DataValue::I64(n) => Ok(n),
            _ => Err(DataValueCastFailure::TryInto(self.ty(), Type::I64)),
        }
    }

    /// The bits of a 32-bit float; any other value fails.
    pub fn try_into_f32_bits(self) -> (r: Result<u32, DataValueCastFailure>)
        ensures
            r == match self {
                DataValue::F32(b) => Ok(b),
                _ => Err(self.cast_failure(Type::F32)),
            },
    {
        match self {
            DataValue::F32(b) => Ok(b),
            _ => Err(DataValueCastFailure::TryInto(self.ty(), Type::F32)),
        }
    }

    /// The bits of a 64-bit float; any other value fails.
    pub fn try_into_f64_bits(self) -> (r: Result<u64, DataValueCastFailure>)
        ensures
            r == match self {
                DataValue::F64(b) => Ok(b),
                _ => Err(self.cast_failure(Type::F64)),
            },
    {
        match self {
            DataValue::F64(b) => Ok(b),
            _ => Err(DataValueCastFailure::TryInto(self.ty(), Type::F64)),
        }
    }

    /// The bytes of a vector; any other value fails.
    pub fn try_into_vector(self) -> (r: Result<u128, DataValueCastFailure>)
        ensures
            r == match self {
                DataValue::V128(b) => Ok(b),
                _ => Err(self.cast_failure(Type::I8X16)),
            },
    {
        match self {
            DataValue::V128(b) => Ok(b),
            _ => Err(DataValueCastFailure::TryInto(self.ty(), Type::I8X16)),
        }
    }

    /// Changes the type of a value as `kind` says.
    pub fn convert(self, kind: ValueConversionKind) -> (r: Result<DataValue, ValueError>)
        ensures
            r == self.spec_convert(kind),
    {
        match kind {
            ValueConversionKind::Exact(ty) => match self {
                DataValue::B(b) => Self::bool(b, ty),
                DataValue::F32(_) | DataValue::F64(_) | DataValue::V128(_) => if self.ty() == ty {
                    Ok(self)
                } else {
                    Err(ValueError::InvalidValue(ty))
                },
                _ => {
                    let n = self.int_value().unwrap();
                    match Self::int_of(n, ty) {
                        Some(v) => if v.int_value() == Some(n) {
                            Ok(v)
                        } else {
                            Err(ValueError::InvalidValue(ty))
                        },
                        None => Err(ValueError::InvalidValue(ty)),
                    }
                },
            },
            ValueConversionKind::Truncate(ty) => match self.int_value() {
                Some(n) => if ty.is_int() && ty.bits() <= self.ty().bits() {
                    Ok(Self::int_of(n, ty).unwrap())
                } else {
                    Err(ValueError::InvalidValue(ty))
                },
                None => Err(ValueError::InvalidValue(ty)),
            },
            ValueConversionKind::ZeroExtend(ty) => match self.int_value() {
                Some(n) => if ty.is_int() && ty.bits() >= self.ty().bits() {
                    let u: u64 = (#[verifier::truncate] (n as u64)) & mask(self.ty());
                    Ok(Self::int_of(#[verifier::truncate] (u as i64), ty).unwrap())
                } else {
                    Err(ValueError::InvalidValue(ty))
                },
                None => Err(ValueError::InvalidValue(ty)),
            },
            ValueConversionKind::SignExtend(ty) => match self.int_value() {
                Some(n) => if ty.is_int() && ty.bits() >= self.ty().bits() {
                    Ok(Self::int_of(n, ty).unwrap())
                } else {
                    Err(ValueError::InvalidValue(ty))
                },
                None => Err(ValueError::InvalidValue(ty)),
            },
        }
    }

    fn int_op(op: BinaryOp, a: i64, b: i64, ty: Type) -> (r: Result<i64, ValueError>)
        requires
            ty.spec_is_int(),
        ensures
            r == Self::spec_int_op(op, a, b, ty),
    {
        let bits: u32 = ty.bits();
        let amt: u32 = #[verifier::truncate] (((#[verifier::truncate] (b as u64)) % (bits as u64)) as u32);
        let ua: u64 = (#[verifier::truncate] (a as u64)) & mask(ty);
        assert(amt < bits) by {
            assert(((b as u64) % (bits as u64)) < bits as u64);
        }
        match op {
            BinaryOp::Add => Ok(a.wrapping_add(b)),
            BinaryOp::Sub => Ok(a.wrapping_sub(b)),
            BinaryOp::Mul => Ok(a.wrapping_mul(b)),
            BinaryOp::Div => if b == 0 {
                Err(ValueError::DivisionByZero)
            } else {
                match a.checked_div(b) {
                    Some(q) => if Self::int_of(q, ty).unwrap().int_value() == Some(q) {
                        Ok(q)
                    } else {
                        Err(ValueError::IntegerOverflow)
                    },
                    None => Err(ValueError::IntegerOverflow),
                }
            },
            BinaryOp::Rem => if b == 0 {
                Err(ValueError::DivisionByZero)
            } else {
                match a.checked_rem(b) {
                    Some(r) => Ok(r),
                    None => Ok(0i64),
                }
            },
            BinaryOp::Shl => Ok(#[verifier::truncate] ((ua << amt) as i64)),
            BinaryOp::Ushr => Ok(#[verifier::truncate] ((ua >> amt) as i64)),
            BinaryOp::Ishr => Ok(a >> amt),
            BinaryOp::Rotl => Ok(#[verifier::truncate] (rotate_left(ua, amt, bits, mask(ty)) as i64)),
            BinaryOp::Rotr => Ok(
                #[verifier::truncate] (rotate_left(
                    ua,
                    if amt == 0 {
                        0
                    } else {
                        bits - amt
                    },
                    bits,
                    mask(ty),
                ) as i64),
            ),
            BinaryOp::And => Ok(a & b),
            BinaryOp::Or => Ok(a | b),
            BinaryOp::Xor => Ok(a ^ b),
        }
    }

    /// Applies `op` to two values of one type.
    pub fn binary(op: BinaryOp, a: DataValue, b: DataValue) -> (r: Result<DataValue, ValueError>)
        ensures
            r == Self::spec_binary(op, a, b),
    {
        if a.ty() != b.ty() {
            Err(ValueError::TypeMismatch)
        } else {
            match (a, b) {
                (DataValue::B(x), DataValue::B(y)) => match op {
                    BinaryOp::And => Ok(DataValue::B(x && y)),
                    BinaryOp::Or => Ok(DataValue::B(x || y)),
                    BinaryOp::Xor => Ok(DataValue::B(x != y)),
                    _ => Err(ValueError::InvalidValue(a.ty())),
                },
                _ => match (a.int_value(), b.int_value()) {
                    (Some(x), Some(y)) => match Self::int_op(op, x, y, a.ty()) {
                        Ok(n) => Ok(Self::int_of(n, a.ty()).unwrap()),
                        Err(e) => Err(e),
                    },
                    _ => Err(ValueError::InvalidValue(a.ty())),
                },
            }
        }
    }

    pub fn add(self, other: DataValue) -> (r: Result<DataValue, ValueError>)
        ensures
            r == Self::spec_binary(BinaryOp::Add, self, other),
    {
        Self::binary(BinaryOp::Add, self, other)
    }

    pub fn sub(self, other: DataValue) -> (r: Result<DataValue, ValueError>)
        ensures
            r == Self::spec_binary(BinaryOp::Sub, self, other),
    {
        Self::binary(BinaryOp::Sub, self, other)
    }

    pub fn mul(self, other: DataValue) -> (r: Result<DataValue, ValueError>)
        ensures
            r == Self::spec_binary(BinaryOp::Mul, self, other),
    {
        Self::binary(BinaryOp::Mul, self, other)
    }

    pub fn div(self, other: DataValue) -> (r: Result<DataValue, ValueError>)
        ensures
            r == Self::spec_binary(BinaryOp::Div, self, other),
    {
        Self::binary(BinaryOp::Div, self, other)
    }

    pub fn rem(self, other: DataValue) -> (r: Result<DataValue, ValueError>)
        ensures
            r == Self::spec_binary(BinaryOp::Rem, self, other),
    {
        Self::binary(BinaryOp::Rem, self, other)
    }

    pub fn shl(self, other: DataValue) -> (r: Result<DataValue, ValueError>)
        ensures
            r == Self::spec_binary(BinaryOp::Shl, self, other),
    {
        Self::binary(BinaryOp::Shl, self, other)
    }

    pub fn ushr(self, other: DataValue) -> (r: Result<DataValue, ValueError>)
        ensures
            r == Self::spec_binary(BinaryOp::Ushr, self, other),
    {
        Self::binary(BinaryOp::Ushr, self, other)
    }

    pub fn ishr(self, other: DataValue) -> (r: Result<DataValue, ValueError>)
        ensures
            r == Self::spec_binary(BinaryOp::Ishr, self, other),
    {
        Self::binary(BinaryOp::Ishr, self, other)
    }

    pub fn rotl(self, other: DataValue) -> (r: Result<DataValue, ValueError>)
        ensures
            r == Self::spec_binary(BinaryOp::Rotl, self, other),
    {
        Self::binary(BinaryOp::Rotl, self, other)
    }

    pub fn rotr(self, other: DataValue) -> (r: Result<DataValue, ValueError>)
        ensures
            r == Self::spec_binary(BinaryOp::Rotr, self, other),
    {
        Self::binary(BinaryOp::Rotr, self, other)
    }

    pub fn and(self, other: DataValue) -> (r: Result<DataValue, ValueError>)
        ensures
            r == Self::spec_binary(BinaryOp::And, self, other),
    {
        Self::binary(BinaryOp::And, self, other)
    }

    pub fn or(self, other: DataValue) -> (r: Result<DataValue, ValueError>)
        ensures
            r == Self::spec_binary(BinaryOp::Or, self, other),
    {
        Self::binary(BinaryOp::Or, self, other)
    }

    pub fn xor(self, other: DataValue) -> (r: Result<DataValue, ValueError>)
        ensures
            r == Self::spec_binary(BinaryOp::Xor, self, other),
    {
        Self::binary(BinaryOp::Xor, self, other)
    }

    /// The complement of an integer's bits, or of a boolean.
    pub fn not(self) -> (r: Result<DataValue, ValueError>)
        ensures
            r == self.spec_not(),
    {
        match self {
            DataValue::B(b) => Ok(DataValue::B(!b)),
            DataValue::I8(n) => Ok(DataValue::I8(!n)),
            DataValue::I16(n) => Ok(DataValue::I16(!n)),
            DataValue::I32(n) => Ok(DataValue::I32(!n)),
            DataValue::I64(n) => Ok(DataValue::I64(!n)),
            _ => Err(ValueError::InvalidValue(self.ty())),
        }
    }

    /// Whether two values of one type are equal.
    pub fn eq(self, other: DataValue) -> (r: Result<bool, ValueError>)
        ensures
            r == self.spec_eq(other),
    {
        if self.ty() != other.ty() {
            Err(ValueError::TypeMismatch)
        } else {
            match (self, other) {
                (DataValue::F32(x), DataValue::F32(y)) => Ok(
                    !is_nan32(x) && !is_nan32(y) && float_key(x as u64, 0x8000_0000u64)
                        == float_key(y as u64, 0x8000_0000u64),
                ),
                (DataValue::F64(x), DataValue::F64(y)) => Ok(
                    !is_nan64(x) && !is_nan64(y) && float_key(x, 0x8000_0000_0000_0000u64)
                        == float_key(y, 0x8000_0000_0000_0000u64),
                ),
                _ => Ok(self == other),
            }
        }
    }

    /// Whether the first of two values of one type is the greater.
    pub fn gt(self, other: DataValue) -> (r: Result<bool, ValueError>)
        ensures
            r == self.spec_gt(other),
    {
        if self.ty() != other.ty() {
            Err(ValueError::TypeMismatch)
        } else {
            match (self, other) {
                (DataValue::B(x), DataValue::B(y)) => Ok(x && !y),
                (DataValue::F32(x), DataValue::F32(y)) => Ok(
                    !is_nan32(x) && !is_nan32(y) && float_key(x as u64, 0x8000_0000u64)
                        > float_key(y as u64, 0x8000_0000u64),
                ),
                (DataValue::F64(x), DataValue::F64(y)) => Ok(
                    !is_nan64(x) && !is_nan64(y) && float_key(x, 0x8000_0000_0000_0000u64)
                        > float_key(y, 0x8000_0000_0000_0000u64),
                ),
                (DataValue::V128(_), _) => Err(ValueError::InvalidValue(Type::I8X16)),
                _ => Ok(self.int_value().unwrap() > other.int_value().unwrap()),
            }
        }
    }

    /// Whether two floats of one type are unordered.
    pub fn uno(self, other: DataValue) -> (r: Result<bool, ValueError>)
        ensures
            r == self.spec_uno(other),
    {
        if self.ty() != other.ty() {
            Err(ValueError::TypeMismatch)
        } else {
            match (self, other) {
                (DataValue::F32(x), DataValue::F32(y)) => Ok(is_nan32(x) || is_nan32(y)),
                (DataValue::F64(x), DataValue::F64(y)) => Ok(is_nan64(x) || is_nan64(y)),
                _ => Err(ValueError::InvalidValue(self.ty())),
            }
        }
    }
}

} // verus!

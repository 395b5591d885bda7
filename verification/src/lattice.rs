//! The three-point semilattice of constant propagation, and the lattice
//! value of each SSA value.
use crate::data_value::{BinaryOp, DataValue, ValueConversionKind, ValueError};
use crate::ir::entities::ValueRef;
use crate::ir::types::Type;
use cranelift_codegen::ir::Value;
use cranelift_entity::PrimaryMap;
use vstd::prelude::*;

verus! {

/// What constant propagation knows of an SSA value.
#[derive(Clone, Copy, PartialEq, Eq, Structural, Debug)]
pub enum LatticeValue {
    /// Nothing is known yet: the value may still turn out to be a constant.
    Top,
    /// The value is this constant.
    Constant(DataValue),
    /// The value cannot be known: it is loaded, or differs from entry to
    /// entry of its block.
    Bottom,
}

/// The meet of two lattice values: `Top` gives way to anything, `Bottom`
/// wins over anything, and two constants meet in themselves where they are
/// equal and in `Bottom` where they differ.
pub open spec fn spec_meet(a: LatticeValue, b: LatticeValue) -> LatticeValue {
    match (a, b) {
        (LatticeValue::Top, x) => x,
        (x, LatticeValue::Top) => x,
        (LatticeValue::Bottom, _) => LatticeValue::Bottom,
        (_, LatticeValue::Bottom) => LatticeValue::Bottom,
        (LatticeValue::Constant(x), LatticeValue::Constant(y)) => if x == y {
            LatticeValue::Constant(x)
        } else {
            LatticeValue::Bottom
        },
    }
}

/// `a` is at or below `b`: `Bottom` is below every constant and every
/// constant below `Top`.
pub open spec fn below(a: LatticeValue, b: LatticeValue) -> bool {
    spec_meet(b, a) == a
}

/// `a` is below `b` and is not `b`.
pub open spec fn strictly_below(a: LatticeValue, b: LatticeValue) -> bool {
    a != b && below(a, b)
}

/// How many times a lattice value can still get lower.
pub open spec fn height(a: LatticeValue) -> nat {
    match a {
        LatticeValue::Top => 2,
        LatticeValue::Constant(_) => 1,
        LatticeValue::Bottom => 0,
    }
}

/// The heights of `values`, added up.
pub open spec fn total_height(values: Seq<LatticeValue>) -> nat
    decreases values.len(),
{
    if values.len() == 0 {
        0
    } else {
        total_height(values.drop_last()) + height(values.last())
    }
}

/// The meet is commutative.
pub proof fn lemma_meet_commutative(a: LatticeValue, b: LatticeValue)
    ensures
        spec_meet(a, b) == spec_meet(b, a),
{
}

/// The meet is associative.
pub proof fn lemma_meet_associative(a: LatticeValue, b: LatticeValue, c: LatticeValue)
    ensures
        spec_meet(spec_meet(a, b), c) == spec_meet(a, spec_meet(b, c)),
{
}

/// The meet of a value with itself is the value.
pub proof fn lemma_meet_idempotent(a: LatticeValue)
    ensures
        spec_meet(a, a) == a,
{
}

/// The meet of two values is below both.
pub proof fn lemma_meet_is_lower_bound(a: LatticeValue, b: LatticeValue)
    ensures
        below(spec_meet(a, b), a),
        below(spec_meet(a, b), b),
{
}

/// `below` is a partial order, and what is strictly below is less high.
pub proof fn lemma_below_is_order(a: LatticeValue, b: LatticeValue, c: LatticeValue)
    ensures
        below(a, a),
        below(a, b) && below(b, a) ==> a == b,
        below(a, b) && below(b, c) ==> below(a, c),
        strictly_below(a, b) ==> height(a) < height(b),
        below(a, b) ==> height(a) <= height(b),
{
}

/// Lowering one of `values` lowers their total height by as much.
pub proof fn lemma_total_height_update(values: Seq<LatticeValue>, i: int, x: LatticeValue)
    requires
        0 <= i < values.len(),
    ensures
        total_height(values.update(i, x)) + height(values[i]) == total_height(values) + height(x),
    decreases values.len(),
{
    if i == values.len() - 1 {
        assert(values.update(i, x).drop_last() =~= values.drop_last());
    } else {
        assert(values.update(i, x).drop_last() =~= values.drop_last().update(i, x));
        lemma_total_height_update(values.drop_last(), i, x);
    }
}

/// The rule of an operation on two lattice values: `Bottom` where one of
/// them is `Bottom`, the operation on the constants where both are
/// constants, and `Top` else.
pub open spec fn spec_binary(op: BinaryOp, a: LatticeValue, b: LatticeValue) -> Result<
    LatticeValue,
    ValueError,
> {
    match (a, b) {
        (LatticeValue::Bottom, _) => Ok(LatticeValue::Bottom),
        (_, LatticeValue::Bottom) => Ok(LatticeValue::Bottom),
        (LatticeValue::Constant(x), LatticeValue::Constant(y)) => match DataValue::spec_binary(
            op,
            x,
            y,
        ) {
            Ok(c) => Ok(LatticeValue::Constant(c)),
            Err(e) => Err(e),
        },
        _ => Ok(LatticeValue::Top),
    }
}

/// The rule of `not` on a lattice value.
pub open spec fn spec_unary_not(a: LatticeValue) -> Result<LatticeValue, ValueError> {
    match a {
        LatticeValue::Bottom => Ok(LatticeValue::Bottom),
        LatticeValue::Constant(x) => match x.spec_not() {
            Ok(c) => Ok(LatticeValue::Constant(c)),
            Err(e) => Err(e),
        },
        LatticeValue::Top => Ok(LatticeValue::Top),
    }
}

/// A constant made by one of the constructors of [`DataValue`].
pub open spec fn lift(r: Result<DataValue, ValueError>) -> Result<LatticeValue, ValueError> {
    match r {
        Ok(v) => Ok(LatticeValue::Constant(v)),
        Err(e) => Err(e),
    }
}

/// The failure of asking a lattice value that is no constant for what it
/// holds.
pub open spec fn not_a_constant() -> ValueError {
    ValueError::InvalidValue(Type::Invalid)
}

impl LatticeValue {
    /// The type of a constant; `Invalid` for `Top` and `Bottom`.
    pub open spec fn spec_ty(self) -> Type {
        match self {
            LatticeValue::Constant(v) => v.spec_ty(),
            _ => Type::Invalid,
        }
    }

    /// The meet of two lattice values; see [`spec_meet`].
    pub fn meet(self, other: Self) -> (r: Self)
        ensures
            r == spec_meet(self, other),
    {
        match (self, other) {
            (LatticeValue::Top, x) => x,
            (x, LatticeValue::Top) => x,
            (LatticeValue::Bottom, _) => LatticeValue::Bottom,
            (_, LatticeValue::Bottom) => LatticeValue::Bottom,
            (LatticeValue::Constant(a), LatticeValue::Constant(b)) => {
                if a == b {
                    LatticeValue::Constant(a)
                } else {
                    LatticeValue::Bottom
                }
            },
        }
    }

    /// Whether `self` is below `other` and is not `other`.
    pub fn is_strictly_below(self, other: Self) -> (r: bool)
        ensures
            r == strictly_below(self, other),
    {
        self != other && other.meet(self) == self
    }

    #[verifier::when_used_as_spec(spec_ty)]
    pub fn ty(self) -> (r: Type)
        ensures
            r == self.spec_ty(),
    {
        match self {
            LatticeValue::Constant(v) => v.ty(),
            _ => Type::Invalid,
        }
    }

    /// The constant `v`.
    pub fn from_data_value(v: DataValue) -> (r: Self)
        ensures
            r == LatticeValue::Constant(v),
    {
        LatticeValue::Constant(v)
    }

    /// The integer constant of type `ty` with the low bits of `n`.
    pub fn integer(n: i64, ty: Type) -> (r: Result<Self, ValueError>)
        ensures
            r == lift(DataValue::spec_make_int(n, ty)),
    {
        match DataValue::integer(n, ty) {
            Ok(v) => Ok(LatticeValue::Constant(v)),
            Err(e) => Err(e),
        }
    }

    /// The float constant of type `ty` with the given bits.
    pub fn float(bits: u64, ty: Type) -> (r: Result<Self, ValueError>)
        ensures
            r == lift(DataValue::spec_make_float(bits, ty)),
    {
        match DataValue::float(bits, ty) {
            Ok(v) => Ok(LatticeValue::Constant(v)),
            Err(e) => Err(e),
        }
    }

    /// The boolean constant `b`, for a boolean type.
    pub fn bool(b: bool, ty: Type) -> (r: Result<Self, ValueError>)
        ensures
            r == lift(DataValue::spec_make_bool(b, ty)),
    {
        match DataValue::bool(b, ty) {
            Ok(v) => Ok(LatticeValue::Constant(v)),
            Err(e) => Err(e),
        }
    }

    /// The vector constant with the given bytes.
    pub fn vector(v: u128, ty: Type) -> (r: Result<Self, ValueError>)
        ensures
            r == lift(DataValue::spec_make_vector(v, ty)),
    {
        match DataValue::vector(v, ty) {
            Ok(v) => Ok(LatticeValue::Constant(v)),
            Err(e) => Err(e),
        }
    }

    /// The number that an integer constant holds; fails for what is no
    /// constant.
    pub fn into_int(self) -> (r: Result<i64, ValueError>)
        ensures
            r == match self {
                LatticeValue::Constant(v) => v.spec_into_int(),
                _ => Err(not_a_constant()),
            },
    {
        match self {
            LatticeValue::Constant(v) => v.into_int(),
            _ => Err(ValueError::InvalidValue(Type::Invalid)),
        }
    }

    /// The bits of a float constant; fails for what is no constant.
    pub fn into_float(self) -> (r: Result<u64, ValueError>)
        ensures
            r == match self {
                LatticeValue::Constant(v) => v.spec_into_float(),
                _ => Err(not_a_constant()),
            },
    {
        match self {
            LatticeValue::Constant(v) => v.into_float(),
            _ => Err(ValueError::InvalidValue(Type::Invalid)),
        }
    }

    /// The boolean of a boolean constant; fails for what is no constant.
    pub fn into_bool(self) -> (r: Result<bool, ValueError>)
        ensures
            r == match self {
                LatticeValue::Constant(v) => v.spec_into_bool(),
                _ => Err(not_a_constant()),
            },
    {
        match self {
            LatticeValue::Constant(v) => v.into_bool(),
            _ => Err(ValueError::InvalidValue(Type::Invalid)),
        }
    }

    /// Whether a float constant is a NaN; fails for what is no constant.
    pub fn is_nan(self) -> (r: Result<bool, ValueError>)
        ensures
            r == match self {
                LatticeValue::Constant(v) => v.spec_is_nan(),
                _ => Err(not_a_constant()),
            },
    {
        match self {
            LatticeValue::Constant(v) => v.is_nan(),
            _ => Err(ValueError::InvalidValue(Type::Invalid)),
        }
    }

    /// Changes the type of a constant; fails for what is no constant.
    pub fn convert(self, kind: ValueConversionKind) -> (r: Result<Self, ValueError>)
        ensures
            r == match self {
                LatticeValue::Constant(v) => lift(v.spec_convert(kind)),
                _ => Err(not_a_constant()),
            },
    {
        match self {
            LatticeValue::Constant(v) => match v.convert(kind) {
                Ok(c) => Ok(LatticeValue::Constant(c)),
                Err(e) => Err(e),
            },
            _ => Err(ValueError::InvalidValue(Type::Invalid)),
        }
    }

    /// Whether two constants are equal; fails for what is no constant.
    pub fn eq(self, other: Self) -> (r: Result<bool, ValueError>)
        ensures
            r == match (self, other) {
                (LatticeValue::Constant(a), LatticeValue::Constant(b)) => a.spec_eq(b),
                _ => Err(not_a_constant()),
            },
    {
        match (self, other) {
            (LatticeValue::Constant(a), LatticeValue::Constant(b)) => a.eq(b),
            _ => Err(ValueError::InvalidValue(Type::Invalid)),
        }
    }

    /// Whether the first of two constants is the greater; fails for what is
    /// no constant.
    pub fn gt(self, other: Self) -> (r: Result<bool, ValueError>)
        ensures
            r == match (self, other) {
                (LatticeValue::Constant(a), LatticeValue::Constant(b)) => a.spec_gt(b),
                _ => Err(not_a_constant()),
            },
    {
        match (self, other) {
            (LatticeValue::Constant(a), LatticeValue::Constant(b)) => a.gt(b),
            _ => Err(ValueError::InvalidValue(Type::Invalid)),
        }
    }

    /// Whether two float constants are unordered; fails for what is no
    /// constant.
    pub fn uno(self, other: Self) -> (r: Result<bool, ValueError>)
        ensures
            r == match (self, other) {
                (LatticeValue::Constant(a), LatticeValue::Constant(b)) => a.spec_uno(b),
                _ => Err(not_a_constant()),
            },
    {
        match (self, other) {
            (LatticeValue::Constant(a), LatticeValue::Constant(b)) => a.uno(b),
            _ => Err(ValueError::InvalidValue(Type::Invalid)),
        }
    }

    pub fn add(self, other: Self) -> (r: Result<Self, ValueError>)
        ensures
            r == spec_binary(BinaryOp::Add, self, other),
    {
        binary(BinaryOp::Add, self, other)
    }

    pub fn sub(self, other: Self) -> (r: Result<Self, ValueError>)
        ensures
            r == spec_binary(BinaryOp::Sub, self, other),
    {
        binary(BinaryOp::Sub, self, other)
    }

    pub fn mul(self, other: Self) -> (r: Result<Self, ValueError>)
        ensures
            r == spec_binary(BinaryOp::Mul, self, other),
    {
        binary(BinaryOp::Mul, self, other)
    }

    pub fn div(self, other: Self) -> (r: Result<Self, ValueError>)
        ensures
            r == spec_binary(BinaryOp::Div, self, other),
    {
        binary(BinaryOp::Div, self, other)
    }

    pub fn rem(self, other: Self) -> (r: Result<Self, ValueError>)
        ensures
            r == spec_binary(BinaryOp::Rem, self, other),
    {
        binary(BinaryOp::Rem, self, other)
    }

    pub fn shl(self, other: Self) -> (r: Result<Self, ValueError>)
        ensures
            r == spec_binary(BinaryOp::Shl, self, other),
    {
        binary(BinaryOp::Shl, self, other)
    }

    pub fn ushr(self, other: Self) -> (r: Result<Self, ValueError>)
        ensures
            r == spec_binary(BinaryOp::Ushr, self, other),
    {
        binary(BinaryOp::Ushr, self, other)
    }

    pub fn ishr(self, other: Self) -> (r: Result<Self, ValueError>)
        ensures
            r == spec_binary(BinaryOp::Ishr, self, other),
    {
        binary(BinaryOp::Ishr, self, other)
    }

    pub fn rotl(self, other: Self) -> (r: Result<Self, ValueError>)
        ensures
            r == spec_binary(BinaryOp::Rotl, self, other),
    {
        binary(BinaryOp::Rotl, self, other)
    }

    pub fn rotr(self, other: Self) -> (r: Result<Self, ValueError>)
        ensures
            r == spec_binary(BinaryOp::Rotr, self, other),
    {
        binary(BinaryOp::Rotr, self, other)
    }

    pub fn and(self, other: Self) -> (r: Result<Self, ValueError>)
        ensures
            r == spec_binary(BinaryOp::And, self, other),
    {
        binary(BinaryOp::And, self, other)
    }

    pub fn or(self, other: Self) -> (r: Result<Self, ValueError>)
        ensures
            r == spec_binary(BinaryOp::Or, self, other),
    {
        binary(BinaryOp::Or, self, other)
    }

    pub fn xor(self, other: Self) -> (r: Result<Self, ValueError>)
        ensures
            r == spec_binary(BinaryOp::Xor, self, other),
    {
        binary(BinaryOp::Xor, self, other)
    }

    pub fn not(self) -> (r: Result<Self, ValueError>)
        ensures
            r == spec_unary_not(self),
    {
        match self {
            LatticeValue::Bottom => Ok(LatticeValue::Bottom),
            LatticeValue::Constant(a) => match a.not() {
                Ok(c) => Ok(LatticeValue::Constant(c)),
                Err(e) => Err(e),
            },
            LatticeValue::Top => Ok(LatticeValue::Top),
        }
    }
}

/// Applies `op` to two lattice values; see [`spec_binary`].
pub fn binary(op: BinaryOp, a: LatticeValue, b: LatticeValue) -> (r: Result<
    LatticeValue,
    ValueError,
>)
    ensures
        r == spec_binary(op, a, b),
{
    match (a, b) {
        (LatticeValue::Bottom, _) => Ok(LatticeValue::Bottom),
        (_, LatticeValue::Bottom) => Ok(LatticeValue::Bottom),
        (LatticeValue::Constant(x), LatticeValue::Constant(y)) => match DataValue::binary(op, x, y) {
            Ok(c) => Ok(LatticeValue::Constant(c)),
            Err(e) => Err(e),
        },
        _ => Ok(LatticeValue::Top),
    }
}

/// The lattice value of each SSA value of a function, by the value's
/// number. It is kept in a `PrimaryMap` of `cranelift_entity`, keyed by the
/// `Value` of `cranelift_codegen` that has the number of the SSA value.
#[verifier::external_body]
pub struct Values(PrimaryMap<Value, LatticeValue>);

/// What a [`Values`] holds: the lattice values, by the number of the SSA
/// value.
pub uninterp spec fn lattice_values(values: Values) -> Seq<LatticeValue>;

impl View for Values {
    type V = Seq<LatticeValue>;

    open spec fn view(&self) -> Seq<LatticeValue> {
        lattice_values(*self)
    }
}

/// `PrimaryMap::from_iter` on `n` copies of `value`: the map collects what
/// the iterator yields into its vector, in order, so it holds `n` entries
/// that are all `value`.
#[verifier::external_body]
fn filled(n: usize, value: LatticeValue) -> (r: Values)
    ensures
        lattice_values(r) == Seq::new(n as nat, |i: int| value),
{
    Values(PrimaryMap::from_iter(vec![value; n]))
}

/// `PrimaryMap::len`: the number of entries.
#[verifier::external_body]
fn count(values: &Values) -> (r: usize)
    ensures
        r == lattice_values(*values).len(),
{
    values.0.len()
}

/// `PrimaryMap::get`: the entry at the key's index, or `None` where the
/// index is not below the number of entries. The key is made by
/// `Value::from_u32`, which takes any number but the largest.
#[verifier::external_body]
fn lookup(values: &Values, name: ValueRef) -> (r: Option<LatticeValue>)
    requires
        name.0 < u32::MAX,
    ensures
        r == if name.idx() < lattice_values(*values).len() {
            Some(lattice_values(*values)[name.idx()])
        } else {
            None
        },
{
    values.0.get(Value::from_u32(name.0)).copied()
}

/// `PrimaryMap::index_mut` and an assignment through it: the entry at the
/// key's index is replaced and every other entry stays. The index must be
/// below the number of entries.
#[verifier::external_body]
fn store(values: &mut Values, name: ValueRef, value: LatticeValue)
    requires
        name.idx() < lattice_values(*old(values)).len(),
        name.0 < u32::MAX,
    ensures
        lattice_values(*final(values)) == lattice_values(*old(values)).update(name.idx(), value),
{
    values.0[Value::from_u32(name.0)] = value;
}

impl Values {
    /// The lattice values of `n` SSA values of which nothing is known.
    pub fn all_top(n: usize) -> (r: Self)
        ensures
            r@ == Seq::new(n as nat, |i: int| LatticeValue::Top),
    {
        filled(n, LatticeValue::Top)
    }

    /// The number of SSA values.
    pub fn len(&self) -> (r: usize)
        ensures
            r == self@.len(),
    {
        count(self)
    }

    /// The lattice value of `name`, which is not the largest number that a
    /// value can have: a key of the map cannot hold that one.
    pub fn get(&self, name: ValueRef) -> (r: LatticeValue)
        requires
            name.idx() < self@.len(),
            name.0 < u32::MAX,
        ensures
            r == self@[name.idx()],
    {
        lookup(self, name).unwrap()
    }

    /// Gives `name` the lattice value `value`. A lattice value never
    /// rises: `value` is at or below what `name` has.
    pub fn set(&mut self, name: ValueRef, value: LatticeValue)
        requires
            name.idx() < old(self)@.len(),
            name.0 < u32::MAX,
            below(value, old(self)@[name.idx()]),
        ensures
            final(self)@ == old(self)@.update(name.idx(), value),
            total_height(final(self)@) + height(old(self)@[name.idx()]) == total_height(old(self)@)
                + height(value),
    {
        proof {
            lemma_total_height_update(self@, name.idx(), value);
        }
        store(self, name, value);
    }
}

} // verus!

//! The types of SSA values.
use vstd::prelude::*;

verus! {

/// The type of an SSA value.
#[derive(Clone, Copy, PartialEq, Eq, Structural, Debug, Hash)]
pub enum Type {
    /// Not a type: the type of what has no value.
    Invalid,
    B1,
    B8,
    B16,
    B32,
    B64,
    I8,
    I16,
    I32,
    I64,
    F32,
    F64,
    /// A 128-bit vector of sixteen byte lanes.
    I8X16,
}

impl Type {
    pub open spec fn spec_is_int(self) -> bool {
        self == Type::I8 || self == Type::I16 || self == Type::I32 || self == Type::I64
    }

    pub open spec fn spec_is_bool(self) -> bool {
        self == Type::B1 || self == Type::B8 || self == Type::B16 || self == Type::B32 || self
            == Type::B64
    }

    pub open spec fn spec_is_float(self) -> bool {
        self == Type::F32 || self == Type::F64
    }

    pub open spec fn spec_is_vector(self) -> bool {
        self == Type::I8X16
    }

    /// The width of a value of this type in bits; 0 for `Invalid`.
    pub open spec fn spec_bits(self) -> u32 {
        match self {
            Type::Invalid => 0,
            Type::B1 => 1,
            Type::B8 | Type::I8 => 8,
            Type::B16 | Type::I16 => 16,
            Type::B32 | Type::I32 | Type::F32 => 32,
            Type::B64 | Type::I64 | Type::F64 => 64,
            Type::I8X16 => 128,
        }
    }

    #[verifier::when_used_as_spec(spec_is_int)]
    pub fn is_int(self) -> (r: bool)
        ensures
            r == self.spec_is_int(),
    {
        matches!(self, Type::I8 | Type::I16 | Type::I32 | Type::I64)
    }

    #[verifier::when_used_as_spec(spec_is_bool)]
    pub fn is_bool(self) -> (r: bool)
        ensures
            r == self.spec_is_bool(),
    {
        matches!(self, Type::B1 | Type::B8 | Type::B16 | Type::B32 | Type::B64)
    }

    #[verifier::when_used_as_spec(spec_is_float)]
    pub fn is_float(self) -> (r: bool)
        ensures
            r == self.spec_is_float(),
    {
        matches!(self, Type::F32 | Type::F64)
    }

    #[verifier::when_used_as_spec(spec_is_vector)]
    pub fn is_vector(self) -> (r: bool)
        ensures
            r == self.spec_is_vector(),
    {
        matches!(self, Type::I8X16)
    }

    #[verifier::when_used_as_spec(spec_bits)]
    pub fn bits(self) -> (r: u32)
        ensures
            r == self.spec_bits(),
    {
        match self {
            Type::Invalid => 0,
            Type::B1 => 1,
            Type::B8 | Type::I8 => 8,
            Type::B16 | Type::I16 => 16,
            Type::B32 | Type::I32 | Type::F32 => 32,
            Type::B64 | Type::I64 | Type::F64 => 64,
            Type::I8X16 => 128,
        }
    }
}

} // verus!

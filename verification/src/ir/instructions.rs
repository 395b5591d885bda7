//! Opcodes, condition codes and the instruction families.
use crate::ir::entities::{Block, FuncRef, ValueRef};
use vstd::prelude::*;

verus! {

/// What an instruction does.
#[derive(Clone, Copy, PartialEq, Eq, Structural, Debug, Hash)]
pub enum Opcode {
    Nop,
    Iconst,
    Bconst,
    F32const,
    F64const,
    Iadd,
    Isub,
    Imul,
    Udiv,
    Sdiv,
    Urem,
    Srem,
    Band,
    Bor,
    Bxor,
    Bnot,
    Ishl,
    Ushr,
    Sshr,
    Rotl,
    Rotr,
    IaddImm,
    IrsubImm,
    IcmpImm,
    Brz,
    Brnz,
    Jump,
    Fallthrough,
    BrTable,
    IndirectJumpTableBr,
    Call,
    Return,
    Load,
    TraceStart,
    TraceEnd,
}

impl Opcode {
    /// Whether the instruction may transfer control to another block of its
    /// function.
    pub open spec fn spec_is_branch(self) -> bool {
        self == Opcode::Brz || self == Opcode::Brnz || self == Opcode::Jump || self
            == Opcode::Fallthrough || self == Opcode::BrTable || self
            == Opcode::IndirectJumpTableBr
    }

    /// Whether the instruction transfers control whatever its operands hold.
    pub open spec fn spec_is_unconditional_jump(self) -> bool {
        self == Opcode::Jump || self == Opcode::Fallthrough
    }

    /// Whether the instruction branches through a table.
    pub open spec fn spec_is_table_branch(self) -> bool {
        self == Opcode::BrTable || self == Opcode::IndirectJumpTableBr
    }

    /// Whether the instruction reads memory.
    pub open spec fn spec_can_load(self) -> bool {
        self == Opcode::Load
    }

    /// Whether the instruction materializes a constant.
    pub open spec fn spec_is_constant(self) -> bool {
        self == Opcode::Iconst || self == Opcode::Bconst || self == Opcode::F32const || self
            == Opcode::F64const
    }

    #[verifier::when_used_as_spec(spec_is_branch)]
    pub fn is_branch(self) -> (r: bool)
        ensures
            r == self.spec_is_branch(),
    {
        matches!(
            self,
            Opcode::Brz | Opcode::Brnz | Opcode::Jump | Opcode::Fallthrough | Opcode::BrTable
                | Opcode::IndirectJumpTableBr
        )
    }

    #[verifier::when_used_as_spec(spec_is_unconditional_jump)]
    pub fn is_unconditional_jump(self) -> (r: bool)
        ensures
            r == self.spec_is_unconditional_jump(),
    {
        matches!(self, Opcode::Jump | Opcode::Fallthrough)
    }

    #[verifier::when_used_as_spec(spec_is_table_branch)]
    pub fn is_table_branch(self) -> (r: bool)
        ensures
            r == self.spec_is_table_branch(),
    {
        matches!(self, Opcode::BrTable | Opcode::IndirectJumpTableBr)
    }

    #[verifier::when_used_as_spec(spec_can_load)]
    pub fn can_load(self) -> (r: bool)
        ensures
            r == self.spec_can_load(),
    {
        matches!(self, Opcode::Load)
    }

    #[verifier::when_used_as_spec(spec_is_constant)]
    pub fn is_constant(self) -> (r: bool)
        ensures
            r == self.spec_is_constant(),
    {
        matches!(self, Opcode::Iconst | Opcode::Bconst | Opcode::F32const | Opcode::F64const)
    }
}

/// The condition of an integer comparison.
#[derive(Clone, Copy, PartialEq, Eq, Structural, Debug, Hash)]
pub enum IntCC {
    Equal,
    NotEqual,
    SignedLessThan,
    SignedGreaterThanOrEqual,
    SignedGreaterThan,
    SignedLessThanOrEqual,
    UnsignedLessThan,
    UnsignedGreaterThanOrEqual,
    UnsignedGreaterThan,
    UnsignedLessThanOrEqual,
}

/// A list of values kept in the value-list pool of a data-flow graph: the
/// `len` values that start at position `first` of the pool.
#[derive(Clone, Copy, PartialEq, Eq, Structural, Debug, Hash)]
pub struct ValueList {
    pub first: u32,
    pub len: u32,
}

impl ValueList {
    /// The list without values.
    pub fn empty() -> (r: Self)
        ensures
            r == (ValueList { first: 0, len: 0 }),
    {
        ValueList { first: 0, len: 0 }
    }

    pub open spec fn spec_len(self) -> usize {
        self.len as usize
    }

    #[verifier::when_used_as_spec(spec_len)]
    pub fn len(self) -> (r: usize)
        ensures
            r == self.spec_len(),
    {
        self.len as usize
    }
}

/// An instruction: its opcode and its operands, by family.
///
/// Fixed operands stand in the instruction; a variable number of operands is
/// a [`ValueList`] in the pool of the data-flow graph that owns the
/// instruction.
#[allow(inconsistent_fields)]
#[derive(Clone, Copy, PartialEq, Eq, Structural, Debug, Hash)]
pub enum InstructionData {
    NullAry { opcode: Opcode },
    Unary { opcode: Opcode, arg: ValueRef },
    UnaryImm { opcode: Opcode, imm: i64 },
    UnaryBool { opcode: Opcode, imm: bool },
    /// The immediate holds the bits of a 32-bit float.
    UnaryIeee32 { opcode: Opcode, imm: u32 },
    /// The immediate holds the bits of a 64-bit float.
    UnaryIeee64 { opcode: Opcode, imm: u64 },
    Binary { opcode: Opcode, a: ValueRef, b: ValueRef },
    BinaryImm { opcode: Opcode, arg: ValueRef, imm: i64 },
    IntCompareImm { opcode: Opcode, arg: ValueRef, cond: IntCC, imm: i64 },
    /// A conditional branch: the first value of `args` is the condition, the
    /// others go to the parameters of `destination`.
    Branch { opcode: Opcode, args: ValueList, destination: Block },
    Jump { opcode: Opcode, args: ValueList, destination: Block },
    BranchTable { opcode: Opcode, arg: ValueRef, destination: Block },
    Call { opcode: Opcode, args: ValueList, func_ref: FuncRef },
    MultiAry { opcode: Opcode, args: ValueList },
    MultiAryImm { opcode: Opcode, imm: i64, args: ValueList },
    Load { opcode: Opcode, arg: ValueRef, offset: i32 },
}

impl InstructionData {
    pub open spec fn spec_opcode(self) -> Opcode {
        match self {
            InstructionData::NullAry { opcode } => opcode,
            InstructionData::Unary { opcode, .. } => opcode,
            InstructionData::UnaryImm { opcode, .. } => opcode,
            InstructionData::UnaryBool { opcode, .. } => opcode,
            InstructionData::UnaryIeee32 { opcode, .. } => opcode,
            InstructionData::UnaryIeee64 { opcode, .. } => opcode,
            InstructionData::Binary { opcode, .. } => opcode,
            InstructionData::BinaryImm { opcode, .. } => opcode,
            InstructionData::IntCompareImm { opcode, .. } => opcode,
            InstructionData::Branch { opcode, .. } => opcode,
            InstructionData::Jump { opcode, .. } => opcode,
            InstructionData::BranchTable { opcode, .. } => opcode,
            InstructionData::Call { opcode, .. } => opcode,
            InstructionData::MultiAry { opcode, .. } => opcode,
            InstructionData::MultiAryImm { opcode, .. } => opcode,
            InstructionData::Load { opcode, .. } => opcode,
        }
    }

    /// The operands that stand in the instruction itself, in order.
    pub open spec fn fixed_args(self) -> Seq<ValueRef> {
        match self {
            InstructionData::Unary { arg, .. } => seq![arg],
            InstructionData::Binary { a, b, .. } => seq![a, b],
            InstructionData::BinaryImm { arg, .. } => seq![arg],
            InstructionData::IntCompareImm { arg, .. } => seq![arg],
            InstructionData::BranchTable { arg, .. } => seq![arg],
            InstructionData::Load { arg, .. } => seq![arg],
            _ => Seq::empty(),
        }
    }

    /// The list of the instruction's variable operands, empty where the
    /// family has none.
    pub open spec fn spec_value_list(self) -> ValueList {
        match self {
            InstructionData::Branch { args, .. } => args,
            InstructionData::Jump { args, .. } => args,
            InstructionData::Call { args, .. } => args,
            InstructionData::MultiAry { args, .. } => args,
            InstructionData::MultiAryImm { args, .. } => args,
            _ => ValueList { first: 0, len: 0 },
        }
    }

    /// The block that the instruction may transfer control to.
    pub open spec fn spec_branch_destination(self) -> Option<Block> {
        match self {
            InstructionData::Branch { destination, .. } => Some(destination),
            InstructionData::Jump { destination, .. } => Some(destination),
            InstructionData::BranchTable { destination, .. } => Some(destination),
            _ => None,
        }
    }

    /// The same instruction with another list of variable operands.
    pub open spec fn spec_with_value_list(self, list: ValueList) -> InstructionData {
        match self {
            InstructionData::Branch { opcode, destination, .. } => InstructionData::Branch {
                opcode,
                args: list,
                destination,
            },
            InstructionData::Jump { opcode, destination, .. } => InstructionData::Jump {
                opcode,
                args: list,
                destination,
            },
            InstructionData::Call { opcode, func_ref, .. } => InstructionData::Call {
                opcode,
                args: list,
                func_ref,
            },
            InstructionData::MultiAry { opcode, .. } => InstructionData::MultiAry {
                opcode,
                args: list,
            },
            InstructionData::MultiAryImm { opcode, imm, .. } => InstructionData::MultiAryImm {
                opcode,
                imm,
                args: list,
            },
            other => other,
        }
    }

    /// The same instruction with other fixed operands; `args` holds as many
    /// as [`fixed_args`](Self::fixed_args) gives.
    pub open spec fn spec_with_fixed_args(self, args: Seq<ValueRef>) -> InstructionData
        recommends
            args.len() == self.fixed_args().len(),
    {
        match self {
            InstructionData::Unary { opcode, .. } => InstructionData::Unary { opcode, arg: args[0] },
            InstructionData::Binary { opcode, .. } => InstructionData::Binary {
                opcode,
                a: args[0],
                b: args[1],
            },
            InstructionData::BinaryImm { opcode, imm, .. } => InstructionData::BinaryImm {
                opcode,
                arg: args[0],
                imm,
            },
            InstructionData::IntCompareImm { opcode, cond, imm, .. } => {
                InstructionData::IntCompareImm { opcode, arg: args[0], cond, imm }
            },
            InstructionData::BranchTable { opcode, destination, .. } => {
                InstructionData::BranchTable { opcode, arg: args[0], destination }
            },
            InstructionData::Load { opcode, offset, .. } => InstructionData::Load {
                opcode,
                arg: args[0],
                offset,
            },
            other => other,
        }
    }

    #[verifier::when_used_as_spec(spec_opcode)]
    pub fn opcode(self) -> (r: Opcode)
        ensures
            r == self.spec_opcode(),
    {
        match self {
            InstructionData::NullAry { opcode } => opcode,
            InstructionData::Unary { opcode, .. } => opcode,
            InstructionData::UnaryImm { opcode, .. } => opcode,
            InstructionData::UnaryBool { opcode, .. } => opcode,
            InstructionData::UnaryIeee32 { opcode, .. } => opcode,
            InstructionData::UnaryIeee64 { opcode, .. } => opcode,
            InstructionData::Binary { opcode, .. } => opcode,
            InstructionData::BinaryImm { opcode, .. } => opcode,
            InstructionData::IntCompareImm { opcode, .. } => opcode,
            InstructionData::Branch { opcode, .. } => opcode,
            InstructionData::Jump { opcode, .. } => opcode,
            InstructionData::BranchTable { opcode, .. } => opcode,
            InstructionData::Call { opcode, .. } => opcode,
            InstructionData::MultiAry { opcode, .. } => opcode,
            InstructionData::MultiAryImm { opcode, .. } => opcode,
            InstructionData::Load { opcode, .. } => opcode,
        }
    }

    #[verifier::when_used_as_spec(spec_value_list)]
    pub fn value_list(self) -> (r: ValueList)
        ensures
            r == self.spec_value_list(),
    {
        match self {
            InstructionData::Branch { args, .. } => args,
            InstructionData::Jump { args, .. } => args,
            InstructionData::Call { args, .. } => args,
            InstructionData::MultiAry { args, .. } => args,
            InstructionData::MultiAryImm { args, .. } => args,
            _ => ValueList { first: 0, len: 0 },
        }
    }

    #[verifier::when_used_as_spec(spec_branch_destination)]
    pub fn branch_destination(self) -> (r: Option<Block>)
        ensures
            r == self.spec_branch_destination(),
    {
        match self {
            InstructionData::Branch { destination, .. } => Some(destination),
            InstructionData::Jump { destination, .. } => Some(destination),
            InstructionData::BranchTable { destination, .. } => Some(destination),
            _ => None,
        }
    }

    #[verifier::when_used_as_spec(spec_with_value_list)]
    pub fn with_value_list(self, list: ValueList) -> (r: InstructionData)
        ensures
            r == self.spec_with_value_list(list),
    {
        match self {
            InstructionData::Branch { opcode, destination, .. } => InstructionData::Branch {
                opcode,
                args: list,
                destination,
            },
            InstructionData::Jump { opcode, destination, .. } => InstructionData::Jump {
                opcode,
                args: list,
                destination,
            },
            InstructionData::Call { opcode, func_ref, .. } => InstructionData::Call {
                opcode,
                args: list,
                func_ref,
            },
            InstructionData::MultiAry { opcode, .. } => InstructionData::MultiAry {
                opcode,
                args: list,
            },
            InstructionData::MultiAryImm { opcode, imm, .. } => InstructionData::MultiAryImm {
                opcode,
                imm,
                args: list,
            },
            other => other,
        }
    }

    /// The fixed operands, in order.
    pub fn fixed_arguments(self) -> (r: Vec<ValueRef>)
        ensures
            r@ == self.fixed_args(),
    {
        let mut out: Vec<ValueRef> = Vec::new();
        match self {
            InstructionData::Unary { arg, .. } => {
                out.push(arg);
            },
            InstructionData::Binary { a, b, .. } => {
                out.push(a);
                out.push(b);
            },
            InstructionData::BinaryImm { arg, .. } => {
                out.push(arg);
            },
            InstructionData::IntCompareImm { arg, .. } => {
                out.push(arg);
            },
            InstructionData::BranchTable { arg, .. } => {
                out.push(arg);
            },
            InstructionData::Load { arg, .. } => {
                out.push(arg);
            },
            _ => {},
        }
        assert(out@ =~= self.fixed_args());
        out
    }

    /// The same instruction with other fixed operands.
    pub fn with_fixed_arguments(self, args: &Vec<ValueRef>) -> (r: InstructionData)
        requires
            args@.len() == self.fixed_args().len(),
        ensures
            r == self.spec_with_fixed_args(args@),
    {
        match self {
            InstructionData::Unary { opcode, .. } => InstructionData::Unary { opcode, arg: args[0] },
            InstructionData::Binary { opcode, .. } => InstructionData::Binary {
                opcode,
                a: args[0],
                b: args[1],
            },
            InstructionData::BinaryImm { opcode, imm, .. } => InstructionData::BinaryImm {
                opcode,
                arg: args[0],
                imm,
            },
            InstructionData::IntCompareImm { opcode, cond, imm, .. } => {
                InstructionData::IntCompareImm { opcode, arg: args[0], cond, imm }
            },
            InstructionData::BranchTable { opcode, destination, .. } => {
                InstructionData::BranchTable { opcode, arg: args[0], destination }
            },
            InstructionData::Load { opcode, offset, .. } => InstructionData::Load {
                opcode,
                arg: args[0],
                offset,
            },
            other => other,
        }
    }
}

} // verus!

//! Densely numbered references to the parts of a function.
use vstd::prelude::*;

verus! {

/// An SSA value of a function.
#[derive(Clone, Copy, PartialEq, Eq, Structural, Debug, Hash)]
pub struct ValueRef(pub u32);

/// An instruction of a function.
#[derive(Clone, Copy, PartialEq, Eq, Structural, Debug, Hash)]
pub struct Inst(pub u32);

/// A basic block of a function.
#[derive(Clone, Copy, PartialEq, Eq, Structural, Debug, Hash)]
pub struct Block(pub u32);

/// A function reference. Inside a function it names an entry of the
/// function's table of external functions; handed out by an environment it
/// names one of the environment's functions.
#[derive(Clone, Copy, PartialEq, Eq, Structural, Debug, Hash)]
pub struct FuncRef(pub u32);

impl ValueRef {
    pub open spec fn idx(self) -> int {
        self.0 as int
    }

    pub fn from_u32(n: u32) -> (r: Self)
        ensures
            r == ValueRef(n),
    {
        ValueRef(n)
    }

    pub fn as_u32(self) -> (r: u32)
        ensures
            r == self.0,
    {
        self.0
    }

    pub fn index(self) -> (r: usize)
        ensures
            r == self.idx(),
    {
        self.0 as usize
    }
}

impl Inst {
    pub open spec fn idx(self) -> int {
        self.0 as int
    }

    pub fn from_u32(n: u32) -> (r: Self)
        ensures
            r == Inst(n),
    {
        Inst(n)
    }

    pub fn as_u32(self) -> (r: u32)
        ensures
            r == self.0,
    {
        self.0
    }

    pub fn index(self) -> (r: usize)
        ensures
            r == self.idx(),
    {
        self.0 as usize
    }
}

impl Block {
    pub open spec fn idx(self) -> int {
        self.0 as int
    }

    pub fn from_u32(n: u32) -> (r: Self)
        ensures
            r == Block(n),
    {
        Block(n)
    }

    pub fn as_u32(self) -> (r: u32)
        ensures
            r == self.0,
    {
        self.0
    }

    pub fn index(self) -> (r: usize)
        ensures
            r == self.idx(),
    {
        self.0 as usize
    }
}

impl FuncRef {
    pub open spec fn idx(self) -> int {
        self.0 as int
    }

    pub fn from_u32(n: u32) -> (r: Self)
        ensures
            r == FuncRef(n),
    {
        FuncRef(n)
    }

    pub fn as_u32(self) -> (r: u32)
        ensures
            r == self.0,
    {
        self.0
    }

    pub fn index(self) -> (r: usize)
        ensures
            r == self.idx(),
    {
        self.0 as usize
    }
}

} // verus!

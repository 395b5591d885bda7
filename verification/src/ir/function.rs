//! Functions: a signature, a data-flow graph and a layout.
use crate::ir::dfg::{DataFlowGraph, DfgModel};
use crate::ir::layout::{Layout, LayoutModel};
use crate::ir::types::Type;
use vstd::prelude::*;

verus! {

/// A calling convention.
#[derive(Clone, Copy, PartialEq, Eq, Structural, Debug, Hash)]
pub enum CallConv {
    Fast,
    Cold,
    SystemV,
    WindowsFastcall,
    AppleAarch64,
}

/// The mathematical content of a [`Signature`].
pub ghost struct SignatureModel {
    pub params: Seq<Type>,
    pub returns: Seq<Type>,
    pub call_conv: CallConv,
}

/// The types that a function takes and returns, and how it is called.
#[derive(Debug)]
pub struct Signature {
    pub params: Vec<Type>,
    pub returns: Vec<Type>,
    pub call_conv: CallConv,
}

impl View for Signature {
    type V = SignatureModel;

    open spec fn view(&self) -> SignatureModel {
        SignatureModel {
            params: self.params@,
            returns: self.returns@,
            call_conv: self.call_conv,
        }
    }
}

impl Signature {
    /// The signature without parameters and results.
    pub fn new(call_conv: CallConv) -> (r: Self)
        ensures
            r@ == (SignatureModel { params: Seq::empty(), returns: Seq::empty(), call_conv }),
    {
        Signature { params: Vec::new(), returns: Vec::new(), call_conv }
    }
}

/// The mathematical content of a [`Function`].
pub ghost struct FunctionModel {
    pub name: Seq<char>,
    pub signature: SignatureModel,
    pub dfg: DfgModel,
    pub layout: LayoutModel,
}

impl FunctionModel {
    /// The function is well formed: its data-flow graph is, and its layout
    /// names blocks and instructions of that graph only.
    pub open spec fn wf(self) -> bool {
        &&& self.dfg.wf()
        &&& self.layout.wf_for(self.dfg)
    }
}

/// A function of the intermediate representation.
#[derive(Debug)]
pub struct Function {
    pub name: String,
    pub signature: Signature,
    pub dfg: DataFlowGraph,
    pub layout: Layout,
}

impl View for Function {
    type V = FunctionModel;

    open spec fn view(&self) -> FunctionModel {
        FunctionModel {
            name: self.name@,
            signature: self.signature@,
            dfg: self.dfg@,
            layout: self.layout@,
        }
    }
}

impl Function {
    /// Whether the function is well formed; see [`FunctionModel::wf`].
    pub open spec fn wf(&self) -> bool {
        self@.wf()
    }

    /// The function without a name, blocks or instructions, called by the
    /// fast convention.
    pub fn new() -> (r: Self)
        ensures
            r.wf(),
            r@.name == Seq::<char>::empty(),
            r@.signature == (SignatureModel {
                params: Seq::empty(),
                returns: Seq::empty(),
                call_conv: CallConv::Fast,
            }),
            r@.dfg == DfgModel::empty(),
            r@.layout == LayoutModel::empty(),
    {
        Function {
            name: String::new(),
            signature: Signature::new(CallConv::Fast),
            dfg: DataFlowGraph::new(),
            layout: Layout::new(),
        }
    }

    /// Whether the function is well formed; see [`FunctionModel::wf`].
    pub fn is_well_formed(&self) -> (r: bool)
        ensures
            r == self.wf(),
    {
        self.dfg.is_well_formed() && self.layout.is_well_formed_for(&self.dfg)
    }

    /// The empty function of the given name.
    pub fn with_name(name: String) -> (r: Self)
        ensures
            r.wf(),
            r@.name == name@,
            r@.signature == (SignatureModel {
                params: Seq::empty(),
                returns: Seq::empty(),
                call_conv: CallConv::Fast,
            }),
            r@.dfg == DfgModel::empty(),
            r@.layout == LayoutModel::empty(),
    {
        Function {
            name,
            signature: Signature::new(CallConv::Fast),
            dfg: DataFlowGraph::new(),
            layout: Layout::new(),
        }
    }
}

} // verus!

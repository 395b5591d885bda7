//! The functions that an interpreter can call, by name and by reference.
use crate::ir::dfg::entity_limit;
use crate::ir::entities::FuncRef;
use crate::ir::function::{Function, FunctionModel};
use crate::trap::{Trap, TrapModel};
use vstd::prelude::*;

verus! {

/// The mathematical content of an [`Environment`]: the functions in the
/// order in which they were added, each with the name it was added under.
pub ghost struct EnvModel {
    pub names: Seq<Seq<char>>,
    pub functions: Seq<FunctionModel>,
}

impl EnvModel {
    pub open spec fn empty() -> EnvModel {
        EnvModel { names: Seq::empty(), functions: Seq::empty() }
    }

    pub open spec fn len(self) -> nat {
        self.functions.len()
    }

    pub open spec fn has(self, f: FuncRef) -> bool {
        f.idx() < self.functions.len()
    }

    pub open spec fn function(self, f: FuncRef) -> FunctionModel {
        self.functions[f.idx()]
    }

    pub open spec fn get(self, f: FuncRef) -> Option<FunctionModel> {
        if self.has(f) {
            Some(self.function(f))
        } else {
            None
        }
    }

    /// The environment after `function` was added under `name`.
    pub open spec fn add(self, name: Seq<char>, function: FunctionModel) -> EnvModel {
        EnvModel { names: self.names.push(name), functions: self.functions.push(function) }
    }

    /// The first `n` functions.
    pub open spec fn take(self, n: int) -> EnvModel {
        EnvModel { names: self.names.subrange(0, n), functions: self.functions.subrange(0, n) }
    }

    /// The reference of the function that was added last under `name`.
    pub open spec fn index_of(self, name: Seq<char>) -> Option<FuncRef>
        decreases self.names.len(),
    {
        if self.names.len() == 0 {
            None
        } else if self.names.last() == name {
            Some(FuncRef((self.names.len() - 1) as u32))
        } else {
            EnvModel { names: self.names.drop_last(), functions: self.functions }.index_of(name)
        }
    }

    /// Every function is well formed and has a name, and the functions can
    /// be numbered with 32 bits.
    pub open spec fn wf(self) -> bool {
        &&& self.names.len() == self.functions.len()
        &&& self.functions.len() <= entity_limit()
        &&& forall|i: int| 0 <= i < self.functions.len() ==> (#[trigger] self.functions[i]).wf()
    }

    /// A reference that `index_of` gives names a function of that name.
    pub proof fn lemma_index_of_valid(self, name: Seq<char>)
        requires
            self.names.len() <= entity_limit(),
        ensures
            self.index_of(name) matches Some(f) ==> f.idx() < self.names.len()
                && self.names[f.idx()] == name,
        decreases self.names.len(),
    {
        if self.names.len() > 0 && self.names.last() != name {
            let rest = EnvModel { names: self.names.drop_last(), functions: self.functions };
            rest.lemma_index_of_valid(name);
        }
    }
}

/// The functions that an interpreter can call, in the order in which they
/// were added.
#[derive(Debug)]
pub struct Environment {
    names: Vec<String>,
    functions: Vec<Function>,
}

impl View for Environment {
    type V = EnvModel;

    closed spec fn view(&self) -> EnvModel {
        EnvModel {
            names: Seq::new(self.names@.len(), |i: int| self.names@[i]@),
            functions: Seq::new(self.functions@.len(), |i: int| self.functions@[i]@),
        }
    }
}

impl Environment {
    /// Whether the environment is well formed; see [`EnvModel::wf`].
    pub open spec fn wf(&self) -> bool {
        self@.wf()
    }

    /// The environment without functions.
    pub fn new() -> (r: Self)
        ensures
            r@ == EnvModel::empty(),
            r.wf(),
    {
        let r = Environment { names: Vec::new(), functions: Vec::new() };
        assert(r@.names =~= Seq::empty());
        assert(r@.functions =~= Seq::empty());
        r
    }

    /// The number of functions.
    pub fn len(&self) -> (r: usize)
        ensures
            r == self@.len(),
    {
        self.functions.len()
    }

    /// Adds `function` under `name` and returns its reference, which stays
    /// the same as long as the environment lives.
    pub fn add(&mut self, name: String, function: Function) -> (f: FuncRef)
        requires
            old(self).wf(),
            function.wf(),
            old(self)@.len() < entity_limit(),
        ensures
            final(self)@ == old(self)@.add(name@, function@),
            final(self).wf(),
            f == FuncRef(old(self)@.len() as u32),
            final(self)@.index_of(name@) == Some(f),
    {
        let f = FuncRef(self.functions.len() as u32);
        self.names.push(name);
        self.functions.push(function);
        proof {
            assert(self@.names =~= old(self)@.names.push(name@));
            assert(self@.functions =~= old(self)@.functions.push(function@));
            assert forall|i: int| 0 <= i < self@.functions.len() implies (
            #[trigger] self@.functions[i]).wf() by {
                if i < old(self)@.functions.len() {
                    assert(old(self)@.functions[i].wf());
                }
            }
        }
        f
    }

    /// The reference of the function that was added last under `name`.
    pub fn index_of(&self, name: &str) -> (r: Option<FuncRef>)
        requires
            self.wf(),
        ensures
            r == self@.index_of(name@),
            r matches Some(f) ==> self@.has(f),
    {
        let wanted = String::from_str(name);
        let mut k: usize = self.names.len();
        proof {
            self@.lemma_index_of_valid(name@);
            assert(self@.names.subrange(0, k as int) =~= self@.names);
            assert(self@ == (EnvModel {
                names: self@.names.subrange(0, k as int),
                functions: self@.functions,
            }));
        }
        while k > 0
            invariant
                k <= self.names@.len(),
                self.wf(),
                wanted@ == name@,
                self@.index_of(name@) == (EnvModel {
                    names: self@.names.subrange(0, k as int),
                    functions: self@.functions,
                }).index_of(name@),
            decreases k,
        {
            let ghost cur = EnvModel {
                names: self@.names.subrange(0, k as int),
                functions: self@.functions,
            };
            proof {
                assert(cur.names.last() == self.names@[k - 1]@);
                assert(cur.names.drop_last() =~= self@.names.subrange(0, k - 1));
            }
            if self.names[k - 1] == wanted {
                return Some(FuncRef((k - 1) as u32));
            }
            k -= 1;
        }
        None
    }

    /// The reference of the function that was added last under `name`.
    pub fn get_func_ref_by_name(&self, name: &str) -> (r: Option<FuncRef>)
        requires
            self.wf(),
        ensures
            r == self@.index_of(name@),
            r matches Some(f) ==> self@.has(f),
    {
        self.index_of(name)
    }

    /// The function that `func_ref` names, if there is one.
    pub fn get_by_func_ref(&self, func_ref: FuncRef) -> (r: Option<&Function>)
        requires
            self.wf(),
        ensures
            r matches Some(f) ==> self@.has(func_ref) && f@ == self@.function(func_ref) && f.wf(),
            r is None <==> !self@.has(func_ref),
    {
        if func_ref.index() < self.functions.len() {
            proof {
                assert(self@.functions[func_ref.idx()].wf());
            }
            Some(&self.functions[func_ref.index()])
        } else {
            None
        }
    }

    /// The reference of the function that was added last under `name`.
    pub fn func_ref_by_name(&self, name: &str) -> (r: Option<FuncRef>)
        requires
            self.wf(),
        ensures
            r == self@.index_of(name@),
            r matches Some(f) ==> self@.has(f),
    {
        self.index_of(name)
    }

    /// The function that `func_ref` names; fails with
    /// `InvalidFunctionReference` where there is none.
    pub fn function(&self, func_ref: FuncRef) -> (r: Result<&Function, Trap>)
        requires
            self.wf(),
        ensures
            self@.has(func_ref) ==> (r matches Ok(f) && f@ == self@.function(func_ref) && f.wf()),
            !self@.has(func_ref) ==> (r matches Err(t) && t@
                == TrapModel::InvalidFunctionReference(func_ref)),
    {
        match self.get_by_func_ref(func_ref) {
            Some(f) => Ok(f),
            None => Err(Trap::InvalidFunctionReference(func_ref)),
        }
    }

    /// The name under which the function `func_ref` was added. The
    /// references number the functions in the order in which they were
    /// added.
    pub fn name_of(&self, func_ref: FuncRef) -> (r: Option<&String>)
        ensures
            self@.has(func_ref) && func_ref.idx() < self@.names.len() ==> (r matches Some(n)
                && n@ == self@.names[func_ref.idx()]),
            !(self@.has(func_ref) && func_ref.idx() < self@.names.len()) ==> r is None,
    {
        if func_ref.index() < self.functions.len() && func_ref.index() < self.names.len() {
            Some(&self.names[func_ref.index()])
        } else {
            None
        }
    }

    /// The function that was added last under `name`, if there is one.
    pub fn get_by_name(&self, name: &str) -> (r: Option<&Function>)
        requires
            self.wf(),
        ensures
            match self@.index_of(name@) {
                Some(i) => r matches Some(f) && f@ == self@.function(i) && f.wf(),
                None => r is None,
            },
    {
        match self.index_of(name) {
            Some(i) => self.get_by_func_ref(i),
            None => None,
        }
    }
}

} // verus!

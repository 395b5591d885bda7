//! The values of one call: a map from SSA values to what they hold.
use crate::data_value::DataValue;
use crate::ir::entities::{FuncRef, ValueRef};
use crate::ir::function::Function;
use crate::trap::{Trap, TrapModel};
use vstd::prelude::*;

verus! {

/// The mathematical content of a [`Frame`]: what each SSA value holds, by
/// the value's number; `None` where it was not set.
pub ghost struct FrameModel {
    pub func_ref: FuncRef,
    pub registers: Seq<Option<DataValue>>,
}

impl FrameModel {
    /// The frame of `n` values of which none is set.
    pub open spec fn fresh(func_ref: FuncRef, n: nat) -> FrameModel {
        FrameModel { func_ref, registers: Seq::new(n, |i: int| None::<DataValue>) }
    }

    pub open spec fn in_range(self, v: ValueRef) -> bool {
        v.idx() < self.registers.len()
    }

    pub open spec fn is_bound(self, v: ValueRef) -> bool {
        self.in_range(v) && self.registers[v.idx()] is Some
    }

    /// What reading `v` gives.
    pub open spec fn get(self, v: ValueRef) -> Result<DataValue, TrapModel> {
        if self.is_bound(v) {
            Ok(self.registers[v.idx()].unwrap())
        } else {
            Err(TrapModel::UnboundValue(v))
        }
    }

    /// What reading `vs` in order gives: their values, or the failure of the
    /// first that is not set.
    pub open spec fn get_all(self, vs: Seq<ValueRef>) -> Result<Seq<DataValue>, TrapModel>
        decreases vs.len(),
    {
        if vs.len() == 0 {
            Ok(Seq::empty())
        } else {
            match self.get_all(vs.drop_last()) {
                Err(e) => Err(e),
                Ok(xs) => match self.get(vs.last()) {
                    Ok(x) => Ok(xs.push(x)),
                    Err(e) => Err(e),
                },
            }
        }
    }

    /// The frame after `v` was set to `x`.
    pub open spec fn set(self, v: ValueRef, x: DataValue) -> FrameModel {
        FrameModel { registers: self.registers.update(v.idx(), Some(x)), ..self }
    }

    /// What setting `vs` to `xs` in order gives: the frame after it, or the
    /// failure of the first value that cannot be set.
    pub open spec fn set_all(self, vs: Seq<ValueRef>, xs: Seq<DataValue>) -> Result<
        FrameModel,
        TrapModel,
    >
        decreases vs.len(),
    {
        if vs.len() != xs.len() {
            Err(TrapModel::InvalidControlFlow(crate::trap::arity_text()))
        } else if vs.len() == 0 {
            Ok(self)
        } else {
            match self.set_all(vs.drop_last(), xs.drop_last()) {
                Err(e) => Err(e),
                Ok(f) => if !f.in_range(vs.last()) || f.is_bound(vs.last()) {
                    Err(TrapModel::Redefined(vs.last()))
                } else {
                    Ok(f.set(vs.last(), xs.last()))
                },
            }
        }
    }

    /// The frame after as many of the first `k` of `vs` were set to the `xs`
    /// at their positions as can be set in order: all that stand before the
    /// first that is set already or is no value of the frame.
    pub open spec fn set_as_far(self, vs: Seq<ValueRef>, xs: Seq<DataValue>, k: int) -> FrameModel
        decreases k,
    {
        if k <= 0 {
            self
        } else {
            match self.set_all(vs.subrange(0, k), xs.subrange(0, k)) {
                Ok(f) => f,
                Err(_) => self.set_as_far(vs, xs, k - 1),
            }
        }
    }

    /// The registers after the first `k` of `old_names` were moved to their
    /// `new_names`, starting from registers of which none is set.
    pub open spec fn renamed(self, old_names: Seq<ValueRef>, new_names: Seq<ValueRef>, k: int) -> Seq<
        Option<DataValue>,
    >
        decreases k,
    {
        if k <= 0 {
            Seq::new(self.registers.len(), |i: int| None::<DataValue>)
        } else {
            let before = self.renamed(old_names, new_names, k - 1);
            if self.is_bound(old_names[k - 1]) && new_names[k - 1].idx() < before.len() {
                before.update(new_names[k - 1].idx(), self.registers[old_names[k - 1].idx()])
            } else {
                before
            }
        }
    }

    /// The frame after a transfer to a block: each of `new_names` holds what
    /// the `old_names` at its position held, and nothing else is set.
    pub open spec fn rename(self, old_names: Seq<ValueRef>, new_names: Seq<ValueRef>) -> FrameModel {
        FrameModel {
            registers: self.renamed(old_names, new_names, old_names.len() as int),
            ..self
        }
    }

    pub proof fn lemma_renamed_len(self, old_names: Seq<ValueRef>, new_names: Seq<ValueRef>, k: int)
        ensures
            self.renamed(old_names, new_names, k).len() == self.registers.len(),
        decreases k,
    {
        if k > 0 {
            self.lemma_renamed_len(old_names, new_names, k - 1);
        }
    }

    pub proof fn lemma_set_all_len(self, vs: Seq<ValueRef>, xs: Seq<DataValue>)
        ensures
            self.set_all(vs, xs) matches Ok(f) ==> f.registers.len() == self.registers.len()
                && f.func_ref == self.func_ref,
        decreases vs.len(),
    {
        if vs.len() == xs.len() && vs.len() > 0 {
            self.lemma_set_all_len(vs.drop_last(), xs.drop_last());
        }
    }
}

/// The values of one call.
#[derive(Debug)]
pub struct Frame {
    func_ref: FuncRef,
    registers: Vec<Option<DataValue>>,
}

impl View for Frame {
    type V = FrameModel;

    closed spec fn view(&self) -> FrameModel {
        FrameModel { func_ref: self.func_ref, registers: self.registers@ }
    }
}

impl Frame {
    /// The frame for a call of `function`, with none of its values set.
    pub fn new(func_ref: FuncRef, function: &Function) -> (r: Self)
        ensures
            r@ == FrameModel::fresh(func_ref, function@.dfg.values.len()),
    {
        let n = function.dfg.num_values();
        let mut registers: Vec<Option<DataValue>> = Vec::new();
        let mut k: usize = 0;
        while k < n
            invariant
                k <= n,
                registers@.len() == k,
                forall|i: int| 0 <= i < k ==> registers@[i] == None::<DataValue>,
            decreases n - k,
        {
            registers.push(None);
            k += 1;
        }
        let r = Frame { func_ref, registers };
        assert(r@.registers =~= FrameModel::fresh(func_ref, n as nat).registers);
        r
    }

    /// The reference of the function that is being called.
    pub fn func_ref(&self) -> (r: FuncRef)
        ensures
            r == self@.func_ref,
    {
        self.func_ref
    }

    /// Binds the parameters of a call to its arguments, position by
    /// position; fails where they differ in number or a parameter is set
    /// already.
    pub fn with_parameters(self, parameters: &Vec<ValueRef>, values: &Vec<DataValue>) -> (r: Result<
        Frame,
        Trap,
    >)
        ensures
            match self@.set_all(parameters@, values@) {
                Ok(f) => r matches Ok(g) && g@ == f,
                Err(e) => r matches Err(t) && t@ == e,
            },
    {
        let mut frame = self;
        match frame.set_all(parameters, values) {
            Ok(()) => Ok(frame),
            Err(t) => Err(t),
        }
    }

    /// Whether `name` is set.
    pub fn is_bound(&self, name: ValueRef) -> (r: bool)
        ensures
            r == self@.is_bound(name),
    {
        name.index() < self.registers.len() && self.registers[name.index()].is_some()
    }

    /// Whether `name` is a value of the frame's function.
    pub fn in_range(&self, name: ValueRef) -> (r: bool)
        ensures
            r == self@.in_range(name),
    {
        name.index() < self.registers.len()
    }

    /// Reads `name`; fails with `UnboundValue` where it was not set.
    pub fn get(&self, name: ValueRef) -> (r: Result<DataValue, Trap>)
        ensures
            match self@.get(name) {
                Ok(x) => r matches Ok(y) && y == x,
                Err(e) => r matches Err(t) && t@ == e,
            },
    {
        if name.index() < self.registers.len() {
            match self.registers[name.index()] {
                Some(x) => Ok(x),
                None => Err(Trap::UnboundValue(name)),
            }
        } else {
            Err(Trap::UnboundValue(name))
        }
    }

    /// Reads `names` in order.
    pub fn get_all(&self, names: &Vec<ValueRef>) -> (r: Result<Vec<DataValue>, Trap>)
        ensures
            match self@.get_all(names@) {
                Ok(xs) => r matches Ok(ys) && ys@ == xs,
                Err(e) => r matches Err(t) && t@ == e,
            },
    {
        let mut out: Vec<DataValue> = Vec::new();
        let mut k: usize = 0;
        while k < names.len()
            invariant
                k <= names@.len(),
                self@.get_all(names@.subrange(0, k as int)) == Ok::<Seq<DataValue>, TrapModel>(
                    out@,
                ),
            decreases names@.len() - k,
        {
            proof {
                assert(names@.subrange(0, k + 1).drop_last() =~= names@.subrange(0, k as int));
            }
            match self.get(names[k]) {
                Ok(x) => {
                    out.push(x);
                },
                Err(t) => {
                    proof {
                        self@.lemma_get_all_prefix_fails(names@, k + 1);
                    }
                    return Err(t);
                },
            }
            k += 1;
        }
        proof {
            assert(names@.subrange(0, k as int) =~= names@);
        }
        Ok(out)
    }

    /// Sets `name`, which must not be set yet.
    pub fn set(&mut self, name: ValueRef, value: DataValue)
        requires
            old(self)@.in_range(name),
            !old(self)@.is_bound(name),
        ensures
            final(self)@ == old(self)@.set(name, value),
    {
        self.registers[name.index()] = Some(value);
    }

    /// Sets `names` to `values`, position by position; fails where they
    /// differ in number or one of the names is set already. Where it fails,
    /// the names before the failing one are set, and nothing is set where
    /// the numbers differ.
    pub fn set_all(&mut self, names: &Vec<ValueRef>, values: &Vec<DataValue>) -> (r: Result<
        (),
        Trap,
    >)
        ensures
            match old(self)@.set_all(names@, values@) {
                Ok(f) => r is Ok && final(self)@ == f,
                Err(e) => r matches Err(t) && t@ == e && final(self)@ == (if names@.len()
                    != values@.len() {
                    old(self)@
                } else {
                    old(self)@.set_as_far(names@, values@, names@.len() as int)
                }),
            },
    {
        if names.len() != values.len() {
            return Err(Trap::arity());
        }
        let mut k: usize = 0;
        while k < names.len()
            invariant
                k <= names@.len(),
                names@.len() == values@.len(),
                old(self)@.set_all(names@.subrange(0, k as int), values@.subrange(0, k as int))
                    == Ok::<FrameModel, TrapModel>(self@),
            decreases names@.len() - k,
        {
            proof {
                assert(names@.subrange(0, k + 1).drop_last() =~= names@.subrange(0, k as int));
                assert(values@.subrange(0, k + 1).drop_last() =~= values@.subrange(0, k as int));
            }
            let name = names[k];
            if !self.in_range(name) || self.is_bound(name) {
                proof {
                    old(self)@.lemma_set_all_prefix_fails(names@, values@, k + 1);
                    old(self)@.lemma_set_as_far(names@, values@, k as int, names@.len() as int);
                }
                return Err(Trap::Redefined(name));
            }
            self.set(name, values[k]);
            k += 1;
        }
        proof {
            assert(names@.subrange(0, k as int) =~= names@);
            assert(values@.subrange(0, k as int) =~= values@);
        }
        Ok(())
    }

    /// Rebinds the frame on a transfer to a block: each of `new_names` gets
    /// what the `old_names` at its position holds, and every other value is
    /// unset.
    pub fn rename(&mut self, old_names: &Vec<ValueRef>, new_names: &Vec<ValueRef>)
        requires
            old_names@.len() == new_names@.len(),
        ensures
            final(self)@ == old(self)@.rename(old_names@, new_names@),
    {
        let n = self.registers.len();
        let mut registers: Vec<Option<DataValue>> = Vec::new();
        let mut i: usize = 0;
        while i < n
            invariant
                i <= n,
                registers@.len() == i,
                forall|j: int| 0 <= j < i ==> registers@[j] == None::<DataValue>,
            decreases n - i,
        {
            registers.push(None);
            i += 1;
        }
        proof {
            assert(registers@ =~= self@.renamed(old_names@, new_names@, 0));
        }
        let mut k: usize = 0;
        while k < old_names.len()
            invariant
                k <= old_names@.len(),
                old_names@.len() == new_names@.len(),
                self == old(self),
                registers@ == self@.renamed(old_names@, new_names@, k as int),
            decreases old_names@.len() - k,
        {
            proof {
                self@.lemma_renamed_len(old_names@, new_names@, k as int);
            }
            let on = old_names[k];
            let nn = new_names[k];
            if self.is_bound(on) && nn.index() < registers.len() {
                registers[nn.index()] = self.registers[on.index()];
            }
            k += 1;
        }
        self.registers = registers;
    }
}

impl FrameModel {
    /// Once a prefix of `vs` fails to be read, all of `vs` fails in the same
    /// way.
    pub proof fn lemma_get_all_prefix_fails(self, vs: Seq<ValueRef>, k: int)
        requires
            0 <= k <= vs.len(),
            self.get_all(vs.subrange(0, k)) is Err,
        ensures
            self.get_all(vs) == self.get_all(vs.subrange(0, k)),
        decreases vs.len() - k,
    {
        if k < vs.len() {
            assert(vs.subrange(0, k + 1).drop_last() =~= vs.subrange(0, k));
            self.lemma_get_all_prefix_fails(vs, k + 1);
        } else {
            assert(vs.subrange(0, k) =~= vs);
        }
    }

    /// Where the first `k` can be set and the next cannot, the first `k` are
    /// as far as setting gets.
    pub proof fn lemma_set_as_far(self, vs: Seq<ValueRef>, xs: Seq<DataValue>, k: int, n: int)
        requires
            0 <= k < n <= vs.len(),
            vs.len() == xs.len(),
            self.set_all(vs.subrange(0, k), xs.subrange(0, k)) is Ok,
            self.set_all(vs.subrange(0, k + 1), xs.subrange(0, k + 1)) is Err,
        ensures
            self.set_as_far(vs, xs, n) == self.set_all(vs.subrange(0, k), xs.subrange(0, k))->Ok_0,
        decreases n,
    {
        let a = vs.subrange(0, n);
        let b = xs.subrange(0, n);
        assert(a.subrange(0, k + 1) =~= vs.subrange(0, k + 1));
        assert(b.subrange(0, k + 1) =~= xs.subrange(0, k + 1));
        self.lemma_set_all_prefix_fails(a, b, k + 1);
        assert(self.set_all(a, b) is Err);
        assert(self.set_as_far(vs, xs, n) == self.set_as_far(vs, xs, n - 1));
        if n > k + 1 {
            self.lemma_set_as_far(vs, xs, k, n - 1);
        } else if k == 0 {
            assert(vs.subrange(0, 0).len() == 0);
            assert(xs.subrange(0, 0).len() == 0);
            assert(self.set_all(vs.subrange(0, 0), xs.subrange(0, 0)) == Ok::<
                FrameModel,
                TrapModel,
            >(self));
        }
    }

    /// Once a prefix of `vs` fails to be set, all of `vs` fails in the same
    /// way.
    pub proof fn lemma_set_all_prefix_fails(
        self,
        vs: Seq<ValueRef>,
        xs: Seq<DataValue>,
        k: int,
    )
        requires
            0 <= k <= vs.len(),
            vs.len() == xs.len(),
            self.set_all(vs.subrange(0, k), xs.subrange(0, k)) is Err,
        ensures
            self.set_all(vs, xs) == self.set_all(vs.subrange(0, k), xs.subrange(0, k)),
        decreases vs.len() - k,
    {
        if k < vs.len() {
            assert(vs.subrange(0, k + 1).drop_last() =~= vs.subrange(0, k));
            assert(xs.subrange(0, k + 1).drop_last() =~= xs.subrange(0, k));
            self.lemma_set_all_prefix_fails(vs, xs, k + 1);
        } else {
            assert(vs.subrange(0, k) =~= vs);
            assert(xs.subrange(0, k) =~= xs);
        }
    }
}

} // verus!

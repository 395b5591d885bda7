//! The record of what the interpreter did while tracing was on.
use crate::environment::{EnvModel, Environment};
use crate::ir::entities::{FuncRef, Inst, ValueRef};
use crate::ir::instructions::InstructionData;
use crate::util::copy_vec;
use vstd::prelude::*;

verus! {

/// One record of a trace.
#[derive(Clone, Copy, PartialEq, Eq, Structural, Debug, Hash)]
pub enum TracedInstruction {
    /// Tracing was turned on in this function.
    StartInFunction(FuncRef),
    /// A call entered this function.
    EnterFunction(FuncRef),
    /// The function that was entered last returned.
    ExitFunction,
    /// The instruction was interpreted.
    Instruction(Inst),
    /// The instruction guards the trace.
    Guard(Inst),
}

/// The mathematical content of a [`Trace`].
pub ghost struct TraceModel {
    /// The id of the trace that is being recorded, if one is.
    pub tracing: Option<i64>,
    /// The records, oldest first.
    pub observed: Seq<TracedInstruction>,
}

/// How many records of `s` say that tracing was turned on.
pub open spec fn count_starts(s: Seq<TracedInstruction>) -> nat
    decreases s.len(),
{
    if s.len() == 0 {
        0
    } else {
        count_starts(s.drop_last()) + if s.last() is StartInFunction {
            1nat
        } else {
            0nat
        }
    }
}

/// How many records of `s` say that a function was entered.
pub open spec fn count_enters(s: Seq<TracedInstruction>) -> nat
    decreases s.len(),
{
    if s.len() == 0 {
        0
    } else {
        count_enters(s.drop_last()) + if s.last() is EnterFunction {
            1nat
        } else {
            0nat
        }
    }
}

/// How many records of `s` say that a function returned.
pub open spec fn count_exits(s: Seq<TracedInstruction>) -> nat
    decreases s.len(),
{
    if s.len() == 0 {
        0
    } else {
        count_exits(s.drop_last()) + if s.last() is ExitFunction {
            1nat
        } else {
            0nat
        }
    }
}

/// The calls that `s` entered and did not leave: entries less exits.
pub open spec fn balance(s: Seq<TracedInstruction>) -> int {
    count_enters(s) - count_exits(s)
}

/// The lowest balance of a beginning of `s`: how far the trace got below
/// the depth of the stack at which it started, as a number not above zero.
pub open spec fn lowest(s: Seq<TracedInstruction>) -> int
    decreases s.len(),
{
    if s.len() == 0 {
        0
    } else if balance(s) < lowest(s.drop_last()) {
        balance(s)
    } else {
        lowest(s.drop_last())
    }
}

/// What one more record makes of the lowest balance.
pub proof fn lemma_lowest_push(s: Seq<TracedInstruction>, t: TracedInstruction)
    ensures
        lowest(s.push(t)) == if balance(s.push(t)) < lowest(s) {
            balance(s.push(t))
        } else {
            lowest(s)
        },
{
    assert(s.push(t).drop_last() =~= s);
}

/// No beginning of a trace has a balance below the lowest.
pub proof fn lemma_lowest_bounds_prefixes(s: Seq<TracedInstruction>, k: int)
    requires
        0 <= k <= s.len(),
    ensures
        balance(s.subrange(0, k)) >= lowest(s),
        lowest(s) <= 0,
    decreases s.len(),
{
    if s.len() > 0 {
        if k == s.len() {
            assert(s.subrange(0, k) =~= s);
            lemma_lowest_bounds_prefixes(s.drop_last(), 0);
        } else {
            assert(s.subrange(0, k) =~= s.drop_last().subrange(0, k));
            lemma_lowest_bounds_prefixes(s.drop_last(), k);
        }
    } else {
        assert(s.subrange(0, k) =~= s);
    }
}

pub proof fn lemma_counts_push(s: Seq<TracedInstruction>, t: TracedInstruction)
    ensures
        count_starts(s.push(t)) == count_starts(s) + if t is StartInFunction {
            1nat
        } else {
            0nat
        },
        count_enters(s.push(t)) == count_enters(s) + if t is EnterFunction {
            1nat
        } else {
            0nat
        },
        count_exits(s.push(t)) == count_exits(s) + if t is ExitFunction {
            1nat
        } else {
            0nat
        },
{
    assert(s.push(t).drop_last() =~= s);
}

impl TraceModel {
    pub open spec fn empty() -> TraceModel {
        TraceModel { tracing: None, observed: Seq::empty() }
    }

    /// The trace after tracing was turned on for `id` in `func_ref`.
    pub open spec fn start(self, id: i64, func_ref: FuncRef) -> TraceModel {
        TraceModel {
            tracing: Some(id),
            observed: self.observed.push(TracedInstruction::StartInFunction(func_ref)),
        }
    }

    /// The trace after tracing was turned off.
    pub open spec fn end(self) -> TraceModel {
        TraceModel { tracing: None, observed: self.observed }
    }

    /// The trace after `item` was seen: recorded while tracing is on,
    /// dropped while it is off.
    pub open spec fn observe(self, item: TracedInstruction) -> TraceModel {
        if self.tracing is Some {
            TraceModel { tracing: self.tracing, observed: self.observed.push(item) }
        } else {
            self
        }
    }

    /// The trace without its newest record.
    pub open spec fn remove_last(self) -> TraceModel {
        if self.observed.len() > 0 {
            TraceModel { tracing: self.tracing, observed: self.observed.drop_last() }
        } else {
            self
        }
    }
}

/// An instruction of a trace, taken out of the function that holds it.
#[derive(Debug)]
pub struct ReconstructedInstruction {
    pub results: Vec<ValueRef>,
    pub instruction: InstructionData,
    pub args: Vec<ValueRef>,
}

/// The mathematical content of a [`ReconstructedInstruction`].
pub ghost struct ReconstructedModel {
    pub results: Seq<ValueRef>,
    pub instruction: InstructionData,
    pub args: Seq<ValueRef>,
}

impl View for ReconstructedInstruction {
    type V = ReconstructedModel;

    open spec fn view(&self) -> ReconstructedModel {
        ReconstructedModel {
            results: self.results@,
            instruction: self.instruction,
            args: self.args@,
        }
    }
}

/// The views of a vector's elements.
pub open spec fn reconstructed_views(v: Seq<ReconstructedInstruction>) -> Seq<ReconstructedModel> {
    Seq::new(v.len(), |i: int| v[i]@)
}

/// Walks the first `k` records of a trace: the functions entered and not
/// left, innermost last, and the instructions met, each as it stands in the
/// function that was innermost when it was recorded. `None` where a record
/// names an instruction outside a function, or one that the environment does
/// not hold, or is a guard.
pub open spec fn walk(env: EnvModel, observed: Seq<TracedInstruction>, k: int) -> Option<
    (Seq<FuncRef>, Seq<ReconstructedModel>),
>
    decreases k,
{
    if k <= 0 {
        Some((Seq::empty(), Seq::empty()))
    } else {
        match walk(env, observed, k - 1) {
            None => None,
            Some((stack, out)) => match observed[k - 1] {
                TracedInstruction::StartInFunction(f) => Some((stack.push(f), out)),
                TracedInstruction::EnterFunction(f) => Some((stack.push(f), out)),
                TracedInstruction::ExitFunction => if stack.len() > 0 {
                    Some((stack.drop_last(), out))
                } else {
                    Some((stack, out))
                },
                TracedInstruction::Instruction(i) => if stack.len() > 0 && env.has(stack.last())
                    && env.function(stack.last()).dfg.inst_valid(i) {
                    let dfg = env.function(stack.last()).dfg;
                    Some(
                        (
                            stack,
                            out.push(
                                ReconstructedModel {
                                    results: dfg.inst_results(i),
                                    instruction: dfg.insts[i.idx()],
                                    args: dfg.inst_args(i),
                                },
                            ),
                        ),
                    )
                } else {
                    None
                },
                TracedInstruction::Guard(_) => None,
            },
        }
    }
}

/// Once the walk fails it stays failed.
pub proof fn lemma_walk_fails(env: EnvModel, observed: Seq<TracedInstruction>, k: int, n: int)
    requires
        0 <= k <= n,
        walk(env, observed, k) is None,
    ensures
        walk(env, observed, n) is None,
    decreases n - k,
{
    if k < n {
        lemma_walk_fails(env, observed, k + 1, n);
    }
}

/// The record of what the interpreter did while tracing was on.
#[derive(Debug, PartialEq, Eq)]
pub struct Trace {
    tracing: Option<i64>,
    observed: Vec<TracedInstruction>,
}

impl View for Trace {
    type V = TraceModel;

    closed spec fn view(&self) -> TraceModel {
        TraceModel { tracing: self.tracing, observed: self.observed@ }
    }
}

impl From<Vec<TracedInstruction>> for Trace {
    /// The trace of the given records, with tracing off.
    fn from(observed: Vec<TracedInstruction>) -> (r: Self) {
        Trace { tracing: None, observed }
    }
}

impl vstd::std_specs::convert::FromSpecImpl<Vec<TracedInstruction>> for Trace {
    open spec fn obeys_from_spec() -> bool {
        true
    }

    closed spec fn from_spec(observed: Vec<TracedInstruction>) -> Self {
        Trace { tracing: None, observed }
    }
}

/// The trace that `Trace::from` makes of records holds them, with tracing
/// off.
pub proof fn lemma_from_observed(observed: Vec<TracedInstruction>)
    ensures
        <Trace as vstd::std_specs::convert::FromSpec<Vec<TracedInstruction>>>::from_spec(observed)@
            == (TraceModel { tracing: None, observed: observed@ }),
{
}

impl Trace {
    /// The empty trace, with tracing off.
    pub fn new() -> (r: Self)
        ensures
            r@ == TraceModel::empty(),
    {
        Trace { tracing: None, observed: Vec::new() }
    }

    /// The trace of the given records, with tracing off.
    pub fn from_observed(observed: Vec<TracedInstruction>) -> (r: Self)
        ensures
            r@ == (TraceModel { tracing: None, observed: observed@ }),
    {
        Trace { tracing: None, observed }
    }

    /// Turns tracing on for `id` and records that it started in `func_ref`.
    pub fn start(&mut self, id: i64, func_ref: FuncRef)
        requires
            old(self)@.tracing is None,
        ensures
            final(self)@ == old(self)@.start(id, func_ref),
    {
        self.tracing = Some(id);
        self.observed.push(TracedInstruction::StartInFunction(func_ref));
    }

    /// Turns tracing off and returns the id that was traced.
    pub fn end(&mut self) -> (id: i64)
        requires
            old(self)@.tracing is Some,
        ensures
            final(self)@ == old(self)@.end(),
            Some(id) == old(self)@.tracing,
    {
        let id = self.tracing.unwrap();
        self.tracing = None;
        id
    }

    /// The id of the trace that is being recorded, if one is.
    pub fn tracing(&self) -> (r: Option<i64>)
        ensures
            r == self@.tracing,
    {
        self.tracing
    }

    /// Records `observed` while tracing is on; does nothing while it is off.
    pub fn observe(&mut self, observed: TracedInstruction)
        ensures
            final(self)@ == old(self)@.observe(observed),
    {
        if self.tracing.is_some() {
            self.observed.push(observed);
        }
    }

    pub fn len(&self) -> (r: usize)
        ensures
            r == self@.observed.len(),
    {
        self.observed.len()
    }

    pub fn is_empty(&self) -> (r: bool)
        ensures
            r == (self@.observed.len() == 0),
    {
        self.observed.len() == 0
    }

    /// The record at position `k`.
    pub fn get(&self, k: usize) -> (r: TracedInstruction)
        requires
            k < self@.observed.len(),
        ensures
            r == self@.observed[k as int],
    {
        self.observed[k]
    }

    /// Removes the newest record and returns it.
    pub fn remove_last(&mut self) -> (r: Option<TracedInstruction>)
        ensures
            final(self)@ == old(self)@.remove_last(),
            r == if old(self)@.observed.len() > 0 {
                Some(old(self)@.observed.last())
            } else {
                None
            },
    {
        self.observed.pop()
    }

    /// The instructions of the trace, each as it stands in the function in
    /// which it was recorded; `None` where [`walk`] fails on the trace.
    pub fn reconstruct(&self, env: &Environment) -> (r: Option<Vec<ReconstructedInstruction>>)
        requires
            env.wf(),
        ensures
            match walk(env@, self@.observed, self@.observed.len() as int) {
                Some((_, out)) => r matches Some(v) && reconstructed_views(v@) == out,
                None => r is None,
            },
    {
        let n = self.observed.len();
        let mut stack: Vec<FuncRef> = Vec::new();
        let mut out: Vec<ReconstructedInstruction> = Vec::new();
        let mut k: usize = 0;
        proof {
            assert(reconstructed_views(out@) =~= Seq::empty());
        }
        while k < n
            invariant
                k <= n,
                n == self@.observed.len(),
                env.wf(),
                walk(env@, self@.observed, k as int) == Some((stack@, reconstructed_views(out@))),
            decreases n - k,
        {
            let ghost before = reconstructed_views(out@);
            match self.observed[k] {
                TracedInstruction::StartInFunction(f) => {
                    stack.push(f);
                },
                TracedInstruction::EnterFunction(f) => {
                    stack.push(f);
                },
                TracedInstruction::ExitFunction => {
                    let ghost s = stack@;
                    let _ = stack.pop();
                    proof {
                        if s.len() > 0 {
                            assert(stack@ =~= s.drop_last());
                        }
                    }
                },
                TracedInstruction::Instruction(i) => {
                    if stack.len() == 0 {
                        proof {
                            lemma_walk_fails(env@, self@.observed, k + 1, n as int);
                        }
                        return None;
                    }
                    let f = stack[stack.len() - 1];
                    match env.get_by_func_ref(f) {
                        None => {
                            proof {
                                lemma_walk_fails(env@, self@.observed, k + 1, n as int);
                            }
                            return None;
                        },
                        Some(func) => {
                            if i.index() >= func.dfg.num_insts() {
                                proof {
                                    lemma_walk_fails(env@, self@.observed, k + 1, n as int);
                                }
                                return None;
                            }
                            let item = ReconstructedInstruction {
                                results: copy_vec(func.dfg.inst_results(i)),
                                instruction: func.dfg.inst(i),
                                args: func.dfg.inst_args(i),
                            };
                            out.push(item);
                            proof {
                                assert(reconstructed_views(out@) =~= before.push(item@));
                            }
                        },
                    }
                },
                TracedInstruction::Guard(_) => {
                    proof {
                        lemma_walk_fails(env@, self@.observed, k + 1, n as int);
                    }
                    return None;
                },
            }
            k += 1;
        }
        Some(out)
    }
}

} // verus!

//! What a reconstructed function computes, for a recorded run with calls,
//! jumps and returns: the run of the recorded instructions on a stack of
//! frames, and the run of the reconstructed function on one frame, stay in
//! step.
use crate::data_value::DataValue;
use crate::environment::EnvModel;
use crate::frame::FrameModel;
use crate::ir::dfg::{lemma_distinct_bounded, DfgModel};
use crate::ir::entities::{Block, FuncRef, Inst, ValueRef};
use crate::ir::layout::LayoutModel;
use crate::ir::function::{CallConv, FunctionModel};
use crate::ir::instructions::{InstructionData, Opcode};
use crate::machine::{exec_inst, lemma_exec_inst_keeps_frame, ControlFlowModel, MachineModel};
use crate::reconstruct::{
    bind, lemma_reconstruct_all_fails, lookup, map_returns, returned_values, spec_build,
    spec_build_returning, spec_walk, ReconModel, RenumberingModel, StackFrameModel,
};
use crate::simulation::{
    agree, among, extends, first_insts, frame_after, holds_only, is_plain, lemma_among_index,
    lemma_continuing_is_plain, lemma_copy_shape, lemma_copy_simulates, lemma_exec_inst_stable,
    lemma_extends_transitive, lemma_index_among, lemma_reconstruct_all_sound,
    lemma_reconstruct_sound, replay, sound, start_state, sub_map,
};
use crate::trace::TracedInstruction;
use crate::trap::TrapModel;
use vstd::prelude::*;

verus! {

/// One call of a recorded run: the function that is called, what its values
/// hold, and the values of the caller that take what it returns.
pub ghost struct LevelModel {
    pub func_ref: FuncRef,
    pub frame: FrameModel,
    pub call_results: Seq<ValueRef>,
}

/// The values of `vs` are distinct.
pub open spec fn distinct(vs: Seq<ValueRef>) -> bool {
    forall|a: int, b: int| 0 <= a < b < vs.len() ==> vs[a] != vs[b]
}

/// What reading values gives, where it gives something: what each holds.
pub proof fn lemma_get_all_ok(frame: FrameModel, vs: Seq<ValueRef>)
    ensures
        frame.get_all(vs) matches Ok(xs) ==> xs.len() == vs.len() && forall|j: int|
            0 <= j < vs.len() ==> frame.get(#[trigger] vs[j]) == Ok::<DataValue, TrapModel>(xs[j]),
    decreases vs.len(),
{
    if vs.len() > 0 {
        lemma_get_all_ok(frame, vs.drop_last());
        match frame.get_all(vs) {
            Ok(xs) => {
                let ys = frame.get_all(vs.drop_last())->Ok_0;
                assert forall|j: int| 0 <= j < vs.len() implies frame.get(#[trigger] vs[j]) == Ok::<DataValue, TrapModel>(xs[j]) by {
                    if j < vs.len() - 1 {
                        assert(vs.drop_last()[j] == vs[j]);
                        assert(xs[j] == ys[j]);
                    }
                }
            },
            Err(_) => {},
        }
    }
}

/// What setting values gives, where it gives something: the values were
/// distinct and not set, each holds what it was set to, and nothing else
/// changed.
pub proof fn lemma_set_all_ok(frame: FrameModel, vs: Seq<ValueRef>, xs: Seq<DataValue>)
    ensures
        frame.set_all(vs, xs) matches Ok(after) ==> {
            &&& vs.len() == xs.len()
            &&& after.registers.len() == frame.registers.len()
            &&& after.func_ref == frame.func_ref
            &&& distinct(vs)
            &&& forall|j: int|
                0 <= j < vs.len() ==> !frame.is_bound(#[trigger] vs[j]) && after.get(vs[j]) == Ok::<DataValue, TrapModel>(xs[j])
            &&& forall|v: ValueRef|
                #![trigger after.is_bound(v)]
                after.is_bound(v) ==> among(vs, vs.len() as int, v) || (frame.is_bound(v)
                    && after.get(v) == frame.get(v))
        },
    decreases vs.len(),
{
    if vs.len() == xs.len() && vs.len() > 0 {
        let n = vs.len() as int;
        lemma_set_all_ok(frame, vs.drop_last(), xs.drop_last());
        match frame.set_all(vs, xs) {
            Ok(after) => {
                let mid = frame.set_all(vs.drop_last(), xs.drop_last())->Ok_0;
                let last = vs[n - 1];
                assert(after == mid.set(last, xs[n - 1]));
                assert(!mid.is_bound(last) && mid.in_range(last));
                assert forall|j: int| 0 <= j < n implies !frame.is_bound(#[trigger] vs[j])
                    && after.get(vs[j]) == Ok::<DataValue, TrapModel>(xs[j]) by {
                    if j < n - 1 {
                        assert(vs.drop_last()[j] == vs[j]);
                        assert(xs.drop_last()[j] == xs[j]);
                        assert(mid.get(vs[j]) == Ok::<DataValue, TrapModel>(xs[j]));
                        assert(vs[j] != last);
                    } else {
                        if frame.is_bound(last) {
                            assert(mid.is_bound(last)) by {
                                if !among(vs.drop_last(), n - 1, last) {
                                    lemma_set_all_keeps(frame, vs.drop_last(), xs.drop_last(), last);
                                } else {
                                    let i = lemma_among_index(vs.drop_last(), n - 1, last);
                                    assert(mid.get(vs.drop_last()[i]) is Ok);
                                }
                            }
                        }
                    }
                }
                assert forall|a: int, b: int| 0 <= a < b < n implies vs[a] != vs[b] by {
                    if b < n - 1 {
                        assert(vs.drop_last()[a] != vs.drop_last()[b]);
                    } else {
                        assert(vs.drop_last()[a] == vs[a]);
                        assert(mid.get(vs.drop_last()[a]) is Ok);
                    }
                }
                assert forall|v: ValueRef| #![trigger after.is_bound(v)] after.is_bound(v) implies among(
                    vs,
                    n,
                    v,
                ) || (frame.is_bound(v) && after.get(v) == frame.get(v)) by {
                    if v != last {
                        assert(mid.is_bound(v));
                        if among(vs.drop_last(), n - 1, v) {
                            let i = lemma_among_index(vs.drop_last(), n - 1, v);
                            assert(vs[i] == v);
                            lemma_index_among(vs, n, i);
                        }
                    }
                }
            },
            Err(_) => {},
        }
    }
}

/// Setting values keeps what was set before.
pub proof fn lemma_set_all_keeps(
    frame: FrameModel,
    vs: Seq<ValueRef>,
    xs: Seq<DataValue>,
    v: ValueRef,
)
    requires
        frame.is_bound(v),
    ensures
        frame.set_all(vs, xs) matches Ok(after) ==> after.is_bound(v),
    decreases vs.len(),
{
    if vs.len() == xs.len() && vs.len() > 0 {
        lemma_set_all_keeps(frame, vs.drop_last(), xs.drop_last(), v);
    }
}

/// What binding parameters to arguments gives, where it gives something:
/// exactly the parameters have new values, and each distinct parameter has
/// that of its argument.
pub proof fn lemma_bind_ok(
    current: RenumberingModel,
    inputs: RenumberingModel,
    use_inputs: bool,
    olds: Seq<ValueRef>,
    news: Seq<ValueRef>,
    k: int,
)
    requires
        0 <= k <= olds.len(),
        k <= news.len(),
        distinct(news),
    ensures
        bind(current, inputs, use_inputs, olds, news, k) matches Some(m) ==> {
            &&& forall|v: ValueRef| #[trigger] m.contains_key(v) <==> among(news, k, v)
            &&& forall|j: int|
                0 <= j < k ==> lookup(current, inputs, olds[j]) == Some(m[#[trigger] news[j]])
        },
    decreases k,
{
    if k > 0 {
        lemma_bind_ok(current, inputs, use_inputs, olds, news, k - 1);
    }
}

/// What a transfer to a block leaves set: parameters of the block, each
/// holding what its argument held.
pub proof fn lemma_renamed_source(
    frame: FrameModel,
    olds: Seq<ValueRef>,
    news: Seq<ValueRef>,
    k: int,
    v: ValueRef,
) -> (j: int)
    requires
        0 <= k <= olds.len(),
        k <= news.len(),
        v.idx() < frame.registers.len(),
        frame.renamed(olds, news, k)[v.idx()] is Some,
    ensures
        0 <= j < k,
        news[j] == v,
        frame.is_bound(olds[j]),
        frame.renamed(olds, news, k)[v.idx()] == frame.registers[olds[j].idx()],
    decreases k,
{
    frame.lemma_renamed_len(olds, news, k - 1);
    if k <= 0 {
        0
    } else {
        let before = frame.renamed(olds, news, k - 1);
        if frame.is_bound(olds[k - 1]) && news[k - 1].idx() < before.len() && news[k - 1] == v {
            k - 1
        } else {
            lemma_renamed_source(frame, olds, news, k - 1, v)
        }
    }
}

/// The caller's renumbering after a return, where the results of the call
/// are distinct and each returned value has a new value: the results have
/// the new values of what was returned, and nothing else changed.
pub proof fn lemma_map_returns_ok(
    caller: RenumberingModel,
    callee: RenumberingModel,
    inputs: RenumberingModel,
    results: Seq<ValueRef>,
    returned: Seq<ValueRef>,
    k: int,
)
    requires
        0 <= k <= results.len(),
        k <= returned.len(),
        distinct(results),
        forall|j: int| 0 <= j < k ==> lookup(callee, inputs, #[trigger] returned[j]) is Some,
    ensures
        ({
            let m = map_returns(caller, callee, inputs, results, returned, k);
            &&& forall|v: ValueRef|
                #[trigger] m.contains_key(v) <==> caller.contains_key(v) || among(results, k, v)
            &&& forall|v: ValueRef|
                caller.contains_key(v) && !among(results, k, v) ==> #[trigger] m[v] == caller[v]
            &&& forall|j: int|
                0 <= j < k ==> lookup(callee, inputs, returned[j]) == Some(m[#[trigger] results[j]])
        }),
    decreases k,
{
    if k > 0 {
        lemma_map_returns_ok(caller, callee, inputs, results, returned, k - 1);
        assert(lookup(callee, inputs, returned[k - 1]) is Some);
        let before = map_returns(caller, callee, inputs, results, returned, k - 1);
        let m = map_returns(caller, callee, inputs, results, returned, k);
        let t = lookup(callee, inputs, returned[k - 1]).unwrap();
        assert(m == before.insert(results[k - 1], t));
        assert forall|j: int| 0 <= j < k implies lookup(callee, inputs, returned[j]) == Some(
            m[#[trigger] results[j]],
        ) by {
            if j < k - 1 {
                assert(results[j] != results[k - 1]);
                assert(lookup(callee, inputs, returned[j]) == Some(before[results[j]]));
            }
        }
    }
}

/// The old frame and the new one are in step: a value that is set in the
/// old frame and has a new value holds under it, in the new frame, what it
/// holds in the old one; a value that is set and has none holds what it
/// held when tracing started.
pub open spec fn in_step(
    frame: FrameModel,
    current: RenumberingModel,
    g: FrameModel,
    frame0: FrameModel,
) -> bool {
    forall|v: ValueRef|
        #![trigger frame.is_bound(v)]
        frame.is_bound(v) ==> if current.contains_key(v) {
            g.get(current[v]) == frame.get(v)
        } else {
            frame0.is_bound(v) && frame.get(v) == frame0.get(v)
        }
}

/// Every value that is set in the frame has a new value.
pub open spec fn covered(frame: FrameModel, current: RenumberingModel) -> bool {
    forall|v: ValueRef| #![trigger frame.is_bound(v)] frame.is_bound(v) ==> current.contains_key(v)
}

/// The new frame holds, under the parameter that stands for it, what each
/// input held when tracing started.
pub open spec fn inputs_hold(inputs: RenumberingModel, g: FrameModel, frame0: FrameModel) -> bool {
    forall|v: ValueRef|
        #![trigger inputs.contains_key(v)]
        inputs.contains_key(v) && frame0.is_bound(v) ==> g.get(inputs[v]) == frame0.get(v)
}

/// A call keeps the frames in step: the callee's frame, which holds the
/// arguments as its parameters, is in step with the new frame through the
/// renumbering that the call is walked into.
pub proof fn lemma_call_in_step(
    frame: FrameModel,
    current: RenumberingModel,
    inputs: RenumberingModel,
    use_inputs: bool,
    olds: Seq<ValueRef>,
    news: Seq<ValueRef>,
    g: FrameModel,
    frame0: FrameModel,
    empty: FrameModel,
)
    requires
        in_step(frame, current, g, frame0),
        inputs_hold(inputs, g, frame0),
        olds.len() == news.len(),
        forall|v: ValueRef| !empty.is_bound(v),
        bind(current, inputs, use_inputs, olds, news, olds.len() as int) is Some,
        frame.get_all(olds) is Ok,
        empty.set_all(news, frame.get_all(olds)->Ok_0) is Ok,
    ensures
        in_step(
            empty.set_all(news, frame.get_all(olds)->Ok_0)->Ok_0,
            bind(current, inputs, use_inputs, olds, news, olds.len() as int).unwrap(),
            g,
            frame0,
        ),
        covered(
            empty.set_all(news, frame.get_all(olds)->Ok_0)->Ok_0,
            bind(current, inputs, use_inputs, olds, news, olds.len() as int).unwrap(),
        ),
{
    let vals = frame.get_all(olds)->Ok_0;
    let after = empty.set_all(news, vals)->Ok_0;
    let m = bind(current, inputs, use_inputs, olds, news, olds.len() as int).unwrap();
    lemma_get_all_ok(frame, olds);
    lemma_set_all_ok(empty, news, vals);
    lemma_bind_ok(current, inputs, use_inputs, olds, news, olds.len() as int);
    assert forall|v: ValueRef| #![trigger after.is_bound(v)] after.is_bound(v) implies m.contains_key(
        v,
    ) && g.get(m[v]) == after.get(v) by {
        assert(among(news, news.len() as int, v));
        let j = lemma_among_index(news, news.len() as int, v);
        assert(after.get(news[j]) == Ok::<DataValue, TrapModel>(vals[j]));
        assert(frame.get(olds[j]) == Ok::<DataValue, TrapModel>(vals[j]));
        assert(frame.is_bound(olds[j]));
        assert(lookup(current, inputs, olds[j]) == Some(m[news[j]]));
    }
}

/// A jump keeps the frames in step: the frame after the transfer, which
/// holds the arguments as the parameters of the destination and nothing
/// else, is in step with the new frame through the renumbering that the
/// jump is walked into.
pub proof fn lemma_jump_in_step(
    frame: FrameModel,
    current: RenumberingModel,
    inputs: RenumberingModel,
    olds: Seq<ValueRef>,
    news: Seq<ValueRef>,
    g: FrameModel,
    frame0: FrameModel,
)
    requires
        in_step(frame, current, g, frame0),
        inputs_hold(inputs, g, frame0),
        olds.len() == news.len(),
        distinct(news),
        bind(current, inputs, true, olds, news, olds.len() as int) is Some,
    ensures
        in_step(
            frame.rename(olds, news),
            bind(current, inputs, true, olds, news, olds.len() as int).unwrap(),
            g,
            frame0,
        ),
        covered(
            frame.rename(olds, news),
            bind(current, inputs, true, olds, news, olds.len() as int).unwrap(),
        ),
{
    let after = frame.rename(olds, news);
    let n = olds.len() as int;
    let m = bind(current, inputs, true, olds, news, n).unwrap();
    lemma_bind_ok(current, inputs, true, olds, news, n);
    frame.lemma_renamed_len(olds, news, n);
    assert forall|v: ValueRef| #![trigger after.is_bound(v)] after.is_bound(v) implies m.contains_key(
        v,
    ) && g.get(m[v]) == after.get(v) by {
        let j = lemma_renamed_source(frame, olds, news, n, v);
        lemma_index_among(news, n, j);
        assert(frame.is_bound(olds[j]));
        assert(lookup(current, inputs, olds[j]) == Some(m[news[j]]));
    }
}

/// A return keeps the frames in step: the caller's frame, in which the
/// results of the call hold what was returned, is in step with the new
/// frame through the renumbering that the return is walked into.
pub proof fn lemma_return_in_step(
    caller: FrameModel,
    caller_map: RenumberingModel,
    callee: FrameModel,
    callee_map: RenumberingModel,
    inputs: RenumberingModel,
    results: Seq<ValueRef>,
    returned: Seq<ValueRef>,
    g: FrameModel,
    frame0: FrameModel,
)
    requires
        in_step(caller, caller_map, g, frame0),
        in_step(callee, callee_map, g, frame0),
        covered(callee, callee_map),
        callee.get_all(returned) is Ok,
        caller.set_all(results, callee.get_all(returned)->Ok_0) is Ok,
    ensures
        results.len() == returned.len(),
        in_step(
            caller.set_all(results, callee.get_all(returned)->Ok_0)->Ok_0,
            map_returns(caller_map, callee_map, inputs, results, returned, results.len() as int),
            g,
            frame0,
        ),
        covered(caller, caller_map) ==> covered(
            caller.set_all(results, callee.get_all(returned)->Ok_0)->Ok_0,
            map_returns(caller_map, callee_map, inputs, results, returned, results.len() as int),
        ),
{
    let vals = callee.get_all(returned)->Ok_0;
    let after = caller.set_all(results, vals)->Ok_0;
    let n = results.len() as int;
    lemma_get_all_ok(callee, returned);
    lemma_set_all_ok(caller, results, vals);
    assert forall|j: int| 0 <= j < n implies lookup(callee_map, inputs, #[trigger] returned[j])
        is Some by {
        assert(callee.is_bound(returned[j]));
    }
    lemma_map_returns_ok(caller_map, callee_map, inputs, results, returned, n);
    let m = map_returns(caller_map, callee_map, inputs, results, returned, n);
    assert forall|v: ValueRef| #![trigger after.is_bound(v)] after.is_bound(v) implies (if m.contains_key(
        v,
    ) {
        g.get(m[v]) == after.get(v)
    } else {
        frame0.is_bound(v) && after.get(v) == frame0.get(v)
    }) && (covered(caller, caller_map) ==> m.contains_key(v)) by {
        if among(results, n, v) {
            let j = lemma_among_index(results, n, v);
            assert(after.get(results[j]) == Ok::<DataValue, TrapModel>(vals[j]));
            assert(callee.get(returned[j]) == Ok::<DataValue, TrapModel>(vals[j]));
            assert(callee.is_bound(returned[j]));
            assert(lookup(callee_map, inputs, returned[j]) == Some(m[results[j]]));
        } else {
            assert(caller.is_bound(v));
        }
    }
}

/// The stack of a recorded run after a call was run: the callee is entered
/// with what the arguments hold as the parameters of its first block.
/// `None` where the call cannot be run.
pub open spec fn run_call(env: EnvModel, levels: Seq<LevelModel>, inst: Inst) -> Option<
    Seq<LevelModel>,
> {
    let top = levels.last();
    let source = env.function(top.func_ref);
    match source.dfg.insts[inst.idx()] {
        InstructionData::Call { args, func_ref, .. } => {
            match env.index_of(source.dfg.ext_funcs[func_ref.idx()]) {
                None => None,
                Some(callee) => match env.function(callee).layout.entry_block() {
                    None => None,
                    Some(entry) => match top.frame.get_all(source.dfg.list_values(args)) {
                        Err(_) => None,
                        Ok(vals) => match FrameModel::fresh(
                            callee,
                            env.function(callee).dfg.values.len(),
                        ).set_all(env.function(callee).dfg.params_of(entry), vals) {
                            Err(_) => None,
                            Ok(frame) => Some(
                                levels.push(
                                    LevelModel {
                                        func_ref: callee,
                                        frame,
                                        call_results: source.dfg.inst_results(inst),
                                    },
                                ),
                            ),
                        },
                    },
                },
            }
        },
        _ => None,
    }
}

/// The stack of a recorded run after a jump was run: the innermost frame
/// holds the arguments as the parameters of the destination, and nothing
/// else. `None` where the jump cannot be run.
pub open spec fn run_jump(env: EnvModel, levels: Seq<LevelModel>, inst: Inst) -> Option<
    Seq<LevelModel>,
> {
    let top = levels.last();
    let source = env.function(top.func_ref);
    match exec_inst(source, top.frame, inst) {
        Ok((frame, ControlFlowModel::ContinueAt(block, args))) => {
            let params = source.dfg.params_of(block);
            if args.len() != params.len() {
                None
            } else {
                Some(
                    levels.drop_last().push(
                        LevelModel { frame: frame.rename(args, params), ..top },
                    ),
                )
            }
        },
        _ => None,
    }
}

/// The stack of a recorded run after a return was run: the innermost call
/// is left, and in the caller's frame the results of the call hold what
/// was returned. `None` where the return cannot be run.
pub open spec fn run_return(env: EnvModel, levels: Seq<LevelModel>, inst: Inst) -> Option<
    Seq<LevelModel>,
> {
    let top = levels.last();
    let source = env.function(top.func_ref);
    let rest = levels.drop_last();
    match exec_inst(source, top.frame, inst) {
        Ok((_, ControlFlowModel::Return(vals))) => if rest.len() == 0 {
            Some(rest)
        } else {
            match rest.last().frame.set_all(top.call_results, vals) {
                Err(_) => None,
                Ok(frame) => Some(rest.drop_last().push(LevelModel { frame, ..rest.last() })),
            }
        },
        _ => None,
    }
}

/// The stack of a recorded run after an instruction that computes was run
/// on the innermost frame. `None` where it cannot be run or does not go on
/// to the next instruction.
pub open spec fn run_plain(env: EnvModel, levels: Seq<LevelModel>, inst: Inst) -> Option<
    Seq<LevelModel>,
> {
    let top = levels.last();
    let source = env.function(top.func_ref);
    match exec_inst(source, top.frame, inst) {
        Ok((frame, ControlFlowModel::Continue)) => Some(
            levels.drop_last().push(LevelModel { frame, ..top }),
        ),
        _ => None,
    }
}

/// The stack of a recorded run after one recorded instruction was run, as
/// the interpreter runs it. `None` where no call is under way or the
/// instruction cannot be run.
pub open spec fn run_inst(env: EnvModel, levels: Seq<LevelModel>, inst: Inst) -> Option<
    Seq<LevelModel>,
> {
    if levels.len() == 0 || !env.has(levels.last().func_ref) {
        None
    } else {
        let source = env.function(levels.last().func_ref);
        if !source.dfg.inst_valid(inst) {
            None
        } else {
            match source.dfg.insts[inst.idx()] {
                InstructionData::Call { .. } => run_call(env, levels, inst),
                InstructionData::Jump { .. } => run_jump(env, levels, inst),
                InstructionData::MultiAry { opcode: Opcode::Return, .. } => run_return(
                    env,
                    levels,
                    inst,
                ),
                _ => run_plain(env, levels, inst),
            }
        }
    }
}

/// The stack of a recorded run after the records of `observed` from the
/// second to the `k`-th were run. `None` where one of them cannot be run,
/// says that tracing started, or is a guard.
pub open spec fn run_all(
    env: EnvModel,
    levels: Seq<LevelModel>,
    observed: Seq<TracedInstruction>,
    k: int,
) -> Option<Seq<LevelModel>>
    decreases k,
{
    if k <= 1 {
        Some(levels)
    } else {
        match run_all(env, levels, observed, k - 1) {
            None => None,
            Some(before) => match observed[k - 1] {
                TracedInstruction::StartInFunction(_) => None,
                TracedInstruction::EnterFunction(_) => Some(before),
                TracedInstruction::ExitFunction => Some(before),
                TracedInstruction::Instruction(i) => run_inst(env, before, i),
                TracedInstruction::Guard(_) => None,
            },
        }
    }
}

/// Every instruction that computes has at most one result, and a `nop` has
/// none.
pub open spec fn results_fit(func: FunctionModel) -> bool {
    forall|i: Inst|
        #![trigger func.dfg.inst_results(i)]
        func.dfg.inst_valid(i) && is_plain(func.dfg.insts[i.idx()]) ==> func.dfg.inst_results(
            i,
        ).len() <= 1 && (func.dfg.insts[i.idx()] is NullAry ==> func.dfg.inst_results(i).len()
            == 0)
}

/// The new frame `h` holds what `g` holds, and besides at most `x`.
pub open spec fn grown(g: FrameModel, h: FrameModel, x: ValueRef) -> bool {
    &&& h.registers.len() == g.registers.len()
    &&& forall|y: ValueRef| #![trigger g.is_bound(y)] g.is_bound(y) ==> h.get(y) == g.get(y)
    &&& forall|y: ValueRef| #![trigger h.is_bound(y)] h.is_bound(y) ==> g.is_bound(y) || y == x
}

/// An instruction that computes keeps the frames in step: its copy runs on
/// the new frame and goes on, the frames after the two are in step, and the
/// new frame holds what it held, and besides at most the first result of
/// the copy.
pub proof fn lemma_plain_in_step(
    st: ReconModel,
    source: FunctionModel,
    inst: Inst,
    block: Block,
    frame: FrameModel,
    g: FrameModel,
    frame0: FrameModel,
)
    requires
        source.wf(),
        results_fit(source),
        source.dfg.inst_valid(inst),
        st.func.wf(),
        st.func.dfg.block_valid(block),
        st.stack.len() > 0,
        st.copy(source, inst, block) is Some,
        exec_inst(source, frame, inst) matches Ok((_, ControlFlowModel::Continue)),
        in_step(frame, st.stack.last().renumbering, g, frame0),
        inputs_hold(st.copy(source, inst, block).unwrap().inputs, g, frame0),
        forall|m: int|
            0 <= m < source.dfg.inst_results(inst).len() ==> g.in_range(
                #[trigger] st.copy(source, inst, block).unwrap().func.dfg.inst_results(
                    st.func.dfg.next_inst(),
                )[m],
            ) && !g.is_bound(
                st.copy(source, inst, block).unwrap().func.dfg.inst_results(
                    st.func.dfg.next_inst(),
                )[m],
            ),
    ensures
        ({
            let after = st.copy(source, inst, block).unwrap();
            let n = st.func.dfg.next_inst();
            let frame2 = frame_after(source, frame, inst);
            let g2 = frame_after(after.func, g, n);
            &&& exec_inst(after.func, g, n) matches Ok((_, ControlFlowModel::Continue))
            &&& is_plain(after.func.dfg.insts[n.idx()])
            &&& after.func.dfg.inst_valid(n)
            &&& in_step(frame2, after.stack.last().renumbering, g2, frame0)
            &&& covered(frame, st.stack.last().renumbering) ==> covered(
                frame2,
                after.stack.last().renumbering,
            )
            &&& frame2.func_ref == frame.func_ref
            &&& g2 == g || (after.func.dfg.inst_results(n).len() > 0 && grown(
                g,
                g2,
                after.func.dfg.inst_results(n)[0],
            ))
        }),
{
    let data = source.dfg.insts[inst.idx()];
    lemma_continuing_is_plain(source, frame, inst);
    lemma_copy_shape(st, source, inst, block);
    let after = st.copy(source, inst, block).unwrap();
    let n = st.func.dfg.next_inst();
    let before = st.stack.last().renumbering;
    let current = after.stack.last().renumbering;
    let results = source.dfg.inst_results(inst);
    let new_results = after.func.dfg.inst_results(n);
    // No result of the instruction is set yet.
    assert forall|m: int| 0 <= m < results.len() implies !frame.is_bound(#[trigger] results[m]) by {
        assert(m == 0);
        assert(!(data is NullAry));
    }
    assert(agree(frame, g, current, after.inputs)) by {
        assert forall|v: ValueRef| #![trigger frame.is_bound(v)] frame.is_bound(v) implies match lookup(
            current,
            after.inputs,
            v,
        ) {
            Some(x) => g.get(x) == frame.get(v),
            None => true,
        } by {
            if among(results, results.len() as int, v) {
                let j = lemma_among_index(results, results.len() as int, v);
            } else if before.contains_key(v) {
                assert(current.contains_key(v));
                assert(current[v] == before[v]);
            } else {
                assert(!current.contains_key(v));
            }
        }
    }
    lemma_copy_simulates(st, source, inst, block, frame, g);
    let frame2 = frame_after(source, frame, inst);
    let g2 = frame_after(after.func, g, n);
    assert forall|v: ValueRef| #![trigger frame2.is_bound(v)] frame2.is_bound(v) implies (if current.contains_key(
        v,
    ) {
        g2.get(current[v]) == frame2.get(v)
    } else {
        frame0.is_bound(v) && frame2.get(v) == frame0.get(v)
    }) && (covered(frame, before) ==> current.contains_key(v)) by {
        if current.contains_key(v) {
            assert(lookup(current, after.inputs, v) == Some(current[v]));
        } else {
            if results.len() > 0 {
                lemma_index_among(results, results.len() as int, 0);
            }
            assert(frame.is_bound(v));
            assert(!before.contains_key(v));
        }
    }
    if g2 != g {
        let r2 = new_results[0];
        assert(!g.is_bound(r2));
        assert(grown(g, g2, r2));
    }
}

/// The function in which tracing started, as the first record says.
pub open spec fn first_of(observed: Seq<TracedInstruction>) -> FuncRef {
    observed[0]->StartInFunction_0
}

/// The state of the reconstruction after the first `k` records were
/// walked.
pub open spec fn walked(
    env: EnvModel,
    observed: Seq<TracedInstruction>,
    call_conv: CallConv,
    k: int,
) -> Option<ReconModel> {
    start_state(first_of(observed), call_conv).reconstruct_all(env, observed, Block(0), k)
}

/// The stack of the recorded run after the first `k` records were run,
/// from the frame `frame0` of the function in which tracing started.
pub open spec fn ran(
    env: EnvModel,
    observed: Seq<TracedInstruction>,
    frame0: FrameModel,
    k: int,
) -> Option<Seq<LevelModel>> {
    run_all(
        env,
        seq![LevelModel { func_ref: first_of(observed), frame: frame0, call_results: Seq::empty() }],
        observed,
        k,
    )
}

/// The free inputs of a recorded run: the values that its instructions
/// read and that none of them defined before, each with the parameter of
/// the reconstructed function that stands for it.
pub open spec fn free_inputs(
    env: EnvModel,
    observed: Seq<TracedInstruction>,
    call_conv: CallConv,
) -> RenumberingModel {
    walked(env, observed, call_conv, observed.len() as int).unwrap().inputs
}

/// A recorded run, a function `built` that holds what the records are
/// reconstructed into, and the frame on which it is run: the records can
/// be walked and were run, from the frame `frame0`, as the interpreter runs
/// them; and the frame `g0` holds nothing but parameters and, for each free
/// input of the run, under the parameter that stands for it, what the input
/// held in `frame0`.
pub open spec fn recorded(
    env: EnvModel,
    observed: Seq<TracedInstruction>,
    call_conv: CallConv,
    built: FunctionModel,
    frame0: FrameModel,
    g0: FrameModel,
) -> bool {
    &&& env.wf()
    &&& forall|f: int| 0 <= f < env.functions.len() ==> results_fit(#[trigger] env.functions[f])
    &&& spec_walk(env, observed, call_conv) is Some
    &&& extends(spec_walk(env, observed, call_conv).unwrap().func.dfg, built.dfg)
    &&& ran(env, observed, frame0, observed.len() as int) is Some
    &&& g0.registers.len() == built.dfg.values.len()
    &&& holds_only(built, g0, 0)
    &&& inputs_hold(free_inputs(env, observed, call_conv), g0, frame0)
}

/// Once running the records fails it stays failed.
pub proof fn lemma_run_all_fails(
    env: EnvModel,
    levels: Seq<LevelModel>,
    observed: Seq<TracedInstruction>,
    k: int,
    n: int,
)
    requires
        1 <= k <= n,
        run_all(env, levels, observed, k) is None,
    ensures
        run_all(env, levels, observed, n) is None,
    decreases n - k,
{
    if k < n {
        lemma_run_all_fails(env, levels, observed, k + 1, n);
    }
}

/// What was built after some records stays in what is built after more.
pub proof fn lemma_walked_extends(
    env: EnvModel,
    observed: Seq<TracedInstruction>,
    call_conv: CallConv,
    k: int,
    n: int,
)
    requires
        env.wf(),
        1 <= k <= n,
        walked(env, observed, call_conv, n) is Some,
    ensures
        walked(env, observed, call_conv, k) is Some,
        sound(walked(env, observed, call_conv, k).unwrap()),
        walked(env, observed, call_conv, k).unwrap().func.dfg.block_valid(Block(0)),
        extends(
            walked(env, observed, call_conv, k).unwrap().func.dfg,
            walked(env, observed, call_conv, n).unwrap().func.dfg,
        ),
        sub_map(
            walked(env, observed, call_conv, k).unwrap().inputs,
            walked(env, observed, call_conv, n).unwrap().inputs,
        ),
    decreases n - k,
{
    let st0 = start_state(first_of(observed), call_conv);
    DfgModel::empty().lemma_make_block_wf();
    LayoutModel::empty().lemma_append_block_wf(st0.func.dfg, Block(0));
    assert(sound(st0));
    if walked(env, observed, call_conv, k) is None {
        lemma_reconstruct_all_fails(st0, env, observed, Block(0), k, n);
    }
    lemma_reconstruct_all_sound(st0, env, observed, Block(0), k);
    let a = walked(env, observed, call_conv, k).unwrap();
    if k < n {
        lemma_walked_extends(env, observed, call_conv, k + 1, n);
        let b = walked(env, observed, call_conv, k + 1).unwrap();
        let c = walked(env, observed, call_conv, n).unwrap();
        match observed[k] {
            TracedInstruction::Instruction(i) => {
                lemma_reconstruct_sound(a, env, i, Block(0));
            },
            _ => {},
        }
        assert(extends(a.func.dfg, b.func.dfg));
        lemma_extends_transitive(a.func.dfg, b.func.dfg, c.func.dfg);
    } else {
        assert(extends(a.func.dfg, a.func.dfg));
    }
}

/// A call of the recorded run and its frame of the reconstruction belong
/// together: they are calls of one function with the same results to
/// bind, and the frame of the call is in step with the new frame; every
/// value that is set in the frame of a call other than the outermost has a
/// new value.
pub open spec fn level_ok(
    level: LevelModel,
    walked: StackFrameModel,
    g: FrameModel,
    frame0: FrameModel,
    t: int,
) -> bool {
    &&& level.func_ref == walked.func_ref
    &&& level.call_results == walked.call_results
    &&& in_step(level.frame, walked.renumbering, g, frame0)
    &&& t >= 1 ==> covered(level.frame, walked.renumbering)
}

/// The stack of the recorded run and that of the reconstruction belong
/// together, call by call.
pub open spec fn levels_ok(
    levels: Seq<LevelModel>,
    stack: Seq<StackFrameModel>,
    g: FrameModel,
    frame0: FrameModel,
) -> bool {
    &&& levels.len() == stack.len()
    &&& forall|t: int|
        0 <= t < levels.len() ==> level_ok(#[trigger] levels[t], stack[t], g, frame0, t)
}

/// What holds before a recorded instruction is run and walked.
pub open spec fn ready(
    env: EnvModel,
    st: ReconModel,
    levels: Seq<LevelModel>,
    g: FrameModel,
    frame0: FrameModel,
) -> bool {
    &&& env.wf()
    &&& forall|f: int| 0 <= f < env.functions.len() ==> results_fit(#[trigger] env.functions[f])
    &&& sound(st)
    &&& st.func.dfg.block_valid(Block(0))
    &&& levels_ok(levels, st.stack, g, frame0)
    &&& levels.len() > 0
    &&& env.has(levels.last().func_ref)
    &&& inputs_hold(st.inputs, g, frame0)
}

/// The parameters of a block of a well-formed function are distinct.
pub proof fn lemma_params_distinct(func: FunctionModel, block: Block)
    requires
        func.wf(),
        func.dfg.block_valid(block),
    ensures
        distinct(func.dfg.params_of(block)),
{
    let params = func.dfg.params_of(block);
    lemma_distinct_bounded(func.dfg, block.idx());
    assert forall|a: int, b: int| 0 <= a < b < params.len() implies params[a] != params[b] by {
        assert(func.dfg.param_wf(block.idx(), a));
        assert(func.dfg.param_wf(block.idx(), b));
    }
}

/// A call that was run and walked keeps the two stacks together.
pub proof fn lemma_call_paired(
    env: EnvModel,
    st: ReconModel,
    levels: Seq<LevelModel>,
    inst: Inst,
    g: FrameModel,
    frame0: FrameModel,
)
    requires
        ready(env, st, levels, g, frame0),
        st.call(env, env.function(levels.last().func_ref), inst) is Some,
        run_call(env, levels, inst) is Some,
    ensures
        levels_ok(
            run_call(env, levels, inst).unwrap(),
            st.call(env, env.function(levels.last().func_ref), inst).unwrap().stack,
            g,
            frame0,
        ),
{
    let top = levels.last();
    let source = env.function(top.func_ref);
    let after = st.call(env, source, inst).unwrap();
    let levels2 = run_call(env, levels, inst).unwrap();
    let n = levels.len() as int;
    assert(level_ok(levels[n - 1], st.stack[n - 1], g, frame0, n - 1));
    match source.dfg.insts[inst.idx()] {
        InstructionData::Call { args, func_ref, .. } => {
            let callee = env.index_of(source.dfg.ext_funcs[func_ref.idx()]).unwrap();
            let entry = env.function(callee).layout.entry_block().unwrap();
            let olds = source.dfg.list_values(args);
            let news = env.function(callee).dfg.params_of(entry);
            let empty = FrameModel::fresh(callee, env.function(callee).dfg.values.len());
            lemma_call_in_step(
                top.frame,
                st.stack.last().renumbering,
                st.inputs,
                st.stack.len() == 1,
                olds,
                news,
                g,
                frame0,
                empty,
            );
            assert forall|t: int| 0 <= t < levels2.len() implies level_ok(
                #[trigger] levels2[t],
                after.stack[t],
                g,
                frame0,
                t,
            ) by {
                if t < n {
                    assert(levels2[t] == levels[t]);
                    assert(after.stack[t] == st.stack[t]);
                }
            }
        },
        _ => {},
    }
}

/// A jump that was run and walked keeps the two stacks together.
pub proof fn lemma_jump_paired(
    env: EnvModel,
    st: ReconModel,
    levels: Seq<LevelModel>,
    inst: Inst,
    g: FrameModel,
    frame0: FrameModel,
)
    requires
        ready(env, st, levels, g, frame0),
        env.function(levels.last().func_ref).dfg.inst_valid(inst),
        st.jump(env.function(levels.last().func_ref), inst) is Some,
        run_jump(env, levels, inst) is Some,
    ensures
        levels_ok(
            run_jump(env, levels, inst).unwrap(),
            st.jump(env.function(levels.last().func_ref), inst).unwrap().stack,
            g,
            frame0,
        ),
{
    let top = levels.last();
    let source = env.function(top.func_ref);
    let after = st.jump(source, inst).unwrap();
    let levels2 = run_jump(env, levels, inst).unwrap();
    let n = levels.len() as int;
    assert(level_ok(levels[n - 1], st.stack[n - 1], g, frame0, n - 1));
    assert(source == env.functions[top.func_ref.idx()]);
    assert(source.wf());
    match source.dfg.insts[inst.idx()] {
        InstructionData::Jump { args, destination, .. } => {
            let olds = source.dfg.list_values(args);
            let news = source.dfg.params_of(destination);
            assert(source.dfg.data_wf(source.dfg.insts[inst.idx()]));
            lemma_params_distinct(source, destination);
            lemma_jump_in_step(
                top.frame,
                st.stack.last().renumbering,
                st.inputs,
                olds,
                news,
                g,
                frame0,
            );
            assert forall|t: int| 0 <= t < levels2.len() implies level_ok(
                #[trigger] levels2[t],
                after.stack[t],
                g,
                frame0,
                t,
            ) by {
                if t < n - 1 {
                    assert(levels2[t] == levels[t]);
                    assert(after.stack[t] == st.stack[t]);
                }
            }
        },
        _ => {},
    }
}

/// A return that was run and walked keeps the two stacks together.
pub proof fn lemma_return_paired(
    env: EnvModel,
    st: ReconModel,
    levels: Seq<LevelModel>,
    inst: Inst,
    g: FrameModel,
    frame0: FrameModel,
)
    requires
        ready(env, st, levels, g, frame0),
        st.ret(env.function(levels.last().func_ref), inst) is Some,
        run_return(env, levels, inst) is Some,
        env.function(levels.last().func_ref).dfg.insts[inst.idx()] matches InstructionData::MultiAry {
            opcode: Opcode::Return,
            ..
        },
    ensures
        levels_ok(
            run_return(env, levels, inst).unwrap(),
            st.ret(env.function(levels.last().func_ref), inst).unwrap().stack,
            g,
            frame0,
        ),
{
    let top = levels.last();
    let source = env.function(top.func_ref);
    let after = st.ret(source, inst).unwrap();
    let levels2 = run_return(env, levels, inst).unwrap();
    let n = levels.len() as int;
    assert(level_ok(levels[n - 1], st.stack[n - 1], g, frame0, n - 1));
    match source.dfg.insts[inst.idx()] {
        InstructionData::MultiAry { args, .. } => {
            let returned = source.dfg.list_values(args);
            if n >= 2 {
                assert(level_ok(levels[n - 2], st.stack[n - 2], g, frame0, n - 2));
                let caller = levels.drop_last().last();
                assert(caller == levels[n - 2]);
                assert(st.stack.drop_last().last() == st.stack[n - 2]);
                lemma_return_in_step(
                    caller.frame,
                    st.stack[n - 2].renumbering,
                    top.frame,
                    st.stack[n - 1].renumbering,
                    st.inputs,
                    top.call_results,
                    returned,
                    g,
                    frame0,
                );
                assert forall|t: int| 0 <= t < levels2.len() implies level_ok(
                    #[trigger] levels2[t],
                    after.stack[t],
                    g,
                    frame0,
                    t,
                ) by {
                    if t < n - 2 {
                        assert(levels2[t] == levels[t]);
                        assert(after.stack[t] == st.stack[t]);
                    }
                }
            }
        },
        _ => {},
    }
}

/// The frame `h` holds what `g` holds.
pub open spec fn kept(g: FrameModel, h: FrameModel) -> bool {
    &&& h.registers.len() == g.registers.len()
    &&& forall|y: ValueRef| #![trigger g.is_bound(y)] g.is_bound(y) ==> h.get(y) == g.get(y)
}

/// An instruction that computes, run and copied, keeps the two stacks
/// together: its copy runs in the reconstructed function `built` on the
/// new frame and goes on, and the frame after it holds what it held, and
/// besides nothing but the result of the copy.
pub proof fn lemma_plain_paired(
    env: EnvModel,
    st: ReconModel,
    levels: Seq<LevelModel>,
    inst: Inst,
    g: FrameModel,
    frame0: FrameModel,
    built: FunctionModel,
)
    requires
        ready(env, st, levels, g, frame0),
        env.function(levels.last().func_ref).dfg.inst_valid(inst),
        st.copy(env.function(levels.last().func_ref), inst, Block(0)) is Some,
        run_plain(env, levels, inst) is Some,
        extends(
            st.copy(env.function(levels.last().func_ref), inst, Block(0)).unwrap().func.dfg,
            built.dfg,
        ),
        inputs_hold(
            st.copy(env.function(levels.last().func_ref), inst, Block(0)).unwrap().inputs,
            g,
            frame0,
        ),
        g.registers.len() == built.dfg.values.len(),
        holds_only(built, g, st.func.dfg.insts.len() as int),
    ensures
        ({
            let after = st.copy(env.function(levels.last().func_ref), inst, Block(0)).unwrap();
            let n = st.func.dfg.next_inst();
            let g2 = frame_after(built, g, n);
            &&& after.func.dfg.insts.len() == st.func.dfg.insts.len() + 1
            &&& built.dfg.inst_valid(n)
            &&& exec_inst(built, g, n) matches Ok((_, ControlFlowModel::Continue))
            &&& levels_ok(run_plain(env, levels, inst).unwrap(), after.stack, g2, frame0)
            &&& holds_only(built, g2, st.func.dfg.insts.len() as int + 1)
            &&& kept(g, g2)
        }),
{
    let top = levels.last();
    let source = env.function(top.func_ref);
    let after = st.copy(source, inst, Block(0)).unwrap();
    let levels2 = run_plain(env, levels, inst).unwrap();
    let len = levels.len() as int;
    let n = st.func.dfg.next_inst();
    assert(level_ok(levels[len - 1], st.stack[len - 1], g, frame0, len - 1));
    assert(source == env.functions[top.func_ref.idx()]);
    assert(source.wf() && results_fit(source));
    lemma_continuing_is_plain(source, top.frame, inst);
    lemma_copy_shape(st, source, inst, Block(0));
    let new_results = after.func.dfg.inst_results(n);
    // The results of the copy are not set in the new frame.
    assert forall|m: int| 0 <= m < source.dfg.inst_results(inst).len() implies g.in_range(
        #[trigger] new_results[m],
    ) && !g.is_bound(new_results[m]) by {
        assert(after.func.dfg.result_wf(n.idx(), m));
        let x = new_results[m];
        assert(built.dfg.values[x.idx()] == after.func.dfg.values[x.idx()]);
        assert(built.dfg.value_def(x) == crate::ir::dfg::ValueDef::Result(n, m as u32));
    }
    lemma_plain_in_step(st, source, inst, Block(0), top.frame, g, frame0);
    lemma_exec_inst_stable(after.func, built, g, n);
    let g2 = frame_after(built, g, n);
    assert(g2 == frame_after(after.func, g, n));
    if g2 != g {
        assert(after.func.dfg.result_wf(n.idx(), 0));
        let x = new_results[0];
        assert(built.dfg.values[x.idx()] == after.func.dfg.values[x.idx()]);
        assert(grown(g, g2, x));
    }
    assert forall|t: int| 0 <= t < levels2.len() implies level_ok(
        #[trigger] levels2[t],
        after.stack[t],
        g2,
        frame0,
        t,
    ) by {
        if t < len - 1 {
            assert(levels2[t] == levels[t]);
            assert(after.stack.drop_last()[t] == st.stack.drop_last()[t]);
            assert(after.stack[t] == st.stack[t]);
            assert(level_ok(levels[t], st.stack[t], g, frame0, t));
            let frame = levels[t].frame;
            let current = st.stack[t].renumbering;
            assert forall|v: ValueRef| #![trigger frame.is_bound(v)] frame.is_bound(v) implies (if current.contains_key(
                v,
            ) {
                g2.get(current[v]) == frame.get(v)
            } else {
                frame0.is_bound(v) && frame.get(v) == frame0.get(v)
            }) by {
                if current.contains_key(v) {
                    assert(g.is_bound(current[v]));
                }
            }
        } else {
            assert(after.stack[t] == after.stack.last());
        }
    }
}

/// The new frame after the reconstructed function ran the instructions
/// that were copied from the first `k` records.
pub open spec fn new_frame(
    env: EnvModel,
    observed: Seq<TracedInstruction>,
    call_conv: CallConv,
    built: FunctionModel,
    g0: FrameModel,
    k: int,
) -> Option<FrameModel> {
    replay(
        built,
        g0,
        first_insts(
            walked(env, observed, call_conv, observed.len() as int).unwrap().func.dfg.insts.len(),
        ),
        walked(env, observed, call_conv, k).unwrap().func.dfg.insts.len() as int,
    )
}

/// What holds of a recorded run and of the run of its reconstruction after
/// `k` records: the reconstruction ran as many instructions as were copied,
/// the new frame holds what it held at first, and besides nothing but the
/// results of those instructions, and the two stacks belong together.
pub open spec fn paired(
    env: EnvModel,
    observed: Seq<TracedInstruction>,
    call_conv: CallConv,
    built: FunctionModel,
    frame0: FrameModel,
    g0: FrameModel,
    k: int,
) -> bool {
    let total = walked(env, observed, call_conv, observed.len() as int).unwrap().func.dfg.insts.len();
    let st = walked(env, observed, call_conv, k).unwrap();
    let levels = ran(env, observed, frame0, k).unwrap();
    let n = st.func.dfg.insts.len() as int;
    let g = replay(built, g0, first_insts(total), n);
    &&& g is Some
    &&& kept(g0, g.unwrap())
    &&& holds_only(built, g.unwrap(), n)
    &&& levels_ok(levels, st.stack, g.unwrap(), frame0)
}

/// What was built after some records stays in a function that holds what
/// was built after all of them.
pub proof fn lemma_built_holds_walked(
    env: EnvModel,
    observed: Seq<TracedInstruction>,
    call_conv: CallConv,
    built: FunctionModel,
    k: int,
)
    requires
        env.wf(),
        spec_walk(env, observed, call_conv) is Some,
        extends(spec_walk(env, observed, call_conv).unwrap().func.dfg, built.dfg),
        1 <= k <= observed.len(),
    ensures
        walked(env, observed, call_conv, observed.len() as int) == spec_walk(
            env,
            observed,
            call_conv,
        ),
        walked(env, observed, call_conv, k) is Some,
        sound(walked(env, observed, call_conv, k).unwrap()),
        walked(env, observed, call_conv, k).unwrap().func.dfg.block_valid(Block(0)),
        extends(walked(env, observed, call_conv, k).unwrap().func.dfg, built.dfg),
        sub_map(
            walked(env, observed, call_conv, k).unwrap().inputs,
            free_inputs(env, observed, call_conv),
        ),
        walked(env, observed, call_conv, k).unwrap().func.dfg.insts.len() <= walked(
            env,
            observed,
            call_conv,
            observed.len() as int,
        ).unwrap().func.dfg.insts.len(),
{
    let n = observed.len() as int;
    assert(walked(env, observed, call_conv, n) == spec_walk(env, observed, call_conv));
    lemma_walked_extends(env, observed, call_conv, k, n);
    let last = walked(env, observed, call_conv, n).unwrap();
    lemma_extends_transitive(
        walked(env, observed, call_conv, k).unwrap().func.dfg,
        last.func.dfg,
        built.dfg,
    );
}

/// One more record keeps the recorded run and the run of its
/// reconstruction together.
pub proof fn lemma_paired_step(
    env: EnvModel,
    observed: Seq<TracedInstruction>,
    call_conv: CallConv,
    built: FunctionModel,
    frame0: FrameModel,
    g0: FrameModel,
    k: int,
)
    requires
        recorded(env, observed, call_conv, built, frame0, g0),
        1 <= k < observed.len(),
        paired(env, observed, call_conv, built, frame0, g0, k),
    ensures
        paired(env, observed, call_conv, built, frame0, g0, k + 1),
        kept(
            new_frame(env, observed, call_conv, built, g0, k).unwrap(),
            new_frame(env, observed, call_conv, built, g0, k + 1).unwrap(),
        ),
{
    let len = observed.len() as int;
    let total = walked(env, observed, call_conv, len).unwrap().func.dfg.insts.len();
    lemma_built_holds_walked(env, observed, call_conv, built, k);
    lemma_built_holds_walked(env, observed, call_conv, built, k + 1);
    let first = LevelModel {
        func_ref: first_of(observed),
        frame: frame0,
        call_results: Seq::empty(),
    };
    if ran(env, observed, frame0, k + 1) is None {
        lemma_run_all_fails(env, seq![first], observed, k + 1, len);
    }
    let st = walked(env, observed, call_conv, k).unwrap();
    let st2 = walked(env, observed, call_conv, k + 1).unwrap();
    let levels = ran(env, observed, frame0, k).unwrap();
    let levels2 = ran(env, observed, frame0, k + 1).unwrap();
    let n = st.func.dfg.insts.len() as int;
    let g = replay(built, g0, first_insts(total), n).unwrap();
    let fin = free_inputs(env, observed, call_conv);
    assert(inputs_hold(fin, g, frame0)) by {
        assert forall|v: ValueRef|
            #![trigger fin.contains_key(v)]
            fin.contains_key(v) && frame0.is_bound(v) implies g.get(fin[v]) == frame0.get(v) by {
            assert(g0.get(fin[v]) == frame0.get(v));
            assert(g0.is_bound(fin[v]));
        }
    }
    match observed[k] {
        TracedInstruction::Instruction(i) => {
            assert(st2 == st.reconstruct_instruction(env, i, Block(0)).unwrap());
            assert(levels2 == run_inst(env, levels, i).unwrap());
            let top = levels.last();
            let source = env.function(top.func_ref);
            assert(level_ok(
                levels[levels.len() - 1],
                st.stack[levels.len() - 1],
                g,
                frame0,
                levels.len() - 1,
            ));
            assert(st.old_func(env) == Some(source));
            assert(ready(env, st, levels, g, frame0));
            match source.dfg.insts[i.idx()] {
                InstructionData::Call { .. } => {
                    lemma_call_paired(env, st, levels, i, g, frame0);
                },
                InstructionData::Jump { .. } => {
                    lemma_jump_paired(env, st, levels, i, g, frame0);
                },
                InstructionData::MultiAry { opcode: Opcode::Return, .. } => {
                    lemma_return_paired(env, st, levels, i, g, frame0);
                },
                _ => {
                    assert(st2 == st.copy(source, i, Block(0)).unwrap());
                    assert(levels2 == run_plain(env, levels, i).unwrap());
                    lemma_plain_paired(env, st, levels, i, g, frame0, built);
                    let g2 = frame_after(built, g, st.func.dfg.next_inst());
                    assert(n < total);
                    assert(first_insts(total)[n] == st.func.dfg.next_inst());
                    assert(replay(built, g0, first_insts(total), n + 1) == Some(g2));
                },
            }
        },
        _ => {},
    }
}

/// The recorded run and the run of its reconstruction stay together.
pub proof fn lemma_paired(
    env: EnvModel,
    observed: Seq<TracedInstruction>,
    call_conv: CallConv,
    built: FunctionModel,
    frame0: FrameModel,
    g0: FrameModel,
    k: int,
)
    requires
        recorded(env, observed, call_conv, built, frame0, g0),
        1 <= k <= observed.len(),
    ensures
        paired(env, observed, call_conv, built, frame0, g0, k),
    decreases k,
{
    if k == 1 {
        let st = walked(env, observed, call_conv, 1).unwrap();
        let levels = ran(env, observed, frame0, 1).unwrap();
        assert(st.func.dfg.insts.len() == 0);
        assert(level_ok(levels[0], st.stack[0], g0, frame0, 0));
    } else {
        lemma_paired(env, observed, call_conv, built, frame0, g0, k - 1);
        lemma_paired_step(env, observed, call_conv, built, frame0, g0, k - 1);
    }
}

/// The function that a trace is reconstructed into holds what walking the
/// records built.
pub proof fn lemma_build_holds_walk(
    env: EnvModel,
    observed: Seq<TracedInstruction>,
    call_conv: CallConv,
)
    requires
        env.wf(),
    ensures
        spec_build(env, observed, call_conv) matches Some(built) ==> spec_walk(
            env,
            observed,
            call_conv,
        ) is Some && extends(spec_walk(env, observed, call_conv).unwrap().func.dfg, built.dfg)
            && built.dfg.insts.len() == spec_walk(
            env,
            observed,
            call_conv,
        ).unwrap().func.dfg.insts.len() + 1,
{
    if spec_build(env, observed, call_conv) is Some {
        let n = observed.len() as int;
        assert(walked(env, observed, call_conv, n) == spec_walk(env, observed, call_conv));
        lemma_walked_extends(env, observed, call_conv, n, n);
    }
}

/// The function that a trace is reconstructed into when it is to return
/// values holds what walking the records built, and behind it a return of
/// the new values of those values.
pub proof fn lemma_build_returning_holds_walk(
    env: EnvModel,
    observed: Seq<TracedInstruction>,
    call_conv: CallConv,
    returned: Seq<ValueRef>,
)
    requires
        env.wf(),
    ensures
        spec_build_returning(env, observed, call_conv, returned) matches Some(built) ==> {
            let st = spec_walk(env, observed, call_conv).unwrap();
            let last = st.func.dfg.next_inst();
            &&& spec_walk(env, observed, call_conv) is Some
            &&& extends(st.func.dfg, built.dfg)
            &&& built.dfg.inst_valid(last)
            &&& built.dfg.insts[last.idx()] matches InstructionData::MultiAry {
                opcode: Opcode::Return,
                ..
            }
            &&& returned_values(st, returned, returned.len() as int) == Some(
                built.dfg.inst_args(last),
            )
        },
{
    if spec_build_returning(env, observed, call_conv, returned) is Some {
        let n = observed.len() as int;
        let built = spec_build_returning(env, observed, call_conv, returned).unwrap();
        assert(walked(env, observed, call_conv, n) == spec_walk(env, observed, call_conv));
        lemma_walked_extends(env, observed, call_conv, n, n);
        let st = spec_walk(env, observed, call_conv).unwrap();
        let vals = returned_values(st, returned, returned.len() as int).unwrap();
        lemma_returned_values_valid(st, returned, returned.len() as int);
        st.func.dfg.lemma_push_list_wf(vals);
        let last = st.func.dfg.next_inst();
        assert(built.dfg.inst_args(last) =~= vals);
    }
}

/// The new values of returned values are values of what was built.
pub proof fn lemma_returned_values_valid(st: ReconModel, returned: Seq<ValueRef>, k: int)
    requires
        0 <= k <= returned.len(),
    ensures
        returned_values(st, returned, k) matches Some(vals) ==> vals.len() == k
            && st.func.dfg.values_valid(vals) && forall|j: int|
            0 <= j < k ==> lookup(st.stack.last().renumbering, st.inputs, returned[j]) == Some(
                #[trigger] vals[j],
            ),
    decreases k,
{
    if k > 0 {
        lemma_returned_values_valid(st, returned, k - 1);
    }
}

/// What the new frame holds after some records it still holds after more.
pub proof fn lemma_new_frame_keeps(
    env: EnvModel,
    observed: Seq<TracedInstruction>,
    call_conv: CallConv,
    built: FunctionModel,
    frame0: FrameModel,
    g0: FrameModel,
    k: int,
    n: int,
)
    requires
        recorded(env, observed, call_conv, built, frame0, g0),
        1 <= k <= n <= observed.len(),
    ensures
        new_frame(env, observed, call_conv, built, g0, k) is Some,
        new_frame(env, observed, call_conv, built, g0, n) is Some,
        kept(
            new_frame(env, observed, call_conv, built, g0, k).unwrap(),
            new_frame(env, observed, call_conv, built, g0, n).unwrap(),
        ),
    decreases n - k,
{
    lemma_paired(env, observed, call_conv, built, frame0, g0, k);
    lemma_paired(env, observed, call_conv, built, frame0, g0, n);
    if k < n {
        lemma_paired_step(env, observed, call_conv, built, frame0, g0, k);
        lemma_new_frame_keeps(env, observed, call_conv, built, frame0, g0, k + 1, n);
        let a = new_frame(env, observed, call_conv, built, g0, k).unwrap();
        let b = new_frame(env, observed, call_conv, built, g0, k + 1).unwrap();
        let c = new_frame(env, observed, call_conv, built, g0, n).unwrap();
        assert forall|y: ValueRef| #![trigger a.is_bound(y)] a.is_bound(y) implies c.get(y) == a.get(
            y,
        ) by {
            assert(b.is_bound(y));
        }
    }
}

/// A reconstructed function computes what was observed.
///
/// Take a recorded run: records that can be walked, and whose instructions
/// (computations, calls, jumps and returns) ran, as the interpreter runs
/// them, from a frame of the function in which tracing started; and a
/// function that holds what the records are reconstructed into. Run the
/// reconstructed instructions on a frame that holds nothing but parameters
/// and, for each free input of the run, under the parameter that stands for
/// it, what the input held when tracing started. Then each of them runs and
/// goes on to the next. And whatever a value held in a call of the recorded
/// run after any number of records, while it had a new value, that new
/// value holds in the new frame at the end: what the recorded run computed
/// for a value is what the reconstructed function computes for it.
pub proof fn lemma_reconstruction_computes_the_same(
    env: EnvModel,
    observed: Seq<TracedInstruction>,
    call_conv: CallConv,
    built: FunctionModel,
    frame0: FrameModel,
    g0: FrameModel,
)
    requires
        recorded(env, observed, call_conv, built, frame0, g0),
    ensures
        ({
            let st = spec_walk(env, observed, call_conv).unwrap();
            let total = st.func.dfg.insts.len();
            let g = replay(built, g0, first_insts(total), total as int);
            &&& g is Some
            &&& forall|k: int, t: int, v: ValueRef|
                #![trigger ran(env, observed, frame0, k).unwrap()[t].frame.is_bound(v)]
                1 <= k <= observed.len() && 0 <= t < ran(env, observed, frame0, k).unwrap().len()
                    && ran(env, observed, frame0, k).unwrap()[t].frame.is_bound(v) && walked(
                    env,
                    observed,
                    call_conv,
                    k,
                ).unwrap().stack[t].renumbering.contains_key(v) ==> g.unwrap().get(
                    walked(env, observed, call_conv, k).unwrap().stack[t].renumbering[v],
                ) == ran(env, observed, frame0, k).unwrap()[t].frame.get(v)
        }),
{
    let n = observed.len() as int;
    lemma_built_holds_walked(env, observed, call_conv, built, n);
    lemma_paired(env, observed, call_conv, built, frame0, g0, n);
    let total = walked(env, observed, call_conv, n).unwrap().func.dfg.insts.len();
    let g = replay(built, g0, first_insts(total), total as int).unwrap();
    assert(new_frame(env, observed, call_conv, built, g0, n) == Some(g));
    assert forall|k: int, t: int, v: ValueRef|
        #![trigger ran(env, observed, frame0, k).unwrap()[t].frame.is_bound(v)]
        1 <= k <= observed.len() && 0 <= t < ran(env, observed, frame0, k).unwrap().len() && ran(
            env,
            observed,
            frame0,
            k,
        ).unwrap()[t].frame.is_bound(v) && walked(
            env,
            observed,
            call_conv,
            k,
        ).unwrap().stack[t].renumbering.contains_key(v) implies g.get(
        walked(env, observed, call_conv, k).unwrap().stack[t].renumbering[v],
    ) == ran(env, observed, frame0, k).unwrap()[t].frame.get(v) by {
        lemma_paired(env, observed, call_conv, built, frame0, g0, k);
        lemma_new_frame_keeps(env, observed, call_conv, built, frame0, g0, k, n);
        let levels = ran(env, observed, frame0, k).unwrap();
        let st = walked(env, observed, call_conv, k).unwrap();
        let gk = new_frame(env, observed, call_conv, built, g0, k).unwrap();
        assert(level_ok(levels[t], st.stack[t], gk, frame0, t));
        assert(gk.is_bound(st.stack[t].renumbering[v]));
    }
}

/// Reading values that hold, one by one, what is wanted gives what is
/// wanted.
pub proof fn lemma_get_all_is(g: FrameModel, xs: Seq<ValueRef>, ys: Seq<DataValue>)
    requires
        xs.len() == ys.len(),
        forall|j: int| 0 <= j < xs.len() ==> g.get(#[trigger] xs[j]) == Ok::<DataValue, TrapModel>(ys[j]),
    ensures
        g.get_all(xs) == Ok::<Seq<DataValue>, TrapModel>(ys),
    decreases xs.len(),
{
    if xs.len() > 0 {
        assert forall|j: int| 0 <= j < xs.drop_last().len() implies g.get(
            #[trigger] xs.drop_last()[j],
        ) == Ok::<DataValue, TrapModel>(ys.drop_last()[j]) by {
            assert(xs.drop_last()[j] == xs[j]);
        }
        lemma_get_all_is(g, xs.drop_last(), ys.drop_last());
        assert(g.get(xs[xs.len() - 1]) == Ok::<DataValue, TrapModel>(ys[ys.len() - 1]));
        assert(ys.drop_last().push(ys.last()) =~= ys);
    } else {
        assert(ys =~= Seq::empty());
    }
}

/// A reconstructed function returns what was observed.
///
/// Take a recorded run that ends in a call in which the values `returned`
/// are set, and the function that its records are reconstructed into when
/// it is to return them. Run on a frame as in
/// [`lemma_reconstruction_computes_the_same`], its instructions run one
/// after the other, and its last, the return, returns what the values
/// `returned` hold at the end of the recorded run.
pub proof fn lemma_reconstruction_returns_the_same(
    env: EnvModel,
    observed: Seq<TracedInstruction>,
    call_conv: CallConv,
    returned: Seq<ValueRef>,
    frame0: FrameModel,
    g0: FrameModel,
)
    requires
        spec_build_returning(env, observed, call_conv, returned) is Some,
        recorded(
            env,
            observed,
            call_conv,
            spec_build_returning(env, observed, call_conv, returned).unwrap(),
            frame0,
            g0,
        ),
        ran(env, observed, frame0, observed.len() as int).unwrap().len() > 0,
        ran(env, observed, frame0, observed.len() as int).unwrap().last().frame.get_all(returned)
            is Ok,
    ensures
        ({
            let built = spec_build_returning(env, observed, call_conv, returned).unwrap();
            let st = spec_walk(env, observed, call_conv).unwrap();
            let levels = ran(env, observed, frame0, observed.len() as int).unwrap();
            let total = st.func.dfg.insts.len();
            let g = replay(built, g0, first_insts(total), total as int);
            &&& built.dfg.insts.len() == total + 1
            &&& g is Some
            &&& exec_inst(built, g.unwrap(), Inst(total as u32)) == Ok::<
                (FrameModel, ControlFlowModel),
                TrapModel,
            >(
                (
                    g.unwrap(),
                    ControlFlowModel::Return(levels.last().frame.get_all(returned)->Ok_0),
                ),
            )
        }),
{
    let built = spec_build_returning(env, observed, call_conv, returned).unwrap();
    let n = observed.len() as int;
    lemma_build_returning_holds_walk(env, observed, call_conv, returned);
    lemma_built_holds_walked(env, observed, call_conv, built, n);
    lemma_paired(env, observed, call_conv, built, frame0, g0, n);
    let st = walked(env, observed, call_conv, n).unwrap();
    let levels = ran(env, observed, frame0, n).unwrap();
    let total = st.func.dfg.insts.len();
    let g = replay(built, g0, first_insts(total), total as int).unwrap();
    let top = levels.last();
    let vals = returned_values(st, returned, returned.len() as int).unwrap();
    let held = top.frame.get_all(returned)->Ok_0;
    lemma_returned_values_valid(st, returned, returned.len() as int);
    lemma_get_all_ok(top.frame, returned);
    let fin = free_inputs(env, observed, call_conv);
    assert(level_ok(levels[levels.len() - 1], st.stack[levels.len() - 1], g, frame0, levels.len() - 1));
    assert forall|j: int| 0 <= j < vals.len() implies g.get(#[trigger] vals[j]) == Ok::<
        DataValue,
        TrapModel,
    >(held[j]) by {
        let v = returned[j];
        assert(top.frame.is_bound(v));
        assert(lookup(st.stack.last().renumbering, st.inputs, v) == Some(vals[j]));
        if !st.stack.last().renumbering.contains_key(v) {
            assert(fin.contains_key(v));
            assert(g0.get(fin[v]) == frame0.get(v));
            assert(g0.is_bound(fin[v]));
        }
    }
    lemma_get_all_is(g, vals, held);
}

/// The results of the call that the `t`-th call of the machine waits in.
pub open spec fn waiting_results(m: MachineModel, t: int) -> Seq<ValueRef> {
    let a = m.stack[t];
    let f = m.env.function(a.frame.func_ref);
    f.dfg.inst_results(f.layout.block_insts(a.block)[a.position as int])
}

/// The `t`-th call of the machine as a call of a recorded run that began
/// in the `base`-th.
pub open spec fn level_at(m: MachineModel, base: int, t: int) -> LevelModel {
    LevelModel {
        func_ref: m.stack[t].frame.func_ref,
        frame: m.stack[t].frame,
        call_results: if t == base {
            Seq::empty()
        } else {
            waiting_results(m, t - 1)
        },
    }
}

/// The calls of the machine from the `base`-th on, as the stack of a
/// recorded run that began in the `base`-th.
pub open spec fn levels_of(m: MachineModel, base: int) -> Seq<LevelModel> {
    Seq::new(
        if m.stack.len() >= base {
            (m.stack.len() - base) as nat
        } else {
            0
        },
        |t: int| level_at(m, base, base + t),
    )
}

/// The recorded run is the interpreter's: a step of the machine on an
/// instruction that is no branch and no trace marker, after which the
/// machine runs on, does to its calls from the `base`-th on what running
/// the record of the instruction does to the stack of a recorded run.
pub proof fn lemma_step_runs_the_record(m: MachineModel, inst: Inst, base: int)
    requires
        m.wf(),
        0 <= base < m.stack.len(),
        m.top().position < m.insts().len(),
        inst == m.insts()[m.top().position as int],
        !(m.function().dfg.insts[inst.idx()] is Branch),
        !(m.function().dfg.insts[inst.idx()] is MultiAryImm),
        !(m.function().dfg.insts[inst.idx()] matches InstructionData::UnaryImm {
            opcode: Opcode::TraceEnd,
            ..
        }),
        m.inst(inst) is Running,
    ensures
        run_inst(m.env, levels_of(m, base), inst) == Some(levels_of(m.inst(inst)->Running_0, base)),
{
    let m2 = m.inst(inst)->Running_0;
    let levels = levels_of(m, base);
    let n = m.stack.len() as int;
    let top = levels.last();
    assert(top == level_at(m, base, n - 1));
    assert(m.stack[n - 1].wf(m.env));
    let source = m.function();
    assert(source == m.env.functions[m.top().frame.func_ref.idx()]);
    assert(source.wf());
    assert(source.layout.inst_ok(source.dfg, m.top().block.idx(), m.top().position as int));
    assert(source.dfg.inst_valid(inst));
    lemma_exec_inst_keeps_frame(source, m.top().frame, inst);
    let data = source.dfg.insts[inst.idx()];
    match data {
        InstructionData::Call { args, func_ref, .. } => {
            let callee = m.env.index_of(source.dfg.ext_funcs[func_ref.idx()]).unwrap();
            let entry = m.env.function(callee).layout.entry_block().unwrap();
            let vals = m.top().frame.get_all(source.dfg.list_values(args))->Ok_0;
            let empty = FrameModel::fresh(callee, m.env.function(callee).dfg.values.len());
            empty.lemma_set_all_len(m.env.function(callee).dfg.params_of(entry), vals);
            assert(run_inst(m.env, levels, inst) is Some);
            let out = run_inst(m.env, levels, inst).unwrap();
            assert(m2.stack.len() == n + 1);
            assert(out.len() == levels_of(m2, base).len());
            assert forall|t: int| 0 <= t < out.len() implies out[t] == levels_of(m2, base)[t] by {
                if t < levels.len() {
                    assert(out[t] == levels[t]);
                    assert(m2.stack[base + t] == m.stack[base + t]);
                    if t > 0 {
                        assert(m2.stack[base + t - 1] == m.stack[base + t - 1]);
                    }
                } else {
                    assert(m2.stack[n - 1] == m.stack[n - 1]);
                }
            }
            assert(out =~= levels_of(m2, base));
        },
        InstructionData::Jump { .. } => {
            let out = run_inst(m.env, levels, inst).unwrap();
            assert(out =~= levels_of(m2, base));
        },
        InstructionData::MultiAry { opcode: Opcode::Return, .. } => {
            let vals = exec_inst(source, m.top().frame, inst)->Ok_0.1->Return_0;
            if n - 1 > base {
                let caller = m.stack[n - 2];
                assert(levels.drop_last().last() == level_at(m, base, n - 2));
                caller.frame.lemma_set_all_len(top.call_results, vals);
                let out = run_inst(m.env, levels, inst).unwrap();
                assert(out =~= levels_of(m2, base));
            } else {
                let out = run_inst(m.env, levels, inst).unwrap();
                assert(out =~= levels_of(m2, base));
            }
        },
        _ => {
            let out = run_inst(m.env, levels, inst).unwrap();
            assert(out =~= levels_of(m2, base));
        },
    }
}

/// Running the first records does not depend on the records behind them.
pub proof fn lemma_run_all_prefix(
    env: EnvModel,
    levels: Seq<LevelModel>,
    a: Seq<TracedInstruction>,
    b: Seq<TracedInstruction>,
    k: int,
)
    requires
        k <= a.len(),
        k <= b.len(),
        forall|j: int| 0 <= j < k ==> a[j] == b[j],
    ensures
        run_all(env, levels, a, k) == run_all(env, levels, b, k),
    decreases k,
{
    if k > 1 {
        lemma_run_all_prefix(env, levels, a, b, k - 1);
    }
}

/// The recorded run follows the interpreter. Where the records of a
/// machine that is tracing, run from the frame `frame0`, gave the calls of
/// the machine from the `base`-th on, and the machine takes a step on an
/// instruction that is no branch and no trace marker and runs on, the
/// records after the step, run from `frame0`, give the calls of the machine
/// after it.
pub proof fn lemma_step_extends_the_record(m: MachineModel, base: int, frame0: FrameModel)
    requires
        m.wf(),
        0 <= base < m.stack.len(),
        m.trace.tracing is Some,
        m.trace.observed.len() > 0,
        m.top().position < m.insts().len(),
        !(m.function().dfg.insts[m.insts()[m.top().position as int].idx()] is Branch),
        !(m.function().dfg.insts[m.insts()[m.top().position as int].idx()] is MultiAryImm),
        !(m.function().dfg.insts[m.insts()[m.top().position as int].idx()] matches InstructionData::UnaryImm {
            opcode: Opcode::TraceEnd,
            ..
        }),
        m.step() is Running,
        ran(m.env, m.trace.observed, frame0, m.trace.observed.len() as int) == Some(
            levels_of(m, base),
        ),
    ensures
        ran(
            m.env,
            m.step()->Running_0.trace.observed,
            frame0,
            m.step()->Running_0.trace.observed.len() as int,
        ) == Some(levels_of(m.step()->Running_0, base)),
        m.step()->Running_0.env == m.env,
        m.step()->Running_0.trace.tracing is Some,
{
    let inst = m.insts()[m.top().position as int];
    let m2 = m.step()->Running_0;
    let before = m.trace.observed;
    let after = m2.trace.observed;
    let n = before.len() as int;
    let first = LevelModel {
        func_ref: first_of(before),
        frame: frame0,
        call_results: Seq::empty(),
    };
    lemma_step_runs_the_record(m, inst, base);
    assert(after.len() > n);
    assert(after[n] == TracedInstruction::Instruction(inst));
    assert(forall|j: int| 0 <= j < n ==> after[j] == before[j]);
    assert(first_of(after) == first_of(before));
    lemma_run_all_prefix(m.env, seq![first], before, after, n);
    assert(run_all(m.env, seq![first], after, n + 1) == Some(levels_of(m2, base)));
}

} // verus!

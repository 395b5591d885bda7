//! What a reconstructed function computes: an instruction that is copied
//! from a trace computes in the new function what it computed in the old
//! one, as long as the frames of the two agree through the renumbering; and
//! every operand of a reconstructed function is defined before it is read.
//! The law for runs with calls, jumps and returns is in
//! [`recorded_run`](crate::recorded_run).
use crate::frame::FrameModel;
use crate::ir::dfg::{entity_limit, lemma_results_bounded, DfgModel, ValueDef};
use crate::environment::EnvModel;
use crate::ir::entities::{Block, FuncRef, Inst, ValueRef};
use crate::ir::function::{CallConv, FunctionModel};
use crate::ir::instructions::{InstructionData, Opcode, ValueList};
use crate::machine::{exec_inst, ControlFlowModel};
use crate::reconstruct::{
    add_results, bind, initial_function, lemma_add_results_wf, lemma_built_function_has_one_block,
    lemma_built_function_wf, lemma_copy_wf, lemma_rebuilt_args,
    lemma_translate_len, lemma_translate_wf, lemma_reconstruct_all_fails, lookup, map_returns,
    spec_build, translate, ReconModel, RenumberingModel, StackFrameModel,
};
use crate::ir::layout::LayoutModel;
use crate::trace::TracedInstruction;
use vstd::prelude::*;

verus! {

/// An instruction that computes on values and goes on to the next one.
pub open spec fn is_plain(data: InstructionData) -> bool {
    data is Binary || data is BinaryImm || data is UnaryImm || data is UnaryBool || data is NullAry
        || data is IntCompareImm
}

/// An instruction that runs and goes on to the next one, and that can be
/// copied, is plain.
pub proof fn lemma_continuing_is_plain(func: FunctionModel, frame: FrameModel, inst: Inst)
    requires
        exec_inst(func, frame, inst) matches Ok((_, ControlFlowModel::Continue)),
        func.dfg.insts[inst.idx()].spec_branch_destination() is None,
    ensures
        is_plain(func.dfg.insts[inst.idx()]),
{
}

/// Whether `v` is one of the first `k` of `s`.
pub open spec fn among(s: Seq<ValueRef>, k: int, v: ValueRef) -> bool
    decreases k,
{
    k > 0 && (s[k - 1] == v || among(s, k - 1, v))
}

/// Each of the first `k` of `s` is among them.
pub proof fn lemma_index_among(s: Seq<ValueRef>, k: int, j: int)
    requires
        0 <= j < k,
    ensures
        among(s, k, s[j]),
    decreases k,
{
    if j < k - 1 {
        lemma_index_among(s, k - 1, j);
    }
}

/// What is among the first `k` of `s` stands at one of their positions.
pub proof fn lemma_among_index(s: Seq<ValueRef>, k: int, v: ValueRef) -> (j: int)
    requires
        among(s, k, v),
    ensures
        0 <= j < k,
        s[j] == v,
    decreases k,
{
    if s[k - 1] == v {
        k - 1
    } else {
        lemma_among_index(s, k - 1, v)
    }
}

/// What giving results fresh values makes of the graph and of the
/// renumbering: the new values stand behind the old ones, in the order of
/// the results, each with the type of its result and defined as a result of
/// the new instruction; each result is renumbered to its new value, and
/// nothing else changes.
pub proof fn lemma_add_results_shape(
    dfg: DfgModel,
    map: RenumberingModel,
    new_inst: Inst,
    old_dfg: DfgModel,
    results: Seq<ValueRef>,
    k: int,
)
    requires
        0 <= k <= results.len(),
        dfg.inst_valid(new_inst),
        dfg.results.len() == dfg.insts.len(),
        dfg.values.len() <= entity_limit(),
        forall|a: int, b: int| 0 <= a < b < results.len() ==> results[a] != results[b],
    ensures
        add_results(dfg, map, new_inst, old_dfg, results, k) matches Some((d, m)) ==> {
            &&& d.insts == dfg.insts
            &&& d.pool == dfg.pool
            &&& d.block_params == dfg.block_params
            &&& d.ext_funcs == dfg.ext_funcs
            &&& d.values.len() == dfg.values.len() + k
            &&& d.values.len() <= entity_limit()
            &&& d.values.subrange(0, dfg.values.len() as int) == dfg.values
            &&& d.results.len() == dfg.results.len()
            &&& d.results[new_inst.idx()].len() == dfg.results[new_inst.idx()].len() + k
            &&& forall|j: int|
                0 <= j < dfg.results.len() && j != new_inst.idx() ==> #[trigger] d.results[j]
                    == dfg.results[j]
            &&& forall|j: int|
                0 <= j < dfg.results[new_inst.idx()].len() ==> #[trigger] d.results[new_inst.idx()][j]
                    == dfg.results[new_inst.idx()][j]
            &&& forall|j: int|
                0 <= j < k ==> #[trigger] d.results[new_inst.idx()][dfg.results[new_inst.idx()].len()
                    + j] == ValueRef((dfg.values.len() + j) as u32)
            &&& forall|j: int|
                0 <= j < k ==> (#[trigger] d.values[dfg.values.len() + j]).ty
                    == old_dfg.value_type(results[j])
            &&& forall|j: int|
                0 <= j < k ==> m.contains_key(#[trigger] results[j]) && m[results[j]] == ValueRef(
                    (dfg.values.len() + j) as u32,
                )
            &&& forall|v: ValueRef|
                #[trigger] m.contains_key(v) <==> map.contains_key(v) || among(results, k, v)
            &&& forall|v: ValueRef|
                map.contains_key(v) && !among(results, k, v) ==> #[trigger] m[v] == map[v]
        },
    decreases k,
{
    if k > 0 {
        lemma_add_results_shape(dfg, map, new_inst, old_dfg, results, k - 1);
        match add_results(dfg, map, new_inst, old_dfg, results, k - 1) {
            Some((d0, m0)) => {
                if d0.values.len() < entity_limit() {
                    let ty = old_dfg.value_type(results[k - 1]);
                    let d = d0.append_result(new_inst, ty);
                    let m = m0.insert(results[k - 1], d0.next_value());
                    let base = dfg.results[new_inst.idx()].len();
                    assert(d.values.subrange(0, dfg.values.len() as int) =~= dfg.values) by {
                        assert(d0.values.subrange(0, dfg.values.len() as int) == dfg.values);
                        assert forall|j: int| 0 <= j < dfg.values.len() implies d.values.subrange(
                            0,
                            dfg.values.len() as int,
                        )[j] == dfg.values[j] by {
                            assert(d0.values.subrange(0, dfg.values.len() as int)[j]
                                == d0.values[j]);
                        }
                    }
                    assert forall|j: int| 0 <= j < k implies #[trigger] d.results[new_inst.idx()][base
                        + j] == ValueRef((dfg.values.len() + j) as u32) by {
                        if j < k - 1 {
                            assert(d0.results[new_inst.idx()][base + j] == ValueRef(
                                (dfg.values.len() + j) as u32,
                            ));
                        }
                    }
                    assert forall|j: int| 0 <= j < k implies (#[trigger] d.values[dfg.values.len()
                        + j]).ty == old_dfg.value_type(results[j]) by {
                        if j < k - 1 {
                            assert(d0.values[dfg.values.len() + j].ty == old_dfg.value_type(
                                results[j],
                            ));
                        }
                    }
                    assert forall|j: int| 0 <= j < k implies m.contains_key(#[trigger] results[j])
                        && m[results[j]] == ValueRef((dfg.values.len() + j) as u32) by {
                        if j < k - 1 {
                            assert(m0.contains_key(results[j]));
                            assert(results[j] != results[k - 1]);
                        }
                    }
                    assert forall|v: ValueRef| #[trigger]
                        m.contains_key(v) <==> map.contains_key(v) || among(results, k, v) by {
                        assert(m0.contains_key(v) <==> map.contains_key(v) || among(
                            results,
                            k - 1,
                            v,
                        ));
                    }
                    assert forall|v: ValueRef|
                        map.contains_key(v) && !among(results, k, v) implies #[trigger] m[v]
                        == map[v] by {
                        assert(m0[v] == map[v]);
                    }
                }
            },
            None => {},
        }
    } else {
        assert(dfg.values.subrange(0, dfg.values.len() as int) =~= dfg.values);
    }
}

/// What renumbering operands makes of the graph and of the inputs: each
/// new operand is what its operand is renumbered to in the end; the inputs
/// keep what they held and get nothing but operands that had no new value;
/// the graph grows by parameters of the block only.
pub proof fn lemma_translate_shape(
    dfg: DfgModel,
    inputs: RenumberingModel,
    current: RenumberingModel,
    old_dfg: DfgModel,
    args: Seq<ValueRef>,
    block: Block,
    k: int,
)
    requires
        0 <= k <= args.len(),
        dfg.block_valid(block),
    ensures
        translate(dfg, inputs, current, old_dfg, args, block, k) matches Some((d, ins, out)) ==> {
            &&& d.insts == dfg.insts
            &&& d.pool == dfg.pool
            &&& d.results == dfg.results
            &&& d.ext_funcs == dfg.ext_funcs
            &&& d.block_params.len() == dfg.block_params.len()
            &&& d.values.len() >= dfg.values.len()
            &&& d.values.subrange(0, dfg.values.len() as int) == dfg.values
            &&& out.len() == k
            &&& forall|j: int| 0 <= j < k ==> lookup(current, ins, args[j]) == Some(#[trigger] out[j])
            &&& forall|v: ValueRef| #[trigger]
                inputs.contains_key(v) ==> ins.contains_key(v) && ins[v] == inputs[v]
            &&& forall|v: ValueRef|
                #[trigger] ins.contains_key(v) ==> inputs.contains_key(v) || (
                !current.contains_key(v) && among(args, k, v))
        },
    decreases k,
{
    if k > 0 {
        lemma_translate_shape(dfg, inputs, current, old_dfg, args, block, k - 1);
        match translate(dfg, inputs, current, old_dfg, args, block, k - 1) {
            Some((d0, ins0, out0)) => {
                match lookup(current, ins0, args[k - 1]) {
                    Some(a) => {
                        if d0.value_valid(a) {
                            let out = out0.push(a);
                            assert forall|j: int| 0 <= j < k implies lookup(
                                current,
                                ins0,
                                args[j],
                            ) == Some(#[trigger] out[j]) by {
                                if j < k - 1 {
                                    assert(out[j] == out0[j]);
                                }
                            }
                            assert forall|v: ValueRef| #[trigger]
                                ins0.contains_key(v) implies inputs.contains_key(v) || (
                            !current.contains_key(v) && among(args, k, v)) by {
                                assert(inputs.contains_key(v) || (!current.contains_key(v)
                                    && among(args, k - 1, v)));
                            }
                        }
                    },
                    None => {
                        if d0.values.len() < entity_limit() {
                            let ty = old_dfg.value_type(args[k - 1]);
                            let d = d0.append_block_param(block, ty);
                            let ins = ins0.insert(args[k - 1], d0.next_value());
                            let out = out0.push(d0.next_value());
                            assert(d.values.subrange(0, dfg.values.len() as int) =~= dfg.values) by {
                                assert forall|j: int|
                                    0 <= j < dfg.values.len() implies d.values.subrange(
                                    0,
                                    dfg.values.len() as int,
                                )[j] == dfg.values[j] by {
                                    assert(d0.values.subrange(0, dfg.values.len() as int)[j]
                                        == d0.values[j]);
                                }
                            }
                            assert forall|j: int| 0 <= j < k implies lookup(
                                current,
                                ins,
                                args[j],
                            ) == Some(#[trigger] out[j]) by {
                                if j < k - 1 {
                                    assert(out[j] == out0[j]);
                                    assert(lookup(current, ins0, args[j]) == Some(out0[j]));
                                }
                            }
                            assert forall|v: ValueRef| #[trigger]
                                ins.contains_key(v) implies inputs.contains_key(v) || (
                            !current.contains_key(v) && among(args, k, v)) by {
                                if v != args[k - 1] {
                                    assert(ins0.contains_key(v));
                                    assert(inputs.contains_key(v) || (!current.contains_key(v)
                                        && among(args, k - 1, v)));
                                }
                            }
                            assert forall|v: ValueRef| #[trigger]
                                inputs.contains_key(v) implies ins.contains_key(v) && ins[v]
                                == inputs[v] by {
                                assert(ins0.contains_key(v) && ins0[v] == inputs[v]);
                                assert(lookup(current, ins0, args[k - 1]) is None);
                            }
                        }
                    },
                }
            },
            None => {},
        }
    } else {
        assert(dfg.values.subrange(0, dfg.values.len() as int) =~= dfg.values);
    }
}

/// The graph `b` holds what `a` holds, as `a` holds it: the instructions of
/// `a` with their results, and the values of `a`.
pub open spec fn extends(a: DfgModel, b: DfgModel) -> bool {
    &&& a.insts.len() <= b.insts.len()
    &&& a.results.len() == a.insts.len()
    &&& b.results.len() == b.insts.len()
    &&& a.values.len() <= b.values.len()
    &&& forall|j: int|
        #![trigger b.insts[j]]
        #![trigger b.results[j]]
        0 <= j < a.insts.len() ==> b.insts[j] == a.insts[j] && b.results[j] == a.results[j]
    &&& forall|v: int| #![trigger b.values[v]] 0 <= v < a.values.len() ==> b.values[v] == a.values[v]
}

/// The renumbering `b` holds what `a` holds.
pub open spec fn sub_map(a: RenumberingModel, b: RenumberingModel) -> bool {
    forall|v: ValueRef| #[trigger] a.contains_key(v) ==> b.contains_key(v) && b[v] == a[v]
}

pub proof fn lemma_extends_transitive(a: DfgModel, b: DfgModel, c: DfgModel)
    requires
        extends(a, b),
        extends(b, c),
    ensures
        extends(a, c),
{
    assert forall|j: int| 0 <= j < a.insts.len() implies c.insts[j] == a.insts[j] && c.results[j]
        == a.results[j] by {
        assert(b.insts[j] == a.insts[j]);
        assert(c.insts[j] == b.insts[j]);
    }
    assert forall|v: int| 0 <= v < a.values.len() implies c.values[v] == a.values[v] by {
        assert(b.values[v] == a.values[v]);
        assert(c.values[v] == b.values[v]);
    }
}

/// A plain instruction does the same in a function as in one whose graph
/// extends that of the function.
pub proof fn lemma_exec_inst_stable(a: FunctionModel, b: FunctionModel, g: FrameModel, inst: Inst)
    requires
        a.wf(),
        a.dfg.inst_valid(inst),
        is_plain(a.dfg.insts[inst.idx()]),
        extends(a.dfg, b.dfg),
    ensures
        exec_inst(b, g, inst) == exec_inst(a, g, inst),
{
    assert(b.dfg.insts[inst.idx()] == a.dfg.insts[inst.idx()]);
    assert(b.dfg.results[inst.idx()] == a.dfg.results[inst.idx()]);
    if a.dfg.inst_results(inst).len() > 0 {
        assert(a.dfg.result_wf(inst.idx(), 0));
        let r = a.dfg.inst_results(inst)[0];
        assert(b.dfg.values[r.idx()] == a.dfg.values[r.idx()]);
    }
}

/// The results of an instruction of a well-formed function are distinct.
pub proof fn lemma_results_distinct(func: FunctionModel, inst: Inst)
    requires
        func.wf(),
        func.dfg.inst_valid(inst),
    ensures
        forall|a: int, b: int|
            0 <= a < b < func.dfg.inst_results(inst).len() ==> func.dfg.inst_results(inst)[a]
                != func.dfg.inst_results(inst)[b],
{
    let results = func.dfg.inst_results(inst);
    lemma_results_bounded(func.dfg, inst.idx());
    assert forall|a: int, b: int| 0 <= a < b < results.len() implies results[a] != results[b] by {
        assert(func.dfg.result_wf(inst.idx(), a));
        assert(func.dfg.result_wf(inst.idx(), b));
    }
}

/// What copying a plain instruction makes: the function gets one more
/// instruction, which is the copied one with each operand renumbered; its
/// results are fresh values of the types of the old results, to which the
/// old results are renumbered; no other value is renumbered anew, and the
/// inputs keep what they held.
pub proof fn lemma_copy_shape(st: ReconModel, source: FunctionModel, inst: Inst, block: Block)
    requires
        source.wf(),
        source.dfg.inst_valid(inst),
        is_plain(source.dfg.insts[inst.idx()]),
        st.func.wf(),
        st.func.dfg.block_valid(block),
        st.stack.len() > 0,
        st.copy(source, inst, block) is Some,
    ensures
        ({
            let after = st.copy(source, inst, block).unwrap();
            let data = source.dfg.insts[inst.idx()];
            let args = data.fixed_args();
            let results = source.dfg.inst_results(inst);
            let n = st.func.dfg.next_inst();
            let current = after.stack.last().renumbering;
            let before = st.stack.last().renumbering;
            let new_args = after.func.dfg.inst_args(n);
            let new_results = after.func.dfg.inst_results(n);
            &&& after.func.wf()
            &&& after.func.dfg.block_valid(block)
            &&& after.stack.len() == st.stack.len()
            &&& after.func.dfg.insts.len() == st.func.dfg.insts.len() + 1
            &&& after.func.dfg.inst_valid(n)
            &&& after.func.dfg.insts[n.idx()] == data.spec_with_fixed_args(new_args)
            &&& new_args.len() == args.len()
            &&& forall|j: int|
                0 <= j < args.len() ==> lookup(current, after.inputs, args[j]) == Some(
                    #[trigger] new_args[j],
                )
            &&& new_results.len() == results.len()
            &&& forall|m: int|
                0 <= m < results.len() ==> current.contains_key(#[trigger] results[m])
                    && current[results[m]] == new_results[m] && after.func.dfg.value_type(
                    new_results[m],
                ) == source.dfg.value_type(results[m])
            &&& forall|v: ValueRef|
                #[trigger] current.contains_key(v) <==> before.contains_key(v) || among(
                    results,
                    results.len() as int,
                    v,
                )
            &&& forall|v: ValueRef|
                before.contains_key(v) && !among(results, results.len() as int, v)
                    ==> #[trigger] current[v] == before[v]
            &&& forall|v: ValueRef| #[trigger]
                st.inputs.contains_key(v) ==> after.inputs.contains_key(v) && after.inputs[v]
                    == st.inputs[v]
            &&& forall|v: ValueRef|
                #[trigger] after.inputs.contains_key(v) ==> st.inputs.contains_key(v)
                    || !current.contains_key(v)
            &&& extends(st.func.dfg, after.func.dfg)
            &&& after.stack.last().func_ref == st.stack.last().func_ref
            &&& after.stack.drop_last() == st.stack.drop_last()
            &&& after.func.name == st.func.name
            &&& after.func.signature == st.func.signature
        }),
{
    let after = st.copy(source, inst, block).unwrap();
    let data = source.dfg.insts[inst.idx()];
    let top = st.stack.last();
    let dfg0 = st.func.dfg;
    let nop = InstructionData::NullAry { opcode: Opcode::Nop };
    let n = dfg0.next_inst();
    let dfg1 = dfg0.make_inst(nop);
    let results = source.dfg.inst_results(inst);
    let args = source.dfg.inst_args(inst);
    lemma_copy_wf(st, source, inst, block);
    lemma_results_distinct(source, inst);
    assert(source.dfg.list_values(data.spec_value_list()) =~= Seq::<ValueRef>::empty());
    assert(args =~= data.fixed_args());
    lemma_add_results_shape(dfg1, top.renumbering, n, source.dfg, results, results.len() as int);
    let (dfg2, current) = add_results(
        dfg1,
        top.renumbering,
        n,
        source.dfg,
        results,
        results.len() as int,
    ).unwrap();
    lemma_translate_shape(dfg2, st.inputs, current, source.dfg, args, block, args.len() as int);
    let (dfg3, inputs, new_args) = translate(
        dfg2,
        st.inputs,
        current,
        source.dfg,
        args,
        block,
        args.len() as int,
    ).unwrap();
    let nfixed = data.fixed_args().len() as int;
    let rest = new_args.subrange(nfixed, new_args.len() as int);
    assert(rest =~= Seq::<ValueRef>::empty());
    assert(new_args.subrange(0, nfixed) =~= new_args);
    let new_data = data.spec_with_fixed_args(new_args).spec_with_value_list(dfg3.next_list(rest));
    assert(new_data == data.spec_with_fixed_args(new_args));
    let d = dfg3.push_list(rest);
    assert(d.pool =~= dfg3.pool);
    let dfg4 = d.replace(n, new_data);
    assert(after.func.dfg == dfg4);
    assert(dfg4.list_values(new_data.spec_value_list()) =~= Seq::<ValueRef>::empty());
    assert(dfg4.inst_args(n) =~= new_args);
    assert(dfg4.inst_results(n) =~= Seq::new(
        results.len(),
        |j: int| ValueRef((dfg1.values.len() + j) as u32),
    )) by {
        assert(dfg1.results[n.idx()].len() == 0);
        assert forall|j: int| 0 <= j < results.len() implies dfg4.inst_results(n)[j] == ValueRef(
            (dfg1.values.len() + j) as u32,
        ) by {
            assert(dfg2.results[n.idx()][dfg1.results[n.idx()].len() + j] == ValueRef(
                (dfg1.values.len() + j) as u32,
            ));
        }
    }
    assert forall|m: int| 0 <= m < results.len() implies current.contains_key(
        #[trigger] results[m],
    ) && current[results[m]] == dfg4.inst_results(n)[m] && dfg4.value_type(
        dfg4.inst_results(n)[m],
    ) == source.dfg.value_type(results[m]) by {
        assert(dfg2.values[dfg1.values.len() + m].ty == source.dfg.value_type(results[m]));
        assert(dfg3.values.subrange(0, dfg2.values.len() as int)[dfg1.values.len() + m]
            == dfg3.values[dfg1.values.len() + m]);
    }
    assert forall|v: ValueRef| #[trigger]
        after.inputs.contains_key(v) implies st.inputs.contains_key(v) || !current.contains_key(
        v,
    ) by {
        assert(inputs.contains_key(v));
    }
    assert(extends(dfg0, dfg4)) by {
        assert forall|j: int| 0 <= j < dfg0.insts.len() implies dfg4.insts[j] == dfg0.insts[j]
            && dfg4.results[j] == dfg0.results[j] by {
            assert(dfg2.results[j] == dfg1.results[j]);
        }
        assert forall|v: int| 0 <= v < dfg0.values.len() implies dfg4.values[v]
            == dfg0.values[v] by {
            assert(dfg3.values.subrange(0, dfg2.values.len() as int)[v] == dfg3.values[v]);
            assert(dfg2.values.subrange(0, dfg1.values.len() as int)[v] == dfg2.values[v]);
        }
    }
    assert(after.stack.drop_last() =~= st.stack.drop_last());
}

/// The frame after an instruction that ran.
pub open spec fn frame_after(func: FunctionModel, frame: FrameModel, inst: Inst) -> FrameModel {
    exec_inst(func, frame, inst)->Ok_0.0
}

/// The frames of the old and of the new function agree through the
/// renumbering: a value that is set in the old frame and has a new value
/// holds in the new frame, under its new value, what it holds in the old
/// one.
pub open spec fn agree(
    frame: FrameModel,
    g: FrameModel,
    current: RenumberingModel,
    inputs: RenumberingModel,
) -> bool {
    forall|v: ValueRef|
        #![trigger frame.is_bound(v)]
        frame.is_bound(v) ==> match lookup(current, inputs, v) {
            Some(x) => g.get(x) == frame.get(v),
            None => true,
        }
}

/// A copied instruction computes in the new function what it computed in
/// the old one. Where the old instruction ran on a frame and went on, and
/// the new frame agrees with the old one through the renumbering and has
/// the fresh results of the copy unset, the copy runs on the new frame and
/// goes on, and the frames after the two agree.
pub proof fn lemma_copy_simulates(
    st: ReconModel,
    source: FunctionModel,
    inst: Inst,
    block: Block,
    frame: FrameModel,
    g: FrameModel,
)
    requires
        source.wf(),
        source.dfg.inst_valid(inst),
        st.func.wf(),
        st.func.dfg.block_valid(block),
        st.stack.len() > 0,
        st.copy(source, inst, block) is Some,
        exec_inst(source, frame, inst) matches Ok((_, ControlFlowModel::Continue)),
        agree(
            frame,
            g,
            st.copy(source, inst, block).unwrap().stack.last().renumbering,
            st.copy(source, inst, block).unwrap().inputs,
        ),
        forall|m: int|
            0 <= m < source.dfg.inst_results(inst).len() ==> !frame.is_bound(
                #[trigger] source.dfg.inst_results(inst)[m],
            ),
        forall|m: int|
            0 <= m < source.dfg.inst_results(inst).len() ==> g.in_range(
                #[trigger] st.copy(source, inst, block).unwrap().func.dfg.inst_results(
                    st.func.dfg.next_inst(),
                )[m],
            ) && !g.is_bound(
                st.copy(source, inst, block).unwrap().func.dfg.inst_results(
                    st.func.dfg.next_inst(),
                )[m],
            ),
    ensures
        ({
            let after = st.copy(source, inst, block).unwrap();
            let n = st.func.dfg.next_inst();
            let old_results = source.dfg.inst_results(inst);
            let new_results = after.func.dfg.inst_results(n);
            let frame2 = frame_after(source, frame, inst);
            &&& exec_inst(after.func, g, n) matches Ok((_, ControlFlowModel::Continue))
            &&& agree(
                frame2,
                frame_after(after.func, g, n),
                after.stack.last().renumbering,
                after.inputs,
            )
            &&& (frame2 == frame && frame_after(after.func, g, n) == g) || (
            old_results.len() > 0 && frame.in_range(old_results[0]) && frame2.is_bound(
                old_results[0],
            ) && frame2 == frame.set(
                old_results[0],
                frame2.registers[old_results[0].idx()].unwrap(),
            ) && frame_after(after.func, g, n) == g.set(
                new_results[0],
                frame2.registers[old_results[0].idx()].unwrap(),
            ))
        }),
{
    let data = source.dfg.insts[inst.idx()];
    // A branch cannot be copied, so what was copied and went on is plain.
    lemma_continuing_is_plain(source, frame, inst);
    lemma_copy_shape(st, source, inst, block);
    let after = st.copy(source, inst, block).unwrap();
    let n = st.func.dfg.next_inst();
    let current = after.stack.last().renumbering;
    let args = data.fixed_args();
    let new_args = after.func.dfg.inst_args(n);
    let old_results = source.dfg.inst_results(inst);
    let new_results = after.func.dfg.inst_results(n);
    let frame2 = frame_after(source, frame, inst);
    let new_data = after.func.dfg.insts[n.idx()];
    assert(new_data == data.spec_with_fixed_args(new_args));
    // Each operand that was read holds the same in the new frame.
    assert forall|j: int| 0 <= j < args.len() && frame.is_bound(args[j]) implies g.get(
        #[trigger] new_args[j],
    ) == frame.get(args[j]) by {
        assert(lookup(current, after.inputs, args[j]) == Some(new_args[j]));
    }
    if old_results.len() > 0 {
        assert(new_results[0] == current[old_results[0]]);
        assert(after.func.dfg.value_type(new_results[0]) == source.dfg.value_type(
            old_results[0],
        ));
        assert(g.in_range(new_results[0]) && !g.is_bound(new_results[0]));
    }
    match data {
        InstructionData::Binary { opcode, a, b } => {
            assert(args[0] == a && args[1] == b);
            assert(g.get(new_args[0]) == frame.get(a));
            assert(g.get(new_args[1]) == frame.get(b));
        },
        InstructionData::BinaryImm { arg, .. } => {
            assert(args[0] == arg);
            assert(g.get(new_args[0]) == frame.get(arg));
        },
        InstructionData::IntCompareImm { arg, .. } => {
            assert(args[0] == arg);
            assert(g.get(new_args[0]) == frame.get(arg));
        },
        _ => {},
    }
    let g2 = frame_after(after.func, g, n);
    assert(exec_inst(after.func, g, n) matches Ok((_, ControlFlowModel::Continue)));
    if frame2 != frame {
        let r = old_results[0];
        let r2 = new_results[0];
        let c = frame2.registers[r.idx()].unwrap();
        assert(frame2 == frame.set(r, c));
        assert(g2 == g.set(r2, c));
        assert forall|v: ValueRef| #![trigger frame2.is_bound(v)] frame2.is_bound(v) implies match lookup(
            current,
            after.inputs,
            v,
        ) {
            Some(x) => g2.get(x) == frame2.get(v),
            None => true,
        } by {
            if v == r {
                lemma_index_among(old_results, old_results.len() as int, 0);
            } else {
                assert(frame.is_bound(v));
                match lookup(current, after.inputs, v) {
                    Some(x) => {
                        assert(g.get(x) == frame.get(v));
                        assert(g.is_bound(x));
                        assert(x != r2);
                    },
                    None => {},
                }
            }
        }
    } else {
        assert(g2 == g);
    }
}

/// The trace of a straight run: tracing starts in the function `f`, and the
/// instructions `insts` of `f` are run one after the other.
pub open spec fn straight_trace(f: FuncRef, insts: Seq<Inst>) -> Seq<TracedInstruction> {
    Seq::new(
        insts.len() + 1,
        |k: int|
            if k == 0 {
                TracedInstruction::StartInFunction(f)
            } else {
                TracedInstruction::Instruction(insts[k - 1])
            },
    )
}

/// The state in which the reconstruction of a trace that started in `f`
/// begins.
pub open spec fn start_state(f: FuncRef, call_conv: CallConv) -> ReconModel {
    ReconModel {
        func: initial_function(call_conv),
        inputs: Map::empty(),
        stack: seq![
            StackFrameModel { func_ref: f, renumbering: Map::empty(), call_results: Seq::empty() },
        ],
    }
}

/// The state of the reconstruction of a straight run after the first `k`
/// instructions were walked.
pub open spec fn state_after(
    env: EnvModel,
    f: FuncRef,
    insts: Seq<Inst>,
    call_conv: CallConv,
    k: int,
) -> Option<ReconModel> {
    start_state(f, call_conv).reconstruct_all(env, straight_trace(f, insts), Block(0), k + 1)
}

/// The frame after the first `k` of `insts` ran on `frame` one after the
/// other, each going on to the next; `None` where one of them does not.
pub open spec fn replay(func: FunctionModel, frame: FrameModel, insts: Seq<Inst>, k: int) -> Option<
    FrameModel,
>
    decreases k,
{
    if k <= 0 {
        Some(frame)
    } else {
        match replay(func, frame, insts, k - 1) {
            None => None,
            Some(before) => if func.dfg.inst_valid(insts[k - 1]) {
                match exec_inst(func, before, insts[k - 1]) {
                    Ok((after, ControlFlowModel::Continue)) => Some(after),
                    _ => None,
                }
            } else {
                None
            },
        }
    }
}

/// The first `n` instructions of a function, in order.
pub open spec fn first_insts(n: nat) -> Seq<Inst> {
    Seq::new(n, |j: int| Inst(j as u32))
}

/// A replay that got to `n` got to each `k` before it.
pub proof fn lemma_replay_prefix(
    func: FunctionModel,
    frame: FrameModel,
    insts: Seq<Inst>,
    k: int,
    n: int,
)
    requires
        0 <= k <= n,
        replay(func, frame, insts, n) is Some,
    ensures
        replay(func, frame, insts, k) is Some,
        k < n ==> func.dfg.inst_valid(insts[k]) && (exec_inst(
            func,
            replay(func, frame, insts, k).unwrap(),
            insts[k],
        ) matches Ok((after, ControlFlowModel::Continue)) && replay(func, frame, insts, k + 1)
            == Some(after)),
    decreases n - k,
{
    if k < n {
        lemma_replay_prefix(func, frame, insts, k + 1, n);
    }
}

/// What the reconstruction of a straight run that can be replayed has made
/// after `k` instructions: a well-formed function of `k` instructions, with
/// the one frame of the function in which tracing started; and each
/// instruction was copied.
pub proof fn lemma_straight_state(
    env: EnvModel,
    f: FuncRef,
    insts: Seq<Inst>,
    call_conv: CallConv,
    frame0: FrameModel,
    k: int,
)
    requires
        env.wf(),
        env.has(f),
        0 <= k <= insts.len(),
        state_after(env, f, insts, call_conv, k) is Some,
        replay(env.function(f), frame0, insts, k) is Some,
    ensures
        ({
            let st = state_after(env, f, insts, call_conv, k).unwrap();
            &&& st.func.wf()
            &&& st.func.dfg.block_valid(Block(0))
            &&& st.stack.len() == 1
            &&& st.stack.last().func_ref == f
            &&& st.func.dfg.insts.len() == k
            &&& st.func.name == initial_function(call_conv).name
            &&& st.func.signature == initial_function(call_conv).signature
            &&& k > 0 ==> {
                let before = state_after(env, f, insts, call_conv, k - 1);
                &&& before is Some
                &&& is_plain(env.function(f).dfg.insts[insts[k - 1].idx()])
                &&& before.unwrap().copy(env.function(f), insts[k - 1], Block(0)) == Some(st)
            }
        }),
    decreases k,
{
    let source = env.function(f);
    let observed = straight_trace(f, insts);
    let st0 = start_state(f, call_conv);
    if k == 0 {
        crate::ir::dfg::DfgModel::empty().lemma_make_block_wf();
        LayoutModel::empty().lemma_append_block_wf(st0.func.dfg, Block(0));
    } else {
        lemma_replay_prefix(source, frame0, insts, k - 1, k);
        assert(observed[k] == TracedInstruction::Instruction(insts[k - 1]));
        let before = st0.reconstruct_all(env, observed, Block(0), k);
        assert(before is Some);
        lemma_straight_state(env, f, insts, call_conv, frame0, k - 1);
        let mid = before.unwrap();
        let fr = replay(source, frame0, insts, k - 1).unwrap();
        assert(source.wf());
        assert(mid.old_func(env) == Some(source));
        lemma_continuing_is_plain_or_control(source, fr, insts[k - 1]);
        lemma_copy_shape(mid, source, insts[k - 1], Block(0));
    }
}

/// An instruction that runs and goes on to the next one is no call, no
/// jump and no return; where it is no branch either, it is plain.
pub proof fn lemma_continuing_is_plain_or_control(
    func: FunctionModel,
    frame: FrameModel,
    inst: Inst,
)
    requires
        exec_inst(func, frame, inst) matches Ok((_, ControlFlowModel::Continue)),
    ensures
        !(func.dfg.insts[inst.idx()] is Call),
        !(func.dfg.insts[inst.idx()] is Jump),
        !(func.dfg.insts[inst.idx()] is MultiAry),
        func.dfg.insts[inst.idx()].spec_branch_destination() is None ==> is_plain(
            func.dfg.insts[inst.idx()],
        ),
{
}

/// A reconstruction that got to `n` instructions got to each `k` before.
pub proof fn lemma_state_prefix(
    env: EnvModel,
    f: FuncRef,
    insts: Seq<Inst>,
    call_conv: CallConv,
    k: int,
    n: int,
)
    requires
        0 <= k <= n,
        state_after(env, f, insts, call_conv, n) is Some,
    ensures
        state_after(env, f, insts, call_conv, k) is Some,
{
    if state_after(env, f, insts, call_conv, k) is None {
        lemma_reconstruct_all_fails(
            start_state(f, call_conv),
            env,
            straight_trace(f, insts),
            Block(0),
            k + 1,
            n + 1,
        );
    }
}

/// What the reconstruction of a straight run has made after `k`
/// instructions stays as it is while the others are walked.
pub proof fn lemma_states_extend(
    env: EnvModel,
    f: FuncRef,
    insts: Seq<Inst>,
    call_conv: CallConv,
    frame0: FrameModel,
    k: int,
    n: int,
)
    requires
        env.wf(),
        env.has(f),
        0 <= k <= n <= insts.len(),
        state_after(env, f, insts, call_conv, n) is Some,
        replay(env.function(f), frame0, insts, n) is Some,
    ensures
        state_after(env, f, insts, call_conv, k) is Some,
        extends(
            state_after(env, f, insts, call_conv, k).unwrap().func.dfg,
            state_after(env, f, insts, call_conv, n).unwrap().func.dfg,
        ),
        sub_map(
            state_after(env, f, insts, call_conv, k).unwrap().inputs,
            state_after(env, f, insts, call_conv, n).unwrap().inputs,
        ),
    decreases n - k,
{
    lemma_state_prefix(env, f, insts, call_conv, k, n);
    lemma_replay_prefix(env.function(f), frame0, insts, k, n);
    lemma_straight_state(env, f, insts, call_conv, frame0, k);
    let a = state_after(env, f, insts, call_conv, k).unwrap();
    if k < n {
        lemma_state_prefix(env, f, insts, call_conv, k + 1, n);
        lemma_replay_prefix(env.function(f), frame0, insts, k + 1, n);
        lemma_straight_state(env, f, insts, call_conv, frame0, k + 1);
        let b = state_after(env, f, insts, call_conv, k + 1).unwrap();
        lemma_copy_shape(a, env.function(f), insts[k], Block(0));
        lemma_states_extend(env, f, insts, call_conv, frame0, k + 1, n);
        let c = state_after(env, f, insts, call_conv, n).unwrap();
        lemma_extends_transitive(a.func.dfg, b.func.dfg, c.func.dfg);
        assert forall|v: ValueRef| #[trigger] a.inputs.contains_key(v) implies c.inputs.contains_key(
            v,
        ) && c.inputs[v] == a.inputs[v] by {
            assert(b.inputs.contains_key(v));
        }
    } else {
        assert(a.func.wf());
    }
}

/// What the new frame holds, after `k` instructions of the new function
/// `func` ran: values that are parameters of a block or results of one of
/// those instructions, and nothing else.
pub open spec fn holds_only(func: FunctionModel, g: FrameModel, k: int) -> bool {
    forall|x: ValueRef|
        #![trigger g.is_bound(x)]
        g.is_bound(x) ==> func.dfg.value_valid(x) && match func.dfg.value_def(x) {
            ValueDef::Param(_, _) => true,
            ValueDef::Result(i, _) => i.idx() < k,
        }
}

/// None of the results of the instructions of `insts` from position `k`
/// on is set in `frame`.
pub open spec fn not_yet_defined(
    source: FunctionModel,
    frame: FrameModel,
    insts: Seq<Inst>,
    k: int,
) -> bool {
    forall|j: int, m: int|
        k <= j < insts.len() && 0 <= m < source.dfg.inst_results(insts[j]).len()
            ==> !frame.is_bound(#[trigger] source.dfg.inst_results(insts[j])[m])
}

/// What holds of the replay of a straight run and of the run of its
/// reconstruction after `k` instructions: the reconstruction ran as far,
/// the two frames agree through the renumbering, the new frame holds
/// nothing but parameters and the results of those instructions, and the
/// old frame holds none of the results of the instructions to come.
pub open spec fn simulated(
    env: EnvModel,
    f: FuncRef,
    insts: Seq<Inst>,
    call_conv: CallConv,
    frame0: FrameModel,
    g0: FrameModel,
    k: int,
) -> bool {
    let source = env.function(f);
    let n = insts.len() as int;
    let built = spec_build(env, straight_trace(f, insts), call_conv).unwrap();
    let last = state_after(env, f, insts, call_conv, n).unwrap();
    let st = state_after(env, f, insts, call_conv, k).unwrap();
    let frame = replay(source, frame0, insts, k).unwrap();
    let g = replay(built, g0, first_insts(n as nat), k);
    &&& g is Some
    &&& g.unwrap().registers.len() == g0.registers.len()
    &&& agree(frame, g.unwrap(), st.stack.last().renumbering, last.inputs)
    &&& holds_only(built, g.unwrap(), k)
    &&& not_yet_defined(source, frame, insts, k)
}

/// The free inputs of a straight run: the values that its instructions
/// read and that none of them defines, each with the parameter of the
/// reconstructed function that stands for it.
pub open spec fn free_inputs(
    env: EnvModel,
    f: FuncRef,
    insts: Seq<Inst>,
    call_conv: CallConv,
) -> RenumberingModel {
    state_after(env, f, insts, call_conv, insts.len() as int).unwrap().inputs
}

/// The new values of the values that a straight run defines.
pub open spec fn final_renumbering(
    env: EnvModel,
    f: FuncRef,
    insts: Seq<Inst>,
    call_conv: CallConv,
) -> RenumberingModel {
    state_after(env, f, insts, call_conv, insts.len() as int).unwrap().stack.last().renumbering
}

/// The function that a straight run is reconstructed into holds what the
/// reconstruction made, and a return behind it.
pub proof fn lemma_built_extends(env: EnvModel, f: FuncRef, insts: Seq<Inst>, call_conv: CallConv)
    requires
        spec_build(env, straight_trace(f, insts), call_conv) is Some,
    ensures
        state_after(env, f, insts, call_conv, insts.len() as int) is Some,
        state_after(env, f, insts, call_conv, insts.len() as int).unwrap().func.dfg.results.len()
            == state_after(
            env,
            f,
            insts,
            call_conv,
            insts.len() as int,
        ).unwrap().func.dfg.insts.len() ==> extends(
            state_after(env, f, insts, call_conv, insts.len() as int).unwrap().func.dfg,
            spec_build(env, straight_trace(f, insts), call_conv).unwrap().dfg,
        ),
        spec_build(env, straight_trace(f, insts), call_conv).unwrap().wf(),
{
    lemma_built_function_wf(env, straight_trace(f, insts), call_conv);
    assert(straight_trace(f, insts)[0] == TracedInstruction::StartInFunction(f));
}

/// Agreement through the renumbering and the inputs of a later state
/// gives agreement through those after the next instruction, as long as
/// the results of that instruction are not set yet.
pub proof fn lemma_agree_restrict(
    frame: FrameModel,
    g: FrameModel,
    before: RenumberingModel,
    current: RenumberingModel,
    inputs: RenumberingModel,
    last: RenumberingModel,
    results: Seq<ValueRef>,
)
    requires
        agree(frame, g, before, last),
        sub_map(inputs, last),
        forall|m: int| 0 <= m < results.len() ==> !frame.is_bound(#[trigger] results[m]),
        forall|v: ValueRef|
            #[trigger] current.contains_key(v) <==> before.contains_key(v) || among(
                results,
                results.len() as int,
                v,
            ),
        forall|v: ValueRef|
            before.contains_key(v) && !among(results, results.len() as int, v)
                ==> #[trigger] current[v] == before[v],
    ensures
        agree(frame, g, current, inputs),
{
    assert forall|v: ValueRef| #![trigger frame.is_bound(v)] frame.is_bound(v) implies match lookup(
        current,
        inputs,
        v,
    ) {
        Some(x) => g.get(x) == frame.get(v),
        None => true,
    } by {
        if among(results, results.len() as int, v) {
            let m = lemma_among_index(results, results.len() as int, v);
            assert(!frame.is_bound(results[m]));
        }
        if current.contains_key(v) {
            assert(before.contains_key(v));
            assert(current[v] == before[v]);
        } else if inputs.contains_key(v) {
            assert(last.contains_key(v) && last[v] == inputs[v]);
            assert(!before.contains_key(v));
        }
    }
}

/// Agreement after an instruction through the inputs known then gives
/// agreement through the inputs of a later state.
pub proof fn lemma_agree_lift(
    frame: FrameModel,
    frame2: FrameModel,
    g: FrameModel,
    g2: FrameModel,
    before: RenumberingModel,
    current: RenumberingModel,
    inputs: RenumberingModel,
    last: RenumberingModel,
    r: ValueRef,
    r2: ValueRef,
    c: crate::data_value::DataValue,
)
    requires
        agree(frame, g, before, last),
        agree(frame2, g2, current, inputs),
        sub_map(inputs, last),
        forall|v: ValueRef| #[trigger] before.contains_key(v) ==> current.contains_key(v),
        (frame2 == frame && g2 == g) || (frame.in_range(r) && g.in_range(r2) && !g.is_bound(r2)
            && current.contains_key(r) && frame2 == frame.set(r, c) && g2 == g.set(r2, c)),
    ensures
        agree(frame2, g2, current, last),
{
    assert forall|v: ValueRef| #![trigger frame2.is_bound(v)] frame2.is_bound(v) implies match lookup(
        current,
        last,
        v,
    ) {
        Some(x) => g2.get(x) == frame2.get(v),
        None => true,
    } by {
        if current.contains_key(v) {
        } else if inputs.contains_key(v) {
            assert(last.contains_key(v) && last[v] == inputs[v]);
        } else if last.contains_key(v) {
            let x = last[v];
            assert(!before.contains_key(v));
            if frame2 == frame && g2 == g {
                assert(frame.is_bound(v));
            } else {
                assert(v != r);
                assert(frame.is_bound(v));
                assert(g.get(x) == frame.get(v));
                assert(g.is_bound(x));
                assert(x != r2);
            }
        }
    }
}

/// What the law of the straight run asks of the run and of the two frames
/// it starts from.
pub open spec fn straight_run(
    env: EnvModel,
    f: FuncRef,
    insts: Seq<Inst>,
    call_conv: CallConv,
    frame0: FrameModel,
    g0: FrameModel,
) -> bool {
    let built = spec_build(env, straight_trace(f, insts), call_conv);
    &&& env.wf()
    &&& env.has(f)
    &&& built is Some
    &&& replay(env.function(f), frame0, insts, insts.len() as int) is Some
    &&& forall|a: int, b: int| 0 <= a < b < insts.len() ==> insts[a] != insts[b]
    &&& not_yet_defined(env.function(f), frame0, insts, 0)
    &&& g0.registers.len() == built.unwrap().dfg.values.len()
    &&& holds_only(built.unwrap(), g0, 0)
    &&& agree(frame0, g0, Map::empty(), free_inputs(env, f, insts, call_conv))
}

/// One more instruction of a straight run keeps the two runs in step.
pub proof fn lemma_simulation_step(
    env: EnvModel,
    f: FuncRef,
    insts: Seq<Inst>,
    call_conv: CallConv,
    frame0: FrameModel,
    g0: FrameModel,
    k: int,
)
    requires
        straight_run(env, f, insts, call_conv, frame0, g0),
        0 <= k < insts.len(),
        simulated(env, f, insts, call_conv, frame0, g0, k),
    ensures
        simulated(env, f, insts, call_conv, frame0, g0, k + 1),
{
    let source = env.function(f);
    let n = insts.len() as int;
    let built = spec_build(env, straight_trace(f, insts), call_conv).unwrap();
    lemma_built_extends(env, f, insts, call_conv);
    let last = state_after(env, f, insts, call_conv, n).unwrap();
    lemma_states_extend(env, f, insts, call_conv, frame0, k, n);
    lemma_states_extend(env, f, insts, call_conv, frame0, k + 1, n);
    lemma_replay_prefix(source, frame0, insts, k, n);
    lemma_replay_prefix(source, frame0, insts, k + 1, n);
    lemma_straight_state(env, f, insts, call_conv, frame0, k);
    lemma_straight_state(env, f, insts, call_conv, frame0, k + 1);
    lemma_straight_state(env, f, insts, call_conv, frame0, n);
    let st = state_after(env, f, insts, call_conv, k).unwrap();
    let st2 = state_after(env, f, insts, call_conv, k + 1).unwrap();
    let inst = insts[k];
    let frame = replay(source, frame0, insts, k).unwrap();
    let frame2 = replay(source, frame0, insts, k + 1).unwrap();
    let g = replay(built, g0, first_insts(n as nat), k).unwrap();
    let new_inst = Inst(k as u32);
    assert(source.wf());
    assert(st.func.dfg.next_inst() == new_inst);
    lemma_copy_shape(st, source, inst, Block(0));
    let before = st.stack.last().renumbering;
    let current = st2.stack.last().renumbering;
    let results = source.dfg.inst_results(inst);
    let new_results = st2.func.dfg.inst_results(new_inst);
    lemma_extends_transitive(st2.func.dfg, last.func.dfg, built.dfg);
    // The frames agree through what is known after the copy.
    assert forall|m: int| 0 <= m < results.len() implies !frame.is_bound(#[trigger] results[m]) by {
        assert(!frame.is_bound(source.dfg.inst_results(insts[k])[m]));
    }
    lemma_agree_restrict(frame, g, before, current, st2.inputs, last.inputs, results);
    // The fresh results of the copy are not set in the new frame.
    assert forall|m: int| 0 <= m < results.len() implies g.in_range(#[trigger] new_results[m])
        && !g.is_bound(new_results[m]) by {
        assert(st2.func.dfg.result_wf(k, m));
        let x = new_results[m];
        assert(built.dfg.values[x.idx()] == st2.func.dfg.values[x.idx()]);
        assert(built.dfg.value_def(x) == ValueDef::Result(new_inst, m as u32));
    }
    lemma_copy_simulates(st, source, inst, Block(0), frame, g);
    assert(frame2 == frame_after(source, frame, inst));
    let g2 = frame_after(st2.func, g, new_inst);
    // The new function does what the function made so far does.
    assert(is_plain(st2.func.dfg.insts[k]));
    lemma_exec_inst_stable(st2.func, built, g, new_inst);
    assert(first_insts(n as nat)[k] == new_inst);
    assert(built.dfg.inst_valid(new_inst));
    assert(replay(built, g0, first_insts(n as nat), k + 1) == Some(g2));
    let c = frame2.registers[results[0].idx()].unwrap();
    if results.len() > 0 {
        lemma_index_among(results, results.len() as int, 0);
    }
    lemma_agree_lift(
        frame,
        frame2,
        g,
        g2,
        before,
        current,
        st2.inputs,
        last.inputs,
        results[0],
        new_results[0],
        c,
    );
    // The new frame holds one more result at most.
    assert forall|x: ValueRef| #![trigger g2.is_bound(x)] g2.is_bound(x) implies built.dfg.value_valid(
        x,
    ) && match built.dfg.value_def(x) {
        ValueDef::Param(_, _) => true,
        ValueDef::Result(i, _) => i.idx() < k + 1,
    } by {
        if g.is_bound(x) {
        } else {
            assert(x == new_results[0]);
            assert(st2.func.dfg.result_wf(k, 0));
            assert(built.dfg.values[x.idx()] == st2.func.dfg.values[x.idx()]);
        }
    }
    // What is defined later is still not set in the old frame.
    assert forall|j: int, m: int|
        k + 1 <= j < insts.len() && 0 <= m < source.dfg.inst_results(
            insts[j],
        ).len() implies !frame2.is_bound(#[trigger] source.dfg.inst_results(insts[j])[m]) by {
        let y = source.dfg.inst_results(insts[j])[m];
        assert(!frame.is_bound(y));
        if frame2 != frame {
            lemma_replay_prefix(source, frame0, insts, j, n);
            assert(source.dfg.result_wf(insts[j].idx(), m));
            assert(source.dfg.result_wf(inst.idx(), 0));
            assert(insts[k] != insts[j]);
            assert(y != results[0]);
        }
    }
}

/// The two runs of a straight run stay in step.
pub proof fn lemma_simulated(
    env: EnvModel,
    f: FuncRef,
    insts: Seq<Inst>,
    call_conv: CallConv,
    frame0: FrameModel,
    g0: FrameModel,
    k: int,
)
    requires
        straight_run(env, f, insts, call_conv, frame0, g0),
        0 <= k <= insts.len(),
    ensures
        simulated(env, f, insts, call_conv, frame0, g0, k),
    decreases k,
{
    if k == 0 {
        lemma_built_extends(env, f, insts, call_conv);
        lemma_state_prefix(env, f, insts, call_conv, 0, insts.len() as int);
    } else {
        lemma_simulated(env, f, insts, call_conv, frame0, g0, k - 1);
        lemma_simulation_step(env, f, insts, call_conv, frame0, g0, k - 1);
    }
}

/// A reconstructed function computes what was observed, for a straight run.
///
/// Take instructions of one function, none twice, that run one after the
/// other on a frame in which none of their results is set yet, each going
/// on to the next; and the function that the trace of this run is
/// reconstructed into. Run its instructions on a frame that holds, for
/// each free input of the run, under the parameter that stands for it, what
/// the old frame holds for the input, and holds nothing but parameters. Then
/// each instruction runs and goes on to the next, and in the end every
/// value that the run has defined holds in the new frame, under its new
/// number, what it holds in the old one.
pub proof fn lemma_straight_run_computes_the_same(
    env: EnvModel,
    f: FuncRef,
    insts: Seq<Inst>,
    call_conv: CallConv,
    frame0: FrameModel,
    g0: FrameModel,
)
    requires
        straight_run(env, f, insts, call_conv, frame0, g0),
    ensures
        replay(
            spec_build(env, straight_trace(f, insts), call_conv).unwrap(),
            g0,
            first_insts(insts.len()),
            insts.len() as int,
        ) is Some,
        agree(
            replay(env.function(f), frame0, insts, insts.len() as int).unwrap(),
            replay(
                spec_build(env, straight_trace(f, insts), call_conv).unwrap(),
                g0,
                first_insts(insts.len()),
                insts.len() as int,
            ).unwrap(),
            final_renumbering(env, f, insts, call_conv),
            free_inputs(env, f, insts, call_conv),
        ),
{
    lemma_simulated(env, f, insts, call_conv, frame0, g0, insts.len() as int);
}

/// No instruction of the function reads one of its own results.
pub open spec fn no_self_use(func: FunctionModel) -> bool {
    forall|i: Inst, a: int, r: int|
        #![trigger func.dfg.inst_args(i)[a], func.dfg.inst_results(i)[r]]
        func.dfg.inst_valid(i) && 0 <= a < func.dfg.inst_args(i).len() && 0 <= r
            < func.dfg.inst_results(i).len() ==> func.dfg.inst_args(i)[a]
            != func.dfg.inst_results(i)[r]
}

/// No instruction of a function of the environment reads one of its own
/// results.
pub open spec fn env_no_self_use(env: EnvModel) -> bool {
    forall|f: int| 0 <= f < env.functions.len() ==> no_self_use(#[trigger] env.functions[f])
}

/// The value `x` is defined before the instruction of number `i` runs: it
/// is a parameter of a block, or a result of an instruction of a lower
/// number.
pub open spec fn defined_before(dfg: DfgModel, x: ValueRef, i: int) -> bool {
    dfg.value_valid(x) && match dfg.value_def(x) {
        ValueDef::Param(_, _) => true,
        ValueDef::Result(j, _) => j.idx() < i,
    }
}

/// Every operand of every instruction is defined before the instruction.
pub open spec fn operands_earlier(dfg: DfgModel) -> bool {
    forall|i: int, k: int|
        #![trigger dfg.inst_args(Inst(i as u32))[k]]
        0 <= i < dfg.insts.len() && 0 <= k < dfg.inst_args(Inst(i as u32)).len()
            ==> defined_before(dfg, dfg.inst_args(Inst(i as u32))[k], i)
}

/// Every new value of the renumbering is a value of the graph.
pub open spec fn map_valid(m: RenumberingModel, dfg: DfgModel) -> bool {
    forall|v: ValueRef| #[trigger] m.contains_key(v) ==> dfg.value_valid(m[v])
}

/// Every renumbering of the state renumbers to values of the function
/// built so far.
pub open spec fn maps_valid(st: ReconModel) -> bool {
    &&& map_valid(st.inputs, st.func.dfg)
    &&& forall|t: int|
        0 <= t < st.stack.len() ==> map_valid((#[trigger] st.stack[t]).renumbering, st.func.dfg)
}

/// The state of a reconstruction is sound: the function built so far is
/// well formed, and the renumberings name values of it.
pub open spec fn sound(st: ReconModel) -> bool {
    &&& st.func.wf()
    &&& maps_valid(st)
}

/// The graph `b` holds the pool of `a` as `a` holds it.
pub open spec fn pool_extends(a: DfgModel, b: DfgModel) -> bool {
    &&& a.pool.len() <= b.pool.len()
    &&& forall|p: int| #![trigger b.pool[p]] 0 <= p < a.pool.len() ==> b.pool[p] == a.pool[p]
}

/// An instruction has the same operands in a graph that extends the graph
/// it is in.
pub proof fn lemma_args_stable(a: DfgModel, b: DfgModel, i: Inst)
    requires
        a.wf(),
        a.inst_valid(i),
        extends(a, b),
        pool_extends(a, b),
    ensures
        b.inst_args(i) == a.inst_args(i),
{
    let data = a.insts[i.idx()];
    assert(b.insts[i.idx()] == data);
    assert(a.data_wf(data));
    let list = data.spec_value_list();
    assert(b.list_values(list) =~= a.list_values(list)) by {
        assert forall|k: int| 0 <= k < list.len implies #[trigger] b.list_values(list)[k]
            == a.list_values(list)[k] by {
            assert(b.pool[list.first + k] == a.pool[list.first + k]);
        }
    }
}

/// Each new operand is what its operand was renumbered to before, or a
/// parameter of a block.
pub proof fn lemma_translate_defs(
    dfg: DfgModel,
    inputs: RenumberingModel,
    current: RenumberingModel,
    old_dfg: DfgModel,
    args: Seq<ValueRef>,
    block: Block,
    k: int,
)
    requires
        0 <= k <= args.len(),
        dfg.wf(),
        dfg.block_valid(block),
    ensures
        translate(dfg, inputs, current, old_dfg, args, block, k) matches Some((d, ins, out)) ==> {
            &&& forall|j: int|
                0 <= j < k ==> lookup(current, inputs, args[j]) == Some(#[trigger] out[j]) || (
                d.value_valid(out[j]) && d.value_def(out[j]) is Param)
            &&& forall|v: ValueRef|
                #[trigger] ins.contains_key(v) ==> (inputs.contains_key(v) && ins[v] == inputs[v])
                    || (d.value_valid(ins[v]) && d.value_def(ins[v]) is Param)
        },
    decreases k,
{
    if k > 0 {
        lemma_translate_defs(dfg, inputs, current, old_dfg, args, block, k - 1);
        lemma_translate_wf(dfg, inputs, current, old_dfg, args, block, k - 1);
        lemma_translate_shape(dfg, inputs, current, old_dfg, args, block, k - 1);
        match translate(dfg, inputs, current, old_dfg, args, block, k - 1) {
            Some((d0, ins0, out0)) => {
                match lookup(current, ins0, args[k - 1]) {
                    Some(a) => {
                        if d0.value_valid(a) {
                            let out = out0.push(a);
                            assert forall|j: int| 0 <= j < k implies lookup(
                                current,
                                inputs,
                                args[j],
                            ) == Some(#[trigger] out[j]) || (d0.value_valid(out[j])
                                && d0.value_def(out[j]) is Param) by {
                                if j < k - 1 {
                                    assert(out[j] == out0[j]);
                                } else {
                                    if !current.contains_key(args[j]) {
                                        assert(ins0.contains_key(args[j]));
                                    }
                                }
                            }
                        }
                    },
                    None => {
                        if d0.values.len() < entity_limit() {
                            let ty = old_dfg.value_type(args[k - 1]);
                            let d = d0.append_block_param(block, ty);
                            let x = d0.next_value();
                            let ins = ins0.insert(args[k - 1], x);
                            let out = out0.push(x);
                            assert(d.value_valid(x) && d.value_def(x) is Param);
                            assert forall|j: int| 0 <= j < k implies lookup(
                                current,
                                inputs,
                                args[j],
                            ) == Some(#[trigger] out[j]) || (d.value_valid(out[j])
                                && d.value_def(out[j]) is Param) by {
                                if j < k - 1 {
                                    assert(out[j] == out0[j]);
                                    if d0.value_valid(out0[j]) {
                                        assert(d.values[out0[j].idx()] == d0.values[out0[j].idx()]);
                                    }
                                }
                            }
                            assert forall|v: ValueRef| #[trigger] ins.contains_key(v) implies (
                            inputs.contains_key(v) && ins[v] == inputs[v]) || (d.value_valid(ins[v])
                                && d.value_def(ins[v]) is Param) by {
                                if v != args[k - 1] {
                                    assert(ins0.contains_key(v));
                                    if d0.value_valid(ins0[v]) {
                                        assert(d.values[ins0[v].idx()] == d0.values[ins0[v].idx()]);
                                    }
                                }
                            }
                        }
                    },
                }
            },
            None => {},
        }
    }
}

/// Values of a graph are values of a graph that extends it, defined where
/// they were.
pub proof fn lemma_defined_before_stable(a: DfgModel, b: DfgModel, x: ValueRef, i: int)
    requires
        extends(a, b),
        defined_before(a, x, i),
    ensures
        defined_before(b, x, i),
{
    assert(b.values[x.idx()] == a.values[x.idx()]);
}

/// A value of a well-formed graph is defined before the instruction that
/// is added to the graph next.
pub proof fn lemma_valid_is_defined_before_next(a: DfgModel, x: ValueRef)
    requires
        a.wf(),
        a.value_valid(x),
    ensures
        defined_before(a, x, a.insts.len() as int),
{
    assert(a.def_wf(x.idx()));
}

/// Copying an instruction keeps the state sound and what was built; where
/// the instruction reads none of its own results, it keeps every operand
/// defined before it is read.
pub proof fn lemma_copy_sound(st: ReconModel, source: FunctionModel, inst: Inst, block: Block)
    requires
        sound(st),
        source.wf(),
        source.dfg.inst_valid(inst),
        st.func.dfg.block_valid(block),
        st.stack.len() > 0,
    ensures
        st.copy(source, inst, block) matches Some(after) ==> {
            &&& sound(after)
            &&& after.stack.len() == st.stack.len()
            &&& after.func.dfg.block_valid(block)
            &&& extends(st.func.dfg, after.func.dfg)
            &&& sub_map(st.inputs, after.inputs)
            &&& no_self_use(source) && operands_earlier(st.func.dfg) ==> operands_earlier(
                after.func.dfg,
            )
        },
{
    let data = source.dfg.insts[inst.idx()];
    let top = st.stack.last();
    let dfg0 = st.func.dfg;
    if st.copy(source, inst, block) is Some {
        let after = st.copy(source, inst, block).unwrap();
        lemma_copy_wf(st, source, inst, block);
        lemma_results_distinct(source, inst);
        let nop = InstructionData::NullAry { opcode: Opcode::Nop };
        let n = dfg0.next_inst();
        assert(dfg0.data_args(nop) =~= Seq::<ValueRef>::empty());
        dfg0.lemma_make_inst_wf(nop);
        let dfg1 = dfg0.make_inst(nop);
        let results = source.dfg.inst_results(inst);
        let args = source.dfg.inst_args(inst);
        lemma_add_results_wf(dfg1, top.renumbering, n, source.dfg, results, results.len() as int);
        lemma_add_results_shape(dfg1, top.renumbering, n, source.dfg, results, results.len() as int);
        let (dfg2, current) = add_results(
            dfg1,
            top.renumbering,
            n,
            source.dfg,
            results,
            results.len() as int,
        ).unwrap();
        lemma_translate_wf(dfg2, st.inputs, current, source.dfg, args, block, args.len() as int);
        lemma_translate_len(dfg2, st.inputs, current, source.dfg, args, block, args.len() as int);
        lemma_translate_shape(dfg2, st.inputs, current, source.dfg, args, block, args.len() as int);
        lemma_translate_defs(dfg2, st.inputs, current, source.dfg, args, block, args.len() as int);
        let (dfg3, inputs, new_args) = translate(
            dfg2,
            st.inputs,
            current,
            source.dfg,
            args,
            block,
            args.len() as int,
        ).unwrap();
        let nfixed = data.fixed_args().len() as int;
        let rest = new_args.subrange(nfixed, new_args.len() as int);
        let fixed = new_args.subrange(0, nfixed);
        let list = dfg3.next_list(rest);
        let new_data = data.spec_with_fixed_args(fixed).spec_with_value_list(list);
        assert forall|i: int| 0 <= i < rest.len() implies dfg3.value_valid(#[trigger] rest[i]) by {
            assert(dfg3.value_valid(new_args[nfixed + i]));
        }
        dfg3.lemma_push_list_wf(rest);
        let d = dfg3.push_list(rest);
        lemma_rebuilt_args(data, fixed, list);
        let dfg4 = d.replace(n, new_data);
        assert(after.func.dfg == dfg4);
        assert(dfg4.inst_args(n) =~= new_args) by {
            let list2 = new_data.spec_value_list();
            if data is Call || data is MultiAry || data is MultiAryImm {
                assert(d.list_values(list2) == rest);
            } else {
                assert(source.dfg.list_values(data.spec_value_list()).len() == 0);
                assert(d.list_values(list2).len() == 0);
            }
            assert(dfg4.list_values(list2) == d.list_values(list2));
        }
        assert(extends(dfg0, dfg4)) by {
            assert forall|j: int| 0 <= j < dfg0.insts.len() implies dfg4.insts[j] == dfg0.insts[j]
                && dfg4.results[j] == dfg0.results[j] by {
                assert(dfg2.results[j] == dfg1.results[j]);
            }
            assert forall|v: int| 0 <= v < dfg0.values.len() implies dfg4.values[v]
                == dfg0.values[v] by {
                assert(dfg3.values.subrange(0, dfg2.values.len() as int)[v] == dfg3.values[v]);
                assert(dfg2.values.subrange(0, dfg1.values.len() as int)[v] == dfg2.values[v]);
            }
        }
        assert(pool_extends(dfg0, dfg4));
        assert(dfg4.values == dfg3.values);
        // The renumberings name values of the new graph.
        assert(map_valid(inputs, dfg4)) by {
            assert forall|v: ValueRef| #[trigger] inputs.contains_key(v) implies dfg4.value_valid(
                inputs[v],
            ) by {
                if st.inputs.contains_key(v) && inputs[v] == st.inputs[v] {
                    assert(dfg0.value_valid(st.inputs[v]));
                }
            }
        }
        assert(map_valid(current, dfg4)) by {
            assert forall|v: ValueRef| #[trigger] current.contains_key(v) implies dfg4.value_valid(
                current[v],
            ) by {
                if among(results, results.len() as int, v) {
                    let j = lemma_among_index(results, results.len() as int, v);
                    assert(current[results[j]] == ValueRef((dfg1.values.len() + j) as u32));
                } else {
                    assert(top.renumbering.contains_key(v));
                    assert(current[v] == top.renumbering[v]);
                    assert(dfg0.value_valid(st.stack[st.stack.len() - 1].renumbering[v]));
                }
            }
        }
        assert forall|t: int| 0 <= t < after.stack.len() implies map_valid(
            (#[trigger] after.stack[t]).renumbering,
            dfg4,
        ) by {
            if t < st.stack.len() - 1 {
                assert(after.stack[t] == st.stack[t]);
                let m = st.stack[t].renumbering;
                assert forall|v: ValueRef| #[trigger] m.contains_key(v) implies dfg4.value_valid(
                    m[v],
                ) by {
                    assert(dfg0.value_valid(m[v]));
                }
            } else {
                assert(after.stack[t].renumbering == current);
            }
        }
        // The operands are defined before they are read.
        assert forall|i: int, k: int|
            #![trigger dfg4.inst_args(Inst(i as u32))[k]]
            no_self_use(source) && operands_earlier(dfg0) && 0 <= i < dfg4.insts.len() && 0 <= k
                < dfg4.inst_args(Inst(i as u32)).len() implies defined_before(
            dfg4,
            dfg4.inst_args(Inst(i as u32))[k],
            i,
        ) by {
            if i < dfg0.insts.len() {
                lemma_args_stable(dfg0, dfg4, Inst(i as u32));
                assert(defined_before(dfg0, dfg0.inst_args(Inst(i as u32))[k], i));
                lemma_defined_before_stable(dfg0, dfg4, dfg0.inst_args(Inst(i as u32))[k], i);
            } else {
                assert(Inst(i as u32) == n);
                let x = new_args[k];
                if lookup(current, st.inputs, args[k]) == Some(x) {
                    let a = args[k];
                    assert(!among(results, results.len() as int, a)) by {
                        if among(results, results.len() as int, a) {
                            let r = lemma_among_index(results, results.len() as int, a);
                            assert(source.dfg.inst_args(inst)[k] != source.dfg.inst_results(
                                inst,
                            )[r]);
                        }
                    }
                    if current.contains_key(a) {
                        assert(top.renumbering.contains_key(a));
                        assert(current[a] == top.renumbering[a]);
                        assert(dfg0.value_valid(st.stack[st.stack.len() - 1].renumbering[a]));
                    } else {
                        assert(st.inputs.contains_key(a));
                        assert(dfg0.value_valid(st.inputs[a]));
                    }
                    lemma_valid_is_defined_before_next(dfg0, x);
                    lemma_defined_before_stable(dfg0, dfg4, x, i);
                } else {
                    assert(dfg3.value_valid(x) && dfg3.value_def(x) is Param);
                    assert(dfg4.values[x.idx()] == dfg3.values[x.idx()]);
                }
            }
        }
    }
}

/// The renumbering of a block entered with arguments names values of the
/// graph where the renumberings it is made from do.
pub proof fn lemma_bind_valid(
    current: RenumberingModel,
    inputs: RenumberingModel,
    use_inputs: bool,
    olds: Seq<ValueRef>,
    news: Seq<ValueRef>,
    k: int,
    dfg: DfgModel,
)
    requires
        map_valid(current, dfg),
        map_valid(inputs, dfg),
    ensures
        bind(current, inputs, use_inputs, olds, news, k) matches Some(m) ==> map_valid(m, dfg),
    decreases k,
{
    if k > 0 {
        lemma_bind_valid(current, inputs, use_inputs, olds, news, k - 1, dfg);
        if current.contains_key(olds[k - 1]) {
            assert(dfg.value_valid(current[olds[k - 1]]));
        } else if inputs.contains_key(olds[k - 1]) {
            assert(dfg.value_valid(inputs[olds[k - 1]]));
        }
    }
}

/// The caller's renumbering after a return names values of the graph where
/// the renumberings it is made from do.
pub proof fn lemma_map_returns_valid(
    caller: RenumberingModel,
    callee: RenumberingModel,
    inputs: RenumberingModel,
    results: Seq<ValueRef>,
    returned: Seq<ValueRef>,
    k: int,
    dfg: DfgModel,
)
    requires
        map_valid(caller, dfg),
        map_valid(callee, dfg),
        map_valid(inputs, dfg),
    ensures
        map_valid(map_returns(caller, callee, inputs, results, returned, k), dfg),
    decreases k,
{
    if k > 0 {
        lemma_map_returns_valid(caller, callee, inputs, results, returned, k - 1, dfg);
        let v = returned[k - 1];
        if callee.contains_key(v) {
            assert(dfg.value_valid(callee[v]));
        } else if inputs.contains_key(v) {
            assert(dfg.value_valid(inputs[v]));
        }
    }
}

/// Walking one instruction keeps the state sound and what was built; where
/// no instruction of the environment reads one of its own results, it
/// keeps every operand defined before it is read.
pub proof fn lemma_reconstruct_sound(st: ReconModel, env: EnvModel, inst: Inst, block: Block)
    requires
        sound(st),
        env.wf(),
        st.func.dfg.block_valid(block),
    ensures
        st.reconstruct_instruction(env, inst, block) matches Some(after) ==> {
            &&& sound(after)
            &&& after.func.dfg.block_valid(block)
            &&& extends(st.func.dfg, after.func.dfg)
            &&& sub_map(st.inputs, after.inputs)
            &&& env_no_self_use(env) && operands_earlier(st.func.dfg) ==> operands_earlier(
                after.func.dfg,
            )
        },
{
    match st.reconstruct_instruction(env, inst, block) {
        None => {},
        Some(after) => {
            let source = st.old_func(env).unwrap();
            let top = st.stack.last();
            let dfg = st.func.dfg;
            assert(source == env.functions[top.func_ref.idx()]);
            assert(source.wf());
            assert(env_no_self_use(env) ==> no_self_use(source));
            assert(map_valid(st.stack[st.stack.len() - 1].renumbering, dfg));
            match source.dfg.insts[inst.idx()] {
                InstructionData::Call { args, func_ref, .. } => {
                    let callee_ref = env.index_of(source.dfg.ext_funcs[func_ref.idx()]).unwrap();
                    let callee_block = env.function(callee_ref).layout.entry_block().unwrap();
                    let caller_args = source.dfg.list_values(args);
                    let callee_args = env.function(callee_ref).dfg.params_of(callee_block);
                    lemma_bind_valid(
                        top.renumbering,
                        st.inputs,
                        st.stack.len() == 1,
                        caller_args,
                        callee_args,
                        caller_args.len() as int,
                        dfg,
                    );
                    assert forall|t: int| 0 <= t < after.stack.len() implies map_valid(
                        (#[trigger] after.stack[t]).renumbering,
                        dfg,
                    ) by {
                        if t < st.stack.len() {
                            assert(after.stack[t] == st.stack[t]);
                        }
                    }
                },
                InstructionData::Jump { args, destination, .. } => {
                    let caller_args = source.dfg.list_values(args);
                    let destination_args = source.dfg.params_of(destination);
                    lemma_bind_valid(
                        top.renumbering,
                        st.inputs,
                        true,
                        caller_args,
                        destination_args,
                        caller_args.len() as int,
                        dfg,
                    );
                    assert forall|t: int| 0 <= t < after.stack.len() implies map_valid(
                        (#[trigger] after.stack[t]).renumbering,
                        dfg,
                    ) by {
                        if t < st.stack.len() - 1 {
                            assert(after.stack[t] == st.stack[t]);
                        }
                    }
                },
                InstructionData::MultiAry { opcode: Opcode::Return, args } => {
                    let rest = st.stack.drop_last();
                    let returned = source.dfg.list_values(args);
                    if rest.len() == 0 {
                        assert(after.stack.len() == 0);
                    } else {
                        let caller = rest.last();
                        let k = if top.call_results.len() <= returned.len() {
                            top.call_results.len()
                        } else {
                            returned.len()
                        };
                        assert(caller == st.stack[st.stack.len() - 2]);
                        assert(map_valid(st.stack[st.stack.len() - 2].renumbering, dfg));
                        lemma_map_returns_valid(
                            caller.renumbering,
                            top.renumbering,
                            st.inputs,
                            top.call_results,
                            returned,
                            k as int,
                            dfg,
                        );
                        assert forall|t: int| 0 <= t < after.stack.len() implies map_valid(
                            (#[trigger] after.stack[t]).renumbering,
                            dfg,
                        ) by {
                            if t < st.stack.len() - 2 {
                                assert(after.stack[t] == st.stack[t]);
                            }
                        }
                    }
                },
                _ => {
                    lemma_copy_sound(st, source, inst, block);
                },
            }
        },
    }
}

/// Walking the records keeps the state sound and what was built; where no
/// instruction of the environment reads one of its own results, it keeps
/// every operand defined before it is read.
pub proof fn lemma_reconstruct_all_sound(
    st: ReconModel,
    env: EnvModel,
    observed: Seq<TracedInstruction>,
    block: Block,
    k: int,
)
    requires
        sound(st),
        env.wf(),
        st.func.dfg.block_valid(block),
    ensures
        st.reconstruct_all(env, observed, block, k) matches Some(after) ==> {
            &&& sound(after)
            &&& after.func.dfg.block_valid(block)
            &&& extends(st.func.dfg, after.func.dfg)
            &&& sub_map(st.inputs, after.inputs)
            &&& env_no_self_use(env) && operands_earlier(st.func.dfg) ==> operands_earlier(
                after.func.dfg,
            )
        },
    decreases k,
{
    if k > 1 {
        lemma_reconstruct_all_sound(st, env, observed, block, k - 1);
        match st.reconstruct_all(env, observed, block, k - 1) {
            Some(mid) => {
                match observed[k - 1] {
                    TracedInstruction::Instruction(i) => {
                        lemma_reconstruct_sound(mid, env, i, block);
                        match mid.reconstruct_instruction(env, i, block) {
                            Some(after) => {
                                lemma_extends_transitive(st.func.dfg, mid.func.dfg, after.func.dfg);
                            },
                            None => {},
                        }
                    },
                    _ => {},
                }
            },
            None => {},
        }
    }
}

/// Reconstruction is total. Where no instruction of the environment's
/// functions reads one of its own results, every operand of every
/// instruction of the function that a trace is reconstructed into is a
/// parameter of its one block or a result of an instruction that stands
/// earlier in it: the function reads no value that it does not define
/// first.
pub proof fn lemma_reconstruction_total(
    env: EnvModel,
    observed: Seq<TracedInstruction>,
    call_conv: CallConv,
)
    requires
        env.wf(),
        env_no_self_use(env),
    ensures
        spec_build(env, observed, call_conv) matches Some(f) ==> f.wf() && forall|i: Inst, k: int|
            #![trigger f.dfg.inst_args(i)[k]]
            f.dfg.inst_valid(i) && 0 <= k < f.dfg.inst_args(i).len() ==> f.dfg.value_valid(
                f.dfg.inst_args(i)[k],
            ) && match f.dfg.value_def(f.dfg.inst_args(i)[k]) {
                ValueDef::Param(b, _) => b == Block(0),
                ValueDef::Result(j, _) => j.idx() < i.idx(),
            },
{
    lemma_built_function_wf(env, observed, call_conv);
    lemma_built_function_has_one_block(env, observed, call_conv);
    match spec_build(env, observed, call_conv) {
        None => {},
        Some(f) => {
            let first = observed[0]->StartInFunction_0;
            let block = Block(0);
            let st0 = ReconModel {
                func: initial_function(call_conv),
                inputs: Map::empty(),
                stack: seq![
                    StackFrameModel {
                        func_ref: first,
                        renumbering: Map::empty(),
                        call_results: Seq::empty(),
                    },
                ],
            };
            DfgModel::empty().lemma_make_block_wf();
            LayoutModel::empty().lemma_append_block_wf(st0.func.dfg, block);
            assert(sound(st0));
            assert(operands_earlier(st0.func.dfg));
            lemma_reconstruct_all_sound(st0, env, observed, block, observed.len() as int);
            let st = st0.reconstruct_all(env, observed, block, observed.len() as int).unwrap();
            let ret = InstructionData::MultiAry {
                opcode: Opcode::Return,
                args: ValueList { first: 0, len: 0 },
            };
            let a = st.func.dfg;
            assert(f.dfg == a.make_inst(ret));
            assert(a.data_args(ret) =~= Seq::<ValueRef>::empty());
            assert forall|i: Inst, k: int|
                #![trigger f.dfg.inst_args(i)[k]]
                f.dfg.inst_valid(i) && 0 <= k < f.dfg.inst_args(i).len() implies f.dfg.value_valid(
                f.dfg.inst_args(i)[k],
            ) && match f.dfg.value_def(f.dfg.inst_args(i)[k]) {
                ValueDef::Param(b, _) => b == Block(0),
                ValueDef::Result(j, _) => j.idx() < i.idx(),
            } by {
                let x = f.dfg.inst_args(i)[k];
                if i.idx() < a.insts.len() {
                    assert(f.dfg.insts[i.idx()] == a.insts[i.idx()]);
                    assert(f.dfg.inst_args(i) == a.inst_args(i));
                    assert(Inst(i.idx() as u32) == i);
                    assert(defined_before(a, a.inst_args(Inst(i.idx() as u32))[k], i.idx()));
                    assert(f.dfg.def_wf(x.idx()));
                } else {
                    assert(f.dfg.insts[i.idx()] == ret);
                    assert(f.dfg.inst_args(i) =~= Seq::<ValueRef>::empty());
                }
            }
        },
    }
}

} // verus!

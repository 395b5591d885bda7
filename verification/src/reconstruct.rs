//! Reconstruction of a trace into one straight-line function.
//!
//! A trace names SSA values of several functions, and of several calls of
//! one function, so its instructions cannot be copied as they stand: every
//! value is numbered anew. Each observed result gets a fresh value; a call
//! maps the callee's parameters to the caller's renumbered arguments, a jump
//! does the same for the parameters of its destination, and a return maps
//! the caller's results to what the callee returned. An operand that none of
//! these maps knows is a free input of the trace: it becomes a parameter of
//! the new function's only block.
use crate::environment::{EnvModel, Environment};
use crate::ir::dfg::{entity_limit, DfgModel};
use crate::ir::entities::{Block, FuncRef, Inst, ValueRef};
use crate::ir::function::{CallConv, Function, FunctionModel, SignatureModel};
use crate::ir::instructions::{InstructionData, Opcode, ValueList};
use crate::ir::layout::LayoutModel;
use crate::ir::types::Type;
use crate::trace::{count_starts, lemma_counts_push, Trace, TracedInstruction};
use crate::util::copy_vec;
use std::collections::HashMap;
use vstd::prelude::*;

verus! {

/// A map from old SSA values to new ones.
pub type RenumberingModel = Map<ValueRef, ValueRef>;

/// The mathematical content of one frame of the reconstructor's stack.
pub ghost struct StackFrameModel {
    /// The function that is being walked.
    pub func_ref: FuncRef,
    /// The new values of the function's values seen so far.
    pub renumbering: RenumberingModel,
    /// The results of the call that entered the function, in the caller.
    pub call_results: Seq<ValueRef>,
}

/// The mathematical content of a reconstruction under way.
pub ghost struct ReconModel {
    /// The function built so far.
    pub func: FunctionModel,
    /// The new values of the free inputs found so far.
    pub inputs: RenumberingModel,
    /// The frames of the calls entered and not left, innermost last.
    pub stack: Seq<StackFrameModel>,
}

/// What an operand is renumbered to: what the current frame says, else what
/// the inputs say.
pub open spec fn lookup(current: RenumberingModel, inputs: RenumberingModel, v: ValueRef) -> Option<
    ValueRef,
> {
    if current.contains_key(v) {
        Some(current[v])
    } else if inputs.contains_key(v) {
        Some(inputs[v])
    } else {
        None
    }
}

/// The renumbering of a block entered with arguments: each of the first `k`
/// `news` (the block's parameters) gets what the `olds` at its position (the
/// arguments) is renumbered to. `None` where an argument has no new value,
/// or has one among the inputs only while `use_inputs` is off.
pub open spec fn bind(
    current: RenumberingModel,
    inputs: RenumberingModel,
    use_inputs: bool,
    olds: Seq<ValueRef>,
    news: Seq<ValueRef>,
    k: int,
) -> Option<RenumberingModel>
    decreases k,
{
    if k <= 0 {
        Some(Map::empty())
    } else {
        match bind(current, inputs, use_inputs, olds, news, k - 1) {
            None => None,
            Some(m) => if current.contains_key(olds[k - 1]) {
                Some(m.insert(news[k - 1], current[olds[k - 1]]))
            } else if inputs.contains_key(olds[k - 1]) && use_inputs {
                Some(m.insert(news[k - 1], inputs[olds[k - 1]]))
            } else {
                None
            },
        }
    }
}

/// The caller's renumbering after a return: each of the first `k` results of
/// the call gets what the returned value at its position was renumbered to
/// in the callee; a result whose returned value has no new value stays as it
/// was.
pub open spec fn map_returns(
    caller: RenumberingModel,
    callee: RenumberingModel,
    inputs: RenumberingModel,
    results: Seq<ValueRef>,
    returned: Seq<ValueRef>,
    k: int,
) -> RenumberingModel
    decreases k,
{
    if k <= 0 {
        caller
    } else {
        let before = map_returns(caller, callee, inputs, results, returned, k - 1);
        match lookup(callee, inputs, returned[k - 1]) {
            Some(t) => before.insert(results[k - 1], t),
            None => before,
        }
    }
}

/// The new graph and the renumbering after the first `k` of `results` (the
/// results of an instruction of `old_dfg`) each got a fresh result of
/// `new_inst`, of the same type. `None` where the new graph is full.
pub open spec fn add_results(
    dfg: DfgModel,
    map: RenumberingModel,
    new_inst: Inst,
    old_dfg: DfgModel,
    results: Seq<ValueRef>,
    k: int,
) -> Option<(DfgModel, RenumberingModel)>
    decreases k,
{
    if k <= 0 {
        Some((dfg, map))
    } else {
        match add_results(dfg, map, new_inst, old_dfg, results, k - 1) {
            None => None,
            Some((d, m)) => if d.values.len() < entity_limit() {
                Some(
                    (
                        d.append_result(new_inst, old_dfg.value_type(results[k - 1])),
                        m.insert(results[k - 1], d.next_value()),
                    ),
                )
            } else {
                None
            },
        }
    }
}

/// The new graph, the inputs and the new operands after the first `k` of
/// `args` (the operands of an instruction of `old_dfg`) were renumbered: an
/// operand that `current` or the inputs know gets its new value; any other
/// becomes a new parameter of `block`, of the operand's type, and an input.
/// `None` where the new graph is full or a new value is not one of it.
pub open spec fn translate(
    dfg: DfgModel,
    inputs: RenumberingModel,
    current: RenumberingModel,
    old_dfg: DfgModel,
    args: Seq<ValueRef>,
    block: Block,
    k: int,
) -> Option<(DfgModel, RenumberingModel, Seq<ValueRef>)>
    decreases k,
{
    if k <= 0 {
        Some((dfg, inputs, Seq::empty()))
    } else {
        match translate(dfg, inputs, current, old_dfg, args, block, k - 1) {
            None => None,
            Some((d, ins, out)) => match lookup(current, ins, args[k - 1]) {
                Some(a) => if d.value_valid(a) {
                    Some((d, ins, out.push(a)))
                } else {
                    None
                },
                None => if d.values.len() < entity_limit() {
                    Some(
                        (
                            d.append_block_param(block, old_dfg.value_type(args[k - 1])),
                            ins.insert(args[k - 1], d.next_value()),
                            out.push(d.next_value()),
                        ),
                    )
                } else {
                    None
                },
            },
        }
    }
}

impl ReconModel {
    /// The function that is being walked: that of the innermost frame.
    pub open spec fn old_func(self, env: EnvModel) -> Option<FunctionModel> {
        if self.stack.len() > 0 {
            env.get(self.stack.last().func_ref)
        } else {
            None
        }
    }

    /// The state after a call was walked: a frame for the callee is pushed,
    /// in which the parameters of the callee's first block have the new
    /// values of the call's arguments.
    pub open spec fn call(self, env: EnvModel, source: FunctionModel, inst: Inst) -> Option<
        ReconModel,
    > {
        let data = source.dfg.insts[inst.idx()];
        match data {
            InstructionData::Call { args, func_ref, .. } => {
                match env.index_of(source.dfg.ext_funcs[func_ref.idx()]) {
                    None => None,
                    Some(callee_ref) => match env.function(callee_ref).layout.entry_block() {
                        None => None,
                        Some(callee_block) => {
                            let caller_args = source.dfg.list_values(args);
                            let callee_args = env.function(callee_ref).dfg.params_of(callee_block);
                            if caller_args.len() != callee_args.len() {
                                None
                            } else {
                                match bind(
                                    self.stack.last().renumbering,
                                    self.inputs,
                                    self.stack.len() == 1,
                                    caller_args,
                                    callee_args,
                                    caller_args.len() as int,
                                ) {
                                    None => None,
                                    Some(local) => Some(
                                        ReconModel {
                                            stack: self.stack.push(
                                                StackFrameModel {
                                                    func_ref: callee_ref,
                                                    renumbering: local,
                                                    call_results: source.dfg.inst_results(inst),
                                                },
                                            ),
                                            ..self
                                        },
                                    ),
                                }
                            }
                        },
                    },
                }
            },
            _ => None,
        }
    }

    /// The state after a jump was walked: the renumbering of the innermost
    /// frame is replaced by one in which the parameters of the destination
    /// have the new values of the jump's arguments.
    pub open spec fn jump(self, source: FunctionModel, inst: Inst) -> Option<ReconModel> {
        let data = source.dfg.insts[inst.idx()];
        match data {
            InstructionData::Jump { args, destination, .. } => {
                let top = self.stack.last();
                let caller_args = source.dfg.list_values(args);
                let destination_args = source.dfg.params_of(destination);
                if caller_args.len() != destination_args.len() {
                    None
                } else {
                    match bind(
                        top.renumbering,
                        self.inputs,
                        true,
                        caller_args,
                        destination_args,
                        caller_args.len() as int,
                    ) {
                        None => None,
                        Some(m) => Some(
                            ReconModel {
                                stack: self.stack.drop_last().push(
                                    StackFrameModel { renumbering: m, ..top },
                                ),
                                ..self
                            },
                        ),
                    }
                }
            },
            _ => None,
        }
    }

    /// The state after a return was walked: the innermost frame is popped,
    /// and in the frame below it the results of the call have the new values
    /// of what was returned.
    pub open spec fn ret(self, source: FunctionModel, inst: Inst) -> Option<ReconModel> {
        let data = source.dfg.insts[inst.idx()];
        match data {
            InstructionData::MultiAry { args, .. } => {
                let top = self.stack.last();
                let rest = self.stack.drop_last();
                let returned = source.dfg.list_values(args);
                if rest.len() == 0 {
                    Some(ReconModel { stack: rest, ..self })
                } else {
                    let caller = rest.last();
                    let k = if top.call_results.len() <= returned.len() {
                        top.call_results.len()
                    } else {
                        returned.len()
                    };
                    Some(
                        ReconModel {
                            stack: rest.drop_last().push(
                                StackFrameModel {
                                    renumbering: map_returns(
                                        caller.renumbering,
                                        top.renumbering,
                                        self.inputs,
                                        top.call_results,
                                        returned,
                                        k as int,
                                    ),
                                    ..caller
                                },
                            ),
                            ..self
                        },
                    )
                }
            },
            _ => None,
        }
    }

    /// The state after an instruction was copied to the end of `block`: its
    /// results are fresh values, recorded in the innermost frame, and its
    /// operands are renumbered, the unknown ones becoming inputs.
    pub open spec fn copy(self, source: FunctionModel, inst: Inst, block: Block) -> Option<
        ReconModel,
    > {
        let data = source.dfg.insts[inst.idx()];
        let top = self.stack.last();
        let dfg0 = self.func.dfg;
        if data.spec_branch_destination() is Some || data is Call || dfg0.insts.len()
            >= entity_limit() {
            None
        } else {
            let new_inst = dfg0.next_inst();
            let dfg1 = dfg0.make_inst(InstructionData::NullAry { opcode: Opcode::Nop });
            let results = source.dfg.inst_results(inst);
            match add_results(dfg1, top.renumbering, new_inst, source.dfg, results, results.len() as int) {
                None => None,
                Some((dfg2, current)) => {
                    let args = source.dfg.inst_args(inst);
                    match translate(
                        dfg2,
                        self.inputs,
                        current,
                        source.dfg,
                        args,
                        block,
                        args.len() as int,
                    ) {
                        None => None,
                        Some((dfg3, inputs, new_args)) => {
                            let nfixed = data.fixed_args().len() as int;
                            let rest = new_args.subrange(nfixed, new_args.len() as int);
                            if dfg3.pool.len() + rest.len() > entity_limit() {
                                None
                            } else {
                                let new_data = data.spec_with_fixed_args(
                                    new_args.subrange(0, nfixed),
                                ).spec_with_value_list(dfg3.next_list(rest));
                                let dfg4 = dfg3.push_list(rest).replace(new_inst, new_data);
                                Some(
                                    ReconModel {
                                        func: FunctionModel {
                                            dfg: dfg4,
                                            layout: self.func.layout.append_inst(new_inst, block),
                                            ..self.func
                                        },
                                        inputs,
                                        stack: self.stack.drop_last().push(
                                            StackFrameModel { renumbering: current, ..top },
                                        ),
                                    },
                                )
                            }
                        },
                    }
                },
            }
        }
    }

    /// The state after one instruction of the trace was walked. `None`
    /// where no function is being walked, the instruction is not one of
    /// that function, it is a branch, or its kind cannot be walked in the
    /// state.
    pub open spec fn reconstruct_instruction(self, env: EnvModel, inst: Inst, block: Block) -> Option<
        ReconModel,
    > {
        match self.old_func(env) {
            None => None,
            Some(source) => if !source.dfg.inst_valid(inst) {
                None
            } else {
                match source.dfg.insts[inst.idx()] {
                    InstructionData::Call { .. } => self.call(env, source, inst),
                    InstructionData::Jump { .. } => self.jump(source, inst),
                    InstructionData::MultiAry { opcode: Opcode::Return, .. } => self.ret(source, inst),
                    _ => self.copy(source, inst, block),
                }
            },
        }
    }

    /// The state after the records of `observed` from the second to the
    /// `k`-th were walked. `None` where one of them cannot be walked, says
    /// that tracing started, or is a guard.
    pub open spec fn reconstruct_all(
        self,
        env: EnvModel,
        observed: Seq<TracedInstruction>,
        block: Block,
        k: int,
    ) -> Option<ReconModel>
        decreases k,
    {
        if k <= 1 {
            Some(self)
        } else {
            match self.reconstruct_all(env, observed, block, k - 1) {
                None => None,
                Some(st) => match observed[k - 1] {
                    TracedInstruction::StartInFunction(_) => None,
                    TracedInstruction::EnterFunction(_) => Some(st),
                    TracedInstruction::ExitFunction => Some(st),
                    TracedInstruction::Instruction(i) => st.reconstruct_instruction(env, i, block),
                    TracedInstruction::Guard(_) => None,
                },
            }
        }
    }
}

/// The types of the first `k` of `params`, in order.
pub open spec fn param_types(dfg: DfgModel, params: Seq<ValueRef>, k: int) -> Seq<Type>
    decreases k,
{
    if k <= 0 {
        Seq::empty()
    } else {
        param_types(dfg, params, k - 1).push(dfg.value_type(params[k - 1]))
    }
}

/// The types of values and of one more value.
pub proof fn lemma_param_types_push(dfg: DfgModel, params: Seq<ValueRef>, x: ValueRef)
    ensures
        param_types(dfg, params.push(x), params.len() as int + 1) == param_types(
            dfg,
            params,
            params.len() as int,
        ).push(dfg.value_type(x)),
{
    lemma_param_types_prefix(dfg, params, params.push(x), params.len() as int);
}

/// The types of the first values of two lists that begin alike are the
/// same.
pub proof fn lemma_param_types_prefix(dfg: DfgModel, a: Seq<ValueRef>, b: Seq<ValueRef>, k: int)
    requires
        0 <= k <= a.len(),
        k <= b.len(),
        forall|i: int| 0 <= i < k ==> a[i] == b[i],
    ensures
        param_types(dfg, a, k) == param_types(dfg, b, k),
    decreases k,
{
    if k > 0 {
        lemma_param_types_prefix(dfg, a, b, k - 1);
    }
}

/// The function with one block, before anything is copied into it.
pub open spec fn initial_function(call_conv: CallConv) -> FunctionModel {
    FunctionModel {
        name: Seq::empty(),
        signature: SignatureModel { params: Seq::empty(), returns: Seq::empty(), call_conv },
        dfg: DfgModel::empty().make_block(),
        layout: LayoutModel::empty().append_block(Block(0)),
    }
}

/// The function that a trace is reconstructed into: one block that holds the
/// trace's instructions in order, calls, jumps and returned dissolved, then a
/// return without values; the block's parameters are the free inputs in the
/// order in which they were met, and the signature takes their types.
/// `None` where the trace does not begin with the one record that says where
/// tracing started, or one of its records cannot be walked.
pub open spec fn spec_build(env: EnvModel, observed: Seq<TracedInstruction>, call_conv: CallConv) -> Option<
    FunctionModel,
> {
    if observed.len() == 0 {
        None
    } else {
        match observed[0] {
            TracedInstruction::StartInFunction(f) => {
                let block = Block(0);
                let st0 = ReconModel {
                    func: initial_function(call_conv),
                    inputs: Map::empty(),
                    stack: seq![
                        StackFrameModel {
                            func_ref: f,
                            renumbering: Map::empty(),
                            call_results: Seq::empty(),
                        },
                    ],
                };
                match st0.reconstruct_all(env, observed, block, observed.len() as int) {
                    None => None,
                    Some(st) => if st.func.dfg.insts.len() >= entity_limit() {
                        None
                    } else {
                        let ret = InstructionData::MultiAry {
                            opcode: Opcode::Return,
                            args: ValueList { first: 0, len: 0 },
                        };
                        let params = st.func.dfg.params_of(block);
                        Some(
                            FunctionModel {
                                name: st.func.name,
                                signature: SignatureModel {
                                    params: param_types(st.func.dfg, params, params.len() as int),
                                    returns: Seq::empty(),
                                    call_conv,
                                },
                                dfg: st.func.dfg.make_inst(ret),
                                layout: st.func.layout.append_inst(st.func.dfg.next_inst(), block),
                            },
                        )
                    },
                }
            },
            _ => None,
        }
    }
}

/// Walking an instruction changes neither the name nor the signature of the
/// function that is being built.
pub proof fn lemma_reconstruct_keeps_signature(
    st: ReconModel,
    env: EnvModel,
    inst: Inst,
    block: Block,
)
    ensures
        st.reconstruct_instruction(env, inst, block) matches Some(after) ==> after.func.name
            == st.func.name && after.func.signature == st.func.signature,
{
}

/// Walking the records changes neither the name nor the signature of the
/// function that is being built.
pub proof fn lemma_reconstruct_all_keeps_signature(
    st: ReconModel,
    env: EnvModel,
    observed: Seq<TracedInstruction>,
    block: Block,
    k: int,
)
    ensures
        st.reconstruct_all(env, observed, block, k) matches Some(after) ==> after.func.name
            == st.func.name && after.func.signature == st.func.signature,
    decreases k,
{
    if k > 1 {
        lemma_reconstruct_all_keeps_signature(st, env, observed, block, k - 1);
        match st.reconstruct_all(env, observed, block, k - 1) {
            Some(mid) => {
                match observed[k - 1] {
                    TracedInstruction::Instruction(i) => {
                        lemma_reconstruct_keeps_signature(mid, env, i, block);
                    },
                    _ => {},
                }
            },
            None => {},
        }
    }
}

/// The state in which walking the records of a trace ends. `None` where the
/// trace does not begin with the one record that says where tracing
/// started, or one of its records cannot be walked.
pub open spec fn spec_walk(
    env: EnvModel,
    observed: Seq<TracedInstruction>,
    call_conv: CallConv,
) -> Option<ReconModel> {
    if observed.len() == 0 {
        None
    } else {
        match observed[0] {
            TracedInstruction::StartInFunction(f) => (ReconModel {
                func: initial_function(call_conv),
                inputs: Map::empty(),
                stack: seq![
                    StackFrameModel {
                        func_ref: f,
                        renumbering: Map::empty(),
                        call_results: Seq::empty(),
                    },
                ],
            }).reconstruct_all(env, observed, Block(0), observed.len() as int),
            _ => None,
        }
    }
}

/// The new values of the first `k` of `returned`, values of the function in
/// which the trace ends. `None` where no function is being walked at the
/// end, or one of the values has no new value.
pub open spec fn returned_values(st: ReconModel, returned: Seq<ValueRef>, k: int) -> Option<
    Seq<ValueRef>,
>
    decreases k,
{
    if k <= 0 {
        Some(Seq::empty())
    } else {
        match returned_values(st, returned, k - 1) {
            None => None,
            Some(out) => if st.stack.len() == 0 {
                None
            } else {
                match lookup(st.stack.last().renumbering, st.inputs, returned[k - 1]) {
                    Some(x) => if st.func.dfg.value_valid(x) {
                        Some(out.push(x))
                    } else {
                        None
                    },
                    None => None,
                }
            },
        }
    }
}

/// The function that a trace is reconstructed into when it is to return
/// what the values `returned` of the function in which it ends hold there:
/// as [`spec_build`] gives it, but for the return, which returns the new
/// values of `returned`, and the signature, which returns their types.
///
/// What a trace returns is the caller's choice: [`spec_build`] returns
/// nothing, and nothing is returned that the caller has not named.
pub open spec fn spec_build_returning(
    env: EnvModel,
    observed: Seq<TracedInstruction>,
    call_conv: CallConv,
    returned: Seq<ValueRef>,
) -> Option<FunctionModel> {
    match spec_walk(env, observed, call_conv) {
        None => None,
        Some(st) => match returned_values(st, returned, returned.len() as int) {
            None => None,
            Some(vals) => if st.func.dfg.insts.len() >= entity_limit() || st.func.dfg.pool.len()
                + vals.len() > entity_limit() {
                None
            } else {
                let block = Block(0);
                let params = st.func.dfg.params_of(block);
                Some(
                    FunctionModel {
                        name: st.func.name,
                        signature: SignatureModel {
                            params: param_types(st.func.dfg, params, params.len() as int),
                            returns: param_types(st.func.dfg, vals, vals.len() as int),
                            call_conv,
                        },
                        dfg: st.func.dfg.push_list(vals).make_inst(
                            InstructionData::MultiAry {
                                opcode: Opcode::Return,
                                args: st.func.dfg.next_list(vals),
                            },
                        ),
                        layout: st.func.layout.append_inst(st.func.dfg.next_inst(), block),
                    },
                )
            },
        },
    }
}

pub proof fn lemma_returned_values_fails(st: ReconModel, returned: Seq<ValueRef>, k: int, n: int)
    requires
        0 <= k <= n,
        returned_values(st, returned, k) is None,
    ensures
        returned_values(st, returned, n) is None,
    decreases n - k,
{
    if k < n {
        lemma_returned_values_fails(st, returned, k + 1, n);
    }
}

/// Giving results fresh values adds no block.
pub proof fn lemma_add_results_keeps_blocks(
    dfg: DfgModel,
    map: RenumberingModel,
    new_inst: Inst,
    old_dfg: DfgModel,
    results: Seq<ValueRef>,
    k: int,
)
    ensures
        add_results(dfg, map, new_inst, old_dfg, results, k) matches Some((d, _))
            ==> d.block_params.len() == dfg.block_params.len(),
    decreases k,
{
    if k > 0 {
        lemma_add_results_keeps_blocks(dfg, map, new_inst, old_dfg, results, k - 1);
    }
}

/// Renumbering operands adds no block.
pub proof fn lemma_translate_keeps_blocks(
    dfg: DfgModel,
    inputs: RenumberingModel,
    current: RenumberingModel,
    old_dfg: DfgModel,
    args: Seq<ValueRef>,
    block: Block,
    k: int,
)
    requires
        dfg.block_valid(block),
    ensures
        translate(dfg, inputs, current, old_dfg, args, block, k) matches Some((d, _, _))
            ==> d.block_params.len() == dfg.block_params.len(),
    decreases k,
{
    if k > 0 {
        lemma_translate_keeps_blocks(dfg, inputs, current, old_dfg, args, block, k - 1);
    }
}

/// Walking an instruction adds no block to the function that is being
/// built, and lays none out.
pub proof fn lemma_reconstruct_keeps_blocks(
    st: ReconModel,
    env: EnvModel,
    inst: Inst,
    block: Block,
)
    requires
        st.func.dfg.block_valid(block),
        block.idx() < st.func.layout.insts.len(),
    ensures
        st.reconstruct_instruction(env, inst, block) matches Some(after)
            ==> after.func.dfg.block_params.len() == st.func.dfg.block_params.len()
            && after.func.layout.blocks == st.func.layout.blocks && after.func.layout.insts.len()
            == st.func.layout.insts.len(),
{
    match st.old_func(env) {
        Some(source) => {
            if source.dfg.inst_valid(inst) {
                let data = source.dfg.insts[inst.idx()];
                let dfg1 = st.func.dfg.make_inst(InstructionData::NullAry { opcode: Opcode::Nop });
                let results = source.dfg.inst_results(inst);
                lemma_add_results_keeps_blocks(
                    dfg1,
                    st.stack.last().renumbering,
                    st.func.dfg.next_inst(),
                    source.dfg,
                    results,
                    results.len() as int,
                );
                match add_results(
                    dfg1,
                    st.stack.last().renumbering,
                    st.func.dfg.next_inst(),
                    source.dfg,
                    results,
                    results.len() as int,
                ) {
                    Some((dfg2, current)) => {
                        let args = source.dfg.inst_args(inst);
                        lemma_translate_keeps_blocks(
                            dfg2,
                            st.inputs,
                            current,
                            source.dfg,
                            args,
                            block,
                            args.len() as int,
                        );
                    },
                    None => {},
                }
            }
        },
        None => {},
    }
}

/// Walking the records adds no block to the function that is being built,
/// and lays none out.
pub proof fn lemma_reconstruct_all_keeps_blocks(
    st: ReconModel,
    env: EnvModel,
    observed: Seq<TracedInstruction>,
    block: Block,
    k: int,
)
    requires
        st.func.dfg.block_valid(block),
        block.idx() < st.func.layout.insts.len(),
    ensures
        st.reconstruct_all(env, observed, block, k) matches Some(after)
            ==> after.func.dfg.block_params.len() == st.func.dfg.block_params.len()
            && after.func.layout.blocks == st.func.layout.blocks && after.func.layout.insts.len()
            == st.func.layout.insts.len(),
    decreases k,
{
    if k > 1 {
        lemma_reconstruct_all_keeps_blocks(st, env, observed, block, k - 1);
        match st.reconstruct_all(env, observed, block, k - 1) {
            Some(mid) => {
                match observed[k - 1] {
                    TracedInstruction::Instruction(i) => {
                        lemma_reconstruct_keeps_blocks(mid, env, i, block);
                    },
                    _ => {},
                }
            },
            None => {},
        }
    }
}

/// A trace is reconstructed into a function of one block.
pub proof fn lemma_built_function_has_one_block(
    env: EnvModel,
    observed: Seq<TracedInstruction>,
    call_conv: CallConv,
)
    ensures
        spec_build(env, observed, call_conv) matches Some(f) ==> f.dfg.block_params.len() == 1
            && f.layout.blocks == seq![Block(0)],
{
    if observed.len() > 0 {
        match observed[0] {
            TracedInstruction::StartInFunction(f) => {
                let st0 = ReconModel {
                    func: initial_function(call_conv),
                    inputs: Map::empty(),
                    stack: seq![
                        StackFrameModel {
                            func_ref: f,
                            renumbering: Map::empty(),
                            call_results: Seq::empty(),
                        },
                    ],
                };
                assert(st0.func.layout.blocks =~= seq![Block(0)]);
                lemma_reconstruct_all_keeps_blocks(
                    st0,
                    env,
                    observed,
                    Block(0),
                    observed.len() as int,
                );
            },
            _ => {},
        }
    }
}

/// Giving results fresh values keeps the new graph well formed.
pub proof fn lemma_add_results_wf(
    dfg: DfgModel,
    map: RenumberingModel,
    new_inst: Inst,
    old_dfg: DfgModel,
    results: Seq<ValueRef>,
    k: int,
)
    requires
        dfg.wf(),
        dfg.inst_valid(new_inst),
    ensures
        add_results(dfg, map, new_inst, old_dfg, results, k) matches Some((d, _)) ==> d.wf()
            && d.insts == dfg.insts && d.pool == dfg.pool && d.block_params == dfg.block_params
            && d.values.len() >= dfg.values.len(),
    decreases k,
{
    if k > 0 {
        lemma_add_results_wf(dfg, map, new_inst, old_dfg, results, k - 1);
        match add_results(dfg, map, new_inst, old_dfg, results, k - 1) {
            Some((d, m)) => {
                if d.values.len() < entity_limit() {
                    d.lemma_append_result_wf(new_inst, old_dfg.value_type(results[k - 1]));
                }
            },
            None => {},
        }
    }
}

/// Renumbering operands keeps the new graph well formed, and the new
/// operands are values of it.
pub proof fn lemma_translate_wf(
    dfg: DfgModel,
    inputs: RenumberingModel,
    current: RenumberingModel,
    old_dfg: DfgModel,
    args: Seq<ValueRef>,
    block: Block,
    k: int,
)
    requires
        dfg.wf(),
        dfg.block_valid(block),
    ensures
        translate(dfg, inputs, current, old_dfg, args, block, k) matches Some((d, _, out))
            ==> d.wf() && d.insts == dfg.insts && d.pool == dfg.pool && d.results == dfg.results
            && d.block_params.len() == dfg.block_params.len() && d.values.len()
            >= dfg.values.len() && d.values_valid(out),
    decreases k,
{
    if k > 0 {
        lemma_translate_wf(dfg, inputs, current, old_dfg, args, block, k - 1);
        match translate(dfg, inputs, current, old_dfg, args, block, k - 1) {
            Some((d, ins, out)) => {
                match lookup(current, ins, args[k - 1]) {
                    Some(a) => {
                        if d.value_valid(a) {
                            assert forall|i: int| 0 <= i < out.push(a).len() implies d.value_valid(
                                #[trigger] out.push(a)[i],
                            ) by {
                                if i < out.len() {
                                    assert(d.value_valid(out[i]));
                                }
                            }
                        }
                    },
                    None => {
                        if d.values.len() < entity_limit() {
                            let ty = old_dfg.value_type(args[k - 1]);
                            d.lemma_append_block_param_wf(block, ty);
                            let d2 = d.append_block_param(block, ty);
                            let out2 = out.push(d.next_value());
                            assert forall|i: int| 0 <= i < out2.len() implies d2.value_valid(
                                #[trigger] out2[i],
                            ) by {
                                if i < out.len() {
                                    assert(d.value_valid(out[i]));
                                }
                            }
                        }
                    },
                }
            },
            None => {},
        }
    }
}

/// Copying an instruction keeps the function that is being built well
/// formed.
pub proof fn lemma_copy_wf(st: ReconModel, source: FunctionModel, inst: Inst, block: Block)
    requires
        st.func.wf(),
        st.func.dfg.block_valid(block),
        st.stack.len() > 0,
    ensures
        st.copy(source, inst, block) matches Some(after) ==> after.func.wf()
            && after.func.dfg.block_valid(block),
{
    let data = source.dfg.insts[inst.idx()];
    let top = st.stack.last();
    let dfg0 = st.func.dfg;
    if !(data.spec_branch_destination() is Some || data is Call || dfg0.insts.len()
        >= entity_limit()) {
        let nop = InstructionData::NullAry { opcode: Opcode::Nop };
        let new_inst = dfg0.next_inst();
        assert(dfg0.data_args(nop) =~= Seq::<ValueRef>::empty());
        dfg0.lemma_make_inst_wf(nop);
        let dfg1 = dfg0.make_inst(nop);
        let results = source.dfg.inst_results(inst);
        lemma_add_results_wf(dfg1, top.renumbering, new_inst, source.dfg, results, results.len() as int);
        match add_results(dfg1, top.renumbering, new_inst, source.dfg, results, results.len() as int) {
            Some((dfg2, current)) => {
                let args = source.dfg.inst_args(inst);
                lemma_translate_wf(dfg2, st.inputs, current, source.dfg, args, block, args.len() as int);
                lemma_translate_len(dfg2, st.inputs, current, source.dfg, args, block, args.len() as int);
                match translate(dfg2, st.inputs, current, source.dfg, args, block, args.len() as int) {
                    Some((dfg3, inputs, new_args)) => {
                        let nfixed = data.fixed_args().len() as int;
                        let rest = new_args.subrange(nfixed, new_args.len() as int);
                        if dfg3.pool.len() + rest.len() <= entity_limit() {
                            let fixed = new_args.subrange(0, nfixed);
                            let list = dfg3.next_list(rest);
                            let new_data = data.spec_with_fixed_args(fixed).spec_with_value_list(
                                list,
                            );
                            assert forall|i: int| 0 <= i < rest.len() implies dfg3.value_valid(
                                #[trigger] rest[i],
                            ) by {
                                assert(dfg3.value_valid(new_args[nfixed + i]));
                            }
                            dfg3.lemma_push_list_wf(rest);
                            let d = dfg3.push_list(rest);
                            lemma_rebuilt_args(data, fixed, list);
                            assert forall|i: int| 0 <= i < d.data_args(new_data).len() implies d.value_valid(
                                #[trigger] d.data_args(new_data)[i],
                            ) by {
                                if i < nfixed {
                                    assert(d.data_args(new_data)[i] == new_args[i]);
                                    assert(dfg3.value_valid(new_args[i]));
                                } else {
                                    let list2 = new_data.spec_value_list();
                                    if data is Call || data is MultiAry || data is MultiAryImm {
                                        assert(d.list_values(list2) == rest);
                                        assert(d.data_args(new_data)[i] == rest[i - nfixed]);
                                        assert(dfg3.value_valid(rest[i - nfixed]));
                                    } else {
                                        assert(d.list_values(list2).len() == 0);
                                    }
                                }
                            }
                            assert(d.data_wf(new_data));
                            d.lemma_replace_wf(new_inst, new_data);
                            let dfg4 = d.replace(new_inst, new_data);
                            st.func.layout.lemma_wf_monotone(dfg0, dfg4);
                            st.func.layout.lemma_append_inst_wf(dfg4, new_inst, block);
                        }
                    },
                    None => {},
                }
            },
            None => {},
        }
    }
}

/// Walking the records keeps the function that is being built well formed.
pub proof fn lemma_reconstruct_all_wf(
    st: ReconModel,
    env: EnvModel,
    observed: Seq<TracedInstruction>,
    block: Block,
    k: int,
)
    requires
        st.func.wf(),
        st.func.dfg.block_valid(block),
    ensures
        st.reconstruct_all(env, observed, block, k) matches Some(after) ==> after.func.wf()
            && after.func.dfg.block_valid(block),
    decreases k,
{
    if k > 1 {
        lemma_reconstruct_all_wf(st, env, observed, block, k - 1);
        match st.reconstruct_all(env, observed, block, k - 1) {
            Some(mid) => {
                match observed[k - 1] {
                    TracedInstruction::Instruction(i) => {
                        match mid.old_func(env) {
                            Some(source) => {
                                if mid.stack.len() > 0 {
                                    lemma_copy_wf(mid, source, i, block);
                                }
                            },
                            None => {},
                        }
                    },
                    _ => {},
                }
            },
            None => {},
        }
    }
}

/// A trace is reconstructed into a well-formed function.
pub proof fn lemma_built_function_wf(
    env: EnvModel,
    observed: Seq<TracedInstruction>,
    call_conv: CallConv,
)
    ensures
        spec_build(env, observed, call_conv) matches Some(f) ==> f.wf(),
{
    if observed.len() > 0 {
        match observed[0] {
            TracedInstruction::StartInFunction(f) => {
                let block = Block(0);
                let st0 = ReconModel {
                    func: initial_function(call_conv),
                    inputs: Map::empty(),
                    stack: seq![
                        StackFrameModel {
                            func_ref: f,
                            renumbering: Map::empty(),
                            call_results: Seq::empty(),
                        },
                    ],
                };
                DfgModel::empty().lemma_make_block_wf();
                LayoutModel::empty().lemma_append_block_wf(st0.func.dfg, block);
                lemma_reconstruct_all_wf(st0, env, observed, block, observed.len() as int);
                match st0.reconstruct_all(env, observed, block, observed.len() as int) {
                    Some(st) => {
                        if st.func.dfg.insts.len() < entity_limit() {
                            let ret = InstructionData::MultiAry {
                                opcode: Opcode::Return,
                                args: ValueList { first: 0, len: 0 },
                            };
                            assert(st.func.dfg.data_args(ret) =~= Seq::<ValueRef>::empty());
                            st.func.dfg.lemma_make_inst_wf(ret);
                            let dfg = st.func.dfg.make_inst(ret);
                            st.func.layout.lemma_wf_monotone(st.func.dfg, dfg);
                            st.func.layout.lemma_append_inst_wf(dfg, st.func.dfg.next_inst(), block);
                        }
                    },
                    None => {},
                }
            },
            _ => {},
        }
    }
}

/// Records that could be walked hold one record of a start: the first.
pub proof fn lemma_walked_trace_has_one_start(
    st: ReconModel,
    env: EnvModel,
    observed: Seq<TracedInstruction>,
    block: Block,
    k: int,
)
    requires
        1 <= k <= observed.len(),
        observed[0] is StartInFunction,
        st.reconstruct_all(env, observed, block, k) is Some,
    ensures
        count_starts(observed.subrange(0, k)) == 1,
    decreases k,
{
    if k == 1 {
        assert(observed.subrange(0, 1).drop_last() =~= Seq::<TracedInstruction>::empty());
        assert(observed.subrange(0, 1).last() == observed[0]);
        assert(count_starts(observed.subrange(0, 1).drop_last()) == 0);
    } else {
        lemma_walked_trace_has_one_start(st, env, observed, block, k - 1);
        assert(observed.subrange(0, k) =~= observed.subrange(0, k - 1).push(observed[k - 1]));
        lemma_counts_push(observed.subrange(0, k - 1), observed[k - 1]);
    }
}

/// A trace that can be reconstructed begins with the record of its start
/// and holds no other such record.
pub proof fn lemma_built_trace_has_one_start(
    env: EnvModel,
    observed: Seq<TracedInstruction>,
    call_conv: CallConv,
)
    requires
        spec_build(env, observed, call_conv) is Some,
    ensures
        observed.len() > 0,
        observed[0] is StartInFunction,
        count_starts(observed) == 1,
{
    match observed[0] {
        TracedInstruction::StartInFunction(f) => {
            let st0 = ReconModel {
                func: initial_function(call_conv),
                inputs: Map::empty(),
                stack: seq![
                    StackFrameModel {
                        func_ref: f,
                        renumbering: Map::empty(),
                        call_results: Seq::empty(),
                    },
                ],
            };
            lemma_walked_trace_has_one_start(
                st0,
                env,
                observed,
                Block(0),
                observed.len() as int,
            );
            assert(observed.subrange(0, observed.len() as int) =~= observed);
        },
        _ => {},
    }
}

/// Once walking the records fails it stays failed.
pub proof fn lemma_reconstruct_all_fails(
    st: ReconModel,
    env: EnvModel,
    observed: Seq<TracedInstruction>,
    block: Block,
    k: int,
    n: int,
)
    requires
        1 <= k <= n,
        st.reconstruct_all(env, observed, block, k) is None,
    ensures
        st.reconstruct_all(env, observed, block, n) is None,
    decreases n - k,
{
    if k < n {
        lemma_reconstruct_all_fails(st, env, observed, block, k + 1, n);
    }
}

pub proof fn lemma_bind_fails(
    current: RenumberingModel,
    inputs: RenumberingModel,
    use_inputs: bool,
    olds: Seq<ValueRef>,
    news: Seq<ValueRef>,
    k: int,
    n: int,
)
    requires
        0 <= k <= n,
        bind(current, inputs, use_inputs, olds, news, k) is None,
    ensures
        bind(current, inputs, use_inputs, olds, news, n) is None,
    decreases n - k,
{
    if k < n {
        lemma_bind_fails(current, inputs, use_inputs, olds, news, k + 1, n);
    }
}

pub proof fn lemma_add_results_fails(
    dfg: DfgModel,
    map: RenumberingModel,
    new_inst: Inst,
    old_dfg: DfgModel,
    results: Seq<ValueRef>,
    k: int,
    n: int,
)
    requires
        0 <= k <= n,
        add_results(dfg, map, new_inst, old_dfg, results, k) is None,
    ensures
        add_results(dfg, map, new_inst, old_dfg, results, n) is None,
    decreases n - k,
{
    if k < n {
        lemma_add_results_fails(dfg, map, new_inst, old_dfg, results, k + 1, n);
    }
}

pub proof fn lemma_translate_fails(
    dfg: DfgModel,
    inputs: RenumberingModel,
    current: RenumberingModel,
    old_dfg: DfgModel,
    args: Seq<ValueRef>,
    block: Block,
    k: int,
    n: int,
)
    requires
        0 <= k <= n,
        translate(dfg, inputs, current, old_dfg, args, block, k) is None,
    ensures
        translate(dfg, inputs, current, old_dfg, args, block, n) is None,
    decreases n - k,
{
    if k < n {
        lemma_translate_fails(dfg, inputs, current, old_dfg, args, block, k + 1, n);
    }
}

/// The map from old SSA values to new ones.
#[derive(Debug)]
pub struct Renumberings(HashMap<u32, ValueRef>);

impl View for Renumberings {
    type V = RenumberingModel;

    closed spec fn view(&self) -> RenumberingModel {
        Map::new(|v: ValueRef| self.0@.contains_key(v.0), |v: ValueRef| self.0@[v.0])
    }
}

impl Renumberings {
    pub fn new() -> (r: Self)
        ensures
            r@ == RenumberingModel::empty(),
    {
        let r = Renumberings(HashMap::new());
        assert(r@ =~= RenumberingModel::empty());
        r
    }

    /// The new value of `source`, if it has one.
    pub fn get(&self, source: ValueRef) -> (r: Option<ValueRef>)
        ensures
            r == if self@.contains_key(source) {
                Some(self@[source])
            } else {
                None
            },
    {
        broadcast use vstd::std_specs::hash::group_hash_axioms;

        match self.0.get(&source.0) {
            Some(v) => Some(*v),
            None => None,
        }
    }

    /// Records that `source` is `new` from now on.
    pub fn renumber(&mut self, source: ValueRef, new: ValueRef)
        ensures
            final(self)@ == old(self)@.insert(source, new),
    {
        broadcast use vstd::std_specs::hash::group_hash_axioms;

        self.0.insert(source.0, new);
        assert(self@ =~= old(self)@.insert(source, new));
    }
}

/// One frame of the reconstructor's stack.
#[derive(Debug)]
pub struct StackFrame {
    pub func_ref: FuncRef,
    pub renumbering: Renumberings,
    pub call_results: Vec<ValueRef>,
}

impl View for StackFrame {
    type V = StackFrameModel;

    open spec fn view(&self) -> StackFrameModel {
        StackFrameModel {
            func_ref: self.func_ref,
            renumbering: self.renumbering@,
            call_results: self.call_results@,
        }
    }
}

/// The views of the frames of a stack.
pub open spec fn stack_views(v: Seq<StackFrame>) -> Seq<StackFrameModel> {
    Seq::new(v.len(), |i: int| v[i]@)
}

/// Reconstructs a [`Trace`] into a [`Function`].
pub struct FunctionReconstructor<'a> {
    /// The new values of the free inputs found so far.
    pub inputs: Renumberings,
    /// The frames of the calls entered and not left, innermost last.
    pub stack: Vec<StackFrame>,
    pub trace: &'a Trace,
    pub env: &'a Environment,
}

impl<'a> FunctionReconstructor<'a> {
    /// The state of the reconstruction with `func` as the function built so
    /// far.
    pub open spec fn model(&self, func: FunctionModel) -> ReconModel {
        ReconModel { func, inputs: self.inputs@, stack: stack_views(self.stack@) }
    }

    pub open spec fn spec_trace(&self) -> Trace {
        *self.trace
    }

    pub open spec fn spec_env(&self) -> Environment {
        *self.env
    }

    /// A reconstructor that has walked nothing yet.
    pub open spec fn is_fresh(&self) -> bool {
        self.inputs@ == RenumberingModel::empty() && self.stack@.len() == 0
    }

    /// A reconstructor for `trace`, recorded in `env`.
    pub fn new(trace: &'a Trace, env: &'a Environment) -> (r: Self)
        ensures
            r.spec_trace() == *trace,
            r.spec_env() == *env,
            r.is_fresh(),
    {
        FunctionReconstructor { inputs: Renumberings::new(), stack: Vec::new(), trace, env }
    }

    /// Builds the function of the trace; see [`spec_build`]. The trace must
    /// be one that can be reconstructed: [`try_build`](Self::try_build)
    /// finds that out. The function returns nothing; one that returns
    /// values of the caller's choice is built by
    /// [`try_build_returning`](Self::try_build_returning).
    pub fn build(&mut self, call_conv: CallConv) -> (r: Function)
        requires
            old(self).is_fresh(),
            old(self).spec_env().wf(),
            spec_build(
                old(self).spec_env()@,
                old(self).spec_trace()@.observed,
                call_conv,
            ) is Some,
        ensures
            Some(r@) == spec_build(
                old(self).spec_env()@,
                old(self).spec_trace()@.observed,
                call_conv,
            ),
            r.wf(),
    {
        self.try_build(call_conv).unwrap()
    }

    /// Builds the function of the trace where the trace can be
    /// reconstructed; see [`spec_build`].
    pub fn try_build(&mut self, call_conv: CallConv) -> (r: Option<Function>)
        requires
            old(self).is_fresh(),
            old(self).spec_env().wf(),
        ensures
            match spec_build(old(self).spec_env()@, old(self).spec_trace()@.observed, call_conv) {
                Some(f) => r matches Some(g) && g@ == f && g.wf(),
                None => r is None,
            },
    {
        let mut new_func = Function::new();
        new_func.signature.call_conv = call_conv;
        let block = new_func.dfg.make_block();
        new_func.layout.append_block(block);
        proof {
            LayoutModel::empty().lemma_append_block_wf(new_func.dfg@, block);
            assert(new_func@ == initial_function(call_conv));
        }
        if self.trace.len() == 0 {
            return None;
        }
        match self.trace.get(0) {
            TracedInstruction::StartInFunction(func_ref) => {
                self.setup(func_ref);
            },
            _ => {
                return None;
            },
        }
        proof {
            assert(self.model(new_func@).stack =~= seq![
                StackFrameModel {
                    func_ref: self.stack@[0].func_ref,
                    renumbering: Map::empty(),
                    call_results: Seq::empty(),
                },
            ]);
        }
        let ghost st0 = self.model(new_func@);
        if !self.walk_trace(&mut new_func, block) {
            return None;
        }
        proof {
            lemma_reconstruct_all_keeps_signature(
                st0,
                self.env@,
                self.trace@.observed,
                block,
                self.trace@.observed.len() as int,
            );
        }
        Self::finish(new_func, block)
    }

    /// Builds the function of the trace that returns what the values
    /// `returned` hold where the trace ends; see
    /// [`spec_build_returning`].
    pub fn try_build_returning(&mut self, call_conv: CallConv, returned: &Vec<ValueRef>) -> (r:
        Option<Function>)
        requires
            old(self).is_fresh(),
            old(self).spec_env().wf(),
        ensures
            match spec_build_returning(
                old(self).spec_env()@,
                old(self).spec_trace()@.observed,
                call_conv,
                returned@,
            ) {
                Some(f) => r matches Some(g) && g@ == f && g.wf(),
                None => r is None,
            },
    {
        let mut new_func = Function::new();
        new_func.signature.call_conv = call_conv;
        let block = new_func.dfg.make_block();
        new_func.layout.append_block(block);
        proof {
            LayoutModel::empty().lemma_append_block_wf(new_func.dfg@, block);
            assert(new_func@ == initial_function(call_conv));
        }
        if self.trace.len() == 0 {
            return None;
        }
        match self.trace.get(0) {
            TracedInstruction::StartInFunction(func_ref) => {
                self.setup(func_ref);
            },
            _ => {
                return None;
            },
        }
        proof {
            assert(self.model(new_func@).stack =~= seq![
                StackFrameModel {
                    func_ref: self.stack@[0].func_ref,
                    renumbering: Map::empty(),
                    call_results: Seq::empty(),
                },
            ]);
        }
        let ghost st0 = self.model(new_func@);
        if !self.walk_trace(&mut new_func, block) {
            return None;
        }
        proof {
            lemma_reconstruct_all_keeps_signature(
                st0,
                self.env@,
                self.trace@.observed,
                block,
                self.trace@.observed.len() as int,
            );
        }
        self.finish_returning(new_func, block, returned)
    }

    /// Closes the function with a return of the new values of `returned`,
    /// and gives its signature the types of the block's parameters and of
    /// the returned values.
    #[verifier::loop_isolation(false)]
    fn finish_returning(&self, func: Function, block: Block, returned: &Vec<ValueRef>) -> (r:
        Option<Function>)
        requires
            func.wf(),
            func@.dfg.block_valid(block),
        ensures
            match returned_values(self.model(func@), returned@, returned@.len() as int) {
                None => r is None,
                Some(vals) => if func@.dfg.insts.len() >= entity_limit() || func@.dfg.pool.len()
                    + vals.len() > entity_limit() {
                    r is None
                } else {
                    r matches Some(g) && g.wf() && g@ == (FunctionModel {
                        name: func@.name,
                        signature: SignatureModel {
                            params: param_types(
                                func@.dfg,
                                func@.dfg.params_of(block),
                                func@.dfg.params_of(block).len() as int,
                            ),
                            returns: param_types(func@.dfg, vals, vals.len() as int),
                            call_conv: func@.signature.call_conv,
                        },
                        dfg: func@.dfg.push_list(vals).make_inst(
                            InstructionData::MultiAry {
                                opcode: Opcode::Return,
                                args: func@.dfg.next_list(vals),
                            },
                        ),
                        layout: func@.layout.append_inst(func@.dfg.next_inst(), block),
                    })
                },
            },
    {
        let mut new_func = func;
        let ghost before = new_func@;
        let ghost st = self.model(before);
        // The new values of what is to be returned, and their types.
        let mut vals: Vec<ValueRef> = Vec::new();
        let mut return_types: Vec<Type> = Vec::new();
        let mut k: usize = 0;
        while k < returned.len()
            invariant
                k <= returned@.len(),
                returned_values(st, returned@, k as int) == Some(vals@),
                before.dfg.values_valid(vals@),
                return_types@ == param_types(before.dfg, vals@, vals@.len() as int),
                vals@.len() == k,
            decreases returned@.len() - k,
        {
            if self.stack.len() == 0 {
                proof {
                    lemma_returned_values_fails(st, returned@, k + 1, returned@.len() as int);
                }
                return None;
            }
            let top = self.stack.len() - 1;
            proof {
                assert(st.stack.last() == self.stack@[top as int]@);
            }
            let ghost shown = vals@;
            match self.find_argument(&self.stack[top].renumbering, returned[k]) {
                Some(x) => {
                    if x.index() >= new_func.dfg.num_values() {
                        proof {
                            lemma_returned_values_fails(
                                st,
                                returned@,
                                k + 1,
                                returned@.len() as int,
                            );
                        }
                        return None;
                    }
                    return_types.push(new_func.dfg.value_type(x));
                    vals.push(x);
                    proof {
                        assert(vals@.drop_last() =~= shown);
                        assert forall|i: int| 0 <= i < vals@.len() implies before.dfg.value_valid(
                            #[trigger] vals@[i],
                        ) by {
                            if i < shown.len() {
                                assert(before.dfg.value_valid(shown[i]));
                            }
                        }
                        lemma_param_types_push(before.dfg, shown, x);
                    }
                },
                None => {
                    proof {
                        lemma_returned_values_fails(st, returned@, k + 1, returned@.len() as int);
                    }
                    return None;
                },
            }
            k += 1;
        }
        if new_func.dfg.num_insts() >= 0xffff_ffff || vals.len() > 0xffff_ffff
            || new_func.dfg.pool_len() > 0xffff_ffff - vals.len() {
            return None;
        }
        let params = copy_vec(new_func.dfg.block_params(block));
        let mut types: Vec<Type> = Vec::new();
        let mut j: usize = 0;
        while j < params.len()
            invariant
                j <= params@.len(),
                types@ == param_types(before.dfg, params@, j as int),
            decreases params@.len() - j,
        {
            proof {
                assert(before.dfg.param_wf(block.idx(), j as int));
            }
            let ty = new_func.dfg.value_type(params[j]);
            types.push(ty);
            j += 1;
        }
        new_func.signature.params = types;
        new_func.signature.returns = return_types;
        let args = new_func.dfg.make_value_list(&vals);
        let ret = InstructionData::MultiAry { opcode: Opcode::Return, args };
        proof {
            let d = new_func.dfg@;
            assert(d.data_args(ret) =~= vals@);
            assert forall|i: int| 0 <= i < d.data_args(ret).len() implies d.value_valid(
                #[trigger] d.data_args(ret)[i],
            ) by {
                assert(before.dfg.value_valid(vals@[i]));
            }
        }
        let return_inst = new_func.dfg.make_inst(ret);
        new_func.layout.append_inst(return_inst, block);
        proof {
            before.layout.lemma_wf_monotone(before.dfg, new_func.dfg@);
            before.layout.lemma_append_inst_wf(new_func.dfg@, return_inst, block);
        }
        Some(new_func)
    }

    /// Walks the records of the trace from the second on; see
    /// [`ReconModel::reconstruct_all`]. Returns whether all could be walked.
    #[verifier::loop_isolation(false)]
    fn walk_trace(&mut self, new_func: &mut Function, block: Block) -> (r: bool)
        requires
            old(self).env.wf(),
            old(self).trace@.observed.len() >= 1,
            old(new_func).wf(),
            old(new_func)@.dfg.block_valid(block),
        ensures
            final(self).trace == old(self).trace,
            final(self).env == old(self).env,
            match old(self).model(old(new_func)@).reconstruct_all(
                old(self).env@,
                old(self).trace@.observed,
                block,
                old(self).trace@.observed.len() as int,
            ) {
                Some(st) => r && final(self).model(final(new_func)@) == st && final(new_func).wf()
                    && final(new_func)@.dfg.block_valid(block),
                None => !r,
            },
    {
        let ghost st0 = self.model(new_func@);
        let ghost observed = self.trace@.observed;
        let ghost envm = self.env@;
        let n = self.trace.len();
        let mut k: usize = 1;
        while k < n
            invariant
                1 <= k <= n,
                self.trace == old(self).trace,
                self.env == old(self).env,
                new_func.wf(),
                new_func@.dfg.block_valid(block),
                st0.reconstruct_all(envm, observed, block, k as int) == Some(
                    self.model(new_func@),
                ),
            decreases n - k,
        {
            match self.trace.get(k) {
                TracedInstruction::StartInFunction(_) => {
                    proof {
                        lemma_reconstruct_all_fails(st0, envm, observed, block, k + 1, n as int);
                    }
                    return false;
                },
                TracedInstruction::EnterFunction(_) => {},
                TracedInstruction::ExitFunction => {},
                TracedInstruction::Instruction(i) => {
                    if !self.reconstruct_instruction(i, new_func, block) {
                        proof {
                            lemma_reconstruct_all_fails(st0, envm, observed, block, k + 1, n as int);
                        }
                        return false;
                    }
                },
                TracedInstruction::Guard(_) => {
                    proof {
                        lemma_reconstruct_all_fails(st0, envm, observed, block, k + 1, n as int);
                    }
                    return false;
                },
            }
            k += 1;
        }
        true
    }

    /// Closes the function with a return without values, and gives its
    /// signature the types of the block's parameters.
    #[verifier::loop_isolation(false)]
    fn finish(func: Function, block: Block) -> (r: Option<Function>)
        requires
            func.wf(),
            func@.dfg.block_valid(block),
            func@.signature.returns == Seq::<Type>::empty(),
        ensures
            func@.dfg.insts.len() >= entity_limit() ==> r is None,
            func@.dfg.insts.len() < entity_limit() ==> (r matches Some(g) && g.wf() && g@ == (
            FunctionModel {
                name: func@.name,
                signature: SignatureModel {
                    params: param_types(
                        func@.dfg,
                        func@.dfg.params_of(block),
                        func@.dfg.params_of(block).len() as int,
                    ),
                    returns: Seq::empty(),
                    call_conv: func@.signature.call_conv,
                },
                dfg: func@.dfg.make_inst(
                    InstructionData::MultiAry {
                        opcode: Opcode::Return,
                        args: ValueList { first: 0, len: 0 },
                    },
                ),
                layout: func@.layout.append_inst(func@.dfg.next_inst(), block),
            })),
    {
        let mut new_func = func;
        if new_func.dfg.num_insts() >= 0xffff_ffff {
            return None;
        }
        let ghost before = new_func@;
        let params = copy_vec(new_func.dfg.block_params(block));
        let mut types: Vec<Type> = Vec::new();
        let mut j: usize = 0;
        while j < params.len()
            invariant
                j <= params@.len(),
                types@ == param_types(before.dfg, params@, j as int),
            decreases params@.len() - j,
        {
            proof {
                assert(before.dfg.param_wf(block.idx(), j as int));
            }
            let ty = new_func.dfg.value_type(params[j]);
            types.push(ty);
            j += 1;
        }
        new_func.signature.params = types;
        let return_inst = new_func.dfg.make_inst(
            InstructionData::MultiAry { opcode: Opcode::Return, args: ValueList::empty() },
        );
        new_func.layout.append_inst(return_inst, block);
        proof {
            before.layout.lemma_wf_monotone(before.dfg, new_func.dfg@);
            before.layout.lemma_append_inst_wf(new_func.dfg@, return_inst, block);
        }
        Some(new_func)
    }

    /// Begins the walk in the function `func_ref`, in which tracing
    /// started: a frame without renumberings is pushed for it.
    pub fn setup(&mut self, func_ref: FuncRef)
        requires
            old(self).is_fresh(),
        ensures
            final(self).inputs@ == RenumberingModel::empty(),
            final(self).stack@.len() == 1,
            final(self).stack@[0]@ == (StackFrameModel {
                func_ref,
                renumbering: Map::empty(),
                call_results: Seq::empty(),
            }),
            final(self).trace == old(self).trace,
            final(self).env == old(self).env,
    {
        self.stack.push(
            StackFrame { func_ref, renumbering: Renumberings::new(), call_results: Vec::new() },
        );
    }

    /// Builds the renumbering of a block entered with arguments; see
    /// [`bind`].
    fn bind_arguments(
        &self,
        current: &Renumberings,
        use_inputs: bool,
        olds: &Vec<ValueRef>,
        news: &Vec<ValueRef>,
    ) -> (r: Option<Renumberings>)
        requires
            olds@.len() == news@.len(),
        ensures
            match bind(current@, self.inputs@, use_inputs, olds@, news@, olds@.len() as int) {
                Some(m) => r matches Some(g) && g@ == m,
                None => r is None,
            },
    {
        let mut local = Renumberings::new();
        let mut k: usize = 0;
        while k < olds.len()
            invariant
                k <= olds@.len(),
                olds@.len() == news@.len(),
                bind(current@, self.inputs@, use_inputs, olds@, news@, k as int) == Some(local@),
            decreases olds@.len() - k,
        {
            let old_arg = olds[k];
            let new_arg = news[k];
            match current.get(old_arg) {
                Some(r) => {
                    local.renumber(new_arg, r);
                },
                None => {
                    match self.inputs.get(old_arg) {
                        Some(r) => {
                            if use_inputs {
                                local.renumber(new_arg, r);
                            } else {
                                proof {
                                    lemma_bind_fails(
                                        current@,
                                        self.inputs@,
                                        use_inputs,
                                        olds@,
                                        news@,
                                        k + 1,
                                        olds@.len() as int,
                                    );
                                }
                                return None;
                            }
                        },
                        None => {
                            proof {
                                lemma_bind_fails(
                                    current@,
                                    self.inputs@,
                                    use_inputs,
                                    olds@,
                                    news@,
                                    k + 1,
                                    olds@.len() as int,
                                );
                            }
                            return None;
                        },
                    }
                },
            }
            k += 1;
        }
        Some(local)
    }

    /// The function that `func_ref` names in the environment.
    fn func(&self, func_ref: FuncRef) -> (r: Option<&'a Function>)
        requires
            self.env.wf(),
        ensures
            r matches Some(f) ==> self.env@.has(func_ref) && f@ == self.env@.function(func_ref)
                && f.wf(),
            r is None <==> !self.env@.has(func_ref),
    {
        self.env.get_by_func_ref(func_ref)
    }

    /// The function that is being walked.
    fn old_func(&self) -> (r: Option<&'a Function>)
        requires
            self.env.wf(),
        ensures
            forall|m: FunctionModel|
                match #[trigger] self.model(m).old_func(self.env@) {
                    Some(f) => r matches Some(g) && g@ == f && g.wf(),
                    None => r is None,
                },
    {
        if self.stack.len() == 0 {
            None
        } else {
            self.func(self.stack[self.stack.len() - 1].func_ref)
        }
    }

    /// What an operand is renumbered to; see [`lookup`].
    fn find_argument(&self, current: &Renumberings, old_arg: ValueRef) -> (r: Option<ValueRef>)
        ensures
            r == lookup(current@, self.inputs@, old_arg),
    {
        match current.get(old_arg) {
            Some(a) => Some(a),
            None => self.inputs.get(old_arg),
        }
    }

    /// Walks one instruction of the trace; see
    /// [`ReconModel::reconstruct_instruction`]. Returns whether it could be
    /// walked.
    pub fn reconstruct_instruction(&mut self, inst: Inst, new_func: &mut Function, block: Block) -> (r:
        bool)
        requires
            old(self).spec_env().wf(),
            old(new_func).wf(),
            old(new_func)@.dfg.block_valid(block),
        ensures
            final(self).spec_trace() == old(self).spec_trace(),
            final(self).spec_env() == old(self).spec_env(),
            match old(self).model(old(new_func)@).reconstruct_instruction(
                old(self).spec_env()@,
                inst,
                block,
            ) {
                Some(st) => r && final(self).model(final(new_func)@) == st && final(new_func).wf()
                    && final(new_func)@.dfg.block_valid(block),
                None => !r,
            },
    {
        let ghost st = self.model(new_func@);
        let source = match self.old_func() {
            None => {
                return false;
            },
            Some(f) => f,
        };
        if inst.index() >= source.dfg.num_insts() {
            return false;
        }
        let data = source.dfg.inst(inst);
        proof {
            assert(source@.dfg.data_wf(data));
        }
        match data {
            InstructionData::Call { args, func_ref: sig_ref, .. } => {
                let caller_results = copy_vec(source.dfg.inst_results(inst));
                let caller_args = source.dfg.list_values(args);
                let callee_name = source.dfg.ext_func_name(sig_ref);
                let callee_ref = match self.env.get_func_ref_by_name(callee_name.as_str()) {
                    None => {
                        return false;
                    },
                    Some(c) => c,
                };
                let callee_func = match self.func(callee_ref) {
                    None => {
                        return false;
                    },
                    Some(f) => f,
                };
                let callee_block = match callee_func.layout.entry_block() {
                    None => {
                        return false;
                    },
                    Some(b) => b,
                };
                proof {
                    assert(callee_func@.dfg.block_valid(callee_func@.layout.blocks[0]));
                }
                let callee_args = callee_func.dfg.block_params(callee_block);
                if caller_args.len() != callee_args.len() {
                    return false;
                }
                let top = self.stack.len() - 1;
                let use_inputs = self.stack.len() == 1;
                let local = match self.bind_arguments(
                    &self.stack[top].renumbering,
                    use_inputs,
                    &caller_args,
                    callee_args,
                ) {
                    None => {
                        return false;
                    },
                    Some(m) => m,
                };
                let frame = StackFrame {
                    func_ref: callee_ref,
                    renumbering: local,
                    call_results: caller_results,
                };
                self.stack.push(frame);
                proof {
                    assert(stack_views(self.stack@) =~= st.stack.push(frame@));
                }
                true
            },
            InstructionData::Jump { args, destination, .. } => {
                let caller_args = source.dfg.list_values(args);
                let destination_args = source.dfg.block_params(destination);
                if caller_args.len() != destination_args.len() {
                    return false;
                }
                let top = self.stack.pop().unwrap();
                let m = match self.bind_arguments(
                    &top.renumbering,
                    true,
                    &caller_args,
                    destination_args,
                ) {
                    None => {
                        return false;
                    },
                    Some(m) => m,
                };
                let frame = StackFrame {
                    func_ref: top.func_ref,
                    renumbering: m,
                    call_results: top.call_results,
                };
                self.stack.push(frame);
                proof {
                    assert(stack_views(self.stack@) =~= st.stack.drop_last().push(frame@));
                }
                true
            },
            InstructionData::MultiAry { opcode: Opcode::Return, args } => {
                let returned = source.dfg.list_values(args);
                let top = self.stack.pop().unwrap();
                proof {
                    assert(stack_views(self.stack@) =~= st.stack.drop_last());
                }
                if self.stack.len() > 0 {
                    let mut caller = self.stack.pop().unwrap();
                    let ghost rest = stack_views(self.stack@);
                    proof {
                        assert(rest =~= st.stack.drop_last().drop_last());
                    }
                    let n = if top.call_results.len() <= returned.len() {
                        top.call_results.len()
                    } else {
                        returned.len()
                    };
                    let mut k: usize = 0;
                    while k < n
                        invariant
                            k <= n,
                            n <= top.call_results@.len(),
                            n <= returned@.len(),
                            self.inputs == old(self).inputs,
                            self.trace == old(self).trace,
                            self.env == old(self).env,
                            rest == stack_views(self.stack@),
                            caller.func_ref == st.stack.drop_last().last().func_ref,
                            caller.call_results@ == st.stack.drop_last().last().call_results,
                            caller.renumbering@ == map_returns(
                                st.stack.drop_last().last().renumbering,
                                top.renumbering@,
                                self.inputs@,
                                top.call_results@,
                                returned@,
                                k as int,
                            ),
                        decreases n - k,
                    {
                        match self.find_argument(&top.renumbering, returned[k]) {
                            Some(t) => {
                                caller.renumbering.renumber(top.call_results[k], t);
                            },
                            None => {},
                        }
                        k += 1;
                    }
                    self.stack.push(caller);
                    proof {
                        assert(stack_views(self.stack@) =~= rest.push(caller@));
                    }
                }
                true
            },
            _ => self.copy_instruction(source, inst, data, new_func, block),
        }
    }

    /// Copies an instruction to the end of `block`; see
    /// [`ReconModel::copy`].
    #[verifier::loop_isolation(false)]
    fn copy_instruction(
        &mut self,
        source: &Function,
        inst: Inst,
        data: InstructionData,
        new_func: &mut Function,
        block: Block,
    ) -> (r: bool)
        requires
            old(self).env.wf(),
            source.wf(),
            source@.dfg.inst_valid(inst),
            data == source@.dfg.insts[inst.idx()],
            old(self).stack@.len() > 0,
            old(new_func).wf(),
            old(new_func)@.dfg.block_valid(block),
        ensures
            final(self).trace == old(self).trace,
            final(self).env == old(self).env,
            match old(self).model(old(new_func)@).copy(source@, inst, block) {
                Some(st) => r && final(self).model(final(new_func)@) == st && final(new_func).wf()
                    && final(new_func)@.dfg.block_valid(block),
                None => !r,
            },
    {
        let ghost st = self.model(new_func@);
        let ghost f0 = new_func@;
        if data.branch_destination().is_some() || matches!(data, InstructionData::Call { .. })
            || new_func.dfg.num_insts() >= 0xffff_ffff {
            return false;
        }
        let new_inst = new_func.dfg.make_inst(InstructionData::NullAry { opcode: Opcode::Nop });
        let ghost dfg1 = new_func.dfg@;
        let mut top = self.stack.pop().unwrap();
        let ghost top0 = top@;
        let ghost rest = stack_views(self.stack@);
        proof {
            assert(rest =~= st.stack.drop_last());
            assert(top0 == st.stack.last());
        }
        // First, the results.
        let results = copy_vec(source.dfg.inst_results(inst));
        let mut k: usize = 0;
        while k < results.len()
            invariant
                k <= results@.len(),
                results@ == source@.dfg.inst_results(inst),
                source.wf(),
                source@.dfg.inst_valid(inst),
                self.inputs == old(self).inputs,
                self.trace == old(self).trace,
                self.env == old(self).env,
                rest == stack_views(self.stack@),
                top.func_ref == top0.func_ref,
                top.call_results@ == top0.call_results,
                new_func.dfg.wf(),
                new_func@.dfg.inst_valid(new_inst),
                new_func@.dfg.block_params.len() == f0.dfg.block_params.len(),
                new_func@.dfg.insts.len() == dfg1.insts.len(),
                new_func@.layout == f0.layout,
                new_func@.name == f0.name,
                new_func@.signature == f0.signature,
                add_results(dfg1, top0.renumbering, new_inst, source@.dfg, results@, k as int) == Some(
                    (new_func@.dfg, top.renumbering@),
                ),
            decreases results@.len() - k,
        {
            if new_func.dfg.num_values() >= 0xffff_ffff {
                proof {
                    lemma_add_results_fails(
                        dfg1,
                        top0.renumbering,
                        new_inst,
                        source@.dfg,
                        results@,
                        k + 1,
                        results@.len() as int,
                    );
                }
                return false;
            }
            let old_result = results[k];
            proof {
                assert(source@.dfg.result_wf(inst.idx(), k as int));
            }
            let old_type = source.dfg.value_type(old_result);
            let new_result = new_func.dfg.append_result(new_inst, old_type);
            top.renumbering.renumber(old_result, new_result);
            k += 1;
        }
        let ghost dfg2 = new_func.dfg@;
        // Then, the operands.
        let old_args = source.dfg.inst_args(inst);
        proof {
            assert(source@.dfg.data_wf(source@.dfg.insts[inst.idx()]));
        }
        let mut new_args: Vec<ValueRef> = Vec::new();
        let ghost inputs0 = self.inputs@;
        let mut j: usize = 0;
        while j < old_args.len()
            invariant
                j <= old_args@.len(),
                old_args@ == source@.dfg.inst_args(inst),
                source@.dfg.values_valid(old_args@),
                source.wf(),
                self.trace == old(self).trace,
                self.env == old(self).env,
                rest == stack_views(self.stack@),
                new_func.dfg.wf(),
                new_func@.dfg.inst_valid(new_inst),
                new_func@.dfg.block_valid(block),
                new_func@.dfg.block_params.len() == f0.dfg.block_params.len(),
                new_func@.dfg.insts.len() == dfg1.insts.len(),
                new_func@.layout == f0.layout,
                new_func@.name == f0.name,
                new_func@.signature == f0.signature,
                new_func@.dfg.values_valid(new_args@),
                translate(
                    dfg2,
                    inputs0,
                    top.renumbering@,
                    source@.dfg,
                    old_args@,
                    block,
                    j as int,
                ) == Some((new_func@.dfg, self.inputs@, new_args@)),
            decreases old_args@.len() - j,
        {
            let old_arg = old_args[j];
            let ghost prev_args = new_args@;
            let ghost prev_dfg = new_func@.dfg;
            match self.find_argument(&top.renumbering, old_arg) {
                Some(a) => {
                    if a.index() >= new_func.dfg.num_values() {
                        proof {
                            lemma_translate_fails(
                                dfg2,
                                inputs0,
                                top.renumbering@,
                                source@.dfg,
                                old_args@,
                                block,
                                j + 1,
                                old_args@.len() as int,
                            );
                        }
                        return false;
                    }
                    new_args.push(a);
                },
                None => {
                    if new_func.dfg.num_values() >= 0xffff_ffff {
                        proof {
                            lemma_translate_fails(
                                dfg2,
                                inputs0,
                                top.renumbering@,
                                source@.dfg,
                                old_args@,
                                block,
                                j + 1,
                                old_args@.len() as int,
                            );
                        }
                        return false;
                    }
                    proof {
                        assert(source@.dfg.value_valid(old_args@[j as int]));
                    }
                    let ty = source.dfg.value_type(old_arg);
                    let new_arg = new_func.dfg.append_block_param(block, ty);
                    self.inputs.renumber(old_arg, new_arg);
                    new_args.push(new_arg);
                },
            }
            proof {
                assert forall|i: int| 0 <= i < new_args@.len() implies new_func@.dfg.value_valid(
                    #[trigger] new_args@[i],
                ) by {
                    if i < prev_args.len() {
                        assert(prev_dfg.value_valid(prev_args[i]));
                    }
                }
            }
            j += 1;
        }
        let ghost dfg3 = new_func.dfg@;
        // Now the operands can be put in place.
        let nfixed = data.fixed_arguments().len();
        proof {
            assert(old_args@.len() == data.fixed_args().len() + source@.dfg.list_values(
                data.spec_value_list(),
            ).len());
            lemma_translate_len(
                dfg2,
                inputs0,
                top.renumbering@,
                source@.dfg,
                old_args@,
                block,
                old_args@.len() as int,
            );
        }
        let mut fixed: Vec<ValueRef> = Vec::new();
        let mut rest_args: Vec<ValueRef> = Vec::new();
        let mut i: usize = 0;
        while i < new_args.len()
            invariant
                i <= new_args@.len(),
                nfixed <= new_args@.len(),
                fixed@ == new_args@.subrange(0, if i <= nfixed {
                    i as int
                } else {
                    nfixed as int
                }),
                rest_args@ == new_args@.subrange(nfixed as int, if i <= nfixed {
                    nfixed as int
                } else {
                    i as int
                }),
            decreases new_args@.len() - i,
        {
            if i < nfixed {
                fixed.push(new_args[i]);
                proof {
                    assert(fixed@ =~= new_args@.subrange(0, i + 1));
                }
            } else {
                rest_args.push(new_args[i]);
                proof {
                    assert(rest_args@ =~= new_args@.subrange(nfixed as int, i + 1));
                }
            }
            i += 1;
        }
        if new_func.dfg.pool_len() > 0xffff_ffff - rest_args.len() {
            return false;
        }
        proof {
            assert forall|i: int| 0 <= i < rest_args@.len() implies dfg3.value_valid(
                #[trigger] rest_args@[i],
            ) by {
                assert(dfg3.value_valid(new_args@[nfixed + i]));
            }
        }
        let list = new_func.dfg.make_value_list(&rest_args);
        let new_data = data.with_fixed_arguments(&fixed).with_value_list(list);
        proof {
            let d = new_func.dfg@;
            lemma_rebuilt_args(data, fixed@, list);
            assert(d.data_args(new_data) =~= new_args@);
            assert forall|i: int| 0 <= i < d.data_args(new_data).len() implies d.value_valid(
                #[trigger] d.data_args(new_data)[i],
            ) by {
                assert(dfg3.value_valid(new_args@[i]));
            }
            assert(d.data_wf(new_data));
        }
        new_func.dfg.replace(new_inst, new_data);
        new_func.layout.append_inst(new_inst, block);
        self.stack.push(top);
        proof {
            assert(stack_views(self.stack@) =~= rest.push(top@));
            f0.layout.lemma_wf_monotone(f0.dfg, new_func.dfg@);
            f0.layout.lemma_append_inst_wf(new_func.dfg@, new_inst, block);
        }
        true
    }
}

/// Renumbering the operands keeps their number.
pub proof fn lemma_translate_len(
    dfg: DfgModel,
    inputs: RenumberingModel,
    current: RenumberingModel,
    old_dfg: DfgModel,
    args: Seq<ValueRef>,
    block: Block,
    k: int,
)
    requires
        0 <= k,
    ensures
        translate(dfg, inputs, current, old_dfg, args, block, k) matches Some((_, _, out))
            ==> out.len() == k,
    decreases k,
{
    if k > 0 {
        lemma_translate_len(dfg, inputs, current, old_dfg, args, block, k - 1);
    }
}

/// An instruction rebuilt from operands has those operands.
pub proof fn lemma_rebuilt_args(data: InstructionData, fixed: Seq<ValueRef>, list: ValueList)
    requires
        fixed.len() == data.fixed_args().len(),
        data.spec_branch_destination() is None,
    ensures
        data.spec_with_fixed_args(fixed).spec_with_value_list(list).fixed_args() =~= fixed,
        data.spec_with_fixed_args(fixed).spec_with_value_list(list).spec_value_list() == (
        if data is Call || data is MultiAry || data is MultiAryImm {
            list
        } else {
            ValueList { first: 0, len: 0 }
        }),
        data.spec_with_fixed_args(fixed).spec_with_value_list(list).spec_branch_destination()
            is None,
        (data is Call) == (data.spec_with_fixed_args(fixed).spec_with_value_list(list) is Call),
{
}

} // verus!

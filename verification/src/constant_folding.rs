//! Folding of constants: sparse conditional constant propagation over the
//! SSA values of a function.
//!
//! Every SSA value has a lattice value. The values that are known from the
//! start, the constants and what is loaded, go on a worklist. Whenever a
//! value comes off the worklist, each instruction that uses it is
//! interpreted over the lattice values: a result that gets lower is recorded
//! and goes on the worklist, an instruction whose one result is a constant
//! is replaced by that constant, and a conditional branch whose outcome is
//! known is replaced by a jump or by a `nop`. A block parameter is the meet
//! of the branch arguments that flow into it.
//!
//! Unused constants are left in place: removing dead code is another pass.
use crate::data_value::{BinaryOp, DataValue, ValueConversionKind};
use crate::interpreter::{compare_with_immediate, nonzero, operation_of};
use crate::ir::dfg::{entity_limit, DataFlowGraph, DfgModel, ValueDef};
use crate::ir::entities::{Block, Inst, ValueRef};
use crate::ir::function::{Function, FunctionModel};
use crate::ir::instructions::{InstructionData, Opcode, ValueList};
use crate::lattice::{
    below, binary, height, lemma_below_is_order, lemma_total_height_update, spec_binary,
    spec_meet, strictly_below, total_height, LatticeValue, Values,
};
use crate::machine::{binary_op_of, compare_imm, is_nonzero};
use crate::util::copy_vec;
use std::collections::HashMap;
use vstd::prelude::*;

verus! {

/// The constant that an instruction holds as its immediate.
pub open spec fn imm_value(data: InstructionData) -> Option<DataValue> {
    match data {
        InstructionData::UnaryImm { imm, .. } => Some(DataValue::I64(imm)),
        InstructionData::UnaryBool { imm, .. } => Some(DataValue::B(imm)),
        InstructionData::UnaryIeee32 { imm, .. } => Some(DataValue::F32(imm)),
        InstructionData::UnaryIeee64 { imm, .. } => Some(DataValue::F64(imm)),
        _ => None,
    }
}

/// Whether a value can never be known: it is the result of an instruction
/// that loads.
pub open spec fn spec_is_value_unknowable(dfg: DfgModel, v: ValueRef) -> bool {
    match dfg.value_def(v) {
        ValueDef::Result(inst, _) => dfg.insts[inst.idx()].spec_opcode().spec_can_load(),
        ValueDef::Param(_, _) => false,
    }
}

/// The constant of a value that is defined by a constant instruction. The
/// immediate of an `iconst` or `bconst` is wider than the value may be, so
/// it is converted to the controlling type of the instruction, exactly.
pub open spec fn spec_resolve_value_to_imm(dfg: DfgModel, v: ValueRef) -> Option<DataValue> {
    match dfg.value_def(v) {
        ValueDef::Param(_, _) => None,
        ValueDef::Result(inst, _) => {
            let data = dfg.insts[inst.idx()];
            match data.spec_opcode() {
                Opcode::Iconst | Opcode::Bconst => match imm_value(data) {
                    Some(iv) => match iv.spec_convert(
                        ValueConversionKind::Exact(dfg.ctrl_typevar(inst)),
                    ) {
                        Ok(c) => Some(c),
                        Err(_) => None,
                    },
                    None => None,
                },
                Opcode::F32const | Opcode::F64const => imm_value(data),
                _ => None,
            }
        },
    }
}

/// What is known of a value before anything is propagated.
pub open spec fn initial_value(dfg: DfgModel, v: ValueRef) -> LatticeValue {
    if spec_is_value_unknowable(dfg, v) {
        LatticeValue::Bottom
    } else {
        match spec_resolve_value_to_imm(dfg, v) {
            Some(c) => LatticeValue::Constant(c),
            None => LatticeValue::Top,
        }
    }
}

/// The lattice values when the first `k` values have what is known of them
/// at the start and the others are `Top`.
pub open spec fn initial_values(dfg: DfgModel, k: int) -> Seq<LatticeValue> {
    Seq::new(
        dfg.values.len(),
        |i: int|
            if i < k {
                initial_value(dfg, ValueRef(i as u32))
            } else {
                LatticeValue::Top
            },
    )
}

/// Those of the first `k` values of which something is known at the start,
/// in order.
pub open spec fn initial_worklist(dfg: DfgModel, k: int) -> Seq<ValueRef>
    decreases k,
{
    if k <= 0 {
        Seq::empty()
    } else if initial_value(dfg, ValueRef((k - 1) as u32)) != LatticeValue::Top {
        initial_worklist(dfg, k - 1).push(ValueRef((k - 1) as u32))
    } else {
        initial_worklist(dfg, k - 1)
    }
}

/// The instructions of the first `b` blocks of the layout, in order.
pub open spec fn layout_insts(func: FunctionModel, b: int) -> Seq<Inst>
    decreases b,
{
    if b <= 0 {
        Seq::empty()
    } else {
        layout_insts(func, b - 1) + func.layout.block_insts(func.layout.blocks[b - 1])
    }
}

/// All instructions of the layout, in order.
pub open spec fn all_insts(func: FunctionModel) -> Seq<Inst> {
    layout_insts(func, func.layout.blocks.len() as int)
}

/// The table of uses after `inst` was added once for each of the first `j`
/// of its operands `args`.
pub open spec fn add_uses(table: Seq<Seq<Inst>>, args: Seq<ValueRef>, inst: Inst, j: int) -> Seq<
    Seq<Inst>,
>
    decreases j,
{
    if j <= 0 {
        table
    } else {
        let t = add_uses(table, args, inst, j - 1);
        let a = args[j - 1];
        if a.idx() < t.len() {
            t.update(a.idx(), t[a.idx()].push(inst))
        } else {
            t
        }
    }
}

/// The table of uses of the first `k` of `insts`: for each value, by its
/// number, the instructions that read it, in order, one entry for each
/// operand that is the value.
pub open spec fn uses_upto(dfg: DfgModel, insts: Seq<Inst>, k: int) -> Seq<Seq<Inst>>
    decreases k,
{
    if k <= 0 {
        Seq::new(dfg.values.len(), |i: int| Seq::<Inst>::empty())
    } else {
        let t = uses_upto(dfg, insts, k - 1);
        let inst = insts[k - 1];
        if dfg.inst_valid(inst) {
            add_uses(t, dfg.inst_args(inst), inst, dfg.inst_args(inst).len() as int)
        } else {
            t
        }
    }
}

/// The uses of every value of a function.
pub open spec fn ssa_uses(func: FunctionModel) -> Seq<Seq<Inst>> {
    uses_upto(func.dfg, all_insts(func), all_insts(func).len() as int)
}

/// The operands of a branch that go to the parameters of its destination:
/// all operands of a jump or fallthrough, all but the first of any other
/// branch.
pub open spec fn spec_branch_arguments(dfg: DfgModel, inst: Inst) -> Seq<ValueRef> {
    let args = dfg.inst_args(inst);
    if dfg.insts[inst.idx()].spec_opcode().spec_is_unconditional_jump() {
        args
    } else if args.len() > 0 {
        args.drop_first()
    } else {
        args
    }
}

/// The smaller of two lengths.
pub open spec fn min_len(a: nat, b: nat) -> int {
    if a <= b {
        a as int
    } else {
        b as int
    }
}

/// The table of inputs after each of the first `j` of `to` (parameters of a
/// block) got the value at its position in `from` (arguments of a branch to
/// the block) as one more input.
pub open spec fn add_inputs(
    table: Seq<Seq<ValueRef>>,
    from: Seq<ValueRef>,
    to: Seq<ValueRef>,
    j: int,
) -> Seq<Seq<ValueRef>>
    decreases j,
{
    if j <= 0 {
        table
    } else {
        let t = add_inputs(table, from, to, j - 1);
        let p = to[j - 1];
        if p.idx() < t.len() {
            t.update(p.idx(), t[p.idx()].push(from[j - 1]))
        } else {
            t
        }
    }
}

/// The table of inputs of the first `k` of `insts`: for each block
/// parameter, by its number, the branch arguments that flow into it, in the
/// order of the branches.
pub open spec fn inputs_upto(dfg: DfgModel, insts: Seq<Inst>, k: int) -> Seq<Seq<ValueRef>>
    decreases k,
{
    if k <= 0 {
        Seq::new(dfg.values.len(), |i: int| Seq::<ValueRef>::empty())
    } else {
        let t = inputs_upto(dfg, insts, k - 1);
        let inst = insts[k - 1];
        if dfg.inst_valid(inst) && dfg.insts[inst.idx()].spec_opcode().spec_is_branch() {
            match dfg.insts[inst.idx()].spec_branch_destination() {
                Some(block) => {
                    let from = spec_branch_arguments(dfg, inst);
                    let to = dfg.params_of(block);
                    add_inputs(t, from, to, min_len(from.len(), to.len()))
                },
                None => t,
            }
        } else {
            t
        }
    }
}

/// The inputs of every block parameter of a function.
pub open spec fn phi_inputs(func: FunctionModel) -> Seq<Seq<ValueRef>> {
    inputs_upto(func.dfg, all_insts(func), all_insts(func).len() as int)
}

/// The entry of a table for the value `v`; empty where the table has none.
pub open spec fn entry_of<T>(table: Seq<Seq<T>>, v: ValueRef) -> Seq<T> {
    if v.idx() < table.len() {
        table[v.idx()]
    } else {
        Seq::empty()
    }
}

/// The lattice value of `v`; `Top` for what is no value of the function.
pub open spec fn lattice_of(values: Seq<LatticeValue>, v: ValueRef) -> LatticeValue {
    if v.idx() < values.len() {
        values[v.idx()]
    } else {
        LatticeValue::Top
    }
}

/// The meet of the lattice values of the first `k` of `inputs`.
pub open spec fn meet_all(values: Seq<LatticeValue>, inputs: Seq<ValueRef>, k: int) -> LatticeValue
    decreases k,
{
    if k <= 0 {
        LatticeValue::Top
    } else {
        spec_meet(meet_all(values, inputs, k - 1), lattice_of(values, inputs[k - 1]))
    }
}

/// The lattice value of a block parameter as its inputs give it: the meet of
/// their lattice values, starting from `Top`, where that is not what the
/// parameter has.
pub open spec fn spec_meet_inputs(
    inputs: Seq<Seq<ValueRef>>,
    values: Seq<LatticeValue>,
    param: ValueRef,
) -> Option<LatticeValue> {
    let ins = entry_of(inputs, param);
    let folded = meet_all(values, ins, ins.len() as int);
    if folded != lattice_of(values, param) {
        Some(folded)
    } else {
        None
    }
}

/// The parameter that gets the first of the first `k` branch arguments that
/// is `arg`.
pub open spec fn find_param(bargs: Seq<ValueRef>, params: Seq<ValueRef>, arg: ValueRef, k: int) -> Option<
    ValueRef,
>
    decreases k,
{
    if k <= 0 {
        None
    } else {
        match find_param(bargs, params, arg, k - 1) {
            Some(p) => Some(p),
            None => if bargs[k - 1] == arg {
                Some(params[k - 1])
            } else {
                None
            },
        }
    }
}

/// The block parameter that the branch `inst` feeds with `arg`.
pub open spec fn spec_find_block_parameter(dfg: DfgModel, inst: Inst, arg: ValueRef) -> Option<
    ValueRef,
> {
    match dfg.insts[inst.idx()].spec_branch_destination() {
        None => None,
        Some(block) => {
            let bargs = spec_branch_arguments(dfg, inst);
            let params = dfg.params_of(block);
            find_param(bargs, params, arg, min_len(bargs.len(), params.len()))
        },
    }
}

/// What interpreting an instruction over lattice values gives.
pub ghost enum LatticeFlowModel {
    /// The results of the instruction have these lattice values.
    Assign(Seq<LatticeValue>),
    /// The instruction goes on to the next one.
    Continue,
    /// The instruction transfers control to the block.
    ContinueAt(Block),
}

/// The rule of an operation on one lattice value and a constant.
pub open spec fn with_constant(a: LatticeValue, f: spec_fn(DataValue) -> Option<DataValue>) -> Option<
    LatticeValue,
> {
    match a {
        LatticeValue::Bottom => Some(LatticeValue::Bottom),
        LatticeValue::Top => Some(LatticeValue::Top),
        LatticeValue::Constant(x) => match f(x) {
            Some(c) => Some(LatticeValue::Constant(c)),
            None => None,
        },
    }
}

/// What `imm - x` is, the immediate cast to the type `ty`.
pub open spec fn rsub_imm(ty: crate::ir::types::Type, imm: i64, x: DataValue) -> Option<DataValue> {
    match DataValue::spec_make_int(imm, ty) {
        Err(_) => None,
        Ok(i) => match DataValue::spec_binary(BinaryOp::Sub, i, x) {
            Ok(c) => Some(c),
            Err(_) => None,
        },
    }
}

/// What comparing `x` with the immediate gives, as a boolean value.
pub open spec fn icmp_imm(cond: crate::ir::instructions::IntCC, imm: i64, x: DataValue) -> Option<
    DataValue,
> {
    match compare_imm(cond, x, imm) {
        Some(c) => Some(DataValue::B(c)),
        None => None,
    }
}

/// The symbolic interpretation of an instruction: what the interpreter
/// would do, over lattice values. `None` where nothing is learned: the
/// opcode is not known, an operation fails, or a branch depends on what is
/// no constant.
pub open spec fn spec_interpret(dfg: DfgModel, inst: Inst, values: Seq<LatticeValue>) -> Option<
    LatticeFlowModel,
> {
    let data = dfg.insts[inst.idx()];
    match data {
        InstructionData::Binary { opcode, a, b } => match binary_op_of(opcode) {
            None => None,
            Some(op) => match spec_binary(op, lattice_of(values, a), lattice_of(values, b)) {
                Ok(x) => Some(LatticeFlowModel::Assign(seq![x])),
                Err(_) => None,
            },
        },
        InstructionData::BinaryImm { opcode: Opcode::IrsubImm, arg, imm } => match with_constant(
            lattice_of(values, arg),
            |x: DataValue| rsub_imm(dfg.ctrl_typevar(inst), imm, x),
        ) {
            Some(x) => Some(LatticeFlowModel::Assign(seq![x])),
            None => None,
        },
        InstructionData::UnaryImm { opcode: Opcode::Iconst, imm } => match DataValue::spec_make_int(
            imm,
            dfg.ctrl_typevar(inst),
        ) {
            Ok(c) => Some(LatticeFlowModel::Assign(seq![LatticeValue::Constant(c)])),
            Err(_) => None,
        },
        InstructionData::UnaryBool { opcode: Opcode::Bconst, imm } => Some(
            LatticeFlowModel::Assign(seq![LatticeValue::Constant(DataValue::B(imm))]),
        ),
        InstructionData::UnaryIeee32 { opcode: Opcode::F32const, imm } => Some(
            LatticeFlowModel::Assign(seq![LatticeValue::Constant(DataValue::F32(imm))]),
        ),
        InstructionData::UnaryIeee64 { opcode: Opcode::F64const, imm } => Some(
            LatticeFlowModel::Assign(seq![LatticeValue::Constant(DataValue::F64(imm))]),
        ),
        InstructionData::NullAry { opcode: Opcode::Nop } => Some(LatticeFlowModel::Continue),
        InstructionData::Branch { opcode, args, destination } => {
            let vals = dfg.list_values(args);
            if (opcode != Opcode::Brnz && opcode != Opcode::Brz) || vals.len() == 0 {
                None
            } else {
                match lattice_of(values, vals[0]) {
                    LatticeValue::Constant(x) => match is_nonzero(x) {
                        None => None,
                        Some(nz) => if nz == (opcode == Opcode::Brnz) {
                            Some(LatticeFlowModel::ContinueAt(destination))
                        } else {
                            Some(LatticeFlowModel::Continue)
                        },
                    },
                    _ => None,
                }
            }
        },
        InstructionData::Jump { opcode, destination, .. } => if opcode == Opcode::Jump || opcode
            == Opcode::Fallthrough {
            Some(LatticeFlowModel::ContinueAt(destination))
        } else {
            None
        },
        InstructionData::IntCompareImm { opcode: Opcode::IcmpImm, arg, cond, imm } => {
            match with_constant(lattice_of(values, arg), |x: DataValue| icmp_imm(cond, imm, x)) {
                Some(x) => Some(LatticeFlowModel::Assign(seq![x])),
                None => None,
            }
        },
        _ => None,
    }
}

/// The instruction that materializes a constant; none for a vector.
pub open spec fn constant_data(c: DataValue) -> Option<InstructionData> {
    match c {
        DataValue::B(b) => Some(InstructionData::UnaryBool { opcode: Opcode::Bconst, imm: b }),
        DataValue::F32(b) => Some(InstructionData::UnaryIeee32 { opcode: Opcode::F32const, imm: b }),
        DataValue::F64(b) => Some(InstructionData::UnaryIeee64 { opcode: Opcode::F64const, imm: b }),
        DataValue::V128(_) => None,
        _ => Some(
            InstructionData::UnaryImm { opcode: Opcode::Iconst, imm: c.spec_int().unwrap() },
        ),
    }
}

/// The graph after `inst` was replaced by the constant `c`; its result and
/// the type of the result stay.
pub open spec fn spec_replace_inst(dfg: DfgModel, inst: Inst, c: DataValue) -> DfgModel {
    match constant_data(c) {
        Some(d) => dfg.replace(inst, d),
        None => dfg,
    }
}

/// The function after the branch `inst`, known to go to `block`, was
/// replaced by a jump there with the branch's arguments, and what follows it
/// in its block was removed; and those arguments. A jump, a fallthrough and
/// a branch through a table are left as they are.
pub open spec fn spec_replace_branch_with_jump(func: FunctionModel, inst: Inst, block: Block) -> (
    FunctionModel,
    Option<Seq<ValueRef>>,
) {
    let opcode = func.dfg.insts[inst.idx()].spec_opcode();
    let params = spec_branch_arguments(func.dfg, inst);
    if opcode.spec_is_unconditional_jump() || opcode.spec_is_table_branch()
        || !func.dfg.block_valid(block) || func.dfg.pool.len() + params.len() > entity_limit() {
        (func, None)
    } else {
        (
            FunctionModel {
                dfg: func.dfg.push_list(params).replace(
                    inst,
                    InstructionData::Jump {
                        opcode: Opcode::Jump,
                        args: func.dfg.next_list(params),
                        destination: block,
                    },
                ),
                layout: func.layout.remove_after(inst),
                ..func
            },
            Some(params),
        )
    }
}

/// The state of the propagation.
pub ghost struct FoldModel {
    pub func: FunctionModel,
    /// The lattice value of each value, by the value's number.
    pub values: Seq<LatticeValue>,
    /// The values whose uses are still to be looked at; the last is taken
    /// next.
    pub worklist: Seq<ValueRef>,
}

impl FoldModel {
    /// The state after `name` was given `value`, where that is lower than
    /// what it has: the value is recorded and `name` goes on the worklist.
    /// A lattice value never rises.
    pub open spec fn lower(self, name: ValueRef, value: LatticeValue) -> FoldModel {
        if name.idx() < self.values.len() && strictly_below(value, self.values[name.idx()]) {
            FoldModel {
                values: self.values.update(name.idx(), value),
                worklist: self.worklist.push(name),
                ..self
            }
        } else {
            self
        }
    }

    /// The state after the first `k` of `results` were given the lattice
    /// values at their positions in `new_values`.
    pub open spec fn assign(self, results: Seq<ValueRef>, new_values: Seq<LatticeValue>, k: int) -> FoldModel
        decreases k,
    {
        if k <= 0 {
            self
        } else {
            self.assign(results, new_values, k - 1).lower(results[k - 1], new_values[k - 1])
        }
    }

    /// The state after the block parameter that the branch `inst` feeds
    /// with `v` was given the meet of its inputs.
    pub open spec fn meet_step(self, inputs: Seq<Seq<ValueRef>>, v: ValueRef, inst: Inst) -> FoldModel {
        if self.func.dfg.insts[inst.idx()].spec_opcode().spec_is_branch() {
            match spec_find_block_parameter(self.func.dfg, inst, v) {
                Some(p) => match spec_meet_inputs(inputs, self.values, p) {
                    Some(changed) => self.lower(p, changed),
                    None => self,
                },
                None => self,
            }
        } else {
            self
        }
    }

    /// The state after what the interpretation of `inst` gave was applied.
    pub open spec fn apply(self, inst: Inst, flow: Option<LatticeFlowModel>) -> FoldModel {
        let dfg = self.func.dfg;
        match flow {
            Some(LatticeFlowModel::Assign(rs)) => {
                let dfg2 = if rs.len() == 1 && rs[0] is Constant {
                    spec_replace_inst(dfg, inst, rs[0]->Constant_0)
                } else {
                    dfg
                };
                let results = dfg.inst_results(inst);
                FoldModel { func: FunctionModel { dfg: dfg2, ..self.func }, ..self }.assign(
                    results,
                    rs,
                    min_len(results.len(), rs.len()),
                )
            },
            Some(LatticeFlowModel::ContinueAt(block)) => FoldModel {
                func: spec_replace_branch_with_jump(self.func, inst, block).0,
                ..self
            },
            Some(LatticeFlowModel::Continue) => if dfg.insts[inst.idx()].spec_opcode().spec_is_branch() {
                FoldModel {
                    func: FunctionModel {
                        dfg: dfg.replace(inst, InstructionData::NullAry { opcode: Opcode::Nop }),
                        ..self.func
                    },
                    ..self
                }
            } else {
                self
            },
            None => self,
        }
    }

    /// The state after one use `inst` of the value `v` was looked at.
    pub open spec fn process_use(self, inputs: Seq<Seq<ValueRef>>, v: ValueRef, inst: Inst) -> FoldModel {
        if !self.func.dfg.inst_valid(inst) {
            self
        } else {
            let st = self.meet_step(inputs, v, inst);
            st.apply(inst, spec_interpret(st.func.dfg, inst, st.values))
        }
    }

    /// The state after the first `k` of the uses `uses` of `v` were looked
    /// at.
    pub open spec fn process_uses(self, inputs: Seq<Seq<ValueRef>>, v: ValueRef, uses: Seq<Inst>, k: int) -> FoldModel
        decreases k,
    {
        if k <= 0 {
            self
        } else {
            self.process_uses(inputs, v, uses, k - 1).process_use(inputs, v, uses[k - 1])
        }
    }

    /// What the propagation can still do: the heights of the lattice values,
    /// added up. Every value that goes on the worklist has got lower.
    pub open spec fn measure(self) -> nat {
        total_height(self.values)
    }

    /// The state when the worklist has run empty.
    pub open spec fn fold_worklist(self, uses: Seq<Seq<Inst>>, inputs: Seq<Seq<ValueRef>>) -> FoldModel
        decreases self.measure(), self.worklist.len(),
    {
        if self.worklist.len() == 0 {
            self
        } else {
            let v = self.worklist.last();
            let popped = FoldModel { worklist: self.worklist.drop_last(), ..self };
            let us = entry_of(uses, v);
            proof {
                popped.lemma_process_uses_measure(inputs, v, us, us.len() as int);
            }
            popped.process_uses(inputs, v, us, us.len() as int).fold_worklist(uses, inputs)
        }
    }

    /// Giving a value a lattice value lowers the measure, or changes
    /// nothing; and no lattice value rises.
    pub proof fn lemma_lower(self, name: ValueRef, value: LatticeValue)
        ensures
            self.lower(name, value).values.len() == self.values.len(),
            self.lower(name, value).func == self.func,
            self.lower(name, value).measure() < self.measure() || self.lower(name, value) == self,
            forall|i: int|
                0 <= i < self.values.len() ==> below(
                    #[trigger] self.lower(name, value).values[i],
                    self.values[i],
                ),
    {
        if name.idx() < self.values.len() && strictly_below(value, self.values[name.idx()]) {
            lemma_total_height_update(self.values, name.idx(), value);
            lemma_below_is_order(value, self.values[name.idx()], value);
        }
        assert forall|i: int| 0 <= i < self.values.len() implies below(
            #[trigger] self.lower(name, value).values[i],
            self.values[i],
        ) by {
            lemma_below_is_order(self.values[i], self.values[i], self.values[i]);
        }
    }

    pub proof fn lemma_assign(self, results: Seq<ValueRef>, new_values: Seq<LatticeValue>, k: int)
        ensures
            self.assign(results, new_values, k).values.len() == self.values.len(),
            self.assign(results, new_values, k).func == self.func,
            self.assign(results, new_values, k).measure() < self.measure() || self.assign(
                results,
                new_values,
                k,
            ) == self,
            forall|i: int|
                0 <= i < self.values.len() ==> below(
                    #[trigger] self.assign(results, new_values, k).values[i],
                    self.values[i],
                ),
        decreases k,
    {
        if k > 0 {
            let mid = self.assign(results, new_values, k - 1);
            self.lemma_assign(results, new_values, k - 1);
            mid.lemma_lower(results[k - 1], new_values[k - 1]);
            let after = mid.lower(results[k - 1], new_values[k - 1]);
            assert forall|i: int| 0 <= i < self.values.len() implies below(
                #[trigger] after.values[i],
                self.values[i],
            ) by {
                lemma_below_is_order(after.values[i], mid.values[i], self.values[i]);
            }
        } else {
            assert forall|i: int| 0 <= i < self.values.len() implies below(
                #[trigger] self.values[i],
                self.values[i],
            ) by {
                lemma_below_is_order(self.values[i], self.values[i], self.values[i]);
            }
        }
    }

    /// Looking at one use lowers the measure, or leaves the lattice values
    /// and the worklist as they are; and no lattice value rises.
    pub proof fn lemma_process_use(self, inputs: Seq<Seq<ValueRef>>, v: ValueRef, inst: Inst)
        ensures
            self.process_use(inputs, v, inst).values.len() == self.values.len(),
            self.process_use(inputs, v, inst).measure() < self.measure() || (self.process_use(
                inputs,
                v,
                inst,
            ).values == self.values && self.process_use(inputs, v, inst).worklist
                == self.worklist),
            forall|i: int|
                0 <= i < self.values.len() ==> below(
                    #[trigger] self.process_use(inputs, v, inst).values[i],
                    self.values[i],
                ),
    {
        let after = self.process_use(inputs, v, inst);
        if self.func.dfg.inst_valid(inst) {
            let st = self.meet_step(inputs, v, inst);
            if self.func.dfg.insts[inst.idx()].spec_opcode().spec_is_branch() {
                match spec_find_block_parameter(self.func.dfg, inst, v) {
                    Some(p) => match spec_meet_inputs(inputs, self.values, p) {
                        Some(changed) => {
                            self.lemma_lower(p, changed);
                        },
                        None => {},
                    },
                    None => {},
                }
            }
            assert(st.values.len() == self.values.len());
            assert(st.measure() < self.measure() || st == self);
            match spec_interpret(st.func.dfg, inst, st.values) {
                Some(LatticeFlowModel::Assign(rs)) => {
                    let dfg = st.func.dfg;
                    let dfg2 = if rs.len() == 1 && rs[0] is Constant {
                        spec_replace_inst(dfg, inst, rs[0]->Constant_0)
                    } else {
                        dfg
                    };
                    let results = dfg.inst_results(inst);
                    let st2 = FoldModel { func: FunctionModel { dfg: dfg2, ..st.func }, ..st };
                    st2.lemma_assign(results, rs, min_len(results.len(), rs.len()));
                },
                _ => {},
            }
            assert forall|i: int| 0 <= i < self.values.len() implies below(
                #[trigger] after.values[i],
                self.values[i],
            ) by {
                if self.func.dfg.insts[inst.idx()].spec_opcode().spec_is_branch() {
                    match spec_find_block_parameter(self.func.dfg, inst, v) {
                        Some(p) => match spec_meet_inputs(inputs, self.values, p) {
                            Some(changed) => {
                                self.lemma_lower(p, changed);
                            },
                            None => {},
                        },
                        None => {},
                    }
                }
                lemma_below_is_order(st.values[i], self.values[i], self.values[i]);
                lemma_below_is_order(after.values[i], st.values[i], self.values[i]);
            }
        } else {
            assert forall|i: int| 0 <= i < self.values.len() implies below(
                #[trigger] self.values[i],
                self.values[i],
            ) by {
                lemma_below_is_order(self.values[i], self.values[i], self.values[i]);
            }
        }
    }

    /// Looking at the uses of a value lowers the measure, or leaves the
    /// lattice values and the worklist as they are; and no lattice value
    /// rises.
    pub proof fn lemma_process_uses_measure(
        self,
        inputs: Seq<Seq<ValueRef>>,
        v: ValueRef,
        uses: Seq<Inst>,
        k: int,
    )
        ensures
            self.process_uses(inputs, v, uses, k).values.len() == self.values.len(),
            self.process_uses(inputs, v, uses, k).measure() < self.measure() || (
            self.process_uses(inputs, v, uses, k).values == self.values && self.process_uses(
                inputs,
                v,
                uses,
                k,
            ).worklist == self.worklist),
            forall|i: int|
                0 <= i < self.values.len() ==> below(
                    #[trigger] self.process_uses(inputs, v, uses, k).values[i],
                    self.values[i],
                ),
        decreases k,
    {
        if k > 0 {
            let mid = self.process_uses(inputs, v, uses, k - 1);
            self.lemma_process_uses_measure(inputs, v, uses, k - 1);
            mid.lemma_process_use(inputs, v, uses[k - 1]);
            let after = mid.process_use(inputs, v, uses[k - 1]);
            assert forall|i: int| 0 <= i < self.values.len() implies below(
                #[trigger] after.values[i],
                self.values[i],
            ) by {
                lemma_below_is_order(after.values[i], mid.values[i], self.values[i]);
            }
        } else {
            assert forall|i: int| 0 <= i < self.values.len() implies below(
                #[trigger] self.values[i],
                self.values[i],
            ) by {
                lemma_below_is_order(self.values[i], self.values[i], self.values[i]);
            }
        }
    }

    /// The lattice is monotone across the worklist loop: when the worklist
    /// has run empty, no value has a lattice value above the one it started
    /// with.
    pub proof fn lemma_fold_monotone(self, uses: Seq<Seq<Inst>>, inputs: Seq<Seq<ValueRef>>)
        ensures
            self.fold_worklist(uses, inputs).values.len() == self.values.len(),
            forall|i: int|
                0 <= i < self.values.len() ==> below(
                    #[trigger] self.fold_worklist(uses, inputs).values[i],
                    self.values[i],
                ),
        decreases self.measure(), self.worklist.len(),
    {
        if self.worklist.len() > 0 {
            let v = self.worklist.last();
            let popped = FoldModel { worklist: self.worklist.drop_last(), ..self };
            let us = entry_of(uses, v);
            popped.lemma_process_uses_measure(inputs, v, us, us.len() as int);
            let next = popped.process_uses(inputs, v, us, us.len() as int);
            next.lemma_fold_monotone(uses, inputs);
            let last = next.fold_worklist(uses, inputs);
            assert forall|i: int| 0 <= i < self.values.len() implies below(
                #[trigger] last.values[i],
                self.values[i],
            ) by {
                lemma_below_is_order(last.values[i], next.values[i], self.values[i]);
            }
        } else {
            assert forall|i: int| 0 <= i < self.values.len() implies below(
                #[trigger] self.values[i],
                self.values[i],
            ) by {
                lemma_below_is_order(self.values[i], self.values[i], self.values[i]);
            }
        }
    }
}

/// The state in which the propagation starts.
pub open spec fn initial_state(func: FunctionModel) -> FoldModel {
    FoldModel {
        func,
        values: initial_values(func.dfg, func.dfg.values.len() as int),
        worklist: initial_worklist(func.dfg, func.dfg.values.len() as int),
    }
}

/// The function with its constants folded.
pub open spec fn spec_fold_constants(func: FunctionModel) -> FunctionModel {
    initial_state(func).fold_worklist(ssa_uses(func), phi_inputs(func)).func
}

/// The table that a map from the numbers of values to rows stands for: the
/// rows of the first `n` values, by number; the row of a value that the map
/// holds none for is empty.
pub open spec fn table_view<T>(m: Map<u32, Vec<T>>, n: nat) -> Seq<Seq<T>> {
    Seq::new(
        n,
        |i: int|
            if m.contains_key(i as u32) {
                m[i as u32]@
            } else {
                Seq::empty()
            },
    )
}

/// Puts `x` at the end of the row of `v`, where `v` is among the first `n`
/// values.
fn push_to_row<T>(table: &mut HashMap<u32, Vec<T>>, n: usize, v: ValueRef, x: T)
    requires
        n <= entity_limit(),
    ensures
        table_view(final(table)@, n as nat) == (if v.idx() < n {
            table_view(old(table)@, n as nat).update(
                v.idx(),
                table_view(old(table)@, n as nat)[v.idx()].push(x),
            )
        } else {
            table_view(old(table)@, n as nat)
        }),
{
    broadcast use vstd::std_specs::hash::group_hash_axioms;

    if v.index() < n {
        let key: u32 = v.as_u32();
        let mut row: Vec<T> = match table.remove(&key) {
            Some(row) => row,
            None => Vec::new(),
        };
        row.push(x);
        let _ = table.insert(key, row);
        proof {
            let before = table_view(old(table)@, n as nat);
            let after = table_view(table@, n as nat);
            assert forall|i: int| 0 <= i < n implies #[trigger] after[i] == before.update(
                v.idx(),
                before[v.idx()].push(x),
            )[i] by {
                if i != v.idx() {
                    assert(i as u32 != key);
                }
            }
            assert(after =~= before.update(v.idx(), before[v.idx()].push(x)));
        }
    }
}

/// The row of `v` in the first `n` rows of the table; empty where it has
/// none.
fn row_of<T: Copy>(table: &HashMap<u32, Vec<T>>, n: usize, v: ValueRef) -> (r: Vec<T>)
    ensures
        r@ == entry_of(table_view(table@, n as nat), v),
{
    broadcast use vstd::std_specs::hash::group_hash_axioms;

    if v.index() < n {
        let key: u32 = v.as_u32();
        match table.get(&key) {
            Some(row) => copy_vec(row),
            None => Vec::new(),
        }
    } else {
        Vec::new()
    }
}

/// All instructions of the layout, in order.
#[verifier::loop_isolation(false)]
fn collect_insts(func: &Function) -> (r: Vec<Inst>)
    ensures
        r@ == all_insts(func@),
{
    let mut out: Vec<Inst> = Vec::new();
    let blocks = func.layout.blocks();
    let mut b: usize = 0;
    while b < blocks.len()
        invariant
            b <= blocks@.len(),
            out@ == layout_insts(func@, b as int),
        decreases blocks@.len() - b,
    {
        let mut insts = func.layout.block_insts(blocks[b]);
        out.append(&mut insts);
        b += 1;
    }
    out
}

/// Whether a value can never be known; see [`spec_is_value_unknowable`].
pub fn is_value_unknowable(dfg: &DataFlowGraph, value: ValueRef) -> (r: bool)
    requires
        dfg.wf(),
        dfg@.value_valid(value),
    ensures
        r == spec_is_value_unknowable(dfg@, value),
{
    proof {
        assert(dfg@.def_wf(value.idx()));
    }
    match dfg.value_def(value) {
        ValueDef::Result(inst, _) => dfg.inst(inst).opcode().can_load(),
        ValueDef::Param(_, _) => false,
    }
}

/// The constant that an instruction holds as its immediate.
fn immediate_of(data: InstructionData) -> (r: Option<DataValue>)
    ensures
        r == imm_value(data),
{
    match data {
        InstructionData::UnaryImm { imm, .. } => Some(DataValue::I64(imm)),
        InstructionData::UnaryBool { imm, .. } => Some(DataValue::B(imm)),
        InstructionData::UnaryIeee32 { imm, .. } => Some(DataValue::F32(imm)),
        InstructionData::UnaryIeee64 { imm, .. } => Some(DataValue::F64(imm)),
        _ => None,
    }
}

/// The constant of a value that is defined by a constant instruction; see
/// [`spec_resolve_value_to_imm`].
pub fn resolve_value_to_imm(dfg: &DataFlowGraph, value: ValueRef) -> (r: Option<DataValue>)
    requires
        dfg.wf(),
        dfg@.value_valid(value),
    ensures
        r == spec_resolve_value_to_imm(dfg@, value),
{
    proof {
        assert(dfg@.def_wf(value.idx()));
    }
    let inst = match dfg.value_def(value) {
        ValueDef::Result(inst, _) => inst,
        ValueDef::Param(_, _) => {
            return None;
        },
    };
    let data = dfg.inst(inst);
    match data.opcode() {
        Opcode::Iconst | Opcode::Bconst => match immediate_of(data) {
            Some(iv) => match iv.convert(ValueConversionKind::Exact(dfg.ctrl_typevar(inst))) {
                Ok(c) => Some(c),
                Err(_) => None,
            },
            None => None,
        },
        Opcode::F32const | Opcode::F64const => immediate_of(data),
        _ => None,
    }
}

impl Values {
    /// The lattice values at the start of the propagation: each value of
    /// `dfg` has what is known of it from its definition, and those of
    /// which something is known are put on the worklist, in order.
    #[verifier::loop_isolation(false)]
    pub fn setup(dfg: &DataFlowGraph, worklist: &mut Vec<ValueRef>) -> (r: Self)
        requires
            dfg.wf(),
        ensures
            r@ == initial_values(dfg@, dfg@.values.len() as int),
            final(worklist)@ == old(worklist)@ + initial_worklist(dfg@, dfg@.values.len() as int),
    {
        let n = dfg.num_values();
        let mut values = Values::all_top(n);
        let mut k: usize = 0;
        proof {
            assert(values@ =~= initial_values(dfg@, 0));
            assert(worklist@ =~= old(worklist)@ + initial_worklist(dfg@, 0));
        }
        while k < n
            invariant
                k <= n,
                values@ == initial_values(dfg@, k as int),
                worklist@ == old(worklist)@ + initial_worklist(dfg@, k as int),
            decreases n - k,
        {
            let name = ValueRef(k as u32);
            let lattice_value = if is_value_unknowable(dfg, name) {
                LatticeValue::Bottom
            } else {
                match resolve_value_to_imm(dfg, name) {
                    Some(c) => LatticeValue::Constant(c),
                    None => LatticeValue::Top,
                }
            };
            if lattice_value != LatticeValue::Top {
                worklist.push(name);
            }
            values.set(name, lattice_value);
            proof {
                assert(values@ =~= initial_values(dfg@, k + 1));
                assert(worklist@ =~= old(worklist)@ + initial_worklist(dfg@, k + 1));
            }
            k += 1;
        }
        values
    }
}

/// The uses of each SSA value of a function: for each value, the
/// instructions that read it.
pub struct SsaNameUses {
    rows: HashMap<u32, Vec<Inst>>,
    len: usize,
}

impl View for SsaNameUses {
    type V = Seq<Seq<Inst>>;

    closed spec fn view(&self) -> Seq<Seq<Inst>> {
        table_view(self.rows@, self.len as nat)
    }
}

impl SsaNameUses {
    /// Gathers the uses of every value of `func`; see [`ssa_uses`].
    #[verifier::loop_isolation(false)]
    pub fn new(func: &Function) -> (r: Self)
        requires
            func.wf(),
        ensures
            r@ == ssa_uses(func@),
    {
        let insts = collect_insts(func);
        let len = func.dfg.num_values();
        let mut table: HashMap<u32, Vec<Inst>> = HashMap::new();
        proof {
            assert(table_view(table@, len as nat) =~= uses_upto(func@.dfg, insts@, 0));
        }
        let mut k: usize = 0;
        while k < insts.len()
            invariant
                k <= insts@.len(),
                table_view(table@, len as nat) == uses_upto(func@.dfg, insts@, k as int),
            decreases insts@.len() - k,
        {
            let inst = insts[k];
            if inst.index() < func.dfg.num_insts() {
                let args = func.dfg.inst_args(inst);
                let mut j: usize = 0;
                while j < args.len()
                    invariant
                        j <= args@.len(),
                        table_view(table@, len as nat) == add_uses(
                            uses_upto(func@.dfg, insts@, k as int),
                            args@,
                            inst,
                            j as int,
                        ),
                    decreases args@.len() - j,
                {
                    push_to_row(&mut table, len, args[j], inst);
                    j += 1;
                }
            }
            k += 1;
        }
        SsaNameUses { rows: table, len }
    }

    /// The instructions that read `value`; none where nothing does.
    pub fn get(&self, value: ValueRef) -> (r: Vec<Inst>)
        ensures
            r@ == entry_of(self@, value),
    {
        row_of(&self.rows, self.len, value)
    }
}

/// The operands of a branch that go to the parameters of its destination;
/// see [`spec_branch_arguments`].
pub fn branch_arguments(dfg: &DataFlowGraph, inst: Inst) -> (r: Vec<ValueRef>)
    requires
        dfg.wf(),
        dfg@.inst_valid(inst),
    ensures
        r@ == spec_branch_arguments(dfg@, inst),
{
    let mut args = dfg.inst_args(inst);
    if dfg.inst(inst).opcode().is_unconditional_jump() {
        args
    } else if args.len() > 0 {
        let _ = args.remove(0);
        proof {
            assert(args@ =~= dfg@.inst_args(inst).drop_first());
        }
        args
    } else {
        args
    }
}

/// The inputs of each block parameter of a function: the branch arguments
/// that flow into it.
pub struct PhiValues {
    rows: HashMap<u32, Vec<ValueRef>>,
    len: usize,
}

impl View for PhiValues {
    type V = Seq<Seq<ValueRef>>;

    closed spec fn view(&self) -> Seq<Seq<ValueRef>> {
        table_view(self.rows@, self.len as nat)
    }
}

impl PhiValues {
    /// Gathers the inputs of every block parameter of `func`; see
    /// [`phi_inputs`].
    #[verifier::loop_isolation(false)]
    pub fn new(func: &Function) -> (r: Self)
        requires
            func.wf(),
        ensures
            r@ == phi_inputs(func@),
    {
        let insts = collect_insts(func);
        let len = func.dfg.num_values();
        let mut table: HashMap<u32, Vec<ValueRef>> = HashMap::new();
        proof {
            assert(table_view(table@, len as nat) =~= inputs_upto(func@.dfg, insts@, 0));
        }
        let mut k: usize = 0;
        while k < insts.len()
            invariant
                k <= insts@.len(),
                table_view(table@, len as nat) == inputs_upto(func@.dfg, insts@, k as int),
            decreases insts@.len() - k,
        {
            let inst = insts[k];
            if inst.index() < func.dfg.num_insts() && func.dfg.inst(inst).opcode().is_branch() {
                proof {
                    assert(func@.dfg.data_wf(func@.dfg.insts[inst.idx()]));
                }
                match func.dfg.inst(inst).branch_destination() {
                    Some(to_block) => {
                        let from = branch_arguments(&func.dfg, inst);
                        let to = func.dfg.block_params(to_block);
                        let n = if from.len() <= to.len() {
                            from.len()
                        } else {
                            to.len()
                        };
                        let mut j: usize = 0;
                        while j < n
                            invariant
                                j <= n,
                                table_view(table@, len as nat) == add_inputs(
                                    inputs_upto(func@.dfg, insts@, k as int),
                                    from@,
                                    to@,
                                    j as int,
                                ),
                            decreases n - j,
                        {
                            push_to_row(&mut table, len, to[j], from[j]);
                            j += 1;
                        }
                    },
                    None => {},
                }
            }
            k += 1;
        }
        PhiValues { rows: table, len }
    }

    /// The inputs of a block parameter; none for what is no block
    /// parameter.
    pub fn inputs_of(&self, block_parameter: ValueRef) -> (r: Vec<ValueRef>)
        ensures
            r@ == entry_of(self@, block_parameter),
    {
        row_of(&self.rows, self.len, block_parameter)
    }
}

/// The block parameter that the branch `inst` feeds with `arg`; see
/// [`spec_find_block_parameter`].
#[verifier::loop_isolation(false)]
pub fn find_block_parameter_for_branch_argument(dfg: &DataFlowGraph, inst: Inst, arg: ValueRef) -> (r:
    Option<ValueRef>)
    requires
        dfg.wf(),
        dfg@.inst_valid(inst),
    ensures
        r == spec_find_block_parameter(dfg@, inst, arg),
{
    proof {
        assert(dfg@.data_wf(dfg@.insts[inst.idx()]));
    }
    let block = match dfg.inst(inst).branch_destination() {
        None => {
            return None;
        },
        Some(b) => b,
    };
    let bargs = branch_arguments(dfg, inst);
    let block_params = dfg.block_params(block);
    let n = if bargs.len() <= block_params.len() {
        bargs.len()
    } else {
        block_params.len()
    };
    let mut k: usize = 0;
    while k < n
        invariant
            k <= n,
            find_param(bargs@, block_params@, arg, k as int) is None,
        decreases n - k,
    {
        if bargs[k] == arg {
            proof {
                lemma_find_param_found(bargs@, block_params@, arg, k as int, n as int);
            }
            return Some(block_params[k]);
        }
        k += 1;
    }
    None
}

/// Once a parameter is found, looking further finds the same one.
pub proof fn lemma_find_param_found(
    bargs: Seq<ValueRef>,
    params: Seq<ValueRef>,
    arg: ValueRef,
    k: int,
    n: int,
)
    requires
        0 <= k < n,
        find_param(bargs, params, arg, k) is None,
        bargs[k] == arg,
    ensures
        find_param(bargs, params, arg, n) == Some(params[k]),
    decreases n - k,
{
    if k + 1 < n {
        lemma_find_param_found(bargs, params, arg, k, n - 1);
    }
}

/// The lattice value of `v`; see [`lattice_of`].
fn lattice_at(values: &Values, v: ValueRef) -> (r: LatticeValue)
    requires
        values@.len() <= entity_limit(),
    ensures
        r == lattice_of(values@, v),
{
    if v.index() < values.len() {
        values.get(v)
    } else {
        LatticeValue::Top
    }
}

/// The lattice value of a block parameter as its inputs give it, where that
/// is not what the parameter has; see [`spec_meet_inputs`].
#[verifier::loop_isolation(false)]
pub fn meet(inputs: &PhiValues, values: &Values, param_name: ValueRef) -> (r: Option<LatticeValue>)
    requires
        values@.len() <= entity_limit(),
    ensures
        r == spec_meet_inputs(inputs@, values@, param_name),
{
    let previous = lattice_at(values, param_name);
    let ins = inputs.inputs_of(param_name);
    let mut folded = LatticeValue::Top;
    let mut k: usize = 0;
    while k < ins.len()
        invariant
            k <= ins@.len(),
            folded == meet_all(values@, ins@, k as int),
        decreases ins@.len() - k,
    {
        folded = folded.meet(lattice_at(values, ins[k]));
        k += 1;
    }
    if folded != previous {
        Some(folded)
    } else {
        None
    }
}

/// What interpreting an instruction over lattice values gives.
#[derive(Debug)]
pub enum LatticeFlow {
    /// The results of the instruction have these lattice values.
    Assign(Vec<LatticeValue>),
    /// The instruction goes on to the next one.
    Continue,
    /// The instruction transfers control to the block.
    ContinueAt(Block),
}

impl View for LatticeFlow {
    type V = LatticeFlowModel;

    open spec fn view(&self) -> LatticeFlowModel {
        match self {
            LatticeFlow::Assign(rs) => LatticeFlowModel::Assign(rs@),
            LatticeFlow::Continue => LatticeFlowModel::Continue,
            LatticeFlow::ContinueAt(b) => LatticeFlowModel::ContinueAt(*b),
        }
    }
}

/// The views of an interpretation's outcome.
pub open spec fn flow_view(r: Option<LatticeFlow>) -> Option<LatticeFlowModel> {
    match r {
        Some(f) => Some(f@),
        None => None,
    }
}

fn assign_one(x: LatticeValue) -> (r: Option<LatticeFlow>)
    ensures
        flow_view(r) == Some(LatticeFlowModel::Assign(seq![x])),
{
    let mut rs: Vec<LatticeValue> = Vec::new();
    rs.push(x);
    assert(rs@ =~= seq![x]);
    Some(LatticeFlow::Assign(rs))
}

/// Interprets an instruction over lattice values; see [`spec_interpret`].
pub fn interpret(dfg: &DataFlowGraph, inst: Inst, values: &Values) -> (r: Option<LatticeFlow>)
    requires
        dfg.wf(),
        dfg@.inst_valid(inst),
        values@.len() <= entity_limit(),
    ensures
        flow_view(r) == spec_interpret(dfg@, inst, values@),
{
    let data = dfg.inst(inst);
    proof {
        assert(dfg@.data_wf(data));
    }
    match data {
        InstructionData::Binary { opcode, a, b } => match operation_of(opcode) {
            None => None,
            Some(op) => match binary(op, lattice_at(values, a), lattice_at(values, b)) {
                Ok(x) => assign_one(x),
                Err(_) => None,
            },
        },
        InstructionData::BinaryImm { opcode: Opcode::IrsubImm, arg, imm } => {
            match lattice_at(values, arg) {
                LatticeValue::Bottom => assign_one(LatticeValue::Bottom),
                LatticeValue::Top => assign_one(LatticeValue::Top),
                LatticeValue::Constant(x) => match DataValue::integer(imm, dfg.ctrl_typevar(inst)) {
                    Err(_) => None,
                    Ok(i) => match DataValue::binary(BinaryOp::Sub, i, x) {
                        Ok(c) => assign_one(LatticeValue::Constant(c)),
                        Err(_) => None,
                    },
                },
            }
        },
        InstructionData::UnaryImm { opcode: Opcode::Iconst, imm } => {
            match DataValue::integer(imm, dfg.ctrl_typevar(inst)) {
                Ok(c) => assign_one(LatticeValue::Constant(c)),
                Err(_) => None,
            }
        },
        InstructionData::UnaryBool { opcode: Opcode::Bconst, imm } => assign_one(
            LatticeValue::Constant(DataValue::B(imm)),
        ),
        InstructionData::UnaryIeee32 { opcode: Opcode::F32const, imm } => assign_one(
            LatticeValue::Constant(DataValue::F32(imm)),
        ),
        InstructionData::UnaryIeee64 { opcode: Opcode::F64const, imm } => assign_one(
            LatticeValue::Constant(DataValue::F64(imm)),
        ),
        InstructionData::NullAry { opcode: Opcode::Nop } => Some(LatticeFlow::Continue),
        InstructionData::Branch { opcode, args, destination } => {
            let vals = dfg.list_values(args);
            if (opcode != Opcode::Brnz && opcode != Opcode::Brz) || vals.len() == 0 {
                None
            } else {
                match lattice_at(values, vals[0]) {
                    LatticeValue::Constant(x) => match nonzero(x) {
                        None => None,
                        Some(nz) => if nz == (opcode == Opcode::Brnz) {
                            Some(LatticeFlow::ContinueAt(destination))
                        } else {
                            Some(LatticeFlow::Continue)
                        },
                    },
                    _ => None,
                }
            }
        },
        InstructionData::Jump { opcode, destination, .. } => {
            if opcode == Opcode::Jump || opcode == Opcode::Fallthrough {
                Some(LatticeFlow::ContinueAt(destination))
            } else {
                None
            }
        },
        InstructionData::IntCompareImm { opcode: Opcode::IcmpImm, arg, cond, imm } => {
            match lattice_at(values, arg) {
                LatticeValue::Bottom => assign_one(LatticeValue::Bottom),
                LatticeValue::Top => assign_one(LatticeValue::Top),
                LatticeValue::Constant(x) => match compare_with_immediate(cond, x, imm) {
                    Some(c) => assign_one(LatticeValue::Constant(DataValue::B(c))),
                    None => None,
                },
            }
        },
        _ => None,
    }
}

/// The instruction that materializes a constant; see [`constant_data`].
fn constant_instruction(c: DataValue) -> (r: Option<InstructionData>)
    ensures
        r == constant_data(c),
{
    match c {
        DataValue::B(b) => Some(InstructionData::UnaryBool { opcode: Opcode::Bconst, imm: b }),
        DataValue::F32(b) => Some(InstructionData::UnaryIeee32 { opcode: Opcode::F32const, imm: b }),
        DataValue::F64(b) => Some(InstructionData::UnaryIeee64 { opcode: Opcode::F64const, imm: b }),
        DataValue::V128(_) => None,
        _ => Some(InstructionData::UnaryImm { opcode: Opcode::Iconst, imm: c.into_int().unwrap() }),
    }
}

/// Replaces `inst` by the instruction that materializes `const_imm`; see
/// [`spec_replace_inst`].
pub fn replace_inst(dfg: &mut DataFlowGraph, inst: Inst, const_imm: DataValue)
    requires
        old(dfg).wf(),
        old(dfg)@.inst_valid(inst),
    ensures
        final(dfg)@ == spec_replace_inst(old(dfg)@, inst, const_imm),
        final(dfg).wf(),
{
    match constant_instruction(const_imm) {
        Some(d) => {
            proof {
                assert(dfg@.data_args(d) =~= Seq::<ValueRef>::empty());
            }
            dfg.replace(inst, d);
        },
        None => {},
    }
}

/// Replaces the branch `inst`, known to go to `block`, by a jump there, and
/// removes what follows it in its block. Returns the arguments of the jump
/// where the branch was replaced; see [`spec_replace_branch_with_jump`].
pub fn possibly_replace_branch_with_jump(func: &mut Function, inst: Inst, block: Block) -> (r:
    Option<Vec<ValueRef>>)
    requires
        old(func).wf(),
        old(func)@.dfg.inst_valid(inst),
    ensures
        final(func)@ == spec_replace_branch_with_jump(old(func)@, inst, block).0,
        final(func).wf(),
        match spec_replace_branch_with_jump(old(func)@, inst, block).1 {
            Some(params) => r matches Some(p) && p@ == params,
            None => r is None,
        },
{
    let opcode = func.dfg.inst(inst).opcode();
    let params = branch_arguments(&func.dfg, inst);
    if opcode.is_unconditional_jump() || opcode.is_table_branch() || block.index()
        >= func.dfg.num_blocks() || func.dfg.pool_len() > 0xffff_ffff - params.len() {
        return None;
    }
    let ghost f0 = func@;
    proof {
        assert(f0.dfg.data_wf(f0.dfg.insts[inst.idx()]));
        assert forall|i: int| 0 <= i < params@.len() implies f0.dfg.value_valid(
            #[trigger] params@[i],
        ) by {
            let args = f0.dfg.inst_args(inst);
            if f0.dfg.insts[inst.idx()].spec_opcode().spec_is_unconditional_jump() {
                assert(f0.dfg.value_valid(args[i]));
            } else {
                assert(f0.dfg.value_valid(args[i + 1]));
            }
        }
    }
    let list = func.dfg.make_value_list(&params);
    let jump = InstructionData::Jump { opcode: Opcode::Jump, args: list, destination: block };
    proof {
        let d = func.dfg@;
        assert(d.data_args(jump) =~= params@);
        assert forall|i: int| 0 <= i < d.data_args(jump).len() implies d.value_valid(
            #[trigger] d.data_args(jump)[i],
        ) by {
            assert(f0.dfg.value_valid(params@[i]));
        }
    }
    func.dfg.replace(inst, jump);
    func.layout.remove_after(inst);
    proof {
        f0.layout.lemma_wf_monotone(f0.dfg, func.dfg@);
        match f0.layout.locate(inst) {
            Some((b, p)) => {
                f0.layout.lemma_truncate_block_wf(func.dfg@, b, p + 1);
            },
            None => {},
        }
    }
    Some(params)
}

/// Gives `name` the lattice value `value` and puts it on the worklist,
/// where `value` is lower than what `name` has; see [`FoldModel::lower`].
fn lower(values: &mut Values, worklist: &mut Vec<ValueRef>, name: ValueRef, value: LatticeValue)
    requires
        old(values)@.len() <= entity_limit(),
    ensures
        final(values)@.len() == old(values)@.len(),
        forall|func: FunctionModel|
            (FoldModel { func, values: final(values)@, worklist: final(worklist)@ })
                == #[trigger] (FoldModel {
                func,
                values: old(values)@,
                worklist: old(worklist)@,
            }).lower(name, value),
{
    if name.index() < values.len() {
        if value.is_strictly_below(values.get(name)) {
            values.set(name, value);
            worklist.push(name);
        }
    }
}

/// Looks at one use of a value; see [`FoldModel::process_use`].
#[verifier::loop_isolation(false)]
fn process_use(
    func: &mut Function,
    values: &mut Values,
    worklist: &mut Vec<ValueRef>,
    inputs: &PhiValues,
    v: ValueRef,
    inst: Inst,
)
    requires
        old(func).wf(),
        old(values)@.len() <= entity_limit(),
    ensures
        final(func).wf(),
        final(values)@.len() == old(values)@.len(),
        (FoldModel { func: final(func)@, values: final(values)@, worklist: final(worklist)@ }) == (
        FoldModel {
            func: old(func)@,
            values: old(values)@,
            worklist: old(worklist)@,
        }).process_use(inputs@, v, inst),
{
    let ghost st0 = FoldModel { func: func@, values: values@, worklist: worklist@ };
    if inst.index() >= func.dfg.num_insts() {
        return ;
    }
    if func.dfg.inst(inst).opcode().is_branch() {
        match find_block_parameter_for_branch_argument(&func.dfg, inst, v) {
            Some(block_name) => {
                match meet(inputs, values, block_name) {
                    Some(changed) => {
                        lower(values, worklist, block_name, changed);
                    },
                    None => {},
                }
            },
            None => {},
        }
    }
    let ghost st1 = FoldModel { func: func@, values: values@, worklist: worklist@ };
    proof {
        assert(st1 == st0.meet_step(inputs@, v, inst));
    }
    match interpret(&func.dfg, inst, values) {
        Some(LatticeFlow::Assign(result_values)) => {
            let results = copy_vec(func.dfg.inst_results(inst));
            if result_values.len() == 1 {
                match result_values[0] {
                    LatticeValue::Constant(c) => {
                        replace_inst(&mut func.dfg, inst, c);
                        proof {
                            st1.func.layout.lemma_wf_monotone(st1.func.dfg, func.dfg@);
                        }
                    },
                    _ => {},
                }
            }
            let ghost st2 = FoldModel { func: func@, values: values@, worklist: worklist@ };
            let n = if results.len() <= result_values.len() {
                results.len()
            } else {
                result_values.len()
            };
            let mut k: usize = 0;
            while k < n
                invariant
                    k <= n,
                    values@.len() == st0.values.len(),
                    func@ == st2.func,
                    (FoldModel { func: func@, values: values@, worklist: worklist@ }) == st2.assign(
                        results@,
                        result_values@,
                        k as int,
                    ),
                decreases n - k,
            {
                lower(values, worklist, results[k], result_values[k]);
                k += 1;
            }
        },
        Some(LatticeFlow::ContinueAt(block)) => {
            let _ = possibly_replace_branch_with_jump(func, inst, block);
        },
        Some(LatticeFlow::Continue) => {
            if func.dfg.inst(inst).opcode().is_branch() {
                let nop = InstructionData::NullAry { opcode: Opcode::Nop };
                proof {
                    assert(func.dfg@.data_args(nop) =~= Seq::<ValueRef>::empty());
                }
                func.dfg.replace(inst, nop);
                proof {
                    st1.func.layout.lemma_wf_monotone(st1.func.dfg, func.dfg@);
                }
            }
        },
        None => {},
    }
}

/// Looks at the uses of a value; see [`FoldModel::process_uses`].
fn process_uses(
    func: &mut Function,
    values: &mut Values,
    worklist: &mut Vec<ValueRef>,
    inputs: &PhiValues,
    v: ValueRef,
    insts: &Vec<Inst>,
)
    requires
        old(func).wf(),
        old(values)@.len() <= entity_limit(),
    ensures
        final(func).wf(),
        final(values)@.len() == old(values)@.len(),
        (FoldModel { func: final(func)@, values: final(values)@, worklist: final(worklist)@ }) == (
        FoldModel {
            func: old(func)@,
            values: old(values)@,
            worklist: old(worklist)@,
        }).process_uses(inputs@, v, insts@, insts@.len() as int),
{
    let ghost st0 = FoldModel { func: func@, values: values@, worklist: worklist@ };
    let mut k: usize = 0;
    while k < insts.len()
        invariant
            k <= insts@.len(),
            func.wf(),
            values@.len() == st0.values.len(),
            st0.values.len() <= entity_limit(),
            (FoldModel { func: func@, values: values@, worklist: worklist@ }) == st0.process_uses(
                inputs@,
                v,
                insts@,
                k as int,
            ),
        decreases insts@.len() - k,
    {
        process_use(func, values, worklist, inputs, v, insts[k]);
        k += 1;
    }
}

/// Folds the constants of a function: every instruction that is found to
/// give a constant is replaced by that constant, and every conditional
/// branch that is found to go one way by a jump or a `nop`; see
/// [`spec_fold_constants`].
pub fn fold_constants(func: &mut Function)
    requires
        old(func).wf(),
    ensures
        final(func)@ == spec_fold_constants(old(func)@),
        final(func).wf(),
{
    let mut worklist: Vec<ValueRef> = Vec::new();
    let mut values = Values::setup(&func.dfg, &mut worklist);
    let uses = SsaNameUses::new(func);
    let inputs = PhiValues::new(func);
    let ghost st0 = initial_state(func@);
    proof {
        assert(worklist@ =~= st0.worklist);
    }
    while worklist.len() > 0
        invariant
            func.wf(),
            values@.len() <= entity_limit(),
            (FoldModel { func: func@, values: values@, worklist: worklist@ }).fold_worklist(
                uses@,
                inputs@,
            ) == st0.fold_worklist(uses@, inputs@),
        decreases total_height(values@), worklist@.len(),
    {
        let ghost before = FoldModel { func: func@, values: values@, worklist: worklist@ };
        let v = worklist.pop().unwrap();
        let ghost popped = FoldModel { func: func@, values: values@, worklist: worklist@ };
        let insts = uses.get(v);
        proof {
            assert(popped.worklist =~= before.worklist.drop_last());
            popped.lemma_process_uses_measure(inputs@, v, insts@, insts@.len() as int);
        }
        process_uses(func, &mut values, &mut worklist, &inputs, v, &insts);
    }
    proof {
        assert(func@ == st0.fold_worklist(uses@, inputs@).func);
    }
}

} // verus!

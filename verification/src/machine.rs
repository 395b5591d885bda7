//! The meaning of interpretation: the state of the interpreter as a
//! mathematical value, and what one step does to it.
//!
//! The interpreter is a machine with a stack of activations, one for each
//! call that was entered and not left. A step runs the instruction at the
//! position of the innermost activation. What the interpreter cannot do
//! itself, compiling a trace and running compiled code, it asks of its
//! driver: the step then ends in a request, and the driver's reply lets the
//! machine go on.
use crate::data_value::{spec_unsigned, BinaryOp, DataValue, ValueError};
use crate::environment::EnvModel;
use crate::frame::FrameModel;
use crate::ir::entities::{Block, FuncRef, Inst, ValueRef};
use crate::ir::function::{CallConv, FunctionModel};
use crate::ir::instructions::{InstructionData, IntCC, Opcode};
use crate::reconstruct::spec_build;
use crate::trace::{
    balance, count_starts, lemma_counts_push, lemma_lowest_bounds_prefixes, lemma_lowest_push,
    lowest, TraceModel, TracedInstruction,
};
use crate::trace_store::CompiledCode;
use crate::trap::{
    already_tracing_text, arity_text, bad_trace_text, boolean_or_integer_text, integer_text,
    not_tracing_text, TraceErrorModel, TrapModel,
};
use vstd::prelude::*;

verus! {

/// What an instruction asks of the block that holds it.
pub ghost enum ControlFlowModel {
    /// Go on with the next instruction.
    Continue,
    /// Go on at the start of a block, whose parameters get what these
    /// values hold.
    ContinueAt(Block, Seq<ValueRef>),
    /// Leave the function with these values.
    Return(Seq<DataValue>),
}

/// The mathematical content of one activation: the values of the call, and
/// the position of the instruction that runs next.
pub ghost struct ActivationModel {
    pub frame: FrameModel,
    pub block: Block,
    pub position: nat,
}

/// What the interpreter waits for.
#[derive(Clone, Copy, PartialEq, Eq, Structural, Debug)]
pub enum Pending {
    /// Nothing: the interpreter can run.
    Nothing,
    /// The code compiled for the trace of this id.
    Compile(i64),
    /// The outcome of running the compiled trace of this id.
    Execute(i64),
}

/// What the interpreter asks of its driver.
pub ghost enum RequestModel {
    /// Compile the function that was reconstructed from the trace `id`.
    Compile { id: i64, function: FunctionModel },
    /// Run the code compiled for the trace `id` on `args`.
    Execute { id: i64, code: CompiledCode, args: Seq<DataValue> },
}

/// The mathematical content of an interpreter.
pub ghost struct MachineModel {
    pub env: EnvModel,
    pub trace: TraceModel,
    pub store: Map<i64, CompiledCode>,
    pub stack: Seq<ActivationModel>,
    pub pending: Pending,
    /// How deep the stack was when tracing was turned on last.
    pub trace_depth: nat,
    /// The lowest depth that the stack had at a return that was recorded
    /// since tracing was turned on last.
    pub trace_floor: nat,
    /// The calling convention of the functions reconstructed from traces.
    pub call_conv: CallConv,
}

/// How a step ends.
pub ghost enum StepModel {
    /// The machine can take another step.
    Running(MachineModel),
    /// The outermost call returned these values.
    Returned(MachineModel, Seq<DataValue>),
    /// The machine waits for its driver.
    Request(MachineModel, RequestModel),
    /// Interpretation failed.
    Trapped(MachineModel, TrapModel),
}

/// How a run of several steps ends.
pub ghost enum RunModel {
    Returned(MachineModel, Seq<DataValue>),
    Request(MachineModel, RequestModel),
    Trapped(MachineModel, TrapModel),
    /// The steps were used up before the run ended in another way.
    OutOfSteps(MachineModel),
}

pub open spec fn no_result_text() -> Seq<char> {
    "the instruction has no result"@
}

pub open spec fn no_condition_text() -> Seq<char> {
    "the branch has no condition"@
}

/// The value that `inst` defines: its first result.
pub open spec fn first_result(func: FunctionModel, inst: Inst) -> Result<ValueRef, TrapModel> {
    if func.dfg.inst_results(inst).len() > 0 {
        Ok(func.dfg.inst_results(inst)[0])
    } else {
        Err(TrapModel::InvalidControlFlow(no_result_text()))
    }
}

/// The frame after `r` was defined as `x`; a value is defined once.
pub open spec fn define(frame: FrameModel, r: ValueRef, x: DataValue) -> Result<
    FrameModel,
    TrapModel,
> {
    if !frame.in_range(r) || frame.is_bound(r) {
        Err(TrapModel::Redefined(r))
    } else {
        Ok(frame.set(r, x))
    }
}

/// The frame after `r` was defined as `op` of what `a` and `b` hold.
pub open spec fn binary(frame: FrameModel, op: BinaryOp, a: ValueRef, b: ValueRef, r: ValueRef) -> Result<
    FrameModel,
    TrapModel,
> {
    match frame.get(a) {
        Err(e) => Err(e),
        Ok(x) => match frame.get(b) {
            Err(e) => Err(e),
            Ok(y) => match DataValue::spec_binary(op, x, y) {
                Err(e) => Err(TrapModel::Value(e)),
                Ok(c) => define(frame, r, c),
            },
        },
    }
}

/// The frame after `r` was defined as `op` of the immediate `imm`, cast to
/// the type of `r`, and of what `a` holds, in this order.
pub open spec fn binary_imm(
    func: FunctionModel,
    frame: FrameModel,
    op: BinaryOp,
    imm: i64,
    a: ValueRef,
    r: ValueRef,
) -> Result<FrameModel, TrapModel> {
    match frame.get(a) {
        Err(e) => Err(e),
        Ok(x) => match DataValue::spec_make_int(imm, func.dfg.value_type(r)) {
            Err(e) => Err(TrapModel::Value(e)),
            Ok(i) => match DataValue::spec_binary(op, i, x) {
                Err(e) => Err(TrapModel::Value(e)),
                Ok(c) => define(frame, r, c),
            },
        },
    }
}

/// The frame after `r` was defined as the immediate `imm`, cast to the type
/// of `r`.
pub open spec fn iconst(func: FunctionModel, frame: FrameModel, imm: i64, r: ValueRef) -> Result<
    FrameModel,
    TrapModel,
> {
    match DataValue::spec_make_int(imm, func.dfg.value_type(r)) {
        Err(e) => Err(TrapModel::Value(e)),
        Ok(i) => define(frame, r, i),
    }
}

/// The frame after `r` was defined as the boolean `imm`.
pub open spec fn bconst(frame: FrameModel, imm: bool, r: ValueRef) -> Result<
    FrameModel,
    TrapModel,
> {
    define(frame, r, DataValue::B(imm))
}

/// Whether a value lets a `brnz` branch: a true boolean or an integer that
/// is not zero does, a false boolean or a zero does not, and anything else
/// has no answer.
pub open spec fn is_nonzero(x: DataValue) -> Option<bool> {
    match x {
        DataValue::B(b) => Some(b),
        DataValue::I8(n) => Some(n != 0),
        DataValue::I16(n) => Some(n != 0),
        DataValue::I32(n) => Some(n != 0),
        DataValue::I64(n) => Some(n != 0),
        _ => None,
    }
}

/// Whether the integer `x` stands in the relation `cond` to the immediate
/// `imm`, cast to the type of `x`; `None` where `x` is no integer.
pub open spec fn compare_imm(cond: IntCC, x: DataValue, imm: i64) -> Option<bool> {
    match x.spec_int() {
        None => None,
        Some(a) => {
            let b = crate::data_value::spec_int_of(imm, x.spec_ty()).unwrap().spec_int().unwrap();
            let ua = spec_unsigned(a, x.spec_ty());
            let ub = spec_unsigned(b, x.spec_ty());
            Some(
                match cond {
                    IntCC::Equal => a == b,
                    IntCC::NotEqual => a != b,
                    IntCC::SignedLessThan => a < b,
                    IntCC::SignedGreaterThanOrEqual => a >= b,
                    IntCC::SignedGreaterThan => a > b,
                    IntCC::SignedLessThanOrEqual => a <= b,
                    IntCC::UnsignedLessThan => ua < ub,
                    IntCC::UnsignedGreaterThanOrEqual => ua >= ub,
                    IntCC::UnsignedGreaterThan => ua > ub,
                    IntCC::UnsignedLessThanOrEqual => ua <= ub,
                },
            )
        },
    }
}

/// The operation of a binary opcode.
pub open spec fn binary_op_of(opcode: Opcode) -> Option<BinaryOp> {
    match opcode {
        Opcode::Iadd => Some(BinaryOp::Add),
        Opcode::Isub => Some(BinaryOp::Sub),
        Opcode::Imul => Some(BinaryOp::Mul),
        Opcode::Sdiv => Some(BinaryOp::Div),
        Opcode::Srem => Some(BinaryOp::Rem),
        Opcode::Band => Some(BinaryOp::And),
        Opcode::Bor => Some(BinaryOp::Or),
        Opcode::Bxor => Some(BinaryOp::Xor),
        Opcode::Ishl => Some(BinaryOp::Shl),
        Opcode::Ushr => Some(BinaryOp::Ushr),
        Opcode::Sshr => Some(BinaryOp::Ishr),
        Opcode::Rotl => Some(BinaryOp::Rotl),
        Opcode::Rotr => Some(BinaryOp::Rotr),
        _ => None,
    }
}

/// What the instruction `inst` of `func` computes on the frame of its call,
/// and what it asks of its block. Calls and trace markers are not of this
/// kind: they change the machine, see [`MachineModel::inst`].
pub open spec fn exec_inst(func: FunctionModel, frame: FrameModel, inst: Inst) -> Result<
    (FrameModel, ControlFlowModel),
    TrapModel,
> {
    let data = func.dfg.insts[inst.idx()];
    match data {
        InstructionData::Binary { opcode, a, b } => match binary_op_of(opcode) {
            None => Err(TrapModel::Unimplemented(opcode)),
            Some(op) => match first_result(func, inst) {
                Err(e) => Err(e),
                Ok(r) => match binary(frame, op, a, b, r) {
                    Err(e) => Err(e),
                    Ok(f) => Ok((f, ControlFlowModel::Continue)),
                },
            },
        },
        InstructionData::BinaryImm { opcode: Opcode::IrsubImm, arg, imm } => match first_result(
            func,
            inst,
        ) {
            Err(e) => Err(e),
            Ok(r) => match binary_imm(func, frame, BinaryOp::Sub, imm, arg, r) {
                Err(e) => Err(e),
                Ok(f) => Ok((f, ControlFlowModel::Continue)),
            },
        },
        InstructionData::UnaryImm { opcode: Opcode::Iconst, imm } => match first_result(
            func,
            inst,
        ) {
            Err(e) => Err(e),
            Ok(r) => match iconst(func, frame, imm, r) {
                Err(e) => Err(e),
                Ok(f) => Ok((f, ControlFlowModel::Continue)),
            },
        },
        InstructionData::UnaryBool { opcode: Opcode::Bconst, imm } => match first_result(
            func,
            inst,
        ) {
            Err(e) => Err(e),
            Ok(r) => match bconst(frame, imm, r) {
                Err(e) => Err(e),
                Ok(f) => Ok((f, ControlFlowModel::Continue)),
            },
        },
        InstructionData::NullAry { opcode: Opcode::Nop } => Ok((frame, ControlFlowModel::Continue)),
        InstructionData::Branch { opcode: Opcode::Brnz, args, destination } => {
            let vals = func.dfg.list_values(args);
            if vals.len() == 0 {
                Err(TrapModel::InvalidControlFlow(no_condition_text()))
            } else {
                match frame.get(vals[0]) {
                    Err(e) => Err(e),
                    Ok(x) => match is_nonzero(x) {
                        None => Err(TrapModel::InvalidType(boolean_or_integer_text(), vals[0])),
                        Some(false) => Ok((frame, ControlFlowModel::Continue)),
                        Some(true) => Ok(
                            (frame, ControlFlowModel::ContinueAt(destination, vals.drop_first())),
                        ),
                    },
                }
            }
        },
        InstructionData::Jump { opcode, args, destination } => if opcode == Opcode::Jump || opcode
            == Opcode::Fallthrough {
            Ok((frame, ControlFlowModel::ContinueAt(destination, func.dfg.list_values(args))))
        } else {
            Err(TrapModel::Unimplemented(opcode))
        },
        InstructionData::IntCompareImm { opcode: Opcode::IcmpImm, arg, cond, imm } => {
            match frame.get(arg) {
                Err(e) => Err(e),
                Ok(x) => match compare_imm(cond, x, imm) {
                    None => Err(TrapModel::InvalidType(integer_text(), arg)),
                    Some(c) => match first_result(func, inst) {
                        Err(e) => Err(e),
                        Ok(r) => match define(frame, r, DataValue::B(c)) {
                            Err(e) => Err(e),
                            Ok(f) => Ok((f, ControlFlowModel::Continue)),
                        },
                    },
                },
            }
        },
        InstructionData::MultiAry { opcode: Opcode::Return, args } => {
            match frame.get_all(func.dfg.list_values(args)) {
                Err(e) => Err(e),
                Ok(vals) => Ok((frame, ControlFlowModel::Return(vals))),
            }
        },
        _ => Err(TrapModel::Unimplemented(data.spec_opcode())),
    }
}

/// The stack depth that the trace records count from: that of the stack, or
/// one while no call is under way.
pub open spec fn depth_of(n: nat) -> int {
    if n == 0 {
        1
    } else {
        n as int
    }
}

impl ActivationModel {
    /// Whether the activation fits the environment: its function is there,
    /// its frame has a place for each of the function's values, and its
    /// block is one of the function.
    pub open spec fn wf(self, env: EnvModel) -> bool {
        &&& env.has(self.frame.func_ref)
        &&& self.frame.registers.len() == env.function(self.frame.func_ref).dfg.values.len()
        &&& env.function(self.frame.func_ref).dfg.block_valid(self.block)
    }
}

impl MachineModel {
    /// The innermost activation.
    pub open spec fn top(self) -> ActivationModel {
        self.stack.last()
    }

    /// The function of the innermost activation.
    pub open spec fn function(self) -> FunctionModel {
        self.env.function(self.top().frame.func_ref)
    }

    /// The instructions of the block that is being run.
    pub open spec fn insts(self) -> Seq<Inst> {
        self.function().layout.block_insts(self.top().block)
    }

    /// The machine with another innermost activation in place of the
    /// present one.
    pub open spec fn with_top(self, a: ActivationModel) -> MachineModel {
        MachineModel { stack: self.stack.drop_last().push(a), ..self }
    }

    /// The machine after the innermost activation went on to its next
    /// instruction with the frame `frame`.
    pub open spec fn advance(self, frame: FrameModel) -> MachineModel {
        self.with_top(ActivationModel { frame, position: self.top().position + 1, ..self.top() })
    }

    /// The lowest depth of a recorded return, after a return to the stack as
    /// it is now was recorded.
    pub open spec fn floor_after_return(self) -> nat {
        if self.trace.tracing is Some && self.stack.len() < self.trace_floor {
            self.stack.len()
        } else {
            self.trace_floor
        }
    }

    /// The machine after it gave up: no call is under way, nothing is
    /// waited for, and tracing is off.
    pub open spec fn halt(self) -> MachineModel {
        MachineModel {
            stack: Seq::empty(),
            pending: Pending::Nothing,
            trace: self.trace.end(),
            ..self
        }
    }

    /// While a trace that holds nothing but what was recorded since tracing
    /// was turned on is being recorded, it has entered as many more
    /// functions than it has left as the stack is deeper now than it was
    /// then; and its lowest balance is as far below zero as the stack got
    /// below that depth.
    pub open spec fn trace_balanced(self) -> bool {
        (self.trace.tracing is Some && self.trace.observed.len() > 0
            && self.trace.observed[0] is StartInFunction && count_starts(self.trace.observed) == 1)
            ==> {
            &&& balance(self.trace.observed) == depth_of(self.stack.len()) - self.trace_depth
            &&& self.trace_floor <= self.trace_depth
            &&& self.trace_floor <= depth_of(self.stack.len())
            &&& lowest(self.trace.observed) == self.trace_floor - self.trace_depth
        }
    }

    /// The invariant of the interpreter.
    pub open spec fn wf(self) -> bool {
        &&& self.env.wf()
        &&& forall|i: int| 0 <= i < self.stack.len() ==> (#[trigger] self.stack[i]).wf(self.env)
        &&& self.pending != Pending::Nothing ==> self.stack.len() > 0 && self.top().position
            < self.insts().len()
        &&& self.pending matches Pending::Execute(id) ==> self.store.contains_key(id)
        &&& self.trace_balanced()
    }

    /// No call is under way and nothing is waited for.
    pub open spec fn is_idle(self) -> bool {
        self.stack.len() == 0 && self.pending == Pending::Nothing
    }

    /// The machine after a call of `f` with `args` was entered, or why it
    /// could not be: the callee's frame holds the arguments as the
    /// parameters of its first block, where it starts.
    pub open spec fn enter(self, f: FuncRef, args: Seq<DataValue>) -> Result<
        MachineModel,
        TrapModel,
    > {
        if !self.env.has(f) {
            Err(TrapModel::InvalidFunctionReference(f))
        } else {
            let callee = self.env.function(f);
            match callee.layout.entry_block() {
                None => Err(TrapModel::Unreachable),
                Some(entry) => match FrameModel::fresh(f, callee.dfg.values.len()).set_all(
                    callee.dfg.params_of(entry),
                    args,
                ) {
                    Err(e) => Err(e),
                    Ok(frame) => Ok(
                        MachineModel {
                            stack: self.stack.push(
                                ActivationModel { frame, block: entry, position: 0 },
                            ),
                            ..self
                        },
                    ),
                },
            }
        }
    }

    /// A step on a call instruction: the callee, found by its name, is
    /// entered with what the arguments hold, and the entry is recorded.
    pub open spec fn step_call(self, inst: Inst) -> StepModel {
        let func = self.function();
        match func.dfg.insts[inst.idx()] {
            InstructionData::Call { args, func_ref, .. } => {
                let name = func.dfg.ext_funcs[func_ref.idx()];
                match self.env.index_of(name) {
                    None => StepModel::Trapped(self.halt(), TrapModel::InvalidFunctionName(name)),
                    Some(callee) => match self.top().frame.get_all(func.dfg.list_values(args)) {
                        Err(e) => StepModel::Trapped(self.halt(), e),
                        Ok(vals) => match self.enter(callee, vals) {
                            Err(e) => StepModel::Trapped(self.halt(), e),
                            Ok(m) => StepModel::Running(
                                MachineModel {
                                    trace: m.trace.observe(TracedInstruction::EnterFunction(callee)),
                                    ..m
                                },
                            ),
                        },
                    },
                }
            },
            _ => StepModel::Trapped(self.halt(), TrapModel::Unknown),
        }
    }

    /// A step on a `trace_start`: where code was compiled for the id, the
    /// driver is asked to run it on what the arguments hold; else tracing is
    /// turned on. A trace with live-in arguments is refused, and so is a
    /// compiled trace with more than one result.
    pub open spec fn step_trace_start(self, inst: Inst) -> StepModel {
        let func = self.function();
        match func.dfg.insts[inst.idx()] {
            InstructionData::MultiAryImm { imm, args, .. } => {
                if self.store.contains_key(imm) {
                    if func.dfg.inst_results(inst).len() > 1 {
                        StepModel::Trapped(self.halt(), TrapModel::Unimplemented(Opcode::TraceStart))
                    } else {
                        match self.top().frame.get_all(func.dfg.list_values(args)) {
                            Err(e) => StepModel::Trapped(self.halt(), e),
                            Ok(vals) => StepModel::Request(
                                MachineModel { pending: Pending::Execute(imm), ..self },
                                RequestModel::Execute { id: imm, code: self.store[imm], args: vals },
                            ),
                        }
                    }
                } else if args.len > 0 {
                    StepModel::Trapped(self.halt(), TrapModel::Unimplemented(Opcode::TraceStart))
                } else if self.trace.tracing is Some {
                    StepModel::Trapped(
                        self.halt(),
                        TrapModel::InvalidControlFlow(already_tracing_text()),
                    )
                } else {
                    StepModel::Running(
                        MachineModel {
                            trace: self.trace.start(imm, self.top().frame.func_ref),
                            trace_depth: self.stack.len(),
                            trace_floor: self.stack.len(),
                            ..self
                        }.advance(self.top().frame),
                    )
                }
            },
            _ => StepModel::Trapped(self.halt(), TrapModel::Unknown),
        }
    }

    /// A step on a `trace_end`: tracing is turned off, the record of the
    /// `trace_end` itself is dropped, and the driver is asked to compile the
    /// function that the trace is reconstructed into.
    pub open spec fn step_trace_end(self) -> StepModel {
        match self.trace.tracing {
            None => StepModel::Trapped(
                self.halt(),
                TrapModel::InvalidControlFlow(not_tracing_text()),
            ),
            Some(id) => {
                let trace = self.trace.end().remove_last();
                match spec_build(self.env, trace.observed, self.call_conv) {
                    None => StepModel::Trapped(
                        MachineModel { trace, ..self }.halt(),
                        TrapModel::TraceError(TraceErrorModel::CompilationFailed(bad_trace_text())),
                    ),
                    Some(function) => StepModel::Request(
                        MachineModel { trace, pending: Pending::Compile(id), ..self },
                        RequestModel::Compile { id, function },
                    ),
                }
            },
        }
    }

    /// A step on any other instruction: it changes the frame, and the
    /// machine goes on with the next instruction, enters a block, or
    /// returns to the caller, whose call instruction gets the returned
    /// values as its results.
    pub open spec fn step_plain(self, inst: Inst) -> StepModel {
        let func = self.function();
        match exec_inst(func, self.top().frame, inst) {
            Err(e) => StepModel::Trapped(self.halt(), e),
            Ok((frame, ControlFlowModel::Continue)) => StepModel::Running(self.advance(frame)),
            Ok((frame, ControlFlowModel::ContinueAt(block, args))) => {
                let params = func.dfg.params_of(block);
                if args.len() != params.len() {
                    StepModel::Trapped(self.halt(), TrapModel::InvalidControlFlow(arity_text()))
                } else {
                    StepModel::Running(
                        self.with_top(
                            ActivationModel {
                                frame: frame.rename(args, params),
                                block,
                                position: 0,
                            },
                        ),
                    )
                }
            },
            Ok((_, ControlFlowModel::Return(vals))) => {
                let below = MachineModel { stack: self.stack.drop_last(), ..self };
                if below.stack.len() == 0 {
                    StepModel::Returned(below, vals)
                } else {
                    let m = MachineModel {
                        trace: below.trace.observe(TracedInstruction::ExitFunction),
                        trace_floor: below.floor_after_return(),
                        ..below
                    };
                    if m.top().position >= m.insts().len() {
                        StepModel::Trapped(m.halt(), TrapModel::Unreachable)
                    } else {
                        let call = m.insts()[m.top().position as int];
                        match m.top().frame.set_all(m.function().dfg.inst_results(call), vals) {
                            Err(e) => StepModel::Trapped(m.halt(), e),
                            Ok(frame) => StepModel::Running(m.advance(frame)),
                        }
                    }
                }
            },
        }
    }

    /// What the instruction `inst` of the function of the innermost
    /// activation does to the machine: it is recorded, if tracing is on, and
    /// run, whatever its family. A call enters the callee, whose return
    /// binds the results of the call; a `trace_start` asks for the compiled
    /// code to be run or turns tracing on; a `trace_end` asks for the trace
    /// to be compiled; any other instruction computes on the frame.
    pub open spec fn inst(self, inst: Inst) -> StepModel {
        let m = MachineModel {
            trace: self.trace.observe(TracedInstruction::Instruction(inst)),
            ..self
        };
        match self.function().dfg.insts[inst.idx()] {
            InstructionData::Call { .. } => m.step_call(inst),
            InstructionData::MultiAryImm { opcode: Opcode::TraceStart, .. } => {
                m.step_trace_start(inst)
            },
            InstructionData::UnaryImm { opcode: Opcode::TraceEnd, .. } => m.step_trace_end(),
            _ => m.step_plain(inst),
        }
    }

    /// One step of a machine that has a call under way and waits for
    /// nothing: the instruction at the position of the innermost activation
    /// is run; see [`inst`](Self::inst). A block that ends without having
    /// left is a trap.
    pub open spec fn step(self) -> StepModel {
        if self.top().position >= self.insts().len() {
            StepModel::Trapped(self.halt(), TrapModel::Unreachable)
        } else {
            self.inst(self.insts()[self.top().position as int])
        }
    }

    /// A run of at most `fuel` steps.
    pub open spec fn run(self, fuel: nat) -> RunModel
        decreases fuel,
    {
        if fuel == 0 {
            RunModel::OutOfSteps(self)
        } else {
            match self.step() {
                StepModel::Running(m) => m.run((fuel - 1) as nat),
                StepModel::Returned(m, vals) => RunModel::Returned(m, vals),
                StepModel::Request(m, r) => RunModel::Request(m, r),
                StepModel::Trapped(m, t) => RunModel::Trapped(m, t),
            }
        }
    }

    /// The machine after the driver's reply to a request to compile: the
    /// code is stored under the id of the trace and the machine goes on
    /// behind the `trace_end`; a failure of the driver is a trap.
    pub open spec fn compiled(self, outcome: Result<CompiledCode, Seq<char>>) -> Result<
        MachineModel,
        (MachineModel, TrapModel),
    > {
        match self.pending {
            Pending::Compile(id) => match outcome {
                Ok(code) => Ok(
                    MachineModel {
                        store: self.store.insert(id, code),
                        pending: Pending::Nothing,
                        ..self
                    }.advance(self.top().frame),
                ),
                Err(m) => Err(
                    (
                        self.halt(),
                        TrapModel::TraceError(TraceErrorModel::CompilationFailed(m)),
                    ),
                ),
            },
            _ => Err((self.halt(), TrapModel::Unknown)),
        }
    }

    /// The machine after the driver's reply to a request to run compiled
    /// code: the `trace_start`, if it has a result, gets the value, and the
    /// machine goes on behind it; a failure of the driver is a trap.
    pub open spec fn executed(self, outcome: Result<DataValue, Seq<char>>) -> Result<
        MachineModel,
        (MachineModel, TrapModel),
    > {
        match self.pending {
            Pending::Execute(id) => match outcome {
                Ok(v) => {
                    let inst = self.insts()[self.top().position as int];
                    let results = self.function().dfg.inst_results(inst);
                    let m = MachineModel { pending: Pending::Nothing, ..self };
                    if results.len() == 0 {
                        Ok(m.advance(self.top().frame))
                    } else {
                        match define(self.top().frame, results[0], v) {
                            Err(e) => Err((self.halt(), e)),
                            Ok(frame) => Ok(m.advance(frame)),
                        }
                    }
                },
                Err(m) => Err(
                    (self.halt(), TrapModel::TraceError(TraceErrorModel::ExecutionFailed(m))),
                ),
            },
            _ => Err((self.halt(), TrapModel::Unknown)),
        }
    }
}

/// The machine of a run's end.
pub open spec fn machine_of(r: RunModel) -> MachineModel {
    match r {
        RunModel::Returned(m, _) => m,
        RunModel::Request(m, _) => m,
        RunModel::Trapped(m, _) => m,
        RunModel::OutOfSteps(m) => m,
    }
}

/// A trace that begins with the record of a start holds at least one.
pub proof fn lemma_first_start_counts(s: Seq<TracedInstruction>)
    requires
        s.len() > 0,
        s[0] is StartInFunction,
    ensures
        count_starts(s) >= 1,
    decreases s.len(),
{
    if s.len() > 1 {
        lemma_first_start_counts(s.drop_last());
    } else {
        assert(s.drop_last().len() == 0);
    }
}

/// What an instruction does to a frame keeps the frame's size and function,
/// and a block that it asks for is one of the function.
pub proof fn lemma_exec_inst_keeps_frame(func: FunctionModel, frame: FrameModel, inst: Inst)
    requires
        func.wf(),
        func.dfg.inst_valid(inst),
    ensures
        exec_inst(func, frame, inst) matches Ok((f, cf)) ==> f.registers.len()
            == frame.registers.len() && f.func_ref == frame.func_ref && (cf matches ControlFlowModel::ContinueAt(
            b,
            _,
        ) ==> func.dfg.block_valid(b)),
{
    assert(func.dfg.data_wf(func.dfg.insts[inst.idx()]));
}

impl MachineModel {
    pub proof fn lemma_halt_wf(self)
        requires
            self.env.wf(),
        ensures
            self.halt().wf(),
            self.halt().is_idle(),
    {
    }

    /// Recording an instruction keeps the balance of the trace.
    pub proof fn lemma_observe_keeps_balance(self, inst: Inst)
        requires
            self.trace_balanced(),
        ensures
            (MachineModel {
                trace: self.trace.observe(TracedInstruction::Instruction(inst)),
                ..self
            }).trace_balanced(),
    {
        lemma_counts_push(self.trace.observed, TracedInstruction::Instruction(inst));
        lemma_lowest_push(self.trace.observed, TracedInstruction::Instruction(inst));
    }

    /// Going on to the next instruction keeps the invariant.
    pub proof fn lemma_advance_wf(self, frame: FrameModel)
        requires
            self.wf(),
            self.stack.len() > 0,
            self.pending == Pending::Nothing,
            frame.registers.len() == self.top().frame.registers.len(),
            frame.func_ref == self.top().frame.func_ref,
        ensures
            self.advance(frame).wf(),
            self.advance(frame).stack.len() == self.stack.len(),
    {
        let after = self.advance(frame);
        assert(self.stack[self.stack.len() - 1].wf(self.env));
        assert forall|i: int| 0 <= i < after.stack.len() implies (#[trigger] after.stack[i]).wf(
            after.env,
        ) by {
            if i < self.stack.len() - 1 {
                assert(self.stack[i].wf(self.env));
            }
        }
    }

    /// Entering a block keeps the invariant.
    pub proof fn lemma_with_top_wf(self, a: ActivationModel)
        requires
            self.wf(),
            self.stack.len() > 0,
            self.pending == Pending::Nothing,
            a.wf(self.env),
        ensures
            self.with_top(a).wf(),
            self.with_top(a).stack.len() == self.stack.len(),
    {
        let after = self.with_top(a);
        assert forall|i: int| 0 <= i < after.stack.len() implies (#[trigger] after.stack[i]).wf(
            after.env,
        ) by {
            if i < self.stack.len() - 1 {
                assert(self.stack[i].wf(self.env));
            }
        }
    }

    /// Entering a call keeps the invariant but for the balance of the
    /// trace, which the record of the entry restores.
    pub proof fn lemma_enter_wf(self, f: FuncRef, args: Seq<DataValue>)
        requires
            self.wf(),
            self.pending == Pending::Nothing,
        ensures
            self.enter(f, args) matches Ok(m) ==> {
                &&& m.stack.len() == self.stack.len() + 1
                &&& m.trace == self.trace
                &&& m.pending == Pending::Nothing
                &&& forall|i: int| 0 <= i < m.stack.len() ==> (#[trigger] m.stack[i]).wf(m.env)
                &&& (self.stack.len() == 0 ==> m.wf())
                &&& (self.stack.len() > 0 ==> (MachineModel {
                    trace: m.trace.observe(TracedInstruction::EnterFunction(f)),
                    ..m
                }).wf())
            },
    {
        match self.enter(f, args) {
            Ok(m) => {
                let callee = self.env.function(f);
                let entry = callee.layout.entry_block().unwrap();
                assert(callee.wf());
                assert(callee.dfg.block_valid(callee.layout.blocks[0]));
                FrameModel::fresh(f, callee.dfg.values.len()).lemma_set_all_len(
                    callee.dfg.params_of(entry),
                    args,
                );
                assert forall|i: int| 0 <= i < m.stack.len() implies (#[trigger] m.stack[i]).wf(
                    m.env,
                ) by {
                    if i < self.stack.len() {
                        assert(self.stack[i].wf(self.env));
                    }
                }
                lemma_counts_push(self.trace.observed, TracedInstruction::EnterFunction(f));
                lemma_lowest_push(self.trace.observed, TracedInstruction::EnterFunction(f));
            },
            Err(_) => {},
        }
    }

    /// A step keeps the invariant of the interpreter.
    pub proof fn lemma_step_wf(self)
        requires
            self.wf(),
            self.stack.len() > 0,
            self.pending == Pending::Nothing,
        ensures
            match self.step() {
                StepModel::Running(m) => m.wf() && m.stack.len() > 0 && m.pending
                    == Pending::Nothing,
                StepModel::Returned(m, _) => m.wf() && m.is_idle(),
                StepModel::Request(m, _) => m.wf() && m.pending != Pending::Nothing,
                StepModel::Trapped(m, _) => m.wf() && m.is_idle(),
            },
            self.step() matches StepModel::Request(m, RequestModel::Compile { id, function })
                ==> m.pending == Pending::Compile(id),
            self.step() matches StepModel::Request(m, RequestModel::Execute { id, .. })
                ==> m.pending == Pending::Execute(id),
            machine_of_step(self.step()).env == self.env,
            machine_of_step(self.step()).call_conv == self.call_conv,
    {
        self.lemma_halt_wf();
        if self.top().position < self.insts().len() {
            let inst = self.insts()[self.top().position as int];
            let m = MachineModel {
                trace: self.trace.observe(TracedInstruction::Instruction(inst)),
                ..self
            };
            self.lemma_observe_keeps_balance(inst);
            m.lemma_halt_wf();
            assert(self.stack[self.stack.len() - 1].wf(self.env));
            let func = self.function();
            assert(func.wf());
            assert(func.layout.inst_ok(func.dfg, self.top().block.idx(), self.top().position as int));
            assert(func.dfg.data_wf(func.dfg.insts[inst.idx()]));
            assert(m.wf());
            match func.dfg.insts[inst.idx()] {
                InstructionData::Call { args, func_ref, .. } => {
                    let name = func.dfg.ext_funcs[func_ref.idx()];
                    match m.env.index_of(name) {
                        None => {},
                        Some(callee) => match m.top().frame.get_all(func.dfg.list_values(args)) {
                            Err(e) => {},
                            Ok(vals) => {
                                m.lemma_enter_wf(callee, vals);
                            },
                        },
                    }
                },
                InstructionData::MultiAryImm { opcode: Opcode::TraceStart, imm, args } => {
                    if !m.store.contains_key(imm) && args.len == 0 && m.trace.tracing is None {
                        let started = MachineModel {
                            trace: m.trace.start(imm, m.top().frame.func_ref),
                            trace_depth: m.stack.len(),
                            trace_floor: m.stack.len(),
                            ..m
                        };
                        lemma_counts_push(
                            m.trace.observed,
                            TracedInstruction::StartInFunction(m.top().frame.func_ref),
                        );
                        if m.trace.observed.len() > 0 && m.trace.observed[0] is StartInFunction {
                            lemma_first_start_counts(m.trace.observed);
                        }
                        if m.trace.observed.len() == 0 {
                            assert(started.trace.observed.drop_last() =~= m.trace.observed);
                            assert(count_starts(started.trace.observed) == 1);
                            lemma_lowest_push(
                                m.trace.observed,
                                TracedInstruction::StartInFunction(m.top().frame.func_ref),
                            );
                            assert(crate::trace::count_enters(started.trace.observed) == 0);
                            assert(crate::trace::count_exits(started.trace.observed) == 0);
                        }
                        assert(started.wf());
                        started.lemma_advance_wf(m.top().frame);
                    }
                },
                InstructionData::UnaryImm { opcode: Opcode::TraceEnd, .. } => {
                    match m.trace.tracing {
                        None => {},
                        Some(id) => {
                            let trace = m.trace.end().remove_last();
                            (MachineModel { trace, ..m }).lemma_halt_wf();
                        },
                    }
                },
                _ => {
                    m.lemma_step_plain_wf(inst);
                },
            }
        }
    }

    /// A step on an instruction that is neither a call nor a trace marker
    /// keeps the invariant.
    pub proof fn lemma_step_plain_wf(self, inst: Inst)
        requires
            self.wf(),
            self.stack.len() > 0,
            self.pending == Pending::Nothing,
            self.function().dfg.inst_valid(inst),
        ensures
            match self.step_plain(inst) {
                StepModel::Running(m) => m.wf() && m.stack.len() > 0 && m.pending
                    == Pending::Nothing,
                StepModel::Returned(m, _) => m.wf() && m.is_idle(),
                StepModel::Request(m, _) => false,
                StepModel::Trapped(m, _) => m.wf() && m.is_idle(),
            },
            machine_of_step(self.step_plain(inst)).env == self.env,
            machine_of_step(self.step_plain(inst)).call_conv == self.call_conv,
    {
        self.lemma_halt_wf();
        let func = self.function();
        assert(self.stack[self.stack.len() - 1].wf(self.env));
        assert(func.wf());
        lemma_exec_inst_keeps_frame(func, self.top().frame, inst);
        match exec_inst(func, self.top().frame, inst) {
            Err(e) => {},
            Ok((frame, ControlFlowModel::Continue)) => {
                self.lemma_advance_wf(frame);
            },
            Ok((frame, ControlFlowModel::ContinueAt(block, args))) => {
                let params = func.dfg.params_of(block);
                if args.len() == params.len() {
                    frame.lemma_renamed_len(args, params, args.len() as int);
                    self.lemma_with_top_wf(
                        ActivationModel { frame: frame.rename(args, params), block, position: 0 },
                    );
                }
            },
            Ok((_, ControlFlowModel::Return(vals))) => {
                let below = MachineModel { stack: self.stack.drop_last(), ..self };
                assert forall|i: int| 0 <= i < below.stack.len() implies (
                #[trigger] below.stack[i]).wf(below.env) by {
                    assert(self.stack[i].wf(self.env));
                }
                if below.stack.len() > 0 {
                    let m = MachineModel {
                        trace: below.trace.observe(TracedInstruction::ExitFunction),
                        trace_floor: below.floor_after_return(),
                        ..below
                    };
                    lemma_counts_push(below.trace.observed, TracedInstruction::ExitFunction);
                    lemma_lowest_push(below.trace.observed, TracedInstruction::ExitFunction);
                    assert(m.wf());
                    m.lemma_halt_wf();
                    if m.top().position < m.insts().len() {
                        let call = m.insts()[m.top().position as int];
                        match m.top().frame.set_all(m.function().dfg.inst_results(call), vals) {
                            Err(e) => {},
                            Ok(frame) => {
                                m.top().frame.lemma_set_all_len(
                                    m.function().dfg.inst_results(call),
                                    vals,
                                );
                                m.lemma_advance_wf(frame);
                            },
                        }
                    }
                } else {
                    assert(below.wf());
                }
            },
        }
    }

    /// A run keeps the invariant of the interpreter, and ends idle unless it
    /// ends in a request or for want of steps.
    pub proof fn lemma_run_wf(self, fuel: nat)
        requires
            self.wf(),
            self.stack.len() > 0,
            self.pending == Pending::Nothing,
        ensures
            machine_of(self.run(fuel)).wf(),
            machine_of(self.run(fuel)).env == self.env,
            machine_of(self.run(fuel)).call_conv == self.call_conv,
            match self.run(fuel) {
                RunModel::Returned(m, _) => m.is_idle(),
                RunModel::Trapped(m, _) => m.is_idle(),
                RunModel::Request(m, _) => m.pending != Pending::Nothing,
                RunModel::OutOfSteps(m) => m.stack.len() > 0 && m.pending == Pending::Nothing,
            },
        decreases fuel,
    {
        if fuel > 0 {
            self.lemma_step_wf();
            match self.step() {
                StepModel::Running(m) => {
                    m.lemma_run_wf((fuel - 1) as nat);
                },
                _ => {},
            }
        }
    }

    /// Interpretation is deterministic: a run that ends within `fuel` steps
    /// ends in the same way, in the same state and with the same values,
    /// whatever larger number of steps it is given.
    pub proof fn lemma_run_deterministic(self, fuel: nat, more: nat)
        requires
            fuel <= more,
            !(self.run(fuel) is OutOfSteps),
        ensures
            self.run(more) == self.run(fuel),
        decreases fuel,
    {
        if fuel > 0 {
            match self.step() {
                StepModel::Running(m) => {
                    m.lemma_run_deterministic((fuel - 1) as nat, (more - 1) as nat);
                },
                _ => {},
            }
        }
    }

    /// A trace that was started on an empty record and is ended at the
    /// depth of the stack at which it was started has entered as many
    /// functions as it has left, and holds the record of one start.
    pub proof fn lemma_trace_balanced_at_end(self)
        requires
            self.wf(),
            self.trace.tracing is Some,
            self.trace.observed.len() > 0,
            self.trace.observed[0] is StartInFunction,
            count_starts(self.trace.observed) == 1,
            depth_of(self.stack.len()) == self.trace_depth,
        ensures
            balance(self.trace.observed) == 0,
            crate::trace::count_enters(self.trace.observed) == crate::trace::count_exits(
                self.trace.observed,
            ),
    {
    }

    /// In a trace that was started on an empty record, as long as no
    /// recorded return has left the stack lower than it was when tracing
    /// was turned on, no beginning of the record has left more functions
    /// than it has entered.
    pub proof fn lemma_trace_never_below(self, k: int)
        requires
            self.wf(),
            self.trace.tracing is Some,
            self.trace.observed.len() > 0,
            self.trace.observed[0] is StartInFunction,
            count_starts(self.trace.observed) == 1,
            self.trace_floor == self.trace_depth,
            0 <= k <= self.trace.observed.len(),
        ensures
            crate::trace::count_exits(self.trace.observed.subrange(0, k))
                <= crate::trace::count_enters(self.trace.observed.subrange(0, k)),
    {
        lemma_lowest_bounds_prefixes(self.trace.observed, k);
    }
}

/// What a call of the function `f` with `args` gives on a machine without a
/// native runner, within `fuel` steps: the machine after it, and the values
/// returned or the trap. A machine that is not idle refuses the call; a
/// request to the driver fails for want of a runner; steps used up are a
/// trap.
pub open spec fn spec_call(m: MachineModel, f: FuncRef, args: Seq<DataValue>, fuel: nat) -> (
    MachineModel,
    Result<Seq<DataValue>, TrapModel>,
) {
    if !m.is_idle() {
        (m, Err(TrapModel::InvalidControlFlow(crate::trap::pending_text())))
    } else {
        match m.enter(f, args) {
            Err(e) => (m.halt(), Err(e)),
            Ok(m1) => match m1.run(fuel) {
                RunModel::Returned(m2, vals) => (m2, Ok(vals)),
                RunModel::Trapped(m2, t) => (m2, Err(t)),
                RunModel::Request(m2, RequestModel::Compile { .. }) => (
                    m2.halt(),
                    Err(
                        TrapModel::TraceError(
                            TraceErrorModel::CompilationFailed(crate::trap::no_runner_text()),
                        ),
                    ),
                ),
                RunModel::Request(m2, RequestModel::Execute { .. }) => (
                    m2.halt(),
                    Err(
                        TrapModel::TraceError(
                            TraceErrorModel::ExecutionFailed(crate::trap::no_runner_text()),
                        ),
                    ),
                ),
                RunModel::OutOfSteps(m2) => (m2.halt(), Err(TrapModel::StepLimit)),
            },
        }
    }
}

/// What a call of the function of the given name gives; see [`spec_call`].
pub open spec fn spec_call_by_name(m: MachineModel, name: Seq<char>, args: Seq<DataValue>, fuel: nat) -> (
    MachineModel,
    Result<Seq<DataValue>, TrapModel>,
) {
    match m.env.index_of(name) {
        None => (m, Err(TrapModel::InvalidFunctionName(name))),
        Some(f) => spec_call(m, f, args, fuel),
    }
}

/// Interpretation is deterministic: a call that ends within `fuel` steps
/// gives the same values, or the same trap, and leaves the same machine,
/// whatever larger number of steps it is given.
pub proof fn lemma_call_deterministic(
    m: MachineModel,
    f: FuncRef,
    args: Seq<DataValue>,
    fuel: nat,
    more: nat,
)
    requires
        fuel <= more,
        spec_call(m, f, args, fuel).1 != Err::<Seq<DataValue>, TrapModel>(TrapModel::StepLimit),
    ensures
        spec_call(m, f, args, more) == spec_call(m, f, args, fuel),
{
    if m.is_idle() {
        match m.enter(f, args) {
            Ok(m1) => {
                m1.lemma_run_deterministic(fuel, more);
            },
            Err(_) => {},
        }
    }
}

impl MachineModel {
    /// A `trace_start` that turns tracing on for an empty record leaves the
    /// record of the start as the one record: the `trace_start` itself is
    /// not recorded.
    pub proof fn lemma_trace_start_begins_the_record(self, inst: Inst)
        requires
            self.stack.len() > 0,
            self.function().dfg.insts[inst.idx()] matches InstructionData::MultiAryImm {
                opcode: Opcode::TraceStart,
                imm,
                args,
            } && !self.store.contains_key(imm) && args.len == 0,
            self.trace == TraceModel::empty(),
        ensures
            self.inst(inst) matches StepModel::Running(after) && after.trace.tracing == Some(
                self.function().dfg.insts[inst.idx()]->MultiAryImm_imm,
            ) && after.trace.observed == seq![
                TracedInstruction::StartInFunction(self.top().frame.func_ref),
            ] && after.trace_depth == self.stack.len() && after.trace_floor == self.stack.len()
                && after.stack.len() == self.stack.len(),
    {
        assert(self.trace.observed.push(
            TracedInstruction::StartInFunction(self.top().frame.func_ref),
        ) =~= seq![TracedInstruction::StartInFunction(self.top().frame.func_ref)]);
    }

    /// A `trace_end` hands the record as it stands before the step to the
    /// reconstruction: the `trace_end` itself is not in it. Where the trace
    /// was started on an empty record, the stack is as deep as it was then,
    /// and no recorded return has left it lower, that record begins with
    /// the one record of a start that it holds, has entered as many
    /// functions as it has left, and has at no point left more than it had
    /// entered.
    pub proof fn lemma_trace_end_hands_over(self, inst: Inst, k: int)
        requires
            self.wf(),
            self.stack.len() > 0,
            self.pending == Pending::Nothing,
            self.function().dfg.insts[inst.idx()] matches InstructionData::UnaryImm {
                opcode: Opcode::TraceEnd,
                ..
            },
            self.trace.tracing is Some,
            self.trace.observed.len() > 0,
            self.trace.observed[0] is StartInFunction,
            count_starts(self.trace.observed) == 1,
            depth_of(self.stack.len()) == self.trace_depth,
            self.trace_floor == self.trace_depth,
            0 <= k <= self.trace.observed.len(),
        ensures
            match spec_build(self.env, self.trace.observed, self.call_conv) {
                Some(function) => self.inst(inst) matches StepModel::Request(
                    after,
                    RequestModel::Compile { id, function: g },
                ) && Some(id) == self.trace.tracing && g == function && after.trace.observed
                    == self.trace.observed && after.trace.tracing is None,
                None => self.inst(inst) is Trapped,
            },
            crate::trace::count_enters(self.trace.observed) == crate::trace::count_exits(
                self.trace.observed,
            ),
            crate::trace::count_exits(self.trace.observed.subrange(0, k))
                <= crate::trace::count_enters(self.trace.observed.subrange(0, k)),
    {
        self.lemma_trace_balanced_at_end();
        self.lemma_trace_never_below(k);
        assert(self.trace.observed.push(TracedInstruction::Instruction(inst)).drop_last()
            =~= self.trace.observed);
    }
}

/// What a step keeps of a machine: the environment, the calling convention
/// and the compiled traces; the record of the trace gets no shorter, and it
/// gets longer where tracing is turned on.
pub open spec fn keeps(before: MachineModel, after: MachineModel) -> bool {
    &&& after.env == before.env
    &&& after.call_conv == before.call_conv
    &&& after.store == before.store
    &&& after.trace.observed.len() >= before.trace.observed.len()
    &&& after.trace_depth != before.trace_depth || after.trace_floor != before.trace_floor
        ==> after.trace.observed.len() > before.trace.observed.len()
}

impl MachineModel {
    /// A step keeps what [`keeps`] says.
    pub proof fn lemma_step_keeps(self)
        requires
            self.stack.len() > 0,
        ensures
            keeps(self, machine_of_step(self.step())),
    {
        if self.top().position < self.insts().len() {
            let inst = self.insts()[self.top().position as int];
            let m = MachineModel {
                trace: self.trace.observe(TracedInstruction::Instruction(inst)),
                ..self
            };
            assert(keeps(self, m));
            match self.function().dfg.insts[inst.idx()] {
                InstructionData::Call { .. } => {
                    assert(keeps(m, machine_of_step(m.step_call(inst))));
                },
                InstructionData::MultiAryImm { opcode: Opcode::TraceStart, .. } => {
                    assert(keeps(m, machine_of_step(m.step_trace_start(inst))));
                },
                InstructionData::UnaryImm { opcode: Opcode::TraceEnd, .. } => {
                    // The record of the trace_end itself is dropped again.
                    assert(keeps(self, machine_of_step(m.step_trace_end())));
                },
                _ => {
                    assert(keeps(m, machine_of_step(m.step_plain(inst))));
                },
            }
        }
    }

    /// A run keeps what [`keeps`] says.
    pub proof fn lemma_run_keeps(self, fuel: nat)
        requires
            self.wf(),
            self.stack.len() > 0,
            self.pending == Pending::Nothing,
        ensures
            keeps(self, machine_of(self.run(fuel))),
        decreases fuel,
    {
        if fuel > 0 {
            self.lemma_step_keeps();
            self.lemma_step_wf();
            match self.step() {
                StepModel::Running(m) => {
                    m.lemma_run_keeps((fuel - 1) as nat);
                },
                _ => {},
            }
        }
    }
}

/// Two machines are alike but for what they have recorded: both are
/// tracing, the same trace, and all else but the record is the same.
pub open spec fn alike(a: MachineModel, b: MachineModel) -> bool {
    &&& a.env == b.env
    &&& a.store == b.store
    &&& a.stack == b.stack
    &&& a.pending == b.pending
    &&& a.call_conv == b.call_conv
    &&& a.trace.tracing == b.trace.tracing
    &&& a.trace.tracing is Some
}

impl MachineModel {
    /// A step that goes on, or returns from the outermost call, does the
    /// same on a machine that is alike but for the record, and leaves the
    /// two alike.
    pub proof fn lemma_step_alike(self, other: MachineModel)
        requires
            alike(self, other),
            self.stack.len() > 0,
        ensures
            match self.step() {
                StepModel::Running(a) => other.step() matches StepModel::Running(b) && alike(a, b),
                StepModel::Returned(a, v) => other.step() matches StepModel::Returned(b, w) && w
                    == v && alike(a, b),
                _ => true,
            },
    {
        if self.top().position < self.insts().len() {
            let inst = self.insts()[self.top().position as int];
            let a = MachineModel {
                trace: self.trace.observe(TracedInstruction::Instruction(inst)),
                ..self
            };
            let b = MachineModel {
                trace: other.trace.observe(TracedInstruction::Instruction(inst)),
                ..other
            };
            assert(alike(a, b));
            assert(other.step() == other.inst(inst));
            match self.function().dfg.insts[inst.idx()] {
                InstructionData::Call { .. } => {
                    assert(self.step() == a.step_call(inst));
                    assert(other.step() == b.step_call(inst));
                },
                InstructionData::MultiAryImm { opcode: Opcode::TraceStart, .. } => {
                    assert(self.step() == a.step_trace_start(inst));
                },
                InstructionData::UnaryImm { opcode: Opcode::TraceEnd, .. } => {
                    assert(self.step() == a.step_trace_end());
                },
                _ => {
                    assert(self.step() == a.step_plain(inst));
                    assert(other.step() == b.step_plain(inst));
                },
            }
        }
    }

    /// A run that returns from the outermost call does the same on a
    /// machine that is alike but for the record.
    pub proof fn lemma_run_alike(self, other: MachineModel, fuel: nat)
        requires
            alike(self, other),
            self.stack.len() > 0,
            self.run(fuel) is Returned,
        ensures
            other.run(fuel) is Returned,
            other.run(fuel)->Returned_1 == self.run(fuel)->Returned_1,
            alike(self.run(fuel)->Returned_0, other.run(fuel)->Returned_0),
        decreases fuel,
    {
        if fuel > 0 {
            self.lemma_step_alike(other);
            match self.step() {
                StepModel::Running(a) => {
                    let b = other.step()->Running_0;
                    a.lemma_running_has_a_call(self);
                    a.lemma_run_alike(b, (fuel - 1) as nat);
                },
                _ => {},
            }
        }
    }

    /// A step that traps turns tracing off.
    pub proof fn lemma_trap_ends_tracing(self)
        requires
            self.stack.len() > 0,
        ensures
            self.step() matches StepModel::Trapped(m, _) ==> m.trace.tracing is None,
    {
        if self.top().position < self.insts().len() {
            let inst = self.insts()[self.top().position as int];
            let m = MachineModel {
                trace: self.trace.observe(TracedInstruction::Instruction(inst)),
                ..self
            };
            match self.function().dfg.insts[inst.idx()] {
                InstructionData::Call { .. } => {
                    assert(self.step() == m.step_call(inst));
                },
                InstructionData::MultiAryImm { opcode: Opcode::TraceStart, .. } => {
                    assert(self.step() == m.step_trace_start(inst));
                },
                InstructionData::UnaryImm { opcode: Opcode::TraceEnd, .. } => {
                    assert(self.step() == m.step_trace_end());
                },
                _ => {
                    assert(self.step() == m.step_plain(inst));
                },
            }
        }
    }

    /// A run that traps turns tracing off.
    pub proof fn lemma_run_trap_ends_tracing(self, fuel: nat)
        requires
            self.stack.len() > 0,
        ensures
            self.run(fuel) matches RunModel::Trapped(m, _) ==> m.trace.tracing is None,
        decreases fuel,
    {
        if fuel > 0 {
            self.lemma_trap_ends_tracing();
            match self.step() {
                StepModel::Running(a) => {
                    a.lemma_running_has_a_call(self);
                    a.lemma_run_trap_ends_tracing((fuel - 1) as nat);
                },
                _ => {},
            }
        }
    }

    /// A machine that a step leaves running has a call under way.
    pub proof fn lemma_running_has_a_call(self, before: MachineModel)
        requires
            before.stack.len() > 0,
            before.step() == StepModel::Running(self),
        ensures
            self.stack.len() > 0,
    {
        if before.top().position < before.insts().len() {
            let inst = before.insts()[before.top().position as int];
            let m = MachineModel {
                trace: before.trace.observe(TracedInstruction::Instruction(inst)),
                ..before
            };
            match before.function().dfg.insts[inst.idx()] {
                InstructionData::Call { .. } => {
                    assert(before.step() == m.step_call(inst));
                },
                InstructionData::MultiAryImm { opcode: Opcode::TraceStart, .. } => {
                    assert(before.step() == m.step_trace_start(inst));
                },
                InstructionData::UnaryImm { opcode: Opcode::TraceEnd, .. } => {
                    assert(before.step() == m.step_trace_end());
                },
                _ => {
                    assert(before.step() == m.step_plain(inst));
                },
            }
        }
    }
}

/// Interpretation is deterministic: a call that leaves tracing on or off as
/// it found it, and where tracing is off leaves the record as it found it,
/// gives, when it is made again on the machine that it left, the same
/// values or the same trap. A call that only adds to the record while
/// tracing stays on is of this kind.
pub proof fn lemma_second_call_agrees(
    m: MachineModel,
    f: FuncRef,
    args: Seq<DataValue>,
    fuel: nat,
)
    requires
        m.wf(),
        m.is_idle(),
        spec_call(m, f, args, fuel).0.trace.tracing == m.trace.tracing,
        m.trace.tracing is None ==> spec_call(m, f, args, fuel).0.trace == m.trace,
    ensures
        m.trace.tracing is None ==> spec_call(m, f, args, fuel).0 == m,
        spec_call(spec_call(m, f, args, fuel).0, f, args, fuel).1 == spec_call(m, f, args, fuel).1,
        spec_call(spec_call(m, f, args, fuel).0, f, args, fuel).0.trace.tracing
            == m.trace.tracing,
{
    let after = spec_call(m, f, args, fuel).0;
    m.lemma_halt_wf();
    m.lemma_enter_wf(f, args);
    if m.trace.tracing is None {
        match m.enter(f, args) {
            Ok(m1) => {
                m1.lemma_run_wf(fuel);
                m1.lemma_run_keeps(fuel);
                let m2 = machine_of(m1.run(fuel));
                m2.lemma_halt_wf();
                assert(after.stack =~= m.stack);
                assert(after == m);
            },
            Err(_) => {
                assert(after.stack =~= m.stack);
                assert(after == m);
            },
        }
    } else {
        // Tracing is still on, so the call returned: giving up turns it off.
        match m.enter(f, args) {
            Ok(m1) => {
                m1.lemma_run_wf(fuel);
                m1.lemma_run_keeps(fuel);
                m1.lemma_run_trap_ends_tracing(fuel);
                assert(m1.run(fuel) is Returned);
                assert(after.is_idle());
                assert(after.stack =~= m.stack);
                assert(after.env == m.env);
                let n1 = after.enter(f, args)->Ok_0;
                assert(after.enter(f, args) is Ok);
                assert(alike(m1, n1));
                m1.lemma_run_alike(n1, fuel);
            },
            Err(_) => {},
        }
    }
}

/// The same for a call by name; see [`lemma_second_call_agrees`].
pub proof fn lemma_second_call_by_name_agrees(
    m: MachineModel,
    name: Seq<char>,
    args: Seq<DataValue>,
    fuel: nat,
)
    requires
        m.wf(),
        m.is_idle(),
        spec_call_by_name(m, name, args, fuel).0.trace.tracing == m.trace.tracing,
        m.trace.tracing is None ==> spec_call_by_name(m, name, args, fuel).0.trace == m.trace,
    ensures
        spec_call_by_name(spec_call_by_name(m, name, args, fuel).0, name, args, fuel).1
            == spec_call_by_name(m, name, args, fuel).1,
{
    match m.env.index_of(name) {
        Some(f) => {
            lemma_second_call_agrees(m, f, args, fuel);
            m.lemma_enter_wf(f, args);
            match m.enter(f, args) {
                Ok(m1) => {
                    m1.lemma_run_keeps(fuel);
                    m1.lemma_run_wf(fuel);
                },
                Err(_) => {},
            }
        },
        None => {},
    }
}

/// The machine of a step's end.
pub open spec fn machine_of_step(r: StepModel) -> MachineModel {
    match r {
        StepModel::Running(m) => m,
        StepModel::Returned(m, _) => m,
        StepModel::Request(m, _) => m,
        StepModel::Trapped(m, _) => m,
    }
}

} // verus!

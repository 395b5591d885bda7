//! The interpreter: it runs the functions of an environment on values,
//! records traces between `trace_start` and `trace_end`, and asks its driver
//! to compile the reconstructed traces and to run the compiled code.
use crate::data_value::{unsigned, BinaryOp, DataValue};
use crate::environment::Environment;
use crate::frame::Frame;
use crate::ir::entities::{Block, FuncRef, Inst, ValueRef};
use crate::ir::function::{CallConv, Function};
use crate::ir::instructions::{InstructionData, IntCC, Opcode, ValueList};
use crate::machine::{
    binary, binary_imm, binary_op_of, bconst, compare_imm, define, exec_inst, first_result,
    iconst, is_nonzero, machine_of, no_condition_text, no_result_text, spec_call,
    spec_call_by_name, ActivationModel, ControlFlowModel, MachineModel, Pending, RequestModel,
    RunModel, StepModel,
};
use crate::reconstruct::FunctionReconstructor;
use crate::trace::{Trace, TraceModel, TracedInstruction};
use crate::trace_store::{CompiledCode, TraceStore};
use crate::trap::{Trap, TrapModel, TraceError};
use crate::util::{copy_slice, copy_vec};
use vstd::prelude::*;

verus! {

/// What an instruction asks of the block that holds it.
#[derive(Debug)]
pub enum ControlFlow {
    /// Go on with the next instruction.
    Continue,
    /// Go on at the start of a block, whose parameters get what these
    /// values hold.
    ContinueAt(Block, Vec<ValueRef>),
    /// Leave the function with these values.
    Return(Vec<DataValue>),
}

impl View for ControlFlow {
    type V = ControlFlowModel;

    open spec fn view(&self) -> ControlFlowModel {
        match self {
            ControlFlow::Continue => ControlFlowModel::Continue,
            ControlFlow::ContinueAt(b, args) => ControlFlowModel::ContinueAt(*b, args@),
            ControlFlow::Return(vals) => ControlFlowModel::Return(vals@),
        }
    }
}

/// One call that was entered and not left.
#[derive(Debug)]
pub struct Activation {
    frame: Frame,
    block: Block,
    position: usize,
}

impl View for Activation {
    type V = ActivationModel;

    closed spec fn view(&self) -> ActivationModel {
        ActivationModel { frame: self.frame@, block: self.block, position: self.position as nat }
    }
}

/// What the interpreter asks of its driver.
#[derive(Debug)]
pub enum Request {
    /// Compile the function that was reconstructed from the trace `id`, and
    /// reply with [`Interpreter::compiled`].
    Compile { id: i64, function: Function },
    /// Run the code compiled for the trace `id` on `args`, and reply with
    /// [`Interpreter::executed`].
    Execute { id: i64, code: CompiledCode, args: Vec<DataValue> },
}

impl View for Request {
    type V = RequestModel;

    open spec fn view(&self) -> RequestModel {
        match self {
            Request::Compile { id, function } => RequestModel::Compile {
                id: *id,
                function: function@,
            },
            Request::Execute { id, code, args } => RequestModel::Execute {
                id: *id,
                code: *code,
                args: args@,
            },
        }
    }
}

/// How a run ends.
#[derive(Debug)]
pub enum Progress {
    /// The outermost call returned these values.
    Returned(Vec<DataValue>),
    /// The interpreter waits for its driver.
    Request(Request),
    /// The steps were used up; the run can be resumed.
    OutOfSteps,
}

/// How a step ends, but for a trap.
#[derive(Debug)]
pub enum StepOutcome {
    Running,
    Returned(Vec<DataValue>),
    Request(Request),
}

/// Whether what a step gave and left is what the model says.
pub open spec fn step_matches(r: Result<StepOutcome, Trap>, after: MachineModel, model: StepModel) -> bool {
    match model {
        StepModel::Running(m) => r matches Ok(StepOutcome::Running) && after == m,
        StepModel::Returned(m, vals) => r matches Ok(StepOutcome::Returned(v)) && v@ == vals
            && after == m,
        StepModel::Request(m, req) => r matches Ok(StepOutcome::Request(q)) && q@ == req && after
            == m,
        StepModel::Trapped(m, t) => r matches Err(e) && e@ == t && after == m,
    }
}

/// Whether what a run gave and left is what the model says.
pub open spec fn run_matches(r: Result<Progress, Trap>, after: MachineModel, model: RunModel) -> bool {
    match model {
        RunModel::Returned(m, vals) => r matches Ok(Progress::Returned(v)) && v@ == vals && after
            == m,
        RunModel::Request(m, req) => r matches Ok(Progress::Request(q)) && q@ == req && after == m,
        RunModel::Trapped(m, t) => r matches Err(e) && e@ == t && after == m,
        RunModel::OutOfSteps(m) => r matches Ok(Progress::OutOfSteps) && after == m,
    }
}

/// Whether what a call gave is what the model says.
pub open spec fn call_matches(r: Result<ControlFlow, Trap>, model: Result<Seq<DataValue>, TrapModel>) -> bool {
    match model {
        Ok(vals) => r matches Ok(ControlFlow::Return(v)) && v@ == vals,
        Err(t) => r matches Err(e) && e@ == t,
    }
}

/// The views of the activations of a stack.
pub open spec fn activation_views(v: Seq<Activation>) -> Seq<ActivationModel> {
    Seq::new(v.len(), |i: int| v[i]@)
}

/// The interpreter.
pub struct Interpreter {
    env: Environment,
    trace: Trace,
    store: TraceStore,
    stack: Vec<Activation>,
    pending: Pending,
    trace_depth: usize,
    trace_floor: usize,
    call_conv: CallConv,
    step_limit: u64,
}

impl View for Interpreter {
    type V = MachineModel;

    closed spec fn view(&self) -> MachineModel {
        MachineModel {
            env: self.env@,
            trace: self.trace@,
            store: self.store@,
            stack: activation_views(self.stack@),
            pending: self.pending,
            trace_depth: self.trace_depth as nat,
            trace_floor: self.trace_floor as nat,
            call_conv: self.call_conv,
        }
    }
}

fn no_result() -> (r: Trap)
    ensures
        r@ == TrapModel::InvalidControlFlow(no_result_text()),
{
    Trap::InvalidControlFlow(String::from_str("the instruction has no result"))
}

fn no_condition() -> (r: Trap)
    ensures
        r@ == TrapModel::InvalidControlFlow(no_condition_text()),
{
    Trap::InvalidControlFlow(String::from_str("the branch has no condition"))
}

/// The value that `inst` defines; see [`first_result`].
fn first_result_of(function: &Function, inst: Inst) -> (r: Result<ValueRef, Trap>)
    requires
        function.wf(),
        function@.dfg.inst_valid(inst),
    ensures
        match first_result(function@, inst) {
            Ok(v) => r matches Ok(w) && w == v && function@.dfg.value_valid(v),
            Err(e) => r matches Err(t) && t@ == e,
        },
{
    let results = function.dfg.inst_results(inst);
    if results.len() > 0 {
        proof {
            assert(function@.dfg.result_wf(inst.idx(), 0));
        }
        Ok(results[0])
    } else {
        Err(no_result())
    }
}

/// Defines `r` as `x`; see [`define`].
fn define_value(frame: &mut Frame, r: ValueRef, x: DataValue) -> (res: Result<(), Trap>)
    ensures
        match define(old(frame)@, r, x) {
            Ok(f) => res is Ok && final(frame)@ == f,
            Err(e) => res matches Err(t) && t@ == e && final(frame)@ == old(frame)@,
        },
{
    if !frame.in_range(r) || frame.is_bound(r) {
        Err(Trap::Redefined(r))
    } else {
        frame.set(r, x);
        Ok(())
    }
}

/// Whether a value lets a `brnz` branch; see [`is_nonzero`].
pub fn nonzero(x: DataValue) -> (r: Option<bool>)
    ensures
        r == is_nonzero(x),
{
    match x {
        DataValue::B(b) => Some(b),
        DataValue::I8(n) => Some(n != 0),
        DataValue::I16(n) => Some(n != 0),
        DataValue::I32(n) => Some(n != 0),
        DataValue::I64(n) => Some(n != 0),
        _ => None,
    }
}

/// Compares an integer with an immediate; see [`compare_imm`].
pub fn compare_with_immediate(cond: IntCC, x: DataValue, imm: i64) -> (r: Option<bool>)
    ensures
        r == compare_imm(cond, x, imm),
{
    match x.into_int() {
        Err(_) => None,
        Ok(a) => {
            let b = DataValue::integer(imm, x.ty()).unwrap().into_int().unwrap();
            let ua = unsigned(a, x.ty());
            let ub = unsigned(b, x.ty());
            Some(
                match cond {
                    IntCC::Equal => a == b,
                    IntCC::NotEqual => a != b,
                    IntCC::SignedLessThan => a < b,
                    IntCC::SignedGreaterThanOrEqual => a >= b,
                    IntCC::SignedGreaterThan => a > b,
                    IntCC::SignedLessThanOrEqual => a <= b,
                    IntCC::UnsignedLessThan => ua < ub,
                    IntCC::UnsignedGreaterThanOrEqual => ua >= ub,
                    IntCC::UnsignedGreaterThan => ua > ub,
                    IntCC::UnsignedLessThanOrEqual => ua <= ub,
                },
            )
        },
    }
}

/// The operation of a binary opcode; see [`binary_op_of`].
pub fn operation_of(opcode: Opcode) -> (r: Option<BinaryOp>)
    ensures
        r == binary_op_of(opcode),
{
    match opcode {
        Opcode::Iadd => Some(BinaryOp::Add),
        Opcode::Isub => Some(BinaryOp::Sub),
        Opcode::Imul => Some(BinaryOp::Mul),
        Opcode::Sdiv => Some(BinaryOp::Div),
        Opcode::Srem => Some(BinaryOp::Rem),
        Opcode::Band => Some(BinaryOp::And),
        Opcode::Bor => Some(BinaryOp::Or),
        Opcode::Bxor => Some(BinaryOp::Xor),
        Opcode::Ishl => Some(BinaryOp::Shl),
        Opcode::Ushr => Some(BinaryOp::Ushr),
        Opcode::Sshr => Some(BinaryOp::Ishr),
        Opcode::Rotl => Some(BinaryOp::Rotl),
        Opcode::Rotr => Some(BinaryOp::Rotr),
        _ => None,
    }
}

impl Interpreter {
    /// The invariant of the interpreter; see [`MachineModel::wf`].
    pub open spec fn wf(&self) -> bool {
        self@.wf()
    }

    /// The number of steps that a call may take.
    pub closed spec fn spec_step_limit(&self) -> u64 {
        self.step_limit
    }

    /// An interpreter for the functions of `env`, with an empty trace and
    /// no compiled traces. A call may take any number of steps that a
    /// 64-bit number can hold.
    pub fn new(env: Environment) -> (r: Self)
        requires
            env.wf(),
        ensures
            r@ == (MachineModel {
                env: env@,
                trace: TraceModel::empty(),
                store: Map::empty(),
                stack: Seq::empty(),
                pending: Pending::Nothing,
                trace_depth: 0,
                trace_floor: 0,
                call_conv: CallConv::Fast,
            }),
            r.wf(),
            r.spec_step_limit() == u64::MAX,
    {
        let r = Interpreter {
            env,
            trace: Trace::new(),
            store: TraceStore::new(),
            stack: Vec::new(),
            pending: Pending::Nothing,
            trace_depth: 0,
            trace_floor: 0,
            call_conv: CallConv::Fast,
            step_limit: u64::MAX,
        };
        assert(r@.stack =~= Seq::empty());
        r
    }

    /// The same interpreter with another limit on the steps of a call.
    pub fn with_step_limit(self, step_limit: u64) -> (r: Self)
        ensures
            r@ == self@,
            r.spec_step_limit() == step_limit,
    {
        let mut r = self;
        r.step_limit = step_limit;
        r
    }

    /// The same interpreter with another calling convention for the
    /// functions that it reconstructs from traces.
    pub fn with_call_conv(self, call_conv: CallConv) -> (r: Self)
        ensures
            r@ == (MachineModel { call_conv, ..self@ }),
            r.spec_step_limit() == self.spec_step_limit(),
    {
        let mut r = self;
        r.call_conv = call_conv;
        r
    }

    /// The functions that the interpreter can call.
    pub fn env(&self) -> (r: &Environment)
        ensures
            r@ == self@.env,
    {
        &self.env
    }

    /// The trace recorded so far.
    pub fn trace(&self) -> (r: &Trace)
        ensures
            r@ == self@.trace,
    {
        &self.trace
    }

    /// The compiled traces.
    pub fn store(&self) -> (r: &TraceStore)
        ensures
            r@ == self@.store,
    {
        &self.store
    }

    /// What the interpreter waits for.
    pub fn pending(&self) -> (r: Pending)
        ensures
            r == self@.pending,
    {
        self.pending
    }

    /// Whether no call is under way and nothing is waited for.
    pub fn is_idle(&self) -> (r: bool)
        ensures
            r == self@.is_idle(),
    {
        self.stack.len() == 0 && self.pending == Pending::Nothing
    }

    /// Defines `r` as `op` of what `a` and `b` hold; see [`binary`].
    pub fn binary(frame: &mut Frame, op: BinaryOp, a: ValueRef, b: ValueRef, r: ValueRef) -> (res:
        Result<(), Trap>)
        ensures
            match binary(old(frame)@, op, a, b, r) {
                Ok(f) => res is Ok && final(frame)@ == f,
                Err(e) => res matches Err(t) && t@ == e && final(frame)@ == old(frame)@,
            },
    {
        let x = match frame.get(a) {
            Ok(x) => x,
            Err(t) => {
                return Err(t);
            },
        };
        let y = match frame.get(b) {
            Ok(y) => y,
            Err(t) => {
                return Err(t);
            },
        };
        match DataValue::binary(op, x, y) {
            Err(e) => Err(Trap::Value(e)),
            Ok(c) => define_value(frame, r, c),
        }
    }

    /// Defines `r` as `op` of the immediate and of what `a` holds; see
    /// [`binary_imm`].
    pub fn binary_imm(
        function: &Function,
        frame: &mut Frame,
        op: BinaryOp,
        imm: i64,
        a: ValueRef,
        r: ValueRef,
    ) -> (res: Result<(), Trap>)
        requires
            function@.dfg.value_valid(r),
        ensures
            match binary_imm(function@, old(frame)@, op, imm, a, r) {
                Ok(f) => res is Ok && final(frame)@ == f,
                Err(e) => res matches Err(t) && t@ == e && final(frame)@ == old(frame)@,
            },
    {
        let x = match frame.get(a) {
            Ok(x) => x,
            Err(t) => {
                return Err(t);
            },
        };
        match DataValue::integer(imm, function.dfg.value_type(r)) {
            Err(e) => Err(Trap::Value(e)),
            Ok(i) => match DataValue::binary(op, i, x) {
                Err(e) => Err(Trap::Value(e)),
                Ok(c) => define_value(frame, r, c),
            },
        }
    }

    /// Defines `r` as the immediate, cast to the type of `r`; see
    /// [`iconst`].
    pub fn iconst(function: &Function, frame: &mut Frame, imm: i64, r: ValueRef) -> (res: Result<
        (),
        Trap,
    >)
        requires
            function@.dfg.value_valid(r),
        ensures
            match iconst(function@, old(frame)@, imm, r) {
                Ok(f) => res is Ok && final(frame)@ == f,
                Err(e) => res matches Err(t) && t@ == e && final(frame)@ == old(frame)@,
            },
    {
        match DataValue::integer(imm, function.dfg.value_type(r)) {
            Err(e) => Err(Trap::Value(e)),
            Ok(i) => define_value(frame, r, i),
        }
    }

    /// Defines `r` as the boolean `imm`; see [`bconst`].
    pub fn bconst(frame: &mut Frame, imm: bool, r: ValueRef) -> (res: Result<(), Trap>)
        ensures
            match bconst(old(frame)@, imm, r) {
                Ok(f) => res is Ok && final(frame)@ == f,
                Err(e) => res matches Err(t) && t@ == e && final(frame)@ == old(frame)@,
            },
    {
        define_value(frame, r, DataValue::B(imm))
    }

    /// Computes one instruction that is neither a call nor a trace marker on
    /// the frame of its call; see [`exec_inst`].
    pub fn compute(function: &Function, frame: &mut Frame, inst: Inst) -> (r: Result<
        ControlFlow,
        Trap,
    >)
        requires
            function.wf(),
            function@.dfg.inst_valid(inst),
        ensures
            match exec_inst(function@, old(frame)@, inst) {
                Ok((f, cf)) => r matches Ok(c) && c@ == cf && final(frame)@ == f,
                Err(e) => r matches Err(t) && t@ == e && final(frame)@ == old(frame)@,
            },
    {
        let data = function.dfg.inst(inst);
        proof {
            assert(function@.dfg.data_wf(data));
        }
        match data {
            InstructionData::Binary { opcode, a, b } => match operation_of(opcode) {
                None => Err(Trap::Unimplemented(opcode)),
                Some(op) => {
                    let res = match first_result_of(function, inst) {
                        Ok(r) => r,
                        Err(t) => {
                            return Err(t);
                        },
                    };
                    match Self::binary(frame, op, a, b, res) {
                        Ok(()) => Ok(ControlFlow::Continue),
                        Err(t) => Err(t),
                    }
                },
            },
            InstructionData::BinaryImm { opcode: Opcode::IrsubImm, arg, imm } => {
                let res = match first_result_of(function, inst) {
                    Ok(r) => r,
                    Err(t) => {
                        return Err(t);
                    },
                };
                match Self::binary_imm(function, frame, BinaryOp::Sub, imm, arg, res) {
                    Ok(()) => Ok(ControlFlow::Continue),
                    Err(t) => Err(t),
                }
            },
            InstructionData::UnaryImm { opcode: Opcode::Iconst, imm } => {
                let res = match first_result_of(function, inst) {
                    Ok(r) => r,
                    Err(t) => {
                        return Err(t);
                    },
                };
                match Self::iconst(function, frame, imm, res) {
                    Ok(()) => Ok(ControlFlow::Continue),
                    Err(t) => Err(t),
                }
            },
            InstructionData::UnaryBool { opcode: Opcode::Bconst, imm } => {
                let res = match first_result_of(function, inst) {
                    Ok(r) => r,
                    Err(t) => {
                        return Err(t);
                    },
                };
                match Self::bconst(frame, imm, res) {
                    Ok(()) => Ok(ControlFlow::Continue),
                    Err(t) => Err(t),
                }
            },
            InstructionData::NullAry { opcode: Opcode::Nop } => Ok(ControlFlow::Continue),
            InstructionData::Branch { opcode: Opcode::Brnz, args, destination } => {
                let mut vals = function.dfg.list_values(args);
                if vals.len() == 0 {
                    return Err(no_condition());
                }
                let first = vals.remove(0);
                match frame.get(first) {
                    Err(t) => Err(t),
                    Ok(x) => match nonzero(x) {
                        None => Err(Trap::not_a_condition(first)),
                        Some(false) => Ok(ControlFlow::Continue),
                        Some(true) => {
                            proof {
                                assert(vals@ =~= function@.dfg.list_values(args).drop_first());
                            }
                            Ok(ControlFlow::ContinueAt(destination, vals))
                        },
                    },
                }
            },
            InstructionData::Jump { opcode, args, destination } => {
                if opcode == Opcode::Jump || opcode == Opcode::Fallthrough {
                    Ok(ControlFlow::ContinueAt(destination, function.dfg.list_values(args)))
                } else {
                    Err(Trap::Unimplemented(opcode))
                }
            },
            InstructionData::IntCompareImm { opcode: Opcode::IcmpImm, arg, cond, imm } => {
                match frame.get(arg) {
                    Err(t) => Err(t),
                    Ok(x) => match compare_with_immediate(cond, x, imm) {
                        None => Err(Trap::not_an_integer(arg)),
                        Some(c) => {
                            let res = match first_result_of(function, inst) {
                                Ok(r) => r,
                                Err(t) => {
                                    return Err(t);
                                },
                            };
                            match define_value(frame, res, DataValue::B(c)) {
                                Ok(()) => Ok(ControlFlow::Continue),
                                Err(t) => Err(t),
                            }
                        },
                    },
                }
            },
            InstructionData::MultiAry { opcode: Opcode::Return, args } => {
                match frame.get_all(&function.dfg.list_values(args)) {
                    Err(t) => Err(t),
                    Ok(vals) => Ok(ControlFlow::Return(vals)),
                }
            },
            _ => Err(Trap::Unimplemented(data.opcode())),
        }
    }

    /// Gives up: no call is under way, nothing is waited for, and tracing is
    /// off.
    fn halt(&mut self)
        ensures
            final(self)@ == old(self)@.halt(),
            final(self).step_limit == old(self).step_limit,
    {
        self.stack = Vec::new();
        self.pending = Pending::Nothing;
        if self.trace.tracing().is_some() {
            let _ = self.trace.end();
        }
        proof {
            assert(self@.stack =~= Seq::empty());
        }
    }

    /// Enters a call of `f` with `args`; see [`MachineModel::enter`].
    fn call(&mut self, f: FuncRef, args: &Vec<DataValue>) -> (r: Result<(), Trap>)
        requires
            old(self).wf(),
        ensures
            final(self).step_limit == old(self).step_limit,
            match old(self)@.enter(f, args@) {
                Ok(m) => r is Ok && final(self)@ == m,
                Err(e) => r matches Err(t) && t@ == e && final(self)@ == old(self)@,
            },
    {
        let function = match self.env.get_by_func_ref(f) {
            None => {
                return Err(Trap::InvalidFunctionReference(f));
            },
            Some(function) => function,
        };
        let entry = match function.layout.entry_block() {
            None => {
                return Err(Trap::Unreachable);
            },
            Some(b) => b,
        };
        proof {
            assert(function@.dfg.block_valid(function@.layout.blocks[0]));
        }
        let parameters = function.dfg.block_params(entry);
        let frame = match Frame::new(f, function).with_parameters(parameters, args) {
            Err(t) => {
                return Err(t);
            },
            Ok(frame) => frame,
        };
        let act = Activation { frame, block: entry, position: 0 };
        self.stack.push(act);
        proof {
            assert(self@.stack =~= old(self)@.stack.push(act@));
        }
        Ok(())
    }

    /// A step on a call instruction; see [`MachineModel::step_call`].
    fn step_call(&mut self, inst: Inst) -> (r: Result<StepOutcome, Trap>)
        requires
            old(self).wf(),
            old(self)@.stack.len() > 0,
            old(self)@.pending == Pending::Nothing,
            old(self)@.function().dfg.inst_valid(inst),
            old(self)@.function().dfg.insts[inst.idx()] is Call,
        ensures
            final(self).step_limit == old(self).step_limit,
            step_matches(r, final(self)@, old(self)@.step_call(inst)),
    {
        let top = self.stack.len() - 1;
        proof {
            assert(self@.stack[top as int].wf(self@.env));
            assert(self@.stack[top as int] == self.stack@[top as int]@);
        }
        let function = self.env.get_by_func_ref(self.stack[top].frame.func_ref()).unwrap();
        let data = function.dfg.inst(inst);
        proof {
            assert(function@.dfg.data_wf(data));
        }
        match data {
            InstructionData::Call { args, func_ref, .. } => {
                let name = function.dfg.ext_func_name(func_ref);
                let callee = match self.env.index_of(name.as_str()) {
                    None => {
                        let t = Trap::InvalidFunctionName(name.clone());
                        self.halt();
                        return Err(t);
                    },
                    Some(c) => c,
                };
                let vals = match self.stack[top].frame.get_all(&function.dfg.list_values(args)) {
                    Err(t) => {
                        self.halt();
                        return Err(t);
                    },
                    Ok(vals) => vals,
                };
                match self.call(callee, &vals) {
                    Err(t) => {
                        self.halt();
                        Err(t)
                    },
                    Ok(()) => {
                        self.trace.observe(TracedInstruction::EnterFunction(callee));
                        Ok(StepOutcome::Running)
                    },
                }
            },
            _ => {
                self.halt();
                Err(Trap::Unknown)
            },
        }
    }

    /// A step on a `trace_start`; see [`MachineModel::step_trace_start`].
    fn step_trace_start(&mut self, inst: Inst) -> (r: Result<StepOutcome, Trap>)
        requires
            old(self).wf(),
            old(self)@.stack.len() > 0,
            old(self)@.pending == Pending::Nothing,
            old(self)@.top().position < old(self)@.insts().len(),
            old(self)@.function().dfg.inst_valid(inst),
            old(self)@.function().dfg.insts[inst.idx()] is MultiAryImm,
        ensures
            final(self).step_limit == old(self).step_limit,
            step_matches(r, final(self)@, old(self)@.step_trace_start(inst)),
    {
        let top = self.stack.len() - 1;
        proof {
            assert(self@.stack[top as int].wf(self@.env));
            assert(self@.stack[top as int] == self.stack@[top as int]@);
        }
        let func_ref = self.stack[top].frame.func_ref();
        let function = self.env.get_by_func_ref(func_ref).unwrap();
        let data = function.dfg.inst(inst);
        proof {
            assert(function@.dfg.data_wf(data));
        }
        match data {
            InstructionData::MultiAryImm { imm, args, .. } => {
                match self.store.get(imm) {
                    Some(code) => {
                        if function.dfg.inst_results(inst).len() > 1 {
                            self.halt();
                            return Err(Trap::Unimplemented(Opcode::TraceStart));
                        }
                        match self.stack[top].frame.get_all(&function.dfg.list_values(args)) {
                            Err(t) => {
                                self.halt();
                                Err(t)
                            },
                            Ok(vals) => {
                                self.pending = Pending::Execute(imm);
                                Ok(
                                    StepOutcome::Request(
                                        Request::Execute { id: imm, code, args: vals },
                                    ),
                                )
                            },
                        }
                    },
                    None => {
                        if args.len() > 0 {
                            self.halt();
                            return Err(Trap::Unimplemented(Opcode::TraceStart));
                        }
                        if self.trace.tracing().is_some() {
                            self.halt();
                            return Err(Trap::already_tracing());
                        }
                        let n = function.layout.block_len(self.stack[top].block);
                        self.trace.start(imm, func_ref);
                        self.trace_depth = self.stack.len();
                        self.trace_floor = self.stack.len();
                        let ghost mid = self@;
                        let mut act = self.stack.pop().unwrap();
                        assert(act.position < n);
                        act.position = act.position + 1;
                        self.stack.push(act);
                        proof {
                            assert(self@.stack =~= mid.advance(mid.top().frame).stack);
                        }
                        Ok(StepOutcome::Running)
                    },
                }
            },
            _ => {
                self.halt();
                Err(Trap::Unknown)
            },
        }
    }

    /// A step on a `trace_end`; see [`MachineModel::step_trace_end`].
    fn step_trace_end(&mut self) -> (r: Result<StepOutcome, Trap>)
        requires
            old(self).wf(),
            old(self)@.stack.len() > 0,
            old(self)@.pending == Pending::Nothing,
        ensures
            final(self).step_limit == old(self).step_limit,
            step_matches(r, final(self)@, old(self)@.step_trace_end()),
    {
        if self.trace.tracing().is_none() {
            self.halt();
            return Err(Trap::not_tracing());
        }
        let id = self.trace.end();
        let _ = self.trace.remove_last();
        let built = FunctionReconstructor::new(&self.trace, &self.env).try_build(self.call_conv);
        match built {
            None => {
                self.halt();
                Err(Trap::bad_trace())
            },
            Some(function) => {
                self.pending = Pending::Compile(id);
                Ok(StepOutcome::Request(Request::Compile { id, function }))
            },
        }
    }

    /// A step on any other instruction; see [`MachineModel::step_plain`].
    fn step_plain(&mut self, inst: Inst) -> (r: Result<StepOutcome, Trap>)
        requires
            old(self).wf(),
            old(self)@.stack.len() > 0,
            old(self)@.pending == Pending::Nothing,
            old(self)@.top().position < old(self)@.insts().len(),
            old(self)@.function().dfg.inst_valid(inst),
        ensures
            final(self).step_limit == old(self).step_limit,
            step_matches(r, final(self)@, old(self)@.step_plain(inst)),
    {
        let ghost m0 = self@;
        proof {
            assert(m0.stack[m0.stack.len() - 1].wf(m0.env));
            assert(m0.stack[m0.stack.len() - 1] == self.stack@[m0.stack.len() - 1]@);
            crate::machine::lemma_exec_inst_keeps_frame(m0.function(), m0.top().frame, inst);
        }
        let mut act = self.stack.pop().unwrap();
        proof {
            assert(self@.stack =~= m0.stack.drop_last());
        }
        let function = self.env.get_by_func_ref(act.frame.func_ref()).unwrap();
        let n = function.layout.block_len(act.block);
        assert(act.position < n);
        match Self::compute(function, &mut act.frame, inst) {
            Err(t) => {
                self.halt();
                Err(t)
            },
            Ok(ControlFlow::Continue) => {
                act.position = act.position + 1;
                self.stack.push(act);
                proof {
                    assert(self@.stack =~= m0.advance(act@.frame).stack);
                }
                Ok(StepOutcome::Running)
            },
            Ok(ControlFlow::ContinueAt(block, args)) => {
                let params = function.dfg.block_params(block);
                if args.len() != params.len() {
                    self.halt();
                    Err(Trap::arity())
                } else {
                    act.frame.rename(&args, params);
                    act.block = block;
                    act.position = 0;
                    self.stack.push(act);
                    proof {
                        assert(self@.stack =~= m0.with_top(act@).stack);
                    }
                    Ok(StepOutcome::Running)
                }
            },
            Ok(ControlFlow::Return(vals)) => {
                if self.stack.len() == 0 {
                    Ok(StepOutcome::Returned(vals))
                } else {
                    if self.trace.tracing().is_some() && self.stack.len() < self.trace_floor {
                        self.trace_floor = self.stack.len();
                    }
                    self.trace.observe(TracedInstruction::ExitFunction);
                    let ghost m1 = self@;
                    proof {
                        assert(m1.stack[m1.stack.len() - 1] == m0.stack[m1.stack.len() - 1]);
                        assert(m0.stack[m1.stack.len() - 1].wf(m0.env));
                        assert(m1.stack[m1.stack.len() - 1] == self.stack@[m1.stack.len() - 1]@);
                    }
                    let mut caller = self.stack.pop().unwrap();
                    proof {
                        assert(self@.stack =~= m1.stack.drop_last());
                    }
                    let cfunc = self.env.get_by_func_ref(caller.frame.func_ref()).unwrap();
                    if caller.position >= cfunc.layout.block_len(caller.block) {
                        self.halt();
                        Err(Trap::Unreachable)
                    } else {
                        let call = cfunc.layout.block_inst(caller.block, caller.position);
                        proof {
                            assert(cfunc@.layout.inst_ok(
                                cfunc@.dfg,
                                caller.block.idx(),
                                caller.position as int,
                            ));
                        }
                        let results = cfunc.dfg.inst_results(call);
                        match caller.frame.set_all(results, &vals) {
                            Err(t) => {
                                self.halt();
                                Err(t)
                            },
                            Ok(()) => {
                                caller.position = caller.position + 1;
                                self.stack.push(caller);
                                proof {
                                    assert(self@.stack =~= m1.advance(caller@.frame).stack);
                                }
                                Ok(StepOutcome::Running)
                            },
                        }
                    }
                }
            },
        }
    }

    /// Runs the instruction `inst`, which stands at the position of the
    /// innermost activation, whatever its family; see
    /// [`MachineModel::inst`].
    pub fn inst(&mut self, inst: Inst) -> (r: Result<StepOutcome, Trap>)
        requires
            old(self).wf(),
            old(self)@.stack.len() > 0,
            old(self)@.pending == Pending::Nothing,
            old(self)@.top().position < old(self)@.insts().len(),
            inst == old(self)@.insts()[old(self)@.top().position as int],
        ensures
            final(self).spec_step_limit() == old(self).spec_step_limit(),
            step_matches(r, final(self)@, old(self)@.inst(inst)),
            final(self).wf(),
    {
        let ghost m0 = self@;
        proof {
            m0.lemma_step_wf();
            assert(m0.stack[m0.stack.len() - 1].wf(m0.env));
            assert(m0.stack[m0.stack.len() - 1] == self.stack@[m0.stack.len() - 1]@);
        }
        let top = self.stack.len() - 1;
        let function = self.env.get_by_func_ref(self.stack[top].frame.func_ref()).unwrap();
        proof {
            assert(function@.layout.inst_ok(
                function@.dfg,
                m0.top().block.idx(),
                m0.top().position as int,
            ));
            m0.lemma_observe_keeps_balance(inst);
        }
        let data = function.dfg.inst(inst);
        self.trace.observe(TracedInstruction::Instruction(inst));
        match data {
            InstructionData::Call { .. } => self.step_call(inst),
            InstructionData::MultiAryImm { opcode: Opcode::TraceStart, .. } => {
                self.step_trace_start(inst)
            },
            InstructionData::UnaryImm { opcode: Opcode::TraceEnd, .. } => self.step_trace_end(),
            _ => self.step_plain(inst),
        }
    }

    /// One step; see [`MachineModel::step`].
    pub fn step(&mut self) -> (r: Result<StepOutcome, Trap>)
        requires
            old(self).wf(),
            old(self)@.stack.len() > 0,
            old(self)@.pending == Pending::Nothing,
        ensures
            final(self).spec_step_limit() == old(self).spec_step_limit(),
            step_matches(r, final(self)@, old(self)@.step()),
            final(self).wf(),
    {
        let ghost m0 = self@;
        proof {
            m0.lemma_halt_wf();
            assert(m0.stack[m0.stack.len() - 1].wf(m0.env));
            assert(m0.stack[m0.stack.len() - 1] == self.stack@[m0.stack.len() - 1]@);
        }
        let top = self.stack.len() - 1;
        let function = self.env.get_by_func_ref(self.stack[top].frame.func_ref()).unwrap();
        let block = self.stack[top].block;
        let position = self.stack[top].position;
        if position >= function.layout.block_len(block) {
            self.halt();
            return Err(Trap::Unreachable);
        }
        let inst = function.layout.block_inst(block, position);
        self.inst(inst)
    }

    /// Runs the call that is under way for at most `max_steps` steps; see
    /// [`MachineModel::run`].
    #[verifier::loop_isolation(false)]
    pub fn resume(&mut self, max_steps: u64) -> (r: Result<Progress, Trap>)
        requires
            old(self).wf(),
            old(self)@.stack.len() > 0,
            old(self)@.pending == Pending::Nothing,
        ensures
            final(self).spec_step_limit() == old(self).spec_step_limit(),
            run_matches(r, final(self)@, old(self)@.run(max_steps as nat)),
            final(self).wf(),
    {
        let ghost m0 = self@;
        let mut left = max_steps;
        proof {
            m0.lemma_run_wf(max_steps as nat);
        }
        while left > 0
            invariant
                self.wf(),
                self@.stack.len() > 0,
                self@.pending == Pending::Nothing,
                self.step_limit == old(self).step_limit,
                self@.run(left as nat) == m0.run(max_steps as nat),
            decreases left,
        {
            proof {
                self@.lemma_run_wf(left as nat);
            }
            match self.step() {
                Err(t) => {
                    return Err(t);
                },
                Ok(StepOutcome::Running) => {},
                Ok(StepOutcome::Returned(vals)) => {
                    return Ok(Progress::Returned(vals));
                },
                Ok(StepOutcome::Request(q)) => {
                    return Ok(Progress::Request(q));
                },
            }
            left = left - 1;
        }
        Ok(Progress::OutOfSteps)
    }

    /// Enters a call of the function `func_ref` with `arguments`, to be run
    /// with [`resume`](Self::resume). An interpreter that is not idle
    /// refuses.
    pub fn start_by_index(&mut self, func_ref: FuncRef, arguments: &[DataValue]) -> (r: Result<
        (),
        Trap,
    >)
        requires
            old(self).wf(),
        ensures
            final(self).spec_step_limit() == old(self).spec_step_limit(),
            final(self).wf(),
            if !old(self)@.is_idle() {
                r matches Err(t) && t@ == TrapModel::InvalidControlFlow(crate::trap::pending_text())
                    && final(self)@ == old(self)@
            } else {
                match old(self)@.enter(func_ref, arguments@) {
                    Ok(m) => r is Ok && final(self)@ == m && m.stack.len() == 1 && m.pending
                        == Pending::Nothing,
                    Err(e) => r matches Err(t) && t@ == e && final(self)@ == old(self)@,
                }
            },
    {
        if !self.is_idle() {
            return Err(Trap::pending());
        }
        proof {
            self@.lemma_enter_wf(func_ref, arguments@);
        }
        let args = copy_slice(arguments);
        self.call(func_ref, &args)
    }

    /// Replies to a request to compile; see [`MachineModel::compiled`].
    pub fn compiled(&mut self, outcome: Result<CompiledCode, String>) -> (r: Result<(), Trap>)
        requires
            old(self).wf(),
            old(self)@.pending is Compile,
        ensures
            final(self).spec_step_limit() == old(self).spec_step_limit(),
            final(self).wf(),
            match old(self)@.compiled(
                match outcome {
                    Ok(c) => Ok(c),
                    Err(m) => Err(m@),
                },
            ) {
                Ok(m) => r is Ok && final(self)@ == m,
                Err((m, e)) => r matches Err(t) && t@ == e && final(self)@ == m,
            },
    {
        let ghost m0 = self@;
        proof {
            m0.lemma_halt_wf();
        }
        match self.pending {
            Pending::Compile(id) => match outcome {
                Ok(code) => {
                    self.store.insert(id, code);
                    self.pending = Pending::Nothing;
                    let ghost mid = self@;
                    proof {
                        assert(mid.wf());
                        mid.lemma_advance_wf(mid.top().frame);
                        assert(mid.stack[mid.stack.len() - 1] == self.stack@[mid.stack.len()
                            - 1]@);
                    }
                    let mut act = self.stack.pop().unwrap();
                    let function = self.env.get_by_func_ref(act.frame.func_ref()).unwrap();
                    let n = function.layout.block_len(act.block);
                    assert(act.position < n);
                    act.position = act.position + 1;
                    self.stack.push(act);
                    proof {
                        assert(self@.stack =~= mid.advance(mid.top().frame).stack);
                    }
                    Ok(())
                },
                Err(message) => {
                    self.halt();
                    Err(Trap::TraceError(TraceError::CompilationFailed(message)))
                },
            },
            _ => {
                self.halt();
                Err(Trap::Unknown)
            },
        }
    }

    /// Replies to a request to run compiled code; see
    /// [`MachineModel::executed`].
    pub fn executed(&mut self, outcome: Result<DataValue, String>) -> (r: Result<(), Trap>)
        requires
            old(self).wf(),
            old(self)@.pending is Execute,
        ensures
            final(self).spec_step_limit() == old(self).spec_step_limit(),
            final(self).wf(),
            match old(self)@.executed(
                match outcome {
                    Ok(v) => Ok(v),
                    Err(m) => Err(m@),
                },
            ) {
                Ok(m) => r is Ok && final(self)@ == m,
                Err((m, e)) => r matches Err(t) && t@ == e && final(self)@ == m,
            },
    {
        let ghost m0 = self@;
        proof {
            m0.lemma_halt_wf();
            assert(m0.stack[m0.stack.len() - 1].wf(m0.env));
            assert(m0.stack[m0.stack.len() - 1] == self.stack@[m0.stack.len() - 1]@);
        }
        match self.pending {
            Pending::Execute(id) => match self.store.execute(id, outcome) {
                Ok(v) => {
                    self.pending = Pending::Nothing;
                    let ghost mid = self@;
                    let mut act = self.stack.pop().unwrap();
                    proof {
                        assert(self@.stack =~= mid.stack.drop_last());
                    }
                    let function = self.env.get_by_func_ref(act.frame.func_ref()).unwrap();
                    let n = function.layout.block_len(act.block);
                    assert(act.position < n);
                    let inst = function.layout.block_inst(act.block, act.position);
                    proof {
                        assert(function@.layout.inst_ok(
                            function@.dfg,
                            act.block.idx(),
                            act.position as int,
                        ));
                    }
                    let results = function.dfg.inst_results(inst);
                    if results.len() > 0 {
                        match define_value(&mut act.frame, results[0], v) {
                            Err(t) => {
                                self.halt();
                                return Err(t);
                            },
                            Ok(()) => {},
                        }
                    }
                    act.position = act.position + 1;
                    self.stack.push(act);
                    proof {
                        assert(self@.stack =~= mid.advance(act@.frame).stack);
                        assert(mid.wf());
                        mid.lemma_advance_wf(act@.frame);
                    }
                    Ok(())
                },
                Err(e) => {
                    self.halt();
                    Err(Trap::TraceError(e))
                },
            },
            _ => {
                self.halt();
                Err(Trap::Unknown)
            },
        }
    }

    /// Calls the function `func_ref` with `arguments` and runs it to its
    /// end, without a native runner; see [`spec_call`]. What it returns is
    /// never `Continue` or `ContinueAt`.
    pub fn call_by_index(&mut self, func_ref: FuncRef, arguments: &[DataValue]) -> (r: Result<
        ControlFlow,
        Trap,
    >)
        requires
            old(self).wf(),
        ensures
            final(self).spec_step_limit() == old(self).spec_step_limit(),
            final(self).wf(),
            final(self)@ == spec_call(
                old(self)@,
                func_ref,
                arguments@,
                old(self).spec_step_limit() as nat,
            ).0,
            call_matches(
                r,
                spec_call(old(self)@, func_ref, arguments@, old(self).spec_step_limit() as nat).1,
            ),
    {
        let ghost m0 = self@;
        proof {
            m0.lemma_halt_wf();
        }
        if !self.is_idle() {
            return Err(Trap::pending());
        }
        proof {
            m0.lemma_enter_wf(func_ref, arguments@);
        }
        match self.start_by_index(func_ref, arguments) {
            Err(t) => {
                self.halt();
                proof {
                    assert(self@ =~= m0.halt());
                }
                return Err(t);
            },
            Ok(()) => {},
        }
        proof {
            self@.lemma_run_wf(self.step_limit as nat);
        }
        match self.resume(self.step_limit) {
            Err(t) => Err(t),
            Ok(Progress::Returned(vals)) => Ok(ControlFlow::Return(vals)),
            Ok(Progress::Request(Request::Compile { .. })) => {
                self.halt();
                Err(Trap::no_runner())
            },
            Ok(Progress::Request(Request::Execute { .. })) => {
                self.halt();
                Err(Trap::no_runner_to_execute())
            },
            Ok(Progress::OutOfSteps) => {
                self.halt();
                Err(Trap::StepLimit)
            },
        }
    }

    /// Calls the function that was added last under `func_name`; see
    /// [`spec_call_by_name`].
    pub fn call_by_name(&mut self, func_name: &str, arguments: &[DataValue]) -> (r: Result<
        ControlFlow,
        Trap,
    >)
        requires
            old(self).wf(),
        ensures
            final(self).spec_step_limit() == old(self).spec_step_limit(),
            final(self).wf(),
            final(self)@ == spec_call_by_name(
                old(self)@,
                func_name@,
                arguments@,
                old(self).spec_step_limit() as nat,
            ).0,
            call_matches(
                r,
                spec_call_by_name(
                    old(self)@,
                    func_name@,
                    arguments@,
                    old(self).spec_step_limit() as nat,
                ).1,
            ),
    {
        match self.env.index_of(func_name) {
            None => Err(Trap::InvalidFunctionName(String::from_str(func_name))),
            Some(func_ref) => self.call_by_index(func_ref, arguments),
        }
    }

    /// Enters a call of the function that was added last under `func_name`,
    /// to be run with [`resume`](Self::resume).
    pub fn start_by_name(&mut self, func_name: &str, arguments: &[DataValue]) -> (r: Result<
        (),
        Trap,
    >)
        requires
            old(self).wf(),
        ensures
            final(self).spec_step_limit() == old(self).spec_step_limit(),
            final(self).wf(),
            match old(self)@.env.index_of(func_name@) {
                None => r matches Err(t) && t@ == TrapModel::InvalidFunctionName(func_name@)
                    && final(self)@ == old(self)@,
                Some(f) => if !old(self)@.is_idle() {
                    r matches Err(t) && t@ == TrapModel::InvalidControlFlow(
                        crate::trap::pending_text(),
                    ) && final(self)@ == old(self)@
                } else {
                    match old(self)@.enter(f, arguments@) {
                        Ok(m) => r is Ok && final(self)@ == m,
                        Err(e) => r matches Err(t) && t@ == e && final(self)@ == old(self)@,
                    }
                },
            },
    {
        match self.env.index_of(func_name) {
            None => Err(Trap::InvalidFunctionName(String::from_str(func_name))),
            Some(func_ref) => self.start_by_index(func_ref, arguments),
        }
    }
}

} // verus!

#![allow(dead_code, unused_imports)]
use clif_interp::data_value::{DataValue, ValueError};
use clif_interp::environment::Environment;
use clif_interp::interpreter::{ControlFlow, Interpreter, Progress, Request, StepOutcome};
use clif_interp::ir::entities::{Block, FuncRef, Inst, ValueRef};
use clif_interp::ir::function::{CallConv, Function};
use clif_interp::ir::instructions::{InstructionData, IntCC, Opcode, ValueList};
use clif_interp::ir::types::Type;
use clif_interp::machine::Pending;
use clif_interp::trace_store::CompiledCode;
use clif_interp::trap::{TraceError, Trap};

struct Builder {
    func: Function,
    block: Block,
}

impl Builder {
    fn new(name: &str, params: &[Type], returns: &[Type]) -> (Builder, Vec<ValueRef>) {
        let mut func = Function::with_name(name.to_string());
        for t in params {
            func.signature.params.push(*t);
        }
        for t in returns {
            func.signature.returns.push(*t);
        }
        let block = func.dfg.make_block();
        func.layout.append_block(block);
        let mut values = Vec::new();
        for t in params {
            values.push(func.dfg.append_block_param(block, *t));
        }
        (Builder { func, block }, values)
    }

    fn block(&mut self, params: &[Type]) -> (Block, Vec<ValueRef>) {
        let block = self.func.dfg.make_block();
        let mut values = Vec::new();
        for t in params {
            values.push(self.func.dfg.append_block_param(block, *t));
        }
        (block, values)
    }

    fn switch_to(&mut self, block: Block) {
        self.func.layout.append_block(block);
        self.block = block;
    }

    fn list(&mut self, values: &[ValueRef]) -> ValueList {
        self.func.dfg.make_value_list(&values.to_vec())
    }

    fn inst(&mut self, data: InstructionData) -> Inst {
        let inst = self.func.dfg.make_inst(data);
        self.func.layout.append_inst(inst, self.block);
        inst
    }

    fn value(&mut self, data: InstructionData, ty: Type) -> ValueRef {
        let inst = self.inst(data);
        self.func.dfg.append_result(inst, ty)
    }

    fn binary(&mut self, opcode: Opcode, a: ValueRef, b: ValueRef, ty: Type) -> ValueRef {
        self.value(InstructionData::Binary { opcode, a, b }, ty)
    }

    fn iconst(&mut self, imm: i64, ty: Type) -> ValueRef {
        self.value(InstructionData::UnaryImm { opcode: Opcode::Iconst, imm }, ty)
    }

    fn bconst(&mut self, imm: bool, ty: Type) -> ValueRef {
        self.value(InstructionData::UnaryBool { opcode: Opcode::Bconst, imm }, ty)
    }

    fn nop(&mut self) -> Inst {
        self.inst(InstructionData::NullAry { opcode: Opcode::Nop })
    }

    fn ret(&mut self, values: &[ValueRef]) -> Inst {
        let args = self.list(values);
        self.inst(InstructionData::MultiAry { opcode: Opcode::Return, args })
    }

    fn jump(&mut self, opcode: Opcode, destination: Block, values: &[ValueRef]) -> Inst {
        let args = self.list(values);
        self.inst(InstructionData::Jump { opcode, args, destination })
    }

    fn brnz(&mut self, cond: ValueRef, destination: Block, values: &[ValueRef]) -> Inst {
        let mut all = vec![cond];
        all.extend_from_slice(values);
        let args = self.list(&all);
        self.inst(InstructionData::Branch { opcode: Opcode::Brnz, args, destination })
    }

    fn call(&mut self, name: &str, values: &[ValueRef], results: &[Type]) -> Vec<ValueRef> {
        let func_ref = self.func.dfg.import_function(name.to_string());
        let args = self.list(values);
        let inst = self.inst(InstructionData::Call { opcode: Opcode::Call, args, func_ref });
        results.iter().map(|t| self.func.dfg.append_result(inst, *t)).collect()
    }

    fn trace_start(&mut self, id: i64) -> Inst {
        let args = self.list(&[]);
        self.inst(InstructionData::MultiAryImm { opcode: Opcode::TraceStart, imm: id, args })
    }

    fn trace_end(&mut self, id: i64) -> Inst {
        self.inst(InstructionData::UnaryImm { opcode: Opcode::TraceEnd, imm: id })
    }

    fn finish(self) -> Function {
        self.func
    }
}

fn add_function() -> Function {
    let (mut b, p) = Builder::new("%add", &[Type::I32, Type::I32], &[Type::I32]);
    let sum = b.binary(Opcode::Iadd, p[0], p[1], Type::I32);
    b.ret(&[sum]);
    b.finish()
}

fn interpreter_of(functions: Vec<(&str, Function)>) -> Interpreter {
    let mut env = Environment::new();
    for (name, function) in functions {
        env.add(name.to_string(), function);
    }
    Interpreter::new(env)
}

fn returned(r: Result<ControlFlow, Trap>) -> Vec<DataValue> {
    match r {
        Ok(ControlFlow::Return(values)) => values,
        other => panic!("did not return: {:?}", other),
    }
}

#[test]
fn nop_and_bconst_return_true() {
    let (mut b, _) = Builder::new("%t", &[], &[Type::B8]);
    b.nop();
    let v1 = b.bconst(true, Type::B8);
    b.ret(&[v1]);
    let mut interpreter = interpreter_of(vec![("%t", b.finish())]);
    assert_eq!(returned(interpreter.call_by_name("%t", &[])), vec![DataValue::B(true)]);
}

#[test]
fn call_by_name_adds() {
    let mut interpreter = interpreter_of(vec![("%add", add_function())]);
    let r = interpreter.call_by_name("%add", &[DataValue::I32(3), DataValue::I32(4)]);
    assert_eq!(returned(r), vec![DataValue::I32(7)]);
}

#[test]
fn call_by_index_adds() {
    let mut interpreter = interpreter_of(vec![("%add", add_function())]);
    let f = interpreter.env().index_of("%add").unwrap();
    assert_eq!(f, FuncRef::from_u32(0));
    let r = interpreter.call_by_index(f, &[DataValue::I32(-3), DataValue::I32(4)]);
    assert_eq!(returned(r), vec![DataValue::I32(1)]);
}

#[test]
fn iadd_wraps() {
    let mut interpreter = interpreter_of(vec![("%add", add_function())]);
    let r = interpreter.call_by_name("%add", &[DataValue::I32(i32::MAX), DataValue::I32(1)]);
    assert_eq!(returned(r), vec![DataValue::I32(i32::MIN)]);
}

#[test]
fn irsub_imm_subtracts_from_the_immediate() {
    let (mut b, p) = Builder::new("%rsub", &[Type::I32], &[Type::I32]);
    let r = b.value(
        InstructionData::BinaryImm { opcode: Opcode::IrsubImm, arg: p[0], imm: 10 },
        Type::I32,
    );
    b.ret(&[r]);
    let mut interpreter = interpreter_of(vec![("%rsub", b.finish())]);
    let r = interpreter.call_by_name("%rsub", &[DataValue::I32(3)]);
    assert_eq!(returned(r), vec![DataValue::I32(7)]);
}

#[test]
fn iconst_is_cast_to_the_type_of_its_result() {
    let (mut b, _) = Builder::new("%c", &[], &[Type::I8]);
    let v = b.iconst(0x1ff, Type::I8);
    b.ret(&[v]);
    let mut interpreter = interpreter_of(vec![("%c", b.finish())]);
    assert_eq!(returned(interpreter.call_by_name("%c", &[])), vec![DataValue::I8(-1)]);
}

fn branching_function() -> Function {
    // block0(v0): brnz v0, block1(v0); v1 = iconst 0; return v1
    // block1(v2): return v2
    let (mut b, p) = Builder::new("%br", &[Type::I32], &[Type::I32]);
    let (block1, q) = b.block(&[Type::I32]);
    b.brnz(p[0], block1, &[p[0]]);
    let zero = b.iconst(100, Type::I32);
    b.ret(&[zero]);
    b.switch_to(block1);
    b.ret(&[q[0]]);
    b.finish()
}

#[test]
fn brnz_branches_on_nonzero() {
    let mut interpreter = interpreter_of(vec![("%br", branching_function())]);
    let r = interpreter.call_by_name("%br", &[DataValue::I32(5)]);
    assert_eq!(returned(r), vec![DataValue::I32(5)]);
}

#[test]
fn brnz_falls_through_on_zero() {
    let mut interpreter = interpreter_of(vec![("%br", branching_function())]);
    let r = interpreter.call_by_name("%br", &[DataValue::I32(0)]);
    assert_eq!(returned(r), vec![DataValue::I32(100)]);
}

#[test]
fn brnz_refuses_a_float() {
    let (mut b, p) = Builder::new("%br", &[Type::F32], &[]);
    let (block1, _) = b.block(&[]);
    b.brnz(p[0], block1, &[]);
    b.ret(&[]);
    b.switch_to(block1);
    b.ret(&[]);
    let mut interpreter = interpreter_of(vec![("%br", b.finish())]);
    match interpreter.call_by_name("%br", &[DataValue::F32(0)]) {
        Err(Trap::InvalidType(text, v)) => {
            assert_eq!(text, "boolean or integer");
            assert_eq!(v, ValueRef::from_u32(0));
        }
        other => panic!("{:?}", other),
    }
}

fn compare_function(cond: IntCC, imm: i64) -> Function {
    let (mut b, p) = Builder::new("%cmp", &[Type::I8], &[Type::B1]);
    let r = b.value(
        InstructionData::IntCompareImm { opcode: Opcode::IcmpImm, arg: p[0], cond, imm },
        Type::B1,
    );
    b.ret(&[r]);
    b.finish()
}

#[test]
fn icmp_imm_compares() {
    let mut interpreter =
        interpreter_of(vec![("%cmp", compare_function(IntCC::UnsignedLessThanOrEqual, 5))]);
    let r = interpreter.call_by_name("%cmp", &[DataValue::I8(5)]);
    assert_eq!(returned(r), vec![DataValue::B(true)]);
    let r = interpreter.call_by_name("%cmp", &[DataValue::I8(6)]);
    assert_eq!(returned(r), vec![DataValue::B(false)]);
    // Without a sign, -1 is the largest 8-bit number.
    let r = interpreter.call_by_name("%cmp", &[DataValue::I8(-1)]);
    assert_eq!(returned(r), vec![DataValue::B(false)]);
    let mut interpreter = interpreter_of(vec![("%cmp", compare_function(IntCC::Equal, -1))]);
    let r = interpreter.call_by_name("%cmp", &[DataValue::I8(-1)]);
    assert_eq!(returned(r), vec![DataValue::B(true)]);
    let mut interpreter =
        interpreter_of(vec![("%cmp", compare_function(IntCC::SignedLessThan, 0))]);
    let r = interpreter.call_by_name("%cmp", &[DataValue::I8(-1)]);
    assert_eq!(returned(r), vec![DataValue::B(true)]);
}

#[test]
fn icmp_imm_refuses_a_boolean() {
    let mut interpreter = interpreter_of(vec![("%cmp", compare_function(IntCC::Equal, 0))]);
    match interpreter.call_by_name("%cmp", &[DataValue::B(true)]) {
        Err(Trap::InvalidType(text, v)) => {
            assert_eq!(text, "integer");
            assert_eq!(v, ValueRef::from_u32(0));
        }
        other => panic!("{:?}", other),
    }
}

fn mul3_function() -> Function {
    let (mut b, p) = Builder::new("%mul3", &[Type::I32], &[Type::I32]);
    let double = b.binary(Opcode::Iadd, p[0], p[0], Type::I32);
    let r = b.call("%add", &[p[0], double], &[Type::I32]);
    b.ret(&[r[0]]);
    b.finish()
}

#[test]
fn call_instruction_calls_by_name() {
    let mut interpreter =
        interpreter_of(vec![("%mul3", mul3_function()), ("%add", add_function())]);
    let r = interpreter.call_by_name("%mul3", &[DataValue::I32(5)]);
    assert_eq!(returned(r), vec![DataValue::I32(15)]);
    assert!(interpreter.is_idle());
}

#[test]
fn unknown_function_name_traps() {
    let mut interpreter = interpreter_of(vec![("%add", add_function())]);
    match interpreter.call_by_name("%sub", &[]) {
        Err(Trap::InvalidFunctionName(name)) => assert_eq!(name, "%sub"),
        other => panic!("{:?}", other),
    }
    let mut interpreter = interpreter_of(vec![("%mul3", mul3_function())]);
    match interpreter.call_by_name("%mul3", &[DataValue::I32(5)]) {
        Err(Trap::InvalidFunctionName(name)) => assert_eq!(name, "%add"),
        other => panic!("{:?}", other),
    }
}

#[test]
fn unknown_function_reference_traps() {
    let mut interpreter = interpreter_of(vec![("%add", add_function())]);
    match interpreter.call_by_index(FuncRef::from_u32(7), &[]) {
        Err(Trap::InvalidFunctionReference(f)) => assert_eq!(f, FuncRef::from_u32(7)),
        other => panic!("{:?}", other),
    }
}

#[test]
fn wrong_number_of_arguments_traps() {
    let mut interpreter = interpreter_of(vec![("%add", add_function())]);
    match interpreter.call_by_name("%add", &[DataValue::I32(1)]) {
        Err(Trap::InvalidControlFlow(_)) => {}
        other => panic!("{:?}", other),
    }
}

#[test]
fn block_without_terminator_is_unreachable() {
    let (mut b, _) = Builder::new("%t", &[], &[]);
    b.nop();
    let mut interpreter = interpreter_of(vec![("%t", b.finish())]);
    assert!(matches!(interpreter.call_by_name("%t", &[]), Err(Trap::Unreachable)));
}

#[test]
fn reading_an_unset_value_traps() {
    // block0: jump block1; block1(v0): v1 = iadd v0, v2 where v2 is never set
    let (mut b, _) = Builder::new("%t", &[], &[Type::I32]);
    let (block1, _) = b.block(&[]);
    let a = b.iconst(1, Type::I32);
    b.jump(Opcode::Jump, block1, &[]);
    b.switch_to(block1);
    // The transfer to block1 unsets every value but the parameters.
    b.ret(&[a]);
    let mut interpreter = interpreter_of(vec![("%t", b.finish())]);
    match interpreter.call_by_name("%t", &[]) {
        Err(Trap::UnboundValue(v)) => assert_eq!(v, a),
        other => panic!("{:?}", other),
    }
}

#[test]
fn type_mismatch_is_a_value_trap() {
    let mut interpreter = interpreter_of(vec![("%add", add_function())]);
    match interpreter.call_by_name("%add", &[DataValue::I32(1), DataValue::I64(1)]) {
        Err(Trap::Value(ValueError::TypeMismatch)) => {}
        other => panic!("{:?}", other),
    }
}

#[test]
fn unknown_opcode_is_unimplemented() {
    let (mut b, p) = Builder::new("%t", &[Type::I32], &[]);
    b.value(InstructionData::Load { opcode: Opcode::Load, arg: p[0], offset: 0 }, Type::I32);
    b.ret(&[]);
    let mut interpreter = interpreter_of(vec![("%t", b.finish())]);
    match interpreter.call_by_name("%t", &[DataValue::I32(0)]) {
        Err(Trap::Unimplemented(Opcode::Load)) => {}
        other => panic!("{:?}", other),
    }
}

fn looping_function() -> Function {
    // block0(v0): jump block1(v0); block1(v1): jump block1(v1)
    let (mut b, p) = Builder::new("%loop", &[Type::I32], &[]);
    let (block1, q) = b.block(&[Type::I32]);
    b.jump(Opcode::Jump, block1, &[p[0]]);
    b.switch_to(block1);
    b.jump(Opcode::Jump, block1, &[q[0]]);
    b.finish()
}

#[test]
fn step_limit_stops_a_loop() {
    let mut interpreter =
        interpreter_of(vec![("%loop", looping_function())]).with_step_limit(1000);
    assert!(matches!(
        interpreter.call_by_name("%loop", &[DataValue::I32(0)]),
        Err(Trap::StepLimit)
    ));
    assert!(interpreter.is_idle());
}

#[test]
fn interpretation_does_not_depend_on_spare_steps() {
    for limit in [5u64, 6, 100, u64::MAX] {
        let mut interpreter =
            interpreter_of(vec![("%mul3", mul3_function()), ("%add", add_function())])
                .with_step_limit(limit);
        let r = interpreter.call_by_name("%mul3", &[DataValue::I32(5)]);
        assert_eq!(returned(r), vec![DataValue::I32(15)]);
    }
    let mut interpreter =
        interpreter_of(vec![("%mul3", mul3_function()), ("%add", add_function())])
            .with_step_limit(4);
    assert!(matches!(
        interpreter.call_by_name("%mul3", &[DataValue::I32(5)]),
        Err(Trap::StepLimit)
    ));
}

#[test]
fn interpretation_is_repeatable() {
    let mut interpreter =
        interpreter_of(vec![("%mul3", mul3_function()), ("%add", add_function())]);
    let first = returned(interpreter.call_by_name("%mul3", &[DataValue::I32(-7)]));
    let second = returned(interpreter.call_by_name("%mul3", &[DataValue::I32(-7)]));
    assert_eq!(first, second);
    assert_eq!(first, vec![DataValue::I32(-21)]);
}

fn traced_function() -> Function {
    // block0(v0): trace_start 7; v1 = iadd v0, v0; trace_end 7; return v1
    let (mut b, p) = Builder::new("%traced", &[Type::I32], &[Type::I32]);
    b.trace_start(7);
    let v1 = b.binary(Opcode::Iadd, p[0], p[0], Type::I32);
    b.trace_end(7);
    b.ret(&[v1]);
    b.finish()
}

#[test]
fn trace_end_without_a_runner_fails_to_compile() {
    let mut interpreter = interpreter_of(vec![("%traced", traced_function())]);
    match interpreter.call_by_name("%traced", &[DataValue::I32(2)]) {
        Err(Trap::TraceError(TraceError::CompilationFailed(_))) => {}
        other => panic!("{:?}", other),
    }
    assert!(interpreter.is_idle());
}

#[test]
fn driver_compiles_and_runs_a_trace() {
    let mut interpreter = interpreter_of(vec![("%traced", traced_function())]);
    interpreter.start_by_name("%traced", &[DataValue::I32(2)]).unwrap();
    // The first run records the trace and asks for its compilation.
    let id = match interpreter.resume(100).unwrap() {
        Progress::Request(Request::Compile { id, function }) => {
            assert_eq!(function.dfg.num_insts(), 2);
            id
        }
        other => panic!("{:?}", other),
    };
    assert_eq!(id, 7);
    assert_eq!(interpreter.pending(), Pending::Compile(7));
    interpreter.compiled(Ok(CompiledCode::new(1, 16))).unwrap();
    assert!(interpreter.store().contains(7));
    match interpreter.resume(100).unwrap() {
        Progress::Returned(values) => assert_eq!(values, vec![DataValue::I32(4)]),
        other => panic!("{:?}", other),
    }
    // The second run finds the compiled trace and asks for its execution.
    interpreter.start_by_name("%traced", &[DataValue::I32(3)]).unwrap();
    match interpreter.resume(100).unwrap() {
        Progress::Request(Request::Execute { id, code, args }) => {
            assert_eq!(id, 7);
            assert_eq!(code, CompiledCode::new(1, 16));
            assert!(args.is_empty());
        }
        other => panic!("{:?}", other),
    }
    assert_eq!(interpreter.pending(), Pending::Execute(7));
    interpreter.executed(Ok(DataValue::I32(0))).unwrap();
    // Tracing is off now, so the trace_end that follows cannot end a trace.
    assert!(matches!(interpreter.resume(100), Err(Trap::InvalidControlFlow(_))));
}

#[test]
fn failures_of_the_driver_are_trace_errors() {
    let mut interpreter = interpreter_of(vec![("%traced", traced_function())]);
    interpreter.start_by_name("%traced", &[DataValue::I32(2)]).unwrap();
    assert!(matches!(interpreter.resume(100), Ok(Progress::Request(_))));
    match interpreter.compiled(Err("no code".to_string())) {
        Err(Trap::TraceError(TraceError::CompilationFailed(m))) => assert_eq!(m, "no code"),
        other => panic!("{:?}", other),
    }
    assert!(interpreter.is_idle());

    let mut interpreter = interpreter_of(vec![("%traced", traced_function())]);
    interpreter.start_by_name("%traced", &[DataValue::I32(2)]).unwrap();
    assert!(matches!(interpreter.resume(100), Ok(Progress::Request(_))));
    interpreter.compiled(Ok(CompiledCode::new(1, 16))).unwrap();
    assert!(matches!(interpreter.resume(100), Ok(Progress::Returned(_))));
    interpreter.start_by_name("%traced", &[DataValue::I32(2)]).unwrap();
    assert!(matches!(interpreter.resume(100), Ok(Progress::Request(_))));
    match interpreter.executed(Err("crashed".to_string())) {
        Err(Trap::TraceError(TraceError::ExecutionFailed(m))) => assert_eq!(m, "crashed"),
        other => panic!("{:?}", other),
    }
}

#[test]
fn resume_can_run_out_of_steps_and_go_on() {
    let mut interpreter =
        interpreter_of(vec![("%mul3", mul3_function()), ("%add", add_function())]);
    interpreter.start_by_name("%mul3", &[DataValue::I32(5)]).unwrap();
    assert!(matches!(interpreter.resume(2), Ok(Progress::OutOfSteps)));
    assert!(!interpreter.is_idle());
    match interpreter.resume(100).unwrap() {
        Progress::Returned(values) => assert_eq!(values, vec![DataValue::I32(15)]),
        other => panic!("{:?}", other),
    }
}

#[test]
fn a_busy_interpreter_refuses_a_call() {
    let mut interpreter = interpreter_of(vec![("%add", add_function())]);
    interpreter.start_by_name("%add", &[DataValue::I32(1), DataValue::I32(2)]).unwrap();
    assert!(matches!(
        interpreter.call_by_name("%add", &[DataValue::I32(1), DataValue::I32(2)]),
        Err(Trap::InvalidControlFlow(_))
    ));
}

#[test]
fn trap_messages() {
    assert_eq!(Trap::Unknown.message(), "unknown trap");
    assert_eq!(Trap::Unreachable.message(), "reached an unreachable statement");
    assert_eq!(
        Trap::InvalidType("integer".to_string(), ValueRef::from_u32(12)).message(),
        "invalid type for v12: expected integer"
    );
    assert_eq!(
        Trap::InvalidFunctionReference(FuncRef::from_u32(3)).message(),
        "invalid function reference: fn3"
    );
    assert_eq!(
        Trap::InvalidFunctionName("%f".to_string()).message(),
        "invalid function name: %f"
    );
    assert_eq!(
        Trap::TraceError(TraceError::CompilationFailed("x".to_string())).message(),
        "trace compilation failed: x"
    );
    assert_eq!(
        TraceError::ExecutionFailed("y".to_string()).message(),
        "trace execution failed: y"
    );
}

#[test]
fn inst_runs_every_family() {
    // A call enters the callee; the callee's return binds the result.
    let mut interpreter =
        interpreter_of(vec![("%mul3", mul3_function()), ("%add", add_function())]);
    interpreter.start_by_name("%mul3", &[DataValue::I32(5)]).unwrap();
    assert!(matches!(interpreter.inst(Inst::from_u32(0)), Ok(StepOutcome::Running)));
    assert!(matches!(interpreter.inst(Inst::from_u32(1)), Ok(StepOutcome::Running)));
    // Now the callee runs: its iadd and its return.
    assert!(matches!(interpreter.inst(Inst::from_u32(0)), Ok(StepOutcome::Running)));
    assert!(matches!(interpreter.inst(Inst::from_u32(1)), Ok(StepOutcome::Running)));
    match interpreter.inst(Inst::from_u32(2)) {
        Ok(StepOutcome::Returned(values)) => assert_eq!(values, vec![DataValue::I32(15)]),
        other => panic!("{:?}", other),
    }
    // A trap of the callee is the trap of the call.
    let mut interpreter = interpreter_of(vec![("%mul3", mul3_function())]);
    interpreter.start_by_name("%mul3", &[DataValue::I32(5)]).unwrap();
    assert!(matches!(interpreter.inst(Inst::from_u32(0)), Ok(StepOutcome::Running)));
    assert!(matches!(interpreter.inst(Inst::from_u32(1)), Err(Trap::InvalidFunctionName(_))));
    assert!(interpreter.is_idle());

    // A trace_start turns tracing on and goes on; a trace_end asks for the
    // compilation, and goes on with the id stored.
    let mut interpreter = interpreter_of(vec![("%traced", traced_function())]);
    interpreter.start_by_name("%traced", &[DataValue::I32(2)]).unwrap();
    assert!(matches!(interpreter.inst(Inst::from_u32(0)), Ok(StepOutcome::Running)));
    assert_eq!(interpreter.trace().tracing(), Some(7));
    assert_eq!(interpreter.trace().len(), 1);
    assert!(matches!(interpreter.inst(Inst::from_u32(1)), Ok(StepOutcome::Running)));
    match interpreter.inst(Inst::from_u32(2)) {
        Ok(StepOutcome::Request(Request::Compile { id, .. })) => assert_eq!(id, 7),
        other => panic!("{:?}", other),
    }
    assert_eq!(interpreter.trace().tracing(), None);
    assert_eq!(interpreter.trace().len(), 2);
    interpreter.compiled(Ok(CompiledCode::new(3, 8))).unwrap();
    assert!(interpreter.store().contains(7));
    match interpreter.inst(Inst::from_u32(3)) {
        Ok(StepOutcome::Returned(values)) => assert_eq!(values, vec![DataValue::I32(4)]),
        other => panic!("{:?}", other),
    }
    // With the code stored, a trace_start asks for it to be run.
    interpreter.start_by_name("%traced", &[DataValue::I32(2)]).unwrap();
    match interpreter.inst(Inst::from_u32(0)) {
        Ok(StepOutcome::Request(Request::Execute { id, .. })) => assert_eq!(id, 7),
        other => panic!("{:?}", other),
    }
    assert_eq!(interpreter.trace().tracing(), None);
    assert_eq!(interpreter.trace().len(), 2);
}

#[test]
fn a_call_that_leaves_tracing_on_changes_the_next() {
    // block0: trace_start 1; return
    let (mut b, _) = Builder::new("%t", &[], &[]);
    b.trace_start(1);
    b.ret(&[]);
    let mut interpreter = interpreter_of(vec![("%t", b.finish())]);
    assert_eq!(returned(interpreter.call_by_name("%t", &[])), vec![]);
    assert_eq!(interpreter.trace().tracing(), Some(1));
    // The second call finds the trace on.
    assert!(matches!(interpreter.call_by_name("%t", &[]), Err(Trap::InvalidControlFlow(_))));
}

#[test]
fn a_call_that_only_adds_to_the_record_gives_the_same_again() {
    // The first function turns tracing on and leaves it on.
    let (mut b, _) = Builder::new("%on", &[], &[]);
    b.trace_start(1);
    b.ret(&[]);
    let mut interpreter = interpreter_of(vec![
        ("%on", b.finish()),
        ("%mul3", mul3_function()),
        ("%add", add_function()),
    ]);
    assert_eq!(returned(interpreter.call_by_name("%on", &[])), vec![]);
    let before = interpreter.trace().len();
    let first = returned(interpreter.call_by_name("%mul3", &[DataValue::I32(4)]));
    let between = interpreter.trace().len();
    let second = returned(interpreter.call_by_name("%mul3", &[DataValue::I32(4)]));
    assert_eq!(first, second);
    assert_eq!(first, vec![DataValue::I32(12)]);
    // Both calls were recorded.
    assert!(before < between && between < interpreter.trace().len());
    assert_eq!(interpreter.trace().tracing(), Some(1));
}

#[test]
fn a_call_that_traces_changes_what_the_next_gives() {
    // block0: trace_start 1; trace_end 1; return
    let (mut b, _) = Builder::new("%t", &[], &[]);
    b.trace_start(1);
    b.trace_end(1);
    b.ret(&[]);
    let mut interpreter = interpreter_of(vec![("%t", b.finish())]);
    // Tracing is off before and after both calls, but the record is not the
    // same: the first trace can be reconstructed, the second cannot.
    let first = match interpreter.call_by_name("%t", &[]) {
        Err(Trap::TraceError(TraceError::CompilationFailed(m))) => m,
        other => panic!("{:?}", other),
    };
    assert_eq!(interpreter.trace().tracing(), None);
    let second = match interpreter.call_by_name("%t", &[]) {
        Err(Trap::TraceError(TraceError::CompilationFailed(m))) => m,
        other => panic!("{:?}", other),
    };
    assert_eq!(interpreter.trace().tracing(), None);
    assert_ne!(first, second);
}

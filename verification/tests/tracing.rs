#![allow(dead_code, unused_imports)]
use clif_interp::data_value::{DataValue, ValueError};
use clif_interp::environment::Environment;
use clif_interp::interpreter::{ControlFlow, Interpreter, Progress, Request};
use clif_interp::ir::dfg::ValueDef;
use clif_interp::ir::entities::{Block, FuncRef, Inst, ValueRef};
use clif_interp::ir::function::{CallConv, Function};
use clif_interp::ir::instructions::{InstructionData, IntCC, Opcode, ValueList};
use clif_interp::ir::types::Type;
use clif_interp::reconstruct::FunctionReconstructor;
use clif_interp::trace::{Trace, TracedInstruction};
use clif_interp::trace_store::{CompiledCode, TraceStore};
use clif_interp::trap::{TraceError, Trap};

struct Builder {
    func: Function,
    block: Block,
}

impl Builder {
    fn new(name: &str, params: &[Type], returns: &[Type]) -> (Builder, Vec<ValueRef>) {
        let mut func = Function::with_name(name.to_string());
        for t in params {
            func.signature.params.push(*t);
        }
        for t in returns {
            func.signature.returns.push(*t);
        }
        let block = func.dfg.make_block();
        func.layout.append_block(block);
        let mut values = Vec::new();
        for t in params {
            values.push(func.dfg.append_block_param(block, *t));
        }
        (Builder { func, block }, values)
    }

    fn block(&mut self, params: &[Type]) -> (Block, Vec<ValueRef>) {
        let block = self.func.dfg.make_block();
        let mut values = Vec::new();
        for t in params {
            values.push(self.func.dfg.append_block_param(block, *t));
        }
        (block, values)
    }

    fn switch_to(&mut self, block: Block) {
        self.func.layout.append_block(block);
        self.block = block;
    }

    fn list(&mut self, values: &[ValueRef]) -> ValueList {
        self.func.dfg.make_value_list(&values.to_vec())
    }

    fn inst(&mut self, data: InstructionData) -> Inst {
        let inst = self.func.dfg.make_inst(data);
        self.func.layout.append_inst(inst, self.block);
        inst
    }

    fn value(&mut self, data: InstructionData, ty: Type) -> ValueRef {
        let inst = self.inst(data);
        self.func.dfg.append_result(inst, ty)
    }

    fn binary(&mut self, opcode: Opcode, a: ValueRef, b: ValueRef, ty: Type) -> ValueRef {
        self.value(InstructionData::Binary { opcode, a, b }, ty)
    }

    fn iconst(&mut self, imm: i64, ty: Type) -> ValueRef {
        self.value(InstructionData::UnaryImm { opcode: Opcode::Iconst, imm }, ty)
    }

    fn bconst(&mut self, imm: bool, ty: Type) -> ValueRef {
        self.value(InstructionData::UnaryBool { opcode: Opcode::Bconst, imm }, ty)
    }

    fn nop(&mut self) -> Inst {
        self.inst(InstructionData::NullAry { opcode: Opcode::Nop })
    }

    fn ret(&mut self, values: &[ValueRef]) -> Inst {
        let args = self.list(values);
        self.inst(InstructionData::MultiAry { opcode: Opcode::Return, args })
    }

    fn jump(&mut self, opcode: Opcode, destination: Block, values: &[ValueRef]) -> Inst {
        let args = self.list(values);
        self.inst(InstructionData::Jump { opcode, args, destination })
    }

    fn brnz(&mut self, cond: ValueRef, destination: Block, values: &[ValueRef]) -> Inst {
        let mut all = vec![cond];
        all.extend_from_slice(values);
        let args = self.list(&all);
        self.inst(InstructionData::Branch { opcode: Opcode::Brnz, args, destination })
    }

    fn call(&mut self, name: &str, values: &[ValueRef], results: &[Type]) -> Vec<ValueRef> {
        let func_ref = self.func.dfg.import_function(name.to_string());
        let args = self.list(values);
        let inst = self.inst(InstructionData::Call { opcode: Opcode::Call, args, func_ref });
        results.iter().map(|t| self.func.dfg.append_result(inst, *t)).collect()
    }

    fn trace_start(&mut self, id: i64) -> Inst {
        let args = self.list(&[]);
        self.inst(InstructionData::MultiAryImm { opcode: Opcode::TraceStart, imm: id, args })
    }

    fn trace_end(&mut self, id: i64) -> Inst {
        self.inst(InstructionData::UnaryImm { opcode: Opcode::TraceEnd, imm: id })
    }

    fn finish(self) -> Function {
        self.func
    }
}

fn text_of_type(ty: Type) -> String {
    format!("{:?}", ty).to_lowercase()
}

fn value_names(values: &[ValueRef]) -> String {
    values.iter().map(|v| format!("v{}", v.as_u32())).collect::<Vec<String>>().join(", ")
}

/// The function as text, in the form in which test files are written.
fn describe(func: &Function) -> String {
    let params: Vec<String> = func.signature.params.iter().map(|t| text_of_type(*t)).collect();
    let mut out = format!("function u0:0({})", params.join(", "));
    if !func.signature.returns.is_empty() {
        let returns: Vec<String> = func.signature.returns.iter().map(|t| text_of_type(*t)).collect();
        out.push_str(&format!(" -> {}", returns.join(", ")));
    }
    out.push_str(" {\n");
    for block in func.layout.blocks().iter() {
        let params: Vec<String> = func
            .dfg
            .block_params(*block)
            .iter()
            .map(|v| format!("v{}: {}", v.as_u32(), text_of_type(func.dfg.value_type(*v))))
            .collect();
        if params.is_empty() {
            out.push_str(&format!("block{}:\n", block.as_u32()));
        } else {
            out.push_str(&format!("block{}({}):\n", block.as_u32(), params.join(", ")));
        }
        for inst in func.layout.block_insts(*block) {
            let data = func.dfg.inst(inst);
            let opcode = format!("{:?}", data.opcode()).to_lowercase();
            let results = func.dfg.inst_results(inst);
            let args = value_names(&func.dfg.inst_args(inst));
            let mut line = String::from("    ");
            if !results.is_empty() {
                line.push_str(&format!(
                    "{} = {}.{}",
                    value_names(results),
                    opcode,
                    text_of_type(func.dfg.value_type(results[0]))
                ));
            } else {
                line.push_str(&opcode);
            }
            match data {
                InstructionData::UnaryImm { imm, .. } => line.push_str(&format!(" {}", imm)),
                InstructionData::UnaryBool { imm, .. } => line.push_str(&format!(" {}", imm)),
                InstructionData::Jump { destination, .. } => {
                    line.push_str(&format!(" block{}", destination.as_u32()));
                    if !args.is_empty() {
                        line.push_str(&format!("({})", args));
                    }
                }
                _ => {
                    if !args.is_empty() {
                        line.push_str(&format!(" {}", args));
                    }
                }
            }
            out.push_str(&line);
            out.push('\n');
        }
    }
    out.push_str("}");
    out
}

/// Runs the first function on the arguments, with a driver that takes every
/// trace as compiled, and returns the environment's interpreter.
fn interpret(functions: Vec<(&str, Function)>, args: &[DataValue]) -> Interpreter {
    let mut env = Environment::new();
    let first = functions[0].0.to_string();
    for (name, function) in functions {
        env.add(name.to_string(), function);
    }
    let mut interpreter = Interpreter::new(env);
    interpreter.start_by_name(&first, args).unwrap();
    loop {
        match interpreter.resume(10_000).unwrap() {
            Progress::Returned(_) => break,
            Progress::Request(Request::Compile { .. }) => {
                interpreter.compiled(Ok(CompiledCode::new(1, 0))).unwrap();
            }
            other => panic!("{:?}", other),
        }
    }
    interpreter
}

fn to_function(interpreter: &Interpreter) -> Function {
    FunctionReconstructor::new(interpreter.trace(), interpreter.env()).build(CallConv::Fast)
}

#[test]
fn size_of() {
    assert_eq!(std::mem::size_of::<TracedInstruction>(), 8);
}

#[test]
fn reconstruct_single_block() {
    let (mut b, p) = Builder::new("%test", &[Type::I32, Type::I32], &[Type::I32]);
    b.trace_start(99);
    let v42 = b.binary(Opcode::Iadd, p[0], p[1], Type::I32);
    let v45 = b.binary(Opcode::Isub, v42, p[0], Type::I32);
    b.ret(&[v45]);
    let interpreter = interpret(
        vec![("%test", b.finish())],
        &[DataValue::I32(1), DataValue::I32(2)],
    );

    let reconstructed = to_function(&interpreter);
    let expected = "function u0:0(i32, i32) {
block0(v1: i32, v2: i32):
    v0 = iadd.i32 v1, v2
    v3 = isub.i32 v0, v1
    return
}";
    assert_eq!(describe(&reconstructed), expected);
}

#[test]
fn reconstruct_multiple_blocks() {
    let (mut b, p) = Builder::new("%mul3", &[Type::I32], &[]);
    let (block1, q) = b.block(&[Type::I32, Type::I32]);
    let (block2, r) = b.block(&[Type::I32, Type::I32]);
    b.trace_start(99);
    let v21 = b.binary(Opcode::Iadd, p[0], p[0], Type::I32);
    b.jump(Opcode::Fallthrough, block1, &[p[0], v21]);
    b.switch_to(block1);
    let v12 = b.binary(Opcode::Iadd, q[1], q[0], Type::I32);
    b.jump(Opcode::Fallthrough, block2, &[q[0], v12]);
    b.switch_to(block2);
    b.binary(Opcode::Iadd, r[1], r[0], Type::I32);
    b.trace_end(99);
    b.ret(&[]);
    let interpreter = interpret(vec![("%mul3", b.finish())], &[DataValue::I32(5)]);

    let reconstructed = to_function(&interpreter);
    let expected = "function u0:0(i32) {
block0(v1: i32):
    v0 = iadd.i32 v1, v1
    v2 = iadd.i32 v0, v1
    v3 = iadd.i32 v2, v1
    return
}";
    assert_eq!(describe(&reconstructed), expected);
    assert!(interpreter.store().contains(99));
}

fn add_function() -> Function {
    let (mut b, p) = Builder::new("%add", &[Type::I32, Type::I32], &[Type::I32]);
    let v19 = b.binary(Opcode::Iadd, p[0], p[1], Type::I32);
    b.ret(&[v19]);
    b.finish()
}

fn traced_mul3() -> Function {
    let (mut b, p) = Builder::new("%mul3", &[Type::I32], &[Type::I32]);
    b.trace_start(99);
    let v21 = b.binary(Opcode::Iadd, p[0], p[0], Type::I32);
    let v22 = b.call("%add", &[p[0], v21], &[Type::I32]);
    b.ret(&[v22[0]]);
    b.finish()
}

#[test]
fn reconstruct_jump() {
    let interpreter = interpret(
        vec![("%mul3", traced_mul3()), ("%add", add_function())],
        &[DataValue::I32(5)],
    );

    let reconstructed = to_function(&interpreter);
    let expected = "function u0:0(i32) {
block0(v1: i32):
    v0 = iadd.i32 v1, v1
    v2 = iadd.i32 v1, v0
    return
}";
    assert_eq!(describe(&reconstructed), expected);
}

#[test]
fn trace_across_a_call_is_balanced() {
    let interpreter = interpret(
        vec![("%mul3", traced_mul3()), ("%add", add_function())],
        &[DataValue::I32(5)],
    );
    let trace = interpreter.trace();
    let records: Vec<TracedInstruction> = (0..trace.len()).map(|k| trace.get(k)).collect();
    assert_eq!(
        records,
        vec![
            TracedInstruction::StartInFunction(FuncRef::from_u32(0)),
            TracedInstruction::Instruction(Inst::from_u32(1)),
            TracedInstruction::Instruction(Inst::from_u32(2)),
            TracedInstruction::EnterFunction(FuncRef::from_u32(1)),
            TracedInstruction::Instruction(Inst::from_u32(0)),
            TracedInstruction::Instruction(Inst::from_u32(1)),
            TracedInstruction::ExitFunction,
            TracedInstruction::Instruction(Inst::from_u32(3)),
        ]
    );
    let count = |f: fn(&TracedInstruction) -> bool| records.iter().filter(|r| f(r)).count();
    assert_eq!(count(|r| matches!(r, TracedInstruction::StartInFunction(_))), 1);
    assert_eq!(
        count(|r| matches!(r, TracedInstruction::EnterFunction(_))),
        count(|r| matches!(r, TracedInstruction::ExitFunction))
    );
    // At no point has the trace left more functions than it had entered.
    let mut depth = 0i32;
    for record in records.iter() {
        match record {
            TracedInstruction::EnterFunction(_) => depth += 1,
            TracedInstruction::ExitFunction => depth -= 1,
            _ => {}
        }
        assert!(depth >= 0);
    }
    assert_eq!(depth, 0);
}

#[test]
fn a_second_trace_on_one_interpreter_cannot_be_reconstructed() {
    // The record is not emptied when a trace ends, so a second trace holds
    // the records of two starts.
    let (mut b, _) = Builder::new("%t", &[], &[]);
    b.trace_start(1);
    b.nop();
    b.trace_end(1);
    b.trace_start(2);
    b.nop();
    b.trace_end(2);
    b.ret(&[]);
    let mut env = Environment::new();
    env.add("%t".to_string(), b.finish());
    let mut interpreter = Interpreter::new(env);
    interpreter.start_by_name("%t", &[]).unwrap();
    assert!(matches!(
        interpreter.resume(100),
        Ok(Progress::Request(Request::Compile { id: 1, .. }))
    ));
    interpreter.compiled(Ok(CompiledCode::new(1, 0))).unwrap();
    match interpreter.resume(100) {
        Err(Trap::TraceError(TraceError::CompilationFailed(_))) => {}
        other => panic!("{:?}", other),
    }
}

#[test]
fn a_result_of_a_call_is_not_a_free_input() {
    // block0(v0): trace_start 1; v1 = call %add(v0, v0); v2 = iadd v1, v0; return v2
    let (mut b, p) = Builder::new("%f", &[Type::I32], &[Type::I32]);
    b.trace_start(1);
    let v1 = b.call("%add", &[p[0], p[0]], &[Type::I32]);
    let v2 = b.binary(Opcode::Iadd, v1[0], p[0], Type::I32);
    b.ret(&[v2]);
    let mut env = Environment::new();
    env.add("%f".to_string(), b.finish());
    env.add("%add".to_string(), add_function());
    // The caller's argument is not known when the call is walked, so the
    // trace cannot be reconstructed.
    let trace = Trace::from_observed(vec![
        TracedInstruction::StartInFunction(FuncRef::from_u32(0)),
        TracedInstruction::Instruction(Inst::from_u32(1)),
    ]);
    assert!(FunctionReconstructor::new(&trace, &env).try_build(CallConv::Fast).is_none());
}

#[test]
fn returned_values_are_renumbered_in_the_caller() {
    // block0(v0): trace_start 1; v1 = iadd v0, v0; v2 = call %add(v0, v1);
    //             v3 = iadd v2, v0; return v3
    let (mut b, p) = Builder::new("%f", &[Type::I32], &[Type::I32]);
    b.trace_start(1);
    let v1 = b.binary(Opcode::Iadd, p[0], p[0], Type::I32);
    let v2 = b.call("%add", &[p[0], v1], &[Type::I32]);
    let v3 = b.binary(Opcode::Iadd, v2[0], p[0], Type::I32);
    b.ret(&[v3]);
    let interpreter =
        interpret(vec![("%f", b.finish()), ("%add", add_function())], &[DataValue::I32(5)]);
    let reconstructed = to_function(&interpreter);
    let expected = "function u0:0(i32) {
block0(v1: i32):
    v0 = iadd.i32 v1, v1
    v2 = iadd.i32 v1, v0
    v3 = iadd.i32 v2, v1
    return
}";
    assert_eq!(describe(&reconstructed), expected);
}

#[test]
fn reconstructed_function_computes_what_was_observed() {
    // block0(v0): trace_start 9; v1 = iadd v0, v0; v2 = call %add(v0, v1);
    //             trace_end 9; return v2
    let (mut b, p) = Builder::new("%mul3", &[Type::I32], &[Type::I32]);
    b.trace_start(9);
    let v1 = b.binary(Opcode::Iadd, p[0], p[0], Type::I32);
    let v2 = b.call("%add", &[p[0], v1], &[Type::I32]);
    b.trace_end(9);
    b.ret(&[v2[0]]);
    let interpreter =
        interpret(vec![("%mul3", b.finish()), ("%add", add_function())], &[DataValue::I32(5)]);
    // The trace is to return what the call returned.
    let reconstructed = FunctionReconstructor::new(interpreter.trace(), interpreter.env())
        .try_build_returning(CallConv::Fast, &vec![v2[0]])
        .unwrap();
    assert_eq!(
        describe(&reconstructed),
        "function u0:0(i32) -> i32 {
block0(v1: i32):
    v0 = iadd.i32 v1, v1
    v2 = iadd.i32 v1, v0
    return v2
}"
    );
    // Run on the free input of the observed run, it gives what was observed.
    let mut env = Environment::new();
    env.add("%trace".to_string(), reconstructed);
    let mut again = Interpreter::new(env);
    for n in [5, -7, i32::MAX] {
        match again.call_by_name("%trace", &[DataValue::I32(n)]) {
            Ok(ControlFlow::Return(values)) => {
                assert_eq!(values, vec![DataValue::I32(n.wrapping_mul(3))])
            }
            other => panic!("{:?}", other),
        }
    }
}

#[test]
fn reconstruction_across_a_jump_computes_what_was_observed() {
    // block0(v0): trace_start 9; v1 = iadd v0, v0; jump block1(v1)
    // block1(v2): v3 = call %add(v2, v2); v4 = isub v3, v2; trace_end 9; return v4
    let (mut b, p) = Builder::new("%f", &[Type::I32], &[Type::I32]);
    b.trace_start(9);
    let v1 = b.binary(Opcode::Iadd, p[0], p[0], Type::I32);
    let (block1, q) = b.block(&[Type::I32]);
    b.jump(Opcode::Jump, block1, &[v1]);
    b.switch_to(block1);
    let v3 = b.call("%add", &[q[0], q[0]], &[Type::I32]);
    let v4 = b.binary(Opcode::Isub, v3[0], q[0], Type::I32);
    b.trace_end(9);
    b.ret(&[v4]);
    let interpreter =
        interpret(vec![("%f", b.finish()), ("%add", add_function())], &[DataValue::I32(5)]);
    let reconstructed = FunctionReconstructor::new(interpreter.trace(), interpreter.env())
        .try_build_returning(CallConv::Fast, &vec![v4])
        .unwrap();
    assert_eq!(reconstructed.signature.params, vec![Type::I32]);
    assert_eq!(reconstructed.signature.returns, vec![Type::I32]);
    // Run on the free input of the observed run, it gives what the run gave:
    // (n + n) + (n + n) - (n + n).
    let mut env = Environment::new();
    env.add("%trace".to_string(), reconstructed);
    let mut again = Interpreter::new(env);
    for n in [5, -7, 1 << 30] {
        match again.call_by_name("%trace", &[DataValue::I32(n)]) {
            Ok(ControlFlow::Return(values)) => {
                assert_eq!(values, vec![DataValue::I32(n.wrapping_mul(2))])
            }
            other => panic!("{:?}", other),
        }
    }
}

#[test]
fn operands_of_a_reconstruction_are_defined_earlier() {
    let interpreter = interpret(
        vec![("%mul3", traced_mul3()), ("%add", add_function())],
        &[DataValue::I32(5)],
    );
    let reconstructed = to_function(&interpreter);
    assert!(reconstructed.is_well_formed());
    let mut operands = 0;
    for n in 0..reconstructed.dfg.num_insts() {
        let inst = Inst::from_u32(n as u32);
        for arg in reconstructed.dfg.inst_args(inst) {
            operands += 1;
            match reconstructed.dfg.value_def(arg) {
                ValueDef::Param(block, _) => assert_eq!(block, Block::from_u32(0)),
                ValueDef::Result(by, _) => assert!(by.index() < inst.index()),
            }
        }
    }
    assert_eq!(operands, 4);
}

#[test]
fn what_a_trace_returns_is_named_by_the_caller() {
    let interpreter = interpret_add_with_tracing();
    let build = |returned: Vec<ValueRef>| {
        FunctionReconstructor::new(interpreter.trace(), interpreter.env())
            .try_build_returning(CallConv::Fast, &returned)
    };
    // Nothing named, nothing returned.
    let bare = build(vec![]).unwrap();
    assert!(bare.signature.returns.is_empty());
    assert_eq!(
        describe(&bare),
        describe(
            &FunctionReconstructor::new(interpreter.trace(), interpreter.env())
                .build(CallConv::Fast)
        )
    );
    let two = build(vec![ValueRef::from_u32(3), ValueRef::from_u32(0)]).unwrap();
    assert_eq!(two.signature.returns, vec![Type::I32, Type::I32]);
    assert!(describe(&two).ends_with("    return v3, v0\n}"));
    // A value that the trace has not seen cannot be returned.
    assert!(build(vec![ValueRef::from_u32(77)]).is_none());
}

/// The function of the trace tests: a trace is started, four instructions
/// follow, and the trace is ended.
fn add_with_tracing() -> Function {
    let (mut b, _) = Builder::new("%add", &[], &[Type::I32]);
    b.trace_start(1);
    let v0 = b.iconst(40, Type::I32);
    let v1 = b.iconst(2, Type::I32);
    let v2 = b.binary(Opcode::Iadd, v0, v1, Type::I32);
    b.binary(Opcode::Isub, v2, v1, Type::I32);
    b.trace_end(1);
    b.ret(&[v2]);
    b.finish()
}

fn interpret_add_with_tracing() -> Interpreter {
    interpret(vec![("%add", add_with_tracing())], &[])
}

#[test]
fn check_trace_produced() {
    let interpreter = interpret_add_with_tracing();
    assert_eq!(
        *interpreter.trace(),
        Trace::from(vec![
            TracedInstruction::StartInFunction(FuncRef::from_u32(0)),
            TracedInstruction::Instruction(Inst::from_u32(1)),
            TracedInstruction::Instruction(Inst::from_u32(2)),
            TracedInstruction::Instruction(Inst::from_u32(3)),
            TracedInstruction::Instruction(Inst::from_u32(4)),
        ])
    );
}

#[test]
fn reconstruct_trace() {
    let interpreter = interpret_add_with_tracing();
    let reconstructed_trace = interpreter.trace().reconstruct(interpreter.env()).unwrap();
    println!("{:?}", reconstructed_trace);
    assert_eq!(4, reconstructed_trace.len());
    assert_eq!(
        reconstructed_trace[2].instruction,
        InstructionData::Binary {
            opcode: Opcode::Iadd,
            a: ValueRef::from_u32(0),
            b: ValueRef::from_u32(1)
        }
    );
    assert_eq!(reconstructed_trace[2].results, vec![ValueRef::from_u32(2)]);
}

#[test]
fn build_function_from_trace() {
    let interpreter = interpret_add_with_tracing();
    let function =
        FunctionReconstructor::new(interpreter.trace(), interpreter.env()).build(CallConv::SystemV);
    println!("{:?}", function);
    assert_eq!(function.signature.call_conv, CallConv::SystemV);
    assert_eq!(
        describe(&function),
        "function u0:0() {
block0:
    v0 = iconst.i32 40
    v1 = iconst.i32 2
    v2 = iadd.i32 v0, v1
    v3 = isub.i32 v2, v1
    return
}"
    );
}

#[test]
fn trace_records_only_while_tracing() {
    let mut trace = Trace::new();
    assert!(trace.is_empty());
    trace.observe(TracedInstruction::Instruction(Inst::from_u32(0)));
    assert_eq!(trace.len(), 0);
    trace.start(5, FuncRef::from_u32(2));
    assert_eq!(trace.tracing(), Some(5));
    trace.observe(TracedInstruction::Instruction(Inst::from_u32(1)));
    trace.observe(TracedInstruction::ExitFunction);
    assert_eq!(trace.len(), 3);
    assert_eq!(trace.remove_last(), Some(TracedInstruction::ExitFunction));
    assert_eq!(trace.end(), 5);
    assert_eq!(trace.tracing(), None);
    trace.observe(TracedInstruction::Instruction(Inst::from_u32(2)));
    assert_eq!(trace.len(), 2);
    assert_eq!(trace.get(0), TracedInstruction::StartInFunction(FuncRef::from_u32(2)));
    assert_eq!(Trace::new().remove_last(), None);
}

#[test]
fn traces_that_cannot_be_reconstructed() {
    let mut env = Environment::new();
    env.add("%add".to_string(), add_with_tracing());
    let build = |records: Vec<TracedInstruction>| {
        let trace = Trace::from_observed(records);
        FunctionReconstructor::new(&trace, &env).try_build(CallConv::Fast).is_some()
    };
    let start = TracedInstruction::StartInFunction(FuncRef::from_u32(0));
    assert!(build(vec![start]));
    assert!(!build(vec![]));
    assert!(!build(vec![TracedInstruction::Instruction(Inst::from_u32(1))]));
    assert!(!build(vec![start, start]));
    assert!(!build(vec![start, TracedInstruction::Guard(Inst::from_u32(1))]));
    assert!(!build(vec![start, TracedInstruction::Instruction(Inst::from_u32(77))]));
    assert!(!build(vec![TracedInstruction::StartInFunction(FuncRef::from_u32(9)),
        TracedInstruction::Instruction(Inst::from_u32(1))]));
    // After the return nothing is being walked.
    assert!(!build(vec![
        start,
        TracedInstruction::Instruction(Inst::from_u32(6)),
        TracedInstruction::Instruction(Inst::from_u32(1)),
    ]));
    let trace = Trace::from_observed(vec![TracedInstruction::Guard(Inst::from_u32(1))]);
    assert!(trace.reconstruct(&env).is_none());
}

#[test]
fn trace_store_keeps_compiled_code() {
    let mut store = TraceStore::new();
    assert!(!store.contains(3));
    assert_eq!(store.get(3), None);
    store.insert(3, CompiledCode::new(8, 64));
    assert!(store.contains(3));
    assert_eq!(store.get(3), Some(CompiledCode { key: 8, size: 64 }));
    assert_eq!(store.execute(3, Ok(DataValue::I32(1))).unwrap(), DataValue::I32(1));
    match store.execute(3, Err("boom".to_string())) {
        Err(TraceError::ExecutionFailed(m)) => assert_eq!(m, "boom"),
        other => panic!("{:?}", other),
    }
}

#[test]
fn second_trace_start_while_tracing_traps() {
    let (mut b, _) = Builder::new("%t", &[], &[]);
    b.trace_start(1);
    b.trace_start(2);
    b.ret(&[]);
    let mut env = Environment::new();
    env.add("%t".to_string(), b.finish());
    let mut interpreter = Interpreter::new(env);
    assert!(matches!(interpreter.call_by_name("%t", &[]), Err(Trap::InvalidControlFlow(_))));
}

#[test]
fn trace_end_without_trace_start_traps() {
    let (mut b, _) = Builder::new("%t", &[], &[]);
    b.trace_end(1);
    b.ret(&[]);
    let mut env = Environment::new();
    env.add("%t".to_string(), b.finish());
    let mut interpreter = Interpreter::new(env);
    assert!(matches!(interpreter.call_by_name("%t", &[]), Err(Trap::InvalidControlFlow(_))));
}

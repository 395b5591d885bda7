#![allow(dead_code, unused_imports)]
use clif_interp::data_value::{BinaryOp, DataValue, DataValueCastFailure, ValueConversionKind, ValueError};
use clif_interp::environment::Environment;
use clif_interp::interpreter::{ControlFlow, Interpreter, Progress, Request};
use clif_interp::ir::entities::{Block, FuncRef, Inst, ValueRef};
use clif_interp::ir::function::{CallConv, Function};
use clif_interp::ir::instructions::{InstructionData, IntCC, Opcode, ValueList};
use clif_interp::ir::types::Type;
use clif_interp::file_interpreter::{
    failures, files_line, invoke_function, CommandOutcome, FileInterpreter, FileRunnerFailure,
};
use clif_interp::frame::Frame;
use clif_interp::function_runner::FunctionRunner;
use clif_interp::parallel::{
    copy_within_a_slice, discover, BufferAccessKind, CpuDevice, CpuSingleThreadedDevice, Device,
    DeviceKind, KernelSection, WasmMemoryBuffer,
};
use clif_interp::run_command::{
    list_to_debug, same_values, value_to_debug, value_to_text, write_data_value_list, Comparison,
    Invocation, RunCommand,
};
use clif_interp::test_run::{subtest, TestCommand};
use clif_interp::trap::Trap;

struct Builder {
    func: Function,
    block: Block,
}

impl Builder {
    fn new(name: &str, params: &[Type], returns: &[Type]) -> (Builder, Vec<ValueRef>) {
        let mut func = Function::with_name(name.to_string());
        for t in params {
            func.signature.params.push(*t);
        }
        for t in returns {
            func.signature.returns.push(*t);
        }
        let block = func.dfg.make_block();
        func.layout.append_block(block);
        let mut values = Vec::new();
        for t in params {
            values.push(func.dfg.append_block_param(block, *t));
        }
        (Builder { func, block }, values)
    }

    fn block(&mut self, params: &[Type]) -> (Block, Vec<ValueRef>) {
        let block = self.func.dfg.make_block();
        let mut values = Vec::new();
        for t in params {
            values.push(self.func.dfg.append_block_param(block, *t));
        }
        (block, values)
    }

    fn switch_to(&mut self, block: Block) {
        self.func.layout.append_block(block);
        self.block = block;
    }

    fn list(&mut self, values: &[ValueRef]) -> ValueList {
        self.func.dfg.make_value_list(&values.to_vec())
    }

    fn inst(&mut self, data: InstructionData) -> Inst {
        let inst = self.func.dfg.make_inst(data);
        self.func.layout.append_inst(inst, self.block);
        inst
    }

    fn value(&mut self, data: InstructionData, ty: Type) -> ValueRef {
        let inst = self.inst(data);
        self.func.dfg.append_result(inst, ty)
    }

    fn binary(&mut self, opcode: Opcode, a: ValueRef, b: ValueRef, ty: Type) -> ValueRef {
        self.value(InstructionData::Binary { opcode, a, b }, ty)
    }

    fn iconst(&mut self, imm: i64, ty: Type) -> ValueRef {
        self.value(InstructionData::UnaryImm { opcode: Opcode::Iconst, imm }, ty)
    }

    fn bconst(&mut self, imm: bool, ty: Type) -> ValueRef {
        self.value(InstructionData::UnaryBool { opcode: Opcode::Bconst, imm }, ty)
    }

    fn nop(&mut self) -> Inst {
        self.inst(InstructionData::NullAry { opcode: Opcode::Nop })
    }

    fn ret(&mut self, values: &[ValueRef]) -> Inst {
        let args = self.list(values);
        self.inst(InstructionData::MultiAry { opcode: Opcode::Return, args })
    }

    fn jump(&mut self, opcode: Opcode, destination: Block, values: &[ValueRef]) -> Inst {
        let args = self.list(values);
        self.inst(InstructionData::Jump { opcode, args, destination })
    }

    fn brnz(&mut self, cond: ValueRef, destination: Block, values: &[ValueRef]) -> Inst {
        let mut all = vec![cond];
        all.extend_from_slice(values);
        let args = self.list(&all);
        self.inst(InstructionData::Branch { opcode: Opcode::Brnz, args, destination })
    }

    fn call(&mut self, name: &str, values: &[ValueRef], results: &[Type]) -> Vec<ValueRef> {
        let func_ref = self.func.dfg.import_function(name.to_string());
        let args = self.list(values);
        let inst = self.inst(InstructionData::Call { opcode: Opcode::Call, args, func_ref });
        results.iter().map(|t| self.func.dfg.append_result(inst, *t)).collect()
    }

    fn trace_start(&mut self, id: i64) -> Inst {
        let args = self.list(&[]);
        self.inst(InstructionData::MultiAryImm { opcode: Opcode::TraceStart, imm: id, args })
    }

    fn trace_end(&mut self, id: i64) -> Inst {
        self.inst(InstructionData::UnaryImm { opcode: Opcode::TraceEnd, imm: id })
    }

    fn finish(self) -> Function {
        self.func
    }
}

#[test]
fn trim_comments() {
    assert_eq!(RunCommand::trim_comment_chars(""), "");
    assert_eq!(RunCommand::trim_comment_chars("abc"), "abc");
    assert_eq!(RunCommand::trim_comment_chars("  abc"), "abc");
    assert_eq!(RunCommand::trim_comment_chars(" ; abc"), "abc");
    assert_eq!(RunCommand::trim_comment_chars(" ; ; abc"), "abc");
}

#[test]
fn is_potential_run_command() {
    assert_eq!(RunCommand::is_potential_run_command(""), false);
    assert_eq!(RunCommand::is_potential_run_command(";; ..."), false);
    assert_eq!(RunCommand::is_potential_run_command(";; ... run "), false);
    assert_eq!(RunCommand::is_potential_run_command(";; print "), true);
    assert_eq!(RunCommand::is_potential_run_command(" ; run: ... "), true);
}

#[test]
fn trimming_stops_at_the_first_other_character() {
    assert_eq!(RunCommand::trim_comment_chars("; a ; b"), "a ; b");
    assert_eq!(RunCommand::trim_comment_chars(" ;; "), "");
    assert_eq!(RunCommand::trim_comment_chars("é; "), "é; ");
    assert_eq!(RunCommand::is_potential_run_command("ru"), false);
    assert_eq!(RunCommand::is_potential_run_command("run"), true);
    assert_eq!(RunCommand::is_potential_run_command("printer"), true);
}

#[test]
fn type_conversions() {
    assert_eq!(DataValue::B(true).ty(), Type::B8);
    assert_eq!(DataValue::B(false).try_into_bool().unwrap(), false);
    assert_eq!(
        DataValue::B(false).try_into_i32().unwrap_err(),
        DataValueCastFailure::TryInto(Type::B8, Type::I32)
    );

    assert_eq!(DataValue::V128(0).ty(), Type::I8X16);
    assert_eq!(DataValue::V128(0).try_into_vector().unwrap(), 0);
    assert_eq!(
        DataValue::V128(0).try_into_i32().unwrap_err(),
        DataValueCastFailure::TryInto(Type::I8X16, Type::I32)
    );
}

#[test]
fn casts_take_the_matching_variant_only() {
    assert_eq!(DataValue::I8(-3).try_into_i8(), Ok(-3));
    assert_eq!(DataValue::I16(-3).try_into_i16(), Ok(-3));
    assert_eq!(DataValue::I32(-3).try_into_i32(), Ok(-3));
    assert_eq!(DataValue::I64(-3).try_into_i64(), Ok(-3));
    assert_eq!(DataValue::F32(1.5f32.to_bits()).try_into_f32_bits(), Ok(0x3fc0_0000));
    assert_eq!(DataValue::F64(1.5f64.to_bits()).try_into_f64_bits(), Ok(1.5f64.to_bits()));
    assert_eq!(
        DataValue::I8(1).try_into_i64(),
        Err(DataValueCastFailure::TryInto(Type::I8, Type::I64))
    );
    assert_eq!(
        DataValue::I64(1).try_into_bool(),
        Err(DataValueCastFailure::TryInto(Type::I64, Type::B8))
    );
    assert_eq!(
        DataValue::F32(0).try_into_f64_bits(),
        Err(DataValueCastFailure::TryInto(Type::F32, Type::F64))
    );
    assert_eq!(DataValue::from_integer(0x1_0000_0001, Type::I32), Ok(DataValue::I32(1)));
    assert_eq!(DataValue::from_integer(-1, Type::I8), Ok(DataValue::I8(-1)));
    assert_eq!(DataValue::from_integer(7, Type::I16), Ok(DataValue::I16(7)));
    assert_eq!(DataValue::from_integer(7, Type::I64), Ok(DataValue::I64(7)));
    assert_eq!(
        DataValue::from_integer(7, Type::B1),
        Err(DataValueCastFailure::FromImm64(7, Type::B1))
    );
}

#[test]
fn values_as_text() {
    assert_eq!(value_to_text(DataValue::B(true)), "true");
    assert_eq!(value_to_text(DataValue::B(false)), "false");
    assert_eq!(value_to_text(DataValue::I8(-7)), "-7");
    assert_eq!(value_to_text(DataValue::I16(300)), "300");
    assert_eq!(value_to_text(DataValue::I32(i32::MIN)), "-2147483648");
    assert_eq!(value_to_text(DataValue::I64(i64::MAX)), "9223372036854775807");
    assert_eq!(value_to_text(DataValue::I64(i64::MIN)), "-9223372036854775808");
    assert_eq!(value_to_text(DataValue::I8(0)), "0");
    assert_eq!(value_to_text(DataValue::I32(10)), "10");
    assert_eq!(value_to_text(DataValue::I32(-10)), "-10");
    assert_eq!(value_to_text(DataValue::I64(1234567890)), "1234567890");
    assert_eq!(value_to_text(DataValue::V128(0)), "0x00000000000000000000000000000000");
    assert_eq!(value_to_text(DataValue::V128(u128::MAX)), "0xffffffffffffffffffffffffffffffff");
    assert_eq!(value_to_text(DataValue::F32(1.0f32.to_bits())), "0x1.000000p0");
    assert_eq!(value_to_text(DataValue::F64(1.0f64.to_bits())), "0x1.0000000000000p0");
    assert_eq!(value_to_text(DataValue::F32(0)), "0.0");
    assert_eq!(
        value_to_text(DataValue::V128(0x0f0e0d0c0b0a09080706050403020100)),
        "0x0f0e0d0c0b0a09080706050403020100"
    );
    assert_eq!(write_data_value_list(&vec![]), "");
    assert_eq!(write_data_value_list(&vec![DataValue::I8(1)]), "1");
    assert_eq!(
        write_data_value_list(&vec![DataValue::I8(1), DataValue::B(true), DataValue::I64(-2)]),
        "1, true, -2"
    );
}

#[test]
fn commands_as_text() {
    let print = RunCommand::Print(Invocation::new("f", vec![DataValue::I32(1)]));
    assert_eq!(print.to_text(), "print: %f(1)");
    let run = RunCommand::Run(
        Invocation::new("add", vec![DataValue::I32(1), DataValue::I32(2)]),
        Comparison::Equals,
        vec![DataValue::I32(3)],
    );
    assert_eq!(run.to_text(), "run: %add(1, 2) == 3");
    let run = RunCommand::Run(
        Invocation::new("two", vec![]),
        Comparison::NotEquals,
        vec![DataValue::I32(3), DataValue::B(false)],
    );
    assert_eq!(run.to_text(), "run: %two() != [3, false]");
    assert_eq!(run.invocation().to_text(), "%two()");
    assert_eq!(Comparison::Equals.to_text(), "==");
    assert_eq!(Comparison::NotEquals.to_text(), "!=");
    assert_eq!(
        print.print_line(&vec![DataValue::I8(4)]),
        "Invocation { func: \"f\", args: [I32(1)] } -> [I8(4)]"
    );
}

#[test]
fn texts_for_debugging() {
    assert_eq!(value_to_debug(DataValue::B(true)), "B(true)");
    assert_eq!(value_to_debug(DataValue::B(false)), "B(false)");
    assert_eq!(value_to_debug(DataValue::I8(-8)), "I8(-8)");
    assert_eq!(value_to_debug(DataValue::I16(16)), "I16(16)");
    assert_eq!(value_to_debug(DataValue::I32(8)), "I32(8)");
    assert_eq!(value_to_debug(DataValue::I64(i64::MIN)), "I64(-9223372036854775808)");
    assert_eq!(value_to_debug(DataValue::F32(1.0f32.to_bits())), "F32(1.0)");
    assert_eq!(value_to_debug(DataValue::F32(f32::NAN.to_bits())), "F32(NaN)");
    assert_eq!(value_to_debug(DataValue::F64((-2.5f64).to_bits())), "F64(-2.5)");
    assert_eq!(value_to_debug(DataValue::F64(1e300f64.to_bits())), format!("F64({:?})", 1e300f64));
    assert_eq!(
        value_to_debug(DataValue::V128(0x0f0e0d0c0b0a09080706050403020100)),
        format!("V128({:?})", [0u8, 1, 2, 3, 4, 5, 6, 7, 8, 9, 10, 11, 12, 13, 14, 15])
    );
    assert_eq!(
        value_to_debug(DataValue::V128(u128::MAX)),
        format!("V128({:?})", [255u8; 16])
    );
    assert_eq!(list_to_debug(&vec![]), "[]");
    assert_eq!(list_to_debug(&vec![DataValue::I32(8)]), "[I32(8)]");
    assert_eq!(
        list_to_debug(&vec![DataValue::I32(8), DataValue::B(true), DataValue::I8(0)]),
        "[I32(8), B(true), I8(0)]"
    );
    // Where no float and no vector is held, the texts are those that the
    // derived formatting of the library's own types gives.
    let commands = vec![
        RunCommand::Print(Invocation::new("f", vec![DataValue::I32(1)])),
        RunCommand::Run(
            Invocation::new("a \"quoted\" name\n", vec![DataValue::I64(-1), DataValue::B(false)]),
            Comparison::NotEquals,
            vec![],
        ),
        RunCommand::Run(Invocation::new("", vec![]), Comparison::Equals, vec![DataValue::I16(7)]),
    ];
    for command in commands.iter() {
        assert_eq!(command.to_debug(), format!("{:?}", command));
        assert_eq!(command.invocation().to_debug(), format!("{:?}", command.invocation()));
    }
    assert_eq!(Comparison::Equals.to_debug(), "Equals");
    assert_eq!(Comparison::NotEquals.to_debug(), "NotEquals");
}

#[test]
fn run_compares_what_was_returned() {
    let run = RunCommand::Run(
        Invocation::new("add", vec![DataValue::I32(1), DataValue::I32(2)]),
        Comparison::Equals,
        vec![DataValue::I32(3)],
    );
    let add = |name: &str, args: &[DataValue]| -> Result<Vec<DataValue>, String> {
        assert_eq!(name, "add");
        match (args[0], args[1]) {
            (DataValue::I32(a), DataValue::I32(b)) => Ok(vec![DataValue::I32(a + b)]),
            _ => Err("not integers".to_string()),
        }
    };
    assert_eq!(run.run(add), Ok(()));
    assert_eq!(
        run.run(|_, _| Ok(vec![DataValue::I32(4)])),
        Err("Failed test: Run(Invocation { func: \"add\", args: [I32(1), I32(2)] }, Equals, \
             [I32(3)]), actual: [I32(4)]"
            .to_string())
    );
    assert_eq!(run.run(|_, _| Err("trapped".to_string())), Err("trapped".to_string()));
    let differs = RunCommand::Run(
        Invocation::new("add", vec![]),
        Comparison::NotEquals,
        vec![DataValue::I32(3)],
    );
    assert_eq!(differs.run(|_, _| Ok(vec![DataValue::I32(4)])), Ok(()));
    assert_eq!(
        differs.run(|_, _| Ok(vec![DataValue::I32(3)])),
        Err("Failed test: Run(Invocation { func: \"add\", args: [] }, NotEquals, [I32(3)]), \
             actual: [I32(3)]"
            .to_string())
    );
    let print = RunCommand::Print(Invocation::new("add", vec![]));
    assert_eq!(print.run(|_, _| Ok(vec![DataValue::I32(4)])), Ok(()));
    assert_eq!(print.check(&vec![]), Ok(()));
    assert!(same_values(&vec![DataValue::I8(1)], &vec![DataValue::I8(1)]));
    assert!(!same_values(&vec![DataValue::I8(1)], &vec![DataValue::I16(1)]));
    assert!(!same_values(&vec![DataValue::I8(1)], &vec![]));
}

fn nop_function() -> Function {
    let (mut b, _) = Builder::new("%test", &[], &[Type::B8]);
    b.nop();
    let v1 = b.bconst(true, Type::B8);
    b.iconst(42, Type::I8);
    b.ret(&[v1]);
    b.finish()
}

#[test]
fn interpret_nop() {
    let mut env = Environment::new();
    env.add("%test".to_string(), nop_function());
    let mut interpreter = Interpreter::new(env);
    let commands = vec![RunCommand::Run(
        Invocation::new("test", vec![]),
        Comparison::Equals,
        vec![DataValue::B(true)],
    )];
    FileInterpreter::run(&mut interpreter, &commands).1.unwrap()
}

#[test]
fn function_runner_nop() {
    let (mut b, _) = Builder::new("%test", &[], &[Type::B8]);
    b.nop();
    let v1 = b.bconst(true, Type::B8);
    b.ret(&[v1]);
    let function = b.finish();
    let runner = FunctionRunner::new(function, CallConv::Fast);
    runner.check_compilable().unwrap();
    runner.check_runnable().unwrap();
    runner.report(true).unwrap()
}

#[test]
fn function_runner_checks() {
    let (b, _) = Builder::new("%test", &[Type::I32], &[Type::B8]);
    let runner = FunctionRunner::new(b.finish(), CallConv::SystemV);
    assert_eq!(
        runner.check_runnable(),
        Err("Functions must have a signature like: () -> boolean".to_string())
    );
    assert!(runner.check_compilable().unwrap_err().starts_with("Functions only run on"));
    assert_eq!(runner.report(false), Err("Failed: %test".to_string()));
    assert_eq!(runner.function().signature.params, vec![Type::I32]);
    let (b, _) = Builder::new("%test", &[], &[Type::I32]);
    assert!(FunctionRunner::new(b.finish(), CallConv::Fast).check_runnable().is_err());
    let (b, _) = Builder::new("%test", &[], &[Type::B1, Type::B1]);
    assert!(FunctionRunner::new(b.finish(), CallConv::Fast).check_runnable().is_err());
    assert!(FunctionRunner::supports_arity(0));
    assert!(FunctionRunner::supports_arity(1));
    assert!(!FunctionRunner::supports_arity(2));
}

#[test]
fn commands_run_until_one_fails() {
    let mut env = Environment::new();
    env.add("%test".to_string(), nop_function());
    let mut interpreter = Interpreter::new(env);
    let good = || {
        RunCommand::Run(Invocation::new("test", vec![]), Comparison::Equals, vec![DataValue::B(true)])
    };
    let bad = RunCommand::Run(
        Invocation::new("test", vec![]),
        Comparison::Equals,
        vec![DataValue::B(false)],
    );
    let missing = RunCommand::Print(Invocation::new("other", vec![]));
    match FileInterpreter::run(&mut interpreter, &vec![good(), bad, missing]).1 {
        Err(FileRunnerFailure::FailedExecution(m)) => {
            assert_eq!(
                m,
                "Failed test: Run(Invocation { func: \"test\", args: [] }, Equals, [B(false)]), \
                 actual: [B(true)]"
            )
        }
        other => panic!("{:?}", other),
    }
    let missing = RunCommand::Print(Invocation::new("other", vec![]));
    match FileInterpreter::run(&mut interpreter, &vec![good(), missing]).1 {
        Err(FileRunnerFailure::FailedExecution(m)) => {
            assert_eq!(m, "invalid function name: %other")
        }
        other => panic!("{:?}", other),
    }
    assert_eq!(FileInterpreter::run_command(&mut interpreter, &good()), CommandOutcome::Passed);
    assert_eq!(invoke_function("%test", &[], &mut interpreter).unwrap(), vec![DataValue::B(true)]);
    assert!(matches!(
        invoke_function("%none", &[], &mut interpreter),
        Err(FileRunnerFailure::Trap(Trap::InvalidFunctionName(_)))
    ));
}

#[test]
fn print_commands_give_their_lines() {
    let mut env = Environment::new();
    env.add("%test".to_string(), nop_function());
    let mut interpreter = Interpreter::new(env);
    let print = || RunCommand::Print(Invocation::new("test", vec![]));
    let good =
        RunCommand::Run(Invocation::new("test", vec![]), Comparison::Equals, vec![DataValue::B(true)]);
    let bad =
        RunCommand::Run(Invocation::new("test", vec![]), Comparison::NotEquals, vec![DataValue::B(true)]);
    assert_eq!(
        FileInterpreter::run_command(&mut interpreter, &print()),
        CommandOutcome::Printed("Invocation { func: \"test\", args: [] } -> [B(true)]".to_string())
    );
    let (lines, outcome) =
        FileInterpreter::run(&mut interpreter, &vec![print(), good, print(), bad, print()]);
    // What was printed before the failure is there; what follows it is not.
    let line = "Invocation { func: \"test\", args: [] } -> [B(true)]";
    assert_eq!(lines, vec![line, line]);
    assert!(matches!(outcome, Err(FileRunnerFailure::FailedExecution(_))));
    assert_eq!(
        FileInterpreter::run_command(
            &mut interpreter,
            &RunCommand::Print(Invocation::new("none", vec![]))
        ),
        CommandOutcome::Failed("invalid function name: %none".to_string())
    );
}

#[test]
fn file_interpreter_knows_where_its_code_came_from() {
    let inline = FileInterpreter::from_inline_code("function %f() {}".to_string());
    assert_eq!(inline.path(), "[inline code]");
    assert_eq!(inline.contents(), "function %f() {}");
    let file = FileInterpreter::with_path("a/b.clif".to_string(), "x".to_string());
    assert_eq!(file.path(), "a/b.clif");
    assert_eq!(file.contents(), "x");
}

#[test]
fn summary_of_a_run_of_files() {
    assert_eq!(files_line(0), "0 files");
    assert_eq!(files_line(1), "1 file");
    assert_eq!(files_line(12), "12 files");
    assert_eq!(failures(0), Ok(()));
    assert_eq!(failures(1), Err("1 failure".to_string()));
    assert_eq!(failures(3), Err("3 failures".to_string()));
}

#[test]
fn run_test_takes_no_options() {
    let parsed = TestCommand { command: "run".to_string(), options: vec![] };
    let test = subtest(&parsed).unwrap();
    assert_eq!(test.name(), "run");
    assert!(!test.is_mutating());
    assert!(!test.needs_isa());
    let parsed = TestCommand {
        command: "run".to_string(),
        options: vec!["x".to_string(), "y=1".to_string()],
    };
    assert_eq!(parsed.to_text(), "run x y=1\n");
    assert_eq!(subtest(&parsed), Err("No options allowed on run x y=1\n".to_string()));
    assert_eq!(TestCommand { command: "cat".to_string(), options: vec![] }.to_text(), "cat\n");
}

#[test]
fn environment_keeps_the_order_of_its_functions() {
    let mut env = Environment::new();
    assert_eq!(env.len(), 0);
    assert_eq!(env.add("%a".to_string(), nop_function()), FuncRef::from_u32(0));
    assert_eq!(env.add("%b".to_string(), nop_function()), FuncRef::from_u32(1));
    assert_eq!(env.add("%a".to_string(), nop_function()), FuncRef::from_u32(2));
    assert_eq!(env.len(), 3);
    // The function that was added last under a name is the one found.
    assert_eq!(env.index_of("%a"), Some(FuncRef::from_u32(2)));
    assert_eq!(env.get_func_ref_by_name("%b"), Some(FuncRef::from_u32(1)));
    assert_eq!(env.index_of("%c"), None);
    assert!(env.get_by_func_ref(FuncRef::from_u32(1)).is_some());
    assert!(env.get_by_func_ref(FuncRef::from_u32(3)).is_none());
    assert!(env.get_by_name("%b").is_some());
    assert!(env.get_by_name("%c").is_none());
    assert_eq!(env.func_ref_by_name("%b"), Some(FuncRef::from_u32(1)));
    let names: Vec<&String> = (0..4).filter_map(|k| env.name_of(FuncRef::from_u32(k))).collect();
    assert_eq!(names, vec!["%a", "%b", "%a"]);
    assert!(env.function(FuncRef::from_u32(2)).is_ok());
    assert!(matches!(
        env.function(FuncRef::from_u32(3)),
        Err(Trap::InvalidFunctionReference(f)) if f == FuncRef::from_u32(3)
    ));
}

#[test]
fn frame_binds_and_renames() {
    let (mut b, p) = Builder::new("%f", &[Type::I32, Type::I32], &[]);
    let (_, q) = b.block(&[Type::I32]);
    let function = b.finish();
    let frame = Frame::new(FuncRef::from_u32(4), &function);
    assert_eq!(frame.func_ref(), FuncRef::from_u32(4));
    assert!(!frame.is_bound(p[0]));
    assert!(matches!(frame.get(p[0]), Err(Trap::UnboundValue(v)) if v == p[0]));
    let mut frame = frame
        .with_parameters(&vec![p[0], p[1]], &vec![DataValue::I32(1), DataValue::I32(2)])
        .unwrap();
    assert_eq!(frame.get(p[1]).unwrap(), DataValue::I32(2));
    assert_eq!(frame.get_all(&vec![p[1], p[0]]).unwrap(), vec![DataValue::I32(2), DataValue::I32(1)]);
    assert!(matches!(frame.get_all(&vec![p[1], q[0]]), Err(Trap::UnboundValue(v)) if v == q[0]));
    // A value is set once.
    assert!(matches!(
        frame.set_all(&vec![p[0]], &vec![DataValue::I32(9)]),
        Err(Trap::Redefined(v)) if v == p[0]
    ));
    assert!(matches!(frame.set_all(&vec![q[0]], &vec![]), Err(Trap::InvalidControlFlow(_))));
    assert!(matches!(
        frame.set_all(&vec![ValueRef::from_u32(77)], &vec![DataValue::I32(9)]),
        Err(Trap::Redefined(_))
    ));
    frame.set(q[0], DataValue::I32(3));
    assert!(frame.in_range(q[0]));
    assert!(!frame.in_range(ValueRef::from_u32(3)));
    // On a transfer the new names get what the old names held, and all else is unset.
    frame.rename(&vec![p[1]], &vec![q[0]]);
    assert_eq!(frame.get(q[0]).unwrap(), DataValue::I32(2));
    assert!(!frame.is_bound(p[0]));
    assert!(!frame.is_bound(p[1]));
    let short = Frame::new(FuncRef::from_u32(0), &function)
        .with_parameters(&vec![p[0], p[1]], &vec![DataValue::I32(1)]);
    assert!(matches!(short, Err(Trap::InvalidControlFlow(_))));
}

#[test]
fn wasm_memory_buffer_records_its_offset() {
    let mut buffer = WasmMemoryBuffer::new(4, BufferAccessKind::ReadWrite);
    assert_eq!(buffer.len(), 4);
    assert_eq!(buffer.access(), BufferAccessKind::ReadWrite);
    assert_eq!(buffer.offset, None);
    assert_eq!(
        buffer.write(3, 8),
        Err("The slice to write did not match the buffer size: 3 != 4".to_string())
    );
    assert_eq!(buffer.offset, None);
    assert_eq!(buffer.write(4, 8), Ok(()));
    assert_eq!(buffer.offset, Some(8));
    let mut memory: Vec<u8> = (0..16).collect();
    buffer.read(&mut memory, 4, 2);
    assert_eq!(memory, vec![0, 1, 8, 9, 10, 11, 6, 7, 8, 9, 10, 11, 12, 13, 14, 15]);
}

#[test]
fn copy_within_a_vector() {
    let mut v = vec![1, 2, 3, 4, 5, 6];
    copy_within_a_slice(&mut v, 0, 3, 3);
    assert_eq!(v, vec![1, 2, 3, 1, 2, 3]);
    let mut v = vec![1, 2, 3, 4, 5, 6];
    copy_within_a_slice(&mut v, 4, 1, 2);
    assert_eq!(v, vec![1, 5, 6, 4, 5, 6]);
    let mut v = vec![1, 2, 3];
    copy_within_a_slice(&mut v, 1, 1, 0);
    assert_eq!(v, vec![1, 2, 3]);
}

#[test]
fn the_processor_is_always_discovered() {
    assert_eq!(
        discover(),
        vec![Device::Cpu(CpuDevice::new()), Device::CpuSingleThreaded(CpuSingleThreadedDevice::new())]
    );
}

#[test]
fn functions_are_checked_for_well_formedness() {
    let function = nop_function();
    assert!(function.is_well_formed());
    assert!(function.dfg.is_well_formed());
    assert!(function.layout.is_well_formed_for(&function.dfg));
    // An operand that is no value of the function.
    assert!(!function.dfg.data_is_well_formed(InstructionData::Unary {
        opcode: Opcode::Bnot,
        arg: ValueRef::from_u32(99),
    }));
    assert!(function.dfg.data_is_well_formed(InstructionData::Unary {
        opcode: Opcode::Bnot,
        arg: ValueRef::from_u32(1),
    }));
    assert!(!function.dfg.data_is_well_formed(InstructionData::Jump {
        opcode: Opcode::Jump,
        args: ValueList::empty(),
        destination: Block::from_u32(5),
    }));
    assert!(!function.dfg.data_is_well_formed(InstructionData::MultiAry {
        opcode: Opcode::Return,
        args: ValueList { first: 0, len: 9 },
    }));
    // A layout that names an instruction of another function.
    let mut other = Function::new();
    let block = other.dfg.make_block();
    other.layout.append_block(block);
    other.layout.append_inst(Inst::from_u32(3), block);
    assert!(other.dfg.is_well_formed());
    assert!(!other.is_well_formed());
}

#[test]
fn devices_make_buffers() {
    let cpu = CpuDevice::new();
    assert_eq!(cpu.kind(), DeviceKind::Cpu);
    assert_eq!(cpu.name(), "thread pool implementation");
    assert_eq!(cpu.create_buffer(12, BufferAccessKind::Read).len(), 12);
    let single = CpuSingleThreadedDevice::new();
    assert_eq!(single.kind(), DeviceKind::Cpu);
    assert_eq!(single.name(), "single-threaded implementation");
    let buffer = single.create_buffer(3, BufferAccessKind::Write);
    assert_eq!(buffer.access(), BufferAccessKind::Write);
    assert_eq!(buffer.offset, None);
    // A size is taken by its bits.
    assert_eq!(cpu.create_buffer(-1, BufferAccessKind::Read).len(), u32::MAX);
    assert_eq!(single.create_buffer(i32::MIN, BufferAccessKind::Read).len(), 0x8000_0000);
}

#[test]
fn kernel_section_splits_index_and_code() {
    let section = KernelSection::from_section_data(&vec![0x78, 0x56, 0x34, 0x12, 9, 8, 7]).unwrap();
    assert_eq!(section.0, 0x12345678);
    assert_eq!(section.1, vec![9, 8, 7]);
    let section = KernelSection::from_section_data(&vec![1, 0, 0, 0]).unwrap();
    assert_eq!(section.0, 1);
    assert!(section.1.is_empty());
    assert!(KernelSection::from_section_data(&vec![1, 0, 0]).is_none());
}

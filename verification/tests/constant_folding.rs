#![allow(dead_code, unused_imports)]
use clif_interp::data_value::{BinaryOp, DataValue, DataValueCastFailure, ValueConversionKind, ValueError};
use clif_interp::environment::Environment;
use clif_interp::interpreter::{ControlFlow, Interpreter, Progress, Request};
use clif_interp::ir::entities::{Block, FuncRef, Inst, ValueRef};
use clif_interp::ir::function::{CallConv, Function};
use clif_interp::ir::instructions::{InstructionData, IntCC, Opcode, ValueList};
use clif_interp::ir::types::Type;
use clif_interp::constant_folding::{
    branch_arguments, find_block_parameter_for_branch_argument, fold_constants, interpret,
    is_value_unknowable, meet, possibly_replace_branch_with_jump, replace_inst,
    resolve_value_to_imm, LatticeFlow, PhiValues, SsaNameUses,
};
use clif_interp::lattice::{binary, LatticeValue, Values};

struct Builder {
    func: Function,
    block: Block,
}

impl Builder {
    fn new(name: &str, params: &[Type], returns: &[Type]) -> (Builder, Vec<ValueRef>) {
        let mut func = Function::with_name(name.to_string());
        for t in params {
            func.signature.params.push(*t);
        }
        for t in returns {
            func.signature.returns.push(*t);
        }
        let block = func.dfg.make_block();
        func.layout.append_block(block);
        let mut values = Vec::new();
        for t in params {
            values.push(func.dfg.append_block_param(block, *t));
        }
        (Builder { func, block }, values)
    }

    fn block(&mut self, params: &[Type]) -> (Block, Vec<ValueRef>) {
        let block = self.func.dfg.make_block();
        let mut values = Vec::new();
        for t in params {
            values.push(self.func.dfg.append_block_param(block, *t));
        }
        (block, values)
    }

    fn switch_to(&mut self, block: Block) {
        self.func.layout.append_block(block);
        self.block = block;
    }

    fn list(&mut self, values: &[ValueRef]) -> ValueList {
        self.func.dfg.make_value_list(&values.to_vec())
    }

    fn inst(&mut self, data: InstructionData) -> Inst {
        let inst = self.func.dfg.make_inst(data);
        self.func.layout.append_inst(inst, self.block);
        inst
    }

    fn value(&mut self, data: InstructionData, ty: Type) -> ValueRef {
        let inst = self.inst(data);
        self.func.dfg.append_result(inst, ty)
    }

    fn binary(&mut self, opcode: Opcode, a: ValueRef, b: ValueRef, ty: Type) -> ValueRef {
        self.value(InstructionData::Binary { opcode, a, b }, ty)
    }

    fn iconst(&mut self, imm: i64, ty: Type) -> ValueRef {
        self.value(InstructionData::UnaryImm { opcode: Opcode::Iconst, imm }, ty)
    }

    fn bconst(&mut self, imm: bool, ty: Type) -> ValueRef {
        self.value(InstructionData::UnaryBool { opcode: Opcode::Bconst, imm }, ty)
    }

    fn nop(&mut self) -> Inst {
        self.inst(InstructionData::NullAry { opcode: Opcode::Nop })
    }

    fn ret(&mut self, values: &[ValueRef]) -> Inst {
        let args = self.list(values);
        self.inst(InstructionData::MultiAry { opcode: Opcode::Return, args })
    }

    fn jump(&mut self, opcode: Opcode, destination: Block, values: &[ValueRef]) -> Inst {
        let args = self.list(values);
        self.inst(InstructionData::Jump { opcode, args, destination })
    }

    fn brnz(&mut self, cond: ValueRef, destination: Block, values: &[ValueRef]) -> Inst {
        let mut all = vec![cond];
        all.extend_from_slice(values);
        let args = self.list(&all);
        self.inst(InstructionData::Branch { opcode: Opcode::Brnz, args, destination })
    }

    fn call(&mut self, name: &str, values: &[ValueRef], results: &[Type]) -> Vec<ValueRef> {
        let func_ref = self.func.dfg.import_function(name.to_string());
        let args = self.list(values);
        let inst = self.inst(InstructionData::Call { opcode: Opcode::Call, args, func_ref });
        results.iter().map(|t| self.func.dfg.append_result(inst, *t)).collect()
    }

    fn trace_start(&mut self, id: i64) -> Inst {
        let args = self.list(&[]);
        self.inst(InstructionData::MultiAryImm { opcode: Opcode::TraceStart, imm: id, args })
    }

    fn trace_end(&mut self, id: i64) -> Inst {
        self.inst(InstructionData::UnaryImm { opcode: Opcode::TraceEnd, imm: id })
    }

    fn finish(self) -> Function {
        self.func
    }
}

fn text_of_type(ty: Type) -> String {
    format!("{:?}", ty).to_lowercase()
}

fn value_names(values: &[ValueRef]) -> String {
    values.iter().map(|v| format!("v{}", v.as_u32())).collect::<Vec<String>>().join(", ")
}

/// The function as text, in the form in which test files are written.
fn describe(func: &Function) -> String {
    let params: Vec<String> = func.signature.params.iter().map(|t| text_of_type(*t)).collect();
    let mut out = format!("function u0:0({})", params.join(", "));
    if !func.signature.returns.is_empty() {
        let returns: Vec<String> = func.signature.returns.iter().map(|t| text_of_type(*t)).collect();
        out.push_str(&format!(" -> {}", returns.join(", ")));
    }
    out.push_str(" {\n");
    for block in func.layout.blocks().iter() {
        let params: Vec<String> = func
            .dfg
            .block_params(*block)
            .iter()
            .map(|v| format!("v{}: {}", v.as_u32(), text_of_type(func.dfg.value_type(*v))))
            .collect();
        if params.is_empty() {
            out.push_str(&format!("block{}:\n", block.as_u32()));
        } else {
            out.push_str(&format!("block{}({}):\n", block.as_u32(), params.join(", ")));
        }
        for inst in func.layout.block_insts(*block) {
            let data = func.dfg.inst(inst);
            let opcode = format!("{:?}", data.opcode()).to_lowercase();
            let results = func.dfg.inst_results(inst);
            let args = value_names(&func.dfg.inst_args(inst));
            let mut line = String::from("    ");
            if !results.is_empty() {
                line.push_str(&format!(
                    "{} = {}.{}",
                    value_names(results),
                    opcode,
                    text_of_type(func.dfg.value_type(results[0]))
                ));
            } else {
                line.push_str(&opcode);
            }
            match data {
                InstructionData::UnaryImm { imm, .. } => line.push_str(&format!(" {}", imm)),
                InstructionData::UnaryBool { imm, .. } => line.push_str(&format!(" {}", imm)),
                InstructionData::Jump { destination, .. } => {
                    line.push_str(&format!(" block{}", destination.as_u32()));
                    if !args.is_empty() {
                        line.push_str(&format!("({})", args));
                    }
                }
                _ => {
                    if !args.is_empty() {
                        line.push_str(&format!(" {}", args));
                    }
                }
            }
            out.push_str(&line);
            out.push('\n');
        }
    }
    out.push_str("}");
    out
}

fn constant(n: i32) -> LatticeValue {
    LatticeValue::Constant(DataValue::I32(n))
}

#[test]
fn folds_an_iadd_of_constants() {
    let (mut b, _) = Builder::new("%f", &[], &[Type::I32]);
    let v0 = b.iconst(2, Type::I32);
    let v1 = b.iconst(3, Type::I32);
    let v2 = b.binary(Opcode::Iadd, v0, v1, Type::I32);
    b.ret(&[v2]);
    let mut func = b.finish();
    fold_constants(&mut func);
    assert_eq!(
        func.dfg.inst(Inst::from_u32(2)),
        InstructionData::UnaryImm { opcode: Opcode::Iconst, imm: 5 }
    );
    assert_eq!(
        describe(&func),
        "function u0:0() -> i32 {
block0:
    v0 = iconst.i32 2
    v1 = iconst.i32 3
    v2 = iconst.i32 5
    return v2
}"
    );
}

#[test]
fn folds_through_a_chain() {
    let (mut b, _) = Builder::new("%f", &[], &[Type::B1]);
    let v0 = b.iconst(2, Type::I8);
    let v1 = b.iconst(3, Type::I8);
    let v2 = b.binary(Opcode::Imul, v0, v1, Type::I8);
    let v3 = b.value(
        InstructionData::BinaryImm { opcode: Opcode::IrsubImm, arg: v2, imm: 10 },
        Type::I8,
    );
    let v4 = b.value(
        InstructionData::IntCompareImm {
            opcode: Opcode::IcmpImm,
            arg: v3,
            cond: IntCC::Equal,
            imm: 4,
        },
        Type::B1,
    );
    b.ret(&[v4]);
    let mut func = b.finish();
    fold_constants(&mut func);
    assert_eq!(
        describe(&func),
        "function u0:0() -> b1 {
block0:
    v0 = iconst.i8 2
    v1 = iconst.i8 3
    v2 = iconst.i8 6
    v3 = iconst.i8 4
    v4 = bconst.b1 true
    return v4
}"
    );
}

fn branch_on(condition: bool) -> Function {
    // block0: v0 = bconst.b1 c; brnz v0, block1(v0); jump block2(v0)
    // block1(v1): return v1
    // block2(v2): return v2
    let (mut b, _) = Builder::new("%f", &[], &[Type::B1]);
    let (block1, p1) = b.block(&[Type::B1]);
    let (block2, p2) = b.block(&[Type::B1]);
    let v0 = b.bconst(condition, Type::B1);
    b.brnz(v0, block1, &[v0]);
    b.jump(Opcode::Jump, block2, &[v0]);
    b.switch_to(block1);
    b.ret(&[p1[0]]);
    b.switch_to(block2);
    b.ret(&[p2[0]]);
    b.finish()
}

#[test]
fn replaces_a_taken_branch_with_a_jump() {
    let mut func = branch_on(true);
    fold_constants(&mut func);
    assert_eq!(
        describe(&func),
        "function u0:0() -> b1 {
block0:
    v2 = bconst.b1 true
    jump block1(v2)
block1(v0: b1):
    return v0
block2(v1: b1):
    return v1
}"
    );
    // What followed the branch in its block is gone.
    assert_eq!(func.layout.block_insts(Block::from_u32(0)).len(), 2);
}

#[test]
fn replaces_a_branch_that_is_not_taken_with_a_nop() {
    let mut func = branch_on(false);
    fold_constants(&mut func);
    assert_eq!(
        describe(&func),
        "function u0:0() -> b1 {
block0:
    v2 = bconst.b1 false
    nop
    jump block2(v2)
block1(v0: b1):
    return v0
block2(v1: b1):
    return v1
}"
    );
}

#[test]
fn folding_twice_changes_nothing_more() {
    for mut func in [branch_on(true), branch_on(false)] {
        fold_constants(&mut func);
        let once = describe(&func);
        fold_constants(&mut func);
        assert_eq!(describe(&func), once);
    }
    let (mut b, _) = Builder::new("%f", &[], &[Type::I32]);
    let v0 = b.iconst(2, Type::I32);
    let v1 = b.iconst(3, Type::I32);
    let v2 = b.binary(Opcode::Iadd, v0, v1, Type::I32);
    b.ret(&[v2]);
    let mut func = b.finish();
    fold_constants(&mut func);
    let once = describe(&func);
    fold_constants(&mut func);
    assert_eq!(describe(&func), once);
}

fn joining(left: i64, right: i64) -> Function {
    // block0(v0): brnz v0, block1(c1); jump block1(c2)
    // block1(v1): v2 = iadd v1, v1; return v2
    let (mut b, p) = Builder::new("%f", &[Type::I32], &[Type::I32]);
    let (block1, q) = b.block(&[Type::I32]);
    let c1 = b.iconst(left, Type::I32);
    let c2 = b.iconst(right, Type::I32);
    b.brnz(p[0], block1, &[c1]);
    b.jump(Opcode::Jump, block1, &[c2]);
    b.switch_to(block1);
    let sum = b.binary(Opcode::Iadd, q[0], q[0], Type::I32);
    b.ret(&[sum]);
    b.finish()
}

#[test]
fn a_block_parameter_is_the_meet_of_its_inputs() {
    // Both branches bring the same constant: the parameter is that constant.
    let mut func = joining(4, 4);
    fold_constants(&mut func);
    assert_eq!(
        func.dfg.inst(Inst::from_u32(4)),
        InstructionData::UnaryImm { opcode: Opcode::Iconst, imm: 8 }
    );
}

#[test]
fn values_that_cannot_be_known_are_not_folded() {
    let (mut b, p) = Builder::new("%f", &[Type::I64], &[Type::I32]);
    let loaded =
        b.value(InstructionData::Load { opcode: Opcode::Load, arg: p[0], offset: 0 }, Type::I32);
    let one = b.iconst(1, Type::I32);
    let sum = b.binary(Opcode::Iadd, loaded, one, Type::I32);
    b.ret(&[sum]);
    let mut func = b.finish();
    assert!(is_value_unknowable(&func.dfg, loaded));
    assert!(!is_value_unknowable(&func.dfg, one));
    assert!(!is_value_unknowable(&func.dfg, p[0]));
    let before = describe(&func);
    fold_constants(&mut func);
    assert_eq!(describe(&func), before);
}

#[test]
fn a_failing_operation_is_not_folded() {
    let (mut b, _) = Builder::new("%f", &[], &[Type::I32]);
    let v0 = b.iconst(2, Type::I32);
    let v1 = b.iconst(0, Type::I32);
    let v2 = b.binary(Opcode::Sdiv, v0, v1, Type::I32);
    b.ret(&[v2]);
    let mut func = b.finish();
    let before = describe(&func);
    fold_constants(&mut func);
    assert_eq!(describe(&func), before);
}

#[test]
fn constants_are_resolved_to_their_type() {
    let (mut b, p) = Builder::new("%f", &[Type::I32], &[]);
    let v0 = b.iconst(42, Type::I8);
    let v1 = b.bconst(true, Type::B8);
    let v2 = b.iconst(300, Type::I8);
    let v3 = b.value(
        InstructionData::UnaryIeee32 { opcode: Opcode::F32const, imm: 0x3f80_0000 },
        Type::F32,
    );
    b.ret(&[]);
    let func = b.finish();
    assert_eq!(resolve_value_to_imm(&func.dfg, v0), Some(DataValue::I8(42)));
    assert_eq!(resolve_value_to_imm(&func.dfg, v1), Some(DataValue::B(true)));
    // 300 is no 8-bit number, so the conversion is not exact.
    assert_eq!(resolve_value_to_imm(&func.dfg, v2), None);
    assert_eq!(resolve_value_to_imm(&func.dfg, v3), Some(DataValue::F32(0x3f80_0000)));
    assert_eq!(resolve_value_to_imm(&func.dfg, p[0]), None);
}

#[test]
fn setup_puts_what_is_known_on_the_worklist() {
    let (mut b, p) = Builder::new("%f", &[Type::I64], &[]);
    let loaded =
        b.value(InstructionData::Load { opcode: Opcode::Load, arg: p[0], offset: 0 }, Type::I32);
    let one = b.iconst(1, Type::I32);
    let sum = b.binary(Opcode::Iadd, loaded, one, Type::I32);
    b.ret(&[]);
    let func = b.finish();
    let mut worklist = Vec::new();
    let values = Values::setup(&func.dfg, &mut worklist);
    assert_eq!(worklist, vec![loaded, one]);
    assert_eq!(values.len(), 4);
    assert_eq!(values.get(p[0]), LatticeValue::Top);
    assert_eq!(values.get(loaded), LatticeValue::Bottom);
    assert_eq!(values.get(one), constant(1));
    assert_eq!(values.get(sum), LatticeValue::Top);
}

#[test]
fn values_keep_what_is_set() {
    let mut values = Values::all_top(3);
    assert_eq!(values.len(), 3);
    values.set(ValueRef::from_u32(1), constant(7));
    assert_eq!(values.get(ValueRef::from_u32(0)), LatticeValue::Top);
    assert_eq!(values.get(ValueRef::from_u32(1)), constant(7));
    assert_eq!(values.get(ValueRef::from_u32(2)), LatticeValue::Top);
    values.set(ValueRef::from_u32(1), LatticeValue::Bottom);
    assert_eq!(values.get(ValueRef::from_u32(1)), LatticeValue::Bottom);
    values.set(ValueRef::from_u32(2), constant(9));
    assert_eq!(values.get(ValueRef::from_u32(2)), constant(9));
    assert_eq!(values.len(), 3);
}

#[test]
fn uses_and_inputs_are_gathered() {
    let func = joining(1, 2);
    let uses = SsaNameUses::new(&func);
    // v0 is the condition of the brnz, v1 the parameter of block1.
    assert_eq!(uses.get(ValueRef::from_u32(0)), vec![Inst::from_u32(2)]);
    assert_eq!(uses.get(ValueRef::from_u32(1)), vec![Inst::from_u32(4), Inst::from_u32(4)]);
    assert_eq!(uses.get(ValueRef::from_u32(2)), vec![Inst::from_u32(2)]);
    assert_eq!(uses.get(ValueRef::from_u32(3)), vec![Inst::from_u32(3)]);
    assert_eq!(uses.get(ValueRef::from_u32(99)), vec![]);
    let inputs = PhiValues::new(&func);
    assert_eq!(
        inputs.inputs_of(ValueRef::from_u32(1)),
        vec![ValueRef::from_u32(2), ValueRef::from_u32(3)]
    );
    assert_eq!(inputs.inputs_of(ValueRef::from_u32(0)), vec![]);
    assert_eq!(
        branch_arguments(&func.dfg, Inst::from_u32(2)),
        vec![ValueRef::from_u32(2)]
    );
    assert_eq!(
        branch_arguments(&func.dfg, Inst::from_u32(3)),
        vec![ValueRef::from_u32(3)]
    );
    assert_eq!(
        find_block_parameter_for_branch_argument(
            &func.dfg,
            Inst::from_u32(2),
            ValueRef::from_u32(2)
        ),
        Some(ValueRef::from_u32(1))
    );
    assert_eq!(
        find_block_parameter_for_branch_argument(
            &func.dfg,
            Inst::from_u32(2),
            ValueRef::from_u32(0)
        ),
        None
    );
}

#[test]
fn meet_of_inputs_lowers_a_parameter() {
    let func = joining(1, 2);
    let inputs = PhiValues::new(&func);
    let mut worklist = Vec::new();
    let mut values = Values::setup(&func.dfg, &mut worklist);
    // The inputs are the constants 1 and 2, which differ.
    assert_eq!(meet(&inputs, &values, ValueRef::from_u32(1)), Some(LatticeValue::Bottom));
    values.set(ValueRef::from_u32(1), LatticeValue::Bottom);
    assert_eq!(meet(&inputs, &values, ValueRef::from_u32(1)), None);
    // A parameter without inputs folds to Top, which is a change where the
    // parameter has another value.
    assert_eq!(meet(&inputs, &values, ValueRef::from_u32(0)), None);
    values.set(ValueRef::from_u32(0), LatticeValue::Bottom);
    assert_eq!(meet(&inputs, &values, ValueRef::from_u32(0)), Some(LatticeValue::Top));
    let func = joining(3, 3);
    let inputs = PhiValues::new(&func);
    let mut worklist = Vec::new();
    let values = Values::setup(&func.dfg, &mut worklist);
    assert_eq!(meet(&inputs, &values, ValueRef::from_u32(1)), Some(constant(3)));
}

#[test]
fn interpretation_over_lattice_values() {
    let func = joining(1, 2);
    let mut worklist = Vec::new();
    let mut values = Values::setup(&func.dfg, &mut worklist);
    // The condition of the brnz is not known.
    assert!(interpret(&func.dfg, Inst::from_u32(2), &values).is_none());
    match interpret(&func.dfg, Inst::from_u32(3), &values) {
        Some(LatticeFlow::ContinueAt(block)) => assert_eq!(block, Block::from_u32(1)),
        other => panic!("{:?}", other),
    }
    match interpret(&func.dfg, Inst::from_u32(4), &values) {
        Some(LatticeFlow::Assign(rs)) => assert_eq!(rs, vec![LatticeValue::Top]),
        other => panic!("{:?}", other),
    }
    values.set(ValueRef::from_u32(1), constant(21));
    match interpret(&func.dfg, Inst::from_u32(4), &values) {
        Some(LatticeFlow::Assign(rs)) => assert_eq!(rs, vec![constant(42)]),
        other => panic!("{:?}", other),
    }
    values.set(ValueRef::from_u32(1), LatticeValue::Bottom);
    match interpret(&func.dfg, Inst::from_u32(4), &values) {
        Some(LatticeFlow::Assign(rs)) => assert_eq!(rs, vec![LatticeValue::Bottom]),
        other => panic!("{:?}", other),
    }
    values.set(ValueRef::from_u32(0), constant(0));
    assert!(matches!(
        interpret(&func.dfg, Inst::from_u32(2), &values),
        Some(LatticeFlow::Continue)
    ));
    // The return teaches nothing.
    assert!(interpret(&func.dfg, Inst::from_u32(5), &values).is_none());
}

#[test]
fn instructions_are_replaced_by_constants() {
    let (mut b, p) = Builder::new("%f", &[Type::I32], &[]);
    let v = b.binary(Opcode::Iadd, p[0], p[0], Type::I32);
    b.ret(&[]);
    let mut func = b.finish();
    let inst = Inst::from_u32(0);
    replace_inst(&mut func.dfg, inst, DataValue::I32(-4));
    assert_eq!(func.dfg.inst(inst), InstructionData::UnaryImm { opcode: Opcode::Iconst, imm: -4 });
    assert_eq!(func.dfg.inst_results(inst), &vec![v]);
    replace_inst(&mut func.dfg, inst, DataValue::B(true));
    assert_eq!(
        func.dfg.inst(inst),
        InstructionData::UnaryBool { opcode: Opcode::Bconst, imm: true }
    );
    replace_inst(&mut func.dfg, inst, DataValue::F32(7));
    assert_eq!(
        func.dfg.inst(inst),
        InstructionData::UnaryIeee32 { opcode: Opcode::F32const, imm: 7 }
    );
    replace_inst(&mut func.dfg, inst, DataValue::F64(9));
    assert_eq!(
        func.dfg.inst(inst),
        InstructionData::UnaryIeee64 { opcode: Opcode::F64const, imm: 9 }
    );
    // A vector has no constant instruction.
    replace_inst(&mut func.dfg, inst, DataValue::V128(1));
    assert_eq!(
        func.dfg.inst(inst),
        InstructionData::UnaryIeee64 { opcode: Opcode::F64const, imm: 9 }
    );
}

#[test]
fn jumps_are_not_replaced() {
    let mut func = joining(1, 2);
    assert_eq!(
        possibly_replace_branch_with_jump(&mut func, Inst::from_u32(3), Block::from_u32(1)),
        None
    );
    assert_eq!(
        possibly_replace_branch_with_jump(&mut func, Inst::from_u32(2), Block::from_u32(1)),
        Some(vec![ValueRef::from_u32(2)])
    );
    assert_eq!(func.layout.block_insts(Block::from_u32(0)).len(), 3);
    assert_eq!(func.dfg.inst(Inst::from_u32(2)).opcode(), Opcode::Jump);
    assert_eq!(func.dfg.inst_args(Inst::from_u32(2)), vec![ValueRef::from_u32(2)]);
}

#[test]
fn meet_law() {
    let all = [LatticeValue::Top, constant(1), constant(2), LatticeValue::Bottom];
    for a in all {
        assert_eq!(LatticeValue::Top.meet(a), a);
        assert_eq!(LatticeValue::Bottom.meet(a), LatticeValue::Bottom);
        assert_eq!(a.meet(a), a);
        for b in all {
            assert_eq!(a.meet(b), b.meet(a));
            for c in all {
                assert_eq!(a.meet(b).meet(c), a.meet(b.meet(c)));
            }
        }
    }
    assert_eq!(constant(1).meet(constant(1)), constant(1));
    assert_eq!(constant(1).meet(constant(2)), LatticeValue::Bottom);
    assert!(constant(1).is_strictly_below(LatticeValue::Top));
    assert!(LatticeValue::Bottom.is_strictly_below(constant(1)));
    assert!(!constant(1).is_strictly_below(constant(2)));
    assert!(!LatticeValue::Top.is_strictly_below(LatticeValue::Top));
    assert!(!LatticeValue::Top.is_strictly_below(LatticeValue::Bottom));
}

#[test]
fn operations_on_lattice_values() {
    assert_eq!(constant(2).add(constant(3)), Ok(constant(5)));
    assert_eq!(constant(2).sub(constant(3)), Ok(constant(-1)));
    assert_eq!(constant(2).mul(constant(3)), Ok(constant(6)));
    assert_eq!(constant(7).div(constant(2)), Ok(constant(3)));
    assert_eq!(constant(7).rem(constant(2)), Ok(constant(1)));
    assert_eq!(constant(6).and(constant(3)), Ok(constant(2)));
    assert_eq!(constant(6).or(constant(3)), Ok(constant(7)));
    assert_eq!(constant(6).xor(constant(3)), Ok(constant(5)));
    assert_eq!(constant(1).shl(constant(4)), Ok(constant(16)));
    assert_eq!(constant(-16).ushr(constant(28)), Ok(constant(15)));
    assert_eq!(constant(-16).ishr(constant(2)), Ok(constant(-4)));
    assert_eq!(constant(1).rotr(constant(1)), Ok(constant(i32::MIN)));
    assert_eq!(constant(i32::MIN).rotl(constant(1)), Ok(constant(1)));
    assert_eq!(constant(0).not(), Ok(constant(-1)));
    assert_eq!(constant(2).add(LatticeValue::Top), Ok(LatticeValue::Top));
    assert_eq!(LatticeValue::Top.add(LatticeValue::Bottom), Ok(LatticeValue::Bottom));
    assert_eq!(LatticeValue::Bottom.add(constant(1)), Ok(LatticeValue::Bottom));
    assert_eq!(LatticeValue::Top.not(), Ok(LatticeValue::Top));
    assert_eq!(LatticeValue::Bottom.not(), Ok(LatticeValue::Bottom));
    assert_eq!(constant(2).div(constant(0)), Err(ValueError::DivisionByZero));
    assert_eq!(binary(BinaryOp::Add, constant(1), constant(1)), Ok(constant(2)));
    assert_eq!(constant(2).eq(constant(2)), Ok(true));
    assert_eq!(constant(2).gt(constant(3)), Ok(false));
    assert_eq!(
        LatticeValue::Top.eq(constant(2)),
        Err(ValueError::InvalidValue(Type::Invalid))
    );
    assert_eq!(constant(2).ty(), Type::I32);
    assert_eq!(LatticeValue::Top.ty(), Type::Invalid);
    assert_eq!(LatticeValue::Bottom.ty(), Type::Invalid);
    assert_eq!(LatticeValue::integer(5, Type::I32), Ok(constant(5)));
    assert_eq!(LatticeValue::integer(5, Type::F32), Err(ValueError::InvalidValue(Type::F32)));
    assert_eq!(LatticeValue::bool(true, Type::B1), Ok(LatticeValue::Constant(DataValue::B(true))));
    assert_eq!(LatticeValue::float(3, Type::F64), Ok(LatticeValue::Constant(DataValue::F64(3))));
    assert_eq!(
        LatticeValue::vector(3, Type::I8X16),
        Ok(LatticeValue::Constant(DataValue::V128(3)))
    );
    assert_eq!(LatticeValue::from_data_value(DataValue::I32(1)), constant(1));
    assert_eq!(constant(3).into_int(), Ok(3));
    assert_eq!(LatticeValue::Top.into_int(), Err(ValueError::InvalidValue(Type::Invalid)));
    assert_eq!(LatticeValue::Constant(DataValue::B(true)).into_bool(), Ok(true));
    assert_eq!(LatticeValue::Constant(DataValue::F32(5)).into_float(), Ok(5));
    assert_eq!(LatticeValue::Constant(DataValue::F32(0x7fc0_0000)).is_nan(), Ok(true));
    assert_eq!(
        LatticeValue::Constant(DataValue::F32(0x7fc0_0000))
            .uno(LatticeValue::Constant(DataValue::F32(0))),
        Ok(true)
    );
    assert_eq!(
        LatticeValue::Constant(DataValue::I64(5)).convert(ValueConversionKind::Truncate(Type::I8)),
        Ok(LatticeValue::Constant(DataValue::I8(5)))
    );
    assert_eq!(
        LatticeValue::Bottom.convert(ValueConversionKind::Truncate(Type::I8)),
        Err(ValueError::InvalidValue(Type::Invalid))
    );
}

#[test]
fn a_second_folding_can_find_more() {
    // block0: c = iconst 0; v1 = iconst 1; v2 = iconst 2; brnz c, block1(v1); jump block1(v2)
    // block1(p): s = iadd p, p; return s
    let (mut b, _) = Builder::new("%f", &[], &[Type::I32]);
    let (block1, q) = b.block(&[Type::I32]);
    let c = b.iconst(0, Type::I32);
    let v1 = b.iconst(1, Type::I32);
    let v2 = b.iconst(2, Type::I32);
    b.brnz(c, block1, &[v1]);
    b.jump(Opcode::Jump, block1, &[v2]);
    b.switch_to(block1);
    let sum = b.binary(Opcode::Iadd, q[0], q[0], Type::I32);
    b.ret(&[sum]);
    let mut func = b.finish();
    // The first folding still counts the branch that is never taken among
    // the inputs of the parameter, which therefore is no constant.
    fold_constants(&mut func);
    assert_eq!(func.dfg.inst(Inst::from_u32(3)), InstructionData::NullAry { opcode: Opcode::Nop });
    assert_eq!(
        func.dfg.inst(Inst::from_u32(5)),
        InstructionData::Binary { opcode: Opcode::Iadd, a: q[0], b: q[0] }
    );
    // The second folding sees the one input that is left.
    fold_constants(&mut func);
    assert_eq!(
        func.dfg.inst(Inst::from_u32(5)),
        InstructionData::UnaryImm { opcode: Opcode::Iconst, imm: 4 }
    );
}

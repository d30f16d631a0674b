use hugr_emit::builder::DfgBuilder;
use hugr_emit::config::SimpleHugrConfig;
use hugr_emit::context::EmitContext;
use hugr_emit::extension::ExtensionOpRegistry;
use hugr_emit::hugr::Hugr;
use hugr_emit::int_ext::IntLowering;
use hugr_emit::ir::Block;
use hugr_emit::ir::Function;
use hugr_emit::ir::Instr;
use hugr_emit::ir::Module;
use hugr_emit::ir::Operand;
use hugr_emit::ir::Terminator;
use hugr_emit::layout::TargetType;
use hugr_emit::ops::OpType;
use hugr_emit::types::Type;

fn emit_text(hugr: &Hugr) -> String {
    let mut ctx: EmitContext<IntLowering> = EmitContext::new(ExtensionOpRegistry::new());
    ctx.emit_module(hugr).unwrap().to_text()
}

fn make_tuple_hugr() -> Hugr {
    SimpleHugrConfig::new()
        .with_ins(vec![Type::bool_t(), Type::bool_t()])
        .with_outs(vec![Type::new_tuple(vec![Type::bool_t(), Type::bool_t()])])
        .finish(|mut builder: DfgBuilder| {
            let in_wires = builder.input_wires();
            let r = builder.make_tuple(in_wires).unwrap();
            builder.finish_with_outputs(vec![r]).unwrap();
            builder
        })
}

#[test]
fn make_tuple_text() {
    let expected = "\
define {i1, i1} @main(i1 %arg0, i1 %arg1) {
  %s0 = alloca i1
  %s1 = alloca i1
  %s2 = alloca {i1, i1}
b0:
  store %arg0, %s0
  store %arg1, %s1
  %b0_2 = load i1, %s0
  %b0_3 = load i1, %s1
  %b0_4 = struct {i1, i1} (%b0_2, %b0_3)
  store %b0_4, %s2
  %b0_6 = load {i1, i1}, %s2
  ret %b0_6
}
";
    assert_eq!(emit_text(&make_tuple_hugr()), expected);
}

#[test]
fn tag_text() {
    let hugr = SimpleHugrConfig::new()
        .with_outs(vec![Type::new_unit_sum(3)])
        .finish(|mut builder: DfgBuilder| {
            let inputs = builder.input_wires();
            let tag = builder
                .add_dataflow_op(OpType::Tag { tag: 1, variants: vec![vec![], vec![], vec![]] }, inputs)
                .unwrap();
            builder.finish_with_outputs(tag).unwrap();
            builder
        });
    let expected = "\
define i2 @main() {
  %s0 = alloca i2
b0:
  store i2 1, %s0
  %b0_1 = load i2, %s0
  ret %b0_1
}
";
    assert_eq!(emit_text(&hugr), expected);
}

#[test]
fn emission_is_deterministic() {
    let first = emit_text(&make_tuple_hugr());
    let second = emit_text(&make_tuple_hugr());
    assert_eq!(first, second);
    let hugr = make_tuple_hugr();
    let mut ctx: EmitContext<IntLowering> = EmitContext::new(ExtensionOpRegistry::new());
    let a = ctx.emit_module(&hugr).unwrap();
    let b = ctx.emit_module(&hugr).unwrap();
    assert_eq!(a, b);
    assert_eq!(a.to_text(), b.to_text());
}

#[test]
fn finish_builds_one_graph() {
    assert_eq!(make_tuple_hugr(), make_tuple_hugr());
    let with = SimpleHugrConfig::new()
        .with_ins(vec![Type::bool_t(), Type::bool_t()])
        .with_outs(vec![Type::new_tuple(vec![Type::bool_t(), Type::bool_t()])])
        .finish_with_exts(|mut builder: DfgBuilder, _extensions| {
            let in_wires = builder.input_wires();
            let r = builder.make_tuple(in_wires).unwrap();
            builder.finish_with_outputs(vec![r]).unwrap();
            builder
        });
    assert_eq!(with, make_tuple_hugr());
    assert_eq!(emit_text(&with), emit_text(&make_tuple_hugr()));
    let other = SimpleHugrConfig::new()
        .with_ins(vec![Type::bool_t(), Type::bool_t()])
        .with_outs(vec![Type::bool_t(), Type::bool_t()])
        .finish(|mut builder: DfgBuilder| {
            let in_wires = builder.input_wires();
            builder.finish_with_outputs(in_wires).unwrap();
            builder
        });
    assert_ne!(other, make_tuple_hugr());
}

#[test]
fn every_instruction_has_its_line() {
    let union = || TargetType::Union {
        tag_bits: 1,
        variants: vec![vec![TargetType::Int(8)], vec![]],
    };
    let module = Module {
        functions: vec![Function {
            name: "f".to_string(),
            params: vec![union()],
            ret: TargetType::Int(8),
            slots: vec![],
            blocks: vec![
                Block {
                    instrs: vec![Instr::GetTag { ty: TargetType::Int(1), value: Operand::Param(0) }],
                    term: Terminator::Switch { on: Operand::Local(0), targets: vec![1, 2] },
                },
                Block {
                    instrs: vec![Instr::VariantField {
                        ty: TargetType::Int(8),
                        value: Operand::Param(0),
                        tag: 0,
                        index: 0,
                    }],
                    term: Terminator::Ret(Operand::Local(0)),
                },
                Block { instrs: vec![], term: Terminator::Unreachable },
            ],
        }],
    };
    assert!(module.verify());
    let expected = "\
define i8 @f(<i1 | {i8} | {}> %arg0) {
b0:
  %b0_0 = tag i1 %arg0
  switch %b0_0 [b1, b2]
b1:
  %b1_0 = payload i8 %arg0, 0, 0
  ret %b1_0
b2:
  unreachable
}
";
    assert_eq!(module.to_text(), expected);
}

use hugr_emit::builder::DfgBuilder;
use hugr_emit::builder::ExtensionRegistry;
use hugr_emit::config::SimpleHugrConfig;
use hugr_emit::context::EmitContext;
use hugr_emit::extension::ExtensionOpRegistry;
use hugr_emit::hugr::Hugr;
use hugr_emit::int_ext::add_int_extensions;
use hugr_emit::int_ext::const_int_s;
use hugr_emit::int_ext::int_op;
use hugr_emit::int_ext::int_ops_extension;
use hugr_emit::int_ext::int_types_extension;
use hugr_emit::int_ext::IntLowering;
use hugr_emit::ir::BinOp;
use hugr_emit::ir::Block;
use hugr_emit::ir::Constant;
use hugr_emit::ir::Function;
use hugr_emit::ir::Instr;
use hugr_emit::ir::Module;
use hugr_emit::ir::Operand;
use hugr_emit::ir::Terminator;
use hugr_emit::layout::TargetType;
use hugr_emit::ops::OpType;
use hugr_emit::ops::Value;
use hugr_emit::types::FunctionType;
use hugr_emit::types::Type;
use itertools::Itertools;

fn bool_t() -> Type {
    Type::bool_t()
}

fn i1() -> TargetType {
    TargetType::Int(1)
}

fn int_registry() -> ExtensionRegistry {
    let mut reg = ExtensionRegistry::new();
    reg.register(int_types_extension());
    reg.register(int_ops_extension());
    reg
}

fn check_emission(hugr: &Hugr, registry: ExtensionOpRegistry<IntLowering>) -> Module {
    let mut ctx = EmitContext::new(registry);
    let module = ctx.emit_module(hugr).unwrap();
    assert!(module.verify());
    let again = EmitContext::new(add_int_extensions(ExtensionOpRegistry::new()))
        .emit_module(hugr);
    if let Ok(again) = again {
        assert_eq!(again, module);
    }
    module
}

#[test]
fn emit_hugr_make_tuple() {
    let hugr = SimpleHugrConfig::new()
        .with_ins(vec![bool_t(), bool_t()])
        .with_outs(vec![Type::new_tuple(vec![bool_t(), bool_t()])])
        .finish(|mut builder: DfgBuilder| {
            let in_wires = builder.input_wires();
            let r = builder.make_tuple(in_wires).unwrap();
            builder.finish_with_outputs(vec![r]).unwrap();
            builder
        });
    let module = check_emission(&hugr, ExtensionOpRegistry::new());
    let pair = || TargetType::Struct(vec![i1(), i1()]);
    let expected = Module {
        functions: vec![Function {
            name: "main".to_string(),
            params: vec![i1(), i1()],
            ret: pair(),
            slots: vec![i1(), i1(), pair()],
            blocks: vec![Block {
                instrs: vec![
                    Instr::Store { slot: 0, value: Operand::Param(0) },
                    Instr::Store { slot: 1, value: Operand::Param(1) },
                    Instr::Load { slot: 0, ty: i1() },
                    Instr::Load { slot: 1, ty: i1() },
                    Instr::MakeStruct {
                        ty: pair(),
                        fields: vec![Operand::Local(2), Operand::Local(3)],
                    },
                    Instr::Store { slot: 2, value: Operand::Local(4) },
                    Instr::Load { slot: 2, ty: pair() },
                ],
                term: Terminator::Ret(Operand::Local(6)),
            }],
        }],
    };
    assert_eq!(module, expected);
}

#[test]
fn emit_hugr_unpack_tuple() {
    let hugr = SimpleHugrConfig::new()
        .with_ins(vec![Type::new_tuple(vec![bool_t(), bool_t()])])
        .with_outs(vec![bool_t(), bool_t()])
        .finish(|mut builder: DfgBuilder| {
            let inputs = builder.input_wires();
            let unpack = builder
                .add_dataflow_op(OpType::UnpackTuple { tys: vec![bool_t(), bool_t()] }, inputs)
                .unwrap();
            builder.finish_with_outputs(unpack).unwrap();
            builder
        });
    let module = check_emission(&hugr, ExtensionOpRegistry::new());
    let pair = || TargetType::Struct(vec![i1(), i1()]);
    let f = &module.functions[0];
    assert_eq!(f.params, vec![pair()]);
    assert_eq!(f.ret, pair());
    assert_eq!(f.slots, vec![pair(), i1(), i1()]);
    assert_eq!(f.blocks.len(), 1);
    assert_eq!(
        f.blocks[0].instrs,
        vec![
            Instr::Store { slot: 0, value: Operand::Param(0) },
            Instr::Load { slot: 0, ty: pair() },
            Instr::ExtractField { ty: i1(), agg: Operand::Local(1), index: 0 },
            Instr::ExtractField { ty: i1(), agg: Operand::Local(1), index: 1 },
            Instr::Store { slot: 1, value: Operand::Local(2) },
            Instr::Store { slot: 2, value: Operand::Local(3) },
            Instr::Load { slot: 1, ty: i1() },
            Instr::Load { slot: 2, ty: i1() },
            Instr::MakeStruct { ty: pair(), fields: vec![Operand::Local(6), Operand::Local(7)] },
        ]
    );
    assert_eq!(f.blocks[0].term, Terminator::Ret(Operand::Local(8)));
}

#[test]
fn emit_hugr_tag() {
    let hugr = SimpleHugrConfig::new()
        .with_outs(vec![Type::new_unit_sum(3)])
        .finish(|mut builder: DfgBuilder| {
            let inputs = builder.input_wires();
            let tag = builder
                .add_dataflow_op(OpType::Tag { tag: 1, variants: vec![vec![], vec![], vec![]] }, inputs)
                .unwrap();
            builder.finish_with_outputs(tag).unwrap();
            builder
        });
    let module = check_emission(&hugr, ExtensionOpRegistry::new());
    let i2 = || TargetType::Int(2);
    let expected = Module {
        functions: vec![Function {
            name: "main".to_string(),
            params: vec![],
            ret: i2(),
            slots: vec![i2()],
            blocks: vec![Block {
                instrs: vec![
                    Instr::Store {
                        slot: 0,
                        value: Operand::Const(Constant::Int { bits: 2, value: 1 }),
                    },
                    Instr::Load { slot: 0, ty: i2() },
                ],
                term: Terminator::Ret(Operand::Local(1)),
            }],
        }],
    };
    assert_eq!(module, expected);
}

#[test]
fn emit_hugr_dfg() {
    let hugr = SimpleHugrConfig::new()
        .with_ins(vec![Type::unit()])
        .with_outs(vec![Type::unit()])
        .finish(|mut builder: DfgBuilder| {
            let inputs = builder.input_wires();
            builder.dfg_builder(FunctionType::new_endo(vec![Type::unit()]), inputs).unwrap();
            let w = builder.input_wires();
            let dfg = builder.finish_with_outputs(w).unwrap();
            builder.finish_with_outputs(dfg).unwrap();
            builder
        });
    let module = check_emission(&hugr, ExtensionOpRegistry::new());
    let unit = || TargetType::Struct(vec![]);
    let f = &module.functions[0];
    assert_eq!(f.params, vec![unit()]);
    assert_eq!(f.ret, unit());
    assert_eq!(f.slots, vec![unit(), unit(), unit()]);
    assert_eq!(f.blocks.len(), 1);
    assert_eq!(
        f.blocks[0].instrs,
        vec![
            Instr::Store { slot: 0, value: Operand::Param(0) },
            Instr::Load { slot: 0, ty: unit() },
            Instr::Store { slot: 1, value: Operand::Local(1) },
            Instr::Load { slot: 1, ty: unit() },
            Instr::Store { slot: 2, value: Operand::Local(3) },
            Instr::Load { slot: 2, ty: unit() },
        ]
    );
    assert_eq!(f.blocks[0].term, Terminator::Ret(Operand::Local(5)));
}

#[test]
fn emit_hugr_conditional() {
    let input_v_rows: Vec<Vec<Type>> =
        (0..3).map(Type::new_unit_sum).map(|t| vec![t]).collect_vec();
    let output_v_rows = {
        let mut r = input_v_rows.clone();
        r.reverse();
        r
    };
    let hugr = SimpleHugrConfig::new()
        .with_ins(vec![Type::new_sum(input_v_rows.clone()), Type::unit()])
        .with_outs(vec![Type::new_sum(output_v_rows.clone()), Type::unit()])
        .finish(|mut builder: DfgBuilder| {
            let inputs = builder.input_wires();
            let (sum_input, other_input) = (inputs[0], inputs[1]);
            builder
                .conditional_builder(
                    input_v_rows.clone(),
                    sum_input,
                    vec![Type::unit()],
                    vec![other_input],
                    vec![Type::new_sum(output_v_rows.clone()), Type::unit()],
                )
                .unwrap();
            for i in 0..3 {
                builder.case_builder(i).unwrap();
                let case_inputs = builder.input_wires();
                let (case_input, other_input) = (case_inputs[0], case_inputs[1]);
                let tag = builder
                    .add_dataflow_op(
                        OpType::Tag { tag: 2 - i, variants: output_v_rows.clone() },
                        vec![case_input],
                    )
                    .unwrap();
                builder.finish_with_outputs(vec![tag[0], other_input]).unwrap();
            }
            let cond = builder.finish_sub_container().unwrap();
            builder.finish_with_outputs(vec![cond[0], cond[1]]).unwrap();
            builder
        });
    let module = check_emission(&hugr, ExtensionOpRegistry::new());
    let f = &module.functions[0];
    // one block before the conditional, one for each case, one merge block
    assert_eq!(f.blocks.len(), 5);
    match &f.blocks[0].term {
        Terminator::Switch { on: _, targets } => assert_eq!(targets, &vec![1, 2, 3]),
        other => panic!("no dispatch: {:?}", other),
    }
    for i in 0..3usize {
        let block = &f.blocks[1 + i];
        assert_eq!(block.term, Terminator::Br(4));
        // the case re-tags its payload to the variant 2 - i
        let tags: Vec<usize> = block
            .instrs
            .iter()
            .filter_map(|instr| match instr {
                Instr::MakeVariant { tag, .. } => Some(*tag),
                _ => None,
            })
            .collect_vec();
        assert_eq!(tags, vec![2 - i]);
        let fields: Vec<usize> = block
            .instrs
            .iter()
            .filter_map(|instr| match instr {
                Instr::VariantField { tag, .. } => Some(*tag),
                _ => None,
            })
            .collect_vec();
        assert_eq!(fields, vec![i]);
    }
    assert!(matches!(f.blocks[4].term, Terminator::Ret(_)));
}

#[test]
fn emit_hugr_load_constant() {
    let v = Value::tuple(vec![Value::unit_sum(2, 4).unwrap(), const_int_s(4, -24).unwrap()]);
    let hugr = SimpleHugrConfig::new()
        .with_outs(vec![v.get_type()])
        .with_extensions(int_registry())
        .finish(|mut builder: DfgBuilder| {
            let konst = builder.add_load_value(v).unwrap();
            builder.finish_with_outputs(vec![konst]).unwrap();
            builder
        });
    let module = check_emission(&hugr, add_int_extensions(ExtensionOpRegistry::new()));
    let ty = || TargetType::Struct(vec![TargetType::Int(2), TargetType::Int(16)]);
    let f = &module.functions[0];
    assert_eq!(f.ret, ty());
    assert_eq!(
        f.blocks[0].instrs,
        vec![
            Instr::Store {
                slot: 0,
                value: Operand::Const(Constant::Struct(vec![
                    Constant::Int { bits: 2, value: 2 },
                    Constant::Int { bits: 16, value: 65536 - 24 },
                ])),
            },
            Instr::Load { slot: 0, ty: ty() },
        ]
    );
}

#[test]
fn emit_hugr_custom_op() {
    let v1 = const_int_s(4, -24).unwrap();
    let v2 = const_int_s(4, 24).unwrap();
    let hugr = SimpleHugrConfig::new()
        .with_outs(vec![v1.get_type()])
        .with_extensions(int_registry())
        .finish_with_exts(|mut builder: DfgBuilder, _ext_reg: &ExtensionRegistry| {
            let k1 = builder.add_load_value(v1).unwrap();
            let k2 = builder.add_load_value(v2).unwrap();
            let ext_op = int_op("iadd".to_string(), 4);
            let add = builder.add_dataflow_op(OpType::Extension(ext_op), vec![k1, k2]).unwrap();
            builder.finish_with_outputs(add).unwrap();
            builder
        });
    let module = check_emission(&hugr, add_int_extensions(ExtensionOpRegistry::new()));
    let i16t = || TargetType::Int(16);
    let f = &module.functions[0];
    assert_eq!(f.ret, i16t());
    assert_eq!(
        f.blocks[0].instrs,
        vec![
            Instr::Store { slot: 0, value: Operand::Const(Constant::Int { bits: 16, value: 65512 }) },
            Instr::Store { slot: 1, value: Operand::Const(Constant::Int { bits: 16, value: 24 }) },
            Instr::Load { slot: 0, ty: i16t() },
            Instr::Load { slot: 1, ty: i16t() },
            Instr::Binary {
                op: BinOp::Add,
                ty: i16t(),
                lhs: Operand::Local(2),
                rhs: Operand::Local(3),
            },
            Instr::Store { slot: 2, value: Operand::Local(4) },
            Instr::Load { slot: 2, ty: i16t() },
        ]
    );
}

use hugr_emit::builder::DfgBuilder;
use hugr_emit::config::SimpleHugrConfig;
use hugr_emit::context::EmitContext;
use hugr_emit::extension::ExtensionOpRegistry;
use hugr_emit::hugr::Hugr;
use hugr_emit::int_ext::add_int_extensions;
use hugr_emit::int_ext::int_op;
use hugr_emit::int_ext::int_ops_extension;
use hugr_emit::int_ext::int_type;
use hugr_emit::int_ext::int_types_extension;
use hugr_emit::int_ext::IntLowering;
use hugr_emit::builder::ExtensionRegistry;
use hugr_emit::ir::BinOp;
use hugr_emit::ir::Constant;
use hugr_emit::ir::Function;
use hugr_emit::ir::Instr;
use hugr_emit::ir::Operand;
use hugr_emit::ir::Terminator;
use hugr_emit::layout::TargetType;
use hugr_emit::ops::OpType;
use hugr_emit::types::Type;

/// A value at run time.
#[derive(Debug, Clone, PartialEq)]
enum Val {
    Int(u64),
    Struct(Vec<Val>),
    Variant(usize, Vec<Val>),
    Undef,
}

fn constant(c: &Constant) -> Val {
    match c {
        Constant::Int { value, .. } => Val::Int(*value),
        Constant::Struct(fields) => Val::Struct(fields.iter().map(constant).collect()),
    }
}

fn operand(v: &Operand, params: &[Val], locals: &[Val]) -> Val {
    match v {
        Operand::Local(i) => locals[*i].clone(),
        Operand::Param(i) => params[*i].clone(),
        Operand::Const(c) => constant(c),
    }
}

/// Runs a function on arguments: the instructions of a block in order,
/// then the block that its terminator names.
fn run(f: &Function, params: &[Val]) -> Val {
    let mut slots = vec![Val::Undef; f.slots.len()];
    let mut block = 0;
    for _ in 0..1000 {
        let mut locals: Vec<Val> = vec![];
        for instr in &f.blocks[block].instrs {
            let get = |v: &Operand, locals: &[Val]| operand(v, params, locals);
            let value = match instr {
                Instr::Load { slot, .. } => slots[*slot].clone(),
                Instr::Store { slot, value } => {
                    slots[*slot] = get(value, &locals);
                    Val::Undef
                }
                Instr::MakeStruct { fields, .. } => {
                    Val::Struct(fields.iter().map(|v| get(v, &locals)).collect())
                }
                Instr::ExtractField { agg, index, .. } => match get(agg, &locals) {
                    Val::Struct(fields) => fields[*index].clone(),
                    other => panic!("no aggregate: {:?}", other),
                },
                Instr::MakeVariant { tag, fields, .. } => {
                    Val::Variant(*tag, fields.iter().map(|v| get(v, &locals)).collect())
                }
                Instr::GetTag { value, .. } => match get(value, &locals) {
                    Val::Variant(tag, _) => Val::Int(tag as u64),
                    other => panic!("no tagged union: {:?}", other),
                },
                Instr::VariantField { value, tag, index, .. } => match get(value, &locals) {
                    Val::Variant(held, fields) if held == *tag => fields[*index].clone(),
                    other => panic!("another variant: {:?}", other),
                },
                Instr::Binary { op, ty, lhs, rhs } => {
                    let bits = match ty {
                        TargetType::Int(bits) => *bits,
                        other => panic!("no integer: {:?}", other),
                    };
                    let mask = if bits >= 64 { u64::MAX } else { (1u64 << bits) - 1 };
                    match (get(lhs, &locals), get(rhs, &locals)) {
                        (Val::Int(a), Val::Int(b)) => Val::Int(
                            match op {
                                BinOp::Add => a.wrapping_add(b),
                                BinOp::Sub => a.wrapping_sub(b),
                                BinOp::Mul => a.wrapping_mul(b),
                            } & mask,
                        ),
                        other => panic!("no integers: {:?}", other),
                    }
                }
            };
            locals.push(value);
        }
        match &f.blocks[block].term {
            Terminator::Ret(v) => return operand(v, params, &locals),
            Terminator::Br(b) => block = *b,
            Terminator::Switch { on, targets } => match operand(on, params, &locals) {
                Val::Int(d) => block = targets[d as usize],
                other => panic!("no discriminant: {:?}", other),
            },
            Terminator::Unreachable => panic!("reached the unreachable"),
        }
    }
    panic!("no end")
}

fn emit_main(hugr: &Hugr) -> Function {
    let mut ctx = EmitContext::new(add_int_extensions(ExtensionOpRegistry::<IntLowering>::new()));
    let mut module = ctx.emit_module(hugr).unwrap();
    assert!(module.verify());
    assert_eq!(module.functions.len(), 1);
    module.functions.pop().unwrap()
}

#[test]
fn make_tuple_returns_its_inputs() {
    let hugr = SimpleHugrConfig::new()
        .with_ins(vec![Type::bool_t(), Type::bool_t()])
        .with_outs(vec![Type::new_tuple(vec![Type::bool_t(), Type::bool_t()])])
        .finish(|mut builder: DfgBuilder| {
            let in_wires = builder.input_wires();
            let r = builder.make_tuple(in_wires).unwrap();
            builder.finish_with_outputs(vec![r]).unwrap();
            builder
        });
    let f = emit_main(&hugr);
    assert_eq!(f.params, vec![TargetType::Int(1), TargetType::Int(1)]);
    for a in 0..2u64 {
        for b in 0..2u64 {
            assert_eq!(
                run(&f, &[Val::Int(a), Val::Int(b)]),
                Val::Struct(vec![Val::Int(a), Val::Int(b)])
            );
        }
    }
}

#[test]
fn tuple_round_trip() {
    let pair = || vec![Type::bool_t(), Type::new_unit_sum(5)];
    let hugr = SimpleHugrConfig::new()
        .with_ins(pair())
        .with_outs(pair())
        .finish(|mut builder: DfgBuilder| {
            let in_wires = builder.input_wires();
            let tuple = builder.make_tuple(in_wires).unwrap();
            let fields = builder
                .add_dataflow_op(OpType::UnpackTuple { tys: pair() }, vec![tuple])
                .unwrap();
            builder.finish_with_outputs(fields).unwrap();
            builder
        });
    let f = emit_main(&hugr);
    for a in 0..2u64 {
        for b in 0..5u64 {
            assert_eq!(
                run(&f, &[Val::Int(a), Val::Int(b)]),
                Val::Struct(vec![Val::Int(a), Val::Int(b)])
            );
        }
    }
}

#[test]
fn tag_returns_its_discriminant() {
    let hugr = SimpleHugrConfig::new()
        .with_outs(vec![Type::new_unit_sum(3)])
        .finish(|mut builder: DfgBuilder| {
            let inputs = builder.input_wires();
            let tag = builder
                .add_dataflow_op(OpType::Tag { tag: 1, variants: vec![vec![], vec![], vec![]] }, inputs)
                .unwrap();
            builder.finish_with_outputs(tag).unwrap();
            builder
        });
    let f = emit_main(&hugr);
    assert_eq!(f.ret, TargetType::Int(2));
    assert_eq!(run(&f, &[]), Val::Int(1));
}

/// A conditional over a sum of three variants, each with one field, and a
/// boolean that passes through: case `i` tags its field as variant
/// `2 - i` of the reversed sum and forwards the boolean.
fn retagging_conditional() -> Hugr {
    let input_rows: Vec<Vec<Type>> =
        vec![vec![Type::new_unit_sum(2)], vec![Type::new_unit_sum(3)], vec![Type::new_unit_sum(4)]];
    let output_rows: Vec<Vec<Type>> = {
        let mut rows = input_rows.clone();
        rows.reverse();
        rows
    };
    SimpleHugrConfig::new()
        .with_ins(vec![Type::new_sum(input_rows.clone()), Type::bool_t()])
        .with_outs(vec![Type::new_sum(output_rows.clone()), Type::bool_t()])
        .finish(|mut builder: DfgBuilder| {
            let inputs = builder.input_wires();
            builder
                .conditional_builder(
                    input_rows.clone(),
                    inputs[0],
                    vec![Type::bool_t()],
                    vec![inputs[1]],
                    vec![Type::new_sum(output_rows.clone()), Type::bool_t()],
                )
                .unwrap();
            for i in 0..3 {
                builder.case_builder(i).unwrap();
                let case_inputs = builder.input_wires();
                let tag = builder
                    .add_dataflow_op(
                        OpType::Tag { tag: 2 - i, variants: output_rows.clone() },
                        vec![case_inputs[0]],
                    )
                    .unwrap();
                builder.finish_with_outputs(vec![tag[0], case_inputs[1]]).unwrap();
            }
            let cond = builder.finish_sub_container().unwrap();
            builder.finish_with_outputs(cond).unwrap();
            builder
        })
}

#[test]
fn conditional_retags_and_forwards() {
    let f = emit_main(&retagging_conditional());
    // the dispatching block, one block for each case, the merge block
    assert_eq!(f.blocks.len(), 5);
    assert_eq!(
        f.blocks[0].term,
        Terminator::Switch { on: Operand::Local(3), targets: vec![1, 2, 3] }
    );
    for i in 0..3usize {
        assert_eq!(f.blocks[1 + i].term, Terminator::Br(4));
        for flag in 0..2u64 {
            for payload in 0..2u64 {
                let input = Val::Variant(i, vec![Val::Int(payload)]);
                assert_eq!(
                    run(&f, &[input, Val::Int(flag)]),
                    Val::Struct(vec![Val::Variant(2 - i, vec![Val::Int(payload)]), Val::Int(flag)])
                );
            }
        }
    }
}

#[test]
fn every_case_stores_every_output() {
    let f = emit_main(&retagging_conditional());
    // the outputs of the conditional are bound to the last two slots but
    // those of the function's own output loads
    for i in 0..3usize {
        let instrs = &f.blocks[1 + i].instrs;
        let n = instrs.len();
        let slots: Vec<usize> = instrs[n - 2..]
            .iter()
            .map(|instr| match instr {
                Instr::Store { slot, .. } => *slot,
                other => panic!("no store: {:?}", other),
            })
            .collect();
        assert_eq!(slots, vec![2, 3]);
    }
    assert_eq!(
        f.blocks[4].instrs[..2],
        [
            Instr::Load { slot: 2, ty: f.slots[2].duplicate() },
            Instr::Load { slot: 3, ty: TargetType::Int(1) },
        ]
    );
}

#[test]
fn integer_addition_wraps() {
    let mut reg = ExtensionRegistry::new();
    reg.register(int_types_extension());
    reg.register(int_ops_extension());
    let hugr = SimpleHugrConfig::new()
        .with_ins(vec![int_type(3), int_type(3)])
        .with_outs(vec![int_type(3)])
        .with_extensions(reg)
        .finish(|mut builder: DfgBuilder| {
            let inputs = builder.input_wires();
            let sum = builder
                .add_dataflow_op(OpType::Extension(int_op("iadd".to_string(), 3)), inputs)
                .unwrap();
            builder.finish_with_outputs(sum).unwrap();
            builder
        });
    let f = emit_main(&hugr);
    assert_eq!(f.params, vec![TargetType::Int(8), TargetType::Int(8)]);
    assert_eq!(run(&f, &[Val::Int(200), Val::Int(100)]), Val::Int(44));
    assert_eq!(run(&f, &[Val::Int(2), Val::Int(3)]), Val::Int(5));
}

#[test]
fn nested_dataflow_graph_passes_values_through() {
    let hugr = SimpleHugrConfig::new()
        .with_ins(vec![Type::bool_t(), Type::new_unit_sum(7)])
        .with_outs(vec![Type::new_unit_sum(7), Type::bool_t()])
        .finish(|mut builder: DfgBuilder| {
            let inputs = builder.input_wires();
            builder
                .dfg_builder(
                    hugr_emit::types::FunctionType::new(
                        vec![Type::bool_t(), Type::new_unit_sum(7)],
                        vec![Type::new_unit_sum(7), Type::bool_t()],
                    ),
                    inputs,
                )
                .unwrap();
            let inner = builder.input_wires();
            let swapped = builder.finish_with_outputs(vec![inner[1], inner[0]]).unwrap();
            builder.finish_with_outputs(swapped).unwrap();
            builder
        });
    let f = emit_main(&hugr);
    assert_eq!(f.blocks.len(), 1);
    assert_eq!(
        run(&f, &[Val::Int(1), Val::Int(6)]),
        Val::Struct(vec![Val::Int(6), Val::Int(1)])
    );
}

use hugr_emit::builder::DfgBuilder;
use hugr_emit::builder::ExtensionRegistry;
use hugr_emit::config::SimpleHugrConfig;
use hugr_emit::context::EmitContext;
use hugr_emit::error::EmitError;
use hugr_emit::error::Malformation;
use hugr_emit::extension::ExtensionOpRegistry;
use hugr_emit::hugr::Hugr;
use hugr_emit::int_ext::add_int_extensions;
use hugr_emit::int_ext::const_int_u;
use hugr_emit::int_ext::int_op;
use hugr_emit::int_ext::int_ops_extension;
use hugr_emit::int_ext::int_type;
use hugr_emit::int_ext::int_types_extension;
use hugr_emit::int_ext::IntLowering;
use hugr_emit::ir::Instr;
use hugr_emit::ir::Module;
use hugr_emit::ir::Operand;
use hugr_emit::ir::Terminator;
use hugr_emit::ops::OpType;
use hugr_emit::ops::Value;
use hugr_emit::types::Type;

fn state() -> Type {
    Type::new_unit_sum(3)
}

fn yielded() -> Vec<Vec<Type>> {
    vec![vec![state()], vec![Type::bool_t()]]
}

/// A loop over a state and a counter. Each round adds one to the
/// counter; from state 2 it goes on with state 1, from state 1 with
/// state 0, and in state 0 it ends with the boolean 1.
fn countdown() -> Hugr {
    let mut reg = ExtensionRegistry::new();
    reg.register(int_types_extension());
    reg.register(int_ops_extension());
    SimpleHugrConfig::new()
        .with_ins(vec![state(), int_type(3)])
        .with_outs(vec![Type::bool_t(), int_type(3)])
        .with_extensions(reg)
        .finish(|mut builder: DfgBuilder| {
            let inputs = builder.input_wires();
            builder
                .tail_loop_builder(
                    vec![state()],
                    vec![inputs[0]],
                    vec![int_type(3)],
                    vec![inputs[1]],
                    vec![Type::bool_t()],
                )
                .unwrap();
            let round = builder.input_wires();
            let one = builder.add_load_value(const_int_u(3, 1).unwrap()).unwrap();
            let next = builder
                .add_dataflow_op(OpType::Extension(int_op("iadd".to_string(), 3)), vec![round[1], one])
                .unwrap();
            builder
                .conditional_builder(
                    vec![vec![], vec![], vec![]],
                    round[0],
                    vec![],
                    vec![],
                    vec![Type::new_sum(yielded())],
                )
                .unwrap();
            let cases = [
                (Value::unit_sum(1, 2).unwrap(), 1),
                (Value::unit_sum(0, 3).unwrap(), 0),
                (Value::unit_sum(1, 3).unwrap(), 0),
            ];
            for (i, (value, tag)) in cases.into_iter().enumerate() {
                builder.case_builder(i).unwrap();
                let k = builder.add_load_value(value).unwrap();
                let t = builder
                    .add_dataflow_op(OpType::Tag { tag, variants: yielded() }, vec![k])
                    .unwrap();
                builder.finish_with_outputs(t).unwrap();
            }
            let decided = builder.finish_sub_container().unwrap();
            let outputs = builder.finish_with_outputs(vec![decided[0], next[0]]).unwrap();
            assert_eq!(outputs.len(), 2);
            builder.finish_with_outputs(outputs).unwrap();
            builder
        })
}

fn emit(hugr: &Hugr) -> Result<Module, EmitError> {
    EmitContext::new(add_int_extensions(ExtensionOpRegistry::<IntLowering>::new())).emit_module(hugr)
}

/// Runs the one function of a module that uses integers, unit sums and
/// tagged unions whose variants have at most one field, and returns what
/// it returns together with the number of blocks that were entered.
fn run(module: &Module, args: &[u64]) -> (Vec<u64>, usize) {
    #[derive(Clone, Debug)]
    enum Val {
        Int(u64),
        Variant(usize, Vec<Val>),
        Struct(Vec<Val>),
        Undef,
    }
    let f = &module.functions[0];
    let params: Vec<Val> = args.iter().map(|a| Val::Int(*a)).collect();
    let mut slots = vec![Val::Undef; f.slots.len()];
    let mut block = 0;
    let mut entered = 0;
    loop {
        entered += 1;
        assert!(entered < 100);
        let mut locals: Vec<Val> = vec![];
        let get = |v: &Operand, locals: &Vec<Val>| match v {
            Operand::Local(i) => locals[*i].clone(),
            Operand::Param(i) => params[*i].clone(),
            Operand::Const(hugr_emit::ir::Constant::Int { value, .. }) => Val::Int(*value),
            Operand::Const(other) => panic!("unexpected: {:?}", other),
        };
        for instr in &f.blocks[block].instrs {
            let value = match instr {
                Instr::Load { slot, .. } => slots[*slot].clone(),
                Instr::Store { slot, value } => {
                    slots[*slot] = get(value, &locals);
                    Val::Undef
                }
                Instr::MakeStruct { fields, .. } => {
                    Val::Struct(fields.iter().map(|v| get(v, &locals)).collect())
                }
                Instr::MakeVariant { tag, fields, .. } => {
                    Val::Variant(*tag, fields.iter().map(|v| get(v, &locals)).collect())
                }
                Instr::GetTag { value, .. } => match get(value, &locals) {
                    Val::Variant(tag, _) => Val::Int(tag as u64),
                    other => panic!("unexpected: {:?}", other),
                },
                Instr::VariantField { value, tag, index, .. } => match get(value, &locals) {
                    Val::Variant(held, fields) if held == *tag => fields[*index].clone(),
                    other => panic!("unexpected: {:?}", other),
                },
                Instr::Binary { lhs, rhs, .. } => match (get(lhs, &locals), get(rhs, &locals)) {
                    (Val::Int(a), Val::Int(b)) => Val::Int((a + b) % 256),
                    other => panic!("unexpected: {:?}", other),
                },
                other => panic!("unexpected: {:?}", other),
            };
            locals.push(value);
        }
        match &f.blocks[block].term {
            Terminator::Ret(v) => match get(v, &locals) {
                Val::Struct(fields) => {
                    let ints = fields
                        .into_iter()
                        .map(|v| match v {
                            Val::Int(i) => i,
                            other => panic!("unexpected: {:?}", other),
                        })
                        .collect();
                    return (ints, entered);
                }
                other => panic!("unexpected: {:?}", other),
            },
            Terminator::Br(b) => block = *b,
            Terminator::Switch { on, targets } => match get(on, &locals) {
                Val::Int(d) => block = targets[d as usize],
                other => panic!("unexpected: {:?}", other),
            },
            Terminator::Unreachable => panic!("reached the unreachable"),
        }
    }
}

#[test]
fn loop_runs_until_it_breaks() {
    let module = emit(&countdown()).unwrap();
    assert!(module.verify());
    // one round: the entry, and then header, case, merge, exit of the loop
    let (result, one_round) = run(&module, &[0, 10]);
    assert_eq!(result, vec![1, 11]);
    let (result, two_rounds) = run(&module, &[1, 10]);
    assert_eq!(result, vec![1, 12]);
    let (result, three_rounds) = run(&module, &[2, 250]);
    assert_eq!(result, vec![1, 253]);
    // each further round enters the header, a case, the merge block and
    // the block that branches back
    assert_eq!(two_rounds - one_round, 4);
    assert_eq!(three_rounds - two_rounds, 4);
}

#[test]
fn loop_has_its_blocks() {
    let module = emit(&countdown()).unwrap();
    let f = &module.functions[0];
    // the entry; the header, which dispatches on the state; three cases;
    // the merge block, which dispatches on what the round yielded; the
    // block that goes on; the block that leaves; the exit
    assert_eq!(f.blocks.len(), 9);
    assert_eq!(f.blocks[0].term, Terminator::Br(1));
    assert!(matches!(&f.blocks[1].term, Terminator::Switch { targets, .. } if targets == &vec![2, 3, 4]));
    for case in 2..5 {
        assert_eq!(f.blocks[case].term, Terminator::Br(5));
    }
    assert!(matches!(&f.blocks[5].term, Terminator::Switch { targets, .. } if targets == &vec![6, 7]));
    assert_eq!(f.blocks[6].term, Terminator::Br(1));
    assert_eq!(f.blocks[7].term, Terminator::Br(8));
    assert!(matches!(f.blocks[8].term, Terminator::Ret(_)));
    let text = module.to_text();
    assert!(text.contains("b6:\n"));
    assert!(text.contains("  br b1\n"));
    assert_eq!(emit(&countdown()).unwrap().to_text(), text);
}

#[test]
fn loop_must_yield_what_it_declares() {
    let mut hugr = countdown();
    let looped = hugr
        .nodes
        .iter()
        .position(|n| matches!(n.op, OpType::TailLoop { .. }))
        .unwrap();
    let output = hugr.nodes[looped].children[1];
    // the region yields the counter where the sum is due
    let wires = hugr.nodes[output].inputs.clone();
    hugr.nodes[output].inputs = vec![wires[1], wires[1]];
    hugr.nodes[output].op = OpType::Output { types: vec![int_type(3), int_type(3)] };
    assert_eq!(
        emit(&hugr),
        Err(EmitError::Malformed { node: looped, reason: Malformation::TypeMismatch })
    );
    let mut hugr = countdown();
    let output = hugr.nodes[looped].children[1];
    hugr.nodes[output].inputs.pop();
    hugr.nodes[output].op = OpType::Output { types: vec![Type::new_sum(yielded())] };
    assert_eq!(
        emit(&hugr),
        Err(EmitError::Malformed { node: looped, reason: Malformation::TypeMismatch })
    );
}

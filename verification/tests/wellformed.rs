use hugr_emit::builder::DfgBuilder;
use hugr_emit::builder::ExtensionRegistry;
use hugr_emit::int_ext::int_types_extension;
use hugr_emit::config::SimpleHugrConfig;
use hugr_emit::context::EmitContext;
use hugr_emit::extension::ExtensionOpRegistry;
use hugr_emit::hugr::Hugr;
use hugr_emit::hugr::Wire;
use hugr_emit::int_ext::add_int_extensions;
use hugr_emit::int_ext::int_type;
use hugr_emit::int_ext::IntLowering;
use hugr_emit::ops::OpType;
use hugr_emit::ops::Value;
use hugr_emit::types::FunctionType;
use hugr_emit::types::Type;
use hugr_emit::validate::check_node;
use hugr_emit::validate::check_region;
use hugr_emit::validate::check_tree;
use hugr_emit::validate::type_is_plain;
use hugr_emit::validate::value_is_plain;

fn owed(hugr: &Hugr) {
    assert!(hugr.is_well_formed());
    let mut bare: EmitContext<IntLowering> = EmitContext::new(ExtensionOpRegistry::new());
    let module = bare.emit_module(hugr).unwrap();
    assert!(module.verify());
    let mut ints = EmitContext::new(add_int_extensions(ExtensionOpRegistry::new()));
    assert_eq!(ints.emit_module(hugr).unwrap(), module);
}

fn tuple_and_back() -> Hugr {
    let pair = || vec![Type::bool_t(), Type::new_unit_sum(5)];
    SimpleHugrConfig::new()
        .with_ins(pair())
        .with_outs(vec![Type::new_unit_sum(5), Type::bool_t(), Type::new_tuple(pair())])
        .finish(|mut builder: DfgBuilder| {
            let in_wires = builder.input_wires();
            let tuple = builder.make_tuple(in_wires).unwrap();
            let fields = builder
                .add_dataflow_op(OpType::UnpackTuple { tys: pair() }, vec![tuple])
                .unwrap();
            builder.finish_with_outputs(vec![fields[1], fields[0], tuple]).unwrap();
            builder
        })
}

fn conditional_in_a_loop() -> Hugr {
    let state = || Type::new_unit_sum(3);
    let yielded = || vec![vec![state()], vec![Type::unit()]];
    SimpleHugrConfig::new()
        .with_ins(vec![state(), Type::bool_t()])
        .with_outs(vec![Type::unit(), Type::bool_t()])
        .finish(|mut builder: DfgBuilder| {
            let inputs = builder.input_wires();
            builder
                .tail_loop_builder(
                    vec![state()],
                    vec![inputs[0]],
                    vec![Type::bool_t()],
                    vec![inputs[1]],
                    vec![Type::unit()],
                )
                .unwrap();
            let round = builder.input_wires();
            builder
                .conditional_builder(
                    vec![vec![], vec![], vec![]],
                    round[0],
                    vec![],
                    vec![],
                    vec![Type::new_sum(yielded())],
                )
                .unwrap();
            let cases = [
                (Value::tuple(vec![]), 1),
                (Value::unit_sum(0, 3).unwrap(), 0),
                (Value::unit_sum(1, 3).unwrap(), 0),
            ];
            for (i, (value, tag)) in cases.into_iter().enumerate() {
                builder.case_builder(i).unwrap();
                let k = builder.add_load_value(value).unwrap();
                let t = builder
                    .add_dataflow_op(OpType::Tag { tag, variants: yielded() }, vec![k])
                    .unwrap();
                builder.finish_with_outputs(t).unwrap();
            }
            let decided = builder.finish_sub_container().unwrap();
            let outputs = builder.finish_with_outputs(vec![decided[0], round[1]]).unwrap();
            builder.finish_with_outputs(outputs).unwrap();
            builder
        })
}

fn nested() -> Hugr {
    SimpleHugrConfig::new()
        .with_ins(vec![Type::unit()])
        .with_outs(vec![Type::unit()])
        .finish(|mut builder: DfgBuilder| {
            let inputs = builder.input_wires();
            builder.dfg_builder(FunctionType::new_endo(vec![Type::unit()]), inputs).unwrap();
            let w = builder.input_wires();
            let dfg = builder.finish_with_outputs(w).unwrap();
            builder.finish_with_outputs(dfg).unwrap();
            builder
        })
}

#[test]
fn well_formed_graphs_are_emitted() {
    owed(&tuple_and_back());
    owed(&conditional_in_a_loop());
    owed(&nested());
    owed(&SimpleHugrConfig::new().finish(|mut builder: DfgBuilder| {
        builder.finish_with_outputs(vec![]).unwrap();
        builder
    }));
    owed(&Hugr::new());
}

#[test]
fn defects_are_found() {
    let broken = |change: fn(&mut Hugr)| {
        let mut hugr = tuple_and_back();
        change(&mut hugr);
        hugr.is_well_formed()
    };
    assert!(!Hugr { nodes: vec![] }.is_well_formed());
    // the nodes: 0 module, 1 function, 2 input, 3 output, 4 make-tuple, 5 unpack-tuple
    assert!(broken(|_| {}));
    assert!(!broken(|h| h.nodes[0].op = OpType::MakeTuple { tys: vec![] }));
    assert!(!broken(|h| h.nodes[2].parent = 0));
    assert!(!broken(|h| h.nodes[0].children = vec![1, 7]));
    assert!(!broken(|h| h.nodes[1].children = vec![2]));
    assert!(!broken(|h| h.nodes[1].children.swap(0, 1)));
    assert!(!broken(|h| h.nodes[1].children.push(4)));
    assert!(!broken(|h| h.nodes[2].op = OpType::Input { types: vec![] }));
    assert!(!broken(|h| h.nodes[3].inputs.swap(0, 1)));
    assert!(!broken(|h| {
        h.nodes[3].inputs.pop();
    }));
    assert!(!broken(|h| h.nodes[3].inputs[0] = Wire { node: 5, port: 2 }));
    assert!(!broken(|h| h.nodes[3].inputs[0] = Wire { node: 3, port: 0 }));
    assert!(!broken(|h| h.nodes[4].inputs[0] = Wire { node: 5, port: 0 }));
    assert!(!broken(|h| h.nodes[5].op = OpType::UnpackTuple { tys: vec![Type::bool_t()] }));
    assert!(!broken(|h| h.nodes[5].op = OpType::Tag { tag: 2, variants: vec![vec![], vec![]] }));
    assert!(!broken(|h| h.nodes[5].op = OpType::Case { signature: FunctionType::new(vec![], vec![]) }));
    // another order of the siblings is as good
    assert!(broken(|h| h.nodes[1].children.swap(2, 3)));
    // what names an extension is not covered
    let mut ints = ExtensionRegistry::new();
    ints.register(int_types_extension());
    let with_int = SimpleHugrConfig::new()
        .with_ins(vec![int_type(3)])
        .with_outs(vec![int_type(3)])
        .with_extensions(ints.duplicate())
        .finish(|mut builder: DfgBuilder| {
            let inputs = builder.input_wires();
            builder.finish_with_outputs(inputs).unwrap();
            builder
        });
    assert!(!with_int.is_well_formed());
    assert!(with_int.validate(&ints));
    assert!(!with_int.validate(&ExtensionRegistry::new()));
    let looped = |change: fn(&mut Hugr)| {
        let mut hugr = conditional_in_a_loop();
        change(&mut hugr);
        hugr.is_well_formed()
    };
    let at = |h: &Hugr, wanted: fn(&OpType) -> bool| h.nodes.iter().position(|n| wanted(&n.op)).unwrap();
    assert!(looped(|_| {}));
    assert!(!looped(|h| {
        let cond = h.nodes.iter().position(|n| matches!(n.op, OpType::Conditional { .. })).unwrap();
        h.nodes[cond].children.pop();
    }));
    assert!(!looped(|h| {
        let cond = h.nodes.iter().position(|n| matches!(n.op, OpType::Conditional { .. })).unwrap();
        h.nodes[cond].children.swap(0, 1);
        let first = h.nodes[cond].children[0];
        let tag = h.nodes[first].children[3];
        h.nodes[tag].op = OpType::Tag { tag: 1, variants: vec![vec![Type::new_unit_sum(3)], vec![Type::bool_t()]] };
    }));
    assert!(!looped(|h| {
        let node = h.nodes.iter().position(|n| matches!(n.op, OpType::TailLoop { .. })).unwrap();
        let out = h.nodes[node].children[1];
        h.nodes[out].inputs.swap(0, 1);
    }));
    let hugr = conditional_in_a_loop();
    let node = at(&hugr, |op| matches!(op, OpType::TailLoop { .. }));
    assert!(check_tree(&hugr));
    let none = ExtensionRegistry::new();
    assert!(check_node(&none, &hugr, node));
    assert!(!check_node(&none, &hugr, 1));
    assert!(check_region(&none, &hugr, 1, &vec![Type::new_unit_sum(3), Type::bool_t()]));
    assert!(!check_region(&none, &hugr, 1, &vec![Type::new_unit_sum(3)]));
    assert!(!check_region(&none, &hugr, 0, &vec![]));
}

#[test]
fn plain_types_and_values() {
    assert!(type_is_plain(&Type::unit()));
    assert!(type_is_plain(&Type::new_sum(vec![vec![Type::bool_t()], vec![]])));
    assert!(!type_is_plain(&int_type(3)));
    assert!(!type_is_plain(&Type::new_tuple(vec![Type::bool_t(), int_type(3)])));
    assert!(!type_is_plain(&Type::new_sum(vec![vec![], vec![int_type(3)]])));
    assert!(!type_is_plain(&Type::Function { input: vec![], output: vec![int_type(3)] }));
    assert!(type_is_plain(&Type::Function { input: vec![Type::unit()], output: vec![] }));
    assert!(value_is_plain(&Value::tuple(vec![Value::unit_sum(1, 2).unwrap()])));
    assert!(!value_is_plain(&Value::UnitSum { tag: 2, arity: 2 }));
    assert!(!value_is_plain(&Value::tuple(vec![hugr_emit::int_ext::const_int_u(3, 1).unwrap()])));
}

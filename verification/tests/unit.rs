use hugr_emit::builder::BuildError;
use hugr_emit::builder::DfgBuilder;
use hugr_emit::builder::ExtensionRegistry;
use hugr_emit::builder::ModuleBuilder;
use hugr_emit::check::int_fits;
use hugr_emit::config::SimpleHugrConfig;
use hugr_emit::constant::lower_constant;
use hugr_emit::context::EmitContext;
use hugr_emit::convert::TypeConverter;
use hugr_emit::error::EmitError;
use hugr_emit::error::Malformation;
use hugr_emit::extension::ExtensionOpRegistry;
use hugr_emit::fat::FatNode;
use hugr_emit::fat::OpTag;
use hugr_emit::hugr::Hugr;
use hugr_emit::hugr::NodeData;
use hugr_emit::hugr::Wire;
use hugr_emit::int_ext::add_int_extensions;
use hugr_emit::int_ext::const_int_s;
use hugr_emit::int_ext::const_int_u;
use hugr_emit::int_ext::int_op;
use hugr_emit::int_ext::int_ops_extension;
use hugr_emit::int_ext::int_type;
use hugr_emit::int_ext::int_types_extension;
use hugr_emit::int_ext::width_bits;
use hugr_emit::int_ext::IntLowering;
use hugr_emit::ir::BinOp;
use hugr_emit::ir::Block;
use hugr_emit::ir::Constant;
use hugr_emit::ir::Function;
use hugr_emit::ir::Instr;
use hugr_emit::ir::Module;
use hugr_emit::ir::Operand;
use hugr_emit::ir::Terminator;
use hugr_emit::layout::discriminant_bits;
use hugr_emit::layout::payload_size_in_bytes;
use hugr_emit::layout::row_offsets;
use hugr_emit::layout::TargetType;
use hugr_emit::ops::CustomConst;
use hugr_emit::ops::ExtensionOp;
use hugr_emit::ops::OpType;
use hugr_emit::ops::Value;
use hugr_emit::schedule::compute_schedule;
use hugr_emit::types::CustomType;
use hugr_emit::types::FunctionType;
use hugr_emit::types::Type;
use hugr_emit::types::TypeArg;

fn int_registry() -> ExtensionOpRegistry<IntLowering> {
    add_int_extensions(ExtensionOpRegistry::new())
}

fn emit(hugr: &Hugr) -> Result<Module, EmitError> {
    EmitContext::new(int_registry()).emit_module(hugr)
}

fn node(op: OpType, parent: usize, children: Vec<usize>, inputs: Vec<Wire>) -> NodeData {
    NodeData { op, parent, children, inputs }
}

fn wire(node: usize, port: usize) -> Wire {
    Wire { node, port }
}

/// A module with one function from `ins` to `outs` whose body holds the
/// nodes `body`, which come after the input node 2 and the output node 3.
fn function_of(ins: Vec<Type>, outs: Vec<Type>, body: Vec<NodeData>, results: Vec<Wire>) -> Hugr {
    let mut nodes = vec![
        node(OpType::Module, 0, vec![1], vec![]),
        node(
            OpType::FuncDefn {
                name: "main".to_string(),
                signature: FunctionType::new(ins.clone(), outs.clone()),
            },
            0,
            (2..4 + body.len()).collect(),
            vec![],
        ),
        node(OpType::Input { types: ins }, 1, vec![], vec![]),
        node(OpType::Output { types: outs }, 1, vec![], results),
    ];
    nodes.extend(body);
    Hugr { nodes }
}

fn malformed(node: usize, reason: Malformation) -> Result<Module, EmitError> {
    Err(EmitError::Malformed { node, reason })
}

#[test]
fn discriminant_is_the_smallest_that_covers() {
    let expected = [
        (0, 1),
        (1, 1),
        (2, 1),
        (3, 2),
        (4, 2),
        (5, 3),
        (8, 3),
        (9, 4),
        (256, 8),
        (257, 9),
        (usize::MAX, 64),
    ];
    for (n, bits) in expected {
        assert_eq!(discriminant_bits(n), bits, "for {} alternatives", n);
    }
}

#[test]
fn sizes_and_offsets() {
    let i = TargetType::Int;
    assert_eq!(i(1).size_in_bytes(), Some(1));
    assert_eq!(i(8).size_in_bytes(), Some(1));
    assert_eq!(i(9).size_in_bytes(), Some(2));
    assert_eq!(i(64).size_in_bytes(), Some(8));
    let row = vec![i(8), i(32), TargetType::Struct(vec![i(16), i(1)]), i(64)];
    assert_eq!(row_offsets(&row), Some(vec![0, 1, 5, 8]));
    assert_eq!(TargetType::Struct(row).size_in_bytes(), Some(16));
    assert_eq!(TargetType::Struct(vec![]).size_in_bytes(), Some(0));
    let variants = vec![vec![i(8)], vec![i(32), i(32)], vec![]];
    assert_eq!(payload_size_in_bytes(&variants), Some(8));
    assert_eq!(payload_size_in_bytes(&vec![]), Some(0));
    let union = TargetType::Union { tag_bits: 2, variants };
    // one byte of discriminant, and the largest variant
    assert_eq!(union.size_in_bytes(), Some(9));
    assert_eq!(TargetType::FuncPtr { params: vec![], results: vec![] }.size_in_bytes(), Some(8));
}

#[test]
fn type_equality_is_structural() {
    let a = Type::new_tuple(vec![Type::bool_t(), Type::new_sum(vec![vec![Type::unit()], vec![]])]);
    let b = Type::new_tuple(vec![Type::new_unit_sum(2), Type::new_sum(vec![vec![Type::unit()], vec![]])]);
    assert!(a.same(&b));
    assert!(a.duplicate().same(&a));
    assert_eq!(a.clone(), a);
    assert!(!a.same(&Type::new_tuple(vec![Type::bool_t()])));
    assert!(!Type::new_unit_sum(2).same(&Type::new_unit_sum(3)));
    assert!(!int_type(3).same(&int_type(4)));
    assert!(int_type(3).same(&int_type(3)));
    assert!(!Type::unit().same(&Type::new_sum(vec![])));
    let f = |out: Type| Type::Function { input: vec![Type::bool_t()], output: vec![out] };
    assert!(f(Type::unit()).same(&f(Type::unit())));
    assert!(!f(Type::unit()).same(&f(Type::bool_t())));
}

#[test]
fn conversion_of_each_shape() {
    let reg = int_registry();
    let mut conv = TypeConverter::new();
    let i = TargetType::Int;
    assert_eq!(conv.convert(&reg, &Type::unit()), Ok(TargetType::Struct(vec![])));
    assert_eq!(conv.convert(&reg, &Type::bool_t()), Ok(i(1)));
    assert_eq!(conv.convert(&reg, &Type::new_unit_sum(3)), Ok(i(2)));
    assert_eq!(conv.convert(&reg, &Type::new_sum(vec![])), Ok(i(1)));
    assert_eq!(conv.convert(&reg, &int_type(5)), Ok(i(32)));
    assert_eq!(
        conv.convert(&reg, &Type::new_tuple(vec![Type::bool_t(), int_type(0)])),
        Ok(TargetType::Struct(vec![i(1), i(1)]))
    );
    assert_eq!(
        conv.convert(
            &reg,
            &Type::new_sum(vec![vec![], vec![int_type(3), Type::bool_t()], vec![Type::unit()]])
        ),
        Ok(TargetType::Union {
            tag_bits: 2,
            variants: vec![vec![], vec![i(8), i(1)], vec![TargetType::Struct(vec![])]],
        })
    );
    assert_eq!(
        conv.convert(
            &reg,
            &Type::Function { input: vec![int_type(6)], output: vec![Type::bool_t(), Type::unit()] }
        ),
        Ok(TargetType::FuncPtr {
            params: vec![i(64)],
            results: vec![i(1), TargetType::Struct(vec![])],
        })
    );
}

#[test]
fn conversion_is_memoized() {
    let reg = int_registry();
    let mut conv = TypeConverter::new();
    let t = Type::new_tuple(vec![Type::bool_t(), Type::bool_t()]);
    let first = conv.convert(&reg, &t).unwrap();
    let remembered = conv.cache.len();
    // the tuple, and its field, which is met twice and converted once
    assert_eq!(remembered, 2);
    let second = conv.convert(&reg, &t.duplicate()).unwrap();
    assert_eq!(first, second);
    assert_eq!(conv.cache.len(), remembered);
}

#[test]
fn unregistered_type_is_an_error() {
    let custom = |ext: &str, name: &str, args: Vec<TypeArg>| {
        Type::Extension(CustomType::new(ext.to_string(), name.to_string(), args))
    };
    let unsupported = |ext: &str, name: &str| {
        Err(EmitError::UnsupportedType { extension: ext.to_string(), name: name.to_string() })
    };
    let mut conv = TypeConverter::new();
    let empty: ExtensionOpRegistry<IntLowering> = ExtensionOpRegistry::new();
    assert_eq!(conv.convert(&empty, &int_type(3)), unsupported("arithmetic.int.types", "int"));
    let reg = int_registry();
    assert_eq!(
        conv.convert(&reg, &custom("quantum", "qubit", vec![])),
        unsupported("quantum", "qubit")
    );
    // the registered lowering rejects what it cannot lower
    assert_eq!(conv.convert(&reg, &int_type(7)), unsupported("arithmetic.int.types", "int"));
    assert_eq!(
        conv.convert(&reg, &custom("arithmetic.int.types", "int", vec![])),
        unsupported("arithmetic.int.types", "int")
    );
    assert_eq!(
        conv.convert(
            &reg,
            &custom("arithmetic.int.types", "int", vec![TypeArg::Symbol("x".to_string())])
        ),
        unsupported("arithmetic.int.types", "int")
    );
    // the first field without a layout decides
    assert_eq!(
        conv.convert(
            &reg,
            &Type::new_tuple(vec![
                Type::bool_t(),
                custom("a", "first", vec![]),
                custom("b", "second", vec![])
            ])
        ),
        unsupported("a", "first")
    );
    assert_eq!(conv.cache.len(), 1);
}

#[test]
fn resolve_matches_exactly() {
    let mut reg: ExtensionOpRegistry<IntLowering> = ExtensionOpRegistry::new();
    let s = |x: &str| x.to_string();
    assert_eq!(
        reg.resolve(&s("arithmetic.int"), &s("iadd"), &vec![]),
        Err(EmitError::UnsupportedOp { extension: s("arithmetic.int"), name: s("iadd") })
    );
    reg.register(s("arithmetic.int"), s("iadd"), IntLowering::Op(BinOp::Add));
    reg.register(s("arithmetic.int"), s("isub"), IntLowering::Op(BinOp::Sub));
    assert_eq!(
        reg.resolve(&s("arithmetic.int"), &s("iadd"), &vec![]),
        Ok(&IntLowering::Op(BinOp::Add))
    );
    // the type arguments take no part in the match
    assert_eq!(
        reg.resolve(&s("arithmetic.int"), &s("isub"), &vec![TypeArg::BoundedNat(99)]),
        Ok(&IntLowering::Op(BinOp::Sub))
    );
    assert!(reg.resolve(&s("arithmetic.int"), &s("iad"), &vec![]).is_err());
    assert!(reg.resolve(&s("arithmetic.in"), &s("iadd"), &vec![]).is_err());
    assert!(reg.resolve(&s("iadd"), &s("arithmetic.int"), &vec![]).is_err());
    // a later registration replaces an earlier one
    reg.register(s("arithmetic.int"), s("iadd"), IntLowering::Op(BinOp::Mul));
    assert_eq!(
        reg.resolve(&s("arithmetic.int"), &s("iadd"), &vec![]),
        Ok(&IntLowering::Op(BinOp::Mul))
    );
    // the tables are apart
    assert!(reg.resolve_type(&s("arithmetic.int"), &s("iadd")).is_err());
    assert!(reg.resolve_constant(&s("arithmetic.int"), &s("iadd")).is_err());
}

#[test]
fn integer_constants() {
    assert_eq!(width_bits(0), Some(1));
    assert_eq!(width_bits(4), Some(16));
    assert_eq!(width_bits(6), Some(64));
    assert_eq!(width_bits(7), None);
    assert!(int_fits(8, 255));
    assert!(!int_fits(8, 256));
    assert!(int_fits(0, 0));
    assert!(!int_fits(0, 1));
    assert!(int_fits(64, u64::MAX));
    assert!(int_fits(63, (1 << 63) - 1));
    assert!(!int_fits(63, 1 << 63));
    let payload = |v: Option<Value>| match v {
        Some(Value::Extension(c)) => Some(c.payload),
        Some(other) => panic!("no extension constant: {:?}", other),
        None => None,
    };
    assert_eq!(payload(const_int_s(4, -24)), Some(vec![4, 65512]));
    assert_eq!(payload(const_int_s(4, 24)), Some(vec![4, 24]));
    assert_eq!(payload(const_int_s(3, -128)), Some(vec![3, 128]));
    assert_eq!(payload(const_int_s(3, 127)), Some(vec![3, 127]));
    assert_eq!(payload(const_int_s(3, 128)), None);
    assert_eq!(payload(const_int_s(3, -129)), None);
    assert_eq!(payload(const_int_s(0, -1)), Some(vec![0, 1]));
    assert_eq!(payload(const_int_s(0, 1)), None);
    assert_eq!(payload(const_int_s(6, -1)), Some(vec![6, u64::MAX]));
    assert_eq!(payload(const_int_s(6, i64::MIN)), Some(vec![6, 1 << 63]));
    assert_eq!(payload(const_int_s(7, 0)), None);
    assert_eq!(payload(const_int_u(3, 255)), Some(vec![3, 255]));
    assert_eq!(payload(const_int_u(3, 256)), None);
    assert_eq!(payload(const_int_u(6, u64::MAX)), Some(vec![6, u64::MAX]));
    assert_eq!(payload(const_int_u(7, 0)), None);
}

#[test]
fn constants_of_each_shape() {
    let reg = int_registry();
    assert_eq!(Value::unit_sum(4, 4), None);
    assert_eq!(Value::unit_sum(0, 0), None);
    let v = Value::tuple(vec![
        Value::unit_sum(2, 4).unwrap(),
        const_int_s(4, -24).unwrap(),
        Value::tuple(vec![]),
        Value::unit_sum(0, 1).unwrap(),
    ]);
    assert!(v.get_type().same(&Type::new_tuple(vec![
        Type::new_unit_sum(4),
        int_type(4),
        Type::unit(),
        Type::new_unit_sum(1)
    ])));
    assert_eq!(
        lower_constant(&reg, &v, 7),
        Ok(Constant::Struct(vec![
            Constant::Int { bits: 2, value: 2 },
            Constant::Int { bits: 16, value: 65512 },
            Constant::Struct(vec![]),
            Constant::Int { bits: 1, value: 0 },
        ]))
    );
    // a tag that its sum does not have
    assert_eq!(
        lower_constant(&reg, &Value::UnitSum { tag: 3, arity: 3 }, 7),
        Err(EmitError::Malformed { node: 7, reason: Malformation::BadTag })
    );
    let unknown = Value::Extension(CustomConst {
        extension: "quantum".to_string(),
        name: "Angle".to_string(),
        ty: CustomType::new("quantum".to_string(), "angle".to_string(), vec![]),
        payload: vec![1],
    });
    let unsupported = Err(EmitError::UnsupportedConstant {
        extension: "quantum".to_string(),
        name: "Angle".to_string(),
    });
    assert_eq!(lower_constant(&reg, &unknown, 0), unsupported);
    assert_eq!(
        lower_constant(&reg, &Value::tuple(vec![Value::tuple(vec![]), unknown]), 0),
        unsupported
    );
    let empty: ExtensionOpRegistry<IntLowering> = ExtensionOpRegistry::new();
    assert_eq!(
        lower_constant(&empty, &const_int_u(3, 1).unwrap(), 0),
        Err(EmitError::UnsupportedConstant {
            extension: "arithmetic.int.types".to_string(),
            name: "ConstInt".to_string(),
        })
    );
}

fn load(value: Value) -> OpType {
    OpType::LoadConstant { value }
}

#[test]
fn schedule_keeps_a_good_sibling_order() {
    let t = || Type::new_unit_sum(2);
    let pair = OpType::MakeTuple { tys: vec![t(), t()] };
    let hugr = function_of(
        vec![t()],
        vec![Type::new_tuple(vec![t(), t()])],
        vec![
            node(load(Value::unit_sum(1, 2).unwrap()), 1, vec![], vec![]),
            node(pair, 1, vec![], vec![wire(2, 0), wire(4, 0)]),
        ],
        vec![wire(5, 0)],
    );
    assert_eq!(compute_schedule(&hugr, 2, &vec![4, 5]), Some(vec![4, 5]));
    assert_eq!(compute_schedule(&hugr, 2, &vec![]), Some(vec![]));
    assert!(emit(&hugr).is_ok());
}

#[test]
fn schedule_puts_nodes_after_what_they_read() {
    let t = || Type::new_unit_sum(2);
    let pair = || OpType::MakeTuple { tys: vec![t(), t()] };
    let unpack = || OpType::UnpackTuple { tys: vec![t(), t()] };
    // in sibling order: 4 reads from 6, 5 reads from 4, 6 reads from the input
    let hugr = function_of(
        vec![t()],
        vec![t(), t()],
        vec![
            node(unpack(), 1, vec![], vec![wire(6, 0)]),
            node(pair(), 1, vec![], vec![wire(4, 1), wire(4, 0)]),
            node(pair(), 1, vec![], vec![wire(2, 0), wire(2, 0)]),
            node(unpack(), 1, vec![], vec![wire(5, 0)]),
        ],
        vec![wire(7, 0), wire(7, 1)],
    );
    assert_eq!(compute_schedule(&hugr, 2, &vec![4, 5, 6, 7]), Some(vec![6, 4, 5, 7]));
    let module = emit(&hugr).unwrap();
    assert!(module.verify());
    // the slots are allocated in the order of emission: the input node,
    // then 6, 4, 5 and 7
    let i1 = || TargetType::Int(1);
    let pair_t = || TargetType::Struct(vec![i1(), i1()]);
    assert_eq!(
        module.functions[0].slots,
        vec![i1(), pair_t(), i1(), i1(), pair_t(), i1(), i1()]
    );
}

#[test]
fn schedule_finds_no_order_in_a_cycle() {
    let t = || Type::new_unit_sum(2);
    let pair = || OpType::MakeTuple { tys: vec![t()] };
    let unpack = || OpType::UnpackTuple { tys: vec![t()] };
    let hugr = function_of(
        vec![t()],
        vec![t()],
        vec![
            node(pair(), 1, vec![], vec![wire(5, 0)]),
            node(unpack(), 1, vec![], vec![wire(4, 0)]),
        ],
        vec![wire(5, 0)],
    );
    assert_eq!(compute_schedule(&hugr, 2, &vec![4, 5]), None);
    assert_eq!(emit(&hugr), malformed(1, Malformation::Cycle));
    // a node that is listed twice, a node that does not exist, the input node
    assert_eq!(compute_schedule(&hugr, 2, &vec![4, 4]), None);
    assert_eq!(compute_schedule(&hugr, 2, &vec![99]), None);
    assert_eq!(compute_schedule(&hugr, 2, &vec![2]), None);
}

#[test]
fn malformed_graphs_are_reported() {
    let t = || Type::new_unit_sum(2);
    let i = || int_type(3);
    let simple = |body: Vec<NodeData>, results: Vec<Wire>| function_of(vec![t()], vec![t()], body, results);

    assert_eq!(emit(&Hugr { nodes: vec![] }), malformed(0, Malformation::BadNode));
    assert_eq!(
        emit(&Hugr { nodes: vec![node(OpType::Input { types: vec![] }, 0, vec![], vec![])] }),
        malformed(0, Malformation::UnexpectedOp)
    );
    // a child of the root that is no node, and one that is no function
    assert_eq!(
        emit(&Hugr { nodes: vec![node(OpType::Module, 0, vec![5], vec![])] }),
        malformed(5, Malformation::BadNode)
    );
    assert_eq!(
        emit(&Hugr { nodes: vec![node(OpType::Module, 0, vec![0], vec![])] }),
        malformed(0, Malformation::BadNode)
    );
    assert_eq!(
        emit(&Hugr {
            nodes: vec![
                node(OpType::Module, 0, vec![1], vec![]),
                node(OpType::Input { types: vec![] }, 0, vec![], vec![]),
            ]
        }),
        malformed(1, Malformation::UnexpectedOp)
    );
    // a function without its boundary
    let mut hugr = simple(vec![], vec![wire(2, 0)]);
    hugr.nodes[1].children = vec![2];
    assert_eq!(emit(&hugr), malformed(1, Malformation::MissingBoundary));
    let mut hugr = simple(vec![], vec![wire(2, 0)]);
    hugr.nodes[1].children = vec![3, 2];
    assert_eq!(emit(&hugr), malformed(1, Malformation::MissingBoundary));
    let mut hugr = simple(vec![], vec![wire(2, 0)]);
    hugr.nodes[1].children = vec![2, 1];
    assert_eq!(emit(&hugr), malformed(1, Malformation::BadNode));
    // the well-formed one
    assert!(emit(&simple(vec![], vec![wire(2, 0)])).is_ok());
    // wires
    assert_eq!(emit(&simple(vec![], vec![])), malformed(3, Malformation::Arity));
    assert_eq!(emit(&simple(vec![], vec![wire(2, 1)])), malformed(3, Malformation::BadWire));
    assert_eq!(emit(&simple(vec![], vec![wire(3, 0)])), malformed(3, Malformation::BadWire));
    assert_eq!(emit(&simple(vec![], vec![wire(77, 0)])), malformed(3, Malformation::BadWire));
    assert_eq!(
        emit(&function_of(vec![t()], vec![i()], vec![], vec![wire(2, 0)])),
        malformed(3, Malformation::TypeMismatch)
    );
    // the body's input node declares another type than the function
    let mut hugr = simple(vec![], vec![wire(2, 0)]);
    hugr.nodes[2].op = OpType::Input { types: vec![i()] };
    assert_eq!(emit(&hugr), malformed(1, Malformation::TypeMismatch));
    let mut hugr = simple(vec![], vec![wire(2, 0)]);
    hugr.nodes[2].op = OpType::Input { types: vec![] };
    assert_eq!(emit(&hugr), malformed(1, Malformation::TypeMismatch));
    // also where the two types have one layout
    let mut hugr = function_of(vec![Type::new_unit_sum(3)], vec![Type::new_unit_sum(3)], vec![], vec![wire(2, 0)]);
    assert!(emit(&hugr).is_ok());
    hugr.nodes[2].op = OpType::Input { types: vec![Type::new_unit_sum(4)] };
    assert_eq!(emit(&hugr), malformed(1, Malformation::TypeMismatch));
    let mut hugr = function_of(vec![Type::new_unit_sum(3)], vec![Type::new_unit_sum(3)], vec![], vec![wire(2, 0)]);
    hugr.nodes[3].op = OpType::Output { types: vec![Type::new_unit_sum(4)] };
    assert_eq!(emit(&hugr), malformed(1, Malformation::TypeMismatch));
    // a wire of another type than its port's, of the same layout
    let tagged = |carried: usize| {
        let sum = || vec![vec![Type::new_unit_sum(3)], vec![]];
        function_of(
            vec![],
            vec![Type::new_sum(sum())],
            vec![
                node(load(Value::unit_sum(1, carried).unwrap()), 1, vec![], vec![]),
                node(OpType::Tag { tag: 0, variants: sum() }, 1, vec![], vec![wire(4, 0)]),
            ],
            vec![wire(5, 0)],
        )
    };
    assert!(emit(&tagged(3)).is_ok());
    assert_eq!(emit(&tagged(4)), malformed(5, Malformation::TypeMismatch));
    assert_eq!(emit(&tagged(2)), malformed(5, Malformation::TypeMismatch));
    // the body yields other types than the function declares
    let mut hugr = simple(vec![], vec![wire(2, 0), wire(2, 0)]);
    hugr.nodes[3].op = OpType::Output { types: vec![t(), t()] };
    assert_eq!(emit(&hugr), malformed(1, Malformation::TypeMismatch));
    // operations that cannot stand in a region
    for op in [
        OpType::Module,
        OpType::Input { types: vec![] },
        OpType::Output { types: vec![] },
        OpType::Case { signature: FunctionType::new(vec![], vec![]) },
        OpType::FuncDefn { name: "f".to_string(), signature: FunctionType::new(vec![], vec![]) },
    ] {
        assert_eq!(
            emit(&simple(vec![node(op, 1, vec![], vec![])], vec![wire(2, 0)])),
            malformed(4, Malformation::UnexpectedOp)
        );
    }
    // tags
    let tag = |tag: usize| OpType::Tag { tag, variants: vec![vec![], vec![]] };
    assert!(emit(&simple(vec![node(tag(1), 1, vec![], vec![])], vec![wire(4, 0)])).is_ok());
    assert_eq!(
        emit(&simple(vec![node(tag(2), 1, vec![], vec![])], vec![wire(4, 0)])),
        malformed(4, Malformation::BadTag)
    );
    assert_eq!(
        emit(&simple(vec![node(load(Value::UnitSum { tag: 2, arity: 2 }), 1, vec![], vec![])], vec![wire(4, 0)])),
        malformed(4, Malformation::BadTag)
    );
    // an unpack of what is no tuple of these fields
    assert_eq!(
        emit(&simple(
            vec![node(OpType::UnpackTuple { tys: vec![t()] }, 1, vec![], vec![wire(2, 0)])],
            vec![wire(4, 0)]
        )),
        malformed(4, Malformation::TypeMismatch)
    );
    // a constant whose words say another width than its type
    let mut odd = match const_int_u(4, 300).unwrap() {
        Value::Extension(c) => c,
        other => panic!("no extension constant: {:?}", other),
    };
    odd.ty = match int_type(3) {
        Type::Extension(c) => c,
        other => panic!("no extension type: {:?}", other),
    };
    assert_eq!(
        emit(&function_of(
            vec![],
            vec![i()],
            vec![node(load(Value::Extension(odd)), 1, vec![], vec![])],
            vec![wire(4, 0)]
        )),
        malformed(4, Malformation::TypeMismatch)
    );
}

#[test]
fn malformed_conditionals_are_reported() {
    let t = || Type::new_unit_sum(2);
    let sig = || FunctionType::new(vec![], vec![t()]);
    let case = |at: usize, parent: usize| {
        vec![
            node(OpType::Case { signature: sig() }, parent, vec![at + 1, at + 2, at + 3], vec![]),
            node(OpType::Input { types: vec![] }, at, vec![], vec![]),
            node(OpType::Output { types: vec![t()] }, at, vec![], vec![wire(at + 3, 0)]),
            node(load(Value::unit_sum(1, 2).unwrap()), at, vec![], vec![]),
        ]
    };
    let conditional = |children: Vec<usize>, inputs: Vec<Wire>| {
        node(
            OpType::Conditional { sum_rows: vec![vec![], vec![]], other_inputs: vec![], outputs: vec![t()] },
            1,
            children,
            inputs,
        )
    };
    let with = |cond: NodeData, first: Vec<NodeData>, second: Vec<NodeData>| {
        let mut body = vec![cond];
        body.extend(first);
        body.extend(second);
        let mut hugr = function_of(vec![t()], vec![t()], body, vec![wire(4, 0)]);
        hugr.nodes[1].children = vec![2, 3, 4];
        hugr
    };
    let good = with(conditional(vec![5, 9], vec![wire(2, 0)]), case(5, 4), case(9, 4));
    let module = emit(&good).unwrap();
    assert_eq!(module.functions[0].blocks.len(), 4);
    assert_eq!(
        emit(&with(conditional(vec![5], vec![wire(2, 0)]), case(5, 4), case(9, 4))),
        malformed(4, Malformation::CaseCount)
    );
    assert_eq!(
        emit(&with(conditional(vec![5, 9], vec![]), case(5, 4), case(9, 4))),
        malformed(4, Malformation::Arity)
    );
    assert_eq!(
        emit(&with(conditional(vec![5, 4], vec![wire(2, 0)]), case(5, 4), case(9, 4))),
        malformed(4, Malformation::BadNode)
    );
    assert_eq!(
        emit(&with(conditional(vec![5, 8], vec![wire(2, 0)]), case(5, 4), case(9, 4))),
        malformed(8, Malformation::BadNode)
    );
    let mut hugr = with(conditional(vec![5, 13], vec![wire(2, 0)]), case(5, 4), case(9, 4));
    hugr.nodes.push(node(OpType::Input { types: vec![] }, 4, vec![], vec![]));
    assert_eq!(emit(&hugr), malformed(13, Malformation::UnexpectedOp));
    // a case that yields more than the conditional declares
    let mut hugr = with(conditional(vec![5, 9], vec![wire(2, 0)]), case(5, 4), case(9, 4));
    hugr.nodes[11].op = OpType::Output { types: vec![t(), t()] };
    hugr.nodes[11].inputs = vec![wire(12, 0), wire(12, 0)];
    assert_eq!(emit(&hugr), malformed(9, Malformation::TypeMismatch));
}

#[test]
fn regions_are_scopes_of_their_own() {
    let unit = || Type::unit();
    let sig = || FunctionType::new(vec![unit()], vec![unit()]);
    // the nodes: 4 a nested graph, 5 its input node, 6 its output node
    let nested = |inner: Wire, body: Vec<NodeData>| {
        let mut nodes = vec![
            node(OpType::Dfg { signature: sig() }, 1, (5..7 + body.len()).collect(), vec![wire(2, 0)]),
            node(OpType::Input { types: vec![unit()] }, 4, vec![], vec![]),
            node(OpType::Output { types: vec![unit()] }, 4, vec![], vec![inner]),
        ];
        nodes.extend(body);
        let mut hugr = function_of(vec![unit()], vec![unit()], nodes, vec![wire(4, 0)]);
        hugr.nodes[1].children = vec![2, 3, 4];
        hugr
    };
    assert!(emit(&nested(wire(5, 0), vec![])).is_ok());
    // the output of the nested graph reads the input node of the function
    assert_eq!(emit(&nested(wire(2, 0), vec![])), malformed(6, Malformation::BadWire));
    // a node of the nested graph reads the input node of the function
    let pair = |from: Wire| node(OpType::MakeTuple { tys: vec![unit()] }, 4, vec![], vec![from]);
    let unpack = || node(OpType::UnpackTuple { tys: vec![unit()] }, 4, vec![], vec![wire(7, 0)]);
    assert!(emit(&nested(wire(8, 0), vec![pair(wire(5, 0)), unpack()])).is_ok());
    assert_eq!(
        emit(&nested(wire(8, 0), vec![pair(wire(2, 0)), unpack()])),
        malformed(7, Malformation::BadWire)
    );
    // the output of the function reads a node of the nested graph
    let mut hugr = nested(wire(5, 0), vec![]);
    hugr.nodes[3].inputs = vec![wire(5, 0)];
    assert_eq!(emit(&hugr), malformed(3, Malformation::BadWire));
    // one case reads what another case yields
    let t = || Type::new_unit_sum(2);
    let case = |at: usize, from: usize| {
        vec![
            node(
                OpType::Case { signature: FunctionType::new(vec![], vec![t()]) },
                4,
                vec![at + 1, at + 2, at + 3],
                vec![],
            ),
            node(OpType::Input { types: vec![] }, at, vec![], vec![]),
            node(OpType::Output { types: vec![t()] }, at, vec![], vec![wire(from, 0)]),
            node(load(Value::unit_sum(1, 2).unwrap()), at, vec![], vec![]),
        ]
    };
    let cases = |second_reads: usize| {
        let mut body = vec![node(
            OpType::Conditional { sum_rows: vec![vec![], vec![]], other_inputs: vec![], outputs: vec![t()] },
            1,
            vec![5, 9],
            vec![wire(2, 0)],
        )];
        body.extend(case(5, 8));
        body.extend(case(9, second_reads));
        let mut hugr = function_of(vec![t()], vec![t()], body, vec![wire(4, 0)]);
        hugr.nodes[1].children = vec![2, 3, 4];
        hugr
    };
    assert!(emit(&cases(12)).is_ok());
    assert_eq!(emit(&cases(8)), malformed(11, Malformation::BadWire));
}

#[test]
fn every_node_has_one_place() {
    let t = || Type::new_unit_sum(2);
    let constant = |parent: usize| node(load(Value::unit_sum(1, 2).unwrap()), parent, vec![], vec![]);
    let good = function_of(vec![], vec![t()], vec![constant(1)], vec![wire(4, 0)]);
    assert!(good.is_well_formed());
    assert!(emit(&good).is_ok());
    // a node that names another parent than the container that lists it
    let stray = function_of(vec![], vec![t()], vec![constant(0)], vec![wire(4, 0)]);
    assert!(!stray.is_well_formed());
    assert_eq!(emit(&stray), malformed(4, Malformation::BadNode));
    // an output node that names another parent
    let mut hugr = function_of(vec![], vec![t()], vec![constant(1)], vec![wire(4, 0)]);
    hugr.nodes[3].parent = 0;
    assert!(!hugr.is_well_formed());
    assert_eq!(emit(&hugr), malformed(1, Malformation::BadNode));
    // a function that is listed twice
    let mut hugr = function_of(vec![], vec![t()], vec![constant(1)], vec![wire(4, 0)]);
    hugr.nodes[0].children = vec![1, 1];
    assert!(!hugr.is_well_formed());
    assert_eq!(emit(&hugr), malformed(1, Malformation::BadNode));
    // a function that names another parent than the root
    let mut hugr = function_of(vec![], vec![t()], vec![constant(1)], vec![wire(4, 0)]);
    hugr.nodes[1].parent = 1;
    assert!(!hugr.is_well_formed());
    assert_eq!(emit(&hugr), malformed(1, Malformation::BadNode));
    // a node of a nested graph that the function lists as well
    let sig = || FunctionType::new(vec![], vec![t()]);
    let nested = || {
        let body = vec![
            node(OpType::Dfg { signature: sig() }, 1, vec![5, 6, 7], vec![]),
            node(OpType::Input { types: vec![] }, 4, vec![], vec![]),
            node(OpType::Output { types: vec![t()] }, 4, vec![], vec![wire(7, 0)]),
            constant(4),
        ];
        let mut hugr = function_of(vec![], vec![t()], body, vec![wire(4, 0)]);
        hugr.nodes[1].children = vec![2, 3, 4];
        hugr
    };
    assert!(nested().is_well_formed());
    assert!(emit(&nested()).is_ok());
    let mut hugr = nested();
    hugr.nodes[1].children = vec![2, 3, 4, 7];
    assert!(!hugr.is_well_formed());
    assert_eq!(emit(&hugr), malformed(7, Malformation::BadNode));
    // a case that stands for two variants
    let cases = |second: usize| {
        let mut body = vec![node(
            OpType::Conditional { sum_rows: vec![vec![], vec![]], other_inputs: vec![], outputs: vec![t()] },
            1,
            vec![5, second],
            vec![wire(2, 0)],
        )];
        for at in [5usize, 9] {
            body.extend(vec![
                node(
                    OpType::Case { signature: FunctionType::new(vec![], vec![t()]) },
                    4,
                    vec![at + 1, at + 2, at + 3],
                    vec![],
                ),
                node(OpType::Input { types: vec![] }, at, vec![], vec![]),
                node(OpType::Output { types: vec![t()] }, at, vec![], vec![wire(at + 3, 0)]),
                constant(at),
            ]);
        }
        let mut hugr = function_of(vec![t()], vec![t()], body, vec![wire(4, 0)]);
        hugr.nodes[1].children = vec![2, 3, 4];
        hugr
    };
    assert!(cases(9).is_well_formed());
    assert!(emit(&cases(9)).is_ok());
    assert!(!cases(5).is_well_formed());
    assert_eq!(emit(&cases(5)), malformed(5, Malformation::BadNode));
}

#[test]
fn unsupported_operations_are_reported() {
    let i = || int_type(3);
    let call = |op: ExtensionOp| {
        function_of(
            vec![i(), i()],
            vec![i()],
            vec![node(OpType::Extension(op), 1, vec![], vec![wire(2, 0), wire(2, 1)])],
            vec![wire(4, 0)],
        )
    };
    assert!(emit(&call(int_op("imul".to_string(), 3))).is_ok());
    let unsupported = |ext: &str, name: &str| {
        Err(EmitError::UnsupportedOp { extension: ext.to_string(), name: name.to_string() })
    };
    assert_eq!(emit(&call(int_op("idiv".to_string(), 3))), unsupported("arithmetic.int", "idiv"));
    let mut elsewhere = int_op("iadd".to_string(), 3);
    elsewhere.extension = "arithmetic.float".to_string();
    assert_eq!(emit(&call(elsewhere)), unsupported("arithmetic.float", "iadd"));
    // the registered lowering rejects arguments that do not fit the inputs
    let mut other_width = int_op("iadd".to_string(), 3);
    other_width.args = vec![TypeArg::BoundedNat(4)];
    assert_eq!(emit(&call(other_width)), unsupported("arithmetic.int", "iadd"));
    let mut no_width = int_op("iadd".to_string(), 3);
    no_width.args = vec![];
    assert_eq!(emit(&call(no_width)), unsupported("arithmetic.int", "iadd"));
    // without a registry nothing of an extension is supported
    let mut bare: EmitContext<IntLowering> = EmitContext::new(ExtensionOpRegistry::new());
    assert_eq!(
        bare.emit_module(&call(int_op("iadd".to_string(), 3))),
        Err(EmitError::UnsupportedType {
            extension: "arithmetic.int.types".to_string(),
            name: "int".to_string(),
        })
    );
}

#[test]
fn structural_verifier_rejects() {
    let i8t = || TargetType::Int(8);
    let function = |slots: Vec<TargetType>, blocks: Vec<Block>| Module {
        functions: vec![Function { name: "f".to_string(), params: vec![i8t()], ret: i8t(), slots, blocks }],
    };
    let ret = |v: Operand| Terminator::Ret(v);
    let block = |instrs: Vec<Instr>, term: Terminator| Block { instrs, term };
    assert!(function(vec![], vec![block(vec![], ret(Operand::Param(0)))]).verify());
    assert!(Module { functions: vec![] }.verify());
    // no entry block
    assert!(!function(vec![], vec![]).verify());
    // a parameter that the function does not have
    assert!(!function(vec![], vec![block(vec![], ret(Operand::Param(1)))]).verify());
    // a value of a later instruction, and of no instruction
    assert!(!function(vec![], vec![block(vec![], ret(Operand::Local(0)))]).verify());
    let load = |slot: usize, ty: TargetType| Instr::Load { slot, ty };
    assert!(function(vec![i8t()], vec![block(vec![load(0, i8t())], ret(Operand::Local(0)))]).verify());
    assert!(!function(vec![i8t()], vec![block(vec![load(1, i8t())], ret(Operand::Local(0)))]).verify());
    assert!(!function(vec![i8t()], vec![block(vec![load(0, TargetType::Int(16))], ret(Operand::Local(0)))])
        .verify());
    let add = |lhs: Operand, rhs: Operand| Instr::Binary { op: BinOp::Add, ty: i8t(), lhs, rhs };
    assert!(function(
        vec![],
        vec![block(vec![add(Operand::Param(0), Operand::Param(0))], ret(Operand::Local(0)))]
    )
    .verify());
    assert!(!function(
        vec![],
        vec![block(vec![add(Operand::Local(0), Operand::Param(0))], ret(Operand::Local(0)))]
    )
    .verify());
    // a literal that does not fit its width, and one of another width
    let lit = |bits: u32, value: u64| Operand::Const(Constant::Int { bits, value });
    assert!(function(vec![], vec![block(vec![], ret(lit(8, 255)))]).verify());
    assert!(!function(vec![], vec![block(vec![], ret(lit(8, 256)))]).verify());
    assert!(!function(vec![], vec![block(vec![], ret(lit(16, 1)))]).verify());
    // a store of another type than the slot's, a store yields no value
    let store = |value: Operand| Instr::Store { slot: 0, value };
    assert!(function(vec![i8t()], vec![block(vec![store(lit(8, 1))], ret(Operand::Param(0)))]).verify());
    assert!(!function(vec![i8t()], vec![block(vec![store(lit(16, 1))], ret(Operand::Param(0)))]).verify());
    assert!(!function(vec![i8t()], vec![block(vec![store(lit(8, 1))], ret(Operand::Local(0)))]).verify());
    // branches to blocks that the function does not have
    let entry = |term: Terminator| {
        function(vec![], vec![block(vec![], term), block(vec![], ret(Operand::Param(0)))])
    };
    assert!(entry(Terminator::Br(1)).verify());
    assert!(!entry(Terminator::Br(2)).verify());
    assert!(entry(Terminator::Switch { on: Operand::Param(0), targets: vec![1, 0, 1] }).verify());
    assert!(entry(Terminator::Switch { on: Operand::Param(0), targets: vec![] }).verify());
    assert!(!entry(Terminator::Switch { on: Operand::Param(0), targets: vec![1, 2] }).verify());
    assert!(entry(Terminator::Unreachable).verify());
    // a dispatch on what is no integer
    let unit = Operand::Const(Constant::Struct(vec![]));
    assert!(!entry(Terminator::Switch { on: unit, targets: vec![1] }).verify());
    // aggregates and tagged unions
    let pair = || TargetType::Struct(vec![i8t(), i8t()]);
    let make = |ty: TargetType, fields: Vec<Operand>| Instr::MakeStruct { ty, fields };
    let field = |index: usize| Instr::ExtractField { ty: i8t(), agg: Operand::Local(0), index };
    let both = || vec![Operand::Param(0), lit(8, 3)];
    assert!(function(vec![], vec![block(vec![make(pair(), both()), field(1)], ret(Operand::Local(1)))])
        .verify());
    assert!(!function(vec![], vec![block(vec![make(pair(), both()), field(2)], ret(Operand::Local(1)))])
        .verify());
    assert!(!function(vec![], vec![block(vec![make(pair(), vec![lit(8, 3)])], ret(Operand::Param(0)))])
        .verify());
    assert!(!function(vec![], vec![block(vec![make(i8t(), vec![])], ret(Operand::Param(0)))]).verify());
    let union = || TargetType::Union { tag_bits: 1, variants: vec![vec![], vec![i8t()]] };
    let variant = |tag: usize, fields: Vec<Operand>| Instr::MakeVariant { ty: union(), tag, fields };
    let read = |tag: usize, index: usize| Instr::VariantField {
        ty: i8t(),
        value: Operand::Local(0),
        tag,
        index,
    };
    let ok = |instrs: Vec<Instr>| function(vec![], vec![block(instrs, ret(Operand::Param(0)))]).verify();
    assert!(ok(vec![variant(1, vec![lit(8, 3)]), read(1, 0)]));
    assert!(ok(vec![variant(0, vec![])]));
    assert!(!ok(vec![variant(2, vec![])]));
    assert!(!ok(vec![variant(1, vec![])]));
    assert!(!ok(vec![variant(1, vec![lit(8, 3)]), read(0, 0)]));
    assert!(!ok(vec![variant(1, vec![lit(8, 3)]), read(1, 1)]));
    assert!(!ok(vec![variant(1, vec![lit(8, 3)]), read(2, 0)]));
    let tag = |bits: u32| Instr::GetTag { ty: TargetType::Int(bits), value: Operand::Local(0) };
    assert!(ok(vec![variant(0, vec![]), tag(1)]));
    assert!(!ok(vec![variant(0, vec![]), tag(2)]));
    assert!(!ok(vec![add(Operand::Param(0), Operand::Param(0)), tag(1)]));
}

#[test]
fn builder_reports_misuse() {
    let t = || Type::bool_t();
    let mut b = ModuleBuilder::new().define_function("f".to_string(), FunctionType::new(vec![t()], vec![t()]));
    assert_eq!(b.finish_sub_container(), Err(BuildError::WrongContainer));
    assert_eq!(b.case_builder(0), Err(BuildError::WrongContainer));
    assert_eq!(b.make_tuple(vec![Wire { node: 2, port: 1 }]), Err(BuildError::BadWire));
    assert_eq!(b.make_tuple(vec![Wire { node: 9, port: 0 }]), Err(BuildError::BadWire));
    let inputs = b.input_wires();
    assert_eq!(inputs, vec![Wire { node: 2, port: 0 }]);
    b.conditional_builder(vec![vec![], vec![]], inputs[0], vec![], vec![], vec![t()]).unwrap();
    assert_eq!(b.input_wires(), vec![]);
    assert_eq!(b.add_load_value(Value::tuple(vec![])), Err(BuildError::WrongContainer));
    assert_eq!(b.finish_with_outputs(vec![]), Err(BuildError::WrongContainer));
    assert_eq!(b.dfg_builder(FunctionType::new(vec![], vec![]), vec![]), Err(BuildError::WrongContainer));
    assert_eq!(b.case_builder(1), Err(BuildError::BadCase));
    assert_eq!(b.case_builder(2), Err(BuildError::BadCase));
    for i in 0..2 {
        b.case_builder(i).unwrap();
        let k = b.add_load_value(Value::unit_sum(i, 2).unwrap()).unwrap();
        assert_eq!(b.finish_with_outputs(vec![k]), Ok(vec![]));
    }
    assert_eq!(b.case_builder(2), Err(BuildError::BadCase));
    let cond = b.finish_sub_container().unwrap();
    assert_eq!(cond, vec![Wire { node: 4, port: 0 }]);
    let unfinished = DfgBuilder { hugr: Hugr::new(), open: vec![0] };
    assert_eq!(unfinished.finish_hugr(&ExtensionRegistry::new()), Err(BuildError::Unfinished));
    assert_eq!(b.finish_with_outputs(cond), Ok(vec![]));
    assert_eq!(b.finish_with_outputs(vec![]), Err(BuildError::Closed));
    assert_eq!(b.add_load_value(Value::tuple(vec![])), Err(BuildError::Closed));
    assert_eq!(b.case_builder(0), Err(BuildError::Closed));
    assert_eq!(b.finish_sub_container(), Err(BuildError::Closed));
    assert_eq!(b.input_wires(), vec![]);
    let hugr = b.finish_hugr(&ExtensionRegistry::new()).unwrap();
    assert_eq!(hugr.node_count(), 13);
    assert_eq!(hugr.children(0), &vec![1]);
    assert_eq!(hugr.children(4), &vec![5, 9]);
    assert_eq!(hugr.inputs(3), &vec![Wire { node: 4, port: 0 }]);
    assert!(emit(&hugr).unwrap().verify());
}

#[test]
fn builder_validates_what_was_built() {
    let t = || Type::bool_t();
    let build = |outs: Vec<Type>, wired: bool| {
        let mut b = ModuleBuilder::new().define_function("f".to_string(), FunctionType::new(vec![t()], outs));
        let inputs = b.input_wires();
        b.finish_with_outputs(if wired { inputs } else { vec![] }).unwrap();
        b.finish_hugr(&ExtensionRegistry::new()).map(|hugr| hugr.node_count())
    };
    assert_eq!(build(vec![t()], true), Ok(4));
    // an output port without its wire, a wire of another type, a type of no registered extension
    assert_eq!(build(vec![t()], false), Err(BuildError::Invalid));
    assert_eq!(build(vec![Type::new_unit_sum(3)], true), Err(BuildError::Invalid));
    assert_eq!(build(vec![Type::unit()], true), Err(BuildError::Invalid));
    let mut b = ModuleBuilder::new().define_function(
        "f".to_string(),
        FunctionType::new(vec![int_type(3)], vec![int_type(3)]),
    );
    let inputs = b.input_wires();
    b.finish_with_outputs(inputs).unwrap();
    assert_eq!(b.finish_hugr(&ExtensionRegistry::new()), Err(BuildError::Invalid));
}

#[test]
fn builder_knows_the_registered_extensions() {
    let build = |reg: &ExtensionRegistry, value: Value| {
        let mut b = ModuleBuilder::new().define_function("f".to_string(), FunctionType::new(vec![], vec![]));
        b.add_load_value(value).unwrap();
        b.finish_with_outputs(vec![]).unwrap();
        b.finish_hugr(reg).map(|hugr| hugr.node_count())
    };
    let mut reg = ExtensionRegistry::new();
    assert!(!reg.contains(&int_types_extension()));
    assert_eq!(build(&reg, Value::tuple(vec![])), Ok(5));
    assert_eq!(build(&reg, const_int_u(3, 1).unwrap()), Err(BuildError::UnknownExtension));
    assert_eq!(
        build(&reg, Value::tuple(vec![Value::tuple(vec![const_int_u(3, 1).unwrap()])])),
        Err(BuildError::UnknownExtension)
    );
    reg.register(int_types_extension());
    assert!(reg.contains(&int_types_extension()));
    assert!(!reg.contains(&int_ops_extension()));
    assert_eq!(reg.duplicate(), reg);
    assert_eq!(build(&reg, const_int_u(3, 1).unwrap()), Ok(5));
    let mut b = ModuleBuilder::new().define_function(
        "f".to_string(),
        FunctionType::new(vec![int_type(3), int_type(3)], vec![int_type(3)]),
    );
    let inputs = b.input_wires();
    let sum = b.add_dataflow_op(OpType::Extension(int_op("iadd".to_string(), 3)), inputs).unwrap();
    b.finish_with_outputs(sum).unwrap();
    assert_eq!(b.finish_hugr(&reg), Err(BuildError::UnknownExtension));
}

#[test]
fn typed_handles_check_the_kind() {
    let hugr = SimpleHugrConfig::new().finish(|mut builder: DfgBuilder| {
        builder.finish_with_outputs(vec![]).unwrap();
        builder
    });
    assert!(hugr.fat_root(OpTag::FuncDefn).is_none());
    assert!(FatNode::try_new(&hugr, 4, OpTag::Module).is_none());
    assert!(FatNode::try_new(&hugr, 1, OpTag::Module).is_none());
    let main = FatNode::try_new(&hugr, 1, OpTag::FuncDefn).unwrap();
    assert_eq!(main.node(), 1);
    assert_eq!(main.children(), &vec![2, 3]);
    assert_eq!(main.op().tag(), OpTag::FuncDefn);
    let root = hugr.fat_root(OpTag::Module).unwrap();
    assert_eq!(root.node(), 0);
    assert_eq!(root.hugr(), &hugr);
    assert_eq!(hugr.get_optype(0), &OpType::Module);
    let mut ctx: EmitContext<IntLowering> = EmitContext::new(ExtensionOpRegistry::new());
    let module = ctx.emit_module_at(&root).unwrap();
    assert_eq!(module.to_text(), "define {} @main() {\nb0:\n  %b0_0 = struct {} ()\n  ret %b0_0\n}\n");
}

#[test]
fn two_functions_in_sibling_order() {
    let t = || Type::bool_t();
    let mut hugr = function_of(vec![t()], vec![t()], vec![], vec![wire(2, 0)]);
    hugr.nodes[0].children = vec![1, 4];
    hugr.nodes.push(node(
        OpType::FuncDefn { name: "second".to_string(), signature: FunctionType::new(vec![], vec![]) },
        0,
        vec![5, 6],
        vec![],
    ));
    hugr.nodes.push(node(OpType::Input { types: vec![] }, 4, vec![], vec![]));
    hugr.nodes.push(node(OpType::Output { types: vec![] }, 4, vec![], vec![]));
    let module = emit(&hugr).unwrap();
    let names: Vec<&str> = module.functions.iter().map(|f| f.name.as_str()).collect();
    assert_eq!(names, vec!["main", "second"]);
    hugr.nodes[0].children = vec![4, 1];
    let module = emit(&hugr).unwrap();
    let names: Vec<&str> = module.functions.iter().map(|f| f.name.as_str()).collect();
    assert_eq!(names, vec!["second", "main"]);
}

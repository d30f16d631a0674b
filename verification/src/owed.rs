//! When success is owed: the steps of emission succeed on well-formed
//! input, and bind what they emit to slots of the right layouts.
use vstd::prelude::*;
use crate::layout::Layout;
use crate::layout::lemma_tag_width_is_least;
use crate::ir::InstrView;
use crate::ir::OperandView;
use crate::ir::ConstantView;
use crate::ir::constant_layout;
use crate::ir::constant_ok;
use crate::ir::constants_ok;
use crate::ir::constants_layout;
use crate::types::TypeView;
use crate::types::type_row_view;
use crate::types::type_rows_view;
use crate::types::all_rows_empty;
use crate::types::lemma_type_rows_view;
use crate::ops::OpType;
use crate::ops::Value;
use crate::ops::value_type;
use crate::ops::values_types;
use crate::ops::op_inputs;
use crate::ops::op_outputs;
use crate::hugr::Hugr;
use crate::hugr::Wire;
use crate::extension::ExtensionLowering;
use crate::extension::ExtensionOpRegistry;
use crate::extension::Registration;
use crate::convert::convert_type;
use crate::convert::convert_row;
use crate::convert::convert_rows_from;
use crate::convert::plain;
use crate::convert::row_plain;
use crate::convert::rows_plain;
use crate::convert::lemma_convert_row_total;
use crate::convert::lemma_convert_row_from;
use crate::convert::law_conversion_is_total;
use crate::constant::lower_value;
use crate::constant::lower_values_from;
use crate::schedule::is_done;
use crate::state::FuncState;
use crate::state::ValuesView;
use crate::wires::wire_slot;
use crate::wires::load_inputs_from;
use crate::wires::load_inputs;
use crate::wires::store_values_from;
use crate::wires::alloc_slots_from;
use crate::wires::bind_outputs;
use crate::leaf::unpack_from;
use crate::region::leaf_values;
use crate::region::leaf_node;
use crate::frame::extends;
use crate::frame::grows;
use crate::frame::lemma_alloc_grows;
use crate::frame::lemma_store_grows;
use crate::frame::lemma_load_grows;
use crate::frame::lemma_grows_trans;
use crate::wellformed::wire_ok;
use crate::wellformed::no_extensions;
use crate::wellformed::lemma_none_is_plain;
use crate::wellformed::wires_ok;
use crate::wellformed::value_plain;
use crate::wellformed::values_plain_from;
use crate::error::EmitErrorView;

verus! {

/// Whether `ls` are the layouts of the types `types`, one by one.
pub open spec fn holds_row<L: ExtensionLowering>(reg: ExtensionOpRegistry<L>, types: Seq<TypeView>, ls: Seq<Layout>) -> bool {
    &&& ls.len() == types.len()
    &&& forall|k: int|
        0 <= k < types.len() ==> convert_type(reg.types@, #[trigger] types[k]) == Ok::<Layout, EmitErrorView>(
            ls[k],
        )
}

/// Whether the slots from `base` on have the layouts of the types
/// `types`.
pub open spec fn slots_hold<L: ExtensionLowering>(reg: ExtensionOpRegistry<L>, st: FuncState, base: nat, types: Seq<TypeView>) -> bool {
    &&& base + types.len() <= st.slots.len()
    &&& forall|p: int|
        0 <= p < types.len() ==> convert_type(reg.types@, #[trigger] types[p]) == Ok::<Layout, EmitErrorView>(
            st.slots[base + p],
        )
}

/// Whether the outputs of the node `d` are bound to slots of their
/// layouts.
pub open spec fn bound_ok<L: ExtensionLowering>(reg: ExtensionOpRegistry<L>, h: Hugr, st: FuncState, d: usize) -> bool {
    &&& d < st.bound.len()
    &&& d < h.nodes@.len()
    &&& st.bound[d as int] matches Some(base)
    &&& slots_hold(reg, st, base, op_outputs(h.nodes[d as int].op))
}

/// Whether every node that is done is bound as `bound_ok` says.
pub open spec fn done_ok<L: ExtensionLowering>(
    reg: ExtensionOpRegistry<L>,
    h: Hugr,
    st: FuncState,
    input: usize,
    done: Seq<usize>,
) -> bool {
    forall|d: usize| is_done(input, done, d) ==> #[trigger] bound_ok(reg, h, st, d)
}

/// A row of plain types has layouts.
pub proof fn lemma_row_has_layouts<L: ExtensionLowering>(reg: ExtensionOpRegistry<L>, types: Seq<TypeView>)
    requires
        row_plain(types, 0),
    ensures
        convert_row(reg.types@, types) matches Ok(ls) && holds_row(reg, types, ls),
{
    lemma_convert_row_total(reg.types@, types, 0, Seq::empty());
    lemma_convert_row_from(reg.types@, types, 0, Seq::empty());
}

/// The types of a plain row are plain.
pub proof fn lemma_row_plain_each(types: Seq<TypeView>, i: nat, k: int)
    requires
        row_plain(types, i),
        i <= k < types.len(),
    ensures
        plain(types[k]),
    decreases types.len() - i,
{
    if i < k {
        lemma_row_plain_each(types, i + 1, k);
    }
}

/// A row whose types are plain is plain.
pub proof fn lemma_each_plain_row(types: Seq<TypeView>, i: nat)
    requires
        forall|k: int| i <= k < types.len() ==> plain(#[trigger] types[k]),
    ensures
        row_plain(types, i),
    decreases types.len() - i,
{
    if i < types.len() {
        assert(plain(types[i as int]));
        lemma_each_plain_row(types, i + 1);
    }
}

/// The rows of plain rows are plain.
pub proof fn lemma_rows_plain_each(rows: Seq<Seq<TypeView>>, i: nat, k: int)
    requires
        rows_plain(rows, i),
        i <= k < rows.len(),
    ensures
        row_plain(rows[k], 0),
    decreases rows.len() - i,
{
    if i < k {
        lemma_rows_plain_each(rows, i + 1, k);
    }
}

/// Rows that convert have one row of layouts for each row of types.
pub proof fn lemma_convert_rows_from<L: ExtensionLowering>(
    table: Seq<Registration<L>>,
    rows: Seq<Seq<TypeView>>,
    i: nat,
    acc: Seq<Seq<Layout>>,
)
    requires
        i <= rows.len(),
        acc.len() == i,
    ensures
        convert_rows_from(table, rows, i, acc) matches Ok(vs) ==> {
            &&& vs.len() == rows.len()
            &&& forall|k: int| 0 <= k < i ==> vs[k] == acc[k]
            &&& forall|k: int|
                i <= k < rows.len() ==> convert_row(table, rows[k]) == Ok::<Seq<Layout>, EmitErrorView>(
                    #[trigger] vs[k],
                )
        },
    decreases rows.len() - i,
{
    if i < rows.len() {
        match convert_row(table, rows[i as int]) {
            Err(e) => {},
            Ok(r) => {
                lemma_convert_rows_from(table, rows, i + 1, acc.push(r));
            },
        }
    }
}

/// Loading succeeds where every wire comes from a node that is bound to
/// slots of the layout of the wire's type, and yields values of the
/// layouts of the declared types.
pub proof fn lemma_load_owed<L: ExtensionLowering>(
    reg: ExtensionOpRegistry<L>,
    h: Hugr,
    st: FuncState,
    node: usize,
    input: usize,
    done: Seq<usize>,
    wires: Seq<Wire>,
    expect: Seq<TypeView>,
    i: nat,
    acc: ValuesView,
)
    requires
        wires_ok(no_extensions(), h, input, done, wires, expect),
        done_ok(reg, h, st, input, done),
        i <= wires.len(),
        acc.operands.len() == i,
        acc.layouts.len() == i,
        forall|k: int| 0 <= k < i ==> convert_type(reg.types@, #[trigger] expect[k]) == Ok::<Layout, EmitErrorView>(
            acc.layouts[k],
        ),
    ensures
        load_inputs_from(reg, h, st, node, wires, expect, i, acc) matches Ok((st2, vals)) && holds_row(
            reg,
            expect,
            vals.layouts,
        ) && vals.operands.len() == expect.len(),
    decreases wires.len() - i,
{
    lemma_none_is_plain();
    if i < wires.len() {
        let w = wires[i as int];
        assert(wire_ok(h, input, done, w, expect[i as int]));
        assert(bound_ok(reg, h, st, w.node));
        let base = st.bound[w.node as int]->Some_0;
        assert(op_outputs(h.nodes[w.node as int].op)[w.port as int] == expect[i as int]);
        let slot = (base + w.port) as nat;
        assert(wire_slot(h, st, w) == Some(slot));
        let l = st.slots[slot as int];
        assert(convert_type(reg.types@, expect[i as int]) == Ok::<Layout, EmitErrorView>(l));
        let instr = InstrView::Load { slot, ty: l };
        let st1 = st.push(instr);
        let acc1 = acc.push(OperandView::Local(st.cur.len()), l);
        assert(done_ok(reg, h, st1, input, done)) by {
            assert forall|d: usize| is_done(input, done, d) implies #[trigger] bound_ok(reg, h, st1, d) by {
                assert(bound_ok(reg, h, st, d));
            }
        }
        assert forall|k: int| 0 <= k < i + 1 implies convert_type(reg.types@, #[trigger] expect[k]) == Ok::<
            Layout,
            EmitErrorView,
        >(acc1.layouts[k]) by {
            if k < i {
                assert(acc1.layouts[k] == acc.layouts[k]);
            }
        }
        lemma_load_owed(reg, h, st1, node, input, done, wires, expect, i + 1, acc1);
    }
}

/// Allocating slots for plain types succeeds, and the new slots have the
/// layouts of the types.
pub proof fn lemma_alloc_owed<L: ExtensionLowering>(reg: ExtensionOpRegistry<L>, st: FuncState, types: Seq<TypeView>, i: nat)
    requires
        row_plain(types, i),
        i <= types.len(),
    ensures
        alloc_slots_from(reg, st, types, i) matches Ok(st2) && st2.slots.len() == st.slots.len() + types.len() - i
            && forall|k: int|
            i <= k < types.len() ==> convert_type(reg.types@, #[trigger] types[k]) == Ok::<Layout, EmitErrorView>(
                st2.slots[st.slots.len() + k - i],
            ),
    decreases types.len() - i,
{
    if i < types.len() {
        law_conversion_is_total(reg.types@, types[i as int]);
        let l = convert_type(reg.types@, types[i as int])->Ok_0;
        let st1 = st.with_slot(l);
        lemma_alloc_owed(reg, st1, types, i + 1);
        lemma_alloc_grows(reg, st1, types, i + 1);
        let st2 = alloc_slots_from(reg, st1, types, i + 1)->Ok_0;
        assert forall|k: int| i <= k < types.len() implies convert_type(reg.types@, #[trigger] types[k]) == Ok::<
            Layout,
            EmitErrorView,
        >(st2.slots[st.slots.len() + k - i]) by {
            if k == i {
                assert(st2.slots[st.slots.len() as int] == st1.slots[st.slots.len() as int]);
            } else {
                assert(st2.slots[st1.slots.len() + k - (i + 1)] == st2.slots[st.slots.len() + k - i]);
            }
        }
    }
}

/// Storing succeeds where the slots have the layouts of the values.
pub proof fn lemma_store_owed(st: FuncState, node: usize, base: nat, vals: ValuesView, i: nat)
    requires
        vals.operands.len() == vals.layouts.len(),
        base + vals.operands.len() <= st.slots.len(),
        forall|k: int| i <= k < vals.operands.len() ==> st.slots[base + k] == #[trigger] vals.layouts[k],
    ensures
        store_values_from(st, node, base, vals, i) is Ok,
    decreases vals.operands.len() - i,
{
    if i < vals.operands.len() {
        assert(st.slots[(base + i) as int] == vals.layouts[i as int]);
        lemma_store_owed(
            st.push(InstrView::Store { slot: base + i, value: vals.operands[i as int] }),
            node,
            base,
            vals,
            i + 1,
        );
    }
}

/// Binding values of the layouts of plain types succeeds, and binds the
/// node to slots of those layouts.
pub proof fn lemma_bind_owed<L: ExtensionLowering>(
    reg: ExtensionOpRegistry<L>,
    st: FuncState,
    node: usize,
    types: Seq<TypeView>,
    vals: ValuesView,
)
    requires
        node < st.bound.len(),
        row_plain(types, 0),
        holds_row(reg, types, vals.layouts),
        vals.operands.len() == types.len(),
    ensures
        bind_outputs(reg, st, node, types, vals) matches Ok(st2) && grows(st, st2) && st2.bound == st.bound.update(
            node as int,
            Some(st.slots.len()),
        ) && slots_hold(reg, st2, st.slots.len(), types),
{
    lemma_alloc_owed(reg, st, types, 0);
    lemma_alloc_grows(reg, st, types, 0);
    let st1 = alloc_slots_from(reg, st, types, 0)->Ok_0;
    let base = st.slots.len();
    assert forall|k: int| 0 <= k < vals.operands.len() implies st1.slots[base + k] == #[trigger] vals.layouts[k] by {
        assert(convert_type(reg.types@, types[k]) == Ok::<Layout, EmitErrorView>(st1.slots[base + k - 0]));
    }
    lemma_store_owed(st1, node, base, vals, 0);
    lemma_store_grows(st1, node, base, vals, 0);
    let st2 = store_values_from(st1, node, base, vals, 0)->Ok_0;
    lemma_grows_trans(st, st1, st2);
    let st3 = st2.bind(node as int, base);
    assert(grows(st2, st3));
    lemma_grows_trans(st, st2, st3);
    assert forall|p: int| 0 <= p < types.len() implies convert_type(reg.types@, #[trigger] types[p]) == Ok::<
        Layout,
        EmitErrorView,
    >(st3.slots[base + p]) by {
        assert(convert_type(reg.types@, types[p]) == Ok::<Layout, EmitErrorView>(st1.slots[base + p - 0]));
    }
}

/// A node that was bound well stays so where the state only gains and
/// the node is not bound again.
pub proof fn lemma_bound_ok_kept<L: ExtensionLowering>(
    reg: ExtensionOpRegistry<L>,
    h: Hugr,
    st: FuncState,
    st2: FuncState,
    d: usize,
)
    requires
        bound_ok(reg, h, st, d),
        extends(st, st2),
        st2.bound[d as int] == st.bound[d as int],
    ensures
        bound_ok(reg, h, st2, d),
{
    let base = st.bound[d as int]->Some_0;
    let types = op_outputs(h.nodes[d as int].op);
    assert forall|p: int| 0 <= p < types.len() implies convert_type(reg.types@, #[trigger] types[p]) == Ok::<
        Layout,
        EmitErrorView,
    >(st2.slots[base + p]) by {
        assert(st2.slots[base + p] == st.slots[base + p]);
    }
}

/// The projections of unpack-tuple have the layouts of the fields.
pub proof fn lemma_unpack_layouts(st: FuncState, agg: OperandView, fields: Seq<Layout>, i: nat, acc: ValuesView)
    requires
        i <= fields.len(),
        acc.operands.len() == i,
        acc.layouts.len() == i,
        forall|k: int| 0 <= k < i ==> #[trigger] acc.layouts[k] == fields[k],
    ensures
        unpack_from(st, agg, fields, i, acc) matches Ok((st2, vals)) && vals.layouts == fields && vals.operands.len()
            == fields.len(),
    decreases fields.len() - i,
{
    if i < fields.len() {
        let acc1 = acc.push(OperandView::Local(st.cur.len()), fields[i as int]);
        assert forall|k: int| 0 <= k < i + 1 implies #[trigger] acc1.layouts[k] == fields[k] by {
            if k < i {
                assert(acc1.layouts[k] == acc.layouts[k]);
            }
        }
        lemma_unpack_layouts(
            st.push(InstrView::ExtractField { ty: fields[i as int], agg, index: i }),
            agg,
            fields,
            i + 1,
            acc1,
        );
    } else {
        assert(acc.layouts =~= fields);
    }
}

/// The types of plain literals are plain, and the literals lower to
/// well-formed literals of the layouts of their types.
pub proof fn lemma_plain_values<L: ExtensionLowering>(
    reg: ExtensionOpRegistry<L>,
    vs: Vec<Value>,
    node: usize,
    i: nat,
    acc: Seq<ConstantView>,
)
    requires
        values_plain_from(vs, i),
        i <= vs.len(),
        acc.len() == i,
        constants_ok(acc),
        forall|k: int| 0 <= k < i ==> plain(value_type(vs[k])) && convert_type(reg.types@, value_type(vs[k]))
            == Ok::<Layout, EmitErrorView>(constant_layout(#[trigger] acc[k])),
    ensures
        lower_values_from(reg.constants@, vs, node, i, acc) matches Ok(cs) && constants_ok(cs) && cs.len()
            == vs.len() && forall|k: int|
            0 <= k < vs.len() ==> plain(value_type(vs[k])) && convert_type(reg.types@, value_type(vs[k]))
                == Ok::<Layout, EmitErrorView>(constant_layout(#[trigger] cs[k])),
    decreases vs, vs.len() - i,
{
    if i < vs.len() {
        lemma_plain_value(reg, vs[i as int], node);
        let c = lower_value(reg.constants@, vs[i as int], node)->Ok_0;
        let acc1 = acc.push(c);
        assert forall|k: int| 0 <= k < acc1.len() implies constant_ok(#[trigger] acc1[k]) by {
            if k < i {
                assert(acc1[k] == acc[k]);
                assert(constant_ok(acc[k]));
            }
        }
        assert forall|k: int| 0 <= k < i + 1 implies plain(value_type(vs[k])) && convert_type(
            reg.types@,
            value_type(vs[k]),
        ) == Ok::<Layout, EmitErrorView>(constant_layout(#[trigger] acc1[k])) by {
            if k < i {
                assert(acc1[k] == acc[k]);
            }
        }
        lemma_plain_values(reg, vs, node, i + 1, acc1);
    }
}

/// The type of a plain literal is plain, and the literal lowers to a
/// well-formed literal of the layout of its type.
pub proof fn lemma_plain_value<L: ExtensionLowering>(reg: ExtensionOpRegistry<L>, v: Value, node: usize)
    requires
        value_plain(v),
    ensures
        plain(value_type(v)),
        lower_value(reg.constants@, v, node) matches Ok(c) && constant_ok(c) && convert_type(
            reg.types@,
            value_type(v),
        ) == Ok::<Layout, EmitErrorView>(constant_layout(c)),
    decreases v, 0nat,
{
    match v {
        Value::UnitSum { tag, arity } => {
            let rows = Seq::new(arity as nat, |i: int| Seq::<TypeView>::empty());
            assert(all_rows_empty(rows));
            lemma_unit_rows_plain(rows, 0);
            lemma_tag_width_is_least(arity as nat);
        },
        Value::Tuple(vs) => {
            lemma_plain_values(reg, vs, node, 0, Seq::empty());
            let cs = lower_values_from(reg.constants@, vs, node, 0, Seq::empty())->Ok_0;
            let types = values_types(vs);
            assert forall|k: int| 0 <= k < types.len() implies plain(#[trigger] types[k]) by {
                assert(convert_type(reg.types@, value_type(vs[k])) == Ok::<Layout, EmitErrorView>(
                    constant_layout(cs[k]),
                ));
                assert(plain(value_type(vs[k])));
            }
            lemma_each_plain_row(types, 0);
            lemma_row_has_layouts(reg, types);
            let ls = convert_row(reg.types@, types)->Ok_0;
            assert(ls =~= constants_layout(cs)) by {
                assert forall|k: int| 0 <= k < ls.len() implies ls[k] == constants_layout(cs)[k] by {
                    assert(convert_type(reg.types@, types[k]) == Ok::<Layout, EmitErrorView>(ls[k]));
                    assert(types[k] == value_type(vs[k]));
                    assert(convert_type(reg.types@, value_type(vs[k])) == Ok::<Layout, EmitErrorView>(
                        constant_layout(cs[k]),
                    ));
                }
            }
        },
        Value::Extension(_) => {},
    }
}

/// Rows without fields are plain.
pub proof fn lemma_unit_rows_plain(rows: Seq<Seq<TypeView>>, i: nat)
    requires
        all_rows_empty(rows),
    ensures
        rows_plain(rows, i),
    decreases rows.len() - i,
{
    if i < rows.len() {
        assert(rows[i as int].len() == 0);
        assert(row_plain(rows[i as int], 0));
        lemma_unit_rows_plain(rows, i + 1);
    }
}

/// A well-formed node without children, fed with values of the layouts
/// of its inputs, lowers to values of the layouts of its outputs.
pub proof fn lemma_leaf_values_owed<L: ExtensionLowering>(
    reg: ExtensionOpRegistry<L>,
    st: FuncState,
    node: usize,
    op: OpType,
    vals: ValuesView,
)
    requires
        op is MakeTuple || op is UnpackTuple || op is Tag || op is LoadConstant,
        op matches OpType::Tag { tag, variants } ==> tag < variants@.len(),
        op matches OpType::LoadConstant { value } ==> value_plain(value),
        row_plain(op_outputs(op), 0),
        row_plain(op_inputs(op), 0),
        holds_row(reg, op_inputs(op), vals.layouts),
        vals.operands.len() == vals.layouts.len(),
    ensures
        leaf_values(reg, st, node, op, vals) matches Ok((st2, outs)) && holds_row(reg, op_outputs(op), outs.layouts)
            && outs.operands.len() == outs.layouts.len(),
{
    match op {
        OpType::MakeTuple { tys } => {
            let types = type_row_view(tys);
            lemma_row_has_layouts(reg, types);
            let ls = convert_row(reg.types@, types)->Ok_0;
            assert(ls =~= vals.layouts) by {
                assert forall|k: int| 0 <= k < ls.len() implies ls[k] == vals.layouts[k] by {
                    assert(convert_type(reg.types@, types[k]) == Ok::<Layout, EmitErrorView>(ls[k]));
                }
            }
            assert(op_outputs(op)[0] == TypeView::Tuple(types));
        },
        OpType::UnpackTuple { tys } => {
            let types = type_row_view(tys);
            assert(op_inputs(op)[0] == TypeView::Tuple(types));
            assert(plain(op_inputs(op)[0]));
            lemma_row_has_layouts(reg, types);
            let ls = convert_row(reg.types@, types)->Ok_0;
            assert(convert_type(reg.types@, op_inputs(op)[0]) == Ok::<Layout, EmitErrorView>(vals.layouts[0]));
            lemma_unpack_layouts(st, vals.operands[0], ls, 0, ValuesView::empty());
        },
        OpType::Tag { tag, variants } => {
            let rows = type_rows_view(variants);
            lemma_type_rows_view(variants);
            assert(op_outputs(op)[0] == TypeView::Sum(rows));
            assert(plain(op_outputs(op)[0]));
            law_conversion_is_total(reg.types@, TypeView::Sum(rows));
            if !all_rows_empty(rows) {
                lemma_convert_rows_from(reg.types@, rows, 0, Seq::empty());
                let vs = convert_rows_from(reg.types@, rows, 0, Seq::empty())->Ok_0;
                assert(convert_row(reg.types@, rows[tag as int]) == Ok::<Seq<Layout>, EmitErrorView>(vs[tag as int]));
                lemma_rows_plain_each(rows, 0, tag as int);
                lemma_row_has_layouts(reg, rows[tag as int]);
                assert(vs[tag as int] =~= vals.layouts) by {
                    assert forall|k: int| 0 <= k < vals.layouts.len() implies vs[tag as int][k] == vals.layouts[k] by {
                        assert(convert_type(reg.types@, rows[tag as int][k]) == Ok::<Layout, EmitErrorView>(
                            vs[tag as int][k],
                        ));
                        assert(op_inputs(op)[k] == rows[tag as int][k]);
                    }
                }
            }
        },
        OpType::LoadConstant { value } => {
            lemma_plain_value(reg, value, node);
        },
        _ => {},
    }
}

/// A well-formed node without children is emitted with success, and is
/// then bound to slots of the layouts of its outputs.
pub proof fn lemma_leaf_node_owed<L: ExtensionLowering>(
    reg: ExtensionOpRegistry<L>,
    h: Hugr,
    st: FuncState,
    node: usize,
    input: usize,
    done: Seq<usize>,
)
    requires
        node < h.nodes@.len(),
        node < st.bound.len(),
        h.nodes[node as int].op is MakeTuple || h.nodes[node as int].op is UnpackTuple
            || h.nodes[node as int].op is Tag || h.nodes[node as int].op is LoadConstant,
        h.nodes[node as int].op matches OpType::Tag { tag, variants } ==> tag < variants@.len(),
        h.nodes[node as int].op matches OpType::LoadConstant { value } ==> value_plain(value),
        row_plain(op_outputs(h.nodes[node as int].op), 0),
        wires_ok(no_extensions(), h, input, done, h.nodes[node as int].inputs@, op_inputs(h.nodes[node as int].op)),
        done_ok(reg, h, st, input, done),
    ensures
        leaf_node(reg, h, st, node) matches Ok(st2) && grows(st, st2) && bound_ok(reg, h, st2, node) && st2.bound
            == st.bound.update(node as int, st2.bound[node as int]),
{
    lemma_none_is_plain();
    let op = h.nodes[node as int].op;
    lemma_load_owed(reg, h, st, node, input, done, h.nodes[node as int].inputs@, op_inputs(op), 0, ValuesView::empty());
    lemma_load_grows(reg, h, st, node, h.nodes[node as int].inputs@, op_inputs(op), 0, ValuesView::empty());
    let (st1, vals) = load_inputs(reg, h, st, node, h.nodes[node as int].inputs@, op_inputs(op))->Ok_0;
    lemma_leaf_values_owed(reg, st1, node, op, vals);
    crate::frame::lemma_leaf_values_grows(reg, st1, node, op, vals);
    let (st2, outs) = leaf_values(reg, st1, node, op, vals)->Ok_0;
    lemma_bind_owed(reg, st2, node, op_outputs(op), outs);
    let st3 = bind_outputs(reg, st2, node, op_outputs(op), outs)->Ok_0;
    lemma_grows_trans(st, st1, st2);
    lemma_grows_trans(st, st2, st3);
    assert(st3.bound =~= st.bound.update(node as int, st3.bound[node as int]));
}

} // verus!

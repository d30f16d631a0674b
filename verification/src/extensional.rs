//! Emission reads a graph through its model alone: two graphs with one
//! model give the same code.
use vstd::prelude::*;
use crate::types::lemma_type_rows_view;
use crate::types::type_row_view;
use crate::types::type_rows_view;
use crate::ops::Value;
use crate::ops::OpType;
use crate::ops::value_type;
use crate::ops::values_types;
use crate::ops::op_inputs;
use crate::ops::op_outputs;
use crate::hugr::Hugr;
use crate::hugr::Wire;
use crate::model::values_view;
use crate::extension::ExtensionLowering;
use crate::extension::ExtensionOpRegistry;
use crate::extension::Registration;
use crate::constant::lower_value;
use crate::constant::lower_values_from;
use crate::schedule::first_ready;
use crate::schedule::schedule_from;
use crate::state::FuncState;
use crate::state::ValuesView;
use crate::wires::wire_slot;
use crate::wires::load_inputs_from;
use crate::region::leaf_values;
use crate::region::case_types;
use crate::region::yields_of;
use crate::region::yields_count;
use crate::region::stray_from;
use crate::convert::convert_type;
use crate::ir::InstrView;
use crate::ir::OperandView;
use crate::ir::TerminatorView;
use crate::ir::FunctionView;
use crate::types::TypeView;
use crate::convert::convert_row;
use crate::wires::load_inputs;
use crate::wires::bind_outputs;
use crate::wires::alloc_slots_from;
use crate::schedule::schedule;
use crate::region::region_boundary;
use crate::region::region_body;
use crate::region::boundary_ok;
use crate::region::leaf_node;
use crate::region::discriminant;
use crate::region::case_inputs;
use crate::region::nodes_code_from;
use crate::region::region_code;
use crate::region::case_code;
use crate::region::cases_code_from;
use crate::region::conditional_code;
use crate::region::load_slots_from;
use crate::region::loop_entry;
use crate::region::loop_round;
use crate::region::loop_code;
use crate::region::node_code;
use crate::emit::param_values;
use crate::emit::function_code;
use crate::emit::functions_code_from;
use crate::emit::module_draft;
use crate::emit::module_code;

verus! {

/// Literals with one model have one type.
pub proof fn lemma_value_type_alike(x: Value, y: Value)
    requires
        x@ == y@,
    ensures
        value_type(x) == value_type(y),
    decreases x, 0int,
{
    match (x, y) {
        (Value::Tuple(xs), Value::Tuple(ys)) => {
            lemma_values_types_alike(xs, ys);
        },
        _ => {},
    }
}

pub proof fn lemma_values_types_alike(xs: Vec<Value>, ys: Vec<Value>)
    requires
        values_view(xs) == values_view(ys),
    ensures
        values_types(xs) == values_types(ys),
    decreases xs, 1int,
{
    assert(values_view(xs).len() == xs.len());
    assert(values_view(ys).len() == ys.len());
    assert forall|i: int| 0 <= i < xs.len() implies value_type(#[trigger] xs[i]) == value_type(ys[i]) by {
        assert(values_view(xs)[i] == xs[i]@);
        assert(values_view(ys)[i] == ys[i]@);
        lemma_value_type_alike(xs[i], ys[i]);
    }
    assert(values_types(xs) =~= values_types(ys));
}

/// Literals with one model have one target literal.
pub proof fn lemma_lower_value_alike<L: ExtensionLowering>(table: Seq<Registration<L>>, x: Value, y: Value, node: usize)
    requires
        x@ == y@,
    ensures
        lower_value(table, x, node) == lower_value(table, y, node),
    decreases x, 0int,
{
    match (x, y) {
        (Value::Tuple(xs), Value::Tuple(ys)) => {
            lemma_lower_values_alike(table, xs, ys, node, 0, Seq::empty());
        },
        _ => {},
    }
}

pub proof fn lemma_lower_values_alike<L: ExtensionLowering>(
    table: Seq<Registration<L>>,
    xs: Vec<Value>,
    ys: Vec<Value>,
    node: usize,
    i: nat,
    acc: Seq<crate::ir::ConstantView>,
)
    requires
        values_view(xs) == values_view(ys),
    ensures
        lower_values_from(table, xs, node, i, acc) == lower_values_from(table, ys, node, i, acc),
    decreases xs, xs.len() - i,
{
    assert(values_view(xs).len() == xs.len());
    assert(values_view(ys).len() == ys.len());
    if i < xs.len() {
        assert(values_view(xs)[i as int] == xs[i as int]@);
        assert(values_view(ys)[i as int] == ys[i as int]@);
        lemma_lower_value_alike(table, xs[i as int], ys[i as int], node);
        match lower_value(table, xs[i as int], node) {
            Err(e) => {},
            Ok(c) => {
                lemma_lower_values_alike(table, xs, ys, node, i + 1, acc.push(c));
            },
        }
    }
}

/// Operations with one model declare the same types and are lowered to
/// the same code.
pub proof fn lemma_op_alike(x: OpType, y: OpType)
    requires
        x@ == y@,
    ensures
        op_inputs(x) == op_inputs(y),
        op_outputs(x) == op_outputs(y),
        yields_of(x) == yields_of(y),
        yields_count(x) == yields_count(y),
        forall|i: nat| case_types(x, i) == case_types(y, i),
{
    match (x, y) {
        (OpType::LoadConstant { value: v }, OpType::LoadConstant { value: w }) => {
            lemma_value_type_alike(v, w);
        },
        (OpType::Tag { tag, variants: v }, OpType::Tag { tag: t, variants: w }) => {
            lemma_type_rows_view(v);
            lemma_type_rows_view(w);
            if tag < v.len() {
                assert(type_rows_view(v)[tag as int] == type_row_view(v[tag as int]));
                assert(type_rows_view(w)[tag as int] == type_row_view(w[tag as int]));
            }
        },
        (
            OpType::Conditional { sum_rows: v, other_inputs, outputs },
            OpType::Conditional { sum_rows: w, other_inputs: o, outputs: p },
        ) => {
            lemma_type_rows_view(v);
            lemma_type_rows_view(w);
            assert forall|i: nat| case_types(x, i) == case_types(y, i) by {
                if i < v.len() {
                    assert(type_rows_view(v)[i as int] == type_row_view(v[i as int]));
                    assert(type_rows_view(w)[i as int] == type_row_view(w[i as int]));
                }
            }
        },
        _ => {},
    }
}

pub proof fn lemma_leaf_values_alike<L: ExtensionLowering>(
    reg: ExtensionOpRegistry<L>,
    st: FuncState,
    node: usize,
    x: OpType,
    y: OpType,
    vals: ValuesView,
)
    requires
        x@ == y@,
    ensures
        leaf_values(reg, st, node, x, vals) == leaf_values(reg, st, node, y, vals),
{
    match (x, y) {
        (OpType::LoadConstant { value: v }, OpType::LoadConstant { value: w }) => {
            lemma_lower_value_alike(reg.constants@, v, w, node);
        },
        _ => {},
    }
}

/// Graphs with one model have as many nodes, and each node of the one has
/// the model of the same node of the other.
pub proof fn lemma_nodes_alike(a: Hugr, b: Hugr)
    requires
        a@ == b@,
    ensures
        a.nodes@.len() == b.nodes@.len(),
        forall|c: int| 0 <= c < a.nodes@.len() ==> same_node(a, b, c),
{
    assert(a@.len() == a.nodes@.len());
    assert(b@.len() == b.nodes@.len());
    assert forall|c: int| 0 <= c < a.nodes@.len() implies same_node(a, b, c) by {
        assert(a@[c] == a.nodes@[c]@);
        assert(b@[c] == b.nodes@[c]@);
        lemma_op_alike(a.nodes@[c].op, b.nodes@[c].op);
    }
}

/// Whether node `c` is the same in both graphs.
pub open spec fn same_node(a: Hugr, b: Hugr, c: int) -> bool {
    let x = a.nodes@[c];
    let y = b.nodes@[c];
    &&& x.op@ == y.op@
    &&& x.parent == y.parent
    &&& x.children@ == y.children@
    &&& x.inputs@ == y.inputs@
    &&& op_inputs(x.op) == op_inputs(y.op)
    &&& op_outputs(x.op) == op_outputs(y.op)
    &&& yields_of(x.op) == yields_of(y.op)
    &&& yields_count(x.op) == yields_count(y.op)
    &&& forall|i: nat| case_types(x.op, i) == case_types(y.op, i)
}

pub proof fn lemma_wire_slot_alike(a: Hugr, b: Hugr, st: FuncState, w: Wire)
    requires
        a@ == b@,
    ensures
        wire_slot(a, st, w) == wire_slot(b, st, w),
{
    lemma_nodes_alike(a, b);
    if w.node < a.nodes@.len() {
        assert(same_node(a, b, w.node as int));
    }
}

pub proof fn lemma_load_alike<L: ExtensionLowering>(
    reg: ExtensionOpRegistry<L>,
    a: Hugr,
    b: Hugr,
    st: FuncState,
    node: usize,
    wires: Seq<Wire>,
    expect: Seq<TypeView>,
    i: nat,
    acc: ValuesView,
)
    requires
        a@ == b@,
    ensures
        load_inputs_from(reg, a, st, node, wires, expect, i, acc) == load_inputs_from(
            reg,
            b,
            st,
            node,
            wires,
            expect,
            i,
            acc,
        ),
    decreases wires.len() - i,
{
    if i < wires.len() {
        lemma_nodes_alike(a, b);
        lemma_wire_slot_alike(a, b, st, wires[i as int]);
        match wire_slot(a, st, wires[i as int]) {
            None => {},
            Some(slot) => {
                assert(same_node(a, b, wires[i as int].node as int));
                match convert_type(reg.types@, expect[i as int]) {
                    Err(e) => {},
                    Ok(l) => {
                        lemma_load_alike(
                            reg,
                            a,
                            b,
                            st.push(InstrView::Load { slot, ty: l }),
                            node,
                            wires,
                            expect,
                            i + 1,
                            acc.push(OperandView::Local(st.cur.len()), l),
                        );
                    },
                }
            },
        }
    }
}

pub proof fn lemma_first_ready_alike(a: Hugr, b: Hugr, input: usize, body: Seq<usize>, chosen: Seq<usize>, from: nat)
    requires
        a@ == b@,
    ensures
        first_ready(a, input, body, chosen, from) == first_ready(b, input, body, chosen, from),
    decreases body.len() - from,
{
    lemma_nodes_alike(a, b);
    if from < body.len() {
        if body[from as int] < a.nodes@.len() {
            assert(same_node(a, b, body[from as int] as int));
        }
        lemma_first_ready_alike(a, b, input, body, chosen, from + 1);
    }
}

pub proof fn lemma_schedule_alike(a: Hugr, b: Hugr, input: usize, body: Seq<usize>, chosen: Seq<usize>)
    requires
        a@ == b@,
    ensures
        schedule_from(a, input, body, chosen) == schedule_from(b, input, body, chosen),
    decreases body.len() - chosen.len(),
{
    if chosen.len() < body.len() {
        lemma_first_ready_alike(a, b, input, body, chosen, 0);
        match first_ready(a, input, body, chosen, 0) {
            None => {},
            Some(p) => {
                lemma_schedule_alike(a, b, input, body, chosen.push(body[p as int]));
            },
        }
    }
}

pub proof fn lemma_stray_alike(a: Hugr, b: Hugr, input: usize, body: Seq<usize>, k: nat)
    requires
        a@ == b@,
    ensures
        stray_from(a, input, body, k) == stray_from(b, input, body, k),
    decreases body.len() - k,
{
    lemma_nodes_alike(a, b);
    if k < body.len() {
        if body[k as int] < a.nodes@.len() {
            assert(same_node(a, b, body[k as int] as int));
        }
        lemma_stray_alike(a, b, input, body, k + 1);
    }
}

pub proof fn lemma_inputs_alike<L: ExtensionLowering>(
    reg: ExtensionOpRegistry<L>,
    a: Hugr,
    b: Hugr,
    st: FuncState,
    node: usize,
    wires: Seq<Wire>,
    expect: Seq<TypeView>,
)
    requires
        a@ == b@,
    ensures
        load_inputs(reg, a, st, node, wires, expect) == load_inputs(reg, b, st, node, wires, expect),
{
    lemma_load_alike(reg, a, b, st, node, wires, expect, 0, ValuesView::empty());
}

pub proof fn lemma_boundary_alike(a: Hugr, b: Hugr, parent: usize, ins: Seq<TypeView>, outs: Seq<TypeView>)
    requires
        a@ == b@,
    ensures
        region_boundary(a, parent) == region_boundary(b, parent),
        boundary_ok(a, parent, ins, outs) == boundary_ok(b, parent, ins, outs),
        parent < a.nodes@.len() ==> region_body(a, parent) == region_body(b, parent),
        region_boundary(a, parent) matches Ok((inp, out)) ==> same_node(a, b, inp as int) && same_node(
            a,
            b,
            out as int,
        ),
{
    lemma_nodes_alike(a, b);
    if parent < a.nodes@.len() {
        assert(same_node(a, b, parent as int));
        let ch = a.nodes[parent as int].children@;
        if ch.len() >= 2 && parent < ch[0] < a.nodes@.len() && parent < ch[1] < a.nodes@.len() {
            assert(same_node(a, b, ch[0] as int));
            assert(same_node(a, b, ch[1] as int));
        }
    }
}

pub proof fn lemma_leaf_node_alike<L: ExtensionLowering>(
    reg: ExtensionOpRegistry<L>,
    a: Hugr,
    b: Hugr,
    st: FuncState,
    node: usize,
)
    requires
        a@ == b@,
        node < a.nodes@.len(),
    ensures
        leaf_node(reg, a, st, node) == leaf_node(reg, b, st, node),
{
    lemma_nodes_alike(a, b);
    assert(same_node(a, b, node as int));
    let op = a.nodes[node as int].op;
    lemma_inputs_alike(reg, a, b, st, node, a.nodes[node as int].inputs@, op_inputs(op));
    match load_inputs(reg, a, st, node, a.nodes[node as int].inputs@, op_inputs(op)) {
        Err(e) => {},
        Ok((st1, vals)) => {
            lemma_leaf_values_alike(reg, st1, node, op, b.nodes[node as int].op, vals);
        },
    }
}

pub proof fn lemma_nodes_code_alike<L: ExtensionLowering>(
    reg: ExtensionOpRegistry<L>,
    a: Hugr,
    b: Hugr,
    st: FuncState,
    parent: usize,
    order: Seq<usize>,
    k: nat,
)
    requires
        a@ == b@,
    ensures
        nodes_code_from(reg, a, st, parent, order, k) == nodes_code_from(reg, b, st, parent, order, k),
    decreases a.nodes@.len() - parent, 2nat, order.len() - k,
{
    lemma_nodes_alike(a, b);
    if k < order.len() {
        let c = order[k as int];
        if parent < c < a.nodes@.len() {
            assert(same_node(a, b, c as int));
            lemma_node_alike(reg, a, b, st, c);
            match node_code(reg, a, st, c) {
                Err(e) => {},
                Ok(st1) => {
                    lemma_nodes_code_alike(reg, a, b, st1, parent, order, k + 1);
                },
            }
        }
    }
}

pub proof fn lemma_region_alike<L: ExtensionLowering>(
    reg: ExtensionOpRegistry<L>,
    a: Hugr,
    b: Hugr,
    st: FuncState,
    parent: usize,
    inputs: ValuesView,
)
    requires
        a@ == b@,
    ensures
        region_code(reg, a, st, parent, inputs) == region_code(reg, b, st, parent, inputs),
    decreases a.nodes@.len() - parent, 3nat, 0nat,
{
    lemma_nodes_alike(a, b);
    lemma_boundary_alike(a, b, parent, Seq::empty(), Seq::empty());
    match region_boundary(a, parent) {
        Err(e) => {},
        Ok((inp, out)) => {
            let body = region_body(a, parent);
            lemma_schedule_alike(a, b, inp, body, Seq::empty());
            lemma_stray_alike(a, b, inp, body, 0);
            match bind_outputs(reg, st, inp, op_outputs(a.nodes[inp as int].op), inputs) {
                Err(e) => {},
                Ok(st1) => match schedule(a, inp, body) {
                    None => {},
                    Some(order) => {
                        lemma_nodes_code_alike(reg, a, b, st1, parent, order, 0);
                        match nodes_code_from(reg, a, st1, parent, order, 0) {
                            Err(e) => {},
                            Ok(st2) => {
                                lemma_inputs_alike(
                                    reg,
                                    a,
                                    b,
                                    st2,
                                    out,
                                    a.nodes[out as int].inputs@,
                                    op_inputs(a.nodes[out as int].op),
                                );
                            },
                        }
                    },
                },
            }
        },
    }
}

pub proof fn lemma_case_alike<L: ExtensionLowering>(
    reg: ExtensionOpRegistry<L>,
    a: Hugr,
    b: Hugr,
    st: FuncState,
    c: usize,
    base: nat,
    i: nat,
)
    requires
        a@ == b@,
        c < a.nodes@.len(),
    ensures
        case_code(reg, a, st, c, base, i) == case_code(reg, b, st, c, base, i),
    decreases a.nodes@.len() - c, 4nat, 0nat,
{
    lemma_nodes_alike(a, b);
    assert(same_node(a, b, c as int));
    let children = a.nodes[c as int].children@;
    let op = a.nodes[c as int].op;
    if i < children.len() {
        let child = children[i as int];
        if c < child < a.nodes@.len() {
            assert(same_node(a, b, child as int));
            lemma_boundary_alike(a, b, child, case_types(op, i), op_outputs(op));
            lemma_inputs_alike(reg, a, b, st, c, a.nodes[c as int].inputs@, op_inputs(op));
            match load_inputs(reg, a, st, c, a.nodes[c as int].inputs@, op_inputs(op)) {
                Err(e) => {},
                Ok((st1, vals)) => match case_inputs(st1, c, i, vals) {
                    Err(e) => {},
                    Ok((st2, ins)) => {
                        lemma_region_alike(reg, a, b, st2, child, ins);
                    },
                },
            }
        }
    }
}

pub proof fn lemma_cases_alike<L: ExtensionLowering>(
    reg: ExtensionOpRegistry<L>,
    a: Hugr,
    b: Hugr,
    st: FuncState,
    c: usize,
    base: nat,
    i: nat,
    targets: Seq<nat>,
    ends: Seq<nat>,
)
    requires
        a@ == b@,
        c < a.nodes@.len(),
    ensures
        cases_code_from(reg, a, st, c, base, i, targets, ends) == cases_code_from(
            reg,
            b,
            st,
            c,
            base,
            i,
            targets,
            ends,
        ),
    decreases a.nodes@.len() - c, 4nat, 1 + a.nodes[c as int].children@.len() - i,
{
    lemma_nodes_alike(a, b);
    assert(same_node(a, b, c as int));
    if i < a.nodes[c as int].children@.len() {
        lemma_case_alike(reg, a, b, st, c, base, i);
        match case_code(reg, a, st, c, base, i) {
            Err(e) => {},
            Ok(done) => {
                lemma_cases_alike(
                    reg,
                    a,
                    b,
                    done.st,
                    c,
                    base,
                    i + 1,
                    targets.push(done.entry),
                    ends.push(done.end),
                );
            },
        }
    }
}

pub proof fn lemma_conditional_alike<L: ExtensionLowering>(
    reg: ExtensionOpRegistry<L>,
    a: Hugr,
    b: Hugr,
    st: FuncState,
    c: usize,
)
    requires
        a@ == b@,
        c < a.nodes@.len(),
    ensures
        conditional_code(reg, a, st, c) == conditional_code(reg, b, st, c),
    decreases a.nodes@.len() - c, 5nat, 0nat,
{
    lemma_nodes_alike(a, b);
    assert(same_node(a, b, c as int));
    match a.nodes[c as int].op {
        OpType::Conditional { sum_rows, other_inputs, outputs } => {
            let wires = a.nodes[c as int].inputs@;
            let ws = seq![wires[0]];
            let ts = seq![TypeView::Sum(type_rows_view(sum_rows))];
            lemma_inputs_alike(reg, a, b, st, c, ws, ts);
            match load_inputs(reg, a, st, c, ws, ts) {
                Err(e) => {},
                Ok((st1, v)) => match discriminant(st1, c, v) {
                    Err(e) => {},
                    Ok((st2, on)) => match alloc_slots_from(reg, st2, type_row_view(outputs), 0) {
                        Err(e) => {},
                        Ok(st3) => {
                            lemma_cases_alike(
                                reg,
                                a,
                                b,
                                st3.close(TerminatorView::Unreachable),
                                c,
                                st2.slots.len(),
                                0,
                                Seq::empty(),
                                Seq::empty(),
                            );
                        },
                    },
                },
            }
        },
        _ => {},
    }
}

pub proof fn lemma_loop_entry_alike<L: ExtensionLowering>(
    reg: ExtensionOpRegistry<L>,
    a: Hugr,
    b: Hugr,
    st: FuncState,
    n: usize,
)
    requires
        a@ == b@,
        n < a.nodes@.len(),
    ensures
        loop_entry(reg, a, st, n) == loop_entry(reg, b, st, n),
{
    lemma_nodes_alike(a, b);
    assert(same_node(a, b, n as int));
    let op = a.nodes[n as int].op;
    lemma_inputs_alike(reg, a, b, st, n, a.nodes[n as int].inputs@, op_inputs(op));
}

pub proof fn lemma_loop_round_alike<L: ExtensionLowering>(
    reg: ExtensionOpRegistry<L>,
    a: Hugr,
    b: Hugr,
    st: FuncState,
    n: usize,
    round: nat,
    yielded: nat,
)
    requires
        a@ == b@,
        n < a.nodes@.len(),
    ensures
        loop_round(reg, a, st, n, round, yielded) == loop_round(reg, b, st, n, round, yielded),
    decreases a.nodes@.len() - n, 4nat, 0nat,
{
    lemma_nodes_alike(a, b);
    assert(same_node(a, b, n as int));
    let op = a.nodes[n as int].op;
    lemma_boundary_alike(a, b, n, op_inputs(op), yields_of(op));
    match load_slots_from(st, n, round, op_inputs(op).len(), 0, ValuesView::empty()) {
        Err(e) => {},
        Ok((st1, ins)) => {
            lemma_region_alike(reg, a, b, st1, n, ins);
        },
    }
}

pub proof fn lemma_loop_alike<L: ExtensionLowering>(
    reg: ExtensionOpRegistry<L>,
    a: Hugr,
    b: Hugr,
    st: FuncState,
    n: usize,
)
    requires
        a@ == b@,
        n < a.nodes@.len(),
    ensures
        loop_code(reg, a, st, n) == loop_code(reg, b, st, n),
    decreases a.nodes@.len() - n, 5nat, 0nat,
{
    lemma_nodes_alike(a, b);
    assert(same_node(a, b, n as int));
    lemma_loop_entry_alike(reg, a, b, st, n);
    match loop_entry(reg, a, st, n) {
        Err(e) => {},
        Ok(slots) => {
            lemma_loop_round_alike(reg, a, b, slots.st, n, slots.round, slots.yielded);
        },
    }
}

/// A node is emitted alike from graphs with one model.
pub proof fn lemma_node_alike<L: ExtensionLowering>(
    reg: ExtensionOpRegistry<L>,
    a: Hugr,
    b: Hugr,
    st: FuncState,
    c: usize,
)
    requires
        a@ == b@,
    ensures
        node_code(reg, a, st, c) == node_code(reg, b, st, c),
    decreases a.nodes@.len() - c, 6nat, 0nat,
{
    lemma_nodes_alike(a, b);
    if c < a.nodes@.len() {
        assert(same_node(a, b, c as int));
        let op = a.nodes[c as int].op;
        match op {
            OpType::Dfg { signature } => {
                lemma_boundary_alike(a, b, c, op_inputs(op), op_outputs(op));
                lemma_inputs_alike(reg, a, b, st, c, a.nodes[c as int].inputs@, op_inputs(op));
                match load_inputs(reg, a, st, c, a.nodes[c as int].inputs@, op_inputs(op)) {
                    Err(e) => {},
                    Ok((st1, vals)) => {
                        lemma_region_alike(reg, a, b, st1, c, vals);
                    },
                }
            },
            OpType::Conditional { .. } => {
                lemma_conditional_alike(reg, a, b, st, c);
            },
            OpType::TailLoop { .. } => {
                lemma_loop_alike(reg, a, b, st, c);
            },
            _ => {
                lemma_leaf_node_alike(reg, a, b, st, c);
            },
        }
    }
}

pub proof fn lemma_function_alike<L: ExtensionLowering>(reg: ExtensionOpRegistry<L>, a: Hugr, b: Hugr, fnode: usize)
    requires
        a@ == b@,
    ensures
        function_code(reg, a, fnode) == function_code(reg, b, fnode),
{
    lemma_nodes_alike(a, b);
    if fnode < a.nodes@.len() {
        assert(same_node(a, b, fnode as int));
        match a.nodes[fnode as int].op {
            OpType::FuncDefn { name, signature } => {
                let ins = type_row_view(signature.input);
                let outs = type_row_view(signature.output);
                lemma_boundary_alike(a, b, fnode, ins, outs);
                match convert_row(reg.types@, ins) {
                    Err(e) => {},
                    Ok(params) => {
                        lemma_region_alike(
                            reg,
                            a,
                            b,
                            FuncState::start(params, a.nodes@.len()),
                            fnode,
                            param_values(params),
                        );
                    },
                }
            },
            _ => {},
        }
    }
}

pub proof fn lemma_functions_alike<L: ExtensionLowering>(
    reg: ExtensionOpRegistry<L>,
    a: Hugr,
    b: Hugr,
    children: Seq<usize>,
    i: nat,
    acc: Seq<FunctionView>,
)
    requires
        a@ == b@,
    ensures
        functions_code_from(reg, a, children, i, acc) == functions_code_from(reg, b, children, i, acc),
    decreases children.len() - i,
{
    if i < children.len() {
        lemma_function_alike(reg, a, b, children[i as int]);
        match function_code(reg, a, children[i as int]) {
            Err(e) => {},
            Ok(f) => {
                lemma_functions_alike(reg, a, b, children, i + 1, acc.push(f));
            },
        }
    }
}

/// Emission reads the model of the graph alone: graphs with the same
/// nodes, the same sibling order and the same wires give the same module,
/// or fail with the same error.
pub proof fn law_equal_graphs_equal_code<L: ExtensionLowering>(reg: ExtensionOpRegistry<L>, a: Hugr, b: Hugr)
    requires
        a@ == b@,
    ensures
        module_draft(reg, a) == module_draft(reg, b),
        module_code(reg, a) == module_code(reg, b),
{
    lemma_nodes_alike(a, b);
    if a.nodes@.len() > 0 {
        assert(same_node(a, b, 0));
        lemma_functions_alike(reg, a, b, a.nodes[0].children@, 0, Seq::empty());
    }
}

} // verus!

//! Emission binds the nodes that it emits, and no others: what a node or
//! a region changes of the table of bound nodes lies below it in the
//! hierarchy.
use vstd::prelude::*;
use crate::types::TypeView;
use crate::types::type_row_view;
use crate::types::type_rows_view;
use crate::types::lemma_type_row_view;
use crate::ops::OpType;
use crate::ops::op_inputs;
use crate::ops::op_outputs;
use crate::ops::loop_yields;
use crate::hugr::Hugr;
use crate::extension::ExtensionLowering;
use crate::extension::ExtensionOpRegistry;
use crate::schedule::schedule;
use crate::schedule::lemma_schedule_is_topological;
use crate::state::FuncState;
use crate::state::ValuesView;
use crate::ir::TerminatorView;
use crate::ir::OperandView;
use crate::wires::load_inputs;
use crate::wires::bind_outputs;
use crate::wires::store_values_from;
use crate::wires::alloc_slots_from;
use crate::region::region_boundary;
use crate::region::region_body;
use crate::region::leaf_node;
use crate::region::leaf_values;
use crate::region::discriminant;
use crate::region::case_inputs;
use crate::region::join;
use crate::region::nodes_code_from;
use crate::region::region_code;
use crate::region::case_code;
use crate::region::cases_code_from;
use crate::region::conditional_code;
use crate::region::node_code;
use crate::region::LoopSlots;
use crate::region::loop_entry;
use crate::region::loop_round;
use crate::region::loop_exit;
use crate::region::loop_code;
use crate::region::load_slots_from;
use crate::region::move_yield;
use crate::region::first_of;
use crate::region::yields_count;
use crate::frame::lemma_load_grows;
use crate::frame::lemma_store_grows;
use crate::frame::lemma_alloc_grows;
use crate::frame::lemma_bind_grows;
use crate::frame::lemma_leaf_values_grows;
use crate::frame::lemma_discriminant_grows;
use crate::frame::lemma_case_inputs_grows;
use crate::frame::lemma_load_slots_grows;
use crate::frame::lemma_move_yield_grows;
use crate::shape::lemma_branch_all;
use crate::wellformed::tree;
use crate::wellformed::under;

verus! {

/// Whether `st2` binds as `st` does but for nodes at or below `c`.
pub open spec fn confined(h: Hugr, st: FuncState, st2: FuncState, c: usize) -> bool {
    &&& st2.bound.len() == st.bound.len()
    &&& forall|x: int| 0 <= x < st.bound.len() && #[trigger] st2.bound[x] != st.bound[x] ==> under(h, x as nat, c as nat)
}

/// What lies below a node lies below what the node lies below.
pub proof fn lemma_under_trans(h: Hugr, x: nat, c: nat, p: nat)
    requires
        under(h, x, c),
        under(h, c, p),
    ensures
        under(h, x, p),
    decreases x,
{
    if x != c {
        lemma_under_trans(h, h.nodes[x as int].parent as nat, c, p);
        lemma_under_after(h, c, p);
    }
}

/// What lies below a node comes at or after it.
pub proof fn lemma_under_after(h: Hugr, x: nat, c: nat)
    requires
        under(h, x, c),
    ensures
        c <= x,
    decreases x,
{
}

/// A child lies below its parent.
pub proof fn lemma_child_under(h: Hugr, p: usize, k: int)
    requires
        tree(h),
        p < h.nodes@.len(),
        0 <= k < h.nodes[p as int].children@.len(),
    ensures
        under(h, h.nodes[p as int].children@[k] as nat, p as nat),
        p < h.nodes[p as int].children@[k] < h.nodes@.len(),
{
    let c = h.nodes[p as int].children@[k];
    assert(under(h, p as nat, p as nat));
}

pub proof fn lemma_confined_trans(h: Hugr, a: FuncState, b: FuncState, c: FuncState, at: usize)
    requires
        confined(h, a, b, at),
        confined(h, b, c, at),
    ensures
        confined(h, a, c, at),
{
    assert forall|x: int| 0 <= x < a.bound.len() && #[trigger] c.bound[x] != a.bound[x] implies under(
        h,
        x as nat,
        at as nat,
    ) by {
        if b.bound[x] != a.bound[x] {
        } else {
            assert(c.bound[x] != b.bound[x]);
        }
    }
}

pub proof fn lemma_confined_widen(h: Hugr, a: FuncState, b: FuncState, c: usize, p: usize)
    requires
        confined(h, a, b, c),
        under(h, c as nat, p as nat),
    ensures
        confined(h, a, b, p),
{
    assert forall|x: int| 0 <= x < a.bound.len() && #[trigger] b.bound[x] != a.bound[x] implies under(
        h,
        x as nat,
        p as nat,
    ) by {
        lemma_under_trans(h, x as nat, c as nat, p as nat);
    }
}

pub proof fn lemma_same_bound_confined(h: Hugr, a: FuncState, b: FuncState, c: usize)
    requires
        b.bound == a.bound,
    ensures
        confined(h, a, b, c),
{
}

/// A node without children binds itself only.
pub proof fn lemma_leaf_confined<L: ExtensionLowering>(reg: ExtensionOpRegistry<L>, h: Hugr, st: FuncState, node: usize)
    ensures
        leaf_node(reg, h, st, node) matches Ok(st2) ==> confined(h, st, st2, node),
{
    let op = h.nodes[node as int].op;
    lemma_load_grows(reg, h, st, node, h.nodes[node as int].inputs@, op_inputs(op), 0, ValuesView::empty());
    match load_inputs(reg, h, st, node, h.nodes[node as int].inputs@, op_inputs(op)) {
        Err(e) => {},
        Ok((st1, vals)) => {
            lemma_leaf_values_grows(reg, st1, node, op, vals);
            match leaf_values(reg, st1, node, op, vals) {
                Err(e) => {},
                Ok((st2, outs)) => {
                    lemma_bind_confined(reg, h, st2, node, op_outputs(op), outs);
                },
            }
        },
    }
}

/// Binding the outputs of a node binds that node only.
pub proof fn lemma_bind_confined<L: ExtensionLowering>(
    reg: ExtensionOpRegistry<L>,
    h: Hugr,
    st: FuncState,
    node: usize,
    types: Seq<TypeView>,
    vals: ValuesView,
)
    ensures
        bind_outputs(reg, st, node, types, vals) matches Ok(st2) ==> confined(h, st, st2, node),
{
    lemma_bind_grows(reg, st, node, types, vals);
    assert(under(h, node as nat, node as nat));
}

/// The nodes that the scheduler orders are children of the region's
/// parent.
pub proof fn lemma_scheduled_are_children(h: Hugr, parent: usize, k: int)
    requires
        tree(h),
        parent < h.nodes@.len(),
        h.nodes[parent as int].children@.len() >= 2,
        schedule(h, h.nodes[parent as int].children@[0], region_body(h, parent)) is Some,
        0 <= k < schedule(h, h.nodes[parent as int].children@[0], region_body(h, parent))->Some_0.len(),
    ensures
        under(
            h,
            schedule(h, h.nodes[parent as int].children@[0], region_body(h, parent))->Some_0[k] as nat,
            parent as nat,
        ),
        h.nodes[schedule(h, h.nodes[parent as int].children@[0], region_body(h, parent))->Some_0[k] as int].parent
            == parent,
        parent < schedule(h, h.nodes[parent as int].children@[0], region_body(h, parent))->Some_0[k]
            < h.nodes@.len(),
{
    let body = region_body(h, parent);
    let inp = h.nodes[parent as int].children@[0];
    lemma_schedule_is_topological(h, inp, body, Seq::empty());
    let order = schedule(h, inp, body)->Some_0;
    assert(body.contains(order[k]));
    let j = choose|j: int| 0 <= j < body.len() && body[j] == order[k];
    assert(body[j] == h.nodes[parent as int].children@[j + 2]);
    lemma_child_under(h, parent, j + 2);
}

/// The nodes of a region bind what lies below the region's parent.
pub proof fn lemma_nodes_confined<L: ExtensionLowering>(
    reg: ExtensionOpRegistry<L>,
    h: Hugr,
    st: FuncState,
    parent: usize,
    order: Seq<usize>,
    k: nat,
)
    requires
        tree(h),
        forall|j: int| 0 <= j < order.len() ==> under(h, (#[trigger] order[j]) as nat, parent as nat),
    ensures
        nodes_code_from(reg, h, st, parent, order, k) matches Ok(st2) ==> confined(h, st, st2, parent),
    decreases h.nodes@.len() - parent, 2nat, order.len() - k,
{
    if k < order.len() {
        let c = order[k as int];
        if parent < c < h.nodes@.len() {
            lemma_node_confined(reg, h, st, c);
            match node_code(reg, h, st, c) {
                Err(e) => {},
                Ok(st1) => {
                    lemma_confined_widen(h, st, st1, c, parent);
                    lemma_nodes_confined(reg, h, st1, parent, order, k + 1);
                    match nodes_code_from(reg, h, st1, parent, order, k + 1) {
                        Err(e) => {},
                        Ok(st2) => {
                            lemma_confined_trans(h, st, st1, st2, parent);
                        },
                    }
                },
            }
        }
    } else {
        lemma_same_bound_confined(h, st, st, parent);
    }
}

/// A region binds what lies below its parent.
pub proof fn lemma_region_confined<L: ExtensionLowering>(
    reg: ExtensionOpRegistry<L>,
    h: Hugr,
    st: FuncState,
    parent: usize,
    inputs: ValuesView,
)
    requires
        tree(h),
    ensures
        region_code(reg, h, st, parent, inputs) matches Ok((st2, outs)) ==> confined(h, st, st2, parent),
    decreases h.nodes@.len() - parent, 3nat, 0nat,
{
    match region_boundary(h, parent) {
        Err(e) => {},
        Ok((inp, out)) => {
            lemma_bind_confined(reg, h, st, inp, op_outputs(h.nodes[inp as int].op), inputs);
            lemma_child_under(h, parent, 0);
            match bind_outputs(reg, st, inp, op_outputs(h.nodes[inp as int].op), inputs) {
                Err(e) => {},
                Ok(st1) => {
                    lemma_confined_widen(h, st, st1, inp, parent);
                    match schedule(h, inp, region_body(h, parent)) {
                        None => {},
                        Some(order) => {
                            assert forall|j: int| 0 <= j < order.len() implies under(
                                h,
                                (#[trigger] order[j]) as nat,
                                parent as nat,
                            ) by {
                                lemma_scheduled_are_children(h, parent, j);
                            }
                            lemma_nodes_confined(reg, h, st1, parent, order, 0);
                            match nodes_code_from(reg, h, st1, parent, order, 0) {
                                Err(e) => {},
                                Ok(st2) => {
                                    lemma_load_grows(
                                        reg,
                                        h,
                                        st2,
                                        out,
                                        h.nodes[out as int].inputs@,
                                        op_inputs(h.nodes[out as int].op),
                                        0,
                                        ValuesView::empty(),
                                    );
                                    match load_inputs(
                                        reg,
                                        h,
                                        st2,
                                        out,
                                        h.nodes[out as int].inputs@,
                                        op_inputs(h.nodes[out as int].op),
                                    ) {
                                        Err(e) => {},
                                        Ok((st3, outs)) => {
                                            lemma_confined_trans(h, st, st1, st2, parent);
                                            lemma_same_bound_confined(h, st2, st3, parent);
                                            lemma_confined_trans(h, st, st2, st3, parent);
                                        },
                                    }
                                },
                            }
                        },
                    }
                },
            }
        },
    }
}

/// One case binds what lies below the conditional.
pub proof fn lemma_case_confined<L: ExtensionLowering>(
    reg: ExtensionOpRegistry<L>,
    h: Hugr,
    st: FuncState,
    c: usize,
    base: nat,
    i: nat,
)
    requires
        tree(h),
        c < h.nodes@.len(),
    ensures
        case_code(reg, h, st, c, base, i) matches Ok(done) ==> confined(h, st, done.st, c),
    decreases h.nodes@.len() - c, 4nat, 0nat,
{
    let children = h.nodes[c as int].children@;
    let op = h.nodes[c as int].op;
    if i < children.len() {
        let child = children[i as int];
        if c < child < h.nodes@.len() && h.nodes[child as int].op is Case {
            lemma_child_under(h, c, i as int);
            lemma_load_grows(reg, h, st, c, h.nodes[c as int].inputs@, op_inputs(op), 0, ValuesView::empty());
            match load_inputs(reg, h, st, c, h.nodes[c as int].inputs@, op_inputs(op)) {
                Err(e) => {},
                Ok((st1, vals)) => {
                    lemma_case_inputs_grows(st1, c, i, vals);
                    match case_inputs(st1, c, i, vals) {
                        Err(e) => {},
                        Ok((st2, ins)) => {
                            lemma_region_confined(reg, h, st2, child, ins);
                            match region_code(reg, h, st2, child, ins) {
                                Err(e) => {},
                                Ok((st3, outs)) => if outs.operands.len() == op_outputs(op).len() {
                                    lemma_store_grows(st3, child, base, outs, 0);
                                    match store_values_from(st3, child, base, outs, 0) {
                                        Err(e) => {},
                                        Ok(st4) => {
                                            lemma_confined_widen(h, st2, st3, child, c);
                                            let st5 = st4.close(TerminatorView::Unreachable);
                                            assert(st2.bound == st.bound);
                                            assert(st5.bound == st3.bound);
                                        },
                                    }
                                },
                            }
                        },
                    }
                },
            }
        }
    }
}

/// The cases of a conditional bind what lies below the conditional.
pub proof fn lemma_cases_confined<L: ExtensionLowering>(
    reg: ExtensionOpRegistry<L>,
    h: Hugr,
    st: FuncState,
    c: usize,
    base: nat,
    i: nat,
    targets: Seq<nat>,
    ends: Seq<nat>,
)
    requires
        tree(h),
        c < h.nodes@.len(),
    ensures
        cases_code_from(reg, h, st, c, base, i, targets, ends) matches Ok(cases) ==> confined(h, st, cases.st, c),
    decreases h.nodes@.len() - c, 4nat, 1 + h.nodes[c as int].children@.len() - i,
{
    if i < h.nodes[c as int].children@.len() {
        lemma_case_confined(reg, h, st, c, base, i);
        match case_code(reg, h, st, c, base, i) {
            Err(e) => {},
            Ok(done) => {
                lemma_cases_confined(reg, h, done.st, c, base, i + 1, targets.push(done.entry), ends.push(done.end));
                match cases_code_from(reg, h, done.st, c, base, i + 1, targets.push(done.entry), ends.push(done.end)) {
                    Err(e) => {},
                    Ok(cases) => {
                        lemma_confined_trans(h, st, done.st, cases.st, c);
                    },
                }
            },
        }
    } else {
        lemma_same_bound_confined(h, st, st, c);
    }
}

/// A conditional binds what lies at or below it.
pub proof fn lemma_conditional_confined<L: ExtensionLowering>(
    reg: ExtensionOpRegistry<L>,
    h: Hugr,
    st: FuncState,
    c: usize,
)
    requires
        tree(h),
        c < h.nodes@.len(),
    ensures
        conditional_code(reg, h, st, c) matches Ok(st2) ==> confined(h, st, st2, c),
    decreases h.nodes@.len() - c, 5nat, 0nat,
{
    match h.nodes[c as int].op {
        OpType::Conditional { sum_rows, other_inputs, outputs } => {
            let wires = h.nodes[c as int].inputs@;
            let children = h.nodes[c as int].children@;
            if wires.len() == 1 + other_inputs@.len() && children.len() == sum_rows@.len() && c < st.bound.len() {
                let ws = seq![wires[0]];
                let ts = seq![TypeView::Sum(type_rows_view(sum_rows))];
                lemma_load_grows(reg, h, st, c, ws, ts, 0, ValuesView::empty());
                match load_inputs(reg, h, st, c, ws, ts) {
                    Err(e) => {},
                    Ok((st1, v)) => {
                        lemma_discriminant_grows(st1, c, v);
                        match discriminant(st1, c, v) {
                            Err(e) => {},
                            Ok((st2, on)) => {
                                lemma_type_row_view(outputs);
                                lemma_alloc_grows(reg, st2, type_row_view(outputs), 0);
                                match alloc_slots_from(reg, st2, type_row_view(outputs), 0) {
                                    Err(e) => {},
                                    Ok(st3) => {
                                        let st4 = st3.close(TerminatorView::Unreachable);
                                        let base = st2.slots.len();
                                        lemma_cases_confined(reg, h, st4, c, base, 0, Seq::empty(), Seq::empty());
                                        match cases_code_from(reg, h, st4, c, base, 0, Seq::empty(), Seq::empty()) {
                                            Err(e) => {},
                                            Ok(cases) => {
                                                let sw = cases.st.retarget(
                                                    st3.blocks.len() as int,
                                                    TerminatorView::Switch(on, cases.targets),
                                                );
                                                lemma_branch_all(sw, cases.ends, cases.st.blocks.len(), 0);
                                                let joined = join(cases.st, st3.blocks.len(), on, cases.targets, cases.ends);
                                                assert(joined.bound == cases.st.bound);
                                                assert(st4.bound == st.bound);
                                                assert(under(h, c as nat, c as nat));
                                            },
                                        }
                                    },
                                }
                            },
                        }
                    },
                }
            }
        },
        _ => {},
    }
}

/// A loop binds what lies at or below it.
pub proof fn lemma_loop_confined<L: ExtensionLowering>(reg: ExtensionOpRegistry<L>, h: Hugr, st: FuncState, n: usize)
    requires
        tree(h),
        n < h.nodes@.len(),
    ensures
        loop_code(reg, h, st, n) matches Ok(st2) ==> confined(h, st, st2, n),
    decreases h.nodes@.len() - n, 5nat, 0nat,
{
    crate::shape::lemma_loop_entry_extends(reg, h, st, n);
    lemma_loop_entry_bound(reg, h, st, n);
    match loop_entry(reg, h, st, n) {
        Err(e) => {},
        Ok(slots) => {
            lemma_loop_round_confined(reg, h, slots.st, n, slots.round, slots.yielded);
            match loop_round(reg, h, slots.st, n, slots.round, slots.yielded) {
                Err(e) => {},
                Ok((st1, on)) => {
                    let count = yields_count(h.nodes[n as int].op);
                    lemma_loop_exit_bound(st1, n, slots, count, slots.st.blocks.len(), on);
                    assert(under(h, n as nat, n as nat));
                },
            }
        },
    }
}

/// The entry of a loop binds nothing.
pub proof fn lemma_loop_entry_bound<L: ExtensionLowering>(reg: ExtensionOpRegistry<L>, h: Hugr, st: FuncState, n: usize)
    ensures
        loop_entry(reg, h, st, n) matches Ok(slots) ==> slots.st.bound == st.bound,
{
    match h.nodes[n as int].op {
        OpType::TailLoop { just_inputs, just_outputs, rest } => {
            let op = h.nodes[n as int].op;
            if n < st.bound.len() {
                lemma_load_grows(reg, h, st, n, h.nodes[n as int].inputs@, op_inputs(op), 0, ValuesView::empty());
                match load_inputs(reg, h, st, n, h.nodes[n as int].inputs@, op_inputs(op)) {
                    Err(e) => {},
                    Ok((st1, vals)) => {
                        lemma_alloc_grows(reg, st1, op_inputs(op), 0);
                        match alloc_slots_from(reg, st1, op_inputs(op), 0) {
                            Err(e) => {},
                            Ok(st2) => {
                                lemma_store_grows(st2, n, st1.slots.len(), vals, 0);
                                match store_values_from(st2, n, st1.slots.len(), vals, 0) {
                                    Err(e) => {},
                                    Ok(st3) => {
                                        lemma_alloc_grows(reg, st3, op_outputs(op), 0);
                                        match alloc_slots_from(reg, st3, op_outputs(op), 0) {
                                            Err(e) => {},
                                            Ok(st4) => {
                                                let yields = loop_yields(
                                                    type_row_view(just_inputs),
                                                    type_row_view(just_outputs),
                                                    type_row_view(rest),
                                                );
                                                lemma_alloc_grows(reg, st4, yields, 0);
                                            },
                                        }
                                    },
                                }
                            },
                        }
                    },
                }
            }
        },
        _ => {},
    }
}

/// A round of a loop binds what lies below the loop.
pub proof fn lemma_loop_round_confined<L: ExtensionLowering>(
    reg: ExtensionOpRegistry<L>,
    h: Hugr,
    st: FuncState,
    n: usize,
    round: nat,
    yielded: nat,
)
    requires
        tree(h),
    ensures
        loop_round(reg, h, st, n, round, yielded) matches Ok((st2, on)) ==> confined(h, st, st2, n),
    decreases h.nodes@.len() - n, 4nat, 0nat,
{
    let op = h.nodes[n as int].op;
    lemma_load_slots_grows(st, n, round, op_inputs(op).len(), 0, ValuesView::empty());
    match load_slots_from(st, n, round, op_inputs(op).len(), 0, ValuesView::empty()) {
        Err(e) => {},
        Ok((st1, ins)) => {
            lemma_region_confined(reg, h, st1, n, ins);
            match region_code(reg, h, st1, n, ins) {
                Err(e) => {},
                Ok((st2, outs)) => if outs.operands.len() == yields_count(op) {
                    lemma_store_grows(st2, n, yielded, outs, 0);
                    match store_values_from(st2, n, yielded, outs, 0) {
                        Err(e) => {},
                        Ok(st3) => {
                            lemma_discriminant_grows(st3, n, first_of(outs));
                        },
                    }
                },
            }
        },
    }
}

/// The exit of a loop binds nothing.
pub proof fn lemma_loop_exit_bound(st: FuncState, n: usize, slots: LoopSlots, count: nat, header: nat, on: OperandView)
    ensures
        loop_exit(st, n, slots, count, header, on) matches Ok(st2) ==> st2.bound == st.bound,
{
    let st0 = st.close(TerminatorView::Unreachable);
    lemma_move_yield_grows(st0, n, slots.yielded, count, 0, slots.round);
    match move_yield(st0, n, slots.yielded, count, 0, slots.round) {
        Err(e) => {},
        Ok(st1) => {
            lemma_move_yield_grows(st1.close(TerminatorView::Br(header)), n, slots.yielded, count, 1, slots.out);
        },
    }
}

/// A node binds what lies at or below it.
pub proof fn lemma_node_confined<L: ExtensionLowering>(reg: ExtensionOpRegistry<L>, h: Hugr, st: FuncState, c: usize)
    requires
        tree(h),
    ensures
        node_code(reg, h, st, c) matches Ok(st2) ==> confined(h, st, st2, c),
    decreases h.nodes@.len() - c, 6nat, 0nat,
{
    if c < h.nodes@.len() {
        let op = h.nodes[c as int].op;
        match op {
            OpType::Dfg { signature } => {
                lemma_load_grows(reg, h, st, c, h.nodes[c as int].inputs@, op_inputs(op), 0, ValuesView::empty());
                match load_inputs(reg, h, st, c, h.nodes[c as int].inputs@, op_inputs(op)) {
                    Err(e) => {},
                    Ok((st1, vals)) => {
                        lemma_region_confined(reg, h, st1, c, vals);
                        match region_code(reg, h, st1, c, vals) {
                            Err(e) => {},
                            Ok((st2, outs)) => {
                                lemma_bind_confined(reg, h, st2, c, op_outputs(op), outs);
                                match bind_outputs(reg, st2, c, op_outputs(op), outs) {
                                    Err(e) => {},
                                    Ok(st3) => {
                                        lemma_same_bound_confined(h, st, st1, c);
                                        lemma_confined_trans(h, st, st1, st2, c);
                                        lemma_confined_trans(h, st, st2, st3, c);
                                    },
                                }
                            },
                        }
                    },
                }
            },
            OpType::Conditional { .. } => {
                lemma_conditional_confined(reg, h, st, c);
            },
            OpType::TailLoop { .. } => {
                lemma_loop_confined(reg, h, st, c);
            },
            OpType::MakeTuple { .. } => {
                lemma_leaf_confined(reg, h, st, c);
            },
            OpType::UnpackTuple { .. } => {
                lemma_leaf_confined(reg, h, st, c);
            },
            OpType::Tag { .. } => {
                lemma_leaf_confined(reg, h, st, c);
            },
            OpType::LoadConstant { .. } => {
                lemma_leaf_confined(reg, h, st, c);
            },
            OpType::Extension(_) => {
                lemma_leaf_confined(reg, h, st, c);
            },
            _ => {},
        }
    }
}

} // verus!

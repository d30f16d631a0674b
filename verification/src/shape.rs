//! The shape of emitted control: what a conditional leaves in the
//! function, and that regions only ever add to it.
use vstd::prelude::*;
use crate::ir::OperandView;
use crate::ir::TerminatorView;
use crate::types::TypeView;
use crate::types::type_row_view;
use crate::types::type_rows_view;
use crate::types::lemma_type_row_view;
use crate::ops::OpType;
use crate::ops::op_inputs;
use crate::ops::op_outputs;
use crate::hugr::Hugr;
use crate::extension::ExtensionLowering;
use crate::extension::ExtensionOpRegistry;
use crate::schedule::schedule;
use crate::state::FuncState;
use crate::state::ValuesView;
use crate::wires::load_inputs;
use crate::wires::bind_outputs;
use crate::wires::store_values_from;
use crate::wires::alloc_slots_from;
use crate::region::region_boundary;
use crate::region::region_body;
use crate::region::discriminant;
use crate::region::case_inputs;
use crate::region::branch_all_from;
use crate::region::join;
use crate::region::nodes_code_from;
use crate::region::region_code;
use crate::region::case_code;
use crate::region::cases_code_from;
use crate::region::conditional_code;
use crate::region::node_code;
use crate::region::LoopSlots;
use crate::region::loop_entry;
use crate::region::loop_round;
use crate::region::loop_exit;
use crate::region::loop_code;
use crate::region::load_slots_from;
use crate::region::move_yield;
use crate::region::first_of;
use crate::region::yields_count;
use crate::ops::loop_yields;
use crate::frame::lemma_load_slots_grows;
use crate::frame::lemma_move_yield_grows;
use crate::frame::lemma_grows_trans;
use crate::frame::extends;
use crate::frame::grows;
use crate::frame::ends_with_stores;
use crate::frame::lemma_extends_trans;
use crate::frame::lemma_load_grows;
use crate::frame::lemma_store_grows;
use crate::frame::lemma_alloc_grows;
use crate::frame::lemma_bind_grows;
use crate::frame::lemma_leaf_node_grows;
use crate::frame::lemma_discriminant_grows;
use crate::frame::lemma_case_inputs_grows;

verus! {

/// Whether one of the blocks of `ends` from position `i` on is `x`.
pub open spec fn is_end(ends: Seq<nat>, i: nat, x: int) -> bool {
    exists|j: int| i <= j < ends.len() && #[trigger] ends[j] == x
}

/// Letting blocks branch changes their terminators and nothing else.
pub proof fn lemma_branch_all(st: FuncState, ends: Seq<nat>, m: nat, i: nat)
    ensures
        ({
            let r = branch_all_from(st, ends, m, i);
            &&& r.params == st.params
            &&& r.slots == st.slots
            &&& r.cur == st.cur
            &&& r.bound == st.bound
            &&& r.blocks.len() == st.blocks.len()
            &&& forall|x: int|
                0 <= x < st.blocks.len() ==> (#[trigger] r.blocks[x]).instrs == st.blocks[x].instrs && r.blocks[x].term
                    == (if is_end(ends, i, x) {
                    TerminatorView::Br(m)
                } else {
                    st.blocks[x].term
                })
        }),
    decreases ends.len() - i,
{
    if i < ends.len() {
        let st1 = st.retarget(ends[i as int] as int, TerminatorView::Br(m));
        lemma_branch_all(st1, ends, m, i + 1);
        let r = branch_all_from(st, ends, m, i);
        assert forall|x: int| 0 <= x < st.blocks.len() implies (#[trigger] r.blocks[x]).instrs
            == st.blocks[x].instrs && r.blocks[x].term == (if is_end(ends, i, x) {
            TerminatorView::Br(m)
        } else {
            st.blocks[x].term
        }) by {
            if is_end(ends, i + 1, x) {
                let j = choose|j: int| i + 1 <= j < ends.len() && #[trigger] ends[j] == x;
                assert(ends[j] == x);
            } else if ends[i as int] == x {
                assert(is_end(ends, i, x));
            } else {
                if is_end(ends, i, x) {
                    let j = choose|j: int| i <= j < ends.len() && #[trigger] ends[j] == x;
                    assert(j >= i + 1);
                    assert(is_end(ends, i + 1, x));
                }
            }
        }
    } else {
        assert forall|x: int| 0 <= x < st.blocks.len() implies !is_end(ends, i, x) by {}
    }
}

/// Whether the cases emitted so far lie one after the other from block
/// `first` on, each ending in a block that stores the `count` outputs
/// into the slots from `base` on and has no terminator yet.
pub open spec fn cases_laid(first: nat, targets: Seq<nat>, ends: Seq<nat>, st: FuncState, base: nat, count: nat) -> bool {
    &&& targets.len() == ends.len()
    &&& st.cur.len() == 0
    &&& st.blocks.len() == (if targets.len() == 0 {
        first
    } else {
        ends.last() + 1
    })
    &&& first <= st.blocks.len()
    &&& forall|j: int| 0 <= j < targets.len() ==> case_laid(first, targets, ends, st, base, count, j)
}

/// Whether case `j` lies where `cases_laid` says.
pub open spec fn case_laid(first: nat, targets: Seq<nat>, ends: Seq<nat>, st: FuncState, base: nat, count: nat, j: int) -> bool {
    &&& first <= targets[j]
    &&& targets[j] == (if j == 0 {
        first
    } else {
        ends[j - 1] + 1
    })
    &&& targets[j] <= ends[j] < st.blocks.len()
    &&& st.blocks[ends[j] as int].term == TerminatorView::Unreachable
    &&& ends_with_stores(st.blocks[ends[j] as int].instrs, base, count)
}

/// Regions, nodes and conditionals only add to the function: the slots
/// and the closed blocks that were there stay as they were.
pub proof fn lemma_nodes_extend<L: ExtensionLowering>(
    reg: ExtensionOpRegistry<L>,
    h: Hugr,
    st: FuncState,
    parent: usize,
    order: Seq<usize>,
    k: nat,
)
    ensures
        nodes_code_from(reg, h, st, parent, order, k) matches Ok(st2) ==> extends(st, st2),
    decreases h.nodes@.len() - parent, 2nat, order.len() - k,
{
    if k < order.len() {
        let c = order[k as int];
        if parent < c < h.nodes@.len() {
            lemma_node_extends(reg, h, st, c);
            match node_code(reg, h, st, c) {
                Err(e) => {},
                Ok(st1) => {
                    lemma_nodes_extend(reg, h, st1, parent, order, k + 1);
                    match nodes_code_from(reg, h, st1, parent, order, k + 1) {
                        Err(e) => {},
                        Ok(st2) => {
                            lemma_extends_trans(st, st1, st2);
                        },
                    }
                },
            }
        }
    }
}

/// A region only adds to the function.
pub proof fn lemma_region_extends<L: ExtensionLowering>(
    reg: ExtensionOpRegistry<L>,
    h: Hugr,
    st: FuncState,
    parent: usize,
    inputs: ValuesView,
)
    ensures
        region_code(reg, h, st, parent, inputs) matches Ok((st2, outs)) ==> extends(st, st2),
    decreases h.nodes@.len() - parent, 3nat, 0nat,
{
    match region_boundary(h, parent) {
        Err(e) => {},
        Ok((inp, out)) => {
            lemma_bind_grows(reg, st, inp, op_outputs(h.nodes[inp as int].op), inputs);
            match bind_outputs(reg, st, inp, op_outputs(h.nodes[inp as int].op), inputs) {
                Err(e) => {},
                Ok(st1) => match schedule(h, inp, region_body(h, parent)) {
                    None => {},
                    Some(order) => {
                        lemma_nodes_extend(reg, h, st1, parent, order, 0);
                        match nodes_code_from(reg, h, st1, parent, order, 0) {
                            Err(e) => {},
                            Ok(st2) => {
                                lemma_load_grows(
                                    reg,
                                    h,
                                    st2,
                                    out,
                                    h.nodes[out as int].inputs@,
                                    op_inputs(h.nodes[out as int].op),
                                    0,
                                    ValuesView::empty(),
                                );
                                match load_inputs(
                                    reg,
                                    h,
                                    st2,
                                    out,
                                    h.nodes[out as int].inputs@,
                                    op_inputs(h.nodes[out as int].op),
                                ) {
                                    Err(e) => {},
                                    Ok((st3, outs)) => {
                                        lemma_extends_trans(st, st1, st2);
                                        lemma_extends_trans(st, st2, st3);
                                    },
                                }
                            },
                        }
                    },
                },
            }
        },
    }
}

/// One case adds its blocks after those that were there, and ends in a
/// block that stores the outputs of the conditional.
pub proof fn lemma_case_shape<L: ExtensionLowering>(
    reg: ExtensionOpRegistry<L>,
    h: Hugr,
    st: FuncState,
    c: usize,
    base: nat,
    i: nat,
)
    ensures
        case_code(reg, h, st, c, base, i) matches Ok(done) ==> {
            &&& extends(st, done.st)
            &&& done.entry == st.blocks.len()
            &&& done.entry <= done.end
            &&& done.st.blocks.len() == done.end + 1
            &&& done.st.cur.len() == 0
            &&& done.st.blocks[done.end as int].term == TerminatorView::Unreachable
            &&& ends_with_stores(
                done.st.blocks[done.end as int].instrs,
                base,
                op_outputs(h.nodes[c as int].op).len(),
            )
        },
    decreases h.nodes@.len() - c, 4nat, 0nat,
{
    let children = h.nodes[c as int].children@;
    let op = h.nodes[c as int].op;
    if i < children.len() {
        let child = children[i as int];
        if c < child < h.nodes@.len() && h.nodes[child as int].op is Case {
            lemma_load_grows(reg, h, st, c, h.nodes[c as int].inputs@, op_inputs(op), 0, ValuesView::empty());
            match load_inputs(reg, h, st, c, h.nodes[c as int].inputs@, op_inputs(op)) {
                Err(e) => {},
                Ok((st1, vals)) => {
                    lemma_case_inputs_grows(st1, c, i, vals);
                    match case_inputs(st1, c, i, vals) {
                        Err(e) => {},
                        Ok((st2, ins)) => {
                            lemma_region_extends(reg, h, st2, child, ins);
                            match region_code(reg, h, st2, child, ins) {
                                Err(e) => {},
                                Ok((st3, outs)) => if outs.operands.len() == op_outputs(op).len() {
                                    lemma_store_grows(st3, child, base, outs, 0);
                                    match store_values_from(st3, child, base, outs, 0) {
                                        Err(e) => {},
                                        Ok(st4) => {
                                            lemma_extends_trans(st, st1, st2);
                                            lemma_extends_trans(st, st2, st3);
                                            lemma_extends_trans(st, st3, st4);
                                            let st5 = st4.close(TerminatorView::Unreachable);
                                            assert(extends(st4, st5));
                                            lemma_extends_trans(st, st4, st5);
                                            let count = op_outputs(op).len();
                                            assert(st5.blocks[st4.blocks.len() as int].instrs == st4.cur);
                                            assert forall|k: int| 0 <= k < count implies (#[trigger] st4.cur[st4.cur.len()
                                                - count + k]) is Store && st4.cur[st4.cur.len() - count
                                                + k]->Store_slot == base + k by {
                                                assert(st4.cur[st3.cur.len() + k - 0] is Store);
                                            }
                                        },
                                    }
                                },
                            }
                        },
                    }
                },
            }
        }
    }
}

/// The cases lie one after the other, in the order of the variants.
pub proof fn lemma_cases_shape<L: ExtensionLowering>(
    reg: ExtensionOpRegistry<L>,
    h: Hugr,
    st: FuncState,
    c: usize,
    base: nat,
    i: nat,
    targets: Seq<nat>,
    ends: Seq<nat>,
    first: nat,
)
    requires
        i <= h.nodes[c as int].children@.len(),
        targets.len() == i,
        cases_laid(first, targets, ends, st, base, op_outputs(h.nodes[c as int].op).len()),
    ensures
        cases_code_from(reg, h, st, c, base, i, targets, ends) matches Ok(cases) ==> {
            &&& extends(st, cases.st)
            &&& cases.targets.len() == h.nodes[c as int].children@.len()
            &&& cases_laid(first, cases.targets, cases.ends, cases.st, base, op_outputs(h.nodes[c as int].op).len())
        },
    decreases h.nodes@.len() - c, 4nat, 1 + h.nodes[c as int].children@.len() - i,
{
    let count = op_outputs(h.nodes[c as int].op).len();
    if i < h.nodes[c as int].children@.len() {
        lemma_case_shape(reg, h, st, c, base, i);
        match case_code(reg, h, st, c, base, i) {
            Err(e) => {},
            Ok(done) => {
                let t2 = targets.push(done.entry);
                let e2 = ends.push(done.end);
                assert(cases_laid(first, t2, e2, done.st, base, count)) by {
                    assert forall|j: int| 0 <= j < t2.len() implies case_laid(first, t2, e2, done.st, base, count, j) by {
                        if j < targets.len() {
                            assert(case_laid(first, targets, ends, st, base, count, j));
                            assert(done.st.blocks[ends[j] as int] == st.blocks[ends[j] as int]);
                            if j > 0 {
                                assert(e2[j - 1] == ends[j - 1]);
                            }
                        } else {
                            if j > 0 {
                                assert(e2[j - 1] == ends.last());
                            }
                        }
                    }
                }
                lemma_cases_shape(reg, h, done.st, c, base, i + 1, t2, e2, first);
                match cases_code_from(reg, h, done.st, c, base, i + 1, t2, e2) {
                    Err(e) => {},
                    Ok(cases) => {
                        lemma_extends_trans(st, done.st, cases.st);
                    },
                }
            },
        }
    }
}

/// The entry of a loop only adds to the function, and closes one block.
pub proof fn lemma_loop_entry_extends<L: ExtensionLowering>(reg: ExtensionOpRegistry<L>, h: Hugr, st: FuncState, n: usize)
    ensures
        loop_entry(reg, h, st, n) matches Ok(slots) ==> extends(st, slots.st) && slots.st.blocks.len()
            == st.blocks.len() + 1 && n < st.bound.len(),
{
    match h.nodes[n as int].op {
        OpType::TailLoop { just_inputs, just_outputs, rest } => {
            let op = h.nodes[n as int].op;
            if n < st.bound.len() {
                lemma_load_grows(reg, h, st, n, h.nodes[n as int].inputs@, op_inputs(op), 0, ValuesView::empty());
                match load_inputs(reg, h, st, n, h.nodes[n as int].inputs@, op_inputs(op)) {
                    Err(e) => {},
                    Ok((st1, vals)) => {
                        lemma_alloc_grows(reg, st1, op_inputs(op), 0);
                        match alloc_slots_from(reg, st1, op_inputs(op), 0) {
                            Err(e) => {},
                            Ok(st2) => {
                                lemma_store_grows(st2, n, st1.slots.len(), vals, 0);
                                match store_values_from(st2, n, st1.slots.len(), vals, 0) {
                                    Err(e) => {},
                                    Ok(st3) => {
                                        lemma_alloc_grows(reg, st3, op_outputs(op), 0);
                                        match alloc_slots_from(reg, st3, op_outputs(op), 0) {
                                            Err(e) => {},
                                            Ok(st4) => {
                                                let yields = loop_yields(
                                                    type_row_view(just_inputs),
                                                    type_row_view(just_outputs),
                                                    type_row_view(rest),
                                                );
                                                lemma_alloc_grows(reg, st4, yields, 0);
                                                match alloc_slots_from(reg, st4, yields, 0) {
                                                    Err(e) => {},
                                                    Ok(st5) => {
                                                        lemma_grows_trans(st, st1, st2);
                                                        lemma_grows_trans(st, st2, st3);
                                                        lemma_grows_trans(st, st3, st4);
                                                        lemma_grows_trans(st, st4, st5);
                                                        let st6 = st5.close(TerminatorView::Br(st5.blocks.len() + 1));
                                                        assert(extends(st5, st6));
                                                        lemma_extends_trans(st, st5, st6);
                                                    },
                                                }
                                            },
                                        }
                                    },
                                }
                            },
                        }
                    },
                }
            }
        },
        _ => {},
    }
}

/// A round of a loop only adds to the function.
pub proof fn lemma_loop_round_extends<L: ExtensionLowering>(
    reg: ExtensionOpRegistry<L>,
    h: Hugr,
    st: FuncState,
    n: usize,
    round: nat,
    yielded: nat,
)
    ensures
        loop_round(reg, h, st, n, round, yielded) matches Ok((st2, on)) ==> extends(st, st2),
    decreases h.nodes@.len() - n, 4nat, 0nat,
{
    let op = h.nodes[n as int].op;
    lemma_load_slots_grows(st, n, round, op_inputs(op).len(), 0, ValuesView::empty());
    match load_slots_from(st, n, round, op_inputs(op).len(), 0, ValuesView::empty()) {
        Err(e) => {},
        Ok((st1, ins)) => {
            lemma_region_extends(reg, h, st1, n, ins);
            match region_code(reg, h, st1, n, ins) {
                Err(e) => {},
                Ok((st2, outs)) => if outs.operands.len() == yields_count(op) {
                    lemma_store_grows(st2, n, yielded, outs, 0);
                    match store_values_from(st2, n, yielded, outs, 0) {
                        Err(e) => {},
                        Ok(st3) => {
                            lemma_discriminant_grows(st3, n, first_of(outs));
                            match discriminant(st3, n, first_of(outs)) {
                                Err(e) => {},
                                Ok((st4, on)) => {
                                    lemma_extends_trans(st, st1, st2);
                                    lemma_extends_trans(st, st2, st3);
                                    lemma_extends_trans(st, st3, st4);
                                },
                            }
                        },
                    }
                },
            }
        },
    }
}

/// The exit of a loop closes three blocks after those that were there,
/// and leaves an empty block open.
pub proof fn lemma_loop_exit_extends(st: FuncState, n: usize, slots: LoopSlots, count: nat, header: nat, on: OperandView)
    ensures
        loop_exit(st, n, slots, count, header, on) matches Ok(st2) ==> {
            &&& extends(st, st2)
            &&& st2.blocks.len() == st.blocks.len() + 3
            &&& st2.cur.len() == 0
            &&& st2.blocks[st.blocks.len() as int].instrs == st.cur
            &&& st2.blocks[st.blocks.len() as int].term == TerminatorView::Switch(
                on,
                seq![st.blocks.len() + 1, st.blocks.len() + 2],
            )
            &&& st2.blocks[st.blocks.len() as int + 1].term == TerminatorView::Br(header)
            &&& st2.blocks[st.blocks.len() as int + 2].term == TerminatorView::Br(st.blocks.len() + 3)
        },
{
    let e = st.blocks.len();
    let st0 = st.close(TerminatorView::Unreachable);
    lemma_move_yield_grows(st0, n, slots.yielded, count, 0, slots.round);
    match move_yield(st0, n, slots.yielded, count, 0, slots.round) {
        Err(e) => {},
        Ok(st1) => {
            let st1c = st1.close(TerminatorView::Br(header));
            lemma_move_yield_grows(st1c, n, slots.yielded, count, 1, slots.out);
            match move_yield(st1c, n, slots.yielded, count, 1, slots.out) {
                Err(e) => {},
                Ok(st2) => {
                    let st2c = st2.close(TerminatorView::Br(st2.blocks.len() + 1));
                    let st3 = st2c.retarget(e as int, TerminatorView::Switch(on, seq![e + 1, e + 2]));
                    assert(st1.blocks[e as int] == st0.blocks[e as int]);
                    assert(st2.blocks[e as int] == st1c.blocks[e as int]);
                    assert(st2.blocks[e as int + 1] == st1c.blocks[e as int + 1]);
                    assert forall|i: int| 0 <= i < st.blocks.len() implies #[trigger] st3.blocks[i] == st.blocks[i] by {
                        assert(st1.blocks[i] == st0.blocks[i]);
                        assert(st2.blocks[i] == st1c.blocks[i]);
                    }
                    assert forall|i: int| 0 <= i < st.slots.len() implies #[trigger] st3.slots[i] == st.slots[i] by {}
                },
            }
        },
    }
}

/// A loop only adds to the function.
pub proof fn lemma_loop_extends<L: ExtensionLowering>(reg: ExtensionOpRegistry<L>, h: Hugr, st: FuncState, n: usize)
    ensures
        loop_code(reg, h, st, n) matches Ok(st2) ==> extends(st, st2),
    decreases h.nodes@.len() - n, 5nat, 0nat,
{
    lemma_loop_entry_extends(reg, h, st, n);
    match loop_entry(reg, h, st, n) {
        Err(e) => {},
        Ok(slots) => {
            lemma_loop_round_extends(reg, h, slots.st, n, slots.round, slots.yielded);
            match loop_round(reg, h, slots.st, n, slots.round, slots.yielded) {
                Err(e) => {},
                Ok((st1, on)) => {
                    let count = yields_count(h.nodes[n as int].op);
                    lemma_loop_exit_extends(st1, n, slots, count, slots.st.blocks.len(), on);
                    match loop_exit(st1, n, slots, count, slots.st.blocks.len(), on) {
                        Err(e) => {},
                        Ok(st2) => {
                            lemma_extends_trans(st, slots.st, st1);
                            lemma_extends_trans(st, st1, st2);
                            let st3 = st2.bind(n as int, slots.out);
                            assert(extends(st2, st3));
                            lemma_extends_trans(st, st2, st3);
                        },
                    }
                },
            }
        },
    }
}

/// A node only adds to the function.
pub proof fn lemma_node_extends<L: ExtensionLowering>(reg: ExtensionOpRegistry<L>, h: Hugr, st: FuncState, c: usize)
    ensures
        node_code(reg, h, st, c) matches Ok(st2) ==> extends(st, st2),
    decreases h.nodes@.len() - c, 6nat, 0nat,
{
    if c < h.nodes@.len() {
        let op = h.nodes[c as int].op;
        match op {
            OpType::Dfg { signature } => {
                lemma_load_grows(reg, h, st, c, h.nodes[c as int].inputs@, op_inputs(op), 0, ValuesView::empty());
                match load_inputs(reg, h, st, c, h.nodes[c as int].inputs@, op_inputs(op)) {
                    Err(e) => {},
                    Ok((st1, vals)) => {
                        lemma_region_extends(reg, h, st1, c, vals);
                        match region_code(reg, h, st1, c, vals) {
                            Err(e) => {},
                            Ok((st2, outs)) => {
                                lemma_bind_grows(reg, st2, c, op_outputs(op), outs);
                                match bind_outputs(reg, st2, c, op_outputs(op), outs) {
                                    Err(e) => {},
                                    Ok(st3) => {
                                        lemma_extends_trans(st, st1, st2);
                                        lemma_extends_trans(st, st2, st3);
                                    },
                                }
                            },
                        }
                    },
                }
            },
            OpType::Conditional { .. } => {
                lemma_conditional_shape(reg, h, st, c);
            },
            OpType::TailLoop { .. } => {
                lemma_loop_extends(reg, h, st, c);
            },
            OpType::MakeTuple { .. } => {
                lemma_leaf_node_grows(reg, h, st, c);
            },
            OpType::UnpackTuple { .. } => {
                lemma_leaf_node_grows(reg, h, st, c);
            },
            OpType::Tag { .. } => {
                lemma_leaf_node_grows(reg, h, st, c);
            },
            OpType::LoadConstant { .. } => {
                lemma_leaf_node_grows(reg, h, st, c);
            },
            OpType::Extension(_) => {
                lemma_leaf_node_grows(reg, h, st, c);
            },
            _ => {},
        }
    }
}

/// Joining the cases that are laid out gives the conditional its shape.
pub proof fn lemma_joined(
    st: FuncState,
    st3: FuncState,
    laid: FuncState,
    c: usize,
    b: nat,
    on: OperandView,
    targets: Seq<nat>,
    ends: Seq<nat>,
    base: nat,
    count: nat,
)
    requires
        grows(st, st3),
        b == st3.blocks.len(),
        c < st.bound.len(),
        base + count <= st3.slots.len(),
        extends(st3.close(TerminatorView::Unreachable), laid),
        cases_laid(b + 1, targets, ends, laid, base, count),
    ensures
        extends(st, join(laid, b, on, targets, ends).bind(c as int, base)),
        conditional_shape(st, join(laid, b, on, targets, ends).bind(c as int, base), c, targets.len(), count),
{
    let st4 = st3.close(TerminatorView::Unreachable);
    let m = laid.blocks.len();
    let switched = laid.retarget(b as int, TerminatorView::Switch(on, targets));
    let joined = join(laid, b, on, targets, ends);
    let st2 = joined.bind(c as int, base);
    lemma_branch_all(switched, ends, m, 0);
    assert(laid.blocks[b as int] == st4.blocks[b as int]);
    assert forall|j: int| 0 <= j < ends.len() implies b < #[trigger] ends[j] by {
        assert(case_laid(b + 1, targets, ends, laid, base, count, j));
    }
    assert(!is_end(ends, 0, b as int));
    assert forall|x: int| 0 <= x < st.blocks.len() implies #[trigger] st2.blocks[x] == st.blocks[x] by {
        assert(st3.blocks[x] == st.blocks[x]);
        assert(st4.blocks[x] == st3.blocks[x]);
        assert(laid.blocks[x] == st4.blocks[x]);
        assert(!is_end(ends, 0, x));
        assert(joined.blocks[x].instrs == switched.blocks[x].instrs);
    }
    assert forall|x: int| 0 <= x < st.slots.len() implies #[trigger] st2.slots[x] == st.slots[x] by {
        assert(st3.slots[x] == st.slots[x]);
        assert(st4.slots[x] == st3.slots[x]);
        assert(laid.slots[x] == st4.slots[x]);
    }
    assert forall|i: int| 0 <= i < targets.len() implies #[trigger] case_shape(
        st2,
        targets,
        i,
        b as int,
        m as int,
        base,
        count,
    ) by {
        assert(case_laid(b + 1, targets, ends, laid, base, count, i));
        if i + 1 < targets.len() {
            assert(case_laid(b + 1, targets, ends, laid, base, count, i + 1));
        }
        let last = case_last(targets, m as int, i);
        assert(last == ends[i]);
        assert(is_end(ends, 0, last));
        assert(joined.blocks[last].instrs == switched.blocks[last].instrs);
    }
}

/// The last block of case `i` of a conditional whose cases start at the
/// blocks `targets` and whose merge block is `m`: the block before the
/// entry of the next case, or before the merge block.
pub open spec fn case_last(targets: Seq<nat>, m: int, i: int) -> int {
    if i + 1 < targets.len() {
        targets[i + 1] - 1
    } else {
        m - 1
    }
}

/// Whether case `i` of a conditional lies as it should: its blocks are
/// those from its entry to its last block, after the block `b` that
/// dispatches and before the merge block `m`; its last block stores each
/// of the `count` outputs of the conditional into the slots from `base`
/// on, and then branches to the merge block.
pub open spec fn case_shape(st: FuncState, targets: Seq<nat>, i: int, b: int, m: int, base: nat, count: nat) -> bool {
    let last = case_last(targets, m, i);
    &&& b < targets[i] <= last < m
    &&& (i == 0 ==> targets[i] == b + 1)
    &&& st.blocks[last].term == TerminatorView::Br(m as nat)
    &&& ends_with_stores(st.blocks[last].instrs, base, count)
}

/// Whether the state `st2` holds a conditional over `variants` variants
/// with `count` outputs, emitted from the state `st` for the node `c`:
/// the block that was open dispatches on the discriminant to exactly one
/// entry block for each variant, without a default; the cases lie one
/// after the other in the order of the variants; the merge block is the
/// open block, and is empty; and the outputs of the conditional are bound
/// to slots that every case has stored into.
pub open spec fn conditional_shape(st: FuncState, st2: FuncState, c: usize, variants: nat, count: nat) -> bool {
    let b = st.blocks.len() as int;
    let m = st2.blocks.len() as int;
    &&& extends(st, st2)
    &&& st2.cur.len() == 0
    &&& b < m
    &&& st2.blocks[b].term matches TerminatorView::Switch(on, targets)
    &&& targets.len() == variants
    &&& (variants == 0 ==> m == b + 1)
    &&& c < st2.bound.len()
    &&& st2.bound[c as int] matches Some(base)
    &&& base + count <= st2.slots.len()
    &&& forall|i: int| 0 <= i < variants ==> #[trigger] case_shape(st2, targets, i, b, m, base, count)
}

/// A conditional over a sum of `N` variants emits exactly `N` case
/// blocks and one merge block, and every output of the conditional is
/// stored by every case before the merge block is reached.
pub proof fn lemma_conditional_shape<L: ExtensionLowering>(
    reg: ExtensionOpRegistry<L>,
    h: Hugr,
    st: FuncState,
    c: usize,
)
    ensures
        conditional_code(reg, h, st, c) matches Ok(st2) ==> {
            &&& extends(st, st2)
            &&& h.nodes[c as int].op matches OpType::Conditional { sum_rows, other_inputs, outputs }
            &&& conditional_shape(st, st2, c, sum_rows@.len(), outputs@.len())
        },
    decreases h.nodes@.len() - c, 5nat, 0nat,
{
    match h.nodes[c as int].op {
        OpType::Conditional { sum_rows, other_inputs, outputs } => {
            let wires = h.nodes[c as int].inputs@;
            let children = h.nodes[c as int].children@;
            if wires.len() == 1 + other_inputs@.len() && children.len() == sum_rows@.len() && c < st.bound.len() {
                let ws = seq![wires[0]];
                let ts = seq![TypeView::Sum(type_rows_view(sum_rows))];
                lemma_load_grows(reg, h, st, c, ws, ts, 0, ValuesView::empty());
                match load_inputs(reg, h, st, c, ws, ts) {
                    Err(e) => {},
                    Ok((st1, v)) => {
                        lemma_discriminant_grows(st1, c, v);
                        match discriminant(st1, c, v) {
                            Err(e) => {},
                            Ok((st2, on)) => {
                                lemma_type_row_view(outputs);
                                lemma_alloc_grows(reg, st2, type_row_view(outputs), 0);
                                match alloc_slots_from(reg, st2, type_row_view(outputs), 0) {
                                    Err(e) => {},
                                    Ok(st3) => {
                                        let st4 = st3.close(TerminatorView::Unreachable);
                                        let base = st2.slots.len();
                                        let b = st3.blocks.len();
                                        let count = outputs@.len();
                                        let first = st4.blocks.len();
                                        assert(op_outputs(h.nodes[c as int].op).len() == count);
                                        assert(cases_laid(first, Seq::empty(), Seq::empty(), st4, base, count));
                                        lemma_cases_shape(reg, h, st4, c, base, 0, Seq::empty(), Seq::empty(), first);
                                        match cases_code_from(reg, h, st4, c, base, 0, Seq::empty(), Seq::empty()) {
                                            Err(e) => {},
                                            Ok(cases) => {
                                                lemma_joined(st, st3, cases.st, c, b, on, cases.targets, cases.ends, base, count);
                                            },
                                        }
                                    },
                                }
                            },
                        }
                    },
                }
            }
        },
        _ => {},
    }
}

} // verus!

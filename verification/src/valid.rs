//! The emitted module is valid: regions, conditionals and functions keep
//! the state sound, so that the verification gate never closes on what
//! emission has built.
use vstd::prelude::*;
use crate::layout::Layout;
use crate::ir::InstrView;
use crate::ir::OperandView;
use crate::ir::TerminatorView;
use crate::ir::FunctionView;
use crate::ir::block_ok;
use crate::ir::operand_layout;
use crate::types::TypeView;
use crate::types::type_row_view;
use crate::types::type_rows_view;
use crate::types::lemma_type_row_view;
use crate::ops::OpType;
use crate::ops::op_inputs;
use crate::ops::op_outputs;
use crate::hugr::Hugr;
use crate::extension::ExtensionLowering;
use crate::extension::ExtensionOpRegistry;
use crate::convert::convert_row;
use crate::schedule::schedule;
use crate::state::FuncState;
use crate::state::ValuesView;
use crate::wires::load_inputs;
use crate::wires::bind_outputs;
use crate::wires::store_values_from;
use crate::wires::alloc_slots_from;
use crate::region::region_boundary;
use crate::region::region_body;
use crate::region::discriminant;
use crate::region::case_inputs;
use crate::region::join;
use crate::region::nodes_code_from;
use crate::region::region_code;
use crate::region::case_code;
use crate::region::cases_code_from;
use crate::region::conditional_code;
use crate::region::node_code;
use crate::region::LoopSlots;
use crate::region::loop_entry;
use crate::region::loop_round;
use crate::region::loop_exit;
use crate::region::loop_code;
use crate::region::load_slots_from;
use crate::region::move_yield;
use crate::region::first_of;
use crate::region::yields_count;
use crate::ops::loop_yields;
use crate::frame::lemma_move_yield_grows;
use crate::shape::lemma_loop_round_extends;
use crate::sound::lemma_load_slots_sound;
use crate::sound::lemma_move_yield_sound;
use crate::sound::lemma_grows_typed;
use crate::emit::param_values;
use crate::emit::return_layout;
use crate::emit::function_code;
use crate::emit::functions_code_from;
use crate::emit::module_draft;
use crate::emit::module_code;
use crate::frame::lemma_alloc_grows;
use crate::frame::lemma_store_grows;
use crate::shape::cases_laid;
use crate::shape::case_laid;
use crate::shape::lemma_cases_shape;
use crate::shape::lemma_region_extends;
use crate::sound::sound;
use crate::sound::typed;
use crate::sound::closed_ok;
use crate::sound::lemma_empty_typed;
use crate::sound::lemma_load_sound;
use crate::sound::lemma_store_sound;
use crate::sound::lemma_alloc_sound;
use crate::sound::lemma_bind_sound;
use crate::sound::lemma_leaf_node_sound;
use crate::sound::lemma_discriminant_sound;
use crate::sound::lemma_case_inputs_sound;
use crate::sound::lemma_close_sound;
use crate::sound::lemma_retarget_sound;
use crate::sound::lemma_branch_all_sound;
use crate::sound::lemma_push_sound;

verus! {

/// The nodes of a region leave the state sound.
pub proof fn lemma_nodes_sound<L: ExtensionLowering>(
    reg: ExtensionOpRegistry<L>,
    h: Hugr,
    st: FuncState,
    parent: usize,
    order: Seq<usize>,
    k: nat,
)
    requires
        sound(st),
    ensures
        nodes_code_from(reg, h, st, parent, order, k) matches Ok(st2) ==> sound(st2),
    decreases h.nodes@.len() - parent, 2nat, order.len() - k,
{
    if k < order.len() {
        let c = order[k as int];
        if parent < c < h.nodes@.len() {
            lemma_node_sound(reg, h, st, c);
            match node_code(reg, h, st, c) {
                Err(e) => {},
                Ok(st1) => {
                    lemma_nodes_sound(reg, h, st1, parent, order, k + 1);
                },
            }
        }
    }
}

/// A region that is given typed values leaves the state sound and yields
/// typed values.
pub proof fn lemma_region_sound<L: ExtensionLowering>(
    reg: ExtensionOpRegistry<L>,
    h: Hugr,
    st: FuncState,
    parent: usize,
    inputs: ValuesView,
)
    requires
        sound(st),
        typed(st, inputs),
    ensures
        region_code(reg, h, st, parent, inputs) matches Ok((st2, outs)) ==> sound(st2) && typed(st2, outs),
    decreases h.nodes@.len() - parent, 3nat, 0nat,
{
    match region_boundary(h, parent) {
        Err(e) => {},
        Ok((inp, out)) => {
            lemma_bind_sound(reg, st, inp, op_outputs(h.nodes[inp as int].op), inputs);
            match bind_outputs(reg, st, inp, op_outputs(h.nodes[inp as int].op), inputs) {
                Err(e) => {},
                Ok(st1) => match schedule(h, inp, region_body(h, parent)) {
                    None => {},
                    Some(order) => {
                        lemma_nodes_sound(reg, h, st1, parent, order, 0);
                        match nodes_code_from(reg, h, st1, parent, order, 0) {
                            Err(e) => {},
                            Ok(st2) => {
                                lemma_empty_typed(st2);
                                lemma_load_sound(
                                    reg,
                                    h,
                                    st2,
                                    out,
                                    h.nodes[out as int].inputs@,
                                    op_inputs(h.nodes[out as int].op),
                                    0,
                                    ValuesView::empty(),
                                );
                            },
                        }
                    },
                },
            }
        },
    }
}

/// One case leaves the state sound.
pub proof fn lemma_case_sound<L: ExtensionLowering>(
    reg: ExtensionOpRegistry<L>,
    h: Hugr,
    st: FuncState,
    c: usize,
    base: nat,
    i: nat,
)
    requires
        sound(st),
    ensures
        case_code(reg, h, st, c, base, i) matches Ok(done) ==> sound(done.st),
    decreases h.nodes@.len() - c, 4nat, 0nat,
{
    let children = h.nodes[c as int].children@;
    let op = h.nodes[c as int].op;
    if i < children.len() {
        let child = children[i as int];
        if c < child < h.nodes@.len() && h.nodes[child as int].op is Case {
            lemma_empty_typed(st);
            lemma_load_sound(reg, h, st, c, h.nodes[c as int].inputs@, op_inputs(op), 0, ValuesView::empty());
            match load_inputs(reg, h, st, c, h.nodes[c as int].inputs@, op_inputs(op)) {
                Err(e) => {},
                Ok((st1, vals)) => {
                    lemma_case_inputs_sound(st1, c, i, vals);
                    match case_inputs(st1, c, i, vals) {
                        Err(e) => {},
                        Ok((st2, ins)) => {
                            lemma_region_sound(reg, h, st2, child, ins);
                            match region_code(reg, h, st2, child, ins) {
                                Err(e) => {},
                                Ok((st3, outs)) => if outs.operands.len() == op_outputs(op).len() {
                                    lemma_store_sound(st3, child, base, outs, 0);
                                    match store_values_from(st3, child, base, outs, 0) {
                                        Err(e) => {},
                                        Ok(st4) => {
                                            lemma_close_sound(st4, TerminatorView::Unreachable);
                                        },
                                    }
                                },
                            }
                        },
                    }
                },
            }
        }
    }
}

/// The cases of a conditional leave the state sound.
pub proof fn lemma_cases_sound<L: ExtensionLowering>(
    reg: ExtensionOpRegistry<L>,
    h: Hugr,
    st: FuncState,
    c: usize,
    base: nat,
    i: nat,
    targets: Seq<nat>,
    ends: Seq<nat>,
)
    requires
        sound(st),
    ensures
        cases_code_from(reg, h, st, c, base, i, targets, ends) matches Ok(cases) ==> sound(cases.st),
    decreases h.nodes@.len() - c, 4nat, 1 + h.nodes[c as int].children@.len() - i,
{
    if i < h.nodes[c as int].children@.len() {
        lemma_case_sound(reg, h, st, c, base, i);
        match case_code(reg, h, st, c, base, i) {
            Err(e) => {},
            Ok(done) => {
                lemma_cases_sound(reg, h, done.st, c, base, i + 1, targets.push(done.entry), ends.push(done.end));
            },
        }
    }
}

/// Joining cases that are laid out in a sound state leaves it sound.
pub proof fn lemma_joined_sound(
    laid: FuncState,
    c: usize,
    b: nat,
    on: OperandView,
    targets: Seq<nat>,
    ends: Seq<nat>,
    base: nat,
    count: nat,
)
    requires
        sound(laid),
        b < laid.blocks.len(),
        operand_layout(laid.params, laid.blocks[b as int].instrs, on) matches Some(Layout::Int(_)),
        cases_laid(b + 1, targets, ends, laid, base, count),
    ensures
        sound(join(laid, b, on, targets, ends).bind(c as int, base)),
{
    let t = TerminatorView::Switch(on, targets);
    assert forall|j: int| 0 <= j < targets.len() implies (#[trigger] targets[j]) < laid.blocks.len() + 1 by {
        assert(case_laid(b + 1, targets, ends, laid, base, count, j));
    }
    lemma_retarget_sound(laid, b as int, t);
    let switched = laid.retarget(b as int, t);
    lemma_branch_all_sound(switched, ends, laid.blocks.len(), 0);
    let joined = join(laid, b, on, targets, ends);
    let st2 = joined.bind(c as int, base);
    assert forall|x: int| 0 <= x < st2.blocks.len() implies #[trigger] closed_ok(st2, x) by {
        assert(closed_ok(joined, x));
    }
}

/// A conditional leaves the state sound.
pub proof fn lemma_conditional_sound<L: ExtensionLowering>(
    reg: ExtensionOpRegistry<L>,
    h: Hugr,
    st: FuncState,
    c: usize,
)
    requires
        sound(st),
    ensures
        conditional_code(reg, h, st, c) matches Ok(st2) ==> sound(st2),
    decreases h.nodes@.len() - c, 5nat, 0nat,
{
    match h.nodes[c as int].op {
        OpType::Conditional { sum_rows, other_inputs, outputs } => {
            let wires = h.nodes[c as int].inputs@;
            let children = h.nodes[c as int].children@;
            if wires.len() == 1 + other_inputs@.len() && children.len() == sum_rows@.len() && c < st.bound.len() {
                let ws = seq![wires[0]];
                let ts = seq![TypeView::Sum(type_rows_view(sum_rows))];
                lemma_empty_typed(st);
                lemma_load_sound(reg, h, st, c, ws, ts, 0, ValuesView::empty());
                match load_inputs(reg, h, st, c, ws, ts) {
                    Err(e) => {},
                    Ok((st1, v)) => {
                        lemma_discriminant_sound(st1, c, v);
                        match discriminant(st1, c, v) {
                            Err(e) => {},
                            Ok((st2, on)) => {
                                lemma_type_row_view(outputs);
                                lemma_alloc_sound(reg, st2, type_row_view(outputs), 0);
                                lemma_alloc_grows(reg, st2, type_row_view(outputs), 0);
                                match alloc_slots_from(reg, st2, type_row_view(outputs), 0) {
                                    Err(e) => {},
                                    Ok(st3) => {
                                        let st4 = st3.close(TerminatorView::Unreachable);
                                        lemma_close_sound(st3, TerminatorView::Unreachable);
                                        let base = st2.slots.len();
                                        let b = st3.blocks.len();
                                        let count = outputs@.len();
                                        let first = st4.blocks.len();
                                        assert(op_outputs(h.nodes[c as int].op).len() == count);
                                        assert(cases_laid(first, Seq::empty(), Seq::empty(), st4, base, count));
                                        lemma_cases_shape(reg, h, st4, c, base, 0, Seq::empty(), Seq::empty(), first);
                                        lemma_cases_sound(reg, h, st4, c, base, 0, Seq::empty(), Seq::empty());
                                        match cases_code_from(reg, h, st4, c, base, 0, Seq::empty(), Seq::empty()) {
                                            Err(e) => {},
                                            Ok(cases) => {
                                                assert(cases.st.blocks[b as int] == st4.blocks[b as int]);
                                                assert(st4.blocks[b as int].instrs == st2.cur);
                                                lemma_joined_sound(
                                                    cases.st,
                                                    c,
                                                    b,
                                                    on,
                                                    cases.targets,
                                                    cases.ends,
                                                    base,
                                                    count,
                                                );
                                            },
                                        }
                                    },
                                }
                            },
                        }
                    },
                }
            }
        },
        _ => {},
    }
}

/// The entry of a loop leaves the state sound.
pub proof fn lemma_loop_entry_sound<L: ExtensionLowering>(reg: ExtensionOpRegistry<L>, h: Hugr, st: FuncState, n: usize)
    requires
        sound(st),
    ensures
        loop_entry(reg, h, st, n) matches Ok(slots) ==> sound(slots.st),
{
    match h.nodes[n as int].op {
        OpType::TailLoop { just_inputs, just_outputs, rest } => {
            let op = h.nodes[n as int].op;
            if n < st.bound.len() {
                lemma_empty_typed(st);
                lemma_load_sound(reg, h, st, n, h.nodes[n as int].inputs@, op_inputs(op), 0, ValuesView::empty());
                match load_inputs(reg, h, st, n, h.nodes[n as int].inputs@, op_inputs(op)) {
                    Err(e) => {},
                    Ok((st1, vals)) => {
                        lemma_alloc_sound(reg, st1, op_inputs(op), 0);
                        lemma_alloc_grows(reg, st1, op_inputs(op), 0);
                        match alloc_slots_from(reg, st1, op_inputs(op), 0) {
                            Err(e) => {},
                            Ok(st2) => {
                                assert(typed(st2, vals));
                                lemma_store_sound(st2, n, st1.slots.len(), vals, 0);
                                match store_values_from(st2, n, st1.slots.len(), vals, 0) {
                                    Err(e) => {},
                                    Ok(st3) => {
                                        lemma_alloc_sound(reg, st3, op_outputs(op), 0);
                                        match alloc_slots_from(reg, st3, op_outputs(op), 0) {
                                            Err(e) => {},
                                            Ok(st4) => {
                                                let yields = loop_yields(
                                                    type_row_view(just_inputs),
                                                    type_row_view(just_outputs),
                                                    type_row_view(rest),
                                                );
                                                lemma_alloc_sound(reg, st4, yields, 0);
                                                match alloc_slots_from(reg, st4, yields, 0) {
                                                    Err(e) => {},
                                                    Ok(st5) => {
                                                        lemma_close_sound(st5, TerminatorView::Br(st5.blocks.len() + 1));
                                                    },
                                                }
                                            },
                                        }
                                    },
                                }
                            },
                        }
                    },
                }
            }
        },
        _ => {},
    }
}

/// A round of a loop leaves the state sound and yields an integer.
pub proof fn lemma_loop_round_sound<L: ExtensionLowering>(
    reg: ExtensionOpRegistry<L>,
    h: Hugr,
    st: FuncState,
    n: usize,
    round: nat,
    yielded: nat,
)
    requires
        sound(st),
    ensures
        loop_round(reg, h, st, n, round, yielded) matches Ok((st2, on)) ==> sound(st2) && operand_layout(
            st2.params,
            st2.cur,
            on,
        ) matches Some(Layout::Int(_)),
    decreases h.nodes@.len() - n, 4nat, 0nat,
{
    let op = h.nodes[n as int].op;
    lemma_empty_typed(st);
    lemma_load_slots_sound(st, n, round, op_inputs(op).len(), 0, ValuesView::empty());
    match load_slots_from(st, n, round, op_inputs(op).len(), 0, ValuesView::empty()) {
        Err(e) => {},
        Ok((st1, ins)) => {
            lemma_region_sound(reg, h, st1, n, ins);
            match region_code(reg, h, st1, n, ins) {
                Err(e) => {},
                Ok((st2, outs)) => if outs.operands.len() == yields_count(op) {
                    lemma_store_sound(st2, n, yielded, outs, 0);
                    lemma_store_grows(st2, n, yielded, outs, 0);
                    match store_values_from(st2, n, yielded, outs, 0) {
                        Err(e) => {},
                        Ok(st3) => {
                            lemma_grows_typed(st2, st3, outs);
                            assert(typed(st3, first_of(outs))) by {
                                if outs.operands.len() >= 1 && outs.layouts.len() >= 1 {
                                    assert(operand_layout(st3.params, st3.cur, outs.operands[0]) == Some(
                                        outs.layouts[0],
                                    ));
                                }
                            }
                            lemma_discriminant_sound(st3, n, first_of(outs));
                        },
                    }
                },
            }
        },
    }
}

/// The exit of a loop leaves the state sound.
pub proof fn lemma_loop_exit_sound(st: FuncState, n: usize, slots: LoopSlots, count: nat, header: nat, on: OperandView)
    requires
        sound(st),
        operand_layout(st.params, st.cur, on) matches Some(Layout::Int(_)),
        header <= st.blocks.len(),
    ensures
        loop_exit(st, n, slots, count, header, on) matches Ok(st2) ==> sound(st2),
{
    let e = st.blocks.len();
    let st0 = st.close(TerminatorView::Unreachable);
    lemma_close_sound(st, TerminatorView::Unreachable);
    lemma_move_yield_sound(st0, n, slots.yielded, count, 0, slots.round);
    lemma_move_yield_grows(st0, n, slots.yielded, count, 0, slots.round);
    match move_yield(st0, n, slots.yielded, count, 0, slots.round) {
        Err(e) => {},
        Ok(st1) => {
            lemma_close_sound(st1, TerminatorView::Br(header));
            let st1c = st1.close(TerminatorView::Br(header));
            lemma_move_yield_sound(st1c, n, slots.yielded, count, 1, slots.out);
            lemma_move_yield_grows(st1c, n, slots.yielded, count, 1, slots.out);
            match move_yield(st1c, n, slots.yielded, count, 1, slots.out) {
                Err(e) => {},
                Ok(st2) => {
                    lemma_close_sound(st2, TerminatorView::Br(st2.blocks.len() + 1));
                    let st2c = st2.close(TerminatorView::Br(st2.blocks.len() + 1));
                    assert(st1.blocks[e as int] == st0.blocks[e as int]);
                    assert(st2.blocks[e as int] == st1c.blocks[e as int]);
                    assert(st2c.blocks[e as int].instrs == st.cur);
                    let targets = seq![e + 1, e + 2];
                    assert(targets[0] == e + 1 && targets[1] == e + 2);
                    lemma_retarget_sound(st2c, e as int, TerminatorView::Switch(on, targets));
                },
            }
        },
    }
}

/// A loop leaves the state sound.
pub proof fn lemma_loop_sound<L: ExtensionLowering>(reg: ExtensionOpRegistry<L>, h: Hugr, st: FuncState, n: usize)
    requires
        sound(st),
    ensures
        loop_code(reg, h, st, n) matches Ok(st2) ==> sound(st2),
    decreases h.nodes@.len() - n, 5nat, 0nat,
{
    lemma_loop_entry_sound(reg, h, st, n);
    match loop_entry(reg, h, st, n) {
        Err(e) => {},
        Ok(slots) => {
            lemma_loop_round_sound(reg, h, slots.st, n, slots.round, slots.yielded);
            lemma_loop_round_extends(reg, h, slots.st, n, slots.round, slots.yielded);
            match loop_round(reg, h, slots.st, n, slots.round, slots.yielded) {
                Err(e) => {},
                Ok((st1, on)) => {
                    let count = yields_count(h.nodes[n as int].op);
                    lemma_loop_exit_sound(st1, n, slots, count, slots.st.blocks.len(), on);
                    match loop_exit(st1, n, slots, count, slots.st.blocks.len(), on) {
                        Err(e) => {},
                        Ok(st2) => {
                            let st3 = st2.bind(n as int, slots.out);
                            assert forall|b: int| 0 <= b < st3.blocks.len() implies #[trigger] closed_ok(st3, b) by {
                                assert(closed_ok(st2, b));
                            }
                        },
                    }
                },
            }
        },
    }
}

/// A node leaves the state sound.
pub proof fn lemma_node_sound<L: ExtensionLowering>(reg: ExtensionOpRegistry<L>, h: Hugr, st: FuncState, c: usize)
    requires
        sound(st),
    ensures
        node_code(reg, h, st, c) matches Ok(st2) ==> sound(st2),
    decreases h.nodes@.len() - c, 6nat, 0nat,
{
    if c < h.nodes@.len() {
        let op = h.nodes[c as int].op;
        match op {
            OpType::Dfg { signature } => {
                lemma_empty_typed(st);
                lemma_load_sound(reg, h, st, c, h.nodes[c as int].inputs@, op_inputs(op), 0, ValuesView::empty());
                match load_inputs(reg, h, st, c, h.nodes[c as int].inputs@, op_inputs(op)) {
                    Err(e) => {},
                    Ok((st1, vals)) => {
                        lemma_region_sound(reg, h, st1, c, vals);
                        match region_code(reg, h, st1, c, vals) {
                            Err(e) => {},
                            Ok((st2, outs)) => {
                                lemma_bind_sound(reg, st2, c, op_outputs(op), outs);
                            },
                        }
                    },
                }
            },
            OpType::Conditional { .. } => {
                lemma_conditional_sound(reg, h, st, c);
            },
            OpType::TailLoop { .. } => {
                lemma_loop_sound(reg, h, st, c);
            },
            OpType::MakeTuple { .. } => {
                lemma_leaf_node_sound(reg, h, st, c);
            },
            OpType::UnpackTuple { .. } => {
                lemma_leaf_node_sound(reg, h, st, c);
            },
            OpType::Tag { .. } => {
                lemma_leaf_node_sound(reg, h, st, c);
            },
            OpType::LoadConstant { .. } => {
                lemma_leaf_node_sound(reg, h, st, c);
            },
            OpType::Extension(_) => {
                lemma_leaf_node_sound(reg, h, st, c);
            },
            _ => {},
        }
    }
}

/// A sound state whose open block is closed by a return of the right
/// layout is a valid function.
pub proof fn lemma_returned_valid(st: FuncState, name: Seq<char>, ret: Layout, v: OperandView)
    requires
        sound(st),
        operand_layout(st.params, st.cur, v) == Some(ret),
    ensures
        (FunctionView {
            name,
            params: st.params,
            ret,
            slots: st.slots,
            blocks: st.close(TerminatorView::Ret(v)).blocks,
        }).valid(),
{
    let f = FunctionView { name, params: st.params, ret, slots: st.slots, blocks: st.close(TerminatorView::Ret(v)).blocks };
    assert forall|b: int| 0 <= b < f.blocks.len() implies block_ok(
        f.slots,
        f.params,
        f.ret,
        f.blocks.len(),
        #[trigger] f.blocks[b],
    ) by {
        if b < st.blocks.len() {
            assert(closed_ok(st, b));
            assert(f.blocks[b] == st.blocks[b]);
        }
    }
}

/// Every function that emission yields is valid.
pub proof fn lemma_function_valid<L: ExtensionLowering>(reg: ExtensionOpRegistry<L>, h: Hugr, fnode: usize)
    ensures
        function_code(reg, h, fnode) matches Ok(f) ==> f.valid(),
{
    if fnode < h.nodes@.len() {
        match h.nodes[fnode as int].op {
            OpType::FuncDefn { name, signature } => match convert_row(reg.types@, type_row_view(signature.input)) {
                Err(e) => {},
                Ok(params) => match convert_row(reg.types@, type_row_view(signature.output)) {
                    Err(e) => {},
                    Ok(results) => {
                        let st0 = FuncState::start(params, h.nodes@.len());
                        assert(sound(st0));
                        assert(typed(st0, param_values(params)));
                        lemma_region_sound(reg, h, st0, fnode, param_values(params));
                        lemma_region_extends(reg, h, st0, fnode, param_values(params));
                        match region_code(reg, h, st0, fnode, param_values(params)) {
                            Err(e) => {},
                            Ok((st, outs)) => if !(outs.layouts != results || outs.operands.len() != results.len()) {
                                let ret = return_layout(results);
                                if results.len() == 1 {
                                    assert(operand_layout(st.params, st.cur, outs.operands[0]) == Some(
                                        outs.layouts[0],
                                    ));
                                    lemma_returned_valid(st, name@, ret, outs.operands[0]);
                                } else {
                                    let instr = InstrView::MakeStruct { ty: ret, fields: outs.operands };
                                    lemma_push_sound(st, instr);
                                    lemma_returned_valid(st.push(instr), name@, ret, OperandView::Local(st.cur.len()));
                                }
                            },
                        }
                    },
                },
            },
            _ => {},
        }
    }
}

/// Whether every function of a list is valid.
pub open spec fn all_valid(fs: Seq<FunctionView>) -> bool {
    forall|i: int| 0 <= i < fs.len() ==> (#[trigger] fs[i]).valid()
}

pub proof fn lemma_functions_valid<L: ExtensionLowering>(
    reg: ExtensionOpRegistry<L>,
    h: Hugr,
    children: Seq<usize>,
    i: nat,
    acc: Seq<FunctionView>,
)
    requires
        all_valid(acc),
    ensures
        functions_code_from(reg, h, children, i, acc) matches Ok(fs) ==> all_valid(fs),
    decreases children.len() - i,
{
    if i < children.len() {
        lemma_function_valid(reg, h, children[i as int]);
        match function_code(reg, h, children[i as int]) {
            Err(e) => {},
            Ok(f) => {
                let acc1 = acc.push(f);
                assert forall|k: int| 0 <= k < acc1.len() implies (#[trigger] acc1[k]).valid() by {
                    if k < acc.len() {
                        assert(acc1[k] == acc[k]);
                    }
                }
                lemma_functions_valid(reg, h, children, i + 1, acc1);
            },
        }
    }
}

/// Validity by construction: the module that emission builds is
/// structurally valid, whatever the graph and the registry. So the
/// verification gate never closes on it: emission yields what it has
/// built, and fails only where building fails.
pub proof fn law_gate_never_closes<L: ExtensionLowering>(reg: ExtensionOpRegistry<L>, h: Hugr)
    ensures
        module_draft(reg, h) matches Ok(m) ==> m.valid(),
        module_code(reg, h) == module_draft(reg, h),
{
    if h.nodes@.len() > 0 && h.nodes[0].op is Module {
        lemma_functions_valid(reg, h, h.nodes[0].children@, 0, Seq::empty());
    }
}

} // verus!

//! The region scheduler and the lowering of structured control: how the
//! nodes of a region, and the regions nested in them, become instructions
//! and basic blocks.
use vstd::prelude::*;
use crate::layout::Layout;
use crate::layout::TargetType;
use crate::layout::row_view;
use crate::layout::lemma_row_view;
use crate::layout::lemma_rows_view;
use crate::ir::nats;
use crate::ir::Operand;
use crate::ir::OperandView;
use crate::ir::Instr;
use crate::ir::InstrView;
use crate::ir::Terminator;
use crate::ir::TerminatorView;
use crate::types::Type;
use crate::types::TypeView;
use crate::types::type_row_view;
use crate::types::type_rows_view;
use crate::types::type_rows_duplicate;
use crate::types::lemma_type_row_view;
use crate::ops::OpType;
use crate::ops::op_inputs;
use crate::ops::op_outputs;
use crate::ops::loop_yields;
use crate::ops::loop_yield_types;
use crate::hugr::Hugr;
use crate::hugr::Wire;
use crate::extension::ExtensionLowering;
use crate::extension::ExtensionOpRegistry;
use crate::context::EmitContext;
use crate::schedule::schedule;
use crate::schedule::is_done;
use crate::schedule::wires_done;
use crate::types::type_row_same;
use crate::types::type_row_concat;
use crate::types::type_row_duplicate;
use crate::schedule::compute_schedule;
use crate::state::FuncState;
use crate::state::FuncEmitter;
use crate::state::Values;
use crate::state::ValuesView;
use crate::wires::agrees;
use crate::wires::agrees_unit;
use crate::wires::load_inputs;
use crate::wires::bind_outputs;
use crate::wires::store_values_from;
use crate::wires::alloc_slots_from;
use crate::wires::emit_loads;
use crate::wires::emit_outputs;
use crate::wires::emit_stores;
use crate::wires::emit_slots;
use crate::leaf::make_tuple;
use crate::leaf::unpack_tuple;
use crate::leaf::make_tag;
use crate::leaf::load_constant;
use crate::leaf::extension_op;
use crate::leaf::emit_make_tuple;
use crate::leaf::emit_unpack_tuple;
use crate::leaf::emit_tag;
use crate::leaf::emit_load_constant;
use crate::leaf::emit_extension_op;
use crate::error::EmitError;
use crate::error::EmitErrorView;
use crate::error::Malformation;

verus! {

/// Whether `x` is a node that comes after `parent` and has `parent` as
/// its parent.
pub open spec fn child_of(h: Hugr, parent: usize, x: usize) -> bool {
    parent < x < h.nodes@.len() && h.nodes[x as int].parent == parent
}

/// Whether the node at position `i` of `children` stands at no earlier
/// position.
pub open spec fn first_listing(children: Seq<usize>, i: nat) -> bool {
    forall|j: int| 0 <= j < i ==> children[j] != children[i as int]
}

/// The input node and the output node of the region that `parent` owns:
/// its first two children.
pub open spec fn region_boundary(h: Hugr, parent: usize) -> Result<(usize, usize), EmitErrorView> {
    let n = h.nodes@.len();
    if parent >= n {
        Err(EmitErrorView::Malformed(parent, Malformation::BadNode))
    } else {
        let ch = h.nodes[parent as int].children@;
        if ch.len() < 2 {
            Err(EmitErrorView::Malformed(parent, Malformation::MissingBoundary))
        } else if !(parent < ch[0] < n && parent < ch[1] < n) {
            Err(EmitErrorView::Malformed(parent, Malformation::BadNode))
        } else if !(h.nodes[ch[0] as int].op is Input && h.nodes[ch[1] as int].op is Output) {
            Err(EmitErrorView::Malformed(parent, Malformation::MissingBoundary))
        } else {
            Ok((ch[0], ch[1]))
        }
    }
}

/// The nodes of the region that `parent` owns, without its input and
/// output node, in sibling order.
pub open spec fn region_body(h: Hugr, parent: usize) -> Seq<usize> {
    let ch = h.nodes[parent as int].children@;
    ch.subrange(2, ch.len() as int)
}

/// What a node without children yields for its input values.
pub open spec fn leaf_values<L: ExtensionLowering>(
    reg: ExtensionOpRegistry<L>,
    st: FuncState,
    node: usize,
    op: OpType,
    vals: ValuesView,
) -> Result<(FuncState, ValuesView), EmitErrorView> {
    match op {
        OpType::MakeTuple { tys } => make_tuple(st, vals),
        OpType::UnpackTuple { tys } => unpack_tuple(st, node, vals),
        OpType::Tag { tag, variants } => make_tag(reg, st, node, tag, type_rows_view(variants), vals),
        OpType::LoadConstant { value } => load_constant(reg, st, node, value),
        OpType::Extension(e) => extension_op(reg, st, node, e, vals),
        _ => Err(EmitErrorView::Malformed(node, Malformation::UnexpectedOp)),
    }
}

/// A node without children: its inputs are loaded, its operation is
/// lowered, and its outputs are bound.
pub open spec fn leaf_node<L: ExtensionLowering>(reg: ExtensionOpRegistry<L>, h: Hugr, st: FuncState, node: usize) -> Result<
    FuncState,
    EmitErrorView,
> {
    let op = h.nodes[node as int].op;
    match load_inputs(reg, h, st, node, h.nodes[node as int].inputs@, op_inputs(op)) {
        Err(e) => Err(e),
        Ok((st1, vals)) => match leaf_values(reg, st1, node, op, vals) {
            Err(e) => Err(e),
            Ok((st2, outs)) => bind_outputs(reg, st2, node, op_outputs(op), outs),
        },
    }
}

/// The discriminant of a sum value: the value itself where the sum has no
/// fields, else what one instruction reads from the tagged union.
pub open spec fn discriminant(st: FuncState, node: usize, v: ValuesView) -> Result<(FuncState, OperandView), EmitErrorView> {
    if v.operands.len() != 1 || v.layouts.len() != 1 {
        Err(EmitErrorView::Malformed(node, Malformation::Arity))
    } else {
        match v.layouts[0] {
            Layout::Int(_) => Ok((st, v.operands[0])),
            Layout::Union(bits, _) => Ok(
                (
                    st.push(InstrView::GetTag { ty: Layout::Int(bits), value: v.operands[0] }),
                    OperandView::Local(st.cur.len()),
                ),
            ),
            _ => Err(EmitErrorView::Malformed(node, Malformation::TypeMismatch)),
        }
    }
}

/// The reads of the fields of `fields` from position `k` on out of the
/// payload of `value`, taken as variant `tag`.
pub open spec fn variant_fields_from(
    st: FuncState,
    value: OperandView,
    tag: nat,
    fields: Seq<Layout>,
    k: nat,
    acc: ValuesView,
) -> (FuncState, ValuesView)
    decreases fields.len() - k,
{
    if k >= fields.len() {
        (st, acc)
    } else {
        variant_fields_from(
            st.push(InstrView::VariantField { ty: fields[k as int], value, tag, index: k }),
            value,
            tag,
            fields,
            k + 1,
            acc.push(OperandView::Local(st.cur.len()), fields[k as int]),
        )
    }
}

/// `acc` and the values of `vals` from position `k` on.
pub open spec fn with_rest(acc: ValuesView, vals: ValuesView, k: nat) -> ValuesView
    decreases vals.operands.len() - k,
{
    if k >= vals.operands.len() || k >= vals.layouts.len() {
        acc
    } else {
        with_rest(acc.push(vals.operands[k as int], vals.layouts[k as int]), vals, k + 1)
    }
}

/// The inputs of case `i` of a conditional whose inputs are `vals`: the
/// fields of variant `i` of the sum value, read from its payload, then
/// the other inputs unchanged.
pub open spec fn case_inputs(st: FuncState, node: usize, i: nat, vals: ValuesView) -> Result<
    (FuncState, ValuesView),
    EmitErrorView,
> {
    if vals.operands.len() < 1 || vals.layouts.len() < 1 {
        Err(EmitErrorView::Malformed(node, Malformation::Arity))
    } else {
        match vals.layouts[0] {
            Layout::Int(_) => Ok((st, with_rest(ValuesView::empty(), vals, 1))),
            Layout::Union(_, vs) => if i >= vs.len() {
                Err(EmitErrorView::Malformed(node, Malformation::CaseCount))
            } else {
                let (st1, fields) = variant_fields_from(st, vals.operands[0], i, vs[i as int], 0, ValuesView::empty());
                Ok((st1, with_rest(fields, vals, 1)))
            },
            _ => Err(EmitErrorView::Malformed(node, Malformation::TypeMismatch)),
        }
    }
}

/// Lets the blocks of `ends` from position `i` on branch to block `m`.
pub open spec fn branch_all_from(st: FuncState, ends: Seq<nat>, m: nat, i: nat) -> FuncState
    decreases ends.len() - i,
{
    if i >= ends.len() {
        st
    } else {
        branch_all_from(st.retarget(ends[i as int] as int, TerminatorView::Br(m)), ends, m, i + 1)
    }
}

/// Joins a conditional: block `b` dispatches on the discriminant to the
/// entry blocks of the cases, and the last block of each case branches to
/// the merge block, which is the open block.
pub open spec fn join(st: FuncState, b: nat, on: OperandView, targets: Seq<nat>, ends: Seq<nat>) -> FuncState {
    branch_all_from(
        st.retarget(b as int, TerminatorView::Switch(on, targets)),
        ends,
        st.blocks.len(),
        0,
    )
}

/// What the cases of a conditional yield: the state, the entry block of
/// each case, and the last block of each case.
pub struct Cases {
    pub st: FuncState,
    pub targets: Seq<nat>,
    pub ends: Seq<nat>,
}

/// Emits the nodes of `order` from position `k` on, in that order. Each
/// must be a child of `parent`.
pub open spec fn nodes_code_from<L: ExtensionLowering>(
    reg: ExtensionOpRegistry<L>,
    h: Hugr,
    st: FuncState,
    parent: usize,
    order: Seq<usize>,
    k: nat,
) -> Result<FuncState, EmitErrorView>
    decreases h.nodes@.len() - parent, 2nat, order.len() - k,
{
    if k >= order.len() {
        Ok(st)
    } else {
        let c = order[k as int];
        if !child_of(h, parent, c) {
            Err(EmitErrorView::Malformed(c, Malformation::BadNode))
        } else {
            match node_code(reg, h, st, c) {
                Err(e) => Err(e),
                Ok(st1) => nodes_code_from(reg, h, st1, parent, order, k + 1),
            }
        }
    }
}

/// The first node of `body`, from position `k` on, that a wire reaches
/// from outside the region: from a node that is neither the region's
/// input node nor one of `body`.
pub open spec fn stray_from(h: Hugr, input: usize, body: Seq<usize>, k: nat) -> Option<usize>
    decreases body.len() - k,
{
    if k >= body.len() {
        None
    } else if body[k as int] < h.nodes@.len() && !wires_done(input, body, h.nodes[body[k as int] as int].inputs@) {
        Some(body[k as int])
    } else {
        stray_from(h, input, body, k + 1)
    }
}

/// Whether the region that `parent` owns declares the types `ins` for
/// its inputs and the types `outs` for its outputs. A region without its
/// input or output node is left to `region_code` to report.
pub open spec fn boundary_ok(h: Hugr, parent: usize, ins: Seq<TypeView>, outs: Seq<TypeView>) -> bool {
    match region_boundary(h, parent) {
        Ok((inp, out)) => op_outputs(h.nodes[inp as int].op) == ins && op_inputs(h.nodes[out as int].op) == outs,
        Err(_) => true,
    }
}

/// The types of the inputs of case `i` of a conditional: the fields of
/// variant `i`, then the other inputs.
pub open spec fn case_types(op: OpType, i: nat) -> Seq<TypeView> {
    match op {
        OpType::Conditional { sum_rows, other_inputs, outputs } => if i < sum_rows@.len() {
            type_row_view(sum_rows[i as int]) + type_row_view(other_inputs)
        } else {
            type_row_view(other_inputs)
        },
        _ => Seq::empty(),
    }
}

/// The types that a round of a loop yields.
pub open spec fn yields_of(op: OpType) -> Seq<TypeView> {
    match op {
        OpType::TailLoop { just_inputs, just_outputs, rest } => loop_yields(
            type_row_view(just_inputs),
            type_row_view(just_outputs),
            type_row_view(rest),
        ),
        _ => Seq::empty(),
    }
}

/// Emits the region that `parent` owns, for the given input values, and
/// yields the values of the region's outputs.
///
/// The input values are bound to the outputs of the region's input node.
/// Then every other node of the region is emitted exactly once, in the
/// scheduler's order, so that each node finds its inputs bound. At last
/// the wires into the region's output node are loaded. The region is a
/// scope of its own: a wire into one of its nodes, or into its output
/// node, must come from its input node or from another of its nodes, and
/// each of its nodes must have `parent` as its parent.
pub open spec fn region_code<L: ExtensionLowering>(
    reg: ExtensionOpRegistry<L>,
    h: Hugr,
    st: FuncState,
    parent: usize,
    inputs: ValuesView,
) -> Result<(FuncState, ValuesView), EmitErrorView>
    decreases h.nodes@.len() - parent, 3nat, 0nat,
{
    match region_boundary(h, parent) {
        Err(e) => Err(e),
        Ok((inp, out)) => match bind_outputs(reg, st, inp, op_outputs(h.nodes[inp as int].op), inputs) {
            Err(e) => Err(e),
            Ok(st1) => if !child_of(h, parent, inp) || !child_of(h, parent, out) {
                Err(EmitErrorView::Malformed(parent, Malformation::BadNode))
            } else {
                match schedule(h, inp, region_body(h, parent)) {
                None => match stray_from(h, inp, region_body(h, parent), 0) {
                    Some(c) => Err(EmitErrorView::Malformed(c, Malformation::BadWire)),
                    None => Err(EmitErrorView::Malformed(parent, Malformation::Cycle)),
                },
                Some(order) => match nodes_code_from(reg, h, st1, parent, order, 0) {
                    Err(e) => Err(e),
                    Ok(st2) => if !wires_done(inp, order, h.nodes[out as int].inputs@) {
                        Err(EmitErrorView::Malformed(out, Malformation::BadWire))
                    } else {
                        load_inputs(
                            reg,
                            h,
                            st2,
                            out,
                            h.nodes[out as int].inputs@,
                            op_inputs(h.nodes[out as int].op),
                        )
                    },
                },
            }
            },
        },
    }
}

/// What one case of a conditional yields: the state, the case's entry
/// block and its last block.
pub struct CaseEnd {
    pub st: FuncState,
    pub entry: nat,
    pub end: nat,
}

/// Emits case `i` of the conditional `c` in a block of its own, which is
/// the open block. The case must be a child of `c` that is no earlier
/// case as well, and must declare the fields of variant `i` and
/// the other inputs of the conditional as its inputs, and the outputs of
/// the conditional as its outputs. In the block there the inputs of the conditional are loaded, the
/// fields of the case's variant are read, the case's region is emitted,
/// and its outputs are stored into the slots from `base` on, which hold
/// the outputs of the conditional. The last block of the case is closed.
pub open spec fn case_code<L: ExtensionLowering>(
    reg: ExtensionOpRegistry<L>,
    h: Hugr,
    st: FuncState,
    c: usize,
    base: nat,
    i: nat,
) -> Result<CaseEnd, EmitErrorView>
    decreases h.nodes@.len() - c, 4nat, 0nat,
{
    let children = h.nodes[c as int].children@;
    let op = h.nodes[c as int].op;
    if i >= children.len() {
        Err(EmitErrorView::Malformed(c, Malformation::CaseCount))
    } else {
        let child = children[i as int];
        if !child_of(h, c, child) || !first_listing(children, i) {
            Err(EmitErrorView::Malformed(child, Malformation::BadNode))
        } else if !(h.nodes[child as int].op is Case) {
            Err(EmitErrorView::Malformed(child, Malformation::UnexpectedOp))
        } else if !boundary_ok(h, child, case_types(op, i), op_outputs(op)) {
            Err(EmitErrorView::Malformed(child, Malformation::TypeMismatch))
        } else {
            match load_inputs(reg, h, st, c, h.nodes[c as int].inputs@, op_inputs(op)) {
                Err(e) => Err(e),
                Ok((st1, vals)) => match case_inputs(st1, c, i, vals) {
                    Err(e) => Err(e),
                    Ok((st2, ins)) => match region_code(reg, h, st2, child, ins) {
                        Err(e) => Err(e),
                        Ok((st3, outs)) => if outs.operands.len() != op_outputs(op).len() {
                            Err(EmitErrorView::Malformed(child, Malformation::Arity))
                        } else {
                            match store_values_from(st3, child, base, outs, 0) {
                                Err(e) => Err(e),
                                Ok(st4) => Ok(
                                    CaseEnd {
                                        st: st4.close(TerminatorView::Unreachable),
                                        entry: st.blocks.len(),
                                        end: st4.blocks.len(),
                                    },
                                ),
                            }
                        },
                    },
                },
            }
        }
    }
}

/// Emits the cases of the conditional `c` from case `i` on, in the order
/// of the variants.
pub open spec fn cases_code_from<L: ExtensionLowering>(
    reg: ExtensionOpRegistry<L>,
    h: Hugr,
    st: FuncState,
    c: usize,
    base: nat,
    i: nat,
    targets: Seq<nat>,
    ends: Seq<nat>,
) -> Result<Cases, EmitErrorView>
    decreases h.nodes@.len() - c, 4nat, 1 + h.nodes[c as int].children@.len() - i,
{
    if i >= h.nodes[c as int].children@.len() {
        Ok(Cases { st, targets, ends })
    } else {
        match case_code(reg, h, st, c, base, i) {
            Err(e) => Err(e),
            Ok(done) => cases_code_from(
                reg,
                h,
                done.st,
                c,
                base,
                i + 1,
                targets.push(done.entry),
                ends.push(done.end),
            ),
        }
    }
}

/// Emits the conditional `c`.
///
/// In the open block the sum value is loaded and its discriminant taken.
/// A slot is allocated for each output of the conditional. The block is
/// closed, and one block is emitted for each case, in the order of the
/// variants. Then the closed block is made to dispatch on the
/// discriminant, with the entry block of case `i` as target `i` and no
/// default target, and the last block of each case is made to branch to
/// the merge block, which is open when the conditional is done.
pub open spec fn conditional_code<L: ExtensionLowering>(
    reg: ExtensionOpRegistry<L>,
    h: Hugr,
    st: FuncState,
    c: usize,
) -> Result<FuncState, EmitErrorView>
    decreases h.nodes@.len() - c, 5nat, 0nat,
{
    match h.nodes[c as int].op {
        OpType::Conditional { sum_rows, other_inputs, outputs } => {
            let wires = h.nodes[c as int].inputs@;
            let children = h.nodes[c as int].children@;
            if wires.len() != 1 + other_inputs@.len() {
                Err(EmitErrorView::Malformed(c, Malformation::Arity))
            } else if children.len() != sum_rows@.len() {
                Err(EmitErrorView::Malformed(c, Malformation::CaseCount))
            } else if c >= st.bound.len() {
                Err(EmitErrorView::Malformed(c, Malformation::BadNode))
            } else {
                match load_inputs(
                    reg,
                    h,
                    st,
                    c,
                    seq![wires[0]],
                    seq![TypeView::Sum(type_rows_view(sum_rows))],
                ) {
                    Err(e) => Err(e),
                    Ok((st1, v)) => match discriminant(st1, c, v) {
                        Err(e) => Err(e),
                        Ok((st2, on)) => match alloc_slots_from(reg, st2, type_row_view(outputs), 0) {
                            Err(e) => Err(e),
                            Ok(st3) => match cases_code_from(
                                reg,
                                h,
                                st3.close(TerminatorView::Unreachable),
                                c,
                                st2.slots.len(),
                                0,
                                Seq::empty(),
                                Seq::empty(),
                            ) {
                                Err(e) => Err(e),
                                Ok(cases) => Ok(
                                    join(cases.st, st3.blocks.len(), on, cases.targets, cases.ends).bind(
                                        c as int,
                                        st2.slots.len(),
                                    ),
                                ),
                            },
                        },
                    },
                }
            }
        },
        _ => Err(EmitErrorView::Malformed(c, Malformation::UnexpectedOp)),
    }
}

/// Loads the `count` slots from `base` on, from position `k` on.
pub open spec fn load_slots_from(st: FuncState, node: usize, base: nat, count: nat, k: nat, acc: ValuesView) -> Result<
    (FuncState, ValuesView),
    EmitErrorView,
>
    decreases count - k,
{
    if k >= count {
        Ok((st, acc))
    } else if base + k >= st.slots.len() {
        Err(EmitErrorView::Malformed(node, Malformation::BadWire))
    } else {
        load_slots_from(
            st.push(InstrView::Load { slot: base + k, ty: st.slots[(base + k) as int] }),
            node,
            base,
            count,
            k + 1,
            acc.push(OperandView::Local(st.cur.len()), st.slots[(base + k) as int]),
        )
    }
}

/// Moves what a round of a loop has yielded: loads the `count` slots from
/// `from` on, reads the fields of variant `tag` of the first, and stores
/// those fields and the other values into the slots from `to` on.
pub open spec fn move_yield(st: FuncState, node: usize, from: nat, count: nat, tag: nat, to: nat) -> Result<
    FuncState,
    EmitErrorView,
> {
    match load_slots_from(st, node, from, count, 0, ValuesView::empty()) {
        Err(e) => Err(e),
        Ok((st1, vals)) => match case_inputs(st1, node, tag, vals) {
            Err(e) => Err(e),
            Ok((st2, ins)) => store_values_from(st2, node, to, ins, 0),
        },
    }
}

/// The first of some values.
pub open spec fn first_of(vals: ValuesView) -> ValuesView {
    if vals.operands.len() >= 1 && vals.layouts.len() >= 1 {
        ValuesView { operands: seq![vals.operands[0]], layouts: seq![vals.layouts[0]] }
    } else {
        ValuesView::empty()
    }
}

/// Where a loop keeps its values: the state, and the first of the slots
/// that hold the inputs of a round, the outputs of the loop, and what a
/// round yields.
pub struct LoopSlots {
    pub st: FuncState,
    pub round: nat,
    pub out: nat,
    pub yielded: nat,
}

/// Enters the loop `n`: in the open block the inputs of the loop are
/// loaded and stored into the slots of the first round, and slots are
/// allocated for the outputs of the loop and for what a round yields.
/// The block is closed with a branch to the loop's header, which is then
/// the open block.
pub open spec fn loop_entry<L: ExtensionLowering>(reg: ExtensionOpRegistry<L>, h: Hugr, st: FuncState, n: usize) -> Result<
    LoopSlots,
    EmitErrorView,
> {
    match h.nodes[n as int].op {
        OpType::TailLoop { just_inputs, just_outputs, rest } => {
            let op = h.nodes[n as int].op;
            if n >= st.bound.len() {
                Err(EmitErrorView::Malformed(n, Malformation::BadNode))
            } else {
                match load_inputs(reg, h, st, n, h.nodes[n as int].inputs@, op_inputs(op)) {
                    Err(e) => Err(e),
                    Ok((st1, vals)) => match alloc_slots_from(reg, st1, op_inputs(op), 0) {
                        Err(e) => Err(e),
                        Ok(st2) => match store_values_from(st2, n, st1.slots.len(), vals, 0) {
                            Err(e) => Err(e),
                            Ok(st3) => match alloc_slots_from(reg, st3, op_outputs(op), 0) {
                                Err(e) => Err(e),
                                Ok(st4) => match alloc_slots_from(
                                    reg,
                                    st4,
                                    loop_yields(
                                        type_row_view(just_inputs),
                                        type_row_view(just_outputs),
                                        type_row_view(rest),
                                    ),
                                    0,
                                ) {
                                    Err(e) => Err(e),
                                    Ok(st5) => Ok(
                                        LoopSlots {
                                            st: st5.close(TerminatorView::Br(st5.blocks.len() + 1)),
                                            round: st1.slots.len(),
                                            out: st3.slots.len(),
                                            yielded: st4.slots.len(),
                                        },
                                    ),
                                },
                            },
                        },
                    },
                }
            }
        },
        _ => Err(EmitErrorView::Malformed(n, Malformation::UnexpectedOp)),
    }
}

/// One round of the loop `n`, from its header on. The region of the loop
/// must declare the inputs of the loop as its inputs, and as its outputs
/// what a round yields. The inputs of the
/// round are loaded from their slots, the region of the loop is emitted,
/// what it yields is stored, and the discriminant of the first value is
/// taken, which says whether the loop goes on.
pub open spec fn loop_round<L: ExtensionLowering>(
    reg: ExtensionOpRegistry<L>,
    h: Hugr,
    st: FuncState,
    n: usize,
    round: nat,
    yielded: nat,
) -> Result<(FuncState, OperandView), EmitErrorView>
    decreases h.nodes@.len() - n, 4nat, 0nat,
{
    let op = h.nodes[n as int].op;
    if !boundary_ok(h, n, op_inputs(op), yields_of(op)) {
        Err(EmitErrorView::Malformed(n, Malformation::TypeMismatch))
    } else {
        match load_slots_from(st, n, round, op_inputs(op).len(), 0, ValuesView::empty()) {
        Err(e) => Err(e),
        Ok((st1, ins)) => match region_code(reg, h, st1, n, ins) {
            Err(e) => Err(e),
            Ok((st2, outs)) => if outs.operands.len() != yields_count(op) {
                Err(EmitErrorView::Malformed(n, Malformation::Arity))
            } else {
                match store_values_from(st2, n, yielded, outs, 0) {
                    Err(e) => Err(e),
                    Ok(st3) => discriminant(st3, n, first_of(outs)),
                }
            },
        },
        }
    }
}

/// The number of values that a round of a loop yields.
pub open spec fn yields_count(op: OpType) -> nat {
    match op {
        OpType::TailLoop { just_inputs, just_outputs, rest } => loop_yields(
            type_row_view(just_inputs),
            type_row_view(just_outputs),
            type_row_view(rest),
        ).len(),
        _ => 0,
    }
}

/// Leaves a round of a loop. The block that is open, `e`, is closed. In
/// the next block what the round yielded becomes the input of the next
/// round, and the block branches back to the header. In the block after
/// that it becomes the output of the loop, and the block branches on to
/// the exit, which is then the open block. At last block `e` is made to
/// dispatch on the discriminant `on`: variant 0 goes on with the loop,
/// variant 1 ends it.
pub open spec fn loop_exit(st: FuncState, n: usize, slots: LoopSlots, count: nat, header: nat, on: OperandView) -> Result<
    FuncState,
    EmitErrorView,
> {
    let e = st.blocks.len();
    match move_yield(st.close(TerminatorView::Unreachable), n, slots.yielded, count, 0, slots.round) {
        Err(e) => Err(e),
        Ok(st1) => match move_yield(st1.close(TerminatorView::Br(header)), n, slots.yielded, count, 1, slots.out) {
            Err(e) => Err(e),
            Ok(st2) => Ok(
                st2.close(TerminatorView::Br(st2.blocks.len() + 1)).retarget(
                    e as int,
                    TerminatorView::Switch(on, seq![e + 1, e + 2]),
                ),
            ),
        },
    }
}

/// Emits the loop `n`: its entry, one round, and its exit. The outputs
/// of the loop are bound to the slots that the exit stores into.
pub open spec fn loop_code<L: ExtensionLowering>(reg: ExtensionOpRegistry<L>, h: Hugr, st: FuncState, n: usize) -> Result<
    FuncState,
    EmitErrorView,
>
    decreases h.nodes@.len() - n, 5nat, 0nat,
{
    match loop_entry(reg, h, st, n) {
        Err(e) => Err(e),
        Ok(slots) => match loop_round(reg, h, slots.st, n, slots.round, slots.yielded) {
            Err(e) => Err(e),
            Ok((st1, on)) => match loop_exit(
                st1,
                n,
                slots,
                yields_count(h.nodes[n as int].op),
                slots.st.blocks.len(),
                on,
            ) {
                Err(e) => Err(e),
                Ok(st2) => Ok(st2.bind(n as int, slots.out)),
            },
        },
    }
}

/// Emits the node `c` of a region, by the kind of its operation.
///
/// A nested dataflow graph is a scope of its own: its inputs are loaded,
/// its region is emitted for those values alone, and the values of the
/// region's outputs are bound as the outputs of the node. The region must
/// declare the types of the node's inputs and outputs as its own.
pub open spec fn node_code<L: ExtensionLowering>(reg: ExtensionOpRegistry<L>, h: Hugr, st: FuncState, c: usize) -> Result<
    FuncState,
    EmitErrorView,
>
    decreases h.nodes@.len() - c, 6nat, 0nat,
{
    if c >= h.nodes@.len() {
        Err(EmitErrorView::Malformed(c, Malformation::BadNode))
    } else {
        let op = h.nodes[c as int].op;
        match op {
            OpType::Dfg { signature } => if !boundary_ok(h, c, op_inputs(op), op_outputs(op)) {
                Err(EmitErrorView::Malformed(c, Malformation::TypeMismatch))
            } else {
                match load_inputs(reg, h, st, c, h.nodes[c as int].inputs@, op_inputs(op)) {
                    Err(e) => Err(e),
                    Ok((st1, vals)) => match region_code(reg, h, st1, c, vals) {
                        Err(e) => Err(e),
                        Ok((st2, outs)) => bind_outputs(reg, st2, c, op_outputs(op), outs),
                    },
                }
            },
            OpType::Conditional { .. } => conditional_code(reg, h, st, c),
            OpType::TailLoop { .. } => loop_code(reg, h, st, c),
            OpType::MakeTuple { .. } => leaf_node(reg, h, st, c),
            OpType::UnpackTuple { .. } => leaf_node(reg, h, st, c),
            OpType::Tag { .. } => leaf_node(reg, h, st, c),
            OpType::LoadConstant { .. } => leaf_node(reg, h, st, c),
            OpType::Extension(_) => leaf_node(reg, h, st, c),
            _ => Err(EmitErrorView::Malformed(c, Malformation::UnexpectedOp)),
        }
    }
}

/// Whether an executable step that yields an operand ended as its model
/// says.
pub open spec fn agrees_operand(r: Result<Operand, EmitError>, st: FuncState, m: Result<(FuncState, OperandView), EmitErrorView>) -> bool {
    match m {
        Ok((st2, v)) => r is Ok && r->Ok_0@ == v && st == st2,
        Err(e) => r is Err && r->Err_0@ == e,
    }
}

/// Emits a node without children.
pub fn emit_leaf_node<L: ExtensionLowering>(ctx: &mut EmitContext<L>, h: &Hugr, f: &mut FuncEmitter, node: usize) -> (r:
    Result<(), EmitError>)
    requires
        old(ctx).wf(),
        old(f).wf(),
        node < h.nodes@.len(),
    ensures
        final(ctx).wf(),
        final(ctx).registry == old(ctx).registry,
        final(f).wf(),
        agrees_unit(r, final(f)@, leaf_node(old(ctx).registry, *h, old(f)@, node)),
{
    let op = &h.nodes[node].op;
    let expect = op.input_types();
    let vals = match emit_loads(ctx, h, f, node, &h.nodes[node].inputs, &expect) {
        Err(e) => {
            return Err(e);
        },
        Ok(vals) => vals,
    };
    let outs = match op {
        OpType::MakeTuple { tys } => emit_make_tuple(f, vals),
        OpType::UnpackTuple { tys } => emit_unpack_tuple(f, node, vals),
        OpType::Tag { tag, variants } => emit_tag(ctx, f, node, *tag, variants, vals),
        OpType::LoadConstant { value } => emit_load_constant(ctx, f, node, value),
        OpType::Extension(e) => emit_extension_op(ctx, f, node, e, vals),
        _ => Err(EmitError::malformed(node, Malformation::UnexpectedOp)),
    };
    let outs = match outs {
        Err(e) => {
            return Err(e);
        },
        Ok(outs) => outs,
    };
    let types = op.output_types();
    emit_outputs(ctx, f, node, &types, &outs)
}

/// Emits the reading of the discriminant of a sum value.
pub fn emit_discriminant(f: &mut FuncEmitter, node: usize, v: &Values) -> (r: Result<Operand, EmitError>)
    requires
        old(f).wf(),
    ensures
        final(f).wf(),
        agrees_operand(r, final(f)@, discriminant(old(f)@, node, v@)),
{
    proof {
        lemma_row_view(v.types);
    }
    if v.operands.len() != 1 || v.types.len() != 1 {
        return Err(EmitError::malformed(node, Malformation::Arity));
    }
    match &v.types[0] {
        TargetType::Int(_) => Ok(v.operands[0].duplicate()),
        TargetType::Union { tag_bits, variants } => {
            let pos = f.push_instr(
                Instr::GetTag { ty: TargetType::Int(*tag_bits), value: v.operands[0].duplicate() },
            );
            Ok(Operand::Local(pos))
        },
        _ => Err(EmitError::malformed(node, Malformation::TypeMismatch)),
    }
}

/// Adds to `acc` copies of the values of `vals` from position `k` on.
pub fn append_rest(first: Values, vals: &Values, from: usize) -> (r: Values)
    requires
        first.operands@.len() == first.types@.len(),
    ensures
        r@ == with_rest(first@, vals@, from as nat),
        r.operands@.len() == r.types@.len(),
{
    let ghost start = first@;
    let mut acc = first;
    let mut k = from;
    proof {
        lemma_row_view(vals.types);
    }
    while k < vals.operands.len() && k < vals.types.len()
        invariant
            acc.operands@.len() == acc.types@.len(),
            with_rest(start, vals@, from as nat) == with_rest(acc@, vals@, k as nat),
        decreases vals.operands.len() - k,
    {
        proof {
            lemma_row_view(vals.types);
        }
        acc.push(vals.operands[k].duplicate(), vals.types[k].duplicate());
        k += 1;
    }
    proof {
        lemma_row_view(vals.types);
    }
    acc
}

/// Emits the reading of the inputs of a case.
pub fn emit_case_inputs(f: &mut FuncEmitter, node: usize, i: usize, vals: &Values) -> (r: Result<Values, EmitError>)
    requires
        old(f).wf(),
    ensures
        final(f).wf(),
        agrees(r, final(f)@, case_inputs(old(f)@, node, i as nat, vals@)),
{
    proof {
        lemma_row_view(vals.types);
    }
    if vals.operands.len() < 1 || vals.types.len() < 1 {
        return Err(EmitError::malformed(node, Malformation::Arity));
    }
    match &vals.types[0] {
        TargetType::Int(_) => Ok(append_rest(Values::new(), vals, 1)),
        TargetType::Union { tag_bits, variants } => {
            proof {
                lemma_rows_view(*variants);
            }
            if i >= variants.len() {
                return Err(EmitError::malformed(node, Malformation::CaseCount));
            }
            let fields = &variants[i];
            proof {
                lemma_row_view(*fields);
            }
            let mut acc = Values::new();
            let mut k: usize = 0;
            while k < fields.len()
                invariant
                    k <= fields.len(),
                    f.wf(),
                    vals.operands@.len() >= 1,
                    acc.operands@.len() == acc.types@.len(),
                    variant_fields_from(
                        old(f)@,
                        vals.operands@[0]@,
                        i as nat,
                        row_view(*fields),
                        0,
                        ValuesView::empty(),
                    ) == variant_fields_from(f@, vals.operands@[0]@, i as nat, row_view(*fields), k as nat, acc@),
                decreases fields.len() - k,
            {
                proof {
                    lemma_row_view(*fields);
                }
                let pos = f.push_instr(
                    Instr::VariantField {
                        ty: fields[k].duplicate(),
                        value: vals.operands[0].duplicate(),
                        tag: i,
                        index: k,
                    },
                );
                acc.push(Operand::Local(pos), fields[k].duplicate());
                k += 1;
            }
            Ok(append_rest(acc, vals, 1))
        },
        _ => Err(EmitError::malformed(node, Malformation::TypeMismatch)),
    }
}

/// Emits the joining of a conditional.
pub fn emit_join(f: &mut FuncEmitter, b: usize, on: Operand, targets: Vec<usize>, ends: &Vec<usize>)
    requires
        old(f).wf(),
    ensures
        final(f).wf(),
        final(f)@ == join(old(f)@, b as nat, on@, nats(targets@), nats(ends@)),
{
    let m = f.bodies.len();
    f.retarget(b, Terminator::Switch { on, targets });
    let ghost first = f@;
    let mut i: usize = 0;
    while i < ends.len()
        invariant
            i <= ends.len(),
            f.wf(),
            branch_all_from(first, nats(ends@), m as nat, 0) == branch_all_from(f@, nats(ends@), m as nat, i as nat),
        decreases ends.len() - i,
    {
        f.retarget(ends[i], Terminator::Br(m));
        i += 1;
    }
}

/// Decides `first_listing`.
pub fn is_first_listing(children: &Vec<usize>, i: usize) -> (r: bool)
    requires
        i < children@.len(),
    ensures
        r == first_listing(children@, i as nat),
{
    let mut j: usize = 0;
    while j < i
        invariant
            j <= i,
            i < children@.len(),
            forall|k: int| 0 <= k < j ==> children@[k] != children@[i as int],
        decreases i - j,
    {
        if children[j] == children[i] {
            return false;
        }
        j += 1;
    }
    true
}

/// Whether `x` is the input node or one of `chosen`.
pub fn is_member(input: usize, chosen: &Vec<usize>, x: usize) -> (r: bool)
    ensures
        r == is_done(input, chosen@, x),
{
    if x == input {
        return true;
    }
    let mut i: usize = 0;
    while i < chosen.len()
        invariant
            i <= chosen.len(),
            forall|k: int| 0 <= k < i ==> chosen@[k] != x,
        decreases chosen.len() - i,
    {
        if chosen[i] == x {
            return true;
        }
        i += 1;
    }
    false
}

/// Decides `wires_done`: whether every wire comes from the input node or
/// from one of `chosen`.
pub fn all_from(input: usize, chosen: &Vec<usize>, wires: &Vec<Wire>) -> (r: bool)
    ensures
        r == wires_done(input, chosen@, wires@),
{
    let mut j: usize = 0;
    while j < wires.len()
        invariant
            j <= wires.len(),
            forall|k: int| 0 <= k < j ==> is_done(input, chosen@, (#[trigger] wires@[k]).node),
        decreases wires.len() - j,
    {
        if !is_member(input, chosen, wires[j].node) {
            assert(!is_done(input, chosen@, wires@[j as int].node));
            return false;
        }
        j += 1;
    }
    true
}

/// The first node of a region's body that a wire reaches from outside
/// the region.
pub fn first_stray(h: &Hugr, input: usize, body: &Vec<usize>) -> (r: Option<usize>)
    ensures
        r == stray_from(*h, input, body@, 0),
{
    let mut k: usize = 0;
    while k < body.len()
        invariant
            k <= body.len(),
            stray_from(*h, input, body@, 0) == stray_from(*h, input, body@, k as nat),
        decreases body.len() - k,
    {
        let c = body[k];
        if c < h.nodes.len() && !all_from(input, body, &h.nodes[c].inputs) {
            return Some(c);
        }
        k += 1;
    }
    None
}

/// Computes `case_types`.
pub fn case_input_types(op: &OpType, i: usize) -> (r: Vec<Type>)
    ensures
        type_row_view(r) == case_types(*op, i as nat),
{
    match op {
        OpType::Conditional { sum_rows, other_inputs, outputs } => {
            if i < sum_rows.len() {
                type_row_concat(&sum_rows[i], other_inputs)
            } else {
                type_row_duplicate(other_inputs)
            }
        },
        _ => {
            let r: Vec<Type> = Vec::new();
            assert(type_row_view(r) =~= Seq::<TypeView>::empty());
            r
        },
    }
}

/// Computes `yields_of`.
pub fn yield_types(op: &OpType) -> (r: Vec<Type>)
    ensures
        type_row_view(r) == yields_of(*op),
{
    match op {
        OpType::TailLoop { just_inputs, just_outputs, rest } => loop_yield_types(just_inputs, just_outputs, rest),
        _ => {
            let r: Vec<Type> = Vec::new();
            assert(type_row_view(r) =~= Seq::<TypeView>::empty());
            r
        },
    }
}

/// Decides `boundary_ok`.
pub fn check_boundary(h: &Hugr, parent: usize, ins: &Vec<Type>, outs: &Vec<Type>) -> (r: bool)
    ensures
        r == boundary_ok(*h, parent, type_row_view(*ins), type_row_view(*outs)),
{
    let n = h.nodes.len();
    if parent >= n {
        return true;
    }
    let ch = &h.nodes[parent].children;
    if ch.len() < 2 {
        return true;
    }
    let inp = ch[0];
    let out = ch[1];
    if !(parent < inp && inp < n && parent < out && out < n) {
        return true;
    }
    match (&h.nodes[inp].op, &h.nodes[out].op) {
        (OpType::Input { types: in_types }, OpType::Output { types: out_types }) => type_row_same(in_types, ins)
            && type_row_same(out_types, outs),
        _ => true,
    }
}

/// The region scheduler: emits the region that `parent` owns for the
/// given input values, and returns the values of the region's outputs.
#[verifier::loop_isolation(false)]
pub fn emit_region<L: ExtensionLowering>(
    ctx: &mut EmitContext<L>,
    h: &Hugr,
    f: &mut FuncEmitter,
    parent: usize,
    inputs: Values,
) -> (r: Result<Values, EmitError>)
    requires
        old(ctx).wf(),
        old(f).wf(),
    ensures
        final(ctx).wf(),
        final(ctx).registry == old(ctx).registry,
        final(f).wf(),
        agrees(r, final(f)@, region_code(old(ctx).registry, *h, old(f)@, parent, inputs@)),
    decreases h.nodes@.len() - parent, 3nat, 0nat,
{
    let n = h.nodes.len();
    if parent >= n {
        return Err(EmitError::malformed(parent, Malformation::BadNode));
    }
    let ch = &h.nodes[parent].children;
    if ch.len() < 2 {
        return Err(EmitError::malformed(parent, Malformation::MissingBoundary));
    }
    let inp = ch[0];
    let out = ch[1];
    if !(parent < inp && inp < n && parent < out && out < n) {
        return Err(EmitError::malformed(parent, Malformation::BadNode));
    }
    let (in_types, out_types) = match (&h.nodes[inp].op, &h.nodes[out].op) {
        (OpType::Input { types: in_types }, OpType::Output { types: out_types }) => (in_types, out_types),
        _ => {
            return Err(EmitError::malformed(parent, Malformation::MissingBoundary));
        },
    };
    match emit_outputs(ctx, f, inp, in_types, &inputs) {
        Err(e) => {
            return Err(e);
        },
        Ok(()) => {},
    }
    if h.nodes[inp].parent != parent || h.nodes[out].parent != parent {
        return Err(EmitError::malformed(parent, Malformation::BadNode));
    }
    let mut body: Vec<usize> = Vec::new();
    let mut j: usize = 2;
    while j < ch.len()
        invariant
            2 <= j <= ch.len(),
            body@ == ch@.subrange(2, j as int),
        decreases ch.len() - j,
    {
        body.push(ch[j]);
        assert(body@ =~= ch@.subrange(2, j + 1));
        j += 1;
    }
    assert(body@ =~= region_body(*h, parent));
    let order = match compute_schedule(h, inp, &body) {
        None => {
            return match first_stray(h, inp, &body) {
                Some(c) => Err(EmitError::malformed(c, Malformation::BadWire)),
                None => Err(EmitError::malformed(parent, Malformation::Cycle)),
            };
        },
        Some(order) => order,
    };
    let ghost st1 = f@;
    let ghost reg = ctx.registry;
    let mut k: usize = 0;
    while k < order.len()
        invariant
            k <= order.len(),
            ctx.wf(),
            ctx.registry == reg,
            f.wf(),
            nodes_code_from(reg, *h, st1, parent, order@, 0) == nodes_code_from(reg, *h, f@, parent, order@, k as nat),
        decreases order.len() - k,
    {
        let c = order[k];
        if !(parent < c && c < n) || h.nodes[c].parent != parent {
            return Err(EmitError::malformed(c, Malformation::BadNode));
        }
        match emit_node(ctx, h, f, c) {
            Err(e) => {
                return Err(e);
            },
            Ok(()) => {},
        }
        k += 1;
    }
    if !all_from(inp, &order, &h.nodes[out].inputs) {
        return Err(EmitError::malformed(out, Malformation::BadWire));
    }
    emit_loads(ctx, h, f, out, &h.nodes[out].inputs, out_types)
}

/// Emits one case of a conditional, and returns its entry block and its
/// last block.
pub fn emit_case<L: ExtensionLowering>(
    ctx: &mut EmitContext<L>,
    h: &Hugr,
    f: &mut FuncEmitter,
    c: usize,
    base: usize,
    i: usize,
) -> (r: Result<(usize, usize), EmitError>)
    requires
        old(ctx).wf(),
        old(f).wf(),
        c < h.nodes@.len(),
    ensures
        final(ctx).wf(),
        final(ctx).registry == old(ctx).registry,
        final(f).wf(),
        match case_code(old(ctx).registry, *h, old(f)@, c, base as nat, i as nat) {
            Ok(done) => r is Ok && r->Ok_0.0 == done.entry && r->Ok_0.1 == done.end && final(f)@ == done.st,
            Err(e) => r is Err && r->Err_0@ == e,
        },
    decreases h.nodes@.len() - c, 4nat, 0nat,
{
    let n = h.nodes.len();
    let children = &h.nodes[c].children;
    if i >= children.len() {
        return Err(EmitError::malformed(c, Malformation::CaseCount));
    }
    let child = children[i];
    if !(c < child && child < n) || h.nodes[child].parent != c || !is_first_listing(children, i) {
        return Err(EmitError::malformed(child, Malformation::BadNode));
    }
    match &h.nodes[child].op {
        OpType::Case { .. } => {},
        _ => {
            return Err(EmitError::malformed(child, Malformation::UnexpectedOp));
        },
    }
    let declared = case_input_types(&h.nodes[c].op, i);
    let yields = h.nodes[c].op.output_types();
    if !check_boundary(h, child, &declared, &yields) {
        return Err(EmitError::malformed(child, Malformation::TypeMismatch));
    }
    let expect = h.nodes[c].op.input_types();
    let out_count = h.nodes[c].op.output_count();
    let entry = f.bodies.len();
    let vals = match emit_loads(ctx, h, f, c, &h.nodes[c].inputs, &expect) {
        Err(e) => {
            return Err(e);
        },
        Ok(vals) => vals,
    };
    let ins = match emit_case_inputs(f, c, i, &vals) {
        Err(e) => {
            return Err(e);
        },
        Ok(ins) => ins,
    };
    let outs = match emit_region(ctx, h, f, child, ins) {
        Err(e) => {
            return Err(e);
        },
        Ok(outs) => outs,
    };
    if outs.operands.len() != out_count {
        return Err(EmitError::malformed(child, Malformation::Arity));
    }
    match emit_stores(f, child, base, &outs) {
        Err(e) => {
            return Err(e);
        },
        Ok(()) => {},
    }
    let end = f.close_block(Terminator::Unreachable);
    Ok((entry, end))
}

/// Emits all cases of a conditional, and returns their entry blocks and
/// their last blocks.
pub fn emit_cases<L: ExtensionLowering>(ctx: &mut EmitContext<L>, h: &Hugr, f: &mut FuncEmitter, c: usize, base: usize) -> (r:
    Result<(Vec<usize>, Vec<usize>), EmitError>)
    requires
        old(ctx).wf(),
        old(f).wf(),
        c < h.nodes@.len(),
    ensures
        final(ctx).wf(),
        final(ctx).registry == old(ctx).registry,
        final(f).wf(),
        match cases_code_from(old(ctx).registry, *h, old(f)@, c, base as nat, 0, Seq::empty(), Seq::empty()) {
            Ok(cases) => r is Ok && nats(r->Ok_0.0@) == cases.targets && nats(r->Ok_0.1@) == cases.ends
                && final(f)@ == cases.st,
            Err(e) => r is Err && r->Err_0@ == e,
        },
    decreases h.nodes@.len() - c, 4nat, 1nat,
{
    let count = h.nodes[c].children.len();
    let mut targets: Vec<usize> = Vec::new();
    let mut ends: Vec<usize> = Vec::new();
    assert(nats(targets@) =~= Seq::empty());
    assert(nats(ends@) =~= Seq::empty());
    let mut i: usize = 0;
    while i < count
        invariant
            i <= count,
            count == h.nodes[c as int].children@.len(),
            c < h.nodes@.len(),
            ctx.wf(),
            ctx.registry == old(ctx).registry,
            f.wf(),
            cases_code_from(old(ctx).registry, *h, old(f)@, c, base as nat, 0, Seq::empty(), Seq::empty())
                == cases_code_from(
                old(ctx).registry,
                *h,
                f@,
                c,
                base as nat,
                i as nat,
                nats(targets@),
                nats(ends@),
            ),
        decreases count - i,
    {
        match emit_case(ctx, h, f, c, base, i) {
            Err(e) => {
                return Err(e);
            },
            Ok((entry, end)) => {
                proof {
                    assert(nats(targets@.push(entry)) =~= nats(targets@).push(entry as nat));
                    assert(nats(ends@.push(end)) =~= nats(ends@).push(end as nat));
                }
                targets.push(entry);
                ends.push(end);
            },
        }
        i += 1;
    }
    Ok((targets, ends))
}

/// Control lowering: emits a conditional as a dispatch on the
/// discriminant of its sum input, one block for each case, and a merge
/// block.
pub fn emit_conditional<L: ExtensionLowering>(ctx: &mut EmitContext<L>, h: &Hugr, f: &mut FuncEmitter, c: usize) -> (r:
    Result<(), EmitError>)
    requires
        old(ctx).wf(),
        old(f).wf(),
        c < h.nodes@.len(),
    ensures
        final(ctx).wf(),
        final(ctx).registry == old(ctx).registry,
        final(f).wf(),
        agrees_unit(r, final(f)@, conditional_code(old(ctx).registry, *h, old(f)@, c)),
    decreases h.nodes@.len() - c, 5nat, 0nat,
{
    match &h.nodes[c].op {
        OpType::Conditional { sum_rows, other_inputs, outputs } => {
            let wires = &h.nodes[c].inputs;
            let children = &h.nodes[c].children;
            proof {
                lemma_type_row_view(*other_inputs);
                lemma_type_row_view(*outputs);
            }
            let wire_count = wires.len();
            if other_inputs.len() == usize::MAX || wire_count != 1 + other_inputs.len() {
                return Err(EmitError::malformed(c, Malformation::Arity));
            }
            if children.len() != sum_rows.len() {
                return Err(EmitError::malformed(c, Malformation::CaseCount));
            }
            if c >= f.bound.len() {
                return Err(EmitError::malformed(c, Malformation::BadNode));
            }
            let mut first: Vec<Wire> = Vec::new();
            first.push(wires[0]);
            assert(first@ =~= seq![wires@[0]]);
            let mut sum: Vec<Type> = Vec::new();
            sum.push(Type::Sum(type_rows_duplicate(sum_rows)));
            proof {
                lemma_type_row_view(sum);
                assert(type_row_view(sum) =~= seq![TypeView::Sum(type_rows_view(*sum_rows))]);
            }
            let v = match emit_loads(ctx, h, f, c, &first, &sum) {
                Err(e) => {
                    return Err(e);
                },
                Ok(v) => v,
            };
            let on = match emit_discriminant(f, c, &v) {
                Err(e) => {
                    return Err(e);
                },
                Ok(on) => on,
            };
            let base = f.slots.len();
            proof {
                lemma_row_view(f.slots);
            }
            match emit_slots(ctx, f, outputs) {
                Err(e) => {
                    return Err(e);
                },
                Ok(()) => {},
            }
            let b = f.close_block(Terminator::Unreachable);
            let (targets, ends) = match emit_cases(ctx, h, f, c, base) {
                Err(e) => {
                    return Err(e);
                },
                Ok(found) => found,
            };
            emit_join(f, b, on, targets, &ends);
            f.bind(c, base);
            Ok(())
        },
        _ => Err(EmitError::malformed(c, Malformation::UnexpectedOp)),
    }
}

/// Closes the open block with a branch to the block that is open
/// afterwards, and returns the index of that block.
pub fn close_towards_next(f: &mut FuncEmitter) -> (next: usize)
    requires
        old(f).wf(),
    ensures
        final(f).wf(),
        final(f)@ == old(f)@.close(TerminatorView::Br(old(f)@.blocks.len() + 1)),
        next == old(f)@.blocks.len() + 1,
{
    let index = f.close_block(Terminator::Unreachable);
    let next = f.bodies.len();
    f.retarget(index, Terminator::Br(next));
    proof {
        assert(f@.blocks =~= old(f)@.close(TerminatorView::Br(old(f)@.blocks.len() + 1)).blocks);
    }
    next
}

/// Emits the loads of the `count` slots from `base` on.
pub fn emit_load_slots(f: &mut FuncEmitter, node: usize, base: usize, count: usize) -> (r: Result<Values, EmitError>)
    requires
        old(f).wf(),
    ensures
        final(f).wf(),
        agrees(r, final(f)@, load_slots_from(old(f)@, node, base as nat, count as nat, 0, ValuesView::empty())),
{
    let mut vals = Values::new();
    let mut k: usize = 0;
    while k < count
        invariant
            k <= count,
            f.wf(),
            vals.operands@.len() == vals.types@.len(),
            load_slots_from(old(f)@, node, base as nat, count as nat, 0, ValuesView::empty()) == load_slots_from(
                f@,
                node,
                base as nat,
                count as nat,
                k as nat,
                vals@,
            ),
        decreases count - k,
    {
        proof {
            lemma_row_view(f.slots);
        }
        let slot = match base.checked_add(k) {
            None => {
                return Err(EmitError::malformed(node, Malformation::BadWire));
            },
            Some(slot) => slot,
        };
        if slot >= f.slots.len() {
            return Err(EmitError::malformed(node, Malformation::BadWire));
        }
        let ty = f.slots[slot].duplicate();
        let pos = f.push_instr(Instr::Load { slot, ty: ty.duplicate() });
        vals.push(Operand::Local(pos), ty);
        k += 1;
    }
    Ok(vals)
}

/// Emits the moving of what a round of a loop has yielded.
pub fn emit_move_yield(f: &mut FuncEmitter, node: usize, from: usize, count: usize, tag: usize, to: usize) -> (r:
    Result<(), EmitError>)
    requires
        old(f).wf(),
    ensures
        final(f).wf(),
        agrees_unit(r, final(f)@, move_yield(old(f)@, node, from as nat, count as nat, tag as nat, to as nat)),
{
    let vals = match emit_load_slots(f, node, from, count) {
        Err(e) => {
            return Err(e);
        },
        Ok(vals) => vals,
    };
    let ins = match emit_case_inputs(f, node, tag, &vals) {
        Err(e) => {
            return Err(e);
        },
        Ok(ins) => ins,
    };
    emit_stores(f, node, to, &ins)
}

/// Where a loop keeps its values: the first of the slots that hold the
/// inputs of a round, the outputs of the loop, and what a round yields;
/// and the loop's header.
pub struct LoopPlaces {
    pub round: usize,
    pub out: usize,
    pub yielded: usize,
    pub header: usize,
}

/// Emits the entry of a loop.
pub fn emit_loop_entry<L: ExtensionLowering>(ctx: &mut EmitContext<L>, h: &Hugr, f: &mut FuncEmitter, n: usize) -> (r:
    Result<LoopPlaces, EmitError>)
    requires
        old(ctx).wf(),
        old(f).wf(),
        n < h.nodes@.len(),
    ensures
        final(ctx).wf(),
        final(ctx).registry == old(ctx).registry,
        final(f).wf(),
        match loop_entry(old(ctx).registry, *h, old(f)@, n) {
            Ok(slots) => r is Ok && final(f)@ == slots.st && r->Ok_0.round == slots.round && r->Ok_0.out
                == slots.out && r->Ok_0.yielded == slots.yielded && r->Ok_0.header == slots.st.blocks.len(),
            Err(e) => r is Err && r->Err_0@ == e,
        },
{
    match &h.nodes[n].op {
        OpType::TailLoop { just_inputs, just_outputs, rest } => {
            if n >= f.bound.len() {
                return Err(EmitError::malformed(n, Malformation::BadNode));
            }
            let ins = h.nodes[n].op.input_types();
            let outs = h.nodes[n].op.output_types();
            let yields = loop_yield_types(just_inputs, just_outputs, rest);
            let vals = match emit_loads(ctx, h, f, n, &h.nodes[n].inputs, &ins) {
                Err(e) => {
                    return Err(e);
                },
                Ok(vals) => vals,
            };
            proof {
                lemma_row_view(f.slots);
            }
            let round = f.slots.len();
            match emit_slots(ctx, f, &ins) {
                Err(e) => {
                    return Err(e);
                },
                Ok(()) => {},
            }
            match emit_stores(f, n, round, &vals) {
                Err(e) => {
                    return Err(e);
                },
                Ok(()) => {},
            }
            proof {
                lemma_row_view(f.slots);
            }
            let out = f.slots.len();
            match emit_slots(ctx, f, &outs) {
                Err(e) => {
                    return Err(e);
                },
                Ok(()) => {},
            }
            proof {
                lemma_row_view(f.slots);
            }
            let yielded = f.slots.len();
            match emit_slots(ctx, f, &yields) {
                Err(e) => {
                    return Err(e);
                },
                Ok(()) => {},
            }
            let header = close_towards_next(f);
            Ok(LoopPlaces { round, out, yielded, header })
        },
        _ => Err(EmitError::malformed(n, Malformation::UnexpectedOp)),
    }
}

/// The values that hold the first of some values.
pub fn take_first(vals: &Values) -> (r: Values)
    requires
        vals.operands@.len() == vals.types@.len(),
    ensures
        r@ == first_of(vals@),
        r.operands@.len() == r.types@.len(),
{
    let mut r = Values::new();
    proof {
        lemma_row_view(vals.types);
    }
    if vals.operands.len() > 0 {
        r.push(vals.operands[0].duplicate(), vals.types[0].duplicate());
    }
    proof {
        assert(r@.operands =~= first_of(vals@).operands);
        assert(r@.layouts =~= first_of(vals@).layouts);
    }
    r
}

/// Emits one round of a loop, and returns the discriminant that says
/// whether the loop goes on.
pub fn emit_loop_round<L: ExtensionLowering>(
    ctx: &mut EmitContext<L>,
    h: &Hugr,
    f: &mut FuncEmitter,
    n: usize,
    round: usize,
    yielded: usize,
) -> (r: Result<Operand, EmitError>)
    requires
        old(ctx).wf(),
        old(f).wf(),
        n < h.nodes@.len(),
    ensures
        final(ctx).wf(),
        final(ctx).registry == old(ctx).registry,
        final(f).wf(),
        agrees_operand(r, final(f)@, loop_round(old(ctx).registry, *h, old(f)@, n, round as nat, yielded as nat)),
    decreases h.nodes@.len() - n, 4nat, 0nat,
{
    let declared = h.nodes[n].op.input_types();
    let yielded_types = yield_types(&h.nodes[n].op);
    if !check_boundary(h, n, &declared, &yielded_types) {
        return Err(EmitError::malformed(n, Malformation::TypeMismatch));
    }
    proof {
        lemma_type_row_view(declared);
    }
    let count = declared.len();
    let yields = yield_count(&h.nodes[n].op);
    let ins = match emit_load_slots(f, n, round, count) {
        Err(e) => {
            return Err(e);
        },
        Ok(ins) => ins,
    };
    let outs = match emit_region(ctx, h, f, n, ins) {
        Err(e) => {
            return Err(e);
        },
        Ok(outs) => outs,
    };
    if outs.operands.len() != yields {
        return Err(EmitError::malformed(n, Malformation::Arity));
    }
    match emit_stores(f, n, yielded, &outs) {
        Err(e) => {
            return Err(e);
        },
        Ok(()) => {},
    }
    let first = take_first(&outs);
    emit_discriminant(f, n, &first)
}

/// The number of values that a round of a loop yields.
pub fn yield_count(op: &OpType) -> (r: usize)
    ensures
        r == yields_count(*op),
{
    match op {
        OpType::TailLoop { just_inputs, just_outputs, rest } => {
            let row = loop_yield_types(just_inputs, just_outputs, rest);
            proof {
                lemma_type_row_view(row);
            }
            row.len()
        },
        _ => 0,
    }
}

/// Emits the exit of a loop.
pub fn emit_loop_exit(f: &mut FuncEmitter, n: usize, places: &LoopPlaces, count: usize, on: Operand) -> (r: Result<
    (),
    EmitError,
>)
    requires
        old(f).wf(),
    ensures
        final(f).wf(),
        agrees_unit(
            r,
            final(f)@,
            loop_exit(
                old(f)@,
                n,
                LoopSlots {
                    st: old(f)@,
                    round: places.round as nat,
                    out: places.out as nat,
                    yielded: places.yielded as nat,
                },
                count as nat,
                places.header as nat,
                on@,
            ),
        ),
{
    let e = f.close_block(Terminator::Unreachable);
    let again = f.bodies.len();
    match emit_move_yield(f, n, places.yielded, count, 0, places.round) {
        Err(e) => {
            return Err(e);
        },
        Ok(()) => {},
    }
    f.close_block(Terminator::Br(places.header));
    let leave = f.bodies.len();
    match emit_move_yield(f, n, places.yielded, count, 1, places.out) {
        Err(e) => {
            return Err(e);
        },
        Ok(()) => {},
    }
    close_towards_next(f);
    let mut targets: Vec<usize> = Vec::new();
    targets.push(again);
    targets.push(leave);
    proof {
        lemma_move_keeps_blocks(old(f)@.close(TerminatorView::Unreachable), n, places.yielded as nat, count as nat, 0, places.round as nat);
        let st1 = move_yield(old(f)@.close(TerminatorView::Unreachable), n, places.yielded as nat, count as nat, 0, places.round as nat)->Ok_0;
        lemma_move_keeps_blocks(st1.close(TerminatorView::Br(places.header as nat)), n, places.yielded as nat, count as nat, 1, places.out as nat);
        assert(nats(targets@) =~= seq![(e + 1) as nat, (e + 2) as nat]);
    }
    f.retarget(e, Terminator::Switch { on, targets });
    Ok(())
}

/// Moving what a round has yielded closes no block.
pub proof fn lemma_move_keeps_blocks(st: FuncState, node: usize, from: nat, count: nat, tag: nat, to: nat)
    ensures
        move_yield(st, node, from, count, tag, to) matches Ok(st2) ==> st2.blocks == st.blocks,
{
    lemma_load_slots_keeps_blocks(st, node, from, count, 0, ValuesView::empty());
    match load_slots_from(st, node, from, count, 0, ValuesView::empty()) {
        Err(e) => {},
        Ok((st1, vals)) => {
            if vals.operands.len() >= 1 && vals.layouts.len() >= 1 {
                match vals.layouts[0] {
                    Layout::Union(_, vs) => if tag < vs.len() {
                        lemma_fields_keep_blocks(st1, vals.operands[0], tag, vs[tag as int], 0, ValuesView::empty());
                    },
                    _ => {},
                }
            }
            match case_inputs(st1, node, tag, vals) {
                Err(e) => {},
                Ok((st2, ins)) => {
                    crate::wires::lemma_bound_kept_by_stores(st2, node, to, ins, 0);
                },
            }
        },
    }
}

pub proof fn lemma_load_slots_keeps_blocks(st: FuncState, node: usize, base: nat, count: nat, k: nat, acc: ValuesView)
    ensures
        load_slots_from(st, node, base, count, k, acc) matches Ok((st2, vals)) ==> st2.blocks == st.blocks,
    decreases count - k,
{
    if k < count && base + k < st.slots.len() {
        lemma_load_slots_keeps_blocks(
            st.push(InstrView::Load { slot: base + k, ty: st.slots[(base + k) as int] }),
            node,
            base,
            count,
            k + 1,
            acc.push(OperandView::Local(st.cur.len()), st.slots[(base + k) as int]),
        );
    }
}

pub proof fn lemma_fields_keep_blocks(st: FuncState, value: OperandView, tag: nat, fields: Seq<Layout>, k: nat, acc: ValuesView)
    ensures
        variant_fields_from(st, value, tag, fields, k, acc).0.blocks == st.blocks,
    decreases fields.len() - k,
{
    if k < fields.len() {
        lemma_fields_keep_blocks(
            st.push(InstrView::VariantField { ty: fields[k as int], value, tag, index: k }),
            value,
            tag,
            fields,
            k + 1,
            acc.push(OperandView::Local(st.cur.len()), fields[k as int]),
        );
    }
}

/// Control lowering: emits a loop as an entry, one round from the
/// loop's header on, and an exit that branches back to the header or on.
pub fn emit_tail_loop<L: ExtensionLowering>(ctx: &mut EmitContext<L>, h: &Hugr, f: &mut FuncEmitter, n: usize) -> (r:
    Result<(), EmitError>)
    requires
        old(ctx).wf(),
        old(f).wf(),
        n < h.nodes@.len(),
    ensures
        final(ctx).wf(),
        final(ctx).registry == old(ctx).registry,
        final(f).wf(),
        agrees_unit(r, final(f)@, loop_code(old(ctx).registry, *h, old(f)@, n)),
    decreases h.nodes@.len() - n, 5nat, 0nat,
{
    let places = match emit_loop_entry(ctx, h, f, n) {
        Err(e) => {
            return Err(e);
        },
        Ok(places) => places,
    };
    let on = match emit_loop_round(ctx, h, f, n, places.round, places.yielded) {
        Err(e) => {
            return Err(e);
        },
        Ok(on) => on,
    };
    let count = yield_count(&h.nodes[n].op);
    match emit_loop_exit(f, n, &places, count, on) {
        Err(e) => {
            return Err(e);
        },
        Ok(()) => {},
    }
    f.bind(n, places.out);
    Ok(())
}

/// Emits the node `c` of a region, by the kind of its operation.
pub fn emit_node<L: ExtensionLowering>(ctx: &mut EmitContext<L>, h: &Hugr, f: &mut FuncEmitter, c: usize) -> (r:
    Result<(), EmitError>)
    requires
        old(ctx).wf(),
        old(f).wf(),
    ensures
        final(ctx).wf(),
        final(ctx).registry == old(ctx).registry,
        final(f).wf(),
        agrees_unit(r, final(f)@, node_code(old(ctx).registry, *h, old(f)@, c)),
    decreases h.nodes@.len() - c, 6nat, 0nat,
{
    if c >= h.nodes.len() {
        return Err(EmitError::malformed(c, Malformation::BadNode));
    }
    match &h.nodes[c].op {
        OpType::Dfg { signature } => {
            if !check_boundary(h, c, &signature.input, &signature.output) {
                return Err(EmitError::malformed(c, Malformation::TypeMismatch));
            }
            let vals = match emit_loads(ctx, h, f, c, &h.nodes[c].inputs, &signature.input) {
                Err(e) => {
                    return Err(e);
                },
                Ok(vals) => vals,
            };
            let outs = match emit_region(ctx, h, f, c, vals) {
                Err(e) => {
                    return Err(e);
                },
                Ok(outs) => outs,
            };
            emit_outputs(ctx, f, c, &signature.output, &outs)
        },
        OpType::Conditional { .. } => emit_conditional(ctx, h, f, c),
        OpType::TailLoop { .. } => emit_tail_loop(ctx, h, f, c),
        OpType::MakeTuple { .. } => emit_leaf_node(ctx, h, f, c),
        OpType::UnpackTuple { .. } => emit_leaf_node(ctx, h, f, c),
        OpType::Tag { .. } => emit_leaf_node(ctx, h, f, c),
        OpType::LoadConstant { .. } => emit_leaf_node(ctx, h, f, c),
        OpType::Extension(_) => emit_leaf_node(ctx, h, f, c),
        _ => Err(EmitError::malformed(c, Malformation::UnexpectedOp)),
    }
}

} // verus!

//! Validity by construction: every state that emission reaches holds
//! well-formed instructions only, so that what emission yields passes
//! structural verification.
use vstd::prelude::*;
use crate::layout::Layout;
use crate::ir::InstrView;
use crate::ir::OperandView;
use crate::ir::TerminatorView;
use crate::ir::ConstantView;
use crate::ir::constant_layout;
use crate::ir::constant_ok;
use crate::ir::instr_ok;
use crate::ir::instrs_ok;
use crate::ir::operand_layout;
use crate::ir::operands_have;
use crate::ir::result_layout;
use crate::ir::targets_in_range;
use crate::types::TypeView;
use crate::ops::OpType;
use crate::ops::op_inputs;
use crate::ops::op_outputs;
use crate::hugr::Hugr;
use crate::hugr::Wire;
use crate::extension::ExtensionLowering;
use crate::extension::ExtensionOpRegistry;
use crate::extension::find;
use crate::convert::convert_type;
use crate::constant::lower_value;
use crate::state::FuncState;
use crate::state::ValuesView;
use crate::wires::wire_slot;
use crate::wires::load_inputs_from;
use crate::wires::load_inputs;
use crate::wires::store_values_from;
use crate::wires::alloc_slots_from;
use crate::wires::bind_outputs;
use crate::leaf::single;
use crate::leaf::unpack_from;
use crate::leaf::append_checked_from;
use crate::leaf::typed_from;
use crate::region::leaf_values;
use crate::region::leaf_node;
use crate::region::discriminant;
use crate::region::variant_fields_from;
use crate::region::with_rest;
use crate::region::case_inputs;
use crate::region::branch_all_from;
use crate::region::load_slots_from;
use crate::region::move_yield;
use crate::frame::grows;
use crate::frame::lemma_alloc_grows;

verus! {

/// Whether a terminator can stand at the end of the instructions `body`
/// while the function is emitted: it names blocks that are closed or
/// open, and dispatches on an integer.
pub open spec fn pending_ok(params: Seq<Layout>, blocks: nat, body: Seq<InstrView>, t: TerminatorView) -> bool {
    match t {
        TerminatorView::Ret(_) => false,
        TerminatorView::Br(b) => b <= blocks,
        TerminatorView::Switch(on, targets) => {
            &&& operand_layout(params, body, on) matches Some(Layout::Int(_))
            &&& targets_in_range(targets, blocks + 1)
        },
        TerminatorView::Unreachable => true,
    }
}

/// Whether the closed block `b` is well formed.
pub open spec fn closed_ok(st: FuncState, b: int) -> bool {
    &&& instrs_ok(st.slots, st.params, st.blocks[b].instrs)
    &&& pending_ok(st.params, st.blocks.len(), st.blocks[b].instrs, st.blocks[b].term)
}

/// Whether every instruction that the state holds is well formed.
pub open spec fn sound(st: FuncState) -> bool {
    &&& instrs_ok(st.slots, st.params, st.cur)
    &&& forall|b: int| 0 <= b < st.blocks.len() ==> #[trigger] closed_ok(st, b)
}

/// Whether the values are what they claim to be at the end of the open
/// block: each operand has its layout there.
pub open spec fn typed(st: FuncState, vals: ValuesView) -> bool {
    operands_have(st.params, st.cur, vals.operands, vals.layouts)
}

/// Whether `short` begins `long`.
pub open spec fn begins<A>(short: Seq<A>, long: Seq<A>) -> bool {
    short.len() <= long.len() && forall|i: int| 0 <= i < short.len() ==> #[trigger] long[i] == short[i]
}

/// More slots leave an operand's layout as it was.
pub proof fn lemma_instr_more_slots(
    slots: Seq<Layout>,
    more: Seq<Layout>,
    params: Seq<Layout>,
    before: Seq<InstrView>,
    i: InstrView,
)
    requires
        begins(slots, more),
        instr_ok(slots, params, before, i),
    ensures
        instr_ok(more, params, before, i),
{
    match i {
        InstrView::Load { slot, ty } => {
            assert(more[slot as int] == slots[slot as int]);
        },
        InstrView::Store { slot, value } => {
            assert(more[slot as int] == slots[slot as int]);
        },
        _ => {},
    }
}

/// More slots leave well-formed instructions well formed.
pub proof fn lemma_instrs_more_slots(slots: Seq<Layout>, more: Seq<Layout>, params: Seq<Layout>, instrs: Seq<InstrView>)
    requires
        begins(slots, more),
        instrs_ok(slots, params, instrs),
    ensures
        instrs_ok(more, params, instrs),
{
    assert forall|k: int| 0 <= k < instrs.len() implies instr_ok(more, params, instrs.take(k), #[trigger] instrs[k]) by {
        lemma_instr_more_slots(slots, more, params, instrs.take(k), instrs[k]);
    }
}

/// An operand that has a layout keeps it when an instruction is appended.
pub proof fn lemma_operand_kept(params: Seq<Layout>, before: Seq<InstrView>, i: InstrView, v: OperandView)
    requires
        operand_layout(params, before, v) is Some,
    ensures
        operand_layout(params, before.push(i), v) == operand_layout(params, before, v),
{
}

/// A well-formed instruction that is appended leaves the state sound,
/// leaves typed values typed, and yields what it says.
pub proof fn lemma_push_sound(st: FuncState, i: InstrView)
    requires
        sound(st),
        instr_ok(st.slots, st.params, st.cur, i),
    ensures
        sound(st.push(i)),
        operand_layout(st.params, st.push(i).cur, OperandView::Local(st.cur.len())) == result_layout(i),
{
    let st2 = st.push(i);
    assert forall|k: int| 0 <= k < st2.cur.len() implies instr_ok(
        st2.slots,
        st2.params,
        st2.cur.take(k),
        #[trigger] st2.cur[k],
    ) by {
        if k < st.cur.len() {
            assert(st2.cur.take(k) =~= st.cur.take(k));
            assert(st2.cur[k] == st.cur[k]);
        } else {
            assert(st2.cur.take(k) =~= st.cur);
        }
    }
    assert forall|b: int| 0 <= b < st2.blocks.len() implies #[trigger] closed_ok(st2, b) by {
        assert(closed_ok(st, b));
    }
}

/// Typed values stay typed when an instruction is appended.
pub proof fn lemma_push_typed(st: FuncState, i: InstrView, vals: ValuesView)
    requires
        typed(st, vals),
    ensures
        typed(st.push(i), vals),
{
    assert forall|k: int| 0 <= k < vals.operands.len() implies operand_layout(
        st.params,
        st.push(i).cur,
        #[trigger] vals.operands[k],
    ) == Some(vals.layouts[k]) by {
        lemma_operand_kept(st.params, st.cur, i, vals.operands[k]);
    }
}

/// Typed values stay typed with one more that is typed.
pub proof fn lemma_typed_push(st: FuncState, vals: ValuesView, v: OperandView, l: Layout)
    requires
        typed(st, vals),
        operand_layout(st.params, st.cur, v) == Some(l),
    ensures
        typed(st, vals.push(v, l)),
{
    let more = vals.push(v, l);
    assert forall|k: int| 0 <= k < more.operands.len() implies operand_layout(
        st.params,
        st.cur,
        #[trigger] more.operands[k],
    ) == Some(more.layouts[k]) by {
        if k < vals.operands.len() {
            assert(more.operands[k] == vals.operands[k]);
        }
    }
}

/// A state that only grew, by well-formed instructions, is sound.
pub proof fn lemma_grown_sound(st: FuncState, st2: FuncState)
    requires
        sound(st),
        grows(st, st2),
        instrs_ok(st2.slots, st2.params, st2.cur),
    ensures
        sound(st2),
{
    assert forall|b: int| 0 <= b < st2.blocks.len() implies #[trigger] closed_ok(st2, b) by {
        assert(closed_ok(st, b));
        assert(st2.blocks[b] == st.blocks[b]);
        lemma_instrs_more_slots(st.slots, st2.slots, st.params, st.blocks[b].instrs);
    }
}

/// Loading leaves the state sound and yields typed values.
pub proof fn lemma_load_sound<L: ExtensionLowering>(
    reg: ExtensionOpRegistry<L>,
    h: Hugr,
    st: FuncState,
    node: usize,
    wires: Seq<Wire>,
    expect: Seq<TypeView>,
    i: nat,
    acc: ValuesView,
)
    requires
        sound(st),
        typed(st, acc),
    ensures
        load_inputs_from(reg, h, st, node, wires, expect, i, acc) matches Ok((st2, vals)) ==> sound(st2)
            && typed(st2, vals),
    decreases wires.len() - i,
{
    if i < wires.len() {
        match wire_slot(h, st, wires[i as int]) {
            None => {},
            Some(slot) => match convert_type(reg.types@, expect[i as int]) {
                Err(e) => {},
                Ok(l) => if st.slots[slot as int] == l {
                    let instr = InstrView::Load { slot, ty: l };
                    let st1 = st.push(instr);
                    let acc1 = acc.push(OperandView::Local(st.cur.len()), l);
                    lemma_push_sound(st, instr);
                    lemma_push_typed(st, instr, acc);
                    lemma_typed_push(st1, acc, OperandView::Local(st.cur.len()), l);
                    lemma_load_sound(reg, h, st1, node, wires, expect, i + 1, acc1);
                },
            },
        }
    }
}

/// Storing typed values leaves the state sound.
pub proof fn lemma_store_sound(st: FuncState, node: usize, base: nat, vals: ValuesView, i: nat)
    requires
        sound(st),
        typed(st, vals),
    ensures
        store_values_from(st, node, base, vals, i) matches Ok(st2) ==> sound(st2),
    decreases vals.operands.len() - i,
{
    if i < vals.operands.len() && (i < vals.layouts.len() && base + i < st.slots.len() && st.slots[(base + i) as int]
        == vals.layouts[i as int]) {
        let instr = InstrView::Store { slot: base + i, value: vals.operands[i as int] };
        lemma_push_sound(st, instr);
        lemma_push_typed(st, instr, vals);
        lemma_store_sound(st.push(instr), node, base, vals, i + 1);
    }
}

/// Allocating leaves the state sound.
pub proof fn lemma_alloc_sound<L: ExtensionLowering>(
    reg: ExtensionOpRegistry<L>,
    st: FuncState,
    types: Seq<TypeView>,
    i: nat,
)
    requires
        sound(st),
        i <= types.len(),
    ensures
        alloc_slots_from(reg, st, types, i) matches Ok(st2) ==> sound(st2),
{
    lemma_alloc_grows(reg, st, types, i);
    match alloc_slots_from(reg, st, types, i) {
        Ok(st2) => {
            lemma_instrs_more_slots(st.slots, st2.slots, st.params, st.cur);
            lemma_grown_sound(st, st2);
        },
        Err(e) => {},
    }
}

/// Binding typed values as the outputs of a node leaves the state sound.
pub proof fn lemma_bind_sound<L: ExtensionLowering>(
    reg: ExtensionOpRegistry<L>,
    st: FuncState,
    node: usize,
    types: Seq<TypeView>,
    vals: ValuesView,
)
    requires
        sound(st),
        typed(st, vals),
    ensures
        bind_outputs(reg, st, node, types, vals) matches Ok(st2) ==> sound(st2),
{
    if node < st.bound.len() && vals.operands.len() == types.len() {
        lemma_alloc_sound(reg, st, types, 0);
        lemma_alloc_grows(reg, st, types, 0);
        match alloc_slots_from(reg, st, types, 0) {
            Err(e) => {},
            Ok(st1) => {
                assert(typed(st1, vals));
                lemma_store_sound(st1, node, st.slots.len(), vals, 0);
                match store_values_from(st1, node, st.slots.len(), vals, 0) {
                    Err(e) => {},
                    Ok(st2) => {
                        let st3 = st2.bind(node as int, st.slots.len());
                        assert forall|b: int| 0 <= b < st3.blocks.len() implies #[trigger] closed_ok(st3, b) by {
                            assert(closed_ok(st2, b));
                        }
                    },
                }
            },
        }
    }
}

/// The projections of unpack-tuple are well formed and typed.
pub proof fn lemma_unpack_sound(st: FuncState, agg: OperandView, fields: Seq<Layout>, i: nat, acc: ValuesView)
    requires
        sound(st),
        typed(st, acc),
        operand_layout(st.params, st.cur, agg) == Some(Layout::Struct(fields)),
    ensures
        unpack_from(st, agg, fields, i, acc) matches Ok((st2, vals)) ==> sound(st2) && typed(st2, vals),
    decreases fields.len() - i,
{
    if i < fields.len() {
        let instr = InstrView::ExtractField { ty: fields[i as int], agg, index: i };
        let st1 = st.push(instr);
        let acc1 = acc.push(OperandView::Local(st.cur.len()), fields[i as int]);
        lemma_push_sound(st, instr);
        lemma_push_typed(st, instr, acc);
        lemma_typed_push(st1, acc, OperandView::Local(st.cur.len()), fields[i as int]);
        lemma_operand_kept(st.params, st.cur, instr, agg);
        lemma_unpack_sound(st1, agg, fields, i + 1, acc1);
    }
}

/// Instructions that were checked when they were appended leave the state
/// sound.
pub proof fn lemma_append_checked_sound(st: FuncState, node: usize, code: Seq<InstrView>, i: nat)
    requires
        sound(st),
    ensures
        append_checked_from(st, node, code, i) matches Ok(st2) ==> sound(st2),
    decreases code.len() - i,
{
    if i < code.len() && instr_ok(st.slots, st.params, st.cur, code[i as int]) {
        lemma_push_sound(st, code[i as int]);
        lemma_append_checked_sound(st.push(code[i as int]), node, code, i + 1);
    }
}

/// Operands that were given the layouts that they have are typed.
pub proof fn lemma_typed_from(st: FuncState, node: usize, outs: Seq<OperandView>, i: nat, acc: ValuesView)
    requires
        typed(st, acc),
    ensures
        typed_from(st, node, outs, i, acc) matches Ok((st2, vals)) ==> st2 == st && typed(st2, vals),
    decreases outs.len() - i,
{
    if i < outs.len() {
        match operand_layout(st.params, st.cur, outs[i as int]) {
            None => {},
            Some(l) => {
                lemma_typed_push(st, acc, outs[i as int], l);
                lemma_typed_from(st, node, outs, i + 1, acc.push(outs[i as int], l));
            },
        }
    }
}

pub proof fn lemma_single_typed(st: FuncState, v: OperandView, l: Layout)
    requires
        operand_layout(st.params, st.cur, v) == Some(l),
    ensures
        typed(st, single(v, l)),
{
}

pub proof fn lemma_empty_typed(st: FuncState)
    ensures
        typed(st, ValuesView::empty()),
{
}

/// Lowering a node without children leaves the state sound and yields
/// typed values.
pub proof fn lemma_leaf_values_sound<L: ExtensionLowering>(
    reg: ExtensionOpRegistry<L>,
    st: FuncState,
    node: usize,
    op: OpType,
    vals: ValuesView,
)
    requires
        sound(st),
        typed(st, vals),
    ensures
        leaf_values(reg, st, node, op, vals) matches Ok((st2, outs)) ==> sound(st2) && typed(st2, outs),
{
    match op {
        OpType::MakeTuple { tys } => {
            let ty = Layout::Struct(vals.layouts);
            let instr = InstrView::MakeStruct { ty, fields: vals.operands };
            lemma_push_sound(st, instr);
            lemma_single_typed(st.push(instr), OperandView::Local(st.cur.len()), ty);
        },
        OpType::UnpackTuple { tys } => {
            if vals.operands.len() == 1 && vals.layouts.len() == 1 {
                match vals.layouts[0] {
                    Layout::Struct(fields) => {
                        lemma_empty_typed(st);
                        assert(operand_layout(st.params, st.cur, vals.operands[0]) == Some(vals.layouts[0]));
                        lemma_unpack_sound(st, vals.operands[0], fields, 0, ValuesView::empty());
                    },
                    _ => {},
                }
            }
        },
        OpType::Tag { tag, variants } => {
            let rows = crate::types::type_rows_view(variants);
            if tag < rows.len() {
                match convert_type(reg.types@, TypeView::Sum(rows)) {
                    Ok(Layout::Int(bits)) => {
                        crate::convert::lemma_unit_sum_layout(reg.types@, rows);
                        crate::layout::lemma_tag_width_is_least(rows.len());
                        crate::types::lemma_type_rows_view(variants);
                        let c = ConstantView::Int(bits as u32, tag as u64);
                        assert(constant_ok(c));
                        lemma_single_typed(st, OperandView::Const(c), Layout::Int(bits));
                    },
                    Ok(Layout::Union(bits, vs)) => {
                        if !(tag >= vs.len() || vals.layouts != vs[tag as int] || vals.operands.len()
                            != vals.layouts.len()) {
                            let ty = Layout::Union(bits, vs);
                            let instr = InstrView::MakeVariant { ty, tag: tag as nat, fields: vals.operands };
                            lemma_push_sound(st, instr);
                            lemma_single_typed(st.push(instr), OperandView::Local(st.cur.len()), ty);
                        }
                    },
                    _ => {},
                }
            }
        },
        OpType::LoadConstant { value } => {
            match lower_value(reg.constants@, value, node) {
                Err(e) => {},
                Ok(c) => if constant_ok(c) {
                    lemma_single_typed(st, OperandView::Const(c), constant_layout(c));
                },
            }
        },
        OpType::Extension(e) => {
            match find(reg.ops@, e.extension@, e.name@) {
                None => {},
                Some(i) => match reg.ops[i].lowering.op_code(e@, vals.operands, vals.layouts, st.cur.len()) {
                    None => {},
                    Some(code) => {
                        lemma_append_checked_sound(st, node, code.instrs, 0);
                        match append_checked_from(st, node, code.instrs, 0) {
                            Err(e) => {},
                            Ok(st2) => {
                                lemma_empty_typed(st2);
                                lemma_typed_from(st2, node, code.outputs, 0, ValuesView::empty());
                            },
                        }
                    },
                },
            }
        },
        _ => {},
    }
}

/// Emitting a node without children leaves the state sound.
pub proof fn lemma_leaf_node_sound<L: ExtensionLowering>(reg: ExtensionOpRegistry<L>, h: Hugr, st: FuncState, node: usize)
    requires
        sound(st),
    ensures
        leaf_node(reg, h, st, node) matches Ok(st2) ==> sound(st2),
{
    let op = h.nodes[node as int].op;
    lemma_empty_typed(st);
    lemma_load_sound(reg, h, st, node, h.nodes[node as int].inputs@, op_inputs(op), 0, ValuesView::empty());
    match load_inputs(reg, h, st, node, h.nodes[node as int].inputs@, op_inputs(op)) {
        Err(e) => {},
        Ok((st1, vals)) => {
            lemma_leaf_values_sound(reg, st1, node, op, vals);
            match leaf_values(reg, st1, node, op, vals) {
                Err(e) => {},
                Ok((st2, outs)) => {
                    lemma_bind_sound(reg, st2, node, op_outputs(op), outs);
                },
            }
        },
    }
}

/// Typed values stay typed while the open block only grows.
pub proof fn lemma_grows_typed(st: FuncState, st2: FuncState, vals: ValuesView)
    requires
        grows(st, st2),
        typed(st, vals),
    ensures
        typed(st2, vals),
{
    assert forall|k: int| 0 <= k < vals.operands.len() implies operand_layout(
        st2.params,
        st2.cur,
        #[trigger] vals.operands[k],
    ) == Some(vals.layouts[k]) by {
        assert(operand_layout(st.params, st.cur, vals.operands[k]) == Some(vals.layouts[k]));
        match vals.operands[k] {
            OperandView::Local(j) => {
                assert(st2.cur[j as int] == st.cur[j as int]);
            },
            _ => {},
        }
    }
}

/// Closing the open block with a terminator that can stand there leaves
/// the state sound.
pub proof fn lemma_close_sound(st: FuncState, t: TerminatorView)
    requires
        sound(st),
        pending_ok(st.params, st.blocks.len() + 1, st.cur, t),
    ensures
        sound(st.close(t)),
{
    let st2 = st.close(t);
    assert forall|b: int| 0 <= b < st2.blocks.len() implies #[trigger] closed_ok(st2, b) by {
        if b < st.blocks.len() {
            assert(closed_ok(st, b));
            assert(st2.blocks[b] == st.blocks[b]);
        }
    }
}

/// Replacing the terminator of a closed block by one that can stand
/// there leaves the state sound.
pub proof fn lemma_retarget_sound(st: FuncState, b: int, t: TerminatorView)
    requires
        sound(st),
        0 <= b < st.blocks.len() ==> pending_ok(st.params, st.blocks.len(), st.blocks[b].instrs, t),
    ensures
        sound(st.retarget(b, t)),
{
    let st2 = st.retarget(b, t);
    assert forall|x: int| 0 <= x < st2.blocks.len() implies #[trigger] closed_ok(st2, x) by {
        assert(closed_ok(st, x));
    }
}

/// Letting blocks branch to a block that is closed or open leaves the
/// state sound.
pub proof fn lemma_branch_all_sound(st: FuncState, ends: Seq<nat>, m: nat, i: nat)
    requires
        sound(st),
        m <= st.blocks.len(),
    ensures
        sound(branch_all_from(st, ends, m, i)),
    decreases ends.len() - i,
{
    if i < ends.len() {
        lemma_retarget_sound(st, ends[i as int] as int, TerminatorView::Br(m));
        lemma_branch_all_sound(st.retarget(ends[i as int] as int, TerminatorView::Br(m)), ends, m, i + 1);
    }
}

/// Reading the discriminant leaves the state sound and yields an integer.
pub proof fn lemma_discriminant_sound(st: FuncState, node: usize, v: ValuesView)
    requires
        sound(st),
        typed(st, v),
    ensures
        discriminant(st, node, v) matches Ok((st2, on)) ==> sound(st2) && operand_layout(st2.params, st2.cur, on)
            matches Some(Layout::Int(_)),
{
    if v.operands.len() == 1 && v.layouts.len() == 1 {
        assert(operand_layout(st.params, st.cur, v.operands[0]) == Some(v.layouts[0]));
        match v.layouts[0] {
            Layout::Union(bits, _) => {
                lemma_push_sound(st, InstrView::GetTag { ty: Layout::Int(bits), value: v.operands[0] });
            },
            _ => {},
        }
    }
}

/// Reading the fields of a variant leaves the state sound and yields
/// typed values.
pub proof fn lemma_variant_fields_sound(
    st: FuncState,
    value: OperandView,
    tag: nat,
    bits: nat,
    vs: Seq<Seq<Layout>>,
    k: nat,
    acc: ValuesView,
)
    requires
        sound(st),
        typed(st, acc),
        operand_layout(st.params, st.cur, value) == Some(Layout::Union(bits, vs)),
        tag < vs.len(),
    ensures
        sound(variant_fields_from(st, value, tag, vs[tag as int], k, acc).0),
        typed(
            variant_fields_from(st, value, tag, vs[tag as int], k, acc).0,
            variant_fields_from(st, value, tag, vs[tag as int], k, acc).1,
        ),
    decreases vs[tag as int].len() - k,
{
    let fields = vs[tag as int];
    if k < fields.len() {
        let instr = InstrView::VariantField { ty: fields[k as int], value, tag, index: k };
        let st1 = st.push(instr);
        let acc1 = acc.push(OperandView::Local(st.cur.len()), fields[k as int]);
        lemma_push_sound(st, instr);
        lemma_push_typed(st, instr, acc);
        lemma_typed_push(st1, acc, OperandView::Local(st.cur.len()), fields[k as int]);
        lemma_operand_kept(st.params, st.cur, instr, value);
        lemma_variant_fields_sound(st1, value, tag, bits, vs, k + 1, acc1);
    }
}

/// Typed values with more typed values are typed.
pub proof fn lemma_with_rest_typed(st: FuncState, acc: ValuesView, vals: ValuesView, k: nat)
    requires
        typed(st, acc),
        typed(st, vals),
    ensures
        typed(st, with_rest(acc, vals, k)),
    decreases vals.operands.len() - k,
{
    if !(k >= vals.operands.len() || k >= vals.layouts.len()) {
        assert(operand_layout(st.params, st.cur, vals.operands[k as int]) == Some(vals.layouts[k as int]));
        lemma_typed_push(st, acc, vals.operands[k as int], vals.layouts[k as int]);
        lemma_with_rest_typed(st, acc.push(vals.operands[k as int], vals.layouts[k as int]), vals, k + 1);
    }
}

/// Reading the inputs of a case leaves the state sound and yields typed
/// values.
pub proof fn lemma_case_inputs_sound(st: FuncState, node: usize, i: nat, vals: ValuesView)
    requires
        sound(st),
        typed(st, vals),
    ensures
        case_inputs(st, node, i, vals) matches Ok((st2, ins)) ==> sound(st2) && typed(st2, ins),
{
    if vals.operands.len() >= 1 && vals.layouts.len() >= 1 {
        assert(operand_layout(st.params, st.cur, vals.operands[0]) == Some(vals.layouts[0]));
        match vals.layouts[0] {
            Layout::Int(_) => {
                lemma_empty_typed(st);
                lemma_with_rest_typed(st, ValuesView::empty(), vals, 1);
            },
            Layout::Union(bits, vs) => if i < vs.len() {
                lemma_empty_typed(st);
                lemma_variant_fields_sound(st, vals.operands[0], i, bits, vs, 0, ValuesView::empty());
                crate::frame::lemma_variant_fields_grows(st, vals.operands[0], i, vs[i as int], 0, ValuesView::empty());
                let r = variant_fields_from(st, vals.operands[0], i, vs[i as int], 0, ValuesView::empty());
                lemma_grows_typed(st, r.0, vals);
                lemma_with_rest_typed(r.0, r.1, vals, 1);
            },
            _ => {},
        }
    }
}

/// Loading slots leaves the state sound and yields typed values.
pub proof fn lemma_load_slots_sound(st: FuncState, node: usize, base: nat, count: nat, k: nat, acc: ValuesView)
    requires
        sound(st),
        typed(st, acc),
    ensures
        load_slots_from(st, node, base, count, k, acc) matches Ok((st2, vals)) ==> sound(st2) && typed(st2, vals),
    decreases count - k,
{
    if k < count && base + k < st.slots.len() {
        let l = st.slots[(base + k) as int];
        let instr = InstrView::Load { slot: base + k, ty: l };
        let st1 = st.push(instr);
        let acc1 = acc.push(OperandView::Local(st.cur.len()), l);
        lemma_push_sound(st, instr);
        lemma_push_typed(st, instr, acc);
        lemma_typed_push(st1, acc, OperandView::Local(st.cur.len()), l);
        lemma_load_slots_sound(st1, node, base, count, k + 1, acc1);
    }
}

/// Moving what a round of a loop has yielded leaves the state sound.
pub proof fn lemma_move_yield_sound(st: FuncState, node: usize, from: nat, count: nat, tag: nat, to: nat)
    requires
        sound(st),
    ensures
        move_yield(st, node, from, count, tag, to) matches Ok(st2) ==> sound(st2),
{
    lemma_empty_typed(st);
    lemma_load_slots_sound(st, node, from, count, 0, ValuesView::empty());
    match load_slots_from(st, node, from, count, 0, ValuesView::empty()) {
        Err(e) => {},
        Ok((st1, vals)) => {
            lemma_case_inputs_sound(st1, node, tag, vals);
            match case_inputs(st1, node, tag, vals) {
                Err(e) => {},
                Ok((st2, ins)) => {
                    lemma_store_sound(st2, node, to, ins, 0);
                },
            }
        },
    }
}

} // verus!

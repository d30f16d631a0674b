//! What emission leaves alone: the blocks that are closed, the slots that
//! are allocated, and the instructions that stand in the open block stay
//! as they are while more is emitted.
use vstd::prelude::*;
use crate::layout::Layout;
use crate::ir::InstrView;
use crate::ir::OperandView;
use crate::types::TypeView;
use crate::ops::OpType;
use crate::ops::op_inputs;
use crate::ops::op_outputs;
use crate::hugr::Hugr;
use crate::hugr::Wire;
use crate::extension::ExtensionLowering;
use crate::extension::ExtensionOpRegistry;
use crate::extension::find;
use crate::convert::convert_type;
use crate::state::FuncState;
use crate::state::ValuesView;
use crate::wires::wire_slot;
use crate::wires::load_inputs_from;
use crate::wires::load_inputs;
use crate::wires::store_values_from;
use crate::wires::alloc_slots_from;
use crate::wires::bind_outputs;
use crate::leaf::unpack_from;
use crate::leaf::append_checked_from;
use crate::leaf::typed_from;
use crate::region::leaf_values;
use crate::region::leaf_node;
use crate::region::discriminant;
use crate::region::variant_fields_from;
use crate::region::case_inputs;
use crate::region::load_slots_from;
use crate::region::move_yield;

verus! {

/// Whether `b` holds all that `a` holds: the same parameters, the slots
/// and the closed blocks of `a` at their places, and as many nodes.
pub open spec fn extends(a: FuncState, b: FuncState) -> bool {
    &&& b.params == a.params
    &&& b.bound.len() == a.bound.len()
    &&& a.slots.len() <= b.slots.len()
    &&& forall|i: int| 0 <= i < a.slots.len() ==> #[trigger] b.slots[i] == a.slots[i]
    &&& a.blocks.len() <= b.blocks.len()
    &&& forall|i: int| 0 <= i < a.blocks.len() ==> #[trigger] b.blocks[i] == a.blocks[i]
}

/// Whether `b` extends `a` within the same open block: no block was
/// closed, and the instructions of the open block of `a` still begin it.
pub open spec fn grows(a: FuncState, b: FuncState) -> bool {
    &&& extends(a, b)
    &&& b.blocks.len() == a.blocks.len()
    &&& a.cur.len() <= b.cur.len()
    &&& forall|i: int| 0 <= i < a.cur.len() ==> #[trigger] b.cur[i] == a.cur[i]
}

pub proof fn lemma_extends_trans(a: FuncState, b: FuncState, c: FuncState)
    requires
        extends(a, b),
        extends(b, c),
    ensures
        extends(a, c),
{
    assert forall|i: int| 0 <= i < a.slots.len() implies #[trigger] c.slots[i] == a.slots[i] by {
        assert(b.slots[i] == a.slots[i]);
    }
    assert forall|i: int| 0 <= i < a.blocks.len() implies #[trigger] c.blocks[i] == a.blocks[i] by {
        assert(b.blocks[i] == a.blocks[i]);
    }
}

pub proof fn lemma_grows_trans(a: FuncState, b: FuncState, c: FuncState)
    requires
        grows(a, b),
        grows(b, c),
    ensures
        grows(a, c),
{
    lemma_extends_trans(a, b, c);
    assert forall|i: int| 0 <= i < a.cur.len() implies #[trigger] c.cur[i] == a.cur[i] by {
        assert(b.cur[i] == a.cur[i]);
    }
}

pub proof fn lemma_push_grows(a: FuncState, i: InstrView)
    ensures
        grows(a, a.push(i)),
        a.push(i).slots == a.slots,
        a.push(i).bound == a.bound,
{
}

/// Loading appends to the open block, and changes neither the slots nor
/// what is bound.
pub proof fn lemma_load_grows<L: ExtensionLowering>(
    reg: ExtensionOpRegistry<L>,
    h: Hugr,
    st: FuncState,
    node: usize,
    wires: Seq<Wire>,
    expect: Seq<TypeView>,
    i: nat,
    acc: ValuesView,
)
    ensures
        load_inputs_from(reg, h, st, node, wires, expect, i, acc) matches Ok((st2, vals)) ==> grows(st, st2)
            && st2.slots == st.slots && st2.bound == st.bound,
    decreases wires.len() - i,
{
    if i < wires.len() {
        match wire_slot(h, st, wires[i as int]) {
            None => {},
            Some(slot) => match convert_type(reg.types@, expect[i as int]) {
                Err(e) => {},
                Ok(l) => if st.slots[slot as int] == l {
                    let st1 = st.push(InstrView::Load { slot, ty: l });
                    let acc1 = acc.push(OperandView::Local(st.cur.len()), l);
                    lemma_load_grows(reg, h, st1, node, wires, expect, i + 1, acc1);
                    match load_inputs_from(reg, h, st1, node, wires, expect, i + 1, acc1) {
                        Ok((st2, vals)) => {
                            lemma_push_grows(st, InstrView::Load { slot, ty: l });
                            lemma_grows_trans(st, st1, st2);
                        },
                        Err(e) => {},
                    }
                },
            },
        }
    }
}

/// Whether the last `count` instructions of `instrs` store into the slots
/// from `base` on, one after the other.
pub open spec fn ends_with_stores(instrs: Seq<InstrView>, base: nat, count: nat) -> bool {
    &&& instrs.len() >= count
    &&& forall|k: int|
        0 <= k < count ==> (#[trigger] instrs[instrs.len() - count + k]) is Store && instrs[instrs.len() - count
            + k]->Store_slot == base + k
}

/// Storing appends one store for each value to the open block, into the
/// slots from `base` on, and changes neither the slots nor what is bound.
pub proof fn lemma_store_grows(st: FuncState, node: usize, base: nat, vals: ValuesView, i: nat)
    requires
        i <= vals.operands.len(),
    ensures
        store_values_from(st, node, base, vals, i) matches Ok(st2) ==> {
            &&& grows(st, st2)
            &&& st2.slots == st.slots
            &&& st2.bound == st.bound
            &&& st2.cur.len() == st.cur.len() + vals.operands.len() - i
            &&& forall|k: int|
                i <= k < vals.operands.len() ==> (#[trigger] st2.cur[st.cur.len() + k - i]) is Store
                    && st2.cur[st.cur.len() + k - i]->Store_slot == base + k
        },
    decreases vals.operands.len() - i,
{
    if i < vals.operands.len() && (i < vals.layouts.len() && base + i < st.slots.len() && st.slots[(base + i) as int]
        == vals.layouts[i as int]) {
        let instr = InstrView::Store { slot: base + i, value: vals.operands[i as int] };
        let st1 = st.push(instr);
        lemma_store_grows(st1, node, base, vals, i + 1);
        match store_values_from(st1, node, base, vals, i + 1) {
            Ok(st2) => {
                lemma_push_grows(st, instr);
                lemma_grows_trans(st, st1, st2);
                assert forall|k: int| i <= k < vals.operands.len() implies (#[trigger] st2.cur[st.cur.len() + k
                    - i]) is Store && st2.cur[st.cur.len() + k - i]->Store_slot == base + k by {
                    if k == i {
                        assert(st2.cur[st.cur.len() as int] == st1.cur[st.cur.len() as int]);
                    } else {
                        assert(st2.cur[st1.cur.len() + k - (i + 1)] is Store);
                    }
                }
            },
            Err(e) => {},
        }
    }
}

/// Allocating changes nothing but the slots, which it appends to.
pub proof fn lemma_alloc_grows<L: ExtensionLowering>(
    reg: ExtensionOpRegistry<L>,
    st: FuncState,
    types: Seq<TypeView>,
    i: nat,
)
    requires
        i <= types.len(),
    ensures
        alloc_slots_from(reg, st, types, i) matches Ok(st2) ==> grows(st, st2) && st2.cur == st.cur
            && st2.bound == st.bound && st2.slots.len() == st.slots.len() + types.len() - i,
    decreases types.len() - i,
{
    if i < types.len() {
        match convert_type(reg.types@, types[i as int]) {
            Err(e) => {},
            Ok(l) => {
                let st1 = st.with_slot(l);
                lemma_alloc_grows(reg, st1, types, i + 1);
                match alloc_slots_from(reg, st1, types, i + 1) {
                    Ok(st2) => {
                        assert(grows(st, st1));
                        lemma_grows_trans(st, st1, st2);
                    },
                    Err(e) => {},
                }
            },
        }
    }
}

/// Binding the outputs of a node appends stores to the open block and
/// slots to the function, and binds the node to the first of them.
pub proof fn lemma_bind_grows<L: ExtensionLowering>(
    reg: ExtensionOpRegistry<L>,
    st: FuncState,
    node: usize,
    types: Seq<TypeView>,
    vals: ValuesView,
)
    ensures
        bind_outputs(reg, st, node, types, vals) matches Ok(st2) ==> {
            &&& grows(st, st2)
            &&& node < st.bound.len()
            &&& st2.bound == st.bound.update(node as int, Some(st.slots.len()))
            &&& st2.slots.len() == st.slots.len() + types.len()
        },
{
    if node < st.bound.len() && vals.operands.len() == types.len() {
        lemma_alloc_grows(reg, st, types, 0);
        match alloc_slots_from(reg, st, types, 0) {
            Err(e) => {},
            Ok(st1) => {
                lemma_store_grows(st1, node, st.slots.len(), vals, 0);
                match store_values_from(st1, node, st.slots.len(), vals, 0) {
                    Err(e) => {},
                    Ok(st2) => {
                        lemma_grows_trans(st, st1, st2);
                        let st3 = st2.bind(node as int, st.slots.len());
                        assert(grows(st2, st3));
                        lemma_grows_trans(st, st2, st3);
                    },
                }
            },
        }
    }
}

pub proof fn lemma_unpack_grows(st: FuncState, agg: OperandView, fields: Seq<Layout>, i: nat, acc: ValuesView)
    ensures
        unpack_from(st, agg, fields, i, acc) matches Ok((st2, vals)) ==> grows(st, st2) && st2.slots == st.slots
            && st2.bound == st.bound,
    decreases fields.len() - i,
{
    if i < fields.len() {
        let instr = InstrView::ExtractField { ty: fields[i as int], agg, index: i };
        let st1 = st.push(instr);
        let acc1 = acc.push(OperandView::Local(st.cur.len()), fields[i as int]);
        lemma_unpack_grows(st1, agg, fields, i + 1, acc1);
        match unpack_from(st1, agg, fields, i + 1, acc1) {
            Ok((st2, vals)) => {
                lemma_push_grows(st, instr);
                lemma_grows_trans(st, st1, st2);
            },
            Err(e) => {},
        }
    }
}

pub proof fn lemma_append_checked_grows(st: FuncState, node: usize, code: Seq<InstrView>, i: nat)
    ensures
        append_checked_from(st, node, code, i) matches Ok(st2) ==> grows(st, st2) && st2.slots == st.slots
            && st2.bound == st.bound,
    decreases code.len() - i,
{
    if i < code.len() && instr_ok_here(st, code[i as int]) {
        let st1 = st.push(code[i as int]);
        lemma_append_checked_grows(st1, node, code, i + 1);
        match append_checked_from(st1, node, code, i + 1) {
            Ok(st2) => {
                lemma_push_grows(st, code[i as int]);
                lemma_grows_trans(st, st1, st2);
            },
            Err(e) => {},
        }
    }
}

/// Whether an instruction is well formed at the end of the open block.
pub open spec fn instr_ok_here(st: FuncState, i: InstrView) -> bool {
    crate::ir::instr_ok(st.slots, st.params, st.cur, i)
}

pub proof fn lemma_typed_keeps(st: FuncState, node: usize, outs: Seq<OperandView>, i: nat, acc: ValuesView)
    ensures
        typed_from(st, node, outs, i, acc) matches Ok((st2, vals)) ==> st2 == st,
    decreases outs.len() - i,
{
    if i < outs.len() {
        match crate::ir::operand_layout(st.params, st.cur, outs[i as int]) {
            None => {},
            Some(l) => {
                lemma_typed_keeps(st, node, outs, i + 1, acc.push(outs[i as int], l));
            },
        }
    }
}

/// Lowering a node without children appends to the open block, and
/// changes neither the slots nor what is bound.
pub proof fn lemma_leaf_values_grows<L: ExtensionLowering>(
    reg: ExtensionOpRegistry<L>,
    st: FuncState,
    node: usize,
    op: OpType,
    vals: ValuesView,
)
    ensures
        leaf_values(reg, st, node, op, vals) matches Ok((st2, outs)) ==> grows(st, st2) && st2.slots
            == st.slots && st2.bound == st.bound,
{
    match op {
        OpType::MakeTuple { tys } => {},
        OpType::UnpackTuple { tys } => {
            if vals.operands.len() == 1 && vals.layouts.len() == 1 {
                match vals.layouts[0] {
                    Layout::Struct(fields) => {
                        lemma_unpack_grows(st, vals.operands[0], fields, 0, ValuesView::empty());
                    },
                    _ => {},
                }
            }
        },
        OpType::Tag { tag, variants } => {},
        OpType::LoadConstant { value } => {},
        OpType::Extension(e) => {
            match find(reg.ops@, e.extension@, e.name@) {
                None => {},
                Some(i) => match reg.ops[i].lowering.op_code(e@, vals.operands, vals.layouts, st.cur.len()) {
                    None => {},
                    Some(code) => {
                        lemma_append_checked_grows(st, node, code.instrs, 0);
                        match append_checked_from(st, node, code.instrs, 0) {
                            Err(e) => {},
                            Ok(st2) => {
                                lemma_typed_keeps(st2, node, code.outputs, 0, ValuesView::empty());
                            },
                        }
                    },
                },
            }
        },
        _ => {},
    }
}

/// Emitting a node without children appends to the open block and to the
/// slots, and binds the node.
pub proof fn lemma_leaf_node_grows<L: ExtensionLowering>(reg: ExtensionOpRegistry<L>, h: Hugr, st: FuncState, node: usize)
    ensures
        leaf_node(reg, h, st, node) matches Ok(st2) ==> grows(st, st2),
{
    let op = h.nodes[node as int].op;
    lemma_load_grows(reg, h, st, node, h.nodes[node as int].inputs@, op_inputs(op), 0, ValuesView::empty());
    match load_inputs(reg, h, st, node, h.nodes[node as int].inputs@, op_inputs(op)) {
        Err(e) => {},
        Ok((st1, vals)) => {
            lemma_leaf_values_grows(reg, st1, node, op, vals);
            match leaf_values(reg, st1, node, op, vals) {
                Err(e) => {},
                Ok((st2, outs)) => {
                    lemma_bind_grows(reg, st2, node, op_outputs(op), outs);
                    match bind_outputs(reg, st2, node, op_outputs(op), outs) {
                        Err(e) => {},
                        Ok(st3) => {
                            lemma_grows_trans(st, st1, st2);
                            lemma_grows_trans(st, st2, st3);
                        },
                    }
                },
            }
        },
    }
}

pub proof fn lemma_discriminant_grows(st: FuncState, node: usize, v: ValuesView)
    ensures
        discriminant(st, node, v) matches Ok((st2, on)) ==> grows(st, st2) && st2.slots == st.slots && st2.bound
            == st.bound,
{
}

pub proof fn lemma_variant_fields_grows(
    st: FuncState,
    value: OperandView,
    tag: nat,
    fields: Seq<Layout>,
    k: nat,
    acc: ValuesView,
)
    ensures
        grows(st, variant_fields_from(st, value, tag, fields, k, acc).0),
        variant_fields_from(st, value, tag, fields, k, acc).0.slots == st.slots,
        variant_fields_from(st, value, tag, fields, k, acc).0.bound == st.bound,
    decreases fields.len() - k,
{
    if k < fields.len() {
        let instr = InstrView::VariantField { ty: fields[k as int], value, tag, index: k };
        let st1 = st.push(instr);
        let acc1 = acc.push(OperandView::Local(st.cur.len()), fields[k as int]);
        lemma_variant_fields_grows(st1, value, tag, fields, k + 1, acc1);
        lemma_push_grows(st, instr);
        lemma_grows_trans(st, st1, variant_fields_from(st1, value, tag, fields, k + 1, acc1).0);
    }
}

pub proof fn lemma_case_inputs_grows(st: FuncState, node: usize, i: nat, vals: ValuesView)
    ensures
        case_inputs(st, node, i, vals) matches Ok((st2, ins)) ==> grows(st, st2) && st2.slots == st.slots
            && st2.bound == st.bound,
{
    if vals.operands.len() >= 1 && vals.layouts.len() >= 1 {
        match vals.layouts[0] {
            Layout::Union(_, vs) => if i < vs.len() {
                lemma_variant_fields_grows(st, vals.operands[0], i, vs[i as int], 0, ValuesView::empty());
            },
            _ => {},
        }
    }
}

/// Loading slots appends to the open block, and changes neither the
/// slots nor what is bound.
pub proof fn lemma_load_slots_grows(st: FuncState, node: usize, base: nat, count: nat, k: nat, acc: ValuesView)
    ensures
        load_slots_from(st, node, base, count, k, acc) matches Ok((st2, vals)) ==> grows(st, st2) && st2.slots
            == st.slots && st2.bound == st.bound,
    decreases count - k,
{
    if k < count && base + k < st.slots.len() {
        let instr = InstrView::Load { slot: base + k, ty: st.slots[(base + k) as int] };
        let st1 = st.push(instr);
        let acc1 = acc.push(OperandView::Local(st.cur.len()), st.slots[(base + k) as int]);
        lemma_load_slots_grows(st1, node, base, count, k + 1, acc1);
        match load_slots_from(st1, node, base, count, k + 1, acc1) {
            Ok((st2, vals)) => {
                lemma_push_grows(st, instr);
                lemma_grows_trans(st, st1, st2);
            },
            Err(e) => {},
        }
    }
}

/// Moving what a round of a loop has yielded appends to the open block,
/// and changes neither the slots nor what is bound.
pub proof fn lemma_move_yield_grows(st: FuncState, node: usize, from: nat, count: nat, tag: nat, to: nat)
    ensures
        move_yield(st, node, from, count, tag, to) matches Ok(st2) ==> grows(st, st2) && st2.slots == st.slots
            && st2.bound == st.bound,
{
    lemma_load_slots_grows(st, node, from, count, 0, ValuesView::empty());
    match load_slots_from(st, node, from, count, 0, ValuesView::empty()) {
        Err(e) => {},
        Ok((st1, vals)) => {
            lemma_case_inputs_grows(st1, node, tag, vals);
            match case_inputs(st1, node, tag, vals) {
                Err(e) => {},
                Ok((st2, ins)) => {
                    lemma_store_grows(st2, node, to, ins, 0);
                    match store_values_from(st2, node, to, ins, 0) {
                        Err(e) => {},
                        Ok(st3) => {
                            lemma_grows_trans(st, st1, st2);
                            lemma_grows_trans(st, st2, st3);
                        },
                    }
                },
            }
        },
    }
}

/// Loading yields as many operands as layouts.
pub proof fn lemma_load_lengths<L: ExtensionLowering>(
    reg: ExtensionOpRegistry<L>,
    h: Hugr,
    st: FuncState,
    node: usize,
    wires: Seq<Wire>,
    expect: Seq<TypeView>,
    i: nat,
    acc: ValuesView,
)
    requires
        acc.operands.len() == acc.layouts.len(),
    ensures
        load_inputs_from(reg, h, st, node, wires, expect, i, acc) matches Ok((st2, vals)) ==> vals.operands.len()
            == vals.layouts.len(),
    decreases wires.len() - i,
{
    if i < wires.len() {
        match wire_slot(h, st, wires[i as int]) {
            None => {},
            Some(slot) => match convert_type(reg.types@, expect[i as int]) {
                Err(e) => {},
                Ok(l) => if st.slots[slot as int] == l {
                    lemma_load_lengths(
                        reg,
                        h,
                        st.push(InstrView::Load { slot, ty: l }),
                        node,
                        wires,
                        expect,
                        i + 1,
                        acc.push(OperandView::Local(st.cur.len()), l),
                    );
                },
            },
        }
    }
}

} // verus!

//! Reading and binding wires: every wire lives in a stack slot, which the
//! node at its start writes and the nodes at its ends read.
use vstd::prelude::*;
use crate::layout::lemma_row_view;
use crate::ir::Operand;
use crate::ir::OperandView;
use crate::ir::Instr;
use crate::ir::InstrView;
use crate::types::Type;
use crate::types::TypeView;
use crate::types::type_row_view;
use crate::types::lemma_type_row_view;
use crate::ops::op_outputs;
use crate::hugr::Hugr;
use crate::hugr::Wire;
use crate::extension::ExtensionLowering;
use crate::extension::ExtensionOpRegistry;
use crate::convert::convert_type;
use crate::context::EmitContext;
use crate::state::FuncState;
use crate::state::FuncEmitter;
use crate::state::Values;
use crate::state::ValuesView;
use crate::error::EmitError;
use crate::error::EmitErrorView;
use crate::error::Malformation;

verus! {

/// The slot that holds a wire: the slot of its port, counted from the
/// first slot of the node it comes from. `None` where that node is not
/// emitted yet or has no such port.
pub open spec fn wire_slot(h: Hugr, st: FuncState, w: Wire) -> Option<nat> {
    if w.node < st.bound.len() && w.node < h.nodes@.len() {
        match st.bound[w.node as int] {
            Some(base) => if w.port < op_outputs(h.nodes[w.node as int].op).len() && base + w.port
                < st.slots.len() {
                Some((base + w.port) as nat)
            } else {
                None
            },
            None => None,
        }
    } else {
        None
    }
}

/// The type that a wire carries: the type that the node at its start
/// declares for the port.
pub open spec fn carried(h: Hugr, w: Wire) -> TypeView {
    op_outputs(h.nodes[w.node as int].op)[w.port as int]
}

/// Loads the wires of `wires` from position `i` on. Each wire must carry
/// the type that `expect` declares for its port; a wire of another type
/// is refused, also where the two types have one layout.
pub open spec fn load_inputs_from<L: ExtensionLowering>(
    reg: ExtensionOpRegistry<L>,
    h: Hugr,
    st: FuncState,
    node: usize,
    wires: Seq<Wire>,
    expect: Seq<TypeView>,
    i: nat,
    acc: ValuesView,
) -> Result<(FuncState, ValuesView), EmitErrorView>
    decreases wires.len() - i,
{
    if i >= wires.len() {
        Ok((st, acc))
    } else {
        match wire_slot(h, st, wires[i as int]) {
            None => Err(EmitErrorView::Malformed(node, Malformation::BadWire)),
            Some(slot) => match convert_type(reg.types@, expect[i as int]) {
                Err(e) => Err(e),
                Ok(l) => if carried(h, wires[i as int]) != expect[i as int] || st.slots[slot as int] != l {
                    Err(EmitErrorView::Malformed(node, Malformation::TypeMismatch))
                } else {
                    load_inputs_from(
                        reg,
                        h,
                        st.push(InstrView::Load { slot, ty: l }),
                        node,
                        wires,
                        expect,
                        i + 1,
                        acc.push(OperandView::Local(st.cur.len()), l),
                    )
                },
            },
        }
    }
}

/// Loads the values that the wires `wires` carry into the node `node`.
/// Each wire must come from a node that is already emitted, and must
/// carry the type that the node declares for the port.
pub open spec fn load_inputs<L: ExtensionLowering>(
    reg: ExtensionOpRegistry<L>,
    h: Hugr,
    st: FuncState,
    node: usize,
    wires: Seq<Wire>,
    expect: Seq<TypeView>,
) -> Result<(FuncState, ValuesView), EmitErrorView> {
    if wires.len() != expect.len() {
        Err(EmitErrorView::Malformed(node, Malformation::Arity))
    } else {
        load_inputs_from(reg, h, st, node, wires, expect, 0, ValuesView::empty())
    }
}

/// Stores the values of `vals` from position `i` on into the slots from
/// `base + i` on.
pub open spec fn store_values_from(st: FuncState, node: usize, base: nat, vals: ValuesView, i: nat) -> Result<
    FuncState,
    EmitErrorView,
>
    decreases vals.operands.len() - i,
{
    if i >= vals.operands.len() {
        Ok(st)
    } else if !(i < vals.layouts.len() && base + i < st.slots.len() && st.slots[(base + i) as int] == vals.layouts[i as int]) {
        Err(EmitErrorView::Malformed(node, Malformation::TypeMismatch))
    } else {
        store_values_from(
            st.push(InstrView::Store { slot: base + i, value: vals.operands[i as int] }),
            node,
            base,
            vals,
            i + 1,
        )
    }
}

/// Allocates one slot for each type of `types` from position `i` on.
pub open spec fn alloc_slots_from<L: ExtensionLowering>(
    reg: ExtensionOpRegistry<L>,
    st: FuncState,
    types: Seq<TypeView>,
    i: nat,
) -> Result<FuncState, EmitErrorView>
    decreases types.len() - i,
{
    if i >= types.len() {
        Ok(st)
    } else {
        match convert_type(reg.types@, types[i as int]) {
            Err(e) => Err(e),
            Ok(l) => alloc_slots_from(reg, st.with_slot(l), types, i + 1),
        }
    }
}

/// Binds the outputs of `node`: allocates a slot for each declared output
/// type, stores the values there, and records the first slot. The values
/// must be as many as the types, and have their layouts.
pub open spec fn bind_outputs<L: ExtensionLowering>(
    reg: ExtensionOpRegistry<L>,
    st: FuncState,
    node: usize,
    types: Seq<TypeView>,
    vals: ValuesView,
) -> Result<FuncState, EmitErrorView> {
    if node >= st.bound.len() {
        Err(EmitErrorView::Malformed(node, Malformation::BadNode))
    } else if vals.operands.len() != types.len() {
        Err(EmitErrorView::Malformed(node, Malformation::Arity))
    } else {
        match alloc_slots_from(reg, st, types, 0) {
            Err(e) => Err(e),
            Ok(st1) => match store_values_from(st1, node, st.slots.len(), vals, 0) {
                Err(e) => Err(e),
                Ok(st2) => Ok(st2.bind(node as int, st.slots.len())),
            },
        }
    }
}

/// Whether an executable step ended as its model says: in the same error,
/// or in the same state with the same values.
pub open spec fn agrees(r: Result<Values, EmitError>, st: FuncState, m: Result<(FuncState, ValuesView), EmitErrorView>) -> bool {
    match m {
        Ok((st2, vals)) => r is Ok && r->Ok_0@ == vals && st == st2 && r->Ok_0.operands@.len() == r->Ok_0.types@.len(),
        Err(e) => r is Err && r->Err_0@ == e,
    }
}

/// Whether an executable step without values ended as its model says.
pub open spec fn agrees_unit(r: Result<(), EmitError>, st: FuncState, m: Result<FuncState, EmitErrorView>) -> bool {
    match m {
        Ok(st2) => r is Ok && st == st2,
        Err(e) => r is Err && r->Err_0@ == e,
    }
}

/// Computes `wire_slot`.
pub fn find_slot(h: &Hugr, f: &FuncEmitter, w: Wire) -> (r: Option<usize>)
    ensures
        match r {
            Some(slot) => wire_slot(*h, f@, w) == Some(slot as nat),
            None => wire_slot(*h, f@, w) is None,
        },
{
    proof {
        lemma_row_view(f.slots);
    }
    if w.node < f.bound.len() && w.node < h.nodes.len() {
        match f.bound[w.node] {
            Some(base) => {
                if w.port < h.nodes[w.node].op.output_count() {
                    match base.checked_add(w.port) {
                        Some(slot) => if slot < f.slots.len() {
                            Some(slot)
                        } else {
                            None
                        },
                        None => None,
                    }
                } else {
                    None
                }
            },
            None => None,
        }
    } else {
        None
    }
}

/// Emits the loads of the inputs of a node.
pub fn emit_loads<L: ExtensionLowering>(
    ctx: &mut EmitContext<L>,
    h: &Hugr,
    f: &mut FuncEmitter,
    node: usize,
    wires: &Vec<Wire>,
    expect: &Vec<Type>,
) -> (r: Result<Values, EmitError>)
    requires
        old(ctx).wf(),
        old(f).wf(),
    ensures
        final(ctx).wf(),
        final(ctx).registry == old(ctx).registry,
        final(f).wf(),
        agrees(r, final(f)@, load_inputs(old(ctx).registry, *h, old(f)@, node, wires@, type_row_view(*expect))),
{
    proof {
        lemma_type_row_view(*expect);
    }
    if wires.len() != expect.len() {
        return Err(EmitError::malformed(node, Malformation::Arity));
    }
    let mut vals = Values::new();
    let mut i: usize = 0;
    while i < wires.len()
        invariant
            i <= wires.len(),
            wires.len() == expect.len(),
            ctx.wf(),
            ctx.registry == old(ctx).registry,
            f.wf(),
            vals.operands@.len() == vals.types@.len(),
            load_inputs(old(ctx).registry, *h, old(f)@, node, wires@, type_row_view(*expect))
                == load_inputs_from(
                old(ctx).registry,
                *h,
                f@,
                node,
                wires@,
                type_row_view(*expect),
                i as nat,
                vals@,
            ),
        decreases wires.len() - i,
    {
        let slot = match find_slot(h, f, wires[i]) {
            None => {
                return Err(EmitError::malformed(node, Malformation::BadWire));
            },
            Some(slot) => slot,
        };
        let l = match ctx.convert(&expect[i]) {
            Err(e) => {
                return Err(e);
            },
            Ok(l) => l,
        };
        proof {
            lemma_row_view(f.slots);
        }
        let declared = h.nodes[wires[i].node].op.output_types();
        proof {
            lemma_type_row_view(declared);
        }
        if !declared[wires[i].port].same(&expect[i]) || !f.slots[slot].same(&l) {
            return Err(EmitError::malformed(node, Malformation::TypeMismatch));
        }
        let pos = f.push_instr(Instr::Load { slot, ty: l.duplicate() });
        vals.push(Operand::Local(pos), l);
        i += 1;
    }
    Ok(vals)
}

/// Emits the stores of values into the slots from `base` on.
pub fn emit_stores(f: &mut FuncEmitter, node: usize, base: usize, vals: &Values) -> (r: Result<(), EmitError>)
    requires
        old(f).wf(),
    ensures
        final(f).wf(),
        agrees_unit(r, final(f)@, store_values_from(old(f)@, node, base as nat, vals@, 0)),
{
    let mut i: usize = 0;
    while i < vals.operands.len()
        invariant
            i <= vals.operands.len(),
            f.wf(),
            store_values_from(old(f)@, node, base as nat, vals@, 0) == store_values_from(
                f@,
                node,
                base as nat,
                vals@,
                i as nat,
            ),
        decreases vals.operands.len() - i,
    {
        proof {
            lemma_row_view(f.slots);
            lemma_row_view(vals.types);
        }
        if i >= vals.types.len() {
            return Err(EmitError::malformed(node, Malformation::TypeMismatch));
        }
        let slot = match base.checked_add(i) {
            None => {
                return Err(EmitError::malformed(node, Malformation::TypeMismatch));
            },
            Some(slot) => slot,
        };
        if slot >= f.slots.len() || !f.slots[slot].same(&vals.types[i]) {
            return Err(EmitError::malformed(node, Malformation::TypeMismatch));
        }
        f.push_instr(Instr::Store { slot, value: vals.operands[i].duplicate() });
        i += 1;
    }
    Ok(())
}

/// Allocates a slot for each type of a row.
pub fn emit_slots<L: ExtensionLowering>(ctx: &mut EmitContext<L>, f: &mut FuncEmitter, types: &Vec<Type>) -> (r:
    Result<(), EmitError>)
    requires
        old(ctx).wf(),
        old(f).wf(),
    ensures
        final(ctx).wf(),
        final(ctx).registry == old(ctx).registry,
        final(f).wf(),
        agrees_unit(r, final(f)@, alloc_slots_from(old(ctx).registry, old(f)@, type_row_view(*types), 0)),
{
    proof {
        lemma_type_row_view(*types);
    }
    let mut i: usize = 0;
    while i < types.len()
        invariant
            i <= types.len(),
            ctx.wf(),
            ctx.registry == old(ctx).registry,
            f.wf(),
            alloc_slots_from(old(ctx).registry, old(f)@, type_row_view(*types), 0) == alloc_slots_from(
                old(ctx).registry,
                f@,
                type_row_view(*types),
                i as nat,
            ),
        decreases types.len() - i,
    {
        match ctx.convert(&types[i]) {
            Err(e) => {
                return Err(e);
            },
            Ok(l) => {
                f.alloc_slot(l);
            },
        }
        i += 1;
    }
    Ok(())
}

/// Binds the outputs of a node to fresh slots and stores the values there.
pub fn emit_outputs<L: ExtensionLowering>(
    ctx: &mut EmitContext<L>,
    f: &mut FuncEmitter,
    node: usize,
    types: &Vec<Type>,
    vals: &Values,
) -> (r: Result<(), EmitError>)
    requires
        old(ctx).wf(),
        old(f).wf(),
    ensures
        final(ctx).wf(),
        final(ctx).registry == old(ctx).registry,
        final(f).wf(),
        agrees_unit(
            r,
            final(f)@,
            bind_outputs(old(ctx).registry, old(f)@, node, type_row_view(*types), vals@),
        ),
{
    proof {
        lemma_type_row_view(*types);
    }
    if node >= f.bound.len() {
        return Err(EmitError::malformed(node, Malformation::BadNode));
    }
    if vals.operands.len() != types.len() {
        return Err(EmitError::malformed(node, Malformation::Arity));
    }
    let base = f.slots.len();
    proof {
        lemma_row_view(f.slots);
    }
    match emit_slots(ctx, f, types) {
        Err(e) => {
            return Err(e);
        },
        Ok(()) => {},
    }
    match emit_stores(f, node, base, vals) {
        Err(e) => {
            return Err(e);
        },
        Ok(()) => {},
    }
    proof {
        lemma_bound_kept_by_stores(
            alloc_slots_from(old(ctx).registry, old(f)@, type_row_view(*types), 0)->Ok_0,
            node,
            base as nat,
            vals@,
            0,
        );
        lemma_bound_kept_by_slots(old(ctx).registry, old(f)@, type_row_view(*types), 0);
    }
    f.bind(node, base);
    Ok(())
}

/// Storing changes neither the slots nor what is bound.
pub proof fn lemma_bound_kept_by_stores(st: FuncState, node: usize, base: nat, vals: ValuesView, i: nat)
    ensures
        store_values_from(st, node, base, vals, i) matches Ok(st2) ==> st2.bound == st.bound && st2.slots
            == st.slots && st2.blocks == st.blocks && st2.params == st.params,
    decreases vals.operands.len() - i,
{
    if i < vals.operands.len() && (i < vals.layouts.len() && base + i < st.slots.len() && st.slots[(base + i) as int]
        == vals.layouts[i as int]) {
        lemma_bound_kept_by_stores(
            st.push(InstrView::Store { slot: base + i, value: vals.operands[i as int] }),
            node,
            base,
            vals,
            i + 1,
        );
    }
}

/// Allocating slots changes nothing but the slots.
pub proof fn lemma_bound_kept_by_slots<L: ExtensionLowering>(
    reg: ExtensionOpRegistry<L>,
    st: FuncState,
    types: Seq<TypeView>,
    i: nat,
)
    ensures
        alloc_slots_from(reg, st, types, i) matches Ok(st2) ==> st2.bound == st.bound && st2.cur == st.cur
            && st2.blocks == st.blocks && st2.params == st.params,
    decreases types.len() - i,
{
    if i < types.len() {
        match convert_type(reg.types@, types[i as int]) {
            Err(e) => {},
            Ok(l) => {
                lemma_bound_kept_by_slots(reg, st.with_slot(l), types, i + 1);
            },
        }
    }
}

} // verus!

//! What the instructions of the target IR compute, and what the lowering
//! of tuples and tags therefore yields.
use vstd::prelude::*;
use vstd::arithmetic::power2::pow2;
use crate::layout::Layout;
use crate::ir::ConstantView;
use crate::ir::OperandView;
use crate::ir::InstrView;
use crate::ir::TerminatorView;
use crate::ir::BinOp;
use crate::types::TypeView;
use crate::extension::ExtensionLowering;
use crate::extension::ExtensionOpRegistry;
use crate::convert::convert_type;
use crate::state::FuncState;
use crate::state::ValuesView;
use crate::leaf::single;
use crate::leaf::make_tuple;
use crate::leaf::unpack_from;
use crate::leaf::unpack_tuple;
use crate::leaf::make_tag;
use crate::region::discriminant;
use crate::region::variant_fields_from;
use crate::region::with_rest;
use crate::region::case_inputs;
use crate::region::load_slots_from;
use crate::wires::store_values_from;
use crate::frame::grows;
use crate::frame::lemma_push_grows;
use crate::frame::lemma_grows_trans;
use crate::error::EmitErrorView;

verus! {

/// A value of the target IR at run time.
pub enum Val {
    /// An integer.
    Int(int),
    /// An aggregate of its fields.
    Struct(Seq<Val>),
    /// A tagged union: the discriminant, and the fields that the payload
    /// holds as that variant.
    Variant(nat, Seq<Val>),
    /// No value that a program may rely on.
    Undef,
}

/// The machine while it runs a block: the arguments of the function, the
/// contents of the stack slots, and the values that the instructions of
/// the block have yielded so far.
pub struct Frame {
    pub params: Seq<Val>,
    pub slots: Seq<Val>,
    pub locals: Seq<Val>,
}

/// The values of a list of literals.
pub open spec fn constants_value(cs: Seq<ConstantView>) -> Seq<Val>
    decreases cs, 1nat,
{
    Seq::new(cs.len(), |i: int| if 0 <= i < cs.len() { constant_value(cs[i]) } else { Val::Undef })
}

/// The value of a literal.
pub open spec fn constant_value(c: ConstantView) -> Val
    decreases c, 0nat,
{
    match c {
        ConstantView::Int(_, value) => Val::Int(value as int),
        ConstantView::Struct(fields) => Val::Struct(constants_value(fields)),
    }
}

/// The value that an operand names.
pub open spec fn operand_value(f: Frame, v: OperandView) -> Val {
    match v {
        OperandView::Local(i) => if i < f.locals.len() {
            f.locals[i as int]
        } else {
            Val::Undef
        },
        OperandView::Param(i) => if i < f.params.len() {
            f.params[i as int]
        } else {
            Val::Undef
        },
        OperandView::Const(c) => constant_value(c),
    }
}

/// The values that operands name.
pub open spec fn operand_values(f: Frame, vs: Seq<OperandView>) -> Seq<Val> {
    Seq::new(vs.len(), |i: int| operand_value(f, vs[i]))
}

/// The result of an operator on integers of `bits` bits, which wraps.
pub open spec fn binary(op: BinOp, bits: nat, a: int, b: int) -> int {
    match op {
        BinOp::Add => (a + b) % (pow2(bits) as int),
        BinOp::Sub => (a - b) % (pow2(bits) as int),
        BinOp::Mul => (a * b) % (pow2(bits) as int),
    }
}

/// What an instruction yields.
pub open spec fn result(f: Frame, i: InstrView) -> Val {
    match i {
        InstrView::Load { slot, ty } => if slot < f.slots.len() {
            f.slots[slot as int]
        } else {
            Val::Undef
        },
        InstrView::Store { slot, value } => Val::Undef,
        InstrView::MakeStruct { ty, fields } => Val::Struct(operand_values(f, fields)),
        InstrView::ExtractField { ty, agg, index } => match operand_value(f, agg) {
            Val::Struct(fields) => if index < fields.len() {
                fields[index as int]
            } else {
                Val::Undef
            },
            _ => Val::Undef,
        },
        InstrView::MakeVariant { ty, tag, fields } => Val::Variant(tag, operand_values(f, fields)),
        InstrView::GetTag { ty, value } => match operand_value(f, value) {
            Val::Variant(tag, _) => Val::Int(tag as int),
            _ => Val::Undef,
        },
        InstrView::VariantField { ty, value, tag, index } => match operand_value(f, value) {
            Val::Variant(held, fields) => if held == tag && index < fields.len() {
                fields[index as int]
            } else {
                Val::Undef
            },
            _ => Val::Undef,
        },
        InstrView::Binary { op, ty, lhs, rhs } => match (ty, operand_value(f, lhs), operand_value(f, rhs)) {
            (Layout::Int(bits), Val::Int(a), Val::Int(b)) => Val::Int(binary(op, bits, a, b)),
            _ => Val::Undef,
        },
    }
}

/// The machine after one instruction: a store changes its slot, and
/// every instruction adds what it yields to the values of the block.
pub open spec fn step(f: Frame, i: InstrView) -> Frame {
    Frame {
        params: f.params,
        slots: match i {
            InstrView::Store { slot, value } => if slot < f.slots.len() {
                f.slots.update(slot as int, operand_value(f, value))
            } else {
                f.slots
            },
            _ => f.slots,
        },
        locals: f.locals.push(result(f, i)),
    }
}

/// The machine after the instructions `code`, in order.
pub open spec fn run(f: Frame, code: Seq<InstrView>) -> Frame
    decreases code.len(),
{
    if code.len() == 0 {
        f
    } else {
        step(run(f, code.drop_last()), code.last())
    }
}

/// The block with which a terminator goes on, if it names one.
pub open spec fn next_block(f: Frame, t: TerminatorView) -> Option<nat> {
    match t {
        TerminatorView::Br(b) => Some(b),
        TerminatorView::Switch(on, targets) => match operand_value(f, on) {
            Val::Int(d) => if 0 <= d < targets.len() {
                Some(targets[d])
            } else {
                None
            },
            _ => None,
        },
        _ => None,
    }
}

/// The instructions that `st2` has appended to the open block of `st`.
pub open spec fn appended(st: FuncState, st2: FuncState) -> Seq<InstrView> {
    st2.cur.subrange(st.cur.len() as int, st2.cur.len() as int)
}

/// Whether every operand names a value that the frame holds.
pub open spec fn held(f: Frame, vs: Seq<OperandView>) -> bool {
    forall|k: int| 0 <= k < vs.len() ==> ((#[trigger] vs[k]) matches OperandView::Local(i) ==> i < f.locals.len())
}

pub proof fn lemma_run_push(f: Frame, code: Seq<InstrView>, i: InstrView)
    ensures
        run(f, code.push(i)) == step(run(f, code), i),
{
    assert(code.push(i).drop_last() =~= code);
}

/// The projections of unpack-tuple yield the fields of the aggregate.
proof fn lemma_unpack_yields(
    st0: FuncState,
    st: FuncState,
    agg: OperandView,
    fields: Seq<Layout>,
    i: nat,
    acc: ValuesView,
    f0: Frame,
    vs: Seq<Val>,
)
    requires
        grows(st0, st),
        run(f0, appended(st0, st)).locals.len() == st.cur.len(),
        run(f0, appended(st0, st)).slots == f0.slots,
        agg matches OperandView::Local(p) ==> p < st.cur.len(),
        operand_value(run(f0, appended(st0, st)), agg) == Val::Struct(vs),
        vs.len() == fields.len(),
        i <= fields.len(),
        acc.operands.len() == i,
        acc.layouts.len() == i,
        held(run(f0, appended(st0, st)), acc.operands),
        forall|j: int| 0 <= j < i ==> operand_value(run(f0, appended(st0, st)), #[trigger] acc.operands[j]) == vs[j],
        forall|j: int| 0 <= j < i ==> #[trigger] acc.layouts[j] == fields[j],
    ensures
        ({
            &&& unpack_from(st, agg, fields, i, acc) matches Ok((st2, outs))
            &&& grows(st0, st2)
            &&& run(f0, appended(st0, st2)).slots == f0.slots
            &&& run(f0, appended(st0, st2)).locals.len() == st2.cur.len()
            &&& outs.layouts == fields
            &&& outs.operands.len() == fields.len()
            &&& forall|j: int|
                0 <= j < fields.len() ==> operand_value(run(f0, appended(st0, st2)), #[trigger] outs.operands[j])
                    == vs[j]
        }),
    decreases fields.len() - i,
{
    let f = run(f0, appended(st0, st));
    if i >= fields.len() {
        assert(acc.layouts =~= fields);
    } else {
        let instr = InstrView::ExtractField { ty: fields[i as int], agg, index: i };
        let st1 = st.push(instr);
        let acc1 = acc.push(OperandView::Local(st.cur.len()), fields[i as int]);
        lemma_push_grows(st, instr);
        lemma_grows_trans(st0, st, st1);
        assert(appended(st0, st1) =~= appended(st0, st).push(instr));
        lemma_run_push(f0, appended(st0, st), instr);
        let f1 = run(f0, appended(st0, st1));
        assert(f1 == step(f, instr));
        assert(operand_value(f1, agg) == Val::Struct(vs));
        assert forall|j: int| 0 <= j < i + 1 implies operand_value(f1, #[trigger] acc1.operands[j]) == vs[j] by {
            if j < i {
                assert(acc1.operands[j] == acc.operands[j]);
                assert(operand_value(f, acc.operands[j]) == vs[j]);
            }
        }
        assert forall|k: int| 0 <= k < acc1.operands.len() implies ((#[trigger] acc1.operands[k]) matches OperandView::Local(
            x,
        ) ==> x < f1.locals.len()) by {
            if k < i {
                assert(acc1.operands[k] == acc.operands[k]);
            }
        }
        lemma_unpack_yields(st0, st1, agg, fields, i + 1, acc1, f0, vs);
    }
}

/// Tuple round trip: make-tuple over any values, of any layouts, followed
/// by unpack-tuple yields the same values in the same order, and leaves
/// the stack slots as they were.
pub proof fn law_tuple_round_trip(st: FuncState, node: usize, vals: ValuesView, f0: Frame)
    requires
        f0.locals.len() == st.cur.len(),
        vals.operands.len() == vals.layouts.len(),
        held(f0, vals.operands),
    ensures
        ({
            &&& make_tuple(st, vals) matches Ok((st1, tuple))
            &&& unpack_tuple(st1, node, tuple) matches Ok((st2, outs))
            &&& outs.layouts == vals.layouts
            &&& outs.operands.len() == vals.operands.len()
            &&& run(f0, appended(st, st2)).slots == f0.slots
            &&& forall|k: int|
                0 <= k < vals.operands.len() ==> operand_value(
                    run(f0, appended(st, st2)),
                    #[trigger] outs.operands[k],
                ) == operand_value(f0, vals.operands[k])
        }),
{
    let ty = Layout::Struct(vals.layouts);
    let instr = InstrView::MakeStruct { ty, fields: vals.operands };
    let st1 = st.push(instr);
    let agg = OperandView::Local(st.cur.len());
    let vs = operand_values(f0, vals.operands);
    lemma_push_grows(st, instr);
    assert(appended(st, st1) =~= Seq::<InstrView>::empty().push(instr));
    lemma_run_push(f0, Seq::empty(), instr);
    assert(run(f0, Seq::empty()) == f0);
    let f1 = run(f0, appended(st, st1));
    assert(f1 == step(f0, instr));
    assert(operand_value(f1, agg) == Val::Struct(vs));
    assert(single(agg, ty).layouts[0] == ty);
    assert(single(agg, ty).operands[0] == agg);
    lemma_unpack_yields(st, st1, agg, vals.layouts, 0, ValuesView::empty(), f0, vs);
}

/// Tag and discriminant: the value that tagging with the variant `tag`
/// yields has the discriminant `tag`, whatever fields it holds; and a
/// dispatch on that discriminant over as many targets as there are
/// variants goes on with the target of index `tag`.
pub proof fn law_tag_discriminant<L: ExtensionLowering>(
    reg: ExtensionOpRegistry<L>,
    st: FuncState,
    node: usize,
    reader: usize,
    tag: usize,
    variants: Seq<Seq<TypeView>>,
    vals: ValuesView,
    f0: Frame,
    targets: Seq<nat>,
)
    requires
        f0.locals.len() == st.cur.len(),
        targets.len() == variants.len(),
    ensures
        make_tag(reg, st, node, tag, variants, vals) matches Ok((st1, sum)) ==> {
            &&& tag < variants.len()
            &&& discriminant(st1, reader, sum) matches Ok((st2, on))
            &&& operand_value(run(f0, appended(st, st2)), on) == Val::Int(tag as int)
            &&& run(f0, appended(st, st2)).slots == f0.slots
            &&& next_block(run(f0, appended(st, st2)), TerminatorView::Switch(on, targets)) == Some(
                targets[tag as int],
            )
        },
{
    if tag < variants.len() {
        match convert_type(reg.types@, TypeView::Sum(variants)) {
            Ok(Layout::Int(bits)) => {
                assert(appended(st, st) =~= Seq::<InstrView>::empty());
            },
            Ok(Layout::Union(bits, vs)) => if !(tag >= vs.len() || vals.layouts != vs[tag as int]
                || vals.operands.len() != vals.layouts.len()) {
                let make = InstrView::MakeVariant { ty: Layout::Union(bits, vs), tag: tag as nat, fields: vals.operands };
                let st1 = st.push(make);
                let sum = OperandView::Local(st.cur.len());
                let read = InstrView::GetTag { ty: Layout::Int(bits), value: sum };
                let st2 = st1.push(read);
                assert(appended(st, st2) =~= Seq::<InstrView>::empty().push(make).push(read));
                lemma_run_push(f0, Seq::<InstrView>::empty().push(make), read);
                lemma_run_push(f0, Seq::empty(), make);
                assert(run(f0, Seq::empty()) == f0);
            },
            _ => {},
        }
    }
}

/// The reads of the fields of a variant yield the fields that the
/// tagged union holds as that variant.
proof fn lemma_fields_yield(
    st0: FuncState,
    st: FuncState,
    value: OperandView,
    tag: nat,
    fields: Seq<Layout>,
    k: nat,
    acc: ValuesView,
    f0: Frame,
    vs: Seq<Val>,
)
    requires
        grows(st0, st),
        run(f0, appended(st0, st)).locals.len() == st.cur.len(),
        run(f0, appended(st0, st)).slots == f0.slots,
        value matches OperandView::Local(p) ==> p < st.cur.len(),
        operand_value(run(f0, appended(st0, st)), value) == Val::Variant(tag, vs),
        vs.len() == fields.len(),
        k <= fields.len(),
        acc.operands.len() == k,
        acc.layouts.len() == k,
        held(run(f0, appended(st0, st)), acc.operands),
        forall|j: int| 0 <= j < k ==> operand_value(run(f0, appended(st0, st)), #[trigger] acc.operands[j]) == vs[j],
    ensures
        ({
            let r = variant_fields_from(st, value, tag, fields, k, acc);
            &&& grows(st0, r.0)
            &&& run(f0, appended(st0, r.0)).slots == f0.slots
            &&& r.1.operands.len() == fields.len()
            &&& forall|j: int|
                0 <= j < fields.len() ==> operand_value(run(f0, appended(st0, r.0)), #[trigger] r.1.operands[j])
                    == vs[j]
        }),
    decreases fields.len() - k,
{
    let f = run(f0, appended(st0, st));
    if k < fields.len() {
        let instr = InstrView::VariantField { ty: fields[k as int], value, tag, index: k };
        let st1 = st.push(instr);
        let acc1 = acc.push(OperandView::Local(st.cur.len()), fields[k as int]);
        lemma_push_grows(st, instr);
        lemma_grows_trans(st0, st, st1);
        assert(appended(st0, st1) =~= appended(st0, st).push(instr));
        lemma_run_push(f0, appended(st0, st), instr);
        let f1 = run(f0, appended(st0, st1));
        assert(f1 == step(f, instr));
        assert(operand_value(f1, value) == Val::Variant(tag, vs));
        assert forall|j: int| 0 <= j < k + 1 implies operand_value(f1, #[trigger] acc1.operands[j]) == vs[j] by {
            if j < k {
                assert(acc1.operands[j] == acc.operands[j]);
                assert(operand_value(f, acc.operands[j]) == vs[j]);
            }
        }
        assert forall|j: int| 0 <= j < acc1.operands.len() implies ((#[trigger] acc1.operands[j]) matches OperandView::Local(
            x,
        ) ==> x < f1.locals.len()) by {
            if j < k {
                assert(acc1.operands[j] == acc.operands[j]);
            }
        }
        lemma_fields_yield(st0, st1, value, tag, fields, k + 1, acc1, f0, vs);
    }
}

/// Payload round trip: the fields that a case reads of the variant with
/// which a value was tagged are the values that were tagged, in their
/// order, whatever their layouts.
pub proof fn law_payload_round_trip<L: ExtensionLowering>(
    reg: ExtensionOpRegistry<L>,
    st: FuncState,
    node: usize,
    reader: usize,
    tag: usize,
    variants: Seq<Seq<TypeView>>,
    vals: ValuesView,
    f0: Frame,
)
    requires
        f0.locals.len() == st.cur.len(),
        held(f0, vals.operands),
    ensures
        make_tag(reg, st, node, tag, variants, vals) matches Ok((st1, sum)) ==> sum.layouts[0] is Union ==> {
            &&& case_inputs(st1, reader, tag as nat, sum) matches Ok((st2, ins))
            &&& ins.operands.len() == vals.operands.len()
            &&& run(f0, appended(st, st2)).slots == f0.slots
            &&& forall|k: int|
                0 <= k < vals.operands.len() ==> operand_value(
                    run(f0, appended(st, st2)),
                    #[trigger] ins.operands[k],
                ) == operand_value(f0, vals.operands[k])
        },
{
    if tag < variants.len() {
        match convert_type(reg.types@, TypeView::Sum(variants)) {
            Ok(Layout::Union(bits, vs)) => if !(tag >= vs.len() || vals.layouts != vs[tag as int]
                || vals.operands.len() != vals.layouts.len()) {
                let ty = Layout::Union(bits, vs);
                let make = InstrView::MakeVariant { ty, tag: tag as nat, fields: vals.operands };
                let st1 = st.push(make);
                let sum = OperandView::Local(st.cur.len());
                let held_values = operand_values(f0, vals.operands);
                lemma_push_grows(st, make);
                assert(appended(st, st1) =~= Seq::<InstrView>::empty().push(make));
                lemma_run_push(f0, Seq::empty(), make);
                assert(run(f0, Seq::empty()) == f0);
                assert(single(sum, ty).layouts[0] == ty);
                assert(single(sum, ty).operands[0] == sum);
                lemma_fields_yield(st, st1, sum, tag as nat, vs[tag as int], 0, ValuesView::empty(), f0, held_values);
                let r = variant_fields_from(st1, sum, tag as nat, vs[tag as int], 0, ValuesView::empty());
                assert(with_rest(r.1, single(sum, ty), 1) == r.1);
            },
            _ => {},
        }
    }
}

/// The stores of values put the values into their slots.
proof fn lemma_stores_run(
    st0: FuncState,
    st: FuncState,
    node: usize,
    base: nat,
    vals: ValuesView,
    i: nat,
    f0: Frame,
    want: Seq<Val>,
)
    requires
        grows(st0, st),
        st.slots == st0.slots,
        run(f0, appended(st0, st)).locals.len() == st.cur.len(),
        run(f0, appended(st0, st)).slots.len() >= st.slots.len(),
        want.len() == vals.operands.len(),
        i <= vals.operands.len(),
        held(run(f0, appended(st0, st)), vals.operands),
        forall|k: int|
            0 <= k < vals.operands.len() ==> operand_value(run(f0, appended(st0, st)), #[trigger] vals.operands[k])
                == want[k],
        forall|k: int| 0 <= k < i ==> run(f0, appended(st0, st)).slots[base + k] == #[trigger] want[k],
        forall|k: int| 0 <= k < i ==> #[trigger] in_range(st, base, k),
        forall|k: int| 0 <= k < i ==> k < vals.layouts.len() && st.slots[base + k] == #[trigger] vals.layouts[k],
    ensures
        store_values_from(st, node, base, vals, i) matches Ok(st2) ==> {
            &&& grows(st0, st2)
            &&& st2.slots == st0.slots
            &&& forall|k: int| 0 <= k < vals.operands.len() ==> #[trigger] in_range(st2, base, k)
            &&& forall|k: int| 0 <= k < vals.operands.len() ==> st2.slots[base + k] == #[trigger] vals.layouts[k]
            &&& run(f0, appended(st0, st2)).locals.len() == st2.cur.len()
            &&& run(f0, appended(st0, st2)).slots.len() >= st2.slots.len()
            &&& forall|k: int|
                0 <= k < vals.operands.len() ==> run(f0, appended(st0, st2)).slots[base + k] == #[trigger] want[k]
        },
    decreases vals.operands.len() - i,
{
    let f = run(f0, appended(st0, st));
    if i < vals.operands.len() && (i < vals.layouts.len() && base + i < st.slots.len() && st.slots[(base + i) as int]
        == vals.layouts[i as int]) {
        let instr = InstrView::Store { slot: base + i, value: vals.operands[i as int] };
        let st1 = st.push(instr);
        lemma_push_grows(st, instr);
        lemma_grows_trans(st0, st, st1);
        assert(appended(st0, st1) =~= appended(st0, st).push(instr));
        lemma_run_push(f0, appended(st0, st), instr);
        let f1 = run(f0, appended(st0, st1));
        assert(f1 == step(f, instr));
        assert(operand_value(f, vals.operands[i as int]) == want[i as int]);
        assert forall|k: int| 0 <= k < vals.operands.len() implies operand_value(f1, #[trigger] vals.operands[k])
            == want[k] by {
            assert(operand_value(f, vals.operands[k]) == want[k]);
        }
        assert forall|k: int| 0 <= k < i + 1 implies f1.slots[base + k] == #[trigger] want[k] by {
            if k < i {
                assert(f.slots[base + k] == want[k]);
            }
        }
        assert forall|k: int| 0 <= k < i + 1 implies #[trigger] in_range(st1, base, k) by {
            if k < i {
                assert(in_range(st, base, k));
            }
        }
        assert forall|k: int| 0 <= k < i + 1 implies k < vals.layouts.len() && st1.slots[base + k]
            == #[trigger] vals.layouts[k] by {
            if k < i {
                assert(st.slots[base + k] == vals.layouts[k]);
            }
        }
        lemma_stores_run(st0, st1, node, base, vals, i + 1, f0, want);
        assert(store_values_from(st, node, base, vals, i) == store_values_from(st1, node, base, vals, i + 1));
    } else if i >= vals.operands.len() {
        assert(store_values_from(st, node, base, vals, i) == Ok::<FuncState, EmitErrorView>(st));
    } else {
        assert(store_values_from(st, node, base, vals, i) is Err);
    }
}

/// Whether the slot `base + j` is a slot of the function.
pub open spec fn in_range(st: FuncState, base: nat, j: int) -> bool {
    0 <= base + j < st.slots.len()
}

/// The loads of slots yield what the slots hold.
proof fn lemma_loads_run(
    st0: FuncState,
    st: FuncState,
    node: usize,
    base: nat,
    count: nat,
    k: nat,
    acc: ValuesView,
    f0: Frame,
    want: Seq<Val>,
)
    requires
        grows(st0, st),
        st.slots == st0.slots,
        forall|j: int| 0 <= j < count ==> #[trigger] in_range(st, base, j),
        run(f0, appended(st0, st)).locals.len() == st.cur.len(),
        run(f0, appended(st0, st)).slots.len() >= st.slots.len(),
        want.len() == count,
        forall|j: int| 0 <= j < count ==> run(f0, appended(st0, st)).slots[base + j] == #[trigger] want[j],
        k <= count,
        acc.operands.len() == k,
        acc.layouts.len() == k,
        held(run(f0, appended(st0, st)), acc.operands),
        forall|j: int| 0 <= j < k ==> operand_value(run(f0, appended(st0, st)), #[trigger] acc.operands[j]) == want[j],
        forall|j: int| 0 <= j < k ==> #[trigger] acc.layouts[j] == st.slots[base + j],
    ensures
        ({
            &&& load_slots_from(st, node, base, count, k, acc) matches Ok((st2, outs))
            &&& outs.operands.len() == count
            &&& outs.layouts.len() == count
            &&& forall|j: int| 0 <= j < count ==> #[trigger] outs.layouts[j] == st.slots[base + j]
            &&& forall|j: int|
                0 <= j < count ==> operand_value(run(f0, appended(st0, st2)), #[trigger] outs.operands[j]) == want[j]
        }),
    decreases count - k,
{
    let f = run(f0, appended(st0, st));
    if k < count {
        let l = st.slots[(base + k) as int];
        let instr = InstrView::Load { slot: base + k, ty: l };
        let st1 = st.push(instr);
        let acc1 = acc.push(OperandView::Local(st.cur.len()), l);
        lemma_push_grows(st, instr);
        lemma_grows_trans(st0, st, st1);
        assert(appended(st0, st1) =~= appended(st0, st).push(instr));
        lemma_run_push(f0, appended(st0, st), instr);
        let f1 = run(f0, appended(st0, st1));
        assert(f1 == step(f, instr));
        assert(in_range(st, base, k as int));
        assert(f.slots[(base + k) as int] == want[k as int]);
        assert forall|j: int| 0 <= j < count implies f1.slots[base + j] == #[trigger] want[j] by {
            assert(f.slots[base + j] == want[j]);
        }
        assert forall|j: int| 0 <= j < count implies #[trigger] in_range(st1, base, j) by {
            assert(in_range(st, base, j));
        }
        assert forall|j: int| 0 <= j < k + 1 implies operand_value(f1, #[trigger] acc1.operands[j]) == want[j] by {
            if j < k {
                assert(acc1.operands[j] == acc.operands[j]);
                assert(operand_value(f, acc.operands[j]) == want[j]);
            }
        }
        assert forall|j: int| 0 <= j < k + 1 implies #[trigger] acc1.layouts[j] == st1.slots[base + j] by {
            if j < k {
                assert(acc1.layouts[j] == acc.layouts[j]);
            }
        }
        assert forall|j: int| 0 <= j < acc1.operands.len() implies ((#[trigger] acc1.operands[j]) matches OperandView::Local(
            x,
        ) ==> x < f1.locals.len()) by {
            if j < k {
                assert(acc1.operands[j] == acc.operands[j]);
            }
        }
        lemma_loads_run(st0, st1, node, base, count, k + 1, acc1, f0, want);
    }
}

/// Wire round trip: what a node stores into the slots of its outputs is
/// what a node that reads those slots loads, value for value and layout
/// for layout.
pub proof fn law_wire_round_trip(st: FuncState, node: usize, reader: usize, base: nat, vals: ValuesView, f0: Frame)
    requires
        f0.locals.len() == st.cur.len(),
        f0.slots.len() >= st.slots.len(),
        held(f0, vals.operands),
    ensures
        store_values_from(st, node, base, vals, 0) matches Ok(st1) ==> {
            &&& load_slots_from(st1, reader, base, vals.operands.len(), 0, ValuesView::empty()) matches Ok((st2, outs))
            &&& outs.operands.len() == vals.operands.len()
            &&& forall|k: int| 0 <= k < vals.operands.len() ==> #[trigger] outs.layouts[k] == vals.layouts[k]
            &&& forall|k: int|
                0 <= k < vals.operands.len() ==> operand_value(
                    run(f0, appended(st, st2)),
                    #[trigger] outs.operands[k],
                ) == operand_value(f0, vals.operands[k])
        },
{
    let want = operand_values(f0, vals.operands);
    assert(appended(st, st) =~= Seq::<InstrView>::empty());
    assert(run(f0, Seq::empty()) == f0);
    lemma_stores_run(st, st, node, base, vals, 0, f0, want);
    match store_values_from(st, node, base, vals, 0) {
        Ok(st1) => {
            lemma_loads_run(st, st1, reader, base, vals.operands.len(), 0, ValuesView::empty(), f0, want);
        },
        Err(e) => {},
    }
}

} // verus!

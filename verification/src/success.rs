//! Success is owed: on a well-formed graph that uses no extension,
//! emission succeeds.
use vstd::prelude::*;
use crate::layout::Layout;
use crate::ir::InstrView;
use crate::ir::OperandView;
use crate::ir::TerminatorView;
use crate::types::TypeView;
use crate::types::type_row_view;
use crate::types::type_rows_view;
use crate::types::all_rows_empty;
use crate::types::lemma_type_row_view;
use crate::types::lemma_type_rows_view;
use crate::ops::OpType;
use crate::ops::op_inputs;
use crate::ops::op_outputs;
use crate::hugr::Hugr;
use crate::hugr::Wire;
use crate::extension::ExtensionLowering;
use crate::extension::ExtensionOpRegistry;
use crate::convert::convert_type;
use crate::convert::convert_row;
use crate::convert::convert_rows_from;
use crate::convert::plain;
use crate::convert::row_plain;
use crate::convert::rows_plain;
use crate::convert::law_conversion_is_total;
use crate::schedule::schedule;
use crate::schedule::is_done;
use crate::schedule::distinct;
use crate::schedule::ready;
use crate::schedule::lemma_schedule_is_topological;
use crate::state::FuncState;
use crate::state::ValuesView;
use crate::wires::load_inputs;
use crate::wires::bind_outputs;
use crate::wires::store_values_from;
use crate::wires::alloc_slots_from;
use crate::region::region_boundary;
use crate::region::child_of;
use crate::region::first_listing;
use crate::region::region_body;
use crate::region::discriminant;
use crate::region::variant_fields_from;
use crate::region::with_rest;
use crate::region::case_inputs;
use crate::region::join;
use crate::region::nodes_code_from;
use crate::region::region_code;
use crate::region::case_code;
use crate::region::cases_code_from;
use crate::region::conditional_code;
use crate::region::node_code;
use crate::region::LoopSlots;
use crate::region::loop_entry;
use crate::region::loop_round;
use crate::region::loop_exit;
use crate::region::loop_code;
use crate::region::load_slots_from;
use crate::region::move_yield;
use crate::region::first_of;
use crate::region::yields_count;
use crate::ops::loop_yields;
use crate::emit::param_values;
use crate::emit::function_code;
use crate::emit::functions_code_from;
use crate::emit::module_code;
use crate::ir::FunctionView;
use crate::frame::extends;
use crate::frame::lemma_extends_trans;
use crate::frame::lemma_load_grows;
use crate::frame::lemma_alloc_grows;
use crate::frame::lemma_store_grows;
use crate::frame::lemma_discriminant_grows;
use crate::frame::lemma_case_inputs_grows;
use crate::shape::lemma_branch_all;
use crate::shape::lemma_node_extends;
use crate::confine::confined;
use crate::confine::lemma_node_confined;
use crate::confine::lemma_region_confined;
use crate::confine::lemma_child_under;
use crate::confine::lemma_scheduled_are_children;
use crate::confine::lemma_under_after;
use crate::wellformed::tree;
use crate::wellformed::no_extensions;
use crate::wellformed::known;
use crate::wellformed::row_known;
use crate::wellformed::lemma_none_is_plain;
use crate::wellformed::under;
use crate::wellformed::wire_ok;
use crate::wellformed::wires_ok;
use crate::wellformed::input_of;
use crate::wellformed::output_of;
use crate::wellformed::region_yields;
use crate::wellformed::nodes_ok;
use crate::wellformed::region_ok;
use crate::wellformed::cases_ok;
use crate::wellformed::node_ok;
use crate::wellformed::graph_ok;
use crate::owed::holds_row;
use crate::owed::slots_hold;
use crate::owed::bound_ok;
use crate::owed::done_ok;
use crate::owed::lemma_row_has_layouts;
use crate::owed::lemma_rows_plain_each;
use crate::owed::lemma_row_plain_each;
use crate::owed::lemma_each_plain_row;
use crate::owed::lemma_convert_rows_from;
use crate::owed::lemma_load_owed;
use crate::owed::lemma_alloc_owed;
use crate::owed::lemma_store_owed;
use crate::owed::lemma_bind_owed;
use crate::owed::lemma_bound_ok_kept;
use crate::owed::lemma_leaf_node_owed;
use crate::valid::law_gate_never_closes;
use crate::error::EmitErrorView;

verus! {

/// Whether no node that is done lies at or below `c`.
pub open spec fn apart(h: Hugr, input: usize, done: Seq<usize>, c: usize) -> bool {
    forall|d: usize| #[trigger] is_done(input, done, d) ==> !under(h, d as nat, c as nat)
}

/// A node does not lie below another child of its parent.
pub proof fn lemma_sibling_not_under(h: Hugr, d: usize, c: usize, p: usize)
    requires
        d < h.nodes@.len(),
        h.nodes[d as int].parent == p,
        p < c,
        d != c,
    ensures
        !under(h, d as nat, c as nat),
{
    if c < d && h.nodes[d as int].parent < d {
        if under(h, p as nat, c as nat) {
            lemma_under_after(h, p as nat, c as nat);
        }
    }
}

/// The nodes that are done stay bound well where the state only gains
/// and binds nothing.
pub proof fn lemma_done_same_bound<L: ExtensionLowering>(
    reg: ExtensionOpRegistry<L>,
    h: Hugr,
    st: FuncState,
    st2: FuncState,
    input: usize,
    done: Seq<usize>,
)
    requires
        done_ok(reg, h, st, input, done),
        extends(st, st2),
        st2.bound == st.bound,
    ensures
        done_ok(reg, h, st2, input, done),
{
    assert forall|d: usize| is_done(input, done, d) implies #[trigger] bound_ok(reg, h, st2, d) by {
        assert(bound_ok(reg, h, st, d));
        lemma_bound_ok_kept(reg, h, st, st2, d);
    }
}

/// The nodes that are done stay bound well while what is emitted lies
/// apart from them.
pub proof fn lemma_done_kept<L: ExtensionLowering>(
    reg: ExtensionOpRegistry<L>,
    h: Hugr,
    st: FuncState,
    st2: FuncState,
    input: usize,
    done: Seq<usize>,
    c: usize,
)
    requires
        done_ok(reg, h, st, input, done),
        extends(st, st2),
        confined(h, st, st2, c),
        apart(h, input, done, c),
    ensures
        done_ok(reg, h, st2, input, done),
{
    assert forall|d: usize| is_done(input, done, d) implies #[trigger] bound_ok(reg, h, st2, d) by {
        assert(bound_ok(reg, h, st, d));
        assert(!under(h, d as nat, c as nat));
        lemma_bound_ok_kept(reg, h, st, st2, d);
    }
}

/// Slots that have the layouts of types keep them where the state only
/// gains.
pub proof fn lemma_slots_hold_kept<L: ExtensionLowering>(
    reg: ExtensionOpRegistry<L>,
    st: FuncState,
    st2: FuncState,
    base: nat,
    types: Seq<TypeView>,
)
    requires
        slots_hold(reg, st, base, types),
        extends(st, st2),
    ensures
        slots_hold(reg, st2, base, types),
{
    assert forall|p: int| 0 <= p < types.len() implies convert_type(reg.types@, #[trigger] types[p]) == Ok::<
        Layout,
        EmitErrorView,
    >(st2.slots[base + p]) by {
        assert(st2.slots[base + p] == st.slots[base + p]);
    }
}

/// The layouts of two rows, one after the other, are the layouts of the
/// rows joined.
pub proof fn lemma_holds_row_concat<L: ExtensionLowering>(
    reg: ExtensionOpRegistry<L>,
    a: Seq<TypeView>,
    la: Seq<Layout>,
    b: Seq<TypeView>,
    lb: Seq<Layout>,
)
    requires
        holds_row(reg, a, la),
        holds_row(reg, b, lb),
    ensures
        holds_row(reg, a + b, la + lb),
{
    assert forall|k: int| 0 <= k < (a + b).len() implies convert_type(reg.types@, #[trigger] (a + b)[k]) == Ok::<
        Layout,
        EmitErrorView,
    >((la + lb)[k]) by {
        if k < a.len() {
            assert((a + b)[k] == a[k]);
        } else {
            assert((a + b)[k] == b[k - a.len()]);
        }
    }
}

/// The fields that are read of a variant have the layouts of the
/// variant's fields.
pub proof fn lemma_variant_fields_layouts(
    st: FuncState,
    value: OperandView,
    tag: nat,
    fields: Seq<Layout>,
    k: nat,
    acc: ValuesView,
)
    requires
        k <= fields.len(),
        acc.operands.len() == k,
        acc.layouts.len() == k,
        forall|j: int| 0 <= j < k ==> #[trigger] acc.layouts[j] == fields[j],
    ensures
        variant_fields_from(st, value, tag, fields, k, acc).1.layouts == fields,
        variant_fields_from(st, value, tag, fields, k, acc).1.operands.len() == fields.len(),
    decreases fields.len() - k,
{
    if k < fields.len() {
        let acc1 = acc.push(OperandView::Local(st.cur.len()), fields[k as int]);
        assert forall|j: int| 0 <= j < k + 1 implies #[trigger] acc1.layouts[j] == fields[j] by {
            if j < k {
                assert(acc1.layouts[j] == acc.layouts[j]);
            }
        }
        lemma_variant_fields_layouts(
            st.push(InstrView::VariantField { ty: fields[k as int], value, tag, index: k }),
            value,
            tag,
            fields,
            k + 1,
            acc1,
        );
    } else {
        assert(acc.layouts =~= fields);
    }
}

/// Values with the rest of other values have their layouts and then the
/// rest of the others'.
pub proof fn lemma_with_rest_layouts(acc: ValuesView, vals: ValuesView, k: nat)
    requires
        acc.operands.len() == acc.layouts.len(),
        vals.operands.len() == vals.layouts.len(),
        k <= vals.layouts.len(),
    ensures
        with_rest(acc, vals, k).layouts == acc.layouts + vals.layouts.subrange(k as int, vals.layouts.len() as int),
        with_rest(acc, vals, k).operands.len() == with_rest(acc, vals, k).layouts.len(),
    decreases vals.operands.len() - k,
{
    if k < vals.operands.len() {
        let acc1 = acc.push(vals.operands[k as int], vals.layouts[k as int]);
        lemma_with_rest_layouts(acc1, vals, k + 1);
        assert(acc1.layouts + vals.layouts.subrange(k as int + 1, vals.layouts.len() as int) =~= acc.layouts
            + vals.layouts.subrange(k as int, vals.layouts.len() as int));
    } else {
        assert(acc.layouts + vals.layouts.subrange(k as int, vals.layouts.len() as int) =~= acc.layouts);
    }
}

/// The layout of a plain sum: the discriminant alone where no variant
/// has a field, else a tagged union with the layouts of each variant's
/// fields.
pub proof fn lemma_sum_layout<L: ExtensionLowering>(reg: ExtensionOpRegistry<L>, rows: Seq<Seq<TypeView>>)
    requires
        rows_plain(rows, 0),
    ensures
        match convert_type(reg.types@, TypeView::Sum(rows)) {
            Ok(Layout::Int(_)) => all_rows_empty(rows),
            Ok(Layout::Union(_, vs)) => vs.len() == rows.len() && forall|i: int|
                0 <= i < rows.len() ==> holds_row(reg, rows[i], #[trigger] vs[i]),
            _ => false,
        },
{
    law_conversion_is_total(reg.types@, TypeView::Sum(rows));
    if !all_rows_empty(rows) {
        lemma_convert_rows_from(reg.types@, rows, 0, Seq::empty());
        let vs = convert_rows_from(reg.types@, rows, 0, Seq::empty())->Ok_0;
        assert forall|i: int| 0 <= i < rows.len() implies holds_row(reg, rows[i], #[trigger] vs[i]) by {
            lemma_rows_plain_each(rows, 0, i);
            lemma_row_has_layouts(reg, rows[i]);
            assert(convert_row(reg.types@, rows[i]) == Ok::<Seq<Layout>, EmitErrorView>(vs[i]));
        }
    }
}

/// The inputs of a case have the layouts of the fields of the case's
/// variant and of the other inputs.
pub proof fn lemma_case_inputs_owed<L: ExtensionLowering>(
    reg: ExtensionOpRegistry<L>,
    st: FuncState,
    node: usize,
    i: nat,
    rows: Seq<Seq<TypeView>>,
    others: Seq<TypeView>,
    vals: ValuesView,
)
    requires
        rows_plain(rows, 0),
        row_plain(others, 0),
        i < rows.len(),
        holds_row(reg, seq![TypeView::Sum(rows)] + others, vals.layouts),
        vals.operands.len() == vals.layouts.len(),
    ensures
        case_inputs(st, node, i, vals) matches Ok((st2, ins)) && holds_row(reg, rows[i as int] + others, ins.layouts)
            && ins.operands.len() == ins.layouts.len(),
{
    let types = seq![TypeView::Sum(rows)] + others;
    assert(types[0] == TypeView::Sum(rows));
    assert(convert_type(reg.types@, types[0]) == Ok::<Layout, EmitErrorView>(vals.layouts[0]));
    lemma_sum_layout(reg, rows);
    let rest = vals.layouts.subrange(1, vals.layouts.len() as int);
    assert(holds_row(reg, others, rest)) by {
        assert forall|k: int| 0 <= k < others.len() implies convert_type(reg.types@, #[trigger] others[k]) == Ok::<
            Layout,
            EmitErrorView,
        >(rest[k]) by {
            assert(types[k + 1] == others[k]);
            assert(convert_type(reg.types@, types[k + 1]) == Ok::<Layout, EmitErrorView>(vals.layouts[k + 1]));
        }
    }
    match vals.layouts[0] {
        Layout::Int(_) => {
            lemma_with_rest_layouts(ValuesView::empty(), vals, 1);
            assert(rows[i as int].len() == 0);
            assert(rows[i as int] + others =~= others);
            assert(ValuesView::empty().layouts + rest =~= rest);
        },
        Layout::Union(_, vs) => {
            lemma_variant_fields_layouts(st, vals.operands[0], i, vs[i as int], 0, ValuesView::empty());
            let r = variant_fields_from(st, vals.operands[0], i, vs[i as int], 0, ValuesView::empty());
            lemma_with_rest_layouts(r.1, vals, 1);
            assert(holds_row(reg, rows[i as int], vs[i as int]));
            lemma_holds_row_concat(reg, rows[i as int], vs[i as int], others, rest);
        },
        _ => {},
    }
}

/// The first wire of a conditional comes from a node that is done, as
/// all its wires do.
pub proof fn lemma_first_wire_ok(h: Hugr, input: usize, done: Seq<usize>, wires: Seq<Wire>, expect: Seq<TypeView>)
    requires
        wires_ok(no_extensions(), h, input, done, wires, expect),
        expect.len() >= 1,
    ensures
        wires_ok(no_extensions(), h, input, done, seq![wires[0]], seq![expect[0]]),
{
    lemma_none_is_plain();
    lemma_row_plain_each(expect, 0, 0);
    let one = seq![expect[0]];
    assert forall|k: int| 0 <= k < one.len() implies plain(#[trigger] one[k]) by {}
    lemma_each_plain_row(one, 0);
    assert(wire_ok(h, input, done, wires[0], expect[0]));
    assert(known(no_extensions(), expect[0]));
    assert(row_known(no_extensions(), one, 1));
    assert(row_known(no_extensions(), one, 0));
}

/// Every node of a well-formed region is emitted with success, and is
/// then bound well, as the nodes before it stay.
pub proof fn lemma_nodes_owed<L: ExtensionLowering>(
    reg: ExtensionOpRegistry<L>,
    h: Hugr,
    st: FuncState,
    parent: usize,
    order: Seq<usize>,
    k: nat,
)
    requires
        tree(h),
        st.bound.len() == h.nodes@.len(),
        parent < h.nodes@.len(),
        h.nodes[parent as int].children@.len() >= 2,
        nodes_ok(no_extensions(), h, parent, order),
        distinct(order),
        forall|j: int| 0 <= j < order.len() ==> (#[trigger] order[j]) != input_of(h, parent) && h.nodes[order[j] as int].parent
            == parent,
        k <= order.len(),
        done_ok(reg, h, st, input_of(h, parent), order.take(k as int)),
    ensures
        nodes_code_from(reg, h, st, parent, order, k) matches Ok(st2) && extends(st, st2) && done_ok(
            reg,
            h,
            st2,
            input_of(h, parent),
            order,
        ),
    decreases h.nodes@.len() - parent, 2nat, order.len() - k,
{
    lemma_none_is_plain();
    let inp = input_of(h, parent);
    if k < order.len() {
        let c = order[k as int];
        let done = order.take(k as int);
        assert(parent < c < h.nodes@.len() && node_ok(no_extensions(), h, c));
        lemma_child_under(h, parent, 0);
        assert(apart(h, inp, done, c)) by {
            assert forall|d: usize| #[trigger] is_done(inp, done, d) implies !under(h, d as nat, c as nat) by {
                if d == inp {
                    lemma_sibling_not_under(h, d, c, parent);
                } else {
                    let j = choose|j: int| 0 <= j < done.len() && done[j] == d;
                    assert(order[j] == d);
                    lemma_sibling_not_under(h, d, c, parent);
                }
            }
        }
        lemma_node_owed(reg, h, st, c, inp, done);
        lemma_node_confined(reg, h, st, c);
        lemma_node_extends(reg, h, st, c);
        let st1 = node_code(reg, h, st, c)->Ok_0;
        lemma_done_kept(reg, h, st, st1, inp, done, c);
        let next = order.take(k as int + 1);
        assert(next =~= done.push(c));
        assert(done_ok(reg, h, st1, inp, next)) by {
            assert forall|d: usize| is_done(inp, next, d) implies #[trigger] bound_ok(reg, h, st1, d) by {
                if d != c {
                    if d != inp {
                        let j = choose|j: int| 0 <= j < next.len() && next[j] == d;
                        assert(done[j] == d);
                    }
                    assert(is_done(inp, done, d));
                }
            }
        }
        lemma_nodes_owed(reg, h, st1, parent, order, k + 1);
        let st2 = nodes_code_from(reg, h, st1, parent, order, k + 1)->Ok_0;
        lemma_extends_trans(st, st1, st2);
    } else {
        assert(order.take(k as int) =~= order);
    }
}

/// A well-formed region that is given values of the layouts of its
/// inputs is emitted with success, and yields values of the layouts of
/// its outputs.
pub proof fn lemma_region_owed<L: ExtensionLowering>(
    reg: ExtensionOpRegistry<L>,
    h: Hugr,
    st: FuncState,
    parent: usize,
    types: Seq<TypeView>,
    inputs: ValuesView,
)
    requires
        tree(h),
        st.bound.len() == h.nodes@.len(),
        region_ok(no_extensions(), h, parent, types),
        holds_row(reg, types, inputs.layouts),
        inputs.operands.len() == inputs.layouts.len(),
    ensures
        region_code(reg, h, st, parent, inputs) matches Ok((st2, outs)) && extends(st, st2) && holds_row(
            reg,
            region_yields(h, parent),
            outs.layouts,
        ) && outs.operands.len() == outs.layouts.len(),
    decreases h.nodes@.len() - parent, 3nat, 0nat,
{
    lemma_none_is_plain();
    let inp = input_of(h, parent);
    let out = output_of(h, parent);
    lemma_child_under(h, parent, 0);
    lemma_child_under(h, parent, 1);
    assert(region_boundary(h, parent) == Ok::<(usize, usize), EmitErrorView>((inp, out)));
    lemma_bind_owed(reg, st, inp, types, inputs);
    let st1 = bind_outputs(reg, st, inp, types, inputs)->Ok_0;
    let order = schedule(h, inp, region_body(h, parent))->Some_0;
    lemma_schedule_is_topological(h, inp, region_body(h, parent), Seq::empty());
    assert forall|j: int| 0 <= j < order.len() implies (#[trigger] order[j]) != inp && h.nodes[order[j] as int].parent
        == parent by {
        lemma_scheduled_are_children(h, parent, j);
        assert(ready(h, inp, order.take(j), order[j]));
    }
    assert(done_ok(reg, h, st1, inp, order.take(0))) by {
        assert forall|d: usize| is_done(inp, order.take(0), d) implies #[trigger] bound_ok(reg, h, st1, d) by {
            assert(d == inp);
        }
    }
    lemma_nodes_owed(reg, h, st1, parent, order, 0);
    let st2 = nodes_code_from(reg, h, st1, parent, order, 0)->Ok_0;
    lemma_load_owed(
        reg,
        h,
        st2,
        out,
        inp,
        order,
        h.nodes[out as int].inputs@,
        region_yields(h, parent),
        0,
        ValuesView::empty(),
    );
    lemma_load_grows(reg, h, st2, out, h.nodes[out as int].inputs@, region_yields(h, parent), 0, ValuesView::empty());
    let (st3, outs) = load_inputs(reg, h, st2, out, h.nodes[out as int].inputs@, region_yields(h, parent))->Ok_0;
    lemma_extends_trans(st, st1, st2);
    lemma_extends_trans(st, st2, st3);
    crate::frame::lemma_load_lengths(reg, h, st2, out, h.nodes[out as int].inputs@, region_yields(h, parent), 0, ValuesView::empty());
}

/// One case of a well-formed conditional is emitted with success.
pub proof fn lemma_case_owed<L: ExtensionLowering>(
    reg: ExtensionOpRegistry<L>,
    h: Hugr,
    st: FuncState,
    c: usize,
    base: nat,
    i: nat,
    input: usize,
    done: Seq<usize>,
)
    requires
        tree(h),
        st.bound.len() == h.nodes@.len(),
        node_ok(no_extensions(), h, c),
        h.nodes[c as int].op is Conditional,
        i < h.nodes[c as int].children@.len(),
        wires_ok(no_extensions(), h, input, done, h.nodes[c as int].inputs@, op_inputs(h.nodes[c as int].op)),
        done_ok(reg, h, st, input, done),
        apart(h, input, done, c),
        slots_hold(reg, st, base, op_outputs(h.nodes[c as int].op)),
    ensures
        case_code(reg, h, st, c, base, i) matches Ok(finished) && extends(st, finished.st) && done_ok(
            reg,
            h,
            finished.st,
            input,
            done,
        ),
    decreases h.nodes@.len() - c, 4nat, 0nat,
{
    lemma_none_is_plain();
    match h.nodes[c as int].op {
        OpType::Conditional { sum_rows, other_inputs, outputs } => {
            let op = h.nodes[c as int].op;
            let rows = type_rows_view(sum_rows);
            let others = type_row_view(other_inputs);
            let outs_t = type_row_view(outputs);
            lemma_type_rows_view(sum_rows);
            let child = h.nodes[c as int].children@[i as int];
            assert(first_listing(h.nodes[c as int].children@, i));
            assert(child_of(h, c, child));
            assert(cases_ok(no_extensions(), h, c, rows, others, outs_t));
            assert(c < child < h.nodes@.len() && h.nodes[child as int].op is Case && region_ok(
                no_extensions(), h,
                child,
                rows[i as int] + others,
            ) && region_yields(h, child) == outs_t);
            let wires = h.nodes[c as int].inputs@;
            lemma_load_owed(reg, h, st, c, input, done, wires, op_inputs(op), 0, ValuesView::empty());
            lemma_load_grows(reg, h, st, c, wires, op_inputs(op), 0, ValuesView::empty());
            crate::frame::lemma_load_lengths(reg, h, st, c, wires, op_inputs(op), 0, ValuesView::empty());
            let (st1, vals) = load_inputs(reg, h, st, c, wires, op_inputs(op))->Ok_0;
            assert(op_inputs(op) == seq![TypeView::Sum(rows)] + others);
            assert(op_inputs(op)[0] == TypeView::Sum(rows));
            lemma_row_plain_each(op_inputs(op), 0, 0);
            assert(rows_plain(rows, 0));
            assert(row_plain(others, 0)) by {
                assert forall|k: int| 0 <= k < others.len() implies plain(#[trigger] others[k]) by {
                    lemma_row_plain_each(op_inputs(op), 0, k + 1);
                    assert(op_inputs(op)[k + 1] == others[k]);
                }
                lemma_each_plain_row(others, 0);
            }
            lemma_case_inputs_owed(reg, st1, c, i, rows, others, vals);
            lemma_case_inputs_grows(st1, c, i, vals);
            let (st2, ins) = case_inputs(st1, c, i, vals)->Ok_0;
            lemma_region_owed(reg, h, st2, child, rows[i as int] + others, ins);
            lemma_region_confined(reg, h, st2, child, ins);
            let (st3, outs) = region_code(reg, h, st2, child, ins)->Ok_0;
            lemma_extends_trans(st, st1, st2);
            lemma_extends_trans(st, st2, st3);
            lemma_slots_hold_kept(reg, st, st3, base, outs_t);
            assert forall|k: int| 0 <= k < outs.operands.len() implies st3.slots[base + k] == #[trigger] outs.layouts[k] by {
                assert(convert_type(reg.types@, outs_t[k]) == Ok::<Layout, EmitErrorView>(outs.layouts[k]));
                assert(convert_type(reg.types@, outs_t[k]) == Ok::<Layout, EmitErrorView>(st3.slots[base + k]));
            }
            lemma_store_owed(st3, child, base, outs, 0);
            lemma_store_grows(st3, child, base, outs, 0);
            let st4 = store_values_from(st3, child, base, outs, 0)->Ok_0;
            let st5 = st4.close(TerminatorView::Unreachable);
            lemma_extends_trans(st, st3, st4);
            assert(extends(st4, st5));
            lemma_extends_trans(st, st4, st5);
            lemma_child_under(h, c, i as int);
            assert(done_ok(reg, h, st5, input, done)) by {
                assert forall|d: usize| is_done(input, done, d) implies #[trigger] bound_ok(reg, h, st5, d) by {
                    assert(bound_ok(reg, h, st, d));
                    assert(!under(h, d as nat, c as nat));
                    if st3.bound[d as int] != st2.bound[d as int] {
                        crate::confine::lemma_under_trans(h, d as nat, child as nat, c as nat);
                    }
                    lemma_bound_ok_kept(reg, h, st, st5, d);
                }
            }
        },
        _ => {},
    }
}

/// The cases of a well-formed conditional are emitted with success.
pub proof fn lemma_cases_owed<L: ExtensionLowering>(
    reg: ExtensionOpRegistry<L>,
    h: Hugr,
    st: FuncState,
    c: usize,
    base: nat,
    i: nat,
    targets: Seq<nat>,
    ends: Seq<nat>,
    input: usize,
    done: Seq<usize>,
)
    requires
        tree(h),
        st.bound.len() == h.nodes@.len(),
        node_ok(no_extensions(), h, c),
        h.nodes[c as int].op is Conditional,
        i <= h.nodes[c as int].children@.len(),
        wires_ok(no_extensions(), h, input, done, h.nodes[c as int].inputs@, op_inputs(h.nodes[c as int].op)),
        done_ok(reg, h, st, input, done),
        apart(h, input, done, c),
        slots_hold(reg, st, base, op_outputs(h.nodes[c as int].op)),
    ensures
        cases_code_from(reg, h, st, c, base, i, targets, ends) matches Ok(cases) && extends(st, cases.st),
    decreases h.nodes@.len() - c, 4nat, 1 + h.nodes[c as int].children@.len() - i,
{
    lemma_none_is_plain();
    if i < h.nodes[c as int].children@.len() {
        lemma_case_owed(reg, h, st, c, base, i, input, done);
        let finished = case_code(reg, h, st, c, base, i)->Ok_0;
        lemma_slots_hold_kept(reg, st, finished.st, base, op_outputs(h.nodes[c as int].op));
        lemma_cases_owed(
            reg,
            h,
            finished.st,
            c,
            base,
            i + 1,
            targets.push(finished.entry),
            ends.push(finished.end),
            input,
            done,
        );
        let cases = cases_code_from(
            reg,
            h,
            finished.st,
            c,
            base,
            i + 1,
            targets.push(finished.entry),
            ends.push(finished.end),
        )->Ok_0;
        lemma_extends_trans(st, finished.st, cases.st);
    }
}

/// A well-formed conditional is emitted with success, and is then bound
/// to slots of the layouts of its outputs.
pub proof fn lemma_conditional_owed<L: ExtensionLowering>(
    reg: ExtensionOpRegistry<L>,
    h: Hugr,
    st: FuncState,
    c: usize,
    input: usize,
    done: Seq<usize>,
)
    requires
        tree(h),
        st.bound.len() == h.nodes@.len(),
        node_ok(no_extensions(), h, c),
        h.nodes[c as int].op is Conditional,
        wires_ok(no_extensions(), h, input, done, h.nodes[c as int].inputs@, op_inputs(h.nodes[c as int].op)),
        done_ok(reg, h, st, input, done),
        apart(h, input, done, c),
    ensures
        conditional_code(reg, h, st, c) matches Ok(st2) && bound_ok(reg, h, st2, c),
    decreases h.nodes@.len() - c, 5nat, 0nat,
{
    lemma_none_is_plain();
    match h.nodes[c as int].op {
        OpType::Conditional { sum_rows, other_inputs, outputs } => {
            let op = h.nodes[c as int].op;
            let rows = type_rows_view(sum_rows);
            let others = type_row_view(other_inputs);
            let outs_t = type_row_view(outputs);
            lemma_type_rows_view(sum_rows);
            lemma_type_row_view(other_inputs);
            lemma_type_row_view(outputs);
            let wires = h.nodes[c as int].inputs@;
            assert(op_inputs(op) == seq![TypeView::Sum(rows)] + others);
            assert(op_inputs(op)[0] == TypeView::Sum(rows));
            lemma_first_wire_ok(h, input, done, wires, op_inputs(op));
            let ws = seq![wires[0]];
            let ts = seq![TypeView::Sum(rows)];
            lemma_load_owed(reg, h, st, c, input, done, ws, ts, 0, ValuesView::empty());
            lemma_load_grows(reg, h, st, c, ws, ts, 0, ValuesView::empty());
            crate::frame::lemma_load_lengths(reg, h, st, c, ws, ts, 0, ValuesView::empty());
            let (st1, v) = load_inputs(reg, h, st, c, ws, ts)->Ok_0;
            lemma_row_plain_each(op_inputs(op), 0, 0);
            lemma_sum_layout(reg, rows);
            assert(convert_type(reg.types@, ts[0]) == Ok::<Layout, EmitErrorView>(v.layouts[0]));
            lemma_discriminant_grows(st1, c, v);
            let (st2, on) = discriminant(st1, c, v)->Ok_0;
            lemma_alloc_owed(reg, st2, outs_t, 0);
            lemma_alloc_grows(reg, st2, outs_t, 0);
            let st3 = alloc_slots_from(reg, st2, outs_t, 0)->Ok_0;
            let st4 = st3.close(TerminatorView::Unreachable);
            let base = st2.slots.len();
            assert(slots_hold(reg, st4, base, outs_t)) by {
                assert forall|p: int| 0 <= p < outs_t.len() implies convert_type(reg.types@, #[trigger] outs_t[p])
                    == Ok::<Layout, EmitErrorView>(st4.slots[base + p]) by {
                    assert(convert_type(reg.types@, outs_t[p]) == Ok::<Layout, EmitErrorView>(
                        st3.slots[st2.slots.len() + p - 0],
                    ));
                }
            }
            lemma_extends_trans(st, st1, st2);
            lemma_extends_trans(st, st2, st3);
            assert(extends(st3, st4));
            lemma_extends_trans(st, st3, st4);
            lemma_done_same_bound(reg, h, st, st4, input, done);
            lemma_cases_owed(reg, h, st4, c, base, 0, Seq::empty(), Seq::empty(), input, done);
            let cases = cases_code_from(reg, h, st4, c, base, 0, Seq::empty(), Seq::empty())->Ok_0;
            let sw = cases.st.retarget(st3.blocks.len() as int, TerminatorView::Switch(on, cases.targets));
            lemma_branch_all(sw, cases.ends, cases.st.blocks.len(), 0);
            let joined = join(cases.st, st3.blocks.len(), on, cases.targets, cases.ends);
            let st5 = joined.bind(c as int, base);
            lemma_slots_hold_kept(reg, st4, cases.st, base, outs_t);
            assert(slots_hold(reg, st5, base, outs_t));
        },
        _ => {},
    }
}

/// Loading slots that have the layouts of types succeeds, and yields
/// values of those layouts.
pub proof fn lemma_load_slots_owed<L: ExtensionLowering>(
    reg: ExtensionOpRegistry<L>,
    st: FuncState,
    node: usize,
    base: nat,
    types: Seq<TypeView>,
    k: nat,
    acc: ValuesView,
)
    requires
        slots_hold(reg, st, base, types),
        k <= types.len(),
        acc.operands.len() == k,
        acc.layouts.len() == k,
        forall|j: int| 0 <= j < k ==> convert_type(reg.types@, #[trigger] types[j]) == Ok::<Layout, EmitErrorView>(
            acc.layouts[j],
        ),
    ensures
        load_slots_from(st, node, base, types.len(), k, acc) matches Ok((st2, vals)) && holds_row(
            reg,
            types,
            vals.layouts,
        ) && vals.operands.len() == vals.layouts.len(),
    decreases types.len() - k,
{
    if k < types.len() {
        let l = st.slots[(base + k) as int];
        assert(convert_type(reg.types@, types[k as int]) == Ok::<Layout, EmitErrorView>(st.slots[(base + k) as int]));
        let st1 = st.push(InstrView::Load { slot: base + k, ty: l });
        let acc1 = acc.push(OperandView::Local(st.cur.len()), l);
        assert(slots_hold(reg, st1, base, types)) by {
            assert forall|p: int| 0 <= p < types.len() implies convert_type(reg.types@, #[trigger] types[p]) == Ok::<
                Layout,
                EmitErrorView,
            >(st1.slots[base + p]) by {
                assert(convert_type(reg.types@, types[p]) == Ok::<Layout, EmitErrorView>(st.slots[base + p]));
            }
        }
        assert forall|j: int| 0 <= j < k + 1 implies convert_type(reg.types@, #[trigger] types[j]) == Ok::<
            Layout,
            EmitErrorView,
        >(acc1.layouts[j]) by {
            if j < k {
                assert(acc1.layouts[j] == acc.layouts[j]);
            }
        }
        lemma_load_slots_owed(reg, st1, node, base, types, k + 1, acc1);
    }
}

/// Moving what a round has yielded succeeds where the slots that are
/// read have the layouts of what is yielded, and the slots that are
/// written those of the fields of the variant and of the carried values.
pub proof fn lemma_move_yield_owed<L: ExtensionLowering>(
    reg: ExtensionOpRegistry<L>,
    st: FuncState,
    node: usize,
    from: nat,
    rows: Seq<Seq<TypeView>>,
    others: Seq<TypeView>,
    tag: nat,
    to: nat,
)
    requires
        rows_plain(rows, 0),
        row_plain(others, 0),
        tag < rows.len(),
        slots_hold(reg, st, from, seq![TypeView::Sum(rows)] + others),
        slots_hold(reg, st, to, rows[tag as int] + others),
    ensures
        move_yield(st, node, from, (seq![TypeView::Sum(rows)] + others).len(), tag, to) is Ok,
{
    let types = seq![TypeView::Sum(rows)] + others;
    lemma_load_slots_owed(reg, st, node, from, types, 0, ValuesView::empty());
    crate::frame::lemma_load_slots_grows(st, node, from, types.len(), 0, ValuesView::empty());
    let (st1, vals) = load_slots_from(st, node, from, types.len(), 0, ValuesView::empty())->Ok_0;
    lemma_case_inputs_owed(reg, st1, node, tag, rows, others, vals);
    lemma_case_inputs_grows(st1, node, tag, vals);
    let (st2, ins) = case_inputs(st1, node, tag, vals)->Ok_0;
    let dest = rows[tag as int] + others;
    assert forall|k: int| 0 <= k < ins.operands.len() implies st2.slots[to + k] == #[trigger] ins.layouts[k] by {
        assert(convert_type(reg.types@, dest[k]) == Ok::<Layout, EmitErrorView>(ins.layouts[k]));
        assert(convert_type(reg.types@, dest[k]) == Ok::<Layout, EmitErrorView>(st.slots[to + k]));
    }
    lemma_store_owed(st2, node, to, ins, 0);
}

/// A well-formed loop is emitted with success, and is then bound to
/// slots of the layouts of its outputs.
pub proof fn lemma_loop_owed<L: ExtensionLowering>(
    reg: ExtensionOpRegistry<L>,
    h: Hugr,
    st: FuncState,
    n: usize,
    input: usize,
    done: Seq<usize>,
)
    requires
        tree(h),
        st.bound.len() == h.nodes@.len(),
        node_ok(no_extensions(), h, n),
        h.nodes[n as int].op is TailLoop,
        wires_ok(no_extensions(), h, input, done, h.nodes[n as int].inputs@, op_inputs(h.nodes[n as int].op)),
        done_ok(reg, h, st, input, done),
    ensures
        loop_code(reg, h, st, n) matches Ok(st2) && bound_ok(reg, h, st2, n),
    decreases h.nodes@.len() - n, 5nat, 0nat,
{
    lemma_none_is_plain();
    match h.nodes[n as int].op {
        OpType::TailLoop { just_inputs, just_outputs, rest } => {
            let op = h.nodes[n as int].op;
            let ins_t = op_inputs(op);
            let outs_t = op_outputs(op);
            let rows = seq![type_row_view(just_inputs), type_row_view(just_outputs)];
            let others = type_row_view(rest);
            let yields = seq![TypeView::Sum(rows)] + others;
            assert(yields == loop_yields(type_row_view(just_inputs), type_row_view(just_outputs), others));
            assert(region_yields(h, n) == yields);
            // what the loop reads, writes and yields is plain
            assert(row_plain(yields, 0));
            lemma_row_plain_each(yields, 0, 0);
            assert(yields[0] == TypeView::Sum(rows));
            assert(rows_plain(rows, 0));
            assert(row_plain(others, 0)) by {
                assert forall|k: int| 0 <= k < others.len() implies plain(#[trigger] others[k]) by {
                    lemma_row_plain_each(yields, 0, k + 1);
                    assert(yields[k + 1] == others[k]);
                }
                lemma_each_plain_row(others, 0);
            }
            assert(rows[0] + others == ins_t);
            assert(rows[1] + others == outs_t);
            // the entry
            let wires = h.nodes[n as int].inputs@;
            lemma_load_owed(reg, h, st, n, input, done, wires, ins_t, 0, ValuesView::empty());
            lemma_load_grows(reg, h, st, n, wires, ins_t, 0, ValuesView::empty());
            crate::frame::lemma_load_lengths(reg, h, st, n, wires, ins_t, 0, ValuesView::empty());
            let (st1, vals) = load_inputs(reg, h, st, n, wires, ins_t)->Ok_0;
            lemma_alloc_owed(reg, st1, ins_t, 0);
            lemma_alloc_grows(reg, st1, ins_t, 0);
            let st2 = alloc_slots_from(reg, st1, ins_t, 0)->Ok_0;
            let round = st1.slots.len();
            assert(slots_hold(reg, st2, round, ins_t)) by {
                assert forall|p: int| 0 <= p < ins_t.len() implies convert_type(reg.types@, #[trigger] ins_t[p])
                    == Ok::<Layout, EmitErrorView>(st2.slots[round + p]) by {
                    assert(convert_type(reg.types@, ins_t[p]) == Ok::<Layout, EmitErrorView>(
                        st2.slots[st1.slots.len() + p - 0],
                    ));
                }
            }
            assert forall|k: int| 0 <= k < vals.operands.len() implies st2.slots[round + k] == #[trigger] vals.layouts[k] by {
                assert(convert_type(reg.types@, ins_t[k]) == Ok::<Layout, EmitErrorView>(vals.layouts[k]));
                assert(convert_type(reg.types@, ins_t[k]) == Ok::<Layout, EmitErrorView>(st2.slots[round + k]));
            }
            lemma_store_owed(st2, n, round, vals, 0);
            lemma_store_grows(st2, n, round, vals, 0);
            let st3 = store_values_from(st2, n, round, vals, 0)->Ok_0;
            lemma_alloc_owed(reg, st3, outs_t, 0);
            lemma_alloc_grows(reg, st3, outs_t, 0);
            let st4 = alloc_slots_from(reg, st3, outs_t, 0)->Ok_0;
            let out = st3.slots.len();
            assert(slots_hold(reg, st4, out, outs_t)) by {
                assert forall|p: int| 0 <= p < outs_t.len() implies convert_type(reg.types@, #[trigger] outs_t[p])
                    == Ok::<Layout, EmitErrorView>(st4.slots[out + p]) by {
                    assert(convert_type(reg.types@, outs_t[p]) == Ok::<Layout, EmitErrorView>(
                        st4.slots[st3.slots.len() + p - 0],
                    ));
                }
            }
            lemma_alloc_owed(reg, st4, yields, 0);
            lemma_alloc_grows(reg, st4, yields, 0);
            let st5 = alloc_slots_from(reg, st4, yields, 0)->Ok_0;
            let yielded = st4.slots.len();
            assert(slots_hold(reg, st5, yielded, yields)) by {
                assert forall|p: int| 0 <= p < yields.len() implies convert_type(reg.types@, #[trigger] yields[p])
                    == Ok::<Layout, EmitErrorView>(st5.slots[yielded + p]) by {
                    assert(convert_type(reg.types@, yields[p]) == Ok::<Layout, EmitErrorView>(
                        st5.slots[st4.slots.len() + p - 0],
                    ));
                }
            }
            let st6 = st5.close(TerminatorView::Br(st5.blocks.len() + 1));
            let slots = LoopSlots { st: st6, round, out, yielded };
            assert(loop_entry(reg, h, st, n) == Ok::<LoopSlots, EmitErrorView>(slots));
            assert(extends(st2, st6) && extends(st4, st6) && extends(st5, st6)) by {
                assert(extends(st5, st6));
                lemma_extends_trans(st4, st5, st6);
                lemma_extends_trans(st3, st4, st6);
                lemma_extends_trans(st2, st3, st6);
            }
            lemma_slots_hold_kept(reg, st2, st6, round, ins_t);
            lemma_slots_hold_kept(reg, st4, st6, out, outs_t);
            lemma_slots_hold_kept(reg, st5, st6, yielded, yields);
            // one round
            lemma_load_slots_owed(reg, st6, n, round, ins_t, 0, ValuesView::empty());
            crate::frame::lemma_load_slots_grows(st6, n, round, ins_t.len(), 0, ValuesView::empty());
            let (st7, ins) = load_slots_from(st6, n, round, ins_t.len(), 0, ValuesView::empty())->Ok_0;
            lemma_region_owed(reg, h, st7, n, ins_t, ins);
            let (st8, outs) = region_code(reg, h, st7, n, ins)->Ok_0;
            lemma_extends_trans(st6, st7, st8);
            lemma_slots_hold_kept(reg, st6, st8, yielded, yields);
            assert forall|k: int| 0 <= k < outs.operands.len() implies st8.slots[yielded + k] == #[trigger] outs.layouts[k] by {
                assert(convert_type(reg.types@, yields[k]) == Ok::<Layout, EmitErrorView>(outs.layouts[k]));
                assert(convert_type(reg.types@, yields[k]) == Ok::<Layout, EmitErrorView>(st8.slots[yielded + k]));
            }
            lemma_store_owed(st8, n, yielded, outs, 0);
            lemma_store_grows(st8, n, yielded, outs, 0);
            let st9 = store_values_from(st8, n, yielded, outs, 0)->Ok_0;
            lemma_sum_layout(reg, rows);
            assert(convert_type(reg.types@, yields[0]) == Ok::<Layout, EmitErrorView>(outs.layouts[0]));
            lemma_discriminant_grows(st9, n, first_of(outs));
            let (st10, on) = discriminant(st9, n, first_of(outs))->Ok_0;
            assert(loop_round(reg, h, st6, n, round, yielded) == Ok::<(FuncState, OperandView), EmitErrorView>(
                (st10, on),
            ));
            lemma_extends_trans(st6, st8, st9);
            lemma_extends_trans(st6, st9, st10);
            // the exit
            let st11 = st10.close(TerminatorView::Unreachable);
            assert(extends(st10, st11));
            lemma_extends_trans(st6, st10, st11);
            lemma_slots_hold_kept(reg, st6, st11, round, ins_t);
            lemma_slots_hold_kept(reg, st6, st11, out, outs_t);
            lemma_slots_hold_kept(reg, st6, st11, yielded, yields);
            lemma_move_yield_owed(reg, st11, n, yielded, rows, others, 0, round);
            crate::frame::lemma_move_yield_grows(st11, n, yielded, yields.len(), 0, round);
            let st12 = move_yield(st11, n, yielded, yields.len(), 0, round)->Ok_0;
            let st13 = st12.close(TerminatorView::Br(st6.blocks.len()));
            assert(extends(st12, st13));
            lemma_extends_trans(st11, st12, st13);
            lemma_slots_hold_kept(reg, st11, st13, out, outs_t);
            lemma_slots_hold_kept(reg, st11, st13, yielded, yields);
            lemma_move_yield_owed(reg, st13, n, yielded, rows, others, 1, out);
            crate::frame::lemma_move_yield_grows(st13, n, yielded, yields.len(), 1, out);
            let st14 = move_yield(st13, n, yielded, yields.len(), 1, out)->Ok_0;
            let st15 = st14.close(TerminatorView::Br(st14.blocks.len() + 1)).retarget(
                st10.blocks.len() as int,
                TerminatorView::Switch(on, seq![st10.blocks.len() + 1, st10.blocks.len() + 2]),
            );
            assert(loop_exit(st10, n, slots, yields.len(), st6.blocks.len(), on) == Ok::<FuncState, EmitErrorView>(
                st15,
            ));
            assert(yields_count(op) == yields.len());
            let st16 = st15.bind(n as int, out);
            assert(slots_hold(reg, st16, out, outs_t)) by {
                assert forall|p: int| 0 <= p < outs_t.len() implies convert_type(reg.types@, #[trigger] outs_t[p])
                    == Ok::<Layout, EmitErrorView>(st16.slots[out + p]) by {
                    assert(convert_type(reg.types@, outs_t[p]) == Ok::<Layout, EmitErrorView>(st13.slots[out + p]));
                }
            }
        },
        _ => {},
    }
}

/// A well-formed node is emitted with success, and is then bound to
/// slots of the layouts of its outputs.
pub proof fn lemma_node_owed<L: ExtensionLowering>(
    reg: ExtensionOpRegistry<L>,
    h: Hugr,
    st: FuncState,
    c: usize,
    input: usize,
    done: Seq<usize>,
)
    requires
        tree(h),
        st.bound.len() == h.nodes@.len(),
        node_ok(no_extensions(), h, c),
        wires_ok(no_extensions(), h, input, done, h.nodes[c as int].inputs@, op_inputs(h.nodes[c as int].op)),
        done_ok(reg, h, st, input, done),
        apart(h, input, done, c),
    ensures
        node_code(reg, h, st, c) matches Ok(st2) && bound_ok(reg, h, st2, c),
    decreases h.nodes@.len() - c, 6nat, 0nat,
{
    lemma_none_is_plain();
    let op = h.nodes[c as int].op;
    match op {
        OpType::Dfg { signature } => {
            let wires = h.nodes[c as int].inputs@;
            lemma_load_owed(reg, h, st, c, input, done, wires, op_inputs(op), 0, ValuesView::empty());
            lemma_load_grows(reg, h, st, c, wires, op_inputs(op), 0, ValuesView::empty());
            crate::frame::lemma_load_lengths(reg, h, st, c, wires, op_inputs(op), 0, ValuesView::empty());
            let (st1, vals) = load_inputs(reg, h, st, c, wires, op_inputs(op))->Ok_0;
            lemma_region_owed(reg, h, st1, c, type_row_view(signature.input), vals);
            let (st2, outs) = region_code(reg, h, st1, c, vals)->Ok_0;
            lemma_bind_owed(reg, st2, c, op_outputs(op), outs);
        },
        OpType::Conditional { .. } => {
            lemma_conditional_owed(reg, h, st, c, input, done);
        },
        OpType::TailLoop { .. } => {
            lemma_loop_owed(reg, h, st, c, input, done);
        },
        OpType::MakeTuple { .. } => {
            lemma_leaf_node_owed(reg, h, st, c, input, done);
        },
        OpType::UnpackTuple { .. } => {
            lemma_leaf_node_owed(reg, h, st, c, input, done);
        },
        OpType::Tag { .. } => {
            lemma_leaf_node_owed(reg, h, st, c, input, done);
        },
        OpType::LoadConstant { .. } => {
            lemma_leaf_node_owed(reg, h, st, c, input, done);
        },
        _ => {},
    }
}

/// The definition of a function whose body is well formed is emitted
/// with success.
pub proof fn lemma_function_owed<L: ExtensionLowering>(reg: ExtensionOpRegistry<L>, h: Hugr, fnode: usize)
    requires
        tree(h),
        child_of(h, 0, fnode),
        h.nodes[fnode as int].op matches OpType::FuncDefn { name, signature } && region_ok(
            no_extensions(), h,
            fnode,
            type_row_view(signature.input),
        ) && region_yields(h, fnode) == type_row_view(signature.output) && row_plain(
            type_row_view(signature.output),
            0,
        ),
    ensures
        function_code(reg, h, fnode) is Ok,
{
    lemma_none_is_plain();
    match h.nodes[fnode as int].op {
        OpType::FuncDefn { name, signature } => {
            let ins = type_row_view(signature.input);
            let outs_t = type_row_view(signature.output);
            lemma_row_has_layouts(reg, ins);
            lemma_row_has_layouts(reg, outs_t);
            let params = convert_row(reg.types@, ins)->Ok_0;
            let results = convert_row(reg.types@, outs_t)->Ok_0;
            let st0 = FuncState::start(params, h.nodes@.len());
            lemma_region_owed(reg, h, st0, fnode, ins, param_values(params));
            let (st, outs) = region_code(reg, h, st0, fnode, param_values(params))->Ok_0;
            assert(outs.layouts =~= results) by {
                assert forall|k: int| 0 <= k < results.len() implies outs.layouts[k] == results[k] by {
                    assert(convert_type(reg.types@, outs_t[k]) == Ok::<Layout, EmitErrorView>(results[k]));
                    assert(convert_type(reg.types@, outs_t[k]) == Ok::<Layout, EmitErrorView>(outs.layouts[k]));
                }
            }
        },
        _ => {},
    }
}

pub proof fn lemma_functions_owed<L: ExtensionLowering>(
    reg: ExtensionOpRegistry<L>,
    h: Hugr,
    i: nat,
    acc: Seq<FunctionView>,
)
    requires
        graph_ok(h),
    ensures
        functions_code_from(reg, h, h.nodes[0].children@, i, acc) is Ok,
    decreases h.nodes[0].children@.len() - i,
{
    lemma_none_is_plain();
    let children = h.nodes[0].children@;
    if i < children.len() {
        let f = children[i as int];
        lemma_child_under(h, 0, i as int);
        assert(first_listing(children, i));
        assert(child_of(h, 0, f));
        lemma_function_owed(reg, h, f);
        lemma_functions_owed(reg, h, i + 1, acc.push(function_code(reg, h, f)->Ok_0));
    }
}

/// Success is owed: a well-formed module that uses no extension is
/// emitted with success under every registry, and what is emitted is
/// structurally valid.
pub proof fn law_success_is_owed<L: ExtensionLowering>(reg: ExtensionOpRegistry<L>, h: Hugr)
    requires
        graph_ok(h),
    ensures
        module_code(reg, h) matches Ok(m) && m.valid() && m.functions.len() == h.nodes[0].children@.len(),
{
    lemma_functions_owed(reg, h, 0, Seq::empty());
    law_gate_never_closes(reg, h);
    lemma_functions_count(reg, h, h.nodes[0].children@, 0, Seq::empty());
}

/// Emission yields one function for each definition.
pub proof fn lemma_functions_count<L: ExtensionLowering>(
    reg: ExtensionOpRegistry<L>,
    h: Hugr,
    children: Seq<usize>,
    i: nat,
    acc: Seq<FunctionView>,
)
    requires
        i <= children.len(),
    ensures
        functions_code_from(reg, h, children, i, acc) matches Ok(fs) ==> fs.len() == acc.len() + children.len() - i,
    decreases children.len() - i,
{
    if i < children.len() {
        match function_code(reg, h, children[i as int]) {
            Err(e) => {},
            Ok(f) => {
                lemma_functions_count(reg, h, children, i + 1, acc.push(f));
            },
        }
    }
}

} // verus!

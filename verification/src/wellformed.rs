//! Well-formed graphs: what a graph must be like to pass validation
//! against the extensions that it may use. Emission is owed success on
//! the well-formed graphs that use no extension.
use vstd::prelude::*;
use crate::types::TypeView;
use crate::types::type_row_view;
use crate::types::type_rows_view;
use crate::ops::OpType;
use crate::ops::Value;
use crate::ops::op_inputs;
use crate::ops::op_outputs;
use crate::ops::loop_yields;
use crate::hugr::Hugr;
use crate::hugr::Wire;
use crate::convert::plain;
use crate::convert::row_plain;
use crate::convert::rows_plain;
use crate::builder::has_name;
use crate::schedule::schedule;
use crate::schedule::is_done;
use crate::region::region_body;
use crate::region::first_listing;

verus! {

/// Whether the hierarchy is a tree in which every child comes after its
/// parent and knows it, and no node lists a child twice.
pub open spec fn tree(h: Hugr) -> bool {
    &&& forall|x: int, k: int|
        0 <= x < h.nodes@.len() && 0 <= k < h.nodes[x].children@.len() ==> x < (
        #[trigger] h.nodes[x].children@[k]) < h.nodes@.len() && h.nodes[h.nodes[x].children@[k] as int].parent
            == x
    &&& forall|x: int, i: nat|
        0 <= x < h.nodes@.len() && i < h.nodes[x].children@.len() ==> #[trigger] first_listing(
            h.nodes[x].children@,
            i,
        )
}

/// Whether the node `x` is `c` or lies below it in the hierarchy.
pub open spec fn under(h: Hugr, x: nat, c: nat) -> bool
    decreases x,
{
    x == c || (c < x < h.nodes@.len() && h.nodes[x as int].parent < x && under(
        h,
        h.nodes[x as int].parent as nat,
        c,
    ))
}

/// Whether the literals from position `i` on name no extension and pick
/// variants that their sums have.
pub open spec fn values_plain_from(vs: Vec<Value>, i: nat) -> bool
    decreases vs, vs.len() - i,
{
    i >= vs.len() || (value_plain(vs[i as int]) && values_plain_from(vs, i + 1))
}

/// Whether a literal names no extension and picks variants that its sums
/// have.
pub open spec fn value_plain(v: Value) -> bool
    decreases v, 0nat,
{
    match v {
        Value::UnitSum { tag, arity } => tag < arity,
        Value::Tuple(vs) => values_plain_from(vs, 0),
        Value::Extension(_) => false,
    }
}

/// No extensions.
pub open spec fn no_extensions() -> Seq<String> {
    Seq::empty()
}

/// Whether every opaque type in the types of `row` from position `i` on
/// belongs to one of the extensions `names`.
pub open spec fn row_known(names: Seq<String>, row: Seq<TypeView>, i: nat) -> bool
    decreases row, row.len() - i,
{
    i >= row.len() || (known(names, row[i as int]) && row_known(names, row, i + 1))
}

/// Whether every opaque type in the rows of `rows` from position `i` on
/// belongs to one of the extensions `names`.
pub open spec fn rows_known(names: Seq<String>, rows: Seq<Seq<TypeView>>, i: nat) -> bool
    decreases rows, rows.len() - i,
{
    i >= rows.len() || (row_known(names, rows[i as int], 0) && rows_known(names, rows, i + 1))
}

/// Whether every opaque type in a type belongs to one of the extensions
/// `names`.
pub open spec fn known(names: Seq<String>, t: TypeView) -> bool
    decreases t, 0nat,
{
    match t {
        TypeView::Extension(c) => has_name(names, c.extension),
        TypeView::Tuple(fields) => row_known(names, fields, 0),
        TypeView::Sum(variants) => rows_known(names, variants, 0),
        TypeView::Function(input, output) => row_known(names, input, 0) && row_known(names, output, 0),
    }
}

/// Whether the literals from position `i` on are as `value_ok` says.
pub open spec fn values_ok_from(names: Seq<String>, vs: Vec<Value>, i: nat) -> bool
    decreases vs, vs.len() - i,
{
    i >= vs.len() || (value_ok(names, vs[i as int]) && values_ok_from(names, vs, i + 1))
}

/// Whether a literal picks variants that its sums have, and every opaque
/// constant in it, with its type, belongs to one of the extensions
/// `names`.
pub open spec fn value_ok(names: Seq<String>, v: Value) -> bool
    decreases v, 0nat,
{
    match v {
        Value::UnitSum { tag, arity } => tag < arity,
        Value::Tuple(vs) => values_ok_from(names, vs, 0),
        Value::Extension(c) => has_name(names, c.extension@) && has_name(names, c.ty.extension@),
    }
}

pub proof fn lemma_row_known_plain(row: Seq<TypeView>, i: nat)
    requires
        row_known(no_extensions(), row, i),
    ensures
        row_plain(row, i),
    decreases row, row.len() - i,
{
    if i < row.len() {
        lemma_known_plain(row[i as int]);
        lemma_row_known_plain(row, i + 1);
    }
}

pub proof fn lemma_rows_known_plain(rows: Seq<Seq<TypeView>>, i: nat)
    requires
        rows_known(no_extensions(), rows, i),
    ensures
        rows_plain(rows, i),
    decreases rows, rows.len() - i,
{
    if i < rows.len() {
        lemma_row_known_plain(rows[i as int], 0);
        lemma_rows_known_plain(rows, i + 1);
    }
}

/// A type whose opaque types belong to no extension holds no opaque
/// type.
pub proof fn lemma_known_plain(t: TypeView)
    requires
        known(no_extensions(), t),
    ensures
        plain(t),
    decreases t, 0nat,
{
    match t {
        TypeView::Extension(c) => {},
        TypeView::Tuple(fields) => {
            lemma_row_known_plain(fields, 0);
        },
        TypeView::Sum(variants) => {
            lemma_rows_known_plain(variants, 0);
        },
        TypeView::Function(input, output) => {
            lemma_row_known_plain(input, 0);
            lemma_row_known_plain(output, 0);
        },
    }
}

pub proof fn lemma_values_ok_plain(vs: Vec<Value>, i: nat)
    requires
        values_ok_from(no_extensions(), vs, i),
    ensures
        values_plain_from(vs, i),
    decreases vs, vs.len() - i,
{
    if i < vs.len() {
        lemma_value_ok_plain(vs[i as int]);
        lemma_values_ok_plain(vs, i + 1);
    }
}

/// A literal whose opaque constants belong to no extension holds none.
pub proof fn lemma_value_ok_plain(v: Value)
    requires
        value_ok(no_extensions(), v),
    ensures
        value_plain(v),
    decreases v, 0nat,
{
    match v {
        Value::Tuple(vs) => {
            lemma_values_ok_plain(vs, 0);
        },
        _ => {},
    }
}

/// Where no extension is admitted, what is admitted is plain.
pub proof fn lemma_none_is_plain()
    ensures
        forall|row: Seq<TypeView>| #[trigger] row_known(no_extensions(), row, 0) ==> row_plain(row, 0),
        forall|v: Value| #[trigger] value_ok(no_extensions(), v) ==> value_plain(v),
        forall|name: Seq<char>| !#[trigger] has_name(no_extensions(), name),
{
    assert forall|row: Seq<TypeView>| #[trigger] row_known(no_extensions(), row, 0) implies row_plain(row, 0) by {
        lemma_row_known_plain(row, 0);
    }
    assert forall|v: Value| #[trigger] value_ok(no_extensions(), v) implies value_plain(v) by {
        lemma_value_ok_plain(v);
    }
}

/// Whether the wire `w` into a port that declares the type `expect` comes
/// from a node that is done, from a port that the node has, of that type.
pub open spec fn wire_ok(h: Hugr, input: usize, done: Seq<usize>, w: Wire, expect: TypeView) -> bool {
    &&& is_done(input, done, w.node)
    &&& w.node < h.nodes@.len()
    &&& w.port < op_outputs(h.nodes[w.node as int].op).len()
    &&& op_outputs(h.nodes[w.node as int].op)[w.port as int] == expect
}

/// Whether there is one wire for each port, and each is as `wire_ok` says.
pub open spec fn wires_ok(names: Seq<String>, h: Hugr, input: usize, done: Seq<usize>, wires: Seq<Wire>, expect: Seq<TypeView>) -> bool {
    &&& wires.len() == expect.len()
    &&& row_known(names, expect, 0)
    &&& forall|j: int| 0 <= j < wires.len() ==> wire_ok(h, input, done, #[trigger] wires[j], expect[j])
}

/// The input node of the region that `parent` owns.
pub open spec fn input_of(h: Hugr, parent: usize) -> usize {
    h.nodes[parent as int].children@[0]
}

/// The output node of the region that `parent` owns.
pub open spec fn output_of(h: Hugr, parent: usize) -> usize {
    h.nodes[parent as int].children@[1]
}

/// The types that the region that `parent` owns yields: those that its
/// output node declares.
pub open spec fn region_yields(h: Hugr, parent: usize) -> Seq<TypeView> {
    op_inputs(h.nodes[output_of(h, parent) as int].op)
}

/// Whether every node of `order` is a well-formed node of the region of
/// `parent`, fed by nodes that come before it in `order`.
pub open spec fn nodes_ok(names: Seq<String>, h: Hugr, parent: usize, order: Seq<usize>) -> bool
    decreases h.nodes@.len() - parent, 2nat, 0nat,
{
    forall|k: int|
        0 <= k < order.len() ==> parent < (#[trigger] order[k]) < h.nodes@.len() && wires_ok(
            names,
            h,
            input_of(h, parent),
            order.take(k),
            h.nodes[order[k] as int].inputs@,
            op_inputs(h.nodes[order[k] as int].op),
        ) && node_ok(names, h, order[k])
}

/// Whether the region that `parent` owns is well formed for inputs of the
/// types `inputs`: it has its input node, which declares those types, and
/// its output node; its other nodes can be put in an order in which each
/// is fed by nodes before it, through wires of the right types; and so is
/// its output node.
pub open spec fn region_ok(names: Seq<String>, h: Hugr, parent: usize, inputs: Seq<TypeView>) -> bool
    decreases h.nodes@.len() - parent, 3nat, 0nat,
{
    &&& parent < h.nodes@.len()
    &&& h.nodes[parent as int].children@.len() >= 2
    &&& input_of(h, parent) < h.nodes@.len()
    &&& output_of(h, parent) < h.nodes@.len()
    &&& h.nodes[input_of(h, parent) as int].op is Input
    &&& h.nodes[output_of(h, parent) as int].op is Output
    &&& op_outputs(h.nodes[input_of(h, parent) as int].op) == inputs
    &&& row_known(names, inputs, 0)
    &&& schedule(h, input_of(h, parent), region_body(h, parent)) matches Some(order)
    &&& nodes_ok(names, h, parent, order)
    &&& wires_ok(
        names,
        h,
        input_of(h, parent),
        order,
        h.nodes[output_of(h, parent) as int].inputs@,
        region_yields(h, parent),
    )
}

/// Whether every case of the conditional `c` is a well-formed region for
/// the fields of its variant and the other inputs, and yields what the
/// conditional declares.
pub open spec fn cases_ok(
    names: Seq<String>,
    h: Hugr,
    c: usize,
    sum_rows: Seq<Seq<TypeView>>,
    other_inputs: Seq<TypeView>,
    outputs: Seq<TypeView>,
) -> bool
    decreases h.nodes@.len() - c, 4nat, 0nat,
{
    forall|i: int|
        0 <= i < h.nodes[c as int].children@.len() ==> c < (#[trigger] h.nodes[c as int].children@[i])
            < h.nodes@.len() && h.nodes[h.nodes[c as int].children@[i] as int].op is Case && i < sum_rows.len()
            && region_ok(names, h, h.nodes[c as int].children@[i], sum_rows[i] + other_inputs) && region_yields(
            h,
            h.nodes[c as int].children@[i],
        ) == outputs
}

/// Whether the node `c` of a region is well formed: its operation can
/// stand in a region, what it names of an extension belongs to one of
/// the extensions `names`, and the regions that it owns are well formed
/// and yield what it declares.
pub open spec fn node_ok(names: Seq<String>, h: Hugr, c: usize) -> bool
    decreases h.nodes@.len() - c, 6nat, 0nat,
{
    &&& c < h.nodes@.len()
    &&& row_known(names, op_outputs(h.nodes[c as int].op), 0)
    &&& match h.nodes[c as int].op {
        OpType::Dfg { signature } => region_ok(names, h, c, type_row_view(signature.input)) && region_yields(h, c)
            == type_row_view(signature.output),
        OpType::Conditional { sum_rows, other_inputs, outputs } => h.nodes[c as int].children@.len()
            == sum_rows@.len() && cases_ok(
            names,
            h,
            c,
            type_rows_view(sum_rows),
            type_row_view(other_inputs),
            type_row_view(outputs),
        ),
        OpType::TailLoop { just_inputs, just_outputs, rest } => region_ok(
            names,
            h,
            c,
            type_row_view(just_inputs) + type_row_view(rest),
        ) && region_yields(h, c) == loop_yields(
            type_row_view(just_inputs),
            type_row_view(just_outputs),
            type_row_view(rest),
        ),
        OpType::MakeTuple { .. } => true,
        OpType::UnpackTuple { .. } => true,
        OpType::Tag { tag, variants } => tag < variants@.len(),
        OpType::LoadConstant { value } => value_ok(names, value),
        OpType::Extension(e) => has_name(names, e.extension@) && row_known(
            names,
            op_inputs(h.nodes[c as int].op),
            0,
        ),
        _ => false,
    }
}

/// Whether every child of the root is the definition of a function whose
/// body is a well-formed region that yields what the function declares.
pub open spec fn functions_ok(names: Seq<String>, h: Hugr) -> bool {
    forall|k: int|
        0 <= k < h.nodes[0].children@.len() ==> (h.nodes[(#[trigger] h.nodes[0].children@[k]) as int].op matches OpType::FuncDefn {
            name,
            signature,
        } && region_ok(names, h, h.nodes[0].children@[k], type_row_view(signature.input)) && region_yields(
            h,
            h.nodes[0].children@[k],
        ) == type_row_view(signature.output) && row_known(names, type_row_view(signature.output), 0))
}

/// Whether a graph is a well-formed module that uses no extension but
/// those of `names`: the hierarchy is a tree; every child of the root
/// defines a function; every region has its input and output node, which
/// declare the types of its container; every input port has one wire,
/// which comes from within its region and carries the port's type.
pub open spec fn graph_valid(h: Hugr, names: Seq<String>) -> bool {
    &&& h.nodes@.len() > 0
    &&& h.nodes[0].op is Module
    &&& tree(h)
    &&& functions_ok(names, h)
}

/// Whether a graph is a well-formed module that uses no extension.
pub open spec fn graph_ok(h: Hugr) -> bool {
    graph_valid(h, no_extensions())
}

} // verus!

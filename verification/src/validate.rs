//! A check for well-formed graphs: where it answers `true`, emission is
//! owed success.
use vstd::prelude::*;
use crate::types::Type;
use crate::types::type_row_view;
use crate::types::type_rows_view;
use crate::types::type_row_same;
use crate::types::type_row_concat;
use crate::types::lemma_type_row_view;
use crate::types::lemma_type_rows_view;
use crate::ops::OpType;
use crate::ops::Value;
use crate::ops::op_inputs;
use crate::ops::loop_yield_types;
use crate::hugr::Hugr;
use crate::hugr::Wire;
use crate::convert::plain;
use crate::convert::row_plain;
use crate::convert::rows_plain;
use crate::schedule::schedule;
use crate::schedule::compute_schedule;
use crate::schedule::marks;
use crate::schedule::lemma_marks_push;
use crate::schedule::lemma_marks_outside;
use crate::wellformed::nodes_ok;
use crate::region::region_body;
use crate::wellformed::tree;
use crate::region::first_listing;
use crate::region::is_first_listing;
use crate::wellformed::value_plain;
use crate::wellformed::values_plain_from;
use crate::wellformed::wire_ok;
use crate::wellformed::wires_ok;
use crate::wellformed::region_yields;
use crate::wellformed::region_ok;
use crate::wellformed::cases_ok;
use crate::wellformed::node_ok;
use crate::wellformed::graph_ok;
use crate::wellformed::graph_valid;
use crate::wellformed::no_extensions;
use crate::wellformed::known;
use crate::wellformed::row_known;
use crate::wellformed::rows_known;
use crate::wellformed::value_ok;
use crate::wellformed::values_ok_from;
use crate::builder::ExtensionRegistry;

verus! {

/// Decides `row_plain`.
#[verifier::loop_isolation(false)]
pub fn row_is_plain(row: &Vec<Type>) -> (r: bool)
    ensures
        r == row_plain(type_row_view(*row), 0),
    decreases row, 1nat,
{
    proof {
        lemma_type_row_view(*row);
    }
    let mut i: usize = 0;
    while i < row.len()
        invariant
            i <= row.len(),
            row_plain(type_row_view(*row), 0) == row_plain(type_row_view(*row), i as nat),
        decreases row.len() - i,
    {
        if !type_is_plain(&row[i]) {
            return false;
        }
        i += 1;
    }
    true
}

/// Decides `rows_plain`.
#[verifier::loop_isolation(false)]
pub fn rows_are_plain(rows: &Vec<Vec<Type>>) -> (r: bool)
    ensures
        r == rows_plain(type_rows_view(*rows), 0),
    decreases rows, 1nat,
{
    proof {
        lemma_type_rows_view(*rows);
    }
    let mut i: usize = 0;
    while i < rows.len()
        invariant
            i <= rows.len(),
            rows_plain(type_rows_view(*rows), 0) == rows_plain(type_rows_view(*rows), i as nat),
        decreases rows.len() - i,
    {
        if !row_is_plain(&rows[i]) {
            return false;
        }
        i += 1;
    }
    true
}

/// Decides `plain`: whether a type holds no opaque type of an extension.
pub fn type_is_plain(t: &Type) -> (r: bool)
    ensures
        r == plain(t@),
    decreases t, 0nat,
{
    match t {
        Type::Extension(_) => false,
        Type::Tuple(fields) => row_is_plain(fields),
        Type::Sum(variants) => rows_are_plain(variants),
        Type::Function { input, output } => row_is_plain(input) && row_is_plain(output),
    }
}

/// Decides `value_plain`.
#[verifier::loop_isolation(false)]
pub fn value_is_plain(v: &Value) -> (r: bool)
    ensures
        r == value_plain(*v),
    decreases v,
{
    match v {
        Value::UnitSum { tag, arity } => *tag < *arity,
        Value::Tuple(vs) => {
            let mut i: usize = 0;
            while i < vs.len()
                invariant
                    i <= vs.len(),
                    values_plain_from(*vs, 0) == values_plain_from(*vs, i as nat),
                decreases vs.len() - i,
            {
                if !value_is_plain(&vs[i]) {
                    return false;
                }
                i += 1;
            }
            true
        },
        Value::Extension(_) => false,
    }
}

/// Decides `row_known`.
#[verifier::loop_isolation(false)]
pub fn row_is_known(reg: &ExtensionRegistry, row: &Vec<Type>) -> (r: bool)
    ensures
        r == row_known(reg.names@, type_row_view(*row), 0),
    decreases row, 1nat,
{
    proof {
        lemma_type_row_view(*row);
    }
    let mut i: usize = 0;
    while i < row.len()
        invariant
            i <= row.len(),
            row_known(reg.names@, type_row_view(*row), 0) == row_known(reg.names@, type_row_view(*row), i as nat),
        decreases row.len() - i,
    {
        if !type_is_known(reg, &row[i]) {
            return false;
        }
        i += 1;
    }
    true
}

/// Decides `rows_known`.
#[verifier::loop_isolation(false)]
pub fn rows_are_known(reg: &ExtensionRegistry, rows: &Vec<Vec<Type>>) -> (r: bool)
    ensures
        r == rows_known(reg.names@, type_rows_view(*rows), 0),
    decreases rows, 1nat,
{
    proof {
        lemma_type_rows_view(*rows);
    }
    let mut i: usize = 0;
    while i < rows.len()
        invariant
            i <= rows.len(),
            rows_known(reg.names@, type_rows_view(*rows), 0) == rows_known(
                reg.names@,
                type_rows_view(*rows),
                i as nat,
            ),
        decreases rows.len() - i,
    {
        if !row_is_known(reg, &rows[i]) {
            return false;
        }
        i += 1;
    }
    true
}

/// Decides `known`: whether every opaque type in a type belongs to a
/// registered extension.
pub fn type_is_known(reg: &ExtensionRegistry, t: &Type) -> (r: bool)
    ensures
        r == known(reg.names@, t@),
    decreases t, 0nat,
{
    match t {
        Type::Extension(c) => reg.contains(&c.extension),
        Type::Tuple(fields) => row_is_known(reg, fields),
        Type::Sum(variants) => rows_are_known(reg, variants),
        Type::Function { input, output } => row_is_known(reg, input) && row_is_known(reg, output),
    }
}

/// Decides `value_ok`.
#[verifier::loop_isolation(false)]
pub fn value_is_ok(reg: &ExtensionRegistry, v: &Value) -> (r: bool)
    ensures
        r == value_ok(reg.names@, *v),
    decreases v,
{
    match v {
        Value::UnitSum { tag, arity } => *tag < *arity,
        Value::Tuple(vs) => {
            let mut i: usize = 0;
            while i < vs.len()
                invariant
                    i <= vs.len(),
                    values_ok_from(reg.names@, *vs, 0) == values_ok_from(reg.names@, *vs, i as nat),
                decreases vs.len() - i,
            {
                if !value_is_ok(reg, &vs[i]) {
                    return false;
                }
                i += 1;
            }
            true
        },
        Value::Extension(c) => reg.contains(&c.extension) && reg.contains(&c.ty.extension),
    }
}

/// Whether the hierarchy is a tree in which every child comes after its
/// parent and knows it, and no node lists a child twice.
pub fn check_tree(h: &Hugr) -> (r: bool)
    ensures
        r == tree(*h),
{
    let n = h.nodes.len();
    let mut x: usize = 0;
    while x < n
        invariant
            x <= n,
            n == h.nodes@.len(),
            forall|y: int, k: int|
                0 <= y < x && 0 <= k < h.nodes[y].children@.len() ==> y < (#[trigger] h.nodes[y].children@[k]) < n
                    && h.nodes[h.nodes[y].children@[k] as int].parent == y,
            forall|y: int, i: nat|
                0 <= y < x && i < h.nodes[y].children@.len() ==> #[trigger] first_listing(h.nodes[y].children@, i),
        decreases n - x,
    {
        let children = &h.nodes[x].children;
        let mut k: usize = 0;
        while k < children.len()
            invariant
                k <= children.len(),
                x < n,
                n == h.nodes@.len(),
                *children == h.nodes[x as int].children,
                forall|j: int|
                    0 <= j < k ==> x < (#[trigger] h.nodes[x as int].children@[j]) < n
                        && h.nodes[h.nodes[x as int].children@[j] as int].parent == x,
                forall|i: nat| i < k ==> #[trigger] first_listing(h.nodes[x as int].children@, i),
            decreases children.len() - k,
        {
            let c = children[k];
            if !(x < c && c < n) {
                assert(h.nodes[x as int].children@[k as int] == c);
                return false;
            }
            if h.nodes[c].parent != x {
                assert(h.nodes[x as int].children@[k as int] == c);
                return false;
            }
            if !is_first_listing(children, k) {
                assert(!first_listing(h.nodes[x as int].children@, k as nat));
                return false;
            }
            k += 1;
        }
        x += 1;
    }
    true
}

/// Whether every wire comes from a node that is marked done, from a port
/// that the node has, of the type that is expected.
fn check_wires(reg: &ExtensionRegistry, h: &Hugr, marked: &Vec<bool>, wires: &Vec<Wire>, expect: &Vec<Type>, Ghost(input): Ghost<usize>, Ghost(done): Ghost<Seq<usize>>) -> (r:
    bool)
    requires
        marks(marked@, input, done),
        marked@.len() == h.nodes@.len(),
    ensures
        r == wires_ok(reg.names@, *h, input, done, wires@, type_row_view(*expect)),
{
    proof {
        lemma_type_row_view(*expect);
    }
    if wires.len() != expect.len() {
        return false;
    }
    if !row_is_known(reg, expect) {
        return false;
    }
    let mut j: usize = 0;
    while j < wires.len()
        invariant
            j <= wires.len(),
            wires.len() == expect.len(),
            marks(marked@, input, done),
            marked@.len() == h.nodes@.len(),
            forall|k: int| 0 <= k < j ==> wire_ok(*h, input, done, #[trigger] wires@[k], type_row_view(*expect)[k]),
        decreases wires.len() - j,
    {
        let w = wires[j];
        if w.node >= marked.len() || !marked[w.node] {
            proof {
                if w.node >= marked.len() {
                    lemma_marks_outside(marked@, input, done, w.node);
                }
                assert(!wire_ok(*h, input, done, wires@[j as int], type_row_view(*expect)[j as int]));
            }
            return false;
        }
        let types = h.nodes[w.node].op.output_types();
        proof {
            lemma_type_row_view(types);
            lemma_type_row_view(*expect);
        }
        if w.port >= types.len() {
            assert(!wire_ok(*h, input, done, wires@[j as int], type_row_view(*expect)[j as int]));
            return false;
        }
        if !types[w.port].same(&expect[j]) {
            assert(!wire_ok(*h, input, done, wires@[j as int], type_row_view(*expect)[j as int]));
            return false;
        }
        j += 1;
    }
    true
}

/// Whether the region that `parent` owns is well formed for inputs of the
/// given types.
#[verifier::loop_isolation(false)]
pub fn check_region(reg: &ExtensionRegistry, h: &Hugr, parent: usize, inputs: &Vec<Type>) -> (r: bool)
    ensures
        r == region_ok(reg.names@, *h, parent, type_row_view(*inputs)),
    decreases h.nodes@.len() - parent, 3nat, 0nat,
{
    let n = h.nodes.len();
    if parent >= n {
        return false;
    }
    let children = &h.nodes[parent].children;
    if children.len() < 2 {
        return false;
    }
    let inp = children[0];
    let out = children[1];
    if inp >= n || out >= n {
        return false;
    }
    let (in_types, out_types) = match (&h.nodes[inp].op, &h.nodes[out].op) {
        (OpType::Input { types: in_types }, OpType::Output { types: out_types }) => (in_types, out_types),
        _ => {
            return false;
        },
    };
    if !type_row_same(in_types, inputs) || !row_is_known(reg, inputs) {
        return false;
    }
    let mut body: Vec<usize> = Vec::new();
    let mut j: usize = 2;
    while j < children.len()
        invariant
            2 <= j <= children.len(),
            body@ == children@.subrange(2, j as int),
        decreases children.len() - j,
    {
        body.push(children[j]);
        assert(body@ =~= children@.subrange(2, j + 1));
        j += 1;
    }
    assert(body@ =~= region_body(*h, parent));
    let order = match compute_schedule(h, inp, &body) {
        None => {
            return false;
        },
        Some(order) => order,
    };
    let mut marked: Vec<bool> = Vec::new();
    let mut i: usize = 0;
    while i < n
        invariant
            i <= n,
            marked@.len() == i,
            forall|k: int| 0 <= k < i ==> #[trigger] marked@[k] == (k == inp),
        decreases n - i,
    {
        marked.push(i == inp);
        i += 1;
    }
    assert(marks(marked@, inp, order@.take(0))) by {
        assert(order@.take(0) =~= Seq::<usize>::empty());
    }
    let mut k: usize = 0;
    while k < order.len()
        invariant
            k <= order.len(),
            marked@.len() == n,
            marks(marked@, inp, order@.take(k as int)),
            forall|j: int|
                0 <= j < k ==> parent < (#[trigger] order@[j]) < n && wires_ok(
                    reg.names@,
                    *h,
                    inp,
                    order@.take(j),
                    h.nodes[order@[j] as int].inputs@,
                    op_inputs(h.nodes[order@[j] as int].op),
                ) && node_ok(reg.names@, *h, order@[j]),
        decreases order.len() - k,
    {
        let c = order[k];
        if !(parent < c && c < n) {
            assert(!nodes_ok(reg.names@, *h, parent, order@)) by {
                assert(order@[k as int] == c);
            }
            return false;
        }
        let expect = h.nodes[c].op.input_types();
        if !check_wires(reg, h, &marked, &h.nodes[c].inputs, &expect, Ghost(inp), Ghost(order@.take(k as int))) {
            assert(!nodes_ok(reg.names@, *h, parent, order@)) by {
                assert(order@[k as int] == c);
            }
            return false;
        }
        if !check_node(reg, h, c) {
            assert(!nodes_ok(reg.names@, *h, parent, order@)) by {
                assert(order@[k as int] == c);
            }
            return false;
        }
        proof {
            lemma_marks_push(marked@, inp, order@.take(k as int), c);
            assert(order@.take(k as int).push(c) =~= order@.take(k + 1));
        }
        marked.set(c, true);
        k += 1;
    }
    assert(order@.take(order@.len() as int) =~= order@);
    check_wires(reg, h, &marked, &h.nodes[out].inputs, out_types, Ghost(inp), Ghost(order@))
}

/// Whether every case of the conditional `c` is well formed.
#[verifier::loop_isolation(false)]
fn check_cases(reg: &ExtensionRegistry, h: &Hugr, c: usize, sum_rows: &Vec<Vec<Type>>, other_inputs: &Vec<Type>, outputs: &Vec<Type>) -> (r:
    bool)
    requires
        c < h.nodes@.len(),
    ensures
        r == cases_ok(
            reg.names@,
            *h,
            c,
            type_rows_view(*sum_rows),
            type_row_view(*other_inputs),
            type_row_view(*outputs),
        ),
    decreases h.nodes@.len() - c, 4nat, 0nat,
{
    let n = h.nodes.len();
    let children = &h.nodes[c].children;
    proof {
        lemma_type_rows_view(*sum_rows);
    }
    let mut i: usize = 0;
    while i < children.len()
        invariant
            i <= children.len(),
            forall|j: int|
                0 <= j < i ==> c < (#[trigger] h.nodes[c as int].children@[j]) < n
                    && h.nodes[h.nodes[c as int].children@[j] as int].op is Case && j < sum_rows@.len() && region_ok(
                    reg.names@,
                    *h,
                    h.nodes[c as int].children@[j],
                    type_rows_view(*sum_rows)[j] + type_row_view(*other_inputs),
                ) && region_yields(*h, h.nodes[c as int].children@[j]) == type_row_view(*outputs),
        decreases children.len() - i,
    {
        let child = children[i];
        assert(h.nodes[c as int].children@[i as int] == child);
        if !(c < child && child < n) || i >= sum_rows.len() {
            return false;
        }
        match &h.nodes[child].op {
            OpType::Case { .. } => {},
            _ => {
                return false;
            },
        }
        let inputs = type_row_concat(&sum_rows[i], other_inputs);
        if !check_region(reg, h, child, &inputs) {
            return false;
        }
        let out = h.nodes[child].children[1];
        match &h.nodes[out].op {
            OpType::Output { types } => {
                if !type_row_same(types, outputs) {
                    return false;
                }
            },
            _ => {
                return false;
            },
        }
        i += 1;
    }
    true
}

/// Whether the node `c` of a region is well formed.
pub fn check_node(reg: &ExtensionRegistry, h: &Hugr, c: usize) -> (r: bool)
    ensures
        r == node_ok(reg.names@, *h, c),
    decreases h.nodes@.len() - c, 6nat, 0nat,
{
    if c >= h.nodes.len() {
        return false;
    }
    let outs = h.nodes[c].op.output_types();
    if !row_is_known(reg, &outs) {
        return false;
    }
    match &h.nodes[c].op {
        OpType::Dfg { signature } => {
            if !check_region(reg, h, c, &signature.input) {
                return false;
            }
            let out = h.nodes[c].children[1];
            match &h.nodes[out].op {
                OpType::Output { types } => type_row_same(types, &signature.output),
                _ => false,
            }
        },
        OpType::Conditional { sum_rows, other_inputs, outputs } => {
            proof {
                lemma_type_rows_view(*sum_rows);
            }
            h.nodes[c].children.len() == sum_rows.len() && check_cases(reg, h, c, sum_rows, other_inputs, outputs)
        },
        OpType::TailLoop { just_inputs, just_outputs, rest } => {
            let inputs = type_row_concat(just_inputs, rest);
            if !check_region(reg, h, c, &inputs) {
                return false;
            }
            let yields = loop_yield_types(just_inputs, just_outputs, rest);
            let out = h.nodes[c].children[1];
            match &h.nodes[out].op {
                OpType::Output { types } => type_row_same(types, &yields),
                _ => false,
            }
        },
        OpType::MakeTuple { .. } => true,
        OpType::UnpackTuple { .. } => true,
        OpType::Tag { tag, variants } => *tag < variants.len(),
        OpType::LoadConstant { value } => value_is_ok(reg, value),
        OpType::Extension(e) => {
            let ins = h.nodes[c].op.input_types();
            reg.contains(&e.extension) && row_is_known(reg, &ins)
        },
        _ => false,
    }
}

impl Hugr {
    /// Validates the graph against the extensions of `reg`: whether it is
    /// a well-formed module that uses no extension but those.
    #[verifier::loop_isolation(false)]
    pub fn validate(&self, reg: &ExtensionRegistry) -> (r: bool)
        ensures
            r == graph_valid(*self, reg.names@),
    {
        if self.nodes.len() == 0 {
            return false;
        }
        match &self.nodes[0].op {
            OpType::Module => {},
            _ => {
                return false;
            },
        }
        if !check_tree(self) {
            return false;
        }
        let children = &self.nodes[0].children;
        let mut k: usize = 0;
        while k < children.len()
            invariant
                k <= children.len(),
                forall|j: int|
                    0 <= j < k ==> (self.nodes[(#[trigger] self.nodes[0].children@[j]) as int].op matches OpType::FuncDefn {
                        name,
                        signature,
                    } && region_ok(reg.names@, *self, self.nodes[0].children@[j], type_row_view(signature.input))
                        && region_yields(*self, self.nodes[0].children@[j]) == type_row_view(signature.output)
                        && row_known(reg.names@, type_row_view(signature.output), 0)),
            decreases children.len() - k,
        {
            let f = children[k];
            assert(self.nodes[0].children@[k as int] == f);
            match &self.nodes[f].op {
                OpType::FuncDefn { name, signature } => {
                    if !check_region(reg, self, f, &signature.input) {
                        return false;
                    }
                    let out = self.nodes[f].children[1];
                    match &self.nodes[out].op {
                        OpType::Output { types } => {
                            if !type_row_same(types, &signature.output) || !row_is_known(reg, &signature.output) {
                                return false;
                            }
                        },
                        _ => {
                            return false;
                        },
                    }
                },
                _ => {
                    return false;
                },
            }
            k += 1;
        }
        true
    }

    /// Whether the graph is a well-formed module that uses no extension.
    /// Where the answer is `true`, emission succeeds under every
    /// registry.
    pub fn is_well_formed(&self) -> (r: bool)
        ensures
            r == graph_ok(*self),
    {
        let none = ExtensionRegistry::new();
        assert(none.names@ =~= no_extensions());
        self.validate(&none)
    }
}

} // verus!

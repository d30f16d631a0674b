//! Building graphs: a module builder, and a builder for the dataflow
//! graph of a function with its nested containers.
use vstd::prelude::*;
use crate::types::Type;
use crate::types::TypeView;
use crate::types::FunctionType;
use crate::types::type_row_view;
use crate::types::type_row_duplicate;
use crate::types::type_row_push;
use crate::types::type_row_concat;
use crate::ops::loop_yields;
use crate::ops::loop_yield_types;
use crate::types::lemma_type_row_view;
use crate::ops::OpType;
use crate::ops::Value;
use crate::ops::op_outputs;
use crate::hugr::Hugr;
use crate::hugr::NodeData;
use crate::hugr::Wire;
use crate::wellformed::graph_valid;

verus! {

/// Why a graph could not be built.
#[derive(Debug, Clone, Copy, PartialEq, Eq, Structural)]
pub enum BuildError {
    /// No container is open.
    Closed,
    /// The open container is not of the kind that the call needs.
    WrongContainer,
    /// The case is not the next case of the open conditional.
    BadCase,
    /// A wire names no output port of the graph.
    BadWire,
    /// A container is still open.
    Unfinished,
    /// An operation or constant belongs to an extension that is not
    /// registered.
    UnknownExtension,
    /// The graph does not pass validation.
    Invalid,
}

/// The names of the extensions that a graph may use.
#[derive(Debug, PartialEq, Eq)]
pub struct ExtensionRegistry {
    pub names: Vec<String>,
}

/// Whether one of `names` is `name`.
pub open spec fn has_name(names: Seq<String>, name: Seq<char>) -> bool {
    exists|i: int| 0 <= i < names.len() && (#[trigger] names[i])@ == name
}

impl ExtensionRegistry {
    /// The registry without extensions.
    pub fn new() -> (r: ExtensionRegistry)
        ensures
            r.names@.len() == 0,
    {
        ExtensionRegistry { names: Vec::new() }
    }

    /// Adds an extension.
    pub fn register(&mut self, name: String)
        ensures
            final(self).names@ == old(self).names@.push(name),
    {
        self.names.push(name);
    }

    /// Whether the extension `name` is registered.
    pub fn contains(&self, name: &String) -> (r: bool)
        ensures
            r == has_name(self.names@, name@),
    {
        let mut i: usize = 0;
        while i < self.names.len()
            invariant
                i <= self.names.len(),
                forall|k: int| 0 <= k < i ==> (#[trigger] self.names@[k])@ != name@,
            decreases self.names.len() - i,
        {
            if self.names[i] == *name {
                return true;
            }
            i += 1;
        }
        false
    }

    /// A copy with the same names.
    pub fn duplicate(&self) -> (r: ExtensionRegistry)
        ensures
            r.names@ == self.names@,
    {
        let mut names: Vec<String> = Vec::new();
        let mut i: usize = 0;
        while i < self.names.len()
            invariant
                i <= self.names.len(),
                names@ == self.names@.take(i as int),
            decreases self.names.len() - i,
        {
            names.push(self.names[i].clone());
            assert(names@ =~= self.names@.take(i + 1));
            i += 1;
        }
        assert(names@ =~= self.names@);
        ExtensionRegistry { names }
    }
}

/// Whether `d` is the node with these parts.
pub open spec fn is_node(d: NodeData, parent: usize, children: Seq<usize>, inputs: Seq<Wire>) -> bool {
    d.parent == parent && d.children@ == children && d.inputs@ == inputs
}

/// Whether `new` is `old` with `k` nodes more, the first of which has
/// become the last child of `parent`, and nothing else changed.
pub open spec fn grown(old: Seq<NodeData>, new: Seq<NodeData>, parent: int, k: nat) -> bool {
    &&& 0 <= parent < old.len()
    &&& new.len() == old.len() + k
    &&& forall|i: int| 0 <= i < old.len() && i != parent ==> #[trigger] new[i] == old[i]
    &&& new[parent].op == old[parent].op
    &&& new[parent].parent == old[parent].parent
    &&& new[parent].inputs == old[parent].inputs
    &&& new[parent].children@ == old[parent].children@.push(old.len() as usize)
}

/// Whether the node `c` of `nodes` is a dataflow container with its input
/// node `c + 1` and its output node `c + 2`, of the given rows.
pub open spec fn is_container(nodes: Seq<NodeData>, c: int, parent: usize, input: Seq<TypeView>, output: Seq<TypeView>) -> bool {
    &&& 0 <= c && c + 2 < nodes.len()
    &&& nodes[c].parent == parent
    &&& nodes[c].children@ == seq![(c + 1) as usize, (c + 2) as usize]
    &&& nodes[c + 1].op matches OpType::Input { types }
    &&& type_row_view(types) == input
    &&& is_node(nodes[c + 1], c as usize, Seq::empty(), Seq::empty())
    &&& nodes[c + 2].op matches OpType::Output { types: out_types }
    &&& type_row_view(out_types) == output
    &&& is_node(nodes[c + 2], c as usize, Seq::empty(), Seq::empty())
}

/// Whether a wire names an output port of the graph.
pub open spec fn wire_exists(nodes: Seq<NodeData>, w: Wire) -> bool {
    w.node < nodes.len() && w.port < op_outputs(nodes[w.node as int].op).len()
}

/// Whether every wire names an output port of the graph.
pub open spec fn wires_exist(nodes: Seq<NodeData>, wires: Seq<Wire>) -> bool {
    forall|k: int| 0 <= k < wires.len() ==> wire_exists(nodes, #[trigger] wires[k])
}

/// The types that the wires carry.
pub open spec fn wire_types(nodes: Seq<NodeData>, wires: Seq<Wire>) -> Seq<TypeView> {
    Seq::new(wires.len(), |k: int| op_outputs(nodes[wires[k].node as int].op)[wires[k].port as int])
}

/// Whether an operation owns a dataflow graph.
pub open spec fn owns_dataflow(op: OpType) -> bool {
    op is FuncDefn || op is Dfg || op is Case || op is TailLoop
}

/// The wires of the `count` output ports of `node`.
pub open spec fn ports(node: usize, count: nat) -> Seq<Wire> {
    Seq::new(count, |p: int| Wire { node, port: p as usize })
}

/// The wires of the `count` output ports of `node`.
pub fn port_wires(node: usize, count: usize) -> (r: Vec<Wire>)
    ensures
        r@ == ports(node, count as nat),
{
    let mut out: Vec<Wire> = Vec::new();
    let mut p: usize = 0;
    while p < count
        invariant
            p <= count,
            out@ == ports(node, p as nat),
        decreases count - p,
    {
        out.push(Wire { node, port: p });
        assert(out@ =~= ports(node, (p + 1) as nat));
        p += 1;
    }
    out
}

/// Builds a module.
pub struct ModuleBuilder {
    pub hugr: Hugr,
}

/// Builds the dataflow graph of a function. The containers that are open
/// are kept innermost last; nodes are added to the innermost.
pub struct DfgBuilder {
    pub hugr: Hugr,
    pub open: Vec<usize>,
}

impl ModuleBuilder {
    /// A builder of a module without functions.
    pub fn new() -> (r: ModuleBuilder)
        ensures
            r.hugr.nodes@.len() == 1,
            r.hugr.nodes[0].op == OpType::Module,
            is_node(r.hugr.nodes[0], 0, Seq::empty(), Seq::empty()),
    {
        ModuleBuilder { hugr: Hugr::new() }
    }

    /// Starts the definition of a function: adds the definition with its
    /// input and output node to the module, and opens it.
    pub fn define_function(self, name: String, signature: FunctionType) -> (r: DfgBuilder)
        requires
            self.hugr.nodes@.len() >= 1,
            self.hugr.nodes@.len() + 3 <= usize::MAX,
        ensures
            r.wf(),
            r.open@ == seq![self.hugr.nodes@.len() as usize],
            grown(self.hugr.nodes@, r.hugr.nodes@, 0, 3),
            r.hugr.nodes[self.hugr.nodes@.len() as int].op == (OpType::FuncDefn { name, signature }),
            r.hugr.nodes[self.hugr.nodes@.len() as int].inputs@ == Seq::<Wire>::empty(),
            is_container(
                r.hugr.nodes@,
                self.hugr.nodes@.len() as int,
                0,
                type_row_view(signature.input),
                type_row_view(signature.output),
            ),
    {
        let mut b = DfgBuilder { hugr: self.hugr, open: Vec::new() };
        let input = type_row_duplicate(&signature.input);
        let output = type_row_duplicate(&signature.output);
        b.add_container(0, OpType::FuncDefn { name, signature }, Vec::new(), input, output);
        b
    }
}

impl DfgBuilder {
    /// Whether the open containers are nodes, and each one that owns a
    /// dataflow graph has its input and output node.
    pub open spec fn wf(&self) -> bool {
        &&& self.hugr.nodes@.len() >= 1
        &&& forall|i: int| 0 <= i < self.open@.len() ==> self.opened(#[trigger] self.open@[i])
    }

    /// Whether `c` can stand among the open containers.
    pub open spec fn opened(&self, c: usize) -> bool {
        &&& c < self.hugr.nodes@.len()
        &&& owns_dataflow(self.hugr.nodes[c as int].op) ==> {
            &&& self.hugr.nodes[c as int].children@.len() >= 2
            &&& self.hugr.nodes[c as int].children@[0] < self.hugr.nodes@.len()
            &&& self.hugr.nodes[c as int].children@[1] < self.hugr.nodes@.len()
        }
    }

    /// Why nothing can be added to a dataflow graph: no container is
    /// open, or the innermost is a conditional. `None` where a dataflow
    /// graph is open.
    pub open spec fn dataflow_error(&self) -> Option<BuildError> {
        if self.open@.len() == 0 {
            Some(BuildError::Closed)
        } else if !owns_dataflow(self.hugr.nodes[self.open@.last() as int].op) {
            Some(BuildError::WrongContainer)
        } else {
            None
        }
    }

    /// Why no case can be added or the conditional closed: no container
    /// is open, or the innermost is no conditional. `None` where a
    /// conditional is open.
    pub open spec fn conditional_error(&self) -> Option<BuildError> {
        if self.open@.len() == 0 {
            Some(BuildError::Closed)
        } else if !(self.hugr.nodes[self.open@.last() as int].op is Conditional) {
            Some(BuildError::WrongContainer)
        } else {
            None
        }
    }

    /// Adds a node without children as the last child of `parent`.
    fn add_node(&mut self, parent: usize, op: OpType, inputs: Vec<Wire>) -> (node: usize)
        requires
            old(self).wf(),
            parent < old(self).hugr.nodes@.len(),
        ensures
            final(self).wf(),
            final(self).open == old(self).open,
            node == old(self).hugr.nodes@.len(),
            grown(old(self).hugr.nodes@, final(self).hugr.nodes@, parent as int, 1),
            final(self).hugr.nodes[node as int].op == op,
            is_node(final(self).hugr.nodes[node as int], parent, Seq::empty(), inputs@),
    {
        let node = self.hugr.nodes.len();
        self.hugr.nodes.push(NodeData { op, parent, children: Vec::new(), inputs });
        self.hugr.nodes[parent].children.push(node);
        proof {
            assert forall|i: int| 0 <= i < self.open@.len() implies self.opened(#[trigger] self.open@[i]) by {
                assert(old(self).opened(old(self).open@[i]));
            }
        }
        node
    }

    /// Adds a dataflow container with its input and output node as the
    /// last child of `parent`, and opens it.
    fn add_container(&mut self, parent: usize, op: OpType, inputs: Vec<Wire>, input: Vec<Type>, output: Vec<Type>) -> (node:
        usize)
        requires
            old(self).wf(),
            parent < old(self).hugr.nodes@.len(),
            old(self).hugr.nodes@.len() + 3 <= usize::MAX,
            owns_dataflow(op),
        ensures
            final(self).wf(),
            final(self).open@ == old(self).open@.push(node),
            node == old(self).hugr.nodes@.len(),
            grown(old(self).hugr.nodes@, final(self).hugr.nodes@, parent as int, 3),
            final(self).hugr.nodes[node as int].op == op,
            final(self).hugr.nodes[node as int].inputs@ == inputs@,
            is_container(final(self).hugr.nodes@, node as int, parent, type_row_view(input), type_row_view(output)),
    {
        let node = self.add_node(parent, op, inputs);
        let ghost mid = self.hugr.nodes@;
        let inp = self.add_node(node, OpType::Input { types: input }, Vec::new());
        let out = self.add_node(node, OpType::Output { types: output }, Vec::new());
        self.open.push(node);
        proof {
            assert(self.hugr.nodes[node as int].children@ =~= seq![(node + 1) as usize, (node + 2) as usize]);
            assert forall|i: int| 0 <= i < self.open@.len() implies self.opened(#[trigger] self.open@[i]) by {
                if i < old(self).open@.len() {
                    assert(old(self).opened(old(self).open@[i]));
                }
            }
        }
        node
    }

    /// The innermost open container, if it owns a dataflow graph.
    fn current(&self) -> (r: Result<usize, BuildError>)
        requires
            self.wf(),
        ensures
            match r {
                Ok(c) => self.open@.len() > 0 && c == self.open@.last() && self.opened(c) && owns_dataflow(
                    self.hugr.nodes[c as int].op,
                ) && self.dataflow_error() is None,
                Err(e) => self.dataflow_error() == Some(e),
            },
    {
        if self.open.len() == 0 {
            return Err(BuildError::Closed);
        }
        let c = self.open[self.open.len() - 1];
        assert(self.opened(self.open@[self.open@.len() - 1]));
        match &self.hugr.nodes[c].op {
            OpType::FuncDefn { .. } => Ok(c),
            OpType::Dfg { .. } => Ok(c),
            OpType::Case { .. } => Ok(c),
            OpType::TailLoop { .. } => Ok(c),
            _ => Err(BuildError::WrongContainer),
        }
    }

    /// The wires that carry the inputs of the innermost open container;
    /// none where no dataflow container is open.
    pub fn input_wires(&self) -> (r: Vec<Wire>)
        requires
            self.wf(),
        ensures
            self.open@.len() > 0 && owns_dataflow(self.hugr.nodes[self.open@.last() as int].op) ==> r@ == ports(
                self.hugr.nodes[self.open@.last() as int].children@[0],
                op_outputs(
                    self.hugr.nodes[self.hugr.nodes[self.open@.last() as int].children@[0] as int].op,
                ).len(),
            ),
            !(self.open@.len() > 0 && owns_dataflow(self.hugr.nodes[self.open@.last() as int].op)) ==> r@.len()
                == 0,
    {
        match self.current() {
            Ok(c) => {
                let inp = self.hugr.nodes[c].children[0];
                port_wires(inp, self.hugr.nodes[inp].op.output_count())
            },
            Err(_) => Vec::new(),
        }
    }

    /// Adds a node with the given operation to the innermost open
    /// container, fed by the given wires, and returns the wires of its
    /// outputs.
    pub fn add_dataflow_op(&mut self, op: OpType, inputs: Vec<Wire>) -> (r: Result<Vec<Wire>, BuildError>)
        requires
            old(self).wf(),
            old(self).hugr.nodes@.len() < usize::MAX,
        ensures
            final(self).wf(),
            final(self).open == old(self).open,
            match r {
                Ok(wires) => {
                    &&& old(self).open@.len() > 0
                    &&& owns_dataflow(old(self).hugr.nodes[old(self).open@.last() as int].op)
                    &&& grown(old(self).hugr.nodes@, final(self).hugr.nodes@, old(self).open@.last() as int, 1)
                    &&& final(self).hugr.nodes@.last().op == op
                    &&& is_node(final(self).hugr.nodes@.last(), old(self).open@.last(), Seq::empty(), inputs@)
                    &&& wires@ == ports(old(self).hugr.nodes@.len() as usize, op_outputs(op).len())
                },
                Err(e) => final(self).hugr == old(self).hugr && old(self).dataflow_error() == Some(e),
            },
    {
        let c = match self.current() {
            Err(e) => {
                return Err(e);
            },
            Ok(c) => c,
        };
        let count = op.output_count();
        let node = self.add_node(c, op, inputs);
        Ok(port_wires(node, count))
    }

    /// The type of a wire, or `None` where it names no output port.
    pub fn wire_type(&self, w: Wire) -> (r: Option<Type>)
        ensures
            match r {
                Some(t) => w.node < self.hugr.nodes@.len() && w.port < op_outputs(
                    self.hugr.nodes[w.node as int].op,
                ).len() && t@ == op_outputs(self.hugr.nodes[w.node as int].op)[w.port as int],
                None => !(w.node < self.hugr.nodes@.len() && w.port < op_outputs(
                    self.hugr.nodes[w.node as int].op,
                ).len()),
            },
    {
        if w.node >= self.hugr.nodes.len() {
            return None;
        }
        let types = self.hugr.nodes[w.node].op.output_types();
        proof {
            lemma_type_row_view(types);
        }
        if w.port >= types.len() {
            return None;
        }
        Some(types[w.port].duplicate())
    }

    /// Adds a make-tuple node over the given wires, and returns the wire
    /// of the tuple. The fields of the tuple have the types of the wires.
    #[verifier::loop_isolation(false)]
    pub fn make_tuple(&mut self, wires: Vec<Wire>) -> (r: Result<Wire, BuildError>)
        requires
            old(self).wf(),
            old(self).hugr.nodes@.len() < usize::MAX,
        ensures
            final(self).wf(),
            final(self).open == old(self).open,
            match r {
                Ok(wire) => {
                    &&& wire == (Wire { node: old(self).hugr.nodes@.len() as usize, port: 0 })
                    &&& old(self).open@.len() > 0
                    &&& wires_exist(old(self).hugr.nodes@, wires@)
                    &&& grown(old(self).hugr.nodes@, final(self).hugr.nodes@, old(self).open@.last() as int, 1)
                    &&& final(self).hugr.nodes@.last().op matches OpType::MakeTuple { tys }
                    &&& type_row_view(tys) == wire_types(old(self).hugr.nodes@, wires@)
                    &&& is_node(final(self).hugr.nodes@.last(), old(self).open@.last(), Seq::empty(), wires@)
                },
                Err(e) => {
                    &&& final(self).hugr == old(self).hugr
                    &&& if !wires_exist(old(self).hugr.nodes@, wires@) {
                        e == BuildError::BadWire
                    } else {
                        old(self).dataflow_error() == Some(e)
                    }
                },
            },
    {
        let mut tys: Vec<Type> = Vec::new();
        let mut i: usize = 0;
        proof {
            lemma_type_row_view(tys);
            assert(type_row_view(tys) =~= wire_types(self.hugr.nodes@, wires@).take(0));
        }
        while i < wires.len()
            invariant
                i <= wires.len(),
                forall|k: int| 0 <= k < i ==> wire_exists(self.hugr.nodes@, #[trigger] wires@[k]),
                type_row_view(tys) == wire_types(self.hugr.nodes@, wires@).take(i as int),
            decreases wires.len() - i,
        {
            match self.wire_type(wires[i]) {
                None => {
                    assert(!wire_exists(self.hugr.nodes@, wires@[i as int]));
                    return Err(BuildError::BadWire);
                },
                Some(t) => {
                    type_row_push(&mut tys, t);
                    assert(type_row_view(tys) =~= wire_types(self.hugr.nodes@, wires@).take(i + 1));
                },
            }
            i += 1;
        }
        assert(wire_types(self.hugr.nodes@, wires@).take(wires@.len() as int) =~= wire_types(
            self.hugr.nodes@,
            wires@,
        ));
        match self.add_dataflow_op(OpType::MakeTuple { tys }, wires) {
            Err(e) => Err(e),
            Ok(outs) => Ok(Wire { node: outs[0].node, port: 0 }),
        }
    }

    /// Adds a node that loads the given constant, and returns its wire.
    pub fn add_load_value(&mut self, value: Value) -> (r: Result<Wire, BuildError>)
        requires
            old(self).wf(),
            old(self).hugr.nodes@.len() < usize::MAX,
        ensures
            final(self).wf(),
            final(self).open == old(self).open,
            match r {
                Ok(wire) => {
                    &&& wire == (Wire { node: old(self).hugr.nodes@.len() as usize, port: 0 })
                    &&& old(self).open@.len() > 0
                    &&& grown(old(self).hugr.nodes@, final(self).hugr.nodes@, old(self).open@.last() as int, 1)
                    &&& final(self).hugr.nodes@.last().op == (OpType::LoadConstant { value })
                    &&& is_node(final(self).hugr.nodes@.last(), old(self).open@.last(), Seq::empty(), Seq::empty())
                },
                Err(e) => final(self).hugr == old(self).hugr && old(self).dataflow_error() == Some(e),
            },
    {
        match self.add_dataflow_op(OpType::LoadConstant { value }, Vec::new()) {
            Err(e) => Err(e),
            Ok(outs) => Ok(Wire { node: outs[0].node, port: 0 }),
        }
    }

    /// Opens a nested dataflow graph of the given signature, fed by the
    /// given wires, in the innermost open container.
    pub fn dfg_builder(&mut self, signature: FunctionType, inputs: Vec<Wire>) -> (r: Result<(), BuildError>)
        requires
            old(self).wf(),
            old(self).hugr.nodes@.len() + 3 <= usize::MAX,
        ensures
            final(self).wf(),
            match r {
                Ok(()) => {
                    &&& old(self).open@.len() > 0
                    &&& final(self).open@ == old(self).open@.push(old(self).hugr.nodes@.len() as usize)
                    &&& grown(old(self).hugr.nodes@, final(self).hugr.nodes@, old(self).open@.last() as int, 3)
                    &&& final(self).hugr.nodes[old(self).hugr.nodes@.len() as int].op == (OpType::Dfg { signature })
                    &&& final(self).hugr.nodes[old(self).hugr.nodes@.len() as int].inputs@ == inputs@
                    &&& is_container(
                        final(self).hugr.nodes@,
                        old(self).hugr.nodes@.len() as int,
                        old(self).open@.last(),
                        type_row_view(signature.input),
                        type_row_view(signature.output),
                    )
                },
                Err(e) => final(self).hugr == old(self).hugr && final(self).open == old(self).open
                    && old(self).dataflow_error() == Some(e),
            },
    {
        let c = match self.current() {
            Err(e) => {
                return Err(e);
            },
            Ok(c) => c,
        };
        let input = type_row_duplicate(&signature.input);
        let output = type_row_duplicate(&signature.output);
        self.add_container(c, OpType::Dfg { signature }, inputs, input, output);
        Ok(())
    }

    /// Opens a loop in the innermost open container. `just_wires` carry
    /// the values of the types `just_inputs` that only the first round
    /// gets from outside, `rest_wires` those of the types `rest` that are
    /// carried on and out. The loop is closed with `finish_with_outputs`,
    /// whose first wire carries the sum of the values for the next round
    /// and of the values `just_outputs` that end the loop.
    pub fn tail_loop_builder(
        &mut self,
        just_inputs: Vec<Type>,
        just_wires: Vec<Wire>,
        rest: Vec<Type>,
        rest_wires: Vec<Wire>,
        just_outputs: Vec<Type>,
    ) -> (r: Result<(), BuildError>)
        requires
            old(self).wf(),
            old(self).hugr.nodes@.len() + 3 <= usize::MAX,
        ensures
            final(self).wf(),
            match r {
                Ok(()) => {
                    &&& old(self).open@.len() > 0
                    &&& final(self).open@ == old(self).open@.push(old(self).hugr.nodes@.len() as usize)
                    &&& grown(old(self).hugr.nodes@, final(self).hugr.nodes@, old(self).open@.last() as int, 3)
                    &&& final(self).hugr.nodes[old(self).hugr.nodes@.len() as int].op == (OpType::TailLoop {
                        just_inputs,
                        just_outputs,
                        rest,
                    })
                    &&& final(self).hugr.nodes[old(self).hugr.nodes@.len() as int].inputs@ == just_wires@
                        + rest_wires@
                    &&& is_container(
                        final(self).hugr.nodes@,
                        old(self).hugr.nodes@.len() as int,
                        old(self).open@.last(),
                        type_row_view(just_inputs) + type_row_view(rest),
                        loop_yields(type_row_view(just_inputs), type_row_view(just_outputs), type_row_view(rest)),
                    )
                },
                Err(e) => final(self).hugr == old(self).hugr && final(self).open == old(self).open
                    && old(self).dataflow_error() == Some(e),
            },
    {
        let c = match self.current() {
            Err(e) => {
                return Err(e);
            },
            Ok(c) => c,
        };
        let mut inputs: Vec<Wire> = Vec::new();
        let mut i: usize = 0;
        assert(inputs@ =~= just_wires@.take(0));
        while i < just_wires.len()
            invariant
                i <= just_wires.len(),
                inputs@ == just_wires@.take(i as int),
            decreases just_wires.len() - i,
        {
            inputs.push(just_wires[i]);
            assert(inputs@ =~= just_wires@.take(i + 1));
            i += 1;
        }
        assert(just_wires@.take(just_wires.len() as int) =~= just_wires@);
        let mut i: usize = 0;
        assert(inputs@ =~= just_wires@ + rest_wires@.take(0));
        while i < rest_wires.len()
            invariant
                i <= rest_wires.len(),
                inputs@ == just_wires@ + rest_wires@.take(i as int),
            decreases rest_wires.len() - i,
        {
            inputs.push(rest_wires[i]);
            assert(inputs@ =~= just_wires@ + rest_wires@.take(i + 1));
            i += 1;
        }
        assert(rest_wires@.take(rest_wires.len() as int) =~= rest_wires@);
        let input = type_row_concat(&just_inputs, &rest);
        let output = loop_yield_types(&just_inputs, &just_outputs, &rest);
        self.add_container(c, OpType::TailLoop { just_inputs, just_outputs, rest }, inputs, input, output);
        Ok(())
    }

    /// Opens a conditional in the innermost open container: `sum_input`
    /// carries a sum of the variants `sum_rows`, `other_wires` carry the
    /// other inputs, of the types `other_inputs`.
    pub fn conditional_builder(
        &mut self,
        sum_rows: Vec<Vec<Type>>,
        sum_input: Wire,
        other_inputs: Vec<Type>,
        other_wires: Vec<Wire>,
        outputs: Vec<Type>,
    ) -> (r: Result<(), BuildError>)
        requires
            old(self).wf(),
            old(self).hugr.nodes@.len() < usize::MAX,
        ensures
            final(self).wf(),
            match r {
                Ok(()) => {
                    &&& old(self).open@.len() > 0
                    &&& final(self).open@ == old(self).open@.push(old(self).hugr.nodes@.len() as usize)
                    &&& grown(old(self).hugr.nodes@, final(self).hugr.nodes@, old(self).open@.last() as int, 1)
                    &&& final(self).hugr.nodes@.last().op == (OpType::Conditional {
                        sum_rows,
                        other_inputs,
                        outputs,
                    })
                    &&& is_node(
                        final(self).hugr.nodes@.last(),
                        old(self).open@.last(),
                        Seq::empty(),
                        seq![sum_input] + other_wires@,
                    )
                },
                Err(e) => final(self).hugr == old(self).hugr && final(self).open == old(self).open
                    && old(self).dataflow_error() == Some(e),
            },
    {
        let c = match self.current() {
            Err(e) => {
                return Err(e);
            },
            Ok(c) => c,
        };
        let mut inputs: Vec<Wire> = Vec::new();
        inputs.push(sum_input);
        let mut i: usize = 0;
        while i < other_wires.len()
            invariant
                i <= other_wires.len(),
                inputs@ == seq![sum_input] + other_wires@.take(i as int),
            decreases other_wires.len() - i,
        {
            inputs.push(other_wires[i]);
            assert(inputs@ =~= seq![sum_input] + other_wires@.take(i + 1));
            i += 1;
        }
        assert(inputs@ =~= seq![sum_input] + other_wires@);
        let node = self.add_node(c, OpType::Conditional { sum_rows, other_inputs, outputs }, inputs);
        self.open.push(node);
        proof {
            assert forall|k: int| 0 <= k < self.open@.len() implies self.opened(#[trigger] self.open@[k]) by {
                if k < old(self).open@.len() {
                    assert(old(self).opened(old(self).open@[k]));
                    assert(self.open@[k] == old(self).open@[k]);
                }
            }
        }
        Ok(())
    }

    /// Opens case `i` of the open conditional. Cases are built in the
    /// order of the variants. The inputs of the case are the fields of
    /// variant `i`, then the other inputs of the conditional.
    pub fn case_builder(&mut self, i: usize) -> (r: Result<(), BuildError>)
        requires
            old(self).wf(),
            old(self).hugr.nodes@.len() + 3 <= usize::MAX,
        ensures
            final(self).wf(),
            match r {
                Ok(()) => {
                    &&& old(self).open@.len() > 0
                    &&& old(self).hugr.nodes[old(self).open@.last() as int].op matches OpType::Conditional {
                        sum_rows,
                        other_inputs,
                        outputs,
                    }
                    &&& i < sum_rows@.len()
                    &&& i == old(self).hugr.nodes[old(self).open@.last() as int].children@.len()
                    &&& final(self).open@ == old(self).open@.push(old(self).hugr.nodes@.len() as usize)
                    &&& grown(old(self).hugr.nodes@, final(self).hugr.nodes@, old(self).open@.last() as int, 3)
                    &&& final(self).hugr.nodes[old(self).hugr.nodes@.len() as int].op is Case
                    &&& is_container(
                        final(self).hugr.nodes@,
                        old(self).hugr.nodes@.len() as int,
                        old(self).open@.last(),
                        type_row_view(sum_rows[i as int]) + type_row_view(other_inputs),
                        type_row_view(outputs),
                    )
                },
                Err(e) => {
                    &&& final(self).hugr == old(self).hugr
                    &&& final(self).open == old(self).open
                    &&& match old(self).conditional_error() {
                        Some(why) => e == why,
                        None => e == BuildError::BadCase && !(old(self).hugr.nodes[old(self).open@.last() as int].op matches OpType::Conditional {
                            sum_rows,
                            other_inputs,
                            outputs,
                        } && i < sum_rows@.len() && i == old(self).hugr.nodes[old(self).open@.last() as int].children@.len()),
                    }
                },
            },
    {
        if self.open.len() == 0 {
            return Err(BuildError::Closed);
        }
        let c = self.open[self.open.len() - 1];
        assert(self.opened(self.open@[self.open@.len() - 1]));
        let (input, output) = match &self.hugr.nodes[c].op {
            OpType::Conditional { sum_rows, other_inputs, outputs } => {
                if i >= sum_rows.len() || i != self.hugr.nodes[c].children.len() {
                    return Err(BuildError::BadCase);
                }
                let mut input = type_row_duplicate(&sum_rows[i]);
                let ghost fields = type_row_view(input);
                let mut k: usize = 0;
                proof {
                    lemma_type_row_view(input);
                }
                assert(type_row_view(input) =~= fields + type_row_view(*other_inputs).take(0));
                while k < other_inputs.len()
                    invariant
                        k <= other_inputs.len(),
                        type_row_view(input) == fields + type_row_view(*other_inputs).take(k as int),
                    decreases other_inputs.len() - k,
                {
                    proof {
                        lemma_type_row_view(*other_inputs);
                    }
                    type_row_push(&mut input, other_inputs[k].duplicate());
                    proof {
                        assert(type_row_view(input) =~= fields + type_row_view(*other_inputs).take(k + 1));
                    }
                    k += 1;
                }
                proof {
                    lemma_type_row_view(*other_inputs);
                    assert(type_row_view(*other_inputs).take(other_inputs.len() as int) =~= type_row_view(
                        *other_inputs,
                    ));
                }
                (input, type_row_duplicate(outputs))
            },
            _ => {
                return Err(BuildError::WrongContainer);
            },
        };
        let signature = FunctionType { input: type_row_duplicate(&input), output: type_row_duplicate(&output) };
        self.add_container(c, OpType::Case { signature }, Vec::new(), input, output);
        Ok(())
    }

    /// Closes the innermost open container, a dataflow graph whose
    /// outputs the given wires carry, and returns the wires of the
    /// container's own outputs.
    pub fn finish_with_outputs(&mut self, outputs: Vec<Wire>) -> (r: Result<Vec<Wire>, BuildError>)
        requires
            old(self).wf(),
        ensures
            final(self).wf(),
            match r {
                Ok(wires) => {
                    &&& old(self).open@.len() > 0
                    &&& owns_dataflow(old(self).hugr.nodes[old(self).open@.last() as int].op)
                    &&& final(self).open@ == old(self).open@.drop_last()
                    &&& final(self).hugr.nodes@.len() == old(self).hugr.nodes@.len()
                    &&& wires@ == ports(
                        old(self).open@.last(),
                        op_outputs(old(self).hugr.nodes[old(self).open@.last() as int].op).len(),
                    )
                    &&& final(self).hugr.nodes[old(self).hugr.nodes[old(self).open@.last() as int].children@[1] as int].inputs@
                        == outputs@
                    &&& forall|k: int|
                        0 <= k < old(self).hugr.nodes@.len() && k != old(self).hugr.nodes[old(self).open@.last() as int].children@[1]
                            ==> #[trigger] final(self).hugr.nodes[k] == old(self).hugr.nodes[k]
                },
                Err(e) => final(self).hugr == old(self).hugr && final(self).open == old(self).open
                    && old(self).dataflow_error() == Some(e),
            },
    {
        let c = match self.current() {
            Err(e) => {
                return Err(e);
            },
            Ok(c) => c,
        };
        let out = self.hugr.nodes[c].children[1];
        let count = self.hugr.nodes[c].op.output_count();
        self.hugr.nodes[out].inputs = outputs;
        self.open.pop();
        proof {
            assert forall|k: int| 0 <= k < self.open@.len() implies self.opened(#[trigger] self.open@[k]) by {
                assert(old(self).opened(old(self).open@[k]));
            }
        }
        Ok(port_wires(c, count))
    }

    /// Closes the open conditional, and returns the wires of its outputs.
    pub fn finish_sub_container(&mut self) -> (r: Result<Vec<Wire>, BuildError>)
        requires
            old(self).wf(),
        ensures
            final(self).wf(),
            final(self).hugr == old(self).hugr,
            match r {
                Ok(wires) => {
                    &&& old(self).open@.len() > 0
                    &&& old(self).hugr.nodes[old(self).open@.last() as int].op is Conditional
                    &&& final(self).open@ == old(self).open@.drop_last()
                    &&& wires@ == ports(
                        old(self).open@.last(),
                        op_outputs(old(self).hugr.nodes[old(self).open@.last() as int].op).len(),
                    )
                },
                Err(e) => final(self).open == old(self).open && old(self).conditional_error() == Some(e),
            },
    {
        if self.open.len() == 0 {
            return Err(BuildError::Closed);
        }
        let c = self.open[self.open.len() - 1];
        assert(self.opened(self.open@[self.open@.len() - 1]));
        match &self.hugr.nodes[c].op {
            OpType::Conditional { .. } => {},
            _ => {
                return Err(BuildError::WrongContainer);
            },
        }
        let count = self.hugr.nodes[c].op.output_count();
        self.open.pop();
        proof {
            assert forall|k: int| 0 <= k < self.open@.len() implies self.opened(#[trigger] self.open@[k]) by {
                assert(old(self).opened(old(self).open@[k]));
            }
        }
        Ok(port_wires(c, count))
    }

    /// Whether every operation and constant of an extension belongs to an
    /// extension of `reg`.
    pub open spec fn extensions_known(&self, reg: ExtensionRegistry) -> bool {
        forall|k: int| 0 <= k < self.hugr.nodes@.len() ==> op_known(reg, (#[trigger] self.hugr.nodes[k]).op)
    }

    /// Ends the building, and validates what was built against the
    /// extensions of `reg`: the graph, if every container is closed, every
    /// extension that the graph names is registered, and the graph is a
    /// well-formed module.
    #[verifier::loop_isolation(false)]
    pub fn finish_hugr(self, reg: &ExtensionRegistry) -> (r: Result<Hugr, BuildError>)
        ensures
            match r {
                Ok(h) => h == self.hugr && self.open@.len() == 0 && self.extensions_known(*reg) && graph_valid(
                    self.hugr,
                    reg.names@,
                ),
                Err(e) => if self.open@.len() > 0 {
                    e == BuildError::Unfinished
                } else if !self.extensions_known(*reg) {
                    e == BuildError::UnknownExtension
                } else {
                    e == BuildError::Invalid && !graph_valid(self.hugr, reg.names@)
                },
            },
    {
        if self.open.len() > 0 {
            return Err(BuildError::Unfinished);
        }
        let mut k: usize = 0;
        while k < self.hugr.nodes.len()
            invariant
                k <= self.hugr.nodes@.len(),
                forall|j: int| 0 <= j < k ==> op_known(*reg, (#[trigger] self.hugr.nodes[j]).op),
            decreases self.hugr.nodes.len() - k,
        {
            if !check_op_known(reg, &self.hugr.nodes[k].op) {
                assert(!op_known(*reg, self.hugr.nodes[k as int].op));
                return Err(BuildError::UnknownExtension);
            }
            k += 1;
        }
        if !self.hugr.validate(reg) {
            return Err(BuildError::Invalid);
        }
        Ok(self.hugr)
    }
}

/// Whether every extension that the literals from position `i` on name is
/// registered.
pub open spec fn values_known_from(reg: ExtensionRegistry, vs: Vec<Value>, i: nat) -> bool
    decreases vs, vs.len() - i,
{
    if i >= vs.len() {
        true
    } else {
        value_known(reg, vs[i as int]) && values_known_from(reg, vs, i + 1)
    }
}

/// Whether every extension that a literal names is registered.
pub open spec fn value_known(reg: ExtensionRegistry, v: Value) -> bool
    decreases v, 0nat,
{
    match v {
        Value::UnitSum { .. } => true,
        Value::Tuple(vs) => values_known_from(reg, vs, 0),
        Value::Extension(c) => has_name(reg.names@, c.extension@),
    }
}

/// Whether the extension that an operation names, if any, is registered.
pub open spec fn op_known(reg: ExtensionRegistry, op: OpType) -> bool {
    match op {
        OpType::Extension(e) => has_name(reg.names@, e.extension@),
        OpType::LoadConstant { value } => value_known(reg, value),
        _ => true,
    }
}

/// Decides `value_known`.
#[verifier::loop_isolation(false)]
pub fn check_value_known(reg: &ExtensionRegistry, v: &Value) -> (r: bool)
    ensures
        r == value_known(*reg, *v),
    decreases v,
{
    match v {
        Value::UnitSum { .. } => true,
        Value::Tuple(vs) => {
            let mut i: usize = 0;
            while i < vs.len()
                invariant
                    i <= vs.len(),
                    values_known_from(*reg, *vs, 0) == values_known_from(*reg, *vs, i as nat),
                decreases vs.len() - i,
            {
                if !check_value_known(reg, &vs[i]) {
                    return false;
                }
                i += 1;
            }
            true
        },
        Value::Extension(c) => reg.contains(&c.extension),
    }
}

/// Decides `op_known`.
pub fn check_op_known(reg: &ExtensionRegistry, op: &OpType) -> (r: bool)
    ensures
        r == op_known(*reg, *op),
{
    match op {
        OpType::Extension(e) => reg.contains(&e.extension),
        OpType::LoadConstant { value } => check_value_known(reg, value),
        _ => true,
    }
}

} // verus!

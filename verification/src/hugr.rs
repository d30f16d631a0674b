//! The graph: an index-addressed table of nodes. Node 0 is the root; every
//! other node is owned by a parent, and the children of a node are kept in
//! a fixed order.
use vstd::prelude::*;
use crate::ops::OpType;

verus! {

/// A typed edge named by where it starts: an output port of a node.
#[derive(Debug, Clone, Copy, PartialEq, Eq, Structural)]
pub struct Wire {
    pub node: usize,
    pub port: usize,
}

/// A node: its operation, its place in the hierarchy, and the wire that
/// feeds each of its input ports.
#[derive(Debug, PartialEq, Eq)]
pub struct NodeData {
    pub op: OpType,
    pub parent: usize,
    pub children: Vec<usize>,
    pub inputs: Vec<Wire>,
}

/// A graph-IR program.
#[derive(Debug, PartialEq, Eq)]
pub struct Hugr {
    pub nodes: Vec<NodeData>,
}

impl Hugr {
    /// The graph that holds a module root and nothing else.
    pub fn new() -> (r: Hugr)
        ensures
            r.nodes@.len() == 1,
            r.nodes[0].op == OpType::Module,
            r.nodes[0].parent == 0,
            r.nodes[0].children@ == Seq::<usize>::empty(),
            r.nodes[0].inputs@ == Seq::<Wire>::empty(),
    {
        let mut nodes: Vec<NodeData> = Vec::new();
        nodes.push(NodeData { op: OpType::Module, parent: 0, children: Vec::new(), inputs: Vec::new() });
        Hugr { nodes }
    }

    /// The number of nodes.
    pub fn node_count(&self) -> (r: usize)
        ensures
            r == self.nodes@.len(),
    {
        self.nodes.len()
    }

    /// The operation of a node.
    pub fn get_optype(&self, node: usize) -> (r: &OpType)
        requires
            node < self.nodes@.len(),
        ensures
            *r == self.nodes[node as int].op,
    {
        &self.nodes[node].op
    }

    /// The children of a node, in their fixed order.
    pub fn children(&self, node: usize) -> (r: &Vec<usize>)
        requires
            node < self.nodes@.len(),
        ensures
            *r == self.nodes[node as int].children,
    {
        &self.nodes[node].children
    }

    /// The wires that feed the input ports of a node.
    pub fn inputs(&self, node: usize) -> (r: &Vec<Wire>)
        requires
            node < self.nodes@.len(),
        ensures
            *r == self.nodes[node as int].inputs,
    {
        &self.nodes[node].inputs
    }
}

} // verus!


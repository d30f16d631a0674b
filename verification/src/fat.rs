//! Typed node handles: a node together with the kind of operation that it
//! is known to have, checked once when the handle is made.
use vstd::prelude::*;
use crate::ops::OpType;
use crate::hugr::Hugr;

verus! {

/// The kind of an operation.
#[derive(Debug, Clone, Copy, PartialEq, Eq, Structural)]
pub enum OpTag {
    Module,
    FuncDefn,
    Input,
    Output,
    Dfg,
    Conditional,
    Case,
    TailLoop,
    LoadConstant,
    MakeTuple,
    UnpackTuple,
    Tag,
    Extension,
}

/// The kind of an operation.
pub open spec fn tag_of(op: OpType) -> OpTag {
    match op {
        OpType::Module => OpTag::Module,
        OpType::FuncDefn { .. } => OpTag::FuncDefn,
        OpType::Input { .. } => OpTag::Input,
        OpType::Output { .. } => OpTag::Output,
        OpType::Dfg { .. } => OpTag::Dfg,
        OpType::Conditional { .. } => OpTag::Conditional,
        OpType::Case { .. } => OpTag::Case,
        OpType::TailLoop { .. } => OpTag::TailLoop,
        OpType::LoadConstant { .. } => OpTag::LoadConstant,
        OpType::MakeTuple { .. } => OpTag::MakeTuple,
        OpType::UnpackTuple { .. } => OpTag::UnpackTuple,
        OpType::Tag { .. } => OpTag::Tag,
        OpType::Extension(_) => OpTag::Extension,
    }
}

impl OpType {
    /// The kind of the operation.
    pub fn tag(&self) -> (r: OpTag)
        ensures
            r == tag_of(*self),
    {
        match self {
            OpType::Module => OpTag::Module,
            OpType::FuncDefn { .. } => OpTag::FuncDefn,
            OpType::Input { .. } => OpTag::Input,
            OpType::Output { .. } => OpTag::Output,
            OpType::Dfg { .. } => OpTag::Dfg,
            OpType::Conditional { .. } => OpTag::Conditional,
            OpType::Case { .. } => OpTag::Case,
            OpType::TailLoop { .. } => OpTag::TailLoop,
            OpType::LoadConstant { .. } => OpTag::LoadConstant,
            OpType::MakeTuple { .. } => OpTag::MakeTuple,
            OpType::UnpackTuple { .. } => OpTag::UnpackTuple,
            OpType::Tag { .. } => OpTag::Tag,
            OpType::Extension(_) => OpTag::Extension,
        }
    }
}

/// A node of a graph whose operation is known to be of one kind. The
/// handle borrows the graph.
pub struct FatNode<'a> {
    hugr: &'a Hugr,
    node: usize,
    kind: OpTag,
}

impl<'a> FatNode<'a> {
    /// The graph.
    pub closed spec fn graph(&self) -> Hugr {
        *self.hugr
    }

    /// The index of the node.
    pub closed spec fn index(&self) -> usize {
        self.node
    }

    /// The kind that the node's operation is known to have.
    pub closed spec fn expected(&self) -> OpTag {
        self.kind
    }

    #[verifier::type_invariant]
    spec fn checked(&self) -> bool {
        self.node < self.hugr.nodes@.len() && tag_of(self.hugr.nodes[self.node as int].op) == self.kind
    }

    /// The handle of `node`, if it is a node of `hugr` and its operation
    /// is of the kind `kind`.
    pub fn try_new(hugr: &'a Hugr, node: usize, kind: OpTag) -> (r: Option<FatNode<'a>>)
        ensures
            match r {
                Some(fat) => {
                    &&& fat.graph() == *hugr
                    &&& fat.index() == node
                    &&& fat.expected() == kind
                    &&& node < hugr.nodes@.len()
                    &&& tag_of(hugr.nodes[node as int].op) == kind
                },
                None => !(node < hugr.nodes@.len() && tag_of(hugr.nodes[node as int].op) == kind),
            },
    {
        if node < hugr.nodes.len() && hugr.nodes[node].op.tag() == kind {
            Some(FatNode { hugr, node, kind })
        } else {
            None
        }
    }

    /// The index of the node.
    pub fn node(&self) -> (r: usize)
        ensures
            r == self.index(),
            r < self.graph().nodes@.len(),
    {
        proof {
            use_type_invariant(self);
        }
        self.node
    }

    /// The graph.
    pub fn hugr(&self) -> (r: &'a Hugr)
        ensures
            *r == self.graph(),
    {
        self.hugr
    }

    /// The operation of the node, which is of the expected kind.
    pub fn op(&self) -> (r: &'a OpType)
        ensures
            self.index() < self.graph().nodes@.len(),
            *r == self.graph().nodes[self.index() as int].op,
            tag_of(*r) == self.expected(),
    {
        proof {
            use_type_invariant(self);
        }
        &self.hugr.nodes[self.node].op
    }

    /// The children of the node, in their fixed order.
    pub fn children(&self) -> (r: &'a Vec<usize>)
        ensures
            self.index() < self.graph().nodes@.len(),
            *r == self.graph().nodes[self.index() as int].children,
    {
        proof {
            use_type_invariant(self);
        }
        &self.hugr.nodes[self.node].children
    }
}

impl Hugr {
    /// The handle of the root, if its operation is of the kind `kind`.
    pub fn fat_root(&self, kind: OpTag) -> (r: Option<FatNode<'_>>)
        ensures
            match r {
                Some(fat) => fat.graph() == *self && fat.index() == 0 && fat.expected() == kind && 0
                    < self.nodes@.len() && tag_of(self.nodes[0].op) == kind,
                None => !(0 < self.nodes@.len() && tag_of(self.nodes[0].op) == kind),
            },
    {
        FatNode::try_new(self, 0, kind)
    }
}

} // verus!

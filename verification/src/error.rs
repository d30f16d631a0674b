//! The errors of emission.
use vstd::prelude::*;

verus! {

/// How a node of the graph contradicts its own operation.
#[derive(Debug, Clone, Copy, PartialEq, Eq, Structural)]
pub enum Malformation {
    /// The node index does not name a node, or a child does not come after
    /// its parent, does not have it as its parent, or is listed twice.
    BadNode,
    /// The node's operation cannot stand where the node is.
    UnexpectedOp,
    /// A dataflow container lacks its input or output node.
    MissingBoundary,
    /// The number of wires differs from the number of ports.
    Arity,
    /// A wire comes from a node that is not of its region, or from a
    /// port that the node does not have.
    BadWire,
    /// A wire carries another type than its port declares, or a region
    /// declares other types than its container.
    TypeMismatch,
    /// The variant index of a tag is not below the number of variants, or
    /// the tag of a constant is not below its arity.
    BadTag,
    /// The number of cases differs from the number of variants.
    CaseCount,
    /// The nodes of a region depend on each other in a cycle.
    Cycle,
    /// An extension's lowering yielded instructions that are not well formed.
    BadLowering,
}

/// Why emission failed.
#[derive(Debug, PartialEq, Eq)]
pub enum EmitError {
    /// No lowering is registered for an extension type, or the registered
    /// one rejects it.
    UnsupportedType { extension: String, name: String },
    /// No lowering is registered for an extension constant, or the
    /// registered one rejects it.
    UnsupportedConstant { extension: String, name: String },
    /// No lowering is registered for an extension operation, or the
    /// registered one rejects it.
    UnsupportedOp { extension: String, name: String },
    /// The graph is malformed at the given node.
    Malformed { node: usize, reason: Malformation },
    /// The emitted module failed structural verification.
    InvalidModule,
}

/// The model of an `EmitError`.
pub enum EmitErrorView {
    UnsupportedType(Seq<char>, Seq<char>),
    UnsupportedConstant(Seq<char>, Seq<char>),
    UnsupportedOp(Seq<char>, Seq<char>),
    Malformed(usize, Malformation),
    InvalidModule,
}

impl View for EmitError {
    type V = EmitErrorView;

    open spec fn view(&self) -> EmitErrorView {
        match self {
            EmitError::UnsupportedType { extension, name } => EmitErrorView::UnsupportedType(
                extension@,
                name@,
            ),
            EmitError::UnsupportedConstant { extension, name } => EmitErrorView::UnsupportedConstant(
                extension@,
                name@,
            ),
            EmitError::UnsupportedOp { extension, name } => EmitErrorView::UnsupportedOp(extension@, name@),
            EmitError::Malformed { node, reason } => EmitErrorView::Malformed(*node, *reason),
            EmitError::InvalidModule => EmitErrorView::InvalidModule,
        }
    }
}

impl EmitError {
    /// The error of a malformed node.
    pub fn malformed(node: usize, reason: Malformation) -> (r: EmitError)
        ensures
            r@ == EmitErrorView::Malformed(node, reason),
    {
        EmitError::Malformed { node, reason }
    }

    /// A copy with the same model.
    pub fn duplicate(&self) -> (r: EmitError)
        ensures
            r@ == self@,
    {
        match self {
            EmitError::UnsupportedType { extension, name } => EmitError::UnsupportedType {
                extension: extension.clone(),
                name: name.clone(),
            },
            EmitError::UnsupportedConstant { extension, name } => EmitError::UnsupportedConstant {
                extension: extension.clone(),
                name: name.clone(),
            },
            EmitError::UnsupportedOp { extension, name } => EmitError::UnsupportedOp {
                extension: extension.clone(),
                name: name.clone(),
            },
            EmitError::Malformed { node, reason } => EmitError::Malformed { node: *node, reason: *reason },
            EmitError::InvalidModule => EmitError::InvalidModule,
        }
    }
}

} // verus!

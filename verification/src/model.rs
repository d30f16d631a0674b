//! The model of a graph: what a graph is apart from how it is stored.
//! Two graphs with one model have the same nodes, the same sibling order
//! and the same wires.
use vstd::prelude::*;
use crate::types::TypeView;
use crate::types::type_row_view;
use crate::types::type_rows_view;
use crate::ops::CustomConstView;
use crate::ops::ExtensionOpView;
use crate::ops::Value;
use crate::ops::OpType;
use crate::hugr::Wire;
use crate::hugr::NodeData;
use crate::hugr::Hugr;

verus! {

/// The model of a `Value`.
pub enum ValueView {
    UnitSum { tag: usize, arity: usize },
    Tuple(Seq<ValueView>),
    Extension(CustomConstView),
}

/// The model of a list of literals.
pub open spec fn values_view(vs: Vec<Value>) -> Seq<ValueView>
    decreases vs, 1int,
{
    Seq::new(vs.len() as nat, |i: int| if 0 <= i < vs.len() { vs[i]@ } else { ValueView::Tuple(Seq::empty()) })
}

impl View for Value {
    type V = ValueView;

    open spec fn view(&self) -> ValueView
        decreases self, 0int,
    {
        match self {
            Value::UnitSum { tag, arity } => ValueView::UnitSum { tag: *tag, arity: *arity },
            Value::Tuple(vs) => ValueView::Tuple(values_view(*vs)),
            Value::Extension(c) => ValueView::Extension(c@),
        }
    }
}

/// The model of an `OpType`.
pub enum OpView {
    Module,
    FuncDefn { name: Seq<char>, input: Seq<TypeView>, output: Seq<TypeView> },
    Input { types: Seq<TypeView> },
    Output { types: Seq<TypeView> },
    Dfg { input: Seq<TypeView>, output: Seq<TypeView> },
    Conditional { sum_rows: Seq<Seq<TypeView>>, other_inputs: Seq<TypeView>, outputs: Seq<TypeView> },
    Case { input: Seq<TypeView>, output: Seq<TypeView> },
    TailLoop { just_inputs: Seq<TypeView>, just_outputs: Seq<TypeView>, rest: Seq<TypeView> },
    LoadConstant { value: ValueView },
    MakeTuple { tys: Seq<TypeView> },
    UnpackTuple { tys: Seq<TypeView> },
    Tag { tag: usize, variants: Seq<Seq<TypeView>> },
    Extension(ExtensionOpView),
}

impl View for OpType {
    type V = OpView;

    open spec fn view(&self) -> OpView {
        match self {
            OpType::Module => OpView::Module,
            OpType::FuncDefn { name, signature } => OpView::FuncDefn {
                name: name@,
                input: type_row_view(signature.input),
                output: type_row_view(signature.output),
            },
            OpType::Input { types } => OpView::Input { types: type_row_view(*types) },
            OpType::Output { types } => OpView::Output { types: type_row_view(*types) },
            OpType::Dfg { signature } => OpView::Dfg {
                input: type_row_view(signature.input),
                output: type_row_view(signature.output),
            },
            OpType::Conditional { sum_rows, other_inputs, outputs } => OpView::Conditional {
                sum_rows: type_rows_view(*sum_rows),
                other_inputs: type_row_view(*other_inputs),
                outputs: type_row_view(*outputs),
            },
            OpType::Case { signature } => OpView::Case {
                input: type_row_view(signature.input),
                output: type_row_view(signature.output),
            },
            OpType::TailLoop { just_inputs, just_outputs, rest } => OpView::TailLoop {
                just_inputs: type_row_view(*just_inputs),
                just_outputs: type_row_view(*just_outputs),
                rest: type_row_view(*rest),
            },
            OpType::LoadConstant { value } => OpView::LoadConstant { value: value@ },
            OpType::MakeTuple { tys } => OpView::MakeTuple { tys: type_row_view(*tys) },
            OpType::UnpackTuple { tys } => OpView::UnpackTuple { tys: type_row_view(*tys) },
            OpType::Tag { tag, variants } => OpView::Tag { tag: *tag, variants: type_rows_view(*variants) },
            OpType::Extension(e) => OpView::Extension(e@),
        }
    }
}

/// The model of a `NodeData`.
pub struct NodeView {
    pub op: OpView,
    pub parent: usize,
    pub children: Seq<usize>,
    pub inputs: Seq<Wire>,
}

impl View for NodeData {
    type V = NodeView;

    open spec fn view(&self) -> NodeView {
        NodeView { op: self.op@, parent: self.parent, children: self.children@, inputs: self.inputs@ }
    }
}

impl View for Hugr {
    type V = Seq<NodeView>;

    open spec fn view(&self) -> Seq<NodeView> {
        Seq::new(self.nodes@.len(), |i: int| self.nodes@[i]@)
    }
}

} // verus!

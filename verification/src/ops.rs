//! Constants and operations of the graph IR.
use vstd::prelude::*;
use crate::types::Type;
use crate::types::TypeView;
use crate::types::TypeArg;
use crate::types::TypeArgView;
use crate::types::CustomType;
use crate::types::CustomTypeView;
use crate::types::FunctionType;
use crate::types::args_view;
use crate::types::type_row_view;
use crate::types::type_rows_view;
use crate::types::type_row_duplicate;
use crate::types::type_rows_duplicate;
use crate::types::type_row_concat;
use crate::types::unit_sum_view;
use crate::types::lemma_type_row_view;
use crate::types::lemma_type_rows_view;

verus! {

/// An opaque constant that an extension defines: its kind, its type and
/// the words that hold its value.
#[derive(Debug, PartialEq, Eq)]
pub struct CustomConst {
    pub extension: String,
    pub name: String,
    pub ty: CustomType,
    pub payload: Vec<u64>,
}

/// The model of a `CustomConst`.
pub struct CustomConstView {
    pub extension: Seq<char>,
    pub name: Seq<char>,
    pub ty: CustomTypeView,
    pub payload: Seq<u64>,
}

impl View for CustomConst {
    type V = CustomConstView;

    open spec fn view(&self) -> CustomConstView {
        CustomConstView { extension: self.extension@, name: self.name@, ty: self.ty@, payload: self.payload@ }
    }
}

/// A closed, typed literal of the graph IR.
#[derive(Debug, PartialEq, Eq)]
pub enum Value {
    /// The variant `tag` of the sum of `arity` variants without fields.
    UnitSum { tag: usize, arity: usize },
    /// A tuple of literals.
    Tuple(Vec<Value>),
    /// A constant of an extension.
    Extension(CustomConst),
}

/// The types of a list of literals.
pub open spec fn values_types(vs: Vec<Value>) -> Seq<TypeView>
    decreases vs, 1int,
{
    Seq::new(
        vs.len() as nat,
        |i: int| if 0 <= i < vs.len() { value_type(vs[i]) } else { TypeView::Tuple(Seq::empty()) },
    )
}

/// The type of a literal, derived from its shape.
pub open spec fn value_type(v: Value) -> TypeView
    decreases v, 0int,
{
    match v {
        Value::UnitSum { tag, arity } => unit_sum_view(arity as nat),
        Value::Tuple(vs) => TypeView::Tuple(values_types(vs)),
        Value::Extension(c) => TypeView::Extension(c.ty@),
    }
}

/// The types of a list of literals.
#[verifier::loop_isolation(false)]
pub fn values_get_types(vs: &Vec<Value>) -> (r: Vec<Type>)
    ensures
        type_row_view(r) == values_types(*vs),
    decreases vs, 1int,
{
    let mut out: Vec<Type> = Vec::new();
    let mut i: usize = 0;
    while i < vs.len()
        invariant
            i <= vs.len(),
            out.len() == i,
            forall|k: int| 0 <= k < i ==> out[k]@ == value_type(vs[k]),
        decreases vs.len() - i,
    {
        out.push(vs[i].get_type());
        i += 1;
    }
    proof {
        lemma_type_row_view(out);
        assert(type_row_view(out) =~= values_types(*vs));
    }
    out
}

impl Value {
    /// The variant `tag` of the sum of `arity` variants without fields, or
    /// `None` where there is no such variant.
    pub fn unit_sum(tag: usize, arity: usize) -> (r: Option<Value>)
        ensures
            tag < arity ==> r == Some(Value::UnitSum { tag, arity }),
            tag >= arity ==> r is None,
    {
        if tag < arity {
            Some(Value::UnitSum { tag, arity })
        } else {
            None
        }
    }

    /// The tuple of the given literals.
    pub fn tuple(values: Vec<Value>) -> (r: Value)
        ensures
            r == Value::Tuple(values),
    {
        Value::Tuple(values)
    }

    /// The type of the literal.
    pub fn get_type(&self) -> (r: Type)
        ensures
            r@ == value_type(*self),
        decreases self, 0int,
    {
        match self {
            Value::UnitSum { tag, arity } => Type::new_unit_sum(*arity),
            Value::Tuple(vs) => Type::Tuple(values_get_types(vs)),
            Value::Extension(c) => Type::Extension(c.ty.duplicate()),
        }
    }
}

/// An operation of an extension, as the graph records it: its name, its
/// arguments and its signature, not its behaviour.
#[derive(Debug, PartialEq, Eq)]
pub struct ExtensionOp {
    pub extension: String,
    pub name: String,
    pub args: Vec<TypeArg>,
    pub signature: FunctionType,
}

/// The model of an `ExtensionOp`.
pub struct ExtensionOpView {
    pub extension: Seq<char>,
    pub name: Seq<char>,
    pub args: Seq<TypeArgView>,
    pub input: Seq<TypeView>,
    pub output: Seq<TypeView>,
}

impl View for ExtensionOp {
    type V = ExtensionOpView;

    open spec fn view(&self) -> ExtensionOpView {
        ExtensionOpView {
            extension: self.extension@,
            name: self.name@,
            args: args_view(self.args),
            input: type_row_view(self.signature.input),
            output: type_row_view(self.signature.output),
        }
    }
}

/// The operation of a node.
#[derive(Debug, PartialEq, Eq)]
pub enum OpType {
    /// The root: it owns function definitions.
    Module,
    /// A function definition: it owns the dataflow graph of its body.
    FuncDefn { name: String, signature: FunctionType },
    /// The node whose outputs are the inputs of the region it stands in.
    Input { types: Vec<Type> },
    /// The node whose inputs are the outputs of the region it stands in.
    Output { types: Vec<Type> },
    /// A nested dataflow graph.
    Dfg { signature: FunctionType },
    /// A conditional: its first input is a sum, and it owns one case for
    /// each variant of that sum.
    Conditional { sum_rows: Vec<Vec<Type>>, other_inputs: Vec<Type>, outputs: Vec<Type> },
    /// One case of a conditional.
    Case { signature: FunctionType },
    /// A loop: its region is run again with the values that it yields as
    /// variant 0 of its first output, until it yields variant 1. The
    /// values `rest` are carried from each round to the next and out.
    TailLoop { just_inputs: Vec<Type>, just_outputs: Vec<Type>, rest: Vec<Type> },
    /// Yields a constant.
    LoadConstant { value: Value },
    /// Builds a tuple from its inputs.
    MakeTuple { tys: Vec<Type> },
    /// Yields the fields of a tuple.
    UnpackTuple { tys: Vec<Type> },
    /// Builds the variant `tag` of a sum from that variant's fields.
    Tag { tag: usize, variants: Vec<Vec<Type>> },
    /// An operation of an extension.
    Extension(ExtensionOp),
}

/// The types of the dataflow inputs of an operation.
pub open spec fn op_inputs(op: OpType) -> Seq<TypeView> {
    match op {
        OpType::Output { types } => type_row_view(types),
        OpType::Dfg { signature } => type_row_view(signature.input),
        OpType::Conditional { sum_rows, other_inputs, outputs } => seq![
            TypeView::Sum(type_rows_view(sum_rows)),
        ] + type_row_view(other_inputs),
        OpType::MakeTuple { tys } => type_row_view(tys),
        OpType::UnpackTuple { tys } => seq![TypeView::Tuple(type_row_view(tys))],
        OpType::Tag { tag, variants } => if tag < variants.len() {
            type_row_view(variants[tag as int])
        } else {
            Seq::empty()
        },
        OpType::Extension(e) => type_row_view(e.signature.input),
        OpType::TailLoop { just_inputs, just_outputs, rest } => type_row_view(just_inputs) + type_row_view(rest),
        _ => Seq::empty(),
    }
}

/// The types that the region of a loop yields: the sum of the values for
/// the next round and of the values that end the loop, then the values
/// that are carried.
pub open spec fn loop_yields(just_inputs: Seq<TypeView>, just_outputs: Seq<TypeView>, rest: Seq<TypeView>) -> Seq<
    TypeView,
> {
    seq![TypeView::Sum(seq![just_inputs, just_outputs])] + rest
}

/// The types of the dataflow outputs of an operation.
pub open spec fn op_outputs(op: OpType) -> Seq<TypeView> {
    match op {
        OpType::Input { types } => type_row_view(types),
        OpType::Dfg { signature } => type_row_view(signature.output),
        OpType::Conditional { sum_rows, other_inputs, outputs } => type_row_view(outputs),
        OpType::LoadConstant { value } => seq![value_type(value)],
        OpType::MakeTuple { tys } => seq![TypeView::Tuple(type_row_view(tys))],
        OpType::UnpackTuple { tys } => type_row_view(tys),
        OpType::Tag { tag, variants } => seq![TypeView::Sum(type_rows_view(variants))],
        OpType::Extension(e) => type_row_view(e.signature.output),
        OpType::TailLoop { just_inputs, just_outputs, rest } => type_row_view(just_outputs) + type_row_view(rest),
        _ => Seq::empty(),
    }
}

/// The types that the region of a loop yields.
pub fn loop_yield_types(just_inputs: &Vec<Type>, just_outputs: &Vec<Type>, rest: &Vec<Type>) -> (r: Vec<Type>)
    ensures
        type_row_view(r) == loop_yields(type_row_view(*just_inputs), type_row_view(*just_outputs), type_row_view(*rest)),
{
    let mut rows: Vec<Vec<Type>> = Vec::new();
    rows.push(type_row_duplicate(just_inputs));
    rows.push(type_row_duplicate(just_outputs));
    let mut first: Vec<Type> = Vec::new();
    first.push(Type::Sum(rows));
    proof {
        lemma_type_rows_view(rows);
        lemma_type_row_view(first);
        assert(type_rows_view(rows) =~= seq![type_row_view(*just_inputs), type_row_view(*just_outputs)]);
        assert(type_row_view(first) =~= seq![
            TypeView::Sum(seq![type_row_view(*just_inputs), type_row_view(*just_outputs)]),
        ]);
    }
    type_row_concat(&first, rest)
}

impl OpType {
    /// The number of dataflow outputs.
    pub fn output_count(&self) -> (r: usize)
        ensures
            r == op_outputs(*self).len(),
    {
        match self {
            OpType::Input { types } => {
                proof {
                    lemma_type_row_view(*types);
                }
                types.len()
            },
            OpType::Dfg { signature } => {
                proof {
                    lemma_type_row_view(signature.output);
                }
                signature.output.len()
            },
            OpType::Conditional { sum_rows, other_inputs, outputs } => {
                proof {
                    lemma_type_row_view(*outputs);
                }
                outputs.len()
            },
            OpType::LoadConstant { value } => 1,
            OpType::MakeTuple { tys } => 1,
            OpType::UnpackTuple { tys } => {
                proof {
                    lemma_type_row_view(*tys);
                }
                tys.len()
            },
            OpType::Tag { tag, variants } => 1,
            OpType::Extension(e) => {
                proof {
                    lemma_type_row_view(e.signature.output);
                }
                e.signature.output.len()
            },
            OpType::TailLoop { just_inputs, just_outputs, rest } => {
                proof {
                    lemma_type_row_view(*just_outputs);
                    lemma_type_row_view(*rest);
                }
                match just_outputs.len().checked_add(rest.len()) {
                    Some(n) => n,
                    None => {
                        let row = type_row_concat(just_outputs, rest);
                        proof {
                            lemma_type_row_view(row);
                        }
                        row.len()
                    },
                }
            },
            _ => 0,
        }
    }

    /// The types of the dataflow inputs.
    pub fn input_types(&self) -> (r: Vec<Type>)
        ensures
            type_row_view(r) == op_inputs(*self),
    {
        match self {
            OpType::Output { types } => type_row_duplicate(types),
            OpType::Dfg { signature } => type_row_duplicate(&signature.input),
            OpType::Conditional { sum_rows, other_inputs, outputs } => {
                let mut row: Vec<Type> = Vec::new();
                row.push(Type::Sum(type_rows_duplicate(sum_rows)));
                let mut i: usize = 0;
                while i < other_inputs.len()
                    invariant
                        i <= other_inputs.len(),
                        row.len() == i + 1,
                        row[0]@ == TypeView::Sum(type_rows_view(*sum_rows)),
                        forall|k: int| 0 <= k < i ==> row[k + 1]@ == other_inputs[k]@,
                    decreases other_inputs.len() - i,
                {
                    row.push(other_inputs[i].duplicate());
                    i += 1;
                }
                proof {
                    lemma_type_row_view(row);
                    lemma_type_row_view(*other_inputs);
                    assert(type_row_view(row) =~= op_inputs(*self));
                }
                row
            },
            OpType::MakeTuple { tys } => type_row_duplicate(tys),
            OpType::UnpackTuple { tys } => {
                let mut row: Vec<Type> = Vec::new();
                row.push(Type::Tuple(type_row_duplicate(tys)));
                proof {
                    lemma_type_row_view(row);
                    assert(type_row_view(row) =~= op_inputs(*self));
                }
                row
            },
            OpType::Tag { tag, variants } => {
                if *tag < variants.len() {
                    type_row_duplicate(&variants[*tag])
                } else {
                    let row: Vec<Type> = Vec::new();
                    proof {
                        assert(type_row_view(row) =~= op_inputs(*self));
                    }
                    row
                }
            },
            OpType::Extension(e) => type_row_duplicate(&e.signature.input),
            OpType::TailLoop { just_inputs, just_outputs, rest } => type_row_concat(just_inputs, rest),
            _ => {
                let row: Vec<Type> = Vec::new();
                proof {
                    assert(type_row_view(row) =~= op_inputs(*self));
                }
                row
            },
        }
    }

    /// The types of the dataflow outputs.
    pub fn output_types(&self) -> (r: Vec<Type>)
        ensures
            type_row_view(r) == op_outputs(*self),
    {
        match self {
            OpType::Input { types } => type_row_duplicate(types),
            OpType::Dfg { signature } => type_row_duplicate(&signature.output),
            OpType::Conditional { sum_rows, other_inputs, outputs } => type_row_duplicate(outputs),
            OpType::LoadConstant { value } => {
                let mut row: Vec<Type> = Vec::new();
                row.push(value.get_type());
                proof {
                    lemma_type_row_view(row);
                    assert(type_row_view(row) =~= op_outputs(*self));
                }
                row
            },
            OpType::MakeTuple { tys } => {
                let mut row: Vec<Type> = Vec::new();
                row.push(Type::Tuple(type_row_duplicate(tys)));
                proof {
                    lemma_type_row_view(row);
                    assert(type_row_view(row) =~= op_outputs(*self));
                }
                row
            },
            OpType::UnpackTuple { tys } => type_row_duplicate(tys),
            OpType::Tag { tag, variants } => {
                let mut row: Vec<Type> = Vec::new();
                row.push(Type::Sum(type_rows_duplicate(variants)));
                proof {
                    lemma_type_row_view(row);
                    assert(type_row_view(row) =~= op_outputs(*self));
                }
                row
            },
            OpType::Extension(e) => type_row_duplicate(&e.signature.output),
            OpType::TailLoop { just_inputs, just_outputs, rest } => type_row_concat(just_outputs, rest),
            _ => {
                let row: Vec<Type> = Vec::new();
                proof {
                    assert(type_row_view(row) =~= op_outputs(*self));
                }
                row
            },
        }
    }
}

} // verus!

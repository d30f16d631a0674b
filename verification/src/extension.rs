//! The registry of extension lowerings: what turns the opaque types,
//! constants and operations of an extension into target IR.
use vstd::prelude::*;
use crate::layout::Layout;
use crate::layout::TargetType;
use crate::layout::row_view;
use crate::ir::Constant;
use crate::ir::ConstantView;
use crate::ir::Operand;
use crate::ir::OperandView;
use crate::ir::Instr;
use crate::ir::InstrView;
use crate::ir::views;
use crate::types::CustomType;
use crate::types::CustomTypeView;
use crate::types::TypeArg;
use crate::ops::CustomConst;
use crate::ops::CustomConstView;
use crate::ops::ExtensionOp;
use crate::ops::ExtensionOpView;
use crate::error::EmitError;
use crate::error::EmitErrorView;

verus! {

/// What lowering an operation yields: the instructions to append to the
/// current block, and the operands that hold the operation's outputs.
pub struct LoweredOp {
    pub instrs: Vec<Instr>,
    pub outputs: Vec<Operand>,
}

/// The model of a `LoweredOp`.
pub struct LoweredOpView {
    pub instrs: Seq<InstrView>,
    pub outputs: Seq<OperandView>,
}

impl View for LoweredOp {
    type V = LoweredOpView;

    open spec fn view(&self) -> LoweredOpView {
        LoweredOpView { instrs: views(self.instrs@), outputs: views(self.outputs@) }
    }
}

/// Whether an executable result is the given model, `None` for `None`.
pub open spec fn is_model<T: View>(r: Option<T>, m: Option<T::V>) -> bool {
    match r {
        Some(t) => m == Some(t@),
        None => m is None,
    }
}

/// The lowering rules of an extension. Each rule is a function of its
/// arguments alone; `None` says that the rule rejects them.
pub trait ExtensionLowering {
    /// The layout of an opaque type.
    spec fn type_layout(&self, ty: CustomTypeView) -> Option<Layout>;

    /// Computes `type_layout`.
    fn lower_type(&self, ty: &CustomType) -> (r: Option<TargetType>)
        ensures
            is_model(r, self.type_layout(ty@)),
    ;

    /// The literal that an opaque constant stands for.
    spec fn constant(&self, c: CustomConstView) -> Option<ConstantView>;

    /// Computes `constant`.
    fn lower_constant(&self, c: &CustomConst) -> (r: Option<Constant>)
        ensures
            is_model(r, self.constant(c@)),
    ;

    /// The code of an operation whose inputs are held by `inputs`, of the
    /// layouts `layouts`, where the first instruction of the code will
    /// stand at position `base` of its block.
    spec fn op_code(
        &self,
        op: ExtensionOpView,
        inputs: Seq<OperandView>,
        layouts: Seq<Layout>,
        base: nat,
    ) -> Option<LoweredOpView>;

    /// Computes `op_code`.
    fn lower_op(&self, op: &ExtensionOp, inputs: &Vec<Operand>, layouts: &Vec<TargetType>, base: usize) -> (r:
        Option<LoweredOp>)
        ensures
            is_model(r, self.op_code(op@, views(inputs@), row_view(*layouts), base as nat)),
    ;
}

/// One registration: the lowering for the item `name` of `extension`.
pub struct Registration<L> {
    pub extension: String,
    pub name: String,
    pub lowering: L,
}

/// The registration that answers for `(extension, name)`: the last one
/// made under exactly that pair.
pub open spec fn find<L>(entries: Seq<Registration<L>>, extension: Seq<char>, name: Seq<char>) -> Option<int>
    decreases entries.len(),
{
    if entries.len() == 0 {
        None
    } else if entries.last().extension@ == extension && entries.last().name@ == name {
        Some(entries.len() - 1)
    } else {
        find(entries.drop_last(), extension, name)
    }
}

/// What `find` returns is a registration under the pair asked for, and no
/// later one is.
pub proof fn lemma_find<L>(entries: Seq<Registration<L>>, extension: Seq<char>, name: Seq<char>)
    ensures
        match find(entries, extension, name) {
            Some(i) => {
                &&& 0 <= i < entries.len()
                &&& entries[i].extension@ == extension
                &&& entries[i].name@ == name
                &&& no_match_from(entries, extension, name, i + 1)
            },
            None => no_match_from(entries, extension, name, 0),
        },
    decreases entries.len(),
{
    if entries.len() > 0 {
        let rest = entries.drop_last();
        lemma_find(rest, extension, name);
        assert(forall|j: int| 0 <= j < rest.len() ==> rest[j] == entries[j]);
        if !(entries.last().extension@ == extension && entries.last().name@ == name) {
            match find(rest, extension, name) {
                Some(i) => {
                    assert forall|j: int| i + 1 <= j < entries.len() implies !((#[trigger] entries[j]).extension@
                        == extension && entries[j].name@ == name) by {
                        if j < rest.len() {
                            assert(rest[j] == entries[j]);
                        }
                    }
                },
                None => {
                    assert forall|j: int| 0 <= j < entries.len() implies !((#[trigger] entries[j]).extension@
                        == extension && entries[j].name@ == name) by {
                        if j < rest.len() {
                            assert(rest[j] == entries[j]);
                        }
                    }
                },
            }
        }
    }
}

/// Whether no registration at or after `from` is under the pair.
pub open spec fn no_match_from<L>(entries: Seq<Registration<L>>, extension: Seq<char>, name: Seq<char>, from: int) -> bool {
    forall|j: int|
        from <= j < entries.len() ==> !((#[trigger] entries[j]).extension@ == extension && entries[j].name@
            == name)
}

/// Searches a table for the registration that answers for a pair.
pub fn lookup<L>(entries: &Vec<Registration<L>>, extension: &String, name: &String) -> (r: Option<usize>)
    ensures
        match r {
            Some(i) => find(entries@, extension@, name@) == Some(i as int),
            None => find(entries@, extension@, name@) is None,
        },
{
    let mut i: usize = entries.len();
    assert(entries@.take(i as int) =~= entries@);
    while i > 0
        invariant
            i <= entries.len(),
            find(entries@, extension@, name@) == find(entries@.take(i as int), extension@, name@),
        decreases i,
    {
        proof {
            assert(entries@.take(i as int).drop_last() =~= entries@.take(i - 1));
        }
        i -= 1;
        if entries[i].extension == *extension && entries[i].name == *name {
            return Some(i);
        }
    }
    None
}

/// The extension registry: a mapping from an extension's name and the name
/// of one of its types, constants or operations to the lowering for it.
pub struct ExtensionOpRegistry<L> {
    pub types: Vec<Registration<L>>,
    pub constants: Vec<Registration<L>>,
    pub ops: Vec<Registration<L>>,
}

impl<L> ExtensionOpRegistry<L> {
    /// The registry without registrations.
    pub fn new() -> (r: Self)
        ensures
            r.types@.len() == 0,
            r.constants@.len() == 0,
            r.ops@.len() == 0,
    {
        ExtensionOpRegistry { types: Vec::new(), constants: Vec::new(), ops: Vec::new() }
    }

    /// Registers the lowering for an operation. A later registration under
    /// the same pair replaces an earlier one.
    pub fn register(&mut self, extension: String, op_name: String, lowering: L)
        ensures
            final(self).ops@ == old(self).ops@.push(Registration { extension, name: op_name, lowering }),
            final(self).types == old(self).types,
            final(self).constants == old(self).constants,
    {
        self.ops.push(Registration { extension, name: op_name, lowering });
    }

    /// Registers the lowering for an opaque type.
    pub fn register_type(&mut self, extension: String, ty_name: String, lowering: L)
        ensures
            final(self).types@ == old(self).types@.push(Registration { extension, name: ty_name, lowering }),
            final(self).ops == old(self).ops,
            final(self).constants == old(self).constants,
    {
        self.types.push(Registration { extension, name: ty_name, lowering });
    }

    /// Registers the lowering for a kind of opaque constant.
    pub fn register_constant(&mut self, extension: String, constant_name: String, lowering: L)
        ensures
            final(self).constants@ == old(self).constants@.push(
                Registration { extension, name: constant_name, lowering },
            ),
            final(self).ops == old(self).ops,
            final(self).types == old(self).types,
    {
        self.constants.push(Registration { extension, name: constant_name, lowering });
    }

    /// The lowering registered for an operation, by exact match on
    /// `(extension, op_name)`. The type arguments take no part in the
    /// match: the lowering itself judges them.
    pub fn resolve(&self, extension: &String, op_name: &String, type_args: &Vec<TypeArg>) -> (r: Result<
        &L,
        EmitError,
    >)
        ensures
            match find(self.ops@, extension@, op_name@) {
                Some(i) => r == Ok::<&L, EmitError>(&self.ops[i].lowering),
                None => r is Err && r->Err_0@ == EmitErrorView::UnsupportedOp(extension@, op_name@),
            },
    {
        proof {
            lemma_find(self.ops@, extension@, op_name@);
        }
        match lookup(&self.ops, extension, op_name) {
            Some(i) => Ok(&self.ops[i].lowering),
            None => Err(EmitError::UnsupportedOp { extension: extension.clone(), name: op_name.clone() }),
        }
    }

    /// The lowering registered for an opaque type.
    pub fn resolve_type(&self, extension: &String, ty_name: &String) -> (r: Result<&L, EmitError>)
        ensures
            match find(self.types@, extension@, ty_name@) {
                Some(i) => r == Ok::<&L, EmitError>(&self.types[i].lowering),
                None => r is Err && r->Err_0@ == EmitErrorView::UnsupportedType(extension@, ty_name@),
            },
    {
        proof {
            lemma_find(self.types@, extension@, ty_name@);
        }
        match lookup(&self.types, extension, ty_name) {
            Some(i) => Ok(&self.types[i].lowering),
            None => Err(EmitError::UnsupportedType { extension: extension.clone(), name: ty_name.clone() }),
        }
    }

    /// The lowering registered for a kind of opaque constant.
    pub fn resolve_constant(&self, extension: &String, constant_name: &String) -> (r: Result<&L, EmitError>)
        ensures
            match find(self.constants@, extension@, constant_name@) {
                Some(i) => r == Ok::<&L, EmitError>(&self.constants[i].lowering),
                None => r is Err && r->Err_0@ == EmitErrorView::UnsupportedConstant(extension@, constant_name@),
            },
    {
        proof {
            lemma_find(self.constants@, extension@, constant_name@);
        }
        match lookup(&self.constants, extension, constant_name) {
            Some(i) => Ok(&self.constants[i].lowering),
            None => Err(
                EmitError::UnsupportedConstant { extension: extension.clone(), name: constant_name.clone() },
            ),
        }
    }
}

} // verus!

//! The target IR: modules of functions, each a list of typed stack slots and
//! basic blocks. A value is named by the position, within its block, of the
//! instruction that yields it; values cross from block to block through
//! stack slots only.
use vstd::prelude::*;
use vstd::arithmetic::power2::pow2;
use crate::layout::Layout;
use crate::layout::TargetType;
use crate::layout::row_view;

verus! {

/// The model of a `Vec` whose elements have a model.
pub open spec fn views<T: View>(v: Seq<T>) -> Seq<T::V> {
    Seq::new(v.len(), |i: int| v[i]@)
}

pub proof fn lemma_views_push<T: View>(v: Seq<T>, x: T)
    ensures
        views(v.push(x)) == views(v).push(x@),
{
    assert(views(v.push(x)) =~= views(v).push(x@));
}

/// A literal of the target IR.
#[derive(Debug, PartialEq, Eq)]
pub enum Constant {
    /// An integer of `bits` bits.
    Int { bits: u32, value: u64 },
    /// An aggregate of literals.
    Struct(Vec<Constant>),
}

/// The model of a `Constant`.
pub enum ConstantView {
    Int(u32, u64),
    Struct(Seq<ConstantView>),
}

/// The model of a list of literals.
pub open spec fn constants_view(cs: Vec<Constant>) -> Seq<ConstantView>
    decreases cs, 1int,
{
    Seq::new(
        cs.len() as nat,
        |i: int| if 0 <= i < cs.len() { cs[i]@ } else { ConstantView::Int(0, 0) },
    )
}

impl View for Constant {
    type V = ConstantView;

    open spec fn view(&self) -> ConstantView
        decreases self, 0int,
    {
        match self {
            Constant::Int { bits, value } => ConstantView::Int(*bits, *value),
            Constant::Struct(fields) => ConstantView::Struct(constants_view(*fields)),
        }
    }
}

pub proof fn lemma_constants_view(cs: Vec<Constant>)
    ensures
        constants_view(cs).len() == cs.len(),
        forall|i: int| 0 <= i < cs.len() ==> #[trigger] constants_view(cs)[i] == cs[i]@,
{
}

/// The layouts of a row of literals.
pub open spec fn constants_layout(cs: Seq<ConstantView>) -> Seq<Layout>
    decreases cs, 1int,
{
    Seq::new(cs.len(), |i: int| if 0 <= i < cs.len() { constant_layout(cs[i]) } else { Layout::Int(0) })
}

/// The layout of a literal.
pub open spec fn constant_layout(c: ConstantView) -> Layout
    decreases c, 0int,
{
    match c {
        ConstantView::Int(bits, _) => Layout::Int(bits as nat),
        ConstantView::Struct(fields) => Layout::Struct(constants_layout(fields)),
    }
}

/// Whether every literal of a list is well formed.
pub open spec fn constants_ok(cs: Seq<ConstantView>) -> bool
    decreases cs, 1int,
{
    forall|i: int| 0 <= i < cs.len() ==> constant_ok(#[trigger] cs[i])
}

/// Whether every integer in a literal fits its width.
pub open spec fn constant_ok(c: ConstantView) -> bool
    decreases c, 0int,
{
    match c {
        ConstantView::Int(bits, value) => bits >= 64 || (value as nat) < pow2(bits as nat),
        ConstantView::Struct(fields) => constants_ok(fields),
    }
}

/// What an instruction reads.
#[derive(Debug, PartialEq, Eq)]
pub enum Operand {
    /// The value of the instruction at this position of the same block.
    Local(usize),
    /// The function's parameter of this index.
    Param(usize),
    /// A literal.
    Const(Constant),
}

/// The model of an `Operand`.
pub enum OperandView {
    Local(nat),
    Param(nat),
    Const(ConstantView),
}

impl View for Operand {
    type V = OperandView;

    open spec fn view(&self) -> OperandView {
        match self {
            Operand::Local(i) => OperandView::Local(*i as nat),
            Operand::Param(i) => OperandView::Param(*i as nat),
            Operand::Const(c) => OperandView::Const(c@),
        }
    }
}

/// An operator on two integers of one width.
#[derive(Debug, Clone, Copy, PartialEq, Eq, Structural)]
pub enum BinOp {
    Add,
    Sub,
    Mul,
}

/// An instruction. Every one but `Store` yields a value of type `ty`.
#[derive(Debug, PartialEq, Eq)]
pub enum Instr {
    /// Reads a stack slot.
    Load { slot: usize, ty: TargetType },
    /// Writes a stack slot.
    Store { slot: usize, value: Operand },
    /// Builds an aggregate from its fields, in order.
    MakeStruct { ty: TargetType, fields: Vec<Operand> },
    /// Reads one field of an aggregate.
    ExtractField { ty: TargetType, agg: Operand, index: usize },
    /// Builds a tagged union: the discriminant `tag`, and the fields of that
    /// variant laid into the shared payload.
    MakeVariant { ty: TargetType, tag: usize, fields: Vec<Operand> },
    /// Reads the discriminant of a tagged union.
    GetTag { ty: TargetType, value: Operand },
    /// Reads one field of a tagged union's payload, taken as variant `tag`.
    VariantField { ty: TargetType, value: Operand, tag: usize, index: usize },
    /// Applies an operator to two integers.
    Binary { op: BinOp, ty: TargetType, lhs: Operand, rhs: Operand },
}

/// The model of an `Instr`.
pub enum InstrView {
    Load { slot: nat, ty: Layout },
    Store { slot: nat, value: OperandView },
    MakeStruct { ty: Layout, fields: Seq<OperandView> },
    ExtractField { ty: Layout, agg: OperandView, index: nat },
    MakeVariant { ty: Layout, tag: nat, fields: Seq<OperandView> },
    GetTag { ty: Layout, value: OperandView },
    VariantField { ty: Layout, value: OperandView, tag: nat, index: nat },
    Binary { op: BinOp, ty: Layout, lhs: OperandView, rhs: OperandView },
}

impl View for Instr {
    type V = InstrView;

    open spec fn view(&self) -> InstrView {
        match self {
            Instr::Load { slot, ty } => InstrView::Load { slot: *slot as nat, ty: ty@ },
            Instr::Store { slot, value } => InstrView::Store { slot: *slot as nat, value: value@ },
            Instr::MakeStruct { ty, fields } => InstrView::MakeStruct { ty: ty@, fields: views(fields@) },
            Instr::ExtractField { ty, agg, index } => InstrView::ExtractField {
                ty: ty@,
                agg: agg@,
                index: *index as nat,
            },
            Instr::MakeVariant { ty, tag, fields } => InstrView::MakeVariant {
                ty: ty@,
                tag: *tag as nat,
                fields: views(fields@),
            },
            Instr::GetTag { ty, value } => InstrView::GetTag { ty: ty@, value: value@ },
            Instr::VariantField { ty, value, tag, index } => InstrView::VariantField {
                ty: ty@,
                value: value@,
                tag: *tag as nat,
                index: *index as nat,
            },
            Instr::Binary { op, ty, lhs, rhs } => InstrView::Binary { op: *op, ty: ty@, lhs: lhs@, rhs: rhs@ },
        }
    }
}

/// The numbers of a list as natural numbers.
pub open spec fn nats(v: Seq<usize>) -> Seq<nat> {
    Seq::new(v.len(), |i: int| v[i] as nat)
}

/// How a block ends.
#[derive(Debug, PartialEq, Eq)]
pub enum Terminator {
    /// Returns from the function.
    Ret(Operand),
    /// Goes on with the block of this index.
    Br(usize),
    /// Goes on with `targets[d]`, where `d` is the value of `on`. There is
    /// no default target.
    Switch { on: Operand, targets: Vec<usize> },
    /// Is never reached.
    Unreachable,
}

/// The model of a `Terminator`.
pub enum TerminatorView {
    Ret(OperandView),
    Br(nat),
    Switch(OperandView, Seq<nat>),
    Unreachable,
}

impl View for Terminator {
    type V = TerminatorView;

    open spec fn view(&self) -> TerminatorView {
        match self {
            Terminator::Ret(v) => TerminatorView::Ret(v@),
            Terminator::Br(b) => TerminatorView::Br(*b as nat),
            Terminator::Switch { on, targets } => TerminatorView::Switch(on@, nats(targets@)),
            Terminator::Unreachable => TerminatorView::Unreachable,
        }
    }
}

/// A basic block.
#[derive(Debug, PartialEq, Eq)]
pub struct Block {
    pub instrs: Vec<Instr>,
    pub term: Terminator,
}

/// The model of a `Block`.
pub struct BlockView {
    pub instrs: Seq<InstrView>,
    pub term: TerminatorView,
}

impl View for Block {
    type V = BlockView;

    open spec fn view(&self) -> BlockView {
        BlockView { instrs: views(self.instrs@), term: self.term@ }
    }
}

/// A function of the target IR. Block 0 is its entry.
#[derive(Debug, PartialEq, Eq)]
pub struct Function {
    pub name: String,
    pub params: Vec<TargetType>,
    pub ret: TargetType,
    pub slots: Vec<TargetType>,
    pub blocks: Vec<Block>,
}

/// The model of a `Function`.
pub struct FunctionView {
    pub name: Seq<char>,
    pub params: Seq<Layout>,
    pub ret: Layout,
    pub slots: Seq<Layout>,
    pub blocks: Seq<BlockView>,
}

impl View for Function {
    type V = FunctionView;

    open spec fn view(&self) -> FunctionView {
        FunctionView {
            name: self.name@,
            params: row_view(self.params),
            ret: self.ret@,
            slots: row_view(self.slots),
            blocks: views(self.blocks@),
        }
    }
}

/// A module of the target IR.
#[derive(Debug, PartialEq, Eq)]
pub struct Module {
    pub functions: Vec<Function>,
}

/// The model of a `Module`.
pub struct ModuleView {
    pub functions: Seq<FunctionView>,
}

impl View for Module {
    type V = ModuleView;

    open spec fn view(&self) -> ModuleView {
        ModuleView { functions: views(self.functions@) }
    }
}

/// The layout of what an instruction yields, if it yields a value.
pub open spec fn result_layout(i: InstrView) -> Option<Layout> {
    match i {
        InstrView::Load { ty, .. } => Some(ty),
        InstrView::Store { .. } => None,
        InstrView::MakeStruct { ty, .. } => Some(ty),
        InstrView::ExtractField { ty, .. } => Some(ty),
        InstrView::MakeVariant { ty, .. } => Some(ty),
        InstrView::GetTag { ty, .. } => Some(ty),
        InstrView::VariantField { ty, .. } => Some(ty),
        InstrView::Binary { ty, .. } => Some(ty),
    }
}

/// The layout of an operand that stands after the instructions `before` of
/// its block, or `None` where it names no value there.
pub open spec fn operand_layout(params: Seq<Layout>, before: Seq<InstrView>, v: OperandView) -> Option<
    Layout,
> {
    match v {
        OperandView::Local(i) => if i < before.len() {
            result_layout(before[i as int])
        } else {
            None
        },
        OperandView::Param(i) => if i < params.len() {
            Some(params[i as int])
        } else {
            None
        },
        OperandView::Const(c) => if constant_ok(c) {
            Some(constant_layout(c))
        } else {
            None
        },
    }
}

/// Whether the operands have, one by one, the layouts of `row`.
pub open spec fn operands_have(
    params: Seq<Layout>,
    before: Seq<InstrView>,
    vs: Seq<OperandView>,
    row: Seq<Layout>,
) -> bool {
    &&& vs.len() == row.len()
    &&& forall|i: int|
        0 <= i < vs.len() ==> operand_layout(params, before, #[trigger] vs[i]) == Some(row[i])
}

/// Whether an instruction is well formed after the instructions `before`
/// of its block, in a function with these slots and parameters.
pub open spec fn instr_ok(slots: Seq<Layout>, params: Seq<Layout>, before: Seq<InstrView>, i: InstrView) -> bool {
    match i {
        InstrView::Load { slot, ty } => slot < slots.len() && slots[slot as int] == ty,
        InstrView::Store { slot, value } => slot < slots.len() && operand_layout(params, before, value)
            == Some(slots[slot as int]),
        InstrView::MakeStruct { ty, fields } => ty is Struct && operands_have(
            params,
            before,
            fields,
            ty->Struct_0,
        ),
        InstrView::ExtractField { ty, agg, index } => {
            &&& operand_layout(params, before, agg) matches Some(Layout::Struct(row))
            &&& index < row.len()
            &&& row[index as int] == ty
        },
        InstrView::MakeVariant { ty, tag, fields } => {
            &&& ty matches Layout::Union(_, variants)
            &&& tag < variants.len()
            &&& operands_have(params, before, fields, variants[tag as int])
        },
        InstrView::GetTag { ty, value } => {
            &&& operand_layout(params, before, value) matches Some(Layout::Union(bits, _))
            &&& ty == Layout::Int(bits)
        },
        InstrView::VariantField { ty, value, tag, index } => {
            &&& operand_layout(params, before, value) matches Some(Layout::Union(_, variants))
            &&& tag < variants.len()
            &&& index < variants[tag as int].len()
            &&& variants[tag as int][index as int] == ty
        },
        InstrView::Binary { op, ty, lhs, rhs } => {
            &&& ty is Int
            &&& operand_layout(params, before, lhs) == Some(ty)
            &&& operand_layout(params, before, rhs) == Some(ty)
        },
    }
}

/// Whether every instruction of a list is well formed after those before it.
pub open spec fn instrs_ok(slots: Seq<Layout>, params: Seq<Layout>, instrs: Seq<InstrView>) -> bool {
    forall|k: int|
        0 <= k < instrs.len() ==> instr_ok(slots, params, instrs.take(k), #[trigger] instrs[k])
}

/// Whether every target names one of `nblocks` blocks.
pub open spec fn targets_in_range(targets: Seq<nat>, nblocks: nat) -> bool {
    forall|i: int| 0 <= i < targets.len() ==> (#[trigger] targets[i]) < nblocks
}

/// Whether a terminator is well formed at the end of the instructions
/// `body`, in a function of `nblocks` blocks that returns `ret`.
pub open spec fn terminator_ok(
    params: Seq<Layout>,
    ret: Layout,
    nblocks: nat,
    body: Seq<InstrView>,
    t: TerminatorView,
) -> bool {
    match t {
        TerminatorView::Ret(v) => operand_layout(params, body, v) == Some(ret),
        TerminatorView::Br(b) => b < nblocks,
        TerminatorView::Switch(on, targets) => {
            &&& operand_layout(params, body, on) matches Some(Layout::Int(_))
            &&& targets_in_range(targets, nblocks)
        },
        TerminatorView::Unreachable => true,
    }
}

/// Whether a block is well formed.
pub open spec fn block_ok(slots: Seq<Layout>, params: Seq<Layout>, ret: Layout, nblocks: nat, b: BlockView) -> bool {
    &&& instrs_ok(slots, params, b.instrs)
    &&& terminator_ok(params, ret, nblocks, b.instrs, b.term)
}

impl FunctionView {
    /// Structural validity: there is an entry block, and every block is
    /// well formed.
    pub open spec fn valid(self) -> bool {
        &&& self.blocks.len() > 0
        &&& forall|b: int|
            0 <= b < self.blocks.len() ==> block_ok(
                self.slots,
                self.params,
                self.ret,
                self.blocks.len(),
                #[trigger] self.blocks[b],
            )
    }
}

impl ModuleView {
    /// Structural validity: every function is valid.
    pub open spec fn valid(self) -> bool {
        forall|f: int| 0 <= f < self.functions.len() ==> (#[trigger] self.functions[f]).valid()
    }
}

} // verus!


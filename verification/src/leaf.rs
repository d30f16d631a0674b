//! The lowering of the nodes without children: tuples, tags, constants and
//! the operations of extensions.
use vstd::prelude::*;
use crate::layout::Layout;
use crate::layout::TargetType;
use crate::layout::row_view;
use crate::layout::row_duplicate;
use crate::layout::lemma_row_view;
use crate::layout::lemma_rows_view;
use crate::ir::views;
use crate::ir::Constant;
use crate::ir::ConstantView;
use crate::ir::constant_layout;
use crate::ir::constant_ok;
use crate::layout::row_same;
use crate::ir::Operand;
use crate::ir::OperandView;
use crate::ir::Instr;
use crate::ir::InstrView;
use crate::ir::instr_ok;
use crate::ir::operand_layout;
use crate::check::instr_check;
use crate::check::operand_type;
use crate::types::Type;
use crate::types::TypeView;
use crate::types::type_rows_view;
use crate::types::type_rows_duplicate;
use crate::types::lemma_type_rows_view;
use crate::ops::Value;
use crate::ops::ExtensionOp;
use crate::extension::ExtensionLowering;
use crate::extension::ExtensionOpRegistry;
use crate::extension::find;
use crate::convert::convert_type;
use crate::constant::lower_value;
use crate::constant::lower_constant;
use crate::context::EmitContext;
use crate::state::FuncState;
use crate::state::FuncEmitter;
use crate::state::Values;
use crate::state::ValuesView;
use crate::wires::agrees;
use crate::error::EmitError;
use crate::error::EmitErrorView;
use crate::error::Malformation;

verus! {

/// One value.
pub open spec fn single(v: OperandView, l: Layout) -> ValuesView {
    ValuesView { operands: seq![v], layouts: seq![l] }
}

/// Make-tuple: one instruction builds the aggregate from the input
/// values, in the order of the fields.
pub open spec fn make_tuple(st: FuncState, inputs: ValuesView) -> Result<(FuncState, ValuesView), EmitErrorView> {
    let ty = Layout::Struct(inputs.layouts);
    Ok(
        (
            st.push(InstrView::MakeStruct { ty, fields: inputs.operands }),
            single(OperandView::Local(st.cur.len()), ty),
        ),
    )
}

/// The projections of the fields of `agg` from position `i` on.
pub open spec fn unpack_from(st: FuncState, agg: OperandView, fields: Seq<Layout>, i: nat, acc: ValuesView) -> Result<
    (FuncState, ValuesView),
    EmitErrorView,
>
    decreases fields.len() - i,
{
    if i >= fields.len() {
        Ok((st, acc))
    } else {
        unpack_from(
            st.push(InstrView::ExtractField { ty: fields[i as int], agg, index: i }),
            agg,
            fields,
            i + 1,
            acc.push(OperandView::Local(st.cur.len()), fields[i as int]),
        )
    }
}

/// Unpack-tuple: one projection for each field of the aggregate, in the
/// order of the fields.
pub open spec fn unpack_tuple(st: FuncState, node: usize, inputs: ValuesView) -> Result<
    (FuncState, ValuesView),
    EmitErrorView,
> {
    if inputs.operands.len() != 1 || inputs.layouts.len() != 1 {
        Err(EmitErrorView::Malformed(node, Malformation::Arity))
    } else {
        match inputs.layouts[0] {
            Layout::Struct(fields) => unpack_from(st, inputs.operands[0], fields, 0, ValuesView::empty()),
            _ => Err(EmitErrorView::Malformed(node, Malformation::TypeMismatch)),
        }
    }
}

/// Tag: the tagged union whose discriminant is `tag` and whose payload
/// holds the input values as the fields of that variant. Of a sum without
/// fields it is the constant `tag` of the discriminant's width. The input
/// values must have the layouts of the variant's fields.
pub open spec fn make_tag<L: ExtensionLowering>(
    reg: ExtensionOpRegistry<L>,
    st: FuncState,
    node: usize,
    tag: usize,
    variants: Seq<Seq<TypeView>>,
    inputs: ValuesView,
) -> Result<(FuncState, ValuesView), EmitErrorView> {
    if tag >= variants.len() {
        Err(EmitErrorView::Malformed(node, Malformation::BadTag))
    } else {
        match convert_type(reg.types@, TypeView::Sum(variants)) {
            Err(e) => Err(e),
            Ok(Layout::Int(bits)) => Ok(
                (
                    st,
                    single(OperandView::Const(ConstantView::Int(bits as u32, tag as u64)), Layout::Int(bits)),
                ),
            ),
            Ok(Layout::Union(bits, vs)) => if tag >= vs.len() || inputs.layouts != vs[tag as int]
                || inputs.operands.len() != inputs.layouts.len() {
                Err(EmitErrorView::Malformed(node, Malformation::TypeMismatch))
            } else {
                Ok(
                    (
                        st.push(
                            InstrView::MakeVariant {
                                ty: Layout::Union(bits, vs),
                                tag: tag as nat,
                                fields: inputs.operands,
                            },
                        ),
                        single(OperandView::Local(st.cur.len()), Layout::Union(bits, vs)),
                    ),
                )
            },
            Ok(_) => Err(EmitErrorView::Malformed(node, Malformation::TypeMismatch)),
        }
    }
}

/// Load-constant: the lowered literal itself is the value. A literal that
/// an extension's lowering yields must be well formed.
pub open spec fn load_constant<L: ExtensionLowering>(
    reg: ExtensionOpRegistry<L>,
    st: FuncState,
    node: usize,
    value: Value,
) -> Result<(FuncState, ValuesView), EmitErrorView> {
    match lower_value(reg.constants@, value, node) {
        Err(e) => Err(e),
        Ok(c) => if constant_ok(c) {
            Ok((st, single(OperandView::Const(c), constant_layout(c))))
        } else {
            Err(EmitErrorView::Malformed(node, Malformation::BadLowering))
        },
    }
}

/// Appends the instructions of `code` from position `i` on, each only if
/// it is well formed where it comes to stand.
pub open spec fn append_checked_from(st: FuncState, node: usize, code: Seq<InstrView>, i: nat) -> Result<
    FuncState,
    EmitErrorView,
>
    decreases code.len() - i,
{
    if i >= code.len() {
        Ok(st)
    } else if !instr_ok(st.slots, st.params, st.cur, code[i as int]) {
        Err(EmitErrorView::Malformed(node, Malformation::BadLowering))
    } else {
        append_checked_from(st.push(code[i as int]), node, code, i + 1)
    }
}

/// The operands of `outs` from position `i` on, each with the layout that
/// it has at the end of the open block.
pub open spec fn typed_from(st: FuncState, node: usize, outs: Seq<OperandView>, i: nat, acc: ValuesView) -> Result<
    (FuncState, ValuesView),
    EmitErrorView,
>
    decreases outs.len() - i,
{
    if i >= outs.len() {
        Ok((st, acc))
    } else {
        match operand_layout(st.params, st.cur, outs[i as int]) {
            None => Err(EmitErrorView::Malformed(node, Malformation::BadLowering)),
            Some(l) => typed_from(st, node, outs, i + 1, acc.push(outs[i as int], l)),
        }
    }
}

/// An operation of an extension: the code that the lowering registered
/// for `(extension, name)` yields for the input values. The code is
/// appended only as far as it is well formed.
pub open spec fn extension_op<L: ExtensionLowering>(
    reg: ExtensionOpRegistry<L>,
    st: FuncState,
    node: usize,
    op: ExtensionOp,
    inputs: ValuesView,
) -> Result<(FuncState, ValuesView), EmitErrorView> {
    match find(reg.ops@, op.extension@, op.name@) {
        None => Err(EmitErrorView::UnsupportedOp(op.extension@, op.name@)),
        Some(i) => match reg.ops[i].lowering.op_code(op@, inputs.operands, inputs.layouts, st.cur.len()) {
            None => Err(EmitErrorView::UnsupportedOp(op.extension@, op.name@)),
            Some(code) => match append_checked_from(st, node, code.instrs, 0) {
                Err(e) => Err(e),
                Ok(st2) => typed_from(st2, node, code.outputs, 0, ValuesView::empty()),
            },
        },
    }
}

/// A copy of a list of operands.
pub fn operands_duplicate(vs: &Vec<Operand>) -> (r: Vec<Operand>)
    ensures
        views(r@) == views(vs@),
        r@.len() == vs@.len(),
{
    let mut out: Vec<Operand> = Vec::new();
    let mut i: usize = 0;
    while i < vs.len()
        invariant
            i <= vs.len(),
            out@.len() == i,
            forall|k: int| 0 <= k < i ==> out@[k]@ == vs@[k]@,
        decreases vs.len() - i,
    {
        out.push(vs[i].duplicate());
        i += 1;
    }
    assert(views(out@) =~= views(vs@));
    out
}

impl Instr {
    /// A deep copy with the same model.
    pub fn duplicate(&self) -> (r: Instr)
        ensures
            r@ == self@,
    {
        match self {
            Instr::Load { slot, ty } => Instr::Load { slot: *slot, ty: ty.duplicate() },
            Instr::Store { slot, value } => Instr::Store { slot: *slot, value: value.duplicate() },
            Instr::MakeStruct { ty, fields } => Instr::MakeStruct {
                ty: ty.duplicate(),
                fields: operands_duplicate(fields),
            },
            Instr::ExtractField { ty, agg, index } => Instr::ExtractField {
                ty: ty.duplicate(),
                agg: agg.duplicate(),
                index: *index,
            },
            Instr::MakeVariant { ty, tag, fields } => Instr::MakeVariant {
                ty: ty.duplicate(),
                tag: *tag,
                fields: operands_duplicate(fields),
            },
            Instr::GetTag { ty, value } => Instr::GetTag { ty: ty.duplicate(), value: value.duplicate() },
            Instr::VariantField { ty, value, tag, index } => Instr::VariantField {
                ty: ty.duplicate(),
                value: value.duplicate(),
                tag: *tag,
                index: *index,
            },
            Instr::Binary { op, ty, lhs, rhs } => Instr::Binary {
                op: *op,
                ty: ty.duplicate(),
                lhs: lhs.duplicate(),
                rhs: rhs.duplicate(),
            },
        }
    }
}

/// The values that hold one operand.
pub fn one_value(v: Operand, t: TargetType) -> (r: Values)
    ensures
        r@ == single(v@, t@),
        r.operands@.len() == r.types@.len(),
{
    let mut r = Values::new();
    r.push(v, t);
    proof {
        assert(r@.operands =~= seq![v@]);
        assert(r@.layouts =~= seq![t@]);
    }
    r
}

/// Emits make-tuple.
pub fn emit_make_tuple(f: &mut FuncEmitter, inputs: Values) -> (r: Result<Values, EmitError>)
    requires
        old(f).wf(),
    ensures
        final(f).wf(),
        agrees(r, final(f)@, make_tuple(old(f)@, inputs@)),
{
    let ty = TargetType::Struct(row_duplicate(&inputs.types));
    let pos = f.push_instr(Instr::MakeStruct { ty: ty.duplicate(), fields: inputs.operands });
    Ok(one_value(Operand::Local(pos), ty))
}

/// Emits unpack-tuple.
pub fn emit_unpack_tuple(f: &mut FuncEmitter, node: usize, inputs: Values) -> (r: Result<Values, EmitError>)
    requires
        old(f).wf(),
    ensures
        final(f).wf(),
        agrees(r, final(f)@, unpack_tuple(old(f)@, node, inputs@)),
{
    proof {
        lemma_row_view(inputs.types);
    }
    if inputs.operands.len() != 1 || inputs.types.len() != 1 {
        return Err(EmitError::malformed(node, Malformation::Arity));
    }
    match &inputs.types[0] {
        TargetType::Struct(fields) => {
            proof {
                lemma_row_view(*fields);
            }
            let mut vals = Values::new();
            let mut i: usize = 0;
            while i < fields.len()
                invariant
                    i <= fields.len(),
                    f.wf(),
                    inputs.operands@.len() == 1,
                    vals.operands@.len() == vals.types@.len(),
                    unpack_tuple(old(f)@, node, inputs@) == unpack_from(
                        f@,
                        inputs.operands@[0]@,
                        row_view(*fields),
                        i as nat,
                        vals@,
                    ),
                decreases fields.len() - i,
            {
                let pos = f.push_instr(
                    Instr::ExtractField { ty: fields[i].duplicate(), agg: inputs.operands[0].duplicate(), index: i },
                );
                vals.push(Operand::Local(pos), fields[i].duplicate());
                i += 1;
            }
            Ok(vals)
        },
        _ => Err(EmitError::malformed(node, Malformation::TypeMismatch)),
    }
}

/// Emits a tag.
pub fn emit_tag<L: ExtensionLowering>(
    ctx: &mut EmitContext<L>,
    f: &mut FuncEmitter,
    node: usize,
    tag: usize,
    variants: &Vec<Vec<Type>>,
    inputs: Values,
) -> (r: Result<Values, EmitError>)
    requires
        old(ctx).wf(),
        old(f).wf(),
    ensures
        final(ctx).wf(),
        final(ctx).registry == old(ctx).registry,
        final(f).wf(),
        agrees(r, final(f)@, make_tag(old(ctx).registry, old(f)@, node, tag, type_rows_view(*variants), inputs@)),
{
    proof {
        lemma_type_rows_view(*variants);
    }
    if tag >= variants.len() {
        return Err(EmitError::malformed(node, Malformation::BadTag));
    }
    let sum = Type::Sum(type_rows_duplicate(variants));
    match ctx.convert(&sum) {
        Err(e) => Err(e),
        Ok(TargetType::Int(bits)) => Ok(
            one_value(Operand::Const(Constant::Int { bits, value: tag as u64 }), TargetType::Int(bits)),
        ),
        Ok(TargetType::Union { tag_bits, variants: vs }) => {
            proof {
                lemma_rows_view(vs);
            }
            if tag >= vs.len() || !row_same(&inputs.types, &vs[tag]) || inputs.operands.len()
                != inputs.types.len() {
                proof {
                    lemma_row_view(inputs.types);
                }
                return Err(EmitError::malformed(node, Malformation::TypeMismatch));
            }
            proof {
                lemma_row_view(inputs.types);
            }
            let ty = TargetType::Union { tag_bits, variants: vs };
            let pos = f.push_instr(Instr::MakeVariant { ty: ty.duplicate(), tag, fields: inputs.operands });
            Ok(one_value(Operand::Local(pos), ty))
        },
        Ok(_) => Err(EmitError::malformed(node, Malformation::TypeMismatch)),
    }
}

/// Emits load-constant.
pub fn emit_load_constant<L: ExtensionLowering>(ctx: &EmitContext<L>, f: &FuncEmitter, node: usize, value: &Value) -> (r:
    Result<Values, EmitError>)
    ensures
        agrees(r, f@, load_constant(ctx.registry, f@, node, *value)),
{
    match lower_constant(&ctx.registry, value, node) {
        Err(e) => Err(e),
        Ok(c) => {
            if !c.check() {
                return Err(EmitError::malformed(node, Malformation::BadLowering));
            }
            let ty = c.layout();
            Ok(one_value(Operand::Const(c), ty))
        },
    }
}

/// Emits the operation of an extension.
#[verifier::loop_isolation(false)]
pub fn emit_extension_op<L: ExtensionLowering>(
    ctx: &EmitContext<L>,
    f: &mut FuncEmitter,
    node: usize,
    op: &ExtensionOp,
    inputs: Values,
) -> (r: Result<Values, EmitError>)
    requires
        old(f).wf(),
    ensures
        final(f).wf(),
        agrees(r, final(f)@, extension_op(ctx.registry, old(f)@, node, *op, inputs@)),
{
    let lowering = match ctx.registry.resolve(&op.extension, &op.name, &op.args) {
        Err(e) => {
            return Err(e);
        },
        Ok(lowering) => lowering,
    };
    let code = match lowering.lower_op(op, &inputs.operands, &inputs.types, f.cur.len()) {
        None => {
            return Err(EmitError::UnsupportedOp { extension: op.extension.clone(), name: op.name.clone() });
        },
        Some(code) => code,
    };
    let mut i: usize = 0;
    while i < code.instrs.len()
        invariant
            i <= code.instrs.len(),
            f.wf(),
            append_checked_from(old(f)@, node, code@.instrs, 0) == append_checked_from(
                f@,
                node,
                code@.instrs,
                i as nat,
            ),
        decreases code.instrs.len() - i,
    {
        let ghost before = f@;
        let pos = f.push_instr(code.instrs[i].duplicate());
        proof {
            assert(views(f.cur@).take(pos as int) =~= before.cur);
        }
        if !instr_check(&f.slots, &f.params, &f.cur, pos) {
            return Err(EmitError::malformed(node, Malformation::BadLowering));
        }
        i += 1;
    }
    let mut vals = Values::new();
    let mut k: usize = 0;
    while k < code.outputs.len()
        invariant
            k <= code.outputs.len(),
            f.wf(),
            vals.operands@.len() == vals.types@.len(),
            typed_from(
                append_checked_from(old(f)@, node, code@.instrs, 0)->Ok_0,
                node,
                code@.outputs,
                0,
                ValuesView::empty(),
            ) == typed_from(f@, node, code@.outputs, k as nat, vals@),
            append_checked_from(old(f)@, node, code@.instrs, 0) == Ok::<FuncState, EmitErrorView>(f@),
        decreases code.outputs.len() - k,
    {
        proof {
            assert(views(f.cur@).take(f.cur@.len() as int) =~= f@.cur);
        }
        match operand_type(&f.params, &f.cur, f.cur.len(), &code.outputs[k]) {
            None => {
                return Err(EmitError::malformed(node, Malformation::BadLowering));
            },
            Some(t) => {
                vals.push(code.outputs[k].duplicate(), t);
            },
        }
        k += 1;
    }
    Ok(vals)
}

} // verus!

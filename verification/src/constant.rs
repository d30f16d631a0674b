//! Constant lowering: from graph-IR literals to target literals.
use vstd::prelude::*;
use crate::layout::tag_width;
use crate::layout::discriminant_bits;
use crate::ir::Constant;
use crate::ir::ConstantView;
use crate::ir::constants_view;
use crate::ir::lemma_constants_view;
use crate::ops::Value;
use crate::extension::ExtensionLowering;
use crate::extension::ExtensionOpRegistry;
use crate::extension::Registration;
use crate::extension::find;
use crate::error::EmitError;
use crate::error::EmitErrorView;
use crate::error::Malformation;

verus! {

/// The literals of the values of `vs` from position `i` on, appended to
/// `acc`; the first value without a literal decides the error.
pub open spec fn lower_values_from<L: ExtensionLowering>(
    table: Seq<Registration<L>>,
    vs: Vec<Value>,
    node: usize,
    i: nat,
    acc: Seq<ConstantView>,
) -> Result<Seq<ConstantView>, EmitErrorView>
    decreases vs, vs.len() - i,
{
    if i >= vs.len() {
        Ok(acc)
    } else {
        match lower_value(table, vs[i as int], node) {
            Err(e) => Err(e),
            Ok(c) => lower_values_from(table, vs, node, i + 1, acc.push(c)),
        }
    }
}

/// The target literal of a constant that the node `node` loads, under the
/// constant lowerings of `table`.
///
/// A tuple becomes the aggregate of its fields' literals. The variant
/// `tag` of a sum of `arity` variants without fields becomes the integer
/// `tag` of `tag_width(arity)` bits: the discriminant alone. An opaque
/// constant becomes what its extension's registered lowering makes of it.
pub open spec fn lower_value<L: ExtensionLowering>(table: Seq<Registration<L>>, v: Value, node: usize) -> Result<
    ConstantView,
    EmitErrorView,
>
    decreases v, 0nat,
{
    match v {
        Value::UnitSum { tag, arity } => if tag < arity {
            Ok(ConstantView::Int(tag_width(arity as nat) as u32, tag as u64))
        } else {
            Err(EmitErrorView::Malformed(node, Malformation::BadTag))
        },
        Value::Tuple(vs) => match lower_values_from(table, vs, node, 0, Seq::empty()) {
            Err(e) => Err(e),
            Ok(cs) => Ok(ConstantView::Struct(cs)),
        },
        Value::Extension(c) => match find(table, c.extension@, c.name@) {
            None => Err(EmitErrorView::UnsupportedConstant(c.extension@, c.name@)),
            Some(i) => match table[i].lowering.constant(c@) {
                None => Err(EmitErrorView::UnsupportedConstant(c.extension@, c.name@)),
                Some(k) => Ok(k),
            },
        },
    }
}

/// The model of the result of lowering a constant.
pub open spec fn constant_result(r: Result<Constant, EmitError>) -> Result<ConstantView, EmitErrorView> {
    match r {
        Ok(c) => Ok(c@),
        Err(e) => Err(e@),
    }
}

/// The model of the result of lowering a list of constants.
pub open spec fn constants_result(r: Result<Vec<Constant>, EmitError>) -> Result<
    Seq<ConstantView>,
    EmitErrorView,
> {
    match r {
        Ok(c) => Ok(constants_view(c)),
        Err(e) => Err(e@),
    }
}

/// Appends a literal to a list.
pub fn constants_push(cs: &mut Vec<Constant>, c: Constant)
    ensures
        final(cs)@ == old(cs)@.push(c),
        constants_view(*final(cs)) == constants_view(*old(cs)).push(c@),
{
    cs.push(c);
    proof {
        lemma_constants_view(*cs);
        lemma_constants_view(*old(cs));
        assert(constants_view(*cs) =~= constants_view(*old(cs)).push(c@));
    }
}

/// Lowers a list of constants.
#[verifier::loop_isolation(false)]
pub fn lower_constants<L: ExtensionLowering>(reg: &ExtensionOpRegistry<L>, vs: &Vec<Value>, node: usize) -> (r:
    Result<Vec<Constant>, EmitError>)
    ensures
        constants_result(r) == lower_values_from(reg.constants@, *vs, node, 0, Seq::empty()),
    decreases vs, 1nat,
{
    let mut out: Vec<Constant> = Vec::new();
    assert(constants_view(out) =~= Seq::empty());
    let mut i: usize = 0;
    while i < vs.len()
        invariant
            i <= vs.len(),
            lower_values_from(reg.constants@, *vs, node, 0, Seq::empty()) == lower_values_from(
                reg.constants@,
                *vs,
                node,
                i as nat,
                constants_view(out),
            ),
        decreases vs.len() - i,
    {
        match lower_constant(reg, &vs[i], node) {
            Err(e) => {
                return Err(e);
            },
            Ok(c) => {
                constants_push(&mut out, c);
            },
        }
        i += 1;
    }
    Ok(out)
}

/// Lowers a constant: a pure function of the constant and of the
/// registered constant lowerings.
pub fn lower_constant<L: ExtensionLowering>(reg: &ExtensionOpRegistry<L>, v: &Value, node: usize) -> (r: Result<
    Constant,
    EmitError,
>)
    ensures
        constant_result(r) == lower_value(reg.constants@, *v, node),
    decreases v, 0nat,
{
    match v {
        Value::UnitSum { tag, arity } => {
            if *tag < *arity {
                Ok(Constant::Int { bits: discriminant_bits(*arity), value: *tag as u64 })
            } else {
                Err(EmitError::malformed(node, Malformation::BadTag))
            }
        },
        Value::Tuple(vs) => match lower_constants(reg, vs, node) {
            Err(e) => Err(e),
            Ok(cs) => Ok(Constant::Struct(cs)),
        },
        Value::Extension(c) => match reg.resolve_constant(&c.extension, &c.name) {
            Err(e) => Err(e),
            Ok(lowering) => match lowering.lower_constant(c) {
                None => Err(
                    EmitError::UnsupportedConstant { extension: c.extension.clone(), name: c.name.clone() },
                ),
                Some(k) => Ok(k),
            },
        },
    }
}

} // verus!

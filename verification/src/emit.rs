//! Emission of functions and modules.
use vstd::prelude::*;
use crate::layout::Layout;
use crate::layout::TargetType;
use crate::layout::row_view;
use crate::layout::row_same;
use crate::layout::lemma_row_view;
use crate::ir::views;
use crate::ir::lemma_views_push;
use crate::ir::Operand;
use crate::ir::OperandView;
use crate::ir::Instr;
use crate::ir::InstrView;
use crate::ir::Terminator;
use crate::ir::TerminatorView;
use crate::ir::Function;
use crate::ir::FunctionView;
use crate::ir::Module;
use crate::ir::ModuleView;
use crate::types::type_row_view;
use crate::ops::OpType;
use crate::hugr::Hugr;
use crate::extension::ExtensionLowering;
use crate::extension::ExtensionOpRegistry;
use crate::convert::convert_row;
use crate::context::EmitContext;
use crate::state::FuncState;
use crate::state::FuncEmitter;
use crate::state::Values;
use crate::state::ValuesView;
use crate::region::region_code;
use crate::region::child_of;
use crate::region::first_listing;
use crate::region::is_first_listing;
use crate::region::boundary_ok;
use crate::region::check_boundary;
use crate::region::emit_region;
use crate::error::EmitError;
use crate::error::EmitErrorView;
use crate::error::Malformation;
use crate::text::module_text;
use crate::valid::law_gate_never_closes;
use crate::success::law_success_is_owed;
use crate::wellformed::graph_ok;
use crate::fat::FatNode;
use crate::fat::OpTag;

verus! {

/// What a function returns: its one result, or else the aggregate of its
/// results.
pub open spec fn return_layout(results: Seq<Layout>) -> Layout {
    if results.len() == 1 {
        results[0]
    } else {
        Layout::Struct(results)
    }
}

/// The parameters of a function as values.
pub open spec fn param_values(params: Seq<Layout>) -> ValuesView {
    ValuesView { operands: Seq::new(params.len(), |i: int| OperandView::Param(i as nat)), layouts: params }
}

/// Ends the function: the values of the body's outputs are returned.
pub open spec fn finish(st: FuncState, name: Seq<char>, results: Seq<Layout>, outs: ValuesView) -> FunctionView {
    let ret = return_layout(results);
    let st2 = if results.len() == 1 {
        st.close(TerminatorView::Ret(outs.operands[0]))
    } else {
        st.push(InstrView::MakeStruct { ty: ret, fields: outs.operands }).close(
            TerminatorView::Ret(OperandView::Local(st.cur.len())),
        )
    };
    FunctionView { name, params: st.params, ret, slots: st2.slots, blocks: st2.blocks }
}

/// The target function of the function definition `fnode`: its signature
/// is the converted signature of the definition, its body is the
/// definition's region emitted with the parameters as inputs, and it
/// returns the values of the region's outputs. The definition must be a
/// child of the root, and its region must declare the types of the
/// signature as its inputs and outputs.
pub open spec fn function_code<L: ExtensionLowering>(reg: ExtensionOpRegistry<L>, h: Hugr, fnode: usize) -> Result<
    FunctionView,
    EmitErrorView,
> {
    if !child_of(h, 0, fnode) {
        Err(EmitErrorView::Malformed(fnode, Malformation::BadNode))
    } else {
        match h.nodes[fnode as int].op {
            OpType::FuncDefn { name, signature } => match convert_row(
                reg.types@,
                type_row_view(signature.input),
            ) {
                Err(e) => Err(e),
                Ok(params) => match convert_row(reg.types@, type_row_view(signature.output)) {
                    Err(e) => Err(e),
                    Ok(results) => if !boundary_ok(
                        h,
                        fnode,
                        type_row_view(signature.input),
                        type_row_view(signature.output),
                    ) {
                        Err(EmitErrorView::Malformed(fnode, Malformation::TypeMismatch))
                    } else {
                        match region_code(
                        reg,
                        h,
                        FuncState::start(params, h.nodes@.len()),
                        fnode,
                        param_values(params),
                    ) {
                        Err(e) => Err(e),
                        Ok((st, outs)) => if outs.layouts != results || outs.operands.len() != results.len() {
                            Err(EmitErrorView::Malformed(fnode, Malformation::TypeMismatch))
                        } else {
                            Ok(finish(st, name@, results, outs))
                        },
                    }
                    },
                },
            },
            _ => Err(EmitErrorView::Malformed(fnode, Malformation::UnexpectedOp)),
        }
    }
}

/// The functions of the definitions `children` from position `i` on,
/// appended to `acc`. No definition may be listed twice.
pub open spec fn functions_code_from<L: ExtensionLowering>(
    reg: ExtensionOpRegistry<L>,
    h: Hugr,
    children: Seq<usize>,
    i: nat,
    acc: Seq<FunctionView>,
) -> Result<Seq<FunctionView>, EmitErrorView>
    decreases children.len() - i,
{
    if i >= children.len() {
        Ok(acc)
    } else if !first_listing(children, i) {
        Err(EmitErrorView::Malformed(children[i as int], Malformation::BadNode))
    } else {
        match function_code(reg, h, children[i as int]) {
            Err(e) => Err(e),
            Ok(f) => functions_code_from(reg, h, children, i + 1, acc.push(f)),
        }
    }
}

/// The target module of a graph before the verification gate: one
/// function for each child of the root, in sibling order.
pub open spec fn module_draft<L: ExtensionLowering>(reg: ExtensionOpRegistry<L>, h: Hugr) -> Result<
    ModuleView,
    EmitErrorView,
> {
    if h.nodes@.len() == 0 {
        Err(EmitErrorView::Malformed(0, Malformation::BadNode))
    } else if !(h.nodes[0].op is Module) {
        Err(EmitErrorView::Malformed(0, Malformation::UnexpectedOp))
    } else {
        match functions_code_from(reg, h, h.nodes[0].children@, 0, Seq::empty()) {
            Err(e) => Err(e),
            Ok(fs) => Ok(ModuleView { functions: fs }),
        }
    }
}

/// The target module of a graph under the lowerings of `reg`: the draft,
/// if it passes structural verification.
pub open spec fn module_code<L: ExtensionLowering>(reg: ExtensionOpRegistry<L>, h: Hugr) -> Result<
    ModuleView,
    EmitErrorView,
> {
    match module_draft(reg, h) {
        Err(e) => Err(e),
        Ok(m) => if m.valid() {
            Ok(m)
        } else {
            Err(EmitErrorView::InvalidModule)
        },
    }
}

/// The model of the result of emitting a function.
pub open spec fn function_result(r: Result<Function, EmitError>) -> Result<FunctionView, EmitErrorView> {
    match r {
        Ok(f) => Ok(f@),
        Err(e) => Err(e@),
    }
}

/// The model of the result of emitting a module.
pub open spec fn module_result(r: Result<Module, EmitError>) -> Result<ModuleView, EmitErrorView> {
    match r {
        Ok(m) => Ok(m@),
        Err(e) => Err(e@),
    }
}

/// The parameters of a function as values.
pub fn make_param_values(params: &Vec<TargetType>) -> (r: Values)
    ensures
        r@ == param_values(row_view(*params)),
        r.operands@.len() == r.types@.len(),
{
    let mut vals = Values::new();
    let mut i: usize = 0;
    proof {
        lemma_row_view(*params);
    }
    while i < params.len()
        invariant
            i <= params.len(),
            vals.operands@.len() == i,
            vals.types@.len() == i,
            vals@.operands.len() == i,
            vals@.layouts.len() == i,
            forall|k: int| 0 <= k < i ==> #[trigger] vals@.operands[k] == OperandView::Param(k as nat),
            forall|k: int| 0 <= k < i ==> #[trigger] vals@.layouts[k] == row_view(*params)[k],
        decreases params.len() - i,
    {
        vals.push(Operand::Param(i), params[i].duplicate());
        i += 1;
    }
    proof {
        assert(vals@.operands =~= param_values(row_view(*params)).operands);
        assert(vals@.layouts =~= row_view(*params));
    }
    vals
}

impl<L: ExtensionLowering> EmitContext<L> {
    /// Emits the function definition `fnode` as one target function.
    pub fn emit_func(&mut self, h: &Hugr, fnode: usize) -> (r: Result<Function, EmitError>)
        requires
            old(self).wf(),
        ensures
            final(self).wf(),
            final(self).registry == old(self).registry,
            function_result(r) == function_code(old(self).registry, *h, fnode),
    {
        if fnode == 0 || fnode >= h.nodes.len() || h.nodes[fnode].parent != 0 {
            return Err(EmitError::malformed(fnode, Malformation::BadNode));
        }
        match &h.nodes[fnode].op {
            OpType::FuncDefn { name, signature } => {
                let params = match self.convert_row(&signature.input) {
                    Err(e) => {
                        return Err(e);
                    },
                    Ok(params) => params,
                };
                let results = match self.convert_row(&signature.output) {
                    Err(e) => {
                        return Err(e);
                    },
                    Ok(results) => results,
                };
                if !check_boundary(h, fnode, &signature.input, &signature.output) {
                    return Err(EmitError::malformed(fnode, Malformation::TypeMismatch));
                }
                let inputs = make_param_values(&params);
                let mut f = FuncEmitter::new(params, h.nodes.len());
                let outs = match emit_region(self, h, &mut f, fnode, inputs) {
                    Err(e) => {
                        return Err(e);
                    },
                    Ok(outs) => outs,
                };
                proof {
                    lemma_row_view(results);
                    lemma_row_view(outs.types);
                }
                if !row_same(&outs.types, &results) || outs.operands.len() != results.len() {
                    return Err(EmitError::malformed(fnode, Malformation::TypeMismatch));
                }
                if results.len() == 1 {
                    let ret = results[0].duplicate();
                    f.close_block(Terminator::Ret(outs.operands[0].duplicate()));
                    Ok(f.into_function(name.clone(), ret))
                } else {
                    let ret = TargetType::Struct(results);
                    let pos = f.push_instr(Instr::MakeStruct { ty: ret.duplicate(), fields: outs.operands });
                    f.close_block(Terminator::Ret(Operand::Local(pos)));
                    Ok(f.into_function(name.clone(), ret))
                }
            },
            _ => Err(EmitError::malformed(fnode, Malformation::UnexpectedOp)),
        }
    }

    /// Emits every function definition of the graph, in sibling order.
    #[verifier::loop_isolation(false)]
    pub fn emit_functions(&mut self, h: &Hugr) -> (r: Result<Module, EmitError>)
        requires
            old(self).wf(),
        ensures
            final(self).wf(),
            final(self).registry == old(self).registry,
            module_result(r) == module_draft(old(self).registry, *h),
    {
        if h.nodes.len() == 0 {
            return Err(EmitError::malformed(0, Malformation::BadNode));
        }
        match &h.nodes[0].op {
            OpType::Module => {},
            _ => {
                return Err(EmitError::malformed(0, Malformation::UnexpectedOp));
            },
        }
        let children = &h.nodes[0].children;
        let mut functions: Vec<Function> = Vec::new();
        assert(views(functions@) =~= Seq::empty());
        let mut i: usize = 0;
        while i < children.len()
            invariant
                i <= children.len(),
                self.wf(),
                self.registry == old(self).registry,
                functions_code_from(old(self).registry, *h, children@, 0, Seq::empty()) == functions_code_from(
                    old(self).registry,
                    *h,
                    children@,
                    i as nat,
                    views(functions@),
                ),
            decreases children.len() - i,
        {
            if !is_first_listing(children, i) {
                return Err(EmitError::malformed(children[i], Malformation::BadNode));
            }
            match self.emit_func(h, children[i]) {
                Err(e) => {
                    return Err(e);
                },
                Ok(f) => {
                    proof {
                        lemma_views_push(functions@, f);
                    }
                    functions.push(f);
                },
            }
            i += 1;
        }
        Ok(Module { functions })
    }

    /// Emits the module of a graph and puts it through the verification
    /// gate: a module is returned only if it is structurally valid.
    ///
    /// The result is a function of the graph and of the registry alone.
    /// What is built is valid by construction, so the result is what was
    /// built: one function for each function definition of the graph.
    /// On a well-formed graph that uses no extension, emission succeeds.
    pub fn emit_module(&mut self, h: &Hugr) -> (r: Result<Module, EmitError>)
        requires
            old(self).wf(),
        ensures
            final(self).wf(),
            final(self).registry == old(self).registry,
            module_result(r) == module_code(old(self).registry, *h),
            module_result(r) == module_draft(old(self).registry, *h),
            r matches Ok(m) ==> m@.valid(),
            graph_ok(*h) ==> r is Ok,
    {
        proof {
            law_gate_never_closes(self.registry, *h);
            if graph_ok(*h) {
                law_success_is_owed(self.registry, *h);
            }
        }
        match self.emit_functions(h) {
            Err(e) => Err(e),
            Ok(m) => {
                if m.verify() {
                    Ok(m)
                } else {
                    Err(EmitError::InvalidModule)
                }
            },
        }
    }

    /// Emits the module whose root the handle names.
    pub fn emit_module_at(&mut self, root: &FatNode<'_>) -> (r: Result<Module, EmitError>)
        requires
            old(self).wf(),
            root.expected() == OpTag::Module,
            root.index() == 0,
        ensures
            final(self).wf(),
            final(self).registry == old(self).registry,
            module_result(r) == module_code(old(self).registry, root.graph()),
            module_result(r) == module_draft(old(self).registry, root.graph()),
            r matches Ok(m) ==> m@.valid(),
            graph_ok(root.graph()) ==> r is Ok,
    {
        self.emit_module(root.hugr())
    }
}

/// Determinism: two emissions of the same graph under the same registry
/// end alike, and where they yield modules, the modules have the same
/// text, character for character.
pub proof fn law_emission_is_deterministic<L: ExtensionLowering>(
    reg: ExtensionOpRegistry<L>,
    h: Hugr,
    first: Result<Module, EmitError>,
    second: Result<Module, EmitError>,
)
    requires
        module_result(first) == module_code(reg, h),
        module_result(second) == module_code(reg, h),
    ensures
        module_result(first) == module_result(second),
        first matches Ok(m1) ==> second matches Ok(m2) && m1@ == m2@ && module_text(m1@) == module_text(m2@),
{
}

/// The verification gate: what emission yields is structurally valid.
pub proof fn law_emitted_is_valid<L: ExtensionLowering>(reg: ExtensionOpRegistry<L>, h: Hugr)
    ensures
        module_code(reg, h) matches Ok(m) ==> m.valid(),
{
}

} // verus!

//! A short way to a graph with one function, `main`.
use vstd::prelude::*;
use vstd::pervasive::unreached;
use crate::types::Type;
use crate::types::TypeView;
use crate::types::FunctionType;
use crate::types::type_row_view;
use crate::ops::OpType;
use crate::hugr::Hugr;
use crate::builder::ExtensionRegistry;
use crate::builder::ModuleBuilder;
use crate::builder::DfgBuilder;
use crate::builder::is_container;
use crate::builder::is_node;
use crate::hugr::Wire;
use crate::wellformed::graph_valid;
use crate::extension::ExtensionLowering;
use crate::extension::ExtensionOpRegistry;
use crate::emit::module_code;
use crate::extensional::law_equal_graphs_equal_code;

verus! {

/// The description of a graph with one function, `main`: the types of the
/// function's inputs and outputs, and the extensions that it may use.
pub struct SimpleHugrConfig {
    pub ins: Vec<Type>,
    pub outs: Vec<Type>,
    pub extensions: ExtensionRegistry,
}

/// Whether `b` is the builder of the body of a function `main` from
/// `ins` to `outs`, in a module that holds nothing else, with nothing
/// built yet: the root, the definition, its input node and its output
/// node, each with its operation, its parent, its children and no wires.
pub open spec fn is_main(b: DfgBuilder, ins: Seq<TypeView>, outs: Seq<TypeView>) -> bool {
    &&& b.wf()
    &&& b.open@ == seq![1usize]
    &&& b.hugr.nodes@.len() == 4
    &&& b.hugr.nodes[0].op is Module
    &&& is_node(b.hugr.nodes[0], 0, seq![1usize], Seq::empty())
    &&& b.hugr.nodes[1].inputs@ == Seq::<Wire>::empty()
    &&& b.hugr.nodes[1].op matches OpType::FuncDefn { name, signature }
    &&& name@ == "main"@
    &&& type_row_view(signature.input) == ins
    &&& type_row_view(signature.output) == outs
    &&& is_container(b.hugr.nodes@, 1, 0, ins, outs)
}

/// Whether building has ended on `b` with a graph that passes validation
/// against `extensions`: every container is closed, every extension that
/// the graph names is registered, and the graph is a well-formed module.
pub open spec fn finished(b: DfgBuilder, extensions: ExtensionRegistry) -> bool {
    &&& b.open@.len() == 0
    &&& b.extensions_known(extensions)
    &&& graph_valid(b.hugr, extensions.names@)
}

/// The builder that `make` gets is fixed by the rows of the function: any
/// two builders of `main` for the same rows hold graphs with the same
/// model, and have the same container open.
pub proof fn law_main_is_fixed(a: DfgBuilder, b: DfgBuilder, ins: Seq<TypeView>, outs: Seq<TypeView>)
    requires
        is_main(a, ins, outs),
        is_main(b, ins, outs),
    ensures
        a.hugr@ == b.hugr@,
        a.open@ == b.open@,
{
    assert forall|i: int| 0 <= i < 4 implies a.hugr.nodes@[i]@ == b.hugr.nodes@[i]@ by {
        if i == 0 {
        } else if i == 1 {
        } else if i == 2 {
        } else {
        }
    }
    assert(a.hugr@ =~= b.hugr@);
}

/// Whether `r` is a graph that `finish` may return for the body that
/// `make` builds in a function `main` from `ins` to `outs`.
pub open spec fn built<F: FnOnce(DfgBuilder) -> DfgBuilder>(make: F, ins: Seq<TypeView>, outs: Seq<TypeView>, r: Hugr) -> bool {
    exists|b: DfgBuilder, done: DfgBuilder| is_main(b, ins, outs) && #[trigger] make.ensures((b,), done) && r == done.hugr
}

/// Whether `make` builds alike on builders that are alike: from graphs
/// with one model and the same open containers it leaves graphs with one
/// model.
pub open spec fn builds_alike<F: FnOnce(DfgBuilder) -> DfgBuilder>(make: F) -> bool {
    forall|x: DfgBuilder, y: DfgBuilder, p: DfgBuilder, q: DfgBuilder|
        x.hugr@ == y.hugr@ && x.open@ == y.open@ && #[trigger] make.ensures((x,), p) && #[trigger] make.ensures(
            (y,),
            q,
        ) ==> p.hugr@ == q.hugr@
}

/// Two graphs that are built for the same rows by a `make` that builds
/// alike have one model, and so the same code.
pub proof fn law_finish_builds_one_graph<F: FnOnce(DfgBuilder) -> DfgBuilder, L: ExtensionLowering>(
    make: F,
    ins: Seq<TypeView>,
    outs: Seq<TypeView>,
    r1: Hugr,
    r2: Hugr,
    reg: ExtensionOpRegistry<L>,
)
    requires
        builds_alike(make),
        built(make, ins, outs, r1),
        built(make, ins, outs, r2),
    ensures
        r1@ == r2@,
        module_code(reg, r1) == module_code(reg, r2),
{
    let (x, p) = choose|b: DfgBuilder, done: DfgBuilder|
        is_main(b, ins, outs) && #[trigger] make.ensures((b,), done) && r1 == done.hugr;
    let (y, q) = choose|b: DfgBuilder, done: DfgBuilder|
        is_main(b, ins, outs) && #[trigger] make.ensures((b,), done) && r2 == done.hugr;
    law_main_is_fixed(x, y, ins, outs);
    law_equal_graphs_equal_code(reg, r1, r2);
}

/// Whether `r` is a graph that `finish_with_exts` may return for the body
/// that `make` builds, given the extensions `extensions`, in a function
/// `main` from `ins` to `outs`.
pub open spec fn built_with<F: FnOnce(DfgBuilder, &ExtensionRegistry) -> DfgBuilder>(
    make: F,
    extensions: ExtensionRegistry,
    ins: Seq<TypeView>,
    outs: Seq<TypeView>,
    r: Hugr,
) -> bool {
    exists|b: DfgBuilder, done: DfgBuilder|
        is_main(b, ins, outs) && #[trigger] make.ensures((b, &extensions), done) && r == done.hugr
}

/// `finish` is `finish_with_exts` for a `make` that leaves the extensions
/// aside: where `with` builds from a builder and the extensions what
/// `make` builds from the builder alone, the two return the same graphs.
pub proof fn law_finish_leaves_extensions_aside<
    F: FnOnce(DfgBuilder) -> DfgBuilder,
    G: FnOnce(DfgBuilder, &ExtensionRegistry) -> DfgBuilder,
>(make: F, with: G, extensions: ExtensionRegistry, ins: Seq<TypeView>, outs: Seq<TypeView>, r: Hugr)
    requires
        forall|b: DfgBuilder, done: DfgBuilder|
            #[trigger] with.ensures((b, &extensions), done) <==> #[trigger] make.ensures((b,), done),
    ensures
        built_with(with, extensions, ins, outs, r) <==> built(make, ins, outs, r),
{
    if built_with(with, extensions, ins, outs, r) {
        let (b, done) = choose|b: DfgBuilder, done: DfgBuilder|
            is_main(b, ins, outs) && #[trigger] with.ensures((b, &extensions), done) && r == done.hugr;
        assert(make.ensures((b,), done));
    }
    if built(make, ins, outs, r) {
        let (b, done) = choose|b: DfgBuilder, done: DfgBuilder|
            is_main(b, ins, outs) && #[trigger] make.ensures((b,), done) && r == done.hugr;
        assert(with.ensures((b, &extensions), done));
    }
}

/// Starts the function `main`.
fn start_main(ins: Vec<Type>, outs: Vec<Type>) -> (b: DfgBuilder)
    ensures
        is_main(b, type_row_view(ins), type_row_view(outs)),
{
    let module = ModuleBuilder::new();
    let b = module.define_function(String::from_str("main"), FunctionType::new(ins, outs));
    assert(b.hugr.nodes[0].children@ =~= seq![1usize]);
    b
}

/// The graph of a builder on which building is known to have ended.
fn end_main(b: DfgBuilder, extensions: &ExtensionRegistry) -> (h: Hugr)
    requires
        finished(b, *extensions),
    ensures
        h == b.hugr,
        graph_valid(h, extensions.names@),
{
    match b.finish_hugr(extensions) {
        Ok(h) => h,
        Err(_) => unreached(),
    }
}

impl SimpleHugrConfig {
    /// The description of a function without inputs and outputs that uses
    /// no extension.
    pub fn new() -> (r: Self)
        ensures
            r.ins@.len() == 0,
            r.outs@.len() == 0,
            r.extensions.names@.len() == 0,
    {
        SimpleHugrConfig { ins: Vec::new(), outs: Vec::new(), extensions: ExtensionRegistry::new() }
    }

    /// The same with the given inputs.
    pub fn with_ins(self, ins: Vec<Type>) -> (r: Self)
        ensures
            r.ins == ins,
            r.outs == self.outs,
            r.extensions == self.extensions,
    {
        let mut r = self;
        r.ins = ins;
        r
    }

    /// The same with the given outputs.
    pub fn with_outs(self, outs: Vec<Type>) -> (r: Self)
        ensures
            r.ins == self.ins,
            r.outs == outs,
            r.extensions == self.extensions,
    {
        let mut r = self;
        r.outs = outs;
        r
    }

    /// The same with the given extensions.
    pub fn with_extensions(self, extensions: ExtensionRegistry) -> (r: Self)
        ensures
            r.ins == self.ins,
            r.outs == self.outs,
            r.extensions == extensions,
    {
        let mut r = self;
        r.extensions = extensions;
        r
    }

    /// The graph whose one function `main` has the body that `make`
    /// builds. `make` gets the builder of the body, and returns it when
    /// the body is finished. The graph is validated against the
    /// extensions of the description; `make` must leave a graph that
    /// passes.
    pub fn finish<F: FnOnce(DfgBuilder) -> DfgBuilder>(self, make: F) -> (r: Hugr)
        requires
            forall|b: DfgBuilder|
                is_main(b, type_row_view(self.ins), type_row_view(self.outs)) ==> #[trigger] make.requires((b,)),
            forall|b: DfgBuilder, done: DfgBuilder|
                is_main(b, type_row_view(self.ins), type_row_view(self.outs)) && #[trigger] make.ensures(
                    (b,),
                    done,
                ) ==> finished(done, self.extensions),
        ensures
            built(make, type_row_view(self.ins), type_row_view(self.outs), r),
            graph_valid(r, self.extensions.names@),
    {
        let b = start_main(self.ins, self.outs);
        let done = make(b);
        end_main(done, &self.extensions)
    }

    /// The same, where `make` also gets the extensions.
    pub fn finish_with_exts<F: FnOnce(DfgBuilder, &ExtensionRegistry) -> DfgBuilder>(self, make: F) -> (r: Hugr)
        requires
            forall|b: DfgBuilder|
                is_main(b, type_row_view(self.ins), type_row_view(self.outs)) ==> #[trigger] make.requires(
                    (b, &self.extensions),
                ),
            forall|b: DfgBuilder, done: DfgBuilder|
                is_main(b, type_row_view(self.ins), type_row_view(self.outs)) && #[trigger] make.ensures(
                    (b, &self.extensions),
                    done,
                ) ==> finished(done, self.extensions),
        ensures
            built_with(make, self.extensions, type_row_view(self.ins), type_row_view(self.outs), r),
            graph_valid(r, self.extensions.names@),
    {
        let b = start_main(self.ins, self.outs);
        let done = make(b, &self.extensions);
        end_main(done, &self.extensions)
    }
}

} // verus!

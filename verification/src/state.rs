//! The state of a function under emission: its stack slots, the blocks
//! that are closed, the block that is open, and where the outputs of each
//! node of the graph are bound.
use vstd::prelude::*;
use crate::layout::Layout;
use crate::layout::TargetType;
use crate::layout::row_view;
use crate::layout::row_push;
use crate::layout::row_new;
use crate::layout::lemma_row_view;
use crate::ir::views;
use crate::ir::lemma_views_push;
use crate::ir::Operand;
use crate::ir::OperandView;
use crate::ir::Instr;
use crate::ir::InstrView;
use crate::ir::Terminator;
use crate::ir::TerminatorView;
use crate::ir::Block;
use crate::ir::BlockView;
use crate::ir::Function;
use crate::ir::FunctionView;

verus! {

/// Values with their layouts: what a node reads, or what it yields.
pub struct Values {
    pub operands: Vec<Operand>,
    pub types: Vec<TargetType>,
}

/// The model of `Values`.
pub struct ValuesView {
    pub operands: Seq<OperandView>,
    pub layouts: Seq<Layout>,
}

impl View for Values {
    type V = ValuesView;

    open spec fn view(&self) -> ValuesView {
        ValuesView { operands: views(self.operands@), layouts: row_view(self.types) }
    }
}

impl ValuesView {
    /// No values.
    pub open spec fn empty() -> ValuesView {
        ValuesView { operands: Seq::empty(), layouts: Seq::empty() }
    }

    /// These values and one more.
    pub open spec fn push(self, v: OperandView, l: Layout) -> ValuesView {
        ValuesView { operands: self.operands.push(v), layouts: self.layouts.push(l) }
    }
}

impl Values {
    /// No values.
    pub fn new() -> (r: Values)
        ensures
            r@ == ValuesView::empty(),
            r.operands@.len() == 0,
            r.types@.len() == 0,
    {
        let r = Values { operands: Vec::new(), types: row_new() };
        assert(views(r.operands@) =~= Seq::empty());
        r
    }

    /// Adds a value.
    pub fn push(&mut self, v: Operand, t: TargetType)
        ensures
            final(self)@ == old(self)@.push(v@, t@),
            final(self).operands@.len() == old(self).operands@.len() + 1,
            final(self).types@.len() == old(self).types@.len() + 1,
    {
        proof {
            lemma_views_push(self.operands@, v);
        }
        self.operands.push(v);
        row_push(&mut self.types, t);
    }
}

/// The model of the state of a function under emission.
pub struct FuncState {
    /// The layouts of the function's parameters.
    pub params: Seq<Layout>,
    /// The layouts of the stack slots allocated so far.
    pub slots: Seq<Layout>,
    /// The blocks that are closed.
    pub blocks: Seq<BlockView>,
    /// The instructions of the open block, whose index is `blocks.len()`.
    pub cur: Seq<InstrView>,
    /// For each node of the graph, the first of the slots that hold its
    /// outputs, once the node is emitted.
    pub bound: Seq<Option<nat>>,
}

impl FuncState {
    /// The state before anything is emitted.
    pub open spec fn start(params: Seq<Layout>, nodes: nat) -> FuncState {
        FuncState {
            params,
            slots: Seq::empty(),
            blocks: Seq::empty(),
            cur: Seq::empty(),
            bound: Seq::new(nodes, |i: int| None::<nat>),
        }
    }

    /// Appends an instruction to the open block.
    pub open spec fn push(self, i: InstrView) -> FuncState {
        FuncState { cur: self.cur.push(i), ..self }
    }

    /// Allocates a stack slot.
    pub open spec fn with_slot(self, l: Layout) -> FuncState {
        FuncState { slots: self.slots.push(l), ..self }
    }

    /// Closes the open block and opens an empty one.
    pub open spec fn close(self, t: TerminatorView) -> FuncState {
        FuncState { blocks: self.blocks.push(BlockView { instrs: self.cur, term: t }), cur: Seq::empty(), ..self }
    }

    /// Replaces the terminator of a closed block; without effect where
    /// `b` is no closed block.
    pub open spec fn retarget(self, b: int, t: TerminatorView) -> FuncState {
        if 0 <= b < self.blocks.len() {
            FuncState {
                blocks: self.blocks.update(b, BlockView { instrs: self.blocks[b].instrs, term: t }),
                ..self
            }
        } else {
            self
        }
    }

    /// Binds the outputs of a node to the slots from `slot` on; without
    /// effect where `node` is no node.
    pub open spec fn bind(self, node: int, slot: nat) -> FuncState {
        if 0 <= node < self.bound.len() {
            FuncState { bound: self.bound.update(node, Some(slot)), ..self }
        } else {
            self
        }
    }
}

/// A function under emission.
pub struct FuncEmitter {
    pub params: Vec<TargetType>,
    pub slots: Vec<TargetType>,
    pub bodies: Vec<Vec<Instr>>,
    pub terms: Vec<Terminator>,
    pub cur: Vec<Instr>,
    pub bound: Vec<Option<usize>>,
}

/// The model of the table of what is bound.
pub open spec fn bound_view(bound: Seq<Option<usize>>) -> Seq<Option<nat>> {
    Seq::new(
        bound.len(),
        |i: int|
            match bound[i] {
                Some(s) => Some(s as nat),
                None => None,
            },
    )
}

/// The model of the closed blocks.
pub open spec fn blocks_view(bodies: Seq<Vec<Instr>>, terms: Seq<Terminator>) -> Seq<BlockView> {
    Seq::new(bodies.len(), |i: int| BlockView { instrs: views(bodies[i]@), term: terms[i]@ })
}

impl View for FuncEmitter {
    type V = FuncState;

    open spec fn view(&self) -> FuncState {
        FuncState {
            params: row_view(self.params),
            slots: row_view(self.slots),
            blocks: blocks_view(self.bodies@, self.terms@),
            cur: views(self.cur@),
            bound: bound_view(self.bound@),
        }
    }
}

impl FuncEmitter {
    /// Whether each closed block has its terminator.
    pub open spec fn wf(&self) -> bool {
        self.bodies@.len() == self.terms@.len()
    }

    /// The emitter of a function with the given parameters, for a graph of
    /// `nodes` nodes.
    pub fn new(params: Vec<TargetType>, nodes: usize) -> (r: FuncEmitter)
        ensures
            r.wf(),
            r@ == FuncState::start(row_view(params), nodes as nat),
    {
        let mut bound: Vec<Option<usize>> = Vec::new();
        let mut i: usize = 0;
        while i < nodes
            invariant
                i <= nodes,
                bound@.len() == i,
                forall|k: int| 0 <= k < i ==> (#[trigger] bound@[k]) is None,
            decreases nodes - i,
        {
            bound.push(None);
            i += 1;
        }
        let r = FuncEmitter {
            params,
            slots: row_new(),
            bodies: Vec::new(),
            terms: Vec::new(),
            cur: Vec::new(),
            bound,
        };
        proof {
            assert(r@.blocks =~= Seq::empty());
            assert(r@.cur =~= Seq::empty());
            assert(r@.bound =~= Seq::new(nodes as nat, |i: int| None::<nat>));
        }
        r
    }

    /// Appends an instruction to the open block, and returns its position.
    pub fn push_instr(&mut self, i: Instr) -> (pos: usize)
        requires
            old(self).wf(),
        ensures
            final(self).wf(),
            final(self)@ == old(self)@.push(i@),
            pos == old(self)@.cur.len(),
            final(self).cur@ == old(self).cur@.push(i),
            final(self).params == old(self).params,
            final(self).slots == old(self).slots,
    {
        proof {
            lemma_views_push(self.cur@, i);
        }
        let pos = self.cur.len();
        self.cur.push(i);
        pos
    }

    /// Allocates a stack slot, and returns its index.
    pub fn alloc_slot(&mut self, t: TargetType) -> (slot: usize)
        requires
            old(self).wf(),
        ensures
            final(self).wf(),
            final(self)@ == old(self)@.with_slot(t@),
            slot == old(self)@.slots.len(),
    {
        let slot = self.slots.len();
        proof {
            lemma_row_view(self.slots);
        }
        row_push(&mut self.slots, t);
        slot
    }

    /// Closes the open block with a terminator, opens an empty block, and
    /// returns the index of the block that was closed.
    pub fn close_block(&mut self, t: Terminator) -> (index: usize)
        requires
            old(self).wf(),
        ensures
            final(self).wf(),
            final(self)@ == old(self)@.close(t@),
            index == old(self)@.blocks.len(),
    {
        let index = self.bodies.len();
        let mut body: Vec<Instr> = Vec::new();
        std::mem::swap(&mut body, &mut self.cur);
        self.bodies.push(body);
        self.terms.push(t);
        proof {
            assert(self@.blocks =~= old(self)@.close(t@).blocks);
            assert(self@.cur =~= Seq::empty());
        }
        index
    }

    /// Replaces the terminator of a closed block.
    pub fn retarget(&mut self, b: usize, t: Terminator)
        requires
            old(self).wf(),
        ensures
            final(self).wf(),
            final(self)@ == old(self)@.retarget(b as int, t@),
    {
        if b < self.terms.len() {
            self.terms.set(b, t);
            proof {
                assert(self@.blocks =~= old(self)@.retarget(b as int, t@).blocks);
            }
        }
    }

    /// Binds the outputs of a node to the slots from `slot` on.
    pub fn bind(&mut self, node: usize, slot: usize)
        requires
            old(self).wf(),
        ensures
            final(self).wf(),
            final(self)@ == old(self)@.bind(node as int, slot as nat),
    {
        if node < self.bound.len() {
            self.bound.set(node, Some(slot));
            proof {
                assert(self@.bound =~= old(self)@.bind(node as int, slot as nat).bound);
            }
        }
    }

    /// The function that has the closed blocks of this emitter.
    pub fn into_function(self, name: String, ret: TargetType) -> (r: Function)
        requires
            self.wf(),
        ensures
            r@ == (FunctionView {
                name: name@,
                params: self@.params,
                ret: ret@,
                slots: self@.slots,
                blocks: self@.blocks,
            }),
    {
        let blocks = blocks_of(self.bodies, self.terms);
        Function { name, params: self.params, ret, slots: self.slots, blocks }
    }
}

/// The blocks with the given bodies and terminators.
pub fn blocks_of(bodies: Vec<Vec<Instr>>, terms: Vec<Terminator>) -> (r: Vec<Block>)
    requires
        bodies@.len() == terms@.len(),
    ensures
        views(r@) == blocks_view(bodies@, terms@),
{
    let mut bodies = bodies;
    let mut terms = terms;
    let ghost want = blocks_view(bodies@, terms@);
    let mut back: Vec<Block> = Vec::new();
    // The blocks are taken from the back, and put in order afterwards.
    while bodies.len() > 0
        invariant
            bodies@.len() == terms@.len(),
            back@.len() + bodies@.len() == want.len(),
            forall|k: int|
                0 <= k < bodies@.len() ==> #[trigger] want[k] == (BlockView {
                    instrs: views(bodies@[k]@),
                    term: terms@[k]@,
                }),
            forall|k: int| 0 <= k < back@.len() ==> (#[trigger] back@[k])@ == want[want.len() - 1 - k],
        decreases bodies@.len(),
    {
        let instrs = bodies.pop().unwrap();
        let term = terms.pop().unwrap();
        back.push(Block { instrs, term });
    }
    let mut r: Vec<Block> = Vec::new();
    while back.len() > 0
        invariant
            r@.len() + back@.len() == want.len(),
            forall|k: int| 0 <= k < back@.len() ==> (#[trigger] back@[k])@ == want[want.len() - 1 - k],
            forall|k: int| 0 <= k < r@.len() ==> (#[trigger] r@[k])@ == want[k],
        decreases back@.len(),
    {
        let b = back.pop().unwrap();
        r.push(b);
    }
    assert(views(r@) =~= want);
    r
}

} // verus!

//! What the dispatch of an emitted conditional does when it runs: it
//! reads the sum value and goes on with the entry block of the variant
//! that the value holds.
use vstd::prelude::*;
use crate::layout::Layout;
use crate::ir::OperandView;
use crate::ir::InstrView;
use crate::ir::TerminatorView;
use crate::types::TypeView;
use crate::types::type_row_view;
use crate::types::type_rows_view;
use crate::types::lemma_type_row_view;
use crate::ops::OpType;
use crate::ops::op_outputs;
use crate::hugr::Hugr;
use crate::extension::ExtensionLowering;
use crate::extension::ExtensionOpRegistry;
use crate::convert::convert_type;
use crate::state::FuncState;
use crate::state::ValuesView;
use crate::wires::wire_slot;
use crate::wires::load_inputs;
use crate::wires::load_inputs_from;
use crate::wires::alloc_slots_from;
use crate::region::discriminant;
use crate::region::join;
use crate::region::cases_code_from;
use crate::region::conditional_code;
use crate::frame::lemma_load_grows;
use crate::frame::lemma_alloc_grows;
use crate::frame::lemma_discriminant_grows;
use crate::shape::is_end;
use crate::shape::case_laid;
use crate::shape::cases_laid;
use crate::shape::lemma_branch_all;
use crate::shape::lemma_cases_shape;
use crate::semantics::Val;
use crate::semantics::Frame;
use crate::semantics::step;
use crate::semantics::run;
use crate::semantics::next_block;
use crate::semantics::operand_value;
use crate::semantics::lemma_run_push;

verus! {

/// Whether `value` is a value of a sum of the layout `l` that holds
/// variant `i`: the integer `i` where no variant has a field, else a
/// tagged union with the discriminant `i`.
pub open spec fn holds_variant(l: Layout, value: Val, i: nat) -> bool {
    match l {
        Layout::Int(_) => value == Val::Int(i as int),
        Layout::Union(_, _) => value matches Val::Variant(tag, _) && tag == i,
        _ => false,
    }
}

/// What the block that dispatches a conditional runs after the
/// instructions `before` that were in it already.
pub open spec fn dispatch_code(before: Seq<InstrView>, instrs: Seq<InstrView>) -> Seq<InstrView> {
    instrs.subrange(before.len() as int, instrs.len() as int)
}

/// The dispatch of an emitted conditional reaches the case of the
/// variant: the block that was open when the conditional was emitted
/// keeps the instructions that it had and ends in a switch; and whenever
/// the slot of the sum wire holds a value of variant `i`, running what the
/// conditional added to that block goes on with entry `i` of the switch,
/// and changes no slot. The frame `f0` is the machine where the
/// instructions that the block had have run; it may hold slots that are
/// allocated later.
pub proof fn law_dispatch_reaches_case<L: ExtensionLowering>(
    reg: ExtensionOpRegistry<L>,
    h: Hugr,
    st: FuncState,
    c: usize,
    f0: Frame,
    i: nat,
)
    requires
        f0.locals.len() == st.cur.len(),
        f0.slots.len() >= st.slots.len(),
    ensures
        conditional_code(reg, h, st, c) matches Ok(done) ==> {
            let block = done.blocks[st.blocks.len() as int];
            let code = dispatch_code(st.cur, block.instrs);
            &&& st.blocks.len() < done.blocks.len()
            &&& h.nodes[c as int].inputs@.len() >= 1
            &&& wire_slot(h, st, h.nodes[c as int].inputs@[0]) matches Some(slot)
            &&& st.cur.len() <= block.instrs.len()
            &&& block.instrs.subrange(0, st.cur.len() as int) == st.cur
            &&& block.term matches TerminatorView::Switch(on, targets)
            &&& run(f0, code).slots == f0.slots
            &&& (i < targets.len() && holds_variant(st.slots[slot as int], f0.slots[slot as int], i) ==> next_block(
                run(f0, code),
                block.term,
            ) == Some(targets[i as int]))
        },
{
    match h.nodes[c as int].op {
        OpType::Conditional { sum_rows, other_inputs, outputs } => {
            let wires = h.nodes[c as int].inputs@;
            let children = h.nodes[c as int].children@;
            if wires.len() == 1 + other_inputs@.len() && children.len() == sum_rows@.len() && c < st.bound.len() {
                let ws = seq![wires[0]];
                let ts = seq![TypeView::Sum(type_rows_view(sum_rows))];
                lemma_load_grows(reg, h, st, c, ws, ts, 0, ValuesView::empty());
                match load_inputs(reg, h, st, c, ws, ts) {
                    Err(e) => {},
                    Ok((st1, v)) => {
                        let n = st.cur.len();
                        let slot = wire_slot(h, st, ws[0]).unwrap();
                        let l = convert_type(reg.types@, ts[0])->Ok_0;
                        let load = InstrView::Load { slot, ty: l };
                        let one = ValuesView::empty().push(OperandView::Local(n), l);
                        assert(load_inputs_from(reg, h, st.push(load), c, ws, ts, 1, one) == Ok::<
                            (FuncState, ValuesView),
                            crate::error::EmitErrorView,
                        >((st.push(load), one)));
                        assert(st1 == st.push(load));
                        assert(v == one);
                        lemma_discriminant_grows(st1, c, v);
                        match discriminant(st1, c, v) {
                            Err(e) => {},
                            Ok((st2, on)) => {
                                lemma_type_row_view(outputs);
                                lemma_alloc_grows(reg, st2, type_row_view(outputs), 0);
                                match alloc_slots_from(reg, st2, type_row_view(outputs), 0) {
                                    Err(e) => {},
                                    Ok(st3) => {
                                        let st4 = st3.close(TerminatorView::Unreachable);
                                        let base = st2.slots.len();
                                        let b = st3.blocks.len();
                                        let count = outputs@.len();
                                        let first = st4.blocks.len();
                                        assert(op_outputs(h.nodes[c as int].op).len() == count);
                                        assert(cases_laid(first, Seq::empty(), Seq::empty(), st4, base, count));
                                        lemma_cases_shape(reg, h, st4, c, base, 0, Seq::empty(), Seq::empty(), first);
                                        match cases_code_from(reg, h, st4, c, base, 0, Seq::empty(), Seq::empty()) {
                                            Err(e) => {},
                                            Ok(cases) => {
                                                let laid = cases.st;
                                                let targets = cases.targets;
                                                let ends = cases.ends;
                                                let m = laid.blocks.len();
                                                let switched = laid.retarget(
                                                    b as int,
                                                    TerminatorView::Switch(on, targets),
                                                );
                                                let joined = join(laid, b, on, targets, ends);
                                                let done = joined.bind(c as int, base);
                                                lemma_branch_all(switched, ends, m, 0);
                                                assert(laid.blocks[b as int] == st4.blocks[b as int]);
                                                assert forall|j: int| 0 <= j < ends.len() implies b < #[trigger] ends[j] by {
                                                    assert(case_laid(b + 1, targets, ends, laid, base, count, j));
                                                }
                                                assert(!is_end(ends, 0, b as int));
                                                let block = done.blocks[b as int];
                                                assert(block.instrs == switched.blocks[b as int].instrs);
                                                assert(block.instrs == st2.cur);
                                                assert(block.term == TerminatorView::Switch(on, targets));
                                                assert(block.instrs.subrange(0, n as int) =~= st.cur);
                                                let code = dispatch_code(st.cur, block.instrs);
                                                let none = Seq::<InstrView>::empty();
                                                lemma_run_push(f0, none, load);
                                                let f1 = step(f0, load);
                                                assert(run(f0, none) == f0);
                                                assert(operand_value(f1, OperandView::Local(n)) == f0.slots[slot as int]);
                                                match l {
                                                    Layout::Int(_) => {
                                                        assert(code =~= none.push(load));
                                                    },
                                                    Layout::Union(bits, _) => {
                                                        let get = InstrView::GetTag {
                                                            ty: Layout::Int(bits),
                                                            value: OperandView::Local(n),
                                                        };
                                                        lemma_run_push(f0, none.push(load), get);
                                                        assert(code =~= none.push(load).push(get));
                                                    },
                                                    _ => {},
                                                }
                                            },
                                        }
                                    },
                                }
                            },
                        }
                    },
                }
            }
        },
        _ => {},
    }
}

} // verus!

//! The region scheduler's order: the nodes of a region put so that each
//! follows the nodes it reads from.
use vstd::prelude::*;
use crate::hugr::Hugr;
use crate::hugr::Wire;

verus! {

/// Whether the outputs of `n` are bound once the nodes `chosen` are
/// emitted: `input` is the region's input node, bound from the start.
pub open spec fn is_done(input: usize, chosen: Seq<usize>, n: usize) -> bool {
    n == input || chosen.contains(n)
}

/// Whether every wire of `wires` comes from a node that is done.
pub open spec fn wires_done(input: usize, chosen: Seq<usize>, wires: Seq<Wire>) -> bool {
    forall|j: int| 0 <= j < wires.len() ==> is_done(input, chosen, (#[trigger] wires[j]).node)
}

/// Whether `n` can be emitted next: it is a node, it is not done, and all
/// it reads from is.
pub open spec fn ready(h: Hugr, input: usize, chosen: Seq<usize>, n: usize) -> bool {
    &&& n < h.nodes@.len()
    &&& !is_done(input, chosen, n)
    &&& wires_done(input, chosen, h.nodes[n as int].inputs@)
}

/// The first position at or after `from` of `body` whose node is ready.
pub open spec fn first_ready(h: Hugr, input: usize, body: Seq<usize>, chosen: Seq<usize>, from: nat) -> Option<
    nat,
>
    decreases body.len() - from,
{
    if from >= body.len() {
        None
    } else if ready(h, input, chosen, body[from as int]) {
        Some(from)
    } else {
        first_ready(h, input, body, chosen, from + 1)
    }
}

/// The order that continues `chosen`: again and again the first node of
/// `body`, in sibling order, that is ready. `None` where nodes are left
/// and none is ready.
pub open spec fn schedule_from(h: Hugr, input: usize, body: Seq<usize>, chosen: Seq<usize>) -> Option<
    Seq<usize>,
>
    decreases body.len() - chosen.len(),
{
    if chosen.len() >= body.len() {
        Some(chosen)
    } else {
        match first_ready(h, input, body, chosen, 0) {
            None => None,
            Some(p) => schedule_from(h, input, body, chosen.push(body[p as int])),
        }
    }
}

/// The order in which the nodes `body` of a region with input node
/// `input` are emitted.
pub open spec fn schedule(h: Hugr, input: usize, body: Seq<usize>) -> Option<Seq<usize>> {
    schedule_from(h, input, body, Seq::empty())
}

/// What `first_ready` finds is a position of a ready node, and no earlier
/// position from `from` on holds one.
pub proof fn lemma_first_ready(h: Hugr, input: usize, body: Seq<usize>, chosen: Seq<usize>, from: nat)
    ensures
        match first_ready(h, input, body, chosen, from) {
            Some(p) => from <= p < body.len() && ready(h, input, chosen, body[p as int]) && none_ready(
                h,
                input,
                body,
                chosen,
                from as int,
                p as int,
            ),
            None => none_ready(h, input, body, chosen, from as int, body.len() as int),
        },
    decreases body.len() - from,
{
    if from < body.len() && !ready(h, input, chosen, body[from as int]) {
        lemma_first_ready(h, input, body, chosen, from + 1);
    }
}

/// Whether no position of `body` in `[from, to)` holds a ready node.
pub open spec fn none_ready(h: Hugr, input: usize, body: Seq<usize>, chosen: Seq<usize>, from: int, to: int) -> bool {
    forall|q: int| from <= q < to && q < body.len() ==> !ready(h, input, chosen, #[trigger] body[q])
}

/// Whether `order` holds no node twice.
pub open spec fn distinct(order: Seq<usize>) -> bool {
    forall|a: int, b: int| 0 <= a < b < order.len() ==> order[a] != order[b]
}

/// Whether every node of `order` was ready when its turn came, and is one
/// of `body`.
pub open spec fn respects(h: Hugr, input: usize, body: Seq<usize>, order: Seq<usize>) -> bool {
    forall|k: int|
        0 <= k < order.len() ==> body.contains(#[trigger] order[k]) && ready(
            h,
            input,
            order.take(k),
            order[k],
        )
}

/// The scheduler's order emits every node of the region exactly once, and
/// each only after the nodes it reads from: it is as long as `body`, it
/// holds no node twice, every node of it is one of `body` and was ready
/// when its turn came.
pub proof fn lemma_schedule_is_topological(h: Hugr, input: usize, body: Seq<usize>, chosen: Seq<usize>)
    requires
        chosen.len() <= body.len(),
        distinct(chosen),
        respects(h, input, body, chosen),
    ensures
        match schedule_from(h, input, body, chosen) {
            Some(order) => {
                &&& order.len() == body.len()
                &&& distinct(order)
                &&& respects(h, input, body, order)
                &&& order.take(chosen.len() as int) == chosen
            },
            None => true,
        },
    decreases body.len() - chosen.len(),
{
    if chosen.len() >= body.len() {
        assert(chosen.take(chosen.len() as int) =~= chosen);
    } else {
        lemma_first_ready(h, input, body, chosen, 0);
        match first_ready(h, input, body, chosen, 0) {
            None => {},
            Some(p) => {
                let n = body[p as int];
                let next = chosen.push(n);
                assert(distinct(next)) by {
                    assert forall|a: int, b: int| 0 <= a < b < next.len() implies next[a] != next[b] by {
                        if b == chosen.len() {
                            assert(chosen.contains(chosen[a]));
                        }
                    }
                }
                assert(respects(h, input, body, next)) by {
                    assert forall|k: int| 0 <= k < next.len() implies body.contains(#[trigger] next[k])
                        && ready(h, input, next.take(k), next[k]) by {
                        if k < chosen.len() {
                            assert(next.take(k) =~= chosen.take(k));
                            assert(next[k] == chosen[k]);
                        } else {
                            assert(next.take(k) =~= chosen);
                        }
                    }
                }
                lemma_schedule_is_topological(h, input, body, next);
                match schedule_from(h, input, body, next) {
                    Some(order) => {
                        assert(order.take(chosen.len() as int) =~= order.take(next.len() as int).take(
                            chosen.len() as int,
                        ));
                        assert(next.take(chosen.len() as int) =~= chosen);
                    },
                    None => {},
                }
            },
        }
    }
}

/// Whether the sibling order of `body` is itself an order in which every
/// node follows those it reads from.
pub open spec fn in_order(h: Hugr, input: usize, body: Seq<usize>) -> bool {
    forall|k: int| 0 <= k < body.len() ==> ready(h, input, body.take(k), #[trigger] body[k])
}

/// Where the sibling order already has every node after those it reads
/// from, the scheduler keeps it as it is.
pub proof fn lemma_schedule_keeps_sibling_order(h: Hugr, input: usize, body: Seq<usize>, k: nat)
    requires
        in_order(h, input, body),
        k <= body.len(),
    ensures
        schedule_from(h, input, body, body.take(k as int)) == Some(body),
    decreases body.len() - k,
{
    let chosen = body.take(k as int);
    if k >= body.len() {
        assert(chosen =~= body);
    } else {
        lemma_first_ready(h, input, body, chosen, 0);
        assert(ready(h, input, chosen, body[k as int]));
        let p = first_ready(h, input, body, chosen, 0)->Some_0;
        assert(first_ready(h, input, body, chosen, 0) is Some);
        if p < k {
            assert(chosen[p as int] == body[p as int]);
            assert(chosen.contains(body[p as int]));
        }
        assert(p == k);
        assert(chosen.push(body[k as int]) =~= body.take(k as int + 1));
        lemma_schedule_keeps_sibling_order(h, input, body, k + 1);
    }
}

/// Whether `done` marks exactly the nodes that are done.
pub open spec fn marks(done: Seq<bool>, input: usize, chosen: Seq<usize>) -> bool {
    &&& input < done.len()
    &&& forall|k: int| 0 <= k < chosen.len() ==> (#[trigger] chosen[k]) < done.len()
    &&& forall|m: usize| m < done.len() ==> #[trigger] done[m as int] == is_done(input, chosen, m)
}

pub proof fn lemma_marks_outside(done: Seq<bool>, input: usize, chosen: Seq<usize>, n: usize)
    requires
        marks(done, input, chosen),
        n >= done.len(),
    ensures
        !is_done(input, chosen, n),
{
    if chosen.contains(n) {
        let k = choose|k: int| 0 <= k < chosen.len() && chosen[k] == n;
        assert(chosen[k] < done.len());
    }
}

pub proof fn lemma_marks_push(done: Seq<bool>, input: usize, chosen: Seq<usize>, c: usize)
    requires
        marks(done, input, chosen),
        c < done.len(),
    ensures
        marks(done.update(c as int, true), input, chosen.push(c)),
{
    let next = chosen.push(c);
    let d2 = done.update(c as int, true);
    assert forall|k: int| 0 <= k < next.len() implies (#[trigger] next[k]) < d2.len() by {
        if k < chosen.len() {
            assert(next[k] == chosen[k]);
        }
    }
    assert forall|m: usize| m < d2.len() implies #[trigger] d2[m as int] == is_done(input, next, m) by {
        if m == c {
            assert(next[chosen.len() as int] == c);
        } else {
            assert(d2[m as int] == done[m as int]);
            if next.contains(m) {
                let w = choose|w: int| 0 <= w < next.len() && next[w] == m;
                assert(chosen[w] == m);
            }
            if chosen.contains(m) {
                let w = choose|w: int| 0 <= w < chosen.len() && chosen[w] == m;
                assert(next[w] == m);
            }
        }
    }
}

/// Whether every wire comes from a node that is marked done.
fn wires_marked(wires: &Vec<Wire>, done: &Vec<bool>, Ghost(input): Ghost<usize>, Ghost(chosen): Ghost<Seq<usize>>) -> (r:
    bool)
    requires
        marks(done@, input, chosen),
    ensures
        r == wires_done(input, chosen, wires@),
{
    let mut j: usize = 0;
    while j < wires.len()
        invariant
            j <= wires.len(),
            marks(done@, input, chosen),
            forall|k: int| 0 <= k < j ==> is_done(input, chosen, (#[trigger] wires@[k]).node),
        decreases wires.len() - j,
    {
        let src = wires[j].node;
        if src >= done.len() {
            proof {
                lemma_marks_outside(done@, input, chosen, src);
            }
            return false;
        }
        if !done[src] {
            assert(!is_done(input, chosen, wires@[j as int].node));
            return false;
        }
        j += 1;
    }
    true
}

/// Computes the order in which the nodes `body` of a region with input
/// node `input` are emitted, or `None` where they cannot be ordered.
pub fn compute_schedule(h: &Hugr, input: usize, body: &Vec<usize>) -> (r: Option<Vec<usize>>)
    requires
        input < h.nodes@.len(),
    ensures
        match r {
            Some(order) => schedule(*h, input, body@) == Some(order@),
            None => schedule(*h, input, body@) is None,
        },
{
    let n = h.nodes.len();
    let mut done: Vec<bool> = Vec::new();
    let mut i: usize = 0;
    while i < n
        invariant
            i <= n,
            done@.len() == i,
            forall|k: int| 0 <= k < i ==> #[trigger] done@[k] == (k == input),
        decreases n - i,
    {
        done.push(i == input);
        i += 1;
    }
    let mut chosen: Vec<usize> = Vec::new();
    assert(chosen@ =~= Seq::empty());
    while chosen.len() < body.len()
        invariant
            n == h.nodes@.len(),
            done@.len() == n,
            chosen@.len() <= body@.len(),
            marks(done@, input, chosen@),
            schedule(*h, input, body@) == schedule_from(*h, input, body@, chosen@),
        decreases body@.len() - chosen@.len(),
    {
        let mut p: usize = 0;
        let mut found: Option<usize> = None;
        while p < body.len()
            invariant_except_break
                found is None,
            invariant
                p <= body@.len(),
                n == h.nodes@.len(),
                done@.len() == n,
                marks(done@, input, chosen@),
                first_ready(*h, input, body@, chosen@, 0) == first_ready(*h, input, body@, chosen@, p as nat),
            ensures
                match found {
                    Some(q) => first_ready(*h, input, body@, chosen@, 0) == Some(q as nat) && q < body@.len()
                        && body@[q as int] < n,
                    None => first_ready(*h, input, body@, chosen@, 0) is None,
                },
            decreases body@.len() - p,
        {
            let c = body[p];
            if c < n && !done[c] && wires_marked(&h.nodes[c].inputs, &done, Ghost(input), Ghost(chosen@)) {
                found = Some(p);
                break ;
            }
            p += 1;
        }
        match found {
            None => {
                return None;
            },
            Some(q) => {
                let c = body[q];
                proof {
                    lemma_marks_push(done@, input, chosen@, c);
                }
                done.set(c, true);
                chosen.push(c);
            },
        }
    }
    Some(chosen)
}

} // verus!

//! What a traversal of the open edges of a node is, stated over sequences.

use crate::condition::{decided, Condition};
use crate::Edge;
use vstd::prelude::*;

verus! {

/// The edges that leave `node`, by index into `ends`, the most recently added
/// first. `ends` gives the source and target of every edge of a graph in the
/// order in which the edges were added.
pub open spec fn departures(ends: Seq<(int, int)>, node: int) -> Seq<int>
    decreases ends.len(),
{
    if ends.len() == 0 {
        Seq::empty()
    } else {
        let earlier = departures(ends.drop_last(), node);
        if ends.last().0 == node {
            seq![ends.len() - 1] + earlier
        } else {
            earlier
        }
    }
}

/// `departures(ends, node)` holds exactly the indices of the edges whose
/// source is `node`, each once, in strictly decreasing order.
pub proof fn lemma_departures(ends: Seq<(int, int)>, node: int)
    ensures
        forall|k: int|
            0 <= k < departures(ends, node).len() ==> {
                &&& 0 <= #[trigger] departures(ends, node)[k] < ends.len()
                &&& ends[departures(ends, node)[k]].0 == node
            },
        forall|i: int|
            0 <= i < ends.len() && (#[trigger] ends[i]).0 == node ==> departures(
                ends,
                node,
            ).contains(i),
        forall|j: int, k: int|
            0 <= j < k < departures(ends, node).len() ==> departures(ends, node)[j] > departures(
                ends,
                node,
            )[k],
    decreases ends.len(),
{
    if ends.len() > 0 {
        let earlier = departures(ends.drop_last(), node);
        lemma_departures(ends.drop_last(), node);
        let all = departures(ends, node);
        if ends.last().0 == node {
            assert(all[0] == ends.len() - 1);
            assert forall|k: int| 0 < k < all.len() implies all[k] == earlier[k - 1] by {}
            assert forall|i: int| 0 <= i < ends.len() && (#[trigger] ends[i]).0 == node implies all.contains(i) by {
                if i == ends.len() - 1 {
                    assert(all[0] == i);
                } else {
                    assert(ends.drop_last()[i] == ends[i]);
                    let k = choose|k: int| 0 <= k < earlier.len() && earlier[k] == i;
                    assert(all[k + 1] == i);
                }
            }
        } else {
            assert forall|i: int| 0 <= i < ends.len() && (#[trigger] ends[i]).0 == node implies all.contains(i) by {
                assert(ends.drop_last()[i] == ends[i]);
            }
        }
    }
}

/// A node that no edge leaves has no departures.
pub proof fn lemma_departures_of_sink(ends: Seq<(int, int)>, node: int)
    requires
        forall|i: int| 0 <= i < ends.len() ==> (#[trigger] ends[i]).0 != node,
    ensures
        departures(ends, node) == Seq::<int>::empty(),
    decreases ends.len(),
{
    if ends.len() > 0 {
        assert forall|i: int| 0 <= i < ends.drop_last().len() implies (#[trigger] ends.drop_last()[i]).0 != node by {
            assert(ends.drop_last()[i] == ends[i]);
        }
        lemma_departures_of_sink(ends.drop_last(), node);
    }
}

/// Adding an edge puts it in front of the departures of its source and
/// leaves the departures of every other node as they were.
pub proof fn lemma_departures_after_push(ends: Seq<(int, int)>, link: (int, int), node: int)
    ensures
        departures(ends.push(link), node) == if link.0 == node {
            seq![ends.len() as int] + departures(ends, node)
        } else {
            departures(ends, node)
        },
{
    assert(ends.push(link).drop_last() == ends);
}

/// Whether every edge of `edges` may be found closed.
pub open spec fn may_all_be_closed<T: Condition>(edges: Seq<Edge<T>>) -> bool {
    forall|j: int| 0 <= j < edges.len() ==> (#[trigger] edges[j]).condition.evaluates_to(false)
}

/// Whether `candidates` can be examined in order: each condition may be
/// evaluated once all the edges before it may have been found closed. A
/// condition behind an edge that is certain to be open is never evaluated, so
/// nothing is asked of it.
pub open spec fn scannable<T: Condition>(candidates: Seq<Edge<T>>) -> bool {
    forall|i: int|
        0 <= i < candidates.len() && may_all_be_closed(candidates.take(i)) ==> (
        #[trigger] candidates[i]).condition.evaluable()
}

/// One step of a traversal. From the candidates `before`, the step yields
/// `out` and leaves the candidates `after`: it passes over edges that were
/// found closed, yields the first edge that was found open, and leaves what
/// follows that edge; or it finds every edge closed, yields nothing and leaves
/// nothing.
pub open spec fn yields<T: Condition>(
    before: Seq<Edge<T>>,
    out: Option<&Edge<T>>,
    after: Seq<Edge<T>>,
) -> bool {
    match out {
        Some(edge) => {
            let passed = before.len() - after.len() - 1;
            &&& 0 <= passed < before.len()
            &&& may_all_be_closed(before.take(passed))
            &&& *edge == before[passed]
            &&& edge.condition.evaluates_to(true)
            &&& after == before.skip(passed + 1)
        },
        None => {
            &&& may_all_be_closed(before)
            &&& after == Seq::<Edge<T>>::empty()
        },
    }
}

/// Whether a complete traversal of `candidates` may yield exactly `picked`:
/// every candidate is examined in order and is either found open and
/// yielded, or found closed and passed over.
pub open spec fn selects<T: Condition>(candidates: Seq<Edge<T>>, picked: Seq<Edge<T>>) -> bool
    decreases candidates.len(),
{
    if candidates.len() == 0 {
        picked.len() == 0
    } else {
        let last = candidates.last();
        ||| last.condition.evaluates_to(false) && selects(candidates.drop_last(), picked)
        ||| {
            &&& last.condition.evaluates_to(true)
            &&& picked.len() > 0
            &&& picked.last() == last
            &&& selects(candidates.drop_last(), picked.drop_last())
        }
    }
}

/// Candidates that may all be found closed may yield nothing.
pub proof fn lemma_selects_nothing<T: Condition>(candidates: Seq<Edge<T>>)
    requires
        may_all_be_closed(candidates),
    ensures
        selects(candidates, Seq::empty()),
    decreases candidates.len(),
{
    if candidates.len() > 0 {
        assert forall|j: int| 0 <= j < candidates.drop_last().len() implies (
        #[trigger] candidates.drop_last()[j]).condition.evaluates_to(false) by {
            assert(candidates.drop_last()[j] == candidates[j]);
        }
        lemma_selects_nothing(candidates.drop_last());
    }
}

/// Steps add up to a traversal. If a step from `before` yields an edge and
/// leaves `after`, and the traversal of `after` may yield `rest`, then the
/// traversal of `before` may yield that edge followed by `rest`. If the step
/// yields nothing, the traversal of `before` may yield nothing.
pub proof fn lemma_step_then_rest<T: Condition>(
    before: Seq<Edge<T>>,
    out: Option<&Edge<T>>,
    after: Seq<Edge<T>>,
    rest: Seq<Edge<T>>,
)
    requires
        yields(before, out, after),
        selects(after, rest),
    ensures
        match out {
            Some(edge) => selects(before, seq![*edge] + rest),
            None => rest.len() == 0 && selects(before, rest),
        },
    decreases after.len(),
{
    match out {
        None => {
            assert(rest == Seq::<Edge<T>>::empty());
            lemma_selects_nothing(before);
        },
        Some(edge) => {
            let passed = before.len() - after.len() - 1;
            let all = seq![*edge] + rest;
            if after.len() == 0 {
                assert(before.drop_last() == before.take(passed));
                lemma_selects_nothing(before.drop_last());
                assert(all.drop_last() == Seq::<Edge<T>>::empty());
            } else {
                assert(after.last() == before.last());
                assert(after.drop_last() == before.drop_last().skip(passed + 1));
                assert(before.drop_last().take(passed) == before.take(passed));
                assert(before.drop_last()[passed] == before[passed]);
                if after.last().condition.evaluates_to(false) && selects(after.drop_last(), rest) {
                    lemma_step_then_rest(before.drop_last(), out, after.drop_last(), rest);
                } else {
                    lemma_step_then_rest(
                        before.drop_last(),
                        out,
                        after.drop_last(),
                        rest.drop_last(),
                    );
                    assert(all.drop_last() == seq![*edge] + rest.drop_last());
                    assert(all.last() == rest.last());
                }
            }
        },
    }
}

/// What a traversal yields, it yields in the order of the candidates.
///
/// `picked` is a selection that a traversal of `candidates` may yield. Then
/// there are positions `at` in `candidates`, one for each yielded edge and
/// strictly increasing, such that each yielded edge is the candidate at its
/// position and was found open, and every candidate at another position was
/// found closed. A traversal yields no more edges than there are candidates.
pub proof fn lemma_selection_keeps_order<T: Condition>(
    candidates: Seq<Edge<T>>,
    picked: Seq<Edge<T>>,
) -> (at: Seq<int>)
    requires
        selects(candidates, picked),
    ensures
        at.len() == picked.len() <= candidates.len(),
        forall|k: int|
            0 <= k < at.len() ==> {
                &&& 0 <= #[trigger] at[k] < candidates.len()
                &&& candidates[at[k]] == picked[k]
                &&& picked[k].condition.evaluates_to(true)
            },
        forall|j: int, k: int| 0 <= j < k < at.len() ==> at[j] < at[k],
        forall|i: int|
            0 <= i < candidates.len() && !at.contains(i) ==> (
            #[trigger] candidates[i]).condition.evaluates_to(false),
    decreases candidates.len(),
{
    if candidates.len() == 0 {
        Seq::empty()
    } else {
        let last = candidates.len() - 1;
        if candidates.last().condition.evaluates_to(false) && selects(
            candidates.drop_last(),
            picked,
        ) {
            let at = lemma_selection_keeps_order(candidates.drop_last(), picked);
            assert forall|i: int| 0 <= i < candidates.len() && !at.contains(i) implies (
            #[trigger] candidates[i]).condition.evaluates_to(false) by {
                if i < last {
                    assert(candidates.drop_last()[i] == candidates[i]);
                }
            }
            at
        } else {
            let earlier = lemma_selection_keeps_order(candidates.drop_last(), picked.drop_last());
            let at = earlier.push(last);
            assert forall|i: int| 0 <= i < candidates.len() && !at.contains(i) implies (
            #[trigger] candidates[i]).condition.evaluates_to(false) by {
                assert(at[at.len() - 1] == last);
                if i < last {
                    assert(candidates.drop_last()[i] == candidates[i]);
                    if earlier.contains(i) {
                        let k = choose|k: int| 0 <= k < earlier.len() && earlier[k] == i;
                        assert(at[k] == i);
                    }
                }
            }
            at
        }
    }
}

/// The candidates whose condition may evaluate as true, in order.
pub open spec fn open_among<T: Condition>(candidates: Seq<Edge<T>>) -> Seq<Edge<T>> {
    candidates.filter(|edge: Edge<T>| edge.condition.evaluates_to(true))
}

/// Where every candidate is decided, a traversal has one possible result: the
/// candidates whose condition is true, in order.
pub proof fn lemma_selection_of_decided<T: Condition>(
    candidates: Seq<Edge<T>>,
    picked: Seq<Edge<T>>,
)
    requires
        forall|i: int| 0 <= i < candidates.len() ==> decided((#[trigger] candidates[i]).condition),
    ensures
        selects(candidates, picked) <==> picked == open_among(candidates),
    decreases candidates.len(),
{
    reveal(Seq::filter);
    if candidates.len() == 0 {
        assert(open_among(candidates).len() == 0);
        if picked.len() == 0 {
            assert(picked == open_among(candidates));
        }
    } else {
        let last = candidates.last();
        let kept = open_among(candidates.drop_last());
        assert(decided(candidates[candidates.len() - 1].condition));
        assert forall|i: int| 0 <= i < candidates.drop_last().len() implies decided(
            (#[trigger] candidates.drop_last()[i]).condition,
        ) by {
            assert(candidates.drop_last()[i] == candidates[i]);
        }
        lemma_selection_of_decided(candidates.drop_last(), picked);
        if last.condition.evaluates_to(true) {
            assert(open_among(candidates) == kept.push(last));
            if picked.len() > 0 {
                lemma_selection_of_decided(candidates.drop_last(), picked.drop_last());
                if picked.last() == last && picked.drop_last() == kept {
                    assert(picked == kept.push(last));
                }
                if picked == kept.push(last) {
                    assert(picked.drop_last() == kept);
                }
            }
        } else {
            assert(open_among(candidates) == kept);
        }
    }
}

} // verus!

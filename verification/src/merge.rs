//! A merge sort over items and the ranks read from them. A merge that takes
//! from the backs of two runs turns two runs that rise into one that falls,
//! and two that fall into one that rises; so the halves are sorted the other
//! way round from the whole, and nothing is ever reversed.

use vstd::prelude::*;
use crate::ranking::{arranges, goes_first};
use crate::utils::PriorityOrder;

verus! {

/// Whether an item of rank `rank`, given at `at`, and one of rank `next_rank`,
/// given at `next_at`, may follow each other in that order in a run: in a run
/// that is not `backward` the first has to go first, in one that is, the
/// second.
pub open spec fn in_turn(
    order: PriorityOrder,
    backward: bool,
    rank: u32,
    at: int,
    next_rank: u32,
    next_at: int,
) -> bool {
    if backward {
        goes_first(order, next_rank, next_at, rank, at)
    } else {
        goes_first(order, rank, at, next_rank, next_at)
    }
}

/// Whether items with these `ranks`, given at the positions `origin`, form a
/// run: each stands before all that have to go after it, or, in a `backward`
/// run, behind them.
pub open spec fn is_run(
    origin: Seq<int>,
    ranks: Seq<u32>,
    order: PriorityOrder,
    backward: bool,
) -> bool {
    forall|i: int, j: int|
        #![trigger origin[i], origin[j]]
        0 <= i < j < origin.len() ==> in_turn(
            order,
            backward,
            ranks[i],
            origin[i],
            ranks[j],
            origin[j],
        )
}

/// What has to go before a second thing, which has to go before a third, has
/// to go before the third.
pub proof fn lemma_goes_first_is_transitive(
    order: PriorityOrder,
    rank: u32,
    at: int,
    mid_rank: u32,
    mid_at: int,
    last_rank: u32,
    last_at: int,
)
    requires
        goes_first(order, rank, at, mid_rank, mid_at),
        goes_first(order, mid_rank, mid_at, last_rank, last_at),
    ensures
        goes_first(order, rank, at, last_rank, last_at),
{
}

/// Merges two runs into one. Both run the other way round from the run asked
/// for, and every item of `left` was given before every item of `right`.
/// Returns the merged items, their ranks, and from where in `left` followed by
/// `right` each of them was taken.
pub(crate) fn merge_runs<T>(
    left: Vec<T>,
    left_ranks: Vec<u32>,
    right: Vec<T>,
    right_ranks: Vec<u32>,
    order: PriorityOrder,
    backward: bool,
    Ghost(left_origin): Ghost<Seq<int>>,
    Ghost(right_origin): Ghost<Seq<int>>,
) -> (merged: (Vec<T>, Vec<u32>, Ghost<Seq<int>>))
    requires
        left_ranks@.len() == left@.len(),
        left_origin.len() == left@.len(),
        right_ranks@.len() == right@.len(),
        right_origin.len() == right@.len(),
        is_run(left_origin, left_ranks@, order, !backward),
        is_run(right_origin, right_ranks@, order, !backward),
        forall|i: int, j: int|
            0 <= i < left_origin.len() && 0 <= j < right_origin.len() ==> #[trigger] left_origin[i]
                < #[trigger] right_origin[j],
    ensures
        arranges(merged.2@, left@ + right@, merged.0@),
        arranges(merged.2@, left_ranks@ + right_ranks@, merged.1@),
        is_run(
            Seq::new(merged.2@.len(), |i: int| (left_origin + right_origin)[merged.2@[i]]),
            merged.1@,
            order,
            backward,
        ),
{
    let ghost all = left@ + right@;
    let ghost all_ranks = left_ranks@ + right_ranks@;
    let ghost all_origin = left_origin + right_origin;
    let ghost left_count = left@.len() as int;
    let ghost right_count = right@.len() as int;
    let mut left = left;
    let mut left_ranks = left_ranks;
    let mut right = right;
    let mut right_ranks = right_ranks;
    let mut merged: Vec<T> = Vec::new();
    let mut ranks: Vec<u32> = Vec::new();
    let ghost mut from: Seq<int> = Seq::empty();
    while left.len() > 0 || right.len() > 0
        invariant
            all.len() == left_count + right_count,
            all_ranks.len() == all.len(),
            all_origin.len() == all.len(),
            // what is left of the two runs is their front
            left@.len() <= left_count,
            right@.len() <= right_count,
            left_ranks@.len() == left@.len(),
            right_ranks@.len() == right@.len(),
            forall|p: int|
                #![trigger left@[p]]
                #![trigger left_ranks@[p]]
                0 <= p < left@.len() ==> left@[p] == all[p] && left_ranks@[p] == all_ranks[p],
            forall|p: int|
                #![trigger right@[p]]
                #![trigger right_ranks@[p]]
                0 <= p < right@.len() ==> right@[p] == all[left_count + p] && right_ranks@[p]
                    == all_ranks[left_count + p],
            // what is merged was taken from their backs, each item once
            merged@.len() == (left_count - left@.len()) + (right_count - right@.len()),
            ranks@.len() == merged@.len(),
            from.len() == merged@.len(),
            forall|i: int|
                0 <= i < from.len() ==> (left@.len() <= #[trigger] from[i] < left_count
                    || left_count + right@.len() <= from[i] < left_count + right_count)
                    && merged@[i] == all[from[i]] && ranks@[i] == all_ranks[from[i]],
            forall|i: int, j: int| 0 <= i < j < from.len() ==> from[i] != from[j],
            // what is merged is a run, and all that is left may follow it
            forall|i: int, j: int|
                #![trigger from[i], from[j]]
                0 <= i < j < from.len() ==> in_turn(
                    order,
                    backward,
                    all_ranks[from[i]],
                    all_origin[from[i]],
                    all_ranks[from[j]],
                    all_origin[from[j]],
                ),
            forall|i: int, p: int|
                #![trigger from[i], all_origin[p]]
                0 <= i < from.len() && (0 <= p < left@.len() || left_count <= p < left_count
                    + right@.len()) ==> in_turn(
                    order,
                    backward,
                    all_ranks[from[i]],
                    all_origin[from[i]],
                    all_ranks[p],
                    all_origin[p],
                ),
            // the two runs as they came in
            forall|p: int, q: int|
                #![trigger all_origin[p], all_origin[q]]
                (0 <= p < q < left_count || left_count <= p < q < left_count + right_count)
                    ==> in_turn(
                    order,
                    !backward,
                    all_ranks[p],
                    all_origin[p],
                    all_ranks[q],
                    all_origin[q],
                ),
            forall|p: int, q: int|
                #![trigger all_origin[p], all_origin[q]]
                0 <= p < left_count <= q < left_count + right_count ==> all_origin[p]
                    < all_origin[q],
        decreases left@.len() + right@.len(),
    {
        let from_left = if right.len() == 0 {
            true
        } else if left.len() == 0 {
            false
        } else {
            order.ranks_before(right_ranks[right_ranks.len() - 1], left_ranks[left_ranks.len() - 1])
                == backward
        };
        let ghost taken: int = if from_left {
            left@.len() - 1
        } else {
            left_count + right@.len() - 1
        };
        proof {
            // what is taken may stand before all that is left, or, in a
            // backward run, behind it
            assert forall|p: int|
                p != taken && (0 <= p < left@.len() || left_count <= p < left_count
                    + right@.len()) implies in_turn(
                order,
                backward,
                all_ranks[taken],
                all_origin[taken],
                all_ranks[p],
                all_origin[p],
            ) by {
                // the last of the run from which nothing is taken
                let other = if from_left {
                    left_count + right@.len() - 1
                } else {
                    left@.len() - 1
                };
                if (p < left_count) != from_left && p != other {
                    if backward {
                        lemma_goes_first_is_transitive(
                            order,
                            all_ranks[p],
                            all_origin[p],
                            all_ranks[other],
                            all_origin[other],
                            all_ranks[taken],
                            all_origin[taken],
                        );
                    } else {
                        lemma_goes_first_is_transitive(
                            order,
                            all_ranks[taken],
                            all_origin[taken],
                            all_ranks[other],
                            all_origin[other],
                            all_ranks[p],
                            all_origin[p],
                        );
                    }
                }
            }
        }
        if from_left {
            let rank = left_ranks.pop().unwrap();
            let item = left.pop().unwrap();
            merged.push(item);
            ranks.push(rank);
        } else {
            let rank = right_ranks.pop().unwrap();
            let item = right.pop().unwrap();
            merged.push(item);
            ranks.push(rank);
        }
        proof {
            from = from.push(taken);
        }
    }
    (merged, ranks, Ghost(from))
}

/// Sorts `items` by the `ranks` that stand beside them, slot by slot, into a
/// run, `backward` or not. Returns the items, their ranks, and the position
/// at which each of them was given.
pub(crate) fn sort_run<T>(
    items: Vec<T>,
    ranks: Vec<u32>,
    order: PriorityOrder,
    backward: bool,
) -> (run: (Vec<T>, Vec<u32>, Ghost<Seq<int>>))
    requires
        ranks@.len() == items@.len(),
    ensures
        arranges(run.2@, items@, run.0@),
        arranges(run.2@, ranks@, run.1@),
        is_run(run.2@, run.1@, order, backward),
    decreases items@.len(),
{
    if items.len() <= 1 {
        let ghost origin = Seq::new(items@.len(), |i: int| i);
        return (items, ranks, Ghost(origin));
    }
    let mut items = items;
    let mut ranks = ranks;
    let half = items.len() / 2;
    let right = items.split_off(half);
    let right_ranks = ranks.split_off(half);
    let (left, left_ranks, Ghost(left_origin)) = sort_run(items, ranks, order, !backward);
    let (right, right_ranks, Ghost(right_from)) = sort_run(right, right_ranks, order, !backward);
    // the right half was given behind the left one
    let ghost right_origin = Seq::new(right_from.len(), |i: int| right_from[i] + half);
    let (merged, merged_ranks, Ghost(from)) = merge_runs(
        left,
        left_ranks,
        right,
        right_ranks,
        order,
        backward,
        Ghost(left_origin),
        Ghost(right_origin),
    );
    let ghost origin = Seq::new(from.len(), |i: int| (left_origin + right_origin)[from[i]]);
    (merged, merged_ranks, Ghost(origin))
}

} // verus!

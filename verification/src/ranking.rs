//! Stable ranking: the one-time sort that fixes the order in which an engine
//! visits its rules.

use vstd::prelude::*;
use crate::merge::{in_turn, sort_run};
use crate::utils::PriorityOrder;

verus! {

/// Whether `ranks` runs in `order`: never falling when ascending, never rising
/// when descending.
pub open spec fn is_ranked(ranks: Seq<u32>, order: PriorityOrder) -> bool {
    forall|i: int, j: int| 0 <= i <= j < ranks.len() ==> order.admits(ranks[i], ranks[j])
}

/// Whether `origin` arranges `input` into `output`: slot `i` of `output` holds
/// what stood at position `origin[i]` of `input`, and no position is used
/// twice. With the equal lengths this makes `output` a permutation of `input`.
pub open spec fn arranges<T>(origin: Seq<int>, input: Seq<T>, output: Seq<T>) -> bool {
    &&& origin.len() == input.len()
    &&& output.len() == input.len()
    &&& forall|i: int|
        0 <= i < origin.len() ==> 0 <= #[trigger] origin[i] < input.len() && output[i]
            == input[origin[i]]
    &&& forall|i: int, j: int| 0 <= i < j < origin.len() ==> origin[i] != origin[j]
}

/// Whether items of equal rank stand in the order in which they were given.
pub open spec fn keeps_ties(origin: Seq<int>, ranks: Seq<u32>) -> bool {
    forall|i: int, j: int|
        0 <= i < j < origin.len() && ranks[i] == ranks[j] ==> origin[i] < origin[j]
}

/// Whether an item of rank `rank`, given at `at`, has to stand before one of
/// rank `other_rank`, given at `other_at`: its rank has to come first, or the
/// ranks are the same and it was given first.
pub open spec fn goes_first(
    order: PriorityOrder,
    rank: u32,
    at: int,
    other_rank: u32,
    other_at: int,
) -> bool {
    !order.admits(other_rank, rank) || (rank == other_rank && at < other_at)
}

/// Whether `ranked` is `given`, ranked stably: a permutation of it whose
/// `ranks`, slot by slot, run in `order`, with items of equal rank in the
/// order in which they were given.
pub open spec fn is_stable_ranking<T>(
    given: Seq<T>,
    ranked: Seq<T>,
    ranks: Seq<u32>,
    order: PriorityOrder,
) -> bool {
    &&& ranks.len() == ranked.len()
    &&& is_ranked(ranks, order)
    &&& exists|origin: Seq<int>|
        #[trigger] arranges(origin, given, ranked) && keeps_ties(origin, ranks)
}

/// Sorts `items` by the key that `key` reads from each of them, once per item.
/// The result holds the items in `order` of their keys, items of equal key in
/// the order given, and beside them the keys that were read.
pub(crate) fn rank_stably<T, F: Fn(&T) -> u32>(
    items: Vec<T>,
    key: F,
    order: PriorityOrder,
) -> (ranked: (Vec<T>, Vec<u32>))
    requires
        forall|item: &T| call_requires(key, (item,)),
    ensures
        is_stable_ranking(items@, ranked.0@, ranked.1@, order),
        forall|i: int|
            0 <= i < ranked.0@.len() ==> call_ensures(key, (&ranked.0@[i],), ranked.1@[i]),
{
    let mut keys: Vec<u32> = Vec::new();
    let mut at: usize = 0;
    while at < items.len()
        invariant
            forall|item: &T| call_requires(key, (item,)),
            at <= items@.len(),
            keys@.len() == at,
            forall|i: int| 0 <= i < at ==> call_ensures(key, (&items@[i],), #[trigger] keys@[i]),
        decreases items@.len() - at,
    {
        keys.push(key(&items[at]));
        at = at + 1;
    }
    let ghost given_keys = keys@;
    let (ranked, ranks, Ghost(origin)) = sort_run(items, keys, order, false);
    proof {
        // each key was read from the item beside which it now stands
        assert forall|i: int| 0 <= i < ranked@.len() implies call_ensures(
            key,
            (&ranked@[i],),
            ranks@[i],
        ) by {
            assert(ranks@[i] == given_keys[origin[i]]);
        }
        // a run that is not backward is ranked and keeps ties in order
        assert forall|i: int, j: int| 0 <= i <= j < ranks@.len() implies order.admits(
            ranks@[i],
            ranks@[j],
        ) by {
            if i < j {
                assert(in_turn(order, false, ranks@[i], origin[i], ranks@[j], origin[j]));
            }
        }
        assert(keeps_ties(origin, ranks@));
    }
    (ranked, ranks)
}

/// An arrangement loses nothing and adds nothing: what it puts out is what
/// went in, each item as often as it was given.
pub proof fn lemma_arrangement_is_permutation<T>(origin: Seq<int>, input: Seq<T>, output: Seq<T>)
    requires
        arranges(origin, input, output),
    ensures
        output.to_multiset() == input.to_multiset(),
    decreases input.len(),
{
    broadcast use vstd::seq_lib::to_multiset_build, vstd::seq_lib::to_multiset_remove;

    if input.len() == 0 {
        assert(output == input);
    } else {
        let last = origin.len() - 1;
        let taken = origin[last];
        let input_rest = input.remove(taken);
        let output_rest = output.drop_last();
        let origin_rest = Seq::new(
            last as nat,
            |i: int|
                if origin[i] > taken {
                    origin[i] - 1
                } else {
                    origin[i]
                },
        );
        assert(arranges(origin_rest, input_rest, output_rest));
        lemma_arrangement_is_permutation(origin_rest, input_rest, output_rest);
        assert(output == output_rest.push(input[taken]));
        assert(input.to_multiset().count(input[taken]) > 0) by {
            broadcast use vstd::seq_lib::to_multiset_contains;

        }
    }
}

/// A stable ranking is a permutation of what was given.
pub proof fn lemma_ranking_is_permutation<T>(
    given: Seq<T>,
    ranked: Seq<T>,
    ranks: Seq<u32>,
    order: PriorityOrder,
)
    requires
        is_stable_ranking(given, ranked, ranks, order),
    ensures
        ranked.len() == given.len(),
        ranked.to_multiset() == given.to_multiset(),
{
    let origin = choose|origin: Seq<int>|
        #[trigger] arranges(origin, given, ranked) && keeps_ties(origin, ranks);
    lemma_arrangement_is_permutation(origin, given, ranked);
}

/// Where all ranks are the same, ranking changes nothing: the items stand as
/// they were given.
pub proof fn lemma_equal_ranks_keep_the_order<T>(
    given: Seq<T>,
    ranked: Seq<T>,
    ranks: Seq<u32>,
    order: PriorityOrder,
)
    requires
        is_stable_ranking(given, ranked, ranks, order),
        forall|i: int, j: int| 0 <= i < j < ranks.len() ==> ranks[i] == ranks[j],
    ensures
        ranked == given,
{
    let origin = choose|origin: Seq<int>|
        #[trigger] arranges(origin, given, ranked) && keeps_ties(origin, ranks);
    assert forall|i: int, j: int| 0 <= i < j < origin.len() implies origin[i] < origin[j] by {
        assert(ranks[i] == ranks[j]);
    }
    assert forall|i: int| 0 <= i < origin.len() implies origin[i] == i by {
        lemma_rising_from(origin, i);
        lemma_rising_to(origin, i);
    }
    assert forall|i: int| 0 <= i < ranked.len() implies ranked[i] == given[i] by {
        assert(ranked[i] == given[origin[i]]);
    }
}

/// Positions that rise from slot to slot, none below 0, lie at or behind
/// their slots.
proof fn lemma_rising_from(origin: Seq<int>, slot: int)
    requires
        forall|i: int| 0 <= i < origin.len() ==> 0 <= #[trigger] origin[i] < origin.len(),
        forall|i: int, j: int| 0 <= i < j < origin.len() ==> origin[i] < origin[j],
        0 <= slot < origin.len(),
    ensures
        slot <= origin[slot],
    decreases slot,
{
    if slot > 0 {
        lemma_rising_from(origin, slot - 1);
    }
}

/// Positions that rise from slot to slot, none beyond the last slot, lie at or
/// before their slots.
proof fn lemma_rising_to(origin: Seq<int>, slot: int)
    requires
        forall|i: int| 0 <= i < origin.len() ==> 0 <= #[trigger] origin[i] < origin.len(),
        forall|i: int, j: int| 0 <= i < j < origin.len() ==> origin[i] < origin[j],
        0 <= slot < origin.len(),
    ensures
        origin[slot] <= slot,
    decreases origin.len() - slot,
{
    if slot < origin.len() - 1 {
        lemma_rising_to(origin, slot + 1);
    }
}

/// An arrangement uses every position of its input: `slot` is where the item
/// at `at` went.
pub proof fn lemma_arrangement_uses_every_position<T>(
    origin: Seq<int>,
    input: Seq<T>,
    output: Seq<T>,
    at: int,
) -> (slot: int)
    requires
        arranges(origin, input, output),
        0 <= at < input.len(),
    ensures
        0 <= slot < origin.len(),
        origin[slot] == at,
{
    broadcast use vstd::seq_lib::to_multiset_contains;

    let positions = Seq::new(input.len(), |i: int| i);
    lemma_arrangement_is_permutation(origin, positions, origin);
    assert(positions[at] == at);
    assert(origin.to_multiset().count(at) > 0);
    choose|slot: int| 0 <= slot < origin.len() && origin[slot] == at
}

/// Where every item has one rank only, there is one stable ranking only: the
/// order of the result is fixed by what was given, by the ranks and by the
/// order asked for.
pub proof fn lemma_ranking_is_unique<T>(
    given: Seq<T>,
    rank_of: spec_fn(T) -> u32,
    order: PriorityOrder,
    ranked: Seq<T>,
    ranks: Seq<u32>,
    other: Seq<T>,
    other_ranks: Seq<u32>,
)
    requires
        is_stable_ranking(given, ranked, ranks, order),
        is_stable_ranking(given, other, other_ranks, order),
        forall|i: int| 0 <= i < ranked.len() ==> #[trigger] ranks[i] == rank_of(ranked[i]),
        forall|i: int| 0 <= i < other.len() ==> #[trigger] other_ranks[i] == rank_of(other[i]),
    ensures
        ranked == other,
        ranks == other_ranks,
{
    let origin = choose|origin: Seq<int>|
        #[trigger] arranges(origin, given, ranked) && keeps_ties(origin, ranks);
    let other_origin = choose|origin: Seq<int>|
        #[trigger] arranges(origin, given, other) && keeps_ties(origin, other_ranks);
    assert forall|i: int| 0 <= i < origin.len() implies origin[i] == other_origin[i] by {
        lemma_origins_agree(
            given,
            rank_of,
            order,
            ranked,
            ranks,
            origin,
            other,
            other_ranks,
            other_origin,
            i,
        );
    }
    assert forall|i: int| 0 <= i < ranked.len() implies ranked[i] == other[i] by {
        assert(other[i] == given[other_origin[i]]);
    }
}

/// Two stable rankings of the same items by the same ranks took the item of
/// each slot from the same position.
proof fn lemma_origins_agree<T>(
    given: Seq<T>,
    rank_of: spec_fn(T) -> u32,
    order: PriorityOrder,
    ranked: Seq<T>,
    ranks: Seq<u32>,
    origin: Seq<int>,
    other: Seq<T>,
    other_ranks: Seq<u32>,
    other_origin: Seq<int>,
    slot: int,
)
    requires
        arranges(origin, given, ranked),
        keeps_ties(origin, ranks),
        is_ranked(ranks, order),
        ranks.len() == ranked.len(),
        arranges(other_origin, given, other),
        keeps_ties(other_origin, other_ranks),
        is_ranked(other_ranks, order),
        other_ranks.len() == other.len(),
        forall|i: int| 0 <= i < ranked.len() ==> #[trigger] ranks[i] == rank_of(ranked[i]),
        forall|i: int| 0 <= i < other.len() ==> #[trigger] other_ranks[i] == rank_of(other[i]),
        0 <= slot < origin.len(),
    ensures
        origin[slot] == other_origin[slot],
    decreases slot,
{
    assert forall|i: int| 0 <= i < slot implies origin[i] == other_origin[i] by {
        lemma_origins_agree(
            given,
            rank_of,
            order,
            ranked,
            ranks,
            origin,
            other,
            other_ranks,
            other_origin,
            i,
        );
    }
    let here = origin[slot];
    let there = other_origin[slot];
    if here != there {
        if goes_first(order, rank_of(given[here]), here, rank_of(given[there]), there) {
            // `here` has a slot in the other ranking too, and it lies behind
            // `slot`, where `there` stands
            let behind = lemma_arrangement_uses_every_position(other_origin, given, other, here);
            assert(order.admits(other_ranks[slot], other_ranks[behind]));
        } else {
            // and the other way round
            let behind = lemma_arrangement_uses_every_position(origin, given, ranked, there);
            assert(order.admits(ranks[slot], ranks[behind]));
        }
    }
}

} // verus!

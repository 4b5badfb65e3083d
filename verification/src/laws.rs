//! What holds of the model: every state that a store can reach is
//! consistent, and what the table of a consistent state looks like to a
//! reader.

use crate::address::Address;
use crate::model::{find_below_from, find_id_from, total, Slot, State, TOP_COUNT};
use vstd::prelude::*;

verus! {

/// Where a search for `id` ends: between `from` and the table's length, on
/// the first place that holds `id` if there is one.
pub proof fn lemma_find_id(table: Seq<Slot>, id: Address, from: int)
    requires
        0 <= from <= table.len(),
    ensures
        from <= find_id_from(table, id, from) <= table.len(),
        forall|i: int| from <= i < find_id_from(table, id, from) ==> (#[trigger] table[i]).id != id,
        find_id_from(table, id, from) < table.len() ==> table[find_id_from(table, id, from)].id
            == id,
    decreases table.len() - from,
{
    if from < table.len() && table[from].id != id {
        lemma_find_id(table, id, from + 1);
    }
}

/// Where a search for a count below `bound` ends: between `from` and the
/// table's length, on the first place whose count is below `bound` if
/// there is one.
pub proof fn lemma_find_below(table: Seq<Slot>, bound: nat, from: int)
    requires
        0 <= from <= table.len(),
    ensures
        from <= find_below_from(table, bound, from) <= table.len(),
        forall|i: int|
            from <= i < find_below_from(table, bound, from) ==> (#[trigger] table[i]).count
                >= bound,
        find_below_from(table, bound, from) < table.len() ==> table[find_below_from(
            table,
            bound,
            from,
        )].count < bound,
    decreases table.len() - from,
{
    if from < table.len() && table[from].count >= bound {
        lemma_find_below(table, bound, from + 1);
    }
}

/// The sum of all counts is the count of any one address plus the sum over
/// the others.
pub proof fn lemma_total_remove(counts: Map<Address, nat>, id: Address)
    requires
        counts.dom().finite(),
        counts.contains_key(id),
    ensures
        total(counts) == counts[id] + total(counts.remove(id)),
    decreases counts.dom().len(),
{
    let first = counts.dom().choose();
    if first != id {
        lemma_total_remove(counts.remove(first), id);
        lemma_total_remove(counts.remove(id), first);
        assert(counts.remove(first).remove(id) =~= counts.remove(id).remove(first));
    }
}

/// Setting the count of one address changes the sum of all counts by the
/// difference of the new count and the old.
pub proof fn lemma_total_insert(counts: Map<Address, nat>, id: Address, count: nat)
    requires
        counts.dom().finite(),
    ensures
        total(counts.insert(id, count)) + (if counts.contains_key(id) {
            counts[id]
        } else {
            0
        }) == total(counts) + count,
{
    let next = counts.insert(id, count);
    lemma_total_remove(next, id);
    assert(next.remove(id) =~= counts.remove(id));
    if counts.contains_key(id) {
        lemma_total_remove(counts, id);
    } else {
        assert(counts.remove(id) =~= counts);
    }
}

impl State {
    /// An address holds a place exactly when the search for it ends inside
    /// the table.
    pub proof fn lemma_place_of(self, id: Address)
        ensures
            0 <= self.place_of(id) <= self.table.len(),
            self.ranked(id) <==> self.place_of(id) < self.table.len(),
            self.place_of(id) < self.table.len() ==> self.table[self.place_of(id)].id == id,
    {
        lemma_find_id(self.table, id, 0);
    }

    /// One more sighting keeps a consistent state consistent.
    pub proof fn lemma_record_consistent(self, id: Address)
        requires
            self.consistent(),
        ensures
            self.record(id).consistent(),
    {
        let next = self.record(id);
        let count = (self.count_of(id) + 1) as nat;
        let place = self.place_of(id);
        let target = self.first_below(count);
        let len = self.table.len() as int;
        self.lemma_place_of(id);
        lemma_find_below(self.table, count, 0);
        if place < len || (len == TOP_COUNT && self.count_of(id) == self.threshold()) {
            // `id` rises to `target`, and what stood there goes to `from`:
            // the place that `id` held, or the last place if it held none.
            let from = if place < len { place } else { TOP_COUNT - 1 };
            // Every entry from `target` to `from` carried the old count of
            // `id`, so the counts of the table change at `target` only.
            assert forall|i: int| 0 <= i < len && i != target implies (#[trigger] next.table[i]).count
                == self.table[i].count by {}
            assert(next.sorted());
            assert(next.distinct());
            assert(next.counts_agree());
            assert forall|other: Address| #[trigger]
                next.counts.contains_key(other) && !next.ranked(other) implies next.table.len()
                == TOP_COUNT && next.counts[other] <= next.threshold() by {
                assert(next.table[target].id == id);
                if self.ranked(other) {
                    // Of the ranked, only the entry of the last place can
                    // have left, and only where `id` came from outside.
                    let k = choose|k: int| 0 <= k < len && (#[trigger] self.table[k]).id == other;
                    let moved = if k == target { from } else { k };
                    if k != from || place < len {
                        assert(next.table[moved].id == other);
                    }
                }
            }
        } else if len < TOP_COUNT {
            // `id` was never seen before, and takes the next free place.
            assert forall|other: Address| #[trigger]
                next.counts.contains_key(other) && !next.ranked(other) implies next.table.len()
                == TOP_COUNT && next.counts[other] <= next.threshold() by {
                if other != id {
                    let k = choose|k: int| 0 <= k < len && (#[trigger] self.table[k]).id == other;
                    assert(next.table[k].id == other);
                }
            }
        }
    }

    /// Every state that a sequence of sightings leads to is consistent.
    pub proof fn lemma_replay_consistent(events: Seq<Address>)
        ensures
            State::replay(events).consistent(),
        decreases events.len(),
    {
        if events.len() > 0 {
            State::lemma_replay_consistent(events.drop_last());
            State::replay(events.drop_last()).lemma_record_consistent(events.last());
        }
    }

    /// The count that the table shows at a place is the count of the
    /// address at that place, and it is at least 1.
    pub proof fn lemma_table_matches_counts(self)
        requires
            self.consistent(),
        ensures
            forall|i: int|
                0 <= i < self.ranking().len() ==> #[trigger] self.top_counts()[i] == self.count_of(
                    self.ranking()[i],
                ) && self.top_counts()[i] >= 1,
    {
    }

    /// The ranking is as long as the smaller of the table's capacity and
    /// the number of distinct addresses seen: it never exceeds the
    /// capacity, and no place stays free while an address is left out.
    pub proof fn lemma_ranking_len(self)
        requires
            self.consistent(),
        ensures
            self.ranking().len() <= TOP_COUNT,
            self.ranking().len() == if self.counts.dom().len() < TOP_COUNT {
                self.counts.dom().len()
            } else {
                TOP_COUNT as nat
            },
    {
        let ids = self.ranking();
        self.lemma_ranking_distinct();
        ids.unique_seq_to_set();
        assert(ids.to_set().subset_of(self.counts.dom())) by {
            assert forall|id: Address| ids.to_set().contains(id) implies self.counts.dom().contains(
                id,
            ) by {}
        }
        vstd::set_lib::lemma_len_subset(ids.to_set(), self.counts.dom());
        if self.table.len() < TOP_COUNT {
            assert(ids.to_set() =~= self.counts.dom()) by {
                assert forall|id: Address| self.counts.dom().contains(id) implies ids.to_set().contains(
                    id,
                ) by {
                    let i = choose|i: int|
                        0 <= i < self.table.len() && (#[trigger] self.table[i]).id == id;
                    assert(ids[i] == id);
                }
            }
        }
    }

    /// The ranking never rises: an address is seen at least as often as
    /// every address ranked after it.
    pub proof fn lemma_ranking_sorted(self)
        requires
            self.consistent(),
        ensures
            forall|i: int, j: int|
                0 <= i <= j < self.ranking().len() ==> self.count_of(#[trigger] self.ranking()[i])
                    >= self.count_of(#[trigger] self.ranking()[j]),
    {
    }

    /// No address is ranked twice.
    pub proof fn lemma_ranking_distinct(self)
        requires
            self.consistent(),
        ensures
            self.ranking().no_duplicates(),
    {
    }

    /// The ranking holds the most frequent addresses: no address outside
    /// it was seen more often than any address inside it.
    pub proof fn lemma_ranked_outweigh_unranked(self, inside: Address, outside: Address)
        requires
            self.consistent(),
            self.ranking().contains(inside),
            !self.ranking().contains(outside),
        ensures
            self.count_of(inside) >= self.count_of(outside),
    {
        if self.ranked(outside) {
            let k = choose|k: int|
                0 <= k < self.table.len() && (#[trigger] self.table[k]).id == outside;
            assert(self.ranking()[k] == outside);
        }
    }

    /// One more sighting adds exactly one to the sum of all counts.
    pub proof fn lemma_record_total(self, id: Address)
        requires
            self.counts.dom().finite(),
        ensures
            total(self.record(id).counts) == total(self.counts) + 1,
    {
        lemma_total_insert(self.counts, id, (self.count_of(id) + 1) as nat);
    }

    /// After any sequence of sightings the counts sum to the number of
    /// sightings.
    pub proof fn lemma_replay_total(events: Seq<Address>)
        ensures
            total(State::replay(events).counts) == events.len(),
        decreases events.len(),
    {
        if events.len() > 0 {
            State::lemma_replay_total(events.drop_last());
            State::lemma_replay_consistent(events.drop_last());
            State::replay(events.drop_last()).lemma_record_total(events.last());
        }
    }

    /// A store that has seen nothing ranks nothing: every place of its
    /// table is free.
    pub proof fn lemma_empty_ranks_nothing()
        ensures
            State::empty().ranking() == Seq::<Address>::empty(),
            forall|i: int| 0 <= i < TOP_COUNT ==> (#[trigger] State::empty().top()[i]) is None,
    {
    }

    /// The first sighting on an empty store ranks the address seen, and
    /// nothing else.
    pub proof fn lemma_first_sighting(a: Address)
        ensures
            State::empty().record(a).ranking() == seq![a],
            State::empty().record(a).count_of(a) == 1,
    {
        reveal_with_fuel(find_id_from, 2);
        reveal_with_fuel(find_below_from, 2);
    }

    /// Two addresses seen once each are ranked in the order in which they
    /// came.
    pub proof fn lemma_tie_keeps_arrival_order(a: Address, b: Address)
        requires
            a != b,
        ensures
            State::empty().record(a).record(b).ranking() == seq![a, b],
    {
        reveal_with_fuel(find_id_from, 3);
        reveal_with_fuel(find_below_from, 3);
    }

    /// An address seen twice is ranked before one seen once, though it came
    /// later.
    pub proof fn lemma_repeat_moves_ahead(a: Address, b: Address)
        requires
            a != b,
        ensures
            State::empty().record(a).record(b).record(b).ranking() == seq![b, a],
    {
        reveal_with_fuel(find_id_from, 4);
        reveal_with_fuel(find_below_from, 4);
    }
}

} // verus!

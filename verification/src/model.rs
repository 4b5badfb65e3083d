//! The mathematical model of a store: its state, and the state that one
//! more sighting leads to.

use crate::address::Address;
use vstd::prelude::*;

verus! {

/// The capacity of the ranked table.
pub const TOP_COUNT: usize = 100;

/// One occupied place of the ranked table.
pub struct Slot {
    pub id: Address,
    pub count: nat,
}

/// The state of a store: how often each address was seen, and the ranked
/// table, best place first.
pub struct State {
    pub counts: Map<Address, nat>,
    pub table: Seq<Slot>,
}

/// The first place at or after `from` that holds `id`; the table's length
/// where no such place exists.
pub open spec fn find_id_from(table: Seq<Slot>, id: Address, from: int) -> int
    decreases table.len() - from,
{
    if from >= table.len() {
        table.len() as int
    } else if table[from].id == id {
        from
    } else {
        find_id_from(table, id, from + 1)
    }
}

/// The first place at or after `from` whose count is below `bound`; the
/// table's length where no such place exists.
pub open spec fn find_below_from(table: Seq<Slot>, bound: nat, from: int) -> int
    decreases table.len() - from,
{
    if from >= table.len() {
        table.len() as int
    } else if table[from].count < bound {
        from
    } else {
        find_below_from(table, bound, from + 1)
    }
}

/// The sum of all counts of a count map.
pub open spec fn total(counts: Map<Address, nat>) -> nat
    decreases counts.dom().len(),
    when counts.dom().finite()
{
    if counts.dom().len() == 0 {
        0
    } else {
        let id = counts.dom().choose();
        counts[id] + total(counts.remove(id))
    }
}

impl State {
    /// The state of a store that has seen nothing.
    pub open spec fn empty() -> State {
        State { counts: Map::empty(), table: Seq::empty() }
    }

    /// How often `id` was seen; 0 for an address never seen.
    pub open spec fn count_of(self, id: Address) -> nat {
        if self.counts.contains_key(id) {
            self.counts[id]
        } else {
            0
        }
    }

    /// Whether `id` holds a place of the table.
    pub open spec fn ranked(self, id: Address) -> bool {
        exists|i: int| 0 <= i < self.table.len() && (#[trigger] self.table[i]).id == id
    }

    /// The count that an address must reach to contend for a place: the
    /// count of the last place of a full table, 0 while places are free.
    pub open spec fn threshold(self) -> nat {
        if self.table.len() < TOP_COUNT {
            0
        } else {
            self.table[TOP_COUNT - 1].count
        }
    }

    /// The place that `id` holds; the table's length if it holds none.
    pub open spec fn place_of(self, id: Address) -> int {
        find_id_from(self.table, id, 0)
    }

    /// The first place whose count is below `bound`; the table's length if
    /// every count reaches `bound`.
    pub open spec fn first_below(self, bound: nat) -> int {
        find_below_from(self.table, bound, 0)
    }

    /// The state after one more sighting of `id`.
    ///
    /// The count of `id` grows by one. The table changes in one of three
    /// ways, or not at all:
    ///
    /// * `id` holds a place: it trades places with the first entry whose
    ///   count does not exceed the old count of `id`, and so moves to the
    ///   head of the entries it was tied with.
    /// * `id` holds no place and a place is free: it takes the next free
    ///   place.
    /// * `id` holds no place, the table is full and the old count of `id`
    ///   equals the threshold: `id` enters at the head of the entries that
    ///   hold the threshold count, the entry that stood there moves to the
    ///   last place, and the entry of the last place leaves the table. A
    ///   tie at the threshold is thus resolved in favour of the address
    ///   seen most recently.
    /// * otherwise the table stays as it is.
    pub open spec fn record(self, id: Address) -> State {
        let count = (self.count_of(id) + 1) as nat;
        let slot = Slot { id, count };
        let place = self.place_of(id);
        let target = self.first_below(count);
        State {
            counts: self.counts.insert(id, count),
            table: if place < self.table.len() {
                self.table.update(place, self.table[target]).update(target, slot)
            } else if self.table.len() < TOP_COUNT {
                self.table.push(slot)
            } else if self.count_of(id) == self.threshold() {
                self.table.update(TOP_COUNT - 1, self.table[target]).update(target, slot)
            } else {
                self.table
            },
        }
    }

    /// The state after the sightings `events`, in order, starting from
    /// nothing.
    pub open spec fn replay(events: Seq<Address>) -> State
        decreases events.len(),
    {
        if events.len() == 0 {
            State::empty()
        } else {
            State::replay(events.drop_last()).record(events.last())
        }
    }

    /// The addresses of the table, best place first.
    pub open spec fn ranking(self) -> Seq<Address> {
        Seq::new(self.table.len(), |i: int| self.table[i].id)
    }

    /// The table as a row of exactly `TOP_COUNT` places: the ranked
    /// addresses, best place first, then `None` for every free place.
    pub open spec fn top(self) -> Seq<Option<Address>> {
        Seq::new(
            TOP_COUNT as nat,
            |i: int|
                if i < self.table.len() {
                    Some(self.table[i].id)
                } else {
                    None
                },
        )
    }

    /// The counts of the table, place by place, as a row of exactly
    /// `TOP_COUNT` numbers: 0 stands in every free place.
    pub open spec fn top_counts(self) -> Seq<nat> {
        Seq::new(
            TOP_COUNT as nat,
            |i: int|
                if i < self.table.len() {
                    self.table[i].count
                } else {
                    0
                },
        )
    }

    /// Every entry of the table carries the count that the count map holds
    /// for its address.
    pub open spec fn counts_agree(self) -> bool {
        forall|i: int|
            0 <= i < self.table.len() ==> self.counts.contains_key((#[trigger] self.table[i]).id)
                && self.counts[self.table[i].id] == self.table[i].count
    }

    /// The counts of the table never grow from one place to the next.
    pub open spec fn sorted(self) -> bool {
        forall|i: int, j: int|
            0 <= i <= j < self.table.len() ==> (#[trigger] self.table[i]).count
                >= (#[trigger] self.table[j]).count
    }

    /// No address holds two places.
    pub open spec fn distinct(self) -> bool {
        forall|i: int, j: int|
            0 <= i < j < self.table.len() ==> (#[trigger] self.table[i]).id
                != (#[trigger] self.table[j]).id
    }

    /// An address is left out of the table only when the table is full and
    /// the address has been seen no more often than the last entry.
    pub open spec fn holds_the_top(self) -> bool {
        forall|id: Address|
            #[trigger] self.counts.contains_key(id) && !self.ranked(id) ==> self.table.len()
                == TOP_COUNT && self.counts[id] <= self.threshold()
    }

    /// What holds of every state that a store can reach.
    pub open spec fn consistent(self) -> bool {
        &&& self.counts.dom().finite()
        &&& forall|id: Address| #[trigger] self.counts.contains_key(id) ==> self.counts[id] >= 1
        &&& self.table.len() <= TOP_COUNT
        &&& self.counts_agree()
        &&& self.sorted()
        &&& self.distinct()
        &&& self.holds_the_top()
    }
}

} // verus!

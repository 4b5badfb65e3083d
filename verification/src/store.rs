//! The executable store.

use crate::address::Address;
use crate::counts::CountMap;
use crate::laws::lemma_find_below;
use crate::model::{find_below_from, find_id_from, Slot, State, TOP_COUNT};
use vstd::prelude::*;

verus! {

/// A store that counts sightings of addresses and ranks the most frequent.
pub trait IPStore {
    /// The state that the store stands for.
    spec fn view(&self) -> State;

    /// Whether the store's representation is intact. Every operation asks
    /// for it and keeps it.
    spec fn well_formed(&self) -> bool;

    /// An intact store stands for a consistent state: its table is sorted
    /// by count, holds no address twice, agrees with the count map, is as
    /// long as it can be, and leaves out no address that was seen more
    /// often than its last entry.
    proof fn lemma_consistent(&self)
        requires
            self.well_formed(),
        ensures
            self@.consistent(),
    ;

    /// Records one sighting of `ip_address`: its count grows by one, and
    /// the table is brought up to date as [`State::record`] says. An
    /// address that crosses the threshold of a full table takes the place
    /// of the last entry.
    ///
    /// A count that has reached `u64::MAX` stays there: the sighting then
    /// leaves the store as it was.
    fn request_handled(&mut self, ip_address: Address)
        requires
            old(self).well_formed(),
        ensures
            final(self).well_formed(),
            final(self)@ == if old(self)@.count_of(ip_address) < u64::MAX {
                old(self)@.record(ip_address)
            } else {
                old(self)@
            },
    ;

    /// The ranked addresses, most frequent first, followed by `None` for
    /// every free place of the table.
    fn top100(&self) -> (top: [Option<Address>; TOP_COUNT])
        requires
            self.well_formed(),
        ensures
            top@ == self@.top(),
    ;

    /// Forgets every sighting.
    fn clear(&mut self)
        ensures
            final(self).well_formed(),
            final(self)@ == State::empty(),
    ;
}

/// A store that keeps its ranked table in two arrays side by side, sorted
/// by descending count, and moves an entry by a linear scan and one swap.
pub struct PulleyIPStore {
    request_counts: CountMap,
    top100_list: [Option<Address>; TOP_COUNT],
    top100_counts: [u64; TOP_COUNT],
    top100_size: usize,
}

impl PulleyIPStore {
    /// The occupied part of the two arrays, place by place.
    spec fn table(&self) -> Seq<Slot> {
        Seq::new(
            self.top100_size as nat,
            |i: int| Slot { id: self.top100_list[i].unwrap(), count: self.top100_counts[i] as nat },
        )
    }

    /// The first `top100_size` places are occupied, the others are free and
    /// carry the count 0.
    spec fn shaped(&self) -> bool {
        &&& self.top100_size <= TOP_COUNT
        &&& forall|i: int| 0 <= i < self.top100_size ==> (#[trigger] self.top100_list[i]) is Some
        &&& forall|i: int|
            self.top100_size <= i < TOP_COUNT ==> (#[trigger] self.top100_list[i]) is None
        &&& forall|i: int|
            self.top100_size <= i < TOP_COUNT ==> (#[trigger] self.top100_counts[i]) == 0
    }

    /// A store that has seen nothing.
    pub fn new() -> (store: PulleyIPStore)
        ensures
            store.well_formed(),
            store@ == State::empty(),
    {
        let store = PulleyIPStore {
            request_counts: CountMap::new(),
            top100_list: [None;TOP_COUNT],
            top100_counts: [0;TOP_COUNT],
            top100_size: 0,
        };
        assert(store.table() =~= Seq::<Slot>::empty());
        store
    }

    /// How often `ip_address` was seen.
    pub fn count(&self, ip_address: Address) -> (count: u64)
        ensures
            count == self@.count_of(ip_address),
    {
        self.request_counts.get(ip_address)
    }

    /// The counts of the ranked addresses, place by place as `top100`
    /// gives the addresses, with 0 in every free place.
    pub fn top100_counts(&self) -> (counts: [u64; TOP_COUNT])
        requires
            self.well_formed(),
        ensures
            forall|i: int| 0 <= i < TOP_COUNT ==> counts[i] == #[trigger] self@.top_counts()[i],
    {
        self.top100_counts
    }

    /// The ranked addresses, most frequent first, without the free places.
    pub fn top_k(&self) -> (ranking: Vec<Address>)
        requires
            self.well_formed(),
        ensures
            ranking@ == self@.ranking(),
    {
        let mut ranking: Vec<Address> = Vec::new();
        let mut i: usize = 0;
        while i < self.top100_size
            invariant
                self.shaped(),
                i <= self.top100_size,
                ranking@ == self.table().subrange(0, i as int).map_values(|slot: Slot| slot.id),
            decreases self.top100_size - i,
        {
            match self.top100_list[i] {
                Some(id) => {
                    ranking.push(id);
                },
                None => {},
            }
            i += 1;
        }
        ranking
    }

    /// The place that `id` holds in the table; `top100_size` if it holds
    /// none.
    fn position(&self, id: Address) -> (place: usize)
        requires
            self.shaped(),
        ensures
            place == find_id_from(self.table(), id, 0),
            place <= self.top100_size,
    {
        let mut i: usize = 0;
        while i < self.top100_size
            invariant
                self.shaped(),
                i <= self.top100_size,
                find_id_from(self.table(), id, 0) == find_id_from(self.table(), id, i as int),
            decreases self.top100_size - i,
        {
            let found = match self.top100_list[i] {
                Some(held) => held == id,
                None => false,
            };
            if found {
                return i;
            }
            i += 1;
        }
        i
    }

    /// The first place of the table whose count is below `bound`;
    /// `top100_size` if there is none.
    fn first_below(&self, bound: u64) -> (target: usize)
        requires
            self.shaped(),
        ensures
            target == find_below_from(self.table(), bound as nat, 0),
            target <= self.top100_size,
    {
        let mut i: usize = 0;
        while i < self.top100_size && self.top100_counts[i] >= bound
            invariant
                self.shaped(),
                i <= self.top100_size,
                find_below_from(self.table(), bound as nat, 0) == find_below_from(
                    self.table(),
                    bound as nat,
                    i as int,
                ),
            decreases self.top100_size - i,
        {
            i += 1;
        }
        i
    }

    /// Exchanges the entries of the places `a` and `b`.
    fn swap(&mut self, a: usize, b: usize)
        requires
            a < TOP_COUNT,
            b < TOP_COUNT,
        ensures
            final(self).top100_list@ == old(self).top100_list@.update(
                a as int,
                old(self).top100_list[b as int],
            ).update(b as int, old(self).top100_list[a as int]),
            final(self).top100_counts@ == old(self).top100_counts@.update(
                a as int,
                old(self).top100_counts[b as int],
            ).update(b as int, old(self).top100_counts[a as int]),
            final(self).top100_size == old(self).top100_size,
            final(self).request_counts == old(self).request_counts,
    {
        let temp_ip = self.top100_list[a];
        let temp_count = self.top100_counts[a];
        self.top100_list[a] = self.top100_list[b];
        self.top100_counts[a] = self.top100_counts[b];
        self.top100_list[b] = temp_ip;
        self.top100_counts[b] = temp_count;
    }
}

impl IPStore for PulleyIPStore {
    closed spec fn view(&self) -> State {
        State { counts: self.request_counts@, table: self.table() }
    }

    closed spec fn well_formed(&self) -> bool {
        self.shaped() && self@.consistent()
    }

    proof fn lemma_consistent(&self) {
    }

    fn request_handled(&mut self, ip_address: Address) {
        let count = self.request_counts.get(ip_address);
        if count == u64::MAX {
            return;
        }
        let threshold = self.top100_counts[TOP_COUNT - 1];
        let was_in_top100 = count > threshold;
        let was_on_threshold = count == threshold;
        let count = count + 1;
        proof {
            old(self)@.lemma_record_consistent(ip_address);
            old(self)@.lemma_place_of(ip_address);
            lemma_find_below(old(self).table(), count as nat, 0);
        }
        self.request_counts.set(ip_address, count);
        assert(self.table() =~= old(self).table());

        if was_in_top100 {
            // Already ranked: the entry only has to move up.
            let previous_index = self.position(ip_address);
            let next_index = self.first_below(count);
            self.top100_counts[previous_index] = count;
            self.swap(previous_index, next_index);
            assert(self.table() =~= old(self)@.record(ip_address).table);
        } else if self.top100_size < TOP_COUNT {
            // A place is free: the newcomer takes it.
            self.top100_list[self.top100_size] = Some(ip_address);
            self.top100_counts[self.top100_size] = count;
            self.top100_size += 1;
            assert(self.table() =~= old(self)@.record(ip_address).table);
        } else if was_on_threshold {
            // The count crosses the threshold: unless the address is
            // ranked already, it takes the last place from its holder.
            let found = self.position(ip_address);
            let next_index = self.first_below(count);
            let previous_index = if found < TOP_COUNT {
                found
            } else {
                self.top100_list[TOP_COUNT - 1] = Some(ip_address);
                TOP_COUNT - 1
            };
            self.top100_counts[previous_index] = count;
            self.swap(previous_index, next_index);
            assert(self.table() =~= old(self)@.record(ip_address).table);
        }
    }

    fn top100(&self) -> (top: [Option<Address>; TOP_COUNT]) {
        self.top100_list
    }

    fn clear(&mut self) {
        self.request_counts = CountMap::new();
        self.top100_list = [None;TOP_COUNT];
        self.top100_counts = [0;TOP_COUNT];
        self.top100_size = 0;
        assert(self.table() =~= Seq::<Slot>::empty());
    }
}

} // verus!

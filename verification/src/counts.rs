//! The executable map from address to count.
//!
//! The addresses of each family are kept in a hash map of their own, keyed
//! by the address's bits.

use crate::address::Address;
use std::collections::HashMap;
use vstd::prelude::*;

verus! {

/// How often each address was seen. An address that was never stored has
/// no entry and counts as 0.
pub struct CountMap {
    v4: HashMap<u32, u64>,
    v6: HashMap<u128, u64>,
}

impl View for CountMap {
    type V = Map<Address, nat>;

    closed spec fn view(&self) -> Map<Address, nat> {
        Map::new(
            |id: Address|
                match id {
                    Address::V4(bits) => self.v4@.contains_key(bits),
                    Address::V6(bits) => self.v6@.contains_key(bits),
                },
            |id: Address|
                match id {
                    Address::V4(bits) => self.v4@[bits] as nat,
                    Address::V6(bits) => self.v6@[bits] as nat,
                },
        )
    }
}

impl CountMap {
    /// A map without entries.
    pub fn new() -> (counts: CountMap)
        ensures
            counts@ == Map::<Address, nat>::empty(),
    {
        CountMap { v4: HashMap::new(), v6: HashMap::new() }
    }

    /// The count stored for `id`, 0 if there is none.
    pub fn get(&self, id: Address) -> (count: u64)
        ensures
            count == if self@.contains_key(id) {
                self@[id]
            } else {
                0
            },
    {
        let found = match id {
            Address::V4(bits) => self.v4.get(&bits),
            Address::V6(bits) => self.v6.get(&bits),
        };
        match found {
            Some(count) => *count,
            None => 0,
        }
    }

    /// Stores `count` for `id`, in place of what was stored before.
    pub fn set(&mut self, id: Address, count: u64)
        ensures
            final(self)@ == old(self)@.insert(id, count as nat),
    {
        match id {
            Address::V4(bits) => {
                self.v4.insert(bits, count);
            },
            Address::V6(bits) => {
                self.v6.insert(bits, count);
            },
        }
    }
}

} // verus!

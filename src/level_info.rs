//! The number of valid resting orders at each price of one side.
use vstd::prelude::*;
use std::collections::HashMap;

use crate::types::PriceLevelInfo;

verus! {

broadcast use vstd::std_specs::hash::group_hash_axioms;

impl View for PriceLevelInfo {
    type V = Map<u32, u64>;

    closed spec fn view(&self) -> Map<u32, u64> {
        self.d_level_info@
    }
}

/// The count at `price`; a price that was never populated counts 0.
pub open spec fn count_in(counts: Map<u32, u64>, price: u32) -> nat {
    if counts.contains_key(price) {
        counts[price] as nat
    } else {
        0
    }
}

impl PriceLevelInfo {
    pub open spec fn count(&self, price: u32) -> nat {
        count_in(self@, price)
    }

    pub fn new() -> (r: Self)
        ensures
            r@ == Map::<u32, u64>::empty(),
    {
        PriceLevelInfo { d_level_info: HashMap::new() }
    }

    /// One more valid order waits at `price`.
    pub fn increment(&mut self, price: u32)
        requires
            old(self).count(price) < u64::MAX,
        ensures
            final(self)@ == old(self)@.insert(price, (old(self).count(price) + 1) as u64),
    {
        let current: u64 = match self.d_level_info.get(&price) {
            Some(c) => *c,
            None => 0,
        };
        self.d_level_info.insert(price, current + 1);
    }

    /// One valid order fewer waits at `price`; a count of 0 stays 0.
    pub fn decrement(&mut self, price: u32)
        ensures
            old(self).count(price) > 0 ==> final(self)@ == old(self)@.insert(
                price,
                (old(self).count(price) - 1) as u64,
            ),
            old(self).count(price) == 0 ==> final(self)@ == old(self)@,
    {
        let current: u64 = match self.d_level_info.get(&price) {
            Some(c) => *c,
            None => 0,
        };
        if current > 0 {
            self.d_level_info.insert(price, current - 1);
        }
    }

    /// The number of valid orders waiting at `price`.
    pub fn get_count(&self, price: u32) -> (r: u64)
        ensures
            r == self.count(price),
    {
        match self.d_level_info.get(&price) {
            Some(c) => *c,
            None => 0,
        }
    }
}

impl Default for PriceLevelInfo {
    fn default() -> (r: Self)
        ensures
            r@ == Map::<u32, u64>::empty(),
    {
        PriceLevelInfo::new()
    }
}

} // verus!

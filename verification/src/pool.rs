//! Spare vectors kept for reuse by matching.

use vstd::prelude::*;
use crate::orders::OrderId;

verus! {

/// Spare, empty vectors of filled-order identifiers and of prices, kept so
/// that their allocations can be used again. The pool is owned by one user
/// at a time (`&mut self`), so taking from it and giving back to it always
/// reach the pool.
pub struct MatchingPool {
    filled_orders_pool: Vec<Vec<OrderId>>,
    price_levels_pool: Vec<Vec<u64>>,
}

/// The capacity of `v` (`Vec::capacity`); it depends on the allocator, so
/// nothing is said of it.
#[verifier::external_body]
fn capacity_of<T>(v: &Vec<T>) -> (r: usize) {
    v.capacity()
}

impl MatchingPool {
    /// How many spare identifier vectors the pool holds.
    pub closed spec fn spare_filled(&self) -> nat {
        self.filled_orders_pool@.len()
    }

    /// How many spare price vectors the pool holds.
    pub closed spec fn spare_prices(&self) -> nat {
        self.price_levels_pool@.len()
    }

    /// Every spare vector is empty.
    pub closed spec fn wf(&self) -> bool {
        &&& forall|i: int| 0 <= i < self.filled_orders_pool@.len() ==> (#[trigger] self.filled_orders_pool@[i])@.len() == 0
        &&& forall|i: int| 0 <= i < self.price_levels_pool@.len() ==> (#[trigger] self.price_levels_pool@[i])@.len() == 0
    }

    /// An empty pool.
    pub fn new() -> (r: Self)
        ensures
            r.wf(),
            r.spare_filled() == 0,
            r.spare_prices() == 0,
    {
        MatchingPool { filled_orders_pool: Vec::new(), price_levels_pool: Vec::new() }
    }

    /// An empty identifier vector: a spare one if there is one, else a new one.
    pub fn get_filled_orders_vec(&mut self) -> (r: Vec<OrderId>)
        requires
            old(self).wf(),
        ensures
            final(self).wf(),
            r@.len() == 0,
            final(self).spare_filled() == (if old(self).spare_filled() > 0 { old(self).spare_filled() - 1 } else { 0 }),
            final(self).spare_prices() == old(self).spare_prices(),
    {
        match self.filled_orders_pool.pop() {
            Some(v) => v,
            None => Vec::with_capacity(16),
        }
    }

    /// Give back an identifier vector: it is emptied and kept as a spare when
    /// its capacity is at most 64, and dropped otherwise. The capacity comes
    /// from the allocator; `keep_filled_orders_vec` says what happens for each.
    pub fn return_filled_orders_vec(&mut self, vec: Vec<OrderId>)
        requires
            old(self).wf(),
        ensures
            final(self).wf(),
            final(self).spare_filled() == old(self).spare_filled()
                || final(self).spare_filled() == old(self).spare_filled() + 1,
            final(self).spare_prices() == old(self).spare_prices(),
    {
        let capacity = capacity_of(&vec);
        self.keep_filled_orders_vec(vec, capacity);
    }

    /// Keep `vec`, emptied, as a spare identifier vector when `capacity` (its
    /// capacity) is at most 64; otherwise drop it.
    pub fn keep_filled_orders_vec(&mut self, vec: Vec<OrderId>, capacity: usize)
        requires
            old(self).wf(),
        ensures
            final(self).wf(),
            final(self).spare_filled() == old(self).spare_filled() + (if capacity <= 64 { 1nat } else { 0nat }),
            final(self).spare_prices() == old(self).spare_prices(),
    {
        let mut vec = vec;
        vec.clear();
        if capacity <= 64 {
            self.filled_orders_pool.push(vec);
        }
    }

    /// An empty price vector: a spare one if there is one, else a new one.
    pub fn get_price_vec(&mut self) -> (r: Vec<u64>)
        requires
            old(self).wf(),
        ensures
            final(self).wf(),
            r@.len() == 0,
            final(self).spare_prices() == (if old(self).spare_prices() > 0 { old(self).spare_prices() - 1 } else { 0 }),
            final(self).spare_filled() == old(self).spare_filled(),
    {
        match self.price_levels_pool.pop() {
            Some(v) => v,
            None => Vec::with_capacity(32),
        }
    }

    /// Give back a price vector: it is emptied and kept as a spare when its
    /// capacity is at most 128, and dropped otherwise. The capacity comes
    /// from the allocator; `keep_price_vec` says what happens for each.
    pub fn return_price_vec(&mut self, vec: Vec<u64>)
        requires
            old(self).wf(),
        ensures
            final(self).wf(),
            final(self).spare_prices() == old(self).spare_prices()
                || final(self).spare_prices() == old(self).spare_prices() + 1,
            final(self).spare_filled() == old(self).spare_filled(),
    {
        let capacity = capacity_of(&vec);
        self.keep_price_vec(vec, capacity);
    }

    /// Keep `vec`, emptied, as a spare price vector when `capacity` (its
    /// capacity) is at most 128; otherwise drop it.
    pub fn keep_price_vec(&mut self, vec: Vec<u64>, capacity: usize)
        requires
            old(self).wf(),
        ensures
            final(self).wf(),
            final(self).spare_prices() == old(self).spare_prices() + (if capacity <= 128 { 1nat } else { 0nat }),
            final(self).spare_filled() == old(self).spare_filled(),
    {
        let mut vec = vec;
        vec.clear();
        if capacity <= 128 {
            self.price_levels_pool.push(vec);
        }
    }
}

} // verus!

//! A small cache for the best bid and best ask prices.

use vstd::prelude::*;

verus! {

/// Remembers the best bid and ask prices between modifications of the book.
/// A stored price of zero stands for "not known".
pub struct PriceLevelCache {
    best_bid_price: u64,
    best_ask_price: u64,
    cache_valid: bool,
}

impl PriceLevelCache {
    /// Whether the cache currently holds values.
    pub closed spec fn is_valid(&self) -> bool {
        self.cache_valid
    }

    /// The stored best bid (zero when unknown).
    pub closed spec fn stored_bid(&self) -> u64 {
        self.best_bid_price
    }

    /// The stored best ask (zero when unknown).
    pub closed spec fn stored_ask(&self) -> u64 {
        self.best_ask_price
    }

    /// A cache that holds nothing.
    pub fn new() -> (c: Self)
        ensures
            !c.is_valid(),
            c.stored_bid() == 0,
            c.stored_ask() == 0,
    {
        PriceLevelCache { best_bid_price: 0, best_ask_price: 0, cache_valid: false }
    }

    /// Forget the stored prices.
    pub fn invalidate(&mut self)
        ensures
            !final(self).is_valid(),
            final(self).stored_bid() == old(self).stored_bid(),
            final(self).stored_ask() == old(self).stored_ask(),
    {
        self.cache_valid = false;
    }

    /// The cached best bid, when the cache is valid and holds a nonzero bid.
    pub fn get_cached_best_bid(&self) -> (r: Option<u64>)
        ensures
            r == (if self.is_valid() && self.stored_bid() > 0 {
                Some(self.stored_bid())
            } else {
                None::<u64>
            }),
    {
        if self.cache_valid {
            let price = self.best_bid_price;
            if price > 0 {
                Some(price)
            } else {
                None
            }
        } else {
            None
        }
    }

    /// The cached best ask, when the cache is valid and holds a nonzero ask.
    pub fn get_cached_best_ask(&self) -> (r: Option<u64>)
        ensures
            r == (if self.is_valid() && self.stored_ask() > 0 {
                Some(self.stored_ask())
            } else {
                None::<u64>
            }),
    {
        if self.cache_valid {
            let price = self.best_ask_price;
            if price > 0 {
                Some(price)
            } else {
                None
            }
        } else {
            None
        }
    }

    /// Store both prices (an absent price is stored as zero) and mark the cache valid.
    pub fn update_best_prices(&mut self, best_bid: Option<u64>, best_ask: Option<u64>)
        ensures
            final(self).is_valid(),
            final(self).stored_bid() == (match best_bid {
                Some(b) => b,
                None => 0,
            }),
            final(self).stored_ask() == (match best_ask {
                Some(a) => a,
                None => 0,
            }),
    {
        match best_bid {
            Some(bid) => {
                self.best_bid_price = bid;
            },
            None => {
                self.best_bid_price = 0;
            },
        }
        match best_ask {
            Some(ask) => {
                self.best_ask_price = ask;
            },
            None => {
                self.best_ask_price = 0;
            },
        }
        self.cache_valid = true;
    }
}

} // verus!

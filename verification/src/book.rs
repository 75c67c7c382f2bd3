//! The order book: bid and ask price levels, where each order rests, the last
//! trade price and the market close time.

use vstd::prelude::*;
use std::collections::BTreeMap;
use dashmap::DashMap;
use pricelevel::{PriceLevel, UuidGenerator};
use crate::cache::PriceLevelCache;
use crate::orders::Side;
use crate::outside::{LevelState, level_state, level_ok, location_map, locations_new, random_uuid, generator_new};
use crate::prices::{is_best, best_of, collect_prices, next_price};
use crate::current_time_millis;

verus! {

broadcast use {vstd::std_specs::btree::group_btree_axioms, vstd::string::group_string_axioms};

/// The order book for one symbol.
pub struct OrderBook {
    /// The symbol the book trades.
    pub(crate) symbol: String,
    /// Bid levels by price.
    pub(crate) bids: BTreeMap<u64, PriceLevel>,
    /// Ask levels by price.
    pub(crate) asks: BTreeMap<u64, PriceLevel>,
    /// Where each order was placed: its price and side.
    pub(crate) order_locations: DashMap<u128, (u64, Side)>,
    /// Source of trade identifiers.
    pub(crate) transaction_id_generator: UuidGenerator,
    /// The price of the last trade, when `has_traded`.
    pub(crate) last_trade_price: u64,
    /// Whether any trade happened.
    pub(crate) has_traded: bool,
    /// The market close time, when `has_market_close`.
    pub(crate) market_close_timestamp: u64,
    /// Whether a market close time is set.
    pub(crate) has_market_close: bool,
    /// The cached best prices.
    pub(crate) cache: PriceLevelCache,
    /// The latest clock reading the book has used; its clock never runs back.
    pub(crate) clock: u64,
}

/// The state of each level of a side, by price.
pub open spec fn side_view(m: Map<u64, PriceLevel>) -> Map<u64, LevelState> {
    m.map_values(|l: PriceLevel| level_state(l))
}

/// The facts that hold of every level of a side: the level's price is its
/// key, its state is sound, and every live order there is of that side and
/// that price.
pub open spec fn side_ok(levels: Map<u64, LevelState>, side: Side) -> bool {
    &&& levels.dom().finite()
    &&& forall|p: u64| #[trigger] levels.contains_key(p) ==> {
        let s = levels[p];
        &&& s.price == p
        &&& level_ok(s)
        &&& forall|k: u128| #[trigger] s.orders.contains_key(k) ==>
            s.orders[k].side() == side && s.orders[k].price() == p
    }
}

/// Walking order of the levels that a taker of `side` meets: lowest asks
/// first for a buyer, highest bids first for a seller.
pub open spec fn ascending_for(side: Side) -> bool {
    side == Side::Buy
}

impl OrderBook {
    /// The levels of one side, by price.
    pub closed spec fn levels(&self, side: Side) -> Map<u64, LevelState> {
        match side {
            Side::Buy => side_view(self.bids@),
            Side::Sell => side_view(self.asks@),
        }
    }

    /// Where each order was placed.
    pub closed spec fn locations(&self) -> Map<u128, (u64, Side)> {
        location_map(self.order_locations)
    }

    /// The price of the last trade, if there was one.
    pub closed spec fn last_trade(&self) -> Option<u64> {
        if self.has_traded {
            Some(self.last_trade_price)
        } else {
            None
        }
    }

    /// The market close time, if one is set.
    pub closed spec fn market_close(&self) -> Option<u64> {
        if self.has_market_close {
            Some(self.market_close_timestamp)
        } else {
            None
        }
    }

    /// The book's clock: the latest time it has read.
    pub closed spec fn clock_reading(&self) -> u64 {
        self.clock
    }

    /// The symbol.
    pub closed spec fn symbol_view(&self) -> Seq<char> {
        self.symbol@
    }

    /// The book's invariant.
    pub closed spec fn wf(&self) -> bool {
        &&& side_ok(side_view(self.bids@), Side::Buy)
        &&& side_ok(side_view(self.asks@), Side::Sell)
        &&& (self.cache.is_valid() && self.cache.stored_bid() != 0 ==> is_best(self.bids@.dom(), self.cache.stored_bid(), false))
        &&& (self.cache.is_valid() && self.cache.stored_ask() != 0 ==> is_best(self.asks@.dom(), self.cache.stored_ask(), true))
    }

    /// Nothing that the book's contracts speak of differs between `self` and `other`.
    pub open spec fn same_contents(&self, other: &OrderBook) -> bool {
        &&& self.levels(Side::Buy) == other.levels(Side::Buy)
        &&& self.levels(Side::Sell) == other.levels(Side::Sell)
        &&& self.locations() == other.locations()
        &&& self.last_trade() == other.last_trade()
        &&& self.market_close() == other.market_close()
        &&& self.symbol_view() == other.symbol_view()
    }

    /// The live order `k` rests in the level at price `p` on side `s`.
    pub open spec fn rests(&self, k: u128, p: u64, s: Side) -> bool {
        self.levels(s).contains_key(p) && self.levels(s)[p].orders.contains_key(k)
    }

    /// The book's records agree with each other: every recorded location
    /// names a level where that order rests, every resting order has its
    /// location recorded, and every level holds at least one live order, as
    /// many as its order counter reads.
    pub open spec fn intact(&self) -> bool {
        &&& forall|k: u128| #[trigger] self.locations().contains_key(k)
            ==> self.rests(k, self.locations()[k].0, self.locations()[k].1)
        &&& forall|k: u128, p: u64, s: Side| #[trigger] self.rests(k, p, s)
            ==> self.locations().contains_key(k) && self.locations()[k] == (p, s)
        &&& forall|p: u64, s: Side| #[trigger] self.levels(s).contains_key(p) ==> {
            &&& self.levels(s)[p].orders.len() > 0
            &&& self.levels(s)[p].order_count == self.levels(s)[p].orders.len()
        }
    }

    /// Books with the same contents are intact together.
    pub proof fn lemma_same_contents_intact(&self, other: &OrderBook)
        requires
            self.same_contents(other),
        ensures
            self.intact() == other.intact(),
    {
        assert forall|s: Side| self.levels(s) == other.levels(s) by {
            match s {
                Side::Buy => {},
                Side::Sell => {},
            }
        }
        assert forall|k: u128, p: u64, s: Side| self.rests(k, p, s) == other.rests(k, p, s) by {
            assert(self.levels(s) == other.levels(s));
        }
    }

    /// The views, spelled out over the fields.
    pub(crate) proof fn lemma_views(&self)
        ensures
            self.levels(Side::Buy) == side_view(self.bids@),
            self.levels(Side::Sell) == side_view(self.asks@),
            self.locations() == location_map(self.order_locations),
            self.last_trade() == (if self.has_traded { Some(self.last_trade_price) } else { None::<u64> }),
            self.market_close() == (if self.has_market_close { Some(self.market_close_timestamp) } else { None::<u64> }),
            self.symbol_view() == self.symbol@,
            self.clock_reading() == self.clock,
    {
    }

    /// What the invariant says of the two sides.
    pub(crate) proof fn lemma_wf_sides(&self)
        requires
            self.wf(),
        ensures
            side_ok(side_view(self.bids@), Side::Buy),
            side_ok(side_view(self.asks@), Side::Sell),
    {
    }

    /// With both sides sound and the cache cleared, the invariant holds.
    pub(crate) proof fn lemma_wf_intro(&self)
        requires
            side_ok(side_view(self.bids@), Side::Buy),
            side_ok(side_view(self.asks@), Side::Sell),
            !self.cache.is_valid(),
        ensures
            self.wf(),
    {
    }

    pub(crate) proof fn lemma_levels_dom(&self)
        ensures
            self.levels(Side::Buy).dom() == self.bids@.dom(),
            self.levels(Side::Sell).dom() == self.asks@.dom(),
    {
        assert(self.levels(Side::Buy).dom() =~= self.bids@.dom());
        assert(self.levels(Side::Sell).dom() =~= self.asks@.dom());
    }

    /// An empty book for `symbol`.
    pub fn new(symbol: &str) -> (r: Self)
        ensures
            r.wf(),
            r.symbol_view() == symbol@,
            r.levels(Side::Buy).is_empty(),
            r.levels(Side::Sell).is_empty(),
            r.locations().is_empty(),
            r.last_trade().is_none(),
            r.market_close().is_none(),
            r.intact(),
    {
        let namespace = random_uuid();
        let r = OrderBook {
            symbol: symbol.to_string(),
            bids: BTreeMap::new(),
            asks: BTreeMap::new(),
            order_locations: locations_new(),
            transaction_id_generator: generator_new(namespace),
            last_trade_price: 0,
            has_traded: false,
            market_close_timestamp: 0,
            has_market_close: false,
            cache: PriceLevelCache::new(),
            clock: 0,
        };
        proof {
            assert(side_view(r.bids@) =~= Map::empty());
            assert(side_view(r.asks@) =~= Map::empty());
            r.lemma_views();
            crate::laws::law_empty_book_intact(r);
        }
        r
    }

    /// The symbol.
    pub fn symbol(&self) -> (r: &str)
        ensures
            r@ == self.symbol_view(),
    {
        self.symbol.as_str()
    }

    /// Read the clock for the book: the current time in milliseconds since
    /// the Unix epoch, or the book's latest reading when the clock reads
    /// earlier, so that the book's clock never runs back. The book's clock
    /// then stands at the time returned; nothing else changes.
    pub fn read_clock(&mut self) -> (t: u64)
        requires
            old(self).wf(),
        ensures
            final(self).wf(),
            t == final(self).clock_reading(),
            t >= old(self).clock_reading(),
            final(self).same_contents(old(self)),
    {
        let now = current_time_millis();
        if now > self.clock {
            self.clock = now;
        }
        self.clock
    }

    /// Set the market close time used by DAY orders.
    pub fn set_market_close_timestamp(&mut self, timestamp: u64)
        requires
            old(self).wf(),
        ensures
            final(self).wf(),
            final(self).market_close() == Some(timestamp),
            final(self).levels(Side::Buy) == old(self).levels(Side::Buy),
            final(self).levels(Side::Sell) == old(self).levels(Side::Sell),
            final(self).locations() == old(self).locations(),
            final(self).last_trade() == old(self).last_trade(),
            final(self).symbol_view() == old(self).symbol_view(),
    {
        self.market_close_timestamp = timestamp;
        self.has_market_close = true;
    }

    /// Clear the market close time.
    pub fn clear_market_close_timestamp(&mut self)
        requires
            old(self).wf(),
        ensures
            final(self).wf(),
            final(self).market_close().is_none(),
            final(self).levels(Side::Buy) == old(self).levels(Side::Buy),
            final(self).levels(Side::Sell) == old(self).levels(Side::Sell),
            final(self).locations() == old(self).locations(),
            final(self).last_trade() == old(self).last_trade(),
            final(self).symbol_view() == old(self).symbol_view(),
    {
        self.has_market_close = false;
    }

    /// The market close time, if one is set.
    pub fn market_close_timestamp(&self) -> (r: Option<u64>)
        ensures
            r == self.market_close(),
    {
        if self.has_market_close {
            Some(self.market_close_timestamp)
        } else {
            None
        }
    }

    /// The price of the last trade, if there was one.
    pub fn last_trade_price(&self) -> (r: Option<u64>)
        ensures
            r == self.last_trade(),
    {
        if self.has_traded {
            Some(self.last_trade_price)
        } else {
            None
        }
    }

    /// The highest bid price, if there is a bid.
    pub fn best_bid(&mut self) -> (r: Option<u64>)
        requires
            old(self).wf(),
        ensures
            final(self).clock_reading() == old(self).clock_reading(),
            final(self).wf(),
            final(self).same_contents(old(self)),
            best_of(old(self).levels(Side::Buy).dom(), false, r),
    {
        proof {
            self.lemma_levels_dom();
        }
        if let Some(cached_bid) = self.cache.get_cached_best_bid() {
            return Some(cached_bid);
        }
        let prices = collect_prices(&self.bids);
        let best = next_price(&prices, None, false);
        self.cache.update_best_prices(best, None);
        proof {
            self.lemma_levels_dom();
        }
        best
    }

    /// The lowest ask price, if there is an ask.
    pub fn best_ask(&mut self) -> (r: Option<u64>)
        requires
            old(self).wf(),
        ensures
            final(self).clock_reading() == old(self).clock_reading(),
            final(self).wf(),
            final(self).same_contents(old(self)),
            best_of(old(self).levels(Side::Sell).dom(), true, r),
    {
        proof {
            self.lemma_levels_dom();
        }
        if let Some(cached_ask) = self.cache.get_cached_best_ask() {
            return Some(cached_ask);
        }
        let prices = collect_prices(&self.asks);
        let best = next_price(&prices, None, true);
        self.cache.update_best_prices(None, best);
        proof {
            self.lemma_levels_dom();
        }
        best
    }

    /// Best ask minus best bid (zero when they cross), if both exist.
    pub fn spread(&mut self) -> (r: Option<u64>)
        requires
            old(self).wf(),
        ensures
            final(self).wf(),
            final(self).same_contents(old(self)),
            (r is Some) <==> (!old(self).levels(Side::Buy).dom().is_empty()
                && !old(self).levels(Side::Sell).dom().is_empty()),
            forall|b: u64, a: u64| is_best(old(self).levels(Side::Buy).dom(), b, false)
                && is_best(old(self).levels(Side::Sell).dom(), a, true)
                ==> r == Some(if a >= b { (a - b) as u64 } else { 0u64 }),
    {
        let bid = self.best_bid();
        let ask = self.best_ask();
        match (bid, ask) {
            (Some(b), Some(a)) => Some(a.saturating_sub(b)),
            _ => None,
        }
    }
}

} // verus!

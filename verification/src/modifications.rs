//! Placing, finding, cancelling and changing orders.

use vstd::prelude::*;
use std::collections::BTreeMap;
use pricelevel::PriceLevel;
use crate::book::{OrderBook, side_view, side_ok, ascending_for};
use crate::error::OrderBookError;
use crate::execution::MatchResult;
use crate::matching::{insufficient, shows_positive};
use crate::prices::{is_best, best_price};
use crate::current_time_millis;
use crate::orders::{OrderId, OrderType, Side, TimeInForce};
use crate::outside::{
    LevelState, level_state, level_ok, empty_level, level_new, level_add, level_cancel, level_orders,
    level_order_count, lists_orders, locations_get, locations_insert, locations_remove, count_inc,
    count_dec, wrap_add, wrap_sub,
};

verus! {

broadcast use vstd::std_specs::btree::group_btree_axioms;

/// The level at `price` after `order` is added to `old` (a new empty level when there is none).
pub open spec fn level_with(old: Option<LevelState>, price: u64, order: OrderType) -> LevelState {
    let s = match old {
        Some(s) => s,
        None => empty_level(price),
    };
    LevelState {
        price: s.price,
        queue: s.queue.push(order.id().0),
        orders: s.orders.insert(order.id().0, order),
        order_count: count_inc(s.order_count),
        visible: wrap_add(s.visible, order.visible_quantity()),
        hidden: wrap_add(s.hidden, order.hidden_quantity()),
    }
}

/// The level `s` after its live order `id` is cancelled.
pub open spec fn level_without(s: LevelState, id: u128) -> LevelState {
    let o = s.orders[id];
    LevelState {
        price: s.price,
        queue: s.queue,
        orders: s.orders.remove(id),
        order_count: count_dec(s.order_count),
        visible: wrap_sub(s.visible, o.visible_quantity()),
        hidden: wrap_sub(s.hidden, o.hidden_quantity()),
    }
}

/// The state of a level in `levels`, if there is one at `price`.
pub open spec fn level_at(levels: Map<u64, LevelState>, price: u64) -> Option<LevelState> {
    if levels.contains_key(price) {
        Some(levels[price])
    } else {
        None
    }
}

impl OrderBook {
    /// `b1` is `b0` with `order` placed at its price on its side.
    pub open spec fn placed(b0: OrderBook, b1: OrderBook, order: OrderType) -> bool {
        let side = order.side();
        let p = order.price();
        &&& b1.levels(side) == b0.levels(side).insert(p, level_with(level_at(b0.levels(side), p), p, order))
        &&& b1.levels(side.opposite()) == b0.levels(side.opposite())
        &&& b1.locations() == b0.locations().insert(order.id().0, (p, side))
        &&& b1.last_trade() == b0.last_trade()
        &&& b1.market_close() == b0.market_close()
        &&& b1.symbol_view() == b0.symbol_view()
    }

    /// The resting order `id`, found through its recorded location.
    pub open spec fn order_spec(&self, id: OrderId) -> Option<OrderType> {
        if self.locations().contains_key(id.0) {
            let (p, s) = self.locations()[id.0];
            if self.levels(s).contains_key(p) && self.levels(s)[p].orders.contains_key(id.0) {
                Some(self.levels(s)[p].orders[id.0])
            } else {
                None
            }
        } else {
            None
        }
    }

    /// What cancelling `id` does: when the order rests where its location
    /// says, it leaves its level (and the level leaves the book when its
    /// order counter comes to zero) and its location is dropped; otherwise
    /// nothing changes.
    pub open spec fn cancel_post(b0: OrderBook, b1: OrderBook, id: OrderId, r: Option<OrderType>) -> bool {
        match b0.order_spec(id) {
            None => r.is_none() && b1.same_contents(&b0),
            Some(o) => {
                let (p, s) = b0.locations()[id.0];
                let after = level_without(b0.levels(s)[p], id.0);
                &&& r == Some(o)
                &&& b1.levels(s) == (if after.order_count == 0 {
                    b0.levels(s).remove(p)
                } else {
                    b0.levels(s).insert(p, after)
                })
                &&& b1.levels(s.opposite()) == b0.levels(s.opposite())
                &&& b1.locations() == b0.locations().remove(id.0)
                &&& b1.last_trade() == b0.last_trade()
                &&& b1.market_close() == b0.market_close()
                &&& b1.symbol_view() == b0.symbol_view()
            },
        }
    }

    /// The order found under identifier `id` carries that identifier.
    pub(crate) proof fn lemma_order_spec_id(&self, id: OrderId)
        requires
            self.wf(),
        ensures
            self.order_spec(id) matches Some(o) ==> o.id() == id,
    {
        self.lemma_views();
        self.lemma_wf_sides();
    }

    /// Put `order` into its level (made if needed) and record its location.
    pub fn place_order_in_book(&mut self, order: OrderType) -> (r: OrderType)
        requires
            old(self).wf(),
        ensures
            final(self).clock_reading() == old(self).clock_reading(),
            final(self).wf(),
            r == order,
            OrderBook::placed(*old(self), *final(self), order),
    {
        proof {
            self.lemma_views();
            self.lemma_wf_sides();
        }
        let side = order.side();
        let price = order.price();
        let ghost b0 = *self;
        let stored = match side {
            Side::Buy => place_in(&mut self.bids, side, order),
            Side::Sell => place_in(&mut self.asks, side, order),
        };
        locations_insert(&mut self.order_locations, order.id().0, (price, side));
        self.cache.invalidate();
        proof {
            self.lemma_views();
            b0.lemma_views();
            self.lemma_wf_intro();
        }
        stored
    }

    /// The resting order `id`, if its recorded location holds it.
    pub fn get_order(&self, order_id: OrderId) -> (r: Option<OrderType>)
        requires
            self.wf(),
        ensures
            r == self.order_spec(order_id),
    {
        proof {
            self.lemma_views();
            self.lemma_wf_sides();
        }
        match locations_get(&self.order_locations, order_id.0) {
            None => None,
            Some((price, side)) => {
                let levels = match side {
                    Side::Buy => &self.bids,
                    Side::Sell => &self.asks,
                };
                proof {
                    assert(side_ok(side_view(levels@), side));
                    assert(side_view(levels@) == self.levels(side));
                }
                match levels.get(&price) {
                    None => None,
                    Some(level) => {
                        proof {
                            assert(side_view(levels@).contains_key(price));
                            assert(level_ok(level_state(*level)));
                        }
                        let orders = level_orders(level);
                        find_by_id(&orders, order_id)
                    },
                }
            },
        }
    }

    /// Cancel the resting order `order_id`; hands back the cancelled order,
    /// or nothing when it is not where its location says.
    pub fn cancel_order(&mut self, order_id: OrderId) -> (r: Result<Option<OrderType>, crate::error::OrderBookError>)
        requires
            old(self).wf(),
        ensures
            final(self).clock_reading() == old(self).clock_reading(),
            final(self).wf(),
            match r {
                Ok(found) => OrderBook::cancel_post(*old(self), *final(self), order_id, found),
                Err(_) => false,
            },
            old(self).intact() ==> final(self).intact(),
    {
        proof {
            self.lemma_views();
            self.lemma_wf_sides();
        }
        let ghost b0 = *self;
        match locations_get(&self.order_locations, order_id.0) {
            None => Ok(None),
            Some((price, side)) => {
                let result = match side {
                    Side::Buy => cancel_in(&mut self.bids, side, price, order_id),
                    Side::Sell => cancel_in(&mut self.asks, side, price, order_id),
                };
                if result.is_some() {
                    locations_remove(&mut self.order_locations, order_id.0);
                }
                self.cache.invalidate();
                proof {
                    self.lemma_views();
                    b0.lemma_views();
                    self.lemma_wf_intro();
                    assert(self.same_contents(&b0) || result.is_some());
                    if b0.intact() {
                        assert(OrderBook::cancel_post(b0, *self, order_id, result));
                        crate::laws::law_cancel_keeps_intact(b0, *self, order_id, result);
                    }
                }
                Ok(result)
            },
        }
    }
}

/// The first order of `orders` with identifier `id`, if any.
fn find_by_id(orders: &Vec<OrderType>, id: OrderId) -> (r: Option<OrderType>)
    ensures
        forall|m: Map<u128, OrderType>| lists_orders(orders@, m) ==>
            r == (if m.contains_key(id.0) { Some(m[id.0]) } else { None::<OrderType> }),
{
    let mut i: usize = 0;
    while i < orders.len()
        invariant
            i <= orders@.len(),
            forall|j: int| 0 <= j < i ==> orders@[j].id() != id,
        decreases orders@.len() - i,
    {
        if orders[i].id() == id {
            proof {
                assert forall|m: Map<u128, OrderType>| lists_orders(orders@, m) implies
                    Some(orders@[i as int]) == (if m.contains_key(id.0) { Some(m[id.0]) } else { None::<OrderType> }) by {
                    assert(m.contains_key(orders@[i as int].id().0));
                }
            }
            return Some(orders[i]);
        }
        i = i + 1;
    }
    proof {
        assert forall|m: Map<u128, OrderType>| lists_orders(orders@, m) implies !m.contains_key(id.0) by {
            if m.contains_key(id.0) {
                assert(m.dom().finite());
                lemma_listed_key(orders@, m, id.0);
            }
        }
    }
    None
}

/// Every key of a listed map is the identifier of a listed order.
proof fn lemma_listed_key(v: Seq<OrderType>, m: Map<u128, OrderType>, k: u128)
    requires
        lists_orders(v, m),
        m.contains_key(k),
    ensures
        exists|i: int| 0 <= i < v.len() && v[i].id().0 == k,
{
    let ids = Set::new(|x: u128| exists|i: int| 0 <= i < v.len() && v[i].id().0 == x);
    if !(exists|i: int| 0 <= i < v.len() && v[i].id().0 == k) {
        assert(m.dom().finite());
        let listed = v.map_values(|o: OrderType| o.id().0);
        assert(listed.no_duplicates()) by {
            assert forall|i: int, j: int| 0 <= i < listed.len() && 0 <= j < listed.len() && i != j implies listed[i] != listed[j] by {
                if i < j {
                    assert(v[i].id() != v[j].id());
                } else {
                    assert(v[j].id() != v[i].id());
                }
            }
        }
        assert(listed.to_set().subset_of(m.dom().remove(k))) by {
            assert forall|x: u128| #[trigger] listed.to_set().contains(x) implies m.dom().remove(k).contains(x) by {
                let i = choose|i: int| 0 <= i < listed.len() && listed[i] == x;
                assert(m.contains_key(v[i].id().0));
            }
        }
        listed.unique_seq_to_set();
        vstd::set_lib::lemma_len_subset(listed.to_set(), m.dom().remove(k));
        assert(false);
    }
}

/// Add `order` to the level at its price in `levels` (making the level if needed).
fn place_in(levels: &mut BTreeMap<u64, PriceLevel>, side: Side, order: OrderType) -> (r: OrderType)
    requires
        side_ok(side_view(old(levels)@), side),
        order.side() == side,
    ensures
        r == order,
        side_ok(side_view(final(levels)@), side),
        side_view(final(levels)@) == side_view(old(levels)@).insert(
            order.price(),
            level_with(level_at(side_view(old(levels)@), order.price()), order.price(), order),
        ),
{
    let price = order.price();
    let ghost lv = side_view(levels@);
    let mut level = match levels.remove(&price) {
        Some(l) => l,
        None => level_new(price),
    };
    proof {
        assert(level_state(level) == (match level_at(lv, price) { Some(s) => s, None => empty_level(price) }));
    }
    let stored = level_add(&mut level, order);
    levels.insert(price, level);
    proof {
        assert(side_view(levels@) =~= lv.insert(price, level_with(level_at(lv, price), price, order)));
        assert forall|k: u128| #[trigger] level_state(level).orders.contains_key(k) implies
            level_state(level).orders[k].id().0 == k by {
        }
    }
    stored
}

/// Cancel order `id` in the level at `price` of `levels`, dropping the level
/// when its order counter comes to zero.
fn cancel_in(levels: &mut BTreeMap<u64, PriceLevel>, side: Side, price: u64, id: OrderId) -> (r: Option<OrderType>)
    requires
        side_ok(side_view(old(levels)@), side),
    ensures
        side_ok(side_view(final(levels)@), side),
        ({
            let lv = side_view(old(levels)@);
            if lv.contains_key(price) && lv[price].orders.contains_key(id.0) {
                let after = level_without(lv[price], id.0);
                &&& r == Some(lv[price].orders[id.0])
                &&& side_view(final(levels)@) == (if after.order_count == 0 { lv.remove(price) } else { lv.insert(price, after) })
            } else {
                r.is_none() && side_view(final(levels)@) == lv
            }
        }),
{
    let ghost lv = side_view(levels@);
    match levels.remove(&price) {
        None => {
            proof {
                assert(side_view(levels@) =~= lv);
            }
            None
        },
        Some(l) => {
            let mut level = l;
            let found = level_cancel(&mut level, id);
            let count = level_order_count(&level);
            if found.is_some() && count == 0 {
                proof {
                    assert(side_view(levels@) =~= lv.remove(price));
                }
            } else {
                levels.insert(price, level);
                proof {
                    assert(side_view(levels@) =~= lv.insert(price, level_state(level)));
                    if found.is_none() {
                        assert(side_view(levels@) =~= lv);
                    }
                }
            }
            found
        },
    }
}

/// `e` is the invalid-operation error with message `msg`.
pub open spec fn invalid_operation(e: OrderBookError, msg: Seq<char>) -> bool {
    match e {
        OrderBookError::InvalidOperation { message } => message@ == msg,
        _ => false,
    }
}

/// `e` is the price-crossing error for an order of `side` at `price` against `opposite_price`.
pub open spec fn price_crossing(e: OrderBookError, price: u64, side: Side, opposite_price: u64) -> bool {
    match e {
        OrderBookError::PriceCrossing { price: p, side: s, opposite_price: o } =>
            p == price && s == side && o == opposite_price,
        _ => false,
    }
}

/// An order of `side` at `price` would trade with the opposite side whose
/// prices are `opposite`: a buyer at or above the best ask, a seller at or
/// below the best bid.
pub open spec fn crosses(opposite: Set<u64>, price: u64, side: Side) -> bool {
    match side {
        Side::Buy => exists|a: u64| is_best(opposite, a, true) && price >= a,
        Side::Sell => exists|b: u64| is_best(opposite, b, false) && price <= b,
    }
}

/// The message of the error for an order that has already expired.
pub open spec fn expired_message() -> Seq<char> {
    "Order has already expired"@
}

impl OrderBook {
    /// An incoming order of `side` at `price` for `quantity`, with policy
    /// `time_in_force` (post-only when `post_only`), can be taken by this
    /// book: when it is immediate, would not be refused for crossing and
    /// would not be refused as a fill-or-kill order lacking liquidity, every
    /// level its match reaches can be matched against.
    pub open spec fn can_take_parts(&self, side: Side, price: u64, quantity: u64, time_in_force: TimeInForce, post_only: bool) -> bool {
        (time_in_force.is_immediate()
            && !(post_only && crosses(self.levels(side.opposite()).dom(), price, side))
            && !(time_in_force == TimeInForce::Fok && self.peek_spec(side, quantity, Some(price)) < quantity))
            ==> self.sweep_ok(side, quantity, Some(price))
    }

    /// Adding an order `id` of `side` at `price` keeps this book's records
    /// in step: the book is intact, the identifier is new to it, the level
    /// the order would join has room on its counter, and every live order on
    /// the other side shows a positive quantity.
    pub open spec fn records_room(&self, id: OrderId, side: Side, price: u64) -> bool {
        &&& self.intact()
        &&& !self.locations().contains_key(id.0)
        &&& (self.levels(side).contains_key(price) ==> self.levels(side)[price].order_count < usize::MAX)
        &&& shows_positive(self.levels(side.opposite()))
    }

    /// Adding `order` keeps this book's records in step (`records_room`).
    pub open spec fn add_keeps_records(&self, order: OrderType) -> bool {
        self.records_room(order.id(), order.side(), order.price())
    }

    /// The book can take `order` (see `can_take_parts`).
    pub open spec fn can_take(&self, order: OrderType) -> bool {
        self.can_take_parts(order.side(), order.price(), order.visible_quantity(), order.time_in_force(), order.is_post_only())
    }

    /// What handling an immediate-or-cancel or fill-or-kill order does: a
    /// fill-or-kill order whose shown quantity the opposite side cannot fill
    /// up to its price is refused with the quantity that could be filled;
    /// otherwise the order's shown quantity is matched up to its price and
    /// nothing of it rests.
    pub open spec fn immediate_post(
        b0: OrderBook,
        b1: OrderBook,
        order: OrderType,
        r: Result<(OrderType, MatchResult), OrderBookError>,
    ) -> bool {
        let side = order.side();
        let p = order.price();
        let q = order.visible_quantity();
        let available = b0.peek_spec(side, q, Some(p));
        if order.is_fill_or_kill() && available < q {
            &&& b1.same_contents(&b0)
            &&& match r {
                Err(e) => insufficient(e, side, q, available),
                Ok(_) => false,
            }
        } else {
            &&& OrderBook::match_state_post(b0, b1, side, q, Some(p))
            &&& match r {
                Ok((o, mr)) => o == order && OrderBook::match_result_post(b0, order.id(), side, q, Some(p), Ok(mr)),
                Err(_) => false,
            }
        }
    }

    /// What adding `order` at time `now` does: an expired order is refused;
    /// a post-only order that would cross is refused with the best opposite
    /// price; an immediate order is handled as `immediate_post` says; any
    /// other order is placed in the book.
    pub open spec fn add_post(
        b0: OrderBook,
        b1: OrderBook,
        order: OrderType,
        now: u64,
        r: Result<(OrderType, Option<MatchResult>), OrderBookError>,
    ) -> bool {
        let side = order.side();
        let p = order.price();
        let opposite = b0.levels(side.opposite()).dom();
        if order.time_in_force().is_expired(now, b0.market_close()) {
            &&& b1.same_contents(&b0)
            &&& match r {
                Err(e) => invalid_operation(e, expired_message()),
                Ok(_) => false,
            }
        } else if order.is_post_only() && crosses(opposite, p, side) {
            &&& b1.same_contents(&b0)
            &&& match r {
                Err(e) => price_crossing(e, p, side, best_price(opposite, ascending_for(side))),
                Ok(_) => false,
            }
        } else if order.is_immediate() {
            let q = order.visible_quantity();
            let available = b0.peek_spec(side, q, Some(p));
            if order.is_fill_or_kill() && available < q {
                &&& b1.same_contents(&b0)
                &&& match r {
                    Err(e) => insufficient(e, side, q, available),
                    Ok(_) => false,
                }
            } else {
                &&& OrderBook::match_state_post(b0, b1, side, q, Some(p))
                &&& match r {
                    Ok((o, Some(mr))) => o == order && OrderBook::match_result_post(b0, order.id(), side, q, Some(p), Ok(mr)),
                    _ => false,
                }
            }
        } else {
            OrderBook::placed(b0, b1, order) && r == Ok::<(OrderType, Option<MatchResult>), OrderBookError>((order, None))
        }
    }

    /// Books with the same contents have the same levels on either side.
    pub proof fn lemma_same_contents_levels(b0: OrderBook, c0: OrderBook)
        requires
            b0.same_contents(&c0),
        ensures
            forall|s: Side| #[trigger] b0.levels(s) == c0.levels(s),
    {
        assert forall|s: Side| #[trigger] b0.levels(s) == c0.levels(s) by {
            match s {
                Side::Buy => {},
                Side::Sell => {},
            }
        }
    }

    /// What adding an order does depends on the book only through its contents.
    pub proof fn lemma_add_post_contents(
        b0: OrderBook,
        c0: OrderBook,
        b1: OrderBook,
        order: OrderType,
        now: u64,
        full: Result<(OrderType, Option<MatchResult>), OrderBookError>,
    )
        requires
            b0.same_contents(&c0),
        ensures
            OrderBook::add_post(b0, b1, order, now, full) == OrderBook::add_post(c0, b1, order, now, full),
    {
        OrderBook::lemma_same_contents_levels(b0, c0);
        let side = order.side();
        assert(b0.levels(side) == c0.levels(side));
        assert(b0.levels(side.opposite()) == c0.levels(side.opposite()));
        assert(b0.peek_spec(side, order.visible_quantity(), Some(order.price()))
            == c0.peek_spec(side, order.visible_quantity(), Some(order.price())));
        assert(b1.same_contents(&b0) == b1.same_contents(&c0));
        assert(OrderBook::placed(b0, b1, order) == OrderBook::placed(c0, b1, order));
        assert(OrderBook::match_state_post(b0, b1, side, order.visible_quantity(), Some(order.price()))
            == OrderBook::match_state_post(c0, b1, side, order.visible_quantity(), Some(order.price())));
        assert forall|mr: MatchResult| OrderBook::match_result_post(b0, order.id(), side, order.visible_quantity(), Some(order.price()), Ok(mr))
            == OrderBook::match_result_post(c0, order.id(), side, order.visible_quantity(), Some(order.price()), Ok(mr)) by {}
    }

    /// Whether `order` has expired by the clock, given the market close
    /// time. The clock is read here; nothing is said of it.
    pub fn has_expired(&self, order: &OrderType) -> (r: bool)
        ensures
            exists|t: u64| r == #[trigger] order.time_in_force().is_expired(t, self.market_close()),
    {
        let now = current_time_millis();
        let r = order.time_in_force().is_expired(now, self.market_close_timestamp());
        proof {
            assert(r == order.time_in_force().is_expired(now, self.market_close()));
        }
        r
    }

    /// Whether an order of `side` at `price` would trade with the opposite side.
    pub fn will_cross_market(&mut self, price: u64, side: Side) -> (r: bool)
        requires
            old(self).wf(),
        ensures
            final(self).clock_reading() == old(self).clock_reading(),
            final(self).wf(),
            final(self).same_contents(old(self)),
            r == crosses(old(self).levels(side.opposite()).dom(), price, side),
    {
        match side {
            Side::Buy => match self.best_ask() {
                Some(best_ask) => price >= best_ask,
                None => false,
            },
            Side::Sell => match self.best_bid() {
                Some(best_bid) => price <= best_bid,
                None => false,
            },
        }
    }

    /// Match an immediate-or-cancel or fill-or-kill order; nothing of it rests.
    pub fn handle_immediate_order(&mut self, order: OrderType) -> (r: Result<(OrderType, MatchResult), OrderBookError>)
        requires
            old(self).wf(),
            (order.is_fill_or_kill()
                && old(self).peek_spec(order.side(), order.visible_quantity(), Some(order.price())) < order.visible_quantity())
                || old(self).sweep_ok(order.side(), order.visible_quantity(), Some(order.price())),
        ensures
            final(self).clock_reading() == old(self).clock_reading(),
            final(self).wf(),
            OrderBook::immediate_post(*old(self), *final(self), order, r),
            old(self).intact() && shows_positive(old(self).levels(order.side().opposite())) ==> final(self).intact(),
    {
        let id = order.id();
        let quantity = order.visible_quantity();
        let side = order.side();
        let price = order.price();
        if order.is_fill_or_kill() {
            let available = self.peek_match(side, quantity, Some(price));
            if available < quantity {
                return Err(OrderBookError::InsufficientLiquidity { side, requested: quantity, available });
            }
        }
        match self.match_order(id, side, quantity, Some(price)) {
            Ok(m) => Ok((order, m)),
            Err(e) => Err(e),
        }
    }

    /// Add `order` at time `now`, handing back the order and, for an
    /// immediate order, the outcome of matching it.
    pub fn add_order_reporting_at(&mut self, order: OrderType, now: u64) -> (r: Result<(OrderType, Option<MatchResult>), OrderBookError>)
        requires
            old(self).wf(),
            old(self).can_take(order),
        ensures
            final(self).clock_reading() == old(self).clock_reading(),
            final(self).wf(),
            OrderBook::add_post(*old(self), *final(self), order, now, r),
            old(self).add_keeps_records(order) ==> final(self).intact(),
    {
        let price = order.price();
        let side = order.side();
        let ghost b_in = *self;
        if order.time_in_force().is_expired(now, self.market_close_timestamp()) {
            return Err(OrderBookError::InvalidOperation { message: "Order has already expired".to_string() });
        }
        if order.is_post_only() && self.will_cross_market(price, side) {
            let opposite_price = match side {
                Side::Buy => self.best_ask(),
                Side::Sell => self.best_bid(),
            };
            proof {
                old(self).lemma_views();
                old(self).lemma_wf_sides();
                crate::prices::lemma_best_exists(old(self).levels(side.opposite()).dom(), ascending_for(side));
            }
            match opposite_price {
                Some(opposite_price) => {
                    proof {
                        self.lemma_same_contents_intact(&b_in);
                    }
                    return Err(OrderBookError::PriceCrossing { price, side, opposite_price });
                },
                None => {},
            }
        }
        proof {
            self.lemma_same_contents_intact(&b_in);
        }
        if order.is_immediate() {
            return match self.handle_immediate_order(order) {
                Ok((o, m)) => Ok((o, Some(m))),
                Err(e) => Err(e),
            };
        }
        let ghost b0 = *self;
        let stored = self.place_order_in_book(order);
        proof {
            if b_in.add_keeps_records(order) {
                assert(b0.add_keeps_records(order));
                crate::laws::law_place_keeps_intact(b0, *self, order);
            }
        }
        Ok((stored, None))
    }

    /// Add `order` at time `now`.
    pub fn add_order_at(&mut self, order: OrderType, now: u64) -> (r: Result<OrderType, OrderBookError>)
        requires
            old(self).wf(),
            old(self).can_take(order),
        ensures
            final(self).clock_reading() == old(self).clock_reading(),
            final(self).wf(),
            exists|full: Result<(OrderType, Option<MatchResult>), OrderBookError>|
                #[trigger] OrderBook::add_post(*old(self), *final(self), order, now, full) && match full {
                    Ok((o, _)) => r == Ok::<OrderType, OrderBookError>(o),
                    Err(e) => r == Err::<OrderType, OrderBookError>(e),
                },
            old(self).add_keeps_records(order) ==> final(self).intact(),
    {
        let full = self.add_order_reporting_at(order, now);
        match full {
            Ok((o, _)) => Ok(o),
            Err(e) => Err(e),
        }
    }

    /// Add `order` now: the book reads its clock (`read_clock`) and judges
    /// the order at that time, which the book's clock then shows.
    pub fn add_order(&mut self, order: OrderType) -> (r: Result<OrderType, OrderBookError>)
        requires
            old(self).wf(),
            old(self).can_take(order),
        ensures
            final(self).wf(),
            exists|now: u64, full: Result<(OrderType, Option<MatchResult>), OrderBookError>|
                #[trigger] OrderBook::add_post(*old(self), *final(self), order, now, full) && match full {
                    Ok((o, _)) => r == Ok::<OrderType, OrderBookError>(o),
                    Err(e) => r == Err::<OrderType, OrderBookError>(e),
                },
            old(self).add_keeps_records(order) ==> final(self).intact(),
            final(self).clock_reading() >= old(self).clock_reading(),
            exists|full: Result<(OrderType, Option<MatchResult>), OrderBookError>|
                #[trigger] OrderBook::add_post(*old(self), *final(self), order, final(self).clock_reading(), full) && match full {
                    Ok((o, _)) => r == Ok::<OrderType, OrderBookError>(o),
                    Err(e) => r == Err::<OrderType, OrderBookError>(e),
                },
    {
        let ghost b0 = *self;
        let now = self.read_clock();
        let ghost mid = *self;
        proof {
            OrderBook::lemma_same_contents_levels(b0, mid);
            mid.lemma_same_contents_intact(&b0);
            assert(mid.can_take(order) == b0.can_take(order));
            assert(mid.add_keeps_records(order) == b0.add_keeps_records(order));
        }
        let r = self.add_order_at(order, now);
        proof {
            let full = choose|full: Result<(OrderType, Option<MatchResult>), OrderBookError>|
                #[trigger] OrderBook::add_post(mid, *self, order, now, full) && match full {
                    Ok((o, _)) => r == Ok::<OrderType, OrderBookError>(o),
                    Err(e) => r == Err::<OrderType, OrderBookError>(e),
                };
            OrderBook::lemma_add_post_contents(b0, mid, *self, order, now, full);
        }
        r
    }
}

} // verus!

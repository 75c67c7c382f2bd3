//! Changing a resting order: its price, its quantity, both, cancelling it, or
//! replacing it.

use vstd::prelude::*;
use std::collections::BTreeMap;
use pricelevel::PriceLevel;
use crate::book::{OrderBook, side_view, side_ok};
use crate::error::OrderBookError;
use crate::execution::MatchResult;
use crate::modifications::invalid_operation;
use crate::matching::shows_positive;
use crate::orders::{OrderId, OrderType, OrderUpdate, Side};
use crate::outside::{
    LevelState, level_state, level_update_quantity, level_order_count, locations_get, locations_remove,
    wrap_add, wrap_sub,
};

verus! {

broadcast use vstd::std_specs::btree::group_btree_axioms;

/// The level `s` after its live order `id` is given the quantity `q`: the
/// changed order goes to the back of the queue and the quantity counters
/// move by the difference.
pub open spec fn level_requantified(s: LevelState, id: u128, q: u64) -> LevelState {
    let o = s.orders[id];
    let n = o.with_reduced_quantity(q);
    LevelState {
        price: s.price,
        queue: s.queue.push(id),
        orders: s.orders.insert(id, n),
        order_count: s.order_count,
        visible: wrap_sub(wrap_add(s.visible, n.visible_quantity()), o.visible_quantity()),
        hidden: wrap_sub(wrap_add(s.hidden, n.hidden_quantity()), o.hidden_quantity()),
    }
}

/// The message of the error for a price change to the order's own price.
pub open spec fn same_price_message() -> Seq<char> {
    "Cannot update price to the same value"@
}

/// The message of the error for replacing an order of a kind that cannot be replaced.
pub open spec fn replace_unsupported_message() -> Seq<char> {
    "Replace operation not supported for this order type"@
}

impl OrderUpdate {
    /// The order the update is about.
    pub open spec fn target(self) -> OrderId {
        match self {
            OrderUpdate::UpdatePrice { order_id, .. } => order_id,
            OrderUpdate::UpdateQuantity { order_id, .. } => order_id,
            OrderUpdate::UpdatePriceAndQuantity { order_id, .. } => order_id,
            OrderUpdate::Cancel { order_id } => order_id,
            OrderUpdate::Replace { order_id, .. } => order_id,
        }
    }

    /// The order that the update puts back into the book in place of `o`,
    /// for the updates that cancel and add again.
    pub open spec fn renewed(self, o: OrderType) -> Option<OrderType> {
        match self {
            OrderUpdate::UpdatePrice { new_price, .. } => Some(o.with_price(new_price)),
            OrderUpdate::UpdatePriceAndQuantity { new_price, new_quantity, .. } =>
                Some(o.with_price_and_quantity(new_price, new_quantity)),
            OrderUpdate::Replace { price, quantity, side, .. } => o.replacement(price, quantity, side),
            _ => None,
        }
    }
}

impl OrderBook {
    /// The order that `update` puts back can be taken (`can_take`) by the
    /// book as it stands once the resting order is cancelled. A price update
    /// to the order's own price puts nothing back.
    pub open spec fn can_renew(&self, update: OrderUpdate) -> bool {
        match self.order_spec(update.target()) {
            None => true,
            Some(o) => match update.renewed(o) {
                None => true,
                Some(n) => {
                    let same_price = match update {
                        OrderUpdate::UpdatePrice { new_price, .. } => self.locations()[o.id().0].0 == new_price,
                        _ => false,
                    };
                    same_price || OrderBook::renewable(*self, o, n)
                },
            },
        }
    }

    /// Adding `n` in place of an order leaves the book's records in step as
    /// far as this book decides it: every live order on the side opposite `n`
    /// shows a positive quantity, and the level `n` would join has room on
    /// its counter.
    pub open spec fn room_for(&self, n: OrderType) -> bool {
        &&& shows_positive(self.levels(n.side().opposite()))
        &&& (self.levels(n.side()).contains_key(n.price())
            ==> self.levels(n.side())[n.price()].order_count < usize::MAX)
    }

    /// Applying `update` keeps the book's records in step: the book is
    /// intact and, for an update that puts the order back, there is room for
    /// what it puts back (`room_for`).
    pub open spec fn update_keeps_records(&self, update: OrderUpdate) -> bool {
        &&& self.intact()
        &&& match self.order_spec(update.target()) {
            Some(o) => match update.renewed(o) {
                Some(n) => self.room_for(n),
                None => true,
            },
            None => true,
        }
    }

    /// Once `o` is cancelled from `b0`, the book can take `n`.
    pub open spec fn renewable(b0: OrderBook, o: OrderType, n: OrderType) -> bool {
        forall|mid: OrderBook| #[trigger] OrderBook::cancel_post(b0, mid, o.id(), Some(o)) ==> mid.can_take(n)
    }

    /// `b1` and `r` are what cancelling the resting order `o` of `b0` and
    /// adding `n` at time `now` give.
    pub open spec fn renew_post(
        b0: OrderBook,
        b1: OrderBook,
        o: OrderType,
        n: OrderType,
        now: u64,
        r: Result<Option<OrderType>, OrderBookError>,
    ) -> bool {
        exists|mid: OrderBook, full: Result<(OrderType, Option<MatchResult>), OrderBookError>|
            #[trigger] OrderBook::cancel_post(b0, mid, o.id(), Some(o))
            && #[trigger] OrderBook::add_post(mid, b1, n, now, full)
            && match full {
                Ok((placed, _)) => r == Ok::<Option<OrderType>, OrderBookError>(Some(placed)),
                Err(e) => r == Err::<Option<OrderType>, OrderBookError>(e),
            }
    }

    /// What changing the quantity of order `id` to `q` does: when its
    /// location names a level, the order there (if live) gets the new
    /// quantity and is handed back; if that level's order counter is then
    /// zero, the level and the order's location are dropped.
    pub open spec fn requantify_post(b0: OrderBook, b1: OrderBook, id: OrderId, q: u64, r: Option<OrderType>) -> bool {
        if !b0.locations().contains_key(id.0) {
            r.is_none() && b1.same_contents(&b0)
        } else {
            let (p, s) = b0.locations()[id.0];
            if !b0.levels(s).contains_key(p) {
                r.is_none() && b1.same_contents(&b0)
            } else {
                let lv = b0.levels(s)[p];
                let live = lv.orders.contains_key(id.0);
                let after = if live { level_requantified(lv, id.0, q) } else { lv };
                &&& r == (if live { Some(lv.orders[id.0].with_reduced_quantity(q)) } else { None::<OrderType> })
                &&& b1.levels(s) == (if after.order_count == 0 { b0.levels(s).remove(p) } else { b0.levels(s).insert(p, after) })
                &&& b1.levels(s.opposite()) == b0.levels(s.opposite())
                &&& b1.locations() == (if after.order_count == 0 { b0.locations().remove(id.0) } else { b0.locations() })
                &&& b1.last_trade() == b0.last_trade()
                &&& b1.market_close() == b0.market_close()
                &&& b1.symbol_view() == b0.symbol_view()
            }
        }
    }

    /// What `update` at time `now` does and answers.
    pub open spec fn update_post(
        b0: OrderBook,
        b1: OrderBook,
        update: OrderUpdate,
        now: u64,
        r: Result<Option<OrderType>, OrderBookError>,
    ) -> bool {
        let id = update.target();
        match update {
            OrderUpdate::UpdateQuantity { new_quantity, .. } => match r {
                Ok(found) => OrderBook::requantify_post(b0, b1, id, new_quantity, found),
                Err(_) => false,
            },
            OrderUpdate::Cancel { .. } => match r {
                Ok(found) => OrderBook::cancel_post(b0, b1, id, found),
                Err(_) => false,
            },
            OrderUpdate::UpdatePrice { new_price, .. } => {
                if !b0.locations().contains_key(id.0) {
                    r == Ok::<Option<OrderType>, OrderBookError>(None) && b1.same_contents(&b0)
                } else if b0.locations()[id.0].0 == new_price {
                    &&& b1.same_contents(&b0)
                    &&& match r {
                        Err(e) => invalid_operation(e, same_price_message()),
                        Ok(_) => false,
                    }
                } else {
                    match b0.order_spec(id) {
                        None => r == Ok::<Option<OrderType>, OrderBookError>(None) && b1.same_contents(&b0),
                        Some(o) => OrderBook::renew_post(b0, b1, o, o.with_price(new_price), now, r),
                    }
                }
            },
            OrderUpdate::UpdatePriceAndQuantity { new_price, new_quantity, .. } => {
                match b0.order_spec(id) {
                    None => r == Ok::<Option<OrderType>, OrderBookError>(None) && b1.same_contents(&b0),
                    Some(o) => OrderBook::renew_post(b0, b1, o, o.with_price_and_quantity(new_price, new_quantity), now, r),
                }
            },
            OrderUpdate::Replace { price, quantity, side, .. } => {
                match b0.order_spec(id) {
                    None => r == Ok::<Option<OrderType>, OrderBookError>(None) && b1.same_contents(&b0),
                    Some(o) => match o.replacement(price, quantity, side) {
                        None => {
                            &&& b1.same_contents(&b0)
                            &&& match r {
                                Err(e) => invalid_operation(e, replace_unsupported_message()),
                                Ok(_) => false,
                            }
                        },
                        Some(n) => OrderBook::renew_post(b0, b1, o, n, now, r),
                    },
                }
            },
        }
    }

    /// Cancel the resting order `o` and add `n` in its place at time `now`.
    fn renew(&mut self, o: OrderType, n: OrderType, now: u64) -> (r: Result<Option<OrderType>, OrderBookError>)
        requires
            old(self).wf(),
            old(self).order_spec(o.id()) == Some(o),
            OrderBook::renewable(*old(self), o, n),
        ensures
            final(self).clock_reading() == old(self).clock_reading(),
            final(self).wf(),
            OrderBook::renew_post(*old(self), *final(self), o, n, now, r),
            old(self).intact() && n.id() == o.id() && old(self).room_for(n) ==> final(self).intact(),
    {
        let ghost b0 = *self;
        let cancelled = self.cancel_order(o.id());
        let ghost mid = *self;
        proof {
            assert(cancelled == Ok::<Option<OrderType>, OrderBookError>(Some(o)));
            assert(OrderBook::cancel_post(b0, mid, o.id(), Some(o)));
            if b0.intact() && n.id() == o.id() && b0.room_for(n) {
                crate::laws::lemma_cancel_then_add_ready(b0, mid, o, n);
            }
        }
        let full = self.add_order_reporting_at(n, now);
        proof {
            assert(OrderBook::cancel_post(b0, mid, o.id(), Some(o)));
            assert(OrderBook::add_post(mid, *self, n, now, full));
        }
        match full {
            Ok((placed, _)) => Ok(Some(placed)),
            Err(e) => Err(e),
        }
    }

    /// Change the quantity of order `order_id` to `new_quantity` where its
    /// location says it rests.
    fn requantify(&mut self, order_id: OrderId, new_quantity: u64) -> (r: Option<OrderType>)
        requires
            old(self).wf(),
        ensures
            final(self).clock_reading() == old(self).clock_reading(),
            final(self).wf(),
            OrderBook::requantify_post(*old(self), *final(self), order_id, new_quantity, r),
    {
        proof {
            self.lemma_views();
            self.lemma_wf_sides();
        }
        let ghost b0 = *self;
        match locations_get(&self.order_locations, order_id.0) {
            None => None,
            Some((price, side)) => {
                let (result, dropped) = match side {
                    Side::Buy => requantify_in(&mut self.bids, side, price, order_id, new_quantity),
                    Side::Sell => requantify_in(&mut self.asks, side, price, order_id, new_quantity),
                };
                if dropped {
                    locations_remove(&mut self.order_locations, order_id.0);
                }
                self.cache.invalidate();
                proof {
                    self.lemma_views();
                    b0.lemma_views();
                    self.lemma_wf_intro();
                }
                result
            },
        }
    }

    /// Apply `update` at time `now`: cancel the order, change its quantity
    /// where it rests, or cancel it and add it again with a new price,
    /// quantity or side. Hands back the order as it now stands, or nothing
    /// when the order is not found.
    pub fn update_order_at(&mut self, update: OrderUpdate, now: u64) -> (r: Result<Option<OrderType>, OrderBookError>)
        requires
            old(self).wf(),
            old(self).can_renew(update),
        ensures
            final(self).clock_reading() == old(self).clock_reading(),
            final(self).wf(),
            OrderBook::update_post(*old(self), *final(self), update, now, r),
            old(self).update_keeps_records(update) ==> final(self).intact(),
    {
        let ghost b0 = *self;
        proof {
            self.lemma_views();
        }
        match update {
            OrderUpdate::UpdatePrice { order_id, new_price } => {
                match locations_get(&self.order_locations, order_id.0) {
                    None => Ok(None),
                    Some((old_price, _)) => {
                        if old_price == new_price {
                            return Err(OrderBookError::InvalidOperation {
                                message: "Cannot update price to the same value".to_string(),
                            });
                        }
                        match self.get_order(order_id) {
                            None => Ok(None),
                            Some(resting) => {
                                proof {
                                    assert(resting.id() == order_id) by {
                                        self.lemma_order_spec_id(order_id);
                                    }
                                }
                                let renewed = resting.with_price(new_price);
                                self.renew(resting, renewed, now)
                            },
                        }
                    },
                }
            },
            OrderUpdate::UpdateQuantity { order_id, new_quantity } => {
                let found = self.requantify(order_id, new_quantity);
                proof {
                    if b0.intact() {
                        crate::laws::law_requantify_keeps_intact(b0, *self, order_id, new_quantity, found);
                    }
                }
                Ok(found)
            },
            OrderUpdate::UpdatePriceAndQuantity { order_id, new_price, new_quantity } => {
                match locations_get(&self.order_locations, order_id.0) {
                    None => Ok(None),
                    Some(_) => {
                        match self.get_order(order_id) {
                            None => Ok(None),
                            Some(resting) => {
                                proof {
                                    self.lemma_order_spec_id(order_id);
                                }
                                let renewed = resting.with_price_and_quantity(new_price, new_quantity);
                                self.renew(resting, renewed, now)
                            },
                        }
                    },
                }
            },
            OrderUpdate::Cancel { order_id } => {
                let r = self.cancel_order(order_id);
                proof {
                    if b0.intact() {
                        match r {
                            Ok(found) => crate::laws::law_cancel_keeps_intact(b0, *self, order_id, found),
                            Err(_) => {},
                        }
                    }
                }
                r
            },
            OrderUpdate::Replace { order_id, price, quantity, side } => {
                match self.get_order(order_id) {
                    None => Ok(None),
                    Some(resting) => {
                        proof {
                            self.lemma_order_spec_id(order_id);
                        }
                        match resting.replacement(price, quantity, side) {
                            None => Err(OrderBookError::InvalidOperation {
                                message: "Replace operation not supported for this order type".to_string(),
                            }),
                            Some(renewed) => self.renew(resting, renewed, now),
                        }
                    },
                }
            },
        }
    }

    /// Apply `update` now: the book reads its clock (`read_clock`) and
    /// applies the update at that time, which the book's clock then shows.
    pub fn update_order(&mut self, update: OrderUpdate) -> (r: Result<Option<OrderType>, OrderBookError>)
        requires
            old(self).wf(),
            old(self).can_renew(update),
        ensures
            final(self).wf(),
            exists|now: u64| #[trigger] OrderBook::update_post(*old(self), *final(self), update, now, r),
            old(self).update_keeps_records(update) ==> final(self).intact(),
            final(self).clock_reading() >= old(self).clock_reading(),
            OrderBook::update_post(*old(self), *final(self), update, final(self).clock_reading(), r),
    {
        let ghost b0 = *self;
        let now = self.read_clock();
        let ghost mid = *self;
        proof {
            OrderBook::lemma_same_contents_levels(b0, mid);
            mid.lemma_same_contents_intact(&b0);
            OrderBook::lemma_update_specs_contents(b0, mid, update);
        }
        let r = self.update_order_at(update, now);
        proof {
            OrderBook::lemma_update_post_contents(b0, mid, *self, update, now, r);
        }
        r
    }

    /// What cancelling does depends on the book only through its contents.
    pub proof fn lemma_cancel_post_contents(b0: OrderBook, c0: OrderBook, b1: OrderBook, id: OrderId, r: Option<OrderType>)
        requires
            b0.same_contents(&c0),
        ensures
            OrderBook::cancel_post(b0, b1, id, r) == OrderBook::cancel_post(c0, b1, id, r),
            b0.order_spec(id) == c0.order_spec(id),
    {
        OrderBook::lemma_same_contents_levels(b0, c0);
        assert(b1.same_contents(&b0) == b1.same_contents(&c0));
    }

    /// Cancelling `o` and adding `n` depends on the book only through its contents.
    pub proof fn lemma_renew_post_contents(
        b0: OrderBook,
        c0: OrderBook,
        b1: OrderBook,
        o: OrderType,
        n: OrderType,
        now: u64,
        r: Result<Option<OrderType>, OrderBookError>,
    )
        requires
            b0.same_contents(&c0),
        ensures
            OrderBook::renew_post(b0, b1, o, n, now, r) == OrderBook::renew_post(c0, b1, o, n, now, r),
    {
        if OrderBook::renew_post(b0, b1, o, n, now, r) {
            let (m, full) = choose|m: OrderBook, full: Result<(OrderType, Option<MatchResult>), OrderBookError>|
                #[trigger] OrderBook::cancel_post(b0, m, o.id(), Some(o))
                && #[trigger] OrderBook::add_post(m, b1, n, now, full)
                && match full {
                    Ok((placed, _)) => r == Ok::<Option<OrderType>, OrderBookError>(Some(placed)),
                    Err(e) => r == Err::<Option<OrderType>, OrderBookError>(e),
                };
            OrderBook::lemma_cancel_post_contents(b0, c0, m, o.id(), Some(o));
            assert(OrderBook::cancel_post(c0, m, o.id(), Some(o)) && OrderBook::add_post(m, b1, n, now, full));
        }
        if OrderBook::renew_post(c0, b1, o, n, now, r) {
            let (m, full) = choose|m: OrderBook, full: Result<(OrderType, Option<MatchResult>), OrderBookError>|
                #[trigger] OrderBook::cancel_post(c0, m, o.id(), Some(o))
                && #[trigger] OrderBook::add_post(m, b1, n, now, full)
                && match full {
                    Ok((placed, _)) => r == Ok::<Option<OrderType>, OrderBookError>(Some(placed)),
                    Err(e) => r == Err::<Option<OrderType>, OrderBookError>(e),
                };
            OrderBook::lemma_cancel_post_contents(b0, c0, m, o.id(), Some(o));
            assert(OrderBook::cancel_post(b0, m, o.id(), Some(o)) && OrderBook::add_post(m, b1, n, now, full));
        }
    }

    /// The conditions an update asks of the book depend only on its contents.
    pub proof fn lemma_update_specs_contents(b0: OrderBook, c0: OrderBook, update: OrderUpdate)
        requires
            b0.same_contents(&c0),
        ensures
            b0.can_renew(update) == c0.can_renew(update),
            b0.update_keeps_records(update) == c0.update_keeps_records(update),
    {
        OrderBook::lemma_same_contents_levels(b0, c0);
        b0.lemma_same_contents_intact(&c0);
        OrderBook::lemma_cancel_post_contents(b0, c0, b0, update.target(), None);
        assert forall|o: OrderType, n: OrderType| OrderBook::renewable(b0, o, n) == OrderBook::renewable(c0, o, n) by {
            if OrderBook::renewable(b0, o, n) {
                assert forall|m: OrderBook| #[trigger] OrderBook::cancel_post(c0, m, o.id(), Some(o)) implies m.can_take(n) by {
                    OrderBook::lemma_cancel_post_contents(b0, c0, m, o.id(), Some(o));
                }
            }
            if OrderBook::renewable(c0, o, n) {
                assert forall|m: OrderBook| #[trigger] OrderBook::cancel_post(b0, m, o.id(), Some(o)) implies m.can_take(n) by {
                    OrderBook::lemma_cancel_post_contents(b0, c0, m, o.id(), Some(o));
                }
            }
        }
    }

    /// What an update does depends on the book only through its contents.
    pub proof fn lemma_update_post_contents(
        b0: OrderBook,
        c0: OrderBook,
        b1: OrderBook,
        update: OrderUpdate,
        now: u64,
        r: Result<Option<OrderType>, OrderBookError>,
    )
        requires
            b0.same_contents(&c0),
        ensures
            OrderBook::update_post(b0, b1, update, now, r) == OrderBook::update_post(c0, b1, update, now, r),
    {
        OrderBook::lemma_same_contents_levels(b0, c0);
        let id = update.target();
        OrderBook::lemma_cancel_post_contents(b0, c0, b1, id, None);
        assert(b1.same_contents(&b0) == b1.same_contents(&c0));
        match r {
            Ok(found) => {
                OrderBook::lemma_cancel_post_contents(b0, c0, b1, id, found);
                match update {
                    OrderUpdate::UpdateQuantity { new_quantity, .. } => {
                        assert(OrderBook::requantify_post(b0, b1, id, new_quantity, found)
                            == OrderBook::requantify_post(c0, b1, id, new_quantity, found));
                    },
                    _ => {},
                }
            },
            Err(_) => {},
        }
        match b0.order_spec(id) {
            Some(o) => {
                match update {
                    OrderUpdate::UpdatePrice { new_price, .. } =>
                        OrderBook::lemma_renew_post_contents(b0, c0, b1, o, o.with_price(new_price), now, r),
                    OrderUpdate::UpdatePriceAndQuantity { new_price, new_quantity, .. } =>
                        OrderBook::lemma_renew_post_contents(b0, c0, b1, o, o.with_price_and_quantity(new_price, new_quantity), now, r),
                    OrderUpdate::Replace { price, quantity, side, .. } => {
                        match o.replacement(price, quantity, side) {
                            Some(n) => OrderBook::lemma_renew_post_contents(b0, c0, b1, o, n, now, r),
                            None => {},
                        }
                    },
                    _ => {},
                }
            },
            None => {},
        }
    }
}

/// Give order `id` in the level at `price` of `levels` the quantity `q`;
/// hands back the changed order, and whether the level was dropped because
/// its order counter is zero.
fn requantify_in(levels: &mut BTreeMap<u64, PriceLevel>, side: Side, price: u64, id: OrderId, q: u64) -> (r: (Option<OrderType>, bool))
    requires
        side_ok(side_view(old(levels)@), side),
    ensures
        side_ok(side_view(final(levels)@), side),
        ({
            let lv = side_view(old(levels)@);
            if lv.contains_key(price) {
                let live = lv[price].orders.contains_key(id.0);
                let after = if live { level_requantified(lv[price], id.0, q) } else { lv[price] };
                &&& r.0 == (if live { Some(lv[price].orders[id.0].with_reduced_quantity(q)) } else { None::<OrderType> })
                &&& r.1 == (after.order_count == 0)
                &&& side_view(final(levels)@) == (if after.order_count == 0 { lv.remove(price) } else { lv.insert(price, after) })
            } else {
                r.0.is_none() && !r.1 && side_view(final(levels)@) == lv
            }
        }),
{
    let ghost lv = side_view(levels@);
    match levels.remove(&price) {
        None => {
            proof {
                assert(side_view(levels@) =~= lv);
            }
            (None, false)
        },
        Some(l) => {
            let mut level = l;
            let found = level_update_quantity(&mut level, id, q);
            let count = level_order_count(&level);
            if count == 0 {
                proof {
                    assert(side_view(levels@) =~= lv.remove(price));
                }
                (found, true)
            } else {
                levels.insert(price, level);
                proof {
                    assert(side_view(levels@) =~= lv.insert(price, level_state(level)));
                    assert(level_state(level) == (if lv[price].orders.contains_key(id.0) {
                        level_requantified(lv[price], id.0, q)
                    } else {
                        lv[price]
                    }));
                }
                (found, false)
            }
        },
    }
}

} // verus!

//! Adding limit, iceberg and post-only orders, and matching market and limit
//! orders against the book.

use vstd::prelude::*;
use crate::book::OrderBook;
use crate::error::OrderBookError;
use crate::execution::MatchResult;
use crate::orders::{OrderId, OrderType, Side, TimeInForce};

verus! {

/// `r` is what adding answers when the full answer is `full`: the order alone.
pub open spec fn add_answer(full: Result<(OrderType, Option<MatchResult>), OrderBookError>, r: Result<OrderType, OrderBookError>) -> bool {
    match full {
        Ok((o, _)) => r == Ok::<OrderType, OrderBookError>(o),
        Err(e) => r == Err::<OrderType, OrderBookError>(e),
    }
}

/// What adding `order` to `mid` gives is what adding it to `b0` gives, when
/// the two books have the same contents.
proof fn lemma_add_from_same_contents(
    b0: OrderBook,
    mid: OrderBook,
    b1: OrderBook,
    order: OrderType,
    r: Result<OrderType, OrderBookError>,
)
    requires
        b0.same_contents(&mid),
        exists|now: u64, full: Result<(OrderType, Option<MatchResult>), OrderBookError>|
            #[trigger] OrderBook::add_post(mid, b1, order, now, full) && add_answer(full, r),
        exists|full: Result<(OrderType, Option<MatchResult>), OrderBookError>|
            #[trigger] OrderBook::add_post(mid, b1, order, b1.clock_reading(), full) && add_answer(full, r),
    ensures
        exists|now: u64, full: Result<(OrderType, Option<MatchResult>), OrderBookError>|
            #[trigger] OrderBook::add_post(b0, b1, order, now, full) && add_answer(full, r),
        exists|full: Result<(OrderType, Option<MatchResult>), OrderBookError>|
            #[trigger] OrderBook::add_post(b0, b1, order, b1.clock_reading(), full) && add_answer(full, r),
{
    let full = choose|full: Result<(OrderType, Option<MatchResult>), OrderBookError>|
        #[trigger] OrderBook::add_post(mid, b1, order, b1.clock_reading(), full) && add_answer(full, r);
    OrderBook::lemma_add_post_contents(b0, mid, b1, order, b1.clock_reading(), full);
    assert(OrderBook::add_post(b0, b1, order, b1.clock_reading(), full) && add_answer(full, r));
}

impl OrderBook {
    /// Add a standard limit order stamped with the current time.
    pub fn add_limit_order(
        &mut self,
        id: OrderId,
        price: u64,
        quantity: u64,
        side: Side,
        time_in_force: TimeInForce,
    ) -> (r: Result<OrderType, OrderBookError>)
        requires
            old(self).wf(),
            old(self).can_take_parts(side, price, quantity, time_in_force, false),
        ensures
            final(self).wf(),
            exists|timestamp: u64, now: u64, full: Result<(OrderType, Option<MatchResult>), OrderBookError>|
                #[trigger] OrderBook::add_post(
                    *old(self),
                    *final(self),
                    OrderType::Standard { id, price, quantity, side, timestamp, time_in_force },
                    now,
                    full,
                ) && add_answer(full, r),
            old(self).records_room(id, side, price) ==> final(self).intact(),
            final(self).clock_reading() >= old(self).clock_reading(),
            exists|timestamp: u64, full: Result<(OrderType, Option<MatchResult>), OrderBookError>|
                old(self).clock_reading() <= timestamp <= final(self).clock_reading()
                && #[trigger] OrderBook::add_post(
                    *old(self),
                    *final(self),
                    OrderType::Standard { id, price, quantity, side, timestamp, time_in_force },
                    final(self).clock_reading(),
                    full,
                ) && add_answer(full, r),
    {
        let ghost b0 = *self;
        let timestamp = self.read_clock();
        let order = OrderType::Standard { id, price, quantity, side, timestamp, time_in_force };
        let ghost mid = *self;
        proof {
            OrderBook::lemma_same_contents_levels(b0, mid);
            mid.lemma_same_contents_intact(&b0);
            assert(mid.can_take(order));
            assert(mid.records_room(id, side, price) == b0.records_room(id, side, price));
        }
        let r = self.add_order(order);
        proof {
            lemma_add_from_same_contents(b0, mid, *self, order, r);
        }
        r
    }

    /// Add an iceberg order stamped with the current time.
    pub fn add_iceberg_order(
        &mut self,
        id: OrderId,
        price: u64,
        visible_quantity: u64,
        hidden_quantity: u64,
        side: Side,
        time_in_force: TimeInForce,
    ) -> (r: Result<OrderType, OrderBookError>)
        requires
            old(self).wf(),
            old(self).can_take_parts(side, price, visible_quantity, time_in_force, false),
        ensures
            final(self).wf(),
            exists|timestamp: u64, now: u64, full: Result<(OrderType, Option<MatchResult>), OrderBookError>|
                #[trigger] OrderBook::add_post(
                    *old(self),
                    *final(self),
                    OrderType::IcebergOrder { id, price, visible_quantity, hidden_quantity, side, timestamp, time_in_force },
                    now,
                    full,
                ) && add_answer(full, r),
            old(self).records_room(id, side, price) ==> final(self).intact(),
            final(self).clock_reading() >= old(self).clock_reading(),
            exists|timestamp: u64, full: Result<(OrderType, Option<MatchResult>), OrderBookError>|
                old(self).clock_reading() <= timestamp <= final(self).clock_reading()
                && #[trigger] OrderBook::add_post(
                    *old(self),
                    *final(self),
                    OrderType::IcebergOrder { id, price, visible_quantity, hidden_quantity, side, timestamp, time_in_force },
                    final(self).clock_reading(),
                    full,
                ) && add_answer(full, r),
    {
        let ghost b0 = *self;
        let timestamp = self.read_clock();
        let order = OrderType::IcebergOrder { id, price, visible_quantity, hidden_quantity, side, timestamp, time_in_force };
        let ghost mid = *self;
        proof {
            OrderBook::lemma_same_contents_levels(b0, mid);
            mid.lemma_same_contents_intact(&b0);
            assert(mid.can_take(order));
            assert(mid.records_room(id, side, price) == b0.records_room(id, side, price));
        }
        let r = self.add_order(order);
        proof {
            lemma_add_from_same_contents(b0, mid, *self, order, r);
        }
        r
    }

    /// Add a post-only order stamped with the current time.
    pub fn add_post_only_order(
        &mut self,
        id: OrderId,
        price: u64,
        quantity: u64,
        side: Side,
        time_in_force: TimeInForce,
    ) -> (r: Result<OrderType, OrderBookError>)
        requires
            old(self).wf(),
            old(self).can_take_parts(side, price, quantity, time_in_force, true),
        ensures
            final(self).wf(),
            exists|timestamp: u64, now: u64, full: Result<(OrderType, Option<MatchResult>), OrderBookError>|
                #[trigger] OrderBook::add_post(
                    *old(self),
                    *final(self),
                    OrderType::PostOnly { id, price, quantity, side, timestamp, time_in_force },
                    now,
                    full,
                ) && add_answer(full, r),
            old(self).records_room(id, side, price) ==> final(self).intact(),
            final(self).clock_reading() >= old(self).clock_reading(),
            exists|timestamp: u64, full: Result<(OrderType, Option<MatchResult>), OrderBookError>|
                old(self).clock_reading() <= timestamp <= final(self).clock_reading()
                && #[trigger] OrderBook::add_post(
                    *old(self),
                    *final(self),
                    OrderType::PostOnly { id, price, quantity, side, timestamp, time_in_force },
                    final(self).clock_reading(),
                    full,
                ) && add_answer(full, r),
    {
        let ghost b0 = *self;
        let timestamp = self.read_clock();
        let order = OrderType::PostOnly { id, price, quantity, side, timestamp, time_in_force };
        let ghost mid = *self;
        proof {
            OrderBook::lemma_same_contents_levels(b0, mid);
            mid.lemma_same_contents_intact(&b0);
            assert(mid.can_take(order));
            assert(mid.records_room(id, side, price) == b0.records_room(id, side, price));
        }
        let r = self.add_order(order);
        proof {
            lemma_add_from_same_contents(b0, mid, *self, order, r);
        }
        r
    }

    /// Match a market order of `side` for `quantity`: it takes the best
    /// prices of the opposite side with no limit.
    pub fn match_market_order(&mut self, order_id: OrderId, quantity: u64, side: Side) -> (r: Result<MatchResult, OrderBookError>)
        requires
            old(self).wf(),
            old(self).sweep_ok(side, quantity, None),
        ensures
            final(self).wf(),
            OrderBook::match_post(*old(self), *final(self), order_id, side, quantity, None, r),
            OrderBook::match_facts(*old(self), *final(self), side, quantity, r),
    {
        self.match_order(order_id, side, quantity, None)
    }

    /// Match a limit order of `side` for `quantity`, trading no worse than
    /// `limit_price`: at or below it for a buyer, at or above it for a seller.
    pub fn match_limit_order(&mut self, order_id: OrderId, quantity: u64, side: Side, limit_price: u64) -> (r: Result<MatchResult, OrderBookError>)
        requires
            old(self).wf(),
            old(self).sweep_ok(side, quantity, Some(limit_price)),
        ensures
            final(self).wf(),
            OrderBook::match_post(*old(self), *final(self), order_id, side, quantity, Some(limit_price), r),
            OrderBook::match_facts(*old(self), *final(self), side, quantity, r),
    {
        self.match_order(order_id, side, quantity, Some(limit_price))
    }

    /// Submit a market order.
    pub fn submit_market_order(&mut self, id: OrderId, quantity: u64, side: Side) -> (r: Result<MatchResult, OrderBookError>)
        requires
            old(self).wf(),
            old(self).sweep_ok(side, quantity, None),
        ensures
            final(self).wf(),
            OrderBook::match_post(*old(self), *final(self), id, side, quantity, None, r),
            OrderBook::match_facts(*old(self), *final(self), side, quantity, r),
    {
        self.match_market_order(id, quantity, side)
    }
}

} // verus!

//! Orders, sides, time-in-force policies and order updates.

use vstd::prelude::*;

verus! {

/// The identifier of an order: a 128-bit value (a UUID's bits).
#[derive(Clone, Copy, PartialEq, Eq, Structural, Debug, Hash)]
pub struct OrderId(pub u128);

/// The side of an order.
#[derive(Clone, Copy, PartialEq, Eq, Structural, Debug, Hash)]
pub enum Side {
    /// Buy side (bids).
    Buy,
    /// Sell side (asks).
    Sell,
}

impl Side {
    /// The other side of the market.
    #[verifier::allow_in_spec]
    pub fn opposite(&self) -> Side
        returns
            (match *self {
                Side::Buy => Side::Sell,
                Side::Sell => Side::Buy,
            }),
    {
        match self {
            Side::Buy => Side::Sell,
            Side::Sell => Side::Buy,
        }
    }
}

/// How long an order stays active.
#[derive(Clone, Copy, PartialEq, Eq, Structural, Debug, Hash)]
pub enum TimeInForce {
    /// Good 'til cancelled.
    Gtc,
    /// Immediate or cancel.
    Ioc,
    /// Fill or kill.
    Fok,
    /// Good 'til the given timestamp.
    Gtd(u64),
    /// Good for the trading day (until market close).
    Day,
}

impl TimeInForce {
    /// Whether the order is matched at once and never rests in the book.
    #[verifier::allow_in_spec]
    pub fn is_immediate(&self) -> bool
        returns
            (match *self {
                TimeInForce::Ioc | TimeInForce::Fok => true,
                _ => false,
            }),
    {
        match self {
            TimeInForce::Ioc | TimeInForce::Fok => true,
            _ => false,
        }
    }

    /// Whether the policy carries an expiry.
    #[verifier::allow_in_spec]
    pub fn has_expiry(&self) -> bool
        returns
            (match *self {
                TimeInForce::Gtd(_) | TimeInForce::Day => true,
                _ => false,
            }),
    {
        match self {
            TimeInForce::Gtd(_) | TimeInForce::Day => true,
            _ => false,
        }
    }

    /// Whether an order with this policy has expired at `current_timestamp`,
    /// given the market close time if one is set.
    #[verifier::allow_in_spec]
    pub fn is_expired(&self, current_timestamp: u64, market_close_timestamp: Option<u64>) -> bool
        returns
            (match *self {
                TimeInForce::Gtd(expiry) => current_timestamp >= expiry,
                TimeInForce::Day => match market_close_timestamp {
                    Some(close) => current_timestamp >= close,
                    None => false,
                },
                _ => false,
            }),
    {
        match self {
            TimeInForce::Gtd(expiry) => current_timestamp >= *expiry,
            TimeInForce::Day => match market_close_timestamp {
                Some(close) => current_timestamp >= close,
                None => false,
            },
            _ => false,
        }
    }
}

/// The reference price that a pegged order follows.
#[derive(Clone, Copy, PartialEq, Eq, Structural, Debug, Hash)]
pub enum PegReferenceType {
    /// The best bid.
    BestBid,
    /// The best ask.
    BestAsk,
    /// The mid price.
    MidPrice,
    /// The last trade price.
    LastTrade,
}

/// The kinds of limit orders that the book holds.
#[derive(Clone, Copy, PartialEq, Eq, Structural, Debug)]
pub enum OrderType {
    /// A plain limit order.
    Standard {
        id: OrderId,
        price: u64,
        quantity: u64,
        side: Side,
        timestamp: u64,
        time_in_force: TimeInForce,
    },
    /// An order that shows part of its quantity and refreshes it from a hidden reserve.
    IcebergOrder {
        id: OrderId,
        price: u64,
        visible_quantity: u64,
        hidden_quantity: u64,
        side: Side,
        timestamp: u64,
        time_in_force: TimeInForce,
    },
    /// An order that must never take liquidity.
    PostOnly {
        id: OrderId,
        price: u64,
        quantity: u64,
        side: Side,
        timestamp: u64,
        time_in_force: TimeInForce,
    },
    /// A trailing stop order.
    TrailingStop {
        id: OrderId,
        price: u64,
        quantity: u64,
        side: Side,
        timestamp: u64,
        time_in_force: TimeInForce,
        trail_amount: u64,
        last_reference_price: u64,
    },
    /// An order pegged to a reference price.
    PeggedOrder {
        id: OrderId,
        price: u64,
        quantity: u64,
        side: Side,
        timestamp: u64,
        time_in_force: TimeInForce,
        reference_price_offset: i64,
        reference_price_type: PegReferenceType,
    },
    /// A market-to-limit order.
    MarketToLimit {
        id: OrderId,
        price: u64,
        quantity: u64,
        side: Side,
        timestamp: u64,
        time_in_force: TimeInForce,
    },
    /// An order with a hidden reserve and its own replenishment rule.
    ReserveOrder {
        id: OrderId,
        price: u64,
        visible_quantity: u64,
        hidden_quantity: u64,
        side: Side,
        timestamp: u64,
        time_in_force: TimeInForce,
        replenish_threshold: u64,
        replenish_amount: Option<u64>,
        auto_replenish: bool,
    },
}

impl OrderType {
    /// The order's identifier.
    #[verifier::allow_in_spec]
    pub fn id(&self) -> OrderId
        returns
            (match *self {
                OrderType::Standard { id, .. } => id,
                OrderType::IcebergOrder { id, .. } => id,
                OrderType::PostOnly { id, .. } => id,
                OrderType::TrailingStop { id, .. } => id,
                OrderType::PeggedOrder { id, .. } => id,
                OrderType::MarketToLimit { id, .. } => id,
                OrderType::ReserveOrder { id, .. } => id,
            }),
    {
        match self {
            OrderType::Standard { id, .. } => *id,
            OrderType::IcebergOrder { id, .. } => *id,
            OrderType::PostOnly { id, .. } => *id,
            OrderType::TrailingStop { id, .. } => *id,
            OrderType::PeggedOrder { id, .. } => *id,
            OrderType::MarketToLimit { id, .. } => *id,
            OrderType::ReserveOrder { id, .. } => *id,
        }
    }

    /// The order's limit price.
    #[verifier::allow_in_spec]
    pub fn price(&self) -> u64
        returns
            (match *self {
                OrderType::Standard { price, .. } => price,
                OrderType::IcebergOrder { price, .. } => price,
                OrderType::PostOnly { price, .. } => price,
                OrderType::TrailingStop { price, .. } => price,
                OrderType::PeggedOrder { price, .. } => price,
                OrderType::MarketToLimit { price, .. } => price,
                OrderType::ReserveOrder { price, .. } => price,
            }),
    {
        match self {
            OrderType::Standard { price, .. } => *price,
            OrderType::IcebergOrder { price, .. } => *price,
            OrderType::PostOnly { price, .. } => *price,
            OrderType::TrailingStop { price, .. } => *price,
            OrderType::PeggedOrder { price, .. } => *price,
            OrderType::MarketToLimit { price, .. } => *price,
            OrderType::ReserveOrder { price, .. } => *price,
        }
    }

    /// The quantity the order shows.
    #[verifier::allow_in_spec]
    pub fn visible_quantity(&self) -> u64
        returns
            (match *self {
                OrderType::Standard { quantity, .. } => quantity,
                OrderType::IcebergOrder { visible_quantity, .. } => visible_quantity,
                OrderType::PostOnly { quantity, .. } => quantity,
                OrderType::TrailingStop { quantity, .. } => quantity,
                OrderType::PeggedOrder { quantity, .. } => quantity,
                OrderType::MarketToLimit { quantity, .. } => quantity,
                OrderType::ReserveOrder { visible_quantity, .. } => visible_quantity,
            }),
    {
        match self {
            OrderType::Standard { quantity, .. } => *quantity,
            OrderType::IcebergOrder { visible_quantity, .. } => *visible_quantity,
            OrderType::PostOnly { quantity, .. } => *quantity,
            OrderType::TrailingStop { quantity, .. } => *quantity,
            OrderType::PeggedOrder { quantity, .. } => *quantity,
            OrderType::MarketToLimit { quantity, .. } => *quantity,
            OrderType::ReserveOrder { visible_quantity, .. } => *visible_quantity,
        }
    }

    /// The quantity the order keeps hidden (zero for orders without a reserve).
    #[verifier::allow_in_spec]
    pub fn hidden_quantity(&self) -> u64
        returns
            (match *self {
                OrderType::IcebergOrder { hidden_quantity, .. } => hidden_quantity,
                OrderType::ReserveOrder { hidden_quantity, .. } => hidden_quantity,
                _ => 0,
            }),
    {
        match self {
            OrderType::IcebergOrder { hidden_quantity, .. } => *hidden_quantity,
            OrderType::ReserveOrder { hidden_quantity, .. } => *hidden_quantity,
            _ => 0,
        }
    }

    /// The order's side.
    #[verifier::allow_in_spec]
    pub fn side(&self) -> Side
        returns
            (match *self {
                OrderType::Standard { side, .. } => side,
                OrderType::IcebergOrder { side, .. } => side,
                OrderType::PostOnly { side, .. } => side,
                OrderType::TrailingStop { side, .. } => side,
                OrderType::PeggedOrder { side, .. } => side,
                OrderType::MarketToLimit { side, .. } => side,
                OrderType::ReserveOrder { side, .. } => side,
            }),
    {
        match self {
            OrderType::Standard { side, .. } => *side,
            OrderType::IcebergOrder { side, .. } => *side,
            OrderType::PostOnly { side, .. } => *side,
            OrderType::TrailingStop { side, .. } => *side,
            OrderType::PeggedOrder { side, .. } => *side,
            OrderType::MarketToLimit { side, .. } => *side,
            OrderType::ReserveOrder { side, .. } => *side,
        }
    }

    /// The order's time-in-force policy.
    #[verifier::allow_in_spec]
    pub fn time_in_force(&self) -> TimeInForce
        returns
            (match *self {
                OrderType::Standard { time_in_force, .. } => time_in_force,
                OrderType::IcebergOrder { time_in_force, .. } => time_in_force,
                OrderType::PostOnly { time_in_force, .. } => time_in_force,
                OrderType::TrailingStop { time_in_force, .. } => time_in_force,
                OrderType::PeggedOrder { time_in_force, .. } => time_in_force,
                OrderType::MarketToLimit { time_in_force, .. } => time_in_force,
                OrderType::ReserveOrder { time_in_force, .. } => time_in_force,
            }),
    {
        match self {
            OrderType::Standard { time_in_force, .. } => *time_in_force,
            OrderType::IcebergOrder { time_in_force, .. } => *time_in_force,
            OrderType::PostOnly { time_in_force, .. } => *time_in_force,
            OrderType::TrailingStop { time_in_force, .. } => *time_in_force,
            OrderType::PeggedOrder { time_in_force, .. } => *time_in_force,
            OrderType::MarketToLimit { time_in_force, .. } => *time_in_force,
            OrderType::ReserveOrder { time_in_force, .. } => *time_in_force,
        }
    }

    /// When the order was created (milliseconds since the epoch).
    #[verifier::allow_in_spec]
    pub fn timestamp(&self) -> u64
        returns
            (match *self {
                OrderType::Standard { timestamp, .. } => timestamp,
                OrderType::IcebergOrder { timestamp, .. } => timestamp,
                OrderType::PostOnly { timestamp, .. } => timestamp,
                OrderType::TrailingStop { timestamp, .. } => timestamp,
                OrderType::PeggedOrder { timestamp, .. } => timestamp,
                OrderType::MarketToLimit { timestamp, .. } => timestamp,
                OrderType::ReserveOrder { timestamp, .. } => timestamp,
            }),
    {
        match self {
            OrderType::Standard { timestamp, .. } => *timestamp,
            OrderType::IcebergOrder { timestamp, .. } => *timestamp,
            OrderType::PostOnly { timestamp, .. } => *timestamp,
            OrderType::TrailingStop { timestamp, .. } => *timestamp,
            OrderType::PeggedOrder { timestamp, .. } => *timestamp,
            OrderType::MarketToLimit { timestamp, .. } => *timestamp,
            OrderType::ReserveOrder { timestamp, .. } => *timestamp,
        }
    }

    /// Whether the order is immediate-or-cancel or fill-or-kill.
    #[verifier::allow_in_spec]
    pub fn is_immediate(&self) -> bool
        returns
            self.time_in_force().is_immediate(),
    {
        self.time_in_force().is_immediate()
    }

    /// Whether the order is fill-or-kill.
    #[verifier::allow_in_spec]
    pub fn is_fill_or_kill(&self) -> bool
        returns
            self.time_in_force() == TimeInForce::Fok,
    {
        match self.time_in_force() {
            TimeInForce::Fok => true,
            _ => false,
        }
    }

    /// Whether the order is post-only.
    #[verifier::allow_in_spec]
    pub fn is_post_only(&self) -> bool
        returns
            (match *self {
                OrderType::PostOnly { .. } => true,
                _ => false,
            }),
    {
        match self {
            OrderType::PostOnly { .. } => true,
            _ => false,
        }
    }

    /// The same order showing `new_quantity`: the shown quantity of standard,
    /// iceberg and post-only orders is replaced; other kinds are unchanged.
    #[verifier::allow_in_spec]
    pub fn with_reduced_quantity(&self, new_quantity: u64) -> OrderType
        returns
            (match *self {
                OrderType::Standard { id, price, side, timestamp, time_in_force, .. } =>
                    OrderType::Standard { id, price, quantity: new_quantity, side, timestamp, time_in_force },
                OrderType::IcebergOrder { id, price, hidden_quantity, side, timestamp, time_in_force, .. } =>
                    OrderType::IcebergOrder {
                        id, price, visible_quantity: new_quantity, hidden_quantity, side, timestamp, time_in_force,
                    },
                OrderType::PostOnly { id, price, side, timestamp, time_in_force, .. } =>
                    OrderType::PostOnly { id, price, quantity: new_quantity, side, timestamp, time_in_force },
                _ => *self,
            }),
    {
        match *self {
            OrderType::Standard { id, price, side, timestamp, time_in_force, .. } =>
                OrderType::Standard { id, price, quantity: new_quantity, side, timestamp, time_in_force },
            OrderType::IcebergOrder { id, price, hidden_quantity, side, timestamp, time_in_force, .. } =>
                OrderType::IcebergOrder {
                    id, price, visible_quantity: new_quantity, hidden_quantity, side, timestamp, time_in_force,
                },
            OrderType::PostOnly { id, price, side, timestamp, time_in_force, .. } =>
                OrderType::PostOnly { id, price, quantity: new_quantity, side, timestamp, time_in_force },
            _ => *self,
        }
    }

    /// Whether matching against this order could stop making progress: an
    /// iceberg order that shows nothing but hides something, or a reserve order
    /// that replenishes by zero while it still hides something.
    pub open spec fn may_stall(self) -> bool {
        match self {
            OrderType::IcebergOrder { visible_quantity, hidden_quantity, .. } =>
                visible_quantity == 0 && hidden_quantity > 0,
            OrderType::ReserveOrder { hidden_quantity, replenish_amount, auto_replenish, .. } =>
                auto_replenish && hidden_quantity > 0 && replenish_amount == Some(0u64),
            _ => false,
        }
    }
}

/// A request to change a resting order.
#[derive(Clone, Copy, PartialEq, Eq, Structural, Debug)]
pub enum OrderUpdate {
    /// Move the order to a new price.
    UpdatePrice { order_id: OrderId, new_price: u64 },
    /// Change the order's shown quantity.
    UpdateQuantity { order_id: OrderId, new_quantity: u64 },
    /// Change both price and quantity.
    UpdatePriceAndQuantity { order_id: OrderId, new_price: u64, new_quantity: u64 },
    /// Cancel the order.
    Cancel { order_id: OrderId },
    /// Replace the order with a new price, quantity and side.
    Replace { order_id: OrderId, price: u64, quantity: u64, side: Side },
}

impl OrderType {
    /// The same order at `new_price`.
    #[verifier::allow_in_spec]
    pub fn with_price(&self, new_price: u64) -> OrderType
        returns
            (match *self {
                OrderType::Standard { id, quantity, side, timestamp, time_in_force, .. } =>
                    OrderType::Standard { id, price: new_price, quantity, side, timestamp, time_in_force },
                OrderType::IcebergOrder { id, visible_quantity, hidden_quantity, side, timestamp, time_in_force, .. } =>
                    OrderType::IcebergOrder { id, price: new_price, visible_quantity, hidden_quantity, side, timestamp, time_in_force },
                OrderType::PostOnly { id, quantity, side, timestamp, time_in_force, .. } =>
                    OrderType::PostOnly { id, price: new_price, quantity, side, timestamp, time_in_force },
                OrderType::TrailingStop { id, quantity, side, timestamp, time_in_force, trail_amount, last_reference_price, .. } =>
                    OrderType::TrailingStop { id, price: new_price, quantity, side, timestamp, time_in_force, trail_amount, last_reference_price },
                OrderType::PeggedOrder { id, quantity, side, timestamp, time_in_force, reference_price_offset, reference_price_type, .. } =>
                    OrderType::PeggedOrder { id, price: new_price, quantity, side, timestamp, time_in_force, reference_price_offset, reference_price_type },
                OrderType::MarketToLimit { id, quantity, side, timestamp, time_in_force, .. } =>
                    OrderType::MarketToLimit { id, price: new_price, quantity, side, timestamp, time_in_force },
                OrderType::ReserveOrder { id, visible_quantity, hidden_quantity, side, timestamp, time_in_force, replenish_threshold, replenish_amount, auto_replenish, .. } =>
                    OrderType::ReserveOrder { id, price: new_price, visible_quantity, hidden_quantity, side, timestamp, time_in_force, replenish_threshold, replenish_amount, auto_replenish },
            }),
    {
        match *self {
            OrderType::Standard { id, quantity, side, timestamp, time_in_force, .. } =>
                OrderType::Standard { id, price: new_price, quantity, side, timestamp, time_in_force },
            OrderType::IcebergOrder { id, visible_quantity, hidden_quantity, side, timestamp, time_in_force, .. } =>
                OrderType::IcebergOrder { id, price: new_price, visible_quantity, hidden_quantity, side, timestamp, time_in_force },
            OrderType::PostOnly { id, quantity, side, timestamp, time_in_force, .. } =>
                OrderType::PostOnly { id, price: new_price, quantity, side, timestamp, time_in_force },
            OrderType::TrailingStop { id, quantity, side, timestamp, time_in_force, trail_amount, last_reference_price, .. } =>
                OrderType::TrailingStop { id, price: new_price, quantity, side, timestamp, time_in_force, trail_amount, last_reference_price },
            OrderType::PeggedOrder { id, quantity, side, timestamp, time_in_force, reference_price_offset, reference_price_type, .. } =>
                OrderType::PeggedOrder { id, price: new_price, quantity, side, timestamp, time_in_force, reference_price_offset, reference_price_type },
            OrderType::MarketToLimit { id, quantity, side, timestamp, time_in_force, .. } =>
                OrderType::MarketToLimit { id, price: new_price, quantity, side, timestamp, time_in_force },
            OrderType::ReserveOrder { id, visible_quantity, hidden_quantity, side, timestamp, time_in_force, replenish_threshold, replenish_amount, auto_replenish, .. } =>
                OrderType::ReserveOrder { id, price: new_price, visible_quantity, hidden_quantity, side, timestamp, time_in_force, replenish_threshold, replenish_amount, auto_replenish },
        }
    }

    /// The same order at `new_price` showing `new_quantity` (the shown part
    /// for iceberg and reserve orders, the whole quantity otherwise).
    #[verifier::allow_in_spec]
    pub fn with_price_and_quantity(&self, new_price: u64, new_quantity: u64) -> OrderType
        returns
            (match *self {
                OrderType::Standard { id, side, timestamp, time_in_force, .. } =>
                    OrderType::Standard { id, price: new_price, quantity: new_quantity, side, timestamp, time_in_force },
                OrderType::IcebergOrder { id, hidden_quantity, side, timestamp, time_in_force, .. } =>
                    OrderType::IcebergOrder { id, price: new_price, visible_quantity: new_quantity, hidden_quantity, side, timestamp, time_in_force },
                OrderType::PostOnly { id, side, timestamp, time_in_force, .. } =>
                    OrderType::PostOnly { id, price: new_price, quantity: new_quantity, side, timestamp, time_in_force },
                OrderType::TrailingStop { id, side, timestamp, time_in_force, trail_amount, last_reference_price, .. } =>
                    OrderType::TrailingStop { id, price: new_price, quantity: new_quantity, side, timestamp, time_in_force, trail_amount, last_reference_price },
                OrderType::PeggedOrder { id, side, timestamp, time_in_force, reference_price_offset, reference_price_type, .. } =>
                    OrderType::PeggedOrder { id, price: new_price, quantity: new_quantity, side, timestamp, time_in_force, reference_price_offset, reference_price_type },
                OrderType::MarketToLimit { id, side, timestamp, time_in_force, .. } =>
                    OrderType::MarketToLimit { id, price: new_price, quantity: new_quantity, side, timestamp, time_in_force },
                OrderType::ReserveOrder { id, hidden_quantity, side, timestamp, time_in_force, replenish_threshold, replenish_amount, auto_replenish, .. } =>
                    OrderType::ReserveOrder { id, price: new_price, visible_quantity: new_quantity, hidden_quantity, side, timestamp, time_in_force, replenish_threshold, replenish_amount, auto_replenish },
            }),
    {
        match *self {
            OrderType::Standard { id, side, timestamp, time_in_force, .. } =>
                OrderType::Standard { id, price: new_price, quantity: new_quantity, side, timestamp, time_in_force },
            OrderType::IcebergOrder { id, hidden_quantity, side, timestamp, time_in_force, .. } =>
                OrderType::IcebergOrder { id, price: new_price, visible_quantity: new_quantity, hidden_quantity, side, timestamp, time_in_force },
            OrderType::PostOnly { id, side, timestamp, time_in_force, .. } =>
                OrderType::PostOnly { id, price: new_price, quantity: new_quantity, side, timestamp, time_in_force },
            OrderType::TrailingStop { id, side, timestamp, time_in_force, trail_amount, last_reference_price, .. } =>
                OrderType::TrailingStop { id, price: new_price, quantity: new_quantity, side, timestamp, time_in_force, trail_amount, last_reference_price },
            OrderType::PeggedOrder { id, side, timestamp, time_in_force, reference_price_offset, reference_price_type, .. } =>
                OrderType::PeggedOrder { id, price: new_price, quantity: new_quantity, side, timestamp, time_in_force, reference_price_offset, reference_price_type },
            OrderType::MarketToLimit { id, side, timestamp, time_in_force, .. } =>
                OrderType::MarketToLimit { id, price: new_price, quantity: new_quantity, side, timestamp, time_in_force },
            OrderType::ReserveOrder { id, hidden_quantity, side, timestamp, time_in_force, replenish_threshold, replenish_amount, auto_replenish, .. } =>
                OrderType::ReserveOrder { id, price: new_price, visible_quantity: new_quantity, hidden_quantity, side, timestamp, time_in_force, replenish_threshold, replenish_amount, auto_replenish },
        }
    }

    /// The order that replaces this one with `price`, `quantity` and `side`,
    /// keeping its identifier, timestamp and policy (and hidden part and
    /// replenishment for iceberg and reserve orders); only standard,
    /// iceberg, post-only and reserve orders can be replaced.
    #[verifier::allow_in_spec]
    pub fn replacement(&self, price: u64, quantity: u64, side: Side) -> Option<OrderType>
        returns
            (match *self {
                OrderType::Standard { id, timestamp, time_in_force, .. } =>
                    Some(OrderType::Standard { id, price, quantity, side, timestamp, time_in_force }),
                OrderType::IcebergOrder { id, hidden_quantity, timestamp, time_in_force, .. } =>
                    Some(OrderType::IcebergOrder { id, price, visible_quantity: quantity, hidden_quantity, side, timestamp, time_in_force }),
                OrderType::PostOnly { id, timestamp, time_in_force, .. } =>
                    Some(OrderType::PostOnly { id, price, quantity, side, timestamp, time_in_force }),
                OrderType::ReserveOrder { id, hidden_quantity, timestamp, time_in_force, replenish_threshold, replenish_amount, auto_replenish, .. } =>
                    Some(OrderType::ReserveOrder { id, price, visible_quantity: quantity, hidden_quantity, side, timestamp, time_in_force, replenish_threshold, replenish_amount, auto_replenish }),
                _ => None,
            }),
    {
        match *self {
            OrderType::Standard { id, timestamp, time_in_force, .. } =>
                Some(OrderType::Standard { id, price, quantity, side, timestamp, time_in_force }),
            OrderType::IcebergOrder { id, hidden_quantity, timestamp, time_in_force, .. } =>
                Some(OrderType::IcebergOrder { id, price, visible_quantity: quantity, hidden_quantity, side, timestamp, time_in_force }),
            OrderType::PostOnly { id, timestamp, time_in_force, .. } =>
                Some(OrderType::PostOnly { id, price, quantity, side, timestamp, time_in_force }),
            OrderType::ReserveOrder { id, hidden_quantity, timestamp, time_in_force, replenish_threshold, replenish_amount, auto_replenish, .. } =>
                Some(OrderType::ReserveOrder { id, price, visible_quantity: quantity, hidden_quantity, side, timestamp, time_in_force, replenish_threshold, replenish_amount, auto_replenish }),
            _ => None,
        }
    }
}

} // verus!

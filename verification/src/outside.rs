//! The outside types that the book holds, and the trusted items through which
//! the verified code reaches them.
//!
//! A `pricelevel::PriceLevel` is a queue of orders at one price. Its whole
//! state, as far as anything here can observe it, is named by `level_state`:
//! the price it was made with, the identifiers in its internal FIFO queue (an
//! identifier stays in that queue after its order is cancelled, and is skipped
//! when it comes up), the live orders keyed by identifier, and its three
//! counters (order count, shown quantity, hidden quantity), which the level
//! updates with wrapping atomic arithmetic.

use vstd::prelude::*;
use dashmap::DashMap;
use pricelevel::{PriceLevel, UuidGenerator, PriceLevelError};
use uuid::Uuid;
use crate::orders::{OrderId, OrderType, Side, TimeInForce, PegReferenceType};
use crate::execution::{Transaction, PriceLevelSnapshot};

verus! {

#[verifier::external_type_specification]
#[verifier::external_body]
#[verifier::reject_recursive_types(K)]
#[verifier::reject_recursive_types(V)]
#[verifier::reject_recursive_types(S)]
pub struct ExDashMap<K, V, S>(DashMap<K, V, S>);

#[verifier::external_type_specification]
#[verifier::external_body]
pub struct ExPriceLevel(PriceLevel);

#[verifier::external_type_specification]
#[verifier::external_body]
pub struct ExUuidGenerator(UuidGenerator);

#[verifier::external_type_specification]
#[verifier::external_body]
pub struct ExPriceLevelError(PriceLevelError);

// ---------------------------------------------------------------------------
// The state of a price level.
// ---------------------------------------------------------------------------

/// What a price level holds.
#[verifier::ext_equal]
pub struct LevelState {
    /// The price the level was made with.
    pub price: u64,
    /// The identifiers in the level's FIFO queue, oldest first, including
    /// those whose order has since been removed.
    pub queue: Seq<u128>,
    /// The live orders, keyed by identifier.
    pub orders: Map<u128, OrderType>,
    /// The level's order counter.
    pub order_count: usize,
    /// The level's shown-quantity counter.
    pub visible: u64,
    /// The level's hidden-quantity counter.
    pub hidden: u64,
}

/// What a price level holds.
pub uninterp spec fn level_state(level: PriceLevel) -> LevelState;

/// A level at `price` with nothing in it and all counters zero.
pub open spec fn empty_level(price: u64) -> LevelState {
    LevelState {
        price,
        queue: Seq::empty(),
        orders: Map::empty(),
        order_count: 0,
        visible: 0,
        hidden: 0,
    }
}

/// The facts that hold of every level's state: finitely many live orders,
/// each stored under its own identifier.
pub open spec fn level_ok(s: LevelState) -> bool {
    &&& s.orders.dom().finite()
    &&& forall|k: u128| #[trigger] s.orders.contains_key(k) ==> s.orders[k].id().0 == k
}

/// Addition as the level's atomic counters do it (wrapping at 2^64).
pub open spec fn wrap_add(a: u64, b: u64) -> u64 {
    ((a as int + b as int) % 0x1_0000_0000_0000_0000) as u64
}

/// Subtraction as the level's atomic counters do it (wrapping at 2^64).
pub open spec fn wrap_sub(a: u64, b: u64) -> u64 {
    ((a as int - b as int + 0x1_0000_0000_0000_0000) % 0x1_0000_0000_0000_0000) as u64
}

/// Increment of the level's order counter (wrapping at usize's width).
pub open spec fn count_inc(c: usize) -> usize {
    ((c as int + 1) % (usize::MAX as int + 1)) as usize
}

/// Decrement of the level's order counter (wrapping at usize's width).
pub open spec fn count_dec(c: usize) -> usize {
    ((c as int - 1 + usize::MAX as int + 1) % (usize::MAX as int + 1)) as usize
}

/// `v` lists exactly the live orders of `m`, each once, oldest timestamp first.
pub open spec fn lists_orders(v: Seq<OrderType>, m: Map<u128, OrderType>) -> bool {
    &&& m.dom().finite()
    &&& v.len() == m.len()
    &&& forall|i: int| 0 <= i < v.len() ==> #[trigger] m.contains_key(v[i].id().0) && m[v[i].id().0] == v[i]
    &&& forall|i: int, j: int| 0 <= i < j < v.len() ==> #[trigger] v[i].id() != #[trigger] v[j].id()
    &&& forall|i: int, j: int| 0 <= i < j < v.len() ==> #[trigger] v[i].timestamp() <= #[trigger] v[j].timestamp()
}

/// The result of matching an incoming quantity at one level, as far as it
/// follows from the level's state and that quantity.
pub struct LevelOutcome {
    /// The level's state afterwards.
    pub after: LevelState,
    /// The trades, in order: the resting order's identifier and the quantity.
    pub fills: Seq<(u128, u64)>,
    /// The resting orders that were filled completely, in order.
    pub filled: Seq<u128>,
    /// What is left of the incoming quantity.
    pub remaining: u64,
}

/// What `PriceLevel::match_order` does to a level in state `s` for an incoming `quantity`.
pub uninterp spec fn level_match_outcome(s: LevelState, quantity: u64) -> LevelOutcome;

/// The sum of the quantities of a sequence of fills.
pub open spec fn fills_total(fills: Seq<(u128, u64)>) -> int
    decreases fills.len(),
{
    if fills.len() == 0 {
        0
    } else {
        fills_total(fills.drop_last()) + fills.last().1
    }
}

/// What one call of `PriceLevel::match_order` hands back, converted.
pub struct LevelFill {
    /// The trades, in order.
    pub transactions: Vec<Transaction>,
    /// The resting orders that were filled completely, in order.
    pub filled: Vec<OrderId>,
    /// What is left of the incoming quantity.
    pub remaining: u64,
}

// ---------------------------------------------------------------------------
// Converting orders between this crate's types and pricelevel's.
// ---------------------------------------------------------------------------

/// The fields that every order kind has.
pub struct OrderCore {
    pub id: OrderId,
    pub price: u64,
    pub visible: u64,
    pub hidden: u64,
    pub side: Side,
    pub timestamp: u64,
    pub time_in_force: TimeInForce,
}

/// An order's kind, with the fields that only that kind has.
pub enum OrderKind {
    Standard,
    Iceberg,
    PostOnly,
    TrailingStop(u64, u64),
    Pegged(i64, PegReferenceType),
    MarketToLimit,
    Reserve(u64, Option<u64>, bool),
}

#[verifier::external_body]
fn id_out(id: OrderId) -> pricelevel::OrderId {
    pricelevel::OrderId::Uuid(Uuid::from_u128(id.0))
}

#[verifier::external_body]
fn side_out(side: Side) -> pricelevel::Side {
    match side {
        Side::Buy => pricelevel::Side::Buy,
        Side::Sell => pricelevel::Side::Sell,
    }
}

#[verifier::external_body]
fn time_in_force_out(t: TimeInForce) -> pricelevel::TimeInForce {
    match t {
        TimeInForce::Gtc => pricelevel::TimeInForce::Gtc,
        TimeInForce::Ioc => pricelevel::TimeInForce::Ioc,
        TimeInForce::Fok => pricelevel::TimeInForce::Fok,
        TimeInForce::Gtd(e) => pricelevel::TimeInForce::Gtd(e),
        TimeInForce::Day => pricelevel::TimeInForce::Day,
    }
}

#[verifier::external_body]
fn peg_out(p: PegReferenceType) -> pricelevel::PegReferenceType {
    match p {
        PegReferenceType::BestBid => pricelevel::PegReferenceType::BestBid,
        PegReferenceType::BestAsk => pricelevel::PegReferenceType::BestAsk,
        PegReferenceType::MidPrice => pricelevel::PegReferenceType::MidPrice,
        PegReferenceType::LastTrade => pricelevel::PegReferenceType::LastTrade,
    }
}

#[verifier::external_body]
fn side_in(side: pricelevel::Side) -> Side {
    match side {
        pricelevel::Side::Buy => Side::Buy,
        pricelevel::Side::Sell => Side::Sell,
    }
}

#[verifier::external_body]
fn time_in_force_in(t: pricelevel::TimeInForce) -> TimeInForce {
    match t {
        pricelevel::TimeInForce::Gtc => TimeInForce::Gtc,
        pricelevel::TimeInForce::Ioc => TimeInForce::Ioc,
        pricelevel::TimeInForce::Fok => TimeInForce::Fok,
        pricelevel::TimeInForce::Gtd(e) => TimeInForce::Gtd(e),
        pricelevel::TimeInForce::Day => TimeInForce::Day,
    }
}

#[verifier::external_body]
fn peg_in(p: pricelevel::PegReferenceType) -> PegReferenceType {
    match p {
        pricelevel::PegReferenceType::BestBid => PegReferenceType::BestBid,
        pricelevel::PegReferenceType::BestAsk => PegReferenceType::BestAsk,
        pricelevel::PegReferenceType::MidPrice => PegReferenceType::MidPrice,
        pricelevel::PegReferenceType::LastTrade => PegReferenceType::LastTrade,
    }
}

/// Reads the fields that every kind of pricelevel order has.
#[verifier::external_body]
fn core_in(o: &pricelevel::OrderType<()>) -> OrderCore {
    OrderCore {
        id: OrderId(u128::from_be_bytes(o.id().as_bytes())),
        price: o.price(),
        visible: o.visible_quantity(),
        hidden: o.hidden_quantity(),
        side: side_in(o.side()),
        timestamp: o.timestamp(),
        time_in_force: time_in_force_in(o.time_in_force()),
    }
}

/// Reads a pricelevel order's kind and its kind-specific fields.
#[verifier::external_body]
fn kind_in(o: &pricelevel::OrderType<()>) -> OrderKind {
    match o {
        pricelevel::OrderType::Standard { .. } => OrderKind::Standard,
        pricelevel::OrderType::IcebergOrder { .. } => OrderKind::Iceberg,
        pricelevel::OrderType::PostOnly { .. } => OrderKind::PostOnly,
        pricelevel::OrderType::TrailingStop { trail_amount: a, last_reference_price: r, .. } => OrderKind::TrailingStop(*a, *r),
        pricelevel::OrderType::PeggedOrder { reference_price_offset: o, reference_price_type: t, .. } => OrderKind::Pegged(*o, peg_in(*t)),
        pricelevel::OrderType::MarketToLimit { .. } => OrderKind::MarketToLimit,
        pricelevel::OrderType::ReserveOrder { replenish_threshold: t, replenish_amount: a, auto_replenish: r, .. } => OrderKind::Reserve(*t, *a, *r),
    }
}

/// The fields of `o` that every order kind has (hidden quantity zero for
/// kinds without a reserve).
pub open spec fn core_of(o: OrderType) -> OrderCore {
    OrderCore {
        id: o.id(),
        price: o.price(),
        visible: o.visible_quantity(),
        hidden: o.hidden_quantity(),
        side: o.side(),
        timestamp: o.timestamp(),
        time_in_force: o.time_in_force(),
    }
}

/// The kind of `o`, with the fields that only that kind has.
pub open spec fn kind_of(o: OrderType) -> OrderKind {
    match o {
        OrderType::Standard { .. } => OrderKind::Standard,
        OrderType::IcebergOrder { .. } => OrderKind::Iceberg,
        OrderType::PostOnly { .. } => OrderKind::PostOnly,
        OrderType::TrailingStop { trail_amount, last_reference_price, .. } =>
            OrderKind::TrailingStop(trail_amount, last_reference_price),
        OrderType::PeggedOrder { reference_price_offset, reference_price_type, .. } =>
            OrderKind::Pegged(reference_price_offset, reference_price_type),
        OrderType::MarketToLimit { .. } => OrderKind::MarketToLimit,
        OrderType::ReserveOrder { replenish_threshold, replenish_amount, auto_replenish, .. } =>
            OrderKind::Reserve(replenish_threshold, replenish_amount, auto_replenish),
    }
}

/// Orders of kind `k` keep a hidden quantity.
pub open spec fn keeps_hidden(k: OrderKind) -> bool {
    k is Iceberg || k is Reserve
}

/// Builds this crate's order from the fields read off a pricelevel order:
/// the order of kind `k` with the common fields of `c` (its hidden quantity
/// only for kinds that keep one).
fn assemble(c: OrderCore, k: OrderKind) -> (r: OrderType)
    ensures
        kind_of(r) == k,
        core_of(r) == (OrderCore {
            id: c.id,
            price: c.price,
            visible: c.visible,
            hidden: if keeps_hidden(k) { c.hidden } else { 0 },
            side: c.side,
            timestamp: c.timestamp,
            time_in_force: c.time_in_force,
        }),
{
    let (id, price, side, timestamp, time_in_force) = (c.id, c.price, c.side, c.timestamp, c.time_in_force);
    match k {
        OrderKind::Standard => OrderType::Standard { id, price, quantity: c.visible, side, timestamp, time_in_force },
        OrderKind::Iceberg => OrderType::IcebergOrder {
            id, price, visible_quantity: c.visible, hidden_quantity: c.hidden, side, timestamp, time_in_force,
        },
        OrderKind::PostOnly => OrderType::PostOnly { id, price, quantity: c.visible, side, timestamp, time_in_force },
        OrderKind::TrailingStop(trail_amount, last_reference_price) => OrderType::TrailingStop {
            id, price, quantity: c.visible, side, timestamp, time_in_force, trail_amount, last_reference_price,
        },
        OrderKind::Pegged(reference_price_offset, reference_price_type) => OrderType::PeggedOrder {
            id, price, quantity: c.visible, side, timestamp, time_in_force, reference_price_offset, reference_price_type,
        },
        OrderKind::MarketToLimit => OrderType::MarketToLimit { id, price, quantity: c.visible, side, timestamp, time_in_force },
        OrderKind::Reserve(replenish_threshold, replenish_amount, auto_replenish) => OrderType::ReserveOrder {
            id, price, visible_quantity: c.visible, hidden_quantity: c.hidden, side, timestamp, time_in_force,
            replenish_threshold, replenish_amount, auto_replenish,
        },
    }
}

/// This crate's order for a pricelevel order.
fn order_in(o: &pricelevel::OrderType<()>) -> OrderType {
    assemble(core_in(o), kind_in(o))
}

#[verifier::external_body]
fn standard_out(id: OrderId, price: u64, quantity: u64, side: Side, timestamp: u64, t: TimeInForce) -> pricelevel::OrderType<()> {
    pricelevel::OrderType::Standard {
        id: id_out(id), price, quantity, side: side_out(side), timestamp,
        time_in_force: time_in_force_out(t), extra_fields: (),
    }
}

#[verifier::external_body]
fn iceberg_out(id: OrderId, price: u64, visible: u64, hidden: u64, side: Side, timestamp: u64, t: TimeInForce) -> pricelevel::OrderType<()> {
    pricelevel::OrderType::IcebergOrder {
        id: id_out(id), price, visible_quantity: visible, hidden_quantity: hidden, side: side_out(side),
        timestamp, time_in_force: time_in_force_out(t), extra_fields: (),
    }
}

#[verifier::external_body]
fn post_only_out(id: OrderId, price: u64, quantity: u64, side: Side, timestamp: u64, t: TimeInForce) -> pricelevel::OrderType<()> {
    pricelevel::OrderType::PostOnly {
        id: id_out(id), price, quantity, side: side_out(side), timestamp,
        time_in_force: time_in_force_out(t), extra_fields: (),
    }
}

#[verifier::external_body]
fn trailing_stop_out(c: OrderCore, trail_amount: u64, last_reference_price: u64) -> pricelevel::OrderType<()> {
    pricelevel::OrderType::TrailingStop {
        id: id_out(c.id), price: c.price, quantity: c.visible, side: side_out(c.side), timestamp: c.timestamp,
        time_in_force: time_in_force_out(c.time_in_force), trail_amount, last_reference_price, extra_fields: (),
    }
}

#[verifier::external_body]
fn pegged_out(c: OrderCore, offset: i64, reference: PegReferenceType) -> pricelevel::OrderType<()> {
    pricelevel::OrderType::PeggedOrder {
        id: id_out(c.id), price: c.price, quantity: c.visible, side: side_out(c.side), timestamp: c.timestamp,
        time_in_force: time_in_force_out(c.time_in_force), reference_price_offset: offset,
        reference_price_type: peg_out(reference), extra_fields: (),
    }
}

#[verifier::external_body]
fn market_to_limit_out(id: OrderId, price: u64, quantity: u64, side: Side, timestamp: u64, t: TimeInForce) -> pricelevel::OrderType<()> {
    pricelevel::OrderType::MarketToLimit {
        id: id_out(id), price, quantity, side: side_out(side), timestamp,
        time_in_force: time_in_force_out(t), extra_fields: (),
    }
}

#[verifier::external_body]
fn reserve_out(c: OrderCore, threshold: u64, amount: Option<u64>, auto: bool) -> pricelevel::OrderType<()> {
    pricelevel::OrderType::ReserveOrder {
        id: id_out(c.id), price: c.price, visible_quantity: c.visible, hidden_quantity: c.hidden,
        side: side_out(c.side), timestamp: c.timestamp, time_in_force: time_in_force_out(c.time_in_force),
        replenish_threshold: threshold, replenish_amount: amount, auto_replenish: auto, extra_fields: (),
    }
}

/// pricelevel's order for this crate's order.
fn order_out(o: &OrderType) -> pricelevel::OrderType<()> {
    match *o {
        OrderType::Standard { id, price, quantity, side, timestamp, time_in_force } =>
            standard_out(id, price, quantity, side, timestamp, time_in_force),
        OrderType::IcebergOrder { id, price, visible_quantity, hidden_quantity, side, timestamp, time_in_force } =>
            iceberg_out(id, price, visible_quantity, hidden_quantity, side, timestamp, time_in_force),
        OrderType::PostOnly { id, price, quantity, side, timestamp, time_in_force } =>
            post_only_out(id, price, quantity, side, timestamp, time_in_force),
        OrderType::TrailingStop { id, price, quantity, side, timestamp, time_in_force, trail_amount, last_reference_price } =>
            trailing_stop_out(
                OrderCore { id, price, visible: quantity, hidden: 0, side, timestamp, time_in_force },
                trail_amount,
                last_reference_price,
            ),
        OrderType::PeggedOrder { id, price, quantity, side, timestamp, time_in_force, reference_price_offset, reference_price_type } =>
            pegged_out(
                OrderCore { id, price, visible: quantity, hidden: 0, side, timestamp, time_in_force },
                reference_price_offset,
                reference_price_type,
            ),
        OrderType::MarketToLimit { id, price, quantity, side, timestamp, time_in_force } =>
            market_to_limit_out(id, price, quantity, side, timestamp, time_in_force),
        OrderType::ReserveOrder {
            id, price, visible_quantity, hidden_quantity, side, timestamp, time_in_force,
            replenish_threshold, replenish_amount, auto_replenish,
        } => reserve_out(
            OrderCore { id, price, visible: visible_quantity, hidden: hidden_quantity, side, timestamp, time_in_force },
            replenish_threshold,
            replenish_amount,
            auto_replenish,
        ),
    }
}

// ---------------------------------------------------------------------------
// Price levels.
// ---------------------------------------------------------------------------

/// `PriceLevel::new`: an empty level at `price`, all counters zero.
#[verifier::external_body]
pub(crate) fn level_new(price: u64) -> (r: PriceLevel)
    ensures
        level_state(r) == empty_level(price),
{
    PriceLevel::new(price)
}

/// `PriceLevel::add_order`: the order joins the back of the queue and the
/// live orders (replacing a live order with the same identifier), and the
/// counters grow by one and by its shown and hidden quantities. Hands back the
/// stored order.
#[verifier::external_body]
pub(crate) fn level_add(level: &mut PriceLevel, order: OrderType) -> (r: OrderType)
    ensures
        r == order,
        level_state(*final(level)).price == level_state(*old(level)).price,
        level_state(*final(level)).queue == level_state(*old(level)).queue.push(order.id().0),
        level_state(*final(level)).orders == level_state(*old(level)).orders.insert(order.id().0, order),
        level_state(*final(level)).order_count == count_inc(level_state(*old(level)).order_count),
        level_state(*final(level)).visible == wrap_add(level_state(*old(level)).visible, order.visible_quantity()),
        level_state(*final(level)).hidden == wrap_add(level_state(*old(level)).hidden, order.hidden_quantity()),
{
    order_in(&level.add_order(order_out(&order)))
}

/// `PriceLevel::update_order` with `OrderUpdate::Cancel`: a live order with
/// that identifier leaves the live orders (its identifier stays in the queue)
/// and the counters shrink by one and by its quantities; it is handed back.
/// Otherwise nothing changes and nothing is handed back.
#[verifier::external_body]
pub(crate) fn level_cancel(level: &mut PriceLevel, id: OrderId) -> (r: Option<OrderType>)
    ensures
        ({
            let s = level_state(*old(level));
            let t = level_state(*final(level));
            if s.orders.contains_key(id.0) {
                let o = s.orders[id.0];
                &&& r == Some(o)
                &&& t.price == s.price
                &&& t.queue == s.queue
                &&& t.orders == s.orders.remove(id.0)
                &&& t.order_count == count_dec(s.order_count)
                &&& t.visible == wrap_sub(s.visible, o.visible_quantity())
                &&& t.hidden == wrap_sub(s.hidden, o.hidden_quantity())
            } else {
                r.is_none() && t == s
            }
        }),
{
    match level.update_order(pricelevel::OrderUpdate::Cancel { order_id: id_out(id) }) {
        Ok(found) => found.map(|o| order_in(&o)),
        Err(_) => None,
    }
}

/// `PriceLevel::update_order` with `OrderUpdate::UpdateQuantity`: a live
/// order with that identifier is replaced by `with_reduced_quantity` of it,
/// its identifier joins the back of the queue, the order counter stays and the
/// quantity counters move by the difference; the new order is handed back.
/// Otherwise nothing changes and nothing is handed back.
#[verifier::external_body]
pub(crate) fn level_update_quantity(level: &mut PriceLevel, id: OrderId, new_quantity: u64) -> (r: Option<OrderType>)
    ensures
        ({
            let s = level_state(*old(level));
            let t = level_state(*final(level));
            if s.orders.contains_key(id.0) {
                let o = s.orders[id.0];
                let n = o.with_reduced_quantity(new_quantity);
                &&& r == Some(n)
                &&& t.price == s.price
                &&& t.queue == s.queue.push(id.0)
                &&& t.orders == s.orders.insert(id.0, n)
                &&& t.order_count == s.order_count
                &&& t.visible == wrap_sub(wrap_add(s.visible, n.visible_quantity()), o.visible_quantity())
                &&& t.hidden == wrap_sub(wrap_add(s.hidden, n.hidden_quantity()), o.hidden_quantity())
            } else {
                r.is_none() && t == s
            }
        }),
{
    let update = pricelevel::OrderUpdate::UpdateQuantity { order_id: id_out(id), new_quantity };
    match level.update_order(update) {
        Ok(found) => found.map(|o| order_in(&o)),
        Err(_) => None,
    }
}

/// The `i`-th trade of matching `quantity` at a level in state `s` for the
/// incoming order `taker`: its maker and quantity are the `i`-th fill, at the
/// level's price, with the taker on the maker's opposite side.
pub open spec fn trade_matches_fill(t: Transaction, s: LevelState, quantity: u64, taker: OrderId, i: int) -> bool {
    let f = level_match_outcome(s, quantity).fills[i];
    &&& t.maker_order_id == OrderId(f.0)
    &&& t.quantity == f.1
    &&& t.price == s.price
    &&& t.taker_order_id == taker
    &&& s.orders.contains_key(f.0)
    &&& t.taker_side == s.orders[f.0].side().opposite()
    &&& f.1 > 0
}

/// What holds of every match at a level: nothing is left over unless the level
/// ran out of live orders, the fills add up to what was matched, the price
/// stays, the level's facts are kept, every order live afterwards was live
/// before with the same side and price, and the filled orders were live and
/// are no longer.
pub open spec fn match_outcome_facts(s: LevelState, quantity: u64, after: LevelState, remaining: u64) -> bool {
    let out = level_match_outcome(s, quantity);
    &&& out.remaining <= quantity
    &&& fills_total(out.fills) == quantity - out.remaining
    &&& out.after.price == s.price
    &&& (level_ok(s) ==> level_ok(out.after))
    &&& (out.remaining > 0 ==> out.after.orders.len() == 0)
    &&& forall|k: u128| #[trigger] out.after.orders.contains_key(k) ==> {
        &&& s.orders.contains_key(k)
        &&& out.after.orders[k].side() == s.orders[k].side()
        &&& out.after.orders[k].price() == s.orders[k].price()
    }
    &&& forall|i: int| 0 <= i < out.filled.len() ==>
        s.orders.contains_key(#[trigger] out.filled[i]) && !out.after.orders.contains_key(out.filled[i])
}

/// The most that matching can take from `o` in one trade: its shown quantity,
/// or for a reserve order (which refills itself from its hidden part) its
/// shown plus hidden quantity.
pub open spec fn largest_fill(o: OrderType) -> int {
    match o {
        OrderType::ReserveOrder { visible_quantity, hidden_quantity, .. } => visible_quantity + hidden_quantity,
        _ => o.visible_quantity() as int,
    }
}

/// Matching against `o` makes progress and stays within `u64`: `o` cannot
/// stall it, a reserve order's shown plus hidden quantity fits (it is added
/// up when refilling), and its price times the largest fill fits (the level's
/// statistics multiply them).
pub open spec fn order_matchable(o: OrderType) -> bool {
    &&& !o.may_stall()
    &&& (o is ReserveOrder ==> o.visible_quantity() + o.hidden_quantity() <= u64::MAX)
    &&& o.price() * largest_fill(o) <= u64::MAX
}

/// Every live order of the level in state `s` can be matched against.
pub open spec fn level_matchable(s: LevelState) -> bool {
    forall|k: u128| #[trigger] s.orders.contains_key(k) ==> order_matchable(s.orders[k])
}

/// `PriceLevel::match_order`: the level in state `s` matches `quantity` for
/// the incoming order `taker`. Its new state, the trades' makers and
/// quantities, the filled orders and the remaining quantity are
/// `level_match_outcome(s, quantity)`. Beside that: nothing is left over
/// unless the level ran out of orders; the trades add up to what was matched,
/// each is for a positive quantity at the level's price, with a live maker of
/// the level and the taker on the maker's opposite side; filled orders were
/// live and are no longer. Trade identifiers come from `generator` and
/// timestamps from the clock; nothing is said of them. For a positive
/// quantity every live order must be `order_matchable`: otherwise the call
/// may not return (a stalling order) or may overflow (`u64` arithmetic in the
/// statistics and in refilling a reserve order). With quantity zero nothing
/// is matched and the level stays as it was. Each order taken off the level
/// leaves its count with it, so a counter that read the number of live orders
/// still does; an order taken off without being reported filled matched
/// nothing, so it showed zero when the call began (a refilled order shows a
/// positive quantity, since stalling orders are excluded).
#[verifier::external_body]
pub(crate) fn level_match(level: &mut PriceLevel, quantity: u64, taker: OrderId, generator: &UuidGenerator) -> (r: LevelFill)
    requires
        quantity == 0 || level_matchable(level_state(*old(level))),
    ensures
        quantity == 0 ==> level_state(*final(level)) == level_state(*old(level)),
        quantity == 0 ==> r.remaining == 0 && r.transactions@.len() == 0 && r.filled@.len() == 0,
        level_state(*final(level)) == level_match_outcome(level_state(*old(level)), quantity).after,
        r.remaining == level_match_outcome(level_state(*old(level)), quantity).remaining,
        match_outcome_facts(level_state(*old(level)), quantity, level_state(*final(level)), r.remaining),
        level_state(*old(level)).order_count == level_state(*old(level)).orders.len()
            ==> level_state(*final(level)).order_count == level_state(*final(level)).orders.len(),
        forall|k: u128| #[trigger] level_state(*old(level)).orders.contains_key(k)
            && !level_state(*final(level)).orders.contains_key(k)
            && !r.filled@.contains(OrderId(k))
            ==> level_state(*old(level)).orders[k].visible_quantity() == 0,
        r.filled@.len() == level_match_outcome(level_state(*old(level)), quantity).filled.len(),
        forall|i: int| 0 <= i < r.filled@.len() ==>
            #[trigger] r.filled@[i] == OrderId(level_match_outcome(level_state(*old(level)), quantity).filled[i]),
        r.transactions@.len() == level_match_outcome(level_state(*old(level)), quantity).fills.len(),
        forall|i: int| 0 <= i < r.transactions@.len() ==>
            trade_matches_fill(#[trigger] r.transactions@[i], level_state(*old(level)), quantity, taker, i),
{
    let m = level.match_order(quantity, id_out(taker), generator);
    let transactions = m.transactions.as_vec().iter().map(|t| Transaction {
        transaction_id: t.transaction_id.as_u128(),
        taker_order_id: OrderId(u128::from_be_bytes(t.taker_order_id.as_bytes())),
        maker_order_id: OrderId(u128::from_be_bytes(t.maker_order_id.as_bytes())),
        price: t.price, quantity: t.quantity, taker_side: side_in(t.taker_side), timestamp: t.timestamp,
    }).collect();
    let filled = m.filled_order_ids.iter().map(|i| OrderId(u128::from_be_bytes(i.as_bytes()))).collect();
    LevelFill { transactions, filled, remaining: m.remaining_quantity }
}

/// `PriceLevel::order_count`: the order counter.
#[verifier::external_body]
pub(crate) fn level_order_count(level: &PriceLevel) -> (r: usize)
    ensures
        r == level_state(*level).order_count,
{
    level.order_count()
}

/// `PriceLevel::visible_quantity`: the shown-quantity counter.
#[verifier::external_body]
pub(crate) fn level_visible(level: &PriceLevel) -> (r: u64)
    ensures
        r == level_state(*level).visible,
{
    level.visible_quantity()
}

/// `PriceLevel::hidden_quantity`: the hidden-quantity counter.
#[verifier::external_body]
pub(crate) fn level_hidden(level: &PriceLevel) -> (r: u64)
    ensures
        r == level_state(*level).hidden,
{
    level.hidden_quantity()
}

/// `PriceLevel::iter_orders`: the live orders, each once, sorted by
/// timestamp; among equal timestamps the order is not specified.
#[verifier::external_body]
pub(crate) fn level_orders(level: &PriceLevel) -> (r: Vec<OrderType>)
    ensures
        level_ok(level_state(*level)) ==> lists_orders(r@, level_state(*level).orders),
{
    level.iter_orders().iter().map(|o| order_in(o)).collect()
}

/// `PriceLevel::snapshot`: the price, the three counters and the live orders
/// as `iter_orders` lists them.
#[verifier::external_body]
pub(crate) fn level_snapshot(level: &PriceLevel) -> (r: PriceLevelSnapshot)
    ensures
        r.price == level_state(*level).price,
        r.visible_quantity == level_state(*level).visible,
        r.hidden_quantity == level_state(*level).hidden,
        r.order_count == level_state(*level).order_count,
        level_ok(level_state(*level)) ==> lists_orders(r.orders@, level_state(*level).orders),
{
    let s = level.snapshot();
    PriceLevelSnapshot {
        price: s.price,
        visible_quantity: s.visible_quantity,
        hidden_quantity: s.hidden_quantity,
        order_count: s.order_count,
        orders: s.orders.iter().map(|o| order_in(o)).collect(),
    }
}

// ---------------------------------------------------------------------------
// Transaction identifiers.
// ---------------------------------------------------------------------------

/// `Uuid::new_v4`: a random 128-bit value; nothing is said of it.
#[verifier::external_body]
pub(crate) fn random_uuid() -> (r: u128) {
    Uuid::new_v4().as_u128()
}

/// `UuidGenerator::new`: a generator of trade identifiers in `namespace`.
#[verifier::external_body]
pub(crate) fn generator_new(namespace: u128) -> (r: UuidGenerator) {
    UuidGenerator::new(Uuid::from_u128(namespace))
}

// ---------------------------------------------------------------------------
// Order locations.
// ---------------------------------------------------------------------------

/// The entries of the map from order identifier to (price, side).
pub uninterp spec fn location_map(m: DashMap<u128, (u64, Side)>) -> Map<u128, (u64, Side)>;

/// `DashMap::new`: an empty map.
#[verifier::external_body]
pub(crate) fn locations_new() -> (r: DashMap<u128, (u64, Side)>)
    ensures
        location_map(r) =~= Map::empty(),
{
    DashMap::new()
}

/// `DashMap::insert`: the entry for `key` becomes `value`.
#[verifier::external_body]
pub(crate) fn locations_insert(m: &mut DashMap<u128, (u64, Side)>, key: u128, value: (u64, Side))
    ensures
        location_map(*final(m)) == location_map(*old(m)).insert(key, value),
{
    m.insert(key, value);
}

/// `DashMap::get`, with the value copied out.
#[verifier::external_body]
pub(crate) fn locations_get(m: &DashMap<u128, (u64, Side)>, key: u128) -> (r: Option<(u64, Side)>)
    ensures
        r == (if location_map(*m).contains_key(key) {
            Some(location_map(*m)[key])
        } else {
            None
        }),
{
    m.get(&key).map(|e| *e.value())
}

/// `DashMap::remove`: the entry for `key` is gone.
#[verifier::external_body]
pub(crate) fn locations_remove(m: &mut DashMap<u128, (u64, Side)>, key: u128)
    ensures
        location_map(*final(m)) == location_map(*old(m)).remove(key),
{
    m.remove(&key);
}

} // verus!

use orderbook::book::OrderBook;
use orderbook::current_time_millis;
use orderbook::error::OrderBookError;
use orderbook::execution::{MatchResult, PriceLevelSnapshot, Transaction};
use orderbook::orders::{OrderId, OrderType, OrderUpdate, PegReferenceType, Side, TimeInForce};
use orderbook::snapshot::OrderBookSnapshot;
use uuid::Uuid;

trait MidPrice {
    fn mid_price_f64(&mut self) -> Option<f64>;
}

impl MidPrice for OrderBook {
    fn mid_price_f64(&mut self) -> Option<f64> {
        match (self.best_bid(), self.best_ask()) {
            (Some(bid), Some(ask)) => Some((bid as f64 + ask as f64) / 2.0),
            _ => None,
        }
    }
}
// Helper function to create a unique order ID
fn create_order_id() -> OrderId {
    OrderId(Uuid::new_v4().as_u128())
}

#[test]
fn test_market_close_timestamp() {
    let mut book: OrderBook = OrderBook::new("TEST");

    // Set market close timestamp
    let close_time = current_time_millis() + 60000; // 1 minute in the future
    book.set_market_close_timestamp(close_time);

    // Add a standard limit order with DAY time-in-force
    let id = create_order_id();
    let result = book.add_limit_order(id, 1000, 10, Side::Buy, TimeInForce::Day);
    assert!(result.is_ok());

    // Order should be in the book
    assert!(book.get_order(id).is_some());

    // Clear market close timestamp
    book.clear_market_close_timestamp();

    // Update with a time past the original close
    let past_close_time = close_time + 1000;
    book.set_market_close_timestamp(past_close_time);

    // Add another day order
    let id2 = create_order_id();
    let result = book.add_limit_order(id2, 1000, 10, Side::Buy, TimeInForce::Day);
    assert!(result.is_ok());
}

#[test]
fn test_get_volume_by_price() {
    let mut book: OrderBook = OrderBook::new("TEST");

    // Add multiple orders at different price levels
    let id1 = create_order_id();
    let _ = book.add_limit_order(id1, 1000, 10, Side::Buy, TimeInForce::Gtc);

    let id2 = create_order_id();
    let _ = book.add_limit_order(id2, 1000, 15, Side::Buy, TimeInForce::Gtc); // Same price

    let id3 = create_order_id();
    let _ = book.add_limit_order(id3, 990, 20, Side::Buy, TimeInForce::Gtc); // Different price

    let id4 = create_order_id();
    let _ = book.add_limit_order(id4, 1010, 5, Side::Sell, TimeInForce::Gtc); // Sell side

    let id5 = create_order_id();
    let _ = book.add_limit_order(id5, 1010, 8, Side::Sell, TimeInForce::Gtc); // Same price

    // Get volumes by price
    let (bid_volumes, ask_volumes) = book.get_volume_by_price();

    // Check bid volumes
    assert_eq!(bid_volumes.len(), 2);
    assert_eq!(bid_volumes.get(&1000), Some(&25)); // 10 + 15
    assert_eq!(bid_volumes.get(&990), Some(&20));

    // Check ask volumes
    assert_eq!(ask_volumes.len(), 1);
    assert_eq!(ask_volumes.get(&1010), Some(&13)); // 5 + 8
}

#[test]
fn test_snapshot_creation() {
    let mut book: OrderBook = OrderBook::new("TEST");

    // Add orders on both sides
    let _ = book.add_limit_order(
        create_order_id(),
        1000,
        10,
        Side::Buy,
        TimeInForce::Gtc);
    let _ = book.add_limit_order(
        create_order_id(),
        990,
        15,
        Side::Buy,
        TimeInForce::Gtc);
    let _ = book.add_limit_order(
        create_order_id(),
        980,
        20,
        Side::Buy,
        TimeInForce::Gtc);

    let _ = book.add_limit_order(
        create_order_id(),
        1010,
        5,
        Side::Sell,
        TimeInForce::Gtc);
    let _ = book.add_limit_order(
        create_order_id(),
        1020,
        8,
        Side::Sell,
        TimeInForce::Gtc);
    let _ = book.add_limit_order(
        create_order_id(),
        1030,
        12,
        Side::Sell,
        TimeInForce::Gtc);

    // Create snapshot with limited depth
    let snapshot = book.create_snapshot(2);

    // Check snapshot properties
    assert_eq!(snapshot.symbol, "TEST");
    assert_eq!(snapshot.bids.len(), 2); // Limited to 2 levels
    assert_eq!(snapshot.asks.len(), 2); // Limited to 2 levels

    // Check prices are in correct order
    assert_eq!(snapshot.bids[0].price, 1000); // Highest bid first
    assert_eq!(snapshot.bids[1].price, 990); // Second highest

    assert_eq!(snapshot.asks[0].price, 1010); // Lowest ask first
    assert_eq!(snapshot.asks[1].price, 1020); // Second lowest

    // Create a full depth snapshot
    let full_snapshot = book.create_snapshot(10);
    assert_eq!(full_snapshot.bids.len(), 3); // All 3 bid levels
    assert_eq!(full_snapshot.asks.len(), 3); // All 3 ask levels
}

#[test]
fn test_mid_price_calculation() {
    let mut book: OrderBook = OrderBook::new("TEST");

    // Initially no orders, mid price should be None
    assert_eq!(book.mid_price_f64(), None);

    // Add a bid only
    let _ = book.add_limit_order(
        create_order_id(),
        1000,
        10,
        Side::Buy,
        TimeInForce::Gtc);
    assert_eq!(book.mid_price_f64(), None); // Still None with just bids

    // Add an ask
    let _ = book.add_limit_order(
        create_order_id(),
        1040,
        10,
        Side::Sell,
        TimeInForce::Gtc);
    assert_eq!(book.mid_price_f64(), Some(1020.0)); // Mid price is (1000 + 1040) / 2

    // Add better bid and ask
    let _ = book.add_limit_order(
        create_order_id(),
        1010,
        5,
        Side::Buy,
        TimeInForce::Gtc);
    let _ = book.add_limit_order(
        create_order_id(),
        1030,
        5,
        Side::Sell,
        TimeInForce::Gtc);
    assert_eq!(book.mid_price_f64(), Some(1020.0)); // Mid price is (1010 + 1030) / 2
}

#[test]
fn test_spread_calculation() {
    let mut book: OrderBook = OrderBook::new("TEST");

    // Initially no orders, spread should be None
    assert_eq!(book.spread(), None);

    // Add a bid only
    let _ = book.add_limit_order(
        create_order_id(),
        1000,
        10,
        Side::Buy,
        TimeInForce::Gtc);
    assert_eq!(book.spread(), None); // Still None with just bids

    // Add an ask
    let _ = book.add_limit_order(
        create_order_id(),
        1040,
        10,
        Side::Sell,
        TimeInForce::Gtc);
    assert_eq!(book.spread(), Some(40)); // Spread is 1040 - 1000

    // Add better bid and ask
    let _ = book.add_limit_order(
        create_order_id(),
        1010,
        5,
        Side::Buy,
        TimeInForce::Gtc);
    let _ = book.add_limit_order(
        create_order_id(),
        1030,
        5,
        Side::Sell,
        TimeInForce::Gtc);
    assert_eq!(book.spread(), Some(20)); // Spread is 1030 - 1010
}

use orderbook::book::OrderBook;
use orderbook::current_time_millis;
use orderbook::error::OrderBookError;
use orderbook::execution::{MatchResult, PriceLevelSnapshot, Transaction};
use orderbook::orders::{OrderId, OrderType, OrderUpdate, PegReferenceType, Side, TimeInForce};
use orderbook::snapshot::OrderBookSnapshot;
use uuid::Uuid;

#[derive(Debug, Clone, Default, PartialEq)]
struct TestExtraFields {
    pub metadata: String,
}
fn create_order_id() -> OrderId {
    OrderId(Uuid::new_v4().as_u128())
}

#[test]
fn test_has_expired_with_market_close_set() {
    // Test has_expired with market close timestamp set (lines 43, 65)
    let mut book = OrderBook::new("TEST");
    let current_time = current_time_millis();

    // Set market close timestamp in the past
    book.set_market_close_timestamp(current_time - 1000);

    let day_order = OrderType::Standard {
        id: create_order_id(),
        price: 100,
        quantity: 10,
        side: Side::Buy,
        timestamp: current_time,
        time_in_force: TimeInForce::Day,
    };

    // Day order should expire when market close is in the past
    assert!(book.has_expired(&day_order));
}

#[test]
fn test_has_expired_without_market_close() {
    // Test has_expired without market close timestamp (lines 67-72)
    let mut book = OrderBook::new("TEST");
    let current_time = current_time_millis();

    let gtc_order = OrderType::Standard {
        id: create_order_id(),
        price: 100,
        quantity: 10,
        side: Side::Buy,
        timestamp: current_time,
        time_in_force: TimeInForce::Gtc,
    };

    // GTC order should not expire without market close
    assert!(!book.has_expired(&gtc_order));
}

#[test]
fn test_will_cross_market_buy_side() {
    // Test will_cross_market for buy side (lines 74-80)
    let mut book = OrderBook::new("TEST");

    // Add a sell order at price 100
    let sell_id = create_order_id();
    let _ = book.add_limit_order(sell_id, 100, 10, Side::Sell, TimeInForce::Gtc);

    // Buy at 100 should cross (equal price)
    assert!(book.will_cross_market(100, Side::Buy));

    // Buy at 101 should cross (higher price)
    assert!(book.will_cross_market(101, Side::Buy));

    // Buy at 99 should not cross (lower price)
    assert!(!book.will_cross_market(99, Side::Buy));
}

#[test]
fn test_will_cross_market_sell_side() {
    // Test will_cross_market for sell side (lines 82)
    let mut book = OrderBook::new("TEST");

    // Add a buy order at price 100
    let buy_id = create_order_id();
    let _ = book.add_limit_order(buy_id, 100, 10, Side::Buy, TimeInForce::Gtc);

    // Sell at 100 should cross (equal price)
    assert!(book.will_cross_market(100, Side::Sell));

    // Sell at 99 should cross (lower price)
    assert!(book.will_cross_market(99, Side::Sell));

    // Sell at 101 should not cross (higher price)
    assert!(!book.will_cross_market(101, Side::Sell));
}

#[test]
fn test_place_order_in_book_buy_side() {
    // Test place_order_in_book for buy side (lines 90)
    let mut book = OrderBook::new("TEST");
    let order_id = create_order_id();

    let order = OrderType::Standard {
        id: order_id,
        price: 100,
        quantity: 10,
        side: Side::Buy,
        timestamp: current_time_millis(),
        time_in_force: TimeInForce::Gtc,
    };

    let result = book.place_order_in_book(order.clone());
    assert_eq!(result, order);

    // Verify order was added by checking if we can retrieve it
    let retrieved_order = book.get_order(order_id);
    assert!(retrieved_order.is_some());

    // Verify order properties
    let order = retrieved_order.unwrap();
    assert_eq!(order.price(), 100);
    assert_eq!(order.visible_quantity(), 10);
    assert_eq!(order.side(), Side::Buy);
}

#[test]
fn test_place_order_in_book_sell_side() {
    // Test place_order_in_book for sell side
    let mut book = OrderBook::new("TEST");
    let order_id = create_order_id();

    let order = OrderType::Standard {
        id: order_id,
        price: 100,
        quantity: 10,
        side: Side::Sell,
        timestamp: current_time_millis(),
        time_in_force: TimeInForce::Gtc,
    };

    let result = book.place_order_in_book(order.clone());
    assert_eq!(result, order);

    // Verify order was added by checking if we can retrieve it
    let retrieved_order = book.get_order(order_id);
    assert!(retrieved_order.is_some());

    // Verify order properties
    let order = retrieved_order.unwrap();
    assert_eq!(order.price(), 100);
    assert_eq!(order.visible_quantity(), 10);
    assert_eq!(order.side(), Side::Sell);
}

#[test]
fn test_has_expired_gtd_order_not_expired() {
    // Test has_expired for GTD order that hasn't expired
    let mut book = OrderBook::new("TEST");
    let current_time = current_time_millis();

    let gtd_order = OrderType::Standard {
        id: create_order_id(),
        price: 100,
        quantity: 10,
        side: Side::Buy,
        timestamp: current_time,
        time_in_force: TimeInForce::Gtd(current_time + 10000), // Expires in future
    };

    // GTD order should not expire if expiry is in future
    assert!(!book.has_expired(&gtd_order));
}

#[test]
fn test_has_expired_gtd_order_expired() {
    // Test has_expired for GTD order that has expired
    let mut book = OrderBook::new("TEST");
    let current_time = current_time_millis();

    let gtd_order = OrderType::Standard {
        id: create_order_id(),
        price: 100,
        quantity: 10,
        side: Side::Buy,
        timestamp: current_time,
        time_in_force: TimeInForce::Gtd(current_time - 1000), // Expired
    };

    // GTD order should expire if expiry is in past
    assert!(book.has_expired(&gtd_order));
}

#[test]
fn test_will_cross_market_no_opposite_side() {
    // Test will_cross_market when there's no opposite side
    let mut book = OrderBook::new("TEST");

    // No orders on either side - should not cross
    assert!(!book.will_cross_market(100, Side::Buy));
    assert!(!book.will_cross_market(100, Side::Sell));
}

#[test]
fn test_place_order_in_book_existing_price_level() {
    // Test place_order_in_book when price level already exists
    let mut book = OrderBook::new("TEST");

    // Add first order
    let order_id1 = create_order_id();
    let order1 = OrderType::Standard {
        id: order_id1,
        price: 100,
        quantity: 10,
        side: Side::Buy,
        timestamp: current_time_millis(),
        time_in_force: TimeInForce::Gtc,
    };

    let _ = book.place_order_in_book(order1);

    // Add second order at same price
    let order_id2 = create_order_id();
    let order2 = OrderType::Standard {
        id: order_id2,
        price: 100,
        quantity: 15,
        side: Side::Buy,
        timestamp: current_time_millis(),
        time_in_force: TimeInForce::Gtc,
    };

    let result = book.place_order_in_book(order2);
    assert_eq!(result, order2);

    // Verify both orders were added by checking if we can retrieve them
    let retrieved_order1 = book.get_order(order_id1);
    let retrieved_order2 = book.get_order(order_id2);
    assert!(retrieved_order1.is_some());
    assert!(retrieved_order2.is_some());

    // Verify we have orders at this price level
    let orders_at_price = book.get_orders_at_price(100, Side::Buy);
    assert_eq!(orders_at_price.len(), 2);
}

use orderbook::book::OrderBook;
use orderbook::current_time_millis;
use orderbook::error::OrderBookError;
use orderbook::execution::{MatchResult, PriceLevelSnapshot, Transaction};
use orderbook::orders::{OrderId, OrderType, OrderUpdate, PegReferenceType, Side, TimeInForce};
use orderbook::snapshot::OrderBookSnapshot;
use uuid::Uuid;
fn create_order_id() -> OrderId {
    OrderId(Uuid::new_v4().as_u128())
}

#[test]
fn test_add_limit_order_with_trace() {
    let mut book: OrderBook = OrderBook::new("TEST");

    // Add a limit order with detailed tracing
    let id = create_order_id();
    let price = 1000;
    let quantity = 10;
    let side = Side::Buy;
    let time_in_force = TimeInForce::Gtc;

    let result = book.add_limit_order(id, price, quantity, side, time_in_force);
    assert!(result.is_ok());

    // Verify order was added correctly
    let order = result.unwrap();
    assert_eq!(order.id(), id);
    assert_eq!(order.price(), price);
    assert_eq!(order.visible_quantity(), quantity);
}

#[test]
fn test_add_iceberg_order_with_trace() {
    let mut book: OrderBook = OrderBook::new("TEST");

    // Add an iceberg order with detailed tracing
    let id = create_order_id();
    let price = 1000;
    let visible_quantity = 10;
    let hidden_quantity = 90;
    let side = Side::Sell;
    let time_in_force = TimeInForce::Gtc;

    let result = book.add_iceberg_order(
        id,
        price,
        visible_quantity,
        hidden_quantity,
        side,
        time_in_force);
    assert!(result.is_ok());

    // Verify order was added correctly
    let order = result.unwrap();
    assert_eq!(order.id(), id);
    assert_eq!(order.price(), price);
    assert_eq!(order.visible_quantity(), visible_quantity);
    assert_eq!(order.hidden_quantity(), hidden_quantity);
}

#[test]
fn test_add_post_only_order_with_trace() {
    let mut book: OrderBook = OrderBook::new("TEST");

    // Add a post-only order with detailed tracing
    let id = create_order_id();
    let price = 1000;
    let quantity = 10;
    let side = Side::Buy;
    let time_in_force = TimeInForce::Gtc;

    let result = book.add_post_only_order(id, price, quantity, side, time_in_force);
    assert!(result.is_ok());

    // Verify order was added correctly
    let order = result.unwrap();
    assert_eq!(order.id(), id);
    assert_eq!(order.price(), price);
    assert_eq!(order.visible_quantity(), quantity);
    assert!(order.is_post_only());
}

use orderbook::book::OrderBook;
use orderbook::current_time_millis;
use orderbook::error::OrderBookError;
use orderbook::execution::{MatchResult, PriceLevelSnapshot, Transaction};
use orderbook::orders::{OrderId, OrderType, OrderUpdate, PegReferenceType, Side, TimeInForce};
use orderbook::snapshot::OrderBookSnapshot;
use uuid::Uuid;
#[derive(Debug, Clone, PartialEq, Default)]
struct OrderMetadata {
    client_id: String,
    strategy: String,
    priority: u32,
}

fn create_order_id() -> OrderId {
    OrderId(Uuid::new_v4().as_u128())
}

fn create_test_metadata() -> OrderMetadata {
    OrderMetadata {
        client_id: "client_123".to_string(),
        strategy: "momentum".to_string(),
        priority: 1,
    }
}

#[test]
fn operations_test_add_limit_order_with_extra_fields() {
    let mut order_book: OrderBook = OrderBook::new("TEST-SYMBOL");
    let id = create_order_id();
    let metadata = create_test_metadata();

    let result = order_book.add_limit_order(
        id,
        1000,
        10,
        Side::Buy,
        TimeInForce::Gtc);

    assert!(
        result.is_ok(),
        "Adding limit order with extra fields should succeed"
    );

    let order = result.unwrap();
    assert_eq!(order.id(), id);
    assert_eq!(order.price(), 1000);
    assert_eq!(order.visible_quantity(), 10);

    // Verify the order is in the book and can be retrieved
    let book_order = order_book.get_order(id);
    assert!(book_order.is_some(), "Order should be in the book");

    // Note: We can't directly access extra_fields from the order interface
    // but we can verify the order was created successfully with the metadata
}

#[test]
fn operations_test_add_iceberg_order_with_extra_fields() {
    let mut order_book: OrderBook = OrderBook::new("TEST-SYMBOL");
    let id = create_order_id();
    let metadata = OrderMetadata {
        client_id: "client_456".to_string(),
        strategy: "iceberg_algo".to_string(),
        priority: 2,
    };

    let result = order_book.add_iceberg_order(
        id,
        1000,
        10,
        90,
        Side::Sell,
        TimeInForce::Gtc);

    assert!(
        result.is_ok(),
        "Adding iceberg order with extra fields should succeed"
    );

    let order = result.unwrap();
    assert_eq!(order.id(), id);
    assert_eq!(order.price(), 1000);
    assert_eq!(order.visible_quantity(), 10);
    assert_eq!(order.hidden_quantity(), 90);

    // Verify the order is in the book
    let book_order = order_book.get_order(id);
    assert!(book_order.is_some(), "Order should be in the book");
}

#[test]
fn operations_test_add_post_only_order_with_extra_fields() {
    let mut order_book: OrderBook = OrderBook::new("TEST-SYMBOL");
    let id = create_order_id();
    let metadata = OrderMetadata {
        client_id: "client_789".to_string(),
        strategy: "post_only_maker".to_string(),
        priority: 3,
    };

    let result = order_book.add_post_only_order(
        id,
        1000,
        10,
        Side::Buy,
        TimeInForce::Gtc);

    assert!(
        result.is_ok(),
        "Adding post-only order with extra fields should succeed"
    );

    let order = result.unwrap();
    assert_eq!(order.id(), id);
    assert_eq!(order.price(), 1000);
    assert_eq!(order.visible_quantity(), 10);
    assert!(order.is_post_only());

    // Verify the order is in the book
    let book_order = order_book.get_order(id);
    assert!(book_order.is_some(), "Order should be in the book");
}

#[test]
fn test_mixed_orders_with_and_without_extra_fields() {
    let mut order_book: OrderBook = OrderBook::new("TEST-SYMBOL");

    // Add order without extra fields
    let id1 = create_order_id();
    let result1 = order_book.add_limit_order(id1, 1000, 10, Side::Buy, TimeInForce::Gtc);
    assert!(result1.is_ok(), "Order without extra fields should succeed");

    // Add order with extra fields
    let id2 = create_order_id();
    let metadata = create_test_metadata();
    let result2 =
        order_book.add_limit_order(id2, 1001, 15, Side::Buy, TimeInForce::Gtc);
    assert!(result2.is_ok(), "Order with extra fields should succeed");

    // Both orders should be in the book
    assert!(order_book.get_order(id1).is_some());
    assert!(order_book.get_order(id2).is_some());
}

#[test]
fn test_market_order_matching_with_extra_fields() {
    let mut order_book: OrderBook = OrderBook::new("TEST-SYMBOL");

    // Add a limit sell order with metadata
    let sell_id = create_order_id();
    let sell_metadata = OrderMetadata {
        client_id: "seller_123".to_string(),
        strategy: "market_making".to_string(),
        priority: 1,
    };

    let sell_result = order_book.add_limit_order(
        sell_id,
        1000,
        10,
        Side::Sell,
        TimeInForce::Gtc);
    assert!(sell_result.is_ok(), "Adding sell order should succeed");

    // Submit a market buy order
    let buy_id = create_order_id();
    let market_result = order_book.submit_market_order(buy_id, 5, Side::Buy);

    assert!(market_result.is_ok(), "Market order should succeed");
    let match_result = market_result.unwrap();

    // Verify the match occurred correctly
    assert_eq!(match_result.executed_quantity(), 5);
    assert_eq!(match_result.transactions.len(), 1);

    // The remaining sell order should still be in the book
    let remaining_sell = order_book.get_order(sell_id);
    assert!(remaining_sell.is_some());
    assert_eq!(remaining_sell.unwrap().visible_quantity(), 5);
}

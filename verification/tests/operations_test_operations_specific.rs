use orderbook::book::OrderBook;
use orderbook::current_time_millis;
use orderbook::error::OrderBookError;
use orderbook::execution::{MatchResult, PriceLevelSnapshot, Transaction};
use orderbook::orders::{OrderId, OrderType, OrderUpdate, PegReferenceType, Side, TimeInForce};
use orderbook::snapshot::OrderBookSnapshot;
use uuid::Uuid;
fn create_order_id() -> OrderId {
    OrderId(Uuid::new_v4().as_u128())
}

#[test]
fn test_submit_market_order_with_tracing() {
    let mut book: OrderBook = OrderBook::new("TEST");

    // Add a sell order
    let sell_id = create_order_id();
    let _ = book.add_limit_order(sell_id, 1000, 10, Side::Sell, TimeInForce::Gtc);

    // Submit a market buy order with tracing enabled
    let buy_id = create_order_id();

    let result = book.submit_market_order(buy_id, 5, Side::Buy);
    assert!(result.is_ok());

    // Verify order was matched correctly
    let remaining_sell = book.get_order(sell_id);
    assert!(remaining_sell.is_some());
    assert_eq!(remaining_sell.unwrap().visible_quantity(), 5);
}

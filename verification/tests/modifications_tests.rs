use orderbook::book::OrderBook;
use orderbook::current_time_millis;
use orderbook::error::OrderBookError;
use orderbook::execution::{MatchResult, PriceLevelSnapshot, Transaction};
use orderbook::orders::{OrderId, OrderType, OrderUpdate, PegReferenceType, Side, TimeInForce};
use orderbook::snapshot::OrderBookSnapshot;
use uuid::Uuid;
fn setup_book_with_orders() -> OrderBook {
    let mut book: OrderBook = OrderBook::new("TEST");
    let sell_order = OrderType::Standard {
        id: OrderId(Uuid::new_v4().as_u128()),
        side: Side::Sell,
        price: 100,
        quantity: 10,
        time_in_force: TimeInForce::Gtc,
        timestamp: 0,
    };
    book.add_order(sell_order).unwrap();

    let buy_order = OrderType::Standard {
        id: OrderId(Uuid::new_v4().as_u128()),
        side: Side::Buy,
        price: 90,
        quantity: 10,
        time_in_force: TimeInForce::Gtc,
        timestamp: 0,
    };
    book.add_order(buy_order).unwrap();
    book
}

#[test]
fn test_add_post_only_order_crossing_market() {
    let mut book = setup_book_with_orders();
    let post_only_order = OrderType::PostOnly {
        id: OrderId(Uuid::new_v4().as_u128()),
        side: Side::Buy,
        price: 100, // This price crosses the best ask (100)
        quantity: 5,
        time_in_force: TimeInForce::Gtc,
        timestamp: 0,
    };

    let result = book.add_order(post_only_order);
    assert!(matches!(result, Err(OrderBookError::PriceCrossing { .. })));
}

#[test]
fn test_add_expired_order() {
    let mut book: OrderBook = OrderBook::new("TEST");
    book.set_market_close_timestamp(100); // Market closed at timestamp 100

    let expired_order = OrderType::Standard {
        id: OrderId(Uuid::new_v4().as_u128()),
        side: Side::Buy,
        price: 95,
        quantity: 10,
        time_in_force: TimeInForce::Day, // Day order
        timestamp: 101,                  // Submitted after market close
    };

    let result = book.add_order(expired_order);
    assert!(matches!(
        result,
        Err(OrderBookError::InvalidOperation { .. })
    ));
}

#[test]
fn test_successful_cancel_order_removes_level() {
    let mut book: OrderBook = OrderBook::new("TEST");
    let order_id = OrderId(Uuid::new_v4().as_u128());
    let order = OrderType::Standard {
        id: order_id,
        side: Side::Sell,
        price: 100,
        quantity: 10,
        time_in_force: TimeInForce::Gtc,
        timestamp: 0,
    };
    book.add_order(order).unwrap();

    assert!(book.get_volume_by_price().1.contains_key(&100));
    book.cancel_order(order_id).unwrap();
    assert!(!book.get_volume_by_price().1.contains_key(&100)); // Price level should be gone
    assert!(book.get_order(order_id).is_none());
}

#[test]
fn test_update_order_not_found() {
    let mut book: OrderBook = OrderBook::new("TEST");
    let non_existent_id = OrderId(Uuid::new_v4().as_u128());
    let result = book.update_order(OrderUpdate::Cancel {
        order_id: non_existent_id,
    });
    assert!(result.is_ok() && result.unwrap().is_none());
}

#[test]
fn test_update_price_and_quantity() {
    let mut book = setup_book_with_orders();
    let original_order_id = book.get_orders_at_price(90, Side::Buy)[0].id();

    let result = book.update_order(OrderUpdate::UpdatePriceAndQuantity {
        order_id: original_order_id,
        new_price: 92,
        new_quantity: 12,
    });

    assert!(result.is_ok());
    let updated_order = book.get_order(original_order_id).unwrap();
    assert_eq!(updated_order.price(), 92);
    assert_eq!(updated_order.visible_quantity(), 12);
    assert!(book.get_volume_by_price().0.contains_key(&92));
    assert!(!book.get_volume_by_price().0.contains_key(&90));
}

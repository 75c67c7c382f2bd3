use orderbook::book::OrderBook;
use orderbook::current_time_millis;
use orderbook::error::OrderBookError;
use orderbook::execution::{MatchResult, PriceLevelSnapshot, Transaction};
use orderbook::orders::{OrderId, OrderType, OrderUpdate, PegReferenceType, Side, TimeInForce};
use orderbook::snapshot::OrderBookSnapshot;
use uuid::Uuid;
#[test]
fn test_order_type_quantity_methods() {
    // Test quantity() method for different order types
    let standard_order = OrderType::Standard {
        id: OrderId(Uuid::new_v4().as_u128()),
        price: 1000,
        quantity: 100,
        side: Side::Buy,
        time_in_force: TimeInForce::Gtc,
        timestamp: 0,
    };
    assert_eq!(standard_order.visible_quantity(), 100);

    let reserve_order = OrderType::ReserveOrder {
        id: OrderId(Uuid::new_v4().as_u128()),
        price: 1000,
        visible_quantity: 30,
        hidden_quantity: 70,
        side: Side::Buy,
        time_in_force: TimeInForce::Gtc,
        timestamp: 0,
        replenish_threshold: 10,
        replenish_amount: Some(20),
        auto_replenish: true,
    };
    assert_eq!(reserve_order.visible_quantity(), 30); // Returns visible quantity

    let post_only_order = OrderType::PostOnly {
        id: OrderId(Uuid::new_v4().as_u128()),
        price: 1000,
        quantity: 75,
        side: Side::Buy,
        time_in_force: TimeInForce::Gtc,
        timestamp: 0,
    };
    assert_eq!(post_only_order.visible_quantity(), 75);

    let trailing_stop_order = OrderType::TrailingStop {
        id: OrderId(Uuid::new_v4().as_u128()),
        price: 1000,
        quantity: 25,
        side: Side::Buy,
        time_in_force: TimeInForce::Gtc,
        timestamp: 0,
        trail_amount: 5,
        last_reference_price: 995,
    };
    assert_eq!(trailing_stop_order.visible_quantity(), 25);

    let pegged_order = OrderType::PeggedOrder {
        id: OrderId(Uuid::new_v4().as_u128()),
        price: 1000,
        quantity: 80,
        side: Side::Buy,
        time_in_force: TimeInForce::Gtc,
        timestamp: 0,
        reference_price_offset: 5,
        reference_price_type: PegReferenceType::BestBid,
    };
    assert_eq!(pegged_order.visible_quantity(), 80);

    let market_to_limit_order = OrderType::MarketToLimit {
        id: OrderId(Uuid::new_v4().as_u128()),
        price: 1000,
        quantity: 60,
        side: Side::Sell,
        time_in_force: TimeInForce::Ioc,
        timestamp: 0,
    };
    assert_eq!(market_to_limit_order.visible_quantity(), 60);

    let reserve_order = OrderType::ReserveOrder {
        id: OrderId(Uuid::new_v4().as_u128()),
        price: 1000,
        visible_quantity: 30,
        hidden_quantity: 70,
        replenish_threshold: 10,
        replenish_amount: Some(20),
        auto_replenish: true,
        side: Side::Buy,
        time_in_force: TimeInForce::Gtc,
        timestamp: 0,
    };
    assert_eq!(reserve_order.visible_quantity(), 30); // Returns visible quantity
}

#[test]
fn test_update_order_price_same_value() {
    let mut book: OrderBook = OrderBook::new("TEST");
    let order_id = OrderId(Uuid::new_v4().as_u128());

    // Add an order
    book.add_limit_order(order_id, 1000, 100, Side::Buy, TimeInForce::Gtc)
        .unwrap();

    // Try to update to the same price
    let update = OrderUpdate::UpdatePrice {
        order_id,
        new_price: 1000,
    };

    let result = book.update_order(update);
    assert!(result.is_err());
    if let Err(e) = result {
        assert!(
            e.to_string()
                .contains("Cannot update price to the same value")
        );
    }
}

#[test]
fn test_update_order_price_success() {
    let mut book: OrderBook = OrderBook::new("TEST");
    let order_id = OrderId(Uuid::new_v4().as_u128());

    // Add an order
    book.add_limit_order(order_id, 1000, 100, Side::Buy, TimeInForce::Gtc)
        .unwrap();

    // Update the price
    let update = OrderUpdate::UpdatePrice {
        order_id,
        new_price: 1010,
    };

    let result = book.update_order(update);
    assert!(result.is_ok());
    let updated_order = result.unwrap();
    assert!(updated_order.is_some());

    // Verify the order was updated
    let order = updated_order.unwrap();
    assert_eq!(order.price(), 1010);
    assert_eq!(order.visible_quantity(), 100);
}

#[test]
fn test_update_order_quantity_success() {
    let mut book: OrderBook = OrderBook::new("TEST");
    let order_id = OrderId(Uuid::new_v4().as_u128());

    // Add an order
    book.add_limit_order(order_id, 1000, 100, Side::Buy, TimeInForce::Gtc)
        .unwrap();

    // Update the quantity
    let update = OrderUpdate::UpdateQuantity {
        order_id,
        new_quantity: 80,
    };

    let result = book.update_order(update);
    assert!(result.is_ok());
    let updated_order = result.unwrap();
    assert!(updated_order.is_some());

    // Verify the order was updated
    let order = updated_order.unwrap();
    assert_eq!(order.price(), 1000);
    assert_eq!(order.visible_quantity(), 80);
}

#[test]
fn test_update_order_price_and_quantity_success() {
    let mut book: OrderBook = OrderBook::new("TEST");
    let order_id = OrderId(Uuid::new_v4().as_u128());

    // Add an order
    book.add_limit_order(order_id, 1000, 100, Side::Buy, TimeInForce::Gtc)
        .unwrap();

    // Update both price and quantity
    let update = OrderUpdate::UpdatePriceAndQuantity {
        order_id,
        new_price: 1020,
        new_quantity: 75,
    };

    let result = book.update_order(update);
    assert!(result.is_ok());
    let updated_order = result.unwrap();
    assert!(updated_order.is_some());

    // Verify the order was updated
    let order = updated_order.unwrap();
    assert_eq!(order.price(), 1020);
    assert_eq!(order.visible_quantity(), 75);
}

#[test]
fn modifications_coverage_tests_test_update_nonexistent_order() {
    let mut book: OrderBook = OrderBook::new("TEST");
    let nonexistent_id = OrderId(Uuid::new_v4().as_u128());

    // Try to update a nonexistent order
    let update = OrderUpdate::UpdatePrice {
        order_id: nonexistent_id,
        new_price: 1000,
    };

    let result = book.update_order(update);
    assert!(result.is_ok());
    assert!(result.unwrap().is_none());
}

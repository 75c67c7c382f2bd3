use orderbook::book::OrderBook;
use orderbook::current_time_millis;
use orderbook::error::OrderBookError;
use orderbook::execution::{MatchResult, PriceLevelSnapshot, Transaction};
use orderbook::orders::{OrderId, OrderType, OrderUpdate, PegReferenceType, Side, TimeInForce};
use orderbook::snapshot::OrderBookSnapshot;
use uuid::Uuid;
// Helper function to create an improved implementation of best_bid
fn find_best_bid(snapshot: &OrderBookSnapshot) -> Option<(u64, u64)> {
    snapshot
        .bids
        .iter()
        .map(|level| (level.price, level.visible_quantity))
        .max_by_key(|&(price, _)| price)
}

// Helper function to create an improved implementation of best_ask
fn find_best_ask(snapshot: &OrderBookSnapshot) -> Option<(u64, u64)> {
    snapshot
        .asks
        .iter()
        .map(|level| (level.price, level.visible_quantity))
        .min_by_key(|&(price, _)| price)
}

// Create a snapshot with levels in random order
fn create_unordered_snapshot() -> OrderBookSnapshot {
    // Create bid levels (out of order)
    let bid1 = PriceLevelSnapshot {
        price: 980,
        visible_quantity: 30,
        hidden_quantity: 0,
        order_count: 3,
        orders: Vec::new(),
    };

    let bid2 = PriceLevelSnapshot {
        price: 1000, // Highest price
        visible_quantity: 10,
        hidden_quantity: 5,
        order_count: 2,
        orders: Vec::new(),
    };

    let bid3 = PriceLevelSnapshot {
        price: 990,
        visible_quantity: 20,
        hidden_quantity: 0,
        order_count: 1,
        orders: Vec::new(),
    };

    // Create ask levels (out of order)
    let ask1 = PriceLevelSnapshot {
        price: 1020,
        visible_quantity: 25,
        hidden_quantity: 10,
        order_count: 2,
        orders: Vec::new(),
    };

    let ask2 = PriceLevelSnapshot {
        price: 1030,
        visible_quantity: 35,
        hidden_quantity: 0,
        order_count: 4,
        orders: Vec::new(),
    };

    let ask3 = PriceLevelSnapshot {
        price: 1010, // Lowest price
        visible_quantity: 15,
        hidden_quantity: 0,
        order_count: 3,
        orders: Vec::new(),
    };

    OrderBookSnapshot {
        symbol: "TEST".to_string(),
        timestamp: 12345678,
        bids: vec![bid1, bid3, bid2], // Deliberately unordered
        asks: vec![ask2, ask1, ask3], // Deliberately unordered
    }
}

#[test]
fn test_improved_best_bid_ask() {
    let snapshot = create_unordered_snapshot();

    // Find best bid and ask
    let best_bid = find_best_bid(&snapshot);
    let best_ask = find_best_ask(&snapshot);

    // Verify highest bid price
    assert_eq!(
        best_bid,
        Some((1000, 10)),
        "Best bid should be the highest price"
    );

    // Verify lowest ask price
    assert_eq!(
        best_ask,
        Some((1010, 15)),
        "Best ask should be the lowest price"
    );
}

#[test]
fn test_mid_price_with_improved_methods() {
    let snapshot = create_unordered_snapshot();

    // Calculate mid price from best bid and ask
    let best_bid = find_best_bid(&snapshot);
    let best_ask = find_best_ask(&snapshot);

    let mid_price = match (best_bid, best_ask) {
        (Some((bid_price, _)), Some((ask_price, _))) => {
            Some((bid_price as f64 + ask_price as f64) / 2.0)
        }
        _ => None,
    };

    // Verify mid price
    assert_eq!(
        mid_price,
        Some(1005.0),
        "Mid price should be average of best bid and best ask"
    );
}

#[test]
fn test_spread_with_improved_methods() {
    let snapshot = create_unordered_snapshot();

    // Calculate spread from best bid and ask
    let best_bid = find_best_bid(&snapshot);
    let best_ask = find_best_ask(&snapshot);

    let spread = match (best_bid, best_ask) {
        (Some((bid_price, _)), Some((ask_price, _))) => {
            Some(ask_price.saturating_sub(bid_price))
        }
        _ => None,
    };

    // Verify spread
    assert_eq!(spread, Some(10), "Spread should be ask price - bid price");
}

#[test]
fn test_integration_with_sort() {
    let mut snapshot = create_unordered_snapshot();

    // Sort the bids by price in descending order
    snapshot.bids.sort_by(|a, b| b.price.cmp(&a.price));

    // Sort the asks by price in ascending order
    snapshot.asks.sort_by(|a, b| a.price.cmp(&b.price));

    // Now the first element should be the best price
    let best_bid = snapshot
        .bids
        .first()
        .map(|level| (level.price, level.visible_quantity));
    let best_ask = snapshot
        .asks
        .first()
        .map(|level| (level.price, level.visible_quantity));

    // Verify that sorting gives the correct best prices
    assert_eq!(
        best_bid,
        Some((1000, 10)),
        "First bid after sorting should be highest price"
    );
    assert_eq!(
        best_ask,
        Some((1010, 15)),
        "First ask after sorting should be lowest price"
    );
}

#[test]
fn test_proposal_for_impl_best_bid_ask() {
    // This test shows how you could implement best_bid() and best_ask() in OrderBookSnapshot

    // Implementation for best_bid()
    fn best_bid(snapshot: &OrderBookSnapshot) -> Option<(u64, u64)> {
        snapshot
            .bids
            .iter()
            .map(|level| (level.price, level.visible_quantity))
            .max_by_key(|&(price, _)| price)
    }

    // Implementation for best_ask()
    fn best_ask(snapshot: &OrderBookSnapshot) -> Option<(u64, u64)> {
        snapshot
            .asks
            .iter()
            .map(|level| (level.price, level.visible_quantity))
            .min_by_key(|&(price, _)| price)
    }

    let snapshot = create_unordered_snapshot();

    // Verify proposed implementations
    assert_eq!(
        best_bid(&snapshot),
        Some((1000, 10)),
        "Proposed best_bid works correctly"
    );
    assert_eq!(
        best_ask(&snapshot),
        Some((1010, 15)),
        "Proposed best_ask works correctly"
    );
}

use orderbook::book::OrderBook;
use orderbook::error::OrderBookError;
use orderbook::execution::PriceLevelSnapshot;
use orderbook::orders::{OrderId, OrderType, OrderUpdate, PegReferenceType, Side, TimeInForce};
use orderbook::pool::MatchingPool;
use orderbook::snapshot::OrderBookSnapshot;

fn standard(id: u128, price: u64, quantity: u64, side: Side, tif: TimeInForce) -> OrderType {
    OrderType::Standard { id: OrderId(id), price, quantity, side, timestamp: 1, time_in_force: tif }
}

fn level(price: u64, visible: u64, hidden: u64) -> PriceLevelSnapshot {
    PriceLevelSnapshot { price, visible_quantity: visible, hidden_quantity: hidden, order_count: 1, orders: Vec::new() }
}

#[test]
fn test_trades_come_best_price_first_and_within_limit() {
    let mut book = OrderBook::new("LAW");
    book.add_order(standard(1, 103, 5, Side::Sell, TimeInForce::Gtc)).unwrap();
    book.add_order(standard(2, 101, 5, Side::Sell, TimeInForce::Gtc)).unwrap();
    book.add_order(standard(3, 102, 5, Side::Sell, TimeInForce::Gtc)).unwrap();
    book.add_order(standard(4, 105, 5, Side::Sell, TimeInForce::Gtc)).unwrap();

    let result = book.match_limit_order(OrderId(9), 100, Side::Buy, 103).unwrap();
    let prices: Vec<u64> = result.transactions.as_vec().iter().map(|t| t.price).collect();
    assert_eq!(prices, vec![101, 102, 103]);
    assert_eq!(result.executed_quantity() + result.remaining_quantity, 100);
    assert_eq!(result.remaining_quantity, 85);
    assert!(!result.is_complete);
    assert_eq!(book.best_ask(), Some(105));
    assert_eq!(book.last_trade_price(), Some(103));
}

#[test]
fn test_seller_trades_come_highest_bid_first() {
    let mut book = OrderBook::new("LAW");
    book.add_order(standard(1, 98, 4, Side::Buy, TimeInForce::Gtc)).unwrap();
    book.add_order(standard(2, 100, 4, Side::Buy, TimeInForce::Gtc)).unwrap();
    book.add_order(standard(3, 99, 4, Side::Buy, TimeInForce::Gtc)).unwrap();

    let result = book.match_market_order(OrderId(9), 10, Side::Sell).unwrap();
    let prices: Vec<u64> = result.transactions.as_vec().iter().map(|t| t.price).collect();
    assert_eq!(prices, vec![100, 99, 98]);
    assert_eq!(result.executed_quantity(), 10);
    assert!(result.is_complete);
    assert_eq!(result.filled_order_ids, vec![OrderId(2), OrderId(3)]);
}

#[test]
fn test_placed_order_is_found() {
    let mut book = OrderBook::new("LAW");
    let order = standard(7, 100, 3, Side::Buy, TimeInForce::Gtc);
    assert_eq!(book.place_order_in_book(order), order);
    assert_eq!(book.get_order(OrderId(7)), Some(order));
}

#[test]
fn test_cancel_undoes_add() {
    let mut book = OrderBook::new("LAW");
    book.add_order(standard(1, 100, 3, Side::Buy, TimeInForce::Gtc)).unwrap();
    let before = book.get_volume_by_price();
    let order = standard(2, 100, 4, Side::Buy, TimeInForce::Gtc);
    book.add_order(order).unwrap();
    assert_eq!(book.get_volume_by_price().0.get(&100), Some(&7));
    assert_eq!(book.cancel_order(OrderId(2)).unwrap(), Some(order));
    assert_eq!(book.get_volume_by_price(), before);
    assert_eq!(book.get_all_orders(), vec![standard(1, 100, 3, Side::Buy, TimeInForce::Gtc)]);
}

#[test]
fn test_cancel_twice_finds_nothing() {
    let mut book = OrderBook::new("LAW");
    book.add_order(standard(1, 100, 3, Side::Sell, TimeInForce::Gtc)).unwrap();
    assert!(book.cancel_order(OrderId(1)).unwrap().is_some());
    assert_eq!(book.cancel_order(OrderId(1)).unwrap(), None);
    assert_eq!(book.best_ask(), None);
}

#[test]
fn test_post_only_never_takes_liquidity() {
    let mut book = OrderBook::new("LAW");
    book.add_order(standard(1, 105, 3, Side::Sell, TimeInForce::Gtc)).unwrap();
    let post_only = OrderType::PostOnly {
        id: OrderId(2),
        price: 104,
        quantity: 3,
        side: Side::Buy,
        timestamp: 1,
        time_in_force: TimeInForce::Ioc,
    };
    let (_, report) = book.add_order_reporting_at(post_only, 10).unwrap();
    assert_eq!(report.unwrap().transactions.len(), 0);
    assert_eq!(book.get_order(OrderId(1)).unwrap().visible_quantity(), 3);

    let crossing = OrderType::PostOnly {
        id: OrderId(3),
        price: 106,
        quantity: 3,
        side: Side::Buy,
        timestamp: 1,
        time_in_force: TimeInForce::Gtc,
    };
    match book.add_order(crossing) {
        Err(OrderBookError::PriceCrossing { price, side, opposite_price }) => {
            assert_eq!((price, side, opposite_price), (106, Side::Buy, 105));
        }
        _ => panic!("expected a price crossing"),
    }
}

#[test]
fn test_snapshot_top_is_best_price() {
    let mut book = OrderBook::new("LAW");
    book.add_order(standard(1, 99, 1, Side::Buy, TimeInForce::Gtc)).unwrap();
    book.add_order(standard(2, 101, 2, Side::Buy, TimeInForce::Gtc)).unwrap();
    book.add_order(standard(3, 107, 3, Side::Sell, TimeInForce::Gtc)).unwrap();
    book.add_order(standard(4, 103, 4, Side::Sell, TimeInForce::Gtc)).unwrap();
    let snapshot = book.create_snapshot(1);
    assert_eq!(snapshot.bids.len(), 1);
    assert_eq!(Some(snapshot.bids[0].price), book.best_bid());
    assert_eq!(Some(snapshot.asks[0].price), book.best_ask());
    assert_eq!(snapshot.best_bid(), Some((101, 2)));
    assert_eq!(snapshot.best_ask(), Some((103, 4)));
    assert_eq!(snapshot.spread(), Some(2));
}

#[test]
fn test_fill_or_kill_refusal_leaves_book_unchanged() {
    let mut book = OrderBook::new("LAW");
    book.add_order(standard(1, 100, 5, Side::Sell, TimeInForce::Gtc)).unwrap();
    let before = book.get_all_orders();
    match book.add_order(standard(2, 100, 6, Side::Buy, TimeInForce::Fok)) {
        Err(OrderBookError::InsufficientLiquidity { side, requested, available }) => {
            assert_eq!((side, requested, available), (Side::Buy, 6, 5));
        }
        _ => panic!("expected insufficient liquidity"),
    }
    assert_eq!(book.get_all_orders(), before);
    assert_eq!(book.last_trade_price(), None);
}

#[test]
fn test_expired_order_is_refused_at_given_time() {
    let mut book = OrderBook::new("LAW");
    book.set_market_close_timestamp(1_000);
    let day = standard(1, 100, 5, Side::Buy, TimeInForce::Day);
    assert!(book.add_order_at(day, 999).is_ok());
    let late = standard(2, 100, 5, Side::Buy, TimeInForce::Day);
    match book.add_order_at(late, 1_000) {
        Err(OrderBookError::InvalidOperation { message }) => assert_eq!(message, "Order has already expired"),
        _ => panic!("expected the order to be refused"),
    }
    let gtd = standard(3, 100, 5, Side::Buy, TimeInForce::Gtd(50));
    assert!(book.add_order_at(gtd, 50).is_err());
    assert!(book.get_order(OrderId(3)).is_none());
}

#[test]
fn test_update_at_time_moves_order_to_new_price() {
    let mut book = OrderBook::new("LAW");
    book.add_order(standard(1, 100, 5, Side::Buy, TimeInForce::Gtc)).unwrap();
    let moved = book.update_order_at(OrderUpdate::UpdatePrice { order_id: OrderId(1), new_price: 95 }, 10).unwrap();
    assert_eq!(moved, Some(standard(1, 95, 5, Side::Buy, TimeInForce::Gtc)));
    assert!(book.get_orders_at_price(100, Side::Buy).is_empty());
    assert_eq!(book.best_bid(), Some(95));
    match book.update_order_at(OrderUpdate::UpdatePrice { order_id: OrderId(1), new_price: 95 }, 10) {
        Err(OrderBookError::InvalidOperation { message }) => assert_eq!(message, "Cannot update price to the same value"),
        _ => panic!("expected a refusal"),
    }
}

#[test]
fn test_replace_refused_for_trailing_stop() {
    let mut book = OrderBook::new("LAW");
    let order = OrderType::TrailingStop {
        id: OrderId(1),
        price: 100,
        quantity: 5,
        side: Side::Sell,
        timestamp: 1,
        time_in_force: TimeInForce::Gtc,
        trail_amount: 2,
        last_reference_price: 102,
    };
    book.add_order(order).unwrap();
    let update = OrderUpdate::Replace { order_id: OrderId(1), price: 101, quantity: 5, side: Side::Sell };
    match book.update_order(update) {
        Err(OrderBookError::InvalidOperation { message }) => {
            assert_eq!(message, "Replace operation not supported for this order type")
        }
        _ => panic!("expected a refusal"),
    }
    assert_eq!(book.get_order(OrderId(1)), Some(order));
}

#[test]
fn test_update_quantity_keeps_price_and_replaces_order() {
    let mut book = OrderBook::new("LAW");
    book.add_order(standard(1, 100, 5, Side::Sell, TimeInForce::Gtc)).unwrap();
    book.add_order(standard(2, 100, 6, Side::Sell, TimeInForce::Gtc)).unwrap();
    let changed = book.update_order(OrderUpdate::UpdateQuantity { order_id: OrderId(1), new_quantity: 9 }).unwrap();
    assert_eq!(changed, Some(standard(1, 100, 9, Side::Sell, TimeInForce::Gtc)));
    assert_eq!(book.get_volume_by_price().1.get(&100), Some(&15));
}

#[test]
fn test_spread_is_zero_when_book_is_crossed() {
    let mut book = OrderBook::new("LAW");
    book.add_order(standard(1, 110, 1, Side::Buy, TimeInForce::Gtc)).unwrap();
    book.add_order(standard(2, 100, 1, Side::Sell, TimeInForce::Gtc)).unwrap();
    assert_eq!(book.spread(), Some(0));
}

#[test]
fn test_peek_never_exceeds_request() {
    let mut book = OrderBook::new("LAW");
    book.add_order(standard(1, 100, 5, Side::Sell, TimeInForce::Gtc)).unwrap();
    book.add_order(standard(2, 101, 5, Side::Sell, TimeInForce::Gtc)).unwrap();
    assert_eq!(book.peek_match(Side::Buy, 7, None), 7);
    assert_eq!(book.peek_match(Side::Buy, 70, None), 10);
    assert_eq!(book.peek_match(Side::Buy, 70, Some(100)), 5);
    assert_eq!(book.get_all_orders().len(), 2);
}

#[test]
fn test_snapshot_best_levels_with_unordered_levels() {
    let snapshot = OrderBookSnapshot {
        symbol: "LAW".to_string(),
        timestamp: 0,
        bids: vec![level(99, 1, 0), level(101, 2, 0), level(100, 3, 0)],
        asks: vec![level(105, 4, 0), level(103, 5, 0), level(104, 6, 0)],
    };
    assert_eq!(snapshot.best_bid(), Some((101, 2)));
    assert_eq!(snapshot.best_ask(), Some((103, 5)));
    assert_eq!(snapshot.spread(), Some(2));
    assert_eq!(snapshot.total_bid_volume(), 6);
    assert_eq!(snapshot.total_ask_value(), 105 * 4 + 103 * 5 + 104 * 6);
}

#[test]
fn test_error_messages() {
    assert_eq!(OrderBookError::InvalidPriceLevel(0).to_string(), "Invalid price level: 0");
    assert_eq!(
        OrderBookError::InsufficientLiquidity { side: Side::Buy, requested: 18446744073709551615, available: 7 }.to_string(),
        "Insufficient liquidity for BUY order: requested 18446744073709551615, available 7"
    );
    assert_eq!(OrderBookError::OrderNotFound("x".to_string()).to_string(), "Order not found: x");
}

#[test]
fn test_matching_pool_reuses_vectors() {
    let mut pool = MatchingPool::new();
    let mut ids = pool.get_filled_orders_vec();
    assert!(ids.is_empty());
    ids.push(OrderId(1));
    pool.return_filled_orders_vec(ids);
    let again = pool.get_filled_orders_vec();
    assert!(again.is_empty());
    let mut prices = pool.get_price_vec();
    prices.push(1);
    pool.return_price_vec(prices);
    assert!(pool.get_price_vec().is_empty());
}

#[test]
fn test_pegged_order_rests_and_is_cancelled() {
    let mut book = OrderBook::new("LAW");
    let order = OrderType::PeggedOrder {
        id: OrderId(5),
        price: 100,
        quantity: 2,
        side: Side::Buy,
        timestamp: 1,
        time_in_force: TimeInForce::Gtc,
        reference_price_offset: -1,
        reference_price_type: PegReferenceType::MidPrice,
    };
    book.add_order(order).unwrap();
    assert_eq!(book.get_order(OrderId(5)), Some(order));
    assert_eq!(book.update_order(OrderUpdate::Cancel { order_id: OrderId(5) }).unwrap(), Some(order));
    assert_eq!(book.best_bid(), None);
}

#[test]
fn test_matching_pool_keeps_by_capacity() {
    let mut pool = MatchingPool::new();
    pool.keep_filled_orders_vec(vec![OrderId(1)], 200);
    pool.keep_filled_orders_vec(vec![OrderId(2)], 64);
    assert!(pool.get_filled_orders_vec().is_empty());
    pool.keep_price_vec(vec![1, 2], 129);
    pool.keep_price_vec(vec![3], 128);
    assert!(pool.get_price_vec().is_empty());
}

#[test]
fn test_match_empties_better_levels_and_leaves_levels_past_limit() {
    let mut book = OrderBook::new("LAW");
    book.add_order(standard(1, 101, 5, Side::Sell, TimeInForce::Gtc)).unwrap();
    book.add_order(standard(2, 102, 5, Side::Sell, TimeInForce::Gtc)).unwrap();
    book.add_order(standard(3, 103, 5, Side::Sell, TimeInForce::Gtc)).unwrap();
    assert_eq!(book.peek_match(Side::Buy, 100, Some(102)), 10);
    let result = book.match_limit_order(OrderId(9), 7, Side::Buy, 102).unwrap();
    assert_eq!(result.executed_quantity(), 7);
    assert!(book.get_orders_at_price(101, Side::Sell).is_empty());
    assert_eq!(book.get_order(OrderId(2)).unwrap().visible_quantity(), 3);
    assert_eq!(book.get_order(OrderId(3)), Some(standard(3, 103, 5, Side::Sell, TimeInForce::Gtc)));
    for t in result.transactions.as_vec() {
        assert_eq!(t.taker_order_id, OrderId(9));
        assert_eq!(t.taker_side, Side::Buy);
    }
}

use orderbook::book::OrderBook;
use orderbook::error::{LevelError, OrderBookError};
use orderbook::execution::Transaction;
use orderbook::matching::record_level_fill;
use orderbook::orders::{OrderId, OrderType, OrderUpdate, Side, TimeInForce};
use orderbook::outside::LevelFill;
use pricelevel::PriceLevelError;

fn standard(id: u128, price: u64, quantity: u64, side: Side) -> OrderType {
    OrderType::Standard { id: OrderId(id), price, quantity, side, timestamp: 1, time_in_force: TimeInForce::Gtc }
}

fn trade(maker: u128, price: u64, quantity: u64) -> Transaction {
    Transaction {
        transaction_id: 1,
        taker_order_id: OrderId(99),
        maker_order_id: OrderId(maker),
        price,
        quantity,
        taker_side: Side::Buy,
        timestamp: 0,
    }
}

fn level_errors() -> Vec<PriceLevelError> {
    vec![
        PriceLevelError::ParseError { message: "bad input".to_string() },
        PriceLevelError::InvalidFormat,
        PriceLevelError::UnknownOrderType("Mystery".to_string()),
        PriceLevelError::MissingField("price".to_string()),
        PriceLevelError::InvalidFieldValue { field: "quantity".to_string(), value: "-1".to_string() },
        PriceLevelError::InvalidOperation { message: "not now".to_string() },
        PriceLevelError::SerializationError { message: "no room".to_string() },
        PriceLevelError::DeserializationError { message: "truncated".to_string() },
        PriceLevelError::ChecksumMismatch { expected: "abc".to_string(), actual: "abd".to_string() },
    ]
}

#[test]
fn test_price_level_error_message_carries_inner_text() {
    for e in level_errors() {
        let expected = format!("Price level error: {}", e);
        let err: OrderBookError = e.into();
        assert_eq!(err.to_string(), expected);
    }
}

#[test]
fn test_level_error_messages() {
    assert_eq!(LevelError::MissingField("price".to_string()).message(), "Missing field: price");
    assert_eq!(
        LevelError::ChecksumMismatch { expected: "abc".to_string(), actual: "abd".to_string() }.message(),
        "Checksum mismatch: expected abc, got abd"
    );
    assert_eq!(LevelError::ParseError { message: "bad input".to_string() }.message(), "bad input");
    assert_eq!(
        OrderBookError::PriceLevelError(LevelError::InvalidFieldValue {
            field: "quantity".to_string(),
            value: "-1".to_string()
        })
        .to_string(),
        "Price level error: Invalid value for field quantity: -1"
    );
}

#[test]
fn test_record_level_fill_appends_trades_and_filled() {
    let mut transactions = vec![trade(1, 100, 2)];
    let mut filled = vec![OrderId(1)];
    let mut last_price = Some(100);
    let mut emptied = vec![100];
    let fill = LevelFill {
        transactions: vec![trade(2, 101, 3), trade(3, 101, 4)],
        filled: vec![OrderId(2)],
        remaining: 5,
    };
    let remaining = record_level_fill(&mut transactions, &mut filled, &mut last_price, &mut emptied, 101, fill, 1);
    assert_eq!(remaining, 5);
    assert_eq!(transactions.len(), 3);
    assert_eq!(transactions[1].maker_order_id, OrderId(2));
    assert_eq!(transactions[2].quantity, 4);
    assert_eq!(filled, vec![OrderId(1), OrderId(2)]);
    assert_eq!(last_price, Some(101));
    assert_eq!(emptied, vec![100]);
}

#[test]
fn test_record_level_fill_without_trades_keeps_last_price() {
    let mut transactions = Vec::new();
    let mut filled = Vec::new();
    let mut last_price = Some(100);
    let mut emptied = Vec::new();
    let fill = LevelFill { transactions: Vec::new(), filled: Vec::new(), remaining: 7 };
    let remaining = record_level_fill(&mut transactions, &mut filled, &mut last_price, &mut emptied, 102, fill, 0);
    assert_eq!(remaining, 7);
    assert!(transactions.is_empty());
    assert!(filled.is_empty());
    assert_eq!(last_price, Some(100));
    assert_eq!(emptied, vec![102]);
}

#[test]
fn test_zero_quantity_limit_match_leaves_book_unchanged() {
    let mut book = OrderBook::new("ZERO");
    book.add_order(standard(1, 101, 5, Side::Sell)).unwrap();
    book.add_order(standard(2, 102, 5, Side::Sell)).unwrap();
    let before = book.get_all_orders();
    let result = book.match_order(OrderId(9), Side::Buy, 0, Some(105)).unwrap();
    assert!(result.transactions.as_vec().is_empty());
    assert_eq!(result.remaining_quantity, 0);
    assert_eq!(book.get_all_orders(), before);
    assert_eq!(book.best_ask(), Some(101));
    assert_eq!(book.last_trade_price(), None);
}

#[test]
fn test_zero_quantity_market_match_refused_and_book_unchanged() {
    let mut book = OrderBook::new("ZERO");
    book.add_order(standard(1, 101, 5, Side::Sell)).unwrap();
    let before = book.get_all_orders();
    match book.match_order(OrderId(9), Side::Buy, 0, None) {
        Err(OrderBookError::InsufficientLiquidity { side, requested, available }) => {
            assert_eq!(side, Side::Buy);
            assert_eq!(requested, 0);
            assert_eq!(available, 0);
        },
        other => panic!("unexpected result: {:?}", other),
    }
    assert_eq!(book.get_all_orders(), before);
    assert_eq!(book.best_ask(), Some(101));
}

#[test]
fn test_update_of_unknown_order_finds_nothing() {
    let mut book = OrderBook::new("UPD");
    book.add_order(standard(1, 100, 5, Side::Buy)).unwrap();
    let before = book.get_all_orders();
    let updates = vec![
        OrderUpdate::UpdatePrice { order_id: OrderId(42), new_price: 101 },
        OrderUpdate::UpdateQuantity { order_id: OrderId(42), new_quantity: 3 },
        OrderUpdate::UpdatePriceAndQuantity { order_id: OrderId(42), new_price: 99, new_quantity: 2 },
        OrderUpdate::Cancel { order_id: OrderId(42) },
        OrderUpdate::Replace { order_id: OrderId(42), price: 98, quantity: 1, side: Side::Sell },
    ];
    for u in updates {
        assert_eq!(book.update_order(u).unwrap(), None);
        assert_eq!(book.get_all_orders(), before);
    }
}

#[test]
fn test_place_cancel_requantify_keep_records_in_step() {
    let mut book = OrderBook::new("INTACT");
    book.add_order(standard(1, 100, 5, Side::Buy)).unwrap();
    book.add_order(standard(2, 100, 6, Side::Buy)).unwrap();
    book.add_order(standard(3, 99, 7, Side::Buy)).unwrap();
    book.update_order(OrderUpdate::UpdateQuantity { order_id: OrderId(2), new_quantity: 4 }).unwrap();
    book.cancel_order(OrderId(1)).unwrap();
    assert_eq!(book.get_order(OrderId(1)), None);
    assert_eq!(book.get_order(OrderId(2)).map(|o| o.price()), Some(100));
    assert_eq!(book.get_order(OrderId(3)).map(|o| o.price()), Some(99));
    assert_eq!(book.get_orders_at_price(100, Side::Buy).len(), 1);
    book.cancel_order(OrderId(2)).unwrap();
    assert!(book.get_orders_at_price(100, Side::Buy).is_empty());
    assert_eq!(book.best_bid(), Some(99));
}

#[test]
fn test_match_keeps_records_in_step() {
    let mut book = OrderBook::new("INTACT");
    book.add_order(standard(1, 101, 5, Side::Sell)).unwrap();
    book.add_order(standard(2, 101, 5, Side::Sell)).unwrap();
    book.add_order(standard(3, 102, 5, Side::Sell)).unwrap();
    let result = book.match_order(OrderId(9), Side::Buy, 12, None).unwrap();
    assert_eq!(result.filled_order_ids, vec![OrderId(1), OrderId(2)]);
    assert_eq!(book.get_order(OrderId(1)), None);
    assert_eq!(book.get_order(OrderId(2)), None);
    assert_eq!(book.get_order(OrderId(3)).map(|o| o.visible_quantity()), Some(3));
    assert!(book.get_orders_at_price(101, Side::Sell).is_empty());
    assert_eq!(book.best_ask(), Some(102));
    assert_eq!(book.cancel_order(OrderId(3)).unwrap().map(|o| o.id()), Some(OrderId(3)));
    assert_eq!(book.best_ask(), None);
}

#[test]
fn test_snapshot_levels_strictly_in_walking_order() {
    let mut book = OrderBook::new("SNAP");
    for (id, price) in [(1u128, 98u64), (2, 101), (3, 99), (4, 100)] {
        book.add_order(standard(id, price, 1, Side::Buy)).unwrap();
    }
    for (id, price) in [(5u128, 106u64), (6, 103), (7, 105)] {
        book.add_order(standard(id, price, 1, Side::Sell)).unwrap();
    }
    let snapshot = book.create_snapshot(3);
    let bids: Vec<u64> = snapshot.bids.iter().map(|l| l.price).collect();
    let asks: Vec<u64> = snapshot.asks.iter().map(|l| l.price).collect();
    assert_eq!(bids, vec![101, 100, 99]);
    assert_eq!(asks, vec![103, 105, 106]);
    let deep = book.create_snapshot(10);
    assert_eq!(deep.bids.len(), 4);
    assert_eq!(deep.asks.len(), 3);
}

#[test]
fn test_match_within_limit_stops_at_unreached_levels() {
    let mut book = OrderBook::new("REACH");
    book.add_order(standard(1, 101, 5, Side::Sell)).unwrap();
    book.add_order(standard(2, 104, 5, Side::Sell)).unwrap();
    let result = book.match_order(OrderId(9), Side::Buy, 8, Some(102)).unwrap();
    assert_eq!(result.remaining_quantity, 3);
    assert_eq!(book.best_ask(), Some(104));
    assert_eq!(book.get_order(OrderId(2)).map(|o| o.visible_quantity()), Some(5));
}

#[test]
fn test_numbers_in_messages_are_decimal() {
    assert_eq!(OrderBookError::InvalidPriceLevel(0).to_string(), "Invalid price level: 0");
    assert_eq!(OrderBookError::InvalidPriceLevel(1090).to_string(), "Invalid price level: 1090");
    assert_eq!(
        OrderBookError::InvalidPriceLevel(u64::MAX).to_string(),
        format!("Invalid price level: {}", u64::MAX)
    );
}

use rust_order_book::enums::{JournalOp, OrderOptions};
use rust_order_book::utils::current_timestamp_millis;
use rust_order_book::{
    JournalLog, LimitOrderOptions, MarketOrderOptions, OrderBookBuilder, OrderBookOptions,
    OrderId, Price, Quantity, Side, Snapshot,
};
use std::collections::{BTreeMap, HashMap};

#[test]
fn test_builder_with_defaults() {
    let ob = OrderBookBuilder::new("BTCUSD").build().unwrap();
    assert_eq!(ob.symbol(), "BTCUSD");
    assert!(!ob.journaling());
}

#[test]
fn test_builder_with_journaling_enabled() {
    let ob = OrderBookBuilder::new("ETHUSD").with_journaling(true).build().unwrap();

    assert_eq!(ob.symbol(), "ETHUSD");
    assert!(ob.journaling());
}

#[test]
fn test_builder_with_options_struct() {
    let opts = OrderBookOptions { journaling: true, ..Default::default() };

    let ob = OrderBookBuilder::new("DOGEUSD").with_options(opts.clone()).build().unwrap();

    assert_eq!(ob.symbol(), "DOGEUSD");
    assert_eq!(ob.journaling(), opts.journaling);
}

#[test]
fn test_builder_with_snapshot() {
    let snap = Snapshot {
        orders: HashMap::new(),
        bids: BTreeMap::new(),
        asks: BTreeMap::new(),
        last_op: 42,
        next_order_id: OrderId(100),
        ts: current_timestamp_millis(),
    };

    let book = OrderBookBuilder::new("BTCUSD").with_snapshot(snap).build().unwrap();

    assert_eq!(book.last_op(), 42);
    assert_eq!(book.next_order_id(), OrderId(100));
    assert_eq!(book.order_count(), 0);
}

#[test]
fn test_builder_with_replay_logs() {
    // Create a vector of journal logs to replay
    let logs = vec![
        JournalLog {
            op_id: 1,
            ts: 123457,
            op: JournalOp::Limit,
            o: OrderOptions::Limit(LimitOrderOptions {
                quantity: Quantity(10),
                price: Price(1100),
                side: Side::Sell,
                post_only: None,
                time_in_force: None,
            }),
        },
        JournalLog {
            op_id: 2,
            ts: 123457,
            op: JournalOp::Limit,
            o: OrderOptions::Limit(LimitOrderOptions {
                quantity: Quantity(10),
                price: Price(1000),
                side: Side::Buy,
                post_only: None,
                time_in_force: None,
            }),
        },
        JournalLog {
            op_id: 3,
            ts: 123456,
            op: JournalOp::Market,
            o: OrderOptions::Market(MarketOrderOptions {
                quantity: Quantity(5),
                side: Side::Buy,
            }),
        },
    ];

    // Build the order book using the builder with replay logs
    let ob = OrderBookBuilder::new("BTCUSD").with_replay_logs(logs.clone()).build().unwrap();

    // Check that the total number of orders matches the logs applied
    assert_eq!(ob.order_count(), 2);

    // the orders are those of the logs
    assert_eq!(ob.get_order(OrderId(0)).unwrap().remaining_qty(), Quantity(5));
    assert_eq!(ob.get_order(OrderId(1)).unwrap().remaining_qty(), Quantity(10));
}

#[test]
fn builder_returns_the_error_of_a_failed_replay() {
    let logs = vec![JournalLog {
        op_id: 1,
        ts: 1,
        op: JournalOp::Cancel,
        o: OrderOptions::Cancel(OrderId(5)),
    }];
    let result = OrderBookBuilder::new("BTCUSD").with_replay_logs(logs).build();
    assert!(result.is_err_and(|e| e.code == 1110));
}

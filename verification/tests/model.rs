use rust_order_book::book::{list_levels, rebuild_side, side_is_fillable, sort_logs};
use rust_order_book::enums::{JournalOp, OrderOptions, OrderType};
use rust_order_book::matching::{match_side, price_within_limit, process_queue};
use rust_order_book::order::{get_order_time_in_force, MarketOrder};
use rust_order_book::order_queue::OrderQueue;
use rust_order_book::order_side::OrderSide;
use rust_order_book::report::ExecutionReportParams;
use rust_order_book::{
    ExecutionReport, FillReport, JournalLog, LimitOrder, LimitOrderOptions, MarketOrderOptions,
    OrderBook, OrderBookOptions, OrderId, OrderStatus, Price, Quantity, Side, TimeInForce,
};
use rust_order_book::journal::level_prices;
use std::collections::{BTreeMap, HashMap, VecDeque};

fn book(journaling: bool) -> OrderBook {
    OrderBook::new(
        "ETH-USD",
        OrderBookOptions { journaling, snapshot: None, replay_logs: None },
    )
}

fn record(id: u64, side: Side, quantity: u64, executed: u64, price: u64) -> LimitOrder {
    let mut o = LimitOrder::new(
        OrderId(id),
        LimitOrderOptions::new(side, quantity, price, None, None),
        77,
    );
    o.executed_qty = Quantity(executed);
    o
}

fn log(op_id: u64, ts: i64) -> JournalLog {
    JournalLog { op_id, ts, op: JournalOp::Cancel, o: OrderOptions::Cancel(OrderId(ts as u64)) }
}

#[test]
fn commands_at_a_given_time_carry_the_time() {
    let mut ob = book(true);
    let r = ob.limit_at(LimitOrderOptions::new(Side::Sell, 4, 100, None, None), 1234).unwrap();
    assert_eq!(r.log.unwrap().ts, 1234);
    assert_eq!(r.log.unwrap().op_id, 1);
    assert_eq!(r.log.unwrap().op, JournalOp::Limit);
    assert_eq!(ob.get_order(r.order_id).unwrap().time, 1234);
    assert_eq!(ob.get_order(r.order_id).unwrap().status, OrderStatus::PartiallyFilled);
    assert_eq!(ob.get_order(r.order_id).unwrap().maker_qty, Quantity(4));

    let m = ob.market_at(MarketOrderOptions::new(Side::Buy, 1), -5).unwrap();
    assert_eq!(m.log.unwrap().ts, -5);
    assert_eq!(m.log.unwrap().op_id, 2);

    let x = ob.modify_at(r.order_id, None, Some(Quantity(9)), 99).unwrap();
    assert_eq!(x.log.unwrap().ts, 99);
    assert_eq!(x.log.unwrap().op_id, 3);
    assert_eq!(x.log.unwrap().op, JournalOp::Modify);
    assert_eq!(
        x.log.unwrap().o,
        OrderOptions::Modify { id: r.order_id, price: None, quantity: Some(Quantity(9)) }
    );
    assert_eq!(ob.get_order(x.order_id).unwrap().time, 99);

    let c = ob.cancel_at(x.order_id, 7).unwrap();
    assert_eq!(c.log.unwrap().ts, 7);
    assert_eq!(c.log.unwrap().op_id, 4);
    assert_eq!(c.log.unwrap().o, OrderOptions::Cancel(x.order_id));

    let snap = ob.snapshot_at(42);
    assert_eq!(snap.ts, 42);
    assert_eq!(snap.last_op, 4);

    let a = ob
        .apply_at(OrderOptions::Limit(LimitOrderOptions::new(Side::Buy, 1, 5, None, None)), 11)
        .unwrap();
    assert_eq!(a.log.unwrap().ts, 11);
    assert_eq!(ob.volume(Side::Buy), Quantity(1));
    assert_eq!(ob.volume(Side::Sell), Quantity(0));
}

#[test]
fn logs_are_sorted_by_number_and_keep_their_order_within_a_number() {
    let logs = vec![log(3, 0), log(1, 1), log(2, 2), log(1, 3), log(3, 4), log(0, 5), log(1, 6)];
    let sorted = sort_logs(&logs);
    let seen: Vec<(u64, i64)> = sorted.iter().map(|l| (l.op_id, l.ts)).collect();
    assert_eq!(seen, vec![(0, 5), (1, 1), (1, 3), (1, 6), (2, 2), (3, 0), (3, 4)]);
    assert_eq!(sort_logs(&Vec::new()).len(), 0);
}

#[test]
fn report_on_entry() {
    let r = ExecutionReport::new(ExecutionReportParams {
        id: OrderId(3),
        order_type: OrderType::Market,
        side: Side::Sell,
        quantity: Quantity(8),
        status: OrderStatus::New,
        time_in_force: Some(TimeInForce::FOK),
        price: None,
        post_only: false,
    });
    assert_eq!(r.order_id, OrderId(3));
    assert_eq!(r.orig_qty, Quantity(8));
    assert_eq!(r.remaining_qty, Quantity(8));
    assert_eq!(r.executed_qty, Quantity(0));
    assert_eq!(r.price, Price(0));
    // a market order is immediate-or-cancel whatever was given
    assert_eq!(r.time_in_force, TimeInForce::IOC);
    assert_eq!(r.fills.len(), 0);
    assert!(r.log.is_none());

    let r = ExecutionReport::new(ExecutionReportParams {
        id: OrderId(4),
        order_type: OrderType::Limit,
        side: Side::Buy,
        quantity: Quantity(2),
        status: OrderStatus::New,
        time_in_force: None,
        price: Some(Price(15)),
        post_only: true,
    });
    assert_eq!(r.time_in_force, TimeInForce::GTC);
    assert_eq!(r.price, Price(15));
    assert!(r.post_only);
}

#[test]
fn records_on_entry() {
    assert_eq!(get_order_time_in_force(None), TimeInForce::GTC);
    assert_eq!(get_order_time_in_force(Some(TimeInForce::FOK)), TimeInForce::FOK);
    let o = LimitOrder::new(
        OrderId(9),
        LimitOrderOptions::new(Side::Buy, 10, 20, Some(TimeInForce::IOC), Some(true)),
        5,
    );
    assert_eq!(o.id, OrderId(9));
    assert_eq!(o.orig_qty, Quantity(10));
    assert_eq!(o.executed_qty, Quantity(0));
    assert_eq!(o.remaining_qty(), Quantity(10));
    assert_eq!(o.price, Price(20));
    assert_eq!(o.order_type, OrderType::Limit);
    assert_eq!(o.time, 5);
    assert_eq!(o.time_in_force, TimeInForce::IOC);
    assert!(o.post_only);
    assert_eq!(o.status, OrderStatus::New);
    let mut over = o;
    over.executed_qty = Quantity(11);
    assert_eq!(over.remaining_qty(), Quantity(0));

    let m = MarketOrder::new(OrderId(1), MarketOrderOptions::new(Side::Sell, 6));
    assert_eq!(m.remaining_qty(), Quantity(6));
    assert_eq!(m.status, OrderStatus::New);
    assert_eq!(m.side, Side::Sell);
}

#[test]
fn limits_of_both_sides() {
    assert!(price_within_limit(Side::Sell, 100, Some(100)));
    assert!(price_within_limit(Side::Sell, 99, Some(100)));
    assert!(!price_within_limit(Side::Sell, 101, Some(100)));
    assert!(price_within_limit(Side::Buy, 100, Some(100)));
    assert!(price_within_limit(Side::Buy, 101, Some(100)));
    assert!(!price_within_limit(Side::Buy, 99, Some(100)));
    assert!(price_within_limit(Side::Buy, 0, None));
    assert!(price_within_limit(Side::Sell, u64::MAX, None));
}

#[test]
fn run_on_one_queue() {
    let mut orders: HashMap<u64, LimitOrder> = HashMap::new();
    orders.insert(1, record(1, Side::Sell, 5, 2, 100));
    orders.insert(2, record(2, Side::Sell, 4, 0, 100));
    orders.insert(3, record(3, Side::Sell, 6, 0, 100));
    let mut side = OrderSide::with_capacity(Side::Sell, 4);
    side.append(1, 3, 100);
    side.append(2, 4, 100);
    side.append(3, 6, 100);
    let mut queue = side.take_queue(100).unwrap();
    let mut fills: Vec<FillReport> = Vec::new();

    let left = process_queue(&mut orders, &mut side, &mut queue, 100, 9, &mut fills);
    assert_eq!(left, 0);
    assert_eq!(
        fills,
        vec![
            FillReport {
                order_id: OrderId(1),
                price: Price(100),
                quantity: Quantity(3),
                status: OrderStatus::Filled
            },
            FillReport {
                order_id: OrderId(2),
                price: Price(100),
                quantity: Quantity(4),
                status: OrderStatus::Filled
            },
            FillReport {
                order_id: OrderId(3),
                price: Price(100),
                quantity: Quantity(2),
                status: OrderStatus::PartiallyFilled
            },
        ]
    );
    assert_eq!(queue.iter_ids(), vec![3]);
    assert_eq!(queue.volume(), 4);
    assert_eq!(side.volume(), 4);
    assert_eq!(orders.len(), 1);
    assert_eq!(orders[&3].executed_qty, Quantity(2));
    assert_eq!(orders[&3].status, OrderStatus::PartiallyFilled);
    // the price stays in order while the queue holds an order
    assert_eq!(side.best(), Some(100));

    // an exact fill takes the last order and the level with it
    let left = process_queue(&mut orders, &mut side, &mut queue, 100, 10, &mut fills);
    assert_eq!(left, 6);
    assert!(queue.is_empty());
    assert_eq!(side.best(), None);
    assert_eq!(side.volume(), 0);
    assert!(orders.is_empty());
    assert_eq!(fills.len(), 4);
    assert_eq!(fills[3].quantity, Quantity(4));
    assert_eq!(fills[3].status, OrderStatus::Filled);

    // nothing wanted, or nothing there: nothing happens
    assert_eq!(process_queue(&mut orders, &mut side, &mut queue, 100, 3, &mut fills), 3);
    assert_eq!(fills.len(), 4);
}

#[test]
fn run_on_a_queue_ends_at_an_identifier_without_record() {
    let mut orders: HashMap<u64, LimitOrder> = HashMap::new();
    orders.insert(1, record(1, Side::Sell, 2, 0, 100));
    orders.insert(3, record(3, Side::Sell, 2, 0, 100));
    let mut side = OrderSide::with_capacity(Side::Sell, 4);
    let mut queue = OrderQueue::new();
    for id in [1u64, 2, 3] {
        queue.append(id, 2);
    }
    let mut fills: Vec<FillReport> = Vec::new();
    let left = process_queue(&mut orders, &mut side, &mut queue, 100, 5, &mut fills);
    assert_eq!(left, 3);
    assert_eq!(queue.iter_ids(), vec![2, 3]);
    assert_eq!(fills.len(), 1);
    assert!(orders.contains_key(&3));
}

#[test]
fn run_on_one_side() {
    let mut orders: HashMap<u64, LimitOrder> = HashMap::new();
    let mut bids = OrderSide::with_capacity(Side::Buy, 4);
    for (id, q, p) in [(1u64, 2u64, 100u64), (2, 3, 102), (3, 4, 101), (4, 1, 102)] {
        orders.insert(id, record(id, Side::Buy, q, 0, p));
        bids.append(id, q, p);
    }
    let mut fills: Vec<FillReport> = Vec::new();
    // a sell with the limit 101 trades with the bids at 102 and 101 only
    let left = match_side(&mut orders, &mut bids, Side::Buy, 20, &mut fills, Some(101));
    assert_eq!(left, 12);
    let taken: Vec<(u64, u64, u64)> =
        fills.iter().map(|f| (f.order_id.0, f.price.0, f.quantity.0)).collect();
    assert_eq!(taken, vec![(2, 102, 3), (4, 102, 1), (3, 101, 4)]);
    assert_eq!(bids.ordered_prices(), vec![100]);
    assert_eq!(bids.volume(), 2);
    assert_eq!(orders.len(), 1);

    // without a limit the rest goes too
    let left = match_side(&mut orders, &mut bids, Side::Buy, 1, &mut fills, None);
    assert_eq!(left, 0);
    assert_eq!(bids.depth(10), vec![(100, 1)]);
    assert_eq!(orders[&1].executed_qty, Quantity(1));
    let left = match_side(&mut orders, &mut bids, Side::Buy, 5, &mut fills, None);
    assert_eq!(left, 4);
    assert!(bids.is_empty());
    assert_eq!(match_side(&mut orders, &mut bids, Side::Buy, 5, &mut fills, None), 5);
}

#[test]
fn open_quantity_within_a_limit() {
    let mut orders: HashMap<u64, LimitOrder> = HashMap::new();
    let mut asks = OrderSide::with_capacity(Side::Sell, 4);
    for (id, q, e, p) in [(1u64, 5u64, 2u64, 100u64), (2, 4, 0, 100), (3, 6, 0, 105), (4, 9, 0,
        110)] {
        orders.insert(id, record(id, Side::Sell, q, e, p));
        asks.append(id, q - e, p);
    }
    assert!(side_is_fillable(&orders, &asks, Side::Sell, 7, 100));
    assert!(!side_is_fillable(&orders, &asks, Side::Sell, 8, 100));
    assert!(!side_is_fillable(&orders, &asks, Side::Sell, 8, 104));
    assert!(side_is_fillable(&orders, &asks, Side::Sell, 13, 105));
    assert!(!side_is_fillable(&orders, &asks, Side::Sell, 14, 109));
    assert!(side_is_fillable(&orders, &asks, Side::Sell, 22, 110));
    assert!(!side_is_fillable(&orders, &asks, Side::Sell, 23, u64::MAX));
    assert!(!side_is_fillable(&orders, &asks, Side::Sell, 1, 99));
    assert!(side_is_fillable(&orders, &asks, Side::Sell, 0, 1));
    // an order without record counts nothing
    orders.remove(&2);
    assert!(!side_is_fillable(&orders, &asks, Side::Sell, 4, 100));
    assert!(side_is_fillable(&orders, &asks, Side::Sell, 3, 100));
}

#[test]
fn open_quantity_saturates() {
    let mut orders: HashMap<u64, LimitOrder> = HashMap::new();
    let mut bids = OrderSide::with_capacity(Side::Buy, 4);
    for (id, p) in [(1u64, 10u64), (2, 9)] {
        orders.insert(id, record(id, Side::Buy, u64::MAX, 0, p));
        bids.append(id, u64::MAX, p);
    }
    assert!(side_is_fillable(&orders, &bids, Side::Buy, u64::MAX, 9));
    assert!(side_is_fillable(&orders, &bids, Side::Buy, u64::MAX, 10));
    assert!(!side_is_fillable(&orders, &bids, Side::Buy, 1, 11));
}

#[test]
fn order_leaves_its_side() {
    let mut side = OrderSide::with_capacity(Side::Buy, 4);
    side.append(1, 5, 50);
    side.append(2, 6, 50);
    side.append(3, 7, 40);
    side.remove_order(2, 6, 50);
    assert_eq!(side.depth(10), vec![(50, 5), (40, 7)]);
    assert_eq!(side.volume(), 12);
    side.remove_order(3, 7, 40);
    assert_eq!(side.depth(10), vec![(50, 5)]);
    assert_eq!(side.volume(), 5);
    // no level at the price: nothing happens
    side.remove_order(4, 1, 45);
    assert_eq!(side.depth(10), vec![(50, 5)]);
    assert_eq!(side.volume(), 5);
}

#[test]
fn side_is_listed_and_built_anew() {
    let mut orders: HashMap<u64, LimitOrder> = HashMap::new();
    let mut bids = OrderSide::with_capacity(Side::Buy, 4);
    for (id, q, e, p) in [(1u64, 5u64, 1u64, 100u64), (2, 4, 0, 101), (3, 6, 3, 100)] {
        orders.insert(id, record(id, Side::Buy, q, e, p));
        bids.append(id, q - e, p);
    }
    let listed = list_levels(&bids);
    let seen: Vec<(u64, Vec<u64>)> =
        listed.iter().map(|(p, q)| (*p, q.iter().copied().collect())).collect();
    assert_eq!(seen, vec![(100, vec![1, 3]), (101, vec![2])]);
    let built = rebuild_side(Side::Buy, &orders, &listed);
    assert_eq!(built.depth(10), vec![(101, 4), (100, 7)]);
    assert_eq!(built.volume(), 11);
    assert_eq!(built.queue(100).unwrap().iter_ids(), vec![1, 3]);
    assert_eq!(built.queue(100).unwrap().to_deque(), VecDeque::from(vec![1, 3]));
    assert_eq!(built.get_side(), Side::Buy);
    assert_eq!(level_prices(&listed), vec![100, 101]);
    // an identifier without record comes to rest with nothing counted
    let mut odd: BTreeMap<u64, VecDeque<u64>> = BTreeMap::new();
    odd.insert(7, VecDeque::from(vec![9, 1]));
    odd.insert(3, VecDeque::new());
    let built = rebuild_side(Side::Sell, &orders, &odd);
    assert_eq!(built.depth(10), vec![(7, 4)]);
    assert_eq!(built.queue(7).unwrap().iter_ids(), vec![9, 1]);
    assert_eq!(level_prices(&odd), vec![3, 7]);
    assert_eq!(level_prices(&BTreeMap::new()), Vec::<u64>::new());
}

struct Lcg(u64);

fn next(g: &mut Lcg, n: u64) -> u64 {
    g.0 = g.0.wrapping_mul(6364136223846793005).wrapping_add(1442695040888963407);
    (g.0 >> 33) % n
}

fn check_book(ob: &OrderBook, queues_before: &HashMap<(bool, u64), Vec<u64>>) -> HashMap<(bool,
    u64), Vec<u64>> {
    let depth = ob.depth(Some(usize::MAX));
    let mut queues: HashMap<(bool, u64), Vec<u64>> = HashMap::new();
    let mut seen = 0usize;
    for (is_bid, side, levels) in [(true, Side::Buy, &depth.bids), (false, Side::Sell,
        &depth.asks)] {
        let mut total = 0u64;
        for (price, volume) in levels.iter() {
            let queue = ob.get_orders_at_price(*price, side);
            // no level is empty, and its volume is the open quantity of its orders
            assert!(!queue.is_empty());
            let open: u64 = queue.iter().map(|o| o.remaining_qty().0).sum();
            assert_eq!(volume.0, open);
            total += open;
            let mut ids = Vec::new();
            for o in queue.iter() {
                // every order in a queue is the order of the index, at its price and side
                assert_eq!(ob.get_order(o.id).unwrap(), *o);
                assert_eq!(o.price, *price);
                assert_eq!(o.side, side);
                assert!(!ids.contains(&o.id.0));
                // what was ordered is what was executed and what is open
                assert_eq!(o.orig_qty.0, o.executed_qty.0 + o.remaining_qty().0);
                assert!(o.remaining_qty().0 > 0);
                assert!(o.id.0 < ob.next_order_id().0);
                ids.push(o.id.0);
            }
            seen += ids.len();
            // orders that stay in a queue keep their order
            if let Some(old) = queues_before.get(&(is_bid, price.0)) {
                let kept: Vec<u64> = old.iter().copied().filter(|x| ids.contains(x)).collect();
                let still: Vec<u64> = ids.iter().copied().filter(|x| old.contains(x)).collect();
                assert_eq!(kept, still);
            }
            queues.insert((is_bid, price.0), ids);
        }
        assert_eq!(ob.volume(side).0, total);
    }
    // every order of the index stands in a queue
    assert_eq!(seen, ob.order_count());
    if let (Some(bid), Some(ask)) = (ob.best_bid(), ob.best_ask()) {
        assert!(bid < ask);
    }
    queues
}

#[test]
fn what_holds_of_every_book_holds_along_a_long_session() {
    let mut g = Lcg(20240229);
    let mut ob = book(true);
    let mut queues = HashMap::new();
    let mut last_id: Option<u64> = None;
    let mut last_op = 0u64;
    for _ in 0..3000 {
        let side = if next(&mut g, 2) == 0 { Side::Buy } else { Side::Sell };
        let quantity = next(&mut g, 20);
        let price = 90 + next(&mut g, 21);
        let kind = next(&mut g, 10);
        let result = if kind < 5 {
            let tif = match next(&mut g, 4) {
                0 => Some(TimeInForce::IOC),
                1 => Some(TimeInForce::FOK),
                2 => Some(TimeInForce::GTC),
                _ => None,
            };
            let post_only = if next(&mut g, 4) == 0 { Some(true) } else { None };
            let r = ob.limit(LimitOrderOptions::new(side, quantity, price, tif, post_only));
            if let Ok(report) = &r {
                if tif == Some(TimeInForce::FOK) {
                    assert_eq!(report.status, OrderStatus::Filled);
                }
                if post_only == Some(true) {
                    assert!(report.fills.is_empty());
                }
            }
            r
        } else if kind < 7 {
            ob.market(MarketOrderOptions::new(side, quantity))
        } else if kind < 9 {
            let id = OrderId(next(&mut g, ob.next_order_id().0 + 1));
            ob.cancel(id)
        } else {
            let id = OrderId(next(&mut g, ob.next_order_id().0 + 1));
            let p = if next(&mut g, 2) == 0 { Some(Price(price)) } else { None };
            let q = if next(&mut g, 2) == 0 { Some(Quantity(quantity)) } else { None };
            ob.modify(id, p, q)
        };
        if let Ok(report) = &result {
            assert_eq!(report.orig_qty.0, report.executed_qty.0 + report.remaining_qty.0);
            let filled: u64 = report.fills.iter().map(|f| f.quantity.0).sum();
            if kind < 7 || kind == 9 {
                assert_eq!(filled, report.executed_qty.0);
            } else {
                assert_eq!(filled, 0);
            }
            let op = report.log.unwrap().op_id;
            assert_eq!(op, last_op + 1);
            last_op = op;
            if kind < 7 || kind == 9 {
                if let Some(before) = last_id {
                    assert!(report.order_id.0 > before);
                }
                last_id = Some(report.order_id.0);
            }
        }
        queues = check_book(&ob, &queues);
    }
    assert!(ob.order_count() > 0);
    assert!(last_op > 1000);
}

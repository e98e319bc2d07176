use rand::rng;
use rand::seq::SliceRandom;
use rust_order_book::order_side::OrderSide;
use rust_order_book::Side;

fn create_orderside(side: Side) -> OrderSide {
    OrderSide::with_capacity(side, 10)
}

#[test]
fn order_side_test_append_and_remove() {
    let mut os = create_orderside(Side::Buy);
    let price = 1000;
    let id1 = 1;
    let id2 = 2;

    os.append(id1, 50, price);
    os.append(id2, 70, price);

    assert_eq!(os.volume, 120);
    assert_eq!(os.queue(price).unwrap().volume, 120);

    let mut queue = os.take_queue(price).unwrap();
    os.remove(id1, 50, price, &mut queue);
    assert_eq!(os.volume, 70);

    os.put_queue(price, queue);
    let mut queue = os.take_queue(price).unwrap();
    os.remove(id2, 70, price, &mut queue);
    assert!(os.is_empty());
    assert_eq!(os.volume, 0);
}

#[test]
fn order_side_test_best_min_max_price() {
    let mut os = create_orderside(Side::Sell);
    os.append(1, 10, 100);
    os.append(2, 20, 200);
    os.append(3, 30, 150);

    assert_eq!(os.min_price(), Some(100));
    assert_eq!(os.max_price(), Some(200));
    assert_eq!(os.best_price(true), Some(100));
    assert_eq!(os.best_price(false), Some(200));
}

#[test]
fn order_side_test_depth() {
    let mut os = create_orderside(Side::Buy);
    os.append(1, 10, 100);
    os.append(2, 20, 200);
    os.append(3, 30, 150);

    let d = os.depth(2);
    assert_eq!(d.len(), 2);
    assert_eq!(d[0].0, 200);
    assert_eq!(d[1].0, 150);
}

#[test]
fn order_side_test_display_buy() {
    let mut side = OrderSide::with_capacity(Side::Buy, 10);
    side.append(1, 100, 10);
    side.append(2, 200, 20);

    let output = side.to_string();
    assert!(output.contains("10 -> 100"));
    assert!(output.contains("20 -> 200"));
}

#[test]
fn order_side_test_display_sell() {
    let mut side = OrderSide::with_capacity(Side::Sell, 10);
    side.append(1, 50, 5);
    side.append(2, 150, 15);

    let output = side.to_string();
    // asks are shown highest price first
    assert!(output.contains("15 -> 150"));
    assert!(output.contains("5 -> 50"));
}

#[test]
fn order_side_test_display_empty() {
    let side = OrderSide::with_capacity(Side::Buy, 10);
    let output = side.to_string();
    assert!(output.is_empty());
}

#[test]
fn order_side_stress_test_random() {
    let mut os = OrderSide::with_capacity(Side::Buy, 10);
    let mut rng = rng();
    let mut orders = Vec::new();

    // 1000 orders at random prices in 100..200
    for id in 0..1000u64 {
        let qty = rand::random::<u64>() % 500 + 1;
        let price = 100 + rand::random::<u64>() % 100;
        os.append(id, qty, price);
        orders.push((id, qty, price));
    }

    // count half of them anew into their queues
    let mut to_update = orders.clone();
    to_update.shuffle(&mut rng);
    for (id, _, price) in to_update.iter().take(500) {
        let queue = os.take_queue(*price);
        let mut queue = queue.unwrap();
        let new_qty = rand::random::<u64>() % 500 + 1;
        queue.update(*id, 0, new_qty);

        os.put_queue(*price, queue);
    }

    // remove all orders in random order
    orders.shuffle(&mut rng);
    for (id, qty, price) in orders.iter() {
        let queue = os.take_queue(*price);
        let mut queue = queue.unwrap();
        os.remove(*id, *qty, *price, &mut queue);

        if !queue.is_empty() {
            os.put_queue(*price, queue);
        }
    }

    assert!(os.is_empty());
    assert_eq!(os.volume, 0);
}

#[test]
fn test_append_and_remove() {
    let mut os = OrderSide::with_capacity(Side::Buy, 0);
    let price = 1000;
    let id1 = 11;
    let id2 = 12;

    os.append(id1, 50, price);
    os.append(id2, 70, price);

    assert_eq!(os.volume, 120);
    assert_eq!(os.queue(price).unwrap().volume, 120);

    let mut queue = os.take_queue(price).unwrap();
    os.remove(id1, 50, price, &mut queue);
    assert_eq!(os.volume, 70);

    os.put_queue(price, queue);
    let mut queue = os.take_queue(price).unwrap();
    os.remove(id2, 70, price, &mut queue);
    assert!(os.is_empty());
    assert_eq!(os.volume, 0);
}

#[test]
fn test_best_min_max_price() {
    let mut os = OrderSide::with_capacity(Side::Sell, 0);
    os.append(21, 10, 100);
    os.append(22, 20, 200);
    os.append(23, 30, 150);

    assert_eq!(os.min_price(), Some(100));
    assert_eq!(os.max_price(), Some(200));
    assert_eq!(os.best_price(true), Some(100));
    assert_eq!(os.best_price(false), Some(200));
}

#[test]
fn test_depth() {
    let mut os = OrderSide::with_capacity(Side::Buy, 0);
    os.append(31, 10, 100);
    os.append(32, 20, 200);
    os.append(33, 30, 150);

    let d = os.depth(2);
    assert_eq!(d.len(), 2);
    assert_eq!(d[0].0, 200);
    assert_eq!(d[1].0, 150);
}

#[test]
fn test_display_buy() {
    let mut side = OrderSide::with_capacity(Side::Buy, 0);
    side.append(41, 100, 10);
    side.append(42, 200, 20);

    let output = side.to_string();
    assert!(output.contains("10 -> 100"));
    assert!(output.contains("20 -> 200"));
}

#[test]
fn test_display_sell() {
    let mut side = OrderSide::with_capacity(Side::Sell, 0);
    side.append(51, 50, 5);
    side.append(52, 150, 15);

    let output = side.to_string();
    assert!(output.contains("15 -> 150"));
    assert!(output.contains("5 -> 50"));
}

#[test]
fn test_display_empty() {
    let side = OrderSide::with_capacity(Side::Buy, 0);
    let output = side.to_string();
    assert!(output.is_empty());
}

#[test]
fn stress_test_random() {
    let mut os = OrderSide::with_capacity(Side::Buy, 0);
    let mut rng = rng();
    let mut orders = Vec::new();

    for id in 0..1000u64 {
        let qty = rand::random::<u64>() % 500 + 1;
        let price = 100 + rand::random::<u64>() % 100;
        os.append(id, qty, price);
        orders.push((id, qty, price));
    }

    let mut to_update = orders.clone();
    to_update.shuffle(&mut rng);
    for (id, _, price) in to_update.iter().take(500) {
        if let Some(mut queue) = os.take_queue(*price) {
            if queue.iter_ids().iter().any(|x| *x == *id) {
                let new_qty = rand::random::<u64>() % 500 + 1;
                queue.update(*id, 0, new_qty);
            }
            os.put_queue(*price, queue);
        }
    }

    orders.shuffle(&mut rng);
    for (id, qty, price) in orders.iter() {
        if let Some(mut queue) = os.take_queue(*price) {
            if queue.iter_ids().iter().any(|x| *x == *id) {
                os.remove(*id, *qty, *price, &mut queue);
            }
            if !queue.is_empty() {
                os.put_queue(*price, queue);
            }
        }
    }

    assert!(os.is_empty());
    assert_eq!(os.volume, 0);
}

#[test]
fn side_text_is_exact_and_highest_price_first() {
    let mut bids = OrderSide::with_capacity(Side::Buy, 4);
    bids.append(1, 100, 10);
    bids.append(2, 200, 20);
    bids.append(3, 5, 20);
    assert_eq!(bids.to_string(), "20 -> 205\n10 -> 100\n");

    let mut asks = OrderSide::with_capacity(Side::Sell, 4);
    asks.append(1, 50, 5);
    asks.append(2, 150, 15);
    assert_eq!(asks.to_string(), "15 -> 150\n5 -> 50\n");
}

#[test]
fn side_prices_come_best_first() {
    let mut bids = OrderSide::with_capacity(Side::Buy, 4);
    let mut asks = OrderSide::with_capacity(Side::Sell, 4);
    for (id, p) in [(1u64, 30u64), (2, 10), (3, 20), (4, 40)] {
        bids.append(id, 1, p);
        asks.append(id, 1, p);
    }
    assert_eq!(bids.ordered_prices(), vec![40, 30, 20, 10]);
    assert_eq!(asks.ordered_prices(), vec![10, 20, 30, 40]);
    assert_eq!(bids.best(), Some(40));
    assert_eq!(asks.best(), Some(10));
    assert_eq!(bids.depth(0), vec![]);
    assert_eq!(bids.depth(100), vec![(40, 1), (30, 1), (20, 1), (10, 1)]);
    assert_eq!(asks.depth(3), vec![(10, 1), (20, 1), (30, 1)]);
    assert_eq!(bids.get_side(), Side::Buy);
    assert_eq!(asks.get_side(), Side::Sell);
}

#[test]
fn side_level_leaves_when_its_queue_is_empty() {
    let mut asks = OrderSide::with_capacity(Side::Sell, 4);
    assert_eq!(asks.best(), None);
    assert_eq!(asks.min_price(), None);
    assert_eq!(asks.max_price(), None);
    asks.append(1, 3, 100);
    asks.append(2, 4, 100);
    asks.append(3, 5, 101);
    assert_eq!(asks.volume(), 12);

    let mut q = asks.take_queue(100).unwrap();
    // while the queue is detached the price stays in order and shows no volume
    assert_eq!(asks.best(), Some(100));
    assert_eq!(asks.depth(10), vec![(100, 0), (101, 5)]);
    assert!(asks.queue(100).is_none());
    asks.reduce(1, &mut q);
    assert_eq!(q.volume(), 6);
    assert_eq!(asks.volume(), 11);
    asks.remove(1, 2, 100, &mut q);
    assert_eq!(asks.best(), Some(100));
    asks.remove(2, 4, 100, &mut q);
    assert!(q.is_empty());
    assert_eq!(asks.best(), Some(101));
    assert_eq!(asks.volume(), 5);
    assert!(asks.take_queue(100).is_none());
    assert!(!asks.is_empty());
}

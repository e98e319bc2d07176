//! The matching primitives: the run of a wanted quantity against one queue
//! and against one side.

use crate::enums::{OrderStatus, Side};
use crate::model::{
    after_full, after_part, consume, match_level, match_levels, partially_filled, within_limit,
    Matched, Matching,
};
use crate::order::{LimitOrder, Quantity};
use crate::order_queue::{lemma_position, without, OrderQueue};
use crate::order_side::OrderSide;
use crate::report::FillReport;
use crate::utils::safe_add;
use std::collections::HashMap;
use vstd::prelude::*;

verus! {

/// Taking the head out of a queue leaves the queue without its first entry.
pub proof fn lemma_without_head(ids: Seq<u64>)
    requires
        ids.len() > 0,
    ensures
        ids.contains(ids[0]),
        without(ids, ids[0]) == ids.drop_first(),
{
    lemma_position(ids, ids[0]);
    assert(ids.remove(0) =~= ids.drop_first());
}

/// A run on a queue never leaves more wanted than before.
pub proof fn lemma_consume_left(m: Matching, price: u64)
    ensures
        consume(m, price).left <= m.left,
    decreases m.queue.ids.len(),
{
    if m.left == 0 || m.queue.ids.len() == 0 || !m.orders.contains_key(m.queue.ids[0]) {
    } else if m.left >= m.orders[m.queue.ids[0]].remaining() {
        lemma_consume_left(after_full(m, price), price);
    }
}

/// Whether a resting price on the side `maker` may trade with an order of
/// the given limit.
pub fn price_within_limit(maker: Side, price: u64, limit: Option<u64>) -> (b: bool)
    ensures
        b == within_limit(maker, price, limit),
{
    match limit {
        None => true,
        Some(l) => match maker {
            Side::Sell => price <= l,
            Side::Buy => price >= l,
        },
    }
}

/// Matches `wanted` against `queue`, the detached queue of the level at
/// `price` on `side`, from the head, and returns what is still wanted.
/// Orders that are filled in full leave the queue and the index; an order
/// that is filled in part stays at the head. Each trade is added to `fills`.
pub fn process_queue(
    orders: &mut HashMap<u64, LimitOrder>,
    side: &mut OrderSide,
    queue: &mut OrderQueue,
    price: u64,
    wanted: u64,
    fills: &mut Vec<FillReport>,
) -> (left: u64)
    ensures
        (Matching {
            orders: final(orders)@,
            side: final(side)@,
            queue: final(queue)@,
            left,
            fills: final(fills)@,
        }) == consume(
            Matching {
                orders: old(orders)@,
                side: old(side)@,
                queue: old(queue)@,
                left: wanted,
                fills: old(fills)@,
            },
            price,
        ),
{
    let ghost start = Matching {
        orders: orders@,
        side: side@,
        queue: queue@,
        left: wanted,
        fills: fills@,
    };
    let mut left = wanted;
    let mut stuck = false;
    while left > 0 && !stuck && queue.len() > 0
        invariant
            consume(start, price) == consume(
                Matching { orders: orders@, side: side@, queue: queue@, left, fills: fills@ },
                price,
            ),
            stuck ==> queue@.ids.len() > 0 && !orders@.contains_key(queue@.ids[0]),
        decreases
            queue@.ids.len() + (if stuck {
                0int
            } else {
                1int
            }) + (if left > 0 {
                1int
            } else {
                0int
            }),
    {
        let id = queue.get(0);
        let found = orders.get(&id);
        match found {
            None => {
                stuck = true;
            },
            Some(o) => {
                let o: LimitOrder = *o;
                let open = o.remaining_qty().0;
                let ghost before = Matching {
                    orders: orders@,
                    side: side@,
                    queue: queue@,
                    left,
                    fills: fills@,
                };
                if left < open {
                    let updated = LimitOrder {
                        executed_qty: Quantity(safe_add(o.executed_qty.0, left)),
                        status: OrderStatus::PartiallyFilled,
                        ..o
                    };
                    fills.push(
                        FillReport {
                            order_id: o.id,
                            price: o.price,
                            quantity: Quantity(left),
                            status: OrderStatus::PartiallyFilled,
                        },
                    );
                    orders.insert(id, updated);
                    side.reduce(left, queue);
                    left = 0;
                    proof {
                        assert(updated == partially_filled(o, before.left));
                        assert((Matching {
                            orders: orders@,
                            side: side@,
                            queue: queue@,
                            left,
                            fills: fills@,
                        }) == after_part(before));
                    }
                } else {
                    orders.remove(&id);
                    proof {
                        lemma_without_head(queue@.ids);
                    }
                    side.remove(id, open, price, queue);
                    fills.push(
                        FillReport {
                            order_id: o.id,
                            price: o.price,
                            quantity: Quantity(open),
                            status: OrderStatus::Filled,
                        },
                    );
                    left = left - open;
                    proof {
                        assert((Matching {
                            orders: orders@,
                            side: side@,
                            queue: queue@,
                            left,
                            fills: fills@,
                        }) == after_full(before, price));
                    }
                }
            },
        }
    }
    left
}

/// Matches `wanted` against `side`, level by level from the best price, and
/// returns what is still wanted. `maker` is the side of the book that `side`
/// stands for; a price beyond `limit` ends the run.
pub fn match_side(
    orders: &mut HashMap<u64, LimitOrder>,
    side: &mut OrderSide,
    maker: Side,
    wanted: u64,
    fills: &mut Vec<FillReport>,
    limit: Option<u64>,
) -> (left: u64)
    ensures
        (Matched { orders: final(orders)@, side: final(side)@, left, fills: final(fills)@ })
            == match_levels(
            Matched { orders: old(orders)@, side: old(side)@, left: wanted, fills: old(fills)@ },
            limit,
            maker,
        ),
{
    let ghost start = Matched { orders: orders@, side: side@, left: wanted, fills: fills@ };
    let mut left = wanted;
    let mut go = true;
    while go && left > 0
        invariant
            match_levels(start, limit, maker) == (if go {
                match_levels(
                    Matched { orders: orders@, side: side@, left, fills: fills@ },
                    limit,
                    maker,
                )
            } else {
                Matched { orders: orders@, side: side@, left, fills: fills@ }
            }),
        decreases left + (if go { 1int } else { 0int }),
    {
        let ghost before = Matched { orders: orders@, side: side@, left, fills: fills@ };
        match side.best() {
            None => {
                go = false;
            },
            Some(p) => {
                if !price_within_limit(maker, p, limit) {
                    go = false;
                } else {
                    match side.take_queue(p) {
                        None => {
                            go = false;
                            proof {
                                assert(side@.levels =~= before.side.levels);
                            }
                        },
                        Some(q) => {
                            let mut q = q;
                            let had = left;
                            proof {
                                lemma_consume_left(
                                    Matching {
                                        orders: orders@,
                                        side: side@,
                                        queue: q@,
                                        left,
                                        fills: fills@,
                                    },
                                    p,
                                );
                            }
                            left = process_queue(orders, side, &mut q, p, left, fills);
                            if !q.is_empty() {
                                side.put_queue(p, q);
                            }
                            proof {
                                assert((Matched {
                                    orders: orders@,
                                    side: side@,
                                    left,
                                    fills: fills@,
                                }) == match_level(before, p));
                            }
                            if left >= had {
                                go = false;
                            }
                        },
                    }
                }
            },
        }
    }
    left
}

} // verus!

//! The open quantity that a side offers within a limit, and what a run
//! takes of it.

use crate::enums::Side;
use crate::integrity::{
    lemma_best_of_some, lemma_consume_ok, lemma_full_fill_ok, lemma_match_level_ok, lemma_sides,
    orders_ok, run_ok, side_ok,
};
use crate::model::{
    after_full, consume, level_open, match_level, match_levels, open_of, open_within, queue_open,
    settle, within_limit, BookState, Matched, Matching,
};
use crate::order::LimitOrder;
use crate::order_queue::Level;
use crate::order_side::{
    best_of, better, lemma_lists_best_first_unique, lemma_ordered_first_is_best, lists_best_first,
    ordered, SideState,
};
use vstd::prelude::*;

verus! {

/// The open quantities of a queue sum up to nothing negative.
pub proof fn lemma_queue_open_bounds(orders: Map<u64, LimitOrder>, ids: Seq<u64>)
    ensures
        queue_open(orders, ids) >= 0,
    decreases ids.len(),
{
    if ids.len() > 0 {
        lemma_queue_open_bounds(orders, ids.drop_last());
    }
}

/// The open quantity within a limit over the first `i` prices is nothing
/// negative and no more than over all prices.
pub proof fn lemma_open_within_prefix(
    orders: Map<u64, LimitOrder>,
    levels: Map<u64, Level>,
    prices: Seq<u64>,
    maker: Side,
    limit: Option<u64>,
    i: int,
)
    requires
        0 <= i <= prices.len(),
    ensures
        0 <= open_within(orders, levels, prices.take(i), maker, limit) <= open_within(
            orders,
            levels,
            prices,
            maker,
            limit,
        ),
    decreases prices.len(),
{
    if i == prices.len() {
        assert(prices.take(i) =~= prices);
        if prices.len() > 0 {
            lemma_open_within_prefix(orders, levels, prices.drop_last(), maker, limit, i - 1);
            assert(prices.drop_last().take(i - 1) =~= prices.drop_last());
            if levels.contains_key(prices.last()) {
                lemma_queue_open_bounds(orders, levels[prices.last()].ids);
            }
        }
    } else {
        lemma_open_within_prefix(orders, levels, prices.drop_last(), maker, limit, i);
        assert(prices.drop_last().take(i) =~= prices.take(i));
        if levels.contains_key(prices.last()) {
            lemma_queue_open_bounds(orders, levels[prices.last()].ids);
        }
    }
}

/// A finite set of prices can be listed best first.
pub proof fn lemma_ordered_lists(s: Set<u64>, side: Side)
    requires
        s.finite(),
    ensures
        lists_best_first(ordered(s, side), s, side),
    decreases s.len(),
{
    lemma_best_of_some(s, side);
    match best_of(s, side) {
        None => {
            let v = Seq::<u64>::empty();
            assert(lists_best_first(v, s, side));
        },
        Some(p) => {
            let rest = s.remove(p);
            lemma_ordered_lists(rest, side);
            let tail = ordered(rest, side);
            let v = seq![p] + tail;
            assert forall|i: int, j: int| 0 <= i < j < v.len() implies better(side, v[i], v[j]) by {
                if i == 0 {
                    assert(v[j] == tail[j - 1]);
                    assert(rest.contains(tail[j - 1]));
                } else {
                    assert(v[i] == tail[i - 1]);
                    assert(v[j] == tail[j - 1]);
                }
            }
            assert forall|i: int| 0 <= i < v.len() implies s.contains(#[trigger] v[i]) by {
                if i > 0 {
                    assert(v[i] == tail[i - 1]);
                    assert(rest.contains(tail[i - 1]));
                }
            }
            assert forall|q: u64| s.contains(q) implies v.contains(q) by {
                if q == p {
                    assert(v[0] == p);
                } else {
                    assert(rest.contains(q));
                    assert(tail.contains(q));
                    let k = choose|k: int| 0 <= k < tail.len() && tail[k] == q;
                    assert(v[k + 1] == q);
                }
            }
            assert(lists_best_first(v, s, side));
        },
    }
}

/// Without its best price a set is listed as before, from the second price
/// on.
pub proof fn lemma_ordered_rest(s: Set<u64>, side: Side)
    requires
        s.finite(),
        ordered(s, side).len() > 0,
    ensures
        ordered(s.remove(ordered(s, side)[0]), side) == ordered(s, side).drop_first(),
{
    lemma_ordered_lists(s, side);
    let v = ordered(s, side);
    let p = v[0];
    let rest = s.remove(p);
    let tail = v.drop_first();
    assert forall|i: int, j: int| 0 <= i < j < tail.len() implies better(
        side,
        tail[i],
        tail[j],
    ) by {
        assert(better(side, v[i + 1], v[j + 1]));
    }
    assert forall|i: int| 0 <= i < tail.len() implies rest.contains(#[trigger] tail[i]) by {
        assert(tail[i] == v[i + 1]);
        assert(s.contains(v[i + 1]));
        assert(better(side, v[0], v[i + 1]));
    }
    assert forall|q: u64| rest.contains(q) implies tail.contains(q) by {
        assert(v.contains(q));
        let k = choose|k: int| 0 <= k < v.len() && v[k] == q;
        assert(tail[k - 1] == q);
    }
    lemma_ordered_lists(rest, side);
    lemma_lists_best_first_unique(ordered(rest, side), tail, rest, side);
}

/// The open quantity of a queue is that of its head and that of the rest.
pub proof fn lemma_queue_open_head(orders: Map<u64, LimitOrder>, ids: Seq<u64>)
    requires
        ids.len() > 0,
    ensures
        queue_open(orders, ids) == open_of(orders, ids[0]) + queue_open(orders, ids.drop_first()),
    decreases ids.len(),
{
    if ids.len() == 1 {
        assert(ids.drop_last() =~= Seq::<u64>::empty());
        assert(ids.drop_first() =~= Seq::<u64>::empty());
        assert(queue_open(orders, ids.drop_last()) == 0);
    } else {
        lemma_queue_open_head(orders, ids.drop_last());
        assert(ids.drop_last().drop_first() =~= ids.drop_first().drop_last());
        assert(ids.drop_first().last() == ids.last());
        assert(ids.drop_last()[0] == ids[0]);
    }
}

/// The open quantity within a limit is that of the first level and that of
/// the rest.
pub proof fn lemma_open_within_head(
    orders: Map<u64, LimitOrder>,
    levels: Map<u64, Level>,
    prices: Seq<u64>,
    maker: Side,
    limit: Option<u64>,
)
    requires
        prices.len() > 0,
    ensures
        open_within(orders, levels, prices, maker, limit) == level_open(
            orders,
            levels,
            maker,
            limit,
            prices[0],
        ) + open_within(orders, levels, prices.drop_first(), maker, limit),
    decreases prices.len(),
{
    if prices.len() == 1 {
        assert(prices.drop_last() =~= Seq::<u64>::empty());
        assert(prices.drop_first() =~= Seq::<u64>::empty());
        assert(open_within(orders, levels, prices.drop_last(), maker, limit) == 0);
    } else {
        lemma_open_within_head(orders, levels, prices.drop_last(), maker, limit);
        assert(prices.drop_last().drop_first() =~= prices.drop_first().drop_last());
        assert(prices.drop_first().last() == prices.last());
        assert(prices.drop_last()[0] == prices[0]);
    }
}

/// The open quantity of a queue depends on the records of its orders only.
pub proof fn lemma_queue_open_frame(
    a: Map<u64, LimitOrder>,
    b: Map<u64, LimitOrder>,
    ids: Seq<u64>,
)
    requires
        forall|i: int| 0 <= i < ids.len() ==> open_of(a, #[trigger] ids[i]) == open_of(b, ids[i]),
    ensures
        queue_open(a, ids) == queue_open(b, ids),
    decreases ids.len(),
{
    if ids.len() > 0 {
        let front = ids.drop_last();
        assert forall|i: int| 0 <= i < front.len() implies open_of(a, #[trigger] front[i])
            == open_of(b, front[i]) by {
            assert(front[i] == ids[i]);
        }
        lemma_queue_open_frame(a, b, front);
        assert(ids.last() == ids[ids.len() - 1]);
    }
}

/// The open quantity within a limit depends on the levels at the listed
/// prices only.
pub proof fn lemma_open_within_frame(
    a: Map<u64, LimitOrder>,
    la: Map<u64, Level>,
    b: Map<u64, LimitOrder>,
    lb: Map<u64, Level>,
    prices: Seq<u64>,
    maker: Side,
    limit: Option<u64>,
)
    requires
        forall|i: int|
            0 <= i < prices.len() ==> level_open(a, la, maker, limit, #[trigger] prices[i])
                == level_open(b, lb, maker, limit, prices[i]),
    ensures
        open_within(a, la, prices, maker, limit) == open_within(b, lb, prices, maker, limit),
    decreases prices.len(),
{
    if prices.len() > 0 {
        let front = prices.drop_last();
        assert forall|i: int| 0 <= i < front.len() implies level_open(
            a,
            la,
            maker,
            limit,
            #[trigger] front[i],
        ) == level_open(b, lb, maker, limit, front[i]) by {
            assert(front[i] == prices[i]);
        }
        lemma_open_within_frame(a, la, b, lb, front, maker, limit);
        assert(prices.last() == prices[prices.len() - 1]);
    }
}

/// Where no listed price is within the limit, nothing is open within it.
pub proof fn lemma_open_within_none(
    orders: Map<u64, LimitOrder>,
    levels: Map<u64, Level>,
    prices: Seq<u64>,
    maker: Side,
    limit: Option<u64>,
)
    requires
        forall|i: int| 0 <= i < prices.len() ==> !within_limit(maker, #[trigger] prices[i], limit),
    ensures
        open_within(orders, levels, prices, maker, limit) == 0,
    decreases prices.len(),
{
    if prices.len() > 0 {
        let front = prices.drop_last();
        assert forall|i: int| 0 <= i < front.len() implies !within_limit(
            maker,
            #[trigger] front[i],
            limit,
        ) by {
            assert(front[i] == prices[i]);
        }
        lemma_open_within_none(orders, levels, front, maker, limit);
        assert(prices.last() == prices[prices.len() - 1]);
    }
}

/// What a run on a queue takes: all that is wanted where the queue is open
/// for as much, and else all that the queue is open for. The levels that
/// are attached stay as they are, and so do the records of the orders that
/// are not in the queue.
pub proof fn lemma_consume_takes(m: Matching, price: u64, which: Side, next: u64, other: SideState)
    requires
        run_ok(m, price, which),
        orders_ok(m.orders, next),
        side_ok(m.orders, other, which.opposite()),
    ensures
        queue_open(m.orders, m.queue.ids) >= m.left ==> consume(m, price).left == 0,
        queue_open(m.orders, m.queue.ids) < m.left ==> consume(m, price).left == m.left
            - queue_open(m.orders, m.queue.ids),
        consume(m, price).side.levels == m.side.levels,
        forall|id: u64|
            m.orders.contains_key(id) && !m.queue.ids.contains(id) ==> consume(
                m,
                price,
            ).orders.contains_key(id) && consume(m, price).orders[id] == #[trigger] m.orders[id],
    decreases m.queue.ids.len(),
{
    if m.queue.ids.len() == 0 {
        assert(queue_open(m.orders, m.queue.ids) == 0);
    } else {
        let id = m.queue.ids[0];
        lemma_queue_open_head(m.orders, m.queue.ids);
        lemma_full_fill_ok(m, price, which, next, other);
        let o = m.orders[id];
        let rest = m.queue.ids.drop_first();
        lemma_queue_open_bounds(m.orders, rest);
        if m.left == 0 {
        } else if m.left < o.remaining() {
            assert(consume(m, price).side.levels =~= m.side.levels);
        } else {
            let n = after_full(m, price);
            lemma_consume_takes(n, price, which, next, other);
            assert(n.side.levels =~= m.side.levels);
            assert forall|i: int| 0 <= i < rest.len() implies open_of(m.orders, #[trigger] rest[i])
                == open_of(n.orders, rest[i]) by {
                assert(rest[i] == m.queue.ids[i + 1]);
                assert(m.queue.ids[i + 1] != m.queue.ids[0]);
            }
            lemma_queue_open_frame(m.orders, n.orders, rest);
            assert forall|x: u64|
                m.orders.contains_key(x) && !m.queue.ids.contains(x) implies consume(
                m,
                price,
            ).orders.contains_key(x) && consume(m, price).orders[x] == #[trigger] m.orders[x] by {
                assert(x != id);
                assert(n.orders.contains_key(x) && n.orders[x] == m.orders[x]);
                if n.queue.ids.contains(x) {
                    let k = choose|k: int| 0 <= k < rest.len() && rest[k] == x;
                    assert(m.queue.ids[k + 1] == x);
                }
            }
        }
    }
}

/// A run with a limit fills an order in full where the side is open for
/// as much within the limit.
pub proof fn lemma_match_levels_fills(
    m: Matched,
    limit: u64,
    which: Side,
    next: u64,
    other: SideState,
)
    requires
        side_ok(m.orders, m.side, which),
        orders_ok(m.orders, next),
        side_ok(m.orders, other, which.opposite()),
        open_within(m.orders, m.side.levels, ordered(m.side.prices, which), which, Some(limit))
            >= m.left,
    ensures
        match_levels(m, Some(limit), which).left == 0,
    decreases m.left,
{
    if m.left > 0 {
        let v = ordered(m.side.prices, which);
        lemma_ordered_lists(m.side.prices, which);
        lemma_ordered_first_is_best(v, m.side.prices, which);
        if v.len() == 0 {
            assert(open_within(m.orders, m.side.levels, v, which, Some(limit)) == 0);
        } else {
            let p = v[0];
            if !within_limit(which, p, Some(limit)) {
                assert forall|i: int| 0 <= i < v.len() implies !within_limit(
                    which,
                    #[trigger] v[i],
                    Some(limit),
                ) by {
                    if i > 0 {
                        assert(better(which, v[0], v[i]));
                    }
                }
                lemma_open_within_none(m.orders, m.side.levels, v, which, Some(limit));
            } else {
                assert(m.side.prices.contains(p));
                assert(m.side.levels.contains_key(p));
                let start = Matching {
                    orders: m.orders,
                    side: m.side.detach(p),
                    queue: m.side.levels[p],
                    left: m.left,
                    fills: m.fills,
                };
                assert(settle(start, p).levels =~= m.side.levels);
                assert(settle(start, p) == m.side);
                assert(m.side.levels[p].ids.no_duplicates());
                lemma_consume_ok(start, p, which, next, other);
                lemma_consume_takes(start, p, which, next, other);
                lemma_match_level_ok(m, p, which, next, other);
                lemma_open_within_head(m.orders, m.side.levels, v, which, Some(limit));
                let after = match_level(m, p);
                let open = queue_open(m.orders, m.side.levels[p].ids);
                if open >= m.left {
                    assert(after.left == 0);
                    assert(match_levels(after, Some(limit), which) == after);
                } else {
                    let c = consume(start, p);
                    assert(c.queue.ids.len() == 0);
                    assert(!c.side.prices.contains(p));
                    assert(after.side == c.side);
                    assert(after.side.levels == m.side.levels.remove(p));
                    assert(after.side.prices.subset_of(m.side.prices));
                    assert(after.side.prices =~= m.side.prices.remove(p)) by {
                        assert(after.side.prices =~= after.side.levels.dom());
                        assert(m.side.prices =~= m.side.levels.dom());
                    }
                    lemma_ordered_rest(m.side.prices, which);
                    let tail = v.drop_first();
                    assert forall|i: int| 0 <= i < tail.len() implies level_open(
                        m.orders,
                        m.side.levels,
                        which,
                        Some(limit),
                        #[trigger] tail[i],
                    ) == level_open(after.orders, after.side.levels, which, Some(limit),
                        tail[i]) by {
                        let q = tail[i];
                        assert(q == v[i + 1]);
                        assert(better(which, v[0], v[i + 1]));
                        assert(m.side.prices.contains(v[i + 1]));
                        assert(m.side.levels.contains_key(q));
                        let ids = m.side.levels[q].ids;
                        assert forall|k: int| 0 <= k < ids.len() implies open_of(
                            m.orders,
                            #[trigger] ids[k],
                        ) == open_of(after.orders, ids[k]) by {
                            let x = m.side.levels[q].ids[k];
                            assert(m.orders.contains_key(x) && m.orders[x].price.0 == q);
                            if start.queue.ids.contains(x) {
                                let j = choose|j: int|
                                    0 <= j < start.queue.ids.len() && start.queue.ids[j] == x;
                                assert(m.side.levels[p].ids[j] == x);
                            }
                            assert(c.orders[x] == m.orders[x]);
                        }
                        lemma_queue_open_frame(m.orders, after.orders, ids);
                    }
                    lemma_open_within_frame(
                        m.orders,
                        m.side.levels,
                        after.orders,
                        after.side.levels,
                        tail,
                        which,
                        Some(limit),
                    );
                    lemma_match_levels_fills(after, limit, which, next, other);
                }
            }
        }
    }
}

/// An order that a book can fill in full is filled in full by its run.
pub proof fn lemma_fillable_is_filled(s: BookState, taker: Side, quantity: u64, price: u64)
    requires
        s.wf(),
        s.fillable(taker, quantity, price),
    ensures
        s.matched(taker, quantity, Some(price)).left == 0,
{
    let maker = taker.opposite();
    lemma_sides(s, maker);
    lemma_match_levels_fills(
        Matched { orders: s.orders, side: s.side(maker), left: quantity, fills: Seq::empty() },
        price,
        maker,
        s.next_order_id,
        s.side(taker),
    );
}

} // verus!

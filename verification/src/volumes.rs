//! The volumes that levels and sides are counted with, and when they are
//! the open quantities of the orders.

use crate::book::lemma_apply_next_id;
use crate::enums::{OrderOptions, Side, TimeInForce};
use crate::integrity::{
    lemma_apply_wf, lemma_best_of_some, lemma_cancel_wf, lemma_consume_ok, lemma_full_fill_ok,
    lemma_match_level_ok, lemma_match_levels_ok, lemma_side_without_ok, lemma_sides,
    lemma_without_ok, orders_ok, run_ok, side_ok,
};
use crate::journal::JournalLog;
use crate::liquidity::{
    lemma_open_within_frame, lemma_open_within_prefix, lemma_ordered_lists,
    lemma_queue_open_bounds, lemma_queue_open_frame, lemma_queue_open_head,
};
use crate::model::{
    after_full, after_part, consume, first_stamp, later_stamps, level_open, match_level,
    match_levels, open_of, open_within, queue_open, replay, settle, within_limit, BookState,
    Matched, Matching,
};
use crate::order::{LimitOrder, LimitOrderOptions, MarketOrderOptions, Price, Quantity};
use crate::order_queue::{lemma_position, position, without, Level};
use crate::order_side::{
    better, lemma_lists_best_first_unique, lists_best_first, ordered, SideState,
};
use vstd::prelude::*;

verus! {

/// The open quantity of a side: the sum of the open quantities of the
/// orders in its queues.
pub open spec fn side_open(orders: Map<u64, LimitOrder>, side: SideState) -> int {
    open_within(orders, side.levels, ordered(side.prices, side.side), side.side, None)
}

/// Whether every level is counted with the open quantity of its orders.
pub open spec fn levels_exact(orders: Map<u64, LimitOrder>, levels: Map<u64, Level>) -> bool {
    forall|p: u64| #[trigger]
        levels.contains_key(p) ==> levels[p].volume == queue_open(orders, levels[p].ids)
}

/// Whether a side and each of its levels are counted with the open
/// quantity of their orders.
pub open spec fn volumes_exact(orders: Map<u64, LimitOrder>, side: SideState) -> bool {
    levels_exact(orders, side.levels) && side.volume == side_open(orders, side)
}

/// A listing without the price at place `k` lists the set without that
/// price.
pub proof fn lemma_listing_without(v: Seq<u64>, s: Set<u64>, side: Side, k: int)
    requires
        lists_best_first(v, s, side),
        0 <= k < v.len(),
    ensures
        lists_best_first(v.remove(k), s.remove(v[k]), side),
{
    let w = v.remove(k);
    let rest = s.remove(v[k]);
    assert forall|i: int, j: int| 0 <= i < j < w.len() implies better(side, w[i], w[j]) by {
        let a = if i < k {
            i
        } else {
            i + 1
        };
        let b = if j < k {
            j
        } else {
            j + 1
        };
        assert(w[i] == v[a] && w[j] == v[b]);
    }
    assert forall|i: int| 0 <= i < w.len() implies rest.contains(#[trigger] w[i]) by {
        let a = if i < k {
            i
        } else {
            i + 1
        };
        assert(w[i] == v[a]);
        assert(s.contains(v[a]));
        if a < k {
            assert(better(side, v[a], v[k]));
        } else {
            assert(better(side, v[k], v[a]));
        }
    }
    assert forall|q: u64| rest.contains(q) implies w.contains(q) by {
        assert(v.contains(q));
        let a = choose|a: int| 0 <= a < v.len() && v[a] == q;
        if a < k {
            assert(w[a] == q);
        } else {
            assert(w[a - 1] == q);
        }
    }
}

/// The open quantity of the listed levels is that of the level at place
/// `k` and that of the others.
pub proof fn lemma_open_within_split(
    orders: Map<u64, LimitOrder>,
    levels: Map<u64, Level>,
    prices: Seq<u64>,
    maker: Side,
    limit: Option<u64>,
    k: int,
)
    requires
        0 <= k < prices.len(),
    ensures
        open_within(orders, levels, prices, maker, limit) == open_within(
            orders,
            levels,
            prices.remove(k),
            maker,
            limit,
        ) + level_open(orders, levels, maker, limit, prices[k]),
    decreases prices.len(),
{
    if k == prices.len() - 1 {
        assert(prices.remove(k) =~= prices.drop_last());
    } else {
        lemma_open_within_split(orders, levels, prices.drop_last(), maker, limit, k);
        assert(prices.remove(k).drop_last() =~= prices.drop_last().remove(k));
        assert(prices.remove(k).last() == prices.last());
        assert(prices.drop_last()[k] == prices[k]);
    }
}

/// The open quantity of a side is that of the level at a price and that of
/// the side without the price.
pub proof fn lemma_side_open_split(
    orders: Map<u64, LimitOrder>,
    levels: Map<u64, Level>,
    s: Set<u64>,
    side: Side,
    p: u64,
)
    requires
        s.finite(),
        s.contains(p),
    ensures
        open_within(orders, levels, ordered(s, side), side, None) == open_within(
            orders,
            levels,
            ordered(s.remove(p), side),
            side,
            None,
        ) + level_open(orders, levels, side, None, p),
        open_within(orders, levels, ordered(s.remove(p), side), side, None) >= 0,
        level_open(orders, levels, side, None, p) >= 0,
{
    lemma_ordered_lists(s, side);
    let v = ordered(s, side);
    assert(v.contains(p));
    let k = choose|k: int| 0 <= k < v.len() && v[k] == p;
    lemma_listing_without(v, s, side, k);
    lemma_ordered_lists(s.remove(p), side);
    lemma_lists_best_first_unique(ordered(s.remove(p), side), v.remove(k), s.remove(p), side);
    lemma_open_within_split(orders, levels, v, side, None, k);
    lemma_open_within_prefix(orders, levels, v.remove(k), side, None, 0);
    if levels.contains_key(p) {
        lemma_queue_open_bounds(orders, levels[p].ids);
    }
}

/// The open quantity of a side after the level at one price changed, while
/// the other levels and the records of their orders stayed: what it was,
/// less what the level was open for, and what the level is open for now.
pub proof fn lemma_side_open_update(
    a: Map<u64, LimitOrder>,
    old: SideState,
    b: Map<u64, LimitOrder>,
    new: SideState,
    p: u64,
)
    requires
        old.prices.finite(),
        new.prices.finite(),
        old.side == new.side,
        old.prices.remove(p) == new.prices.remove(p),
        forall|q: u64|
            q != p && old.prices.contains(q) ==> #[trigger] level_open(
                a,
                old.levels,
                old.side,
                None,
                q,
            ) == level_open(b, new.levels, old.side, None, q),
    ensures
        side_open(b, new) == side_open(a, old) - (if old.prices.contains(p) {
            level_open(a, old.levels, old.side, None, p)
        } else {
            0
        }) + (if new.prices.contains(p) {
            level_open(b, new.levels, old.side, None, p)
        } else {
            0
        }),
{
    let side = old.side;
    let rest = old.prices.remove(p);
    let v = ordered(rest, side);
    lemma_ordered_lists(rest, side);
    assert forall|i: int| 0 <= i < v.len() implies level_open(
        a,
        old.levels,
        side,
        None,
        #[trigger] v[i],
    ) == level_open(b, new.levels, side, None, v[i]) by {
        assert(rest.contains(v[i]));
    }
    lemma_open_within_frame(a, old.levels, b, new.levels, v, side, None);
    if old.prices.contains(p) {
        lemma_side_open_split(a, old.levels, old.prices, side, p);
    } else {
        assert(old.prices.remove(p) =~= old.prices);
    }
    if new.prices.contains(p) {
        lemma_side_open_split(b, new.levels, new.prices, side, p);
    } else {
        assert(new.prices.remove(p) =~= new.prices);
    }
}

/// The open quantity of a side is nothing negative, and no level is open
/// for more.
pub proof fn lemma_side_open_bounds(orders: Map<u64, LimitOrder>, side: SideState, p: u64)
    requires
        side.prices.finite(),
    ensures
        side_open(orders, side) >= 0,
        side.prices.contains(p) ==> 0 <= level_open(orders, side.levels, side.side, None, p)
            <= side_open(orders, side),
{
    lemma_open_within_prefix(
        orders,
        side.levels,
        ordered(side.prices, side.side),
        side.side,
        None,
        0,
    );
    if side.prices.contains(p) {
        lemma_side_open_split(orders, side.levels, side.prices, side.side, p);
    }
}

/// The open quantity of a side depends on the records of its own orders
/// only.
pub proof fn lemma_side_open_frame(a: Map<u64, LimitOrder>, b: Map<u64, LimitOrder>,
    side: SideState)
    requires
        forall|p: u64, i: int|
            #![trigger side.levels[p].ids[i]]
            side.levels.contains_key(p) && 0 <= i < side.levels[p].ids.len() ==> open_of(
                a,
                side.levels[p].ids[i],
            ) == open_of(b, side.levels[p].ids[i]),
    ensures
        side_open(a, side) == side_open(b, side),
        levels_exact(a, side.levels) ==> levels_exact(b, side.levels),
{
    let v = ordered(side.prices, side.side);
    assert forall|p: u64| #[trigger] side.levels.contains_key(p) implies queue_open(
        a,
        side.levels[p].ids,
    ) == queue_open(b, side.levels[p].ids) by {
        let ids = side.levels[p].ids;
        assert forall|i: int| 0 <= i < ids.len() implies open_of(a, #[trigger] ids[i]) == open_of(
            b,
            ids[i],
        ) by {
            assert(ids[i] == side.levels[p].ids[i]);
        }
        lemma_queue_open_frame(a, b, ids);
    }
    assert forall|i: int| 0 <= i < v.len() implies level_open(
        a,
        side.levels,
        side.side,
        None,
        #[trigger] v[i],
    ) == level_open(b, side.levels, side.side, None, v[i]) by {}
    lemma_open_within_frame(a, side.levels, b, side.levels, v, side.side, None);
}

/// What holds of the volumes of a matching run while the queue of a
/// level is detached: the attached levels, the detached queue and the
/// other side are counted with the open quantities of their orders, and
/// the side with those of the attached levels and of the detached queue.
pub open spec fn run_exact(m: Matching, other: SideState) -> bool {
    &&& levels_exact(m.orders, m.side.levels)
    &&& m.queue.volume == queue_open(m.orders, m.queue.ids)
    &&& m.side.volume == side_open(m.orders, m.side) + queue_open(m.orders, m.queue.ids)
    &&& volumes_exact(m.orders, other)
}

/// The records of the orders in the attached levels and on the other side
/// stay when the record of the head of the detached queue changes or goes.
proof fn lemma_head_frame(
    m: Matching,
    price: u64,
    which: Side,
    other: SideState,
    after: Map<u64, LimitOrder>,
)
    requires
        run_ok(m, price, which),
        side_ok(m.orders, other, which.opposite()),
        m.queue.ids.len() > 0,
        m.orders.contains_key(m.queue.ids[0]),
        forall|x: u64| x != m.queue.ids[0] ==> open_of(after, x) == open_of(m.orders, x),
    ensures
        side_open(after, m.side) == side_open(m.orders, m.side),
        levels_exact(m.orders, m.side.levels) ==> levels_exact(after, m.side.levels),
        side_open(after, other) == side_open(m.orders, other),
        levels_exact(m.orders, other.levels) ==> levels_exact(after, other.levels),
        queue_open(after, m.queue.ids.drop_first()) == queue_open(
            m.orders,
            m.queue.ids.drop_first(),
        ),
{
    let id = m.queue.ids[0];
    let whole = settle(m, price);
    assert(whole.levels.contains_key(price));
    assert(whole.levels[price].ids[0] == id);
    assert(m.orders[id].side == which && m.orders[id].price.0 == price);
    assert forall|p: u64, i: int|
        #![trigger m.side.levels[p].ids[i]]
        m.side.levels.contains_key(p) && 0 <= i < m.side.levels[p].ids.len() implies open_of(
        m.orders,
        m.side.levels[p].ids[i],
    ) == open_of(after, m.side.levels[p].ids[i]) by {
        assert(p != price);
        assert(whole.levels[p].ids[i] == m.side.levels[p].ids[i]);
        assert(m.orders[whole.levels[p].ids[i]].price.0 == p);
    }
    lemma_side_open_frame(m.orders, after, m.side);
    assert forall|p: u64, i: int|
        #![trigger other.levels[p].ids[i]]
        other.levels.contains_key(p) && 0 <= i < other.levels[p].ids.len() implies open_of(
        m.orders,
        other.levels[p].ids[i],
    ) == open_of(after, other.levels[p].ids[i]) by {
        assert(m.orders[other.levels[p].ids[i]].side == which.opposite());
    }
    lemma_side_open_frame(m.orders, after, other);
    let rest = m.queue.ids.drop_first();
    assert forall|i: int| 0 <= i < rest.len() implies open_of(m.orders, #[trigger] rest[i])
        == open_of(after, rest[i]) by {
        assert(rest[i] == m.queue.ids[i + 1]);
        assert(m.queue.ids[i + 1] != m.queue.ids[0]);
    }
    lemma_queue_open_frame(m.orders, after, rest);
}

/// Filling the head of the queue in full keeps the volumes exact.
pub proof fn lemma_full_fill_exact(m: Matching, price: u64, which: Side, next: u64,
    other: SideState)
    requires
        run_ok(m, price, which),
        orders_ok(m.orders, next),
        side_ok(m.orders, other, which.opposite()),
        run_exact(m, other),
        m.queue.ids.len() > 0,
    ensures
        run_exact(after_full(m, price), other),
{
    lemma_full_fill_ok(m, price, which, next, other);
    let id = m.queue.ids[0];
    let n = after_full(m, price);
    let rest = m.queue.ids.drop_first();
    lemma_head_frame(m, price, which, other, n.orders);
    lemma_queue_open_head(m.orders, m.queue.ids);
    lemma_queue_open_bounds(m.orders, rest);
    lemma_side_open_bounds(m.orders, m.side, price);
    assert(n.side.levels =~= m.side.levels);
    assert(side_open(n.orders, n.side) == side_open(n.orders, m.side)) by {
        assert(m.side.prices.contains(price));
        assert(side_ok(m.orders, settle(m, price), which));
        assert(m.side.prices.finite());
        lemma_side_open_update(n.orders, m.side, n.orders, n.side, price);
    }
}

/// Filling the head of the queue in part keeps the volumes exact.
pub proof fn lemma_part_fill_exact(m: Matching, price: u64, which: Side, next: u64,
    other: SideState)
    requires
        run_ok(m, price, which),
        orders_ok(m.orders, next),
        side_ok(m.orders, other, which.opposite()),
        run_exact(m, other),
        m.queue.ids.len() > 0,
        m.orders.contains_key(m.queue.ids[0]),
        0 < m.left < m.orders[m.queue.ids[0]].remaining(),
    ensures
        run_exact(after_part(m), other),
{
    let id = m.queue.ids[0];
    let n = after_part(m);
    let rest = m.queue.ids.drop_first();
    lemma_head_frame(m, price, which, other, n.orders);
    lemma_queue_open_head(m.orders, m.queue.ids);
    lemma_queue_open_head(n.orders, m.queue.ids);
    lemma_queue_open_bounds(m.orders, rest);
    assert(side_ok(m.orders, settle(m, price), which));
    lemma_side_open_bounds(m.orders, m.side, price);
    assert(side_open(n.orders, n.side) == side_open(n.orders, m.side));
}

/// A run on a queue keeps the volumes exact.
pub proof fn lemma_consume_exact(m: Matching, price: u64, which: Side, next: u64, other: SideState)
    requires
        run_ok(m, price, which),
        orders_ok(m.orders, next),
        side_ok(m.orders, other, which.opposite()),
        run_exact(m, other),
    ensures
        run_exact(consume(m, price), other),
    decreases m.queue.ids.len(),
{
    if m.left == 0 || m.queue.ids.len() == 0 {
    } else {
        let id = m.queue.ids[0];
        lemma_full_fill_ok(m, price, which, next, other);
        let o = m.orders[id];
        if m.left < o.remaining() {
            lemma_part_fill_exact(m, price, which, next, other);
        } else {
            lemma_full_fill_exact(m, price, which, next, other);
            lemma_consume_exact(after_full(m, price), price, which, next, other);
        }
    }
}

/// A run on a level keeps the volumes exact.
pub proof fn lemma_match_level_exact(m: Matched, price: u64, which: Side, next: u64,
    other: SideState)
    requires
        side_ok(m.orders, m.side, which),
        orders_ok(m.orders, next),
        side_ok(m.orders, other, which.opposite()),
        volumes_exact(m.orders, m.side),
        volumes_exact(m.orders, other),
        m.side.levels.contains_key(price),
    ensures
        volumes_exact(match_level(m, price).orders, match_level(m, price).side),
        volumes_exact(match_level(m, price).orders, other),
{
    let start = Matching {
        orders: m.orders,
        side: m.side.detach(price),
        queue: m.side.levels[price],
        left: m.left,
        fills: m.fills,
    };
    assert(settle(start, price).levels =~= m.side.levels);
    assert(settle(start, price) == m.side);
    assert(m.side.prices.contains(price));
    lemma_side_open_update(m.orders, m.side, m.orders, start.side, price);
    lemma_consume_ok(start, price, which, next, other);
    lemma_consume_exact(start, price, which, next, other);
    let c = consume(start, price);
    let after = settle(c, price);
    assert(side_ok(c.orders, after, which));
    if c.queue.ids.len() > 0 {
        lemma_side_open_update(c.orders, c.side, c.orders, after, price);
    } else {
        assert(queue_open(c.orders, c.queue.ids) == 0);
    }
}

/// A run on a side keeps the volumes of both sides exact.
pub proof fn lemma_match_levels_exact(
    m: Matched,
    limit: Option<u64>,
    which: Side,
    next: u64,
    other: SideState,
)
    requires
        side_ok(m.orders, m.side, which),
        orders_ok(m.orders, next),
        side_ok(m.orders, other, which.opposite()),
        volumes_exact(m.orders, m.side),
        volumes_exact(m.orders, other),
    ensures
        volumes_exact(match_levels(m, limit, which).orders, match_levels(m, limit, which).side),
        volumes_exact(match_levels(m, limit, which).orders, other),
    decreases m.left,
{
    if m.left == 0 {
    } else {
        lemma_best_of_some(m.side.prices, m.side.side);
        match m.side.best() {
            None => {},
            Some(p) => {
                if !within_limit(which, p, limit) {
                } else {
                    assert(m.side.levels.contains_key(p));
                    lemma_match_level_ok(m, p, which, next, other);
                    lemma_match_level_exact(m, p, which, next, other);
                    lemma_match_levels_exact(match_level(m, p), limit, which, next, other);
                }
            },
        }
    }
}

/// The open quantity of a queue is that of the order at place `k` and
/// that of the others.
pub proof fn lemma_queue_open_split(orders: Map<u64, LimitOrder>, ids: Seq<u64>, k: int)
    requires
        0 <= k < ids.len(),
    ensures
        queue_open(orders, ids) == queue_open(orders, ids.remove(k)) + open_of(orders, ids[k]),
    decreases ids.len(),
{
    if k == ids.len() - 1 {
        assert(ids.remove(k) =~= ids.drop_last());
    } else {
        lemma_queue_open_split(orders, ids.drop_last(), k);
        assert(ids.remove(k).drop_last() =~= ids.drop_last().remove(k));
        assert(ids.remove(k).last() == ids.last());
        assert(ids.drop_last()[k] == ids[k]);
    }
}

/// The volumes stay exact when a new order comes to rest, as long as the
/// open quantity of its side fits the counter.
pub proof fn lemma_append_exact(
    orders: Map<u64, LimitOrder>,
    side: SideState,
    which: Side,
    other: SideState,
    id: u64,
    order: LimitOrder,
    next: u64,
)
    requires
        side_ok(orders, side, which),
        side_ok(orders, other, which.opposite()),
        orders_ok(orders, next),
        id >= next,
        order.side == which,
        volumes_exact(orders, side),
        volumes_exact(orders, other),
        side_open(
            orders.insert(id, order),
            side.append(id, order.remaining(), order.price.0),
        ) <= u64::MAX,
    ensures
        volumes_exact(
            orders.insert(id, order),
            side.append(id, order.remaining(), order.price.0),
        ),
        volumes_exact(orders.insert(id, order), other),
{
    let price = order.price.0;
    let open = order.remaining();
    let index = orders.insert(id, order);
    let after = side.append(id, open, price);
    assert(!orders.contains_key(id));
    assert forall|p: u64, i: int|
        #![trigger side.levels[p].ids[i]]
        side.levels.contains_key(p) && 0 <= i < side.levels[p].ids.len() implies open_of(
        orders,
        side.levels[p].ids[i],
    ) == open_of(index, side.levels[p].ids[i]) by {
        assert(orders.contains_key(side.levels[p].ids[i]));
    }
    lemma_side_open_frame(orders, index, side);
    assert forall|p: u64, i: int|
        #![trigger other.levels[p].ids[i]]
        other.levels.contains_key(p) && 0 <= i < other.levels[p].ids.len() implies open_of(
        orders,
        other.levels[p].ids[i],
    ) == open_of(index, other.levels[p].ids[i]) by {
        assert(orders.contains_key(other.levels[p].ids[i]));
    }
    lemma_side_open_frame(orders, index, other);
    let new_ids = after.levels[price].ids;
    assert(new_ids.len() > 0);
    assert(new_ids.last() == id);
    assert(open_of(index, id) == open);
    if side.levels.contains_key(price) {
        assert(new_ids.drop_last() =~= side.levels[price].ids);
        assert(queue_open(index, new_ids) == queue_open(index, side.levels[price].ids) + open);
    } else {
        assert(new_ids.drop_last() =~= Seq::<u64>::empty());
        assert(queue_open(index, new_ids.drop_last()) == 0);
        assert(queue_open(index, new_ids) == open);
    }
    assert(after.prices.remove(price) =~= side.prices.remove(price));
    lemma_side_open_update(index, side, index, after, price);
    lemma_side_open_bounds(index, side, price);
    lemma_side_open_bounds(index, after, price);
    assert(levels_exact(index, after.levels)) by {
        assert forall|p: u64| #[trigger] after.levels.contains_key(p) implies after.levels[p].volume
            == queue_open(index, after.levels[p].ids) by {
            if p != price {
                assert(side.levels.contains_key(p));
            }
        }
    }
}

/// The volumes stay exact when a resting order leaves.
pub proof fn lemma_side_without_exact(
    orders: Map<u64, LimitOrder>,
    side: SideState,
    which: Side,
    other: SideState,
    id: u64,
)
    requires
        side_ok(orders, side, which),
        side_ok(orders, other, which.opposite()),
        orders.contains_key(id),
        orders[id].side == which,
        volumes_exact(orders, side),
        volumes_exact(orders, other),
    ensures
        volumes_exact(orders.remove(id), BookState::side_without(side, orders[id], id)),
        volumes_exact(orders.remove(id), other),
{
    let o = orders[id];
    let price = o.price.0;
    let open = o.remaining();
    let index = orders.remove(id);
    let after = BookState::side_without(side, o, id);
    lemma_side_without_ok(orders, side, which, other, id);
    assert(side.levels.contains_key(price));
    let old_ids = side.levels[price].ids;
    lemma_without_ok(old_ids, id);
    lemma_position(old_ids, id);
    let k = position(old_ids, id);
    let new_ids = without(old_ids, id);
    lemma_queue_open_split(orders, old_ids, k);
    assert forall|i: int| 0 <= i < new_ids.len() implies open_of(orders, #[trigger] new_ids[i])
        == open_of(index, new_ids[i]) by {
        assert(new_ids.contains(new_ids[i]));
    }
    lemma_queue_open_frame(orders, index, new_ids);
    lemma_queue_open_bounds(index, new_ids);
    assert forall|p: u64, i: int|
        #![trigger other.levels[p].ids[i]]
        other.levels.contains_key(p) && 0 <= i < other.levels[p].ids.len() implies open_of(
        orders,
        other.levels[p].ids[i],
    ) == open_of(index, other.levels[p].ids[i]) by {
        assert(orders[other.levels[p].ids[i]].side == which.opposite());
    }
    lemma_side_open_frame(orders, index, other);
    assert forall|q: u64|
        q != price && side.prices.contains(q) implies #[trigger] level_open(
        orders,
        side.levels,
        side.side,
        None,
        q,
    ) == level_open(index, after.levels, side.side, None, q) by {
        assert(side.levels.contains_key(q));
        assert(after.levels.contains_key(q) && after.levels[q] == side.levels[q]);
        let ids = side.levels[q].ids;
        assert forall|i: int| 0 <= i < ids.len() implies open_of(orders, #[trigger] ids[i])
            == open_of(index, ids[i]) by {
            assert(orders[side.levels[q].ids[i]].price.0 == q);
        }
        lemma_queue_open_frame(orders, index, ids);
    }
    assert(after.prices.remove(price) =~= side.prices.remove(price));
    lemma_side_open_update(orders, side, index, after, price);
    lemma_side_open_bounds(orders, side, price);
    assert(levels_exact(index, after.levels)) by {
        assert forall|p: u64| #[trigger] after.levels.contains_key(p) implies after.levels[p].volume
            == queue_open(index, after.levels[p].ids) by {
            if p != price {
                assert(side.levels.contains_key(p));
                assert(level_open(orders, side.levels, side.side, None, p) == level_open(
                    index,
                    after.levels,
                    side.side,
                    None,
                    p,
                ));
            }
        }
    }
}

impl BookState {
    /// Whether both sides and each of their levels are counted with the
    /// open quantity of their orders.
    pub open spec fn volumes_exact(self) -> bool {
        volumes_exact(self.orders, self.bids) && volumes_exact(self.orders, self.asks)
    }

    /// Whether the open quantity of each side fits the counter.
    pub open spec fn volumes_fit(self) -> bool {
        side_open(self.orders, self.bids) <= u64::MAX && side_open(self.orders, self.asks)
            <= u64::MAX
    }
}

/// The volumes of both sides, whichever of them is named first.
pub proof fn lemma_exact_sides(s: BookState, which: Side)
    requires
        s.volumes_exact(),
    ensures
        volumes_exact(s.orders, s.side(which)),
        volumes_exact(s.orders, s.side(which.opposite())),
{
}

/// An empty book has exact volumes.
pub proof fn lemma_empty_exact(symbol: Seq<char>, journaling: bool)
    ensures
        BookState::empty(symbol, journaling).volumes_exact(),
{
    let s = BookState::empty(symbol, journaling);
    lemma_ordered_lists(s.bids.prices, Side::Buy);
    lemma_ordered_lists(s.asks.prices, Side::Sell);
    let b = ordered(s.bids.prices, Side::Buy);
    let a = ordered(s.asks.prices, Side::Sell);
    if b.len() > 0 {
        assert(s.bids.prices.contains(b[0]));
    }
    if a.len() > 0 {
        assert(s.asks.prices.contains(a[0]));
    }
}

/// A market order keeps the volumes exact.
pub proof fn lemma_market_exact(s: BookState, options: MarketOrderOptions, ts: i64)
    requires
        s.wf(),
        s.volumes_exact(),
    ensures
        s.market(options, ts).state.volumes_exact(),
{
    if s.market_rejection(options) is None {
        let maker = options.side.opposite();
        lemma_sides(s, maker);
        lemma_exact_sides(s, maker);
        let start = Matched {
            orders: s.orders,
            side: s.side(maker),
            left: options.quantity.0,
            fills: Seq::empty(),
        };
        lemma_match_levels_exact(start, None, maker, s.next_order_id, s.side(options.side));
    }
}

/// A limit order keeps the volumes exact, as long as the open quantity of
/// its side fits the counter afterwards.
pub proof fn lemma_limit_exact(s: BookState, options: LimitOrderOptions, ts: i64)
    requires
        s.wf(),
        s.volumes_exact(),
        s.limit(options, ts).state.volumes_fit(),
    ensures
        s.limit(options, ts).state.volumes_exact(),
{
    if s.limit_rejection(options) is None {
        let maker = options.side.opposite();
        let id = s.next_order_id;
        lemma_sides(s, maker);
        lemma_exact_sides(s, maker);
        let start = Matched {
            orders: s.orders,
            side: s.side(maker),
            left: options.quantity.0,
            fills: Seq::empty(),
        };
        lemma_match_levels_ok(start, Some(options.price.0), maker, id, s.side(options.side));
        lemma_match_levels_exact(start, Some(options.price.0), maker, id, s.side(options.side));
        let m = s.matched(options.side, options.quantity.0, Some(options.price.0));
        let t = s.limit(options, ts).state;
        let order = BookState::limit_record(id, options, m.left, ts);
        let rests = m.left > 0 && options.tif() != TimeInForce::IOC;
        if rests {
            assert(order.remaining() == m.left);
            assert(t.side(options.side) == s.side(options.side).append(
                id,
                m.left,
                options.price.0,
            ));
            assert(t.side(maker) == m.side);
            lemma_append_exact(
                m.orders,
                s.side(options.side),
                options.side,
                m.side,
                id,
                order,
                id,
            );
        }
    }
}

/// A cancellation keeps the volumes exact.
pub proof fn lemma_cancel_exact(s: BookState, id: u64, ts: i64)
    requires
        s.wf(),
        s.volumes_exact(),
    ensures
        s.cancel(id, ts).state.volumes_exact(),
{
    if s.orders.contains_key(id) {
        let o = s.orders[id];
        lemma_sides(s, o.side);
        lemma_exact_sides(s, o.side);
        lemma_side_without_exact(s.orders, s.side(o.side), o.side, s.side(o.side.opposite()), id);
    }
}

/// A replacement keeps the volumes exact, as long as the open quantity of
/// each side fits the counter afterwards.
pub proof fn lemma_modify_exact(
    s: BookState,
    id: u64,
    price: Option<Price>,
    quantity: Option<Quantity>,
    ts: i64,
)
    requires
        s.wf(),
        s.volumes_exact(),
        s.modify(id, price, quantity, ts).state.volumes_fit(),
    ensures
        s.modify(id, price, quantity, ts).state.volumes_exact(),
{
    if s.orders.contains_key(id) && !(price is None && quantity is None) {
        let quiet = BookState { journaling: false, ..s };
        assert(quiet.wf());
        assert(quiet.volumes_exact());
        lemma_cancel_wf(quiet, id, ts);
        lemma_cancel_exact(quiet, id, ts);
        let cancelled = quiet.cancel(id, ts).state;
        let options = BookState::replacement(s.orders[id], price, quantity);
        let entered = cancelled.limit(options, ts);
        assert(entered.state.volumes_fit());
        lemma_limit_exact(cancelled, options, ts);
    }
}

/// Every command keeps the volumes exact, as long as the open quantity of
/// each side fits the counter afterwards.
pub proof fn lemma_apply_exact(s: BookState, o: OrderOptions, ts: i64)
    requires
        s.wf(),
        s.volumes_exact(),
        s.apply(o, ts).state.volumes_fit(),
    ensures
        s.apply(o, ts).state.volumes_exact(),
{
    match o {
        OrderOptions::Market(options) => lemma_market_exact(s, options, ts),
        OrderOptions::Limit(options) => lemma_limit_exact(s, options, ts),
        OrderOptions::Cancel(id) => lemma_cancel_exact(s, id.0, ts),
        OrderOptions::Modify { id, price, quantity } => lemma_modify_exact(
            s,
            id.0,
            price,
            quantity,
            ts,
        ),
    }
}

/// Whether the open quantity of each side fits the counter after every
/// entry that a replay applies.
pub open spec fn replay_fits(state: BookState, logs: Seq<JournalLog>, stamps: Seq<i64>) -> bool
    decreases logs.len(),
{
    if logs.len() == 0 {
        true
    } else {
        let first = state.apply(logs[0].o, first_stamp(stamps));
        first.state.volumes_fit() && (first.result is Ok ==> replay_fits(
            first.state,
            logs.drop_first(),
            later_stamps(stamps),
        ))
    }
}

/// A replay into a well-formed book with exact volumes, with identifiers
/// left for every entry, ends in a well-formed book with exact volumes, as
/// long as the open quantity of each side fits the counter after every
/// entry that is applied.
pub proof fn lemma_replay_exact(state: BookState, logs: Seq<JournalLog>, stamps: Seq<i64>)
    requires
        state.wf(),
        state.volumes_exact(),
        state.next_order_id + logs.len() <= u64::MAX,
        replay_fits(state, logs, stamps),
    ensures
        replay(state, logs, stamps).state.wf(),
        replay(state, logs, stamps).state.volumes_exact(),
    decreases logs.len(),
{
    if logs.len() > 0 {
        let ts = first_stamp(stamps);
        lemma_apply_wf(state, logs[0].o, ts);
        lemma_apply_exact(state, logs[0].o, ts);
        lemma_apply_next_id(state, logs[0].o, ts);
        let first = state.apply(logs[0].o, ts);
        if first.result is Ok {
            lemma_replay_exact(first.state, logs.drop_first(), later_stamps(stamps));
        }
    }
}

} // verus!

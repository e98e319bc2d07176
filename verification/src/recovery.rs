//! What a snapshot gives back: the proof that restoring the snapshot of a
//! book rebuilds the book.

use crate::enums::Side;
use crate::integrity::side_ok;
use crate::liquidity::{lemma_open_within_prefix, lemma_ordered_lists, lemma_queue_open_bounds};
use crate::model::{
    ascending_levels, listed_levels, open_of, open_within, queue_open, restore_queue, restore_side,
    BookState,
};
use crate::order::LimitOrder;
use crate::order_queue::Level;
use crate::order_side::{better, lemma_lists_best_first_unique, ordered, SideState};
use crate::volumes::{lemma_listing_without, lemma_open_within_split, side_open, volumes_exact};
use vstd::prelude::*;

verus! {

/// The open quantity of the first `j` orders of a queue is nothing
/// negative and no more than that of the queue.
pub proof fn lemma_queue_open_prefix(orders: Map<u64, LimitOrder>, ids: Seq<u64>, j: int)
    requires
        0 <= j <= ids.len(),
    ensures
        0 <= queue_open(orders, ids.take(j)) <= queue_open(orders, ids),
    decreases ids.len(),
{
    lemma_queue_open_bounds(orders, ids.take(j));
    if j == ids.len() {
        assert(ids.take(j) =~= ids);
    } else {
        lemma_queue_open_prefix(orders, ids.drop_last(), j);
        assert(ids.drop_last().take(j) =~= ids.take(j));
    }
}

/// A side as it stands while it is built anew from its listing: the first
/// `k` levels are there in full, and of the level after them the first `j`
/// orders.
pub open spec fn rebuilt(
    orders: Map<u64, LimitOrder>,
    side: SideState,
    v: Seq<u64>,
    k: int,
    j: int,
) -> SideState {
    SideState {
        side: side.side,
        prices: Set::new(
            |q: u64| (exists|i: int| 0 <= i < k && v[i] == q) || (j > 0 && k < v.len() && q
                == v[k]),
        ),
        levels: Map::new(
            |q: u64| (exists|i: int| 0 <= i < k && v[i] == q) || (j > 0 && k < v.len() && q
                == v[k]),
            |q: u64|
                if j > 0 && k < v.len() && q == v[k] {
                    Level {
                        ids: side.levels[q].ids.take(j),
                        volume: queue_open(orders, side.levels[q].ids.take(j)) as u64,
                    }
                } else {
                    side.levels[q]
                },
        ),
        volume: (open_within(orders, side.levels, v.take(k), side.side, None) + (if j > 0 && k
            < v.len() {
            queue_open(orders, side.levels[v[k]].ids.take(j))
        } else {
            0
        })) as u64,
    }
}

/// The open quantity of the levels of a set of prices is the same
/// whichever way the prices are listed.
pub proof fn lemma_open_within_listings(
    orders: Map<u64, LimitOrder>,
    levels: Map<u64, Level>,
    s: Set<u64>,
    a: Side,
    b: Side,
    maker: Side,
)
    requires
        s.finite(),
    ensures
        open_within(orders, levels, ordered(s, a), maker, None) == open_within(
            orders,
            levels,
            ordered(s, b),
            maker,
            None,
        ),
    decreases s.len(),
{
    lemma_ordered_lists(s, a);
    lemma_ordered_lists(s, b);
    let v = ordered(s, a);
    let w = ordered(s, b);
    if v.len() == 0 {
        if w.len() > 0 {
            assert(s.contains(w[0]));
            assert(v.contains(w[0]));
        }
    } else {
        let p = v[0];
        assert(s.contains(p));
        assert(w.contains(p));
        let k = choose|k: int| 0 <= k < w.len() && w[k] == p;
        lemma_listing_without(v, s, a, 0);
        lemma_listing_without(w, s, b, k);
        lemma_ordered_lists(s.remove(p), a);
        lemma_ordered_lists(s.remove(p), b);
        lemma_lists_best_first_unique(ordered(s.remove(p), a), v.remove(0), s.remove(p), a);
        lemma_lists_best_first_unique(ordered(s.remove(p), b), w.remove(k), s.remove(p), b);
        lemma_open_within_split(orders, levels, v, maker, None, 0);
        lemma_open_within_split(orders, levels, w, maker, None, k);
        lemma_open_within_listings(orders, levels, s.remove(p), a, b, maker);
    }
}

/// The open quantity of a side is that of its levels listed by ascending
/// price.
pub proof fn lemma_side_open_ascending(orders: Map<u64, LimitOrder>, side: SideState)
    requires
        side.prices.finite(),
    ensures
        side_open(orders, side) == open_within(
            orders,
            side.levels,
            ordered(side.prices, Side::Sell),
            side.side,
            None,
        ),
{
    lemma_open_within_listings(
        orders,
        side.levels,
        side.prices,
        side.side,
        Side::Sell,
        side.side,
    );
}

/// Appending the first `j` orders of the level at place `k`, by ascending
/// price, to a side that holds the levels before it gives the side that
/// holds those and the first `j` orders of the level.
pub proof fn lemma_restore_queue(
    orders: Map<u64, LimitOrder>,
    side: SideState,
    which: Side,
    k: int,
    j: int,
)
    requires
        side_ok(orders, side, which),
        volumes_exact(orders, side),
        0 <= k < ordered(side.prices, Side::Sell).len(),
        0 <= j <= side.levels[ordered(side.prices, Side::Sell)[k]].ids.len(),
    ensures
        restore_queue(
            rebuilt(orders, side, ordered(side.prices, Side::Sell), k, 0),
            orders,
            ordered(side.prices, Side::Sell)[k],
            side.levels[ordered(side.prices, Side::Sell)[k]].ids.take(j),
        ) == rebuilt(orders, side, ordered(side.prices, Side::Sell), k, j),
    decreases j,
{
    let v = ordered(side.prices, Side::Sell);
    lemma_ordered_lists(side.prices, Side::Sell);
    lemma_side_open_ascending(orders, side);
    let p = v[k];
    assert(side.prices.contains(p));
    assert(side.levels.contains_key(p));
    let ids = side.levels[p].ids;
    if j == 0 {
        assert(ids.take(0) =~= Seq::<u64>::empty());
    } else {
        lemma_restore_queue(orders, side, which, k, j - 1);
        let before = rebuilt(orders, side, v, k, j - 1);
        let id = ids[j - 1];
        assert(ids.take(j).drop_last() =~= ids.take(j - 1));
        assert(ids.take(j).last() == id);
        assert(orders.contains_key(side.levels[p].ids[j - 1]));
        let open = open_of(orders, id) as u64;
        let after = before.append(id, open, p);
        let goal = rebuilt(orders, side, v, k, j);
        lemma_queue_open_prefix(orders, ids, j);
        lemma_queue_open_prefix(orders, ids, j - 1);
        lemma_open_within_prefix(orders, side.levels, v, which, None, k);
        lemma_open_within_prefix(orders, side.levels, v, which, None, k + 1);
        assert(v.take(k + 1).drop_last() =~= v.take(k));
        assert(v.take(k + 1).last() == p);
        assert(open_within(orders, side.levels, v.take(k + 1), which, None) == open_within(
            orders,
            side.levels,
            v.take(k),
            which,
            None,
        ) + queue_open(orders, ids));
        assert(queue_open(orders, ids.take(j)) == queue_open(orders, ids.take(j - 1)) + open);
        assert forall|i: int| 0 <= i < k implies v[i] != p by {
            assert(better(Side::Sell, v[i], v[k]));
        }
        assert(after.prices =~= goal.prices);
        if j == 1 {
            assert(!before.levels.contains_key(p));
            assert(ids.take(1) =~= seq![id]);
            assert(queue_open(orders, ids.take(0)) == 0) by {
                assert(ids.take(0) =~= Seq::<u64>::empty());
            }
        } else {
            assert(before.levels.contains_key(p));
            assert(before.levels[p].ids.push(id) =~= ids.take(j));
        }
        assert(after.levels =~= goal.levels);
        assert(after.volume == goal.volume);
        assert(after == goal);
    }
}

/// Appending the first `k` levels of a side, by ascending price, to an
/// empty side gives the side that holds those levels.
pub proof fn lemma_restore_levels(
    orders: Map<u64, LimitOrder>,
    side: SideState,
    which: Side,
    k: int,
)
    requires
        side_ok(orders, side, which),
        volumes_exact(orders, side),
        0 <= k <= ordered(side.prices, Side::Sell).len(),
    ensures
        restore_side(
            SideState::empty(which),
            orders,
            ascending_levels(listed_levels(side)).take(k),
        ) == rebuilt(orders, side, ordered(side.prices, Side::Sell), k, 0),
    decreases k,
{
    let v = ordered(side.prices, Side::Sell);
    lemma_ordered_lists(side.prices, Side::Sell);
    assert(listed_levels(side).dom() =~= side.prices);
    let listed = ascending_levels(listed_levels(side));
    if k == 0 {
        let goal = rebuilt(orders, side, v, 0, 0);
        assert(listed.take(0) =~= Seq::<(u64, Seq<u64>)>::empty());
        assert(v.take(0) =~= Seq::<u64>::empty());
        assert(goal.prices =~= Set::<u64>::empty());
        assert(goal.levels =~= Map::<u64, Level>::empty());
        assert(goal == SideState::empty(which));
    } else {
        lemma_restore_levels(orders, side, which, k - 1);
        let p = v[k - 1];
        assert(side.prices.contains(p));
        assert(side.levels.contains_key(p));
        let ids = side.levels[p].ids;
        assert(listed.take(k).drop_last() =~= listed.take(k - 1));
        assert(listed.take(k).last() == (p, ids));
        lemma_restore_queue(orders, side, which, k - 1, ids.len() as int);
        assert(ids.take(ids.len() as int) =~= ids);
        let full = rebuilt(orders, side, v, k - 1, ids.len() as int);
        let goal = rebuilt(orders, side, v, k, 0);
        assert(v.take(k).drop_last() =~= v.take(k - 1));
        assert(v.take(k).last() == p);
        assert(full.prices =~= goal.prices);
        assert(full.levels =~= goal.levels);
        assert(full == goal);
    }
}

/// Building a side anew from its queues gives the side.
pub proof fn lemma_restore_side(orders: Map<u64, LimitOrder>, side: SideState, which: Side)
    requires
        side_ok(orders, side, which),
        volumes_exact(orders, side),
    ensures
        restore_side(SideState::empty(which), orders, ascending_levels(listed_levels(side)))
            == side,
{
    let v = ordered(side.prices, Side::Sell);
    lemma_ordered_lists(side.prices, Side::Sell);
    lemma_side_open_ascending(orders, side);
    assert(listed_levels(side).dom() =~= side.prices);
    let listed = ascending_levels(listed_levels(side));
    lemma_restore_levels(orders, side, which, v.len() as int);
    assert(listed.take(v.len() as int) =~= listed);
    assert(v.take(v.len() as int) =~= v);
    let goal = rebuilt(orders, side, v, v.len() as int, 0);
    assert(goal.prices =~= side.prices) by {
        assert forall|q: u64| side.prices.contains(q) implies goal.prices.contains(q) by {
            assert(v.contains(q));
        }
    }
    assert(goal.levels =~= side.levels);
    assert(goal == side);
}

/// Restoring the snapshot of a well-formed book with exact volumes gives
/// the book, under the label and the journaling flag of the book that it
/// is restored into.
pub proof fn lemma_restore_snapshot(s: BookState, t: BookState, ts: i64)
    requires
        s.wf(),
        s.volumes_exact(),
    ensures
        t.restore(s.snapshot(ts)) == (BookState {
            symbol: t.symbol,
            journaling: t.journaling,
            ..s
        }),
{
    lemma_restore_side(s.orders, s.bids, Side::Buy);
    lemma_restore_side(s.orders, s.asks, Side::Sell);
}

} // verus!

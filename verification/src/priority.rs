//! Time priority: what the commands do to the order of a queue.

use crate::enums::{OrderOptions, Side};
use crate::integrity::{
    lemma_best_of_some, lemma_cancel_wf, lemma_full_fill_ok, lemma_match_level_ok, lemma_sides,
    orders_ok, run_ok, side_ok,
};
use crate::model::{
    after_full, consume, match_level, match_levels, settle, within_limit, BookState, Matched,
    Matching,
};
use crate::order::{LimitOrder, LimitOrderOptions, MarketOrderOptions, Price, Quantity};
use crate::order_queue::{lemma_position, position, without, Level};
use crate::order_side::SideState;
use vstd::prelude::*;

verus! {

/// Whether `a` stands before `b` in a queue.
pub open spec fn before(ids: Seq<u64>, a: u64, b: u64) -> bool {
    exists|i: int, j: int| 0 <= i < j < ids.len() && ids[i] == a && ids[j] == b
}

/// Whether a queue keeps the order of an earlier one: of two orders that
/// stand in both, the one that stood before the other still does.
pub open spec fn keeps_order(old: Seq<u64>, new: Seq<u64>) -> bool {
    forall|a: u64, b: u64|
        #![trigger before(old, a, b)]
        before(old, a, b) && new.contains(a) && new.contains(b) ==> before(new, a, b)
}

/// Whether a queue is the rest of an earlier one from some place on.
pub open spec fn is_rest_of(old: Seq<u64>, new: Seq<u64>) -> bool {
    new.len() <= old.len() && new == old.skip(old.len() - new.len())
}

/// The rest of a queue keeps its order.
pub proof fn lemma_rest_keeps_order(old: Seq<u64>, new: Seq<u64>)
    requires
        old.no_duplicates(),
        is_rest_of(old, new),
    ensures
        keeps_order(old, new),
{
    let k = old.len() - new.len();
    assert forall|a: u64, b: u64|
        #![trigger before(old, a, b)]
        before(old, a, b) && new.contains(a) && new.contains(b) implies before(new, a, b) by {
        let (i, j) = choose|i: int, j: int| 0 <= i < j < old.len() && old[i] == a && old[j] == b;
        let x = choose|x: int| 0 <= x < new.len() && new[x] == a;
        let y = choose|y: int| 0 <= y < new.len() && new[y] == b;
        assert(new[x] == old[x + k]);
        assert(new[y] == old[y + k]);
        assert(x + k == i);
        assert(y + k == j);
    }
}

/// The rest of the rest of a queue is a rest of the queue.
pub proof fn lemma_rest_of_rest(a: Seq<u64>, b: Seq<u64>, c: Seq<u64>)
    requires
        is_rest_of(a, b),
        is_rest_of(b, c),
    ensures
        is_rest_of(a, c),
{
    assert(c =~= a.skip(a.len() - c.len()));
}

/// A queue without one of its orders keeps its order.
pub proof fn lemma_without_keeps_order(old: Seq<u64>, id: u64)
    requires
        old.no_duplicates(),
    ensures
        keeps_order(old, without(old, id)),
{
    let new = without(old, id);
    if old.contains(id) {
        lemma_position(old, id);
        let k = position(old, id);
        assert forall|a: u64, b: u64|
            #![trigger before(old, a, b)]
            before(old, a, b) && new.contains(a) && new.contains(b) implies before(new, a, b) by {
            let (i, j) = choose|i: int, j: int|
                0 <= i < j < old.len() && old[i] == a && old[j] == b;
            let x = choose|x: int| 0 <= x < new.len() && new[x] == a;
            let y = choose|y: int| 0 <= y < new.len() && new[y] == b;
            let xo = if x < k {
                x
            } else {
                x + 1
            };
            let yo = if y < k {
                y
            } else {
                y + 1
            };
            assert(new[x] == old[xo]);
            assert(new[y] == old[yo]);
            assert(xo == i);
            assert(yo == j);
        }
    }
}

/// A queue with one more order at its tail keeps its order.
pub proof fn lemma_push_keeps_order(old: Seq<u64>, id: u64)
    requires
        old.no_duplicates(),
        !old.contains(id),
    ensures
        keeps_order(old, old.push(id)),
{
    let new = old.push(id);
    assert forall|a: u64, b: u64|
        #![trigger before(old, a, b)]
        before(old, a, b) && new.contains(a) && new.contains(b) implies before(new, a, b) by {
        let (i, j) = choose|i: int, j: int| 0 <= i < j < old.len() && old[i] == a && old[j] == b;
        assert(new[i] == a && new[j] == b);
    }
}

/// Whether every queue of a side is the rest of the queue that an earlier
/// state of the side has at its price.
pub open spec fn levels_rest_of(old: Map<u64, Level>, new: Map<u64, Level>) -> bool {
    forall|p: u64| #[trigger]
        new.contains_key(p) ==> old.contains_key(p) && is_rest_of(old[p].ids, new[p].ids)
}

/// A run on a queue leaves a rest of the queue.
pub proof fn lemma_consume_rest(m: Matching, price: u64, which: Side, next: u64, other: SideState)
    requires
        run_ok(m, price, which),
        orders_ok(m.orders, next),
        side_ok(m.orders, other, which.opposite()),
    ensures
        is_rest_of(m.queue.ids, consume(m, price).queue.ids),
        consume(m, price).side.levels == m.side.levels,
    decreases m.queue.ids.len(),
{
    if m.left == 0 || m.queue.ids.len() == 0 {
        assert(m.queue.ids =~= m.queue.ids.skip(0));
    } else {
        let id = m.queue.ids[0];
        lemma_full_fill_ok(m, price, which, next, other);
        let o = m.orders[id];
        if m.left < o.remaining() {
            assert(m.queue.ids =~= m.queue.ids.skip(0));
            assert(consume(m, price).side.levels =~= m.side.levels);
        } else {
            let n = after_full(m, price);
            lemma_consume_rest(n, price, which, next, other);
            assert(n.queue.ids =~= m.queue.ids.skip(1));
            lemma_rest_of_rest(m.queue.ids, n.queue.ids, consume(n, price).queue.ids);
            assert(n.side.levels =~= m.side.levels);
        }
    }
}

/// A run on a side leaves of every queue a rest.
pub proof fn lemma_match_levels_rest(
    m: Matched,
    limit: Option<u64>,
    which: Side,
    next: u64,
    other: SideState,
)
    requires
        side_ok(m.orders, m.side, which),
        orders_ok(m.orders, next),
        side_ok(m.orders, other, which.opposite()),
    ensures
        levels_rest_of(m.side.levels, match_levels(m, limit, which).side.levels),
    decreases m.left,
{
    let end = match_levels(m, limit, which);
    if m.left == 0 {
        assert forall|p: u64| #[trigger] end.side.levels.contains_key(p) implies is_rest_of(
            m.side.levels[p].ids,
            end.side.levels[p].ids,
        ) by {
            assert(m.side.levels[p].ids =~= m.side.levels[p].ids.skip(0));
        }
    } else {
        lemma_best_of_some(m.side.prices, m.side.side);
        match m.side.best() {
            None => {
                assert forall|p: u64| #[trigger] end.side.levels.contains_key(p) implies is_rest_of(
                    m.side.levels[p].ids,
                    end.side.levels[p].ids,
                ) by {
                    assert(m.side.levels[p].ids =~= m.side.levels[p].ids.skip(0));
                }
            },
            Some(top) => {
                if !within_limit(which, top, limit) {
                    assert forall|p: u64| #[trigger]
                        end.side.levels.contains_key(p) implies is_rest_of(
                        m.side.levels[p].ids,
                        end.side.levels[p].ids,
                    ) by {
                        assert(m.side.levels[p].ids =~= m.side.levels[p].ids.skip(0));
                    }
                } else {
                    assert(m.side.levels.contains_key(top));
                    let start = Matching {
                        orders: m.orders,
                        side: m.side.detach(top),
                        queue: m.side.levels[top],
                        left: m.left,
                        fills: m.fills,
                    };
                    assert(settle(start, top).levels =~= m.side.levels);
                    assert(settle(start, top) == m.side);
                    lemma_consume_rest(start, top, which, next, other);
                    lemma_match_level_ok(m, top, which, next, other);
                    let after = match_level(m, top);
                    assert(levels_rest_of(m.side.levels, after.side.levels)) by {
                        assert forall|p: u64| #[trigger]
                            after.side.levels.contains_key(p) implies m.side.levels.contains_key(p)
                            && is_rest_of(m.side.levels[p].ids, after.side.levels[p].ids) by {
                            if p != top {
                                assert(after.side.levels[p] == m.side.levels[p]);
                                assert(m.side.levels[p].ids =~= m.side.levels[p].ids.skip(0));
                            }
                        }
                    }
                    lemma_match_levels_rest(after, limit, which, next, other);
                    assert forall|p: u64| #[trigger]
                        end.side.levels.contains_key(p) implies m.side.levels.contains_key(p)
                        && is_rest_of(m.side.levels[p].ids, end.side.levels[p].ids) by {
                        assert(after.side.levels.contains_key(p));
                        lemma_rest_of_rest(
                            m.side.levels[p].ids,
                            after.side.levels[p].ids,
                            end.side.levels[p].ids,
                        );
                    }
                }
            },
        }
    }
}

/// Whether every queue of a side keeps the order of the queue that an
/// earlier state of the side has at its price.
pub open spec fn side_keeps_order(old: SideState, new: SideState) -> bool {
    forall|p: u64|
        #![trigger new.levels[p]]
        old.levels.contains_key(p) && new.levels.contains_key(p) ==> keeps_order(
            old.levels[p].ids,
            new.levels[p].ids,
        )
}

/// Whether every queue of a book keeps the order of the queue that an
/// earlier state of the book has at its price on its side.
pub open spec fn book_keeps_order(old: BookState, new: BookState) -> bool {
    side_keeps_order(old.bids, new.bids) && side_keeps_order(old.asks, new.asks)
}

/// A side whose queues are rests of the earlier ones keeps their order.
pub proof fn lemma_rests_keep_order(orders: Map<u64, LimitOrder>, old: SideState, new: SideState,
    which: Side)
    requires
        side_ok(orders, old, which),
        levels_rest_of(old.levels, new.levels),
    ensures
        side_keeps_order(old, new),
{
    assert forall|p: u64|
        #![trigger new.levels[p]]
        old.levels.contains_key(p) && new.levels.contains_key(p) implies keeps_order(
        old.levels[p].ids,
        new.levels[p].ids,
    ) by {
        lemma_rest_keeps_order(old.levels[p].ids, new.levels[p].ids);
    }
}

/// A side keeps the order of its queues when a new order comes to rest.
pub proof fn lemma_append_keeps_order(
    orders: Map<u64, LimitOrder>,
    side: SideState,
    which: Side,
    id: u64,
    quantity: u64,
    price: u64,
    next: u64,
)
    requires
        side_ok(orders, side, which),
        orders_ok(orders, next),
        id >= next,
    ensures
        side_keeps_order(side, side.append(id, quantity, price)),
{
    let new = side.append(id, quantity, price);
    assert forall|p: u64|
        #![trigger new.levels[p]]
        side.levels.contains_key(p) && new.levels.contains_key(p) implies keeps_order(
        side.levels[p].ids,
        new.levels[p].ids,
    ) by {
        let old = side.levels[p].ids;
        if p == price {
            if old.contains(id) {
                let k = choose|k: int| 0 <= k < old.len() && old[k] == id;
                assert(orders.contains_key(side.levels[p].ids[k]));
            }
            lemma_push_keeps_order(old, id);
        } else {
            assert(old =~= old.skip(0));
            lemma_rest_keeps_order(old, old);
        }
    }
}

/// A side keeps the order of its queues when a resting order leaves.
pub proof fn lemma_side_without_keeps_order(
    orders: Map<u64, LimitOrder>,
    side: SideState,
    which: Side,
    id: u64,
)
    requires
        side_ok(orders, side, which),
        orders.contains_key(id),
        orders[id].side == which,
    ensures
        side_keeps_order(side, BookState::side_without(side, orders[id], id)),
{
    let new = BookState::side_without(side, orders[id], id);
    let price = orders[id].price.0;
    assert forall|p: u64|
        #![trigger new.levels[p]]
        side.levels.contains_key(p) && new.levels.contains_key(p) implies keeps_order(
        side.levels[p].ids,
        new.levels[p].ids,
    ) by {
        let old = side.levels[p].ids;
        if p == price {
            lemma_without_keeps_order(old, id);
        } else {
            assert(old =~= old.skip(0));
            lemma_rest_keeps_order(old, old);
        }
    }
}

/// A side that stays as it is keeps the order of its queues.
pub proof fn lemma_same_keeps_order(orders: Map<u64, LimitOrder>, side: SideState, which: Side)
    requires
        side_ok(orders, side, which),
    ensures
        side_keeps_order(side, side),
{
    assert forall|p: u64|
        #![trigger side.levels[p]]
        side.levels.contains_key(p) implies keeps_order(side.levels[p].ids, side.levels[p].ids) by {
        let old = side.levels[p].ids;
        assert(old =~= old.skip(0));
        lemma_rest_keeps_order(old, old);
    }
}

/// The run of an incoming order keeps the order of every queue of the
/// book.
pub proof fn lemma_matched_keeps_order(s: BookState, taker: Side, quantity: u64, limit: Option<u64>)
    requires
        s.wf(),
    ensures
        side_keeps_order(s.side(taker.opposite()), s.matched(taker, quantity, limit).side),
        levels_rest_of(
            s.side(taker.opposite()).levels,
            s.matched(taker, quantity, limit).side.levels,
        ),
{
    let maker = taker.opposite();
    lemma_sides(s, maker);
    let start = Matched { orders: s.orders, side: s.side(maker), left: quantity,
        fills: Seq::empty() };
    lemma_match_levels_rest(start, limit, maker, s.next_order_id, s.side(taker));
    lemma_rests_keep_order(s.orders, s.side(maker), s.matched(taker, quantity, limit).side, maker);
}

/// A market order keeps the order of every queue.
pub proof fn lemma_market_keeps_order(s: BookState, options: MarketOrderOptions,
    ts: i64)
    requires
        s.wf(),
    ensures
        book_keeps_order(s, s.market(options, ts).state),
{
    lemma_sides(s, options.side);
    lemma_same_keeps_order(s.orders, s.side(options.side), options.side);
    lemma_same_keeps_order(s.orders, s.side(options.side.opposite()), options.side.opposite());
    if s.market_rejection(options) is None {
        lemma_matched_keeps_order(s, options.side, options.quantity.0, None);
    }
}

/// A limit order keeps the order of every queue.
pub proof fn lemma_limit_keeps_order(s: BookState, options: LimitOrderOptions, ts: i64)
    requires
        s.wf(),
    ensures
        book_keeps_order(s, s.limit(options, ts).state),
{
    lemma_sides(s, options.side);
    lemma_same_keeps_order(s.orders, s.side(options.side), options.side);
    lemma_same_keeps_order(s.orders, s.side(options.side.opposite()), options.side.opposite());
    if s.limit_rejection(options) is None {
        lemma_matched_keeps_order(s, options.side, options.quantity.0, Some(options.price.0));
        let m = s.matched(options.side, options.quantity.0, Some(options.price.0));
        lemma_append_keeps_order(
            s.orders,
            s.side(options.side),
            options.side,
            s.next_order_id,
            m.left,
            options.price.0,
            s.next_order_id,
        );
    }
}

/// A cancellation keeps the order of every queue.
pub proof fn lemma_cancel_keeps_order(s: BookState, id: u64, ts: i64)
    requires
        s.wf(),
    ensures
        book_keeps_order(s, s.cancel(id, ts).state),
{
    lemma_sides(s, Side::Buy);
    lemma_same_keeps_order(s.orders, s.bids, Side::Buy);
    lemma_same_keeps_order(s.orders, s.asks, Side::Sell);
    if s.orders.contains_key(id) {
        let o = s.orders[id];
        lemma_sides(s, o.side);
        lemma_side_without_keeps_order(s.orders, s.side(o.side), o.side, id);
    }
}

/// Whether every order in a queue of the later side stood in the queue at
/// the same price of the earlier side, or has the identifier `fresh`.
pub open spec fn members_from(old: SideState, new: SideState, fresh: u64) -> bool {
    forall|p: u64, a: u64|
        #![trigger new.levels[p].ids.contains(a)]
        new.levels.contains_key(p) && new.levels[p].ids.contains(a) ==> a == fresh || (
        old.levels.contains_key(p) && old.levels[p].ids.contains(a))
}

/// After a limit order every queue holds orders from before and, at most,
/// the new order.
pub proof fn lemma_limit_members(s: BookState, options: LimitOrderOptions, ts: i64)
    requires
        s.wf(),
    ensures
        members_from(s.bids, s.limit(options, ts).state.bids, s.next_order_id),
        members_from(s.asks, s.limit(options, ts).state.asks, s.next_order_id),
{
    let t = s.limit(options, ts).state;
    let n = s.next_order_id;
    let maker = options.side.opposite();
    let own = options.side;
    if s.limit_rejection(options) is None {
        lemma_matched_keeps_order(s, own, options.quantity.0, Some(options.price.0));
        let m = s.matched(own, options.quantity.0, Some(options.price.0));
        assert(t.side(maker) == m.side);
        assert(members_from(s.side(maker), t.side(maker), n)) by {
            let old = s.side(maker);
            let new = t.side(maker);
            assert forall|p: u64, a: u64|
                #![trigger new.levels[p].ids.contains(a)]
                new.levels.contains_key(p) && new.levels[p].ids.contains(a) implies a == n || (
                old.levels.contains_key(p) && old.levels[p].ids.contains(a)) by {
                let k = choose|k: int| 0 <= k < new.levels[p].ids.len() && new.levels[p].ids[k]
                    == a;
                let d = old.levels[p].ids.len() - new.levels[p].ids.len();
                assert(old.levels[p].ids[k + d] == a);
            }
        }
        assert(members_from(s.side(own), t.side(own), n)) by {
            let old = s.side(own);
            let new = t.side(own);
            assert forall|p: u64, a: u64|
                #![trigger new.levels[p].ids.contains(a)]
                new.levels.contains_key(p) && new.levels[p].ids.contains(a) implies a == n || (
                old.levels.contains_key(p) && old.levels[p].ids.contains(a)) by {
                let k = choose|k: int| 0 <= k < new.levels[p].ids.len() && new.levels[p].ids[k]
                    == a;
                if new != old && p == options.price.0 && a != n {
                    assert(old.levels.contains_key(p));
                    assert(old.levels[p].ids[k] == a);
                }
            }
        }
    }
}

/// Keeping the order carries over two steps of a side where every queue
/// after the second step holds orders from after the first and, at most,
/// one that the side never held before.
pub proof fn lemma_side_keeps_order_twice(
    orders: Map<u64, LimitOrder>,
    a: SideState,
    b: SideState,
    c: SideState,
    which: Side,
    next: u64,
)
    requires
        side_ok(orders, a, which),
        orders_ok(orders, next),
        side_keeps_order(a, b),
        side_keeps_order(b, c),
        members_from(b, c, next),
    ensures
        side_keeps_order(a, c),
{
    assert forall|p: u64|
        #![trigger c.levels[p]]
        a.levels.contains_key(p) && c.levels.contains_key(p) implies keeps_order(
        a.levels[p].ids,
        c.levels[p].ids,
    ) by {
        let old = a.levels[p].ids;
        let new = c.levels[p].ids;
        assert forall|x: u64, y: u64|
            #![trigger before(old, x, y)]
            before(old, x, y) && new.contains(x) && new.contains(y) implies before(new, x, y) by {
            let (i, j) = choose|i: int, j: int| 0 <= i < j < old.len() && old[i] == x && old[j]
                == y;
            assert(orders.contains_key(a.levels[p].ids[i]));
            assert(orders.contains_key(a.levels[p].ids[j]));
            assert(x < next && y < next);
            assert(c.levels[p].ids.contains(x));
            assert(c.levels[p].ids.contains(y));
            assert(b.levels.contains_key(p));
            assert(b.levels[p].ids.contains(x) && b.levels[p].ids.contains(y));
            let mid = b.levels[p];
            assert(keeps_order(old, mid.ids));
            assert(before(mid.ids, x, y));
            assert(keeps_order(mid.ids, c.levels[p].ids));
        }
    }
}

/// A replacement keeps the order of every queue.
pub proof fn lemma_modify_keeps_order(
    s: BookState,
    id: u64,
    price: Option<Price>,
    quantity: Option<Quantity>,
    ts: i64,
)
    requires
        s.wf(),
    ensures
        book_keeps_order(s, s.modify(id, price, quantity, ts).state),
{
    lemma_sides(s, Side::Buy);
    lemma_same_keeps_order(s.orders, s.bids, Side::Buy);
    lemma_same_keeps_order(s.orders, s.asks, Side::Sell);
    if s.orders.contains_key(id) && !(price is None && quantity is None) {
        let quiet = BookState { journaling: false, ..s };
        assert(quiet.wf());
        lemma_cancel_wf(quiet, id, ts);
        lemma_cancel_keeps_order(quiet, id, ts);
        let cancelled = quiet.cancel(id, ts).state;
        let options = BookState::replacement(s.orders[id], price, quantity);
        lemma_limit_keeps_order(cancelled, options, ts);
        lemma_limit_members(cancelled, options, ts);
        let entered = cancelled.limit(options, ts).state;
        lemma_side_keeps_order_twice(
            s.orders,
            s.bids,
            cancelled.bids,
            entered.bids,
            Side::Buy,
            s.next_order_id,
        );
        lemma_side_keeps_order_twice(
            s.orders,
            s.asks,
            cancelled.asks,
            entered.asks,
            Side::Sell,
            s.next_order_id,
        );
    }
}

/// Every command keeps the order of every queue.
pub proof fn lemma_apply_keeps_order(s: BookState, o: OrderOptions, ts: i64)
    requires
        s.wf(),
    ensures
        book_keeps_order(s, s.apply(o, ts).state),
{
    match o {
        OrderOptions::Market(options) => lemma_market_keeps_order(s, options, ts),
        OrderOptions::Limit(options) => lemma_limit_keeps_order(s, options, ts),
        OrderOptions::Cancel(id) => lemma_cancel_keeps_order(s, id.0, ts),
        OrderOptions::Modify { id, price, quantity } => lemma_modify_keeps_order(
            s,
            id.0,
            price,
            quantity,
            ts,
        ),
    }
}

} // verus!

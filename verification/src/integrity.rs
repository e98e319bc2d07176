//! What holds of a book in every state that the commands can reach, and the
//! proofs that matching keeps it.

use crate::enums::{OrderOptions, OrderStatus, OrderType, Side, TimeInForce};
use crate::model::{
    after_full, after_part, consume, match_level, match_levels, settle, within_limit, BookState,
    Matched, Matching,
};
use crate::order::{LimitOrder, LimitOrderOptions, MarketOrderOptions, Price, Quantity};
use crate::order_queue::{lemma_position, position, without, Level};
use crate::order_side::{best_of, is_best, SideState};
use crate::price_tree::{is_highest, is_lowest};
use vstd::prelude::*;

verus! {

/// Whether the record `o` is one that may rest under the identifier `id`
/// in a book that hands out `next` next: it carries the identifier, which
/// was handed out already; its price is at least one; less of it is
/// executed than was ordered; and it is a limit order that is new or
/// partially filled.
pub open spec fn record_ok(o: LimitOrder, id: u64, next: u64) -> bool {
    &&& o.id.0 == id
    &&& id < next
    &&& o.price.0 >= 1
    &&& o.executed_qty.0 < o.orig_qty.0
    &&& o.order_type == OrderType::Limit
    &&& (o.status == OrderStatus::New || o.status == OrderStatus::PartiallyFilled)
}

/// Whether every record of the index may rest under its identifier.
pub open spec fn orders_ok(orders: Map<u64, LimitOrder>, next: u64) -> bool {
    forall|id: u64| #[trigger] orders.contains_key(id) ==> record_ok(orders[id], id, next)
}

/// Whether every identifier in a queue of the side `which` stands in the
/// index, with a record of that side and of the price of the level.
pub open spec fn queued_ok(
    orders: Map<u64, LimitOrder>,
    levels: Map<u64, Level>,
    which: Side,
) -> bool {
    forall|p: u64, i: int|
        #![trigger levels[p].ids[i]]
        levels.contains_key(p) && 0 <= i < levels[p].ids.len() ==> {
            &&& orders.contains_key(levels[p].ids[i])
            &&& orders[levels[p].ids[i]].side == which
            &&& orders[levels[p].ids[i]].price.0 == p
        }
}

/// Whether no queue holds an identifier twice.
pub open spec fn distinct_ok(levels: Map<u64, Level>) -> bool {
    forall|p: u64| #[trigger] levels.contains_key(p) ==> levels[p].ids.no_duplicates()
}

/// Whether every record of the side `which` in the index stands in the
/// queue of the level at its price.
pub open spec fn resting_ok(
    orders: Map<u64, LimitOrder>,
    levels: Map<u64, Level>,
    which: Side,
) -> bool {
    forall|id: u64|
        #![trigger orders[id]]
        orders.contains_key(id) && orders[id].side == which ==> {
            &&& levels.contains_key(orders[id].price.0)
            &&& levels[orders[id].price.0].ids.contains(id)
        }
}

/// Whether a side of the book and the index fit together: the side is the
/// side `which` and is whole, its queues hold each identifier once, and
/// index and queues name the same orders at the same prices.
pub open spec fn side_ok(orders: Map<u64, LimitOrder>, side: SideState, which: Side) -> bool {
    &&& side.side == which
    &&& side.wf()
    &&& queued_ok(orders, side.levels, which)
    &&& distinct_ok(side.levels)
    &&& resting_ok(orders, side.levels, which)
}

/// Whether every bid is below every ask.
pub open spec fn uncrossed(bids: Set<u64>, asks: Set<u64>) -> bool {
    forall|b: u64, a: u64| bids.contains(b) && asks.contains(a) ==> b < a
}

/// What holds of a matching run while the queue of the level at `price` is
/// detached: the level is not attached, its price is in the order of prices
/// as long as the queue holds an order, and with the queue attached again
/// the side and the index fit together.
pub open spec fn run_ok(m: Matching, price: u64, which: Side) -> bool {
    &&& !m.side.levels.contains_key(price)
    &&& m.queue.ids.len() > 0 ==> m.side.prices.contains(price)
    &&& m.queue.ids.len() == 0 ==> !m.side.prices.contains(price)
    &&& m.queue.ids.no_duplicates()
    &&& side_ok(m.orders, settle(m, price), which)
}

/// Whether two indexes hold the same records of one side.
pub open spec fn same_on_side(
    a: Map<u64, LimitOrder>,
    b: Map<u64, LimitOrder>,
    which: Side,
) -> bool {
    &&& forall|x: u64|
        #![trigger a[x]]
        a.contains_key(x) && a[x].side == which ==> b.contains_key(x) && b[x] == a[x]
    &&& forall|x: u64|
        #![trigger b[x]]
        b.contains_key(x) && b[x].side == which ==> a.contains_key(x) && a[x] == b[x]
}

/// A side that fits an index fits every index that holds the same records
/// of the side.
pub proof fn lemma_side_stays_ok(
    a: Map<u64, LimitOrder>,
    b: Map<u64, LimitOrder>,
    side: SideState,
    which: Side,
)
    requires
        side_ok(a, side, which),
        same_on_side(a, b, which),
    ensures
        side_ok(b, side, which),
{
    assert forall|p: u64, i: int|
        #![trigger side.levels[p].ids[i]]
        side.levels.contains_key(p) && 0 <= i < side.levels[p].ids.len() implies {
        &&& b.contains_key(side.levels[p].ids[i])
        &&& b[side.levels[p].ids[i]].side == which
        &&& b[side.levels[p].ids[i]].price.0 == p
    } by {
        assert(a[side.levels[p].ids[i]].side == which);
    }
    assert forall|x: u64|
        #![trigger b[x]]
        b.contains_key(x) && b[x].side == which implies {
        &&& side.levels.contains_key(b[x].price.0)
        &&& side.levels[b[x].price.0].ids.contains(x)
    } by {
        assert(a.contains_key(x) && a[x] == b[x]);
    }
}

/// Whether a record is one of a side at a price.
pub open spec fn rests_at(o: LimitOrder, which: Side, price: u64) -> bool {
    o.side == which && o.price.0 == price
}

/// Whether a queue holds the orders of a side at a price: each of its
/// identifiers once, each with a record of the side at the price, and
/// every such record of the index among them.
pub open spec fn queue_holds(
    orders: Map<u64, LimitOrder>,
    ids: Seq<u64>,
    which: Side,
    price: u64,
) -> bool {
    &&& ids.no_duplicates()
    &&& forall|i: int|
        0 <= i < ids.len() ==> orders.contains_key(#[trigger] ids[i]) && rests_at(
            orders[ids[i]],
            which,
            price,
        )
    &&& forall|x: u64|
        #![trigger orders[x]]
        orders.contains_key(x) && rests_at(orders[x], which, price) ==> ids.contains(x)
}

/// The queue of a side at a price: that of the level at the price, and an
/// empty one where the side has no such level.
pub open spec fn queue_at(side: SideState, price: u64) -> Seq<u64> {
    if side.levels.contains_key(price) {
        side.levels[price].ids
    } else {
        Seq::empty()
    }
}

/// Whether two indexes hold the same records of a side at all prices but
/// one.
pub open spec fn same_off_price(
    a: Map<u64, LimitOrder>,
    b: Map<u64, LimitOrder>,
    which: Side,
    price: u64,
) -> bool {
    &&& forall|x: u64|
        #![trigger a[x]]
        a.contains_key(x) && a[x].side == which && a[x].price.0 != price ==> b.contains_key(x)
            && b[x] == a[x]
    &&& forall|x: u64|
        #![trigger b[x]]
        b.contains_key(x) && b[x].side == which && b[x].price.0 != price ==> a.contains_key(x)
            && a[x] == b[x]
}

/// Whether two sides have the same levels at all prices but one.
pub open spec fn same_off_level(old: SideState, new: SideState, price: u64) -> bool {
    forall|p: u64|
        #![trigger old.levels.contains_key(p)]
        #![trigger new.levels.contains_key(p)]
        p != price ==> (old.levels.contains_key(p) <==> new.levels.contains_key(p)) && (
        old.levels.contains_key(p) ==> new.levels[p] == old.levels[p])
}

/// In a side that fits the index, the queue at every price holds the
/// orders of the side at the price.
pub proof fn lemma_queue_of_side(
    orders: Map<u64, LimitOrder>,
    side: SideState,
    which: Side,
    price: u64,
)
    requires
        side_ok(orders, side, which),
    ensures
        queue_holds(orders, queue_at(side, price), which, price),
{
    let ids = queue_at(side, price);
    assert forall|i: int| 0 <= i < ids.len() implies orders.contains_key(#[trigger] ids[i])
        && rests_at(orders[ids[i]], which, price) by {
        assert(ids[i] == side.levels[price].ids[i]);
    }
    assert forall|x: u64|
        #![trigger orders[x]]
        orders.contains_key(x) && rests_at(orders[x], which, price) implies ids.contains(x) by {
        assert(side.levels[orders[x].price.0].ids.contains(x));
    }
}

/// A side still fits the index after the level at one price changed, where
/// the new side is whole, the queue at the price holds the orders of the
/// side at the price, and all else stayed.
pub proof fn lemma_level_changed(
    a: Map<u64, LimitOrder>,
    old: SideState,
    b: Map<u64, LimitOrder>,
    new: SideState,
    which: Side,
    price: u64,
)
    requires
        side_ok(a, old, which),
        new.side == which,
        new.prices.finite(),
        new.prices =~= new.levels.dom(),
        new.levels.contains_key(price) ==> new.levels[price].ids.len() > 0,
        same_off_level(old, new, price),
        same_off_price(a, b, which, price),
        queue_holds(b, queue_at(new, price), which, price),
    ensures
        side_ok(b, new, which),
{
    assert forall|p: u64| #[trigger] new.levels.contains_key(p) implies {
        &&& new.levels[p].ids.len() > 0
        &&& new.levels[p].ids.no_duplicates()
    } by {
        if p != price {
            assert(old.levels.contains_key(p));
        }
    }
    assert forall|p: u64, i: int|
        #![trigger new.levels[p].ids[i]]
        new.levels.contains_key(p) && 0 <= i < new.levels[p].ids.len() implies {
        &&& b.contains_key(new.levels[p].ids[i])
        &&& b[new.levels[p].ids[i]].side == which
        &&& b[new.levels[p].ids[i]].price.0 == p
    } by {
        if p == price {
            assert(queue_at(new, price)[i] == new.levels[p].ids[i]);
        } else {
            assert(old.levels.contains_key(p));
            assert(new.levels[p].ids[i] == old.levels[p].ids[i]);
            assert(a[old.levels[p].ids[i]].price.0 == p);
        }
    }
    assert forall|x: u64|
        #![trigger b[x]]
        b.contains_key(x) && b[x].side == which implies {
        &&& new.levels.contains_key(b[x].price.0)
        &&& new.levels[b[x].price.0].ids.contains(x)
    } by {
        if b[x].price.0 == price {
            assert(queue_at(new, price).contains(x));
        } else {
            assert(a.contains_key(x) && a[x] == b[x]);
            assert(old.levels[a[x].price.0].ids.contains(x));
        }
    }
}

/// A queue that holds the orders at a price holds them still, but for its
/// head, after the head left the index.
pub proof fn lemma_queue_rest(orders: Map<u64, LimitOrder>, ids: Seq<u64>, which: Side, price: u64)
    requires
        queue_holds(orders, ids, which, price),
        ids.len() > 0,
    ensures
        queue_holds(orders.remove(ids[0]), ids.drop_first(), which, price),
{
    let rest = ids.drop_first();
    let index = orders.remove(ids[0]);
    assert forall|i: int| 0 <= i < rest.len() implies index.contains_key(#[trigger] rest[i])
        && rests_at(index[rest[i]], which, price) by {
        assert(rest[i] == ids[i + 1]);
    }
    assert forall|x: u64|
        #![trigger index[x]]
        index.contains_key(x) && rests_at(index[x], which, price) implies rest.contains(x) by {
        assert(orders.contains_key(x) && orders[x] == index[x]);
        let k = choose|k: int| 0 <= k < ids.len() && ids[k] == x;
        assert(rest[k - 1] == x);
    }
}

/// A queue that holds the orders at a price holds them still after one of
/// them got another record of the same side and price.
pub proof fn lemma_queue_record(
    orders: Map<u64, LimitOrder>,
    ids: Seq<u64>,
    which: Side,
    price: u64,
    id: u64,
    o: LimitOrder,
)
    requires
        queue_holds(orders, ids, which, price),
        ids.contains(id),
        rests_at(o, which, price),
    ensures
        queue_holds(orders.insert(id, o), ids, which, price),
{
    let index = orders.insert(id, o);
    assert forall|x: u64|
        #![trigger index[x]]
        index.contains_key(x) && rests_at(index[x], which, price) implies ids.contains(x) by {
        if x != id {
            assert(orders.contains_key(x) && orders[x] == index[x]);
        }
    }
}

/// A queue that holds the orders at a price holds them still, with a new
/// order at its tail, after the new order came into the index.
pub proof fn lemma_queue_push(
    orders: Map<u64, LimitOrder>,
    ids: Seq<u64>,
    which: Side,
    price: u64,
    id: u64,
    o: LimitOrder,
)
    requires
        queue_holds(orders, ids, which, price),
        !orders.contains_key(id),
        rests_at(o, which, price),
    ensures
        queue_holds(orders.insert(id, o), ids.push(id), which, price),
{
    let index = orders.insert(id, o);
    let new = ids.push(id);
    assert forall|i: int, j: int|
        0 <= i < new.len() && 0 <= j < new.len() && i != j implies new[i] != new[j] by {
        if i < ids.len() {
            assert(orders.contains_key(ids[i]));
        }
        if j < ids.len() {
            assert(orders.contains_key(ids[j]));
        }
    }
    assert forall|i: int| 0 <= i < new.len() implies index.contains_key(#[trigger] new[i])
        && rests_at(index[new[i]], which, price) by {
        if i < ids.len() {
            assert(new[i] == ids[i]);
        }
    }
    assert forall|x: u64|
        #![trigger index[x]]
        index.contains_key(x) && rests_at(index[x], which, price) implies new.contains(x) by {
        if x == id {
            assert(new[ids.len() as int] == id);
        } else {
            assert(orders.contains_key(x) && orders[x] == index[x]);
            let k = choose|k: int| 0 <= k < ids.len() && ids[k] == x;
            assert(new[k] == x);
        }
    }
}

/// A queue without one of its orders: one order less, the others all
/// there, each once.
pub proof fn lemma_without_ok(ids: Seq<u64>, id: u64)
    requires
        ids.no_duplicates(),
        ids.contains(id),
    ensures
        without(ids, id).len() == ids.len() - 1,
        without(ids, id).no_duplicates(),
        !without(ids, id).contains(id),
        forall|x: u64| x != id && ids.contains(x) ==> without(ids, id).contains(x),
        forall|i: int|
            0 <= i < without(ids, id).len() ==> ids.contains(#[trigger] without(ids, id)[i]),
{
    lemma_position(ids, id);
    let k = position(ids, id);
    let r = without(ids, id);
    assert(r == ids.remove(k));
    assert forall|i: int| 0 <= i < r.len() implies ids.contains(#[trigger] r[i]) && r[i] != id by {
        if i < k {
            assert(r[i] == ids[i]);
        } else {
            assert(r[i] == ids[i + 1]);
        }
    }
    assert forall|i: int, j: int|
        0 <= i < r.len() && 0 <= j < r.len() && i != j implies r[i] != r[j] by {
        let a = if i < k {
            i
        } else {
            i + 1
        };
        let b = if j < k {
            j
        } else {
            j + 1
        };
        assert(r[i] == ids[a]);
        assert(r[j] == ids[b]);
    }
    assert forall|x: u64| x != id && ids.contains(x) implies r.contains(x) by {
        let i = choose|i: int| 0 <= i < ids.len() && ids[i] == x;
        if i < k {
            assert(r[i] == x);
        } else {
            assert(r[i - 1] == x);
        }
    }
    if r.contains(id) {
        let i = choose|i: int| 0 <= i < r.len() && r[i] == id;
        assert(r[i] != id);
    }
}

/// A queue that holds the orders at a price holds them still, but for one
/// of them, after that one left the index.
pub proof fn lemma_queue_without(
    orders: Map<u64, LimitOrder>,
    ids: Seq<u64>,
    which: Side,
    price: u64,
    id: u64,
)
    requires
        queue_holds(orders, ids, which, price),
        ids.contains(id),
    ensures
        queue_holds(orders.remove(id), without(ids, id), which, price),
{
    lemma_without_ok(ids, id);
    let rest = without(ids, id);
    let index = orders.remove(id);
    assert forall|i: int| 0 <= i < rest.len() implies index.contains_key(#[trigger] rest[i])
        && rests_at(index[rest[i]], which, price) by {
        assert(ids.contains(rest[i]));
        let k = choose|k: int| 0 <= k < ids.len() && ids[k] == rest[i];
        assert(orders.contains_key(ids[k]));
        assert(rest.contains(rest[i]));
    }
    assert forall|x: u64|
        #![trigger index[x]]
        index.contains_key(x) && rests_at(index[x], which, price) implies rest.contains(x) by {
        assert(orders.contains_key(x) && orders[x] == index[x]);
    }
}

/// Filling the head of the queue in full keeps what holds of the run, of
/// the index and of the other side.
pub proof fn lemma_full_fill_ok(m: Matching, price: u64, which: Side, next: u64, other: SideState)
    requires
        run_ok(m, price, which),
        orders_ok(m.orders, next),
        side_ok(m.orders, other, which.opposite()),
        m.queue.ids.len() > 0,
    ensures
        m.orders.contains_key(m.queue.ids[0]),
        run_ok(after_full(m, price), price, which),
        orders_ok(after_full(m, price).orders, next),
        side_ok(after_full(m, price).orders, other, which.opposite()),
{
    let whole = settle(m, price);
    let n = after_full(m, price);
    let after = settle(n, price);
    lemma_queue_of_side(m.orders, whole, which, price);
    assert(queue_at(whole, price) == m.queue.ids);
    assert(m.orders.contains_key(m.queue.ids[0]));
    lemma_queue_rest(m.orders, m.queue.ids, which, price);
    assert(queue_at(after, price) =~= n.queue.ids);
    assert(whole.prices =~= whole.levels.dom());
    lemma_level_changed(m.orders, whole, n.orders, after, which, price);
    lemma_side_stays_ok(m.orders, n.orders, other, which.opposite());
}

/// Filling the head of the queue in part keeps what holds of the run, of
/// the index and of the other side.
pub proof fn lemma_part_fill_ok(m: Matching, price: u64, which: Side, next: u64, other: SideState)
    requires
        run_ok(m, price, which),
        orders_ok(m.orders, next),
        side_ok(m.orders, other, which.opposite()),
        m.queue.ids.len() > 0,
        m.orders.contains_key(m.queue.ids[0]),
        0 < m.left < m.orders[m.queue.ids[0]].remaining(),
    ensures
        run_ok(after_part(m), price, which),
        orders_ok(after_part(m).orders, next),
        side_ok(after_part(m).orders, other, which.opposite()),
{
    let id = m.queue.ids[0];
    let whole = settle(m, price);
    let n = after_part(m);
    let after = settle(n, price);
    lemma_queue_of_side(m.orders, whole, which, price);
    assert(queue_at(whole, price) == m.queue.ids);
    lemma_queue_record(m.orders, m.queue.ids, which, price, id, n.orders[id]);
    assert(queue_at(after, price) == m.queue.ids);
    assert(whole.prices =~= whole.levels.dom());
    lemma_level_changed(m.orders, whole, n.orders, after, which, price);
    lemma_side_stays_ok(m.orders, n.orders, other, which.opposite());
    assert forall|x: u64| #[trigger] n.orders.contains_key(x) implies record_ok(
        n.orders[x],
        x,
        next,
    ) by {
        assert(m.orders.contains_key(x));
    }
}

/// What a run on a queue keeps and what it comes to: the side and the
/// index fit together afterwards as before; no more is wanted than
/// before, and less where something was wanted and the queue held an
/// order; no price comes to the side; and something is wanted afterwards
/// only where the queue is used up.
pub proof fn lemma_consume_ok(m: Matching, price: u64, which: Side, next: u64, other: SideState)
    requires
        run_ok(m, price, which),
        orders_ok(m.orders, next),
        side_ok(m.orders, other, which.opposite()),
    ensures
        run_ok(consume(m, price), price, which),
        orders_ok(consume(m, price).orders, next),
        side_ok(consume(m, price).orders, other, which.opposite()),
        consume(m, price).left <= m.left,
        m.left > 0 && m.queue.ids.len() > 0 ==> consume(m, price).left < m.left,
        consume(m, price).side.prices.subset_of(m.side.prices),
        consume(m, price).left > 0 ==> consume(m, price).queue.ids.len() == 0,
    decreases m.queue.ids.len(),
{
    if m.left == 0 || m.queue.ids.len() == 0 {
    } else {
        let id = m.queue.ids[0];
        lemma_full_fill_ok(m, price, which, next, other);
        let o = m.orders[id];
        if m.left < o.remaining() {
            lemma_part_fill_ok(m, price, which, next, other);
        } else {
            lemma_consume_ok(after_full(m, price), price, which, next, other);
        }
    }
}

/// What a run on the level at `price` keeps and what it comes to.
pub proof fn lemma_match_level_ok(m: Matched, price: u64, which: Side, next: u64, other: SideState)
    requires
        side_ok(m.orders, m.side, which),
        orders_ok(m.orders, next),
        side_ok(m.orders, other, which.opposite()),
        m.side.levels.contains_key(price),
    ensures
        side_ok(match_level(m, price).orders, match_level(m, price).side, which),
        orders_ok(match_level(m, price).orders, next),
        side_ok(match_level(m, price).orders, other, which.opposite()),
        match_level(m, price).left <= m.left,
        m.left > 0 ==> match_level(m, price).left < m.left,
        match_level(m, price).side.prices.subset_of(m.side.prices),
        match_level(m, price).left > 0 ==> !match_level(m, price).side.prices.contains(price),
{
    let start = Matching {
        orders: m.orders,
        side: m.side.detach(price),
        queue: m.side.levels[price],
        left: m.left,
        fills: m.fills,
    };
    assert(settle(start, price).levels =~= m.side.levels);
    assert(settle(start, price) == m.side);
    assert(m.side.prices.contains(price));
    lemma_consume_ok(start, price, which, next, other);
}

/// A set that holds a price has a lowest price.
pub proof fn lemma_has_lowest(s: Set<u64>, x: u64)
    requires
        s.contains(x),
    ensures
        exists|p: u64| is_lowest(s, p),
    decreases x,
{
    if exists|y: u64| s.contains(y) && y < x {
        let y = choose|y: u64| s.contains(y) && y < x;
        lemma_has_lowest(s, y);
    } else {
        assert(is_lowest(s, x));
    }
}

/// A set that holds a price has a highest price.
pub proof fn lemma_has_highest(s: Set<u64>, x: u64)
    requires
        s.contains(x),
    ensures
        exists|p: u64| is_highest(s, p),
    decreases u64::MAX - x,
{
    if exists|y: u64| s.contains(y) && y > x {
        let y = choose|y: u64| s.contains(y) && y > x;
        lemma_has_highest(s, y);
    } else {
        assert(is_highest(s, x));
    }
}

/// A set has no best price only where it is empty, and its best price is
/// its best price.
pub proof fn lemma_best_of_some(s: Set<u64>, side: Side)
    ensures
        match best_of(s, side) {
            Some(p) => is_best(s, side, p),
            None => forall|x: u64| !s.contains(x),
        },
{
    if exists|p: u64| is_best(s, side, p) {
    } else {
        assert forall|x: u64| !s.contains(x) by {
            if s.contains(x) {
                match side {
                    Side::Buy => {
                        lemma_has_highest(s, x);
                        let p = choose|p: u64| is_highest(s, p);
                        assert(is_best(s, side, p));
                    },
                    Side::Sell => {
                        lemma_has_lowest(s, x);
                        let p = choose|p: u64| is_lowest(s, p);
                        assert(is_best(s, side, p));
                    },
                }
            }
        }
    }
}

/// What a run on a side keeps and what it comes to: both sides and the
/// index fit together afterwards as before; no more is wanted than before;
/// no price comes to the side; and something is wanted afterwards only
/// where no price of the side is within the limit.
pub proof fn lemma_match_levels_ok(
    m: Matched,
    limit: Option<u64>,
    which: Side,
    next: u64,
    other: SideState,
)
    requires
        side_ok(m.orders, m.side, which),
        orders_ok(m.orders, next),
        side_ok(m.orders, other, which.opposite()),
    ensures
        side_ok(match_levels(m, limit, which).orders, match_levels(m, limit, which).side, which),
        orders_ok(match_levels(m, limit, which).orders, next),
        side_ok(match_levels(m, limit, which).orders, other, which.opposite()),
        match_levels(m, limit, which).left <= m.left,
        match_levels(m, limit, which).side.prices.subset_of(m.side.prices),
        match_levels(m, limit, which).left > 0 ==> forall|p: u64|
            match_levels(m, limit, which).side.prices.contains(p) ==> !within_limit(
                which,
                p,
                limit,
            ),
    decreases m.left,
{
    if m.left == 0 {
    } else {
        lemma_best_of_some(m.side.prices, m.side.side);
        match m.side.best() {
            None => {},
            Some(p) => {
                if !within_limit(which, p, limit) {
                } else {
                    assert(m.side.levels.contains_key(p));
                    lemma_match_level_ok(m, p, which, next, other);
                    let after = match_level(m, p);
                    lemma_match_levels_ok(after, limit, which, next, other);
                }
            },
        }
    }
}

/// A side and the index still fit together after a new order came to rest
/// at the tail of the level at its price.
pub proof fn lemma_append_ok(
    orders: Map<u64, LimitOrder>,
    side: SideState,
    which: Side,
    other: SideState,
    id: u64,
    order: LimitOrder,
    quantity: u64,
    next: u64,
)
    requires
        side_ok(orders, side, which),
        side_ok(orders, other, which.opposite()),
        orders_ok(orders, next),
        id >= next,
        order.side == which,
    ensures
        side_ok(orders.insert(id, order), side.append(id, quantity, order.price.0), which),
        side_ok(orders.insert(id, order), other, which.opposite()),
{
    let price = order.price.0;
    let after = side.append(id, quantity, price);
    let index = orders.insert(id, order);
    assert(!orders.contains_key(id));
    lemma_queue_of_side(orders, side, which, price);
    lemma_queue_push(orders, queue_at(side, price), which, price, id, order);
    assert(queue_at(after, price) =~= queue_at(side, price).push(id));
    assert(after.prices =~= after.levels.dom());
    lemma_level_changed(orders, side, index, after, which, price);
    lemma_side_stays_ok(orders, index, other, which.opposite());
}

/// A side and the index still fit together after a resting order left
/// both, and no price came to the side.
pub proof fn lemma_side_without_ok(
    orders: Map<u64, LimitOrder>,
    side: SideState,
    which: Side,
    other: SideState,
    id: u64,
)
    requires
        side_ok(orders, side, which),
        side_ok(orders, other, which.opposite()),
        orders.contains_key(id),
        orders[id].side == which,
    ensures
        side_ok(orders.remove(id), BookState::side_without(side, orders[id], id), which),
        side_ok(orders.remove(id), other, which.opposite()),
        BookState::side_without(side, orders[id], id).prices.subset_of(side.prices),
{
    let price = orders[id].price.0;
    let index = orders.remove(id);
    let after = BookState::side_without(side, orders[id], id);
    assert(side.levels.contains_key(price));
    lemma_queue_of_side(orders, side, which, price);
    lemma_queue_without(orders, side.levels[price].ids, which, price, id);
    assert(queue_at(after, price) =~= without(side.levels[price].ids, id));
    assert(side.prices =~= side.levels.dom());
    assert(after.prices =~= after.levels.dom());
    lemma_level_changed(orders, side, index, after, which, price);
    lemma_side_stays_ok(orders, index, other, which.opposite());
}

impl BookState {
    /// What holds of a book in every state that the commands reach from an
    /// empty book. Every record of the index carries its own identifier,
    /// which is below the next one to hand out, and has a price of at least
    /// one and an open quantity above zero. Every record stands once in the
    /// queue of the level at its price on its side, and in no other queue;
    /// every identifier in a queue has its record in the index. No level is
    /// empty. Every bid is below every ask.
    pub open spec fn wf(self) -> bool {
        &&& orders_ok(self.orders, self.next_order_id)
        &&& side_ok(self.orders, self.bids, Side::Buy)
        &&& side_ok(self.orders, self.asks, Side::Sell)
        &&& uncrossed(self.bids.prices, self.asks.prices)
    }
}

/// Whether the two sides fit the index, whichever of them is named first.
pub proof fn lemma_sides(s: BookState, which: Side)
    requires
        s.wf(),
    ensures
        side_ok(s.orders, s.side(which), which),
        side_ok(s.orders, s.side(which.opposite()), which.opposite()),
{
}

/// An empty book is well formed.
pub proof fn lemma_empty_wf(symbol: Seq<char>, journaling: bool)
    ensures
        BookState::empty(symbol, journaling).wf(),
{
    let s = BookState::empty(symbol, journaling);
    assert(s.bids.prices =~= s.bids.levels.dom());
    assert(s.asks.prices =~= s.asks.levels.dom());
}

/// A market order keeps a book well formed.
pub proof fn lemma_market_wf(s: BookState, options: MarketOrderOptions, ts: i64)
    requires
        s.wf(),
        s.next_order_id < u64::MAX,
    ensures
        s.market(options, ts).state.wf(),
{
    if s.market_rejection(options) is None {
        let maker = options.side.opposite();
        lemma_sides(s, maker);
        let start = Matched {
            orders: s.orders,
            side: s.side(maker),
            left: options.quantity.0,
            fills: Seq::empty(),
        };
        lemma_match_levels_ok(start, None, maker, s.next_order_id, s.side(options.side));
        let m = s.matched(options.side, options.quantity.0, None);
        let t = s.market(options, ts).state;
        assert(orders_ok(t.orders, t.next_order_id)) by {
            assert forall|id: u64| #[trigger] t.orders.contains_key(id) implies record_ok(
                t.orders[id],
                id,
                t.next_order_id,
            ) by {
                assert(record_ok(m.orders[id], id, s.next_order_id));
            }
        }
    }
}

/// A limit order keeps a book well formed.
pub proof fn lemma_limit_wf(s: BookState, options: LimitOrderOptions, ts: i64)
    requires
        s.wf(),
        s.next_order_id < u64::MAX,
    ensures
        s.limit(options, ts).state.wf(),
{
    if s.limit_rejection(options) is None {
        let maker = options.side.opposite();
        let id = s.next_order_id;
        lemma_sides(s, maker);
        let start = Matched {
            orders: s.orders,
            side: s.side(maker),
            left: options.quantity.0,
            fills: Seq::empty(),
        };
        lemma_match_levels_ok(start, Some(options.price.0), maker, id, s.side(options.side));
        let m = s.matched(options.side, options.quantity.0, Some(options.price.0));
        let t = s.limit(options, ts).state;
        let order = BookState::limit_record(id, options, m.left, ts);
        let rests = m.left > 0 && options.tif() != TimeInForce::IOC;
        if rests {
            lemma_append_ok(
                m.orders,
                s.side(options.side),
                options.side,
                m.side,
                id,
                order,
                m.left,
                id,
            );
            assert(t.side(options.side) == s.side(options.side).append(
                id,
                m.left,
                options.price.0,
            ));
            assert(t.side(maker) == m.side);
        }
        assert(orders_ok(t.orders, t.next_order_id)) by {
            assert forall|x: u64| #[trigger] t.orders.contains_key(x) implies record_ok(
                t.orders[x],
                x,
                t.next_order_id,
            ) by {
                if rests && x == id {
                } else {
                    assert(m.orders.contains_key(x));
                    assert(record_ok(m.orders[x], x, id));
                }
            }
        }
        assert forall|b: u64, a: u64|
            t.bids.prices.contains(b) && t.asks.prices.contains(a) implies b < a by {
            match options.side {
                Side::Buy => {
                    assert(t.asks == m.side);
                    assert(m.side.prices.contains(a));
                    assert(s.asks.prices.contains(a));
                    if s.bids.prices.contains(b) {
                    } else {
                        assert(rests && b == options.price.0);
                        assert(!within_limit(Side::Sell, a, Some(options.price.0)));
                    }
                },
                Side::Sell => {
                    assert(t.bids == m.side);
                    assert(m.side.prices.contains(b));
                    assert(s.bids.prices.contains(b));
                    if s.asks.prices.contains(a) {
                    } else {
                        assert(rests && a == options.price.0);
                        assert(!within_limit(Side::Buy, b, Some(options.price.0)));
                    }
                },
            }
        }
    }
}

/// A cancellation keeps a book well formed.
pub proof fn lemma_cancel_wf(s: BookState, id: u64, ts: i64)
    requires
        s.wf(),
    ensures
        s.cancel(id, ts).state.wf(),
{
    if s.orders.contains_key(id) {
        let o = s.orders[id];
        lemma_sides(s, o.side);
        lemma_side_without_ok(s.orders, s.side(o.side), o.side, s.side(o.side.opposite()), id);
        let t = s.cancel(id, ts).state;
        assert(orders_ok(t.orders, t.next_order_id)) by {
            assert forall|x: u64| #[trigger] t.orders.contains_key(x) implies record_ok(
                t.orders[x],
                x,
                t.next_order_id,
            ) by {
                assert(s.orders.contains_key(x));
            }
        }
    }
}

/// A replacement keeps a book well formed.
pub proof fn lemma_modify_wf(
    s: BookState,
    id: u64,
    price: Option<Price>,
    quantity: Option<Quantity>,
    ts: i64,
)
    requires
        s.wf(),
        s.next_order_id < u64::MAX,
    ensures
        s.modify(id, price, quantity, ts).state.wf(),
{
    if s.orders.contains_key(id) && !(price is None && quantity is None) {
        let quiet = BookState { journaling: false, ..s };
        assert(quiet.wf());
        lemma_cancel_wf(quiet, id, ts);
        let cancelled = quiet.cancel(id, ts).state;
        lemma_limit_wf(cancelled, BookState::replacement(s.orders[id], price, quantity), ts);
    }
}

/// Every command keeps a book well formed.
pub proof fn lemma_apply_wf(s: BookState, o: OrderOptions, ts: i64)
    requires
        s.wf(),
        s.next_order_id < u64::MAX,
    ensures
        s.apply(o, ts).state.wf(),
{
    match o {
        OrderOptions::Market(options) => lemma_market_wf(s, options, ts),
        OrderOptions::Limit(options) => lemma_limit_wf(s, options, ts),
        OrderOptions::Cancel(id) => lemma_cancel_wf(s, id.0, ts),
        OrderOptions::Modify { id, price, quantity } => lemma_modify_wf(
            s,
            id.0,
            price,
            quantity,
            ts,
        ),
    }
}

} // verus!

//! Replay: the proof that the journal of a session rebuilds the book of the
//! session.

use crate::enums::{OrderOptions, Side};
use crate::error::ErrorType;
use crate::journal::JournalLog;
use crate::liquidity::{lemma_open_within_frame, lemma_queue_open_frame};
use crate::model::{
    after_full, after_part, consume, first_stamp, inserted, later_stamps, level_open, match_level,
    match_levels, open_of, replay, sorted_logs, within_limit, BookState, Matched, Matching,
    Replayed,
};
use crate::order::{LimitOrder, LimitOrderOptions, MarketOrderOptions, Price, Quantity};
use crate::order_side::ordered;
use crate::report::Report;
use vstd::prelude::*;

verus! {

/// Whether two records are the same but for the time of entry.
pub open spec fn same_record(a: LimitOrder, b: LimitOrder) -> bool {
    a == (LimitOrder { time: a.time, ..b })
}

/// Whether two indexes hold the same records, but for the times of entry.
pub open spec fn same_orders(a: Map<u64, LimitOrder>, b: Map<u64, LimitOrder>) -> bool {
    &&& forall|id: u64| a.contains_key(id) <==> b.contains_key(id)
    &&& forall|id: u64| #[trigger] a.contains_key(id) ==> same_record(a[id], b[id])
}

/// Whether two books show the same: the same sides, the same next
/// identifier, the same number of the last accepted command, and the same
/// orders but for their times of entry.
pub open spec fn alike(a: BookState, b: BookState) -> bool {
    &&& same_orders(a.orders, b.orders)
    &&& a.bids == b.bids
    &&& a.asks == b.asks
    &&& a.next_order_id == b.next_order_id
    &&& a.last_op == b.last_op
}

/// Whether two commands ended alike: with the same report but for the
/// journal entry, or with the same failure.
pub open spec fn same_result(a: Result<Report, ErrorType>, b: Result<Report, ErrorType>) -> bool {
    match (a, b) {
        (Ok(x), Ok(y)) => x == (Report { log: x.log, ..y }),
        (Err(e), Err(f)) => e == f,
        _ => false,
    }
}

/// Whether two runs on a queue stand alike.
pub open spec fn same_run(m: Matching, n: Matching) -> bool {
    &&& same_orders(m.orders, n.orders)
    &&& m.side == n.side
    &&& m.queue == n.queue
    &&& m.left == n.left
    &&& m.fills == n.fills
}

/// Whether two runs on a side stand alike.
pub open spec fn same_matched(m: Matched, n: Matched) -> bool {
    &&& same_orders(m.orders, n.orders)
    &&& m.side == n.side
    &&& m.left == n.left
    &&& m.fills == n.fills
}

/// Runs on a queue that start alike end alike.
pub proof fn lemma_consume_alike(m: Matching, n: Matching, price: u64)
    requires
        same_run(m, n),
    ensures
        same_run(consume(m, price), consume(n, price)),
    decreases m.queue.ids.len(),
{
    if m.left == 0 || m.queue.ids.len() == 0 {
    } else {
        let id = m.queue.ids[0];
        if m.orders.contains_key(id) {
            assert(n.orders.contains_key(id));
            assert(same_record(m.orders[id], n.orders[id]));
            if m.left >= m.orders[id].remaining() {
                assert(same_run(after_full(m, price), after_full(n, price)));
                lemma_consume_alike(after_full(m, price), after_full(n, price), price);
            } else {
                assert(same_run(after_part(m), after_part(n)));
            }
        } else {
            assert(!n.orders.contains_key(id));
        }
    }
}

/// Runs on a side that start alike end alike.
pub proof fn lemma_match_levels_alike(m: Matched, n: Matched, limit: Option<u64>, maker: Side)
    requires
        same_matched(m, n),
    ensures
        same_matched(match_levels(m, limit, maker), match_levels(n, limit, maker)),
    decreases m.left,
{
    if m.left == 0 {
    } else {
        match m.side.best() {
            None => {},
            Some(p) => {
                if !within_limit(maker, p, limit) || !m.side.levels.contains_key(p) {
                } else {
                    let ms = Matching {
                        orders: m.orders,
                        side: m.side.detach(p),
                        queue: m.side.levels[p],
                        left: m.left,
                        fills: m.fills,
                    };
                    let ns = Matching {
                        orders: n.orders,
                        side: n.side.detach(p),
                        queue: n.side.levels[p],
                        left: n.left,
                        fills: n.fills,
                    };
                    lemma_consume_alike(ms, ns, p);
                    let ma = match_level(m, p);
                    let na = match_level(n, p);
                    assert(same_matched(ma, na));
                    if ma.left < m.left {
                        lemma_match_levels_alike(ma, na, limit, maker);
                    }
                }
            },
        }
    }
}

/// Books that are alike can fill the same orders in full.
pub proof fn lemma_fillable_alike(a: BookState, b: BookState, taker: Side, quantity: u64,
    price: u64)
    requires
        alike(a, b),
    ensures
        a.fillable(taker, quantity, price) == b.fillable(taker, quantity, price),
{
    let maker = a.side(taker.opposite());
    let v = ordered(maker.prices, maker.side);
    assert forall|i: int| 0 <= i < v.len() implies level_open(
        a.orders,
        maker.levels,
        taker.opposite(),
        Some(price),
        #[trigger] v[i],
    ) == level_open(b.orders, maker.levels, taker.opposite(), Some(price), v[i]) by {
        if maker.levels.contains_key(v[i]) {
            let ids = maker.levels[v[i]].ids;
            assert forall|k: int| 0 <= k < ids.len() implies open_of(a.orders, #[trigger] ids[k])
                == open_of(b.orders, ids[k]) by {
                if a.orders.contains_key(ids[k]) {
                    assert(same_record(a.orders[ids[k]], b.orders[ids[k]]));
                }
            }
            lemma_queue_open_frame(a.orders, b.orders, ids);
        }
    }
    lemma_open_within_frame(
        a.orders,
        maker.levels,
        b.orders,
        maker.levels,
        v,
        taker.opposite(),
        Some(price),
    );
}

/// The runs of an incoming order on books that are alike end alike.
pub proof fn lemma_matched_alike(
    a: BookState,
    b: BookState,
    taker: Side,
    quantity: u64,
    limit: Option<u64>,
)
    requires
        alike(a, b),
    ensures
        same_matched(a.matched(taker, quantity, limit), b.matched(taker, quantity, limit)),
{
    lemma_match_levels_alike(
        Matched {
            orders: a.orders,
            side: a.side(taker.opposite()),
            left: quantity,
            fills: Seq::empty(),
        },
        Matched {
            orders: b.orders,
            side: b.side(taker.opposite()),
            left: quantity,
            fills: Seq::empty(),
        },
        limit,
        taker.opposite(),
    );
}

/// A market order does alike to books that are alike.
pub proof fn lemma_market_alike(
    a: BookState,
    b: BookState,
    options: MarketOrderOptions,
    ta: i64,
    tb: i64,
)
    requires
        alike(a, b),
    ensures
        alike(a.market(options, ta).state, b.market(options, tb).state),
        same_result(a.market(options, ta).result, b.market(options, tb).result),
{
    lemma_matched_alike(a, b, options.side, options.quantity.0, None);
}

/// A limit order does alike to books that are alike.
pub proof fn lemma_limit_alike(
    a: BookState,
    b: BookState,
    options: LimitOrderOptions,
    ta: i64,
    tb: i64,
)
    requires
        alike(a, b),
    ensures
        alike(a.limit(options, ta).state, b.limit(options, tb).state),
        same_result(a.limit(options, ta).result, b.limit(options, tb).result),
{
    lemma_fillable_alike(a, b, options.side, options.quantity.0, options.price.0);
    lemma_matched_alike(a, b, options.side, options.quantity.0, Some(options.price.0));
    assert(a.limit_rejection(options) == b.limit_rejection(options));
    if a.limit_rejection(options) is None {
        let ma = a.matched(options.side, options.quantity.0, Some(options.price.0));
        let mb = b.matched(options.side, options.quantity.0, Some(options.price.0));
        let x = a.limit(options, ta).state;
        let y = b.limit(options, tb).state;
        assert(same_orders(x.orders, y.orders)) by {
            assert forall|id: u64| #[trigger] x.orders.contains_key(id) implies same_record(
                x.orders[id],
                y.orders[id],
            ) by {
                if ma.orders.contains_key(id) {
                    assert(same_record(ma.orders[id], mb.orders[id]));
                }
            }
        }
    }
}

/// A cancellation does alike to books that are alike.
pub proof fn lemma_cancel_alike(a: BookState, b: BookState, id: u64, ta: i64, tb: i64)
    requires
        alike(a, b),
    ensures
        alike(a.cancel(id, ta).state, b.cancel(id, tb).state),
        same_result(a.cancel(id, ta).result, b.cancel(id, tb).result),
{
    if a.orders.contains_key(id) {
        assert(b.orders.contains_key(id));
        assert(same_record(a.orders[id], b.orders[id]));
        let x = a.cancel(id, ta).state;
        let y = b.cancel(id, tb).state;
        assert(same_orders(x.orders, y.orders)) by {
            assert forall|k: u64| #[trigger] x.orders.contains_key(k) implies same_record(
                x.orders[k],
                y.orders[k],
            ) by {
                assert(a.orders.contains_key(k));
            }
        }
    } else {
        assert(!b.orders.contains_key(id));
    }
}

/// A replacement does alike to books that are alike.
pub proof fn lemma_modify_alike(
    a: BookState,
    b: BookState,
    id: u64,
    price: Option<Price>,
    quantity: Option<Quantity>,
    ta: i64,
    tb: i64,
)
    requires
        alike(a, b),
    ensures
        alike(a.modify(id, price, quantity, ta).state, b.modify(id, price, quantity, tb).state),
        same_result(
            a.modify(id, price, quantity, ta).result,
            b.modify(id, price, quantity, tb).result,
        ),
{
    if a.orders.contains_key(id) {
        assert(b.orders.contains_key(id));
        assert(same_record(a.orders[id], b.orders[id]));
        if !(price is None && quantity is None) {
            let qa = BookState { journaling: false, ..a };
            let qb = BookState { journaling: false, ..b };
            assert(alike(qa, qb));
            lemma_cancel_alike(qa, qb, id, ta, tb);
            let options = BookState::replacement(a.orders[id], price, quantity);
            assert(options == BookState::replacement(b.orders[id], price, quantity));
            lemma_limit_alike(qa.cancel(id, ta).state, qb.cancel(id, tb).state, options, ta, tb);
        }
    } else {
        assert(!b.orders.contains_key(id));
    }
}

/// Every command does alike to books that are alike.
pub proof fn lemma_apply_alike(a: BookState, b: BookState, o: OrderOptions, ta: i64, tb: i64)
    requires
        alike(a, b),
    ensures
        alike(a.apply(o, ta).state, b.apply(o, tb).state),
        same_result(a.apply(o, ta).result, b.apply(o, tb).result),
{
    match o {
        OrderOptions::Market(options) => lemma_market_alike(a, b, options, ta, tb),
        OrderOptions::Limit(options) => lemma_limit_alike(a, b, options, ta, tb),
        OrderOptions::Cancel(id) => lemma_cancel_alike(a, b, id.0, ta, tb),
        OrderOptions::Modify { id, price, quantity } => lemma_modify_alike(
            a,
            b,
            id.0,
            price,
            quantity,
            ta,
            tb,
        ),
    }
}

/// The book after a session: the commands applied one after the other,
/// each at its time, whether accepted or refused.
pub open spec fn state_after(s: BookState, session: Seq<(OrderOptions, i64)>) -> BookState
    decreases session.len(),
{
    if session.len() == 0 {
        s
    } else {
        state_after(s.apply(session[0].0, session[0].1).state, session.drop_first())
    }
}

/// The journal of a session: the journal entries of the commands that were
/// accepted, in the order of the commands.
pub open spec fn journal_of(s: BookState, session: Seq<(OrderOptions, i64)>) -> Seq<JournalLog>
    decreases session.len(),
{
    if session.len() == 0 {
        Seq::empty()
    } else {
        let first = s.apply(session[0].0, session[0].1);
        let rest = journal_of(first.state, session.drop_first());
        match first.result {
            Ok(report) => match report.log {
                Some(log) => seq![log] + rest,
                None => rest,
            },
            Err(_) => rest,
        }
    }
}

/// Whether every command of a session that was refused left the book as it
/// was. A replacement whose new order is refused does not: it leaves the
/// old order cancelled.
pub open spec fn refusals_change_nothing(s: BookState, session: Seq<(OrderOptions, i64)>) -> bool
    decreases session.len(),
{
    if session.len() == 0 {
        true
    } else {
        let first = s.apply(session[0].0, session[0].1);
        (first.result is Err ==> first.state == s) && refusals_change_nothing(
            first.state,
            session.drop_first(),
        )
    }
}

/// With journaling on, a command that is accepted is journaled with its
/// own inputs under its own number, and journaling stays on.
pub proof fn lemma_journaled(s: BookState, o: OrderOptions, ts: i64)
    requires
        s.journaling,
    ensures
        s.apply(o, ts).state.journaling,
        s.apply(o, ts).state.last_op >= s.last_op,
        match s.apply(o, ts).result {
            Ok(report) => report.log is Some && report.log.unwrap().o == o
                && report.log.unwrap().op_id == s.apply(o, ts).state.last_op,
            Err(_) => true,
        },
{
}

/// Whether a replay that applied the first `i` entries at the times `seen`
/// stands at the state `now`: whatever times follow, the replay of all
/// entries from the start is the replay of the entries from `i` on from
/// `now`.
#[verifier::opaque]
pub open spec fn replays_to(
    start: BookState,
    logs: Seq<JournalLog>,
    seen: Seq<i64>,
    now: BookState,
    i: int,
) -> bool {
    forall|rest: Seq<i64>|
        #[trigger] replay(start, logs, seen + rest) == replay(now, logs.skip(i), rest)
}

/// A replay that applied nothing stands at its start.
pub proof fn lemma_replay_start(start: BookState, logs: Seq<JournalLog>)
    ensures
        replays_to(start, logs, Seq::empty(), start, 0),
{
    reveal(replays_to);
    assert forall|rest: Seq<i64>|
        #[trigger] replay(start, logs, Seq::<i64>::empty() + rest) == replay(
            start,
            logs.skip(0),
            rest,
        ) by {
        assert(logs.skip(0) =~= logs);
        assert(Seq::<i64>::empty() + rest =~= rest);
    }
}

/// A replay that applies one more entry, which is accepted, stands at the
/// state after that entry.
pub proof fn lemma_replay_next(
    start: BookState,
    logs: Seq<JournalLog>,
    seen: Seq<i64>,
    now: BookState,
    i: int,
    ts: i64,
)
    requires
        replays_to(start, logs, seen, now, i),
        0 <= i < logs.len(),
        now.apply(logs[i].o, ts).result is Ok,
    ensures
        replays_to(start, logs, seen.push(ts), now.apply(logs[i].o, ts).state, i + 1),
{
    reveal(replays_to);
    let next = now.apply(logs[i].o, ts).state;
    assert forall|rest: Seq<i64>|
        #[trigger] replay(start, logs, seen.push(ts) + rest) == replay(
            next,
            logs.skip(i + 1),
            rest,
        ) by {
        let longer = seq![ts] + rest;
        assert(seen + longer =~= seen.push(ts) + rest);
        assert(first_stamp(longer) == ts);
        assert(later_stamps(longer) =~= rest);
        assert(logs.skip(i)[0] == logs[i]);
        assert(logs.skip(i).drop_first() =~= logs.skip(i + 1));
        assert(replay(start, logs, seen + longer) == replay(now, logs.skip(i), longer));
    }
}

/// A replay that applies one more entry, which fails, ends with the
/// failure, in the state that the entry left.
pub proof fn lemma_replay_fails(
    start: BookState,
    logs: Seq<JournalLog>,
    seen: Seq<i64>,
    now: BookState,
    i: int,
    ts: i64,
)
    requires
        replays_to(start, logs, seen, now, i),
        0 <= i < logs.len(),
        now.apply(logs[i].o, ts).result is Err,
    ensures
        replay(start, logs, seen.push(ts)) == (Replayed {
            state: now.apply(logs[i].o, ts).state,
            failure: Some(now.apply(logs[i].o, ts).result->Err_0),
        }),
{
    reveal(replays_to);
    let rest = seq![ts];
    assert(seen + rest =~= seen.push(ts));
    assert(first_stamp(rest) == ts);
    assert(logs.skip(i)[0] == logs[i]);
    assert(replay(start, logs, seen + rest) == replay(now, logs.skip(i), rest));
}

/// A replay that applied all entries ends without failure in the state at
/// which it stands.
pub proof fn lemma_replay_done(
    start: BookState,
    logs: Seq<JournalLog>,
    seen: Seq<i64>,
    now: BookState,
)
    requires
        replays_to(start, logs, seen, now, logs.len() as int),
    ensures
        replay(start, logs, seen) == (Replayed { state: now, failure: None }),
{
    reveal(replays_to);
    let rest = Seq::<i64>::empty();
    assert(seen + rest =~= seen);
    assert(replay(start, logs, seen + rest) == replay(now, logs.skip(logs.len() as int), rest));
}

/// Replaying the journal of a session into a book that is like the book
/// at the start of the session, at whatever times, fails nowhere and gives
/// a book that is like the book at the end of the session.
pub proof fn lemma_replay_journal(
    s: BookState,
    t: BookState,
    session: Seq<(OrderOptions, i64)>,
    stamps: Seq<i64>,
)
    requires
        s.journaling,
        alike(s, t),
        refusals_change_nothing(s, session),
    ensures
        replay(t, journal_of(s, session), stamps).failure is None,
        alike(state_after(s, session), replay(t, journal_of(s, session), stamps).state),
    decreases session.len(),
{
    if session.len() > 0 {
        let o = session[0].0;
        let first = s.apply(o, session[0].1);
        let rest = journal_of(first.state, session.drop_first());
        lemma_journaled(s, o, session[0].1);
        match first.result {
            Err(_) => {
                lemma_replay_journal(first.state, t, session.drop_first(), stamps);
            },
            Ok(report) => {
                let log = report.log.unwrap();
                let logs = journal_of(s, session);
                assert(logs == seq![log] + rest);
                assert(logs[0] == log);
                assert(logs.drop_first() =~= rest);
                lemma_apply_alike(s, t, o, session[0].1, first_stamp(stamps));
                let again = t.apply(o, first_stamp(stamps));
                lemma_replay_journal(
                    first.state,
                    again.state,
                    session.drop_first(),
                    later_stamps(stamps),
                );
            },
        }
    }
}

/// Whether the numbers of the entries never fall and none is below `from`.
pub open spec fn ascending_from(logs: Seq<JournalLog>, from: u64) -> bool {
    &&& forall|i: int| 0 <= i < logs.len() ==> (#[trigger] logs[i]).op_id >= from
    &&& forall|i: int, j: int| 0 <= i < j < logs.len() ==> logs[i].op_id <= logs[j].op_id
}

/// The numbers of the journal of a session never fall.
pub proof fn lemma_journal_ascending(s: BookState, session: Seq<(OrderOptions, i64)>)
    requires
        s.journaling,
    ensures
        ascending_from(journal_of(s, session), s.last_op),
    decreases session.len(),
{
    if session.len() > 0 {
        let o = session[0].0;
        let first = s.apply(o, session[0].1);
        let rest = journal_of(first.state, session.drop_first());
        lemma_journaled(s, o, session[0].1);
        lemma_journal_ascending(first.state, session.drop_first());
        let logs = journal_of(s, session);
        match first.result {
            Err(_) => {},
            Ok(report) => {
                let log = report.log.unwrap();
                assert(logs == seq![log] + rest);
                assert forall|i: int| 0 <= i < logs.len() implies (#[trigger] logs[i]).op_id
                    >= s.last_op by {
                    if i > 0 {
                        assert(logs[i] == rest[i - 1]);
                    }
                }
                assert forall|i: int, j: int| 0 <= i < j < logs.len() implies logs[i].op_id
                    <= logs[j].op_id by {
                    assert(logs[j] == rest[j - 1]);
                    if i > 0 {
                        assert(logs[i] == rest[i - 1]);
                    }
                }
            },
        }
    }
}

/// Entries whose numbers never fall are in the order in which they are
/// replayed.
pub proof fn lemma_sorted_ascending(logs: Seq<JournalLog>, from: u64)
    requires
        ascending_from(logs, from),
    ensures
        sorted_logs(logs) == logs,
    decreases logs.len(),
{
    if logs.len() > 0 {
        let front = logs.drop_last();
        assert(ascending_from(front, from)) by {
            assert forall|i: int| 0 <= i < front.len() implies (#[trigger] front[i]).op_id
                >= from by {
                assert(front[i] == logs[i]);
            }
            assert forall|i: int, j: int| 0 <= i < j < front.len() implies front[i].op_id
                <= front[j].op_id by {
                assert(front[i] == logs[i] && front[j] == logs[j]);
            }
        }
        lemma_sorted_ascending(front, from);
        if front.len() > 0 {
            assert(front.last() == logs[logs.len() - 2]);
            assert(logs.last() == logs[logs.len() - 1]);
        }
        assert(inserted(front, logs.last()) =~= front.push(logs.last()));
        assert(front.push(logs.last()) =~= logs);
    }
}

} // verus!

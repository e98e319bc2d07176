//! What holds of every well-formed book and of every command on it.

use crate::builder::BuilderState;
use crate::determinism::{
    alike, journal_of, lemma_journal_ascending, lemma_replay_journal, lemma_sorted_ascending,
    refusals_change_nothing, same_record, state_after,
};
use crate::enums::{OrderOptions, OrderStatus, Side, TimeInForce};
use crate::error::ErrorType;
use crate::integrity::{
    lemma_apply_wf, lemma_best_of_some, lemma_cancel_wf, lemma_empty_wf, lemma_match_level_ok,
    lemma_match_levels_ok, lemma_sides,
};
use crate::liquidity::lemma_fillable_is_filled;
use crate::model::{
    match_level, match_levels, queue_open, replay, sorted_logs, within_limit, BookState, Matched,
};
use crate::order::LimitOrderOptions;
use crate::priority::{before, keeps_order, lemma_apply_keeps_order};
use crate::recovery::lemma_restore_snapshot;
use crate::utils::sat_add;
use crate::volumes::{lemma_apply_exact, lemma_empty_exact, side_open};
use vstd::prelude::*;

verus! {

/// The commands keep a book well formed: whatever command is applied to a
/// well-formed book at whatever time, the book is well formed afterwards.
pub proof fn law_commands_keep_well_formed(s: BookState, o: OrderOptions, ts: i64)
    requires
        s.wf(),
        s.next_order_id < u64::MAX,
    ensures
        s.apply(o, ts).state.wf(),
{
    lemma_apply_wf(s, o, ts);
}

/// Every book that the commands reach from an empty book is well formed:
/// after any session on an empty book, with identifiers left for every
/// command of it, the book is well formed. So what holds of well-formed
/// books holds at all times.
pub proof fn law_reachable_books_are_well_formed(
    symbol: Seq<char>,
    journaling: bool,
    session: Seq<(OrderOptions, i64)>,
)
    requires
        session.len() <= u64::MAX,
    ensures
        state_after(BookState::empty(symbol, journaling), session).wf(),
{
    lemma_empty_wf(symbol, journaling);
    lemma_session_wf(BookState::empty(symbol, journaling), session);
}

/// A session on a well-formed book, with identifiers left for every
/// command of it, ends in a well-formed book.
pub proof fn lemma_session_wf(s: BookState, session: Seq<(OrderOptions, i64)>)
    requires
        s.wf(),
        s.next_order_id + session.len() <= u64::MAX,
    ensures
        state_after(s, session).wf(),
    decreases session.len(),
{
    if session.len() > 0 {
        lemma_apply_wf(s, session[0].0, session[0].1);
        law_identifiers_increase(s, session[0].0, session[0].1);
        lemma_session_wf(s.apply(session[0].0, session[0].1).state, session.drop_first());
    }
}

/// Index and queues name the same orders: an identifier stands in the
/// queue of a level on a side if and only if the index holds a record
/// under it with that side and that price, and no queue holds an
/// identifier twice. So every identifier of the index stands in one queue,
/// once, and every identifier in a queue is in the index.
pub proof fn law_index_queue_bijection(s: BookState, id: u64, which: Side, price: u64)
    requires
        s.wf(),
    ensures
        (s.side(which).levels.contains_key(price) && s.side(which).levels[price].ids.contains(id))
            <==> (s.orders.contains_key(id) && s.orders[id].side == which && s.orders[id].price.0
            == price),
        s.side(which).levels.contains_key(price)
            ==> s.side(which).levels[price].ids.no_duplicates(),
{
    lemma_sides(s, which);
    let levels = s.side(which).levels;
    if levels.contains_key(price) && levels[price].ids.contains(id) {
        let i = choose|i: int| 0 <= i < levels[price].ids.len() && levels[price].ids[i] == id;
        assert(s.orders.contains_key(levels[price].ids[i]));
    }
}

/// Quantities are conserved: of every resting order, what was ordered is
/// what was executed and what is open, and something is open.
pub proof fn law_quantity_conservation(s: BookState, id: u64)
    requires
        s.wf(),
        s.orders.contains_key(id),
    ensures
        s.orders[id].orig_qty.0 == s.orders[id].executed_qty.0 + s.orders[id].remaining(),
        s.orders[id].remaining() > 0,
{
}

/// Quantities are conserved in reports: in the report of every accepted
/// command, what was ordered is what was executed and what is open.
pub proof fn law_report_conservation(s: BookState, o: OrderOptions, ts: i64)
    requires
        s.wf(),
        s.next_order_id < u64::MAX,
    ensures
        match s.apply(o, ts).result {
            Ok(report) => report.orig_qty.0 == report.executed_qty.0 + report.remaining_qty.0,
            Err(_) => true,
        },
{
    match o {
        OrderOptions::Market(options) => {
            if s.market_rejection(options) is None {
                lemma_matched_left(s, options.side, options.quantity.0, None);
            }
        },
        OrderOptions::Limit(options) => {
            if s.limit_rejection(options) is None {
                lemma_matched_left(s, options.side, options.quantity.0, Some(options.price.0));
            }
        },
        OrderOptions::Cancel(id) => {},
        OrderOptions::Modify { id, price, quantity } => {
            if s.orders.contains_key(id.0) && !(price is None && quantity is None) {
                let quiet = BookState { journaling: false, ..s };
                assert(quiet.wf());
                lemma_cancel_wf(quiet, id.0, ts);
                let cancelled = quiet.cancel(id.0, ts).state;
                let options = BookState::replacement(s.orders[id.0], price, quantity);
                if cancelled.limit_rejection(options) is None {
                    lemma_matched_left(
                        cancelled,
                        options.side,
                        options.quantity.0,
                        Some(options.price.0),
                    );
                }
            }
        },
    }
}

/// A run leaves no more wanted than the order asked for.
pub proof fn lemma_matched_left(s: BookState, taker: Side, quantity: u64, limit: Option<u64>)
    requires
        s.wf(),
    ensures
        s.matched(taker, quantity, limit).left <= quantity,
{
    let maker = taker.opposite();
    lemma_sides(s, maker);
    lemma_match_levels_ok(
        Matched { orders: s.orders, side: s.side(maker), left: quantity, fills: Seq::empty() },
        limit,
        maker,
        s.next_order_id,
        s.side(taker),
    );
}

/// The book is not crossed: the best bid is below the best ask wherever
/// both exist.
pub proof fn law_best_bid_below_best_ask(s: BookState)
    requires
        s.wf(),
    ensures
        match (s.best_bid(), s.best_ask()) {
            (Some(bid), Some(ask)) => bid < ask,
            _ => true,
        },
{
    lemma_best_of_some(s.bids.prices, s.bids.side);
    lemma_best_of_some(s.asks.prices, s.asks.side);
}

/// Whether a command enters an order, which gets an identifier.
pub open spec fn enters_order(o: OrderOptions) -> bool {
    !(o is Cancel)
}

/// Identifiers grow: no command lowers the next identifier, and an order
/// that is accepted gets the identifier that was next, after which the
/// next one is higher. So of two accepted orders the later has the higher
/// identifier.
pub proof fn law_identifiers_increase(s: BookState, o: OrderOptions, ts: i64)
    requires
        s.next_order_id < u64::MAX,
    ensures
        s.apply(o, ts).state.next_order_id >= s.next_order_id,
        enters_order(o) ==> match s.apply(o, ts).result {
            Ok(report) => report.order_id.0 == s.next_order_id && s.apply(
                o,
                ts,
            ).state.next_order_id == s.next_order_id + 1,
            Err(_) => true,
        },
{
}

/// Of two orders that are accepted one after the other, the second has the
/// higher identifier.
pub proof fn law_successive_identifiers(
    s: BookState,
    first: OrderOptions,
    t1: i64,
    second: OrderOptions,
    t2: i64,
)
    requires
        s.next_order_id < u64::MAX - 1,
        enters_order(first),
        enters_order(second),
        s.apply(first, t1).result is Ok,
        s.apply(first, t1).state.apply(second, t2).result is Ok,
    ensures
        s.apply(first, t1).result.unwrap().order_id.0 < s.apply(first, t1).state.apply(
            second,
            t2,
        ).result.unwrap().order_id.0,
{
    law_identifiers_increase(s, first, t1);
    law_identifiers_increase(s.apply(first, t1).state, second, t2);
}

/// Command numbers grow: every accepted command, whether journaling is on
/// or off, gets the number after the last, which is the last number
/// afterwards, one higher than before while the counter is not used up. A
/// refused command leaves the last number as it was. The report of an
/// accepted command carries a journal entry if and only if journaling is
/// on, and the entry has the number of the command. No command turns
/// journaling on or off.
pub proof fn law_journal_numbers_increase(s: BookState, o: OrderOptions, ts: i64)
    requires
        s.next_order_id < u64::MAX,
    ensures
        s.apply(o, ts).state.journaling == s.journaling,
        match s.apply(o, ts).result {
            Ok(report) => {
                &&& s.apply(o, ts).state.last_op == sat_add(s.last_op, 1)
                &&& s.last_op < u64::MAX ==> s.apply(o, ts).state.last_op == s.last_op + 1
                &&& report.log is Some <==> s.journaling
                &&& report.log is Some ==> report.log.unwrap().op_id == s.apply(
                    o,
                    ts,
                ).state.last_op
            },
            Err(_) => s.apply(o, ts).state.last_op == s.last_op,
        },
{
}

/// Of two commands that are accepted one after the other, the second has
/// the higher number, while the counter is not used up.
pub proof fn law_successive_numbers(
    s: BookState,
    first: OrderOptions,
    t1: i64,
    second: OrderOptions,
    t2: i64,
)
    requires
        s.next_order_id < u64::MAX - 1,
        s.last_op < u64::MAX - 1,
        s.apply(first, t1).result is Ok,
        s.apply(first, t1).state.apply(second, t2).result is Ok,
    ensures
        s.apply(first, t1).state.last_op < s.apply(first, t1).state.apply(second, t2).state.last_op,
{
    law_journal_numbers_increase(s, first, t1);
    law_identifiers_increase(s, first, t1);
    law_journal_numbers_increase(s.apply(first, t1).state, second, t2);
}

/// A post-only order that is accepted did not match on entry: it made no
/// trade and nothing of it was executed.
pub proof fn law_post_only_accepted(s: BookState, options: LimitOrderOptions, ts: i64)
    requires
        options.is_post_only(),
        s.limit(options, ts).result is Ok,
    ensures
        s.limit(options, ts).result.unwrap().fills.len() == 0,
        s.limit(options, ts).result.unwrap().executed_qty.0 == 0,
        s.limit(options, ts).result.unwrap().remaining_qty == options.quantity,
{
    let maker = options.side.opposite();
    let side = s.side(maker);
    assert(!s.crosses(options.side, options.price.0));
    let start = Matched {
        orders: s.orders,
        side,
        left: options.quantity.0,
        fills: Seq::empty(),
    };
    assert(match_levels(start, Some(options.price.0), maker) == start);
}

/// An order that would match on entry matches at least one unit, and one
/// that would not matches nothing: on a well-formed book, an order for at
/// least one unit crosses the best price of the other side if and only if
/// its run leaves less open than it asks for.
pub proof fn lemma_crossing_is_matching(s: BookState, taker: Side, quantity: u64, price: u64)
    requires
        s.wf(),
        quantity >= 1,
    ensures
        s.crosses(taker, price) <==> s.matched(taker, quantity, Some(price)).left < quantity,
{
    let maker = taker.opposite();
    lemma_sides(s, maker);
    let side = s.side(maker);
    let limit = Some(price);
    let start = Matched { orders: s.orders, side, left: quantity, fills: Seq::empty() };
    lemma_best_of_some(side.prices, side.side);
    if s.crosses(taker, price) {
        let p = side.best().unwrap();
        assert(within_limit(maker, p, limit));
        assert(side.levels.contains_key(p));
        lemma_match_level_ok(start, p, maker, s.next_order_id, s.side(taker));
        lemma_match_levels_ok(
            match_level(start, p),
            limit,
            maker,
            s.next_order_id,
            s.side(taker),
        );
    } else {
        assert(match_levels(start, limit, maker) == start);
    }
}

/// A post-only order that is refused because it would match would have
/// matched at least one unit: entered without the flag, its run leaves less
/// open than it asks for.
pub proof fn law_post_only_rejected(s: BookState, options: LimitOrderOptions)
    requires
        s.wf(),
        s.limit_rejection(options) == Some(ErrorType::OrderPostOnly),
    ensures
        s.matched(options.side, options.quantity.0, Some(options.price.0)).left
            < options.quantity.0,
{
    lemma_crossing_is_matching(s, options.side, options.quantity.0, options.price.0);
}

/// The post-only rule in general. Take a limit order for at least one
/// unit at a price of at least one that, where it is fill-or-kill, can be
/// filled in full. On a well-formed book it is refused as post-only if and
/// only if it is post-only and would match at least one unit on entry: a
/// buy at or above the best ask, a sell at or below the best bid. In every
/// other case it is accepted.
pub proof fn law_post_only_rule(s: BookState, options: LimitOrderOptions)
    requires
        s.wf(),
        options.quantity.0 >= 1,
        options.price.0 >= 1,
        options.tif() == TimeInForce::FOK ==> s.fillable(
            options.side,
            options.quantity.0,
            options.price.0,
        ),
    ensures
        s.limit_rejection(options) == Some(ErrorType::OrderPostOnly) <==> options.is_post_only()
            && s.matched(options.side, options.quantity.0, Some(options.price.0)).left
            < options.quantity.0,
        s.limit_rejection(options) is None <==> !(options.is_post_only() && s.matched(
            options.side,
            options.quantity.0,
            Some(options.price.0),
        ).left < options.quantity.0),
        s.crosses(options.side, options.price.0) <==> s.matched(
            options.side,
            options.quantity.0,
            Some(options.price.0),
        ).left < options.quantity.0,
        s.crosses(options.side, options.price.0) <==> (match options.side {
            Side::Buy => s.best_ask() is Some && options.price.0 >= s.best_ask().unwrap(),
            Side::Sell => s.best_bid() is Some && options.price.0 <= s.best_bid().unwrap(),
        }),
{
    lemma_crossing_is_matching(s, options.side, options.quantity.0, options.price.0);
}

/// A command that is refused leaves the book as it was, but for a
/// replacement whose new order is refused after the old one was cancelled.
pub proof fn law_rejection_leaves_book(s: BookState, o: OrderOptions, ts: i64)
    requires
        s.apply(o, ts).result is Err,
        !(o is Modify),
    ensures
        s.apply(o, ts).state == s,
{
}

/// Fill-or-kill is all or nothing: a fill-or-kill order that is accepted
/// is filled in full, and one that is refused leaves the book as it was.
pub proof fn law_fill_or_kill(s: BookState, options: LimitOrderOptions, ts: i64)
    requires
        s.wf(),
        options.tif() == TimeInForce::FOK,
    ensures
        match s.limit(options, ts).result {
            Ok(report) => report.status == OrderStatus::Filled && report.remaining_qty.0 == 0
                && report.executed_qty == options.quantity,
            Err(_) => s.limit(options, ts).state == s,
        },
{
    if s.limit_rejection(options) is None {
        lemma_fillable_is_filled(
            s,
            options.side,
            options.quantity.0,
            options.price.0,
        );
    }
}

/// Time priority is kept: of two orders that rest in one queue before a
/// command and both still rest in it afterwards, the one that stood before
/// the other still stands before it. No order ever passes another.
pub proof fn law_time_priority(s: BookState, o: OrderOptions, ts: i64, which: Side, price: u64,
    a: u64, b: u64)
    requires
        s.wf(),
        s.side(which).levels.contains_key(price),
        s.apply(o, ts).state.side(which).levels.contains_key(price),
        before(s.side(which).levels[price].ids, a, b),
        s.apply(o, ts).state.side(which).levels[price].ids.contains(a),
        s.apply(o, ts).state.side(which).levels[price].ids.contains(b),
    ensures
        before(s.apply(o, ts).state.side(which).levels[price].ids, a, b),
{
    lemma_apply_keeps_order(s, o, ts);
    let t = s.apply(o, ts).state;
    assert(keeps_order(
        s.side(which).levels[price].ids,
        t.side(which).levels[price].ids,
    ));
}

/// Volumes are the open quantities: where both sides and each of their
/// levels are counted with the open quantity of their orders before a
/// command, they are so afterwards, as long as the open quantity of each
/// side fits the counter of 64 bits afterwards.
pub proof fn law_volumes_stay_exact(s: BookState, o: OrderOptions, ts: i64)
    requires
        s.wf(),
        s.volumes_exact(),
        s.apply(o, ts).state.volumes_fit(),
    ensures
        s.apply(o, ts).state.volumes_exact(),
{
    lemma_apply_exact(s, o, ts);
}

/// Whether the open quantity of each side fits the counter of 64 bits
/// after every command of a session.
pub open spec fn volumes_fit_throughout(s: BookState, session: Seq<(OrderOptions, i64)>) -> bool
    decreases session.len(),
{
    if session.len() == 0 {
        true
    } else {
        let next = s.apply(session[0].0, session[0].1).state;
        next.volumes_fit() && volumes_fit_throughout(next, session.drop_first())
    }
}

/// Volumes are the open quantities at all times: after any session on an
/// empty book, with identifiers left for every command of it, both sides
/// and each of their levels are counted with the open quantity of their
/// orders, as long as the open quantity of each side fitted the counter of
/// 64 bits after every command.
pub proof fn law_reachable_volumes_are_exact(
    symbol: Seq<char>,
    journaling: bool,
    session: Seq<(OrderOptions, i64)>,
)
    requires
        session.len() <= u64::MAX,
        volumes_fit_throughout(BookState::empty(symbol, journaling), session),
    ensures
        state_after(BookState::empty(symbol, journaling), session).volumes_exact(),
{
    lemma_empty_wf(symbol, journaling);
    lemma_empty_exact(symbol, journaling);
    lemma_session_exact(BookState::empty(symbol, journaling), session);
}

/// A session on a well-formed book with exact volumes, with identifiers
/// left for every command of it, ends in a book with exact volumes, as long
/// as the open quantity of each side fitted the counter after every
/// command.
pub proof fn lemma_session_exact(s: BookState, session: Seq<(OrderOptions, i64)>)
    requires
        s.wf(),
        s.volumes_exact(),
        s.next_order_id + session.len() <= u64::MAX,
        volumes_fit_throughout(s, session),
    ensures
        state_after(s, session).volumes_exact(),
    decreases session.len(),
{
    if session.len() > 0 {
        lemma_apply_wf(s, session[0].0, session[0].1);
        lemma_apply_exact(s, session[0].0, session[0].1);
        law_identifiers_increase(s, session[0].0, session[0].1);
        lemma_session_exact(s.apply(session[0].0, session[0].1).state, session.drop_first());
    }
}

/// What exact volumes are: each level is counted with the sum of the open
/// quantities of the orders in its queue, and each side with the sum over
/// its levels.
pub proof fn law_exact_volumes(s: BookState, which: Side, price: u64)
    requires
        s.volumes_exact(),
    ensures
        s.side(which).volume == side_open(s.orders, s.side(which)),
        s.side(which).levels.contains_key(price) ==> s.side(which).levels[price].volume
            == queue_open(s.orders, s.side(which).levels[price].ids),
{
}

/// A snapshot gives the book back: restoring the snapshot of a well-formed
/// book with exact volumes into any book gives a book with the same
/// orders, the same sides and the same counters, and so with the same best
/// prices, the same depth and the same order under every identifier.
pub proof fn law_snapshot_round_trip(s: BookState, t: BookState, ts: i64, limit: nat, id: u64)
    requires
        s.wf(),
        s.volumes_exact(),
    ensures
        t.restore(s.snapshot(ts)).orders == s.orders,
        t.restore(s.snapshot(ts)).bids == s.bids,
        t.restore(s.snapshot(ts)).asks == s.asks,
        t.restore(s.snapshot(ts)).next_order_id == s.next_order_id,
        t.restore(s.snapshot(ts)).last_op == s.last_op,
        t.restore(s.snapshot(ts)).best_bid() == s.best_bid(),
        t.restore(s.snapshot(ts)).best_ask() == s.best_ask(),
        t.restore(s.snapshot(ts)).bids.depth(limit) == s.bids.depth(limit),
        t.restore(s.snapshot(ts)).asks.depth(limit) == s.asks.depth(limit),
        t.restore(s.snapshot(ts)).order(id) == s.order(id),
        t.restore(s.snapshot(ts)).wf(),
        t.restore(s.snapshot(ts)).volumes_exact(),
{
    lemma_restore_snapshot(s, t, ts);
}

/// Replay is determined by the journal. Take any session on an empty
/// book with journaling on in which every refused command left the book as
/// it was. Replaying the journal of the session into an empty book, at any
/// times, fails nowhere and gives a book that shows what the book of the
/// session shows: the same sides, so the same best prices and the same
/// depth, the same next identifier, the same number of the last accepted
/// command, and under every identifier the same order but for its time of
/// entry.
pub proof fn law_replay_determinism(
    symbol: Seq<char>,
    session: Seq<(OrderOptions, i64)>,
    label: Seq<char>,
    journaling: bool,
    stamps: Seq<i64>,
    limit: nat,
    id: u64,
)
    requires
        refusals_change_nothing(BookState::empty(symbol, true), session),
    ensures
        ({
            let end = state_after(BookState::empty(symbol, true), session);
            let journal = journal_of(BookState::empty(symbol, true), session);
            let replayed = replay(
                BookState::empty(label, journaling),
                sorted_logs(journal),
                stamps,
            );
            &&& replayed.failure is None
            &&& alike(end, replayed.state)
            &&& replayed.state.last_op == end.last_op
            &&& replayed.state.next_order_id == end.next_order_id
            &&& replayed.state.best_bid() == end.best_bid()
            &&& replayed.state.best_ask() == end.best_ask()
            &&& replayed.state.bids.depth(limit) == end.bids.depth(limit)
            &&& replayed.state.asks.depth(limit) == end.asks.depth(limit)
            &&& replayed.state.orders.contains_key(id) == end.orders.contains_key(id)
            &&& end.orders.contains_key(id) ==> same_record(
                end.orders[id],
                replayed.state.orders[id],
            )
        }),
{
    let start = BookState::empty(symbol, true);
    let other = BookState::empty(label, journaling);
    lemma_journal_ascending(start, session);
    lemma_sorted_ascending(
        journal_of(start, session),
        start.last_op,
    );
    lemma_replay_journal(start, other, session, stamps);
}

/// A builder without a snapshot starts its book well formed and with
/// exact volumes, so the book that it builds is well formed, and has exact
/// volumes as long as they fitted the counter throughout the replay.
pub proof fn law_fresh_books_start_well_formed(b: BuilderState)
    requires
        b.snapshot is None,
    ensures
        b.start().wf(),
        b.start().volumes_exact(),
{
    lemma_empty_wf(b.symbol, b.journaling);
    lemma_empty_exact(b.symbol, b.journaling);
}

/// A builder with the snapshot of a well-formed book with exact volumes
/// starts its book well formed and with exact volumes.
pub proof fn law_restored_books_start_well_formed(b: BuilderState, s: BookState, ts: i64)
    requires
        s.wf(),
        s.volumes_exact(),
        b.snapshot == Some(s.snapshot(ts)),
    ensures
        b.start().wf(),
        b.start().volumes_exact(),
{
    lemma_restore_snapshot(s, BookState::empty(b.symbol, b.journaling), ts);
}

} // verus!

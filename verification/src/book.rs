//! The order book: submission, cancellation and replacement of orders, the
//! queries, snapshots and replay.

use crate::determinism::{
    lemma_replay_done, lemma_replay_fails, lemma_replay_next, lemma_replay_start, replays_to,
};
use crate::enums::{JournalOp, OrderOptions, OrderStatus, OrderType, Side, TimeInForce};
use crate::error::{make_error, ErrorType, OrderBookError};
use crate::integrity::{
    lemma_cancel_wf, lemma_empty_wf, lemma_limit_wf, lemma_market_wf, lemma_modify_wf,
};
use crate::journal::{level_prices, queues_view, JournalLog, Snapshot};
use crate::liquidity::{lemma_open_within_prefix, lemma_queue_open_bounds};
use crate::matching::{match_side, price_within_limit};
use crate::model::{
    ascending_levels, found_orders, inserted, listed_levels, match_levels, open_within, queue_open,
    replay, restore_queue, restore_side, sorted_logs, BookState, Matched,
};
use crate::order::{
    get_order_time_in_force, LimitOrder, LimitOrderOptions, MarketOrder, MarketOrderOptions,
    OrderId, Price, Quantity,
};
use crate::order_side::{lists_best_first, ordered, OrderSide, SideState};
use crate::report::{ExecutionReport, ExecutionReportParams, FillReport, Report};
use crate::utils::{current_timestamp_millis, safe_add, safe_sub};
use crate::volumes::{
    lemma_cancel_exact, lemma_empty_exact, lemma_limit_exact, lemma_market_exact,
    lemma_modify_exact, lemma_replay_exact, replay_fits,
};
use std::collections::{BTreeMap, HashMap, VecDeque};
use vstd::prelude::*;
use vstd::string::*;

verus! {

/// What a book is made with.
#[derive(Debug, Clone)]
pub struct OrderBookOptions {
    /// Whether accepted commands are journaled. Off by default.
    pub journaling: bool,
    /// The snapshot that the book starts from, if any.
    pub snapshot: Option<Snapshot>,
    /// The journal entries that are replayed into the book, if any.
    pub replay_logs: Option<Vec<JournalLog>>,
}

impl Default for OrderBookOptions {
    fn default() -> (options: Self)
        ensures
            !options.journaling,
            options.snapshot is None,
            options.replay_logs is None,
    {
        OrderBookOptions { journaling: false, snapshot: None, replay_logs: None }
    }
}

/// What both sides of a book show: price and volume of each level, best
/// first.
#[derive(Debug, Clone, PartialEq, Eq)]
pub struct Depth {
    /// The ask levels, lowest price first.
    pub asks: Vec<(Price, Quantity)>,
    /// The bid levels, highest price first.
    pub bids: Vec<(Price, Quantity)>,
}

/// The levels of a side as a depth shows them.
pub open spec fn shown(levels: Seq<(u64, u64)>) -> Seq<(Price, Quantity)> {
    Seq::new(levels.len(), |i: int| (Price(levels[i].0), Quantity(levels[i].1)))
}

/// Whether what a command returned is the given outcome: the report itself,
/// or the error of the kind of failure.
pub open spec fn answers(
    result: Result<ExecutionReport, OrderBookError>,
    expected: Result<Report, ErrorType>,
) -> bool {
    match (result, expected) {
        (Ok(report), Ok(r)) => report@ == r,
        (Err(error), Err(kind)) => error@ == kind.error(),
        _ => false,
    }
}

/// `x`, clamped to the range of `u64`.
pub open spec fn clamped(x: int) -> u64 {
    if x > u64::MAX {
        u64::MAX
    } else if x < 0 {
        0
    } else {
        x as u64
    }
}

/// Whether the orders of `side` at prices within the limit `price` are open
/// for at least `quantity`. `maker` is the side of the book that `side`
/// stands for.
pub fn side_is_fillable(
    orders: &HashMap<u64, LimitOrder>,
    side: &OrderSide,
    maker: Side,
    quantity: u64,
    price: u64,
) -> (b: bool)
    ensures
        b == (open_within(
            orders@,
            side@.levels,
            ordered(side@.prices, side@.side),
            maker,
            Some(price),
        ) >= quantity),
{
    let prices = side.ordered_prices();
    let n = prices.len();
    let mut cumulative: u64 = 0;
    let mut i: usize = 0;
    while i < n && cumulative < quantity
        invariant
            n == prices@.len(),
            0 <= i <= n,
            cumulative == clamped(
                open_within(orders@, side@.levels, prices@.take(i as int), maker, Some(price)),
            ),
        decreases n - i,
    {
        let p = prices[i];
        proof {
            assert(prices@.take(i as int + 1).drop_last() =~= prices@.take(i as int));
            assert(prices@.take(i as int + 1).last() == p);
            lemma_open_within_prefix(orders@, side@.levels, prices@, maker, Some(price), i as int);
        }
        if price_within_limit(maker, p, Some(price)) {
            match side.queue(p) {
                Some(q) => {
                    let ghost base = open_within(
                        orders@,
                        side@.levels,
                        prices@.take(i as int),
                        maker,
                        Some(price),
                    );
                    let len = q.len();
                    let mut j: usize = 0;
                    while j < len
                        invariant
                            len == q@.ids.len(),
                            0 <= j <= len,
                            base >= 0,
                            cumulative == clamped(
                                base + queue_open(orders@, q@.ids.take(j as int)),
                            ),
                        decreases len - j,
                    {
                        let id = q.get(j);
                        proof {
                            assert(q@.ids.take(j as int + 1).drop_last() =~= q@.ids.take(
                                j as int,
                            ));
                            assert(q@.ids.take(j as int + 1).last() == id);
                            lemma_queue_open_bounds(orders@, q@.ids.take(j as int));
                        }
                        match orders.get(&id) {
                            Some(o) => {
                                cumulative = safe_add(cumulative, o.remaining_qty().0);
                            },
                            None => {},
                        }
                        j = j + 1;
                    }
                    proof {
                        assert(q@.ids.take(len as int) =~= q@.ids);
                    }
                },
                None => {},
            }
        }
        i = i + 1;
    }
    proof {
        lemma_open_within_prefix(orders@, side@.levels, prices@, maker, Some(price), i as int);
        if i == n {
            assert(prices@.take(n as int) =~= prices@);
        }
    }
    cumulative >= quantity
}

/// A limit order book for one symbol.
pub struct OrderBook {
    last_op: u64,
    symbol: String,
    next_order_id: u64,
    orders: HashMap<u64, LimitOrder>,
    asks: OrderSide,
    bids: OrderSide,
    journaling: bool,
}

impl View for OrderBook {
    type V = BookState;

    closed spec fn view(&self) -> BookState {
        BookState {
            symbol: self.symbol@,
            orders: self.orders@,
            bids: self.bids@,
            asks: self.asks@,
            last_op: self.last_op,
            next_order_id: self.next_order_id,
            journaling: self.journaling,
        }
    }
}

impl OrderBook {
    /// An empty book with the given label. Of the options only the
    /// journaling flag is read.
    pub fn new(symbol: &str, opts: OrderBookOptions) -> (book: Self)
        ensures
            book@ == BookState::empty(symbol@, opts.journaling),
            book@.wf(),
            book@.volumes_exact(),
    {
        proof {
            lemma_empty_wf(symbol@, opts.journaling);
            lemma_empty_exact(symbol@, opts.journaling);
        }
        OrderBook {
            symbol: String::from_str(symbol),
            last_op: 0,
            next_order_id: 0,
            orders: HashMap::with_capacity(100_000),
            asks: OrderSide::with_capacity(Side::Sell, 1024),
            bids: OrderSide::with_capacity(Side::Buy, 1024),
            journaling: opts.journaling,
        }
    }

    /// The label of the book.
    pub fn symbol(&self) -> (symbol: &str)
        ensures
            symbol@ == self@.symbol,
    {
        self.symbol.as_str()
    }

    /// Whether accepted commands are journaled.
    pub fn journaling(&self) -> (journaling: bool)
        ensures
            journaling == self@.journaling,
    {
        self.journaling
    }

    /// Turns the journaling of accepted commands on or off.
    pub fn set_journaling(&mut self, enabled: bool)
        ensures
            final(self)@ == (BookState { journaling: enabled, ..old(self)@ }),
    {
        self.journaling = enabled;
    }

    /// The number of the last accepted command.
    pub fn last_op(&self) -> (last_op: u64)
        ensures
            last_op == self@.last_op,
    {
        self.last_op
    }

    /// The identifier that the next accepted order gets.
    pub fn next_order_id(&self) -> (id: OrderId)
        ensures
            id.0 == self@.next_order_id,
    {
        OrderId(self.next_order_id)
    }

    /// The number of resting orders.
    pub fn order_count(&self) -> (n: usize)
        ensures
            n == self@.orders.len(),
    {
        self.orders.len()
    }

    /// The volume that a side of the book is counted with.
    pub fn volume(&self, side: Side) -> (volume: Quantity)
        ensures
            volume.0 == self@.side(side).volume,
    {
        match side {
            Side::Buy => Quantity(self.bids.volume()),
            Side::Sell => Quantity(self.asks.volume()),
        }
    }

    /// Whether an order with the identifier rests in the book.
    pub fn contains_order(&self, id: OrderId) -> (b: bool)
        ensures
            b == self@.orders.contains_key(id.0),
    {
        self.orders.contains_key(&id.0)
    }

    /// Hands out the next identifier.
    fn new_order_id(&mut self) -> (id: OrderId)
        requires
            old(self)@.next_order_id < u64::MAX,
        ensures
            id.0 == old(self)@.next_order_id,
            final(self)@ == (BookState {
                next_order_id: (old(self)@.next_order_id + 1) as u64,
                ..old(self)@
            }),
    {
        let id = self.next_order_id;
        self.next_order_id = self.next_order_id + 1;
        OrderId(id)
    }

    /// Counts one more accepted command, whether journaling is on or off,
    /// and returns its journal entry, where journaling is on.
    fn journal_entry(&mut self, op: JournalOp, o: OrderOptions, ts: i64) -> (log: Option<
        JournalLog,
    >)
        ensures
            log == old(self)@.entry(op, o, ts),
            final(self)@ == (BookState { last_op: old(self)@.next_op(), ..old(self)@ }),
    {
        self.last_op = safe_add(self.last_op, 1);
        if self.journaling {
            Some(JournalLog { op_id: self.last_op, ts, op, o })
        } else {
            None
        }
    }

    /// Matches `quantity` of a buy against the asks and returns what is
    /// left of it.
    fn match_with_asks(
        &mut self,
        quantity: u64,
        fills: &mut Vec<FillReport>,
        limit_price: Option<u64>,
    ) -> (left: u64)
        ensures
            (Matched {
                orders: final(self)@.orders,
                side: final(self)@.asks,
                left,
                fills: final(fills)@,
            }) == match_levels(
                Matched {
                    orders: old(self)@.orders,
                    side: old(self)@.asks,
                    left: quantity,
                    fills: old(fills)@,
                },
                limit_price,
                Side::Sell,
            ),
            final(self)@ == (BookState {
                orders: final(self)@.orders,
                asks: final(self)@.asks,
                ..old(self)@
            }),
    {
        match_side(&mut self.orders, &mut self.asks, Side::Sell, quantity, fills, limit_price)
    }

    /// Matches `quantity` of a sell against the bids and returns what is
    /// left of it.
    fn match_with_bids(
        &mut self,
        quantity: u64,
        fills: &mut Vec<FillReport>,
        limit_price: Option<u64>,
    ) -> (left: u64)
        ensures
            (Matched {
                orders: final(self)@.orders,
                side: final(self)@.bids,
                left,
                fills: final(fills)@,
            }) == match_levels(
                Matched {
                    orders: old(self)@.orders,
                    side: old(self)@.bids,
                    left: quantity,
                    fills: old(fills)@,
                },
                limit_price,
                Side::Buy,
            ),
            final(self)@ == (BookState {
                orders: final(self)@.orders,
                bids: final(self)@.bids,
                ..old(self)@
            }),
    {
        match_side(&mut self.orders, &mut self.bids, Side::Buy, quantity, fills, limit_price)
    }

    /// Tells why a market order is refused, if it is: for a quantity of
    /// zero, or where the other side is empty, in this order.
    pub fn validate_market_order(&self, options: &MarketOrderOptions) -> (r: Result<(),
        OrderBookError>)
        ensures
            match r {
                Ok(_) => self@.market_rejection(*options) is None,
                Err(e) => self@.market_rejection(*options) is Some && e@
                    == self@.market_rejection(*options).unwrap().error(),
            },
    {
        if options.quantity.0 == 0 {
            return Err(make_error(ErrorType::InvalidQuantity));
        }
        let empty = match options.side {
            Side::Buy => self.asks.is_empty(),
            Side::Sell => self.bids.is_empty(),
        };
        if empty {
            return Err(make_error(ErrorType::OrderBookEmpty));
        }
        Ok(())
    }

    /// Whether a buy of `quantity` with the limit `price` can be filled in
    /// full at once.
    fn limit_buy_order_is_fillable(&self, quantity: u64, price: u64) -> (b: bool)
        ensures
            b == self@.fillable(Side::Buy, quantity, price),
    {
        side_is_fillable(&self.orders, &self.asks, Side::Sell, quantity, price)
    }

    /// Whether a sell of `quantity` with the limit `price` can be filled in
    /// full at once.
    fn limit_sell_order_is_fillable(&self, quantity: u64, price: u64) -> (b: bool)
        ensures
            b == self@.fillable(Side::Sell, quantity, price),
    {
        side_is_fillable(&self.orders, &self.bids, Side::Buy, quantity, price)
    }

    /// Whether an order of `quantity` on `side` with the limit `price` can
    /// be filled in full at once.
    fn limit_order_is_fillable(&self, side: Side, quantity: u64, price: u64) -> (b: bool)
        ensures
            b == self@.fillable(side, quantity, price),
    {
        match side {
            Side::Buy => self.limit_buy_order_is_fillable(quantity, price),
            Side::Sell => self.limit_sell_order_is_fillable(quantity, price),
        }
    }

    /// Whether an order on `side` at `price` would match on entry.
    fn would_cross(&self, side: Side, price: u64) -> (b: bool)
        ensures
            b == self@.crosses(side, price),
    {
        match side {
            Side::Buy => match self.asks.best() {
                Some(best) => price >= best,
                None => false,
            },
            Side::Sell => match self.bids.best() {
                Some(best) => price <= best,
                None => false,
            },
        }
    }

    /// Tells why a limit order is refused, if it is: for a quantity of zero,
    /// for a price of zero, as fill-or-kill where it cannot be filled in
    /// full, or as post-only where it would match on entry, in this order.
    pub fn validate_limit_order(&self, options: &LimitOrderOptions) -> (r: Result<
        (),
        OrderBookError,
    >)
        ensures
            match r {
                Ok(_) => self@.limit_rejection(*options) is None,
                Err(e) => self@.limit_rejection(*options) is Some && e@ == self@.limit_rejection(
                    *options,
                ).unwrap().error(),
            },
            (r is Err && r->Err_0.code == 1104) <==> {
                &&& options.quantity.0 >= 1
                &&& options.price.0 >= 1
                &&& options.tif() == TimeInForce::FOK ==> self@.fillable(
                    options.side,
                    options.quantity.0,
                    options.price.0,
                )
                &&& options.is_post_only()
                &&& self@.crosses(options.side, options.price.0)
            },
    {
        if options.quantity.0 == 0 {
            return Err(make_error(ErrorType::InvalidQuantity));
        }
        if options.price.0 == 0 {
            return Err(make_error(ErrorType::InvalidPrice));
        }
        let time_in_force = get_order_time_in_force(options.time_in_force);
        if time_in_force == TimeInForce::FOK {
            if !self.limit_order_is_fillable(options.side, options.quantity.0, options.price.0) {
                return Err(make_error(ErrorType::OrderFOK));
            }
        }
        let post_only = match options.post_only {
            Some(b) => b,
            None => false,
        };
        if post_only {
            if self.would_cross(options.side, options.price.0) {
                return Err(make_error(ErrorType::OrderPostOnly));
            }
        }
        Ok(())
    }

    /// Enters a market order at the time `ts`.
    pub fn market_at(&mut self, options: MarketOrderOptions, ts: i64) -> (result: Result<
        ExecutionReport,
        OrderBookError,
    >)
        requires
            old(self)@.next_order_id < u64::MAX,
        ensures
            final(self)@ == old(self)@.market(options, ts).state,
            answers(result, old(self)@.market(options, ts).result),
            old(self)@.wf() ==> final(self)@.wf(),
            old(self)@.wf() && old(self)@.volumes_exact() && final(self)@.volumes_fit()
                ==> final(self)@.volumes_exact(),
    {
        proof {
            if self@.wf() {
                lemma_market_wf(self@, options, ts);
                if self@.volumes_exact() && self@.market(options, ts).state.volumes_fit() {
                    lemma_market_exact(self@, options, ts);
                }
            }
        }
        if let Err(err) = self.validate_market_order(&options) {
            return Err(err);
        }
        let mut order = MarketOrder::new(self.new_order_id(), options);
        let mut report = ExecutionReport::new(
            ExecutionReportParams {
                id: order.id,
                order_type: OrderType::Market,
                side: order.side,
                quantity: order.orig_qty,
                status: order.status,
                time_in_force: None,
                price: None,
                post_only: false,
            },
        );
        let mut fills: Vec<FillReport> = Vec::new();
        let left = match order.side {
            Side::Buy => self.match_with_asks(order.orig_qty.0, &mut fills, None),
            Side::Sell => self.match_with_bids(order.orig_qty.0, &mut fills, None),
        };
        order.executed_qty = Quantity(safe_sub(order.orig_qty.0, left));
        order.status = if left > 0 {
            OrderStatus::PartiallyFilled
        } else {
            OrderStatus::Filled
        };
        report.remaining_qty = Quantity(left);
        report.executed_qty = order.executed_qty;
        report.status = order.status;
        report.taker_qty = order.executed_qty;
        report.fills = fills;
        report.log = self.journal_entry(JournalOp::Market, OrderOptions::Market(options), ts);
        Ok(report)
    }

    /// Enters a limit order at the time `ts`.
    pub fn limit_at(&mut self, options: LimitOrderOptions, ts: i64) -> (result: Result<
        ExecutionReport,
        OrderBookError,
    >)
        requires
            old(self)@.next_order_id < u64::MAX,
        ensures
            final(self)@ == old(self)@.limit(options, ts).state,
            answers(result, old(self)@.limit(options, ts).result),
            old(self)@.wf() ==> final(self)@.wf(),
            old(self)@.wf() && old(self)@.volumes_exact() && final(self)@.volumes_fit()
                ==> final(self)@.volumes_exact(),
    {
        proof {
            if self@.wf() {
                lemma_limit_wf(self@, options, ts);
                if self@.volumes_exact() && self@.limit(options, ts).state.volumes_fit() {
                    lemma_limit_exact(self@, options, ts);
                }
            }
        }
        if let Err(err) = self.validate_limit_order(&options) {
            return Err(err);
        }
        let mut order = LimitOrder::new(self.new_order_id(), options, ts);
        let mut report = ExecutionReport::new(
            ExecutionReportParams {
                id: order.id,
                order_type: OrderType::Limit,
                side: order.side,
                quantity: order.orig_qty,
                status: order.status,
                time_in_force: Some(order.time_in_force),
                price: Some(order.price),
                post_only: order.post_only,
            },
        );
        let mut fills: Vec<FillReport> = Vec::new();
        let left = match order.side {
            Side::Buy => self.match_with_asks(order.orig_qty.0, &mut fills, Some(order.price.0)),
            Side::Sell => self.match_with_bids(order.orig_qty.0, &mut fills, Some(order.price.0)),
        };
        order.executed_qty = Quantity(safe_sub(order.orig_qty.0, left));
        order.taker_qty = order.executed_qty;
        order.maker_qty = Quantity(left);
        if left > 0 {
            if order.time_in_force == TimeInForce::IOC {
                order.status = OrderStatus::Canceled;
            } else {
                order.status = OrderStatus::PartiallyFilled;
                self.orders.insert(order.id.0, order);
                match order.side {
                    Side::Buy => self.bids.append(order.id.0, left, order.price.0),
                    Side::Sell => self.asks.append(order.id.0, left, order.price.0),
                }
            }
        } else {
            order.status = OrderStatus::Filled;
        }
        report.remaining_qty = Quantity(left);
        report.executed_qty = order.executed_qty;
        report.taker_qty = order.taker_qty;
        report.maker_qty = order.maker_qty;
        report.status = order.status;
        report.fills = fills;
        report.log = self.journal_entry(JournalOp::Limit, OrderOptions::Limit(options), ts);
        Ok(report)
    }

    /// Cancels the resting order with the identifier at the time `ts`.
    pub fn cancel_at(&mut self, id: OrderId, ts: i64) -> (result: Result<
        ExecutionReport,
        OrderBookError,
    >)
        ensures
            final(self)@ == old(self)@.cancel(id.0, ts).state,
            answers(result, old(self)@.cancel(id.0, ts).result),
            old(self)@.wf() ==> final(self)@.wf(),
            old(self)@.wf() && old(self)@.volumes_exact() && final(self)@.volumes_fit()
                ==> final(self)@.volumes_exact(),
    {
        proof {
            if self@.wf() {
                lemma_cancel_wf(self@, id.0, ts);
                if self@.volumes_exact() && self@.cancel(id.0, ts).state.volumes_fit() {
                    lemma_cancel_exact(self@, id.0, ts);
                }
            }
        }
        let order = match self.orders.remove(&id.0) {
            Some(o) => o,
            None => {
                proof {
                    assert(self.orders@ =~= old(self).orders@);
                }
                return Err(make_error(ErrorType::OrderNotFound));
            },
        };
        let open = order.remaining_qty().0;
        match order.side {
            Side::Buy => self.bids.remove_order(id.0, open, order.price.0),
            Side::Sell => self.asks.remove_order(id.0, open, order.price.0),
        }
        let log = self.journal_entry(JournalOp::Cancel, OrderOptions::Cancel(id), ts);
        Ok(
            ExecutionReport {
                order_id: order.id,
                orig_qty: order.orig_qty,
                executed_qty: order.executed_qty,
                remaining_qty: order.remaining_qty(),
                taker_qty: order.taker_qty,
                maker_qty: order.maker_qty,
                order_type: order.order_type,
                side: order.side,
                price: order.price,
                status: OrderStatus::Canceled,
                time_in_force: order.time_in_force,
                post_only: order.post_only,
                fills: Vec::new(),
                log,
            },
        )
    }

    /// Replaces the resting order with the identifier at the time `ts`.
    pub fn modify_at(
        &mut self,
        id: OrderId,
        price: Option<Price>,
        quantity: Option<Quantity>,
        ts: i64,
    ) -> (result: Result<ExecutionReport, OrderBookError>)
        requires
            old(self)@.next_order_id < u64::MAX,
        ensures
            final(self)@ == old(self)@.modify(id.0, price, quantity, ts).state,
            answers(result, old(self)@.modify(id.0, price, quantity, ts).result),
            old(self)@.wf() ==> final(self)@.wf(),
            old(self)@.wf() && old(self)@.volumes_exact() && final(self)@.volumes_fit()
                ==> final(self)@.volumes_exact(),
    {
        proof {
            if self@.wf() {
                lemma_modify_wf(self@, id.0, price, quantity, ts);
                if self@.volumes_exact() && self@.modify(id.0, price, quantity,
                    ts).state.volumes_fit() {
                    lemma_modify_exact(self@, id.0, price, quantity, ts);
                }
            }
        }
        let order = match self.orders.get(&id.0) {
            Some(o) => *o,
            None => {
                return Err(make_error(ErrorType::OrderNotFound));
            },
        };
        if price.is_none() && quantity.is_none() {
            return Err(make_error(ErrorType::InvalidPriceOrQuantity));
        }
        let journaling = self.journaling;
        let last_op = self.last_op;
        self.journaling = false;
        let _ = self.cancel_at(id, ts);
        let options = LimitOrderOptions {
            side: order.side,
            quantity: match quantity {
                Some(q) => q,
                None => order.remaining_qty(),
            },
            price: match price {
                Some(p) => p,
                None => order.price,
            },
            time_in_force: Some(order.time_in_force),
            post_only: Some(order.post_only),
        };
        let entered = self.limit_at(options, ts);
        self.journaling = journaling;
        self.last_op = last_op;
        match entered {
            Err(e) => Err(e),
            Ok(report) => {
                let mut report = report;
                report.log = self.journal_entry(
                    JournalOp::Modify,
                    OrderOptions::Modify { id, price, quantity },
                    ts,
                );
                Ok(report)
            },
        }
    }

    /// Enters a market order: matches it at once against the best prices of
    /// the other side. The time of the entry is read from the clock.
    pub fn market(&mut self, options: MarketOrderOptions) -> (result: Result<
        ExecutionReport,
        OrderBookError,
    >)
        requires
            old(self)@.next_order_id < u64::MAX,
        ensures
            exists|ts: i64|
                final(self)@ == old(self)@.market(options, ts).state && answers(
                    result,
                    old(self)@.market(options, ts).result,
                ),
            old(self)@.wf() ==> final(self)@.wf(),
            old(self)@.wf() && old(self)@.volumes_exact() && final(self)@.volumes_fit()
                ==> final(self)@.volumes_exact(),
    {
        let ts = current_timestamp_millis();
        self.market_at(options, ts)
    }

    /// Enters a limit order: matches it up to its price and lets the rest
    /// of it rest in the book, as its time in force says. The time of the
    /// entry is read from the clock.
    pub fn limit(&mut self, options: LimitOrderOptions) -> (result: Result<
        ExecutionReport,
        OrderBookError,
    >)
        requires
            old(self)@.next_order_id < u64::MAX,
        ensures
            exists|ts: i64|
                final(self)@ == old(self)@.limit(options, ts).state && answers(
                    result,
                    old(self)@.limit(options, ts).result,
                ),
            old(self)@.wf() ==> final(self)@.wf(),
            old(self)@.wf() && old(self)@.volumes_exact() && final(self)@.volumes_fit()
                ==> final(self)@.volumes_exact(),
    {
        let ts = current_timestamp_millis();
        self.limit_at(options, ts)
    }

    /// Cancels the resting order with the identifier. The time of the
    /// cancellation is read from the clock.
    pub fn cancel(&mut self, id: OrderId) -> (result: Result<ExecutionReport, OrderBookError>)
        ensures
            exists|ts: i64|
                final(self)@ == old(self)@.cancel(id.0, ts).state && answers(
                    result,
                    old(self)@.cancel(id.0, ts).result,
                ),
            old(self)@.wf() ==> final(self)@.wf(),
            old(self)@.wf() && old(self)@.volumes_exact() && final(self)@.volumes_fit()
                ==> final(self)@.volumes_exact(),
    {
        let ts = current_timestamp_millis();
        self.cancel_at(id, ts)
    }

    /// Replaces the resting order with the identifier by a new order with
    /// the given price and quantity, which gets a new identifier and the
    /// last place in its queue. The time of the replacement is read from
    /// the clock.
    pub fn modify(
        &mut self,
        id: OrderId,
        price: Option<Price>,
        quantity: Option<Quantity>,
    ) -> (result: Result<ExecutionReport, OrderBookError>)
        requires
            old(self)@.next_order_id < u64::MAX,
        ensures
            exists|ts: i64|
                final(self)@ == old(self)@.modify(id.0, price, quantity, ts).state && answers(
                    result,
                    old(self)@.modify(id.0, price, quantity, ts).result,
                ),
            old(self)@.wf() ==> final(self)@.wf(),
            old(self)@.wf() && old(self)@.volumes_exact() && final(self)@.volumes_fit()
                ==> final(self)@.volumes_exact(),
    {
        let ts = current_timestamp_millis();
        self.modify_at(id, price, quantity, ts)
    }

    /// The orders that rest at a price on a side, earliest first.
    pub fn get_orders_at_price(&self, price: Price, side: Side) -> (orders: Vec<LimitOrder>)
        ensures
            orders@ == self@.orders_at(price.0, side),
    {
        let mut orders: Vec<LimitOrder> = Vec::new();
        let queue = match side {
            Side::Buy => self.bids.queue(price.0),
            Side::Sell => self.asks.queue(price.0),
        };
        if let Some(q) = queue {
            let n = q.len();
            let mut i: usize = 0;
            while i < n
                invariant
                    n == q@.ids.len(),
                    0 <= i <= n,
                    orders@ == found_orders(self.orders@, q@.ids.take(i as int)),
                decreases n - i,
            {
                let id = q.get(i);
                proof {
                    assert(q@.ids.take(i as int + 1).drop_last() =~= q@.ids.take(i as int));
                    assert(q@.ids.take(i as int + 1).last() == id);
                }
                if let Some(order) = self.orders.get(&id) {
                    orders.push(*order);
                }
                i = i + 1;
            }
            proof {
                assert(q@.ids.take(n as int) =~= q@.ids);
            }
        }
        orders
    }

    /// The resting order with the identifier.
    pub fn get_order(&self, id: OrderId) -> (result: Result<LimitOrder, OrderBookError>)
        ensures
            match result {
                Ok(order) => self@.order(id.0) == Ok::<LimitOrder, ErrorType>(order),
                Err(e) => self@.order(id.0) is Err && e@ == ErrorType::OrderNotFound.error(),
            },
    {
        match self.orders.get(&id.0) {
            Some(o) => Ok(*o),
            None => Err(make_error(ErrorType::OrderNotFound)),
        }
    }

    /// The highest bid.
    pub fn best_bid(&self) -> (price: Option<Price>)
        ensures
            match price {
                Some(p) => self@.best_bid() == Some(p.0),
                None => self@.best_bid() is None,
            },
    {
        match self.bids.best() {
            Some(p) => Some(Price(p)),
            None => None,
        }
    }

    /// The lowest ask.
    pub fn best_ask(&self) -> (price: Option<Price>)
        ensures
            match price {
                Some(p) => self@.best_ask() == Some(p.0),
                None => self@.best_ask() is None,
            },
    {
        match self.asks.best() {
            Some(p) => Some(Price(p)),
            None => None,
        }
    }

    /// The price half way between the best bid and the best ask, rounded
    /// down; nothing where a side is empty.
    pub fn mid_price(&self) -> (price: Option<Price>)
        ensures
            match price {
                Some(p) => self@.mid_price() == Some(p.0),
                None => self@.mid_price() is None,
            },
    {
        match (self.best_bid(), self.best_ask()) {
            (Some(bid), Some(ask)) => Some(Price(safe_add(bid.0, ask.0) / 2)),
            _ => None,
        }
    }

    /// The best ask less the best bid; nothing where a side is empty.
    pub fn spread(&self) -> (price: Option<Price>)
        ensures
            match price {
                Some(p) => self@.spread() == Some(p.0),
                None => self@.spread() is None,
            },
    {
        match (self.best_bid(), self.best_ask()) {
            (Some(bid), Some(ask)) => Some(Price(safe_sub(ask.0, bid.0))),
            _ => None,
        }
    }

    /// What both sides show down to `limit` levels each, 100 where no limit
    /// is given.
    pub fn depth(&self, limit: Option<usize>) -> (depth: Depth)
        ensures
            depth.asks@ == shown(self@.asks.depth(depth_limit(limit))),
            depth.bids@ == shown(self@.bids.depth(depth_limit(limit))),
    {
        let levels = match limit {
            Some(n) => n,
            None => 100,
        };
        Depth {
            asks: self.get_asks_prices_and_volume(levels),
            bids: self.get_bids_prices_and_volume(levels),
        }
    }

    /// What the asks show down to `levels` levels.
    fn get_asks_prices_and_volume(&self, levels: usize) -> (asks: Vec<(Price, Quantity)>)
        ensures
            asks@ == shown(self@.asks.depth(levels as nat)),
    {
        show_levels(self.asks.depth(levels))
    }

    /// What the bids show down to `levels` levels.
    fn get_bids_prices_and_volume(&self, levels: usize) -> (bids: Vec<(Price, Quantity)>)
        ensures
            bids@ == shown(self@.bids.depth(levels as nat)),
    {
        show_levels(self.bids.depth(levels))
    }

    /// The snapshot of the book at the time `ts`.
    pub fn snapshot_at(&self, ts: i64) -> (snapshot: Snapshot)
        ensures
            snapshot@ == self@.snapshot(ts),
    {
        Snapshot {
            orders: self.orders.clone(),
            bids: list_levels(&self.bids),
            asks: list_levels(&self.asks),
            last_op: self.last_op,
            next_order_id: OrderId(self.next_order_id),
            ts,
        }
    }

    /// The snapshot of the book: all that is needed to build it anew. The
    /// time of the snapshot is read from the clock.
    pub fn snapshot(&self) -> (snapshot: Snapshot)
        ensures
            exists|ts: i64| snapshot@ == self@.snapshot(ts),
    {
        let ts = current_timestamp_millis();
        self.snapshot_at(ts)
    }

    /// Puts the book into the state of a snapshot, in place of what it
    /// held. The label and the journaling flag stay.
    pub fn restore_snapshot(&mut self, snapshot: Snapshot)
        ensures
            final(self)@ == old(self)@.restore(snapshot@),
    {
        self.bids = rebuild_side(Side::Buy, &snapshot.orders, &snapshot.bids);
        self.asks = rebuild_side(Side::Sell, &snapshot.orders, &snapshot.asks);
        self.orders = snapshot.orders;
        self.last_op = snapshot.last_op;
        self.next_order_id = snapshot.next_order_id.0;
    }

    /// Applies the command of a journal entry at the time `ts`.
    pub fn apply_at(&mut self, o: OrderOptions, ts: i64) -> (result: Result<
        ExecutionReport,
        OrderBookError,
    >)
        requires
            old(self)@.next_order_id < u64::MAX,
        ensures
            final(self)@ == old(self)@.apply(o, ts).state,
            answers(result, old(self)@.apply(o, ts).result),
            old(self)@.wf() ==> final(self)@.wf(),
            old(self)@.wf() && old(self)@.volumes_exact() && final(self)@.volumes_fit()
                ==> final(self)@.volumes_exact(),
    {
        match o {
            OrderOptions::Market(options) => self.market_at(options, ts),
            OrderOptions::Limit(options) => self.limit_at(options, ts),
            OrderOptions::Cancel(id) => self.cancel_at(id, ts),
            OrderOptions::Modify { id, price, quantity } => self.modify_at(id, price, quantity, ts),
        }
    }

    /// Applies journal entries to the book, by ascending number, each as
    /// the command that it records, at the time that the clock shows then.
    /// The first command that fails ends the replay, and its error is
    /// returned; what was applied before stays. A well-formed book stays
    /// well formed, and its volumes stay exact as long as the open quantity
    /// of each side fits the counter after every command that is applied.
    pub fn replay_logs(&mut self, logs: Vec<JournalLog>) -> (result: Result<(), OrderBookError>)
        requires
            old(self)@.next_order_id + logs@.len() <= u64::MAX,
        ensures
            exists|stamps: Seq<i64>|
                {
                    let replayed = #[trigger] replay(old(self)@, sorted_logs(logs@), stamps);
                    &&& final(self)@ == replayed.state
                    &&& match result {
                        Ok(_) => replayed.failure is None,
                        Err(e) => replayed.failure is Some && e@
                            == replayed.failure.unwrap().error(),
                    }
                    &&& old(self)@.wf() && old(self)@.volumes_exact() && replay_fits(
                        old(self)@,
                        sorted_logs(logs@),
                        stamps,
                    ) ==> final(self)@.volumes_exact()
                },
            old(self)@.wf() ==> final(self)@.wf(),
    {
        let sorted = sort_logs(&logs);
        let n = sorted.len();
        let mut i: usize = 0;
        let ghost mut seen: Seq<i64> = Seq::empty();
        proof {
            lemma_replay_start(self@, sorted@);
        }
        while i < n
            invariant
                n == sorted@.len(),
                n == logs@.len(),
                0 <= i <= n,
                sorted@ == sorted_logs(logs@),
                self@.next_order_id + (n - i) <= u64::MAX,
                old(self)@.next_order_id + n <= u64::MAX,
                replays_to(old(self)@, sorted@, seen, self@, i as int),
                old(self)@.wf() ==> self@.wf(),
            decreases n - i,
        {
            let ghost before = self@;
            let ts = current_timestamp_millis();
            proof {
                lemma_apply_next_id(before, sorted@[i as int].o, ts);
            }
            let res = self.apply_at(sorted[i].o, ts);
            if let Err(e) = res {
                proof {
                    lemma_replay_fails(old(self)@, sorted@, seen, before, i as int, ts);
                    let stamps = seen.push(ts);
                    if old(self)@.wf() && old(self)@.volumes_exact() && replay_fits(
                        old(self)@,
                        sorted@,
                        stamps,
                    ) {
                        lemma_replay_exact(old(self)@, sorted@, stamps);
                    }
                }
                return Err(e);
            }
            proof {
                lemma_replay_next(old(self)@, sorted@, seen, before, i as int, ts);
                seen = seen.push(ts);
            }
            i = i + 1;
        }
        proof {
            lemma_replay_done(old(self)@, sorted@, seen, self@);
            if old(self)@.wf() && old(self)@.volumes_exact() && replay_fits(
                old(self)@,
                sorted@,
                seen,
            ) {
                lemma_replay_exact(old(self)@, sorted@, seen);
            }
        }
        Ok(())
    }

    /// The text of the book: a line `price -> volume` for each ask level,
    /// highest price first, a line of dashes, and a line for each bid
    /// level, highest price first.
    pub fn to_string(&self) -> (text: String)
        ensures
            text@ == self@.text(),
    {
        let mut text = self.asks.to_string();
        text.append("------------------------------------\n");
        let bids = self.bids.to_string();
        text.append(bids.as_str());
        text
    }
}

/// The number of levels that a depth shows of each side: the limit given,
/// or 100.
pub open spec fn depth_limit(limit: Option<usize>) -> nat {
    match limit {
        Some(n) => n as nat,
        None => 100,
    }
}

/// The levels of a side as a depth shows them.
fn show_levels(levels: Vec<(u64, u64)>) -> (out: Vec<(Price, Quantity)>)
    ensures
        out@ == shown(levels@),
{
    let mut out: Vec<(Price, Quantity)> = Vec::new();
    let n = levels.len();
    let mut i: usize = 0;
    while i < n
        invariant
            n == levels@.len(),
            0 <= i <= n,
            out@.len() == i,
            forall|k: int|
                0 <= k < i ==> #[trigger] out@[k] == (
                    Price(levels@[k].0),
                    Quantity(levels@[k].1),
                ),
        decreases n - i,
    {
        let level = levels[i];
        out.push((Price(level.0), Quantity(level.1)));
        i = i + 1;
    }
    proof {
        assert(out@ =~= shown(levels@));
    }
    out
}

/// The queues of a side as a snapshot holds them: under each price of the
/// side the identifiers in the queue of its level.
pub fn list_levels(side: &OrderSide) -> (levels: BTreeMap<u64, VecDeque<u64>>)
    ensures
        queues_view(levels@) == listed_levels(side@),
{
    let prices = side.ordered_prices();
    let n = prices.len();
    let mut levels: BTreeMap<u64, VecDeque<u64>> = BTreeMap::new();
    let mut i: usize = 0;
    while i < n
        invariant
            n == prices@.len(),
            lists_best_first(prices@, side@.prices, side@.side),
            0 <= i <= n,
            forall|p: u64|
                levels@.contains_key(p) <==> exists|k: int| 0 <= k < i && prices@[k] == p,
            forall|p: u64| #[trigger]
                levels@.contains_key(p) ==> levels@[p]@ == listed_levels(side@)[p],
        decreases n - i,
    {
        let p = prices[i];
        let ids = match side.queue(p) {
            Some(q) => q.to_deque(),
            None => VecDeque::new(),
        };
        let ghost before = levels@;
        levels.insert(p, ids);
        proof {
            assert forall|q: u64| levels@.contains_key(q) implies exists|k: int|
                0 <= k < i + 1 && prices@[k] == q by {
                if q == p {
                    assert(prices@[i as int] == q);
                } else {
                    assert(before.contains_key(q));
                    let k = choose|k: int| 0 <= k < i && prices@[k] == q;
                    assert(0 <= k < i + 1 && prices@[k] == q);
                }
            }
        }
        i = i + 1;
    }
    proof {
        assert forall|p: u64| side@.prices.contains(p) implies levels@.contains_key(p) by {
            assert(prices@.contains(p));
            let k = choose|k: int| 0 <= k < n && prices@[k] == p;
            assert(0 <= k < i && prices@[k] == p);
        }
        assert forall|p: u64| levels@.contains_key(p) implies side@.prices.contains(p) by {
            let k = choose|k: int| 0 <= k < i && prices@[k] == p;
            assert(side@.prices.contains(prices@[k]));
        }
        assert(queues_view(levels@) =~= listed_levels(side@));
    }
    levels
}

/// A side built from the queues of a snapshot: level by level by ascending
/// price, the orders of each queue appended in turn, each counted with the
/// quantity that it is open for.
pub fn rebuild_side(
    side: Side,
    orders: &HashMap<u64, LimitOrder>,
    levels: &BTreeMap<u64, VecDeque<u64>>,
) -> (built: OrderSide)
    ensures
        built@ == restore_side(
            SideState::empty(side),
            orders@,
            ascending_levels(queues_view(levels@)),
        ),
{
    let prices = level_prices(levels);
    let n = prices.len();
    let mut built = OrderSide::with_capacity(side, n);
    let ghost listed = ascending_levels(queues_view(levels@));
    proof {
        assert(queues_view(levels@).dom() =~= levels@.dom());
    }
    let mut i: usize = 0;
    while i < n
        invariant
            n == prices@.len(),
            prices@ == ordered(levels@.dom(), Side::Sell),
            lists_best_first(prices@, levels@.dom(), Side::Sell),
            listed == ascending_levels(queues_view(levels@)),
            listed.len() == n,
            0 <= i <= n,
            built@ == restore_side(SideState::empty(side), orders@, listed.take(i as int)),
        decreases n - i,
    {
        let price = prices[i];
        proof {
            assert(levels@.dom().contains(prices@[i as int]));
        }
        let ghost base = built@;
        if let Some(ids) = levels.get(&price) {
            let len = ids.len();
            proof {
                assert(queues_view(levels@).dom() =~= levels@.dom());
                assert(listed[i as int] == (price, ids@));
                assert(listed.take(i as int + 1).drop_last() =~= listed.take(i as int));
                assert(listed.take(i as int + 1).last() == (price, ids@));
            }
            let mut j: usize = 0;
            while j < len
                invariant
                    len == ids@.len(),
                    0 <= j <= len,
                    built@ == restore_queue(base, orders@, price, ids@.take(j as int)),
                decreases len - j,
            {
                let id = ids[j];
                proof {
                    assert(ids@.take(j as int + 1).drop_last() =~= ids@.take(j as int));
                    assert(ids@.take(j as int + 1).last() == id);
                }
                let open = match orders.get(&id) {
                    Some(o) => o.remaining_qty().0,
                    None => 0,
                };
                built.append(id, open, price);
                j = j + 1;
            }
            proof {
                assert(ids@.take(len as int) =~= ids@);
            }
        }
        i = i + 1;
    }
    proof {
        assert(listed.take(n as int) =~= listed);
    }
    built
}

/// Putting an entry in at place `k` is `inserted`, where the entries from
/// `k` on have higher numbers and the one before `k` has not.
pub proof fn lemma_inserted_at(sorted: Seq<JournalLog>, log: JournalLog, k: int)
    requires
        0 <= k <= sorted.len(),
        forall|j: int| k <= j < sorted.len() ==> sorted[j].op_id > log.op_id,
        k > 0 ==> sorted[k - 1].op_id <= log.op_id,
    ensures
        inserted(sorted, log) == sorted.insert(k, log),
    decreases sorted.len(),
{
    if sorted.len() == 0 {
        assert(sorted.insert(k, log) =~= seq![log]);
    } else if k == sorted.len() {
        assert(sorted.insert(k, log) =~= sorted.push(log));
    } else {
        lemma_inserted_at(sorted.drop_last(), log, k);
        assert(sorted.insert(k, log) =~= sorted.drop_last().insert(k, log).push(sorted.last()));
    }
}

/// The entries by ascending number, entries of one number in the order in
/// which they came.
pub fn sort_logs(logs: &Vec<JournalLog>) -> (sorted: Vec<JournalLog>)
    ensures
        sorted@ == sorted_logs(logs@),
        sorted@.len() == logs@.len(),
{
    let mut sorted: Vec<JournalLog> = Vec::new();
    let n = logs.len();
    let mut i: usize = 0;
    while i < n
        invariant
            n == logs@.len(),
            0 <= i <= n,
            sorted@ == sorted_logs(logs@.take(i as int)),
            sorted@.len() == i,
        decreases n - i,
    {
        let log = logs[i];
        proof {
            assert(logs@.take(i as int + 1).drop_last() =~= logs@.take(i as int));
            assert(logs@.take(i as int + 1).last() == log);
        }
        let mut k: usize = sorted.len();
        while k > 0 && sorted[k - 1].op_id > log.op_id
            invariant
                0 <= k <= sorted@.len(),
                forall|j: int| k <= j < sorted@.len() ==> sorted@[j].op_id > log.op_id,
            decreases k,
        {
            k = k - 1;
        }
        proof {
            lemma_inserted_at(sorted@, log, k as int);
        }
        sorted.insert(k, log);
        i = i + 1;
    }
    proof {
        assert(logs@.take(n as int) =~= logs@);
    }
    sorted
}

/// A command takes at most one identifier.
pub proof fn lemma_apply_next_id(state: BookState, o: OrderOptions, ts: i64)
    requires
        state.next_order_id < u64::MAX,
    ensures
        state.next_order_id <= state.apply(o, ts).state.next_order_id <= state.next_order_id + 1,
{
}

} // verus!

//! What the book is and does, as mathematics: the state of a book as plain
//! values, and each command as a function from state to state and outcome.

use crate::enums::{JournalOp, OrderOptions, OrderStatus, OrderType, Side, TimeInForce};
use crate::error::ErrorType;
use crate::journal::{JournalLog, SnapshotState};
use crate::order::{LimitOrder, LimitOrderOptions, MarketOrderOptions, OrderId, Price, Quantity};
use crate::order_queue::Level;
use crate::order_side::{ordered, SideState};
use crate::report::{FillReport, Report};
use crate::utils::{sat_add, sat_sub};
use vstd::prelude::*;

verus! {

/// The state of a matching run while the queue of one level is detached.
pub ghost struct Matching {
    /// The resting orders by identifier.
    pub orders: Map<u64, LimitOrder>,
    /// The side that is matched against, without the detached level.
    pub side: SideState,
    /// The detached queue.
    pub queue: Level,
    /// The quantity that is still wanted.
    pub left: u64,
    /// The trades made so far.
    pub fills: Seq<FillReport>,
}

/// The state of a matching run between two levels.
pub ghost struct Matched {
    /// The resting orders by identifier.
    pub orders: Map<u64, LimitOrder>,
    /// The side that is matched against.
    pub side: SideState,
    /// The quantity that is still wanted.
    pub left: u64,
    /// The trades made so far.
    pub fills: Seq<FillReport>,
}

/// A resting order after `quantity` of it was executed and some of it is
/// still open.
pub open spec fn partially_filled(o: LimitOrder, quantity: u64) -> LimitOrder {
    LimitOrder {
        executed_qty: Quantity(sat_add(o.executed_qty.0, quantity)),
        status: OrderStatus::PartiallyFilled,
        ..o
    }
}

/// The trade that takes `quantity` from the resting order `o`.
pub open spec fn fill_of(o: LimitOrder, quantity: u64, status: OrderStatus) -> FillReport {
    FillReport { order_id: o.id, price: o.price, quantity: Quantity(quantity), status }
}

/// The state of a run after the head of the detached queue gave all that it
/// is open for: the order has left the queue and the index, and where the
/// queue is empty now, the level has left the side.
pub open spec fn after_full(m: Matching, price: u64) -> Matching {
    let id = m.queue.ids[0];
    let o = m.orders[id];
    let ids = m.queue.ids.drop_first();
    Matching {
        orders: m.orders.remove(id),
        side: m.side.removed(o.remaining(), price, ids.len() == 0),
        queue: Level { ids, volume: sat_sub(m.queue.volume, o.remaining()) },
        left: (m.left - o.remaining()) as u64,
        fills: m.fills.push(fill_of(o, o.remaining(), OrderStatus::Filled)),
    }
}

/// The state of a run after the head of the detached queue gave what was
/// wanted and stays open for more: the order stays at the head, and
/// nothing more is wanted.
pub open spec fn after_part(m: Matching) -> Matching {
    let id = m.queue.ids[0];
    let o = m.orders[id];
    Matching {
        orders: m.orders.insert(id, partially_filled(o, m.left)),
        side: m.side.reduced(m.left),
        queue: Level { ids: m.queue.ids, volume: sat_sub(m.queue.volume, m.left) },
        left: 0,
        fills: m.fills.push(fill_of(o, m.left, OrderStatus::PartiallyFilled)),
    }
}

/// Matches the wanted quantity against the detached queue of the level at
/// `price`, from the head. An order that is open for more than is wanted
/// gives what is wanted and stays at the head. Any other order gives all
/// that it is open for and leaves the queue and the index, and the run goes
/// on with the next. The run ends when nothing more is wanted, when the queue
/// is empty, or at an identifier that the index does not hold.
pub open spec fn consume(m: Matching, price: u64) -> Matching
    decreases m.queue.ids.len(),
{
    if m.left == 0 || m.queue.ids.len() == 0 || !m.orders.contains_key(m.queue.ids[0]) {
        m
    } else if m.left < m.orders[m.queue.ids[0]].remaining() {
        after_part(m)
    } else {
        consume(after_full(m, price), price)
    }
}

/// Whether a resting price on the side `maker` may trade with an order of
/// the given limit: an ask at most the limit of a buy, a bid at least the
/// limit of a sell. An order without a limit trades at any price.
pub open spec fn within_limit(maker: Side, price: u64, limit: Option<u64>) -> bool {
    match limit {
        None => true,
        Some(l) => match maker {
            Side::Sell => price <= l,
            Side::Buy => price >= l,
        },
    }
}

/// The side after the run on the level at `price`: the queue is attached
/// again where orders are left in it.
pub open spec fn settle(c: Matching, price: u64) -> SideState {
    if c.queue.ids.len() > 0 {
        c.side.attach(price, c.queue)
    } else {
        c.side
    }
}

/// The run on the level at `price`, from detaching the queue to attaching
/// what is left of it.
pub open spec fn match_level(m: Matched, price: u64) -> Matched {
    let c = consume(
        Matching {
            orders: m.orders,
            side: m.side.detach(price),
            queue: m.side.levels[price],
            left: m.left,
            fills: m.fills,
        },
        price,
    );
    Matched { orders: c.orders, side: settle(c, price), left: c.left, fills: c.fills }
}

/// Matches the wanted quantity against a side, level by level, best price
/// first. The run ends when nothing more is wanted, when the side has no
/// price left, when the best price is beyond the limit, or at a level that
/// gives nothing.
pub open spec fn match_levels(m: Matched, limit: Option<u64>, maker: Side) -> Matched
    decreases m.left,
{
    if m.left == 0 {
        m
    } else {
        match m.side.best() {
            None => m,
            Some(p) => if !within_limit(maker, p, limit) || !m.side.levels.contains_key(p) {
                m
            } else {
                let next = match_level(m, p);
                if next.left < m.left {
                    match_levels(next, limit, maker)
                } else {
                    next
                }
            },
        }
    }
}

/// The open quantity of the order with the identifier; zero where the index
/// holds no such order.
pub open spec fn open_of(orders: Map<u64, LimitOrder>, id: u64) -> int {
    if orders.contains_key(id) {
        orders[id].remaining() as int
    } else {
        0
    }
}

/// The sum of the open quantities of the orders in a queue.
pub open spec fn queue_open(orders: Map<u64, LimitOrder>, ids: Seq<u64>) -> int
    decreases ids.len(),
{
    if ids.len() == 0 {
        0
    } else {
        queue_open(orders, ids.drop_last()) + open_of(orders, ids.last())
    }
}

/// The open quantity of the level at a price, where the price is within the
/// limit and the level is attached; zero elsewhere.
pub open spec fn level_open(
    orders: Map<u64, LimitOrder>,
    levels: Map<u64, Level>,
    maker: Side,
    limit: Option<u64>,
    price: u64,
) -> int {
    if within_limit(maker, price, limit) && levels.contains_key(price) {
        queue_open(orders, levels[price].ids)
    } else {
        0
    }
}

/// The sum of the open quantities of the levels at `prices` that are within
/// the limit.
pub open spec fn open_within(
    orders: Map<u64, LimitOrder>,
    levels: Map<u64, Level>,
    prices: Seq<u64>,
    maker: Side,
    limit: Option<u64>,
) -> int
    decreases prices.len(),
{
    if prices.len() == 0 {
        0
    } else {
        open_within(orders, levels, prices.drop_last(), maker, limit) + level_open(
            orders,
            levels,
            maker,
            limit,
            prices.last(),
        )
    }
}

/// The orders with the identifiers of a queue, in the order of the queue,
/// without the identifiers that the index does not hold.
pub open spec fn found_orders(orders: Map<u64, LimitOrder>, ids: Seq<u64>) -> Seq<LimitOrder>
    decreases ids.len(),
{
    if ids.len() == 0 {
        Seq::empty()
    } else if orders.contains_key(ids.last()) {
        found_orders(orders, ids.drop_last()).push(orders[ids.last()])
    } else {
        found_orders(orders, ids.drop_last())
    }
}

/// What a book holds, as plain values.
pub ghost struct BookState {
    /// The label of the book.
    pub symbol: Seq<char>,
    /// The resting orders by identifier.
    pub orders: Map<u64, LimitOrder>,
    /// The side of the bids.
    pub bids: SideState,
    /// The side of the asks.
    pub asks: SideState,
    /// The number of the last accepted command.
    pub last_op: u64,
    /// The identifier that the next accepted order gets.
    pub next_order_id: u64,
    /// Whether accepted commands are journaled.
    pub journaling: bool,
}

/// A state with what a command returned in it.
pub ghost struct Outcome {
    /// The state after the command.
    pub state: BookState,
    /// The report of the command, or the kind of its failure.
    pub result: Result<Report, ErrorType>,
}

/// The queues of a side as a snapshot holds them: under each price of the
/// side the identifiers in the queue of its level.
pub open spec fn listed_levels(side: SideState) -> Map<u64, Seq<u64>> {
    Map::new(
        |p: u64| side.prices.contains(p),
        |p: u64|
            if side.levels.contains_key(p) {
                side.levels[p].ids
            } else {
                Seq::empty()
            },
    )
}

/// The queues of a snapshot in the order in which they are restored: by
/// ascending price, each with its price.
pub open spec fn ascending_levels(queues: Map<u64, Seq<u64>>) -> Seq<(u64, Seq<u64>)> {
    let v = ordered(queues.dom(), Side::Sell);
    Seq::new(v.len(), |i: int| (v[i], queues[v[i]]))
}

/// The side after the orders of a queue were appended to the level at
/// `price`, each counted with the quantity that it is open for.
pub open spec fn restore_queue(
    side: SideState,
    orders: Map<u64, LimitOrder>,
    price: u64,
    ids: Seq<u64>,
) -> SideState
    decreases ids.len(),
{
    if ids.len() == 0 {
        side
    } else {
        restore_queue(side, orders, price, ids.drop_last()).append(
            ids.last(),
            open_of(orders, ids.last()) as u64,
            price,
        )
    }
}

/// The side after the queues of the given levels were appended to it, one
/// level after the other.
pub open spec fn restore_side(
    side: SideState,
    orders: Map<u64, LimitOrder>,
    levels: Seq<(u64, Seq<u64>)>,
) -> SideState
    decreases levels.len(),
{
    if levels.len() == 0 {
        side
    } else {
        restore_queue(
            restore_side(side, orders, levels.drop_last()),
            orders,
            levels.last().0,
            levels.last().1,
        )
    }
}

impl BookState {
    /// An empty book.
    pub open spec fn empty(symbol: Seq<char>, journaling: bool) -> BookState {
        BookState {
            symbol,
            orders: Map::empty(),
            bids: SideState::empty(Side::Buy),
            asks: SideState::empty(Side::Sell),
            last_op: 0,
            next_order_id: 0,
            journaling,
        }
    }

    /// One side of the book.
    pub open spec fn side(self, side: Side) -> SideState {
        match side {
            Side::Buy => self.bids,
            Side::Sell => self.asks,
        }
    }

    /// The book with one side replaced.
    pub open spec fn with_side(self, which: Side, side: SideState) -> BookState {
        match which {
            Side::Buy => BookState { bids: side, ..self },
            Side::Sell => BookState { asks: side, ..self },
        }
    }

    /// The highest bid.
    pub open spec fn best_bid(self) -> Option<u64> {
        self.bids.best()
    }

    /// The lowest ask.
    pub open spec fn best_ask(self) -> Option<u64> {
        self.asks.best()
    }

    /// Half the sum of the best bid and the best ask, rounded down, the sum
    /// clamped to `u64::MAX`.
    pub open spec fn mid_price(self) -> Option<u64> {
        match (self.best_bid(), self.best_ask()) {
            (Some(bid), Some(ask)) => Some(sat_add(bid, ask) / 2),
            _ => None,
        }
    }

    /// The best ask less the best bid, and zero where the bid is higher.
    pub open spec fn spread(self) -> Option<u64> {
        match (self.best_bid(), self.best_ask()) {
            (Some(bid), Some(ask)) => Some(sat_sub(ask, bid)),
            _ => None,
        }
    }

    /// The orders of the level at a price on a side, earliest first, without
    /// the identifiers that the index does not hold.
    pub open spec fn orders_at(self, price: u64, side: Side) -> Seq<LimitOrder> {
        let s = self.side(side);
        if s.levels.contains_key(price) {
            found_orders(self.orders, s.levels[price].ids)
        } else {
            Seq::empty()
        }
    }

    /// The order with the identifier, where one rests in the book.
    pub open spec fn order(self, id: u64) -> Result<LimitOrder, ErrorType> {
        if self.orders.contains_key(id) {
            Ok(self.orders[id])
        } else {
            Err(ErrorType::OrderNotFound)
        }
    }

    /// Whether an order of `quantity` on the side `taker` with the limit
    /// `price` can be filled in full at once: the orders on the other side
    /// at prices within the limit are open for at least the quantity.
    pub open spec fn fillable(self, taker: Side, quantity: u64, price: u64) -> bool {
        let maker = self.side(taker.opposite());
        open_within(
            self.orders,
            maker.levels,
            ordered(maker.prices, maker.side),
            taker.opposite(),
            Some(price),
        ) >= quantity
    }

    /// Whether an order on the side `taker` at `price` would match on entry:
    /// a buy at or above the best ask, a sell at or below the best bid.
    pub open spec fn crosses(self, taker: Side, price: u64) -> bool {
        match self.side(taker.opposite()).best() {
            Some(best) => match taker {
                Side::Buy => price >= best,
                Side::Sell => price <= best,
            },
            None => false,
        }
    }

    /// Why a market order is refused, if it is.
    pub open spec fn market_rejection(self, options: MarketOrderOptions) -> Option<ErrorType> {
        if options.quantity.0 == 0 {
            Some(ErrorType::InvalidQuantity)
        } else if self.side(options.side.opposite()).is_empty() {
            Some(ErrorType::OrderBookEmpty)
        } else {
            None
        }
    }

    /// Why a limit order is refused, if it is.
    pub open spec fn limit_rejection(self, options: LimitOrderOptions) -> Option<ErrorType> {
        if options.quantity.0 == 0 {
            Some(ErrorType::InvalidQuantity)
        } else if options.price.0 == 0 {
            Some(ErrorType::InvalidPrice)
        } else if options.tif() == TimeInForce::FOK && !self.fillable(
            options.side,
            options.quantity.0,
            options.price.0,
        ) {
            Some(ErrorType::OrderFOK)
        } else if options.is_post_only() && self.crosses(options.side, options.price.0) {
            Some(ErrorType::OrderPostOnly)
        } else {
            None
        }
    }

    /// The number of the last accepted command after one more command was
    /// accepted: one more than before, whether journaling is on or off, and
    /// no more than `u64::MAX`.
    pub open spec fn next_op(self) -> u64 {
        sat_add(self.last_op, 1)
    }

    /// The journal entry of a command that is accepted now, under the
    /// number that the command gets; none where journaling is off.
    pub open spec fn entry(self, op: JournalOp, o: OrderOptions, ts: i64) -> Option<JournalLog> {
        if self.journaling {
            Some(JournalLog { op_id: sat_add(self.last_op, 1), ts, op, o })
        } else {
            None
        }
    }

    /// The run of an incoming order of `quantity` on the side `taker`
    /// against the other side.
    pub open spec fn matched(self, taker: Side, quantity: u64, limit: Option<u64>) -> Matched {
        match_levels(
            Matched {
                orders: self.orders,
                side: self.side(taker.opposite()),
                left: quantity,
                fills: Seq::empty(),
            },
            limit,
            taker.opposite(),
        )
    }

    /// A market order at time `ts`. It is refused with the book unchanged
    /// where its quantity is zero or the other side is empty. Else it gets
    /// the next identifier and is matched without a limit; what is left of
    /// it is dropped.
    pub open spec fn market(self, options: MarketOrderOptions, ts: i64) -> Outcome {
        match self.market_rejection(options) {
            Some(e) => Outcome { state: self, result: Err(e) },
            None => {
                let m = self.matched(options.side, options.quantity.0, None);
                let executed = sat_sub(options.quantity.0, m.left);
                Outcome {
                    state: BookState {
                        orders: m.orders,
                        next_order_id: (self.next_order_id + 1) as u64,
                        last_op: self.next_op(),
                        ..self.with_side(options.side.opposite(), m.side)
                    },
                    result: Ok(
                        Report {
                            order_id: OrderId(self.next_order_id),
                            orig_qty: options.quantity,
                            executed_qty: Quantity(executed),
                            remaining_qty: Quantity(m.left),
                            taker_qty: Quantity(executed),
                            maker_qty: Quantity(0),
                            order_type: OrderType::Market,
                            side: options.side,
                            price: Price(0),
                            status: if m.left > 0 {
                                OrderStatus::PartiallyFilled
                            } else {
                                OrderStatus::Filled
                            },
                            time_in_force: TimeInForce::IOC,
                            post_only: false,
                            fills: m.fills,
                            log: self.entry(JournalOp::Market, OrderOptions::Market(options), ts),
                        },
                    ),
                }
            },
        }
    }

    /// The state of a limit order after its run left `left` open: filled
    /// where nothing is left, cancelled where the order is
    /// immediate-or-cancel, else partially filled.
    pub open spec fn limit_status(options: LimitOrderOptions, left: u64) -> OrderStatus {
        if left == 0 {
            OrderStatus::Filled
        } else if options.tif() == TimeInForce::IOC {
            OrderStatus::Canceled
        } else {
            OrderStatus::PartiallyFilled
        }
    }

    /// The record of a limit order after its run left `left` open.
    pub open spec fn limit_record(
        id: u64,
        options: LimitOrderOptions,
        left: u64,
        ts: i64,
    ) -> LimitOrder {
        LimitOrder {
            executed_qty: Quantity(sat_sub(options.quantity.0, left)),
            taker_qty: Quantity(sat_sub(options.quantity.0, left)),
            maker_qty: Quantity(left),
            status: Self::limit_status(options, left),
            ..LimitOrder::fresh(OrderId(id), options, ts)
        }
    }

    /// A limit order at time `ts`. It is refused with the book unchanged
    /// where its quantity or its price is zero, where it is fill-or-kill
    /// and cannot be filled in full, and where it is post-only and would
    /// match. Else it gets the next identifier and is matched up to its
    /// price. What is left of it rests at the tail of the level at its
    /// price on its own side, unless it is immediate-or-cancel.
    pub open spec fn limit(self, options: LimitOrderOptions, ts: i64) -> Outcome {
        match self.limit_rejection(options) {
            Some(e) => Outcome { state: self, result: Err(e) },
            None => {
                let id = self.next_order_id;
                let m = self.matched(options.side, options.quantity.0, Some(options.price.0));
                let order = Self::limit_record(id, options, m.left, ts);
                let rests = m.left > 0 && options.tif() != TimeInForce::IOC;
                let after = BookState {
                    orders: m.orders,
                    next_order_id: (id + 1) as u64,
                    last_op: self.next_op(),
                    ..self.with_side(options.side.opposite(), m.side)
                };
                Outcome {
                    state: if rests {
                        BookState {
                            orders: m.orders.insert(id, order),
                            ..after.with_side(
                                options.side,
                                self.side(options.side).append(id, m.left, options.price.0),
                            )
                        }
                    } else {
                        after
                    },
                    result: Ok(
                        Report {
                            order_id: OrderId(id),
                            orig_qty: options.quantity,
                            executed_qty: order.executed_qty,
                            remaining_qty: Quantity(m.left),
                            taker_qty: order.taker_qty,
                            maker_qty: order.maker_qty,
                            order_type: OrderType::Limit,
                            side: options.side,
                            price: options.price,
                            status: order.status,
                            time_in_force: options.tif(),
                            post_only: options.is_post_only(),
                            fills: m.fills,
                            log: self.entry(JournalOp::Limit, OrderOptions::Limit(options), ts),
                        },
                    ),
                }
            },
        }
    }

    /// The side of a resting order after the order left it, counted with
    /// what it is open for.
    pub open spec fn side_without(side: SideState, o: LimitOrder, id: u64) -> SideState {
        side.without_order(id, o.remaining(), o.price.0)
    }

    /// The cancellation of the order with the identifier at time `ts`. It
    /// fails with the book unchanged where no such order rests. Else the
    /// order leaves the index and its queue.
    pub open spec fn cancel(self, id: u64, ts: i64) -> Outcome {
        if !self.orders.contains_key(id) {
            Outcome { state: self, result: Err(ErrorType::OrderNotFound) }
        } else {
            let o = self.orders[id];
            Outcome {
                state: BookState {
                    orders: self.orders.remove(id),
                    last_op: self.next_op(),
                    ..self.with_side(o.side, Self::side_without(self.side(o.side), o, id))
                },
                result: Ok(
                    Report {
                        order_id: o.id,
                        orig_qty: o.orig_qty,
                        executed_qty: o.executed_qty,
                        remaining_qty: Quantity(o.remaining()),
                        taker_qty: o.taker_qty,
                        maker_qty: o.maker_qty,
                        order_type: o.order_type,
                        side: o.side,
                        price: o.price,
                        status: OrderStatus::Canceled,
                        time_in_force: o.time_in_force,
                        post_only: o.post_only,
                        fills: Seq::empty(),
                        log: self.entry(JournalOp::Cancel, OrderOptions::Cancel(OrderId(id)), ts),
                    },
                ),
            }
        }
    }

    /// The inputs of the order that replaces the resting order `o`: its
    /// side, time in force and post-only flag, the new price or its own,
    /// the new quantity or what it is open for.
    pub open spec fn replacement(
        o: LimitOrder,
        price: Option<Price>,
        quantity: Option<Quantity>,
    ) -> LimitOrderOptions {
        LimitOrderOptions {
            side: o.side,
            quantity: match quantity {
                Some(q) => q,
                None => Quantity(o.remaining()),
            },
            price: match price {
                Some(p) => p,
                None => o.price,
            },
            time_in_force: Some(o.time_in_force),
            post_only: Some(o.post_only),
        }
    }

    /// The replacement of the order with the identifier at time `ts`. It
    /// fails with the book unchanged where no such order rests, and where
    /// neither a price nor a quantity is given. Else the order is cancelled
    /// and a new limit order is entered in its place, neither of them
    /// counted or journaled as a command; where the new order is refused,
    /// the cancellation stands and no command is counted. An accepted
    /// replacement is counted and journaled as one command.
    pub open spec fn modify(
        self,
        id: u64,
        price: Option<Price>,
        quantity: Option<Quantity>,
        ts: i64,
    ) -> Outcome {
        if !self.orders.contains_key(id) {
            Outcome { state: self, result: Err(ErrorType::OrderNotFound) }
        } else if price is None && quantity is None {
            Outcome { state: self, result: Err(ErrorType::InvalidPriceOrQuantity) }
        } else {
            let quiet = BookState { journaling: false, ..self };
            let cancelled = quiet.cancel(id, ts).state;
            let entered = cancelled.limit(Self::replacement(self.orders[id], price, quantity), ts);
            match entered.result {
                Err(e) => Outcome {
                    state: BookState {
                        journaling: self.journaling,
                        last_op: self.last_op,
                        ..entered.state
                    },
                    result: Err(e),
                },
                Ok(report) => Outcome {
                    state: BookState {
                        journaling: self.journaling,
                        last_op: self.next_op(),
                        ..entered.state
                    },
                    result: Ok(
                        Report {
                            log: self.entry(
                                JournalOp::Modify,
                                OrderOptions::Modify { id: OrderId(id), price, quantity },
                                ts,
                            ),
                            ..report
                        },
                    ),
                },
            }
        }
    }

    /// The command of a journal entry, applied at time `ts`.
    pub open spec fn apply(self, o: OrderOptions, ts: i64) -> Outcome {
        match o {
            OrderOptions::Market(options) => self.market(options, ts),
            OrderOptions::Limit(options) => self.limit(options, ts),
            OrderOptions::Cancel(id) => self.cancel(id.0, ts),
            OrderOptions::Modify { id, price, quantity } => self.modify(id.0, price, quantity, ts),
        }
    }

    /// The text of the book: the text of the asks, a line of dashes, and
    /// the text of the bids. Both sides show their levels highest price
    /// first.
    pub open spec fn text(self) -> Seq<char> {
        self.asks.text() + "------------------------------------\n"@ + self.bids.text()
    }

    /// The snapshot of the book at time `ts`.
    pub open spec fn snapshot(self, ts: i64) -> SnapshotState {
        SnapshotState {
            orders: self.orders,
            bids: listed_levels(self.bids),
            asks: listed_levels(self.asks),
            last_op: self.last_op,
            next_order_id: self.next_order_id,
            ts,
        }
    }

    /// The book after a snapshot was restored into it: the index and the
    /// counters of the snapshot, and both sides built anew from its queues,
    /// level by level by ascending price.
    /// The label and the journaling flag stay.
    pub open spec fn restore(self, snapshot: SnapshotState) -> BookState {
        BookState {
            symbol: self.symbol,
            orders: snapshot.orders,
            bids: restore_side(
                SideState::empty(Side::Buy),
                snapshot.orders,
                ascending_levels(snapshot.bids),
            ),
            asks: restore_side(
                SideState::empty(Side::Sell),
                snapshot.orders,
                ascending_levels(snapshot.asks),
            ),
            last_op: snapshot.last_op,
            next_order_id: snapshot.next_order_id,
            journaling: self.journaling,
        }
    }
}

/// The entries with `log` put in behind the last entry whose number is not
/// higher.
pub open spec fn inserted(sorted: Seq<JournalLog>, log: JournalLog) -> Seq<JournalLog>
    decreases sorted.len(),
{
    if sorted.len() == 0 {
        seq![log]
    } else if sorted.last().op_id <= log.op_id {
        sorted.push(log)
    } else {
        inserted(sorted.drop_last(), log).push(sorted.last())
    }
}

/// The entries by ascending number, entries of one number in the order in
/// which they came.
pub open spec fn sorted_logs(logs: Seq<JournalLog>) -> Seq<JournalLog>
    decreases logs.len(),
{
    if logs.len() == 0 {
        Seq::empty()
    } else {
        inserted(sorted_logs(logs.drop_last()), logs.last())
    }
}

/// A state with the failure that stopped a replay in it, if one did.
pub ghost struct Replayed {
    /// The state after the replay.
    pub state: BookState,
    /// The failure of the first command that failed.
    pub failure: Option<ErrorType>,
}

/// The entries applied one after the other, the entry at place `i` at the
/// time `stamps[i]`, up to and with the first that fails. An entry without
/// a time of its own is applied at time zero.
pub open spec fn replay(state: BookState, logs: Seq<JournalLog>, stamps: Seq<i64>) -> Replayed
    decreases logs.len(),
{
    if logs.len() == 0 {
        Replayed { state, failure: None }
    } else {
        let first = state.apply(logs[0].o, first_stamp(stamps));
        match first.result {
            Err(e) => Replayed { state: first.state, failure: Some(e) },
            Ok(_) => replay(first.state, logs.drop_first(), later_stamps(stamps)),
        }
    }
}

/// The first of the times, and zero where there is none.
pub open spec fn first_stamp(stamps: Seq<i64>) -> i64 {
    if stamps.len() > 0 {
        stamps[0]
    } else {
        0
    }
}

/// The times after the first.
pub open spec fn later_stamps(stamps: Seq<i64>) -> Seq<i64> {
    if stamps.len() > 0 {
        stamps.drop_first()
    } else {
        stamps
    }
}

} // verus!

//! What the book reports of an order that it processed.

use crate::enums::{OrderStatus, OrderType, Side, TimeInForce};
use crate::journal::JournalLog;
use crate::order::{get_order_time_in_force, tif_or_default, OrderId, Price, Quantity};
use vstd::prelude::*;

verus! {

/// One trade against a resting order.
#[derive(Debug, Clone, Copy, PartialEq, Eq)]
pub struct FillReport {
    /// The resting order that was matched.
    pub order_id: OrderId,
    /// The price of the trade: the price of the resting order.
    pub price: Price,
    /// The quantity of the trade.
    pub quantity: Quantity,
    /// The state of the resting order after the trade.
    pub status: OrderStatus,
}

/// The inputs of a report on entry of an order.
#[derive(Debug, Clone, Copy)]
pub struct ExecutionReportParams {
    pub id: OrderId,
    pub order_type: OrderType,
    pub side: Side,
    pub quantity: Quantity,
    pub status: OrderStatus,
    pub time_in_force: Option<TimeInForce>,
    pub price: Option<Price>,
    pub post_only: bool,
}

/// The outcome of a command.
#[derive(Debug, Clone)]
pub struct ExecutionReport {
    pub order_id: OrderId,
    pub orig_qty: Quantity,
    pub executed_qty: Quantity,
    pub remaining_qty: Quantity,
    /// The quantity that matched on entry.
    pub taker_qty: Quantity,
    /// The quantity that went to rest in the book.
    pub maker_qty: Quantity,
    pub order_type: OrderType,
    pub side: Side,
    /// The limit price; zero for a market order.
    pub price: Price,
    pub status: OrderStatus,
    pub time_in_force: TimeInForce,
    pub post_only: bool,
    /// The trades that the command made, in the order in which they were made.
    pub fills: Vec<FillReport>,
    /// The journal entry of the command, where journaling is on.
    pub log: Option<JournalLog>,
}

/// What a report holds, as plain values.
pub ghost struct Report {
    pub order_id: OrderId,
    pub orig_qty: Quantity,
    pub executed_qty: Quantity,
    pub remaining_qty: Quantity,
    pub taker_qty: Quantity,
    pub maker_qty: Quantity,
    pub order_type: OrderType,
    pub side: Side,
    pub price: Price,
    pub status: OrderStatus,
    pub time_in_force: TimeInForce,
    pub post_only: bool,
    pub fills: Seq<FillReport>,
    pub log: Option<JournalLog>,
}

impl View for ExecutionReport {
    type V = Report;

    open spec fn view(&self) -> Report {
        Report {
            order_id: self.order_id,
            orig_qty: self.orig_qty,
            executed_qty: self.executed_qty,
            remaining_qty: self.remaining_qty,
            taker_qty: self.taker_qty,
            maker_qty: self.maker_qty,
            order_type: self.order_type,
            side: self.side,
            price: self.price,
            status: self.status,
            time_in_force: self.time_in_force,
            post_only: self.post_only,
            fills: self.fills@,
            log: self.log,
        }
    }
}

/// The report of an order on entry: nothing executed, no trade, no journal
/// entry. A market order has price zero and is immediate-or-cancel, whatever
/// was given.
pub open spec fn initial_report(params: ExecutionReportParams) -> Report {
    Report {
        order_id: params.id,
        orig_qty: params.quantity,
        executed_qty: Quantity(0),
        remaining_qty: params.quantity,
        taker_qty: Quantity(0),
        maker_qty: Quantity(0),
        order_type: params.order_type,
        side: params.side,
        price: match params.price {
            Some(p) => p,
            None => Price(0),
        },
        status: params.status,
        time_in_force: if params.order_type == OrderType::Market {
            TimeInForce::IOC
        } else {
            tif_or_default(params.time_in_force)
        },
        post_only: params.post_only,
        fills: Seq::empty(),
        log: None,
    }
}

impl ExecutionReport {
    /// The report of an order on entry.
    pub fn new(params: ExecutionReportParams) -> (report: Self)
        ensures
            report@ == initial_report(params),
    {
        ExecutionReport {
            order_id: params.id,
            orig_qty: params.quantity,
            executed_qty: Quantity(0),
            remaining_qty: params.quantity,
            taker_qty: Quantity(0),
            maker_qty: Quantity(0),
            order_type: params.order_type,
            side: params.side,
            price: match params.price {
                Some(p) => p,
                None => Price(0),
            },
            status: params.status,
            time_in_force: match params.order_type {
                OrderType::Market => TimeInForce::IOC,
                OrderType::Limit => get_order_time_in_force(params.time_in_force),
            },
            post_only: params.post_only,
            fills: Vec::new(),
            log: None,
        }
    }
}

} // verus!

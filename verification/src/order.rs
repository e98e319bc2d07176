//! Identifiers, prices and quantities, the inputs of an order, and the record
//! of a resting order.

use crate::enums::{OrderStatus, OrderType, Side, TimeInForce};
use vstd::prelude::*;

verus! {

/// The identifier of an order, assigned by the book on acceptance.
#[derive(Debug, Clone, Copy, PartialEq, Eq, Hash, Structural)]
pub struct OrderId(pub u64);

/// A price. Zero stands for "not applicable"; a resting order's price is at
/// least one.
#[derive(Debug, Clone, Copy, PartialEq, Eq, PartialOrd, Ord, Hash, Structural)]
pub struct Price(pub u64);

/// A quantity. Zero stands for "fully consumed".
#[derive(Debug, Clone, Copy, PartialEq, Eq, PartialOrd, Ord, Hash, Structural)]
pub struct Quantity(pub u64);

impl Price {
    /// The price as a plain integer.
    pub fn value(self) -> (v: u64)
        ensures
            v == self.0,
    {
        self.0
    }
}

impl Quantity {
    /// The quantity as a plain integer.
    pub fn value(self) -> (v: u64)
        ensures
            v == self.0,
    {
        self.0
    }
}

/// The inputs of a market order.
#[derive(Debug, Clone, Copy, PartialEq, Eq)]
pub struct MarketOrderOptions {
    pub side: Side,
    pub quantity: Quantity,
}

impl MarketOrderOptions {
    /// The inputs of a market order for `quantity` on `side`.
    pub fn new(side: Side, quantity: u64) -> (options: Self)
        ensures
            options == (MarketOrderOptions { side, quantity: Quantity(quantity) }),
    {
        MarketOrderOptions { side, quantity: Quantity(quantity) }
    }
}

/// The inputs of a limit order. A missing time in force means good till
/// cancelled; a missing post-only flag means false.
#[derive(Debug, Clone, Copy, PartialEq, Eq)]
pub struct LimitOrderOptions {
    pub side: Side,
    pub quantity: Quantity,
    pub price: Price,
    pub time_in_force: Option<TimeInForce>,
    pub post_only: Option<bool>,
}

impl LimitOrderOptions {
    /// The inputs of a limit order for `quantity` at `price` on `side`.
    pub fn new(
        side: Side,
        quantity: u64,
        price: u64,
        time_in_force: Option<TimeInForce>,
        post_only: Option<bool>,
    ) -> (options: Self)
        ensures
            options == (LimitOrderOptions {
                side,
                quantity: Quantity(quantity),
                price: Price(price),
                time_in_force,
                post_only,
            }),
    {
        LimitOrderOptions {
            side,
            quantity: Quantity(quantity),
            price: Price(price),
            time_in_force,
            post_only,
        }
    }

    /// The time in force that applies: the one given, or good till cancelled.
    pub open spec fn tif(self) -> TimeInForce {
        tif_or_default(self.time_in_force)
    }

    /// Whether the order must rest on entry.
    pub open spec fn is_post_only(self) -> bool {
        match self.post_only {
            Some(b) => b,
            None => false,
        }
    }
}

/// The time in force that applies when `time_in_force` was given or left out.
pub open spec fn tif_or_default(time_in_force: Option<TimeInForce>) -> TimeInForce {
    match time_in_force {
        Some(t) => t,
        None => TimeInForce::GTC,
    }
}

/// The time in force that applies: the one given, or good till cancelled.
pub fn get_order_time_in_force(time_in_force: Option<TimeInForce>) -> (tif: TimeInForce)
    ensures
        tif == tif_or_default(time_in_force),
{
    match time_in_force {
        Some(t) => t,
        None => TimeInForce::GTC,
    }
}

/// The record of a limit order. The open quantity is not stored: it is the
/// ordered quantity less the executed one.
#[derive(Debug, Clone, Copy, PartialEq, Eq)]
pub struct LimitOrder {
    pub id: OrderId,
    pub side: Side,
    pub orig_qty: Quantity,
    pub executed_qty: Quantity,
    pub price: Price,
    pub order_type: OrderType,
    pub time: i64,
    pub time_in_force: TimeInForce,
    pub post_only: bool,
    pub taker_qty: Quantity,
    pub maker_qty: Quantity,
    pub status: OrderStatus,
}

impl LimitOrder {
    /// The record of a limit order on entry, before any match.
    pub open spec fn fresh(id: OrderId, options: LimitOrderOptions, time: i64) -> LimitOrder {
        LimitOrder {
            id,
            side: options.side,
            orig_qty: options.quantity,
            executed_qty: Quantity(0),
            price: options.price,
            order_type: OrderType::Limit,
            time,
            time_in_force: options.tif(),
            post_only: options.is_post_only(),
            taker_qty: Quantity(0),
            maker_qty: Quantity(0),
            status: OrderStatus::New,
        }
    }

    /// Creates the record of a limit order that entered at `time`, with
    /// nothing executed yet.
    pub fn new(id: OrderId, options: LimitOrderOptions, time: i64) -> (order: LimitOrder)
        ensures
            order == LimitOrder::fresh(id, options, time),
    {
        LimitOrder {
            id,
            side: options.side,
            orig_qty: options.quantity,
            executed_qty: Quantity(0),
            price: options.price,
            order_type: OrderType::Limit,
            time,
            time_in_force: get_order_time_in_force(options.time_in_force),
            post_only: match options.post_only {
                Some(b) => b,
                None => false,
            },
            taker_qty: Quantity(0),
            maker_qty: Quantity(0),
            status: OrderStatus::New,
        }
    }

    /// The open quantity: the ordered quantity less the executed one, and
    /// zero where more was executed than ordered.
    pub open spec fn remaining(self) -> u64 {
        if self.executed_qty.0 <= self.orig_qty.0 {
            (self.orig_qty.0 - self.executed_qty.0) as u64
        } else {
            0
        }
    }

    /// The open quantity of the order.
    pub fn remaining_qty(&self) -> (q: Quantity)
        ensures
            q.0 == self.remaining(),
    {
        Quantity(self.orig_qty.0.saturating_sub(self.executed_qty.0))
    }
}

/// A market order while it is matched. It never rests in the book.
#[derive(Debug, Clone, Copy)]
pub struct MarketOrder {
    pub id: OrderId,
    pub side: Side,
    pub orig_qty: Quantity,
    pub executed_qty: Quantity,
    pub status: OrderStatus,
}

impl MarketOrder {
    /// Creates a market order with nothing executed yet.
    pub fn new(id: OrderId, options: MarketOrderOptions) -> (order: MarketOrder)
        ensures
            order == (MarketOrder {
                id,
                side: options.side,
                orig_qty: options.quantity,
                executed_qty: Quantity(0),
                status: OrderStatus::New,
            }),
    {
        MarketOrder {
            id,
            side: options.side,
            orig_qty: options.quantity,
            executed_qty: Quantity(0),
            status: OrderStatus::New,
        }
    }

    /// The open quantity of the order.
    pub fn remaining_qty(&self) -> (q: Quantity)
        ensures
            q.0 == if self.executed_qty.0 <= self.orig_qty.0 {
                self.orig_qty.0 - self.executed_qty.0
            } else {
                0
            },
    {
        Quantity(self.orig_qty.0.saturating_sub(self.executed_qty.0))
    }
}

} // verus!

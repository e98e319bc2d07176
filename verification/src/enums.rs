//! The enumerations that describe an order and a journal entry.

use crate::order::{LimitOrderOptions, MarketOrderOptions, OrderId, Price, Quantity};
use vstd::prelude::*;

verus! {

/// The kind of an order.
#[derive(Debug, Clone, Copy, PartialEq, Eq, Structural)]
pub enum OrderType {
    /// Matches at once against the best prices on the other side.
    Market,
    /// Matches up to a limit price and may rest in the book.
    Limit,
}

/// The side of an order.
#[derive(Debug, Clone, Copy, PartialEq, Eq, Structural)]
pub enum Side {
    /// A bid.
    Buy,
    /// An ask.
    Sell,
}

/// How long an order stays active.
#[derive(Debug, Clone, Copy, PartialEq, Eq, Structural)]
pub enum TimeInForce {
    /// Good till cancelled: the remainder rests in the book.
    GTC,
    /// Immediate or cancel: the remainder is cancelled.
    IOC,
    /// Fill or kill: filled in full at once, or rejected.
    FOK,
}

/// The state of an order.
#[derive(Debug, Clone, Copy, PartialEq, Eq, Structural)]
pub enum OrderStatus {
    /// Accepted, nothing matched yet.
    New,
    /// Part of the quantity is matched, the rest is open.
    PartiallyFilled,
    /// The whole quantity is matched.
    Filled,
    /// Cancelled before it was filled in full.
    Canceled,
    /// Refused on entry.
    Rejected,
}

/// The kind of command that a journal entry records.
#[derive(Debug, Clone, Copy, PartialEq, Eq, Structural)]
pub enum JournalOp {
    /// A market order.
    Market,
    /// A limit order.
    Limit,
    /// The cancellation of a resting order.
    Cancel,
    /// The replacement of a resting order.
    Modify,
}

/// The inputs of a journaled command, as the caller gave them.
#[derive(Debug, Clone, Copy, PartialEq, Eq)]
pub enum OrderOptions {
    /// The inputs of a market order.
    Market(MarketOrderOptions),
    /// The inputs of a limit order.
    Limit(LimitOrderOptions),
    /// The identifier of the order to cancel.
    Cancel(OrderId),
    /// The identifier of the order to replace, with the new price and the
    /// new quantity where they were given.
    Modify { id: OrderId, price: Option<Price>, quantity: Option<Quantity> },
}

impl Side {
    /// The side that orders of this side trade against.
    pub open spec fn opposite(self) -> Side {
        match self {
            Side::Buy => Side::Sell,
            Side::Sell => Side::Buy,
        }
    }

    /// The name of the side in serialized form.
    pub open spec fn name(self) -> Seq<char> {
        match self {
            Side::Buy => "buy"@,
            Side::Sell => "sell"@,
        }
    }

    /// The name of the side in serialized form: `"buy"` or `"sell"`.
    pub fn as_str(self) -> (s: &'static str)
        ensures
            s@ == self.name(),
    {
        match self {
            Side::Buy => "buy",
            Side::Sell => "sell",
        }
    }
}

impl OrderType {
    /// The name of the kind in serialized form.
    pub open spec fn name(self) -> Seq<char> {
        match self {
            OrderType::Market => "market"@,
            OrderType::Limit => "limit"@,
        }
    }

    /// The name of the kind in serialized form: `"market"` or `"limit"`.
    pub fn as_str(self) -> (s: &'static str)
        ensures
            s@ == self.name(),
    {
        match self {
            OrderType::Market => "market",
            OrderType::Limit => "limit",
        }
    }
}

impl TimeInForce {
    /// The name of the policy in serialized form.
    pub open spec fn name(self) -> Seq<char> {
        match self {
            TimeInForce::GTC => "GTC"@,
            TimeInForce::IOC => "IOC"@,
            TimeInForce::FOK => "FOK"@,
        }
    }

    /// The name of the policy in serialized form: `"GTC"`, `"IOC"` or `"FOK"`.
    pub fn as_str(self) -> (s: &'static str)
        ensures
            s@ == self.name(),
    {
        match self {
            TimeInForce::GTC => "GTC",
            TimeInForce::IOC => "IOC",
            TimeInForce::FOK => "FOK",
        }
    }
}

impl OrderStatus {
    /// The name of the state in serialized form.
    pub open spec fn name(self) -> Seq<char> {
        match self {
            OrderStatus::New => "new"@,
            OrderStatus::PartiallyFilled => "partially_filled"@,
            OrderStatus::Filled => "filled"@,
            OrderStatus::Canceled => "canceled"@,
            OrderStatus::Rejected => "rejected"@,
        }
    }

    /// The name of the state in serialized form, in snake case.
    pub fn as_str(self) -> (s: &'static str)
        ensures
            s@ == self.name(),
    {
        match self {
            OrderStatus::New => "new",
            OrderStatus::PartiallyFilled => "partially_filled",
            OrderStatus::Filled => "filled",
            OrderStatus::Canceled => "canceled",
            OrderStatus::Rejected => "rejected",
        }
    }
}

impl JournalOp {
    /// The name of the command kind in serialized form.
    pub open spec fn name(self) -> Seq<char> {
        match self {
            JournalOp::Market => "market"@,
            JournalOp::Limit => "limit"@,
            JournalOp::Cancel => "cancel"@,
            JournalOp::Modify => "modify"@,
        }
    }

    /// The name of the command kind in serialized form, in lower case.
    pub fn as_str(self) -> (s: &'static str)
        ensures
            s@ == self.name(),
    {
        match self {
            JournalOp::Market => "market",
            JournalOp::Limit => "limit",
            JournalOp::Cancel => "cancel",
            JournalOp::Modify => "modify",
        }
    }
}

} // verus!

//! A single-symbol limit order book with price-time priority matching.
//!
//! The book accepts market and limit orders, matches them against resting
//! liquidity, and reports the resulting fills. Resting orders can be
//! cancelled or replaced, the whole state can be exported and restored as a
//! snapshot, and accepted commands can be journaled and replayed.

pub mod book;
pub mod builder;
pub mod determinism;
pub mod enums;
pub mod error;
pub mod integrity;
pub mod journal;
pub mod laws;
pub mod level_map;
pub mod liquidity;
pub mod matching;
pub mod model;
pub mod order;
pub mod order_queue;
pub mod order_side;
pub mod price_tree;
pub mod priority;
pub mod recovery;
pub mod report;
pub mod utils;
pub mod volumes;

pub use book::{Depth, OrderBook, OrderBookOptions};
pub use builder::OrderBookBuilder;
pub use enums::{JournalOp, OrderOptions, OrderStatus, OrderType, Side, TimeInForce};
pub use error::OrderBookError;
pub use journal::{JournalLog, Snapshot};
pub use order::{LimitOrder, LimitOrderOptions, MarketOrderOptions, OrderId, Price, Quantity};
pub use report::{ExecutionReport, FillReport};

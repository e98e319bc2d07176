//! The journal entry of an accepted command, and the snapshot of a book.

use crate::enums::{JournalOp, OrderOptions, Side};
use crate::order::{LimitOrder, OrderId};
use crate::order_side::{better, lemma_ordered_is, lists_best_first, ordered};
use std::collections::{BTreeMap, HashMap, VecDeque};
use vstd::prelude::*;
use vstd::std_specs::btree::*;
use vstd::std_specs::cmp::OrdSpec;
use vstd::std_specs::iter::IteratorSpec;

verus! {

/// The record of one accepted command.
#[derive(Debug, Clone, Copy, PartialEq, Eq)]
pub struct JournalLog {
    /// The number of the command among the accepted ones, counted from one.
    pub op_id: u64,
    /// When the command was accepted, in milliseconds since the epoch.
    pub ts: i64,
    /// The kind of the command.
    pub op: JournalOp,
    /// The inputs of the command.
    pub o: OrderOptions,
}

/// The full state of a book at one moment: the resting orders by
/// identifier, the queues of both sides by price, and the counters.
#[derive(Debug, Clone)]
pub struct Snapshot {
    /// The resting orders by identifier.
    pub orders: HashMap<u64, LimitOrder>,
    /// The bid levels by price: the identifiers in the queue, earliest
    /// first.
    pub bids: BTreeMap<u64, VecDeque<u64>>,
    /// The ask levels by price: the identifiers in the queue, earliest
    /// first.
    pub asks: BTreeMap<u64, VecDeque<u64>>,
    /// The number of the last accepted command.
    pub last_op: u64,
    /// The identifier that the next accepted order gets.
    pub next_order_id: OrderId,
    /// When the snapshot was taken, in milliseconds since the epoch.
    pub ts: i64,
}

/// What a snapshot holds, as plain values.
pub ghost struct SnapshotState {
    pub orders: Map<u64, LimitOrder>,
    pub bids: Map<u64, Seq<u64>>,
    pub asks: Map<u64, Seq<u64>>,
    pub last_op: u64,
    pub next_order_id: u64,
    pub ts: i64,
}

/// The queues of a snapshot as plain values.
pub open spec fn queues_view(levels: Map<u64, VecDeque<u64>>) -> Map<u64, Seq<u64>> {
    Map::new(|p: u64| levels.contains_key(p), |p: u64| levels[p]@)
}

impl View for Snapshot {
    type V = SnapshotState;

    open spec fn view(&self) -> SnapshotState {
        SnapshotState {
            orders: self.orders@,
            bids: queues_view(self.bids@),
            asks: queues_view(self.asks@),
            last_op: self.last_op,
            next_order_id: self.next_order_id.0,
            ts: self.ts,
        }
    }
}

/// The prices of the levels of a snapshot, lowest first.
pub fn level_prices(levels: &BTreeMap<u64, VecDeque<u64>>) -> (prices: Vec<u64>)
    ensures
        prices@ == ordered(levels@.dom(), Side::Sell),
        lists_best_first(prices@, levels@.dom(), Side::Sell),
{
    let mut prices: Vec<u64> = Vec::new();
    for price in it: levels.keys()
        invariant
            prices@.len() == it.index(),
            forall|j: int| 0 <= j < prices@.len() ==> prices@[j] == *it.seq()[j],
            it.seq() == levels.keys().remaining(),
    {
        prices.push(*price);
    }
    proof {
        broadcast use vstd::laws_cmp::lemma_ref_obeys_cmp_spec;

        let keys = levels.keys().remaining();
        axiom_increasing_seq_meaning::<&u64>(keys);
        assert forall|i: int, j: int| 0 <= i < j < prices@.len() implies better(
            Side::Sell,
            prices@[i],
            prices@[j],
        ) by {
            assert(OrdSpec::cmp_spec(&keys[i], &keys[j]) is Less);
        }
        assert forall|i: int| 0 <= i < prices@.len() implies levels@.dom().contains(
            #[trigger] prices@[i],
        ) by {
            assert(keys.unref()[i] == prices@[i]);
            assert(keys.unref().to_set().contains(keys.unref()[i]));
        }
        assert forall|p: u64| levels@.dom().contains(p) implies prices@.contains(p) by {
            assert(keys.unref().to_set().contains(p));
            let i = choose|i: int| 0 <= i < keys.unref().len() && keys.unref()[i] == p;
            assert(prices@[i] == p);
        }
        lemma_ordered_is(prices@, levels@.dom(), Side::Sell);
    }
    prices
}

} // verus!

//! The builder of an order book: the label and the options, set one by one.

use crate::book::{OrderBook, OrderBookOptions};
use crate::error::OrderBookError;
use crate::journal::{JournalLog, Snapshot, SnapshotState};
use crate::model::{replay, sorted_logs, BookState};
use crate::volumes::replay_fits;
use vstd::prelude::*;
use vstd::string::*;

verus! {

/// What a builder holds, as plain values.
pub ghost struct BuilderState {
    /// The label of the book.
    pub symbol: Seq<char>,
    /// Whether accepted commands are journaled.
    pub journaling: bool,
    /// The snapshot that the book starts from.
    pub snapshot: Option<SnapshotState>,
    /// The journal entries that are replayed into the book.
    pub replay_logs: Option<Seq<JournalLog>>,
}

impl BuilderState {
    /// The book before any journal entry is replayed: empty, or in the
    /// state of the snapshot.
    pub open spec fn start(self) -> BookState {
        let empty = BookState::empty(self.symbol, self.journaling);
        match self.snapshot {
            Some(snapshot) => empty.restore(snapshot),
            None => empty,
        }
    }

    /// Whether enough identifiers are left for the entries to replay.
    pub open spec fn ids_suffice(self) -> bool {
        match self.replay_logs {
            Some(logs) => self.start().next_order_id + logs.len() <= u64::MAX,
            None => true,
        }
    }
}

/// The plain values of the options of a book.
pub open spec fn options_view(symbol: Seq<char>, options: OrderBookOptions) -> BuilderState {
    BuilderState {
        symbol,
        journaling: options.journaling,
        snapshot: match options.snapshot {
            Some(s) => Some(s@),
            None => None,
        },
        replay_logs: match options.replay_logs {
            Some(logs) => Some(logs@),
            None => None,
        },
    }
}

/// The builder of an order book.
pub struct OrderBookBuilder {
    symbol: String,
    options: OrderBookOptions,
}

impl View for OrderBookBuilder {
    type V = BuilderState;

    closed spec fn view(&self) -> BuilderState {
        options_view(self.symbol@, self.options)
    }
}

impl OrderBookBuilder {
    /// A builder for a book with the given label: no journaling, no
    /// snapshot, nothing to replay.
    pub fn new(symbol: &str) -> (builder: Self)
        ensures
            builder@ == (BuilderState {
                symbol: symbol@,
                journaling: false,
                snapshot: None,
                replay_logs: None,
            }),
    {
        OrderBookBuilder {
            symbol: String::from_str(symbol),
            options: OrderBookOptions { journaling: false, snapshot: None, replay_logs: None },
        }
    }

    /// Sets all options at once.
    pub fn with_options(self, options: OrderBookOptions) -> (builder: Self)
        ensures
            builder@ == options_view(self@.symbol, options),
    {
        OrderBookBuilder { symbol: self.symbol, options }
    }

    /// Sets the snapshot that the book starts from.
    pub fn with_snapshot(self, snapshot: Snapshot) -> (builder: Self)
        ensures
            builder@ == (BuilderState { snapshot: Some(snapshot@), ..self@ }),
    {
        OrderBookBuilder {
            symbol: self.symbol,
            options: OrderBookOptions {
                journaling: self.options.journaling,
                snapshot: Some(snapshot),
                replay_logs: self.options.replay_logs,
            },
        }
    }

    /// Sets the journal entries that are replayed into the book, after the
    /// snapshot where one is set.
    pub fn with_replay_logs(self, logs: Vec<JournalLog>) -> (builder: Self)
        ensures
            builder@ == (BuilderState { replay_logs: Some(logs@), ..self@ }),
    {
        OrderBookBuilder {
            symbol: self.symbol,
            options: OrderBookOptions {
                journaling: self.options.journaling,
                snapshot: self.options.snapshot,
                replay_logs: Some(logs),
            },
        }
    }

    /// Turns journaling on or off.
    pub fn with_journaling(self, enabled: bool) -> (builder: Self)
        ensures
            builder@ == (BuilderState { journaling: enabled, ..self@ }),
    {
        OrderBookBuilder {
            symbol: self.symbol,
            options: OrderBookOptions {
                journaling: enabled,
                snapshot: self.options.snapshot,
                replay_logs: self.options.replay_logs,
            },
        }
    }

    /// Builds the book: empty, then put into the state of the snapshot
    /// where one is set, then with the journal entries replayed where some
    /// are set. Where a replayed command fails, its error is returned in
    /// place of the book. The book is well formed where it was so before
    /// the replay, and its volumes are exact where they were so before the
    /// replay and the open quantity of each side fitted the counter after
    /// every command that was applied.
    pub fn build(self) -> (result: Result<OrderBook, OrderBookError>)
        requires
            self@.ids_suffice(),
        ensures
            match self@.replay_logs {
                None => result is Ok && result.unwrap()@ == self@.start(),
                Some(logs) => exists|stamps: Seq<i64>|
                    {
                        let replayed = #[trigger] replay(
                            self@.start(),
                            sorted_logs(logs),
                            stamps,
                        );
                        match result {
                            Ok(book) => {
                                &&& replayed.failure is None
                                &&& book@ == replayed.state
                                &&& self@.start().wf() ==> book@.wf()
                                &&& self@.start().wf() && self@.start().volumes_exact()
                                    && replay_fits(self@.start(), sorted_logs(logs), stamps)
                                    ==> book@.volumes_exact()
                            },
                            Err(e) => replayed.failure is Some && e@
                                == replayed.failure.unwrap().error(),
                        }
                    },
            },
    {
        let OrderBookBuilder { symbol, options } = self;
        let OrderBookOptions { journaling, snapshot, replay_logs } = options;
        let mut ob = OrderBook::new(
            symbol.as_str(),
            OrderBookOptions { journaling, snapshot: None, replay_logs: None },
        );
        if let Some(snapshot) = snapshot {
            ob.restore_snapshot(snapshot);
        }
        if let Some(logs) = replay_logs {
            match ob.replay_logs(logs) {
                Ok(_) => Ok(ob),
                Err(e) => Err(e),
            }
        } else {
            Ok(ob)
        }
    }
}

} // verus!

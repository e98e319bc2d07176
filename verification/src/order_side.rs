//! One side of the book: the price levels with their queues, the prices in
//! order, and the volume that the side is counted with.

use crate::enums::Side;
use crate::error::{decimal, push_decimal};
use crate::level_map::{level_map_get, level_map_insert, level_map_new, level_map_remove};
use crate::order_queue::{without, Level, OrderQueue};
use crate::price_tree::{
    is_highest, is_lowest, tree_insert, tree_new, tree_ordered, tree_peek, tree_peek_back,
    tree_prices, tree_remove,
};
use crate::utils::{safe_add, safe_sub, sat_add, sat_sub};
use rb_tree::RBTree;
use rustc_hash::FxBuildHasher;
use std::collections::HashMap;
use vstd::prelude::*;
use vstd::string::*;

verus! {

/// Whether `p` is the best price of `s` for a side: the highest bid, the
/// lowest ask.
pub open spec fn is_best(s: Set<u64>, side: Side, p: u64) -> bool {
    match side {
        Side::Buy => is_highest(s, p),
        Side::Sell => is_lowest(s, p),
    }
}

/// Whether price `p` comes before price `q` on a side, best first.
pub open spec fn better(side: Side, p: u64, q: u64) -> bool {
    match side {
        Side::Buy => p > q,
        Side::Sell => p < q,
    }
}

/// The best price of `s` for a side, and nothing where `s` has none.
pub open spec fn best_of(s: Set<u64>, side: Side) -> Option<u64> {
    if exists|p: u64| is_best(s, side, p) {
        Some(choose|p: u64| is_best(s, side, p))
    } else {
        None
    }
}

/// A best price is the best price.
pub proof fn lemma_best_of(s: Set<u64>, side: Side, p: u64)
    requires
        is_best(s, side, p),
    ensures
        best_of(s, side) == Some(p),
{
    let c = choose|c: u64| is_best(s, side, c);
    assert(is_best(s, side, c));
    assert(c == p);
}

/// An empty set has no best price.
pub proof fn lemma_best_of_empty(s: Set<u64>, side: Side)
    requires
        forall|p: u64| !s.contains(p),
    ensures
        best_of(s, side) is None,
{
}

/// Whether `v` lists the prices of `s` once each, best first for a side.
pub open spec fn lists_best_first(v: Seq<u64>, s: Set<u64>, side: Side) -> bool {
    &&& forall|i: int, j: int| 0 <= i < j < v.len() ==> better(side, v[i], v[j])
    &&& forall|i: int| 0 <= i < v.len() ==> s.contains(#[trigger] v[i])
    &&& forall|p: u64| s.contains(p) ==> v.contains(p)
}

/// The prices of `s`, once each, best first for a side.
pub open spec fn ordered(s: Set<u64>, side: Side) -> Seq<u64> {
    choose|v: Seq<u64>| lists_best_first(v, s, side)
}

/// Only one sequence lists the prices of a set best first.
pub proof fn lemma_lists_best_first_unique(a: Seq<u64>, b: Seq<u64>, s: Set<u64>, side: Side)
    requires
        lists_best_first(a, s, side),
        lists_best_first(b, s, side),
    ensures
        a == b,
    decreases a.len(),
{
    if a.len() == 0 {
        if b.len() > 0 {
            assert(s.contains(b[0]));
            assert(a.contains(b[0]));
        }
        assert(a =~= b);
    } else {
        assert(s.contains(a[0]));
        assert(b.contains(a[0]));
        let kb = choose|k: int| 0 <= k < b.len() && b[k] == a[0];
        assert(s.contains(b[0]));
        assert(a.contains(b[0]));
        let ka = choose|k: int| 0 <= k < a.len() && a[k] == b[0];
        if ka > 0 {
            assert(better(side, a[0], a[ka]));
            if kb > 0 {
                assert(better(side, b[0], b[kb]));
            }
        }
        assert(a[0] == b[0]);
        let a1 = a.drop_first();
        let b1 = b.drop_first();
        let s1 = s.remove(a[0]);
        assert forall|p: u64| s1.contains(p) implies a1.contains(p) by {
            assert(a.contains(p));
            let k = choose|k: int| 0 <= k < a.len() && a[k] == p;
            assert(a1[k - 1] == p);
        }
        assert forall|p: u64| s1.contains(p) implies b1.contains(p) by {
            assert(b.contains(p));
            let k = choose|k: int| 0 <= k < b.len() && b[k] == p;
            assert(b1[k - 1] == p);
        }
        assert forall|i: int| 0 <= i < a1.len() implies s1.contains(#[trigger] a1[i]) by {
            assert(a1[i] == a[i + 1]);
            assert(better(side, a[0], a[i + 1]));
        }
        assert forall|i: int| 0 <= i < b1.len() implies s1.contains(#[trigger] b1[i]) by {
            assert(b1[i] == b[i + 1]);
            assert(better(side, b[0], b[i + 1]));
        }
        assert forall|i: int, j: int| 0 <= i < j < a1.len() implies better(side, a1[i], a1[j]) by {
            assert(better(side, a[i + 1], a[j + 1]));
        }
        assert forall|i: int, j: int| 0 <= i < j < b1.len() implies better(side, b1[i], b1[j]) by {
            assert(better(side, b[i + 1], b[j + 1]));
        }
        lemma_lists_best_first_unique(a1, b1, s1, side);
        assert(a =~= seq![a[0]] + a1);
        assert(b =~= seq![b[0]] + b1);
    }
}

/// A sequence that lists the prices of a set best first is the ordered
/// sequence of the set.
pub proof fn lemma_ordered_is(v: Seq<u64>, s: Set<u64>, side: Side)
    requires
        lists_best_first(v, s, side),
    ensures
        ordered(s, side) == v,
{
    lemma_lists_best_first_unique(ordered(s, side), v, s, side);
}

/// The first price of the ordered sequence is the best price.
pub proof fn lemma_ordered_first_is_best(v: Seq<u64>, s: Set<u64>, side: Side)
    requires
        lists_best_first(v, s, side),
    ensures
        v.len() == 0 ==> best_of(s, side) is None,
        v.len() > 0 ==> best_of(s, side) == Some(v[0]),
{
    if v.len() == 0 {
        assert forall|p: u64| !s.contains(p) by {
            if s.contains(p) {
                assert(v.contains(p));
            }
        }
    } else {
        assert(s.contains(v[0]));
        assert forall|q: u64| s.contains(q) implies (q == v[0] || better(side, v[0], q)) by {
            assert(v.contains(q));
            let k = choose|k: int| 0 <= k < v.len() && v[k] == q;
            if k > 0 {
                assert(better(side, v[0], v[k]));
            }
        }
        assert(is_best(s, side, v[0]));
        lemma_best_of(s, side, v[0]);
    }
}

/// One line of the text of a side: price, an arrow, volume.
pub open spec fn level_line(level: (u64, u64)) -> Seq<char> {
    decimal(level.0 as nat) + " -> "@ + decimal(level.1 as nat)
        + "\n"@
}

/// The lines of the first `n` of the given levels, last level first.
pub open spec fn lines_descending(levels: Seq<(u64, u64)>, n: nat) -> Seq<char>
    decreases n,
{
    if n == 0 || n > levels.len() {
        Seq::empty()
    } else {
        level_line(levels[n - 1]) + lines_descending(levels, (n - 1) as nat)
    }
}

/// The lines of the levels from place `i` on, in their order.
pub open spec fn lines_from(levels: Seq<(u64, u64)>, i: nat) -> Seq<char>
    decreases levels.len() - i,
{
    if i >= levels.len() {
        Seq::empty()
    } else {
        level_line(levels[i as int]) + lines_from(levels, i + 1)
    }
}

/// What one side of the book holds, as plain values.
pub ghost struct SideState {
    /// Which side of the book this is.
    pub side: Side,
    /// The prices that the side keeps in order.
    pub prices: Set<u64>,
    /// The levels that are attached to the side, by price.
    pub levels: Map<u64, Level>,
    /// The volume that the side is counted with.
    pub volume: u64,
}

/// The volume of the level at a price; zero where no level is attached.
pub open spec fn volume_at(levels: Map<u64, Level>, p: u64) -> u64 {
    if levels.contains_key(p) {
        levels[p].volume
    } else {
        0
    }
}

/// The least of two numbers.
pub open spec fn least(a: nat, b: nat) -> nat {
    if a <= b {
        a
    } else {
        b
    }
}

impl SideState {
    /// A side without levels.
    pub open spec fn empty(side: Side) -> SideState {
        SideState { side, prices: Set::empty(), levels: Map::empty(), volume: 0 }
    }

    /// The side is whole: it has finitely many prices, every price in order
    /// has its level attached, no other level is attached, and no attached
    /// level is empty.
    pub open spec fn wf(self) -> bool {
        &&& self.prices.finite()
        &&& self.prices =~= self.levels.dom()
        &&& forall|p: u64| #[trigger]
            self.levels.contains_key(p) ==> self.levels[p].ids.len() > 0
    }

    /// The best price of the side.
    pub open spec fn best(self) -> Option<u64> {
        best_of(self.prices, self.side)
    }

    /// What the side shows down to `limit` levels: price and volume of each
    /// level, best first.
    pub open spec fn depth(self, limit: nat) -> Seq<(u64, u64)> {
        let v = ordered(self.prices, self.side);
        Seq::new(least(limit, v.len()), |i: int| (v[i], volume_at(self.levels, v[i])))
    }

    /// Whether no level is attached to the side.
    pub open spec fn is_empty(self) -> bool {
        forall|p: u64| !self.levels.contains_key(p)
    }

    /// The side after the level at `price` was detached. The price stays in
    /// the order of prices.
    pub open spec fn detach(self, price: u64) -> SideState {
        SideState { levels: self.levels.remove(price), ..self }
    }

    /// The side after `level` was attached at `price`.
    pub open spec fn attach(self, price: u64, level: Level) -> SideState {
        SideState { levels: self.levels.insert(price, level), ..self }
    }

    /// The side after `quantity` was taken out of its volume.
    pub open spec fn reduced(self, quantity: u64) -> SideState {
        SideState { volume: sat_sub(self.volume, quantity), ..self }
    }

    /// The side after an order of `quantity` left the detached queue of the
    /// level at `price`: the quantity is out of the volume, and where the
    /// queue is `emptied` the level has left the side.
    pub open spec fn removed(self, quantity: u64, price: u64, emptied: bool) -> SideState {
        SideState {
            side: self.side,
            prices: if emptied {
                self.prices.remove(price)
            } else {
                self.prices
            },
            levels: if emptied {
                self.levels.remove(price)
            } else {
                self.levels
            },
            volume: sat_sub(self.volume, quantity),
        }
    }

    /// All levels of the side, best first, each with its price and volume.
    pub open spec fn all_levels(self) -> Seq<(u64, u64)> {
        self.depth(ordered(self.prices, self.side).len())
    }

    /// The text of the side: a line for each level, highest price first.
    pub open spec fn text(self) -> Seq<char> {
        match self.side {
            Side::Buy => lines_from(self.all_levels(), 0),
            Side::Sell => lines_descending(self.all_levels(), self.all_levels().len()),
        }
    }

    /// The side after an order left the level at `price`: out of the queue
    /// of the level, `quantity` out of the volumes, and the level gone where
    /// its queue is empty. A side that has no level at the price stays as it
    /// is.
    pub open spec fn without_order(self, id: u64, quantity: u64, price: u64) -> SideState {
        if self.levels.contains_key(price) {
            let q = self.levels[price];
            let queue = Level {
                ids: without(q.ids, id),
                volume: if q.ids.contains(id) {
                    sat_sub(q.volume, quantity)
                } else {
                    q.volume
                },
            };
            let rest = self.detach(price).removed(quantity, price, queue.ids.len() == 0);
            if queue.ids.len() > 0 {
                rest.attach(price, queue)
            } else {
                rest
            }
        } else {
            self
        }
    }

    /// The side after an order was added at the tail of the level at
    /// `price`, with `quantity` counted into the volumes.
    pub open spec fn append(self, id: u64, quantity: u64, price: u64) -> SideState {
        SideState {
            side: self.side,
            prices: self.prices.insert(price),
            levels: self.levels.insert(
                price,
                if self.levels.contains_key(price) {
                    Level {
                        ids: self.levels[price].ids.push(id),
                        volume: sat_add(self.levels[price].volume, quantity),
                    }
                } else {
                    Level { ids: seq![id], volume: sat_add(0, quantity) }
                },
            ),
            volume: sat_add(self.volume, quantity),
        }
    }
}

/// One side of the book.
pub struct OrderSide {
    prices_tree: RBTree<u64>,
    prices: HashMap<u64, OrderQueue, FxBuildHasher>,
    /// The volume that the side is counted with.
    pub volume: u64,
    side: Side,
}

impl View for OrderSide {
    type V = SideState;

    open spec fn view(&self) -> SideState {
        SideState {
            side: self.side(),
            prices: self.prices(),
            levels: self.levels(),
            volume: self.total(),
        }
    }
}

impl OrderSide {
    /// The prices that the side keeps in order.
    pub closed spec fn prices(&self) -> Set<u64> {
        tree_prices(&self.prices_tree)
    }

    /// The price levels that are attached to the side.
    pub closed spec fn levels(&self) -> Map<u64, Level> {
        Map::new(|p: u64| self.prices@.contains_key(p), |p: u64| self.prices@[p]@)
    }

    /// Which side of the book this is.
    pub closed spec fn side(&self) -> Side {
        self.side
    }

    /// The volume that the side is counted with.
    pub closed spec fn total(&self) -> u64 {
        self.volume
    }

    /// A side without levels. `capacity` is the number of levels to make
    /// room for.
    pub fn with_capacity(side: Side, capacity: usize) -> (s: OrderSide)
        ensures
            s@ == SideState::empty(side),
    {
        let s = OrderSide {
            side,
            prices: level_map_new(capacity),
            prices_tree: tree_new(),
            volume: 0,
        };
        assert(s.levels() =~= Map::<u64, Level>::empty());
        assert(s.prices() =~= Set::<u64>::empty());
        s
    }

    /// Which side of the book this is.
    pub fn get_side(&self) -> (side: Side)
        ensures
            side == self.side(),
    {
        self.side
    }

    /// Adds an order at the tail of the level at `price`, which is made
    /// where there is none, and counts `quantity` into the volumes of the
    /// level and of the side.
    pub fn append(&mut self, id: u64, quantity: u64, price: u64)
        ensures
            final(self)@ == old(self)@.append(id, quantity, price),
    {
        let mut queue = match level_map_remove(&mut self.prices, price) {
            Some(q) => q,
            None => OrderQueue::new(),
        };
        let _ = tree_insert(&mut self.prices_tree, price);
        self.volume = safe_add(self.volume, quantity);
        queue.append(id, quantity);
        let _ = level_map_insert(&mut self.prices, price, queue);
        proof {
            assert(Seq::<u64>::empty().push(id) =~= seq![id]);
            assert(self.levels() =~= old(self)@.append(id, quantity, price).levels);
        }
    }

    /// Removes an order from `queue`, the detached queue of the level at
    /// `price`, and takes `quantity` out of the volumes of the queue and of
    /// the side. Where the queue is empty afterwards, the level leaves the
    /// side.
    pub fn remove(&mut self, id: u64, quantity: u64, price: u64, queue: &mut OrderQueue)
        ensures
            final(queue)@.ids == without(old(queue)@.ids, id),
            final(queue)@.volume == if old(queue)@.ids.contains(id) {
                sat_sub(old(queue)@.volume, quantity)
            } else {
                old(queue)@.volume
            },
            final(self)@ == old(self)@.removed(quantity, price, final(queue)@.ids.len() == 0),
    {
        queue.remove(id, quantity);
        if queue.is_empty() {
            let _ = level_map_remove(&mut self.prices, price);
            let _ = tree_remove(&mut self.prices_tree, price);
            assert(self.levels() =~= old(self).levels().remove(price));
        }
        self.volume = safe_sub(self.volume, quantity);
    }

    /// Removes an order from the level at `price` and takes `quantity` out
    /// of the volumes of the level and of the side. Where the queue of the
    /// level is empty afterwards, the level leaves the side. A side without
    /// a level at the price stays as it is.
    pub fn remove_order(&mut self, id: u64, quantity: u64, price: u64)
        ensures
            final(self)@ == old(self)@.without_order(id, quantity, price),
    {
        match self.take_queue(price) {
            None => {
                proof {
                    assert(self@.levels =~= old(self)@.levels);
                }
            },
            Some(q) => {
                let mut q = q;
                self.remove(id, quantity, price, &mut q);
                if !q.is_empty() {
                    self.put_queue(price, q);
                }
            },
        }
    }

    /// Takes `quantity` out of the volumes of `queue` and of the side. The
    /// orders stay as they are.
    pub fn reduce(&mut self, quantity: u64, queue: &mut OrderQueue)
        ensures
            final(self)@ == old(self)@.reduced(quantity),
            final(queue)@ == (Level {
                ids: old(queue)@.ids,
                volume: sat_sub(old(queue)@.volume, quantity),
            }),
    {
        queue.reduce(quantity);
        self.volume = safe_sub(self.volume, quantity);
    }

    /// The volume that the side is counted with.
    pub fn volume(&self) -> (v: u64)
        ensures
            v == self.total(),
    {
        self.volume
    }

    /// Whether no level is attached to the side.
    pub fn is_empty(&self) -> (b: bool)
        ensures
            b == self@.is_empty(),
    {
        let b = self.prices.is_empty();
        proof {
            if b {
                assert forall|p: u64| !self@.levels.contains_key(p) by {
                    assert(!self.prices@.dom().contains(p));
                }
            } else {
                assert(!(self.prices@.dom() =~= Set::<u64>::empty()));
                let p = choose|p: u64| self.prices@.dom().contains(p);
                assert(self@.levels.contains_key(p));
            }
        }
        b
    }

    /// Detaches the queue of the level at `price` and hands it out. The
    /// price stays in the order of prices.
    pub fn take_queue(&mut self, price: u64) -> (queue: Option<OrderQueue>)
        ensures
            final(self)@ == old(self)@.detach(price),
            match queue {
                Some(q) => old(self)@.levels.contains_key(price) && q@ == old(self)@.levels[price],
                None => !old(self)@.levels.contains_key(price),
            },
    {
        let queue = level_map_remove(&mut self.prices, price);
        assert(self.levels() =~= old(self).levels().remove(price));
        queue
    }

    /// Attaches `queue` as the level at `price`.
    pub fn put_queue(&mut self, price: u64, queue: OrderQueue)
        ensures
            final(self)@ == old(self)@.attach(price, queue@),
    {
        let _ = level_map_insert(&mut self.prices, price, queue);
        assert(self.levels() =~= old(self).levels().insert(price, queue@));
    }

    /// The lowest price of the side where `min` is set, the highest where
    /// it is not; nothing where the side has no price.
    pub fn best_price(&self, min: bool) -> (price: Option<u64>)
        ensures
            match price {
                Some(p) => if min {
                    is_lowest(self.prices(), p)
                } else {
                    is_highest(self.prices(), p)
                },
                None => self.prices() == Set::<u64>::empty(),
            },
    {
        if min {
            tree_peek(&self.prices_tree)
        } else {
            tree_peek_back(&self.prices_tree)
        }
    }

    /// The lowest price of the side.
    pub fn min_price(&self) -> (price: Option<u64>)
        ensures
            match price {
                Some(p) => is_lowest(self.prices(), p),
                None => self.prices() == Set::<u64>::empty(),
            },
    {
        self.best_price(true)
    }

    /// The highest price of the side.
    pub fn max_price(&self) -> (price: Option<u64>)
        ensures
            match price {
                Some(p) => is_highest(self.prices(), p),
                None => self.prices() == Set::<u64>::empty(),
            },
    {
        self.best_price(false)
    }

    /// The best price of the side: the highest bid, the lowest ask.
    pub fn best(&self) -> (price: Option<u64>)
        ensures
            price == self@.best(),
    {
        let price = match self.side {
            Side::Buy => tree_peek_back(&self.prices_tree),
            Side::Sell => tree_peek(&self.prices_tree),
        };
        proof {
            match price {
                Some(p) => {
                    lemma_best_of(self.prices(), self.side(), p);
                },
                None => {
                    lemma_best_of_empty(self.prices(), self.side());
                },
            }
        }
        price
    }

    /// The queue of the level at `price`.
    pub fn queue(&self, price: u64) -> (queue: Option<&OrderQueue>)
        ensures
            match queue {
                Some(q) => self@.levels.contains_key(price) && q@ == self@.levels[price],
                None => !self@.levels.contains_key(price),
            },
    {
        level_map_get(&self.prices, price)
    }

    /// The prices of the side, best first.
    pub fn ordered_prices(&self) -> (prices: Vec<u64>)
        ensures
            prices@ == ordered(self.prices(), self.side()),
            lists_best_first(prices@, self.prices(), self.side()),
    {
        let ascending = tree_ordered(&self.prices_tree);
        match self.side {
            Side::Sell => {
                proof {
                    lemma_ordered_is(ascending@, self.prices(), self.side());
                }
                ascending
            },
            Side::Buy => {
                let n = ascending.len();
                let mut prices: Vec<u64> = Vec::new();
                let mut i: usize = 0;
                while i < n
                    invariant
                        n == ascending@.len(),
                        0 <= i <= n,
                        prices@.len() == i,
                        forall|k: int| 0 <= k < i ==> prices@[k] == ascending@[n - 1 - k],
                    decreases n - i,
                {
                    prices.push(ascending[n - 1 - i]);
                    i = i + 1;
                }
                proof {
                    assert forall|p: u64| self.prices().contains(p) implies prices@.contains(
                        p,
                    ) by {
                        assert(ascending@.contains(p));
                        let k = choose|k: int| 0 <= k < n && ascending@[k] == p;
                        assert(prices@[n - 1 - k] == p);
                    }
                    assert forall|k: int| 0 <= k < prices@.len() implies self.prices().contains(
                        #[trigger] prices@[k],
                    ) by {
                        assert(prices@[k] == ascending@[n - 1 - k]);
                    }
                    lemma_ordered_is(prices@, self.prices(), self.side());
                }
                prices
            },
        }
    }

    /// What the side shows down to `limit` levels: price and volume of each
    /// level, best first. A price whose level is detached shows volume zero.
    /// The side has no more prices than a machine word counts.
    pub fn depth(&self, limit: usize) -> (depth: Vec<(u64, u64)>)
        ensures
            depth@ == self@.depth(limit as nat),
            ordered(self@.prices, self@.side).len() <= usize::MAX,
    {
        let prices = self.ordered_prices();
        let n = prices.len();
        let mut depth: Vec<(u64, u64)> = Vec::new();
        let mut i: usize = 0;
        while i < n && i < limit
            invariant
                n == prices@.len(),
                0 <= i <= n,
                i <= limit,
                depth@.len() == i,
                forall|k: int|
                    0 <= k < i ==> #[trigger] depth@[k] == (
                        prices@[k],
                        volume_at(self.levels(), prices@[k]),
                    ),
            decreases n - i,
        {
            let price = prices[i];
            let volume = match level_map_get(&self.prices, price) {
                Some(q) => q.volume(),
                None => 0,
            };
            depth.push((price, volume));
            i = i + 1;
        }
        proof {
            assert(depth@ =~= self@.depth(limit as nat));
        }
        depth
    }

    /// The text of the side: a line `price -> volume` for each level,
    /// highest price first.
    pub fn to_string(&self) -> (text: String)
        ensures
            text@ == self@.text(),
    {
        let levels = self.depth(usize::MAX);
        proof {
            assert(levels@ =~= self@.all_levels());
        }
        let mut text = String::new();
        match self.side {
            Side::Sell => {
                let mut i: usize = levels.len();
                while i > 0
                    invariant
                        0 <= i <= levels@.len(),
                        text@ + lines_descending(levels@, i as nat) == lines_descending(
                            levels@,
                            levels@.len(),
                        ),
                    decreases i,
                {
                    let ghost before = text@;
                    i = i - 1;
                    push_level_line(&mut text, levels[i]);
                    proof {
                        assert(text@ + lines_descending(levels@, i as nat) =~= before + (
                        level_line(levels@[i as int]) + lines_descending(levels@, i as nat)));
                    }
                }
                proof {
                    assert(text@ =~= lines_descending(levels@, levels@.len()));
                }
            },
            Side::Buy => {
                let mut j: usize = 0;
                while j < levels.len()
                    invariant
                        0 <= j <= levels@.len(),
                        text@ + lines_from(levels@, j as nat) == lines_from(levels@, 0),
                    decreases levels@.len() - j,
                {
                    let ghost before = text@;
                    push_level_line(&mut text, levels[j]);
                    proof {
                        assert(text@ + lines_from(levels@, (j + 1) as nat) =~= before + (
                        level_line(levels@[j as int]) + lines_from(levels@, (j + 1) as nat)));
                    }
                    j = j + 1;
                }
                proof {
                    assert(text@ =~= lines_from(levels@, 0));
                }
            },
        }
        text
    }
}

/// Appends the line of one level to a text.
fn push_level_line(text: &mut String, level: (u64, u64))
    ensures
        final(text)@ == old(text)@ + level_line(level),
{
    push_decimal(text, level.0);
    text.append(" -> ");
    push_decimal(text, level.1);
    text.append("\n");
    proof {
        assert(text@ =~= old(text)@ + level_line(level));
    }
}

} // verus!

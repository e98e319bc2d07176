//! The queue of one price level: the identifiers of the orders that rest at
//! the price, earliest first, and the volume that they are counted with.

use crate::utils::{safe_add, safe_add_sub, safe_sub, sat_add, sat_sub};
use std::collections::VecDeque;
use vstd::prelude::*;

verus! {

/// What a price level holds, as plain values.
pub ghost struct Level {
    /// The identifiers of the resting orders, earliest first.
    pub ids: Seq<u64>,
    /// The volume that the level is counted with.
    pub volume: u64,
}

/// The first place at which `id` stands in `ids`; the length of `ids` where
/// it stands nowhere.
pub open spec fn position(ids: Seq<u64>, id: u64) -> int
    decreases ids.len(),
{
    if ids.len() == 0 {
        0
    } else if ids[0] == id {
        0
    } else {
        1 + position(ids.drop_first(), id)
    }
}

/// `ids` without the first occurrence of `id`.
pub open spec fn without(ids: Seq<u64>, id: u64) -> Seq<u64> {
    if ids.contains(id) {
        ids.remove(position(ids, id))
    } else {
        ids
    }
}

/// `position` gives a place in `ids`, or its length; before that place `id`
/// does not stand, and at it it does.
pub proof fn lemma_position(ids: Seq<u64>, id: u64)
    ensures
        0 <= position(ids, id) <= ids.len(),
        forall|j: int| 0 <= j < position(ids, id) ==> ids[j] != id,
        position(ids, id) < ids.len() ==> ids[position(ids, id)] == id,
        position(ids, id) < ids.len() <==> ids.contains(id),
    decreases ids.len(),
{
    if ids.len() == 0 {
    } else if ids[0] == id {
    } else {
        let rest = ids.drop_first();
        lemma_position(rest, id);
        let p = position(rest, id);
        assert forall|j: int| 0 <= j < 1 + p implies ids[j] != id by {
            if j > 0 {
                assert(rest[j - 1] == ids[j]);
            }
        }
        if p < rest.len() {
            assert(rest[p] == ids[p + 1]);
        }
        if ids.contains(id) {
            let k = choose|k: int| 0 <= k < ids.len() && ids[k] == id;
            assert(rest[k - 1] == ids[k]);
        }
    }
}

/// The first place at which `id` stands is the one before which it does not
/// stand.
pub proof fn lemma_position_is(ids: Seq<u64>, id: u64, i: int)
    requires
        0 <= i < ids.len(),
        ids[i] == id,
        forall|j: int| 0 <= j < i ==> ids[j] != id,
    ensures
        position(ids, id) == i,
{
    lemma_position(ids, id);
}

/// The queue of one price level.
#[derive(Debug, Clone)]
pub struct OrderQueue {
    /// The volume that the level is counted with.
    pub volume: u64,
    orders: VecDeque<u64>,
}

impl View for OrderQueue {
    type V = Level;

    closed spec fn view(&self) -> Level {
        Level { ids: self.orders@, volume: self.volume }
    }
}

impl OrderQueue {
    /// An empty queue with no volume.
    pub fn new() -> (q: OrderQueue)
        ensures
            q@ == (Level { ids: Seq::<u64>::empty(), volume: 0 }),
    {
        OrderQueue { volume: 0, orders: VecDeque::new() }
    }

    /// Whether no order rests in the queue.
    pub fn is_empty(&self) -> (b: bool)
        ensures
            b == (self@.ids.len() == 0),
    {
        self.orders.len() == 0
    }

    /// Whether an order rests in the queue.
    pub fn is_not_empty(&self) -> (b: bool)
        ensures
            b == (self@.ids.len() > 0),
    {
        !self.is_empty()
    }

    /// The number of orders in the queue.
    pub fn len(&self) -> (n: usize)
        ensures
            n == self@.ids.len(),
    {
        self.orders.len()
    }

    /// The volume that the level is counted with.
    pub fn volume(&self) -> (v: u64)
        ensures
            v == self@.volume,
    {
        self.volume
    }

    /// The earliest order, which stays in the queue.
    pub fn head(&self) -> (id: Option<u64>)
        ensures
            id == if self@.ids.len() > 0 {
                Some(self@.ids[0])
            } else {
                None
            },
    {
        if self.orders.len() > 0 {
            Some(self.orders[0])
        } else {
            None
        }
    }

    /// The latest order, which stays in the queue.
    pub fn tail(&self) -> (id: Option<u64>)
        ensures
            id == if self@.ids.len() > 0 {
                Some(self@.ids.last())
            } else {
                None
            },
    {
        let n = self.orders.len();
        if n > 0 {
            Some(self.orders[n - 1])
        } else {
            None
        }
    }

    /// The order at place `i`, counted from the head.
    pub fn get(&self, i: usize) -> (id: u64)
        requires
            i < self@.ids.len(),
        ensures
            id == self@.ids[i as int],
    {
        self.orders[i]
    }

    /// The identifiers in the queue, earliest first.
    pub fn iter_ids(&self) -> (ids: Vec<u64>)
        ensures
            ids@ == self@.ids,
    {
        let mut ids: Vec<u64> = Vec::new();
        let n = self.orders.len();
        let mut i: usize = 0;
        while i < n
            invariant
                n == self.orders@.len(),
                0 <= i <= n,
                ids@ == self.orders@.take(i as int),
            decreases n - i,
        {
            ids.push(self.orders[i]);
            proof {
                assert(self.orders@.take(i as int + 1) =~= self.orders@.take(i as int).push(
                    self.orders@[i as int],
                ));
            }
            i = i + 1;
        }
        proof {
            assert(self.orders@.take(n as int) =~= self.orders@);
        }
        ids
    }

    /// A copy of the identifiers in the queue, earliest first.
    pub fn to_deque(&self) -> (ids: VecDeque<u64>)
        ensures
            ids@ == self@.ids,
    {
        let mut ids: VecDeque<u64> = VecDeque::new();
        let n = self.orders.len();
        let mut i: usize = 0;
        while i < n
            invariant
                n == self.orders@.len(),
                0 <= i <= n,
                ids@ == self.orders@.take(i as int),
            decreases n - i,
        {
            ids.push_back(self.orders[i]);
            proof {
                assert(self.orders@.take(i as int + 1) =~= self.orders@.take(i as int).push(
                    self.orders@[i as int],
                ));
            }
            i = i + 1;
        }
        proof {
            assert(self.orders@.take(n as int) =~= self.orders@);
        }
        ids
    }

    /// Adds an order at the tail and counts `quantity` into the volume.
    pub fn append(&mut self, id: u64, quantity: u64)
        ensures
            final(self)@ == (Level {
                ids: old(self)@.ids.push(id),
                volume: sat_add(old(self)@.volume, quantity),
            }),
    {
        self.volume = safe_add(self.volume, quantity);
        self.orders.push_back(id);
    }

    /// Replaces `old_quantity` by `new_quantity` in the volume, where the
    /// order rests in the queue; does nothing where it does not.
    pub fn update(&mut self, id: u64, old_quantity: u64, new_quantity: u64)
        ensures
            final(self)@.ids == old(self)@.ids,
            final(self)@.volume == if old(self)@.ids.contains(id) {
                sat_sub(sat_add(old(self)@.volume, new_quantity), old_quantity)
            } else {
                old(self)@.volume
            },
    {
        if self.contains(id) {
            self.volume = safe_add_sub(self.volume, new_quantity, old_quantity);
        }
    }

    /// Takes `quantity` out of the volume. The orders stay as they are.
    pub fn reduce(&mut self, quantity: u64)
        ensures
            final(self)@ == (Level {
                ids: old(self)@.ids,
                volume: sat_sub(old(self)@.volume, quantity),
            }),
    {
        self.volume = safe_sub(self.volume, quantity);
    }

    /// Whether the order rests in the queue.
    pub fn contains(&self, id: u64) -> (b: bool)
        ensures
            b == self@.ids.contains(id),
    {
        let i = self.find(id);
        proof {
            lemma_position(self@.ids, id);
        }
        i < self.orders.len()
    }

    /// The first place at which the order rests; the length of the queue
    /// where it does not rest in it.
    pub fn find(&self, id: u64) -> (i: usize)
        ensures
            i == position(self@.ids, id),
    {
        let n = self.orders.len();
        let mut i: usize = 0;
        while i < n
            invariant
                n == self.orders@.len(),
                0 <= i <= n,
                forall|j: int| 0 <= j < i ==> self.orders@[j] != id,
            decreases n - i,
        {
            if self.orders[i] == id {
                proof {
                    lemma_position_is(self@.ids, id, i as int);
                }
                return i;
            }
            i = i + 1;
        }
        proof {
            lemma_position(self@.ids, id);
        }
        i
    }

    /// Removes the earliest order and returns it. The volume stays as it is.
    pub fn pop_head(&mut self) -> (id: Option<u64>)
        ensures
            id == if old(self)@.ids.len() > 0 {
                Some(old(self)@.ids[0])
            } else {
                None
            },
            final(self)@.volume == old(self)@.volume,
            final(self)@.ids == if old(self)@.ids.len() > 0 {
                old(self)@.ids.drop_first()
            } else {
                old(self)@.ids
            },
    {
        let id = self.orders.pop_front();
        proof {
            if old(self)@.ids.len() > 0 {
                assert(self.orders@ =~= old(self)@.ids.drop_first());
            } else {
                assert(self.orders@ =~= old(self)@.ids);
            }
        }
        id
    }

    /// Removes the order from the queue and takes `quantity` out of the
    /// volume, where the order rests in the queue; does nothing where it
    /// does not. The other orders keep their places relative to each other.
    pub fn remove(&mut self, id: u64, quantity: u64)
        ensures
            final(self)@.ids == without(old(self)@.ids, id),
            final(self)@.volume == if old(self)@.ids.contains(id) {
                sat_sub(old(self)@.volume, quantity)
            } else {
                old(self)@.volume
            },
    {
        let i = self.find(id);
        proof {
            lemma_position(self@.ids, id);
        }
        if i < self.orders.len() {
            let _ = self.orders.remove(i);
            self.volume = safe_sub(self.volume, quantity);
        }
    }
}

} // verus!

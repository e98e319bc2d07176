//! The queues of one side of the book by price, in a hash map of std with
//! the hasher of the `rustc_hash` crate.
//!
//! A hash map is known to map keys as a mathematical map does only for
//! hashers that are known to hash equal keys alike. Of `FxBuildHasher` that
//! is assumed here, not proved: each function below makes one call on a map
//! with that hasher, and its contract says of the call what the
//! documentation of `HashMap` says of it.

use crate::order_queue::OrderQueue;
use rustc_hash::FxBuildHasher;
use std::collections::HashMap;
use vstd::prelude::*;

verus! {

/// `rustc_hash::FxBuildHasher`, which builds the hashers of the map.
#[verifier::external_type_specification]
#[verifier::external_body]
pub struct ExFxBuildHasher(FxBuildHasher);

/// `HashMap::with_capacity_and_hasher` with an `FxBuildHasher`. Assumed: the
/// new map holds nothing.
#[verifier::external_body]
pub(crate) fn level_map_new(capacity: usize) -> (levels: HashMap<u64, OrderQueue, FxBuildHasher>)
    ensures
        levels@.dom() == Set::<u64>::empty(),
{
    HashMap::with_capacity_and_hasher(capacity, FxBuildHasher)
}

/// `HashMap::insert` under an `FxBuildHasher`. Assumed: the price maps to
/// the queue afterwards, every other price maps as before, and the result
/// is the queue that the price mapped to before.
#[verifier::external_body]
pub(crate) fn level_map_insert(
    m: &mut HashMap<u64, OrderQueue, FxBuildHasher>,
    price: u64,
    queue: OrderQueue,
) -> (previous: Option<OrderQueue>)
    ensures
        final(m)@ == old(m)@.insert(price, queue),
        previous == if old(m)@.contains_key(price) {
            Some(old(m)@[price])
        } else {
            None
        },
{
    m.insert(price, queue)
}

/// `HashMap::remove` under an `FxBuildHasher`. Assumed: the price maps to
/// nothing afterwards, every other price maps as before, and the result is
/// the queue that the price mapped to before.
#[verifier::external_body]
pub(crate) fn level_map_remove(
    m: &mut HashMap<u64, OrderQueue, FxBuildHasher>,
    price: u64,
) -> (queue: Option<OrderQueue>)
    ensures
        final(m)@ == old(m)@.remove(price),
        queue == if old(m)@.contains_key(price) {
            Some(old(m)@[price])
        } else {
            None
        },
{
    m.remove(&price)
}

/// `HashMap::get` under an `FxBuildHasher`. Assumed: the result is the
/// queue that the price maps to.
#[verifier::external_body]
pub(crate) fn level_map_get(
    m: &HashMap<u64, OrderQueue, FxBuildHasher>,
    price: u64,
) -> (queue: Option<&OrderQueue>)
    ensures
        queue == if m@.contains_key(price) {
            Some(&m@[price])
        } else {
            None
        },
{
    m.get(&price)
}

} // verus!

//! The ordered set of prices of one side of the book, kept in a red-black
//! tree of the `rb_tree` crate.
//!
//! The tree is the crate's `RBTree<u64>`, which orders prices as integers
//! are ordered. What its methods do is assumed here, not proved: each
//! function below makes one call into the crate, and its contract says of
//! the call what the crate's source shows.

use rb_tree::RBTree;
use vstd::prelude::*;

verus! {

/// `rb_tree::RBTree`, a set of items in a red-black tree. Nothing inside a
/// tree is visible here.
#[verifier::external_type_specification]
#[verifier::external_body]
#[verifier::reject_recursive_types(T)]
pub struct ExRBTree<T: PartialOrd>(RBTree<T>);

/// The prices that a tree holds. The contracts of the functions below say
/// how each call reads or changes this set; nothing else is known of it.
pub uninterp spec fn tree_prices(tree: &RBTree<u64>) -> Set<u64>;

/// Whether `p` is in `s` and no price in `s` is lower.
pub open spec fn is_lowest(s: Set<u64>, p: u64) -> bool {
    s.contains(p) && forall|q: u64| s.contains(q) ==> p <= q
}

/// Whether `p` is in `s` and no price in `s` is higher.
pub open spec fn is_highest(s: Set<u64>, p: u64) -> bool {
    s.contains(p) && forall|q: u64| s.contains(q) ==> q <= p
}

/// Whether `v` lists the prices of `s` once each, lowest first.
pub open spec fn lists_ascending(v: Seq<u64>, s: Set<u64>) -> bool {
    &&& forall|i: int, j: int| 0 <= i < j < v.len() ==> v[i] < v[j]
    &&& forall|i: int| 0 <= i < v.len() ==> s.contains(#[trigger] v[i])
    &&& forall|p: u64| s.contains(p) ==> v.contains(p)
}

/// `RBTree::new`. Assumed: the new tree holds nothing.
#[verifier::external_body]
pub(crate) fn tree_new() -> (tree: RBTree<u64>)
    ensures
        tree_prices(&tree) == Set::<u64>::empty(),
{
    RBTree::new()
}

/// `RBTree::insert`. Assumed: the tree holds the price afterwards and
/// what it held before, and the result tells whether the price was absent
/// before.
#[verifier::external_body]
pub(crate) fn tree_insert(tree: &mut RBTree<u64>, price: u64) -> (added: bool)
    ensures
        tree_prices(final(tree)) == tree_prices(old(tree)).insert(price),
        added == !tree_prices(old(tree)).contains(price),
{
    tree.insert(price)
}

/// `RBTree::remove`. Assumed: the tree holds what it held before without
/// the price, and the result tells whether the price was present before.
#[verifier::external_body]
pub(crate) fn tree_remove(tree: &mut RBTree<u64>, price: u64) -> (removed: bool)
    ensures
        tree_prices(final(tree)) == tree_prices(old(tree)).remove(price),
        removed == tree_prices(old(tree)).contains(price),
{
    tree.remove(&price)
}

/// `RBTree::peek`. Assumed: the result is the lowest price of the tree,
/// and nothing where the tree is empty.
#[verifier::external_body]
pub(crate) fn tree_peek(tree: &RBTree<u64>) -> (lowest: Option<u64>)
    ensures
        match lowest {
            Some(p) => is_lowest(tree_prices(tree), p),
            None => tree_prices(tree) == Set::<u64>::empty(),
        },
{
    tree.peek().copied()
}

/// `RBTree::peek_back`. Assumed: the result is the highest price of the
/// tree, and nothing where the tree is empty.
#[verifier::external_body]
pub(crate) fn tree_peek_back(tree: &RBTree<u64>) -> (highest: Option<u64>)
    ensures
        match highest {
            Some(p) => is_highest(tree_prices(tree), p),
            None => tree_prices(tree) == Set::<u64>::empty(),
        },
{
    tree.peek_back().copied()
}

/// `RBTree::ordered`. Assumed: the result lists the prices of the tree,
/// each once, lowest first.
#[verifier::external_body]
pub(crate) fn tree_ordered(tree: &RBTree<u64>) -> (prices: Vec<u64>)
    ensures
        lists_ascending(prices@, tree_prices(tree)),
{
    tree.ordered().into_iter().copied().collect()
}

} // verus!

//! A generic tree of data carrying a trait set at every node.

use vstd::prelude::*;

verus! {

/// A set of traits attached to a node, kept in insertion order.
pub struct TraitSet<A>(pub Vec<A>);

/// A tree node: its data, its children and its traits.
pub struct Node<A, T> {
    pub data: A,
    pub children: Vec<Node<A, T>>,
    pub traits: TraitSet<T>,
}

} // verus!

//! A root node with its children.
use vstd::prelude::*;
use crate::common::node::Node;

verus! {

/// A root node and its child nodes.
pub struct Tree<T> {
    root: Node<T>,
    children: Vec<Node<T>>,
}

} // verus!

//! A node holding a value.
use vstd::prelude::*;

verus! {

/// A tree node holding one value.
pub struct Node<T> {
    pub value: T,
}

} // verus!

//! The link (shared-ownership handle) discipline.
//!
//! A strong link keeps a node alive and participates in a reference count;
//! a node may be taken back out of its link only when that count proves the
//! caller to be its sole owner. The two operations below are the only points
//! where the library touches the count.

use std::sync::Arc;

use vstd::prelude::*;

use crate::list::node::Node;

verus! {

/// Relies on `Arc::clone`: the new handle designates the same allocation,
/// so the value seen through it is the same.
#[verifier::external_body]
pub(crate) fn arc_clone<T>(link: &Arc<T>) -> (r: Arc<T>)
    ensures
        r == *link,
{
    Arc::clone(link)
}

/// Relies on `Arc::try_unwrap`: returns the inner value when the handle was
/// the only strong handle to its allocation, and gives the handle back
/// otherwise; either way the value is unchanged.
#[verifier::external_body]
pub(crate) fn arc_try_unwrap<T>(link: Arc<T>) -> (r: Result<T, Arc<T>>)
    ensures
        match r {
            Ok(t) => t == link,
            Err(e) => e == link,
        },
{
    Arc::try_unwrap(link)
}

/// Read access to a node held inside some cell-like container.
pub trait NodeCell<T> {
    /// The node value this container holds.
    spec fn node_spec(&self) -> Node<T>;

    /// Borrows the held node.
    fn get_node(&self) -> (r: &Node<T>)
        ensures
            *r == self.node_spec(),
    ;
}

impl<T> NodeCell<T> for Node<T> {
    open spec fn node_spec(&self) -> Node<T> {
        *self
    }

    fn get_node(&self) -> (r: &Node<T>) {
        self
    }
}

} // verus!

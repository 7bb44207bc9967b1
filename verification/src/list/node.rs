//! The node representation of a chain.

use std::sync::Arc;

use vstd::prelude::*;

use crate::list::List;
use crate::list::link::arc_clone;

verus! {

/// A strong, shared-ownership handle into a chain of nodes, or `None` for
/// the end of a chain.
pub type Link<T> = Option<Arc<Node<T>>>;

/// Wraps a node into a fresh link.
pub fn new_link<T>(node: Node<T>) -> (r: Link<T>)
    ensures
        r matches Some(n) && n == node,
{
    Some(Arc::new(node))
}

/// Copies a link: the copy designates the same node, or the same absence of
/// one.
pub(crate) fn clone_link<T>(link: &Link<T>) -> (r: Link<T>)
    ensures
        r == *link,
{
    match link {
        None => None,
        Some(a) => Some(arc_clone(a)),
    }
}

/// An immutable payload cell: one element, and the remainder of the list
/// after it. The element itself sits behind a shared handle so that a
/// rebuilt chain can share it instead of cloning it.
#[derive(Debug)]
pub struct Node<T> {
    pub(crate) data: Arc<T>,
    pub(crate) next: List<T>,
}

impl<T> Node<T> {
    /// The elements of the chain rooted at this node, in order.
    pub(crate) open spec fn elems(self) -> Seq<T>
        decreases self,
    {
        seq![*self.data].add(self.next.elems())
    }
}

impl<T> View for Node<T> {
    type V = Seq<T>;

    closed spec fn view(&self) -> Seq<T> {
        self.elems()
    }
}

/// A node's view is the element sequence of the chain rooted at it.
pub(crate) proof fn lemma_node_view<T>(n: &Node<T>)
    ensures
        n@ == n.elems(),
{
}

/// The elements reachable through a link: none for the end of a chain, the
/// chain's elements otherwise.
pub open spec fn link_elems<T>(link: Link<T>) -> Seq<T> {
    match link {
        None => Seq::empty(),
        Some(node) => node@,
    }
}

impl<T> Node<T> {
    /// Wraps an element and a remainder list into a node.
    pub fn new(data: T, next: List<T>) -> (r: Self)
        ensures
            r@ == seq![data].add(next@),
    {
        Node { data: Arc::new(data), next }
    }

    /// The element held by this node.
    pub fn data(&self) -> (r: &T)
        ensures
            *r == self@[0],
    {
        &*self.data
    }

    /// Returns the element at zero-based offset `index` within the chain
    /// rooted at this node. Bounds checking is the list's responsibility.
    pub fn index(&self, index: usize) -> (r: &T)
        requires
            index < self@.len(),
        ensures
            *r == self@[index as int],
        decreases self@.len(),
    {
        if index == 0 {
            self.data()
        } else {
            proof {
                use_type_invariant(&self.next);
                crate::list::lemma_list_view(&self.next);
            }
            let link = self.next.head.as_ref().unwrap();
            proof {
                lemma_node_view(&**link);
            }
            (&**link).index(index - 1)
        }
    }

    /// The heart of the copying path of concatenation: builds a fresh chain
    /// holding this chain's elements followed by `list`'s, sharing the
    /// elements themselves and the whole of `list`, and leaving the chain
    /// rooted here untouched for whoever else holds it.
    pub fn concat_list(&self, list: &List<T>) -> (r: List<T>)
        requires
            self@.len() + list@.len() <= usize::MAX,
        ensures
            r@ == self@.add(list@),
        decreases self@.len(),
    {
        proof {
            use_type_invariant(&self.next);
            crate::list::lemma_list_view(&self.next);
        }
        match &self.next.head {
            Some(link) => {
                let node: &Node<T> = &**link;
                proof {
                    lemma_node_view(&**link);
                }
                let rest = node.concat_list(list);
                let r = List::cons_arc(arc_clone(&self.data), rest);
                proof {
                    assert(r@ =~= self@.add(list@));
                }
                r
            },
            None => {
                let r = List::cons_arc(arc_clone(&self.data), list.clone());
                proof {
                    assert(r@ =~= self@.add(list@));
                }
                r
            },
        }
    }
}

} // verus!

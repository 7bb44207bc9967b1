//! Lazy forward iteration over a list.

use vstd::prelude::*;

use crate::list::List;

verus! {

/// A single-pass forward iterator over the elements of a list.
///
/// Each step yields a clone of the current element and advances to the
/// remainder of the list; the list the iterator was built from is never
/// altered, so a fresh iterator can always be made from it again.
pub struct IntoIter<T> {
    pub(crate) list: List<T>,
}

impl<T> View for IntoIter<T> {
    type V = Seq<T>;

    closed spec fn view(&self) -> Seq<T> {
        self.list@
    }
}

impl<T: Clone> IntoIter<T> {
    /// Yields a clone of the front element and advances past it, or reports
    /// that the elements are exhausted. Advancing consumes the iterator's
    /// state, never the chain: the list the iterator came from, and every
    /// list sharing its nodes, is unchanged.
    pub fn next(&mut self) -> (r: Option<T>)
        ensures
            old(self)@.len() == 0 ==> r is None && final(self)@ == old(self)@,
            old(self)@.len() > 0 ==> (r matches Some(x) && cloned(old(self)@[0], x)),
            old(self)@.len() > 0 ==> final(self)@ == old(self)@.drop_first(),
    {
        let list = self.list.clone();
        proof {
            crate::list::lemma_list_view(&list);
        }
        match list.head {
            Some(link) => {
                let node = &*link;
                proof {
                    crate::list::node::lemma_node_view(node);
                    crate::list::lemma_list_view(&node.next);
                }
                self.list = node.next.clone();
                let r = Some(node.data().clone());
                proof {
                    assert(final(self)@ =~= old(self)@.drop_first());
                }
                r
            },
            None => None,
        }
    }
}

impl<T> List<T> {
    /// Creates an iterator over the elements of the list. The list value is
    /// moved into the iterator; lists sharing its chain are unaffected, and
    /// a clone taken beforehand can hand out fresh iterators at will.
    pub fn into_iter(self) -> (r: IntoIter<T>)
        ensures
            r@ == self@,
    {
        IntoIter { list: self }
    }
}

} // verus!

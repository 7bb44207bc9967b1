//! The list value type and its operations.

pub mod iterator;
pub mod link;
pub mod node;

use std::sync::Arc;

use vstd::prelude::*;

use vstd::std_specs::cmp::PartialEqSpec;

use crate::list::link::{arc_clone, arc_try_unwrap};
use crate::list::node::{Link, Node, clone_link, link_elems};

verus! {

/// The failure of a bounds-checked element access: the requested offset was
/// not below the list's length. Reports both.
#[derive(Clone, Copy, Debug, PartialEq, Eq, Structural)]
pub struct IndexOutOfBounds {
    /// The length of the list that was accessed.
    pub len: usize,
    /// The offset that was requested.
    pub index: usize,
}

/// A persistent singly linked list of elements.
///
/// A `List` is a value: a (possibly empty) strong handle to the first node of
/// a chain, a cached handle to the last node, and a cached length. Chains are
/// shared between list values and never observed to change; the one internal
/// mutation path (reclaiming a chain during [`List::concat`]) first proves,
/// node by node, that nobody else holds a handle to the node it rewrites.
#[derive(Debug)]
pub struct List<T> {
    pub(crate) head: Link<T>,
    pub(crate) tail: Link<T>,
    pub(crate) size: usize,
}

impl<T> List<T> {
    /// The elements of the list, in order.
    pub(crate) open spec fn elems(self) -> Seq<T>
        decreases self,
    {
        match self.head {
            None => Seq::empty(),
            Some(node) => node.elems(),
        }
    }
}

impl<T> View for List<T> {
    type V = Seq<T>;

    closed spec fn view(&self) -> Seq<T> {
        self.elems()
    }
}

/// A list's view is its element sequence.
pub(crate) proof fn lemma_list_view<T>(l: &List<T>)
    ensures
        l@ == l.elems(),
{
}

/// A list's view is the element sequence reachable through its head link,
/// which is present exactly when that sequence is nonempty.
proof fn lemma_view_is_link_elems<T>(l: &List<T>)
    ensures
        l@ == link_elems(l.head),
        (l.head is Some) == (l@.len() > 0),
{
    match &l.head {
        None => {},
        Some(node) => {
            crate::list::node::lemma_node_view(&**node);
        },
    }
}

impl<T> List<T> {
    /// Well-formedness: the cached size counts the reachable elements, and
    /// the cached tail handle designates the last node of the chain (and is
    /// absent exactly when the chain is).
    #[verifier::type_invariant]
    pub(crate) open spec fn wf(self) -> bool
        decreases self,
    {
        &&& self.size == self@.len()
        &&& match self.head {
            None => self.tail is None,
            Some(node) => {
                &&& node.next.wf()
                &&& self.tail == (match node.next.head {
                    None => Some(node),
                    Some(_) => node.next.tail,
                })
            },
        }
    }

    /// Creates an empty list.
    pub fn empty() -> (r: Self)
        ensures
            r@ == Seq::<T>::empty(),
    {
        List { head: None, tail: None, size: 0 }
    }

    /// Conses an already-shared element onto a list. This is the one place a
    /// node and the list value describing it are built.
    pub(crate) fn cons_arc(data: Arc<T>, rest: Self) -> (r: Self)
        requires
            rest@.len() < usize::MAX,
        ensures
            r@ == seq![*data].add(rest@),
    {
        proof {
            use_type_invariant(&rest);
        }
        let rest_tail = clone_link(&rest.tail);
        let rest_is_empty = rest.size == 0;
        let size = rest.size + 1;
        let link = Arc::new(Node { data, next: rest });
        let tail = if rest_is_empty {
            Some(arc_clone(&link))
        } else {
            rest_tail
        };
        List { head: Some(link), tail, size }
    }

    /// Creates a list from an item and the tail list.
    pub fn create(data: T, rest: Self) -> (r: Self)
        requires
            rest@.len() < usize::MAX,
        ensures
            r@ == seq![data].add(rest@),
    {
        Self::cons_arc(Arc::new(data), rest)
    }

    /// Creates a list that starts with the given element and continues with
    /// the original list. The new list shares the whole existing chain; no
    /// element is copied and the original list is left as it was.
    pub fn prepend(&self, data: T) -> (r: Self)
        requires
            self@.len() < usize::MAX,
        ensures
            r@ == seq![data].add(self@),
    {
        proof {
            use_type_invariant(self);
        }
        let next = List {
            head: clone_link(&self.head),
            tail: clone_link(&self.tail),
            size: self.size,
        };
        Self::cons_arc(Arc::new(data), next)
    }

    /// Creates a list that starts with the original list and ends with the
    /// given element.
    pub fn append(self, data: T) -> (r: Self)
        requires
            self@.len() < usize::MAX,
        ensures
            r@ == self@.push(data),
    {
        let single = List::create(data, List::empty());
        let r = self.concat(&single);
        proof {
            assert(r@ =~= self@.push(data));
        }
        r
    }

    /// Creates a new list with the elements of this list followed by the
    /// elements of `right`.
    ///
    /// Observably this always behaves like building the combined list afresh,
    /// and neither operand's chain, nor any list sharing it, is ever seen to
    /// change. Underneath, each node of this list that this call is the sole
    /// owner of is reclaimed in place rather than copied; a node that is
    /// still shared — or whose ownership is claimed by a concurrent call
    /// first — makes the rest of the walk fall back to building fresh nodes.
    pub fn concat(self, right: &Self) -> (r: Self)
        requires
            self@.len() + right@.len() <= usize::MAX,
        ensures
            r@ == self@.add(right@),
    {
        proof {
            use_type_invariant(&self);
            use_type_invariant(right);
        }
        if self.size == 0 {
            let r = right.clone();
            proof {
                assert(r@ =~= self@.add(right@));
            }
            r
        } else if right.size == 0 {
            proof {
                assert(self@ =~= self@.add(right@));
            }
            self
        } else {
            Self::splice(self, right)
        }
    }

    /// The always-safe copying path of concatenation: rebuilds the chain
    /// behind `link` in fresh nodes and attaches `right` where it ends.
    pub fn concat_immut(link: &Link<T>, right: &Self) -> (r: Self)
        requires
            link_elems(*link).len() + right@.len() <= usize::MAX,
        ensures
            r@ == link_elems(*link).add(right@),
    {
        match link {
            Some(arc) => (&**arc).concat_list(right),
            None => {
                let r = right.clone();
                proof {
                    assert(r@ =~= link_elems(*link).add(right@));
                }
                r
            },
        }
    }

    /// Adds the elements of `right` to an existing list in place.
    pub fn concat_mut(&mut self, right: &Self)
        requires
            old(self)@.len() + right@.len() <= usize::MAX,
        ensures
            final(self)@ == old(self)@.add(right@),
    {
        let mut joined = List::empty();
        core::mem::swap(&mut joined, self);
        let joined = joined.concat(right);
        *self = joined;
    }

    /// Consumes a list and splices `right` onto its end.
    ///
    /// At each node the walk first drops the handle it holds on the chain's
    /// last node, then asks for sole ownership of the node itself; taking a
    /// node out of its link succeeds exactly when no other list (and no
    /// other in-flight concatenation, however it aliases this chain) holds a
    /// strong handle to it, and claims it atomically, so nothing any other
    /// holder can reach is ever rewritten. A node that cannot be claimed is
    /// left in place and the remainder is rebuilt by the copying path.
    fn splice(list: Self, right: &Self) -> (r: Self)
        requires
            list@.len() + right@.len() <= usize::MAX,
            right@.len() > 0,
        ensures
            r@ == list@.add(right@),
        decreases list@.len(),
    {
        proof {
            use_type_invariant(&list);
            use_type_invariant(right);
        }
        let List { head, tail: _, size: _ } = list;
        match head {
            None => {
                let r = right.clone();
                proof {
                    assert(r@ =~= list@.add(right@));
                }
                r
            },
            Some(link) => {
                match arc_try_unwrap(link) {
                    Ok(node) => {
                        let Node { data, next } = node;
                        let rest = Self::splice(next, right);
                        let r = Self::cons_arc(data, rest);
                        proof {
                            assert(r@ =~= list@.add(right@));
                        }
                        r
                    },
                    Err(link) => {
                        proof {
                            crate::list::node::lemma_node_view(&*link);
                        }
                        (&*link).concat_list(right)
                    },
                }
            },
        }
    }

    /// Borrows the strong handle to the first node of the chain, absent for
    /// the empty list. The chain behind it holds exactly the list's
    /// elements; the handle's reference count is what the concatenation
    /// machinery consults.
    pub fn head_link(&self) -> (r: &Link<T>)
        ensures
            link_elems(*r) == self@,
            (*r is Some) == (self@.len() > 0),
    {
        proof {
            use_type_invariant(self);
            lemma_view_is_link_elems(self);
        }
        &self.head
    }

    /// Borrows the first element behind a link, if the link designates a
    /// node.
    fn get_link_data(link: &Link<T>) -> (r: Option<&T>)
        ensures
            (match r {
                None => link_elems(*link).len() == 0,
                Some(x) => link_elems(*link).len() > 0 && *x == link_elems(*link)[0],
            }),
    {
        match link {
            None => None,
            Some(cell) => {
                proof {
                    crate::list::node::lemma_node_view(&**cell);
                }
                Some((&**cell).data())
            },
        }
    }

    /// Returns a reference to the first element of the list, or `None` if
    /// it is empty.
    pub fn first(&self) -> (r: Option<&T>)
        ensures
            (match r {
                None => self@.len() == 0,
                Some(x) => self@.len() > 0 && *x == self@[0],
            }),
    {
        proof {
            lemma_view_is_link_elems(self);
        }
        Self::get_link_data(&self.head)
    }

    /// Returns a reference to the last element of the list, or `None` if it
    /// is empty. The cached tail handle makes this O(1).
    pub fn last(&self) -> (r: Option<&T>)
        ensures
            (match r {
                None => self@.len() == 0,
                Some(x) => self@.len() > 0 && *x == self@.last(),
            }),
    {
        proof {
            use_type_invariant(self);
            lemma_wf_tail(self);
        }
        match &self.tail {
            None => None,
            Some(t) => {
                proof {
                    crate::list::node::lemma_node_view(&**t);
                }
                Some((&**t).data())
            },
        }
    }

    /// Returns the element at the given zero-based offset; the offset must
    /// be within bounds.
    pub fn index(&self, index: usize) -> (r: &T)
        requires
            index < self@.len(),
        ensures
            *r == self@[index as int],
    {
        proof {
            use_type_invariant(self);
        }
        let link = self.head.as_ref().unwrap();
        proof {
            crate::list::node::lemma_node_view(&**link);
        }
        (&**link).index(index)
    }

    /// The bounds-checked form of [`List::index`]: returns the element at
    /// the given offset, or, for an offset at or beyond the length, the
    /// out-of-bounds failure reporting the length and the offset asked for.
    pub fn try_index(&self, index: usize) -> (r: Result<&T, IndexOutOfBounds>)
        ensures
            index < self@.len() <==> r is Ok,
            (match r {
                Ok(x) => *x == self@[index as int],
                Err(e) => e.len == self@.len() && e.index == index,
            }),
    {
        proof {
            use_type_invariant(self);
        }
        if index < self.size {
            Ok(self.index(index))
        } else {
            Err(IndexOutOfBounds { len: self.size, index })
        }
    }

    /// Retrieves the length of a list.
    pub fn len(&self) -> (r: usize)
        ensures
            r == self@.len(),
    {
        proof {
            use_type_invariant(self);
        }
        self.size
    }
}

/// Element-wise equality of two element sequences, under the elements' own
/// notion of equality: same length, and equal elements at every offset.
pub open spec fn elems_eq_spec<T: PartialEqSpec>(a: Seq<T>, b: Seq<T>) -> bool {
    a.len() == b.len() && (forall|i: int| 0 <= i < a.len() ==> #[trigger] a[i].eq_spec(&b[i]))
}

/// Element-wise equality of nonempty sequences splits into equality of the
/// first elements and element-wise equality of the remainders.
proof fn lemma_elems_eq_unfold<T: PartialEqSpec>(a: Seq<T>, b: Seq<T>)
    requires
        a.len() == b.len(),
        a.len() > 0,
    ensures
        elems_eq_spec(a, b) <==> (a[0].eq_spec(&b[0]) && elems_eq_spec(
            a.drop_first(),
            b.drop_first(),
        )),
{
    if elems_eq_spec(a, b) {
        assert forall|i: int| 0 <= i < a.drop_first().len() implies #[trigger] a.drop_first()[i]
            .eq_spec(&b.drop_first()[i]) by {
            assert(a[i + 1].eq_spec(&b[i + 1]));
            assert(a.drop_first()[i] == a[i + 1]);
            assert(b.drop_first()[i] == b[i + 1]);
        }
    }
    if a[0].eq_spec(&b[0]) && elems_eq_spec(a.drop_first(), b.drop_first()) {
        assert forall|i: int| 0 <= i < a.len() implies #[trigger] a[i].eq_spec(&b[i]) by {
            if i > 0 {
                assert(a.drop_first()[i - 1].eq_spec(&b.drop_first()[i - 1]));
                assert(a.drop_first()[i - 1] == a[i]);
                assert(b.drop_first()[i - 1] == b[i]);
            }
        }
    }
}

impl<T: PartialEq> List<T> {
    /// Compares the chains behind two links of equal element count,
    /// element-wise in order, short-circuiting on the first mismatch.
    fn link_eq(x: &Link<T>, y: &Link<T>) -> (r: bool)
        requires
            link_elems(*x).len() == link_elems(*y).len(),
        ensures
            T::obeys_eq_spec() ==> r == elems_eq_spec(link_elems(*x), link_elems(*y)),
        decreases link_elems(*x).len(),
    {
        match (x, y) {
            (None, None) => true,
            (Some(a), Some(b)) => {
                let na = &**a;
                let nb = &**b;
                proof {
                    crate::list::node::lemma_node_view(na);
                    crate::list::node::lemma_node_view(nb);
                    use_type_invariant(&na.next);
                    use_type_invariant(&nb.next);
                    lemma_view_is_link_elems(&na.next);
                    lemma_view_is_link_elems(&nb.next);
                }
                let ghost av = link_elems(*x);
                let ghost bv = link_elems(*y);
                proof {
                    assert(av.drop_first() =~= na.next@);
                    assert(bv.drop_first() =~= nb.next@);
                    if T::obeys_eq_spec() {
                        lemma_elems_eq_unfold(av, bv);
                    }
                }
                if *na.data() == *nb.data() {
                    Self::link_eq(&na.next.head, &nb.next.head)
                } else {
                    false
                }
            },
            _ => {
                proof {
                    lemma_view_is_link_elems_links(x, y);
                }
                vstd::pervasive::unreached()
            },
        }
    }
}

/// Two links whose chains hold the same number of elements are either both
/// absent or both present.
proof fn lemma_view_is_link_elems_links<T>(x: &Link<T>, y: &Link<T>)
    requires
        link_elems(*x).len() == link_elems(*y).len(),
    ensures
        (*x is Some) == (*y is Some),
{
    match x {
        None => {},
        Some(node) => {
            crate::list::node::lemma_node_view(&**node);
        },
    }
    match y {
        None => {},
        Some(node) => {
            crate::list::node::lemma_node_view(&**node);
        },
    }
}

impl<T: PartialEq> PartialEq for List<T> {
    /// Two lists are equal when they hold equally many elements and the
    /// elements are equal pairwise in order; whether the chains are shared
    /// or separate is invisible.
    fn eq(&self, other: &Self) -> (r: bool) {
        proof {
            use_type_invariant(self);
            use_type_invariant(other);
            lemma_view_is_link_elems(self);
            lemma_view_is_link_elems(other);
        }
        if self.size != other.size {
            false
        } else {
            Self::link_eq(&self.head, &other.head)
        }
    }
}

impl<T: PartialEq> vstd::std_specs::cmp::PartialEqSpecImpl for List<T> {
    open spec fn obeys_eq_spec() -> bool {
        T::obeys_eq_spec()
    }

    open spec fn eq_spec(&self, other: &List<T>) -> bool {
        elems_eq_spec(self@, other@)
    }
}

impl<T: Eq> Eq for List<T> {

}

impl<T> Default for List<T> {
    /// The default list is the empty list.
    fn default() -> (r: Self)
        ensures
            r@ == Seq::<T>::empty(),
    {
        List::empty()
    }
}

/// Prepend law: a list whose view is `v` followed by `l`'s view — which
/// [`List::prepend`] ensures of every result, while borrowing `l` only
/// immutably — holds one element more than `l`, `v` first, and then `l`'s
/// elements unchanged at each offset, shifted by one.
pub proof fn lemma_prepend_elements<T>(l: &List<T>, v: T, r: &List<T>)
    requires
        r@ == seq![v].add(l@),
    ensures
        r@.len() == l@.len() + 1,
        r@[0] == v,
        forall|i: int| 0 <= i < l@.len() ==> #[trigger] r@[i + 1] == l@[i],
{
}

/// Concatenation law: a list whose view is `a`'s followed by `b`'s — which
/// [`List::concat`] ensures of every result, whichever of its two paths it
/// took — holds `a.len() + b.len()` elements, its element at offset `i`
/// being `a`'s for `i` below `a`'s length and `b`'s element `i - a.len()`
/// from there on.
pub proof fn lemma_concat_elements<T>(a: &List<T>, b: &List<T>, r: &List<T>)
    requires
        r@ == a@.add(b@),
    ensures
        r@.len() == a@.len() + b@.len(),
        forall|i: int| 0 <= i < a@.len() ==> #[trigger] r@[i] == a@[i],
        forall|i: int| a@.len() <= i < r@.len() ==> #[trigger] r@[i] == b@[i - a@.len()],
{
}

/// Concatenation law: concatenating `a` with `b` and then `c` yields the
/// same elements as concatenating `a` with the concatenation of `b` and
/// `c`; by [`List::concat`]'s postcondition the two orders of calling it
/// build equal lists.
pub proof fn lemma_concat_associative<T>(a: &List<T>, b: &List<T>, c: &List<T>)
    ensures
        a@.add(b@).add(c@) == a@.add(b@.add(c@)),
{
    assert(a@.add(b@).add(c@) =~= a@.add(b@.add(c@)));
}

/// Identity law: the empty list is the identity of concatenation on either
/// side, so by [`List::concat`]'s postcondition `concat(empty(), a)` and
/// `concat(a, empty())` both equal `a` element-wise.
pub proof fn lemma_concat_identity<T>(a: &List<T>)
    ensures
        Seq::<T>::empty().add(a@) == a@,
        a@.add(Seq::<T>::empty()) == a@,
{
    assert(Seq::<T>::empty().add(a@) =~= a@);
    assert(a@.add(Seq::<T>::empty()) =~= a@);
}

/// A well-formed list's tail handle designates the node holding its last
/// element.
proof fn lemma_wf_tail<T>(l: &List<T>)
    requires
        l.wf(),
    ensures
        (match l.tail {
            None => l@.len() == 0,
            Some(t) => l@.len() > 0 && t@ == seq![l@.last()],
        }),
    decreases l@.len(),
{
    match l.head {
        None => {},
        Some(node) => {
            crate::list::node::lemma_node_view(&*node);
            match node.next.head {
                None => {
                    assert((*node)@ =~= seq![l@.last()]);
                },
                Some(_) => {
                    lemma_wf_tail(&node.next);
                    crate::list::lemma_list_view(&node.next);
                },
            }
        },
    }
}

impl<T> List<T> {
    /// Builds a list out of a sequence of elements produced one at a time,
    /// in chain order identical to input order.
    pub fn from_vec(v: Vec<T>) -> (r: Self)
        ensures
            r@ == v@,
    {
        let mut v = v;
        let mut r = List::empty();
        let ghost orig = v@;
        proof {
            assert(v.len() == orig.len());
            assert(v@ =~= orig.take(v@.len() as int));
            assert(r@ =~= orig.skip(v@.len() as int));
        }
        while v.len() > 0
            invariant
                orig.len() <= usize::MAX,
                v@.len() <= orig.len(),
                v@ == orig.take(v@.len() as int),
                r@ == orig.skip(v@.len() as int),
            decreases v.len(),
        {
            let ghost n = v@.len() as int;
            let x = v.pop().unwrap();
            proof {
                assert(x == orig.take(n)[n - 1]);
                assert(v@ =~= orig.take(n - 1));
            }
            r = List::create(x, r);
            proof {
                assert(r@ =~= orig.skip(n - 1));
            }
        }
        proof {
            assert(r@ =~= orig);
        }
        r
    }
}

impl<T: Clone> List<T> {
    /// Collects clones of the chain behind a link onto the end of `v`, in
    /// order.
    fn push_chain(link: &Link<T>, v: &mut Vec<T>)
        requires
            old(v)@.len() + link_elems(*link).len() <= usize::MAX,
        ensures
            final(v)@.len() == old(v)@.len() + link_elems(*link).len(),
            forall|i: int| 0 <= i < old(v)@.len() ==> final(v)@[i] == old(v)@[i],
            forall|i: int|
                0 <= i < link_elems(*link).len() ==> cloned(
                    link_elems(*link)[i],
                    #[trigger] final(v)@[old(v)@.len() + i],
                ),
        decreases link_elems(*link).len(),
    {
        match link {
            None => {},
            Some(arc) => {
                let node = &**arc;
                proof {
                    crate::list::node::lemma_node_view(node);
                    use_type_invariant(&node.next);
                    lemma_view_is_link_elems(&node.next);
                }
                let ghost v0 = v@;
                v.push(node.data().clone());
                let ghost v1 = v@;
                Self::push_chain(&node.next.head, v);
                proof {
                    assert forall|i: int| 0 <= i < link_elems(*link).len() implies cloned(
                        link_elems(*link)[i],
                        #[trigger] v@[v0.len() + i],
                    ) by {
                        if i == 0 {
                            assert(v@[v0.len() as int] == v1[v0.len() as int]);
                        } else {
                            assert(cloned(node.next@[i - 1], v@[v1.len() + (i - 1)]));
                        }
                    }
                }
            },
        }
    }

    /// Converts the list into an ordinary vector of cloned elements, front
    /// to back. The list itself is left as it was.
    pub fn to_vec(&self) -> (r: Vec<T>)
        ensures
            r@.len() == self@.len(),
            forall|i: int| 0 <= i < self@.len() ==> cloned(self@[i], #[trigger] r@[i]),
    {
        proof {
            use_type_invariant(self);
            lemma_view_is_link_elems(self);
        }
        let mut v: Vec<T> = Vec::new();
        Self::push_chain(&self.head, &mut v);
        proof {
            assert forall|i: int| 0 <= i < self@.len() implies cloned(
                self@[i],
                #[trigger] v@[i],
            ) by {
                assert(cloned(link_elems(self.head)[i], v@[0 + i]));
            }
        }
        v
    }
}

impl<T> Clone for List<T> {
    /// Copying a list copies the two handles and the cached length, never
    /// the chain: the copy is the same value and shares every node.
    fn clone(&self) -> (r: Self)
        ensures
            r == *self,
    {
        proof {
            use_type_invariant(self);
        }
        List {
            head: clone_link(&self.head),
            tail: clone_link(&self.tail),
            size: self.size,
        }
    }
}

} // verus!

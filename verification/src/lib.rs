//! A persistent singly linked list.
//!
//! Every operation that would "mutate" a list instead returns a new list
//! value; existing lists, and any other list that shares nodes with them,
//! remain observably unchanged. Prepending is O(1) and shares the whole
//! existing chain. Concatenation reclaims the left operand's nodes in place
//! when it is their sole owner, and falls back to rebuilding fresh nodes
//! (leaving the shared chain untouched) when it is not.

mod list;

pub use crate::list::IndexOutOfBounds;
pub use crate::list::List;
pub use crate::list::elems_eq_spec;
pub use crate::list::iterator::IntoIter;
pub use crate::list::lemma_concat_associative;
pub use crate::list::lemma_concat_elements;
pub use crate::list::lemma_concat_identity;
pub use crate::list::lemma_prepend_elements;
pub use crate::list::link::NodeCell;
pub use crate::list::node::Link;
pub use crate::list::node::Node;
pub use crate::list::node::link_elems;
pub use crate::list::node::new_link;

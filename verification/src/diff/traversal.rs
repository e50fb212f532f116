//! Moves of an insertion point.
use vstd::prelude::*;
use crate::dom::node::NodeRef;

verus! {

/// Where to move an insertion point.
#[derive(Clone, Copy, Debug, PartialEq, Eq, Structural)]
pub enum MoveTo {
    /// To the given node.
    Node(NodeRef),
    /// From the current node up to its parent.
    Parent,
    /// To the current node's n-th child.
    Child(u32),
    /// To the current node's n-th child from the last.
    ReverseChild(u32),
    /// To the n-th sibling, counted among all the siblings.
    Sibling(u32),
    /// To the n-th sibling from the last, counted among all the siblings.
    ReverseSibling(u32),
}

} // verus!

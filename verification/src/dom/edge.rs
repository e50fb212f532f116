//! Edges of a document: a parent and a child packed into one value.
use vstd::prelude::*;
use super::node::NodeRef;

verus! {

/// A directed edge from a parent to a child: the parent in the high 32
/// bits, the child in the low 32 bits.
#[derive(Debug, Copy, Clone, PartialEq, Eq, PartialOrd, Ord, Hash, Structural)]
pub struct EdgeId(pub u64);

/// A directed edge from a parent to a child.
#[derive(Debug, Copy, Clone, PartialEq, Eq, Structural)]
pub struct EdgeRef {
    pub from: NodeRef,
    pub to: NodeRef,
}

impl EdgeId {
    /// The node the edge comes from.
    pub fn parent(&self) -> (r: NodeRef)
        ensures
            r.0 == self.0 >> 32u64,
    {
        let v: u64 = self.0;
        let x: u64 = v >> 32u64;
        assert(x <= u32::MAX) by (bit_vector)
            requires
                x == v >> 32u64,
        ;
        NodeRef(x as u32)
    }

    /// The node the edge goes to.
    pub fn child(&self) -> (r: NodeRef)
        ensures
            r.0 == self.0 & 0xffff_ffffu64,
    {
        let v: u64 = self.0;
        let x: u64 = v & 0xffff_ffffu64;
        assert(x <= u32::MAX) by (bit_vector)
            requires
                x == v & 0xffff_ffffu64,
        ;
        NodeRef(x as u32)
    }

    /// The edge from `parent` to `child`; neither may be the reserved
    /// reference.
    pub fn new(parent: NodeRef, child: NodeRef) -> (r: Self)
        requires
            parent.0 < u32::MAX,
            child.0 < u32::MAX,
        ensures
            r.0 == ((parent.0 as u64) << 32u64) | (child.0 as u64),
    {
        let p = parent.0 as u64;
        let c = child.0 as u64;
        EdgeId((p << 32u64) | c)
    }
}

/// An edge made of a parent and a child gives them back.
pub proof fn law_edge_roundtrip(p: u32, c: u32)
    ensures
        ((((p as u64) << 32u64) | (c as u64)) >> 32u64) == p as u64,
        ((((p as u64) << 32u64) | (c as u64)) & 0xffff_ffffu64) == c as u64,
{
    let pp = p as u64;
    let cc = c as u64;
    assert(((pp << 32u64) | cc) >> 32u64 == pp) by (bit_vector)
        requires
            pp <= 0xffff_ffffu64,
            cc <= 0xffff_ffffu64,
    ;
    assert(((pp << 32u64) | cc) & 0xffff_ffffu64 == cc) by (bit_vector)
        requires
            pp <= 0xffff_ffffu64,
            cc <= 0xffff_ffffu64,
    ;
}

} // verus!

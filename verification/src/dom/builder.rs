//! Building and editing a document from an insertion point.
use vstd::prelude::*;
use super::attribute::{Attribute, AttributeName, attrs_view, opt_str_view};
use super::node::{NodeRef, NodeData, node_attrs, set_attr, remove_attr};
use super::document::{Document, DocumentV, wf, ids_in, attach_at, detach_spec, push_spec, with_node, with_attrs, deleted};

verus! {

/// A document and the node at which it is built or edited.
pub struct Builder {
    doc: Document,
    pos: NodeRef,
}

impl Builder {
    /// The document being built.
    pub closed spec fn doc_view(&self) -> DocumentV {
        self.doc@
    }

    /// The insertion point.
    pub closed spec fn pos_view(&self) -> nat {
        self.pos.0 as nat
    }

    /// A well-formed document.
    pub open spec fn well_formed(&self) -> bool {
        wf(self.doc_view()) && ids_in(self.doc_view())
    }

    /// Whether the insertion point is a node of the document.
    pub open spec fn pos_valid(&self) -> bool {
        self.pos_view() < self.doc_view().nodes.len()
    }

    /// A builder on an empty document, at its root.
    pub fn new() -> (r: Self)
        ensures
            r.well_formed(),
            r.doc_view() == super::document::empty_spec(),
            r.pos_view() == 0,
    {
        let doc = Document::empty();
        let pos = doc.root();
        Builder { doc, pos }
    }

    /// A builder on `doc`, at its root.
    pub fn from_document(doc: Document) -> (r: Self)
        requires
            doc.well_formed(),
        ensures
            r.well_formed(),
            r.doc_view() == doc@,
            r.pos_view() == doc@.root,
    {
        let pos = doc.root();
        Builder { doc, pos }
    }

    /// The document built.
    pub fn finish(self) -> (r: Document)
        ensures
            r@ == self.doc_view(),
    {
        self.doc
    }

    /// The document being built.
    pub fn document(&self) -> (r: &Document)
        ensures
            r@ == self.doc_view(),
    {
        &self.doc
    }

    /// The insertion point.
    pub fn insertion_point(&self) -> (r: NodeRef)
        ensures
            r.0 == self.pos_view(),
    {
        self.pos
    }

    /// Moves the insertion point to `node`.
    pub fn set_insertion_point(&mut self, node: NodeRef)
        requires
            old(self).well_formed(),
        ensures
            final(self).doc_view() == old(self).doc_view(),
            final(self).pos_view() == node.0,
            final(self).well_formed(),
    {
        self.pos = node;
    }

    /// Moves the insertion point to its parent.
    pub fn set_insertion_point_to_parent(&mut self)
        requires
            old(self).well_formed(),
            old(self).pos_valid(),
            old(self).doc_view().parents[old(self).pos_view() as int] is Some,
        ensures
            final(self).doc_view() == old(self).doc_view(),
            Some(final(self).pos_view()) == old(self).doc_view().parents[old(self).pos_view() as int],
            final(self).well_formed(),
    {
        let p = self.doc.parent(self.pos).unwrap();
        self.pos = p;
    }

    /// Moves the insertion point to its `n`th child.
    pub fn set_insertion_point_to_child(&mut self, n: usize)
        requires
            old(self).well_formed(),
            old(self).pos_valid(),
            n < old(self).doc_view().children[old(self).pos_view() as int].len(),
        ensures
            final(self).doc_view() == old(self).doc_view(),
            final(self).pos_view() == old(self).doc_view().children[old(self).pos_view() as int][n as int],
            final(self).well_formed(),
    {
        let c = self.doc.children(self.pos)[n];
        self.pos = c;
    }

    /// Moves the insertion point to its `n`th child from the last.
    pub fn set_insertion_point_to_child_reverse(&mut self, n: usize)
        requires
            old(self).well_formed(),
            old(self).pos_valid(),
            n < old(self).doc_view().children[old(self).pos_view() as int].len(),
        ensures
            ({
                let ch = old(self).doc_view().children[old(self).pos_view() as int];
                final(self).pos_view() == ch[ch.len() - 1 - n]
            }),
            final(self).doc_view() == old(self).doc_view(),
            final(self).well_formed(),
    {
        let ch = self.doc.children(self.pos);
        let k = ch.len() - (1 + n);
        let c = ch[k];
        assert(self.doc@.children[self.pos.0 as int][k as int] == c.0 as nat);
        self.pos = c;
    }

    /// Moves the insertion point to the `n`th of its siblings.
    pub fn set_insertion_point_to_sibling(&mut self, n: usize)
        requires
            old(self).well_formed(),
            old(self).pos_valid(),
            old(self).doc_view().parents[old(self).pos_view() as int] matches Some(p)
                && n < old(self).doc_view().children[p as int].len(),
        ensures
            final(self).pos_view() == old(self).doc_view().children[old(self).doc_view().parents[old(self).pos_view() as int]->0 as int][n as int],
            final(self).doc_view() == old(self).doc_view(),
            final(self).well_formed(),
    {
        self.set_insertion_point_to_parent();
        self.set_insertion_point_to_child(n);
    }

    /// Moves the insertion point to the `n`th of its siblings from the last.
    pub fn set_insertion_point_to_sibling_reverse(&mut self, n: usize)
        requires
            old(self).well_formed(),
            old(self).pos_valid(),
            old(self).doc_view().parents[old(self).pos_view() as int] matches Some(p)
                && n < old(self).doc_view().children[p as int].len(),
        ensures
            ({
                let ch = old(self).doc_view().children[old(self).doc_view().parents[old(self).pos_view() as int]->0 as int];
                final(self).pos_view() == ch[ch.len() - 1 - n]
            }),
            final(self).doc_view() == old(self).doc_view(),
            final(self).well_formed(),
    {
        self.set_insertion_point_to_parent();
        self.set_insertion_point_to_child_reverse(n);
    }

    /// Adds `node` detached, returning its reference.
    pub fn push_node(&mut self, node: NodeData) -> (r: NodeRef)
        requires
            old(self).well_formed(),
            old(self).doc_view().nodes.len() < u32::MAX,
        ensures
            r.0 == old(self).doc_view().nodes.len(),
            final(self).doc_view() == push_spec(old(self).doc_view(), node@),
            final(self).pos_view() == old(self).pos_view(),
            final(self).well_formed(),
    {
        self.doc.push_node(node)
    }

    /// Makes the detached `node` the last child of the insertion point.
    pub fn attach_node(&mut self, node: NodeRef)
        requires
            old(self).well_formed(),
            old(self).pos_valid(),
            node.0 < old(self).doc_view().nodes.len(),
            old(self).doc_view().parents[node.0 as int] is None,
        ensures
            final(self).doc_view() == attach_at(old(self).doc_view(), old(self).pos_view(), node.0 as nat,
                old(self).doc_view().children[old(self).pos_view() as int].len() as int),
            final(self).pos_view() == old(self).pos_view(),
            final(self).well_formed(),
    {
        self.doc.append_child(self.pos, node);
    }

    /// Detaches `node`; its subtree stays with it.
    pub fn detach_node(&mut self, node: NodeRef)
        requires
            old(self).well_formed(),
            node.0 < old(self).doc_view().nodes.len(),
        ensures
            final(self).doc_view() == detach_spec(old(self).doc_view(), node.0 as nat),
            final(self).pos_view() == old(self).pos_view(),
            final(self).well_formed(),
    {
        self.doc.detach(node);
    }

    /// Adds `node` as the last child of `to`, returning its reference.
    pub fn append_child(&mut self, to: NodeRef, node: NodeData) -> (r: NodeRef)
        requires
            old(self).well_formed(),
            to.0 < old(self).doc_view().nodes.len(),
            old(self).doc_view().nodes.len() < u32::MAX,
        ensures
            r.0 == old(self).doc_view().nodes.len(),
            final(self).doc_view() == attach_at(push_spec(old(self).doc_view(), node@), to.0 as nat, r.0 as nat,
                old(self).doc_view().children[to.0 as int].len() as int),
            final(self).pos_view() == old(self).pos_view(),
            final(self).well_formed(),
    {
        let nr = self.doc.push_node(node);
        self.doc.append_child(to, nr);
        nr
    }

    /// Adds `node` as the last child of the insertion point.
    pub fn append(&mut self, node: NodeData) -> (r: NodeRef)
        requires
            old(self).well_formed(),
            old(self).pos_valid(),
            old(self).doc_view().nodes.len() < u32::MAX,
        ensures
            r.0 == old(self).doc_view().nodes.len(),
            final(self).doc_view() == attach_at(push_spec(old(self).doc_view(), node@), old(self).pos_view(), r.0 as nat,
                old(self).doc_view().children[old(self).pos_view() as int].len() as int),
            final(self).pos_view() == old(self).pos_view(),
            final(self).well_formed(),
    {
        let ip = self.pos;
        self.append_child(ip, node)
    }

    /// Adds `node` as the sibling that follows `after`.
    pub fn insert_after(&mut self, node: NodeData, after: NodeRef) -> (r: NodeRef)
        requires
            old(self).well_formed(),
            after.0 < old(self).doc_view().nodes.len(),
            old(self).doc_view().nodes.len() < u32::MAX,
            old(self).doc_view().parents[after.0 as int] is Some,
        ensures
            r.0 == old(self).doc_view().nodes.len(),
            ({
                let d = old(self).doc_view();
                let p = d.parents[after.0 as int]->0;
                final(self).doc_view() == attach_at(push_spec(d, node@), p, r.0 as nat,
                    d.children[p as int].index_of_first(after.0 as nat)->0 + 1)
            }),
            final(self).pos_view() == old(self).pos_view(),
            final(self).well_formed(),
    {
        let nr = self.doc.push_node(node);
        self.doc.insert_after(nr, after);
        nr
    }

    /// Adds `node` as the sibling that precedes `before`.
    pub fn insert_before(&mut self, node: NodeData, before: NodeRef) -> (r: NodeRef)
        requires
            old(self).well_formed(),
            before.0 < old(self).doc_view().nodes.len(),
            old(self).doc_view().nodes.len() < u32::MAX,
            old(self).doc_view().parents[before.0 as int] is Some,
        ensures
            r.0 == old(self).doc_view().nodes.len(),
            ({
                let d = old(self).doc_view();
                let p = d.parents[before.0 as int]->0;
                final(self).doc_view() == attach_at(push_spec(d, node@), p, r.0 as nat,
                    d.children[p as int].index_of_first(before.0 as nat)->0)
            }),
            final(self).pos_view() == old(self).pos_view(),
            final(self).well_formed(),
    {
        let nr = self.doc.push_node(node);
        self.doc.insert_before(nr, before);
        nr
    }

    /// Deletes `node` and the nodes under it from the tree.
    pub fn remove(&mut self, node: NodeRef)
        requires
            old(self).well_formed(),
            node.0 < old(self).doc_view().nodes.len(),
        ensures
            final(self).doc_view().parents[node.0 as int] is None,
            final(self).doc_view().children[node.0 as int].len() == 0,
            deleted(old(self).doc_view(), final(self).doc_view(), node.0 as nat),
            final(self).pos_view() == old(self).pos_view(),
            final(self).well_formed(),
    {
        self.doc.delete(node);
    }

    /// Replaces what `node` holds.
    pub fn replace(&mut self, node: NodeRef, replacement: NodeData)
        requires
            old(self).well_formed(),
            node.0 < old(self).doc_view().nodes.len(),
        ensures
            final(self).doc_view() == with_node(old(self).doc_view(), node.0 as nat, replacement@),
            final(self).pos_view() == old(self).pos_view(),
            final(self).well_formed(),
    {
        self.doc.replace(node, replacement);
    }

    /// Sets attribute `name` of the insertion point, which must be an
    /// element.
    pub fn set_attribute(&mut self, name: AttributeName, value: Option<String>)
        requires
            old(self).well_formed(),
            old(self).pos_valid(),
            old(self).doc_view().nodes[old(self).pos_view() as int] is Element,
        ensures
            ({
                let d = old(self).doc_view();
                let n = old(self).pos_view();
                final(self).doc_view() == with_attrs(d, n, set_attr(node_attrs(d.nodes[n as int]), name@, opt_str_view(value)))
            }),
            final(self).pos_view() == old(self).pos_view(),
            final(self).well_formed(),
    {
        let ip = self.pos;
        let _ = self.doc.set_attribute(ip, name, value);
    }

    /// Replaces the attributes of the insertion point, if it is an element.
    pub fn replace_attributes(&mut self, attributes: Vec<Attribute>)
        requires
            old(self).well_formed(),
            old(self).pos_valid(),
        ensures
            final(self).doc_view() == with_attrs(old(self).doc_view(), old(self).pos_view(), attrs_view(attributes@)),
            final(self).pos_view() == old(self).pos_view(),
            final(self).well_formed(),
    {
        let ip = self.pos;
        let _ = self.doc.replace_attributes(ip, attributes);
    }

    /// Removes the first attribute named `name` from the insertion point, if
    /// it is an element.
    pub fn remove_attribute(&mut self, name: AttributeName)
        requires
            old(self).well_formed(),
            old(self).pos_valid(),
        ensures
            ({
                let d = old(self).doc_view();
                let n = old(self).pos_view();
                final(self).doc_view() == with_attrs(d, n, remove_attr(node_attrs(d.nodes[n as int]), name@))
            }),
            final(self).pos_view() == old(self).pos_view(),
            final(self).well_formed(),
    {
        let ip = self.pos;
        self.doc.remove_attribute(ip, name);
    }
}

impl Builder {
    /// Inserts the detached `node` as the sibling that precedes `before`.
    pub fn insert_existing_before(&mut self, node: NodeRef, before: NodeRef)
        requires
            old(self).well_formed(),
            node.0 < old(self).doc_view().nodes.len(),
            before.0 < old(self).doc_view().nodes.len(),
            node != before,
            old(self).doc_view().parents[node.0 as int] is None,
            old(self).doc_view().parents[before.0 as int] is Some,
        ensures
            ({
                let d = old(self).doc_view();
                let p = d.parents[before.0 as int]->0;
                final(self).doc_view() == attach_at(d, p, node.0 as nat, d.children[p as int].index_of_first(before.0 as nat)->0)
            }),
            final(self).pos_view() == old(self).pos_view(),
            final(self).well_formed(),
    {
        self.doc.insert_before(node, before);
    }

    /// Inserts the detached `node` as the sibling that follows `after`.
    pub fn insert_existing_after(&mut self, node: NodeRef, after: NodeRef)
        requires
            old(self).well_formed(),
            node.0 < old(self).doc_view().nodes.len(),
            after.0 < old(self).doc_view().nodes.len(),
            node != after,
            old(self).doc_view().parents[node.0 as int] is None,
            old(self).doc_view().parents[after.0 as int] is Some,
        ensures
            ({
                let d = old(self).doc_view();
                let p = d.parents[after.0 as int]->0;
                final(self).doc_view() == attach_at(d, p, node.0 as nat, d.children[p as int].index_of_first(after.0 as nat)->0 + 1)
            }),
            final(self).pos_view() == old(self).pos_view(),
            final(self).well_formed(),
    {
        self.doc.insert_after(node, after);
    }
}

} // verus!

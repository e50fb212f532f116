//! Patches: the edits that turn one document into another.
use vstd::prelude::*;
use crate::dom::attribute::{Attribute, AttributeName, AttributeNameV, AttributeV, attrs_view, opt_str_view};
use crate::dom::node::{NodeRef, NodeData, NodeDataV, node_attrs, set_attr, remove_attr, attr_index, lemma_attr_index};
use crate::dom::document::{Document, DocumentV, wf, attach_at, detach_spec, push_spec, with_node, with_attrs, deleted, unlinked, keeps_links};
use crate::dom::select::under;
use crate::dom::builder::Builder;
use super::traversal::MoveTo;

verus! {

/// An edit of a document, applied at an insertion point with a stack of
/// node references.
#[derive(Debug, PartialEq, Clone)]
pub enum Patch {
    InsertBefore { before: NodeRef, node: NodeData },
    InsertAfter { after: NodeRef, node: NodeData },
    /// Creates `node` detached and pushes it on the stack.
    Create { node: NodeData },
    /// Creates `node` detached, pushes it on the stack and moves to it.
    CreateAndMoveTo { node: NodeData },
    /// Pushes the insertion point on the stack.
    PushCurrent,
    /// Pushes a node on the stack.
    Push(NodeRef),
    /// Pops the stack.
    Pop,
    /// Pops a child and then a parent off the stack, attaches the child as
    /// the last child of the parent, and pushes the parent back.
    Attach,
    /// Detaches a node so that it can be attached again.
    Detach { node: NodeRef },
    /// Pops a node off the stack and inserts it before `before`.
    PrependBefore { before: NodeRef },
    /// Appends `node` to the insertion point.
    Append { node: NodeData },
    /// Pops a node off the stack and inserts it after `after`.
    AppendAfter { after: NodeRef },
    /// Appends `node` to `parent`.
    AppendTo { parent: NodeRef, node: NodeData },
    Remove { node: NodeRef },
    Replace { node: NodeRef, replacement: NodeData },
    /// Sets an attribute of the insertion point.
    AddAttribute { name: AttributeName, value: Option<String> },
    /// Sets an attribute of `node`.
    AddAttributeTo { node: NodeRef, name: AttributeName, value: Option<String> },
    UpdateAttribute { node: NodeRef, name: AttributeName, value: Option<String> },
    RemoveAttributeByName { node: NodeRef, name: AttributeName },
    /// Replaces the attributes of `node`.
    SetAttributes { node: NodeRef, attributes: Vec<Attribute> },
    Move(MoveTo),
}

/// What applying a [Patch] changed.
#[derive(Debug, Clone, Copy, PartialEq, Eq, Structural)]
pub enum PatchResult {
    /// `node` was added as a child of `parent`.
    Add { node: NodeRef, parent: NodeRef },
    /// `node`, formerly a child of `parent`, was removed.
    Remove { node: NodeRef, parent: NodeRef },
    /// `node` was changed in some other way.
    Change { node: NodeRef },
    /// `node`, a child of `parent`, was replaced.
    Replace { node: NodeRef, parent: NodeRef },
}

/// Whether `n` is a node of `d`.
pub open spec fn valid(d: DocumentV, n: NodeRef) -> bool {
    n.0 < d.nodes.len()
}

/// When a patch applies: the nodes it names exist, the stack holds what it
/// pops, and the edits it makes are allowed.
pub open spec fn patch_requires(p: Patch, d: DocumentV, pos: nat, st: Seq<NodeRef>) -> bool {
    match p {
        Patch::InsertBefore { before, .. } => valid(d, before) && d.nodes.len() < u32::MAX && d.parents[before.0 as int] is Some,
        Patch::InsertAfter { after, .. } => valid(d, after) && d.nodes.len() < u32::MAX && d.parents[after.0 as int] is Some,
        Patch::Create { .. } => d.nodes.len() < u32::MAX,
        Patch::CreateAndMoveTo { .. } => d.nodes.len() < u32::MAX,
        Patch::PushCurrent => true,
        Patch::Push(_) => true,
        Patch::Pop => st.len() > 0,
        Patch::Attach => st.len() >= 2 && valid(d, st.last()) && valid(d, st[st.len() - 2])
            && d.parents[st.last().0 as int] is None,
        Patch::Detach { node } => valid(d, node),
        Patch::PrependBefore { before } => st.len() > 0 && valid(d, before) && valid(d, st.last())
            && st.last() != before && d.parents[st.last().0 as int] is None && d.parents[before.0 as int] is Some,
        Patch::Append { .. } => pos < d.nodes.len() && d.nodes.len() < u32::MAX,
        Patch::AppendAfter { after } => st.len() > 0 && valid(d, after) && valid(d, st.last())
            && st.last() != after && d.parents[st.last().0 as int] is None && d.parents[after.0 as int] is Some,
        Patch::AppendTo { parent, .. } => valid(d, parent) && d.nodes.len() < u32::MAX,
        Patch::Remove { node } => valid(d, node),
        Patch::Replace { node, .. } => valid(d, node),
        Patch::AddAttribute { .. } => pos < d.nodes.len() && d.nodes[pos as int] is Element,
        Patch::AddAttributeTo { node, .. } => valid(d, node) && d.nodes[node.0 as int] is Element,
        Patch::UpdateAttribute { node, .. } => valid(d, node) && d.nodes[node.0 as int] is Element,
        Patch::RemoveAttributeByName { node, .. } => valid(d, node),
        Patch::SetAttributes { node, .. } => valid(d, node),
        Patch::Move(MoveTo::Node(_)) => true,
        Patch::Move(MoveTo::Parent) => pos < d.nodes.len() && d.parents[pos as int] is Some,
        Patch::Move(MoveTo::Child(n)) => pos < d.nodes.len() && n < d.children[pos as int].len(),
        Patch::Move(MoveTo::ReverseChild(n)) => pos < d.nodes.len() && n < d.children[pos as int].len(),
        Patch::Move(MoveTo::Sibling(n)) => pos < d.nodes.len() && (d.parents[pos as int] matches Some(q) && n < d.children[q as int].len()),
        Patch::Move(MoveTo::ReverseSibling(n)) => pos < d.nodes.len() && (d.parents[pos as int] matches Some(q) && n < d.children[q as int].len()),
    }
}

/// The new node that a patch adds to `d`.
pub open spec fn new_ref(d: DocumentV) -> NodeRef {
    NodeRef(d.nodes.len() as u32)
}

/// What applying patch `p` at `pos` with stack `st` makes of the document
/// `d` (`d2`), the insertion point (`pos2`) and the stack (`st2`), and what
/// it answers (`r`).
pub open spec fn patch_ensures(p: Patch, d: DocumentV, pos: nat, st: Seq<NodeRef>,
    d2: DocumentV, pos2: nat, st2: Seq<NodeRef>, r: Option<PatchResult>) -> bool {
    match p {
        Patch::InsertBefore { before, node } => {
            let q = d.parents[before.0 as int]->0;
            &&& d2 == attach_at(push_spec(d, node@), q, d.nodes.len(), d.children[q as int].index_of_first(before.0 as nat)->0)
            &&& pos2 == pos && st2 == st
            &&& r == Some(PatchResult::Add { node: new_ref(d), parent: NodeRef(q as u32) })
        },
        Patch::InsertAfter { after, node } => {
            let q = d.parents[after.0 as int]->0;
            &&& d2 == attach_at(push_spec(d, node@), q, d.nodes.len(), d.children[q as int].index_of_first(after.0 as nat)->0 + 1)
            &&& pos2 == pos && st2 == st
            &&& r == Some(PatchResult::Add { node: new_ref(d), parent: NodeRef(q as u32) })
        },
        Patch::Create { node } => d2 == push_spec(d, node@) && pos2 == pos && st2 == st.push(new_ref(d)) && r is None,
        Patch::CreateAndMoveTo { node } => d2 == push_spec(d, node@) && pos2 == d.nodes.len() && st2 == st.push(new_ref(d)) && r is None,
        Patch::PushCurrent => d2 == d && pos2 == pos && st2 == st.push(NodeRef(pos as u32)) && r is None,
        Patch::Push(n) => d2 == d && pos2 == pos && st2 == st.push(n) && r is None,
        Patch::Pop => d2 == d && pos2 == pos && st2 == st.drop_last() && r is None,
        Patch::Attach => {
            let c = st.last();
            let q = st[st.len() - 2];
            &&& d2 == attach_at(d, q.0 as nat, c.0 as nat, d.children[q.0 as int].len() as int)
            &&& pos2 == q.0 && st2 == st.drop_last()
            &&& r == Some(PatchResult::Add { node: c, parent: q })
        },
        Patch::Detach { node } => d2 == detach_spec(d, node.0 as nat) && pos2 == pos && st2 == st && r is None,
        Patch::PrependBefore { before } => {
            let q = d.parents[before.0 as int]->0;
            &&& d2 == attach_at(d, q, st.last().0 as nat, d.children[q as int].index_of_first(before.0 as nat)->0)
            &&& pos2 == pos && st2 == st.drop_last()
            &&& r == Some(PatchResult::Add { node: st.last(), parent: NodeRef(q as u32) })
        },
        Patch::Append { node } => {
            &&& d2 == attach_at(push_spec(d, node@), pos, d.nodes.len(), d.children[pos as int].len() as int)
            &&& pos2 == pos && st2 == st
            &&& r == Some(PatchResult::Add { node: new_ref(d), parent: NodeRef(pos as u32) })
        },
        Patch::AppendAfter { after } => {
            let q = d.parents[after.0 as int]->0;
            &&& d2 == attach_at(d, q, st.last().0 as nat, d.children[q as int].index_of_first(after.0 as nat)->0 + 1)
            &&& pos2 == pos && st2 == st.drop_last()
            &&& r == Some(PatchResult::Add { node: st.last(), parent: NodeRef(q as u32) })
        },
        Patch::AppendTo { parent, node } => {
            &&& d2 == attach_at(push_spec(d, node@), parent.0 as nat, d.nodes.len(), d.children[parent.0 as int].len() as int)
            &&& pos2 == pos && st2 == st
            &&& r == Some(PatchResult::Add { node: new_ref(d), parent })
        },
        Patch::Remove { node } => {
            &&& d2.parents[node.0 as int] is None
            &&& d2.children[node.0 as int].len() == 0
            &&& deleted(d, d2, node.0 as nat)
            &&& pos2 == pos && st2 == st
            &&& r == match d.parents[node.0 as int] {
                Some(q) => Some(PatchResult::Remove { node, parent: NodeRef(q as u32) }),
                None => None,
            }
        },
        Patch::Replace { node, replacement } => match d.parents[node.0 as int] {
            Some(q) => d2 == with_node(d, node.0 as nat, replacement@) && pos2 == pos && st2 == st
                && r == Some(PatchResult::Replace { node, parent: NodeRef(q as u32) }),
            None => d2 == d && pos2 == pos && st2 == st && r is None,
        },
        Patch::AddAttribute { name, value } => {
            &&& d2 == with_attrs(d, pos, set_attr(node_attrs(d.nodes[pos as int]), name@, opt_str_view(value)))
            &&& pos2 == pos && st2 == st
            &&& r == Some(PatchResult::Change { node: NodeRef(pos as u32) })
        },
        Patch::AddAttributeTo { node, name, value } => {
            &&& d2 == with_attrs(d, node.0 as nat, set_attr(node_attrs(d.nodes[node.0 as int]), name@, opt_str_view(value)))
            &&& pos2 == pos && st2 == st
            &&& r == Some(PatchResult::Change { node })
        },
        Patch::UpdateAttribute { node, name, value } => {
            &&& d2 == with_attrs(d, node.0 as nat, set_attr(node_attrs(d.nodes[node.0 as int]), name@, opt_str_view(value)))
            &&& pos2 == pos && st2 == st
            &&& r == Some(PatchResult::Change { node })
        },
        Patch::RemoveAttributeByName { node, name } => {
            &&& d2 == with_attrs(d, node.0 as nat, remove_attr(node_attrs(d.nodes[node.0 as int]), name@))
            &&& pos2 == pos && st2 == st
            &&& r == Some(PatchResult::Change { node })
        },
        Patch::SetAttributes { node, attributes } => {
            &&& d2 == with_attrs(d, node.0 as nat, attrs_view(attributes@))
            &&& pos2 == pos && st2 == st
            &&& r == Some(PatchResult::Change { node })
        },
        Patch::Move(m) => d2 == d && st2 == st && r is None && pos2 == match m {
            MoveTo::Node(n) => n.0 as nat,
            MoveTo::Parent => d.parents[pos as int]->0,
            MoveTo::Child(n) => d.children[pos as int][n as int],
            MoveTo::ReverseChild(n) => d.children[pos as int][d.children[pos as int].len() - 1 - n],
            MoveTo::Sibling(n) => d.children[d.parents[pos as int]->0 as int][n as int],
            MoveTo::ReverseSibling(n) => {
                let ch = d.children[d.parents[pos as int]->0 as int];
                ch[ch.len() - 1 - n]
            },
        },
    }
}

impl Patch {
    /// Applies the patch to the document of `doc` at its insertion point,
    /// using `stack`; answers what changed, if anything did.
    #[verifier::rlimit(100)]
    pub fn apply(self, doc: &mut Builder, stack: &mut Vec<NodeRef>) -> (r: Option<PatchResult>)
        requires
            old(doc).well_formed(),
            patch_requires(self, old(doc).doc_view(), old(doc).pos_view(), old(stack)@),
        ensures
            final(doc).well_formed(),
            patch_ensures(self, old(doc).doc_view(), old(doc).pos_view(), old(stack)@,
                final(doc).doc_view(), final(doc).pos_view(), final(stack)@, r),
    {
        match self {
            Patch::InsertBefore { before, node } => {
                let ghost d = doc.doc_view();
                let ghost q = d.parents[before.0 as int]->0;
                let node = doc.insert_before(node, before);
                let parent = doc.document().parent(node).unwrap();
                assert(parent == NodeRef(q as u32));
                assert(node == new_ref(d));
                Some(PatchResult::Add { node, parent })
            },
            Patch::InsertAfter { after, node } => {
                let node = doc.insert_after(node, after);
                let parent = doc.document().parent(node).unwrap();
                Some(PatchResult::Add { node, parent })
            },
            Patch::Create { node } => {
                let node = doc.push_node(node);
                stack.push(node);
                None
            },
            Patch::CreateAndMoveTo { node } => {
                let node = doc.push_node(node);
                stack.push(node);
                doc.set_insertion_point(node);
                None
            },
            Patch::PushCurrent => {
                stack.push(doc.insertion_point());
                None
            },
            Patch::Push(node) => {
                stack.push(node);
                None
            },
            Patch::Pop => {
                stack.pop().unwrap();
                None
            },
            Patch::Attach => {
                let ghost st = stack@;
                let child = stack.pop().unwrap();
                let parent = stack.pop().unwrap();
                doc.set_insertion_point(parent);
                doc.attach_node(child);
                stack.push(parent);
                assert(stack@ =~= st.drop_last());
                Some(PatchResult::Add { node: child, parent })
            },
            Patch::Detach { node } => {
                doc.detach_node(node);
                None
            },
            Patch::PrependBefore { before } => {
                let node = stack.pop().unwrap();
                doc.insert_existing_before(node, before);
                let parent = doc.document().parent(before).unwrap();
                Some(PatchResult::Add { node, parent })
            },
            Patch::Append { node } => {
                let node = doc.append(node);
                Some(PatchResult::Add { node, parent: doc.insertion_point() })
            },
            Patch::AppendTo { parent, node } => {
                let node = doc.append_child(parent, node);
                Some(PatchResult::Add { node, parent })
            },
            Patch::AppendAfter { after } => {
                let node = stack.pop().unwrap();
                doc.insert_existing_after(node, after);
                let parent = doc.document().parent(after).unwrap();
                Some(PatchResult::Add { node, parent })
            },
            Patch::Remove { node } => {
                let parent = doc.document().parent(node);
                doc.remove(node);
                match parent {
                    Some(parent) => Some(PatchResult::Remove { node, parent }),
                    None => None,
                }
            },
            Patch::Replace { node, replacement } => {
                let parent = match doc.document().parent(node) {
                    Some(p) => p,
                    None => return None,
                };
                doc.replace(node, replacement);
                Some(PatchResult::Replace { node, parent })
            },
            Patch::AddAttribute { name, value } => {
                doc.set_attribute(name, value);
                Some(PatchResult::Change { node: doc.insertion_point() })
            },
            Patch::AddAttributeTo { node, name, value } => {
                let ip = doc.insertion_point();
                doc.set_insertion_point(node);
                doc.set_attribute(name, value);
                doc.set_insertion_point(ip);
                Some(PatchResult::Change { node })
            },
            Patch::UpdateAttribute { node, name, value } => {
                let ip = doc.insertion_point();
                doc.set_insertion_point(node);
                doc.set_attribute(name, value);
                doc.set_insertion_point(ip);
                Some(PatchResult::Change { node })
            },
            Patch::RemoveAttributeByName { node, name } => {
                let ip = doc.insertion_point();
                doc.set_insertion_point(node);
                doc.remove_attribute(name);
                doc.set_insertion_point(ip);
                Some(PatchResult::Change { node })
            },
            Patch::SetAttributes { node, attributes } => {
                let ip = doc.insertion_point();
                doc.set_insertion_point(node);
                doc.replace_attributes(attributes);
                doc.set_insertion_point(ip);
                Some(PatchResult::Change { node })
            },
            Patch::Move(MoveTo::Node(node)) => {
                doc.set_insertion_point(node);
                None
            },
            Patch::Move(MoveTo::Parent) => {
                doc.set_insertion_point_to_parent();
                None
            },
            Patch::Move(MoveTo::Child(n)) => {
                doc.set_insertion_point_to_child(n as usize);
                None
            },
            Patch::Move(MoveTo::ReverseChild(n)) => {
                doc.set_insertion_point_to_child_reverse(n as usize);
                None
            },
            Patch::Move(MoveTo::Sibling(n)) => {
                doc.set_insertion_point_to_sibling(n as usize);
                None
            },
            Patch::Move(MoveTo::ReverseSibling(n)) => {
                doc.set_insertion_point_to_sibling_reverse(n as usize);
                None
            },
        }
    }

    /// Whether the patch applies to the document of `doc` at its insertion
    /// point with `stack`: whether [Patch::apply] may be called.
    pub fn applies(&self, doc: &Builder, stack: &Vec<NodeRef>) -> (r: bool)
        requires
            doc.well_formed(),
        ensures
            r == patch_requires(*self, doc.doc_view(), doc.pos_view(), stack@),
    {
        let d = doc.document();
        let count = d.node_count();
        let room = count < 4294967295usize;
        let pos = doc.insertion_point();
        let pos_ok = (pos.0 as usize) < count;
        let depth = stack.len();
        match self {
            Patch::InsertBefore { before, .. } => room && attached(d, *before),
            Patch::InsertAfter { after, .. } => room && attached(d, *after),
            Patch::Create { .. } => room,
            Patch::CreateAndMoveTo { .. } => room,
            Patch::PushCurrent => true,
            Patch::Push(_) => true,
            Patch::Pop => depth > 0,
            Patch::Attach => depth >= 2 && detached(d, stack[depth - 1])
                && (stack[depth - 2].0 as usize) < count,
            Patch::Detach { node } => (node.0 as usize) < count,
            Patch::PrependBefore { before } => depth > 0 && stack[depth - 1].0 != before.0
                && detached(d, stack[depth - 1]) && attached(d, *before),
            Patch::Append { .. } => pos_ok && room,
            Patch::AppendAfter { after } => depth > 0 && stack[depth - 1].0 != after.0
                && detached(d, stack[depth - 1]) && attached(d, *after),
            Patch::AppendTo { parent, .. } => (parent.0 as usize) < count && room,
            Patch::Remove { node } => (node.0 as usize) < count,
            Patch::Replace { node, .. } => (node.0 as usize) < count,
            Patch::AddAttribute { .. } => pos_ok && is_element(d, pos),
            Patch::AddAttributeTo { node, .. } => (node.0 as usize) < count && is_element(d, *node),
            Patch::UpdateAttribute { node, .. } => (node.0 as usize) < count && is_element(d, *node),
            Patch::RemoveAttributeByName { node, .. } => (node.0 as usize) < count,
            Patch::SetAttributes { node, .. } => (node.0 as usize) < count,
            Patch::Move(MoveTo::Node(_)) => true,
            Patch::Move(MoveTo::Parent) => pos_ok && d.parent(pos).is_some(),
            Patch::Move(MoveTo::Child(n)) => pos_ok && (*n as usize) < d.children(pos).len(),
            Patch::Move(MoveTo::ReverseChild(n)) => pos_ok && (*n as usize) < d.children(pos).len(),
            Patch::Move(MoveTo::Sibling(n)) => pos_ok && sibling_exists(d, pos, *n),
            Patch::Move(MoveTo::ReverseSibling(n)) => pos_ok && sibling_exists(d, pos, *n),
        }
    }
}

/// Where a patch puts a node among the children of a parent, `i` being the
/// position of the node it is placed next to: inserting after a node puts
/// the new node right after it; inserting or prepending before a node, right
/// before it; appending, attaching, or appending to a node, after the last
/// child; the other children keep their order. A new node is the last of
/// the document's nodes and holds the data given.
pub proof fn law_patch_placement(p: Patch, d: DocumentV, pos: nat, st: Seq<NodeRef>,
    d2: DocumentV, pos2: nat, st2: Seq<NodeRef>, r: Option<PatchResult>, i: int)
    requires
        wf(d),
        patch_requires(p, d, pos, st),
        patch_ensures(p, d, pos, st, d2, pos2, st2, r),
    ensures
        p matches Patch::InsertAfter { after, node } ==> (d.parents[after.0 as int] matches Some(q) ==>
            (0 <= i < d.children[q as int].len() && d.children[q as int][i] == after.0 ==>
                d2.children[q as int] == d.children[q as int].insert(i + 1, d.nodes.len())
                && d2.nodes == d.nodes.push(node@) && d2.parents[d.nodes.len() as int] == Some(q))),
        p matches Patch::InsertBefore { before, node } ==> (d.parents[before.0 as int] matches Some(q) ==>
            (0 <= i < d.children[q as int].len() && d.children[q as int][i] == before.0 ==>
                d2.children[q as int] == d.children[q as int].insert(i, d.nodes.len())
                && d2.nodes == d.nodes.push(node@) && d2.parents[d.nodes.len() as int] == Some(q))),
        p matches Patch::AppendAfter { after } ==> (d.parents[after.0 as int] matches Some(q) ==>
            (0 <= i < d.children[q as int].len() && d.children[q as int][i] == after.0 ==>
                d2.children[q as int] == d.children[q as int].insert(i + 1, st.last().0 as nat)
                && d2.nodes == d.nodes && d2.parents[st.last().0 as int] == Some(q))),
        p matches Patch::PrependBefore { before } ==> (d.parents[before.0 as int] matches Some(q) ==>
            (0 <= i < d.children[q as int].len() && d.children[q as int][i] == before.0 ==>
                d2.children[q as int] == d.children[q as int].insert(i, st.last().0 as nat)
                && d2.nodes == d.nodes && d2.parents[st.last().0 as int] == Some(q))),
        p matches Patch::Append { node } ==> d2.children[pos as int] == d.children[pos as int].push(d.nodes.len())
            && d2.nodes == d.nodes.push(node@) && d2.parents[d.nodes.len() as int] == Some(pos),
        p matches Patch::AppendTo { parent, node } ==> d2.children[parent.0 as int] == d.children[parent.0 as int].push(d.nodes.len())
            && d2.nodes == d.nodes.push(node@) && d2.parents[d.nodes.len() as int] == Some(parent.0 as nat),
        p is Attach ==> d2.children[st[st.len() - 2].0 as int] == d.children[st[st.len() - 2].0 as int].push(st.last().0 as nat)
            && d2.nodes == d.nodes && d2.parents[st.last().0 as int] == Some(st[st.len() - 2].0 as nat),
{
    match p {
        Patch::InsertAfter { after, .. } => {
            let q = d.parents[after.0 as int]->0;
            d.children[q as int].index_of_first_ensures(after.0 as nat);
            assert(d.children[q as int].no_duplicates());
        },
        Patch::InsertBefore { before, .. } => {
            let q = d.parents[before.0 as int]->0;
            d.children[q as int].index_of_first_ensures(before.0 as nat);
            assert(d.children[q as int].no_duplicates());
        },
        Patch::AppendAfter { after } => {
            let q = d.parents[after.0 as int]->0;
            d.children[q as int].index_of_first_ensures(after.0 as nat);
            assert(d.children[q as int].no_duplicates());
        },
        Patch::PrependBefore { before } => {
            let q = d.parents[before.0 as int]->0;
            d.children[q as int].index_of_first_ensures(before.0 as nat);
            assert(d.children[q as int].no_duplicates());
        },
        _ => {},
    }
}

/// The first attribute of `a` named `n` stands at `i`.
pub open spec fn first_named(a: Seq<AttributeV>, n: AttributeNameV, i: int) -> bool {
    0 <= i < a.len() && a[i].0 == n && forall|j: int| 0 <= j < i ==> a[j].0 != n
}

/// `e` differs from `d` at most in the attributes of element `t`: the root,
/// the identifiers, the links between nodes and every other node stay as
/// they were, and `t` stays an element with the same tag.
pub open spec fn only_attributes_of(d: DocumentV, e: DocumentV, t: nat) -> bool {
    &&& e.root == d.root && e.ids == d.ids && e.parents == d.parents && e.children == d.children
    &&& e.nodes.len() == d.nodes.len()
    &&& forall|m: int| 0 <= m < d.nodes.len() && m != t ==> #[trigger] e.nodes[m] == d.nodes[m]
    &&& e.nodes[t as int] matches NodeDataV::Element(x) && d.nodes[t as int] matches NodeDataV::Element(y) && x.0 == y.0
}

/// What the attribute patches and a replacement do. Setting a name on an
/// element (at the insertion point, or on a given node) gives the first
/// attribute of that name the new value, the others staying where they
/// were, or adds the attribute at the end when none has that name; removing
/// a name takes out the first attribute of that name and leaves a node that
/// is no element as it was; setting the attributes puts the given ones in
/// place of all. Nothing else in the document changes, and the node is
/// answered as changed. Replacing a node that has a parent puts the
/// replacement in its place, leaves every link as it was and answers the
/// node with its parent; a node without a parent is left alone.
pub proof fn law_attribute_patches(p: Patch, d: DocumentV, pos: nat, st: Seq<NodeRef>,
    d2: DocumentV, pos2: nat, st2: Seq<NodeRef>, r: Option<PatchResult>, i: int)
    requires
        wf(d),
        patch_requires(p, d, pos, st),
        patch_ensures(p, d, pos, st, d2, pos2, st2, r),
    ensures
        p matches Patch::AddAttribute { name, value } ==> {
            &&& only_attributes_of(d, d2, pos)
            &&& first_named(node_attrs(d.nodes[pos as int]), name@, i) ==>
                node_attrs(d2.nodes[pos as int]) == node_attrs(d.nodes[pos as int]).update(i, (name@, opt_str_view(value)))
            &&& (forall|j: int| 0 <= j < node_attrs(d.nodes[pos as int]).len() ==> node_attrs(d.nodes[pos as int])[j].0 != name@) ==>
                node_attrs(d2.nodes[pos as int]) == node_attrs(d.nodes[pos as int]).push((name@, opt_str_view(value)))
            &&& r == Some(PatchResult::Change { node: NodeRef(pos as u32) })
        },
        p matches Patch::AddAttributeTo { node, name, value } ==> {
            &&& only_attributes_of(d, d2, node.0 as nat)
            &&& first_named(node_attrs(d.nodes[node.0 as int]), name@, i) ==>
                node_attrs(d2.nodes[node.0 as int]) == node_attrs(d.nodes[node.0 as int]).update(i, (name@, opt_str_view(value)))
            &&& (forall|j: int| 0 <= j < node_attrs(d.nodes[node.0 as int]).len() ==> node_attrs(d.nodes[node.0 as int])[j].0 != name@) ==>
                node_attrs(d2.nodes[node.0 as int]) == node_attrs(d.nodes[node.0 as int]).push((name@, opt_str_view(value)))
            &&& r == Some(PatchResult::Change { node })
        },
        p matches Patch::UpdateAttribute { node, name, value } ==> {
            &&& only_attributes_of(d, d2, node.0 as nat)
            &&& first_named(node_attrs(d.nodes[node.0 as int]), name@, i) ==>
                node_attrs(d2.nodes[node.0 as int]) == node_attrs(d.nodes[node.0 as int]).update(i, (name@, opt_str_view(value)))
            &&& (forall|j: int| 0 <= j < node_attrs(d.nodes[node.0 as int]).len() ==> node_attrs(d.nodes[node.0 as int])[j].0 != name@) ==>
                node_attrs(d2.nodes[node.0 as int]) == node_attrs(d.nodes[node.0 as int]).push((name@, opt_str_view(value)))
            &&& r == Some(PatchResult::Change { node })
        },
        p matches Patch::RemoveAttributeByName { node, name } ==> {
            &&& d.nodes[node.0 as int] is Element ==> {
                &&& only_attributes_of(d, d2, node.0 as nat)
                &&& first_named(node_attrs(d.nodes[node.0 as int]), name@, i) ==>
                    node_attrs(d2.nodes[node.0 as int]) == node_attrs(d.nodes[node.0 as int]).remove(i)
                &&& (forall|j: int| 0 <= j < node_attrs(d.nodes[node.0 as int]).len() ==> node_attrs(d.nodes[node.0 as int])[j].0 != name@) ==>
                    node_attrs(d2.nodes[node.0 as int]) == node_attrs(d.nodes[node.0 as int])
            }
            &&& d.nodes[node.0 as int] !is Element ==> d2 == d
            &&& r == Some(PatchResult::Change { node })
        },
        p matches Patch::SetAttributes { node, attributes } ==> {
            &&& d.nodes[node.0 as int] is Element ==> only_attributes_of(d, d2, node.0 as nat)
                && node_attrs(d2.nodes[node.0 as int]) == attributes@.map_values(|a: Attribute| a@)
            &&& d.nodes[node.0 as int] !is Element ==> d2 == d
            &&& r == Some(PatchResult::Change { node })
        },
        p matches Patch::Replace { node, replacement } ==> (match d.parents[node.0 as int] {
            Some(q) => d2.nodes == d.nodes.update(node.0 as int, replacement@) && d2.parents == d.parents
                && d2.children == d.children && d2.ids == d.ids && d2.root == d.root
                && r == Some(PatchResult::Replace { node, parent: NodeRef(q as u32) }),
            None => d2 == d && r is None,
        }),
        pos2 == pos || !(p is AddAttribute || p is AddAttributeTo || p is UpdateAttribute
            || p is RemoveAttributeByName || p is SetAttributes || p is Replace),
        st2 == st || !(p is AddAttribute || p is AddAttributeTo || p is UpdateAttribute
            || p is RemoveAttributeByName || p is SetAttributes || p is Replace),
{
    match p {
        Patch::AddAttribute { name, .. } => {
            lemma_first_index(node_attrs(d.nodes[pos as int]), name@, i);
        },
        Patch::AddAttributeTo { node, name, .. } => {
            lemma_first_index(node_attrs(d.nodes[node.0 as int]), name@, i);
        },
        Patch::UpdateAttribute { node, name, .. } => {
            lemma_first_index(node_attrs(d.nodes[node.0 as int]), name@, i);
        },
        Patch::RemoveAttributeByName { node, name } => {
            lemma_first_index(node_attrs(d.nodes[node.0 as int]), name@, i);
        },
        _ => {},
    }
}

/// What removing a node does: the node leaves the children of its parent,
/// where the other children keep their order (when the parent is not itself
/// under the node); the node and everything under it are left without
/// parent and children; the node data stay; and the node is answered with
/// its former parent, or nothing is answered when it had none.
pub proof fn law_remove_patch(p: Patch, d: DocumentV, pos: nat, st: Seq<NodeRef>,
    d2: DocumentV, pos2: nat, st2: Seq<NodeRef>, r: Option<PatchResult>, i: int)
    requires
        wf(d),
        patch_requires(p, d, pos, st),
        patch_ensures(p, d, pos, st, d2, pos2, st2, r),
    ensures
        p matches Patch::Remove { node } ==> {
            &&& d.parents[node.0 as int] matches Some(q) ==> {
                &&& !d2.children[q as int].contains(node.0 as nat)
                &&& (!under(d, q, node.0 as nat) && 0 <= i < d.children[q as int].len() && d.children[q as int][i] == node.0)
                    ==> d2.children[q as int] == d.children[q as int].remove(i)
                &&& r == Some(PatchResult::Remove { node, parent: NodeRef(q as u32) })
            }
            &&& d.parents[node.0 as int] is None ==> r is None
            &&& forall|x: nat| x < d.nodes.len() && #[trigger] under(d, x, node.0 as nat) ==>
                d2.parents[x as int] is None && d2.children[x as int].len() == 0
            &&& d2.nodes == d.nodes && d2.ids == d.ids && d2.root == d.root
            &&& pos2 == pos && st2 == st
        },
{
    if let Patch::Remove { node } = p {
        let n = node.0 as nat;
        if let Some(q) = d.parents[n as int] {
            assert(d.children[q as int].no_duplicates());
            if under(d, q, n) {
                assert(unlinked(d2, q));
            } else {
                assert(keeps_links(detach_spec(d, n), d2, q));
                let c = d.children[q as int];
                c.index_of_first_ensures(n);
                let k = c.index_of_first(n)->0;
                assert(d2.children[q as int] == c.remove(k));
                if 0 <= i < c.len() && c[i] == n {
                    assert(i == k);
                }
                if c.remove(k).contains(n) {
                    let j = choose|j: int| 0 <= j < c.remove(k).len() && c.remove(k)[j] == n;
                    if j < k {
                        assert(c[j] == n);
                    } else {
                        assert(c[j + 1] == n);
                    }
                }
            }
        }
        assert forall|x: nat| x < d.nodes.len() && #[trigger] under(d, x, n) implies
            d2.parents[x as int] is None && d2.children[x as int].len() == 0 by {
            assert(unlinked(d2, x));
        }
    }
}

/// What the moves and the stack patches do. A move changes neither the
/// document nor the stack and answers nothing: to the parent, the insertion
/// point becomes the parent of the current one; to the `n`-th child, a
/// child of the current node with `n` children before it; to the `n`-th
/// child from the end, one with `n` children after it; to the `n`-th
/// sibling (or the `n`-th from the end), a child of the current node's
/// parent with `n` children before (or after) it. Pushing puts the node, or
/// the insertion point, on top of the stack and popping takes the top off.
/// Creating a node adds it, with the data given and no links, as the last
/// node of the document and pushes it; creating and moving to it also
/// makes it the insertion point. Detaching a node takes it out of its
/// parent's children, which keep their order, and leaves it without parent.
pub proof fn law_move_and_stack_patches(p: Patch, d: DocumentV, pos: nat, st: Seq<NodeRef>,
    d2: DocumentV, pos2: nat, st2: Seq<NodeRef>, r: Option<PatchResult>, i: int)
    requires
        wf(d),
        patch_requires(p, d, pos, st),
        patch_ensures(p, d, pos, st, d2, pos2, st2, r),
    ensures
        p is Move ==> d2 == d && st2 == st && r is None,
        p matches Patch::Move(MoveTo::Node(x)) ==> pos2 == x.0,
        p matches Patch::Move(MoveTo::Parent) ==> d.parents[pos as int] == Some(pos2),
        p matches Patch::Move(MoveTo::Child(n)) ==> d.parents[pos2 as int] == Some(pos)
            && d.children[pos as int].index_of(pos2) == n,
        p matches Patch::Move(MoveTo::ReverseChild(n)) ==> d.parents[pos2 as int] == Some(pos)
            && d.children[pos as int].len() - 1 - d.children[pos as int].index_of(pos2) == n,
        p matches Patch::Move(MoveTo::Sibling(n)) ==> d.parents[pos2 as int] == d.parents[pos as int]
            && d.children[d.parents[pos as int]->0 as int].index_of(pos2) == n,
        p matches Patch::Move(MoveTo::ReverseSibling(n)) ==> d.parents[pos2 as int] == d.parents[pos as int]
            && d.children[d.parents[pos as int]->0 as int].len() - 1 - d.children[d.parents[pos as int]->0 as int].index_of(pos2) == n,
        p matches Patch::Push(x) ==> d2 == d && pos2 == pos && st2 == st.push(x) && r is None,
        p is PushCurrent ==> d2 == d && pos2 == pos && st2 == st.push(NodeRef(pos as u32)) && r is None,
        p is Pop ==> d2 == d && pos2 == pos && st2 == st.drop_last() && r is None,
        p matches Patch::Create { node } ==> d2.nodes == d.nodes.push(node@) && d2.parents == d.parents.push(None)
            && d2.children == d.children.push(Seq::empty()) && pos2 == pos
            && st2 == st.push(NodeRef(d.nodes.len() as u32)) && r is None,
        p matches Patch::CreateAndMoveTo { node } ==> d2.nodes == d.nodes.push(node@) && d2.parents == d.parents.push(None)
            && d2.children == d.children.push(Seq::empty()) && pos2 == d.nodes.len()
            && st2 == st.push(NodeRef(d.nodes.len() as u32)) && r is None,
        p matches Patch::Detach { node } ==> {
            &&& d2.parents[node.0 as int] is None && d2.nodes == d.nodes
            &&& d.parents[node.0 as int] matches Some(q) ==> (0 <= i < d.children[q as int].len() && d.children[q as int][i] == node.0
                ==> d2.children[q as int] == d.children[q as int].remove(i))
            &&& pos2 == pos && st2 == st && r is None
        },
{
    match p {
        Patch::Move(MoveTo::Child(n)) => {
            let c = d.children[pos as int];
            assert(c.no_duplicates());
            assert(c[n as int] == pos2);
            c.index_of_first_ensures(pos2);
        },
        Patch::Move(MoveTo::ReverseChild(n)) => {
            let c = d.children[pos as int];
            assert(c.no_duplicates());
            assert(c[c.len() - 1 - n] == pos2);
            c.index_of_first_ensures(pos2);
        },
        Patch::Move(MoveTo::Sibling(n)) => {
            let q = d.parents[pos as int]->0;
            let c = d.children[q as int];
            assert(c.no_duplicates());
            assert(c[n as int] == pos2);
            c.index_of_first_ensures(pos2);
        },
        Patch::Move(MoveTo::ReverseSibling(n)) => {
            let q = d.parents[pos as int]->0;
            let c = d.children[q as int];
            assert(c.no_duplicates());
            assert(c[c.len() - 1 - n] == pos2);
            c.index_of_first_ensures(pos2);
        },
        Patch::Detach { node } => {
            if let Some(q) = d.parents[node.0 as int] {
                let c = d.children[q as int];
                assert(c.no_duplicates());
                c.index_of_first_ensures(node.0 as nat);
            }
        },
        _ => {},
    }
}

/// The position of the first attribute of a name is the one that
/// [attr_index] finds.
proof fn lemma_first_index(a: Seq<AttributeV>, n: AttributeNameV, i: int)
    ensures
        first_named(a, n, i) ==> attr_index(a, n) == Some(i),
        (forall|j: int| 0 <= j < a.len() ==> a[j].0 != n) ==> attr_index(a, n) is None,
{
    lemma_attr_index(a, n);
    if first_named(a, n, i) {
        let k = attr_index(a, n)->0;
        if k < i {
            assert(a[k].0 != n);
        } else if k > i {
            assert(a[i].0 != n);
        }
    }
}

/// Whether `n` is a node of `d` with a parent.
fn attached(d: &Document, n: NodeRef) -> (r: bool)
    requires
        wf(d@),
    ensures
        r == (valid(d@, n) && d@.parents[n.0 as int] is Some),
{
    (n.0 as usize) < d.node_count() && d.parent(n).is_some()
}

/// Whether `n` is a node of `d` without a parent.
fn detached(d: &Document, n: NodeRef) -> (r: bool)
    requires
        wf(d@),
    ensures
        r == (valid(d@, n) && d@.parents[n.0 as int] is None),
{
    (n.0 as usize) < d.node_count() && d.parent(n).is_none()
}

/// Whether `n`, a node of `d`, is an element.
fn is_element(d: &Document, n: NodeRef) -> (r: bool)
    requires
        valid(d@, n),
    ensures
        r == d@.nodes[n.0 as int] is Element,
{
    match d.get(n) {
        NodeData::NodeElement { .. } => true,
        _ => false,
    }
}

/// Whether `pos`, a node of `d`, has a parent with more than `n` children.
fn sibling_exists(d: &Document, pos: NodeRef, n: u32) -> (r: bool)
    requires
        wf(d@),
        valid(d@, pos),
    ensures
        r == (d@.parents[pos.0 as int] matches Some(q) && n < d@.children[q as int].len()),
{
    match d.parent(pos) {
        Some(q) => (n as usize) < d.children(q).len(),
        None => false,
    }
}

} // verus!

//! The document: nodes, the tree that links them, and identifiers.
use vstd::prelude::*;
use std::sync::Arc;
use super::attribute::{Attribute, AttributeName, AttributeV, attrs_view, opt_str_view};
use super::node::{NodeRef, NodeData, NodeDataV, Element, node_attrs, set_attr, remove_attr, attr_lookup, find_attr, copy_attrs, lemma_attr_index};
use crate::callbacks::ChangeType;
use crate::diff::fragment::types::Root;
use crate::diff::fragment::model::{find_key, lookup, insert_entry, lemma_find_key};
use crate::diff::fragment::merge::{find_entry, keys_of};
use super::select::{ancestor, under, lemma_chain_agree, lemma_chain_sub, lemma_first_reach, lemma_ancestor_compose, lemma_ancestor_valid};

verus! {

/// What a host implements to learn of changes to a document.
pub trait DocumentChangeHandler {
    /// Called for each change made to the document.
    fn handle(&self, change_type: ChangeType, node_ref: Arc<NodeRef>, node_data: NodeData, parent: Option<Arc<NodeRef>>);
}

/// A virtual document: a tree of elements and leaves under a root.
///
/// Nodes are stored by index; a node is detached while it has no parent.
pub struct Document {
    root: NodeRef,
    /// The fragment tree the document was rendered from.
    pub fragment_template: Option<Root>,
    /// Told of each change a merge makes.
    pub event_callback: Option<Arc<dyn DocumentChangeHandler>>,
    nodes: Vec<NodeData>,
    parents: Vec<Option<NodeRef>>,
    children: Vec<Vec<NodeRef>>,
    ids: Vec<(String, NodeRef)>,
    /// What the change handler was told by merges, one entry for each patch
    /// applied while a handler was installed: the kind of change, the node
    /// and its parent, or nothing for a patch that changed no node.
    told: Ghost<Seq<Option<(ChangeType, NodeRef, Option<NodeRef>)>>>,
}

/// The value of a [Document]: nodes by index, the parent and the children
/// of each, and the identifiers registered.
pub struct DocumentV {
    pub root: nat,
    pub nodes: Seq<NodeDataV>,
    pub parents: Seq<Option<nat>>,
    pub children: Seq<Seq<nat>>,
    pub ids: Seq<(Seq<char>, nat)>,
}

pub open spec fn opt_ref_view(o: Option<NodeRef>) -> Option<nat> {
    match o {
        Some(r) => Some(r.0 as nat),
        None => None,
    }
}

pub open spec fn refs_view(s: Seq<NodeRef>) -> Seq<nat> {
    s.map_values(|r: NodeRef| r.0 as nat)
}

pub open spec fn nodes_view(s: Seq<NodeData>) -> Seq<NodeDataV> {
    s.map_values(|n: NodeData| n@)
}

pub open spec fn parents_view(s: Seq<Option<NodeRef>>) -> Seq<Option<nat>> {
    s.map_values(|o: Option<NodeRef>| opt_ref_view(o))
}

pub open spec fn children_view(s: Seq<Vec<NodeRef>>) -> Seq<Seq<nat>> {
    s.map_values(|v: Vec<NodeRef>| refs_view(v@))
}

pub open spec fn ids_view(s: Seq<(String, NodeRef)>) -> Seq<(Seq<char>, nat)> {
    s.map_values(|e: (String, NodeRef)| (e.0@, e.1.0 as nat))
}

impl Document {
    /// The value of the document.
    pub closed spec fn doc_view(&self) -> DocumentV {
        DocumentV {
            root: self.root.0 as nat,
            nodes: nodes_view(self.nodes@),
            parents: parents_view(self.parents@),
            children: children_view(self.children@),
            ids: ids_view(self.ids@),
        }
    }
}

impl Document {
    /// The fragment tree the document was rendered from.
    pub closed spec fn template(&self) -> Option<Root> {
        self.fragment_template
    }

    /// The handler told of changes.
    pub closed spec fn callback(&self) -> Option<Arc<dyn DocumentChangeHandler>> {
        self.event_callback
    }

    /// What the change handler was told by merges, one entry for each patch
    /// applied while a handler was installed: the kind of change, the node
    /// and its parent, or nothing for a patch that changed no node.
    pub closed spec fn told(&self) -> Seq<Option<(ChangeType, NodeRef, Option<NodeRef>)>> {
        self.told@
    }

    /// Records what the change handler was told, leaving the document as it
    /// is.
    pub(crate) fn record_told(&mut self, told: Ghost<Seq<Option<(ChangeType, NodeRef, Option<NodeRef>)>>>)
        ensures
            final(self)@ == old(self)@,
            final(self).template() == old(self).template(),
            final(self).callback() == old(self).callback(),
            final(self).told() == told@,
    {
        self.told = told;
    }

    /// Puts `template` and `callback` in the document, leaving its tree as
    /// it is; answers the template and the handler it held.
    pub(crate) fn swap_template_and_callback(
        &mut self,
        template: Option<Root>,
        callback: Option<Arc<dyn DocumentChangeHandler>>,
    ) -> (r: (Option<Root>, Option<Arc<dyn DocumentChangeHandler>>))
        ensures
            final(self)@ == old(self)@,
            final(self).template() == template,
            final(self).callback() == callback,
            r.0 == old(self).template(),
            r.1 == old(self).callback(),
    {
        let mut t = template;
        let mut c = callback;
        core::mem::swap(&mut self.fragment_template, &mut t);
        core::mem::swap(&mut self.event_callback, &mut c);
        (t, c)
    }
}

impl View for Document {
    type V = DocumentV;

    open spec fn view(&self) -> DocumentV {
        self.doc_view()
    }
}

/// A well-formed document: the tables agree in length, every index fits a
/// reference, the root is a node, and parents and children agree: a
/// node lists each child once, and a node has a parent exactly when it is
/// listed among that parent's children.
pub open spec fn wf(d: DocumentV) -> bool {
    &&& d.parents.len() == d.nodes.len()
    &&& d.children.len() == d.nodes.len()
    &&& d.nodes.len() <= u32::MAX
    &&& d.root < d.nodes.len()
    &&& forall|c: int| 0 <= c < d.nodes.len() ==> (#[trigger] d.parents[c] matches Some(p) ==> p < d.nodes.len() && d.children[p as int].contains(c as nat))
    &&& forall|p: int, j: int| 0 <= p < d.nodes.len() && 0 <= j < d.children[p].len() ==>
        (#[trigger] d.children[p][j]) < d.nodes.len() && d.parents[d.children[p][j] as int] == Some(p as nat)
    &&& forall|p: int| 0 <= p < d.nodes.len() ==> (#[trigger] d.children[p]).no_duplicates()
}

/// Every identifier registered in `d` names a node of `d`.
pub open spec fn ids_in(d: DocumentV) -> bool {
    forall|i: int| 0 <= i < d.ids.len() ==> #[trigger] d.ids[i].1 < d.nodes.len()
}

/// `d` with `c` made a child of `p`, at position `i` among its children.
pub open spec fn attach_at(d: DocumentV, p: nat, c: nat, i: int) -> DocumentV {
    DocumentV {
        parents: d.parents.update(c as int, Some(p)),
        children: d.children.update(p as int, d.children[p as int].insert(i, c)),
        ..d
    }
}

/// `d` with `n` taken from its parent's children, if it has a parent.
pub open spec fn detach_spec(d: DocumentV, n: nat) -> DocumentV {
    match d.parents[n as int] {
        None => d,
        Some(p) => DocumentV {
            parents: d.parents.update(n as int, None),
            children: d.children.update(p as int, d.children[p as int].remove_value(n)),
            ..d
        },
    }
}

/// An empty document: the root alone.
pub open spec fn empty_spec() -> DocumentV {
    DocumentV {
        root: 0,
        nodes: seq![NodeDataV::Root],
        parents: seq![None],
        children: seq![Seq::empty()],
        ids: Seq::empty(),
    }
}

/// Attaching a detached node keeps a document well formed.
pub proof fn lemma_attach_wf(d: DocumentV, p: nat, c: nat, i: int)
    requires
        wf(d),
        p < d.nodes.len(),
        c < d.nodes.len(),
        d.parents[c as int] is None,
        0 <= i <= d.children[p as int].len(),
    ensures
        wf(attach_at(d, p, c, i)),
{
    let e = attach_at(d, p, c, i);
    let old_list = d.children[p as int];
    let new_list = old_list.insert(i, c);
    old_list.insert_ensures(i, c);
    assert(!old_list.contains(c)) by {
        if old_list.contains(c) {
            let j = choose|j: int| 0 <= j < old_list.len() && old_list[j] == c;
            assert(d.children[p as int][j] == c);
        }
    }
    assert forall|x: int| 0 <= x < new_list.len() implies (x < i ==> #[trigger] new_list[x] == old_list[x])
        && (x == i ==> new_list[x] == c) && (x > i ==> new_list[x] == old_list[x - 1]) by {
        if x > i {
            assert(new_list[(x - 1) + 1] == old_list[x - 1]);
        }
    }
    assert forall|q: int| 0 <= q < e.nodes.len() implies (#[trigger] e.parents[q] matches Some(r) ==> r < e.nodes.len() && e.children[r as int].contains(q as nat)) by {
        if q == c {
            assert(new_list[i] == c);
        } else if let Some(r) = d.parents[q] {
            let j = choose|j: int| 0 <= j < d.children[r as int].len() && d.children[r as int][j] == q as nat;
            if r == p {
                if j < i {
                    assert(new_list[j] == q);
                } else {
                    assert(new_list[j + 1] == q);
                }
            }
        }
    }
    assert forall|q: int, j: int| 0 <= q < e.nodes.len() && 0 <= j < e.children[q].len() implies
        (#[trigger] e.children[q][j]) < e.nodes.len() && e.parents[e.children[q][j] as int] == Some(q as nat) by {
        if q == p {
            if j != i {
                let k = if j < i { j } else { j - 1 };
                assert(new_list[j] == old_list[k]);
                assert(d.children[p as int][k] < d.nodes.len());
                assert(old_list[k] != c);
            }
        } else {
            assert(d.children[q][j] != c) by {
                if d.children[q][j] == c {
                    assert(d.parents[c as int] == Some(q as nat));
                }
            }
        }
    }
    assert forall|q: int| 0 <= q < e.nodes.len() implies (#[trigger] e.children[q]).no_duplicates() by {
        if q == p {
            assert forall|a: int, b: int| 0 <= a < new_list.len() && 0 <= b < new_list.len() && a != b implies new_list[a] != new_list[b] by {
                let ka = if a < i { a } else { a - 1 };
                let kb = if b < i { b } else { b - 1 };
                if a != i && b != i {
                    assert(new_list[a] == old_list[ka]);
                    assert(new_list[b] == old_list[kb]);
                } else if a == i {
                    assert(new_list[b] == old_list[kb]);
                } else {
                    assert(new_list[a] == old_list[ka]);
                }
            }
        }
    }
}

/// Detaching a node keeps a document well formed.
pub proof fn lemma_detach_wf(d: DocumentV, n: nat)
    requires
        wf(d),
        n < d.nodes.len(),
    ensures
        wf(detach_spec(d, n)),
{
    if let Some(p) = d.parents[n as int] {
        let e = detach_spec(d, n);
        let old_list = d.children[p as int];
        old_list.index_of_first_ensures(n);
        let k = old_list.index_of_first(n)->0;
        let new_list = old_list.remove(k);
        assert(new_list == old_list.remove_value(n));
        old_list.remove_ensures(k);
        assert forall|x: int| 0 <= x < new_list.len() implies #[trigger] new_list[x] == (if x < k { old_list[x] } else { old_list[x + 1] }) by {}
        assert forall|x: int| 0 <= x < new_list.len() implies #[trigger] new_list[x] != n by {
            if x < k {
                assert(old_list[x] != n);
            } else {
                assert(old_list[x + 1] != old_list[k]);
            }
        }
        assert forall|q: int| 0 <= q < e.nodes.len() implies (#[trigger] e.parents[q] matches Some(r) ==> r < e.nodes.len() && e.children[r as int].contains(q as nat)) by {
            if q != n {
                if let Some(r) = d.parents[q] {
                    let j = choose|j: int| 0 <= j < d.children[r as int].len() && d.children[r as int][j] == q as nat;
                    if r == p {
                        if j < k {
                            assert(new_list[j] == q);
                        } else {
                            assert(j != k);
                            assert(new_list[j - 1] == q);
                        }
                    }
                }
            }
        }
        assert forall|q: int, j: int| 0 <= q < e.nodes.len() && 0 <= j < e.children[q].len() implies
            (#[trigger] e.children[q][j]) < e.nodes.len() && e.parents[e.children[q][j] as int] == Some(q as nat) by {
            if q == p {
                let kk = if j < k { j } else { j + 1 };
                assert(new_list[j] == old_list[kk]);
                assert(d.children[p as int][kk] < d.nodes.len());
            } else {
                assert(d.children[q][j] != n) by {
                    if d.children[q][j] == n {
                        assert(d.parents[n as int] == Some(q as nat));
                    }
                }
            }
        }
        assert forall|q: int| 0 <= q < e.nodes.len() implies (#[trigger] e.children[q]).no_duplicates() by {
            if q == p {
                assert forall|a: int, b: int| 0 <= a < new_list.len() && 0 <= b < new_list.len() && a != b implies new_list[a] != new_list[b] by {
                    let ka = if a < k { a } else { a + 1 };
                    let kb = if b < k { b } else { b + 1 };
                    assert(new_list[a] == old_list[ka]);
                    assert(new_list[b] == old_list[kb]);
                }
            }
        }
    }
}

/// `d` with `v` added as a detached node.
pub open spec fn push_spec(d: DocumentV, v: NodeDataV) -> DocumentV {
    DocumentV {
        nodes: d.nodes.push(v),
        parents: d.parents.push(None),
        children: d.children.push(Seq::empty()),
        ..d
    }
}

/// `d` with node `n` replaced by `v`.
pub open spec fn with_node(d: DocumentV, n: nat, v: NodeDataV) -> DocumentV {
    DocumentV { nodes: d.nodes.update(n as int, v), ..d }
}

/// `d` with the attributes of element `n` replaced by `a`; other nodes are
/// left as they are.
pub open spec fn with_attrs(d: DocumentV, n: nat, a: Seq<AttributeV>) -> DocumentV {
    match d.nodes[n as int] {
        NodeDataV::Element(e) => with_node(d, n, NodeDataV::Element((e.0, a))),
        _ => d,
    }
}

/// Adding a detached node keeps a document well formed.
pub proof fn lemma_push_wf(d: DocumentV, v: NodeDataV)
    requires
        wf(d),
        d.nodes.len() < u32::MAX,
    ensures
        wf(push_spec(d, v)),
{
    let e = push_spec(d, v);
    assert forall|q: int| 0 <= q < e.nodes.len() implies (#[trigger] e.parents[q] matches Some(r) ==> r < e.nodes.len() && e.children[r as int].contains(q as nat)) by {
        if q < d.nodes.len() {
            if let Some(r) = d.parents[q] {
                let j = choose|j: int| 0 <= j < d.children[r as int].len() && d.children[r as int][j] == q as nat;
                assert(e.children[r as int][j] == q as nat);
            }
        }
    }
    assert forall|q: int, j: int| 0 <= q < e.nodes.len() && 0 <= j < e.children[q].len() implies
        (#[trigger] e.children[q][j]) < e.nodes.len() && e.parents[e.children[q][j] as int] == Some(q as nat) by {
        assert(q < d.nodes.len());
        assert(d.children[q][j] < d.nodes.len());
    }
    assert forall|q: int| 0 <= q < e.nodes.len() implies (#[trigger] e.children[q]).no_duplicates() by {
        if q < d.nodes.len() {
            assert(e.children[q] == d.children[q]);
        }
    }
}

/// Changing what a node holds keeps a document well formed.
pub proof fn lemma_with_node_wf(d: DocumentV, n: nat, v: NodeDataV)
    requires
        wf(d),
        n < d.nodes.len(),
    ensures
        wf(with_node(d, n, v)),
{
    let e = with_node(d, n, v);
    assert forall|q: int| 0 <= q < e.nodes.len() implies (#[trigger] e.parents[q] matches Some(r) ==> r < e.nodes.len() && e.children[r as int].contains(q as nat)) by {
        assert(d.parents[q] == e.parents[q]);
    }
}

impl Document {
    /// The well-formedness of the document: the tree is consistent, and
    /// every registered identifier names one of its nodes.
    pub open spec fn well_formed(&self) -> bool {
        wf(self@) && ids_in(self@)
    }

    /// An empty document: the root alone.
    pub fn empty() -> (r: Self)
        ensures
            r@ == empty_spec(),
            r.well_formed(),
            r.template() is None,
            r.callback() is None,
    {
        Self::with_capacity(1)
    }

    /// An empty document, with room for `cap` nodes.
    pub fn with_capacity(cap: usize) -> (r: Self)
        ensures
            r@ == empty_spec(),
            r.well_formed(),
            r.template() is None,
            r.callback() is None,
    {
        let mut nodes: Vec<NodeData> = Vec::with_capacity(cap);
        nodes.push(NodeData::Root);
        let mut parents: Vec<Option<NodeRef>> = Vec::new();
        parents.push(None);
        let mut children: Vec<Vec<NodeRef>> = Vec::new();
        let none: Vec<NodeRef> = Vec::new();
        assert(refs_view(none@) =~= Seq::<nat>::empty());
        children.push(none);
        let r = Document {
            root: NodeRef(0),
            fragment_template: None,
            event_callback: None,
            nodes,
            parents,
            children,
            ids: Vec::new(),
            told: Ghost(Seq::empty()),
        };
        assert(r@.nodes =~= empty_spec().nodes);
        assert(r@.parents =~= empty_spec().parents);
        assert(r@.children =~= empty_spec().children);
        assert(r@.ids =~= empty_spec().ids);
        r
    }

    /// Removes every node but a new root, and every identifier.
    pub fn clear(&mut self)
        ensures
            final(self)@ == empty_spec(),
            final(self).well_formed(),
            final(self).template() == old(self).template(),
            final(self).callback() == old(self).callback(),
    {
        self.nodes = Vec::new();
        self.nodes.push(NodeData::Root);
        self.root = NodeRef(0);
        self.parents = Vec::new();
        self.parents.push(None);
        self.children = Vec::new();
        let none: Vec<NodeRef> = Vec::new();
        assert(refs_view(none@) =~= Seq::<nat>::empty());
        self.children.push(none);
        self.ids = Vec::new();
        assert(self@.nodes =~= empty_spec().nodes);
        assert(self@.parents =~= empty_spec().parents);
        assert(self@.children =~= empty_spec().children);
        assert(self@.ids =~= empty_spec().ids);
    }

    /// Whether the root has no children.
    pub fn is_empty(&self) -> (r: bool)
        requires
            self.well_formed(),
        ensures
            r == (self@.children[self@.root as int].len() == 0),
    {
        self.children[self.root.0 as usize].len() == 0
    }

    /// The root node.
    pub fn root(&self) -> (r: NodeRef)
        ensures
            r.0 == self@.root,
    {
        self.root
    }

    /// Registers `node` under the identifier `id`, returning the node that
    /// was registered under it before.
    pub fn register_id(&mut self, node: NodeRef, id: String) -> (r: Option<NodeRef>)
        ensures
            opt_ref_view(r) == lookup(old(self)@.ids, id@),
            final(self)@ == (DocumentV { ids: insert_entry(old(self)@.ids, id@, node.0 as nat), ..old(self)@ }),
            old(self).well_formed() && node.0 < old(self)@.nodes.len() ==> final(self).well_formed(),
            final(self).template() == old(self).template(),
            final(self).callback() == old(self).callback(),
    {
        let ghost before = self.ids@;
        proof {
            lemma_ids_keys(before, id@);
            lemma_find_key(keys_of(before), id@);
            lemma_find_key(self@.ids, id@);
        }
        match find_entry(&self.ids, &id) {
            Some(i) => {
                let prev = self.ids[i].1;
                self.ids.set(i, (id, node));
                assert(ids_view(self.ids@) =~= ids_view(before).update(i as int, (id@, node.0 as nat)));
                Some(prev)
            },
            None => {
                self.ids.push((id, node));
                assert(ids_view(self.ids@) =~= ids_view(before).push((id@, node.0 as nat)));
                None
            },
        }
    }

    /// The node registered under `id`.
    pub fn get_by_id(&self, id: &str) -> (r: Option<NodeRef>)
        ensures
            opt_ref_view(r) == lookup(self@.ids, id@),
    {
        let key = String::from_str(id);
        proof { lemma_ids_keys(self.ids@, id@); lemma_find_key(keys_of(self.ids@), id@); }
        match find_entry(&self.ids, &key) {
            Some(i) => Some(self.ids[i].1),
            None => None,
        }
    }

    /// The number of nodes, attached or not.
    pub(crate) fn node_count(&self) -> (r: usize)
        ensures
            r == self@.nodes.len(),
    {
        self.nodes.len()
    }

    /// The data of `node`.
    pub fn get(&self, node: NodeRef) -> (r: &NodeData)
        requires
            node.0 < self@.nodes.len(),
        ensures
            r@ == self@.nodes[node.0 as int],
    {
        &self.nodes[node.0 as usize]
    }

    /// A copy of the attributes of `node`: those of an element, none
    /// otherwise.
    pub fn attributes(&self, node: NodeRef) -> (r: Vec<Attribute>)
        requires
            node.0 < self@.nodes.len(),
        ensures
            attrs_view(r@) == node_attrs(self@.nodes[node.0 as int]),
    {
        self.nodes[node.0 as usize].attributes()
    }

    /// The first attribute of `node` named `name`.
    pub fn get_attribute_by_name(&self, node: NodeRef, name: AttributeName) -> (r: Option<Attribute>)
        requires
            node.0 < self@.nodes.len(),
        ensures
            match r {
                Some(a) => attr_lookup(node_attrs(self@.nodes[node.0 as int]), name@) == Some(a@),
                None => attr_lookup(node_attrs(self@.nodes[node.0 as int]), name@) is None,
            },
    {
        let attrs = self.attributes(node);
        proof { lemma_attr_index(attrs_view(attrs@), name@); }
        match find_attr(&attrs, &name) {
            Some(i) => Some(attrs[i].copy()),
            None => None,
        }
    }

    /// The parent of `node`.
    pub fn parent(&self, node: NodeRef) -> (r: Option<NodeRef>)
        requires
            node.0 < self@.nodes.len(),
            wf(self@),
        ensures
            opt_ref_view(r) == self@.parents[node.0 as int],
    {
        self.parents[node.0 as usize]
    }

    /// The children of `node`, in order.
    pub fn children(&self, node: NodeRef) -> (r: &[NodeRef])
        requires
            node.0 < self@.nodes.len(),
            wf(self@),
        ensures
            refs_view(r@) == self@.children[node.0 as int],
    {
        self.children[node.0 as usize].as_slice()
    }
}

/// Keys of identifiers and of their views agree.
proof fn lemma_ids_keys(s: Seq<(String, NodeRef)>, k: Seq<char>)
    ensures
        find_key(keys_of(s), k) == find_key(ids_view(s), k),
        lookup(ids_view(s), k) == match find_key(keys_of(s), k) {
            Some(i) => Some(s[i].1.0 as nat),
            None => None,
        },
        find_key(keys_of(s), k) matches Some(p) ==> 0 <= p < s.len(),
{
    assert forall|i: int| 0 <= i < s.len() implies #[trigger] keys_of(s)[i].0 == ids_view(s)[i].0 by {}
    crate::diff::fragment::model::lemma_find_key_keys(keys_of(s), ids_view(s), k);
    lemma_find_key(keys_of(s), k);
}

/// The position of the first occurrence of `x` in `v`.
fn position(v: &Vec<NodeRef>, x: NodeRef) -> (r: Option<usize>)
    ensures
        match r {
            Some(i) => refs_view(v@).index_of_first(x.0 as nat) == Some(i as int) && i < v.len(),
            None => refs_view(v@).index_of_first(x.0 as nat) is None,
        },
{
    let ghost s = refs_view(v@);
    proof { s.index_of_first_ensures(x.0 as nat); }
    let mut i: usize = 0;
    while i < v.len()
        invariant
            i <= v.len(),
            s == refs_view(v@),
            forall|j: int| 0 <= j < i ==> s[j] != x.0 as nat,
        decreases v.len() - i,
    {
        if v[i] == x {
            proof {
                assert(s[i as int] == x.0 as nat);
                s.index_of_first_ensures(x.0 as nat);
                match s.index_of_first(x.0 as nat) {
                    Some(p) => {
                        if p < i {
                            assert(s[p] != x.0 as nat);
                        } else if p > i {
                            assert(s[i as int] != x.0 as nat);
                        }
                    },
                    None => {
                        assert(s.contains(x.0 as nat));
                    },
                }
            }
            return Some(i);
        }
        i = i + 1;
    }
    proof {
        if s.contains(x.0 as nat) {
            let j = choose|j: int| 0 <= j < s.len() && s[j] == x.0 as nat;
            assert(s[j] != x.0 as nat);
        }
    }
    None
}

impl Document {
    /// Makes `c` the child of `p` at position `i`.
    fn attach_child_at(&mut self, p: NodeRef, c: NodeRef, i: usize)
        requires
            wf(old(self)@),
            p.0 < old(self)@.nodes.len(),
            c.0 < old(self)@.nodes.len(),
            old(self)@.parents[c.0 as int] is None,
            i <= old(self)@.children[p.0 as int].len(),
        ensures
            final(self)@ == attach_at(old(self)@, p.0 as nat, c.0 as nat, i as int),
            wf(final(self)@),
            final(self).template() == old(self).template(),
            final(self).callback() == old(self).callback(),
    {
        proof { lemma_attach_wf(self@, p.0 as nat, c.0 as nat, i as int); }
        let ghost before = self@;
        let ghost old_children = self.children@;
        let ghost old_parents = self.parents@;
        let mut ch: Vec<NodeRef> = Vec::new();
        self.children.set_and_swap(p.0 as usize, &mut ch);
        let ghost old_list = ch@;
        assert(refs_view(old_list) == before.children[p.0 as int]);
        ch.insert(i, c);
        assert(refs_view(ch@) =~= refs_view(old_list).insert(i as int, c.0 as nat));
        self.children.set(p.0 as usize, ch);
        self.parents.set(c.0 as usize, Some(p));
        assert(self.children@ =~= old_children.update(p.0 as int, ch));
        assert(children_view(self.children@) =~= before.children.update(p.0 as int, before.children[p.0 as int].insert(i as int, c.0 as nat)));
        assert(parents_view(self.parents@) =~= before.parents.update(c.0 as int, Some(p.0 as nat)));
    }

    /// Adds `node` as a detached node, returning its reference.
    pub fn push_node(&mut self, node: NodeData) -> (r: NodeRef)
        requires
            old(self).well_formed(),
            old(self)@.nodes.len() < u32::MAX,
        ensures
            r.0 == old(self)@.nodes.len(),
            final(self)@ == push_spec(old(self)@, node@),
            final(self).well_formed(),
            final(self).template() == old(self).template(),
            final(self).callback() == old(self).callback(),
    {
        proof { lemma_push_wf(self@, node@); }
        let ghost before = self@;
        let r = NodeRef(self.nodes.len() as u32);
        self.nodes.push(node);
        self.parents.push(None);
        let none: Vec<NodeRef> = Vec::new();
        assert(refs_view(none@) =~= Seq::<nat>::empty());
        self.children.push(none);
        assert(nodes_view(self.nodes@) =~= before.nodes.push(node@));
        assert(parents_view(self.parents@) =~= before.parents.push(None));
        assert(children_view(self.children@) =~= before.children.push(Seq::empty()));
        r
    }

    /// Appends `child` to the children of `parent`.
    ///
    /// `child` must be detached.
    pub fn append_child(&mut self, parent: NodeRef, child: NodeRef)
        requires
            old(self).well_formed(),
            parent.0 < old(self)@.nodes.len(),
            child.0 < old(self)@.nodes.len(),
            old(self)@.parents[child.0 as int] is None,
        ensures
            final(self)@ == attach_at(old(self)@, parent.0 as nat, child.0 as nat, old(self)@.children[parent.0 as int].len() as int),
            final(self).well_formed(),
    {
        let n = self.children[parent.0 as usize].len();
        self.attach_child_at(parent, child, n);
    }

    /// Prepends `child` to the children of `parent`.
    ///
    /// `child` must be detached.
    pub fn prepend_child(&mut self, parent: NodeRef, child: NodeRef)
        requires
            old(self).well_formed(),
            parent.0 < old(self)@.nodes.len(),
            child.0 < old(self)@.nodes.len(),
            old(self)@.parents[child.0 as int] is None,
        ensures
            final(self)@ == attach_at(old(self)@, parent.0 as nat, child.0 as nat, 0),
            final(self).well_formed(),
    {
        self.attach_child_at(parent, child, 0);
    }

    /// Inserts the detached `node` as the sibling that follows `after`.
    pub fn insert_after(&mut self, node: NodeRef, after: NodeRef)
        requires
            old(self).well_formed(),
            node.0 < old(self)@.nodes.len(),
            after.0 < old(self)@.nodes.len(),
            node != after,
            old(self)@.parents[node.0 as int] is None,
            old(self)@.parents[after.0 as int] is Some,
        ensures
            ({
                let p = old(self)@.parents[after.0 as int]->0;
                final(self)@ == attach_at(old(self)@, p, node.0 as nat,
                    old(self)@.children[p as int].index_of_first(after.0 as nat)->0 + 1)
            }),
            final(self).well_formed(),
    {
        let parent = self.parents[after.0 as usize].unwrap();
        proof {
            let d = self@;
            assert(d.parents[after.0 as int] == Some(parent.0 as nat));
            d.children[parent.0 as int].index_of_first_ensures(after.0 as nat);
        }
        let pos = position(&self.children[parent.0 as usize], after).unwrap();
        self.attach_child_at(parent, node, pos + 1);
    }

    /// Inserts the detached `node` as the sibling that precedes `before`.
    pub fn insert_before(&mut self, node: NodeRef, before: NodeRef)
        requires
            old(self).well_formed(),
            node.0 < old(self)@.nodes.len(),
            before.0 < old(self)@.nodes.len(),
            node != before,
            old(self)@.parents[node.0 as int] is None,
            old(self)@.parents[before.0 as int] is Some,
        ensures
            ({
                let p = old(self)@.parents[before.0 as int]->0;
                final(self)@ == attach_at(old(self)@, p, node.0 as nat,
                    old(self)@.children[p as int].index_of_first(before.0 as nat)->0)
            }),
            final(self).well_formed(),
    {
        let parent = self.parents[before.0 as usize].unwrap();
        proof {
            let d = self@;
            assert(d.parents[before.0 as int] == Some(parent.0 as nat));
            d.children[parent.0 as int].index_of_first_ensures(before.0 as nat);
        }
        let pos = position(&self.children[parent.0 as usize], before).unwrap();
        self.attach_child_at(parent, node, pos);
    }

    /// Detaches `node` from its parent; its subtree stays with it.
    pub fn detach(&mut self, node: NodeRef)
        requires
            wf(old(self)@),
            node.0 < old(self)@.nodes.len(),
        ensures
            final(self)@ == detach_spec(old(self)@, node.0 as nat),
            wf(final(self)@),
            old(self).well_formed() ==> final(self).well_formed(),
            final(self).template() == old(self).template(),
            final(self).callback() == old(self).callback(),
    {
        proof { lemma_detach_wf(self@, node.0 as nat); }
        let ghost before = self@;
        let ghost old_children = self.children@;
        match self.parents[node.0 as usize] {
            None => {},
            Some(p) => {
                self.parents.set(node.0 as usize, None);
                assert(parents_view(self.parents@) =~= before.parents.update(node.0 as int, None));
                let mut ch: Vec<NodeRef> = Vec::new();
                self.children.set_and_swap(p.0 as usize, &mut ch);
                let ghost old_list = ch@;
                assert(refs_view(old_list) == before.children[p.0 as int]);
                proof { refs_view(old_list).index_of_first_ensures(node.0 as nat); }
                match position(&ch, node) {
                    Some(k) => {
                        ch.remove(k);
                        assert(refs_view(ch@) =~= refs_view(old_list).remove(k as int));
                    },
                    None => {},
                }
                assert(refs_view(ch@) == refs_view(old_list).remove_value(node.0 as nat));
                self.children.set(p.0 as usize, ch);
                assert(self.children@ =~= old_children.update(p.0 as int, ch));
                assert(children_view(self.children@) =~= before.children.update(p.0 as int, before.children[p.0 as int].remove_value(node.0 as nat)));
            },
        }
    }
}

impl Document {
    /// Sets attribute `name` of element `node` to `value`; answers whether
    /// `node` is an element.
    pub fn set_attribute(&mut self, node: NodeRef, name: AttributeName, value: Option<String>) -> (r: bool)
        requires
            node.0 < old(self)@.nodes.len(),
        ensures
            r == (old(self)@.nodes[node.0 as int] is Element),
            final(self)@ == with_attrs(old(self)@, node.0 as nat, set_attr(node_attrs(old(self)@.nodes[node.0 as int]), name@, opt_str_view(value))),
            wf(old(self)@) ==> wf(final(self)@),
    {
        let ghost before = self@;
        let ghost old_nodes = self.nodes@;
        let i = node.0 as usize;
        let mut data = NodeData::Root;
        self.nodes.set_and_swap(i, &mut data);
        let r = match &mut data {
            NodeData::NodeElement { element } => {
                element.set_attribute(name, value);
                true
            },
            _ => false,
        };
        self.nodes.set(i, data);
        assert(nodes_view(self.nodes@) =~= before.nodes.update(i as int, data@));
        proof {
            if !r {
                assert(nodes_view(self.nodes@) =~= before.nodes);
            } else if wf(before) {
                lemma_with_node_wf(before, i as nat, data@);
            }
        }
        r
    }

    /// Removes the first attribute named `name` from element `node`.
    pub fn remove_attribute(&mut self, node: NodeRef, name: AttributeName)
        requires
            node.0 < old(self)@.nodes.len(),
        ensures
            final(self)@ == with_attrs(old(self)@, node.0 as nat, remove_attr(node_attrs(old(self)@.nodes[node.0 as int]), name@)),
            wf(old(self)@) ==> wf(final(self)@),
    {
        let ghost before = self@;
        let i = node.0 as usize;
        let mut data = NodeData::Root;
        self.nodes.set_and_swap(i, &mut data);
        let r = match &mut data {
            NodeData::NodeElement { element } => {
                element.remove_attribute(&name);
                true
            },
            _ => false,
        };
        self.nodes.set(i, data);
        assert(nodes_view(self.nodes@) =~= before.nodes.update(i as int, data@));
        proof {
            if !r {
                assert(nodes_view(self.nodes@) =~= before.nodes);
            } else if wf(before) {
                lemma_with_node_wf(before, i as nat, data@);
            }
        }
    }

    /// Replaces the attributes of element `node`, answering the former
    /// ones; answers `None` when `node` is not an element.
    pub fn replace_attributes(&mut self, node: NodeRef, attributes: Vec<Attribute>) -> (r: Option<Vec<Attribute>>)
        requires
            node.0 < old(self)@.nodes.len(),
        ensures
            match r {
                Some(v) => old(self)@.nodes[node.0 as int] is Element && attrs_view(v@) == node_attrs(old(self)@.nodes[node.0 as int]),
                None => !(old(self)@.nodes[node.0 as int] is Element),
            },
            final(self)@ == with_attrs(old(self)@, node.0 as nat, attrs_view(attributes@)),
            wf(old(self)@) ==> wf(final(self)@),
    {
        let ghost before = self@;
        let i = node.0 as usize;
        let mut data = NodeData::Root;
        self.nodes.set_and_swap(i, &mut data);
        let r = match &mut data {
            NodeData::NodeElement { element } => {
                let mut attrs = attributes;
                std::mem::swap(&mut element.attributes, &mut attrs);
                Some(attrs)
            },
            _ => None,
        };
        self.nodes.set(i, data);
        assert(nodes_view(self.nodes@) =~= before.nodes.update(i as int, data@));
        proof {
            if r is None {
                assert(nodes_view(self.nodes@) =~= before.nodes);
            } else if wf(before) {
                lemma_with_node_wf(before, i as nat, data@);
            }
        }
        r
    }

    /// Replaces what `node` holds with `replacement`.
    pub fn replace(&mut self, node: NodeRef, replacement: NodeData)
        requires
            node.0 < old(self)@.nodes.len(),
        ensures
            final(self)@ == with_node(old(self)@, node.0 as nat, replacement@),
            wf(old(self)@) ==> wf(final(self)@),
    {
        let ghost before = self@;
        proof { if wf(before) { lemma_with_node_wf(before, node.0 as nat, replacement@); } }
        self.nodes.set(node.0 as usize, replacement);
        assert(nodes_view(self.nodes@) =~= before.nodes.update(node.0 as int, replacement@));
    }
}

/// The number of parent-child links recorded.
pub open spec fn total_children(s: Seq<Seq<nat>>) -> nat
    decreases s.len(),
{
    if s.len() == 0 {
        0
    } else {
        total_children(s.drop_last()) + s.last().len()
    }
}

/// Replacing one list changes the total by the difference of lengths.
proof fn lemma_total_update(s: Seq<Seq<nat>>, i: int, v: Seq<nat>)
    requires
        0 <= i < s.len(),
    ensures
        total_children(s.update(i, v)) + s[i].len() == total_children(s) + v.len(),
    decreases s.len(),
{
    let t = s.update(i, v);
    if i == s.len() - 1 {
        assert(t.drop_last() =~= s.drop_last());
    } else {
        lemma_total_update(s.drop_last(), i, v);
        assert(t.drop_last() =~= s.drop_last().update(i, v));
    }
}

/// Whether `e` differs from `d` only by nodes that lost their parent or all
/// their children.
pub open spec fn cleared_from(d: DocumentV, e: DocumentV) -> bool {
    &&& e.root == d.root
    &&& e.nodes == d.nodes
    &&& e.ids == d.ids
    &&& e.parents.len() == d.parents.len()
    &&& e.children.len() == d.children.len()
    &&& forall|x: int| 0 <= x < d.parents.len() ==> (#[trigger] e.parents[x] == d.parents[x] || e.parents[x] is None)
    &&& forall|x: int| 0 <= x < d.children.len() ==> (#[trigger] e.children[x] == d.children[x] || e.children[x].len() == 0)
}

/// Detaching a node drops one link or none.
proof fn lemma_detach_total(d: DocumentV, n: nat)
    requires
        wf(d),
        n < d.nodes.len(),
    ensures
        d.parents[n as int] is Some ==> total_children(detach_spec(d, n).children) + 1 == total_children(d.children),
        d.parents[n as int] is None ==> detach_spec(d, n) == d,
{
    if let Some(p) = d.parents[n as int] {
        let l = d.children[p as int];
        l.index_of_first_ensures(n);
        let k = l.index_of_first(n)->0;
        l.remove_ensures(k);
        lemma_total_update(d.children, p as int, l.remove_value(n));
    }
}

/// [cleared_from], except that the children of `n` may differ.
pub open spec fn cleared_except(d: DocumentV, e: DocumentV, n: nat) -> bool {
    &&& e.root == d.root
    &&& e.nodes == d.nodes
    &&& e.ids == d.ids
    &&& e.parents.len() == d.parents.len()
    &&& e.children.len() == d.children.len()
    &&& forall|x: int| 0 <= x < d.parents.len() ==> (#[trigger] e.parents[x] == d.parents[x] || e.parents[x] is None)
    &&& forall|x: int| 0 <= x < d.children.len() && x != n ==> (#[trigger] e.children[x] == d.children[x] || e.children[x].len() == 0)
}

/// Whether `e` is `d` after deleting `n`: the nodes under `n` (and `n`
/// itself) lose their parent and their children, `n` leaves the children of
/// its parent, and nothing else changes.
pub open spec fn deleted(d: DocumentV, e: DocumentV, n: nat) -> bool {
    &&& e.root == d.root
    &&& e.nodes == d.nodes
    &&& e.ids == d.ids
    &&& e.parents.len() == d.parents.len()
    &&& e.children.len() == d.children.len()
    &&& forall|x: nat| x < d.nodes.len() && under(d, x, n) ==> #[trigger] unlinked(e, x)
    &&& forall|x: nat| x < d.nodes.len() && !under(d, x, n) ==> #[trigger] keeps_links(detach_spec(d, n), e, x)
}

/// Whether `x` has no parent and no children in `e`.
pub open spec fn unlinked(e: DocumentV, x: nat) -> bool {
    e.parents[x as int] is None && e.children[x as int].len() == 0
}

/// Whether `x` has the same parent and children in `e` as in `d`.
pub open spec fn keeps_links(d: DocumentV, e: DocumentV, x: nat) -> bool {
    e.parents[x as int] == d.parents[x as int] && e.children[x as int] == d.children[x as int]
}

/// Every node of `d` that is not under `n` keeps its links in `e`.
pub open spec fn frame_outside(d: DocumentV, e: DocumentV, n: nat) -> bool {
    forall|x: nat| x < d.nodes.len() && !under(d, x, n) ==> #[trigger] keeps_links(d, e, x)
}

/// Every node of `d` under `n` but `n` is unlinked in `e` or still under
/// `n` there.
pub open spec fn cleared_or_under(d: DocumentV, e: DocumentV, n: nat) -> bool {
    forall|x: nat| x < d.nodes.len() && x != n && under(d, x, n) ==> (#[trigger] unlinked(e, x) || under(e, x, n))
}

/// The parents of `e` are those of `d`, or none.
pub open spec fn fewer_parents(d: DocumentV, e: DocumentV) -> bool {
    &&& e.parents.len() == d.parents.len()
    &&& forall|a: int| 0 <= a < d.parents.len() ==> (#[trigger] e.parents[a] is None || e.parents[a] == d.parents[a])
}

/// One step of clearing the nodes under `n`: its last child `c` is detached
/// (giving `mid`) and the nodes under `c` are cleared (giving `after`).
proof fn lemma_delete_step(start: DocumentV, before: DocumentV, mid: DocumentV, after: DocumentV, n: nat, c: nat)
    requires
        wf(start),
        wf(before),
        wf(mid),
        n < start.nodes.len(),
        c < start.nodes.len(),
        before.nodes.len() == start.nodes.len(),
        mid.nodes.len() == start.nodes.len(),
        after.nodes.len() == start.nodes.len(),
        after.parents.len() == start.parents.len(),
        after.children.len() == start.children.len(),
        before.parents[c as int] == Some(n),
        before.parents[n as int] is None,
        mid == detach_spec(before, c),
        fewer_parents(start, before),
        fewer_parents(mid, after),
        frame_outside(start, before, n),
        cleared_or_under(start, before, n),
        forall|x: nat| x < mid.nodes.len() && under(mid, x, c) ==> #[trigger] unlinked(after, x),
        frame_outside(mid, after, c),
    ensures
        frame_outside(start, after, n),
        cleared_or_under(start, after, n),
        fewer_parents(start, after),
{
    reveal_with_fuel(ancestor, 2);
    assert(fewer_parents(before, mid));
    assert(start.parents[c as int] == Some(n));
    assert(ancestor(start, c, 1) == Some(n));
    assert(under(start, c, n));
    assert(ancestor(start, n, 0) == Some(n));
    assert(fewer_parents(start, mid)) by {
        assert forall|a: int| 0 <= a < start.parents.len() implies (#[trigger] mid.parents[a] is None || mid.parents[a] == start.parents[a]) by {
            assert(mid.parents[a] is None || mid.parents[a] == before.parents[a]);
            assert(before.parents[a] is None || before.parents[a] == start.parents[a]);
        }
    }
    assert(fewer_parents(start, after)) by {
        assert forall|a: int| 0 <= a < start.parents.len() implies (#[trigger] after.parents[a] is None || after.parents[a] == start.parents[a]) by {
            assert(after.parents[a] is None || after.parents[a] == mid.parents[a]);
            assert(mid.parents[a] is None || mid.parents[a] == start.parents[a]);
        }
    }
    // Nodes outside keep their links.
    assert forall|x: nat| x < start.nodes.len() && !under(start, x, n) implies #[trigger] keeps_links(start, after, x) by {
        if under(mid, x, c) {
            let t = choose|t: nat| #[trigger] ancestor(mid, x, t) == Some(c);
            lemma_chain_sub(mid, start, x, t);
            lemma_ancestor_compose(start, x, t, c, 1);
            assert(ancestor(start, x, t + 1) == Some(n));
        }
        assert(keeps_links(mid, after, x));
        assert(keeps_links(start, before, x));
        assert(x != c);
        assert(x != n);
    }
    // Nodes under `n` are cleared or still under it.
    assert forall|x: nat| x < start.nodes.len() && x != n && under(start, x, n) implies (#[trigger] unlinked(after, x) || under(after, x, n)) by {
        assert(unlinked(before, x) || under(before, x, n));
        if unlinked(before, x) {
            assert(x != c);
            if !under(mid, x, c) {
                assert(keeps_links(mid, after, x));
            }
        } else if under(before, x, c) {
            let k = choose|k: nat| #[trigger] ancestor(before, x, k) == Some(c);
            lemma_first_reach(before, x, c, k);
            let f = choose|f: nat| #[trigger] ancestor(before, x, f) == Some(c) && f <= k && forall|j: nat| j < f ==> ancestor(before, x, j) != Some(c);
            assert forall|j: nat| j < f implies (#[trigger] ancestor(before, x, j) matches Some(m) ==> before.parents[m as int] == mid.parents[m as int]) by {
                if let Some(m) = ancestor(before, x, j) {
                    lemma_ancestor_valid(before, x, j);
                    assert(m != c);
                }
            }
            lemma_chain_agree(before, mid, x, f);
            assert(under(mid, x, c));
        } else {
            let k = choose|k: nat| #[trigger] ancestor(before, x, k) == Some(n);
            assert forall|j: nat| j < k implies (#[trigger] ancestor(before, x, j) matches Some(m) ==> before.parents[m as int] == mid.parents[m as int]) by {
                if let Some(m) = ancestor(before, x, j) {
                    lemma_ancestor_valid(before, x, j);
                    if m == c {
                        assert(under(before, x, c));
                    }
                }
            }
            lemma_chain_agree(before, mid, x, k);
            assert forall|j: nat| j < k implies (#[trigger] ancestor(mid, x, j) matches Some(m) ==> mid.parents[m as int] == after.parents[m as int]) by {
                if let Some(m) = ancestor(mid, x, j) {
                    lemma_ancestor_valid(mid, x, j);
                    if under(mid, m, c) {
                        let t = choose|t: nat| #[trigger] ancestor(mid, m, t) == Some(c);
                        lemma_ancestor_compose(mid, x, j, m, t);
                        lemma_chain_sub(mid, before, x, j + t);
                        assert(ancestor(before, x, j + t) == Some(c));
                    }
                    assert(keeps_links(mid, after, m));
                }
            }
            lemma_chain_agree(mid, after, x, k);
            assert(ancestor(after, x, k) == Some(n));
        }
    }
}

impl Document {
    /// Clears the links under the detached node `n`: each node under it loses
    /// its parent and its children.
    fn delete_under(&mut self, n: NodeRef)
        requires
            wf(old(self)@),
            n.0 < old(self)@.nodes.len(),
            old(self)@.parents[n.0 as int] is None,
        ensures
            wf(final(self)@),
            final(self)@.parents[n.0 as int] is None,
            final(self)@.children[n.0 as int].len() == 0,
            cleared_from(old(self)@, final(self)@),
            total_children(final(self)@.children) <= total_children(old(self)@.children),
            forall|x: nat| x < old(self)@.nodes.len() && under(old(self)@, x, n.0 as nat) ==> #[trigger] unlinked(final(self)@, x),
            frame_outside(old(self)@, final(self)@, n.0 as nat),
            final(self).template() == old(self).template(),
            final(self).callback() == old(self).callback(),
        decreases total_children(old(self)@.children),
    {
        let ghost start = self@;
        assert(frame_outside(start, start, n.0 as nat));
        assert(cleared_or_under(start, start, n.0 as nat));
        while self.children[n.0 as usize].len() > 0
            invariant
                wf(self@),
                wf(start),
                start == old(self)@,
                n.0 < self@.nodes.len(),
                self@.parents[n.0 as int] is None,
                cleared_except(start, self@, n.0 as nat),
                total_children(self@.children) <= total_children(start.children),
                frame_outside(start, self@, n.0 as nat),
                cleared_or_under(start, self@, n.0 as nat),
                self.template() == old(self).template(),
                self.callback() == old(self).callback(),
            decreases total_children(self@.children),
        {
            let ghost before = self@;
            let last = self.children[n.0 as usize].len() - 1;
            let c = self.children[n.0 as usize][last];
            proof {
                assert(before.children[n.0 as int][last as int] == c.0 as nat);
                assert(before.parents[c.0 as int] == Some(n.0 as nat));
                lemma_detach_total(before, c.0 as nat);
            }
            self.detach(c);
            let ghost mid = self@;
            self.delete_under(c);
            proof {
                assert forall|x: int| 0 <= x < start.children.len() && x != n.0 implies (#[trigger] self@.children[x] == start.children[x] || self@.children[x].len() == 0) by {
                    assert(self@.children[x] == mid.children[x] || self@.children[x].len() == 0);
                    assert(mid.children[x] == before.children[x]);
                }
                assert forall|x: int| 0 <= x < start.parents.len() implies (#[trigger] self@.parents[x] == start.parents[x] || self@.parents[x] is None) by {
                    assert(self@.parents[x] == mid.parents[x] || self@.parents[x] is None);
                    assert(mid.parents[x] == before.parents[x] || mid.parents[x] is None);
                }
                assert(fewer_parents(start, before));
                assert(fewer_parents(mid, self@));
                lemma_delete_step(start, before, mid, self@, n.0 as nat, c.0 as nat);
            }
        }
        proof {
            let d = self@;
            assert forall|x: nat| x < start.nodes.len() && under(start, x, n.0 as nat) implies #[trigger] unlinked(d, x) by {
                if x != n.0 {
                    assert(unlinked(d, x) || under(d, x, n.0 as nat));
                    if under(d, x, n.0 as nat) {
                        let k = choose|k: nat| #[trigger] ancestor(d, x, k) == Some(n.0 as nat);
                        assert(k > 0);
                        let m = ancestor(d, x, (k - 1) as nat)->0;
                        lemma_ancestor_valid(d, x, (k - 1) as nat);
                        assert(d.parents[m as int] == Some(n.0 as nat));
                        assert(d.children[n.0 as int].contains(m));
                    }
                }
            }
        }
    }

    /// Deletes `node` and the nodes under it from the tree: `node` is taken
    /// from its parent, and every node under it loses its parent and its
    /// children. Their data stays stored.
    pub fn delete(&mut self, node: NodeRef)
        requires
            old(self).well_formed(),
            node.0 < old(self)@.nodes.len(),
        ensures
            final(self).well_formed(),
            final(self)@.parents[node.0 as int] is None,
            final(self)@.children[node.0 as int].len() == 0,
            deleted(old(self)@, final(self)@, node.0 as nat),
            final(self).template() == old(self).template(),
            final(self).callback() == old(self).callback(),
    {
        let ghost start = self@;
        self.detach(node);
        let ghost mid = self@;
        self.delete_under(node);
        proof {
            let n = node.0 as nat;
            assert forall|a: int| 0 <= a < start.parents.len() implies (#[trigger] mid.parents[a] is None || mid.parents[a] == start.parents[a]) by {}
            assert forall|x: nat| x < start.nodes.len() && under(start, x, n) implies #[trigger] unlinked(self@, x) by {
                let k = choose|k: nat| #[trigger] ancestor(start, x, k) == Some(n);
                lemma_first_reach(start, x, n, k);
                let f = choose|f: nat| #[trigger] ancestor(start, x, f) == Some(n) && f <= k && forall|j: nat| j < f ==> ancestor(start, x, j) != Some(n);
                assert forall|j: nat| j < f implies (#[trigger] ancestor(start, x, j) matches Some(m) ==> start.parents[m as int] == mid.parents[m as int]) by {
                    if let Some(m) = ancestor(start, x, j) {
                        lemma_ancestor_valid(start, x, j);
                    }
                }
                lemma_chain_agree(start, mid, x, f);
                assert(ancestor(mid, x, f) == Some(n));
            }
            assert forall|x: nat| x < start.nodes.len() && !under(start, x, n) implies #[trigger] keeps_links(detach_spec(start, n), self@, x) by {
                if under(mid, x, n) {
                    let t = choose|t: nat| #[trigger] ancestor(mid, x, t) == Some(n);
                    lemma_chain_sub(mid, start, x, t);
                }
                assert(keeps_links(mid, self@, x));
            }
        }
    }
}

/// Detaching a node that was just attached gives back the document as it
/// was before.
pub proof fn law_detach_undoes_attach(d: DocumentV, p: nat, c: nat, i: int)
    requires
        wf(d),
        p < d.nodes.len(),
        c < d.nodes.len(),
        d.parents[c as int] is None,
        0 <= i <= d.children[p as int].len(),
    ensures
        detach_spec(attach_at(d, p, c, i), c) == d,
{
    let e = attach_at(d, p, c, i);
    let old_list = d.children[p as int];
    let new_list = old_list.insert(i, c);
    old_list.insert_ensures(i, c);
    assert(!old_list.contains(c)) by {
        if old_list.contains(c) {
            let j = choose|j: int| 0 <= j < old_list.len() && old_list[j] == c;
            assert(d.children[p as int][j] == c);
        }
    }
    new_list.index_of_first_ensures(c);
    let k = new_list.index_of_first(c)->0;
    assert(k == i) by {
        if k < i {
            assert(new_list[k] == old_list[k]);
        } else if k > i {
            assert(new_list[i] == c);
        }
    }
    assert(new_list.remove(i) =~= old_list) by {
        new_list.remove_ensures(i);
        assert forall|x: int| 0 <= x < old_list.len() implies new_list.remove(i)[x] == old_list[x] by {
            if x >= i {
                assert(new_list[x + 1] == old_list[x]);
            }
        }
    }
    assert(e.parents.update(c as int, None) =~= d.parents);
    assert(e.children.update(p as int, new_list.remove_value(c)) =~= d.children);
}

/// A node just attached has the parent it was attached to, and stands
/// where it was put among that parent's children.
pub proof fn law_attach_places(d: DocumentV, p: nat, c: nat, i: int)
    requires
        wf(d),
        p < d.nodes.len(),
        c < d.nodes.len(),
        d.parents[c as int] is None,
        0 <= i <= d.children[p as int].len(),
    ensures
        attach_at(d, p, c, i).parents[c as int] == Some(p),
        attach_at(d, p, c, i).children[p as int][i] == c,
        attach_at(d, p, c, i).children[p as int].len() == d.children[p as int].len() + 1,
{
    d.children[p as int].insert_ensures(i, c);
}

/// The node registered under an identifier is the one found under it.
pub proof fn law_register_then_get(ids: Seq<(Seq<char>, nat)>, k: Seq<char>, v: nat)
    ensures
        lookup(insert_entry(ids, k, v), k) == Some(v),
{
    lemma_find_key(ids, k);
    let e = insert_entry(ids, k, v);
    lemma_find_key(e, k);
    match find_key(ids, k) {
        Some(i) => {
            assert(e[i].0 == k);
            match find_key(e, k) {
                Some(j) => {
                    if j < i {
                        assert(e[j] == ids[j]);
                    } else if j > i {
                        assert(e[i].0 == k);
                    }
                },
                None => {
                    assert(e[i].0 == k);
                },
            }
        },
        None => {
            assert(e[ids.len() as int].0 == k);
            match find_key(e, k) {
                Some(j) => {
                    if j < ids.len() {
                        assert(e[j] == ids[j]);
                    }
                },
                None => {},
            }
        },
    }
}


// ---------------------------------------------------------------------------
// Attaching a whole document under a node.

/// Where node `k` of an attached document lands: after the `base` nodes
/// already there, in order, the attached document's root left out.
pub open spec fn shift(root: nat, base: nat, k: nat) -> nat {
    if k < root { base + k } else { (base + k - 1) as nat }
}

/// The node of the attached document that lands at `base + i`.
pub open spec fn unshift(root: nat, i: nat) -> nat {
    if i < root { i } else { i + 1 }
}

/// How many of the first `k` nodes of an attached document are copied: all
/// but its root.
pub open spec fn copied(k: nat, root: nat) -> nat {
    if k <= root { k } else { (k - 1) as nat }
}

/// Registering the identifiers of an attached document where their nodes
/// land keeps every identifier naming a node.
proof fn lemma_landed_ids_in(ids: Seq<(Seq<char>, nat)>, e: DocumentV, base: nat, parent: nat, k: nat, len: nat)
    requires
        forall|i: int| 0 <= i < ids.len() ==> #[trigger] ids[i].1 < len,
        forall|i: int| 0 <= i < e.ids.len() ==> #[trigger] e.ids[i].1 < e.nodes.len(),
        k <= e.ids.len(),
        e.root < e.nodes.len(),
        parent < base,
        base + e.nodes.len() - 1 <= len,
    ensures
        forall|i: int| 0 <= i < landed_ids(ids, e, base, parent, k).len() ==> #[trigger] landed_ids(ids, e, base, parent, k)[i].1 < len,
    decreases k,
{
    if k > 0 {
        lemma_landed_ids_in(ids, e, base, parent, (k - 1) as nat, len);
        let prev = landed_ids(ids, e, base, parent, (k - 1) as nat);
        let v = landed_node(e.root, base, parent, e.ids[k - 1].1);
        assert(e.ids[k - 1].1 < e.nodes.len());
        assert(v < len);
        lemma_find_key(prev, e.ids[k - 1].0);
        let r = insert_entry(prev, e.ids[k - 1].0, v);
        assert forall|i: int| 0 <= i < r.len() implies #[trigger] r[i].1 < len by {
            match find_key(prev, e.ids[k - 1].0) {
                Some(j) => { if i != j { assert(r[i] == prev[i]); } },
                None => { if i < prev.len() { assert(r[i] == prev[i]); } },
            }
        }
    }
}

/// Nodes of the attached document, where they land.
pub open spec fn shift_all(root: nat, base: nat, s: Seq<nat>) -> Seq<nat> {
    s.map_values(|k: nat| shift(root, base, k))
}

/// The parent of a landed node: `parent` for the children of the attached
/// root, the landed parent otherwise.
pub open spec fn landed_parent(root: nat, base: nat, parent: nat, q: Option<nat>) -> Option<nat> {
    match q {
        None => None,
        Some(x) => if x == root { Some(parent) } else { Some(shift(root, base, x)) },
    }
}

/// Where an identifier of the attached document points once it lands.
pub open spec fn landed_node(root: nat, base: nat, parent: nat, x: nat) -> nat {
    if x == root { parent } else { shift(root, base, x) }
}

/// The identifiers after registering the first `k` identifiers of `e` where
/// their nodes land.
pub open spec fn landed_ids(ids: Seq<(Seq<char>, nat)>, e: DocumentV, base: nat, parent: nat, k: nat) -> Seq<(Seq<char>, nat)>
    decreases k,
{
    if k == 0 {
        ids
    } else {
        insert_entry(landed_ids(ids, e, base, parent, (k - 1) as nat), e.ids[k - 1].0, landed_node(e.root, base, parent, e.ids[k - 1].1))
    }
}

/// `d` with the nodes of `e` but its root added after its own, the children
/// of the root of `e` appended to the children of `parent`, and the
/// identifiers of `e` registered where their nodes land.
pub open spec fn attach_doc_spec(d: DocumentV, parent: nat, e: DocumentV) -> DocumentV {
    let base = d.nodes.len();
    let n = (e.nodes.len() - 1) as nat;
    DocumentV {
        root: d.root,
        nodes: d.nodes + Seq::new(n, |i: int| e.nodes[unshift(e.root, i as nat) as int]),
        parents: d.parents + Seq::new(n, |i: int| landed_parent(e.root, base, parent, e.parents[unshift(e.root, i as nat) as int])),
        children: d.children.update(parent as int, d.children[parent as int] + shift_all(e.root, base, e.children[e.root as int]))
            + Seq::new(n, |i: int| shift_all(e.root, base, e.children[unshift(e.root, i as nat) as int])),
        ids: landed_ids(d.ids, e, base, parent, e.ids.len()),
    }
}

/// A node listed as a child in a well-formed document whose root has no
/// parent is not the root.
proof fn lemma_child_not_root(e: DocumentV, q: int, j: int)
    requires
        wf(e),
        e.parents[e.root as int] is None,
        0 <= q < e.nodes.len(),
        0 <= j < e.children[q].len(),
    ensures
        e.children[q][j] != e.root,
        e.children[q][j] < e.nodes.len(),
        e.parents[e.children[q][j] as int] == Some(q as nat),
{
}

/// Landing a list of children of one node keeps it free of duplicates.
proof fn lemma_shift_all_no_dup(e: DocumentV, base: nat, q: int)
    requires
        wf(e),
        e.parents[e.root as int] is None,
        0 <= q < e.nodes.len(),
    ensures
        shift_all(e.root, base, e.children[q]).no_duplicates(),
        forall|j: int| 0 <= j < e.children[q].len() ==> base <= #[trigger] shift_all(e.root, base, e.children[q])[j] < base + e.nodes.len() - 1,
{
    let s = e.children[q];
    let t = shift_all(e.root, base, s);
    assert forall|a: int, b: int| 0 <= a < t.len() && 0 <= b < t.len() && a != b implies t[a] != t[b] by {
        lemma_child_not_root(e, q, a);
        lemma_child_not_root(e, q, b);
        assert(s[a] != s[b]);
    }
    assert forall|j: int| 0 <= j < s.len() implies base <= #[trigger] t[j] < base + e.nodes.len() - 1 by {
        lemma_child_not_root(e, q, j);
    }
}

/// Attaching a well-formed document whose root has no parent under a node
/// of a well-formed document gives a well-formed document.
proof fn lemma_attach_document_wf(d: DocumentV, p: nat, e: DocumentV)
    requires
        wf(d),
        wf(e),
        p < d.nodes.len(),
        e.parents[e.root as int] is None,
        d.nodes.len() + e.nodes.len() <= u32::MAX,
    ensures
        wf(attach_doc_spec(d, p, e)),
{
    let r = attach_doc_spec(d, p, e);
    let base = d.nodes.len();
    let n = (e.nodes.len() - 1) as nat;
    let ext = shift_all(e.root, base, e.children[e.root as int]);
    assert(r.nodes.len() == base + n);
    assert(r.parents.len() == base + n);
    assert(r.children.len() == base + n);
    lemma_shift_all_no_dup(e, base, e.root as int);
    // Parents are listed by their children.
    assert forall|c: int| 0 <= c < r.nodes.len() implies (#[trigger] r.parents[c] matches Some(q) ==> q < r.nodes.len() && r.children[q as int].contains(c as nat)) by {
        if c < base {
            if let Some(q) = d.parents[c] {
                assert(d.children[q as int].contains(c as nat));
                if q == p {
                    let j = choose|j: int| 0 <= j < d.children[q as int].len() && d.children[q as int][j] == c as nat;
                    assert(r.children[q as int][j] == c as nat);
                }
            }
        } else {
            let i = (c - base) as nat;
            let c0 = unshift(e.root, i);
            assert(shift(e.root, base, c0) == c);
            if let Some(q0) = e.parents[c0 as int] {
                assert(e.children[q0 as int].contains(c0));
                let j = choose|j: int| 0 <= j < e.children[q0 as int].len() && e.children[q0 as int][j] == c0;
                if q0 == e.root {
                    let k = d.children[p as int].len() + j;
                    assert(r.children[p as int][k] == ext[j]);
                    assert(r.children[p as int].contains(c as nat));
                } else {
                    let q = shift(e.root, base, q0);
                    let jq = (q - base) as nat;
                    assert(unshift(e.root, jq) == q0);
                    assert(r.children[q as int] == shift_all(e.root, base, e.children[q0 as int]));
                    assert(r.children[q as int][j] == c as nat);
                }
            }
        }
    }
    // Children name their parent.
    assert forall|q: int, j: int| 0 <= q < r.nodes.len() && 0 <= j < r.children[q].len() implies
        (#[trigger] r.children[q][j]) < r.nodes.len() && r.parents[r.children[q][j] as int] == Some(q as nat) by {
        if q < base {
            if q == p && j >= d.children[q].len() {
                let j0 = j - d.children[q].len();
                assert(r.children[q][j] == ext[j0]);
                lemma_child_not_root(e, e.root as int, j0);
                let x = e.children[e.root as int][j0];
                let c = shift(e.root, base, x);
                assert(unshift(e.root, (c - base) as nat) == x);
            } else {
                assert(r.children[q][j] == d.children[q][j]);
            }
        } else {
            let q0 = unshift(e.root, (q - base) as nat);
            assert(r.children[q] == shift_all(e.root, base, e.children[q0 as int]));
            lemma_child_not_root(e, q0 as int, j);
            let x = e.children[q0 as int][j];
            let c = shift(e.root, base, x);
            assert(unshift(e.root, (c - base) as nat) == x);
            assert(q0 != e.root);
            assert(shift(e.root, base, q0) == q);
        }
    }
    // No child is listed twice.
    assert forall|q: int| 0 <= q < r.nodes.len() implies (#[trigger] r.children[q]).no_duplicates() by {
        if q < base {
            if q == p {
                let a = d.children[q];
                let s = a + ext;
                assert forall|x: int, y: int| 0 <= x < s.len() && 0 <= y < s.len() && x != y implies s[x] != s[y] by {
                    if x < a.len() && y >= a.len() {
                        assert(a[x] < base);
                        assert(ext[y - a.len()] >= base);
                    } else if x >= a.len() && y < a.len() {
                        assert(a[y] < base);
                        assert(ext[x - a.len()] >= base);
                    }
                }
                assert(r.children[q] == s);
            }
        } else {
            let q0 = unshift(e.root, (q - base) as nat);
            lemma_shift_all_no_dup(e, base, q0 as int);
        }
    }
}

impl Document {
    /// Attaches `doc` to this document, with `parent` as the parent of the
    /// new subtree: the nodes of `doc` but its root are added after those of
    /// this document, the children of its root become the last children of
    /// `parent`, and its identifiers are registered where their nodes land.
    pub fn attach_document(&mut self, parent: NodeRef, doc: Document)
        requires
            old(self).well_formed(),
            doc.well_formed(),
            parent.0 < old(self)@.nodes.len(),
            doc@.parents[doc@.root as int] is None,
            forall|i: int| 0 <= i < doc@.ids.len() ==> #[trigger] doc@.ids[i].1 < doc@.nodes.len(),
            old(self)@.nodes.len() + doc@.nodes.len() <= u32::MAX,
        ensures
            final(self)@ == attach_doc_spec(old(self)@, parent.0 as nat, doc@),
            final(self).well_formed(),
            final(self).template() == old(self).template(),
            final(self).callback() == old(self).callback(),
    {
        let ghost d = self@;
        let ghost e = doc@;
        let ghost target = attach_doc_spec(d, parent.0 as nat, e);
        let base = self.nodes.len();
        let root = doc.root.0;
        let n = doc.nodes.len();
        let mut k: usize = 0;
        while k < n
            invariant
                wf(e),
                e == doc@,
                d.nodes.len() == base,
                n == e.nodes.len(),
                root == e.root,
                e.parents[e.root as int] is None,
                base + n <= u32::MAX,
                parent.0 < base,
                k <= n,
                self.root == old(self).root,
                self.ids == old(self).ids,
                self.fragment_template == old(self).fragment_template,
                self.event_callback == old(self).event_callback,
                nodes_view(self.nodes@) == d.nodes + Seq::new(copied(k as nat, root as nat), |i: int| e.nodes[unshift(e.root, i as nat) as int]),
                parents_view(self.parents@) == d.parents + Seq::new(copied(k as nat, root as nat),
                    |i: int| landed_parent(e.root, base as nat, parent.0 as nat, e.parents[unshift(e.root, i as nat) as int])),
                children_view(self.children@) == d.children + Seq::new(copied(k as nat, root as nat),
                    |i: int| shift_all(e.root, base as nat, e.children[unshift(e.root, i as nat) as int])),
            decreases n - k,
        {
            if k != root as usize {
                let ghost i = copied(k as nat, root as nat);
                assert(unshift(e.root, i) == k);
                let ghost pn = nodes_view(self.nodes@);
                let ghost pp = parents_view(self.parents@);
                let ghost pch = children_view(self.children@);
                self.nodes.push(doc.nodes[k].copy());
                assert(e.nodes[k as int] == doc.nodes@[k as int]@);
                assert(e.parents[k as int] == opt_ref_view(doc.parents@[k as int]));
                let p = match doc.parents[k] {
                    None => None,
                    Some(q) => {
                        assert(q.0 < n);
                        if q.0 == root {
                            Some(parent)
                        } else if q.0 < root {
                            Some(NodeRef(base as u32 + q.0))
                        } else {
                            Some(NodeRef(base as u32 + (q.0 - 1)))
                        }
                    },
                };
                assert(opt_ref_view(p) == landed_parent(e.root, base as nat, parent.0 as nat, e.parents[k as int]));
                self.parents.push(p);
                let ch = &doc.children[k];
                let mut landed: Vec<NodeRef> = Vec::new();
                let mut j: usize = 0;
                while j < ch.len()
                    invariant
                        wf(e),
                        e == doc@,
                        k < n,
                        n == e.nodes.len(),
                        root == e.root,
                        e.parents[e.root as int] is None,
                        base + n <= u32::MAX,
                        refs_view(ch@) == e.children[k as int],
                        j <= ch.len(),
                        refs_view(landed@) == shift_all(e.root, base as nat, e.children[k as int].take(j as int)),
                    decreases ch.len() - j,
                {
                    let c = ch[j];
                    assert(e.children[k as int][j as int] == c.0 as nat);
                    assert(c.0 < n);
                    assert(c.0 != root);
                    let m = if c.0 < root { base as u32 + c.0 } else { base as u32 + (c.0 - 1) };
                    assert(m as nat == shift(e.root, base as nat, c.0 as nat));
                    let ghost t0 = e.children[k as int].take(j as int);
                    assert(e.children[k as int].take(j + 1) =~= t0.push(c.0 as nat));
                    assert(shift_all(e.root, base as nat, t0.push(c.0 as nat)) =~= shift_all(e.root, base as nat, t0).push(m as nat));
                    let ghost l0 = landed@;
                    landed.push(NodeRef(m));
                    assert(refs_view(landed@) =~= refs_view(l0).push(m as nat));
                    assert(refs_view(landed@) =~= shift_all(e.root, base as nat, e.children[k as int].take(j + 1)));
                    j = j + 1;
                }
                assert(e.children[k as int].take(ch.len() as int) =~= e.children[k as int]);
                self.children.push(landed);
                let ghost fnodes = |x: int| e.nodes[unshift(e.root, x as nat) as int];
                let ghost fparents = |x: int| landed_parent(e.root, base as nat, parent.0 as nat, e.parents[unshift(e.root, x as nat) as int]);
                let ghost fchildren = |x: int| shift_all(e.root, base as nat, e.children[unshift(e.root, x as nat) as int]);
                assert(nodes_view(self.nodes@) =~= pn.push(e.nodes[k as int]));
                assert(parents_view(self.parents@) =~= pp.push(fparents(i as int)));
                assert(children_view(self.children@) =~= pch.push(fchildren(i as int)));
                assert(Seq::new((i + 1) as nat, fnodes) =~= Seq::new(i, fnodes).push(fnodes(i as int)));
                assert(Seq::new((i + 1) as nat, fparents) =~= Seq::new(i, fparents).push(fparents(i as int)));
                assert(Seq::new((i + 1) as nat, fchildren) =~= Seq::new(i, fchildren).push(fchildren(i as int)));
                assert(d.nodes + Seq::new((i + 1) as nat, fnodes) =~= (d.nodes + Seq::new(i, fnodes)).push(fnodes(i as int)));
                assert(d.parents + Seq::new((i + 1) as nat, fparents) =~= (d.parents + Seq::new(i, fparents)).push(fparents(i as int)));
                assert(d.children + Seq::new((i + 1) as nat, fchildren) =~= (d.children + Seq::new(i, fchildren)).push(fchildren(i as int)));
            }
            k = k + 1;
        }
        // The children of the attached root follow those of `parent`.
        let ghost before = children_view(self.children@);
        let mut pc: Vec<NodeRef> = Vec::new();
        let pi = parent.0 as usize;
        self.children.set_and_swap(pi, &mut pc);
        let rc = &doc.children[root as usize];
        let ghost pc0 = refs_view(pc@);
        assert(pc0 == before[pi as int]);
        assert(before[pi as int] == d.children[pi as int]);
        assert(refs_view(rc@) == e.children[e.root as int]);
        let mut j: usize = 0;
        while j < rc.len()
            invariant
                wf(e),
                e == doc@,
                n == e.nodes.len(),
                root == e.root,
                e.parents[e.root as int] is None,
                base + n <= u32::MAX,
                refs_view(rc@) == e.children[e.root as int],
                j <= rc.len(),
                refs_view(pc@) == pc0 + shift_all(e.root, base as nat, e.children[e.root as int].take(j as int)),
            decreases rc.len() - j,
        {
            let c = rc[j];
            assert(e.children[e.root as int][j as int] == c.0 as nat);
            assert(c.0 < n);
            assert(c.0 != root);
            let m = if c.0 < root { base as u32 + c.0 } else { base as u32 + (c.0 - 1) };
            assert(m as nat == shift(e.root, base as nat, c.0 as nat));
            let ghost t0 = e.children[e.root as int].take(j as int);
            assert(e.children[e.root as int].take(j + 1) =~= t0.push(c.0 as nat));
            assert(shift_all(e.root, base as nat, t0.push(c.0 as nat)) =~= shift_all(e.root, base as nat, t0).push(m as nat));
            let ghost l0 = pc@;
            pc.push(NodeRef(m));
            assert(refs_view(pc@) =~= refs_view(l0).push(m as nat));
            assert(refs_view(pc@) =~= pc0 + shift_all(e.root, base as nat, e.children[e.root as int].take(j + 1)));
            j = j + 1;
        }
        assert(e.children[e.root as int].take(rc.len() as int) =~= e.children[e.root as int]);
        let ghost mid = self.children@;
        self.children.set(pi, pc);
        assert(copied(n as nat, root as nat) == e.nodes.len() - 1);
        assert forall|q: int| 0 <= q < target.children.len() implies #[trigger] children_view(self.children@)[q] == target.children[q] by {
            if q == pi as int {
                assert(children_view(self.children@)[q] == refs_view(pc@));
            } else if q < base {
                assert(children_view(self.children@)[q] == before[q]);
            } else {
                assert(children_view(self.children@)[q] == before[q]);
            }
        }
        assert(children_view(self.children@) =~= target.children);
        assert(nodes_view(self.nodes@) =~= target.nodes);
        assert(parents_view(self.parents@) =~= target.parents);
        // The identifiers, where their nodes land.
        let mut t: usize = 0;
        while t < doc.ids.len()
            invariant
                wf(e),
                e == doc@,
                root == e.root,
                base + n <= u32::MAX,
                n == e.nodes.len(),
                parent.0 < base,
                t <= e.ids.len(),
                ids_view(doc.ids@) == e.ids,
                forall|i: int| 0 <= i < e.ids.len() ==> #[trigger] e.ids[i].1 < e.nodes.len(),
                self@ == (DocumentV { ids: landed_ids(d.ids, e, base as nat, parent.0 as nat, t as nat), ..target }),
                self.template() == old(self).template(),
                self.callback() == old(self).callback(),
            decreases doc.ids.len() - t,
        {
            let x = doc.ids[t].1.0;
            assert(e.ids[t as int].1 == x as nat);
            let landed = if x == root {
                parent
            } else if x < root {
                NodeRef(base as u32 + x)
            } else {
                NodeRef(base as u32 + x - 1)
            };
            self.register_id(landed, doc.ids[t].0.clone());
            t = t + 1;
        }
        proof {
            lemma_attach_document_wf(d, parent.0 as nat, e);
            lemma_landed_ids_in(d.ids, e, d.nodes.len(), parent.0 as nat, e.ids.len(), target.nodes.len());
        }
    }
}

} // verus!

//! The morph: the patches that turn one document into another, found by
//! walking both documents in document order side by side.
use vstd::prelude::*;
use crate::dom::document::{Document, DocumentV, wf, refs_view, opt_ref_view, ids_in};
use crate::dom::node::{NodeRef, NodeData, NodeDataV, Element, node_attrs, id_of};
use crate::dom::attribute::{Attribute, AttributeV, AttributeNameV, attrs_view, opt_str_eq};
use crate::diff::fragment::model::{lookup, find_key, lemma_find_key};
use super::patch::Patch;
use super::traversal::MoveTo;

verus! {

/// A position reached by a walk in document order: the node, and the
/// position among its siblings of the node and of each ancestor below the
/// node where the walk began, outermost first.
struct Cursor {
    path: Vec<usize>,
    node: NodeRef,
}

/// A cursor fits `d`: its node is a node of `d`, and every position can be
/// stepped past.
spec fn cur_ok(d: DocumentV, c: Cursor) -> bool {
    &&& c.node.0 < d.nodes.len()
    &&& forall|i: int| 0 <= i < c.path@.len() ==> #[trigger] c.path@[i] < usize::MAX
}

/// Where a walk goes once it leaves the node at the end of `path` for good,
/// `parent` being that node's parent: to the next sibling, or up and on.
pub open spec fn climb(d: DocumentV, path: Seq<usize>, parent: nat) -> Option<(Seq<usize>, nat)>
    decreases path.len(),
{
    if path.len() == 0 {
        None
    } else {
        let index = path.last() + 1;
        if parent < d.nodes.len() && index < d.children[parent as int].len() {
            Some((path.update(path.len() - 1, index as usize), d.children[parent as int][index]))
        } else if path.len() <= 1 {
            None
        } else {
            match d.parents[parent as int] {
                Some(q) => climb(d, path.drop_last(), q),
                None => None,
            }
        }
    }
}

/// The next position of a walk at `node` with `path`: the first child,
/// unless children are skipped or there are none, else as [climb] goes.
pub open spec fn advance_spec(d: DocumentV, path: Seq<usize>, node: nat, skip: bool) -> Option<(Seq<usize>, nat)> {
    if !skip && d.children[node as int].len() > 0 {
        Some((path.push(0), d.children[node as int][0]))
    } else {
        match d.parents[node as int] {
            Some(p) => climb(d, path, p),
            None => None,
        }
    }
}

/// The next sibling of node `n`: the child after it of its parent.
pub open spec fn next_sib(d: DocumentV, n: nat) -> Option<nat> {
    match d.parents[n as int] {
        None => None,
        Some(p) => {
            let k = d.children[p as int];
            if exists|i: int| 0 <= i < k.len() - 1 && k[i] == n {
                Some(k[(choose|i: int| 0 <= i < k.len() - 1 && k[i] == n) + 1])
            } else {
                None
            }
        },
    }
}

/// The positions of a walk that stays within the subtree of one node.
fn empty_path() -> (r: Vec<usize>)
    ensures
        r@ == Seq::<usize>::empty(),
{
    Vec::new()
}

impl Cursor {
    /// A walk that begins at `node`.
    fn at(node: NodeRef) -> (r: Cursor)
        ensures
            r.path@ == Seq::<usize>::empty(),
            r.node == node,
    {
        Cursor { path: empty_path(), node }
    }

    /// A copy of the cursor.
    fn copy(&self) -> (r: Cursor)
        ensures
            r.path@ == self.path@,
            r.node == self.node,
    {
        let mut path: Vec<usize> = Vec::new();
        let mut i: usize = 0;
        while i < self.path.len()
            invariant
                i <= self.path@.len(),
                path@ == self.path@.take(i as int),
            decreases self.path@.len() - i,
        {
            path.push(self.path[i]);
            assert(self.path@.take(i + 1) =~= self.path@.take(i as int).push(self.path@[i as int]));
            i = i + 1;
        }
        assert(self.path@.take(self.path@.len() as int) =~= self.path@);
        Cursor { path, node: self.node }
    }

    /// How many levels below its start the walk is.
    fn depth(&self) -> (r: usize)
        ensures
            r == self.path@.len(),
    {
        self.path.len()
    }

    /// A walk over the descendants of the current node.
    fn fork(&self) -> (r: Cursor)
        ensures
            r.path@ == Seq::<usize>::empty(),
            r.node == self.node,
    {
        Cursor::at(self.node)
    }

    /// A walk at the current node over the descendants of its ancestor
    /// `ancestor_depth` levels below the start, when the walk is that deep.
    fn fork_relative(&self, ancestor_depth: usize) -> (r: Cursor)
        ensures
            r.node == self.node,
            ancestor_depth <= self.path@.len() ==> r.path@ == self.path@.subrange(ancestor_depth as int, self.path@.len() as int),
            ancestor_depth > self.path@.len() ==> r.path@ == Seq::<usize>::empty(),
            (forall|i: int| 0 <= i < self.path@.len() ==> #[trigger] self.path@[i] < usize::MAX)
                ==> (forall|i: int| 0 <= i < r.path@.len() ==> #[trigger] r.path@[i] < usize::MAX),
            cv(r) == fork_rel_v(cv(*self), ancestor_depth as nat),
    {
        let mut path: Vec<usize> = Vec::new();
        let mut i: usize = ancestor_depth;
        if ancestor_depth <= self.path.len() {
            while i < self.path.len()
                invariant
                    ancestor_depth <= i <= self.path@.len(),
                    path@ == self.path@.subrange(ancestor_depth as int, i as int),
                decreases self.path@.len() - i,
            {
                path.push(self.path[i]);
                assert(self.path@.subrange(ancestor_depth as int, i + 1) =~= self.path@.subrange(ancestor_depth as int, i as int).push(self.path@[i as int]));
                i = i + 1;
            }
            assert forall|k: int| 0 <= k < path@.len() implies path@[k] == self.path@[ancestor_depth + k] by {}
        }
        assert(ancestor_depth > self.path@.len() ==> path@ =~= Seq::<usize>::empty());
        Cursor { path, node: self.node }
    }

    /// Moves to the parent of the current node, when the walk is below its
    /// start and the node has a parent.
    fn move_to_parent(&mut self, d: &Document) -> (r: bool)
        requires
            wf(d@),
            cur_ok(d@, *old(self)),
        ensures
            cur_ok(d@, *final(self)),
            r == (old(self).path@.len() > 0 && d@.parents[old(self).node.0 as int] is Some),
            r ==> final(self).path@ == old(self).path@.drop_last()
                && d@.parents[old(self).node.0 as int] == Some(final(self).node.0 as nat),
            !r ==> final(self).path@ == old(self).path@ && final(self).node == old(self).node,
    {
        if self.path.len() > 0 {
            match d.parent(self.node) {
                Some(p) => {
                    self.node = p;
                    self.path.pop();
                    true
                },
                None => false,
            }
        } else {
            false
        }
    }

    /// A walk over the descendants of the next sibling of the current node.
    fn next_sibling(&self, d: &Document) -> (r: Option<Cursor>)
        requires
            wf(d@),
            cur_ok(d@, *self),
        ensures
            match next_sib(d@, self.node.0 as nat) {
                Some(n) => r matches Some(c) && c.path@ == Seq::<usize>::empty() && c.node.0 == n && n < d@.nodes.len(),
                None => r is None,
            },
    {
        let ghost n0 = self.node.0 as nat;
        let parent = match d.parent(self.node) {
            Some(p) => p,
            None => return None,
        };
        let siblings = d.children(parent);
        let mut i: usize = 0;
        while i < siblings.len()
            invariant
                i <= siblings@.len(),
                refs_view(siblings@) == d@.children[parent.0 as int],
                parent.0 < d@.nodes.len(),
                d@.parents[n0 as int] == Some(parent.0 as nat),
                n0 == self.node.0,
                wf(d@),
                forall|j: int| 0 <= j < i ==> d@.children[parent.0 as int][j] != n0,
            decreases siblings@.len() - i,
        {
            let ghost k = d@.children[parent.0 as int];
            assert(k[i as int] == siblings@[i as int].0);
            if siblings[i].0 == self.node.0 {
                proof {
                    assert(k.no_duplicates());
                    assert forall|j: int| 0 <= j < k.len() && k[j] == n0 implies j == i by {}
                }
                if i + 1 < siblings.len() {
                    let n = siblings[i + 1];
                    assert(refs_view(siblings@)[i + 1] == n.0);
                    assert(0 <= i < k.len() - 1 && k[i as int] == n0);
                    return Some(Cursor::at(n));
                }
                return None;
            }
            i = i + 1;
        }
        None
    }

    /// Advances the walk in document order, into the first child unless
    /// children are skipped; false, with the cursor unchanged, at the end.
    fn advance(&mut self, d: &Document, skip_children: bool) -> (r: bool)
        requires
            wf(d@),
            cur_ok(d@, *old(self)),
        ensures
            cur_ok(d@, *final(self)),
            match advance_spec(d@, old(self).path@, old(self).node.0 as nat, skip_children) {
                Some((p, n)) => r && final(self).path@ == p && final(self).node.0 == n,
                None => !r && final(self).path@ == old(self).path@ && final(self).node == old(self).node,
            },
    {
        let ghost d0 = d@;
        if !skip_children {
            let ch = d.children(self.node);
            if ch.len() > 0 {
                let first = ch[0];
                assert(refs_view(ch@)[0] == first.0);
                self.path.push(0);
                self.node = first;
                return true;
            }
        }
        let parent0 = match d.parent(self.node) {
            Some(p) => p,
            None => return false,
        };
        let mut parent = parent0;
        let mut path = self.copy().path;
        loop
            invariant
                wf(d0),
                d0 == d@,
                parent.0 < d0.nodes.len(),
                path@.len() <= self.path@.len(),
                forall|i: int| 0 <= i < path@.len() ==> #[trigger] path@[i] < usize::MAX,
                climb(d0, path@, parent.0 as nat) == climb(d0, self.path@, parent0.0 as nat),
                cur_ok(d0, *self),
                *self == *old(self),
                d0.parents[old(self).node.0 as int] == Some(parent0.0 as nat),
                !(!skip_children && d0.children[old(self).node.0 as int].len() > 0),
            decreases path@.len(),
        {
            if path.len() == 0 {
                return false;
            }
            let last = path[path.len() - 1];
            let index = last + 1;
            let ch = d.children(parent);
            if index < ch.len() {
                let n = ch[index];
                assert(refs_view(ch@)[index as int] == n.0);
                let ghost before = path@;
                path.set(path.len() - 1, index);
                assert(path@ == before.update(before.len() - 1, index));
                proof {
                    assert forall|i: int| 0 <= i < path@.len() implies #[trigger] path@[i] < usize::MAX by {
                        if i != path@.len() - 1 {
                            assert(path@[i] == before[i]);
                        }
                    }
                }
                self.path = path;
                self.node = n;
                return true;
            } else {
                if path.len() <= 1 {
                    return false;
                }
                let ghost before = path@;
                path.pop();
                assert(path@ == before.drop_last());
                parent = match d.parent(parent) {
                    Some(p) => p,
                    None => return false,
                };
            }
        }
    }
}

/// `v` is the data of some node of `t`.
pub open spec fn in_doc(t: DocumentV, v: NodeDataV) -> bool {
    exists|k: int| 0 <= k < t.nodes.len() && #[trigger] t.nodes[k] == v
}

/// `a` are the attributes of some node of `t`.
pub open spec fn attrs_in_doc(t: DocumentV, a: Seq<AttributeV>) -> bool {
    exists|k: int| 0 <= k < t.nodes.len() && node_attrs(#[trigger] t.nodes[k]) == a
}

/// A patch of the kinds a morph from `f` to `t` emits: it names nodes of
/// `f` only, and carries data of nodes of `t` only.
pub open spec fn patch_in(p: Patch, f: DocumentV, t: DocumentV) -> bool {
    match p {
        Patch::Detach { node } => node.0 < f.nodes.len(),
        Patch::Remove { node } => node.0 < f.nodes.len(),
        Patch::Push(node) => node.0 < f.nodes.len(),
        Patch::PrependBefore { before } => before.0 < f.nodes.len(),
        Patch::InsertBefore { before, node } => before.0 < f.nodes.len() && in_doc(t, node@),
        Patch::Replace { node, replacement } => node.0 < f.nodes.len() && in_doc(t, replacement@),
        Patch::SetAttributes { node, attributes } => node.0 < f.nodes.len() && attrs_in_doc(t, attrs_view(attributes@)),
        Patch::Create { node } => in_doc(t, node@),
        Patch::CreateAndMoveTo { node } => in_doc(t, node@),
        Patch::Attach => true,
        Patch::PushCurrent => true,
        Patch::Pop => true,
        Patch::Move(MoveTo::ReverseChild(n)) => n == 0,
        _ => false,
    }
}

/// The node registered under `id` in a document whose identifiers name
/// its nodes.
fn node_by_id(d: &Document, id: &String) -> (r: Option<NodeRef>)
    requires
        ids_in(d@),
    ensures
        opt_ref_view(r) == lookup(d@.ids, id@),
        r matches Some(n) ==> n.0 < d@.nodes.len(),
{
    let r = d.get_by_id(id.as_str());
    proof {
        lemma_find_key(d@.ids, id@);
        if let Some(i) = find_key(d@.ids, id@) {
            assert(d@.ids[i].1 < d@.nodes.len());
        }
    }
    r
}

/// Whether two lists of attributes are equal.
pub(crate) fn same_attributes(a: &Vec<Attribute>, b: &Vec<Attribute>) -> (r: bool)
    ensures
        r == (attrs_view(a@) == attrs_view(b@)),
{
    if a.len() != b.len() {
        assert(attrs_view(a@).len() != attrs_view(b@).len());
        return false;
    }
    let mut i: usize = 0;
    while i < a.len()
        invariant
            i <= a@.len(),
            a@.len() == b@.len(),
            forall|j: int| 0 <= j < i ==> #[trigger] attrs_view(a@)[j] == attrs_view(b@)[j],
        decreases a@.len() - i,
    {
        let x = &a[i];
        let y = &b[i];
        if !(x.name.same(&y.name) && opt_str_eq(&x.value, &y.value)) {
            assert(attrs_view(a@)[i as int] != attrs_view(b@)[i as int]);
            return false;
        }
        assert(attrs_view(a@)[i as int] == attrs_view(b@)[i as int]);
        i = i + 1;
    }
    assert(attrs_view(a@) =~= attrs_view(b@));
    true
}

/// Whether one node can be morphed into the other in place: elements of
/// the same name and `id`, two leaves, or two roots.
pub open spec fn compatible_spec(a: NodeDataV, b: NodeDataV) -> bool {
    match (a, b) {
        (NodeDataV::Element(f), NodeDataV::Element(t)) => t.0 == f.0 && id_of(t.1) == id_of(f.1),
        (NodeDataV::Leaf(_), NodeDataV::Leaf(_)) => true,
        (NodeDataV::Root, NodeDataV::Root) => true,
        _ => false,
    }
}

/// Whether one node can be morphed into the other in place.
fn compatible(a: &NodeData, b: &NodeData) -> (r: bool)
    ensures
        r == compatible_spec(a@, b@),
{
    match (a, b) {
        (NodeData::NodeElement { element: from }, NodeData::NodeElement { element: to }) => {
            to.name.same(&from.name) && opt_str_eq(&to.id(), &from.id())
        },
        (NodeData::Leaf { .. }, NodeData::Leaf { .. }) => true,
        (NodeData::Root, NodeData::Root) => true,
        _ => false,
    }
}

/// A step of work left for the morph.
enum Op {
    /// Finished work, to be dropped.
    Continue,
    /// Detach the keyed descendants of `node` that the new document keeps,
    /// then remove `node`; `cursor` walks the descendants.
    RemoveNode { node: NodeRef, cursor: Cursor, to: Cursor },
    /// Remove `from` and the nodes after it.
    RemoveNodes { from: Cursor, to: Cursor },
    /// Append the node at `cursor` of the new document to the parent on
    /// the stack.
    Append { from: Cursor, cursor: Cursor },
    /// Append the new nodes at `to` at `insertion_point`.
    AppendNodes { insertion_point: Cursor, to: Cursor },
    /// Append the node at `cursor` and its following siblings to the
    /// parent on the stack.
    AppendSiblings { from: Cursor, cursor: Cursor },
    /// Insert the node at `cursor` before `from`, with its descendants.
    InsertBefore { from: Cursor, cursor: Cursor },
    /// Detach `node` unless it was detached already.
    MaybeDetach { node: NodeRef },
    /// Morph the old document from the first cursor on into the new
    /// document from the second on.
    Morph(Cursor, Cursor),
    /// Emit a patch.
    Patch(Patch),
}

/// An op fits the old document `f` and the new document `t`.
spec fn op_ok(op: Op, f: DocumentV, t: DocumentV) -> bool {
    match op {
        Op::Continue => true,
        Op::RemoveNode { node, cursor, to } => node.0 < f.nodes.len() && cur_ok(f, cursor) && cur_ok(t, to),
        Op::RemoveNodes { from, to } => cur_ok(f, from) && cur_ok(t, to),
        Op::Append { from, cursor } => cur_ok(f, from) && cur_ok(t, cursor),
        Op::AppendNodes { insertion_point, to } => cur_ok(f, insertion_point) && cur_ok(t, to),
        Op::AppendSiblings { from, cursor } => cur_ok(f, from) && cur_ok(t, cursor),
        Op::InsertBefore { from, cursor } => cur_ok(f, from) && cur_ok(t, cursor),
        Op::MaybeDetach { node } => node.0 < f.nodes.len(),
        Op::Morph(a, b) => cur_ok(f, a) && cur_ok(t, b),
        Op::Patch(p) => patch_in(p, f, t),
    }
}

/// Two cursors at the same position.
spec fn same_cur(a: Cursor, b: Cursor) -> bool {
    a.path@ == b.path@ && a.node == b.node
}

/// The ops of a morph of a document into an equal one: finished work, or
/// the morph itself with both cursors at the same position.
spec fn twin_op(op: Op) -> bool {
    match op {
        Op::Continue => true,
        Op::Morph(a, b) => same_cur(a, b),
        _ => false,
    }
}

/// Which cursors a morph step advances.
#[derive(Clone, Copy)]
pub enum Advance {
    BothCursors,
    To,
    From,
}

/// The value of a cursor: its positions and its node.
pub struct CurV {
    pub path: Seq<usize>,
    pub node: nat,
}

/// The value of a cursor.
spec fn cv(c: Cursor) -> CurV {
    CurV { path: c.path@, node: c.node.0 as nat }
}

/// A walk that begins at node `n`.
pub open spec fn at_v(n: nat) -> CurV {
    CurV { path: Seq::empty(), node: n }
}

/// Where advancing a cursor goes, as [advance_spec] says.
pub open spec fn adv_v(d: DocumentV, c: CurV, skip: bool) -> Option<CurV> {
    match advance_spec(d, c.path, c.node, skip) {
        Some((p, n)) => Some(CurV { path: p, node: n }),
        None => None,
    }
}

/// A cursor moved to the parent of its node, when it is below its start
/// and the node has a parent.
pub open spec fn up_v(d: DocumentV, c: CurV) -> Option<CurV> {
    if c.path.len() > 0 && d.parents[c.node as int] is Some {
        Some(CurV { path: c.path.drop_last(), node: d.parents[c.node as int]->0 })
    } else {
        None
    }
}

/// A walk over the descendants of the next sibling of a cursor's node.
pub open spec fn sib_v(d: DocumentV, c: CurV) -> Option<CurV> {
    match next_sib(d, c.node) {
        Some(n) => Some(at_v(n)),
        None => None,
    }
}

/// A cursor at the same node over the descendants of its ancestor `k`
/// levels below the start, when it is that deep.
pub open spec fn fork_rel_v(c: CurV, k: nat) -> CurV {
    if k <= c.path.len() {
        CurV { path: c.path.subrange(k as int, c.path.len() as int), node: c.node }
    } else {
        at_v(c.node)
    }
}

/// A cursor moved up until it is at most `depth` deep, or can go no higher.
pub open spec fn up_to_v(d: DocumentV, c: CurV, depth: nat) -> CurV
    decreases c.path.len(),
{
    if c.path.len() <= depth {
        c
    } else if d.parents[c.node as int] is Some {
        up_to_v(d, CurV { path: c.path.drop_last(), node: d.parents[c.node as int]->0 }, depth)
    } else {
        c
    }
}

/// A cursor moved up until it is less than `depth` deep, or can go no
/// higher.
pub open spec fn up_below_v(d: DocumentV, c: CurV, depth: nat) -> CurV
    decreases c.path.len(),
{
    if c.path.len() < depth {
        c
    } else if c.path.len() > 0 && d.parents[c.node as int] is Some {
        up_below_v(d, CurV { path: c.path.drop_last(), node: d.parents[c.node as int]->0 }, depth)
    } else {
        c
    }
}

/// Where appending new nodes goes on once the siblings at `c` are done: up
/// a level and on to the next node there, or, when it cannot go up, nowhere.
pub open spec fn climb_out_v(d: DocumentV, c: CurV) -> Option<CurV>
    decreases c.path.len(),
{
    if c.path.len() > 0 && d.parents[c.node as int] is Some {
        let up = CurV { path: c.path.drop_last(), node: d.parents[c.node as int]->0 };
        match adv_v(d, up, true) {
            Some(n) => Some(n),
            None => climb_out_v(d, up),
        }
    } else {
        None
    }
}

/// The value of a patch a morph emits: the nodes it names and the data it
/// carries, by value.
pub enum PatchV {
    Detach(nat),
    Remove(nat),
    Push(nat),
    PrependBefore(nat),
    InsertBefore(nat, NodeDataV),
    Replace(nat, NodeDataV),
    SetAttributes(nat, Seq<AttributeV>),
    Create(NodeDataV),
    CreateAndMoveTo(NodeDataV),
    Attach,
    PushCurrent,
    Pop,
    Move(MoveTo),
    /// A kind of patch that a morph does not emit.
    Other,
}

/// The value of a patch.
pub open spec fn patch_v(p: Patch) -> PatchV {
    match p {
        Patch::Detach { node } => PatchV::Detach(node.0 as nat),
        Patch::Remove { node } => PatchV::Remove(node.0 as nat),
        Patch::Push(node) => PatchV::Push(node.0 as nat),
        Patch::PrependBefore { before } => PatchV::PrependBefore(before.0 as nat),
        Patch::InsertBefore { before, node } => PatchV::InsertBefore(before.0 as nat, node@),
        Patch::Replace { node, replacement } => PatchV::Replace(node.0 as nat, replacement@),
        Patch::SetAttributes { node, attributes } => PatchV::SetAttributes(node.0 as nat, attrs_view(attributes@)),
        Patch::Create { node } => PatchV::Create(node@),
        Patch::CreateAndMoveTo { node } => PatchV::CreateAndMoveTo(node@),
        Patch::Attach => PatchV::Attach,
        Patch::PushCurrent => PatchV::PushCurrent,
        Patch::Pop => PatchV::Pop,
        Patch::Move(m) => PatchV::Move(m),
        _ => PatchV::Other,
    }
}

/// The value of an op.
pub enum OpV {
    Continue,
    RemoveNode { node: nat, cursor: CurV, to: CurV },
    RemoveNodes { from: CurV, to: CurV },
    Append { from: CurV, cursor: CurV },
    AppendNodes { insertion_point: CurV, to: CurV },
    AppendSiblings { from: CurV, cursor: CurV },
    InsertBefore { from: CurV, cursor: CurV },
    MaybeDetach { node: nat },
    Morph(CurV, CurV),
    Patch(PatchV),
}

/// The value of an op.
spec fn ov(op: Op) -> OpV {
    match op {
        Op::Continue => OpV::Continue,
        Op::RemoveNode { node, cursor, to } => OpV::RemoveNode { node: node.0 as nat, cursor: cv(cursor), to: cv(to) },
        Op::RemoveNodes { from, to } => OpV::RemoveNodes { from: cv(from), to: cv(to) },
        Op::Append { from, cursor } => OpV::Append { from: cv(from), cursor: cv(cursor) },
        Op::AppendNodes { insertion_point, to } => OpV::AppendNodes { insertion_point: cv(insertion_point), to: cv(to) },
        Op::AppendSiblings { from, cursor } => OpV::AppendSiblings { from: cv(from), cursor: cv(cursor) },
        Op::InsertBefore { from, cursor } => OpV::InsertBefore { from: cv(from), cursor: cv(cursor) },
        Op::MaybeDetach { node } => OpV::MaybeDetach { node: node.0 as nat },
        Op::Morph(a, b) => OpV::Morph(cv(a), cv(b)),
        Op::Patch(p) => OpV::Patch(patch_v(p)),
    }
}

/// The state of a morph: the stack and the queue of work, the nodes
/// detached so far, and the steps left.
#[verifier::ext_equal]
pub struct MorphV {
    pub stack: Seq<OpV>,
    pub queue: Seq<OpV>,
    pub detached: Seq<bool>,
    pub budget: nat,
}

/// `s` with `op` queued.
pub open spec fn enq(s: MorphV, op: OpV) -> MorphV {
    MorphV { queue: s.queue.push(op), ..s }
}

/// `s` with `op` pushed on the stack.
pub open spec fn push_v(s: MorphV, op: OpV) -> MorphV {
    MorphV { stack: s.stack.push(op), ..s }
}

/// `s` with `n` marked detached.
pub open spec fn mark_v(s: MorphV, n: nat) -> MorphV {
    MorphV { detached: s.detached.update(n as int, true), ..s }
}

/// What advancing a morph op as `a` says makes of it and of the state: the
/// op again with its cursors moved on, past detached nodes while steps are
/// left; the removal of the old nodes left, when only the old walk goes on;
/// the appending of the new nodes left, when only the new walk goes on, or
/// when the new walk went deeper (then queued, and the op goes on from the
/// next new node at the old depth, or removes the old nodes left);
/// finished work, when both walks are over.
pub open spec fn adv_op(f: DocumentV, t: DocumentV, s: MorphV, op: OpV, a: Advance, skip: bool) -> (OpV, MorphV)
    decreases s.budget,
{
    match op {
        OpV::Morph(from, to) => {
            let fa = match a {
                Advance::To => Some(from),
                _ => adv_v(f, from, skip),
            };
            let tb = match a {
                Advance::From => Some(to),
                _ => adv_v(t, to, skip),
            };
            let nf = match fa {
                Some(c) => c,
                None => from,
            };
            let nt = match tb {
                Some(c) => c,
                None => to,
            };
            if fa is Some && tb is Some {
                if nt.path.len() <= nf.path.len() {
                    if s.detached[nf.node as int] && s.budget > 0 {
                        adv_op(f, t, MorphV { budget: (s.budget - 1) as nat, ..s }, OpV::Morph(nf, nt), Advance::From, true)
                    } else {
                        (OpV::Morph(nf, nt), s)
                    }
                } else {
                    let depth = nf.path.len();
                    let s2 = enq(s, OpV::AppendNodes { insertion_point: fork_rel_v(from, depth), to: fork_rel_v(nt, depth) });
                    let t2 = up_to_v(t, nt, depth);
                    match adv_v(t, t2, true) {
                        None => (OpV::RemoveNodes { from: nf, to: t2 }, s2),
                        Some(t3) => (OpV::Morph(nf, t3), s2),
                    }
                }
            } else if fa is Some {
                (OpV::RemoveNodes { from: nf, to: nt }, s)
            } else if tb is Some {
                (OpV::AppendNodes { insertion_point: from, to: nt }, s)
            } else {
                (OpV::Continue, s)
            }
        },
        _ => (op, s),
    }
}

/// Advances a morph op and pushes what it becomes.
pub open spec fn aap_v(f: DocumentV, t: DocumentV, s: MorphV, from: CurV, to: CurV, a: Advance, skip: bool) -> MorphV {
    let (op, s2) = adv_op(f, t, s, OpV::Morph(from, to), a, skip);
    push_v(s2, op)
}

/// Whether the node at `c` is an element whose `id` is registered in `t`.
pub open spec fn kept_by_id(f: DocumentV, t: DocumentV, n: nat) -> bool {
    f.nodes[n as int] is Element && (id_of(node_attrs(f.nodes[n as int])) matches Some(id) && lookup(t.ids, id) is Some)
}

/// Decides [kept_by_id].
fn kept(fd: &Document, td: &Document, n: NodeRef) -> (r: bool)
    requires
        n.0 < fd@.nodes.len(),
    ensures
        r == kept_by_id(fd@, td@, n.0 as nat),
{
    match fd.get(n) {
        NodeData::NodeElement { element } => match element.id() {
            Some(id) => td.get_by_id(id.as_str()).is_some(),
            None => false,
        },
        _ => false,
    }
}

/// A step of removing `node`: go on to its next descendant, past what lies
/// under a descendant that is detached, detaching it when the new document
/// keeps it by `id` and it is not detached yet; once every descendant was
/// looked at, remove the node.
pub open spec fn step_remove_node_v(f: DocumentV, t: DocumentV, s: MorphV, node: nat, cursor: CurV, to: CurV) -> MorphV {
    match adv_v(f, cursor, s.detached[cursor.node as int] && cursor.path.len() > 0) {
        Some(c) => {
            if kept_by_id(f, t, c.node) && !s.detached[c.node as int] {
                push_v(enq(mark_v(s, c.node), OpV::Patch(PatchV::Detach(c.node))), OpV::RemoveNode { node, cursor: c, to })
            } else {
                push_v(s, OpV::RemoveNode { node, cursor: c, to })
            }
        },
        None => push_v(s, OpV::Patch(PatchV::Remove(node))),
    }
}

/// A step of removing the old nodes from `from` on: a node the new
/// document keeps by `id` is detached instead.
pub open spec fn step_remove_nodes_v(f: DocumentV, t: DocumentV, s: MorphV, from: CurV, to: CurV) -> MorphV {
    let s1 = if s.detached[from.node as int] {
        s
    } else if kept_by_id(f, t, from.node) {
        enq(s, OpV::MaybeDetach { node: from.node })
    } else {
        enq(s, OpV::RemoveNode { node: from.node, cursor: at_v(from.node), to: at_v(to.node) })
    };
    match adv_v(f, from, true) {
        Some(c) => push_v(s1, OpV::RemoveNodes { from: c, to }),
        None => push_v(s1, OpV::Continue),
    }
}

/// The old node that the new node with data `data` takes the place of: the
/// one registered under its `id`, when that one can be morphed into it in
/// place.
pub open spec fn reused(f: DocumentV, data: NodeDataV) -> Option<nat> {
    match id_of(node_attrs(data)) {
        Some(id) => match lookup(f.ids, id) {
            Some(n) => if compatible_spec(f.nodes[n as int], data) { Some(n) } else { None },
            None => None,
        },
        None => None,
    }
}

/// Appending the new node at `cursor`: moving the old node that it takes
/// the place of, or creating the node, with its descendants appended inside
/// it.
pub open spec fn step_append_v(f: DocumentV, t: DocumentV, s: MorphV, from: CurV, cursor: CurV) -> MorphV {
    let data = t.nodes[cursor.node as int];
    if reused(f, data) is Some {
        let node = reused(f, data)->0;
        push_v(enq(enq(enq(enq(s, OpV::MaybeDetach { node }), OpV::Patch(PatchV::Push(node))),
            OpV::Patch(PatchV::Attach)), OpV::Morph(at_v(node), at_v(cursor.node))), OpV::Continue)
    } else {
        match adv_v(t, cursor, false) {
            Some(c) => push_v(enq(enq(enq(enq(enq(enq(s, OpV::Patch(PatchV::CreateAndMoveTo(data))), OpV::Patch(PatchV::Attach)),
                OpV::Patch(PatchV::Move(MoveTo::ReverseChild(0)))), OpV::Patch(PatchV::PushCurrent)),
                OpV::AppendSiblings { from, cursor: at_v(c.node) }), OpV::Patch(PatchV::Pop)), OpV::Continue),
            None => push_v(enq(enq(s, OpV::Patch(PatchV::Create(data))), OpV::Patch(PatchV::Attach)), OpV::Continue),
        }
    }
}

/// A step of appending the new nodes from `to` on at the parent of
/// `insertion_point` at the depth of `to`.
pub open spec fn step_append_nodes_v(f: DocumentV, t: DocumentV, s: MorphV, insertion_point: CurV, to: CurV) -> MorphV {
    let ip = up_below_v(f, insertion_point, to.path.len());
    let s1 = enq(enq(enq(s, OpV::Patch(PatchV::Push(ip.node))), OpV::AppendSiblings { from: ip, cursor: to }), OpV::Patch(PatchV::Pop));
    match climb_out_v(t, to) {
        Some(c) => push_v(s1, OpV::AppendNodes { insertion_point: ip, to: c }),
        None => push_v(s1, OpV::Continue),
    }
}

/// A step of appending the new node at `cursor` and its following siblings.
pub open spec fn step_append_siblings_v(f: DocumentV, t: DocumentV, s: MorphV, from: CurV, cursor: CurV) -> MorphV {
    let s1 = enq(s, OpV::Append { from, cursor: at_v(cursor.node) });
    match sib_v(t, cursor) {
        Some(n) => push_v(s1, OpV::AppendSiblings { from, cursor: n }),
        None => push_v(s1, OpV::Continue),
    }
}

/// Inserting the new node at `cursor` before the node at `from`, with its
/// children, and their descendants, appended inside it.
pub open spec fn step_insert_before_v(f: DocumentV, t: DocumentV, s: MorphV, from: CurV, cursor: CurV) -> MorphV {
    let data = t.nodes[cursor.node as int];
    match adv_v(t, cursor, false) {
        Some(c) => push_v(enq(enq(enq(enq(enq(s, OpV::Patch(PatchV::CreateAndMoveTo(data))), OpV::Patch(PatchV::PrependBefore(from.node))),
            OpV::Patch(PatchV::PushCurrent)), OpV::AppendSiblings { from, cursor: at_v(c.node) }), OpV::Patch(PatchV::Pop)), OpV::Continue),
        None => push_v(s, OpV::Patch(PatchV::InsertBefore(from.node, data))),
    }
}

/// Detaching `node` unless it was detached already.
pub open spec fn step_maybe_detach_v(s: MorphV, node: nat) -> MorphV {
    if !s.detached[node as int] {
        push_v(mark_v(s, node), OpV::Patch(PatchV::Detach(node)))
    } else {
        push_v(s, OpV::Continue)
    }
}

/// A step of a morph op at two elements.
pub open spec fn step_elements_v(f: DocumentV, t: DocumentV, s: MorphV, from: CurV, to: CurV, fe: (AttributeNameV, Seq<AttributeV>), te: (AttributeNameV, Seq<AttributeV>)) -> MorphV {
    let fid = id_of(fe.1);
    let tid = id_of(te.1);
    if te.0 == fe.0 && tid == fid {
        let s1 = if fe.1 != te.1 { enq(s, OpV::Patch(PatchV::SetAttributes(from.node, te.1))) } else { s };
        aap_v(f, t, s1, from, to, Advance::BothCursors, false)
    } else if fid is Some {
        let s1 = if lookup(t.ids, fid->0) is Some {
            enq(s, OpV::MaybeDetach { node: from.node })
        } else {
            enq(s, OpV::RemoveNode { node: from.node, cursor: at_v(from.node), to: at_v(to.node) })
        };
        aap_v(f, t, s1, from, to, Advance::From, true)
    } else if tid is Some {
        match reused(f, t.nodes[to.node as int]) {
            Some(node) => aap_v(f, t, enq(enq(enq(enq(s, OpV::Patch(PatchV::Push(node))), OpV::MaybeDetach { node }),
                OpV::Patch(PatchV::PrependBefore(from.node))), OpV::Morph(at_v(node), at_v(to.node))), from, to, Advance::To, true),
            None => aap_v(f, t, enq(s, OpV::InsertBefore { from, cursor: at_v(to.node) }), from, to, Advance::To, true),
        }
    } else if next_sib(f, from.node) matches Some(n) && compatible_spec(f.nodes[n as int], t.nodes[to.node as int]) {
        aap_v(f, t, enq(s, OpV::RemoveNode { node: from.node, cursor: at_v(from.node), to: at_v(to.node) }), from, to, Advance::From, true)
    } else if next_sib(t, to.node) matches Some(n) && compatible_spec(t.nodes[n as int], f.nodes[from.node as int]) {
        aap_v(f, t, enq(s, OpV::InsertBefore { from, cursor: at_v(to.node) }), from, to, Advance::To, true)
    } else {
        aap_v(f, t, enq(s, OpV::Patch(PatchV::Replace(from.node, NodeDataV::Element(te)))), from, to, Advance::BothCursors, false)
    }
}

/// A step of a morph op: pass an old node, reached by the walk, that was
/// moved away; else compare
/// the nodes at the two cursors, queue what that calls for, and push the op
/// advanced.
pub open spec fn step_morph_v(f: DocumentV, t: DocumentV, s: MorphV, from: CurV, to: CurV) -> MorphV {
    if s.detached[from.node as int] && from.path.len() > 0 {
        aap_v(f, t, s, from, to, Advance::From, true)
    } else if to.path.len() < from.path.len() {
        let s1 = if kept_by_id(f, t, from.node) {
            enq(s, OpV::MaybeDetach { node: from.node })
        } else {
            enq(s, OpV::RemoveNode { node: from.node, cursor: at_v(from.node), to: at_v(to.node) })
        };
        aap_v(f, t, s1, from, to, Advance::From, true)
    } else {
        match f.nodes[from.node as int] {
            NodeDataV::Root => aap_v(f, t, s, from, to, Advance::BothCursors, false),
            NodeDataV::Leaf(old) => match t.nodes[to.node as int] {
                NodeDataV::Leaf(new) => {
                    let s1 = if old != new { enq(s, OpV::Patch(PatchV::Replace(from.node, NodeDataV::Leaf(new)))) } else { s };
                    aap_v(f, t, s1, from, to, Advance::BothCursors, false)
                },
                NodeDataV::Element(_) => aap_v(f, t, enq(s, OpV::Patch(PatchV::Remove(from.node))), from, to, Advance::From, true),
                NodeDataV::Root => aap_v(f, t, s, from, to, Advance::BothCursors, false),
            },
            NodeDataV::Element(fe) => match t.nodes[to.node as int] {
                NodeDataV::Root => aap_v(f, t, s, from, to, Advance::BothCursors, false),
                NodeDataV::Leaf(v) => aap_v(f, t, enq(s, OpV::Patch(PatchV::InsertBefore(from.node, NodeDataV::Leaf(v)))), from, to, Advance::To, true),
                NodeDataV::Element(te) => step_elements_v(f, t, s, from, to, fe, te),
            },
        }
    }
}

/// The stack with finished work dropped from its top.
pub open spec fn trim_v(st: Seq<OpV>) -> Seq<OpV>
    decreases st.len(),
{
    if st.len() > 0 && st.last() is Continue {
        trim_v(st.drop_last())
    } else {
        st
    }
}

/// The stack with the queue moved onto it, the first queued on top.
pub open spec fn pour_v(st: Seq<OpV>, q: Seq<OpV>) -> Seq<OpV>
    decreases q.len(),
{
    if q.len() == 0 {
        st
    } else {
        pour_v(st.push(q.last()), q.drop_last())
    }
}

/// What one step of the op at the top does to the state, the op popped.
pub open spec fn step_op_v(f: DocumentV, t: DocumentV, s: MorphV, op: OpV) -> MorphV {
    match op {
        OpV::RemoveNode { node, cursor, to } => step_remove_node_v(f, t, s, node, cursor, to),
        OpV::RemoveNodes { from, to } => step_remove_nodes_v(f, t, s, from, to),
        OpV::Append { from, cursor } => step_append_v(f, t, s, from, cursor),
        OpV::AppendNodes { insertion_point, to } => step_append_nodes_v(f, t, s, insertion_point, to),
        OpV::AppendSiblings { from, cursor } => step_append_siblings_v(f, t, s, from, cursor),
        OpV::InsertBefore { from, cursor } => step_insert_before_v(f, t, s, from, cursor),
        OpV::MaybeDetach { node } => step_maybe_detach_v(s, node),
        OpV::Morph(a, b) => step_morph_v(f, t, s, a, b),
        _ => s,
    }
}

/// Advancing an op never adds steps.
pub proof fn lemma_adv_op_budget(f: DocumentV, t: DocumentV, s: MorphV, op: OpV, a: Advance, skip: bool)
    ensures
        adv_op(f, t, s, op, a, skip).1.budget <= s.budget,
    decreases s.budget,
{
    if let OpV::Morph(from, to) = op {
        let fa = match a { Advance::To => Some(from), _ => adv_v(f, from, skip) };
        let tb = match a { Advance::From => Some(to), _ => adv_v(t, to, skip) };
        let nf = match fa { Some(c) => c, None => from };
        let nt = match tb { Some(c) => c, None => to };
        if s.budget > 0 {
            lemma_adv_op_budget(f, t, MorphV { budget: (s.budget - 1) as nat, ..s }, OpV::Morph(nf, nt), Advance::From, true);
        }
    }
}

/// Advancing and pushing a morph op never adds steps.
pub proof fn lemma_aap_budget(f: DocumentV, t: DocumentV)
    ensures
        forall|s: MorphV, from: CurV, to: CurV, a: Advance, skip: bool|
            (#[trigger] aap_v(f, t, s, from, to, a, skip)).budget <= s.budget,
{
    assert forall|s: MorphV, from: CurV, to: CurV, a: Advance, skip: bool|
        (#[trigger] aap_v(f, t, s, from, to, a, skip)).budget <= s.budget by {
        lemma_adv_op_budget(f, t, s, OpV::Morph(from, to), a, skip);
    }
}

/// A step never adds steps.
pub proof fn lemma_step_budget(f: DocumentV, t: DocumentV, s: MorphV, op: OpV)
    ensures
        step_op_v(f, t, s, op).budget <= s.budget,
{
    lemma_aap_budget(f, t);
}

/// What the morph gives next, and the state it leaves: steps are taken
/// until a patch comes to the top of the stack, the stack runs empty, or no
/// step is left.
pub open spec fn next_v(f: DocumentV, t: DocumentV, s: MorphV) -> (Option<PatchV>, MorphV)
    decreases s.budget,
{
    if s.budget == 0 {
        (None, s)
    } else {
        let s1 = MorphV { stack: pour_v(trim_v(s.stack), s.queue), queue: Seq::empty(), budget: (s.budget - 1) as nat, ..s };
        if s1.stack.len() == 0 {
            (None, s1)
        } else {
            let op = s1.stack.last();
            let s2 = MorphV { stack: s1.stack.drop_last(), ..s1 };
            match op {
                OpV::Patch(p) => (Some(p), s2),
                OpV::Continue => next_v(f, t, s2),
                _ => {
                    proof { lemma_step_budget(f, t, s2, op); }
                    next_v(f, t, step_op_v(f, t, s2, op))
                },
            }
        }
    }
}

/// The patches that turn one document into another, produced one at a
/// time.
///
/// The walk takes at most `u64::MAX` steps in all; where it would take
/// more, it ends there.
pub struct Morph<'a> {
    from: &'a Document,
    to: &'a Document,
    stack: Vec<Op>,
    queue: Vec<Op>,
    detached: Vec<bool>,
    budget: u64,
}

impl<'a> Morph<'a> {
    /// The document the patches apply to.
    pub closed spec fn old_doc(&self) -> DocumentV {
        self.from@
    }

    /// The document the patches lead to.
    pub closed spec fn new_doc(&self) -> DocumentV {
        self.to@
    }

    /// How many more steps the walk may take.
    pub closed spec fn steps_left(&self) -> nat {
        self.budget as nat
    }

    /// The state of the morph, by value.
    pub closed spec fn state(&self) -> MorphV {
        MorphV {
            stack: self.stack@.map_values(|o: Op| ov(o)),
            queue: self.queue@.map_values(|o: Op| ov(o)),
            detached: self.detached@,
            budget: self.budget as nat,
        }
    }

    /// The morph is consistent with its documents.
    pub closed spec fn inv(&self) -> bool {
        &&& wf(self.from@)
        &&& wf(self.to@)
        &&& ids_in(self.from@)
        &&& self.detached@.len() == self.from@.nodes.len()
        &&& forall|i: int| 0 <= i < self.stack@.len() ==> op_ok(#[trigger] self.stack@[i], self.from@, self.to@)
        &&& forall|i: int| 0 <= i < self.queue@.len() ==> op_ok(#[trigger] self.queue@[i], self.from@, self.to@)
    }

    /// A morph of a document into an equal one that has found nothing to
    /// change so far.
    pub closed spec fn twin(&self) -> bool {
        &&& self.from@ == self.to@
        &&& self.queue@.len() == 0
        &&& self.stack@.len() <= 1
        &&& forall|i: int| 0 <= i < self.stack@.len() ==> twin_op(#[trigger] self.stack@[i])
        &&& forall|i: int| 0 <= i < self.detached@.len() ==> !#[trigger] self.detached@[i]
    }

    /// A morph of `from` into `to`, starting at both roots.
    pub fn new(from: &'a Document, to: &'a Document) -> (r: Self)
        requires
            from.well_formed(),
            to.well_formed(),
        ensures
            r.inv(),
            r.old_doc() == from@,
            r.new_doc() == to@,
            from@ == to@ ==> r.twin(),
            r.state() == init_v(from@, to@),
    {
        let mut detached: Vec<bool> = Vec::new();
        let n = from.node_count();
        let mut i: usize = 0;
        while i < n
            invariant
                i <= n,
                detached@.len() == i,
                forall|j: int| 0 <= j < i ==> !#[trigger] detached@[j],
            decreases n - i,
        {
            detached.push(false);
            i = i + 1;
        }
        let mut stack: Vec<Op> = Vec::new();
        stack.push(Op::Morph(Cursor::at(from.root()), Cursor::at(to.root())));
        let r = Morph { from, to, stack, queue: Vec::new(), detached, budget: u64::MAX };
        assert(r.state().stack =~= init_v(from@, to@).stack);
        assert(r.state().queue =~= init_v(from@, to@).queue);
        assert(r.state().detached =~= init_v(from@, to@).detached);
        r
    }
}


impl<'a> Morph<'a> {
    /// Queues `op`.
    fn enqueue(&mut self, op: Op)
        requires
            old(self).inv(),
            op_ok(op, old(self).from@, old(self).to@),
        ensures
            final(self).inv(),
            final(self).queue@ == old(self).queue@.push(op),
            final(self).from == old(self).from,
            final(self).to == old(self).to,
            final(self).stack@ == old(self).stack@,
            final(self).detached@ == old(self).detached@,
            final(self).budget == old(self).budget,
            final(self).state() == enq(old(self).state(), ov(op)),
    {
        self.queue.push(op);
        assert(forall|i: int| 0 <= i < old(self).queue@.len() ==> self.queue@[i] == old(self).queue@[i]);
        assert(self.state().queue =~= old(self).state().queue.push(ov(op)));
        assert(self.state() =~= enq(old(self).state(), ov(op)));
    }

    /// Marks `node` detached; false if it was already.
    fn mark_detached(&mut self, node: NodeRef) -> (r: bool)
        requires
            old(self).inv(),
            node.0 < old(self).from@.nodes.len(),
        ensures
            final(self).inv(),
            r == !old(self).detached@[node.0 as int],
            final(self).detached@ == old(self).detached@.update(node.0 as int, true),
            final(self).from == old(self).from,
            final(self).to == old(self).to,
            final(self).stack@ == old(self).stack@,
            final(self).queue@ == old(self).queue@,
            final(self).budget == old(self).budget,
            final(self).state() == mark_v(old(self).state(), node.0 as nat),
    {
        let i = node.0 as usize;
        let was = self.detached[i];
        self.detached.set(i, true);
        assert(self.state() =~= mark_v(old(self).state(), node.0 as nat));
        !was
    }

    /// Advances the cursors of a morph op as `adv` says, and gives what the
    /// op becomes: the op again, or the removal or the appending of what
    /// is left, or finished work. A node that was detached is skipped.
    fn advance(&mut self, op0: Op, adv0: Advance, skip_children: bool) -> (r: Op)
        requires
            old(self).inv(),
            op_ok(op0, old(self).from@, old(self).to@),
        ensures
            final(self).inv(),
            final(self).from == old(self).from,
            final(self).to == old(self).to,
            final(self).stack@ == old(self).stack@,
            final(self).detached@ == old(self).detached@,
            final(self).budget <= old(self).budget,
            op_ok(r, final(self).from@, final(self).to@),
            old(self).twin() && twin_op(op0) && adv0 is BothCursors ==> final(self).queue@ == old(self).queue@ && twin_op(r),
            (ov(r), final(self).state()) == adv_op(old(self).from@, old(self).to@, old(self).state(), ov(op0), adv0, skip_children),
    {
        let ghost tw = self.twin() && twin_op(op0) && adv0 is BothCursors;
        let fd: &Document = self.from;
        let td: &Document = self.to;
        let mut op = op0;
        let mut adv = adv0;
        let mut skip = skip_children;
        loop
            invariant
                self.inv(),
                self.from == old(self).from,
                self.to == old(self).to,
                fd == self.from,
                td == self.to,
                self.stack@ == old(self).stack@,
                self.detached@ == old(self).detached@,
                self.budget <= old(self).budget,
                op_ok(op, self.from@, self.to@),
                tw == (old(self).twin() && twin_op(op0) && adv0 is BothCursors),
                tw ==> self.twin() && twin_op(op) && adv is BothCursors && self.queue@ == old(self).queue@,
                adv_op(fd@, td@, self.state(), ov(op), adv, skip) == adv_op(fd@, td@, old(self).state(), ov(op0), adv0, skip_children),
            decreases self.budget,
        {
            let ghost target = adv_op(fd@, td@, self.state(), ov(op), adv, skip);
            let ghost s0 = self.state();
            match op {
                Op::Morph(mut from, mut to) => {
                    let ghost fb = cv(from);
                    let ghost tb = cv(to);
                    assert(ov(op) == OpV::Morph(fb, tb));
                    let insertion_point = from.copy();
                    let (a, b) = match adv {
                        Advance::BothCursors => {
                            let a = from.advance(fd, skip);
                            let b = to.advance(td, skip);
                            (a, b)
                        },
                        Advance::To => (true, to.advance(td, skip)),
                        Advance::From => (from.advance(fd, skip), true),
                    };
                    proof {
                        if tw {
                            assert(fd@ == td@);
                            assert(a == b);
                            assert(same_cur(from, to));
                        }
                    }
                    if a && b {
                        if to.depth() <= from.depth() {
                            if self.detached[from.node.0 as usize] {
                                if self.budget == 0 {
                                    return Op::Morph(from, to);
                                }
                                self.budget = self.budget - 1;
                                op = Op::Morph(from, to);
                                adv = Advance::From;
                                skip = true;
                                continue;
                            }
                            return Op::Morph(from, to);
                        } else {
                            let depth = from.depth();
                            let ip = insertion_point.fork_relative(depth);
                            let tt = to.fork_relative(depth);
                            self.enqueue(Op::AppendNodes { insertion_point: ip, to: tt });
                            let ghost nt = cv(to);
                            loop
                                invariant
                                    wf(td@),
                                    cur_ok(td@, to),
                                    up_to_v(td@, cv(to), depth as nat) == up_to_v(td@, nt, depth as nat),
                                ensures
                                    cur_ok(td@, to),
                                    cv(to) == up_to_v(td@, nt, depth as nat),
                                decreases to.path@.len(),
                            {
                                if to.depth() <= depth {
                                    break;
                                }
                                if !to.move_to_parent(td) {
                                    break;
                                }
                            }
                            if !to.advance(td, true) {
                                return Op::RemoveNodes { from, to };
                            }
                            return Op::Morph(from, to);
                        }
                    } else if a {
                        return Op::RemoveNodes { from, to };
                    } else if b {
                        return Op::AppendNodes { insertion_point, to };
                    } else {
                        return Op::Continue;
                    }
                },
                other => {
                    assert(tw ==> twin_op(other));
                    return other;
                },
            }
        }
    }
}


/// The data and the attributes of a node of `t` are found in `t`.
proof fn lemma_in_doc(t: DocumentV, k: int)
    requires
        0 <= k < t.nodes.len(),
    ensures
        in_doc(t, t.nodes[k]),
        attrs_in_doc(t, node_attrs(t.nodes[k])),
{
}

/// Whether an op is finished work.
fn is_continue(op: &Op) -> (r: bool)
    ensures
        r == (*op is Continue),
{
    match op {
        Op::Continue => true,
        _ => false,
    }
}

impl<'a> Morph<'a> {
    /// Pushes `op` on the stack.
    fn push(&mut self, op: Op)
        requires
            old(self).inv(),
            op_ok(op, old(self).from@, old(self).to@),
        ensures
            final(self).inv(),
            final(self).stack@ == old(self).stack@.push(op),
            final(self).from == old(self).from,
            final(self).to == old(self).to,
            final(self).queue@ == old(self).queue@,
            final(self).detached@ == old(self).detached@,
            final(self).budget == old(self).budget,
            final(self).state() == push_v(old(self).state(), ov(op)),
    {
        self.stack.push(op);
        assert(forall|i: int| 0 <= i < old(self).stack@.len() ==> self.stack@[i] == old(self).stack@[i]);
        assert(self.state().stack =~= old(self).state().stack.push(ov(op)));
        assert(self.state() =~= push_v(old(self).state(), ov(op)));
    }

    /// Drops finished work from the top of the stack, then moves the queued
    /// ops onto it, the first queued on top.
    fn settle(&mut self)
        requires
            old(self).inv(),
        ensures
            final(self).inv(),
            final(self).from == old(self).from,
            final(self).to == old(self).to,
            final(self).detached@ == old(self).detached@,
            final(self).budget == old(self).budget,
            final(self).queue@.len() == 0,
            old(self).twin() ==> final(self).twin() && final(self).stack@.len() <= 1
                && (final(self).stack@.len() == 1 ==> final(self).stack@[0] is Morph),
            final(self).state() == (MorphV {
                stack: pour_v(trim_v(old(self).state().stack), old(self).state().queue),
                queue: Seq::empty(),
                ..old(self).state()
            }),
    {
        let ghost tw = self.twin();
        let ghost s0 = self.state();
        loop
            invariant
                self.inv(),
                self.from == old(self).from,
                self.to == old(self).to,
                self.detached@ == old(self).detached@,
                self.budget == old(self).budget,
                self.queue@ == old(self).queue@,
                tw == old(self).twin(),
                tw ==> self.twin(),
                trim_v(self.state().stack) == trim_v(s0.stack),
                s0 == old(self).state(),
            ensures
                self.stack@.len() == 0 || !(self.stack@[self.stack@.len() - 1] is Continue),
                self.state().stack == trim_v(s0.stack),
            decreases self.stack@.len(),
        {
            let n = self.stack.len();
            if n == 0 {
                break;
            }
            if !is_continue(&self.stack[n - 1]) {
                break;
            }
            let ghost before = self.stack@;
            let ghost bs = self.state().stack;
            assert(bs.last() is Continue);
            self.stack.pop();
            assert(forall|i: int| 0 <= i < self.stack@.len() ==> self.stack@[i] == before[i]);
            assert(self.state().stack =~= bs.drop_last());
        }
        proof {
            if tw {
                if self.stack@.len() == 1 {
                    assert(twin_op(self.stack@[0]));
                }
            }
        }
        loop
            invariant
                self.inv(),
                self.from == old(self).from,
                self.to == old(self).to,
                self.detached@ == old(self).detached@,
                self.budget == old(self).budget,
                tw == old(self).twin(),
                tw ==> self.twin() && self.stack@.len() <= 1 && (self.stack@.len() == 1 ==> self.stack@[0] is Morph),
                s0 == old(self).state(),
                pour_v(self.state().stack, self.state().queue) == pour_v(trim_v(s0.stack), s0.queue),
                self.state().detached == s0.detached,
                self.state().budget == s0.budget,
            ensures
                self.queue@.len() == 0,
            decreases self.queue@.len(),
        {
            let ghost q = self.queue@;
            let ghost st = self.stack@;
            let ghost sv = self.state();
            match self.queue.pop() {
                Some(op) => {
                    assert(op == q[q.len() - 1]);
                    assert(op_ok(q[q.len() - 1], self.from@, self.to@));
                    assert(forall|i: int| 0 <= i < self.queue@.len() ==> self.queue@[i] == q[i]);
                    assert(self.state().queue =~= sv.queue.drop_last());
                    assert(ov(op) == sv.queue.last());
                    self.push(op);
                    assert(self.state().stack == sv.stack.push(sv.queue.last()));
                },
                None => {
                    break;
                },
            }
        }
        assert(self.state().queue =~= Seq::<OpV>::empty());
        assert(self.state() =~= (MorphV {
            stack: pour_v(trim_v(s0.stack), s0.queue),
            queue: Seq::empty(),
            ..s0
        }));
    }
}


impl<'a> Morph<'a> {
    /// Advances a morph op and pushes what it becomes.
    fn advance_and_push(&mut self, from: Cursor, to: Cursor, adv: Advance, skip_children: bool)
        requires
            old(self).inv(),
            cur_ok(old(self).from@, from),
            cur_ok(old(self).to@, to),
        ensures
            final(self).inv(),
            final(self).from == old(self).from,
            final(self).to == old(self).to,
            final(self).budget <= old(self).budget,
            old(self).twin() && same_cur(from, to) && adv is BothCursors && old(self).stack@.len() == 0
                ==> final(self).twin(),
            final(self).state() == aap_v(old(self).from@, old(self).to@, old(self).state(), cv(from), cv(to), adv, skip_children),
    {
        let ghost tw = self.twin() && same_cur(from, to) && adv is BothCursors && self.stack@.len() == 0;
        let next = self.advance(Op::Morph(from, to), adv, skip_children);
        self.push(next);
        proof {
            if tw {
                assert(self.stack@.len() == 1 && self.stack@[0] == next);
            }
        }
    }

    /// One step of a morph op: pass an old node, reached by the walk, that
    /// was moved away; else compare the nodes at the two cursors, queue what
    /// that calls for, and push the op advanced.
    #[verifier::spinoff_prover]
    fn step_morph(&mut self, from: Cursor, to: Cursor)
        requires
            old(self).inv(),
            cur_ok(old(self).from@, from),
            cur_ok(old(self).to@, to),
        ensures
            final(self).inv(),
            final(self).from == old(self).from,
            final(self).to == old(self).to,
            final(self).budget <= old(self).budget,
            old(self).twin() && same_cur(from, to) && old(self).stack@.len() == 0 ==> final(self).twin(),
            final(self).state() == step_morph_v(old(self).from@, old(self).to@, old(self).state(), cv(from), cv(to)),
    {
        let ghost tw = self.twin() && same_cur(from, to) && self.stack@.len() == 0;
        let fd: &'a Document = self.from;
        let td: &'a Document = self.to;
        if self.detached[from.node.0 as usize] && from.depth() > 0 {
            self.advance_and_push(from, to, Advance::From, true);
            return;
        }
        if to.depth() < from.depth() {
            if kept(fd, td, from.node) {
                self.enqueue(Op::MaybeDetach { node: from.node });
            } else {
                self.enqueue(Op::RemoveNode { node: from.node, cursor: from.fork(), to: to.fork() });
            }
            self.advance_and_push(from, to, Advance::From, true);
            return;
        }
        let fnode = fd.get(from.node);
        let tnode = td.get(to.node);
        proof {
            if tw {
                assert(fnode@ == tnode@);
            }
        }
        let ghost tk = to.node.0 as int;
        proof { lemma_in_doc(td@, tk); }
        match fnode {
            NodeData::Root => {
                self.advance_and_push(from, to, Advance::BothCursors, false);
            },
            NodeData::Leaf { value: old_content } => {
                match tnode {
                    NodeData::Leaf { value: content } => {
                        if !old_content.eq(content) {
                            let replacement = NodeData::Leaf { value: content.clone() };
                            assert(replacement@ == td@.nodes[tk]);
                            self.enqueue(Op::Patch(Patch::Replace { node: from.node, replacement }));
                        }
                        self.advance_and_push(from, to, Advance::BothCursors, false);
                    },
                    NodeData::NodeElement { .. } => {
                        self.enqueue(Op::Patch(Patch::Remove { node: from.node }));
                        self.advance_and_push(from, to, Advance::From, true);
                    },
                    NodeData::Root => {
                        self.advance_and_push(from, to, Advance::BothCursors, false);
                    },
                }
            },
            NodeData::NodeElement { element: from_el } => {
                match tnode {
                    NodeData::Root => {
                        self.advance_and_push(from, to, Advance::BothCursors, false);
                    },
                    NodeData::Leaf { value: content } => {
                        let node = NodeData::Leaf { value: content.clone() };
                        assert(node@ == td@.nodes[tk]);
                        self.enqueue(Op::Patch(Patch::InsertBefore { before: from.node, node }));
                        self.advance_and_push(from, to, Advance::To, true);
                    },
                    NodeData::NodeElement { element: to_el } => {
                        self.step_elements(from, to, from_el, to_el);
                    },
                }
            },
        }
    }

    /// A step of a morph op at two elements.
    #[verifier::rlimit(60)]
    #[verifier::spinoff_prover]
    fn step_elements(&mut self, from: Cursor, to: Cursor, from_el: &Element, to_el: &Element)
        requires
            old(self).inv(),
            cur_ok(old(self).from@, from),
            cur_ok(old(self).to@, to),
            old(self).from@.nodes[from.node.0 as int] == NodeDataV::Element(from_el@),
            old(self).to@.nodes[to.node.0 as int] == NodeDataV::Element(to_el@),
        ensures
            final(self).inv(),
            final(self).from == old(self).from,
            final(self).to == old(self).to,
            final(self).budget <= old(self).budget,
            old(self).twin() && same_cur(from, to) && old(self).stack@.len() == 0 ==> final(self).twin(),
            final(self).state() == step_elements_v(old(self).from@, old(self).to@, old(self).state(), cv(from), cv(to), from_el@, to_el@),
    {
        let ghost tw = self.twin() && same_cur(from, to) && self.stack@.len() == 0;
        let fd: &'a Document = self.from;
        let td: &'a Document = self.to;
        let ghost tk = to.node.0 as int;
        proof { lemma_in_doc(td@, tk); }
        let from_id = from_el.id();
        let to_id = to_el.id();
        if to_el.name.same(&from_el.name) && opt_str_eq(&to_id, &from_id) {
            if !same_attributes(&from_el.attributes, &to_el.attributes) {
                let attributes = td.attributes(to.node);
                self.enqueue(Op::Patch(Patch::SetAttributes { node: from.node, attributes }));
            }
            self.advance_and_push(from, to, Advance::BothCursors, false);
            return;
        }
        proof {
            if tw {
                assert(from_el@ == to_el@);
                assert(false);
            }
        }
        match from_id {
            Some(id) => {
                if td.get_by_id(id.as_str()).is_some() {
                    self.enqueue(Op::MaybeDetach { node: from.node });
                } else {
                    self.enqueue(Op::RemoveNode { node: from.node, cursor: from.fork(), to: to.fork() });
                }
                self.advance_and_push(from, to, Advance::From, true);
                return;
            },
            None => {},
        }
        match to_id {
            Some(id) => {
                match node_by_id(fd, &id) {
                    Some(node) if compatible(fd.get(node), td.get(to.node)) => {
                        self.enqueue(Op::Patch(Patch::Push(node)));
                        self.enqueue(Op::MaybeDetach { node });
                        self.enqueue(Op::Patch(Patch::PrependBefore { before: from.node }));
                        self.enqueue(Op::Morph(Cursor::at(node), to.fork()));
                    },
                    _ => {
                        self.enqueue(Op::InsertBefore { from: from.copy(), cursor: to.fork() });
                    },
                }
                self.advance_and_push(from, to, Advance::To, true);
                return;
            },
            None => {},
        }
        match from.next_sibling(fd) {
            Some(from_next) => {
                if compatible(fd.get(from_next.node), td.get(to.node)) {
                    self.enqueue(Op::RemoveNode { node: from.node, cursor: from.fork(), to: to.fork() });
                    self.advance_and_push(from, to, Advance::From, true);
                    return;
                }
            },
            None => {},
        }
        match to.next_sibling(td) {
            Some(to_next) => {
                if compatible(td.get(to_next.node), fd.get(from.node)) {
                    self.enqueue(Op::InsertBefore { from: from.copy(), cursor: to.fork() });
                    self.advance_and_push(from, to, Advance::To, true);
                    return;
                }
            },
            None => {},
        }
        let replacement = NodeData::NodeElement { element: to_el.copy() };
        assert(replacement@ == td@.nodes[tk]);
        self.enqueue(Op::Patch(Patch::Replace { node: from.node, replacement }));
        self.advance_and_push(from, to, Advance::BothCursors, false);
    }
}


impl<'a> Morph<'a> {
    /// One step of removing a node: go on to its next descendant, past what
    /// lies under a descendant that is detached, detaching it if it is an
    /// element the new document keeps by `id` and not detached yet; once
    /// every descendant was looked at, the node itself is removed.
    fn step_remove_node(&mut self, node: NodeRef, cursor: Cursor, to: Cursor)
        requires
            old(self).inv(),
            node.0 < old(self).from@.nodes.len(),
            cur_ok(old(self).from@, cursor),
            cur_ok(old(self).to@, to),
        ensures
            final(self).inv(),
            final(self).from == old(self).from,
            final(self).to == old(self).to,
            final(self).budget == old(self).budget,
            final(self).state() == step_remove_node_v(old(self).from@, old(self).to@, old(self).state(), node.0 as nat, cv(cursor), cv(to)),
    {
        let fd: &'a Document = self.from;
        let td: &'a Document = self.to;
        let mut cursor = cursor;
        let skip = self.detached[cursor.node.0 as usize] && cursor.depth() > 0;
        if cursor.advance(fd, skip) {
            let n = cursor.node;
            if kept(fd, td, n) && !self.detached[n.0 as usize] {
                self.mark_detached(n);
                self.enqueue(Op::Patch(Patch::Detach { node: n }));
            }
            self.push(Op::RemoveNode { node, cursor, to });
            return;
        }
        self.push(Op::Patch(Patch::Remove { node }));
    }

    /// One step of removing `from` and the nodes after it; a node the new
    /// document keeps by `id` is detached instead.
    fn step_remove_nodes(&mut self, from: Cursor, to: Cursor)
        requires
            old(self).inv(),
            cur_ok(old(self).from@, from),
            cur_ok(old(self).to@, to),
        ensures
            final(self).inv(),
            final(self).from == old(self).from,
            final(self).to == old(self).to,
            final(self).budget == old(self).budget,
            final(self).state() == step_remove_nodes_v(old(self).from@, old(self).to@, old(self).state(), cv(from), cv(to)),
    {
        let fd: &'a Document = self.from;
        let td: &'a Document = self.to;
        let mut from = from;
        if !self.detached[from.node.0 as usize] {
            if kept(fd, td, from.node) {
                self.enqueue(Op::MaybeDetach { node: from.node });
            } else {
                self.enqueue(Op::RemoveNode { node: from.node, cursor: from.fork(), to: to.fork() });
            }
        }
        if from.advance(fd, true) {
            self.push(Op::RemoveNodes { from, to });
        } else {
            self.push(Op::Continue);
        }
    }

    /// Appends the node at `cursor` of the new document: moves the old node
    /// it takes the place of there and morphs it, or creates the node, with
    /// its descendants appended inside it.
    fn step_append(&mut self, from: Cursor, cursor: Cursor)
        requires
            old(self).inv(),
            cur_ok(old(self).from@, from),
            cur_ok(old(self).to@, cursor),
        ensures
            final(self).inv(),
            final(self).from == old(self).from,
            final(self).to == old(self).to,
            final(self).budget == old(self).budget,
            final(self).state() == step_append_v(old(self).from@, old(self).to@, old(self).state(), cv(from), cv(cursor)),
    {
        let fd: &'a Document = self.from;
        let td: &'a Document = self.to;
        let mut cursor = cursor;
        let tnode = td.get(cursor.node);
        match tnode.id() {
            Some(id) => {
                match node_by_id(fd, &id) {
                    Some(node) if compatible(fd.get(node), tnode) => {
                        self.enqueue(Op::MaybeDetach { node });
                        self.enqueue(Op::Patch(Patch::Push(node)));
                        self.enqueue(Op::Patch(Patch::Attach));
                        self.enqueue(Op::Morph(Cursor::at(node), cursor.fork()));
                        self.push(Op::Continue);
                        return;
                    },
                    _ => {},
                }
            },
            None => {},
        }
        let ghost k = cursor.node.0 as int;
        proof { lemma_in_doc(td@, k); }
        let node = tnode.copy();
        if cursor.advance(td, false) {
            self.enqueue(Op::Patch(Patch::CreateAndMoveTo { node }));
            self.enqueue(Op::Patch(Patch::Attach));
            self.enqueue(Op::Patch(Patch::Move(MoveTo::ReverseChild(0))));
            self.enqueue(Op::Patch(Patch::PushCurrent));
            self.enqueue(Op::AppendSiblings { from: from.copy(), cursor: cursor.fork() });
            self.enqueue(Op::Patch(Patch::Pop));
        } else {
            self.enqueue(Op::Patch(Patch::Create { node }));
            self.enqueue(Op::Patch(Patch::Attach));
        }
        self.push(Op::Continue);
    }

    /// One step of appending the new nodes from `to` on at the parent of
    /// `insertion_point` at the depth of `to`: the node and its following
    /// siblings, then on from the next node up.
    fn step_append_nodes(&mut self, insertion_point: Cursor, to: Cursor)
        requires
            old(self).inv(),
            cur_ok(old(self).from@, insertion_point),
            cur_ok(old(self).to@, to),
        ensures
            final(self).inv(),
            final(self).from == old(self).from,
            final(self).to == old(self).to,
            final(self).budget == old(self).budget,
            final(self).state() == step_append_nodes_v(old(self).from@, old(self).to@, old(self).state(), cv(insertion_point), cv(to)),
    {
        let fd: &'a Document = self.from;
        let td: &'a Document = self.to;
        let ghost ip0 = cv(insertion_point);
        let ghost to0 = cv(to);
        let mut insertion_point = insertion_point;
        let mut to = to;
        loop
            invariant
                wf(fd@),
                cur_ok(fd@, insertion_point),
                cv(to) == to0,
                up_below_v(fd@, cv(insertion_point), to0.path.len()) == up_below_v(fd@, ip0, to0.path.len()),
            ensures
                cur_ok(fd@, insertion_point),
                cv(to) == to0,
                cv(insertion_point) == up_below_v(fd@, ip0, to0.path.len()),
            decreases insertion_point.path@.len(),
        {
            if insertion_point.depth() < to.depth() {
                break;
            }
            if !insertion_point.move_to_parent(fd) {
                break;
            }
        }
        self.enqueue(Op::Patch(Patch::Push(insertion_point.node)));
        self.enqueue(Op::AppendSiblings { from: insertion_point.copy(), cursor: to.copy() });
        self.enqueue(Op::Patch(Patch::Pop));
        let mut done = false;
        loop
            invariant_except_break
                !done,
                climb_out_v(td@, cv(to)) == climb_out_v(td@, to0),
            invariant
                wf(td@),
                cur_ok(td@, to),
            ensures
                cur_ok(td@, to),
                done ==> climb_out_v(td@, to0) is None,
                !done ==> climb_out_v(td@, to0) == Some(cv(to)),
            decreases to.path@.len(),
        {
            if to.move_to_parent(td) {
                if to.advance(td, true) {
                    break;
                }
            } else {
                done = true;
                break;
            }
        }
        if done {
            self.push(Op::Continue);
        } else {
            self.push(Op::AppendNodes { insertion_point, to });
        }
    }

    /// One step of appending the node at `cursor` and its following
    /// siblings.
    fn step_append_siblings(&mut self, from: Cursor, cursor: Cursor)
        requires
            old(self).inv(),
            cur_ok(old(self).from@, from),
            cur_ok(old(self).to@, cursor),
        ensures
            final(self).inv(),
            final(self).from == old(self).from,
            final(self).to == old(self).to,
            final(self).budget == old(self).budget,
            final(self).state() == step_append_siblings_v(old(self).from@, old(self).to@, old(self).state(), cv(from), cv(cursor)),
    {
        let td: &'a Document = self.to;
        self.enqueue(Op::Append { from: from.copy(), cursor: cursor.fork() });
        match cursor.next_sibling(td) {
            Some(next) => {
                self.push(Op::AppendSiblings { from, cursor: next });
            },
            None => {
                self.push(Op::Continue);
            },
        }
    }

    /// Inserts the node at `cursor` of the new document before the node at
    /// `from`, with its descendants appended inside it.
    fn step_insert_before(&mut self, from: Cursor, cursor: Cursor)
        requires
            old(self).inv(),
            cur_ok(old(self).from@, from),
            cur_ok(old(self).to@, cursor),
        ensures
            final(self).inv(),
            final(self).from == old(self).from,
            final(self).to == old(self).to,
            final(self).budget == old(self).budget,
            final(self).state() == step_insert_before_v(old(self).from@, old(self).to@, old(self).state(), cv(from), cv(cursor)),
    {
        let td: &'a Document = self.to;
        let mut cursor = cursor;
        let ghost k = cursor.node.0 as int;
        proof { lemma_in_doc(td@, k); }
        let node = td.get(cursor.node).copy();
        if cursor.advance(td, false) {
            self.enqueue(Op::Patch(Patch::CreateAndMoveTo { node }));
            self.enqueue(Op::Patch(Patch::PrependBefore { before: from.node }));
            self.enqueue(Op::Patch(Patch::PushCurrent));
            self.enqueue(Op::AppendSiblings { from: from.copy(), cursor: cursor.fork() });
            self.enqueue(Op::Patch(Patch::Pop));
            self.push(Op::Continue);
        } else {
            self.push(Op::Patch(Patch::InsertBefore { before: from.node, node }));
        }
    }

    /// The next patch, or none once the walk is over.
    #[verifier::spinoff_prover]
    pub fn next(&mut self) -> (r: Option<Patch>)
        requires
            old(self).inv(),
        ensures
            final(self).inv(),
            final(self).old_doc() == old(self).old_doc(),
            final(self).new_doc() == old(self).new_doc(),
            r matches Some(p) ==> patch_in(p, old(self).old_doc(), old(self).new_doc())
                && final(self).steps_left() < old(self).steps_left(),
            old(self).twin() ==> r is None && final(self).twin(),
            (opt_patch_v(r), final(self).state()) == next_v(old(self).old_doc(), old(self).new_doc(), old(self).state()),
    {
        let ghost tw = self.twin();
        let ghost f = self.from@;
        let ghost t = self.to@;
        loop
            invariant
                self.inv(),
                self.from == old(self).from,
                self.to == old(self).to,
                f == self.from@,
                t == self.to@,
                self.budget <= old(self).budget,
                tw == old(self).twin(),
                tw ==> self.twin(),
                next_v(f, t, self.state()) == next_v(f, t, old(self).state()),
            decreases self.budget,
        {
            let ghost s = self.state();
            if self.budget == 0 {
                return None;
            }
            self.budget = self.budget - 1;
            assert(self.state() =~= (MorphV { budget: (s.budget - 1) as nat, ..s }));
            self.settle();
            let ghost s1 = self.state();
            let ghost st = self.stack@;
            let op = match self.stack.pop() {
                Some(op) => op,
                None => {
                    return None;
                },
            };
            assert(op == st[st.len() - 1]);
            assert(op_ok(st[st.len() - 1], self.from@, self.to@));
            assert(forall|i: int| 0 <= i < self.stack@.len() ==> self.stack@[i] == st[i]);
            assert(self.inv());
            assert(self.state() =~= (MorphV { stack: s1.stack.drop_last(), ..s1 }));
            assert(ov(op) == s1.stack.last());
            let ghost s2 = self.state();
            match op {
                Op::Continue => {},
                Op::RemoveNode { node, cursor, to } => {
                    self.step_remove_node(node, cursor, to);
                },
                Op::RemoveNodes { from, to } => {
                    self.step_remove_nodes(from, to);
                },
                Op::Append { from, cursor } => {
                    self.step_append(from, cursor);
                },
                Op::AppendNodes { insertion_point, to } => {
                    self.step_append_nodes(insertion_point, to);
                },
                Op::AppendSiblings { from, cursor } => {
                    self.step_append_siblings(from, cursor);
                },
                Op::InsertBefore { from, cursor } => {
                    self.step_insert_before(from, cursor);
                },
                Op::MaybeDetach { node } => {
                    if self.mark_detached(node) {
                        self.push(Op::Patch(Patch::Detach { node }));
                    } else {
                        assert(mark_v(s2, node.0 as nat) =~= s2);
                        self.push(Op::Continue);
                    }
                },
                Op::Morph(from, to) => {
                    self.step_morph(from, to);
                },
                Op::Patch(p) => {
                    return Some(p);
                },
            }
        }
    }
}

/// The state a morph of `f` into `t` starts in: a morph op at both roots,
/// nothing queued or detached, and `u64::MAX` steps.
pub open spec fn init_v(f: DocumentV, t: DocumentV) -> MorphV {
    MorphV {
        stack: seq![OpV::Morph(at_v(f.root), at_v(t.root))],
        queue: Seq::empty(),
        detached: Seq::new(f.nodes.len(), |i: int| false),
        budget: u64::MAX as nat,
    }
}

/// A step of the morph never adds steps, and one that gives a patch takes
/// at least one.
pub proof fn lemma_next_budget(f: DocumentV, t: DocumentV, s: MorphV)
    ensures
        next_v(f, t, s).1.budget <= s.budget,
        next_v(f, t, s).0 is Some ==> next_v(f, t, s).1.budget < s.budget,
    decreases s.budget,
{
    if s.budget > 0 {
        let s1 = MorphV { stack: pour_v(trim_v(s.stack), s.queue), queue: Seq::empty(), budget: (s.budget - 1) as nat, ..s };
        if s1.stack.len() > 0 {
            let op = s1.stack.last();
            let s2 = MorphV { stack: s1.stack.drop_last(), ..s1 };
            match op {
                OpV::Patch(p) => {},
                OpV::Continue => {
                    lemma_next_budget(f, t, s2);
                },
                _ => {
                    lemma_step_budget(f, t, s2, op);
                    lemma_next_budget(f, t, step_op_v(f, t, s2, op));
                },
            }
        }
    }
}

/// The patches a morph gives from state `s` on, in order.
pub open spec fn run_v(f: DocumentV, t: DocumentV, s: MorphV) -> Seq<PatchV>
    decreases s.budget,
{
    match next_v(f, t, s).0 {
        Some(p) => {
            proof { lemma_next_budget(f, t, s); }
            seq![p] + run_v(f, t, next_v(f, t, s).1)
        },
        None => Seq::empty(),
    }
}

/// The patches of the morph of `f` into `t`, by value.
pub open spec fn morph_patches(f: DocumentV, t: DocumentV) -> Seq<PatchV> {
    run_v(f, t, init_v(f, t))
}

/// A walk in a well-formed document stays on its nodes.
proof fn lemma_climb_valid(d: DocumentV, path: Seq<usize>, parent: nat)
    requires
        wf(d),
    ensures
        climb(d, path, parent) matches Some((p, n)) ==> n < d.nodes.len(),
    decreases path.len(),
{
    if path.len() > 0 {
        let index = path.last() + 1;
        if parent < d.nodes.len() && index < d.children[parent as int].len() {
            assert(d.children[parent as int][index] < d.nodes.len());
        } else if path.len() > 1 {
            if let Some(q) = d.parents[parent as int] {
                lemma_climb_valid(d, path.drop_last(), q);
            }
        }
    }
}

/// Advancing a cursor on a node of a well-formed document lands on a node.
proof fn lemma_adv_valid(d: DocumentV, c: CurV, skip: bool)
    requires
        wf(d),
        c.node < d.nodes.len(),
    ensures
        adv_v(d, c, skip) matches Some(n) ==> n.node < d.nodes.len(),
{
    if !skip && d.children[c.node as int].len() > 0 {
        assert(d.children[c.node as int][0] < d.nodes.len());
    } else if let Some(p) = d.parents[c.node as int] {
        lemma_climb_valid(d, c.path, p);
    }
}

/// The state of a morph of a document into itself that has found nothing
/// to change: nothing queued or detached, and at most a morph op with both
/// cursors at the same node of the document, or finished work.
pub open spec fn twin_v(d: DocumentV, s: MorphV) -> bool {
    &&& s.queue.len() == 0
    &&& s.stack.len() <= 1
    &&& s.detached.len() == d.nodes.len()
    &&& forall|i: int| 0 <= i < s.detached.len() ==> !#[trigger] s.detached[i]
    &&& s.stack.len() == 1 ==> match s.stack[0] {
        OpV::Continue => true,
        OpV::Morph(a, b) => a == b && a.node < d.nodes.len(),
        _ => false,
    }
}

/// From such a state, the morph of a document into itself gives nothing.
proof fn lemma_twin_next(d: DocumentV, s: MorphV)
    requires
        wf(d),
        twin_v(d, s),
    ensures
        next_v(d, d, s).0 is None,
    decreases s.budget,
{
    if s.budget > 0 {
        let s1 = MorphV { stack: pour_v(trim_v(s.stack), s.queue), queue: Seq::empty(), budget: (s.budget - 1) as nat, ..s };
        assert(pour_v(trim_v(s.stack), s.queue) == trim_v(s.stack));
        if s.stack.len() == 1 {
            assert(s.stack.drop_last() =~= Seq::<OpV>::empty());
            assert(trim_v(Seq::<OpV>::empty()) == Seq::<OpV>::empty());
        } else {
            assert(s.stack =~= Seq::<OpV>::empty());
        }
        if s1.stack.len() > 0 {
            let op = s1.stack.last();
            let s2 = MorphV { stack: s1.stack.drop_last(), ..s1 };
            assert(s1.stack == s.stack);
            assert(s2.stack =~= Seq::<OpV>::empty());
            if let OpV::Morph(a, b) = op {
                let s3 = step_op_v(d, d, s2, op);
                let fa = adv_v(d, a, false);
                lemma_adv_valid(d, a, false);
                assert(step_morph_v(d, d, s2, a, a) == aap_v(d, d, s2, a, a, Advance::BothCursors, false));
                let r = adv_op(d, d, s2, OpV::Morph(a, a), Advance::BothCursors, false);
                assert(r.1 == s2);
                assert(r.0 matches OpV::Morph(x, y) ==> x == y && x.node < d.nodes.len());
                assert(r.0 is Morph || r.0 is Continue);
                assert(s3 == push_v(s2, r.0));
                assert(twin_v(d, s3));
                lemma_twin_next(d, s3);
            }
        }
    }
}

/// A document morphed into itself needs no patch.
pub proof fn law_morph_of_equal_documents(d: DocumentV)
    requires
        wf(d),
    ensures
        morph_patches(d, d) == Seq::<PatchV>::empty(),
{
    let s = init_v(d, d);
    assert(twin_v(d, s));
    lemma_twin_next(d, s);
}

/// The value of a patch that may be there.
pub open spec fn opt_patch_v(r: Option<Patch>) -> Option<PatchV> {
    match r {
        Some(p) => Some(patch_v(p)),
        None => None,
    }
}

/// The patches that turn `old_document` into `new_document`, in the order
/// they apply. They name nodes of the old document only and carry data of
/// nodes of the new one only; a document and an equal one need no patch.
///
/// The walk ends after at most `u64::MAX` steps.
pub fn diff(old_document: &Document, new_document: &Document) -> (r: Vec<Patch>)
    requires
        old_document.well_formed(),
        new_document.well_formed(),
    ensures
        forall|i: int| 0 <= i < r@.len() ==> patch_in(#[trigger] r@[i], old_document@, new_document@),
        old_document@ == new_document@ ==> r@.len() == 0,
        r@.map_values(|p: Patch| patch_v(p)) == morph_patches(old_document@, new_document@),
{
    let mut morph = Morph::new(old_document, new_document);
    let mut out: Vec<Patch> = Vec::new();
    loop
        invariant_except_break
            out@.map_values(|p: Patch| patch_v(p)) + run_v(old_document@, new_document@, morph.state())
                == morph_patches(old_document@, new_document@),
        invariant
            morph.inv(),
            morph.old_doc() == old_document@,
            morph.new_doc() == new_document@,
            forall|i: int| 0 <= i < out@.len() ==> patch_in(#[trigger] out@[i], old_document@, new_document@),
            old_document@ == new_document@ ==> out@.len() == 0 && morph.twin(),
        ensures
            out@.map_values(|p: Patch| patch_v(p)) == morph_patches(old_document@, new_document@),
        decreases morph.steps_left(),
    {
        let ghost s = morph.state();
        let ghost o = out@;
        proof { lemma_next_budget(old_document@, new_document@, s); }
        match morph.next() {
            Some(p) => {
                out.push(p);
                assert(out@.map_values(|p: Patch| patch_v(p)) =~= o.map_values(|p: Patch| patch_v(p)).push(patch_v(p)));
                assert(run_v(old_document@, new_document@, s) == seq![patch_v(p)] + run_v(old_document@, new_document@, morph.state()));
                assert(o.map_values(|p: Patch| patch_v(p)) + (seq![patch_v(p)] + run_v(old_document@, new_document@, morph.state()))
                    =~= o.map_values(|p: Patch| patch_v(p)).push(patch_v(p)) + run_v(old_document@, new_document@, morph.state()));
            },
            None => {
                assert(run_v(old_document@, new_document@, s) =~= Seq::<PatchV>::empty());
                assert(o.map_values(|p: Patch| patch_v(p)) + Seq::<PatchV>::empty() =~= o.map_values(|p: Patch| patch_v(p)));
                break;
            },
        }
    }
    out
}

} // verus!

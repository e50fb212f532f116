//! Bringing a document up to date with a newer one: the patches of a diff
//! applied in order, each change told to the document's change handler.
use std::sync::Arc;
use vstd::prelude::*;
use crate::callbacks::ChangeType;
use crate::dom::document::{Document, DocumentV, DocumentChangeHandler, wf};
use crate::dom::node::{NodeRef, NodeData};
use crate::dom::attribute::string_eq;
use crate::dom::builder::Builder;
use super::patch::{Patch, PatchResult, patch_requires, patch_ensures, valid};
use super::morph::{diff, patch_v, morph_patches, same_attributes};

verus! {

/// The view of a sequence of patches.
pub open spec fn patches_view(ps: Seq<Patch>) -> Seq<super::morph::PatchV> {
    ps.map_values(|p: Patch| patch_v(p))
}

/// Step `i` of a trace: patch `i` applies to the state before it and leads
/// to the state after it, answering `rs[i]`.
pub open spec fn step_ok(ps: Seq<Patch>, ds: Seq<DocumentV>, poss: Seq<nat>, sts: Seq<Seq<NodeRef>>,
    rs: Seq<Option<PatchResult>>, i: int) -> bool {
    &&& patch_requires(ps[i], ds[i], poss[i], sts[i])
    &&& patch_ensures(ps[i], ds[i], poss[i], sts[i], ds[i + 1], poss[i + 1], sts[i + 1], rs[i])
}

/// The documents, insertion points and stacks `ds`, `poss`, `sts` are the
/// states between the first `k` patches of `ps`, applied in order.
pub open spec fn apply_trace(ps: Seq<Patch>, k: int, ds: Seq<DocumentV>, poss: Seq<nat>, sts: Seq<Seq<NodeRef>>,
    rs: Seq<Option<PatchResult>>) -> bool {
    &&& 0 <= k <= ps.len()
    &&& ds.len() == k + 1 && poss.len() == k + 1 && sts.len() == k + 1 && rs.len() == k
    &&& forall|i: int| 0 <= i < k ==> #[trigger] step_ok(ps, ds, poss, sts, rs, i)
}

/// Applying the first `k` patches of `ps` in order to `d`, from its root
/// with an empty stack, leads to the document `e` at insertion point `pos`
/// with stack `st`.
pub open spec fn leads_to(ps: Seq<Patch>, k: int, d: DocumentV, e: DocumentV, pos: nat, st: Seq<NodeRef>) -> bool {
    exists|ds: Seq<DocumentV>, poss: Seq<nat>, sts: Seq<Seq<NodeRef>>, rs: Seq<Option<PatchResult>>|
        #[trigger] apply_trace(ps, k, ds, poss, sts, rs)
        && ds[0] == d && poss[0] == d.root && sts[0] == Seq::<NodeRef>::empty()
        && ds[k] == e && poss[k] == pos && sts[k] == st
}

/// What merging the patches `ps` into `d`, to reach the tree of `t`, gives:
/// `Ok(n)` when all `n` of them applied in turn, leading to `e`, which holds
/// the tree of `t`; `Err(k)` with `k` below `n` when the first `k` did,
/// leading to `e`, and patch `k` does not apply there; `Err(n)` when all
/// applied, leading to `e`, which does not hold the tree of `t`.
pub open spec fn merged(ps: Seq<Patch>, d: DocumentV, e: DocumentV, t: DocumentV, r: Result<usize, usize>) -> bool {
    match r {
        Ok(n) => n == ps.len() && same_tree(e, t)
            && exists|pos: nat, st: Seq<NodeRef>| #[trigger] leads_to(ps, n as int, d, e, pos, st),
        Err(k) => if k < ps.len() {
            exists|pos: nat, st: Seq<NodeRef>| #[trigger] leads_to(ps, k as int, d, e, pos, st)
                && !patch_requires(ps[k as int], e, pos, st)
        } else {
            k == ps.len() && !same_tree(e, t)
                && exists|pos: nat, st: Seq<NodeRef>| #[trigger] leads_to(ps, k as int, d, e, pos, st)
        },
    }
}

/// Whether the subtree of `n` in `d` and that of `m` in `e` are alike down
/// to `depth` levels: the nodes hold equal data and as many children, and
/// the children at each position are alike one level less deep; nothing is
/// compared at depth 0.
pub open spec fn alike(d: DocumentV, n: nat, e: DocumentV, m: nat, depth: nat) -> bool
    decreases depth, 0nat,
{
    if depth == 0 {
        true
    } else {
        &&& d.nodes[n as int] == e.nodes[m as int]
        &&& d.children[n as int].len() == e.children[m as int].len()
        &&& children_alike(d, d.children[n as int], e, e.children[m as int], (depth - 1) as nat, d.children[n as int].len() as int)
    }
}

/// Whether the first `k` nodes of `cs` in `d` are each alike to the node at
/// the same position of `ks` in `e`, down to `depth` levels.
pub open spec fn children_alike(d: DocumentV, cs: Seq<nat>, e: DocumentV, ks: Seq<nat>, depth: nat, k: int) -> bool
    decreases depth, k + 1,
{
    if k <= 0 {
        true
    } else {
        children_alike(d, cs, e, ks, depth, k - 1) && alike(d, cs[k - 1], e, ks[k - 1], depth)
    }
}

/// Whether `d` holds the tree of `e`, whatever the numbering of the nodes:
/// their roots are alike down to as many levels as `e` has nodes, deeper
/// than any tree `e` holds.
pub open spec fn same_tree(d: DocumentV, e: DocumentV) -> bool {
    alike(d, d.root, e, e.root, e.nodes.len() + 1)
}

/// Whether two nodes hold equal data.
fn same_data(a: &NodeData, b: &NodeData) -> (r: bool)
    ensures
        r == (a@ == b@),
{
    match (a, b) {
        (NodeData::Root, NodeData::Root) => true,
        (NodeData::Leaf { value: x }, NodeData::Leaf { value: y }) => string_eq(x.as_str(), y.as_str()),
        (NodeData::NodeElement { element: x }, NodeData::NodeElement { element: y }) => {
            x.name.same(&y.name) && same_attributes(&x.attributes, &y.attributes)
        },
        _ => false,
    }
}

/// Every subtree is alike to itself.
pub proof fn lemma_alike_refl(d: DocumentV, n: nat, depth: nat)
    ensures
        alike(d, n, d, n, depth),
    decreases depth, 0nat,
{
    if depth > 0 {
        lemma_children_alike_refl(d, d.children[n as int], (depth - 1) as nat, d.children[n as int].len() as int);
    }
}

/// Every list of children is alike to itself.
proof fn lemma_children_alike_refl(d: DocumentV, cs: Seq<nat>, depth: nat, k: int)
    ensures
        children_alike(d, cs, d, cs, depth, k),
    decreases depth, k + 1,
{
    if k > 0 {
        lemma_children_alike_refl(d, cs, depth, k - 1);
        lemma_alike_refl(d, cs[k - 1], depth);
    }
}

/// Decides [alike].
fn alike_exec(d: &Document, n: NodeRef, e: &Document, m: NodeRef, depth: u64) -> (r: bool)
    requires
        wf(d@),
        wf(e@),
        valid(d@, n),
        valid(e@, m),
    ensures
        r == alike(d@, n.0 as nat, e@, m.0 as nat, depth as nat),
    decreases depth,
{
    let ghost nn = n.0 as nat;
    let ghost mm = m.0 as nat;
    if depth == 0 {
        return true;
    }
    let ghost g = (depth - 1) as nat;
    if !same_data(d.get(n), e.get(m)) {
        return false;
    }
    let dc = d.children(n);
    let ec = e.children(m);
    let ghost ds = d@.children[nn as int];
    let ghost es = e@.children[mm as int];
    if dc.len() != ec.len() {
        assert(ds.len() != es.len());
        return false;
    }
    let mut i: usize = 0;
    while i < dc.len()
        invariant
            i <= dc@.len(),
            dc@.len() == ec@.len(),
            depth > 0,
            g == (depth - 1) as nat,
            wf(d@),
            wf(e@),
            nn == n.0 as nat,
            mm == m.0 as nat,
            nn < d@.nodes.len(),
            mm < e@.nodes.len(),
            crate::dom::document::refs_view(dc@) == ds,
            crate::dom::document::refs_view(ec@) == es,
            ds == d@.children[nn as int],
            es == e@.children[mm as int],
            children_alike(d@, ds, e@, es, g, i as int),
        decreases dc@.len() - i,
    {
        assert(ds[i as int] == dc@[i as int].0);
        assert(es[i as int] == ec@[i as int].0);
        if !alike_exec(d, dc[i], e, ec[i], depth - 1) {
            proof {
                if alike(d@, nn, e@, mm, depth as nat) {
                    lemma_children_alike_prefix(d@, ds, e@, es, g, i + 1, ds.len() as int);
                }
            }
            return false;
        }
        i = i + 1;
    }
    true
}

/// The first `k` children are alike when the first `m >= k` are.
proof fn lemma_children_alike_prefix(d: DocumentV, cs: Seq<nat>, e: DocumentV, ks: Seq<nat>, depth: nat, k: int, m: int)
    requires
        k <= m,
        children_alike(d, cs, e, ks, depth, m),
    ensures
        children_alike(d, cs, e, ks, depth, k),
    decreases m - k,
{
    if k < m {
        lemma_children_alike_prefix(d, cs, e, ks, depth, k, m - 1);
    }
}

/// What the change handler is told of the answer of a patch: the kind of
/// change, the node and, but for a change in place, its parent; nothing when
/// the patch changed no node.
pub open spec fn report(change: Option<PatchResult>) -> Option<(ChangeType, NodeRef, Option<NodeRef>)> {
    match change {
        None => None,
        Some(PatchResult::Add { node, parent }) => Some((ChangeType::Add, node, Some(parent))),
        Some(PatchResult::Remove { node, parent }) => Some((ChangeType::Remove, node, Some(parent))),
        Some(PatchResult::Change { node }) => Some((ChangeType::Change, node, None)),
        Some(PatchResult::Replace { node, parent }) => Some((ChangeType::Replace, node, Some(parent))),
    }
}

/// What the handler is told of the answers `rs`, one entry for each.
pub open spec fn told_of(rs: Seq<Option<PatchResult>>) -> Seq<Option<(ChangeType, NodeRef, Option<NodeRef>)>> {
    rs.map_values(|c: Option<PatchResult>| report(c))
}

/// For each patch applied, the handler is told once, in the order of the
/// patches: an addition as an addition of that node to its parent, a
/// removal as a removal of that node from its parent, a replacement as a
/// replacement of that node under its parent, a change in place as a
/// change of that node with no parent; a patch that changed no node tells
/// nothing.
pub proof fn law_handler_told_each_change(rs: Seq<Option<PatchResult>>)
    ensures
        told_of(rs).len() == rs.len(),
        forall|k: int| 0 <= k < rs.len() ==> match #[trigger] rs[k] {
            None => told_of(rs)[k] is None,
            Some(PatchResult::Add { node, parent }) => told_of(rs)[k] == Some((ChangeType::Add, node, Some(parent))),
            Some(PatchResult::Remove { node, parent }) => told_of(rs)[k] == Some((ChangeType::Remove, node, Some(parent))),
            Some(PatchResult::Change { node }) => told_of(rs)[k] == Some((ChangeType::Change, node, None::<NodeRef>)),
            Some(PatchResult::Replace { node, parent }) => told_of(rs)[k] == Some((ChangeType::Replace, node, Some(parent))),
        },
{
}

/// The node a change names.
pub open spec fn changed_node(c: PatchResult) -> NodeRef {
    match c {
        PatchResult::Add { node, .. } => node,
        PatchResult::Remove { node, .. } => node,
        PatchResult::Change { node } => node,
        PatchResult::Replace { node, .. } => node,
    }
}

/// A patch that applied leaves the node its change names in the document.
proof fn lemma_changed_node_valid(p: Patch, d: DocumentV, pos: nat, st: Seq<NodeRef>,
    d2: DocumentV, pos2: nat, st2: Seq<NodeRef>, r: Option<PatchResult>)
    requires
        wf(d),
        patch_requires(p, d, pos, st),
        patch_ensures(p, d, pos, st, d2, pos2, st2, r),
    ensures
        r matches Some(c) ==> valid(d2, changed_node(c)),
{
}

impl Document {
    /// Applies to this document the patches that turn it into
    /// `new_document`, in order, from its root with an empty stack, and
    /// tells the change handler, if there is one, of each change. Answers
    /// `Ok` with the number of patches when all applied and the document
    /// then holds the tree of `new_document`, whatever the numbering of its
    /// nodes; `Err` with the index of the first patch that did not apply
    /// (those before it stay applied), or with the number of patches when
    /// all applied but the tree differs.
    pub fn merge_document(&mut self, new_document: &Document) -> (r: Result<usize, usize>)
        requires
            old(self).well_formed(),
            new_document.well_formed(),
        ensures
            final(self).well_formed(),
            final(self).template() == old(self).template(),
            final(self).callback() == old(self).callback(),
            exists|ps: Seq<Patch>| #[trigger] patches_view(ps) == morph_patches(old(self)@, new_document@)
                && merged(ps, old(self)@, final(self)@, new_document@, r),
            old(self)@ == new_document@ ==> r == Ok::<usize, usize>(0) && final(self)@ == old(self)@,
            exists|ps: Seq<Patch>, ds: Seq<DocumentV>, poss: Seq<nat>, sts: Seq<Seq<NodeRef>>, rs: Seq<Option<PatchResult>>|
                #[trigger] apply_trace(ps, rs.len() as int, ds, poss, sts, rs)
                && patches_view(ps) == morph_patches(old(self)@, new_document@)
                && ds[0] == old(self)@ && ds[rs.len() as int] == final(self)@
                && final(self).told() == if old(self).callback() is Some {
                    old(self).told() + told_of(rs)
                } else {
                    old(self).told()
                },
    {
        let patches = diff(self, new_document);
        let ghost d0 = self@;
        let ghost t0 = self.told();
        let ghost had = self.callback() is Some;
        let ghost ps = patches@;
        let (template, handler) = self.swap_template_and_callback(None, None);
        let mut doc = Document::empty();
        core::mem::swap(self, &mut doc);
        let mut builder = Builder::from_document(doc);
        // The patches in reverse order, so that each is taken by a pop.
        let mut all = patches;
        let mut pending: Vec<Patch> = Vec::new();
        while all.len() > 0
            invariant
                all@ + pending@.reverse() == ps,
            decreases all.len(),
        {
            let ghost a = all@;
            let ghost b = pending@;
            let p = all.pop().unwrap();
            pending.push(p);
            assert(pending@.reverse() =~= seq![p] + b.reverse());
            assert(a =~= all@.push(p));
            assert(all@ + pending@.reverse() =~= a + b.reverse());
        }
        assert(pending@.reverse() =~= ps);
        let mut stack: Vec<NodeRef> = Vec::new();
        let mut i: usize = 0;
        let ghost mut ds: Seq<DocumentV> = seq![d0];
        let ghost mut poss: Seq<nat> = seq![d0.root];
        let ghost mut sts: Seq<Seq<NodeRef>> = seq![Seq::<NodeRef>::empty()];
        let ghost mut rs: Seq<Option<PatchResult>> = Seq::empty();
        let ghost mut log: Seq<Option<(ChangeType, NodeRef, Option<NodeRef>)>> = Seq::empty();
        let n = pending.len();
        let mut result: Result<usize, usize> = Ok(n);
        while pending.len() > 0
            invariant_except_break
                result == Ok::<usize, usize>(n),
                i + pending.len() == n,
                forall|j: int| 0 <= j < pending.len() ==> pending@[j] == ps[n - 1 - j],
            invariant
                n == ps.len(),
                i <= n,
                builder.well_formed(),
                apply_trace(ps, i as int, ds, poss, sts, rs),
                ds[0] == d0 && poss[0] == d0.root && sts[0] == Seq::<NodeRef>::empty(),
                ds[i as int] == builder.doc_view() && poss[i as int] == builder.pos_view() && sts[i as int] == stack@,
                had == handler is Some,
                log == if had { told_of(rs) } else { Seq::empty() },
            ensures
                log == if had { told_of(rs) } else { Seq::empty() },
                builder.well_formed(),
                apply_trace(ps, i as int, ds, poss, sts, rs),
                ds[0] == d0 && poss[0] == d0.root && sts[0] == Seq::<NodeRef>::empty(),
                ds[i as int] == builder.doc_view() && poss[i as int] == builder.pos_view() && sts[i as int] == stack@,
                match result {
                    Ok(k) => k == n && i == n,
                    Err(k) => k == i && i < n && !patch_requires(ps[i as int], builder.doc_view(), builder.pos_view(), stack@),
                },
            decreases pending.len(),
        {
            let p = pending.pop().unwrap();
            assert(p == ps[i as int]);
            if !p.applies(&builder, &stack) {
                result = Err(i);
                break;
            }
            let ghost d = builder.doc_view();
            let ghost pos = builder.pos_view();
            let ghost st = stack@;
            let change = p.apply(&mut builder, &mut stack);
            proof {
                lemma_changed_node_valid(p, d, pos, st, builder.doc_view(), builder.pos_view(), stack@, change);
                let ods = ds;
                let oposs = poss;
                let osts = sts;
                let ors = rs;
                ds = ds.push(builder.doc_view());
                poss = poss.push(builder.pos_view());
                sts = sts.push(stack@);
                rs = rs.push(change);
                assert forall|j: int| 0 <= j < i + 1 implies #[trigger] step_ok(ps, ds, poss, sts, rs, j) by {
                    if j < i {
                        assert(step_ok(ps, ods, oposs, osts, ors, j));
                    }
                }
            }
            let said = notify(&handler, builder.document(), change);
            proof {
                if had {
                    assert(told_of(rs) =~= told_of(rs.drop_last()).push(report(change)));
                    log = log.push(said@);
                }
            }
            i = i + 1;
        }
        if result.is_ok() {
            let depth = (new_document.node_count() as u64) + 1;
            proof {
                if d0 == new_document@ {
                    lemma_alike_refl(d0, d0.root, depth as nat);
                }
            }
            if !alike_exec(builder.document(), builder.document().root(), new_document, new_document.root(), depth) {
                result = Err(n);
            }
        }
        let mut doc = builder.finish();
        let _ = doc.swap_template_and_callback(template, handler);
        doc.record_told(Ghost(t0 + log));
        *self = doc;
        proof {
            match result {
                Ok(k) => {
                    assert(leads_to(ps, k as int, d0, self@, poss[k as int], sts[k as int]));
                },
                Err(k) => {
                    assert(leads_to(ps, k as int, d0, self@, poss[k as int], sts[k as int]));
                    if k < ps.len() {
                        assert(leads_to(ps, k as int, d0, self@, poss[k as int], sts[k as int])
                            && !patch_requires(ps[k as int], self@, poss[k as int], sts[k as int]));
                    }
                },
            }
            assert(patches_view(ps) == morph_patches(d0, new_document@));
            assert(!had ==> t0 + log =~= t0);
            assert(apply_trace(ps, rs.len() as int, ds, poss, sts, rs));
        }
        result
    }
}

/// Tells `handler`, if there is one, of the change `change` made to `doc`,
/// handing it the data of the node changed; answers what it was told.
fn notify(handler: &Option<Arc<dyn DocumentChangeHandler>>, doc: &Document, change: Option<PatchResult>)
    -> (said: Ghost<Option<(ChangeType, NodeRef, Option<NodeRef>)>>)
    requires
        change matches Some(c) ==> valid(doc@, changed_node(c)),
    ensures
        handler is Some ==> said@ == report(change),
{
    let h = match handler {
        Some(h) => h,
        None => return Ghost(None),
    };
    let (kind, node, parent) = match change {
        None => return Ghost(None),
        Some(PatchResult::Add { node, parent }) => (ChangeType::Add, node, Some(parent)),
        Some(PatchResult::Remove { node, parent }) => (ChangeType::Remove, node, Some(parent)),
        Some(PatchResult::Change { node }) => (ChangeType::Change, node, None),
        Some(PatchResult::Replace { node, parent }) => (ChangeType::Replace, node, Some(parent)),
    };
    let node_ref = Arc::new(node);
    let parent_ref = match parent {
        Some(q) => Some(Arc::new(q)),
        None => None,
    };
    let ghost told = Some((kind, *node_ref, match &parent_ref {
        Some(q) => Some(**q),
        None => None,
    }));
    h.handle(kind, node_ref, doc.get(node).clone(), parent_ref);
    Ghost(told)
}

} // verus!

//! Components and whole trees: building them from diffs, merging diffs into
//! them and resolving component references.
use vstd::prelude::*;
use super::model::{find_key, lemma_find_key, lemma_find_key_keys, stream_from_attrs, child_from_diff, fragment_from_diff, component_from_diff, merge_templates, should_replace_current, merge_child, merge_children, merge_fragment, merge_component, merge_components, components_from_diff, ctx_get, merge_trees, merge_tree_entries, lemma_merge_tree_entries_unfold, resolve_cids, resolve_prefix, resolve_components, root_new, root_from_diff, merge_root, refs_in_range, child_statics};
use super::types::{Templates, Statics, Stream, StreamAttribute, Child, ChildDiff, Fragment, FragmentDiff, ComponentStatics, Component, ComponentDiff, Root, RootDiff, ChildV, ComponentStaticsV, ComponentV, ComponentDiffV, RootV, strings_view, stream_view, templates_view, child_view, fragment_view, entries_view, diff_entries_view, component_view, components_view, component_diff_view, component_diffs_view, lemma_entries_view};

use super::clone::{clone_component, clone_entries, clone_child, clone_strings};
use super::error::{MergeError, StreamConversionError};
use super::merge::{find_entry, keys_of, result_child_view, result_entries_view, result_component_view, result_components_view,
    merge_children_exec, fragment_from_diff_exec, merge_fragment_exec, result_fragment_view, insert_entry_exec,
    merge_child_exec, child_from_diff_exec, merge_templates_exec, stream_from_attrs_exec, attrs_view, should_replace_current_exec};
use crate::text::{decimal, u64_text};

verus! {

/// A component built from an update: only a full replacement can be.
pub fn component_from_diff_exec(d: ComponentDiff) -> (r: Result<Component, MergeError>)
    ensures
        result_component_view(r) == component_from_diff(component_diff_view(d)),
{
    match d {
        ComponentDiff::UpdateRegular { .. } => Err(MergeError::CreateComponentFromUpdate),
        ComponentDiff::ReplaceCurrent { children, statics, .. } => Ok(Component { children, statics, is_root: None }),
    }
}

/// The merge of an update into a component.
pub fn merge_component_exec(c: Component, d: ComponentDiff) -> (r: Result<Component, MergeError>)
    ensures
        result_component_view(r) == merge_component(component_view(c), component_diff_view(d)),
{
    match d {
        ComponentDiff::UpdateRegular { children: diffs, .. } => match merge_children_exec(c.children, diffs) {
            Ok(ch) => Ok(Component { children: ch, statics: c.statics, is_root: None }),
            Err(e) => Err(e),
        },
        ComponentDiff::ReplaceCurrent { children, statics, .. } => Ok(Component { children, statics, is_root: None }),
    }
}

/// Keys of components and of their views agree.
proof fn lemma_keys_components(s: Seq<(String, Component)>, k: Seq<char>)
    ensures
        find_key(keys_of(s), k) == find_key(components_view(s), k),
{
    assert forall|i: int| 0 <= i < s.len() implies #[trigger] keys_of(s)[i].0 == components_view(s)[i].0 by {}
    lemma_find_key_keys(keys_of(s), components_view(s), k);
}

proof fn lemma_merge_components_err(cur: Seq<(Seq<char>, ComponentV)>, ds: Seq<(Seq<char>, ComponentDiffV)>, i: int, e: MergeError)
    requires
        0 <= i <= ds.len(),
        merge_components(cur, ds.take(i)) == Err::<Seq<(Seq<char>, ComponentV)>, MergeError>(e),
    ensures
        merge_components(cur, ds) == Err::<Seq<(Seq<char>, ComponentV)>, MergeError>(e),
    decreases ds.len() - i,
{
    if i < ds.len() {
        assert(ds.take(i + 1).drop_last() =~= ds.take(i));
        lemma_merge_components_err(cur, ds, i + 1, e);
    } else {
        assert(ds.take(i) =~= ds);
    }
}

/// The merge of keyed component updates into the components, in order.
#[verifier::rlimit(60)]
pub fn merge_components_exec(cur: Vec<(String, Component)>, diffs: Vec<(String, ComponentDiff)>) -> (r: Result<Vec<(String, Component)>, MergeError>)
    ensures
        result_components_view(r) == merge_components(components_view(cur@), component_diffs_view(diffs@)),
{
    let ghost orig = diffs@;
    let ghost ds = component_diffs_view(orig);
    let ghost cv = components_view(cur@);
    let n = diffs.len();
    let mut rest = diffs;
    let mut acc = cur;
    let mut i: usize = 0;
    assert(ds.take(0) =~= Seq::<(Seq<char>, ComponentDiffV)>::empty());
    while i < n
        invariant
            n == orig.len(),
            orig == diffs@,
            ds == component_diffs_view(orig),
            cv == components_view(cur@),
            i <= n,
            rest@ == orig.skip(i as int),
            merge_components(cv, ds.take(i as int)) == Ok::<_, MergeError>(components_view(acc@)),
        decreases n - i,
    {
        let (k, d) = rest.remove(0);
        proof {
            assert(orig[i as int] == (k, d));
            assert(ds.take(i + 1).drop_last() =~= ds.take(i as int));
            assert(ds.take(i + 1).last() == (k@, component_diff_view(d)));
            lemma_keys_components(acc@, k@);
            lemma_find_key(components_view(acc@), k@);
        }
        match find_entry(&acc, &k) {
            Some(p) => {
                let c = clone_component(&acc[p].1);
                let m = match merge_component_exec(c, d) {
                    Ok(m) => m,
                    Err(e) => {
                        proof { lemma_merge_components_err(cv, ds, i + 1, e); }
                        return Err(e);
                    },
                };
                let ghost before = acc@;
                acc.set(p, (k, m));
                assert(components_view(acc@) =~= components_view(before).update(p as int, (k@, component_view(m))));
            },
            None => {
                let m = match component_from_diff_exec(d) {
                    Ok(m) => m,
                    Err(e) => {
                        proof { lemma_merge_components_err(cv, ds, i + 1, e); }
                        return Err(e);
                    },
                };
                let ghost before = acc@;
                acc.push((k, m));
                assert(components_view(acc@) =~= components_view(before).push((k@, component_view(m))));
            },
        }
        i = i + 1;
        assert(rest@ =~= orig.skip(i as int));
    }
    assert(ds.take(n as int) =~= ds);
    Ok(acc)
}

proof fn lemma_components_from_diff_err(ds: Seq<(Seq<char>, ComponentDiffV)>, i: int, e: MergeError)
    requires
        0 <= i <= ds.len(),
        components_from_diff(ds.take(i)) == Err::<Seq<(Seq<char>, ComponentV)>, MergeError>(e),
    ensures
        components_from_diff(ds) == Err::<Seq<(Seq<char>, ComponentV)>, MergeError>(e),
    decreases ds.len() - i,
{
    if i < ds.len() {
        assert(ds.take(i + 1).drop_last() =~= ds.take(i));
        lemma_components_from_diff_err(ds, i + 1, e);
    } else {
        assert(ds.take(i) =~= ds);
    }
}

/// The components built from keyed updates; a later key replaces an earlier one.
#[verifier::rlimit(60)]
pub fn components_from_diff_exec(diffs: Vec<(String, ComponentDiff)>) -> (r: Result<Vec<(String, Component)>, MergeError>)
    ensures
        result_components_view(r) == components_from_diff(component_diffs_view(diffs@)),
{
    let ghost orig = diffs@;
    let ghost ds = component_diffs_view(orig);
    let n = diffs.len();
    let mut rest = diffs;
    let mut acc: Vec<(String, Component)> = Vec::new();
    let mut i: usize = 0;
    assert(ds.take(0) =~= Seq::<(Seq<char>, ComponentDiffV)>::empty());
    assert(components_view(acc@) =~= Seq::<(Seq<char>, ComponentV)>::empty());
    while i < n
        invariant
            n == orig.len(),
            orig == diffs@,
            ds == component_diffs_view(orig),
            i <= n,
            rest@ == orig.skip(i as int),
            components_from_diff(ds.take(i as int)) == Ok::<_, MergeError>(components_view(acc@)),
        decreases n - i,
    {
        let (k, d) = rest.remove(0);
        proof {
            assert(orig[i as int] == (k, d));
            assert(ds.take(i + 1).drop_last() =~= ds.take(i as int));
            assert(ds.take(i + 1).last() == (k@, component_diff_view(d)));
        }
        let m = match component_from_diff_exec(d) {
            Ok(m) => m,
            Err(e) => {
                proof { lemma_components_from_diff_err(ds, i + 1, e); }
                return Err(e);
            },
        };
        let ghost before = acc@;
        proof {
            lemma_keys_components(before, k@);
            lemma_find_key(keys_of(before), k@);
        }
        insert_entry_exec(&mut acc, k, m);
        proof {
            match find_key(keys_of(before), k@) {
                Some(p) => {
                    assert(components_view(acc@) =~= components_view(before).update(p, (k@, component_view(m))));
                },
                None => {
                    assert(components_view(acc@) =~= components_view(before).push((k@, component_view(m))));
                },
            }
        }
        i = i + 1;
        assert(rest@ =~= orig.skip(i as int));
    }
    assert(ds.take(n as int) =~= ds);
    Ok(acc)
}


/// The components a component reference may name: those of the previous tree
/// (negative ids) and those of the new tree.
pub struct ResolveCtx<'a> {
    pub old_components: &'a Vec<(String, Component)>,
    pub new_components: &'a Vec<(String, Component)>,
}

impl<'a> ResolveCtx<'a> {
    /// The component that `cid` names.
    pub fn get(&self, cid: i32) -> (r: Result<&'a Component, MergeError>)
        requires
            cid != i32::MIN,
        ensures
            result_component_view(match r { Ok(c) => Ok(*c), Err(e) => Err(e) })
                == ctx_get(components_view(self.old_components@), components_view(self.new_components@), cid),
    {
        let abs: i32 = if cid < 0 { -cid } else { cid };
        let abs_id = u64_text(abs as u64);
        let ghost key = decimal(if cid < 0 { (-cid) as nat } else { cid as nat });
        assert(abs_id@ == key);
        if cid < 0 {
            let comps: &'a Vec<(String, Component)> = self.old_components;
            proof {
                lemma_keys_components(comps@, key);
                lemma_find_key(components_view(comps@), key);
            }
            match find_entry(comps, &abs_id) {
                Some(i) => Ok(&comps[i].1),
                None => Err(MergeError::MissingComponent(cid)),
            }
        } else {
            let comps: &'a Vec<(String, Component)> = self.new_components;
            proof {
                lemma_keys_components(comps@, key);
                lemma_find_key(components_view(comps@), key);
            }
            match find_entry(comps, &abs_id) {
                Some(i) => Ok(&comps[i].1),
                None => Err(MergeError::MissingComponent(cid)),
            }
        }
    }
}

proof fn lemma_merge_tree_entries_err(cur: Seq<(Seq<char>, ChildV)>, ns: Seq<(Seq<char>, ChildV)>, i: int, e: MergeError)
    requires
        0 <= i <= ns.len(),
        merge_tree_entries(cur, ns.take(i)) == Err::<Seq<(Seq<char>, ChildV)>, MergeError>(e),
    ensures
        merge_tree_entries(cur, ns) == Err::<Seq<(Seq<char>, ChildV)>, MergeError>(e),
    decreases ns.len() - i,
{
    if i < ns.len() {
        assert(ns.take(i + 1).drop_last() =~= ns.take(i));
        lemma_merge_tree_entries_err(cur, ns, i + 1, e);
    } else {
        assert(ns.take(i) =~= ns);
    }
}

proof fn lemma_keys_entries_of(s: Seq<(String, Child)>, k: Seq<char>)
    ensures
        find_key(keys_of(s), k) == find_key(entries_view(s), k),
{
    lemma_entries_view(s);
    assert forall|i: int| 0 <= i < s.len() implies #[trigger] keys_of(s)[i].0 == entries_view(s)[i].0 by {}
    lemma_find_key_keys(keys_of(s), entries_view(s), k);
}

/// Copies what `new` has and `old` lacks: missing statics, and children
/// (merged recursively where both have them).
pub fn merge_trees_exec(old: Child, new: Child) -> (r: Result<Child, MergeError>)
    ensures
        result_child_view(r) == merge_trees(child_view(old), child_view(new)),
    decreases new,
{
    match new {
        Child::Fragment(n) => match old {
            Child::Fragment(o) => match n {
                Fragment::Comprehension { statics: new_statics, .. } => match o {
                    Fragment::Comprehension { dynamics, statics, is_root, templates, stream, new_render } => {
                        let statics = if statics.is_none() { new_statics } else { statics };
                        Ok(Child::Fragment(Fragment::Comprehension { dynamics, statics, is_root, templates, stream, new_render }))
                    },
                    _ => Err(MergeError::FragmentTypeMismatch),
                },
                Fragment::Regular { statics: new_statics, children: new_children, .. } => {
                    proof { assert(decreases_to!(new => new_children)); }
                    match o {
                        Fragment::Regular { statics, is_root, children, new_render } => {
                            let statics = if statics.is_none() { new_statics } else { statics };
                            match merge_tree_entries_exec(children, new_children) {
                                Ok(c) => Ok(Child::Fragment(Fragment::Regular { statics, is_root, children: c, new_render })),
                                Err(e) => Err(e),
                            }
                        },
                        _ => Err(MergeError::FragmentTypeMismatch),
                    }
                },
            },
            Child::ComponentID(_) => Err(MergeError::UnresolvedComponent),
            Child::String(s) => Ok(Child::String(s)),
        },
        Child::ComponentID(_) => Err(MergeError::UnresolvedComponent),
        Child::String(_) => match old {
            Child::ComponentID(_) => Err(MergeError::UnresolvedComponent),
            _ => Ok(old),
        },
    }
}

/// [merge_trees_exec] over keyed children, taking the new children in order.
#[verifier::rlimit(60)]
pub fn merge_tree_entries_exec(cur: Vec<(String, Child)>, new: Vec<(String, Child)>) -> (r: Result<Vec<(String, Child)>, MergeError>)
    ensures
        result_entries_view(r) == merge_tree_entries(entries_view(cur@), entries_view(new@)),
    decreases new,
{
    let ghost orig = new@;
    let ghost ns = entries_view(orig);
    let ghost cv = entries_view(cur@);
    proof { lemma_entries_view(orig); }
    let n = new.len();
    let mut rest = new;
    let mut acc = cur;
    let mut i: usize = 0;
    assert(ns.take(0) =~= Seq::<(Seq<char>, ChildV)>::empty());
    while i < n
        invariant
            n == orig.len(),
            orig == new@,
            ns == entries_view(orig),
            ns.len() == n,
            cv == entries_view(cur@),
            forall|j: int| 0 <= j < n ==> #[trigger] ns[j] == (orig[j].0@, child_view(orig[j].1)),
            i <= n,
            rest@ == orig.skip(i as int),
            merge_tree_entries(cv, ns.take(i as int)) == Ok::<_, MergeError>(entries_view(acc@)),
            forall|j: int| 0 <= j < n ==> decreases_to!(new => #[trigger] orig[j].1),
        decreases n - i,
    {
        proof {
            assert(decreases_to!(new => new@));
        }
        let (k, c) = rest.remove(0);
        proof {
            assert(orig[i as int] == (k, c));
            lemma_merge_tree_entries_unfold(cv, ns, i as int);
            lemma_keys_entries_of(acc@, k@);
            lemma_entries_view(acc@);
            lemma_find_key(entries_view(acc@), k@);
        }
        match find_entry(&acc, &k) {
            Some(p) => {
                let old_child = clone_child(&acc[p].1);
                let m = match merge_trees_exec(old_child, c) {
                    Ok(m) => m,
                    Err(e) => {
                        proof { lemma_merge_tree_entries_err(cv, ns, i + 1, e); }
                        return Err(e);
                    },
                };
                let ghost before = acc@;
                acc.set(p, (k, m));
                proof {
                    lemma_entries_view(acc@);
                    assert(entries_view(acc@) =~= entries_view(before).update(p as int, (k@, child_view(m))));
                }
            },
            None => {
                let ghost before = acc@;
                let ghost cview = child_view(c);
                acc.push((k, c));
                proof {
                    lemma_entries_view(acc@);
                    assert(entries_view(acc@) =~= entries_view(before).push((k@, cview)));
                }
            },
        }
        i = i + 1;
        assert(rest@ =~= orig.skip(i as int));
    }
    assert(ns.take(n as int) =~= ns);
    Ok(acc)
}

impl Component {
    /// Resolves a reference to another component's statics: this component
    /// takes that component's statics and children.
    pub fn resolve_cids(&mut self, ctx: &ResolveCtx) -> (r: Result<(), MergeError>)
        requires
            old(self).statics != ComponentStatics::ComponentRef(i32::MIN),
        ensures
            match r {
                Ok(()) => resolve_cids(component_view(*old(self)), components_view(ctx.old_components@), components_view(ctx.new_components@))
                    == Ok::<_, MergeError>(component_view(*final(self))),
                Err(e) => resolve_cids(component_view(*old(self)), components_view(ctx.old_components@), components_view(ctx.new_components@))
                    == Err::<ComponentV, MergeError>(e),
            },
    {
        match self.statics {
            ComponentStatics::ComponentRef(id) => {
                let comp = match ctx.get(id) {
                    Ok(c) => clone_component(c),
                    Err(e) => return Err(e),
                };
                let children = clone_entries(&self.children);
                match merge_tree_entries_exec(children, comp.children) {
                    Ok(c) => {
                        self.children = c;
                        self.statics = comp.statics;
                        Ok(())
                    },
                    Err(e) => Err(e),
                }
            },
            ComponentStatics::Statics(_) => Ok(()),
        }
    }
}


/// Resolving a prefix changes only that prefix.
proof fn lemma_resolve_prefix(comps: Seq<(Seq<char>, ComponentV)>, old: Seq<(Seq<char>, ComponentV)>, n: int)
    requires
        0 <= n <= comps.len(),
    ensures
        resolve_prefix(comps, old, n) matches Ok(acc) ==> acc.len() == comps.len()
            && forall|j: int| n <= j < comps.len() ==> #[trigger] acc[j] == comps[j],
    decreases n,
{
    if n > 0 {
        lemma_resolve_prefix(comps, old, n - 1);
    }
}

proof fn lemma_resolve_prefix_err(comps: Seq<(Seq<char>, ComponentV)>, old: Seq<(Seq<char>, ComponentV)>, n: int, e: MergeError)
    requires
        0 <= n <= comps.len(),
        resolve_prefix(comps, old, n) == Err::<Seq<(Seq<char>, ComponentV)>, MergeError>(e),
    ensures
        resolve_components(comps, old) == Err::<Seq<(Seq<char>, ComponentV)>, MergeError>(e),
    decreases comps.len() - n,
{
    if n < comps.len() {
        lemma_resolve_prefix_err(comps, old, n + 1, e);
    }
}

/// The view of a tree result.
pub open spec fn result_root_view(r: Result<Root, MergeError>) -> Result<RootV, MergeError> {
    match r {
        Ok(x) => Ok(x@),
        Err(e) => Err(e),
    }
}

impl Root {
    /// create a new root, resolving the CID's
    #[verifier::rlimit(60)]
    pub fn new(fragment: Fragment, old_components: Vec<(String, Component)>, new_components: Vec<(String, Component)>) -> (r: Result<Self, MergeError>)
        requires
            refs_in_range(components_view(new_components@)),
        ensures
            result_root_view(r) == root_new(fragment_view(fragment), components_view(old_components@), components_view(new_components@)),
    {
        let snapshot = clone_components(&new_components);
        let ghost sv = components_view(new_components@);
        let ghost ov = components_view(old_components@);
        let ctx = ResolveCtx { old_components: &old_components, new_components: &snapshot };
        let mut comps = new_components;
        let n = comps.len();
        let mut i: usize = 0;
        while i < n
            invariant
                n == sv.len(),
                i <= n,
                sv == components_view(snapshot@),
                sv == components_view(new_components@),
                ov == components_view(old_components@),
                ctx.old_components == &old_components,
                ctx.new_components == &snapshot,
                refs_in_range(sv),
                resolve_prefix(sv, ov, i as int) == Ok::<_, MergeError>(components_view(comps@)),
            decreases n - i,
        {
            proof {
                lemma_resolve_prefix(sv, ov, i as int);
                assert(components_view(comps@)[i as int] == sv[i as int]);
            }
            let mut c = clone_component(&comps[i].1);
            match c.resolve_cids(&ctx) {
                Ok(()) => {},
                Err(e) => {
                    proof { lemma_resolve_prefix_err(sv, ov, i as int + 1, e); }
                    return Err(e);
                },
            }
            let k = comps[i].0.clone();
            let ghost before = comps@;
            comps.set(i, (k, c));
            assert(components_view(comps@) =~= components_view(before).update(i as int, (sv[i as int].0, component_view(c))));
            i = i + 1;
        }
        Ok(Root { new_render: None, fragment, components: comps })
    }

    /// The tree built from an update, as if there were nothing to update.
    pub fn try_from_diff(value: RootDiff) -> (r: Result<Self, MergeError>)
        requires
            forall|i: int| 0 <= i < value.components@.len() ==> match #[trigger] value.components@[i].1 {
                ComponentDiff::ReplaceCurrent { statics, .. } => statics != ComponentStatics::ComponentRef(i32::MIN),
                _ => true,
            },
        ensures
            result_root_view(r) == root_from_diff(value@),
    {
        let components = match components_from_diff_exec(value.components) {
            Ok(c) => c,
            Err(e) => return Err(e),
        };
        let fragment = match fragment_from_diff_exec(value.fragment) {
            Ok(f) => f,
            Err(e) => return Err(e),
        };
        proof { lemma_components_from_diff_refs(component_diffs_view(value.components@)); }
        let empty: Vec<(String, Component)> = Vec::new();
        assert(components_view(empty@) =~= Seq::<(Seq<char>, ComponentV)>::empty());
        Root::new(fragment, empty, components)
    }
}

/// Copies components.
pub fn clone_components(v: &Vec<(String, Component)>) -> (r: Vec<(String, Component)>)
    ensures
        components_view(r@) == components_view(v@),
{
    let mut out: Vec<(String, Component)> = Vec::new();
    let mut i: usize = 0;
    while i < v.len()
        invariant
            i <= v.len(),
            components_view(out@) =~= components_view(v@.take(i as int)),
        decreases v.len() - i,
    {
        let ghost before = out@;
        let e = (v[i].0.clone(), clone_component(&v[i].1));
        out.push(e);
        assert(components_view(out@) =~= components_view(before).push((e.0@, component_view(e.1))));
        assert(v@.take(i + 1) =~= v@.take(i as int).push(v@[i as int]));
        i = i + 1;
    }
    assert(v@.take(v.len() as int) =~= v@);
    out
}

/// Components built from updates keep the references of the updates.
proof fn lemma_components_from_diff_refs(ds: Seq<(Seq<char>, ComponentDiffV)>)
    requires
        forall|i: int| 0 <= i < ds.len() ==> match #[trigger] ds[i].1 {
            ComponentDiffV::ReplaceCurrent { statics, .. } => statics != ComponentStaticsV::ComponentRef(i32::MIN),
            _ => true,
        },
    ensures
        components_from_diff(ds) matches Ok(cs) ==> refs_in_range(cs),
    decreases ds.len(),
{
    if ds.len() > 0 {
        lemma_components_from_diff_refs(ds.drop_last());
        assert(ds.drop_last().len() == ds.len() - 1);
        assert forall|i: int| 0 <= i < ds.drop_last().len() implies match #[trigger] ds.drop_last()[i].1 {
            ComponentDiffV::ReplaceCurrent { statics, .. } => statics != ComponentStaticsV::ComponentRef(i32::MIN),
            _ => true,
        } by {
            assert(ds.drop_last()[i] == ds[i]);
        }
        lemma_components_from_diff_refs(ds.drop_last());
        match components_from_diff(ds.drop_last()) {
            Ok(acc) => {
                let last = ds[ds.len() - 1];
                match component_from_diff(last.1) {
                    Ok(c) => {
                        lemma_find_key(acc, last.0);
                    },
                    Err(_) => {},
                }
            },
            Err(_) => {},
        }
    }
}


/// Merging a diff into a value of the tree.
pub trait FragmentMerge: Sized {
    /// The kind of diff this value takes.
    type DiffItem;

    /// What a merge needs of its arguments.
    spec fn merge_requires(&self, diff: &Self::DiffItem) -> bool;

    /// Merges `diff` into this value.
    fn merge(self, diff: Self::DiffItem) -> (r: Result<Self, MergeError>)
        requires
            self.merge_requires(&diff),
    ;
}

impl FragmentMerge for Root {
    type DiffItem = RootDiff;

    open spec fn merge_requires(&self, diff: &RootDiff) -> bool {
        merge_components(self@.components, diff@.components) matches Ok(nc) ==> refs_in_range(nc)
    }

    fn merge(self, diff: RootDiff) -> (r: Result<Self, MergeError>)
        ensures
            result_root_view(r) == merge_root(self@, diff@),
    {
        let old_components = clone_components(&self.components);
        let fragment = match merge_fragment_exec(self.fragment, diff.fragment) {
            Ok(f) => f,
            Err(e) => return Err(e),
        };
        let new_components = match merge_components_exec(self.components, diff.components) {
            Ok(c) => c,
            Err(e) => return Err(e),
        };
        Root::new(fragment, old_components, new_components)
    }
}

impl FragmentMerge for Fragment {
    type DiffItem = FragmentDiff;

    open spec fn merge_requires(&self, diff: &FragmentDiff) -> bool {
        true
    }

    fn merge(self, diff: FragmentDiff) -> (r: Result<Self, MergeError>)
        ensures
            result_fragment_view(r) == merge_fragment(self@, diff@),
    {
        merge_fragment_exec(self, diff)
    }
}

impl FragmentMerge for Child {
    type DiffItem = ChildDiff;

    open spec fn merge_requires(&self, diff: &ChildDiff) -> bool {
        true
    }

    fn merge(self, diff: ChildDiff) -> (r: Result<Self, MergeError>)
        ensures
            result_child_view(r) == merge_child(self@, diff@),
    {
        merge_child_exec(self, diff)
    }
}

impl FragmentMerge for Component {
    type DiffItem = ComponentDiff;

    open spec fn merge_requires(&self, diff: &ComponentDiff) -> bool {
        true
    }

    fn merge(self, diff: ComponentDiff) -> (r: Result<Self, MergeError>)
        ensures
            result_component_view(r) == merge_component(self@, diff@),
    {
        merge_component_exec(self, diff)
    }
}

impl FragmentMerge for Vec<(String, Child)> {
    type DiffItem = Vec<(String, ChildDiff)>;

    open spec fn merge_requires(&self, diff: &Vec<(String, ChildDiff)>) -> bool {
        true
    }

    fn merge(self, diff: Vec<(String, ChildDiff)>) -> (r: Result<Self, MergeError>)
        ensures
            result_entries_view(r) == merge_children(entries_view(self@), diff_entries_view(diff@)),
    {
        merge_children_exec(self, diff)
    }
}

impl FragmentMerge for Vec<(String, Component)> {
    type DiffItem = Vec<(String, ComponentDiff)>;

    open spec fn merge_requires(&self, diff: &Vec<(String, ComponentDiff)>) -> bool {
        true
    }

    fn merge(self, diff: Vec<(String, ComponentDiff)>) -> (r: Result<Self, MergeError>)
        ensures
            result_components_view(r) == merge_components(components_view(self@), component_diffs_view(diff@)),
    {
        merge_components_exec(self, diff)
    }
}

impl FragmentMerge for Templates {
    type DiffItem = Templates;

    open spec fn merge_requires(&self, diff: &Templates) -> bool {
        true
    }

    fn merge(self, diff: Templates) -> (r: Result<Self, MergeError>)
        ensures
            r matches Ok(t) && templates_view(t) == merge_templates(templates_view(self), templates_view(diff)),
    {
        Ok(merge_templates_exec(self, diff))
    }
}

impl Child {
    /// A node built from an update, as if there were nothing to update.
    pub fn try_from_diff(value: ChildDiff) -> (r: Result<Self, MergeError>)
        ensures
            result_child_view(r) == child_from_diff(value@),
    {
        child_from_diff_exec(value)
    }

    /// The statics of a fragment child, when they are a list of strings.
    pub fn statics(&self) -> (r: Option<Vec<String>>)
        ensures
            match r {
                Some(v) => child_statics(self@) == Some(strings_view(v@)),
                None => child_statics(self@) is None,
            },
    {
        match self {
            Child::Fragment(Fragment::Regular { statics: Some(Statics::Statics(statics)), .. }) => Some(clone_strings(statics)),
            Child::Fragment(Fragment::Comprehension { statics: Some(Statics::Statics(statics)), .. }) => Some(clone_strings(statics)),
            _ => None,
        }
    }
}

impl Fragment {
    /// A fragment built from an update, as if there were nothing to update.
    pub fn try_from_diff(value: FragmentDiff) -> (r: Result<Self, MergeError>)
        ensures
            result_fragment_view(r) == fragment_from_diff(value@),
    {
        fragment_from_diff_exec(value)
    }
}

impl Component {
    /// A component built from an update: only a full replacement can be.
    pub fn try_from_diff(value: ComponentDiff) -> (r: Result<Self, MergeError>)
        ensures
            result_component_view(r) == component_from_diff(value@),
    {
        component_from_diff_exec(value)
    }
}

impl Stream {
    /// The stream described by a list of stream instructions.
    pub fn try_from_attrs(stream_attrs: Vec<StreamAttribute>) -> (r: Result<Self, StreamConversionError>)
        ensures
            r matches Ok(s) && stream_view(s) == stream_from_attrs(attrs_view(stream_attrs@)),
    {
        Ok(stream_from_attrs_exec(&stream_attrs))
    }
}

impl FragmentDiff {
    /// Whether this update carries statics, and so replaces the fragment.
    pub fn should_replace_current(&self) -> (r: bool)
        ensures
            r == should_replace_current(self@),
    {
        should_replace_current_exec(self)
    }
}

} // verus!

//! Turning server diffs into fragments, and merging them into existing ones.
use vstd::prelude::*;
use super::types::{Templates, OneOrManyStrings, StreamItem, Stream, StreamAttribute, Child, ChildDiff, Fragment, FragmentDiff, Component, StringsV, StreamItemV, StreamV, StreamAttrV, ChildV, FragmentV, ChildDiffV, ComponentV, strings_view, stream_item_view, stream_view, stream_attr_view, templates_view, child_view, fragment_view, entries_view, row_view, rows_view, child_diff_view, fragment_diff_view, diff_entries_view, diff_row_view, diff_rows_view, component_view, components_view, lemma_entries_view, lemma_row_view, lemma_rows_view, lemma_diff_entries_view};
use super::model::{find_key, insert_entry, lemma_find_key, lemma_find_key_keys, stream_from_attrs, inserts_items, child_from_diff, fragment_from_diff, children_from_diff, row_from_diff, rows_from_diff, merge_templates, insert_all, should_replace_current, stream_marker, row_has_marker, first_marked_row, apply_inserts, apply_deletes, stream_step, apply_stream_update, lemma_stream_update_unfold, merge_child, merge_children, lemma_merge_children_unfold, merge_fragment};

use super::clone::{clone_child, clone_row, clone_rows, clone_strings};
use super::error::MergeError;

verus! {



/// The keys of keyed entries, paired with nothing.
pub open spec fn keys_of<X>(s: Seq<(String, X)>) -> Seq<(Seq<char>, ())> {
    s.map_values(|e: (String, X)| (e.0@, ()))
}

/// The position of the first entry with key `k`.
pub fn find_entry<X>(v: &Vec<(String, X)>, k: &String) -> (r: Option<usize>)
    ensures
        match r {
            Some(i) => find_key(keys_of(v@), k@) == Some(i as int),
            None => find_key(keys_of(v@), k@) is None,
        },
{
    let ghost s = keys_of(v@);
    proof { lemma_find_key(s, k@); }
    let mut i: usize = 0;
    while i < v.len()
        invariant
            i <= v.len(),
            s == keys_of(v@),
            s.len() == v.len(),
            forall|j: int| 0 <= j < i ==> s[j].0 != k@,
            find_key(s, k@) matches Some(p) ==> 0 <= p < s.len() && s[p].0 == k@
                && forall|j: int| 0 <= j < p ==> s[j].0 != k@,
            find_key(s, k@) is None <==> forall|j: int| 0 <= j < s.len() ==> s[j].0 != k@,
        decreases v.len() - i,
    {
        if v[i].0 == *k {
            assert(s[i as int].0 == k@);
            proof {
                let p = find_key(s, k@).unwrap();
                if p < i as int {
                    assert(s[p].0 != k@);
                }
            }
            return Some(i);
        }
        i = i + 1;
    }
    None
}


/// Stores `x` under `k`, replacing the entry already stored there.
pub fn insert_entry_exec<X>(acc: &mut Vec<(String, X)>, k: String, x: X)
    ensures
        final(acc)@ == match find_key(keys_of(old(acc)@), k@) {
            Some(i) => old(acc)@.update(i, (k, x)),
            None => old(acc)@.push((k, x)),
        },
{
    proof { lemma_find_key(keys_of(acc@), k@); }
    match find_entry(acc, &k) {
        Some(i) => {
            acc.set(i, (k, x));
        },
        None => {
            acc.push((k, x));
        },
    }
}

pub open spec fn result_child_view(r: Result<Child, MergeError>) -> Result<ChildV, MergeError> {
    match r {
        Ok(c) => Ok(child_view(c)),
        Err(e) => Err(e),
    }
}

pub open spec fn result_fragment_view(r: Result<Fragment, MergeError>) -> Result<FragmentV, MergeError> {
    match r {
        Ok(c) => Ok(fragment_view(c)),
        Err(e) => Err(e),
    }
}

pub open spec fn result_entries_view(r: Result<Vec<(String, Child)>, MergeError>) -> Result<Seq<(Seq<char>, ChildV)>, MergeError> {
    match r {
        Ok(c) => Ok(entries_view(c@)),
        Err(e) => Err(e),
    }
}

pub open spec fn result_row_view(r: Result<Vec<Child>, MergeError>) -> Result<Seq<ChildV>, MergeError> {
    match r {
        Ok(c) => Ok(row_view(c@)),
        Err(e) => Err(e),
    }
}

pub open spec fn result_rows_view(r: Result<Vec<Vec<Child>>, MergeError>) -> Result<Seq<Seq<ChildV>>, MergeError> {
    match r {
        Ok(c) => Ok(rows_view(c@)),
        Err(e) => Err(e),
    }
}

pub open spec fn result_component_view(r: Result<Component, MergeError>) -> Result<ComponentV, MergeError> {
    match r {
        Ok(c) => Ok(component_view(c)),
        Err(e) => Err(e),
    }
}

pub open spec fn result_components_view(r: Result<Vec<(String, Component)>, MergeError>) -> Result<Seq<(Seq<char>, ComponentV)>, MergeError> {
    match r {
        Ok(c) => Ok(components_view(c@)),
        Err(e) => Err(e),
    }
}

/// Entry views after storing under a key, as [insert_entry] says.
proof fn lemma_insert_entries(old_s: Seq<(String, Child)>, k: String, x: Child, new_s: Seq<(String, Child)>)
    requires
        new_s == match find_key(keys_of(old_s), k@) {
            Some(i) => old_s.update(i, (k, x)),
            None => old_s.push((k, x)),
        },
    ensures
        entries_view(new_s) == insert_entry(entries_view(old_s), k@, child_view(x)),
{
    lemma_entries_view(old_s);
    lemma_entries_view(new_s);
    assert(keys_of(old_s).len() == old_s.len());
    assert forall|i: int| 0 <= i < old_s.len() implies #[trigger] keys_of(old_s)[i].0 == entries_view(old_s)[i].0 by {}
    lemma_find_key_keys(keys_of(old_s), entries_view(old_s), k@);
    lemma_find_key(keys_of(old_s), k@);
    match find_key(keys_of(old_s), k@) {
        Some(i) => {
            assert(entries_view(new_s) =~= entries_view(old_s).update(i, (k@, child_view(x))));
        },
        None => {
            assert(entries_view(new_s) =~= entries_view(old_s).push((k@, child_view(x))));
        },
    }
}

/// The views of the entries of a sequence, one step further.
proof fn lemma_diff_entries_take(v: Seq<(String, ChildDiff)>, i: int)
    requires
        0 <= i < v.len(),
    ensures
        diff_entries_view(v.take(i + 1)) == diff_entries_view(v.take(i)).push((v[i].0@, child_diff_view(v[i].1))),
{
    assert(v.take(i + 1).drop_last() =~= v.take(i));
}

proof fn lemma_diff_row_take(v: Seq<ChildDiff>, i: int)
    requires
        0 <= i < v.len(),
    ensures
        diff_row_view(v.take(i + 1)) == diff_row_view(v.take(i)).push(child_diff_view(v[i])),
{
    assert(v.take(i + 1).drop_last() =~= v.take(i));
}

proof fn lemma_diff_rows_take(v: Seq<Vec<ChildDiff>>, i: int)
    requires
        0 <= i < v.len(),
    ensures
        diff_rows_view(v.take(i + 1)) == diff_rows_view(v.take(i)).push(diff_row_view(v[i]@)),
{
    assert(v.take(i + 1).drop_last() =~= v.take(i));
}

/// A node built from an update.
pub fn child_from_diff_exec(d: ChildDiff) -> (r: Result<Child, MergeError>)
    ensures
        result_child_view(r) == child_from_diff(child_diff_view(d)),
    decreases d,
{
    match d {
        ChildDiff::String(s) => Ok(Child::String(s)),
        ChildDiff::ComponentID(cid) => Ok(Child::ComponentID(cid)),
        ChildDiff::Fragment(fd) => match fragment_from_diff_exec(fd) {
            Ok(f) => Ok(Child::Fragment(f)),
            Err(e) => Err(e),
        },
    }
}

/// A fragment built from an update.
pub fn fragment_from_diff_exec(d: FragmentDiff) -> (r: Result<Fragment, MergeError>)
    ensures
        result_fragment_view(r) == fragment_from_diff(fragment_diff_view(d)),
    decreases d,
{
    match d {
        FragmentDiff::UpdateRegular { children, statics, is_root } => {
            proof { assert(decreases_to!(d => children)); }
            match children_from_diff_exec(children) {
                Ok(c) => Ok(Fragment::Regular { children: c, statics, is_root, new_render: None }),
                Err(e) => Err(e),
            }
        },
        FragmentDiff::UpdateComprehension { dynamics, templates, statics, is_root, stream } => {
            proof { assert(decreases_to!(d => dynamics)); }
            match rows_from_diff_exec(dynamics) {
                Ok(rows) => {
                    let stream = match stream {
                        Some(attrs) => Some(stream_from_attrs_exec(&attrs)),
                        None => None,
                    };
                    Ok(Fragment::Comprehension { dynamics: rows, statics, templates, stream, is_root, new_render: None })
                },
                Err(e) => Err(e),
            }
        },
    }
}

/// Children built from keyed updates; a later key replaces an earlier one.
pub fn children_from_diff_exec(v: Vec<(String, ChildDiff)>) -> (r: Result<Vec<(String, Child)>, MergeError>)
    ensures
        result_entries_view(r) == children_from_diff(diff_entries_view(v@)),
    decreases v,
{
    let ghost orig = v@;
    let n = v.len();
    let mut rest = v;
    let mut acc: Vec<(String, Child)> = Vec::new();
    let mut i: usize = 0;
    while i < n
        invariant
            n == orig.len(),
            orig == v@,
            i <= n,
            rest@ == orig.skip(i as int),
            children_from_diff(diff_entries_view(orig.take(i as int))) == Ok::<_, MergeError>(entries_view(acc@)),
            forall|j: int| 0 <= j < n ==> decreases_to!(v => #[trigger] orig[j].1),
        decreases n - i,
    {
        proof {
            assert(decreases_to!(v => v@));
            assert forall|j: int| 0 <= j < n implies decreases_to!(v => #[trigger] orig[j].1) by {
                assert(decreases_to!(orig => orig[j]));
            }
        }
        let (k, d) = rest.remove(0);
        proof {
            assert(orig[i as int] == (k, d));
            lemma_diff_entries_take(orig, i as int);
            let s = diff_entries_view(orig.take(i + 1));
            assert(s.drop_last() =~= diff_entries_view(orig.take(i as int)));
        }
        let c = match child_from_diff_exec(d) {
            Ok(c) => c,
            Err(e) => {
                proof {
                    let s = diff_entries_view(orig.take(i + 1));
                    assert(s.drop_last() =~= diff_entries_view(orig.take(i as int)));
                    assert(children_from_diff(diff_entries_view(orig.take(i + 1))) is Err);
                    lemma_children_from_diff_err(orig, i as int + 1, e);
                }
                return Err(e);
            },
        };
        let ghost before = acc@;
        insert_entry_exec(&mut acc, k, c);
        proof { lemma_insert_entries(before, k, c, acc@); }
        i = i + 1;
        assert(rest@ =~= orig.skip(i as int));
    }
    assert(orig.take(n as int) =~= orig);
    Ok(acc)
}

/// An error in a prefix of the updates is the error of all of them.
proof fn lemma_children_from_diff_err(v: Seq<(String, ChildDiff)>, i: int, e: MergeError)
    requires
        0 <= i <= v.len(),
        children_from_diff(diff_entries_view(v.take(i))) == Err::<Seq<(Seq<char>, ChildV)>, MergeError>(e),
    ensures
        children_from_diff(diff_entries_view(v)) == Err::<Seq<(Seq<char>, ChildV)>, MergeError>(e),
    decreases v.len() - i,
{
    if i < v.len() {
        lemma_diff_entries_take(v, i);
        let s = diff_entries_view(v.take(i + 1));
        assert(s.drop_last() =~= diff_entries_view(v.take(i)));
        lemma_children_from_diff_err(v, i + 1, e);
    } else {
        assert(v.take(i) =~= v);
    }
}


/// A row of nodes built from updates.
pub fn row_from_diff_exec(v: Vec<ChildDiff>) -> (r: Result<Vec<Child>, MergeError>)
    ensures
        result_row_view(r) == row_from_diff(diff_row_view(v@)),
    decreases v,
{
    let ghost orig = v@;
    let n = v.len();
    let mut rest = v;
    let mut acc: Vec<Child> = Vec::new();
    let mut i: usize = 0;
    while i < n
        invariant
            n == orig.len(),
            orig == v@,
            i <= n,
            rest@ == orig.skip(i as int),
            row_from_diff(diff_row_view(orig.take(i as int))) == Ok::<_, MergeError>(row_view(acc@)),
            forall|j: int| 0 <= j < n ==> decreases_to!(v => #[trigger] orig[j]),
        decreases n - i,
    {
        proof {
            assert(decreases_to!(v => v@));
        }
        let d = rest.remove(0);
        proof {
            assert(orig[i as int] == d);
            lemma_diff_row_take(orig, i as int);
            let s = diff_row_view(orig.take(i + 1));
            assert(s.drop_last() =~= diff_row_view(orig.take(i as int)));
        }
        let c = match child_from_diff_exec(d) {
            Ok(c) => c,
            Err(e) => {
                proof {
                    let s = diff_row_view(orig.take(i + 1));
                    assert(s.drop_last() =~= diff_row_view(orig.take(i as int)));
                    assert(row_from_diff(diff_row_view(orig.take(i + 1))) is Err);
                    lemma_row_from_diff_err(orig, i as int + 1, e);
                }
                return Err(e);
            },
        };
        let ghost before = acc@;
        acc.push(c);
        proof {
            lemma_row_view(before);
            lemma_row_view(acc@);
            assert(row_view(acc@) =~= row_view(before).push(child_view(c)));
        }
        i = i + 1;
        assert(rest@ =~= orig.skip(i as int));
    }
    assert(orig.take(n as int) =~= orig);
    Ok(acc)
}

proof fn lemma_row_from_diff_err(v: Seq<ChildDiff>, i: int, e: MergeError)
    requires
        0 <= i <= v.len(),
        row_from_diff(diff_row_view(v.take(i))) == Err::<Seq<ChildV>, MergeError>(e),
    ensures
        row_from_diff(diff_row_view(v)) == Err::<Seq<ChildV>, MergeError>(e),
    decreases v.len() - i,
{
    if i < v.len() {
        lemma_diff_row_take(v, i);
        let s = diff_row_view(v.take(i + 1));
        assert(s.drop_last() =~= diff_row_view(v.take(i)));
        lemma_row_from_diff_err(v, i + 1, e);
    } else {
        assert(v.take(i) =~= v);
    }
}

/// Rows of nodes built from updates.
pub fn rows_from_diff_exec(v: Vec<Vec<ChildDiff>>) -> (r: Result<Vec<Vec<Child>>, MergeError>)
    ensures
        result_rows_view(r) == rows_from_diff(diff_rows_view(v@)),
    decreases v,
{
    let ghost orig = v@;
    let n = v.len();
    let mut rest = v;
    let mut acc: Vec<Vec<Child>> = Vec::new();
    let mut i: usize = 0;
    while i < n
        invariant
            n == orig.len(),
            orig == v@,
            i <= n,
            rest@ == orig.skip(i as int),
            rows_from_diff(diff_rows_view(orig.take(i as int))) == Ok::<_, MergeError>(rows_view(acc@)),
            forall|j: int| 0 <= j < n ==> decreases_to!(v => #[trigger] orig[j]),
        decreases n - i,
    {
        proof {
            assert(decreases_to!(v => v@));
        }
        let d = rest.remove(0);
        proof {
            assert(orig[i as int] == d);
            lemma_diff_rows_take(orig, i as int);
            let s = diff_rows_view(orig.take(i + 1));
            assert(s.drop_last() =~= diff_rows_view(orig.take(i as int)));
        }
        let c = match row_from_diff_exec(d) {
            Ok(c) => c,
            Err(e) => {
                proof {
                    let s = diff_rows_view(orig.take(i + 1));
                    assert(s.drop_last() =~= diff_rows_view(orig.take(i as int)));
                    assert(rows_from_diff(diff_rows_view(orig.take(i + 1))) is Err);
                    lemma_rows_from_diff_err(orig, i as int + 1, e);
                }
                return Err(e);
            },
        };
        let ghost before = acc@;
        acc.push(c);
        proof {
            lemma_rows_view(before);
            lemma_rows_view(acc@);
            assert(rows_view(acc@) =~= rows_view(before).push(row_view(c@)));
        }
        i = i + 1;
        assert(rest@ =~= orig.skip(i as int));
    }
    assert(orig.take(n as int) =~= orig);
    Ok(acc)
}

proof fn lemma_rows_from_diff_err(v: Seq<Vec<ChildDiff>>, i: int, e: MergeError)
    requires
        0 <= i <= v.len(),
        rows_from_diff(diff_rows_view(v.take(i))) == Err::<Seq<Seq<ChildV>>, MergeError>(e),
    ensures
        rows_from_diff(diff_rows_view(v)) == Err::<Seq<Seq<ChildV>>, MergeError>(e),
    decreases v.len() - i,
{
    if i < v.len() {
        lemma_diff_rows_take(v, i);
        let s = diff_rows_view(v.take(i + 1));
        assert(s.drop_last() =~= diff_rows_view(v.take(i)));
        lemma_rows_from_diff_err(v, i + 1, e);
    } else {
        assert(v.take(i) =~= v);
    }
}

/// The view of stream instructions.
pub open spec fn attrs_view(v: Seq<StreamAttribute>) -> Seq<StreamAttrV> {
    v.map_values(|a: StreamAttribute| stream_attr_view(a))
}

/// The stream described by stream instructions.
pub fn stream_from_attrs_exec(attrs: &Vec<StreamAttribute>) -> (r: Stream)
    ensures
        stream_view(r) == stream_from_attrs(attrs_view(attrs@)),
{
    let mut id = String::new();
    let mut items: Vec<StreamItem> = Vec::new();
    let mut i: usize = 0;
    assert(attrs_view(attrs@.take(0)) =~= Seq::<StreamAttrV>::empty());
    assert(items@.map_values(|x: StreamItem| stream_item_view(x)) =~= Seq::<StreamItemV>::empty());
    while i < attrs.len()
        invariant
            i <= attrs.len(),
            stream_view(Stream { id, stream_items: items }) == stream_from_attrs(attrs_view(attrs@.take(i as int))),
        decreases attrs.len() - i,
    {
        proof {
            assert(attrs_view(attrs@.take(i + 1)).drop_last() =~= attrs_view(attrs@.take(i as int)));
            assert(attrs_view(attrs@.take(i + 1)).last() == stream_attr_view(attrs@[i as int]));
        }
        let ghost prev = stream_view(Stream { id, stream_items: items });
        match &attrs[i] {
            StreamAttribute::StreamID(sid) => {
                id = sid.clone();
            },
            StreamAttribute::Inserts(inserts) => {
                let mut j: usize = 0;
                while j < inserts.len()
                    invariant
                        j <= inserts.len(),
                        stream_view(Stream { id, stream_items: items }).id == prev.id,
                        stream_view(Stream { id, stream_items: items }).items
                            =~= prev.items + inserts_items(inserts@.take(j as int).map_values(|t: (String, i32, Option<i32>)| (t.0@, t.1, t.2))),
                    decreases inserts.len() - j,
                {
                    let ghost before = items@;
                    let item = StreamItem { id: inserts[j].0.clone(), index: inserts[j].1, limit: inserts[j].2 };
                    items.push(item);
                    assert(items@.map_values(|x: StreamItem| stream_item_view(x))
                        =~= before.map_values(|x: StreamItem| stream_item_view(x)).push(stream_item_view(item)));
                    assert(inserts@.take(j + 1) =~= inserts@.take(j as int).push(inserts@[j as int]));
                    j = j + 1;
                }
                assert(inserts@.take(inserts.len() as int) =~= inserts@);
            },
            StreamAttribute::DeleteIDs(_) => {},
            StreamAttribute::ResetStream(reset) => {
                if *reset {
                    items = Vec::new();
                    assert(items@.map_values(|x: StreamItem| stream_item_view(x)) =~= Seq::<StreamItemV>::empty());
                }
            },
        }
        i = i + 1;
    }
    assert(attrs@.take(attrs.len() as int) =~= attrs@);
    Stream { id, stream_items: items }
}


/// An error in merging a prefix of the updates is the error of all of them.
proof fn lemma_merge_children_err(cur: Seq<(Seq<char>, ChildV)>, ds: Seq<(Seq<char>, ChildDiffV)>, i: int, e: MergeError)
    requires
        0 <= i <= ds.len(),
        merge_children(cur, ds.take(i)) == Err::<Seq<(Seq<char>, ChildV)>, MergeError>(e),
    ensures
        merge_children(cur, ds) == Err::<Seq<(Seq<char>, ChildV)>, MergeError>(e),
    decreases ds.len() - i,
{
    if i < ds.len() {
        assert(ds.take(i + 1).drop_last() =~= ds.take(i));
        lemma_merge_children_err(cur, ds, i + 1, e);
    } else {
        assert(ds.take(i) =~= ds);
    }
}

/// Keys of keyed entries and of their views agree.
proof fn lemma_keys_entries(s: Seq<(String, Child)>, k: Seq<char>)
    ensures
        find_key(keys_of(s), k) == find_key(entries_view(s), k),
{
    lemma_entries_view(s);
    assert forall|i: int| 0 <= i < s.len() implies #[trigger] keys_of(s)[i].0 == entries_view(s)[i].0 by {}
    lemma_find_key_keys(keys_of(s), entries_view(s), k);
}

/// The merge of an update into a node.
pub fn merge_child_exec(c: Child, d: ChildDiff) -> (r: Result<Child, MergeError>)
    ensures
        result_child_view(r) == merge_child(child_view(c), child_diff_view(d)),
    decreases d,
{
    match d {
        ChildDiff::Fragment(fd) => {
            match c {
                Child::Fragment(f) => match merge_fragment_exec(f, fd) {
                    Ok(m) => Ok(Child::Fragment(m)),
                    Err(e) => Err(e),
                },
                _ => match fragment_from_diff_exec(fd) {
                    Ok(m) => Ok(Child::Fragment(m)),
                    Err(e) => Err(e),
                },
            }
        },
        ChildDiff::String(s) => Ok(Child::String(s)),
        ChildDiff::ComponentID(cid) => Ok(Child::ComponentID(cid)),
    }
}

/// The merge of keyed updates into keyed children, in order.
#[verifier::rlimit(80)]
pub fn merge_children_exec(cur: Vec<(String, Child)>, diffs: Vec<(String, ChildDiff)>) -> (r: Result<Vec<(String, Child)>, MergeError>)
    ensures
        result_entries_view(r) == merge_children(entries_view(cur@), diff_entries_view(diffs@)),
    decreases diffs,
{
    let ghost orig = diffs@;
    let ghost ds = diff_entries_view(orig);
    let ghost cv = entries_view(cur@);
    proof { lemma_diff_entries_view(orig); }
    let n = diffs.len();
    let mut rest = diffs;
    let mut acc = cur;
    let mut i: usize = 0;
    assert(ds.take(0) =~= Seq::<(Seq<char>, ChildDiffV)>::empty());
    while i < n
        invariant
            n == orig.len(),
            orig == diffs@,
            ds == diff_entries_view(orig),
            ds.len() == n,
            cv == entries_view(cur@),
            forall|j: int| 0 <= j < n ==> #[trigger] ds[j] == (orig[j].0@, child_diff_view(orig[j].1)),
            i <= n,
            rest@ == orig.skip(i as int),
            merge_children(cv, ds.take(i as int)) == Ok::<_, MergeError>(entries_view(acc@)),
            forall|j: int| 0 <= j < n ==> decreases_to!(diffs => #[trigger] orig[j].1),
        decreases n - i,
    {
        proof {
            assert(decreases_to!(diffs => diffs@));
        }
        let (k, d) = rest.remove(0);
        let ghost prefix = ds.take(i + 1);
        proof {
            assert(orig[i as int] == (k, d));
            lemma_merge_children_unfold(cv, ds, i as int);
            lemma_keys_entries(acc@, k@);
            lemma_entries_view(acc@);
            lemma_find_key(entries_view(acc@), k@);
        }
        match find_entry(&acc, &k) {
            Some(p) => {
                let c = clone_child(&acc[p].1);
                let m = match merge_child_exec(c, d) {
                    Ok(m) => m,
                    Err(e) => {
                        proof { lemma_merge_children_err(cv, ds, i + 1, e); }
                        return Err(e);
                    },
                };
                let ghost before = acc@;
                acc.set(p, (k, m));
                proof {
                    lemma_entries_view(acc@);
                    assert(entries_view(acc@) =~= entries_view(before).update(p as int, (k@, child_view(m))));
                }
            },
            None => {
                let m = match child_from_diff_exec(d) {
                    Ok(m) => m,
                    Err(e) => {
                        proof { lemma_merge_children_err(cv, ds, i + 1, e); }
                        return Err(e);
                    },
                };
                let ghost before = acc@;
                acc.push((k, m));
                proof {
                    lemma_entries_view(acc@);
                    assert(entries_view(acc@) =~= entries_view(before).push((k@, child_view(m))));
                }
            },
        }
        i = i + 1;
        assert(rest@ =~= orig.skip(i as int));
    }
    assert(ds.take(n as int) =~= ds);
    Ok(acc)
}

/// Whether an update carries statics, and so replaces the fragment.
pub fn should_replace_current_exec(d: &FragmentDiff) -> (r: bool)
    ensures
        r == should_replace_current(fragment_diff_view(*d)),
{
    match d {
        FragmentDiff::UpdateRegular { statics, .. } => statics.is_some(),
        FragmentDiff::UpdateComprehension { statics, .. } => statics.is_some(),
    }
}

/// The merge of an update into a fragment.
pub fn merge_fragment_exec(f: Fragment, d: FragmentDiff) -> (r: Result<Fragment, MergeError>)
    ensures
        result_fragment_view(r) == merge_fragment(fragment_view(f), fragment_diff_view(d)),
    decreases d,
{
    if should_replace_current_exec(&d) {
        return fragment_from_diff_exec(d);
    }
    match d {
        FragmentDiff::UpdateRegular { children: diffs, is_root: new_reply, .. } => {
            proof { assert(decreases_to!(d => diffs)); }
            match f {
                Fragment::Regular { children, statics, is_root: cur_reply, .. } => {
                    let c = match merge_children_exec(children, diffs) {
                        Ok(c) => c,
                        Err(e) => return Err(e),
                    };
                    let reply = match new_reply {
                        Some(x) => Some(x),
                        None => cur_reply,
                    };
                    let new_render = match reply {
                        Some(i) => Some(i != 0),
                        None => None,
                    };
                    Ok(Fragment::Regular { children: c, statics, is_root: reply, new_render })
                },
                _ => Err(MergeError::FragmentTypeMismatch),
            }
        },
        FragmentDiff::UpdateComprehension { dynamics: new_dyn, templates: new_templates, stream: new_stream, is_root: new_reply, .. } => {
            proof { assert(decreases_to!(d => new_dyn)); }
            match f {
                Fragment::Comprehension { dynamics, statics, templates, stream, is_root: cur_reply, .. } => {
                    let reply = match new_reply {
                        Some(x) => Some(x),
                        None => cur_reply,
                    };
                    let t = merge_templates_exec(templates, new_templates);
                    let new_rows = match rows_from_diff_exec(new_dyn) {
                        Ok(rows) => rows,
                        Err(e) => return Err(e),
                    };
                    let (s, rows) = match (stream, new_stream) {
                        (None, None) => (None, new_rows),
                        (None, Some(attrs)) => (Some(stream_from_attrs_exec(&attrs)), dynamics),
                        (Some(s), None) => (Some(s), dynamics),
                        (Some(s), Some(upd)) => match apply_stream_update_exec(s, dynamics, &new_rows, &upd) {
                            Ok((s2, rows)) => (Some(s2), rows),
                            Err(e) => return Err(e),
                        },
                    };
                    let new_render = match reply {
                        Some(i) => Some(i != 0),
                        None => None,
                    };
                    Ok(Fragment::Comprehension { dynamics: rows, statics, templates: t, stream: s, is_root: reply, new_render })
                },
                _ => Err(MergeError::FragmentTypeMismatch),
            }
        },
    }
}

/// The view of optional templates entries.
pub open spec fn template_entries_view(v: Seq<(String, Vec<String>)>) -> Seq<(Seq<char>, Seq<Seq<char>>)> {
    v.map_values(|e: (String, Vec<String>)| (e.0@, strings_view(e.1@)))
}

/// Stores template `v` under `k`.
fn insert_template(acc: &mut Vec<(String, Vec<String>)>, k: String, v: Vec<String>)
    ensures
        template_entries_view(final(acc)@) == insert_entry(template_entries_view(old(acc)@), k@, strings_view(v@)),
{
    let ghost before = acc@;
    proof {
        assert forall|j: int| 0 <= j < before.len() implies #[trigger] keys_of(before)[j].0 == template_entries_view(before)[j].0 by {}
        lemma_find_key_keys(keys_of(before), template_entries_view(before), k@);
        lemma_find_key(keys_of(before), k@);
    }
    insert_entry_exec(acc, k, v);
    proof {
        match find_key(keys_of(before), k@) {
            Some(p) => {
                assert(template_entries_view(acc@) =~= template_entries_view(before).update(p, (k@, strings_view(v@))));
            },
            None => {
                assert(template_entries_view(acc@) =~= template_entries_view(before).push((k@, strings_view(v@))));
            },
        }
    }
}

/// Templates after adding (or replacing) those of `new`.
pub fn merge_templates_exec(cur: Templates, new: Templates) -> (r: Templates)
    ensures
        templates_view(r) == merge_templates(templates_view(cur), templates_view(new)),
{
    match (cur, new) {
        (None, None) => None,
        (None, Some(t)) => Some(t),
        (Some(t), None) => Some(t),
        (Some(c), Some(n)) => {
            let ghost cv = template_entries_view(c@);
            let ghost nv = template_entries_view(n@);
            let ghost orig = n@;
            let len = n.len();
            let mut acc = c;
            let mut rest = n;
            let mut i: usize = 0;
            assert(nv.take(0) =~= Seq::<(Seq<char>, Seq<Seq<char>>)>::empty());
            while i < len
                invariant
                    len == orig.len(),
                    nv == template_entries_view(orig),
                    i <= len,
                    rest@ == orig.skip(i as int),
                    template_entries_view(acc@) == insert_all(cv, nv.take(i as int)),
                decreases len - i,
            {
                let (k, v) = rest.remove(0);
                proof {
                    assert(orig[i as int] == (k, v));
                    assert(nv.take(i + 1).drop_last() =~= nv.take(i as int));
                    assert(nv.take(i + 1).last() == (k@, strings_view(v@)));
                }
                insert_template(&mut acc, k, v);
                i = i + 1;
                assert(rest@ =~= orig.skip(i as int));
            }
            assert(nv.take(len as int) =~= nv);
            Some(acc)
        },
    }
}


/// The marker ` id="<id>"` of a stream entry.
pub fn stream_marker_exec(id: &String) -> (r: String)
    ensures
        r@ == stream_marker(id@),
{
    let mut m = String::from_str(" id=\"");
    m.append(id.as_str());
    m.append("\"");
    proof {
        reveal_strlit(" id=\"");
        reveal_strlit("\"");
    }
    m
}

/// Whether `row` holds the string child `marker`.
fn row_has_marker_exec(row: &Vec<Child>, marker: &String) -> (r: bool)
    ensures
        r == exists|j: int| 0 <= j < row@.len() && row_view(row@)[j] == ChildV::Str(StringsV::One(marker@)),
{
    proof { lemma_row_view(row@); }
    let mut j: usize = 0;
    while j < row.len()
        invariant
            j <= row.len(),
            row_view(row@).len() == row@.len(),
            forall|k: int| 0 <= k < row@.len() ==> #[trigger] row_view(row@)[k] == child_view(row@[k]),
            forall|k: int| 0 <= k < j ==> row_view(row@)[k] != ChildV::Str(StringsV::One(marker@)),
        decreases row.len() - j,
    {
        let hit = match &row[j] {
            Child::String(OneOrManyStrings::One(s)) => *s == *marker,
            _ => false,
        };
        if hit {
            assert(row_view(row@)[j as int] == ChildV::Str(StringsV::One(marker@)));
            return true;
        }
        j = j + 1;
    }
    false
}

/// The first row holding the marker of `id`.
#[verifier::rlimit(80)]
pub fn find_marked_row(rows: &Vec<Vec<Child>>, id: &String) -> (r: Option<usize>)
    ensures
        match r {
            Some(p) => first_marked_row(rows_view(rows@), id@) == Some(p as int),
            None => first_marked_row(rows_view(rows@), id@) is None,
        },
{
    let marker = stream_marker_exec(id);
    let ghost rv = rows_view(rows@);
    proof {
        lemma_rows_view(rows@);
        lemma_first_marked_row(rv, id@);
    }
    let mut i: usize = 0;
    while i < rows.len()
        invariant
            i <= rows.len(),
            rv == rows_view(rows@),
            rv.len() == rows@.len(),
            marker@ == stream_marker(id@),
            forall|k: int| 0 <= k < rows@.len() ==> #[trigger] rv[k] == row_view(rows@[k]@),
            forall|k: int| 0 <= k < i ==> !row_has_marker(rv[k], id@),
            first_marked_row(rv, id@) matches Some(p) ==> 0 <= p < rv.len() && row_has_marker(rv[p], id@)
                && forall|k: int| 0 <= k < p ==> !row_has_marker(rv[k], id@),
            first_marked_row(rv, id@) is None <==> forall|k: int| 0 <= k < rv.len() ==> !row_has_marker(rv[k], id@),
        decreases rows.len() - i,
    {
        proof { lemma_row_view(rows@[i as int]@); }
        if row_has_marker_exec(&rows[i], &marker) {
            assert(row_has_marker(rv[i as int], id@));
            proof {
                let p = first_marked_row(rv, id@).unwrap();
                if p < i as int {
                    assert(!row_has_marker(rv[p], id@));
                }
            }
            return Some(i);
        }
        assert(!row_has_marker(rv[i as int], id@));
        i = i + 1;
    }
    None
}

/// A row found by [first_marked_row] is the first one holding the marker.
proof fn lemma_first_marked_row(rows: Seq<Seq<ChildV>>, id: Seq<char>)
    ensures
        first_marked_row(rows, id) matches Some(p) ==> 0 <= p < rows.len() && row_has_marker(rows[p], id)
            && forall|k: int| 0 <= k < p ==> !row_has_marker(rows[k], id),
        first_marked_row(rows, id) is None <==> forall|k: int| 0 <= k < rows.len() ==> !row_has_marker(rows[k], id),
{
    if exists|i: int| 0 <= i < rows.len() && row_has_marker(rows[i], id) {
        let w = choose|i: int| 0 <= i < rows.len() && row_has_marker(rows[i], id);
        lemma_first_marked_exists(rows, id, w);
    }
}

proof fn lemma_first_marked_exists(rows: Seq<Seq<ChildV>>, id: Seq<char>, w: int)
    requires
        0 <= w < rows.len(),
        row_has_marker(rows[w], id),
    ensures
        exists|i: int| 0 <= i < rows.len() && row_has_marker(rows[i], id)
            && forall|j: int| 0 <= j < i ==> !row_has_marker(rows[j], id),
    decreases w,
{
    if exists|j: int| 0 <= j < w && row_has_marker(rows[j], id) {
        let j = choose|j: int| 0 <= j < w && row_has_marker(rows[j], id);
        lemma_first_marked_exists(rows, id, j);
    } else {
        assert(forall|j: int| 0 <= j < w ==> !row_has_marker(rows[j], id));
    }
}

/// The view of stream insertions.
pub open spec fn inserts_view(v: Seq<(String, i32, Option<i32>)>) -> Seq<(Seq<char>, i32, Option<i32>)> {
    v.map_values(|t: (String, i32, Option<i32>)| (t.0@, t.1, t.2))
}

/// Appends, for each insertion at index -1, its row among `new_rows`.
#[verifier::rlimit(80)]
fn apply_inserts_exec(rows: &mut Vec<Vec<Child>>, new_rows: &Vec<Vec<Child>>, ins: &Vec<(String, i32, Option<i32>)>)
    ensures
        rows_view(final(rows)@) == apply_inserts(rows_view(old(rows)@), rows_view(new_rows@), inserts_view(ins@)),
{
    let ghost start = rows_view(rows@);
    let ghost iv = inserts_view(ins@);
    proof { lemma_rows_view(new_rows@); }
    let mut i: usize = 0;
    assert(iv.take(0) =~= Seq::<(Seq<char>, i32, Option<i32>)>::empty());
    while i < ins.len()
        invariant
            i <= ins.len(),
            iv == inserts_view(ins@),
            rows_view(new_rows@).len() == new_rows@.len(),
            forall|k: int| 0 <= k < new_rows@.len() ==> #[trigger] rows_view(new_rows@)[k] == row_view(new_rows@[k]@),
            rows_view(rows@) == apply_inserts(start, rows_view(new_rows@), iv.take(i as int)),
        decreases ins.len() - i,
    {
        proof {
            assert(iv.take(i + 1).drop_last() =~= iv.take(i as int));
            assert(iv.take(i + 1).last() == (ins@[i as int].0@, ins@[i as int].1, ins@[i as int].2));
        }
        match find_marked_row(new_rows, &ins[i].0) {
            Some(p) => {
                proof { lemma_first_marked_row(rows_view(new_rows@), ins@[i as int].0@); }
                if ins[i].1 == -1 {
                    let row = clone_row(&new_rows[p]);
                    let ghost before = rows@;
                    rows.push(row);
                    proof {
                        lemma_rows_view(before);
                        lemma_rows_view(rows@);
                        assert(rows_view(rows@) =~= rows_view(before).push(row_view(row@)));
                    }
                }
            },
            None => {},
        }
        i = i + 1;
    }
    assert(iv.take(ins.len() as int) =~= iv);
}

/// Removes, for each id, the first row holding its marker.
fn apply_deletes_exec(rows: &mut Vec<Vec<Child>>, ids: &Vec<String>)
    ensures
        rows_view(final(rows)@) == apply_deletes(rows_view(old(rows)@), strings_view(ids@)),
{
    let ghost start = rows_view(rows@);
    let ghost idv = strings_view(ids@);
    let mut i: usize = 0;
    assert(idv.take(0) =~= Seq::<Seq<char>>::empty());
    while i < ids.len()
        invariant
            i <= ids.len(),
            idv == strings_view(ids@),
            rows_view(rows@) == apply_deletes(start, idv.take(i as int)),
        decreases ids.len() - i,
    {
        proof {
            assert(idv.take(i + 1).drop_last() =~= idv.take(i as int));
            assert(idv.take(i + 1).last() == ids@[i as int]@);
        }
        match find_marked_row(rows, &ids[i]) {
            Some(p) => {
                proof {
                    lemma_first_marked_row(rows_view(rows@), ids@[i as int]@);
                    lemma_rows_view(rows@);
                }
                let ghost before = rows@;
                rows.remove(p);
                proof {
                    lemma_rows_view(before);
                    lemma_rows_view(rows@);
                    assert(rows_view(rows@) =~= rows_view(before).remove(p as int));
                }
            },
            None => {},
        }
        i = i + 1;
    }
    assert(idv.take(ids.len() as int) =~= idv);
}

/// The view of a stream update result.
pub open spec fn stream_result_view(r: Result<(Stream, Vec<Vec<Child>>), MergeError>) -> Result<(StreamV, Seq<Seq<ChildV>>), MergeError> {
    match r {
        Ok((s, rows)) => Ok((stream_view(s), rows_view(rows@))),
        Err(e) => Err(e),
    }
}

/// One instruction of a stream update applied to a stream and its rows.
fn stream_step_exec(s: Stream, rows: Vec<Vec<Child>>, new_rows: &Vec<Vec<Child>>, a: &StreamAttribute)
    -> (r: Result<(Stream, Vec<Vec<Child>>), MergeError>)
    ensures
        stream_result_view(r) == stream_step(stream_view(s), rows_view(rows@), rows_view(new_rows@), stream_attr_view(*a)),
{
    let mut s = s;
    let mut rows = rows;
    match a {
        StreamAttribute::StreamID(id) => {
            if s.id != *id {
                return Err(MergeError::StreamIDMismatch);
            }
        },
        StreamAttribute::Inserts(ins) => {
            apply_inserts_exec(&mut rows, new_rows, ins);
        },
        StreamAttribute::DeleteIDs(ids) => {
            apply_deletes_exec(&mut rows, ids);
        },
        StreamAttribute::ResetStream(reset) => {
            if *reset {
                s.stream_items = Vec::new();
                assert(s.stream_items@.map_values(|x: StreamItem| stream_item_view(x)) =~= Seq::<StreamItemV>::empty());
                rows = clone_rows(new_rows);
            }
        },
    }
    Ok((s, rows))
}

/// The stream and rows after a stream update to an existing stream.
#[verifier::rlimit(100)]
pub fn apply_stream_update_exec(stream: Stream, cur: Vec<Vec<Child>>, new_rows: &Vec<Vec<Child>>, upd: &Vec<StreamAttribute>)
    -> (r: Result<(Stream, Vec<Vec<Child>>), MergeError>)
    ensures
        stream_result_view(r) == apply_stream_update(stream_view(stream), rows_view(cur@), rows_view(new_rows@), attrs_view(upd@)),
{
    let ghost sv = stream_view(stream);
    let ghost cv = rows_view(cur@);
    let ghost nv = rows_view(new_rows@);
    let ghost av = attrs_view(upd@);
    let mut s = stream;
    let mut rows = cur;
    let mut i: usize = 0;
    assert(av.take(0) =~= Seq::<StreamAttrV>::empty());
    while i < upd.len()
        invariant
            i <= upd.len(),
            av == attrs_view(upd@),
            nv == rows_view(new_rows@),
            sv == stream_view(stream),
            cv == rows_view(cur@),
            apply_stream_update(sv, cv, nv, av.take(i as int)) == Ok::<_, MergeError>((stream_view(s), rows_view(rows@))),
        decreases upd.len() - i,
    {
        proof {
            lemma_stream_update_unfold(sv, cv, nv, av, i as int);
            assert(av[i as int] == stream_attr_view(upd@[i as int]));
        }
        match stream_step_exec(s, rows, new_rows, &upd[i]) {
            Ok((s2, rows2)) => {
                s = s2;
                rows = rows2;
            },
            Err(e) => {
                proof { lemma_stream_update_err(sv, cv, nv, av, i + 1, e); }
                return Err(e);
            },
        }
        i = i + 1;
    }
    assert(av.take(upd.len() as int) =~= av);
    Ok((s, rows))
}

/// An error in a prefix of a stream update is the error of all of it.
proof fn lemma_stream_update_err(s: StreamV, c: Seq<Seq<ChildV>>, n: Seq<Seq<ChildV>>, upd: Seq<StreamAttrV>, i: int, e: MergeError)
    requires
        0 <= i <= upd.len(),
        apply_stream_update(s, c, n, upd.take(i)) == Err::<(StreamV, Seq<Seq<ChildV>>), MergeError>(e),
    ensures
        apply_stream_update(s, c, n, upd) == Err::<(StreamV, Seq<Seq<ChildV>>), MergeError>(e),
    decreases upd.len() - i,
{
    if i < upd.len() {
        assert(upd.take(i + 1).drop_last() =~= upd.take(i));
        lemma_stream_update_err(s, c, n, upd, i + 1, e);
    } else {
        assert(upd.take(i) =~= upd);
    }
}

} // verus!

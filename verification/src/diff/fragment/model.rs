//! What converting and merging fragments means, over the mathematical model.
use vstd::prelude::*;
use super::types::{Templates, Statics, Fragment, StaticsV, StringsV, StreamItemV, StreamV, StreamAttrV, TemplatesV, ChildV, FragmentV, ChildDiffV, FragmentDiffV, ComponentStaticsV, ComponentV, ComponentDiffV, RootV, RootDiffV};

use super::error::{MergeError, RenderError};
use crate::text::{decimal, int_text};

verus! {

// ---------------------------------------------------------------------------
// Keyed entries (the protocol's string-keyed maps).

/// The first position of key `k` in `s`.
pub open spec fn find_key<A>(s: Seq<(Seq<char>, A)>, k: Seq<char>) -> Option<int> {
    if exists|i: int| 0 <= i < s.len() && s[i].0 == k {
        Some(choose|i: int| 0 <= i < s.len() && s[i].0 == k && forall|j: int| 0 <= j < i ==> s[j].0 != k)
    } else {
        None
    }
}

/// The value stored under key `k`.
pub open spec fn lookup<A>(s: Seq<(Seq<char>, A)>, k: Seq<char>) -> Option<A> {
    match find_key(s, k) {
        Some(i) => Some(s[i].1),
        None => None,
    }
}

/// Stores `v` under `k`, replacing the value already stored there.
pub open spec fn insert_entry<A>(s: Seq<(Seq<char>, A)>, k: Seq<char>, v: A) -> Seq<(Seq<char>, A)> {
    match find_key(s, k) {
        Some(i) => s.update(i, (k, v)),
        None => s.push((k, v)),
    }
}

/// A key found by [find_key] is the first occurrence of the key.
pub proof fn lemma_find_key<A>(s: Seq<(Seq<char>, A)>, k: Seq<char>)
    ensures
        find_key(s, k) matches Some(p) ==> 0 <= p < s.len() && s[p].0 == k
            && forall|j: int| 0 <= j < p ==> s[j].0 != k,
        find_key(s, k) is None <==> forall|j: int| 0 <= j < s.len() ==> s[j].0 != k,
{
    if exists|i: int| 0 <= i < s.len() && s[i].0 == k {
        let w = choose|i: int| 0 <= i < s.len() && s[i].0 == k;
        lemma_first_key(s, k, w);
    }
}

proof fn lemma_first_key<A>(s: Seq<(Seq<char>, A)>, k: Seq<char>, w: int)
    requires
        0 <= w < s.len(),
        s[w].0 == k,
    ensures
        exists|i: int| 0 <= i < s.len() && s[i].0 == k && forall|j: int| 0 <= j < i ==> s[j].0 != k,
    decreases w,
{
    if exists|j: int| 0 <= j < w && s[j].0 == k {
        let j = choose|j: int| 0 <= j < w && s[j].0 == k;
        lemma_first_key(s, k, j);
    } else {
        assert(forall|j: int| 0 <= j < w ==> s[j].0 != k);
    }
}

/// [find_key] depends on the keys only.
pub proof fn lemma_find_key_keys<A, B>(s: Seq<(Seq<char>, A)>, t: Seq<(Seq<char>, B)>, k: Seq<char>)
    requires
        s.len() == t.len(),
        forall|i: int| 0 <= i < s.len() ==> #[trigger] s[i].0 == t[i].0,
    ensures
        find_key(s, k) == find_key(t, k),
{
    lemma_find_key(s, k);
    lemma_find_key(t, k);
    match (find_key(s, k), find_key(t, k)) {
        (Some(p), Some(q)) => {
            if p < q {
                assert(t[p].0 == k);
            } else if q < p {
                assert(s[q].0 == k);
            }
        },
        (Some(p), None) => {
            assert(t[p].0 == k);
        },
        (None, Some(q)) => {
            assert(s[q].0 == k);
        },
        (None, None) => {},
    }
}


// ---------------------------------------------------------------------------
// Turning diffs into fresh values.

/// The stream described by a list of stream instructions.
pub open spec fn stream_from_attrs(attrs: Seq<StreamAttrV>) -> StreamV
    decreases attrs.len(),
{
    if attrs.len() == 0 {
        StreamV { id: Seq::empty(), items: Seq::empty() }
    } else {
        let s = stream_from_attrs(attrs.drop_last());
        match attrs.last() {
            StreamAttrV::StreamID(id) => StreamV { id, items: s.items },
            StreamAttrV::Inserts(ins) => StreamV { id: s.id, items: s.items + inserts_items(ins) },
            StreamAttrV::DeleteIDs(_) => s,
            StreamAttrV::Reset(reset) => if reset {
                StreamV { id: s.id, items: Seq::empty() }
            } else {
                s
            },
        }
    }
}

/// The stream entries described by a list of insertions.
pub open spec fn inserts_items(ins: Seq<(Seq<char>, i32, Option<i32>)>) -> Seq<StreamItemV> {
    ins.map_values(|t: (Seq<char>, i32, Option<i32>)| StreamItemV { id: t.0, index: t.1, limit: t.2 })
}

/// A node built from an update, as if there were nothing to update.
pub open spec fn child_from_diff(d: ChildDiffV) -> Result<ChildV, MergeError>
    decreases d,
{
    match d {
        ChildDiffV::Str(s) => Ok(ChildV::Str(s)),
        ChildDiffV::ComponentID(cid) => Ok(ChildV::ComponentID(cid)),
        ChildDiffV::Fragment(fd) => match fragment_from_diff(fd) {
            Ok(f) => Ok(ChildV::Fragment(f)),
            Err(e) => Err(e),
        },
    }
}

/// A fragment built from an update, as if there were nothing to update.
pub open spec fn fragment_from_diff(d: FragmentDiffV) -> Result<FragmentV, MergeError>
    decreases d,
{
    match d {
        FragmentDiffV::UpdateRegular { children, statics, is_root } => match children_from_diff(children) {
            Ok(c) => Ok(FragmentV::Regular { children: c, statics, is_root, new_render: None }),
            Err(e) => Err(e),
        },
        FragmentDiffV::UpdateComprehension { dynamics, templates, statics, is_root, stream } => match rows_from_diff(dynamics) {
            Ok(rows) => Ok(FragmentV::Comprehension {
                dynamics: rows,
                statics,
                templates,
                stream: match stream {
                    Some(attrs) => Some(stream_from_attrs(attrs)),
                    None => None,
                },
                is_root,
                new_render: None,
            }),
            Err(e) => Err(e),
        },
    }
}

/// The children built from keyed updates; a later key replaces an earlier one.
pub open spec fn children_from_diff(s: Seq<(Seq<char>, ChildDiffV)>) -> Result<Seq<(Seq<char>, ChildV)>, MergeError>
    decreases s,
{
    if s.len() == 0 {
        Ok(Seq::empty())
    } else {
        proof {
            assert(decreases_to!(s => s[s.len() - 1]));
            assert(decreases_to!(s => s.drop_last()));
        }
        match children_from_diff(s.drop_last()) {
            Err(e) => Err(e),
            Ok(acc) => match child_from_diff(s.last().1) {
                Err(e) => Err(e),
                Ok(c) => Ok(insert_entry(acc, s.last().0, c)),
            },
        }
    }
}

/// A row of nodes built from updates.
pub open spec fn row_from_diff(s: Seq<ChildDiffV>) -> Result<Seq<ChildV>, MergeError>
    decreases s,
{
    if s.len() == 0 {
        Ok(Seq::empty())
    } else {
        proof {
            assert(decreases_to!(s => s[s.len() - 1]));
            assert(decreases_to!(s => s.drop_last()));
        }
        match row_from_diff(s.drop_last()) {
            Err(e) => Err(e),
            Ok(acc) => match child_from_diff(s.last()) {
                Err(e) => Err(e),
                Ok(c) => Ok(acc.push(c)),
            },
        }
    }
}

/// Rows of nodes built from updates.
pub open spec fn rows_from_diff(s: Seq<Seq<ChildDiffV>>) -> Result<Seq<Seq<ChildV>>, MergeError>
    decreases s,
{
    if s.len() == 0 {
        Ok(Seq::empty())
    } else {
        proof {
            assert(decreases_to!(s => s[s.len() - 1]));
            assert(decreases_to!(s => s.drop_last()));
        }
        match rows_from_diff(s.drop_last()) {
            Err(e) => Err(e),
            Ok(acc) => match row_from_diff(s.last()) {
                Err(e) => Err(e),
                Ok(r) => Ok(acc.push(r)),
            },
        }
    }
}

/// A component built from an update: only a full replacement can be.
pub open spec fn component_from_diff(d: ComponentDiffV) -> Result<ComponentV, MergeError> {
    match d {
        ComponentDiffV::UpdateRegular { .. } => Err(MergeError::CreateComponentFromUpdate),
        ComponentDiffV::ReplaceCurrent { children, statics, .. } => Ok(ComponentV { children, statics, is_root: None }),
    }
}

// ---------------------------------------------------------------------------
// Merging.

/// Templates after adding (or replacing) those of `new`.
pub open spec fn merge_templates(cur: TemplatesV, new: TemplatesV) -> TemplatesV {
    match (cur, new) {
        (None, None) => None,
        (None, Some(t)) => Some(t),
        (Some(t), None) => Some(t),
        (Some(c), Some(n)) => Some(insert_all(c, n)),
    }
}

/// `c` with every entry of `n` inserted in order.
pub open spec fn insert_all<A>(c: Seq<(Seq<char>, A)>, n: Seq<(Seq<char>, A)>) -> Seq<(Seq<char>, A)>
    decreases n.len(),
{
    if n.len() == 0 {
        c
    } else {
        insert_entry(insert_all(c, n.drop_last()), n.last().0, n.last().1)
    }
}

/// Whether the update replaces the fragment outright (it carries statics).
pub open spec fn should_replace_current(d: FragmentDiffV) -> bool {
    match d {
        FragmentDiffV::UpdateRegular { statics, .. } => statics is Some,
        FragmentDiffV::UpdateComprehension { statics, .. } => statics is Some,
    }
}

/// The `is_root` flag after an update: the update's, else the current one.
pub open spec fn reply_or(new: Option<i8>, cur: Option<i8>) -> Option<i8> {
    match new {
        Some(x) => Some(x),
        None => cur,
    }
}

/// The `new_render` flag that an `is_root` flag implies.
pub open spec fn render_flag(reply: Option<i8>) -> Option<bool> {
    match reply {
        Some(i) => Some(i != 0),
        None => None,
    }
}

/// The marker by which a stream entry's row is recognised: ` id="<id>"`.
pub open spec fn stream_marker(id: Seq<char>) -> Seq<char> {
    " id=\""@ + id + "\""@
}

/// Whether a row holds the string child ` id="<id>"`.
pub open spec fn row_has_marker(row: Seq<ChildV>, id: Seq<char>) -> bool {
    exists|j: int| 0 <= j < row.len() && row[j] == ChildV::Str(StringsV::One(stream_marker(id)))
}

/// The first row holding the marker of `id`.
pub open spec fn first_marked_row(rows: Seq<Seq<ChildV>>, id: Seq<char>) -> Option<int> {
    if exists|i: int| 0 <= i < rows.len() && row_has_marker(rows[i], id) {
        Some(choose|i: int| 0 <= i < rows.len() && row_has_marker(rows[i], id)
            && forall|j: int| 0 <= j < i ==> !row_has_marker(rows[j], id))
    } else {
        None
    }
}

/// Current rows after the insertions of a stream update: for each insertion
/// at index -1 whose row is among the update's rows, that row is appended.
pub open spec fn apply_inserts(cur: Seq<Seq<ChildV>>, new_rows: Seq<Seq<ChildV>>, ins: Seq<(Seq<char>, i32, Option<i32>)>) -> Seq<Seq<ChildV>>
    decreases ins.len(),
{
    if ins.len() == 0 {
        cur
    } else {
        let acc = apply_inserts(cur, new_rows, ins.drop_last());
        let (id, index, _) = ins.last();
        match first_marked_row(new_rows, id) {
            Some(r) => if index == -1 { acc.push(new_rows[r]) } else { acc },
            None => acc,
        }
    }
}

/// Current rows after the deletions of a stream update: for each id, the
/// first row holding its marker is removed.
pub open spec fn apply_deletes(cur: Seq<Seq<ChildV>>, ids: Seq<Seq<char>>) -> Seq<Seq<ChildV>>
    decreases ids.len(),
{
    if ids.len() == 0 {
        cur
    } else {
        let acc = apply_deletes(cur, ids.drop_last());
        match first_marked_row(acc, ids.last()) {
            Some(r) => acc.remove(r),
            None => acc,
        }
    }
}

/// One instruction of a stream update applied to a stream and its rows.
pub open spec fn stream_step(s: StreamV, rows: Seq<Seq<ChildV>>, new_rows: Seq<Seq<ChildV>>, a: StreamAttrV)
    -> Result<(StreamV, Seq<Seq<ChildV>>), MergeError>
{
    match a {
        StreamAttrV::StreamID(id) => if s.id != id { Err(MergeError::StreamIDMismatch) } else { Ok((s, rows)) },
        StreamAttrV::Inserts(ins) => Ok((s, apply_inserts(rows, new_rows, ins))),
        StreamAttrV::DeleteIDs(ids) => Ok((s, apply_deletes(rows, ids))),
        StreamAttrV::Reset(reset) => if reset {
            Ok((StreamV { id: s.id, items: Seq::empty() }, new_rows))
        } else {
            Ok((s, rows))
        },
    }
}

/// The stream and rows after applying a stream update, instruction by
/// instruction, to an existing stream.
pub open spec fn apply_stream_update(stream: StreamV, cur: Seq<Seq<ChildV>>, new_rows: Seq<Seq<ChildV>>, upd: Seq<StreamAttrV>)
    -> Result<(StreamV, Seq<Seq<ChildV>>), MergeError>
    decreases upd.len(),
{
    if upd.len() == 0 {
        Ok((stream, cur))
    } else {
        match apply_stream_update(stream, cur, new_rows, upd.drop_last()) {
            Err(e) => Err(e),
            Ok((s, rows)) => stream_step(s, rows, new_rows, upd.last()),
        }
    }
}

/// [apply_stream_update] takes its instructions one at a time.
pub proof fn lemma_stream_update_unfold(s: StreamV, c: Seq<Seq<ChildV>>, n: Seq<Seq<ChildV>>, upd: Seq<StreamAttrV>, i: int)
    requires
        0 <= i < upd.len(),
    ensures
        apply_stream_update(s, c, n, upd.take(i + 1)) == match apply_stream_update(s, c, n, upd.take(i)) {
            Err(e) => Err(e),
            Ok((s2, rows)) => stream_step(s2, rows, n, upd[i]),
        },
{
    assert(upd.take(i + 1).drop_last() =~= upd.take(i));
}

/// The merge of an update into a node.
pub open spec fn merge_child(c: ChildV, d: ChildDiffV) -> Result<ChildV, MergeError>
    decreases d,
{
    match (c, d) {
        (ChildV::Fragment(f), ChildDiffV::Fragment(fd)) => match merge_fragment(f, fd) {
            Ok(m) => Ok(ChildV::Fragment(m)),
            Err(e) => Err(e),
        },
        (_, ChildDiffV::Str(s)) => Ok(ChildV::Str(s)),
        (_, ChildDiffV::ComponentID(cid)) => Ok(ChildV::ComponentID(cid)),
        (_, ChildDiffV::Fragment(fd)) => match fragment_from_diff(fd) {
            Ok(f) => Ok(ChildV::Fragment(f)),
            Err(e) => Err(e),
        },
    }
}

/// One keyed update merged into keyed children: an existing child is merged
/// with its update, a new key gets a node built from it.
pub open spec fn merge_children_step(acc: Seq<(Seq<char>, ChildV)>, k: Seq<char>, d: ChildDiffV) -> Result<Seq<(Seq<char>, ChildV)>, MergeError> {
    match find_key(acc, k) {
        Some(i) => match merge_child(acc[i].1, d) {
            Ok(m) => Ok(acc.update(i, (k, m))),
            Err(e) => Err(e),
        },
        None => match child_from_diff(d) {
            Ok(m) => Ok(acc.push((k, m))),
            Err(e) => Err(e),
        },
    }
}

/// The merge of keyed updates into keyed children, in order.
pub open spec fn merge_children(cur: Seq<(Seq<char>, ChildV)>, diffs: Seq<(Seq<char>, ChildDiffV)>) -> Result<Seq<(Seq<char>, ChildV)>, MergeError>
    decreases diffs,
{
    if diffs.len() == 0 {
        Ok(cur)
    } else {
        proof {
            assert(decreases_to!(diffs => diffs[diffs.len() - 1]));
            assert(decreases_to!(diffs => diffs.drop_last()));
        }
        match merge_children(cur, diffs.drop_last()) {
            Err(e) => Err(e),
            Ok(acc) => {
                let (k, d) = diffs.last();
                match find_key(acc, k) {
                    Some(i) => match merge_child(acc[i].1, d) {
                        Ok(m) => Ok(acc.update(i, (k, m))),
                        Err(e) => Err(e),
                    },
                    None => match child_from_diff(d) {
                        Ok(m) => Ok(acc.push((k, m))),
                        Err(e) => Err(e),
                    },
                }
            },
        }
    }
}

/// [merge_children] takes its updates one at a time.
pub proof fn lemma_merge_children_unfold(cur: Seq<(Seq<char>, ChildV)>, diffs: Seq<(Seq<char>, ChildDiffV)>, i: int)
    requires
        0 <= i < diffs.len(),
    ensures
        merge_children(cur, diffs.take(i + 1)) == match merge_children(cur, diffs.take(i)) {
            Err(e) => Err(e),
            Ok(acc) => merge_children_step(acc, diffs[i].0, diffs[i].1),
        },
{
    assert(diffs.take(i + 1).drop_last() =~= diffs.take(i));
}

/// Storing under a key: the key then holds the value, and every other key
/// keeps its value.
pub proof fn lemma_insert_entry_lookup<A>(s: Seq<(Seq<char>, A)>, k: Seq<char>, v: A, other: Seq<char>)
    ensures
        lookup(insert_entry(s, k, v), k) == Some(v),
        other != k ==> lookup(insert_entry(s, k, v), other) == lookup(s, other),
{
    let t = insert_entry(s, k, v);
    lemma_find_key(s, k);
    lemma_find_key(t, k);
    lemma_find_key(s, other);
    lemma_find_key(t, other);
    match find_key(s, k) {
        Some(i) => {
            assert(t[i].0 == k);
            if other != k {
                assert forall|j: int| 0 <= j < t.len() implies (t[j].0 == other <==> s[j].0 == other) by {
                    if j == i { assert(t[j].0 == k); }
                }
                match (find_key(s, other), find_key(t, other)) {
                    (Some(p), Some(q)) => {
                        if p < q { assert(t[p].0 == other); } else if q < p { assert(s[q].0 == other); }
                        assert(p != i);
                    },
                    (Some(p), None) => { assert(t[p].0 == other); },
                    (None, Some(q)) => { assert(s[q].0 == other); },
                    (None, None) => {},
                }
            }
        },
        None => {
            assert(t[s.len() as int].0 == k);
            if other != k {
                match (find_key(s, other), find_key(t, other)) {
                    (Some(p), Some(q)) => {
                        if p < q { assert(t[p].0 == other); } else if q < p { assert(s[q].0 == other); }
                    },
                    (Some(p), None) => { assert(t[p].0 == other); },
                    (None, Some(q)) => { assert(s[q].0 == other); },
                    (None, None) => {},
                }
            }
        },
    }
}

/// Merging one keyed update into keyed children: the key then holds the
/// merge of its node with the update, or the node built from the update
/// when it had none, and every other key keeps its node.
pub proof fn law_merge_update_then_lookup(cur: Seq<(Seq<char>, ChildV)>, k: Seq<char>, d: ChildDiffV, other: Seq<char>)
    requires
        merge_children(cur, seq![(k, d)]) is Ok,
    ensures
        lookup(merge_children(cur, seq![(k, d)])->Ok_0, k) == Some(match lookup(cur, k) {
            Some(c) => merge_child(c, d)->Ok_0,
            None => child_from_diff(d)->Ok_0,
        }),
        other != k ==> lookup(merge_children(cur, seq![(k, d)])->Ok_0, other) == lookup(cur, other),
{
    let diffs = seq![(k, d)];
    assert(diffs.drop_last() =~= Seq::<(Seq<char>, ChildDiffV)>::empty());
    assert(merge_children(cur, diffs.drop_last()) == Ok::<Seq<(Seq<char>, ChildV)>, MergeError>(cur));
    let m = match lookup(cur, k) {
        Some(c) => merge_child(c, d)->Ok_0,
        None => child_from_diff(d)->Ok_0,
    };
    assert(merge_children(cur, diffs)->Ok_0 == insert_entry(cur, k, m));
    lemma_insert_entry_lookup(cur, k, m, other);
}

/// The merge of an update into a fragment.
pub open spec fn merge_fragment(f: FragmentV, d: FragmentDiffV) -> Result<FragmentV, MergeError>
    decreases d,
{
    if should_replace_current(d) {
        fragment_from_diff(d)
    } else {
        match (f, d) {
            (
                FragmentV::Regular { children, statics, is_root: cur_reply, .. },
                FragmentDiffV::UpdateRegular { children: diffs, is_root: new_reply, .. },
            ) => match merge_children(children, diffs) {
                Ok(c) => Ok(FragmentV::Regular {
                    children: c,
                    statics,
                    is_root: reply_or(new_reply, cur_reply),
                    new_render: render_flag(reply_or(new_reply, cur_reply)),
                }),
                Err(e) => Err(e),
            },
            (
                FragmentV::Comprehension { dynamics, statics, templates, stream, is_root: cur_reply, .. },
                FragmentDiffV::UpdateComprehension { dynamics: new_dyn, templates: new_templates, stream: new_stream, is_root: new_reply, .. },
            ) => match rows_from_diff(new_dyn) {
                Err(e) => Err(e),
                Ok(new_rows) => {
                    let reply = reply_or(new_reply, cur_reply);
                    let t = merge_templates(templates, new_templates);
                    let streamed: Result<(Option<StreamV>, Seq<Seq<ChildV>>), MergeError> = match (stream, new_stream) {
                        (None, None) => Ok((None, new_rows)),
                        (None, Some(attrs)) => Ok((Some(stream_from_attrs(attrs)), dynamics)),
                        (Some(s), None) => Ok((Some(s), dynamics)),
                        (Some(s), Some(upd)) => match apply_stream_update(s, dynamics, new_rows, upd) {
                            Ok((s2, rows)) => Ok((Some(s2), rows)),
                            Err(e) => Err(e),
                        },
                    };
                    match streamed {
                        Err(e) => Err(e),
                        Ok((s, rows)) => Ok(FragmentV::Comprehension {
                            dynamics: rows,
                            statics,
                            templates: t,
                            stream: s,
                            is_root: reply,
                            new_render: render_flag(reply),
                        }),
                    }
                },
            },
            _ => Err(MergeError::FragmentTypeMismatch),
        }
    }
}

/// The merge of an update into a component.
pub open spec fn merge_component(c: ComponentV, d: ComponentDiffV) -> Result<ComponentV, MergeError> {
    match d {
        ComponentDiffV::UpdateRegular { children: diffs, .. } => match merge_children(c.children, diffs) {
            Ok(ch) => Ok(ComponentV { children: ch, statics: c.statics, is_root: None }),
            Err(e) => Err(e),
        },
        ComponentDiffV::ReplaceCurrent { children, statics, .. } => Ok(ComponentV { children, statics, is_root: None }),
    }
}

/// The merge of keyed component updates into the components, in order.
pub open spec fn merge_components(cur: Seq<(Seq<char>, ComponentV)>, diffs: Seq<(Seq<char>, ComponentDiffV)>) -> Result<Seq<(Seq<char>, ComponentV)>, MergeError>
    decreases diffs.len(),
{
    if diffs.len() == 0 {
        Ok(cur)
    } else {
        match merge_components(cur, diffs.drop_last()) {
            Err(e) => Err(e),
            Ok(acc) => {
                let (k, d) = diffs.last();
                match find_key(acc, k) {
                    Some(i) => match merge_component(acc[i].1, d) {
                        Ok(m) => Ok(acc.update(i, (k, m))),
                        Err(e) => Err(e),
                    },
                    None => match component_from_diff(d) {
                        Ok(m) => Ok(acc.push((k, m))),
                        Err(e) => Err(e),
                    },
                }
            },
        }
    }
}

/// The components built from keyed updates; a later key replaces an earlier one.
pub open spec fn components_from_diff(s: Seq<(Seq<char>, ComponentDiffV)>) -> Result<Seq<(Seq<char>, ComponentV)>, MergeError>
    decreases s.len(),
{
    if s.len() == 0 {
        Ok(Seq::empty())
    } else {
        match components_from_diff(s.drop_last()) {
            Err(e) => Err(e),
            Ok(acc) => match component_from_diff(s.last().1) {
                Err(e) => Err(e),
                Ok(c) => Ok(insert_entry(acc, s.last().0, c)),
            },
        }
    }
}


// ---------------------------------------------------------------------------
// Resolving component references.

/// The component that `cid` names: a negative id names a component of the
/// previous tree, a positive one a component of the new tree, by the decimal
/// text of its absolute value.
pub open spec fn ctx_get(old: Seq<(Seq<char>, ComponentV)>, new: Seq<(Seq<char>, ComponentV)>, cid: i32) -> Result<ComponentV, MergeError> {
    let key = decimal(if cid < 0 { (-cid) as nat } else { cid as nat });
    match lookup(if cid < 0 { old } else { new }, key) {
        Some(c) => Ok(c),
        None => Err(MergeError::MissingComponent(cid)),
    }
}

/// Copies what `new` has and `old` lacks: missing statics, and children
/// (merged recursively where both have them).
pub open spec fn merge_trees(old: ChildV, new: ChildV) -> Result<ChildV, MergeError>
    decreases new,
{
    match (old, new) {
        (ChildV::Fragment(o), ChildV::Fragment(n)) => match (o, n) {
            (
                FragmentV::Comprehension { dynamics, statics, is_root, templates, stream, new_render },
                FragmentV::Comprehension { statics: new_statics, .. },
            ) => Ok(ChildV::Fragment(FragmentV::Comprehension {
                dynamics,
                statics: if statics is None { new_statics } else { statics },
                is_root,
                templates,
                stream,
                new_render,
            })),
            (
                FragmentV::Regular { statics, is_root, children, new_render },
                FragmentV::Regular { statics: new_statics, children: new_children, .. },
            ) => match merge_tree_entries(children, new_children) {
                Ok(c) => Ok(ChildV::Fragment(FragmentV::Regular {
                    statics: if statics is None { new_statics } else { statics },
                    is_root,
                    children: c,
                    new_render,
                })),
                Err(e) => Err(e),
            },
            _ => Err(MergeError::FragmentTypeMismatch),
        },
        (ChildV::ComponentID(_), _) => Err(MergeError::UnresolvedComponent),
        (_, ChildV::ComponentID(_)) => Err(MergeError::UnresolvedComponent),
        _ => Ok(old),
    }
}

/// [merge_trees] over keyed children, taking the new children in order.
pub open spec fn merge_tree_entries(cur: Seq<(Seq<char>, ChildV)>, new: Seq<(Seq<char>, ChildV)>) -> Result<Seq<(Seq<char>, ChildV)>, MergeError>
    decreases new,
{
    if new.len() == 0 {
        Ok(cur)
    } else {
        proof {
            assert(decreases_to!(new => new[new.len() - 1]));
            assert(decreases_to!(new => new.drop_last()));
        }
        match merge_tree_entries(cur, new.drop_last()) {
            Err(e) => Err(e),
            Ok(acc) => {
                let (k, c) = new.last();
                match find_key(acc, k) {
                    Some(i) => match merge_trees(acc[i].1, c) {
                        Ok(m) => Ok(acc.update(i, (k, m))),
                        Err(e) => Err(e),
                    },
                    None => Ok(acc.push((k, c))),
                }
            },
        }
    }
}

/// One new child merged into keyed children.
pub open spec fn merge_tree_step(acc: Seq<(Seq<char>, ChildV)>, k: Seq<char>, c: ChildV) -> Result<Seq<(Seq<char>, ChildV)>, MergeError> {
    match find_key(acc, k) {
        Some(i) => match merge_trees(acc[i].1, c) {
            Ok(m) => Ok(acc.update(i, (k, m))),
            Err(e) => Err(e),
        },
        None => Ok(acc.push((k, c))),
    }
}

/// [merge_tree_entries] takes the new children one at a time.
pub proof fn lemma_merge_tree_entries_unfold(cur: Seq<(Seq<char>, ChildV)>, new: Seq<(Seq<char>, ChildV)>, i: int)
    requires
        0 <= i < new.len(),
    ensures
        merge_tree_entries(cur, new.take(i + 1)) == match merge_tree_entries(cur, new.take(i)) {
            Err(e) => Err(e),
            Ok(acc) => merge_tree_step(acc, new[i].0, new[i].1),
        },
{
    assert(new.take(i + 1).drop_last() =~= new.take(i));
}

/// A component whose statics refer to another component takes that
/// component's statics and children.
pub open spec fn resolve_cids(c: ComponentV, old: Seq<(Seq<char>, ComponentV)>, new: Seq<(Seq<char>, ComponentV)>) -> Result<ComponentV, MergeError> {
    match c.statics {
        ComponentStaticsV::ComponentRef(id) => match ctx_get(old, new, id) {
            Err(e) => Err(e),
            Ok(src) => match merge_tree_entries(c.children, src.children) {
                Ok(ch) => Ok(ComponentV { children: ch, statics: src.statics, is_root: c.is_root }),
                Err(e) => Err(e),
            },
        },
        ComponentStaticsV::Statics(_) => Ok(c),
    }
}

/// The first `n` components resolved against the old components and the
/// (unresolved) new ones.
pub open spec fn resolve_prefix(comps: Seq<(Seq<char>, ComponentV)>, old: Seq<(Seq<char>, ComponentV)>, n: int) -> Result<Seq<(Seq<char>, ComponentV)>, MergeError>
    decreases n,
{
    if n <= 0 {
        Ok(comps)
    } else {
        match resolve_prefix(comps, old, n - 1) {
            Err(e) => Err(e),
            Ok(acc) => match resolve_cids(comps[n - 1].1, old, comps) {
                Ok(c) => Ok(acc.update(n - 1, (comps[n - 1].0, c))),
                Err(e) => Err(e),
            },
        }
    }
}

/// All components resolved, in order.
pub open spec fn resolve_components(comps: Seq<(Seq<char>, ComponentV)>, old: Seq<(Seq<char>, ComponentV)>) -> Result<Seq<(Seq<char>, ComponentV)>, MergeError> {
    resolve_prefix(comps, old, comps.len() as int)
}

/// A new tree: its components resolved.
pub open spec fn root_new(fragment: FragmentV, old: Seq<(Seq<char>, ComponentV)>, new: Seq<(Seq<char>, ComponentV)>) -> Result<RootV, MergeError> {
    match resolve_components(new, old) {
        Ok(c) => Ok(RootV { new_render: None, fragment, components: c }),
        Err(e) => Err(e),
    }
}

/// The tree built from an update, as if there were nothing to update.
pub open spec fn root_from_diff(d: RootDiffV) -> Result<RootV, MergeError> {
    match components_from_diff(d.components) {
        Err(e) => Err(e),
        Ok(cs) => match fragment_from_diff(d.fragment) {
            Err(e) => Err(e),
            Ok(f) => root_new(f, Seq::empty(), cs),
        },
    }
}

/// The merge of an update into a tree.
pub open spec fn merge_root(r: RootV, d: RootDiffV) -> Result<RootV, MergeError> {
    match merge_fragment(r.fragment, d.fragment) {
        Err(e) => Err(e),
        Ok(f) => match merge_components(r.components, d.components) {
            Err(e) => Err(e),
            Ok(nc) => root_new(f, r.components, nc),
        },
    }
}

/// No component refers to the component id `i32::MIN`, whose absolute value
/// does not fit.
pub open spec fn refs_in_range(comps: Seq<(Seq<char>, ComponentV)>) -> bool {
    forall|i: int| 0 <= i < comps.len() ==> comps[i].1.statics != ComponentStaticsV::ComponentRef(i32::MIN)
}


/// The statics of a fragment node, when they are a list of strings.
pub open spec fn child_statics(c: ChildV) -> Option<Seq<Seq<char>>> {
    match c {
        ChildV::Fragment(FragmentV::Regular { statics: Some(StaticsV::List(s)), .. }) => Some(s),
        ChildV::Fragment(FragmentV::Comprehension { statics: Some(StaticsV::List(s)), .. }) => Some(s),
        _ => None,
    }
}


// ---------------------------------------------------------------------------
// Rendering. Each function takes `fuel`, which bounds the depth of the
// rendering; it answers `None` when the fuel runs out or when rendering would
// index past the end of a list of statics or of a row.

/// The concatenation of strings.
pub open spec fn concat(v: Seq<Seq<char>>) -> Seq<char>
    decreases v.len(),
{
    if v.len() == 0 {
        Seq::empty()
    } else {
        concat(v.drop_last()) + v.last()
    }
}

/// The statics and children of the component that `cid` names, following
/// references from component to component.
#[verifier::opaque]
pub open spec fn follow_ref(fuel: nat, comps: Seq<(Seq<char>, ComponentV)>, cid: i32)
    -> Option<Result<(Seq<Seq<char>>, Seq<(Seq<char>, ChildV)>), RenderError>>
    decreases fuel,
{
    if fuel == 0 {
        None
    } else {
        match lookup(comps, int_text(cid as int)) {
            None => Some(Err(RenderError::ComponentNotFound(cid))),
            Some(c) => match c.statics {
                ComponentStaticsV::Statics(s) => Some(Ok((s, c.children))),
                ComponentStaticsV::ComponentRef(b) => follow_ref((fuel - 1) as nat, comps, b),
            },
        }
    }
}

/// Renders a node.
#[verifier::opaque]
pub open spec fn render_child(fuel: nat, c: ChildV, comps: Seq<(Seq<char>, ComponentV)>, cousin: Option<Seq<Seq<char>>>, t: TemplatesV)
    -> Option<Result<Seq<char>, RenderError>>
    decreases fuel, 0nat, 0nat,
{
    if fuel == 0 {
        None
    } else {
        match c {
            ChildV::Fragment(f) => render_fragment((fuel - 1) as nat, f, comps, cousin, t),
            ChildV::ComponentID(cid) => match lookup(comps, int_text(cid as int)) {
                Some(comp) => render_component((fuel - 1) as nat, comp, comps),
                None => Some(Err(RenderError::ComponentNotFound(cid))),
            },
            ChildV::Str(StringsV::One(s)) => Some(Ok(s)),
            ChildV::Str(StringsV::Many(v)) => Some(Ok(concat(v))),
        }
    }
}

/// Renders a fragment, given the statics of a sibling (`cousin`) and the
/// templates of its parents.
#[verifier::opaque]
pub open spec fn render_fragment(fuel: nat, f: FragmentV, comps: Seq<(Seq<char>, ComponentV)>, cousin: Option<Seq<Seq<char>>>, parent: TemplatesV)
    -> Option<Result<Seq<char>, RenderError>>
    decreases fuel, 0nat, 0nat,
{
    if fuel == 0 {
        None
    } else {
        match f {
            FragmentV::Regular { children, statics, .. } => match statics {
                None => Some(Ok(Seq::empty())),
                Some(StaticsV::Str(_)) => Some(Ok(Seq::empty())),
                Some(StaticsV::List(st)) => if st.len() == 0 {
                    None
                } else {
                    regular_upto((fuel - 1) as nat, st, children, comps, cousin, parent, st.len() as int)
                },
                Some(StaticsV::TemplateRef(tid)) => match parent {
                    None => Some(Err(RenderError::NoTemplates)),
                    Some(t) => match lookup(t, int_text(tid as int)) {
                        None => Some(Err(RenderError::TemplateNotFound(tid))),
                        Some(tmpl) => if tmpl.len() == 0 {
                            None
                        } else {
                            template_upto((fuel - 1) as nat, tmpl, children, comps, cousin, t, tmpl.len() as int)
                        },
                    },
                },
            },
            FragmentV::Comprehension { dynamics, statics, templates, .. } => {
                let t = merge_templates(parent, templates);
                match (statics, cousin) {
                    (None, None) => rows_concat((fuel - 1) as nat, dynamics, comps, t, dynamics.len() as int),
                    (None, Some(st)) => rows_with_statics((fuel - 1) as nat, st, dynamics, comps, t, dynamics.len() as int),
                    (Some(StaticsV::Str(_)), None) => Some(Ok(Seq::empty())),
                    (Some(StaticsV::List(st)), None) => rows_with_statics((fuel - 1) as nat, st, dynamics, comps, t, dynamics.len() as int),
                    (Some(StaticsV::TemplateRef(tid)), None) => match t {
                        None => Some(Err(RenderError::NoTemplates)),
                        Some(tt) => match lookup(tt, int_text(tid as int)) {
                            None => Some(Err(RenderError::TemplateNotFound(tid))),
                            Some(ts) => rows_with_statics((fuel - 1) as nat, ts, dynamics, comps, t, dynamics.len() as int),
                        },
                    },
                    (Some(_), Some(_)) => None,
                }
            },
        }
    }
}

/// The statics `st[0..k)` of a regular fragment, each after the child at
/// the previous index when there is one.
#[verifier::opaque]
pub open spec fn regular_upto(fuel: nat, st: Seq<Seq<char>>, children: Seq<(Seq<char>, ChildV)>, comps: Seq<(Seq<char>, ComponentV)>,
    cousin: Option<Seq<Seq<char>>>, parent: TemplatesV, k: int) -> Option<Result<Seq<char>, RenderError>>
    decreases fuel, k, 0nat,
{
    if k <= 1 {
        Some(Ok(st[0]))
    } else {
        match regular_upto(fuel, st, children, comps, cousin, parent, k - 1) {
            Some(Ok(o)) => match lookup(children, decimal((k - 2) as nat)) {
                None => Some(Ok(o + st[k - 1])),
                Some(c) => match render_child(fuel, c, comps, cousin, parent) {
                    Some(Ok(v)) => Some(Ok(o + v + st[k - 1])),
                    other => other,
                },
            },
            other => other,
        }
    }
}

/// The template parts `tmpl[0..k)`, each after the child at the previous
/// index, which must exist.
#[verifier::opaque]
pub open spec fn template_upto(fuel: nat, tmpl: Seq<Seq<char>>, children: Seq<(Seq<char>, ChildV)>, comps: Seq<(Seq<char>, ComponentV)>,
    cousin: Option<Seq<Seq<char>>>, t: Seq<(Seq<char>, Seq<Seq<char>>)>, k: int) -> Option<Result<Seq<char>, RenderError>>
    decreases fuel, k, 0nat,
{
    if k <= 1 {
        Some(Ok(tmpl[0]))
    } else {
        match template_upto(fuel, tmpl, children, comps, cousin, t, k - 1) {
            Some(Ok(o)) => match lookup(children, decimal((k - 2) as nat)) {
                None => Some(Err(RenderError::ChildNotFoundForTemplate((k - 2) as i32))),
                Some(c) => match render_child(fuel, c, comps, cousin, Some(t)) {
                    Some(Ok(v)) => Some(Ok(o + v + tmpl[k - 1])),
                    other => other,
                },
            },
            other => other,
        }
    }
}

/// The first `n` rows, each the concatenation of its rendered children.
#[verifier::opaque]
pub open spec fn rows_concat(fuel: nat, rows: Seq<Seq<ChildV>>, comps: Seq<(Seq<char>, ComponentV)>, t: TemplatesV, n: int)
    -> Option<Result<Seq<char>, RenderError>>
    decreases fuel, n, 0nat,
{
    if n <= 0 {
        Some(Ok(Seq::empty()))
    } else {
        match rows_concat(fuel, rows, comps, t, n - 1) {
            Some(Ok(o)) => match row_concat(fuel, rows[n - 1], comps, t, rows[n - 1].len() as int) {
                Some(Ok(v)) => Some(Ok(o + v)),
                other => other,
            },
            other => other,
        }
    }
}

/// The first `m` children of a row, rendered and concatenated.
#[verifier::opaque]
pub open spec fn row_concat(fuel: nat, row: Seq<ChildV>, comps: Seq<(Seq<char>, ComponentV)>, t: TemplatesV, m: int)
    -> Option<Result<Seq<char>, RenderError>>
    decreases fuel, 0nat, m,
{
    if m <= 0 {
        Some(Ok(Seq::empty()))
    } else {
        match row_concat(fuel, row, comps, t, m - 1) {
            Some(Ok(o)) => match render_child(fuel, row[m - 1], comps, None, t) {
                Some(Ok(v)) => Some(Ok(o + v)),
                other => other,
            },
            other => other,
        }
    }
}

/// The first `n` rows, each rendered through the statics `st`.
#[verifier::opaque]
pub open spec fn rows_with_statics(fuel: nat, st: Seq<Seq<char>>, rows: Seq<Seq<ChildV>>, comps: Seq<(Seq<char>, ComponentV)>, t: TemplatesV, n: int)
    -> Option<Result<Seq<char>, RenderError>>
    decreases fuel, n, 0nat,
{
    if n <= 0 {
        Some(Ok(Seq::empty()))
    } else {
        match rows_with_statics(fuel, st, rows, comps, t, n - 1) {
            Some(Ok(o)) => match row_with_statics(fuel, st, rows[n - 1], comps, t, st.len() as int) {
                Some(Ok(v)) => Some(Ok(o + v)),
                other => other,
            },
            other => other,
        }
    }
}

/// The statics `st[0..k)` of one row, each after the row's child at the
/// previous index, which must exist.
#[verifier::opaque]
pub open spec fn row_with_statics(fuel: nat, st: Seq<Seq<char>>, row: Seq<ChildV>, comps: Seq<(Seq<char>, ComponentV)>, t: TemplatesV, k: int)
    -> Option<Result<Seq<char>, RenderError>>
    decreases fuel, 0nat, k,
{
    if k <= 1 {
        if st.len() == 0 { None } else { Some(Ok(st[0])) }
    } else {
        match row_with_statics(fuel, st, row, comps, t, k - 1) {
            Some(Ok(o)) => if k - 2 >= row.len() {
                None
            } else {
                match render_child(fuel, row[k - 2], comps, None, t) {
                    Some(Ok(v)) => Some(Ok(o + v + st[k - 1])),
                    other => other,
                }
            },
            other => other,
        }
    }
}

/// Renders a component.
#[verifier::opaque]
pub open spec fn render_component(fuel: nat, c: ComponentV, comps: Seq<(Seq<char>, ComponentV)>) -> Option<Result<Seq<char>, RenderError>>
    decreases fuel, 0nat, 0nat,
{
    if fuel == 0 {
        None
    } else {
        match c.statics {
            ComponentStaticsV::Statics(st) => if st.len() == 0 {
                None
            } else {
                component_upto((fuel - 1) as nat, st, c.children, comps, st.len() as int)
            },
            ComponentStaticsV::ComponentRef(cid) => match follow_ref((fuel - 1) as nat, comps, cid) {
                None => None,
                Some(Err(e)) => Some(Err(e)),
                Some(Ok((outer, cousins))) => if outer.len() == 0 {
                    None
                } else {
                    cousin_upto((fuel - 1) as nat, outer, c.children, cousins, comps, outer.len() as int)
                },
            },
        }
    }
}

/// The statics `st[0..k)` of a component, each after the child at the
/// previous index, which must exist.
#[verifier::opaque]
pub open spec fn component_upto(fuel: nat, st: Seq<Seq<char>>, children: Seq<(Seq<char>, ChildV)>, comps: Seq<(Seq<char>, ComponentV)>, k: int)
    -> Option<Result<Seq<char>, RenderError>>
    decreases fuel, k, 0nat,
{
    if k <= 1 {
        Some(Ok(st[0]))
    } else {
        match component_upto(fuel, st, children, comps, k - 1) {
            Some(Ok(o)) => match lookup(children, decimal((k - 2) as nat)) {
                None => Some(Err(RenderError::ChildNotFoundForStatic((k - 2) as i32))),
                Some(c) => match render_child(fuel, c, comps, None, None) {
                    Some(Ok(v)) => Some(Ok(o + v + st[k - 1])),
                    other => other,
                },
            },
            other => other,
        }
    }
}

/// The statics `outer[0..k)` of the component that a reference leads to,
/// each after the child at the previous index rendered with the statics of
/// that component's child at the same index.
#[verifier::opaque]
pub open spec fn cousin_upto(fuel: nat, outer: Seq<Seq<char>>, children: Seq<(Seq<char>, ChildV)>, cousins: Seq<(Seq<char>, ChildV)>,
    comps: Seq<(Seq<char>, ComponentV)>, k: int) -> Option<Result<Seq<char>, RenderError>>
    decreases fuel, k, 0nat,
{
    if k <= 1 {
        Some(Ok(outer[0]))
    } else {
        match cousin_upto(fuel, outer, children, cousins, comps, k - 1) {
            Some(Ok(o)) => match lookup(children, decimal((k - 2) as nat)) {
                None => Some(Err(RenderError::ChildNotFoundForStatic((k - 2) as i32))),
                Some(c) => match lookup(cousins, decimal((k - 2) as nat)) {
                    None => Some(Err(RenderError::CousinNotFound((k - 2) as i32))),
                    Some(cousin) => match render_child(fuel, c, comps, child_statics(cousin), None) {
                        Some(Ok(v)) => Some(Ok(o + v + outer[k - 1])),
                        other => other,
                    },
                },
            },
            other => other,
        }
    }
}

/// Whether rendering a fragment completes, with some bound on its depth.
pub open spec fn fragment_renders(f: FragmentV, comps: Seq<(Seq<char>, ComponentV)>, cousin: Option<Seq<Seq<char>>>, parent: TemplatesV) -> bool {
    exists|fuel: nat| render_fragment(fuel, f, comps, cousin, parent) is Some
}

/// The result of rendering a fragment, when rendering completes.
pub open spec fn fragment_rendered(f: FragmentV, comps: Seq<(Seq<char>, ComponentV)>, cousin: Option<Seq<Seq<char>>>, parent: TemplatesV) -> Result<Seq<char>, RenderError> {
    render_fragment(choose|fuel: nat| render_fragment(fuel, f, comps, cousin, parent) is Some, f, comps, cousin, parent).unwrap()
}

/// Whether rendering a node completes, with some bound on its depth.
pub open spec fn child_renders(c: ChildV, comps: Seq<(Seq<char>, ComponentV)>, cousin: Option<Seq<Seq<char>>>, t: TemplatesV) -> bool {
    exists|fuel: nat| render_child(fuel, c, comps, cousin, t) is Some
}

/// The result of rendering a node, when rendering completes.
pub open spec fn child_rendered(c: ChildV, comps: Seq<(Seq<char>, ComponentV)>, cousin: Option<Seq<Seq<char>>>, t: TemplatesV) -> Result<Seq<char>, RenderError> {
    render_child(choose|fuel: nat| render_child(fuel, c, comps, cousin, t) is Some, c, comps, cousin, t).unwrap()
}

/// Whether rendering a component completes, with some bound on its depth.
pub open spec fn component_renders(c: ComponentV, comps: Seq<(Seq<char>, ComponentV)>) -> bool {
    exists|fuel: nat| render_component(fuel, c, comps) is Some
}

/// The result of rendering a component, when rendering completes.
pub open spec fn component_rendered(c: ComponentV, comps: Seq<(Seq<char>, ComponentV)>) -> Result<Seq<char>, RenderError> {
    render_component(choose|fuel: nat| render_component(fuel, c, comps) is Some, c, comps).unwrap()
}

/// A stream update that deletes the item `x` removes, from the rows of a
/// streamed comprehension, the first row holding the string child
/// ` id="x"`, and keeps the other rows in order; rows without that child
/// are all kept.
pub proof fn law_stream_delete_removes_marked_row(
    dynamics: Seq<Seq<ChildV>>, statics: Option<StaticsV>, templates: TemplatesV, s: StreamV,
    is_root: Option<i8>, new_render: Option<bool>, x: Seq<char>,
)
    ensures
        ({
            let f = FragmentV::Comprehension { dynamics, statics, templates, stream: Some(s), is_root, new_render };
            let d = FragmentDiffV::UpdateComprehension { dynamics: Seq::empty(), templates: None, statics: None,
                is_root: None, stream: Some(seq![StreamAttrV::StreamID(s.id), StreamAttrV::DeleteIDs(seq![x])]) };
            let marker = ChildV::Str(StringsV::One(" id=\""@ + x + "\""@));
            &&& forall|i: int| 0 <= i < dynamics.len() && dynamics[i].contains(marker)
                && (forall|j: int| 0 <= j < i ==> !dynamics[j].contains(marker)) ==>
                (merge_fragment(f, d) matches Ok(FragmentV::Comprehension { dynamics: rows, .. })
                    && rows == dynamics.remove(i) && rows.len() == dynamics.len() - 1)
            &&& (forall|j: int| 0 <= j < dynamics.len() ==> !dynamics[j].contains(marker)) ==>
                (merge_fragment(f, d) matches Ok(FragmentV::Comprehension { dynamics: rows, .. }) && rows == dynamics)
        }),
{
    let f = FragmentV::Comprehension { dynamics, statics, templates, stream: Some(s), is_root, new_render };
    let upd = seq![StreamAttrV::StreamID(s.id), StreamAttrV::DeleteIDs(seq![x])];
    let d = FragmentDiffV::UpdateComprehension { dynamics: Seq::empty(), templates: None, statics: None,
        is_root: None, stream: Some(upd) };
    let marker = ChildV::Str(StringsV::One(" id=\""@ + x + "\""@));
    assert(stream_marker(x) == " id=\""@ + x + "\""@);
    assert forall|j: int| 0 <= j < dynamics.len() implies (row_has_marker(dynamics[j], x) <==> dynamics[j].contains(marker)) by {
        if dynamics[j].contains(marker) {
            let k = choose|k: int| 0 <= k < dynamics[j].len() && dynamics[j][k] == marker;
            assert(dynamics[j][k] == ChildV::Str(StringsV::One(stream_marker(x))));
        }
    }
    assert(rows_from_diff(Seq::<Seq<ChildDiffV>>::empty()) == Ok::<Seq<Seq<ChildV>>, MergeError>(Seq::empty()));
    assert(upd.drop_last().drop_last() =~= Seq::<StreamAttrV>::empty());
    assert(upd.drop_last() =~= seq![StreamAttrV::StreamID(s.id)]);
    assert(seq![x].drop_last() =~= Seq::<Seq<char>>::empty());
    reveal_with_fuel(apply_stream_update, 3);
    reveal_with_fuel(apply_deletes, 2);
    assert(apply_stream_update(s, dynamics, Seq::empty(), upd.drop_last()) == Ok::<(StreamV, Seq<Seq<ChildV>>), MergeError>((s, dynamics)));
    assert(apply_deletes(dynamics, seq![x]) == match first_marked_row(dynamics, x) {
        Some(r) => dynamics.remove(r),
        None => dynamics,
    });
    assert forall|i: int| 0 <= i < dynamics.len() && dynamics[i].contains(marker)
        && (forall|j: int| 0 <= j < i ==> !dynamics[j].contains(marker)) implies
        (merge_fragment(f, d) matches Ok(FragmentV::Comprehension { dynamics: rows, .. })
            && rows == dynamics.remove(i) && rows.len() == dynamics.len() - 1) by {
        assert(row_has_marker(dynamics[i], x));
        let c = choose|c: int| 0 <= c < dynamics.len() && row_has_marker(dynamics[c], x)
            && forall|j: int| 0 <= j < c ==> !row_has_marker(dynamics[j], x);
        if c < i {
            assert(!dynamics[c].contains(marker));
        } else if c > i {
            assert(!row_has_marker(dynamics[i], x));
        }
        assert(first_marked_row(dynamics, x) == Some(i));
    }
    if forall|j: int| 0 <= j < dynamics.len() ==> !dynamics[j].contains(marker) {
        assert(first_marked_row(dynamics, x) is None);
    }
}

/// The instructions of a stream update, one at a time: a stream id other
/// than the stream's fails the update; inserting the item `x` at index -1
/// appends the first new row holding the string child ` id="x"`, and no row
/// when no new row holds it; a reset empties the stream's items and takes
/// the new rows; deleting `x` removes the first current row holding that
/// child.
pub proof fn law_stream_instructions(s: StreamV, cur: Seq<Seq<ChildV>>, new_rows: Seq<Seq<ChildV>>, x: Seq<char>,
    limit: Option<i32>, other: Seq<char>)
    ensures
        other != s.id ==> apply_stream_update(s, cur, new_rows, seq![StreamAttrV::StreamID(other)])
            == Err::<(StreamV, Seq<Seq<ChildV>>), MergeError>(MergeError::StreamIDMismatch),
        apply_stream_update(s, cur, new_rows, seq![StreamAttrV::StreamID(s.id)])
            == Ok::<(StreamV, Seq<Seq<ChildV>>), MergeError>((s, cur)),
        apply_stream_update(s, cur, new_rows, seq![StreamAttrV::Reset(true)])
            == Ok::<(StreamV, Seq<Seq<ChildV>>), MergeError>((StreamV { id: s.id, items: Seq::empty() }, new_rows)),
        apply_stream_update(s, cur, new_rows, seq![StreamAttrV::Reset(false)])
            == Ok::<(StreamV, Seq<Seq<ChildV>>), MergeError>((s, cur)),
        ({
            let marker = ChildV::Str(StringsV::One(" id=\""@ + x + "\""@));
            &&& forall|i: int| 0 <= i < new_rows.len() && new_rows[i].contains(marker)
                && (forall|j: int| 0 <= j < i ==> !new_rows[j].contains(marker)) ==>
                apply_stream_update(s, cur, new_rows, seq![StreamAttrV::Inserts(seq![(x, -1i32, limit)])])
                    == Ok::<(StreamV, Seq<Seq<ChildV>>), MergeError>((s, cur.push(new_rows[i])))
            &&& (forall|j: int| 0 <= j < new_rows.len() ==> !new_rows[j].contains(marker)) ==>
                apply_stream_update(s, cur, new_rows, seq![StreamAttrV::Inserts(seq![(x, -1i32, limit)])])
                    == Ok::<(StreamV, Seq<Seq<ChildV>>), MergeError>((s, cur))
            &&& forall|i: int| 0 <= i < cur.len() && cur[i].contains(marker)
                && (forall|j: int| 0 <= j < i ==> !cur[j].contains(marker)) ==>
                apply_stream_update(s, cur, new_rows, seq![StreamAttrV::DeleteIDs(seq![x])])
                    == Ok::<(StreamV, Seq<Seq<ChildV>>), MergeError>((s, cur.remove(i)))
        }),
{
    let marker = ChildV::Str(StringsV::One(" id=\""@ + x + "\""@));
    assert(stream_marker(x) == " id=\""@ + x + "\""@);
    reveal_with_fuel(apply_stream_update, 2);
    reveal_with_fuel(apply_inserts, 2);
    reveal_with_fuel(apply_deletes, 2);
    assert(seq![(x, -1i32, limit)].drop_last() =~= Seq::<(Seq<char>, i32, Option<i32>)>::empty());
    assert(seq![x].drop_last() =~= Seq::<Seq<char>>::empty());
    assert(seq![StreamAttrV::StreamID(other)].drop_last() =~= Seq::<StreamAttrV>::empty());
    assert(seq![StreamAttrV::StreamID(s.id)].drop_last() =~= Seq::<StreamAttrV>::empty());
    assert(seq![StreamAttrV::Reset(true)].drop_last() =~= Seq::<StreamAttrV>::empty());
    assert(seq![StreamAttrV::Reset(false)].drop_last() =~= Seq::<StreamAttrV>::empty());
    assert(seq![StreamAttrV::Inserts(seq![(x, -1i32, limit)])].drop_last() =~= Seq::<StreamAttrV>::empty());
    assert(seq![StreamAttrV::DeleteIDs(seq![x])].drop_last() =~= Seq::<StreamAttrV>::empty());
    assert forall|rows: Seq<Seq<ChildV>>, j: int| 0 <= j < rows.len() implies
        (row_has_marker(#[trigger] rows[j], x) <==> rows[j].contains(marker)) by {
        if rows[j].contains(marker) {
            let k = choose|k: int| 0 <= k < rows[j].len() && rows[j][k] == marker;
            assert(rows[j][k] == ChildV::Str(StringsV::One(stream_marker(x))));
        }
    }
    assert forall|i: int| 0 <= i < new_rows.len() && new_rows[i].contains(marker)
        && (forall|j: int| 0 <= j < i ==> !new_rows[j].contains(marker)) implies
        apply_stream_update(s, cur, new_rows, seq![StreamAttrV::Inserts(seq![(x, -1i32, limit)])])
            == Ok::<(StreamV, Seq<Seq<ChildV>>), MergeError>((s, cur.push(new_rows[i]))) by {
        assert(row_has_marker(new_rows[i], x));
        let c = choose|c: int| 0 <= c < new_rows.len() && row_has_marker(new_rows[c], x)
            && forall|j: int| 0 <= j < c ==> !row_has_marker(new_rows[j], x);
        if c < i {
            assert(!new_rows[c].contains(marker));
        } else if c > i {
            assert(!row_has_marker(new_rows[i], x));
        }
        assert(first_marked_row(new_rows, x) == Some(i));
    }
    if forall|j: int| 0 <= j < new_rows.len() ==> !new_rows[j].contains(marker) {
        assert(first_marked_row(new_rows, x) is None);
    }
    assert forall|i: int| 0 <= i < cur.len() && cur[i].contains(marker)
        && (forall|j: int| 0 <= j < i ==> !cur[j].contains(marker)) implies
        apply_stream_update(s, cur, new_rows, seq![StreamAttrV::DeleteIDs(seq![x])])
            == Ok::<(StreamV, Seq<Seq<ChildV>>), MergeError>((s, cur.remove(i))) by {
        assert(row_has_marker(cur[i], x));
        let c = choose|c: int| 0 <= c < cur.len() && row_has_marker(cur[c], x)
            && forall|j: int| 0 <= j < c ==> !row_has_marker(cur[j], x);
        if c < i {
            assert(!cur[c].contains(marker));
        } else if c > i {
            assert(!row_has_marker(cur[i], x));
        }
        assert(first_marked_row(cur, x) == Some(i));
    }
}

/// Merging an update of a comprehension: the rows of the update replace the
/// current ones when neither side streams; a streamed comprehension, or one
/// that the update starts streaming, keeps its current rows; the statics
/// stay; the update's `is_root` flag, else the current one, is kept, and the
/// `new_render` flag says whether it is nonzero; the templates are merged.
/// A row of the update that cannot be built fails the merge with its error.
pub proof fn law_comprehension_merge(
    dynamics: Seq<Seq<ChildV>>, statics: Option<StaticsV>, templates: TemplatesV, stream: Option<StreamV>,
    is_root: Option<i8>, new_render: Option<bool>,
    new_dyn: Seq<Seq<ChildDiffV>>, new_templates: TemplatesV, new_root: Option<i8>, new_stream: Option<Seq<StreamAttrV>>,
)
    ensures
        ({
            let f = FragmentV::Comprehension { dynamics, statics, templates, stream, is_root, new_render };
            let d = FragmentDiffV::UpdateComprehension { dynamics: new_dyn, templates: new_templates, statics: None,
                is_root: new_root, stream: new_stream };
            let reply = match new_root { Some(x) => Some(x), None => is_root };
            &&& rows_from_diff(new_dyn) matches Err(e) ==> merge_fragment(f, d) == Err::<FragmentV, MergeError>(e)
            &&& rows_from_diff(new_dyn) matches Ok(rows) ==> {
                &&& (stream is None && new_stream is None) ==>
                    (merge_fragment(f, d) matches Ok(FragmentV::Comprehension { dynamics: out, statics: st, stream: s2, is_root: ir, new_render: nr, templates: tt })
                    && out == rows && st == statics && s2 is None && ir == reply && nr == (match reply { Some(i) => Some(i != 0), None => None })
                    && tt == merge_templates(templates, new_templates))
                &&& (stream is Some && new_stream is None) ==>
                    (merge_fragment(f, d) matches Ok(FragmentV::Comprehension { dynamics: out, statics: st, stream: s2, is_root: ir, .. })
                    && out == dynamics && st == statics && s2 == stream && ir == reply)
                &&& (stream is None && new_stream is Some) ==>
                    (merge_fragment(f, d) matches Ok(FragmentV::Comprehension { dynamics: out, statics: st, stream: s2, is_root: ir, .. })
                    && out == dynamics && st == statics && s2 == Some(stream_from_attrs(new_stream->0)) && ir == reply)
            }
        }),
{
}

/// Merging an update of a regular fragment keeps its statics, merges the
/// keyed children, and keeps the update's `is_root` flag, else the current
/// one; an update without children leaves the children as they were.
/// An update of the other kind that does not replace the fragment fails
/// with a type mismatch, and an update that carries statics replaces the
/// fragment with the one it describes.
pub proof fn law_regular_merge(children: Seq<(Seq<char>, ChildV)>, statics: Option<StaticsV>, is_root: Option<i8>,
    new_render: Option<bool>, diffs: Seq<(Seq<char>, ChildDiffV)>, new_root: Option<i8>, f: FragmentV, d: FragmentDiffV)
    ensures
        ({
            let g = FragmentV::Regular { children, statics, is_root, new_render };
            let u = FragmentDiffV::UpdateRegular { children: diffs, statics: None, is_root: new_root };
            let reply = match new_root { Some(x) => Some(x), None => is_root };
            &&& merge_children(children, diffs) matches Ok(c) ==> merge_fragment(g, u) == Ok::<FragmentV, MergeError>(
                FragmentV::Regular { children: c, statics, is_root: reply, new_render: match reply { Some(i) => Some(i != 0), None => None } })
            &&& merge_children(children, diffs) matches Err(e) ==> merge_fragment(g, u) == Err::<FragmentV, MergeError>(e)
            &&& diffs.len() == 0 ==> (merge_fragment(g, u) matches Ok(FragmentV::Regular { children: c, .. }) && c == children)
        }),
        (f is Regular && d matches FragmentDiffV::UpdateComprehension { statics: None, .. })
            ==> merge_fragment(f, d) == Err::<FragmentV, MergeError>(MergeError::FragmentTypeMismatch),
        (f is Comprehension && d matches FragmentDiffV::UpdateRegular { statics: None, .. })
            ==> merge_fragment(f, d) == Err::<FragmentV, MergeError>(MergeError::FragmentTypeMismatch),
        (d matches FragmentDiffV::UpdateRegular { statics: Some(_), .. } || d matches FragmentDiffV::UpdateComprehension { statics: Some(_), .. })
            ==> merge_fragment(f, d) == fragment_from_diff(d),
{
    if diffs.len() == 0 {
        assert(merge_children(children, diffs) == Ok::<Seq<(Seq<char>, ChildV)>, MergeError>(children));
    }
}

/// A component whose statics refer to component `id` is resolved against
/// the component that `id` names: for a negative id, the component of the
/// previous tree keyed by the decimal text of `-id`; otherwise the one of
/// the new tree keyed by the decimal text of `id`. It takes that
/// component's statics, keeps its own `is_root` flag, and gets the source's
/// children merged into its own; when no component has that key the
/// resolution fails naming `id`. A component with statics of its own is
/// left as it is.
pub proof fn law_component_refs(children: Seq<(Seq<char>, ChildV)>, is_root: Option<i8>,
    old: Seq<(Seq<char>, ComponentV)>, new: Seq<(Seq<char>, ComponentV)>, id: i32, own: Seq<Seq<char>>)
    ensures
        ({
            let c = ComponentV { children, statics: ComponentStaticsV::ComponentRef(id), is_root };
            let src = if id < 0 { lookup(old, decimal((0 - id) as nat)) } else { lookup(new, decimal(id as nat)) };
            &&& src matches Some(k) ==> resolve_cids(c, old, new) == match merge_tree_entries(children, k.children) {
                Ok(ch) => Ok::<ComponentV, MergeError>(ComponentV { children: ch, statics: k.statics, is_root }),
                Err(e) => Err(e),
            }
            &&& src is None ==> resolve_cids(c, old, new) == Err::<ComponentV, MergeError>(MergeError::MissingComponent(id))
        }),
        ({
            let c = ComponentV { children, statics: ComponentStaticsV::Statics(own), is_root };
            resolve_cids(c, old, new) == Ok::<ComponentV, MergeError>(c)
        }),
{
}

/// Merging one keyed component update: an existing component takes an
/// update of its children, keeping its statics, or is replaced by the
/// children and statics of a replacement; a new key gets the component of a
/// replacement, while an update of a component that does not exist fails.
/// The merged component's `is_root` flag is cleared, and every other key
/// keeps its component.
pub proof fn law_component_update(cur: Seq<(Seq<char>, ComponentV)>, k: Seq<char>, d: ComponentDiffV, other: Seq<char>)
    ensures
        ({
            let m = merge_components(cur, seq![(k, d)]);
            &&& (lookup(cur, k) is None && d is UpdateRegular) ==>
                m == Err::<Seq<(Seq<char>, ComponentV)>, MergeError>(MergeError::CreateComponentFromUpdate)
            &&& d is ReplaceCurrent ==> (m is Ok && lookup(m->Ok_0, k) == Some(ComponentV {
                children: d->ReplaceCurrent_children, statics: d->ReplaceCurrent_statics, is_root: None }))
            &&& (lookup(cur, k) is Some && d is UpdateRegular) ==> ({
                let c = lookup(cur, k)->0;
                let diffs = d->UpdateRegular_children;
                &&& merge_children(c.children, diffs) matches Ok(ch) ==>
                    (m is Ok && lookup(m->Ok_0, k) == Some(ComponentV { children: ch, statics: c.statics, is_root: None }))
                &&& merge_children(c.children, diffs) matches Err(e) ==> m == Err::<Seq<(Seq<char>, ComponentV)>, MergeError>(e)
            })
            &&& (m is Ok && other != k) ==> lookup(m->Ok_0, other) == lookup(cur, other)
        }),
{
    let diffs = seq![(k, d)];
    assert(diffs.drop_last() =~= Seq::<(Seq<char>, ComponentDiffV)>::empty());
    assert(merge_components(cur, diffs.drop_last()) == Ok::<Seq<(Seq<char>, ComponentV)>, MergeError>(cur));
    lemma_find_key(cur, k);
    let m = merge_components(cur, diffs);
    if m is Ok {
        let v = match find_key(cur, k) {
            Some(i) => merge_component(cur[i].1, d)->Ok_0,
            None => component_from_diff(d)->Ok_0,
        };
        assert(m->Ok_0 == insert_entry(cur, k, v));
        lemma_insert_entry_lookup(cur, k, v, other);
    }
}

/// Merging an update into a tree merges the fragment and the components,
/// and resolves the references of the merged components against the
/// components as they were before the update (for negative ids) and the
/// merged ones (for the others); the first error met, in that order, fails
/// the merge.
pub proof fn law_root_merge(r: RootV, d: RootDiffV)
    ensures
        merge_fragment(r.fragment, d.fragment) matches Err(e) ==> merge_root(r, d) == Err::<RootV, MergeError>(e),
        (merge_fragment(r.fragment, d.fragment) is Ok && merge_components(r.components, d.components) is Err)
            ==> merge_root(r, d) == Err::<RootV, MergeError>(merge_components(r.components, d.components)->Err_0),
        (merge_fragment(r.fragment, d.fragment) is Ok && merge_components(r.components, d.components) is Ok) ==> ({
            let f = merge_fragment(r.fragment, d.fragment)->Ok_0;
            let nc = merge_components(r.components, d.components)->Ok_0;
            merge_root(r, d) == match resolve_prefix(nc, r.components, nc.len() as int) {
                Ok(c) => Ok::<RootV, MergeError>(RootV { new_render: None, fragment: f, components: c }),
                Err(e) => Err(e),
            }
        }),
{
}

/// Inserting entries in order: a key that some of them carry then holds the
/// value of the last of those, and every other key keeps its value.
proof fn lemma_insert_all_lookup<A>(c: Seq<(Seq<char>, A)>, n: Seq<(Seq<char>, A)>, k: Seq<char>, j: int)
    ensures
        (0 <= j < n.len() && n[j].0 == k && forall|l: int| j < l < n.len() ==> n[l].0 != k)
            ==> lookup(insert_all(c, n), k) == Some(n[j].1),
        (forall|l: int| 0 <= l < n.len() ==> n[l].0 != k) ==> lookup(insert_all(c, n), k) == lookup(c, k),
    decreases n.len(),
{
    if n.len() > 0 {
        let m = n.drop_last();
        lemma_insert_all_lookup(c, m, k, j);
        lemma_insert_entry_lookup(insert_all(c, m), n.last().0, n.last().1, k);
        if 0 <= j < n.len() && n[j].0 == k && forall|l: int| j < l < n.len() ==> n[l].0 != k {
            if j < n.len() - 1 {
                assert(n[n.len() - 1].0 != k);
                assert(m[j] == n[j]);
                assert forall|l: int| j < l < m.len() implies m[l].0 != k by {
                    assert(m[l] == n[l]);
                }
            }
        }
        if forall|l: int| 0 <= l < n.len() ==> n[l].0 != k {
            assert(n[n.len() - 1].0 != k);
            assert forall|l: int| 0 <= l < m.len() implies m[l].0 != k by {
                assert(m[l] == n[l]);
            }
        }
    }
}

/// Merging templates: templates on one side only are kept; when both sides
/// have templates, a key that the new ones carry takes the value of the
/// last new entry with that key, and every other key keeps its current
/// value.
pub proof fn law_templates_merge(cur: Seq<(Seq<char>, Seq<Seq<char>>)>, new: Seq<(Seq<char>, Seq<Seq<char>>)>, k: Seq<char>, j: int)
    ensures
        merge_templates(None, Some(new)) == Some(new),
        merge_templates(Some(cur), None) == Some(cur),
        merge_templates(None, None) is None,
        merge_templates(Some(cur), Some(new)) is Some,
        (0 <= j < new.len() && new[j].0 == k && forall|l: int| j < l < new.len() ==> new[l].0 != k)
            ==> lookup(merge_templates(Some(cur), Some(new))->0, k) == Some(new[j].1),
        (forall|l: int| 0 <= l < new.len() ==> new[l].0 != k)
            ==> lookup(merge_templates(Some(cur), Some(new))->0, k) == lookup(cur, k),
{
    lemma_insert_all_lookup(cur, new, k, j);
}

/// A stream built from its instructions, one more at a time: a stream id
/// names the stream and keeps its items; insertions add one item per
/// insertion, with its id, index and limit, after the items already there;
/// a reset empties the items and keeps the id; a deletion changes nothing.
/// Built from an id and then insertions, the stream has that id and exactly
/// those items, in order.
pub proof fn law_stream_from_attrs(a: Seq<StreamAttrV>, x: Seq<char>, ins: Seq<(Seq<char>, i32, Option<i32>)>, ids: Seq<Seq<char>>)
    ensures
        stream_from_attrs(a.push(StreamAttrV::StreamID(x))) == (StreamV { id: x, items: stream_from_attrs(a).items }),
        stream_from_attrs(a.push(StreamAttrV::Inserts(ins))).id == stream_from_attrs(a).id,
        stream_from_attrs(a.push(StreamAttrV::Inserts(ins))).items.len() == stream_from_attrs(a).items.len() + ins.len(),
        stream_from_attrs(a.push(StreamAttrV::Inserts(ins))).items.take(stream_from_attrs(a).items.len() as int)
            == stream_from_attrs(a).items,
        forall|i: int| 0 <= i < ins.len() ==>
            #[trigger] stream_from_attrs(a.push(StreamAttrV::Inserts(ins))).items[stream_from_attrs(a).items.len() + i]
                == (StreamItemV { id: ins[i].0, index: ins[i].1, limit: ins[i].2 }),
        stream_from_attrs(a.push(StreamAttrV::Reset(true))) == (StreamV { id: stream_from_attrs(a).id, items: Seq::empty() }),
        stream_from_attrs(a.push(StreamAttrV::Reset(false))) == stream_from_attrs(a),
        stream_from_attrs(a.push(StreamAttrV::DeleteIDs(ids))) == stream_from_attrs(a),
        stream_from_attrs(seq![StreamAttrV::StreamID(x), StreamAttrV::Inserts(ins)]).id == x,
        stream_from_attrs(seq![StreamAttrV::StreamID(x), StreamAttrV::Inserts(ins)]).items.len() == ins.len(),
        forall|i: int| #![trigger ins[i]] 0 <= i < ins.len() ==>
            stream_from_attrs(seq![StreamAttrV::StreamID(x), StreamAttrV::Inserts(ins)]).items[i]
                == (StreamItemV { id: ins[i].0, index: ins[i].1, limit: ins[i].2 }),
{
    let b = a.push(StreamAttrV::Inserts(ins));
    assert(b.drop_last() =~= a);
    assert(a.push(StreamAttrV::StreamID(x)).drop_last() =~= a);
    assert(a.push(StreamAttrV::Reset(true)).drop_last() =~= a);
    assert(a.push(StreamAttrV::Reset(false)).drop_last() =~= a);
    assert(a.push(StreamAttrV::DeleteIDs(ids)).drop_last() =~= a);
    let old_items = stream_from_attrs(a).items;
    assert(stream_from_attrs(b).items.take(old_items.len() as int) =~= old_items);
    let two = seq![StreamAttrV::StreamID(x), StreamAttrV::Inserts(ins)];
    assert(two.drop_last() =~= seq![StreamAttrV::StreamID(x)]);
    assert(two.drop_last().drop_last() =~= Seq::<StreamAttrV>::empty());
    reveal_with_fuel(stream_from_attrs, 3);
    assert(stream_from_attrs(seq![StreamAttrV::StreamID(x)]).items =~= Seq::<StreamItemV>::empty());
    assert(stream_from_attrs(two).items =~= inserts_items(ins));
}

/// Merging one child with its update: a string or a component id in the
/// update takes the child's place; a fragment update is merged into a
/// fragment child, and builds a new fragment in place of any other child.
pub proof fn law_child_merge(c: ChildV, s: StringsV, cid: i32, fd: FragmentDiffV)
    ensures
        merge_child(c, ChildDiffV::Str(s)) == Ok::<ChildV, MergeError>(ChildV::Str(s)),
        merge_child(c, ChildDiffV::ComponentID(cid)) == Ok::<ChildV, MergeError>(ChildV::ComponentID(cid)),
        c matches ChildV::Fragment(f) ==> merge_child(c, ChildDiffV::Fragment(fd)) == match merge_fragment(f, fd) {
            Ok(m) => Ok::<ChildV, MergeError>(ChildV::Fragment(m)),
            Err(e) => Err(e),
        },
        !(c is Fragment) ==> merge_child(c, ChildDiffV::Fragment(fd)) == match fragment_from_diff(fd) {
            Ok(m) => Ok::<ChildV, MergeError>(ChildV::Fragment(m)),
            Err(e) => Err(e),
        },
{
}

} // verus!

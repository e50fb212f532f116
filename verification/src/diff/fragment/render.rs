//! Rendering fragments to markup.
use vstd::prelude::*;
use super::types::{Templates, Statics, OneOrManyStrings, Child, Fragment, ComponentStatics, Component, Root, TemplatesV, ChildV, ComponentV, strings_view, templates_view, child_view, entries_view, row_view, rows_view, component_view, components_view, lemma_entries_view, lemma_row_view, lemma_rows_view};
use super::model::{find_key, lookup, merge_templates, lemma_find_key, lemma_find_key_keys, concat, render_child, render_fragment, regular_upto, template_upto, rows_concat, row_concat, rows_with_statics, row_with_statics, render_component, component_upto, cousin_upto, follow_ref, child_statics, fragment_renders, fragment_rendered, child_renders, child_rendered, component_renders, component_rendered};

use super::clone::{clone_strings, clone_templates};
use super::error::RenderError;
use super::merge::{find_entry, keys_of, merge_templates_exec};
use super::fuel::{lemma_fragment_rendered_at, lemma_child_rendered_at, lemma_component_rendered_at};
use super::unfold::{lemma_row_concat_unfold, lemma_render_regular_unfold, lemma_render_comprehension_unfold, lemma_template_upto_unfold, lemma_template_upto_first, lemma_component_upto_unfold, lemma_component_upto_first, lemma_cousin_upto_unfold, lemma_cousin_upto_first};
use crate::text::{decimal, int_text, i32_text, usize_text};

verus! {

/// The view of an optional list of strings.
pub open spec fn opt_strings_view(o: Option<Vec<String>>) -> Option<Seq<Seq<char>>> {
    match o {
        Some(v) => Some(strings_view(v@)),
        None => None,
    }
}

/// The view of a rendering result.
pub open spec fn str_result_view(r: Result<String, RenderError>) -> Result<Seq<char>, RenderError> {
    match r {
        Ok(s) => Ok(s@),
        Err(e) => Err(e),
    }
}

/// Rendering the statics of a regular fragment completes for a prefix when it completes for the whole,
/// and an error in a prefix is the error of the whole.
proof fn lemma_regular_upto_prefix(fuel: nat, st: Seq<Seq<char>>, children: Seq<(Seq<char>, ChildV)>, comps: Seq<(Seq<char>, ComponentV)>, cousin: Option<Seq<Seq<char>>>, parent: TemplatesV, k: int, m: int)
    requires
        1 <= k <= m,
    ensures
        regular_upto(fuel, st, children, comps, cousin, parent, m) is Some ==> regular_upto(fuel, st, children, comps, cousin, parent, k) is Some,
        regular_upto(fuel, st, children, comps, cousin, parent, k) matches Some(Err(_)) ==> regular_upto(fuel, st, children, comps, cousin, parent, m) == regular_upto(fuel, st, children, comps, cousin, parent, k),
    decreases m - k,
{
    if k < m {
        lemma_regular_upto_prefix(fuel, st, children, comps, cousin, parent, k + 1, m);
        reveal(regular_upto);
    }
}

/// Rendering the parts of a template completes for a prefix when it completes for the whole,
/// and an error in a prefix is the error of the whole.
proof fn lemma_template_upto_prefix(fuel: nat, tmpl: Seq<Seq<char>>, children: Seq<(Seq<char>, ChildV)>, comps: Seq<(Seq<char>, ComponentV)>, cousin: Option<Seq<Seq<char>>>, t: Seq<(Seq<char>, Seq<Seq<char>>)>, k: int, m: int)
    requires
        1 <= k <= m,
    ensures
        template_upto(fuel, tmpl, children, comps, cousin, t, m) is Some ==> template_upto(fuel, tmpl, children, comps, cousin, t, k) is Some,
        template_upto(fuel, tmpl, children, comps, cousin, t, k) matches Some(Err(_)) ==> template_upto(fuel, tmpl, children, comps, cousin, t, m) == template_upto(fuel, tmpl, children, comps, cousin, t, k),
    decreases m - k,
{
    if k < m {
        lemma_template_upto_prefix(fuel, tmpl, children, comps, cousin, t, k + 1, m);
        reveal(template_upto);
    }
}

/// Rendering rows of dynamics completes for a prefix when it completes for the whole,
/// and an error in a prefix is the error of the whole.
proof fn lemma_rows_concat_prefix(fuel: nat, rows: Seq<Seq<ChildV>>, comps: Seq<(Seq<char>, ComponentV)>, t: TemplatesV, k: int, m: int)
    requires
        0 <= k <= m,
    ensures
        rows_concat(fuel, rows, comps, t, m) is Some ==> rows_concat(fuel, rows, comps, t, k) is Some,
        rows_concat(fuel, rows, comps, t, k) matches Some(Err(_)) ==> rows_concat(fuel, rows, comps, t, m) == rows_concat(fuel, rows, comps, t, k),
    decreases m - k,
{
    if k < m {
        lemma_rows_concat_prefix(fuel, rows, comps, t, k + 1, m);
        reveal(rows_concat);
    }
}

/// Rendering the children of a row completes for a prefix when it completes for the whole,
/// and an error in a prefix is the error of the whole.
proof fn lemma_row_concat_prefix(fuel: nat, row: Seq<ChildV>, comps: Seq<(Seq<char>, ComponentV)>, t: TemplatesV, k: int, m: int)
    requires
        0 <= k <= m,
    ensures
        row_concat(fuel, row, comps, t, m) is Some ==> row_concat(fuel, row, comps, t, k) is Some,
        row_concat(fuel, row, comps, t, k) matches Some(Err(_)) ==> row_concat(fuel, row, comps, t, m) == row_concat(fuel, row, comps, t, k),
    decreases m - k,
{
    if k < m {
        lemma_row_concat_prefix(fuel, row, comps, t, k + 1, m);
        reveal(row_concat);
    }
}

/// Rendering rows rendered through statics completes for a prefix when it completes for the whole,
/// and an error in a prefix is the error of the whole.
proof fn lemma_rows_with_statics_prefix(fuel: nat, st: Seq<Seq<char>>, rows: Seq<Seq<ChildV>>, comps: Seq<(Seq<char>, ComponentV)>, t: TemplatesV, k: int, m: int)
    requires
        0 <= k <= m,
    ensures
        rows_with_statics(fuel, st, rows, comps, t, m) is Some ==> rows_with_statics(fuel, st, rows, comps, t, k) is Some,
        rows_with_statics(fuel, st, rows, comps, t, k) matches Some(Err(_)) ==> rows_with_statics(fuel, st, rows, comps, t, m) == rows_with_statics(fuel, st, rows, comps, t, k),
    decreases m - k,
{
    if k < m {
        lemma_rows_with_statics_prefix(fuel, st, rows, comps, t, k + 1, m);
        reveal(rows_with_statics);
    }
}

/// Rendering a row rendered through statics completes for a prefix when it completes for the whole,
/// and an error in a prefix is the error of the whole.
proof fn lemma_row_with_statics_prefix(fuel: nat, st: Seq<Seq<char>>, row: Seq<ChildV>, comps: Seq<(Seq<char>, ComponentV)>, t: TemplatesV, k: int, m: int)
    requires
        1 <= k <= m,
    ensures
        row_with_statics(fuel, st, row, comps, t, m) is Some ==> row_with_statics(fuel, st, row, comps, t, k) is Some,
        row_with_statics(fuel, st, row, comps, t, k) matches Some(Err(_)) ==> row_with_statics(fuel, st, row, comps, t, m) == row_with_statics(fuel, st, row, comps, t, k),
    decreases m - k,
{
    if k < m {
        lemma_row_with_statics_prefix(fuel, st, row, comps, t, k + 1, m);
        reveal(row_with_statics);
    }
}

/// Rendering the statics of a component completes for a prefix when it completes for the whole,
/// and an error in a prefix is the error of the whole.
proof fn lemma_component_upto_prefix(fuel: nat, st: Seq<Seq<char>>, children: Seq<(Seq<char>, ChildV)>, comps: Seq<(Seq<char>, ComponentV)>, k: int, m: int)
    requires
        1 <= k <= m,
    ensures
        component_upto(fuel, st, children, comps, m) is Some ==> component_upto(fuel, st, children, comps, k) is Some,
        component_upto(fuel, st, children, comps, k) matches Some(Err(_)) ==> component_upto(fuel, st, children, comps, m) == component_upto(fuel, st, children, comps, k),
    decreases m - k,
{
    if k < m {
        lemma_component_upto_prefix(fuel, st, children, comps, k + 1, m);
        reveal(component_upto);
    }
}

/// Rendering the statics a component reference leads to completes for a prefix when it completes for the whole,
/// and an error in a prefix is the error of the whole.
proof fn lemma_cousin_upto_prefix(fuel: nat, outer: Seq<Seq<char>>, children: Seq<(Seq<char>, ChildV)>, cousins: Seq<(Seq<char>, ChildV)>, comps: Seq<(Seq<char>, ComponentV)>, k: int, m: int)
    requires
        1 <= k <= m,
    ensures
        cousin_upto(fuel, outer, children, cousins, comps, m) is Some ==> cousin_upto(fuel, outer, children, cousins, comps, k) is Some,
        cousin_upto(fuel, outer, children, cousins, comps, k) matches Some(Err(_)) ==> cousin_upto(fuel, outer, children, cousins, comps, m) == cousin_upto(fuel, outer, children, cousins, comps, k),
    decreases m - k,
{
    if k < m {
        lemma_cousin_upto_prefix(fuel, outer, children, cousins, comps, k + 1, m);
        reveal(cousin_upto);
    }
}

/// Keys of children and of their views agree.
proof fn lemma_child_keys(s: Seq<(String, Child)>, k: Seq<char>)
    ensures
        find_key(keys_of(s), k) matches Some(p) ==> 0 <= p < s.len(),
        find_key(keys_of(s), k) == find_key(entries_view(s), k),
        lookup(entries_view(s), k) == match find_key(keys_of(s), k) {
            Some(i) => Some(child_view(s[i].1)),
            None => None,
        },
{
    lemma_entries_view(s);
    assert forall|i: int| 0 <= i < s.len() implies #[trigger] keys_of(s)[i].0 == entries_view(s)[i].0 by {}
    lemma_find_key_keys(keys_of(s), entries_view(s), k);
    lemma_find_key(keys_of(s), k);
}

/// Keys of components and of their views agree.
pub(crate) proof fn lemma_component_keys(s: Seq<(String, Component)>, k: Seq<char>)
    ensures
        find_key(keys_of(s), k) matches Some(p) ==> 0 <= p < s.len(),
        lookup(components_view(s), k) == match find_key(keys_of(s), k) {
            Some(i) => Some(component_view(s[i].1)),
            None => None,
        },
{
    assert forall|i: int| 0 <= i < s.len() implies #[trigger] keys_of(s)[i].0 == components_view(s)[i].0 by {}
    lemma_find_key_keys(keys_of(s), components_view(s), k);
    lemma_find_key(keys_of(s), k);
}

/// Keys of templates and of their views agree.
proof fn lemma_template_keys(s: Seq<(String, Vec<String>)>, k: Seq<char>)
    ensures
        find_key(keys_of(s), k) matches Some(p) ==> 0 <= p < s.len(),
        lookup(s.map_values(|e: (String, Vec<String>)| (e.0@, strings_view(e.1@))), k) == match find_key(keys_of(s), k) {
            Some(i) => Some(strings_view(s[i].1@)),
            None => None,
        },
{
    let v = s.map_values(|e: (String, Vec<String>)| (e.0@, strings_view(e.1@)));
    assert forall|i: int| 0 <= i < s.len() implies #[trigger] keys_of(s)[i].0 == v[i].0 by {}
    lemma_find_key_keys(keys_of(s), v, k);
    lemma_find_key(keys_of(s), k);
}

/// The concatenation of strings.
#[verifier::spinoff_prover]
fn concat_exec(v: &Vec<String>) -> (r: String)
    ensures
        r@ == concat(strings_view(v@)),
{
    let mut out = String::new();
    let mut i: usize = 0;
    while i < v.len()
        invariant
            i <= v.len(),
            out@ == concat(strings_view(v@).take(i as int)),
        decreases v.len() - i,
    {
        out.append(v[i].as_str());
        proof {
            let s = strings_view(v@);
            assert(s.take(i + 1).drop_last() =~= s.take(i as int));
        }
        i = i + 1;
    }
    assert(strings_view(v@).take(v.len() as int) =~= strings_view(v@));
    out
}

/// The view of a rendering that may run out of depth.
pub open spec fn opt_result_view(r: Option<Result<String, RenderError>>) -> Option<Result<Seq<char>, RenderError>> {
    match r {
        Some(x) => Some(str_result_view(x)),
        None => None,
    }
}

/// Renders a node, at most `fuel` levels deep.
#[verifier::spinoff_prover]
fn render_child_exec(c: &Child, comps: &Vec<(String, Component)>, cousin: &Option<Vec<String>>, t: &Templates, fuel: u64)
    -> (r: Option<Result<String, RenderError>>)
    ensures
        render_child(fuel as nat, c@, components_view(comps@), opt_strings_view(*cousin), templates_view(*t)) == opt_result_view(r),
    decreases fuel, 0nat, 0nat,
{
    proof { reveal(render_child); }
    if fuel == 0 {
        return None;
    }
    match c {
        Child::Fragment(f) => render_fragment_exec(f, comps, cousin, t, fuel - 1),
        Child::ComponentID(cid) => {
            let key = i32_text(*cid);
            proof { lemma_component_keys(comps@, key@); }
            match find_entry(comps, &key) {
                Some(i) => render_component_exec(&comps[i].1, comps, fuel - 1),
                None => Some(Err(RenderError::ComponentNotFound(*cid))),
            }
        },
        Child::String(OneOrManyStrings::One(s)) => Some(Ok(s.clone())),
        Child::String(OneOrManyStrings::Many(v)) => Some(Ok(concat_exec(v))),
    }
}

/// Renders a fragment, at most `fuel` levels deep.
#[verifier::spinoff_prover]
fn render_fragment_exec(f: &Fragment, comps: &Vec<(String, Component)>, cousin: &Option<Vec<String>>, parent: &Templates, fuel: u64)
    -> (r: Option<Result<String, RenderError>>)
    ensures
        render_fragment(fuel as nat, f@, components_view(comps@), opt_strings_view(*cousin), templates_view(*parent)) == opt_result_view(r),
    decreases fuel, 0nat, 1nat,
{
    if fuel == 0 {
        proof { reveal(render_fragment); }
        return None;
    }
    match f {
        Fragment::Regular { .. } => render_regular_exec(f, comps, cousin, parent, fuel),
        Fragment::Comprehension { .. } => render_comprehension_exec(f, comps, cousin, parent, fuel),
    }
}

/// Renders a regular fragment, at most `fuel` levels deep.
#[verifier::spinoff_prover]
#[verifier::rlimit(50)]
fn render_regular_exec(f: &Fragment, comps: &Vec<(String, Component)>, cousin: &Option<Vec<String>>, parent: &Templates, fuel: u64)
    -> (r: Option<Result<String, RenderError>>)
    requires
        fuel > 0,
        f is Regular,
    ensures
        render_fragment(fuel as nat, f@, components_view(comps@), opt_strings_view(*cousin), templates_view(*parent)) == opt_result_view(r),
    decreases fuel, 0nat, 0nat,
{
    proof { lemma_render_regular_unfold(fuel as nat, f@, components_view(comps@), opt_strings_view(*cousin), templates_view(*parent)); }
    match f {
        Fragment::Regular { children, statics, .. } => match statics {
            None => Some(Ok(String::new())),
            Some(Statics::String(_)) => Some(Ok(String::new())),
            Some(Statics::Statics(st)) => if st.len() == 0 {
                None
            } else {
                regular_exec(st, children, comps, cousin, parent, fuel - 1)
            },
            Some(Statics::TemplateRef(tid)) => match parent {
                None => Some(Err(RenderError::NoTemplates)),
                Some(t) => {
                    let key = i32_text(*tid);
                    proof { lemma_template_keys(t@, key@); }
                    match find_entry(t, &key) {
                        None => Some(Err(RenderError::TemplateNotFound(*tid))),
                        Some(i) => if t[i].1.len() == 0 {
                            None
                        } else {
                            template_exec(&t[i].1, children, comps, cousin, parent, fuel - 1)
                        },
                    }
                },
            },
        },
        Fragment::Comprehension { .. } => {
            assert(false);
            None
        },
    }
}

/// Renders a comprehension, at most `fuel` levels deep.
#[verifier::spinoff_prover]
fn render_comprehension_exec(f: &Fragment, comps: &Vec<(String, Component)>, cousin: &Option<Vec<String>>, parent: &Templates, fuel: u64)
    -> (r: Option<Result<String, RenderError>>)
    requires
        fuel > 0,
        f is Comprehension,
    ensures
        render_fragment(fuel as nat, f@, components_view(comps@), opt_strings_view(*cousin), templates_view(*parent)) == opt_result_view(r),
    decreases fuel, 0nat, 0nat,
{
    proof { lemma_render_comprehension_unfold(fuel as nat, f@, components_view(comps@), opt_strings_view(*cousin), templates_view(*parent)); }
    match f {
        Fragment::Comprehension { dynamics, statics, templates, .. } => {
            let t = merge_templates_exec(clone_templates(parent), clone_templates(templates));
            proof { lemma_rows_view(dynamics@); }
            match (statics, cousin) {
                (None, None) => rows_concat_exec(dynamics, comps, &t, fuel - 1),
                (None, Some(st)) => rows_with_statics_exec(st, dynamics, comps, &t, fuel - 1),
                (Some(Statics::String(_)), None) => Some(Ok(String::new())),
                (Some(Statics::Statics(st)), None) => rows_with_statics_exec(st, dynamics, comps, &t, fuel - 1),
                (Some(Statics::TemplateRef(tid)), None) => match &t {
                    None => Some(Err(RenderError::NoTemplates)),
                    Some(tt) => {
                        let key = i32_text(*tid);
                        proof { lemma_template_keys(tt@, key@); }
                        match find_entry(tt, &key) {
                            None => Some(Err(RenderError::TemplateNotFound(*tid))),
                            Some(i) => rows_with_statics_exec(&tt[i].1, dynamics, comps, &t, fuel - 1),
                        }
                    },
                },
                (Some(_), Some(_)) => None,
            }
        },
        Fragment::Regular { .. } => {
            assert(false);
            None
        },
    }
}

/// The statics of a regular fragment, each after the rendered child at the
/// previous index when there is one.
#[verifier::spinoff_prover]
#[verifier::rlimit(50)]
fn regular_exec(st: &Vec<String>, children: &Vec<(String, Child)>, comps: &Vec<(String, Component)>,
    cousin: &Option<Vec<String>>, parent: &Templates, fuel: u64) -> (r: Option<Result<String, RenderError>>)
    requires
        st.len() > 0,
    ensures
        regular_upto(fuel as nat, strings_view(st@), entries_view(children@), components_view(comps@), opt_strings_view(*cousin),
            templates_view(*parent), st.len() as int) == opt_result_view(r),
    decreases fuel, st@.len(), 0nat,
{
    proof { reveal(regular_upto); }
    let ghost g = fuel as nat;
    let ghost sv = strings_view(st@);
    let ghost cv = entries_view(children@);
    let ghost mv = components_view(comps@);
    let ghost ov = opt_strings_view(*cousin);
    let ghost pv = templates_view(*parent);
    let ghost n = st.len() as int;
    let mut out = st[0].clone();
    let mut i: usize = 1;
    while i < st.len()
        invariant
            1 <= i <= st.len(),
            n == st.len(),
            g == fuel as nat,
            sv == strings_view(st@),
            cv == entries_view(children@),
            mv == components_view(comps@),
            ov == opt_strings_view(*cousin),
            pv == templates_view(*parent),
            regular_upto(g, sv, cv, mv, ov, pv, i as int) == Some(Ok::<Seq<char>, RenderError>(out@)),
        decreases st.len() - i,
    {
        let key = usize_text(i - 1);
        proof {
            lemma_child_keys(children@, key@);
            lemma_regular_upto_prefix(g, sv, cv, mv, ov, pv, i + 1, n);
            reveal(regular_upto);
        }
        match find_entry(children, &key) {
            None => {
                out.append(st[i].as_str());
            },
            Some(idx) => {
                match render_child_exec(&children[idx].1, comps, cousin, parent, fuel) {
                    Some(Ok(v)) => {
                        out.append(v.as_str());
                        out.append(st[i].as_str());
                    },
                    Some(Err(e)) => {
                        return Some(Err(e));
                    },
                    None => {
                        return None;
                    },
                }
            },
        }
        i = i + 1;
    }
    Some(Ok(out))
}

/// The parts of a template, each after the rendered child at the previous
/// index, which must exist.
#[verifier::spinoff_prover]
fn template_exec(tmpl: &Vec<String>, children: &Vec<(String, Child)>, comps: &Vec<(String, Component)>,
    cousin: &Option<Vec<String>>, parent: &Templates, fuel: u64) -> (r: Option<Result<String, RenderError>>)
    requires
        tmpl.len() > 0,
        parent is Some,
    ensures
        template_upto(fuel as nat, strings_view(tmpl@), entries_view(children@), components_view(comps@), opt_strings_view(*cousin),
            templates_view(*parent).unwrap(), tmpl.len() as int) == opt_result_view(r),
    decreases fuel, tmpl@.len(), 0nat,
{
    let ghost g = fuel as nat;
    let ghost sv = strings_view(tmpl@);
    let ghost cv = entries_view(children@);
    let ghost mv = components_view(comps@);
    let ghost ov = opt_strings_view(*cousin);
    let ghost tv = templates_view(*parent).unwrap();
    proof { lemma_template_upto_first(g, sv, cv, mv, ov, tv); }
    let ghost n = tmpl.len() as int;
    let mut out = tmpl[0].clone();
    let mut i: usize = 1;
    while i < tmpl.len()
        invariant
            1 <= i <= tmpl.len(),
            n == tmpl.len(),
            g == fuel as nat,
            parent is Some,
            sv == strings_view(tmpl@),
            cv == entries_view(children@),
            mv == components_view(comps@),
            ov == opt_strings_view(*cousin),
            tv == templates_view(*parent).unwrap(),
            template_upto(g, sv, cv, mv, ov, tv, i as int) == Some(Ok::<Seq<char>, RenderError>(out@)),
        decreases tmpl.len() - i,
    {
        let key = usize_text(i - 1);
        proof {
            lemma_child_keys(children@, key@);
            lemma_template_upto_prefix(g, sv, cv, mv, ov, tv, i + 1, n);
            lemma_template_upto_unfold(g, sv, cv, mv, ov, tv, i + 1);
        }
        match find_entry(children, &key) {
            None => {
                return Some(Err(RenderError::ChildNotFoundForTemplate((i - 1) as i32)));
            },
            Some(idx) => {
                match render_child_exec(&children[idx].1, comps, cousin, parent, fuel) {
                    Some(Ok(v)) => {
                        out.append(v.as_str());
                        out.append(tmpl[i].as_str());
                    },
                    Some(Err(e)) => {
                        return Some(Err(e));
                    },
                    None => {
                        return None;
                    },
                }
            },
        }
        i = i + 1;
    }
    Some(Ok(out))
}

/// Rows of dynamics, each the concatenation of its rendered children.
#[verifier::spinoff_prover]
fn rows_concat_exec(rows: &Vec<Vec<Child>>, comps: &Vec<(String, Component)>, t: &Templates, fuel: u64)
    -> (r: Option<Result<String, RenderError>>)
    ensures
        rows_concat(fuel as nat, rows_view(rows@), components_view(comps@), templates_view(*t), rows.len() as int) == opt_result_view(r),
    decreases fuel, rows@.len(), 0nat,
{
    proof { reveal(rows_concat); }
    let ghost g = fuel as nat;
    let ghost rv = rows_view(rows@);
    let ghost mv = components_view(comps@);
    let ghost tv = templates_view(*t);
    let ghost n = rows.len() as int;
    proof { lemma_rows_view(rows@); }
    let mut out = String::new();
    let mut i: usize = 0;
    while i < rows.len()
        invariant
            i <= rows.len(),
            n == rows.len(),
            g == fuel as nat,
            rv == rows_view(rows@),
            rv.len() == rows.len(),
            forall|k: int| 0 <= k < rows.len() ==> #[trigger] rv[k] == row_view(rows@[k]@),
            mv == components_view(comps@),
            tv == templates_view(*t),
            rows_concat(g, rv, mv, tv, i as int) == Some(Ok::<Seq<char>, RenderError>(out@)),
        decreases rows.len() - i,
    {
        proof {
            lemma_rows_concat_prefix(g, rv, mv, tv, i + 1, n);
            reveal(rows_concat);
            lemma_row_view(rows@[i as int]@);
            assert(rv[i as int] == row_view(rows@[i as int]@));
        }
        match row_concat_exec(&rows[i], comps, t, fuel) {
            Some(Ok(v)) => {
                out.append(v.as_str());
            },
            Some(Err(e)) => {
                return Some(Err(e));
            },
            None => {
                return None;
            },
        }
        i = i + 1;
    }
    Some(Ok(out))
}

/// The children of a row, rendered and concatenated.
#[verifier::spinoff_prover]
fn row_concat_exec(row: &Vec<Child>, comps: &Vec<(String, Component)>, t: &Templates, fuel: u64)
    -> (r: Option<Result<String, RenderError>>)
    ensures
        row_concat(fuel as nat, row_view(row@), components_view(comps@), templates_view(*t), row.len() as int) == opt_result_view(r),
    decreases fuel, 0nat, row@.len(),
{
    proof { reveal(row_concat); }
    let ghost g = fuel as nat;
    let ghost cv = row_view(row@);
    let ghost mv = components_view(comps@);
    let ghost tv = templates_view(*t);
    let ghost n = row.len() as int;
    proof { lemma_row_view(row@); }
    let none: Option<Vec<String>> = None;
    let mut out = String::new();
    let mut i: usize = 0;
    while i < row.len()
        invariant
            i <= row.len(),
            n == row.len(),
            g == fuel as nat,
            cv == row_view(row@),
            forall|k: int| 0 <= k < row.len() ==> #[trigger] cv[k] == row@[k]@,
            mv == components_view(comps@),
            tv == templates_view(*t),
            none is None,
            row_concat(g, cv, mv, tv, i as int) == Some(Ok::<Seq<char>, RenderError>(out@)),
        decreases row.len() - i,
    {
        proof {
            lemma_row_concat_prefix(g, cv, mv, tv, i + 1, n);
            lemma_row_concat_unfold(g, cv, mv, tv, i + 1);
        }
        match render_child_exec(&row[i], comps, &none, t, fuel) {
            Some(Ok(v)) => {
                out.append(v.as_str());
            },
            Some(Err(e)) => {
                return Some(Err(e));
            },
            None => {
                return None;
            },
        }
        i = i + 1;
    }
    Some(Ok(out))
}

/// Rows of dynamics, each rendered through the statics `st`.
#[verifier::spinoff_prover]
fn rows_with_statics_exec(st: &Vec<String>, rows: &Vec<Vec<Child>>, comps: &Vec<(String, Component)>, t: &Templates,
    fuel: u64) -> (r: Option<Result<String, RenderError>>)
    ensures
        rows_with_statics(fuel as nat, strings_view(st@), rows_view(rows@), components_view(comps@), templates_view(*t), rows.len() as int)
            == opt_result_view(r),
    decreases fuel, rows@.len(), 0nat,
{
    proof { reveal(rows_with_statics); }
    let ghost g = fuel as nat;
    let ghost sv = strings_view(st@);
    let ghost rv = rows_view(rows@);
    let ghost mv = components_view(comps@);
    let ghost tv = templates_view(*t);
    let ghost n = rows.len() as int;
    proof { lemma_rows_view(rows@); }
    let mut out = String::new();
    let mut i: usize = 0;
    while i < rows.len()
        invariant
            i <= rows.len(),
            n == rows.len(),
            g == fuel as nat,
            sv == strings_view(st@),
            rv == rows_view(rows@),
            rv.len() == rows.len(),
            forall|k: int| 0 <= k < rows.len() ==> #[trigger] rv[k] == row_view(rows@[k]@),
            mv == components_view(comps@),
            tv == templates_view(*t),
            rows_with_statics(g, sv, rv, mv, tv, i as int) == Some(Ok::<Seq<char>, RenderError>(out@)),
        decreases rows.len() - i,
    {
        proof {
            lemma_rows_with_statics_prefix(g, sv, rv, mv, tv, i + 1, n);
            reveal(rows_with_statics);
            assert(rv[i as int] == row_view(rows@[i as int]@));
        }
        match row_with_statics_exec(st, &rows[i], comps, t, fuel) {
            Some(Ok(v)) => {
                out.append(v.as_str());
            },
            Some(Err(e)) => {
                return Some(Err(e));
            },
            None => {
                return None;
            },
        }
        i = i + 1;
    }
    Some(Ok(out))
}

/// One row rendered through the statics `st`: each static after the row's
/// child at the previous index.
#[verifier::spinoff_prover]
fn row_with_statics_exec(st: &Vec<String>, row: &Vec<Child>, comps: &Vec<(String, Component)>, t: &Templates,
    fuel: u64) -> (r: Option<Result<String, RenderError>>)
    ensures
        row_with_statics(fuel as nat, strings_view(st@), row_view(row@), components_view(comps@), templates_view(*t), st.len() as int)
            == opt_result_view(r),
    decreases fuel, 0nat, st@.len(),
{
    proof { reveal(row_with_statics); }
    let ghost g = fuel as nat;
    let ghost sv = strings_view(st@);
    let ghost cv = row_view(row@);
    let ghost mv = components_view(comps@);
    let ghost tv = templates_view(*t);
    let ghost n = st.len() as int;
    proof { lemma_row_view(row@); }
    if st.len() == 0 {
        return None;
    }
    let none: Option<Vec<String>> = None;
    let mut out = st[0].clone();
    let mut i: usize = 1;
    while i < st.len()
        invariant
            1 <= i <= st.len(),
            n == st.len(),
            g == fuel as nat,
            sv == strings_view(st@),
            cv == row_view(row@),
            cv.len() == row.len(),
            forall|k: int| 0 <= k < row.len() ==> #[trigger] cv[k] == row@[k]@,
            mv == components_view(comps@),
            tv == templates_view(*t),
            none is None,
            row_with_statics(g, sv, cv, mv, tv, i as int) == Some(Ok::<Seq<char>, RenderError>(out@)),
        decreases st.len() - i,
    {
        proof {
            lemma_row_with_statics_prefix(g, sv, cv, mv, tv, i + 1, n);
            reveal(row_with_statics);
        }
        if i - 1 >= row.len() {
            return None;
        }
        match render_child_exec(&row[i - 1], comps, &none, t, fuel) {
            Some(Ok(v)) => {
                out.append(v.as_str());
                out.append(st[i].as_str());
            },
            Some(Err(e)) => {
                return Some(Err(e));
            },
            None => {
                return None;
            },
        }
        i = i + 1;
    }
    Some(Ok(out))
}

/// The statics and children of the component that `cid` names, following
/// at most `fuel` references from component to component.
#[verifier::spinoff_prover]
#[verifier::rlimit(50)]
fn follow_ref_exec<'a>(comps: &'a Vec<(String, Component)>, cid: i32, fuel: u64)
    -> (r: Option<Result<(&'a Vec<String>, &'a Vec<(String, Child)>), RenderError>>)
    ensures
        match r {
            None => follow_ref(fuel as nat, components_view(comps@), cid) is None,
            Some(Ok((s, ch))) => follow_ref(fuel as nat, components_view(comps@), cid) == Some(
                Ok::<(Seq<Seq<char>>, Seq<(Seq<char>, ChildV)>), RenderError>((strings_view(s@), entries_view(ch@)))),
            Some(Err(e)) => follow_ref(fuel as nat, components_view(comps@), cid) == Some(
                Err::<(Seq<Seq<char>>, Seq<(Seq<char>, ChildV)>), RenderError>(e)),
        },
    decreases fuel,
{
    proof { reveal(follow_ref); }
    if fuel == 0 {
        return None;
    }
    let key = i32_text(cid);
    proof { lemma_component_keys(comps@, key@); }
    match find_entry(comps, &key) {
        None => Some(Err(RenderError::ComponentNotFound(cid))),
        Some(i) => match &comps[i].1.statics {
            ComponentStatics::Statics(s) => Some(Ok((s, &comps[i].1.children))),
            ComponentStatics::ComponentRef(b) => follow_ref_exec(comps, *b, fuel - 1),
        },
    }
}

/// Renders a component, at most `fuel` levels deep.
#[verifier::spinoff_prover]
fn render_component_exec(c: &Component, comps: &Vec<(String, Component)>, fuel: u64)
    -> (r: Option<Result<String, RenderError>>)
    ensures
        render_component(fuel as nat, c@, components_view(comps@)) == opt_result_view(r),
    decreases fuel, 0nat, 0nat,
{
    proof { reveal(render_component); }
    if fuel == 0 {
        return None;
    }
    match &c.statics {
        ComponentStatics::Statics(st) => if st.len() == 0 {
            None
        } else {
            component_upto_exec(st, &c.children, comps, fuel - 1)
        },
        ComponentStatics::ComponentRef(cid) => match follow_ref_exec(comps, *cid, fuel - 1) {
            None => None,
            Some(Err(e)) => Some(Err(e)),
            Some(Ok((outer, cousins))) => if outer.len() == 0 {
                None
            } else {
                cousin_upto_exec(outer, &c.children, cousins, comps, fuel - 1)
            },
        },
    }
}

/// The statics of a component, each after the rendered child at the
/// previous index, which must exist.
#[verifier::spinoff_prover]
fn component_upto_exec(st: &Vec<String>, children: &Vec<(String, Child)>, comps: &Vec<(String, Component)>, fuel: u64)
    -> (r: Option<Result<String, RenderError>>)
    requires
        st.len() > 0,
    ensures
        component_upto(fuel as nat, strings_view(st@), entries_view(children@), components_view(comps@), st.len() as int)
            == opt_result_view(r),
    decreases fuel, st@.len(), 0nat,
{
    let ghost g = fuel as nat;
    let ghost sv = strings_view(st@);
    let ghost cv = entries_view(children@);
    let ghost mv = components_view(comps@);
    proof { lemma_component_upto_first(g, sv, cv, mv); }
    let ghost n = st.len() as int;
    let none: Option<Vec<String>> = None;
    let no_templates: Templates = None;
    let mut out = st[0].clone();
    let mut i: usize = 1;
    while i < st.len()
        invariant
            1 <= i <= st.len(),
            n == st.len(),
            g == fuel as nat,
            sv == strings_view(st@),
            cv == entries_view(children@),
            mv == components_view(comps@),
            none is None,
            no_templates is None,
            component_upto(g, sv, cv, mv, i as int) == Some(Ok::<Seq<char>, RenderError>(out@)),
        decreases st.len() - i,
    {
        let key = usize_text(i - 1);
        proof {
            lemma_child_keys(children@, key@);
            lemma_component_upto_prefix(g, sv, cv, mv, i + 1, n);
            lemma_component_upto_unfold(g, sv, cv, mv, i + 1);
        }
        match find_entry(children, &key) {
            None => {
                return Some(Err(RenderError::ChildNotFoundForStatic((i - 1) as i32)));
            },
            Some(idx) => {
                match render_child_exec(&children[idx].1, comps, &none, &no_templates, fuel) {
                    Some(Ok(v)) => {
                        out.append(v.as_str());
                        out.append(st[i].as_str());
                    },
                    Some(Err(e)) => {
                        return Some(Err(e));
                    },
                    None => {
                        return None;
                    },
                }
            },
        }
        i = i + 1;
    }
    Some(Ok(out))
}

/// The statics of the component that a reference leads to, each after the
/// rendered child at the previous index, rendered with the statics of that
/// component's child at the same index.
#[verifier::spinoff_prover]
#[verifier::rlimit(50)]
fn cousin_upto_exec(outer: &Vec<String>, children: &Vec<(String, Child)>, cousins: &Vec<(String, Child)>,
    comps: &Vec<(String, Component)>, fuel: u64) -> (r: Option<Result<String, RenderError>>)
    requires
        outer.len() > 0,
    ensures
        cousin_upto(fuel as nat, strings_view(outer@), entries_view(children@), entries_view(cousins@), components_view(comps@),
            outer.len() as int) == opt_result_view(r),
    decreases fuel, outer@.len(), 0nat,
{
    let ghost g = fuel as nat;
    let ghost sv = strings_view(outer@);
    let ghost cv = entries_view(children@);
    let ghost kv = entries_view(cousins@);
    let ghost mv = components_view(comps@);
    proof { lemma_cousin_upto_first(g, sv, cv, kv, mv); }
    let ghost n = outer.len() as int;
    let no_templates: Templates = None;
    let mut out = outer[0].clone();
    let mut i: usize = 1;
    while i < outer.len()
        invariant
            1 <= i <= outer.len(),
            n == outer.len(),
            g == fuel as nat,
            sv == strings_view(outer@),
            cv == entries_view(children@),
            kv == entries_view(cousins@),
            mv == components_view(comps@),
            no_templates is None,
            cousin_upto(g, sv, cv, kv, mv, i as int) == Some(Ok::<Seq<char>, RenderError>(out@)),
        decreases outer.len() - i,
    {
        let key = usize_text(i - 1);
        proof {
            lemma_child_keys(children@, key@);
            lemma_child_keys(cousins@, key@);
            lemma_cousin_upto_prefix(g, sv, cv, kv, mv, i + 1, n);
            lemma_cousin_upto_unfold(g, sv, cv, kv, mv, i + 1);
        }
        match find_entry(children, &key) {
            None => {
                return Some(Err(RenderError::ChildNotFoundForStatic((i - 1) as i32)));
            },
            Some(idx) => match find_entry(cousins, &key) {
                None => {
                    return Some(Err(RenderError::CousinNotFound((i - 1) as i32)));
                },
                Some(cidx) => {
                    let cs = cousins[cidx].1.statics();
                    assert(opt_strings_view(cs) == child_statics(cousins@[cidx as int].1@));
                    match render_child_exec(&children[idx].1, comps, &cs, &no_templates, fuel) {
                        Some(Ok(v)) => {
                            out.append(v.as_str());
                            out.append(outer[i].as_str());
                        },
                        Some(Err(e)) => {
                            return Some(Err(e));
                        },
                        None => {
                            return None;
                        },
                    }
                },
            },
        }
        i = i + 1;
    }
    Some(Ok(out))
}

impl Fragment {
    /// Renders the fragment to markup, given the statics of a sibling and the
    /// templates of its parents.
    pub fn render(&self, components: &Vec<(String, Component)>, cousin_statics: Option<Vec<String>>, parent_templates: Templates)
        -> (r: Result<String, RenderError>)
        requires
            render_fragment(u64::MAX as nat, self@, components_view(components@), opt_strings_view(cousin_statics),
                templates_view(parent_templates)) is Some,
        ensures
            fragment_renders(self@, components_view(components@), opt_strings_view(cousin_statics), templates_view(parent_templates)),
            str_result_view(r) == fragment_rendered(self@, components_view(components@), opt_strings_view(cousin_statics),
                templates_view(parent_templates)),
    {
        proof {
            lemma_fragment_rendered_at(u64::MAX as nat, self@, components_view(components@), opt_strings_view(cousin_statics),
                templates_view(parent_templates));
        }
        match render_fragment_exec(self, components, &cousin_statics, &parent_templates, u64::MAX) {
            Some(r) => r,
            None => {
                assert(false);
                Err(RenderError::NoTemplates)
            },
        }
    }
}

impl Child {
    /// Renders the node to markup, given the statics of a sibling and the
    /// templates of its parents.
    pub fn render(&self, components: &Vec<(String, Component)>, statics: Option<Vec<String>>, templates: Templates)
        -> (r: Result<String, RenderError>)
        requires
            render_child(u64::MAX as nat, self@, components_view(components@), opt_strings_view(statics), templates_view(templates)) is Some,
        ensures
            child_renders(self@, components_view(components@), opt_strings_view(statics), templates_view(templates)),
            str_result_view(r) == child_rendered(self@, components_view(components@), opt_strings_view(statics),
                templates_view(templates)),
    {
        proof {
            lemma_child_rendered_at(u64::MAX as nat, self@, components_view(components@), opt_strings_view(statics),
                templates_view(templates));
        }
        match render_child_exec(self, components, &statics, &templates, u64::MAX) {
            Some(r) => r,
            None => {
                assert(false);
                Err(RenderError::NoTemplates)
            },
        }
    }
}

impl Component {
    /// Renders the component to markup.
    pub fn render(&self, components: &Vec<(String, Component)>) -> (r: Result<String, RenderError>)
        requires
            render_component(u64::MAX as nat, self@, components_view(components@)) is Some,
        ensures
            component_renders(self@, components_view(components@)),
            str_result_view(r) == component_rendered(self@, components_view(components@)),
    {
        proof { lemma_component_rendered_at(u64::MAX as nat, self@, components_view(components@)); }
        match render_component_exec(self, components, u64::MAX) {
            Some(r) => r,
            None => {
                assert(false);
                Err(RenderError::NoTemplates)
            },
        }
    }
}

impl Root {
    /// Renders the whole tree to markup.
    pub fn render(&self) -> (r: Result<String, RenderError>)
        requires
            render_fragment(u64::MAX as nat, self.fragment@, components_view(self.components@), None, None) is Some,
        ensures
            fragment_renders(self.fragment@, components_view(self.components@), None, None),
            str_result_view(r) == fragment_rendered(self.fragment@, components_view(self.components@), None, None),
    {
        self.fragment.render(&self.components, None, None)
    }

    /// Renders the whole tree to markup, going at most `depth` levels deep:
    /// `None` when that does not suffice, as when components refer to each
    /// other in a cycle. A rendering that completes is the tree's rendering.
    pub fn render_within(&self, depth: u64) -> (r: Option<Result<String, RenderError>>)
        ensures
            opt_result_view(r) == render_fragment(depth as nat, self.fragment@, components_view(self.components@), None, None),
            r matches Some(x) ==> fragment_renders(self.fragment@, components_view(self.components@), None, None)
                && str_result_view(x) == fragment_rendered(self.fragment@, components_view(self.components@), None, None),
    {
        let none: Option<Vec<String>> = None;
        let no_templates: Templates = None;
        let r = render_fragment_exec(&self.fragment, &self.components, &none, &no_templates, depth);
        proof {
            if r is Some {
                lemma_fragment_rendered_at(depth as nat, self.fragment@, components_view(self.components@), None, None);
            }
        }
        r
    }
}

} // verus!

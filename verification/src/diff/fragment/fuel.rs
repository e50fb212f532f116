//! Rendering does not depend on the bound on its depth: once a bound lets
//! it complete, every larger bound gives the same result. From this, the
//! shape of a rendered regular fragment.
use vstd::prelude::*;
use super::types::{StaticsV, StringsV, StreamV, TemplatesV, ChildV, FragmentV, ComponentV, ComponentStaticsV};
use super::model::{lookup, merge_templates, child_statics, follow_ref, render_child, render_fragment, render_component,
    regular_upto, template_upto, rows_concat, row_concat, rows_with_statics, row_with_statics, component_upto, cousin_upto,
    fragment_renders, fragment_rendered, child_renders, child_rendered, component_renders, component_rendered};
use super::error::RenderError;
use crate::text::{decimal, int_text};

verus! {

/// Following component references gives the same result with more fuel.
#[verifier::spinoff_prover]
pub proof fn lemma_follow_ref_fuel(f1: nat, f2: nat, comps: Seq<(Seq<char>, ComponentV)>, cid: i32)
    requires
        f1 <= f2,
        follow_ref(f1, comps, cid) is Some,
    ensures
        follow_ref(f2, comps, cid) == follow_ref(f1, comps, cid),
    decreases f1,
{
    reveal(follow_ref);
    if let Some(c) = lookup(comps, int_text(cid as int)) {
        if let ComponentStaticsV::ComponentRef(b) = c.statics {
            lemma_follow_ref_fuel((f1 - 1) as nat, (f2 - 1) as nat, comps, b);
        }
    }
}

/// Rendering a node gives the same result with more fuel.
#[verifier::spinoff_prover]
pub proof fn lemma_child_fuel(f1: nat, f2: nat, c: ChildV, comps: Seq<(Seq<char>, ComponentV)>,
    cousin: Option<Seq<Seq<char>>>, t: TemplatesV)
    requires
        f1 <= f2,
        render_child(f1, c, comps, cousin, t) is Some,
    ensures
        render_child(f2, c, comps, cousin, t) == render_child(f1, c, comps, cousin, t),
    decreases f1, 0nat, 0nat,
{
    reveal(render_child);
    match c {
        ChildV::Fragment(f) => {
            lemma_fragment_fuel((f1 - 1) as nat, (f2 - 1) as nat, f, comps, cousin, t);
        },
        ChildV::ComponentID(cid) => {
            if let Some(comp) = lookup(comps, int_text(cid as int)) {
                lemma_component_fuel((f1 - 1) as nat, (f2 - 1) as nat, comp, comps);
            }
        },
        _ => {},
    }
}

/// Rendering a fragment gives the same result with more fuel.
#[verifier::spinoff_prover]
pub proof fn lemma_fragment_fuel(f1: nat, f2: nat, f: FragmentV, comps: Seq<(Seq<char>, ComponentV)>,
    cousin: Option<Seq<Seq<char>>>, parent: TemplatesV)
    requires
        f1 <= f2,
        render_fragment(f1, f, comps, cousin, parent) is Some,
    ensures
        render_fragment(f2, f, comps, cousin, parent) == render_fragment(f1, f, comps, cousin, parent),
    decreases f1, 0nat, 0nat,
{
    reveal(render_fragment);
    let g1 = (f1 - 1) as nat;
    let g2 = (f2 - 1) as nat;
    match f {
        FragmentV::Regular { children, statics, .. } => match statics {
            Some(StaticsV::List(st)) => {
                if st.len() > 0 {
                    lemma_regular_fuel(g1, g2, st, children, comps, cousin, parent, st.len() as int);
                }
            },
            Some(StaticsV::TemplateRef(tid)) => {
                if let Some(t) = parent {
                    if let Some(tmpl) = lookup(t, int_text(tid as int)) {
                        if tmpl.len() > 0 {
                            lemma_template_fuel(g1, g2, tmpl, children, comps, cousin, t, tmpl.len() as int);
                        }
                    }
                }
            },
            _ => {},
        },
        FragmentV::Comprehension { dynamics, statics, templates, .. } => {
            let t = merge_templates(parent, templates);
            match (statics, cousin) {
                (None, None) => {
                    lemma_rows_concat_fuel(g1, g2, dynamics, comps, t, dynamics.len() as int);
                },
                (None, Some(st)) => {
                    lemma_rows_with_statics_fuel(g1, g2, st, dynamics, comps, t, dynamics.len() as int);
                },
                (Some(StaticsV::List(st)), None) => {
                    lemma_rows_with_statics_fuel(g1, g2, st, dynamics, comps, t, dynamics.len() as int);
                },
                (Some(StaticsV::TemplateRef(tid)), None) => {
                    if let Some(tt) = t {
                        if let Some(ts) = lookup(tt, int_text(tid as int)) {
                            lemma_rows_with_statics_fuel(g1, g2, ts, dynamics, comps, t, dynamics.len() as int);
                        }
                    }
                },
                _ => {},
            }
        },
    }
}

/// The statics of a regular fragment give the same result with more fuel.
#[verifier::spinoff_prover]
pub proof fn lemma_regular_fuel(f1: nat, f2: nat, st: Seq<Seq<char>>, children: Seq<(Seq<char>, ChildV)>,
    comps: Seq<(Seq<char>, ComponentV)>, cousin: Option<Seq<Seq<char>>>, parent: TemplatesV, k: int)
    requires
        f1 <= f2,
        regular_upto(f1, st, children, comps, cousin, parent, k) is Some,
    ensures
        regular_upto(f2, st, children, comps, cousin, parent, k) == regular_upto(f1, st, children, comps, cousin, parent, k),
    decreases f1, k, 0nat,
{
    reveal(regular_upto);
    if k > 1 {
        lemma_regular_fuel(f1, f2, st, children, comps, cousin, parent, k - 1);
        if let Some(Ok(_)) = regular_upto(f1, st, children, comps, cousin, parent, k - 1) {
            if let Some(c) = lookup(children, decimal((k - 2) as nat)) {
                lemma_child_fuel(f1, f2, c, comps, cousin, parent);
            }
        }
    }
}

/// The parts of a template give the same result with more fuel.
#[verifier::spinoff_prover]
pub proof fn lemma_template_fuel(f1: nat, f2: nat, tmpl: Seq<Seq<char>>, children: Seq<(Seq<char>, ChildV)>,
    comps: Seq<(Seq<char>, ComponentV)>, cousin: Option<Seq<Seq<char>>>, t: Seq<(Seq<char>, Seq<Seq<char>>)>, k: int)
    requires
        f1 <= f2,
        template_upto(f1, tmpl, children, comps, cousin, t, k) is Some,
    ensures
        template_upto(f2, tmpl, children, comps, cousin, t, k) == template_upto(f1, tmpl, children, comps, cousin, t, k),
    decreases f1, k, 0nat,
{
    reveal(template_upto);
    if k > 1 {
        lemma_template_fuel(f1, f2, tmpl, children, comps, cousin, t, k - 1);
        if let Some(Ok(_)) = template_upto(f1, tmpl, children, comps, cousin, t, k - 1) {
            if let Some(c) = lookup(children, decimal((k - 2) as nat)) {
                lemma_child_fuel(f1, f2, c, comps, cousin, Some(t));
            }
        }
    }
}

/// The rows of a comprehension, concatenated, give the same result with
/// more fuel.
#[verifier::spinoff_prover]
pub proof fn lemma_rows_concat_fuel(f1: nat, f2: nat, rows: Seq<Seq<ChildV>>, comps: Seq<(Seq<char>, ComponentV)>,
    t: TemplatesV, n: int)
    requires
        f1 <= f2,
        rows_concat(f1, rows, comps, t, n) is Some,
    ensures
        rows_concat(f2, rows, comps, t, n) == rows_concat(f1, rows, comps, t, n),
    decreases f1, n, 0nat,
{
    reveal(rows_concat);
    if n > 0 {
        lemma_rows_concat_fuel(f1, f2, rows, comps, t, n - 1);
        if let Some(Ok(_)) = rows_concat(f1, rows, comps, t, n - 1) {
            lemma_row_concat_fuel(f1, f2, rows[n - 1], comps, t, rows[n - 1].len() as int);
        }
    }
}

/// One row, concatenated, gives the same result with more fuel.
#[verifier::spinoff_prover]
pub proof fn lemma_row_concat_fuel(f1: nat, f2: nat, row: Seq<ChildV>, comps: Seq<(Seq<char>, ComponentV)>,
    t: TemplatesV, m: int)
    requires
        f1 <= f2,
        row_concat(f1, row, comps, t, m) is Some,
    ensures
        row_concat(f2, row, comps, t, m) == row_concat(f1, row, comps, t, m),
    decreases f1, 0nat, m,
{
    reveal(row_concat);
    if m > 0 {
        lemma_row_concat_fuel(f1, f2, row, comps, t, m - 1);
        if let Some(Ok(_)) = row_concat(f1, row, comps, t, m - 1) {
            lemma_child_fuel(f1, f2, row[m - 1], comps, None, t);
        }
    }
}

/// The rows of a comprehension, rendered through statics, give the same
/// result with more fuel.
#[verifier::spinoff_prover]
pub proof fn lemma_rows_with_statics_fuel(f1: nat, f2: nat, st: Seq<Seq<char>>, rows: Seq<Seq<ChildV>>,
    comps: Seq<(Seq<char>, ComponentV)>, t: TemplatesV, n: int)
    requires
        f1 <= f2,
        rows_with_statics(f1, st, rows, comps, t, n) is Some,
    ensures
        rows_with_statics(f2, st, rows, comps, t, n) == rows_with_statics(f1, st, rows, comps, t, n),
    decreases f1, n, 0nat,
{
    reveal(rows_with_statics);
    if n > 0 {
        lemma_rows_with_statics_fuel(f1, f2, st, rows, comps, t, n - 1);
        if let Some(Ok(_)) = rows_with_statics(f1, st, rows, comps, t, n - 1) {
            lemma_row_with_statics_fuel(f1, f2, st, rows[n - 1], comps, t, st.len() as int);
        }
    }
}

/// One row, rendered through statics, gives the same result with more
/// fuel.
#[verifier::spinoff_prover]
pub proof fn lemma_row_with_statics_fuel(f1: nat, f2: nat, st: Seq<Seq<char>>, row: Seq<ChildV>,
    comps: Seq<(Seq<char>, ComponentV)>, t: TemplatesV, k: int)
    requires
        f1 <= f2,
        row_with_statics(f1, st, row, comps, t, k) is Some,
    ensures
        row_with_statics(f2, st, row, comps, t, k) == row_with_statics(f1, st, row, comps, t, k),
    decreases f1, 0nat, k,
{
    reveal(row_with_statics);
    if k > 1 {
        lemma_row_with_statics_fuel(f1, f2, st, row, comps, t, k - 1);
        if let Some(Ok(_)) = row_with_statics(f1, st, row, comps, t, k - 1) {
            if k - 2 < row.len() {
                lemma_child_fuel(f1, f2, row[k - 2], comps, None, t);
            }
        }
    }
}

/// Rendering a component gives the same result with more fuel.
#[verifier::spinoff_prover]
pub proof fn lemma_component_fuel(f1: nat, f2: nat, c: ComponentV, comps: Seq<(Seq<char>, ComponentV)>)
    requires
        f1 <= f2,
        render_component(f1, c, comps) is Some,
    ensures
        render_component(f2, c, comps) == render_component(f1, c, comps),
    decreases f1, 0nat, 0nat,
{
    reveal(render_component);
    let g1 = (f1 - 1) as nat;
    let g2 = (f2 - 1) as nat;
    match c.statics {
        ComponentStaticsV::Statics(st) => {
            if st.len() > 0 {
                lemma_component_upto_fuel(g1, g2, st, c.children, comps, st.len() as int);
            }
        },
        ComponentStaticsV::ComponentRef(cid) => {
            lemma_follow_ref_fuel(g1, g2, comps, cid);
            if let Some(Ok((outer, cousins))) = follow_ref(g1, comps, cid) {
                if outer.len() > 0 {
                    lemma_cousin_upto_fuel(g1, g2, outer, c.children, cousins, comps, outer.len() as int);
                }
            }
        },
    }
}

/// The statics of a component give the same result with more fuel.
#[verifier::spinoff_prover]
pub proof fn lemma_component_upto_fuel(f1: nat, f2: nat, st: Seq<Seq<char>>, children: Seq<(Seq<char>, ChildV)>,
    comps: Seq<(Seq<char>, ComponentV)>, k: int)
    requires
        f1 <= f2,
        component_upto(f1, st, children, comps, k) is Some,
    ensures
        component_upto(f2, st, children, comps, k) == component_upto(f1, st, children, comps, k),
    decreases f1, k, 0nat,
{
    reveal(component_upto);
    if k > 1 {
        lemma_component_upto_fuel(f1, f2, st, children, comps, k - 1);
        if let Some(Ok(_)) = component_upto(f1, st, children, comps, k - 1) {
            if let Some(c) = lookup(children, decimal((k - 2) as nat)) {
                lemma_child_fuel(f1, f2, c, comps, None, None);
            }
        }
    }
}

/// The statics a component reference leads to give the same result with
/// more fuel.
#[verifier::spinoff_prover]
pub proof fn lemma_cousin_upto_fuel(f1: nat, f2: nat, outer: Seq<Seq<char>>, children: Seq<(Seq<char>, ChildV)>,
    cousins: Seq<(Seq<char>, ChildV)>, comps: Seq<(Seq<char>, ComponentV)>, k: int)
    requires
        f1 <= f2,
        cousin_upto(f1, outer, children, cousins, comps, k) is Some,
    ensures
        cousin_upto(f2, outer, children, cousins, comps, k) == cousin_upto(f1, outer, children, cousins, comps, k),
    decreases f1, k, 0nat,
{
    reveal(cousin_upto);
    if k > 1 {
        lemma_cousin_upto_fuel(f1, f2, outer, children, cousins, comps, k - 1);
        if let Some(Ok(_)) = cousin_upto(f1, outer, children, cousins, comps, k - 1) {
            if let Some(c) = lookup(children, decimal((k - 2) as nat)) {
                if let Some(cousin) = lookup(cousins, decimal((k - 2) as nat)) {
                    lemma_child_fuel(f1, f2, c, comps, child_statics(cousin), None);
                }
            }
        }
    }
}

/// The markup of a regular fragment with the statics `st[0..k)` and the
/// given children: the first static, then, for each further static, the
/// rendered child at the index before it, when there is one, and the static.
pub open spec fn regular_shape(st: Seq<Seq<char>>, children: Seq<(Seq<char>, ChildV)>, comps: Seq<(Seq<char>, ComponentV)>,
    cousin: Option<Seq<Seq<char>>>, parent: TemplatesV, k: int) -> Seq<char>
    decreases k,
{
    if k <= 1 {
        st[0]
    } else {
        regular_shape(st, children, comps, cousin, parent, k - 1) + match lookup(children, decimal((k - 2) as nat)) {
            None => Seq::empty(),
            Some(c) => match child_rendered(c, comps, cousin, parent) {
                Ok(v) => v,
                Err(_) => Seq::empty(),
            },
        } + st[k - 1]
    }
}

/// Whether every child of a regular fragment renders, without error.
pub open spec fn children_render_ok(children: Seq<(Seq<char>, ChildV)>, comps: Seq<(Seq<char>, ComponentV)>,
    cousin: Option<Seq<Seq<char>>>, parent: TemplatesV) -> bool {
    forall|j: nat| #[trigger] lookup(children, decimal(j)) matches Some(c)
        ==> child_renders(c, comps, cousin, parent) && child_rendered(c, comps, cousin, parent) is Ok
}

/// The statics of a regular fragment whose children all render without
/// error come out in the shape of [regular_shape].
#[verifier::spinoff_prover]
proof fn lemma_regular_upto_shape(g: nat, st: Seq<Seq<char>>, children: Seq<(Seq<char>, ChildV)>,
    comps: Seq<(Seq<char>, ComponentV)>, cousin: Option<Seq<Seq<char>>>, parent: TemplatesV, k: int)
    requires
        regular_upto(g, st, children, comps, cousin, parent, k) is Some,
        children_render_ok(children, comps, cousin, parent),
    ensures
        regular_upto(g, st, children, comps, cousin, parent, k)
            == Some(Ok::<Seq<char>, RenderError>(regular_shape(st, children, comps, cousin, parent, k))),
    decreases k,
{
    reveal(regular_upto);
    if k > 1 {
        lemma_regular_upto_shape(g, st, children, comps, cousin, parent, k - 1);
        let j = (k - 2) as nat;
        if let Some(c) = lookup(children, decimal(j)) {
            let fc = choose|fuel: nat| render_child(fuel, c, comps, cousin, parent) is Some;
            if g <= fc {
                lemma_child_fuel(g, fc, c, comps, cousin, parent);
            } else {
                lemma_child_fuel(fc, g, c, comps, cousin, parent);
            }
        }
    }
}

/// A regular fragment without statics, or with statics given as a string,
/// renders empty. One with a list of statics whose children all render
/// without error renders as the first static, then, for each further static,
/// the rendered child at the index before it, when there is one, followed by
/// the static: children that are missing are skipped.
#[verifier::spinoff_prover]
pub proof fn law_regular_render_shape(f: FragmentV, comps: Seq<(Seq<char>, ComponentV)>,
    cousin: Option<Seq<Seq<char>>>, parent: TemplatesV)
    requires
        f is Regular,
        fragment_renders(f, comps, cousin, parent),
    ensures
        match f->Regular_statics {
            None => fragment_rendered(f, comps, cousin, parent) == Ok::<Seq<char>, RenderError>(Seq::empty()),
            Some(StaticsV::Str(_)) => fragment_rendered(f, comps, cousin, parent) == Ok::<Seq<char>, RenderError>(Seq::empty()),
            Some(StaticsV::List(st)) => children_render_ok(f->Regular_children, comps, cousin, parent) ==>
                fragment_rendered(f, comps, cousin, parent) == Ok::<Seq<char>, RenderError>(
                    regular_shape(st, f->Regular_children, comps, cousin, parent, st.len() as int)),
            Some(StaticsV::TemplateRef(_)) => true,
        },
{
    reveal(render_fragment);
    let fuel = choose|fuel: nat| render_fragment(fuel, f, comps, cousin, parent) is Some;
    if let Some(StaticsV::List(st)) = f->Regular_statics {
        if children_render_ok(f->Regular_children, comps, cousin, parent) {
            lemma_regular_upto_shape((fuel - 1) as nat, st, f->Regular_children, comps, cousin, parent, st.len() as int);
        }
    }
}

/// Once rendering a fragment completes within `fuel` levels, it gives the
/// fragment's rendering.
pub proof fn lemma_fragment_rendered_at(fuel: nat, f: FragmentV, comps: Seq<(Seq<char>, ComponentV)>,
    cousin: Option<Seq<Seq<char>>>, parent: TemplatesV)
    requires
        render_fragment(fuel, f, comps, cousin, parent) is Some,
    ensures
        fragment_renders(f, comps, cousin, parent),
        render_fragment(fuel, f, comps, cousin, parent) == Some(fragment_rendered(f, comps, cousin, parent)),
{
    let c = choose|x: nat| render_fragment(x, f, comps, cousin, parent) is Some;
    if c <= fuel {
        lemma_fragment_fuel(c, fuel, f, comps, cousin, parent);
    } else {
        lemma_fragment_fuel(fuel, c, f, comps, cousin, parent);
    }
}

/// Once rendering a node completes within `fuel` levels, it gives the
/// node's rendering.
pub proof fn lemma_child_rendered_at(fuel: nat, c: ChildV, comps: Seq<(Seq<char>, ComponentV)>,
    cousin: Option<Seq<Seq<char>>>, t: TemplatesV)
    requires
        render_child(fuel, c, comps, cousin, t) is Some,
    ensures
        child_renders(c, comps, cousin, t),
        render_child(fuel, c, comps, cousin, t) == Some(child_rendered(c, comps, cousin, t)),
{
    let x = choose|x: nat| render_child(x, c, comps, cousin, t) is Some;
    if x <= fuel {
        lemma_child_fuel(x, fuel, c, comps, cousin, t);
    } else {
        lemma_child_fuel(fuel, x, c, comps, cousin, t);
    }
}

/// Once rendering a component completes within `fuel` levels, it gives the
/// component's rendering.
pub proof fn lemma_component_rendered_at(fuel: nat, c: ComponentV, comps: Seq<(Seq<char>, ComponentV)>)
    requires
        render_component(fuel, c, comps) is Some,
    ensures
        component_renders(c, comps),
        render_component(fuel, c, comps) == Some(component_rendered(c, comps)),
{
    let x = choose|x: nat| render_component(x, c, comps) is Some;
    if x <= fuel {
        lemma_component_fuel(x, fuel, c, comps);
    } else {
        lemma_component_fuel(fuel, x, c, comps);
    }
}

/// One row of strings through the statics `st[0..k)`: the first static,
/// then for each further static the row's string at the index before it,
/// followed by that static.
pub open spec fn text_row(st: Seq<Seq<char>>, row: Seq<Seq<char>>, k: int) -> Seq<char>
    decreases k,
{
    if k <= 1 {
        st[0]
    } else {
        text_row(st, row, k - 1) + row[k - 2] + st[k - 1]
    }
}

/// The first `n` rows of strings, each through all the statics `st`, one
/// after the other in order.
pub open spec fn text_rows(st: Seq<Seq<char>>, rows: Seq<Seq<Seq<char>>>, n: int) -> Seq<char>
    decreases n,
{
    if n <= 0 {
        Seq::empty()
    } else {
        text_rows(st, rows, n - 1) + text_row(st, rows[n - 1], st.len() as int)
    }
}

/// A row of string children through the statics, with any fuel.
#[verifier::spinoff_prover]
proof fn lemma_row_of_strings(g: nat, st: Seq<Seq<char>>, row: Seq<ChildV>, texts: Seq<Seq<char>>,
    comps: Seq<(Seq<char>, ComponentV)>, t: TemplatesV, k: int)
    requires
        g >= 1,
        1 <= k <= st.len(),
        row.len() == texts.len(),
        texts.len() + 1 >= st.len(),
        forall|j: int| 0 <= j < row.len() ==> #[trigger] row[j] == ChildV::Str(StringsV::One(texts[j])),
    ensures
        row_with_statics(g, st, row, comps, t, k) == Some(Ok::<Seq<char>, RenderError>(text_row(st, texts, k))),
    decreases k,
{
    reveal(row_with_statics);
    reveal(render_child);
    if k > 1 {
        lemma_row_of_strings(g, st, row, texts, comps, t, k - 1);
        assert(row[k - 2] == ChildV::Str(StringsV::One(texts[k - 2])));
        assert(render_child(g, row[k - 2], comps, None, t) == Some(Ok::<Seq<char>, RenderError>(texts[k - 2])));
    }
}

/// Rows of string children through the statics, with any fuel.
#[verifier::spinoff_prover]
proof fn lemma_rows_of_strings(g: nat, st: Seq<Seq<char>>, rows: Seq<Seq<ChildV>>, texts: Seq<Seq<Seq<char>>>,
    comps: Seq<(Seq<char>, ComponentV)>, t: TemplatesV, n: int)
    requires
        g >= 1,
        st.len() > 0,
        0 <= n <= rows.len(),
        rows.len() == texts.len(),
        forall|i: int| 0 <= i < rows.len() ==> (#[trigger] rows[i]).len() == texts[i].len() && texts[i].len() + 1 >= st.len()
            && forall|j: int| 0 <= j < rows[i].len() ==> #[trigger] rows[i][j] == ChildV::Str(StringsV::One(texts[i][j])),
    ensures
        rows_with_statics(g, st, rows, comps, t, n) == Some(Ok::<Seq<char>, RenderError>(text_rows(st, texts, n))),
    decreases n,
{
    reveal(rows_with_statics);
    if n > 0 {
        lemma_rows_of_strings(g, st, rows, texts, comps, t, n - 1);
        let row = rows[n - 1];
        assert(row.len() == texts[n - 1].len());
        assert forall|j: int| 0 <= j < row.len() implies #[trigger] row[j] == ChildV::Str(StringsV::One(texts[n - 1][j])) by {
            assert(rows[n - 1][j] == ChildV::Str(StringsV::One(texts[n - 1][j])));
        }
        lemma_row_of_strings(g, st, row, texts[n - 1], comps, t, st.len() as int);
    }
}

/// A comprehension with a list of statics, rendered without a sibling's
/// statics, whose rows hold strings only, each row having a string for every
/// gap between two statics: it renders as its rows one after the other in
/// order, each row as the first static, then for each further static the
/// row's string at the index before it followed by that static.
#[verifier::spinoff_prover]
pub proof fn law_comprehension_render(dynamics: Seq<Seq<ChildV>>, st: Seq<Seq<char>>, texts: Seq<Seq<Seq<char>>>,
    templates: TemplatesV, stream: Option<StreamV>, is_root: Option<i8>, new_render: Option<bool>,
    comps: Seq<(Seq<char>, ComponentV)>, parent: TemplatesV)
    requires
        st.len() > 0,
        dynamics.len() == texts.len(),
        forall|i: int| 0 <= i < dynamics.len() ==> (#[trigger] dynamics[i]).len() == texts[i].len() && texts[i].len() + 1 >= st.len()
            && forall|j: int| 0 <= j < dynamics[i].len() ==> #[trigger] dynamics[i][j] == ChildV::Str(StringsV::One(texts[i][j])),
    ensures
        ({
            let f = FragmentV::Comprehension { dynamics, statics: Some(StaticsV::List(st)), templates, stream, is_root, new_render };
            &&& fragment_renders(f, comps, None, parent)
            &&& fragment_rendered(f, comps, None, parent) == Ok::<Seq<char>, RenderError>(text_rows(st, texts, texts.len() as int))
        }),
{
    let f = FragmentV::Comprehension { dynamics, statics: Some(StaticsV::List(st)), templates, stream, is_root, new_render };
    let t = merge_templates(parent, templates);
    let g: nat = 2;
    lemma_rows_of_strings(1, st, dynamics, texts, comps, t, dynamics.len() as int);
    reveal(render_fragment);
    assert(render_fragment(g, f, comps, None, parent) == rows_with_statics(1, st, dynamics, comps, t, dynamics.len() as int));
    lemma_fragment_rendered_at(g, f, comps, None, parent);
}

} // verus!

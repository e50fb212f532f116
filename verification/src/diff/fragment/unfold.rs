//! One-step unfoldings of the rendering functions, for the loops and
//! recursions that compute them.
use vstd::prelude::*;
use super::types::{StaticsV, TemplatesV, ChildV, FragmentV, ComponentV};
use super::model::{lookup, merge_templates, child_statics, render_child, render_fragment, regular_upto, template_upto,
    rows_concat, row_concat, rows_with_statics, component_upto, cousin_upto};
use super::error::RenderError;
use crate::text::{decimal, int_text};

verus! {

/// `render_fragment` of a regular fragment with some fuel left, one step.
#[verifier::spinoff_prover]
pub proof fn lemma_render_regular_unfold(fuel: nat, f: FragmentV, comps: Seq<(Seq<char>, ComponentV)>, cousin: Option<Seq<Seq<char>>>, parent: TemplatesV)
    requires
        fuel > 0,
        f is Regular,
    ensures
        render_fragment(fuel, f, comps, cousin, parent) == match f->Regular_statics {
            None => Some(Ok(Seq::<char>::empty())),
            Some(StaticsV::Str(_)) => Some(Ok(Seq::empty())),
            Some(StaticsV::List(st)) => if st.len() == 0 {
                None
            } else {
                regular_upto((fuel - 1) as nat, st, f->Regular_children, comps, cousin, parent, st.len() as int)
            },
            Some(StaticsV::TemplateRef(tid)) => match parent {
                None => Some(Err(RenderError::NoTemplates)),
                Some(t) => match lookup(t, int_text(tid as int)) {
                    None => Some(Err(RenderError::TemplateNotFound(tid))),
                    Some(tmpl) => if tmpl.len() == 0 {
                        None
                    } else {
                        template_upto((fuel - 1) as nat, tmpl, f->Regular_children, comps, cousin, t, tmpl.len() as int)
                    },
                },
            },
        },
{
    reveal(render_fragment);
    reveal(regular_upto);
    reveal(template_upto);
    reveal(rows_concat);
    reveal(rows_with_statics);
}

/// `render_fragment` of a comprehension with some fuel left, one step.
#[verifier::spinoff_prover]
pub proof fn lemma_render_comprehension_unfold(fuel: nat, f: FragmentV, comps: Seq<(Seq<char>, ComponentV)>, cousin: Option<Seq<Seq<char>>>, parent: TemplatesV)
    requires
        fuel > 0,
        f is Comprehension,
    ensures
        ({
            let dynamics = f->Comprehension_dynamics;
            let t = merge_templates(parent, f->Comprehension_templates);
            render_fragment(fuel, f, comps, cousin, parent) == match (f->Comprehension_statics, cousin) {
                (None, None) => rows_concat((fuel - 1) as nat, dynamics, comps, t, dynamics.len() as int),
                (None, Some(st)) => rows_with_statics((fuel - 1) as nat, st, dynamics, comps, t, dynamics.len() as int),
                (Some(StaticsV::Str(_)), None) => Some(Ok(Seq::empty())),
                (Some(StaticsV::List(st)), None) => rows_with_statics((fuel - 1) as nat, st, dynamics, comps, t, dynamics.len() as int),
                (Some(StaticsV::TemplateRef(tid)), None) => match t {
                    None => Some(Err(RenderError::NoTemplates)),
                    Some(tt) => match lookup(tt, int_text(tid as int)) {
                        None => Some(Err(RenderError::TemplateNotFound(tid))),
                        Some(ts) => rows_with_statics((fuel - 1) as nat, ts, dynamics, comps, t, dynamics.len() as int),
                    },
                },
                (Some(_), Some(_)) => None,
            }
        }),
{
    reveal(render_fragment);
    reveal(regular_upto);
    reveal(template_upto);
    reveal(rows_concat);
    reveal(rows_with_statics);
}

/// `template_upto` over `k > 1` parts, in terms of the first `k - 1`.
#[verifier::spinoff_prover]
pub proof fn lemma_template_upto_unfold(fuel: nat, tmpl: Seq<Seq<char>>, children: Seq<(Seq<char>, ChildV)>, comps: Seq<(Seq<char>, ComponentV)>,
    cousin: Option<Seq<Seq<char>>>, t: Seq<(Seq<char>, Seq<Seq<char>>)>, k: int)
    requires
        k > 1,
    ensures
        template_upto(fuel, tmpl, children, comps, cousin, t, k) == match template_upto(fuel, tmpl, children, comps, cousin, t, k - 1) {
            Some(Ok(o)) => match lookup(children, decimal((k - 2) as nat)) {
                None => Some(Err(RenderError::ChildNotFoundForTemplate((k - 2) as i32))),
                Some(c) => match render_child(fuel, c, comps, cousin, Some(t)) {
                    Some(Ok(v)) => Some(Ok(o + v + tmpl[k - 1])),
                    other => other,
                },
            },
            other => other,
        },
{
    reveal(template_upto);
    reveal(render_child);
}

/// `template_upto` over the first part.
#[verifier::spinoff_prover]
pub proof fn lemma_template_upto_first(fuel: nat, tmpl: Seq<Seq<char>>, children: Seq<(Seq<char>, ChildV)>, comps: Seq<(Seq<char>, ComponentV)>,
    cousin: Option<Seq<Seq<char>>>, t: Seq<(Seq<char>, Seq<Seq<char>>)>)
    ensures
        template_upto(fuel, tmpl, children, comps, cousin, t, 1) == Some(Ok::<Seq<char>, RenderError>(tmpl[0])),
{
    reveal(template_upto);
}

/// `row_concat` over `m > 0` children, in terms of the first `m - 1`.
#[verifier::spinoff_prover]
pub proof fn lemma_row_concat_unfold(fuel: nat, row: Seq<ChildV>, comps: Seq<(Seq<char>, ComponentV)>, t: TemplatesV, m: int)
    requires
        m > 0,
    ensures
        row_concat(fuel, row, comps, t, m) == match row_concat(fuel, row, comps, t, m - 1) {
            Some(Ok(o)) => match render_child(fuel, row[m - 1], comps, None, t) {
                Some(Ok(v)) => Some(Ok(o + v)),
                other => other,
            },
            other => other,
        },
{
    reveal(row_concat);
}

/// `component_upto` over `k > 1` statics, in terms of the first `k - 1`.
#[verifier::spinoff_prover]
pub proof fn lemma_component_upto_unfold(fuel: nat, st: Seq<Seq<char>>, children: Seq<(Seq<char>, ChildV)>, comps: Seq<(Seq<char>, ComponentV)>, k: int)
    requires
        k > 1,
    ensures
        component_upto(fuel, st, children, comps, k) == match component_upto(fuel, st, children, comps, k - 1) {
            Some(Ok(o)) => match lookup(children, decimal((k - 2) as nat)) {
                None => Some(Err(RenderError::ChildNotFoundForStatic((k - 2) as i32))),
                Some(c) => match render_child(fuel, c, comps, None, None) {
                    Some(Ok(v)) => Some(Ok(o + v + st[k - 1])),
                    other => other,
                },
            },
            other => other,
        },
{
    reveal(component_upto);
}

/// `component_upto` over the first static.
#[verifier::spinoff_prover]
pub proof fn lemma_component_upto_first(fuel: nat, st: Seq<Seq<char>>, children: Seq<(Seq<char>, ChildV)>, comps: Seq<(Seq<char>, ComponentV)>)
    ensures
        component_upto(fuel, st, children, comps, 1) == Some(Ok::<Seq<char>, RenderError>(st[0])),
{
    reveal(component_upto);
}

/// `cousin_upto` over `k > 1` statics, in terms of the first `k - 1`.
#[verifier::spinoff_prover]
pub proof fn lemma_cousin_upto_unfold(fuel: nat, outer: Seq<Seq<char>>, children: Seq<(Seq<char>, ChildV)>, cousins: Seq<(Seq<char>, ChildV)>,
    comps: Seq<(Seq<char>, ComponentV)>, k: int)
    requires
        k > 1,
    ensures
        cousin_upto(fuel, outer, children, cousins, comps, k) == match cousin_upto(fuel, outer, children, cousins, comps, k - 1) {
            Some(Ok(o)) => match lookup(children, decimal((k - 2) as nat)) {
                None => Some(Err(RenderError::ChildNotFoundForStatic((k - 2) as i32))),
                Some(c) => match lookup(cousins, decimal((k - 2) as nat)) {
                    None => Some(Err(RenderError::CousinNotFound((k - 2) as i32))),
                    Some(cousin) => match render_child(fuel, c, comps, child_statics(cousin), None) {
                        Some(Ok(v)) => Some(Ok(o + v + outer[k - 1])),
                        other => other,
                    },
                },
            },
            other => other,
        },
{
    reveal(cousin_upto);
}

/// `cousin_upto` over the first static.
#[verifier::spinoff_prover]
pub proof fn lemma_cousin_upto_first(fuel: nat, outer: Seq<Seq<char>>, children: Seq<(Seq<char>, ChildV)>, cousins: Seq<(Seq<char>, ChildV)>,
    comps: Seq<(Seq<char>, ComponentV)>)
    ensures
        cousin_upto(fuel, outer, children, cousins, comps, 1) == Some(Ok::<Seq<char>, RenderError>(outer[0])),
{
    reveal(cousin_upto);
}

} // verus!

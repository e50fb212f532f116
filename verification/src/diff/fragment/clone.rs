//! Deep copies of fragment values.
use vstd::prelude::*;
use super::types::{Templates, Statics, OneOrManyStrings, StreamItem, Stream, Child, Fragment, ComponentStatics, Component, Root, strings_view, statics_view, opt_statics_view, one_or_many_view, stream_item_view, stream_view, opt_stream_view, templates_view, component_statics_view, child_view, fragment_view, entries_view, row_view, rows_view, component_view, components_view, lemma_entries_view, lemma_row_view, lemma_rows_view};


verus! {

broadcast use vstd::std_specs::vec::group_vec_axioms, vstd::seq::group_seq_axioms;

/// Copies a list of strings.
pub fn clone_strings(v: &Vec<String>) -> (r: Vec<String>)
    ensures
        r@ == v@,
{
    let mut out: Vec<String> = Vec::new();
    let mut i: usize = 0;
    while i < v.len()
        invariant
            i <= v.len(),
            out@ =~= v@.take(i as int),
        decreases v.len() - i,
    {
        out.push(v[i].clone());
        i = i + 1;
    }
    assert(v@.take(v.len() as int) =~= v@);
    out
}

pub fn clone_statics(s: &Statics) -> (r: Statics)
    ensures
        statics_view(r) == statics_view(*s),
{
    match s {
        Statics::String(x) => Statics::String(x.clone()),
        Statics::Statics(v) => Statics::Statics(clone_strings(v)),
        Statics::TemplateRef(i) => Statics::TemplateRef(*i),
    }
}

pub fn clone_opt_statics(s: &Option<Statics>) -> (r: Option<Statics>)
    ensures
        opt_statics_view(r) == opt_statics_view(*s),
{
    match s {
        Some(x) => Some(clone_statics(x)),
        None => None,
    }
}

pub fn clone_one_or_many(s: &OneOrManyStrings) -> (r: OneOrManyStrings)
    ensures
        one_or_many_view(r) == one_or_many_view(*s),
{
    match s {
        OneOrManyStrings::One(x) => OneOrManyStrings::One(x.clone()),
        OneOrManyStrings::Many(v) => OneOrManyStrings::Many(clone_strings(v)),
    }
}

pub fn clone_stream(s: &Stream) -> (r: Stream)
    ensures
        stream_view(r) == stream_view(*s),
{
    let mut items: Vec<StreamItem> = Vec::new();
    let mut i: usize = 0;
    while i < s.stream_items.len()
        invariant
            i <= s.stream_items.len(),
            items@.map_values(|x: StreamItem| stream_item_view(x))
                =~= s.stream_items@.take(i as int).map_values(|x: StreamItem| stream_item_view(x)),
        decreases s.stream_items.len() - i,
    {
        let it = &s.stream_items[i];
        let ghost before = items@;
        let item = StreamItem { id: it.id.clone(), index: it.index, limit: it.limit };
        items.push(item);
        assert(items@.map_values(|x: StreamItem| stream_item_view(x))
            =~= before.map_values(|x: StreamItem| stream_item_view(x)).push(stream_item_view(item)));
        assert(s.stream_items@.take(i + 1) =~= s.stream_items@.take(i as int).push(s.stream_items@[i as int]));
        i = i + 1;
    }
    assert(s.stream_items@.take(s.stream_items.len() as int) =~= s.stream_items@);
    Stream { id: s.id.clone(), stream_items: items }
}

pub fn clone_opt_stream(s: &Option<Stream>) -> (r: Option<Stream>)
    ensures
        opt_stream_view(r) == opt_stream_view(*s),
{
    match s {
        Some(x) => Some(clone_stream(x)),
        None => None,
    }
}

pub fn clone_templates(t: &Templates) -> (r: Templates)
    ensures
        templates_view(r) == templates_view(*t),
{
    match t {
        None => None,
        Some(v) => {
            let mut out: Vec<(String, Vec<String>)> = Vec::new();
            let mut i: usize = 0;
            while i < v.len()
                invariant
                    i <= v.len(),
                    out@.map_values(|e: (String, Vec<String>)| (e.0@, strings_view(e.1@)))
                        =~= v@.take(i as int).map_values(|e: (String, Vec<String>)| (e.0@, strings_view(e.1@))),
                decreases v.len() - i,
            {
                let ghost before = out@;
                let e = (v[i].0.clone(), clone_strings(&v[i].1));
                out.push(e);
                assert(out@.map_values(|e: (String, Vec<String>)| (e.0@, strings_view(e.1@)))
                    =~= before.map_values(|e: (String, Vec<String>)| (e.0@, strings_view(e.1@))).push((e.0@, strings_view(e.1@))));
                assert(v@.take(i + 1) =~= v@.take(i as int).push(v@[i as int]));
                i = i + 1;
            }
            assert(v@.take(v.len() as int) =~= v@);
            Some(out)
        },
    }
}

pub fn clone_component_statics(s: &ComponentStatics) -> (r: ComponentStatics)
    ensures
        component_statics_view(r) == component_statics_view(*s),
{
    match s {
        ComponentStatics::Statics(v) => ComponentStatics::Statics(clone_strings(v)),
        ComponentStatics::ComponentRef(i) => ComponentStatics::ComponentRef(*i),
    }
}

pub fn clone_child(c: &Child) -> (r: Child)
    ensures
        child_view(r) == child_view(*c),
    decreases c,
{
    match c {
        Child::Fragment(f) => Child::Fragment(clone_fragment(f)),
        Child::ComponentID(i) => Child::ComponentID(*i),
        Child::String(s) => Child::String(clone_one_or_many(s)),
    }
}

pub fn clone_fragment(f: &Fragment) -> (r: Fragment)
    ensures
        fragment_view(r) == fragment_view(*f),
    decreases f,
{
    match f {
        Fragment::Comprehension { dynamics, statics, is_root, templates, stream, new_render } => {
            Fragment::Comprehension {
                dynamics: clone_rows(dynamics),
                statics: clone_opt_statics(statics),
                is_root: *is_root,
                templates: clone_templates(templates),
                stream: clone_opt_stream(stream),
                new_render: *new_render,
            }
        },
        Fragment::Regular { statics, is_root, children, new_render } => {
            Fragment::Regular {
                statics: clone_opt_statics(statics),
                is_root: *is_root,
                children: clone_entries(children),
                new_render: *new_render,
            }
        },
    }
}

pub fn clone_entries(v: &Vec<(String, Child)>) -> (r: Vec<(String, Child)>)
    ensures
        entries_view(r@) == entries_view(v@),
    decreases v,
{
    let mut out: Vec<(String, Child)> = Vec::new();
    let mut i: usize = 0;
    proof { lemma_entries_view(v@); }
    while i < v.len()
        invariant
            i <= v.len(),
            entries_view(out@) =~= entries_view(v@).take(i as int),
            entries_view(v@).len() == v.len(),
            forall|j: int| 0 <= j < v.len() ==> #[trigger] entries_view(v@)[j] == (v@[j].0@, child_view(v@[j].1)),
        decreases v.len() - i,
    {
        proof { assert(decreases_to!(v => v@[i as int].1)); }
        let c = clone_child(&v[i].1);
        let ghost before = out@;
        out.push((v[i].0.clone(), c));
        proof {
            lemma_entries_view(before);
            lemma_entries_view(out@);
            assert(entries_view(out@) =~= entries_view(before).push((v@[i as int].0@, child_view(v@[i as int].1))));
        }
        i = i + 1;
    }
    assert(entries_view(v@).take(v.len() as int) =~= entries_view(v@));
    out
}

pub fn clone_row(v: &Vec<Child>) -> (r: Vec<Child>)
    ensures
        row_view(r@) == row_view(v@),
    decreases v,
{
    let mut out: Vec<Child> = Vec::new();
    let mut i: usize = 0;
    proof { lemma_row_view(v@); }
    while i < v.len()
        invariant
            i <= v.len(),
            row_view(out@) =~= row_view(v@).take(i as int),
            row_view(v@).len() == v.len(),
            forall|j: int| 0 <= j < v.len() ==> #[trigger] row_view(v@)[j] == child_view(v@[j]),
        decreases v.len() - i,
    {
        proof { assert(decreases_to!(v => v@[i as int])); }
        let c = clone_child(&v[i]);
        let ghost before = out@;
        out.push(c);
        proof {
            lemma_row_view(before);
            lemma_row_view(out@);
            assert(row_view(out@) =~= row_view(before).push(child_view(v@[i as int])));
        }
        i = i + 1;
    }
    assert(row_view(v@).take(v.len() as int) =~= row_view(v@));
    out
}

pub fn clone_rows(v: &Vec<Vec<Child>>) -> (r: Vec<Vec<Child>>)
    ensures
        rows_view(r@) == rows_view(v@),
    decreases v,
{
    let mut out: Vec<Vec<Child>> = Vec::new();
    let mut i: usize = 0;
    proof { lemma_rows_view(v@); }
    while i < v.len()
        invariant
            i <= v.len(),
            rows_view(out@) =~= rows_view(v@).take(i as int),
            rows_view(v@).len() == v.len(),
            forall|j: int| 0 <= j < v.len() ==> #[trigger] rows_view(v@)[j] == row_view(v@[j]@),
        decreases v.len() - i,
    {
        proof { assert(decreases_to!(v => v@[i as int])); }
        let c = clone_row(&v[i]);
        let ghost before = out@;
        out.push(c);
        proof {
            lemma_rows_view(before);
            lemma_rows_view(out@);
            assert(rows_view(out@) =~= rows_view(before).push(row_view(v@[i as int]@)));
        }
        i = i + 1;
    }
    assert(rows_view(v@).take(v.len() as int) =~= rows_view(v@));
    out
}

pub fn clone_component(c: &Component) -> (r: Component)
    ensures
        component_view(r) == component_view(*c),
{
    Component {
        children: clone_entries(&c.children),
        statics: clone_component_statics(&c.statics),
        is_root: c.is_root,
    }
}

impl Clone for Child {
    fn clone(&self) -> (r: Self)
        ensures
            r@ == self@,
    {
        clone_child(self)
    }
}

impl Clone for Fragment {
    fn clone(&self) -> (r: Self)
        ensures
            r@ == self@,
    {
        clone_fragment(self)
    }
}

impl Clone for Component {
    fn clone(&self) -> (r: Self)
        ensures
            r@ == self@,
    {
        clone_component(self)
    }
}

impl Clone for Root {
    fn clone(&self) -> (r: Self)
        ensures
            r@ == self@,
    {
        let mut comps: Vec<(String, Component)> = Vec::new();
        let mut i: usize = 0;
        while i < self.components.len()
            invariant
                i <= self.components.len(),
                components_view(comps@) =~= components_view(self.components@.take(i as int)),
            decreases self.components.len() - i,
        {
            let ghost before = comps@;
            let e = (self.components[i].0.clone(), clone_component(&self.components[i].1));
            comps.push(e);
            assert(components_view(comps@) =~= components_view(before).push((e.0@, component_view(e.1))));
            assert(self.components@.take(i + 1) =~= self.components@.take(i as int).push(self.components@[i as int]));
            i = i + 1;
        }
        assert(self.components@.take(self.components.len() as int) =~= self.components@);
        Root { new_render: self.new_render, fragment: clone_fragment(&self.fragment), components: comps }
    }
}

} // verus!

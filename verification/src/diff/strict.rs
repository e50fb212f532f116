//! A strict tree model: an update either changes nodes that already exist or
//! replaces a fragment or a component whole.
use vstd::prelude::*;
use crate::diff::fragment::model::{find_key, lemma_find_key, lemma_find_key_keys};
use crate::diff::fragment::merge::{find_entry, keys_of};

verus! {

/// The static strings of a fragment.
#[derive(Debug, Clone, PartialEq)]
pub enum Statics {
    Statics(Vec<String>),
    TemplateRef(i32),
    ComponentRef,
}

/// A node of the tree.
#[derive(Debug, PartialEq)]
pub enum Child {
    Fragment(Fragment),
    ComponentID(i32),
    String(String),
}

/// A fragment: keyed children wrapped in statics, or rows of children.
#[derive(Debug, PartialEq)]
pub enum Fragment {
    Regular(RegularFragment),
    Comprehension(Vec<Vec<Child>>, Statics, Option<Templates>),
}

/// Keyed children and the statics that wrap them.
#[derive(Debug, PartialEq)]
pub struct RegularFragment {
    pub children: Vec<(String, Child)>,
    pub statics: Statics,
}

/// Templates by name.
#[derive(Debug, Clone, PartialEq)]
pub struct Templates {
    pub templates: Vec<(String, Vec<String>)>,
}

/// A live component.
#[derive(Debug, PartialEq)]
pub struct Component {
    pub children: Vec<(String, Child)>,
    pub statics: ComponentStatics,
}

/// The statics of a component: its own, or those of another component.
#[derive(Debug, Clone, PartialEq)]
pub enum ComponentStatics {
    Statics(Vec<String>),
    ComponentRef(i32),
}

/// An update to a fragment.
#[derive(Debug, PartialEq)]
pub enum FragmentDiff {
    UpdateRegular(UpdateRegular),
    ReplaceCurrent(Fragment),
    UpdateComprehension(UpdateComprehension),
}

/// Updates to keyed children that already exist.
#[derive(Debug, PartialEq)]
pub struct UpdateRegular {
    pub children: Vec<(String, ChildDiff)>,
}

/// New rows for a comprehension, and templates to add.
#[derive(Debug, PartialEq)]
pub struct UpdateComprehension {
    pub dynamics: Vec<Vec<ChildDiff>>,
    pub templates: Option<Templates>,
}

/// An update to a component.
#[derive(Debug, PartialEq)]
pub enum ComponentDiff {
    UpdateRegular(UpdateRegular),
    ReplaceCurrent(Component),
}

/// An update to a node.
#[derive(Debug, PartialEq)]
pub enum ChildDiff {
    String(String),
    ComponentID(i32),
    Fragment(FragmentDiff),
}

/// An update to the whole tree.
#[derive(Debug, PartialEq)]
pub struct RootDiff {
    pub fragment: FragmentDiff,
    pub components: Option<Vec<(String, ComponentDiff)>>,
}

/// The whole tree.
#[derive(Debug, PartialEq)]
pub struct Root {
    pub fragment: Fragment,
    pub components: Option<Vec<(String, Component)>>,
}

/// Why an update cannot be merged.
#[derive(Debug, Clone, Copy, PartialEq, Eq)]
pub enum MergeError {
    FragmentTypeMismatch,
    CreateComponentFromUpdate,
    CreateChildFromUpdateFragment,
    AddChildToExisting,
}

// ---------------------------------------------------------------------------
// The mathematical model.

/// The value of [Statics].
pub enum StaticsV {
    List(Seq<Seq<char>>),
    TemplateRef(i32),
    ComponentRef,
}

/// The value of [Templates].
pub type TemplatesV = Seq<(Seq<char>, Seq<Seq<char>>)>;

/// The value of [Child].
pub enum ChildV {
    Fragment(FragmentV),
    ComponentID(i32),
    Str(Seq<char>),
}

/// The value of [Fragment].
pub enum FragmentV {
    Regular(Seq<(Seq<char>, ChildV)>, StaticsV),
    Comprehension(Seq<Seq<ChildV>>, StaticsV, Option<TemplatesV>),
}

/// The value of [ComponentStatics].
pub enum ComponentStaticsV {
    Statics(Seq<Seq<char>>),
    ComponentRef(i32),
}

/// The value of [Component].
pub struct ComponentV {
    pub children: Seq<(Seq<char>, ChildV)>,
    pub statics: ComponentStaticsV,
}

/// The value of [ChildDiff].
pub enum ChildDiffV {
    Str(Seq<char>),
    ComponentID(i32),
    Fragment(FragmentDiffV),
}

/// The value of [FragmentDiff].
pub enum FragmentDiffV {
    UpdateRegular(Seq<(Seq<char>, ChildDiffV)>),
    ReplaceCurrent(FragmentV),
    UpdateComprehension(Seq<Seq<ChildDiffV>>, Option<TemplatesV>),
}

/// The value of [ComponentDiff].
pub enum ComponentDiffV {
    UpdateRegular(Seq<(Seq<char>, ChildDiffV)>),
    ReplaceCurrent(ComponentV),
}

/// The value of [RootDiff].
pub struct RootDiffV {
    pub fragment: FragmentDiffV,
    pub components: Option<Seq<(Seq<char>, ComponentDiffV)>>,
}

/// The value of [Root].
pub struct RootV {
    pub fragment: FragmentV,
    pub components: Option<Seq<(Seq<char>, ComponentV)>>,
}

pub open spec fn strings_view(s: Seq<String>) -> Seq<Seq<char>> {
    s.map_values(|x: String| x@)
}

pub open spec fn statics_view(s: Statics) -> StaticsV {
    match s {
        Statics::Statics(v) => StaticsV::List(strings_view(v@)),
        Statics::TemplateRef(i) => StaticsV::TemplateRef(i),
        Statics::ComponentRef => StaticsV::ComponentRef,
    }
}

pub open spec fn templates_view(t: Templates) -> TemplatesV {
    t.templates@.map_values(|e: (String, Vec<String>)| (e.0@, strings_view(e.1@)))
}

pub open spec fn opt_templates_view(t: Option<Templates>) -> Option<TemplatesV> {
    match t {
        Some(t) => Some(templates_view(t)),
        None => None,
    }
}

pub open spec fn child_view(c: Child) -> ChildV
    decreases c,
{
    match c {
        Child::Fragment(f) => ChildV::Fragment(fragment_view(f)),
        Child::ComponentID(i) => ChildV::ComponentID(i),
        Child::String(s) => ChildV::Str(s@),
    }
}

pub open spec fn fragment_view(f: Fragment) -> FragmentV
    decreases f,
{
    match f {
        Fragment::Regular(r) => {
            proof { assert(decreases_to!(r.children => r.children@)); }
            FragmentV::Regular(entries_view(r.children@), statics_view(r.statics))
        },
        Fragment::Comprehension(d, s, t) => {
            proof { assert(decreases_to!(d => d@)); }
            FragmentV::Comprehension(rows_view(d@), statics_view(s), opt_templates_view(t))
        },
    }
}

pub open spec fn entries_view(s: Seq<(String, Child)>) -> Seq<(Seq<char>, ChildV)>
    decreases s,
{
    if s.len() == 0 {
        Seq::empty()
    } else {
        proof {
            assert(decreases_to!(s => s[s.len() - 1]));
            assert(decreases_to!(s => s.drop_last()));
        }
        entries_view(s.drop_last()).push((s.last().0@, child_view(s.last().1)))
    }
}

pub open spec fn row_view(s: Seq<Child>) -> Seq<ChildV>
    decreases s,
{
    if s.len() == 0 {
        Seq::empty()
    } else {
        proof {
            assert(decreases_to!(s => s[s.len() - 1]));
            assert(decreases_to!(s => s.drop_last()));
        }
        row_view(s.drop_last()).push(child_view(s.last()))
    }
}

pub open spec fn rows_view(s: Seq<Vec<Child>>) -> Seq<Seq<ChildV>>
    decreases s,
{
    if s.len() == 0 {
        Seq::empty()
    } else {
        proof {
            assert(decreases_to!(s => s[s.len() - 1]));
            assert(decreases_to!(s => s.drop_last()));
            let v = s[s.len() - 1];
            assert(decreases_to!(v => v@));
        }
        rows_view(s.drop_last()).push(row_view(s.last()@))
    }
}

pub open spec fn component_statics_view(s: ComponentStatics) -> ComponentStaticsV {
    match s {
        ComponentStatics::Statics(v) => ComponentStaticsV::Statics(strings_view(v@)),
        ComponentStatics::ComponentRef(i) => ComponentStaticsV::ComponentRef(i),
    }
}

pub open spec fn component_view(c: Component) -> ComponentV {
    ComponentV { children: entries_view(c.children@), statics: component_statics_view(c.statics) }
}

pub open spec fn components_view(s: Seq<(String, Component)>) -> Seq<(Seq<char>, ComponentV)> {
    s.map_values(|e: (String, Component)| (e.0@, component_view(e.1)))
}

pub open spec fn opt_components_view(s: Option<Vec<(String, Component)>>) -> Option<Seq<(Seq<char>, ComponentV)>> {
    match s {
        Some(v) => Some(components_view(v@)),
        None => None,
    }
}

pub open spec fn child_diff_view(c: ChildDiff) -> ChildDiffV
    decreases c,
{
    match c {
        ChildDiff::String(s) => ChildDiffV::Str(s@),
        ChildDiff::ComponentID(i) => ChildDiffV::ComponentID(i),
        ChildDiff::Fragment(f) => ChildDiffV::Fragment(fragment_diff_view(f)),
    }
}

pub open spec fn fragment_diff_view(f: FragmentDiff) -> FragmentDiffV
    decreases f,
{
    match f {
        FragmentDiff::UpdateRegular(u) => {
            proof { assert(decreases_to!(u.children => u.children@)); }
            FragmentDiffV::UpdateRegular(diff_entries_view(u.children@))
        },
        FragmentDiff::ReplaceCurrent(n) => FragmentDiffV::ReplaceCurrent(fragment_view(n)),
        FragmentDiff::UpdateComprehension(u) => {
            proof { assert(decreases_to!(u.dynamics => u.dynamics@)); }
            FragmentDiffV::UpdateComprehension(diff_rows_view(u.dynamics@), opt_templates_view(u.templates))
        },
    }
}

pub open spec fn diff_entries_view(s: Seq<(String, ChildDiff)>) -> Seq<(Seq<char>, ChildDiffV)>
    decreases s,
{
    if s.len() == 0 {
        Seq::empty()
    } else {
        proof {
            assert(decreases_to!(s => s[s.len() - 1]));
            assert(decreases_to!(s => s.drop_last()));
        }
        diff_entries_view(s.drop_last()).push((s.last().0@, child_diff_view(s.last().1)))
    }
}

pub open spec fn diff_row_view(s: Seq<ChildDiff>) -> Seq<ChildDiffV>
    decreases s,
{
    if s.len() == 0 {
        Seq::empty()
    } else {
        proof {
            assert(decreases_to!(s => s[s.len() - 1]));
            assert(decreases_to!(s => s.drop_last()));
        }
        diff_row_view(s.drop_last()).push(child_diff_view(s.last()))
    }
}

pub open spec fn diff_rows_view(s: Seq<Vec<ChildDiff>>) -> Seq<Seq<ChildDiffV>>
    decreases s,
{
    if s.len() == 0 {
        Seq::empty()
    } else {
        proof {
            assert(decreases_to!(s => s[s.len() - 1]));
            assert(decreases_to!(s => s.drop_last()));
            let v = s[s.len() - 1];
            assert(decreases_to!(v => v@));
        }
        diff_rows_view(s.drop_last()).push(diff_row_view(s.last()@))
    }
}

pub open spec fn component_diff_view(c: ComponentDiff) -> ComponentDiffV {
    match c {
        ComponentDiff::UpdateRegular(u) => ComponentDiffV::UpdateRegular(diff_entries_view(u.children@)),
        ComponentDiff::ReplaceCurrent(c) => ComponentDiffV::ReplaceCurrent(component_view(c)),
    }
}

pub open spec fn component_diffs_view(s: Seq<(String, ComponentDiff)>) -> Seq<(Seq<char>, ComponentDiffV)> {
    s.map_values(|e: (String, ComponentDiff)| (e.0@, component_diff_view(e.1)))
}

pub open spec fn root_view(r: Root) -> RootV {
    RootV { fragment: fragment_view(r.fragment), components: opt_components_view(r.components) }
}

pub open spec fn root_diff_view(r: RootDiff) -> RootDiffV {
    RootDiffV {
        fragment: fragment_diff_view(r.fragment),
        components: match r.components {
            Some(v) => Some(component_diffs_view(v@)),
            None => None,
        },
    }
}

impl View for RootDiff {
    type V = RootDiffV;

    open spec fn view(&self) -> RootDiffV {
        root_diff_view(*self)
    }
}

impl View for Child {
    type V = ChildV;

    open spec fn view(&self) -> ChildV {
        child_view(*self)
    }
}

impl View for Fragment {
    type V = FragmentV;

    open spec fn view(&self) -> FragmentV {
        fragment_view(*self)
    }
}

impl View for Component {
    type V = ComponentV;

    open spec fn view(&self) -> ComponentV {
        component_view(*self)
    }
}

impl View for ChildDiff {
    type V = ChildDiffV;

    open spec fn view(&self) -> ChildDiffV {
        child_diff_view(*self)
    }
}

impl View for FragmentDiff {
    type V = FragmentDiffV;

    open spec fn view(&self) -> FragmentDiffV {
        fragment_diff_view(*self)
    }
}

impl View for ComponentDiff {
    type V = ComponentDiffV;

    open spec fn view(&self) -> ComponentDiffV {
        component_diff_view(*self)
    }
}

impl View for Root {
    type V = RootV;

    open spec fn view(&self) -> RootV {
        root_view(*self)
    }
}

// ---------------------------------------------------------------------------
// The views of sequences, element by element.

proof fn lemma_entries_view(s: Seq<(String, Child)>)
    ensures
        entries_view(s).len() == s.len(),
        forall|i: int| 0 <= i < s.len() ==> #[trigger] entries_view(s)[i] == (s[i].0@, child_view(s[i].1)),
    decreases s.len(),
{
    if s.len() > 0 {
        lemma_entries_view(s.drop_last());
    }
}

proof fn lemma_row_view(s: Seq<Child>)
    ensures
        row_view(s).len() == s.len(),
        forall|i: int| 0 <= i < s.len() ==> #[trigger] row_view(s)[i] == child_view(s[i]),
    decreases s.len(),
{
    if s.len() > 0 {
        lemma_row_view(s.drop_last());
    }
}

proof fn lemma_rows_view(s: Seq<Vec<Child>>)
    ensures
        rows_view(s).len() == s.len(),
        forall|i: int| 0 <= i < s.len() ==> #[trigger] rows_view(s)[i] == row_view(s[i]@),
    decreases s.len(),
{
    if s.len() > 0 {
        lemma_rows_view(s.drop_last());
    }
}

proof fn lemma_diff_entries_view(s: Seq<(String, ChildDiff)>)
    ensures
        diff_entries_view(s).len() == s.len(),
        forall|i: int| 0 <= i < s.len() ==> #[trigger] diff_entries_view(s)[i] == (s[i].0@, child_diff_view(s[i].1)),
    decreases s.len(),
{
    if s.len() > 0 {
        lemma_diff_entries_view(s.drop_last());
    }
}

proof fn lemma_diff_row_view(s: Seq<ChildDiff>)
    ensures
        diff_row_view(s).len() == s.len(),
        forall|i: int| 0 <= i < s.len() ==> #[trigger] diff_row_view(s)[i] == child_diff_view(s[i]),
    decreases s.len(),
{
    if s.len() > 0 {
        lemma_diff_row_view(s.drop_last());
    }
}

proof fn lemma_diff_rows_view(s: Seq<Vec<ChildDiff>>)
    ensures
        diff_rows_view(s).len() == s.len(),
        forall|i: int| 0 <= i < s.len() ==> #[trigger] diff_rows_view(s)[i] == diff_row_view(s[i]@),
    decreases s.len(),
{
    if s.len() > 0 {
        lemma_diff_rows_view(s.drop_last());
    }
}

// ---------------------------------------------------------------------------
// Deep copies.

fn clone_strings(v: &Vec<String>) -> (r: Vec<String>)
    ensures
        strings_view(r@) == strings_view(v@),
{
    let mut out: Vec<String> = Vec::new();
    let mut i: usize = 0;
    while i < v.len()
        invariant
            i <= v.len(),
            strings_view(out@) =~= strings_view(v@).take(i as int),
        decreases v.len() - i,
    {
        let ghost before = out@;
        out.push(v[i].clone());
        assert(strings_view(out@) =~= strings_view(before).push(v@[i as int]@));
        assert(strings_view(v@).take(i + 1) =~= strings_view(v@).take(i as int).push(v@[i as int]@));
        i = i + 1;
    }
    out
}

fn clone_statics(s: &Statics) -> (r: Statics)
    ensures
        statics_view(r) == statics_view(*s),
{
    match s {
        Statics::Statics(v) => Statics::Statics(clone_strings(v)),
        Statics::TemplateRef(i) => Statics::TemplateRef(*i),
        Statics::ComponentRef => Statics::ComponentRef,
    }
}

fn clone_templates(t: &Templates) -> (r: Templates)
    ensures
        templates_view(r) == templates_view(*t),
{
    let mut out: Vec<(String, Vec<String>)> = Vec::new();
    let mut i: usize = 0;
    while i < t.templates.len()
        invariant
            i <= t.templates.len(),
            templates_view(Templates { templates: out }) =~= templates_view(*t).take(i as int),
        decreases t.templates.len() - i,
    {
        let e = (t.templates[i].0.clone(), clone_strings(&t.templates[i].1));
        let ghost before = out@;
        out.push(e);
        let ghost f = |e: (String, Vec<String>)| (e.0@, strings_view(e.1@));
        assert(out@.map_values(f) =~= before.map_values(f).push(f(e)));
        assert(t.templates@.map_values(f).take(i + 1) =~= t.templates@.map_values(f).take(i as int).push(f(t.templates@[i as int])));
        i = i + 1;
    }
    Templates { templates: out }
}

fn clone_opt_templates(t: &Option<Templates>) -> (r: Option<Templates>)
    ensures
        opt_templates_view(r) == opt_templates_view(*t),
{
    match t {
        Some(t) => Some(clone_templates(t)),
        None => None,
    }
}

fn clone_child(c: &Child) -> (r: Child)
    ensures
        child_view(r) == child_view(*c),
    decreases c,
{
    match c {
        Child::Fragment(f) => Child::Fragment(clone_fragment(f)),
        Child::ComponentID(i) => Child::ComponentID(*i),
        Child::String(s) => Child::String(s.clone()),
    }
}

fn clone_fragment(f: &Fragment) -> (r: Fragment)
    ensures
        fragment_view(r) == fragment_view(*f),
    decreases f,
{
    match f {
        Fragment::Regular(r) => Fragment::Regular(RegularFragment {
            children: clone_entries(&r.children),
            statics: clone_statics(&r.statics),
        }),
        Fragment::Comprehension(d, s, t) => Fragment::Comprehension(clone_rows(d), clone_statics(s), clone_opt_templates(t)),
    }
}

fn clone_entries(v: &Vec<(String, Child)>) -> (r: Vec<(String, Child)>)
    ensures
        entries_view(r@) == entries_view(v@),
    decreases v,
{
    let mut out: Vec<(String, Child)> = Vec::new();
    let mut i: usize = 0;
    proof { lemma_entries_view(v@); }
    while i < v.len()
        invariant
            i <= v.len(),
            entries_view(out@) =~= entries_view(v@).take(i as int),
            entries_view(v@).len() == v.len(),
            forall|j: int| 0 <= j < v.len() ==> #[trigger] entries_view(v@)[j] == (v@[j].0@, child_view(v@[j].1)),
        decreases v.len() - i,
    {
        proof { assert(decreases_to!(v => v@[i as int].1)); }
        let c = clone_child(&v[i].1);
        let ghost before = out@;
        out.push((v[i].0.clone(), c));
        proof {
            lemma_entries_view(before);
            lemma_entries_view(out@);
            assert(entries_view(out@) =~= entries_view(before).push((v@[i as int].0@, child_view(v@[i as int].1))));
        }
        i = i + 1;
    }
    out
}

fn clone_row(v: &Vec<Child>) -> (r: Vec<Child>)
    ensures
        row_view(r@) == row_view(v@),
    decreases v,
{
    let mut out: Vec<Child> = Vec::new();
    let mut i: usize = 0;
    proof { lemma_row_view(v@); }
    while i < v.len()
        invariant
            i <= v.len(),
            row_view(out@) =~= row_view(v@).take(i as int),
            row_view(v@).len() == v.len(),
            forall|j: int| 0 <= j < v.len() ==> #[trigger] row_view(v@)[j] == child_view(v@[j]),
        decreases v.len() - i,
    {
        proof { assert(decreases_to!(v => v@[i as int])); }
        let c = clone_child(&v[i]);
        let ghost before = out@;
        out.push(c);
        proof {
            lemma_row_view(before);
            lemma_row_view(out@);
            assert(row_view(out@) =~= row_view(before).push(child_view(v@[i as int])));
        }
        i = i + 1;
    }
    out
}

fn clone_rows(v: &Vec<Vec<Child>>) -> (r: Vec<Vec<Child>>)
    ensures
        rows_view(r@) == rows_view(v@),
    decreases v,
{
    let mut out: Vec<Vec<Child>> = Vec::new();
    let mut i: usize = 0;
    proof { lemma_rows_view(v@); }
    while i < v.len()
        invariant
            i <= v.len(),
            rows_view(out@) =~= rows_view(v@).take(i as int),
            rows_view(v@).len() == v.len(),
            forall|j: int| 0 <= j < v.len() ==> #[trigger] rows_view(v@)[j] == row_view(v@[j]@),
        decreases v.len() - i,
    {
        proof { assert(decreases_to!(v => v@[i as int])); }
        let c = clone_row(&v[i]);
        let ghost before = out@;
        out.push(c);
        proof {
            lemma_rows_view(before);
            lemma_rows_view(out@);
            assert(rows_view(out@) =~= rows_view(before).push(row_view(v@[i as int]@)));
        }
        i = i + 1;
    }
    out
}

impl Clone for Child {
    fn clone(&self) -> (r: Self)
        ensures
            r@ == self@,
    {
        clone_child(self)
    }
}

impl Clone for Fragment {
    fn clone(&self) -> (r: Self)
        ensures
            r@ == self@,
    {
        clone_fragment(self)
    }
}

fn clone_component(c: &Component) -> (r: Component)
    ensures
        r@ == c@,
{
    let statics = match &c.statics {
        ComponentStatics::Statics(v) => ComponentStatics::Statics(clone_strings(v)),
        ComponentStatics::ComponentRef(i) => ComponentStatics::ComponentRef(*i),
    };
    Component { children: clone_entries(&c.children), statics }
}

impl Clone for Component {
    fn clone(&self) -> (r: Self)
        ensures
            r@ == self@,
    {
        clone_component(self)
    }
}

impl Clone for RegularFragment {
    fn clone(&self) -> (r: Self)
        ensures
            entries_view(r.children@) == entries_view(self.children@),
            statics_view(r.statics) == statics_view(self.statics),
    {
        RegularFragment { children: clone_entries(&self.children), statics: clone_statics(&self.statics) }
    }
}

// ---------------------------------------------------------------------------
// Merging, on the model.

/// A node built from an update: only a whole fragment makes a new fragment.
pub open spec fn child_from_diff(d: ChildDiffV) -> Result<ChildV, MergeError> {
    match d {
        ChildDiffV::Str(s) => Ok(ChildV::Str(s)),
        ChildDiffV::ComponentID(c) => Ok(ChildV::ComponentID(c)),
        ChildDiffV::Fragment(FragmentDiffV::ReplaceCurrent(f)) => Ok(ChildV::Fragment(f)),
        ChildDiffV::Fragment(_) => Err(MergeError::CreateChildFromUpdateFragment),
    }
}

/// A row of nodes built from updates; the first failure is the error.
pub open spec fn row_from_diff(s: Seq<ChildDiffV>) -> Result<Seq<ChildV>, MergeError>
    decreases s.len(),
{
    if s.len() == 0 {
        Ok(Seq::empty())
    } else {
        match row_from_diff(s.drop_last()) {
            Err(e) => Err(e),
            Ok(acc) => match child_from_diff(s.last()) {
                Ok(c) => Ok(acc.push(c)),
                Err(e) => Err(e),
            },
        }
    }
}

/// Rows of nodes built from updates; the first failure is the error.
pub open spec fn rows_from_diff(s: Seq<Seq<ChildDiffV>>) -> Result<Seq<Seq<ChildV>>, MergeError>
    decreases s.len(),
{
    if s.len() == 0 {
        Ok(Seq::empty())
    } else {
        match rows_from_diff(s.drop_last()) {
            Err(e) => Err(e),
            Ok(acc) => match row_from_diff(s.last()) {
                Ok(r) => Ok(acc.push(r)),
                Err(e) => Err(e),
            },
        }
    }
}

/// A component whose negative reference to another component is made
/// positive.
pub open spec fn fixed_statics(c: ComponentV) -> ComponentV {
    match c.statics {
        ComponentStaticsV::ComponentRef(cid) => if cid < 0 {
            ComponentV { children: c.children, statics: ComponentStaticsV::ComponentRef((-cid) as i32) }
        } else {
            c
        },
        _ => c,
    }
}

/// Whether the reference of a component can be made positive: it is not the
/// least `i32`, whose negation overflows.
pub open spec fn fixable(c: ComponentV) -> bool {
    c.statics != ComponentStaticsV::ComponentRef(i32::MIN)
}

/// Whether a component update can be applied without overflow.
pub open spec fn diff_fixable(d: ComponentDiffV) -> bool {
    match d {
        ComponentDiffV::ReplaceCurrent(c) => fixable(c),
        ComponentDiffV::UpdateRegular(_) => true,
    }
}

/// Whether every component update of a list can be applied without overflow.
pub open spec fn diffs_fixable(s: Seq<(Seq<char>, ComponentDiffV)>) -> bool {
    forall|i: int| 0 <= i < s.len() ==> diff_fixable(#[trigger] s[i].1)
}

/// A component built from an update: only a whole component does.
pub open spec fn component_from_diff(d: ComponentDiffV) -> Result<ComponentV, MergeError> {
    match d {
        ComponentDiffV::UpdateRegular(_) => Err(MergeError::CreateComponentFromUpdate),
        ComponentDiffV::ReplaceCurrent(c) => Ok(fixed_statics(c)),
    }
}

/// Templates with those of `n` added: the parts of a template that exists
/// already are extended, a new one is stored.
pub open spec fn extend_templates(c: TemplatesV, n: TemplatesV) -> TemplatesV
    decreases n.len(),
{
    if n.len() == 0 {
        c
    } else {
        extend_template(extend_templates(c, n.drop_last()), n.last().0, n.last().1)
    }
}

/// Templates with the parts `v` added under `k`: appended to those of an
/// existing template, or stored as a new one.
pub open spec fn extend_template(acc: TemplatesV, k: Seq<char>, v: Seq<Seq<char>>) -> TemplatesV {
    match find_key(acc, k) {
        Some(i) => acc.update(i, (k, acc[i].1 + v)),
        None => acc.push((k, v)),
    }
}

/// The merge of optional templates.
pub open spec fn merge_templates(cur: Option<TemplatesV>, new: Option<TemplatesV>) -> Option<TemplatesV> {
    match (cur, new) {
        (None, None) => None,
        (None, Some(t)) => Some(t),
        (Some(t), None) => Some(t),
        (Some(c), Some(n)) => Some(extend_templates(c, n)),
    }
}

/// The merge of an update into a node.
pub open spec fn merge_child(c: ChildV, d: ChildDiffV) -> Result<ChildV, MergeError>
    decreases d,
{
    match (c, d) {
        (ChildV::Fragment(f), ChildDiffV::Fragment(fd)) => match merge_fragment(f, fd) {
            Ok(m) => Ok(ChildV::Fragment(m)),
            Err(e) => Err(e),
        },
        (_, ChildDiffV::Str(s)) => Ok(ChildV::Str(s)),
        (_, ChildDiffV::ComponentID(cid)) => Ok(ChildV::ComponentID(cid)),
        (_, ChildDiffV::Fragment(FragmentDiffV::ReplaceCurrent(f))) => Ok(ChildV::Fragment(f)),
        (_, ChildDiffV::Fragment(_)) => Err(MergeError::CreateChildFromUpdateFragment),
    }
}

/// The merge of keyed updates into keyed children, in order: each key must
/// exist already.
pub open spec fn merge_children(cur: Seq<(Seq<char>, ChildV)>, diffs: Seq<(Seq<char>, ChildDiffV)>) -> Result<Seq<(Seq<char>, ChildV)>, MergeError>
    decreases diffs,
{
    if diffs.len() == 0 {
        Ok(cur)
    } else {
        proof {
            assert(decreases_to!(diffs => diffs[diffs.len() - 1]));
            assert(decreases_to!(diffs => diffs.drop_last()));
        }
        match merge_children(cur, diffs.drop_last()) {
            Err(e) => Err(e),
            Ok(acc) => {
                let (k, d) = diffs.last();
                match find_key(acc, k) {
                    None => Err(MergeError::AddChildToExisting),
                    Some(i) => match merge_child(acc[i].1, d) {
                        Ok(m) => Ok(acc.update(i, (k, m))),
                        Err(e) => Err(e),
                    },
                }
            },
        }
    }
}

/// The merge of an update into a fragment.
pub open spec fn merge_fragment(f: FragmentV, d: FragmentDiffV) -> Result<FragmentV, MergeError>
    decreases d,
{
    match (f, d) {
        (_, FragmentDiffV::ReplaceCurrent(n)) => Ok(n),
        (FragmentV::Regular(children, statics), FragmentDiffV::UpdateRegular(diffs)) => match merge_children(children, diffs) {
            Ok(c) => Ok(FragmentV::Regular(c, statics)),
            Err(e) => Err(e),
        },
        (FragmentV::Comprehension(_, statics, templates), FragmentDiffV::UpdateComprehension(dynamics, new_templates)) => {
            match rows_from_diff(dynamics) {
                Ok(rows) => Ok(FragmentV::Comprehension(rows, statics, merge_templates(templates, new_templates))),
                Err(e) => Err(e),
            }
        },
        _ => Err(MergeError::FragmentTypeMismatch),
    }
}

/// The merge of an update into a component.
pub open spec fn merge_component(c: ComponentV, d: ComponentDiffV) -> Result<ComponentV, MergeError> {
    match d {
        ComponentDiffV::UpdateRegular(diffs) => match merge_children(c.children, diffs) {
            Ok(children) => Ok(ComponentV { children, statics: c.statics }),
            Err(e) => Err(e),
        },
        ComponentDiffV::ReplaceCurrent(n) => Ok(fixed_statics(n)),
    }
}

/// The components that keyed updates describe, in order, starting from none:
/// a key seen before merges its update into the component built so far.
pub open spec fn merge_components(diffs: Seq<(Seq<char>, ComponentDiffV)>) -> Result<Seq<(Seq<char>, ComponentV)>, MergeError>
    decreases diffs.len(),
{
    if diffs.len() == 0 {
        Ok(Seq::empty())
    } else {
        match merge_components(diffs.drop_last()) {
            Err(e) => Err(e),
            Ok(acc) => {
                let (k, d) = diffs.last();
                match find_key(acc, k) {
                    Some(i) => match merge_component(acc[i].1, d) {
                        Ok(m) => Ok(acc.update(i, (k, m))),
                        Err(e) => Err(e),
                    },
                    None => match component_from_diff(d) {
                        Ok(m) => Ok(acc.push((k, m))),
                        Err(e) => Err(e),
                    },
                }
            },
        }
    }
}

/// The components that keyed updates build, in order; a later update of a
/// key replaces the component stored under it.
pub open spec fn components_from_diff(diffs: Seq<(Seq<char>, ComponentDiffV)>) -> Result<Seq<(Seq<char>, ComponentV)>, MergeError>
    decreases diffs.len(),
{
    if diffs.len() == 0 {
        Ok(Seq::empty())
    } else {
        match components_from_diff(diffs.drop_last()) {
            Err(e) => Err(e),
            Ok(acc) => {
                let (k, d) = diffs.last();
                match component_from_diff(d) {
                    Ok(m) => Ok(match find_key(acc, k) {
                        Some(i) => acc.update(i, (k, m)),
                        None => acc.push((k, m)),
                    }),
                    Err(e) => Err(e),
                }
            },
        }
    }
}

/// The merge of an update into the whole tree.
pub open spec fn merge_root(r: RootV, d: RootDiffV) -> Result<RootV, MergeError> {
    match merge_fragment(r.fragment, d.fragment) {
        Err(e) => Err(e),
        Ok(fragment) => match (r.components, d.components) {
            (None, None) => Ok(RootV { fragment, components: None }),
            (None, Some(cd)) => match components_from_diff(cd) {
                Ok(c) => Ok(RootV { fragment, components: Some(c) }),
                Err(e) => Err(e),
            },
            (Some(c), None) => Ok(RootV { fragment, components: Some(c) }),
            (Some(_), Some(cd)) => match merge_components(cd) {
                Ok(c) => Ok(RootV { fragment, components: Some(c) }),
                Err(e) => Err(e),
            },
        },
    }
}

// ---------------------------------------------------------------------------
// Merging.

pub open spec fn result_child_view(r: Result<Child, MergeError>) -> Result<ChildV, MergeError> {
    match r {
        Ok(c) => Ok(c@),
        Err(e) => Err(e),
    }
}

pub open spec fn result_fragment_view(r: Result<Fragment, MergeError>) -> Result<FragmentV, MergeError> {
    match r {
        Ok(f) => Ok(f@),
        Err(e) => Err(e),
    }
}

pub open spec fn result_entries_view(r: Result<Vec<(String, Child)>, MergeError>) -> Result<Seq<(Seq<char>, ChildV)>, MergeError> {
    match r {
        Ok(v) => Ok(entries_view(v@)),
        Err(e) => Err(e),
    }
}

pub open spec fn result_row_view(r: Result<Vec<Child>, MergeError>) -> Result<Seq<ChildV>, MergeError> {
    match r {
        Ok(v) => Ok(row_view(v@)),
        Err(e) => Err(e),
    }
}

pub open spec fn result_rows_view(r: Result<Vec<Vec<Child>>, MergeError>) -> Result<Seq<Seq<ChildV>>, MergeError> {
    match r {
        Ok(v) => Ok(rows_view(v@)),
        Err(e) => Err(e),
    }
}

pub open spec fn result_component_view(r: Result<Component, MergeError>) -> Result<ComponentV, MergeError> {
    match r {
        Ok(c) => Ok(c@),
        Err(e) => Err(e),
    }
}

pub open spec fn result_components_view(r: Result<Vec<(String, Component)>, MergeError>) -> Result<Seq<(Seq<char>, ComponentV)>, MergeError> {
    match r {
        Ok(v) => Ok(components_view(v@)),
        Err(e) => Err(e),
    }
}

pub open spec fn result_root_view(r: Result<Root, MergeError>) -> Result<RootV, MergeError> {
    match r {
        Ok(v) => Ok(v@),
        Err(e) => Err(e),
    }
}

impl ChildDiff {
    /// A node built from this update: only a whole fragment makes a new
    /// fragment.
    pub fn to_new_child(self) -> (r: Result<Child, MergeError>)
        ensures
            result_child_view(r) == child_from_diff(self@),
    {
        match self {
            ChildDiff::String(s) => Ok(Child::String(s)),
            ChildDiff::ComponentID(cid) => Ok(Child::ComponentID(cid)),
            ChildDiff::Fragment(FragmentDiff::ReplaceCurrent(f)) => Ok(Child::Fragment(f)),
            ChildDiff::Fragment(_) => Err(MergeError::CreateChildFromUpdateFragment),
        }
    }
}

impl Component {
    /// The component with a negative reference to another component made
    /// positive.
    pub fn fix_statics(self) -> (r: Self)
        requires
            fixable(self@),
        ensures
            r@ == fixed_statics(self@),
    {
        let neg = match &self.statics {
            ComponentStatics::ComponentRef(cid) => *cid < 0,
            ComponentStatics::Statics(_) => false,
        };
        if neg {
            match self.statics {
                ComponentStatics::ComponentRef(cid) => Component { children: self.children, statics: ComponentStatics::ComponentRef(-cid) },
                ComponentStatics::Statics(v) => Component { children: self.children, statics: ComponentStatics::Statics(v) },
            }
        } else {
            self
        }
    }
}

impl ComponentDiff {
    /// A component built from this update: only a whole component does.
    pub fn to_new_component(self) -> (r: Result<Component, MergeError>)
        requires
            diff_fixable(self@),
        ensures
            result_component_view(r) == component_from_diff(self@),
    {
        match self {
            ComponentDiff::UpdateRegular(_) => Err(MergeError::CreateComponentFromUpdate),
            ComponentDiff::ReplaceCurrent(c) => Ok(c.fix_statics()),
        }
    }
}

proof fn lemma_diff_row_take(v: Seq<ChildDiff>, i: int)
    requires
        0 <= i < v.len(),
    ensures
        diff_row_view(v.take(i + 1)) == diff_row_view(v.take(i)).push(child_diff_view(v[i])),
{
    assert(v.take(i + 1).drop_last() =~= v.take(i));
}

proof fn lemma_diff_rows_take(v: Seq<Vec<ChildDiff>>, i: int)
    requires
        0 <= i < v.len(),
    ensures
        diff_rows_view(v.take(i + 1)) == diff_rows_view(v.take(i)).push(diff_row_view(v[i]@)),
{
    assert(v.take(i + 1).drop_last() =~= v.take(i));
}

proof fn lemma_row_from_diff_err(v: Seq<ChildDiff>, i: int, e: MergeError)
    requires
        0 <= i <= v.len(),
        row_from_diff(diff_row_view(v.take(i))) == Err::<Seq<ChildV>, MergeError>(e),
    ensures
        row_from_diff(diff_row_view(v)) == Err::<Seq<ChildV>, MergeError>(e),
    decreases v.len() - i,
{
    if i < v.len() {
        lemma_diff_row_take(v, i);
        let s = diff_row_view(v.take(i + 1));
        assert(s.drop_last() =~= diff_row_view(v.take(i)));
        lemma_row_from_diff_err(v, i + 1, e);
    } else {
        assert(v.take(i) =~= v);
    }
}

proof fn lemma_rows_from_diff_err(v: Seq<Vec<ChildDiff>>, i: int, e: MergeError)
    requires
        0 <= i <= v.len(),
        rows_from_diff(diff_rows_view(v.take(i))) == Err::<Seq<Seq<ChildV>>, MergeError>(e),
    ensures
        rows_from_diff(diff_rows_view(v)) == Err::<Seq<Seq<ChildV>>, MergeError>(e),
    decreases v.len() - i,
{
    if i < v.len() {
        lemma_diff_rows_take(v, i);
        let s = diff_rows_view(v.take(i + 1));
        assert(s.drop_last() =~= diff_rows_view(v.take(i)));
        lemma_rows_from_diff_err(v, i + 1, e);
    } else {
        assert(v.take(i) =~= v);
    }
}

/// A row of nodes built from updates.
fn row_from_diff_exec(v: Vec<ChildDiff>) -> (r: Result<Vec<Child>, MergeError>)
    ensures
        result_row_view(r) == row_from_diff(diff_row_view(v@)),
{
    let ghost orig = v@;
    let n = v.len();
    let mut rest = v;
    let mut acc: Vec<Child> = Vec::new();
    let mut i: usize = 0;
    while i < n
        invariant
            n == orig.len(),
            orig == v@,
            i <= n,
            rest@ == orig.skip(i as int),
            row_from_diff(diff_row_view(orig.take(i as int))) == Ok::<_, MergeError>(row_view(acc@)),
        decreases n - i,
    {
        let d = rest.remove(0);
        proof {
            assert(orig[i as int] == d);
            lemma_diff_row_take(orig, i as int);
            let s = diff_row_view(orig.take(i + 1));
            assert(s.drop_last() =~= diff_row_view(orig.take(i as int)));
        }
        let c = match d.to_new_child() {
            Ok(c) => c,
            Err(e) => {
                proof { lemma_row_from_diff_err(orig, i as int + 1, e); }
                return Err(e);
            },
        };
        let ghost before = acc@;
        acc.push(c);
        proof {
            lemma_row_view(before);
            lemma_row_view(acc@);
            assert(row_view(acc@) =~= row_view(before).push(child_view(c)));
        }
        i = i + 1;
        assert(rest@ =~= orig.skip(i as int));
    }
    assert(orig.take(n as int) =~= orig);
    Ok(acc)
}

/// Rows of nodes built from updates.
fn rows_from_diff_exec(v: Vec<Vec<ChildDiff>>) -> (r: Result<Vec<Vec<Child>>, MergeError>)
    ensures
        result_rows_view(r) == rows_from_diff(diff_rows_view(v@)),
{
    let ghost orig = v@;
    let n = v.len();
    let mut rest = v;
    let mut acc: Vec<Vec<Child>> = Vec::new();
    let mut i: usize = 0;
    while i < n
        invariant
            n == orig.len(),
            orig == v@,
            i <= n,
            rest@ == orig.skip(i as int),
            rows_from_diff(diff_rows_view(orig.take(i as int))) == Ok::<_, MergeError>(rows_view(acc@)),
        decreases n - i,
    {
        let d = rest.remove(0);
        proof {
            assert(orig[i as int] == d);
            lemma_diff_rows_take(orig, i as int);
            let s = diff_rows_view(orig.take(i + 1));
            assert(s.drop_last() =~= diff_rows_view(orig.take(i as int)));
        }
        let c = match row_from_diff_exec(d) {
            Ok(c) => c,
            Err(e) => {
                proof { lemma_rows_from_diff_err(orig, i as int + 1, e); }
                return Err(e);
            },
        };
        let ghost before = acc@;
        acc.push(c);
        proof {
            lemma_rows_view(before);
            lemma_rows_view(acc@);
            assert(rows_view(acc@) =~= rows_view(before).push(row_view(c@)));
        }
        i = i + 1;
        assert(rest@ =~= orig.skip(i as int));
    }
    assert(orig.take(n as int) =~= orig);
    Ok(acc)
}

/// Keys of keyed children and of their views agree.
proof fn lemma_keys_entries(s: Seq<(String, Child)>, k: Seq<char>)
    ensures
        find_key(keys_of(s), k) == find_key(entries_view(s), k),
{
    lemma_entries_view(s);
    assert forall|i: int| 0 <= i < s.len() implies #[trigger] keys_of(s)[i].0 == entries_view(s)[i].0 by {}
    lemma_find_key_keys(keys_of(s), entries_view(s), k);
}

/// Keys of keyed components and of their views agree.
proof fn lemma_keys_components(s: Seq<(String, Component)>, k: Seq<char>)
    ensures
        find_key(keys_of(s), k) == find_key(components_view(s), k),
{
    assert forall|i: int| 0 <= i < s.len() implies #[trigger] keys_of(s)[i].0 == components_view(s)[i].0 by {}
    lemma_find_key_keys(keys_of(s), components_view(s), k);
}

/// Keys of templates and of their views agree.
proof fn lemma_keys_templates(t: Templates, k: Seq<char>)
    ensures
        find_key(keys_of(t.templates@), k) == find_key(templates_view(t), k),
{
    let s = t.templates@;
    assert forall|i: int| 0 <= i < s.len() implies #[trigger] keys_of(s)[i].0 == templates_view(t)[i].0 by {}
    lemma_find_key_keys(keys_of(s), templates_view(t), k);
}

/// The merge of an update into a node.
fn merge_child_exec(c: Child, d: ChildDiff) -> (r: Result<Child, MergeError>)
    ensures
        result_child_view(r) == merge_child(c@, d@),
    decreases d,
{
    match d {
        ChildDiff::Fragment(fd) => match c {
            Child::Fragment(f) => match merge_fragment_exec(f, fd) {
                Ok(m) => Ok(Child::Fragment(m)),
                Err(e) => Err(e),
            },
            _ => match fd {
                FragmentDiff::ReplaceCurrent(f) => Ok(Child::Fragment(f)),
                _ => Err(MergeError::CreateChildFromUpdateFragment),
            },
        },
        ChildDiff::String(s) => Ok(Child::String(s)),
        ChildDiff::ComponentID(cid) => Ok(Child::ComponentID(cid)),
    }
}

proof fn lemma_merge_children_err(cur: Seq<(Seq<char>, ChildV)>, ds: Seq<(Seq<char>, ChildDiffV)>, i: int, e: MergeError)
    requires
        0 <= i <= ds.len(),
        merge_children(cur, ds.take(i)) == Err::<Seq<(Seq<char>, ChildV)>, MergeError>(e),
    ensures
        merge_children(cur, ds) == Err::<Seq<(Seq<char>, ChildV)>, MergeError>(e),
    decreases ds.len() - i,
{
    if i < ds.len() {
        assert(ds.take(i + 1).drop_last() =~= ds.take(i));
        lemma_merge_children_err(cur, ds, i + 1, e);
    } else {
        assert(ds.take(i) =~= ds);
    }
}

/// The merge of keyed updates into keyed children, in order.
#[verifier::rlimit(80)]
fn merge_children_exec(cur: Vec<(String, Child)>, diffs: Vec<(String, ChildDiff)>) -> (r: Result<Vec<(String, Child)>, MergeError>)
    ensures
        result_entries_view(r) == merge_children(entries_view(cur@), diff_entries_view(diffs@)),
    decreases diffs,
{
    let ghost orig = diffs@;
    let ghost ds = diff_entries_view(orig);
    let ghost cv = entries_view(cur@);
    proof { lemma_diff_entries_view(orig); }
    let n = diffs.len();
    let mut rest = diffs;
    let mut acc = cur;
    let mut i: usize = 0;
    assert(ds.take(0) =~= Seq::<(Seq<char>, ChildDiffV)>::empty());
    while i < n
        invariant
            n == orig.len(),
            orig == diffs@,
            ds == diff_entries_view(orig),
            ds.len() == n,
            cv == entries_view(cur@),
            forall|j: int| 0 <= j < n ==> #[trigger] ds[j] == (orig[j].0@, child_diff_view(orig[j].1)),
            i <= n,
            rest@ == orig.skip(i as int),
            merge_children(cv, ds.take(i as int)) == Ok::<_, MergeError>(entries_view(acc@)),
            forall|j: int| 0 <= j < n ==> decreases_to!(diffs => #[trigger] orig[j].1),
        decreases n - i,
    {
        proof {
            assert(decreases_to!(diffs => diffs@));
        }
        let (k, d) = rest.remove(0);
        proof {
            assert(orig[i as int] == (k, d));
            assert(ds.take(i + 1).drop_last() =~= ds.take(i as int));
            lemma_keys_entries(acc@, k@);
            lemma_entries_view(acc@);
            lemma_find_key(entries_view(acc@), k@);
        }
        match find_entry(&acc, &k) {
            Some(p) => {
                let c = clone_child(&acc[p].1);
                let m = match merge_child_exec(c, d) {
                    Ok(m) => m,
                    Err(e) => {
                        proof { lemma_merge_children_err(cv, ds, i + 1, e); }
                        return Err(e);
                    },
                };
                let ghost before = acc@;
                acc.set(p, (k, m));
                proof {
                    lemma_entries_view(acc@);
                    assert(entries_view(acc@) =~= entries_view(before).update(p as int, (k@, child_view(m))));
                }
            },
            None => {
                proof { lemma_merge_children_err(cv, ds, i + 1, MergeError::AddChildToExisting); }
                return Err(MergeError::AddChildToExisting);
            },
        }
        i = i + 1;
        assert(rest@ =~= orig.skip(i as int));
    }
    assert(ds.take(n as int) =~= ds);
    Ok(acc)
}

/// Adds the parts `v` under `k`.
#[verifier::rlimit(50)]
fn extend_template_exec(acc: &mut Vec<(String, Vec<String>)>, k: String, v: Vec<String>)
    ensures
        templates_view(Templates { templates: *final(acc) }) == extend_template(templates_view(Templates { templates: *old(acc) }), k@, strings_view(v@)),
{
    let ghost before = acc@;
    let ghost bv = templates_view(Templates { templates: *acc });
    proof {
        lemma_keys_templates(Templates { templates: *acc }, k@);
        lemma_find_key(keys_of(acc@), k@);
    }
    let mut v = v;
    let ghost vv = v@;
    match find_entry(acc, &k) {
        Some(p) => {
            let mut parts = clone_strings(&acc[p].1);
            let ghost old_parts = parts@;
            parts.append(&mut v);
            acc.set(p, (k, parts));
            proof {
                assert(strings_view(parts@) =~= strings_view(old_parts) + strings_view(vv));
                assert(templates_view(Templates { templates: *acc }) =~= bv.update(p as int, (k@, bv[p as int].1 + strings_view(vv))));
            }
        },
        None => {
            acc.push((k, v));
            proof {
                assert(templates_view(Templates { templates: *acc }) =~= bv.push((k@, strings_view(vv))));
            }
        },
    }
}

/// Templates with those of `n` added.
fn extend_templates_exec(c: Templates, n: Templates) -> (r: Templates)
    ensures
        templates_view(r) == extend_templates(templates_view(c), templates_view(n)),
{
    let ghost cv = templates_view(c);
    let ghost nv = templates_view(n);
    let ghost orig = n.templates@;
    let len = n.templates.len();
    let mut acc = c.templates;
    let mut rest = n.templates;
    let mut i: usize = 0;
    assert(nv.take(0) =~= Seq::<(Seq<char>, Seq<Seq<char>>)>::empty());
    while i < len
        invariant
            len == orig.len(),
            nv == templates_view(n),
            orig == n.templates@,
            i <= len,
            rest@ == orig.skip(i as int),
            templates_view(Templates { templates: acc }) == extend_templates(cv, nv.take(i as int)),
        decreases len - i,
    {
        let (k, v) = rest.remove(0);
        proof {
            assert(orig[i as int] == (k, v));
            assert(nv.take(i + 1).drop_last() =~= nv.take(i as int));
            assert(nv.take(i + 1).last() == (k@, strings_view(v@)));
        }
        extend_template_exec(&mut acc, k, v);
        i = i + 1;
        assert(rest@ =~= orig.skip(i as int));
    }
    assert(nv.take(len as int) =~= nv);
    Templates { templates: acc }
}

/// The merge of optional templates.
fn merge_templates_exec(cur: Option<Templates>, new: Option<Templates>) -> (r: Option<Templates>)
    ensures
        opt_templates_view(r) == merge_templates(opt_templates_view(cur), opt_templates_view(new)),
{
    match (cur, new) {
        (None, None) => None,
        (None, Some(t)) => Some(t),
        (Some(t), None) => Some(t),
        (Some(c), Some(n)) => Some(extend_templates_exec(c, n)),
    }
}

/// The merge of an update into a fragment.
fn merge_fragment_exec(f: Fragment, d: FragmentDiff) -> (r: Result<Fragment, MergeError>)
    ensures
        result_fragment_view(r) == merge_fragment(f@, d@),
    decreases d,
{
    match d {
        FragmentDiff::ReplaceCurrent(n) => Ok(n),
        FragmentDiff::UpdateRegular(u) => {
            proof { assert(decreases_to!(d => u.children)); }
            match f {
                Fragment::Regular(r) => match merge_children_exec(r.children, u.children) {
                    Ok(c) => Ok(Fragment::Regular(RegularFragment { children: c, statics: r.statics })),
                    Err(e) => Err(e),
                },
                _ => Err(MergeError::FragmentTypeMismatch),
            }
        },
        FragmentDiff::UpdateComprehension(u) => match f {
            Fragment::Comprehension(_, statics, templates) => {
                let t = merge_templates_exec(templates, u.templates);
                match rows_from_diff_exec(u.dynamics) {
                    Ok(rows) => Ok(Fragment::Comprehension(rows, statics, t)),
                    Err(e) => Err(e),
                }
            },
            _ => Err(MergeError::FragmentTypeMismatch),
        },
    }
}

/// The merge of an update into a component.
fn merge_component_exec(c: Component, d: ComponentDiff) -> (r: Result<Component, MergeError>)
    requires
        diff_fixable(d@),
    ensures
        result_component_view(r) == merge_component(c@, d@),
{
    match d {
        ComponentDiff::UpdateRegular(u) => match merge_children_exec(c.children, u.children) {
            Ok(children) => Ok(Component { children, statics: c.statics }),
            Err(e) => Err(e),
        },
        ComponentDiff::ReplaceCurrent(n) => Ok(n.fix_statics()),
    }
}

proof fn lemma_merge_components_err(ds: Seq<(Seq<char>, ComponentDiffV)>, i: int, e: MergeError)
    requires
        0 <= i <= ds.len(),
        merge_components(ds.take(i)) == Err::<Seq<(Seq<char>, ComponentV)>, MergeError>(e),
    ensures
        merge_components(ds) == Err::<Seq<(Seq<char>, ComponentV)>, MergeError>(e),
    decreases ds.len() - i,
{
    if i < ds.len() {
        assert(ds.take(i + 1).drop_last() =~= ds.take(i));
        lemma_merge_components_err(ds, i + 1, e);
    } else {
        assert(ds.take(i) =~= ds);
    }
}

proof fn lemma_components_from_diff_err(ds: Seq<(Seq<char>, ComponentDiffV)>, i: int, e: MergeError)
    requires
        0 <= i <= ds.len(),
        components_from_diff(ds.take(i)) == Err::<Seq<(Seq<char>, ComponentV)>, MergeError>(e),
    ensures
        components_from_diff(ds) == Err::<Seq<(Seq<char>, ComponentV)>, MergeError>(e),
    decreases ds.len() - i,
{
    if i < ds.len() {
        assert(ds.take(i + 1).drop_last() =~= ds.take(i));
        lemma_components_from_diff_err(ds, i + 1, e);
    } else {
        assert(ds.take(i) =~= ds);
    }
}

/// The components that keyed updates describe, starting from none.
#[verifier::rlimit(60)]
fn merge_components_exec(diffs: Vec<(String, ComponentDiff)>) -> (r: Result<Vec<(String, Component)>, MergeError>)
    requires
        diffs_fixable(component_diffs_view(diffs@)),
    ensures
        result_components_view(r) == merge_components(component_diffs_view(diffs@)),
{
    let ghost orig = diffs@;
    let ghost ds = component_diffs_view(orig);
    let n = diffs.len();
    let mut rest = diffs;
    let mut acc: Vec<(String, Component)> = Vec::new();
    let mut i: usize = 0;
    assert(ds.take(0) =~= Seq::<(Seq<char>, ComponentDiffV)>::empty());
    assert(components_view(acc@) =~= Seq::<(Seq<char>, ComponentV)>::empty());
    while i < n
        invariant
            n == orig.len(),
            orig == diffs@,
            ds == component_diffs_view(orig),
            diffs_fixable(ds),
            i <= n,
            rest@ == orig.skip(i as int),
            merge_components(ds.take(i as int)) == Ok::<_, MergeError>(components_view(acc@)),
        decreases n - i,
    {
        let (k, d) = rest.remove(0);
        proof {
            assert(orig[i as int] == (k, d));
            assert(ds[i as int] == (k@, d@));
            assert(diff_fixable(ds[i as int].1));
            assert(ds.take(i + 1).drop_last() =~= ds.take(i as int));
            lemma_keys_components(acc@, k@);
            lemma_find_key(components_view(acc@), k@);
            lemma_find_key(keys_of(acc@), k@);
        }
        match find_entry(&acc, &k) {
            Some(p) => {
                let c = clone_component(&acc[p].1);
                let m = match merge_component_exec(c, d) {
                    Ok(m) => m,
                    Err(e) => {
                        proof { lemma_merge_components_err(ds, i + 1, e); }
                        return Err(e);
                    },
                };
                let ghost before = acc@;
                acc.set(p, (k, m));
                assert(components_view(acc@) =~= components_view(before).update(p as int, (k@, m@)));
            },
            None => {
                let m = match d.to_new_component() {
                    Ok(m) => m,
                    Err(e) => {
                        proof { lemma_merge_components_err(ds, i + 1, e); }
                        return Err(e);
                    },
                };
                let ghost before = acc@;
                acc.push((k, m));
                assert(components_view(acc@) =~= components_view(before).push((k@, m@)));
            },
        }
        i = i + 1;
        assert(rest@ =~= orig.skip(i as int));
    }
    assert(ds.take(n as int) =~= ds);
    Ok(acc)
}

/// The components that keyed updates build.
#[verifier::rlimit(60)]
fn components_from_diff_exec(diffs: Vec<(String, ComponentDiff)>) -> (r: Result<Vec<(String, Component)>, MergeError>)
    requires
        diffs_fixable(component_diffs_view(diffs@)),
    ensures
        result_components_view(r) == components_from_diff(component_diffs_view(diffs@)),
{
    let ghost orig = diffs@;
    let ghost ds = component_diffs_view(orig);
    let n = diffs.len();
    let mut rest = diffs;
    let mut acc: Vec<(String, Component)> = Vec::new();
    let mut i: usize = 0;
    assert(ds.take(0) =~= Seq::<(Seq<char>, ComponentDiffV)>::empty());
    assert(components_view(acc@) =~= Seq::<(Seq<char>, ComponentV)>::empty());
    while i < n
        invariant
            n == orig.len(),
            orig == diffs@,
            ds == component_diffs_view(orig),
            diffs_fixable(ds),
            i <= n,
            rest@ == orig.skip(i as int),
            components_from_diff(ds.take(i as int)) == Ok::<_, MergeError>(components_view(acc@)),
        decreases n - i,
    {
        let (k, d) = rest.remove(0);
        proof {
            assert(orig[i as int] == (k, d));
            assert(ds[i as int] == (k@, d@));
            assert(diff_fixable(ds[i as int].1));
            assert(ds.take(i + 1).drop_last() =~= ds.take(i as int));
            lemma_keys_components(acc@, k@);
            lemma_find_key(components_view(acc@), k@);
            lemma_find_key(keys_of(acc@), k@);
        }
        let m = match d.to_new_component() {
            Ok(m) => m,
            Err(e) => {
                proof { lemma_components_from_diff_err(ds, i + 1, e); }
                return Err(e);
            },
        };
        let ghost before = acc@;
        match find_entry(&acc, &k) {
            Some(p) => {
                acc.set(p, (k, m));
                assert(components_view(acc@) =~= components_view(before).update(p as int, (k@, m@)));
            },
            None => {
                acc.push((k, m));
                assert(components_view(acc@) =~= components_view(before).push((k@, m@)));
            },
        }
        i = i + 1;
        assert(rest@ =~= orig.skip(i as int));
    }
    assert(ds.take(n as int) =~= ds);
    Ok(acc)
}

/// Whether every component update of an update to the tree can be applied
/// without overflow.
pub open spec fn root_diff_fixable(d: RootDiffV) -> bool {
    match d.components {
        Some(c) => diffs_fixable(c),
        None => true,
    }
}

/// A value that takes updates.
pub trait FragmentMerge: Sized {
    /// The kind of update this value takes.
    type DiffItem;

    /// What a merge needs of its arguments.
    spec fn merge_requires(&self, diff: &Self::DiffItem) -> bool;

    /// Merges `diff` into this value.
    fn merge(self, diff: Self::DiffItem) -> (r: Result<Self, MergeError>)
        requires
            self.merge_requires(&diff),
    ;
}

impl FragmentMerge for Root {
    type DiffItem = RootDiff;

    open spec fn merge_requires(&self, diff: &RootDiff) -> bool {
        root_diff_fixable(diff@)
    }

    fn merge(self, diff: RootDiff) -> (r: Result<Self, MergeError>)
        ensures
            result_root_view(r) == merge_root(self@, diff@),
    {
        let fragment = match merge_fragment_exec(self.fragment, diff.fragment) {
            Ok(f) => f,
            Err(e) => return Err(e),
        };
        let components = match (self.components, diff.components) {
            (None, None) => None,
            (None, Some(cd)) => match components_from_diff_exec(cd) {
                Ok(c) => Some(c),
                Err(e) => return Err(e),
            },
            (Some(c), None) => Some(c),
            (Some(_), Some(cd)) => match merge_components_exec(cd) {
                Ok(c) => Some(c),
                Err(e) => return Err(e),
            },
        };
        Ok(Root { fragment, components })
    }
}

impl FragmentMerge for Fragment {
    type DiffItem = FragmentDiff;

    open spec fn merge_requires(&self, diff: &FragmentDiff) -> bool {
        true
    }

    fn merge(self, diff: FragmentDiff) -> (r: Result<Self, MergeError>)
        ensures
            result_fragment_view(r) == merge_fragment(self@, diff@),
    {
        merge_fragment_exec(self, diff)
    }
}

impl FragmentMerge for Vec<(String, Component)> {
    type DiffItem = Vec<(String, ComponentDiff)>;

    open spec fn merge_requires(&self, diff: &Vec<(String, ComponentDiff)>) -> bool {
        diffs_fixable(component_diffs_view(diff@))
    }

    fn merge(self, diff: Vec<(String, ComponentDiff)>) -> (r: Result<Self, MergeError>)
        ensures
            result_components_view(r) == merge_components(component_diffs_view(diff@)),
    {
        merge_components_exec(diff)
    }
}

impl FragmentMerge for Component {
    type DiffItem = ComponentDiff;

    open spec fn merge_requires(&self, diff: &ComponentDiff) -> bool {
        diff_fixable(diff@)
    }

    fn merge(self, diff: ComponentDiff) -> (r: Result<Self, MergeError>)
        ensures
            result_component_view(r) == merge_component(self@, diff@),
    {
        merge_component_exec(self, diff)
    }
}

impl FragmentMerge for Option<Templates> {
    type DiffItem = Option<Templates>;

    open spec fn merge_requires(&self, diff: &Option<Templates>) -> bool {
        true
    }

    fn merge(self, diff: Option<Templates>) -> (r: Result<Self, MergeError>)
        ensures
            r matches Ok(t) && opt_templates_view(t) == merge_templates(opt_templates_view(self), opt_templates_view(diff)),
    {
        Ok(merge_templates_exec(self, diff))
    }
}

impl FragmentMerge for Child {
    type DiffItem = ChildDiff;

    open spec fn merge_requires(&self, diff: &ChildDiff) -> bool {
        true
    }

    fn merge(self, diff: ChildDiff) -> (r: Result<Self, MergeError>)
        ensures
            result_child_view(r) == merge_child(self@, diff@),
    {
        merge_child_exec(self, diff)
    }
}

impl FragmentMerge for Vec<(String, Child)> {
    type DiffItem = Vec<(String, ChildDiff)>;

    open spec fn merge_requires(&self, diff: &Vec<(String, ChildDiff)>) -> bool {
        true
    }

    fn merge(self, diff: Vec<(String, ChildDiff)>) -> (r: Result<Self, MergeError>)
        ensures
            result_entries_view(r) == merge_children(entries_view(self@), diff_entries_view(diff@)),
    {
        merge_children_exec(self, diff)
    }
}

/// Merging an update that replaces a fragment gives the replacement,
/// whatever the fragment was.
pub proof fn law_replace_current(f: FragmentV, n: FragmentV)
    ensures
        merge_fragment(f, FragmentDiffV::ReplaceCurrent(n)) == Ok::<FragmentV, MergeError>(n),
{
}

} // verus!

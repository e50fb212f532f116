use vstd::prelude::*;

verus! {

/// The templates of a comprehension, by name.
pub type Templates = Option<Vec<(String, Vec<String>)>>;
/// The rows of a comprehension.
pub type Dynamics = Vec<Vec<Child>>;
/// The rows of a comprehension update.
pub type DynamicsDiff = Vec<Vec<ChildDiff>>;
/// The stream instructions of a comprehension update.
pub type StreamUpdate = Vec<StreamAttribute>;

/// The static strings of a fragment.
#[derive(Debug, PartialEq)]
pub enum Statics {
    String(String),
    Statics(Vec<String>),
    TemplateRef(i32),
}

/// A dynamic that is a string, or several strings to be concatenated.
#[derive(Debug, PartialEq)]
pub enum OneOrManyStrings {
    One(String),
    Many(Vec<String>),
}

/// An entry of a stream.
#[derive(Debug, PartialEq)]
pub struct StreamItem {
    pub id: String,
    pub index: i32,
    pub limit: Option<i32>,
}

/// A stream of a comprehension.
#[derive(Debug, PartialEq)]
pub struct Stream {
    // This is actually a string wrapped integer.
    pub id: String,
    pub stream_items: Vec<StreamItem>,
}

/// One instruction of a stream update.
#[derive(Debug, PartialEq)]
pub enum StreamAttribute {
    StreamID(String),
    Inserts(Vec<(String, i32, Option<i32>)>),
    DeleteIDs(Vec<String>),
    ResetStream(bool),
}

/// Where a stream entry is inserted.
#[derive(Debug, PartialEq)]
pub enum StreamInsert {
    StreamAt(i32),
    Limit(Option<i32>),
}

/// A node of the rendered tree.
#[derive(Debug, PartialEq)]
pub enum Child {
    Fragment(Fragment),
    ComponentID(i32),
    String(OneOrManyStrings),
}

/// An update to a node of the rendered tree.
#[derive(Debug, PartialEq)]
pub enum ChildDiff {
    Fragment(FragmentDiff),
    ComponentID(i32),
    String(OneOrManyStrings),
}

/// A fragment: static strings interleaved with dynamic children, or a
/// comprehension that repeats its statics for each row of dynamics.
#[derive(Debug, PartialEq)]
pub enum Fragment {
    Comprehension {
        dynamics: Dynamics,
        statics: Option<Statics>,
        is_root: Option<i8>,
        templates: Templates,
        stream: Option<Stream>,
        new_render: Option<bool>,
    },
    Regular {
        statics: Option<Statics>,
        is_root: Option<i8>,
        children: Vec<(String, Child)>,
        new_render: Option<bool>,
    },
}

/// An update to a fragment.
#[derive(Debug, PartialEq)]
pub enum FragmentDiff {
    UpdateComprehension {
        dynamics: DynamicsDiff,
        templates: Templates,
        statics: Option<Statics>,
        is_root: Option<i8>,
        stream: Option<StreamUpdate>,
    },
    UpdateRegular {
        children: Vec<(String, ChildDiff)>,
        statics: Option<Statics>,
        is_root: Option<i8>,
    },
}

/// The statics of a component: its own, or those of another component.
#[derive(Debug, PartialEq)]
pub enum ComponentStatics {
    Statics(Vec<String>),
    ComponentRef(i32),
}

/// A live component.
#[derive(Debug, PartialEq)]
pub struct Component {
    pub children: Vec<(String, Child)>,
    pub statics: ComponentStatics,
    pub is_root: Option<i8>,
}

/// An update to a live component.
#[derive(Debug, PartialEq)]
pub enum ComponentDiff {
    ReplaceCurrent {
        children: Vec<(String, Child)>,
        statics: ComponentStatics,
        new_render: Option<bool>,
        is_root: Option<i8>,
    },
    UpdateRegular {
        children: Vec<(String, ChildDiff)>,
        is_root: Option<i8>,
    },
}

/// The whole rendered tree: the root fragment and the components.
#[derive(Debug, PartialEq)]
pub struct Root {
    pub new_render: Option<bool>,
    pub fragment: Fragment,
    pub components: Vec<(String, Component)>,
}

/// An update to the whole tree, as it comes across the wire.
#[derive(Debug, PartialEq)]
pub struct RootDiff {
    pub new_render: Option<bool>,
    pub fragment: FragmentDiff,
    pub components: Vec<(String, ComponentDiff)>,
}

// ---------------------------------------------------------------------------
// The mathematical model.

/// The value of [Statics].
pub enum StaticsV {
    Str(Seq<char>),
    List(Seq<Seq<char>>),
    TemplateRef(i32),
}

/// The value of [OneOrManyStrings].
pub enum StringsV {
    One(Seq<char>),
    Many(Seq<Seq<char>>),
}

/// The value of [StreamItem].
pub struct StreamItemV {
    pub id: Seq<char>,
    pub index: i32,
    pub limit: Option<i32>,
}

/// The value of [Stream].
pub struct StreamV {
    pub id: Seq<char>,
    pub items: Seq<StreamItemV>,
}

/// The value of [StreamAttribute].
pub enum StreamAttrV {
    StreamID(Seq<char>),
    Inserts(Seq<(Seq<char>, i32, Option<i32>)>),
    DeleteIDs(Seq<Seq<char>>),
    Reset(bool),
}

/// The value of [Templates].
pub type TemplatesV = Option<Seq<(Seq<char>, Seq<Seq<char>>)>>;

/// The value of [Child].
pub enum ChildV {
    Fragment(FragmentV),
    ComponentID(i32),
    Str(StringsV),
}

/// The value of [Fragment].
pub enum FragmentV {
    Comprehension {
        dynamics: Seq<Seq<ChildV>>,
        statics: Option<StaticsV>,
        is_root: Option<i8>,
        templates: TemplatesV,
        stream: Option<StreamV>,
        new_render: Option<bool>,
    },
    Regular {
        statics: Option<StaticsV>,
        is_root: Option<i8>,
        children: Seq<(Seq<char>, ChildV)>,
        new_render: Option<bool>,
    },
}

/// The value of [ChildDiff].
pub enum ChildDiffV {
    Fragment(FragmentDiffV),
    ComponentID(i32),
    Str(StringsV),
}

/// The value of [FragmentDiff].
pub enum FragmentDiffV {
    UpdateComprehension {
        dynamics: Seq<Seq<ChildDiffV>>,
        templates: TemplatesV,
        statics: Option<StaticsV>,
        is_root: Option<i8>,
        stream: Option<Seq<StreamAttrV>>,
    },
    UpdateRegular {
        children: Seq<(Seq<char>, ChildDiffV)>,
        statics: Option<StaticsV>,
        is_root: Option<i8>,
    },
}

/// The value of [ComponentStatics].
pub enum ComponentStaticsV {
    Statics(Seq<Seq<char>>),
    ComponentRef(i32),
}

/// The value of [Component].
pub struct ComponentV {
    pub children: Seq<(Seq<char>, ChildV)>,
    pub statics: ComponentStaticsV,
    pub is_root: Option<i8>,
}

/// The value of [ComponentDiff].
pub enum ComponentDiffV {
    ReplaceCurrent {
        children: Seq<(Seq<char>, ChildV)>,
        statics: ComponentStaticsV,
        new_render: Option<bool>,
        is_root: Option<i8>,
    },
    UpdateRegular {
        children: Seq<(Seq<char>, ChildDiffV)>,
        is_root: Option<i8>,
    },
}

/// The value of [Root].
pub struct RootV {
    pub new_render: Option<bool>,
    pub fragment: FragmentV,
    pub components: Seq<(Seq<char>, ComponentV)>,
}

/// The value of [RootDiff].
pub struct RootDiffV {
    pub new_render: Option<bool>,
    pub fragment: FragmentDiffV,
    pub components: Seq<(Seq<char>, ComponentDiffV)>,
}

// ---------------------------------------------------------------------------
// Views of the exec values.

pub open spec fn strings_view(s: Seq<String>) -> Seq<Seq<char>> {
    s.map_values(|x: String| x@)
}

pub open spec fn statics_view(s: Statics) -> StaticsV {
    match s {
        Statics::String(x) => StaticsV::Str(x@),
        Statics::Statics(v) => StaticsV::List(strings_view(v@)),
        Statics::TemplateRef(i) => StaticsV::TemplateRef(i),
    }
}

pub open spec fn opt_statics_view(s: Option<Statics>) -> Option<StaticsV> {
    match s {
        Some(x) => Some(statics_view(x)),
        None => None,
    }
}

pub open spec fn one_or_many_view(s: OneOrManyStrings) -> StringsV {
    match s {
        OneOrManyStrings::One(x) => StringsV::One(x@),
        OneOrManyStrings::Many(v) => StringsV::Many(strings_view(v@)),
    }
}

pub open spec fn stream_item_view(i: StreamItem) -> StreamItemV {
    StreamItemV { id: i.id@, index: i.index, limit: i.limit }
}

pub open spec fn stream_view(s: Stream) -> StreamV {
    StreamV { id: s.id@, items: s.stream_items@.map_values(|i: StreamItem| stream_item_view(i)) }
}

pub open spec fn opt_stream_view(s: Option<Stream>) -> Option<StreamV> {
    match s {
        Some(x) => Some(stream_view(x)),
        None => None,
    }
}

pub open spec fn stream_attr_view(a: StreamAttribute) -> StreamAttrV {
    match a {
        StreamAttribute::StreamID(x) => StreamAttrV::StreamID(x@),
        StreamAttribute::Inserts(v) => StreamAttrV::Inserts(
            v@.map_values(|t: (String, i32, Option<i32>)| (t.0@, t.1, t.2)),
        ),
        StreamAttribute::DeleteIDs(v) => StreamAttrV::DeleteIDs(strings_view(v@)),
        StreamAttribute::ResetStream(b) => StreamAttrV::Reset(b),
    }
}

pub open spec fn opt_stream_update_view(s: Option<StreamUpdate>) -> Option<Seq<StreamAttrV>> {
    match s {
        Some(v) => Some(v@.map_values(|a: StreamAttribute| stream_attr_view(a))),
        None => None,
    }
}

pub open spec fn templates_view(t: Templates) -> TemplatesV {
    match t {
        Some(v) => Some(v@.map_values(|e: (String, Vec<String>)| (e.0@, strings_view(e.1@)))),
        None => None,
    }
}

pub open spec fn component_statics_view(s: ComponentStatics) -> ComponentStaticsV {
    match s {
        ComponentStatics::Statics(v) => ComponentStaticsV::Statics(strings_view(v@)),
        ComponentStatics::ComponentRef(i) => ComponentStaticsV::ComponentRef(i),
    }
}

pub open spec fn child_view(c: Child) -> ChildV
    decreases c,
{
    match c {
        Child::Fragment(f) => ChildV::Fragment(fragment_view(f)),
        Child::ComponentID(i) => ChildV::ComponentID(i),
        Child::String(s) => ChildV::Str(one_or_many_view(s)),
    }
}

pub open spec fn fragment_view(f: Fragment) -> FragmentV
    decreases f,
{
    match f {
        Fragment::Comprehension { dynamics, statics, is_root, templates, stream, new_render } => {
            proof { assert(decreases_to!(dynamics => dynamics@)); }
            FragmentV::Comprehension {
                dynamics: rows_view(dynamics@),
                statics: opt_statics_view(statics),
                is_root,
                templates: templates_view(templates),
                stream: opt_stream_view(stream),
                new_render,
            }
        },
        Fragment::Regular { statics, is_root, children, new_render } => {
            proof { assert(decreases_to!(children => children@)); }
            FragmentV::Regular {
                statics: opt_statics_view(statics),
                is_root,
                children: entries_view(children@),
                new_render,
            }
        },
    }
}

pub open spec fn entries_view(s: Seq<(String, Child)>) -> Seq<(Seq<char>, ChildV)>
    decreases s,
{
    if s.len() == 0 {
        Seq::empty()
    } else {
        proof {
            assert(decreases_to!(s => s[s.len() - 1]));
            assert(decreases_to!(s => s.drop_last()));
        }
        entries_view(s.drop_last()).push((s.last().0@, child_view(s.last().1)))
    }
}

pub open spec fn row_view(s: Seq<Child>) -> Seq<ChildV>
    decreases s,
{
    if s.len() == 0 {
        Seq::empty()
    } else {
        proof {
            assert(decreases_to!(s => s[s.len() - 1]));
            assert(decreases_to!(s => s.drop_last()));
        }
        row_view(s.drop_last()).push(child_view(s.last()))
    }
}

pub open spec fn rows_view(s: Seq<Vec<Child>>) -> Seq<Seq<ChildV>>
    decreases s,
{
    if s.len() == 0 {
        Seq::empty()
    } else {
        proof {
            assert(decreases_to!(s => s[s.len() - 1]));
            assert(decreases_to!(s => s.drop_last()));
            let v = s[s.len() - 1];
            assert(decreases_to!(v => v@));
        }
        rows_view(s.drop_last()).push(row_view(s.last()@))
    }
}


pub open spec fn child_diff_view(c: ChildDiff) -> ChildDiffV
    decreases c,
{
    match c {
        ChildDiff::Fragment(f) => ChildDiffV::Fragment(fragment_diff_view(f)),
        ChildDiff::ComponentID(i) => ChildDiffV::ComponentID(i),
        ChildDiff::String(s) => ChildDiffV::Str(one_or_many_view(s)),
    }
}

pub open spec fn fragment_diff_view(f: FragmentDiff) -> FragmentDiffV
    decreases f,
{
    match f {
        FragmentDiff::UpdateComprehension { dynamics, templates, statics, is_root, stream } => {
            proof { assert(decreases_to!(dynamics => dynamics@)); }
            FragmentDiffV::UpdateComprehension {
                dynamics: diff_rows_view(dynamics@),
                templates: templates_view(templates),
                statics: opt_statics_view(statics),
                is_root,
                stream: opt_stream_update_view(stream),
            }
        },
        FragmentDiff::UpdateRegular { children, statics, is_root } => {
            proof { assert(decreases_to!(children => children@)); }
            FragmentDiffV::UpdateRegular {
                children: diff_entries_view(children@),
                statics: opt_statics_view(statics),
                is_root,
            }
        },
    }
}

pub open spec fn diff_entries_view(s: Seq<(String, ChildDiff)>) -> Seq<(Seq<char>, ChildDiffV)>
    decreases s,
{
    if s.len() == 0 {
        Seq::empty()
    } else {
        proof {
            assert(decreases_to!(s => s[s.len() - 1]));
            assert(decreases_to!(s => s.drop_last()));
        }
        diff_entries_view(s.drop_last()).push((s.last().0@, child_diff_view(s.last().1)))
    }
}

pub open spec fn diff_row_view(s: Seq<ChildDiff>) -> Seq<ChildDiffV>
    decreases s,
{
    if s.len() == 0 {
        Seq::empty()
    } else {
        proof {
            assert(decreases_to!(s => s[s.len() - 1]));
            assert(decreases_to!(s => s.drop_last()));
        }
        diff_row_view(s.drop_last()).push(child_diff_view(s.last()))
    }
}

pub open spec fn diff_rows_view(s: Seq<Vec<ChildDiff>>) -> Seq<Seq<ChildDiffV>>
    decreases s,
{
    if s.len() == 0 {
        Seq::empty()
    } else {
        proof {
            assert(decreases_to!(s => s[s.len() - 1]));
            assert(decreases_to!(s => s.drop_last()));
            let v = s[s.len() - 1];
            assert(decreases_to!(v => v@));
        }
        diff_rows_view(s.drop_last()).push(diff_row_view(s.last()@))
    }
}

pub open spec fn component_view(c: Component) -> ComponentV {
    ComponentV {
        children: entries_view(c.children@),
        statics: component_statics_view(c.statics),
        is_root: c.is_root,
    }
}

pub open spec fn components_view(s: Seq<(String, Component)>) -> Seq<(Seq<char>, ComponentV)> {
    s.map_values(|e: (String, Component)| (e.0@, component_view(e.1)))
}

pub open spec fn component_diff_view(c: ComponentDiff) -> ComponentDiffV {
    match c {
        ComponentDiff::ReplaceCurrent { children, statics, new_render, is_root } => ComponentDiffV::ReplaceCurrent {
            children: entries_view(children@),
            statics: component_statics_view(statics),
            new_render,
            is_root,
        },
        ComponentDiff::UpdateRegular { children, is_root } => ComponentDiffV::UpdateRegular {
            children: diff_entries_view(children@),
            is_root,
        },
    }
}

pub open spec fn component_diffs_view(s: Seq<(String, ComponentDiff)>) -> Seq<(Seq<char>, ComponentDiffV)> {
    s.map_values(|e: (String, ComponentDiff)| (e.0@, component_diff_view(e.1)))
}

impl View for Child {
    type V = ChildV;

    open spec fn view(&self) -> ChildV {
        child_view(*self)
    }
}

impl View for ChildDiff {
    type V = ChildDiffV;

    open spec fn view(&self) -> ChildDiffV {
        child_diff_view(*self)
    }
}

impl View for Fragment {
    type V = FragmentV;

    open spec fn view(&self) -> FragmentV {
        fragment_view(*self)
    }
}

impl View for FragmentDiff {
    type V = FragmentDiffV;

    open spec fn view(&self) -> FragmentDiffV {
        fragment_diff_view(*self)
    }
}

impl View for Component {
    type V = ComponentV;

    open spec fn view(&self) -> ComponentV {
        component_view(*self)
    }
}

impl View for ComponentDiff {
    type V = ComponentDiffV;

    open spec fn view(&self) -> ComponentDiffV {
        component_diff_view(*self)
    }
}

impl View for Root {
    type V = RootV;

    open spec fn view(&self) -> RootV {
        RootV {
            new_render: self.new_render,
            fragment: fragment_view(self.fragment),
            components: components_view(self.components@),
        }
    }
}

impl View for RootDiff {
    type V = RootDiffV;

    open spec fn view(&self) -> RootDiffV {
        RootDiffV {
            new_render: self.new_render,
            fragment: fragment_diff_view(self.fragment),
            components: component_diffs_view(self.components@),
        }
    }
}

// ---------------------------------------------------------------------------
// The views of sequences, element by element.

pub proof fn lemma_entries_view(s: Seq<(String, Child)>)
    ensures
        entries_view(s).len() == s.len(),
        forall|i: int| 0 <= i < s.len() ==> #[trigger] entries_view(s)[i] == (s[i].0@, child_view(s[i].1)),
    decreases s.len(),
{
    if s.len() > 0 {
        lemma_entries_view(s.drop_last());
    }
}

pub proof fn lemma_row_view(s: Seq<Child>)
    ensures
        row_view(s).len() == s.len(),
        forall|i: int| 0 <= i < s.len() ==> #[trigger] row_view(s)[i] == child_view(s[i]),
    decreases s.len(),
{
    if s.len() > 0 {
        lemma_row_view(s.drop_last());
    }
}

pub proof fn lemma_rows_view(s: Seq<Vec<Child>>)
    ensures
        rows_view(s).len() == s.len(),
        forall|i: int| 0 <= i < s.len() ==> #[trigger] rows_view(s)[i] == row_view(s[i]@),
    decreases s.len(),
{
    if s.len() > 0 {
        lemma_rows_view(s.drop_last());
    }
}

pub proof fn lemma_diff_entries_view(s: Seq<(String, ChildDiff)>)
    ensures
        diff_entries_view(s).len() == s.len(),
        forall|i: int| 0 <= i < s.len() ==> #[trigger] diff_entries_view(s)[i] == (s[i].0@, child_diff_view(s[i].1)),
    decreases s.len(),
{
    if s.len() > 0 {
        lemma_diff_entries_view(s.drop_last());
    }
}

pub proof fn lemma_diff_row_view(s: Seq<ChildDiff>)
    ensures
        diff_row_view(s).len() == s.len(),
        forall|i: int| 0 <= i < s.len() ==> #[trigger] diff_row_view(s)[i] == child_diff_view(s[i]),
    decreases s.len(),
{
    if s.len() > 0 {
        lemma_diff_row_view(s.drop_last());
    }
}

pub proof fn lemma_diff_rows_view(s: Seq<Vec<ChildDiff>>)
    ensures
        diff_rows_view(s).len() == s.len(),
        forall|i: int| 0 <= i < s.len() ==> #[trigger] diff_rows_view(s)[i] == diff_row_view(s[i]@),
    decreases s.len(),
{
    if s.len() > 0 {
        lemma_diff_rows_view(s.drop_last());
    }
}

} // verus!

//! Nodes of a document.
use vstd::prelude::*;
use super::attribute::{Attribute, AttributeName, AttributeNameV, AttributeV, attrs_view, opt_str_view, clone_opt_str, split_at_colon, split_qualified, qualified_text, opt_str_eq};

verus! {

/// A reference to a node of a document: its index.
#[derive(Debug, Copy, Clone, PartialEq, Eq, PartialOrd, Ord, Hash, Structural)]
pub struct NodeRef(pub u32);

impl NodeRef {
    /// The index as a signed integer, for hosts that lack unsigned ones.
    pub fn ref_id(&self) -> (r: i32)
        ensures
            r == self.0 as i32,
    {
        self.0 as i32
    }

    /// The index.
    pub fn index(&self) -> (r: usize)
        ensures
            r == self.0,
    {
        self.0 as usize
    }
}

impl Default for NodeRef {
    /// The reserved reference, which names no node.
    fn default() -> (r: Self)
        ensures
            r.0 == u32::MAX,
    {
        NodeRef(u32::MAX)
    }
}

/// The fully qualified name of an element.
#[derive(Debug, Clone, PartialEq, Eq, PartialOrd, Ord, Hash)]
pub struct ElementName {
    pub namespace: Option<String>,
    pub name: String,
}

impl View for ElementName {
    type V = AttributeNameV;

    open spec fn view(&self) -> AttributeNameV {
        (opt_str_view(self.namespace), self.name@)
    }
}

impl ElementName {
    /// A name without a namespace.
    pub fn new(name: String) -> (r: Self)
        ensures
            r@ == (None::<Seq<char>>, name@),
    {
        ElementName { namespace: None, name }
    }

    /// A name with a namespace.
    pub fn new_with_namespace(namespace: String, name: String) -> (r: Self)
        ensures
            r@ == (Some(namespace@), name@),
    {
        ElementName { namespace: Some(namespace), name }
    }

    /// The name read from `ns:name` text, split at the first `:`.
    pub fn from_text(s: &str) -> (r: Self)
        ensures
            r@ == split_qualified(s@),
    {
        let (namespace, name) = split_at_colon(s);
        ElementName { namespace, name }
    }

    /// Whether two names are equal.
    pub fn same(&self, other: &ElementName) -> (r: bool)
        ensures
            r == (self@ == other@),
    {
        opt_str_eq(&self.namespace, &other.namespace) && self.name.eq(&other.name)
    }

    /// The text of the name: `namespace:name`, or the name alone.
    pub fn to_text(&self) -> (r: String)
        ensures
            r@ == qualified_text(self@),
    {
        match &self.namespace {
            Some(ns) => {
                let mut s = ns.clone();
                s.append(":");
                s.append(self.name.as_str());
                proof { reveal_strlit(":"); }
                s
            },
            None => self.name.clone(),
        }
    }

    /// A copy of the name.
    pub fn copy(&self) -> (r: Self)
        ensures
            r@ == self@,
    {
        ElementName { namespace: clone_opt_str(&self.namespace), name: self.name.clone() }
    }
}

/// A typed node that carries attributes and may contain other nodes.
#[derive(Debug, Clone, PartialEq)]
pub struct Element {
    pub name: ElementName,
    pub attributes: Vec<Attribute>,
}

/// The value of an [Element]: its name and its attributes.
pub type ElementV = (AttributeNameV, Seq<AttributeV>);

impl View for Element {
    type V = ElementV;

    open spec fn view(&self) -> ElementV {
        (self.name@, attrs_view(self.attributes@))
    }
}

/// The position of the first attribute named `n`.
pub open spec fn attr_index(s: Seq<AttributeV>, n: AttributeNameV) -> Option<int> {
    if exists|i: int| 0 <= i < s.len() && s[i].0 == n {
        Some(choose|i: int| 0 <= i < s.len() && s[i].0 == n && forall|j: int| 0 <= j < i ==> s[j].0 != n)
    } else {
        None
    }
}

/// The attribute named `n`, the first one if there are several.
pub open spec fn attr_lookup(s: Seq<AttributeV>, n: AttributeNameV) -> Option<AttributeV> {
    match attr_index(s, n) {
        Some(i) => Some(s[i]),
        None => None,
    }
}

/// The name of the `id` attribute.
pub open spec fn id_name() -> AttributeNameV {
    (None, seq!['i', 'd'])
}

/// The value of the first `id` attribute, if there is one and it has a value.
pub open spec fn id_of(s: Seq<AttributeV>) -> Option<Seq<char>> {
    match attr_lookup(s, id_name()) {
        Some(a) => a.1,
        None => None,
    }
}

/// Attributes with `n` set to `v`: the first attribute of that name takes
/// the value, or a new attribute is added at the end.
pub open spec fn set_attr(s: Seq<AttributeV>, n: AttributeNameV, v: Option<Seq<char>>) -> Seq<AttributeV> {
    match attr_index(s, n) {
        Some(i) => s.update(i, (n, v)),
        None => s.push((n, v)),
    }
}

/// Attributes without the first one named `n`.
pub open spec fn remove_attr(s: Seq<AttributeV>, n: AttributeNameV) -> Seq<AttributeV> {
    match attr_index(s, n) {
        Some(i) => s.remove(i),
        None => s,
    }
}

/// What [attr_index] finds.
pub proof fn lemma_attr_index(s: Seq<AttributeV>, n: AttributeNameV)
    ensures
        attr_index(s, n) matches Some(p) ==> 0 <= p < s.len() && s[p].0 == n && forall|j: int| 0 <= j < p ==> s[j].0 != n,
        attr_index(s, n) is None <==> forall|j: int| 0 <= j < s.len() ==> s[j].0 != n,
{
    if exists|i: int| 0 <= i < s.len() && s[i].0 == n {
        let w = choose|i: int| 0 <= i < s.len() && s[i].0 == n;
        lemma_first_attr(s, n, w);
    }
}

proof fn lemma_first_attr(s: Seq<AttributeV>, n: AttributeNameV, w: int)
    requires
        0 <= w < s.len(),
        s[w].0 == n,
    ensures
        exists|i: int| 0 <= i < s.len() && s[i].0 == n && forall|j: int| 0 <= j < i ==> s[j].0 != n,
    decreases w,
{
    if exists|j: int| 0 <= j < w && s[j].0 == n {
        let j = choose|j: int| 0 <= j < w && s[j].0 == n;
        lemma_first_attr(s, n, j);
    } else {
        assert(forall|j: int| 0 <= j < w ==> s[j].0 != n);
    }
}

/// The position of the first attribute named `n`.
pub fn find_attr(attrs: &Vec<Attribute>, n: &AttributeName) -> (r: Option<usize>)
    ensures
        match r {
            Some(i) => attr_index(attrs_view(attrs@), n@) == Some(i as int) && i < attrs.len(),
            None => attr_index(attrs_view(attrs@), n@) is None,
        },
{
    let ghost s = attrs_view(attrs@);
    proof { lemma_attr_index(s, n@); }
    let mut i: usize = 0;
    while i < attrs.len()
        invariant
            i <= attrs.len(),
            s == attrs_view(attrs@),
            forall|j: int| 0 <= j < i ==> s[j].0 != n@,
        decreases attrs.len() - i,
    {
        if attrs[i].name.same(n) {
            proof {
                assert(s[i as int].0 == n@);
                lemma_attr_index(s, n@);
                let p = attr_index(s, n@)->0;
                if p < i {
                    assert(s[p].0 != n@);
                } else if p > i {
                    assert(s[i as int].0 != n@);
                }
            }
            return Some(i);
        }
        i = i + 1;
    }
    None
}

/// A copy of a list of attributes.
pub fn copy_attrs(v: &Vec<Attribute>) -> (r: Vec<Attribute>)
    ensures
        attrs_view(r@) == attrs_view(v@),
{
    let mut out: Vec<Attribute> = Vec::new();
    let mut i: usize = 0;
    while i < v.len()
        invariant
            i <= v.len(),
            attrs_view(out@) =~= attrs_view(v@).take(i as int),
        decreases v.len() - i,
    {
        let ghost before = out@;
        out.push(v[i].copy());
        assert(attrs_view(out@) =~= attrs_view(before).push(v@[i as int]@));
        assert(attrs_view(v@).take(i + 1) =~= attrs_view(v@).take(i as int).push(v@[i as int]@));
        i = i + 1;
    }
    out
}

impl Element {
    /// An element named `name`, without attributes.
    pub fn new(name: ElementName) -> (r: Self)
        ensures
            r@ == (name@, Seq::<AttributeV>::empty()),
    {
        let r = Element { name, attributes: Vec::new() };
        assert(attrs_view(r.attributes@) =~= Seq::<AttributeV>::empty());
        r
    }

    /// The value of the first `id` attribute.
    pub fn id(&self) -> (r: Option<String>)
        ensures
            opt_str_view(r) == id_of(self@.1),
    {
        let n = AttributeName { namespace: None, name: String::from_str("id") };
        proof {
            reveal_strlit("id");
            assert(n@ == id_name());
            lemma_attr_index(attrs_view(self.attributes@), n@);
        }
        match find_attr(&self.attributes, &n) {
            Some(i) => clone_opt_str(&self.attributes[i].value),
            None => None,
        }
    }

    /// A copy of the attributes.
    pub fn attributes(&self) -> (r: Vec<Attribute>)
        ensures
            attrs_view(r@) == self@.1,
    {
        copy_attrs(&self.attributes)
    }

    /// Sets the attribute `name`: the first attribute of that name takes the
    /// value, or a new one is added.
    pub fn set_attribute(&mut self, name: AttributeName, value: Option<String>)
        ensures
            final(self)@ == (old(self)@.0, set_attr(old(self)@.1, name@, opt_str_view(value))),
    {
        let ghost before = self.attributes@;
        match find_attr(&self.attributes, &name) {
            Some(i) => {
                self.attributes.set(i, Attribute { name, value });
                assert(attrs_view(self.attributes@) =~= attrs_view(before).update(i as int, (name@, opt_str_view(value))));
            },
            None => {
                let a = Attribute { name, value };
                self.attributes.push(a);
                assert(attrs_view(self.attributes@) =~= attrs_view(before).push(a@));
            },
        }
    }

    /// Removes the first attribute named `name`.
    pub fn remove_attribute(&mut self, name: &AttributeName)
        ensures
            final(self)@ == (old(self)@.0, remove_attr(old(self)@.1, name@)),
    {
        let ghost before = self.attributes@;
        match find_attr(&self.attributes, name) {
            Some(i) => {
                self.attributes.remove(i);
                assert(attrs_view(self.attributes@) =~= attrs_view(before).remove(i as int));
            },
            None => {},
        }
    }

    /// A copy of the element.
    pub fn copy(&self) -> (r: Self)
        ensures
            r@ == self@,
    {
        Element { name: self.name.copy(), attributes: copy_attrs(&self.attributes) }
    }
}

/// A node of a document.
#[derive(Debug, Clone, PartialEq)]
pub enum NodeData {
    /// The root of a document; it has no attributes.
    Root,
    /// A typed node that carries attributes and may contain other nodes.
    NodeElement { element: Element },
    /// Plain content, typically text, without attributes or children.
    Leaf { value: String },
}

/// The value of a [NodeData].
pub enum NodeDataV {
    Root,
    Element(ElementV),
    Leaf(Seq<char>),
}

impl View for NodeData {
    type V = NodeDataV;

    open spec fn view(&self) -> NodeDataV {
        match self {
            NodeData::Root => NodeDataV::Root,
            NodeData::NodeElement { element } => NodeDataV::Element(element@),
            NodeData::Leaf { value } => NodeDataV::Leaf(value@),
        }
    }
}

/// The attributes of a node: those of an element, none otherwise.
pub open spec fn node_attrs(n: NodeDataV) -> Seq<AttributeV> {
    match n {
        NodeDataV::Element(e) => e.1,
        _ => Seq::empty(),
    }
}

impl NodeData {
    /// An element named `tag`, without attributes.
    pub fn new(tag: ElementName) -> (r: Self)
        ensures
            r@ == NodeDataV::Element((tag@, Seq::<AttributeV>::empty())),
    {
        NodeData::NodeElement { element: Element::new(tag) }
    }

    /// Whether the node is an element with an attribute of the given name
    /// and namespace.
    pub fn has_attribute(&self, name: &str, namespace: Option<&str>) -> (r: bool)
        ensures
            r == exists|i: int| 0 <= i < node_attrs(self@).len()
                && #[trigger] node_attrs(self@)[i].0 == (match namespace { Some(ns) => Some(ns@), None => None::<Seq<char>> }, name@),
    {
        let n = AttributeName {
            namespace: match namespace {
                Some(ns) => Some(String::from_str(ns)),
                None => None,
            },
            name: String::from_str(name),
        };
        match self {
            NodeData::NodeElement { element } => {
                let r = find_attr(&element.attributes, &n);
                proof { lemma_attr_index(attrs_view(element.attributes@), n@); }
                r.is_some()
            },
            _ => false,
        }
    }

    /// A copy of the attributes of an element, none for other nodes.
    pub fn attributes(&self) -> (r: Vec<Attribute>)
        ensures
            attrs_view(r@) == node_attrs(self@),
    {
        match self {
            NodeData::NodeElement { element } => element.attributes(),
            _ => {
                let v: Vec<Attribute> = Vec::new();
                assert(attrs_view(v@) =~= Seq::<AttributeV>::empty());
                v
            },
        }
    }

    /// The `id` of an element.
    pub fn id(&self) -> (r: Option<String>)
        ensures
            opt_str_view(r) == id_of(node_attrs(self@)),
    {
        match self {
            NodeData::NodeElement { element } => element.id(),
            _ => {
                proof { lemma_attr_index(Seq::<AttributeV>::empty(), id_name()); }
                None
            },
        }
    }

    /// Whether the node is a leaf.
    pub fn is_leaf(&self) -> (r: bool)
        ensures
            r == (self@ is Leaf),
    {
        match self {
            NodeData::Leaf { .. } => true,
            _ => false,
        }
    }

    /// A copy of the node.
    pub fn copy(&self) -> (r: Self)
        ensures
            r@ == self@,
    {
        match self {
            NodeData::Root => NodeData::Root,
            NodeData::NodeElement { element } => NodeData::NodeElement { element: element.copy() },
            NodeData::Leaf { value } => NodeData::Leaf { value: value.clone() },
        }
    }
}

impl From<Element> for NodeData {
    fn from(element: Element) -> (r: Self) {
        NodeData::NodeElement { element }
    }
}

impl vstd::std_specs::convert::FromSpecImpl<Element> for NodeData {
    open spec fn obeys_from_spec() -> bool {
        true
    }

    open spec fn from_spec(element: Element) -> NodeData {
        NodeData::NodeElement { element }
    }
}

impl From<String> for NodeData {
    fn from(value: String) -> (r: Self) {
        NodeData::Leaf { value }
    }
}

impl vstd::std_specs::convert::FromSpecImpl<String> for NodeData {
    open spec fn obeys_from_spec() -> bool {
        true
    }

    open spec fn from_spec(value: String) -> NodeData {
        NodeData::Leaf { value }
    }
}

/// The attribute just set is the one found under its name, with the value
/// it was set to.
pub proof fn law_set_then_lookup(s: Seq<AttributeV>, n: AttributeNameV, v: Option<Seq<char>>)
    ensures
        attr_lookup(set_attr(s, n, v), n) == Some((n, v)),
{
    lemma_attr_index(s, n);
    let e = set_attr(s, n, v);
    lemma_attr_index(e, n);
    match attr_index(s, n) {
        Some(i) => {
            assert(e[i] == (n, v));
            match attr_index(e, n) {
                Some(j) => {
                    if j < i {
                        assert(e[j] == s[j]);
                    } else if j > i {
                        assert(e[i].0 == n);
                    }
                },
                None => {
                    assert(e[i].0 == n);
                },
            }
        },
        None => {
            assert(e[s.len() as int] == (n, v));
            match attr_index(e, n) {
                Some(j) => {
                    if j < s.len() {
                        assert(e[j] == s[j]);
                    }
                },
                None => {},
            }
        },
    }
}

/// Removing an attribute just set under a name no attribute had gives back
/// the attributes as they were.
pub proof fn law_remove_undoes_set(s: Seq<AttributeV>, n: AttributeNameV, v: Option<Seq<char>>)
    requires
        attr_index(s, n) is None,
    ensures
        remove_attr(set_attr(s, n, v), n) == s,
{
    lemma_attr_index(s, n);
    let e = set_attr(s, n, v);
    assert(e == s.push((n, v)));
    assert(e[s.len() as int].0 == n);
    lemma_attr_index(e, n);
    assert(attr_index(e, n) is Some);
    let j = attr_index(e, n)->0;
    assert(j == s.len()) by {
        if j < s.len() {
            assert(e[j] == s[j]);
        }
    }
    assert(e.remove(j) =~= s);
}

} // verus!

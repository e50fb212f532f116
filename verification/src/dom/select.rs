//! Selecting elements of a document.
use vstd::prelude::*;
use super::attribute::{AttributeName, AttributeNameV, AttributeV, AttributeValue, attrs_view, opt_str_view, split_qualified, value_text};
use super::node::{NodeRef, NodeData, NodeDataV, ElementName};
use super::document::{Document, DocumentV, wf};
use crate::diff::fragment::model::lookup;

verus! {

/// A selector over the elements of a document.
pub enum Selector<'a> {
    /// Elements with the given tag name, e.g. `foo`.
    Tag(String),
    /// The element with the given unique id, e.g. `#id`.
    Id(&'a str),
    /// All elements, e.g. `*`.
    All,
    /// Elements that match both selectors.
    And(Box<Selector<'a>>, Box<Selector<'a>>),
    /// Elements that match either selector.
    Or(Box<Selector<'a>>, Box<Selector<'a>>),
    /// Elements that match the second selector and have an ancestor that
    /// matches the first, e.g. `ul.foo li`.
    Descendant(Box<Selector<'a>>, Box<Selector<'a>>),
    /// Elements that match the second selector and whose parent matches the
    /// first, e.g. `ul.foo > li`.
    Child(Box<Selector<'a>>, Box<Selector<'a>>),
    /// Elements with an attribute of the given name, e.g. `a[href]`.
    Attribute(String),
    /// Elements with an attribute of the given name and value.
    AttributeValue(String, AttributeValue),
    /// Elements with an attribute of the given name whose value, split at
    /// whitespace, holds the given word, e.g. `[attr~=value]`.
    AttributeValueWhitespacedContains(String, &'a str),
    /// Elements with an attribute of the given name whose value starts with
    /// the given text, e.g. `[attr^=value]`.
    AttributeValueStartsWith(String, &'a str),
    /// Elements with an attribute of the given name whose value ends with
    /// the given text, e.g. `[attr$=value]`.
    AttributeValueEndsWith(String, &'a str),
    /// Elements with an attribute of the given name whose value contains the
    /// given text, e.g. `[attr*=value]`.
    AttributeValueSubstring(String, &'a str),
}

/// Whether a selection matches at most one node: an identified node, or a
/// combination that implies one.
pub open spec fn unique_spec(s: Selector) -> bool
    decreases s,
{
    match s {
        Selector::Id(_) => true,
        Selector::And(l, r) => unique_spec(*l) || unique_spec(*r),
        Selector::Descendant(_, c) => unique_spec(*c),
        Selector::Child(_, c) => unique_spec(*c),
        _ => false,
    }
}

impl<'a> Selector<'a> {
    /// Whether the selection matches at most one node.
    pub fn is_unique(&self) -> (r: bool)
        ensures
            r == unique_spec(*self),
        decreases self,
    {
        match self {
            Selector::Id(_) => true,
            Selector::And(l, r) => l.is_unique() || r.is_unique(),
            Selector::Descendant(_, c) => c.is_unique(),
            Selector::Child(_, c) => c.is_unique(),
            _ => false,
        }
    }
}

/// Whether `c` is a white-space character, as `char::is_whitespace` says.
pub open spec fn is_ws(c: char) -> bool {
    let u = c as u32;
    (9 <= u <= 13) || u == 32 || u == 0x85 || u == 0xA0 || u == 0x1680 || (0x2000 <= u <= 0x200A)
        || u == 0x2028 || u == 0x2029 || u == 0x202F || u == 0x205F || u == 0x3000
}

/// Whether `s` begins with `p`.
pub open spec fn starts_with(s: Seq<char>, p: Seq<char>) -> bool {
    p.len() <= s.len() && s.take(p.len() as int) == p
}

/// Whether `s` ends with `p`.
pub open spec fn ends_with(s: Seq<char>, p: Seq<char>) -> bool {
    p.len() <= s.len() && s.skip(s.len() - p.len()) == p
}

/// Whether `p` occurs in `s`.
pub open spec fn contains_text(s: Seq<char>, p: Seq<char>) -> bool {
    exists|i: int| 0 <= i <= s.len() - p.len() && #[trigger] s.subrange(i, i + p.len()) == p
}

/// Whether `w` is one of the words of `s`, the maximal runs of
/// non-white-space characters.
pub open spec fn has_word(s: Seq<char>, w: Seq<char>) -> bool {
    exists|i: int, j: int| 0 <= i < j <= s.len() && #[trigger] s.subrange(i, j) == w
        && (i == 0 || is_ws(s[i - 1])) && (j == s.len() || is_ws(s[j]))
        && forall|k: int| i <= k < j ==> !is_ws(#[trigger] s[k])
}

/// The text of an attribute value, with no value reading as empty.
pub open spec fn attr_value_text(v: Option<Seq<char>>) -> Seq<char> {
    match v {
        Some(t) => t,
        None => Seq::empty(),
    }
}

/// Whether some attribute named `n` satisfies `f`.
pub open spec fn some_attr(s: Seq<AttributeV>, n: AttributeNameV, f: spec_fn(Seq<char>) -> bool) -> bool {
    exists|i: int| 0 <= i < s.len() && #[trigger] s[i].0 == n && f(attr_value_text(s[i].1))
}

/// The `k`-th ancestor of `n`: `n` itself for 0, then its parent, and so on.
pub open spec fn ancestor(d: DocumentV, n: nat, k: nat) -> Option<nat>
    decreases k,
{
    if k == 0 {
        Some(n)
    } else {
        match ancestor(d, n, (k - 1) as nat) {
            Some(m) => d.parents[m as int],
            None => None,
        }
    }
}

/// Whether the chain of parents from `n` ends.
pub open spec fn chain_ends(d: DocumentV, n: nat) -> bool {
    exists|k: nat| #[trigger] ancestor(d, n, k) is None
}

/// Whether a selector looks at ancestors beyond the parent.
pub open spec fn climbs(s: Selector) -> bool
    decreases s,
{
    match s {
        Selector::And(l, r) => climbs(*l) || climbs(*r),
        Selector::Or(l, r) => climbs(*l) || climbs(*r),
        Selector::Descendant(_, _) => true,
        Selector::Child(p, c) => climbs(*p) || climbs(*c),
        _ => false,
    }
}

/// What an attribute selector asks of the text of a value.
pub open spec fn value_pred(s: Selector) -> spec_fn(Seq<char>) -> bool {
    match s {
        Selector::AttributeValue(_, value) => |v: Seq<char>| v == value_text(value),
        Selector::AttributeValueWhitespacedContains(_, w) => |v: Seq<char>| has_word(v, w@),
        Selector::AttributeValueStartsWith(_, p) => |v: Seq<char>| starts_with(v, p@),
        Selector::AttributeValueEndsWith(_, p) => |v: Seq<char>| ends_with(v, p@),
        Selector::AttributeValueSubstring(_, p) => |v: Seq<char>| contains_text(v, p@),
        _ => |v: Seq<char>| true,
    }
}

/// Whether node `n` of `d` matches selector `s`.
pub open spec fn matches_spec(s: Selector, n: nat, d: DocumentV) -> bool
    decreases s,
{
    match d.nodes[n as int] {
        NodeDataV::Element(e) => match s {
            Selector::Tag(t) => e.0 == split_qualified(t@),
            Selector::Id(id) => lookup(d.ids, id@) == Some(n),
            Selector::All => true,
            Selector::And(l, r) => matches_spec(*l, n, d) && matches_spec(*r, n, d),
            Selector::Or(l, r) => matches_spec(*l, n, d) || matches_spec(*r, n, d),
            Selector::Descendant(a, c) => matches_spec(*c, n, d)
                && exists|k: nat| k >= 1 && (#[trigger] ancestor(d, n, k) matches Some(p) && matches_spec(*a, p, d)),
            Selector::Child(p, c) => matches_spec(*c, n, d)
                && (d.parents[n as int] matches Some(q) && matches_spec(*p, q, d)),
            Selector::Attribute(name) => some_attr(e.1, split_qualified(name@), value_pred(s)),
            Selector::AttributeValue(name, _) => some_attr(e.1, split_qualified(name@), value_pred(s)),
            Selector::AttributeValueWhitespacedContains(name, _) => some_attr(e.1, split_qualified(name@), value_pred(s)),
            Selector::AttributeValueStartsWith(name, _) => some_attr(e.1, split_qualified(name@), value_pred(s)),
            Selector::AttributeValueEndsWith(name, _) => some_attr(e.1, split_qualified(name@), value_pred(s)),
            Selector::AttributeValueSubstring(name, _) => some_attr(e.1, split_qualified(name@), value_pred(s)),
        },
        _ => false,
    }
}

/// Whether `c` is a white-space character.
pub fn is_ws_exec(c: char) -> (r: bool)
    ensures
        r == is_ws(c),
{
    let u = c as u32;
    (9 <= u && u <= 13) || u == 32 || u == 0x85 || u == 0xA0 || u == 0x1680 || (0x2000 <= u && u <= 0x200A)
        || u == 0x2028 || u == 0x2029 || u == 0x202F || u == 0x205F || u == 0x3000
}

/// Whether the characters `s[i..e)` are those of `w`.
fn substr_eq(s: &str, i: usize, e: usize, w: &str) -> (r: bool)
    requires
        i <= e <= s@.len(),
    ensures
        r == (s@.subrange(i as int, e as int) == w@),
{
    let m = w.unicode_len();
    if e - i != m {
        return false;
    }
    let mut k: usize = 0;
    while k < m
        invariant
            k <= m,
            m == w@.len(),
            e - i == m,
            i <= e <= s@.len(),
            forall|x: int| 0 <= x < k ==> s@[i + x] == w@[x],
        decreases m - k,
    {
        if s.get_char(i + k) != w.get_char(k) {
            assert(s@.subrange(i as int, e as int)[k as int] != w@[k as int]);
            return false;
        }
        k = k + 1;
    }
    assert(s@.subrange(i as int, e as int) =~= w@);
    true
}

/// Whether `s` begins with `p`.
pub fn starts_with_exec(s: &str, p: &str) -> (r: bool)
    ensures
        r == starts_with(s@, p@),
{
    let n = s.unicode_len();
    let m = p.unicode_len();
    if m > n {
        return false;
    }
    let r = substr_eq(s, 0, m, p);
    assert(s@.subrange(0, m as int) =~= s@.take(m as int));
    r
}

/// Whether `s` ends with `p`.
pub fn ends_with_exec(s: &str, p: &str) -> (r: bool)
    ensures
        r == ends_with(s@, p@),
{
    let n = s.unicode_len();
    let m = p.unicode_len();
    if m > n {
        return false;
    }
    let r = substr_eq(s, n - m, n, p);
    assert(s@.subrange((n - m) as int, n as int) =~= s@.skip(n - m));
    r
}

/// Whether `p` occurs in `s`.
pub fn contains_exec(s: &str, p: &str) -> (r: bool)
    ensures
        r == contains_text(s@, p@),
{
    let n = s.unicode_len();
    let m = p.unicode_len();
    if m > n {
        return false;
    }
    if m == 0 {
        assert(s@.subrange(0, 0 + p@.len() as int) =~= p@);
        return true;
    }
    let mut i: usize = 0;
    while i <= n - m
        invariant
            n == s@.len(),
            m == p@.len(),
            m <= n,
            m >= 1,
            i <= n - m + 1,
            forall|x: int| 0 <= x < i ==> #[trigger] s@.subrange(x, x + m) != p@,
        decreases n - m + 1 - i,
    {
        if substr_eq(s, i, i + m, p) {
            return true;
        }
        i = i + 1;
    }
    false
}

/// Whether `w` is one of the words of `s`.
pub fn has_word_exec(s: &str, w: &str) -> (r: bool)
    ensures
        r == has_word(s@, w@),
{
    let n = s.unicode_len();
    let mut i: usize = 0;
    while i < n
        invariant
            n == s@.len(),
            i <= n,
            i == 0 || i == n || is_ws(s@[i - 1]),
            forall|a: int, b: int| 0 <= a < i && a < b <= n && #[trigger] s@.subrange(a, b) == w@
                ==> !((a == 0 || is_ws(s@[a - 1])) && (b == n || is_ws(s@[b])) && forall|k: int| a <= k < b ==> !is_ws(#[trigger] s@[k])),
        decreases n - i,
    {
        if is_ws_exec(s.get_char(i)) {
            i = i + 1;
        } else {
            let mut e = i + 1;
            while e < n && !is_ws_exec(s.get_char(e))
                invariant
                    i < e <= n,
                    n == s@.len(),
                    forall|k: int| i <= k < e ==> !is_ws(#[trigger] s@[k]),
                decreases n - e,
            {
                e = e + 1;
            }
            if substr_eq(s, i, e, w) {
                return true;
            }
            proof {
                assert forall|a: int, b: int| 0 <= a < (if e < n { e + 1 } else { e as int }) && a < b <= n && #[trigger] s@.subrange(a, b) == w@
                    implies !((a == 0 || is_ws(s@[a - 1])) && (b == n || is_ws(s@[b])) && forall|k: int| a <= k < b ==> !is_ws(#[trigger] s@[k])) by {
                    if a > i && a <= e {
                        if a < e {
                            assert(!is_ws(s@[a - 1]));
                        } else if e < n {
                            assert(is_ws(s@[e as int]));
                            assert(!(forall|k: int| a <= k < b ==> !is_ws(#[trigger] s@[k])));
                        } else {
                            assert(!is_ws(s@[a - 1]));
                        }
                    } else if a == i {
                        if b < e {
                            assert(!is_ws(s@[b]));
                        } else if b > e {
                            assert(is_ws(s@[e as int]));
                            assert(!(forall|k: int| a <= k < b ==> !is_ws(#[trigger] s@[k])));
                        }
                    }
                }
            }
            if e < n {
                i = e + 1;
            } else {
                i = e;
            }
        }
    }
    false
}

/// Whether the value `v` satisfies what selector `kind` asks of values.
fn value_ok(kind: &Selector, v: &Option<String>) -> (r: bool)
    ensures
        r == (value_pred(*kind))(attr_value_text(opt_str_view(*v))),
{
    let empty = String::new();
    let text: &str = match v {
        Some(t) => t.as_str(),
        None => empty.as_str(),
    };
    assert(text@ == attr_value_text(opt_str_view(*v)));
    match kind {
        Selector::AttributeValue(_, value) => value.same_as_str(text),
        Selector::AttributeValueWhitespacedContains(_, w) => has_word_exec(text, w),
        Selector::AttributeValueStartsWith(_, p) => starts_with_exec(text, p),
        Selector::AttributeValueEndsWith(_, p) => ends_with_exec(text, p),
        Selector::AttributeValueSubstring(_, p) => contains_exec(text, p),
        _ => true,
    }
}

/// Whether some attribute named `name` has a value that satisfies what
/// selector `kind` asks.
fn has_attr_where(attrs: &Vec<super::attribute::Attribute>, name: &AttributeName, kind: &Selector) -> (r: bool)
    ensures
        r == some_attr(attrs_view(attrs@), name@, value_pred(*kind)),
{
    let ghost sv = attrs_view(attrs@);
    let mut i: usize = 0;
    while i < attrs.len()
        invariant
            i <= attrs.len(),
            sv == attrs_view(attrs@),
            forall|j: int| 0 <= j < i ==> !(#[trigger] sv[j].0 == name@ && (value_pred(*kind))(attr_value_text(sv[j].1))),
        decreases attrs.len() - i,
    {
        if attrs[i].name.same(name) && value_ok(kind, &attrs[i].value) {
            assert(sv[i as int].0 == name@);
            return true;
        }
        i = i + 1;
    }
    false
}

/// The ancestor of an ancestor is an ancestor.
pub proof fn lemma_ancestor_compose(d: DocumentV, n: nat, i: nat, p: nat, k: nat)
    requires
        ancestor(d, n, i) == Some(p),
    ensures
        ancestor(d, p, k) == ancestor(d, n, i + k),
    decreases k,
{
    if k > 0 {
        lemma_ancestor_compose(d, n, i, p, (k - 1) as nat);
    }
}

/// Once the chain of parents ends, it stays ended.
pub proof fn lemma_ancestor_none(d: DocumentV, n: nat, j: nat, k: nat)
    requires
        ancestor(d, n, j) is None,
        j <= k,
    ensures
        ancestor(d, n, k) is None,
    decreases k - j,
{
    if j < k {
        lemma_ancestor_none(d, n, j, (k - 1) as nat);
    }
}

/// The chain of parents of an ancestor ends when that of the node does.
proof fn lemma_chain_ends_ancestor(d: DocumentV, n: nat, i: nat, p: nat)
    requires
        chain_ends(d, n),
        ancestor(d, n, i) == Some(p),
    ensures
        chain_ends(d, p),
{
    let k = choose|k: nat| #[trigger] ancestor(d, n, k) is None;
    if k <= i {
        lemma_ancestor_none(d, n, k, i);
    }
    let kk = (k - i) as nat;
    lemma_ancestor_compose(d, n, i, p, kk);
}

/// Ancestors in a well-formed document are its nodes.
pub proof fn lemma_ancestor_valid(d: DocumentV, n: nat, i: nat)
    requires
        wf(d),
        n < d.nodes.len(),
    ensures
        ancestor(d, n, i) matches Some(p) ==> p < d.nodes.len(),
    decreases i,
{
    if i > 0 {
        lemma_ancestor_valid(d, n, (i - 1) as nat);
    }
}

impl<'a> Selector<'a> {
    /// Whether `node` of `document` matches the selector.
    pub fn matches(&self, node: NodeRef, document: &Document) -> (r: bool)
        requires
            wf(document@),
            node.0 < document@.nodes.len(),
            climbs(*self) ==> chain_ends(document@, node.0 as nat),
        ensures
            r == matches_spec(*self, node.0 as nat, document@),
        decreases self,
    {
        let ghost d = document@;
        let element = match document.get(node) {
            NodeData::NodeElement { element } => element,
            _ => return false,
        };
        match self {
            Selector::Tag(t) => element.name.same(&ElementName::from_text(t.as_str())),
            Selector::Id(id) => match document.get_by_id(id) {
                None => false,
                Some(identified) => node.0 == identified.0,
            },
            Selector::All => true,
            Selector::And(l, r) => l.matches(node, document) && r.matches(node, document),
            Selector::Or(l, r) => l.matches(node, document) || r.matches(node, document),
            Selector::Descendant(ancestor_sel, selector) => {
                if !selector.matches(node, document) {
                    return false;
                }
                let ghost n = node.0 as nat;
                let ghost k0 = choose|k: nat| #[trigger] ancestor(d, n, k) is None;
                let mut parent = document.parent(node);
                proof { reveal_with_fuel(ancestor, 2); }
                let ghost mut i: nat = 1;
                while parent.is_some()
                    invariant
                        wf(d),
                        d == document@,
                        n == node.0 as nat,
                        n < d.nodes.len(),
                        *self == Selector::Descendant(*ancestor_sel, *selector),
                        decreases_to!(*self => **ancestor_sel),
                        d.nodes[n as int] is Element,
                        matches_spec(**selector, n, d),
                        chain_ends(d, n),
                        ancestor(d, n, k0) is None,
                        i >= 1,
                        super::document::opt_ref_view(parent) == ancestor(d, n, i),
                        forall|j: nat| 1 <= j < i ==> (#[trigger] ancestor(d, n, j) matches Some(p) ==> !matches_spec(**ancestor_sel, p, d)),
                    decreases k0 - i,
                {
                    let p = parent.unwrap();
                    proof {
                        if k0 <= i {
                            lemma_ancestor_none(d, n, k0, i);
                        }
                        lemma_ancestor_valid(d, n, i);
                        lemma_chain_ends_ancestor(d, n, i, p.0 as nat);
                    }
                    if ancestor_sel.matches(p, document) {
                        assert(ancestor(d, n, i) matches Some(q) && matches_spec(**ancestor_sel, q, d));
                        return true;
                    }
                    parent = document.parent(p);
                    proof { i = i + 1; }
                }
                proof {
                    assert forall|k: nat| k >= 1 && (#[trigger] ancestor(d, n, k) matches Some(p) && matches_spec(**ancestor_sel, p, d)) implies false by {
                        if k >= i {
                            lemma_ancestor_none(d, n, i, k);
                        }
                    }
                }
                false
            },
            Selector::Child(parent_sel, selector) => {
                if !selector.matches(node, document) {
                    return false;
                }
                match document.parent(node) {
                    None => false,
                    Some(p) => {
                        proof {
                            reveal_with_fuel(ancestor, 2);
                            assert(ancestor(d, node.0 as nat, 1) == Some(p.0 as nat));
                            if climbs(**parent_sel) {
                                lemma_chain_ends_ancestor(d, node.0 as nat, 1, p.0 as nat);
                            }
                        }
                        parent_sel.matches(p, document)
                    },
                }
            },
            Selector::Attribute(name) => has_attr_where(&element.attributes, &AttributeName::from_text(name.as_str()), self),
            Selector::AttributeValue(name, _) => has_attr_where(&element.attributes, &AttributeName::from_text(name.as_str()), self),
            Selector::AttributeValueWhitespacedContains(name, _) => has_attr_where(&element.attributes, &AttributeName::from_text(name.as_str()), self),
            Selector::AttributeValueStartsWith(name, _) => has_attr_where(&element.attributes, &AttributeName::from_text(name.as_str()), self),
            Selector::AttributeValueEndsWith(name, _) => has_attr_where(&element.attributes, &AttributeName::from_text(name.as_str()), self),
            Selector::AttributeValueSubstring(name, _) => has_attr_where(&element.attributes, &AttributeName::from_text(name.as_str()), self),
        }
    }
}


// ---------------------------------------------------------------------------
// Selection: the nodes under the root that match a selector, in the order of
// a depth-first walk that keeps its pending nodes on a stack and so takes the
// children of a node from the last to the first.

/// The nodes of the subtree at `n`, in walk order; `None` when `fuel` runs
/// out first.
pub open spec fn walk(d: DocumentV, fuel: nat, n: nat) -> Option<Seq<nat>>
    decreases fuel, 0nat,
{
    if fuel == 0 {
        None
    } else {
        match walk_children(d, (fuel - 1) as nat, d.children[n as int]) {
            Some(s) => Some(seq![n] + s),
            None => None,
        }
    }
}

/// The subtrees of the nodes `cs`, the last one first.
pub open spec fn walk_children(d: DocumentV, fuel: nat, cs: Seq<nat>) -> Option<Seq<nat>>
    decreases fuel, cs.len() + 1,
{
    if cs.len() == 0 {
        Some(Seq::empty())
    } else {
        match walk_children(d, fuel, cs.drop_first()) {
            Some(a) => match walk(d, fuel, cs[0]) {
                Some(b) => Some(a + b),
                None => None,
            },
            None => None,
        }
    }
}

/// Whether the walk from the root ends.
pub open spec fn walkable(d: DocumentV) -> bool {
    exists|fuel: nat| #[trigger] walk(d, fuel, d.root) is Some
}

/// The walk from node `n`, when it ends.
pub open spec fn walk_from(d: DocumentV, n: nat) -> Seq<nat> {
    walk(d, choose|fuel: nat| #[trigger] walk(d, fuel, n) is Some, n)->0
}

/// The walk from the root, when it ends.
pub open spec fn walk_order(d: DocumentV) -> Seq<nat> {
    walk_from(d, d.root)
}

/// The nodes of `s` that satisfy `p`, in order.
pub open spec fn matching(p: spec_fn(nat) -> bool, s: Seq<nat>) -> Seq<nat>
    decreases s.len(),
{
    if s.len() == 0 {
        Seq::empty()
    } else if p(s.last()) {
        matching(p, s.drop_last()).push(s.last())
    } else {
        matching(p, s.drop_last())
    }
}

/// Whether node `n` of `d` matches `sel`, as a predicate on nodes.
pub open spec fn matcher(d: DocumentV, sel: Selector) -> spec_fn(nat) -> bool {
    |n: nat| matches_spec(sel, n, d)
}

/// What selecting with `sel` yields: the matching nodes of the walk from the
/// root, or only the first of them when the selector can match one node at
/// most.
pub open spec fn selection(d: DocumentV, sel: Selector) -> Seq<nat> {
    selection_from(d, sel, d.root)
}

/// What selecting with `sel` from node `n` yields, as [selection] does from
/// the root.
pub open spec fn selection_from(d: DocumentV, sel: Selector, n: nat) -> Seq<nat> {
    let m = matching(matcher(d, sel), walk_from(d, n));
    if unique_spec(sel) && m.len() > 1 { m.take(1) } else { m }
}

/// The view of a list of node references.
pub open spec fn refs_nat(v: Seq<NodeRef>) -> Seq<nat> {
    v.map_values(|r: NodeRef| r.0 as nat)
}

/// A child of a node whose chain of parents ends has such a chain too.
proof fn lemma_child_chain_ends(d: DocumentV, c: nat, p: nat)
    requires
        chain_ends(d, p),
        d.parents[c as int] == Some(p),
    ensures
        chain_ends(d, c),
{
    let k = choose|k: nat| #[trigger] ancestor(d, p, k) is None;
    reveal_with_fuel(ancestor, 2);
    assert(ancestor(d, c, 1) == Some(p));
    lemma_ancestor_compose(d, c, 1, p, k);
    assert(ancestor(d, c, 1 + k) is None);
}

/// The nodes of a walk from a node of a well-formed document are nodes of
/// the document, and when the chain of parents of the start ends, so do
/// theirs.
proof fn lemma_walk_nodes(d: DocumentV, fuel: nat, n: nat)
    requires
        wf(d),
        n < d.nodes.len(),
        walk(d, fuel, n) is Some,
    ensures
        forall|i: int| 0 <= i < walk(d, fuel, n)->0.len() ==> #[trigger] walk(d, fuel, n)->0[i] < d.nodes.len(),
        chain_ends(d, n) ==> forall|i: int| 0 <= i < walk(d, fuel, n)->0.len() ==> chain_ends(d, #[trigger] walk(d, fuel, n)->0[i]),
    decreases fuel, 0nat,
{
    let cs = d.children[n as int];
    assert forall|j: int| 0 <= j < cs.len() implies #[trigger] cs[j] < d.nodes.len() && d.parents[cs[j] as int] == Some(n) by {
        assert(d.children[n as int][j] == cs[j]);
    }
    lemma_walk_children_nodes(d, (fuel - 1) as nat, n, cs);
}

/// The nodes of the walks from children of `p` are nodes of the document,
/// with ending chains of parents when that of `p` ends.
proof fn lemma_walk_children_nodes(d: DocumentV, fuel: nat, p: nat, cs: Seq<nat>)
    requires
        wf(d),
        forall|j: int| 0 <= j < cs.len() ==> #[trigger] cs[j] < d.nodes.len() && d.parents[cs[j] as int] == Some(p),
        walk_children(d, fuel, cs) is Some,
    ensures
        forall|i: int| 0 <= i < walk_children(d, fuel, cs)->0.len() ==> #[trigger] walk_children(d, fuel, cs)->0[i] < d.nodes.len(),
        chain_ends(d, p) ==> forall|i: int| 0 <= i < walk_children(d, fuel, cs)->0.len() ==> chain_ends(d, #[trigger] walk_children(d, fuel, cs)->0[i]),
    decreases fuel, cs.len() + 1,
{
    if cs.len() > 0 {
        let rest = cs.drop_first();
        assert forall|j: int| 0 <= j < rest.len() implies #[trigger] rest[j] < d.nodes.len() && d.parents[rest[j] as int] == Some(p) by {
            assert(rest[j] == cs[j + 1]);
        }
        lemma_walk_children_nodes(d, fuel, p, rest);
        assert(cs[0] < d.nodes.len() && d.parents[cs[0] as int] == Some(p));
        lemma_walk_nodes(d, fuel, cs[0]);
        if chain_ends(d, p) {
            lemma_child_chain_ends(d, cs[0], p);
        }
        let a = walk_children(d, fuel, rest)->0;
        let b = walk(d, fuel, cs[0])->0;
        assert(walk_children(d, fuel, cs)->0 == a + b);
        assert forall|i: int| 0 <= i < (a + b).len() implies #[trigger] (a + b)[i] < d.nodes.len() by {
            if i < a.len() { assert((a + b)[i] == a[i]); } else { assert((a + b)[i] == b[i - a.len()]); }
        }
        if chain_ends(d, p) {
            assert forall|i: int| 0 <= i < (a + b).len() implies chain_ends(d, #[trigger] (a + b)[i]) by {
                if i < a.len() { assert((a + b)[i] == a[i]); } else { assert((a + b)[i] == b[i - a.len()]); }
            }
        }
    }
}

/// Appends the walk from `n` to `out`.
fn walk_exec(doc: &Document, n: NodeRef, out: &mut Vec<NodeRef>, Ghost(fuel): Ghost<nat>)
    requires
        wf(doc@),
        n.0 < doc@.nodes.len(),
        walk(doc@, fuel, n.0 as nat) is Some,
    ensures
        refs_nat(final(out)@) == refs_nat(old(out)@) + walk(doc@, fuel, n.0 as nat)->0,
    decreases fuel, 0nat,
{
    out.push(n);
    proof {
        assert(refs_nat(out@) =~= refs_nat(old(out)@) + seq![n.0 as nat]);
    }
    walk_children_exec(doc, n, out, Ghost((fuel - 1) as nat));
    assert(refs_nat(out@) =~= refs_nat(old(out)@) + walk(doc@, fuel, n.0 as nat)->0);
}

/// Appends the walks from the children of `n`, the last child first.
fn walk_children_exec(doc: &Document, n: NodeRef, out: &mut Vec<NodeRef>, Ghost(fuel): Ghost<nat>)
    requires
        wf(doc@),
        n.0 < doc@.nodes.len(),
        walk_children(doc@, fuel, doc@.children[n.0 as int]) is Some,
    ensures
        refs_nat(final(out)@) == refs_nat(old(out)@) + walk_children(doc@, fuel, doc@.children[n.0 as int])->0,
    decreases fuel, doc@.children[n.0 as int].len() + 1,
{
    let ghost d = doc@;
    let ghost cs = d.children[n.0 as int];
    let ghost start = refs_nat(out@);
    let ch = doc.children(n);
    let len = ch.len();
    let mut i: usize = len;
    assert(cs.subrange(len as int, len as int) =~= Seq::<nat>::empty());
    assert(refs_nat(out@) =~= start + Seq::<nat>::empty());
    while i > 0
        invariant
            wf(doc@),
            d == doc@,
            n.0 < d.nodes.len(),
            cs == d.children[n.0 as int],
            crate::dom::document::refs_view(ch@) == cs,
            len == ch.len(),
            i <= len,
            walk_children(d, fuel, cs) is Some,
            walk_children(d, fuel, cs.subrange(i as int, len as int)) is Some,
            refs_nat(out@) == start + walk_children(d, fuel, cs.subrange(i as int, len as int))->0,
        decreases i,
    {
        proof { lemma_walk_children_suffix(d, fuel, cs, (i - 1) as int); }
        let c = ch[i - 1];
        assert(cs[i - 1] == c.0 as nat);
        assert(d.children[n.0 as int][i - 1] == c.0 as nat);
        let ghost before = refs_nat(out@);
        walk_exec(doc, c, out, Ghost(fuel));
        proof {
            let sub = cs.subrange(i - 1, len as int);
            assert(sub.drop_first() =~= cs.subrange(i as int, len as int));
            assert(sub[0] == c.0 as nat);
        }
        i = i - 1;
    }
    assert(cs.subrange(0, len as int) =~= cs);
}

/// A walk over all the children ends for each of their suffixes, and the
/// walk over a longer suffix adds the walk from its first node.
proof fn lemma_walk_children_suffix(d: DocumentV, fuel: nat, cs: Seq<nat>, i: int)
    requires
        0 <= i < cs.len(),
        walk_children(d, fuel, cs) is Some,
    ensures
        walk_children(d, fuel, cs.subrange(i + 1, cs.len() as int)) is Some,
        walk(d, fuel, cs[i]) is Some,
        walk_children(d, fuel, cs.subrange(i, cs.len() as int)) is Some,
    decreases i,
{
    if i == 0 {
        assert(cs.subrange(0, cs.len() as int) =~= cs);
        assert(cs.drop_first() =~= cs.subrange(1, cs.len() as int));
    } else {
        let rest = cs.drop_first();
        lemma_walk_children_suffix(d, fuel, rest, i - 1);
        assert(rest.subrange(i, rest.len() as int) =~= cs.subrange(i + 1, cs.len() as int));
        assert(rest.subrange(i - 1, rest.len() as int) =~= cs.subrange(i, cs.len() as int));
        assert(rest[i - 1] == cs[i]);
    }
}

/// The nodes under `n` that match `selector`, in walk order; only the
/// first of them when the selector can match one node at most.
fn select_from(doc: &Document, n: NodeRef, selector: Selector) -> (r: Vec<NodeRef>)
    requires
        wf(doc@),
        n.0 < doc@.nodes.len(),
        chain_ends(doc@, n.0 as nat),
    ensures
        refs_nat(r@) == selection_from(doc@, selector, n.0 as nat),
{
    let ghost d = doc@;
    let ghost start = n.0 as nat;
    proof {
        lemma_chain_depth(d, start);
        lemma_walk_ends(d, start, d.nodes.len());
    }
    let ghost fuel = choose|fuel: nat| #[trigger] walk(d, fuel, start) is Some;
    let mut order: Vec<NodeRef> = Vec::new();
    walk_exec(doc, n, &mut order, Ghost(fuel));
    assert(refs_nat(order@) =~= walk_from(d, start));
    proof {
        lemma_walk_nodes(d, fuel, start);
        assert forall|k: int| 0 <= k < order.len() implies (#[trigger] order@[k]).0 < d.nodes.len()
            && (climbs(selector) ==> chain_ends(d, order@[k].0 as nat)) by {
            assert(refs_nat(order@)[k] == order@[k].0 as nat);
            assert(walk_from(d, start)[k] == walk(d, fuel, start)->0[k]);
        }
    }
    let unique = selector.is_unique();
    let mut out: Vec<NodeRef> = Vec::new();
    let mut i: usize = 0;
    while i < order.len()
        invariant
            wf(doc@),
            d == doc@,
            refs_nat(order@) == walk_from(d, start),
            start == n.0 as nat,
            i <= order.len(),
            forall|k: int| 0 <= k < order.len() ==> (#[trigger] order@[k]).0 < d.nodes.len(),
            climbs(selector) ==> forall|k: int| 0 <= k < order.len() ==> chain_ends(d, (#[trigger] order@[k]).0 as nat),
            refs_nat(out@) == matching(matcher(d, selector), walk_from(d, start).take(i as int)),
            unique == unique_spec(selector),
            unique ==> out.len() == 0,
        decreases order.len() - i,
    {
        let ghost w = walk_from(d, start);
        assert(w[i as int] == order@[i as int].0 as nat);
        assert(w.take(i + 1).drop_last() =~= w.take(i as int));
        assert(w.take(i + 1).last() == order@[i as int].0 as nat);
        let node = order[i];
        if selector.matches(node, doc) {
            out.push(node);
            assert(refs_nat(out@) =~= matching(matcher(d, selector), w.take(i + 1)));
            if unique {
                proof {
                    lemma_matching_first(matcher(d, selector), w, i as int);
                    let m = matching(matcher(d, selector), w);
                    if m.len() == 1 {
                        assert(m.take(1) =~= m);
                    }
                    assert(selection_from(d, selector, start) == m.take(1));
                }
                return out;
            }
        } else {
            assert(refs_nat(out@) =~= matching(matcher(d, selector), w.take(i + 1)));
        }
        i = i + 1;
    }
    assert(walk_from(d, start).take(order.len() as int) =~= walk_from(d, start));
    out
}

impl Document {
    /// The nodes under the root that match `selector`, in the order of a
    /// depth-first walk that takes the children of a node from the last to
    /// the first; only the first of them when the selector can match one node
    /// at most.
    pub fn select(&self, selector: Selector) -> (r: Vec<NodeRef>)
        requires
            wf(self@),
            chain_ends(self@, self@.root),
        ensures
            refs_nat(r@) == selection(self@, selector),
    {
        select_from(self, self.root(), selector)
    }

    /// The nodes of the part of the document under `node` that match
    /// `selector`, as [Document::select] finds them under the root.
    pub fn select_children(&self, node: NodeRef, selector: Selector) -> (r: Vec<NodeRef>)
        requires
            wf(self@),
            node.0 < self@.nodes.len(),
            chain_ends(self@, node.0 as nat),
        ensures
            refs_nat(r@) == selection_from(self@, selector, node.0 as nat),
    {
        select_from(self, node, selector)
    }
}

/// When the first match of a sequence is at `i`, the matches of its first
/// `i + 1` nodes are the first match of the whole.
proof fn lemma_matching_first(p: spec_fn(nat) -> bool, w: Seq<nat>, i: int)
    requires
        0 <= i < w.len(),
        matching(p, w.take(i)).len() == 0,
        p(w[i]),
    ensures
        matching(p, w).len() >= 1,
        matching(p, w).take(1) == matching(p, w.take(i + 1)),
{
    lemma_matching_prefix(p, w, i + 1);
    assert(w.take(i + 1).drop_last() =~= w.take(i));
    assert(matching(p, w.take(i + 1)) =~= seq![w[i]]);
}

/// The matches of a prefix are a prefix of the matches.
proof fn lemma_matching_prefix(p: spec_fn(nat) -> bool, w: Seq<nat>, k: int)
    requires
        0 <= k <= w.len(),
    ensures
        matching(p, w.take(k)).len() <= matching(p, w).len(),
        matching(p, w).take(matching(p, w.take(k)).len() as int) == matching(p, w.take(k)),
    decreases w.len() - k,
{
    if k == w.len() {
        assert(w.take(k) =~= w);
    } else {
        lemma_matching_prefix(p, w, k + 1);
        assert(w.take(k + 1).drop_last() =~= w.take(k));
        let a = matching(p, w.take(k));
        let b = matching(p, w.take(k + 1));
        let m = matching(p, w);
        assert(m.take(a.len() as int) =~= b.take(a.len() as int));
    }
}

/// The nodes of the walk from the root of a well-formed document are its
/// nodes.
pub proof fn lemma_walk_order_nodes(d: DocumentV)
    requires
        wf(d),
        walkable(d),
    ensures
        forall|i: int| 0 <= i < walk_order(d).len() ==> #[trigger] walk_order(d)[i] < d.nodes.len(),
{
    let fuel = choose|fuel: nat| #[trigger] walk(d, fuel, d.root) is Some;
    lemma_walk_nodes(d, fuel, d.root);
}

/// The matches of a sequence of numbers below `b` are below `b`.
pub proof fn lemma_matching_below(p: spec_fn(nat) -> bool, w: Seq<nat>, b: nat)
    requires
        forall|i: int| 0 <= i < w.len() ==> #[trigger] w[i] < b,
    ensures
        forall|k: int| 0 <= k < matching(p, w).len() ==> #[trigger] matching(p, w)[k] < b,
    decreases w.len(),
{
    if w.len() > 0 {
        let r = w.drop_last();
        assert forall|i: int| 0 <= i < r.len() implies #[trigger] r[i] < b by { assert(r[i] == w[i]); }
        lemma_matching_below(p, r, b);
        let mr = matching(p, r);
        let m = matching(p, w);
        assert(w.last() == w[w.len() - 1]);
        assert forall|k: int| 0 <= k < m.len() implies #[trigger] m[k] < b by {
            if k < mr.len() {
                assert(m[k] == mr[k]);
            } else {
                assert(m[k] == w.last());
            }
        }
    }
}

// ---------------------------------------------------------------------------
// Depth: a node whose chain of parents ends has a subtree of bounded depth,
// so that walks from it end.

/// Every node of `d` whose chain of parents reaches `n` does so in fewer
/// than `f` steps.
pub open spec fn depth_below(d: DocumentV, n: nat, f: nat) -> bool {
    forall|x: nat, k: nat| x < d.nodes.len() && #[trigger] ancestor(d, x, k) == Some(n) ==> k < f
}

/// A bound on the depth under a node bounds the depth under its children.
pub proof fn lemma_depth_child(d: DocumentV, n: nat, c: nat, f: nat)
    requires
        depth_below(d, n, f),
        c < d.nodes.len(),
        d.parents[c as int] == Some(n),
    ensures
        f > 0,
        depth_below(d, c, (f - 1) as nat),
{
    assert forall|x: nat, k: nat| x < d.nodes.len() && #[trigger] ancestor(d, x, k) == Some(c) implies k < f - 1 by {
        assert(ancestor(d, x, k + 1) == Some(n));
    }
    reveal_with_fuel(ancestor, 2);
    assert(ancestor(d, c, 1) == Some(n));
}

/// A walk from a node ends when the depth under it is bounded by the fuel.
pub proof fn lemma_walk_ends(d: DocumentV, n: nat, f: nat)
    requires
        wf(d),
        n < d.nodes.len(),
        depth_below(d, n, f),
    ensures
        walk(d, f, n) is Some,
    decreases f, 0nat,
{
    assert(ancestor(d, n, 0) == Some(n));
    let cs = d.children[n as int];
    assert forall|j: int| 0 <= j < cs.len() implies #[trigger] cs[j] < d.nodes.len() && d.parents[cs[j] as int] == Some(n) by {
        assert(d.children[n as int][j] == cs[j]);
    }
    lemma_walk_children_ends(d, n, (f - 1) as nat, cs);
}

/// The walks from children of `p` end when the depth under `p` is bounded
/// by one more than the fuel.
proof fn lemma_walk_children_ends(d: DocumentV, p: nat, f: nat, cs: Seq<nat>)
    requires
        wf(d),
        forall|j: int| 0 <= j < cs.len() ==> #[trigger] cs[j] < d.nodes.len() && d.parents[cs[j] as int] == Some(p),
        depth_below(d, p, f + 1),
    ensures
        walk_children(d, f, cs) is Some,
    decreases f, cs.len() + 1,
{
    if cs.len() > 0 {
        let rest = cs.drop_first();
        assert forall|j: int| 0 <= j < rest.len() implies #[trigger] rest[j] < d.nodes.len() && d.parents[rest[j] as int] == Some(p) by {
            assert(rest[j] == cs[j + 1]);
        }
        lemma_walk_children_ends(d, p, f, rest);
        assert(cs[0] < d.nodes.len() && d.parents[cs[0] as int] == Some(p));
        lemma_depth_child(d, p, cs[0], f + 1);
        lemma_walk_ends(d, cs[0], f);
    }
}

/// A chain of parents that comes back to a node never ends.
proof fn lemma_cycle_never_ends(d: DocumentV, a: nat, p: nat, t: nat)
    requires
        p > 0,
        ancestor(d, a, p) == Some(a),
    ensures
        ancestor(d, a, t * p) == Some(a),
    decreases t,
{
    if t > 0 {
        lemma_cycle_never_ends(d, a, p, (t - 1) as nat);
        let i: nat = ((t - 1) * p) as nat;
        assert((t - 1) * p >= 0) by (nonlinear_arith) requires t >= 1;
        assert((t - 1) * p + p == t * p) by (nonlinear_arith);
        lemma_ancestor_compose(d, a, i, a, p);
        assert(i + p == t * p);
    } else {
        assert(t * p == 0) by (nonlinear_arith) requires t == 0;
    }
}

/// Along a chain of parents that ends, no node comes twice.
proof fn lemma_chain_distinct(d: DocumentV, x: nat, i: nat, j: nat)
    requires
        chain_ends(d, x),
        i < j,
        ancestor(d, x, i) is Some,
    ensures
        ancestor(d, x, i) != ancestor(d, x, j),
{
    if ancestor(d, x, i) == ancestor(d, x, j) {
        let a = ancestor(d, x, i)->0;
        let p = (j - i) as nat;
        lemma_ancestor_compose(d, x, i, a, p);
        assert(ancestor(d, a, p) == Some(a));
        lemma_chain_ends_ancestor(d, x, i, a);
        let k = choose|k: nat| #[trigger] ancestor(d, a, k) is None;
        lemma_cycle_never_ends(d, a, p, k);
        assert(k * p >= k) by (nonlinear_arith) requires p > 0;
        lemma_ancestor_none(d, a, k, k * p);
    }
}

/// The depth under a node of a well-formed document whose chain of parents
/// ends is below the number of nodes.
pub proof fn lemma_chain_depth(d: DocumentV, n: nat)
    requires
        wf(d),
        n < d.nodes.len(),
        chain_ends(d, n),
    ensures
        depth_below(d, n, d.nodes.len()),
{
    assert forall|x: nat, k: nat| x < d.nodes.len() && #[trigger] ancestor(d, x, k) == Some(n) implies k < d.nodes.len() by {
        let kk = choose|kk: nat| #[trigger] ancestor(d, n, kk) is None;
        lemma_ancestor_compose(d, x, k, n, kk);
        assert(chain_ends(d, x)) by { assert(ancestor(d, x, k + kk) is None); }
        assert forall|i: nat| i <= k implies #[trigger] ancestor(d, x, i) is Some by {
            if ancestor(d, x, i) is None {
                lemma_ancestor_none(d, x, i, k);
            }
        }
        let s = Seq::new((k + 1) as nat, |i: int| ancestor(d, x, i as nat)->0 as int);
        assert forall|a: int, b: int| 0 <= a < s.len() && 0 <= b < s.len() && a != b implies s[a] != s[b] by {
            if a < b {
                lemma_chain_distinct(d, x, a as nat, b as nat);
                assert(ancestor(d, x, b as nat) is Some);
            } else {
                lemma_chain_distinct(d, x, b as nat, a as nat);
                assert(ancestor(d, x, a as nat) is Some);
            }
        }
        assert(s.no_duplicates());
        s.unique_seq_to_set();
        assert forall|v: int| s.to_set().contains(v) implies vstd::set_lib::set_int_range(0, d.nodes.len() as int).contains(v) by {
            let i = choose|i: int| 0 <= i < s.len() && s[i] == v;
            lemma_ancestor_valid(d, x, i as nat);
        }
        vstd::set_lib::lemma_int_range(0, d.nodes.len() as int);
        vstd::set_lib::lemma_len_subset(s.to_set(), vstd::set_lib::set_int_range(0, d.nodes.len() as int));
    }
}

/// A well-formed document whose root has a chain of parents that ends can
/// be walked.
pub proof fn lemma_walkable(d: DocumentV)
    requires
        wf(d),
        chain_ends(d, d.root),
    ensures
        walkable(d),
{
    lemma_chain_depth(d, d.root);
    lemma_walk_ends(d, d.root, d.nodes.len());
}

// ---------------------------------------------------------------------------
// Chains of parents across edits.

/// Whether the chain of parents of `x` in `d` reaches `n`: `x` is `n` or a
/// node under it.
pub open spec fn under(d: DocumentV, x: nat, n: nat) -> bool {
    exists|k: nat| #[trigger] ancestor(d, x, k) == Some(n)
}

/// Two documents that agree on the parents of the first `k` nodes of the
/// chain of `x` in `a` agree on that chain up to `k`.
pub proof fn lemma_chain_agree(a: DocumentV, b: DocumentV, x: nat, k: nat)
    requires
        forall|j: nat| j < k ==> (#[trigger] ancestor(a, x, j) matches Some(m) ==> a.parents[m as int] == b.parents[m as int]),
    ensures
        ancestor(a, x, k) == ancestor(b, x, k),
    decreases k,
{
    if k > 0 {
        lemma_chain_agree(a, b, x, (k - 1) as nat);
        assert(ancestor(a, x, (k - 1) as nat) matches Some(m) ==> a.parents[m as int] == b.parents[m as int]);
    }
}

/// In a document whose parents are those of a well-formed document or
/// none, a chain of parents is one of the well-formed document's.
pub proof fn lemma_chain_sub(cur: DocumentV, st: DocumentV, x: nat, k: nat)
    requires
        wf(st),
        x < st.nodes.len(),
        cur.parents.len() == st.parents.len(),
        forall|a: int| 0 <= a < st.parents.len() ==> (#[trigger] cur.parents[a] is None || cur.parents[a] == st.parents[a]),
        ancestor(cur, x, k) is Some,
    ensures
        ancestor(st, x, k) == ancestor(cur, x, k),
    decreases k,
{
    if k > 0 {
        if ancestor(cur, x, (k - 1) as nat) is None {
            lemma_ancestor_none(cur, x, (k - 1) as nat, k);
        } else {
            lemma_chain_sub(cur, st, x, (k - 1) as nat);
            lemma_ancestor_valid(st, x, (k - 1) as nat);
        }
    }
}

/// When the chain of `x` reaches `y`, there is a first step at which it
/// does.
pub proof fn lemma_first_reach(d: DocumentV, x: nat, y: nat, k: nat)
    requires
        ancestor(d, x, k) == Some(y),
    ensures
        exists|f: nat| #[trigger] ancestor(d, x, f) == Some(y) && f <= k && forall|j: nat| j < f ==> ancestor(d, x, j) != Some(y),
    decreases k,
{
    if exists|j: nat| j < k && ancestor(d, x, j) == Some(y) {
        let j = choose|j: nat| j < k && ancestor(d, x, j) == Some(y);
        lemma_first_reach(d, x, y, j);
    } else {
        assert(forall|j: nat| j < k ==> ancestor(d, x, j) != Some(y));
    }
}

/// Every match satisfies the predicate.
proof fn lemma_matching_satisfies(p: spec_fn(nat) -> bool, w: Seq<nat>)
    ensures
        forall|k: int| 0 <= k < matching(p, w).len() ==> p(#[trigger] matching(p, w)[k]),
    decreases w.len(),
{
    if w.len() > 0 {
        lemma_matching_satisfies(p, w.drop_last());
        let m = matching(p, w);
        let mr = matching(p, w.drop_last());
        assert forall|k: int| 0 <= k < m.len() implies p(#[trigger] m[k]) by {
            if k < mr.len() {
                assert(m[k] == mr[k]);
            }
        }
    }
}

/// Every node that selecting from `n` yields matches the selector.
pub proof fn law_selected_nodes_match(d: DocumentV, sel: Selector, n: nat, i: int)
    requires
        0 <= i < selection_from(d, sel, n).len(),
    ensures
        matches_spec(sel, selection_from(d, sel, n)[i], d),
{
    let m = matching(matcher(d, sel), walk_from(d, n));
    lemma_matching_satisfies(matcher(d, sel), walk_from(d, n));
    assert(selection_from(d, sel, n)[i] == m[i]);
    assert((matcher(d, sel))(m[i]));
}

/// The text of an attribute's value: the value, or empty when there is none.
pub open spec fn value_of(a: AttributeV) -> Seq<char> {
    match a.1 {
        Some(t) => t,
        None => Seq::empty(),
    }
}

/// `[name$=p]` matches an element exactly when one of its attributes named
/// `name` has a value whose last `|p|` characters are `p`; `[name^=p]`, one
/// whose first `|p|` characters are `p`; `[name*=p]`, one in which `p`
/// occurs at some position. Nothing but an element matches.
pub proof fn law_attribute_value_selectors(name: String, p: &str, n: nat, d: DocumentV)
    ensures
        d.nodes[n as int] matches NodeDataV::Element(e) ==> {
            let a = e.1;
            let nm = split_qualified(name@);
            &&& matches_spec(Selector::AttributeValueEndsWith(name, p), n, d) <==>
                exists|i: int| 0 <= i < a.len() && #[trigger] a[i].0 == nm && p@.len() <= value_of(a[i]).len()
                    && value_of(a[i]).subrange(value_of(a[i]).len() - p@.len(), value_of(a[i]).len() as int) == p@
            &&& matches_spec(Selector::AttributeValueStartsWith(name, p), n, d) <==>
                exists|i: int| 0 <= i < a.len() && #[trigger] a[i].0 == nm && p@.len() <= value_of(a[i]).len()
                    && value_of(a[i]).subrange(0, p@.len() as int) == p@
            &&& matches_spec(Selector::AttributeValueSubstring(name, p), n, d) <==>
                exists|i: int, k: int| 0 <= i < a.len() && #[trigger] a[i].0 == nm && 0 <= k
                    && k + p@.len() <= value_of(a[i]).len() && #[trigger] value_of(a[i]).subrange(k, k + p@.len()) == p@
        },
        !(d.nodes[n as int] is Element) ==> !matches_spec(Selector::AttributeValueEndsWith(name, p), n, d)
            && !matches_spec(Selector::AttributeValueStartsWith(name, p), n, d)
            && !matches_spec(Selector::AttributeValueSubstring(name, p), n, d),
{
    if let NodeDataV::Element(e) = d.nodes[n as int] {
        let a = e.1;
        let nm = split_qualified(name@);
        assert forall|i: int| 0 <= i < a.len() implies attr_value_text(#[trigger] a[i].1) == value_of(a[i]) by {}
        assert forall|v: Seq<char>| #[trigger] ends_with(v, p@) <==>
            (p@.len() <= v.len() && v.subrange(v.len() - p@.len(), v.len() as int) == p@) by {
            if p@.len() <= v.len() {
                assert(v.skip(v.len() - p@.len()) =~= v.subrange(v.len() - p@.len(), v.len() as int));
            }
        }
        assert forall|v: Seq<char>| #[trigger] starts_with(v, p@) <==>
            (p@.len() <= v.len() && v.subrange(0, p@.len() as int) == p@) by {
            if p@.len() <= v.len() {
                assert(v.take(p@.len() as int) =~= v.subrange(0, p@.len() as int));
            }
        }
        let es = matches_spec(Selector::AttributeValueEndsWith(name, p), n, d);
        let ss = matches_spec(Selector::AttributeValueStartsWith(name, p), n, d);
        let cs = matches_spec(Selector::AttributeValueSubstring(name, p), n, d);
        if es {
            let i = choose|i: int| 0 <= i < a.len() && #[trigger] a[i].0 == nm && ends_with(attr_value_text(a[i].1), p@);
            assert(p@.len() <= value_of(a[i]).len()
                && value_of(a[i]).subrange(value_of(a[i]).len() - p@.len(), value_of(a[i]).len() as int) == p@);
        }
        if exists|i: int| 0 <= i < a.len() && #[trigger] a[i].0 == nm && p@.len() <= value_of(a[i]).len()
            && value_of(a[i]).subrange(value_of(a[i]).len() - p@.len(), value_of(a[i]).len() as int) == p@ {
            let i = choose|i: int| 0 <= i < a.len() && #[trigger] a[i].0 == nm && p@.len() <= value_of(a[i]).len()
                && value_of(a[i]).subrange(value_of(a[i]).len() - p@.len(), value_of(a[i]).len() as int) == p@;
            assert(ends_with(attr_value_text(a[i].1), p@));
        }
        if ss {
            let i = choose|i: int| 0 <= i < a.len() && #[trigger] a[i].0 == nm && starts_with(attr_value_text(a[i].1), p@);
            assert(starts_with(value_of(a[i]), p@));
        }
        if exists|i: int| 0 <= i < a.len() && #[trigger] a[i].0 == nm && p@.len() <= value_of(a[i]).len()
            && value_of(a[i]).subrange(0, p@.len() as int) == p@ {
            let i = choose|i: int| 0 <= i < a.len() && #[trigger] a[i].0 == nm && p@.len() <= value_of(a[i]).len()
                && value_of(a[i]).subrange(0, p@.len() as int) == p@;
            assert(starts_with(attr_value_text(a[i].1), p@));
        }
        if cs {
            let i = choose|i: int| 0 <= i < a.len() && #[trigger] a[i].0 == nm && contains_text(attr_value_text(a[i].1), p@);
            let v = value_of(a[i]);
            let k = choose|k: int| 0 <= k <= v.len() - p@.len() && #[trigger] v.subrange(k, k + p@.len()) == p@;
            assert(0 <= i < a.len() && a[i].0 == nm && 0 <= k && k + p@.len() <= v.len() && v.subrange(k, k + p@.len()) == p@);
        }
        if exists|i: int, k: int| 0 <= i < a.len() && #[trigger] a[i].0 == nm && 0 <= k
            && k + p@.len() <= value_of(a[i]).len() && #[trigger] value_of(a[i]).subrange(k, k + p@.len()) == p@ {
            let (i, k) = choose|i: int, k: int| 0 <= i < a.len() && #[trigger] a[i].0 == nm && 0 <= k
                && k + p@.len() <= value_of(a[i]).len() && #[trigger] value_of(a[i]).subrange(k, k + p@.len()) == p@;
            assert(contains_text(attr_value_text(a[i].1), p@));
        }
    }
}

/// `[name]` matches an element exactly when it has an attribute named
/// `name`; `[name=v]` when one of its attributes named `name` has the value
/// `v` (a missing value counting as empty), whether `v` is given as a string
/// or as no value.
pub proof fn law_attribute_selectors(name: String, text: String, n: nat, d: DocumentV)
    ensures
        d.nodes[n as int] matches NodeDataV::Element(e) ==> {
            let a = e.1;
            let nm = split_qualified(name@);
            &&& matches_spec(Selector::Attribute(name), n, d) <==> exists|i: int| 0 <= i < a.len() && #[trigger] a[i].0 == nm
            &&& matches_spec(Selector::AttributeValue(name, AttributeValue::String(text)), n, d) <==>
                exists|i: int| 0 <= i < a.len() && #[trigger] a[i].0 == nm && value_of(a[i]) == text@
            &&& matches_spec(Selector::AttributeValue(name, AttributeValue::NoValue), n, d) <==>
                exists|i: int| 0 <= i < a.len() && #[trigger] a[i].0 == nm && value_of(a[i]).len() == 0
        },
{
    if let NodeDataV::Element(e) = d.nodes[n as int] {
        let a = e.1;
        assert forall|i: int| 0 <= i < a.len() implies attr_value_text(#[trigger] a[i].1) == value_of(a[i]) by {}
        assert forall|v: Seq<char>| v.len() == 0 <==> v == Seq::<char>::empty() by {
            if v.len() == 0 {
                assert(v =~= Seq::<char>::empty());
            }
        }
    }
}

/// The structural selectors, on an element `n`: a tag selector matches
/// when the element's tag is the given name; `*` always; `a b` when `n`
/// matches `b` and some node strictly above it on its chain of parents
/// matches `a`; `a > b` when `n` matches `b` and has a parent that matches
/// `a`; `a, b` and the conjunction when either or both match; `#id` when
/// the document registers `n` under `id`. No selector matches a node that
/// is not an element.
pub proof fn law_structural_selectors(l: Selector, r: Selector, t: String, id: &str, n: nat, d: DocumentV, s: Selector)
    ensures
        d.nodes[n as int] matches NodeDataV::Element(e) ==> {
            &&& matches_spec(Selector::Tag(t), n, d) <==> e.0 == split_qualified(t@)
            &&& matches_spec(Selector::All, n, d)
            &&& matches_spec(Selector::Id(id), n, d) <==> lookup(d.ids, id@) == Some(n)
            &&& matches_spec(Selector::And(Box::new(l), Box::new(r)), n, d) <==> (matches_spec(l, n, d) && matches_spec(r, n, d))
            &&& matches_spec(Selector::Or(Box::new(l), Box::new(r)), n, d) <==> (matches_spec(l, n, d) || matches_spec(r, n, d))
            &&& matches_spec(Selector::Child(Box::new(l), Box::new(r)), n, d) <==>
                (matches_spec(r, n, d) && d.parents[n as int] is Some && matches_spec(l, d.parents[n as int]->0, d))
            &&& matches_spec(Selector::Descendant(Box::new(l), Box::new(r)), n, d) <==>
                (matches_spec(r, n, d) && exists|k: nat| 1 <= k && #[trigger] ancestor(d, n, k) is Some
                    && matches_spec(l, ancestor(d, n, k)->0, d))
        },
        !(d.nodes[n as int] is Element) ==> !matches_spec(s, n, d),
{
    if let NodeDataV::Element(e) = d.nodes[n as int] {
        let desc = matches_spec(Selector::Descendant(Box::new(l), Box::new(r)), n, d);
        if desc {
            let k = choose|k: nat| k >= 1 && (#[trigger] ancestor(d, n, k) matches Some(p) && matches_spec(l, p, d));
            assert(1 <= k && ancestor(d, n, k) is Some && matches_spec(l, ancestor(d, n, k)->0, d));
        }
        if matches_spec(r, n, d) && exists|k: nat| 1 <= k && #[trigger] ancestor(d, n, k) is Some
            && matches_spec(l, ancestor(d, n, k)->0, d) {
            let k = choose|k: nat| 1 <= k && #[trigger] ancestor(d, n, k) is Some && matches_spec(l, ancestor(d, n, k)->0, d);
            assert(ancestor(d, n, k) matches Some(p) && matches_spec(l, p, d));
        }
    }
}

/// `[name~=w]` matches an element exactly when one of its attributes named
/// `name` has a value in which `w` stands as a whole word: a nonempty run of
/// characters that are not white space, with white space or an end of the
/// value on either side. Nothing but an element matches.
pub proof fn law_word_selector(name: String, w: &str, n: nat, d: DocumentV)
    ensures
        d.nodes[n as int] matches NodeDataV::Element(e) ==> (
            matches_spec(Selector::AttributeValueWhitespacedContains(name, w), n, d) <==>
            exists|i: int, b: int, c: int| 0 <= i < e.1.len() && #[trigger] e.1[i].0 == split_qualified(name@)
                && 0 <= b < c <= value_of(e.1[i]).len() && #[trigger] value_of(e.1[i]).subrange(b, c) == w@
                && (b == 0 || is_ws(value_of(e.1[i])[b - 1]))
                && (c == value_of(e.1[i]).len() || is_ws(value_of(e.1[i])[c]))
                && forall|k: int| b <= k < c ==> !is_ws(#[trigger] value_of(e.1[i])[k])),
        !(d.nodes[n as int] is Element) ==> !matches_spec(Selector::AttributeValueWhitespacedContains(name, w), n, d),
{
    if let NodeDataV::Element(e) = d.nodes[n as int] {
        let a = e.1;
        let nm = split_qualified(name@);
        assert forall|i: int| 0 <= i < a.len() implies attr_value_text(#[trigger] a[i].1) == value_of(a[i]) by {}
        if matches_spec(Selector::AttributeValueWhitespacedContains(name, w), n, d) {
            let i = choose|i: int| 0 <= i < a.len() && #[trigger] a[i].0 == nm && has_word(attr_value_text(a[i].1), w@);
            let v = value_of(a[i]);
            let (b, c) = choose|b: int, c: int| 0 <= b < c <= v.len() && #[trigger] v.subrange(b, c) == w@
                && (b == 0 || is_ws(v[b - 1])) && (c == v.len() || is_ws(v[c]))
                && forall|k: int| b <= k < c ==> !is_ws(#[trigger] v[k]);
            assert(0 <= i < a.len() && a[i].0 == nm && 0 <= b < c <= v.len() && v.subrange(b, c) == w@);
        }
        if exists|i: int, b: int, c: int| 0 <= i < a.len() && #[trigger] a[i].0 == nm
            && 0 <= b < c <= value_of(a[i]).len() && #[trigger] value_of(a[i]).subrange(b, c) == w@
            && (b == 0 || is_ws(value_of(a[i])[b - 1]))
            && (c == value_of(a[i]).len() || is_ws(value_of(a[i])[c]))
            && forall|k: int| b <= k < c ==> !is_ws(#[trigger] value_of(a[i])[k]) {
            let (i, b, c) = choose|i: int, b: int, c: int| 0 <= i < a.len() && #[trigger] a[i].0 == nm
                && 0 <= b < c <= value_of(a[i]).len() && #[trigger] value_of(a[i]).subrange(b, c) == w@
                && (b == 0 || is_ws(value_of(a[i])[b - 1]))
                && (c == value_of(a[i]).len() || is_ws(value_of(a[i])[c]))
                && forall|k: int| b <= k < c ==> !is_ws(#[trigger] value_of(a[i])[k]);
            assert(has_word(value_of(a[i]), w@));
            assert(value_pred(Selector::AttributeValueWhitespacedContains(name, w))(attr_value_text(a[i].1)));
        }
    }
}

/// A node of `s` that satisfies `p` is among the nodes that [matching]
/// keeps.
proof fn lemma_matching_complete(p: spec_fn(nat) -> bool, s: Seq<nat>, x: nat)
    requires
        s.contains(x),
        p(x),
    ensures
        matching(p, s).contains(x),
    decreases s.len(),
{
    if s.last() == x {
        assert(matching(p, s).last() == x);
    } else {
        let i = choose|i: int| 0 <= i < s.len() && s[i] == x;
        assert(s.drop_last()[i] == x);
        lemma_matching_complete(p, s.drop_last(), x);
        let m = matching(p, s.drop_last());
        let j = choose|j: int| 0 <= j < m.len() && m[j] == x;
        if p(s.last()) {
            assert(m.push(s.last())[j] == x);
        }
    }
}

/// Selecting from `n` misses no node: every node on the walk from `n` that
/// matches a selector is selected, unless the selector picks out a single
/// node, in which case at most one node is selected.
pub proof fn law_selection_complete(d: DocumentV, sel: Selector, n: nat, x: nat)
    ensures
        (walk_from(d, n).contains(x) && matches_spec(sel, x, d) && !unique_spec(sel))
            ==> selection_from(d, sel, n).contains(x),
        unique_spec(sel) ==> selection_from(d, sel, n).len() <= 1,
{
    if walk_from(d, n).contains(x) && matches_spec(sel, x, d) {
        assert((matcher(d, sel))(x));
        lemma_matching_complete(matcher(d, sel), walk_from(d, n), x);
    }
}

} // verus!

//! Attributes of elements.
use vstd::prelude::*;

verus! {

/// The fully qualified name of an attribute.
#[derive(Debug, Clone, PartialEq, Eq, PartialOrd, Ord, Hash)]
pub struct AttributeName {
    /// Used by namespaced attributes, e.g. `xlink` of `xlink:href`.
    pub namespace: Option<String>,
    pub name: String,
}

/// An attribute: a name and an optional value.
#[derive(Debug, Clone, PartialEq, Eq)]
pub struct Attribute {
    pub name: AttributeName,
    pub value: Option<String>,
}

/// The value of an attribute, where no value reads as the empty string.
#[derive(Debug, Clone)]
pub enum AttributeValue {
    NoValue,
    String(String),
}

/// The value of an [AttributeName]: its namespace and its name.
pub type AttributeNameV = (Option<Seq<char>>, Seq<char>);

/// The value of an [Attribute]: its name and its value.
pub type AttributeV = (AttributeNameV, Option<Seq<char>>);

pub open spec fn opt_str_view(o: Option<String>) -> Option<Seq<char>> {
    match o {
        Some(s) => Some(s@),
        None => None,
    }
}

impl View for AttributeName {
    type V = AttributeNameV;

    open spec fn view(&self) -> AttributeNameV {
        (opt_str_view(self.namespace), self.name@)
    }
}

impl View for Attribute {
    type V = AttributeV;

    open spec fn view(&self) -> AttributeV {
        (self.name@, opt_str_view(self.value))
    }
}

/// The values of a list of attributes.
pub open spec fn attrs_view(s: Seq<Attribute>) -> Seq<AttributeV> {
    s.map_values(|a: Attribute| a@)
}

/// The text of a qualified name: `namespace:name`, or the name alone.
pub open spec fn qualified_text(n: AttributeNameV) -> Seq<char> {
    match n.0 {
        Some(ns) => ns + seq![':'] + n.1,
        None => n.1,
    }
}

/// A name read from `ns:name` text: split at the first `:`.
pub open spec fn split_qualified(s: Seq<char>) -> AttributeNameV {
    if exists|i: int| 0 <= i < s.len() && s[i] == ':' {
        let i = choose|i: int| 0 <= i < s.len() && s[i] == ':' && forall|j: int| 0 <= j < i ==> s[j] != ':';
        (Some(s.take(i)), s.skip(i + 1))
    } else {
        (None, s)
    }
}

/// Whether two optional strings are equal.
pub fn opt_str_eq(a: &Option<String>, b: &Option<String>) -> (r: bool)
    ensures
        r == (opt_str_view(*a) == opt_str_view(*b)),
{
    match (a, b) {
        (None, None) => true,
        (Some(x), Some(y)) => x.eq(y),
        _ => false,
    }
}

/// A copy of an optional string.
pub fn clone_opt_str(a: &Option<String>) -> (r: Option<String>)
    ensures
        opt_str_view(r) == opt_str_view(*a),
{
    match a {
        Some(s) => Some(s.clone()),
        None => None,
    }
}

/// Splits `s` at its first `:`, if it has one.
pub fn split_at_colon(s: &str) -> (r: (Option<String>, String))
    ensures
        (opt_str_view(r.0), r.1@) == split_qualified(s@),
{
    let n = s.unicode_len();
    let mut i: usize = 0;
    while i < n
        invariant
            i <= n,
            n == s@.len(),
            forall|j: int| 0 <= j < i ==> s@[j] != ':',
        decreases n - i,
    {
        if s.get_char(i) == ':' {
            let ns = String::from_str(s.substring_char(0, i));
            let name = String::from_str(s.substring_char(i + 1, n));
            proof {
                let w = choose|k: int| 0 <= k < s@.len() && s@[k] == ':' && forall|j: int| 0 <= j < k ==> s@[j] != ':';
                assert(s@[i as int] == ':');
                if w < i {
                    assert(s@[w] != ':');
                } else if w > i {
                    assert(s@[i as int] != ':');
                }
                assert(s@.take(i as int) =~= s@.subrange(0, i as int));
                assert(s@.skip(i + 1) =~= s@.subrange(i + 1, n as int));
            }
            return (Some(ns), name);
        }
        i = i + 1;
    }
    (None, String::from_str(s))
}

impl AttributeName {
    /// A name without a namespace.
    pub fn new(name: String) -> (r: Self)
        ensures
            r@ == (None::<Seq<char>>, name@),
    {
        AttributeName { namespace: None, name }
    }

    /// A name with a namespace.
    pub fn new_with_namespace(namespace: String, name: String) -> (r: Self)
        ensures
            r@ == (Some(namespace@), name@),
    {
        AttributeName { namespace: Some(namespace), name }
    }

    /// The name read from `ns:name` text, split at the first `:`.
    pub fn from_text(s: &str) -> (r: Self)
        ensures
            r@ == split_qualified(s@),
    {
        let (namespace, name) = split_at_colon(s);
        AttributeName { namespace, name }
    }

    /// Whether two names are equal.
    pub fn same(&self, other: &AttributeName) -> (r: bool)
        ensures
            r == (self@ == other@),
    {
        opt_str_eq(&self.namespace, &other.namespace) && self.name.eq(&other.name)
    }

    /// The text of the name: `namespace:name`, or the name alone.
    pub fn to_text(&self) -> (r: String)
        ensures
            r@ == qualified_text(self@),
    {
        match &self.namespace {
            Some(ns) => {
                let mut s = ns.clone();
                s.append(":");
                s.append(self.name.as_str());
                proof { reveal_strlit(":"); }
                s
            },
            None => self.name.clone(),
        }
    }

    /// A copy of the name.
    pub fn copy(&self) -> (r: Self)
        ensures
            r@ == self@,
    {
        AttributeName { namespace: clone_opt_str(&self.namespace), name: self.name.clone() }
    }
}

impl Attribute {
    /// An attribute without a namespace.
    pub fn new(name: String, value: Option<String>) -> (r: Self)
        ensures
            r@ == ((None::<Seq<char>>, name@), opt_str_view(value)),
    {
        Attribute { name: AttributeName::new(name), value }
    }

    /// Replaces the value.
    pub fn set_value(&mut self, value: Option<String>)
        ensures
            final(self)@ == (old(self)@.0, opt_str_view(value)),
    {
        self.value = value;
    }

    /// A copy of the attribute.
    pub fn copy(&self) -> (r: Self)
        ensures
            r@ == self@,
    {
        Attribute { name: self.name.copy(), value: clone_opt_str(&self.value) }
    }
}

/// The text an attribute value reads as: its string, or the empty string.
pub open spec fn value_text(v: AttributeValue) -> Seq<char> {
    match v {
        AttributeValue::NoValue => Seq::empty(),
        AttributeValue::String(s) => s@,
    }
}

impl AttributeValue {
    /// The text of the value, empty when there is none.
    pub fn to_string(&self) -> (r: String)
        ensures
            r@ == value_text(*self),
    {
        match self {
            AttributeValue::NoValue => String::new(),
            AttributeValue::String(s) => s.clone(),
        }
    }

    /// The string of the value, if it has one.
    pub fn as_str(&self) -> (r: Option<&str>)
        ensures
            match *self {
                AttributeValue::NoValue => r is None,
                AttributeValue::String(s) => r matches Some(t) && t@ == s@,
            },
    {
        match self {
            AttributeValue::NoValue => None,
            AttributeValue::String(s) => Some(s.as_str()),
        }
    }

    /// Whether two values read as the same text.
    pub fn same(&self, other: &AttributeValue) -> (r: bool)
        ensures
            r == (value_text(*self) == value_text(*other)),
    {
        match (self, other) {
            (AttributeValue::NoValue, AttributeValue::NoValue) => true,
            (AttributeValue::NoValue, AttributeValue::String(s)) => {
                let r = s.as_str().unicode_len() == 0;
                assert(r ==> s@ =~= Seq::<char>::empty());
                r
            },
            (AttributeValue::String(s), AttributeValue::NoValue) => {
                let r = s.as_str().unicode_len() == 0;
                assert(r ==> s@ =~= Seq::<char>::empty());
                r
            },
            (AttributeValue::String(x), AttributeValue::String(y)) => x.eq(y),
        }
    }

    /// Whether the value reads as the text `other`.
    pub fn same_as_str(&self, other: &str) -> (r: bool)
        ensures
            r == (value_text(*self) == other@),
    {
        match self {
            AttributeValue::NoValue => {
                let r = other.unicode_len() == 0;
                assert(r ==> other@ =~= Seq::<char>::empty());
                r
            },
            AttributeValue::String(x) => {
                let r = x.as_str().unicode_len() == other.unicode_len() && string_eq(x.as_str(), other);
                r
            },
        }
    }
}

/// The text of `s` once quoted, from the state `escaped` (whether the
/// previous character was a backslash that escapes this one): a `"` that
/// is not escaped is escaped with a backslash, an escaped character keeps
/// its backslash, and a backslash at the end is dropped.
pub open spec fn escaped_from(s: Seq<char>, escaped: bool) -> Seq<char>
    decreases s.len(),
{
    if s.len() == 0 {
        Seq::empty()
    } else {
        let c = s[0];
        let rest = s.drop_first();
        if c == '"' && !escaped {
            seq!['\\', '"'] + escaped_from(rest, false)
        } else if escaped {
            seq!['\\', c] + escaped_from(rest, false)
        } else if c == '\\' {
            escaped_from(rest, true)
        } else {
            seq![c] + escaped_from(rest, false)
        }
    }
}

/// How a value is displayed: nothing when it has no value, else its
/// string between double quotes, escaped as [escaped_from] says.
pub open spec fn display_text(v: AttributeValue) -> Seq<char> {
    match v {
        AttributeValue::NoValue => Seq::empty(),
        AttributeValue::String(s) => seq!['"'] + escaped_from(s@, false) + seq!['"'],
    }
}

impl AttributeValue {
    /// The value as it is displayed: quoted, with inner quotes escaped.
    pub fn display(&self) -> (r: String)
        ensures
            r@ == display_text(*self),
    {
        let s: &str = match self {
            AttributeValue::NoValue => {
                let e = String::new();
                assert(e@ =~= Seq::<char>::empty());
                return e;
            },
            AttributeValue::String(s) => s.as_str(),
        };
        proof {
            reveal_strlit("\"");
            reveal_strlit("\\\"");
            reveal_strlit("\\");
        }
        let n = s.unicode_len();
        let mut out = String::from_str("\"");
        let mut escaped = false;
        let mut i: usize = 0;
        assert(s@.skip(0) =~= s@);
        while i < n
            invariant
                i <= n,
                n == s@.len(),
                out@ + escaped_from(s@.skip(i as int), escaped) == seq!['"'] + escaped_from(s@, false),
            decreases n - i,
        {
            proof {
                reveal_strlit("\\\"");
                reveal_strlit("\\");
            }
            assert("\\\""@ =~= seq!['\\', '"']);
            assert("\\"@ =~= seq!['\\']);
            let c = s.get_char(i);
            let ghost rest = s@.skip(i + 1);
            assert(s@.skip(i as int).drop_first() =~= rest);
            assert(s@.skip(i as int)[0] == c);
            let ghost before = out@;
            if c == '"' && !escaped {
                out.append("\\\"");
                assert(out@ == before + seq!['\\', '"']);
                assert(before + escaped_from(s@.skip(i as int), escaped) == before + (seq!['\\', '"'] + escaped_from(rest, false)));
                assert(before + (seq!['\\', '"'] + escaped_from(rest, false)) =~= out@ + escaped_from(rest, false));
            } else if escaped {
                out.append("\\");
                let one = s.substring_char(i, i + 1);
                assert(one@ =~= seq![c]);
                out.append(one);
                assert(out@ =~= before + seq!['\\', c]);
                assert(before + escaped_from(s@.skip(i as int), escaped) == before + (seq!['\\', c] + escaped_from(rest, false)));
                assert(before + (seq!['\\', c] + escaped_from(rest, false)) =~= out@ + escaped_from(rest, false));
                escaped = false;
            } else if c == '\\' {
                escaped = true;
            } else {
                let one = s.substring_char(i, i + 1);
                assert(one@ =~= seq![c]);
                out.append(one);
                assert(out@ =~= before + seq![c]);
                assert(before + escaped_from(s@.skip(i as int), escaped) == before + (seq![c] + escaped_from(rest, false)));
                assert(before + (seq![c] + escaped_from(rest, false)) =~= out@ + escaped_from(rest, false));
            }
            i = i + 1;
        }
        assert(s@.skip(n as int) =~= Seq::<char>::empty());
        assert(escaped_from(s@.skip(n as int), escaped) =~= Seq::<char>::empty());
        out.append("\"");
        assert(out@ =~= seq!['"'] + escaped_from(s@, false) + seq!['"']);
        out
    }
}

/// Whether two strings are equal, character by character.
pub fn string_eq(a: &str, b: &str) -> (r: bool)
    ensures
        r == (a@ == b@),
{
    let n = a.unicode_len();
    if n != b.unicode_len() {
        return false;
    }
    let mut i: usize = 0;
    while i < n
        invariant
            i <= n,
            n == a@.len(),
            n == b@.len(),
            forall|j: int| 0 <= j < i ==> a@[j] == b@[j],
        decreases n - i,
    {
        if a.get_char(i) != b.get_char(i) {
            return false;
        }
        i = i + 1;
    }
    assert(a@ =~= b@);
    true
}

impl From<String> for AttributeValue {
    fn from(s: String) -> (r: Self) {
        AttributeValue::String(s)
    }
}

impl vstd::std_specs::convert::FromSpecImpl<String> for AttributeValue {
    open spec fn obeys_from_spec() -> bool {
        true
    }

    open spec fn from_spec(s: String) -> AttributeValue {
        AttributeValue::String(s)
    }
}

} // verus!

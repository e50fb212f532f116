//! Queries on a tree that a host embedding the renderer asks.
use vstd::prelude::*;
use super::types::{Child, Component, Fragment, FragmentV, OneOrManyStrings, Root, ComponentV, component_view, components_view, one_or_many_view, StringsV};
use super::model::lookup;
use super::merge::{find_entry, keys_of};
use super::clone::clone_component;
use crate::text::{int_text, i32_text, parse_u32, parse_u32_exec};
use super::render::lemma_component_keys;

verus! {

/// Whether a fragment carries statics, that is, a new fingerprint.
pub open spec fn has_new_fingerprint(f: FragmentV) -> bool {
    match f {
        FragmentV::Regular { statics, .. } => statics is Some,
        FragmentV::Comprehension { statics, .. } => statics is Some,
    }
}

/// Whether a fragment is an empty comprehension with nothing else set.
pub open spec fn is_empty_fragment(f: FragmentV) -> bool {
    match f {
        FragmentV::Comprehension { dynamics, statics: None, is_root: None, templates: None, stream: None, .. } => dynamics.len() == 0,
        _ => false,
    }
}

/// The keys of the components that read as `u32`, in order.
pub open spec fn cids_of(s: Seq<(Seq<char>, ComponentV)>) -> Seq<u32>
    decreases s.len(),
{
    if s.len() == 0 {
        Seq::empty()
    } else {
        let rest = cids_of(s.drop_last());
        match parse_u32(vstd::utf8::encode_utf8(s.last().0)) {
            Some(c) => rest.push(c),
            None => rest,
        }
    }
}

impl Fragment {
    /// Whether the fragment carries statics.
    pub fn is_new_fingerprint(&self) -> (r: bool)
        ensures
            r == has_new_fingerprint(self@),
    {
        match self {
            Fragment::Regular { statics, .. } => statics.is_some(),
            Fragment::Comprehension { statics, .. } => statics.is_some(),
        }
    }

    /// Whether the fragment is an empty comprehension with nothing else set.
    pub fn is_empty(&self) -> (r: bool)
        ensures
            r == is_empty_fragment(self@),
    {
        match self {
            Fragment::Comprehension { dynamics, statics: None, is_root: None, templates: None, stream: None, .. } => dynamics.len() == 0,
            _ => false,
        }
    }
}

impl Root {
    /// Sets the flag that marks a new render.
    pub fn set_new_render(&mut self, new: bool)
        ensures
            final(self).new_render == Some(new),
            final(self).fragment == old(self).fragment,
            final(self).components == old(self).components,
    {
        self.new_render = Some(new);
    }

    /// Whether the tree carries components and an empty fragment.
    pub fn is_component_only_diff(&self) -> (r: bool)
        ensures
            r == (self.components.len() > 0 && is_empty_fragment(self.fragment@)),
    {
        self.components.len() > 0 && self.fragment.is_empty()
    }

    /// Whether the root fragment carries statics.
    pub fn is_new_fingerprint(&self) -> (r: bool)
        ensures
            r == has_new_fingerprint(self.fragment@),
    {
        self.fragment.is_new_fingerprint()
    }

    /// A copy of the component stored under the decimal text of `cid`.
    pub fn get_component(&self, cid: i32) -> (r: Option<Component>)
        ensures
            match r {
                Some(c) => lookup(components_view(self.components@), int_text(cid as int)) == Some(c@),
                None => lookup(components_view(self.components@), int_text(cid as int)) is None,
            },
    {
        let key = i32_text(cid);
        proof { lemma_component_keys(self.components@, key@); }
        match find_entry(&self.components, &key) {
            Some(i) => Some(clone_component(&self.components[i].1)),
            None => None,
        }
    }

    /// The keys of the components that read as `u32`, in order.
    pub fn component_cids(&self) -> (r: Vec<u32>)
        ensures
            r@ == cids_of(components_view(self.components@)),
    {
        let mut out: Vec<u32> = Vec::new();
        let mut i: usize = 0;
        while i < self.components.len()
            invariant
                i <= self.components.len(),
                out@ == cids_of(components_view(self.components@).take(i as int)),
            decreases self.components.len() - i,
        {
            let ghost s = components_view(self.components@);
            assert(s.take(i + 1).drop_last() =~= s.take(i as int));
            let n = parse_u32_exec(self.components[i].0.as_str());
            if let Some(c) = n {
                out.push(c);
            }
            i = i + 1;
        }
        assert(components_view(self.components@).take(self.components.len() as int) =~= components_view(self.components@));
        out
    }
}

impl From<String> for OneOrManyStrings {
    fn from(value: String) -> (r: Self) {
        OneOrManyStrings::One(value)
    }
}

impl vstd::std_specs::convert::FromSpecImpl<String> for OneOrManyStrings {
    open spec fn obeys_from_spec() -> bool {
        true
    }

    open spec fn from_spec(v: String) -> OneOrManyStrings {
        OneOrManyStrings::One(v)
    }
}

} // verus!

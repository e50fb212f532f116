//! Finding the upload input of a form in a live document.
use vstd::prelude::*;
use crate::dom::attribute::{Attribute, AttributeV, AttributeValue, attrs_view, split_qualified, value_text, string_eq};
use crate::dom::document::{Document, DocumentV, wf};
use crate::dom::node::{NodeDataV, node_attrs};
use crate::dom::select::{Selector, chain_ends, selection, refs_nat, matching, matcher, walk_order, some_attr, value_pred,
    unique_spec, lemma_walkable, lemma_walk_order_nodes, lemma_matching_below};
use super::dead_render::LiveSocketError;

verus! {

pub open spec fn upload_ref_name() -> Seq<char> {
    seq!['d', 'a', 't', 'a', '-', 'p', 'h', 'x', '-', 'u', 'p', 'l', 'o', 'a', 'd', '-', 'r', 'e', 'f']
}

pub open spec fn name_name() -> Seq<char> {
    seq!['n', 'a', 'm', 'e']
}

pub open spec fn id_name() -> Seq<char> {
    seq!['i', 'd']
}

/// The elements of `d` that are upload inputs named `target`: with a
/// `data-phx-upload-ref` attribute and a `name` attribute of value `target`.
pub open spec fn is_upload_input(d: DocumentV, target: Seq<char>) -> spec_fn(nat) -> bool {
    |n: nat| match d.nodes[n as int] {
        NodeDataV::Element(e) => some_attr(e.1, (None, upload_ref_name()), |v: Seq<char>| true)
            && some_attr(e.1, (None, name_name()), |v: Seq<char>| v == target),
        _ => false,
    }
}

/// The upload inputs named `target`, in selection order.
pub open spec fn upload_inputs(d: DocumentV, target: Seq<char>) -> Seq<nat> {
    matching(is_upload_input(d, target), walk_order(d))
}

/// The values of the attributes named `id` (whatever their namespace),
/// concatenated; `None` when one of them has no value.
pub open spec fn joined_ids(attrs: Seq<AttributeV>) -> Option<Seq<char>>
    decreases attrs.len(),
{
    if attrs.len() == 0 {
        Some(Seq::empty())
    } else {
        match joined_ids(attrs.drop_last()) {
            None => None,
            Some(s) => if attrs.last().0.1 == id_name() {
                match attrs.last().1 {
                    Some(v) => Some(s + v),
                    None => None,
                }
            } else {
                Some(s)
            },
        }
    }
}

/// The ids of `attrs` joined.
fn joined_ids_exec(attrs: &Vec<Attribute>) -> (r: Option<String>)
    ensures
        match r {
            Some(s) => joined_ids(attrs_view(attrs@)) == Some(s@),
            None => joined_ids(attrs_view(attrs@)) is None,
        },
{
    let ghost av = attrs_view(attrs@);
    proof { reveal_strlit("id"); }
    let id_text = "id";
    assert(id_text@ =~= id_name());
    let mut out = String::new();
    let mut i: usize = 0;
    assert(av.take(0) =~= Seq::<AttributeV>::empty());
    while i < attrs.len()
        invariant
            i <= attrs.len(),
            av == attrs_view(attrs@),
            id_text@ == id_name(),
            joined_ids(av.take(i as int)) == Some(out@),
        decreases attrs.len() - i,
    {
        assert(av.take(i + 1).drop_last() =~= av.take(i as int));
        assert(av.take(i + 1).last() == av[i as int]);
        if string_eq(attrs[i].name.name.as_str(), id_text) {
            match &attrs[i].value {
                Some(v) => out.append(v.as_str()),
                None => {
                    proof { lemma_joined_ids_none(av, i as int); }
                    return None;
                },
            }
        }
        i = i + 1;
    }
    assert(av.take(attrs.len() as int) =~= av);
    Some(out)
}

/// Once an id without a value is met, the ids do not join.
proof fn lemma_joined_ids_none(av: Seq<AttributeV>, i: int)
    requires
        0 <= i < av.len(),
        joined_ids(av.take(i + 1)) is None,
    ensures
        joined_ids(av) is None,
    decreases av.len() - i,
{
    if i + 1 < av.len() {
        assert(av.take(i + 2).drop_last() =~= av.take(i + 1));
        lemma_joined_ids_none(av, i + 1);
    } else {
        assert(av.take(i + 1) =~= av);
    }
}

/// Matching with equal predicates gives equal results.
proof fn lemma_matching_same(p: spec_fn(nat) -> bool, q: spec_fn(nat) -> bool, w: Seq<nat>)
    requires
        forall|n: nat| #[trigger] p(n) == q(n),
    ensures
        matching(p, w) == matching(q, w),
    decreases w.len(),
{
    if w.len() > 0 {
        lemma_matching_same(p, q, w.drop_last());
    }
}

/// The id of the upload input named `target` in `doc`: the ids of the first
/// element, in selection order, with a `data-phx-upload-ref` attribute and
/// a `name` of `target`, joined.
pub fn upload_id(doc: &Document, target: &str) -> (r: Result<String, LiveSocketError>)
    requires
        wf(doc@),
        chain_ends(doc@, doc@.root),
    ensures
        ({
            let inputs = upload_inputs(doc@, target@);
            match r {
                Ok(s) => inputs.len() > 0 && joined_ids(node_attrs(doc@.nodes[inputs[0] as int])) == Some(s@),
                Err(e) => e == LiveSocketError::NoInputRefInDocument
                    && (inputs.len() == 0 || joined_ids(node_attrs(doc@.nodes[inputs[0] as int])) is None),
            }
        }),
{
    let ghost d = doc@;
    proof {
        reveal_strlit("data-phx-upload-ref");
        reveal_strlit("name");
    }
    let upload_ref = String::from_str("data-phx-upload-ref");
    let name = String::from_str("name");
    assert(upload_ref@ =~= upload_ref_name());
    assert(name@ =~= name_name());
    let value = AttributeValue::String(String::from_str(target));
    let sel = Selector::And(Box::new(Selector::Attribute(upload_ref)), Box::new(Selector::AttributeValue(name, value)));
    proof {
        reveal_with_fuel(unique_spec, 2);
        reveal_with_fuel(crate::dom::select::matches_spec, 2);
        assert(value_text(value) == target@);
        assert(split_qualified(upload_ref_name()) == (None::<Seq<char>>, upload_ref_name()));
        assert(split_qualified(name_name()) == (None::<Seq<char>>, name_name()));
        assert forall|n: nat| #[trigger] (matcher(d, sel))(n) == (is_upload_input(d, target@))(n) by {
            assert(value_pred(Selector::Attribute(upload_ref)) =~= (|v: Seq<char>| true));
            assert(value_pred(Selector::AttributeValue(name, value)) =~= (|v: Seq<char>| v == target@));
        }
        lemma_matching_same(matcher(d, sel), is_upload_input(d, target@), walk_order(d));
        assert(!unique_spec(sel));
        lemma_walkable(d);
        lemma_walk_order_nodes(d);
        lemma_matching_below(is_upload_input(d, target@), walk_order(d), d.nodes.len());
    }
    let found = doc.select(sel);
    assert(refs_nat(found@) == upload_inputs(d, target@));
    if found.len() == 0 {
        return Err(LiveSocketError::NoInputRefInDocument);
    }
    let node = found[0];
    assert(refs_nat(found@)[0] == node.0 as nat);
    let attrs = doc.get(node).attributes();
    match joined_ids_exec(&attrs) {
        Some(s) => Ok(s),
        None => Err(LiveSocketError::NoInputRefInDocument),
    }
}

} // verus!

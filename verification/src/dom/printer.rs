//! Printing a document as markup.
use vstd::prelude::*;
use super::attribute::{Attribute, AttributeV, AttributeNameV, attrs_view, qualified_text};
use super::node::{NodeRef, NodeData, NodeDataV, ElementV};
use super::document::{Document, DocumentV, wf};
use super::select::{chain_ends, depth_below, lemma_depth_child, lemma_chain_depth, ancestor};

verus! {

/// How to lay out printed markup.
#[derive(Debug, Copy, Clone, PartialEq, Eq, Structural)]
pub enum PrintOptions {
    /// Without any whitespace added.
    Minified,
    /// Each element opened and closed on a line of its own, indented by its
    /// depth.
    Pretty,
}

impl PrintOptions {
    /// Whether the layout is [PrintOptions::Pretty].
    pub fn pretty(&self) -> (r: bool)
        ensures
            r == (*self == PrintOptions::Pretty),
    {
        match self {
            PrintOptions::Pretty => true,
            PrintOptions::Minified => false,
        }
    }
}

/// The text of one attribute: ` name="value"`, with no value printed as an
/// empty one.
pub open spec fn attr_text(a: AttributeV) -> Seq<char> {
    seq![' '] + qualified_text(a.0) + seq!['=', '"'] + match a.1 {
        Some(v) => v,
        None => Seq::empty(),
    } + seq!['"']
}

/// The texts of attributes, one after another.
pub open spec fn attrs_text(s: Seq<AttributeV>) -> Seq<char>
    decreases s.len(),
{
    if s.len() == 0 {
        Seq::empty()
    } else {
        attrs_text(s.drop_last()) + attr_text(s.last())
    }
}

/// The start of an opening tag: `<name` and the attributes.
pub open spec fn open_text(e: ElementV) -> Seq<char> {
    seq!['<'] + qualified_text(e.0) + attrs_text(e.1)
}

/// A closing tag.
pub open spec fn close_text(e: ElementV) -> Seq<char> {
    seq!['<', '/'] + qualified_text(e.0) + seq!['>']
}

/// The lines that print node `n` at depth `depth`: each line is a depth and
/// a text. `None` when `fuel` runs out before the subtree ends.
pub open spec fn node_lines(d: DocumentV, fuel: nat, n: nat, depth: nat) -> Option<Seq<(nat, Seq<char>)>>
    decreases fuel, 0nat,
{
    if fuel == 0 {
        None
    } else {
        match d.nodes[n as int] {
            NodeDataV::Root => children_lines(d, (fuel - 1) as nat, d.children[n as int], depth),
            NodeDataV::Leaf(v) => Some(seq![(depth, v)]),
            NodeDataV::Element(e) => if d.children[n as int].len() == 0 {
                Some(seq![(depth, open_text(e) + seq![' ', '/', '>'])])
            } else {
                match children_lines(d, (fuel - 1) as nat, d.children[n as int], depth + 1) {
                    Some(inner) => Some(seq![(depth, open_text(e) + seq!['>'])] + inner + seq![(depth, close_text(e))]),
                    None => None,
                }
            },
        }
    }
}

/// The lines that print the nodes `cs`, one after another.
pub open spec fn children_lines(d: DocumentV, fuel: nat, cs: Seq<nat>, depth: nat) -> Option<Seq<(nat, Seq<char>)>>
    decreases fuel, cs.len() + 1,
{
    if cs.len() == 0 {
        Some(Seq::empty())
    } else {
        match children_lines(d, fuel, cs.drop_last(), depth) {
            Some(a) => match node_lines(d, fuel, cs.last(), depth) {
                Some(b) => Some(a + b),
                None => None,
            },
            None => None,
        }
    }
}

/// `k` levels of indentation, four spaces each.
pub open spec fn indent_text(k: nat) -> Seq<char>
    decreases k,
{
    if k == 0 {
        Seq::empty()
    } else {
        indent_text((k - 1) as nat) + seq![' ', ' ', ' ', ' ']
    }
}

/// Lines laid out: pretty, each indented and separated by a newline;
/// minified, their texts alone, one after another.
pub open spec fn layout(o: PrintOptions, lines: Seq<(nat, Seq<char>)>) -> Seq<char>
    decreases lines.len(),
{
    if lines.len() == 0 {
        Seq::empty()
    } else {
        let before = layout(o, lines.drop_last());
        let (k, t) = lines.last();
        match o {
            PrintOptions::Pretty => before + (if lines.len() > 1 { seq!['\n'] } else { Seq::empty() }) + indent_text(k) + t,
            PrintOptions::Minified => before + t,
        }
    }
}

/// Whether node `n` prints with a bound on its depth that a document can
/// reach.
pub open spec fn printable(d: DocumentV, n: nat) -> bool {
    exists|fuel: nat| fuel <= u32::MAX && #[trigger] node_lines(d, fuel, n, 0) is Some
}

/// The markup that prints node `n`.
pub open spec fn printed(d: DocumentV, n: nat, o: PrintOptions) -> Seq<char> {
    layout(o, node_lines(d, choose|fuel: nat| fuel <= u32::MAX && #[trigger] node_lines(d, fuel, n, 0) is Some, n, 0)->0)
}

/// Printing the first `k` nodes of a list completes when printing all of
/// them does, and the lines of `k + 1` are those of `k` and then those of
/// the next node.
proof fn lemma_children_prefix(d: DocumentV, fuel: nat, cs: Seq<nat>, depth: nat, k: int)
    requires
        0 <= k < cs.len(),
        children_lines(d, fuel, cs, depth) is Some,
    ensures
        children_lines(d, fuel, cs.take(k), depth) is Some,
        node_lines(d, fuel, cs[k], depth) is Some,
        children_lines(d, fuel, cs.take(k + 1), depth) == Some(children_lines(d, fuel, cs.take(k), depth)->0 + node_lines(d, fuel, cs[k], depth)->0),
    decreases cs.len() - k,
{
    assert(cs.take(k + 1).drop_last() =~= cs.take(k));
    assert(cs.take(k + 1).last() == cs[k]);
    if k + 1 < cs.len() {
        lemma_children_prefix(d, fuel, cs, depth, k + 1);
    } else {
        assert(cs.take(k + 1) =~= cs);
    }
}

/// Laying out one more line.
proof fn lemma_layout_push(o: PrintOptions, lines: Seq<(nat, Seq<char>)>, l: (nat, Seq<char>))
    ensures
        layout(o, lines.push(l)) == match o {
            PrintOptions::Pretty => layout(o, lines) + (if lines.len() > 0 { seq!['\n'] } else { Seq::empty() }) + indent_text(l.0) + l.1,
            PrintOptions::Minified => layout(o, lines) + l.1,
        },
{
    assert(lines.push(l).drop_last() =~= lines);
}

/// Writes `k` levels of indentation.
fn write_indent(out: &mut String, k: usize)
    ensures
        final(out)@ == old(out)@ + indent_text(k as nat),
{
    let mut i: usize = 0;
    while i < k
        invariant
            i <= k,
            out@ == old(out)@ + indent_text(i as nat),
        decreases k - i,
    {
        out.append("    ");
        proof { reveal_strlit("    "); }
        assert(indent_text((i + 1) as nat) == indent_text(i as nat) + seq![' ', ' ', ' ', ' ']);
        assert(out@ =~= old(out)@ + indent_text((i + 1) as nat));
        i = i + 1;
    }
}

/// Writes one line after those already written.
fn write_line(out: &mut String, first: &mut bool, o: PrintOptions, depth: usize, text: &str, Ghost(lines): Ghost<Seq<(nat, Seq<char>)>>)
    requires
        old(out)@ == layout(o, lines),
        *old(first) == (lines.len() == 0),
    ensures
        final(out)@ == layout(o, lines.push((depth as nat, text@))),
        *final(first) == false,
{
    proof { lemma_layout_push(o, lines, (depth as nat, text@)); }
    if o.pretty() {
        if !*first {
            out.append("\n");
            proof { reveal_strlit("\n"); }
        }
        write_indent(out, depth);
    }
    *first = false;
    out.append(text);
    assert(out@ =~= layout(o, lines.push((depth as nat, text@))));
}

/// The text of an attribute.
fn attr_text_exec(a: &Attribute) -> (r: String)
    ensures
        r@ == attr_text(a@),
{
    let mut s = String::from_str(" ");
    s.append(a.name.to_text().as_str());
    s.append("=\"");
    match &a.value {
        Some(v) => s.append(v.as_str()),
        None => {},
    }
    s.append("\"");
    proof {
        reveal_strlit(" ");
        reveal_strlit("=\"");
        reveal_strlit("\"");
    }
    assert(s@ =~= attr_text(a@));
    s
}

/// The start of an opening tag.
fn open_text_exec(name: &super::node::ElementName, attrs: &Vec<Attribute>) -> (r: String)
    ensures
        r@ == open_text((name@, attrs_view(attrs@))),
{
    let mut s = String::from_str("<");
    proof { reveal_strlit("<"); }
    s.append(name.to_text().as_str());
    let ghost start = s@;
    let mut i: usize = 0;
    while i < attrs.len()
        invariant
            i <= attrs.len(),
            s@ == start + attrs_text(attrs_view(attrs@).take(i as int)),
        decreases attrs.len() - i,
    {
        let t = attr_text_exec(&attrs[i]);
        s.append(t.as_str());
        proof {
            let v = attrs_view(attrs@);
            assert(v.take(i + 1).drop_last() =~= v.take(i as int));
        }
        assert(s@ =~= start + attrs_text(attrs_view(attrs@).take(i + 1)));
        i = i + 1;
    }
    assert(attrs_view(attrs@).take(attrs.len() as int) =~= attrs_view(attrs@));
    assert(s@ =~= open_text((name@, attrs_view(attrs@))));
    s
}

/// Writes the lines of node `n` after those already written.
#[verifier::rlimit(60)]
fn print_node_exec(doc: &Document, n: NodeRef, depth: usize, o: PrintOptions, out: &mut String, first: &mut bool,
    Ghost(lines): Ghost<Seq<(nat, Seq<char>)>>, Ghost(fuel): Ghost<nat>)
    requires
        wf(doc@),
        n.0 < doc@.nodes.len(),
        node_lines(doc@, fuel, n.0 as nat, depth as nat) is Some,
        depth + fuel <= u32::MAX,
        old(out)@ == layout(o, lines),
        *old(first) == (lines.len() == 0),
    ensures
        final(out)@ == layout(o, lines + node_lines(doc@, fuel, n.0 as nat, depth as nat)->0),
        *final(first) == (((lines + node_lines(doc@, fuel, n.0 as nat, depth as nat)->0).len() == 0)),
    decreases fuel, 0nat,
{
    let ghost d = doc@;
    proof { reveal_with_fuel(node_lines, 1); }
    match doc.get(n) {
        NodeData::Leaf { value } => {
            write_line(out, first, o, depth, value.as_str(), Ghost(lines));
            assert(lines.push((depth as nat, value@)) =~= lines + seq![(depth as nat, value@)]);
            assert(out@ == layout(o, lines + node_lines(d, fuel, n.0 as nat, depth as nat)->0));
        },
        NodeData::Root => {
            print_children_exec(doc, n, depth, o, out, first, Ghost(lines), Ghost((fuel - 1) as nat));
            assert(out@ == layout(o, lines + node_lines(d, fuel, n.0 as nat, depth as nat)->0));
        },
        NodeData::NodeElement { element } => {
            let open = open_text_exec(&element.name, &element.attributes);
            assert(d.nodes[n.0 as int] == NodeDataV::Element(element@));
            assert(open@ == open_text(element@));
            if doc.children(n).len() == 0 {
                assert(d.children[n.0 as int].len() == 0);
                assert(node_lines(d, fuel, n.0 as nat, depth as nat) == Some(seq![(depth as nat, open_text(element@) + seq![' ', '/', '>'])]));
                let mut t = open;
                t.append(" />");
                proof { reveal_strlit(" />"); }
                assert(t@ =~= open_text(element@) + seq![' ', '/', '>']);
                write_line(out, first, o, depth, t.as_str(), Ghost(lines));
                assert(lines.push((depth as nat, t@)) =~= lines + seq![(depth as nat, t@)]);
                assert(out@ == layout(o, lines + node_lines(d, fuel, n.0 as nat, depth as nat)->0));
            } else {
                let mut t = open;
                t.append(">");
                proof { reveal_strlit(">"); }
                assert(t@ =~= open_text(element@) + seq!['>']);
                write_line(out, first, o, depth, t.as_str(), Ghost(lines));
                let ghost l1 = lines.push((depth as nat, t@));
                print_children_exec(doc, n, depth + 1, o, out, first, Ghost(l1), Ghost((fuel - 1) as nat));
                let ghost inner = children_lines(d, (fuel - 1) as nat, d.children[n.0 as int], (depth + 1) as nat)->0;
                let mut c = String::from_str("</");
                c.append(element.name.to_text().as_str());
                c.append(">");
                proof {
                    reveal_strlit("</");
                    reveal_strlit(">");
                }
                assert(c@ =~= close_text(element@));
                write_line(out, first, o, depth, c.as_str(), Ghost(l1 + inner));
                assert((l1 + inner).push((depth as nat, c@)) =~= lines + (seq![(depth as nat, t@)] + inner + seq![(depth as nat, close_text(element@))]));
                assert(out@ == layout(o, lines + node_lines(d, fuel, n.0 as nat, depth as nat)->0));
            }
        },
    }
}

/// Writes the lines of the children of `n`, one after another.
fn print_children_exec(doc: &Document, n: NodeRef, depth: usize, o: PrintOptions, out: &mut String, first: &mut bool,
    Ghost(lines): Ghost<Seq<(nat, Seq<char>)>>, Ghost(fuel): Ghost<nat>)
    requires
        wf(doc@),
        n.0 < doc@.nodes.len(),
        children_lines(doc@, fuel, doc@.children[n.0 as int], depth as nat) is Some,
        depth + fuel <= u32::MAX,
        old(out)@ == layout(o, lines),
        *old(first) == (lines.len() == 0),
    ensures
        final(out)@ == layout(o, lines + children_lines(doc@, fuel, doc@.children[n.0 as int], depth as nat)->0),
        *final(first) == (((lines + children_lines(doc@, fuel, doc@.children[n.0 as int], depth as nat)->0).len() == 0)),
    decreases fuel, doc@.children[n.0 as int].len() + 1,
{
    let ghost d = doc@;
    let ghost cs = d.children[n.0 as int];
    let ch = doc.children(n);
    let mut i: usize = 0;
    assert(cs.take(0) =~= Seq::<nat>::empty());
    while i < ch.len()
        invariant
            wf(doc@),
            d == doc@,
            n.0 < d.nodes.len(),
            cs == d.children[n.0 as int],
            crate::dom::document::refs_view(ch@) == cs,
            i <= ch.len(),
            children_lines(d, fuel, cs, depth as nat) is Some,
            children_lines(d, fuel, cs.take(i as int), depth as nat) is Some,
            depth + fuel <= u32::MAX,
            out@ == layout(o, lines + children_lines(d, fuel, cs.take(i as int), depth as nat)->0),
            *first == (((lines + children_lines(d, fuel, cs.take(i as int), depth as nat)->0).len() == 0)),
        decreases ch.len() - i,
    {
        proof { lemma_children_prefix(d, fuel, cs, depth as nat, i as int); }
        let c = ch[i];
        assert(cs[i as int] == c.0 as nat);
        assert(d.children[n.0 as int][i as int] == c.0 as nat);
        assert(c.0 < d.nodes.len());
        let ghost before = lines + children_lines(d, fuel, cs.take(i as int), depth as nat)->0;
        print_node_exec(doc, c, depth, o, out, first, Ghost(before), Ghost(fuel));
        assert(before + node_lines(d, fuel, c.0 as nat, depth as nat)->0 =~= lines + children_lines(d, fuel, cs.take(i + 1), depth as nat)->0);
        i = i + 1;
    }
    assert(cs.take(ch.len() as int) =~= cs);
}

/// The lines of a node end when the depth under it is bounded by the fuel.
proof fn lemma_lines_end(d: DocumentV, n: nat, f: nat, depth: nat)
    requires
        wf(d),
        n < d.nodes.len(),
        depth_below(d, n, f),
    ensures
        node_lines(d, f, n, depth) is Some,
    decreases f, 0nat,
{
    assert(ancestor(d, n, 0) == Some(n));
    let cs = d.children[n as int];
    assert forall|j: int| 0 <= j < cs.len() implies #[trigger] cs[j] < d.nodes.len() && d.parents[cs[j] as int] == Some(n) by {
        assert(d.children[n as int][j] == cs[j]);
    }
    lemma_children_lines_end(d, n, (f - 1) as nat, cs, depth);
    lemma_children_lines_end(d, n, (f - 1) as nat, cs, depth + 1);
}

/// The lines of children of `p` end when the depth under `p` is bounded by
/// one more than the fuel.
proof fn lemma_children_lines_end(d: DocumentV, p: nat, f: nat, cs: Seq<nat>, depth: nat)
    requires
        wf(d),
        forall|j: int| 0 <= j < cs.len() ==> #[trigger] cs[j] < d.nodes.len() && d.parents[cs[j] as int] == Some(p),
        depth_below(d, p, f + 1),
    ensures
        children_lines(d, f, cs, depth) is Some,
    decreases f, cs.len() + 1,
{
    if cs.len() > 0 {
        let rest = cs.drop_last();
        assert forall|j: int| 0 <= j < rest.len() implies #[trigger] rest[j] < d.nodes.len() && d.parents[rest[j] as int] == Some(p) by {
            assert(rest[j] == cs[j]);
        }
        lemma_children_lines_end(d, p, f, rest, depth);
        let c = cs.last();
        assert(c == cs[cs.len() - 1]);
        lemma_depth_child(d, p, c, f + 1);
        lemma_lines_end(d, c, f, depth);
    }
}

/// A node of a well-formed document whose chain of parents ends can be
/// printed.
pub proof fn lemma_printable(d: DocumentV, n: nat)
    requires
        wf(d),
        n < d.nodes.len(),
        chain_ends(d, n),
    ensures
        printable(d, n),
{
    lemma_chain_depth(d, n);
    lemma_lines_end(d, n, d.nodes.len(), 0);
}

impl Document {
    /// Prints node `node` and what is under it.
    pub fn print_node(&self, node: NodeRef, options: PrintOptions) -> (r: String)
        requires
            self.well_formed(),
            node.0 < self@.nodes.len(),
            chain_ends(self@, node.0 as nat),
        ensures
            r@ == printed(self@, node.0 as nat, options),
    {
        proof { lemma_printable(self@, node.0 as nat); }
        let ghost fuel = choose|fuel: nat| fuel <= u32::MAX && #[trigger] node_lines(self@, fuel, node.0 as nat, 0) is Some;
        let mut out = String::new();
        let mut first = true;
        print_node_exec(self, node, 0, options, &mut out, &mut first, Ghost(Seq::empty()), Ghost(fuel));
        assert(Seq::<(nat, Seq<char>)>::empty() + node_lines(self@, fuel, node.0 as nat, 0)->0 =~= node_lines(self@, fuel, node.0 as nat, 0)->0);
        out
    }

    /// Prints the whole document.
    pub fn print(&self, options: PrintOptions) -> (r: String)
        requires
            self.well_formed(),
            chain_ends(self@, self@.root),
        ensures
            r@ == printed(self@, self@.root, options),
    {
        self.print_node(self.root(), options)
    }
}

} // verus!

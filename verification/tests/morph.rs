use liveview_native_core::diff::morph::{diff, Morph};
use liveview_native_core::diff::patch::Patch;
use liveview_native_core::dom::attribute::{Attribute, AttributeName};
use liveview_native_core::dom::builder::Builder;
use liveview_native_core::dom::document::Document;
use liveview_native_core::dom::node::{Element, ElementName, NodeData, NodeRef};
use liveview_native_core::dom::printer::PrintOptions;

fn element(tag: &str) -> NodeData {
    NodeData::NodeElement { element: Element::new(ElementName::new(tag.to_string())) }
}

fn element_with(tag: &str, name: &str, value: &str) -> NodeData {
    let mut element = Element::new(ElementName::new(tag.to_string()));
    element.set_attribute(AttributeName::new(name.to_string()), Some(value.to_string()));
    NodeData::NodeElement { element }
}

fn leaf(text: &str) -> NodeData {
    NodeData::Leaf { value: text.to_string() }
}

/// Applies `patches` to a copy of `doc` built anew, and prints the result.
fn apply_all(doc: Document, patches: Vec<Patch>) -> String {
    let mut b = Builder::from_document(doc);
    let mut stack: Vec<NodeRef> = Vec::new();
    for patch in patches {
        patch.apply(&mut b, &mut stack);
    }
    b.finish().print(PrintOptions::Minified)
}

/// `<div>` followed by the given children inside it.
fn div_with(children: &[NodeData]) -> Document {
    let mut doc = Document::empty();
    let root = doc.root();
    let div = doc.push_node(element("div"));
    doc.append_child(root, div);
    for child in children {
        let n = doc.push_node(child.clone());
        doc.append_child(div, n);
    }
    doc
}

#[test]
fn diff_of_equal_documents_is_empty() {
    let a = div_with(&[leaf("hi"), element("br")]);
    let b = div_with(&[leaf("hi"), element("br")]);
    assert!(diff(&a, &b).is_empty());
    assert!(diff(&a, &a).is_empty());
    assert!(diff(&Document::empty(), &Document::empty()).is_empty());
}

#[test]
fn diff_appends_a_new_child() {
    let a = div_with(&[]);
    let b = div_with(&[leaf("hi")]);
    let patches = diff(&a, &b);
    assert_eq!(
        patches,
        vec![Patch::Push(NodeRef(1)), Patch::Create { node: leaf("hi") }, Patch::Attach, Patch::Pop]
    );
    assert_eq!(apply_all(a, patches), "<div>hi</div>");
}

#[test]
fn diff_replaces_changed_text() {
    let a = div_with(&[leaf("a")]);
    let b = div_with(&[leaf("b")]);
    let patches = diff(&a, &b);
    assert_eq!(patches, vec![Patch::Replace { node: NodeRef(2), replacement: leaf("b") }]);
    assert_eq!(apply_all(a, patches), "<div>b</div>");
}

#[test]
fn diff_sets_changed_attributes() {
    let mut a = Document::empty();
    let root = a.root();
    let div = a.push_node(element_with("div", "class", "a"));
    a.append_child(root, div);
    let mut b = Document::empty();
    let root = b.root();
    let div = b.push_node(element_with("div", "class", "b"));
    b.append_child(root, div);
    let patches = diff(&a, &b);
    assert_eq!(
        patches,
        vec![Patch::SetAttributes {
            node: NodeRef(1),
            attributes: vec![Attribute::new("class".to_string(), Some("b".to_string()))],
        }]
    );
    assert_eq!(apply_all(a, patches), r#"<div class="b" />"#);
}

#[test]
fn diff_removes_a_trailing_node() {
    let a = div_with(&[element("span"), element("p")]);
    let b = div_with(&[element("span")]);
    let patches = diff(&a, &b);
    assert_eq!(patches, vec![Patch::Remove { node: NodeRef(3) }]);
    assert_eq!(apply_all(a, patches), "<div><span /></div>");
}

#[test]
fn diff_replaces_an_element_of_another_name() {
    let a = div_with(&[element("span")]);
    let b = div_with(&[element("p")]);
    let patches = diff(&a, &b);
    assert_eq!(patches, vec![Patch::Replace { node: NodeRef(2), replacement: element("p") }]);
    assert_eq!(apply_all(a, patches), "<div><p /></div>");
}

#[test]
fn morph_yields_patches_one_at_a_time() {
    let a = div_with(&[]);
    let b = div_with(&[leaf("hi")]);
    let mut morph = Morph::new(&a, &b);
    assert_eq!(morph.next(), Some(Patch::Push(NodeRef(1))));
    assert_eq!(morph.next(), Some(Patch::Create { node: leaf("hi") }));
    assert_eq!(morph.next(), Some(Patch::Attach));
    assert_eq!(morph.next(), Some(Patch::Pop));
    assert_eq!(morph.next(), None);
}

/// Divs under the root with the given ids, each registered.
fn keyed(ids: &[&str]) -> Document {
    let mut doc = Document::empty();
    let root = doc.root();
    for id in ids {
        let n = doc.push_node(element_with("div", "id", id));
        doc.append_child(root, n);
        doc.register_id(n, id.to_string());
    }
    doc
}

#[test]
fn diff_moves_keyed_nodes() {
    let a = keyed(&["x", "y"]);
    let b = keyed(&["y", "x"]);
    let patches = diff(&a, &b);
    assert_eq!(
        patches,
        vec![
            Patch::Detach { node: NodeRef(1) },
            Patch::Push(NodeRef(0)),
            Patch::Push(NodeRef(1)),
            Patch::Attach,
            Patch::Pop,
        ]
    );
    assert_eq!(apply_all(a, patches), r#"<div id="y" /><div id="x" />"#);
}

/// Records the changes a merge reports.
struct ChangeRecorder {
    seen: std::sync::Mutex<Vec<(liveview_native_core::callbacks::ChangeType, NodeRef)>>,
}

impl liveview_native_core::dom::document::DocumentChangeHandler for ChangeRecorder {
    fn handle(
        &self,
        change_type: liveview_native_core::callbacks::ChangeType,
        node_ref: std::sync::Arc<NodeRef>,
        _node_data: NodeData,
        _parent: Option<std::sync::Arc<NodeRef>>,
    ) {
        self.seen.lock().expect("lock").push((change_type, *node_ref));
    }
}

#[test]
fn merge_document_turns_the_old_document_into_the_new() {
    let mut a = div_with(&[leaf("a")]);
    let b = div_with(&[leaf("b"), element("br")]);
    let n = diff(&a, &b).len();
    assert_eq!(a.merge_document(&b), Ok(n));
    assert_eq!(a.print(PrintOptions::Minified), b.print(PrintOptions::Minified));
    assert_eq!(a.print(PrintOptions::Minified), "<div>b<br /></div>");
}

#[test]
fn merge_document_of_an_equal_document_changes_nothing() {
    let mut a = div_with(&[leaf("hi"), element("br")]);
    let b = div_with(&[leaf("hi"), element("br")]);
    let before = a.print(PrintOptions::Minified);
    assert_eq!(a.merge_document(&b), Ok(0));
    assert_eq!(a.print(PrintOptions::Minified), before);
}

#[test]
fn merge_document_tells_the_handler_of_each_change() {
    let recorder = std::sync::Arc::new(ChangeRecorder { seen: std::sync::Mutex::new(Vec::new()) });
    let mut a = div_with(&[leaf("a")]);
    a.event_callback = Some(recorder.clone());
    let b = div_with(&[leaf("b")]);
    assert_eq!(a.merge_document(&b), Ok(1));
    assert_eq!(*recorder.seen.lock().expect("lock"), vec![(liveview_native_core::callbacks::ChangeType::Replace, NodeRef(2))]);
    assert!(a.event_callback.is_some());
}

#[test]
fn merge_document_handles_structural_changes() {
    let cases: Vec<(Vec<NodeData>, Vec<NodeData>)> = vec![
        (vec![leaf("a"), element("br")], vec![element("br"), leaf("a")]),
        (vec![leaf("a")], vec![]),
        (vec![], vec![element("p"), leaf("b"), element("hr")]),
        (vec![element_with("p", "class", "x")], vec![element_with("p", "class", "y"), leaf("z")]),
        (vec![element("p"), element("p"), leaf("t")], vec![leaf("t")]),
    ];
    for (from, to) in cases {
        let mut a = div_with(&from);
        let b = div_with(&to);
        let n = diff(&a, &b).len();
        assert_eq!(a.merge_document(&b), Ok(n));
        assert_eq!(a.print(PrintOptions::Minified), b.print(PrintOptions::Minified));
    }
}

/// A small deterministic generator of numbers.
struct Lcg(u64);

impl Lcg {
    fn next(&mut self, bound: u64) -> u64 {
        self.0 = self.0.wrapping_mul(6364136223846793005).wrapping_add(1442695040888963407);
        (self.0 >> 33) % bound
    }
}

/// Adds under `parent` up to three random children, `depth` levels deep at
/// most; elements come with a class, or, when `ids` is set, sometimes with
/// an `id`, each new in the document.
fn grow(doc: &mut Document, parent: NodeRef, depth: u32, rng: &mut Lcg, ids: bool, next_id: &mut u32) {
    let n = rng.next(4);
    for _ in 0..n {
        let node = match rng.next(4) {
            0 => leaf(["a", "b", "c"][rng.next(3) as usize]),
            1 if ids => {
                *next_id += 1;
                let id = format!("i{}", *next_id);
                element_with(["p", "div"][rng.next(2) as usize], "id", &id)
            },
            _ => element_with(["p", "div", "span"][rng.next(3) as usize], "class", ["x", "y"][rng.next(2) as usize]),
        };
        let is_element = matches!(node, NodeData::NodeElement { .. });
        let id = match &node {
            NodeData::NodeElement { element } => element
                .attributes
                .iter()
                .find(|a| a.name.name == "id")
                .and_then(|a| a.value.clone()),
            _ => None,
        };
        let child = doc.push_node(node);
        doc.append_child(parent, child);
        if let Some(id) = id {
            doc.register_id(child, id);
        }
        if is_element && depth > 0 {
            grow(doc, child, depth - 1, rng, ids, next_id);
        }
    }
}

fn random_document(rng: &mut Lcg, ids: bool) -> Document {
    let mut doc = Document::empty();
    let root = doc.root();
    let mut next_id = 0;
    grow(&mut doc, root, 3, rng, ids, &mut next_id);
    doc
}

#[test]
fn merge_document_reaches_the_new_document_on_generated_pairs() {
    let mut rng = Lcg(7);
    for _ in 0..2000 {
        let mut a = random_document(&mut rng, false);
        let b = random_document(&mut rng, false);
        let expected = b.print(PrintOptions::Minified);
        let n = diff(&a, &b).len();
        assert_eq!(a.merge_document(&b), Ok(n));
        assert_eq!(a.print(PrintOptions::Minified), expected);
    }
}

#[test]
fn merge_document_with_ids_on_generated_pairs() {
    let mut rng = Lcg(11);
    for _ in 0..2000 {
        let mut a = random_document(&mut rng, true);
        let b = random_document(&mut rng, true);
        let expected = b.print(PrintOptions::Minified);
        let n = diff(&a, &b).len();
        assert_eq!(a.merge_document(&b), Ok(n));
        assert_eq!(a.print(PrintOptions::Minified), expected);
    }
}

/// A node to build: its data and its children.
struct T(NodeData, Vec<T>);

fn add(doc: &mut Document, parent: NodeRef, t: &T) {
    let id = match &t.0 {
        NodeData::NodeElement { element } => {
            element.attributes.iter().find(|a| a.name.name == "id").and_then(|a| a.value.clone())
        },
        _ => None,
    };
    let n = doc.push_node(t.0.clone());
    doc.append_child(parent, n);
    if let Some(id) = id {
        doc.register_id(n, id);
    }
    for c in &t.1 {
        add(doc, n, c);
    }
}

/// A document whose root holds `top`.
fn build(top: Vec<T>) -> Document {
    let mut doc = Document::empty();
    let root = doc.root();
    for t in &top {
        add(&mut doc, root, t);
    }
    doc
}

fn assert_merges(mut a: Document, b: Document) {
    let expected = b.print(PrintOptions::Minified);
    let n = diff(&a, &b).len();
    assert_eq!(a.merge_document(&b), Ok(n));
    assert_eq!(a.print(PrintOptions::Minified), expected);
}

#[test]
fn inserted_node_keeps_all_its_children() {
    let a = build(vec![T(leaf("b"), vec![]), T(element_with("span", "class", "y"), vec![]), T(leaf("b"), vec![])]);
    let b = build(vec![
        T(element_with("div", "class", "x"), vec![T(element_with("span", "class", "y"), vec![]), T(leaf("a"), vec![])]),
        T(element_with("span", "class", "y"), vec![]),
    ]);
    assert_merges(a, b);
}

#[test]
fn node_with_a_kept_id_and_another_tag_is_replaced() {
    let a = build(vec![T(leaf("c"), vec![]), T(element_with("p", "id", "i1"), vec![])]);
    let b = build(vec![T(element_with("div", "id", "i1"), vec![T(leaf("a"), vec![])]), T(leaf("a"), vec![])]);
    assert_merges(a, b);
}

#[test]
fn keyed_node_moves_before_its_old_neighbour() {
    let a = build(vec![T(element_with("p", "class", "y"), vec![]), T(element_with("p", "id", "i1"), vec![T(leaf("a"), vec![])])]);
    let b = build(vec![T(element_with("p", "id", "i1"), vec![]), T(leaf("c"), vec![])]);
    assert_merges(a, b);
}

#[test]
fn keyed_node_deep_in_a_removed_node_is_kept() {
    let a = build(vec![T(element_with("div", "class", "x"), vec![T(element_with("p", "class", "x"), vec![
        T(element_with("div", "id", "i1"), vec![T(leaf("a"), vec![]), T(element_with("p", "class", "x"), vec![])]),
    ])])]);
    let b = build(vec![T(element_with("span", "class", "y"), vec![
        T(element_with("div", "id", "i1"), vec![T(element_with("p", "id", "i2"), vec![T(leaf("a"), vec![])])]),
    ])]);
    assert_merges(a, b);
}

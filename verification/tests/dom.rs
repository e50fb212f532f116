use liveview_native_core::diff::fragment::{Child, ChildDiff, Fragment, FragmentDiff, FragmentMerge, OneOrManyStrings};
use liveview_native_core::diff::patch::{Patch, PatchResult};
use liveview_native_core::diff::traversal::MoveTo;
use liveview_native_core::dom::attribute::{Attribute, AttributeName, AttributeValue};
use liveview_native_core::dom::builder::Builder;
use liveview_native_core::dom::document::Document;
use liveview_native_core::dom::edge::EdgeId;
use liveview_native_core::dom::node::{Element, ElementName, NodeData, NodeRef};
use liveview_native_core::dom::printer::PrintOptions;
use liveview_native_core::dom::select::Selector;

fn element(tag: &str) -> NodeData {
    NodeData::NodeElement { element: Element::new(ElementName::new(tag.to_string())) }
}

fn leaf(text: &str) -> NodeData {
    NodeData::Leaf { value: text.to_string() }
}

/// A document `<div id="main" class="a b">hi<br /></div>`.
fn sample() -> (Document, NodeRef, NodeRef, NodeRef) {
    let mut doc = Document::empty();
    let root = doc.root();
    let div = doc.push_node(element("div"));
    doc.append_child(root, div);
    doc.set_attribute(div, AttributeName::new("id".to_string()), Some("main".to_string()));
    doc.set_attribute(div, AttributeName::new("class".to_string()), Some("a b".to_string()));
    doc.register_id(div, "main".to_string());
    let text = doc.push_node(leaf("hi"));
    doc.append_child(div, text);
    let br = doc.push_node(element("br"));
    doc.append_child(div, br);
    (doc, div, text, br)
}

#[test]
fn document_prints_minified() {
    let (doc, _, _, _) = sample();
    assert_eq!(doc.print(PrintOptions::Minified), r#"<div id="main" class="a b">hi<br /></div>"#);
}

#[test]
fn document_prints_pretty() {
    let (doc, div, _, br) = sample();
    assert_eq!(doc.print(PrintOptions::Pretty), "<div id=\"main\" class=\"a b\">\n    hi\n    <br />\n</div>");
    assert_eq!(doc.print_node(br, PrintOptions::Pretty), "<br />");
    assert_eq!(doc.print_node(div, PrintOptions::Minified), r#"<div id="main" class="a b">hi<br /></div>"#);
}

#[test]
fn document_navigation() {
    let (doc, div, text, br) = sample();
    let root = doc.root();
    assert_eq!(doc.parent(div), Some(root));
    assert_eq!(doc.parent(root), None);
    assert_eq!(doc.children(div).to_vec(), vec![text, br]);
    assert_eq!(doc.get_by_id("main"), Some(div));
    assert_eq!(doc.get_by_id("other"), None);
    assert!(!doc.is_empty());
    assert!(Document::empty().is_empty());
    let id = doc.get_attribute_by_name(div, AttributeName::new("id".to_string())).expect("id attribute");
    assert_eq!(id.value, Some("main".to_string()));
    assert_eq!(doc.attributes(div).len(), 2);
    assert!(doc.get(text).is_leaf());
    assert_eq!(doc.get(div).id(), Some("main".to_string()));
}

#[test]
fn document_edits() {
    let (mut doc, div, text, br) = sample();
    let span = doc.push_node(element("span"));
    doc.insert_before(span, br);
    assert_eq!(doc.children(div).to_vec(), vec![text, span, br]);
    doc.detach(text);
    assert_eq!(doc.children(div).to_vec(), vec![span, br]);
    assert_eq!(doc.parent(text), None);
    doc.insert_after(text, br);
    assert_eq!(doc.children(div).to_vec(), vec![span, br, text]);
    doc.remove_attribute(div, AttributeName::new("class".to_string()));
    assert_eq!(doc.print(PrintOptions::Minified), r#"<div id="main"><span /><br />hi</div>"#);
    doc.replace(text, leaf("bye"));
    assert_eq!(doc.print(PrintOptions::Minified), r#"<div id="main"><span /><br />bye</div>"#);
    doc.delete(span);
    assert_eq!(doc.children(div).to_vec(), vec![br, text]);
    let previous = doc.replace_attributes(div, vec![Attribute::new("x".to_string(), None)]);
    assert_eq!(previous.map(|a| a.len()), Some(1));
    assert_eq!(doc.print(PrintOptions::Minified), r#"<div x=""><br />bye</div>"#);
    doc.clear();
    assert!(doc.is_empty());
}

#[test]
fn set_attribute_then_lookup_law() {
    let (mut doc, div, text, _) = sample();
    assert!(doc.set_attribute(div, AttributeName::new("title".to_string()), Some("t".to_string())));
    let a = doc.get_attribute_by_name(div, AttributeName::new("title".to_string())).expect("set attribute is found");
    assert_eq!(a.value, Some("t".to_string()));
    assert!(!doc.set_attribute(text, AttributeName::new("title".to_string()), None));
}

#[test]
fn builder_builds_a_tree() {
    let mut b = Builder::new();
    let ul = b.append(element("ul"));
    b.set_insertion_point(ul);
    let li1 = b.append(element("li"));
    let li2 = b.append(element("li"));
    b.set_insertion_point(li2);
    b.set_attribute(AttributeName::new("class".to_string()), Some("last".to_string()));
    b.append(leaf("two"));
    b.set_insertion_point_to_parent();
    assert_eq!(b.insertion_point(), ul);
    b.set_insertion_point_to_child(0);
    assert_eq!(b.insertion_point(), li1);
    b.set_insertion_point_to_sibling(1);
    assert_eq!(b.insertion_point(), li2);
    let doc = b.finish();
    assert_eq!(doc.print(PrintOptions::Minified), r#"<ul><li /><li class="last">two</li></ul>"#);
}

#[test]
fn patches_edit_the_document() {
    let (doc, div, text, br) = sample();
    let mut b = Builder::from_document(doc);
    let mut stack: Vec<NodeRef> = Vec::new();
    let r = Patch::Replace { node: text, replacement: leaf("changed") }.apply(&mut b, &mut stack);
    assert_eq!(r, Some(PatchResult::Replace { node: text, parent: div }));
    let r = Patch::Remove { node: br }.apply(&mut b, &mut stack);
    assert_eq!(r, Some(PatchResult::Remove { node: br, parent: div }));
    let r = Patch::AppendTo { parent: div, node: element("p") }.apply(&mut b, &mut stack);
    let p = match r {
        Some(PatchResult::Add { node, parent }) => {
            assert_eq!(parent, div);
            node
        }
        other => panic!("unexpected result {:?}", other),
    };
    let r = Patch::AddAttributeTo { node: p, name: AttributeName::new("k".to_string()), value: Some("v".to_string()) }
        .apply(&mut b, &mut stack);
    assert_eq!(r, Some(PatchResult::Change { node: p }));
    let r = Patch::Move(MoveTo::Node(p)).apply(&mut b, &mut stack);
    assert_eq!(r, None);
    assert_eq!(b.insertion_point(), p);
    let r = Patch::Create { node: leaf("inner") }.apply(&mut b, &mut stack);
    assert_eq!(r, None);
    assert_eq!(stack.len(), 1);
    let r = Patch::PushCurrent.apply(&mut b, &mut stack);
    assert_eq!(r, None);
    assert_eq!(stack.len(), 2);
    let r = Patch::Pop.apply(&mut b, &mut stack);
    assert_eq!(r, None);
    let doc = b.finish();
    assert_eq!(doc.print(PrintOptions::Minified), r#"<div id="main" class="a b">changed<p k="v" /></div>"#);
}

#[test]
fn selectors_match_elements() {
    let (doc, div, text, br) = sample();
    assert!(Selector::Tag("div".to_string()).matches(div, &doc));
    assert!(!Selector::Tag("div".to_string()).matches(br, &doc));
    assert!(!Selector::Tag("div".to_string()).matches(text, &doc));
    assert!(Selector::Id("main").matches(div, &doc));
    assert!(!Selector::Id("main").matches(br, &doc));
    assert!(Selector::All.matches(br, &doc));
    assert!(Selector::Attribute("class".to_string()).matches(div, &doc));
    assert!(Selector::AttributeValue("class".to_string(), AttributeValue::String("a b".to_string())).matches(div, &doc));
    assert!(Selector::AttributeValueWhitespacedContains("class".to_string(), "b").matches(div, &doc));
    assert!(!Selector::AttributeValueWhitespacedContains("class".to_string(), "a b").matches(div, &doc));
    assert!(Selector::AttributeValueStartsWith("class".to_string(), "a ").matches(div, &doc));
    assert!(Selector::AttributeValueEndsWith("class".to_string(), " b").matches(div, &doc));
    assert!(Selector::AttributeValueSubstring("class".to_string(), " ").matches(div, &doc));
    let desc = Selector::Descendant(Box::new(Selector::Tag("div".to_string())), Box::new(Selector::Tag("br".to_string())));
    assert!(desc.matches(br, &doc));
    let child = Selector::Child(Box::new(Selector::Id("main")), Box::new(Selector::Tag("br".to_string())));
    assert!(child.matches(br, &doc));
    let both = Selector::And(Box::new(Selector::Tag("br".to_string())), Box::new(Selector::Tag("div".to_string())));
    assert!(!both.matches(br, &doc));
    let either = Selector::Or(Box::new(Selector::Tag("br".to_string())), Box::new(Selector::Tag("div".to_string())));
    assert!(either.matches(br, &doc));
    assert!(Selector::Id("main").is_unique());
    assert!(!Selector::Tag("br".to_string()).is_unique());
}

#[test]
fn names_and_values() {
    let n = AttributeName::from_text("svg:href");
    assert_eq!(n.namespace, Some("svg".to_string()));
    assert_eq!(n.name, "href".to_string());
    assert_eq!(n.to_text(), "svg:href".to_string());
    assert_eq!(AttributeName::from_text("href").to_text(), "href".to_string());
    assert_eq!(ElementName::from_text("a:b").to_text(), "a:b".to_string());
    assert_eq!(AttributeValue::String("x".to_string()).to_string(), "x".to_string());
    assert_eq!(AttributeValue::NoValue.to_string(), "".to_string());
    assert_eq!(AttributeValue::NoValue.as_str(), None);
    assert!(AttributeValue::String("x".to_string()).same_as_str("x"));
}

#[test]
fn edge_ids_round_trip() {
    let e = EdgeId::new(NodeRef(3), NodeRef(7));
    assert_eq!(e.parent(), NodeRef(3));
    assert_eq!(e.child(), NodeRef(7));
    assert_eq!(NodeRef(5).ref_id(), 5);
    assert_eq!(NodeRef(5).index(), 5);
}

#[test]
fn attach_document_under_a_node() {
    let (mut doc, div, _, _) = sample();
    let mut other = Document::empty();
    let oroot = other.root();
    let p = other.push_node(element("p"));
    other.append_child(oroot, p);
    other.set_attribute(p, AttributeName::new("id".to_string()), Some("q".to_string()));
    other.register_id(p, "q".to_string());
    let t = other.push_node(leaf("x"));
    other.append_child(p, t);
    let before = doc.print(PrintOptions::Minified);
    doc.attach_document(div, other);
    assert_eq!(before, r#"<div id="main" class="a b">hi<br /></div>"#);
    assert_eq!(doc.print(PrintOptions::Minified), r#"<div id="main" class="a b">hi<br /><p id="q">x</p></div>"#);
    let landed = doc.get_by_id("q").expect("identifier carried over");
    assert_eq!(doc.parent(landed), Some(div));
    assert_eq!(doc.get_by_id("main"), Some(div));
}

#[test]
fn merge_update_then_lookup_law() {
    let text = |s: &str| Child::String(OneOrManyStrings::One(s.to_string()));
    let f = Fragment::Regular {
        statics: None,
        is_root: None,
        children: vec![("0".to_string(), text("a")), ("1".to_string(), text("b"))],
        new_render: None,
    };
    let d = FragmentDiff::UpdateRegular {
        children: vec![("1".to_string(), ChildDiff::String(OneOrManyStrings::One("c".to_string())))],
        statics: None,
        is_root: None,
    };
    match f.merge(d).expect("merge") {
        Fragment::Regular { children, .. } => {
            assert_eq!(children, vec![("0".to_string(), text("a")), ("1".to_string(), text("c"))]);
        }
        other => panic!("unexpected {:?}", other),
    }
}

#[test]
fn select_children_stays_under_the_node() {
    let (mut doc, div, _, br) = sample();
    let root = doc.root();
    let other = doc.push_node(element("br"));
    doc.append_child(root, other);
    assert_eq!(doc.select(Selector::Tag("br".to_string())), vec![other, br]);
    assert_eq!(doc.select_children(div, Selector::Tag("br".to_string())), vec![br]);
    assert_eq!(doc.select_children(br, Selector::All), vec![br]);
}

/// A few selectors, by number.
fn some_selector(i: usize) -> Selector<'static> {
    match i {
        0 => Selector::Tag("div".to_string()),
        1 => Selector::Tag("br".to_string()),
        2 => Selector::Id("main"),
        _ => Selector::Tag("p".to_string()),
    }
}

#[test]
fn selected_nodes_match_law() {
    let (doc, div, _, br) = sample();
    for i in 0..4 {
        let found = doc.select(some_selector(i));
        for n in &found {
            assert!(some_selector(i).matches(*n, &doc));
        }
    }
    assert_eq!(doc.select(Selector::Tag("div".to_string())), vec![div]);
    assert_eq!(doc.select(Selector::Tag("br".to_string())), vec![br]);
    assert!(doc.select(Selector::Tag("p".to_string())).is_empty());
}

#[test]
fn attribute_values_display_quoted() {
    assert_eq!(AttributeValue::NoValue.display(), "");
    assert_eq!(AttributeValue::String("plain".to_string()).display(), "\"plain\"");
    assert_eq!(AttributeValue::String("a\"b".to_string()).display(), "\"a\\\"b\"");
    assert_eq!(AttributeValue::String("a\\\"b".to_string()).display(), "\"a\\\"b\"");
    assert_eq!(AttributeValue::String("a\\nb".to_string()).display(), "\"a\\nb\"");
    assert_eq!(AttributeValue::String("ab\\".to_string()).display(), "\"ab\"");
    assert_eq!(AttributeValue::String(String::new()).display(), "\"\"");
}

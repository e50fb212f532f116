use liveview_native_core::config::{LogLevel, Platform};
use liveview_native_core::diff::fragment::{
    Child, Component, ComponentStatics, Fragment, FragmentMerge, MergeError, OneOrManyStrings, RenderError, Root, RootDiff,
    Statics,
};
use liveview_native_core::interner::{InternedString, Interner, Symbol};
use liveview_native_core::logging::set_log_level;
use liveview_native_core::text::{i32_text, parse_u32_exec, u64_text, usize_text};
use liveview_native_core::urls::{capped_len, URL_ROOM};

#[test]
fn interner_tests() {
    let mut i: Interner = Interner::default();
    // first one is zero:
    assert_eq!(i.intern("dog"), Symbol::new(0));
    // re-use gets the same entry:
    assert_eq!(i.intern("dog"), Symbol::new(0));
    // different string gets a different #:
    assert_eq!(i.intern("cat"), Symbol::new(1));
    assert_eq!(i.intern("cat"), Symbol::new(1));
    // dog is still at zero
    assert_eq!(i.intern("dog"), Symbol::new(0));
}

#[test]
fn interner_gives_back_what_was_interned() {
    let mut i = Interner::new();
    let dog = Symbol::intern(&mut i, "dog");
    let cat = InternedString::intern(&mut i, "cat");
    assert_eq!(i.get(dog), "dog");
    assert_eq!(cat.as_str(&i), "cat");
    assert_eq!(cat.as_symbol().as_u32(), 2);
    assert_eq!(dog.as_usize(), 1);
    assert_ne!(dog, cat.as_symbol());
}

#[test]
fn decimal_text() {
    assert_eq!(u64_text(0), "0");
    assert_eq!(u64_text(1234567890123), "1234567890123");
    assert_eq!(i32_text(-42), "-42");
    assert_eq!(i32_text(i32::MIN), "-2147483648");
    assert_eq!(usize_text(17), "17");
}

#[test]
fn parse_u32_reads_what_str_parse_reads() {
    assert_eq!(parse_u32_exec("42"), Some(42));
    assert_eq!(parse_u32_exec("+7"), Some(7));
    assert_eq!(parse_u32_exec("4294967295"), Some(u32::MAX));
    assert_eq!(parse_u32_exec("4294967296"), None);
    assert_eq!(parse_u32_exec(""), None);
    assert_eq!(parse_u32_exec("+"), None);
    assert_eq!(parse_u32_exec("-1"), None);
    assert_eq!(parse_u32_exec("1a"), None);
    for s in ["0", "123", "+99", "00012", "x", "99999999999"] {
        assert_eq!(parse_u32_exec(s), s.parse::<u32>().ok());
    }
}

#[test]
fn platform_names() {
    assert_eq!(Platform::Swiftui.to_string(), "swiftui");
    assert_eq!(Platform::Jetpack.to_string(), "jetpack");
    assert_eq!(Platform::Other("web".to_string()).to_string(), "web");
    assert_eq!(Platform::from("jetpack".to_string()).to_string(), "jetpack");
    assert!(matches!(Platform::from("swiftui".to_string()), Platform::Swiftui));
    assert!(matches!(Platform::from("html".to_string()), Platform::Other(o) if o == "html"));
    assert!(matches!(Platform::default_for(true, false), Platform::Swiftui));
    assert!(matches!(Platform::default_for(false, true), Platform::Jetpack));
    assert_eq!(Platform::default_for(false, false).to_string(), "undefined_format");
}

#[test]
fn log_level_defaults_to_info() {
    assert_eq!(LogLevel::default(), LogLevel::Info);
    set_log_level(LogLevel::Warn);
}

fn text(s: &str) -> Child {
    Child::String(OneOrManyStrings::One(s.to_string()))
}

fn regular(children: Vec<(&str, Child)>, statics: Statics) -> Fragment {
    Fragment::Regular {
        statics: Some(statics),
        is_root: None,
        children: children.into_iter().map(|(k, c)| (k.to_string(), c)).collect(),
        new_render: None,
    }
}

fn root(fragment: Fragment, components: Vec<(&str, Component)>) -> Root {
    Root { new_render: None, fragment, components: components.into_iter().map(|(k, c)| (k.to_string(), c)).collect() }
}

#[test]
fn render_reports_missing_pieces() {
    let r = root(regular(vec![("0", Child::ComponentID(9))], Statics::Statics(vec!["a".into(), "b".into()])), vec![]);
    assert_eq!(r.render(), Err(RenderError::ComponentNotFound(9)));
    let r = root(regular(vec![], Statics::TemplateRef(3)), vec![]);
    assert_eq!(r.render(), Err(RenderError::NoTemplates));
    let comp = Component { children: vec![], statics: ComponentStatics::Statics(vec!["x".into(), "y".into()]), is_root: None };
    let r = root(regular(vec![("0", Child::ComponentID(1))], Statics::Statics(vec!["<".into(), ">".into()])), vec![("1", comp)]);
    assert_eq!(r.render(), Err(RenderError::ChildNotFoundForStatic(0)));
    let comp = Component { children: vec![], statics: ComponentStatics::ComponentRef(5), is_root: None };
    let r = root(regular(vec![("0", Child::ComponentID(1))], Statics::Statics(vec!["<".into(), ">".into()])), vec![("1", comp)]);
    assert_eq!(r.render(), Err(RenderError::ComponentNotFound(5)));
}

#[test]
fn render_concatenates_many_strings_and_skips_missing_children() {
    let f = regular(
        vec![("0", Child::String(OneOrManyStrings::Many(vec!["x".into(), "y".into()])))],
        Statics::Statics(vec!["[".into(), "|".into(), "]".into()]),
    );
    assert_eq!(root(f, vec![]).render(), Ok("[xy|]".to_string()));
}

#[test]
fn render_comprehension_with_templates() {
    let inner = Fragment::Comprehension {
        dynamics: vec![vec![text("a")], vec![text("b")]],
        statics: Some(Statics::TemplateRef(0)),
        is_root: None,
        templates: None,
        stream: None,
        new_render: None,
    };
    let outer = Fragment::Comprehension {
        dynamics: vec![vec![Child::Fragment(inner)]],
        statics: Some(Statics::Statics(vec!["(".into(), ")".into()])),
        is_root: None,
        templates: Some(vec![("0".to_string(), vec!["<".into(), ">".into()])]),
        stream: None,
        new_render: None,
    };
    let f = regular(vec![("0", Child::Fragment(outer))], Statics::Statics(vec!["{".into(), "}".into()]));
    assert_eq!(root(f, vec![]).render(), Ok("{(<a><b>)}".to_string()));
}

#[test]
fn component_references_borrow_statics() {
    let c1 = Component {
        children: vec![("0".to_string(), text("one"))],
        statics: ComponentStatics::Statics(vec!["<b>".into(), "</b>".into()]),
        is_root: None,
    };
    let c2 = Component { children: vec![("0".to_string(), text("two"))], statics: ComponentStatics::ComponentRef(1), is_root: None };
    let f = regular(vec![("0", Child::ComponentID(1)), ("1", Child::ComponentID(2))], Statics::Statics(vec!["".into(), "".into(), "".into()]));
    assert_eq!(root(f, vec![("1", c1), ("2", c2)]).render(), Ok("<b>one</b><b>two</b>".to_string()));
}

#[test]
fn merge_updates_and_refuses() {
    let r = root(regular(vec![("0", text("a"))], Statics::Statics(vec!["<".into(), ">".into()])), vec![]);
    let diff = RootDiff {
        new_render: None,
        fragment: liveview_native_core::diff::fragment::FragmentDiff::UpdateComprehension {
            dynamics: vec![],
            templates: None,
            statics: None,
            is_root: None,
            stream: None,
        },
        components: vec![],
    };
    assert_eq!(r.merge(diff).err(), Some(MergeError::FragmentTypeMismatch));
}

#[test]
fn root_flags() {
    let mut r = root(
        Fragment::Comprehension { dynamics: vec![], statics: None, is_root: None, templates: None, stream: None, new_render: None },
        vec![("3", Component { children: vec![], statics: ComponentStatics::Statics(vec!["x".into()]), is_root: None }), ("x", Component { children: vec![], statics: ComponentStatics::Statics(vec!["y".into()]), is_root: None })],
    );
    assert!(r.is_component_only_diff());
    assert!(!r.is_new_fingerprint());
    assert_eq!(r.component_cids(), vec![3]);
    assert!(r.get_component(3).is_some());
    assert!(r.get_component(4).is_none());
    r.set_new_render(true);
    assert_eq!(r.new_render, Some(true));
    let f = regular(vec![], Statics::Statics(vec!["s".into()]));
    assert!(f.is_new_fingerprint());
    assert!(!f.is_empty());
}

#[test]
fn decimal_text_parses_back_law() {
    for n in [0u32, 7, 42, 1000, 65535, 4294967295] {
        assert_eq!(parse_u32_exec(&u64_text(n as u64)), Some(n));
    }
}

#[test]
fn interned_keywords_no_gaps() {
    let mut i = Interner::new();
    // Should already be interned with matching indexes
    for (sym, s) in [(Symbol::new(0), "")] {
        assert_eq!(i.intern(s), sym)
    }
    // Should create a new symbol resulting in an index equal to the last entry in the table
    let foo = i.intern("foo");
    assert_eq!(foo.as_u32(), (i.symbols.len() - 1) as u32);
    assert_eq!(foo.as_u32(), 1);
}

#[test]
fn capped_len_counts_characters() {
    assert_eq!(capped_len(""), 0);
    assert_eq!(capped_len("héllo"), 5);
    assert!(URL_ROOM > 1_000_000);
}

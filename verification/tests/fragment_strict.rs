use liveview_native_core::diff::strict::{
    Child, ChildDiff, Component, ComponentDiff, ComponentStatics, Fragment, FragmentDiff, FragmentMerge, MergeError,
    RegularFragment, Root, RootDiff, Statics, Templates, UpdateComprehension, UpdateRegular,
};

fn regular(children: Vec<(&str, Child)>, statics: Vec<&str>) -> Fragment {
    Fragment::Regular(RegularFragment {
        children: children.into_iter().map(|(k, c)| (k.to_string(), c)).collect(),
        statics: Statics::Statics(statics.into_iter().map(|s| s.to_string()).collect()),
    })
}

#[test]
fn fragment_test_replace() {
    let current = Fragment::Regular(RegularFragment {
        children: vec![("1".into(), Child::String("a".into()))],
        statics: Statics::Statics(vec!["b".into(), "c".into()]),
    });
    let new = Fragment::Regular(RegularFragment {
        children: vec![("1".into(), Child::String("foo".into()))],
        statics: Statics::Statics(vec!["bar".into(), "baz".into()]),
    });
    let diff = FragmentDiff::ReplaceCurrent(new.clone());
    let merge = current.merge(diff).expect("Failed to merge diff");
    assert_eq!(merge, new);
}

#[test]
fn strict_update_regular_changes_existing_children() {
    let current = regular(vec![("0", Child::String("a".into())), ("1", Child::ComponentID(3))], vec!["x", "y", "z"]);
    let diff = FragmentDiff::UpdateRegular(UpdateRegular { children: vec![("1".into(), ChildDiff::String("b".into()))] });
    let merged = current.merge(diff).expect("merge");
    assert_eq!(merged, regular(vec![("0", Child::String("a".into())), ("1", Child::String("b".into()))], vec!["x", "y", "z"]));
}

#[test]
fn strict_update_of_a_missing_child_is_refused() {
    let current = regular(vec![("0", Child::String("a".into()))], vec!["x", "y"]);
    let diff = FragmentDiff::UpdateRegular(UpdateRegular { children: vec![("7".into(), ChildDiff::String("b".into()))] });
    assert_eq!(current.merge(diff), Err(MergeError::AddChildToExisting));
}

#[test]
fn strict_kinds_must_agree() {
    let current = regular(vec![], vec!["x"]);
    let diff = FragmentDiff::UpdateComprehension(UpdateComprehension { dynamics: vec![], templates: None });
    assert_eq!(current.merge(diff), Err(MergeError::FragmentTypeMismatch));
}

#[test]
fn strict_new_child_needs_a_whole_fragment() {
    let c = ChildDiff::Fragment(FragmentDiff::UpdateRegular(UpdateRegular { children: vec![] }));
    assert_eq!(c.to_new_child(), Err(MergeError::CreateChildFromUpdateFragment));
    let c = ChildDiff::ComponentID(4);
    assert_eq!(c.to_new_child(), Ok(Child::ComponentID(4)));
}

#[test]
fn strict_negative_component_reference_is_made_positive() {
    let c = Component { children: vec![], statics: ComponentStatics::ComponentRef(-5) };
    assert_eq!(c.fix_statics(), Component { children: vec![], statics: ComponentStatics::ComponentRef(5) });
    let d = ComponentDiff::UpdateRegular(UpdateRegular { children: vec![] });
    assert_eq!(d.to_new_component(), Err(MergeError::CreateComponentFromUpdate));
}

#[test]
fn strict_comprehension_extends_templates() {
    let current = Fragment::Comprehension(
        vec![vec![Child::String("old".into())]],
        Statics::TemplateRef(0),
        Some(Templates { templates: vec![("0".into(), vec!["a".into()])] }),
    );
    let diff = FragmentDiff::UpdateComprehension(UpdateComprehension {
        dynamics: vec![vec![ChildDiff::String("new".into())]],
        templates: Some(Templates { templates: vec![("0".into(), vec!["b".into()]), ("1".into(), vec!["c".into()])] }),
    });
    let merged = current.merge(diff).expect("merge");
    assert_eq!(
        merged,
        Fragment::Comprehension(
            vec![vec![Child::String("new".into())]],
            Statics::TemplateRef(0),
            Some(Templates { templates: vec![("0".into(), vec!["a".into(), "b".into()]), ("1".into(), vec!["c".into()])] }),
        )
    );
}

#[test]
fn strict_root_merge_builds_components() {
    let root = Root { fragment: regular(vec![], vec!["x"]), components: None };
    let diff = RootDiff {
        fragment: FragmentDiff::UpdateRegular(UpdateRegular { children: vec![] }),
        components: Some(vec![(
            "1".into(),
            ComponentDiff::ReplaceCurrent(Component { children: vec![], statics: ComponentStatics::ComponentRef(-2) }),
        )]),
    };
    let merged = root.merge(diff).expect("merge");
    assert_eq!(
        merged.components,
        Some(vec![("1".to_string(), Component { children: vec![], statics: ComponentStatics::ComponentRef(2) })])
    );
}

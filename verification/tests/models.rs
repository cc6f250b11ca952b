use alfred_vue_docs::models::SearchResultHierarchy;

fn hierarchy() -> SearchResultHierarchy {
    SearchResultHierarchy {
        lvl0: "Guide".to_owned(),
        lvl1: Some("Components".to_owned()),
        lvl2: None,
        lvl3: None,
        lvl4: None,
        lvl5: None,
        lvl6: None,
    }
}

#[test]
fn hierarchy_exposes_root_and_deepest_values() {
    let hierarchy = hierarchy();

    assert_eq!(hierarchy.first(), "Guide");
    assert_eq!(hierarchy.last(), "Components");
    assert_eq!(
        hierarchy.values().into_iter().collect::<Vec<_>>(),
        vec!["Guide", "Components"]
    );
}

#[test]
fn hierarchy_level_returns_only_valid_levels() {
    let hierarchy = hierarchy();

    assert_eq!(hierarchy.level(0), Some("Guide"));
    assert_eq!(hierarchy.level(1), Some("Components"));
    assert_eq!(hierarchy.level(2), None);
    assert_eq!(hierarchy.level(7), None);
}

#[test]
fn deepest_value_skips_absent_middle_levels() {
    let hierarchy = SearchResultHierarchy {
        lvl0: "Guide".to_owned(),
        lvl1: None,
        lvl2: Some("Deep".to_owned()),
        lvl3: None,
        lvl4: None,
        lvl5: None,
        lvl6: None,
    };

    assert_eq!(hierarchy.last(), "Deep");
    assert_eq!(hierarchy.values(), vec!["Guide", "Deep"]);
    assert_eq!(hierarchy.level(1), None);
    assert_eq!(hierarchy.level(2), Some("Deep"));
}

#[test]
fn root_only_hierarchy_is_its_own_deepest_value() {
    let hierarchy = SearchResultHierarchy {
        lvl0: "Root".to_owned(),
        lvl1: None,
        lvl2: None,
        lvl3: None,
        lvl4: None,
        lvl5: None,
        lvl6: Some("Six".to_owned()),
    };

    assert_eq!(hierarchy.first(), "Root");
    assert_eq!(hierarchy.last(), "Six");
    assert_eq!(hierarchy.level(6), Some("Six"));
    assert_eq!(hierarchy.level(usize::MAX), None);
}

use alfred_vue_docs::grouping::group_results;
use alfred_vue_docs::items::{google_fallback_item, items_from_results, placeholder_item, AlfredItem, FallbackError};
use alfred_vue_docs::models::{SearchResult, SearchResultHierarchy};

fn result(id: &str, levels: &[&str], result_type: &str) -> SearchResult {
    let mut values = levels.iter().copied();
    let lvl0 = values.next().unwrap_or_default().to_owned();
    let mut optional = values.map(str::to_owned);
    SearchResult {
        object_id: id.to_owned(),
        result_type: result_type.to_owned(),
        url: format!("https://vuejs.org/guide/{id}"),
        hierarchy: SearchResultHierarchy {
            lvl0,
            lvl1: optional.next(),
            lvl2: optional.next(),
            lvl3: optional.next(),
            lvl4: optional.next(),
            lvl5: optional.next(),
            lvl6: optional.next(),
        },
        content: Some("content".to_owned()),
    }
}

#[test]
fn results_use_deepest_hierarchy_value_even_when_type_differs() {
    let item =
        items_from_results(&[result("deep", &["Guide", "Components", "Slots"], "lvl1")]).remove(0);

    assert_eq!(item.title(), "Slots");
    assert_eq!(item.subtitle(), Some("Guide > Components"));
}

#[test]
fn results_are_grouped_by_first_seen_root_and_subtitle() {
    let results = [
        result("root-b-first", &["B", "One"], "lvl1"),
        result("root-a", &["A", "One"], "lvl1"),
        result("root-b-second", &["B", "One"], "lvl1"),
        result("root-b-other", &["B", "Two"], "lvl1"),
    ];
    let items = items_from_results(&results);

    assert_eq!(
        items.iter().map(AlfredItem::uid).collect::<Vec<_>>(),
        vec![
            Some("root-b-first"),
            Some("root-b-second"),
            Some("root-b-other"),
            Some("root-a"),
        ]
    );
}

#[test]
fn long_breadcrumbs_are_grouped_before_display_truncation() {
    let shared_prefix = "a".repeat(72);
    let first_breadcrumb = format!("{shared_prefix}x");
    let second_breadcrumb = format!("{shared_prefix}y");
    let results = [
        result("first", &["Guide", &first_breadcrumb, "First"], "lvl2"),
        result("second", &["Guide", &second_breadcrumb, "Second"], "lvl2"),
    ];

    let groups = group_results(&results);

    assert_eq!(groups[0].subgroups.len(), 2);
    let items = items_from_results(&results);
    assert_eq!(items[0].subtitle(), items[1].subtitle());
}

#[test]
fn level_zero_results_keep_an_empty_subtitle() {
    let item = items_from_results(&[result("root", &["Guide"], "content")]).remove(0);

    assert_eq!(item.title(), "Guide");
    assert_eq!(item.subtitle(), Some(""));
}

#[test]
fn duplicate_raw_title_values_are_excluded_from_breadcrumbs() {
    let item =
        items_from_results(&[result("duplicate", &["Guide", "Same", "Same"], "lvl2")]).remove(0);

    assert_eq!(item.subtitle(), Some("Guide"));
}

#[test]
fn titles_and_breadcrumbs_decode_dart_compatible_entities() {
    let item = items_from_results(&[result(
        "entities",
        &["Guide &copy", "A &#38 and &#X26;", "C &#38; &#X26;"],
        "lvl2",
    )])
    .remove(0);

    assert_eq!(item.title(), "C & &#X26;");
    assert_eq!(item.subtitle(), Some("Guide © > A &#38 and &#X26;"));
    assert_eq!(
        item.text().and_then(|text| text.large_type()),
        Some("C & &#X26;")
    );
}

#[test]
fn breadcrumbs_truncate_to_75_unicode_scalars() {
    let item = items_from_results(&[result(
        "long",
        &[&"A".repeat(50), &"🦀".repeat(50), "Title"],
        "lvl2",
    )])
    .remove(0);
    let subtitle = item.subtitle().expect("subtitle must be present");

    assert_eq!(subtitle.chars().count(), 75);
    assert!(subtitle.ends_with("..."));
}

#[test]
fn items_preserve_metadata_and_decoded_copy_title() {
    let item =
        items_from_results(&[result("metadata", &["Guide", "A &amp; title"], "lvl6")]).remove(0);

    assert_eq!(
        (
            item.uid(),
            item.arg(),
            item.quick_look_url(),
            item.icon().map(|icon| icon.path()),
            item.text().map(|text| text.copy()),
            item.text().and_then(|text| text.large_type()),
            item.valid(),
        ),
        (
            Some("metadata"),
            Some("https://vuejs.org/guide/metadata"),
            Some("https://vuejs.org/guide/metadata"),
            Some("icon.png"),
            Some("https://vuejs.org/guide/metadata"),
            Some("A & title"),
            true,
        )
    );
}

#[test]
fn google_fallback_uses_vue_query_and_is_selectable() -> Result<(), FallbackError> {
    let item = google_fallback_item("composition api")?;

    assert_eq!(
        item.arg(),
        Some("https://www.google.com/search?q=Vue.js+composition+api")
    );
    assert_eq!(item.quick_look_url(), item.arg());
    assert_eq!(item.text().map(|text| text.copy()), item.arg());
    assert_eq!(item.icon().map(|icon| icon.path()), Some("google.png"));
    assert!(item.valid());
    Ok(())
}

#[test]
fn placeholder_is_not_selectable() {
    let item = placeholder_item();

    assert_eq!(item.title(), "Search the Vue.js docs...");
    assert_eq!(item.icon().map(|icon| icon.path()), Some("icon.png"));
    assert!(!item.valid());
}

#[test]
fn every_result_yields_exactly_one_item() {
    let results = [
        result("x1", &["X", "One", "a"], "lvl2"),
        result("y1", &["Y", "One", "b"], "lvl2"),
        result("x2", &["X", "Two", "c"], "lvl2"),
        result("x3", &["X", "One", "d"], "lvl2"),
        result("y2", &["Y", "One", "e"], "lvl2"),
    ];
    let items = items_from_results(&results);
    assert_eq!(items.len(), results.len());
    assert_eq!(
        items.iter().map(AlfredItem::uid).collect::<Vec<_>>(),
        vec![Some("x1"), Some("x3"), Some("x2"), Some("y1"), Some("y2")]
    );
    let groups = group_results(&results);
    assert_eq!(groups.len(), 2);
    assert_eq!(groups[0].name, "X");
    assert_eq!(groups[0].subgroups[0].subtitle, "X > One");
    assert_eq!(groups[0].subgroups[1].subtitle, "X > Two");
    assert_eq!(groups[0].subgroups.len(), 2);
    assert_eq!(groups[1].subgroups.len(), 1);
}

#[test]
fn no_results_yield_no_items() {
    assert!(items_from_results(&[]).is_empty());
    assert!(group_results(&[]).is_empty());
}

#[test]
fn fallback_encodes_the_query() -> Result<(), FallbackError> {
    let item = google_fallback_item("a&b c")?;
    assert_eq!(item.title(), "No matching answers found");
    assert_eq!(item.subtitle(), Some("Shall I try and search Google?"));
    assert_eq!(item.arg(), Some("https://www.google.com/search?q=Vue.js+a%26b+c"));
    assert_eq!(item.uid(), None);
    assert_eq!(item.text().and_then(|text| text.large_type()), None);
    Ok(())
}

#[test]
fn placeholder_has_no_action() {
    let item = placeholder_item();
    assert_eq!(item.subtitle(), None);
    assert_eq!(item.arg(), None);
    assert_eq!(item.uid(), None);
    assert!(item.text().is_none());
}

use slovo::catalog::{category_label, group_by_category, settings_category};
use slovo::gesture::Gesture;
use slovo::text::precedes;

fn g(id: i64, name: &str, category: Option<&str>) -> Gesture {
    Gesture {
        id,
        name: name.to_string(),
        video_filename: format!("{}.gif", name),
        description: None,
        category: category.map(|c| c.to_string()),
    }
}

#[test]
fn headings_fall_back_for_missing_categories() {
    assert_eq!(category_label(&g(1, "a", Some("basic"))), "basic");
    assert_eq!(category_label(&g(1, "a", None)), "Без категории");
    assert_eq!(category_label(&g(1, "a", Some(""))), "");
    assert_eq!(settings_category(&g(1, "a", None)), "без категории");
    assert_eq!(settings_category(&g(1, "a", Some("basic"))), "basic");
}

#[test]
fn grouping_sorts_headings_and_keeps_input_order() {
    let input = vec![
        g(1, "OK", Some("basic")),
        g(2, "Wave", None),
        g(3, "A", Some("alpha")),
        g(4, "Pointing", Some("basic")),
        g(5, "Fist", None),
    ];
    let groups = group_by_category(&input);
    let headings: Vec<&str> = groups.iter().map(|c| c.category.as_str()).collect();
    assert_eq!(headings, vec!["alpha", "basic", "Без категории"]);
    let ids: Vec<Vec<i64>> = groups.iter().map(|c| c.gestures.iter().map(|x| x.id).collect()).collect();
    assert_eq!(ids, vec![vec![3], vec![1, 4], vec![2, 5]]);
    assert_eq!(groups[1].gestures[0], input[0]);
}

#[test]
fn grouping_matches_the_order_of_rust_strings() {
    let input = vec![
        g(1, "a", Some("b")),
        g(2, "b", Some("B")),
        g(3, "c", Some("ba")),
        g(4, "d", Some("")),
        g(5, "e", Some("Ä")),
    ];
    let groups = group_by_category(&input);
    let headings: Vec<String> = groups.iter().map(|c| c.category.clone()).collect();
    let mut expected: Vec<String> = input.iter().map(|x| x.category.clone().unwrap()).collect();
    expected.sort();
    assert_eq!(headings, expected);
}

#[test]
fn grouping_nothing_gives_no_groups() {
    assert!(group_by_category(&Vec::new()).is_empty());
}

#[test]
fn one_heading_gives_one_group() {
    let input = vec![g(1, "x", None), g(2, "y", None)];
    let groups = group_by_category(&input);
    assert_eq!(groups.len(), 1);
    assert_eq!(groups[0].category, "Без категории");
    assert_eq!(groups[0].gestures, input);
}

#[test]
fn text_order_is_lexicographic_by_code_point() {
    assert!(precedes("a", "b"));
    assert!(!precedes("b", "a"));
    assert!(precedes("a", "ab"));
    assert!(!precedes("ab", "a"));
    assert!(!precedes("", ""));
    assert!(precedes("", "a"));
    assert!(precedes("Z", "a"));
    assert!(precedes("basic", "Без категории"));
    assert!(!precedes("same", "same"));
}

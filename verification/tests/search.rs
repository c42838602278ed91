use varde::launcher::search::{order_candidates, rank, visible_items, Item};

fn item(id: &str, title: &str, terms: &[&str]) -> Item {
    Item {
        id: id.into(),
        title: title.into(),
        search_terms: terms.iter().map(|term| (*term).into()).collect(),
    }
}

#[test]
fn sorts_empty_app_queries_but_preserves_dmenu_order() {
    let items = vec![item("2", "Zulu", &[]), item("1", "Alpha", &[])];
    assert_eq!(rank(&items, "", true), vec![1, 0]);
    assert_eq!(rank(&items, "", false), vec![0, 1]);
}

#[test]
fn title_matches_beat_metadata_matches() {
    let items = vec![
        item("browser", "Web", &["firefox"]),
        item("firefox", "Firefox", &[]),
    ];
    assert_eq!(rank(&items, "ff", true), vec![1, 0]);
}

#[test]
fn fuzzy_matches_non_contiguous_characters() {
    let items = vec![item("firefox", "Firefox", &[])];
    assert_eq!(rank(&items, "frx", true), vec![0]);
}

#[test]
fn non_matching_items_are_left_out() {
    let items = vec![item("a", "Terminal", &["shell"]), item("b", "Files", &[])];
    assert_eq!(rank(&items, "qqq", true), Vec::<usize>::new());
    assert_eq!(rank(&items, "shell", false), vec![0]);
}

#[test]
fn candidates_sort_by_score_then_name_then_id() {
    let items = vec![
        item("b", "beta", &[]),
        item("a", "Beta", &[]),
        item("c", "alpha", &[]),
        item("d", "Delta", &[]),
    ];
    assert_eq!(
        order_candidates(&items, &vec![(0, 5), (1, 5), (2, 5), (3, 9)]),
        vec![3, 2, 1, 0]
    );
    assert_eq!(order_candidates(&items, &vec![]), Vec::<usize>::new());
}

#[test]
fn lists_at_most_the_limit() {
    let items = vec![
        item("c", "Charlie", &[]),
        item("a", "Alpha", &[]),
        item("b", "Bravo", &[]),
    ];
    assert_eq!(visible_items(&items, "", true, Some(2)), vec![1, 2]);
    assert_eq!(visible_items(&items, "", true, Some(10)), vec![1, 2, 0]);
    assert_eq!(visible_items(&items, "", false, None), vec![0, 1, 2]);
    assert_eq!(visible_items(&items, "", false, Some(0)), Vec::<usize>::new());
}

#[test]
fn names_sort_without_regard_to_case() {
    let items = vec![item("b", "Banana", &[]), item("a", "apple", &[]), item("c", "Ápple pie", &[])];
    assert_eq!(rank(&items, "", true), vec![1, 0, 2]);
}

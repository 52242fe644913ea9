use oc_stats::search::{filter_indices, SearchState};

fn ids(labels: &[&str]) -> Vec<String> {
    labels.iter().map(|s| s.to_string()).collect()
}

#[test]
fn new_selects_the_focused_label() {
    let s = SearchState::new(ids(&["a", "b", "c"]), 1);
    assert_eq!(s.query, "");
    assert_eq!(s.filtered_indices, vec![0, 1, 2]);
    assert_eq!(s.selected, 1);
    assert_eq!(s.scroll_offset, 0);
}

#[test]
fn new_clamps_focus_and_scrolls_to_it() {
    let labels: Vec<String> = (0..10).map(|i| format!("model-{i}")).collect();
    let s = SearchState::new(labels.clone(), 42);
    assert_eq!(s.selected, 9);
    assert_eq!(s.scroll_offset, 5);
    let s = SearchState::new(labels, 6);
    assert_eq!(s.selected, 6);
    assert_eq!(s.scroll_offset, 2);
    let s = SearchState::new(Vec::new(), 3);
    assert_eq!(s.selected, 0);
    assert_eq!(s.scroll_offset, 0);
    assert!(s.filtered_indices.is_empty());
}

#[test]
fn filter_ignores_case() {
    let items = ids(&["gpt-5", "Mistral-Large", "GPT-4o", "gemini"]);
    assert_eq!(filter_indices("GPT", &items), vec![0, 2]);
    assert_eq!(filter_indices("large", &items), vec![1]);
    assert_eq!(filter_indices("", &items), vec![0, 1, 2, 3]);
    assert_eq!(filter_indices("xyz", &items), Vec::<usize>::new());
}

#[test]
fn filter_handles_non_ascii() {
    let items = ids(&["Ärger", "ärmel", "über"]);
    assert_eq!(filter_indices("ÄR", &items), vec![0, 1]);
}

#[test]
fn update_filter_pulls_selection_and_window_back() {
    let labels: Vec<String> = (0..12).map(|i| format!("item-{i:02}")).collect();
    let mut s = SearchState::new(labels, 11);
    assert_eq!((s.selected, s.scroll_offset), (11, 7));
    s.query = "item-0".to_string();
    s.update_filter();
    assert_eq!(s.filtered_indices, (0..10).collect::<Vec<_>>());
    assert_eq!(s.selected, 9);
    assert_eq!(s.scroll_offset, 5);
    s.query = "item-1".to_string();
    s.update_filter();
    assert_eq!(s.filtered_indices, vec![10, 11]);
    assert_eq!(s.selected, 1);
    assert_eq!(s.scroll_offset, 0);
    s.query = "nothing".to_string();
    s.update_filter();
    assert!(s.filtered_indices.is_empty());
    assert_eq!((s.selected, s.scroll_offset), (0, 0));
}

#[test]
fn update_filter_twice_changes_nothing() {
    let labels: Vec<String> = (0..20).map(|i| format!("m{i}")).collect();
    let mut s = SearchState::new(labels, 17);
    s.query = "1".to_string();
    s.update_filter();
    let once = s.clone();
    s.update_filter();
    assert_eq!(s.filtered_indices, once.filtered_indices);
    assert_eq!(s.selected, once.selected);
    assert_eq!(s.scroll_offset, once.scroll_offset);
}

#[test]
fn selection_stays_in_window() {
    let labels: Vec<String> = (0..30).map(|i| format!("x{}", i % 7)).collect();
    for focus in 0..30 {
        for q in ["", "x1", "x", "x6", "none"] {
            let mut s = SearchState::new(labels.clone(), focus);
            s.query = q.to_string();
            s.update_filter();
            assert!(s.scroll_offset <= s.selected);
            assert!(s.selected < s.scroll_offset + 5);
            assert!(s.scroll_offset <= s.filtered_indices.len().saturating_sub(5));
        }
    }
}

#[test]
fn refiltering_a_new_search_keeps_it() {
    let labels: Vec<String> = (0..9).map(|i| format!("agent-{i}")).collect();
    for focus in [0usize, 3, 8, 40] {
        let opened = SearchState::new(labels.clone(), focus);
        let mut again = opened.clone();
        again.update_filter();
        assert_eq!(again.query, opened.query);
        assert_eq!(again.ids, opened.ids);
        assert_eq!(again.filtered_indices, opened.filtered_indices);
        assert_eq!(again.selected, opened.selected);
        assert_eq!(again.scroll_offset, opened.scroll_offset);
    }
}

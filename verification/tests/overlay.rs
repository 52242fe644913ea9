use oc_stats::overlay::{highlight_span, scrollbar_thumb, search_hint, thumb_covers, visible_window};
use oc_stats::search::{filter_indices, SearchState};

fn reference_thumb(filtered_total: usize, scroll_offset: usize) -> (usize, usize) {
    let thumb_size = (5.0 * 5.0 / filtered_total as f64).max(1.0) as usize;
    let thumb_start = ((scroll_offset as f64 / (filtered_total - 5) as f64)
        * (5.0 - thumb_size as f64)) as usize;
    (thumb_start, thumb_size)
}

#[test]
fn hint_counts_matches() {
    assert_eq!(search_hint(3, 12), "3/12 | ↑/↓ | <esc> quit | <enter> select");
    assert_eq!(search_hint(0, 0), "0/0 | ↑/↓ | <esc> quit | <enter> select");
}

#[test]
fn window_shows_five_rows_at_most() {
    let labels: Vec<String> = (0..8).map(|i| format!("m{i}")).collect();
    let mut s = SearchState::new(labels, 7);
    assert_eq!(visible_window(&s), (3, 8));
    s.scroll_offset = 0;
    assert_eq!(visible_window(&s), (0, 5));
    let s = SearchState::new(vec!["x".to_string()], 0);
    assert_eq!(visible_window(&s), (0, 1));
}

#[test]
fn highlight_finds_first_match_ignoring_case() {
    assert_eq!(highlight_span("GPT-4o-mini", "4O"), Some((4, 6)));
    assert_eq!(highlight_span("banana", "an"), Some((1, 3)));
    assert_eq!(highlight_span("banana", ""), None);
    assert_eq!(highlight_span("banana", "x"), None);
}

#[test]
fn scrollbar_matches_float_arithmetic() {
    assert_eq!(scrollbar_thumb(5, 0), None);
    assert_eq!(scrollbar_thumb(6, 1), Some((1, 4)));
    assert_eq!(scrollbar_thumb(30, 25), Some((4, 1)));
    for total in 6..400usize {
        for offset in 0..=(total - 5) {
            let (start, size) = reference_thumb(total, offset);
            assert_eq!(
                scrollbar_thumb(total, offset),
                Some((start as u64, size as u64)),
                "{total} {offset}"
            );
        }
    }
    for (total, offset) in [(usize::MAX, 12345usize), (1usize << 60, 1usize << 59), (1000, 5000)] {
        let (start, size) = reference_thumb(total, offset);
        assert_eq!(scrollbar_thumb(total, offset), Some((start as u64, size as u64)));
    }
}

#[test]
fn thumb_rows() {
    assert!(thumb_covers(2, 1, 2));
    assert!(!thumb_covers(2, 1, 3));
    assert!(!thumb_covers(2, 3, 1));
    assert!(thumb_covers(0, 5, 4));
}

#[test]
fn kept_labels_are_the_highlighted_ones() {
    let items: Vec<String> = ["gpt-5", "Mistral-Large", "GPT-4o", "gemini", "Ärger"]
        .iter()
        .map(|s| s.to_string())
        .collect();
    for query in ["g", "GPT", "large", "ÄR", "zzz", "-"] {
        let kept = filter_indices(query, &items);
        for (i, id) in items.iter().enumerate() {
            assert_eq!(kept.contains(&i), highlight_span(id, query).is_some(), "{query} {id}");
        }
    }
}

fn reference_highlight(id: &str, query: &str) -> Option<(usize, usize)> {
    if query.is_empty() {
        return None;
    }
    let lower_id = id.to_lowercase();
    let lower_query = query.to_lowercase();
    lower_id.find(&lower_query).map(|pos| (pos, pos + lower_query.len()))
}

#[test]
fn highlight_offsets_are_bytes_of_the_lowercased_label() {
    assert_eq!(highlight_span("ẞab", "b"), Some((3, 4)));
    assert_eq!(highlight_span("Ärger-Ärmel", "ärm"), Some((7, 11)));
    let ids = ["ẞab", "Ärger", "İstanbul", "gpt-5", "ΣΊΣΥΦΟΣ", "naïve café", "ǅemal", ""];
    let queries = ["", "a", "b", "är", "i", "stan", "σ", "é", "ǆ", "x", "ͅ"];
    for id in ids {
        for query in queries {
            assert_eq!(highlight_span(id, query), reference_highlight(id, query), "{id} {query}");
        }
    }
}

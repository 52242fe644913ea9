use oc_stats::formatting::percentage;
use oc_stats::headers::{
    effective_focus, focus_label, focus_position, mode_indicator, percent_label, AgentChartMode,
};
use oc_stats::search::SearchState;

#[test]
fn focus_label_shortens_long_names() {
    assert_eq!(focus_label("build"), "  ● build");
    assert_eq!(focus_label("a-very-long-agent-name-that-overflows"), "  ● a-very-long-agent-name-...");
}

#[test]
fn focus_position_counts_from_one_and_clamps() {
    assert_eq!(focus_position(0, 3), "1/3");
    assert_eq!(focus_position(2, 3), "3/3");
    assert_eq!(focus_position(7, 3), "3/3");
    assert_eq!(focus_position(0, 0), "1/1");
}

#[test]
fn percent_labels_match_float_formatting() {
    assert_eq!(percent_label(percentage(1, 3)), "  (33.33%)");
    assert_eq!(percent_label(percentage(700, 1000)), "  (70.00%)");
    assert_eq!(percent_label(percentage(5, 0)), "  (0.00%)");
    for total in [1u64, 3, 7, 10, 99, 1000, 123_456_789, u64::MAX] {
        for part in [0u64, 1, 2, 5, 33, 500, 123_456, u64::MAX / 3, u64::MAX] {
            let expected = if total == 0 {
                0.0
            } else {
                (part as f64 / total as f64) * 100.0
            };
            assert_eq!(
                percent_label(percentage(part, total)),
                format!("  ({:.2}%)", expected),
                "{part}/{total}"
            );
        }
    }
}

#[test]
fn mode_indicator_lines() {
    assert_eq!(mode_indicator(AgentChartMode::AllAgents, Some("build")), "  All agents");
    assert_eq!(mode_indicator(AgentChartMode::PerModel, Some("build")), "  Models used by build");
    assert_eq!(mode_indicator(AgentChartMode::PerModel, None), "  Per-model (no data)");
}

#[test]
fn focus_follows_search_selection() {
    let mut s = SearchState::new(vec!["a".to_string(), "b".to_string(), "ab".to_string()], 0);
    s.query = "b".to_string();
    s.update_filter();
    s.selected = 1;
    assert_eq!(effective_focus(Some(&s), 0), 2);
    assert_eq!(effective_focus(None, 1), 1);
    s.query = "zzz".to_string();
    s.update_filter();
    assert_eq!(effective_focus(Some(&s), 1), 1);
}

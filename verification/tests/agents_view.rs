use oc_stats::agents::build_agent_rows;
use oc_stats::agents_view::{agents_view, AgentChart, AgentPanel};
use oc_stats::headers::AgentChartMode;
use oc_stats::search::SearchState;
use oc_stats::usage::{TokenUsage, UsageRecord};

fn event(model: &str, agent: &str, input: u64) -> UsageRecord {
    UsageRecord {
        agent: Some(agent.to_string()),
        model_id: model.to_string(),
        session_id: "s".to_string(),
        tokens: TokenUsage { input, output: 0, cache_read: 0, cache_write: 0 },
        activity_day: None,
    }
}

#[test]
fn all_agents_mode_highlights_the_focused_agent() {
    let rows = build_agent_rows(&vec![event("m1", "build", 10), event("m2", "plan", 5)]);
    let charts = vec!["build".to_string(), "plan".to_string()];
    let v = agents_view(&rows, &charts, 1, AgentChartMode::AllAgents, 0, None);
    assert_eq!(v.focus, Some(1));
    assert_eq!(v.model, Some(0));
    assert_eq!(v.chart, AgentChart::Agents { highlight: Some(1) });
    assert_eq!(v.panel, AgentPanel::Agent(1));
}

#[test]
fn per_model_mode_picks_the_agents_own_chart() {
    let rows = build_agent_rows(&vec![
        event("m1", "build", 10),
        event("m2", "build", 20),
        event("m3", "plan", 5),
    ]);
    let charts = vec!["plan".to_string(), "build".to_string()];
    let v = agents_view(&rows, &charts, 0, AgentChartMode::PerModel, 1, None);
    assert_eq!(v.chart, AgentChart::Models { chart: 1, highlight: Some(1) });
    assert_eq!(v.panel, AgentPanel::Model(0, 1));
    let v = agents_view(&rows, &charts, 0, AgentChartMode::PerModel, 5, None);
    assert_eq!(v.chart, AgentChart::Models { chart: 1, highlight: None });
    assert_eq!(v.panel, AgentPanel::NoModelData(0));
    let v = agents_view(&rows, &[], 0, AgentChartMode::PerModel, 0, None);
    assert_eq!(v.chart, AgentChart::Agents { highlight: None });
}

#[test]
fn search_and_empty_views() {
    let rows = build_agent_rows(&vec![event("m1", "build", 10), event("m2", "plan", 5)]);
    let mut search = SearchState::new(vec!["build".to_string(), "plan".to_string()], 0);
    search.query = "pla".to_string();
    search.update_filter();
    let v = agents_view(&rows, &[], 0, AgentChartMode::AllAgents, 0, Some(&search));
    assert_eq!(v.focus, Some(1));
    assert_eq!(v.panel, AgentPanel::Search);
    let none = agents_view(&[], &[], 0, AgentChartMode::PerModel, 0, None);
    assert_eq!(none.focus, None);
    assert_eq!(none.chart, AgentChart::Agents { highlight: None });
    assert_eq!(none.panel, AgentPanel::NoActivity);
}

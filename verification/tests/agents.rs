use oc_stats::agents::build_agent_rows;
use oc_stats::formatting::percentage_text;
use oc_stats::usage::{TokenUsage, UsageRecord};

/// Day number of 2026-03-12 counted from 0001-01-01 (day 1).
const DAY: i32 = 739_687;

fn event(session: &str, model: &str, agent: Option<&str>, input: u64, output: u64) -> UsageRecord {
    UsageRecord {
        agent: agent.map(|a| a.to_string()),
        model_id: model.to_string(),
        session_id: session.to_string(),
        tokens: TokenUsage { input, output, cache_read: 0, cache_write: 0 },
        activity_day: Some(DAY),
    }
}

#[test]
fn agents_group_events_by_agent_field() {
    let events = vec![
        event("ses_1", "gpt-5", Some("build"), 100, 200),
        event("ses_2", "sonnet", Some("explore"), 50, 100),
        event("ses_3", "gpt-5.5", Some("build"), 300, 400),
        event("ses_1", "unknown-model", None, 10, 20),
    ];

    let rows = build_agent_rows(&events);

    assert_eq!(rows.len(), 3);

    assert_eq!(rows[0].agent_id, "build");
    assert_eq!(rows[0].total_tokens, 1000);
    assert_eq!(rows[0].sessions, 2);
    assert_eq!(rows[0].input_tokens, 400);
    assert_eq!(rows[0].output_tokens, 600);
    assert_eq!(rows[0].cache_tokens, 0);
    assert_eq!(rows[0].active_days, 1);
    assert_eq!(rows[0].model_breakdown.len(), 2);
    assert_eq!(rows[0].model_breakdown[0].model_id, "gpt-5.5");
    assert_eq!(rows[0].model_breakdown[0].tokens, 700);
    assert_eq!(rows[0].model_breakdown[0].input_tokens, 300);
    assert_eq!(rows[0].model_breakdown[0].output_tokens, 400);
    assert_eq!(rows[0].model_breakdown[0].cache_tokens, 0);
    assert_eq!(rows[0].model_breakdown[0].sessions, 1);
    assert_eq!(rows[0].model_breakdown[0].active_days, 1);
    assert_eq!(rows[0].model_breakdown[1].model_id, "gpt-5");
    assert_eq!(rows[0].model_breakdown[1].tokens, 300);
    assert_eq!(rows[0].model_breakdown[1].input_tokens, 100);
    assert_eq!(rows[0].model_breakdown[1].output_tokens, 200);
    assert_eq!(rows[0].model_breakdown[1].cache_tokens, 0);
    assert_eq!(rows[0].model_breakdown[1].sessions, 1);
    assert_eq!(rows[0].model_breakdown[1].active_days, 1);

    assert_eq!(rows[1].agent_id, "explore");
    assert_eq!(rows[1].total_tokens, 150);
    assert_eq!(rows[1].sessions, 1);
    assert_eq!(rows[1].input_tokens, 50);
    assert_eq!(rows[1].output_tokens, 100);
    assert_eq!(rows[1].cache_tokens, 0);
    assert_eq!(rows[1].active_days, 1);
    assert_eq!(rows[1].model_breakdown.len(), 1);
    assert_eq!(rows[1].model_breakdown[0].model_id, "sonnet");
    assert_eq!(rows[1].model_breakdown[0].tokens, 150);
    assert_eq!(rows[1].model_breakdown[0].input_tokens, 50);
    assert_eq!(rows[1].model_breakdown[0].output_tokens, 100);
    assert_eq!(rows[1].model_breakdown[0].cache_tokens, 0);
    assert_eq!(rows[1].model_breakdown[0].sessions, 1);
    assert_eq!(rows[1].model_breakdown[0].active_days, 1);

    assert_eq!(rows[2].agent_id, "unknown");
    assert_eq!(rows[2].total_tokens, 30);
    assert_eq!(rows[2].model_breakdown.len(), 1);
    assert_eq!(rows[2].model_breakdown[0].model_id, "unknown-model");
    assert_eq!(rows[2].model_breakdown[0].tokens, 30);
    assert_eq!(rows[2].model_breakdown[0].sessions, 1);
    assert_eq!(rows[2].input_tokens, 10);
    assert_eq!(rows[2].output_tokens, 20);
    assert_eq!(rows[2].cache_tokens, 0);
    assert_eq!(rows[2].active_days, 1);
}

#[test]
fn empty_agent_names_count_as_unknown() {
    let events = vec![
        event("a", "m", Some(""), 1, 1),
        event("b", "m", None, 2, 2),
        event("c", "m", Some("unknown"), 3, 3),
    ];
    let rows = build_agent_rows(&events);
    assert_eq!(rows.len(), 1);
    assert_eq!(rows[0].agent_id, "unknown");
    assert_eq!(rows[0].total_tokens, 12);
    assert_eq!(rows[0].sessions, 3);
}

#[test]
fn ties_are_listed_by_name() {
    let events = vec![
        event("s", "m", Some("zeta"), 5, 5),
        event("s", "m", Some("alpha"), 5, 5),
        event("s", "m", Some("mid"), 20, 0),
    ];
    let rows = build_agent_rows(&events);
    let ids: Vec<&str> = rows.iter().map(|r| r.agent_id.as_str()).collect();
    assert_eq!(ids, vec!["mid", "alpha", "zeta"]);
}

#[test]
fn totals_saturate_and_days_are_distinct() {
    let mut big = event("s1", "m", Some("a"), u64::MAX, 0);
    big.tokens.cache_read = 7;
    let mut later = event("s2", "m", Some("a"), 1, 2);
    later.activity_day = Some(DAY + 1);
    let mut undated = event("s2", "m", Some("a"), 0, 0);
    undated.activity_day = None;
    let rows = build_agent_rows(&vec![big, later, undated]);
    assert_eq!(rows[0].input_tokens, u64::MAX);
    assert_eq!(rows[0].output_tokens, 2);
    assert_eq!(rows[0].cache_tokens, 7);
    assert_eq!(rows[0].total_tokens, u64::MAX);
    assert_eq!(rows[0].sessions, 2);
    assert_eq!(rows[0].active_days, 2);
}

#[test]
fn no_events_no_rows() {
    assert!(build_agent_rows(&Vec::new()).is_empty());
}

#[test]
fn agent_shares_are_percentages_of_all_tokens() {
    let events = vec![
        event("ses_1", "gpt-5", Some("build"), 100, 200),
        event("ses_2", "sonnet", Some("explore"), 50, 100),
        event("ses_3", "gpt-5.5", Some("build"), 300, 400),
        event("ses_1", "unknown-model", None, 10, 20),
    ];
    let rows = build_agent_rows(&events);
    let overall = 1180.0_f64;
    for row in &rows {
        let expected = format!("{:.2}", row.total_tokens as f64 / overall * 100.0);
        assert_eq!(percentage_text(row.percentage), expected);
    }
    assert_eq!(percentage_text(rows[0].percentage), "84.75");
    assert_eq!(percentage_text(rows[1].percentage), "12.71");
    assert_eq!(percentage_text(rows[2].percentage), "2.54");
}

#[test]
fn rows_and_breakdowns_account_for_every_token() {
    let mut events = Vec::new();
    for i in 0..40u64 {
        let agent = match i % 4 {
            0 => Some("build"),
            1 => Some("plan"),
            2 => Some(""),
            _ => None,
        };
        let model = ["gpt-5", "sonnet", "gemini"][(i % 3) as usize];
        let mut e = event(&format!("s{}", i % 5), model, agent, i * 7, i * 3);
        e.tokens.cache_read = i;
        e.tokens.cache_write = i % 2;
        events.push(e);
    }
    let all: u64 = events
        .iter()
        .map(|e| e.tokens.input + e.tokens.output + e.tokens.cache_read + e.tokens.cache_write)
        .sum();
    let rows = build_agent_rows(&events);
    assert_eq!(rows.iter().map(|r| r.total_tokens).sum::<u64>(), all);
    for row in &rows {
        assert_eq!(row.model_breakdown.iter().map(|b| b.tokens).sum::<u64>(), row.total_tokens);
        let expected = format!("{:.2}", row.total_tokens as f64 / all as f64 * 100.0);
        assert_eq!(percentage_text(row.percentage), expected);
    }
}

#[test]
fn event_order_does_not_change_the_rows() {
    let mut events = Vec::new();
    for i in 0..30u64 {
        let agent = [Some("build"), Some("plan"), None, Some("review")][(i % 4) as usize];
        let model = ["gpt-5", "sonnet", "gemini"][(i % 3) as usize];
        let mut e = event(&format!("s{}", i % 6), model, agent, (i * 37) % 11, i % 5);
        e.activity_day = Some(DAY + (i % 3) as i32);
        events.push(e);
    }
    let rows = build_agent_rows(&events);
    let mut shuffled = events.clone();
    shuffled.reverse();
    shuffled.rotate_left(7);
    let again = build_agent_rows(&shuffled);
    assert_eq!(rows.len(), again.len());
    for (a, b) in rows.iter().zip(again.iter()) {
        assert_eq!(a.agent_id, b.agent_id);
        assert_eq!(
            (a.total_tokens, a.input_tokens, a.output_tokens, a.cache_tokens, a.sessions, a.active_days),
            (b.total_tokens, b.input_tokens, b.output_tokens, b.cache_tokens, b.sessions, b.active_days)
        );
        assert_eq!(percentage_text(a.percentage), percentage_text(b.percentage));
        assert_eq!(a.model_breakdown.len(), b.model_breakdown.len());
        for (x, y) in a.model_breakdown.iter().zip(b.model_breakdown.iter()) {
            assert_eq!(x.model_id, y.model_id);
            assert_eq!((x.tokens, x.sessions, x.active_days), (y.tokens, y.sessions, y.active_days));
        }
    }
}

//! How the per-agent rows account for the usage events: every token of every
//! event is counted in exactly one row.
use vstd::prelude::*;
use crate::agents::{
    agent_set, is_agent_table, is_breakdown, model_set, overall_tokens, token_total,
    AgentModelBreakdown, AgentUsageRow,
};
use crate::ranking::lemma_chars_less_irreflexive;
use crate::usage::{agent_key, capped, group, in_group, token_sums, UsageRecord};

verus! {

/// The exact number of tokens of some events, all four kinds together.
pub open spec fn exact_tokens(s: Seq<UsageRecord>) -> nat {
    let (i, o, r, w) = token_sums(s);
    i + o + r + w
}

/// The tokens of one event, all four kinds together.
pub open spec fn event_tokens(e: UsageRecord) -> nat {
    e.tokens.input as nat + e.tokens.output as nat + e.tokens.cache_read as nat
        + e.tokens.cache_write as nat
}

/// The exact tokens of each label's events, summed over the labels.
pub open spec fn label_sum(labels: Seq<Seq<char>>, evs: Seq<UsageRecord>) -> nat
    decreases labels.len(),
{
    if labels.len() == 0 {
        0
    } else {
        label_sum(labels.drop_last(), evs) + exact_tokens(group(evs, labels.last(), None))
    }
}

/// The agent labels of the rows, in order.
pub open spec fn row_agents(rows: Seq<AgentUsageRow>) -> Seq<Seq<char>> {
    rows.map_values(|r: AgentUsageRow| r.agent_id@)
}

proof fn lemma_group_push(evs: Seq<UsageRecord>, e: UsageRecord, a: Seq<char>)
    ensures
        group(evs.push(e), a, None) == if agent_key(e.agent) == a {
            group(evs, a, None).push(e)
        } else {
            group(evs, a, None)
        },
{
    assert(evs.push(e).drop_last() =~= evs);
}

proof fn lemma_exact_push(s: Seq<UsageRecord>, e: UsageRecord)
    ensures
        exact_tokens(s.push(e)) == exact_tokens(s) + event_tokens(e),
{
    assert(s.push(e).drop_last() =~= s);
}

proof fn lemma_label_sum_empty(labels: Seq<Seq<char>>)
    ensures
        label_sum(labels, Seq::empty()) == 0,
    decreases labels.len(),
{
    if labels.len() > 0 {
        lemma_label_sum_empty(labels.drop_last());
    }
}

/// One more event adds its tokens to the sum once, when its label is listed.
proof fn lemma_label_sum_push(labels: Seq<Seq<char>>, evs: Seq<UsageRecord>, e: UsageRecord)
    requires
        labels.no_duplicates(),
    ensures
        label_sum(labels, evs.push(e)) == label_sum(labels, evs) + if labels.contains(
            agent_key(e.agent),
        ) {
            event_tokens(e)
        } else {
            0
        },
    decreases labels.len(),
{
    if labels.len() > 0 {
        let init = labels.drop_last();
        let last = labels.last();
        assert(init.no_duplicates()) by {
            assert forall|i: int, j: int| 0 <= i < j < init.len() implies init[i] != init[j] by {
                assert(init[i] == labels[i] && init[j] == labels[j]);
            }
        }
        lemma_label_sum_push(init, evs, e);
        lemma_group_push(evs, e, last);
        if agent_key(e.agent) == last {
            lemma_exact_push(group(evs, last, None), e);
            assert(!init.contains(last)) by {
                if init.contains(last) {
                    let k = choose|k: int| 0 <= k < init.len() && init[k] == last;
                    assert(labels[k] == labels[labels.len() - 1]);
                }
            }
            assert(labels.contains(last)) by {
                assert(labels[labels.len() - 1] == last);
            }
        } else {
            assert(labels.contains(agent_key(e.agent)) == init.contains(agent_key(e.agent))) by {
                if labels.contains(agent_key(e.agent)) {
                    let k = choose|k: int| 0 <= k < labels.len() && labels[k] == agent_key(e.agent);
                    assert(init[k] == labels[k]);
                }
                if init.contains(agent_key(e.agent)) {
                    let k = choose|k: int| 0 <= k < init.len() && init[k] == agent_key(e.agent);
                    assert(labels[k] == init[k]);
                }
            }
        }
    }
}

/// Summed over distinct labels that cover every event's label, the groups'
/// tokens are the tokens of all events.
proof fn lemma_label_sum_covers(labels: Seq<Seq<char>>, evs: Seq<UsageRecord>)
    requires
        labels.no_duplicates(),
        forall|i: int| 0 <= i < evs.len() ==> labels.contains(#[trigger] agent_key(evs[i].agent)),
    ensures
        label_sum(labels, evs) == exact_tokens(evs),
    decreases evs.len(),
{
    if evs.len() == 0 {
        lemma_label_sum_empty(labels);
        assert(evs =~= Seq::<UsageRecord>::empty());
    } else {
        let init = evs.drop_last();
        let e = evs.last();
        assert forall|i: int| 0 <= i < init.len() implies labels.contains(
            #[trigger] agent_key(init[i].agent),
        ) by {
            assert(init[i] == evs[i]);
            assert(labels.contains(agent_key(evs[i].agent)));
        }
        lemma_label_sum_covers(labels, init);
        assert(init.push(e) =~= evs);
        assert(labels.contains(agent_key(evs[evs.len() - 1].agent)));
        lemma_label_sum_push(labels, init, e);
        lemma_exact_push(init, e);
    }
}

/// The rows' labels are distinct and cover every event's label.
proof fn lemma_row_agents_cover(rows: Seq<AgentUsageRow>, events: Seq<UsageRecord>)
    requires
        is_agent_table(rows, events),
    ensures
        row_agents(rows).no_duplicates(),
        forall|i: int|
            0 <= i < events.len() ==> row_agents(rows).contains(#[trigger] agent_key(events[i].agent)),
{
    let ids = row_agents(rows);
    assert forall|i: int, j: int| 0 <= i < j < ids.len() implies ids[i] != ids[j] by {
        if ids[i] == ids[j] {
            assert(rows[i].agent_id@ == rows[j].agent_id@);
            assert(agent_set(events).contains(rows[i].agent_id@));
            assert(agent_set(events).contains(rows[j].agent_id@));
            assert(rows[i].total_tokens == rows[j].total_tokens);
            lemma_chars_less_irreflexive(rows[i].agent_id@);
        }
    }
    assert forall|i: int| 0 <= i < events.len() implies ids.contains(
        #[trigger] agent_key(events[i].agent),
    ) by {
        let a = agent_key(events[i].agent);
        assert(agent_set(events).contains(a));
        let k = choose|k: int| 0 <= k < rows.len() && rows[k].agent_id@ == a;
        assert(ids[k] == a);
    }
}

/// Every token of every event is counted in exactly one agent row: summed
/// over the rows, the exact tokens of each agent's events make up the tokens
/// of all events.
pub proof fn agent_rows_account_for_every_token(rows: Seq<AgentUsageRow>, events: Seq<UsageRecord>)
    requires
        is_agent_table(rows, events),
    ensures
        label_sum(row_agents(rows), events) == exact_tokens(events),
{
    lemma_row_agents_cover(rows, events);
    lemma_label_sum_covers(row_agents(rows), events);
}

/// Saturated row totals, summed and saturated again, give the saturated sum
/// of the exact totals.
proof fn lemma_capped_sums(ts: Seq<u64>, labels: Seq<Seq<char>>, evs: Seq<UsageRecord>)
    requires
        ts.len() == labels.len(),
        forall|k: int|
            0 <= k < ts.len() ==> #[trigger] ts[k] == capped(exact_tokens(group(evs, labels[k], None))),
    ensures
        token_total(ts) <= label_sum(labels, evs),
        capped(token_total(ts)) == capped(label_sum(labels, evs)),
    decreases ts.len(),
{
    if ts.len() > 0 {
        let n = ts.len() - 1;
        assert forall|k: int| 0 <= k < ts.drop_last().len() implies #[trigger] ts.drop_last()[k]
            == capped(exact_tokens(group(evs, labels.drop_last()[k], None))) by {
            assert(ts.drop_last()[k] == ts[k]);
            assert(labels.drop_last()[k] == labels[k]);
        }
        lemma_capped_sums(ts.drop_last(), labels.drop_last(), evs);
        assert(ts[n] == capped(exact_tokens(group(evs, labels[n], None))));
    }
}

/// The base of the agents' percentages is the total of all events' tokens,
/// saturated at `u64::MAX`.
pub proof fn percentages_are_shares_of_all_tokens(rows: Seq<AgentUsageRow>, events: Seq<UsageRecord>)
    requires
        is_agent_table(rows, events),
    ensures
        overall_tokens(rows) == capped(exact_tokens(events)),
{
    agent_rows_account_for_every_token(rows, events);
    let ts = rows.map_values(|r: AgentUsageRow| r.total_tokens);
    let ids = row_agents(rows);
    assert forall|k: int| 0 <= k < ts.len() implies #[trigger] ts[k] == capped(
        exact_tokens(group(events, ids[k], None)),
    ) by {
        assert(ts[k] == rows[k].total_tokens);
        assert(ids[k] == rows[k].agent_id@);
        assert(agent_set(events).contains(rows[k].agent_id@));
    }
    lemma_capped_sums(ts, ids, events);
}

/// The exact tokens of the agent's events on each model, summed over the
/// models.
pub open spec fn model_sum(models: Seq<Seq<char>>, agent: Seq<char>, evs: Seq<UsageRecord>) -> nat
    decreases models.len(),
{
    if models.len() == 0 {
        0
    } else {
        model_sum(models.drop_last(), agent, evs) + exact_tokens(
            group(evs, agent, Some(models.last())),
        )
    }
}

/// The models of a breakdown, in order.
pub open spec fn breakdown_models(bs: Seq<AgentModelBreakdown>) -> Seq<Seq<char>> {
    bs.map_values(|b: AgentModelBreakdown| b.model_id@)
}

proof fn lemma_model_group_push(
    evs: Seq<UsageRecord>,
    e: UsageRecord,
    agent: Seq<char>,
    model: Option<Seq<char>>,
)
    ensures
        group(evs.push(e), agent, model) == if in_group(e, agent, model) {
            group(evs, agent, model).push(e)
        } else {
            group(evs, agent, model)
        },
{
    assert(evs.push(e).drop_last() =~= evs);
}

proof fn lemma_model_sum_empty(models: Seq<Seq<char>>, agent: Seq<char>)
    ensures
        model_sum(models, agent, Seq::empty()) == 0,
    decreases models.len(),
{
    if models.len() > 0 {
        lemma_model_sum_empty(models.drop_last(), agent);
    }
}

/// One more event adds its tokens to the sum once, when it is the agent's
/// and its model is listed.
proof fn lemma_model_sum_push(
    models: Seq<Seq<char>>,
    agent: Seq<char>,
    evs: Seq<UsageRecord>,
    e: UsageRecord,
)
    requires
        models.no_duplicates(),
    ensures
        model_sum(models, agent, evs.push(e)) == model_sum(models, agent, evs) + if agent_key(
            e.agent,
        ) == agent && models.contains(e.model_id@) {
            event_tokens(e)
        } else {
            0
        },
    decreases models.len(),
{
    if models.len() > 0 {
        let init = models.drop_last();
        let last = models.last();
        assert(init.no_duplicates()) by {
            assert forall|i: int, j: int| 0 <= i < j < init.len() implies init[i] != init[j] by {
                assert(init[i] == models[i] && init[j] == models[j]);
            }
        }
        lemma_model_sum_push(init, agent, evs, e);
        lemma_model_group_push(evs, e, agent, Some(last));
        if agent_key(e.agent) == agent && e.model_id@ == last {
            lemma_exact_push(group(evs, agent, Some(last)), e);
            assert(!init.contains(last)) by {
                if init.contains(last) {
                    let k = choose|k: int| 0 <= k < init.len() && init[k] == last;
                    assert(models[k] == models[models.len() - 1]);
                }
            }
            assert(models.contains(last)) by {
                assert(models[models.len() - 1] == last);
            }
        } else {
            assert(models.contains(e.model_id@) == (init.contains(e.model_id@) || last
                == e.model_id@)) by {
                if models.contains(e.model_id@) {
                    let k = choose|k: int| 0 <= k < models.len() && models[k] == e.model_id@;
                    if k < init.len() {
                        assert(init[k] == models[k]);
                    }
                }
                if init.contains(e.model_id@) {
                    let k = choose|k: int| 0 <= k < init.len() && init[k] == e.model_id@;
                    assert(models[k] == init[k]);
                }
                if last == e.model_id@ {
                    assert(models[models.len() - 1] == last);
                }
            }
        }
    }
}

/// Summed over distinct models that cover every model the agent used, the
/// per-model groups' tokens are the tokens of the agent's events.
proof fn lemma_model_sum_covers(models: Seq<Seq<char>>, agent: Seq<char>, evs: Seq<UsageRecord>)
    requires
        models.no_duplicates(),
        forall|i: int|
            0 <= i < evs.len() && agent_key(evs[i].agent) == agent ==> models.contains(
                #[trigger] evs[i].model_id@,
            ),
    ensures
        model_sum(models, agent, evs) == exact_tokens(group(evs, agent, None)),
    decreases evs.len(),
{
    if evs.len() == 0 {
        lemma_model_sum_empty(models, agent);
        assert(evs =~= Seq::<UsageRecord>::empty());
    } else {
        let init = evs.drop_last();
        let e = evs.last();
        assert forall|i: int|
            0 <= i < init.len() && agent_key(init[i].agent) == agent implies models.contains(
            #[trigger] init[i].model_id@,
        ) by {
            assert(init[i] == evs[i]);
            assert(models.contains(evs[i].model_id@));
        }
        lemma_model_sum_covers(models, agent, init);
        assert(init.push(e) =~= evs);
        if agent_key(e.agent) == agent {
            assert(models.contains(evs[evs.len() - 1].model_id@));
        }
        lemma_model_sum_push(models, agent, init, e);
        lemma_model_group_push(init, e, agent, None);
        if agent_key(e.agent) == agent {
            lemma_exact_push(group(init, agent, None), e);
        }
    }
}

/// Every token of an agent's events is counted in exactly one entry of its
/// model breakdown: summed over the breakdown, the exact tokens of the
/// agent's events on each model make up the tokens of all its events.
pub proof fn model_breakdown_accounts_for_every_token(
    bs: Seq<AgentModelBreakdown>,
    events: Seq<UsageRecord>,
    agent: Seq<char>,
)
    requires
        is_breakdown(bs, events, agent),
    ensures
        model_sum(breakdown_models(bs), agent, events) == exact_tokens(group(events, agent, None)),
{
    let ms = breakdown_models(bs);
    let models = model_set(group(events, agent, None));
    assert forall|i: int, j: int| 0 <= i < j < ms.len() implies ms[i] != ms[j] by {
        if ms[i] == ms[j] {
            assert(bs[i].model_id@ == bs[j].model_id@);
            assert(models.contains(bs[i].model_id@));
            assert(models.contains(bs[j].model_id@));
            assert(bs[i].tokens == bs[j].tokens);
            lemma_chars_less_irreflexive(bs[i].model_id@);
        }
    }
    assert forall|i: int|
        0 <= i < events.len() && agent_key(events[i].agent) == agent implies ms.contains(
        #[trigger] events[i].model_id@,
    ) by {
        let m = events[i].model_id@;
        lemma_member_of_group(events, agent, i);
        let g = group(events, agent, None);
        let k = choose|k: int| 0 <= k < g.len() && g[k] == events[i];
        assert(g[k].model_id@ == m);
        assert(models.contains(m));
        let j = choose|j: int| 0 <= j < bs.len() && bs[j].model_id@ == m;
        assert(ms[j] == m);
    }
    lemma_model_sum_covers(ms, agent, events);
}

/// An event of the agent lies in the agent's group.
proof fn lemma_member_of_group(evs: Seq<UsageRecord>, agent: Seq<char>, i: int)
    requires
        0 <= i < evs.len(),
        agent_key(evs[i].agent) == agent,
    ensures
        exists|k: int|
            0 <= k < group(evs, agent, None).len() && group(evs, agent, None)[k] == evs[i],
    decreases evs.len(),
{
    let init = evs.drop_last();
    let g = group(evs, agent, None);
    if i == evs.len() - 1 {
        assert(g[g.len() - 1] == evs[i]);
    } else {
        assert(init[i] == evs[i]);
        lemma_member_of_group(init, agent, i);
        let gi = group(init, agent, None);
        let k = choose|k: int| 0 <= k < gi.len() && gi[k] == evs[i];
        assert(g[k] == gi[k]);
    }
}

} // verus!

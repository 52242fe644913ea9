//! Per-agent usage statistics: one row per agent, with a breakdown by model.
use vstd::prelude::*;
use crate::binary64::{well_formed, Binary64};
use crate::formatting::{percentage, percentage_value};
use crate::ranking::{chars_less, rank_order, ranks_before};
use crate::search::chars_of;
use crate::usage::{
    agent_key, agent_label, capped, group, model_view, position_of, summarize, summarizes, views,
    UsageRecord, UsageTotals,
};

verus! {

/// The agent labels that occur among the events.
pub open spec fn agent_set(evs: Seq<UsageRecord>) -> Set<Seq<char>> {
    Set::new(|k: Seq<char>| exists|i: int| 0 <= i < evs.len() && agent_key(evs[i].agent) == k)
}

/// The models that occur among the events.
pub open spec fn model_set(evs: Seq<UsageRecord>) -> Set<Seq<char>> {
    Set::new(|m: Seq<char>| exists|i: int| 0 <= i < evs.len() && evs[i].model_id@ == m)
}

/// Entry `a` (total, label) is listed before entry `b`: a larger total, or
/// an equal total and a label that sorts first.
pub open spec fn ranked(ta: u64, la: Seq<char>, tb: u64, lb: Seq<char>) -> bool {
    ta > tb || (ta == tb && chars_less(la, lb))
}

/// The usage of one model by one agent.
#[derive(Clone, Debug)]
pub struct AgentModelBreakdown {
    pub model_id: String,
    pub tokens: u64,
    pub input_tokens: u64,
    pub output_tokens: u64,
    pub cache_tokens: u64,
    pub sessions: usize,
    pub active_days: usize,
}

/// The usage of one agent, with its models.
#[derive(Clone, Debug)]
pub struct AgentUsageRow {
    pub agent_id: String,
    pub total_tokens: u64,
    pub input_tokens: u64,
    pub output_tokens: u64,
    pub cache_tokens: u64,
    pub sessions: usize,
    pub active_days: usize,
    /// Share of this agent in the tokens of all agents, in percent.
    pub percentage: Binary64,
    pub model_breakdown: Vec<AgentModelBreakdown>,
}

impl AgentModelBreakdown {
    pub open spec fn totals(self) -> UsageTotals {
        UsageTotals {
            total_tokens: self.tokens,
            input_tokens: self.input_tokens,
            output_tokens: self.output_tokens,
            cache_tokens: self.cache_tokens,
            sessions: self.sessions,
            active_days: self.active_days,
        }
    }
}

impl AgentUsageRow {
    pub open spec fn totals(self) -> UsageTotals {
        UsageTotals {
            total_tokens: self.total_tokens,
            input_tokens: self.input_tokens,
            output_tokens: self.output_tokens,
            cache_tokens: self.cache_tokens,
            sessions: self.sessions,
            active_days: self.active_days,
        }
    }
}

/// The exact sum of a sequence of token counts.
pub open spec fn token_total(s: Seq<u64>) -> nat
    decreases s.len(),
{
    if s.len() == 0 {
        0
    } else {
        token_total(s.drop_last()) + s.last() as nat
    }
}

/// The tokens of all rows together, saturated at `u64::MAX`: the base of
/// each row's percentage.
pub open spec fn overall_tokens(rows: Seq<AgentUsageRow>) -> u64 {
    capped(token_total(rows.map_values(|r: AgentUsageRow| r.total_tokens)))
}

/// `bs` is the model breakdown of `agent` over `events`: one entry per model
/// the agent used, each with the totals of the agent's events on that model,
/// listed by tokens (most first), ties by model name.
pub open spec fn is_breakdown(bs: Seq<AgentModelBreakdown>, events: Seq<UsageRecord>, agent: Seq<
    char,
>) -> bool {
    let models = model_set(group(events, agent, None));
    &&& bs.len() == models.len()
    &&& forall|i: int|
        0 <= i < bs.len() ==> #[trigger] models.contains(bs[i].model_id@) && summarizes(
            bs[i].totals(),
            group(events, agent, Some(bs[i].model_id@)),
        )
    &&& forall|m: Seq<char>|
        #[trigger] models.contains(m) ==> exists|i: int| 0 <= i < bs.len() && bs[i].model_id@ == m
    &&& forall|i: int, j: int|
        0 <= i < j < bs.len() ==> ranked(
            #[trigger] bs[i].tokens,
            bs[i].model_id@,
            #[trigger] bs[j].tokens,
            bs[j].model_id@,
        )
}

/// `rows` are the per-agent rows of `events`: one per agent label, each with
/// the totals of that agent's events, its share of all tokens and its model
/// breakdown, listed by total tokens (most first), ties by agent name.
pub open spec fn is_agent_table(rows: Seq<AgentUsageRow>, events: Seq<UsageRecord>) -> bool {
    let agents = agent_set(events);
    &&& rows.len() == agents.len()
    &&& forall|i: int|
        0 <= i < rows.len() ==> #[trigger] agents.contains(rows[i].agent_id@) && summarizes(
            rows[i].totals(),
            group(events, rows[i].agent_id@, None),
        ) && is_breakdown(rows[i].model_breakdown@, events, rows[i].agent_id@)
            && rows[i].percentage.pair() == percentage_value(
            rows[i].total_tokens as nat,
            overall_tokens(rows) as nat,
        ) && well_formed(rows[i].percentage, -126, 20)
    &&& forall|a: Seq<char>|
        #[trigger] agents.contains(a) ==> exists|i: int| 0 <= i < rows.len() && rows[i].agent_id@ == a
    &&& forall|i: int, j: int|
        0 <= i < j < rows.len() ==> ranked(
            #[trigger] rows[i].total_tokens,
            rows[i].agent_id@,
            #[trigger] rows[j].total_tokens,
            rows[j].agent_id@,
        )
}

/// The distinct agent labels of the events, in order of first appearance.
fn distinct_agents(events: &Vec<UsageRecord>) -> (keys: Vec<String>)
    ensures
        views(keys@).no_duplicates(),
        views(keys@).to_set() == agent_set(events@),
{
    let mut keys: Vec<String> = Vec::new();
    let mut i: usize = 0;
    proof {
        assert(views(keys@).to_set() =~= agent_set(events@.take(0)));
    }
    while i < events.len()
        invariant
            i <= events@.len(),
            views(keys@).no_duplicates(),
            views(keys@).to_set() == agent_set(events@.take(i as int)),
        decreases events@.len() - i,
    {
        let label = agent_label(&events[i].agent);
        let ghost before = views(keys@);
        proof {
            let t0 = events@.take(i as int);
            let t1 = events@.take(i + 1);
            assert(agent_set(t1) =~= agent_set(t0).insert(label@)) by {
                assert forall|k: Seq<char>| agent_set(t1).contains(k) implies agent_set(t0).insert(
                    label@,
                ).contains(k) by {
                    let j = choose|j: int| 0 <= j < t1.len() && agent_key(t1[j].agent) == k;
                    if j < i {
                        assert(t0[j] == t1[j]);
                    }
                }
                assert forall|k: Seq<char>| agent_set(t0).insert(label@).contains(k) implies agent_set(
                    t1,
                ).contains(k) by {
                    if k == label@ {
                        assert(t1[i as int] == events@[i as int]);
                    } else {
                        let j = choose|j: int| 0 <= j < t0.len() && agent_key(t0[j].agent) == k;
                        assert(t1[j] == t0[j]);
                    }
                }
            }
        }
        if position_of(&keys, &label).is_none() {
            keys.push(label);
            proof {
                assert(views(keys@) =~= before.push(label@));
                before.lemma_push_to_set_commute(label@);
            }
        } else {
            proof {
                assert(before.to_set().contains(label@));
                assert(before.to_set().insert(label@) =~= before.to_set());
            }
        }
        i = i + 1;
    }
    proof {
        assert(events@.take(events@.len() as int) =~= events@);
    }
    keys
}

proof fn lemma_group_take_step(evs: Seq<UsageRecord>, i: int, agent: Seq<char>)
    requires
        0 <= i < evs.len(),
    ensures
        group(evs.take(i + 1), agent, None) == if agent_key(evs[i].agent) == agent {
            group(evs.take(i), agent, None).push(evs[i])
        } else {
            group(evs.take(i), agent, None)
        },
{
    assert(evs.take(i + 1).drop_last() =~= evs.take(i));
}

/// The distinct models that `agent` used, in order of first appearance.
fn distinct_models(events: &Vec<UsageRecord>, agent: &String) -> (models: Vec<String>)
    ensures
        views(models@).no_duplicates(),
        views(models@).to_set() == model_set(group(events@, agent@, None)),
{
    let mut models: Vec<String> = Vec::new();
    let mut i: usize = 0;
    proof {
        assert(group(events@.take(0), agent@, None) =~= Seq::<UsageRecord>::empty());
        assert(views(models@).to_set() =~= model_set(Seq::<UsageRecord>::empty()));
    }
    while i < events.len()
        invariant
            i <= events@.len(),
            views(models@).no_duplicates(),
            views(models@).to_set() == model_set(group(events@.take(i as int), agent@, None)),
        decreases events@.len() - i,
    {
        let e = &events[i];
        let label = agent_label(&e.agent);
        let ghost g0 = group(events@.take(i as int), agent@, None);
        let ghost before = views(models@);
        proof {
            lemma_group_take_step(events@, i as int, agent@);
        }
        if label == *agent {
            let ghost g1 = g0.push(events@[i as int]);
            proof {
                assert(model_set(g1) =~= model_set(g0).insert(e.model_id@)) by {
                    assert forall|m: Seq<char>| model_set(g1).contains(m) implies model_set(g0).insert(
                        e.model_id@,
                    ).contains(m) by {
                        let j = choose|j: int| 0 <= j < g1.len() && g1[j].model_id@ == m;
                        if j < g0.len() {
                            assert(g0[j] == g1[j]);
                        }
                    }
                    assert forall|m: Seq<char>| model_set(g0).insert(e.model_id@).contains(m) implies model_set(
                        g1,
                    ).contains(m) by {
                        if m == e.model_id@ {
                            assert(g1[g0.len() as int] == *e);
                        } else {
                            let j = choose|j: int| 0 <= j < g0.len() && g0[j].model_id@ == m;
                            assert(g1[j] == g0[j]);
                        }
                    }
                }
            }
            if position_of(&models, &e.model_id).is_none() {
                models.push(e.model_id.clone());
                proof {
                    assert(views(models@) =~= before.push(e.model_id@));
                    before.lemma_push_to_set_commute(e.model_id@);
                }
            } else {
                proof {
                    assert(before.to_set().contains(e.model_id@));
                    assert(before.to_set().insert(e.model_id@) =~= before.to_set());
                }
            }
        }
        i = i + 1;
    }
    proof {
        assert(events@.take(events@.len() as int) =~= events@);
    }
    models
}

/// The model breakdown of `agent`: one entry per model it used, by tokens.
pub fn model_breakdown(events: &Vec<UsageRecord>, agent: &String) -> (bs: Vec<AgentModelBreakdown>)
    ensures
        is_breakdown(bs@, events@, agent@),
{
    let models = distinct_models(events, agent);
    let n = models.len();
    let mut totals: Vec<UsageTotals> = Vec::new();
    let mut tokens: Vec<u64> = Vec::new();
    let mut labels: Vec<Vec<char>> = Vec::new();
    let mut k: usize = 0;
    while k < n
        invariant
            n == models@.len(),
            k <= n,
            totals@.len() == k,
            tokens@.len() == k,
            labels@.len() == k,
            forall|p: int|
                0 <= p < k ==> summarizes(
                    #[trigger] totals@[p],
                    group(events@, agent@, Some(models@[p]@)),
                ),
            forall|p: int| 0 <= p < k ==> #[trigger] tokens@[p] == totals@[p].total_tokens,
            forall|p: int| 0 <= p < k ==> #[trigger] labels@[p]@ == models@[p]@,
        decreases n - k,
    {
        let t = summarize(events, agent, Some(&models[k]));
        totals.push(t);
        tokens.push(t.total_tokens);
        labels.push(chars_of(models[k].as_str()));
        k = k + 1;
    }
    let ghost mv = views(models@);
    proof {
        assert forall|i: int, j: int| 0 <= i < j < labels@.len() implies #[trigger] labels@[i]@
            != #[trigger] labels@[j]@ by {
            assert(mv[i] == models@[i]@);
            assert(mv[j] == models@[j]@);
        }
    }
    let order = rank_order(&tokens, &labels);
    let ghost ls = labels@.map_values(|l: Vec<char>| l@);
    let mut bs: Vec<AgentModelBreakdown> = Vec::new();
    let mut k: usize = 0;
    while k < n
        invariant
            n == models@.len(),
            n == order@.len(),
            n == totals@.len(),
            n == tokens@.len(),
            n == labels@.len(),
            forall|q: int| 0 <= q < n ==> order@[q] < n,
            k <= n,
            bs@.len() == k,
            forall|p: int|
                0 <= p < k ==> (#[trigger] bs@[p]).model_id@ == models@[order@[p] as int]@
                    && bs@[p].totals() == totals@[order@[p] as int],
        decreases n - k,
    {
        let idx = order[k];
        let t = totals[idx];
        bs.push(
            AgentModelBreakdown {
                model_id: models[idx].clone(),
                tokens: t.total_tokens,
                input_tokens: t.input_tokens,
                output_tokens: t.output_tokens,
                cache_tokens: t.cache_tokens,
                sessions: t.sessions,
                active_days: t.active_days,
            },
        );
        k = k + 1;
    }
    proof {
        let g = group(events@, agent@, None);
        let ms = model_set(g);
        mv.unique_seq_to_set();
        assert(mv.len() == n);
        assert forall|i: int| 0 <= i < bs@.len() implies #[trigger] ms.contains(bs@[i].model_id@)
            && summarizes(bs@[i].totals(), group(events@, agent@, Some(bs@[i].model_id@))) by {
            let idx = order@[i] as int;
            assert(mv[idx] == models@[idx]@);
            assert(mv.to_set().contains(mv[idx]));
        }
        assert forall|m: Seq<char>| #[trigger] ms.contains(m) implies exists|i: int|
            0 <= i < bs@.len() && bs@[i].model_id@ == m by {
            assert(mv.to_set().contains(m));
            let j = choose|j: int| 0 <= j < mv.len() && mv[j] == m;
            assert(order@.contains(j as usize));
            let i = choose|i: int| 0 <= i < order@.len() && order@[i] == j as usize;
            assert(bs@[i].model_id@ == m);
        }
        assert forall|i: int, j: int| 0 <= i < j < bs@.len() implies ranked(
            #[trigger] bs@[i].tokens,
            bs@[i].model_id@,
            #[trigger] bs@[j].tokens,
            bs@[j].model_id@,
        ) by {
            let a = order@[i] as int;
            let b = order@[j] as int;
            assert(ranks_before(tokens@, ls, a, b));
            assert(ls[a] == labels@[a]@);
            assert(ls[b] == labels@[b]@);
        }
    }
    bs
}

/// Groups usage events by agent: one row per agent label ("unknown" for
/// events without one), with its totals and its model breakdown, listed by
/// total tokens, most first, ties by agent name.
pub fn build_agent_rows(events: &Vec<UsageRecord>) -> (rows: Vec<AgentUsageRow>)
    ensures
        is_agent_table(rows@, events@),
{
    let keys = distinct_agents(events);
    let n = keys.len();
    let mut totals: Vec<UsageTotals> = Vec::new();
    let mut tokens: Vec<u64> = Vec::new();
    let mut labels: Vec<Vec<char>> = Vec::new();
    let mut k: usize = 0;
    while k < n
        invariant
            n == keys@.len(),
            k <= n,
            totals@.len() == k,
            tokens@.len() == k,
            labels@.len() == k,
            forall|p: int|
                0 <= p < k ==> summarizes(#[trigger] totals@[p], group(events@, keys@[p]@, None)),
            forall|p: int| 0 <= p < k ==> #[trigger] tokens@[p] == totals@[p].total_tokens,
            forall|p: int| 0 <= p < k ==> #[trigger] labels@[p]@ == keys@[p]@,
        decreases n - k,
    {
        let t = summarize(events, &keys[k], None);
        totals.push(t);
        tokens.push(t.total_tokens);
        labels.push(chars_of(keys[k].as_str()));
        k = k + 1;
    }
    let ghost kv = views(keys@);
    proof {
        assert forall|i: int, j: int| 0 <= i < j < labels@.len() implies #[trigger] labels@[i]@
            != #[trigger] labels@[j]@ by {
            assert(kv[i] == keys@[i]@);
            assert(kv[j] == keys@[j]@);
        }
    }
    let order = rank_order(&tokens, &labels);
    let ghost ls = labels@.map_values(|l: Vec<char>| l@);
    let ghost ordered = Seq::new(n as nat, |p: int| tokens@[order@[p] as int]);
    let mut overall: u64 = 0;
    let mut k: usize = 0;
    while k < n
        invariant
            n == order@.len(),
            n == tokens@.len(),
            forall|q: int| 0 <= q < n ==> order@[q] < n,
            ordered == Seq::new(n as nat, |p: int| tokens@[order@[p] as int]),
            k <= n,
            overall == capped(token_total(ordered.take(k as int))),
        decreases n - k,
    {
        proof {
            assert(ordered.take(k + 1).drop_last() =~= ordered.take(k as int));
        }
        overall = overall.saturating_add(tokens[order[k]]);
        k = k + 1;
    }
    proof {
        assert(ordered.take(n as int) =~= ordered);
    }
    let mut rows: Vec<AgentUsageRow> = Vec::new();
    let mut k: usize = 0;
    while k < n
        invariant
            n == keys@.len(),
            n == order@.len(),
            n == totals@.len(),
            n == tokens@.len(),
            n == labels@.len(),
            forall|q: int| 0 <= q < n ==> order@[q] < n,
            forall|p: int| 0 <= p < n ==> #[trigger] tokens@[p] == totals@[p].total_tokens,
            k <= n,
            rows@.len() == k,
            forall|p: int|
                0 <= p < k ==> (#[trigger] rows@[p]).agent_id@ == keys@[order@[p] as int]@
                    && rows@[p].totals() == totals@[order@[p] as int] && is_breakdown(
                    rows@[p].model_breakdown@,
                    events@,
                    rows@[p].agent_id@,
                ) && rows@[p].percentage.pair() == percentage_value(
                    rows@[p].total_tokens as nat,
                    overall as nat,
                ) && well_formed(rows@[p].percentage, -126, 20),
        decreases n - k,
    {
        let idx = order[k];
        let t = totals[idx];
        let breakdown = model_breakdown(events, &keys[idx]);
        let share = percentage(t.total_tokens, overall);
        rows.push(
            AgentUsageRow {
                agent_id: keys[idx].clone(),
                total_tokens: t.total_tokens,
                input_tokens: t.input_tokens,
                output_tokens: t.output_tokens,
                cache_tokens: t.cache_tokens,
                sessions: t.sessions,
                active_days: t.active_days,
                percentage: share,
                model_breakdown: breakdown,
            },
        );
        k = k + 1;
    }
    proof {
        assert(rows@.map_values(|r: AgentUsageRow| r.total_tokens) =~= ordered) by {
            assert forall|p: int| 0 <= p < n implies rows@[p].total_tokens == ordered[p] by {
                assert(tokens@[order@[p] as int] == totals@[order@[p] as int].total_tokens);
            }
        }
        assert(overall == overall_tokens(rows@));
        let agents = agent_set(events@);
        kv.unique_seq_to_set();
        assert(kv.len() == n);
        assert forall|i: int| 0 <= i < rows@.len() implies #[trigger] agents.contains(
            rows@[i].agent_id@,
        ) && summarizes(rows@[i].totals(), group(events@, rows@[i].agent_id@, None))
            && is_breakdown(rows@[i].model_breakdown@, events@, rows@[i].agent_id@) by {
            let idx = order@[i] as int;
            assert(kv[idx] == keys@[idx]@);
            assert(kv.to_set().contains(kv[idx]));
        }
        assert forall|a: Seq<char>| #[trigger] agents.contains(a) implies exists|i: int|
            0 <= i < rows@.len() && rows@[i].agent_id@ == a by {
            assert(kv.to_set().contains(a));
            let j = choose|j: int| 0 <= j < kv.len() && kv[j] == a;
            assert(order@.contains(j as usize));
            let i = choose|i: int| 0 <= i < order@.len() && order@[i] == j as usize;
            assert(rows@[i].agent_id@ == a);
        }
        assert forall|i: int, j: int| 0 <= i < j < rows@.len() implies ranked(
            #[trigger] rows@[i].total_tokens,
            rows@[i].agent_id@,
            #[trigger] rows@[j].total_tokens,
            rows@[j].agent_id@,
        ) by {
            let a = order@[i] as int;
            let b = order@[j] as int;
            assert(ranks_before(tokens@, ls, a, b));
            assert(ls[a] == labels@[a]@);
            assert(ls[b] == labels@[b]@);
        }
    }
    rows
}

} // verus!

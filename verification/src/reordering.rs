//! The per-agent statistics do not depend on the order of the usage events:
//! the same events in any order give the same rows.
use vstd::prelude::*;
use vstd::seq_lib::{commutative_foldl, group_to_multiset_ensures, lemma_fold_left_permutation};
use crate::accounting::exact_tokens;
use crate::agents::{
    agent_set, is_agent_table, is_breakdown, model_set, ranked, AgentModelBreakdown, AgentUsageRow,
};
use crate::ranking::{chars_less, lemma_chars_less_irreflexive, lemma_chars_less_transitive};
use crate::usage::{
    agent_key, capped, day_set, group, in_group, session_set, summarizes, token_sums, UsageRecord,
    UsageTotals,
};

verus! {

/// Adds an event's tokens to the running sums when it belongs to the group.
pub open spec fn add_tokens(agent: Seq<char>, model: Option<Seq<char>>) -> spec_fn(
    (nat, nat, nat, nat),
    UsageRecord,
) -> (nat, nat, nat, nat) {
    |acc: (nat, nat, nat, nat), e: UsageRecord|
        if in_group(e, agent, model) {
            (
                acc.0 + e.tokens.input as nat,
                acc.1 + e.tokens.output as nat,
                acc.2 + e.tokens.cache_read as nat,
                acc.3 + e.tokens.cache_write as nat,
            )
        } else {
            acc
        }
}

proof fn lemma_sums_as_fold(evs: Seq<UsageRecord>, agent: Seq<char>, model: Option<Seq<char>>)
    ensures
        token_sums(group(evs, agent, model)) == evs.fold_left(
            (0nat, 0nat, 0nat, 0nat),
            add_tokens(agent, model),
        ),
    decreases evs.len(),
{
    if evs.len() > 0 {
        let init = evs.drop_last();
        lemma_sums_as_fold(init, agent, model);
        let g = group(init, agent, model);
        assert(g.push(evs.last()).drop_last() =~= g);
    }
}

proof fn lemma_group_contains(
    evs: Seq<UsageRecord>,
    agent: Seq<char>,
    model: Option<Seq<char>>,
    x: UsageRecord,
)
    ensures
        group(evs, agent, model).contains(x) <==> (evs.contains(x) && in_group(x, agent, model)),
    decreases evs.len(),
{
    if evs.len() > 0 {
        let init = evs.drop_last();
        let g = group(init, agent, model);
        lemma_group_contains(init, agent, model, x);
        assert(evs =~= init.push(evs.last()));
        if evs.contains(x) && x != evs.last() {
            let k = choose|k: int| 0 <= k < evs.len() && evs[k] == x;
            assert(init[k] == x);
        }
        if init.contains(x) {
            let k = choose|k: int| 0 <= k < init.len() && init[k] == x;
            assert(evs[k] == x);
        }
        if in_group(evs.last(), agent, model) {
            let h = g.push(evs.last());
            if h.contains(x) && x != evs.last() {
                let k = choose|k: int| 0 <= k < h.len() && h[k] == x;
                assert(g[k] == x);
            }
            if g.contains(x) {
                let k = choose|k: int| 0 <= k < g.len() && g[k] == x;
                assert(h[k] == x);
            }
            assert(h[g.len() as int] == evs.last());
        }
        assert(evs[evs.len() - 1] == evs.last());
    } else {
        assert(!evs.contains(x));
    }
}

/// Two lists of events with the same members in the same numbers.
pub open spec fn reordered(ev1: Seq<UsageRecord>, ev2: Seq<UsageRecord>) -> bool {
    ev1.to_multiset() == ev2.to_multiset()
}

/// Reordering the events changes no group's sums, sessions, days or models.
proof fn lemma_group_reordered(
    ev1: Seq<UsageRecord>,
    ev2: Seq<UsageRecord>,
    agent: Seq<char>,
    model: Option<Seq<char>>,
)
    requires
        reordered(ev1, ev2),
    ensures
        token_sums(group(ev1, agent, model)) == token_sums(group(ev2, agent, model)),
        session_set(group(ev1, agent, model)) == session_set(group(ev2, agent, model)),
        day_set(group(ev1, agent, model)) == day_set(group(ev2, agent, model)),
        model_set(group(ev1, agent, model)) == model_set(group(ev2, agent, model)),
{
    broadcast use group_to_multiset_ensures;

    let f = add_tokens(agent, model);
    assert(commutative_foldl(f));
    lemma_fold_left_permutation(ev1, ev2, f, (0nat, 0nat, 0nat, 0nat));
    lemma_sums_as_fold(ev1, agent, model);
    lemma_sums_as_fold(ev2, agent, model);
    let g1 = group(ev1, agent, model);
    let g2 = group(ev2, agent, model);
    assert forall|x: UsageRecord| g1.contains(x) <==> g2.contains(x) by {
        lemma_group_contains(ev1, agent, model, x);
        lemma_group_contains(ev2, agent, model, x);
        assert(ev1.contains(x) <==> ev1.to_multiset().count(x) > 0);
        assert(ev2.contains(x) <==> ev2.to_multiset().count(x) > 0);
    }
    assert(session_set(g1) =~= session_set(g2)) by {
        assert forall|id: Seq<char>| session_set(g1).contains(id) implies session_set(g2).contains(
            id,
        ) by {
            let k = choose|k: int| 0 <= k < g1.len() && g1[k].session_id@ == id;
            assert(g1.contains(g1[k]));
            let j = choose|j: int| 0 <= j < g2.len() && g2[j] == g1[k];
        }
        assert forall|id: Seq<char>| session_set(g2).contains(id) implies session_set(g1).contains(
            id,
        ) by {
            let k = choose|k: int| 0 <= k < g2.len() && g2[k].session_id@ == id;
            assert(g2.contains(g2[k]));
            let j = choose|j: int| 0 <= j < g1.len() && g1[j] == g2[k];
        }
    }
    assert(day_set(g1) =~= day_set(g2)) by {
        assert forall|d: i32| day_set(g1).contains(d) implies day_set(g2).contains(d) by {
            let k = choose|k: int| 0 <= k < g1.len() && g1[k].activity_day == Some(d);
            assert(g1.contains(g1[k]));
            let j = choose|j: int| 0 <= j < g2.len() && g2[j] == g1[k];
        }
        assert forall|d: i32| day_set(g2).contains(d) implies day_set(g1).contains(d) by {
            let k = choose|k: int| 0 <= k < g2.len() && g2[k].activity_day == Some(d);
            assert(g2.contains(g2[k]));
            let j = choose|j: int| 0 <= j < g1.len() && g1[j] == g2[k];
        }
    }
    assert(model_set(g1) =~= model_set(g2)) by {
        assert forall|m: Seq<char>| model_set(g1).contains(m) implies model_set(g2).contains(m) by {
            let k = choose|k: int| 0 <= k < g1.len() && g1[k].model_id@ == m;
            assert(g1.contains(g1[k]));
            let j = choose|j: int| 0 <= j < g2.len() && g2[j] == g1[k];
        }
        assert forall|m: Seq<char>| model_set(g2).contains(m) implies model_set(g1).contains(m) by {
            let k = choose|k: int| 0 <= k < g2.len() && g2[k].model_id@ == m;
            assert(g2.contains(g2[k]));
            let j = choose|j: int| 0 <= j < g1.len() && g1[j] == g2[k];
        }
    }
}

/// Reordering the events changes no agent label among them.
proof fn lemma_agents_reordered(ev1: Seq<UsageRecord>, ev2: Seq<UsageRecord>)
    requires
        reordered(ev1, ev2),
    ensures
        agent_set(ev1) == agent_set(ev2),
{
    broadcast use group_to_multiset_ensures;

    assert forall|k: Seq<char>| agent_set(ev1).contains(k) implies agent_set(ev2).contains(k) by {
        let i = choose|i: int| 0 <= i < ev1.len() && agent_key(ev1[i].agent) == k;
        assert(ev1.contains(ev1[i]));
        assert(ev1.to_multiset().count(ev1[i]) > 0);
        assert(ev2.contains(ev1[i]));
        let j = choose|j: int| 0 <= j < ev2.len() && ev2[j] == ev1[i];
    }
    assert forall|k: Seq<char>| agent_set(ev2).contains(k) implies agent_set(ev1).contains(k) by {
        let i = choose|i: int| 0 <= i < ev2.len() && agent_key(ev2[i].agent) == k;
        assert(ev2.contains(ev2[i]));
        assert(ev2.to_multiset().count(ev2[i]) > 0);
        assert(ev1.contains(ev2[i]));
        let j = choose|j: int| 0 <= j < ev1.len() && ev1[j] == ev2[i];
    }
    assert(agent_set(ev1) =~= agent_set(ev2));
}

/// `s` lists distinct labels strictly by rank: more tokens first (each
/// label's total taken from `key`), ties by label.
pub open spec fn ranked_by(s: Seq<Seq<char>>, key: spec_fn(Seq<char>) -> u64) -> bool {
    forall|i: int, j: int|
        0 <= i < j < s.len() ==> ranked(key(#[trigger] s[i]), s[i], key(#[trigger] s[j]), s[j])
}

proof fn lemma_rank_facts(x: Seq<char>, y: Seq<char>, z: Seq<char>, key: spec_fn(Seq<char>) -> u64)
    ensures
        !ranked(key(x), x, key(x), x),
        ranked(key(x), x, key(y), y) && ranked(key(y), y, key(z), z) ==> ranked(
            key(x),
            x,
            key(z),
            z,
        ),
{
    lemma_chars_less_irreflexive(x);
    if chars_less(x, y) && chars_less(y, z) {
        lemma_chars_less_transitive(x, y, z);
    }
}

/// Two lists of the same labels, both ordered by rank, are the same list.
proof fn lemma_ranked_unique(s1: Seq<Seq<char>>, s2: Seq<Seq<char>>, key: spec_fn(Seq<char>) -> u64)
    requires
        ranked_by(s1, key),
        ranked_by(s2, key),
        s1.to_set() == s2.to_set(),
    ensures
        s1 == s2,
    decreases s1.len(),
{
    if s1.len() == 0 || s2.len() == 0 {
        if s2.len() > 0 {
            assert(s2.to_set().contains(s2[0]));
        }
        if s1.len() > 0 {
            assert(s1.to_set().contains(s1[0]));
        }
        assert(s1 =~= s2);
    } else {
        let x = s1[0];
        assert(s1.to_set().contains(x));
        assert(s2.contains(x));
        let k = choose|k: int| 0 <= k < s2.len() && s2[k] == x;
        if k > 0 {
            let y = s2[0];
            assert(ranked(key(s2[0]), s2[0], key(s2[k]), s2[k]));
            lemma_rank_facts(y, x, y, key);
            lemma_rank_facts(x, y, x, key);
            assert(s2.to_set().contains(y));
            assert(s1.contains(y));
            let j = choose|j: int| 0 <= j < s1.len() && s1[j] == y;
            assert(ranked(key(s1[0]), s1[0], key(s1[j]), s1[j]));
            assert(false);
        }
        let t1 = s1.drop_first();
        let t2 = s2.drop_first();
        assert forall|i: int, j: int| 0 <= i < j < t1.len() implies ranked(
            key(#[trigger] t1[i]),
            t1[i],
            key(#[trigger] t1[j]),
            t1[j],
        ) by {
            assert(t1[i] == s1[i + 1] && t1[j] == s1[j + 1]);
        }
        assert forall|i: int, j: int| 0 <= i < j < t2.len() implies ranked(
            key(#[trigger] t2[i]),
            t2[i],
            key(#[trigger] t2[j]),
            t2[j],
        ) by {
            assert(t2[i] == s2[i + 1] && t2[j] == s2[j + 1]);
        }
        assert(t1.to_set() =~= t2.to_set()) by {
            assert forall|z: Seq<char>| t1.to_set().contains(z) implies t2.to_set().contains(z) by {
                let p = choose|p: int| 0 <= p < t1.len() && t1[p] == z;
                assert(s1[p + 1] == z);
                assert(ranked(key(s1[0]), s1[0], key(s1[p + 1]), s1[p + 1]));
                lemma_rank_facts(x, x, x, key);
                assert(s1.to_set().contains(z));
                assert(s2.contains(z));
                let q = choose|q: int| 0 <= q < s2.len() && s2[q] == z;
                assert(q != 0);
                assert(t2[q - 1] == z);
            }
            assert forall|z: Seq<char>| t2.to_set().contains(z) implies t1.to_set().contains(z) by {
                let p = choose|p: int| 0 <= p < t2.len() && t2[p] == z;
                assert(s2[p + 1] == z);
                assert(ranked(key(s2[0]), s2[0], key(s2[p + 1]), s2[p + 1]));
                lemma_rank_facts(x, x, x, key);
                assert(s2.to_set().contains(z));
                assert(s1.contains(z));
                let q = choose|q: int| 0 <= q < s1.len() && s1[q] == z;
                assert(q != 0);
                assert(t1[q - 1] == z);
            }
        }
        lemma_ranked_unique(t1, t2, key);
        assert forall|i: int| 0 <= i < s1.len() implies s1[i] == s2[i] by {
            if i > 0 {
                assert(s1[i] == t1[i - 1] && s2[i] == t2[i - 1]);
            }
        }
        assert(s1 =~= s2);
    }
}

/// The two breakdowns list the same models, in the same order, with the
/// same totals.
pub open spec fn same_breakdown(bs1: Seq<AgentModelBreakdown>, bs2: Seq<AgentModelBreakdown>) -> bool {
    &&& bs1.len() == bs2.len()
    &&& forall|j: int|
        0 <= j < bs1.len() ==> (#[trigger] bs1[j]).model_id@ == bs2[j].model_id@ && bs1[j].totals()
            == bs2[j].totals()
}

/// The two rows hold the same agent, totals, share and breakdown.
pub open spec fn same_row(r1: AgentUsageRow, r2: AgentUsageRow) -> bool {
    &&& r1.agent_id@ == r2.agent_id@
    &&& r1.totals() == r2.totals()
    &&& r1.percentage == r2.percentage
    &&& same_breakdown(r1.model_breakdown@, r2.model_breakdown@)
}

/// Totals over reordered groups agree.
proof fn lemma_summaries_agree(
    t1: UsageTotals,
    t2: UsageTotals,
    ev1: Seq<UsageRecord>,
    ev2: Seq<UsageRecord>,
    agent: Seq<char>,
    model: Option<Seq<char>>,
)
    requires
        reordered(ev1, ev2),
        summarizes(t1, group(ev1, agent, model)),
        summarizes(t2, group(ev2, agent, model)),
    ensures
        t1 == t2,
        t1.total_tokens == capped(exact_tokens(group(ev1, agent, model))),
{
    lemma_group_reordered(ev1, ev2, agent, model);
}

proof fn lemma_breakdown_unique(
    bs1: Seq<AgentModelBreakdown>,
    ev1: Seq<UsageRecord>,
    bs2: Seq<AgentModelBreakdown>,
    ev2: Seq<UsageRecord>,
    agent: Seq<char>,
)
    requires
        reordered(ev1, ev2),
        is_breakdown(bs1, ev1, agent),
        is_breakdown(bs2, ev2, agent),
    ensures
        same_breakdown(bs1, bs2),
{
    let key = |m: Seq<char>| capped(exact_tokens(group(ev1, agent, Some(m))));
    let ms1 = bs1.map_values(|b: AgentModelBreakdown| b.model_id@);
    let ms2 = bs2.map_values(|b: AgentModelBreakdown| b.model_id@);
    let models1 = model_set(group(ev1, agent, None));
    let models2 = model_set(group(ev2, agent, None));
    lemma_group_reordered(ev1, ev2, agent, None);
    assert(models1 == models2);
    assert forall|j: int| 0 <= j < bs1.len() implies #[trigger] bs1[j].tokens == key(ms1[j]) by {
        assert(models1.contains(bs1[j].model_id@));
        lemma_group_reordered(ev1, ev1, agent, Some(bs1[j].model_id@));
    }
    assert forall|j: int| 0 <= j < bs2.len() implies #[trigger] bs2[j].tokens == key(ms2[j]) by {
        assert(models2.contains(bs2[j].model_id@));
        lemma_group_reordered(ev1, ev2, agent, Some(bs2[j].model_id@));
    }
    assert(ranked_by(ms1, key)) by {
        assert forall|i: int, j: int| 0 <= i < j < ms1.len() implies ranked(
            key(#[trigger] ms1[i]),
            ms1[i],
            key(#[trigger] ms1[j]),
            ms1[j],
        ) by {
            assert(bs1[i].tokens == key(ms1[i]) && bs1[j].tokens == key(ms1[j]));
        }
    }
    assert(ranked_by(ms2, key)) by {
        assert forall|i: int, j: int| 0 <= i < j < ms2.len() implies ranked(
            key(#[trigger] ms2[i]),
            ms2[i],
            key(#[trigger] ms2[j]),
            ms2[j],
        ) by {
            assert(bs2[i].tokens == key(ms2[i]) && bs2[j].tokens == key(ms2[j]));
        }
    }
    assert(ms1.to_set() =~= ms2.to_set()) by {
        assert forall|m: Seq<char>| ms1.to_set().contains(m) implies ms2.to_set().contains(m) by {
            let p = choose|p: int| 0 <= p < ms1.len() && ms1[p] == m;
            assert(models1.contains(bs1[p].model_id@));
            let q = choose|q: int| 0 <= q < bs2.len() && bs2[q].model_id@ == m;
            assert(ms2[q] == m);
        }
        assert forall|m: Seq<char>| ms2.to_set().contains(m) implies ms1.to_set().contains(m) by {
            let p = choose|p: int| 0 <= p < ms2.len() && ms2[p] == m;
            assert(models2.contains(bs2[p].model_id@));
            let q = choose|q: int| 0 <= q < bs1.len() && bs1[q].model_id@ == m;
            assert(ms1[q] == m);
        }
    }
    lemma_ranked_unique(ms1, ms2, key);
    assert forall|j: int| 0 <= j < bs1.len() implies (#[trigger] bs1[j]).model_id@ == bs2[j].model_id@
        && bs1[j].totals() == bs2[j].totals() by {
        assert(ms1[j] == ms2[j]);
        assert(models1.contains(bs1[j].model_id@));
        assert(models2.contains(bs2[j].model_id@));
        lemma_summaries_agree(
            bs1[j].totals(),
            bs2[j].totals(),
            ev1,
            ev2,
            agent,
            Some(bs1[j].model_id@),
        );
    }
}

/// The per-agent rows do not depend on the order of the events: the same
/// events in any order give the same rows, in the same order, with the same
/// totals, shares and model breakdowns.
pub proof fn agent_table_ignores_event_order(
    rows1: Seq<AgentUsageRow>,
    ev1: Seq<UsageRecord>,
    rows2: Seq<AgentUsageRow>,
    ev2: Seq<UsageRecord>,
)
    requires
        reordered(ev1, ev2),
        is_agent_table(rows1, ev1),
        is_agent_table(rows2, ev2),
    ensures
        rows1.len() == rows2.len(),
        forall|i: int| 0 <= i < rows1.len() ==> same_row(#[trigger] rows1[i], rows2[i]),
{
    let key = |a: Seq<char>| capped(exact_tokens(group(ev1, a, None)));
    let ids1 = rows1.map_values(|r: AgentUsageRow| r.agent_id@);
    let ids2 = rows2.map_values(|r: AgentUsageRow| r.agent_id@);
    let agents1 = agent_set(ev1);
    let agents2 = agent_set(ev2);
    lemma_agents_reordered(ev1, ev2);
    assert forall|i: int| 0 <= i < rows1.len() implies #[trigger] rows1[i].total_tokens == key(
        ids1[i],
    ) by {
        assert(agents1.contains(rows1[i].agent_id@));
        lemma_group_reordered(ev1, ev1, rows1[i].agent_id@, None);
    }
    assert forall|i: int| 0 <= i < rows2.len() implies #[trigger] rows2[i].total_tokens == key(
        ids2[i],
    ) by {
        assert(agents2.contains(rows2[i].agent_id@));
        lemma_group_reordered(ev1, ev2, rows2[i].agent_id@, None);
    }
    assert(ranked_by(ids1, key)) by {
        assert forall|i: int, j: int| 0 <= i < j < ids1.len() implies ranked(
            key(#[trigger] ids1[i]),
            ids1[i],
            key(#[trigger] ids1[j]),
            ids1[j],
        ) by {
            assert(rows1[i].total_tokens == key(ids1[i]) && rows1[j].total_tokens == key(ids1[j]));
        }
    }
    assert(ranked_by(ids2, key)) by {
        assert forall|i: int, j: int| 0 <= i < j < ids2.len() implies ranked(
            key(#[trigger] ids2[i]),
            ids2[i],
            key(#[trigger] ids2[j]),
            ids2[j],
        ) by {
            assert(rows2[i].total_tokens == key(ids2[i]) && rows2[j].total_tokens == key(ids2[j]));
        }
    }
    assert(ids1.to_set() =~= ids2.to_set()) by {
        assert forall|a: Seq<char>| ids1.to_set().contains(a) implies ids2.to_set().contains(a) by {
            let p = choose|p: int| 0 <= p < ids1.len() && ids1[p] == a;
            assert(agents1.contains(rows1[p].agent_id@));
            let q = choose|q: int| 0 <= q < rows2.len() && rows2[q].agent_id@ == a;
            assert(ids2[q] == a);
        }
        assert forall|a: Seq<char>| ids2.to_set().contains(a) implies ids1.to_set().contains(a) by {
            let p = choose|p: int| 0 <= p < ids2.len() && ids2[p] == a;
            assert(agents2.contains(rows2[p].agent_id@));
            let q = choose|q: int| 0 <= q < rows1.len() && rows1[q].agent_id@ == a;
            assert(ids1[q] == a);
        }
    }
    lemma_ranked_unique(ids1, ids2, key);
    assert forall|i: int| 0 <= i < rows1.len() implies #[trigger] rows1[i].totals()
        == rows2[i].totals() by {
        assert(ids1[i] == ids2[i]);
        assert(agents1.contains(rows1[i].agent_id@));
        assert(agents2.contains(rows2[i].agent_id@));
        lemma_summaries_agree(
            rows1[i].totals(),
            rows2[i].totals(),
            ev1,
            ev2,
            rows1[i].agent_id@,
            None,
        );
    }
    let ts1 = rows1.map_values(|r: AgentUsageRow| r.total_tokens);
    let ts2 = rows2.map_values(|r: AgentUsageRow| r.total_tokens);
    assert(ts1 =~= ts2) by {
        assert forall|i: int| 0 <= i < ts1.len() implies ts1[i] == ts2[i] by {
            assert(rows1[i].totals() == rows2[i].totals());
        }
    }
    assert forall|i: int| 0 <= i < rows1.len() implies same_row(#[trigger] rows1[i], rows2[i]) by {
        assert(ids1[i] == ids2[i]);
        assert(rows1[i].totals() == rows2[i].totals());
        assert(agents1.contains(rows1[i].agent_id@));
        assert(agents2.contains(rows2[i].agent_id@));
        assert(rows1[i].percentage.pair() == rows2[i].percentage.pair());
        lemma_breakdown_unique(
            rows1[i].model_breakdown@,
            ev1,
            rows2[i].model_breakdown@,
            ev2,
            rows1[i].agent_id@,
        );
    }
}

} // verus!

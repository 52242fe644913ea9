//! Token usage records and the totals of a group of them.
use vstd::prelude::*;

verus! {

/// Tokens of one message: prompt input, generated output, and the prompt
/// cache read and written.
#[derive(Clone, Copy, Debug, PartialEq, Eq, Structural)]
pub struct TokenUsage {
    pub input: u64,
    pub output: u64,
    pub cache_read: u64,
    pub cache_write: u64,
}

/// One usage event, as far as the per-agent statistics read it: the agent
/// that sent it (if recorded), the model, the session, the tokens, and the
/// calendar day of the activity as a day number, if known.
#[derive(Clone, Debug)]
pub struct UsageRecord {
    pub agent: Option<String>,
    pub model_id: String,
    pub session_id: String,
    pub tokens: TokenUsage,
    pub activity_day: Option<i32>,
}

/// Totals over a group of usage records.
#[derive(Clone, Copy, Debug, PartialEq, Eq, Structural)]
pub struct UsageTotals {
    pub total_tokens: u64,
    pub input_tokens: u64,
    pub output_tokens: u64,
    pub cache_tokens: u64,
    pub sessions: usize,
    pub active_days: usize,
}

/// A sum clamped to `u64::MAX`, as repeated saturating additions give it.
pub open spec fn capped(n: nat) -> u64 {
    if n > u64::MAX {
        u64::MAX
    } else {
        n as u64
    }
}

/// The exact sums of input, output, cache-read and cache-write tokens.
pub open spec fn token_sums(s: Seq<UsageRecord>) -> (nat, nat, nat, nat)
    decreases s.len(),
{
    if s.len() == 0 {
        (0, 0, 0, 0)
    } else {
        let (i, o, r, w) = token_sums(s.drop_last());
        let t = s.last().tokens;
        (i + t.input as nat, o + t.output as nat, r + t.cache_read as nat, w + t.cache_write as nat)
    }
}

/// The distinct sessions of a group.
pub open spec fn session_set(s: Seq<UsageRecord>) -> Set<Seq<char>> {
    Set::new(|id: Seq<char>| exists|k: int| 0 <= k < s.len() && s[k].session_id@ == id)
}

/// The distinct known activity days of a group.
pub open spec fn day_set(s: Seq<UsageRecord>) -> Set<i32> {
    Set::new(|d: i32| exists|k: int| 0 <= k < s.len() && s[k].activity_day == Some(d))
}

/// `t` holds the totals of the records `s`: every token count is the
/// saturated sum over the records (the total counts all four kinds, the
/// cache count both cache kinds), and the session and day counts are the
/// numbers of distinct sessions and known days.
pub open spec fn summarizes(t: UsageTotals, s: Seq<UsageRecord>) -> bool {
    let (i, o, r, w) = token_sums(s);
    &&& t.total_tokens == capped(i + o + r + w)
    &&& t.input_tokens == capped(i)
    &&& t.output_tokens == capped(o)
    &&& t.cache_tokens == capped(r + w)
    &&& t.sessions == session_set(s).len()
    &&& t.active_days == day_set(s).len()
}

/// The label under which an event counts: its agent, or "unknown" when the
/// agent is missing or empty.
pub open spec fn agent_key(agent: Option<String>) -> Seq<char> {
    match agent {
        Some(a) => if a@.len() > 0 {
            a@
        } else {
            "unknown"@
        },
        None => "unknown"@,
    }
}

/// The event belongs to the agent and, if one is given, the model.
pub open spec fn in_group(e: UsageRecord, agent: Seq<char>, model: Option<Seq<char>>) -> bool {
    &&& agent_key(e.agent) == agent
    &&& match model {
        Some(m) => e.model_id@ == m,
        None => true,
    }
}

/// The events of an agent (and model), in their original order.
pub open spec fn group(evs: Seq<UsageRecord>, agent: Seq<char>, model: Option<Seq<char>>) -> Seq<
    UsageRecord,
>
    decreases evs.len(),
{
    if evs.len() == 0 {
        Seq::empty()
    } else {
        let g = group(evs.drop_last(), agent, model);
        if in_group(evs.last(), agent, model) {
            g.push(evs.last())
        } else {
            g
        }
    }
}

/// The agent label of an event.
pub fn agent_label(agent: &Option<String>) -> (r: String)
    ensures
        r@ == agent_key(*agent),
{
    match agent {
        Some(a) => {
            if a.as_str().is_empty() {
                String::from_str("unknown")
            } else {
                a.clone()
            }
        },
        None => String::from_str("unknown"),
    }
}

/// The views of a list of strings.
pub open spec fn views(v: Seq<String>) -> Seq<Seq<char>> {
    v.map_values(|s: String| s@)
}

/// Where `s` stands in `v`, if anywhere.
pub fn position_of(v: &Vec<String>, s: &String) -> (r: Option<usize>)
    ensures
        r is None <==> !views(v@).contains(s@),
        r matches Some(i) ==> i < v@.len() && v@[i as int]@ == s@,
{
    let mut i: usize = 0;
    while i < v.len()
        invariant
            i <= v@.len(),
            forall|k: int| 0 <= k < i ==> v@[k]@ != s@,
        decreases v@.len() - i,
    {
        if v[i] == *s {
            assert(views(v@)[i as int] == s@);
            return Some(i);
        }
        i = i + 1;
    }
    proof {
        if views(v@).contains(s@) {
            let k = choose|k: int| 0 <= k < views(v@).len() && views(v@)[k] == s@;
            assert(v@[k]@ == s@);
        }
    }
    None
}

/// Whether a list of day numbers holds `d`.
fn has_day(v: &Vec<i32>, d: i32) -> (r: bool)
    ensures
        r == v@.contains(d),
{
    let mut i: usize = 0;
    while i < v.len()
        invariant
            i <= v@.len(),
            forall|k: int| 0 <= k < i ==> v@[k] != d,
        decreases v@.len() - i,
    {
        if v[i] == d {
            return true;
        }
        i = i + 1;
    }
    false
}

/// The optional model label as a view.
pub open spec fn model_view(model: Option<&String>) -> Option<Seq<char>> {
    match model {
        Some(m) => Some(m@),
        None => None,
    }
}

proof fn lemma_group_step(evs: Seq<UsageRecord>, i: int, agent: Seq<char>, model: Option<Seq<char>>)
    requires
        0 <= i < evs.len(),
    ensures
        group(evs.take(i + 1), agent, model) == if in_group(evs[i], agent, model) {
            group(evs.take(i), agent, model).push(evs[i])
        } else {
            group(evs.take(i), agent, model)
        },
{
    assert(evs.take(i + 1).drop_last() =~= evs.take(i));
}

/// Totals of the events of `agent` (and of `model`, if given).
pub fn summarize(events: &Vec<UsageRecord>, agent: &String, model: Option<&String>) -> (t:
    UsageTotals)
    ensures
        summarizes(t, group(events@, agent@, model_view(model))),
{
    let ghost mv = model_view(model);
    let mut input: u64 = 0;
    let mut output: u64 = 0;
    let mut cache_read: u64 = 0;
    let mut cache_write: u64 = 0;
    let mut sessions: Vec<String> = Vec::new();
    let mut days: Vec<i32> = Vec::new();
    let mut i: usize = 0;
    proof {
        assert(group(events@.take(0), agent@, mv) =~= Seq::<UsageRecord>::empty());
        assert(views(sessions@).to_set() =~= session_set(Seq::<UsageRecord>::empty()));
        assert(days@.to_set() =~= day_set(Seq::<UsageRecord>::empty()));
    }
    while i < events.len()
        invariant
            i <= events@.len(),
            mv == model_view(model),
            ({
                let g = group(events@.take(i as int), agent@, mv);
                let (si, so, sr, sw) = token_sums(g);
                &&& input == capped(si)
                &&& output == capped(so)
                &&& cache_read == capped(sr)
                &&& cache_write == capped(sw)
                &&& views(sessions@).no_duplicates()
                &&& views(sessions@).to_set() == session_set(g)
                &&& days@.no_duplicates()
                &&& days@.to_set() == day_set(g)
            }),
        decreases events@.len() - i,
    {
        let e = &events[i];
        let label = agent_label(&e.agent);
        let belongs = label == *agent && match model {
            Some(m) => e.model_id == *m,
            None => true,
        };
        let ghost g0 = group(events@.take(i as int), agent@, mv);
        let ghost sv0 = views(sessions@);
        let ghost dv0 = days@;
        proof {
            lemma_group_step(events@, i as int, agent@, mv);
            assert(belongs == in_group(events@[i as int], agent@, mv));
        }
        if belongs {
            input = input.saturating_add(e.tokens.input);
            output = output.saturating_add(e.tokens.output);
            cache_read = cache_read.saturating_add(e.tokens.cache_read);
            cache_write = cache_write.saturating_add(e.tokens.cache_write);
            let g1 = Ghost(g0.push(events@[i as int]));
            proof {
                assert(g1@.drop_last() =~= g0);
                assert(session_set(g1@) =~= session_set(g0).insert(e.session_id@)) by {
                    assert forall|id: Seq<char>| session_set(g1@).contains(id) implies session_set(
                        g0,
                    ).insert(e.session_id@).contains(id) by {
                        let k = choose|k: int| 0 <= k < g1@.len() && g1@[k].session_id@ == id;
                        if k < g0.len() {
                            assert(g0[k] == g1@[k]);
                        }
                    }
                    assert forall|id: Seq<char>| session_set(g0).insert(e.session_id@).contains(id)
                        implies session_set(g1@).contains(id) by {
                        if id == e.session_id@ {
                            assert(g1@[g0.len() as int] == *e);
                        } else {
                            let k = choose|k: int| 0 <= k < g0.len() && g0[k].session_id@ == id;
                            assert(g1@[k] == g0[k]);
                        }
                    }
                }
                assert forall|d: i32| day_set(g1@).contains(d) <==> (day_set(g0).contains(d) || e.activity_day
                    == Some(d)) by {
                    if day_set(g1@).contains(d) {
                        let k = choose|k: int| 0 <= k < g1@.len() && g1@[k].activity_day == Some(d);
                        if k < g0.len() {
                            assert(g0[k] == g1@[k]);
                        }
                    }
                    if day_set(g0).contains(d) {
                        let k = choose|k: int| 0 <= k < g0.len() && g0[k].activity_day == Some(d);
                        assert(g1@[k] == g0[k]);
                    }
                    if e.activity_day == Some(d) {
                        assert(g1@[g0.len() as int] == *e);
                    }
                }
            }
            match position_of(&sessions, &e.session_id) {
                Some(_) => {
                    proof {
                        assert(session_set(g1@) =~= session_set(g0));
                    }
                },
                None => {
                    sessions.push(e.session_id.clone());
                    proof {
                        assert(views(sessions@) =~= sv0.push(e.session_id@));
                        sv0.lemma_push_to_set_commute(e.session_id@);
                    }
                },
            }
            match e.activity_day {
                Some(d) => {
                    if !has_day(&days, d) {
                        days.push(d);
                        proof {
                            dv0.lemma_push_to_set_commute(d);
                        }
                    }
                    proof {
                        assert(days@.to_set() =~= day_set(g1@));
                    }
                },
                None => {
                    proof {
                        assert(days@.to_set() =~= day_set(g1@));
                    }
                },
            }
        }
        i = i + 1;
    }
    proof {
        assert(events@.take(events@.len() as int) =~= events@);
    }
    let g = Ghost(group(events@, agent@, mv));
    let total = input.saturating_add(output).saturating_add(cache_read).saturating_add(cache_write);
    let cache = cache_read.saturating_add(cache_write);
    proof {
        views(sessions@).unique_seq_to_set();
        days@.unique_seq_to_set();
        assert(views(sessions@).len() == sessions@.len());
    }
    UsageTotals {
        total_tokens: total,
        input_tokens: input,
        output_tokens: output,
        cache_tokens: cache,
        sessions: sessions.len(),
        active_days: days.len(),
    }
}

} // verus!

//! What the agents view shows: the focused agent and model, the chart to
//! draw with its highlighted series, and the panel under the chart.
use vstd::prelude::*;
use crate::agents::AgentUsageRow;
use crate::headers::{effective_focus, focus_index, AgentChartMode};
use crate::search::SearchState;
use crate::usage::views;

verus! {

/// The chart of the agents view.
#[derive(Clone, Copy, Debug, PartialEq, Eq, Structural)]
pub enum AgentChart {
    /// The chart of all agents, with the series of the agent in this row
    /// highlighted, if any.
    Agents { highlight: Option<usize> },
    /// The per-model chart at this position among the agents' model charts,
    /// with the series of the model at this position of the focused agent's
    /// breakdown highlighted, if any.
    Models { chart: usize, highlight: Option<usize> },
}

/// The panel under the chart of the agents view.
#[derive(Clone, Copy, Debug, PartialEq, Eq, Structural)]
pub enum AgentPanel {
    /// The search overlay.
    Search,
    /// The header and details of the agent in this row.
    Agent(usize),
    /// The header and details of a model (row, position in its breakdown).
    Model(usize, usize),
    /// The agent's header and a note that it has no model data.
    NoModelData(usize),
    /// A note that no agent was active.
    NoActivity,
}

/// What the agents view shows.
#[derive(Clone, Copy, Debug, PartialEq, Eq, Structural)]
pub struct AgentsView {
    /// The row of the focused agent, if the focus falls on one.
    pub focus: Option<usize>,
    /// The position of the focused model in that agent's breakdown, if any.
    pub model: Option<usize>,
    pub chart: AgentChart,
    pub panel: AgentPanel,
}

/// `k` is the first position of `a` in `ids`.
pub open spec fn is_first_position(ids: Seq<Seq<char>>, a: Seq<char>, k: int) -> bool {
    &&& 0 <= k < ids.len()
    &&& ids[k] == a
    &&& forall|j: int| 0 <= j < k ==> ids[j] != a
}

/// The first position of `a` in `ids`, if it occurs.
pub open spec fn first_position(ids: Seq<Seq<char>>, a: Seq<char>) -> Option<int> {
    if exists|k: int| is_first_position(ids, a, k) {
        Some(choose|k: int| is_first_position(ids, a, k))
    } else {
        None
    }
}

/// What the agents view shows for the rows `agents`, the agents whose
/// per-model charts exist (`chart_ids`, in the order of those charts), the
/// agent and model focused by the arrow keys, the chart mode and the search.
pub open spec fn agents_view_of(
    agents: Seq<AgentUsageRow>,
    chart_ids: Seq<Seq<char>>,
    focused_agent_index: usize,
    mode: AgentChartMode,
    focused_model_index: usize,
    search: Option<SearchState>,
) -> AgentsView {
    let f = focus_index(search, focused_agent_index);
    let focus: Option<usize> = if f < agents.len() {
        Some(f)
    } else {
        None
    };
    let model: Option<usize> = match focus {
        Some(i) => if focused_model_index < agents[i as int].model_breakdown@.len() {
            Some(focused_model_index)
        } else {
            None
        },
        None => None,
    };
    let chart = match mode {
        AgentChartMode::AllAgents => AgentChart::Agents { highlight: focus },
        AgentChartMode::PerModel => match focus {
            Some(i) => match first_position(chart_ids, agents[i as int].agent_id@) {
                Some(c) => AgentChart::Models { chart: c as usize, highlight: model },
                None => AgentChart::Agents { highlight: None },
            },
            None => AgentChart::Agents { highlight: None },
        },
    };
    let panel = if search is Some {
        AgentPanel::Search
    } else {
        match focus {
            Some(i) => match mode {
                AgentChartMode::AllAgents => AgentPanel::Agent(i),
                AgentChartMode::PerModel => match model {
                    Some(m) => AgentPanel::Model(i, m),
                    None => AgentPanel::NoModelData(i),
                },
            },
            None => AgentPanel::NoActivity,
        }
    };
    AgentsView { focus, model, chart, panel }
}

/// Where an agent's per-model chart stands among the charts, if it has one.
fn chart_position(chart_ids: &[String], agent: &String) -> (r: Option<usize>)
    ensures
        r matches Some(k) ==> first_position(views(chart_ids@), agent@) == Some(k as int),
        r is None ==> first_position(views(chart_ids@), agent@) is None,
{
    let ghost ids = views(chart_ids@);
    let mut k: usize = 0;
    while k < chart_ids.len()
        invariant
            k <= chart_ids@.len(),
            ids == views(chart_ids@),
            forall|j: int| 0 <= j < k ==> ids[j] != agent@,
        decreases chart_ids@.len() - k,
    {
        if chart_ids[k] == *agent {
            proof {
                assert(ids[k as int] == agent@);
                assert(is_first_position(ids, agent@, k as int));
                let c = choose|c: int| is_first_position(ids, agent@, c);
                if c < k {
                    assert(ids[c] == agent@);
                }
                if c > k {
                    assert(ids[k as int] != agent@);
                }
            }
            return Some(k);
        }
        proof {
            assert(ids[k as int] != agent@);
        }
        k = k + 1;
    }
    None
}

/// Decides what the agents view shows: the focused row is the selected
/// match while a search is open, else the row focused by the arrow keys;
/// the chart is that of all agents, or in per-model mode the focused agent's
/// own chart (the chart of all agents, unhighlighted, when it has none); the
/// panel is the search overlay, the focused agent's or model's details, or
/// a note.
pub fn agents_view(
    agents: &[AgentUsageRow],
    chart_ids: &[String],
    focused_agent_index: usize,
    mode: AgentChartMode,
    focused_model_index: usize,
    search: Option<&SearchState>,
) -> (r: AgentsView)
    ensures
        r == agents_view_of(
            agents@,
            views(chart_ids@),
            focused_agent_index,
            mode,
            focused_model_index,
            match search {
                Some(s) => Some(*s),
                None => None,
            },
        ),
{
    let f = effective_focus(search, focused_agent_index);
    let focus: Option<usize> = if f < agents.len() {
        Some(f)
    } else {
        None
    };
    let model: Option<usize> = match focus {
        Some(i) => if focused_model_index < agents[i].model_breakdown.len() {
            Some(focused_model_index)
        } else {
            None
        },
        None => None,
    };
    let chart = match mode {
        AgentChartMode::AllAgents => AgentChart::Agents { highlight: focus },
        AgentChartMode::PerModel => match focus {
            Some(i) => match chart_position(chart_ids, &agents[i].agent_id) {
                Some(c) => AgentChart::Models { chart: c, highlight: model },
                None => AgentChart::Agents { highlight: None },
            },
            None => AgentChart::Agents { highlight: None },
        },
    };
    let panel = if search.is_some() {
        AgentPanel::Search
    } else {
        match focus {
            Some(i) => match mode {
                AgentChartMode::AllAgents => AgentPanel::Agent(i),
                AgentChartMode::PerModel => match model {
                    Some(m) => AgentPanel::Model(i, m),
                    None => AgentPanel::NoModelData(i),
                },
            },
            None => AgentPanel::NoActivity,
        }
    };
    AgentsView { focus, model, chart, panel }
}

/// The agents view focuses the selected search match while a search is open
/// (the arrow-key row when nothing is selected), else the arrow-key row,
/// provided that row exists; in all-agents mode the chart highlights exactly
/// that focused row.
pub proof fn all_agents_chart_highlights_the_focus(
    agents: Seq<AgentUsageRow>,
    chart_ids: Seq<Seq<char>>,
    focused_agent_index: usize,
    focused_model_index: usize,
    search: Option<SearchState>,
)
    ensures
        ({
            let v = agents_view_of(
                agents,
                chart_ids,
                focused_agent_index,
                AgentChartMode::AllAgents,
                focused_model_index,
                search,
            );
            let f: usize = match search {
                Some(s) => if s.selected < s.filtered_indices@.len() {
                    s.filtered_indices@[s.selected as int]
                } else {
                    focused_agent_index
                },
                None => focused_agent_index,
            };
            &&& v.focus == (if f < agents.len() {
                Some(f)
            } else {
                None
            })
            &&& v.chart == AgentChart::Agents { highlight: v.focus }
        }),
{
}

/// A label that occurs in a list has a first position there.
proof fn lemma_first_position_exists(ids: Seq<Seq<char>>, a: Seq<char>)
    requires
        ids.contains(a),
    ensures
        exists|k: int| is_first_position(ids, a, k),
    decreases ids.len(),
{
    let init = ids.drop_last();
    if init.contains(a) {
        lemma_first_position_exists(init, a);
        let k = choose|k: int| is_first_position(init, a, k);
        assert forall|j: int| 0 <= j < k implies ids[j] != a by {
            assert(ids[j] == init[j]);
        }
        assert(is_first_position(ids, a, k));
    } else {
        let k = ids.len() - 1;
        assert forall|j: int| 0 <= j < k implies ids[j] != a by {
            assert(ids[j] == init[j]);
            if ids[j] == a {
                assert(init.contains(a));
            }
        }
        let w = choose|w: int| 0 <= w < ids.len() && ids[w] == a;
        if w < k {
            assert(init[w] == a);
        }
        assert(is_first_position(ids, a, k));
    }
}

/// What panel and which model the agents view shows, and the per-model
/// chart: the search overlay while a search is open; otherwise the focused
/// agent's details in all-agents mode, its focused model's details in
/// per-model mode (a note when that model does not exist), and a note when
/// no agent is focused. The focused model is the arrow-key model when the
/// focused agent has it. In per-model mode the chart is the first of the
/// focused agent's own model charts, highlighting the focused model, and
/// the unhighlighted chart of all agents when there is no such chart.
pub proof fn agents_view_panel_and_per_model_chart(
    agents: Seq<AgentUsageRow>,
    chart_ids: Seq<Seq<char>>,
    focused_agent_index: usize,
    mode: AgentChartMode,
    focused_model_index: usize,
    search: Option<SearchState>,
)
    requires
        chart_ids.len() <= usize::MAX,
    ensures
        ({
            let v = agents_view_of(
                agents,
                chart_ids,
                focused_agent_index,
                mode,
                focused_model_index,
                search,
            );
            &&& search is Some ==> v.panel == AgentPanel::Search
            &&& search is None && v.focus is None ==> v.panel == AgentPanel::NoActivity
            &&& v.focus is None ==> v.model is None
            &&& v.focus matches Some(i) ==> i < agents.len() && v.model == (if focused_model_index
                < agents[i as int].model_breakdown@.len() {
                Some(focused_model_index)
            } else {
                None
            })
            &&& search is None && mode == AgentChartMode::AllAgents ==> (v.focus matches Some(i)
                ==> v.panel == AgentPanel::Agent(i))
            &&& search is None && mode == AgentChartMode::PerModel ==> (v.focus matches Some(i) ==> (
            v.model matches Some(m) ==> v.panel == AgentPanel::Model(i, m)) && (v.model is None
                ==> v.panel == AgentPanel::NoModelData(i)))
            &&& mode == AgentChartMode::PerModel ==> (v.chart matches AgentChart::Models {
                chart: c,
                highlight: h,
            } ==> v.focus matches Some(i) && is_first_position(
                chart_ids,
                agents[i as int].agent_id@,
                c as int,
            ) && h == v.model)
            &&& mode == AgentChartMode::PerModel ==> (v.focus matches Some(i) && chart_ids.contains(
                agents[i as int].agent_id@,
            ) ==> v.chart is Models)
            &&& mode == AgentChartMode::PerModel ==> (v.chart is Agents ==> v.chart
                == AgentChart::Agents { highlight: None })
        }),
{
    let v = agents_view_of(
        agents,
        chart_ids,
        focused_agent_index,
        mode,
        focused_model_index,
        search,
    );
    if mode == AgentChartMode::PerModel {
        if let Some(i) = v.focus {
            let a = agents[i as int].agent_id@;
            if chart_ids.contains(a) {
                lemma_first_position_exists(chart_ids, a);
            }
            if exists|k: int| is_first_position(chart_ids, a, k) {
                let c = choose|k: int| is_first_position(chart_ids, a, k);
                assert(is_first_position(chart_ids, a, c));
                assert(c < chart_ids.len());
                assert((c as usize) as int == c);
            }
        }
    }
}

} // verus!

//! The one-line headers above the detail panels of the agents, models and
//! providers views.
use vstd::prelude::*;
use crate::binary64::{fixed_string, fixed_text, well_formed, Binary64};
use crate::decimal::{decimal, decimal_string};
use crate::label::{truncate_label, truncated};
use crate::search::SearchState;

verus! {

/// Width, in characters, of the label in a focus header.
pub const FOCUS_LABEL_WIDTH: usize = 26;

/// Width, in characters, of the agent name in the chart mode line.
pub const MODE_LABEL_WIDTH: usize = 40;

/// The bullet and label that open a focus header.
pub open spec fn focus_label_text(id: Seq<char>) -> Seq<char> {
    "  ● "@ + truncated(id, FOCUS_LABEL_WIDTH as nat)
}

/// Opens a focus header with a bullet and the (shortened) label.
pub fn focus_label(id: &str) -> (s: String)
    ensures
        s@ == focus_label_text(id@),
{
    let mut s = String::from_str("  ● ");
    let label = truncate_label(id, FOCUS_LABEL_WIDTH);
    s.append(label.as_str());
    s
}

/// "position/count" of the focused entry, counting from one; the position is
/// clamped to the last entry and an empty list counts as one entry.
pub open spec fn position_text(index: nat, count: nat) -> Seq<char> {
    let total: nat = if count == 0 {
        1
    } else {
        count
    };
    let shown: nat = if index < total - 1 {
        index + 1
    } else {
        total
    };
    decimal(shown) + "/"@ + decimal(total)
}

/// Writes where the focused entry stands in its list.
pub fn focus_position(index: usize, count: usize) -> (s: String)
    ensures
        s@ == position_text(index as nat, count as nat),
{
    let total: usize = if count == 0 {
        1
    } else {
        count
    };
    let shown: usize = if index < total - 1 {
        index + 1
    } else {
        total
    };
    let mut s = decimal_string(shown as u128);
    s.append("/");
    let t = decimal_string(total as u128);
    s.append(t.as_str());
    s
}

/// A percentage in brackets, with two decimals.
pub open spec fn percent_label_text(p: (nat, int)) -> Seq<char> {
    "  ("@ + fixed_text(p, 2) + "%)"@
}

/// Writes "  (p%)" with two decimals.
pub fn percent_label(p: Binary64) -> (s: String)
    requires
        well_formed(p, -126, 20),
    ensures
        s@ == percent_label_text(p.pair()),
{
    let mut s = String::from_str("  (");
    let v = fixed_string(p, 2);
    s.append(v.as_str());
    s.append("%)");
    s
}

/// What the chart of the agents view plots.
#[derive(Clone, Copy, Debug, PartialEq, Eq, Structural)]
pub enum AgentChartMode {
    /// One series per agent.
    AllAgents,
    /// One series per model of the focused agent.
    PerModel,
}

/// The line that names the chart mode of the agents view.
pub open spec fn mode_indicator_text(mode: AgentChartMode, focused_agent: Option<Seq<char>>) -> Seq<
    char,
> {
    match mode {
        AgentChartMode::AllAgents => "  All agents"@,
        AgentChartMode::PerModel => match focused_agent {
            Some(agent) => "  Models used by "@ + truncated(agent, MODE_LABEL_WIDTH as nat),
            None => "  Per-model (no data)"@,
        },
    }
}

/// The optional agent label as a view.
pub open spec fn opt_str_view(s: Option<&str>) -> Option<Seq<char>> {
    match s {
        Some(v) => Some(v@),
        None => None,
    }
}

/// Writes the chart mode line of the agents view.
pub fn mode_indicator(mode: AgentChartMode, focused_agent: Option<&str>) -> (s: String)
    ensures
        s@ == mode_indicator_text(mode, opt_str_view(focused_agent)),
{
    match mode {
        AgentChartMode::AllAgents => String::from_str("  All agents"),
        AgentChartMode::PerModel => match focused_agent {
            Some(agent) => {
                let mut s = String::from_str("  Models used by ");
                let label = truncate_label(agent, MODE_LABEL_WIDTH);
                s.append(label.as_str());
                s
            },
            None => String::from_str("  Per-model (no data)"),
        },
    }
}

/// The entry a view focuses on: the selected match while a search is open
/// (when there is one), else the entry focused by the arrow keys.
pub open spec fn focus_index(search: Option<SearchState>, focused_index: usize) -> usize {
    match search {
        Some(s) => if s.selected < s.filtered_indices@.len() {
            s.filtered_indices@[s.selected as int]
        } else {
            focused_index
        },
        None => focused_index,
    }
}

/// Which entry a view focuses on.
pub fn effective_focus(search: Option<&SearchState>, focused_index: usize) -> (r: usize)
    ensures
        r == focus_index(
            match search {
                Some(s) => Some(*s),
                None => None,
            },
            focused_index,
        ),
{
    match search {
        Some(s) => {
            if s.selected < s.filtered_indices.len() {
                s.filtered_indices[s.selected]
            } else {
                focused_index
            }
        },
        None => focused_index,
    }
}

/// The counter of a focus header shows the focused position counting from
/// one, `index + 1` of `count` whenever the index lies in the list; past
/// the end it shows the last position, and an empty list counts as one.
pub proof fn focus_position_counts_from_one(index: nat, count: nat)
    ensures
        index < count ==> position_text(index, count) == decimal(index + 1) + "/"@ + decimal(count),
        index >= count && count > 0 ==> position_text(index, count) == decimal(count) + "/"@
            + decimal(count),
        count == 0 ==> position_text(index, count) == decimal(1) + "/"@ + decimal(1),
{
}

/// The chart mode line: in all-agents mode it reads "  All agents" whatever
/// agent is focused, or none; in per-model mode it names the focused agent,
/// and says "(no data)" only when no agent is focused.
pub proof fn mode_line_follows_the_mode(focused: Option<Seq<char>>, other: Option<Seq<char>>)
    ensures
        mode_indicator_text(AgentChartMode::AllAgents, focused) == "  All agents"@,
        mode_indicator_text(AgentChartMode::AllAgents, focused) == mode_indicator_text(
            AgentChartMode::AllAgents,
            other,
        ),
        focused is None ==> mode_indicator_text(AgentChartMode::PerModel, focused)
            == "  Per-model (no data)"@,
        focused matches Some(agent) ==> mode_indicator_text(AgentChartMode::PerModel, focused)
            == "  Models used by "@ + truncated(agent, MODE_LABEL_WIDTH as nat),
        mode_indicator_text(AgentChartMode::AllAgents, focused) != mode_indicator_text(
            AgentChartMode::PerModel,
            None,
        ),
{
    reveal_strlit("  All agents");
    reveal_strlit("  Per-model (no data)");
    assert("  All agents"@.len() != "  Per-model (no data)"@.len());
}

} // verus!

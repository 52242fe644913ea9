# oc-stats

A terminal dashboard for OpenCode token usage. The crate's library (`src/`)
holds the dashboard's logic, written in Verus with its behaviour stated in
`requires`/`ensures` contracts and proved:

- `usage`, `agents`, `ranking`, `accounting`, `reordering`: grouping usage
  events by agent and model, the per-agent totals, shares and model
  breakdowns, their ordering (most tokens first, ties by name), and the
  proofs that every token is counted in exactly one row and one breakdown
  entry and that the order of the events does not matter.
- `agents_view`, `search`, `overlay`, `headers`, `label`, `layout`: what the
  agents view shows, the search filter and its selection state, the search overlay's window, highlight and
  scrollbar, and the text of headers, labels and tabs.
- `formatting`, `binary64`, `binary64_order`, `decimal`, `money`: number, percentage and
  dollar formatting, proved against an exact model of binary64 rounding and
  printing (with the order facts behind "a share is at most 100%"), and of
  decimal rounding.
- `cache_update`, `cache_errors`, `db_errors`: the outcome messages of the
  `cache update` command, and the error types of the data and pricing
  loaders with their messages.

`app/` is the program around it: the command line, error printing and the
terminal drawing. `tests/` exercise the library, often against the
floating-point and decimal formatting of the standard library and
`rust_decimal`.

//! The incremental search over a list of labels: which items match a query,
//! and which part of the filtered list is on screen.
use vstd::prelude::*;

verus! {

/// Unicode lower-case mapping of a string, as `str::to_lowercase` computes it.
pub uninterp spec fn lowercase(s: Seq<char>) -> Seq<char>;

/// `str::to_lowercase` from std: the result is the lower-case mapping of the
/// argument's characters. The mapping itself (Unicode's tables) is left
/// unstated and named `lowercase`.
#[verifier::external_body]
pub(crate) fn to_lowercase(s: &str) -> (r: String)
    ensures
        r@ == lowercase(s@),
{
    s.to_lowercase()
}

/// `needle` occurs in `hay` starting at position `i`.
pub open spec fn occurs_at(hay: Seq<char>, needle: Seq<char>, i: int) -> bool {
    0 <= i && i + needle.len() <= hay.len() && hay.subrange(i, i + needle.len()) == needle
}

/// `needle` occurs somewhere in `hay` (always, for an empty `needle`).
pub open spec fn contains_chars(hay: Seq<char>, needle: Seq<char>) -> bool {
    exists|i: int| occurs_at(hay, needle, i)
}

/// The characters of a string, in order.
pub fn chars_of(s: &str) -> (v: Vec<char>)
    ensures
        v@ == s@,
{
    let n = s.unicode_len();
    let mut v: Vec<char> = Vec::new();
    let mut i: usize = 0;
    while i < n
        invariant
            n == s@.len(),
            i <= n,
            v@ == s@.take(i as int),
        decreases n - i,
    {
        v.push(s.get_char(i));
        assert(v@ =~= s@.take(i + 1));
        i = i + 1;
    }
    assert(v@ =~= s@);
    v
}

fn occurs_at_exec(hay: &Vec<char>, needle: &Vec<char>, i: usize) -> (b: bool)
    requires
        i + needle@.len() <= hay@.len(),
    ensures
        b == occurs_at(hay@, needle@, i as int),
{
    let mut j: usize = 0;
    while j < needle.len()
        invariant
            i + needle@.len() <= hay@.len(),
            j <= needle@.len(),
            forall|t: int| 0 <= t < j ==> hay@[i + t] == needle@[t],
        decreases needle@.len() - j,
    {
        assert(hay@.len() == hay.len());
        if hay[i + j] != needle[j] {
            assert(hay@.subrange(i as int, i + needle@.len())[j as int] != needle@[j as int]);
            return false;
        }
        j = j + 1;
    }
    assert(hay@.subrange(i as int, i + needle@.len()) =~= needle@);
    true
}

/// The first position at which `needle` occurs in `hay`.
pub fn find_chars(hay: &Vec<char>, needle: &Vec<char>) -> (r: Option<usize>)
    ensures
        r is None <==> !contains_chars(hay@, needle@),
        r matches Some(i) ==> occurs_at(hay@, needle@, i as int) && forall|j: int|
            0 <= j < i ==> !occurs_at(hay@, needle@, j),
{
    if needle.len() > hay.len() {
        return None;
    }
    let last = hay.len() - needle.len();
    let mut i: usize = 0;
    loop
        invariant
            last == hay@.len() - needle@.len(),
            i <= last,
            forall|j: int| 0 <= j < i ==> !occurs_at(hay@, needle@, j),
        decreases last - i,
    {
        if occurs_at_exec(hay, needle, i) {
            return Some(i);
        }
        if i == last {
            return None;
        }
        i = i + 1;
    }
}

/// The query keeps an item: an empty query keeps everything, any other
/// keeps the items whose lower-cased label contains the lower-cased query.
pub open spec fn matches_query(query: Seq<char>, name: Seq<char>) -> bool {
    query.len() == 0 || contains_chars(lowercase(name), lowercase(query))
}

/// The indices, in increasing order, of the items among the first `n` that
/// the query keeps.
pub open spec fn matching_indices(query: Seq<char>, items: Seq<String>, n: nat) -> Seq<usize>
    decreases n,
{
    if n == 0 {
        Seq::empty()
    } else {
        let before = matching_indices(query, items, (n - 1) as nat);
        if matches_query(query, items[n - 1]@) {
            before.push((n - 1) as usize)
        } else {
            before
        }
    }
}

/// The indices of the items whose label matches `query`, in order.
pub fn filter_indices(query: &str, items: &[String]) -> (r: Vec<usize>)
    ensures
        r@ == matching_indices(query@, items@, items@.len()),
{
    let everything = query.is_empty();
    let lower = chars_of(to_lowercase(query).as_str());
    let mut r: Vec<usize> = Vec::new();
    let mut i: usize = 0;
    while i < items.len()
        invariant
            i <= items@.len(),
            everything == (query@.len() == 0),
            lower@ == lowercase(query@),
            r@ == matching_indices(query@, items@, i as nat),
        decreases items@.len() - i,
    {
        let keep = if everything {
            true
        } else {
            let name = chars_of(to_lowercase(items[i].as_str()).as_str());
            find_chars(&name, &lower).is_some()
        };
        if keep {
            r.push(i);
        }
        i = i + 1;
    }
    r
}

/// What `filter_indices` returns is sorted, in range, and holds exactly the
/// items that the query keeps.
pub proof fn lemma_matching_indices(query: Seq<char>, items: Seq<String>, n: nat)
    requires
        n <= items.len(),
        n <= usize::MAX + 1,
    ensures
        forall|a: int, b: int|
            0 <= a < b < matching_indices(query, items, n).len() ==> matching_indices(
                query,
                items,
                n,
            )[a] < matching_indices(query, items, n)[b],
        forall|a: int|
            0 <= a < matching_indices(query, items, n).len() ==> matching_indices(query, items, n)[a]
                < n,
        forall|i: int|
            0 <= i < n ==> (matching_indices(query, items, n).contains(i as usize) <==> matches_query(
                query,
                items[i]@,
            )),
        matching_indices(query, items, n).len() <= n,
    decreases n,
{
    if n > 0 {
        lemma_matching_indices(query, items, (n - 1) as nat);
        let before = matching_indices(query, items, (n - 1) as nat);
        let after = matching_indices(query, items, n);
        assert forall|i: int| 0 <= i < n implies (after.contains(i as usize) <==> matches_query(
            query,
            items[i]@,
        )) by {
            if i < n - 1 {
                if after.contains(i as usize) {
                    let k = choose|k: int| 0 <= k < after.len() && after[k] == i as usize;
                    if k < before.len() {
                        assert(before.contains(i as usize));
                    }
                }
                if before.contains(i as usize) {
                    let k = choose|k: int| 0 <= k < before.len() && before[k] == i as usize;
                    assert(after[k] == i as usize);
                }
            } else {
                if matches_query(query, items[i]@) {
                    assert(after[after.len() - 1] == i as usize);
                } else if after.contains(i as usize) {
                    let k = choose|k: int| 0 <= k < after.len() && after[k] == i as usize;
                    assert(before[k] < n - 1);
                }
            }
        }
    }
}

/// The state of the search box of a list: the query typed so far, the labels
/// searched, the indices of the labels that match, the selected entry among
/// the matches, and the first match shown in the five-row window.
#[derive(Clone, Debug)]
pub struct SearchState {
    pub query: String,
    pub ids: Vec<String>,
    pub filtered_indices: Vec<usize>,
    pub selected: usize,
    pub scroll_offset: usize,
}

/// `a - b`, or zero when `b` is larger.
pub open spec fn saturating_sub(a: nat, b: nat) -> nat {
    if a >= b {
        (a - b) as nat
    } else {
        0
    }
}

/// The smaller of two numbers.
pub open spec fn min_nat(a: nat, b: nat) -> nat {
    if a <= b {
        a
    } else {
        b
    }
}

/// Number of rows the search overlay shows at once.
pub const VISIBLE_ROWS: usize = 5;

impl SearchState {
    /// The selected match lies in the window of rows on screen.
    pub open spec fn selection_visible(self) -> bool {
        self.scroll_offset <= self.selected < self.scroll_offset + VISIBLE_ROWS
    }

    /// The window starts within the matches and the selection is a match
    /// (or zero when nothing matches).
    pub open spec fn in_bounds(self) -> bool {
        let total = self.filtered_indices@.len();
        &&& self.scroll_offset <= saturating_sub(total, VISIBLE_ROWS as nat)
        &&& self.selected <= saturating_sub(total, 1)
    }

    /// `after` is `before` with the matches recomputed for its query and the
    /// selection and window pulled back within the new matches.
    pub open spec fn refiltered(before: SearchState, after: SearchState) -> bool {
        let total = after.filtered_indices@.len();
        &&& after.query@ == before.query@
        &&& after.ids@ == before.ids@
        &&& after.filtered_indices@ == matching_indices(before.query@, before.ids@, before.ids@.len())
        &&& after.selected == min_nat(before.selected as nat, saturating_sub(total, 1))
        &&& after.scroll_offset == min_nat(
            min_nat(before.scroll_offset as nat, saturating_sub(total, VISIBLE_ROWS as nat)),
            after.selected as nat,
        )
    }

    /// A search just opened over `ids` with `focused_index` focused: an empty
    /// query, every label matching, the focused label (or the last one)
    /// selected, and the window scrolled just far enough to show it.
    pub open spec fn freshly_opened(self, ids: Seq<String>, focused_index: usize) -> bool {
        &&& self.query@ == Seq::<char>::empty()
        &&& self.ids@ == ids
        &&& self.filtered_indices@ == Seq::new(ids.len(), |i: int| i as usize)
        &&& self.selected == min_nat(focused_index as nat, saturating_sub(ids.len(), 1))
        &&& self.scroll_offset == (if self.selected > 4 {
            self.selected - 4
        } else {
            0
        })
    }

    /// Opens a search over `ids`, with every label matching and the label at
    /// `focused_index` (or the last one) selected and shown.
    pub fn new(ids: Vec<String>, focused_index: usize) -> (s: Self)
        ensures
            s.freshly_opened(ids@, focused_index),
            s.selection_visible(),
            s.in_bounds(),
    {
        let total = ids.len();
        let selected = if focused_index < total.saturating_sub(1) {
            focused_index
        } else {
            total.saturating_sub(1)
        };
        let scroll_offset = if selected > 4 {
            selected - 4
        } else {
            0
        };
        let mut filtered_indices: Vec<usize> = Vec::new();
        let mut i: usize = 0;
        while i < total
            invariant
                total == ids@.len(),
                i <= total,
                filtered_indices@ == Seq::new(i as nat, |j: int| j as usize),
            decreases total - i,
        {
            filtered_indices.push(i);
            assert(filtered_indices@ =~= Seq::new((i + 1) as nat, |j: int| j as usize));
            i = i + 1;
        }
        SearchState { query: String::new(), ids, filtered_indices, selected, scroll_offset }
    }

    /// Recomputes the matches for the current query, then keeps the
    /// selection and the window within them.
    pub fn update_filter(&mut self)
        ensures
            SearchState::refiltered(*old(self), *final(self)),
            final(self).in_bounds(),
            old(self).selection_visible() ==> final(self).selection_visible(),
    {
        self.filtered_indices = filter_indices(self.query.as_str(), self.ids.as_slice());
        let filtered_total = self.filtered_indices.len();
        let last = filtered_total.saturating_sub(1);
        if self.selected > last {
            self.selected = last;
        }
        let window_start_limit = filtered_total.saturating_sub(5);
        if self.scroll_offset > window_start_limit {
            self.scroll_offset = window_start_limit;
        }
        if self.scroll_offset > self.selected {
            self.scroll_offset = self.selected;
        }
    }
}

/// Recomputing the matches a second time changes nothing.
pub proof fn update_filter_is_idempotent(a: SearchState, b: SearchState, c: SearchState)
    requires
        SearchState::refiltered(a, b),
        SearchState::refiltered(b, c),
    ensures
        c.query@ == b.query@,
        c.ids@ == b.ids@,
        c.filtered_indices@ == b.filtered_indices@,
        c.selected == b.selected,
        c.scroll_offset == b.scroll_offset,
{
}

/// Recomputing the matches keeps the selected match on screen.
pub proof fn update_filter_keeps_selection_visible(before: SearchState, after: SearchState)
    requires
        SearchState::refiltered(before, after),
        before.selection_visible(),
    ensures
        after.selection_visible(),
        after.in_bounds(),
{
}

/// An empty query keeps every item, in order.
proof fn lemma_empty_query_keeps_all(items: Seq<String>, n: nat)
    ensures
        matching_indices(Seq::empty(), items, n) == Seq::new(n, |i: int| i as usize),
    decreases n,
{
    if n > 0 {
        lemma_empty_query_keeps_all(items, (n - 1) as nat);
        assert(Seq::new((n - 1) as nat, |i: int| i as usize).push((n - 1) as usize) =~= Seq::new(
            n,
            |i: int| i as usize,
        ));
    } else {
        assert(matching_indices(Seq::empty(), items, 0) =~= Seq::new(0, |i: int| i as usize));
    }
}

/// Recomputing the matches of a search that was just opened changes nothing.
pub proof fn refiltering_a_new_search_changes_nothing(
    opened: SearchState,
    ids: Seq<String>,
    focused_index: usize,
    after: SearchState,
)
    requires
        opened.freshly_opened(ids, focused_index),
        SearchState::refiltered(opened, after),
    ensures
        after.query@ == opened.query@,
        after.ids@ == opened.ids@,
        after.filtered_indices@ == opened.filtered_indices@,
        after.selected == opened.selected,
        after.scroll_offset == opened.scroll_offset,
{
    lemma_empty_query_keeps_all(ids, ids.len());
}

/// Refiltering pulls the selection and the window back only as far as the
/// new matches require: the selection is the old one, or the last match if
/// it fell past the end; the window never moves down, never starts past the
/// selection or past the last full window, and among the starts that obey
/// these it is the latest. So a window that still fits the matches and still
/// shows the selection does not move.
pub proof fn refiltering_moves_the_window_only_as_needed(
    before: SearchState,
    after: SearchState,
    offset: nat,
)
    requires
        SearchState::refiltered(before, after),
    ensures
        after.filtered_indices@.len() > 0 ==> after.selected < after.filtered_indices@.len(),
        before.selected < after.filtered_indices@.len() ==> after.selected == before.selected,
        before.selected >= after.filtered_indices@.len() ==> after.selected == saturating_sub(
            after.filtered_indices@.len(),
            1,
        ),
        after.scroll_offset <= before.scroll_offset,
        after.scroll_offset <= after.selected,
        after.scroll_offset <= saturating_sub(after.filtered_indices@.len(), VISIBLE_ROWS as nat),
        offset <= before.scroll_offset && offset <= after.selected && offset <= saturating_sub(
            after.filtered_indices@.len(),
            VISIBLE_ROWS as nat,
        ) ==> offset <= after.scroll_offset,
        before.scroll_offset <= after.selected && before.scroll_offset <= saturating_sub(
            after.filtered_indices@.len(),
            VISIBLE_ROWS as nat,
        ) ==> after.scroll_offset == before.scroll_offset,
{
}

} // verus!


//! What the search overlay shows: the window of matches on screen, the hint
//! line, the part of a label that matches the query, and the scrollbar.
use vstd::prelude::*;
use vstd::utf8::encode_utf8;
use crate::binary64::{
    at_least_one, divide_u64, divide_u64_exec, floor_saturating, floor_saturating_exec, times_small,
    times_small_exec, value_parts,
};
use crate::decimal::{decimal, decimal_string};
use crate::search::{
    chars_of, contains_chars, find_chars, lemma_matching_indices, lowercase, matching_indices,
    occurs_at, to_lowercase, SearchState, VISIBLE_ROWS,
};

verus! {

/// The positions `[start, end)` of the matches shown, at most five from the
/// window start.
pub fn visible_window(search: &SearchState) -> (r: (usize, usize))
    requires
        search.scroll_offset <= search.filtered_indices@.len(),
    ensures
        r.0 == search.scroll_offset,
        r.1 == (if search.scroll_offset + VISIBLE_ROWS <= search.filtered_indices@.len() {
            search.scroll_offset + VISIBLE_ROWS
        } else {
            search.filtered_indices@.len() as int
        }),
{
    let total = search.filtered_indices.len();
    let start = search.scroll_offset;
    if total - start >= VISIBLE_ROWS {
        (start, start + VISIBLE_ROWS)
    } else {
        (start, total)
    }
}

/// The hint line: how many labels match out of how many, and the keys.
pub open spec fn hint_text(filtered_total: nat, item_count: nat) -> Seq<char> {
    decimal(filtered_total) + "/"@ + decimal(item_count) + " | ↑/↓ | <esc> quit | <enter> select"@
}

/// Writes the hint line of the overlay.
pub fn search_hint(filtered_total: usize, item_count: usize) -> (s: String)
    ensures
        s@ == hint_text(filtered_total as nat, item_count as nat),
{
    let mut s = decimal_string(filtered_total as u128);
    s.append("/");
    let n = decimal_string(item_count as u128);
    s.append(n.as_str());
    s.append(" | ↑/↓ | <esc> quit | <enter> select");
    s
}

/// A part of the label is highlighted for the query: the query is not empty
/// and, lower-cased, occurs in the lower-cased label.
pub open spec fn highlighted(id: Seq<char>, query: Seq<char>) -> bool {
    query.len() > 0 && contains_chars(lowercase(id), lowercase(query))
}

/// `needle` first occurs in `hay` at position `k`.
pub open spec fn first_occurrence(hay: Seq<char>, needle: Seq<char>, k: int) -> bool {
    &&& occurs_at(hay, needle, k)
    &&& forall|j: int| 0 <= j < k ==> !occurs_at(hay, needle, j)
}

/// The part of a label to highlight for a query, as byte offsets
/// `[start, end)` into the UTF-8 text of the lower-cased label (as
/// `str::find` and `str::len` count them): where the lower-cased query first
/// occurs, and the end of that occurrence. Nothing is highlighted for an
/// empty query or when the query does not occur.
pub fn highlight_span(id: &str, query: &str) -> (r: Option<(usize, usize)>)
    ensures
        r is Some <==> highlighted(id@, query@),
        r matches Some((start, end)) ==> exists|k: int|
            #![trigger first_occurrence(lowercase(id@), lowercase(query@), k)]
            {
                &&& first_occurrence(lowercase(id@), lowercase(query@), k)
                &&& start == encode_utf8(lowercase(id@).take(k)).len() as usize
                &&& end == encode_utf8(lowercase(id@).take(k + lowercase(query@).len())).len()
                    as usize
            },
{
    if query.is_empty() {
        return None;
    }
    let lower_text = to_lowercase(id);
    let lower_id = chars_of(lower_text.as_str());
    let lower_query = chars_of(to_lowercase(query).as_str());
    match find_chars(&lower_id, &lower_query) {
        Some(pos) => {
            let qlen = lower_query.len();
            let idlen = lower_id.len();
            assert(pos + qlen <= idlen);
            let start = lower_text.as_str().substring_char(0, pos).len();
            let end = lower_text.as_str().substring_char(0, pos + qlen).len();
            proof {
                assert(lower_text@.subrange(0, pos as int) =~= lowercase(id@).take(pos as int));
                assert(lower_text@.subrange(0, (pos + qlen) as int) =~= lowercase(id@).take(
                    pos + lowercase(query@).len(),
                ));
                assert(first_occurrence(lowercase(id@), lowercase(query@), pos as int));
            }
            Some((start, end))
        },
        None => None,
    }
}

/// With a non-empty query, the overlay highlights part of exactly the labels
/// that the filter keeps.
pub proof fn kept_labels_are_highlighted(query: Seq<char>, items: Seq<String>, i: int)
    requires
        query.len() > 0,
        0 <= i < items.len(),
        items.len() <= usize::MAX,
    ensures
        matching_indices(query, items, items.len()).contains(i as usize) <==> highlighted(
            items[i]@,
            query,
        ),
{
    lemma_matching_indices(query, items, items.len());
}

/// Height of the scrollbar thumb, in rows, for `filtered_total` matches:
/// `(25.0 / filtered_total as f64).max(1.0) as usize` in binary64.
pub open spec fn thumb_size(filtered_total: nat) -> u64 {
    let q = divide_u64(25, filtered_total);
    if at_least_one(q) {
        floor_saturating(q)
    } else {
        1
    }
}

/// First row of the scrollbar thumb:
/// `((offset as f64 / (total - 5) as f64) * (5.0 - size as f64)) as usize`
/// in binary64, where a negative product counts as zero.
pub open spec fn thumb_start(filtered_total: nat, scroll_offset: nat, size: u64) -> u64 {
    if size >= 5 {
        0
    } else {
        floor_saturating(
            times_small(divide_u64(scroll_offset, (filtered_total - 5) as nat), (5 - size) as nat),
        )
    }
}

/// The scrollbar thumb `(start, size)`, shown when more than five labels
/// match.
pub fn scrollbar_thumb(filtered_total: usize, scroll_offset: usize) -> (r: Option<(u64, u64)>)
    ensures
        filtered_total <= 5 ==> r is None,
        filtered_total > 5 ==> (r matches Some((start, size)) && size == thumb_size(
            filtered_total as nat,
        ) && start == thumb_start(filtered_total as nat, scroll_offset as nat, size)),
{
    if filtered_total <= 5 {
        return None;
    }
    let q = divide_u64_exec(25, filtered_total as u64);
    let (n, d) = value_parts(q);
    let size = if n >= d {
        floor_saturating_exec(q)
    } else {
        1
    };
    let start = if size >= 5 {
        0
    } else {
        let ratio = divide_u64_exec(scroll_offset as u64, (filtered_total - 5) as u64);
        floor_saturating_exec(times_small_exec(ratio, 5 - size))
    };
    Some((start, size))
}

/// The row `line` lies in the thumb that starts at `start` and is `size` rows high.
pub fn thumb_covers(start: u64, size: u64, line: u64) -> (r: bool)
    ensures
        r == (start <= line && line < start + size),
{
    line >= start && line - start < size
}

} // verus!

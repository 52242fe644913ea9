//! Labels shortened to fit a column.
use vstd::prelude::*;

verus! {

/// The three dots that mark a label cut short.
pub open spec fn ellipsis() -> Seq<char> {
    seq!['.', '.', '.']
}

/// A label of at most `max_chars` characters is shown as it is; a longer one
/// keeps its first `max_chars - 3` characters (none when `max_chars < 3`) and
/// ends in three dots.
pub open spec fn truncated(value: Seq<char>, max_chars: nat) -> Seq<char> {
    if value.len() <= max_chars {
        value
    } else {
        let keep: int = if max_chars >= 3 { max_chars - 3 } else { 0 };
        value.take(keep) + ellipsis()
    }
}

/// Shortens `value` to fit in `max_chars` characters, marking a cut with "...".
pub fn truncate_label(value: &str, max_chars: usize) -> (out: String)
    ensures
        out@ == truncated(value@, max_chars as nat),
{
    let count = value.unicode_len();
    if count <= max_chars {
        return String::from_str(value);
    }
    let keep = max_chars.saturating_sub(3);
    let mut out = String::from_str(value.substring_char(0, keep));
    out.append("...");
    proof {
        reveal_strlit("...");
    }
    out
}

/// A label that fits is shown whole; a label that does not fit is cut to
/// exactly the width (three characters when the width is smaller), keeping
/// its beginning and ending in three dots.
pub proof fn truncation_keeps_the_start_within_the_width(value: Seq<char>, max_chars: nat)
    ensures
        value.len() <= max_chars ==> truncated(value, max_chars) == value,
        value.len() > max_chars && max_chars >= 3 ==> {
            &&& truncated(value, max_chars).len() == max_chars
            &&& truncated(value, max_chars).take(max_chars - 3) == value.take(max_chars - 3)
            &&& truncated(value, max_chars).skip(max_chars - 3) == seq!['.', '.', '.']
        },
        value.len() > max_chars && max_chars < 3 ==> truncated(value, max_chars) == seq![
            '.',
            '.',
            '.',
        ],
{
    if value.len() > max_chars {
        let keep: int = if max_chars >= 3 {
            max_chars - 3
        } else {
            0
        };
        let t = truncated(value, max_chars);
        assert(t.take(keep) =~= value.take(keep));
        assert(t.skip(keep) =~= seq!['.', '.', '.']);
        if max_chars < 3 {
            assert(t =~= seq!['.', '.', '.']);
        }
    }
}

} // verus!

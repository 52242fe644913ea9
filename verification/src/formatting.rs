//! Human-readable renderings of token counts.
use vstd::prelude::*;
use vstd::arithmetic::power2::pow2;
use crate::binary64::{
    divide_u64, divide_u64_exec, fixed_string, fixed_text, from_u64, lemma_pow2_values, quotient,
    quotient_binary64, times_small, times_small_exec, value_den, value_num, well_formed, Binary64,
};
use crate::binary64_order::{lemma_from_u64_ordered, lemma_nearest_at_most, lemma_value_den_pos};
use crate::decimal::{decimal, decimal_string};

verus! {

/// Reading speed: tokens read in a minute.
pub const MIN_READING: u64 = 300;
/// Tokens read in an hour.
pub const HOUR_READING: u64 = MIN_READING * 60;
/// Tokens read in a cozy day of four hours.
pub const DAY_COZY_READING: u64 = HOUR_READING * 4;
/// Tokens in a handwritten letter.
pub const LETTER: u64 = 600;
/// Tokens in a filled notebook.
pub const NOTEBOOK: u64 = 30_000;
/// Tokens in a thick novel.
pub const NOVEL: u64 = 150_000;
/// Tokens on a packed bookshelf of forty novels.
pub const BOOKSHELF: u64 = NOVEL * 40;
/// Tokens in a town library of fifty thousand books.
pub const TOWN_LIBRARY: u64 = NOVEL * 50_000;
/// Tokens in a national library of twenty million books.
pub const NATIONAL_LIBRARY: u64 = NOVEL * 20_000_000;
/// Tokens journaled in a year.
pub const YEAR_JOURNALING: u64 = 250_000;
/// Tokens spoken in a year.
pub const YEAR_SPEAKING: u64 = 7_500_000;
/// Tokens spoken in a lifetime of eighty years.
pub const LIFETIME_SPEAKING: u64 = YEAR_SPEAKING * 80;
/// Tokens spoken in a millennium.
pub const MILLENNIUM_SPEAKING: u64 = YEAR_SPEAKING * 1000;
/// Tokens spoken in an epoch of a hundred thousand years.
pub const EPOCH_CIVILIZATION: u64 = YEAR_SPEAKING * 100_000;

/// `value / unit` as a binary64 quotient with two decimals, followed by `suffix`.
pub open spec fn scaled_text(value: nat, unit: nat, suffix: char) -> Seq<char> {
    fixed_text(quotient_binary64(value, unit), 2).push(suffix)
}

/// The compact token count: plain below a thousand, else thousands,
/// millions or billions with two decimals and a `K`, `M` or `B` suffix.
pub open spec fn tokens_text(value: nat) -> Seq<char> {
    if value <= 999 {
        decimal(value)
    } else if value <= 999_999 {
        scaled_text(value, 1000, 'K')
    } else if value <= 999_999_999 {
        scaled_text(value, 1_000_000, 'M')
    } else {
        scaled_text(value, 1_000_000_000, 'B')
    }
}

/// Formats a token count compactly, e.g. 1234 as "1.23K".
pub fn format_tokens(value: u64) -> (s: String)
    ensures
        s@ == tokens_text(value as nat),
{
    if value <= 999 {
        return decimal_string(value as u128);
    }
    let (unit, suffix): (u64, &str) = if value <= 999_999 {
        (1000, "K")
    } else if value <= 999_999_999 {
        (1_000_000, "M")
    } else {
        (1_000_000_000, "B")
    };
    let q = quotient(value, unit);
    let mut s = fixed_string(q, 2);
    s.append(suffix);
    proof {
        reveal_strlit("K");
        reveal_strlit("M");
        reveal_strlit("B");
    }
    s
}

/// `prefix`, the first quotient, `middle`, the second quotient, `suffix`.
pub open spec fn two_figures(
    prefix: Seq<char>,
    first: (nat, int),
    first_decimals: nat,
    middle: Seq<char>,
    second: (nat, int),
    second_decimals: nat,
    suffix: Seq<char>,
) -> Seq<char> {
    prefix + fixed_text(first, first_decimals) + middle + fixed_text(second, second_decimals) + suffix
}

/// The sentence comparing `total` tokens with everyday reading and writing:
/// the range that `total` falls in picks two yardsticks, and the sentence
/// gives `total` divided by each (as binary64 quotients) with the decimals
/// shown.
pub open spec fn comparison_text(total: nat) -> Seq<char> {
    let t = total;
    if t == 0 {
        "No activity yet. Start a conversation!"@
    } else if t < 10_000 {
        two_figures(
            "About "@,
            quotient_binary64(t, LETTER as nat),
            1,
            " handwritten letters, or "@,
            quotient_binary64(t, MIN_READING as nat),
            0,
            " mins of reading."@,
        )
    } else if t < 250_000 {
        two_figures(
            "Roughly "@,
            quotient_binary64(t, NOTEBOOK as nat),
            1,
            " filled notebooks, or "@,
            quotient_binary64(t, HOUR_READING as nat),
            1,
            " hours of reading."@,
        )
    } else if t < 5_000_000 {
        two_figures(
            "Around "@,
            quotient_binary64(t, NOVEL as nat),
            1,
            " thick novels, or "@,
            quotient_binary64(t, DAY_COZY_READING as nat),
            1,
            " days of cozy reading."@,
        )
    } else if t < 50_000_000 {
        two_figures(
            "Like "@,
            quotient_binary64(t, BOOKSHELF as nat),
            1,
            " packed bookshelves, or "@,
            quotient_binary64(t, YEAR_JOURNALING as nat),
            1,
            " years of journaling."@,
        )
    } else if t < 5_000_000_000 {
        two_figures(
            "About "@,
            quotient_binary64(t, YEAR_SPEAKING as nat),
            1,
            " years of daily speaking, or "@,
            quotient_binary64(t, LIFETIME_SPEAKING as nat),
            2,
            " lifetimes of words."@,
        )
    } else if t < 500_000_000_000 {
        two_figures(
            "Like "@,
            quotient_binary64(t, TOWN_LIBRARY as nat),
            2,
            " town libraries, or "@,
            quotient_binary64(t, MILLENNIUM_SPEAKING as nat),
            1,
            " millennia of human speech."@,
        )
    } else {
        two_figures(
            "Roughly "@,
            quotient_binary64(t, NATIONAL_LIBRARY as nat),
            2,
            " national libraries, or "@,
            quotient_binary64(t, EPOCH_CIVILIZATION as nat),
            2,
            " epochs of civilization."@,
        )
    }
}

fn two_figures_string(
    prefix: &str,
    first: Binary64,
    first_decimals: u32,
    middle: &str,
    second: Binary64,
    second_decimals: u32,
    suffix: &str,
) -> (s: String)
    requires
        first.mant <= 0x20_0000_0000_0000,
        -126 <= first.exp <= 12,
        second.mant <= 0x20_0000_0000_0000,
        -126 <= second.exp <= 12,
        first_decimals <= 4,
        second_decimals <= 4,
    ensures
        s@ == two_figures(
            prefix@,
            first.pair(),
            first_decimals as nat,
            middle@,
            second.pair(),
            second_decimals as nat,
            suffix@,
        ),
{
    let mut s = String::from_str(prefix);
    let a = fixed_string(first, first_decimals);
    s.append(a.as_str());
    s.append(middle);
    let b = fixed_string(second, second_decimals);
    s.append(b.as_str());
    s.append(suffix);
    s
}

/// Compares a token total with everyday reading, writing and speaking.
pub fn tokens_comparison_text(total_tokens: u64) -> (s: String)
    ensures
        s@ == comparison_text(total_tokens as nat),
{
    let t = total_tokens;
    if t == 0 {
        String::from_str("No activity yet. Start a conversation!")
    } else if t < 10_000 {
        two_figures_string(
            "About ",
            quotient(t, LETTER),
            1,
            " handwritten letters, or ",
            quotient(t, MIN_READING),
            0,
            " mins of reading.",
        )
    } else if t < 250_000 {
        two_figures_string(
            "Roughly ",
            quotient(t, NOTEBOOK),
            1,
            " filled notebooks, or ",
            quotient(t, HOUR_READING),
            1,
            " hours of reading.",
        )
    } else if t < 5_000_000 {
        two_figures_string(
            "Around ",
            quotient(t, NOVEL),
            1,
            " thick novels, or ",
            quotient(t, DAY_COZY_READING),
            1,
            " days of cozy reading.",
        )
    } else if t < 50_000_000 {
        two_figures_string(
            "Like ",
            quotient(t, BOOKSHELF),
            1,
            " packed bookshelves, or ",
            quotient(t, YEAR_JOURNALING),
            1,
            " years of journaling.",
        )
    } else if t < 5_000_000_000 {
        two_figures_string(
            "About ",
            quotient(t, YEAR_SPEAKING),
            1,
            " years of daily speaking, or ",
            quotient(t, LIFETIME_SPEAKING),
            2,
            " lifetimes of words.",
        )
    } else if t < 500_000_000_000 {
        two_figures_string(
            "Like ",
            quotient(t, TOWN_LIBRARY),
            2,
            " town libraries, or ",
            quotient(t, MILLENNIUM_SPEAKING),
            1,
            " millennia of human speech.",
        )
    } else {
        two_figures_string(
            "Roughly ",
            quotient(t, NATIONAL_LIBRARY),
            2,
            " national libraries, or ",
            quotient(t, EPOCH_CIVILIZATION),
            2,
            " epochs of civilization.",
        )
    }
}

/// `part` as a percentage of `total`, computed in binary64 as
/// `(part as f64 / total as f64) * 100.0`; zero when `total` is zero.
pub open spec fn percentage_value(part: nat, total: nat) -> (nat, int) {
    if total == 0 {
        (0, 0)
    } else {
        times_small(divide_u64(part, total), 100)
    }
}

/// The share of `part` in `total`, in percent.
pub fn percentage(part: u64, total: u64) -> (r: Binary64)
    ensures
        r.pair() == percentage_value(part as nat, total as nat),
        well_formed(r, -126, 20),
{
    if total == 0 {
        Binary64 { mant: 0, exp: 0 }
    } else {
        times_small_exec(divide_u64_exec(part, total), 100)
    }
}

/// A share is at most one hundred percent: when `part <= total`, the value
/// of `percentage(part, total)` is at most 100.
pub proof fn percentage_at_most_hundred(part: u64, total: u64)
    requires
        part <= total,
    ensures
        value_num(percentage_value(part as nat, total as nat)) <= 100 * value_den(
            percentage_value(part as nat, total as nat),
        ),
{
    if total > 0 {
        let x = from_u64(part as nat);
        let y = from_u64(total as nat);
        lemma_from_u64_ordered(part as nat, total as nat);
        lemma_value_den_pos(x);
        assert(value_num(y) > 0);
        assert(value_den(x) * value_num(y) > 0) by (nonlinear_arith)
            requires
                value_den(x) > 0,
                value_num(y) > 0,
        ;
        assert(value_num(x) * value_den(y) <= 1 * (value_den(x) * value_num(y))) by (
        nonlinear_arith)
            requires
                value_num(x) * value_den(y) <= value_num(y) * value_den(x),
        ;
        lemma_nearest_at_most(value_num(x) * value_den(y), value_den(x) * value_num(y), 1);
        let q = divide_u64(part as nat, total as nat);
        lemma_value_den_pos(q);
        assert(value_num(q) * 100 <= 100 * value_den(q));
        lemma_nearest_at_most(value_num(q) * 100, value_den(q), 100);
    } else {
        lemma_value_den_pos((0nat, 0int));
        lemma_pow2_values();
        assert(value_num((0nat, 0int)) == 0 * pow2(0));
    }
}

/// The value lies in the range that `percentage` produces and that
/// `percentage_text` prints.
pub fn printable(p: Binary64) -> (r: bool)
    ensures
        r == well_formed(p, -126, 20),
{
    (p.mant == 0 && p.exp == 0) || (0x10_0000_0000_0000 <= p.mant && p.mant
        <= 0x20_0000_0000_0000 && -126 <= p.exp && p.exp <= 20)
}

/// A percentage with two decimals, as `format!("{:.2}", p)` prints it.
pub fn percentage_text(p: Binary64) -> (s: String)
    requires
        well_formed(p, -126, 20),
    ensures
        s@ == fixed_text(p.pair(), 2),
{
    fixed_string(p, 2)
}

} // verus!

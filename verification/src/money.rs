//! Cost amounts in US dollars and their display.
use vstd::prelude::*;
use rust_decimal::Decimal;
use crate::binary64::round_half_even;
use crate::decimal::{decimal, fixed_point, pow10};

verus! {

/// Largest magnitude of a decimal significand: 2^96 - 1.
pub const MAX_MANTISSA: i128 = 0xffff_ffff_ffff_ffff_ffff_ffff;

/// Largest number of decimal places.
pub const MAX_SCALE: u32 = 28;

/// A decimal number `mantissa / 10^scale`, as a `rust_decimal::Decimal`
/// holds it.
#[derive(Clone, Copy, Debug, PartialEq, Eq, Structural)]
pub struct DecimalValue {
    pub mantissa: i128,
    pub scale: u32,
}

impl DecimalValue {
    /// The significand and scale lie in the range a `Decimal` can hold.
    pub open spec fn valid(self) -> bool {
        &&& self.scale <= MAX_SCALE
        &&& -MAX_MANTISSA <= self.mantissa <= MAX_MANTISSA
    }

    /// Tells whether the value lies in the range a `Decimal` can hold.
    pub fn in_range(self) -> (r: bool)
        ensures
            r == self.valid(),
    {
        self.scale <= MAX_SCALE && -MAX_MANTISSA <= self.mantissa && self.mantissa <= MAX_MANTISSA
    }
}

/// The magnitude of an integer.
pub open spec fn magnitude(m: int) -> nat {
    if m < 0 {
        (-m) as nat
    } else {
        m as nat
    }
}

/// `d` rounded to `dp` decimal places, a midpoint going to the even
/// neighbour (the sign kept, the magnitude rounded).
pub open spec fn rounded(d: DecimalValue, dp: nat) -> DecimalValue {
    if d.scale <= dp {
        d
    } else {
        let r = round_half_even(magnitude(d.mantissa as int), pow10((d.scale - dp) as nat));
        DecimalValue { mantissa: (if d.mantissa < 0 { -(r as int) } else { r as int }) as i128, scale: dp as u32 }
    }
}

/// How a decimal prints with `precision` places when it has no more places
/// than that: a minus sign for a negative value, then the digits.
pub open spec fn decimal_text(d: DecimalValue, precision: nat) -> Seq<char> {
    let digits = fixed_point(
        magnitude(d.mantissa as int) * pow10((precision - d.scale) as nat),
        precision,
    );
    if d.mantissa < 0 {
        seq!['-'] + digits
    } else {
        digits
    }
}

/// `Decimal::round_dp` from rust_decimal: rounds to `dp` places with
/// midpoints to even (`MidpointNearestEven`); a value with no more than `dp`
/// places comes back unchanged. Stated over the significand and scale.
#[verifier::external_body]
fn round_dp(d: DecimalValue, dp: u32) -> (r: DecimalValue)
    requires
        d.valid(),
        dp <= MAX_SCALE,
    ensures
        r == rounded(d, dp as nat),
        r.valid(),
{
    let x = Decimal::from_i128_with_scale(d.mantissa, d.scale).round_dp(dp);
    DecimalValue { mantissa: x.mantissa(), scale: x.scale() }
}

/// The number of digits of the whole part of `d` ("0" counting as one).
pub open spec fn whole_digits(d: DecimalValue) -> nat {
    decimal(magnitude(d.mantissa as int) / pow10(d.scale as nat)).len()
}

/// Printed with `precision` places, `d` takes at most 32 characters besides
/// its sign: the whole digits, and the point and places when there are
/// places.
pub open spec fn fits_display(d: DecimalValue, precision: nat) -> bool {
    whole_digits(d) + (if precision > 0 {
        precision + 1
    } else {
        0
    }) <= 32
}

/// `Display` of rust_decimal's `Decimal` with a precision at least its
/// scale: an optional minus sign, the whole part, and exactly `precision`
/// places (the digits of the value, then zeros). It builds the digits in a
/// fixed buffer of 32 characters and panics on a value that does not fit,
/// which `requires` leaves out.
#[verifier::external_body]
fn display_with_precision(d: DecimalValue, precision: u32) -> (s: String)
    requires
        d.valid(),
        d.scale <= precision <= MAX_SCALE,
        fits_display(d, precision as nat),
    ensures
        s@ == decimal_text(d, precision as nat),
{
    let x = Decimal::from_i128_with_scale(d.mantissa, d.scale);
    format!("{:.*}", precision as usize, x)
}

/// `d >= 1`.
pub open spec fn at_least_one(d: DecimalValue) -> bool {
    d.mantissa >= pow10(d.scale as nat)
}

/// A dollar amount prints: amounts from one dollar up and zero always do;
/// an amount below one dollar does when, rounded to four places, its whole
/// part has at most 27 digits (which rules out debts of 10^27 dollars and
/// more).
pub open spec fn usd_printable(d: DecimalValue) -> bool {
    at_least_one(d) || d.mantissa == 0 || fits_display(rounded(d, 4), 4)
}

/// A dollar amount: two places from one dollar up, "$0.00" for zero, and
/// four places for the small amounts in between (and below zero).
pub open spec fn usd_text(d: DecimalValue) -> Seq<char> {
    if at_least_one(d) {
        "$"@ + decimal_text(rounded(d, 2), 2)
    } else if d.mantissa == 0 {
        "$0.00"@
    } else {
        "$"@ + decimal_text(rounded(d, 4), 4)
    }
}

fn pow10_i128(p: u32) -> (r: i128)
    requires
        p <= MAX_SCALE,
    ensures
        r == pow10(p as nat),
        r >= 1,
{
    let mut r: i128 = 1;
    let mut i: u32 = 0;
    while i < p
        invariant
            i <= p <= MAX_SCALE,
            r == pow10(i as nat),
            1 <= r <= pow10(i as nat),
            pow10(i as nat) <= 10000000000000000000000000000,
        decreases p - i,
    {
        proof {
            lemma_pow10_bound((i + 1) as nat);
        }
        r = r * 10;
        i = i + 1;
    }
    r
}

proof fn lemma_pow10_bound(p: nat)
    requires
        p <= 28,
    ensures
        pow10(p) <= 10000000000000000000000000000,
        pow10(p) >= 1,
    decreases p,
{
    if p > 0 {
        lemma_pow10_bound((p - 1) as nat);
        let q = pow10((p - 1) as nat);
        assert(pow10(p) == 10 * q);
        if p < 28 {
            lemma_pow10_monotone((p - 1) as nat, 27);
            reveal_with_fuel(pow10, 28);
        }
    }
}

proof fn lemma_pow10_monotone(a: nat, b: nat)
    requires
        a <= b,
    ensures
        pow10(a) <= pow10(b),
    decreases b - a,
{
    if a < b {
        lemma_pow10_monotone(a, (b - 1) as nat);
        lemma_pow10_pos((b - 1) as nat);
    }
}

proof fn lemma_pow10_pos(a: nat)
    ensures
        pow10(a) >= 1,
    decreases a,
{
    if a > 0 {
        lemma_pow10_pos((a - 1) as nat);
    }
}

/// `decimal(n)` has at most `k` digits exactly when `n < 10^k`.
proof fn lemma_decimal_len(n: nat, k: nat)
    requires
        k >= 1,
    ensures
        decimal(n).len() <= k <==> n < pow10(k),
    decreases n,
{
    lemma_pow10_pos((k - 1) as nat);
    if n >= 10 {
        if k > 1 {
            lemma_decimal_len(n / 10, (k - 1) as nat);
        }
    }
}

/// Tells whether `format_usd_precise` can print the amount.
pub fn prints_as_usd(value: DecimalValue) -> (r: bool)
    requires
        value.valid(),
    ensures
        r == usd_printable(value),
{
    let unit = pow10_i128(value.scale);
    if value.mantissa >= unit || value.mantissa == 0 {
        return true;
    }
    let r = round_dp(value, 4);
    let m: i128 = if r.mantissa < 0 {
        -r.mantissa
    } else {
        r.mantissa
    };
    let scale_unit = pow10_i128(r.scale);
    proof {
        assert(pow10(27) == 1000000000000000000000000000) by {
            reveal_with_fuel(pow10, 28);
        }
        lemma_decimal_len(magnitude(r.mantissa as int) / pow10(r.scale as nat), 27);
        let q = pow10(r.scale as nat);
        assert(r.scale <= 4);
        assert(q <= 10000) by {
            lemma_pow10_monotone(r.scale as nat, 4);
            reveal_with_fuel(pow10, 5);
        }
        let mg = magnitude(r.mantissa as int);
        assert(mg / q < 1000000000000000000000000000 <==> mg < 1000000000000000000000000000 * q)
            by (nonlinear_arith)
            requires
                q >= 1,
        ;
    }
    m < 1000000000000000000000000000 * scale_unit
}

/// Formats a dollar amount for display.
pub fn format_usd_precise(value: DecimalValue) -> (s: String)
    requires
        value.valid(),
        usd_printable(value),
    ensures
        s@ == usd_text(value),
{
    let unit = pow10_i128(value.scale);
    if value.mantissa >= unit {
        let mut s = String::from_str("$");
        let r = round_dp(value, 2);
        proof {
            let mg = magnitude(r.mantissa as int);
            let q = pow10(r.scale as nat);
            lemma_pow10_pos(r.scale as nat);
            assert(mg / q <= mg) by (nonlinear_arith)
                requires
                    q >= 1,
            ;
            assert(pow10(29) == 100000000000000000000000000000) by {
                reveal_with_fuel(pow10, 30);
            }
            lemma_decimal_len(mg / q, 29);
        }
        let t = display_with_precision(r, 2);
        s.append(t.as_str());
        s
    } else if value.mantissa == 0 {
        String::from_str("$0.00")
    } else {
        let mut s = String::from_str("$");
        let t = display_with_precision(round_dp(value, 4), 4);
        s.append(t.as_str());
        s
    }
}

/// The priced cost of some usage: the sum of the costs that could be priced,
/// whether any could, and whether some usage could not be priced.
#[derive(Clone, Copy, Debug)]
pub struct PriceSummary {
    pub known: DecimalValue,
    pub missing: bool,
    pub has_known: bool,
}

/// How a cost summary reads: "--" when nothing could be priced and some
/// usage was unpriced, "$0.00" when there was nothing to price, else the
/// known amount, followed by " + ?" when some usage was unpriced.
pub open spec fn price_summary_text(p: PriceSummary) -> Seq<char> {
    if !p.has_known {
        if p.missing {
            "--"@
        } else {
            usd_text(DecimalValue { mantissa: 0, scale: 0 })
        }
    } else if p.missing {
        usd_text(p.known) + " + ?"@
    } else {
        usd_text(p.known)
    }
}

/// Formats a cost summary for display.
pub fn format_price_summary(value: &PriceSummary) -> (s: String)
    requires
        value.known.valid(),
        value.has_known ==> usd_printable(value.known),
    ensures
        s@ == price_summary_text(*value),
{
    if !value.has_known {
        return if value.missing {
            String::from_str("--")
        } else {
            format_usd_precise(DecimalValue { mantissa: 0, scale: 0 })
        };
    }
    let mut amount = format_usd_precise(value.known);
    if value.missing {
        amount.append(" + ?");
    }
    amount
}

/// How a cost summary reads, over all summaries: with a known cost it is
/// that cost in dollars, followed by " + ?" exactly when some usage is
/// unpriced (a known cost of zero reads "$0.00"); "--" stands exactly for
/// nothing known and something unpriced.
pub proof fn price_summary_reads_the_known_cost(p: PriceSummary)
    ensures
        p.has_known && !p.missing ==> price_summary_text(p) == usd_text(p.known),
        p.has_known && p.missing ==> price_summary_text(p) == usd_text(p.known) + " + ?"@,
        p.has_known && p.known.mantissa == 0 && !p.missing ==> price_summary_text(p) == "$0.00"@,
        (price_summary_text(p) == "--"@) <==> (!p.has_known && p.missing),
{
    reveal_strlit("$");
    reveal_strlit("$0.00");
    reveal_strlit("--");
    lemma_pow10_pos(p.known.scale as nat);
    lemma_pow10_pos(0);
    let t = price_summary_text(p);
    if !(!p.has_known && p.missing) {
        assert(t[0] == '$') by {
            let u = if p.has_known {
                p.known
            } else {
                DecimalValue { mantissa: 0, scale: 0 }
            };
            assert(usd_text(u)[0] == '$');
            if p.has_known && p.missing {
                assert((usd_text(u) + " + ?"@)[0] == usd_text(u)[0]);
            }
        }
        assert(t != "--"@) by {
            assert("--"@[0] == '-');
        }
    }
}

} // verus!

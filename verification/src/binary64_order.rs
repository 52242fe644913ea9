//! Order facts about rounding to binary64: rounding keeps the order of
//! integers, and never rounds past a bound that binary64 holds exactly.
use vstd::prelude::*;
use vstd::arithmetic::power2::*;
use vstd::arithmetic::div_mod::*;
use crate::binary64::{
    divide_u64, from_u64, lemma_pow2_le, lemma_pow2_values, log2_floor, nearest_binary64,
    round_half_even, times_small, value_den, value_num,
};

verus! {

/// Rounding `a / b` to an integer does not pass an integer bound above it.
proof fn lemma_rhe_le(a: nat, b: nat, c: nat)
    requires
        b > 0,
        a <= c * b,
    ensures
        round_half_even(a, b) <= c,
{
    let q = a / b;
    let r = a % b;
    lemma_fundamental_div_mod(a as int, b as int);
    lemma_mod_bound(a as int, b as int);
    assert(b * q == q * b) by (nonlinear_arith);
    if q > c {
        assert(q * b >= c * b + b) by (nonlinear_arith)
            requires
                q >= c + 1,
        ;
    }
}

/// Rounding `a / b` to an integer does not fall below an integer bound
/// under it.
proof fn lemma_rhe_ge(a: nat, b: nat, c: nat)
    requires
        b > 0,
        a >= c * b,
    ensures
        round_half_even(a, b) >= c,
{
    lemma_div_is_ordered((c * b) as int, a as int, b as int);
    lemma_div_multiples_vanish(c as int, b as int);
    assert(c * b == b * c) by (nonlinear_arith);
}

/// Rounding `a / b` to an integer keeps the order of the numerators.
proof fn lemma_rhe_monotone(a1: nat, a2: nat, b: nat)
    requires
        b > 0,
        a1 <= a2,
    ensures
        round_half_even(a1, b) <= round_half_even(a2, b),
{
    let q1 = a1 / b;
    let q2 = a2 / b;
    lemma_div_is_ordered(a1 as int, a2 as int, b as int);
    lemma_fundamental_div_mod(a1 as int, b as int);
    lemma_fundamental_div_mod(a2 as int, b as int);
    lemma_mod_bound(a1 as int, b as int);
    lemma_mod_bound(a2 as int, b as int);
    if q1 == q2 {
        assert(a1 % b <= a2 % b);
    }
}

/// The binary logarithm of `n / d >= 1` brackets the quotient:
/// `2^L <= n / d < 2^(L + 1)`.
proof fn lemma_log2_bounds(n: nat, d: nat)
    requires
        d > 0,
        n >= d,
    ensures
        log2_floor(n, d) >= 0,
        d * pow2(log2_floor(n, d) as nat) <= n < d * pow2((log2_floor(n, d) + 1) as nat),
    decreases n - d,
{
    if n >= 2 * d {
        lemma_log2_bounds(n, 2 * d);
        let l = log2_floor(n, 2 * d);
        lemma_pow2_unfold((l + 1) as nat);
        lemma_pow2_unfold((l + 2) as nat);
        assert(2 * d * pow2(l as nat) == d * pow2((l + 1) as nat)) by (nonlinear_arith)
            requires
                pow2((l + 1) as nat) == 2 * pow2(l as nat),
        ;
        assert(2 * d * pow2((l + 1) as nat) == d * pow2((l + 2) as nat)) by (nonlinear_arith)
            requires
                pow2((l + 2) as nat) == 2 * pow2((l + 1) as nat),
        ;
    } else {
        lemma_pow2_values();
        assert(log2_floor(n, d) == 0);
        assert(d * pow2(0) == d);
        assert(d * pow2(1) == 2 * d);
    }
}

/// The binary logarithm of `n / d < 2` is at most zero.
proof fn lemma_log2_small(n: nat, d: nat)
    requires
        n > 0,
        d > 0,
        n < 2 * d,
    ensures
        log2_floor(n, d) <= 0,
    decreases (if n < d { 1int } else { 0int }), (if n < d { d - n } else { n - d }),
{
    if n < d {
        lemma_log2_small(2 * n, d);
    }
}

/// Rounding a quotient `num / den` that is at most a small integer `c`
/// gives a binary64 value at most `c`.
pub proof fn lemma_nearest_at_most(num: nat, den: nat, c: nat)
    requires
        den > 0,
        1 <= c < 0x20_0000_0000_0000,
        num <= c * den,
    ensures
        value_num(nearest_binary64(num, den)) <= c * value_den(nearest_binary64(num, den)),
{
    if num > 0 {
        let l = log2_floor(num, den);
        if num >= den {
            lemma_log2_bounds(num, den);
            if l >= 53 {
                lemma_pow2_le(53, l as nat);
                lemma_pow2_values();
                assert(den * pow2(53) <= den * pow2(l as nat)) by (nonlinear_arith)
                    requires
                        pow2(53) <= pow2(l as nat),
                ;
                assert(c * den < den * pow2(53)) by (nonlinear_arith)
                    requires
                        c < pow2(53),
                        den > 0,
                ;
            }
        } else {
            lemma_log2_small(num, den);
        }
        let e = l - 52;
        assert(e <= 0);
        let k = (-e) as nat;
        let p = pow2(k);
        lemma_pow2_pos(k);
        assert(num * p <= (c * p) * den) by (nonlinear_arith)
            requires
                num <= c * den,
        ;
        let v = nearest_binary64(num, den);
        if e == 0 {
            lemma_pow2_values();
            assert(den * pow2(0) == den);
            lemma_rhe_le(num, den, c);
            assert(v == (round_half_even(num, den), 0int));
            assert(value_num(v) == round_half_even(num, den) * pow2(0));
        } else {
            lemma_rhe_le(num * p, den, c * p);
            assert(v == (round_half_even(num * p, den), e));
            assert(value_den(v) == p);
        }
    } else {
        lemma_pow2_values();
        assert(nearest_binary64(num, den) == (0nat, 0int));
        assert(value_num((0nat, 0int)) == 0 * pow2(0));
    }
}

/// The integer that `n as f64` equals, for `n >= 1`: `n` itself below
/// 2^53, else `n` rounded to a multiple of the spacing `2^(L - 52)`.
pub open spec fn integer_value(n: nat) -> nat {
    let l = log2_floor(n, 1);
    if l <= 52 {
        n
    } else {
        round_half_even(n, pow2((l - 52) as nat)) * pow2((l - 52) as nat)
    }
}

/// The binary64 denominator of a value is positive.
pub proof fn lemma_value_den_pos(v: (nat, int))
    ensures
        value_den(v) > 0,
{
    if v.1 < 0 {
        lemma_pow2_pos((-v.1) as nat);
    }
}

/// `n as f64` is the integer `integer_value(n)`.
proof fn lemma_integer_value(n: nat)
    requires
        n >= 1,
    ensures
        value_num(from_u64(n)) == integer_value(n) * value_den(from_u64(n)),
        integer_value(n) >= 1,
{
    lemma_log2_bounds(n, 1);
    lemma_pow2_values();
    let l = log2_floor(n, 1);
    let e = l - 52;
    let v = from_u64(n);
    if e > 0 {
        let p = pow2(e as nat);
        lemma_pow2_pos(e as nat);
        lemma_pow2_adds(52, e as nat);
        assert(1 * p == p);
        assert(n >= pow2(52) * p) by {
            assert(pow2(l as nat) == pow2(52) * p);
        }
        lemma_rhe_ge(n, p, pow2(52));
        assert(v == (round_half_even(n, p), e));
        assert(round_half_even(n, p) * p >= 1) by (nonlinear_arith)
            requires
                round_half_even(n, p) >= 1,
                p >= 1,
        ;
    } else if e == 0 {
        assert(1 * pow2(0) == 1);
        assert(n % 1 == 0 && n / 1 == n);
        assert(v == (n, 0int));
    } else {
        let p = pow2((-e) as nat);
        lemma_pow2_pos((-e) as nat);
        assert((n * p) % 1 == 0 && (n * p) / 1 == n * p);
        assert(v == (n * p, e));
    }
}

/// `integer_value` is at least `2^L` and at most `2^(L + 1)` above 2^53.
proof fn lemma_integer_value_bracket(n: nat)
    requires
        n >= 1,
        log2_floor(n, 1) > 52,
    ensures
        pow2(log2_floor(n, 1) as nat) <= integer_value(n) <= pow2((log2_floor(n, 1) + 1) as nat),
{
    lemma_log2_bounds(n, 1);
    let l = log2_floor(n, 1);
    let e = (l - 52) as nat;
    let p = pow2(e);
    lemma_pow2_pos(e);
    lemma_pow2_adds(52, e);
    lemma_pow2_adds(53, e);
    assert(n >= pow2(52) * p);
    assert(n <= pow2(53) * p);
    lemma_rhe_ge(n, p, pow2(52));
    lemma_rhe_le(n, p, pow2(53));
    let m = round_half_even(n, p);
    assert(pow2(52) * p <= m * p <= pow2(53) * p) by (nonlinear_arith)
        requires
            pow2(52) <= m <= pow2(53),
            p > 0,
    ;
}

/// Converting integers to binary64 keeps their order.
proof fn lemma_integer_value_monotone(n1: nat, n2: nat)
    requires
        1 <= n1 <= n2,
    ensures
        integer_value(n1) <= integer_value(n2),
{
    lemma_log2_bounds(n1, 1);
    lemma_log2_bounds(n2, 1);
    lemma_pow2_values();
    let l1 = log2_floor(n1, 1);
    let l2 = log2_floor(n2, 1);
    if l1 > l2 {
        lemma_pow2_le((l2 + 1) as nat, l1 as nat);
    }
    if l2 > 52 {
        lemma_integer_value_bracket(n2);
        if l1 <= 52 {
            lemma_pow2_le((l1 + 1) as nat, 53);
            lemma_pow2_le(53, l2 as nat);
        } else if l1 < l2 {
            lemma_integer_value_bracket(n1);
            lemma_pow2_le((l1 + 1) as nat, l2 as nat);
        } else {
            let p = pow2((l1 - 52) as nat);
            lemma_pow2_pos((l1 - 52) as nat);
            lemma_rhe_monotone(n1, n2, p);
            let m1 = round_half_even(n1, p);
            let m2 = round_half_even(n2, p);
            assert(m1 * p <= m2 * p) by (nonlinear_arith)
                requires
                    m1 <= m2,
            ;
        }
    }
}

/// `a as f64 <= b as f64` for integers `a <= b`, as a comparison of the
/// values' fractions.
pub proof fn lemma_from_u64_ordered(a: nat, b: nat)
    requires
        a <= b,
    ensures
        value_num(from_u64(a)) * value_den(from_u64(b)) <= value_num(from_u64(b)) * value_den(
            from_u64(a),
        ),
        b >= 1 ==> value_num(from_u64(b)) > 0,
{
    let x = from_u64(a);
    let y = from_u64(b);
    lemma_value_den_pos(x);
    lemma_value_den_pos(y);
    if b >= 1 {
        lemma_integer_value(b);
        let w2 = integer_value(b);
        assert(value_num(y) > 0) by (nonlinear_arith)
            requires
                value_num(y) == w2 * value_den(y),
                w2 >= 1,
                value_den(y) > 0,
        ;
    }
    if a >= 1 {
        lemma_integer_value(a);
        lemma_integer_value(b);
        lemma_integer_value_monotone(a, b);
        let w1 = integer_value(a);
        let w2 = integer_value(b);
        let dx = value_den(x);
        let dy = value_den(y);
        assert(w1 * dx * dy <= w2 * dy * dx) by (nonlinear_arith)
            requires
                w1 <= w2,
        ;
    } else {
        lemma_pow2_values();
        assert(x == (0nat, 0int));
        assert(value_num(x) == 0 * pow2(0));
    }
}

} // verus!

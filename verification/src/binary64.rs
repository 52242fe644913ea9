//! Exact integer model of the IEEE-754 binary64 arithmetic that the dashboard's
//! number formatting relies on: rounding a positive rational to the nearest
//! double (53 significant bits, ties to even), and printing a double with a
//! fixed number of decimals as Rust's `{:.p}` does (exact value, ties to even).
use vstd::prelude::*;
use vstd::arithmetic::power2::*;
use vstd::arithmetic::div_mod::*;
use crate::decimal::{fixed_point, fixed_point_string, pow10, pow10_u128};

verus! {

/// `a / b` rounded to the nearest integer, ties to the even one.
pub open spec fn round_half_even(a: nat, b: nat) -> nat {
    let q = a / b;
    let r = a % b;
    if 2 * r > b {
        q + 1
    } else if 2 * r < b {
        q
    } else if q % 2 == 0 {
        q
    } else {
        q + 1
    }
}

/// `floor(log2(n / d))` for positive `n` and `d`.
pub open spec fn log2_floor(n: nat, d: nat) -> int
    decreases (if n < d { 1int } else { 0int }), (if n < d { d - n } else { n - d }),
{
    if n == 0 || d == 0 {
        0
    } else if n >= 2 * d {
        log2_floor(n, 2 * d) + 1
    } else if n < d {
        log2_floor(2 * n, d) - 1
    } else {
        0
    }
}

/// The binary64 number nearest to `num / den`, as a pair `(m, e)` standing
/// for `m * 2^e`: the significand keeps 53 bits and a tie goes to the even
/// significand. Zero is `(0, 0)`. (The magnitudes this crate meets are far
/// from binary64's overflow and subnormal ranges.)
pub open spec fn nearest_binary64(num: nat, den: nat) -> (nat, int) {
    if num == 0 || den == 0 {
        (0, 0)
    } else {
        let e = log2_floor(num, den) - 52;
        if e >= 0 {
            (round_half_even(num, den * pow2(e as nat)), e)
        } else {
            (round_half_even(num * pow2((-e) as nat), den), e)
        }
    }
}

/// Numerator of the value `m * 2^e` of a pair.
pub open spec fn value_num(v: (nat, int)) -> nat {
    if v.1 >= 0 {
        v.0 * pow2(v.1 as nat)
    } else {
        v.0
    }
}

/// Denominator of the value `m * 2^e` of a pair.
pub open spec fn value_den(v: (nat, int)) -> nat {
    if v.1 >= 0 {
        1
    } else {
        pow2((-v.1) as nat)
    }
}

/// `n as f64 / d as f64` for an integer `d` that binary64 holds exactly.
pub open spec fn quotient_binary64(n: nat, d: nat) -> (nat, int) {
    let v = nearest_binary64(n, 1);
    nearest_binary64(value_num(v), value_den(v) * d)
}

/// The binary64 value of a pair times 10^p, rounded to an integer with ties to even.
pub open spec fn scaled_decimal(v: (nat, int), p: nat) -> nat {
    if v.1 >= 0 {
        v.0 * pow2(v.1 as nat) * pow10(p)
    } else {
        round_half_even(v.0 * pow10(p), pow2((-v.1) as nat))
    }
}

/// What `format!("{:.p$}", x)` prints for a non-negative binary64 `x`.
pub open spec fn fixed_text(v: (nat, int), p: nat) -> Seq<char> {
    fixed_point(scaled_decimal(v, p), p)
}

/// A non-negative binary64 number `mant * 2^exp`.
#[derive(Clone, Copy, Debug)]
pub struct Binary64 {
    pub mant: u64,
    pub exp: i32,
}

impl Binary64 {
    pub open spec fn pair(self) -> (nat, int) {
        (self.mant as nat, self.exp as int)
    }
}

pub proof fn lemma_pow2_values()
    ensures
        pow2(0) == 1,
        pow2(1) == 2,
        pow2(52) == 0x10_0000_0000_0000,
        pow2(53) == 0x20_0000_0000_0000,
        pow2(64) == 0x1_0000_0000_0000_0000,
        pow2(65) == 0x2_0000_0000_0000_0000,
        pow2(105) == 0x200_0000_0000_0000_0000_0000_0000,
        pow2(126) == 0x4000_0000_0000_0000_0000_0000_0000_0000,
        pow2(127) == 0x8000_0000_0000_0000_0000_0000_0000_0000,
{
    lemma2_to64();
    lemma2_to64_rest();
    lemma_pow2_adds(64, 1);
    lemma_pow2_adds(64, 41);
    lemma_pow2_adds(64, 62);
    lemma_pow2_adds(64, 63);
}

/// `pow2(e) <= x < pow2(m)` bounds the exponent by `m`.
pub proof fn lemma_pow2_below(e: nat, x: nat, m: nat)
    requires
        pow2(e) <= x,
        x < pow2(m),
    ensures
        e < m,
{
    if e > m {
        lemma_pow2_strictly_increases(m, e);
    }
}

/// Powers of two grow with the exponent.
pub proof fn lemma_pow2_le(e1: nat, e2: nat)
    requires
        e1 <= e2,
    ensures
        pow2(e1) <= pow2(e2),
{
    if e1 < e2 {
        lemma_pow2_strictly_increases(e1, e2);
    }
}

proof fn lemma_rhe_scale(x: nat, y: nat, c: nat)
    requires
        y > 0,
        c > 0,
    ensures
        round_half_even(x * c, y * c) == round_half_even(x, y),
{
    let q = x / y;
    let r = x % y;
    lemma_fundamental_div_mod(x as int, y as int);
    assert(0 <= r < y) by {
        lemma_mod_bound(x as int, y as int);
    }
    assert(x * c == q * (y * c) + r * c) by (nonlinear_arith)
        requires
            x == y * q + r,
    ;
    assert(0 <= r * c < y * c) by (nonlinear_arith)
        requires
            0 <= r < y,
            c > 0,
    ;
    lemma_fundamental_div_mod_converse((x * c) as int, (y * c) as int, q as int, (r * c) as int);
    assert((2 * (r * c) > y * c) == (2 * r > y)) by (nonlinear_arith)
        requires
            c > 0,
    ;
    assert((2 * (r * c) < y * c) == (2 * r < y)) by (nonlinear_arith)
        requires
            c > 0,
    ;
}

proof fn lemma_double_divmod(x: nat, d: nat)
    requires
        d > 0,
    ensures
        2 * (x % d) >= d ==> (2 * x) / d == 2 * (x / d) + 1 && (2 * x) % d == 2 * (x % d) - d,
        2 * (x % d) < d ==> (2 * x) / d == 2 * (x / d) && (2 * x) % d == 2 * (x % d),
{
    let q = x / d;
    let r = x % d;
    lemma_fundamental_div_mod(x as int, d as int);
    lemma_mod_bound(x as int, d as int);
    if 2 * r >= d {
        assert(2 * x == (2 * q + 1) * d + (2 * r - d)) by (nonlinear_arith)
            requires
                x == d * q + r,
        ;
        lemma_fundamental_div_mod_converse((2 * x) as int, d as int, (2 * q + 1) as int, (2 * r - d) as int);
    } else {
        assert(2 * x == (2 * q) * d + 2 * r) by (nonlinear_arith)
            requires
                x == d * q + r,
        ;
        lemma_fundamental_div_mod_converse((2 * x) as int, d as int, (2 * q) as int, (2 * r) as int);
    }
}

/// `round_half_even(a, b)` computed on machine integers.
pub fn round_half_even_u128(a: u128, b: u128) -> (r: u128)
    requires
        0 < b < 0x8000_0000_0000_0000_0000_0000_0000_0000,
    ensures
        r == round_half_even(a as nat, b as nat),
{
    let q = a / b;
    let rem = a % b;
    if 2 * rem >= b && rem > 0 {
        proof {
            lemma_div_is_ordered_by_denominator(a as int, 2, b as int);
        }
    }
    if 2 * rem > b {
        q + 1
    } else if 2 * rem < b {
        q
    } else if q % 2 == 0 {
        q
    } else {
        q + 1
    }
}

/// `2^e` on machine integers.
pub fn pow2_u128(e: u32) -> (r: u128)
    requires
        e <= 126,
    ensures
        r == pow2(e as nat),
        0 < r <= 0x4000_0000_0000_0000_0000_0000_0000_0000,
{
    let mut r: u128 = 1;
    let mut i: u32 = 0;
    proof {
        lemma_pow2_values();
    }
    while i < e
        invariant
            i <= e <= 126,
            r == pow2(i as nat),
            pow2(126) == 0x4000_0000_0000_0000_0000_0000_0000_0000,
        decreases e - i,
    {
        proof {
            lemma_pow2_unfold((i + 1) as nat);
            lemma_pow2_le((i + 1) as nat, 126);
        }
        r = 2 * r;
        i = i + 1;
    }
    proof {
        lemma_pow2_pos(e as nat);
        lemma_pow2_le(e as nat, 126);
    }
    r
}

/// Rounds `num / den` to the nearest binary64 number.
pub fn nearest(num: u128, den: u128) -> (r: Binary64)
    requires
        0 < den < 0x8000_0000_0000_0000_0000_0000_0000_0000,
        num < 0x8000_0000_0000_0000_0000_0000_0000_0000,
    ensures
        r.pair() == nearest_binary64(num as nat, den as nat),
        num == 0 ==> r.mant == 0 && r.exp == 0,
        num > 0 ==> 0x10_0000_0000_0000 <= r.mant <= 0x20_0000_0000_0000,
        -179 <= r.exp <= 74,
        num > 0 && r.exp + 52 >= 0 ==> den * pow2((r.exp + 52) as nat) <= num,
        num > 0 && r.exp + 52 < 0 ==> num * pow2((-(r.exp + 52) - 1) as nat) < den,
{
    if num == 0 {
        return Binary64 { mant: 0, exp: 0 };
    }
    proof {
        lemma_pow2_values();
    }
    let mut n: u128 = num;
    let mut d: u128 = den;
    let mut k: i32 = 0;
    let ghost mut b: nat = 0;
    while n >= 2 * d
        invariant
            n == num,
            0 < den <= d < 0x8000_0000_0000_0000_0000_0000_0000_0000,
            num < 0x8000_0000_0000_0000_0000_0000_0000_0000,
            d == den * pow2(b),
            pow2(b) <= d,
            k == b,
            b < 127,
            b > 0 ==> d <= n,
            log2_floor(num as nat, den as nat) == k + log2_floor(n as nat, d as nat),
            pow2(127) == 0x8000_0000_0000_0000_0000_0000_0000_0000,
        decreases n - d,
    {
        proof {
            lemma_pow2_unfold(b + 1);
            assert(den * pow2(b + 1) == 2 * (den * pow2(b))) by (nonlinear_arith)
                requires
                    pow2(b + 1) == 2 * pow2(b),
            ;
            lemma_pow2_below(b + 1, (2 * d) as nat, 127);
        }
        d = 2 * d;
        k = k + 1;
        proof {
            b = b + 1;
        }
    }
    let ghost mut a: nat = 0;
    while n < d
        invariant
            0 < n < 2 * d,
            0 < den <= d < 0x8000_0000_0000_0000_0000_0000_0000_0000,
            n == num * pow2(a),
            d == den * pow2(b),
            pow2(a) <= n,
            k == b - a,
            b < 127,
            a <= 127,
            a > 0 ==> b == 0,
            b > 0 ==> d <= n,
            a > 0 ==> num * pow2((a - 1) as nat) < d,
            b > 0 ==> a == 0,
            log2_floor(num as nat, den as nat) == k + log2_floor(n as nat, d as nat),
            pow2(127) == 0x8000_0000_0000_0000_0000_0000_0000_0000,
        decreases 127 - a,
    {
        proof {
            lemma_pow2_unfold(a + 1);
            assert(num * pow2(a + 1) == 2 * (num * pow2(a))) by (nonlinear_arith)
                requires
                    pow2(a + 1) == 2 * pow2(a),
            ;
            lemma_pow2_below(a, n as nat, 127);
        }
        n = 2 * n;
        k = k - 1;
        proof {
            a = a + 1;
        }
    }
    assert(log2_floor(n as nat, d as nat) == 0);
    // Long division: q = floor(n * 2^i / d), rem = (n * 2^i) mod d.
    let mut q: u128 = 1;
    let mut rem: u128 = n - d;
    let mut i: u32 = 0;
    proof {
        lemma_fundamental_div_mod_converse(n as int, d as int, 1, (n - d) as int);
    }
    while i < 52
        invariant
            0 < d <= n < 2 * d,
            d < 0x8000_0000_0000_0000_0000_0000_0000_0000,
            i <= 52,
            q == ((n as nat) * pow2(i as nat)) / (d as nat),
            rem == ((n as nat) * pow2(i as nat)) % (d as nat),
            rem < d,
            pow2(i as nat) <= q < pow2((i + 1) as nat),
            pow2(53) == 0x20_0000_0000_0000,
        decreases 52 - i,
    {
        proof {
            let x = (n as nat) * pow2(i as nat);
            lemma_double_divmod(x, d as nat);
            lemma_pow2_unfold((i + 1) as nat);
            lemma_pow2_unfold((i + 2) as nat);
            assert(n * pow2((i + 1) as nat) == 2 * x) by (nonlinear_arith)
                requires
                    pow2((i + 1) as nat) == 2 * pow2(i as nat),
                    x == n * pow2(i as nat),
            ;
            lemma_pow2_le((i + 1) as nat, 53);
        }
        let r2 = 2 * rem;
        if r2 >= d {
            q = 2 * q + 1;
            rem = r2 - d;
        } else {
            q = 2 * q;
            rem = r2;
        }
        i = i + 1;
    }
    let m = if 2 * rem > d {
        q + 1
    } else if 2 * rem < d {
        q
    } else if q % 2 == 0 {
        q
    } else {
        q + 1
    };
    let exp = k - 52;
    proof {
        let big = (n as nat) * pow2(52);
        assert(m == round_half_even(big, d as nat));
        let e = log2_floor(num as nat, den as nat) - 52;
        assert(e == exp);
        if e >= 0 {
            let c = pow2(a + 52);
            lemma_pow2_adds(a, 52);
            lemma_pow2_adds(e as nat, a + 52);
            assert(e as nat + (a + 52) == b);
            assert(big == num * c) by (nonlinear_arith)
                requires
                    big == n * pow2(52),
                    n == num * pow2(a),
                    c == pow2(a) * pow2(52),
            ;
            assert(d == den * pow2(e as nat) * c) by (nonlinear_arith)
                requires
                    d == den * pow2(b),
                    pow2(b) == pow2(e as nat) * c,
            ;
            lemma_pow2_pos(a + 52);
            lemma_pow2_pos(e as nat);
            assert(den * pow2(e as nat) > 0) by (nonlinear_arith)
                requires
                    den > 0,
                    pow2(e as nat) > 0,
            ;
            lemma_rhe_scale(num as nat, (den as nat) * pow2(e as nat), c);
        } else {
            let c = pow2(b);
            let f = (-e) as nat;
            lemma_pow2_adds(f, b);
            lemma_pow2_adds(a, 52);
            assert(f + b == a + 52);
            assert(big == num * pow2(f) * c) by (nonlinear_arith)
                requires
                    big == n * pow2(52),
                    n == num * pow2(a),
                    pow2(f) * c == pow2(a) * pow2(52),
            ;
            lemma_pow2_pos(b);
            lemma_rhe_scale((num as nat) * pow2(f), den as nat, c);
        }
        // exponent facts
        let kk = exp + 52;
        if kk >= 0 {
            assert(a == 0);
        } else {
            assert(a > 0);
            assert(b == 0);
            assert(pow2(0) == 1);
            assert((-kk - 1) as nat == (a - 1) as nat);
        }
    }
    Binary64 { mant: m as u64, exp }
}

/// `scaled_decimal(v, p)` on machine integers.
pub fn scaled_decimal_u128(v: Binary64, p: u32) -> (r: u128)
    requires
        v.mant <= 0x20_0000_0000_0000,
        -126 <= v.exp <= 48,
        p <= 4,
    ensures
        r == scaled_decimal(v.pair(), p as nat),
{
    let unit = pow10_u128(p);
    if v.exp >= 0 {
        let s = pow2_u128(v.exp as u32);
        proof {
            lemma_pow2_values();
            lemma_pow2_le(v.exp as nat, 48);
            lemma2_to64();
            lemma2_to64_rest();
            assert((v.mant as u128) * s <= 0x20_0000_0000_0000u128 * 0x1_0000_0000_0000u128) by (nonlinear_arith)
                requires
                    v.mant <= 0x20_0000_0000_0000,
                    s <= 0x1_0000_0000_0000,
            ;
            assert((v.mant as u128) * s * unit <= 0x20_0000_0000_0000u128 * 0x1_0000_0000_0000u128 * 10000) by (nonlinear_arith)
                requires
                    v.mant <= 0x20_0000_0000_0000,
                    s <= 0x1_0000_0000_0000,
                    unit <= 10000,
            ;
        }
        (v.mant as u128) * s * unit
    } else {
        let s = pow2_u128((-v.exp) as u32);
        proof {
            assert((v.mant as u128) * unit <= 0x20_0000_0000_0000u128 * 10000) by (nonlinear_arith)
                requires
                    v.mant <= 0x20_0000_0000_0000,
                    unit <= 10000,
            ;
        }
        round_half_even_u128((v.mant as u128) * unit, s)
    }
}

/// Prints a non-negative binary64 number as `format!("{:.p$}", x)` does.
pub fn fixed_string(v: Binary64, p: u32) -> (s: String)
    requires
        v.mant <= 0x20_0000_0000_0000,
        -126 <= v.exp <= 48,
        p <= 4,
    ensures
        s@ == fixed_text(v.pair(), p as nat),
{
    fixed_point_string(scaled_decimal_u128(v, p), p)
}

/// `n as f64 / d as f64` for a divisor below 2^53.
pub fn quotient(n: u64, d: u64) -> (r: Binary64)
    requires
        0 < d < 0x20_0000_0000_0000,
    ensures
        r.pair() == quotient_binary64(n as nat, d as nat),
        r.mant <= 0x20_0000_0000_0000,
        -106 <= r.exp <= 12,
{
    proof {
        lemma_pow2_values();
    }
    let v = nearest(n as u128, 1);
    if n == 0 {
        let r = nearest(0, d as u128);
        return r;
    }
    let ghost k1 = v.exp + 52;
    proof {
        if k1 < 0 {
            lemma_pow2_pos((-k1 - 1) as nat);
            assert(n * pow2((-k1 - 1) as nat) >= 1) by (nonlinear_arith)
                requires
                    n >= 1,
                    pow2((-k1 - 1) as nat) >= 1,
            ;
            lemma_pow2_pos((-k1 - 1) as nat);
        }
        assert(k1 >= 0);
        assert(pow2(k1 as nat) <= n);
        lemma_pow2_below(k1 as nat, n as nat, 64);
    }
    let mut num: u128 = v.mant as u128;
    let mut den: u128 = d as u128;
    if v.exp >= 0 {
        let s = pow2_u128(v.exp as u32);
        proof {
            lemma_pow2_le(v.exp as nat, 11);
            lemma2_to64();
            assert((v.mant as u128) * s <= 0x20_0000_0000_0000u128 * 2048) by (nonlinear_arith)
                requires
                    v.mant <= 0x20_0000_0000_0000,
                    s <= 2048,
            ;
        }
        num = (v.mant as u128) * s;
        assert(num == value_num(v.pair()));
        assert(den == value_den(v.pair()) * d);
    } else {
        let s = pow2_u128((-v.exp) as u32);
        proof {
            lemma_pow2_le((-v.exp) as nat, 52);
            assert(s * (d as u128) < 0x10_0000_0000_0000u128 * 0x20_0000_0000_0000u128) by (nonlinear_arith)
                requires
                    s <= 0x10_0000_0000_0000,
                    d < 0x20_0000_0000_0000,
                    s > 0,
            ;
        }
        den = s * (d as u128);
        assert(num == value_num(v.pair()));
        assert(den == value_den(v.pair()) * d);
        assert(den < 0x8000_0000_0000_0000_0000_0000_0000_0000);
        assert(den > 0) by (nonlinear_arith)
            requires
                den == s * (d as u128),
                s > 0,
                d > 0,
        ;
    }
    proof {
        assert(num == value_num(v.pair()));
        assert(den == value_den(v.pair()) * d);
        // the quotient is at least 1 / d, which bounds its exponent from below
        assert(num >= value_den(v.pair())) by {
            if v.exp < 0 {
                lemma_pow2_le((-v.exp) as nat, 52);
            } else {
                lemma_pow2_pos(v.exp as nat);
                assert(num >= 1) by (nonlinear_arith)
                    requires
                        num == v.mant * pow2(v.exp as nat),
                        v.mant >= 1,
                        pow2(v.exp as nat) >= 1,
                ;
            }
        }
    }
    let r = nearest(num, den);
    proof {
        let k = r.exp + 52;
        if k >= 0 {
            assert(pow2(k as nat) <= num) by (nonlinear_arith)
                requires
                    den * pow2(k as nat) <= num,
                    den >= 1,
            ;
            lemma_pow2_below(k as nat, num as nat, 65);
        } else {
            let t = (-k - 1) as nat;
            let vd = value_den(v.pair());
            assert(pow2(t) < d) by (nonlinear_arith)
                requires
                    num * pow2(t) < den,
                    den == vd * d,
                    num >= vd,
                    vd >= 1,
            ;
            lemma_pow2_below(t, d as nat, 53);
        }
    }
    r
}

/// `n as f64`.
pub open spec fn from_u64(n: nat) -> (nat, int) {
    nearest_binary64(n, 1)
}

/// `a as f64 / b as f64`.
pub open spec fn divide_u64(a: nat, b: nat) -> (nat, int) {
    let x = from_u64(a);
    let y = from_u64(b);
    nearest_binary64(value_num(x) * value_den(y), value_den(x) * value_num(y))
}

/// `x * (k as f64)` for a binary64 `x` and a small integer `k`.
pub open spec fn times_small(x: (nat, int), k: nat) -> (nat, int) {
    nearest_binary64(value_num(x) * k, value_den(x))
}

/// A binary64 number built by this crate from 64-bit integers: zero, or a
/// normal significand with an exponent in the range given.
pub open spec fn well_formed(v: Binary64, lo: int, hi: int) -> bool {
    (v.mant == 0 && v.exp == 0) || (0x10_0000_0000_0000 <= v.mant <= 0x20_0000_0000_0000 && lo
        <= v.exp <= hi)
}

/// `n as f64`.
pub fn from_u64_exec(n: u64) -> (r: Binary64)
    ensures
        r.pair() == from_u64(n as nat),
        well_formed(r, -52, 11),
        n == 0 <==> r.mant == 0,
{
    proof {
        lemma_pow2_values();
    }
    let v = nearest(n as u128, 1);
    if n > 0 {
        let ghost k1 = v.exp + 52;
        proof {
            if k1 < 0 {
                lemma_pow2_pos((-k1 - 1) as nat);
                assert(n * pow2((-k1 - 1) as nat) >= 1) by (nonlinear_arith)
                    requires
                        n >= 1,
                        pow2((-k1 - 1) as nat) >= 1,
                ;
            }
            assert(pow2(k1 as nat) <= n);
            lemma_pow2_below(k1 as nat, n as nat, 64);
        }
    }
    v
}

/// The numerator and denominator of the value of `v`.
pub fn value_parts(v: Binary64) -> (r: (u128, u128))
    requires
        well_formed(v, -126, 20),
    ensures
        r.0 == value_num(v.pair()),
        r.1 == value_den(v.pair()),
        r.0 <= 0x20_0000_0000_0000 * pow2(20),
        r.1 <= pow2(126),
        r.1 >= 1,
        v.exp >= 0 ==> r.0 <= 0x20_0000_0000_0000 * pow2(v.exp as nat),
{
    proof {
        lemma_pow2_values();
        lemma2_to64();
    }
    if v.exp >= 0 {
        let s = pow2_u128(v.exp as u32);
        proof {
            lemma_pow2_le(v.exp as nat, 20);
            assert((v.mant as u128) * s <= 0x20_0000_0000_0000 * pow2(20)) by (nonlinear_arith)
                requires
                    v.mant <= 0x20_0000_0000_0000,
                    s <= pow2(20),
                    pow2(20) == 0x10_0000,
            ;
            assert((v.mant as u128) * s <= 0x20_0000_0000_0000 * pow2(v.exp as nat)) by (nonlinear_arith)
                requires
                    v.mant <= 0x20_0000_0000_0000,
                    s == pow2(v.exp as nat),
            ;
        }
        ((v.mant as u128) * s, 1)
    } else {
        let s = pow2_u128((-v.exp) as u32);
        proof {
            lemma_pow2_le((-v.exp) as nat, 126);
        }
        (v.mant as u128, s)
    }
}

/// A non-zero integer conversion lies between 1 and 2^64.
proof fn lemma_converted_range(v: Binary64)
    requires
        well_formed(v, -52, 11),
        v.mant > 0,
    ensures
        value_num(v.pair()) >= value_den(v.pair()),
        value_num(v.pair()) <= 0x1_0000_0000_0000_0000 * value_den(v.pair()),
        value_den(v.pair()) <= 0x10_0000_0000_0000,
        value_num(v.pair()) <= 0x1_0000_0000_0000_0000,
{
    lemma_pow2_values();
    if v.exp >= 0 {
        lemma_pow2_pos(v.exp as nat);
        lemma_pow2_le(v.exp as nat, 11);
        lemma2_to64();
        assert(v.mant * pow2(v.exp as nat) >= 1) by (nonlinear_arith)
            requires
                v.mant >= 1,
                pow2(v.exp as nat) >= 1,
        ;
        assert(v.mant * pow2(v.exp as nat) <= 0x20_0000_0000_0000 * 0x800) by (nonlinear_arith)
            requires
                v.mant <= 0x20_0000_0000_0000,
                pow2(v.exp as nat) <= 0x800,
        ;
    } else {
        lemma_pow2_le((-v.exp) as nat, 52);
        lemma_pow2_pos((-v.exp) as nat);
    }
}

/// `a as f64 / b as f64`.
pub fn divide_u64_exec(a: u64, b: u64) -> (r: Binary64)
    requires
        b > 0,
    ensures
        r.pair() == divide_u64(a as nat, b as nat),
        well_formed(r, -117, 12),
{
    proof {
        lemma_pow2_values();
    }
    let x = from_u64_exec(a);
    let y = from_u64_exec(b);
    let (xn, xd) = value_parts(x);
    let (yn, yd) = value_parts(y);
    proof {
        lemma_converted_range(y);
        if a > 0 {
            lemma_converted_range(x);
        }
        assert(xn * yd <= 0x1_0000_0000_0000_0000u128 * 0x10_0000_0000_0000u128) by (nonlinear_arith)
            requires
                xn <= 0x1_0000_0000_0000_0000u128,
                yd <= 0x10_0000_0000_0000u128,
        ;
        assert(xd * yn <= 0x10_0000_0000_0000u128 * 0x1_0000_0000_0000_0000u128) by (nonlinear_arith)
            requires
                xd <= 0x10_0000_0000_0000u128,
                yn <= 0x1_0000_0000_0000_0000u128,
        ;
        assert(xd * yn >= 1) by (nonlinear_arith)
            requires
                xd >= 1,
                yn >= 1,
        ;
    }
    let num = xn * yd;
    let den = xd * yn;
    let r = nearest(num, den);
    proof {
        if a == 0 {
            assert(x.exp == 0);
            assert(xn == 0) by (nonlinear_arith)
                requires
                    xn == (x.mant as nat) * pow2(x.exp as nat),
                    x.mant == 0,
            ;
            assert(num == 0) by (nonlinear_arith)
                requires
                    xn == 0,
                    num == xn * yd,
            ;
        }
        if a > 0 {
            let k = r.exp + 52;
            let c = xd * yd;
            assert(c >= 1) by (nonlinear_arith)
                requires
                    xd >= 1,
                    yd >= 1,
                    c == xd * yd,
            ;
            assert(num >= 1) by (nonlinear_arith)
                requires
                    xn >= xd,
                    xd >= 1,
                    yd >= 1,
                    num == xn * yd,
            ;
            if k >= 0 {
                let t = pow2(k as nat);
                assert(c * t <= c * 0x1_0000_0000_0000_0000) by (nonlinear_arith)
                    requires
                        den * t <= num,
                        den == xd * yn,
                        num == xn * yd,
                        yn >= yd,
                        xn <= 0x1_0000_0000_0000_0000 * xd,
                        c == xd * yd,
                ;
                assert(t <= 0x1_0000_0000_0000_0000) by (nonlinear_arith)
                    requires
                        c * t <= c * 0x1_0000_0000_0000_0000,
                        c >= 1,
                ;
                lemma_pow2_below(k as nat, (t + 1) as nat, 65);
            } else {
                let t = pow2((-k - 1) as nat);
                assert(c * t < c * 0x1_0000_0000_0000_0000) by (nonlinear_arith)
                    requires
                        num * t < den,
                        den == xd * yn,
                        num == xn * yd,
                        xn >= xd,
                        yn <= 0x1_0000_0000_0000_0000 * yd,
                        c == xd * yd,
                ;
                assert(t < 0x1_0000_0000_0000_0000) by (nonlinear_arith)
                    requires
                        c * t < c * 0x1_0000_0000_0000_0000,
                        c >= 1,
                ;
                lemma_pow2_below((-k - 1) as nat, t as nat, 64);
            }
        }
    }
    r
}

/// `x * (k as f64)` for a small integer `k`.
pub fn times_small_exec(x: Binary64, k: u64) -> (r: Binary64)
    requires
        well_formed(x, -117, 12),
        1 <= k <= 128,
    ensures
        r.pair() == times_small(x.pair(), k as nat),
        well_formed(r, -126, 20),
{
    proof {
        lemma_pow2_values();
        lemma2_to64();
    }
    let (xn, xd) = value_parts(x);
    proof {
        if x.exp >= 0 {
            lemma_pow2_le(x.exp as nat, 12);
        } else {
            lemma_pow2_le((-x.exp) as nat, 117);
        }
        assert(xn * (k as u128) <= 0x20_0000_0000_0000u128 * 0x1000u128 * 128) by (nonlinear_arith)
            requires
                xn <= 0x20_0000_0000_0000u128 * 0x1000u128,
                k <= 128,
        ;
    }
    let r = nearest(xn * (k as u128), xd);
    proof {
        assert(pow2(117) == 0x20_0000_0000_0000_0000_0000_0000_0000) by {
            lemma_pow2_adds(64, 53);
        }
        if x.exp < 0 {
            lemma_pow2_le((-x.exp) as nat, 117);
        }
        if x.mant == 0 {
            assert(x.exp == 0);
            assert(xn == 0) by (nonlinear_arith)
                requires
                    xn == (x.mant as nat) * pow2(x.exp as nat),
                    x.mant == 0,
            ;
            assert(xn * k == 0) by (nonlinear_arith)
                requires
                    xn == 0,
            ;
        }
        if x.mant > 0 {
            let kk = r.exp + 52;
            let num = xn * k;
            assert(xn >= 1) by {
                if x.exp >= 0 {
                    lemma_pow2_pos(x.exp as nat);
                    assert(x.mant * pow2(x.exp as nat) >= 1) by (nonlinear_arith)
                        requires
                            x.mant >= 1,
                            pow2(x.exp as nat) >= 1,
                    ;
                }
            }
            assert(num >= 1) by (nonlinear_arith)
                requires
                    xn >= 1,
                    k >= 1,
                    num == xn * k,
            ;
            if kk >= 0 {
                let t = pow2(kk as nat);
                assert(xn <= 0x2_0000_0000_0000_0000 * xd) by {
                    if x.exp >= 0 {
                    } else {
                        lemma_pow2_pos((-x.exp) as nat);
                    }
                }
                assert(xd * t <= xd * 0x100_0000_0000_0000_0000) by (nonlinear_arith)
                    requires
                        xd * t <= num,
                        num == xn * k,
                        k <= 128,
                        xn <= 0x2_0000_0000_0000_0000 * xd,
                ;
                assert(t <= 0x100_0000_0000_0000_0000) by (nonlinear_arith)
                    requires
                        xd * t <= xd * 0x100_0000_0000_0000_0000,
                        xd >= 1,
                ;
                lemma_pow2_adds(64, 9);
                assert(pow2(73) == 0x200_0000_0000_0000_0000);
                lemma_pow2_below(kk as nat, (t + 1) as nat, 73);
            } else {
                let t = pow2((-kk - 1) as nat);
                assert(xn >= 0x10_0000_0000_0000) by {
                    if x.exp >= 0 {
                        lemma_pow2_pos(x.exp as nat);
                        assert(x.mant * pow2(x.exp as nat) >= x.mant * 1) by (nonlinear_arith)
                            requires
                                pow2(x.exp as nat) >= 1,
                        ;
                    }
                }
                assert(0x10_0000_0000_0000 * t < 0x20_0000_0000_0000_0000_0000_0000_0000) by (nonlinear_arith)
                    requires
                        num * t < xd,
                        num == xn * k,
                        k >= 1,
                        xn >= 0x10_0000_0000_0000,
                        xd <= 0x20_0000_0000_0000_0000_0000_0000_0000,
                ;
                lemma_pow2_adds(52, 65);
                lemma_pow2_adds(64, 1);
                assert(pow2(117) == 0x20_0000_0000_0000_0000_0000_0000_0000) by {
                    lemma_pow2_adds(64, 53);
                }
                assert(t < pow2(65)) by (nonlinear_arith)
                    requires
                        0x10_0000_0000_0000 * t < 0x20_0000_0000_0000_0000_0000_0000_0000,
                        pow2(65) == 0x2_0000_0000_0000_0000,
                ;
                lemma_pow2_below((-kk - 1) as nat, t as nat, 65);
            }
        }
    }
    r
}

/// The integer part of a binary64 number, saturating at `u64::MAX`, as
/// `x as u64` gives it.
pub open spec fn floor_saturating(v: (nat, int)) -> u64 {
    let f = value_num(v) / value_den(v);
    if f > u64::MAX {
        u64::MAX
    } else {
        f as u64
    }
}

/// `x as u64`.
pub fn floor_saturating_exec(v: Binary64) -> (r: u64)
    requires
        well_formed(v, -126, 20),
    ensures
        r == floor_saturating(v.pair()),
{
    let (n, d) = value_parts(v);
    let f = n / d;
    if f > u64::MAX as u128 {
        u64::MAX
    } else {
        f as u64
    }
}

/// `x >= 1.0`.
pub open spec fn at_least_one(v: (nat, int)) -> bool {
    value_num(v) >= value_den(v)
}

} // verus!

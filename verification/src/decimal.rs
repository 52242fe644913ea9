//! Decimal numerals of integers and fixed-point numbers.
use vstd::prelude::*;

verus! {

/// The ASCII digit for `d` (taken modulo ten).
pub open spec fn digit(d: nat) -> char {
    seq!['0', '1', '2', '3', '4', '5', '6', '7', '8', '9'][(d % 10) as int]
}

/// The decimal numeral of `n`, without sign or leading zeros ("0" for zero).
pub open spec fn decimal(n: nat) -> Seq<char>
    decreases n,
{
    if n < 10 {
        seq![digit(n)]
    } else {
        decimal(n / 10).push(digit(n % 10))
    }
}

/// `s` preceded by as many zeros as make it `width` characters long.
pub open spec fn zero_padded(s: Seq<char>, width: nat) -> Seq<char> {
    if s.len() >= width {
        s
    } else {
        Seq::new((width - s.len()) as nat, |i: int| '0') + s
    }
}

/// `10^p`.
pub open spec fn pow10(p: nat) -> nat
    decreases p,
{
    if p == 0 {
        1
    } else {
        10 * pow10((p - 1) as nat)
    }
}

/// A non-negative number `scaled / 10^p` written with exactly `p` digits
/// after the decimal point (and no point when `p` is zero).
pub open spec fn fixed_point(scaled: nat, p: nat) -> Seq<char> {
    let whole = decimal(scaled / pow10(p));
    if p == 0 {
        whole
    } else {
        whole.push('.') + zero_padded(decimal(scaled % pow10(p)), p)
    }
}

fn digit_str(d: u128) -> (s: &'static str)
    requires
        d < 10,
    ensures
        s@ == seq![digit(d as nat)],
{
    proof {
        reveal_strlit("0");
        reveal_strlit("1");
        reveal_strlit("2");
        reveal_strlit("3");
        reveal_strlit("4");
        reveal_strlit("5");
        reveal_strlit("6");
        reveal_strlit("7");
        reveal_strlit("8");
        reveal_strlit("9");
    }
    match d {
        0 => "0",
        1 => "1",
        2 => "2",
        3 => "3",
        4 => "4",
        5 => "5",
        6 => "6",
        7 => "7",
        8 => "8",
        _ => "9",
    }
}

/// The decimal numeral of `n`.
pub fn decimal_string(n: u128) -> (s: String)
    ensures
        s@ == decimal(n as nat),
    decreases n,
{
    if n < 10 {
        String::from_str(digit_str(n))
    } else {
        let mut s = decimal_string(n / 10);
        s.append(digit_str(n % 10));
        s
    }
}

/// `10^p` for the small powers this crate prints with.
pub fn pow10_u128(p: u32) -> (r: u128)
    requires
        p <= 4,
    ensures
        r == pow10(p as nat),
        1 <= r <= 10000,
{
    reveal_with_fuel(pow10, 5);
    match p {
        0 => 1,
        1 => 10,
        2 => 100,
        3 => 1000,
        _ => 10000,
    }
}

/// Writes `scaled / 10^p` with exactly `p` digits after the point.
pub fn fixed_point_string(scaled: u128, p: u32) -> (s: String)
    requires
        p <= 4,
    ensures
        s@ == fixed_point(scaled as nat, p as nat),
{
    let unit = pow10_u128(p);
    let mut s = decimal_string(scaled / unit);
    if p == 0 {
        return s;
    }
    let frac = decimal_string(scaled % unit);
    let flen = frac.as_str().unicode_len();
    s.append(".");
    let mut i = flen;
    let ghost head = s@;
    while i < p as usize
        invariant
            flen == frac@.len(),
            flen <= i <= (if flen <= p { p as usize } else { flen }),
            s@ == head + Seq::new((i - flen) as nat, |j: int| '0'),
        decreases p - i,
    {
        s.append("0");
        proof {
            reveal_strlit("0");
            assert(s@ =~= head + Seq::new((i + 1 - flen) as nat, |j: int| '0'));
        }
        i = i + 1;
    }
    s.append(frac.as_str());
    proof {
        reveal_strlit(".");
        if flen >= p {
            assert(s@ =~= decimal((scaled / unit) as nat).push('.') + frac@);
        } else {
            assert(s@ =~= decimal((scaled / unit) as nat).push('.') + zero_padded(frac@, p as nat));
        }
    }
    s
}

} // verus!

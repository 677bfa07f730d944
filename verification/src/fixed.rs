//! Decimal fixed-point numbers and the exact integer arithmetic behind them.
//!
//! What the library is given is a [`Fixed`]. What it works out of that may be
//! larger than a `Fixed` can hold, and is then a [`Wide`], which holds every
//! such result exactly.

use vstd::prelude::*;
use vstd::arithmetic::div_mod::{lemma_fundamental_div_mod, lemma_fundamental_div_mod_converse};

verus! {

/// Number of raw units in the value one: a raw unit is `10^-12`.
pub const ONE: i64 = 1_000_000_000_000;

/// A decimal fixed-point number, held as a count of units of `10^-12`.
#[derive(Clone, Copy, Debug, PartialEq, Eq, PartialOrd, Ord)]
pub struct Fixed {
    pub raw: i64,
}

impl View for Fixed {
    type V = int;

    /// The number of raw units, as a mathematical integer.
    open spec fn view(&self) -> int {
        self.raw as int
    }
}

/// The absolute value of `x`.
pub open spec fn magnitude(x: int) -> int {
    if x < 0 {
        -x
    } else {
        x
    }
}

/// `size` with the given sign.
pub open spec fn signed(negative: bool, size: int) -> int {
    if negative {
        -size
    } else {
        size
    }
}

/// What one unit of the upper half of a [`Wide`] counts for: `2^128`.
pub open spec fn limb() -> int {
    0x1_0000_0000_0000_0000_0000_0000_0000_0000int
}

/// A decimal fixed-point number of up to 256 bits and a sign, held as a count
/// of units of `10^-12`: the count is `high * 2^128 + low`.
#[derive(Clone, Copy, Debug, PartialEq, Eq)]
pub struct Wide {
    pub negative: bool,
    pub high: u128,
    pub low: u128,
}

impl View for Wide {
    type V = int;

    /// The number of raw units, as a mathematical integer.
    open spec fn view(&self) -> int {
        signed(self.negative, self.high * limb() + self.low)
    }
}

impl Wide {
    /// Zero has no sign, so that equal numbers are held alike.
    pub open spec fn is_canonical(&self) -> bool {
        self.negative ==> self.high != 0 || self.low != 0
    }

    /// The number with the given sign and size in raw units.
    pub fn from_sign_size(negative: bool, high: u128, low: u128) -> (r: Wide)
        ensures
            r@ == signed(negative, high * limb() + low),
            r.is_canonical(),
            r.high == high,
            r.low == low,
    {
        Wide { negative: negative && (high != 0 || low != 0), high, low }
    }
}

/// Two numbers that are held without a signed zero and count the same raw
/// units are the same in every field.
pub proof fn lemma_wide_is_its_value(first: Wide, second: Wide)
    requires
        first.is_canonical(),
        second.is_canonical(),
        first@ == second@,
    ensures
        first == second,
{
    let unit = limb();
    assert(first.high * unit + first.low == second.high * unit + second.low);
    assert(first.high == second.high) by (nonlinear_arith)
        requires
            first.high * unit + first.low == second.high * unit + second.low,
            0 <= first.low < unit,
            0 <= second.low < unit,
    ;
}

/// The raw units of each number of a sequence.
pub open spec fn raw_units(numbers: Seq<Fixed>) -> Seq<int> {
    Seq::new(numbers.len(), |i: int| numbers[i]@)
}

/// The quotient of `a` by `b`, rounded towards zero.
pub open spec fn trunc_div(a: int, b: int) -> int
    recommends
        b != 0,
{
    if a >= 0 && b > 0 {
        a / b
    } else if a >= 0 {
        -(a / (-b))
    } else if b > 0 {
        -((-a) / b)
    } else {
        (-a) / (-b)
    }
}

proof fn lemma_quotient_below_multiplier(q: int, rem: int, r: int, m: int, d: int)
    by (nonlinear_arith)
    requires
        q * d + rem == r * m,
        0 <= rem,
        0 <= r < d,
        0 < m,
    ensures
        q < m,
{
}

/// Long multiplication and division at once: the quotient and remainder of
/// `r * m` by `d`, for `r < d`, without forming the product.
fn mul_rem(r: u128, m: u64, d: u128) -> (res: (u64, u128))
    requires
        r < d,
    ensures
        res.0 * d + res.1 == r * m,
        res.1 < d,
        m == 0 ==> res.0 == 0,
        m > 0 ==> res.0 < m,
    decreases m,
{
    if m == 0 {
        return (0, 0);
    }
    let half: u64 = m / 2;
    let (hq, hrem) = mul_rem(r, half, d);
    let mut q: u64 = 0;
    let mut rem: u128 = 0;
    if hrem >= d - hrem {
        rem = hrem - (d - hrem);
        q = 2 * hq + 1;
    } else {
        rem = hrem + hrem;
        q = 2 * hq;
    }
    assert(q * d + rem == 2 * (r * half)) by (nonlinear_arith)
        requires
            hq * d + hrem == r * half,
            (q == 2 * hq + 1 && rem == 2 * hrem - d) || (q == 2 * hq && rem == 2 * hrem),
    ;
    if m % 2 == 1 {
        let ghost q1 = q;
        let ghost rem1 = rem;
        if rem >= d - r {
            rem = rem - (d - r);
            q = q + 1;
        } else {
            rem = rem + r;
        }
        assert(q * d + rem == r * m) by (nonlinear_arith)
            requires
                q1 * d + rem1 == 2 * (r * half),
                m == 2 * half + 1,
                (q == q1 + 1 && rem == rem1 + r - d) || (q == q1 && rem == rem1 + r),
        ;
    } else {
        assert(q * d + rem == r * m) by (nonlinear_arith)
            requires
                q * d + rem == 2 * (r * half),
                m == 2 * half,
        ;
    }
    proof {
        lemma_quotient_below_multiplier(q as int, rem as int, r as int, m as int, d as int);
    }
    (q, rem)
}

/// The sum `x * m + c` in two halves of 128 bits.
fn wide_mul_add(x: u128, m: u64, c: u64) -> (r: (u128, u128))
    ensures
        r.0 * limb() + r.1 == x * m + c,
        r.0 <= 0x1_0000_0000_0000_0000,
{
    let x1: u128 = x / 0x1_0000_0000_0000_0000;
    let x0: u128 = x % 0x1_0000_0000_0000_0000;
    assert(x0 * m + c <= 0xffff_ffff_ffff_ffff * 0xffff_ffff_ffff_ffff + 0xffff_ffff_ffff_ffff
        && x1 * m <= 0xffff_ffff_ffff_ffff * 0xffff_ffff_ffff_ffff) by (nonlinear_arith)
        requires
            0 <= x0 <= 0xffff_ffff_ffff_ffff,
            0 <= x1 <= 0xffff_ffff_ffff_ffff,
            0 <= m <= 0xffff_ffff_ffff_ffff,
            0 <= c <= 0xffff_ffff_ffff_ffff,
    ;
    let p0: u128 = x0 * (m as u128) + (c as u128);
    let p1: u128 = x1 * (m as u128);
    assert(x * m + c == p1 * 0x1_0000_0000_0000_0000 + p0) by (nonlinear_arith)
        requires
            x == x1 * 0x1_0000_0000_0000_0000 + x0,
            p0 == x0 * m + c,
            p1 == x1 * m,
    ;
    let t: u128 = (p1 % 0x1_0000_0000_0000_0000) + (p0 / 0x1_0000_0000_0000_0000);
    let low: u128 = (t % 0x1_0000_0000_0000_0000) * 0x1_0000_0000_0000_0000 + (p0
        % 0x1_0000_0000_0000_0000);
    let high: u128 = p1 / 0x1_0000_0000_0000_0000 + t / 0x1_0000_0000_0000_0000;
    (high, low)
}

/// The sum of a number in two halves and `x`, in two halves.
fn wide_add(high: u128, low: u128, x: u128) -> (r: (u128, u128))
    requires
        high < u128::MAX,
    ensures
        r.0 * limb() + r.1 == high * limb() + low + x,
        r.0 <= high + 1,
{
    match low.checked_add(x) {
        Some(sum) => (high, sum),
        None => (high + 1, low - (u128::MAX - x) - 1),
    }
}

/// The quotient of `a * m + c` by `d`, rounded down, in two halves of 128
/// bits: the quotient is `q.0 * 2^128 + q.1`. Neither the product nor the sum
/// is formed in one piece, so nothing overflows on the way.
pub fn mul_add_div(a: u128, m: u64, c: u128, d: u128) -> (q: (u128, u128))
    requires
        d > 0,
    ensures
        q.0 * limb() + q.1 == (a * m + c) / (d as int),
{
    let whole: u128 = a / d;
    let rest: u128 = a % d;
    let (fq, frem) = mul_rem(rest, m, d);
    let extra: u128 = c / d;
    let left: u128 = c % d;
    let carry: u128 = if frem >= d - left {
        1
    } else {
        0
    };
    let ghost last: int = if carry == 1 {
        frem + left - d
    } else {
        frem + left
    };
    proof {
        lemma_fundamental_div_mod(a as int, d as int);
        lemma_fundamental_div_mod(c as int, d as int);
    }
    assert(a * m + c == (whole * m + fq + extra + carry) * d + last) by (nonlinear_arith)
        requires
            a == d * whole + rest,
            c == d * extra + left,
            fq * d + frem == rest * m,
            last == frem + left - carry * d,
    ;
    proof {
        lemma_fundamental_div_mod_converse(
            a * m + c,
            d as int,
            whole * m + fq + extra + carry,
            last,
        );
    }
    let (high, low) = wide_mul_add(whole, m, fq);
    let (high, low) = wide_add(high, low, extra);
    wide_add(high, low, carry)
}

/// The absolute value of `x`, which always fits unsigned.
pub fn magnitude_of(x: i128) -> (m: u128)
    ensures
        m == magnitude(x as int),
{
    if x >= 0 {
        x as u128
    } else {
        ((-(x + 1)) as u128) + 1
    }
}

impl Fixed {
    /// The number zero.
    pub fn zero() -> (r: Fixed)
        ensures
            r@ == 0,
    {
        Fixed { raw: 0 }
    }

    /// The number one.
    pub fn one() -> (r: Fixed)
        ensures
            r@ == ONE,
    {
        Fixed { raw: ONE }
    }
}

} // verus!

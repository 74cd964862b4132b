//! Arithmetic of binary floating point with a 53-bit significand, carried out
//! exactly on integers: every result is the nearest such number, ties going to
//! the even significand.
//!
//! Exponents are unbounded. That changes nothing where the result is a whole
//! number of 64 bits: what would overflow is capped, and what would underflow
//! is less than one.
use vstd::arithmetic::power2::*;
use vstd::prelude::*;

verus! {

/// The number with this significand and this power of two.
#[derive(Debug, Clone, Copy, PartialEq, Eq, Structural)]
pub struct Double {
    pub mantissa: u64,
    pub exponent: i128,
}

/// A ratio with a power of two taken out of it.
pub open spec fn over(n: nat, d: nat, e: int) -> (nat, nat) {
    if e >= 0 {
        (n, d * pow2(e as nat))
    } else {
        (n * pow2((-e) as nat), d)
    }
}

/// Whether a ratio, with this power of two taken out of it, has a whole part
/// of 53 bits.
pub open spec fn fits_at(n: nat, d: nat, e: int) -> bool {
    let (a, b) = over(n, d, e);
    4503599627370496 * b <= a < 9007199254740992 * b
}

/// The whole number nearest to a ratio; of two that are equally near, the
/// even one.
pub open spec fn half_even(a: nat, b: nat) -> nat {
    let q = a / b;
    let r = a % b;
    if 2 * r > b || (2 * r == b && q % 2 == 1) {
        q + 1
    } else {
        q
    }
}

/// The power of two of the number nearest to a ratio.
pub open spec fn exponent_of(n: nat, d: nat) -> int {
    choose|e: int| fits_at(n, d, e)
}

/// The number nearest to a positive ratio: its significand and its power of
/// two.
pub open spec fn nearest(n: nat, d: nat) -> (nat, int) {
    let e = exponent_of(n, d);
    let (a, b) = over(n, d, e);
    (half_even(a, b), e)
}

/// The quotient of two positive numbers.
pub open spec fn quotient(x: (nat, int), y: (nat, int)) -> (nat, int) {
    let (m, e) = nearest(x.0, y.0);
    (m, e + x.1 - y.1)
}

/// Whether a number is at most another.
pub open spec fn at_most(x: (nat, int), y: (nat, int)) -> bool {
    if x.1 <= y.1 {
        x.0 <= y.0 * pow2((y.1 - x.1) as nat)
    } else {
        x.0 * pow2((x.1 - y.1) as nat) <= y.0
    }
}

/// The product of a positive number and a whole number.
pub open spec fn product(x: (nat, int), k: nat) -> (nat, int) {
    let (m, e) = nearest(x.0 * k, 1);
    (m, e + x.1)
}

/// The whole part of a number.
pub open spec fn whole(x: (nat, int)) -> nat {
    if x.1 >= 0 {
        x.0 * pow2(x.1 as nat)
    } else {
        x.0 / pow2((-x.1) as nat)
    }
}

/// What 64 bits hold of a figure.
pub open spec fn capped(n: nat) -> u64 {
    if n > u64::MAX {
        u64::MAX
    } else {
        n as u64
    }
}

proof fn lemma_fits_scaled(n: nat, d: nat, e: int, k: nat)
    requires
        fits_at(n, d, e),
        e + k >= 0,
    ensures
        4503599627370496 * (d * pow2((e + k) as nat)) <= n * pow2(k) < 9007199254740992 * (d * pow2(
            (e + k) as nat,
        )),
{
    if e >= 0 {
        lemma_pow2_adds(e as nat, k);
        lemma_pow2_pos(k);
        let p = pow2(e as nat);
        let q = pow2(k);
        assert(pow2((e + k) as nat) == p * q);
        assert(4503599627370496 * (d * (p * q)) <= n * q < 9007199254740992 * (d * (p * q)))
            by (nonlinear_arith)
            requires
                4503599627370496 * (d * p) <= n < 9007199254740992 * (d * p),
                q > 0,
        ;
    } else {
        let p = pow2((-e) as nat);
        let q = pow2((e + k) as nat);
        lemma_pow2_adds((-e) as nat, (e + k) as nat);
        lemma_pow2_pos((e + k) as nat);
        assert(pow2(k) == p * q);
        assert(4503599627370496 * (d * q) <= n * (p * q) < 9007199254740992 * (d * q))
            by (nonlinear_arith)
            requires
                4503599627370496 * d <= n * p < 9007199254740992 * d,
                q > 0,
        ;
    }
}

/// A ratio has one power of two that leaves a whole part of 53 bits.
pub proof fn lemma_exponent_is_unique(n: nat, d: nat, e: int, f: int)
    requires
        fits_at(n, d, e),
        fits_at(n, d, f),
        d > 0,
    ensures
        e == f,
{
    lemma_exponent_order(n, d, e, f);
    lemma_exponent_order(n, d, f, e);
}

proof fn lemma_exponent_order(n: nat, d: nat, e: int, f: int)
    requires
        fits_at(n, d, e),
        fits_at(n, d, f),
        d > 0,
    ensures
        e >= f,
{
    if e < f {
        let k: nat = if e >= 0 {
            0
        } else {
            (-e) as nat
        };
        lemma_fits_scaled(n, d, e, k);
        lemma_fits_scaled(n, d, f, k);
        let low = pow2((e + k) as nat);
        let high = pow2((f + k) as nat);
        lemma_pow2_unfold((e + k + 1) as nat);
        if e + 1 < f {
            lemma_pow2_strictly_increases((e + k + 1) as nat, (f + k) as nat);
        }
        assert(high >= 2 * low);
        assert(9007199254740992 * (d * low) <= 4503599627370496 * (d * high)) by (nonlinear_arith)
            requires
                high >= 2 * low,
                d > 0,
        ;
    }
}

/// What `exponent_of` is, once one such power of two is known.
pub proof fn lemma_exponent_of(n: nat, d: nat, e: int)
    requires
        fits_at(n, d, e),
        d > 0,
    ensures
        exponent_of(n, d) == e,
{
    lemma_exponent_is_unique(n, d, exponent_of(n, d), e);
}

/// The whole number nearest to a ratio; of two that are equally near, the
/// even one.
pub(crate) fn round_half_even(a: u128, b: u128) -> (r: u128)
    requires
        b > 0,
        a / b < u64::MAX,
    ensures
        r == half_even(a as nat, b as nat),
{
    let q: u128 = a / b;
    let r: u128 = a % b;
    if r > b - r || (r == b - r && q % 2 == 1) {
        q + 1
    } else {
        q
    }
}

proof fn lemma_exponent_bound(x: nat, y: nat, k: nat)
    requires
        x > 0,
        y == x * pow2(k),
        y <= u128::MAX,
    ensures
        k < 128,
{
    if k >= 128 {
        lemma2_to64();
        lemma_pow2_adds(64, 64);
        if k > 128 {
            lemma_pow2_strictly_increases(128, k);
        }
        assert(x * pow2(k) >= pow2(k)) by (nonlinear_arith)
            requires
                x >= 1,
        ;
    }
}

/// The number nearest to a positive ratio.
pub fn round_ratio(n: u128, d: u128) -> (r: Double)
    requires
        0 < n,
        0 < d < 0x4000000000000000000,
    ensures
        (r.mantissa as nat, r.exponent as int) == nearest(n as nat, d as nat),
        fits_at(n as nat, d as nat, r.exponent as int),
        4503599627370496 <= r.mantissa <= 9007199254740992,
        -128 < r.exponent < 128,
{
    let mut a: u128 = n;
    let mut b: u128 = d;
    let mut e: i128 = 0;
    proof {
        lemma_pow2(0);
        lemma2_to64();
        assert(d * pow2(0) == d);
    }
    while a / b >= 9007199254740992
        invariant
            a == n,
            d > 0,
            0 <= e < b < 0x10000000000000000000,
            b == d * pow2(e as nat),
            e > 0 ==> a >= 4503599627370496 * b,
        decreases a / b,
    {
        assert(a >= 9007199254740992 * b) by (nonlinear_arith)
            requires
                a / b >= 9007199254740992,
                b > 0,
        ;
        proof {
            lemma_pow2_unfold((e + 1) as nat);
            assert(d * pow2((e + 1) as nat) == 2 * (d * pow2(e as nat))) by (nonlinear_arith)
                requires
                    pow2((e + 1) as nat) == 2 * pow2(e as nat),
            ;
            assert(a as int / (2 * b) < a as int / (b as int)) by (nonlinear_arith)
                requires
                    a >= 9007199254740992 * b,
                    b > 0,
            ;
        }
        b = b * 2;
        e = e + 1;
    }
    assert(a < 9007199254740992 * b) by (nonlinear_arith)
        requires
            a / b < 9007199254740992,
            b > 0,
    ;
    if e == 0 {
        proof {
            assert(b == d) by {
                assert(d * pow2(0) == d);
            }
            assert(n * pow2(0) == n);
        }
        while a / b < 4503599627370496
            invariant
                b == d,
                0 < d < 0x4000000000000000000,
                a > 0,
                a < 9007199254740992 * b,
                e <= 0,
                -e < a,
                a == n * pow2((-e) as nat),
            decreases 9007199254740992 * b - a,
        {
            assert(a < 4503599627370496 * b) by (nonlinear_arith)
                requires
                    a / b < 4503599627370496,
                    b > 0,
            ;
            proof {
                lemma_pow2_unfold((-e + 1) as nat);
                assert(n * pow2((-e + 1) as nat) == 2 * (n * pow2((-e) as nat)))
                    by (nonlinear_arith)
                    requires
                        pow2((-e + 1) as nat) == 2 * pow2((-e) as nat),
                ;
            }
            a = a * 2;
            e = e - 1;
        }
        assert(a >= 4503599627370496 * b) by (nonlinear_arith)
            requires
                a / b >= 4503599627370496,
                b > 0,
        ;
    }
    proof {
        assert(over(n as nat, d as nat, e as int) == (a as nat, b as nat)) by {
            if e == 0 {
                assert(d * pow2(0) == d);
            }
        }
        lemma_exponent_of(n as nat, d as nat, e as int);
        lemma_exponent_bound(n as nat, a as nat, (if e < 0 { -e } else { 0 }) as nat);
        lemma_exponent_bound(d as nat, b as nat, (if e > 0 { e as int } else { 0 }) as nat);
    }
    assert(4503599627370496 <= a as int / (b as int) < 9007199254740992) by (nonlinear_arith)
        requires
            4503599627370496 * b <= a < 9007199254740992 * b,
            b > 0,
    ;
    let m: u128 = round_half_even(a, b);
    Double { mantissa: m as u64, exponent: e }
}

/// The number nearest to a whole number.
pub fn nearest_u64(x: u64) -> (r: Double)
    requires
        x > 0,
    ensures
        (r.mantissa as nat, r.exponent as int) == nearest(x as nat, 1),
        4503599627370496 <= r.mantissa <= 9007199254740992,
        -128 < r.exponent < 128,
{
    round_ratio(x as u128, 1)
}

proof fn lemma_raised_doubles(m: nat, k: nat)
    requires
        k > 0,
    ensures
        m * pow2(k) >= 2 * m,
{
    lemma2_to64();
    lemma_pow2_strictly_increases(0, k);
    assert(m * pow2(k) >= 2 * m) by (nonlinear_arith)
        requires
            pow2(k) >= 2,
    ;
}

/// Whether the quotient of two whole numbers, each rounded first, is at most a
/// number with a significand of 53 bits.
pub fn quotient_at_most(x: u64, y: u64, limit: Double) -> (r: bool)
    requires
        x > 0,
        y > 0,
        4503599627370496 <= limit.mantissa < 9007199254740992,
    ensures
        r == at_most(
            quotient(nearest(x as nat, 1), nearest(y as nat, 1)),
            (limit.mantissa as nat, limit.exponent as int),
        ),
{
    let a = nearest_u64(x);
    let b = nearest_u64(y);
    let q = round_ratio(a.mantissa as u128, b.mantissa as u128);
    let e: i128 = q.exponent + a.exponent - b.exponent;
    proof {
        if e < limit.exponent {
            let k = (limit.exponent - e) as nat;
            lemma_raised_doubles(limit.mantissa as nat, k);
        } else if e > limit.exponent {
            let k = (e - limit.exponent) as nat;
            lemma_raised_doubles(q.mantissa as nat, k);
        } else {
            lemma_pow2(0);
            lemma2_to64();
        }
    }
    if e < limit.exponent {
        true
    } else if e > limit.exponent {
        false
    } else {
        q.mantissa <= limit.mantissa
    }
}

/// The whole part of a number, as far as 64 bits hold it.
pub fn truncate(x: Double) -> (r: u64)
    ensures
        r == capped(whole((x.mantissa as nat, x.exponent as int))),
{
    let mut i: i128 = 0;
    let mut v: u64 = x.mantissa;
    proof {
        lemma_pow2(0);
        lemma2_to64();
    }
    if x.exponent >= 0 {
        assert(v == x.mantissa * pow2(0));
        while i < x.exponent
            invariant
                0 <= i <= x.exponent,
                v == x.mantissa * pow2(i as nat),
            decreases x.exponent - i,
        {
            if v == 0 {
                proof {
                    lemma_pow2_pos(i as nat);
                    assert(x.mantissa == 0) by (nonlinear_arith)
                        requires
                            x.mantissa * pow2(i as nat) == 0,
                            pow2(i as nat) > 0,
                    ;
                    assert(0 * pow2(x.exponent as nat) == 0);
                }
                return 0;
            }
            proof {
                lemma_pow2_unfold((i + 1) as nat);
                assert(x.mantissa * pow2((i + 1) as nat) == 2 * (x.mantissa * pow2(i as nat)))
                    by (nonlinear_arith)
                    requires
                        pow2((i + 1) as nat) == 2 * pow2(i as nat),
                ;
            }
            if v > u64::MAX / 2 {
                proof {
                    if i + 1 < x.exponent {
                        lemma_pow2_strictly_increases((i + 1) as nat, x.exponent as nat);
                    }
                    assert(x.mantissa * pow2(x.exponent as nat) >= x.mantissa * pow2(
                        (i + 1) as nat,
                    )) by (nonlinear_arith)
                        requires
                            pow2(x.exponent as nat) >= pow2((i + 1) as nat),
                    ;
                }
                return u64::MAX;
            }
            v = v * 2;
            i = i + 1;
        }
        v
    } else {
        assert(v as nat == x.mantissa as nat / pow2(0));
        while i > x.exponent
            invariant
                x.exponent <= i <= 0,
                v as nat == x.mantissa as nat / pow2((-i) as nat),
            decreases i - x.exponent,
        {
            proof {
                lemma_pow2_pos((-i) as nat);
                lemma_pow2_unfold((-i + 1) as nat);
                vstd::arithmetic::div_mod::lemma_div_denominator(
                    x.mantissa as int,
                    pow2((-i) as nat) as int,
                    2,
                );
                assert(pow2((-i) as nat) * 2 == pow2((-i + 1) as nat));
            }
            if v == 0 {
                proof {
                    let p = pow2((-i) as nat);
                    let q = pow2((-x.exponent) as nat);
                    lemma_pow2_strictly_increases((-i) as nat, (-x.exponent) as nat);
                    assert(x.mantissa < p) by (nonlinear_arith)
                        requires
                            x.mantissa as nat / p == 0,
                            p > 0,
                    ;
                    assert(x.mantissa as nat / q == 0) by (nonlinear_arith)
                        requires
                            x.mantissa < p,
                            p < q,
                    ;
                }
                return 0;
            }
            v = v / 2;
            i = i - 1;
        }
        v
    }
}

/// An interval in seconds, as the floating point number with this significand
/// and this power of two.
#[derive(Debug, Clone, Copy, PartialEq, Eq, Structural)]
pub struct Seconds {
    pub mantissa: u64,
    pub exponent: i32,
}

/// Bytes per second over an interval in seconds, rounded down: the quotient
/// of the two as floating point numbers. An interval of no length makes any
/// bytes infinitely many a second.
pub open spec fn per_second(bytes: nat, seconds: Seconds) -> u64 {
    if bytes == 0 {
        0
    } else if seconds.mantissa == 0 {
        u64::MAX
    } else {
        capped(
            whole(
                quotient(
                    nearest(bytes, 1),
                    (seconds.mantissa as nat, seconds.exponent as int),
                ),
            ),
        )
    }
}

/// Bytes per second over an interval in seconds.
pub fn rate(bytes: u64, seconds: Seconds) -> (r: u64)
    ensures
        r == per_second(bytes as nat, seconds),
{
    if bytes == 0 {
        return 0;
    }
    if seconds.mantissa == 0 {
        return u64::MAX;
    }
    let x = nearest_u64(bytes);
    let q = round_ratio(x.mantissa as u128, seconds.mantissa as u128);
    truncate(
        Double {
            mantissa: q.mantissa,
            exponent: q.exponent + (x.exponent - seconds.exponent as i128),
        },
    )
}


// ---------------------------------------------------------------------------
// Signed numbers
// ---------------------------------------------------------------------------

/// A number with its sign. Zero has the significand zero.
#[derive(Debug, Clone, Copy, PartialEq, Eq, Structural)]
pub struct Real {
    pub negative: bool,
    pub mantissa: u64,
    pub exponent: i128,
}

/// The sign, significand and power of two of a number.
pub open spec fn parts(x: Real) -> (bool, nat, int) {
    (x.negative, x.mantissa as nat, x.exponent as int)
}

/// Zero.
pub open spec fn zero() -> (bool, nat, int) {
    (false, 0, 0)
}

/// A number from its sign and its size.
pub open spec fn signed(negative: bool, x: (nat, int)) -> (bool, nat, int) {
    (negative, x.0, x.1)
}

/// A number of millionths.
pub open spec fn millionths(v: int) -> (bool, nat, int) {
    if v == 0 {
        zero()
    } else {
        signed(
            v < 0,
            nearest(
                (if v < 0 {
                    -v
                } else {
                    v
                }) as nat,
                1000000,
            ),
        )
    }
}

/// The product of two numbers.
pub open spec fn times(x: (bool, nat, int), y: (bool, nat, int)) -> (bool, nat, int) {
    if x.1 == 0 || y.1 == 0 {
        zero()
    } else {
        let (m, e) = nearest(x.1 * y.1, 1);
        (x.0 != y.0, m, e + x.2 + y.2)
    }
}

/// The quotient of two numbers, the second of which is not zero.
pub open spec fn divided(x: (bool, nat, int), y: (bool, nat, int)) -> (bool, nat, int) {
    if x.1 == 0 {
        zero()
    } else {
        signed(x.0 != y.0, quotient((x.1, x.2), (y.1, y.2)))
    }
}

/// A number in units of a power of two that is not above its own.
pub open spec fn in_units(x: (bool, nat, int), e: int) -> int {
    let size = (x.1 * pow2((x.2 - e) as nat)) as int;
    if x.0 {
        -size
    } else {
        size
    }
}

/// The lower of the powers of two of two numbers.
pub open spec fn common_exponent(x: (bool, nat, int), y: (bool, nat, int)) -> int {
    if x.1 == 0 || (y.1 != 0 && y.2 < x.2) {
        y.2
    } else {
        x.2
    }
}

/// The exact difference of two numbers, in units of their lower power of two.
pub open spec fn gap(x: (bool, nat, int), y: (bool, nat, int)) -> int {
    let e = common_exponent(x, y);
    (if x.1 == 0 {
        0
    } else {
        in_units(x, e)
    }) - (if y.1 == 0 {
        0
    } else {
        in_units(y, e)
    })
}

/// The difference of two numbers, the first of which is greater.
pub open spec fn difference(x: (bool, nat, int), y: (bool, nat, int)) -> (bool, nat, int) {
    let (m, e) = nearest(gap(x, y) as nat, 1);
    (false, m, e + common_exponent(x, y))
}

/// Whether a number is above zero.
pub open spec fn is_positive(x: (bool, nat, int)) -> bool {
    !x.0 && x.1 > 0
}

/// The whole part of a number times `k`, as far as 64 bits hold it; zero for
/// a negative number.
pub open spec fn whole_times(x: (bool, nat, int), k: nat) -> u64 {
    if !is_positive(x) {
        0
    } else {
        capped(whole(product((x.1, x.2), k)))
    }
}

/// Whether a number is one that the operations here take: a significand of 53
/// bits and a power of two within a range.
pub open spec fn ordinary(x: Real, low: int, high: int) -> bool {
    (x.mantissa == 0 && x.exponent == 0) || (4503599627370496 <= x.mantissa <= 9007199254740992
        && low <= x.exponent <= high)
}

/// Bounds on the power of two that go with bounds on the ratio.
proof fn lemma_exponent_range(n: nat, d: nat, e: int, a: nat, b: nat)
    requires
        fits_at(n, d, e),
        d > 0,
        n < d * pow2(a),
        d <= n * pow2(b),
    ensures
        e < a - 52,
        e > -(b + 53),
{
    lemma2_to64();
    lemma2_to64_rest();
    let k: nat = if e >= 0 {
        b
    } else {
        ((-e) + b) as nat
    };
    lemma_fits_scaled(n, d, e, k);
    let up = pow2((e + k) as nat);
    let shift = pow2(k);
    lemma_pow2_pos(k);
    lemma_pow2_pos((e + k) as nat);
    if e >= a - 52 {
        // 2^52 * 2^e reaches 2^a.
        lemma_pow2_adds(52, (e + k) as nat);
        lemma_pow2_adds(a, k);
        if e + k + 52 > a + k {
            lemma_pow2_strictly_increases((a + k) as nat, (e + k + 52) as nat);
        }
        assert(4503599627370496 * up >= pow2(a) * shift);
        assert(4503599627370496 * (d * up) >= d * pow2(a) * shift) by (nonlinear_arith)
            requires
                4503599627370496 * up >= pow2(a) * shift,
                d > 0,
        ;
        assert(n * shift < d * pow2(a) * shift) by (nonlinear_arith)
            requires
                n < d * pow2(a),
                shift > 0,
        ;
    }
    if e <= -(b + 53) {
        // 2^53 * 2^e does not reach 2^-b.
        lemma_pow2_adds(53, (e + k) as nat);
        lemma_pow2_adds(b, (k - b) as nat);
        if e + k + 53 < k - b {
            lemma_pow2_strictly_increases((e + k + 53) as nat, (k - b) as nat);
        }
        let rest = pow2((k - b) as nat);
        assert(9007199254740992 * up <= rest);
        assert(d * rest <= n * shift) by (nonlinear_arith)
            requires
                d <= n * pow2(b),
                shift == pow2(b) * rest,
                rest >= 0,
        ;
        assert(9007199254740992 * (d * up) <= d * rest) by (nonlinear_arith)
            requires
                9007199254740992 * up <= rest,
                d > 0,
        ;
    }
}

/// A number of millionths.
pub fn from_millionths(v: i64) -> (r: Real)
    ensures
        parts(r) == millionths(v as int),
        ordinary(r, -72, -9),
{
    if v == 0 {
        return Real { negative: false, mantissa: 0, exponent: 0 };
    }
    let size: u128 = if v < 0 {
        (-(v as i128)) as u128
    } else {
        v as u128
    };
    let x = round_ratio(size, 1000000);
    proof {
        lemma2_to64();
        assert(pow2(20) == 1048576);
        assert(pow2(44) == 17592186044416) by {
            lemma_pow2_adds(32, 12);
        }
        assert(1000000 <= size * pow2(20)) by (nonlinear_arith)
            requires
                size >= 1,
                pow2(20) == 1048576,
        ;
        lemma_exponent_range(size as nat, 1000000, x.exponent as int, 44, 20);
    }
    Real { negative: v < 0, mantissa: x.mantissa, exponent: x.exponent }
}

/// The product of two numbers.
pub fn multiply(x: Real, y: Real) -> (r: Real)
    requires
        ordinary(x, -72, -9),
        ordinary(y, -72, -9),
    ensures
        parts(r) == times(parts(x), parts(y)),
        ordinary(r, x.exponent + y.exponent + 52, x.exponent + y.exponent + 54),
{
    if x.mantissa == 0 || y.mantissa == 0 {
        return Real { negative: false, mantissa: 0, exponent: 0 };
    }
    assert(20282409603651670423947251286016 <= x.mantissa * y.mantissa
        <= 81129638414606681695789005144064) by (nonlinear_arith)
        requires
            4503599627370496 <= x.mantissa <= 9007199254740992,
            4503599627370496 <= y.mantissa <= 9007199254740992,
    ;
    let n: u128 = x.mantissa as u128 * y.mantissa as u128;
    let p = round_ratio(n, 1);
    proof {
        lemma2_to64();
        lemma_pow2_adds(64, 43);
        assert(pow2(43) == 8796093022208) by {
            lemma_pow2_adds(32, 11);
        }
        lemma_product_exponent(n as nat, p.exponent as int);
    }
    Real {
        negative: x.negative != y.negative,
        mantissa: p.mantissa,
        exponent: p.exponent + x.exponent + y.exponent,
    }
}

proof fn lemma_product_exponent(n: nat, e: int)
    requires
        fits_at(n, 1, e),
        20282409603651670423947251286016 <= n <= 81129638414606681695789005144064,
    ensures
        52 <= e <= 54,
{
    lemma2_to64();
    lemma2_to64_rest();
    lemma_pow2_adds(64, 43);
    assert(pow2(43) == 8796093022208);
    lemma_exponent_range(n, 1, e, 107, 0);
    if e < 52 {
        // 2^53 * 2^e stays below 2^104.
        lemma_fits_scaled(n, 1, e, (if e >= 0 { 0 } else { -e }) as nat);
        let k = (if e >= 0 { 0 } else { -e }) as nat;
        if e >= 0 {
            if e < 51 {
                lemma_pow2_strictly_increases(e as nat, 51);
            }
            assert(pow2(51) == 2251799813685248);
            assert(n * pow2(0) == n);
            assert(1 * pow2((e + k) as nat) == pow2(e as nat));
        } else {
            assert(pow2((e + k) as nat) == 1);
            lemma_pow2_pos(k);
            assert(n * pow2(k) >= n) by (nonlinear_arith)
                requires
                    pow2(k) >= 1,
            ;
        }
    }
}

/// The quotient of two numbers, the second of which is not zero.
pub fn divide(x: Real, y: Real) -> (r: Real)
    requires
        y.mantissa > 0,
        -10000 < x.exponent < 10000,
        -10000 < y.exponent < 10000,
    ensures
        parts(r) == divided(parts(x), parts(y)),
        -30000 < r.exponent < 30000,
{
    if x.mantissa == 0 {
        return Real { negative: false, mantissa: 0, exponent: 0 };
    }
    let q = round_ratio(x.mantissa as u128, y.mantissa as u128);
    Real {
        negative: x.negative != y.negative,
        mantissa: q.mantissa,
        exponent: q.exponent + (x.exponent - y.exponent),
    }
}

/// The whole part of a number times `k`, as far as 64 bits hold it.
pub fn whole_product(x: Real, k: u64) -> (r: u64)
    requires
        0 < k <= 1000000,
        -30000 < x.exponent < 30000,
    ensures
        r == whole_times(parts(x), k as nat),
{
    if x.negative || x.mantissa == 0 {
        return 0;
    }
    assert(0 < x.mantissa * k <= u64::MAX * 1000000) by (nonlinear_arith)
        requires
            0 < x.mantissa <= u64::MAX,
            0 < k <= 1000000,
    ;
    let p = round_ratio(x.mantissa as u128 * k as u128, 1);
    truncate(Double { mantissa: p.mantissa, exponent: p.exponent + x.exponent })
}

/// A significand times a power of two.
fn raise(m: u64, k: u32) -> (r: i128)
    requires
        m <= 9007199254740992,
        k <= 70,
    ensures
        r == m * pow2(k as nat),
        0 <= r < 0x10000000000000000000000000000000,
{
    let mut v: i128 = m as i128;
    let mut i: u32 = 0;
    proof {
        lemma2_to64();
        assert(m * pow2(0) == m);
    }
    while i < k
        invariant
            i <= k <= 70,
            m <= 9007199254740992,
            v == m * pow2(i as nat),
        decreases k - i,
    {
        proof {
            lemma_pow2_unfold((i + 1) as nat);
            assert(m * pow2((i + 1) as nat) == 2 * (m * pow2(i as nat))) by (nonlinear_arith)
                requires
                    pow2((i + 1) as nat) == 2 * pow2(i as nat),
            ;
            lemma_raise_bound(m as nat, i as nat);
        }
        v = v * 2;
        i = i + 1;
    }
    proof {
        lemma_raise_bound(m as nat, k as nat);
    }
    v
}

proof fn lemma_raise_bound(m: nat, k: nat)
    requires
        m <= 9007199254740992,
        k <= 70,
    ensures
        m * pow2(k) < 0x10000000000000000000000000000000,
{
    lemma2_to64();
    lemma_pow2_adds(64, 6);
    if k < 70 {
        lemma_pow2_strictly_increases(k, 70);
    }
    assert(m * pow2(k) <= 9007199254740992 * 1180591620717411303424) by (nonlinear_arith)
        requires
            m <= 9007199254740992,
            pow2(k) <= 1180591620717411303424,
    ;
}

/// The difference of two numbers, where the first is greater.
pub fn subtract(x: Real, y: Real) -> (r: Option<Real>)
    requires
        x.mantissa <= 9007199254740992,
        y.mantissa <= 9007199254740992,
        -5000 < x.exponent < 5000,
        -5000 < y.exponent < 5000,
        x.mantissa != 0 && y.mantissa != 0 ==> -70 <= x.exponent - y.exponent <= 70,
    ensures
        match r {
            Some(d) => gap(parts(x), parts(y)) > 0 && parts(d) == difference(parts(x), parts(y))
                && -10000 < d.exponent < 10000,
            None => gap(parts(x), parts(y)) <= 0,
        },
{
    let e: i128 = if x.mantissa == 0 || (y.mantissa != 0 && y.exponent < x.exponent) {
        y.exponent
    } else {
        x.exponent
    };
    let a: i128 = if x.mantissa == 0 {
        0
    } else {
        let size: i128 = raise(x.mantissa, (x.exponent - e) as u32);
        if x.negative {
            -size
        } else {
            size
        }
    };
    let b: i128 = if y.mantissa == 0 {
        0
    } else {
        let size: i128 = raise(y.mantissa, (y.exponent - e) as u32);
        if y.negative {
            -size
        } else {
            size
        }
    };
    let n: i128 = a - b;
    assert(n == gap(parts(x), parts(y)));
    if n <= 0 {
        return None;
    }
    let d = round_ratio(n as u128, 1);
    Some(Real { negative: false, mantissa: d.mantissa, exponent: d.exponent + e })
}

/// What 64 bits hold of a figure is the figure, where they hold it, and the
/// most that they hold where they do not.
pub proof fn law_a_figure_is_kept_as_far_as_it_fits(n: nat)
    ensures
        n <= u64::MAX ==> capped(n) == n,
        n > u64::MAX ==> capped(n) == u64::MAX,
{
}

} // verus!

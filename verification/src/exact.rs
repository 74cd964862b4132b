//! Where the arithmetic of floating point gives the exact answer: quotients of
//! whole numbers that a significand holds.
use crate::double::{
    at_most, exponent_of, fits_at, half_even, lemma_exponent_of, nearest, over, per_second,
    product, quotient, whole, Seconds,
};
use vstd::arithmetic::div_mod::*;
use vstd::arithmetic::power2::*;
use vstd::prelude::*;

verus! {

/// A ratio, with this power of two taken out of it, as the nearest whole
/// number.
spec fn rounded(n: nat, d: nat, e: int) -> nat {
    half_even(over(n, d, e).0, over(n, d, e).1)
}

proof fn lemma_half_even_of_multiples(a: nat, b: nat, c: nat)
    requires
        b > 0,
        c > 0,
    ensures
        half_even(a * c, b * c) == half_even(a, b),
{
    let q = a as int / b as int;
    let r = a as int % b as int;
    lemma_fundamental_div_mod(a as int, b as int);
    lemma_mod_bound(a as int, b as int);
    assert(a * c == q * (b * c) + r * c) by (nonlinear_arith)
        requires
            a == b * q + r,
    ;
    assert(0 <= r * c < b * c) by (nonlinear_arith)
        requires
            0 <= r < b,
            c > 0,
    ;
    lemma_fundamental_div_mod_converse(a * c as int, b * c as int, q, r * c);
    assert((2 * (r * c) > b * c) == (2 * r > b)) by (nonlinear_arith)
        requires
            c > 0,
    ;
    assert((2 * (r * c) == b * c) == (2 * r == b)) by (nonlinear_arith)
        requires
            c > 0,
    ;
}

proof fn lemma_half_even_near(a: nat, b: nat)
    requires
        b > 0,
    ensures
        a as int / b as int <= half_even(a, b) <= a as int / b as int + 1,
        2 * (half_even(a, b) * b) <= 2 * a + b,
{
    let q = a as int / b as int;
    let r = a as int % b as int;
    lemma_fundamental_div_mod(a as int, b as int);
    lemma_mod_bound(a as int, b as int);
    lemma_div_pos_is_pos(a as int, b as int);
    assert(2 * (q * b) + 2 * r == 2 * a) by (nonlinear_arith)
        requires
            a == b * q + r,
    ;
    assert(2 * ((q + 1) * b) == 2 * (q * b) + 2 * b) by (nonlinear_arith);
}

/// Doubling what is divided raises the power of two by one.
proof fn lemma_double_above(n: nat, d: nat, e: int)
    requires
        d > 0,
    ensures
        fits_at(2 * n, d, e + 1) == fits_at(n, d, e),
        rounded(2 * n, d, e + 1) == rounded(n, d, e),
{
    if e >= 0 {
        let p = pow2(e as nat);
        lemma_pow2_unfold((e + 1) as nat);
        lemma_pow2_pos(e as nat);
        assert(d * (2 * p) == 2 * (d * p)) by (nonlinear_arith);
        assert(d * p > 0) by (nonlinear_arith)
            requires
                d > 0,
                p > 0,
        ;
        lemma_half_even_of_multiples(n, d * p, 2);
        assert(over(2 * n, d, e + 1) == (2 * n, 2 * (d * p)));
        assert(over(n, d, e) == (n, d * p));
    } else {
        let p = pow2((-e - 1) as nat);
        lemma_pow2_unfold((-e) as nat);
        assert((2 * n) * p == n * (2 * p)) by (nonlinear_arith);
        assert(over(n, d, e) == (n * (2 * p), d));
        if e == -1 {
            lemma2_to64();
            assert(p == 1);
            assert(over(2 * n, d, 0) == (2 * n, d * p));
            assert(d * p == d && n * (2 * p) == 2 * n) by (nonlinear_arith)
                requires
                    p == 1,
            ;
        } else {
            assert(over(2 * n, d, e + 1) == ((2 * n) * p, d));
        }
    }
}

/// Doubling what divides lowers the power of two by one.
proof fn lemma_double_below(n: nat, d: nat, e: int)
    requires
        d > 0,
    ensures
        fits_at(n, 2 * d, e - 1) == fits_at(n, d, e),
        rounded(n, 2 * d, e - 1) == rounded(n, d, e),
{
    if e > 0 {
        let p = pow2((e - 1) as nat);
        lemma_pow2_unfold(e as nat);
        assert((2 * d) * p == d * (2 * p)) by (nonlinear_arith);
        assert(over(n, d, e) == (n, d * (2 * p)));
        assert(over(n, 2 * d, e - 1) == (n, (2 * d) * p));
    } else {
        let p = pow2((-e) as nat);
        lemma_pow2_unfold((-e + 1) as nat);
        lemma2_to64();
        assert(n * (2 * p) == 2 * (n * p)) by (nonlinear_arith);
        lemma_half_even_of_multiples(n * p, d, 2);
        assert(over(n, 2 * d, e - 1) == (2 * (n * p), 2 * d));
        if e == 0 {
            assert(p == 1);
            assert(d * p == d && n * p == n) by (nonlinear_arith)
                requires
                    p == 1,
            ;
            assert(over(n, d, 0) == (n * p, d));
        } else {
            assert(over(n, d, e) == (n * p, d));
        }
    }
}

proof fn lemma_scale_above(n: nat, d: nat, e: int, k: nat)
    requires
        d > 0,
    ensures
        fits_at(n * pow2(k), d, e + k) == fits_at(n, d, e),
        rounded(n * pow2(k), d, e + k) == rounded(n, d, e),
    decreases k,
{
    lemma2_to64();
    if k == 0 {
        assert(n * 1 == n);
    } else {
        let p = pow2((k - 1) as nat);
        lemma_pow2_unfold(k);
        lemma_scale_above(n, d, e, (k - 1) as nat);
        lemma_double_above(n * p, d, e + k - 1);
        assert(2 * (n * p) == n * (2 * p)) by (nonlinear_arith);
    }
}

proof fn lemma_scale_below(n: nat, d: nat, e: int, k: nat)
    requires
        d > 0,
    ensures
        fits_at(n, d * pow2(k), e - k) == fits_at(n, d, e),
        rounded(n, d * pow2(k), e - k) == rounded(n, d, e),
    decreases k,
{
    lemma2_to64();
    if k == 0 {
        assert(d * 1 == d);
    } else {
        let p = pow2((k - 1) as nat);
        lemma_pow2_unfold(k);
        lemma_pow2_pos((k - 1) as nat);
        lemma_scale_below(n, d, e, (k - 1) as nat);
        assert(d * p > 0) by (nonlinear_arith)
            requires
                d > 0,
                p > 0,
        ;
        lemma_double_below(n, d * p, e - (k - 1));
        assert(2 * (d * p) == d * (2 * p)) by (nonlinear_arith);
    }
}

/// Every positive ratio has a power of two that leaves a whole part of 53
/// bits.
proof fn lemma_some_exponent(n: nat, d: nat) -> (e: int)
    requires
        n > 0,
        d > 0,
    ensures
        fits_at(n, d, e),
    decreases
            if n < 4503599627370496 * d {
                4503599627370496 * d - n
            } else if n >= 9007199254740992 * d {
                n - 9007199254740992 * d + 1
            } else {
                0
            },
{
    if n < 4503599627370496 * d {
        let e = lemma_some_exponent(2 * n, d);
        lemma_double_above(n, d, e - 1);
        e - 1
    } else if n >= 9007199254740992 * d {
        let e = lemma_some_exponent(n, 2 * d);
        lemma_double_below(n, d, e + 1);
        e + 1
    } else {
        lemma2_to64();
        assert(d * 1 == d);
        0
    }
}

/// The number nearest to a ratio keeps its significand under a power of two
/// above or below.
pub proof fn lemma_nearest_scales(n: nat, d: nat, up: nat, down: nat)
    requires
        n > 0,
        d > 0,
    ensures
        nearest(n * pow2(up), d * pow2(down)) == (nearest(n, d).0, nearest(n, d).1 + up - down),
        fits_at(n, d, nearest(n, d).1),
{
    let e = lemma_some_exponent(n, d);
    lemma_exponent_of(n, d, e);
    lemma_scale_above(n, d, e, up);
    let raised = n * pow2(up);
    lemma_scale_below(raised, d, e + up, down);
    lemma_pow2_pos(down);
    assert(d * pow2(down) > 0) by (nonlinear_arith)
        requires
            d > 0,
            pow2(down) > 0,
    ;
    lemma_exponent_of(raised, d * pow2(down), e + up - down);
}

proof fn lemma_lift(x: nat) -> (k: nat)
    requires
        0 < x < 9007199254740992,
    ensures
        4503599627370496 <= x * pow2(k) < 9007199254740992,
    decreases 9007199254740992 - x,
{
    lemma2_to64();
    if x >= 4503599627370496 {
        assert(x * 1 == x);
        0
    } else {
        let k = lemma_lift(2 * x);
        lemma_pow2_unfold(k + 1);
        let p = pow2(k);
        assert(x * (2 * p) == (2 * x) * p) by (nonlinear_arith);
        k + 1
    }
}

/// A whole number that a significand holds is not rounded.
pub proof fn lemma_whole_numbers_are_kept(x: nat) -> (k: nat)
    requires
        0 < x < 9007199254740992,
    ensures
        nearest(x, 1) == (x * pow2(k), -(k as int)),
        4503599627370496 <= x * pow2(k) < 9007199254740992,
{
    let k = lemma_lift(x);
    let m = x * pow2(k);
    lemma2_to64();
    assert(fits_at(m, 1, 0));
    lemma_exponent_of(m, 1, 0);
    assert(m * 1 == m);
    lemma_fundamental_div_mod_converse(m as int, 1, m as int, 0);
    assert(half_even(m, 1) == m);
    lemma_nearest_scales(x, 1, k, 0);
    k
}

/// A factor that both sides of a ratio have changes nothing.
pub proof fn lemma_common_factor(n: nat, d: nat, c: nat)
    requires
        n > 0,
        d > 0,
        c > 0,
    ensures
        nearest(n * c, d * c) == nearest(n, d),
{
    let e = lemma_some_exponent(n, d);
    lemma_exponent_of(n, d, e);
    let (a, b) = over(n, d, e);
    let p = if e >= 0 {
        pow2(e as nat)
    } else {
        pow2((-e) as nat)
    };
    lemma_pow2_pos(if e >= 0 {
        e as nat
    } else {
        (-e) as nat
    });
    assert(b > 0) by (nonlinear_arith)
        requires
            b == d || b == d * p,
            d > 0,
            p > 0,
    ;
    assert((d * c) * p == (d * p) * c && (n * c) * p == (n * p) * c) by (nonlinear_arith);
    assert(over(n * c, d * c, e) == (a * c, b * c));
    assert(4503599627370496 * (b * c) <= a * c < 9007199254740992 * (b * c)) by (nonlinear_arith)
        requires
            4503599627370496 * b <= a < 9007199254740992 * b,
            c > 0,
    ;
    assert(d * c > 0) by (nonlinear_arith)
        requires
            d > 0,
            c > 0,
    ;
    lemma_exponent_of(n * c, d * c, e);
    lemma_half_even_of_multiples(a, b, c);
}

/// The quotient of two whole numbers that a significand holds is rounded
/// once: it is the number nearest to their ratio.
pub proof fn law_a_quotient_is_rounded_once(x: nat, y: nat)
    requires
        0 < x < 9007199254740992,
        0 < y < 9007199254740992,
    ensures
        quotient(nearest(x, 1), nearest(y, 1)) == nearest(x, y),
{
    let up = lemma_whole_numbers_are_kept(x);
    let down = lemma_whole_numbers_are_kept(y);
    lemma_nearest_scales(x, y, up, down);
}

/// Whether a number is at most two hundredths, as floating point has them, is
/// decided as in exact arithmetic, for the ratio of a whole number to one that
/// is no smaller and at most a tebibyte.
pub proof fn law_two_hundredths_are_exact(x: nat, y: nat)
    requires
        0 < x <= y <= 1099511627776,
    ensures
        at_most(nearest(x, y), (5764607523034235, -58)) == (50 * x <= y),
{
    lemma_nearest_scales(x, y, 0, 0);
    let e = exponent_of(x, y);
    let m = nearest(x, y).0;
    lemma2_to64();
    if e >= 0 {
        let p = pow2(e as nat);
        lemma_pow2_pos(e as nat);
        assert(4503599627370496 * (y * p) > y) by (nonlinear_arith)
            requires
                y > 0,
                p >= 1,
        ;
    }
    let j = (-e) as nat;
    let a = x * pow2(j);
    lemma_half_even_near(a, y);
    lemma_fundamental_div_mod(a as int, y as int);
    lemma_mod_bound(a as int, y as int);
    let q = a as int / y as int;
    assert(q <= 9007199254740991 && q >= 4503599627370496) by (nonlinear_arith)
        requires
            a == y * q + a as int % y as int,
            0 <= a as int % y as int,
            (a as int % y as int) < y,
            4503599627370496 * y <= a < 9007199254740992 * y,
            y > 0,
    ;
    lemma2_to64_rest();
    if j > 58 {
        lemma_pow2_adds(58, (j - 58) as nat);
        lemma_pow2_unfold((j - 58) as nat);
        lemma_pow2_pos((j - 59) as nat);
        let p = pow2((j - 58) as nat);
        assert(p >= 2);
        assert(m <= 5764607523034235 * p) by (nonlinear_arith)
            requires
                m <= 9007199254740992,
                p >= 2,
        ;
        assert(64 * x <= y) by (nonlinear_arith)
            requires
                x * (288230376151711744 * p) < 9007199254740992 * y,
                p >= 2,
                x > 0,
        ;
    } else if j < 58 {
        let p = pow2((58 - j) as nat);
        lemma_pow2_unfold((58 - j) as nat);
        lemma_pow2_pos((57 - j) as nat);
        lemma_pow2_adds(j, (58 - j) as nat);
        let w = pow2(j);
        assert(m * p > 5764607523034235) by (nonlinear_arith)
            requires
                m >= 4503599627370496,
                p >= 2,
        ;
        assert(w <= 144115188075855872) by (nonlinear_arith)
            requires
                w * p == 288230376151711744,
                p >= 2,
        ;
        assert(32 * x >= y) by (nonlinear_arith)
            requires
                4503599627370496 * y <= x * w,
                w <= 144115188075855872,
                x > 0,
        ;
    } else {
        assert(5764607523034235 * 1 == 5764607523034235);
        if 50 * x <= y {
            assert(q <= 5764607523034234) by (nonlinear_arith)
                requires
                    x * 288230376151711744 >= y * q,
                    50 * x <= y,
                    y > 0,
            ;
        } else {
            assert(q >= 5764607523034236) by (nonlinear_arith)
                requires
                    x * 288230376151711744 < y * q + y,
                    50 * x >= y + 1,
                    0 < y <= 1099511627776,
            ;
        }
    }
}

/// Whether an interval is a whole number of seconds.
pub open spec fn is_whole(seconds: Seconds, s: nat) -> bool {
    if seconds.exponent >= 0 {
        s == seconds.mantissa * pow2(seconds.exponent as nat)
    } else {
        seconds.mantissa == s * pow2((-seconds.exponent) as nat)
    }
}

/// The whole part of a ratio survives the rounding.
pub proof fn lemma_whole_part_survives(n: nat, d: nat)
    requires
        0 < n < 9007199254740992,
        d > 0,
    ensures
        whole(nearest(n, d)) == n / d,
{
    lemma_nearest_scales(n, d, 0, 0);
    let e = exponent_of(n, d);
    let m = nearest(n, d).0;
    lemma2_to64();
    if e > 0 {
        let p = pow2(e as nat);
        lemma_pow2_unfold(e as nat);
        lemma_pow2_pos((e - 1) as nat);
        assert(4503599627370496 * (d * p) >= 9007199254740992) by (nonlinear_arith)
            requires
                d >= 1,
                p >= 2,
        ;
    }
    let k = (-e) as nat;
    let p = pow2(k);
    lemma_pow2_pos(k);
    let a = n * p;
    assert(n * 1 == n && d * 1 == d);
    assert(over(n, d, e) == (a, d));
    lemma_half_even_near(a, d);
    let q = n as int / d as int;
    let r = n as int % d as int;
    lemma_fundamental_div_mod(n as int, d as int);
    lemma_mod_bound(n as int, d as int);
    lemma_div_pos_is_pos(n as int, d as int);
    // No lower than the exact quotient.
    assert(q * p * d <= a) by (nonlinear_arith)
        requires
            n == d * q + r,
            r >= 0,
            p > 0,
            a == n * p,
    ;
    let f = a as int / d as int;
    lemma_fundamental_div_mod(a as int, d as int);
    lemma_mod_bound(a as int, d as int);
    assert(f >= q * p) by (nonlinear_arith)
        requires
            q * p * d <= a,
            a == d * f + a as int % d as int,
            (a as int % d as int) < d,
            d > 0,
    ;
    // Below the next whole number.
    assert(2 * p > d) by (nonlinear_arith)
        requires
            4503599627370496 * d <= n * p,
            n < 9007199254740992,
            p > 0,
    ;
    assert(m < (q + 1) * p) by (nonlinear_arith)
        requires
            2 * (m * d) <= 2 * a + d,
            a == n * p,
            n == d * q + r,
            r <= d - 1,
            2 * p > d,
            d > 0,
            p > 0,
    ;
    assert((q + 1) * p == q * p + p) by (nonlinear_arith);
    lemma_fundamental_div_mod_converse(m as int, p as int, q, m - q * p);
    if e == 0 {
        assert(m * 1 == m);
        assert(q == m) by (nonlinear_arith)
            requires
                q * p <= m < q * p + p,
                p == 1,
        ;
    }
}

/// Over a whole number of seconds the rate is the exact quotient, rounded
/// down, of any number of bytes that a significand holds.
pub proof fn law_rates_are_exact(bytes: nat, seconds: Seconds, s: nat)
    requires
        bytes < 9007199254740992,
        s > 0,
        is_whole(seconds, s),
    ensures
        per_second(bytes, seconds) == bytes / s,
{
    lemma_div_pos_is_pos(bytes as int, s as int);
    if bytes == 0 {
        lemma_div_of0(s as int);
    } else {
        let up = lemma_whole_numbers_are_kept(bytes);
        let m = seconds.mantissa as nat;
        assert(m > 0) by {
            if m == 0 {
                if seconds.exponent >= 0 {
                    assert(0 * pow2(seconds.exponent as nat) == 0);
                } else {
                    let p = pow2((-seconds.exponent) as nat);
                    lemma_pow2_pos((-seconds.exponent) as nat);
                    assert(s * p > 0) by (nonlinear_arith)
                        requires
                            s > 0,
                            p > 0,
                    ;
                }
            }
        }
        lemma2_to64();
        assert(m * 1 == m);
        if seconds.exponent >= 0 {
            lemma_nearest_scales(bytes, m, up, 0);
            let down = seconds.exponent as nat;
            lemma_nearest_scales(bytes, m, 0, down);
            assert(bytes * 1 == bytes);
        } else {
            lemma_nearest_scales(bytes, s, up, (-seconds.exponent) as nat);
        }
        assert(quotient(nearest(bytes, 1), (m, seconds.exponent as int)) == nearest(bytes, s));
        lemma_whole_part_survives(bytes, s);
        lemma_div_basics_5(bytes as int, s as int);
    }
}

/// The rate that is worked out is that quotient.
pub proof fn law_working_out_a_rate_is_exact(bytes: u64, seconds: Seconds, s: nat, r: u64)
    requires
        call_ensures(crate::double::rate, (bytes, seconds), r),
        bytes < 9007199254740992,
        s > 0,
        is_whole(seconds, s),
    ensures
        r == bytes as nat / s,
{
    law_rates_are_exact(bytes as nat, seconds, s);
}

/// A million millionths are one, and whole numbers that a significand holds
/// multiply exactly.
pub proof fn law_whole_numbers_multiply_exactly(a: nat, b: nat)
    requires
        0 < a < 9007199254740992,
        0 < b < 9007199254740992,
        a * b < 9007199254740992,
    ensures
        crate::double::millionths((a * 1000000) as int) == (false, nearest(a, 1).0, nearest(a, 1).1),
        crate::double::millionths(-((a * 1000000) as int)) == (
            true,
            nearest(a, 1).0,
            nearest(a, 1).1,
        ),
        crate::double::times(
            (false, nearest(a, 1).0, nearest(a, 1).1),
            (false, nearest(b, 1).0, nearest(b, 1).1),
        ) == (false, nearest(a * b, 1).0, nearest(a * b, 1).1),
        crate::double::whole_times((false, nearest(a, 1).0, nearest(a, 1).1), b) == a * b,
        crate::double::whole_times((true, nearest(a, 1).0, nearest(a, 1).1), b) == 0,
{
    lemma_common_factor(a, 1, 1000000);
    let i = lemma_whole_numbers_are_kept(a);
    let j = lemma_whole_numbers_are_kept(b);
    let p = pow2(i);
    let q = pow2(j);
    assert(a * b > 0) by (nonlinear_arith)
        requires
            a > 0,
            b > 0,
    ;
    lemma_pow2_adds(i, j);
    lemma_nearest_scales(a * b, 1, (i + j) as nat, 0);
    lemma2_to64();
    assert(1 * pow2(0) == 1);
    assert((a * p) * (b * q) == (a * b) * (p * q)) by (nonlinear_arith);
    lemma_nearest_scales(a * b, 1, i, 0);
    assert((a * p) * b == (a * b) * p) by (nonlinear_arith);
    lemma_whole_part_survives(a * b, 1);
}

/// A hundred times a share, rounded down, is never above the exact figure and
/// less than one below it, or at it, for whole numbers up to a tebibyte.
pub proof fn law_a_percentage_is_the_exact_one_rounded_down(a: nat, b: nat)
    requires
        0 < a <= b < 1099511627776,
    ensures
        whole(product(nearest(a, b), 100)) * b <= 100 * a,
        100 * a <= (whole(product(nearest(a, b), 100)) + 1) * b,
{
    lemma2_to64();
    lemma2_to64_rest();
    lemma_nearest_scales(a, b, 0, 0);
    let e = exponent_of(a, b);
    let m = nearest(a, b).0;
    if e >= 0 {
        let p = pow2(e as nat);
        lemma_pow2_pos(e as nat);
        assert(4503599627370496 * (b * p) > b) by (nonlinear_arith)
            requires
                b > 0,
                p >= 1,
        ;
    }
    let j = (-e) as nat;
    let w = pow2(j);
    let t = a * w;
    assert(w >= 4503599627370496) by (nonlinear_arith)
        requires
            4503599627370496 * b <= a * w,
            0 < a <= b,
    ;
    // The share, to within one of its last places.
    lemma_half_even_near(t, b);
    lemma_fundamental_div_mod(t as int, b as int);
    lemma_mod_bound(t as int, b as int);
    let q = t as int / b as int;
    let rest = t as int % b as int;
    assert(4503599627370496 <= q && q < 9007199254740992) by (nonlinear_arith)
        requires
            t == b * q + rest,
            0 <= rest,
            rest < b,
            4503599627370496 * b <= t < 9007199254740992 * b,
    ;
    assert(m * b <= t + b && t - b <= m * b) by (nonlinear_arith)
        requires
            t == b * q + rest,
            0 <= rest,
            rest < b,
            q <= m,
            m <= q + 1,
    ;
    // A hundred times that.
    let x = m * 100;
    lemma_nearest_scales(x, 1, 0, 0);
    let f = exponent_of(x, 1);
    assert(f > 0) by {
        if f < 0 {
            let p = pow2((-f) as nat);
            lemma_pow2_pos((-f) as nat);
            assert(x * p >= x) by (nonlinear_arith)
                requires
                    p >= 1,
            ;
        } else if f == 0 {
            assert(1 * pow2(0) == 1);
        }
    }
    let u = pow2(f as nat);
    lemma_pow2_pos(f as nat);
    assert(1 * u == u);
    assert(u <= 200) by (nonlinear_arith)
        requires
            4503599627370496 * u <= x,
            x <= 900719925474099200,
    ;
    let n = nearest(x, 1).0;
    lemma_half_even_near(x, u);
    lemma_fundamental_div_mod(x as int, u as int);
    lemma_mod_bound(x as int, u as int);
    let g = x as int / u as int;
    let left = x as int % u as int;
    let big = n * u;
    assert(big <= x + u && x - u <= big) by (nonlinear_arith)
        requires
            x == u * g + left,
            0 <= left,
            left < u,
            g <= n,
            n <= g + 1,
            big == n * u,
    ;
    // Its whole part.
    if f >= j {
        if f > j {
            lemma_pow2_strictly_increases(j, f as nat);
        }
    }
    assert(f < j);
    let d = (j - f) as nat;
    let v = pow2(d);
    lemma_pow2_pos(d);
    lemma_pow2_adds(d, f as nat);
    let r = n as int / v as int;
    lemma_fundamental_div_mod(n as int, v as int);
    lemma_mod_bound(n as int, v as int);
    assert(product(nearest(a, b), 100) == (n, f - j));
    assert(whole(product(nearest(a, b), 100)) == r);
    assert(r * w <= big && big < (r + 1) * w) by (nonlinear_arith)
        requires
            n == v * r + n as int % v as int,
            0 <= n as int % v as int,
            (n as int % v as int) < v,
            w == v * u,
            big == n * u,
            u > 0,
    ;
    assert(w * (r * b - 100 * a) <= 300 * b) by (nonlinear_arith)
        requires
            r * w <= big,
            big <= x + u,
            u <= 200,
            x == m * 100,
            m * b <= t + b,
            t == a * w,
            b > 0,
    ;
    assert(w * (100 * a - (r + 1) * b) <= 300 * b) by (nonlinear_arith)
        requires
            big < (r + 1) * w,
            x - u <= big,
            u <= 200,
            x == m * 100,
            t - b <= m * b,
            t == a * w,
            b > 0,
    ;
    let over_by = r * b - 100 * a;
    let under_by = 100 * a - (r + 1) * b;
    assert(over_by < 1 && under_by < 1) by (nonlinear_arith)
        requires
            w * over_by <= 300 * b,
            w * under_by <= 300 * b,
            b < 1099511627776,
            w >= 4503599627370496,
    ;
}

} // verus!

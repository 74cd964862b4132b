//! Shares of a processor, in percent, as floating point with a 24-bit
//! significand has them.
use crate::double::{
    at_most, half_even, nearest, product, quotient, round_half_even, round_ratio, Seconds,
};
use crate::exact::{
    is_whole, law_a_quotient_is_rounded_once, lemma_common_factor, lemma_nearest_scales,
    lemma_whole_numbers_are_kept,
};
use vstd::arithmetic::div_mod::*;
use vstd::arithmetic::power2::*;
use vstd::prelude::*;

verus! {

/// The number with this significand and this power of two. Zero has the
/// significand zero; every other significand has 24 bits.
#[derive(Debug, Clone, Copy, PartialEq, Eq, Structural)]
pub struct Single {
    pub mantissa: u32,
    pub exponent: i128,
}

/// The two parts of a number.
pub open spec fn value_of(x: Single) -> (nat, int) {
    (x.mantissa as nat, x.exponent as int)
}

/// Whether a number is greater than another, of those whose significands have
/// 24 bits.
pub open spec fn exceeds(x: (nat, int), y: (nat, int)) -> bool {
    x.0 > 0 && (y.0 == 0 || x.1 > y.1 || (x.1 == y.1 && x.0 > y.0))
}

/// The nearest number with a significand of 24 bits.
pub open spec fn narrowed(x: (nat, int)) -> (nat, int) {
    let m = half_even(x.0, 536870912);
    if m == 16777216 {
        (8388608, x.1 + 30)
    } else {
        (m, x.1 + 29)
    }
}

/// The clock ticks in an interval, a hundred a second. At least one, so that
/// no interval is too short to divide by.
pub open spec fn elapsed_ticks(elapsed: Seconds) -> (nat, int) {
    let t = product((elapsed.mantissa as nat, elapsed.exponent as int), 100);
    if elapsed.mantissa == 0 || at_most(t, (1, 0)) {
        (1, 0)
    } else {
        t
    }
}

/// The share of one processor that some clock ticks are of an interval, in
/// percent.
pub open spec fn percent_of(ticks: nat, elapsed: Seconds) -> (nat, int) {
    if ticks == 0 {
        (0, 0)
    } else {
        narrowed(product(quotient(nearest(ticks, 1), elapsed_ticks(elapsed)), 100))
    }
}

/// Whether a number is zero or has a significand of 24 bits.
pub open spec fn is_single(x: (nat, int)) -> bool {
    x == (0nat, 0int) || 8388608 <= x.0 < 16777216
}

/// Whether a number is greater than another.
pub fn is_above(x: Single, y: Single) -> (r: bool)
    ensures
        r == exceeds(value_of(x), value_of(y)),
{
    x.mantissa > 0 && (y.mantissa == 0 || x.exponent > y.exponent || (x.exponent == y.exponent
        && x.mantissa > y.mantissa))
}

fn narrow(mantissa: u64, exponent: i128) -> (r: Single)
    requires
        4503599627370496 <= mantissa <= 9007199254740992,
        -0x1000000000 < exponent < 0x1000000000,
    ensures
        value_of(r) == narrowed((mantissa as nat, exponent as int)),
        is_single(value_of(r)),
{
    let m: u128 = round_half_even(mantissa as u128, 536870912);
    assert(8388608 <= m <= 16777216);
    if m == 16777216 {
        Single { mantissa: 8388608, exponent: exponent + 30 }
    } else {
        Single { mantissa: m as u32, exponent: exponent + 29 }
    }
}

proof fn lemma_at_most_one(m: nat, e: int)
    requires
        4503599627370496 <= m <= 9007199254740992,
    ensures
        at_most((m, e), (1, 0)) == (e < -52 || (e == -52 && m == 4503599627370496)),
{
    lemma2_to64();
    lemma2_to64_rest();
    if e > 0 {
        let p = pow2(e as nat);
        lemma_pow2_pos(e as nat);
        assert(m * p >= m) by (nonlinear_arith)
            requires
                p >= 1,
        ;
    } else {
        let p = pow2((-e) as nat);
        assert(1 * p == p);
        if e < -53 {
            lemma_pow2_strictly_increases(53, (-e) as nat);
        } else if e > -52 {
            lemma_pow2_strictly_increases((-e) as nat, 52);
        }
    }
}

/// The share of one processor that some clock ticks are of an interval, in
/// percent.
pub fn percent(ticks: u128, elapsed: Seconds) -> (r: Single)
    ensures
        value_of(r) == percent_of(ticks as nat, elapsed),
        is_single(value_of(r)),
{
    if ticks == 0 {
        return Single { mantissa: 0, exponent: 0 };
    }
    let used = round_ratio(ticks, 1);
    let mut span: u64 = 1;
    let mut scale: i128 = 0;
    if elapsed.mantissa > 0 {
        let t = round_ratio(elapsed.mantissa as u128 * 100, 1);
        let e: i128 = t.exponent + elapsed.exponent as i128;
        proof {
            lemma_at_most_one(t.mantissa as nat, e as int);
        }
        if !(e < -52 || (e == -52 && t.mantissa == 4503599627370496)) {
            span = t.mantissa;
            scale = e;
        }
    }
    assert((span as nat, scale as int) == elapsed_ticks(elapsed));
    let share = round_ratio(used.mantissa as u128, span as u128);
    let hundred = round_ratio(share.mantissa as u128 * 100, 1);
    narrow(hundred.mantissa, hundred.exponent + (share.exponent + used.exponent - scale))
}

/// Of two numbers with significands of 24 bits the greater is the one that is
/// not at most the other.
pub proof fn law_greater_is_not_at_most(x: (nat, int), y: (nat, int))
    requires
        is_single(x),
        is_single(y),
    ensures
        exceeds(x, y) == !at_most(x, y),
{
    lemma2_to64();
    if x.1 <= y.1 {
        let p = pow2((y.1 - x.1) as nat);
        lemma_pow2_pos((y.1 - x.1) as nat);
        if x.1 < y.1 {
            lemma_pow2_strictly_increases(0, (y.1 - x.1) as nat);
        }
        assert(y.0 * p >= y.0 && (p >= 2 ==> y.0 * p >= 2 * y.0) && (y.0 == 0 ==> y.0 * p == 0))
            by (nonlinear_arith)
            requires
                p >= 1,
        ;
        if x.1 == y.1 {
            assert(y.0 * 1 == y.0);
        }
    } else {
        let p = pow2((x.1 - y.1) as nat);
        lemma_pow2_strictly_increases(0, (x.1 - y.1) as nat);
        assert(x.0 * p >= 2 * x.0 && (x.0 == 0 ==> x.0 * p == 0)) by (nonlinear_arith)
            requires
                p >= 2,
        ;
    }
}

/// Whether a number is this whole number.
pub open spec fn equals_whole(x: (nat, int), n: nat) -> bool {
    if x.1 >= 0 {
        x.0 * pow2(x.1 as nat) == n
    } else {
        x.0 == n * pow2((-x.1) as nat)
    }
}

proof fn lemma_ticks_of_whole_seconds(elapsed: Seconds, s: nat)
    requires
        is_whole(elapsed, s),
        0 < s,
        100 * s < 9007199254740992,
    ensures
        elapsed_ticks(elapsed) == nearest(100 * s, 1),
{
    let m = elapsed.mantissa as nat;
    lemma2_to64();
    if elapsed.exponent >= 0 {
        let up = elapsed.exponent as nat;
        let p = pow2(up);
        assert(m > 0) by (nonlinear_arith)
            requires
                s == m * p,
                s > 0,
        ;
        lemma_nearest_scales(m * 100, 1, up, 0);
        assert((m * 100) * p == 100 * s) by (nonlinear_arith)
            requires
                s == m * p,
        ;
        assert(1 * pow2(0) == 1);
    } else {
        let up = (-elapsed.exponent) as nat;
        let p = pow2(up);
        lemma_pow2_pos(up);
        assert(m > 0) by (nonlinear_arith)
            requires
                m == s * p,
                s > 0,
                p > 0,
        ;
        lemma_nearest_scales(100 * s, 1, up, 0);
        assert((100 * s) * p == m * 100) by (nonlinear_arith)
            requires
                m == s * p,
        ;
        assert(1 * pow2(0) == 1);
    }
    let k = lemma_whole_numbers_are_kept(100 * s);
    let t = nearest(100 * s, 1);
    let p = pow2(k);
    lemma_pow2_pos(k);
    assert((100 * s) * p > 1 * p) by (nonlinear_arith)
        requires
            s > 0,
            p > 0,
    ;
    assert(!at_most(t, (1, 0)));
}

/// A process that keeps a number of processors busy over a whole number of
/// seconds shows exactly that many hundred percent: nothing is cut off at one
/// hundred.
pub proof fn law_each_busy_core_is_a_hundred_percent(elapsed: Seconds, s: nat, cores: nat)
    requires
        is_whole(elapsed, s),
        s > 0,
        cores > 0,
        100 * s < 9007199254740992,
        100 * s * cores < 9007199254740992,
        100 * cores < 16777216,
    ensures
        equals_whole(percent_of(100 * s * cores, elapsed), 100 * cores),
{
    let span = 100 * s;
    let ticks = 100 * s * cores;
    lemma_ticks_of_whole_seconds(elapsed, s);
    assert(ticks > 0) by (nonlinear_arith)
        requires
            ticks == 100 * s * cores,
            s > 0,
            cores > 0,
    ;
    law_a_quotient_is_rounded_once(ticks, span);
    assert(ticks == cores * span && 1 * span == span) by (nonlinear_arith)
        requires
            ticks == 100 * s * cores,
            span == 100 * s,
    ;
    lemma_common_factor(cores, 1, span);
    let share = nearest(cores, 1);
    let k = lemma_whole_numbers_are_kept(cores);
    let n = 100 * cores;
    lemma_nearest_scales(n, 1, k, 0);
    let p = pow2(k);
    assert((cores * p) * 100 == n * p) by (nonlinear_arith)
        requires
            n == 100 * cores,
    ;
    lemma2_to64();
    assert(1 * pow2(0) == 1);
    assert(product(share, 100) == nearest(n, 1));
    let j = lemma_whole_numbers_are_kept(n);
    let whole = n * pow2(j);
    assert(whole == nearest(n, 1).0);
    // A significand of 53 bits with 29 zeroes at its end.
    if j < 29 {
        lemma_pow2_adds(j, (29 - j) as nat);
        let a = pow2(j);
        let b = pow2((29 - j) as nat);
        lemma_pow2_unfold((29 - j) as nat);
        lemma_pow2_pos((28 - j) as nat);
        assert(a <= 268435456) by (nonlinear_arith)
            requires
                a * b == 536870912,
                b >= 2,
        ;
        assert(n * a < 4503599627370496) by (nonlinear_arith)
            requires
                a <= 268435456,
                n < 16777216,
        ;
    }
    let rest = pow2((j - 29) as nat);
    lemma_pow2_adds(29, (j - 29) as nat);
    lemma_pow2_pos((j - 29) as nat);
    let m = n * rest;
    assert(whole == m * 536870912) by (nonlinear_arith)
        requires
            whole == n * (536870912 * rest),
            m == n * rest,
    ;
    lemma_fundamental_div_mod_converse(whole as int, 536870912, m as int, 0);
    assert(half_even(whole, 536870912) == m);
    assert(percent_of(ticks, elapsed) == narrowed((whole, -(j as int))));
    assert(m < 16777216);
    if j == 29 {
        assert(m * 1 == m && n * 1 == n);
    }
}

/// Over whole seconds each core that is kept busy is a hundred percent, and
/// where nothing was used there is none.
pub proof fn law_a_percentage_is_of_one_core(elapsed: Seconds, s: nat, cores: nat, r: Single, z: Single)
    requires
        is_whole(elapsed, s),
        s > 0,
        cores > 0,
        100 * s < 9007199254740992,
        100 * s * cores < 9007199254740992,
        100 * cores < 16777216,
        call_ensures(percent, ((100 * s * cores) as u128, elapsed), r),
        call_ensures(percent, (0u128, elapsed), z),
    ensures
        equals_whole(value_of(r), 100 * cores),
        z.mantissa == 0,
{
    law_each_busy_core_is_a_hundred_percent(elapsed, s, cores);
}

/// An interval shorter than a tick counts as one, so that no share is divided
/// by next to nothing.
pub proof fn law_no_interval_is_shorter_than_a_tick(elapsed: Seconds)
    ensures
        elapsed.mantissa == 0 ==> elapsed_ticks(elapsed) == (1nat, 0int),
        elapsed_ticks(elapsed) == (1nat, 0int) || !at_most(elapsed_ticks(elapsed), (1, 0)),
{
}

} // verus!

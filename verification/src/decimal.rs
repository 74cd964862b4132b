//! Decimal numbers in text, scaled to a whole number of bytes as floating
//! point arithmetic scales them.
use vstd::arithmetic::power::*;
use vstd::arithmetic::power2::*;
use vstd::prelude::*;
use vstd::slice::slice_subrange;
use crate::double::{capped, fits_at, lemma_exponent_of, nearest, over, product, round_ratio, truncate, whole, Double};
use crate::text::{chars_of, decimal, digits_value, first_at, is_digit, is_digits, lemma_first_at};

verus! {

broadcast use vstd::string::group_string_axioms;

// ---------------------------------------------------------------------------
// Whole numbers of any size
// ---------------------------------------------------------------------------

/// What one unit in a place is worth.
pub open spec fn weight(i: nat) -> nat
    decreases i,
{
    if i == 0 {
        1
    } else {
        4294967296 * weight((i - 1) as nat)
    }
}

/// What stands in a place; nothing beyond the last.
pub open spec fn limb_at(s: Seq<u32>, i: int) -> nat {
    if 0 <= i < s.len() {
        s[i] as nat
    } else {
        0
    }
}

/// What the first places are worth together.
pub open spec fn low_part(s: Seq<u32>, n: nat) -> nat
    decreases n,
{
    if n == 0 {
        0
    } else {
        low_part(s, (n - 1) as nat) + limb_at(s, n - 1) * weight((n - 1) as nat)
    }
}

/// What all places are worth together.
pub open spec fn worth(s: Seq<u32>) -> nat {
    low_part(s, s.len())
}

proof fn lemma_weight_pos(i: nat)
    ensures
        weight(i) > 0,
    decreases i,
{
    if i > 0 {
        lemma_weight_pos((i - 1) as nat);
    }
}

proof fn lemma_low_part_beyond(s: Seq<u32>, n: nat)
    requires
        n >= s.len(),
    ensures
        low_part(s, n) == worth(s),
    decreases n,
{
    if n > s.len() {
        lemma_low_part_beyond(s, (n - 1) as nat);
        assert(0 * weight((n - 1) as nat) == 0);
    }
}

proof fn lemma_low_part_bound(s: Seq<u32>, n: nat)
    ensures
        low_part(s, n) < weight(n),
    decreases n,
{
    if n > 0 {
        lemma_low_part_bound(s, (n - 1) as nat);
        let w = weight((n - 1) as nat);
        let x = limb_at(s, n - 1);
        assert(low_part(s, n) < 4294967296 * w) by (nonlinear_arith)
            requires
                low_part(s, n) == low_part(s, (n - 1) as nat) + x * w,
                low_part(s, (n - 1) as nat) < w,
                x <= 4294967295,
        ;
    }
}

proof fn lemma_low_part_push(s: Seq<u32>, x: u32, n: nat)
    requires
        n <= s.len(),
    ensures
        low_part(s.push(x), n) == low_part(s, n),
    decreases n,
{
    if n > 0 {
        lemma_low_part_push(s, x, (n - 1) as nat);
        assert(s.push(x)[n - 1] == s[n - 1]);
    }
}

proof fn lemma_worth_push(s: Seq<u32>, x: u32)
    ensures
        worth(s.push(x)) == worth(s) + x as nat * weight(s.len()),
{
    lemma_low_part_push(s, x, s.len());
}

/// A whole number, in places of 32 bits, the lowest first.
struct Big {
    limbs: Vec<u32>,
}

impl Big {
    spec fn value(&self) -> nat {
        worth(self.limbs@)
    }

    fn from_u32(n: u32) -> (r: Self)
        ensures
            r.value() == n,
    {
        let mut limbs: Vec<u32> = Vec::new();
        limbs.push(n);
        proof {
            assert(limbs@ =~= Seq::<u32>::empty().push(n));
            lemma_worth_push(Seq::<u32>::empty(), n);
            assert(weight(0) == 1);
            assert(n as nat * 1 == n);
        }
        Big { limbs }
    }

    fn copy(&self) -> (r: Self)
        ensures
            r.value() == self.value(),
    {
        let mut limbs: Vec<u32> = Vec::new();
        let mut i: usize = 0;
        while i < self.limbs.len()
            invariant
                i <= self.limbs@.len(),
                limbs@ == self.limbs@.take(i as int),
            decreases self.limbs@.len() - i,
        {
            limbs.push(self.limbs[i]);
            i = i + 1;
        }
        assert(limbs@ =~= self.limbs@);
        Big { limbs }
    }

    /// The number times `k`, and `c` more.
    fn times_plus(&self, k: u32, c: u32) -> (r: Self)
        ensures
            r.value() == self.value() * k + c,
    {
        let mut out: Vec<u32> = Vec::new();
        let mut carry: u64 = c as u64;
        let mut i: usize = 0;
        assert(weight(0) == 1);
        assert(carry * 1 == carry);
        assert(0 * k == 0);
        while i < self.limbs.len()
            invariant
                i <= self.limbs@.len(),
                out@.len() == i,
                carry < 4294967296,
                worth(out@) + carry * weight(i as nat) == low_part(self.limbs@, i as nat) * k + c,
            decreases self.limbs@.len() - i,
        {
            let limb: u32 = self.limbs[i];
            assert(limb * k <= 4294967295 * 4294967295) by (nonlinear_arith)
                requires
                    limb <= 4294967295,
                    k <= 4294967295,
            ;
            let t: u64 = limb as u64 * k as u64 + carry;
            let low: u64 = t % 4294967296;
            let high: u64 = t / 4294967296;
            proof {
                let w = weight(i as nat);
                lemma_worth_push(out@, low as u32);
                let before = low_part(self.limbs@, i as nat);
                assert(worth(out@) + low * w + high * (4294967296 * w) == (before + limb * w) * k
                    + c) by (nonlinear_arith)
                    requires
                        worth(out@) + carry * w == before * k + c,
                        low + 4294967296 * high == limb * k + carry,
                ;
            }
            assert(high < 4294967296) by (nonlinear_arith)
                requires
                    high == t / 4294967296,
                    t <= u64::MAX,
            ;
            out.push(low as u32);
            carry = high;
            i = i + 1;
        }
        if carry > 0 {
            proof {
                lemma_worth_push(out@, carry as u32);
            }
            out.push(carry as u32);
        } else {
            assert(0 * weight(i as nat) == 0);
        }
        Big { limbs: out }
    }

    /// Twice the number.
    fn doubled(&self) -> (r: Self)
        ensures
            r.value() == 2 * self.value(),
    {
        self.times_plus(2, 0)
    }

    /// The number without `other`, where it is not less.
    fn minus(&self, other: &Self) -> (r: Option<Self>)
        ensures
            match r {
                Some(d) => d.value() + other.value() == self.value(),
                None => self.value() < other.value(),
            },
    {
        let n: usize = if self.limbs.len() > other.limbs.len() {
            self.limbs.len()
        } else {
            other.limbs.len()
        };
        let mut out: Vec<u32> = Vec::new();
        let mut borrow: u64 = 0;
        let mut i: usize = 0;
        assert(0 * weight(0) == 0);
        while i < n
            invariant
                i <= n,
                out@.len() == i,
                borrow <= 1,
                low_part(self.limbs@, i as nat) + borrow * weight(i as nat) == low_part(
                    other.limbs@,
                    i as nat,
                ) + worth(out@),
            decreases n - i,
        {
            let a: u64 = if i < self.limbs.len() {
                self.limbs[i] as u64
            } else {
                0
            };
            let b: u64 = (if i < other.limbs.len() {
                other.limbs[i] as u64
            } else {
                0
            }) + borrow;
            let (digit, next): (u64, u64) = if a >= b {
                (a - b, 0)
            } else {
                (a + 4294967296 - b, 1)
            };
            proof {
                let w = weight(i as nat);
                lemma_worth_push(out@, digit as u32);
                let x = low_part(self.limbs@, i as nat);
                let y = low_part(other.limbs@, i as nat);
                let bl = limb_at(other.limbs@, i as int);
                assert(x + a * w + next * (4294967296 * w) == y + bl * w + (worth(out@) + digit
                    * w)) by (nonlinear_arith)
                    requires
                        x + borrow * w == y + worth(out@),
                        a + 4294967296 * next == bl + borrow + digit,
                ;
            }
            out.push(digit as u32);
            borrow = next;
            i = i + 1;
        }
        proof {
            lemma_low_part_beyond(self.limbs@, n as nat);
            lemma_low_part_beyond(other.limbs@, n as nat);
            lemma_low_part_bound(out@, n as nat);
        }
        if borrow == 0 {
            assert(0 * weight(n as nat) == 0);
            Some(Big { limbs: out })
        } else {
            assert(1 * weight(n as nat) == weight(n as nat));
            None
        }
    }

    /// Whether the number is less than `other`.
    fn less(&self, other: &Self) -> (r: bool)
        ensures
            r == (self.value() < other.value()),
    {
        self.minus(other).is_none()
    }

    /// The number doubled `k` times.
    fn shifted(&self, k: u32) -> (r: Self)
        ensures
            r.value() == self.value() * pow2(k as nat),
    {
        let mut out = self.copy();
        let mut i: u32 = 0;
        proof {
            lemma2_to64();
            assert(self.value() * pow2(0) == self.value());
        }
        while i < k
            invariant
                i <= k,
                out.value() == self.value() * pow2(i as nat),
            decreases k - i,
        {
            proof {
                lemma_pow2_unfold((i + 1) as nat);
                assert(self.value() * pow2((i + 1) as nat) == 2 * (self.value() * pow2(i as nat)))
                    by (nonlinear_arith)
                    requires
                        pow2((i + 1) as nat) == 2 * pow2(i as nat),
                ;
            }
            out = out.doubled();
            i = i + 1;
        }
        out
    }

    /// The number times ten, `k` times over.
    fn tenfold(&self, k: u128) -> (r: Self)
        ensures
            r.value() == self.value() * pow(10, k as nat),
    {
        let mut out = self.copy();
        let mut i: u128 = 0;
        proof {
            lemma_pow0(10);
            assert(self.value() * pow(10, 0) == self.value());
        }
        while i < k
            invariant
                i <= k,
                out.value() == self.value() * pow(10, i as nat),
            decreases k - i,
        {
            proof {
                reveal(pow);
                assert(pow(10, (i + 1) as nat) == 10 * pow(10, i as nat));
                assert(self.value() * pow(10, (i + 1) as nat) == 10 * (self.value() * pow(
                    10,
                    i as nat,
                ))) by (nonlinear_arith)
                    requires
                        pow(10, (i + 1) as nat) == 10 * pow(10, i as nat),
                ;
            }
            out = out.times_plus(10, 0);
            i = i + 1;
        }
        out
    }
}

/// The number nearest to a positive ratio of whole numbers of any size.
fn round_big(n: &Big, d: &Big) -> (r: Double)
    requires
        n.value() > 0,
        d.value() > 0,
        n.value() < d.value() * pow2(64),
        n.value() * pow2(80) >= d.value(),
    ensures
        (r.mantissa as nat, r.exponent as int) == nearest(n.value(), d.value()),
        4503599627370496 <= r.mantissa <= 9007199254740992,
        -200 < r.exponent < 200,
{
    let ghost n0 = n.value();
    let ghost d0 = d.value();
    let mut a = n.copy();
    let mut b = d.shifted(52);
    let mut e: i128 = 0;
    proof {
        lemma2_to64();
        lemma2_to64_rest();
        assert(d0 * pow2(0) == d0);
        assert(n0 * pow2(0) == n0);
        assert(pow2(52) == 4503599627370496);
    }
    loop
        invariant
            a.value() == n0,
            n0 > 0,
            d0 > 0,
            n0 < d0 * pow2(64),
            0 <= e <= 12,
            pow2(64) == 0x10000000000000000,
            b.value() == (d0 * pow2(e as nat)) * 4503599627370496,
            e > 0 ==> n0 >= b.value(),
        ensures
            a.value() == n0,
            0 <= e <= 12,
            b.value() == (d0 * pow2(e as nat)) * 4503599627370496,
            e > 0 ==> n0 >= b.value(),
            n0 < 2 * b.value(),
        decreases 12 - e,
    {
        let twice = b.doubled();
        if a.less(&twice) {
            break;
        }
        proof {
            lemma_pow2_unfold((e + 1) as nat);
            assert((d0 * pow2((e + 1) as nat)) * 4503599627370496 == 2 * ((d0 * pow2(e as nat))
                * 4503599627370496)) by (nonlinear_arith)
                requires
                    pow2((e + 1) as nat) == 2 * pow2(e as nat),
            ;
            if e == 12 {
                lemma2_to64();
                assert(pow2(12) == 4096);
                assert(false) by (nonlinear_arith)
                    requires
                        n0 < d0 * 0x10000000000000000,
                        n0 >= 2 * ((d0 * 4096) * 4503599627370496),
                        d0 > 0,
                ;
            }
        }
        b = twice;
        e = e + 1;
    }
    if e == 0 {
        assert(d0 * pow2(0) == d0) by {
            lemma2_to64();
        }
        loop
            invariant
                n0 > 0,
                d0 > 0,
                n0 * pow2(80) >= d0,
                -133 <= e <= 0,
                b.value() == d0 * 4503599627370496,
                a.value() == n0 * pow2((-e) as nat),
                a.value() < 2 * b.value(),
            ensures
                -133 <= e <= 0,
                b.value() == d0 * 4503599627370496,
                a.value() == n0 * pow2((-e) as nat),
                a.value() < 2 * b.value(),
                a.value() >= b.value(),
            decreases 133 + e,
        {
            if !a.less(&b) {
                break;
            }
            proof {
                lemma_pow2_unfold((-e + 1) as nat);
                assert(n0 * pow2((-e + 1) as nat) == 2 * (n0 * pow2((-e) as nat)))
                    by (nonlinear_arith)
                    requires
                        pow2((-e + 1) as nat) == 2 * pow2((-e) as nat),
                ;
                if e == -133 {
                    lemma2_to64_rest();
                    lemma_pow2_adds(80, 53);
                    assert(n0 * pow2(133) >= d0 * 4503599627370496) by (nonlinear_arith)
                        requires
                            n0 * pow2(80) >= d0,
                            pow2(133) == pow2(80) * pow2(53),
                            pow2(53) == 9007199254740992,
                            d0 > 0,
                    ;
                }
            }
            a = a.doubled();
            e = e - 1;
        }
    }
    let ghost top = a.value();
    let ghost bottom: nat = if e >= 0 {
        d0 * pow2(e as nat)
    } else {
        d0
    };
    proof {
        if e == 0 {
            lemma2_to64();
            assert(d0 * pow2(0) == d0);
            assert(n0 * pow2(0) == n0);
        }
        lemma_pow2_pos((if e >= 0 { e as int } else { 0 }) as nat);
        assert(bottom > 0) by (nonlinear_arith)
            requires
                d0 > 0,
                bottom == d0 * pow2((if e >= 0 { e as int } else { 0 }) as nat) || bottom == d0,
                pow2((if e >= 0 { e as int } else { 0 }) as nat) > 0,
        ;
        assert(b.value() == bottom * 4503599627370496);
        assert(over(n0, d0, e as int) == (top, bottom));
        assert(fits_at(n0, d0, e as int));
        lemma_exponent_of(n0, d0, e as int);
    }
    let mut rem = a;
    let mut q: u64 = 0;
    let mut i: u32 = 0;
    let ghost step = b.value();
    proof {
        lemma2_to64();
        assert(top * pow2(0) == top);
        assert(2 * 0 * step == 0);
    }
    while i < 53
        invariant
            i <= 53,
            step == b.value(),
            q < pow2(i as nat),
            top * pow2(i as nat) == 2 * q * step + rem.value(),
            rem.value() < 2 * step,
        decreases 53 - i,
    {
        proof {
            lemma_pow2_unfold((i + 1) as nat);
            lemma2_to64();
            lemma2_to64_rest();
            if i < 52 {
                lemma_pow2_strictly_increases(i as nat, 52);
            }
            assert(pow2(52) == 4503599627370496);
            assert(top * pow2((i + 1) as nat) == 2 * (top * pow2(i as nat))) by (nonlinear_arith)
                requires
                    pow2((i + 1) as nat) == 2 * pow2(i as nat),
            ;
        }
        let ghost before = rem.value();
        match rem.minus(&b) {
            Some(rest) => {
                let ghost q0 = q;
                q = 2 * q + 1;
                rem = rest.doubled();
                assert(2 * q * step + rem.value() == 2 * (2 * q0 * step + before))
                    by (nonlinear_arith)
                    requires
                        q == 2 * q0 + 1,
                        rem.value() == 2 * (before - step),
                ;
            },
            None => {
                let ghost q0 = q;
                q = 2 * q;
                rem = rem.doubled();
                assert(2 * q * step + rem.value() == 2 * (2 * q0 * step + before))
                    by (nonlinear_arith)
                    requires
                        q == 2 * q0,
                        rem.value() == 2 * before,
                ;
            },
        }
        i = i + 1;
    }
    proof {
        lemma2_to64();
        lemma2_to64_rest();
        assert(pow2(53) == 9007199254740992);
        let r = (top - q * bottom) as int;
        assert(rem.value() == r * 9007199254740992) by (nonlinear_arith)
            requires
                top * 9007199254740992 == 2 * q * step + rem.value(),
                step == bottom * 4503599627370496,
                r == top - q * bottom,
        ;
        assert(0 <= r < bottom) by (nonlinear_arith)
            requires
                rem.value() == r * 9007199254740992,
                rem.value() >= 0,
                rem.value() < 2 * step,
                step == bottom * 4503599627370496,
        ;
        vstd::arithmetic::div_mod::lemma_fundamental_div_mod_converse(
            top as int,
            bottom as int,
            q as int,
            r,
        );
        assert(q >= 4503599627370496) by (nonlinear_arith)
            requires
                r == top - q * bottom,
                r < bottom,
                top >= 4503599627370496 * bottom,
                bottom > 0,
        ;
        assert(rem.value() > step <==> 2 * r > bottom) by (nonlinear_arith)
            requires
                rem.value() == r * 9007199254740992,
                step == bottom * 4503599627370496,
        ;
        assert(rem.value() == step <==> 2 * r == bottom) by (nonlinear_arith)
            requires
                rem.value() == r * 9007199254740992,
                step == bottom * 4503599627370496,
        ;
    }
    let above = b.less(&rem);
    let below = rem.less(&b);
    let m: u64 = if above || (!below && q % 2 == 1) {
        q + 1
    } else {
        q
    };
    Double { mantissa: m, exponent: e }
}

// ---------------------------------------------------------------------------
// Numbers in text
// ---------------------------------------------------------------------------

/// A character in lower case, where it is an ASCII letter.
pub open spec fn lower(c: char) -> char {
    if 'A' <= c <= 'Z' {
        ((c as nat) + 32) as char
    } else {
        c
    }
}

/// Whether a text is a word, whatever the case of its letters.
pub open spec fn spells(s: Seq<char>, word: Seq<char>) -> bool {
    s.len() == word.len() && forall|i: int| 0 <= i < s.len() ==> lower(#[trigger] s[i]) == word[i]
}

/// What a text says as a number.
pub enum Figure {
    /// These digits, times this power of ten.
    Finite { negative: bool, digits: Seq<char>, scale: int },
    Infinite { negative: bool },
    NotANumber,
}

/// A text without the sign that it may start with.
pub open spec fn magnitude(s: Seq<char>) -> Seq<char> {
    if s.len() > 0 && (s[0] == '+' || s[0] == '-') {
        s.skip(1)
    } else {
        s
    }
}

/// Whether a text starts with a minus sign.
pub open spec fn is_negative(s: Seq<char>) -> bool {
    s.len() > 0 && s[0] == '-'
}

/// Where the exponent of a number is marked; the length of the text where
/// there is none.
pub open spec fn mark_at(s: Seq<char>) -> int {
    if first_at(s, 'e') < first_at(s, 'E') {
        first_at(s, 'e')
    } else {
        first_at(s, 'E')
    }
}

/// The exponent that a text writes: digits, after a sign or none.
pub open spec fn exponent_text(s: Seq<char>) -> Option<int> {
    if is_digits(magnitude(s)) {
        Some(
            if is_negative(s) {
                -(digits_value(magnitude(s)) as int)
            } else {
                digits_value(magnitude(s)) as int
            },
        )
    } else {
        None
    }
}

/// The digits of a number before its exponent, and how many of them stand
/// behind the point.
pub open spec fn significand(s: Seq<char>) -> Option<(Seq<char>, nat)> {
    let i = first_at(s, '.');
    if i == s.len() {
        if is_digits(s) {
            Some((s, 0))
        } else {
            None
        }
    } else {
        let all = s.take(i) + s.skip(i + 1);
        if is_digits(all) {
            Some((all, (s.len() - i - 1) as nat))
        } else {
            None
        }
    }
}

/// What a text says as a number: a sign or none, and then digits with a point
/// and an exponent, or a word for infinity, or one for what is no number.
pub open spec fn figure_in(s: Seq<char>) -> Option<Figure> {
    let body = magnitude(s);
    let negative = is_negative(s);
    let at = mark_at(body);
    if spells(body, "inf"@) || spells(body, "infinity"@) {
        Some(Figure::Infinite { negative })
    } else if spells(body, "nan"@) {
        Some(Figure::NotANumber)
    } else if at == body.len() {
        match significand(body) {
            Some((digits, behind)) => Some(
                Figure::Finite { negative, digits, scale: -(behind as int) },
            ),
            None => None,
        }
    } else {
        match (significand(body.take(at)), exponent_text(body.skip(at + 1))) {
            (Some((digits, behind)), Some(e)) => Some(
                Figure::Finite { negative, digits, scale: e - behind },
            ),
            _ => None,
        }
    }
}

/// A value times a power of ten, as a ratio.
pub open spec fn ratio(v: nat, scale: int) -> (nat, nat) {
    if scale >= 0 {
        (v * pow(10, scale as nat) as nat, 1)
    } else {
        (v, pow(10, (-scale) as nat) as nat)
    }
}

/// A value times a power of ten, times `k`, as a whole number of 64 bits: the
/// value is taken as the nearest floating point number, so is its product with
/// `k`, and what is behind the point of that is dropped. A value that is 2^64
/// or more is capped without further ado, and one below 2^-80 is nothing.
pub open spec fn scaled_value(v: nat, scale: int, k: nat) -> u64 {
    let (n, d) = ratio(v, scale);
    if v == 0 || n * pow2(80) < d {
        0
    } else if n >= d * pow2(64) {
        u64::MAX
    } else {
        capped(whole(product(nearest(n, d), k)))
    }
}

/// The number that a text says, times `k`, as a whole number of 64 bits. What
/// is negative or no number comes to nothing.
pub open spec fn scaled_number(s: Seq<char>, k: nat) -> Option<u64> {
    match figure_in(s) {
        None => None,
        Some(Figure::NotANumber) => Some(0),
        Some(Figure::Infinite { negative }) => Some(
            if negative {
                0
            } else {
                u64::MAX
            },
        ),
        Some(Figure::Finite { negative, digits, scale }) => Some(
            if negative {
                0
            } else {
                scaled_value(digits_value(digits), scale, k)
            },
        ),
    }
}

fn to_lower(c: char) -> (r: char)
    ensures
        r == lower(c),
{
    if 'A' <= c && c <= 'Z' {
        (c as u8 + 32) as char
    } else {
        c
    }
}

/// Whether a text is a word, whatever the case of its letters.
pub(crate) fn is_spelled(s: &[char], word: &str) -> (r: bool)
    ensures
        r == spells(s@, word@),
{
    let w = chars_of(word);
    if s.len() != w.len() {
        return false;
    }
    let mut i: usize = 0;
    while i < s.len()
        invariant
            i <= s@.len() == w@.len(),
            w@ == word@,
            forall|k: int| 0 <= k < i ==> lower(#[trigger] s@[k]) == word@[k],
        decreases s@.len() - i,
    {
        if to_lower(s[i]) != w[i] {
            assert(lower(s@[i as int]) != word@[i as int]);
            return false;
        }
        i = i + 1;
    }
    true
}

/// Whether a text is made of ASCII digits alone.
pub(crate) fn all_digits(s: &[char]) -> (r: bool)
    ensures
        r == is_digits(s@),
{
    if s.len() == 0 {
        return false;
    }
    let mut i: usize = 0;
    while i < s.len()
        invariant
            i <= s@.len(),
            s@.len() > 0,
            forall|k: int| 0 <= k < i ==> is_digit(#[trigger] s@[k]),
        decreases s@.len() - i,
    {
        if s[i] < '0' || s[i] > '9' {
            assert(!is_digit(s@[i as int]));
            return false;
        }
        i = i + 1;
    }
    true
}

/// A figure, as far as a thousand septillion.
pub open spec fn limited(n: nat) -> nat {
    if n > 1000000000000000000000000000000 {
        1000000000000000000000000000000
    } else {
        n
    }
}

/// The value of some digits, as far as a thousand septillion.
fn limited_value(s: &[char]) -> (r: u128)
    requires
        is_digits(s@),
    ensures
        r == limited(digits_value(s@)),
{
    let mut v: u128 = 0;
    let mut i: usize = 0;
    while i < s.len()
        invariant
            i <= s@.len(),
            is_digits(s@),
            v == limited(digits_value(s@.take(i as int))),
        decreases s@.len() - i,
    {
        assert(s@.take(i + 1).drop_last() =~= s@.take(i as int));
        assert(is_digit(s@[i as int]));
        let d: u128 = (s[i] as u32 - '0' as u32) as u128;
        let next: u128 = 10 * v + d;
        v = if next > 1000000000000000000000000000000 {
            1000000000000000000000000000000
        } else {
            next
        };
        i = i + 1;
    }
    assert(s@.take(i as int) =~= s@);
    v
}

/// An exponent, as far as a thousand septillion either way.
pub open spec fn limited_exponent(e: int) -> int {
    if e >= 0 {
        limited(e as nat) as int
    } else {
        -(limited((-e) as nat) as int)
    }
}

fn parse_exponent(s: &[char]) -> (r: Option<i128>)
    ensures
        match r {
            Some(e) => exponent_text(s@) is Some && e == limited_exponent(exponent_text(s@)->0),
            None => exponent_text(s@) is None,
        },
{
    let negative = s.len() > 0 && s[0] == '-';
    let body = without_sign(s);
    if !all_digits(body) {
        return None;
    }
    let v: u128 = limited_value(body);
    if negative {
        Some(-(v as i128))
    } else {
        Some(v as i128)
    }
}

fn without_sign<'a>(s: &'a [char]) -> (r: &'a [char])
    ensures
        r@ == magnitude(s@),
{
    if s.len() > 0 && (s[0] == '+' || s[0] == '-') {
        let rest = slice_subrange(s, 1, s.len());
        assert(rest@ =~= s@.skip(1));
        rest
    } else {
        s
    }
}

fn parse_significand(s: &[char]) -> (r: Option<(Vec<char>, usize)>)
    ensures
        match r {
            Some((digits, behind)) => significand(s@) == Some((digits@, behind as nat)),
            None => significand(s@) is None,
        },
{
    proof {
        lemma_first_at(s@, '.');
    }
    let mut all: Vec<char> = Vec::new();
    let at: usize = match crate::text::find_char(s, '.') {
        Some(i) => i,
        None => s.len(),
    };
    let mut i: usize = 0;
    while i < at
        invariant
            i <= at <= s@.len(),
            all@ == s@.take(i as int),
        decreases at - i,
    {
        all.push(s[i]);
        i = i + 1;
    }
    let mut behind: usize = 0;
    if at < s.len() {
        behind = s.len() - at - 1;
        let mut j: usize = at + 1;
        while j < s.len()
            invariant
                at < j <= s@.len(),
                all@ == s@.take(at as int) + s@.subrange(at + 1, j as int),
            decreases s@.len() - j,
        {
            all.push(s[j]);
            j = j + 1;
        }
        assert(s@.subrange(at + 1, j as int) =~= s@.skip(at + 1));
    } else {
        assert(all@ =~= s@);
    }
    if all_digits(all.as_slice()) {
        Some((all, behind))
    } else {
        None
    }
}

fn big_digits(s: &[char]) -> (r: Big)
    requires
        is_digits(s@),
    ensures
        r.value() == digits_value(s@),
{
    let mut out = Big::from_u32(0);
    let mut i: usize = 0;
    while i < s.len()
        invariant
            i <= s@.len(),
            is_digits(s@),
            out.value() == digits_value(s@.take(i as int)),
        decreases s@.len() - i,
    {
        assert(s@.take(i + 1).drop_last() =~= s@.take(i as int));
        assert(is_digit(s@[i as int]));
        out = out.times_plus(10, s[i] as u32 - '0' as u32);
        i = i + 1;
    }
    assert(s@.take(i as int) =~= s@);
    out
}

fn all_zero(s: &[char]) -> (r: bool)
    requires
        is_digits(s@),
    ensures
        r == (digits_value(s@) == 0),
{
    let mut i: usize = 0;
    while i < s.len()
        invariant
            i <= s@.len(),
            is_digits(s@),
            digits_value(s@.take(i as int)) == 0,
        decreases s@.len() - i,
    {
        assert(s@.take(i + 1).drop_last() =~= s@.take(i as int));
        assert(is_digit(s@[i as int]));
        if s[i] != '0' {
            proof {
                crate::text::lemma_digits_grow(s@, i + 1);
            }
            return false;
        }
        i = i + 1;
    }
    assert(s@.take(i as int) =~= s@);
    true
}

proof fn lemma_digits_bound(s: Seq<char>)
    requires
        forall|i: int| 0 <= i < s.len() ==> is_digit(#[trigger] s[i]),
    ensures
        digits_value(s) < pow(10, s.len()),
    decreases s.len(),
{
    reveal(pow);
    if s.len() > 0 {
        assert forall|i: int| 0 <= i < s.drop_last().len() implies is_digit(
            #[trigger] s.drop_last()[i],
        ) by {
            assert(s.drop_last()[i] == s[i]);
        }
        lemma_digits_bound(s.drop_last());
        assert(is_digit(s.last()));
        assert(pow(10, s.len()) == 10 * pow(10, (s.len() - 1) as nat));
    }
}

proof fn lemma_powers()
    ensures
        pow(10, 20) == 100000000000000000000,
        pow(10, 25) == 10000000000000000000000000,
        pow2(64) == 18446744073709551616,
        pow2(80) == 1208925819614629174706176,
{
    reveal_with_fuel(pow, 26);
    assert(pow(10, 20) == 100000000000000000000);
    lemma_pow_adds(10, 20, 5);
    lemma2_to64();
    lemma_pow2_adds(64, 16);
}

/// Digits times a power of ten, times `k`, as a whole number of 64 bits.
fn scale_digits(digits: &[char], scale: i128, k: u64, Ghost(exact): Ghost<int>) -> (r: u64)
    requires
        is_digits(digits@),
        0 < k <= 1000000000000000,
        -2000000000000000000000000000000 < scale < 2000000000000000000000000000000,
        -900000000000000000000000000000 < scale < 900000000000000000000000000000 ==> scale == exact,
        scale >= 900000000000000000000000000000 ==> exact >= 20,
        scale <= -900000000000000000000000000000 ==> exact < -(digits@.len() + 25),
    ensures
        r == scaled_value(digits_value(digits@), exact, k as nat),
{
    let ghost v = digits_value(digits@);
    if all_zero(digits) {
        return 0;
    }
    proof {
        lemma_powers();
        lemma_digits_bound(digits@);
    }
    if scale >= 20 {
        proof {
            lemma_pow_increases(10, 20, exact as nat);
            assert(v * pow(10, exact as nat) >= 100000000000000000000) by (nonlinear_arith)
                requires
                    v >= 1,
                    pow(10, exact as nat) >= 100000000000000000000,
            ;
        }
        return u64::MAX;
    }
    let far: i128 = digits.len() as i128 + 25;
    if scale < -far {
        proof {
            let n = digits@.len();
            lemma_pow_adds(10, n, 25);
            lemma_pow_increases(10, (n + 25) as nat, (-exact) as nat);
            lemma_pow_positive(10, n);
            assert(v * 1208925819614629174706176 < pow(10, (-exact) as nat)) by (nonlinear_arith)
                requires
                    v < pow(10, n),
                    pow(10, (n + 25) as nat) == pow(10, n) * 10000000000000000000000000,
                    pow(10, (n + 25) as nat) <= pow(10, (-exact) as nat),
                    pow(10, n) > 0,
            ;
        }
        return 0;
    }
    assert(scale == exact);
    let digits_big = big_digits(digits);
    let one = Big::from_u32(1);
    let (n, d): (Big, Big) = if scale >= 0 {
        (digits_big.tenfold(scale as u128), one)
    } else {
        (digits_big, one.tenfold((-scale) as u128))
    };
    proof {
        if scale >= 0 {
            lemma_pow_positive(10, scale as nat);
            assert(v * pow(10, scale as nat) > 0) by (nonlinear_arith)
                requires
                    v > 0,
                    pow(10, scale as nat) > 0,
            ;
        } else {
            lemma_pow_positive(10, (-scale) as nat);
            assert(1 * pow(10, (-scale) as nat) == pow(10, (-scale) as nat));
        }
        assert((n.value(), d.value()) == ratio(v, exact));
    }
    if n.shifted(80).less(&d) {
        return 0;
    }
    if !n.less(&d.shifted(64)) {
        return u64::MAX;
    }
    let x = round_big(&n, &d);
    assert(x.mantissa * k <= 9007199254740992 * 1000000000000000) by (nonlinear_arith)
        requires
            x.mantissa <= 9007199254740992,
            k <= 1000000000000000,
    ;
    assert(x.mantissa * k > 0) by (nonlinear_arith)
        requires
            x.mantissa > 0,
            k > 0,
    ;
    let y = round_ratio(x.mantissa as u128 * k as u128, 1);
    truncate(Double { mantissa: y.mantissa, exponent: y.exponent + x.exponent })
}

/// The number that a text says, times `k`, as a whole number of 64 bits.
pub fn parse_scaled(s: &[char], k: u64) -> (r: Option<u64>)
    requires
        0 < k <= 1000000000000000,
    ensures
        r == scaled_number(s@, k as nat),
{
    let negative = s.len() > 0 && s[0] == '-';
    let body = without_sign(s);
    if is_spelled(body, "inf") || is_spelled(body, "infinity") {
        return if negative {
            Some(0)
        } else {
            Some(u64::MAX)
        };
    }
    if is_spelled(body, "nan") {
        return Some(0);
    }
    proof {
        lemma_first_at(body@, 'e');
        lemma_first_at(body@, 'E');
    }
    let small: usize = match crate::text::find_char(body, 'e') {
        Some(i) => i,
        None => body.len(),
    };
    let large: usize = match crate::text::find_char(body, 'E') {
        Some(i) => i,
        None => body.len(),
    };
    let at: usize = if small < large {
        small
    } else {
        large
    };
    let end: usize = body.len();
    let front = slice_subrange(body, 0, at);
    assert(front@ =~= body@.take(at as int));
    let (digits, behind) = match parse_significand(front) {
        Some(p) => p,
        None => {
            if at == end {
                assert(front@ =~= body@);
            }
            return None;
        },
    };
    let (exponent, ghost_exponent): (i128, Ghost<int>) = if at == end {
        assert(front@ =~= body@);
        (0, Ghost(0))
    } else {
        let rest = slice_subrange(body, at + 1, end);
        assert(rest@ =~= body@.skip(at + 1));
        match parse_exponent(rest) {
            Some(e) => (e, Ghost(exponent_text(rest@)->0)),
            None => {
                return None;
            },
        }
    };
    if negative {
        return Some(0);
    }
    let ghost exact: int = ghost_exponent@ - behind;
    let count: usize = digits.len();
    assert(digits@.len() == count);
    Some(scale_digits(digits.as_slice(), exponent - behind as i128, k, Ghost(exact)))
}

/// A negative number comes to nothing, whatever it is scaled by.
pub proof fn law_negative_is_nothing(s: Seq<char>, k: nat)
    requires
        is_negative(s),
        figure_in(s) is Some,
    ensures
        scaled_number(s, k) == Some(0u64),
{
}

/// A whole number of units is exactly that many, as far as floating point
/// holds it.
pub proof fn law_whole_numbers_are_scaled_exactly(n: nat, k: nat)
    requires
        n < 9007199254740992,
        0 < k,
        n * k < 9007199254740992,
    ensures
        scaled_number(decimal(n), k) == Some((n * k) as u64),
{
    let s = decimal(n);
    crate::text::law_decimal_reads_back(n);
    assert(is_digit(s[0]));
    reveal_strlit("inf");
    reveal_strlit("infinity");
    reveal_strlit("nan");
    assert(magnitude(s) == s);
    assert(lower(s[0]) == s[0]);
    assert("inf"@[0] == 'i' && "infinity"@[0] == 'i' && "nan"@[0] == 'n');
    lemma_no_such_char(s, 'e');
    lemma_no_such_char(s, 'E');
    lemma_no_such_char(s, '.');
    assert(figure_in(s) == Some(Figure::Finite { negative: false, digits: s, scale: 0 }));
    assert(pow(10, 0) == 1) by {
        vstd::arithmetic::power::lemma_pow0(10);
    }
    let one = pow(10, 0) as nat;
    assert(n * one == n) by (nonlinear_arith)
        requires
            one == 1,
    ;
    assert(ratio(n, 0) == (n, 1nat));
    vstd::arithmetic::power2::lemma2_to64();
    vstd::arithmetic::power2::lemma_pow2_pos(80);
    if n > 0 {
        let p80 = pow2(80);
        assert(n * p80 >= 1) by (nonlinear_arith)
            requires
                n >= 1,
                p80 >= 1,
        ;
        assert(n * k > 0) by (nonlinear_arith)
            requires
                n > 0,
                k > 0,
        ;
        let j = crate::exact::lemma_whole_numbers_are_kept(n);
        let p = pow2(j);
        crate::exact::lemma_nearest_scales(n * k, 1, j, 0);
        assert((n * p) * k == (n * k) * p) by (nonlinear_arith);
        assert(1 * pow2(0) == 1);
        assert(product(nearest(n, 1), k) == nearest(n * k, 1));
        crate::exact::lemma_whole_part_survives(n * k, 1);
    } else {
        assert(n * k == 0) by (nonlinear_arith)
            requires
                n == 0,
        ;
    }
}

proof fn lemma_no_such_char(s: Seq<char>, c: char)
    requires
        is_digits(s),
        !is_digit(c),
    ensures
        first_at(s, c) == s.len(),
{
    crate::text::lemma_first_at(s, c);
    let at = first_at(s, c);
    if at < s.len() {
        assert(is_digit(s[at]));
    }
}

} // verus!

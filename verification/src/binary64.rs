//! Double-precision numbers carried as their bit patterns.
//!
//! The library computes with integers only. A double is held as the 64 bits
//! of its IEEE 754 binary64 encoding; comparing two of them, and the few
//! products and quotients that the library needs, are done exactly on those
//! bits, with the rounding that IEEE 754 prescribes.
use vstd::arithmetic::div_mod::lemma_div_denominator;
use vstd::arithmetic::power2::{
    lemma2_to64, lemma2_to64_rest, lemma_pow2_adds, lemma_pow2_pos, lemma_pow2_strictly_increases, lemma_pow2_unfold,
    pow2,
};
use vstd::prelude::*;

verus! {

/// A double, as the bits of its binary64 encoding.
#[derive(Clone, Copy, Debug, PartialEq, Eq, Structural)]
pub struct Binary64 {
    pub bits: u64,
}

/// The sign bit.
pub const SIGN: u64 = 0x8000_0000_0000_0000;

/// The bits of positive infinity; larger magnitudes are not numbers.
pub const INFINITY: u64 = 0x7ff0_0000_0000_0000;

/// The weight of the exponent field.
pub const EXPONENT_UNIT: u64 = 0x10_0000_0000_0000;

/// The bits of one.
pub const ONE: u64 = 0x3ff0_0000_0000_0000;

impl Binary64 {
    /// The bits without the sign.
    pub open spec fn magnitude(self) -> int {
        if self.bits >= SIGN {
            self.bits - SIGN
        } else {
            self.bits as int
        }
    }

    pub open spec fn is_nan(self) -> bool {
        self.magnitude() > INFINITY
    }

    /// The place of a number in the order of the doubles: magnitudes order as
    /// their bits do, and the two zeros are equal.
    pub open spec fn place(self) -> int {
        if self.bits >= SIGN {
            -self.magnitude()
        } else {
            self.magnitude()
        }
    }

    /// `self < other`, which is false whenever either is not a number.
    pub open spec fn less(self, other: Binary64) -> bool {
        !self.is_nan() && !other.is_nan() && self.place() < other.place()
    }

    /// `self <= other`, which is false whenever either is not a number.
    pub open spec fn at_most(self, other: Binary64) -> bool {
        !self.is_nan() && !other.is_nan() && self.place() <= other.place()
    }

    /// `self > 0`.
    pub open spec fn positive(self) -> bool {
        0 < self.bits <= INFINITY
    }

    /// A number that is greater than zero and not infinite.
    pub open spec fn positive_finite(self) -> bool {
        0 < self.bits < INFINITY
    }

    /// The integer significand of a positive finite number.
    pub open spec fn significand(self) -> int {
        let fraction = self.bits % EXPONENT_UNIT;
        if self.bits < EXPONENT_UNIT {
            fraction as int
        } else {
            fraction + EXPONENT_UNIT
        }
    }

    /// The power of two that scales the significand.
    pub open spec fn scale(self) -> int {
        if self.bits < EXPONENT_UNIT {
            -1074
        } else {
            self.bits / EXPONENT_UNIT - 1075
        }
    }

    /// Whether `self > 0`.
    pub fn is_positive(self) -> (r: bool)
        ensures
            r == self.positive(),
            r == (Binary64 { bits: 0 }).less(self),
    {
        0 < self.bits && self.bits <= INFINITY
    }

    /// Whether `self < 1`.
    pub fn is_below_one(self) -> (r: bool)
        ensures
            r == self.less(Binary64 { bits: ONE }),
    {
        if self.bits >= SIGN {
            self.bits - SIGN <= INFINITY
        } else {
            self.bits < ONE
        }
    }

    /// Whether `self <= other`.
    pub fn is_at_most(self, other: Binary64) -> (r: bool)
        ensures
            r == self.at_most(other),
    {
        let a: u64 = if self.bits >= SIGN { self.bits - SIGN } else { self.bits };
        let b: u64 = if other.bits >= SIGN { other.bits - SIGN } else { other.bits };
        if a > INFINITY || b > INFINITY {
            false
        } else if self.bits >= SIGN {
            if other.bits >= SIGN {
                b <= a
            } else {
                true
            }
        } else if other.bits >= SIGN {
            a == 0 && b == 0
        } else {
            a <= b
        }
    }
}

// ---------------------------------------------------------------------------
// Rounding
// ---------------------------------------------------------------------------

/// The integer nearest to `a / b`; of two equally near ones the even one.
pub open spec fn nearest_even(a: nat, b: nat) -> nat {
    let f = a / b;
    let r = a % b;
    if 2 * r < b || (2 * r == b && f % 2 == 0) {
        f
    } else {
        f + 1
    }
}

/// Numerator of `(p / q) / 2^e`.
pub open spec fn numerator(p: nat, e: int) -> nat {
    if e < 0 {
        p * pow2((-e) as nat)
    } else {
        p
    }
}

/// Denominator of `(p / q) / 2^e`.
pub open spec fn denominator(q: nat, e: int) -> nat {
    if e < 0 {
        q
    } else {
        q * pow2(e as nat)
    }
}

/// `(p / q) / 2^e` has 53 bits before the point.
pub open spec fn has_53_bits(p: nat, q: nat, e: int) -> bool {
    &&& pow2(52) * denominator(q, e) <= numerator(p, e)
    &&& numerator(p, e) < pow2(53) * denominator(q, e)
}

/// The exponent of the double nearest to the positive ratio `p / q`.
pub open spec fn exponent_of(p: nat, q: nat) -> int {
    choose|e: int| has_53_bits(p, q, e)
}

/// The positive ratio `p / q`, rounded to 53 bits, to nearest with ties to
/// even: the pair `(m, e)` stands for `m * 2^e`.
pub open spec fn rounded(p: nat, q: nat) -> (nat, int) {
    let e = exponent_of(p, q);
    (nearest_even(numerator(p, e), denominator(q, e)), e)
}

/// The integer part of `m * 2^e`.
pub open spec fn integer_part(m: nat, e: int) -> nat {
    if e < 0 {
        m / pow2((-e) as nat)
    } else {
        m * pow2(e as nat)
    }
}

/// Only one exponent leaves 53 bits before the point.
proof fn lemma_exponent_unique(p: nat, q: nat, e1: int, e2: int)
    requires
        q > 0,
        has_53_bits(p, q, e1),
        has_53_bits(p, q, e2),
    ensures
        e1 == e2,
{
    lemma_exponent_grows(p, p, q, e1, e2);
    lemma_exponent_grows(p, p, q, e2, e1);
}

/// A larger ratio has no smaller exponent.
proof fn lemma_exponent_grows(p: nat, less: nat, q: nat, e1: int, e2: int)
    requires
        q > 0,
        less <= p,
        has_53_bits(p, q, e1),
        has_53_bits(less, q, e2),
    ensures
        e1 >= e2,
{
    if e1 < e2 {
        lemma_pow2_unfold(53);
        let c = pow2(52) as int;
        assert(pow2(53) == 2 * c);
        lemma_pow2_pos(52);
        let (ip, il, iq) = (p as int, less as int, q as int);
        if e2 < 0 {
            let (n1, n2) = ((-e1) as nat, (-e2) as nat);
            lemma_pow2_adds(n2, (n1 - n2) as nat);
            lemma_pow2_unfold((n1 - n2) as nat);
            lemma_pow2_pos((n1 - n2 - 1) as nat);
            lemma_pow2_pos(n2);
            let (x1, x2) = (pow2(n1) as int, pow2(n2) as int);
            let k = pow2((n1 - n2) as nat) as int;
            assert(x1 >= 2 * x2) by (nonlinear_arith)
                requires
                    x1 == x2 * k,
                    k >= 2,
                    x2 > 0,
            ;
            assert(false) by (nonlinear_arith)
                requires
                    ip * x1 < 2 * c * iq,
                    c * iq <= il * x2,
                    x1 >= 2 * x2,
                    x2 > 0,
                    0 <= il <= ip,
            ;
        } else if e1 >= 0 {
            let (n1, n2) = (e1 as nat, e2 as nat);
            lemma_pow2_adds(n1, (n2 - n1) as nat);
            lemma_pow2_unfold((n2 - n1) as nat);
            lemma_pow2_pos((n2 - n1 - 1) as nat);
            lemma_pow2_pos(n1);
            let (x1, x2) = (pow2(n1) as int, pow2(n2) as int);
            let k = pow2((n2 - n1) as nat) as int;
            assert(x2 >= 2 * x1) by (nonlinear_arith)
                requires
                    x2 == x1 * k,
                    k >= 2,
                    x1 > 0,
            ;
            let (y1, y2) = (iq * x1, iq * x2);
            assert(y2 >= 2 * y1) by (nonlinear_arith)
                requires
                    y1 == iq * x1,
                    y2 == iq * x2,
                    x2 >= 2 * x1,
                    iq > 0,
            ;
            assert(false) by (nonlinear_arith)
                requires
                    ip < 2 * c * y1,
                    c * y2 <= il,
                    il <= ip,
                    y2 >= 2 * y1,
                    c > 0,
            ;
        } else {
            let n1 = (-e1) as nat;
            lemma_pow2_unfold(n1);
            lemma_pow2_pos((n1 - 1) as nat);
            lemma_pow2_pos(e2 as nat);
            let (x1, x2) = (pow2(n1) as int, pow2(e2 as nat) as int);
            let y2 = iq * x2;
            assert(y2 >= iq) by (nonlinear_arith)
                requires
                    y2 == iq * x2,
                    x2 >= 1,
                    iq > 0,
            ;
            assert(false) by (nonlinear_arith)
                requires
                    ip * x1 < 2 * c * iq,
                    c * y2 <= il,
                    il <= ip,
                    y2 >= iq,
                    x1 >= 2,
                    c > 0,
                    iq > 0,
            ;
        }
    }
}

/// `p / q` rounded to 53 bits: `(m, e)` stands for `m * 2^e`.
fn round_ratio(p: u128, q: u128) -> (r: (u64, i32))
    requires
        0 < p < 0x800_0000_0000_0000_0000_0000_0000,
        0 < q < 0x1_0000_0000_0000_0000,
    ensures
        (r.0 as nat, r.1 as int) == rounded(p as nat, q as nat),
        0x10_0000_0000_0000 <= r.0 <= 0x20_0000_0000_0000,
        -200 < r.1 < 200,
{
    proof {
        lemma2_to64();
        lemma2_to64_rest();
        lemma_pow2_adds(64, 64);
    }
    let mut num = p;
    let mut den = q;
    let mut e: i32 = 0;
    if num < den * 0x10_0000_0000_0000 {
        while num < den * 0x10_0000_0000_0000
            invariant
                den == q,
                0 < q < 0x1_0000_0000_0000_0000,
                0 < p,
                -200 < e <= 0,
                num == numerator(p as nat, e as int),
                num < den * 0x20_0000_0000_0000,
            decreases den * 0x20_0000_0000_0000 - num,
        {
            proof {
                let a = (-e) as nat;
                lemma_pow2_unfold(a + 1);
                lemma_pow2_pos(a);
                let (x, y, z) = (p as int, pow2(a) as int, pow2(a + 1) as int);
                if a == 0 {
                    lemma2_to64();
                }
                assert(x * z == 2 * (x * y)) by (nonlinear_arith)
                    requires
                        z == 2 * y,
                ;
                assert(y <= x * y) by (nonlinear_arith)
                    requires
                        x >= 1,
                        y > 0,
                ;
                if a >= 199 {
                    lemma2_to64();
                    lemma_pow2_adds(64, 64);
                    lemma_pow2_strictly_increases(128, a);
                }
            }
            num = num * 2;
            e = e - 1;
        }
    } else {
        assert(q * pow2(0) == q) by {
            lemma2_to64();
        }
        while num >= den * 0x20_0000_0000_0000
            invariant
                num == p,
                p < 0x800_0000_0000_0000_0000_0000_0000,
                0 < q <= den < 0x1_0000_0000_0000_0000,
                0 <= e < 200,
                den == denominator(q as nat, e as int),
                den * 0x10_0000_0000_0000 <= num,
            decreases num - den,
        {
            proof {
                let a = e as nat;
                lemma_pow2_unfold(a + 1);
                lemma_pow2_pos(a);
                let (x, y, z) = (q as int, pow2(a) as int, pow2(a + 1) as int);
                assert(x * z == 2 * (x * y)) by (nonlinear_arith)
                    requires
                        z == 2 * y,
                ;
                assert(y <= x * y) by (nonlinear_arith)
                    requires
                        x >= 1,
                        y > 0,
                ;
                if a >= 199 {
                    lemma2_to64();
                    lemma_pow2_strictly_increases(64, a);
                }
            }
            den = den * 2;
            e = e + 1;
        }
    }
    proof {
        assert(has_53_bits(p as nat, q as nat, e as int));
        lemma_exponent_unique(p as nat, q as nat, e as int, exponent_of(p as nat, q as nat));
        assert(num / den < 0x20_0000_0000_0000 && num / den >= 0x10_0000_0000_0000) by (nonlinear_arith)
            requires
                den > 0,
                den * 0x10_0000_0000_0000 <= num,
                num < den * 0x20_0000_0000_0000,
        ;
    }
    let f = num / den;
    let r = num % den;
    let up = !(2 * r < den || (2 * r == den && f % 2 == 0));
    let m: u64 = if up { f as u64 + 1 } else { f as u64 };
    (m, e)
}

/// The smaller of two numbers.
pub open spec fn capped(x: nat, limit: nat) -> nat {
    if x < limit {
        x
    } else {
        limit
    }
}

/// The integer part of `m * 2^e`, or the largest `u64` if it does not fit.
fn truncate(m: u64, e: i32) -> (r: u64)
    requires
        -4000 < e < 4000,
    ensures
        r == capped(integer_part(m as nat, e as int), u64::MAX as nat),
{
    let mut cur = m;
    proof {
        lemma2_to64();
    }
    if e < 0 {
        let mut left: i32 = -e;
        assert(m / 1 == m);
        while left > 0
            invariant
                0 <= left < 4000,
                integer_part(m as nat, e as int) == cur as nat / pow2(left as nat),
            decreases left,
        {
            proof {
                lemma_pow2_unfold(left as nat);
                lemma_pow2_pos((left - 1) as nat);
                lemma_div_denominator(cur as int, 2, pow2((left - 1) as nat) as int);
            }
            cur = cur / 2;
            left = left - 1;
        }
        proof {
            lemma2_to64();
            assert(cur as nat / 1 == cur);
        }
        cur
    } else {
        let mut left: i32 = e;
        while left > 0
            invariant
                0 <= left < 4000,
                integer_part(m as nat, e as int) == cur as nat * pow2(left as nat),
            decreases left,
        {
            proof {
                lemma_pow2_unfold(left as nat);
                lemma_pow2_pos((left - 1) as nat);
                let (x, y, z) = (cur as int, pow2((left - 1) as nat) as int, pow2(left as nat) as int);
                assert(x * z == (x * 2) * y) by (nonlinear_arith)
                    requires
                        z == 2 * y,
                ;
                assert((x * 2) * y >= x * 2) by (nonlinear_arith)
                    requires
                        x >= 0,
                        y >= 1,
                ;
            }
            if cur > u64::MAX / 2 {
                return u64::MAX;
            }
            cur = cur * 2;
            left = left - 1;
        }
        proof {
            lemma2_to64();
            assert(cur as nat * 1 == cur);
        }
        cur
    }
}

/// `done` as a percentage of `total`, at most 100: both are converted to
/// doubles, divided, multiplied by 100, and cut off at the point.
pub open spec fn percentage(done: nat, total: nat) -> nat {
    if total == 0 || done == 0 {
        0
    } else {
        let d = rounded(done, 1);
        let t = rounded(total, 1);
        let ratio = rounded(d.0, t.0);
        let product = rounded(ratio.0 * 100, 1);
        capped(integer_part(product.0, product.1 + ratio.1 + d.1 - t.1), 100)
    }
}

/// `done` as a percentage of `total`.
pub fn percent_of(done: u64, total: u64) -> (r: u16)
    ensures
        r == percentage(done as nat, total as nat),
        r <= 100,
{
    if total == 0 || done == 0 {
        return 0;
    }
    let d = round_ratio(done as u128, 1);
    let t = round_ratio(total as u128, 1);
    let ratio = round_ratio(d.0 as u128, t.0 as u128);
    let product = round_ratio(ratio.0 as u128 * 100, 1);
    let whole = truncate(product.0, product.1 + ratio.1 + d.1 - t.1);
    if whole < 100 {
        whole as u16
    } else {
        100
    }
}

/// The share `f` of `n`: both are doubles, multiplied and cut off at the
/// point, and kept between 0 and `limit`.
pub open spec fn share(n: nat, f: Binary64, limit: nat) -> nat {
    if n == 0 || !f.positive() {
        0
    } else if f.bits == INFINITY {
        limit
    } else {
        let a = rounded(n, 1);
        let product = rounded(a.0 * f.significand() as nat, 1);
        capped(integer_part(product.0, product.1 + a.1 + f.scale()), limit)
    }
}

/// The share `f` of `n`, as an unsigned integer.
pub fn share_of(n: usize, f: Binary64) -> (r: usize)
    ensures
        r == share(n as nat, f, usize::MAX as nat),
{
    if n == 0 || !f.is_positive() {
        return 0;
    }
    if f.bits == INFINITY {
        return usize::MAX;
    }
    let a = round_ratio(n as u128, 1);
    let fraction = f.bits % EXPONENT_UNIT;
    let (m, e): (u64, i32) = if f.bits < EXPONENT_UNIT {
        (fraction, -1074)
    } else {
        (fraction + EXPONENT_UNIT, (f.bits / EXPONENT_UNIT) as i32 - 1075)
    };
    proof {
        let (x, y) = (a.0 as int, m as int);
        assert(0 < x * y < 0x800_0000_0000_0000_0000_0000_0000) by (nonlinear_arith)
            requires
                0 < x <= 0x20_0000_0000_0000,
                0 < y < 0x20_0000_0000_0000,
        ;
    }
    let product = round_ratio(a.0 as u128 * m as u128, 1);
    let whole = truncate(product.0, product.1 + a.1 + e);
    if whole < usize::MAX as u64 {
        whole as usize
    } else {
        usize::MAX
    }
}

// ---------------------------------------------------------------------------
// Laws
// ---------------------------------------------------------------------------

/// A positive finite number, counted in units of the smallest one, `2^-1074`.
pub open spec fn units(a: Binary64) -> int {
    a.significand() * pow2((a.scale() + 1074) as nat)
}

/// The order of the bit patterns is the order of the numbers.
pub proof fn law_order_is_numeric(a: Binary64, b: Binary64)
    requires
        a.positive_finite(),
        b.positive_finite(),
    ensures
        a.less(b) <==> units(a) < units(b),
        a.at_most(b) <==> units(a) <= units(b),
{
    lemma2_to64();
    if a.bits < b.bits {
        lemma_units_increase(a, b);
    } else if b.bits < a.bits {
        lemma_units_increase(b, a);
    }
}

proof fn lemma_units_increase(a: Binary64, b: Binary64)
    requires
        a.positive_finite(),
        b.positive_finite(),
        a.bits < b.bits,
    ensures
        units(a) < units(b),
{
    lemma2_to64();
    let unit = EXPONENT_UNIT as int;
    let (ea, eb) = (a.bits as int / unit, b.bits as int / unit);
    let (sa, sb) = (a.significand(), b.significand());
    let pa = pow2((a.scale() + 1074) as nat) as int;
    let pb = pow2((b.scale() + 1074) as nat) as int;
    lemma_pow2_pos((a.scale() + 1074) as nat);
    lemma_pow2_pos((b.scale() + 1074) as nat);
    if ea == eb || (ea == 0 && eb == 1) {
        assert(sa * pa < sb * pb) by (nonlinear_arith)
            requires
                sa < sb,
                pa == pb,
                pa > 0,
        ;
    } else {
        // The exponent of `b` is the larger one.
        let k = (b.scale() - a.scale()) as nat;
        lemma_pow2_adds((a.scale() + 1074) as nat, k);
        lemma_pow2_unfold(k);
        lemma_pow2_pos((k - 1) as nat);
        let f = pow2(k) as int;
        assert(sa * pa < sb * pb) by (nonlinear_arith)
            requires
                pb == pa * f,
                f >= 2,
                pa > 0,
                sa < 2 * unit,
                sb >= unit,
                unit > 0,
        ;
    }
}

/// Every positive ratio has an exponent that leaves 53 bits before the point.
pub proof fn law_exponent_exists(p: nat, q: nat)
    requires
        p > 0,
        q > 0,
    ensures
        has_53_bits(p, q, exponent_of(p, q)),
{
    lemma2_to64();
    lemma2_to64_rest();
    if p < pow2(53) * q {
        lemma_exponent_below(p, q, 0);
    } else {
        assert(q * 1 == q);
        lemma_exponent_above(p, q, 0);
    }
}

proof fn lemma_exponent_below(p: nat, q: nat, a: nat)
    requires
        p > 0,
        numerator(p, -(a as int)) < pow2(53) * q,
        q > 0,
        a == 0 ==> denominator(q, 0) == q,
    ensures
        exists|e: int| has_53_bits(p, q, e),
    decreases pow2(53) * q - numerator(p, -(a as int)),
{
    lemma2_to64();
    lemma2_to64_rest();
    assert(q * 1 == q && p * 1 == p);
    let e = -(a as int);
    if pow2(52) * q <= numerator(p, e) {
        assert(has_53_bits(p, q, e));
    } else {
        lemma_pow2_unfold(a + 1);
        lemma_pow2_pos(a);
        let (x, y, z) = (p as int, pow2(a) as int, pow2(a + 1) as int);
        assert(x * z == 2 * (x * y)) by (nonlinear_arith)
            requires
                z == 2 * y,
        ;
        assert(x * y > 0) by (nonlinear_arith)
            requires
                x > 0,
                y > 0,
        ;
        let (c, d, w) = (pow2(52) as int, pow2(53) as int, q as int);
        assert(d * w == 2 * (c * w)) by (nonlinear_arith)
            requires
                d == 2 * c,
        ;
        lemma_exponent_below(p, q, a + 1);
    }
}

proof fn lemma_exponent_above(p: nat, q: nat, a: nat)
    requires
        q > 0,
        pow2(52) * denominator(q, a as int) <= p,
    ensures
        exists|e: int| has_53_bits(p, q, e),
    decreases p - denominator(q, a as int),
{
    lemma2_to64();
    lemma2_to64_rest();
    let e = a as int;
    if p < pow2(53) * denominator(q, e) {
        assert(has_53_bits(p, q, e));
    } else {
        lemma_pow2_unfold(a + 1);
        lemma_pow2_pos(a);
        let (x, y, z) = (q as int, pow2(a) as int, pow2(a + 1) as int);
        assert(x * z == 2 * (x * y)) by (nonlinear_arith)
            requires
                z == 2 * y,
        ;
        assert(x * y > 0) by (nonlinear_arith)
            requires
                x > 0,
                y > 0,
        ;
        lemma_exponent_above(p, q, a + 1);
    }
}

/// Whatever the total, all of it is 100 percent, and none of it 0.
pub proof fn law_percentage_ends(total: nat)
    ensures
        percentage(0, total) == 0,
        total > 0 ==> percentage(total, total) == 100,
{
    if total > 0 {
        lemma2_to64();
        lemma2_to64_rest();
        law_exponent_exists(total, 1);
        let t = rounded(total, 1);
        let e = exponent_of(total, 1);
        lemma_rounded_positive(numerator(total, e), denominator(1, e));
        let m = t.0;
        // The ratio of a number to itself is one.
        assert(m * pow2(52) == pow2(52) * m) by (nonlinear_arith);
        assert(pow2(53) * m == 2 * (pow2(52) * m)) by (nonlinear_arith)
            requires
                pow2(53) == 2 * pow2(52),
        ;
        assert(pow2(52) * m > 0) by (nonlinear_arith)
            requires
                m > 0,
                pow2(52) > 0,
        ;
        assert(has_53_bits(m, m, -52));
        lemma_exponent_unique(m, m, -52, exponent_of(m, m));
        vstd::arithmetic::div_mod::lemma_div_by_multiple(pow2(52) as int, m as int);
        vstd::arithmetic::div_mod::lemma_mod_multiples_basic(pow2(52) as int, m as int);
        assert(rounded(m, m) == (pow2(52), -52int));
        // A hundred times one is a hundred.
        let h = pow2(52) * 100;
        assert(1 * pow2(6) == 64);
        assert(has_53_bits(h, 1, 6));
        lemma_exponent_unique(h, 1, 6, exponent_of(h, 1));
        assert(rounded(h, 1) == (h / 64, 6int));
        assert(pow2(46) == 0x4000_0000_0000);
        assert(h / 64 == 0x4000_0000_0000 * 100);
        assert((0x4000_0000_0000int * 100) / 0x4000_0000_0000int == 100);
        assert(integer_part(h / 64, -46) == 100);
        assert(rounded(pow2(52) * 100, 1).1 + rounded(m, m).1 + t.1 - t.1 == -46);
    }
}

/// `m1 * 2^e1 <= m2 * 2^e2`.
pub open spec fn scaled_le(m1: nat, e1: int, m2: nat, e2: int) -> bool {
    let base = if e1 < e2 {
        e1
    } else {
        e2
    };
    m1 * pow2((e1 - base) as nat) <= m2 * pow2((e2 - base) as nat)
}

/// A rounded ratio has 53 bits, or is the next power of two.
proof fn lemma_rounded_bounds(p: nat, q: nat)
    requires
        p > 0,
        q > 0,
    ensures
        pow2(52) <= rounded(p, q).0 <= pow2(53),
        has_53_bits(p, q, rounded(p, q).1),
{
    law_exponent_exists(p, q);
    let e = exponent_of(p, q);
    let (a, b) = (numerator(p, e) as int, denominator(q, e) as int);
    let (lo, hi) = (pow2(52) as int, pow2(53) as int);
    lemma_denominator_positive(q, e);
    assert(lo <= a / b && a / b < hi) by (nonlinear_arith)
        requires
            b > 0,
            lo * b <= a,
            a < hi * b,
    ;
}

proof fn lemma_denominator_positive(q: nat, e: int)
    requires
        q > 0,
    ensures
        denominator(q, e) > 0,
{
    if e >= 0 {
        lemma_pow2_pos(e as nat);
        let (x, y) = (q as int, pow2(e as nat) as int);
        assert(x * y > 0) by (nonlinear_arith)
            requires
                x > 0,
                y > 0,
        ;
    }
}

/// Rounding to an integer keeps the order.
proof fn lemma_nearest_even_grows(a1: nat, a2: nat, b: nat)
    requires
        a1 <= a2,
        b > 0,
    ensures
        nearest_even(a1, b) <= nearest_even(a2, b),
{
    vstd::arithmetic::div_mod::lemma_div_is_ordered(a1 as int, a2 as int, b as int);
    vstd::arithmetic::div_mod::lemma_fundamental_div_mod(a1 as int, b as int);
    vstd::arithmetic::div_mod::lemma_fundamental_div_mod(a2 as int, b as int);
}

/// Rounding to 53 bits keeps the order.
proof fn lemma_rounded_grows(p1: nat, p2: nat, q: nat)
    requires
        0 < p1 <= p2,
        q > 0,
    ensures
        scaled_le(rounded(p1, q).0, rounded(p1, q).1, rounded(p2, q).0, rounded(p2, q).1),
{
    let (r1, r2) = (rounded(p1, q), rounded(p2, q));
    lemma_rounded_bounds(p1, q);
    lemma_rounded_bounds(p2, q);
    lemma_exponent_grows(p2, p1, q, r2.1, r1.1);
    lemma2_to64();
    let k = (r2.1 - r1.1) as nat;
    if k == 0 {
        lemma_denominator_positive(q, r1.1);
        if r1.1 < 0 {
            let (x, y, z) = (p1 as int, p2 as int, pow2((-r1.1) as nat) as int);
            assert(x * z <= y * z) by (nonlinear_arith)
                requires
                    x <= y,
                    z >= 0,
            ;
        }
        lemma_nearest_even_grows(numerator(p1, r1.1), numerator(p2, r1.1), denominator(q, r1.1));
        assert(r1.0 * 1 == r1.0 && r2.0 * 1 == r2.0);
    } else {
        lemma_pow2_unfold(53);
        lemma_pow2_unfold(k);
        lemma_pow2_pos((k - 1) as nat);
        let (x, y, f, c) = (r1.0 as int, r2.0 as int, pow2(k) as int, pow2(52) as int);
        assert(x * 1 <= y * f) by (nonlinear_arith)
            requires
                x <= 2 * c,
                y >= c,
                f >= 2,
                c >= 0,
        ;
    }
}

/// Doubling both numbers leaves the nearest integer to their ratio.
proof fn lemma_nearest_even_doubled(a: nat, b: nat)
    requires
        b > 0,
    ensures
        nearest_even(2 * a, 2 * b) == nearest_even(a, b),
{
    let (x, y) = (a as int, b as int);
    let (f, r) = (x / y, x % y);
    vstd::arithmetic::div_mod::lemma_fundamental_div_mod(x, y);
    assert(2 * x == f * (2 * y) + 2 * r) by (nonlinear_arith)
        requires
            x == y * f + r,
    ;
    vstd::arithmetic::div_mod::lemma_fundamental_div_mod_converse(2 * x, 2 * y, f, 2 * r);
}

/// A ratio twice as large rounds to the same digits, one exponent higher.
proof fn lemma_rounded_doubled(p: nat, q: nat)
    requires
        p > 0,
        q > 0,
    ensures
        rounded(2 * p, q) == (rounded(p, q).0, rounded(p, q).1 + 1),
{
    let e = exponent_of(p, q);
    law_exponent_exists(p, q);
    lemma_denominator_positive(q, e);
    lemma2_to64();
    let (x, w) = (p as int, q as int);
    if e < 0 {
        let n = (-e) as nat;
        lemma_pow2_unfold(n);
        let (y, z) = (pow2((n - 1) as nat) as int, pow2(n) as int);
        assert(2 * x * y == x * z) by (nonlinear_arith)
            requires
                z == 2 * y,
        ;
        assert(w * 1 == w);
        if e == -1 {
            assert(2 * x * y == 2 * x) by (nonlinear_arith)
                requires
                    y == 1,
            ;
        } else {
            assert((-(e + 1)) as nat == (n - 1) as nat);
            assert(((2 * p) * pow2((n - 1) as nat)) as int == 2 * x * y);
        }
        assert(numerator(2 * p, e + 1) == numerator(p, e));
        assert(denominator(q, e + 1) == denominator(q, e));
    } else {
        let n = e as nat;
        lemma_pow2_unfold(n + 1);
        let (y, z) = (pow2(n) as int, pow2(n + 1) as int);
        let d = w * y;
        assert(w * z == 2 * d) by (nonlinear_arith)
            requires
                z == 2 * y,
                d == w * y,
        ;
        let (lo, hi) = (pow2(52) as int, pow2(53) as int);
        assert(lo * (2 * d) == 2 * (lo * d) && hi * (2 * d) == 2 * (hi * d)) by (nonlinear_arith);
        lemma_nearest_even_doubled(p, denominator(q, e));
    }
    assert(has_53_bits(2 * p, q, e + 1));
    lemma_exponent_unique(2 * p, q, e + 1, exponent_of(2 * p, q));
}

/// A power of two moves the exponent and leaves the digits.
proof fn lemma_rounded_scaled(p: nat, q: nat, k: nat)
    requires
        p > 0,
        q > 0,
    ensures
        rounded(p * pow2(k), q) == (rounded(p, q).0, rounded(p, q).1 + k),
    decreases k,
{
    lemma2_to64();
    if k == 0 {
        assert(p * 1 == p);
    } else {
        lemma_rounded_scaled(p, q, (k - 1) as nat);
        lemma_pow2_unfold(k);
        lemma_pow2_pos((k - 1) as nat);
        let (x, y, z) = (p as int, pow2((k - 1) as nat) as int, pow2(k) as int);
        assert(x * z == 2 * (x * y) && x * y > 0) by (nonlinear_arith)
            requires
                z == 2 * y,
                x > 0,
                y > 0,
        ;
        lemma_rounded_doubled(p * pow2((k - 1) as nat), q);
    }
}

/// Multiplying by `c / q` and rounding keeps the order of two numbers
/// `a * 2^e`.
proof fn lemma_operation_grows(a1: nat, e1: int, a2: nat, e2: int, c: nat, q: nat)
    requires
        a1 > 0,
        a2 > 0,
        c > 0,
        q > 0,
        scaled_le(a1, e1, a2, e2),
    ensures
        ({
            let r1 = rounded(a1 * c, q);
            let r2 = rounded(a2 * c, q);
            &&& r1.0 > 0
            &&& r2.0 > 0
            &&& scaled_le(r1.0, r1.1 + e1, r2.0, r2.1 + e2)
        }),
{
    let base = if e1 < e2 {
        e1
    } else {
        e2
    };
    let (k1, k2) = ((e1 - base) as nat, (e2 - base) as nat);
    lemma_pow2_pos(k1);
    lemma_pow2_pos(k2);
    lemma_pow2_pos(52);
    let (x1, x2, y) = (a1 as int, a2 as int, c as int);
    let (f1, f2) = (pow2(k1) as int, pow2(k2) as int);
    assert(x1 * y > 0 && x2 * y > 0) by (nonlinear_arith)
        requires
            x1 > 0,
            x2 > 0,
            y > 0,
    ;
    let (v1, v2) = (x1 * f1, x2 * f2);
    assert((x1 * y) * f1 == v1 * y) by (nonlinear_arith)
        requires
            v1 == x1 * f1,
    ;
    assert((x2 * y) * f2 == v2 * y) by (nonlinear_arith)
        requires
            v2 == x2 * f2,
    ;
    assert(v1 > 0) by (nonlinear_arith)
        requires
            v1 == x1 * f1,
            x1 > 0,
            f1 > 0,
    ;
    assert(0 < v1 * y && v1 * y <= v2 * y) by (nonlinear_arith)
        requires
            0 < v1 <= v2,
            y > 0,
    ;
    lemma_rounded_bounds(a1 * c, q);
    lemma_rounded_bounds(a2 * c, q);
    lemma_rounded_scaled(a1 * c, q, k1);
    lemma_rounded_scaled(a2 * c, q, k2);
    lemma_rounded_grows((a1 * c) * pow2(k1), (a2 * c) * pow2(k2), q);
}

/// The integer part, with the number taken in units of `2^b`.
proof fn lemma_integer_part(m: nat, e: int, b: int)
    requires
        b <= e,
        b <= 0,
    ensures
        pow2((-b) as nat) > 0,
        integer_part(m, e) == (m * pow2((e - b) as nat)) / pow2((-b) as nat),
{
    lemma_pow2_pos((-b) as nat);
    lemma_pow2_pos((e - b) as nat);
    let x = m as int;
    if e < 0 {
        lemma_pow2_adds((-e) as nat, (e - b) as nat);
        lemma_pow2_pos((-e) as nat);
        let (y, z) = (pow2((e - b) as nat) as int, pow2((-e) as nat) as int);
        vstd::arithmetic::div_mod::lemma_div_multiples_vanish_quotient(y, x, z);
        assert(y * x == x * y && y * z == z * y) by (nonlinear_arith);
    } else {
        lemma_pow2_adds(e as nat, (-b) as nat);
        let (y, z) = (pow2(e as nat) as int, pow2((-b) as nat) as int);
        assert(x * (y * z) == (x * y) * z) by (nonlinear_arith);
        vstd::arithmetic::div_mod::lemma_div_by_multiple(x * y, z);
    }
}

/// The integer part keeps the order.
proof fn lemma_integer_part_grows(m1: nat, e1: int, m2: nat, e2: int)
    requires
        scaled_le(m1, e1, m2, e2),
    ensures
        integer_part(m1, e1) <= integer_part(m2, e2),
{
    let base = if e1 < e2 {
        e1
    } else {
        e2
    };
    let b = if base < 0 {
        base
    } else {
        0
    };
    let (k1, k2, k) = ((e1 - base) as nat, (e2 - base) as nat, (base - b) as nat);
    lemma_pow2_adds(k1, k);
    lemma_pow2_adds(k2, k);
    let (x1, x2) = (m1 as int, m2 as int);
    let (f1, f2, f) = (pow2(k1) as int, pow2(k2) as int, pow2(k) as int);
    assert(x1 * (f1 * f) <= x2 * (f2 * f)) by (nonlinear_arith)
        requires
            x1 * f1 <= x2 * f2,
            f >= 0,
    ;
    lemma_integer_part(m1, e1, b);
    lemma_integer_part(m2, e2, b);
    vstd::arithmetic::div_mod::lemma_div_is_ordered(
        x1 * (f1 * f),
        x2 * (f2 * f),
        pow2((-b) as nat) as int,
    );
}

/// A percentage never falls as more is done.
pub proof fn law_percentage_grows(done1: nat, done2: nat, total: nat)
    requires
        done1 <= done2,
    ensures
        percentage(done1, total) <= percentage(done2, total) <= 100,
{
    if total > 0 && done1 > 0 {
        lemma2_to64();
        assert(done1 * 1 == done1 && done2 * 1 == done2);
        lemma_operation_grows(done1, 0, done2, 0, 1, 1);
        let (d1, d2, t) = (rounded(done1, 1), rounded(done2, 1), rounded(total, 1));
        lemma_pow2_pos(52);
        lemma_rounded_bounds(total, 1);
        assert(d1.0 * 1 == d1.0 && d2.0 * 1 == d2.0);
        lemma_operation_grows(d1.0, d1.1 - t.1, d2.0, d2.1 - t.1, 1, t.0);
        let (r1, r2) = (rounded(d1.0, t.0), rounded(d2.0, t.0));
        let (e1, e2) = (r1.1 + d1.1 - t.1, r2.1 + d2.1 - t.1);
        lemma_operation_grows(r1.0, e1, r2.0, e2, 100, 1);
        let (p1, p2) = (rounded(r1.0 * 100, 1), rounded(r2.0 * 100, 1));
        lemma_integer_part_grows(p1.0, p1.1 + e1, p2.0, p2.1 + e2);
    }
}

/// All of the total and anything beyond it is 100 percent.
pub proof fn law_percentage_complete(done: nat, total: nat)
    requires
        done >= total > 0,
    ensures
        percentage(done, total) == 100,
{
    law_percentage_ends(total);
    law_percentage_grows(total, done, total);
}

proof fn lemma_rounded_positive(a: nat, b: nat)
    requires
        b > 0,
        pow2(52) * b <= a,
    ensures
        nearest_even(a, b) > 0,
{
    lemma2_to64_rest();
    assert(a / b >= 1) by (nonlinear_arith)
        requires
            b > 0,
            b <= a,
    ;
}

/// What a number is made of: its bits hold the significand, without its leading
/// bit, and above it the power of two that scales it; the numbers below the
/// smallest normal one have no leading bit.
pub proof fn law_bits_of_a_double(a: Binary64)
    requires
        a.positive_finite(),
    ensures
        a.bits >= EXPONENT_UNIT ==> EXPONENT_UNIT <= a.significand() < 2 * EXPONENT_UNIT && a.bits
            == (a.scale() + 1075) * EXPONENT_UNIT + (a.significand() - EXPONENT_UNIT),
        a.bits < EXPONENT_UNIT ==> a.significand() == a.bits && a.scale() == -1074,
{
    let (b, u) = (a.bits as int, EXPONENT_UNIT as int);
    vstd::arithmetic::div_mod::lemma_fundamental_div_mod(b, u);
    assert((b / u) * u == u * (b / u)) by (nonlinear_arith);
}

/// How numbers of either sign compare: below zero the order of the bits turns
/// round, a negative number lies below a positive one, the two zeros are equal,
/// and what is not a number compares with nothing.
pub proof fn law_order_of_signs(a: Binary64, b: Binary64)
    ensures
        a.is_nan() <==> INFINITY < a.bits < SIGN || a.bits > SIGN + INFINITY,
        a.is_nan() || b.is_nan() ==> !a.less(b) && !a.at_most(b),
        !a.is_nan() && !b.is_nan() ==> {
            &&& a.bits < SIGN && b.bits < SIGN ==> (a.less(b) <==> a.bits < b.bits) && (a.at_most(b)
                <==> a.bits <= b.bits)
            &&& a.bits >= SIGN && b.bits >= SIGN ==> (a.less(b) <==> a.bits > b.bits) && (a.at_most(
                b,
            ) <==> a.bits >= b.bits)
            &&& a.bits >= SIGN && b.bits < SIGN ==> a.at_most(b) && (a.less(b) <==> !(a.bits == SIGN
                && b.bits == 0))
            &&& a.bits < SIGN && b.bits >= SIGN ==> !a.less(b) && (a.at_most(b) <==> a.bits == 0
                && b.bits == SIGN)
        },
        a.positive() <==> (Binary64 { bits: 0 }).less(a),
{
}

/// Rounding to an integer errs by at most a half, and by a half only towards an
/// even one.
pub proof fn law_nearest_even(a: nat, b: nat)
    requires
        b > 0,
    ensures
        2 * (nearest_even(a, b) * b) <= 2 * a + b,
        2 * a <= 2 * (nearest_even(a, b) * b) + b,
        2 * (nearest_even(a, b) * b) == 2 * a + b || 2 * a == 2 * (nearest_even(a, b) * b) + b
            ==> nearest_even(a, b) % 2 == 0,
{
    let (f, r) = (a / b, a % b);
    vstd::arithmetic::div_mod::lemma_fundamental_div_mod(a as int, b as int);
    assert(f * b == b * f && (f + 1) * b == f * b + b) by (nonlinear_arith);
}

/// The integer part of a scaled number, with both sides scaled up.
proof fn lemma_floor(m: nat, x: nat, y: nat)
    ensures
        integer_part(m, y - x) * pow2(x) <= m * pow2(y),
        m * pow2(y) < (integer_part(m, y - x) + 1) * pow2(x),
{
    let r = integer_part(m, y - x);
    lemma_pow2_pos(x);
    lemma_pow2_pos(y);
    if y >= x {
        let e = (y - x) as nat;
        lemma_pow2_adds(e, x);
        let (c, d) = (pow2(e), pow2(x));
        assert((m * c) * d == m * (c * d)) by (nonlinear_arith);
        assert((r + 1) * d == r * d + d) by (nonlinear_arith);
    } else {
        let k = (x - y) as nat;
        lemma_pow2_adds(k, y);
        lemma_pow2_pos(k);
        let (c, d) = (pow2(k), pow2(y));
        vstd::arithmetic::div_mod::lemma_fundamental_div_mod(m as int, c as int);
        let rest = m % c;
        assert(r * (c * d) <= m * d && m * d < (r + 1) * (c * d)) by (nonlinear_arith)
            requires
                m == c * r + rest,
                0 <= rest < c,
                d > 0,
        ;
    }
}

/// The integer part of `m * 2^e` is the largest integer that is not above it.
pub proof fn law_integer_part(m: nat, e: int)
    ensures
        e >= 0 ==> integer_part(m, e) == m * pow2(e as nat),
        e < 0 ==> integer_part(m, e) * pow2((-e) as nat) <= m < (integer_part(m, e) + 1) * pow2(
            (-e) as nat,
        ),
{
    if e < 0 {
        lemma_floor(m, (-e) as nat, 0);
        lemma2_to64();
        assert(m * 1 == m);
    }
}

/// An integer below 2^53 is a double.
proof fn lemma_exact(n: nat)
    requires
        0 < n < pow2(53),
    ensures
        rounded(n, 1).1 <= 0,
        rounded(n, 1).0 == n * pow2((-rounded(n, 1).1) as nat),
        rounded(n, 1).0 >= pow2(52),
        rounded(n, 1).0 <= pow2(53),
{
    lemma2_to64();
    lemma2_to64_rest();
    lemma_rounded_bounds(n, 1);
    let e = rounded(n, 1).1;
    if e > 0 {
        lemma_pow2_unfold(e as nat);
        lemma_pow2_pos((e - 1) as nat);
        let (c, h) = (pow2(e as nat), pow2(52));
        assert(1 * c == c);
        assert(h * c >= 2 * h) by (nonlinear_arith)
            requires
                c >= 2,
                h > 0,
        ;
        assert(false);
    }
    let a = numerator(n, e);
    if e == 0 {
        assert(denominator(1, 0) == 1);
        assert(n * 1 == n);
    }
    assert(a / 1 == a && a % 1 == 0);
}

/// Rounding errs by at most one part in 2^53.
proof fn lemma_relative(num: nat, den: nat, m: nat)
    requires
        den > 0,
        m == nearest_even(num, den),
        pow2(52) * den <= num,
    ensures
        pow2(53) * (m * den) <= (pow2(53) + 1) * num,
        (pow2(53) - 1) * num <= pow2(53) * (m * den),
{
    lemma2_to64_rest();
    law_nearest_even(num, den);
    let (h, v) = (pow2(52), m * den);
    assert(pow2(53) == 2 * h);
    assert(2 * h * v <= (2 * h + 1) * num && (2 * h - 1) * num <= 2 * h * v) by (nonlinear_arith)
        requires
            2 * v <= 2 * num + den,
            2 * num <= 2 * v + den,
            h * den <= num,
            h > 0,
    ;
}

/// Rounding a whole number of at least 53 bits.
proof fn lemma_relative_whole(p: nat)
    requires
        p >= pow2(52),
    ensures
        rounded(p, 1).1 >= 0,
        pow2(53) * (rounded(p, 1).0 * pow2(rounded(p, 1).1 as nat)) <= (pow2(53) + 1) * p,
        (pow2(53) - 1) * p <= pow2(53) * (rounded(p, 1).0 * pow2(rounded(p, 1).1 as nat)),
{
    lemma2_to64_rest();
    lemma_rounded_bounds(p, 1);
    let (m, e) = rounded(p, 1);
    if e < 0 {
        lemma_pow2_unfold((-e) as nat);
        lemma_pow2_pos((-e - 1) as nat);
        let (c, h) = (pow2((-e) as nat), pow2(52));
        assert(p * c >= 2 * h) by (nonlinear_arith)
            requires
                c >= 2,
                p >= h,
                h > 0,
        ;
        assert(false);
    }
    lemma_pow2_pos(e as nat);
    assert(1 * pow2(e as nat) == pow2(e as nat));
    lemma_relative(p, pow2(e as nat), m);
}

/// The share `f` of `n` is the integer part of their product, but for the one
/// part in 2^53 by which the product is rounded.
pub proof fn law_share_is_the_product(n: nat, f: Binary64, limit: nat)
    requires
        0 < n < pow2(53),
        f.positive_finite(),
        f.scale() < 0,
        share(n, f, limit) < limit,
    ensures
        ({
            let r = share(n, f, limit);
            let exact = n * f.significand();
            let unit = pow2((-f.scale()) as nat);
            &&& pow2(53) * (r * unit) <= (pow2(53) + 1) * exact
            &&& (pow2(53) - 1) * exact < pow2(53) * ((r + 1) * unit)
        }),
{
    lemma2_to64();
    lemma2_to64_rest();
    let big = pow2(53) as int;
    let s = f.significand() as nat;
    law_bits_of_a_double(f);
    lemma_exact(n);
    let a = rounded(n, 1);
    let j = (-a.1) as nat;
    let k = (-f.scale()) as nat;
    let p = a.0 * s;
    assert(p >= pow2(52)) by (nonlinear_arith)
        requires
            p == a.0 * s,
            a.0 >= pow2(52),
            s >= 1,
    ;
    lemma_relative_whole(p);
    let (m, e) = rounded(p, 1);
    let r = share(n, f, limit);
    assert(r == integer_part(m, e - (k + j)));
    lemma_floor(m, k + j, e as nat);
    lemma_pow2_adds(k, j);
    lemma_pow2_pos(j);
    let (c, d, v) = (pow2(k) as int, pow2(j) as int, (m * pow2(e as nat)) as int);
    let exact = n * s;
    assert(p == exact * d) by (nonlinear_arith)
        requires
            p == a.0 * s,
            a.0 == n * d,
            exact == n * s,
    ;
    assert(big * (r * c) <= (big + 1) * exact && (big - 1) * exact < big * ((r + 1) * c))
        by (nonlinear_arith)
        requires
            r * (c * d) <= v,
            v < (r + 1) * (c * d),
            big * v <= (big + 1) * (exact * d),
            (big - 1) * (exact * d) <= big * v,
            d > 0,
            big > 0,
    ;
}

/// There is no share of nothing, none that is zero, negative or not a number,
/// and no end to an infinite one.
pub proof fn law_share_ends(n: nat, f: Binary64, limit: nat)
    ensures
        n == 0 ==> share(n, f, limit) == 0,
        f.is_nan() || f.at_most(Binary64 { bits: 0 }) ==> share(n, f, limit) == 0,
        n > 0 && f.bits == INFINITY ==> share(n, f, limit) == limit,
        share(n, f, limit) <= limit,
{
}

/// A percentage is a hundred times the quotient, cut off at the point, but for
/// the one part in 2^53 by which the quotient and the product are each rounded.
pub proof fn law_percentage_is_the_quotient(done: nat, total: nat)
    requires
        0 < done < pow2(53),
        0 < total < pow2(53),
    ensures
        ({
            let r = percentage(done, total);
            let big = pow2(53) as int;
            &&& (big * big) * (r * total) <= ((big + 1) * (big + 1)) * (100 * done)
            &&& r < 100 ==> ((big - 1) * (big - 1)) * (100 * done) < (big * big) * ((r + 1) * total)
        }),
{
    lemma2_to64();
    lemma2_to64_rest();
    let big = pow2(53) as int;
    lemma_exact(done);
    lemma_exact(total);
    let (d, t) = (rounded(done, 1), rounded(total, 1));
    let (a, b) = ((-d.1) as nat, (-t.1) as nat);
    lemma_rounded_bounds(d.0, t.0);
    let (m, e) = rounded(d.0, t.0);
    if e >= 0 {
        lemma_pow2_pos(e as nat);
        let c = pow2(e as nat);
        assert(pow2(52) * (t.0 * c) > d.0) by (nonlinear_arith)
            requires
                c >= 1,
                t.0 >= pow2(52),
                d.0 <= pow2(53),
                pow2(53) == 2 * pow2(52),
                pow2(52) > 2,
        ;
        assert(false);
    }
    let j = (-e) as nat;
    lemma_relative(d.0 * pow2(j), t.0, m);
    let p = m * 100;
    lemma_relative_whole(p);
    let (mp, ep) = rounded(p, 1);
    let exponent = ep + e + d.1 - t.1;
    let whole = integer_part(mp, exponent);
    let r = percentage(done, total);
    assert(r == capped(whole, 100));
    assert(exponent == (ep + b) - (j + a));
    lemma_floor(mp, j + a, (ep + b) as nat);
    lemma_pow2_adds(j, a);
    lemma_pow2_adds(ep as nat, b);
    lemma_pow2_pos(j);
    lemma_pow2_pos(a);
    lemma_pow2_pos(b);
    let (x, y, z, w) = (pow2(j) as int, pow2(a) as int, pow2(b) as int, pow2(ep as nat) as int);
    // In units of 2^(j + a): the integer part, times the total.
    let v = mp * w;
    let quotient = m * t.0;
    assert((whole * total) * (x * y) <= v * t.0 && v * t.0 < ((whole + 1) * total) * (x * y))
        by (nonlinear_arith)
        requires
            whole * (x * y) <= mp * (w * z),
            mp * (w * z) < (whole + 1) * (x * y),
            v == mp * w,
            t.0 == total * z,
            total > 0,
    ;
    // The product, and then the quotient, in exact terms.
    let hundred = 100 * quotient;
    assert(big * (v * t.0) <= (big + 1) * hundred && (big - 1) * hundred <= big * (v * t.0))
        by (nonlinear_arith)
        requires
            big * v <= (big + 1) * p,
            (big - 1) * p <= big * v,
            p == m * 100,
            hundred == 100 * quotient,
            quotient == m * t.0,
            t.0 > 0,
    ;
    let exact = done * (x * y);
    assert(d.0 * x == exact) by (nonlinear_arith)
        requires
            d.0 == done * y,
            exact == done * (x * y),
    ;
    assert(big * quotient <= (big + 1) * exact && (big - 1) * exact <= big * quotient);
    let q = (x * y) as int;
    let u = whole * total;
    let o = (whole + 1) * total;
    assert(q > 0) by (nonlinear_arith)
        requires
            q == x * y,
            x > 0,
            y > 0,
    ;
    lemma_two_roundings(big, u as int, o as int, q, (v * t.0) as int, quotient as int, done as int);
    if whole > 100 {
        assert(100 * total <= u) by (nonlinear_arith)
            requires
                u == whole * total,
                whole > 100,
        ;
        let rhs = ((big + 1) * (big + 1)) * (100 * done);
        assert((big * big) * (100 * total) <= rhs) by (nonlinear_arith)
            requires
                (big * big) * u <= rhs,
                100 * total <= u,
        ;
    }
}

/// Two roundings, one after the other.
proof fn lemma_two_roundings(
    big: int,
    u: int,
    o: int,
    q: int,
    v: int,
    quotient: int,
    done: int,
)
    requires
        big > 1,
        q > 0,
        u * q <= v,
        v < o * q,
        big * v <= (big + 1) * (100 * quotient),
        (big - 1) * (100 * quotient) <= big * v,
        big * quotient <= (big + 1) * (done * q),
        (big - 1) * (done * q) <= big * quotient,
    ensures
        (big * big) * u <= ((big + 1) * (big + 1)) * (100 * done),
        ((big - 1) * (big - 1)) * (100 * done) < (big * big) * o,
{
    let e = done * q;
    assert((big * big) * v <= ((big + 1) * (big + 1)) * (100 * e)) by (nonlinear_arith)
        requires
            big > 1,
            big * v <= (big + 1) * (100 * quotient),
            big * quotient <= (big + 1) * e,
    ;
    assert(((big - 1) * (big - 1)) * (100 * e) <= (big * big) * v) by (nonlinear_arith)
        requires
            big > 1,
            (big - 1) * (100 * quotient) <= big * v,
            (big - 1) * e <= big * quotient,
    ;
    let (s, l, h) = (big * big, (big - 1) * (big - 1), (big + 1) * (big + 1));
    assert(s > 0) by (nonlinear_arith)
        requires
            s == big * big,
            big > 1,
    ;
    assert(s * u <= h * (100 * done)) by (nonlinear_arith)
        requires
            s * v <= h * (100 * (done * q)),
            u * q <= v,
            q > 0,
            s > 0,
    ;
    assert(l * (100 * done) < s * o) by (nonlinear_arith)
        requires
            l * (100 * (done * q)) <= s * v,
            v < o * q,
            q > 0,
            s > 0,
    ;
}

} // verus!

//! Double-precision numbers, kept as their bit patterns.
//!
//! Page geometry and device scale factors reach the library as IEEE 754
//! `binary64` values.  Every finite one is a whole multiple of 2^-1074, so its
//! exact value is modelled as an integer counted in that unit, and rounding to
//! nearest, ties to even, is a statement about integers.

use vstd::arithmetic::div_mod::*;
use vstd::arithmetic::mul::*;
use vstd::arithmetic::power2::*;
use vstd::prelude::*;

verus! {

/// 2^52, the weight of the lowest exponent bit.
pub const BINADE: u64 = 0x10_0000_0000_0000;

/// 2^53, the first integer too wide for a significand.
pub const WIDE: u64 = 0x20_0000_0000_0000;

/// The magnitude bits of infinity; anything above them is not a number.
pub const INFINITE: u64 = 0x7FF0_0000_0000_0000;

/// The sign bit.
pub const SIGN: u64 = 0x8000_0000_0000_0000;

/// A `binary64` value by its bit pattern.
#[derive(Clone, Copy, Debug, PartialEq, Eq, Structural)]
pub struct Double {
    pub bits: u64,
}

/// The number of 2^-1074 units in 1.
pub open spec fn one() -> nat {
    pow2(1074)
}

/// The exact size of a finite magnitude, in units of 2^-1074.
pub open spec fn units(magnitude: nat) -> nat {
    let exponent = magnitude / (BINADE as nat);
    let fraction = magnitude % (BINADE as nat);
    if exponent == 0 {
        fraction
    } else {
        (BINADE as nat + fraction) * pow2((exponent - 1) as nat)
    }
}

/// How many low bits of `n` do not fit into a significand of 53 bits.
pub open spec fn excess(n: nat) -> nat
    decreases n,
{
    if n < WIDE {
        0
    } else {
        1 + excess(n / 2)
    }
}

/// `n / 2^k`, rounded to the nearest integer, ties to even.
pub open spec fn nearest(n: nat, k: nat) -> nat {
    let quotient = n / pow2(k);
    let twice = 2 * (n % pow2(k));
    if twice > pow2(k) || (twice == pow2(k) && quotient % 2 == 1) {
        quotient + 1
    } else {
        quotient
    }
}

/// The magnitude nearest to `n` units, ties to even; infinity where `n` is too large.
pub open spec fn rounded(n: nat) -> nat {
    let magnitude = excess(n) * BINADE as nat + nearest(n, excess(n));
    if magnitude < INFINITE {
        magnitude
    } else {
        INFINITE as nat
    }
}

/// The double with the given sign and magnitude.
pub open spec fn signed(negative: bool, magnitude: nat) -> Double {
    Double { bits: (if negative { SIGN + magnitude } else { magnitude as int }) as u64 }
}

/// The one not-a-number that operations give.
pub open spec fn not_a_number() -> Double {
    Double { bits: 0x7FF8_0000_0000_0000 }
}

/// The size of an integer.
pub open spec fn size(n: int) -> nat {
    if n < 0 {
        (-n) as nat
    } else {
        n as nat
    }
}

/// `n / d`, rounded up.
pub open spec fn raised(n: nat, d: nat) -> nat {
    if n % d == 0 {
        n / d
    } else {
        n / d + 1
    }
}

impl Double {
    pub open spec fn negative(self) -> bool {
        self.bits >= SIGN
    }

    pub open spec fn magnitude(self) -> nat {
        (if self.bits >= SIGN { self.bits - SIGN } else { self.bits as int }) as nat
    }

    pub open spec fn finite(self) -> bool {
        self.magnitude() < INFINITE
    }

    pub open spec fn nan(self) -> bool {
        self.magnitude() > INFINITE
    }

    /// The exact value of a finite double, in units of 2^-1074.
    pub open spec fn value(self) -> int {
        if self.negative() {
            -(units(self.magnitude()) as int)
        } else {
            units(self.magnitude()) as int
        }
    }

    /// The place of a number in the order of all numbers; both zeros share one place.
    pub open spec fn place(self) -> int {
        if self.negative() {
            -(self.magnitude() as int)
        } else {
            self.magnitude() as int
        }
    }

    /// `self < other`, never true of a NaN.
    pub open spec fn below(self, other: Double) -> bool {
        !self.nan() && !other.nan() && self.place() < other.place()
    }

    /// `self <= other`, never true of a NaN.
    pub open spec fn at_most(self, other: Double) -> bool {
        !self.nan() && !other.nan() && self.place() <= other.place()
    }

    /// `self + other`.
    pub open spec fn plus(self, other: Double) -> Double {
        if self.nan() || other.nan() {
            not_a_number()
        } else if !self.finite() {
            if !other.finite() && self.negative() != other.negative() {
                not_a_number()
            } else {
                self
            }
        } else if !other.finite() {
            other
        } else {
            let total = self.value() + other.value();
            if total == 0 {
                signed(self.negative() && other.negative(), 0)
            } else {
                signed(total < 0, rounded(size(total)))
            }
        }
    }

    /// `-self`.
    pub open spec fn opposite(self) -> Double {
        signed(!self.negative(), self.magnitude())
    }

    /// `self - other`.
    pub open spec fn minus(self, other: Double) -> Double {
        self.plus(other.opposite())
    }

    /// `factor * self`.
    pub open spec fn times(self, factor: u32) -> Double {
        if self.nan() || (!self.finite() && factor == 0) {
            not_a_number()
        } else if !self.finite() {
            self
        } else {
            signed(self.negative(), rounded(factor as nat * units(self.magnitude())))
        }
    }

    /// The greatest integer not above `self`.
    pub open spec fn floored(self) -> Double {
        if !self.finite() {
            self
        } else if self.negative() {
            signed(true, rounded(raised(units(self.magnitude()), one()) * one()))
        } else {
            signed(false, rounded(units(self.magnitude()) / one() * one()))
        }
    }

    /// The least integer not below `self`.
    pub open spec fn ceiled(self) -> Double {
        self.opposite().floored().opposite()
    }

    /// `self`, moved to `high` if above it and to `low` if below it.
    pub open spec fn clamped(self, low: Double, high: Double) -> Double {
        if self.below(low) {
            low
        } else if high.below(self) {
            high
        } else {
            self
        }
    }

    /// The integer part, held to the range of `u32`; 0 for a NaN.
    pub open spec fn truncated(self) -> u32 {
        if self.nan() || self.negative() {
            0
        } else if !self.finite() || units(self.magnitude()) / one() > u32::MAX {
            u32::MAX
        } else {
            (units(self.magnitude()) / one()) as u32
        }
    }
}

/// The double for a whole number.
pub open spec fn whole(n: nat) -> Double {
    signed(false, rounded(n * one()))
}

/// The excess is `k` exactly where `n` lies between 2^(52+k) and 2^(53+k).
pub proof fn lemma_excess(n: nat, k: nat)
    requires
        k == 0 ==> n < WIDE,
        k > 0 ==> BINADE * pow2(k) <= n < WIDE * pow2(k),
    ensures
        excess(n) == k,
    decreases k,
{
    if k > 0 {
        lemma_pow2_unfold(k);
        lemma_pow2_pos((k - 1) as nat);
        let p = pow2((k - 1) as nat) as int;
        assert(BINADE * (2 * p) == WIDE * p) by (nonlinear_arith);
        assert(WIDE * (2 * p) == 2 * (WIDE * p)) by (nonlinear_arith);
        assert(WIDE * p >= WIDE) by (nonlinear_arith)
            requires
                p >= 1,
        ;
        assert(BINADE * (2 * p) == 2 * (BINADE * p)) by (nonlinear_arith);
        if k == 1 {
            lemma2_to64();
        }
        lemma_excess(n / 2, (k - 1) as nat);
    }
}

/// Scaling by 2^e moves the excess and leaves the rounded quotient alone.
pub proof fn lemma_scaled(n: nat, k: nat, e: nat)
    requires
        BINADE <= n / pow2(k) < WIDE,
    ensures
        excess(n * pow2(e)) == k + e,
        nearest(n * pow2(e), k + e) == nearest(n, k),
{
    let p = pow2(k) as int;
    let s = pow2(e) as int;
    let q = (n / pow2(k)) as int;
    let r = (n % pow2(k)) as int;
    lemma_pow2_pos(k);
    lemma_pow2_pos(e);
    lemma_pow2_adds(k, e);
    lemma_fundamental_div_mod(n as int, p);
    assert(p * q == q * p) by (nonlinear_arith);
    assert(n * s == q * (p * s) + r * s) by (nonlinear_arith)
        requires
            n == q * p + r,
    ;
    assert(0 <= r * s < p * s) by (nonlinear_arith)
        requires
            0 <= r < p,
            s > 0,
    ;
    lemma_fundamental_div_mod_converse(n * s, p * s, q, r * s);
    assert(BINADE * (p * s) <= n * s < WIDE * (p * s)) by (nonlinear_arith)
        requires
            n * s == q * (p * s) + r * s,
            0 <= r * s < p * s,
            BINADE <= q,
            q + 1 <= WIDE,
    ;
    if k + e == 0 {
        lemma2_to64();
        assert(n * s == n) by (nonlinear_arith)
            requires
                s == 1,
        ;
        assert(p * s == 1);
    }
    lemma_excess((n * s) as nat, k + e);
    assert((2 * (r * s) > p * s) == (2 * r > p)) by (nonlinear_arith)
        requires
            s > 0,
    ;
    assert((2 * (r * s) == p * s) == (2 * r == p)) by (nonlinear_arith)
        requires
            s > 0,
    ;
}

/// An integer of at most 53 bits is its own rounding, whatever power of two scales it.
pub proof fn lemma_narrow(n: nat, e: nat)
    requires
        n < WIDE,
        e > 0 ==> n >= BINADE,
    ensures
        excess(n * pow2(e)) == e,
        nearest(n * pow2(e), e) == n,
{
    lemma2_to64();
    lemma_pow2_pos(e);
    let s = pow2(e) as int;
    assert(n * s < WIDE * s) by (nonlinear_arith)
        requires
            n < WIDE,
            s > 0,
    ;
    if e > 0 {
        assert(n * s >= BINADE * s) by (nonlinear_arith)
            requires
                n >= BINADE,
                s > 0,
        ;
    } else {
        assert(n * s == n) by (nonlinear_arith)
            requires
                s == 1,
        ;
    }
    lemma_excess((n * s) as nat, e);
    lemma_fundamental_div_mod_converse(n * s, s, n as int, 0);
}

/// The magnitude of the double nearest to `sum * 2^e` units.
fn pack(sum: u128, e: u32) -> (magnitude: u64)
    requires
        e <= 3000,
    ensures
        magnitude == rounded((sum * pow2(e as nat)) as nat),
{
    let mut quotient: u128 = sum;
    let mut power: u128 = 1;
    let mut k: u32 = 0;
    proof {
        lemma2_to64();
    }
    while quotient >= WIDE as u128
        invariant
            power == pow2(k as nat),
            quotient == sum as nat / pow2(k as nat),
            k > 0 ==> quotient >= BINADE,
            power * quotient <= sum,
            k <= 128,
        decreases quotient,
    {
        proof {
            lemma_pow2_unfold((k + 1) as nat);
            lemma_pow2_pos(k as nat);
            lemma_div_denominator(sum as int, pow2(k as nat) as int, 2);
            assert(power * 2 <= power * quotient) by (nonlinear_arith)
                requires
                    quotient >= 2,
            ;
            assert(power * 2 * (quotient as int / 2) <= power * quotient) by (nonlinear_arith);
            lemma_small_power(k as nat, power as nat, sum as nat);
        }
        quotient = quotient / 2;
        power = power * 2;
        k = k + 1;
    }
    let biased: u128;
    if k > 0 {
        proof {
            lemma_scaled(sum as nat, k as nat, e as nat);
            lemma_pow2_pos(k as nat);
            lemma_fundamental_div_mod(sum as int, power as int);
        }
        let rest: u128 = sum % power;
        let half: u128 = power / 2;
        proof {
            lemma_pow2_unfold(k as nat);
        }
        let up: u128 = if rest > half || (rest == half && quotient % 2 == 1) {
            1
        } else {
            0
        };
        biased = (k as u128 + e as u128) * BINADE as u128 + quotient + up;
    } else {
        let mut significand: u128 = sum;
        let mut left: u32 = e;
        while left > 0 && significand < BINADE as u128
            invariant
                significand < WIDE,
                left <= e,
                significand * pow2(left as nat) == sum * pow2(e as nat),
            decreases left,
        {
            proof {
                lemma_pow2_unfold(left as nat);
                let p = pow2((left - 1) as nat) as int;
                assert(significand * (2 * p) == (2 * significand) * p) by (nonlinear_arith);
            }
            significand = significand * 2;
            left = left - 1;
        }
        proof {
            lemma_narrow(significand as nat, left as nat);
        }
        biased = left as u128 * BINADE as u128 + significand;
    }
    if biased < INFINITE as u128 {
        biased as u64
    } else {
        INFINITE
    }
}

/// A power of two at most half of a 128-bit number has an exponent below 127.
proof fn lemma_small_power(k: nat, power: nat, sum: nat)
    requires
        power == pow2(k),
        power * 2 <= sum,
        sum <= u128::MAX,
    ensures
        k < 127,
{
    if k >= 127 {
        lemma2_to64();
        lemma_pow2_adds(64, 63);
        lemma_pow2_unfold(64);
        if k > 127 {
            lemma_pow2_strictly_increases(127, k);
        }
        assert(pow2(127) == 0x8000_0000_0000_0000_0000_0000_0000_0000nat);
    }
}

/// The significand and exponent of a finite magnitude.
fn split(magnitude: u64) -> (parts: (u64, u32))
    requires
        magnitude < INFINITE,
    ensures
        units(magnitude as nat) == parts.0 * pow2(parts.1 as nat),
        parts.0 < WIDE,
        parts.1 > 0 ==> parts.0 >= BINADE,
        parts.1 <= 2045,
        magnitude == parts.1 * BINADE + parts.0,
{
    proof {
        lemma2_to64();
    }
    let exponent: u64 = magnitude / BINADE;
    let fraction: u64 = magnitude % BINADE;
    if exponent == 0 {
        assert(fraction * pow2(0) == fraction);
        (fraction, 0)
    } else {
        (BINADE + fraction, (exponent - 1) as u32)
    }
}

/// Rounding gives a representable magnitude back.
pub proof fn lemma_rounded_units(magnitude: nat)
    requires
        magnitude < INFINITE,
    ensures
        rounded(units(magnitude)) == magnitude,
{
    lemma2_to64();
    let exponent = magnitude / (BINADE as nat);
    let fraction = magnitude % (BINADE as nat);
    if exponent == 0 {
        lemma_narrow(fraction, 0);
    } else {
        lemma_narrow(BINADE as nat + fraction, (exponent - 1) as nat);
    }
}

/// Less than a quarter of the last place, added or taken away, is lost in rounding.
proof fn lemma_absorbed(significand: nat, e: nat, delta: nat, n: nat)
    requires
        BINADE <= significand < WIDE,
        e >= 2,
        4 * delta < pow2(e),
        n == significand * pow2(e) + delta || n == significand * pow2(e) - delta,
        e * BINADE + significand < INFINITE,
    ensures
        rounded(n) == e * BINADE + significand,
{
    let p = pow2(e) as int;
    let m = significand as int;
    lemma_pow2_pos(e);
    if n == m * p + delta {
        assert(BINADE * p <= m * p + delta < WIDE * p) by (nonlinear_arith)
            requires
                BINADE <= m,
                m + 1 <= WIDE,
                0 <= delta < p,
        ;
        lemma_excess(n, e);
        lemma_fundamental_div_mod_converse(n as int, p, m, delta as int);
    } else if m > BINADE {
        assert(BINADE * p <= m * p - delta < WIDE * p) by (nonlinear_arith)
            requires
                BINADE + 1 <= m,
                m < WIDE,
                0 < delta < p,
        ;
        lemma_excess(n, e);
        assert(m * p - delta == (m - 1) * p + (p - delta)) by (nonlinear_arith);
        lemma_fundamental_div_mod_converse(n as int, p, m - 1, p - delta);
    } else {
        lemma_pow2_unfold(e);
        let h = pow2((e - 1) as nat) as int;
        lemma_pow2_pos((e - 1) as nat);
        assert(m * p - delta == (WIDE - 1) * h + (h - delta)) by (nonlinear_arith)
            requires
                m == BINADE,
                p == 2 * h,
        ;
        assert(BINADE * h <= (WIDE - 1) * h + (h - delta) < WIDE * h) by (nonlinear_arith)
            requires
                0 < delta < h,
        ;
        lemma_excess(n, (e - 1) as nat);
        lemma_fundamental_div_mod_converse(n as int, h, WIDE - 1, h - delta);
    }
}

/// 2^d for a small exponent.
fn power(d: u32) -> (p: u128)
    requires
        d <= 64,
    ensures
        p == pow2(d as nat),
        p <= 0x1_0000_0000_0000_0000,
{
    let mut p: u128 = 1;
    let mut i: u32 = 0;
    proof {
        lemma2_to64();
    }
    while i < d
        invariant
            i <= d <= 64,
            p == pow2(i as nat),
        decreases d - i,
    {
        proof {
            lemma_pow2_unfold((i + 1) as nat);
            lemma2_to64();
            if i < 64 {
                lemma_pow2_strictly_increases(i as nat, 64);
            }
        }
        p = p * 2;
        i = i + 1;
    }
    proof {
        if d < 64 {
            lemma_pow2_strictly_increases(d as nat, 64);
        }
        lemma2_to64();
    }
    p
}

/// The sum of two finite doubles, the first of which has the larger exponent.
fn add_aligned(a: Double, b: Double, ma: u64, ea: u32, mb: u64, eb: u32) -> (sum: Double)
    requires
        a.finite(),
        b.finite(),
        units(a.magnitude()) == ma * pow2(ea as nat),
        units(b.magnitude()) == mb * pow2(eb as nat),
        ma < WIDE,
        mb < WIDE,
        eb <= ea <= 2045,
        ea > 0 ==> ma >= BINADE,
        a.magnitude() == ea * BINADE + ma,
    ensures
        sum == a.plus(b),
{
    let d: u32 = ea - eb;
    let ghost ua = units(a.magnitude()) as int;
    let ghost ub = units(b.magnitude()) as int;
    if d > 64 {
        proof {
            lemma2_to64();
            lemma_pow2_adds(eb as nat, d as nat);
            lemma_pow2_strictly_increases(64, d as nat);
            lemma_pow2_pos(eb as nat);
            let s = pow2(eb as nat) as int;
            let p = pow2(d as nat) as int;
            assert(4 * (mb * s) < s * p) by (nonlinear_arith)
                requires
                    s > 0,
                    0 <= mb < WIDE,
                    p > 4 * WIDE,
            ;
            assert(ma * (s * p) >= s * p) by (nonlinear_arith)
                requires
                    ma >= 1,
                    s * p > 0,
            ;
            assert(ua > ub);
            let total = a.value() + b.value();
            lemma_absorbed(ma as nat, ea as nat, ub as nat, size(total));
        }
        return a;
    }
    let scale = power(d);
    assert(ma * scale < 0x100_0000_0000_0000_0000_0000_0000_0000) by (nonlinear_arith)
        requires
            ma < WIDE,
            scale <= 0x1_0000_0000_0000_0000,
    ;
    let wide: u128 = ma as u128 * scale;
    proof {
        lemma_pow2_adds(eb as nat, d as nat);
        let s = pow2(eb as nat) as int;
        let p = pow2(d as nat) as int;
        lemma_pow2_pos(eb as nat);
        assert(ma * (s * p) == (ma * p) * s) by (nonlinear_arith);
        assert((wide + mb) * s == wide * s + mb * s) by (nonlinear_arith);
        assert((wide - mb) * s == wide * s - mb * s) by (nonlinear_arith);
        assert((mb - wide) * s == mb * s - wide * s) by (nonlinear_arith);
        assert((wide > mb) == (wide * s > mb * s)) by (nonlinear_arith)
            requires
                s > 0,
        ;
        assert((wide < mb) == (wide * s < mb * s)) by (nonlinear_arith)
            requires
                s > 0,
        ;
        lemma_rounded_zero();
    }
    let a_negative = a.bits >= SIGN;
    let b_negative = b.bits >= SIGN;
    if a_negative == b_negative {
        let magnitude = pack(wide + mb as u128, eb);
        compose(a_negative, magnitude)
    } else if wide > mb as u128 {
        let magnitude = pack(wide - mb as u128, eb);
        compose(a_negative, magnitude)
    } else if wide < mb as u128 {
        let magnitude = pack(mb as u128 - wide, eb);
        compose(b_negative, magnitude)
    } else {
        Double { bits: 0 }
    }
}

proof fn lemma_rounded_zero()
    ensures
        rounded(0) == 0,
{
    lemma2_to64();
    lemma_narrow(0, 0);
}

fn compose(negative: bool, magnitude: u64) -> (d: Double)
    requires
        magnitude <= INFINITE,
    ensures
        d == signed(negative, magnitude as nat),
{
    if negative {
        Double { bits: SIGN + magnitude }
    } else {
        Double { bits: magnitude }
    }
}

impl Double {
    /// The sign of the bit pattern and its magnitude.
    fn open(self) -> (parts: (bool, u64))
        ensures
            parts.0 == self.negative(),
            parts.1 == self.magnitude(),
    {
        if self.bits >= SIGN {
            (true, self.bits - SIGN)
        } else {
            (false, self.bits)
        }
    }

    pub fn is_finite(self) -> (r: bool)
        ensures
            r == self.finite(),
    {
        self.open().1 < INFINITE
    }

    pub fn is_nan(self) -> (r: bool)
        ensures
            r == self.nan(),
    {
        self.open().1 > INFINITE
    }

    pub fn less(self, other: Double) -> (r: bool)
        ensures
            r == self.below(other),
    {
        if self.is_nan() || other.is_nan() {
            return false;
        }
        let (sn, sm) = self.open();
        let (on, om) = other.open();
        if sn && on {
            sm > om
        } else if sn {
            sm > 0 || om > 0
        } else if on {
            false
        } else {
            sm < om
        }
    }

    pub fn less_or_equal(self, other: Double) -> (r: bool)
        ensures
            r == self.at_most(other),
    {
        !self.is_nan() && !other.is_nan() && !other.less(self)
    }

    /// `self + other`, rounded to nearest.
    pub fn add(self, other: Double) -> (r: Double)
        ensures
            r == self.plus(other),
    {
        if self.is_nan() || other.is_nan() {
            return Double { bits: 0x7FF8_0000_0000_0000 };
        }
        let (sn, sm) = self.open();
        let (on, om) = other.open();
        if !self.is_finite() {
            if !other.is_finite() && sn != on {
                Double { bits: 0x7FF8_0000_0000_0000 }
            } else {
                self
            }
        } else if !other.is_finite() {
            other
        } else {
            let (ma, ea) = split(sm);
            let (mb, eb) = split(om);
            if ea >= eb {
                add_aligned(self, other, ma, ea, mb, eb)
            } else {
                add_aligned(other, self, mb, eb, ma, ea)
            }
        }
    }

    pub fn negate(self) -> (r: Double)
        ensures
            r == self.opposite(),
    {
        if self.bits >= SIGN {
            Double { bits: self.bits - SIGN }
        } else {
            Double { bits: SIGN + self.bits }
        }
    }

    /// `self - other`, rounded to nearest.
    pub fn subtract(self, other: Double) -> (r: Double)
        ensures
            r == self.minus(other),
    {
        self.add(other.negate())
    }

    /// `factor * self`, rounded to nearest.
    pub fn multiply(self, factor: u32) -> (r: Double)
        ensures
            r == self.times(factor),
    {
        if self.is_nan() || (!self.is_finite() && factor == 0) {
            return Double { bits: 0x7FF8_0000_0000_0000 };
        }
        if !self.is_finite() {
            return self;
        }
        let (negative, magnitude) = self.open();
        let (m, e) = split(magnitude);
        assert(factor * m < 0x100_0000_0000_0000_0000_0000) by (nonlinear_arith)
            requires
                factor <= u32::MAX,
                m < WIDE,
        ;
        proof {
            let p = pow2(e as nat) as int;
            assert(factor * (m * p) == (factor * m) * p) by (nonlinear_arith);
        }
        let packed = pack(factor as u128 * m as u128, e);
        compose(negative, packed)
    }

    /// The double for an unsigned integer, rounded to nearest.
    pub fn from_u64(n: u64) -> (r: Double)
        ensures
            r == whole(n as nat),
    {
        let magnitude = pack(n as u128, 1074);
        compose(false, magnitude)
    }

    /// The greatest integer not above `self`.
    pub fn floor(self) -> (r: Double)
        ensures
            r == self.floored(),
    {
        if !self.is_finite() {
            return self;
        }
        let (negative, magnitude) = self.open();
        let packed = integral(magnitude, negative);
        compose(negative, packed)
    }

    /// The least integer not below `self`.
    pub fn ceil(self) -> (r: Double)
        ensures
            r == self.ceiled(),
    {
        self.negate().floor().negate()
    }

    /// `self` held between `low` and `high`.
    pub fn clamp(self, low: Double, high: Double) -> (r: Double)
        ensures
            r == self.clamped(low, high),
    {
        if self.less(low) {
            low
        } else if high.less(self) {
            high
        } else {
            self
        }
    }

    /// The integer part, held to the range of `u32`; 0 for a NaN.
    pub fn to_u32(self) -> (r: u32)
        ensures
            r == self.truncated(),
    {
        let (negative, magnitude) = self.open();
        if self.is_nan() || negative {
            return 0;
        }
        if !self.is_finite() {
            return u32::MAX;
        }
        match integer_part(magnitude) {
            Some((n, _)) => {
                if n > u32::MAX as u64 {
                    u32::MAX
                } else {
                    n as u32
                }
            },
            None => {
                u32::MAX
            },
        }
    }
}

/// The integer part of a finite magnitude and whether anything is left beside it, or `None`
/// where the magnitude is an integer of 2^53 or more.
fn integer_part(magnitude: u64) -> (r: Option<(u64, bool)>)
    requires
        magnitude < INFINITE,
    ensures
        match r {
            Some((n, rest)) => {
                &&& n < WIDE
                &&& n == units(magnitude as nat) / one()
                &&& rest == (units(magnitude as nat) % one() != 0)
            },
            None => {
                &&& units(magnitude as nat) % one() == 0
                &&& units(magnitude as nat) / one() >= BINADE
            },
        },
{
    let (m, e) = split(magnitude);
    proof {
        lemma_pow2_pos(1074);
    }
    if e >= 1074 {
        proof {
            let d = (e - 1074) as nat;
            lemma_pow2_adds(1074, d);
            lemma_pow2_pos(d);
            let p = pow2(d) as int;
            let o = one() as int;
            assert(m * (o * p) == (m * p) * o) by (nonlinear_arith);
            assert(m * p >= m) by (nonlinear_arith)
                requires
                    p >= 1,
                    m >= 0,
            ;
            lemma_fundamental_div_mod_converse(units(magnitude as nat) as int, o, m * p, 0);
        }
        return None;
    }
    let shift: u32 = 1074 - e;
    if shift > 64 {
        proof {
            lemma_pow2_adds(e as nat, shift as nat);
            lemma2_to64();
            lemma_pow2_strictly_increases(64, shift as nat);
            lemma_pow2_pos(e as nat);
            let s = pow2(e as nat) as int;
            let p = pow2(shift as nat) as int;
            assert(0 <= m * s < s * p) by (nonlinear_arith)
                requires
                    0 <= m < p,
                    s > 0,
            ;
            assert((m * s == 0) == (m == 0)) by (nonlinear_arith)
                requires
                    s > 0,
            ;
            lemma_fundamental_div_mod_converse(units(magnitude as nat) as int, one() as int, 0, m * s);
        }
        return Some((0, m != 0));
    }
    let p = power(shift);
    proof {
        lemma_pow2_pos(shift as nat);
    }
    let n: u128 = m as u128 / p;
    let rest: u128 = m as u128 % p;
    proof {
        lemma_pow2_adds(e as nat, shift as nat);
        lemma_pow2_pos(e as nat);
        lemma_pow2_pos(shift as nat);
        let s = pow2(e as nat) as int;
        lemma_fundamental_div_mod(m as int, p as int);
        assert(m * s == n * (s * p) + rest * s) by (nonlinear_arith)
            requires
                m == p * n + rest,
        ;
        assert(0 <= rest * s < s * p) by (nonlinear_arith)
            requires
                0 <= rest < p,
                s > 0,
        ;
        assert((rest * s == 0) == (rest == 0)) by (nonlinear_arith)
            requires
                s > 0,
        ;
        assert(n <= m) by (nonlinear_arith)
            requires
                m == p * n + rest,
                p >= 1,
                rest >= 0,
                n >= 0,
        ;
        lemma_fundamental_div_mod_converse(
            units(magnitude as nat) as int,
            one() as int,
            n as int,
            rest * s,
        );
    }
    Some((n as u64, rest != 0))
}

/// A finite magnitude rounded to an integer, up or down.
fn integral(magnitude: u64, up: bool) -> (r: u64)
    requires
        magnitude < INFINITE,
    ensures
        up ==> r == rounded(raised(units(magnitude as nat), one()) * one()),
        !up ==> r == rounded(units(magnitude as nat) / one() * one()),
        r <= INFINITE,
{
    match integer_part(magnitude) {
        Some((n, rest)) => {
            let whole: u64 = if up && rest {
                n + 1
            } else {
                n
            };
            pack(whole as u128, 1074)
        },
        None => {
            proof {
                let u = units(magnitude as nat) as int;
                lemma_pow2_pos(1074);
                lemma_fundamental_div_mod(u, one() as int);
                lemma_mul_is_commutative(one() as int, u / (one() as int));
                lemma_rounded_units(magnitude as nat);
            }
            magnitude
        },
    }
}

} // verus!

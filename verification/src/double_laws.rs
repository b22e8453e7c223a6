//! Laws of double-precision arithmetic: order, rounding and integers.

use crate::double;
use crate::double::{Double, BINADE, INFINITE, WIDE};
use vstd::arithmetic::div_mod::*;
use vstd::arithmetic::mul::*;
use vstd::arithmetic::power2::*;
use vstd::prelude::*;

verus! {

/// The next magnitude is worth more.
proof fn lemma_next_magnitude(magnitude: nat)
    ensures
        double::units(magnitude) < double::units(magnitude + 1),
{
    let unit = BINADE as nat;
    let exponent = magnitude / unit;
    let fraction = magnitude % unit;
    lemma2_to64();
    if fraction + 1 < unit {
        lemma_fundamental_div_mod_converse(
            (magnitude + 1) as int,
            unit as int,
            exponent as int,
            (fraction + 1) as int,
        );
        if exponent > 0 {
            let p = pow2((exponent - 1) as nat) as int;
            lemma_pow2_pos((exponent - 1) as nat);
            assert((unit + fraction + 1) * p == (unit + fraction) * p + p) by (nonlinear_arith);
        }
    } else {
        lemma_fundamental_div_mod_converse(
            (magnitude + 1) as int,
            unit as int,
            (exponent + 1) as int,
            0,
        );
        if exponent > 0 {
            let p = pow2((exponent - 1) as nat) as int;
            lemma_pow2_pos((exponent - 1) as nat);
            lemma_pow2_unfold(exponent);
            assert((unit + fraction) * p < unit * (2 * p)) by (nonlinear_arith)
                requires
                    fraction + 1 == unit,
                    p > 0,
            ;
        } else {
            assert(unit * pow2(0) == unit);
        }
    }
}

/// A larger magnitude is worth more.
pub proof fn lemma_units_increase(a: nat, b: nat)
    requires
        a < b,
    ensures
        double::units(a) < double::units(b),
    decreases b - a,
{
    lemma_next_magnitude(a);
    if a + 1 < b {
        lemma_units_increase(a + 1, b);
    }
}

/// Among finite doubles, one is below another exactly where its value is less.
pub proof fn law_order_is_order_of_values(a: Double, b: Double)
    requires
        a.finite(),
        b.finite(),
    ensures
        a.below(b) <==> a.value() < b.value(),
        a.at_most(b) <==> a.value() <= b.value(),
{
    let m = a.magnitude();
    let n = b.magnitude();
    assert(double::units(0) == 0);
    if m > 0 {
        lemma_units_increase(0, m);
    }
    if n > 0 {
        lemma_units_increase(0, n);
    }
    if m < n {
        lemma_units_increase(m, n);
    } else if n < m {
        lemma_units_increase(n, m);
    }
}

/// Every natural number lies where its excess says.
proof fn lemma_excess_bounds(n: nat)
    ensures
        n < WIDE * pow2(double::excess(n)),
        double::excess(n) > 0 ==> n >= BINADE * pow2(double::excess(n)),
    decreases n,
{
    lemma2_to64();
    if n >= WIDE {
        lemma_excess_bounds(n / 2);
        let k = double::excess(n / 2);
        let p = pow2(k) as int;
        lemma_pow2_unfold(k + 1);
        assert(WIDE * (2 * p) == 2 * (WIDE * p)) by (nonlinear_arith);
        assert(BINADE * (2 * p) == 2 * (BINADE * p)) by (nonlinear_arith);
        if k == 0 {
            assert(BINADE * 1 == BINADE);
        }
    }
}

/// The excess grows with the number.
proof fn lemma_excess_increases(a: nat, b: nat)
    requires
        a <= b,
    ensures
        double::excess(a) <= double::excess(b),
    decreases b,
{
    if a >= WIDE {
        lemma_excess_increases(a / 2, b / 2);
    }
}

/// Where rounding to a significand lands.
proof fn lemma_nearest_bounds(n: nat)
    ensures
        double::nearest(n, double::excess(n)) <= WIDE,
        double::excess(n) > 0 ==> double::nearest(n, double::excess(n)) >= BINADE,
{
    let k = double::excess(n);
    let p = pow2(k) as int;
    lemma_excess_bounds(n);
    lemma_pow2_pos(k);
    let q = n as int / p;
    let r = n as int % p;
    lemma_fundamental_div_mod(n as int, p);
    assert(q < WIDE) by (nonlinear_arith)
        requires
            n == p * q + r,
            0 <= r,
            n < WIDE * p,
            p > 0,
    ;
    if k > 0 {
        assert(q >= BINADE) by (nonlinear_arith)
            requires
                n == p * q + r,
                r < p,
                n >= BINADE * p,
                p > 0,
        ;
    }
}

/// Rounding keeps the order.
pub proof fn law_rounding_keeps_order(a: nat, b: nat)
    requires
        a <= b,
    ensures
        double::rounded(a) <= double::rounded(b),
{
    lemma_excess_increases(a, b);
    lemma_nearest_bounds(a);
    lemma_nearest_bounds(b);
    let k = double::excess(a);
    let l = double::excess(b);
    if k == l {
        let p = pow2(k) as int;
        lemma_pow2_pos(k);
        lemma_fundamental_div_mod(a as int, p);
        lemma_fundamental_div_mod(b as int, p);
        let q = a as int / p;
        let s = b as int / p;
        assert(q <= s) by (nonlinear_arith)
            requires
                a <= b,
                a == p * q + a as int % p,
                b == p * s + b as int % p,
                0 <= a as int % p,
                (b as int % p) < p,
                p > 0,
        ;
    } else {
        assert(k * BINADE + WIDE <= l * BINADE + BINADE) by (nonlinear_arith)
            requires
                k + 1 <= l,
        ;
    }
}

/// The place of the double nearest to an exact value.
pub open spec fn place_of(value: int) -> int {
    if value < 0 {
        -(double::rounded(double::size(value)) as int)
    } else {
        double::rounded(double::size(value)) as int
    }
}

proof fn lemma_rounded_zero()
    ensures
        double::rounded(0) == 0,
{
    double::lemma_rounded_units(0);
    assert(double::units(0) == 0);
}

proof fn lemma_place_increases(a: int, b: int)
    requires
        a <= b,
    ensures
        place_of(a) <= place_of(b),
{
    if a >= 0 {
        law_rounding_keeps_order(double::size(a), double::size(b));
    } else if b < 0 {
        law_rounding_keeps_order(double::size(b), double::size(a));
    }
}

/// A sum of finite doubles stands where its exact value rounds to.
proof fn lemma_sum_place(a: Double, b: Double)
    requires
        a.finite(),
        b.finite(),
    ensures
        a.plus(b).place() == place_of(a.value() + b.value()),
        !a.plus(b).nan(),
{
    lemma_rounded_zero();
}

/// Adding more gives no less, wherever both sums are numbers.
pub proof fn law_sum_keeps_order(a: Double, b: Double, c: Double)
    requires
        b.at_most(c),
        !a.plus(b).nan(),
        !a.plus(c).nan(),
    ensures
        a.plus(b).at_most(a.plus(c)),
{
    if a.finite() && b.finite() && c.finite() {
        law_order_is_order_of_values(b, c);
        lemma_sum_place(a, b);
        lemma_sum_place(a, c);
        lemma_place_increases(a.value() + b.value(), a.value() + c.value());
    }
}

/// Taking away more leaves no more, wherever both differences are numbers.
pub proof fn law_difference_turns_order(a: Double, b: Double, c: Double)
    requires
        b.at_most(c),
        !a.minus(b).nan(),
        !a.minus(c).nan(),
    ensures
        a.minus(c).at_most(a.minus(b)),
{
    law_sum_keeps_order(a, c.opposite(), b.opposite());
}

proof fn lemma_raised(n: nat, d: nat)
    requires
        d > 0,
    ensures
        double::raised(n, d) * d >= n,
        n / d * d <= n,
{
    lemma_fundamental_div_mod(n as int, d as int);
    let q = n as int / d as int;
    assert((q + 1) * d == d * q + d) by (nonlinear_arith);
    assert(q * d == d * q) by (nonlinear_arith);
}

/// The floor of a number is not above it.
pub proof fn law_floor_is_not_above(d: Double)
    requires
        !d.nan(),
    ensures
        d.floored().at_most(d),
{
    if d.finite() {
        let u = double::units(d.magnitude());
        lemma_pow2_pos(1074);
        lemma_raised(u, double::one());
        double::lemma_rounded_units(d.magnitude());
        law_rounding_keeps_order(u / double::one() * double::one(), u);
        law_rounding_keeps_order(u, double::raised(u, double::one()) * double::one());
    }
}

/// The ceiling of a number is not below it.
pub proof fn law_ceiling_is_not_below(d: Double)
    requires
        !d.nan(),
    ensures
        d.at_most(d.ceiled()),
{
    law_floor_is_not_above(d.opposite());
}

/// Flooring keeps the order.
pub proof fn law_floor_keeps_order(a: Double, b: Double)
    requires
        a.at_most(b),
    ensures
        a.floored().at_most(b.floored()),
{
    lemma_pow2_pos(1074);
    lemma_rounded_zero();
    let o = double::one() as int;
    if a.finite() && b.finite() {
        law_order_is_order_of_values(a, b);
        let m = double::units(a.magnitude()) as int;
        let n = double::units(b.magnitude()) as int;
        if !a.negative() && !b.negative() {
            lemma_div_is_ordered(m, n, o);
            lemma_mul_inequality(m / o, n / o, o);
            law_rounding_keeps_order((m / o * o) as nat, (n / o * o) as nat);
        } else if a.negative() && b.negative() {
            lemma_div_is_ordered(n, m, o);
            lemma_fundamental_div_mod(m, o);
            lemma_fundamental_div_mod(n, o);
            let s = double::raised(m as nat, o as nat) as int;
            let t = double::raised(n as nat, o as nat) as int;
            if n / o == m / o {
                assert(m % o >= n % o);
            }
            assert(t <= s);
            lemma_mul_inequality(t, s, o);
            law_rounding_keeps_order((t * o) as nat, (s * o) as nat);
        } else if b.negative() {
            // Only the two zeros stand in one place on both sides of the sign.
            assert(m == 0 && n == 0);
            lemma_small_mod(0, o as nat);
            lemma_div_of0(o);
            assert(0 * o == 0);
        }
    } else if a.finite() {
        law_floor_is_not_above(a);
    } else if b.finite() {
        lemma_finite_floor(b);
    }
}

/// The floor of a finite number is no less than minus infinity.
proof fn lemma_finite_floor(d: Double)
    requires
        d.finite(),
    ensures
        d.floored().magnitude() <= INFINITE,
        d.floored().negative() == d.negative(),
{
}

/// The ceiling keeps the order.
pub proof fn law_ceiling_keeps_order(a: Double, b: Double)
    requires
        a.at_most(b),
    ensures
        a.ceiled().at_most(b.ceiled()),
{
    law_floor_keeps_order(b.opposite(), a.opposite());
    lemma_opposite(b.opposite().floored());
    lemma_opposite(a.opposite().floored());
}

proof fn lemma_opposite(d: Double)
    ensures
        d.opposite().place() == -d.place(),
        d.opposite().nan() == d.nan(),
{
}

/// Holding two numbers between the same limits keeps their order.
pub proof fn law_clamp_keeps_order(a: Double, b: Double, low: Double, high: Double)
    requires
        a.at_most(b),
        low.at_most(high),
    ensures
        a.clamped(low, high).at_most(b.clamped(low, high)),
        low.at_most(a.clamped(low, high)),
        a.clamped(low, high).at_most(high),
{
}

/// Whole numbers stand in their own order.
pub proof fn law_whole_keeps_order(a: nat, b: nat)
    requires
        a <= b <= u64::MAX,
    ensures
        double::whole(a).at_most(double::whole(b)),
        double::whole(a).finite(),
        double::whole(b).finite(),
{
    let o = double::one() as int;
    lemma_pow2_pos(1074);
    lemma_mul_inequality(a as int, b as int, o);
    law_rounding_keeps_order((a * o) as nat, (b * o) as nat);
    // 2^64 has the magnitude bits of exponent 1087.
    lemma2_to64();
    lemma_mul_inequality(b as int, pow2(64) as int, o);
    law_rounding_keeps_order((b * o) as nat, (pow2(64) * o) as nat);
    let top = 1087 * BINADE as nat;
    lemma_fundamental_div_mod_converse(top as int, BINADE as int, 1087, 0);
    lemma_pow2_adds(52, 1086);
    lemma_pow2_adds(64, 1074);
    lemma_pow2_adds(32, 20);
    assert(pow2(52) == BINADE);
    assert(double::units(top) == pow2(64) * o);
    double::lemma_rounded_units(top);
}

/// What a magnitude written as exponent and significand is worth.
proof fn lemma_units_of(significand: nat, e: nat)
    requires
        significand <= WIDE,
        e > 0 ==> significand >= BINADE,
    ensures
        double::units(e * BINADE as nat + significand) == significand * pow2(e),
{
    let unit = BINADE as int;
    let m = significand as int;
    let p = pow2(e) as int;
    let magnitude = e * BINADE as nat + significand;
    lemma2_to64();
    if significand == WIDE {
        assert(e * unit + 2 * unit == (e + 2) * unit) by (nonlinear_arith);
        lemma_fundamental_div_mod_converse(magnitude as int, unit, (e + 2) as int, 0);
        lemma_pow2_unfold(e + 1);
        assert(unit * (2 * p) == (2 * unit) * p) by (nonlinear_arith);
    } else if significand >= BINADE {
        assert(e * unit + m == (e + 1) * unit + (m - unit)) by (nonlinear_arith);
        lemma_fundamental_div_mod_converse(magnitude as int, unit, (e + 1) as int, m - unit);
    } else {
        lemma_fundamental_div_mod_converse(magnitude as int, unit, 0, m);
        assert(m * 1 == m);
    }
}

/// A number of at most 53 bits, at any scale in reach, is represented exactly.
pub proof fn lemma_exact(n: nat, e: nat)
    requires
        n < WIDE,
        e <= 1100,
    ensures
        double::rounded(n * pow2(e)) < INFINITE,
        double::units(double::rounded(n * pow2(e))) == n * pow2(e),
    decreases e,
{
    if e == 0 || n >= BINADE {
        double::lemma_narrow(n, e);
        lemma_units_of(n, e);
        assert(e * BINADE <= 1100 * BINADE);
    } else {
        lemma_pow2_unfold(e);
        let p = pow2((e - 1) as nat) as int;
        assert(n * (2 * p) == (2 * n) * p) by (nonlinear_arith);
        lemma_exact(2 * n, (e - 1) as nat);
    }
}

/// Whether a double is a finite whole number.
pub open spec fn is_whole(d: Double) -> bool {
    d.finite() && double::units(d.magnitude()) % double::one() == 0
}

/// A whole number is its own floor.
pub proof fn lemma_floor_of_whole(d: Double)
    requires
        is_whole(d),
    ensures
        d.floored() == d,
{
    let u = double::units(d.magnitude()) as int;
    let o = double::one() as int;
    lemma_pow2_pos(1074);
    lemma_fundamental_div_mod(u, o);
    lemma_mul_is_commutative(o, u / o);
    double::lemma_rounded_units(d.magnitude());
}

/// A whole number is its own ceiling.
pub proof fn lemma_ceiling_of_whole(d: Double)
    requires
        is_whole(d),
    ensures
        d.ceiled() == d,
{
    lemma_floor_of_whole(d.opposite());
}

/// A magnitude that is not whole is worth less than 2^52.
proof fn lemma_fractions_are_small(magnitude: nat)
    requires
        magnitude < INFINITE,
        double::units(magnitude) % double::one() != 0,
    ensures
        double::units(magnitude) / double::one() < BINADE,
{
    let exponent = magnitude / (BINADE as nat);
    let fraction = magnitude % (BINADE as nat);
    let o = double::one() as int;
    let u = double::units(magnitude) as int;
    lemma_pow2_pos(1074);
    if exponent > 1074 {
        let d = (exponent - 1 - 1074) as nat;
        let p = pow2(d) as int;
        let m = BINADE + fraction;
        lemma_pow2_adds(1074, d);
        assert(m * (o * p) == (m * p) * o) by (nonlinear_arith);
        lemma_fundamental_div_mod_converse(u, o, m * p, 0);
    } else {
        lemma_pow2_unfold(1074);
        let h = pow2(1073) as int;
        lemma_pow2_pos(1073);
        if exponent == 0 {
            assert(u < BINADE);
            assert(BINADE * o >= BINADE) by (nonlinear_arith)
                requires
                    o >= 1,
            ;
        } else {
            let e = (exponent - 1) as nat;
            if e < 1073 {
                lemma_pow2_strictly_increases(e, 1073);
            }
            lemma_pow2_pos(e);
            let p = pow2(e) as int;
            let m = BINADE + fraction;
            assert(m * p < WIDE * h) by (nonlinear_arith)
                requires
                    0 <= m < WIDE,
                    0 < p <= h,
            ;
            assert(WIDE * h == BINADE * (2 * h)) by (nonlinear_arith);
        }
        assert(u < BINADE * o);
        lemma_fundamental_div_mod(u, o);
        assert(u / o < BINADE) by (nonlinear_arith)
            requires
                u == o * (u / o) + u % o,
                0 <= u % o,
                u < BINADE * o,
                o > 0,
        ;
    }
}

/// The floor of a finite number is a whole number.
pub proof fn law_floor_is_whole(d: Double)
    requires
        d.finite(),
    ensures
        is_whole(d.floored()),
{
    let u = double::units(d.magnitude()) as int;
    let o = double::one() as int;
    lemma_pow2_pos(1074);
    lemma_fundamental_div_mod(u, o);
    lemma_mul_is_commutative(o, u / o);
    if u % o == 0 {
        double::lemma_rounded_units(d.magnitude());
    } else {
        lemma_fractions_are_small(d.magnitude());
        let t = if d.negative() {
            u / o + 1
        } else {
            u / o
        };
        lemma_exact(t as nat, 1074);
        lemma_mod_multiples_basic(t, o);
    }
}

/// The ceiling of a finite number is a whole number.
pub proof fn law_ceiling_is_whole(d: Double)
    requires
        d.finite(),
    ensures
        is_whole(d.ceiled()),
{
    law_floor_is_whole(d.opposite());
}

/// The double for a small natural number is that number.
pub proof fn lemma_whole_is_whole(n: nat)
    requires
        n < WIDE,
    ensures
        is_whole(double::whole(n)),
        double::whole(n).value() == n * double::one(),
{
    lemma_pow2_pos(1074);
    lemma_exact(n, 1074);
    lemma_mod_multiples_basic(n as int, double::one() as int);
}

/// The difference of two whole numbers below 2^32 is exact.
pub proof fn law_small_differences_are_exact(a: Double, b: Double)
    requires
        is_whole(a),
        is_whole(b),
        double::whole(0).at_most(b),
        b.at_most(a),
        a.at_most(double::whole(0xFFFF_FFFF)),
    ensures
        a.minus(b).truncated() * double::one() == a.value() - b.value(),
{
    let o = double::one() as int;
    let u = double::units(a.magnitude()) as int;
    let v = double::units(b.magnitude()) as int;
    lemma_pow2_pos(1074);
    lemma_rounded_zero();
    assert(double::whole(0).magnitude() == 0) by {
        assert(0 * double::one() == 0);
    }
    lemma_exact(0xFFFF_FFFF, 1074);
    let top = double::whole(0xFFFF_FFFF);
    law_order_is_order_of_values(a, top);
    law_order_is_order_of_values(b, a);
    lemma_fundamental_div_mod(u, o);
    lemma_fundamental_div_mod(v, o);
    let s = u / o;
    let t = v / o;
    if a.negative() {
        assert(u == 0 && v == 0);
    }
    if b.negative() {
        assert(v == 0);
    }
    assert(a.value() == u && b.value() == v);
    assert(u - v == (s - t) * o) by (nonlinear_arith)
        requires
            u == o * s,
            v == o * t,
    ;
    assert(0 <= s - t <= 0xFFFF_FFFF) by (nonlinear_arith)
        requires
            o * s <= 0xFFFF_FFFF * o,
            o * t <= o * s,
            t >= 0,
            o > 0,
    ;
    let n = (s - t) as nat;
    lemma_exact(n, 1074);
    lemma_fundamental_div_mod_converse(n * o, o, n as int, 0);
    assert(b.opposite().value() == -b.value());
    if n == 0 {
        assert(0 * o == 0);
        lemma_div_of0(o);
    } else {
        assert(n * o > 0) by (nonlinear_arith)
            requires
                n > 0,
                o > 0,
        ;
    }
}

/// The double for a 64-bit integer is the integer rounded to 53 significant bits.
pub proof fn law_whole_rounds_to_53_bits(n: nat)
    requires
        n <= u64::MAX,
    ensures
        double::whole(n).value() == double::nearest(n, double::excess(n)) * pow2(double::excess(n))
            * double::one(),
{
    let k = double::excess(n);
    let o = double::one() as int;
    lemma2_to64();
    lemma_excess_bounds(n);
    if k == 0 {
        lemma_whole_is_whole(n);
        assert(double::nearest(n, 0) == n);
    } else {
        let p = pow2(k) as int;
        lemma_pow2_pos(k);
        lemma_fundamental_div_mod(n as int, p);
        let q = n as int / p;
        assert(BINADE <= q < WIDE) by (nonlinear_arith)
            requires
                n == p * q + n as int % p,
                0 <= n as int % p < p,
                BINADE * p <= n < WIDE * p,
        ;
        double::lemma_scaled(n, k, 1074);
        lemma_nearest_bounds(n);
        law_whole_keeps_order(n, n);
        let m = double::nearest(n, k) as int;
        lemma_units_of(m as nat, k + 1074);
        lemma_pow2_adds(k, 1074);
        assert(m * (p * o) == m * p * o) by (nonlinear_arith);
    }
}

/// Cutting off the fraction leaves the whole number at or below a number, held to 32 bits; what is
/// below one, or no number, leaves nothing.
pub proof fn law_truncation_cuts_off_the_fraction(d: Double)
    ensures
        d.finite() && 0 <= d.value() < 0x1_0000_0000 * double::one() ==> d.truncated()
            * double::one() <= d.value() < (d.truncated() + 1) * double::one(),
        d.finite() && d.value() >= 0x1_0000_0000 * double::one() ==> d.truncated() == u32::MAX,
        d.finite() && d.value() < double::one() ==> d.truncated() == 0,
        d.nan() ==> d.truncated() == 0,
{
    let o = double::one() as int;
    let u = double::units(d.magnitude()) as int;
    lemma_pow2_pos(1074);
    lemma_fundamental_div_mod(u, o);
    let q = u / o;
    lemma_mul_is_commutative(o, q);
    assert((q + 1) * o == q * o + o) by (nonlinear_arith);
    if d.finite() {
        if d.negative() {
            if u > 0 {
                assert(d.value() < 0);
            } else {
                assert(0 * o == 0 && 1 * o == o);
            }
        } else {
            if u < 0x1_0000_0000 * o {
                assert(q <= 0xFFFF_FFFF) by (nonlinear_arith)
                    requires
                        q * o <= u,
                        u < 0x1_0000_0000 * o,
                        o > 0,
                ;
            } else {
                assert(q >= 0x1_0000_0000) by (nonlinear_arith)
                    requires
                        u < (q + 1) * o,
                        u >= 0x1_0000_0000 * o,
                        o > 0,
                ;
            }
            if u < o {
                assert(q == 0) by (nonlinear_arith)
                    requires
                        q * o <= u,
                        u < o,
                        u < (q + 1) * o,
                        u >= 0,
                        o > 0,
                ;
            }
        }
    }
}

/// A product with a whole number keeps within 16000 exactly where it is that of exact values, up to
/// the first number above 16000 that a double holds.
pub proof fn law_products_are_held_to_a_limit(d: Double, factor: u32)
    requires
        d.finite(),
        d.value() >= 0,
    ensures
        factor * d.value() <= 16000 * double::one() ==> d.times(factor).at_most(
            double::whole(16000),
        ),
        factor * d.value() >= 16000 * double::one() + pow2(1035) ==> !d.times(factor).at_most(
            double::whole(16000),
        ),
{
    let o = double::one() as int;
    let u = double::units(d.magnitude()) as int;
    let n = (factor * u) as nat;
    let s = 16000 * 0x80_0000_0000nat;
    let top = 1035 * BINADE as nat + s;
    let p = pow2(1035) as int;
    lemma_pow2_pos(1074);
    lemma2_to64();
    lemma_pow2_adds(39, 1035);
    lemma_pow2_adds(32, 7);
    assert(pow2(39) == 0x80_0000_0000nat);
    assert(s * p == 16000 * (0x80_0000_0000 * p)) by (nonlinear_arith)
        requires
            s == 16000 * 0x80_0000_0000,
    ;
    assert((s + 1) * p == s * p + p) by (nonlinear_arith);
    assert(s >= BINADE && s + 1 < WIDE);
    lemma_units_of(s, 1035);
    lemma_units_of(s + 1, 1035);
    assert(top + 1 == 1035 * BINADE as nat + (s + 1));
    double::lemma_rounded_units(top);
    double::lemma_rounded_units(top + 1);
    assert(double::units(top) == 16000 * o);
    assert(double::rounded((16000 * o) as nat) == top);
    assert(u >= 0 && factor >= 0);
    assert(factor * u >= 0) by (nonlinear_arith)
        requires
            u >= 0,
            factor >= 0,
    ;
    if d.negative() {
        assert(u == 0);
        assert(factor * u == 0) by (nonlinear_arith)
            requires
                u == 0,
        ;
        lemma_pow2_pos(1035);
        lemma_rounded_zero();
    } else {
        if n <= 16000 * o {
            law_rounding_keeps_order(n, (16000 * o) as nat);
        }
        if n >= 16000 * o + p {
            law_rounding_keeps_order((16000 * o + p) as nat, n);
        }
    }
}

} // verus!

//! The magnitudes of the IEEE 754 binary64 format and rounding to the nearest of them.
//!
//! A magnitude is a binary64 encoding without its sign bit, read as an integer. The
//! smallest positive magnitude stands for 2^-1074, and every finite magnitude stands for
//! a whole number of these units. Greater magnitudes stand for greater values, so that
//! the neighbours of magnitude `b` are `b - 1` and `b + 1`.
use vstd::arithmetic::power2::*;
use vstd::prelude::*;

verus! {

/// The magnitude of infinity. The finite magnitudes lie below it, those of NaN above it.
pub const INFINITY_MAGNITUDE: u64 = 0x7ff0_0000_0000_0000;

/// 2^52, the weight of the implicit leading bit of a normal significand.
pub const IMPLICIT_BIT: u64 = 0x10_0000_0000_0000;

/// The significand of magnitude `b`, with its implicit leading bit.
pub open spec fn significand(b: nat) -> nat {
    if b < 0x10_0000_0000_0000 {
        b
    } else {
        0x10_0000_0000_0000 + b % 0x10_0000_0000_0000
    }
}

/// The exponent of magnitude `b`, counted from the exponent of one unit.
pub open spec fn exponent(b: nat) -> nat {
    if b < 0x10_0000_0000_0000 {
        0
    } else {
        (b / 0x10_0000_0000_0000 - 1) as nat
    }
}

/// The number of units that magnitude `b` stands for. For the magnitude of infinity this
/// is 2^1024 in units: the value that would follow the greatest finite one.
pub open spec fn units(b: nat) -> nat {
    significand(b) * pow2(exponent(b))
}

/// Whether `b` is the magnitude nearest to `n / d` units, with ties going to the even
/// magnitude. Everything from halfway between the greatest finite value and its would-be
/// successor on rounds to infinity.
pub open spec fn is_nearest(b: nat, n: nat, d: nat) -> bool {
    &&& b <= 0x7ff0_0000_0000_0000
    &&& b > 0 ==> {
        let low = (units((b - 1) as nat) + units(b)) * d;
        low < 2 * n || (low == 2 * n && b % 2 == 0)
    }
    &&& b < 0x7ff0_0000_0000_0000 ==> {
        let high = (units(b) + units(b + 1)) * d;
        2 * n < high || (2 * n == high && b % 2 == 0)
    }
}

/// The magnitude nearest to `n / d` units.
pub open spec fn round_nearest(n: nat, d: nat) -> nat {
    choose|b: nat| is_nearest(b, n, d)
}

/// The next magnitude is greater by two to the exponent.
pub proof fn lemma_units_step(b: nat)
    ensures
        units(b + 1) == units(b) + pow2(exponent(b)),
        pow2(exponent(b)) > 0,
{
    let t: nat = 0x10_0000_0000_0000;
    let e = exponent(b);
    lemma_pow2_pos(e);
    lemma2_to64();
    if exponent(b + 1) == e {
        assert(significand(b + 1) == significand(b) + 1);
        assert((significand(b) + 1) * pow2(e) == significand(b) * pow2(e) + pow2(e))
            by (nonlinear_arith);
    } else {
        assert(exponent(b + 1) == e + 1);
        assert(significand(b) == 2 * t - 1);
        assert(significand(b + 1) == t);
        lemma_pow2_unfold(e + 1);
        assert(t * (2 * pow2(e)) == (2 * t - 1) * pow2(e) + pow2(e)) by (nonlinear_arith);
    }
}

/// Greater magnitudes stand for greater values.
pub proof fn lemma_units_increase(a: nat, b: nat)
    requires
        a < b,
    ensures
        units(a) < units(b),
    decreases b,
{
    lemma_units_step((b - 1) as nat);
    if a < b - 1 {
        lemma_units_increase(a, (b - 1) as nat);
    }
}

/// A significand and an exponent make up a magnitude; a significand that has outgrown its
/// range by one carries into the exponent.
pub proof fn lemma_units_compose(s: nat, f: nat)
    requires
        f <= 0x20_0000_0000_0000,
        s == 0 || f >= 0x10_0000_0000_0000,
    ensures
        units(s * 0x10_0000_0000_0000 + f) == f * pow2(s),
{
    let t: nat = 0x10_0000_0000_0000;
    let b = s * t + f;
    lemma2_to64();
    lemma_pow2_unfold(s + 1);
    if f == 2 * t {
        assert(exponent(b) == s + 1);
        assert(significand(b) == t);
        assert(t * (2 * pow2(s)) == (2 * t) * pow2(s)) by (nonlinear_arith);
    } else if f >= t {
        assert(exponent(b) == s);
        assert(significand(b) == f);
    } else {
        assert(exponent(b) == 0);
        assert(significand(b) == f);
    }
}

/// Rounding never reverses an order: of two quotients the smaller one does not round to
/// the greater magnitude.
pub proof fn lemma_nearest_ordered(b1: nat, n1: nat, d1: nat, b2: nat, n2: nat, d2: nat)
    requires
        d1 > 0,
        d2 > 0,
        n1 * d2 <= n2 * d1,
        is_nearest(b1, n1, d1),
        is_nearest(b2, n2, d2),
    ensures
        b1 <= b2,
{
    if b1 > b2 {
        let low = units((b1 - 1) as nat) + units(b1);
        let high = units(b2) + units(b2 + 1);
        if b1 - 1 > b2 {
            lemma_units_increase(b2, (b1 - 1) as nat);
            lemma_units_increase(b2 + 1, b1);
        }
        assert(high <= low);
        assert(low * d1 <= 2 * n1);
        assert(2 * n2 <= high * d2);
        assert(low * d1 * d2 <= 2 * n1 * d2) by (nonlinear_arith)
            requires
                low * d1 <= 2 * n1,
                d2 > 0,
        ;
        assert(2 * n2 * d1 <= high * d2 * d1) by (nonlinear_arith)
            requires
                2 * n2 <= high * d2,
                d1 > 0,
        ;
        assert(high * d2 * d1 <= low * d1 * d2) by (nonlinear_arith)
            requires
                high <= low,
        ;
        assert(2 * n1 * d2 <= 2 * n2 * d1) by (nonlinear_arith)
            requires
                n1 * d2 <= n2 * d1,
        ;
        assert(low * d1 == 2 * n1) by (nonlinear_arith)
            requires
                low * d1 * d2 == 2 * n1 * d2,
                d2 > 0,
        ;
        assert(2 * n2 == high * d2) by (nonlinear_arith)
            requires
                2 * n2 * d1 == high * d2 * d1,
                d1 > 0,
        ;
        assert(high == low) by (nonlinear_arith)
            requires
                high * d2 * d1 == low * d1 * d2,
                d1 > 0,
                d2 > 0,
        ;
        assert(b2 == b1 - 1);
    }
}

/// Equal quotients have one nearest magnitude between them.
pub proof fn lemma_nearest_unique(b1: nat, n1: nat, d1: nat, b2: nat, n2: nat, d2: nat)
    requires
        d1 > 0,
        d2 > 0,
        n1 * d2 == n2 * d1,
        is_nearest(b1, n1, d1),
        is_nearest(b2, n2, d2),
    ensures
        b1 == b2,
{
    lemma_nearest_ordered(b1, n1, d1, b2, n2, d2);
    lemma_nearest_ordered(b2, n2, d2, b1, n1, d1);
}

/// Every quotient has a nearest magnitude: starting from one that is not too great, go up
/// until the next one would be.
proof fn lemma_nearest_exists_from(b: nat, n: nat, d: nat)
    requires
        d > 0,
        b <= 0x7ff0_0000_0000_0000,
        b > 0 ==> {
            let low = (units((b - 1) as nat) + units(b)) * d;
            low < 2 * n || (low == 2 * n && b % 2 == 0)
        },
    ensures
        exists|c: nat| is_nearest(c, n, d),
    decreases 0x7ff0_0000_0000_0000 - b,
{
    if is_nearest(b, n, d) {
    } else {
        let mid = (units(b) + units(b + 1)) * d;
        assert(mid < 2 * n || (mid == 2 * n && b % 2 == 1));
        lemma_nearest_exists_from(b + 1, n, d);
    }
}

/// `round_nearest` is the nearest magnitude, and the only one.
pub proof fn lemma_round_nearest(n: nat, d: nat)
    requires
        d > 0,
    ensures
        is_nearest(round_nearest(n, d), n, d),
        forall|b: nat| is_nearest(b, n, d) ==> b == round_nearest(n, d),
{
    lemma_nearest_exists_from(0, n, d);
    assert forall|b: nat| is_nearest(b, n, d) implies b == round_nearest(n, d) by {
        lemma_nearest_unique(b, n, d, round_nearest(n, d), n, d);
    }
}

/// Rounding is monotone.
pub proof fn lemma_round_nearest_monotone(n1: nat, d1: nat, n2: nat, d2: nat)
    requires
        d1 > 0,
        d2 > 0,
        n1 * d2 <= n2 * d1,
    ensures
        round_nearest(n1, d1) <= round_nearest(n2, d2),
{
    lemma_round_nearest(n1, d1);
    lemma_round_nearest(n2, d2);
    lemma_nearest_ordered(round_nearest(n1, d1), n1, d1, round_nearest(n2, d2), n2, d2);
}

/// Equal quotients round alike.
pub proof fn lemma_round_nearest_ratio(n1: nat, d1: nat, n2: nat, d2: nat)
    requires
        d1 > 0,
        d2 > 0,
        n1 * d2 == n2 * d1,
    ensures
        round_nearest(n1, d1) == round_nearest(n2, d2),
{
    lemma_round_nearest_monotone(n1, d1, n2, d2);
    lemma_round_nearest_monotone(n2, d2, n1, d1);
}

/// A value that a magnitude stands for rounds to that magnitude.
pub proof fn lemma_round_nearest_exact(b: nat, n: nat, d: nat)
    requires
        d > 0,
        b <= 0x7ff0_0000_0000_0000,
        n == units(b) * d,
    ensures
        round_nearest(n, d) == b,
{
    let u = units(b);
    if b > 0 {
        let v = units((b - 1) as nat);
        lemma_units_increase((b - 1) as nat, b);
        assert((v + u) * d < 2 * (u * d)) by (nonlinear_arith)
            requires
                v < u,
                d > 0,
        ;
    }
    let w = units(b + 1);
    lemma_units_increase(b, b + 1);
    assert(2 * (u * d) < (u + w) * d) by (nonlinear_arith)
        requires
            u < w,
            d > 0,
    ;
    assert(is_nearest(b, n, d));
    lemma_round_nearest(n, d);
}

/// Rounding to a finite magnitude is off by at most half the distance to the next one,
/// and that distance is at most 2^-52 of the value or one unit.
pub proof fn lemma_round_nearest_error(n: nat, d: nat)
    requires
        d > 0,
        round_nearest(n, d) < 0x7ff0_0000_0000_0000,
    ensures
        ({
            let u = units(round_nearest(n, d));
            let step = pow2(exponent(round_nearest(n, d)));
            &&& 2 * n <= (2 * u + step) * d
            &&& 2 * u * d <= 2 * n + step * d
            &&& step * 0x10_0000_0000_0000 <= u + 0x10_0000_0000_0000
        }),
{
    let b = round_nearest(n, d);
    let u = units(b);
    let step = pow2(exponent(b));
    lemma_round_nearest(n, d);
    lemma_units_step(b);
    lemma2_to64();
    if b > 0 {
        let v = units((b - 1) as nat);
        let below = exponent((b - 1) as nat);
        lemma_units_step((b - 1) as nat);
        if below < exponent(b) {
            lemma_pow2_strictly_increases(below, exponent(b));
        }
        assert(2 * u * d <= 2 * n + step * d) by (nonlinear_arith)
            requires
                (v + u) * d <= 2 * n,
                u <= v + step,
        ;
    } else {
        assert(2 * u * d == 0) by (nonlinear_arith)
            requires
                u == 0 * step,
        ;
    }
    if exponent(b) > 0 {
        assert(step * 0x10_0000_0000_0000 <= u) by (nonlinear_arith)
            requires
                u == significand(b) * step,
                significand(b) >= 0x10_0000_0000_0000,
        ;
    }
}

/// Whether a significand `f` that leaves the remainder `r / q` is to be rounded up.
pub open spec fn rounds_up(f: nat, r: nat, q: nat) -> bool {
    2 * r > q || (2 * r == q && f % 2 == 1)
}

/// The magnitude that the truncated significand `f` and the exponent `s` make up once the
/// remainder `r / q` has been rounded away.
pub open spec fn assembled(s: nat, f: nat, r: nat, q: nat) -> nat {
    let c = s * 0x10_0000_0000_0000 + f + if rounds_up(f, r, q) { 1nat } else { 0 };
    if c < 0x7ff0_0000_0000_0000 { c } else { 0x7ff0_0000_0000_0000 }
}

/// Truncating to a significand and then rounding its remainder away gives the nearest
/// magnitude.
pub proof fn lemma_assembled_is_nearest(n: nat, d: nat, s: nat, f: nat, r: nat, q: nat)
    requires
        d > 0,
        r < q,
        f < 0x20_0000_0000_0000,
        s == 0 || f >= 0x10_0000_0000_0000,
        n * q == (f * q + r) * pow2(s) * d,
    ensures
        round_nearest(n, d) == assembled(s, f, r, q),
{
    let top: nat = 0x7ff0_0000_0000_0000;
    let c = s * 0x10_0000_0000_0000 + f;
    let b = assembled(s, f, r, q);
    let p = pow2(s);
    lemma_pow2_pos(s);
    lemma_units_compose(s, f);
    lemma_units_compose(s, f + 1);
    assert(units(c) == f * p);
    assert(units(c + 1) == (f + 1) * p);
    assert(c % 2 == f % 2);
    assert(f * p * d <= n) by (nonlinear_arith)
        requires
            n * q == (f * q + r) * p * d,
            q > 0,
    ;
    assert(n < (f + 1) * p * d) by (nonlinear_arith)
        requires
            n * q == (f * q + r) * p * d,
            r < q,
            p > 0,
            d > 0,
    ;
    let mid = (f * p + (f + 1) * p) * d;
    assert(mid * q == (2 * f * q + q) * p * d) by (nonlinear_arith)
        requires
            mid == (f * p + (f + 1) * p) * d,
    ;
    assert(2 * n * q == (2 * f * q + 2 * r) * p * d) by (nonlinear_arith)
        requires
            n * q == (f * q + r) * p * d,
    ;
    assert(2 * n > mid <==> 2 * r > q) by {
        lemma_scaled_order(2 * n, mid, q, 2 * f * q + 2 * r, 2 * f * q + q, p, d);
    }
    assert(2 * n < mid <==> 2 * r < q) by {
        lemma_scaled_order(mid, 2 * n, q, 2 * f * q + q, 2 * f * q + 2 * r, p, d);
    }
    if b > 0 {
        let v = units((b - 1) as nat);
        let u = units(b);
        lemma_units_increase((b - 1) as nat, b);
        if b <= c {
            if b < c {
                lemma_units_increase(b, c);
            }
            assert((v + u) * d < 2 * n) by (nonlinear_arith)
                requires
                    v < u,
                    u <= f * p,
                    f * p * d <= n,
                    d > 0,
            ;
        } else {
            assert(b == c + 1);
        }
    }
    if b < top {
        let u = units(b);
        let w = units(b + 1);
        lemma_units_increase(b, b + 1);
        if b == c + 1 {
            assert(2 * n < (u + w) * d) by (nonlinear_arith)
                requires
                    u < w,
                    u == (f + 1) * p,
                    n < (f + 1) * p * d,
                    d > 0,
            ;
        } else {
            assert(b == c);
        }
    }
    assert(is_nearest(b, n, d));
    lemma_round_nearest(n, d);
}

/// Two quantities compare as do their multiples.
proof fn lemma_scaled_order(x: nat, y: nat, q: nat, g: nat, h: nat, p: nat, d: nat)
    by (nonlinear_arith)
    requires
        q > 0,
        p > 0,
        d > 0,
        x * q == g * p * d,
        y * q == h * p * d,
    ensures
        x > y <==> g > h,
{
    assert(x > y ==> x * q > y * q);
    assert(x <= y ==> x * q <= y * q);
    assert(g > h ==> g * p > h * p);
    assert(g <= h ==> g * p <= h * p);
    assert(g * p > h * p ==> g * p * d > h * p * d);
    assert(g * p <= h * p ==> g * p * d <= h * p * d);
}

} // verus!

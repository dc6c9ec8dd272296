//! What the arithmetic on binary64 numbers computes.
//!
//! A magnitude stands for a whole number of units of 2^-1074, and every operation gives
//! the magnitude closest to the exact result.
use crate::binary64;
use crate::binary64::Binary64;
use crate::rounding;
use vstd::arithmetic::power2::*;
use vstd::math::*;
use vstd::prelude::*;

verus! {

/// An encoding is made up of its sign bit and its magnitude, and its magnitude tells
/// numbers, infinities and NaNs apart.
pub proof fn law_encoding(x: Binary64)
    ensures
        x.magnitude() < 0x8000_0000_0000_0000,
        x.negative() ==> x.bits == 0x8000_0000_0000_0000 + x.magnitude(),
        !x.negative() ==> x.bits == x.magnitude(),
        x.zero() <==> x.bits == 0 || x.bits == 0x8000_0000_0000_0000,
        x.infinite() <==> x.bits == 0x7ff0_0000_0000_0000 || x.bits == 0xfff0_0000_0000_0000,
        x.nan() <==> 0x7ff0_0000_0000_0000 < x.bits < 0x8000_0000_0000_0000 || x.bits
            > 0xfff0_0000_0000_0000,
{
}

/// Magnitudes up to 2^53 stand for themselves, and from 2^52 on a magnitude whose
/// exponent is greater by one stands for twice as much.
pub proof fn law_units(b: nat)
    ensures
        b <= 0x20_0000_0000_0000 ==> rounding::units(b) == b,
        b >= 0x10_0000_0000_0000 ==> rounding::units(b + 0x10_0000_0000_0000) == 2
            * rounding::units(b),
{
    lemma2_to64();
    if b >= 0x10_0000_0000_0000 {
        let c = b + 0x10_0000_0000_0000;
        let (s, e) = (rounding::significand(b), rounding::exponent(b));
        assert(rounding::significand(c) == s);
        assert(rounding::exponent(c) == e + 1);
        lemma_pow2_unfold(e + 1);
        assert(s * (2 * pow2(e)) == 2 * (s * pow2(e))) by (nonlinear_arith);
    }
    if b <= 0x20_0000_0000_0000 {
        rounding::lemma_units_compose(0, b);
        assert(b * pow2(0) == b);
    }
}

/// No magnitude is closer to a quotient than the one it rounds to, and where another one
/// is as close, the quotient rounds to the even one. The magnitude of infinity counts as
/// the value that would follow the greatest finite one.
pub proof fn law_rounding_is_closest(n: nat, d: nat, b: nat)
    requires
        d > 0,
        b <= 0x7ff0_0000_0000_0000,
    ensures
        ({
            let r = rounding::round_nearest(n, d);
            let error = abs(rounding::units(r) * d - n);
            let other = abs(rounding::units(b) * d - n);
            &&& r <= 0x7ff0_0000_0000_0000
            &&& error <= other
            &&& error == other && b != r ==> r % 2 == 0
        }),
{
    let r = rounding::round_nearest(n, d);
    rounding::lemma_round_nearest(n, d);
    let (u, v) = (rounding::units(r), rounding::units(b));
    if b > r {
        let w = rounding::units(r + 1);
        rounding::lemma_units_increase(r, r + 1);
        if b > r + 1 {
            rounding::lemma_units_increase(r + 1, b);
        }
        assert((u + w) * d == u * d + w * d) by (nonlinear_arith);
        assert(u * d < w * d <= v * d) by (nonlinear_arith)
            requires
                u < w <= v,
                d > 0,
        ;
    } else if b < r {
        let w = rounding::units((r - 1) as nat);
        rounding::lemma_units_increase((r - 1) as nat, r);
        if b < r - 1 {
            rounding::lemma_units_increase(b, (r - 1) as nat);
        }
        assert((w + u) * d == w * d + u * d) by (nonlinear_arith);
        assert(v * d <= w * d < u * d) by (nonlinear_arith)
            requires
                v <= w < u,
                d > 0,
        ;
    }
}

/// A 64-bit integer converts to the closest finite number, and to itself up to 2^53.
pub proof fn law_conversion(v: nat, b: nat)
    requires
        v <= u64::MAX,
        b <= 0x7ff0_0000_0000_0000,
    ensures
        ({
            let x = binary64::from_integer(v);
            let error = abs(rounding::units(x.magnitude()) - v * pow2(1074));
            let other = abs(rounding::units(b) - v * pow2(1074));
            &&& !x.negative()
            &&& x.magnitude() < 0x7ff0_0000_0000_0000
            &&& v <= 0x20_0000_0000_0000 ==> error == 0
            &&& error <= other
            &&& error == other && b != x.magnitude() ==> x.magnitude() % 2 == 0
        }),
{
    binary64::lemma_from_integer(v);
    if v <= 0x20_0000_0000_0000 {
        binary64::lemma_from_integer_exact(v);
    }
    law_rounding_is_closest(v * pow2(1074), 1, b);
}

/// The product of two numbers is the number closest to their exact product. It is
/// negative where one factor is, and undefined where a factor is or where one is infinite
/// and the other zero.
pub proof fn law_product(x: Binary64, y: Binary64, b: nat)
    requires
        b <= 0x7ff0_0000_0000_0000,
    ensures
        ({
            let top = 0x7ff0_0000_0000_0000nat;
            let (i, j) = (x.magnitude(), y.magnitude());
            let z = x.times(y);
            let exact = rounding::units(i) * rounding::units(j);
            let error = abs(rounding::units(z.magnitude()) * pow2(1074) - exact);
            let other = abs(rounding::units(b) * pow2(1074) - exact);
            &&& z.magnitude() > top <==> i > top || j > top || (i == top && j == 0) || (i == 0 && j
                == top)
            &&& z.magnitude() <= top ==> (z.negative() <==> x.negative() != y.negative())
            &&& z.magnitude() <= top && (i == top || j == top) ==> z.magnitude() == top
            &&& i < top && j < top ==> error <= other
            &&& i < top && j < top && error == other && b != z.magnitude() ==> z.magnitude() % 2
                == 0
        }),
{
    let (top, p) = (0x7ff0_0000_0000_0000nat, pow2(1074));
    let exact = rounding::units(x.magnitude()) * rounding::units(y.magnitude());
    let sign = x.negative() != y.negative();
    lemma_pow2_pos(1074);
    law_rounding_is_closest(exact, p, b);
    binary64::lemma_signed(false, 0x7ff8_0000_0000_0000);
    binary64::lemma_signed(sign, top);
    binary64::lemma_signed(sign, rounding::round_nearest(exact, p));
}

/// The hundredth part of a number is the number closest to the exact hundredth part, with
/// the same sign.
pub proof fn law_hundredth(x: Binary64, b: nat)
    requires
        b <= 0x7ff0_0000_0000_0000,
    ensures
        ({
            let top = 0x7ff0_0000_0000_0000nat;
            let i = x.magnitude();
            let z = x.over_hundred();
            let error = abs(rounding::units(z.magnitude()) * 100 - rounding::units(i));
            let other = abs(rounding::units(b) * 100 - rounding::units(i));
            &&& z.magnitude() > top <==> i > top
            &&& i <= top ==> (z.negative() <==> x.negative())
            &&& i == top ==> z.magnitude() == top
            &&& i < top ==> z.magnitude() < top
            &&& i < top ==> error <= other
            &&& i < top && error == other && b != z.magnitude() ==> z.magnitude() % 2 == 0
        }),
{
    let top = 0x7ff0_0000_0000_0000nat;
    let u = rounding::units(x.magnitude());
    law_rounding_is_closest(u, 100, b);
    if x.magnitude() < top {
        rounding::lemma_round_nearest_exact(x.magnitude(), u, 1);
        rounding::lemma_round_nearest_monotone(u, 100, u, 1);
    }
    binary64::lemma_signed(false, 0x7ff8_0000_0000_0000);
    binary64::lemma_signed(x.negative(), rounding::round_nearest(u, 100));
}

/// The ceiling of a number is the least integer not below it, or the closest end of the
/// range of `u64`. That of a NaN is zero.
pub proof fn law_ceiling(x: Binary64)
    ensures
        ({
            let top = 0x7ff0_0000_0000_0000nat;
            let (i, c, p) = (x.magnitude(), x.ceiling(), pow2(1074));
            let u = rounding::units(i);
            &&& i > top || x.negative() ==> c == 0
            &&& !x.negative() && i == top ==> c == u64::MAX
            &&& !x.negative() && i < top && u <= u64::MAX * p ==> c * p - p < u <= c * p
            &&& !x.negative() && i < top && u > u64::MAX * p ==> c == u64::MAX
        }),
{
    let p = pow2(1074);
    let u = rounding::units(x.magnitude());
    lemma_pow2_pos(1074);
    if !x.negative() && x.magnitude() < 0x7ff0_0000_0000_0000 {
        if u <= u64::MAX * p {
            binary64::lemma_ceiling_bounds(x);
        } else {
            let m = u64::MAX as int;
            assert(m * p <= u + p - 1);
            vstd::arithmetic::div_mod::lemma_div_is_ordered(m * p, u + p - 1, p as int);
            vstd::arithmetic::div_mod::lemma_div_multiples_vanish(m, p as int);
            assert(p * m == m * p) by (nonlinear_arith);
        }
    }
}

} // verus!

//! Arithmetic on IEEE 754 binary64 numbers, carried out on their encodings.
//!
//! Fee rates and percentages arrive as binary64 numbers. The operations here give the
//! results that the format prescribes, rounded to nearest with ties to even, by integer
//! arithmetic alone.
use crate::rounding;
use crate::rounding::{IMPLICIT_BIT, INFINITY_MAGNITUDE};
use vstd::arithmetic::div_mod::*;
use vstd::arithmetic::power2::*;
use vstd::prelude::*;

verus! {

/// A binary64 number, held as its encoding. Every encoding is one of a number, of an
/// infinity or of a NaN.
#[derive(Clone, Copy, Debug)]
pub struct Binary64 {
    pub bits: u64,
}

/// The number with the given sign and magnitude.
pub open spec fn signed(negative: bool, magnitude: nat) -> Binary64 {
    Binary64 {
        bits: (magnitude + if negative { 0x8000_0000_0000_0000nat } else { 0 }) as u64,
    }
}

/// The quiet NaN that stands for every undefined result.
pub open spec fn not_a_number() -> Binary64 {
    signed(false, 0x7ff8_0000_0000_0000)
}

/// The number nearest to the integer `v`.
pub open spec fn from_integer(v: nat) -> Binary64 {
    signed(false, rounding::round_nearest(v * pow2(1074), 1))
}

impl Binary64 {
    /// The encoding without its sign bit.
    pub open spec fn magnitude(self) -> nat {
        (self.bits % 0x8000_0000_0000_0000) as nat
    }

    /// Whether the sign bit is set.
    pub open spec fn negative(self) -> bool {
        self.bits >= 0x8000_0000_0000_0000
    }

    pub open spec fn nan(self) -> bool {
        self.magnitude() > 0x7ff0_0000_0000_0000
    }

    pub open spec fn infinite(self) -> bool {
        self.magnitude() == 0x7ff0_0000_0000_0000
    }

    pub open spec fn zero(self) -> bool {
        self.magnitude() == 0
    }

    /// The product of two numbers.
    pub open spec fn times(self, other: Binary64) -> Binary64 {
        let sign = self.negative() != other.negative();
        if self.nan() || other.nan() {
            not_a_number()
        } else if self.infinite() || other.infinite() {
            if self.zero() || other.zero() {
                not_a_number()
            } else {
                signed(sign, 0x7ff0_0000_0000_0000)
            }
        } else {
            signed(
                sign,
                rounding::round_nearest(rounding::units(self.magnitude()) * rounding::units(other.magnitude()), pow2(1074)),
            )
        }
    }

    /// The hundredth part of a number.
    pub open spec fn over_hundred(self) -> Binary64 {
        if self.nan() {
            not_a_number()
        } else if self.infinite() {
            self
        } else {
            signed(self.negative(), rounding::round_nearest(rounding::units(self.magnitude()), 100))
        }
    }

    /// The least integer not below a number, brought into the range of `u64`. A NaN
    /// counts as zero.
    pub open spec fn ceiling(self) -> u64 {
        if self.nan() || self.negative() {
            0
        } else if self.infinite() {
            u64::MAX
        } else {
            let c = (rounding::units(self.magnitude()) + pow2(1074) - 1) / pow2(1074) as int;
            if c < u64::MAX {
                c as u64
            } else {
                u64::MAX
            }
        }
    }
}

/// Two to the power of `e`.
fn power(e: u32) -> (p: u128)
    requires
        e <= 107,
    ensures
        p == pow2(e as nat),
        p > 0,
{
    let mut p: u128 = 1;
    let mut i: u32 = 0;
    proof {
        lemma2_to64();
    }
    while i < e
        invariant
            i <= e <= 107,
            p == pow2(i as nat),
            p > 0,
        decreases e - i,
    {
        proof {
            lemma_power_bound((i + 1) as nat, 107);
            lemma_pow2_unfold((i + 1) as nat);
        }
        p = 2 * p;
        i = i + 1;
    }
    p
}

/// Powers of two grow. Those that occur as bounds have these values.
proof fn lemma_power_bound(a: nat, b: nat)
    requires
        a <= b,
    ensures
        0 < pow2(a) <= pow2(b),
        pow2(53) == 0x20_0000_0000_0000,
        pow2(52) == 0x10_0000_0000_0000,
        pow2(106) == 0x400_0000_0000_0000_0000_0000_0000,
        pow2(107) == 0x800_0000_0000_0000_0000_0000_0000,
{
    lemma_pow2_pos(a);
    lemma2_to64();
    lemma2_to64_rest();
    if a < b {
        lemma_pow2_strictly_increases(a, b);
    }
    lemma_pow2_adds(53, 53);
    lemma_pow2_unfold(107);
}

/// The number of binary digits of `m`.
fn bit_length(m: u128) -> (len: u32)
    requires
        m < 0x400_0000_0000_0000_0000_0000_0000,
    ensures
        len <= 106,
        m < pow2(len as nat),
        m > 0 ==> len > 0 && pow2((len - 1) as nat) <= m,
{
    let mut p: u128 = 1;
    let mut len: u32 = 0;
    proof {
        lemma2_to64();
        lemma_power_bound(0, 0);
    }
    while p <= m
        invariant
            m < 0x400_0000_0000_0000_0000_0000_0000,
            len <= 106,
            p == pow2(len as nat),
            len > 0 ==> pow2((len - 1) as nat) <= m,
            pow2(0) == 1,
        decreases 106 - len,
    {
        proof {
            if len == 106 {
                lemma_power_bound(106, 106);
            }
            lemma_power_bound((len + 1) as nat, 107);
            lemma_pow2_unfold((len + 1) as nat);
        }
        p = 2 * p;
        len = len + 1;
    }
    len
}

/// The significand and the exponent of a finite magnitude.
fn decode(b: u64) -> (r: (u64, u32))
    requires
        b < 0x7ff0_0000_0000_0000,
    ensures
        r.0 == rounding::significand(b as nat),
        r.1 == rounding::exponent(b as nat),
        r.0 < 0x20_0000_0000_0000,
        r.1 <= 2045,
        r.1 > 0 ==> r.0 >= 0x10_0000_0000_0000,
{
    if b < IMPLICIT_BIT {
        (b, 0)
    } else {
        (IMPLICIT_BIT + b % IMPLICIT_BIT, (b / IMPLICIT_BIT - 1) as u32)
    }
}

/// Puts a truncated significand and an exponent together and rounds the remainder
/// `r / q` away.
fn assemble(s: u32, f: u64, r: u128, q: u128) -> (b: u64)
    requires
        s <= 3100,
        f < 0x20_0000_0000_0000,
        r < q <= 0x800_0000_0000_0000_0000_0000_0000,
    ensures
        b == rounding::assembled(s as nat, f as nat, r as nat, q as nat),
        b <= INFINITY_MAGNITUDE,
{
    let up: u64 = if 2 * r > q || (2 * r == q && f % 2 == 1) { 1 } else { 0 };
    let c: u64 = s as u64 * IMPLICIT_BIT + f + up;
    if c < INFINITY_MAGNITUDE {
        c
    } else {
        INFINITY_MAGNITUDE
    }
}

/// Two to the power of `t`, or 1 where `t` is negative: `2^t` is `raise(t) / raise(-t)`.
spec fn raise(t: int) -> nat {
    pow2(if t > 0 { t as nat } else { 0 })
}

/// The magnitude nearest to `m * 2^t` units.
fn round_scaled(m: u128, t: i32) -> (b: u64)
    requires
        m < 0x400_0000_0000_0000_0000_0000_0000,
        -1074 <= t <= 3016,
    ensures
        b == rounding::round_nearest(m as nat * raise(t as int), raise(-t as int)),
        b <= INFINITY_MAGNITUDE,
{
    let ghost n = m as nat * raise(t as int);
    let ghost d = raise(-t as int);
    proof {
        lemma_power_bound(0, 0);
        lemma2_to64();
        lemma_pow2_pos(if t < 0 { -t as nat } else { 0 });
    }
    if m == 0 {
        proof {
            assert(n == 0) by (nonlinear_arith)
                requires
                    n == 0 * raise(t as int),
            ;
            assert(rounding::units(0) * d == 0) by (nonlinear_arith)
                requires
                    rounding::units(0) == 0,
            ;
            rounding::lemma_round_nearest_exact(0, n, d);
        }
        return 0;
    }
    let len = bit_length(m);
    let s: u32 = if t + len as i32 > 53 { (t + len as i32 - 53) as u32 } else { 0 };
    if s as i32 <= t {
        let shift: u32 = (t - s as i32) as u32;
        let p = power(shift);
        proof {
            let ps = pow2(s as nat);
            lemma_pow2_adds(shift as nat, s as nat);
            lemma_pow2_adds(shift as nat, len as nat);
            lemma_pow2_adds(shift as nat, (len - 1) as nat);
            lemma_power_bound((shift + len) as nat, 53);
            let l = pow2(len as nat);
            let h = pow2((len - 1) as nat);
            assert(m * p < p * l) by (nonlinear_arith)
                requires
                    m < l,
                    p > 0,
            ;
            assert(p * h <= m * p) by (nonlinear_arith)
                requires
                    h <= m,
            ;
            assert(m * (p * ps) == (m * p) * ps) by (nonlinear_arith);
        }
        let f = (m * p) as u64;
        proof {
            rounding::lemma_assembled_is_nearest(n, d, s as nat, f as nat, 0, 1);
        }
        assemble(s, f, 0, 1)
    } else {
        let shift: u32 = (s as i32 - t) as u32;
        if shift > 107 {
            proof {
                lemma_power_bound(107, shift as nat);
                assert(s == 0);
                rounding::lemma_assembled_is_nearest(n, d, 0, 0, m as nat, pow2(shift as nat));
            }
            return 0;
        }
        let q = power(shift);
        let f = m / q;
        let r = m % q;
        proof {
            lemma_power_bound(shift as nat, 107);
            lemma_fundamental_div_mod(m as int, q as int);
            lemma_pow2_adds(53, shift as nat);
            lemma_power_bound(len as nat, (53 + shift) as nat);
            let ps = pow2(s as nat);
            let pt = raise(t as int);
            assert(f < 0x20_0000_0000_0000) by (nonlinear_arith)
                requires
                    m == q * f + r,
                    m < 0x20_0000_0000_0000 * q,
                    r >= 0,
                    q > 0,
            ;
            if s > 0 {
                lemma_pow2_adds(52, shift as nat);
                assert(f >= 0x10_0000_0000_0000) by (nonlinear_arith)
                    requires
                        m == q * f + r,
                        m >= 0x10_0000_0000_0000 * q,
                        r < q,
                ;
            }
            if t >= 0 {
                lemma_pow2_adds(t as nat, shift as nat);
            } else {
                lemma_pow2_adds(s as nat, (-t) as nat);
            }
            assert(pt * q == ps * d);
            assert((m * pt) * q == (f * q + r) * ps * d) by (nonlinear_arith)
                requires
                    pt * q == ps * d,
                    m == q * f + r,
            ;
            rounding::lemma_assembled_is_nearest(n, d, s as nat, f as nat, r as nat, q as nat);
        }
        assemble(s, f as u64, r, q)
    }
}

/// Attaches a sign to a magnitude.
fn with_sign(negative: bool, magnitude: u64) -> (r: Binary64)
    requires
        magnitude < 0x8000_0000_0000_0000,
    ensures
        r == signed(negative, magnitude as nat),
{
    Binary64 { bits: if negative { magnitude + 0x8000_0000_0000_0000 } else { magnitude } }
}

/// Scaling dividend and divisor alike leaves a rounded-up quotient as it is.
pub proof fn lemma_scaled_ceiling(m: nat, q: nat, a: nat)
    requires
        q > 0,
        a > 0,
    ensures
        (m * a + q * a - 1) / (q * a) as int == (m + q - 1) / q as int,
{
    let y = (m + q - 1) / q as int;
    lemma_fundamental_div_mod(m + q - 1, q as int);
    lemma_mod_bound(m + q - 1, q as int);
    let r = m * a + q * a - 1 - (q * a) * y;
    assert(0 <= r < q * a) by (nonlinear_arith)
        requires
            r == m * a + q * a - 1 - (q * a) * y,
            q * y <= m + q - 1 < q * y + q,
            a > 0,
            q > 0,
    {
        assert((q * a) * y == (q * y) * a);
        assert((q * y + 1) * a <= (m + q) * a);
        assert(m * a <= (q * y) * a);
    }
    assert((q * a) * y == y * (q * a)) by (nonlinear_arith);
    assert(q * a > 0) by (nonlinear_arith)
        requires
            q > 0,
            a > 0,
    ;
    lemma_fundamental_div_mod_converse(m * a + q * a - 1, (q * a) as int, y, r);
}

impl Binary64 {
    /// The number with the encoding `bits`.
    pub fn from_bits(bits: u64) -> (r: Binary64)
        ensures
            r.bits == bits,
    {
        Binary64 { bits }
    }

    /// The encoding of this number.
    pub fn to_bits(self) -> (bits: u64)
        ensures
            bits == self.bits,
    {
        self.bits
    }

    /// The number nearest to `v`.
    pub fn from_u64(v: u64) -> (r: Binary64)
        ensures
            r == from_integer(v as nat),
    {
        proof {
            lemma2_to64();
        }
        with_sign(false, round_scaled(v as u128, 1074))
    }

    /// Multiplies two numbers.
    pub fn multiply(self, other: Binary64) -> (r: Binary64)
        ensures
            r == self.times(other),
    {
        let negative = (self.bits >= 0x8000_0000_0000_0000) != (other.bits
            >= 0x8000_0000_0000_0000);
        let a = self.bits % 0x8000_0000_0000_0000;
        let b = other.bits % 0x8000_0000_0000_0000;
        if a > INFINITY_MAGNITUDE || b > INFINITY_MAGNITUDE {
            return with_sign(false, 0x7ff8_0000_0000_0000);
        }
        if a == INFINITY_MAGNITUDE || b == INFINITY_MAGNITUDE {
            if a == 0 || b == 0 {
                return with_sign(false, 0x7ff8_0000_0000_0000);
            }
            return with_sign(negative, INFINITY_MAGNITUDE);
        }
        let (f, j) = decode(a);
        let (g, k) = decode(b);
        proof {
            assert(f * g < 0x400_0000_0000_0000_0000_0000_0000) by (nonlinear_arith)
                requires
                    f < 0x20_0000_0000_0000,
                    g < 0x20_0000_0000_0000,
            ;
        }
        let m = f as u128 * g as u128;
        let t = j as i32 + k as i32 - 1074;
        proof {
            let (pj, pk, p, u, v) = (
                pow2(j as nat),
                pow2(k as nat),
                pow2(1074),
                raise(t as int),
                raise(-t as int),
            );
            lemma2_to64();
            lemma_pow2_pos(1074);
            lemma_pow2_pos(if t < 0 { -t as nat } else { 0 });
            lemma_pow2_adds(j as nat, k as nat);
            if t >= 0 {
                lemma_pow2_adds(t as nat, 1074);
            } else {
                lemma_pow2_adds((j + k) as nat, (-t) as nat);
            }
            assert(u * p == (pj * pk) * v) by {
                if t >= 0 {
                    assert(pow2(t as nat + 1074) == pow2((j + k) as nat));
                    assert((pj * pk) * 1 == pj * pk);
                } else {
                    assert(pow2((j + k) as nat + (-t) as nat) == p);
                    assert(1 * p == p);
                }
            }
            assert((f * g) * u * p == ((f * pj) * (g * pk)) * v) by (nonlinear_arith)
                requires
                    u * p == (pj * pk) * v,
            ;
            rounding::lemma_round_nearest_ratio(
                (f * g) as nat * u,
                v,
                rounding::units(a as nat) * rounding::units(b as nat),
                p,
            );
        }
        with_sign(negative, round_scaled(m, t))
    }

    /// Divides a number by a hundred.
    pub fn divide_by_hundred(self) -> (r: Binary64)
        ensures
            r == self.over_hundred(),
    {
        let negative = self.bits >= 0x8000_0000_0000_0000;
        let a = self.bits % 0x8000_0000_0000_0000;
        if a > INFINITY_MAGNITUDE {
            return with_sign(false, 0x7ff8_0000_0000_0000);
        }
        if a == INFINITY_MAGNITUDE {
            return self;
        }
        let (m, k) = decode(a);
        let wide: u32 = if k < 7 { k } else { 7 };
        let shift: u32 = if wide == 7 && m * 128 / 100 >= 0x20_0000_0000_0000 { 6 } else { wide };
        let p = power(shift);
        proof {
            lemma2_to64();
            if shift == 7 {
                assert(m * p == m * 128);
            } else {
                lemma_power_bound(shift as nat, 6);
                assert(m * p <= m * 64) by (nonlinear_arith)
                    requires
                        p <= 64,
                ;
            }
        }
        let x = m as u128 * p;
        let s = k - shift;
        proof {
            let ps = pow2(s as nat);
            lemma_pow2_adds(shift as nat, s as nat);
            assert((m * (p * ps)) * 100 == (m * p) * ps * 100) by (nonlinear_arith);
            assert(x == (x / 100) * 100 + x % 100);
            rounding::lemma_assembled_is_nearest(
                rounding::units(a as nat),
                100,
                s as nat,
                (x / 100) as nat,
                (x % 100) as nat,
                100,
            );
        }
        with_sign(negative, assemble(s, (x / 100) as u64, x % 100, 100))
    }

    /// Rounds up to an integer and brings the result into the range of `u64`.
    pub fn ceil_to_u64(self) -> (c: u64)
        ensures
            c == self.ceiling(),
    {
        let a = self.bits % 0x8000_0000_0000_0000;
        if a > INFINITY_MAGNITUDE || self.bits >= 0x8000_0000_0000_0000 {
            return 0;
        }
        if a == INFINITY_MAGNITUDE {
            return u64::MAX;
        }
        let (m, k) = decode(a);
        proof {
            lemma2_to64();
            lemma_pow2_pos(1074);
            lemma_pow2_pos(k as nat);
        }
        if k >= 1074 {
            let shift = k - 1074;
            proof {
                let (p, q) = (pow2(1074), pow2(shift as nat));
                lemma_pow2_adds(shift as nat, 1074);
                assert(m * (q * p) == (m * q) * p) by (nonlinear_arith);
                lemma_scaled_ceiling((m * q) as nat, 1, p);
                assert(1 * p == p);
                if shift > 11 {
                    lemma_power_bound(12, shift as nat);
                    assert(m * q >= 0x1_0000_0000_0000_0000) by (nonlinear_arith)
                        requires
                            m >= 0x10_0000_0000_0000,
                            q >= 0x1000,
                    ;
                } else {
                    lemma_power_bound(shift as nat, 11);
                    assert(m * q < 0x1_0000_0000_0000_0000) by (nonlinear_arith)
                        requires
                            m < 0x20_0000_0000_0000,
                            q <= 0x800,
                    ;
                }
            }
            if shift > 11 {
                u64::MAX
            } else {
                (m as u128 * power(shift)) as u64
            }
        } else {
            let shift = 1074 - k;
            let ghost q = pow2(shift as nat);
            proof {
                lemma_pow2_pos(shift as nat);
                lemma_pow2_adds(shift as nat, k as nat);
                lemma_scaled_ceiling(m as nat, q, pow2(k as nat));
            }
            if shift >= 53 {
                proof {
                    lemma_power_bound(53, shift as nat);
                    if m == 0 {
                        lemma_fundamental_div_mod_converse(q - 1, q as int, 0, q - 1);
                    } else {
                        lemma_fundamental_div_mod_converse(m + q - 1, q as int, 1, m - 1);
                    }
                }
                if m == 0 { 0 } else { 1 }
            } else {
                let p = power(shift);
                proof {
                    lemma_power_bound(shift as nat, 53);
                    lemma_div_is_ordered_by_denominator(m + q - 1, 1, q as int);
                }
                ((m as u128 + p - 1) / p) as u64
            }
        }
    }
}

/// A sign and a magnitude are what they were attached as.
pub proof fn lemma_signed(negative: bool, magnitude: nat)
    requires
        magnitude < 0x8000_0000_0000_0000,
    ensures
        signed(negative, magnitude).negative() == negative,
        signed(negative, magnitude).magnitude() == magnitude,
{
}

/// Up to 53 binary digits times a power of two are represented exactly.
pub proof fn lemma_representable(v: nat, e: nat) -> (b: nat)
    requires
        v <= 0x20_0000_0000_0000,
    ensures
        rounding::units(b) == v * pow2(e),
        b <= (e + 2) * 0x10_0000_0000_0000,
    decreases e,
{
    if e == 0 || v >= 0x10_0000_0000_0000 {
        rounding::lemma_units_compose(e, v);
        e * 0x10_0000_0000_0000 + v
    } else {
        let h = pow2((e - 1) as nat);
        lemma_pow2_unfold(e);
        assert(v * (2 * h) == (2 * v) * h) by (nonlinear_arith);
        lemma_representable(2 * v, (e - 1) as nat)
    }
}

/// The number nearest to a 64-bit integer is finite and not negative.
pub proof fn lemma_from_integer(v: nat)
    requires
        v <= 0x1_0000_0000_0000_0000,
    ensures
        !from_integer(v).negative(),
        from_integer(v).magnitude() < 0x7ff0_0000_0000_0000,
        from_integer(v).magnitude() == rounding::round_nearest(v * pow2(1074), 1),
{
    let (p, w) = (pow2(1074), 0x1_0000_0000_0000_0000nat);
    lemma2_to64();
    lemma_pow2_adds(64, 1074);
    let b = lemma_representable(1, 1138);
    rounding::lemma_round_nearest_exact(b, w * p, 1);
    assert(v * p <= w * p) by (nonlinear_arith)
        requires
            v <= w,
    ;
    rounding::lemma_round_nearest_monotone(v * p, 1, w * p, 1);
    lemma_signed(false, rounding::round_nearest(v * p, 1));
}

/// Integers up to 2^53 are represented exactly.
pub proof fn lemma_from_integer_exact(v: nat)
    requires
        v <= 0x20_0000_0000_0000,
    ensures
        rounding::units(from_integer(v).magnitude()) == v * pow2(1074),
{
    let b = lemma_representable(v, 1074);
    rounding::lemma_round_nearest_exact(b, v * pow2(1074), 1);
    lemma_from_integer(v);
}

/// An integer up to 2^53 is its own ceiling.
pub proof fn lemma_ceiling_of_integer(v: nat)
    requires
        v <= 0x20_0000_0000_0000,
    ensures
        from_integer(v).ceiling() == v,
{
    lemma_from_integer(v);
    lemma_from_integer_exact(v);
    lemma_pow2_pos(1074);
    lemma_scaled_ceiling(v, 1, pow2(1074));
    assert(1 * pow2(1074) == pow2(1074));
}

/// The ceiling does not decrease where the magnitude grows.
pub proof fn lemma_ceiling_monotone(x: Binary64, y: Binary64)
    requires
        !x.negative(),
        !y.negative(),
        !y.nan(),
        x.magnitude() <= y.magnitude(),
    ensures
        x.ceiling() <= y.ceiling(),
{
    let p = pow2(1074);
    lemma_pow2_pos(1074);
    if x.magnitude() < y.magnitude() {
        rounding::lemma_units_increase(x.magnitude(), y.magnitude());
    }
    lemma_div_is_ordered(
        rounding::units(x.magnitude()) + p - 1,
        rounding::units(y.magnitude()) + p - 1,
        p as int,
    );
}

/// The ceiling is the least integer not below the number, for every number in the range
/// of the result.
pub proof fn lemma_ceiling_bounds(x: Binary64)
    requires
        !x.negative(),
        x.magnitude() < 0x7ff0_0000_0000_0000,
        rounding::units(x.magnitude()) <= u64::MAX * pow2(1074),
    ensures
        rounding::units(x.magnitude()) <= x.ceiling() * pow2(1074) < rounding::units(x.magnitude())
            + pow2(1074),
{
    let p = pow2(1074);
    let u = rounding::units(x.magnitude());
    lemma_pow2_pos(1074);
    let c = (u + p - 1) / p as int;
    lemma_fundamental_div_mod(u + p - 1, p as int);
    lemma_mod_bound(u + p - 1, p as int);
    assert(p * c == c * p) by (nonlinear_arith);
    assert(0 <= c <= u64::MAX) by (nonlinear_arith)
        requires
            p * c <= u + p - 1 < p * c + p,
            0 <= u <= u64::MAX * p,
            p > 0,
    ;
}

/// A product with a number that is NaN or negative has the ceiling zero.
pub proof fn lemma_ceiling_of_bad_product(v: nat, y: Binary64)
    requires
        v <= 0x1_0000_0000_0000_0000,
        y.nan() || y.negative(),
    ensures
        from_integer(v).times(y).ceiling() == 0,
{
    let x = from_integer(v);
    lemma_from_integer(v);
    lemma_signed(false, 0x7ff8_0000_0000_0000);
    lemma_signed(true, 0x7ff0_0000_0000_0000);
    lemma_pow2_pos(1074);
    let n = rounding::units(x.magnitude()) * rounding::units(y.magnitude());
    rounding::lemma_round_nearest(n, pow2(1074));
    lemma_signed(true, rounding::round_nearest(n, pow2(1074)));
}

/// Greater factors do not give a product with a smaller ceiling.
pub proof fn lemma_ceiling_of_product_monotone(v: nat, w: nat, x: Binary64, y: Binary64)
    requires
        v <= w <= 0x1_0000_0000_0000_0000,
        !x.negative(),
        !y.negative(),
        !y.nan(),
        x.magnitude() <= y.magnitude(),
    ensures
        from_integer(v).times(x).ceiling() <= from_integer(w).times(y).ceiling(),
{
    let (p, top) = (pow2(1074), 0x7ff0_0000_0000_0000nat);
    let (a, b) = (from_integer(v), from_integer(w));
    let (i, j) = (a.magnitude(), b.magnitude());
    let (k, l) = (x.magnitude(), y.magnitude());
    lemma_from_integer(v);
    lemma_from_integer(w);
    lemma_pow2_pos(1074);
    assert(v * p <= w * p) by (nonlinear_arith)
        requires
            v <= w,
    ;
    rounding::lemma_round_nearest_monotone(v * p, 1, w * p, 1);
    lemma_signed(false, 0x7ff8_0000_0000_0000);
    lemma_signed(false, top);
    let m = rounding::units(i) * rounding::units(k);
    let n = rounding::units(j) * rounding::units(l);
    rounding::lemma_round_nearest(m, p);
    rounding::lemma_round_nearest(n, p);
    lemma_signed(false, rounding::round_nearest(m, p));
    lemma_signed(false, rounding::round_nearest(n, p));
    if i < j {
        rounding::lemma_units_increase(i, j);
    }
    if k < l {
        rounding::lemma_units_increase(k, l);
    }
    if k == top {
        // A NaN on the left has the ceiling zero; otherwise both products are infinite.
    } else if l == top {
        if j == 0 {
            lemma2_to64();
            assert(m == 0) by (nonlinear_arith)
                requires
                    m == rounding::units(i) * rounding::units(k),
                    rounding::units(i) == 0,
            ;
            assert(rounding::units(0) * p == 0);
            rounding::lemma_round_nearest_exact(0, m, p);
            lemma_fundamental_div_mod_converse(p - 1, p as int, 0, p - 1);
        } else {
            lemma_ceiling_monotone(a.times(x), b.times(y));
        }
    } else {
        assert(m * p <= n * p) by (nonlinear_arith)
            requires
                m == rounding::units(i) * rounding::units(k),
                n == rounding::units(j) * rounding::units(l),
                rounding::units(i) <= rounding::units(j),
                rounding::units(k) <= rounding::units(l),
        ;
        rounding::lemma_round_nearest_monotone(m, p, n, p);
        lemma_ceiling_monotone(a.times(x), b.times(y));
    }
}

/// The factors of a product may change places.
pub proof fn lemma_times_commutes(x: Binary64, y: Binary64)
    ensures
        x.times(y) == y.times(x),
{
    let (u, v) = (rounding::units(x.magnitude()), rounding::units(y.magnitude()));
    assert(u * v == v * u) by (nonlinear_arith);
}

/// Dividing by a hundred keeps the sign and the order of numbers, and makes no NaN.
pub proof fn lemma_over_hundred_monotone(x: Binary64, y: Binary64)
    requires
        !x.negative(),
        !y.negative(),
        !y.nan(),
        x.magnitude() <= y.magnitude(),
    ensures
        !x.over_hundred().negative(),
        !y.over_hundred().negative(),
        !y.over_hundred().nan(),
        x.over_hundred().magnitude() <= y.over_hundred().magnitude(),
{
    let (u, v) = (rounding::units(x.magnitude()), rounding::units(y.magnitude()));
    if x.magnitude() < y.magnitude() {
        rounding::lemma_units_increase(x.magnitude(), y.magnitude());
    }
    rounding::lemma_round_nearest(u, 100);
    rounding::lemma_round_nearest(v, 100);
    rounding::lemma_round_nearest_monotone(u, 100, v, 100);
    lemma_signed(false, rounding::round_nearest(u, 100));
    lemma_signed(false, rounding::round_nearest(v, 100));
}

} // verus!

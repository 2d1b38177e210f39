//! Double-precision numbers by their bit pattern, and the step a fractional
//! command value quantizes to.
//!
//! A command carries its intensity as a double-precision number, normally
//! between zero and one. A device offers a whole number of steps. The step a
//! command selects is the product of the two, formed in double precision
//! (rounded to nearest, ties to even) and then truncated toward zero. This
//! module holds the number as its 64-bit pattern and computes that step in
//! integer arithmetic, for every pattern.

use vstd::prelude::*;
use vstd::arithmetic::power2::*;
use vstd::arithmetic::div_mod::*;
use vstd::arithmetic::mul::*;

verus! {

/// A double-precision number in the binary interchange format: one sign bit,
/// eleven exponent bits, fifty-two fraction bits.
#[derive(Clone, Copy, Debug)]
pub struct Double {
    pub bits: u64,
}

impl Double {
    /// The sign bit is set. True of negative zero and negative infinity too.
    pub open spec fn is_negative(self) -> bool {
        self.bits >= 0x8000_0000_0000_0000
    }

    /// The eleven exponent bits, as a number below 2048.
    pub open spec fn exponent_field(self) -> nat {
        ((self.bits / 0x10_0000_0000_0000) % 0x800) as nat
    }

    /// The fifty-two fraction bits, as a number below 2^52.
    pub open spec fn fraction_field(self) -> nat {
        (self.bits % 0x10_0000_0000_0000) as nat
    }

    /// Not a number.
    pub open spec fn is_nan(self) -> bool {
        self.exponent_field() == 2047 && self.fraction_field() != 0
    }

    /// Positive or negative infinity.
    pub open spec fn is_infinite(self) -> bool {
        self.exponent_field() == 2047 && self.fraction_field() == 0
    }

    /// The significand as an integer: the fraction bits, with the implicit
    /// leading bit unless the number is subnormal.
    pub open spec fn significand(self) -> nat {
        if self.exponent_field() == 0 {
            self.fraction_field()
        } else {
            0x10_0000_0000_0000 + self.fraction_field()
        }
    }

    /// The power of two that the significand is multiplied by, counted from
    /// the smallest one the format has, 2^-1074.
    pub open spec fn scale(self) -> nat {
        if self.exponent_field() == 0 {
            0
        } else {
            (self.exponent_field() - 1) as nat
        }
    }

    /// The absolute value in units of 2^-1074. Every finite double is a whole
    /// number of these units. For an infinity the same formula gives a number
    /// above every finite magnitude.
    pub open spec fn magnitude(self) -> nat {
        self.significand() * pow2(self.scale())
    }

    /// The place of a number that is not NaN on the number line, in units of
    /// 2^-1074. Both zeros are at 0; the infinities lie beyond all finite
    /// numbers.
    pub open spec fn position(self) -> int {
        if self.is_negative() {
            -(self.magnitude() as int)
        } else {
            self.magnitude() as int
        }
    }

    /// The bit pattern of zero.
    pub open spec fn spec_zero() -> Double {
        Double { bits: 0 }
    }

    /// The bit pattern of one.
    pub open spec fn spec_one() -> Double {
        Double { bits: 0x3ff0_0000_0000_0000 }
    }

    /// The number with the given bit pattern.
    pub fn from_bits(bits: u64) -> (d: Double)
        ensures
            d.bits == bits,
    {
        Double { bits }
    }

    /// The bit pattern of the number.
    pub fn to_bits(self) -> (bits: u64)
        ensures
            bits == self.bits,
    {
        self.bits
    }

    /// Positive zero.
    pub fn zero() -> (d: Double)
        ensures
            d == Double::spec_zero(),
    {
        Double { bits: 0 }
    }

    /// One.
    pub fn one() -> (d: Double)
        ensures
            d == Double::spec_one(),
    {
        Double { bits: 0x3ff0_0000_0000_0000 }
    }
}

/// The number of binary digits of `n`; zero has none.
pub open spec fn bit_length(n: nat) -> nat
    decreases n,
{
    if n == 0 {
        0
    } else {
        1 + bit_length(n / 2)
    }
}

/// `n / 2^d` rounded to the nearest integer, a tie going to the even one.
pub open spec fn round_half_even(n: nat, d: nat) -> nat {
    let q = n / pow2(d);
    let r = n % pow2(d);
    if 2 * r < pow2(d) || (2 * r == pow2(d) && q % 2 == 0) {
        q
    } else {
        q + 1
    }
}

/// `n` rounded to fifty-three significant binary digits, to nearest and ties
/// to even. With `n` in units of 2^-1074 this is the double nearest to `n`,
/// as long as that double is finite.
pub open spec fn round_to_double(n: nat) -> nat {
    if bit_length(n) <= 53 {
        n
    } else {
        let d = (bit_length(n) - 53) as nat;
        round_half_even(n, d) * pow2(d)
    }
}

/// `n`, or the largest `u32` if `n` is above it.
pub open spec fn saturated(n: nat) -> u32 {
    if n > u32::MAX {
        u32::MAX
    } else {
        n as u32
    }
}

/// The step that `speed` selects on a feature with `step_count` steps: the
/// double-precision product of the two, truncated toward zero and saturated.
/// NaN and every negative product give 0; infinity times zero is NaN.
pub open spec fn quantized(speed: Double, step_count: u32) -> u32 {
    if speed.is_nan() || speed.is_negative() {
        0
    } else if speed.is_infinite() {
        if step_count == 0 {
            0
        } else {
            u32::MAX
        }
    } else {
        saturated(round_to_double(speed.magnitude() * step_count as nat) / pow2(1074))
    }
}

proof fn lemma_bit_length_bounds(n: nat)
    requires
        n > 0,
    ensures
        bit_length(n) >= 1,
        pow2((bit_length(n) - 1) as nat) <= n < pow2(bit_length(n)),
    decreases n,
{
    lemma2_to64();
    if n == 1 {
        assert(bit_length(1) == 1 + bit_length(0));
    } else {
        let h = n / 2;
        lemma_bit_length_bounds(h);
        let k = bit_length(h);
        assert(bit_length(n) == 1 + k);
        lemma_pow2_unfold(k);
        lemma_pow2_unfold(k + 1);
    }
}

proof fn lemma_bit_length_monotonic(a: nat, b: nat)
    requires
        a <= b,
    ensures
        bit_length(a) <= bit_length(b),
    decreases b,
{
    if a > 0 {
        lemma_bit_length_monotonic(a / 2, b / 2);
    }
}

proof fn lemma_pow2_monotonic(a: nat, b: nat)
    requires
        a <= b,
    ensures
        pow2(a) <= pow2(b),
{
    if a < b {
        lemma_pow2_strictly_increases(a, b);
    }
}

proof fn lemma_bit_length_below(n: nat, k: nat)
    requires
        n < pow2(k),
    ensures
        bit_length(n) <= k,
{
    if n > 0 {
        lemma_bit_length_bounds(n);
        if bit_length(n) > k {
            lemma_pow2_monotonic(k, (bit_length(n) - 1) as nat);
        }
    }
}

proof fn lemma_bit_length_scaled(w: nat, s: nat)
    requires
        w > 0,
    ensures
        w * pow2(s) > 0,
        bit_length(w * pow2(s)) == bit_length(w) + s,
    decreases s,
{
    lemma_pow2_pos(s);
    assert(w * pow2(s) > 0) by (nonlinear_arith)
        requires
            w > 0,
            pow2(s) > 0,
    ;
    if s == 0 {
        lemma2_to64();
        assert(w * pow2(0) == w);
    } else {
        let t = (s - 1) as nat;
        lemma_bit_length_scaled(w, t);
        lemma_pow2_unfold(s);
        let x = w * pow2(t);
        assert(w * pow2(s) == 2 * x) by (nonlinear_arith)
            requires
                pow2(s) == 2 * pow2(t),
                x == w * pow2(t),
        ;
        assert((2 * x) / 2 == x);
        assert(bit_length(2 * x) == 1 + bit_length(x));
    }
}

/// The quotient and remainder of `w * t` by `p * t`.
proof fn lemma_div_mod_scaled(w: nat, p: nat, t: nat)
    requires
        p > 0,
        t > 0,
    ensures
        p * t > 0,
        (w * t) / (p * t) == w / p,
        (w * t) % (p * t) == (w % p) * t,
{
    let q = w / p;
    let r = w % p;
    lemma_fundamental_div_mod(w as int, p as int);
    assert(p * t > 0) by (nonlinear_arith)
        requires
            p > 0,
            t > 0,
    ;
    assert(w * t == q * (p * t) + r * t) by (nonlinear_arith)
        requires
            w == p * q + r,
    ;
    assert(0 <= r * t < p * t) by (nonlinear_arith)
        requires
            0 <= r < p,
            t > 0,
    ;
    lemma_fundamental_div_mod_converse((w * t) as int, (p * t) as int, q as int, (r * t) as int);
}

proof fn lemma_round_half_even_scaled(w: nat, d: nat, s: nat)
    ensures
        round_half_even(w * pow2(s), d + s) == round_half_even(w, d),
{
    let p = pow2(d);
    let t = pow2(s);
    lemma_pow2_pos(d);
    lemma_pow2_pos(s);
    lemma_pow2_adds(d, s);
    lemma_div_mod_scaled(w, p, t);
    let r = w % p;
    assert(2 * (r * t) < p * t <==> 2 * r < p) by (nonlinear_arith)
        requires
            t > 0,
    ;
    assert(2 * (r * t) == p * t <==> 2 * r == p) by (nonlinear_arith)
        requires
            t > 0,
    ;
}

proof fn lemma_round_half_even_exact(x: nat, d: nat)
    ensures
        round_half_even(x * pow2(d), d) == x,
{
    let p = pow2(d);
    lemma_pow2_pos(d);
    lemma_fundamental_div_mod_converse((x * p) as int, p as int, x as int, 0);
}

proof fn lemma_round_half_even_monotonic(a: nat, b: nat, d: nat)
    requires
        a <= b,
    ensures
        round_half_even(a, d) <= round_half_even(b, d),
{
    let p = pow2(d);
    lemma_pow2_pos(d);
    lemma_div_is_ordered(a as int, b as int, p as int);
    lemma_fundamental_div_mod(a as int, p as int);
    lemma_fundamental_div_mod(b as int, p as int);
    let qa = a / p;
    let qb = b / p;
    if qa == qb {
        assert(p * qa == p * qb);
        assert(a % p <= b % p);
    }
}

proof fn lemma_round_to_double_bounds(n: nat)
    requires
        n > 0,
    ensures
        pow2((bit_length(n) - 1) as nat) <= round_to_double(n) <= pow2(bit_length(n)),
{
    lemma_bit_length_bounds(n);
    let len = bit_length(n);
    if len > 53 {
        let d = (len - 53) as nat;
        let p = pow2(d);
        lemma_pow2_pos(d);
        lemma_pow2_adds(52, d);
        lemma_pow2_adds(53, d);
        assert(52 + d == len - 1);
        assert(53 + d == len);
        let q = n / p;
        // pow2(52) * p <= n < pow2(53) * p
        lemma_div_is_ordered((pow2(52) * p) as int, n as int, p as int);
        lemma_div_multiples_vanish(pow2(52) as int, p as int);
        assert((pow2(52) * p) / p == pow2(52)) by {
            lemma_mul_is_commutative(pow2(52) as int, p as int);
        }
        assert(q >= pow2(52));
        lemma_fundamental_div_mod(n as int, p as int);
        assert(q < pow2(53)) by (nonlinear_arith)
            requires
                n == p * q + n % p,
                n % p >= 0,
                n < pow2(53) * p,
                p > 0,
        ;
        let k = round_half_even(n, d);
        assert(pow2(52) <= k <= pow2(53));
        assert(pow2(52) * p <= k * p <= pow2(53) * p) by (nonlinear_arith)
            requires
                pow2(52) <= k <= pow2(53),
                p > 0,
        ;
    }
}

/// Rounding to double precision never reorders two numbers.
pub proof fn lemma_round_to_double_monotonic(a: nat, b: nat)
    requires
        a <= b,
    ensures
        round_to_double(a) <= round_to_double(b),
{
    if a == 0 {
        assert(bit_length(0) == 0);
    } else {
        lemma_bit_length_monotonic(a, b);
        lemma_round_to_double_bounds(a);
        lemma_round_to_double_bounds(b);
        let la = bit_length(a);
        let lb = bit_length(b);
        if la < lb {
            lemma_pow2_monotonic(la, (lb - 1) as nat);
        } else if la > 53 {
            let d = (la - 53) as nat;
            lemma_round_half_even_monotonic(a, b, d);
            lemma_pow2_pos(d);
            assert(round_half_even(a, d) * pow2(d) <= round_half_even(b, d) * pow2(d))
                by (nonlinear_arith)
                requires
                    round_half_even(a, d) <= round_half_even(b, d),
                    pow2(d) > 0,
            ;
        }
    }
}

/// Rounding to double precision commutes with multiplying by a power of two.
pub proof fn lemma_round_to_double_scaled(w: nat, s: nat)
    ensures
        round_to_double(w * pow2(s)) == round_to_double(w) * pow2(s),
{
    if w == 0 {
        assert(w * pow2(s) == 0);
        assert(bit_length(0) == 0);
        assert(round_to_double(0) * pow2(s) == 0);
    } else {
        lemma_bit_length_scaled(w, s);
        let len = bit_length(w);
        let n = w * pow2(s);
        if len + s <= 53 {
        } else if len <= 53 {
            let d = (len + s - 53) as nat;
            let e = (s - d) as nat;
            lemma_pow2_adds(e, d);
            let x = w * pow2(e);
            assert(x * pow2(d) == n) by (nonlinear_arith)
                requires
                    x == w * pow2(e),
                    n == w * pow2(s),
                    pow2(s) == pow2(e) * pow2(d),
            ;
            lemma_round_half_even_exact(x, d);
        } else {
            let d = (len - 53) as nat;
            lemma_round_half_even_scaled(w, d, s);
            lemma_pow2_adds(d, s);
            let k = round_half_even(w, d);
            assert(k * pow2(d + s) == (k * pow2(d)) * pow2(s)) by (nonlinear_arith)
                requires
                    pow2(d + s) == pow2(d) * pow2(s),
            ;
        }
    }
}

/// Two to the power `e`.
fn pow2_u128(e: u32) -> (p: u128)
    requires
        e <= 64,
    ensures
        p == pow2(e as nat),
{
    let mut p: u128 = 1;
    let mut i: u32 = 0;
    proof {
        lemma2_to64();
    }
    while i < e
        invariant
            i <= e <= 64,
            p == pow2(i as nat),
        decreases e - i,
    {
        proof {
            lemma2_to64();
            lemma_pow2_strictly_increases(i as nat, 64);
            lemma_pow2_unfold((i + 1) as nat);
        }
        p = p * 2;
        i = i + 1;
    }
    p
}

/// The number of binary digits of `x`.
fn bit_length_u128(x: u128) -> (len: u32)
    ensures
        len == bit_length(x as nat),
        len <= 128,
{
    proof {
        lemma2_to64();
        lemma_pow2_adds(64, 64);
        lemma_bit_length_below(x as nat, 128);
    }
    let mut v: u128 = x;
    let mut len: u32 = 0;
    while v > 0
        invariant
            bit_length(x as nat) == len + bit_length(v as nat),
            bit_length(x as nat) <= 128,
        decreases v,
    {
        v = v / 2;
        len = len + 1;
    }
    len
}

/// `w / 2^d` rounded to nearest, ties to even.
fn round_shift(w: u128, d: u32) -> (k: u128)
    requires
        1 <= d <= 64,
    ensures
        k == round_half_even(w as nat, d as nat),
{
    let p: u128 = pow2_u128(d);
    proof {
        lemma_pow2_pos((d - 1) as nat);
        lemma_pow2_unfold(d as nat);
        lemma_pow2_monotonic(d as nat, 64);
        lemma2_to64();
        assert(p >= 2);
    }
    let q: u128 = w / p;
    assert(q <= w / 2) by {
        lemma_div_is_ordered_by_denominator(w as int, 2, p as int);
    }
    let r: u128 = w % p;
    if 2 * r < p || (2 * r == p && q % 2 == 0) {
        q
    } else {
        q + 1
    }
}

/// Rounds a product of a significand and a step count to double precision:
/// the digits kept, and how many were rounded off.
fn round_product(product: u128) -> (r: (u128, u32))
    requires
        0 < product <= 0x1f_ffff_ffff_ffff * 0xffff_ffff,
    ensures
        round_to_double(product as nat) == r.0 * pow2(r.1 as nat),
        1 <= r.0 <= 0x20_0000_0000_0000,
        r.1 <= 32,
{
    let ghost w: nat = product as nat;
    let len: u32 = bit_length_u128(product);
    proof {
        lemma2_to64();
        lemma_pow2_adds(64, 21);
        lemma_pow2_adds(32, 21);
        lemma_pow2_adds(32, 20);
        assert(pow2(85) == 0x20_0000_0000_0000 * 0x1_0000_0000);
        assert(pow2(52) == 0x10_0000_0000_0000 && pow2(53) == 0x20_0000_0000_0000);
        lemma_bit_length_below(w, 85);
        lemma_bit_length_bounds(w);
        lemma_round_to_double_bounds(w);
    }
    if len > 53 {
        let dropped: u32 = len - 53;
        let kept: u128 = round_shift(product, dropped);
        proof {
            let d = dropped as nat;
            lemma_pow2_pos(d);
            lemma_pow2_adds(52, d);
            lemma_pow2_adds(53, d);
            assert(pow2(52) * pow2(d) <= kept * pow2(d) <= pow2(53) * pow2(d));
            assert(pow2(52) <= kept <= pow2(53)) by (nonlinear_arith)
                requires
                    pow2(52) * pow2(d) <= kept * pow2(d) <= pow2(53) * pow2(d),
                    pow2(d) > 0,
            ;
        }
        (kept, dropped)
    } else {
        proof {
            lemma_pow2_monotonic(len as nat, 53);
            assert(pow2(0) == 1);
            assert(product * pow2(0) == product) by (nonlinear_arith)
                requires
                    pow2(0) == 1,
            ;
        }
        (product, 0)
    }
}

/// The whole part of `kept * 2^up` units of 2^-1074, saturated.
fn whole_part(kept: u128, up: u64) -> (step: u32)
    requires
        1 <= kept <= 0x20_0000_0000_0000,
    ensures
        step == saturated(kept as nat * pow2(up as nat) / pow2(1074)),
{
    let ghost rounded: nat = kept as nat * pow2(up as nat);
    proof {
        lemma2_to64();
        lemma_pow2_pos(1074);
    }
    if up >= 1074 {
        let shift: u64 = up - 1074;
        proof {
            let t = pow2(shift as nat);
            lemma_pow2_adds(shift as nat, 1074);
            assert(rounded == (kept as nat * t) * pow2(1074)) by (nonlinear_arith)
                requires
                    rounded == (kept as nat) * pow2(up as nat),
                    pow2(up as nat) == t * pow2(1074),
            ;
            lemma_div_multiples_vanish((kept as nat * t) as int, pow2(1074) as int);
            lemma_mul_is_commutative((kept as nat * t) as int, pow2(1074) as int);
            assert(rounded / pow2(1074) == kept as nat * t);
        }
        if shift >= 32 {
            proof {
                lemma_pow2_monotonic(32, shift as nat);
                assert(kept as nat * pow2(shift as nat) >= 0x1_0000_0000) by (nonlinear_arith)
                    requires
                        kept >= 1,
                        pow2(shift as nat) >= 0x1_0000_0000,
                ;
            }
            u32::MAX
        } else {
            let t: u128 = pow2_u128(shift as u32);
            proof {
                lemma_pow2_monotonic(shift as nat, 31);
                assert(kept * t <= 0x20_0000_0000_0000 * 0x8000_0000) by (nonlinear_arith)
                    requires
                        kept <= 0x20_0000_0000_0000,
                        t <= 0x8000_0000,
                ;
            }
            let v: u128 = kept * t;
            if v > 0xffff_ffff {
                u32::MAX
            } else {
                v as u32
            }
        }
    } else {
        let shift: u64 = 1074 - up;
        proof {
            let t = pow2(shift as nat);
            let u = pow2(up as nat);
            lemma_pow2_adds(up as nat, shift as nat);
            lemma_pow2_pos(shift as nat);
            lemma_pow2_pos(up as nat);
            lemma_div_multiples_vanish_quotient(u as int, kept as int, t as int);
            assert(rounded == u * kept) by (nonlinear_arith)
                requires
                    rounded == (kept as nat) * u,
            ;
            assert(rounded / pow2(1074) == kept as nat / t);
        }
        if shift >= 54 {
            proof {
                lemma_pow2_monotonic(54, shift as nat);
                lemma_pow2_unfold(54);
                lemma_pow2_adds(32, 21);
                lemma_basic_div(kept as int, pow2(shift as nat) as int);
            }
            0
        } else {
            let t: u128 = pow2_u128(shift as u32);
            let v: u128 = kept / t;
            if v > 0xffff_ffff {
                u32::MAX
            } else {
                v as u32
            }
        }
    }
}

/// The step that `speed` selects on a feature with `step_count` steps.
pub fn quantize(speed: Double, step_count: u32) -> (step: u32)
    ensures
        step == quantized(speed, step_count),
{
    let bits: u64 = speed.bits;
    let negative: bool = bits >= 0x8000_0000_0000_0000;
    let exponent: u64 = (bits / 0x10_0000_0000_0000) % 0x800;
    let fraction: u64 = bits % 0x10_0000_0000_0000;
    if exponent == 2047 {
        if fraction != 0 || negative || step_count == 0 {
            return 0;
        }
        return u32::MAX;
    }
    if negative {
        return 0;
    }
    let significand: u64 = if exponent == 0 {
        fraction
    } else {
        fraction + 0x10_0000_0000_0000
    };
    let scale: u64 = if exponent == 0 {
        0
    } else {
        exponent - 1
    };
    assert(significand as u128 * step_count as u128 <= 0x1f_ffff_ffff_ffff * 0xffff_ffff)
        by (nonlinear_arith)
        requires
            significand <= 0x1f_ffff_ffff_ffff,
            step_count <= 0xffff_ffff,
    ;
    let product: u128 = significand as u128 * step_count as u128;
    let ghost w: nat = product as nat;
    let ghost s: nat = scale as nat;
    proof {
        assert(speed.magnitude() * step_count as nat == w * pow2(s)) by (nonlinear_arith)
            requires
                speed.magnitude() == significand as nat * pow2(s),
                w == significand as nat * step_count as nat,
        ;
        lemma_round_to_double_scaled(w, s);
    }
    if product == 0 {
        proof {
            assert(bit_length(0) == 0);
            assert(round_to_double(0) == 0);
            assert(round_to_double(w) * pow2(s) == 0) by (nonlinear_arith)
                requires
                    round_to_double(w) == 0,
            ;
            lemma_pow2_pos(1074);
        }
        return 0;
    }
    let (kept, dropped) = round_product(product);
    let up: u64 = dropped as u64 + scale;
    proof {
        lemma_pow2_adds(dropped as nat, s);
        assert(round_to_double(w) * pow2(s) == kept as nat * pow2(up as nat))
            by (nonlinear_arith)
            requires
                round_to_double(w) == kept as nat * pow2(dropped as nat),
                pow2(up as nat) == pow2(dropped as nat) * pow2(s),
        ;
    }
    whole_part(kept, up)
}

/// The order of the number line: `a` is at most `b`. Meaningful when neither
/// is NaN.
pub open spec fn at_most(a: Double, b: Double) -> bool {
    a.position() <= b.position()
}

proof fn lemma_finite_below_infinity(a: Double, b: Double)
    requires
        a.exponent_field() != 2047,
        b.is_infinite(),
    ensures
        a.magnitude() < b.magnitude(),
{
    let m = a.significand();
    let s = a.scale();
    lemma_pow2_monotonic(s, 2045);
    lemma_pow2_unfold(2046);
    lemma_pow2_pos(s);
    assert(m * pow2(s) < 0x10_0000_0000_0000 * (2 * pow2(2045))) by (nonlinear_arith)
        requires
            m < 0x20_0000_0000_0000,
            0 < pow2(s) <= pow2(2045),
    ;
}

/// A larger fraction never selects a smaller step: for a fixed step count the
/// step grows with the commanded value.
pub proof fn lemma_quantized_monotonic(a: Double, b: Double, step_count: u32)
    requires
        !a.is_nan(),
        !b.is_nan(),
        at_most(a, b),
    ensures
        quantized(a, step_count) <= quantized(b, step_count),
{
    let n = step_count as nat;
    if a.is_negative() {
    } else if b.is_negative() {
        // both are zero
        lemma_pow2_pos(a.scale());
        assert(a.magnitude() == 0);
        assert(a.significand() == 0) by (nonlinear_arith)
            requires
                a.significand() * pow2(a.scale()) == 0,
                pow2(a.scale()) > 0,
        ;
        assert(a.magnitude() * n == 0);
        assert(bit_length(0) == 0);
        lemma_pow2_pos(1074);
    } else if a.is_infinite() {
        if !b.is_infinite() {
            lemma_finite_below_infinity(b, a);
        }
    } else if b.is_infinite() {
        if step_count == 0 {
            assert(a.magnitude() * n == 0);
            assert(bit_length(0) == 0);
            lemma_pow2_pos(1074);
        }
    } else {
        let pa = a.magnitude() * n;
        let pb = b.magnitude() * n;
        assert(pa <= pb) by (nonlinear_arith)
            requires
                a.magnitude() <= b.magnitude(),
                pa == a.magnitude() * n,
                pb == b.magnitude() * n,
        ;
        lemma_round_to_double_monotonic(pa, pb);
        lemma_pow2_pos(1074);
        lemma_div_is_ordered(
            round_to_double(pa) as int,
            round_to_double(pb) as int,
            pow2(1074) as int,
        );
    }
}

/// A whole number of steps below 2^32 is a double, and quantizes to itself:
/// one selects the last step, zero the first.
pub proof fn lemma_quantized_of_zero_and_one(step_count: u32)
    ensures
        quantized(Double::spec_zero(), step_count) == 0,
        quantized(Double::spec_one(), step_count) == step_count,
{
    let n = step_count as nat;
    lemma_pow2_pos(1074);
    assert(bit_length(0) == 0);
    let zero = Double::spec_zero();
    assert(zero.magnitude() * n == 0) by (nonlinear_arith)
        requires
            zero.significand() == 0,
            zero.magnitude() == zero.significand() * pow2(zero.scale()),
    ;
    let one = Double::spec_one();
    assert(one.exponent_field() == 1023);
    assert(one.fraction_field() == 0);
    lemma2_to64();
    lemma_pow2_adds(32, 20);
    lemma_pow2_adds(52, 1022);
    assert(one.magnitude() == pow2(1074));
    lemma_round_to_double_scaled(n, 1074);
    assert(one.magnitude() * n == n * pow2(1074)) by (nonlinear_arith)
        requires
            one.magnitude() == pow2(1074),
    ;
    lemma_bit_length_below(n, 32);
    lemma_div_multiples_vanish(n as int, pow2(1074) as int);
}

/// Where the exact product is a whole number, the step is that number.
pub proof fn lemma_quantized_of_whole_product(speed: Double, step_count: u32, k: nat)
    requires
        !speed.is_nan(),
        !speed.is_negative(),
        !speed.is_infinite(),
        speed.magnitude() * step_count as nat == k * pow2(1074),
        k <= u32::MAX,
    ensures
        quantized(speed, step_count) == k,
{
    lemma2_to64();
    lemma_pow2_pos(1074);
    lemma_pow2_strictly_increases(32, 53);
    lemma_bit_length_below(k, 53);
    lemma_round_to_double_scaled(k, 1074);
    lemma_div_multiples_vanish(k as int, pow2(1074) as int);
    lemma_mul_is_commutative(k as int, pow2(1074) as int);
}

/// Between zero and one, the step never exceeds the step count.
pub proof fn lemma_quantized_within_step_count(speed: Double, step_count: u32)
    requires
        !speed.is_nan(),
        at_most(speed, Double::spec_one()),
    ensures
        quantized(speed, step_count) <= step_count,
{
    lemma_quantized_monotonic(speed, Double::spec_one(), step_count);
    lemma_quantized_of_zero_and_one(step_count);
    let one = Double::spec_one();
    assert(one.exponent_field() == 1023);
    assert(one.fraction_field() == 0);
}

/// The step is the whole part of the exact product, or one more where
/// rounding the product to double precision reaches the next whole number.
pub proof fn lemma_quantized_near_floor(speed: Double, step_count: u32)
    requires
        !speed.is_nan(),
        !speed.is_negative(),
        !speed.is_infinite(),
    ensures
        ({
            let floor = speed.magnitude() * step_count as nat / pow2(1074);
            saturated(floor) <= quantized(speed, step_count) <= saturated(floor + 1)
        }),
{
    let n = step_count as nat;
    let unit = pow2(1074);
    let exact = speed.magnitude() * n;
    let floor = exact / unit;
    lemma_pow2_pos(1074);
    lemma_fundamental_div_mod(exact as int, unit as int);
    lemma2_to64();
    if floor < 0x1_0000_0000 {
        // both whole numbers around the product are doubles
        lemma_pow2_strictly_increases(32, 53);
        lemma_bit_length_below(floor, 53);
        lemma_bit_length_below(floor + 1, 53);
        lemma_round_to_double_scaled(floor, 1074);
        lemma_round_to_double_scaled(floor + 1, 1074);
        assert(floor * unit <= exact <= (floor + 1) * unit) by (nonlinear_arith)
            requires
                exact == unit * floor + exact % unit,
                0 <= exact % unit < unit,
        ;
        lemma_round_to_double_monotonic(floor * unit, exact);
        lemma_round_to_double_monotonic(exact, (floor + 1) * unit);
        lemma_div_is_ordered((floor * unit) as int, round_to_double(exact) as int, unit as int);
        lemma_div_is_ordered(
            round_to_double(exact) as int,
            ((floor + 1) * unit) as int,
            unit as int,
        );
        lemma_div_multiples_vanish(floor as int, unit as int);
        lemma_div_multiples_vanish((floor + 1) as int, unit as int);
    } else {
        let top: nat = 0x1_0000_0000;
        lemma_pow2_strictly_increases(32, 53);
        lemma_bit_length_below(top, 53);
        lemma_round_to_double_scaled(top, 1074);
        assert(top * unit <= exact) by (nonlinear_arith)
            requires
                exact == unit * floor + exact % unit,
                0 <= exact % unit,
                floor >= top,
                unit > 0,
        ;
        lemma_round_to_double_monotonic(top * unit, exact);
        lemma_div_is_ordered((top * unit) as int, round_to_double(exact) as int, unit as int);
        lemma_div_multiples_vanish(top as int, unit as int);
    }
}

} // verus!

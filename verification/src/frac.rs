use vstd::prelude::*;

verus! {

/// Fixed-point scale of adjustment amounts: an amount of `AMOUNT_SCALE`
/// is one whole unit (a saturation step of 1.0, or one full hue turn
/// through the turn-scaled entry points).
pub const AMOUNT_SCALE: u64 = 1000;

/// Largest denominator a well-formed component fraction may carry.
pub const DEN_LIMIT: u64 = 1073741824;

/// Largest denominator an adjustment operator accepts, so that the
/// result's denominator (multiplied by `AMOUNT_SCALE`) stays within
/// `DEN_LIMIT`.
pub const DEN_HEADROOM: u64 = 1048576;

/// An exact non-negative rational number, the value `num / den`.
///
/// Colour components are kept as exact fractions so that conversions and
/// adjustments introduce no rounding at all until a channel is written
/// back as an 8-bit value.
#[derive(Clone, Copy, PartialEq, Eq, Structural, Debug)]
pub struct Frac {
    pub num: u64,
    pub den: u64,
}

/// A fraction holding a value in [0, 1]: saturation, lightness or value.
pub open spec fn unit_frac(f: Frac) -> bool {
    1 <= f.den <= DEN_LIMIT && f.num <= f.den
}

/// A fraction holding a hue in degrees, a value in [0, 360).
pub open spec fn hue_frac(f: Frac) -> bool {
    1 <= f.den <= DEN_LIMIT && f.num < 360 * f.den
}

/// The channel byte nearest to `255 * (n / d)`, for `0 <= n <= d`:
/// round half up, exact at the endpoints.
pub open spec fn round_channel(n: int, d: int) -> int {
    (510 * n + d) / (2 * d)
}

/// Rounding an exactly representable channel value gives that value back.
pub proof fn lemma_round_channel_exact(n: int, d: int, v: int)
    requires
        d > 0,
        255 * n == v * d,
        v >= 0,
    ensures
        round_channel(n, d) == v,
{
    assert(510 * n + d == (2 * v + 1) * d) by (nonlinear_arith)
        requires 255 * n == v * d;
    assert(((2 * v + 1) * d) / (2 * d) == v) by (nonlinear_arith)
        requires d > 0 && v >= 0;
}

/// Rounding is bounded by 255 whenever the value itself is at most 1.
pub proof fn lemma_round_channel_le_255(n: int, d: int)
    requires
        d > 0,
        0 <= n <= d,
    ensures
        0 <= round_channel(n, d) <= 255,
{
    assert(510 * n + d <= 511 * d) by (nonlinear_arith)
        requires d > 0 && n <= d;
    assert((511 * d) / (2 * d) == 255) by (nonlinear_arith)
        requires d > 0;
    assert((510 * n + d) / (2 * d) <= (511 * d) / (2 * d)) by {
        vstd::arithmetic::div_mod::lemma_div_is_ordered(510 * n + d, 511 * d, 2 * d);
    }
    assert((510 * n + d) / (2 * d) >= 0) by (nonlinear_arith)
        requires d > 0 && n >= 0;
}

/// Largest denominator `round_u8` accepts without its arithmetic
/// overflowing.
pub const ROUND_DEN_LIMIT: u128 = 0x10000000000000000000000000;

/// Round `255 * (n / d)` to the nearest byte, for `n / d` in [0, 1].
pub fn round_u8(n: u128, d: u128) -> (v: u8)
    requires
        0 < d <= ROUND_DEN_LIMIT,
        n <= d,
    ensures
        v as int == round_channel(n as int, d as int),
{
    proof {
        lemma_round_channel_le_255(n as int, d as int);
    }
    ((510 * n + d) / (2 * d)) as u8
}

/// Scaling numerator and denominator together does not change the result
/// of integer division.
pub proof fn lemma_div_scale(a: int, b: int, t: int)
    requires
        b > 0,
        t > 0,
        a >= 0,
    ensures
        (t * a) / (t * b) == a / b,
{
    let q = a / b;
    let r = a % b;
    vstd::arithmetic::div_mod::lemma_fundamental_div_mod(a, b);
    assert(t * a == q * (t * b) + t * r) by (nonlinear_arith)
        requires a == q * b + r;
    assert(0 <= t * r < t * b) by (nonlinear_arith)
        requires 0 <= r < b && t > 0;
    vstd::arithmetic::div_mod::lemma_fundamental_div_mod_converse(t * a, t * b, q, t * r);
}

/// Scaling dividend and divisor together scales the remainder.
pub proof fn lemma_mod_scale(a: int, b: int, t: int)
    requires
        b > 0,
        t > 0,
        a >= 0,
    ensures
        (t * a) % (t * b) == t * (a % b),
{
    let q = a / b;
    let r = a % b;
    vstd::arithmetic::div_mod::lemma_fundamental_div_mod(a, b);
    assert(t * a == q * (t * b) + t * r) by (nonlinear_arith)
        requires a == q * b + r;
    assert(0 <= t * r < t * b) by (nonlinear_arith)
        requires 0 <= r < b && t > 0;
    vstd::arithmetic::div_mod::lemma_fundamental_div_mod_converse(t * a, t * b, q, t * r);
}

/// Scaling numerator and denominator together does not change the rounded
/// channel value either.
pub proof fn lemma_round_channel_scale(n: int, d: int, t: int)
    requires
        d > 0,
        t > 0,
        n >= 0,
    ensures
        round_channel(t * n, t * d) == round_channel(n, d),
{
    assert(510 * (t * n) + t * d == t * (510 * n + d)) by (nonlinear_arith);
    assert(2 * (t * d) == t * (2 * d)) by (nonlinear_arith);
    lemma_div_scale(510 * n + d, 2 * d, t);
}

} // verus!

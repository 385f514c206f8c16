use vstd::prelude::*;
use crate::frac::{Frac, unit_frac, hue_frac, AMOUNT_SCALE, DEN_HEADROOM};
use crate::hsl::{Hsl, hsl_wf, hsl_headroom};
use crate::hsv::{Hsv, hsv_wf, hsv_headroom};
use vstd::arithmetic::div_mod::{lemma_fundamental_div_mod, lemma_fundamental_div_mod_converse,
    lemma_mod_multiples_vanish, lemma_small_mod, lemma_mod_add_multiples_vanish};

verus! {

/// The five adjustment operators.  Amounts are fixed-point values in
/// thousandths of the operator's natural unit: `1000` saturates by a
/// whole step, lightens to the top of the range, or (through the
/// turn-scaled hue entry points) rotates the hue by a full turn.
/// Negative amounts extrapolate the other way; saturation and lightness
/// are clamped to [0, 1], hue wraps modulo 360 degrees.
#[derive(Clone, Copy, PartialEq, Eq, Structural, Debug)]
pub enum Operation {
    Saturate,
    Desaturate,
    Lighten,
    Darken,
    ShiftHue,
}

/// A unit-range component moved by `amt` thousandths and clamped to
/// [0, 1].  A zero amount leaves the fraction untouched, and the clamped
/// endpoints collapse to the canonical fractions 0/1 and 1/1.
pub open spec fn spec_unit_add(f: Frac, amt: int) -> Frac {
    if amt == 0 {
        f
    } else {
        let p = f.num * AMOUNT_SCALE + amt * f.den;
        if p <= 0 {
            Frac { num: 0, den: 1 }
        } else if p >= f.den * AMOUNT_SCALE {
            Frac { num: 1, den: 1 }
        } else {
            Frac { num: p as u64, den: (f.den * AMOUNT_SCALE) as u64 }
        }
    }
}

pub fn unit_add(f: Frac, amt: i64) -> (r: Frac)
    requires
        unit_frac(f),
        f.den <= DEN_HEADROOM,
    ensures
        r == spec_unit_add(f, amt as int),
        unit_frac(r),
{
    if amt == 0 {
        return f;
    }
    proof {
        assert((f.num as i128) * 1000 <= (f.den as i128) * 1000) by (nonlinear_arith)
            requires f.num <= f.den;
        assert((amt as i128) * (f.den as i128) <= 9223372036854775807i128 * 1048576i128
            && (amt as i128) * (f.den as i128) >= (-9223372036854775807i128 - 1) * 1048576i128)
            by (nonlinear_arith)
            requires -9223372036854775807i128 - 1 <= amt as i128 <= 9223372036854775807i128
                && 0 < f.den as i128 <= 1048576i128;
    }
    let p: i128 = (f.num as i128) * (AMOUNT_SCALE as i128) + (amt as i128) * (f.den as i128);
    let top: i128 = (f.den as i128) * (AMOUNT_SCALE as i128);
    if p <= 0 {
        Frac { num: 0, den: 1 }
    } else if p >= top {
        Frac { num: 1, den: 1 }
    } else {
        Frac { num: p as u64, den: f.den * AMOUNT_SCALE }
    }
}

/// A hue moved by `deg` thousandths of a degree and brought back into
/// [0, 360) by the modulus; the denominator is refined by the fixed
/// point scale.  A zero shift leaves the hue untouched.
pub open spec fn spec_hue_shift(f: Frac, deg: int) -> Frac {
    if deg == 0 {
        f
    } else {
        let den1 = f.den * AMOUNT_SCALE;
        let p = (f.num * AMOUNT_SCALE + deg * f.den) % (360 * den1);
        Frac { num: p as u64, den: den1 as u64 }
    }
}

pub fn hue_shift(f: Frac, deg: i64) -> (r: Frac)
    requires
        hue_frac(f),
        f.den <= DEN_HEADROOM,
    ensures
        r == spec_hue_shift(f, deg as int),
        hue_frac(r),
{
    if deg == 0 {
        return f;
    }
    let den1: u64 = f.den * AMOUNT_SCALE;
    let modulus: u64 = 360 * den1;
    let base: u64 = f.num * AMOUNT_SCALE;
    let whole: u64 = 360 * AMOUNT_SCALE;
    let neg = deg < 0;
    let mag: u64 = if neg {
        ((-(deg + 1)) as u64) + 1
    } else {
        deg as u64
    };
    let mag_red: u64 = mag % whole;
    let shift: u64 = if neg {
        if mag_red == 0 {
            0
        } else {
            whole - mag_red
        }
    } else {
        mag_red
    };
    proof {
        assert(shift * f.den < 360000 * f.den) by (nonlinear_arith)
            requires shift < 360000u64 && f.den >= 1;
        assert(f.num * 1000 < 360 * (f.den * 1000)) by (nonlinear_arith)
            requires f.num < 360 * f.den;
    }
    let t: u64 = base + shift * f.den;
    let p: u64 = if t >= modulus {
        t - modulus
    } else {
        t
    };
    proof {
        assert(t < 2 * modulus);
        let di = deg as int;
        let fd = f.den as int;
        let q = mag as int / ((360 * 1000) as int);
        lemma_fundamental_div_mod(mag as int, (360 * 1000) as int);
        let qq: int = if neg { if mag_red == 0 { -q } else { -q - 1 } } else { q };
        assert(di == qq * (360 * 1000) + shift) by (nonlinear_arith)
            requires mag as int == q * (360 * 1000) + mag_red as int
                && (if neg { di == -(mag as int) } else { di == mag as int })
                && (if neg {
                        if mag_red == 0 { qq == -q && shift == 0 }
                        else { qq == -q - 1 && shift == 360 * 1000 - mag_red }
                    } else { qq == q && shift == mag_red });
        let x = f.num * 1000 + di * fd;
        assert(x == qq * (360 * (fd * 1000)) + t) by (nonlinear_arith)
            requires di == qq * (360 * 1000) + shift
                && t == f.num * 1000 + (shift as int) * fd
                && x == f.num * 1000 + di * fd;
        assert(x == (360 * (den1 as int)) * qq + t) by (nonlinear_arith)
            requires x == qq * (360 * (fd * 1000)) + t && den1 as int == fd * 1000;
        lemma_mod_multiples_vanish(qq, t as int, 360 * (den1 as int));
        assert(360 * (den1 as int) == modulus as int);
        if t >= modulus {
            lemma_mod_add_multiples_vanish(p as int, modulus as int);
            lemma_small_mod(p as nat, modulus as nat);
            assert(t as int % (360 * (den1 as int)) == p as int);
        } else {
            lemma_small_mod(t as nat, modulus as nat);
        }
        assert(x % (360 * (den1 as int)) == p as int);
    }
    Frac { num: p, den: den1 }
}

/// One adjustment applied to an HSL colour: the named component moves by
/// the amount, the other components are untouched.
pub open spec fn spec_apply_hsl(c: Hsl, op: Operation, amt: int) -> Hsl {
    match op {
        Operation::Saturate => Hsl { h: c.h, s: spec_unit_add(c.s, amt), l: c.l },
        Operation::Desaturate => Hsl { h: c.h, s: spec_unit_add(c.s, -amt), l: c.l },
        Operation::Lighten => Hsl { h: c.h, s: c.s, l: spec_unit_add(c.l, amt) },
        Operation::Darken => Hsl { h: c.h, s: c.s, l: spec_unit_add(c.l, -amt) },
        Operation::ShiftHue => Hsl { h: spec_hue_shift(c.h, amt * 360), s: c.s, l: c.l },
    }
}

pub fn apply_hsl(c: Hsl, op: Operation, amt: i32) -> (r: Hsl)
    requires
        hsl_wf(c),
        hsl_headroom(c),
    ensures
        r == spec_apply_hsl(c, op, amt as int),
        hsl_wf(r),
        amt == 0 ==> r == c,
{
    match op {
        Operation::Saturate => Hsl { h: c.h, s: unit_add(c.s, amt as i64), l: c.l },
        Operation::Desaturate => Hsl { h: c.h, s: unit_add(c.s, -(amt as i64)), l: c.l },
        Operation::Lighten => Hsl { h: c.h, s: c.s, l: unit_add(c.l, amt as i64) },
        Operation::Darken => Hsl { h: c.h, s: c.s, l: unit_add(c.l, -(amt as i64)) },
        Operation::ShiftHue => Hsl { h: hue_shift(c.h, (amt as i64) * 360), s: c.s, l: c.l },
    }
}

/// One adjustment applied to an HSV colour, in the same way.
pub open spec fn spec_apply_hsv(c: Hsv, op: Operation, amt: int) -> Hsv {
    match op {
        Operation::Saturate => Hsv { h: c.h, s: spec_unit_add(c.s, amt), v: c.v },
        Operation::Desaturate => Hsv { h: c.h, s: spec_unit_add(c.s, -amt), v: c.v },
        Operation::Lighten => Hsv { h: c.h, s: c.s, v: spec_unit_add(c.v, amt) },
        Operation::Darken => Hsv { h: c.h, s: c.s, v: spec_unit_add(c.v, -amt) },
        Operation::ShiftHue => Hsv { h: spec_hue_shift(c.h, amt * 360), s: c.s, v: c.v },
    }
}

pub fn apply_hsv(c: Hsv, op: Operation, amt: i32) -> (r: Hsv)
    requires
        hsv_wf(c),
        hsv_headroom(c),
    ensures
        r == spec_apply_hsv(c, op, amt as int),
        hsv_wf(r),
        amt == 0 ==> r == c,
{
    match op {
        Operation::Saturate => Hsv { h: c.h, s: unit_add(c.s, amt as i64), v: c.v },
        Operation::Desaturate => Hsv { h: c.h, s: unit_add(c.s, -(amt as i64)), v: c.v },
        Operation::Lighten => Hsv { h: c.h, s: c.s, v: unit_add(c.v, amt as i64) },
        Operation::Darken => Hsv { h: c.h, s: c.s, v: unit_add(c.v, -(amt as i64)) },
        Operation::ShiftHue => Hsv { h: hue_shift(c.h, (amt as i64) * 360), s: c.s, v: c.v },
    }
}

/// The operator a mode string selects.  The five documented names map to
/// their operators; any other string falls back to saturation, kept for
/// compatibility with string-keyed callers.
pub open spec fn spec_parse_operation(s: Seq<char>) -> Operation {
    if s == "desaturate"@ {
        Operation::Desaturate
    } else if s == "saturate"@ {
        Operation::Saturate
    } else if s == "lighten"@ {
        Operation::Lighten
    } else if s == "darken"@ {
        Operation::Darken
    } else if s == "shift_hue"@ {
        Operation::ShiftHue
    } else {
        Operation::Saturate
    }
}

/// Relies on str's PartialEq: two string slices compare equal exactly
/// when they consist of the same characters.
#[verifier::external_body]
fn str_eq(a: &str, b: &str) -> (r: bool)
    ensures
        r == (a@ == b@),
{
    a == b
}

pub fn parse_operation(mode: &str) -> (op: Operation)
    ensures
        op == spec_parse_operation(mode@),
{
    if str_eq(mode, "desaturate") {
        Operation::Desaturate
    } else if str_eq(mode, "saturate") {
        Operation::Saturate
    } else if str_eq(mode, "lighten") {
        Operation::Lighten
    } else if str_eq(mode, "darken") {
        Operation::Darken
    } else if str_eq(mode, "shift_hue") {
        Operation::ShiftHue
    } else {
        Operation::Saturate
    }
}

} // verus!

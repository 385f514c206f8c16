use vstd::prelude::*;
use crate::frac::{Frac, unit_frac, hue_frac, round_channel, round_u8, lemma_round_channel_le_255,
    DEN_HEADROOM};
use crate::hue::{spec_max3, spec_min3, spec_rgb_hue, sector_triple, max3, min3, rgb_hue};
use vstd::arithmetic::div_mod::{lemma_fundamental_div_mod_converse, lemma_basic_div,
    lemma_small_mod};
use crate::frac::{lemma_round_channel_exact, lemma_div_scale, lemma_round_channel_scale};

verus! {

/// A colour in the hue / saturation / lightness model: hue in degrees in
/// [0, 360), saturation and lightness in [0, 1], all exact fractions.
#[derive(Clone, Copy, PartialEq, Eq, Structural, Debug)]
pub struct Hsl {
    pub h: Frac,
    pub s: Frac,
    pub l: Frac,
}

pub open spec fn hsl_wf(c: Hsl) -> bool {
    hue_frac(c.h) && unit_frac(c.s) && unit_frac(c.l)
}

/// The denominators are small enough for an adjustment operator to
/// refine them further.
pub open spec fn hsl_headroom(c: Hsl) -> bool {
    c.h.den <= DEN_HEADROOM && c.s.den <= DEN_HEADROOM && c.l.den <= DEN_HEADROOM
}

/// The exact HSL representation of a gamma-encoded 8-bit RGB colour.
pub open spec fn spec_rgb_to_hsl(r: u8, g: u8, b: u8) -> Hsl {
    let mx = spec_max3(r as int, g as int, b as int);
    let mn = spec_min3(r as int, g as int, b as int);
    let c = mx - mn;
    Hsl {
        h: spec_rgb_hue(r, g, b),
        s: if c == 0 {
            Frac { num: 0, den: 1 }
        } else if mx + mn <= 255 {
            Frac { num: c as u64, den: (mx + mn) as u64 }
        } else {
            Frac { num: c as u64, den: (510 - mx - mn) as u64 }
        },
        l: Frac { num: (mx + mn) as u64, den: 510 },
    }
}

pub fn rgb_to_hsl(r: u8, g: u8, b: u8) -> (c: Hsl)
    ensures
        c == spec_rgb_to_hsl(r, g, b),
        hsl_wf(c),
        hsl_headroom(c),
{
    let mx = max3(r, g, b);
    let mn = min3(r, g, b);
    let ch: u64 = (mx - mn) as u64;
    let sum: u64 = mx as u64 + mn as u64;
    let h = rgb_hue(r, g, b);
    let s = if ch == 0 {
        Frac { num: 0, den: 1 }
    } else if sum <= 255 {
        Frac { num: ch, den: sum }
    } else {
        Frac { num: ch, den: 510 - sum }
    };
    let l = Frac { num: sum, den: 510 };
    Hsl { h, s, l }
}

/// The three rounded 8-bit channels of an HSL value given as six
/// integers (numerator and denominator of hue, saturation, lightness):
/// chroma, secondary component and base offset are formed as exact
/// fractions over a common denominator, and each channel is rounded
/// half-up to a byte.  For a well-formed input every channel value lies
/// in [0, 1], so no gamut clamping is needed.
pub open spec fn hsl_channels(hn: int, hd: int, sn: int, sd: int, ln: int, ld: int) -> (
    int,
    int,
    int,
) {
    let fden = 60 * hd;
    let k = hn / fden;
    let fnum = hn % fden;
    let anum = if 2 * ln <= ld {
        2 * ln
    } else {
        2 * (ld - ln)
    };
    let cfn = anum * sn;
    let xfn = if k % 2 == 0 {
        fnum
    } else {
        fden - fnum
    };
    let mnum = 2 * ln * sd - cfn;
    let dd = 120 * hd * ld * sd;
    let cterm = cfn * 120 * hd;
    let xterm = 2 * (cfn * xfn);
    let mterm = mnum * 60 * hd;
    let rgbn = if k == 0 {
        (cterm, xterm, 0int)
    } else if k == 1 {
        (xterm, cterm, 0int)
    } else if k == 2 {
        (0int, cterm, xterm)
    } else if k == 3 {
        (0int, xterm, cterm)
    } else if k == 4 {
        (xterm, 0int, cterm)
    } else {
        (cterm, 0int, xterm)
    };
    (
        round_channel(rgbn.0 + mterm, dd),
        round_channel(rgbn.1 + mterm, dd),
        round_channel(rgbn.2 + mterm, dd),
    )
}

/// The 8-bit RGB colour of an HSL value.
pub open spec fn spec_hsl_to_rgb(c: Hsl) -> (u8, u8, u8) {
    let t = hsl_channels(
        c.h.num as int,
        c.h.den as int,
        c.s.num as int,
        c.s.den as int,
        c.l.num as int,
        c.l.den as int,
    );
    (t.0 as u8, t.1 as u8, t.2 as u8)
}

pub fn hsl_to_rgb(c: Hsl) -> (rgb: (u8, u8, u8))
    requires
        hsl_wf(c),
    ensures
        rgb == spec_hsl_to_rgb(c),
{
    let fden: u64 = 60 * c.h.den;
    let k: u64 = c.h.num / fden;
    let fnum: u64 = c.h.num % fden;
    let anum: u64 = if 2 * c.l.num <= c.l.den {
        2 * c.l.num
    } else {
        2 * (c.l.den - c.l.num)
    };
    proof {
        assert(anum * c.s.num <= c.l.den * c.s.den) by (nonlinear_arith)
            requires anum <= c.l.den && c.s.num <= c.s.den && 0 <= anum && 0 <= c.s.num;
        assert(c.l.den * c.s.den <= 1073741824u64 * 1073741824u64) by (nonlinear_arith)
            requires 0 <= c.l.den <= 1073741824u64 && 0 <= c.s.den <= 1073741824u64;
        assert(2 * c.l.num * c.s.den <= 2 * (1073741824u64 * 1073741824u64)) by (nonlinear_arith)
            requires 0 <= c.l.num <= 1073741824u64 && 0 <= c.s.den <= 1073741824u64;
        assert(anum * c.s.num <= 2 * c.l.num * c.s.den) by (nonlinear_arith)
            requires anum <= 2 * c.l.num && c.s.num <= c.s.den && 0 <= anum && 0 <= c.s.num;
    }
    let cfn: u64 = anum * c.s.num;
    let xfn: u64 = if k % 2 == 0 {
        fnum
    } else {
        fden - fnum
    };
    let mnum: u64 = 2 * c.l.num * c.s.den - cfn;
    let hd128: u128 = c.h.den as u128;
    let ld128: u128 = c.l.den as u128;
    let sd128: u128 = c.s.den as u128;
    proof {
        assert(0 < (120 * hd128) * ld128 <= (120 * 0x40000000u128) * 0x40000000u128)
            by (nonlinear_arith)
            requires 0 < hd128 <= 0x40000000u128 && 0 < ld128 <= 0x40000000u128;
        assert(0 < 120 * hd128 * ld128 * sd128 <= ((120 * 0x40000000u128) * 0x40000000u128)
            * 0x40000000u128) by (nonlinear_arith)
            requires 0 < 120 * hd128 * ld128 <= (120 * 0x40000000u128) * 0x40000000u128
                && 0 < sd128 <= 0x40000000u128;
        assert((cfn as u128) * 120 * hd128 <= (0x1000000000000000u128 * 120) * 0x40000000u128)
            by (nonlinear_arith)
            requires cfn <= 0x1000000000000000u64 && 0 < hd128 <= 0x40000000u128;
        assert((cfn as u128) * (xfn as u128) <= 0x1000000000000000u128 * 0x1000000000u128)
            by (nonlinear_arith)
            requires cfn <= 0x1000000000000000u64 && xfn <= 0x1000000000u64;
        assert((mnum as u128) * 60 * hd128 <= (0x2000000000000000u128 * 60) * 0x40000000u128)
            by (nonlinear_arith)
            requires mnum <= 0x2000000000000000u64 && 0 < hd128 <= 0x40000000u128;
    }
    let dd: u128 = 120 * hd128 * ld128 * sd128;
    let cterm: u128 = (cfn as u128) * 120 * hd128;
    let xterm: u128 = 2 * ((cfn as u128) * (xfn as u128));
    let mterm: u128 = (mnum as u128) * 60 * hd128;
    proof {
        assert(cfn as u128 <= (2 * (ld128 - (c.l.num as u128))) * sd128) by (nonlinear_arith)
            requires cfn as u128 == (anum as u128) * (c.s.num as u128)
                && anum as u128 <= 2 * (ld128 - (c.l.num as u128))
                && c.s.num as u128 <= sd128 && c.l.num as u128 <= ld128;
        assert(cterm + mterm <= dd && xterm <= cterm) by (nonlinear_arith)
            requires cterm == (cfn as u128) * 120 * hd128
                && mterm == (mnum as u128) * 60 * hd128
                && dd == 120 * hd128 * ld128 * sd128
                && xterm == 2 * ((cfn as u128) * (xfn as u128))
                && mnum as u128 == 2 * (c.l.num as u128) * sd128 - (cfn as u128)
                && cfn as u128 <= (2 * (ld128 - (c.l.num as u128))) * sd128
                && 2 * (c.l.num as u128) * sd128 >= cfn as u128
                && c.l.num as u128 <= ld128
                && xfn as u128 <= 60 * hd128
                && 0 < hd128 && 0 < ld128 && 0 < sd128;
    }
    let (rn, gn, bn): (u128, u128, u128) = if k == 0 {
        (cterm, xterm, 0u128)
    } else if k == 1 {
        (xterm, cterm, 0u128)
    } else if k == 2 {
        (0u128, cterm, xterm)
    } else if k == 3 {
        (0u128, xterm, cterm)
    } else if k == 4 {
        (xterm, 0u128, cterm)
    } else {
        (cterm, 0u128, xterm)
    };
    let rr = round_u8(rn + mterm, dd);
    let gg = round_u8(gn + mterm, dd);
    let bb = round_u8(bn + mterm, dd);
    proof {
        lemma_round_channel_le_255((rn + mterm) as int, dd as int);
        lemma_round_channel_le_255((gn + mterm) as int, dd as int);
        lemma_round_channel_le_255((bn + mterm) as int, dd as int);
    }
    (rr, gg, bb)
}

/// Every RGB colour's HSL representation is well formed, with small
/// denominators.
pub proof fn lemma_rgb_to_hsl_wf(r: u8, g: u8, b: u8)
    ensures
        hsl_wf(spec_rgb_to_hsl(r, g, b)),
        hsl_headroom(spec_rgb_to_hsl(r, g, b)),
{
    crate::hue::lemma_rgb_hue_wf(r, g, b);
}

/// Scaling the hue fraction's numerator and denominator together does
/// not change the converted channels: every term over the common
/// denominator scales by the same factor, and the rounded quotients are
/// unchanged.
pub proof fn lemma_hsl_channels_hue_scale(
    t: int,
    hn: int,
    hd: int,
    sn: int,
    sd: int,
    ln: int,
    ld: int,
)
    requires
        t >= 1,
        hd >= 1,
        hn >= 0,
        0 <= sn <= sd,
        0 <= ln <= ld,
        1 <= sd,
        1 <= ld,
    ensures
        hsl_channels(t * hn, t * hd, sn, sd, ln, ld) == hsl_channels(hn, hd, sn, sd, ln, ld),
{
    let fden = 60 * hd;
    let k = hn / fden;
    let fnum = hn % fden;
    assert(60 * (t * hd) == t * fden) by (nonlinear_arith)
        requires fden == 60 * hd;
    lemma_div_scale(hn, fden, t);
    crate::frac::lemma_mod_scale(hn, fden, t);
    vstd::arithmetic::div_mod::lemma_mod_bound(hn, fden);
    let anum = if 2 * ln <= ld {
        2 * ln
    } else {
        2 * (ld - ln)
    };
    let cfn = anum * sn;
    let xfn = if k % 2 == 0 {
        fnum
    } else {
        fden - fnum
    };
    let mnum = 2 * ln * sd - cfn;
    let dd = 120 * hd * ld * sd;
    let cterm = cfn * 120 * hd;
    let xterm = 2 * (cfn * xfn);
    let mterm = mnum * 60 * hd;
    assert((t * hn) / (60 * (t * hd)) == k);
    assert((t * hn) % (60 * (t * hd)) == t * fnum);
    assert(60 * (t * hd) - t * fnum == t * (fden - fnum)) by (nonlinear_arith)
        requires 60 * (t * hd) == t * fden;
    assert(120 * (t * hd) * ld * sd == t * dd) by (nonlinear_arith)
        requires dd == 120 * hd * ld * sd;
    assert(cfn * 120 * (t * hd) == t * cterm) by (nonlinear_arith)
        requires cterm == cfn * 120 * hd;
    assert(2 * (cfn * (t * xfn)) == t * xterm) by (nonlinear_arith)
        requires xterm == 2 * (cfn * xfn);
    assert(mnum * 60 * (t * hd) == t * mterm) by (nonlinear_arith)
        requires mterm == mnum * 60 * hd;
    assert(dd > 0) by (nonlinear_arith)
        requires dd == 120 * hd * ld * sd && hd >= 1 && ld >= 1 && sd >= 1;
    assert(cfn >= 0) by (nonlinear_arith)
        requires anum >= 0 && sn >= 0 && cfn == anum * sn;
    assert(xterm >= 0) by (nonlinear_arith)
        requires cfn >= 0 && xfn >= 0 && xterm == 2 * (cfn * xfn);
    assert(mnum >= 0) by (nonlinear_arith)
        requires anum <= 2 * ln && sn <= sd && 0 <= sn && 0 <= anum && 0 <= sd
            && mnum == 2 * ln * sd - anum * sn;
    assert(cterm >= 0) by (nonlinear_arith)
        requires cfn >= 0 && hd >= 1 && cterm == cfn * 120 * hd;
    assert(mterm >= 0) by (nonlinear_arith)
        requires mnum >= 0 && hd >= 1 && mterm == mnum * 60 * hd;
    assert(t * (cterm + mterm) == t * cterm + t * mterm) by (nonlinear_arith);
    assert(t * (xterm + mterm) == t * xterm + t * mterm) by (nonlinear_arith);
    assert(t * (0 + mterm) == t * mterm) by (nonlinear_arith);
    lemma_round_channel_scale(cterm + mterm, dd, t);
    lemma_round_channel_scale(xterm + mterm, dd, t);
    lemma_round_channel_scale(0 + mterm, dd, t);
}

/// Core of the round-trip argument: an HSL value whose fractions have
/// the exact shape produced by `spec_rgb_to_hsl` for a chromatic colour
/// converts back to the sector's channel triple.  Here `cc` is the
/// chroma, `mnv` the smallest channel, `w` the offset of the middle
/// channel above the smallest, and `k` the hue sector.
proof fn lemma_hsl_channels_sector(hn: int, cc: int, sd: int, mnv: int, k: int, w: int)
    requires
        1 <= cc,
        0 <= mnv,
        mnv + cc <= 255,
        sd == if cc + 2 * mnv <= 255 { cc + 2 * mnv } else { 510 - cc - 2 * mnv },
        0 <= k <= 5,
        hn == k * (60 * cc) + (if k % 2 == 0 { 60 * w } else { 60 * cc - 60 * w }),
        if k % 2 == 0 { 0 <= w < cc } else { 0 < w <= cc },
    ensures
        hsl_channels(hn, cc, cc, sd, cc + 2 * mnv, 510) == sector_triple(k, cc + mnv, w + mnv, mnv),
{
    let fden = 60 * cc;
    let rem = if k % 2 == 0 { 60 * w } else { 60 * cc - 60 * w };
    lemma_fundamental_div_mod_converse(hn, fden, k, rem);
    let ln = cc + 2 * mnv;
    let anum = if 2 * ln <= 510 { 2 * ln } else { 2 * (510 - ln) };
    assert(anum == 2 * sd);
    let cfn = anum * cc;
    let xfn = if k % 2 == 0 { rem } else { fden - rem };
    assert(xfn == 60 * w);
    let mnum = 2 * ln * sd - cfn;
    assert(mnum == 4 * sd * mnv) by (nonlinear_arith)
        requires mnum == 2 * (cc + 2 * mnv) * sd - (2 * sd) * cc;
    let dd = 120 * cc * 510 * sd;
    let cterm = cfn * 120 * cc;
    let xterm = 2 * (cfn * xfn);
    let mterm = mnum * 60 * cc;
    assert(dd > 0) by (nonlinear_arith)
        requires dd == 120 * cc * 510 * sd && cc >= 1 && sd >= 1;
    assert(255 * (cterm + mterm) == (cc + mnv) * dd) by (nonlinear_arith)
        requires cterm == ((2 * sd) * cc) * 120 * cc && mterm == (4 * sd * mnv) * 60 * cc
            && dd == 120 * cc * 510 * sd;
    assert(255 * (xterm + mterm) == (w + mnv) * dd) by (nonlinear_arith)
        requires xterm == 2 * (((2 * sd) * cc) * (60 * w)) && mterm == (4 * sd * mnv) * 60 * cc
            && dd == 120 * cc * 510 * sd;
    assert(255 * (0 + mterm) == mnv * dd) by (nonlinear_arith)
        requires mterm == (4 * sd * mnv) * 60 * cc && dd == 120 * cc * 510 * sd;
    lemma_round_channel_exact(cterm + mterm, dd, cc + mnv);
    lemma_round_channel_exact(xterm + mterm, dd, w + mnv);
    lemma_round_channel_exact(0 + mterm, dd, mnv);
}

/// Converting an 8-bit RGB colour to HSL and back reproduces the colour
/// exactly: the conversions are exact rational inverses, and the final
/// rounding lands on the original bytes.
pub proof fn lemma_hsl_round_trip(r: u8, g: u8, b: u8)
    ensures
        spec_hsl_to_rgb(spec_rgb_to_hsl(r, g, b)) == (r, g, b),
{
    let ri = r as int;
    let gi = g as int;
    let bi = b as int;
    let mx = spec_max3(ri, gi, bi);
    let mn = spec_min3(ri, gi, bi);
    let cc = mx - mn;
    let m = spec_rgb_to_hsl(r, g, b);
    if cc == 0 {
        assert(ri == gi == bi);
        lemma_basic_div(0, 60);
        lemma_small_mod(0, 60);
        let anumg = if 2 * (2 * ri) <= 510 {
            2 * (2 * ri)
        } else {
            2 * (510 - 2 * ri)
        };
        let cfng = anumg * 0;
        assert(cfng == 0) by (nonlinear_arith)
            requires cfng == anumg * 0;
        let xfng = 0int % ((60 * 1) as int);
        assert(cfng * xfng == 0) by (nonlinear_arith)
            requires cfng == 0;
        assert(cfng * 120 * 1 == 0) by (nonlinear_arith)
            requires cfng == 0;
        lemma_round_channel_exact(240 * ri, 61200, ri);
        assert(hsl_channels(0, 1, 0, 1, 2 * ri, 510) == (ri, ri, ri));
    } else {
        let sd = m.s.den as int;
        assert(sd == if cc + 2 * mn <= 255 { cc + 2 * mn } else { 510 - cc - 2 * mn });
        if ri >= gi && ri >= bi {
            if gi >= bi {
                if gi - bi < cc {
                    lemma_hsl_channels_sector(60 * (gi - bi), cc, sd, bi, 0, gi - bi);
                } else {
                    lemma_hsl_channels_sector(60 * (gi - bi), cc, sd, bi, 1, cc);
                }
            } else {
                lemma_hsl_channels_sector(60 * (gi - bi + 6 * cc), cc, sd, gi, 5, bi - gi);
            }
        } else if gi >= bi {
            if bi < ri {
                lemma_hsl_channels_sector(60 * (bi - ri + 2 * cc), cc, sd, bi, 1, ri - bi);
            } else if bi - ri < cc {
                lemma_hsl_channels_sector(60 * (bi - ri + 2 * cc), cc, sd, ri, 2, bi - ri);
            } else {
                lemma_hsl_channels_sector(60 * (bi - ri + 2 * cc), cc, sd, ri, 3, cc);
            }
        } else {
            if ri < gi {
                lemma_hsl_channels_sector(60 * (ri - gi + 4 * cc), cc, sd, ri, 3, gi - ri);
            } else {
                lemma_hsl_channels_sector(60 * (ri - gi + 4 * cc), cc, sd, gi, 4, ri - gi);
            }
        }
    }
}

} // verus!

use vstd::prelude::*;
use crate::frac::{Frac, unit_frac, hue_frac, round_channel, round_u8, lemma_round_channel_le_255,
    lemma_round_channel_exact, DEN_HEADROOM};
use crate::hue::{spec_max3, spec_min3, spec_rgb_hue, sector_triple, max3, min3, rgb_hue};
use vstd::arithmetic::div_mod::{lemma_fundamental_div_mod_converse, lemma_basic_div,
    lemma_small_mod};

verus! {

/// A colour in the hue / saturation / value model: hue in degrees in
/// [0, 360), saturation and value in [0, 1], all exact fractions.
#[derive(Clone, Copy, PartialEq, Eq, Structural, Debug)]
pub struct Hsv {
    pub h: Frac,
    pub s: Frac,
    pub v: Frac,
}

pub open spec fn hsv_wf(c: Hsv) -> bool {
    hue_frac(c.h) && unit_frac(c.s) && unit_frac(c.v)
}

/// The denominators are small enough for an adjustment operator to
/// refine them further.
pub open spec fn hsv_headroom(c: Hsv) -> bool {
    c.h.den <= DEN_HEADROOM && c.s.den <= DEN_HEADROOM && c.v.den <= DEN_HEADROOM
}

/// The exact HSV representation of a gamma-encoded 8-bit RGB colour.
pub open spec fn spec_rgb_to_hsv(r: u8, g: u8, b: u8) -> Hsv {
    let mx = spec_max3(r as int, g as int, b as int);
    let mn = spec_min3(r as int, g as int, b as int);
    let c = mx - mn;
    Hsv {
        h: spec_rgb_hue(r, g, b),
        s: if mx == 0 {
            Frac { num: 0, den: 1 }
        } else {
            Frac { num: c as u64, den: mx as u64 }
        },
        v: Frac { num: mx as u64, den: 255 },
    }
}

pub fn rgb_to_hsv(r: u8, g: u8, b: u8) -> (c: Hsv)
    ensures
        c == spec_rgb_to_hsv(r, g, b),
        hsv_wf(c),
        hsv_headroom(c),
{
    let mx = max3(r, g, b);
    let mn = min3(r, g, b);
    let ch: u64 = (mx - mn) as u64;
    let h = rgb_hue(r, g, b);
    let s = if mx == 0 {
        Frac { num: 0, den: 1 }
    } else {
        Frac { num: ch, den: mx as u64 }
    };
    let v = Frac { num: mx as u64, den: 255 };
    Hsv { h, s, v }
}

/// The three rounded 8-bit channels of an HSV value given as six
/// integers (numerator and denominator of hue, saturation, value):
/// the chroma is value times saturation, the base offset is value minus
/// chroma, and each channel is rounded half-up to a byte.
pub open spec fn hsv_channels(hn: int, hd: int, sn: int, sd: int, vn: int, vd: int) -> (
    int,
    int,
    int,
) {
    let fden = 60 * hd;
    let k = hn / fden;
    let fnum = hn % fden;
    let cfn = vn * sn;
    let xfn = if k % 2 == 0 {
        fnum
    } else {
        fden - fnum
    };
    let mnum = vn * (sd - sn);
    let dd = 60 * hd * vd * sd;
    let cterm = cfn * 60 * hd;
    let xterm = cfn * xfn;
    let mterm = mnum * 60 * hd;
    let rgbn = if k == 0 {
        (cterm, xterm, 0int)
    } else if k == 1 {
        (xterm, cterm, 0int)
    } else if k == 2 {
        (0int, cterm, xterm)
    } else if k == 3 {
        (0int, xterm, cterm)
    } else if k == 4 {
        (xterm, 0int, cterm)
    } else {
        (cterm, 0int, xterm)
    };
    (
        round_channel(rgbn.0 + mterm, dd),
        round_channel(rgbn.1 + mterm, dd),
        round_channel(rgbn.2 + mterm, dd),
    )
}

/// The 8-bit RGB colour of an HSV value.
pub open spec fn spec_hsv_to_rgb(c: Hsv) -> (u8, u8, u8) {
    let t = hsv_channels(
        c.h.num as int,
        c.h.den as int,
        c.s.num as int,
        c.s.den as int,
        c.v.num as int,
        c.v.den as int,
    );
    (t.0 as u8, t.1 as u8, t.2 as u8)
}

pub fn hsv_to_rgb(c: Hsv) -> (rgb: (u8, u8, u8))
    requires
        hsv_wf(c),
    ensures
        rgb == spec_hsv_to_rgb(c),
{
    let fden: u64 = 60 * c.h.den;
    let k: u64 = c.h.num / fden;
    let fnum: u64 = c.h.num % fden;
    proof {
        assert(c.v.num * c.s.num <= c.v.den * c.s.den) by (nonlinear_arith)
            requires c.v.num <= c.v.den && c.s.num <= c.s.den && 0 <= c.v.num && 0 <= c.s.num;
        assert(c.v.den * c.s.den <= 1073741824u64 * 1073741824u64) by (nonlinear_arith)
            requires 0 <= c.v.den <= 1073741824u64 && 0 <= c.s.den <= 1073741824u64;
        assert(c.v.num * (c.s.den - c.s.num) <= c.v.den * c.s.den) by (nonlinear_arith)
            requires c.v.num <= c.v.den && 0 <= c.s.num <= c.s.den && 0 <= c.v.num;
    }
    let cfn: u64 = c.v.num * c.s.num;
    let xfn: u64 = if k % 2 == 0 {
        fnum
    } else {
        fden - fnum
    };
    let mnum: u64 = c.v.num * (c.s.den - c.s.num);
    let hd128: u128 = c.h.den as u128;
    let vd128: u128 = c.v.den as u128;
    let sd128: u128 = c.s.den as u128;
    proof {
        assert(0 < (60 * hd128) * vd128 <= (60 * 0x40000000u128) * 0x40000000u128)
            by (nonlinear_arith)
            requires 0 < hd128 <= 0x40000000u128 && 0 < vd128 <= 0x40000000u128;
        assert(0 < 60 * hd128 * vd128 * sd128 <= ((60 * 0x40000000u128) * 0x40000000u128)
            * 0x40000000u128) by (nonlinear_arith)
            requires 0 < 60 * hd128 * vd128 <= (60 * 0x40000000u128) * 0x40000000u128
                && 0 < sd128 <= 0x40000000u128;
        assert((cfn as u128) * 60 * hd128 <= (0x1000000000000000u128 * 60) * 0x40000000u128)
            by (nonlinear_arith)
            requires cfn <= 0x1000000000000000u64 && 0 < hd128 <= 0x40000000u128;
        assert((cfn as u128) * (xfn as u128) <= 0x1000000000000000u128 * 0x1000000000u128)
            by (nonlinear_arith)
            requires cfn <= 0x1000000000000000u64 && xfn <= 0x1000000000u64;
        assert((mnum as u128) * 60 * hd128 <= (0x1000000000000000u128 * 60) * 0x40000000u128)
            by (nonlinear_arith)
            requires mnum <= 0x1000000000000000u64 && 0 < hd128 <= 0x40000000u128;
    }
    let dd: u128 = 60 * hd128 * vd128 * sd128;
    let cterm: u128 = (cfn as u128) * 60 * hd128;
    let xterm: u128 = (cfn as u128) * (xfn as u128);
    let mterm: u128 = (mnum as u128) * 60 * hd128;
    proof {
        assert(cterm + mterm <= dd && xterm <= cterm) by (nonlinear_arith)
            requires cterm == (cfn as u128) * 60 * hd128
                && mterm == (mnum as u128) * 60 * hd128
                && dd == 60 * hd128 * vd128 * sd128
                && xterm == (cfn as u128) * (xfn as u128)
                && cfn as u128 == (c.v.num as u128) * (c.s.num as u128)
                && mnum as u128 == (c.v.num as u128) * (sd128 - (c.s.num as u128))
                && c.v.num as u128 <= vd128
                && c.s.num as u128 <= sd128
                && xfn as u128 <= 60 * hd128
                && 0 < hd128 && 0 < vd128 && 0 < sd128;
    }
    let (rn, gn, bn): (u128, u128, u128) = if k == 0 {
        (cterm, xterm, 0u128)
    } else if k == 1 {
        (xterm, cterm, 0u128)
    } else if k == 2 {
        (0u128, cterm, xterm)
    } else if k == 3 {
        (0u128, xterm, cterm)
    } else if k == 4 {
        (xterm, 0u128, cterm)
    } else {
        (cterm, 0u128, xterm)
    };
    let rr = round_u8(rn + mterm, dd);
    let gg = round_u8(gn + mterm, dd);
    let bb = round_u8(bn + mterm, dd);
    proof {
        lemma_round_channel_le_255((rn + mterm) as int, dd as int);
        lemma_round_channel_le_255((gn + mterm) as int, dd as int);
        lemma_round_channel_le_255((bn + mterm) as int, dd as int);
    }
    (rr, gg, bb)
}

/// Every RGB colour's HSV representation is well formed, with small
/// denominators.
pub proof fn lemma_rgb_to_hsv_wf(r: u8, g: u8, b: u8)
    ensures
        hsv_wf(spec_rgb_to_hsv(r, g, b)),
        hsv_headroom(spec_rgb_to_hsv(r, g, b)),
{
    crate::hue::lemma_rgb_hue_wf(r, g, b);
}

/// Scaling the hue fraction's numerator and denominator together does
/// not change the converted channels, exactly as for HSL.
pub proof fn lemma_hsv_channels_hue_scale(
    t: int,
    hn: int,
    hd: int,
    sn: int,
    sd: int,
    vn: int,
    vd: int,
)
    requires
        t >= 1,
        hd >= 1,
        hn >= 0,
        0 <= sn <= sd,
        0 <= vn <= vd,
        1 <= sd,
        1 <= vd,
    ensures
        hsv_channels(t * hn, t * hd, sn, sd, vn, vd) == hsv_channels(hn, hd, sn, sd, vn, vd),
{
    let fden = 60 * hd;
    let k = hn / fden;
    let fnum = hn % fden;
    assert(60 * (t * hd) == t * fden) by (nonlinear_arith)
        requires fden == 60 * hd;
    crate::frac::lemma_div_scale(hn, fden, t);
    crate::frac::lemma_mod_scale(hn, fden, t);
    vstd::arithmetic::div_mod::lemma_mod_bound(hn, fden);
    let cfn = vn * sn;
    let xfn = if k % 2 == 0 {
        fnum
    } else {
        fden - fnum
    };
    let mnum = vn * (sd - sn);
    let dd = 60 * hd * vd * sd;
    let cterm = cfn * 60 * hd;
    let xterm = cfn * xfn;
    let mterm = mnum * 60 * hd;
    assert((t * hn) / (60 * (t * hd)) == k);
    assert((t * hn) % (60 * (t * hd)) == t * fnum);
    assert(60 * (t * hd) - t * fnum == t * (fden - fnum)) by (nonlinear_arith)
        requires 60 * (t * hd) == t * fden;
    assert(60 * (t * hd) * vd * sd == t * dd) by (nonlinear_arith)
        requires dd == 60 * hd * vd * sd;
    assert(cfn * 60 * (t * hd) == t * cterm) by (nonlinear_arith)
        requires cterm == cfn * 60 * hd;
    assert(cfn * (t * xfn) == t * xterm) by (nonlinear_arith)
        requires xterm == cfn * xfn;
    assert(mnum * 60 * (t * hd) == t * mterm) by (nonlinear_arith)
        requires mterm == mnum * 60 * hd;
    assert(dd > 0) by (nonlinear_arith)
        requires dd == 60 * hd * vd * sd && hd >= 1 && vd >= 1 && sd >= 1;
    assert(cfn >= 0) by (nonlinear_arith)
        requires vn >= 0 && sn >= 0 && cfn == vn * sn;
    assert(xterm >= 0) by (nonlinear_arith)
        requires cfn >= 0 && xfn >= 0 && xterm == cfn * xfn;
    assert(mnum >= 0) by (nonlinear_arith)
        requires vn >= 0 && sn <= sd && mnum == vn * (sd - sn);
    assert(cterm >= 0) by (nonlinear_arith)
        requires cfn >= 0 && hd >= 1 && cterm == cfn * 60 * hd;
    assert(mterm >= 0) by (nonlinear_arith)
        requires mnum >= 0 && hd >= 1 && mterm == mnum * 60 * hd;
    assert(t * (cterm + mterm) == t * cterm + t * mterm) by (nonlinear_arith);
    assert(t * (xterm + mterm) == t * xterm + t * mterm) by (nonlinear_arith);
    assert(t * (0 + mterm) == t * mterm) by (nonlinear_arith);
    crate::frac::lemma_round_channel_scale(cterm + mterm, dd, t);
    crate::frac::lemma_round_channel_scale(xterm + mterm, dd, t);
    crate::frac::lemma_round_channel_scale(0 + mterm, dd, t);
}

/// Core of the round-trip argument for HSV, in the same terms as the
/// HSL one: `cc` is the chroma, `mxv` and `mnv` the largest and smallest
/// channels, `w` the offset of the middle channel above the smallest and
/// `k` the hue sector.
proof fn lemma_hsv_channels_sector(hn: int, cc: int, mxv: int, mnv: int, k: int, w: int)
    requires
        1 <= cc,
        0 <= mnv,
        mxv == cc + mnv,
        mxv <= 255,
        0 <= k <= 5,
        hn == k * (60 * cc) + (if k % 2 == 0 { 60 * w } else { 60 * cc - 60 * w }),
        if k % 2 == 0 { 0 <= w < cc } else { 0 < w <= cc },
    ensures
        hsv_channels(hn, cc, cc, mxv, mxv, 255) == sector_triple(k, mxv, w + mnv, mnv),
{
    let fden = 60 * cc;
    let rem = if k % 2 == 0 { 60 * w } else { 60 * cc - 60 * w };
    lemma_fundamental_div_mod_converse(hn, fden, k, rem);
    let cfn = mxv * cc;
    let xfn = if k % 2 == 0 { rem } else { fden - rem };
    assert(xfn == 60 * w);
    let mnum = mxv * (mxv - cc);
    assert(mnum == mxv * mnv);
    let dd = 60 * cc * 255 * mxv;
    let cterm = cfn * 60 * cc;
    let xterm = cfn * xfn;
    let mterm = mnum * 60 * cc;
    assert(dd > 0) by (nonlinear_arith)
        requires dd == 60 * cc * 255 * mxv && cc >= 1 && mxv >= 1;
    assert(255 * (cterm + mterm) == mxv * dd) by (nonlinear_arith)
        requires cterm == (mxv * cc) * 60 * cc && mterm == (mxv * mnv) * 60 * cc
            && dd == 60 * cc * 255 * mxv && mxv == cc + mnv;
    assert(255 * (xterm + mterm) == (w + mnv) * dd) by (nonlinear_arith)
        requires xterm == (mxv * cc) * (60 * w) && mterm == (mxv * mnv) * 60 * cc
            && dd == 60 * cc * 255 * mxv;
    assert(255 * (0 + mterm) == mnv * dd) by (nonlinear_arith)
        requires mterm == (mxv * mnv) * 60 * cc && dd == 60 * cc * 255 * mxv;
    lemma_round_channel_exact(cterm + mterm, dd, mxv);
    lemma_round_channel_exact(xterm + mterm, dd, w + mnv);
    lemma_round_channel_exact(0 + mterm, dd, mnv);
}

/// Converting an 8-bit RGB colour to HSV and back reproduces the colour
/// exactly.
pub proof fn lemma_hsv_round_trip(r: u8, g: u8, b: u8)
    ensures
        spec_hsv_to_rgb(spec_rgb_to_hsv(r, g, b)) == (r, g, b),
{
    let ri = r as int;
    let gi = g as int;
    let bi = b as int;
    let mx = spec_max3(ri, gi, bi);
    let mn = spec_min3(ri, gi, bi);
    let cc = mx - mn;
    let m = spec_rgb_to_hsv(r, g, b);
    if cc == 0 {
        assert(ri == gi == bi);
        lemma_basic_div(0, 60);
        lemma_small_mod(0, 60);
        if mx == 0 {
            let cfng = 0int * 0;
            assert(cfng == 0) by (nonlinear_arith)
                requires cfng == 0int * 0;
            let xfng = 0int % ((60 * 1) as int);
            assert(cfng * xfng == 0) by (nonlinear_arith)
                requires cfng == 0;
            assert(cfng * 60 * 1 == 0) by (nonlinear_arith)
                requires cfng == 0;
            let mnumg = 0int * (1 - 0);
            assert(mnumg == 0) by (nonlinear_arith)
                requires mnumg == 0int * (1 - 0);
            assert(mnumg * 60 * 1 == 0) by (nonlinear_arith)
                requires mnumg == 0;
            lemma_round_channel_exact(0int, 15300int, 0int);
            assert(round_channel(cfng * 60 * 1 + mnumg * 60 * 1, (60 * 1 * 255 * 1) as int) == 0);
            assert(round_channel(cfng * xfng + mnumg * 60 * 1, (60 * 1 * 255 * 1) as int) == 0);
            assert(hsv_channels(0, 1, 0, 1, 0, 255) == (0int, 0int, 0int));
        } else {
            assert(mx >= 1);
            let cfng = mx * 0;
            assert(cfng == 0) by (nonlinear_arith)
                requires cfng == mx * 0;
            let xfng = 0int % ((60 * 1) as int);
            assert(cfng * xfng == 0) by (nonlinear_arith)
                requires cfng == 0;
            assert(cfng * 60 * 1 == 0) by (nonlinear_arith)
                requires cfng == 0;
            let mnumg = mx * (mx - 0);
            let ddg = 60 * 1 * 255 * mx;
            assert(ddg > 0) by (nonlinear_arith)
                requires ddg == 60 * 1 * 255 * mx && mx >= 1;
            assert(255 * (mnumg * 60 * 1) == mx * ddg) by (nonlinear_arith)
                requires mnumg == mx * (mx - 0) && ddg == 60 * 1 * 255 * mx;
            lemma_round_channel_exact(mnumg * 60 * 1, ddg, mx);
            assert(hsv_channels(0, 1, 0, mx, mx, 255) == (ri, ri, ri));
        }
    } else {
        if ri >= gi && ri >= bi {
            if gi >= bi {
                if gi - bi < cc {
                    lemma_hsv_channels_sector(60 * (gi - bi), cc, mx, bi, 0, gi - bi);
                } else {
                    lemma_hsv_channels_sector(60 * (gi - bi), cc, mx, bi, 1, cc);
                }
            } else {
                lemma_hsv_channels_sector(60 * (gi - bi + 6 * cc), cc, mx, gi, 5, bi - gi);
            }
        } else if gi >= bi {
            if bi < ri {
                lemma_hsv_channels_sector(60 * (bi - ri + 2 * cc), cc, mx, bi, 1, ri - bi);
            } else if bi - ri < cc {
                lemma_hsv_channels_sector(60 * (bi - ri + 2 * cc), cc, mx, ri, 2, bi - ri);
            } else {
                lemma_hsv_channels_sector(60 * (bi - ri + 2 * cc), cc, mx, ri, 3, cc);
            }
        } else {
            if ri < gi {
                lemma_hsv_channels_sector(60 * (ri - gi + 4 * cc), cc, mx, ri, 3, gi - ri);
            } else {
                lemma_hsv_channels_sector(60 * (ri - gi + 4 * cc), cc, mx, gi, 4, ri - gi);
            }
        }
    }
}

} // verus!

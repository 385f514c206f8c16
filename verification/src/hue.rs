use vstd::prelude::*;
use crate::frac::Frac;
use crate::frac::hue_frac;

verus! {

pub open spec fn spec_max3(r: int, g: int, b: int) -> int {
    if r >= g && r >= b {
        r
    } else if g >= b {
        g
    } else {
        b
    }
}

pub open spec fn spec_min3(r: int, g: int, b: int) -> int {
    if r <= g && r <= b {
        r
    } else if g <= b {
        g
    } else {
        b
    }
}

/// The hue of an 8-bit RGB colour as an exact fraction of degrees in
/// [0, 360): the usual six-sector formula, with denominator equal to the
/// chroma (largest minus smallest channel).  An achromatic colour takes
/// hue 0.
pub open spec fn spec_rgb_hue(r: u8, g: u8, b: u8) -> Frac {
    let ri = r as int;
    let gi = g as int;
    let bi = b as int;
    let c = spec_max3(ri, gi, bi) - spec_min3(ri, gi, bi);
    if c == 0 {
        Frac { num: 0, den: 1 }
    } else if ri >= gi && ri >= bi {
        if gi >= bi {
            Frac { num: (60 * (gi - bi)) as u64, den: c as u64 }
        } else {
            Frac { num: (60 * (gi - bi + 6 * c)) as u64, den: c as u64 }
        }
    } else if gi >= bi {
        Frac { num: (60 * (bi - ri + 2 * c)) as u64, den: c as u64 }
    } else {
        Frac { num: (60 * (ri - gi + 4 * c)) as u64, den: c as u64 }
    }
}

/// The channel triple a hue sector lays out: the largest channel value,
/// the middle one and the smallest one, placed in the sector's order.
pub open spec fn sector_triple(k: int, top: int, mid: int, bot: int) -> (int, int, int) {
    if k == 0 {
        (top, mid, bot)
    } else if k == 1 {
        (mid, top, bot)
    } else if k == 2 {
        (bot, top, mid)
    } else if k == 3 {
        (bot, mid, top)
    } else if k == 4 {
        (mid, bot, top)
    } else {
        (top, bot, mid)
    }
}

pub fn max3(r: u8, g: u8, b: u8) -> (m: u8)
    ensures
        m as int == spec_max3(r as int, g as int, b as int),
{
    if r >= g && r >= b {
        r
    } else if g >= b {
        g
    } else {
        b
    }
}

pub fn min3(r: u8, g: u8, b: u8) -> (m: u8)
    ensures
        m as int == spec_min3(r as int, g as int, b as int),
{
    if r <= g && r <= b {
        r
    } else if g <= b {
        g
    } else {
        b
    }
}

/// The hue fraction of any RGB colour is well formed, with a small
/// denominator.
pub proof fn lemma_rgb_hue_wf(r: u8, g: u8, b: u8)
    ensures
        hue_frac(spec_rgb_hue(r, g, b)),
        spec_rgb_hue(r, g, b).den <= 255,
{
}

/// Compute the exact hue fraction of an RGB colour.
pub fn rgb_hue(r: u8, g: u8, b: u8) -> (h: Frac)
    ensures
        h == spec_rgb_hue(r, g, b),
        hue_frac(h),
        h.den <= 255,
{
    let mx = max3(r, g, b);
    let mn = min3(r, g, b);
    let c: u64 = (mx - mn) as u64;
    if c == 0 {
        Frac { num: 0, den: 1 }
    } else if r >= g && r >= b {
        if g >= b {
            assert(g - b <= c);
            Frac { num: 60 * ((g - b) as u64), den: c }
        } else {
            assert(b as int - g as int <= c);
            Frac { num: 60 * ((g as u64 + 6 * c) - (b as u64)), den: c }
        }
    } else if g >= b {
        assert(r as int - b as int <= c);
        Frac { num: 60 * ((b as u64 + 2 * c) - (r as u64)), den: c }
    } else {
        assert(g as int - r as int <= c);
        Frac { num: 60 * ((r as u64 + 4 * c) - (g as u64)), den: c }
    }
}

} // verus!

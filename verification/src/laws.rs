use vstd::prelude::*;
use crate::adjust::Operation;
use crate::engine::{spec_hsl_quad, spec_hsv_quad};
use crate::frac::{Frac, lemma_round_channel_exact};
use crate::hsl::{spec_rgb_to_hsl, hsl_channels, lemma_hsl_round_trip,
    lemma_hsl_channels_hue_scale, lemma_rgb_to_hsl_wf};
use crate::hsv::{spec_rgb_to_hsv, lemma_hsv_round_trip, lemma_hsv_channels_hue_scale,
    lemma_rgb_to_hsv_wf};
use crate::engine::{hsl_transformed, hsv_transformed};
use vstd::arithmetic::div_mod::{lemma_mod_add_multiples_vanish, lemma_small_mod, lemma_mod_bound,
    lemma_fundamental_div_mod, lemma_fundamental_div_mod_converse, lemma_div_is_ordered};

verus! {

/// When the per-pixel transform fixes every colour triple, the engine's
/// buffer relation collapses to equality of the whole buffers.
proof fn lemma_hsl_identity_buffer(pre: Seq<u8>, post: Seq<u8>, op: Operation, amt: int)
    requires
        hsl_transformed(pre, post, op, amt),
        pre.len() % 4 == 0,
        forall|r: u8, g: u8, b: u8| #[trigger] spec_hsl_quad(r, g, b, op, amt) == (r, g, b),
    ensures
        post =~= pre,
{
    assert forall|j: int| 0 <= j < pre.len() implies post[j] == pre[j] by {
        let p = j / 4;
        lemma_fundamental_div_mod(j, 4);
        let k = pre.len() as int / 4;
        lemma_fundamental_div_mod_converse(pre.len() as int, 4, k, 0);
        lemma_fundamental_div_mod_converse(pre.len() as int - 1, 4, k - 1, 3);
        lemma_div_is_ordered(j, pre.len() as int - 1, 4);
        assert(4 * p + 3 < pre.len());
        let t = spec_hsl_quad(pre[4 * p], pre[4 * p + 1], pre[4 * p + 2], op, amt);
        assert(t == (pre[4 * p], pre[4 * p + 1], pre[4 * p + 2]));
    };
}

/// The HSV counterpart of `lemma_hsl_identity_buffer`.
proof fn lemma_hsv_identity_buffer(pre: Seq<u8>, post: Seq<u8>, op: Operation, amt: int)
    requires
        hsv_transformed(pre, post, op, amt),
        pre.len() % 4 == 0,
        forall|r: u8, g: u8, b: u8| #[trigger] spec_hsv_quad(r, g, b, op, amt) == (r, g, b),
    ensures
        post =~= pre,
{
    assert forall|j: int| 0 <= j < pre.len() implies post[j] == pre[j] by {
        let p = j / 4;
        lemma_fundamental_div_mod(j, 4);
        let k = pre.len() as int / 4;
        lemma_fundamental_div_mod_converse(pre.len() as int, 4, k, 0);
        lemma_fundamental_div_mod_converse(pre.len() as int - 1, 4, k - 1, 3);
        lemma_div_is_ordered(j, pre.len() as int - 1, 4);
        assert(4 * p + 3 < pre.len());
        let t = spec_hsv_quad(pre[4 * p], pre[4 * p + 1], pre[4 * p + 2], op, amt);
        assert(t == (pre[4 * p], pre[4 * p + 1], pre[4 * p + 2]));
    };
}

/// A zero-amount pass of the HSL engine leaves the whole buffer equal
/// to what it was, whatever the operator.
pub proof fn lemma_hsl_zero_amount_buffer(pre: Seq<u8>, post: Seq<u8>, op: Operation)
    requires
        hsl_transformed(pre, post, op, 0),
        pre.len() % 4 == 0,
    ensures
        post =~= pre,
{
    assert forall|r: u8, g: u8, b: u8| #[trigger] spec_hsl_quad(r, g, b, op, 0) == (r, g, b) by {
        lemma_hsl_zero_amount(r, g, b, op);
    };
    lemma_hsl_identity_buffer(pre, post, op, 0);
}

/// A zero-amount pass of the HSV engine leaves the whole buffer equal
/// to what it was, whatever the operator.
pub proof fn lemma_hsv_zero_amount_buffer(pre: Seq<u8>, post: Seq<u8>, op: Operation)
    requires
        hsv_transformed(pre, post, op, 0),
        pre.len() % 4 == 0,
    ensures
        post =~= pre,
{
    assert forall|r: u8, g: u8, b: u8| #[trigger] spec_hsv_quad(r, g, b, op, 0) == (r, g, b) by {
        lemma_hsv_zero_amount(r, g, b, op);
    };
    lemma_hsv_identity_buffer(pre, post, op, 0);
}

/// A full hue turn through the HSL engine leaves the whole buffer equal
/// to what it was.
pub proof fn lemma_hsl_full_turn_buffer(pre: Seq<u8>, post: Seq<u8>)
    requires
        hsl_transformed(pre, post, Operation::ShiftHue, 1000),
        pre.len() % 4 == 0,
    ensures
        post =~= pre,
{
    assert forall|r: u8, g: u8, b: u8| #[trigger] spec_hsl_quad(r, g, b, Operation::ShiftHue, 1000)
        == (r, g, b) by {
        lemma_hsl_hue_wrap(r, g, b);
    };
    lemma_hsl_identity_buffer(pre, post, Operation::ShiftHue, 1000);
}

/// A full hue turn through the HSV engine leaves the whole buffer equal
/// to what it was.
pub proof fn lemma_hsv_full_turn_buffer(pre: Seq<u8>, post: Seq<u8>)
    requires
        hsv_transformed(pre, post, Operation::ShiftHue, 1000),
        pre.len() % 4 == 0,
    ensures
        post =~= pre,
{
    assert forall|r: u8, g: u8, b: u8| #[trigger] spec_hsv_quad(r, g, b, Operation::ShiftHue, 1000)
        == (r, g, b) by {
        lemma_hsv_hue_wrap(r, g, b);
    };
    lemma_hsv_identity_buffer(pre, post, Operation::ShiftHue, 1000);
}

/// A zero-amount adjustment leaves every pixel's colour bytes exactly
/// unchanged, for every operator, through the HSL pipeline.
pub proof fn lemma_hsl_zero_amount(r: u8, g: u8, b: u8, op: Operation)
    ensures
        spec_hsl_quad(r, g, b, op, 0) == (r, g, b),
{
    let m = spec_rgb_to_hsl(r, g, b);
    assert(crate::adjust::spec_apply_hsl(m, op, 0) == m);
    lemma_hsl_round_trip(r, g, b);
}

/// The same identity through the HSV pipeline.
pub proof fn lemma_hsv_zero_amount(r: u8, g: u8, b: u8, op: Operation)
    ensures
        spec_hsv_quad(r, g, b, op, 0) == (r, g, b),
{
    let m = spec_rgb_to_hsv(r, g, b);
    assert(crate::adjust::spec_apply_hsv(m, op, 0) == m);
    lemma_hsv_round_trip(r, g, b);
}

/// An HSL value at full lightness converts to pure white, whatever its
/// hue and saturation.
proof fn lemma_hsl_channels_full_light(hn: int, hd: int, sn: int, sd: int)
    requires
        hd >= 1,
        sd >= 1,
        hn >= 0,
        0 <= sn,
    ensures
        hsl_channels(hn, hd, sn, sd, 1, 1) == (255int, 255int, 255int),
{
    let fden = 60 * hd;
    lemma_mod_bound(hn, fden);
    let anum: int = if 2 * 1 <= 1int {
        (2 * 1) as int
    } else {
        2 * (1 - 1)
    };
    assert(anum == 0);
    let cfn = anum * sn;
    assert(cfn == 0) by (nonlinear_arith)
        requires anum == 0 && cfn == anum * sn;
    let k = hn / fden;
    let fnum = hn % fden;
    let xfn = if k % 2 == 0 {
        fnum
    } else {
        fden - fnum
    };
    let xterm = 2 * (cfn * xfn);
    assert(xterm == 0) by (nonlinear_arith)
        requires cfn == 0 && xterm == 2 * (cfn * xfn);
    let cterm = cfn * 120 * hd;
    assert(cterm == 0) by (nonlinear_arith)
        requires cfn == 0 && cterm == cfn * 120 * hd;
    let mnum = 2 * 1 * sd - cfn;
    let dd = 120 * hd * 1 * sd;
    let mterm = mnum * 60 * hd;
    assert(dd > 0) by (nonlinear_arith)
        requires dd == 120 * hd * 1 * sd && hd >= 1 && sd >= 1;
    assert(255 * (0 + mterm) == 255 * dd) by (nonlinear_arith)
        requires mterm == (2 * sd) * 60 * hd && dd == 120 * hd * 1 * sd;
    lemma_round_channel_exact(cterm + mterm, dd, 255);
    lemma_round_channel_exact(xterm + mterm, dd, 255);
    lemma_round_channel_exact(0 + mterm, dd, 255);
}

/// An HSL value at zero lightness converts to pure black.
proof fn lemma_hsl_channels_full_dark(hn: int, hd: int, sn: int, sd: int)
    requires
        hd >= 1,
        sd >= 1,
        hn >= 0,
        0 <= sn,
    ensures
        hsl_channels(hn, hd, sn, sd, 0, 1) == (0int, 0int, 0int),
{
    let fden = 60 * hd;
    lemma_mod_bound(hn, fden);
    let anum: int = if 2 * 0 <= 1int {
        (2 * 0) as int
    } else {
        2 * (1 - 0)
    };
    assert(anum == 0);
    let cfn = anum * sn;
    assert(cfn == 0) by (nonlinear_arith)
        requires anum == 0 && cfn == anum * sn;
    let k = hn / fden;
    let fnum = hn % fden;
    let xfn = if k % 2 == 0 {
        fnum
    } else {
        fden - fnum
    };
    let xterm = 2 * (cfn * xfn);
    assert(xterm == 0) by (nonlinear_arith)
        requires cfn == 0 && xterm == 2 * (cfn * xfn);
    let cterm = cfn * 120 * hd;
    assert(cterm == 0) by (nonlinear_arith)
        requires cfn == 0 && cterm == cfn * 120 * hd;
    let mnum = 2 * 0 * sd - cfn;
    assert(mnum == 0) by (nonlinear_arith)
        requires cfn == 0 && mnum == 2 * 0 * sd - cfn;
    let dd = 120 * hd * 1 * sd;
    let mterm = mnum * 60 * hd;
    assert(mterm == 0) by (nonlinear_arith)
        requires mnum == 0 && mterm == mnum * 60 * hd;
    assert(dd > 0) by (nonlinear_arith)
        requires dd == 120 * hd * 1 * sd && hd >= 1 && sd >= 1;
    assert(255 * (0 + mterm) == 0 * dd) by (nonlinear_arith)
        requires mterm == 0;
    lemma_round_channel_exact(cterm + mterm, dd, 0);
    lemma_round_channel_exact(xterm + mterm, dd, 0);
    lemma_round_channel_exact(0 + mterm, dd, 0);
}

/// Lightening by a whole unit drives any pixel to pure white in one
/// application through the HSL pipeline, so repeated application
/// converges to white immediately.
pub proof fn lemma_hsl_lighten_white(r: u8, g: u8, b: u8)
    ensures
        spec_hsl_quad(r, g, b, Operation::Lighten, 1000) == (255u8, 255u8, 255u8),
{
    let m = spec_rgb_to_hsl(r, g, b);
    lemma_rgb_to_hsl_wf(r, g, b);
    let m2 = crate::adjust::spec_apply_hsl(m, Operation::Lighten, 1000);
    assert(m2.l == Frac { num: 1, den: 1 });
    lemma_hsl_channels_full_light(m.h.num as int, m.h.den as int, m.s.num as int, m.s.den as int);
}

/// Darkening by a whole unit drives any pixel to pure black in one
/// application through the HSL pipeline.
pub proof fn lemma_hsl_darken_black(r: u8, g: u8, b: u8)
    ensures
        spec_hsl_quad(r, g, b, Operation::Darken, 1000) == (0u8, 0u8, 0u8),
{
    let m = spec_rgb_to_hsl(r, g, b);
    lemma_rgb_to_hsl_wf(r, g, b);
    let m2 = crate::adjust::spec_apply_hsl(m, Operation::Darken, 1000);
    assert(m2.l == Frac { num: 0, den: 1 });
    lemma_hsl_channels_full_dark(m.h.num as int, m.h.den as int, m.s.num as int, m.s.den as int);
}

/// Rotating the hue by a full turn (amount 1000 through the turn-scaled
/// entry) reproduces every pixel exactly, through the HSL pipeline.
pub proof fn lemma_hsl_hue_wrap(r: u8, g: u8, b: u8)
    ensures
        spec_hsl_quad(r, g, b, Operation::ShiftHue, 1000) == (r, g, b),
{
    let m = spec_rgb_to_hsl(r, g, b);
    lemma_rgb_to_hsl_wf(r, g, b);
    let hn = m.h.num as int;
    let hd = m.h.den as int;
    let m2 = crate::adjust::spec_apply_hsl(m, Operation::ShiftHue, 1000);
    let den1 = hd * 1000;
    let modulus = 360 * den1;
    assert(hn * 1000 + 360000 * hd == modulus + hn * 1000);
    lemma_mod_add_multiples_vanish(hn * 1000, modulus);
    lemma_small_mod((hn * 1000) as nat, modulus as nat);
    assert(m2.h == Frac { num: (hn * 1000) as u64, den: den1 as u64 });
    lemma_hsl_channels_hue_scale(
        1000,
        hn,
        hd,
        m.s.num as int,
        m.s.den as int,
        m.l.num as int,
        m.l.den as int,
    );
    lemma_hsl_round_trip(r, g, b);
}

/// The same wraparound identity through the HSV pipeline.
pub proof fn lemma_hsv_hue_wrap(r: u8, g: u8, b: u8)
    ensures
        spec_hsv_quad(r, g, b, Operation::ShiftHue, 1000) == (r, g, b),
{
    let m = spec_rgb_to_hsv(r, g, b);
    lemma_rgb_to_hsv_wf(r, g, b);
    let hn = m.h.num as int;
    let hd = m.h.den as int;
    let m2 = crate::adjust::spec_apply_hsv(m, Operation::ShiftHue, 1000);
    let den1 = hd * 1000;
    let modulus = 360 * den1;
    assert(hn * 1000 + 360000 * hd == modulus + hn * 1000);
    lemma_mod_add_multiples_vanish(hn * 1000, modulus);
    lemma_small_mod((hn * 1000) as nat, modulus as nat);
    assert(m2.h == Frac { num: (hn * 1000) as u64, den: den1 as u64 });
    lemma_hsv_channels_hue_scale(
        1000,
        hn,
        hd,
        m.s.num as int,
        m.s.den as int,
        m.v.num as int,
        m.v.den as int,
    );
    lemma_hsv_round_trip(r, g, b);
}

} // verus!

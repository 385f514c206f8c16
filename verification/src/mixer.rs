use vstd::prelude::*;
use crate::engine::{BufferSizeError, spec_buffer_len};
use crate::frac::AMOUNT_SCALE;
use vstd::arithmetic::div_mod::lemma_fundamental_div_mod_converse;

verus! {

/// A flat 8-bit RGB colour, used as the target of a mix.
#[derive(Clone, Copy, PartialEq, Eq, Structural, Debug)]
pub struct Rgb {
    pub r: u8,
    pub g: u8,
    pub b: u8,
}

/// One lookup-table entry: the channel value `i` blended toward the mix
/// channel `c` with opacity `o` thousandths, as
/// `round(i * (1 - o) + c * o)` clamped to [0, 255].  Out-of-range
/// opacities drive the linear formula outside the byte range before the
/// clamp, as documented.
pub open spec fn spec_mix_entry(i: int, c: int, o: int) -> int {
    let num = i * (AMOUNT_SCALE - o) + c * o;
    if num <= 0 {
        0
    } else {
        let q = (num + 500) / (AMOUNT_SCALE as int);
        if q > 255 {
            255
        } else {
            q
        }
    }
}

fn mix_entry(i: u16, c: u8, o: i32) -> (v: u8)
    requires
        i <= 255,
    ensures
        v as int == spec_mix_entry(i as int, c as int, o as int),
{
    proof {
        assert((i as i64) * (1000 - (o as i64)) <= 255i64 * (1000 + 2147483648i64)
            && (i as i64) * (1000 - (o as i64)) >= -(255i64 * 2147483648i64)) by (nonlinear_arith)
            requires 0 <= i as i64 <= 255i64 && -2147483648i64 <= o as i64 <= 2147483647i64;
        assert((c as i64) * (o as i64) <= 255i64 * 2147483647i64 && (c as i64) * (o as i64)
            >= -(255i64 * 2147483648i64)) by (nonlinear_arith)
            requires 0 <= c as i64 <= 255i64 && -2147483648i64 <= o as i64 <= 2147483647i64;
    }
    let num: i64 = (i as i64) * (1000 - (o as i64)) + (c as i64) * (o as i64);
    if num <= 0 {
        0
    } else {
        let q: u64 = ((num as u64) + 500) / 1000;
        if q > 255 {
            255
        } else {
            q as u8
        }
    }
}

/// Build the 256-entry table for one channel of the mix colour.
fn build_table(c: u8, o: i32) -> (t: Vec<u8>)
    ensures
        t@.len() == 256,
        forall|i: int|
            0 <= i < 256 ==> t@[i] as int == #[trigger] spec_mix_entry(i, c as int, o as int),
{
    let mut t: Vec<u8> = Vec::new();
    let mut i: u16 = 0;
    while i < 256
        invariant
            i <= 256,
            t@.len() == i as int,
            forall|j: int|
                0 <= j < i as int ==> t@[j] as int == #[trigger] spec_mix_entry(
                    j,
                    c as int,
                    o as int,
                ),
        decreases 256 - i,
    {
        let v = mix_entry(i, c, o);
        t.push(v);
        i = i + 1;
    }
    t
}

/// Every pixel of `post` is the pixel of `pre` sent through the mix
/// tables, and every alpha byte is carried over bit for bit.
pub open spec fn mixed(pre: Seq<u8>, post: Seq<u8>, colour: Rgb, o: int) -> bool {
    &&& post.len() == pre.len()
    &&& forall|p: int|
        0 <= p && 4 * p + 3 < pre.len() ==> {
            &&& post[4 * p] as int == #[trigger] spec_mix_entry(
                pre[4 * p] as int,
                colour.r as int,
                o,
            )
            &&& post[4 * p + 1] as int == spec_mix_entry(pre[4 * p + 1] as int, colour.g as int, o)
            &&& post[4 * p + 2] as int == spec_mix_entry(pre[4 * p + 2] as int, colour.b as int, o)
            &&& post[4 * p + 3] == pre[4 * p + 3]
        }
}

/// Blend every pixel of an RGBA8 buffer toward a flat colour with the
/// given opacity in thousandths: three 256-entry tables are built once,
/// then each colour byte is replaced by its table entry in a single
/// pass; alpha bytes are untouched.  A buffer whose length does not
/// match the dimensions is refused untouched.
pub fn mix_with_colour(
    pixels: &mut Vec<u8>,
    width: u32,
    height: u32,
    mix_colour: Rgb,
    opacity: i32,
) -> (res: Result<(), BufferSizeError>)
    ensures
        res is Ok <==> old(pixels)@.len() == spec_buffer_len(width, height),
        res is Err ==> final(pixels)@ == old(pixels)@,
        res is Ok ==> mixed(old(pixels)@, final(pixels)@, mix_colour, opacity as int),
{
    let len: usize = pixels.len();
    let need: u128 = {
        proof {
            assert((4 * (width as u128)) * (height as u128) <= (4 * 0xffffffffu128)
                * 0xffffffffu128) by (nonlinear_arith)
                requires width as u128 <= 0xffffffffu128 && height as u128 <= 0xffffffffu128;
        }
        4 * (width as u128) * (height as u128)
    };
    if len as u128 != need {
        return Err(BufferSizeError);
    }
    let tr = build_table(mix_colour.r, opacity);
    let tg = build_table(mix_colour.g, opacity);
    let tb = build_table(mix_colour.b, opacity);
    proof {
        let wh = (width as int) * (height as int);
        assert(len as int == 4 * wh) by (nonlinear_arith)
            requires len as int == 4 * (width as int) * (height as int) && wh == (width as int) * (
            height as int);
    }
    let np: usize = len / 4;
    let ghost pre = pixels@;
    assert(4 * np == pre.len());
    let mut px: usize = 0;
    while px < np
        invariant
            pixels@.len() == pre.len(),
            4 * np == pre.len(),
            len == pre.len(),
            np <= len,
            px <= np,
            tr@.len() == 256 && tg@.len() == 256 && tb@.len() == 256,
            forall|j: int|
                0 <= j < 256 ==> tr@[j] as int == #[trigger] spec_mix_entry(
                    j,
                    mix_colour.r as int,
                    opacity as int,
                ),
            forall|j: int|
                0 <= j < 256 ==> tg@[j] as int == #[trigger] spec_mix_entry(
                    j,
                    mix_colour.g as int,
                    opacity as int,
                ),
            forall|j: int|
                0 <= j < 256 ==> tb@[j] as int == #[trigger] spec_mix_entry(
                    j,
                    mix_colour.b as int,
                    opacity as int,
                ),
            forall|p: int|
                0 <= p < px ==> {
                    &&& pixels@[4 * p] as int == #[trigger] spec_mix_entry(
                        pre[4 * p] as int,
                        mix_colour.r as int,
                        opacity as int,
                    )
                    &&& pixels@[4 * p + 1] as int == spec_mix_entry(
                        pre[4 * p + 1] as int,
                        mix_colour.g as int,
                        opacity as int,
                    )
                    &&& pixels@[4 * p + 2] as int == spec_mix_entry(
                        pre[4 * p + 2] as int,
                        mix_colour.b as int,
                        opacity as int,
                    )
                    &&& pixels@[4 * p + 3] == pre[4 * p + 3]
                },
            forall|j: int| 4 * px <= j < pre.len() ==> pixels@[j] == pre[j],
        decreases np - px,
    {
        let idx = 4 * px;
        let r = pixels[idx];
        let g = pixels[idx + 1];
        let b = pixels[idx + 2];
        let nr = tr[r as usize];
        let ng = tg[g as usize];
        let nb = tb[b as usize];
        proof {
            assert(r == pre[4 * (px as int)] && g == pre[4 * (px as int) + 1] && b == pre[4 * (
            px as int) + 2]);
        }
        pixels[idx] = nr;
        pixels[idx + 1] = ng;
        pixels[idx + 2] = nb;
        px = px + 1;
    }
    Ok(())
}

/// At full opacity every table entry is the mix channel itself, and at
/// zero opacity every entry is the original channel value: mixing with
/// opacity 1 paints the flat colour, mixing with opacity 0 is the
/// identity.
pub proof fn lemma_mix_extremes(i: int, c: int)
    requires
        0 <= i <= 255,
        0 <= c <= 255,
    ensures
        spec_mix_entry(i, c, 1000) == c,
        spec_mix_entry(i, c, 0) == i,
{
    assert(i * (1000 - 1000) + c * 1000 == 1000 * c) by (nonlinear_arith);
    assert(i * (1000 - 0) + c * 0 == 1000 * i) by (nonlinear_arith);
    if c > 0 {
        lemma_fundamental_div_mod_converse(1000 * c + 500, 1000, c, 500);
    }
    if i > 0 {
        lemma_fundamental_div_mod_converse(1000 * i + 500, 1000, i, 500);
    }
}

} // verus!

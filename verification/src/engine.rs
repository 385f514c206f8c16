use vstd::prelude::*;
use crate::adjust::{Operation, spec_apply_hsl, spec_apply_hsv, spec_parse_operation, apply_hsl,
    apply_hsv, parse_operation};
use crate::hsl::{spec_rgb_to_hsl, spec_hsl_to_rgb, rgb_to_hsl, hsl_to_rgb};
use crate::hsv::{spec_rgb_to_hsv, spec_hsv_to_rgb, rgb_to_hsv, hsv_to_rgb};

verus! {

/// Returned when a pixel buffer's length does not equal
/// `width * height * 4`: the engine refuses to touch such a buffer.
#[derive(Clone, Copy, PartialEq, Eq, Structural, Debug)]
pub struct BufferSizeError;

/// The byte length that a width and a height declare: one RGBA quad,
/// four bytes, per pixel.
pub open spec fn spec_buffer_len(width: u32, height: u32) -> int {
    4 * (width as int) * (height as int)
}

/// One pixel's colour bytes carried through the HSL pipeline:
/// conversion, one adjustment, conversion back.
pub open spec fn spec_hsl_quad(r: u8, g: u8, b: u8, op: Operation, amt: int) -> (u8, u8, u8) {
    spec_hsl_to_rgb(spec_apply_hsl(spec_rgb_to_hsl(r, g, b), op, amt))
}

/// One pixel's colour bytes carried through the HSV pipeline.
pub open spec fn spec_hsv_quad(r: u8, g: u8, b: u8, op: Operation, amt: int) -> (u8, u8, u8) {
    spec_hsv_to_rgb(spec_apply_hsv(spec_rgb_to_hsv(r, g, b), op, amt))
}

/// Every pixel of `post` is the transform of the same pixel of `pre`,
/// and every alpha byte is carried over bit for bit.
pub open spec fn hsl_transformed(pre: Seq<u8>, post: Seq<u8>, op: Operation, amt: int) -> bool {
    &&& post.len() == pre.len()
    &&& forall|p: int|
        0 <= p && 4 * p + 3 < pre.len() ==> {
            let t = #[trigger] spec_hsl_quad(pre[4 * p], pre[4 * p + 1], pre[4 * p + 2], op, amt);
            post[4 * p] == t.0 && post[4 * p + 1] == t.1 && post[4 * p + 2] == t.2 && post[4 * p
                + 3] == pre[4 * p + 3]
        }
}

/// The same relation through the HSV pipeline.
pub open spec fn hsv_transformed(pre: Seq<u8>, post: Seq<u8>, op: Operation, amt: int) -> bool {
    &&& post.len() == pre.len()
    &&& forall|p: int|
        0 <= p && 4 * p + 3 < pre.len() ==> {
            let t = #[trigger] spec_hsv_quad(pre[4 * p], pre[4 * p + 1], pre[4 * p + 2], op, amt);
            post[4 * p] == t.0 && post[4 * p + 1] == t.1 && post[4 * p + 2] == t.2 && post[4 * p
                + 3] == pre[4 * p + 3]
        }
}

/// Check that a buffer's length matches its declared dimensions.
fn check_size(len: usize, width: u32, height: u32) -> (ok: bool)
    ensures
        ok <==> len as int == spec_buffer_len(width, height),
{
    proof {
        assert((4 * (width as u128)) * (height as u128) <= (4 * 0xffffffffu128) * 0xffffffffu128)
            by (nonlinear_arith)
            requires width as u128 <= 0xffffffffu128 && height as u128 <= 0xffffffffu128;
    }
    let need: u128 = 4 * (width as u128) * (height as u128);
    len as u128 == need
}

fn hsl_pass(pixels: &mut Vec<u8>, op: Operation, amt: i32)
    requires
        old(pixels)@.len() % 4 == 0,
    ensures
        hsl_transformed(old(pixels)@, final(pixels)@, op, amt as int),
{
    let n: usize = pixels.len();
    let np: usize = n / 4;
    let ghost pre = pixels@;
    assert(4 * np == pre.len());
    let mut px: usize = 0;
    while px < np
        invariant
            pixels@.len() == pre.len(),
            4 * np == pre.len(),
            n == pre.len(),
            px <= np,
            forall|p: int|
                0 <= p < px ==> {
                    let t = #[trigger] spec_hsl_quad(
                        pre[4 * p],
                        pre[4 * p + 1],
                        pre[4 * p + 2],
                        op,
                        amt as int,
                    );
                    pixels@[4 * p] == t.0 && pixels@[4 * p + 1] == t.1 && pixels@[4 * p + 2] == t.2
                        && pixels@[4 * p + 3] == pre[4 * p + 3]
                },
            forall|j: int| 4 * px <= j < pre.len() ==> pixels@[j] == pre[j],
        decreases np - px,
    {
        let idx = 4 * px;
        let r = pixels[idx];
        let g = pixels[idx + 1];
        let b = pixels[idx + 2];
        let m = rgb_to_hsl(r, g, b);
        let m2 = apply_hsl(m, op, amt);
        let (nr, ng, nb) = hsl_to_rgb(m2);
        proof {
            assert(r == pre[4 * (px as int)] && g == pre[4 * (px as int) + 1] && b == pre[4 * (
            px as int) + 2]);
            assert(spec_hsl_quad(
                pre[4 * (px as int)],
                pre[4 * (px as int) + 1],
                pre[4 * (px as int) + 2],
                op,
                amt as int,
            ) == (nr, ng, nb));
        }
        pixels[idx] = nr;
        pixels[idx + 1] = ng;
        pixels[idx + 2] = nb;
        px = px + 1;
    }
}

fn hsv_pass(pixels: &mut Vec<u8>, op: Operation, amt: i32)
    requires
        old(pixels)@.len() % 4 == 0,
    ensures
        hsv_transformed(old(pixels)@, final(pixels)@, op, amt as int),
{
    let n: usize = pixels.len();
    let np: usize = n / 4;
    let ghost pre = pixels@;
    assert(4 * np == pre.len());
    let mut px: usize = 0;
    while px < np
        invariant
            pixels@.len() == pre.len(),
            4 * np == pre.len(),
            n == pre.len(),
            px <= np,
            forall|p: int|
                0 <= p < px ==> {
                    let t = #[trigger] spec_hsv_quad(
                        pre[4 * p],
                        pre[4 * p + 1],
                        pre[4 * p + 2],
                        op,
                        amt as int,
                    );
                    pixels@[4 * p] == t.0 && pixels@[4 * p + 1] == t.1 && pixels@[4 * p + 2] == t.2
                        && pixels@[4 * p + 3] == pre[4 * p + 3]
                },
            forall|j: int| 4 * px <= j < pre.len() ==> pixels@[j] == pre[j],
        decreases np - px,
    {
        let idx = 4 * px;
        let r = pixels[idx];
        let g = pixels[idx + 1];
        let b = pixels[idx + 2];
        let m = rgb_to_hsv(r, g, b);
        let m2 = apply_hsv(m, op, amt);
        let (nr, ng, nb) = hsv_to_rgb(m2);
        proof {
            assert(r == pre[4 * (px as int)] && g == pre[4 * (px as int) + 1] && b == pre[4 * (
            px as int) + 2]);
            assert(spec_hsv_quad(
                pre[4 * (px as int)],
                pre[4 * (px as int) + 1],
                pre[4 * (px as int) + 2],
                op,
                amt as int,
            ) == (nr, ng, nb));
        }
        pixels[idx] = nr;
        pixels[idx + 1] = ng;
        pixels[idx + 2] = nb;
        px = px + 1;
    }
}

/// Apply one adjustment to every pixel of an RGBA8 buffer in the HSL
/// colour space.  The mode string selects the operator as
/// `spec_parse_operation` says, with the documented fallback to
/// saturation; `amt` is in thousandths.  A buffer whose length does not
/// match the dimensions is refused untouched.
pub fn hsl(pixels: &mut Vec<u8>, width: u32, height: u32, mode: &str, amt: i32) -> (res: Result<
    (),
    BufferSizeError,
>)
    ensures
        res is Ok <==> old(pixels)@.len() == spec_buffer_len(width, height),
        res is Err ==> final(pixels)@ == old(pixels)@,
        res is Ok ==> hsl_transformed(
            old(pixels)@,
            final(pixels)@,
            spec_parse_operation(mode@),
            amt as int,
        ),
{
    if !check_size(pixels.len(), width, height) {
        return Err(BufferSizeError);
    }
    let op = parse_operation(mode);
    proof {
        lemma_len_multiple(pixels@.len() as int, width, height);
    }
    hsl_pass(pixels, op, amt);
    Ok(())
}

/// Apply one adjustment to every pixel of an RGBA8 buffer in the HSV
/// colour space, as `hsl` does for HSL.
pub fn hsv(pixels: &mut Vec<u8>, width: u32, height: u32, mode: &str, amt: i32) -> (res: Result<
    (),
    BufferSizeError,
>)
    ensures
        res is Ok <==> old(pixels)@.len() == spec_buffer_len(width, height),
        res is Err ==> final(pixels)@ == old(pixels)@,
        res is Ok ==> hsv_transformed(
            old(pixels)@,
            final(pixels)@,
            spec_parse_operation(mode@),
            amt as int,
        ),
{
    if !check_size(pixels.len(), width, height) {
        return Err(BufferSizeError);
    }
    let op = parse_operation(mode);
    proof {
        lemma_len_multiple(pixels@.len() as int, width, height);
    }
    hsv_pass(pixels, op, amt);
    Ok(())
}

/// Increase every pixel's saturation in the HSL colour space by
/// `level` thousandths.
pub fn saturate_hsl(pixels: &mut Vec<u8>, width: u32, height: u32, level: i32) -> (res: Result<
    (),
    BufferSizeError,
>)
    ensures
        res is Ok <==> old(pixels)@.len() == spec_buffer_len(width, height),
        res is Err ==> final(pixels)@ == old(pixels)@,
        res is Ok ==> hsl_transformed(
            old(pixels)@,
            final(pixels)@,
            Operation::Saturate,
            level as int,
        ),
{
    if !check_size(pixels.len(), width, height) {
        return Err(BufferSizeError);
    }
    proof {
        lemma_len_multiple(pixels@.len() as int, width, height);
    }
    hsl_pass(pixels, Operation::Saturate, level);
    Ok(())
}

/// Decrease every pixel's saturation in the HSL colour space by
/// `level` thousandths.
pub fn desaturate_hsl(pixels: &mut Vec<u8>, width: u32, height: u32, level: i32) -> (res: Result<
    (),
    BufferSizeError,
>)
    ensures
        res is Ok <==> old(pixels)@.len() == spec_buffer_len(width, height),
        res is Err ==> final(pixels)@ == old(pixels)@,
        res is Ok ==> hsl_transformed(
            old(pixels)@,
            final(pixels)@,
            Operation::Desaturate,
            level as int,
        ),
{
    if !check_size(pixels.len(), width, height) {
        return Err(BufferSizeError);
    }
    proof {
        lemma_len_multiple(pixels@.len() as int, width, height);
    }
    hsl_pass(pixels, Operation::Desaturate, level);
    Ok(())
}

/// Increase every pixel's lightness in the HSL colour space by `level`
/// thousandths.
pub fn lighten_hsl(pixels: &mut Vec<u8>, width: u32, height: u32, level: i32) -> (res: Result<
    (),
    BufferSizeError,
>)
    ensures
        res is Ok <==> old(pixels)@.len() == spec_buffer_len(width, height),
        res is Err ==> final(pixels)@ == old(pixels)@,
        res is Ok ==> hsl_transformed(
            old(pixels)@,
            final(pixels)@,
            Operation::Lighten,
            level as int,
        ),
{
    if !check_size(pixels.len(), width, height) {
        return Err(BufferSizeError);
    }
    proof {
        lemma_len_multiple(pixels@.len() as int, width, height);
    }
    hsl_pass(pixels, Operation::Lighten, level);
    Ok(())
}

/// Decrease every pixel's lightness in the HSL colour space by `level`
/// thousandths.
pub fn darken_hsl(pixels: &mut Vec<u8>, width: u32, height: u32, level: i32) -> (res: Result<
    (),
    BufferSizeError,
>)
    ensures
        res is Ok <==> old(pixels)@.len() == spec_buffer_len(width, height),
        res is Err ==> final(pixels)@ == old(pixels)@,
        res is Ok ==> hsl_transformed(
            old(pixels)@,
            final(pixels)@,
            Operation::Darken,
            level as int,
        ),
{
    if !check_size(pixels.len(), width, height) {
        return Err(BufferSizeError);
    }
    proof {
        lemma_len_multiple(pixels@.len() as int, width, height);
    }
    hsl_pass(pixels, Operation::Darken, level);
    Ok(())
}

/// Rotate every pixel's hue in the HSL colour space.  The value is
/// passed through the turn-scaled hue entry, as the string interface
/// does: an amount of 1000 rotates by a full turn.
pub fn hue_rotate_hsl(pixels: &mut Vec<u8>, width: u32, height: u32, degrees: i32) -> (res: Result<
    (),
    BufferSizeError,
>)
    ensures
        res is Ok <==> old(pixels)@.len() == spec_buffer_len(width, height),
        res is Err ==> final(pixels)@ == old(pixels)@,
        res is Ok ==> hsl_transformed(
            old(pixels)@,
            final(pixels)@,
            Operation::ShiftHue,
            degrees as int,
        ),
{
    if !check_size(pixels.len(), width, height) {
        return Err(BufferSizeError);
    }
    proof {
        lemma_len_multiple(pixels@.len() as int, width, height);
    }
    hsl_pass(pixels, Operation::ShiftHue, degrees);
    Ok(())
}

/// Increase every pixel's saturation in the HSV colour space by
/// `level` thousandths.
pub fn saturate_hsv(pixels: &mut Vec<u8>, width: u32, height: u32, level: i32) -> (res: Result<
    (),
    BufferSizeError,
>)
    ensures
        res is Ok <==> old(pixels)@.len() == spec_buffer_len(width, height),
        res is Err ==> final(pixels)@ == old(pixels)@,
        res is Ok ==> hsv_transformed(
            old(pixels)@,
            final(pixels)@,
            Operation::Saturate,
            level as int,
        ),
{
    if !check_size(pixels.len(), width, height) {
        return Err(BufferSizeError);
    }
    proof {
        lemma_len_multiple(pixels@.len() as int, width, height);
    }
    hsv_pass(pixels, Operation::Saturate, level);
    Ok(())
}

/// Decrease every pixel's saturation in the HSV colour space by
/// `level` thousandths.
pub fn desaturate_hsv(pixels: &mut Vec<u8>, width: u32, height: u32, level: i32) -> (res: Result<
    (),
    BufferSizeError,
>)
    ensures
        res is Ok <==> old(pixels)@.len() == spec_buffer_len(width, height),
        res is Err ==> final(pixels)@ == old(pixels)@,
        res is Ok ==> hsv_transformed(
            old(pixels)@,
            final(pixels)@,
            Operation::Desaturate,
            level as int,
        ),
{
    if !check_size(pixels.len(), width, height) {
        return Err(BufferSizeError);
    }
    proof {
        lemma_len_multiple(pixels@.len() as int, width, height);
    }
    hsv_pass(pixels, Operation::Desaturate, level);
    Ok(())
}

/// Increase every pixel's value in the HSV colour space by `level`
/// thousandths.
pub fn lighten_hsv(pixels: &mut Vec<u8>, width: u32, height: u32, level: i32) -> (res: Result<
    (),
    BufferSizeError,
>)
    ensures
        res is Ok <==> old(pixels)@.len() == spec_buffer_len(width, height),
        res is Err ==> final(pixels)@ == old(pixels)@,
        res is Ok ==> hsv_transformed(
            old(pixels)@,
            final(pixels)@,
            Operation::Lighten,
            level as int,
        ),
{
    if !check_size(pixels.len(), width, height) {
        return Err(BufferSizeError);
    }
    proof {
        lemma_len_multiple(pixels@.len() as int, width, height);
    }
    hsv_pass(pixels, Operation::Lighten, level);
    Ok(())
}

/// Decrease every pixel's value in the HSV colour space by `level`
/// thousandths.
pub fn darken_hsv(pixels: &mut Vec<u8>, width: u32, height: u32, level: i32) -> (res: Result<
    (),
    BufferSizeError,
>)
    ensures
        res is Ok <==> old(pixels)@.len() == spec_buffer_len(width, height),
        res is Err ==> final(pixels)@ == old(pixels)@,
        res is Ok ==> hsv_transformed(
            old(pixels)@,
            final(pixels)@,
            Operation::Darken,
            level as int,
        ),
{
    if !check_size(pixels.len(), width, height) {
        return Err(BufferSizeError);
    }
    proof {
        lemma_len_multiple(pixels@.len() as int, width, height);
    }
    hsv_pass(pixels, Operation::Darken, level);
    Ok(())
}

/// Rotate every pixel's hue in the HSV colour space, through the same
/// turn-scaled entry as `hue_rotate_hsl`.
pub fn hue_rotate_hsv(pixels: &mut Vec<u8>, width: u32, height: u32, degrees: i32) -> (res: Result<
    (),
    BufferSizeError,
>)
    ensures
        res is Ok <==> old(pixels)@.len() == spec_buffer_len(width, height),
        res is Err ==> final(pixels)@ == old(pixels)@,
        res is Ok ==> hsv_transformed(
            old(pixels)@,
            final(pixels)@,
            Operation::ShiftHue,
            degrees as int,
        ),
{
    if !check_size(pixels.len(), width, height) {
        return Err(BufferSizeError);
    }
    proof {
        lemma_len_multiple(pixels@.len() as int, width, height);
    }
    hsv_pass(pixels, Operation::ShiftHue, degrees);
    Ok(())
}

/// A buffer whose length matches its dimensions holds whole pixels.
proof fn lemma_len_multiple(len: int, width: u32, height: u32)
    requires
        len == spec_buffer_len(width, height),
    ensures
        len % 4 == 0,
{
    let wh = (width as int) * (height as int);
    assert(len == 4 * wh) by (nonlinear_arith)
        requires len == 4 * (width as int) * (height as int) && wh == (width as int) * (
        height as int);
    vstd::arithmetic::div_mod::lemma_mod_multiples_basic(wh, 4);
    assert(wh * 4 == 4 * wh) by (nonlinear_arith);
}

} // verus!

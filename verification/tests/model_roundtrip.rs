use photon::hsl::{rgb_to_hsl, hsl_to_rgb};
use photon::hsv::{rgb_to_hsv, hsv_to_rgb};
use photon::adjust::{apply_hsl, apply_hsv, parse_operation, Operation};

fn sample_bytes() -> Vec<u8> {
    let mut v: Vec<u8> = (0u16..256).step_by(17).map(|x| x as u8).collect();
    v.extend_from_slice(&[1, 2, 63, 64, 127, 128, 200, 254, 255]);
    v
}

#[test]
fn hsl_round_trip_is_exact() {
    let s = sample_bytes();
    for &r in &s {
        for &g in &s {
            for &b in &s {
                let m = rgb_to_hsl(r, g, b);
                assert_eq!(hsl_to_rgb(m), (r, g, b));
            }
        }
    }
}

#[test]
fn hsv_round_trip_is_exact() {
    let s = sample_bytes();
    for &r in &s {
        for &g in &s {
            for &b in &s {
                let m = rgb_to_hsv(r, g, b);
                assert_eq!(hsv_to_rgb(m), (r, g, b));
            }
        }
    }
}

#[test]
fn zero_amount_adjustments_are_identity() {
    let ops = [
        Operation::Saturate,
        Operation::Desaturate,
        Operation::Lighten,
        Operation::Darken,
        Operation::ShiftHue,
    ];
    for &(r, g, b) in &[(10u8, 200u8, 30u8), (255, 255, 255), (0, 0, 0), (1, 2, 3)] {
        for &op in &ops {
            let m = rgb_to_hsl(r, g, b);
            assert_eq!(hsl_to_rgb(apply_hsl(m, op, 0)), (r, g, b));
            let m = rgb_to_hsv(r, g, b);
            assert_eq!(hsv_to_rgb(apply_hsv(m, op, 0)), (r, g, b));
        }
    }
}

#[test]
fn full_hue_turn_is_identity() {
    let s = sample_bytes();
    for &r in &s {
        for &g in &s {
            let b = r.wrapping_add(g);
            let m = rgb_to_hsl(r, g, b);
            assert_eq!(hsl_to_rgb(apply_hsl(m, Operation::ShiftHue, 1000)), (r, g, b));
            let m = rgb_to_hsv(r, g, b);
            assert_eq!(hsv_to_rgb(apply_hsv(m, Operation::ShiftHue, 1000)), (r, g, b));
        }
    }
}

#[test]
fn half_hue_turn_of_red_is_cyan() {
    let m = rgb_to_hsl(255, 0, 0);
    assert_eq!(hsl_to_rgb(apply_hsl(m, Operation::ShiftHue, 500)), (0, 255, 255));
}

#[test]
fn lighten_full_amount_reaches_white() {
    for &(r, g, b) in &[(0u8, 0u8, 0u8), (10, 200, 30), (255, 0, 255), (254, 255, 253)] {
        let m = rgb_to_hsl(r, g, b);
        assert_eq!(hsl_to_rgb(apply_hsl(m, Operation::Lighten, 1000)), (255, 255, 255));
        // white stays white under repeated application
        let w = rgb_to_hsl(255, 255, 255);
        assert_eq!(hsl_to_rgb(apply_hsl(w, Operation::Lighten, 1000)), (255, 255, 255));
    }
}

#[test]
fn darken_full_amount_reaches_black() {
    for &(r, g, b) in &[(255u8, 255u8, 255u8), (10, 200, 30), (1, 0, 0)] {
        let m = rgb_to_hsl(r, g, b);
        assert_eq!(hsl_to_rgb(apply_hsl(m, Operation::Darken, 1000)), (0, 0, 0));
        let k = rgb_to_hsl(0, 0, 0);
        assert_eq!(hsl_to_rgb(apply_hsl(k, Operation::Darken, 1000)), (0, 0, 0));
    }
}

#[test]
fn desaturate_full_amount_makes_grey() {
    // (255, 0, 0) has lightness exactly one half; the grey rounds to 128.
    let m = rgb_to_hsl(255, 0, 0);
    assert_eq!(hsl_to_rgb(apply_hsl(m, Operation::Desaturate, 1000)), (128, 128, 128));
}

#[test]
fn lighten_hsv_full_amount_maximises_value() {
    // (128, 0, 0) is pure red at reduced value; full value gives pure red.
    let m = rgb_to_hsv(128, 0, 0);
    assert_eq!(hsv_to_rgb(apply_hsv(m, Operation::Lighten, 1000)), (255, 0, 0));
}

#[test]
fn darken_hsv_full_amount_reaches_black() {
    let m = rgb_to_hsv(13, 77, 255);
    assert_eq!(hsv_to_rgb(apply_hsv(m, Operation::Darken, 1000)), (0, 0, 0));
}

#[test]
fn saturate_grey_in_hsl_stays_grey() {
    // a grey has saturation zero with hue zero; saturating moves s but
    // chroma stays zero only when the amount is zero, so saturate a
    // chromatic colour instead and check the known endpoint: full
    // saturation of (100, 150, 200) keeps lightness and hue.
    let m = rgb_to_hsl(100, 150, 200);
    let s = apply_hsl(m, Operation::Saturate, 1000);
    // fully saturated: lightness 300/510 and hue 210 degrees give
    // exactly (255 * 3/17, 255 * 10/17, 255 * 17/17)
    assert_eq!(hsl_to_rgb(s), (45, 150, 255));
}

#[test]
fn parse_operation_maps_names_and_falls_back() {
    assert_eq!(parse_operation("saturate"), Operation::Saturate);
    assert_eq!(parse_operation("desaturate"), Operation::Desaturate);
    assert_eq!(parse_operation("lighten"), Operation::Lighten);
    assert_eq!(parse_operation("darken"), Operation::Darken);
    assert_eq!(parse_operation("shift_hue"), Operation::ShiftHue);
    assert_eq!(parse_operation("sepia"), Operation::Saturate);
    assert_eq!(parse_operation(""), Operation::Saturate);
}

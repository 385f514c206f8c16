use photon::{hsl, hsv, saturate_hsl, desaturate_hsl, lighten_hsl, darken_hsl, hue_rotate_hsl,
    saturate_hsv, desaturate_hsv, lighten_hsv, darken_hsv, hue_rotate_hsv, mix_with_colour, Rgb};

fn checker_buffer(w: u32, h: u32) -> Vec<u8> {
    let mut v = Vec::new();
    for i in 0..(w as usize * h as usize) {
        let x = (i * 37 % 256) as u8;
        v.extend_from_slice(&[x, x.wrapping_mul(3), x.wrapping_add(91), (i % 256) as u8]);
    }
    v
}

#[test]
fn alpha_bytes_survive_every_operation() {
    let base = checker_buffer(16, 8);
    let alphas: Vec<u8> = base.iter().skip(3).step_by(4).copied().collect();
    let ops: Vec<Box<dyn Fn(&mut Vec<u8>)>> = vec![
        Box::new(|p: &mut Vec<u8>| hsl(p, 16, 8, "saturate", 300).unwrap()),
        Box::new(|p: &mut Vec<u8>| hsl(p, 16, 8, "shift_hue", 250).unwrap()),
        Box::new(|p: &mut Vec<u8>| hsv(p, 16, 8, "darken", 414).unwrap()),
        Box::new(|p: &mut Vec<u8>| lighten_hsl(p, 16, 8, 999).unwrap()),
        Box::new(|p: &mut Vec<u8>| desaturate_hsv(p, 16, 8, 123).unwrap()),
        Box::new(|p: &mut Vec<u8>| hue_rotate_hsv(p, 16, 8, 77).unwrap()),
        Box::new(
            |p: &mut Vec<u8>| mix_with_colour(
                p,
                16,
                8,
                Rgb { r: 9, g: 18, b: 27 },
                640,
            ).unwrap(),
        ),
    ];
    for op in ops {
        let mut buf = base.clone();
        op(&mut buf);
        let after: Vec<u8> = buf.iter().skip(3).step_by(4).copied().collect();
        assert_eq!(alphas, after);
    }
}

#[test]
fn wrong_length_is_rejected_untouched() {
    let mut buf = vec![1u8, 2, 3, 4, 5, 6, 7];
    let orig = buf.clone();
    assert!(hsl(&mut buf, 1, 1, "saturate", 100).is_err());
    assert_eq!(buf, orig);
    assert!(hsv(&mut buf, 2, 1, "darken", 100).is_err());
    assert_eq!(buf, orig);
    assert!(saturate_hsl(&mut buf, 1, 2, 100).is_err());
    assert!(desaturate_hsl(&mut buf, 1, 1, 100).is_err());
    assert!(lighten_hsl(&mut buf, 1, 1, 100).is_err());
    assert!(darken_hsl(&mut buf, 1, 1, 100).is_err());
    assert!(hue_rotate_hsl(&mut buf, 1, 1, 100).is_err());
    assert!(saturate_hsv(&mut buf, 1, 1, 100).is_err());
    assert!(desaturate_hsv(&mut buf, 1, 1, 100).is_err());
    assert!(lighten_hsv(&mut buf, 1, 1, 100).is_err());
    assert!(darken_hsv(&mut buf, 1, 1, 100).is_err());
    assert!(hue_rotate_hsv(&mut buf, 1, 1, 100).is_err());
    assert!(mix_with_colour(&mut buf, 1, 1, Rgb { r: 0, g: 0, b: 0 }, 100).is_err());
    assert_eq!(buf, orig);
}

#[test]
fn empty_buffer_is_accepted() {
    let mut buf: Vec<u8> = Vec::new();
    assert!(hsl(&mut buf, 0, 0, "lighten", 500).is_ok());
    assert!(mix_with_colour(&mut buf, 0, 0, Rgb { r: 1, g: 2, b: 3 }, 500).is_ok());
    assert!(buf.is_empty());
}

#[test]
fn zero_amount_leaves_buffer_unchanged() {
    for mode in ["saturate", "desaturate", "lighten", "darken", "shift_hue"] {
        let mut buf = checker_buffer(8, 4);
        let orig = buf.clone();
        hsl(&mut buf, 8, 4, mode, 0).unwrap();
        assert_eq!(buf, orig);
        hsv(&mut buf, 8, 4, mode, 0).unwrap();
        assert_eq!(buf, orig);
    }
}

#[test]
fn full_hue_turn_leaves_buffer_unchanged() {
    let mut buf = checker_buffer(8, 4);
    let orig = buf.clone();
    hsl(&mut buf, 8, 4, "shift_hue", 1000).unwrap();
    assert_eq!(buf, orig);
    hsv(&mut buf, 8, 4, "shift_hue", 1000).unwrap();
    assert_eq!(buf, orig);
    hue_rotate_hsl(&mut buf, 8, 4, 1000).unwrap();
    assert_eq!(buf, orig);
    hue_rotate_hsv(&mut buf, 8, 4, 1000).unwrap();
    assert_eq!(buf, orig);
}

#[test]
fn lighten_full_amount_whitens_colours_and_keeps_alpha() {
    let mut buf = checker_buffer(4, 4);
    let orig = buf.clone();
    lighten_hsl(&mut buf, 4, 4, 1000).unwrap();
    for (i, &v) in buf.iter().enumerate() {
        if i % 4 == 3 {
            assert_eq!(v, orig[i]);
        } else {
            assert_eq!(v, 255);
        }
    }
    // a second application stays at white
    let snapshot = buf.clone();
    lighten_hsl(&mut buf, 4, 4, 1000).unwrap();
    assert_eq!(buf, snapshot);
}

#[test]
fn darken_full_amount_blackens_colours() {
    let mut buf = checker_buffer(4, 4);
    let orig = buf.clone();
    darken_hsl(&mut buf, 4, 4, 1000).unwrap();
    for (i, &v) in buf.iter().enumerate() {
        if i % 4 == 3 {
            assert_eq!(v, orig[i]);
        } else {
            assert_eq!(v, 0);
        }
    }
}

#[test]
fn unknown_mode_falls_back_to_saturate() {
    let mut a = checker_buffer(8, 4);
    let mut b = a.clone();
    hsl(&mut a, 8, 4, "sepia", 321).unwrap();
    saturate_hsl(&mut b, 8, 4, 321).unwrap();
    assert_eq!(a, b);
    let mut c = checker_buffer(8, 4);
    let mut d = c.clone();
    hsv(&mut c, 8, 4, "", 321).unwrap();
    saturate_hsv(&mut d, 8, 4, 321).unwrap();
    assert_eq!(c, d);
}

#[test]
fn string_modes_agree_with_direct_entry_points() {
    for (mode, f) in [
        ("saturate", saturate_hsl as fn(&mut Vec<u8>, u32, u32, i32) -> Result<(), photon::BufferSizeError>),
        ("desaturate", desaturate_hsl),
        ("lighten", lighten_hsl),
        ("darken", darken_hsl),
        ("shift_hue", hue_rotate_hsl),
    ] {
        let mut a = checker_buffer(6, 6);
        let mut b = a.clone();
        hsl(&mut a, 6, 6, mode, 137).unwrap();
        f(&mut b, 6, 6, 137).unwrap();
        assert_eq!(a, b, "mode {mode}");
    }
}

#[test]
fn mixer_matches_rounded_linear_blend() {
    // one pixel for every channel value, mix colour and opacity from the
    // documented scenario
    let mix = Rgb { r: 50, g: 255, b: 254 };
    let mut buf = Vec::new();
    for i in 0..256usize {
        let x = i as u8;
        buf.extend_from_slice(&[x, x, x, x]);
    }
    mix_with_colour(&mut buf, 256, 1, mix, 400).unwrap();
    for i in 0..256usize {
        let expect = |c: u8| -> u8 {
            let v = (i as f64) * 0.6 + (c as f64) * 0.4;
            let r = (v + 0.5).floor();
            if r < 0.0 { 0 } else if r > 255.0 { 255 } else { r as u8 }
        };
        assert_eq!(buf[4 * i], expect(50), "red at {i}");
        assert_eq!(buf[4 * i + 1], expect(255), "green at {i}");
        assert_eq!(buf[4 * i + 2], expect(254), "blue at {i}");
        assert_eq!(buf[4 * i + 3], i as u8);
    }
}

#[test]
fn mixer_scenario_values_are_exact() {
    // spot values of round(0.6 * i + 0.4 * c) for the scenario colour
    let mix = Rgb { r: 50, g: 255, b: 254 };
    let cases: [(u8, [u8; 3]); 6] = [
        (0, [20, 102, 102]),
        (1, [21, 103, 102]),
        (127, [96, 178, 178]),
        (128, [97, 179, 178]),
        (254, [172, 254, 254]),
        (255, [173, 255, 255]),
    ];
    for (i, expect) in cases {
        let mut buf = vec![i, i, i, 200];
        mix_with_colour(&mut buf, 1, 1, mix, 400).unwrap();
        assert_eq!(&buf[..3], &expect, "input {i}");
        assert_eq!(buf[3], 200);
    }
}

#[test]
fn mixer_opacity_extremes() {
    let mix = Rgb { r: 12, g: 34, b: 56 };
    let mut buf = checker_buffer(8, 8);
    let orig = buf.clone();
    mix_with_colour(&mut buf, 8, 8, mix, 0).unwrap();
    assert_eq!(buf, orig);
    mix_with_colour(&mut buf, 8, 8, mix, 1000).unwrap();
    for (i, &v) in buf.iter().enumerate() {
        match i % 4 {
            0 => assert_eq!(v, 12),
            1 => assert_eq!(v, 34),
            2 => assert_eq!(v, 56),
            _ => assert_eq!(v, orig[i]),
        }
    }
}

#[test]
fn mixer_out_of_range_opacity_clamps() {
    let mix = Rgb { r: 200, g: 200, b: 200 };
    // opacity 2.0 extrapolates: round(i * -1.0 + 200 * 2.0) clamped
    let mut buf = vec![100u8, 0, 255, 7];
    mix_with_colour(&mut buf, 1, 1, mix, 2000).unwrap();
    assert_eq!(buf, vec![255u8, 255, 145, 7]);
}

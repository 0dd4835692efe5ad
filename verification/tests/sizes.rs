use snib_capture::scale::scaled_dims;

fn in_single_precision(w: u32, h: u32, fit_height: bool, max: u32) -> (u32, u32) {
    let (wf, hf, maxf) = (w as f32, h as f32, max as f32);
    if fit_height && h > max {
        ((wf * maxf / hf).round() as u32, max)
    } else if !fit_height && w > max {
        (max, (hf * maxf / wf).round() as u32)
    } else {
        (w, h)
    }
}

#[test]
fn frames_that_fit_keep_their_size() {
    assert_eq!(scaled_dims(640, 480, true, 480), (640, 480));
    assert_eq!(scaled_dims(640, 480, false, 640), (640, 480));
    assert_eq!(scaled_dims(0, 0, true, 0), (0, 0));
    assert_eq!(scaled_dims(5000, 10, true, 100), (5000, 10));
}

#[test]
fn frames_shrink_in_proportion() {
    assert_eq!(scaled_dims(1920, 1080, true, 200), (356, 200));
    assert_eq!(scaled_dims(1920, 1080, false, 200), (200, 113));
    assert_eq!(scaled_dims(3840, 2160, false, 256), (256, 144));
}

#[test]
fn halves_are_rounded_up() {
    assert_eq!(scaled_dims(3, 2, true, 1), (2, 1));
    assert_eq!(scaled_dims(1, 2, true, 1), (1, 1));
    assert_eq!(scaled_dims(5, 2, true, 1), (3, 1));
}

#[test]
fn a_bound_of_nothing_leaves_nothing() {
    assert_eq!(scaled_dims(1920, 1080, true, 0), (0, 0));
    assert_eq!(scaled_dims(1920, 1080, false, 0), (0, 0));
    assert_eq!(scaled_dims(1, 4000, true, 100), (0, 100));
}

#[test]
fn the_largest_sides_saturate() {
    assert_eq!(
        scaled_dims(u32::MAX, u32::MAX, true, u32::MAX - 1),
        (u32::MAX, u32::MAX - 1)
    );
}

#[test]
fn long_sides_may_gain_a_pixel() {
    assert_eq!(scaled_dims(4454591, 1051297543, true, 1051297542).0, 4454592);
    assert_eq!(scaled_dims(269171293, 8792265, true, 8792264).0, 269171296);
}

#[test]
fn shorter_sides_never_gain() {
    for w in [1u32, 2, 3, 640, 1920, 7680, 4194303] {
        for h in [2u32, 3, 480, 1080, 4320, 4194304, 16777217, u32::MAX] {
            for max in [0, 1, h / 3, h / 2, h - 1] {
                assert!(scaled_dims(w, h, true, max).0 <= w);
                assert!(scaled_dims(w, h, true, max).1 <= max);
            }
        }
    }
}

#[test]
fn small_products_round_exactly() {
    for w in 1u32..200 {
        for h in 2u32..60 {
            for max in [1u32, 2, 7, 13, 29, 41] {
                if max < h {
                    let exact = (2 * w * max + h) / (2 * h);
                    assert_eq!(scaled_dims(w, h, true, max), (exact, max));
                    assert_eq!(scaled_dims(h, w, false, max).1, if max < h { exact } else { w });
                }
            }
        }
    }
}

#[test]
fn sizes_agree_with_hardware() {
    let edges = [
        0u32, 1, 2, 3, 5, 7, 100, 255, 999, 1080, 1920, 4093, 8388607, 8388608, 8388609, 16777215,
        16777216, 16777217, 16777219, 33554431, 33554433, 123456789, 2147483647, 2147483648,
        2147483649, 4294967167, 4294967168, 4294967169, 4294967294, 4294967295,
    ];
    for w in edges {
        for h in edges {
            for max in edges {
                for fit in [true, false] {
                    assert_eq!(scaled_dims(w, h, fit, max), in_single_precision(w, h, fit, max));
                }
            }
        }
    }
    let mut x: u64 = 88172645463325252;
    for _ in 0..200000 {
        let mut draw = [0u32; 3];
        for d in draw.iter_mut() {
            x ^= x << 13;
            x ^= x >> 7;
            x ^= x << 17;
            *d = ((x >> 8) as u32) >> ((x >> 50) % 32);
        }
        let [w, h, max] = draw;
        assert_eq!(scaled_dims(w, h, true, max), in_single_precision(w, h, true, max));
        assert_eq!(scaled_dims(w, h, false, max), in_single_precision(w, h, false, max));
    }
}

#[test]
fn sides_shrink_in_proportion_to_less_than_a_pixel() {
    assert_eq!(scaled_dims(7680, 4320, true, 1200), (2133, 1200));
    assert_eq!(scaled_dims(65535, 65534, true, 65533), (65534, 65533));
    let sides = [0, 1, 2, 3, 719, 7680, 15360, 65534, 65535, 99_999, 0x1F_FFFF];
    for side in sides {
        for over in sides.into_iter().chain([0x100_0001, 1_051_297_543, u32::MAX]) {
            for max in sides.into_iter().chain([0x100_0000, over.saturating_sub(1)]) {
                if max < over {
                    let shrunk = scaled_dims(side, over, true, max).0 as i128;
                    let off = shrunk * over as i128 - side as i128 * max as i128;
                    assert!(off.abs() < over as i128);
                }
            }
        }
    }
}

#[test]
fn long_sides_may_be_off_by_a_pixel() {
    for (side, over, max) in
        [(3_867_398u32, 2_796_915_834u32, 2_664_516_791u32), (5_196_973, 14_264_940, 14_066_454)]
    {
        let shrunk = scaled_dims(side, over, true, max).0 as i128;
        let off = shrunk * over as i128 - side as i128 * max as i128;
        assert!(over as i128 <= off.abs() && off.abs() < 2 * over as i128);
    }
}

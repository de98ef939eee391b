use geneloop_branding::gradient::{lerp, piecewise_gradient};
use geneloop_branding::palette::Rgb;

fn rgb(r: u8, g: u8, b: u8) -> Rgb {
    Rgb { r, g, b }
}

fn grey(v: u8) -> Rgb {
    rgb(v, v, v)
}

#[test]
fn singleton_stop_repeats() {
    let out = piecewise_gradient(5, &[rgb(10, 20, 30)]);
    assert_eq!(out, vec![rgb(10, 20, 30); 5]);
}

#[test]
fn zero_samples_is_empty() {
    let out = piecewise_gradient(0, &[rgb(1, 2, 3), rgb(4, 5, 6)]);
    assert_eq!(out, Vec::<Rgb>::new());
}

#[test]
fn empty_stops_is_empty() {
    assert_eq!(piecewise_gradient(7, &[]), Vec::<Rgb>::new());
    assert_eq!(piecewise_gradient(0, &[]), Vec::<Rgb>::new());
}

#[test]
fn zero_samples_of_one_stop_is_empty() {
    assert_eq!(piecewise_gradient(0, &[rgb(9, 9, 9)]), Vec::<Rgb>::new());
}

#[test]
fn three_stop_midpoint() {
    let out = piecewise_gradient(5, &[grey(0), grey(100), grey(200)]);
    assert_eq!(out[2], grey(100));
    assert_eq!(out, vec![grey(0), grey(50), grey(100), grey(150), grey(200)]);
}

#[test]
fn length_matches_request() {
    let stops = [rgb(3, 1, 4), rgb(1, 5, 9), rgb(2, 6, 5), rgb(3, 5, 8)];
    for count in 1..=4 {
        for len in 0..200 {
            assert_eq!(piecewise_gradient(len, &stops[..count]).len(), len);
        }
    }
    for len in 0..200 {
        assert_eq!(piecewise_gradient(len, &[]).len(), 0);
    }
}

#[test]
fn endpoints_are_exact() {
    let stops = [rgb(255, 0, 17), rgb(1, 254, 128), rgb(77, 3, 200), rgb(0, 255, 1), rgb(13, 14, 15)];
    for count in 2..=5 {
        for len in 2..300 {
            let out = piecewise_gradient(len, &stops[..count]);
            assert_eq!(out[0], stops[0]);
            assert_eq!(out[len - 1], stops[count - 1]);
        }
    }
}

#[test]
fn single_sample_is_first_stop() {
    let stops = [rgb(200, 100, 50), rgb(1, 2, 3), rgb(4, 5, 6)];
    for count in 1..=3 {
        assert_eq!(piecewise_gradient(1, &stops[..count]), vec![stops[0]]);
    }
}

#[test]
fn two_stop_channels_do_not_fall() {
    let stops = [rgb(3, 0, 250), rgb(251, 255, 250)];
    for len in 1..300 {
        let out = piecewise_gradient(len, &stops);
        for pair in out.windows(2) {
            assert!(pair[0].r <= pair[1].r);
            assert!(pair[0].g <= pair[1].g);
            assert!(pair[0].b <= pair[1].b);
        }
    }
}

#[test]
fn rising_ramp_rounds_halves_up() {
    let out = piecewise_gradient(5, &[grey(0), grey(255)]);
    assert_eq!(out, vec![grey(0), grey(64), grey(128), grey(191), grey(255)]);
}

#[test]
fn falling_ramp_rounds_halves_up() {
    let out = piecewise_gradient(5, &[grey(255), grey(0)]);
    assert_eq!(out, vec![grey(255), grey(191), grey(128), grey(64), grey(0)]);
}

#[test]
fn channels_blend_independently() {
    let out = piecewise_gradient(3, &[rgb(0, 255, 0), rgb(0, 0, 255)]);
    assert_eq!(out, vec![rgb(0, 255, 0), rgb(0, 128, 128), rgb(0, 0, 255)]);
}

#[test]
fn samples_on_stops_reproduce_them() {
    let stops = [rgb(9, 200, 31), rgb(240, 7, 66), rgb(5, 5, 250), rgb(128, 64, 32)];
    let out = piecewise_gradient(10, &stops);
    assert_eq!(out[0], stops[0]);
    assert_eq!(out[3], stops[1]);
    assert_eq!(out[6], stops[2]);
    assert_eq!(out[9], stops[3]);
}

#[test]
fn more_stops_than_samples() {
    let stops = [grey(0), grey(10), grey(20), grey(30), grey(40)];
    assert_eq!(piecewise_gradient(2, &stops), vec![grey(0), grey(40)]);
    assert_eq!(piecewise_gradient(3, &stops), vec![grey(0), grey(20), grey(40)]);
}

#[test]
fn tie_between_two_values_goes_up() {
    let out = piecewise_gradient(81, &[grey(0), grey(100), grey(200)]);
    assert_eq!(out[21], grey(53));
    assert_eq!(out[20], grey(50));
}

#[test]
fn lerp_exact_values() {
    assert_eq!(lerp(0, 255, 0, 2), 0);
    assert_eq!(lerp(0, 255, 1, 2), 128);
    assert_eq!(lerp(0, 255, 2, 2), 255);
    assert_eq!(lerp(255, 0, 1, 2), 128);
    assert_eq!(lerp(10, 20, 1, 4), 13);
    assert_eq!(lerp(20, 10, 1, 4), 18);
    assert_eq!(lerp(10, 20, 1, 3), 13);
    assert_eq!(lerp(10, 20, 2, 3), 17);
    assert_eq!(lerp(7, 7, 5, 9), 7);
}

#[test]
fn lerp_clamps_beyond_the_ends() {
    assert_eq!(lerp(10, 20, 3, 1), 40);
    assert_eq!(lerp(100, 200, 3, 1), 255);
    assert_eq!(lerp(200, 100, 3, 1), 0);
    assert_eq!(lerp(1, 0, 3, 2), 0);
    assert_eq!(lerp(0, 255, usize::MAX, 1), 255);
    assert_eq!(lerp(255, 0, usize::MAX, 1), 0);
}

#[test]
fn lerp_with_the_widest_fractions() {
    assert_eq!(lerp(3, 250, usize::MAX, usize::MAX), 250);
    assert_eq!(lerp(3, 250, 0, usize::MAX), 3);
    assert_eq!(lerp(0, 255, usize::MAX / 2, usize::MAX), 127);
    assert_eq!(lerp(0, 255, usize::MAX / 2 + 1, usize::MAX), 128);
}

fn float_channel(a: u8, b: u8, t: f32) -> u8 {
    (a as f32 + (b as f32 - a as f32) * t).round() as u8
}

fn float_gradient(len: usize, stops: &[Rgb]) -> Vec<Rgb> {
    let segments = stops.len() - 1;
    let mut out = Vec::with_capacity(len);
    for i in 0..len {
        let p = if len > 1 { i as f32 / (len as f32 - 1.0) } else { 0.0 };
        let segf = p * segments as f32;
        let s = segf.floor().clamp(0.0, (segments - 1) as f32) as usize;
        let t = (segf - s as f32).clamp(0.0, 1.0);
        let (a, b) = (stops[s], stops[s + 1]);
        out.push(rgb(
            float_channel(a.r, b.r, t),
            float_channel(a.g, b.g, t),
            float_channel(a.b, b.b, t),
        ));
    }
    out
}

#[test]
fn stays_within_one_of_single_precision() {
    let stops = [rgb(10, 200, 30), rgb(250, 3, 77), rgb(0, 0, 0), rgb(255, 128, 1)];
    for count in 2..=4 {
        for len in 1..200 {
            let exact = piecewise_gradient(len, &stops[..count]);
            let float = float_gradient(len, &stops[..count]);
            assert_eq!(exact.len(), float.len());
            for (e, f) in exact.iter().zip(float.iter()) {
                assert!(e.r.abs_diff(f.r) <= 1);
                assert!(e.g.abs_diff(f.g) <= 1);
                assert!(e.b.abs_diff(f.b) <= 1);
            }
        }
    }
}

#[test]
fn long_gradient_keeps_its_shape() {
    let stops = [rgb(0, 10, 250), rgb(0, 120, 250), rgb(0, 255, 250)];
    let len = 1_000_001;
    let out = piecewise_gradient(len, &stops);
    assert_eq!(out.len(), len);
    assert_eq!(out[0], stops[0]);
    assert_eq!(out[500_000], stops[1]);
    assert_eq!(out[len - 1], stops[2]);
    assert_eq!(out[250_000], rgb(0, 65, 250));
    for pair in out.windows(2) {
        assert!(pair[0].g <= pair[1].g);
        assert_eq!(pair[0].r, 0);
        assert_eq!(pair[0].b, 250);
    }
}

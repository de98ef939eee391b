//! Piecewise-linear colour gradients, computed in exact integer arithmetic.
//!
//! A position along a gradient is a fraction `num / den`. Every sample is the
//! exact value of the interpolation formula, rounded once to the nearest
//! integer with halves rounding up, so samples that fall on a stop reproduce
//! that stop without drift.

use vstd::prelude::*;
use vstd::arithmetic::div_mod::{
    lemma_div_is_ordered, lemma_div_multiples_vanish_fancy, lemma_fundamental_div_mod,
    lemma_mod_pos_bound,
};
use crate::palette::Rgb;

verus! {

/// What the destination terminal can render.
#[derive(Clone, Copy, Debug, PartialEq, Eq, Structural)]
pub enum ColorLevel {
    /// No colour support.
    Unsupported,
    /// The 256-colour indexed palette.
    Ansi256,
    /// 24-bit colour.
    Truecolor,
}

/// Twice the exact blend `a + (b - a) * num / den` scaled by `den`, plus the
/// half that makes a division by `2 * den` round to nearest.
pub open spec fn lerp_numerator(a: int, b: int, num: int, den: int) -> int {
    2 * (a * den + (b - a) * num) + den
}

/// `a + (b - a) * num / den`, rounded to the nearest integer (halves round
/// up) and then clamped to the range of an 8-bit channel.
pub open spec fn lerp_spec(a: int, b: int, num: int, den: int) -> int {
    let nearest = lerp_numerator(a, b, num, den) / (2 * den);
    if nearest < 0 {
        0
    } else if nearest > 255 {
        255
    } else {
        nearest
    }
}

/// Blends two channel values at the fraction `num / den` of the way from `a`
/// to `b`: the exact value of `a + (b - a) * num / den`, rounded to the
/// nearest integer with halves rounding up. A fraction beyond one follows the
/// same line past `b`, and the result is clamped to what a channel can hold.
pub fn lerp(a: u8, b: u8, num: usize, den: usize) -> (v: u8)
    requires
        den > 0,
    ensures
        v == lerp_spec(a as int, b as int, num as int, den as int),
{
    let a_wide: u128 = a as u128;
    let b_wide: u128 = b as u128;
    let num_wide: u128 = num as u128;
    let den_wide: u128 = den as u128;
    assert(a_wide * den_wide <= 255 * 0xffff_ffff_ffff_ffff) by (nonlinear_arith)
        requires
            a_wide <= 255,
            den_wide <= 0xffff_ffff_ffff_ffff,
    ;
    assert(b_wide * num_wide <= 255 * 0xffff_ffff_ffff_ffff) by (nonlinear_arith)
        requires
            b_wide <= 255,
            num_wide <= 0xffff_ffff_ffff_ffff,
    ;
    assert(a_wide * num_wide <= 255 * 0xffff_ffff_ffff_ffff) by (nonlinear_arith)
        requires
            a_wide <= 255,
            num_wide <= 0xffff_ffff_ffff_ffff,
    ;
    let up: u128 = a_wide * den_wide + b_wide * num_wide;
    let down: u128 = a_wide * num_wide;
    let ghost exact: int = lerp_numerator(a as int, b as int, num as int, den as int);
    assert(exact == 2 * (up - down) + den) by (nonlinear_arith)
        requires
            exact == 2 * (a * den + (b - a) * num) + den,
            up == a * den + b * num,
            down == a * num,
    ;
    if down > up {
        proof {
            lemma_rounds_below_zero(exact, den as int);
        }
        0
    } else {
        let nearest: u128 = (2 * (up - down) + den_wide) / (2 * den_wide);
        if nearest > 255 {
            255
        } else {
            nearest as u8
        }
    }
}

/// A numerator below `den` leaves a quotient of at most zero when divided
/// by `2 * den`.
proof fn lemma_rounds_below_zero(exact: int, den: int)
    requires
        den > 0,
        exact < den,
    ensures
        exact / (2 * den) <= 0,
{
    assert(exact / (2 * den) <= 0) by (nonlinear_arith)
        requires
            den > 0,
            exact < den,
    ;
}

/// At the fraction zero the blend is the first value, untouched by rounding.
pub proof fn lemma_lerp_at_start(a: int, b: int, den: int)
    requires
        0 <= a <= 255,
        den > 0,
    ensures
        lerp_spec(a, b, 0, den) == a,
{
    assert(lerp_numerator(a, b, 0, den) == (2 * den) * a + den) by (nonlinear_arith);
    lemma_div_multiples_vanish_fancy(a, den, 2 * den);
}

/// At the fraction one the blend is the second value, untouched by rounding.
pub proof fn lemma_lerp_at_end(a: int, b: int, den: int)
    requires
        0 <= b <= 255,
        den > 0,
    ensures
        lerp_spec(a, b, den, den) == b,
{
    assert(lerp_numerator(a, b, den, den) == (2 * den) * b + den) by (nonlinear_arith);
    lemma_div_multiples_vanish_fancy(b, den, 2 * den);
}

/// Moving the fraction towards one never moves the blend towards the first
/// value: with `a <= b` the blend is non-decreasing in `num`.
pub proof fn lemma_lerp_monotone(a: int, b: int, lo: int, hi: int, den: int)
    requires
        a <= b,
        lo <= hi,
        den > 0,
    ensures
        lerp_spec(a, b, lo, den) <= lerp_spec(a, b, hi, den),
{
    assert(lerp_numerator(a, b, lo, den) <= lerp_numerator(a, b, hi, den)) by (nonlinear_arith)
        requires
            a <= b,
            lo <= hi,
    ;
    lemma_div_is_ordered(
        lerp_numerator(a, b, lo, den),
        lerp_numerator(a, b, hi, den),
        2 * den,
    );
}

/// For a fraction between zero and one the blend lies between the two
/// values, so the clamp in `lerp_spec` leaves it as it is.
pub proof fn lemma_lerp_between(a: int, b: int, num: int, den: int)
    requires
        0 <= a <= 255,
        0 <= b <= 255,
        0 <= num <= den,
        den > 0,
    ensures
        a <= b ==> a <= lerp_spec(a, b, num, den) <= b,
        b <= a ==> b <= lerp_spec(a, b, num, den) <= a,
        lerp_spec(a, b, num, den) == lerp_numerator(a, b, num, den) / (2 * den),
{
    let low = if a <= b { a } else { b };
    let high = if a <= b { b } else { a };
    let exact = lerp_numerator(a, b, num, den);
    assert((2 * den) * low + den <= exact <= (2 * den) * high + den) by (nonlinear_arith)
        requires
            exact == 2 * (a * den + (b - a) * num) + den,
            0 <= num <= den,
            low == if a <= b { a } else { b },
            high == if a <= b { b } else { a },
    ;
    lemma_div_multiples_vanish_fancy(low, den, 2 * den);
    lemma_div_multiples_vanish_fancy(high, den, 2 * den);
    lemma_div_is_ordered((2 * den) * low + den, exact, 2 * den);
    lemma_div_is_ordered(exact, (2 * den) * high + den, 2 * den);
}

/// Channel-wise blend of two colours at the fraction `num / den`.
pub open spec fn lerp_rgb(a: Rgb, b: Rgb, num: int, den: int) -> Rgb {
    Rgb {
        r: lerp_spec(a.r as int, b.r as int, num, den) as u8,
        g: lerp_spec(a.g as int, b.g as int, num, den) as u8,
        b: lerp_spec(a.b as int, b.b as int, num, den) as u8,
    }
}

/// The number of equal steps from the first sample to the last. Sample `i`
/// of `len` sits at the position `i / steps(len)` along the gradient; a lone
/// sample sits at position zero.
pub open spec fn steps(len: int) -> int {
    if len > 1 {
        len - 1
    } else {
        1
    }
}

/// The segment that sample `i` falls into: the whole part of its position
/// scaled by the number of segments, held back to the last segment for the
/// final sample.
pub open spec fn segment_index(len: int, segments: int, i: int) -> int {
    let whole = (i * segments) / steps(len);
    if whole > segments - 1 {
        segments - 1
    } else {
        whole
    }
}

/// How far sample `i` lies into its segment, as the numerator of a fraction
/// over `steps(len)`.
pub open spec fn segment_offset(len: int, segments: int, i: int) -> int {
    i * segments - segment_index(len, segments, i) * steps(len)
}

/// Sample `i` of a gradient of `len` samples through two or more stops.
pub open spec fn sample(len: int, stops: Seq<Rgb>, i: int) -> Rgb
    recommends
        stops.len() >= 2,
        0 <= i < len,
{
    let segments = stops.len() - 1;
    let s = segment_index(len, segments, i);
    lerp_rgb(stops[s], stops[s + 1], segment_offset(len, segments, i), steps(len))
}

/// The gradient of `len` samples through `stops`: nothing without stops,
/// copies of a lone stop, and otherwise an evenly spaced traversal of the
/// segments between consecutive stops.
pub open spec fn gradient(len: nat, stops: Seq<Rgb>) -> Seq<Rgb> {
    if stops.len() == 0 {
        Seq::empty()
    } else if stops.len() == 1 {
        Seq::new(len, |i: int| stops[0])
    } else {
        Seq::new(len, |i: int| sample(len as int, stops, i))
    }
}

/// Every sample falls into an existing segment, at a fraction between zero
/// and one of the way through it.
pub proof fn lemma_segment_bounds(len: int, segments: int, i: int)
    requires
        segments >= 1,
        0 <= i < len,
    ensures
        0 <= segment_index(len, segments, i) <= segments - 1,
        0 <= segment_offset(len, segments, i) <= steps(len),
{
    let den = steps(len);
    let pos = i * segments;
    let whole = pos / den;
    assert(0 <= pos <= den * segments) by (nonlinear_arith)
        requires
            pos == i * segments,
            0 <= i <= den,
            segments >= 1,
    ;
    lemma_fundamental_div_mod(pos, den);
    lemma_mod_pos_bound(pos, den);
    assert(whole >= 0) by (nonlinear_arith)
        requires
            pos == den * whole + pos % den,
            pos >= 0,
            0 <= pos % den < den,
    ;
    if whole > segments - 1 {
        assert(den * whole >= den * segments) by (nonlinear_arith)
            requires
                whole >= segments,
                den > 0,
        ;
        assert((segments - 1) * den == den * segments - den) by (nonlinear_arith);
    } else {
        assert(whole * den == den * whole) by (nonlinear_arith);
    }
}

/// A sample whose position is exactly that of stop `k` is that stop, with no
/// rounding drift.
pub proof fn lemma_sample_on_stop(len: int, stops: Seq<Rgb>, i: int, k: int)
    requires
        stops.len() >= 2,
        0 <= i < len,
        0 <= k < stops.len(),
        i * (stops.len() - 1) == k * steps(len),
    ensures
        sample(len, stops, i) == stops[k],
{
    let segments = stops.len() - 1;
    let den = steps(len);
    assert(k * den == den * k + 0) by (nonlinear_arith);
    lemma_div_multiples_vanish_fancy(k, 0, den);
    assert((i * segments) / den == k);
    if k == segments {
        assert((segments - 1) * den == k * den - den) by (nonlinear_arith)
            requires
                k == segments,
        ;
        let a = stops[k - 1];
        let b = stops[k];
        lemma_lerp_at_end(a.r as int, b.r as int, den);
        lemma_lerp_at_end(a.g as int, b.g as int, den);
        lemma_lerp_at_end(a.b as int, b.b as int, den);
    } else {
        let a = stops[k];
        let b = stops[k + 1];
        lemma_lerp_at_start(a.r as int, b.r as int, den);
        lemma_lerp_at_start(a.g as int, b.g as int, den);
        lemma_lerp_at_start(a.b as int, b.b as int, den);
    }
}

/// A gradient has as many samples as were asked for, unless there is no stop
/// to take them from: it is empty exactly when no sample was asked for or no
/// stop was given.
pub proof fn lemma_gradient_len(len: nat, stops: Seq<Rgb>)
    ensures
        stops.len() > 0 ==> gradient(len, stops).len() == len,
        gradient(len, stops).len() == 0 <==> len == 0 || stops.len() == 0,
{
}

/// With at least two samples and two stops, the first sample is the first
/// stop and the last sample is the last stop, exactly.
pub proof fn lemma_gradient_endpoints(len: nat, stops: Seq<Rgb>)
    requires
        len >= 2,
        stops.len() >= 2,
    ensures
        gradient(len, stops)[0] == stops[0],
        gradient(len, stops)[len - 1] == stops.last(),
{
    let segments = stops.len() - 1;
    assert(0 * segments == 0 * steps(len as int)) by (nonlinear_arith);
    lemma_sample_on_stop(len as int, stops, 0, 0);
    assert((len - 1) * segments == segments * steps(len as int)) by (nonlinear_arith)
        requires
            steps(len as int) == len - 1,
    ;
    lemma_sample_on_stop(len as int, stops, len - 1, segments);
}

/// A gradient of one sample is the first stop alone.
pub proof fn lemma_gradient_single_sample(stops: Seq<Rgb>)
    requires
        stops.len() >= 1,
    ensures
        gradient(1, stops) == seq![stops[0]],
{
    if stops.len() >= 2 {
        assert(0 * (stops.len() - 1) == 0 * steps(1)) by (nonlinear_arith);
        lemma_sample_on_stop(1, stops, 0, 0);
    }
    assert(gradient(1, stops) =~= seq![stops[0]]);
}

/// Along a gradient between two stops, a channel that does not fall from the
/// first stop to the second never falls from one sample to a later one.
pub proof fn lemma_gradient_two_stops_monotone(len: nat, stops: Seq<Rgb>, i: int, j: int)
    requires
        stops.len() == 2,
        0 <= i <= j < len,
    ensures
        stops[0].r <= stops[1].r ==> gradient(len, stops)[i].r <= gradient(len, stops)[j].r,
        stops[0].g <= stops[1].g ==> gradient(len, stops)[i].g <= gradient(len, stops)[j].g,
        stops[0].b <= stops[1].b ==> gradient(len, stops)[i].b <= gradient(len, stops)[j].b,
{
    let den = steps(len as int);
    let a = stops[0];
    let b = stops[1];
    lemma_segment_bounds(len as int, 1, i);
    lemma_segment_bounds(len as int, 1, j);
    assert(segment_offset(len as int, 1, i) == i) by (nonlinear_arith)
        requires
            segment_index(len as int, 1, i) == 0,
            segment_offset(len as int, 1, i) == i * 1 - segment_index(len as int, 1, i) * den,
    ;
    assert(segment_offset(len as int, 1, j) == j) by (nonlinear_arith)
        requires
            segment_index(len as int, 1, j) == 0,
            segment_offset(len as int, 1, j) == j * 1 - segment_index(len as int, 1, j) * den,
    ;
    lemma_lerp_between(a.r as int, b.r as int, i, den);
    lemma_lerp_between(a.r as int, b.r as int, j, den);
    lemma_lerp_between(a.g as int, b.g as int, i, den);
    lemma_lerp_between(a.g as int, b.g as int, j, den);
    lemma_lerp_between(a.b as int, b.b as int, i, den);
    lemma_lerp_between(a.b as int, b.b as int, j, den);
    if a.r <= b.r {
        lemma_lerp_monotone(a.r as int, b.r as int, i, j, den);
    }
    if a.g <= b.g {
        lemma_lerp_monotone(a.g as int, b.g as int, i, j, den);
    }
    if a.b <= b.b {
        lemma_lerp_monotone(a.b as int, b.b as int, i, j, den);
    }
}

/// Samples a piecewise-linear gradient through `stops` at `len` evenly spaced
/// positions.
///
/// Without stops, or with `len` zero, the result is empty; a lone stop is
/// repeated `len` times. Otherwise sample `i` lies at the position
/// `i / (len - 1)` along the gradient (position zero when `len` is one) and
/// blends the two stops of the segment it falls into.
pub fn piecewise_gradient(len: usize, stops: &[Rgb]) -> (out: Vec<Rgb>)
    ensures
        out@ == gradient(len as nat, stops@),
        stops@.len() > 0 ==> out@.len() == len,
        out@.len() == 0 <==> len == 0 || stops@.len() == 0,
        stops@.len() == 1 ==> forall|i: int| 0 <= i < len ==> out@[i] == stops@[0],
        len >= 2 && stops@.len() >= 2 ==> out@[0] == stops@[0] && out@[len - 1] == stops@.last(),
        len == 1 && stops@.len() >= 1 ==> out@ == seq![stops@[0]],
        stops@.len() == 2 && stops@[0].r <= stops@[1].r ==> forall|i: int, j: int|
            0 <= i <= j < len ==> out@[i].r <= out@[j].r,
        stops@.len() == 2 && stops@[0].g <= stops@[1].g ==> forall|i: int, j: int|
            0 <= i <= j < len ==> out@[i].g <= out@[j].g,
        stops@.len() == 2 && stops@[0].b <= stops@[1].b ==> forall|i: int, j: int|
            0 <= i <= j < len ==> out@[i].b <= out@[j].b,
{
    proof {
        lemma_gradient_len(len as nat, stops@);
        if len >= 2 && stops@.len() >= 2 {
            lemma_gradient_endpoints(len as nat, stops@);
        }
        if len == 1 && stops@.len() >= 1 {
            lemma_gradient_single_sample(stops@);
        }
        if stops@.len() == 2 {
            let samples = gradient(len as nat, stops@);
            assert forall|i: int, j: int| 0 <= i <= j < len implies {
                &&& stops@[0].r <= stops@[1].r ==> samples[i].r <= samples[j].r
                &&& stops@[0].g <= stops@[1].g ==> samples[i].g <= samples[j].g
                &&& stops@[0].b <= stops@[1].b ==> samples[i].b <= samples[j].b
            } by {
                lemma_gradient_two_stops_monotone(len as nat, stops@, i, j);
            }
        }
    }
    if len == 0 || stops.len() == 0 {
        let out: Vec<Rgb> = Vec::new();
        assert(out@ =~= gradient(len as nat, stops@));
        return out;
    }
    let mut out: Vec<Rgb> = Vec::with_capacity(len);
    if stops.len() == 1 {
        let only = stops[0];
        let mut i: usize = 0;
        while i < len
            invariant
                i <= len,
                out@.len() == i,
                forall|k: int| 0 <= k < i ==> out@[k] == only,
            decreases len - i,
        {
            out.push(only);
            i += 1;
        }
        assert(out@ =~= gradient(len as nat, stops@));
        return out;
    }
    let segments: usize = stops.len() - 1;
    let den: usize = if len > 1 {
        len - 1
    } else {
        1
    };
    let mut i: usize = 0;
    while i < len
        invariant
            i <= len,
            stops@.len() >= 2,
            segments == stops@.len() - 1,
            den == steps(len as int),
            out@.len() == i,
            forall|k: int| 0 <= k < i ==> out@[k] == sample(len as int, stops@, k),
        decreases len - i,
    {
        proof {
            lemma_segment_bounds(len as int, segments as int, i as int);
        }
        assert(i * segments <= 0xffff_ffff_ffff_ffff * 0xffff_ffff_ffff_ffff) by (nonlinear_arith)
            requires
                0 <= i <= 0xffff_ffff_ffff_ffff,
                0 <= segments <= 0xffff_ffff_ffff_ffff,
        ;
        let pos: u128 = (i as u128) * (segments as u128);
        let whole: u128 = pos / (den as u128);
        let s: usize = if whole > (segments - 1) as u128 {
            segments - 1
        } else {
            whole as usize
        };
        let offset: u128 = pos - (s as u128) * (den as u128);
        let num: usize = offset as usize;
        let a = stops[s];
        let b = stops[s + 1];
        out.push(
            Rgb {
                r: lerp(a.r, b.r, num, den),
                g: lerp(a.g, b.g, num, den),
                b: lerp(a.b, b.b, num, den),
            },
        );
        i += 1;
    }
    assert(out@ =~= gradient(len as nat, stops@));
    out
}

} // verus!

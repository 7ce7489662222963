//! Layout of the screen-edge sampling zones: one rectangle per LED along the
//! top, right, bottom and left edges of a frame, walked clockwise starting at
//! the top-left corner. Each edge divides its side of the frame evenly among
//! its LEDs; the band depth is twice the LED spacing, kept between 12 pixels
//! and 12% of the frame dimension.

use vstd::prelude::*;

use crate::util::clamp_spec;
use vstd::arithmetic::div_mod::{
    lemma_basic_div, lemma_div_is_ordered, lemma_hoist_over_denominator, lemma_multiply_divide_le,
};
use vstd::arithmetic::mul::{lemma_mul_inequality, lemma_mul_is_commutative, lemma_mul_upper_bound};

verus! {

/// `num / den` rounded to the nearest integer, halves rounding up.
pub open spec fn round_half_up_div(num: int, den: int) -> int {
    (2 * num + den) / (2 * den)
}

/// `num / den` rounded up.
pub open spec fn ceil_div(num: int, den: int) -> int {
    (num + den - 1) / den
}

/// Depth of a horizontal band (top or bottom edge): twice the LED spacing
/// along the width, clamped to `[12, 12% of height]`, the cap applied last.
pub open spec fn horiz_band(w: int, h: int, count: int) -> int {
    clamp_spec(round_half_up_div(2 * w, count), 12, 12 * h / 100)
}

/// Width of a vertical band (left or right edge): twice the LED spacing
/// along the height, clamped to `[12, 12% of width]`, the cap applied last.
pub open spec fn vert_band(w: int, h: int, count: int) -> int {
    clamp_spec(round_half_up_div(2 * h, count), 12, 12 * w / 100)
}

/// The `i`-th zone rectangle `(x1, y1, x2, y2)` in clockwise order: the top
/// edge runs left to right, the right edge top to bottom, the bottom edge
/// right to left, and the left edge bottom to top.
pub open spec fn zone_at(
    w: int,
    h: int,
    top: int,
    bottom: int,
    left: int,
    right: int,
    i: int,
) -> (int, int, int, int) {
    if i < top {
        (i * w / top, 0, (i + 1) * w / top, horiz_band(w, h, top))
    } else if i < top + right {
        let j = i - top;
        (w - vert_band(w, h, right), j * h / right, w, (j + 1) * h / right)
    } else if i < top + right + bottom {
        let j = i - top - right;
        (
            w - ceil_div((j + 1) * w, bottom),
            h - horiz_band(w, h, bottom),
            w - ceil_div(j * w, bottom),
            h,
        )
    } else {
        let j = i - top - right - bottom;
        (0, h - ceil_div((j + 1) * h, left), vert_band(w, h, left), h - ceil_div(j * h, left))
    }
}

/// Componentwise agreement between a computed rectangle and its mathematical
/// description.
pub open spec fn zone_eq(z: (i32, i32, i32, i32), q: (int, int, int, int)) -> bool {
    z.0 == q.0 && z.1 == q.1 && z.2 == q.2 && z.3 == q.3
}

/// The rounded-up quotient never exceeds `cap` when `num` is at most
/// `den * cap`.
proof fn lemma_ceil_div_le(num: int, den: int, cap: int)
    requires
        0 <= num,
        1 <= den,
        0 <= cap,
        num <= den * cap,
    ensures
        ceil_div(num, den) <= cap,
{
    lemma_mul_is_commutative(den, cap);
    lemma_div_is_ordered(num + den - 1, cap * den + den - 1, den);
    lemma_hoist_over_denominator(den - 1, cap, den as nat);
    lemma_basic_div(den - 1, den);
}

fn ceil_div_u64(num: u64, den: u64) -> (r: u64)
    requires
        1 <= den,
        num + den <= u64::MAX,
    ensures
        r == ceil_div(num as int, den as int),
{
    (num + den - 1) / den
}

fn round_half_up_div_u64(num: u64, den: u64) -> (r: u64)
    requires
        1 <= den,
        2 * num + den <= u64::MAX,
        2 * den <= u64::MAX,
    ensures
        r == round_half_up_div(num as int, den as int),
{
    (2 * num + den) / (2 * den)
}

fn clamp_u64(v: u64, lo: u64, hi: u64) -> (r: u64)
    ensures
        r == clamp_spec(v as int, lo as int, hi as int),
{
    let raised = if v >= lo {
        v
    } else {
        lo
    };
    if raised <= hi {
        raised
    } else {
        hi
    }
}

/// Compute the zone rectangles for a `width` by `height` frame and the LED
/// counts `(top, bottom, left, right)`.
#[verifier::loop_isolation(false)]
pub fn compute_led_zones(width: u32, height: u32, counts: (u16, u16, u16, u16)) -> (zones: Vec<
    (i32, i32, i32, i32),
>)
    requires
        width <= i32::MAX as u32,
        height <= i32::MAX as u32,
    ensures
        zones@.len() == counts.0 + counts.1 + counts.2 + counts.3,
        forall|i: int|
            0 <= i < zones@.len() ==> zone_eq(
                #[trigger] zones@[i],
                zone_at(
                    width as int,
                    height as int,
                    counts.0 as int,
                    counts.1 as int,
                    counts.2 as int,
                    counts.3 as int,
                    i,
                ),
            ),
{
    let w = width as u64;
    let h = height as u64;
    let (top_count, bottom_count, left_count, right_count) = counts;
    let top = top_count as u64;
    let bottom = bottom_count as u64;
    let left = left_count as u64;
    let right = right_count as u64;

    let top_h: u64 = if top > 0 {
        clamp_u64(round_half_up_div_u64(2 * w, top), 12, 12 * h / 100)
    } else {
        0
    };
    let bottom_h: u64 = if bottom > 0 {
        clamp_u64(round_half_up_div_u64(2 * w, bottom), 12, 12 * h / 100)
    } else {
        0
    };
    let left_w: u64 = if left > 0 {
        clamp_u64(round_half_up_div_u64(2 * h, left), 12, 12 * w / 100)
    } else {
        0
    };
    let right_w: u64 = if right > 0 {
        clamp_u64(round_half_up_div_u64(2 * h, right), 12, 12 * w / 100)
    } else {
        0
    };

    proof {
        // The band caps keep every band within the frame.
        lemma_multiply_divide_le(12 * (h as int), 100, h as int);
        lemma_multiply_divide_le(12 * (w as int), 100, w as int);
    }

    let ghost wi = width as int;
    let ghost hi = height as int;
    let ghost ti = top_count as int;
    let ghost bi = bottom_count as int;
    let ghost li = left_count as int;
    let ghost ri = right_count as int;

    let mut zones: Vec<(i32, i32, i32, i32)> = Vec::new();

    // Top edge, left to right.
    let mut i: u64 = 0;
    while i < top
        invariant
            0 <= i <= top,
            zones@.len() == i,
            forall|j: int|
                0 <= j < zones@.len() ==> zone_eq(
                    #[trigger] zones@[j],
                    zone_at(wi, hi, ti, bi, li, ri, j),
                ),
        decreases top - i,
    {
        proof {
            lemma_mul_upper_bound(i as int, 0xffff, w as int, 0xffff_ffff);
            lemma_mul_upper_bound(i as int + 1, 0x1_0000, w as int, 0xffff_ffff);
            lemma_mul_inequality(i as int, top as int, w as int);
            lemma_mul_inequality(i as int + 1, top as int, w as int);
            lemma_multiply_divide_le(i as int * (w as int), top as int, w as int);
            lemma_multiply_divide_le((i as int + 1) * (w as int), top as int, w as int);
            lemma_mul_is_commutative(top as int, w as int);
        }
        let x1 = (i * w) / top;
        let x2 = ((i + 1) * w) / top;
        zones.push((x1 as i32, 0i32, x2 as i32, top_h as i32));
        i = i + 1;
    }

    // Right edge, top to bottom.
    let mut i: u64 = 0;
    while i < right
        invariant
            0 <= i <= right,
            zones@.len() == top + i,
            forall|j: int|
                0 <= j < zones@.len() ==> zone_eq(
                    #[trigger] zones@[j],
                    zone_at(wi, hi, ti, bi, li, ri, j),
                ),
        decreases right - i,
    {
        proof {
            lemma_mul_upper_bound(i as int, 0xffff, h as int, 0xffff_ffff);
            lemma_mul_upper_bound(i as int + 1, 0x1_0000, h as int, 0xffff_ffff);
            lemma_mul_inequality(i as int, right as int, h as int);
            lemma_mul_inequality(i as int + 1, right as int, h as int);
            lemma_multiply_divide_le(i as int * (h as int), right as int, h as int);
            lemma_multiply_divide_le((i as int + 1) * (h as int), right as int, h as int);
            lemma_mul_is_commutative(right as int, h as int);
        }
        let y1 = (i * h) / right;
        let y2 = ((i + 1) * h) / right;
        let x1 = w - right_w;
        zones.push((x1 as i32, y1 as i32, w as i32, y2 as i32));
        i = i + 1;
    }

    // Bottom edge, right to left.
    let mut i: u64 = 0;
    while i < bottom
        invariant
            0 <= i <= bottom,
            zones@.len() == top + right + i,
            forall|j: int|
                0 <= j < zones@.len() ==> zone_eq(
                    #[trigger] zones@[j],
                    zone_at(wi, hi, ti, bi, li, ri, j),
                ),
        decreases bottom - i,
    {
        proof {
            lemma_mul_upper_bound(i as int, 0xffff, w as int, 0xffff_ffff);
            lemma_mul_upper_bound(i as int + 1, 0x1_0000, w as int, 0xffff_ffff);
            lemma_mul_inequality(i as int, bottom as int, w as int);
            lemma_mul_inequality(i as int + 1, bottom as int, w as int);
            lemma_mul_is_commutative(bottom as int, w as int);
            lemma_ceil_div_le(i as int * (w as int), bottom as int, w as int);
            lemma_ceil_div_le((i as int + 1) * (w as int), bottom as int, w as int);
        }
        let x2 = w - ceil_div_u64(i * w, bottom);
        let x1 = w - ceil_div_u64((i + 1) * w, bottom);
        let y1 = h - bottom_h;
        zones.push((x1 as i32, y1 as i32, x2 as i32, h as i32));
        i = i + 1;
    }

    // Left edge, bottom to top.
    let mut i: u64 = 0;
    while i < left
        invariant
            0 <= i <= left,
            zones@.len() == top + right + bottom + i,
            forall|j: int|
                0 <= j < zones@.len() ==> zone_eq(
                    #[trigger] zones@[j],
                    zone_at(wi, hi, ti, bi, li, ri, j),
                ),
        decreases left - i,
    {
        proof {
            lemma_mul_upper_bound(i as int, 0xffff, h as int, 0xffff_ffff);
            lemma_mul_upper_bound(i as int + 1, 0x1_0000, h as int, 0xffff_ffff);
            lemma_mul_inequality(i as int, left as int, h as int);
            lemma_mul_inequality(i as int + 1, left as int, h as int);
            lemma_mul_is_commutative(left as int, h as int);
            lemma_ceil_div_le(i as int * (h as int), left as int, h as int);
            lemma_ceil_div_le((i as int + 1) * (h as int), left as int, h as int);
        }
        let y2 = h - ceil_div_u64(i * h, left);
        let y1 = h - ceil_div_u64((i + 1) * h, left);
        zones.push((0i32, y1 as i32, left_w as i32, y2 as i32));
        i = i + 1;
    }

    zones
}

} // verus!

//! Size arithmetic for the image pipeline: fitting a picture into size
//! bounds while keeping its aspect ratio, and placing a video frame into
//! the three-by-three preview grid.

use vstd::prelude::*;

use crate::item_traits::Orientation;

verus! {

/// `a / b` rounded to the nearest integer, halves up; `b` positive.
pub open spec fn round_div(a: int, b: int) -> int {
    (2 * a + b) / (2 * b)
}

/// A rounded value clamped into the unsigned 32-bit range, at least 1.
pub open spec fn clamp_dim(v: int) -> int {
    if v < 1 {
        1
    } else if v > u32::MAX {
        u32::MAX as int
    } else {
        v
    }
}

/// The size `(w, h)` scaled to fit `(mw, mh)`: when either dimension
/// exceeds its bound and a bound is set, both dimensions are scaled by
/// the smaller of the two bound ratios, rounded, and kept at least 1; a
/// zero bound leaves that dimension unrestricted.
pub open spec fn spec_restrict_size(w: int, h: int, mw: int, mh: int) -> (int, int) {
    if w <= 0 || h <= 0 {
        (w, h)
    } else if (w > mw || h > mh) && (mw != 0 || mh != 0) {
        if mh == 0 || (mw != 0 && mw * h <= mh * w) {
            (mw, clamp_dim(round_div(h * mw, w)))
        } else {
            (clamp_dim(round_div(w * mh, h)), mh)
        }
    } else {
        (w, h)
    }
}

/// Scale a size into the given bounds, as `spec_restrict_size` states.
pub fn restrict_size(size: (u32, u32), max_size: (u32, u32)) -> (r: (u32, u32))
    ensures
        (r.0 as int, r.1 as int) == spec_restrict_size(
            size.0 as int,
            size.1 as int,
            max_size.0 as int,
            max_size.1 as int,
        ),
{
    let w: u32 = size.0;
    let h: u32 = size.1;
    let mw: u32 = max_size.0;
    let mh: u32 = max_size.1;
    if w == 0 || h == 0 {
        return (w, h);
    }
    if (w > mw || h > mh) && (mw != 0 || mh != 0) {
        proof {
            let a: int = mw as int;
            let b: int = h as int;
            assert(a * b <= 0xFFFF_FFFFu32 * 0xFFFF_FFFFu32) by (nonlinear_arith)
                requires
                    0 <= a <= 0xFFFF_FFFFu32,
                    0 <= b <= 0xFFFF_FFFFu32,
            ;
            let c: int = mh as int;
            let d: int = w as int;
            assert(c * d <= 0xFFFF_FFFFu32 * 0xFFFF_FFFFu32) by (nonlinear_arith)
                requires
                    0 <= c <= 0xFFFF_FFFFu32,
                    0 <= d <= 0xFFFF_FFFFu32,
            ;
        }
        let wide: bool = mh == 0 || (mw != 0 && (mw as u64) * (h as u64) <= (mh as u64) * (
        w as u64));
        if wide {
            let scaled: u32 = rounded_scale(h, mw, w);
            (mw, scaled)
        } else {
            let scaled: u32 = rounded_scale(w, mh, h);
            (scaled, mh)
        }
    } else {
        (w, h)
    }
}

/// `x * num / den`, rounded, clamped to the unsigned 32-bit range and at
/// least 1.
fn rounded_scale(x: u32, num: u32, den: u32) -> (r: u32)
    requires
        den > 0,
    ensures
        r as int == clamp_dim(round_div(x as int * num as int, den as int)),
{
    proof {
        let xx: int = x as int;
        let nn: int = num as int;
        assert(xx * nn <= 0xFFFF_FFFFu32 * 0xFFFF_FFFFu32) by (nonlinear_arith)
            requires
                0 <= xx <= 0xFFFF_FFFFu32,
                0 <= nn <= 0xFFFF_FFFFu32,
        ;
        assert(xx * nn >= 0) by (nonlinear_arith)
            requires
                xx >= 0,
                nn >= 0,
        ;
    }
    let p: u128 = (x as u128) * (num as u128);
    let v: u128 = (2 * p + den as u128) / (2 * (den as u128));
    proof {
        let xx: int = x as int;
        let nn: int = num as int;
        assert(v as int == round_div(xx * nn, den as int));
        assert(round_div(xx * nn, den as int) >= 0) by (nonlinear_arith)
            requires
                xx * nn >= 0,
                den > 0,
        ;
    }
    if v < 1 {
        1
    } else if v > u32::MAX as u128 {
        u32::MAX
    } else {
        v as u32
    }
}

/// Frames per row and per column of the video preview grid.
pub const SCREENSHOTS_X: u32 = 3;

/// Frames per row and per column of the video preview grid.
pub const SCREENSHOTS_Y: u32 = 3;

/// Where frame `i` of the three-by-three video preview grid lands, taking
/// the video's orientation into account.
pub open spec fn spec_position(o: Option<Orientation>, i: int, w: int, h: int) -> (int, int) {
    match o {
        Some(Orientation::Portrait90) => ((i / 3) * w, (2 - i % 3) * h),
        Some(Orientation::Landscape180) => ((2 - i % 3) * w, (2 - i / 3) * h),
        Some(Orientation::Portrait270) => ((2 - i / 3) * w, (i % 3) * h),
        _ => ((i % 3) * w, (i / 3) * h),
    }
}

/// The grid cell of frame `i`, as `spec_position` states.
pub fn get_position(orientation: Option<&Orientation>, i: u32, width: u32, height: u32) -> (r: (
    u32,
    u32,
))
    requires
        i < 9,
        2 * width <= u32::MAX,
        2 * height <= u32::MAX,
    ensures
        ({
            let o = match orientation {
                Some(o) => Some(*o),
                None => None::<Orientation>,
            };
            (r.0 as int, r.1 as int) == spec_position(o, i as int, width as int, height as int)
        }),
{
    let cx: u32 = i % SCREENSHOTS_X;
    let cy: u32 = i / SCREENSHOTS_Y;
    proof {
        let a: int = width as int;
        let b: int = height as int;
        assert(cx * a <= 2 * a && (2 - cx) * a <= 2 * a && cy * a <= 2 * a && (2 - cy) * a <= 2
            * a) by (nonlinear_arith)
            requires
                0 <= cx <= 2,
                0 <= cy <= 2,
                a >= 0,
        ;
        assert(cx * b <= 2 * b && (2 - cx) * b <= 2 * b && cy * b <= 2 * b && (2 - cy) * b <= 2
            * b) by (nonlinear_arith)
            requires
                0 <= cx <= 2,
                0 <= cy <= 2,
                b >= 0,
        ;
    }
    match orientation {
        Some(Orientation::Portrait90) => (cy * width, ((SCREENSHOTS_Y - 1) - cx) * height),
        Some(Orientation::Landscape180) => (((SCREENSHOTS_X - 1) - cx) * width, ((SCREENSHOTS_Y
            - 1) - cy) * height),
        Some(Orientation::Portrait270) => (((SCREENSHOTS_X - 1) - cy) * width, cx * height),
        _ => (cx * width, cy * height),
    }
}

} // verus!

//! What a wallpaper file is, before it is opened: which kind of decoder it
//! needs, and how large a frame it may be decoded at.



pub mod canvas;
pub mod glsl;
pub mod procedural;
pub mod still;

use vstd::prelude::*;

verus! {

/// `n / d`, rounded to the nearest whole number with halves rounded up.
pub open spec fn round_div(n: nat, d: nat) -> nat
    recommends
        d > 0,
{
    (2 * n + d) / (2 * d)
}

/// At least two, and even: NV12 stores chroma at half resolution in both
/// axes, and an odd dimension has no half.
pub open spec fn even_at_least_two(v: nat) -> nat {
    let m = if v < 2 { 2 } else { v };
    (m - m % 2) as nat
}

/// `size` fitted inside `max` without changing its shape, or `size`
/// unchanged when it already fits (or has no area to scale).
pub open spec fn spec_clamp_size(size: (u32, u32), max: (u32, u32)) -> (nat, nat) {
    let (w, h) = (size.0 as nat, size.1 as nat);
    let (mw, mh) = (max.0 as nat, max.1 as nat);
    if w == 0 || h == 0 || (w <= mw && h <= mh) {
        (w, h)
    } else if mw * h <= mh * w {
        // The width runs out first.
        (even_at_least_two(mw), even_at_least_two(round_div(h * mw, w)))
    } else {
        (even_at_least_two(round_div(w * mh, h)), even_at_least_two(mh))
    }
}

fn even_exec(v: u128) -> (r: u32)
    requires
        v <= u32::MAX,
    ensures
        r == even_at_least_two(v as nat),
{
    let m: u128 = if v < 2 { 2 } else { v };
    ((m - m % 2) as u32)
}

/// Fit `size` inside `max` without changing its shape. Returns `size`
/// unchanged when it already fits. Both sides come out even.
pub fn clamp_size(size: (u32, u32), max: (u32, u32)) -> (r: (u32, u32))
    ensures
        (r.0 as nat, r.1 as nat) == spec_clamp_size(size, max),
        // Shrunk to fit: never larger than the cap, as long as the cap has
        // room for the smallest even frame.
        max.0 >= 2 && max.1 >= 2 ==> r.0 <= max.0 && r.1 <= max.1 || (size.0 == 0 || size.1 == 0),
        // A size that already fits, or has no area, is left alone.
        (size.0 <= max.0 && size.1 <= max.1) || size.0 == 0 || size.1 == 0 ==> r == size,
        // A size that is shrunk comes out even on both sides, at least two,
        // and touching the cap on one side.
        !((size.0 <= max.0 && size.1 <= max.1) || size.0 == 0 || size.1 == 0) ==> {
            &&& r.0 % 2 == 0 && r.1 % 2 == 0
            &&& r.0 >= 2 && r.1 >= 2
            &&& r.0 as nat == even_at_least_two(max.0 as nat) || r.1 as nat == even_at_least_two(max.1 as nat)
        },
{
    let (w, h) = size;
    if w == 0 || h == 0 || (w <= max.0 && h <= max.1) {
        return size;
    }
    let w = w as u128;
    let h = h as u128;
    let mw = max.0 as u128;
    let mh = max.1 as u128;
    assert(mw * h <= 0xFFFF_FFFF * 0xFFFF_FFFF) by (nonlinear_arith)
        requires
            mw <= 0xFFFF_FFFF,
            h <= 0xFFFF_FFFF,
    ;
    assert(mh * w <= 0xFFFF_FFFF * 0xFFFF_FFFF) by (nonlinear_arith)
        requires
            mh <= 0xFFFF_FFFF,
            w <= 0xFFFF_FFFF,
    ;
    if mw * h <= mh * w {
        assert(h * mw <= 0xFFFF_FFFF * 0xFFFF_FFFF) by (nonlinear_arith)
            requires
                mw <= 0xFFFF_FFFF,
                h <= 0xFFFF_FFFF,
        ;
        let n = h * mw;
        assert(2 * n + w <= u128::MAX && 2 * w <= u128::MAX);
        let scaled = (2 * n + w) / (2 * w);
        assert(scaled <= mh) by (nonlinear_arith)
            requires
                scaled == (2 * n + w) / (2 * w),
                n == h * mw,
                mw * h <= mh * w,
                w > 0,
        ;
        let a = even_exec(mw);
        let b = even_exec(scaled);
        assert(b as nat <= mh || mh < 2);
        (a, b)
    } else {
        assert(w * mh <= 0xFFFF_FFFF * 0xFFFF_FFFF) by (nonlinear_arith)
            requires
                mh <= 0xFFFF_FFFF,
                w <= 0xFFFF_FFFF,
        ;
        let n = w * mh;
        assert(2 * n + h <= u128::MAX && 2 * h <= u128::MAX);
        let scaled = (2 * n + h) / (2 * h);
        assert(scaled <= mw) by (nonlinear_arith)
            requires
                scaled == (2 * n + h) / (2 * h),
                n == w * mh,
                mh * w < mw * h,
                h > 0,
        ;
        let a = even_exec(scaled);
        let b = even_exec(mh);
        (a, b)
    }
}

} // verus!

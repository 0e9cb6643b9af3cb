//! Geometry and names the renderer is configured with.

use vstd::prelude::*;

use crate::text::{chars_of, same_str};

verus! {

broadcast use vstd::string::group_string_axioms;

/// A rectangle in desktop coordinates. Desktop coordinates can be
/// negative: a monitor placed left of the primary one starts below zero.
#[derive(Debug, Clone, Copy, PartialEq, Eq, Structural)]
pub struct Rect {
    pub x: i32,
    pub y: i32,
    pub width: u32,
    pub height: u32,
}

/// How a video is mapped onto a screen of a different shape.
#[derive(Debug, Clone, Copy, PartialEq, Eq, Structural)]
pub enum Fit {
    /// Fill the screen, crop whatever hangs over.
    Cover,
    /// Show the whole frame, leave bars where the shapes disagree.
    Contain,
    /// Fill the screen by distorting.
    Stretch,
}

impl Default for Fit {
    fn default() -> (f: Self)
        ensures
            f == Fit::Cover,
    {
        Fit::Cover
    }
}

/// The name a fit is written as.
pub open spec fn fit_name(f: Fit) -> Seq<char> {
    match f {
        Fit::Cover => "cover"@,
        Fit::Contain => "contain"@,
        Fit::Stretch => "stretch"@,
    }
}

/// The fit a name stands for.
pub open spec fn spec_fit_parse(text: Seq<char>) -> Option<Fit> {
    if text == "cover"@ {
        Some(Fit::Cover)
    } else if text == "contain"@ {
        Some(Fit::Contain)
    } else if text == "stretch"@ {
        Some(Fit::Stretch)
    } else {
        None
    }
}

impl Fit {
    pub fn parse(text: &str) -> (r: Option<Self>)
        ensures
            r == spec_fit_parse(text@),
    {
        let v = chars_of(text);
        if same_str(v.as_slice(), "cover") {
            Some(Fit::Cover)
        } else if same_str(v.as_slice(), "contain") {
            Some(Fit::Contain)
        } else if same_str(v.as_slice(), "stretch") {
            Some(Fit::Stretch)
        } else {
            None
        }
    }

    pub fn name(self) -> (s: &'static str)
        ensures
            s@ == fit_name(self),
    {
        match self {
            Fit::Cover => "cover",
            Fit::Contain => "contain",
            Fit::Stretch => "stretch",
        }
    }
}

/// Every fit reads back from its own name.
pub proof fn lemma_fit_round_trip(f: Fit)
    ensures
        spec_fit_parse(fit_name(f)) == Some(f),
{
    reveal_strlit("cover");
    reveal_strlit("contain");
    reveal_strlit("stretch");
    assert("cover"@ != "contain"@) by {
        assert("cover"@.len() != "contain"@.len());
    }
    assert("cover"@ != "stretch"@) by {
        assert("cover"@.len() != "stretch"@.len());
    }
    assert("contain"@ != "stretch"@) by {
        assert("contain"@[0] != "stretch"@[0]);
    }
}

/// Brightness, saturation and blur, applied in the shader after the
/// frame is fitted. All three are settings, not state: they survive a
/// change of wallpaper. `F` is the number type they are kept in.
#[derive(Debug, Clone, Copy, PartialEq)]
pub struct Visual<F> {
    /// 1 leaves the image alone. Below dims, above brightens.
    pub brightness: F,
    /// 1 leaves the image alone. 0 is greyscale.
    pub saturation: F,
    /// 0 is sharp, 1 is the widest blur on offer.
    pub blur: F,
}

/// How much the wallpaper answers to things outside the file: the sound
/// coming out of the machine, and the cursor. Both are amounts, 0 to 1.
#[derive(Debug, Clone, Copy, PartialEq)]
pub struct Motion<F> {
    pub reactive: F,
    pub parallax: F,
}

/// Settings a monitor keeps for itself. `None` in a field means "what the
/// desktop has".
#[derive(Debug, Clone, Copy, PartialEq)]
pub struct Overrides<F> {
    /// A 32:9 screen and a portrait one rarely want the same crop.
    pub fit: Option<Fit>,
    /// A dim second monitor beside a bright main one, say.
    pub visual: Option<Visual<F>>,
    /// A frame rate cap for this screen alone.
    pub fps: Option<u32>,
}

/// What one pass of drawing actually did: how many monitors are still
/// live, and how many presented a new frame.
#[derive(Debug, Clone, Copy, Default, PartialEq, Eq, Structural)]
pub struct Pass {
    pub live: usize,
    pub presented: usize,
}

/// The sum of channel `k` over the first `n` pixels from byte `start`.
pub open spec fn row_total(px: Seq<u8>, start: int, n: nat, k: int) -> int
    decreases n,
{
    if n == 0 {
        0
    } else {
        row_total(px, start, (n - 1) as nat, k) + px[start + (n - 1) * 4 + k]
    }
}

/// The sum of channel `k` over the first `rows` rows of an image `width`
/// pixels wide whose rows start `pitch` bytes apart.
pub open spec fn grid_total(px: Seq<u8>, pitch: int, width: nat, rows: nat, k: int) -> int
    decreases rows,
{
    if rows == 0 {
        0
    } else {
        grid_total(px, pitch, width, (rows - 1) as nat, k) + row_total(px, (rows - 1) * pitch, width, k)
    }
}

/// The mean of channel `k` over an image of `size` pixels, rounded down;
/// an image with no pixels averages to zero.
pub open spec fn spec_average(px: Seq<u8>, pitch: int, size: (u32, u32), k: int) -> int {
    let count = size.0 * size.1;
    grid_total(px, pitch, size.0 as nat, size.1 as nat, k) / if count > 0 {
        count
    } else {
        1
    }
}

proof fn lemma_row_total_bound(px: Seq<u8>, start: int, n: nat, k: int)
    ensures
        0 <= row_total(px, start, n, k) <= 255 * n,
    decreases n,
{
    if n > 0 {
        lemma_row_total_bound(px, start, (n - 1) as nat, k);
    }
}

proof fn lemma_grid_total_bound(px: Seq<u8>, pitch: int, width: nat, rows: nat, k: int)
    ensures
        0 <= grid_total(px, pitch, width, rows, k) <= 255 * width * rows,
    decreases rows,
{
    if rows > 0 {
        lemma_grid_total_bound(px, pitch, width, (rows - 1) as nat, k);
        lemma_row_total_bound(px, (rows - 1) * pitch, width, k);
        assert(255 * width * (rows - 1) + 255 * width == 255 * width * rows) by (nonlinear_arith);
    }
}

proof fn lemma_share_bound(t: int, n: int)
    by (nonlinear_arith)
    requires
        0 <= t <= 255 * n,
        n >= 1,
    ensures
        t / n <= 255,
{
}

/// The average colour of an image read back from the GPU: four bytes a
/// pixel, the first three averaged channel by channel, with rows `pitch`
/// bytes apart. The pitch is the driver's, not the width: a short row is
/// padded out to whatever alignment the hardware wants.
pub fn average_colour(pixels: &[u8], pitch: usize, size: (u32, u32)) -> (c: [u8; 3])
    requires
        size.1 == 0 || (size.1 - 1) * pitch + size.0 * 4 <= pixels@.len(),
        size.0 * size.1 * 255 <= u64::MAX,
    ensures
        forall|k: int| 0 <= k < 3 ==> c@[k] == spec_average(pixels@, pitch as int, size, k),
{
    let (width, height) = size;
    let ghost px = pixels@;
    let ghost w = width as int;
    let ghost h = height as int;
    let len: usize = pixels.len();
    let mut t0: u64 = 0;
    let mut t1: u64 = 0;
    let mut t2: u64 = 0;
    let mut row: u32 = 0;
    while row < height
        invariant
            pixels@ == px,
            size == (width, height),
            px.len() <= usize::MAX,
            height == 0 || (height - 1) * pitch + width * 4 <= px.len(),
            width * height * 255 <= u64::MAX,
            row <= height,
            t0 == grid_total(px, pitch as int, width as nat, row as nat, 0),
            t1 == grid_total(px, pitch as int, width as nat, row as nat, 1),
            t2 == grid_total(px, pitch as int, width as nat, row as nat, 2),
        decreases height - row,
    {
        assert(row * pitch + width * 4 <= (height - 1) * pitch + width * 4) by (nonlinear_arith)
            requires
                row < height,
                0 <= pitch,
        ;
        assert(0 <= width * 4);
        let start: usize = row as usize * pitch;
        proof {
            lemma_grid_total_bound(px, pitch as int, width as nat, row as nat, 0);
            lemma_grid_total_bound(px, pitch as int, width as nat, row as nat, 1);
            lemma_grid_total_bound(px, pitch as int, width as nat, row as nat, 2);
        }
        let mut column: u32 = 0;
        while column < width
            invariant
                pixels@ == px,
                px.len() <= usize::MAX,
                row < height,
                start + width * 4 <= px.len(),
                width * height * 255 <= u64::MAX,
                column <= width,
                grid_total(px, pitch as int, width as nat, row as nat, 0) <= 255 * width * row,
                grid_total(px, pitch as int, width as nat, row as nat, 1) <= 255 * width * row,
                grid_total(px, pitch as int, width as nat, row as nat, 2) <= 255 * width * row,
                t0 == grid_total(px, pitch as int, width as nat, row as nat, 0) + row_total(px, start as int, column as nat, 0),
                t1 == grid_total(px, pitch as int, width as nat, row as nat, 1) + row_total(px, start as int, column as nat, 1),
                t2 == grid_total(px, pitch as int, width as nat, row as nat, 2) + row_total(px, start as int, column as nat, 2),
            decreases width - column,
        {
            proof {
                lemma_row_total_bound(px, start as int, column as nat, 0);
                lemma_row_total_bound(px, start as int, column as nat, 1);
                lemma_row_total_bound(px, start as int, column as nat, 2);
                assert(255 * width * row + 255 * column + 255 <= width * height * 255) by (nonlinear_arith)
                    requires
                        column < width,
                        row < height,
                ;
            }
            let p: usize = start + column as usize * 4;
            t0 = t0 + pixels[p] as u64;
            t1 = t1 + pixels[p + 1] as u64;
            t2 = t2 + pixels[p + 2] as u64;
            column = column + 1;
        }
        row = row + 1;
    }
    let area: u64 = width as u64 * height as u64;
    let count: u64 = if area > 1 { area } else { 1 };
    proof {
        lemma_grid_total_bound(px, pitch as int, width as nat, height as nat, 0);
        lemma_grid_total_bound(px, pitch as int, width as nat, height as nat, 1);
        lemma_grid_total_bound(px, pitch as int, width as nat, height as nat, 2);
        let n = count as int;
        assert(255 * w * h <= 255 * n) by (nonlinear_arith)
            requires
                n == if w * h > 1 { w * h } else { 1 },
                0 <= w,
                0 <= h,
        ;
        lemma_share_bound(t0 as int, n);
        lemma_share_bound(t1 as int, n);
        lemma_share_bound(t2 as int, n);
    }
    let c: [u8; 3] = [(t0 / count) as u8, (t1 / count) as u8, (t2 / count) as u8];
    assert forall|k: int| 0 <= k < 3 implies c@[k] == spec_average(pixels@, pitch as int, size, k) by {
        if w * h == 0 {
            assert(count == 1);
        }
    }
    c
}

} // verus!

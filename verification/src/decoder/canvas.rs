//! The canvas an animated image is put together on. A GIF stores each frame
//! as only the rectangle that changed, so the picture on screen is the
//! first frame with every later one painted over it, and a frame may ask
//! for its rectangle to be wiped before the next one comes.
//!
//! Pixels are BGRA with premultiplied alpha, four bytes each, row after row
//! with nothing between the rows.

use vstd::prelude::*;

verus! {

/// An image being put together.
pub struct Canvas {
    pub width: u32,
    pub height: u32,
    pub pixels: Vec<u8>,
}

/// Where the bytes of the pixel at `(x, y)` start on a canvas of the given
/// size, or `None` when the pixel falls outside it.
pub open spec fn spec_offset(width: int, height: int, x: int, y: int) -> Option<int> {
    if x >= width || y >= height {
        None
    } else {
        Some((y * width + x) * 4)
    }
}

/// How many bytes a wipe of `width` pixels from `start` covers: the row
/// asked for, or what is left of the canvas if that is less.
pub open spec fn wipe_span(len: int, start: int, width: int) -> int {
    if width * 4 < len - start {
        width * 4
    } else {
        len - start
    }
}

/// Whether byte `j` lies in the first `rows` rows of a wipe of the
/// rectangle at `(left, top)`, `width` pixels wide, on a canvas of
/// `cw` by `ch` pixels holding `len` bytes.
pub open spec fn wiped(cw: int, ch: int, len: int, left: int, top: int, width: int, rows: nat, j: int) -> bool
    decreases rows,
{
    if rows == 0 {
        false
    } else {
        wiped(cw, ch, len, left, top, width, (rows - 1) as nat, j) || match spec_offset(
            cw,
            ch,
            left,
            top + rows - 1,
        ) {
            Some(start) => start <= j < start + wipe_span(len, start, width),
            None => false,
        }
    }
}

/// The bytes of `canvas` with the rectangle wiped to transparent black.
pub open spec fn spec_wipe(
    canvas: Seq<u8>,
    cw: int,
    ch: int,
    left: int,
    top: int,
    width: int,
    height: nat,
) -> Seq<u8> {
    Seq::new(
        canvas.len(),
        |j: int|
            if wiped(cw, ch, canvas.len() as int, left, top, width, height, j) {
                0u8
            } else {
                canvas[j]
            },
    )
}

/// One channel of a premultiplied pixel painted over another: the source,
/// plus what its alpha leaves of the destination, held at full.
pub open spec fn mix(src: u8, dst: u8, alpha: u8) -> u8 {
    let v = src + dst * (255 - alpha) / 255;
    if v > 255 {
        255
    } else {
        v as u8
    }
}

/// The four bytes at `d` with the source pixel at `s` painted over them. A
/// fully transparent source leaves them alone; a fully opaque one comes
/// out as itself.
pub open spec fn over(canvas: Seq<u8>, px: Seq<u8>, s: int, d: int) -> Seq<u8> {
    let a = px[s + 3];
    if a == 0 {
        canvas
    } else {
        canvas.update(d, mix(px[s], canvas[d], a)).update(d + 1, mix(px[s + 1], canvas[d + 1], a)).update(
            d + 2,
            mix(px[s + 2], canvas[d + 2], a),
        ).update(d + 3, mix(px[s + 3], canvas[d + 3], a))
    }
}

/// The first `n` pixels of one source row, starting at byte `source` of
/// `px`, painted left to right from byte `start` of the canvas. A pixel
/// that would read past the source or write past the canvas is not
/// painted, and neither is any after it.
pub open spec fn paint_row(canvas: Seq<u8>, px: Seq<u8>, source: int, start: int, n: nat) -> Seq<u8>
    decreases n,
{
    if n == 0 {
        canvas
    } else {
        let before = paint_row(canvas, px, source, start, (n - 1) as nat);
        let s = source + (n - 1) * 4;
        let d = start + (n - 1) * 4;
        if s + 4 <= px.len() && d + 4 <= before.len() {
            over(before, px, s, d)
        } else {
            before
        }
    }
}

/// The first `n` rows of a frame `width` pixels wide painted, top to
/// bottom, at `(left, top)` on a canvas of `cw` by `ch` pixels. A row that
/// starts off the canvas is not painted.
pub open spec fn paint_rows(
    canvas: Seq<u8>,
    cw: int,
    ch: int,
    px: Seq<u8>,
    left: int,
    top: int,
    width: nat,
    n: nat,
) -> Seq<u8>
    decreases n,
{
    if n == 0 {
        canvas
    } else {
        let before = paint_rows(canvas, cw, ch, px, left, top, width, (n - 1) as nat);
        match spec_offset(cw, ch, left, top + n - 1) {
            Some(start) => paint_row(before, px, (n - 1) * width * 4, start, width),
            None => before,
        }
    }
}

/// Painting never changes how many bytes the canvas holds.
pub proof fn lemma_paint_row_len(canvas: Seq<u8>, px: Seq<u8>, source: int, start: int, n: nat)
    requires
        0 <= source,
        0 <= start,
    ensures
        paint_row(canvas, px, source, start, n).len() == canvas.len(),
    decreases n,
{
    if n > 0 {
        lemma_paint_row_len(canvas, px, source, start, (n - 1) as nat);
    }
}

/// Once a pixel of a row cannot be painted, none after it is.
proof fn lemma_paint_row_stops(canvas: Seq<u8>, px: Seq<u8>, source: int, start: int, k: nat, n: nat)
    requires
        0 <= source,
        0 <= start,
        k <= n,
        source + k * 4 + 4 > px.len() || start + k * 4 + 4 > canvas.len(),
    ensures
        paint_row(canvas, px, source, start, n) == paint_row(canvas, px, source, start, k),
    decreases n,
{
    if n > k {
        lemma_paint_row_stops(canvas, px, source, start, k, (n - 1) as nat);
        lemma_paint_row_len(canvas, px, source, start, (n - 1) as nat);
    }
}

/// Painting never changes how many bytes the canvas holds.
pub proof fn lemma_paint_rows_len(
    canvas: Seq<u8>,
    cw: int,
    ch: int,
    px: Seq<u8>,
    left: int,
    top: int,
    width: nat,
    n: nat,
)
    requires
        0 <= cw,
        0 <= left,
        0 <= top,
    ensures
        paint_rows(canvas, cw, ch, px, left, top, width, n).len() == canvas.len(),
    decreases n,
{
    if n > 0 {
        lemma_paint_rows_len(canvas, cw, ch, px, left, top, width, (n - 1) as nat);
        let before = paint_rows(canvas, cw, ch, px, left, top, width, (n - 1) as nat);
        if let Some(start) = spec_offset(cw, ch, left, top + n - 1) {
            lemma_paint_row_len(before, px, (n - 1) * width * 4, start, width);
        }
    }
}

/// Wiping a rectangle, or starting clean, never changes how many bytes the
/// canvas holds.
pub proof fn lemma_wipe_len(
    canvas: Seq<u8>,
    cw: int,
    ch: int,
    frames: Seq<crate::decoder::still::AnimFrame>,
    index: int,
)
    ensures
        crate::decoder::still::compose_base(canvas, cw, ch, frames, index).len() == canvas.len(),
{
}

/// See [`mix`].
fn mix_byte(src: u8, dst: u8, alpha: u8) -> (r: u8)
    ensures
        r == mix(src, dst, alpha),
{
    let inverse: u32 = 255 - alpha as u32;
    assert(dst * inverse <= 255 * 255) by (nonlinear_arith)
        requires
            dst <= 255,
            inverse <= 255,
    ;
    let kept: u32 = dst as u32 * inverse / 255;
    let v: u32 = src as u32 + kept;
    if v > 255 {
        255
    } else {
        v as u8
    }
}

impl Canvas {
    /// The pixels fill the canvas exactly.
    pub open spec fn wf(&self) -> bool {
        self.pixels@.len() == self.width as int * self.height as int * 4
    }

    /// A transparent canvas of the given size.
    pub fn blank(width: u32, height: u32) -> (c: Canvas)
        requires
            width as int * height as int * 4 <= usize::MAX,
        ensures
            c.wf(),
            c.width == width,
            c.height == height,
            forall|j: int| 0 <= j < c.pixels@.len() ==> c.pixels@[j] == 0,
    {
        let len: usize = width as usize * height as usize * 4;
        let mut pixels: Vec<u8> = Vec::new();
        while pixels.len() < len
            invariant
                pixels@.len() <= len,
                forall|j: int| 0 <= j < pixels@.len() ==> pixels@[j] == 0,
            decreases len - pixels@.len(),
        {
            pixels.push(0);
        }
        Canvas { width, height, pixels }
    }

    /// Where the bytes of the pixel at `(x, y)` start, or `None` when it
    /// falls outside the canvas. A pixel inside has all four of its bytes
    /// on the canvas.
    pub fn offset(&self, x: u32, y: u32) -> (r: Option<usize>)
        requires
            self.wf(),
        ensures
            match r {
                Some(o) => spec_offset(self.width as int, self.height as int, x as int, y as int)
                    == Some(o as int) && o + 4 <= self.pixels@.len(),
                None => spec_offset(self.width as int, self.height as int, x as int, y as int)
                    is None,
            },
    {
        if x >= self.width || y >= self.height {
            return None;
        }
        let n: usize = self.pixels.len();
        let ghost w = self.width as int;
        let ghost h = self.height as int;
        assert((y * w + x + 1) * 4 <= w * h * 4) by (nonlinear_arith)
            requires
                (x as int) < w,
                (y as int) < h,
                0 <= x,
                0 <= y,
        ;
        assert((y * w) <= (y * w + x)) by (nonlinear_arith)
            requires
                0 <= x,
        ;
        assert(n == w * h * 4);
        Some((y as usize * self.width as usize + x as usize) * 4)
    }

    /// Wipe a rectangle back to transparent, which on a wallpaper is black.
    /// Each of its rows that starts on the canvas is wiped for `width`
    /// pixels from there, or to the end of the canvas if that comes first.
    pub fn clear(&mut self, left: u32, top: u32, width: u32, height: u32)
        requires
            old(self).wf(),
            top as int + height as int <= u32::MAX as int + 1,
        ensures
            final(self).width == old(self).width,
            final(self).height == old(self).height,
            final(self).pixels@ == spec_wipe(
                old(self).pixels@,
                old(self).width as int,
                old(self).height as int,
                left as int,
                top as int,
                width as int,
                height as nat,
            ),
    {
        let ghost before = self.pixels@;
        let ghost cw = self.width as int;
        let ghost ch = self.height as int;
        let ghost len = before.len() as int;
        let n: usize = self.pixels.len();
        assert(len <= usize::MAX);
        let mut row: u32 = 0;
        while row < height
            invariant
                self.width as int == cw,
                self.height as int == ch,
                self.wf(),
                self.pixels@.len() == len,
                before.len() == len,
                len <= usize::MAX,
                row <= height,
                top as int + height as int <= u32::MAX as int + 1,
                forall|j: int|
                    0 <= j < len ==> self.pixels@[j] == if wiped(
                        cw,
                        ch,
                        len,
                        left as int,
                        top as int,
                        width as int,
                        row as nat,
                        j,
                    ) {
                        0u8
                    } else {
                        before[j]
                    },
            decreases height - row,
        {
            let ghost next = (row + 1) as nat;
            match self.offset(left, top + row) {
                Some(start) => {
                    let room: usize = self.pixels.len() - start;
                    let span: usize = if (width as u64) * 4 < room as u64 {
                        width as usize * 4
                    } else {
                        room
                    };
                    assert(span == wipe_span(len, start as int, width as int));
                    let mut k: usize = 0;
                    while k < span
                        invariant
                            self.width as int == cw,
                            self.height as int == ch,
                            self.wf(),
                            self.pixels@.len() == len,
                            k <= span,
                            start + span <= len,
                            len <= usize::MAX,
                            before.len() == len,
                            forall|j: int|
                                0 <= j < len ==> self.pixels@[j] == if wiped(
                                    cw,
                                    ch,
                                    len,
                                    left as int,
                                    top as int,
                                    width as int,
                                    row as nat,
                                    j,
                                ) || (start <= j < start + k) {
                                    0u8
                                } else {
                                    before[j]
                                },
                        decreases span - k,
                    {
                        self.pixels.set(start + k, 0);
                        k = k + 1;
                    }
                    assert forall|j: int| 0 <= j < len implies self.pixels@[j] == if wiped(
                        cw,
                        ch,
                        len,
                        left as int,
                        top as int,
                        width as int,
                        next,
                        j,
                    ) {
                        0u8
                    } else {
                        before[j]
                    } by {
                        assert(wiped(cw, ch, len, left as int, top as int, width as int, next, j)
                            == (wiped(cw, ch, len, left as int, top as int, width as int, row as nat, j)
                            || (start <= j < start + span)));
                    }
                },
                None => {
                    assert forall|j: int| 0 <= j < len implies self.pixels@[j] == if wiped(
                        cw,
                        ch,
                        len,
                        left as int,
                        top as int,
                        width as int,
                        next,
                        j,
                    ) {
                        0u8
                    } else {
                        before[j]
                    } by {
                        assert(wiped(cw, ch, len, left as int, top as int, width as int, next, j)
                            == wiped(cw, ch, len, left as int, top as int, width as int, row as nat, j));
                    }
                },
            }
            row = row + 1;
        }
        assert(self.pixels@ =~= spec_wipe(before, cw, ch, left as int, top as int, width as int, height as nat));
    }

    /// Paint a frame onto the canvas, source over, with its top left
    /// corner at `(left, top)`. `pixels` is the frame, `width` pixels to a
    /// row with nothing between the rows.
    ///
    /// The pixels are premultiplied, so a channel becomes the source plus
    /// what the source's alpha leaves of the destination. A fully opaque
    /// source pixel is copied outright, and a fully transparent one changes
    /// nothing.
    pub fn blend(&mut self, pixels: &[u8], left: u32, top: u32, width: u32, height: u32)
        requires
            old(self).wf(),
            top as int + height as int <= u32::MAX as int + 1,
        ensures
            final(self).width == old(self).width,
            final(self).height == old(self).height,
            final(self).pixels@ == paint_rows(
                old(self).pixels@,
                old(self).width as int,
                old(self).height as int,
                pixels@,
                left as int,
                top as int,
                width as nat,
                height as nat,
            ),
    {
        let ghost before = self.pixels@;
        let ghost cw = self.width as int;
        let ghost ch = self.height as int;
        let ghost len = before.len() as int;
        let ghost px = pixels@;
        let n: usize = self.pixels.len();
        assert(len <= usize::MAX);
        let mut row: u32 = 0;
        let mut source: u128 = 0;
        while row < height
            invariant
                self.width as int == cw,
                self.height as int == ch,
                self.wf(),
                self.pixels@.len() == len,
                len <= usize::MAX,
                pixels@ == px,
                row <= height,
                top as int + height as int <= u32::MAX as int + 1,
                source == row as int * width as int * 4,
                self.pixels@ == paint_rows(before, cw, ch, px, left as int, top as int, width as nat, row as nat),
            decreases height - row,
        {
            assert(row as int * width as int * 4 <= 0x4_0000_0000_0000_0000) by (nonlinear_arith)
                requires
                    row <= 0xffff_ffff,
                    width <= 0xffff_ffff,
            ;
            assert((row as int + 1) * width as int * 4 <= 0x4_0000_0000_0000_0000) by (nonlinear_arith)
                requires
                    row + 1 <= 0x1_0000_0000,
                    width <= 0xffff_ffff,
            ;
            match self.offset(left, top + row) {
                Some(start) => {
                    let ghost row_before = self.pixels@;
                    let mut column: u32 = 0;
                    while column < width
                        invariant_except_break
                            column <= width,
                            self.pixels@ == paint_row(row_before, px, source as int, start as int, column as nat),
                        invariant
                            self.width as int == cw,
                            self.height as int == ch,
                            self.wf(),
                            self.pixels@.len() == len,
                            row_before.len() == len,
                            len <= usize::MAX,
                            pixels@ == px,
                            source <= 0x4_0000_0000_0000_0000,
                            start < len,
                        ensures
                            self.pixels@ == paint_row(row_before, px, source as int, start as int, width as nat),
                        decreases width - column,
                    {
                        let s: u128 = source + column as u128 * 4;
                        let d: u128 = start as u128 + column as u128 * 4;
                        if s + 4 > pixels.len() as u128 || d + 4 > self.pixels.len() as u128 {
                            proof {
                                lemma_paint_row_stops(
                                    row_before,
                                    px,
                                    source as int,
                                    start as int,
                                    column as nat,
                                    width as nat,
                                );
                            }
                            break;
                        }
                        proof {
                            lemma_paint_row_len(row_before, px, source as int, start as int, column as nat);
                        }
                        let s: usize = s as usize;
                        let d: usize = d as usize;
                        let alpha: u8 = pixels[s + 3];
                        if alpha == 255 {
                            self.pixels.set(d, pixels[s]);
                            self.pixels.set(d + 1, pixels[s + 1]);
                            self.pixels.set(d + 2, pixels[s + 2]);
                            self.pixels.set(d + 3, pixels[s + 3]);
                        } else if alpha != 0 {
                            let b0: u8 = mix_byte(pixels[s], self.pixels[d], alpha);
                            self.pixels.set(d, b0);
                            let b1: u8 = mix_byte(pixels[s + 1], self.pixels[d + 1], alpha);
                            self.pixels.set(d + 1, b1);
                            let b2: u8 = mix_byte(pixels[s + 2], self.pixels[d + 2], alpha);
                            self.pixels.set(d + 2, b2);
                            let b3: u8 = mix_byte(pixels[s + 3], self.pixels[d + 3], alpha);
                            self.pixels.set(d + 3, b3);
                        }
                        proof {
                            let prev = paint_row(row_before, px, source as int, start as int, column as nat);
                            assert(self.pixels@ =~= over(prev, px, s as int, d as int));
                        }
                        column = column + 1;
                    }
                },
                None => {},
            }
            assert((row as int + 1) * width as int * 4 == row as int * width as int * 4 + width as int * 4)
                by (nonlinear_arith);
            source = source + width as u128 * 4;
            row = row + 1;
        }
    }
}

} // verus!

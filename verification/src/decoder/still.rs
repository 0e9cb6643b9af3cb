//! Images and GIFs, which are decoded once on the CPU rather than per frame
//! on the GPU.

use vstd::prelude::*;

use crate::decoder::canvas::{paint_rows, spec_wipe, Canvas};
use crate::paths::{extension_in, lower_extension};

verus! {

/// The extensions that open as a still image or an animated GIF.
pub open spec fn still_extensions() -> Seq<Seq<char>> {
    seq![
        "png"@, "jpg"@, "jpeg"@, "jpe"@, "bmp"@, "gif"@, "webp"@, "tif"@, "tiff"@, "jxr"@,
        "dds"@,
    ]
}

/// Whether a file opens as an image: its extension says so, in any case.
pub open spec fn spec_is_still(path: Seq<char>) -> bool {
    lower_extension(path) matches Some(e) && still_extensions().contains(e)
}

/// Whether this file is one the image decoder should open rather than the
/// video decoder. The extension decides, in any case.
pub fn is_still(path: &str) -> (r: bool)
    ensures
        r == spec_is_still(path@),
{
    let choices: [&str; 11] = [
        "png", "jpg", "jpeg", "jpe", "bmp", "gif", "webp", "tif", "tiff", "jxr", "dds",
    ];
    let r = extension_in(path, choices.as_slice());
    proof {
        let c = choices@;
        assert(c.map_values(|s: &str| s@) =~= still_extensions());
        if let Some(e) = lower_extension(path@) {
            if r {
                let i = choose|i: int| 0 <= i < c.len() && e == (#[trigger] c[i])@;
                assert(still_extensions()[i] == e);
            }
            if still_extensions().contains(e) {
                let i = choose|i: int| 0 <= i < still_extensions().len() && still_extensions()[i] == e;
                assert(c[i]@ == e);
            }
        }
    }
    r
}

/// What a frame with no delay recorded is given, in nanoseconds. Browsers
/// settled on a tenth of a second decades ago, and GIFs in the wild are
/// made for it.
pub const DEFAULT_DELAY_NS: u64 = 100_000_000;

/// The most playback time one update may move an animation on, in
/// nanoseconds: an animation hidden behind a game for an hour resumes where
/// it was, not an hour further on.
pub const MAX_STEP_NS: u64 = 200_000_000;

/// How long a still image counts as one play, in seconds, for a playlist
/// set to move on when the item ends: a photo has no end of its own.
pub const STILL_LENGTH_SECS: u64 = 30;

/// One frame of an animated image: how long it lasts, where it sits, and
/// what happens to its rectangle before the next frame.
#[derive(Clone, Copy, Debug, PartialEq, Eq)]
pub struct AnimFrame {
    pub delay_ns: u64,
    /// 2 means wipe this rectangle before the next frame; anything else
    /// leaves it ("restore previous" is rare enough to be treated as 1).
    pub disposal: u8,
    pub left: u32,
    pub top: u32,
    pub width: u32,
    pub height: u32,
}

/// A frame's delay: hundredths of a second as recorded, or the default for
/// none or zero. Zero means "as fast as possible", which every renderer
/// has long read as the default rather than a busy loop.
pub open spec fn spec_delay(hundredths: Option<u16>) -> u64 {
    match hundredths {
        Some(h) => if h > 0 {
            (h * 10_000_000) as u64
        } else {
            DEFAULT_DELAY_NS
        },
        None => DEFAULT_DELAY_NS,
    }
}

/// What the container says about one frame, each part as it was found:
/// its size, its delay in hundredths of a second, its disposal, and where
/// it sits. Whatever is missing falls back: no size is nothing to paint,
/// no position is the origin, and no delay is the default.
pub fn frame_meta(
    size: Option<(u32, u32)>,
    hundredths: Option<u16>,
    disposal: Option<u8>,
    left: Option<u16>,
    top: Option<u16>,
) -> (f: AnimFrame)
    ensures
        f.delay_ns == spec_delay(hundredths),
        f.delay_ns > 0,
        f.disposal == (match disposal {
            Some(d) => d,
            None => 0u8,
        }),
        f.left == (match left {
            Some(l) => l as u32,
            None => 0u32,
        }),
        f.top == (match top {
            Some(t) => t as u32,
            None => 0u32,
        }),
        (f.width, f.height) == (match size {
            Some(s) => s,
            None => (0u32, 0u32),
        }),
{
    let mut meta = AnimFrame { delay_ns: DEFAULT_DELAY_NS, disposal: 0, left: 0, top: 0, width: 0, height: 0 };
    if let Some((width, height)) = size {
        meta.width = width;
        meta.height = height;
    }
    if let Some(h) = hundredths {
        if h > 0 {
            meta.delay_ns = h as u64 * 10_000_000;
        }
    }
    if let Some(d) = disposal {
        meta.disposal = d;
    }
    if let Some(l) = left {
        meta.left = l as u32;
    }
    if let Some(t) = top {
        meta.top = t as u32;
    }
    meta
}

/// The delays of a run of frames.
pub open spec fn delays_of(frames: Seq<AnimFrame>) -> Seq<u64> {
    Seq::new(frames.len(), |i: int| frames[i].delay_ns)
}

/// Whether a frame can be painted on a canvas without its rows running
/// past the largest row number there is.
pub open spec fn fits_rows(f: AnimFrame) -> bool {
    f.top as int + f.height as int <= u32::MAX as int + 1
}

/// What the canvas is painted on for frame `index`: a clean canvas at the
/// first frame, the canvas with the previous frame's rectangle wiped if
/// that frame asked for it, and the canvas as it is otherwise.
pub open spec fn compose_base(canvas: Seq<u8>, cw: int, ch: int, frames: Seq<AnimFrame>, index: int) -> Seq<u8> {
    if index == 0 {
        Seq::new(canvas.len(), |j: int| 0u8)
    } else if frames[index - 1].disposal == 2 {
        let p = frames[index - 1];
        spec_wipe(canvas, cw, ch, p.left as int, p.top as int, p.width as int, p.height as nat)
    } else {
        canvas
    }
}

/// Bring the canvas up to frame `index`, whose decoded pixels are `pixels`.
/// Coming back round to the first frame starts the canvas clean; otherwise
/// every pass would paint on top of the last one.
pub fn compose(canvas: &mut Canvas, frames: &[AnimFrame], index: usize, pixels: &[u8])
    requires
        old(canvas).wf(),
        index < frames@.len(),
        fits_rows(frames@[index as int]),
        index > 0 ==> fits_rows(frames@[index - 1]),
    ensures
        final(canvas).width == old(canvas).width,
        final(canvas).height == old(canvas).height,
        final(canvas).wf(),
        final(canvas).pixels@ == paint_rows(
            compose_base(
                old(canvas).pixels@,
                old(canvas).width as int,
                old(canvas).height as int,
                frames@,
                index as int,
            ),
            old(canvas).width as int,
            old(canvas).height as int,
            pixels@,
            frames@[index as int].left as int,
            frames@[index as int].top as int,
            frames@[index as int].width as nat,
            frames@[index as int].height as nat,
        ),
{
    let ghost before = canvas.pixels@;
    if index == 0 {
        let mut j: usize = 0;
        while j < canvas.pixels.len()
            invariant
                canvas.wf(),
                canvas.width == old(canvas).width,
                canvas.height == old(canvas).height,
                canvas.pixels@.len() == before.len(),
                j <= canvas.pixels@.len(),
                forall|k: int| 0 <= k < j ==> canvas.pixels@[k] == 0,
            decreases canvas.pixels@.len() - j,
        {
            canvas.pixels.set(j, 0);
            j = j + 1;
        }
        assert(canvas.pixels@ =~= Seq::new(before.len(), |j: int| 0u8));
    } else {
        let previous = frames[index - 1];
        if previous.disposal == 2 {
            canvas.clear(previous.left, previous.top, previous.width, previous.height);
        }
    }
    let frame = frames[index];
    proof {
        crate::decoder::canvas::lemma_wipe_len(
            before,
            canvas.width as int,
            canvas.height as int,
            frames@,
            index as int,
        );
    }
    canvas.blend(pixels, frame.left, frame.top, frame.width, frame.height);
    proof {
        crate::decoder::canvas::lemma_paint_rows_len(
            compose_base(before, canvas.width as int, canvas.height as int, frames@, index as int),
            canvas.width as int,
            canvas.height as int,
            pixels@,
            frame.left as int,
            frame.top as int,
            frame.width as nat,
            frame.height as nat,
        );
    }
}

/// Where playback of an image has reached.
pub struct Playhead {
    /// The frame on screen.
    pub index: usize,
    /// How far into that frame playback has reached.
    pub within_ns: u64,
    /// Time on screen in all, which is how a still image earns a loop
    /// count.
    pub total_ns: u64,
    /// The engine's clock at the last update, if there has been one.
    pub last_clock_ns: Option<u64>,
    pub loops: u32,
}

/// The frames passed while the time in hand covers the one on screen: each
/// takes its delay off the time in hand, and coming round past the last
/// frame to the first counts a loop. The frame, the time left into it, and
/// the loop count it comes to.
pub open spec fn settle(delays: Seq<u64>, index: int, within: nat, loops: u32) -> (int, nat, u32)
    decreases within,
{
    if 0 <= index < delays.len() && delays[index] > 0 && within >= delays[index] {
        let rest = (within - delays[index]) as nat;
        if index + 1 >= delays.len() {
            settle(delays, 0, rest, if loops == u32::MAX { loops } else { (loops + 1) as u32 })
        } else {
            settle(delays, index + 1, rest, loops)
        }
    } else {
        (index, within, loops)
    }
}

/// The real time an update moves playback on by: the engine's clock since
/// the last update, at most [`MAX_STEP_NS`], and nothing at the first.
pub open spec fn spec_step(last: Option<u64>, elapsed: u64) -> u64 {
    match last {
        Some(previous) => {
            let gap: u64 = if elapsed >= previous { (elapsed - previous) as u64 } else { 0 };
            if gap < MAX_STEP_NS { gap } else { MAX_STEP_NS }
        },
        None => 0,
    }
}

impl Playhead {
    /// At the first frame, with nothing played.
    pub fn new() -> (p: Self)
        ensures
            p.index == 0,
            p.within_ns == 0,
            p.total_ns == 0,
            p.last_clock_ns is None,
            p.loops == 0,
    {
        Playhead { index: 0, within_ns: 0, total_ns: 0, last_clock_ns: None, loops: 0 }
    }

    /// Read the engine's clock, `elapsed_ns`, and return how much real time
    /// playback moves on by: see [`spec_step`]. The clock runs while a
    /// monitor is covered and this image is not asked for frames, and a
    /// wallpaper has nothing to stay in sync with; it simply resumes.
    pub fn step(&mut self, elapsed_ns: u64) -> (step: u64)
        ensures
            step == spec_step(old(self).last_clock_ns, elapsed_ns),
            step <= MAX_STEP_NS,
            final(self).last_clock_ns == Some(elapsed_ns),
            final(self).index == old(self).index,
            final(self).within_ns == old(self).within_ns,
            final(self).total_ns == old(self).total_ns,
            final(self).loops == old(self).loops,
    {
        let step: u64 = match self.last_clock_ns {
            Some(previous) => {
                let gap: u64 = elapsed_ns.saturating_sub(previous);
                if gap < MAX_STEP_NS {
                    gap
                } else {
                    MAX_STEP_NS
                }
            },
            None => 0,
        };
        self.last_clock_ns = Some(elapsed_ns);
        step
    }

    /// Move playback on by `step_ns` of the image's own time. A still
    /// image only counts the time, a play for every thirty seconds; an
    /// animation passes every frame the time covers, however many, so a
    /// long stall does not leave it a frame behind for good. Returns
    /// whether the frame on screen changed.
    pub fn advance(&mut self, frames: &[AnimFrame], step_ns: u64) -> (moved: bool)
        requires
            frames@.len() == 0 || old(self).index < frames@.len(),
            forall|i: int| 0 <= i < frames@.len() ==> frames@[i].delay_ns > 0,
            old(self).total_ns + step_ns <= u64::MAX,
            frames@.len() > 0 ==> old(self).within_ns + step_ns <= u64::MAX,
        ensures
            final(self).total_ns == old(self).total_ns + step_ns,
            final(self).last_clock_ns == old(self).last_clock_ns,
            frames@.len() == 0 ==> {
                &&& final(self).loops == (final(self).total_ns / 1_000_000_000 / STILL_LENGTH_SECS) as u32
                &&& final(self).index == old(self).index
                &&& final(self).within_ns == old(self).within_ns
                &&& !moved
            },
            frames@.len() > 0 ==> {
                let s = settle(
                    delays_of(frames@),
                    old(self).index as int,
                    (old(self).within_ns + step_ns) as nat,
                    old(self).loops,
                );
                &&& final(self).index as int == s.0
                &&& final(self).within_ns as nat == s.1
                &&& final(self).loops == s.2
                &&& final(self).index < frames@.len()
                &&& moved == (old(self).within_ns + step_ns >= frames@[old(self).index as int].delay_ns)
            },
    {
        self.total_ns = self.total_ns + step_ns;
        if frames.len() == 0 {
            self.loops = (self.total_ns / 1_000_000_000 / STILL_LENGTH_SECS) as u32;
            return false;
        }
        let ghost delays = delays_of(frames@);
        let ghost goal = settle(delays, self.index as int, (self.within_ns + step_ns) as nat, self.loops);
        self.within_ns = self.within_ns + step_ns;
        let mut moved = false;
        while self.within_ns >= frames[self.index].delay_ns
            invariant
                frames@.len() > 0,
                self.index < frames@.len(),
                delays == delays_of(frames@),
                forall|i: int| 0 <= i < frames@.len() ==> frames@[i].delay_ns > 0,
                settle(delays, self.index as int, self.within_ns as nat, self.loops) == goal,
                self.total_ns == old(self).total_ns + step_ns,
                self.last_clock_ns == old(self).last_clock_ns,
                old(self).index < frames@.len(),
                moved ==> (old(self).within_ns + step_ns >= frames@[old(self).index as int].delay_ns),
                !moved ==> self.index == old(self).index && self.within_ns == old(self).within_ns + step_ns,
            decreases self.within_ns,
        {
            self.within_ns = self.within_ns - frames[self.index].delay_ns;
            self.index = self.index + 1;
            if self.index >= frames.len() {
                self.index = 0;
                self.loops = self.loops.saturating_add(1);
            }
            moved = true;
        }
        moved
    }
}

} // verus!

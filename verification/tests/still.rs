use wallpaper_core::decoder::canvas::Canvas;
use wallpaper_core::decoder::still::{compose, frame_meta, AnimFrame, Playhead, DEFAULT_DELAY_NS};

fn frame(delay_ms: u64, disposal: u8, left: u32, top: u32, width: u32, height: u32) -> AnimFrame {
    AnimFrame { delay_ns: delay_ms * 1_000_000, disposal, left, top, width, height }
}

fn opaque(n: usize, b: u8) -> Vec<u8> {
    (0..n).flat_map(|_| [b, b, b, 255]).collect()
}

fn pixel(c: &Canvas, x: usize, y: usize) -> [u8; 4] {
    let o = (y * c.width as usize + x) * 4;
    [c.pixels[o], c.pixels[o + 1], c.pixels[o + 2], c.pixels[o + 3]]
}

#[test]
fn missing_metadata_falls_back_to_the_defaults() {
    let f = frame_meta(None, None, None, None, None);
    assert_eq!(f, AnimFrame { delay_ns: DEFAULT_DELAY_NS, disposal: 0, left: 0, top: 0, width: 0, height: 0 });
    let zero = frame_meta(Some((4, 3)), Some(0), Some(2), Some(1), Some(2));
    assert_eq!(zero.delay_ns, 100_000_000);
    assert_eq!((zero.disposal, zero.left, zero.top, zero.width, zero.height), (2, 1, 2, 4, 3));
    assert_eq!(frame_meta(None, Some(7), None, None, None).delay_ns, 70_000_000);
}

#[test]
fn offsets_stop_at_the_edge_of_the_canvas() {
    let c = Canvas::blank(4, 3);
    assert_eq!(c.pixels.len(), 48);
    assert_eq!(c.offset(0, 0), Some(0));
    assert_eq!(c.offset(3, 2), Some(44));
    assert_eq!(c.offset(4, 0), None);
    assert_eq!(c.offset(0, 3), None);
}

#[test]
fn a_wipe_clears_its_rows_and_nothing_else() {
    let mut c = Canvas::blank(4, 3);
    c.blend(&opaque(12, 9), 0, 0, 4, 3);
    c.clear(1, 1, 2, 5);
    assert_eq!(pixel(&c, 0, 1), [9, 9, 9, 255]);
    assert_eq!(pixel(&c, 1, 1), [0, 0, 0, 0]);
    assert_eq!(pixel(&c, 2, 2), [0, 0, 0, 0]);
    assert_eq!(pixel(&c, 3, 2), [9, 9, 9, 255]);
    assert_eq!(pixel(&c, 1, 0), [9, 9, 9, 255]);
    // A row that starts on the canvas runs on to its end at most.
    let mut d = Canvas::blank(2, 2);
    d.blend(&opaque(4, 5), 0, 0, 2, 2);
    d.clear(1, 1, 10, 1);
    assert_eq!(pixel(&d, 0, 1), [5, 5, 5, 255]);
    assert_eq!(pixel(&d, 1, 1), [0, 0, 0, 0]);
}

#[test]
fn painting_is_source_over_with_premultiplied_alpha() {
    let mut c = Canvas::blank(3, 1);
    c.blend(&opaque(3, 200), 0, 0, 3, 1);
    // Opaque: copied. Transparent: nothing. Half: source plus half of what is there.
    let src = vec![10, 20, 30, 255, 99, 99, 99, 0, 100, 50, 0, 128];
    c.blend(&src, 0, 0, 3, 1);
    assert_eq!(pixel(&c, 0, 0), [10, 20, 30, 255]);
    assert_eq!(pixel(&c, 1, 0), [200, 200, 200, 255]);
    // 200 * 127 / 255 = 99; 100 + 99, 50 + 99, 0 + 99, 128 + 127 = 255.
    assert_eq!(pixel(&c, 2, 0), [199, 149, 99, 255]);
}

#[test]
fn a_frame_larger_than_its_pixels_or_the_canvas_stops_short() {
    let mut c = Canvas::blank(2, 2);
    c.blend(&opaque(1, 7), 1, 1, 3, 3);
    assert_eq!(pixel(&c, 1, 1), [7, 7, 7, 255]);
    assert_eq!(pixel(&c, 0, 0), [0, 0, 0, 0]);
    let mut off = Canvas::blank(2, 2);
    off.blend(&opaque(4, 7), 5, 0, 2, 2);
    assert!(off.pixels.iter().all(|b| *b == 0));
}

#[test]
fn the_first_frame_starts_clean_and_disposal_wipes_the_previous_rectangle() {
    let frames = vec![frame(100, 2, 0, 0, 1, 1), frame(100, 0, 1, 0, 1, 1), frame(100, 0, 0, 1, 1, 1)];
    let mut c = Canvas::blank(2, 2);
    c.blend(&opaque(4, 3), 0, 0, 2, 2);
    compose(&mut c, &frames, 0, &opaque(1, 8));
    assert_eq!(pixel(&c, 0, 0), [8, 8, 8, 255]);
    assert_eq!(pixel(&c, 1, 1), [0, 0, 0, 0]);
    compose(&mut c, &frames, 1, &opaque(1, 6));
    assert_eq!(pixel(&c, 0, 0), [0, 0, 0, 0]);
    assert_eq!(pixel(&c, 1, 0), [6, 6, 6, 255]);
    compose(&mut c, &frames, 2, &opaque(1, 4));
    assert_eq!(pixel(&c, 1, 0), [6, 6, 6, 255]);
    assert_eq!(pixel(&c, 0, 1), [4, 4, 4, 255]);
}

#[test]
fn the_clock_moves_on_by_at_most_a_fifth_of_a_second() {
    let mut p = Playhead::new();
    assert_eq!(p.step(5_000_000_000), 0);
    assert_eq!(p.step(5_050_000_000), 50_000_000);
    assert_eq!(p.step(3_600_000_000_000), 200_000_000);
    assert_eq!(p.step(1_000), 0);
    assert_eq!(p.last_clock_ns, Some(1_000));
}

#[test]
fn a_still_counts_a_play_every_thirty_seconds() {
    let mut p = Playhead::new();
    for _ in 0..149 {
        assert!(!p.advance(&[], 200_000_000));
    }
    assert_eq!(p.loops, 0);
    p.advance(&[], 200_000_000);
    assert_eq!(p.total_ns, 30_000_000_000);
    assert_eq!(p.loops, 1);
}

#[test]
fn a_long_step_passes_every_frame_it_covers_and_counts_the_loop() {
    let frames = vec![frame(100, 0, 0, 0, 1, 1), frame(50, 0, 0, 0, 1, 1), frame(30, 0, 0, 0, 1, 1)];
    let mut p = Playhead::new();
    assert!(!p.advance(&frames, 99_000_000));
    assert_eq!((p.index, p.within_ns), (0, 99_000_000));
    assert!(p.advance(&frames, 1_000_000));
    assert_eq!((p.index, p.within_ns, p.loops), (1, 0, 0));
    assert!(p.advance(&frames, 190_000_000));
    assert_eq!((p.index, p.within_ns, p.loops), (1, 10_000_000, 1));
}

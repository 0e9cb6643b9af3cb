use wallpaper_core::optimize::encode::{bitrate_for, packed, unpack};
use wallpaper_core::optimize::output_path;

#[test]
fn a_bigger_frame_gets_a_bigger_bitrate() {
    assert!(bitrate_for((2560, 1440), 30) > bitrate_for((1280, 720), 30));
}

#[test]
fn a_small_clip_still_gets_a_usable_bitrate() {
    assert_eq!(bitrate_for((640, 480), 24), 1_500_000);
}

#[test]
fn four_k_is_capped_rather_than_unbounded() {
    assert_eq!(bitrate_for((3840, 2160), 60), 12_000_000);
}

#[test]
fn packing_round_trips() {
    assert_eq!(unpack(packed(1920, 1080)), (1920, 1080));
}

#[test]
fn the_bitrate_is_seven_hundredths_of_a_bit_per_pixel_per_frame() {
    // 2560 x 1440 x 30 x 0.07 = 7,741,440.
    assert_eq!(bitrate_for((2560, 1440), 30), 7_741_440);
    // A frame rate of zero counts as one: 1920 x 1080 x 0.07 is under the
    // floor.
    assert_eq!(bitrate_for((1920, 1080), 0), 1_500_000);
    assert_eq!(bitrate_for((u32::MAX, u32::MAX), u32::MAX), 12_000_000);
}

#[test]
fn packing_puts_the_first_number_high() {
    assert_eq!(packed(1, 2), 0x1_0000_0002);
    assert_eq!(unpack(0xFFFF_FFFF_0000_0001), (0xFFFF_FFFF, 1));
}

const LIGHT: &str = r"C:\Users\someone\AppData\Roaming\Muivly\light";

#[test]
fn the_output_name_carries_the_size() {
    let name = output_path(LIGHT, r"C:\clips\rain.mp4", (1920, 1080))
        .map(|p| p.rsplit('\\').next().unwrap().to_string());
    assert_eq!(name.as_deref(), Some("rain 1920x1080.mp4"));
}

#[test]
fn the_output_goes_under_appdata_rather_than_next_to_the_source() {
    let out = output_path(LIGHT, r"C:\clips\rain.mp4", (1920, 1080));
    assert!(out.is_none_or(|p| !p.starts_with(r"C:\clips")));
}

#[test]
fn the_output_path_is_the_folder_and_the_name() {
    assert_eq!(
        output_path(r"D:\light", r"C:\clips\rain.final.mp4", (1280, 720)).as_deref(),
        Some(r"D:\light\rain.final 1280x720.mp4")
    );
    // A folder that already ends in a separator gets no second one.
    assert_eq!(
        output_path(r"D:\light\", "clip", (2, 2)).as_deref(),
        Some(r"D:\light\clip 2x2.mp4")
    );
    // A trailing separator is ignored, as `Path` ignores it...
    assert_eq!(
        output_path(r"D:\light", r"C:\clips\", (2, 2)).as_deref(),
        Some(r"D:\light\clips 2x2.mp4")
    );
    // ...and a source that names no file has no rewrite.
    assert_eq!(output_path(LIGHT, "", (2, 2)), None);
    assert_eq!(output_path(LIGHT, r"C:\clips\..", (2, 2)), None);
}

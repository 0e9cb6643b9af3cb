use wallpaper_core::compositor::accent::{
    decode_hex, dim, encode_hex, pack_abgr, pack_argb, palette, presentable, wide,
    PRODUCT_COLOUR,
};

#[test]
fn a_dark_wallpaper_still_gives_a_visible_accent() {
    let accent = presentable([12, 14, 20]);
    let peak = accent.iter().copied().max().unwrap_or(0);
    assert!(peak >= 80, "got {accent:?}");
}

#[test]
fn a_bright_wallpaper_is_brought_down_rather_than_left_white() {
    let accent = presentable([250, 248, 245]);
    let peak = accent.iter().copied().max().unwrap_or(255);
    assert!(peak <= 190, "got {accent:?}");
}

/// The whole point is that the accent comes from the picture. A blue
/// wallpaper must not come back grey, however much its brightness moved.
#[test]
fn the_colour_survives_being_brought_into_range() {
    let accent = presentable([20, 30, 90]);
    assert!(accent[2] > accent[0], "got {accent:?}");
    assert!(accent[2] > accent[1], "got {accent:?}");
}

#[test]
fn a_black_wallpaper_falls_back_to_the_product_colour() {
    assert_eq!(presentable([0, 0, 0]), [0x2D, 0xD4, 0xBF]);
    assert_eq!(presentable([0, 0, 0]), PRODUCT_COLOUR);
}

#[test]
fn the_two_packings_are_not_the_same_one_twice() {
    let rgb = [0x11, 0x22, 0x33];
    assert_eq!(pack_abgr(rgb, 0xFF), 0xFF_33_22_11);
    assert_eq!(pack_argb(rgb, 0xC4), 0xC4_11_22_33);
}

#[test]
fn the_palette_is_eight_shades_of_the_one_colour() {
    let bytes = palette([100, 50, 25]);
    assert_eq!(bytes.len(), 32);
    for index in 0..4 {
        assert!(bytes[index * 4] < bytes[(index + 1) * 4], "at {index}");
    }
}

/// The backup is written as text and read back as bytes. A round trip
/// that loses a byte is a colour scheme somebody cannot get back.
#[test]
fn a_backup_value_round_trips() {
    let bytes: Vec<u8> = (0..32).collect();
    assert_eq!(decode_hex(&encode_hex(&bytes)), Some(bytes));
    assert_eq!(decode_hex("odd"), None);
}

// ---------------------------------------------------------------------------
// Exact values.
// ---------------------------------------------------------------------------

#[test]
fn a_colour_already_in_the_band_is_only_lifted() {
    // Mean 110; each channel pushed 1.35 times as far from it, in steps of
    // 1/255: 137.0, 110.0 and 83.0.
    assert_eq!(presentable([130, 110, 90]), [137, 110, 83]);
}

#[test]
fn a_dark_colour_is_raised_to_the_floor() {
    // A grey stays grey, and is raised so its brightest channel is 0.32 of
    // full: 81.6 of 255 rounds to 82.
    assert_eq!(presentable([10, 10, 10]), [82, 82, 82]);
}

#[test]
fn a_white_wallpaper_is_held_at_the_ceiling() {
    // 0.70 of 255 is 178.5; the ceiling is the single-precision 0.7, just
    // under it, so the result is 178.
    assert_eq!(presentable([255, 255, 255]), [178, 178, 178]);
}

#[test]
fn dimming_truncates_and_never_overflows() {
    assert_eq!(dim([100, 51, 255], 6, 10), [60, 30, 153]);
    assert_eq!(dim([200, 100, 0], 145, 100), [255, 145, 0]);
}

#[test]
fn the_palette_is_laid_out_red_first_with_a_spare_byte() {
    let bytes = palette([100, 50, 20]);
    // 35%: 35, 17, 7.
    assert_eq!(&bytes[0..4], &[35, 17, 7, 0]);
    // 100%: the colour itself.
    assert_eq!(&bytes[16..20], &[100, 50, 20, 0]);
    // 145%, held at 255 where it would overflow: 145, 72, 29.
    assert_eq!(&bytes[24..28], &[145, 72, 29, 0]);
    // The darkest last: 18%.
    assert_eq!(&bytes[28..32], &[18, 9, 3, 0]);
}

#[test]
fn hex_is_two_lowercase_digits_a_byte() {
    assert_eq!(encode_hex(&[0x00, 0x0f, 0xa0, 0xff]), "000fa0ff");
    assert_eq!(encode_hex(&[]), "");
}

#[test]
fn hex_reads_either_case_and_refuses_anything_else() {
    assert_eq!(decode_hex("00FFa0"), Some(vec![0x00, 0xff, 0xa0]));
    assert_eq!(decode_hex(""), Some(Vec::new()));
    assert_eq!(decode_hex("zz"), None);
    assert_eq!(decode_hex("0g"), None);
    // What `u8::from_str_radix` accepts for a pair: a sign and one digit.
    assert_eq!(decode_hex("+f"), Some(vec![0x0f]));
}

#[test]
fn registry_names_are_zero_terminated_utf16() {
    assert_eq!(wide("Ab"), vec![0x41, 0x62, 0]);
    assert_eq!(wide(""), vec![0]);
    assert_eq!(wide("\u{1F600}"), vec![0xD83D, 0xDE00, 0]);
}

use wallpaper_core::compositor::notify::Signals;
use wallpaper_core::compositor::render::{average_colour, Fit, Pass};

#[test]
fn fit_names_round_trip() {
    for fit in [Fit::Cover, Fit::Contain, Fit::Stretch] {
        assert_eq!(Fit::parse(fit.name()), Some(fit));
    }
    assert_eq!(Fit::parse("nonsense"), None);
}

#[test]
fn fits_are_written_in_lower_case() {
    assert_eq!(Fit::Cover.name(), "cover");
    assert_eq!(Fit::Contain.name(), "contain");
    assert_eq!(Fit::Stretch.name(), "stretch");
    assert_eq!(Fit::parse("Cover"), None);
    assert_eq!(Fit::default(), Fit::Cover);
}

#[test]
fn a_pass_starts_empty() {
    assert_eq!(Pass::default(), Pass { live: 0, presented: 0 });
}

#[test]
fn any_signal_is_a_signal() {
    assert!(!Signals::default().any());
    assert!(Signals {
        resumed: true,
        ..Signals::default()
    }
    .any());
    assert!(Signals {
        mute: true,
        ..Signals::default()
    }
    .any());
}

#[test]
fn a_read_back_averages_each_channel_and_skips_the_row_padding() {
    // Two rows of two pixels, each row padded out to twelve bytes with
    // bytes that must not count.
    let pixels = vec![
        10, 20, 30, 255, 20, 40, 60, 255, 99, 99, 99, 99, //
        30, 60, 90, 255, 41, 81, 121, 255,
    ];
    assert_eq!(average_colour(&pixels, 12, (2, 2)), [25, 50, 75]);
    assert_eq!(average_colour(&[], 0, (0, 0)), [0, 0, 0]);
    assert_eq!(average_colour(&[7, 8, 9, 0], 4, (1, 1)), [7, 8, 9]);
}

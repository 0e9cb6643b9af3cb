use wallpaper_core::caps::MonitorInfo;
use wallpaper_core::power::apps::{file_name, parse_list, same_app, AppWatch};
use wallpaper_core::power::battery::{state_from_status, PowerPolicy, PowerState, PowerWatch};
use wallpaper_core::power::idle::{away, since_input_ms, AnimationWatch};
use wallpaper_core::power::load::{effective_fps, system_times, ticks, LoadWatch};
use wallpaper_core::power::{can_cover, centre, contains, CoverCache, Edges};

#[test]
fn an_exe_suffix_is_optional_on_either_side() {
    assert!(same_app("photoshop", "Photoshop.exe"));
    assert!(same_app("Photoshop.exe", "photoshop.exe"));
    assert!(same_app("PHOTOSHOP.EXE", "Photoshop.exe"));
    assert!(same_app("photoshop", "Photoshop.Exe"));
}

#[test]
fn a_different_application_does_not_match() {
    assert!(!same_app("photoshop", "explorer.exe"));
    assert!(!same_app("code", "vscode.exe"));
}

#[test]
fn an_empty_name_matches_nothing() {
    assert!(!same_app("", "explorer.exe"));
    assert!(!same_app("   ", "explorer.exe"));
}

#[test]
fn the_list_drops_blanks_and_whitespace() {
    assert_eq!(
        parse_list(" photoshop.exe | | blender "),
        vec!["photoshop.exe".to_string(), "blender".to_string()]
    );
    assert!(parse_list("").is_empty());
    assert!(parse_list("|||").is_empty());
}

#[test]
fn an_empty_list_is_never_a_match() {
    let mut watch = AppWatch::new();
    assert!(!watch.matches(&[], || Some("photoshop.exe".to_string())));
}

#[test]
fn the_application_in_front_is_matched_against_the_list() {
    let names = parse_list("photoshop|blender.exe");
    let mut watch = AppWatch::new();
    assert!(watch.matches(&names, || Some("Blender.exe".to_string())));
    // Asked again at once: the answer is the one just given, and the
    // process list is not read again.
    assert!(watch.matches(&names, || panic!("asked twice in a row")));

    let mut other = AppWatch::new();
    assert!(!other.matches(&names, || Some("explorer.exe".to_string())));
    let mut nothing = AppWatch::new();
    assert!(!nothing.matches(&names, || None));
}

fn battery(saver: bool) -> PowerState {
    PowerState {
        on_battery: true,
        saver,
        percent: 50,
    }
}

const PLUGGED: PowerState = PowerState {
    on_battery: false,
    saver: false,
    percent: 100,
};

#[test]
fn plugged_in_keeps_the_rate_the_user_chose() {
    assert_eq!(PowerPolicy::default().effective_fps(60, PLUGGED), 60);
}

#[test]
fn battery_caps_but_never_raises() {
    let policy = PowerPolicy::default();
    assert_eq!(policy.effective_fps(60, battery(false)), 24);
    assert_eq!(policy.effective_fps(15, battery(false)), 15);
}

#[test]
fn a_zero_cap_means_no_separate_battery_rate() {
    let policy = PowerPolicy {
        battery_fps: 0,
        pause_on_saver: false,
    };
    assert_eq!(policy.effective_fps(60, battery(false)), 60);
}

#[test]
fn the_rate_never_reaches_zero() {
    let policy = PowerPolicy {
        battery_fps: 0,
        pause_on_saver: false,
    };
    assert_eq!(policy.effective_fps(1, battery(false)), 1);
    // With a cap, a requested rate of zero is raised to one.
    assert_eq!(PowerPolicy::default().effective_fps(0, battery(false)), 1);
}

#[test]
fn saver_freezes_only_when_asked() {
    assert!(PowerPolicy::default().should_freeze(battery(true)));
    assert!(!PowerPolicy::default().should_freeze(battery(false)));

    let policy = PowerPolicy {
        battery_fps: 24,
        pause_on_saver: false,
    };
    assert!(!policy.should_freeze(battery(true)));
}

#[test]
fn saver_on_a_plugged_in_machine_still_counts() {
    let state = PowerState {
        on_battery: false,
        saver: true,
        percent: 100,
    };
    assert!(PowerPolicy::default().should_freeze(state));
}

#[test]
fn the_power_source_is_read_once_then_rested() {
    let mut watch = PowerWatch::new(|| PLUGGED);
    assert_eq!(watch.state(), PLUGGED);
    // The first poll reads again; what it found is a change.
    let (state, changed) = watch.poll(|| battery(false));
    assert_eq!(state, battery(false));
    assert!(changed);
    // The next one, straight after, is inside the rest and reads nothing.
    let (state, changed) = watch.poll(|| panic!("read too soon"));
    assert_eq!(state, battery(false));
    assert!(!changed);
}

#[test]
fn switched_off_is_never_away() {
    assert!(!away(0, || panic!("the idle time is not read when switched off")));
}

#[test]
fn nobody_at_the_machine_for_long_enough_is_away() {
    assert!(away(300, || 300_000));
    assert!(!away(300, || 299_999));
    assert!(away(1, || u64::MAX));
}

#[test]
fn a_quiet_machine_keeps_its_frame_rate() {
    assert_eq!(effective_fps(30, 10, false), 30);
}

#[test]
fn a_busy_machine_drops_to_the_lower_rate() {
    assert_eq!(effective_fps(30, 10, true), 10);
}

#[test]
fn switched_off_changes_nothing() {
    assert_eq!(effective_fps(30, 0, true), 30);
}

#[test]
fn a_busy_rate_above_the_normal_one_is_ignored() {
    assert_eq!(effective_fps(24, 60, true), 24);
}

#[test]
fn the_reading_stays_in_range() {
    let mut watch = LoadWatch::new();
    // Two polls back to back: the second is inside the sample window and
    // must answer from the cache rather than dividing by a zero gap.
    let (first, _) = watch.poll(|| Some((100, 1000)));
    let (second, changed) = watch.poll(|| panic!("read inside the sample window"));
    assert_eq!(first, second);
    assert!(!changed);
    assert_eq!(watch.last(), Some((100, 1000)));
}

#[test]
fn two_busy_samples_in_a_row_make_a_busy_machine() {
    // One reading to start from, then samples one second apart. The
    // watch is told the counters directly, so time is the only thing it
    // waits for.
    let mut watch = LoadWatch::new();
    let mut idle = 0u64;
    let mut total = 0u64;
    let mut sample = |watch: &mut LoadWatch, idled: u64, spent: u64| {
        idle += idled;
        total += spent;
        let start = std::time::Instant::now();
        while start.elapsed() < std::time::Duration::from_millis(1010) {
            std::hint::spin_loop();
        }
        let (i, t) = (idle, total);
        watch.poll(move || Some((i, t)))
    };
    assert_eq!(sample(&mut watch, 0, 0), (false, false));
    // 90% busy once: not yet.
    assert_eq!(sample(&mut watch, 100, 1000), (false, false));
    // Twice: standing down now.
    assert_eq!(sample(&mut watch, 100, 1000), (true, true));
    // 70% is between the thresholds: still busy.
    assert_eq!(sample(&mut watch, 300, 1000), (true, false));
    // Under 60%: back at once.
    assert_eq!(sample(&mut watch, 500, 1000), (false, true));
}

fn rect(left: i32, top: i32, right: i32, bottom: i32) -> Edges {
    Edges {
        left,
        top,
        right,
        bottom,
    }
}

#[test]
fn exact_cover_counts_as_covered() {
    let monitor = rect(0, 0, 1920, 1080);
    assert!(contains(&monitor, &monitor));
}

#[test]
fn a_window_larger_than_the_screen_covers_it() {
    assert!(contains(&rect(-8, -8, 1928, 1088), &rect(0, 0, 1920, 1080)));
}

#[test]
fn one_pixel_short_is_not_covered() {
    assert!(!contains(&rect(0, 0, 1920, 1079), &rect(0, 0, 1920, 1080)));
}

#[test]
fn a_window_on_another_monitor_covers_nothing() {
    let second = rect(1920, 0, 3840, 1080);
    assert!(!contains(&second, &rect(0, 0, 1920, 1080)));
}

#[test]
fn a_coverage_answer_is_kept_per_monitor() {
    let mut cache = CoverCache::new();
    assert!(cache.is_covered("A", || true));
    // Straight after: the kept answer, without working it out again.
    assert!(cache.is_covered("A", || panic!("worked out twice")));
    // Another monitor has an answer of its own.
    assert!(!cache.is_covered("B", || false));
    assert!(cache.is_covered("A", || panic!("worked out twice")));
}

#[test]
fn a_status_report_reads_as_a_power_state() {
    let unplugged = state_from_status(Some((0, 1, 42)));
    assert_eq!(unplugged, PowerState { on_battery: true, saver: true, percent: 42 });
    let plugged = state_from_status(Some((1, 0, 255)));
    assert_eq!(plugged, PowerState { on_battery: false, saver: false, percent: 100 });
    // Flags other than the saver bit do not turn saver on.
    assert!(!state_from_status(Some((0, 8, 50))).saver);
}

#[test]
fn no_status_report_reads_as_plugged_in() {
    assert_eq!(
        state_from_status(None),
        PowerState { on_battery: false, saver: false, percent: 100 }
    );
}

#[test]
fn the_input_clock_survives_its_wrap() {
    assert_eq!(since_input_ms(10_000, 4_000), 6_000);
    // The 64-bit count has passed 2^32; the 32-bit one wrapped with it.
    assert_eq!(since_input_ms(0x1_0000_0000 + 500, 0xFFFF_FF00), 500 + 0x100);
    assert_eq!(since_input_ms(0x2_0000_1000, 0x1000), 0);
}

#[test]
fn the_first_animation_answer_is_taken_and_then_kept() {
    let mut watch = AnimationWatch::new();
    assert!(!watch.wanted(|| Some(false)));
    // Asked again at once: the answer on record stands.
    assert!(!watch.wanted(|| Some(true)));
    let mut silent = AnimationWatch::new();
    assert!(silent.wanted(|| None));
}

#[test]
fn tick_halves_join_high_first() {
    assert_eq!(ticks(0, 7), 7);
    assert_eq!(ticks(1, 0), 0x1_0000_0000);
    assert_eq!(ticks(u32::MAX, u32::MAX), u64::MAX);
}

#[test]
fn the_total_is_kernel_plus_user() {
    assert_eq!(system_times((0, 30), (0, 100), (0, 20)), Some((30, 120)));
    assert_eq!(system_times((0, 0), (u32::MAX, u32::MAX), (0, 1)), None);
}

#[test]
fn an_image_path_gives_its_file_name() {
    assert_eq!(file_name("C:\\Program Files\\Adobe\\Photoshop.exe"), "Photoshop.exe");
    assert_eq!(file_name("/usr/bin/code"), "code");
    assert_eq!(file_name("plain.exe"), "plain.exe");
    assert_eq!(file_name("C:\\dir\\"), "");
}

#[test]
fn only_an_ordinary_window_on_screen_can_cover() {
    assert!(can_cover(true, false, false, "Chrome_WidgetWin_1"));
    assert!(!can_cover(false, false, false, "Chrome_WidgetWin_1"));
    assert!(!can_cover(true, true, false, "Chrome_WidgetWin_1"));
    assert!(!can_cover(true, false, true, "Chrome_WidgetWin_1"));
    assert!(!can_cover(true, false, false, "Progman"));
    assert!(!can_cover(true, false, false, "WorkerW"));
    assert!(!can_cover(true, false, false, "MuivlySurface"));
}

#[test]
fn a_monitor_is_looked_up_by_its_middle() {
    let m = MonitorInfo {
        device_name: "\\\\.\\DISPLAY2".to_string(),
        x: -1920,
        y: 0,
        width: 1920,
        height: 1081,
        refresh_hz: 60,
        primary: false,
    };
    assert_eq!(centre(&m), Some((-960, 540)));
    let far = MonitorInfo { x: i32::MAX, width: 4, ..m };
    assert_eq!(centre(&far), None);
}

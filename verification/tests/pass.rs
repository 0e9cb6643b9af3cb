use wallpaper_core::caps::{GpuProfile, Recommendation, SystemInfo, Tier};
use wallpaper_core::compositor::pass::{
    accent_moved, advance, baseline, deadline, due, frame_rate, hibernation_wanted, next_tick,
    newly_ruled, rules_due, same_list, soundtrack, stands_still,
};
use wallpaper_core::compositor::playback::Playback;
use wallpaper_core::compositor::rules::{Rule, Trigger};
use wallpaper_core::compositor::settings::Settings;
use wallpaper_core::power::battery::PowerState;

fn settings(fps: u32) -> Settings<f32> {
    let profile = GpuProfile {
        adapters: vec![],
        system: SystemInfo { total_ram_mb: 8192, on_battery: false },
        rec: Recommendation {
            tier: Tier::Mid,
            target_fps: fps,
            max_scale: (1920, 1080),
            allow_distinct_videos: true,
            reason: String::new(),
        },
    };
    Settings::new(&profile, 0.0, 0.5, 1.0)
}

fn power(on_battery: bool, saver: bool) -> PowerState {
    PowerState { on_battery, saver, percent: 50 }
}

fn playlist(n: usize) -> Playback {
    let mut p = Playback::blank();
    p.play((0..n).map(|i| format!("C:\\v{i}.mp4")).collect(), false, 0);
    p
}

#[test]
fn plugged_in_and_quiet_runs_at_the_chosen_rate() {
    assert_eq!(frame_rate(&settings(60), power(false, false), false), 60);
}

#[test]
fn unplugged_caps_and_busy_lowers_and_the_lower_wins() {
    let s = settings(60);
    assert_eq!(frame_rate(&s, power(true, false), false), 24);
    assert_eq!(frame_rate(&s, power(false, false), true), 10);
    assert_eq!(frame_rate(&s, power(true, false), true), 10);
    let mut slow_busy = settings(60);
    slow_busy.busy_fps = 30;
    assert_eq!(frame_rate(&slow_busy, power(true, false), true), 24);
    let mut off = settings(60);
    off.busy_fps = 0;
    assert_eq!(frame_rate(&off, power(false, false), true), 60);
}

#[test]
fn any_one_reason_stands_the_wallpaper_still() {
    let s = settings(30);
    assert!(!stands_still(&s, false, false, false, power(true, false)));
    assert!(stands_still(&s, true, false, false, power(false, false)));
    assert!(stands_still(&s, false, true, false, power(false, false)));
    assert!(stands_still(&s, false, false, true, power(false, false)));
    assert!(stands_still(&s, false, false, false, power(true, true)));
    let mut frozen = settings(30);
    frozen.frozen = true;
    assert!(stands_still(&frozen, false, false, false, power(false, false)));
    let mut keeps_going = settings(30);
    keeps_going.power.pause_on_saver = false;
    assert!(!stands_still(&keeps_going, false, false, false, power(true, true)));
}

#[test]
fn decoders_go_back_only_after_the_full_wait_with_nothing_owed() {
    assert!(!hibernation_wanted(20, true, false, Some(19_999)));
    assert!(hibernation_wanted(20, true, false, Some(20_000)));
    assert!(!hibernation_wanted(20, true, true, Some(60_000)));
    assert!(!hibernation_wanted(20, false, false, Some(60_000)));
    assert!(!hibernation_wanted(20, true, false, None));
    assert!(!hibernation_wanted(0, true, false, Some(60_000)));
}

#[test]
fn rules_are_looked_at_every_ten_seconds_and_only_when_there_are_some() {
    let mut s = settings(30);
    assert!(!rules_due(&s, None));
    s.rules.push(Rule { trigger: Trigger::Theme(true), items: vec!["C:\\night.mp4".to_string()] });
    assert!(rules_due(&s, None));
    assert!(!rules_due(&s, Some(9_999)));
    assert!(rules_due(&s, Some(10_000)));
}

#[test]
fn a_colour_must_move_more_than_twelve_to_be_written() {
    assert!(accent_moved(None, [0, 0, 0]));
    assert!(!accent_moved(Some([100, 100, 100]), [112, 88, 100]));
    assert!(accent_moved(Some([100, 100, 100]), [100, 100, 113]));
    assert!(accent_moved(Some([100, 100, 100]), [87, 100, 100]));
}

#[test]
fn a_playlist_moves_on_by_the_clock_or_by_the_loop() {
    let p = playlist(3);
    assert!(due(&p, 60, 60, None));
    assert!(!due(&p, 60, 59, Some(9)));
    assert!(!due(&p, 0, 600, None));
    assert!(!due(&p, 0, 600, Some(0)));
    assert!(due(&p, 0, 0, Some(1)));
    let single = playlist(1);
    assert!(!due(&single, 60, 600, Some(5)));
    let mut off = playlist(3);
    off.enabled = false;
    assert!(!due(&off, 60, 600, Some(5)));
}

#[test]
fn a_clip_already_open_elsewhere_keeps_its_loop_count() {
    let counts = vec![("C:\\a.mp4".to_string(), 3), ("C:\\v1.mp4".to_string(), 7), ("C:\\v1.mp4".to_string(), 9)];
    assert_eq!(baseline(&counts, &"C:\\v1.mp4".to_string()), 7);
    assert_eq!(baseline(&counts, &"C:\\v2.mp4".to_string()), 0);
    let mut p = playlist(3);
    p.loops_at_start = 5;
    assert_eq!(advance(&mut p, false, 0, &counts), Some(Some("C:\\v1.mp4".to_string())));
    assert_eq!((p.index, p.loops_at_start), (1, 7));
    assert_eq!(advance(&mut p, false, 0, &counts), Some(Some("C:\\v2.mp4".to_string())));
    assert_eq!(p.loops_at_start, 0);
    assert_eq!(advance(&mut p, false, 0, &counts), Some(Some("C:\\v0.mp4".to_string())));
    assert_eq!(p.index, 0);
}

#[test]
fn a_monitor_with_nothing_to_play_is_left_alone() {
    let mut p = Playback::blank();
    p.loops_at_start = 4;
    assert_eq!(advance(&mut p, true, 1, &vec![]), None);
    assert_eq!((p.index, p.loops_at_start), (0, 4));
}

#[test]
fn the_frame_grid_starts_again_after_a_stall() {
    assert_eq!(next_tick(1_000, 1_010, 33), 1_033);
    assert_eq!(next_tick(1_000, 1_033, 33), 1_033);
    assert_eq!(next_tick(1_000, 5_000, 33), 5_033);
}

#[test]
fn the_loop_wakes_for_the_later_of_the_grid_and_the_clip_but_never_too_late() {
    let ms = 1_000_000u64;
    // The clip is due before the grid: the grid wins.
    assert_eq!(deadline(false, 100 * ms, 133 * ms, &vec![10 * ms, 50 * ms]), 133 * ms);
    // The clip is due after the grid: the clip wins.
    assert_eq!(deadline(false, 100 * ms, 133 * ms, &vec![80 * ms, 60 * ms]), 160 * ms);
    // Nothing on screen asks: the grid.
    assert_eq!(deadline(false, 100 * ms, 133 * ms, &vec![]), 133 * ms);
    // A still asks for an hour: a quarter of a second at most.
    assert_eq!(deadline(false, 100 * ms, 133 * ms, &vec![3_600_000 * ms]), 350 * ms);
    // Frozen: half a second, held to the same quarter.
    assert_eq!(deadline(true, 100 * ms, 133 * ms, &vec![5 * ms]), 350 * ms);
}

#[test]
fn only_a_clip_on_the_primary_monitor_is_heard() {
    let mut p = Playback::blank();
    p.play(vec!["C:\\clip.mp4".to_string()], false, 0);
    assert_eq!(soundtrack(true, false, Some(&p)), Some("C:\\clip.mp4".to_string()));
    assert_eq!(soundtrack(false, false, Some(&p)), None);
    assert_eq!(soundtrack(true, true, Some(&p)), None);
    assert_eq!(soundtrack(true, false, None), None);
    let mut photo = Playback::blank();
    photo.play(vec!["C:\\beach.JPG".to_string()], false, 0);
    assert_eq!(soundtrack(true, false, Some(&photo)), None);
    let mut shader = Playback::blank();
    shader.play(vec!["C:\\waves.hlsl".to_string()], false, 0);
    assert_eq!(soundtrack(true, false, Some(&shader)), None);
    let mut off = Playback::blank();
    off.play(vec!["C:\\clip.mp4".to_string()], false, 0);
    off.enabled = false;
    assert_eq!(soundtrack(true, false, Some(&off)), None);
    assert_eq!(soundtrack(true, false, Some(&Playback::blank())), None);
}

#[test]
fn a_rule_is_put_up_once_and_not_again_while_it_is_showing() {
    let night = Rule { trigger: Trigger::Theme(true), items: vec!["C:\\night.mp4".to_string()] };
    assert_eq!(newly_ruled(&None, None), None);
    assert_eq!(newly_ruled(&None, Some(&night)), Some(vec!["C:\\night.mp4".to_string()]));
    assert_eq!(newly_ruled(&Some(vec!["C:\\night.mp4".to_string()]), Some(&night)), None);
    assert_eq!(
        newly_ruled(&Some(vec!["C:\\day.mp4".to_string()]), Some(&night)),
        Some(vec!["C:\\night.mp4".to_string()])
    );
    assert!(same_list(&vec![], &vec![]));
    assert!(!same_list(&vec!["a".to_string()], &vec!["a".to_string(), "b".to_string()]));
}

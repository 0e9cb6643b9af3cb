use std::time::Instant;

use wallpaper_core::audio::{turn, Mix, Turn};
use wallpaper_core::compositor::order::{mix, seed_from, NO_CLOCK};
use wallpaper_core::compositor::pass::{present, sight, step, LoopState, PassEvent, Present, Sight};
use wallpaper_core::compositor::playlists::Seeds;
use wallpaper_core::power::apps::AppWatch;
use wallpaper_core::power::battery::{PowerState, PowerWatch};
use wallpaper_core::power::idle::AnimationWatch;
use wallpaper_core::power::load::LoadWatch;
use wallpaper_core::power::CoverCache;

fn battery() -> PowerState {
    PowerState { on_battery: true, saver: false, percent: 40 }
}

fn mains() -> PowerState {
    PowerState { on_battery: false, saver: false, percent: 100 }
}

#[test]
fn the_power_source_is_read_again_after_two_seconds() {
    let now = Instant::now();
    let mut w = PowerWatch::new(mains);
    assert_eq!(w.poll_at(None, now, battery), (battery(), true));
    assert_eq!(w.poll_at(Some(1_999), now, || panic!("read too soon")), (battery(), false));
    assert_eq!(w.poll_at(Some(2_000), now, battery), (battery(), false));
    assert_eq!(w.poll_at(Some(5_000), now, mains), (mains(), true));
    assert_eq!(w.state(), mains());
}

#[test]
fn the_application_in_front_is_looked_up_twice_a_second() {
    let now = Instant::now();
    let names = vec!["photoshop".to_string()];
    let mut w = AppWatch::new();
    assert!(w.matches_at(&names, None, now, || Some("Photoshop.Exe".to_string())));
    assert!(w.matches_at(&names, Some(499), now, || panic!("looked up too soon")));
    assert!(!w.matches_at(&names, Some(500), now, || Some("explorer.exe".to_string())));
    assert!(!w.matches_at(&[], None, now, || panic!("an empty list looks nothing up")));
}

#[test]
fn the_motion_switch_is_asked_again_after_two_seconds() {
    let now = Instant::now();
    let mut w = AnimationWatch::new();
    assert!(!w.wanted_at(Some(0), now, || Some(false)));
    assert!(!w.wanted_at(Some(1_999), now, || panic!("asked too soon")));
    assert!(w.wanted_at(Some(2_000), now, || None));
}

#[test]
fn a_covered_answer_is_kept_for_a_quarter_of_a_second() {
    let now = Instant::now();
    let mut c = CoverCache::new();
    assert!(c.is_covered_at("A", None, now, || true));
    assert!(c.is_covered_at("A", Some(249), now, || panic!("looked too soon")));
    assert!(!c.is_covered_at("A", Some(250), now, || false));
    assert!(c.is_covered_at("B", Some(10), now, || true));
    assert_eq!(c.age_ms("C"), None);
    assert!(c.age_ms("A").is_some());
}

#[test]
fn the_load_is_sampled_once_a_second_and_reported_as_a_percentage() {
    let now = Instant::now();
    let mut w = LoadWatch::new();
    assert_eq!(w.poll_at(None, now, || Some((0, 0))), (false, false));
    assert_eq!(w.poll_at(Some(999), now, || panic!("sampled too soon")), (false, false));
    assert_eq!(w.poll_at(Some(1_000), now, || Some((100, 1000))), (false, false));
    assert_eq!(w.share(), (900, 1000));
    assert_eq!(w.poll_at(Some(1_000), now, || Some((200, 2000))), (true, true));
    assert_eq!(w.poll_at(Some(1_000), now, || Some((533, 3000))), (true, false));
    assert_eq!(w.share(), (667, 1000));
    assert_eq!(w.poll_at(Some(1_000), now, || Some((1033, 4000))), (false, true));
    assert_eq!(w.share(), (500, 1000));
    // An idle count that ran ahead of the total counts as all idle.
    assert_eq!(w.poll_at(Some(1_000), now, || Some((9000, 4010))), (false, false));
    assert_eq!(w.share(), (0, 10));
}

#[test]
fn a_seed_is_the_clock_mixed_with_the_count() {
    assert_eq!(mix(0, 0), 0);
    assert_eq!(mix(5, 1), 5 ^ 0x9E37_79B9_7F4A_7C15);
    assert_eq!(seed_from(None, 0), NO_CLOCK);
    assert_eq!(seed_from(Some(7), 2), 7 ^ 0x9E37_79B9_7F4A_7C15u64.wrapping_mul(2));
    let mut seeds = Seeds::new();
    assert_eq!(seeds.draw_at(Some(7)), 7);
    assert_eq!(seeds.draw_at(Some(7)), 7 ^ 0x9E37_79B9_7F4A_7C15);
    assert_eq!(seeds.drawn, 2);
}

#[test]
fn a_screen_is_drawn_only_when_it_can_be_seen() {
    let up = |s: Sight| (s.visible, s.shown, s.occluded, s.redraw);
    // Switched off: taken down, not drawn.
    assert_eq!(up(sight(false, true, true, false, false, false, false)), (false, false, false, true));
    // Newly assigned and uncovered: put up and drawn in full.
    assert_eq!(up(sight(true, true, false, true, false, false, true)), (true, true, false, true));
    // Covered by a window.
    assert_eq!(up(sight(true, true, true, false, false, true, false)), (false, true, false, false));
    // Hidden by the compositor and still so.
    assert_eq!(up(sight(true, true, true, true, false, false, true)), (false, true, true, false));
    // Hidden before, back now: drawn in full.
    assert_eq!(up(sight(true, true, true, true, false, false, false)), (true, true, false, true));
}

#[test]
fn a_screen_with_its_own_rate_holds_its_frame_until_the_rate_allows() {
    // 30 fps: a present 20 ms ago is too soon, a new frame is remembered.
    assert_eq!(present(Some(30), Some(20_000_000), true, false, true, false, false), Present::Hold { redraw: true });
    assert_eq!(present(Some(30), Some(34_000_000), true, false, true, false, false), Present::Draw);
    assert_eq!(present(Some(0), Some(1), true, false, true, false, false), Present::Draw);
    assert_eq!(present(None, None, false, false, true, false, false), Present::Hold { redraw: false });
    assert_eq!(present(None, None, false, false, true, true, false), Present::Draw);
    assert_eq!(present(None, None, true, true, false, false, false), Present::Hold { redraw: true });
}

#[test]
fn the_soundtrack_stops_when_nothing_is_visible_and_steps_aside_for_other_sound() {
    let mut m = Mix { running: true, ducked: false };
    let t = turn(&mut m, true, true, true, None, true);
    assert_eq!(t, Turn { stop: true, start: false, rest: true, looked: false, ducking: None });
    assert!(!m.running);
    let t = turn(&mut m, false, true, true, None, true);
    assert_eq!(t, Turn { stop: false, start: true, rest: false, looked: true, ducking: Some(true) });
    assert_eq!(m, Mix { running: true, ducked: true });
    let t = turn(&mut m, false, true, true, Some(100), false);
    assert_eq!(t.looked, false);
    assert!(m.ducked);
    let t = turn(&mut m, false, true, false, Some(100), false);
    assert_eq!(t.ducking, Some(false));
    assert!(!m.ducked);
}

#[test]
fn the_load_percentage_is_kept_exactly() {
    let now = Instant::now();
    let mut w = LoadWatch::new();
    assert_eq!(w.share(), (0, 1));
    w.poll_at(None, now, || Some((0, 0)));
    w.poll_at(None, now, || Some((5, 8)));
    let (used, spent) = w.share();
    assert_eq!(100.0 * used as f64 / spent as f64, 37.5);
}

#[test]
fn a_pass_keeps_the_loops_bookkeeping() {
    let start = LoopState { paused: false, hidden_since_ms: None, hibernating: false, accented: None, rules_checked_ms: None };
    let ev = |now_ms: u64, live: u32, sampled: Option<[u8; 3]>| PassEvent {
        now_ms,
        frozen: false,
        live,
        owed: false,
        presented: if live > 0 { 1 } else { 0 },
        hibernate_secs: 20,
        accent: true,
        sampled,
        rules: 1,
    };
    // Drawing, with a colour to write and rules to look at.
    let (s1, a1) = step(start, ev(0, 1, Some([10, 20, 30])));
    assert_eq!(a1.write_accent, Some([10, 20, 30]));
    assert!(a1.check_rules && a1.changed && !a1.pause_changed);
    // A colour that barely moved is not written; the rules wait ten seconds.
    let (s2, a2) = step(s1, ev(5_000, 1, Some([12, 20, 30])));
    assert_eq!(a2.write_accent, None);
    assert!(!a2.check_rules);
    // Everything covered: paused, and the moment is kept.
    let (s3, a3) = step(s2, ev(6_000, 0, None));
    assert!(a3.pause_changed && s3.paused);
    assert_eq!(s3.hidden_since_ms, Some(6_000));
    let (s4, a4) = step(s3, ev(25_999, 0, None));
    assert_eq!(a4.hibernate, None);
    // Twenty seconds out of sight: the decoders go back.
    let (s5, a5) = step(s4, ev(26_000, 0, None));
    assert_eq!(a5.hibernate, Some(true));
    assert!(s5.hibernating && !a5.restart_playlists);
    // Back in sight: reopened, and every playlist starts again.
    let (s6, a6) = step(s5, ev(27_000, 1, None));
    assert_eq!(a6.hibernate, Some(false));
    assert!(a6.restart_playlists && !s6.paused && s6.hidden_since_ms.is_none());
}

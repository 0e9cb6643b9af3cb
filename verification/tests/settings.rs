use wallpaper_core::caps::{GpuProfile, Recommendation, SystemInfo, Tier};
use wallpaper_core::compositor::render::{Fit, Overrides, Visual};
use wallpaper_core::compositor::settings::{Effect, Settings};
use wallpaper_core::ipc::Command;
use wallpaper_core::session::{self, Session};

fn profile(target_fps: u32) -> GpuProfile {
    GpuProfile {
        adapters: vec![],
        system: SystemInfo { total_ram_mb: 8192, on_battery: false },
        rec: Recommendation {
            tier: Tier::Mid,
            target_fps,
            max_scale: (1920, 1080),
            allow_distinct_videos: true,
            reason: String::new(),
        },
    }
}

fn fresh() -> Settings<f32> {
    Settings::new(&profile(30), 0.0, 0.5, 1.0)
}

fn parse(text: &str) -> Session<f32> {
    session::parse(text, |t: &str| t.parse::<f32>().ok(), |v: f32| v >= 0.0, 0.5, 1.0, 0.0)
}

#[test]
fn a_machine_starts_at_its_tiers_frame_rate() {
    let s = fresh();
    assert_eq!(s.fps, 30);
    assert_eq!(s.fit, Fit::Cover);
    assert!(!s.sound.enabled && s.sound.volume == 0.5 && s.sound.duck);
    assert_eq!((s.hibernate_secs, s.idle_secs, s.busy_fps, s.fade_ms), (20, 300, 10, 400));
    assert_eq!(Settings::<f32>::new(&profile(0), 0.0, 0.5, 1.0).fps, 1);
}

#[test]
fn a_session_is_restored_over_the_defaults() {
    let restored = Settings::restored(
        &profile(30),
        Some(parse("fps 0\nfit contain\nsound on 0.400\napps game.exe\n")),
        0.0,
        0.5,
        1.0,
    );
    assert_eq!(restored.fps, 1);
    assert_eq!(restored.fit, Fit::Contain);
    assert!(restored.sound.enabled && restored.sound.volume == 0.4);
    assert_eq!(restored.apps, vec!["game.exe".to_string()]);
    // What the session did not mention keeps the machine's default.
    assert_eq!(restored.idle_secs, 300);
    let none = Settings::<f32>::restored(&profile(30), None, 0.0, 0.5, 1.0);
    assert_eq!(none.fps, 30);
}

#[test]
fn what_is_saved_is_what_comes_back() {
    let mut s = fresh();
    s.apply(Command::Fps(48), vec![]);
    s.apply(Command::SetFit(Fit::Stretch), vec![]);
    s.apply(Command::SetApps(vec!["a.exe".to_string()]), vec![]);
    s.apply(Command::Freeze(true), vec![]);
    let saved = s.to_session(vec![("D1".to_string(), true, vec!["a.mp4".to_string()])]);
    assert_eq!(saved.fps, Some(48));
    assert_eq!(saved.monitors.len(), 1);
    let back = Settings::restored(&profile(30), Some(saved), 0.0, 0.5, 1.0);
    assert_eq!(back.fps, 48);
    assert_eq!(back.fit, Fit::Stretch);
    assert_eq!(back.apps, vec!["a.exe".to_string()]);
    // Frozen is not kept across a restart.
    assert!(!back.frozen);
}

#[test]
fn freezing_is_not_worth_remembering() {
    let mut s = fresh();
    let (persist, _) = s.apply(Command::Freeze(true), vec![]);
    assert!(!persist && s.frozen);
    let (persist, _) = s.apply(Command::Interval(900), vec![]);
    assert!(persist && s.interval_secs == 900);
    let (persist, _) = s.apply(Command::Fps(0), vec![]);
    assert!(persist && s.fps == 1);
}

#[test]
fn a_monitor_handed_back_keeps_nothing_of_its_own() {
    let mut s = fresh();
    let own = Overrides { fit: Some(Fit::Contain), visual: None, fps: Some(15) };
    s.apply(Command::SetOverrides { monitor: "D1".to_string(), overrides: own }, vec![]);
    s.apply(Command::SetOverrides { monitor: "D2".to_string(), overrides: own }, vec![]);
    assert_eq!(s.overrides.len(), 2);
    let graded = Overrides {
        fit: None,
        visual: Some(Visual { brightness: 0.5, saturation: 1.0, blur: 0.0 }),
        fps: None,
    };
    s.apply(Command::SetOverrides { monitor: "D1".to_string(), overrides: graded }, vec![]);
    assert_eq!(s.overrides.len(), 2);
    assert_eq!(s.overrides[0].1, graded);
    let nothing = Overrides { fit: None, visual: None, fps: None };
    s.apply(Command::SetOverrides { monitor: "D1".to_string(), overrides: nothing }, vec![]);
    assert_eq!(s.overrides.len(), 1);
    assert_eq!(s.overrides[0].0, "D2");
}

#[test]
fn a_shaders_settings_are_merged_by_name() {
    let mut s = fresh();
    s.apply(
        Command::SetShaderParams {
            path: "w.hlsl".to_string(),
            values: vec![("speed".to_string(), 1.0), ("tint".to_string(), 0.5)],
        },
        vec![],
    );
    s.apply(
        Command::SetShaderParams { path: "w.hlsl".to_string(), values: vec![("speed".to_string(), 2.0)] },
        vec![],
    );
    assert_eq!(s.shader_params.len(), 1);
    assert_eq!(
        s.shader_params[0].1,
        vec![("speed".to_string(), 2.0), ("tint".to_string(), 0.5)]
    );
}

#[test]
fn a_scene_is_saved_found_and_deleted_by_name() {
    let mut s = fresh();
    let showing = vec![("D1".to_string(), vec!["a.mp4".to_string()])];
    let (persist, effect) = s.apply(Command::SaveScene("evening".to_string()), showing);
    assert!(persist && matches!(effect, Effect::Settled));
    let (persist, effect) = s.apply(Command::SaveScene("a;b".to_string()), vec![]);
    assert!(!persist);
    assert!(matches!(effect, Effect::Failed(m) if m == "cannot save the scene a;b"));
    let (persist, effect) = s.apply(Command::LoadScene("evening".to_string()), vec![]);
    assert!(persist && matches!(effect, Effect::Load(0)));
    let (persist, effect) = s.apply(Command::LoadScene("morning".to_string()), vec![]);
    assert!(!persist && matches!(effect, Effect::Failed(m) if m == "no scene called morning"));
    let (persist, _) = s.apply(Command::DeleteScene("evening".to_string()), vec![]);
    assert!(persist && s.scenes.is_empty());
    let (persist, _) = s.apply(Command::DeleteScene("evening".to_string()), vec![]);
    assert!(!persist);
}

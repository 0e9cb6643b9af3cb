use wallpaper_core::caps::{GpuProfile, Recommendation, SystemInfo, Tier};
use wallpaper_core::compositor::playback::Playback;
use wallpaper_core::compositor::render::{Fit, Overrides};
use wallpaper_core::compositor::report::{publish, Report};
use wallpaper_core::compositor::settings::Settings;
use wallpaper_core::decoder::procedural::ShaderParam;
use wallpaper_core::ipc::{Command, Status};
use wallpaper_core::power::battery::PowerState;

fn profile() -> GpuProfile {
    GpuProfile {
        adapters: vec![],
        system: SystemInfo { total_ram_mb: 8192, on_battery: false },
        rec: Recommendation {
            tier: Tier::Mid,
            target_fps: 30,
            max_scale: (1920, 1080),
            allow_distinct_videos: true,
            reason: String::new(),
        },
    }
}

fn playing(items: &[&str]) -> Playback {
    let mut p = Playback::blank();
    p.play(items.iter().map(|s| s.to_string()).collect(), false, 7);
    p
}

fn report(playback: Vec<(String, Playback)>) -> Report<f32> {
    Report {
        paused: false,
        hibernating: false,
        power: PowerState { on_battery: true, saver: false, percent: 80 },
        ducking: false,
        away: false,
        busy: true,
        load: 92.5,
        uptime_secs: 60,
        resting_secs: 5,
        cpu: 1.5,
        ram_mb: 120,
        real_fps: 29.9,
        error: Some("no scene called x".to_string()),
        playback,
        shaders: vec![(
            "w.hlsl".to_string(),
            vec![(
                ShaderParam {
                    name: "speed".to_string(),
                    min: 0.1,
                    max: 3.0,
                    default: 1.0,
                    label: "How fast".to_string(),
                },
                2.0,
            )],
        )],
    }
}

#[test]
fn the_status_lists_monitors_by_name_with_their_own_settings() {
    let mut settings = Settings::new(&profile(), 0.0f32, 0.5, 1.0);
    let own = Overrides { fit: Some(Fit::Contain), visual: None, fps: Some(15) };
    settings.apply(Command::SetOverrides { monitor: "B".to_string(), overrides: own }, vec![]);
    settings.apply(Command::SetApps(vec!["a.exe".to_string(), "b.exe".to_string()]), vec![]);
    let mut status = Status::new(0.0f32, 0.5, 1.0);
    publish(
        &mut status,
        &settings,
        report(vec![
            ("C".to_string(), playing(&["c.mp4"])),
            ("A".to_string(), playing(&["a.mp4", "b.mp4"])),
            ("B".to_string(), playing(&[])),
        ]),
        &|v: f32| format!("{v}"),
    );
    let names: Vec<&str> = status.monitors.iter().map(|m| m.device_name.as_str()).collect();
    assert_eq!(names, vec!["A", "B", "C"]);
    assert_eq!(status.monitors[0].items.len(), 2);
    assert_eq!(status.monitors[1].overrides, own);
    assert_eq!(status.monitors[2].overrides, Overrides { fit: None, visual: None, fps: None });
    assert_eq!(status.apps, "a.exe|b.exe");
    assert_eq!(status.shaders, vec!["w.hlsl|speed,0.1,3,1,2,How fast".to_string()]);
    assert_eq!(status.fps, 30);
    assert!(status.on_battery && status.busy && status.battery_percent == 80);
    assert_eq!(status.error.as_deref(), Some("no scene called x"));
}

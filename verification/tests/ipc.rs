use wallpaper_core::caps::{
    AdapterClass, AdapterInfo, DecodeCaps, GpuProfile, MonitorInfo, Recommendation, SystemInfo, Tier,
};
use wallpaper_core::compositor::render::{Fit, Overrides};
use wallpaper_core::ipc::{self, Action, Command, Limits, MonitorState, Status};

fn read(t: &str) -> Option<f32> {
    t.parse::<f32>().ok()
}

fn le(a: f32, b: f32) -> bool {
    a <= b
}

fn lt(a: f32, b: f32) -> bool {
    a < b
}

fn limits() -> Limits<f32> {
    Limits { zero: 0.0, quarter: 0.25, one: 1.0, two: 2.0 }
}

/// A monitor's own settings as the engine reads them, with `f32` numbers.
fn parse_overrides(rest: &str) -> Result<(String, Overrides<f32>), String> {
    ipc::parse_overrides(rest, &read, &le, &lt, limits())
}

/// A request as the engine answers it, where every path is a file unless
/// it names "missing".
fn decide(line: &str, frozen: bool) -> Action<f32> {
    ipc::decide(line, &read, &le, &lt, limits(), frozen, &|p: &str| !p.contains("missing"))
}

fn refusal(a: Action<f32>) -> String {
    match a {
        Action::Refuse(m) => m,
        _ => panic!("not refused"),
    }
}

#[test]
fn a_monitor_can_be_given_settings_of_its_own() {
    let (name, own) = parse_overrides(r"\.\DISPLAY1 contain 10 0.600 1.000 0.250").unwrap();

    assert_eq!(name, r"\.\DISPLAY1");
    assert_eq!(own.fit, Some(Fit::Contain));
    assert_eq!(own.fps, Some(10));
    assert_eq!(own.visual.unwrap().brightness, 0.6);
    assert_eq!(own.visual.unwrap().blur, 0.25);
}

#[test]
fn both_spellings_of_no_grade_are_accepted() {
    for line in [r"\.\DISPLAY1 - 0 - 1 0", r"\.\DISPLAY1 - 0 -1 1 0"] {
        let (_, own) = parse_overrides(line).unwrap_or_else(|e| panic!("{line:?}: {e}"));
        assert_eq!(own.visual, None, "{line:?}");
        assert_eq!(own.fit, None, "{line:?}");
        assert_eq!(own.fps, None, "{line:?}");
    }
}

#[test]
fn a_screen_may_differ_in_one_thing_only() {
    let (_, own) = parse_overrides(r"\.\DISPLAY2 - 15 - 1 0").unwrap();
    assert_eq!(own.fps, Some(15));
    assert_eq!(own.fit, None);
    assert_eq!(own.visual, None);
}

#[test]
fn nonsense_is_refused_rather_than_guessed_at() {
    assert!(parse_overrides(r"\.\DISPLAY1 sideways 10 1 1 0").is_err());
    assert!(parse_overrides(r"\.\DISPLAY1 cover 999 1 1 0").is_err());
    // Brightness above the range the shader was built for.
    assert!(parse_overrides(r"\.\DISPLAY1 cover 0 9 1 0").is_err());
    // Too few fields.
    assert!(parse_overrides(r"\.\DISPLAY1 cover 0").is_err());
}

#[test]
fn a_frame_rate_of_zero_means_follow_the_desktop() {
    let (_, own) = parse_overrides(r"\.\DISPLAY1 cover 0 1 1 0").unwrap();
    assert_eq!(own.fps, None);
}

#[test]
fn each_refusal_says_what_was_wrong() {
    assert_eq!(parse_overrides("a b").unwrap_err(), "usage: own <monitor> <fit|-> <fps> <bright|-> <sat> <blur>");
    assert_eq!(parse_overrides("a wide 0 1 1 0").unwrap_err(), "fit must be cover, contain, stretch or -");
    assert_eq!(parse_overrides("a - x 1 1 0").unwrap_err(), "fps must be 0 (follow the desktop) or 1-240");
    assert_eq!(parse_overrides("a - 0 1 x 0").unwrap_err(), "brightness, saturation and blur must be numbers");
    assert_eq!(parse_overrides("a - 0 1 1 2").unwrap_err(), "brightness and saturation are 0-2, blur is 0-1");
}

#[test]
fn a_frame_rate_is_taken_within_its_range() {
    assert!(matches!(decide("fps 60", false), Action::Send(Command::Fps(60))));
    assert_eq!(refusal(decide("fps 0", false)), "fps must be 1-240");
    assert_eq!(refusal(decide("fps 241", false)), "fps must be 1-240");
    assert_eq!(refusal(decide("fps sixty", false)), "fps must be 1-240");
}

#[test]
fn the_line_is_trimmed_and_the_verb_split_off() {
    assert!(matches!(decide("  interval 900 \r", false), Action::Send(Command::Interval(900))));
    assert!(matches!(decide("interval 0", false), Action::Send(Command::Interval(0))));
    assert_eq!(refusal(decide("interval 30", false)), "interval must be 0 or 60-86400 seconds");
}

#[test]
fn reports_are_asked_for_by_name() {
    assert!(matches!(decide("status", false), Action::Status));
    assert!(matches!(decide("monitors", false), Action::Monitors));
    assert_eq!(refusal(decide("dance", false)), "unknown command");
    assert_eq!(refusal(decide("next", false)), "unknown command");
}

#[test]
fn a_playlist_is_set_only_when_every_file_is_there() {
    match decide("set DISPLAY1 a.mp4| b.mp4 ||", false) {
        Action::Send(Command::SetPlaylist { monitor, items }) => {
            assert_eq!(monitor, "DISPLAY1");
            assert_eq!(items, vec!["a.mp4".to_string(), "b.mp4".to_string()]);
        }
        _ => panic!("not set"),
    }
    assert_eq!(refusal(decide("set DISPLAY1 a.mp4|missing.mp4|c.mp4", false)), "no such file: missing.mp4");
    match decide("set DISPLAY1", false) {
        Action::Send(Command::SetPlaylist { monitor, items }) => {
            assert_eq!(monitor, "DISPLAY1");
            assert!(items.is_empty());
        }
        _ => panic!("not cleared"),
    }
}

#[test]
fn freezing_can_be_turned_round() {
    assert!(matches!(decide("freeze on", false), Action::Send(Command::Freeze(true))));
    assert!(matches!(decide("freeze off", true), Action::Send(Command::Freeze(false))));
    assert!(matches!(decide("freeze toggle", true), Action::Send(Command::Freeze(false))));
    assert!(matches!(decide("freeze", false), Action::Send(Command::Freeze(true))));
    assert_eq!(refusal(decide("freeze sideways", false)), "usage: freeze <on|off|toggle>");
}

#[test]
fn a_grade_and_a_sound_are_checked_against_their_ranges() {
    match decide("visual 1.1 0.9 0.25", false) {
        Action::Send(Command::SetVisual(v)) => {
            assert_eq!((v.brightness, v.saturation, v.blur), (1.1, 0.9, 0.25));
        }
        _ => panic!("not set"),
    }
    assert_eq!(refusal(decide("visual 1 1", false)), "usage: visual <brightness> <saturation> <blur>");
    assert_eq!(refusal(decide("visual 1 1 2", false)), "brightness and saturation are 0-2, blur is 0-1");
    match decide("sound on 0.4", false) {
        Action::Send(Command::SetSound(s)) => assert!(s.enabled && s.volume == 0.4 && s.duck),
        _ => panic!("not set"),
    }
    match decide("sound off 0.4 off", false) {
        Action::Send(Command::SetSound(s)) => assert!(!s.enabled && !s.duck),
        _ => panic!("not set"),
    }
    assert_eq!(refusal(decide("sound on 1.5", false)), "volume must be 0-1");
    assert_eq!(refusal(decide("speed 3", false)), "speed must be 0.25-2.0");
}

#[test]
fn a_shader_setting_keeps_the_last_value_for_a_name() {
    match decide("shader C:\\fx\\waves.hlsl|speed=2|tint=0.5|speed=3|junk", false) {
        Action::Send(Command::SetShaderParams { path, values }) => {
            assert_eq!(path, "C:\\fx\\waves.hlsl");
            assert_eq!(values, vec![("speed".to_string(), 3.0), ("tint".to_string(), 0.5)]);
        }
        _ => panic!("not set"),
    }
    assert_eq!(refusal(decide("shader waves.hlsl|junk", false)), "no settings in that message");
    assert_eq!(refusal(decide("shader |a=1", false)), "usage: shader <path>|<name>=<value>");
}

#[test]
fn a_scene_is_saved_only_under_a_name_it_can_keep() {
    assert!(matches!(decide("scene save evening", false), Action::Send(Command::SaveScene(n)) if n == "evening"));
    assert_eq!(refusal(decide("scene save a;b", false)), "usage: scene <save|load|delete> <name>");
    assert!(matches!(decide("scene load a;b", false), Action::Send(Command::LoadScene(n)) if n == "a;b"));
    assert!(matches!(decide("scene delete x", false), Action::Send(Command::DeleteScene(n)) if n == "x"));
}

#[test]
fn a_clip_is_rewritten_only_when_it_is_there() {
    assert!(matches!(decide("optimize C:\\clip.mp4", false), Action::Optimize(p) if p == "C:\\clip.mp4"));
    assert_eq!(refusal(decide("optimize C:\\missing.mp4", false)), "no such file");
}

fn monitor(name: &str, x: i32, width: u32, height: u32, primary: bool) -> MonitorInfo {
    MonitorInfo {
        device_name: name.to_string(),
        x,
        y: 0,
        width,
        height,
        refresh_hz: 60,
        primary,
    }
}

fn profile(outputs: Vec<Vec<MonitorInfo>>) -> GpuProfile {
    let adapters = outputs
        .into_iter()
        .enumerate()
        .map(|(i, outputs)| AdapterInfo {
            luid: i as i64,
            vendor_id: 0x8086,
            device_id: 0,
            name: format!("GPU {i}"),
            dedicated_vram: 0,
            shared_mem: 0,
            class: AdapterClass::Integrated,
            feature_level: 0xb000,
            decode: DecodeCaps::default(),
            outputs,
        })
        .collect();
    GpuProfile {
        adapters,
        system: SystemInfo { total_ram_mb: 8192, on_battery: false },
        rec: Recommendation {
            tier: Tier::Mid,
            target_fps: 30,
            max_scale: (1920, 1080),
            allow_distinct_videos: true,
            reason: String::new(),
        },
    }
}

#[test]
fn the_displays_are_listed_adapter_by_adapter() {
    let p = profile(vec![
        vec![monitor("\\\\.\\DISPLAY1", 0, 1920, 1080, true)],
        vec![monitor("\\\\.\\DISPLAY2", -1280, 1280, 1024, false)],
    ]);
    assert_eq!(
        ipc::monitors_reply(&p),
        "monitor \\\\.\\DISPLAY1 0 0 1920 1080 60 true GPU 0\n\
         monitor \\\\.\\DISPLAY2 -1280 0 1280 1024 60 false GPU 1\nend\n"
    );
}

#[test]
fn a_clip_is_rewritten_for_the_largest_screen() {
    let p = profile(vec![
        vec![monitor("A", 0, 1920, 1080, true), monitor("B", 1920, 2560, 1440, false)],
        vec![monitor("C", 4480, 1440, 2560, false)],
    ]);
    // B and C have as many pixels; the later one wins.
    assert_eq!(ipc::rewrite_size(&p), (1440, 2560));
    assert_eq!(ipc::rewrite_size(&profile(vec![])), (1920, 1080));
}

fn status_text(st: &Status<f32>) -> String {
    ipc::status_reply(
        st,
        &|v: f32| format!("{v:.3}"),
        &|v: f32| format!("{v:.2}"),
        &|v: f32| format!("{v:.1}"),
        &|v: f32| format!("{:.0}", v * 100.0),
        -1.0,
        1.0,
        0.0,
    )
}

#[test]
fn a_fresh_status_reports_the_defaults() {
    let st = Status::new(0.0f32, 0.5, 1.0);
    assert_eq!(
        status_text(&st),
        "ok fps=0 paused=false frozen=false fit=cover interval=0 shuffle=false brightness=1.000 \
         saturation=1.000 blur=0.000 sound=false volume=0.500 duck=true ducking=false speed=1.00 \
         fade=400 span=false hotkeys=true hibernate=20 hibernating=false reactive=0.00 parallax=0.00 \
         memory=0 batfps=24 batfreeze=true battery=false saver=false charge=100 cpu=0.0 ram=0 \
         realfps=0.0 idle=300 away=false busyfps=10 busy=false load=0.0 reducemotion=true \
         drift=0.00 accent=false uptime=0 resting=0\nend\n"
    );
}

#[test]
fn only_a_display_with_settings_of_its_own_gets_an_own_line() {
    let mut st = Status::new(0.0f32, 0.5, 1.0);
    st.monitors.push(MonitorState {
        device_name: "D1".to_string(),
        enabled: true,
        index: 1,
        items: vec!["a.mp4".to_string(), "b.mp4".to_string()],
        overrides: Overrides { fit: None, visual: None, fps: None },
    });
    st.monitors.push(MonitorState {
        device_name: "D2".to_string(),
        enabled: false,
        index: 0,
        items: vec![],
        overrides: Overrides { fit: Some(Fit::Contain), visual: None, fps: Some(15) },
    });
    st.apps = "game.exe".to_string();
    st.scenes.push("evening;D1=a.mp4".to_string());
    st.optimize = Some(wallpaper_core::optimize::Job {
        source: "C:\\clip.mp4".to_string(),
        progress: 0.25,
        output: None,
        error: None,
    });
    st.error = Some("no scene called x".to_string());
    let text = status_text(&st);
    let tail = text.split_once('\n').unwrap().1;
    assert_eq!(
        tail,
        "monitor D1 true 1 a.mp4|b.mp4\nmonitor D2 false 0 \n\
         own D2 contain 15 -1.000 1.000 0.000\napps game.exe\nscene evening;D1=a.mp4\n\
         optimize running 25 C:\\clip.mp4|\nerror no scene called x\nend\n"
    );
}

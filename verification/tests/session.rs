use std::collections::BTreeMap;

use wallpaper_core::compositor::render::{Fit, Motion, Overrides, Visual};
use wallpaper_core::compositor::rules::parse as parse_rules;
use wallpaper_core::compositor::scenes::parse as parse_scene;
use wallpaper_core::compositor::Sound;
use wallpaper_core::session::{self, Session};

/// The session file as the engine reads it: numbers are `f32`, and an
/// unreadable volume, saturation or blur falls back to a half, one and
/// zero.
fn parse(text: &str) -> Session<f32> {
    session::parse(text, |t: &str| t.parse::<f32>().ok(), |v: f32| v >= 0.0, 0.5, 1.0, 0.0)
}

/// ...and as it writes it: three places for most fractions, two for the
/// speed, and as briefly as reads back for a shader's own settings.
fn written_form(s: &Session<f32>) -> String {
    session::written_form(
        s,
        |v: f32| format!("{v:.3}"),
        |v: f32| format!("{v:.2}"),
        |v: f32| format!("{v}"),
        -1.0,
        1.0,
        0.0,
    )
}

fn own<'a>(s: &'a Session<f32>, name: &str) -> Option<&'a Overrides<f32>> {
    s.overrides.iter().find(|(n, _)| n == name).map(|(_, o)| o)
}

fn params(s: &Session<f32>) -> BTreeMap<String, BTreeMap<String, u32>> {
    s.shader_params
        .iter()
        .map(|(path, values)| {
            (
                path.clone(),
                values.iter().map(|(n, v)| (n.clone(), v.to_bits())).collect(),
            )
        })
        .collect()
}

#[test]
fn a_full_session_round_trips() {
    let written = "fps 30\nfit contain\ninterval 900\nvisual 1.100 0.900 0.250\n\
                   sound on 0.400\nmonitor DISPLAY1 true a.mp4|b.mp4\n";
    let session = parse(written);

    assert_eq!(session.fps, Some(30));
    assert_eq!(session.fit, Some(Fit::Contain));
    assert_eq!(session.interval_secs, Some(900));
    assert_eq!(session.visual.unwrap().brightness, 1.1);
    assert!(session.sound.unwrap().enabled);
    assert_eq!(session.monitors.len(), 1);
    assert_eq!(session.monitors[0].2.len(), 2);
}

#[test]
fn a_broken_line_does_not_take_the_rest_with_it() {
    let session = parse("fps 60\n\nnonsense\nfit stretch\n");
    assert_eq!(session.fps, Some(60));
    assert_eq!(session.fit, Some(Fit::Stretch));
}

#[test]
fn a_monitor_with_no_playlist_keeps_its_switch() {
    for line in ["monitor DISPLAY2 false ", "monitor DISPLAY2 false"] {
        let session = parse(line);
        assert_eq!(session.monitors.len(), 1, "{line:?}");
        assert!(!session.monitors[0].1, "{line:?}");
        assert!(session.monitors[0].2.is_empty(), "{line:?}");
    }
}

#[test]
fn the_settings_added_after_the_first_release_round_trip() {
    let session = parse(
        "power 15 on\nspeed 0.50\nfade 250\nspan on\nhotkeys off\n\
         sound on 0.400 off\n",
    );

    let power = session.power.unwrap();
    assert_eq!(power.battery_fps, 15);
    assert!(power.pause_on_saver);
    assert_eq!(session.speed, Some(0.5));
    assert_eq!(session.fade_ms, Some(250));
    assert_eq!(session.span, Some(true));
    assert_eq!(session.hotkeys, Some(false));
    assert!(!session.sound.unwrap().duck);
}

#[test]
fn the_settings_added_for_hibernation_and_motion_round_trip() {
    let before = Session {
        hibernate_secs: Some(45),
        motion: Some(Motion {
            reactive: 0.6,
            parallax: 0.25,
        }),
        memory_mb: Some(350),
        apps: vec!["photoshop.exe".to_string(), "blender".to_string()],
        rules: parse_rules(r"t420|C:a bday.mp4;d1|C:dark.mp4"),
        ..Session::default()
    };

    let after = parse(&written_form(&before));

    assert_eq!(after.hibernate_secs, Some(45));
    let motion = after.motion.unwrap();
    assert!((motion.reactive - 0.6).abs() < 0.001);
    assert!((motion.parallax - 0.25).abs() < 0.001);
    assert_eq!(after.memory_mb, Some(350));
    assert_eq!(after.apps, before.apps);
    assert_eq!(after.rules, before.rules);
}

#[test]
fn the_settings_added_for_idling_drifting_and_scenes_round_trip() {
    let before = Session {
        idle_secs: Some(600),
        busy_fps: Some(12),
        reduce_motion: Some(false),
        drift: Some(0.4),
        accent: Some(true),
        scenes: vec![parse_scene(r"Gece;\\.\DISPLAY1=C:\a b.mp4|C:\c.mp4;\\.\DISPLAY2=").unwrap()],
        shader_params: vec![(
            r"C:\shaders\bars one.hlsl".to_string(),
            vec![("speed".to_string(), 1.5), ("glow".to_string(), 0.25)],
        )],
        ..Session::default()
    };

    let after = parse(&written_form(&before));

    assert_eq!(after.idle_secs, Some(600));
    assert_eq!(after.busy_fps, Some(12));
    assert_eq!(after.reduce_motion, Some(false));
    assert!((after.drift.unwrap() - 0.4).abs() < 0.001);
    assert_eq!(after.accent, Some(true));
    assert_eq!(after.scenes, before.scenes);
    assert_eq!(params(&after), params(&before));
}

#[test]
fn shuffle_round_trips_either_way() {
    for wanted in [true, false] {
        let before = Session {
            shuffle: Some(wanted),
            ..Session::default()
        };
        assert_eq!(parse(&written_form(&before)).shuffle, Some(wanted));
    }
}

#[test]
fn a_file_without_a_shuffle_line_leaves_it_unset() {
    assert_eq!(parse("fps 30\nfit cover\n").shuffle, None);
}

#[test]
fn a_file_without_the_new_lines_leaves_them_unset() {
    let session = parse("fps 30\nfit cover\n");
    assert_eq!(session.hibernate_secs, None);
    assert!(session.motion.is_none());
    assert_eq!(session.memory_mb, None);
    assert!(session.apps.is_empty());
    assert!(session.rules.is_empty());
    assert_eq!(session.idle_secs, None);
    assert_eq!(session.busy_fps, None);
    assert_eq!(session.reduce_motion, None);
    assert_eq!(session.drift, None);
    assert_eq!(session.accent, None);
    assert!(session.scenes.is_empty());
    assert!(session.shader_params.is_empty());
}

#[test]
fn an_older_sound_line_still_loads() {
    let session = parse("sound on 0.400\n");
    let sound = session.sound.unwrap();
    assert!(sound.enabled);
    assert_eq!(sound.volume, 0.4);
    assert!(sound.duck);
}

#[test]
fn a_monitor_with_settings_of_its_own_round_trips() {
    let session = parse("own DISPLAY2 contain 10 0.500 1.000 0.250\n");
    let own = own(&session, "DISPLAY2").unwrap();

    assert_eq!(own.fit, Some(Fit::Contain));
    assert_eq!(own.fps, Some(10));
    assert_eq!(own.visual.unwrap().brightness, 0.5);
    assert_eq!(own.visual.unwrap().blur, 0.25);
}

#[test]
fn a_monitor_that_follows_the_desktop_has_no_settings_of_its_own() {
    let session = parse("own DISPLAY2 - 0 -1.000 1.000 0.000\n");
    let own = own(&session, "DISPLAY2").unwrap();

    assert_eq!(own.fit, None);
    assert_eq!(own.fps, None);
    assert_eq!(own.visual, None);
}

#[test]
fn overrides_survive_a_write_and_a_read() {
    let written = written_form(&Session {
        overrides: vec![(
            "DISPLAY1".to_string(),
            Overrides {
                fit: Some(Fit::Stretch),
                fps: Some(12),
                visual: None,
            },
        )],
        ..Default::default()
    });

    let read = parse(&written);
    let own = own(&read, "DISPLAY1").unwrap();
    assert_eq!(own.fit, Some(Fit::Stretch));
    assert_eq!(own.fps, Some(12));
    assert_eq!(own.visual, None);
}

#[test]
fn an_empty_file_is_an_empty_session() {
    let session = parse("");
    assert!(session.fps.is_none());
    assert!(session.monitors.is_empty());
}

// ---------------------------------------------------------------------------
// The written form, exactly, and the edges of the reading.
// ---------------------------------------------------------------------------

#[test]
fn a_session_is_written_one_line_per_setting_in_a_fixed_order() {
    let session = Session {
        fps: Some(30),
        fit: Some(Fit::Cover),
        shuffle: Some(false),
        visual: Some(Visual {
            brightness: 1.0,
            saturation: 0.5,
            blur: 0.25,
        }),
        sound: Some(Sound {
            enabled: true,
            volume: 0.4,
            duck: false,
        }),
        speed: Some(1.5),
        fade_ms: Some(400),
        apps: vec!["a".to_string(), "b c".to_string()],
        shader_params: vec![(
            "x.hlsl".to_string(),
            vec![("speed".to_string(), 1.5), ("a1".to_string(), 2.0), ("a".to_string(), 0.5)],
        )],
        overrides: vec![(
            "D2".to_string(),
            Overrides {
                fit: None,
                fps: None,
                visual: None,
            },
        )],
        monitors: vec![
            ("D1".to_string(), true, vec!["a.mp4".to_string(), "b.mp4".to_string()]),
            ("D2".to_string(), false, Vec::new()),
        ],
        ..Session::default()
    };
    assert_eq!(
        written_form(&session),
        [
            "fps 30\n",
            "fit cover\n",
            "shuffle off\n",
            "visual 1.000 0.500 0.250\n",
            "sound on 0.400 off\n",
            "speed 1.50\n",
            "fade 400\n",
            "apps a|b c\n",
            // Sorted as text: `a1=` comes before `a=`, because `1` is
            // before `=`.
            "sparam x.hlsl|a1=2|a=0.5|speed=1.5\n",
            "own D2 - 0 -1.000 1.000 0.000\n",
            "monitor D1 true a.mp4|b.mp4\n",
            "monitor D2 false \n",
        ]
        .join("")
    );
}

#[test]
fn nothing_written_down_writes_nothing() {
    assert_eq!(written_form(&Session::default()), "");
}

#[test]
fn the_last_line_for_a_setting_wins() {
    let session = parse("fps 30\nfps nonsense\nfit cover\nfit sideways\nspeed 2\n");
    // An unreadable value is a value: it clears what came before.
    assert_eq!(session.fps, None);
    assert_eq!(session.fit, None);
    assert_eq!(session.speed, Some(2.0));
}

#[test]
fn a_grade_needs_exactly_three_numbers() {
    assert!(parse("visual 1 1\n").visual.is_none());
    assert!(parse("visual 1 1 1 1\n").visual.is_none());
    // A word among them is left out rather than refused.
    let v = parse("visual 1 x 0.5 0\n").visual.unwrap();
    assert_eq!((v.brightness, v.saturation, v.blur), (1.0, 0.5, 0.0));
}

#[test]
fn an_unreadable_volume_is_a_half_and_an_unreadable_battery_rate_is_24() {
    let s = parse("sound off loud on\npower many off\n");
    let sound = s.sound.unwrap();
    assert!(!sound.enabled);
    assert_eq!(sound.volume, 0.5);
    assert!(sound.duck);
    assert_eq!(s.power.unwrap().battery_fps, 24);
    assert!(!s.power.unwrap().pause_on_saver);
    // Without a second field neither line says anything.
    let t = parse("sound on\npower 10\n");
    assert!(t.sound.is_none());
    assert!(t.power.is_none());
}

#[test]
fn a_monitor_keeps_one_entry_of_its_own() {
    let s = parse("own D1 cover 10 1 1 0\nown D1 contain 0 - 1 0\nown D1 cover\n");
    assert_eq!(s.overrides.len(), 1);
    let own = own(&s, "D1").unwrap();
    assert_eq!(own.fit, Some(Fit::Contain));
    assert_eq!(own.fps, None);
    assert_eq!(own.visual, None);
}

#[test]
fn a_shader_line_without_a_reading_setting_is_dropped() {
    assert!(parse("sparam x.hlsl|speed=fast\n").shader_params.is_empty());
    assert!(parse("sparam |speed=1\n").shader_params.is_empty());
    let s = parse("sparam x.hlsl|speed=1|speed=2|junk\nsparam x.hlsl|glow=3\n");
    assert_eq!(s.shader_params.len(), 1);
    assert_eq!(s.shader_params[0].1, vec![("glow".to_string(), 3.0)]);
}

#[test]
fn scenes_and_monitors_accumulate() {
    let s = parse("scene A;D1=a.mp4\nscene ;bad\nscene B\nmonitor D1 true a.mp4||b.mp4\nmonitor D2\n");
    assert_eq!(s.scenes.len(), 2);
    assert_eq!(s.scenes[1].name, "B");
    assert_eq!(s.monitors.len(), 1);
    assert_eq!(s.monitors[0].2, vec!["a.mp4".to_string(), "b.mp4".to_string()]);
}

#[test]
fn a_missing_brightness_or_a_negative_one_is_the_desktops_grade() {
    for line in ["own D1 - 0 - 1 0\n", "own D1 - 0 -0.5 1 0\n", "own D1 - 0 x 1 0\n"] {
        assert_eq!(own(&parse(line), "D1").unwrap().visual, None, "{line:?}");
    }
    // A saturation or blur that does not read is the neutral one.
    let v = own(&parse("own D1 - 0 0.8 x y\n"), "D1").unwrap().visual.unwrap();
    assert_eq!((v.brightness, v.saturation, v.blur), (0.8, 1.0, 0.0));
}

#[test]
fn a_number_that_does_not_read_back_takes_only_its_own_line_with_it() {
    let before = Session {
        fps: Some(24),
        fit: Some(Fit::Contain),
        speed: Some(1.5),
        drift: Some(0.2),
        idle_secs: Some(120),
        apps: vec!["photoshop".to_string()],
        ..Session::default()
    };
    // Numbers written as a word the reader does not take.
    let text = session::written_form(&before, |_: f32| "x".to_string(), |_: f32| "x".to_string(), |_: f32| "x".to_string(), -1.0, 1.0, 0.0);
    let after = parse(&text);
    assert_eq!(after.fps, Some(24));
    assert_eq!(after.fit, Some(Fit::Contain));
    assert_eq!(after.idle_secs, Some(120));
    assert_eq!(after.apps, vec!["photoshop".to_string()]);
    assert_eq!(after.speed, None);
    assert_eq!(after.drift, None);
}

use wallpaper_core::compositor::scenes::{find, parse, remove, store, valid_name, written_form, Scene, MAX};

fn scene() -> Scene {
    Scene {
        name: "Work".to_string(),
        monitors: vec![
            (
                r"\\.\DISPLAY1".to_string(),
                vec![r"C:\clips\a b.mp4".to_string(), r"C:\c.mp4".to_string()],
            ),
            (r"\\.\DISPLAY2".to_string(), Vec::new()),
        ],
    }
}

#[test]
fn a_scene_round_trips() {
    assert_eq!(parse(&written_form(&scene())), Some(scene()));
}

#[test]
fn an_empty_screen_survives_the_round_trip() {
    let read = parse(&written_form(&scene())).unwrap();
    assert_eq!(read.monitors[1].1.len(), 0);
    assert_eq!(read.monitors.len(), 2);
}

#[test]
fn a_name_may_not_carry_a_separator() {
    assert!(valid_name("Gece"));
    assert!(!valid_name("a;b"));
    assert!(!valid_name("a|b"));
    assert!(!valid_name(""));
    assert!(!valid_name(" padded"));
}

#[test]
fn saving_twice_replaces_rather_than_duplicates() {
    let mut scenes = vec![scene()];
    let mut second = scene();
    second.monitors.clear();

    assert!(store(&mut scenes, second));
    assert_eq!(scenes.len(), 1);
    assert!(scenes[0].monitors.is_empty());
}

#[test]
fn the_list_has_an_end() {
    let mut scenes = Vec::new();
    for i in 0..MAX {
        assert!(store(
            &mut scenes,
            Scene {
                name: format!("s{i}"),
                monitors: Vec::new(),
            }
        ));
    }
    assert!(!store(
        &mut scenes,
        Scene {
            name: "one too many".to_string(),
            monitors: Vec::new(),
        }
    ));
    assert_eq!(scenes.len(), MAX);
}

#[test]
fn a_malformed_line_is_not_a_scene() {
    assert!(parse("").is_none());
    assert!(parse(";DISPLAY1=a.mp4").is_none());
}

#[test]
fn removing_says_whether_it_removed_anything() {
    let mut scenes = vec![scene()];
    assert!(!remove(&mut scenes, "Nope"));
    assert!(remove(&mut scenes, "Work"));
    assert!(scenes.is_empty());
}

#[test]
fn a_scene_is_written_name_first() {
    assert_eq!(
        written_form(&scene()),
        r"Work;\\.\DISPLAY1=C:\clips\a b.mp4|C:\c.mp4;\\.\DISPLAY2="
    );
}

#[test]
fn a_name_that_cannot_be_written_is_not_stored() {
    let mut scenes = Vec::new();
    assert!(!store(
        &mut scenes,
        Scene {
            name: "a;b".to_string(),
            monitors: Vec::new(),
        }
    ));
    assert!(scenes.is_empty());
}

#[test]
fn a_full_list_still_takes_a_replacement() {
    let mut scenes = Vec::new();
    for i in 0..MAX {
        store(
            &mut scenes,
            Scene {
                name: format!("s{i}"),
                monitors: Vec::new(),
            },
        );
    }
    let replacement = Scene {
        name: "s3".to_string(),
        monitors: vec![("D".to_string(), vec!["x.mp4".to_string()])],
    };
    assert!(store(&mut scenes, replacement.clone()));
    assert_eq!(scenes.len(), MAX);
    assert_eq!(find(&scenes, "s3"), Some(&replacement));
    assert!(find(&scenes, "s99").is_none());
}

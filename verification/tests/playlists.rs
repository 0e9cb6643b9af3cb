use wallpaper_core::compositor::playlists::{Playlists, Seeds};

fn s(t: &str) -> String {
    t.to_string()
}

fn list(names: &[&str]) -> Vec<String> {
    names.iter().map(|n| n.to_string()).collect()
}

fn shown(p: &Playlists, name: &str) -> Option<String> {
    p.get(&s(name)).and_then(|state| state.current().cloned())
}

fn two_screens() -> (Playlists, Seeds) {
    let mut seeds = Seeds::new();
    let p = Playlists::restored(
        &list(&["\\\\.\\DISPLAY1", "\\\\.\\DISPLAY2"]),
        &vec![(s("\\\\.\\DISPLAY2"), false, list(&["b.mp4", "c.mp4"]))],
        &Some(s("a.mp4")),
        false,
        &mut seeds,
    );
    (p, seeds)
}

#[test]
fn the_session_decides_each_screen_and_the_command_line_the_rest() {
    let (p, seeds) = two_screens();
    assert_eq!(p.screens.len(), 2);
    assert_eq!(shown(&p, "\\\\.\\DISPLAY1"), Some(s("a.mp4")));
    assert!(p.get(&s("\\\\.\\DISPLAY1")).unwrap().enabled);
    assert_eq!(shown(&p, "\\\\.\\DISPLAY2"), Some(s("b.mp4")));
    assert!(!p.get(&s("\\\\.\\DISPLAY2")).unwrap().enabled);
    assert_eq!(seeds.drawn, 2);
    let mut none = Seeds::new();
    let bare = Playlists::restored(&list(&["X"]), &vec![], &None, true, &mut none);
    assert_eq!(shown(&bare, "X"), None);
}

#[test]
fn a_list_goes_to_one_screen_unless_the_wallpaper_spans() {
    let (mut p, mut seeds) = two_screens();
    let routes = p.set_playlist(&s("\\\\.\\DISPLAY1"), list(&["d.mp4"]), false, false, &mut seeds);
    assert_eq!(routes, vec![(s("\\\\.\\DISPLAY1"), Some(s("d.mp4")))]);
    assert_eq!(shown(&p, "\\\\.\\DISPLAY2"), Some(s("b.mp4")));
    let routes = p.set_playlist(&s("\\\\.\\DISPLAY1"), list(&["e.mp4"]), true, false, &mut seeds);
    assert_eq!(
        routes,
        vec![(s("\\\\.\\DISPLAY1"), Some(s("e.mp4"))), (s("\\\\.\\DISPLAY2"), Some(s("e.mp4")))]
    );
    // A screen not seen before is added, switched on.
    p.set_playlist(&s("NEW"), list(&["f.mp4"]), false, false, &mut seeds);
    assert_eq!(p.screens.len(), 3);
    assert!(p.get(&s("NEW")).unwrap().enabled);
}

#[test]
fn a_screen_is_switched_and_moved_on_by_name() {
    let (mut p, mut seeds) = two_screens();
    p.set_enabled(&s("\\\\.\\DISPLAY2"), true);
    assert!(p.get(&s("\\\\.\\DISPLAY2")).unwrap().enabled);
    p.set_enabled(&s("NOBODY"), false);
    assert_eq!(p.screens.len(), 2);
    let counts = vec![(s("c.mp4"), 4)];
    assert_eq!(p.next(&s("\\\\.\\DISPLAY2"), false, &mut seeds, &counts), Some(Some(s("c.mp4"))));
    assert_eq!(p.get(&s("\\\\.\\DISPLAY2")).unwrap().loops_at_start, 4);
    assert_eq!(p.next(&s("NOBODY"), false, &mut seeds, &counts), None);
}

#[test]
fn redrawing_the_order_leaves_what_is_on_screen_alone() {
    let (mut p, mut seeds) = two_screens();
    p.next(&s("\\\\.\\DISPLAY2"), false, &mut seeds, &vec![]);
    p.reorder_all(true, &mut seeds);
    assert_eq!(shown(&p, "\\\\.\\DISPLAY2"), Some(s("c.mp4")));
    p.reorder_all(false, &mut seeds);
    assert_eq!(shown(&p, "\\\\.\\DISPLAY2"), Some(s("c.mp4")));
    assert_eq!(p.get(&s("\\\\.\\DISPLAY2")).unwrap().order, vec![0, 1]);
}

#[test]
fn a_scene_puts_up_every_screen_it_names_and_the_later_entry_wins() {
    let (mut p, mut seeds) = two_screens();
    let scene = vec![
        (s("\\\\.\\DISPLAY2"), list(&["x.mp4"])),
        (s("OTHER"), list(&["y.mp4"])),
        (s("\\\\.\\DISPLAY2"), list(&["z.mp4"])),
    ];
    let routes = p.load_scene(&scene, false, &mut seeds);
    assert_eq!(routes.len(), 3);
    assert_eq!(routes[2], (s("\\\\.\\DISPLAY2"), Some(s("z.mp4"))));
    assert_eq!(shown(&p, "\\\\.\\DISPLAY1"), Some(s("a.mp4")));
    assert_eq!(shown(&p, "\\\\.\\DISPLAY2"), Some(s("z.mp4")));
    assert_eq!(shown(&p, "OTHER"), Some(s("y.mp4")));
    let saved = p.arrangement();
    assert_eq!(saved[0], (s("\\\\.\\DISPLAY1"), list(&["a.mp4"])));
    assert_eq!(saved[2], (s("OTHER"), list(&["y.mp4"])));
}

#[test]
fn spanning_copies_the_primary_screens_list() {
    let (mut p, mut seeds) = two_screens();
    let source = p.items_of(&Some(s("\\\\.\\DISPLAY2")));
    assert_eq!(source, list(&["b.mp4", "c.mp4"]));
    assert!(p.items_of(&None).is_empty());
    let routes = p.play_everywhere(&source, false, &mut seeds);
    assert_eq!(routes[0], (s("\\\\.\\DISPLAY1"), Some(s("b.mp4"))));
}

#[test]
fn waking_up_forgets_the_loop_counts() {
    let (mut p, mut seeds) = two_screens();
    p.next(&s("\\\\.\\DISPLAY2"), false, &mut seeds, &vec![(s("c.mp4"), 9)]);
    p.restart_all();
    assert_eq!(p.get(&s("\\\\.\\DISPLAY2")).unwrap().loops_at_start, 0);
    assert_eq!(shown(&p, "\\\\.\\DISPLAY2"), Some(s("c.mp4")));
}

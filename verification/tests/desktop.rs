use wallpaper_core::caps::{
    AdapterClass, AdapterInfo, DecodeCaps, GpuProfile, MonitorInfo, Recommendation, SystemInfo,
    Tier,
};
use wallpaper_core::compositor::desktop::{desktop_bounds, layout_of, primary_monitor};
use wallpaper_core::compositor::render::Rect;

fn monitor(name: &str, x: i32, y: i32, width: u32, height: u32) -> MonitorInfo {
    MonitorInfo {
        device_name: name.to_string(),
        x,
        y,
        width,
        height,
        refresh_hz: 60,
        primary: x == 0 && y == 0,
    }
}

fn adapter(outputs: Vec<MonitorInfo>) -> AdapterInfo {
    AdapterInfo {
        luid: 1,
        vendor_id: 0,
        device_id: 0,
        name: "test".to_string(),
        dedicated_vram: 0,
        shared_mem: 0,
        class: AdapterClass::Integrated,
        feature_level: 0xB000,
        decode: DecodeCaps::default(),
        outputs,
    }
}

fn profile_of(adapters: Vec<AdapterInfo>) -> GpuProfile {
    GpuProfile {
        adapters,
        system: SystemInfo {
            total_ram_mb: 8192,
            on_battery: false,
        },
        rec: Recommendation {
            tier: Tier::Mid,
            target_fps: 30,
            max_scale: (1920, 1080),
            allow_distinct_videos: true,
            reason: String::new(),
        },
    }
}

fn profile_with(outputs: Vec<MonitorInfo>) -> GpuProfile {
    profile_of(vec![adapter(outputs)])
}

#[test]
fn one_monitor_is_its_own_desktop() {
    let profile = profile_with(vec![monitor("A", 0, 0, 1920, 1080)]);
    assert_eq!(
        desktop_bounds(&profile),
        Rect {
            x: 0,
            y: 0,
            width: 1920,
            height: 1080
        }
    );
}

#[test]
fn two_side_by_side_span_both() {
    let profile = profile_with(vec![
        monitor("A", 0, 0, 1920, 1080),
        monitor("B", 1920, 0, 1920, 1080),
    ]);
    assert_eq!(desktop_bounds(&profile).width, 3840);
    assert_eq!(desktop_bounds(&profile).height, 1080);
}

#[test]
fn a_monitor_left_of_the_primary_still_counts() {
    let profile = profile_with(vec![
        monitor("A", 0, 0, 1920, 1080),
        monitor("B", -1280, 0, 1280, 1024),
    ]);
    let bounds = desktop_bounds(&profile);
    assert_eq!(bounds.x, -1280);
    assert_eq!(bounds.width, 3200);
    assert_eq!(bounds.height, 1080);
}

#[test]
fn a_stacked_pair_is_taller_than_either() {
    let profile = profile_with(vec![
        monitor("A", 0, 0, 1920, 1080),
        monitor("B", 0, -1080, 1920, 1080),
    ]);
    let bounds = desktop_bounds(&profile);
    assert_eq!(bounds.y, -1080);
    assert_eq!(bounds.height, 2160);
}

#[test]
fn no_monitors_is_an_empty_desktop() {
    let bounds = desktop_bounds(&profile_with(Vec::new()));
    assert_eq!(bounds.width, 0);
    assert_eq!(bounds.height, 0);
}

#[test]
fn the_layout_ignores_enumeration_order() {
    let one = profile_with(vec![
        monitor("A", 0, 0, 1920, 1080),
        monitor("B", 1920, 0, 1920, 1080),
    ]);
    let other = profile_with(vec![
        monitor("B", 1920, 0, 1920, 1080),
        monitor("A", 0, 0, 1920, 1080),
    ]);
    assert_eq!(layout_of(&one), layout_of(&other));
}

#[test]
fn a_resolution_change_is_a_layout_change() {
    let before = profile_with(vec![monitor("A", 0, 0, 1920, 1080)]);
    let after = profile_with(vec![monitor("A", 0, 0, 2560, 1440)]);
    assert_ne!(layout_of(&before), layout_of(&after));
}

#[test]
fn monitors_on_every_adapter_make_up_the_desktop() {
    let profile = profile_of(vec![
        adapter(vec![monitor("A", 0, 0, 1920, 1080)]),
        adapter(Vec::new()),
        adapter(vec![monitor("C", 1920, 200, 1280, 1024)]),
    ]);
    assert_eq!(
        desktop_bounds(&profile),
        Rect {
            x: 0,
            y: 0,
            width: 3200,
            height: 1224
        }
    );
}

#[test]
fn the_layout_is_sorted_by_name_then_place() {
    let profile = profile_of(vec![
        adapter(vec![monitor("B", 10, 0, 800, 600), monitor("AB", 5, 5, 640, 480)]),
        adapter(vec![monitor("B", 0, 0, 800, 600), monitor("A", 9, 9, 1024, 768)]),
    ]);
    assert_eq!(
        layout_of(&profile),
        vec![
            ("A".to_string(), 9, 9, 1024, 768),
            ("AB".to_string(), 5, 5, 640, 480),
            ("B".to_string(), 0, 0, 800, 600),
            ("B".to_string(), 10, 0, 800, 600),
        ]
    );
}

#[test]
fn the_primary_monitor_is_the_one_marked_so() {
    let profile = profile_of(vec![
        adapter(vec![monitor("LEFT", -1920, 0, 1920, 1080)]),
        adapter(vec![monitor("MAIN", 0, 0, 1920, 1080)]),
    ]);
    assert_eq!(primary_monitor(&profile), Some("MAIN".to_string()));
}

#[test]
fn without_a_primary_the_first_monitor_stands_in() {
    let profile = profile_of(vec![
        adapter(Vec::new()),
        adapter(vec![
            monitor("FIRST", 10, 0, 1920, 1080),
            monitor("SECOND", 20, 0, 1920, 1080),
        ]),
    ]);
    assert_eq!(primary_monitor(&profile), Some("FIRST".to_string()));
    assert_eq!(primary_monitor(&profile_with(Vec::new())), None);
}

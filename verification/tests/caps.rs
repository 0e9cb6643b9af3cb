use wallpaper_core::caps::adapter::{classify, VENDOR_NVIDIA};
use wallpaper_core::caps::policy::{decide, unsupported, RES_1080P, RES_1440P, RES_NATIVE};
use wallpaper_core::caps::{
    AdapterClass, AdapterInfo, DecodeCaps, GpuProfile, MonitorInfo, Recommendation, SystemInfo,
    Tier,
};

const VENDOR_INTEL: u32 = 0x8086;
const VENDOR_AMD: u32 = 0x1002;
const GIB: u64 = 1024 * 1024 * 1024;

#[test]
fn software_adapter_wins_over_everything() {
    // WARP reports plenty of "video memory"; the flag decides.
    assert_eq!(
        classify(true, VENDOR_NVIDIA, 8 * GIB),
        AdapterClass::Software
    );
}

#[test]
fn intel_arc_is_discrete_despite_intel_vendor_id() {
    assert_eq!(
        classify(false, VENDOR_INTEL, 8 * GIB),
        AdapterClass::Discrete
    );
}

#[test]
fn amd_apu_is_integrated() {
    assert_eq!(
        classify(false, VENDOR_AMD, 419 * 1024 * 1024),
        AdapterClass::Integrated
    );
}

#[test]
fn nvidia_is_discrete_even_with_little_reported_vram() {
    assert_eq!(
        classify(false, VENDOR_NVIDIA, 256 * 1024 * 1024),
        AdapterClass::Discrete
    );
}

fn monitor(width: u32, height: u32, refresh_hz: u32) -> MonitorInfo {
    MonitorInfo {
        device_name: r"\.DISPLAY1".to_string(),
        x: 0,
        y: 0,
        width,
        height,
        refresh_hz,
        primary: true,
    }
}

fn adapter(class: AdapterClass, outputs: Vec<MonitorInfo>) -> AdapterInfo {
    AdapterInfo {
        luid: 1,
        vendor_id: 0x8086,
        device_id: 0,
        name: "test".to_string(),
        dedicated_vram: 0,
        shared_mem: 0,
        class,
        feature_level: 0xB100,
        decode: DecodeCaps {
            h264: true,
            ..Default::default()
        },
        outputs,
    }
}

fn system(total_ram_mb: u64, on_battery: bool) -> SystemInfo {
    SystemInfo {
        total_ram_mb,
        on_battery,
    }
}

#[test]
fn integrated_gpu_defaults_to_mid() {
    let a = [adapter(
        AdapterClass::Integrated,
        vec![monitor(1920, 1080, 60)],
    )];
    let rec = decide(&a, &system(8192, false));
    assert_eq!(rec.tier, Tier::Mid);
    assert_eq!(rec.target_fps, 30);
    assert!(!rec.allow_distinct_videos);
}

#[test]
fn discrete_gpu_with_enough_ram_is_high() {
    let a = [adapter(
        AdapterClass::Discrete,
        vec![monitor(1920, 1080, 144)],
    )];
    let rec = decide(&a, &system(16384, false));
    assert_eq!(rec.tier, Tier::High);
    assert_eq!(rec.target_fps, 60);
    assert!(rec.allow_distinct_videos);
}

#[test]
fn fps_never_exceeds_refresh_rate() {
    // A 60fps target on a 50Hz projector is 10 frames nobody sees.
    let a = [adapter(
        AdapterClass::Discrete,
        vec![monitor(1920, 1080, 50)],
    )];
    assert_eq!(decide(&a, &system(16384, false)).target_fps, 50);
}

#[test]
fn battery_caps_at_30() {
    let a = [adapter(
        AdapterClass::Discrete,
        vec![monitor(1920, 1080, 144)],
    )];
    let rec = decide(&a, &system(16384, true));
    assert_eq!(rec.target_fps, 30);
    assert!(rec.reason.contains("battery"));
}

#[test]
fn low_ram_forces_low_tier() {
    let a = [adapter(
        AdapterClass::Discrete,
        vec![monitor(1920, 1080, 144)],
    )];
    let rec = decide(&a, &system(3072, false));
    assert_eq!(rec.tier, Tier::Low);
    assert_eq!(rec.max_scale, RES_1080P);
}

#[test]
fn integrated_gpu_driving_many_pixels_drops_to_low() {
    let a = [adapter(
        AdapterClass::Integrated,
        vec![
            monitor(2560, 1440, 60),
            monitor(2560, 1440, 60),
            monitor(2560, 1440, 60),
            monitor(2560, 1440, 60),
        ],
    )];
    assert_eq!(decide(&a, &system(16384, false)).tier, Tier::Low);
}

#[test]
fn no_hardware_decoder_is_unsupported() {
    let mut a = adapter(AdapterClass::Discrete, vec![monitor(1920, 1080, 60)]);
    a.decode = DecodeCaps::default();
    let rec = decide(&[a], &system(16384, false));
    assert_eq!(rec.tier, Tier::Unsupported);
    assert_eq!(rec.target_fps, 0);
}

#[test]
fn software_adapter_is_unsupported() {
    let a = [adapter(
        AdapterClass::Software,
        vec![monitor(1920, 1080, 60)],
    )];
    assert_eq!(decide(&a, &system(16384, false)).tier, Tier::Unsupported);
}

#[test]
fn no_adapter_at_all_is_unsupported() {
    assert_eq!(decide(&[], &system(16384, false)).tier, Tier::Unsupported);
}

// ---------------------------------------------------------------------------
// The reasons, the caps, and the log line.
// ---------------------------------------------------------------------------

#[test]
fn each_refusal_says_why() {
    assert_eq!(
        decide(&[], &system(16384, false)).reason,
        "no adapter with a display output"
    );
    let software = [adapter(AdapterClass::Software, vec![monitor(1920, 1080, 60)])];
    assert_eq!(
        decide(&software, &system(16384, false)).reason,
        "software adapter (no GPU acceleration)"
    );
    let mut old = adapter(AdapterClass::Discrete, vec![monitor(1920, 1080, 60)]);
    old.feature_level = 0xA100;
    assert_eq!(
        decide(&[old], &system(16384, false)).reason,
        "feature level below 11_0"
    );
    let mut blind = adapter(AdapterClass::Discrete, vec![monitor(1920, 1080, 60)]);
    blind.decode = DecodeCaps::default();
    let rec = decide(&[blind], &system(16384, false));
    assert_eq!(rec.reason, "no hardware video decoder");
    assert_eq!(rec.max_scale, RES_1080P);
    assert!(!rec.allow_distinct_videos);
}

#[test]
fn the_reasons_name_what_decided() {
    let a = [adapter(AdapterClass::Discrete, vec![monitor(1920, 1080, 144)])];
    assert_eq!(decide(&a, &system(3072, false)).reason, "3072 MB RAM");
    assert_eq!(decide(&a, &system(16384, false)).reason, "discrete GPU");
    assert_eq!(decide(&a, &system(16384, false)).max_scale, RES_NATIVE);
    // A discrete GPU gets 60 fps whatever the memory, once there is enough
    // to run at all; the rest of the tier wants 8 GB.
    let mid = decide(&a, &system(6144, false));
    assert_eq!((mid.tier, mid.target_fps), (Tier::Mid, 60));
    assert_eq!(mid.reason, "discrete GPU, 6144 MB RAM");
    assert_eq!(mid.max_scale, RES_1440P);
    assert!(!mid.allow_distinct_videos);
    let busy = [adapter(
        AdapterClass::Integrated,
        vec![
            monitor(2560, 1440, 60),
            monitor(2560, 1440, 60),
            monitor(2560, 1440, 60),
            monitor(2560, 1440, 60),
        ],
    )];
    assert_eq!(
        decide(&busy, &system(16384, false)).reason,
        "integrated GPU driving 14 MPix"
    );
    let battery = decide(&a, &system(16384, true));
    assert_eq!(battery.reason, "discrete GPU, on battery");
}

#[test]
fn a_slow_screen_on_battery_keeps_its_own_rate() {
    // 24 Hz is already under the battery cap; the cap must not raise it.
    let a = [adapter(AdapterClass::Discrete, vec![monitor(1920, 1080, 24)])];
    let rec = decide(&a, &system(16384, true));
    assert_eq!(rec.target_fps, 24);
    assert_eq!(rec.reason, "discrete GPU");
}

#[test]
fn the_primary_screens_adapter_decides() {
    let mut secondary = monitor(1920, 1080, 60);
    secondary.primary = false;
    let first = adapter(AdapterClass::Integrated, vec![secondary]);
    let second = adapter(AdapterClass::Discrete, vec![monitor(1920, 1080, 144)]);
    let rec = decide(&[first, second], &system(16384, false));
    assert_eq!(rec.tier, Tier::High);
}

#[test]
fn an_unsupported_recommendation_carries_its_reason() {
    let rec = unsupported("nothing here");
    assert_eq!(rec.tier, Tier::Unsupported);
    assert_eq!(rec.target_fps, 0);
    assert_eq!(rec.reason, "nothing here");
}

#[test]
fn adapter_helpers() {
    let mut a = adapter(
        AdapterClass::Integrated,
        vec![monitor(1920, 1080, 60), monitor(2560, 1440, 144)],
    );
    assert_eq!(a.total_pixels(), 1920 * 1080 + 2560 * 1440);
    assert_eq!(a.max_refresh(), 144);
    assert_eq!(a.feature_level_str(), "11.1");
    a.feature_level = 0xC000;
    assert_eq!(a.feature_level_str(), "12.0");
    a.outputs.clear();
    assert_eq!(a.max_refresh(), 60);
    assert_eq!(a.total_pixels(), 0);
}

#[test]
fn decoders_are_listed_in_a_fixed_order() {
    assert_eq!(DecodeCaps::default().summary(), "none");
    assert!(!DecodeCaps::default().any());
    let all = DecodeCaps {
        h264: true,
        hevc_main: true,
        hevc_main10: true,
        vp9: true,
        av1: true,
    };
    assert_eq!(all.summary(), "h264+hevc+hevc10+vp9+av1");
    let some = DecodeCaps {
        vp9: true,
        hevc_main: true,
        ..Default::default()
    };
    assert_eq!(some.summary(), "hevc+vp9");
    assert!(some.any());
}

fn profile() -> GpuProfile {
    let mut second = monitor(1920, 1080, 144);
    second.device_name = r"\\.\DISPLAY1".to_string();
    second.primary = false;
    let mut first = monitor(2560, 1440, 180);
    first.device_name = r"\\.\DISPLAY5".to_string();
    GpuProfile {
        adapters: vec![
            AdapterInfo {
                luid: 0x1_2345,
                vendor_id: 0x1002,
                device_id: 0x15bf,
                name: "AMD Radeon(TM) Graphics".to_string(),
                dedicated_vram: 419 * 1024 * 1024,
                shared_mem: 7827 * 1024 * 1024,
                class: AdapterClass::Integrated,
                feature_level: 0xC100,
                decode: DecodeCaps {
                    h264: true,
                    hevc_main: true,
                    ..Default::default()
                },
                outputs: vec![first],
            },
            AdapterInfo {
                luid: -1,
                vendor_id: 0x10de,
                device_id: 0x28a1,
                name: "NVIDIA".to_string(),
                dedicated_vram: 5920 * 1024 * 1024,
                shared_mem: 0,
                class: AdapterClass::Discrete,
                feature_level: 0xB000,
                decode: DecodeCaps::default(),
                outputs: vec![second],
            },
        ],
        system: SystemInfo {
            total_ram_mb: 15654,
            on_battery: false,
        },
        rec: Recommendation {
            tier: Tier::Mid,
            target_fps: 30,
            max_scale: (2560, 1440),
            allow_distinct_videos: false,
            reason: "integrated GPU".to_string(),
        },
    }
}

#[test]
fn the_summary_is_one_line_per_thing() {
    let expected = [
        "system: 15654 MB RAM, power: AC\n",
        "adapter: AMD Radeon(TM) Graphics [Integrated] 1002:15bf luid=0x12345 vram=419 MB ",
        "shared=7827 MB fl=12.1 decode=h264+hevc\n",
        "  output: \\\\.\\DISPLAY5 2560x1440 @180Hz (primary)\n",
        "adapter: NVIDIA [Discrete] 10de:28a1 luid=0xffffffffffffffff vram=5920 MB ",
        "shared=0 MB fl=11.0 decode=none\n",
        "  output: \\\\.\\DISPLAY1 1920x1080 @144Hz\n",
        "tier: Mid -> 30 fps, max 2560x1440, distinct videos: false\n",
        "reason: integrated GPU\n",
    ]
    .join("");
    assert_eq!(profile().summary(), expected);
}

#[test]
fn the_profile_renders_on_the_adapter_with_the_primary_screen() {
    let p = profile();
    assert_eq!(p.primary().unwrap().name, "AMD Radeon(TM) Graphics");
    let mut q = profile();
    q.adapters[0].outputs[0].primary = false;
    // Nobody claims the primary screen: the first adapter stands in.
    assert_eq!(q.primary().unwrap().name, "AMD Radeon(TM) Graphics");
    q.adapters.clear();
    assert!(q.primary().is_none());
}

//! Tier classification and the resulting playback policy.
//!
//! These are the defaults the user never has to think about, not a lock:
//! the settings window shows the detected tier and lets the user override
//! frame rate and scale.

use vstd::prelude::*;

use super::adapter::{
    max_refresh_of, pixels, primary, primary_index, AdapterClass, AdapterInfo,
};
use super::decode::spec_any;
use super::system::SystemInfo;
use crate::text::{chars_of, decimal, push_decimal, push_str, string_of};

verus! {

broadcast use vstd::string::group_string_axioms;

#[derive(Debug, Clone, Copy, PartialEq, Eq, Structural)]
pub enum Tier {
    High,
    Mid,
    Low,
    Unsupported,
}

#[derive(Debug)]
pub struct Recommendation {
    pub tier: Tier,
    pub target_fps: u32,
    pub max_scale: (u32, u32),
    /// Whether different videos may play on different monitors. Off on the
    /// low tiers: one video everywhere means one decode.
    pub allow_distinct_videos: bool,
    /// Why this tier was picked, surfaced in the UI and the startup log.
    pub reason: String,
}

impl Clone for Recommendation {
    fn clone(&self) -> (r: Self)
        ensures
            rec_view(r) == rec_view(*self),
    {
        Recommendation {
            tier: self.tier,
            target_fps: self.target_fps,
            max_scale: (self.max_scale.0, self.max_scale.1),
            allow_distinct_videos: self.allow_distinct_videos,
            reason: self.reason.clone(),
        }
    }
}

pub const RES_1080P: (u32, u32) = (1920, 1080);
pub const RES_1440P: (u32, u32) = (2560, 1440);
pub const RES_NATIVE: (u32, u32) = (0xFFFF_FFFF, 0xFFFF_FFFF);

/// Pixel budget above which an integrated GPU is treated as Low regardless
/// of its class: roughly three 1440p screens.
pub const HEAVY_PIXEL_LOAD: u64 = 3 * 2560 * 1440;

/// A recommendation as plain values: tier, frame rate, scale cap, whether
/// distinct videos are allowed, and the reason.
pub open spec fn rec_view(r: Recommendation) -> (Tier, u32, (u32, u32), bool, Seq<char>) {
    (r.tier, r.target_fps, r.max_scale, r.allow_distinct_videos, r.reason@)
}

pub open spec fn spec_unsupported(reason: Seq<char>) -> (Tier, u32, (u32, u32), bool, Seq<char>) {
    (Tier::Unsupported, 0, RES_1080P, false, reason)
}

/// The tier, frame rate, scale and reason an adapter earns before the
/// refresh-rate and battery caps.
pub open spec fn base_choice(a: AdapterInfo, system: SystemInfo) -> (Tier, u32, (u32, u32), Seq<char>) {
    if system.total_ram_mb < 4096 {
        (Tier::Low, 24, RES_1080P, decimal(system.total_ram_mb as nat) + " MB RAM"@)
    } else if pixels(a.outputs@) > HEAVY_PIXEL_LOAD && a.class == AdapterClass::Integrated {
        (
            Tier::Low,
            24,
            RES_1080P,
            "integrated GPU driving "@ + decimal(pixels(a.outputs@) / 1_000_000) + " MPix"@,
        )
    } else if a.class == AdapterClass::Discrete && system.total_ram_mb >= 8192 {
        (Tier::High, 60, RES_NATIVE, "discrete GPU"@)
    } else if a.class == AdapterClass::Discrete {
        // A discrete GPU runs at 60 whatever the memory; with less than
        // 8 GB the rest of the tier stays in the middle.
        (Tier::Mid, 60, RES_1440P, "discrete GPU, "@ + decimal(system.total_ram_mb as nat) + " MB RAM"@)
    } else {
        (Tier::Mid, 30, RES_1440P, "integrated GPU"@)
    }
}

/// The whole decision.
pub open spec fn spec_decide(adapters: Seq<AdapterInfo>, system: SystemInfo) -> (
    Tier,
    u32,
    (u32, u32),
    bool,
    Seq<char>,
) {
    match primary_index(adapters) {
        None => spec_unsupported("no adapter with a display output"@),
        Some(i) => {
            let a = adapters[i];
            if a.class == AdapterClass::Software {
                spec_unsupported("software adapter (no GPU acceleration)"@)
            } else if a.feature_level < 0xB000 {
                spec_unsupported("feature level below 11_0"@)
            } else if !spec_any(a.decode) {
                spec_unsupported("no hardware video decoder"@)
            } else {
                let (tier, fps0, scale, reason0) = base_choice(a, system);
                let top = max_refresh_of(a.outputs@);
                let fps1 = if fps0 < top { fps0 } else { top };
                if system.on_battery && fps1 > 30 {
                    (tier, 30, scale, tier == Tier::High, reason0 + ", on battery"@)
                } else {
                    (tier, fps1, scale, tier == Tier::High, reason0)
                }
            }
        },
    }
}

/// The frame rate picked never exceeds the refresh rate of the screens the
/// wallpaper renders on, and never goes above 30 on battery.
pub proof fn lemma_fps_caps(adapters: Seq<AdapterInfo>, system: SystemInfo)
    ensures
        spec_decide(adapters, system).1 <= 60,
        primary_index(adapters) matches Some(i) ==> spec_decide(adapters, system).1
            <= max_refresh_of(adapters[i].outputs@),
        system.on_battery ==> spec_decide(adapters, system).1 <= 30,
{
}

/// The recommendation for a machine whose wallpaper cannot run.
pub fn unsupported(reason: &str) -> (r: Recommendation)
    ensures
        rec_view(r) == spec_unsupported(reason@),
{
    let v = chars_of(reason);
    Recommendation {
        tier: Tier::Unsupported,
        target_fps: 0,
        max_scale: RES_1080P,
        allow_distinct_videos: false,
        reason: string_of(v.as_slice()),
    }
}

fn choose_base(a: &AdapterInfo, system: &SystemInfo) -> (r: (Tier, u32, (u32, u32), String))
    requires
        pixels(a.outputs@) <= u64::MAX,
    ensures
        (r.0, r.1, r.2, r.3@) == base_choice(*a, *system),
{
    if system.total_ram_mb < 4096 {
        let mut s = String::new();
        push_decimal(&mut s, system.total_ram_mb);
        push_str(&mut s, " MB RAM");
        return (Tier::Low, 24, RES_1080P, s);
    }
    let total = a.total_pixels();
    if total > HEAVY_PIXEL_LOAD && a.class == AdapterClass::Integrated {
        let mut s = String::new();
        push_str(&mut s, "integrated GPU driving ");
        push_decimal(&mut s, total / 1_000_000);
        push_str(&mut s, " MPix");
        return (Tier::Low, 24, RES_1080P, s);
    }
    if a.class == AdapterClass::Discrete && system.total_ram_mb >= 8192 {
        let mut s = String::new();
        push_str(&mut s, "discrete GPU");
        return (Tier::High, 60, RES_NATIVE, s);
    }
    if a.class == AdapterClass::Discrete {
        let mut s = String::new();
        push_str(&mut s, "discrete GPU, ");
        push_decimal(&mut s, system.total_ram_mb);
        push_str(&mut s, " MB RAM");
        return (Tier::Mid, 60, RES_1440P, s);
    }
    let mut s = String::new();
    push_str(&mut s, "integrated GPU");
    (Tier::Mid, 30, RES_1440P, s)
}

/// The playback policy for this machine: the tier of the adapter the
/// wallpaper renders on, a frame rate no higher than its fastest screen
/// (and no higher than 30 on battery), and the reason.
pub fn decide(adapters: &[AdapterInfo], system: &SystemInfo) -> (r: Recommendation)
    requires
        forall|i: int| 0 <= i < adapters@.len() ==> pixels((#[trigger] adapters@[i]).outputs@) <= u64::MAX,
    ensures
        rec_view(r) == spec_decide(adapters@, *system),
{
    let adapter = match primary(adapters) {
        Some(a) => a,
        None => {
            return unsupported("no adapter with a display output");
        },
    };
    if adapter.class == AdapterClass::Software {
        return unsupported("software adapter (no GPU acceleration)");
    }
    if adapter.feature_level < 0xB000 {
        return unsupported("feature level below 11_0");
    }
    if !adapter.decode.any() {
        return unsupported("no hardware video decoder");
    }
    let (tier, fps0, max_scale, reason0) = choose_base(adapter, system);
    let top = adapter.max_refresh();
    let mut fps = if fps0 < top { fps0 } else { top };
    let mut reason = reason0;
    if system.on_battery && fps > 30 {
        fps = 30;
        push_str(&mut reason, ", on battery");
    }
    Recommendation {
        tier,
        target_fps: fps,
        max_scale,
        allow_distinct_videos: tier == Tier::High,
        reason,
    }
}

} // verus!

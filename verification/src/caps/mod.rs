//! GPU / system capability: what the machine has, and the playback policy
//! that follows from it.

pub mod adapter;
pub mod decode;
pub mod policy;
pub mod system;

pub use adapter::{AdapterClass, AdapterInfo, MonitorInfo};
pub use decode::DecodeCaps;
pub use policy::{Recommendation, Tier};
pub use system::SystemInfo;

use vstd::prelude::*;

use adapter::{primary, primary_index, spec_feature_level_str};
use decode::spec_summary;
use crate::text::{decimal, hex, hex_vec, push_chars, push_decimal, push_str};

verus! {

broadcast use vstd::string::group_string_axioms;

/// What the probe found: the adapters that own a display output, the
/// machine's memory and power, and the policy decided from both.
#[derive(Debug, Clone)]
pub struct GpuProfile {
    /// Only adapters that actually own a display output. An adapter with no
    /// output cannot present a wallpaper, so it is never a render target.
    pub adapters: Vec<AdapterInfo>,
    pub system: SystemInfo,
    pub rec: Recommendation,
}

/// The name `Debug` gives an adapter class.
pub open spec fn class_name(c: AdapterClass) -> Seq<char> {
    match c {
        AdapterClass::Software => "Software"@,
        AdapterClass::Integrated => "Integrated"@,
        AdapterClass::Discrete => "Discrete"@,
    }
}

/// The name `Debug` gives a tier.
pub open spec fn tier_name(t: Tier) -> Seq<char> {
    match t {
        Tier::High => "High"@,
        Tier::Mid => "Mid"@,
        Tier::Low => "Low"@,
        Tier::Unsupported => "Unsupported"@,
    }
}

pub open spec fn bool_word(b: bool) -> Seq<char> {
    if b {
        "true"@
    } else {
        "false"@
    }
}

/// Whole mebibytes.
pub open spec fn mib(bytes: u64) -> nat {
    bytes as nat / 1048576
}

pub open spec fn system_line(s: SystemInfo) -> Seq<char> {
    "system: "@ + decimal(s.total_ram_mb as nat) + " MB RAM, power: "@ + (if s.on_battery {
        "battery"@
    } else {
        "AC"@
    }) + "\n"@
}

pub open spec fn adapter_head(a: AdapterInfo) -> Seq<char> {
    "adapter: "@ + a.name@ + " ["@ + class_name(a.class) + "] "@
}

pub open spec fn adapter_ids(a: AdapterInfo) -> Seq<char> {
    hex(a.vendor_id as nat, 4) + ":"@ + hex(a.device_id as nat, 4) + " luid=0x"@ + hex(
        (a.luid as u64) as nat,
        1,
    )
}

pub open spec fn adapter_memory(a: AdapterInfo) -> Seq<char> {
    " vram="@ + decimal(mib(a.dedicated_vram)) + " MB shared="@ + decimal(mib(a.shared_mem))
        + " MB fl="@
}

pub open spec fn adapter_tail(a: AdapterInfo) -> Seq<char> {
    spec_feature_level_str(a.feature_level) + " decode="@ + spec_summary(a.decode) + "\n"@
}

/// `adapter: <name> [<class>] <vendor>:<device> luid=0x<luid> vram=<MiB> MB
/// shared=<MiB> MB fl=<level> decode=<decoders>`.
pub open spec fn adapter_line(a: AdapterInfo) -> Seq<char> {
    adapter_head(a) + adapter_ids(a) + adapter_memory(a) + adapter_tail(a)
}

pub open spec fn output_line(o: MonitorInfo) -> Seq<char> {
    "  output: "@ + o.device_name@ + " "@ + decimal(o.width as nat) + "x"@ + decimal(
        o.height as nat,
    ) + " @"@ + decimal(o.refresh_hz as nat) + "Hz"@ + (if o.primary {
        " (primary)"@
    } else {
        Seq::empty()
    }) + "\n"@
}

pub open spec fn outputs_text(outputs: Seq<MonitorInfo>) -> Seq<char>
    decreases outputs.len(),
{
    if outputs.len() == 0 {
        Seq::empty()
    } else {
        outputs_text(outputs.drop_last()) + output_line(outputs.last())
    }
}

pub open spec fn adapters_text(adapters: Seq<AdapterInfo>) -> Seq<char>
    decreases adapters.len(),
{
    if adapters.len() == 0 {
        Seq::empty()
    } else {
        adapters_text(adapters.drop_last()) + adapter_line(adapters.last()) + outputs_text(
            adapters.last().outputs@,
        )
    }
}

pub open spec fn tier_line(r: Recommendation) -> Seq<char> {
    "tier: "@ + tier_name(r.tier) + " -> "@ + decimal(r.target_fps as nat) + " fps, max "@
        + decimal(r.max_scale.0 as nat) + "x"@ + decimal(r.max_scale.1 as nat)
        + ", distinct videos: "@ + bool_word(r.allow_distinct_videos) + "\n"@
}

/// The startup log's account of the machine: one line for the system, one
/// per adapter followed by one per output it drives, the tier and the
/// reason.
pub open spec fn spec_profile_summary(p: GpuProfile) -> Seq<char> {
    system_line(p.system) + adapters_text(p.adapters@) + tier_line(p.rec) + "reason: "@
        + p.rec.reason@ + "\n"@
}

fn push_class(s: &mut String, c: AdapterClass)
    ensures
        final(s)@ == old(s)@ + class_name(c),
{
    match c {
        AdapterClass::Software => push_str(s, "Software"),
        AdapterClass::Integrated => push_str(s, "Integrated"),
        AdapterClass::Discrete => push_str(s, "Discrete"),
    }
}

fn push_tier(s: &mut String, t: Tier)
    ensures
        final(s)@ == old(s)@ + tier_name(t),
{
    match t {
        Tier::High => push_str(s, "High"),
        Tier::Mid => push_str(s, "Mid"),
        Tier::Low => push_str(s, "Low"),
        Tier::Unsupported => push_str(s, "Unsupported"),
    }
}

fn push_hex(s: &mut String, n: u64, width: u64)
    ensures
        final(s)@ == old(s)@ + hex(n as nat, width as nat),
{
    let h = hex_vec(n, width);
    push_chars(s, h.as_slice());
}

fn push_output(s: &mut String, o: &MonitorInfo)
    ensures
        final(s)@ == old(s)@ + output_line(*o),
{
    push_str(s, "  output: ");
    push_str(s, o.device_name.as_str());
    push_str(s, " ");
    push_decimal(s, o.width as u64);
    push_str(s, "x");
    push_decimal(s, o.height as u64);
    push_str(s, " @");
    push_decimal(s, o.refresh_hz as u64);
    push_str(s, "Hz");
    if o.primary {
        push_str(s, " (primary)");
    } else {
        assert(s@ + Seq::<char>::empty() =~= s@);
    }
    push_str(s, "\n");
}

fn push_adapter_head(s: &mut String, a: &AdapterInfo)
    ensures
        final(s)@ == old(s)@ + adapter_head(*a),
{
    let ghost start = s@;
    push_str(s, "adapter: ");
    push_str(s, a.name.as_str());
    push_str(s, " [");
    push_class(s, a.class);
    push_str(s, "] ");
    assert(s@ =~= start + adapter_head(*a));
}

fn push_adapter_ids(s: &mut String, a: &AdapterInfo)
    ensures
        final(s)@ == old(s)@ + adapter_ids(*a),
{
    let ghost start = s@;
    push_hex(s, a.vendor_id as u64, 4);
    push_str(s, ":");
    push_hex(s, a.device_id as u64, 4);
    push_str(s, " luid=0x");
    push_hex(s, a.luid as u64, 1);
    assert(s@ =~= start + adapter_ids(*a));
}

fn push_adapter_memory(s: &mut String, a: &AdapterInfo)
    ensures
        final(s)@ == old(s)@ + adapter_memory(*a),
{
    let ghost start = s@;
    push_str(s, " vram=");
    push_decimal(s, a.dedicated_vram / (1024 * 1024));
    push_str(s, " MB shared=");
    push_decimal(s, a.shared_mem / (1024 * 1024));
    push_str(s, " MB fl=");
    assert(s@ =~= start + adapter_memory(*a));
}

fn push_adapter_tail(s: &mut String, a: &AdapterInfo)
    ensures
        final(s)@ == old(s)@ + adapter_tail(*a),
{
    let ghost start = s@;
    let level = a.feature_level_str();
    push_str(s, level.as_str());
    push_str(s, " decode=");
    let decode = a.decode.summary();
    push_str(s, decode.as_str());
    push_str(s, "\n");
    assert(s@ =~= start + adapter_tail(*a));
}

fn push_adapter(s: &mut String, a: &AdapterInfo)
    ensures
        final(s)@ == old(s)@ + adapter_line(*a) + outputs_text(a.outputs@),
{
    let ghost start = s@;
    push_adapter_head(s, a);
    push_adapter_ids(s, a);
    push_adapter_memory(s, a);
    push_adapter_tail(s, a);
    assert(s@ =~= start + adapter_line(*a));
    let ghost head = s@;
    let mut i: usize = 0;
    while i < a.outputs.len()
        invariant
            i <= a.outputs@.len(),
            s@ == head + outputs_text(a.outputs@.take(i as int)),
        decreases a.outputs@.len() - i,
    {
        push_output(s, &a.outputs[i]);
        assert(a.outputs@.take(i + 1).drop_last() =~= a.outputs@.take(i as int));
        assert(s@ =~= head + outputs_text(a.outputs@.take(i + 1)));
        i = i + 1;
    }
    assert(a.outputs@.take(i as int) =~= a.outputs@);
}

fn push_system(s: &mut String, system: &SystemInfo)
    ensures
        final(s)@ == old(s)@ + system_line(*system),
{
    let ghost start = s@;
    push_str(s, "system: ");
    push_decimal(s, system.total_ram_mb);
    push_str(s, " MB RAM, power: ");
    if system.on_battery {
        push_str(s, "battery");
    } else {
        push_str(s, "AC");
    }
    push_str(s, "\n");
    assert(s@ =~= start + system_line(*system));
}

fn push_tier_line(s: &mut String, r: &Recommendation)
    ensures
        final(s)@ == old(s)@ + tier_line(*r),
{
    let ghost start = s@;
    push_str(s, "tier: ");
    push_tier(s, r.tier);
    push_str(s, " -> ");
    push_decimal(s, r.target_fps as u64);
    push_str(s, " fps, max ");
    push_decimal(s, r.max_scale.0 as u64);
    push_str(s, "x");
    push_decimal(s, r.max_scale.1 as u64);
    push_str(s, ", distinct videos: ");
    if r.allow_distinct_videos {
        push_str(s, "true");
    } else {
        push_str(s, "false");
    }
    push_str(s, "\n");
    assert(s@ =~= start + tier_line(*r));
}

impl GpuProfile {
    /// The adapter the wallpaper renders on. See `adapter::primary`.
    pub fn primary(&self) -> (r: Option<&AdapterInfo>)
        ensures
            match primary_index(self.adapters@) {
                Some(i) => r matches Some(a) && 0 <= i < self.adapters@.len() && *a
                    == self.adapters@[i],
                None => r is None,
            },
    {
        primary(self.adapters.as_slice())
    }

    /// Human-readable dump. Logged at startup so benchmark numbers can be
    /// tied back to a hardware class.
    pub fn summary(&self) -> (s: String)
        ensures
            s@ == spec_profile_summary(*self),
    {
        let mut s = String::new();
        push_system(&mut s, &self.system);
        assert(s@ =~= system_line(self.system));
        let mut i: usize = 0;
        while i < self.adapters.len()
            invariant
                i <= self.adapters@.len(),
                s@ == system_line(self.system) + adapters_text(self.adapters@.take(i as int)),
            decreases self.adapters@.len() - i,
        {
            push_adapter(&mut s, &self.adapters[i]);
            assert(self.adapters@.take(i + 1).drop_last() =~= self.adapters@.take(i as int));
            assert(s@ =~= system_line(self.system) + adapters_text(self.adapters@.take(i + 1)));
            i = i + 1;
        }
        assert(self.adapters@.take(i as int) =~= self.adapters@);
        push_tier_line(&mut s, &self.rec);
        push_str(&mut s, "reason: ");
        push_str(&mut s, self.rec.reason.as_str());
        push_str(&mut s, "\n");
        s
    }
}

} // verus!

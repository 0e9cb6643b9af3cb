//! Adapters, the outputs they own, and integrated/discrete classification.

use vstd::prelude::*;

use super::decode::DecodeCaps;
use crate::text::{decimal, push_chars, push_decimal};

verus! {

pub const VENDOR_NVIDIA: u32 = 0x10DE;

/// 1 GiB. Above this an adapter has its own memory pool, which in practice
/// means a discrete card.
pub const DISCRETE_VRAM_THRESHOLD: u64 = 1024 * 1024 * 1024;

#[derive(Debug, Clone, Copy, PartialEq, Eq, Structural)]
pub enum AdapterClass {
    Software,
    Integrated,
    Discrete,
}

/// One display output, in physical pixels, placed on the desktop.
#[derive(Debug, Clone)]
pub struct MonitorInfo {
    pub device_name: String,
    /// Desktop position of the top-left corner. Negative for a screen left
    /// of or above the primary one.
    pub x: i32,
    pub y: i32,
    pub width: u32,
    pub height: u32,
    pub refresh_hz: u32,
    pub primary: bool,
}

#[derive(Debug, Clone)]
pub struct AdapterInfo {
    pub luid: i64,
    pub vendor_id: u32,
    pub device_id: u32,
    pub name: String,
    pub dedicated_vram: u64,
    pub shared_mem: u64,
    pub class: AdapterClass,
    pub feature_level: u32,
    pub decode: DecodeCaps,
    pub outputs: Vec<MonitorInfo>,
}

/// VRAM first, vendor only as a tiebreak: that classifies Intel Arc
/// (vendor 0x8086 but discrete) and AMD dGPUs correctly.
pub open spec fn spec_classify(is_software: bool, vendor_id: u32, dedicated_vram: u64) -> AdapterClass {
    if is_software {
        AdapterClass::Software
    } else if dedicated_vram >= DISCRETE_VRAM_THRESHOLD || vendor_id == VENDOR_NVIDIA {
        AdapterClass::Discrete
    } else {
        AdapterClass::Integrated
    }
}

pub fn classify(is_software: bool, vendor_id: u32, dedicated_vram: u64) -> (c: AdapterClass)
    ensures
        c == spec_classify(is_software, vendor_id, dedicated_vram),
{
    if is_software {
        AdapterClass::Software
    } else if dedicated_vram >= DISCRETE_VRAM_THRESHOLD || vendor_id == VENDOR_NVIDIA {
        AdapterClass::Discrete
    } else {
        AdapterClass::Integrated
    }
}

/// Pixels across a list of outputs.
pub open spec fn pixels(outputs: Seq<MonitorInfo>) -> nat
    decreases outputs.len(),
{
    if outputs.len() == 0 {
        0
    } else {
        pixels(outputs.drop_last()) + outputs.last().width as nat * outputs.last().height as nat
    }
}

/// The highest refresh rate across a list of outputs, or 60 for none.
pub open spec fn max_refresh_of(outputs: Seq<MonitorInfo>) -> u32
    decreases outputs.len(),
{
    if outputs.len() == 0 {
        60
    } else if outputs.len() == 1 {
        outputs[0].refresh_hz
    } else {
        let rest = max_refresh_of(outputs.drop_last());
        if outputs.last().refresh_hz > rest {
            outputs.last().refresh_hz
        } else {
            rest
        }
    }
}

/// Whether an adapter owns the primary output.
pub open spec fn owns_primary(a: AdapterInfo) -> bool {
    exists|i: int| 0 <= i < a.outputs@.len() && (#[trigger] a.outputs@[i]).primary
}

/// The position of the first adapter owning the primary output, if any.
pub open spec fn first_primary(adapters: Seq<AdapterInfo>) -> Option<int>
    decreases adapters.len(),
{
    if adapters.len() == 0 {
        None
    } else if owns_primary(adapters[0]) {
        Some(0)
    } else {
        match first_primary(adapters.drop_first()) {
            Some(i) => Some(i + 1),
            None => None,
        }
    }
}

/// Which adapter the wallpaper renders on: the one owning the primary
/// output, or the first one when none claims it.
pub open spec fn primary_index(adapters: Seq<AdapterInfo>) -> Option<int> {
    match first_primary(adapters) {
        Some(i) => Some(i),
        None => if adapters.len() > 0 {
            Some(0)
        } else {
            None
        },
    }
}

/// `major.minor` of a D3D feature level such as 0xB100.
pub open spec fn spec_feature_level_str(level: u32) -> Seq<char> {
    decimal(((level / 4096) % 16) as nat) + seq!['.'] + decimal(((level / 256) % 16) as nat)
}

impl AdapterInfo {
    pub fn feature_level_str(&self) -> (s: String)
        ensures
            s@ == spec_feature_level_str(self.feature_level),
    {
        let mut s = String::new();
        push_decimal(&mut s, ((self.feature_level >> 12) & 0xF) as u64);
        crate::text::push_char(&mut s, '.');
        push_decimal(&mut s, ((self.feature_level >> 8) & 0xF) as u64);
        proof {
            let l = self.feature_level;
            assert((l >> 12) & 0xF == (l / 4096) % 16) by (bit_vector);
            assert((l >> 8) & 0xF == (l / 256) % 16) by (bit_vector);
        }
        s
    }

    /// Total pixels this adapter has to fill every frame.
    pub fn total_pixels(&self) -> (n: u64)
        requires
            pixels(self.outputs@) <= u64::MAX,
        ensures
            n == pixels(self.outputs@),
    {
        let mut total: u64 = 0;
        let mut i: usize = 0;
        while i < self.outputs.len()
            invariant
                i <= self.outputs@.len(),
                pixels(self.outputs@) <= u64::MAX,
                total == pixels(self.outputs@.take(i as int)),
            decreases self.outputs@.len() - i,
        {
            let o = &self.outputs[i];
            proof {
                let t = self.outputs@.take(i + 1);
                assert(t.drop_last() =~= self.outputs@.take(i as int));
                lemma_pixels_prefix(self.outputs@, (i + 1) as nat);
            }
            let area = (o.width as u64) * (o.height as u64);
            total = total + area;
            i = i + 1;
        }
        assert(self.outputs@.take(i as int) =~= self.outputs@);
        total
    }

    pub fn max_refresh(&self) -> (hz: u32)
        ensures
            hz == max_refresh_of(self.outputs@),
            // The fastest screen's rate, or 60 with no screen at all.
            self.outputs@.len() == 0 ==> hz == 60,
            self.outputs@.len() > 0 ==> (exists|i: int|
                0 <= i < self.outputs@.len() && hz == (#[trigger] self.outputs@[i]).refresh_hz)
                && forall|j: int| 0 <= j < self.outputs@.len() ==> (#[trigger] self.outputs@[j]).refresh_hz <= hz,
    {
        proof {
            lemma_max_refresh_is_fastest(self.outputs@);
        }
        if self.outputs.len() == 0 {
            return 60;
        }
        let mut best = self.outputs[0].refresh_hz;
        let mut i: usize = 1;
        assert(self.outputs@.take(1).drop_last().len() == 0);
        assert(max_refresh_of(self.outputs@.take(1)) == self.outputs@[0].refresh_hz);
        while i < self.outputs.len()
            invariant
                1 <= i <= self.outputs@.len(),
                best == max_refresh_of(self.outputs@.take(i as int)),
            decreases self.outputs@.len() - i,
        {
            let hz = self.outputs[i].refresh_hz;
            assert(self.outputs@.take(i + 1).drop_last() =~= self.outputs@.take(i as int));
            if hz > best {
                best = hz;
            }
            i = i + 1;
        }
        assert(self.outputs@.take(i as int) =~= self.outputs@);
        best
    }
}

/// `max_refresh_of` is the rate of one of the screens, and none is faster.
pub proof fn lemma_max_refresh_is_fastest(outputs: Seq<MonitorInfo>)
    ensures
        outputs.len() > 0 ==> (exists|i: int|
            0 <= i < outputs.len() && max_refresh_of(outputs) == (#[trigger] outputs[i]).refresh_hz)
            && forall|j: int| 0 <= j < outputs.len() ==> (#[trigger] outputs[j]).refresh_hz <= max_refresh_of(outputs),
    decreases outputs.len(),
{
    if outputs.len() > 1 {
        let init = outputs.drop_last();
        lemma_max_refresh_is_fastest(init);
        let i = choose|i: int| 0 <= i < init.len() && max_refresh_of(init) == (#[trigger] init[i]).refresh_hz;
        assert(outputs[i] == init[i]);
        assert(outputs[outputs.len() - 1] == outputs.last());
        assert forall|j: int| 0 <= j < outputs.len() implies (#[trigger] outputs[j]).refresh_hz <= max_refresh_of(
            outputs,
        ) by {
            if j < outputs.len() - 1 {
                assert(outputs[j] == init[j]);
            }
        }
    } else if outputs.len() == 1 {
        assert(max_refresh_of(outputs) == outputs[0].refresh_hz);
    }
}

proof fn lemma_pixels_prefix(outputs: Seq<MonitorInfo>, k: nat)
    requires
        k <= outputs.len(),
    ensures
        pixels(outputs.take(k as int)) <= pixels(outputs),
    decreases outputs.len() - k,
{
    if k < outputs.len() {
        lemma_pixels_prefix(outputs, k + 1);
        assert(outputs.take(k as int + 1).drop_last() =~= outputs.take(k as int));
    } else {
        assert(outputs.take(k as int) =~= outputs);
    }
}

fn owns_primary_exec(a: &AdapterInfo) -> (r: bool)
    ensures
        r == owns_primary(*a),
{
    let mut i: usize = 0;
    while i < a.outputs.len()
        invariant
            i <= a.outputs@.len(),
            forall|j: int| 0 <= j < i ==> !(#[trigger] a.outputs@[j]).primary,
        decreases a.outputs@.len() - i,
    {
        if a.outputs[i].primary {
            return true;
        }
        i = i + 1;
    }
    false
}

/// The adapter the wallpaper renders on: the one owning the primary output,
/// and otherwise the first (enumeration is ordered by minimum power).
pub fn primary(adapters: &[AdapterInfo]) -> (r: Option<&AdapterInfo>)
    ensures
        match primary_index(adapters@) {
            Some(i) => r matches Some(a) && 0 <= i < adapters@.len() && *a == adapters@[i],
            None => r is None,
        },
        // The first adapter owning the primary output wins...
        (exists|j: int| 0 <= j < adapters@.len() && owns_primary(#[trigger] adapters@[j])) ==> exists|i: int|
            0 <= i < adapters@.len() && r == Some(&adapters@[i]) && owns_primary(#[trigger] adapters@[i])
                && forall|j: int| 0 <= j < i ==> !owns_primary(#[trigger] adapters@[j]),
        // ...and with none owning it, the first adapter.
        (forall|j: int| 0 <= j < adapters@.len() ==> !owns_primary(#[trigger] adapters@[j])) ==> (
        adapters@.len() > 0 ==> r == Some(&adapters@[0])) && (adapters@.len() == 0 ==> r is None),
{
    let mut i: usize = 0;
    while i < adapters.len()
        invariant
            i <= adapters@.len(),
            forall|j: int| 0 <= j < i ==> !owns_primary(#[trigger] adapters@[j]),
        decreases adapters@.len() - i,
    {
        if owns_primary_exec(&adapters[i]) {
            proof {
                lemma_first_primary(adapters@, i as int);
            }
            return Some(&adapters[i]);
        }
        i = i + 1;
    }
    proof {
        lemma_no_primary(adapters@);
    }
    if adapters.len() > 0 {
        Some(&adapters[0])
    } else {
        None
    }
}

proof fn lemma_first_primary(adapters: Seq<AdapterInfo>, i: int)
    requires
        0 <= i < adapters.len(),
        owns_primary(adapters[i]),
        forall|j: int| 0 <= j < i ==> !owns_primary(#[trigger] adapters[j]),
    ensures
        first_primary(adapters) == Some(i),
    decreases i,
{
    if i > 0 {
        let rest = adapters.drop_first();
        assert(!owns_primary(adapters[0]));
        assert forall|j: int| 0 <= j < i - 1 implies !owns_primary(#[trigger] rest[j]) by {
            assert(rest[j] == adapters[j + 1]);
        }
        lemma_first_primary(rest, i - 1);
    }
}

proof fn lemma_no_primary(adapters: Seq<AdapterInfo>)
    requires
        forall|j: int| 0 <= j < adapters.len() ==> !owns_primary(#[trigger] adapters[j]),
    ensures
        first_primary(adapters) is None,
    decreases adapters.len(),
{
    if adapters.len() > 0 {
        let rest = adapters.drop_first();
        assert(!owns_primary(adapters[0]));
        assert forall|j: int| 0 <= j < rest.len() implies !owns_primary(#[trigger] rest[j]) by {
            assert(rest[j] == adapters[j + 1]);
        }
        lemma_no_primary(rest);
    }
}

} // verus!

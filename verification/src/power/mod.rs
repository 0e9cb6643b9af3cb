//! Deciding when a monitor is not worth drawing to, and when the machine
//! cannot afford to draw at all.
//!
//! Coverage by window geometry lives here: if any ordinary window covers a
//! monitor's work area, nothing behind it is visible. Enumerating windows is
//! cheap but not free, so each monitor's answer is kept for a quarter of a
//! second.

pub mod apps;
pub mod battery;
pub mod idle;
pub mod load;

use std::time::Instant;
use vstd::prelude::*;

use crate::clock;
use crate::caps::MonitorInfo;
use crate::text::{chars_of, same, same_str};

verus! {

/// How long a coverage answer is kept, in milliseconds.
pub const RECHECK_AFTER_MS: u64 = 250;

/// A rectangle by its edges, in desktop coordinates.
#[derive(Debug, Clone, Copy, PartialEq, Eq, Structural, Default)]
pub struct Edges {
    pub left: i32,
    pub top: i32,
    pub right: i32,
    pub bottom: i32,
}

/// Whether `outer` covers all of `inner`.
pub open spec fn spec_contains(outer: Edges, inner: Edges) -> bool {
    outer.left <= inner.left && outer.top <= inner.top && outer.right >= inner.right
        && outer.bottom >= inner.bottom
}

/// Whether a window rectangle covers a work area, edges included.
pub fn contains(outer: &Edges, inner: &Edges) -> (r: bool)
    ensures
        r == spec_contains(*outer, *inner),
{
    outer.left <= inner.left && outer.top <= inner.top && outer.right >= inner.right
        && outer.bottom >= inner.bottom
}

/// Whether a window can hide the wallpaper at all: it is shown, not
/// minimised, not cloaked (a window on another virtual desktop is still
/// "visible"), and not one of the desktop's own windows or the wallpaper's.
pub open spec fn spec_can_cover(visible: bool, minimised: bool, cloaked: bool, class: Seq<char>) -> bool {
    visible && !minimised && !cloaked && class != "Progman"@ && class != "WorkerW"@ && class
        != "MuivlySurface"@
}

/// See [`spec_can_cover`]; `class` is the window's class name.
pub fn can_cover(visible: bool, minimised: bool, cloaked: bool, class: &str) -> (r: bool)
    ensures
        r == spec_can_cover(visible, minimised, cloaked, class@),
{
    if !visible || minimised || cloaked {
        return false;
    }
    let c = chars_of(class);
    !(same_str(c.as_slice(), "Progman") || same_str(c.as_slice(), "WorkerW") || same_str(
        c.as_slice(),
        "MuivlySurface",
    ))
}

/// The point at the middle of a monitor, by which its work area is looked
/// up; none where it falls outside the 32-bit desktop.
pub open spec fn spec_centre(m: MonitorInfo) -> Option<(i32, i32)> {
    let x = m.x + m.width / 2;
    let y = m.y + m.height / 2;
    if i32::MIN <= x <= i32::MAX && i32::MIN <= y <= i32::MAX {
        Some((x as i32, y as i32))
    } else {
        None
    }
}

/// See [`spec_centre`].
pub fn centre(m: &MonitorInfo) -> (r: Option<(i32, i32)>)
    ensures
        r == spec_centre(*m),
{
    let x: i64 = m.x as i64 + (m.width / 2) as i64;
    let y: i64 = m.y as i64 + (m.height / 2) as i64;
    if i32::MIN as i64 <= x && x <= i32::MAX as i64 && i32::MIN as i64 <= y && y <= i32::MAX as i64 {
        Some((x as i32, y as i32))
    } else {
        None
    }
}

/// The remembered coverage answers, one per monitor device name.
pub struct CoverCache {
    entries: Vec<(String, bool, Instant)>,
}

impl CoverCache {
    pub fn new() -> (c: Self)
        ensures
            c.records().len() == 0,
    {
        CoverCache { entries: Vec::new() }
    }

    /// Every answer on record: the device name, whether it was covered, and
    /// when that was worked out.
    pub closed spec fn records(&self) -> Seq<(Seq<char>, bool, Instant)> {
        self.entries@.map_values(|e: (String, bool, Instant)| (e.0@, e.1, e.2))
    }

    /// Where the answer on record for `device_name` is, if there is one.
    fn find(&self, device_name: &str) -> (r: Option<usize>)
        ensures
            match r {
                Some(i) => first_record(self.records(), device_name@) == Some(i as int) && i < self.entries@.len(),
                None => first_record(self.records(), device_name@) is None,
            },
    {
        let name = chars_of(device_name);
        let mut i: usize = 0;
        while i < self.entries.len()
            invariant
                i <= self.entries@.len(),
                name@ == device_name@,
                forall|j: int| 0 <= j < i ==> (#[trigger] self.records()[j]).0 != device_name@,
            decreases self.entries@.len() - i,
        {
            let entry_name = chars_of(self.entries[i].0.as_str());
            if same(entry_name.as_slice(), name.as_slice()) {
                proof {
                    lemma_first_record(self.records(), device_name@, i as int);
                }
                return Some(i);
            }
            assert(self.records()[i as int].0 != device_name@);
            i = i + 1;
        }
        None
    }

    /// How old the answer on record for `device_name` is, in milliseconds,
    /// or `None` when there is none. The age is the clock's.
    pub fn age_ms(&self, device_name: &str) -> (r: Option<u64>)
        ensures
            (r is None) == (first_record(self.records(), device_name@) is None),
    {
        match self.find(device_name) {
            Some(i) => Some(clock::millis_since(&self.entries[i].2)),
            None => None,
        }
    }

    /// Whether the monitor called `device_name` is completely hidden behind
    /// some window, given `since_ms`, the age of the answer on record for it
    /// (`None` for none), and the clock's reading now, `stamp`. An answer
    /// younger than a quarter of a second is given again and nothing
    /// changes. Otherwise `compute` does the looking, and its answer is put
    /// on record for this monitor with `stamp`: in place of the old one, or
    /// at the end for a monitor with none.
    pub fn is_covered_at<F: FnOnce() -> bool>(
        &mut self,
        device_name: &str,
        since_ms: Option<u64>,
        stamp: Instant,
        compute: F,
    ) -> (r: bool)
        requires
            compute.requires(()),
        ensures
            match first_record(old(self).records(), device_name@) {
                Some(i) => if clock::within(since_ms, RECHECK_AFTER_MS) {
                    r == old(self).records()[i].1 && final(self).records() == old(self).records()
                } else {
                    compute.ensures((), r) && final(self).records() == old(self).records().update(
                        i,
                        (device_name@, r, stamp),
                    )
                },
                None => compute.ensures((), r) && final(self).records() == old(self).records().push(
                    (device_name@, r, stamp),
                ),
            },
    {
        match self.find(device_name) {
            Some(i) => {
                if let Some(ms) = since_ms {
                    if ms < RECHECK_AFTER_MS {
                        return self.entries[i].1;
                    }
                }
                let fresh = compute();
                let kept = self.entries[i].0.clone();
                let ghost before = self.entries@;
                let ghost recs = self.records();
                proof {
                    lemma_first_record_found(recs, device_name@);
                    assert(kept@ == device_name@);
                }
                self.entries.set(i, (kept, fresh, stamp));
                proof {
                    assert(self.records() =~= recs.update(i as int, (device_name@, fresh, stamp)));
                }
                fresh
            },
            None => {
                let covered = compute();
                let ghost recs = self.records();
                self.entries.push((string_of_str(device_name), covered, stamp));
                proof {
                    assert(self.records() =~= recs.push((device_name@, covered, stamp)));
                }
                covered
            },
        }
    }

    /// Whether the monitor called `device_name` is completely hidden behind
    /// some window: [`CoverCache::is_covered_at`] with the age of its answer
    /// on record and the time now, from the clock.
    pub fn is_covered<F: FnOnce() -> bool>(&mut self, device_name: &str, compute: F) -> (r: bool)
        requires
            compute.requires(()),
        ensures
            (exists|i: int| 0 <= i < old(self).records().len() && old(self).records()[i].0 == device_name@
                && old(self).records()[i].1 == r) || compute.ensures((), r),
            exists|i: int|
                0 <= i < final(self).records().len() && final(self).records()[i].0 == device_name@
                    && final(self).records()[i].1 == r,
    {
        let since = self.age_ms(device_name);
        let stamp = clock::now();
        let ghost before = self.records();
        let r = self.is_covered_at(device_name, since, stamp, compute);
        proof {
            match first_record(before, device_name@) {
                Some(i) => {
                    lemma_first_record_found(before, device_name@);
                    assert(before[i].0 == device_name@);
                    if clock::within(since, RECHECK_AFTER_MS) {
                        assert(final_has(before, device_name@, r, i));
                    }
                    assert(final_has(self.records(), device_name@, r, i));
                },
                None => {
                    assert(final_has(self.records(), device_name@, r, before.len() as int));
                },
            }
        }
        r
    }
}

proof fn lemma_first_record(recs: Seq<(Seq<char>, bool, Instant)>, name: Seq<char>, k: int)
    requires
        0 <= k < recs.len(),
        recs[k].0 == name,
        forall|m: int| 0 <= m < k ==> (#[trigger] recs[m]).0 != name,
    ensures
        first_record(recs, name) == Some(k),
{
    let c = choose|j: int|
        0 <= j < recs.len() && (#[trigger] recs[j]).0 == name && forall|m: int|
            0 <= m < j ==> (#[trigger] recs[m]).0 != name;
    if c < k {
        assert(recs[c].0 != name);
    }
    if c > k {
        assert(recs[k].0 != name);
    }
}

proof fn lemma_first_record_found(recs: Seq<(Seq<char>, bool, Instant)>, name: Seq<char>)
    ensures
        first_record(recs, name) matches Some(i) ==> 0 <= i < recs.len() && recs[i].0 == name,
{
    if exists|j: int| 0 <= j < recs.len() && (#[trigger] recs[j]).0 == name {
        let j0 = choose|j: int| 0 <= j < recs.len() && (#[trigger] recs[j]).0 == name;
        lemma_least_record(recs, name, j0);
    }
}

proof fn lemma_least_record(recs: Seq<(Seq<char>, bool, Instant)>, name: Seq<char>, j: int)
    requires
        0 <= j < recs.len(),
        recs[j].0 == name,
    ensures
        exists|k: int|
            0 <= k < recs.len() && (#[trigger] recs[k]).0 == name && forall|m: int|
                0 <= m < k ==> (#[trigger] recs[m]).0 != name,
    decreases j,
{
    if exists|m: int| 0 <= m < j && (#[trigger] recs[m]).0 == name {
        let m = choose|m: int| 0 <= m < j && (#[trigger] recs[m]).0 == name;
        lemma_least_record(recs, name, m);
    } else {
        assert(forall|m: int| 0 <= m < j ==> (#[trigger] recs[m]).0 != name);
    }
}

spec fn final_has(recs: Seq<(Seq<char>, bool, Instant)>, name: Seq<char>, r: bool, i: int) -> bool {
    0 <= i < recs.len() && recs[i].0 == name && recs[i].1 == r
}

/// The first answer on record for `name`, if any.
pub open spec fn first_record(recs: Seq<(Seq<char>, bool, Instant)>, name: Seq<char>) -> Option<int> {
    if exists|j: int| 0 <= j < recs.len() && (#[trigger] recs[j]).0 == name {
        Some(
            choose|j: int|
                0 <= j < recs.len() && (#[trigger] recs[j]).0 == name && forall|m: int|
                    0 <= m < j ==> (#[trigger] recs[m]).0 != name,
        )
    } else {
        None
    }
}

fn string_of_str(s: &str) -> (r: String)
    ensures
        r@ == s@,
{
    let v = chars_of(s);
    crate::text::string_of(v.as_slice())
}

} // verus!

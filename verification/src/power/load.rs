//! Standing down while the machine has real work to do.
//!
//! The measurement is the whole system's: the idle and total processor time
//! Windows keeps whether or not anybody asks, read about once a second.
//! Hysteresis, deliberately: a threshold with no gap under it would have the
//! wallpaper stepping between two frame rates several times a minute, which
//! reads as stutter rather than as thrift.

use std::time::Instant;
use vstd::prelude::*;

use crate::clock;

verus! {

/// How often the counters are read, in milliseconds. Any faster and the
/// sample is mostly noise; any slower and the wallpaper takes too long to
/// get out of the way.
pub const SAMPLE_MS: u64 = 1000;

/// How many consecutive busy samples before standing down: two, so a single
/// spike does not drop the frame rate for a second. Coming back is
/// immediate.
pub const BUSY_SAMPLES: u32 = 2;

/// A sample in which the machine was at least 80% busy: at most a fifth of
/// the time that passed was spent idle.
pub open spec fn busy_sample(idled: u64, spent: u64) -> bool {
    5 * (idled as int) <= spent as int
}

/// A sample in which the machine was under 60% busy: more than two fifths
/// of the time that passed was spent idle.
pub open spec fn quiet_sample(idled: u64, spent: u64) -> bool {
    5 * (idled as int) > 2 * (spent as int)
}

/// Whether the machine counts as busy, and the run of busy samples so far,
/// after one more sample: busy is left only below the lower threshold, and
/// entered only after `BUSY_SAMPLES` samples in a row above the upper one.
pub open spec fn next_load(busy: bool, runs: u32, idled: u64, spent: u64) -> (bool, int) {
    if busy {
        if quiet_sample(idled, spent) {
            (false, 0)
        } else {
            (true, runs as int)
        }
    } else if busy_sample(idled, spent) {
        (runs + 1 >= BUSY_SAMPLES, runs + 1)
    } else {
        (false, 0)
    }
}

/// The hysteresis, in percentages. A single sample at 80% or more does not
/// make the machine busy, and two in a row do; once busy, it stays busy
/// through samples at 60% or more, and a single one under 60% ends it.
pub proof fn lemma_load_hysteresis(idled: u64, spent: u64, idled2: u64, spent2: u64, runs: u32)
    requires
        spent > 0,
        spent2 > 0,
    ensures
        // At least 80% busy: at most a fifth of the time idle.
        100 * (spent - idled) >= 80 * spent ==> !next_load(false, 0, idled, spent).0,
        100 * (spent - idled) >= 80 * spent && 100 * (spent2 - idled2) >= 80 * spent2 ==> {
            let first = next_load(false, 0, idled, spent);
            next_load(first.0, first.1 as u32, idled2, spent2).0
        },
        // Under 80% busy while not busy: the run starts again.
        100 * (spent - idled) < 80 * spent ==> next_load(false, runs, idled, spent) == (false, 0int),
        // Busy stays busy at 60% or more, and ends under 60%.
        idled <= spent && 100 * (spent - idled) >= 60 * spent ==> next_load(true, runs, idled, spent).0,
        100 * (spent - idled) < 60 * spent ==> !next_load(true, runs, idled, spent).0,
{
}

/// How busy the machine was over a sample, as the time that passed not
/// spent idle and the time that passed: the percentage is exactly
/// `100 * used / spent`, which is `100 * (1 - idled / spent)` held within
/// 0-100 (an idle count that moved further than the total counts as all of
/// it idle).
pub open spec fn spec_share(idled: u64, spent: u64) -> (u64, u64) {
    (if idled >= spent { 0u64 } else { (spent - idled) as u64 }, spent)
}

/// Whether `p` is the percentage a share stands for, exactly.
pub open spec fn is_percent_of(p: int, share: (u64, u64)) -> bool {
    p * (share.1 as int) == 100 * (share.0 as int)
}

/// What a watch holds: the counters of the last reading, whether the
/// machine counts as busy, the run of busy samples, and the share the last
/// sample came to (`(0, 1)`, nothing busy, before the first).
pub type LoadState = (Option<(u64, u64)>, bool, u32, (u64, u64));

/// What taking a reading does to a watch. No reading changes nothing. The
/// first reading is only kept, having nothing to be a difference from, and
/// so is one in which no time passed. Otherwise the time between the two
/// readings (idle and total, neither counted as going backwards) is one
/// sample: its percentage is kept, and it is taken into the busy state by
/// `next_load`.
pub open spec fn spec_take(st: LoadState, reading: Option<(u64, u64)>) -> LoadState {
    match reading {
        None => st,
        Some((idle, total)) => match st.0 {
            None => (reading, st.1, st.2, st.3),
            Some((last_idle, last_total)) => {
                let spent = if total >= last_total { (total - last_total) as u64 } else { 0u64 };
                let idled = if idle >= last_idle { (idle - last_idle) as u64 } else { 0u64 };
                if spent == 0 {
                    (reading, st.1, st.2, st.3)
                } else {
                    let (busy, runs) = next_load(st.1, st.2, idled, spent);
                    (reading, busy, runs as u32, spec_share(idled, spent))
                }
            },
        },
    }
}

/// A 64-bit tick count from its two 32-bit halves, high half first.
pub open spec fn spec_ticks(high: u32, low: u32) -> int {
    high as int * 0x1_0000_0000 + low as int
}

/// See [`spec_ticks`].
pub fn ticks(high: u32, low: u32) -> (t: u64)
    ensures
        t == spec_ticks(high, low),
{
    assert(high as int * 0x1_0000_0000 + low as int <= u64::MAX) by (nonlinear_arith)
        requires
            high <= u32::MAX,
            low <= u32::MAX,
    ;
    (high as u64) * 0x1_0000_0000 + (low as u64)
}

/// Idle time and total time from the system's three counters, each as its
/// two halves. Kernel time already includes idle time, which is the trap in
/// these counters: the total is kernel plus user, not all three. A total
/// past 64 bits is no reading.
pub open spec fn spec_system_times(idle: (u32, u32), kernel: (u32, u32), user: (u32, u32)) -> Option<(u64, u64)> {
    let total = spec_ticks(kernel.0, kernel.1) + spec_ticks(user.0, user.1);
    if total <= u64::MAX {
        Some((spec_ticks(idle.0, idle.1) as u64, total as u64))
    } else {
        None
    }
}

/// See [`spec_system_times`].
pub fn system_times(idle: (u32, u32), kernel: (u32, u32), user: (u32, u32)) -> (r: Option<(u64, u64)>)
    ensures
        r == spec_system_times(idle, kernel, user),
{
    let i = ticks(idle.0, idle.1);
    let k = ticks(kernel.0, kernel.1);
    let u = ticks(user.0, user.1);
    match k.checked_add(u) {
        Some(total) => Some((i, total)),
        None => None,
    }
}

/// Watches how busy the machine is.
pub struct LoadWatch {
    last: Option<(u64, u64)>,
    checked: Option<Instant>,
    busy_runs: u32,
    busy: bool,
    share: (u64, u64),
}

impl LoadWatch {
    /// The last sample's share is a part of a whole that is not empty.
    #[verifier::type_invariant]
    spec fn share_ok(&self) -> bool {
        self.share.0 <= self.share.1 && self.share.1 > 0
    }

    /// The run of busy samples never passes the number that makes the
    /// machine busy, and reaches it only once it is.
    pub closed spec fn wf(&self) -> bool {
        self.busy_runs <= BUSY_SAMPLES && (!self.busy ==> self.busy_runs < BUSY_SAMPLES)
    }

    /// What the watch holds: see [`LoadState`].
    pub closed spec fn state(&self) -> LoadState {
        (self.last, self.busy, self.busy_runs, self.share)
    }

    /// When the counters were last read, if ever.
    pub closed spec fn checked_at(&self) -> Option<Instant> {
        self.checked
    }

    /// Not busy, with nothing read yet.
    pub fn new() -> (w: Self)
        ensures
            w.wf(),
            w.state() == (None::<(u64, u64)>, false, 0u32, (0u64, 1u64)),
            w.checked_at() is None,
    {
        LoadWatch { last: None, checked: None, busy_runs: 0, busy: false, share: (0, 1) }
    }

    /// Whether the machine is busy enough that the wallpaper should get out
    /// of the way, and whether that just changed, given `since_ms`, how long
    /// ago the counters were last read (`None` for never), and the clock's
    /// reading now, `stamp`. Within a second of the last reading nothing is
    /// read and nothing changes. Otherwise `read` gives the idle and total
    /// processor time since the machine started (`None` when they cannot be
    /// read), the reading is stamped, and it is taken as `spec_take` says.
    pub fn poll_at<F: FnOnce() -> Option<(u64, u64)>>(&mut self, since_ms: Option<u64>, stamp: Instant, read: F) -> (r:
        (bool, bool))
        requires
            read.requires(()),
            old(self).wf(),
        ensures
            final(self).wf(),
            r == (final(self).state().1, final(self).state().1 != old(self).state().1),
            clock::within(since_ms, SAMPLE_MS) ==> *final(self) == *old(self),
            !clock::within(since_ms, SAMPLE_MS) ==> {
                &&& final(self).checked_at() == Some(stamp)
                &&& exists|reading: Option<(u64, u64)>|
                    #![trigger read.ensures((), reading)]
                    read.ensures((), reading) && final(self).state() == spec_take(old(self).state(), reading)
            },
    {
        proof {
            use_type_invariant(&*self);
        }
        if let Some(ms) = since_ms {
            if ms < SAMPLE_MS {
                return (self.busy, false);
            }
        }
        self.checked = Some(stamp);
        let reading = read();
        let (idle, total) = match reading {
            Some(pair) => pair,
            None => {
                return (self.busy, false);
            },
        };
        let (last_idle, last_total) = match self.last {
            Some(pair) => pair,
            None => {
                self.last = Some((idle, total));
                return (self.busy, false);
            },
        };
        self.last = Some((idle, total));
        let spent = total.saturating_sub(last_total);
        if spent == 0 {
            return (self.busy, false);
        }
        let idled = idle.saturating_sub(last_idle);
        let used: u64 = if idled >= spent { 0 } else { spent - idled };
        self.share = (used, spent);
        let was = self.busy;
        let quiet = (idled as u128) * 5 > (spent as u128) * 2;
        let heavy = (idled as u128) * 5 <= spent as u128;
        if self.busy {
            if quiet {
                self.busy = false;
                self.busy_runs = 0;
            }
        } else if heavy {
            self.busy_runs = self.busy_runs + 1;
            if self.busy_runs >= BUSY_SAMPLES {
                self.busy = true;
            }
        } else {
            self.busy_runs = 0;
        }
        (self.busy, self.busy != was)
    }

    /// Read the counters if it is time to: [`LoadWatch::poll_at`] with the
    /// time since the last reading and the time now, from the clock.
    pub fn poll<F: FnOnce() -> Option<(u64, u64)>>(&mut self, read: F) -> (r: (bool, bool))
        requires
            read.requires(()),
            old(self).wf(),
        ensures
            final(self).wf(),
            r == (final(self).state().1, final(self).state().1 != old(self).state().1),
            final(self).state() == old(self).state() || exists|reading: Option<(u64, u64)>|
                #![trigger read.ensures((), reading)]
                read.ensures((), reading) && final(self).state() == spec_take(old(self).state(), reading),
    {
        let since = match &self.checked {
            Some(at) => Some(clock::millis_since(at)),
            None => None,
        };
        let stamp = clock::now();
        self.poll_at(since, stamp, read)
    }

    /// The idle and total processor time of the last reading.
    pub fn last(&self) -> (r: Option<(u64, u64)>)
        ensures
            r == self.state().0,
    {
        self.last
    }

    /// How busy the machine was over the last sample, across the whole
    /// machine: the time not spent idle and the time that passed, whose
    /// ratio times 100 is the percentage (see [`spec_share`]).
    pub fn share(&self) -> (r: (u64, u64))
        ensures
            r == self.state().3,
            r.0 <= r.1,
            r.1 > 0,
    {
        proof {
            use_type_invariant(self);
        }
        self.share
    }
}

/// The frame rate to use, given what the machine is doing.
///
/// Zero for `busy_fps` switches the feature off, and a busy rate at or above
/// the normal one is ignored rather than obeyed.
pub open spec fn spec_effective_fps(normal: u32, busy_fps: u32, busy: bool) -> u32 {
    if !busy || busy_fps == 0 || busy_fps >= normal {
        normal
    } else {
        busy_fps
    }
}

pub fn effective_fps(normal: u32, busy_fps: u32, busy: bool) -> (fps: u32)
    ensures
        fps == spec_effective_fps(normal, busy_fps, busy),
        fps <= normal,
{
    if !busy || busy_fps == 0 || busy_fps >= normal {
        return normal;
    }
    if busy_fps > 1 { busy_fps } else { 1 }
}

} // verus!

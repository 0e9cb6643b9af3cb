//! Whether the machine is running off its battery, and what to do about it.
//!
//! A wallpaper is the least important thing on a laptop that is running out
//! of charge: it gets a lower frame rate on battery, and nothing at all while
//! Windows' battery saver is on. The power source is re-read a few times a
//! minute rather than a few times a second.

use std::time::Instant;
use vstd::prelude::*;

use crate::clock;

verus! {

/// How often the power source is re-read, in milliseconds.
pub const RECHECK_AFTER_MS: u64 = 2000;

/// What the machine is running on right now.
#[derive(Debug, Clone, Copy, PartialEq, Eq, Structural, Default)]
pub struct PowerState {
    pub on_battery: bool,
    /// Windows' battery saver, treated as an instruction to stop spending
    /// power on decoration.
    pub saver: bool,
    /// Charge left, 0-100; unknown is reported as 100.
    pub percent: u8,
}

/// What the user wants to happen on battery.
#[derive(Debug, Clone, Copy, PartialEq, Eq, Structural)]
pub struct PowerPolicy {
    /// Frame rate cap while unplugged. Zero means the plugged-in rate is
    /// used on battery too.
    pub battery_fps: u32,
    /// Freeze the wallpaper entirely while battery saver is on.
    pub pause_on_saver: bool,
}

impl Default for PowerPolicy {
    /// Both on: 24 fps on battery, and a freeze under battery saver.
    fn default() -> (p: Self)
        ensures
            p.battery_fps == 24,
            p.pause_on_saver,
    {
        PowerPolicy { battery_fps: 24, pause_on_saver: true }
    }
}

/// The frame rate a policy runs at, given the plugged-in setting.
pub open spec fn spec_effective_fps(policy: PowerPolicy, wanted: u32, state: PowerState) -> u32 {
    if state.on_battery && policy.battery_fps > 0 {
        let capped = if wanted < policy.battery_fps { wanted } else { policy.battery_fps };
        if capped < 1 { 1 } else { capped }
    } else {
        wanted
    }
}

impl PowerPolicy {
    /// The frame rate to actually run at, given the plugged-in setting.
    pub fn effective_fps(&self, wanted: u32, state: PowerState) -> (fps: u32)
        ensures
            fps == spec_effective_fps(*self, wanted, state),
            // The battery cap is a ceiling, not a target to climb to...
            wanted >= 1 ==> fps <= wanted,
            state.on_battery && self.battery_fps > 0 ==> fps <= self.battery_fps,
            // ...and never a reason to stop presenting altogether.
            state.on_battery && self.battery_fps > 0 ==> fps >= 1,
            !state.on_battery ==> fps == wanted,
    {
        if state.on_battery && self.battery_fps > 0 {
            let capped = if wanted < self.battery_fps { wanted } else { self.battery_fps };
            if capped < 1 { 1 } else { capped }
        } else {
            wanted
        }
    }

    /// Whether drawing should stop altogether.
    pub fn should_freeze(&self, state: PowerState) -> (freeze: bool)
        ensures
            freeze == (self.pause_on_saver && state.saver),
    {
        self.pause_on_saver && state.saver
    }
}

/// `ACLineStatus` while the machine is off the mains.
pub const AC_OFFLINE: u8 = 0;

/// The bit of `SystemStatusFlag` that is set while battery saver is on.
pub const SAVER_ON: u8 = 1;

/// What a power status report means: the mains line, the status flags and
/// the charge left, as Windows reports them.
pub open spec fn spec_state_from_status(report: Option<(u8, u8, u8)>) -> PowerState {
    match report {
        // A machine whose firmware will not answer is treated as plugged
        // in: throttling a desktop that reported nothing would be the worse
        // mistake of the two.
        None => PowerState { on_battery: false, saver: false, percent: 100 },
        Some((line, flags, life)) => PowerState {
            on_battery: line == AC_OFFLINE,
            saver: flags & SAVER_ON != 0,
            // 255 is "unknown"; anything above 100 is reported as full.
            percent: if life > 100 { 100 } else { life },
        },
    }
}

/// The power state a status report describes, or the plugged-in state where
/// the report could not be had.
pub fn state_from_status(report: Option<(u8, u8, u8)>) -> (s: PowerState)
    ensures
        s == spec_state_from_status(report),
{
    match report {
        None => PowerState { on_battery: false, saver: false, percent: 100 },
        Some((line, flags, life)) => PowerState {
            on_battery: line == AC_OFFLINE,
            saver: flags & SAVER_ON != 0,
            percent: if life > 100 { 100 } else { life },
        },
    }
}

/// Reads the power source, no more often than it can usefully change.
pub struct PowerWatch {
    state: PowerState,
    checked: Option<Instant>,
}

impl PowerWatch {
    /// The last reading taken.
    pub closed spec fn current(&self) -> PowerState {
        self.state
    }

    /// Start watching from a first reading. The first `poll` reads again
    /// rather than trusting a value from before the render loop began.
    pub fn new<F: FnOnce() -> PowerState>(read: F) -> (w: Self)
        requires
            read.requires(()),
        ensures
            read.ensures((), w.current()),
    {
        let state = read();
        PowerWatch { state, checked: None }
    }

    /// When the last reading was taken, if one has been since the start.
    pub closed spec fn checked_at(&self) -> Option<Instant> {
        self.checked
    }

    /// The current state, and whether it just changed, given `since_ms`,
    /// how long ago the last reading was taken (`None` for never), and the
    /// clock's reading now, `stamp`. Within two seconds of the last reading
    /// nothing is read and nothing changes. Otherwise `read` is asked, and
    /// its answer is stored, stamped and returned.
    pub fn poll_at<F: FnOnce() -> PowerState>(&mut self, since_ms: Option<u64>, stamp: Instant, read: F) -> (r: (
        PowerState,
        bool,
    ))
        requires
            read.requires(()),
        ensures
            clock::within(since_ms, RECHECK_AFTER_MS) ==> {
                &&& r == (old(self).current(), false)
                &&& *final(self) == *old(self)
            },
            !clock::within(since_ms, RECHECK_AFTER_MS) ==> {
                &&& read.ensures((), r.0)
                &&& final(self).current() == r.0
                &&& final(self).checked_at() == Some(stamp)
                &&& r.1 == (r.0 != old(self).current())
            },
    {
        if let Some(ms) = since_ms {
            if ms < RECHECK_AFTER_MS {
                return (self.state, false);
            }
        }
        self.checked = Some(stamp);
        let next = read();
        let changed = next != self.state;
        self.state = next;
        (self.state, changed)
    }

    /// The current state, and whether it just changed: [`PowerWatch::poll_at`]
    /// with the time since the last reading and the time now, from the
    /// clock.
    pub fn poll<F: FnOnce() -> PowerState>(&mut self, read: F) -> (r: (PowerState, bool))
        requires
            read.requires(()),
        ensures
            r.0 == final(self).current(),
            r.1 == (r.0 != old(self).current()),
            r.0 == old(self).current() || read.ensures((), r.0),
    {
        let since = match &self.checked {
            Some(at) => Some(clock::millis_since(at)),
            None => None,
        };
        let stamp = clock::now();
        self.poll_at(since, stamp, read)
    }

    pub fn state(&self) -> (s: PowerState)
        ensures
            s == self.current(),
    {
        self.state
    }
}

} // verus!

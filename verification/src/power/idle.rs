//! Whether anybody is at the machine.
//!
//! A visible desktop with nobody in front of it costs the full frame rate
//! for a picture nobody is looking at. Windows counts the time since the
//! last keypress for the whole session; the wallpaper only reads it.

use std::time::Instant;
use vstd::prelude::*;

use crate::clock;

verus! {

/// How long the reduce-motion answer is kept, in milliseconds.
pub const ANIMATION_RECHECK_MS: u64 = 2000;

/// The milliseconds since the last input, from the 64-bit tick count now and
/// the 32-bit tick count of the last input. Both count milliseconds since
/// boot; the 32-bit one wraps every 49 days, so they are compared in 32
/// bits, which is what makes the wrap harmless.
pub open spec fn spec_since_input_ms(now_ticks: u64, last_input: u32) -> int {
    let now = now_ticks as int % 0x1_0000_0000;
    if now >= last_input { now - last_input } else { now + 0x1_0000_0000 - last_input }
}

/// See [`spec_since_input_ms`].
pub fn since_input_ms(now_ticks: u64, last_input: u32) -> (ms: u64)
    ensures
        ms == spec_since_input_ms(now_ticks, last_input),
        ms < 0x1_0000_0000,
{
    let now: u64 = now_ticks % 0x1_0000_0000;
    let last: u64 = last_input as u64;
    if now >= last {
        now - last
    } else {
        now + 0x1_0000_0000 - last
    }
}

/// Whether Windows still wants things on screen to move: the "Show
/// animations in Windows" switch, which is what the accessibility setting
/// for reduced motion flips. A machine that will not answer is treated as
/// one that wants animation, the default every install ships with.
pub open spec fn spec_animations_from(answer: Option<bool>) -> bool {
    match answer {
        None => true,
        Some(on) => on,
    }
}

/// The reduce-motion switch, asked at most every two seconds.
pub struct AnimationWatch {
    last: Option<(bool, Instant)>,
}

impl AnimationWatch {
    /// The answer on record, if any.
    pub closed spec fn on_record(&self) -> Option<bool> {
        match self.last {
            None => None,
            Some((on, _)) => Some(on),
        }
    }

    pub fn new() -> (w: Self)
        ensures
            w.on_record() is None,
    {
        AnimationWatch { last: None }
    }

    /// When the answer on record was taken, if there is one.
    pub closed spec fn recorded_at(&self) -> Option<Instant> {
        match self.last {
            None => None,
            Some((_, at)) => Some(at),
        }
    }

    /// Whether animation is wanted, given `since_ms`, the age of the answer
    /// on record (`None` for none), and the clock's reading now, `stamp`.
    /// An answer on record younger than two seconds is given again and
    /// nothing changes. Otherwise `read` asks Windows (`None` where it
    /// would not answer), and the answer is recorded with `stamp`.
    pub fn wanted_at<F: FnOnce() -> Option<bool>>(&mut self, since_ms: Option<u64>, stamp: Instant, read: F) -> (on:
        bool)
        requires
            read.requires(()),
        ensures
            (old(self).on_record() is Some && clock::within(since_ms, ANIMATION_RECHECK_MS)) ==> {
                &&& old(self).on_record() == Some(on)
                &&& *final(self) == *old(self)
            },
            !(old(self).on_record() is Some && clock::within(since_ms, ANIMATION_RECHECK_MS)) ==> {
                &&& exists|a: Option<bool>| read.ensures((), a) && on == spec_animations_from(a)
                &&& final(self).on_record() == Some(on)
                &&& final(self).recorded_at() == Some(stamp)
            },
    {
        if let Some((on, _)) = &self.last {
            if let Some(ms) = since_ms {
                if ms < ANIMATION_RECHECK_MS {
                    return *on;
                }
            }
        }
        let answer = read();
        let on = match answer {
            None => true,
            Some(b) => b,
        };
        self.last = Some((on, stamp));
        assert(on == spec_animations_from(answer));
        on
    }

    /// Whether animation is wanted: [`AnimationWatch::wanted_at`] with the
    /// age of the answer on record and the time now, from the clock.
    pub fn wanted<F: FnOnce() -> Option<bool>>(&mut self, read: F) -> (on: bool)
        requires
            read.requires(()),
        ensures
            final(self).on_record() == Some(on),
            old(self).on_record() == Some(on)
                || exists|a: Option<bool>| read.ensures((), a) && on == spec_animations_from(a),
    {
        let since = match &self.last {
            Some((_, at)) => Some(clock::millis_since(at)),
            None => None,
        };
        let stamp = clock::now();
        self.wanted_at(since, stamp, read)
    }
}

/// Whether the wallpaper should stand still because nobody is at the
/// machine. `since_input_ms` is the time since the user last touched the
/// keyboard or mouse, in milliseconds; it is only asked when the feature is
/// on. `after_secs` of zero switches the whole idea off.
pub fn away<F: FnOnce() -> u64>(after_secs: u64, since_input_ms: F) -> (r: bool)
    requires
        after_secs > 0 ==> since_input_ms.requires(()),
    ensures
        after_secs == 0 ==> !r,
        after_secs > 0 ==> exists|ms: u64|
            since_input_ms.ensures((), ms) && r == (ms as nat >= after_secs as nat * 1000),
{
    if after_secs == 0 {
        return false;
    }
    let ms = since_input_ms();
    let r = ms / 1000 >= after_secs;
    assert(r == (ms as nat >= after_secs as nat * 1000)) by (nonlinear_arith)
        requires
            r == (ms / 1000 >= after_secs),
    ;
    r
}

} // verus!

//! The soundtrack's playback thread, as decisions: when the stream stops
//! and starts again, and when it steps aside for other sound on the
//! machine. The samples and the mixing are the device's business.

use vstd::prelude::*;

use crate::clock::within;

verus! {

/// How long a muted soundtrack sleeps between looks, in milliseconds.
pub const SILENT_POLL_MS: u64 = 200;

/// How often other sound on the machine is looked for, in milliseconds.
pub const DUCK_POLL_MS: u64 = 300;

/// Where the playback thread stands between one turn and the next.
#[derive(Debug, Clone, Copy, PartialEq, Eq, Structural)]
pub struct Mix {
    /// Whether the stream is playing.
    pub running: bool,
    /// Whether it is standing aside for other sound.
    pub ducked: bool,
}

/// What one turn of the playback thread does before it feeds the device.
#[derive(Debug, Clone, Copy, PartialEq, Eq, Structural)]
pub struct Turn {
    /// Stop the stream and throw away what is queued: whatever was queued
    /// belongs to a moment that has passed.
    pub stop: bool,
    /// Start the stream again.
    pub start: bool,
    /// Sleep for [`SILENT_POLL_MS`] and go round again without decoding.
    pub rest: bool,
    /// A look for other sound was made on this turn, so its clock starts
    /// again now.
    pub looked: bool,
    /// What to tell the engine about standing aside, if it changed hands.
    pub ducking: Option<bool>,
}

/// One turn, from where the thread stands, given: whether every monitor is
/// covered (`muted`), whether other sessions can be watched at all
/// (`watching`), whether standing aside is switched on (`duck`), how long
/// ago other sound was last looked for (`since_ms`, `None` for never), and
/// what a look finds (`others`, only asked when a look is due).
///
/// Muted, the stream is genuinely stopped (decoding a track nobody can hear
/// is the thing this project refuses to do) and the thread rests. Otherwise
/// a stopped stream starts again; with watching on and ducking switched on,
/// other sound is looked for no more often than every [`DUCK_POLL_MS`], and
/// the answer decides whether to stand aside; with ducking switched off, a
/// soundtrack standing aside comes back.
pub open spec fn spec_turn(
    m: Mix,
    muted: bool,
    watching: bool,
    duck: bool,
    since_ms: Option<u64>,
    others: bool,
) -> (Mix, Turn) {
    let look = !muted && watching && duck && !within(since_ms, DUCK_POLL_MS);
    let come_back = !muted && watching && !duck && m.ducked;
    (
        Mix {
            running: !muted,
            ducked: if look {
                others
            } else if come_back {
                false
            } else {
                m.ducked
            },
        },
        Turn {
            stop: muted && m.running,
            start: !muted && !m.running,
            rest: muted,
            looked: look,
            ducking: if look {
                Some(others)
            } else if come_back {
                Some(false)
            } else {
                None
            },
        },
    )
}

/// See [`spec_turn`].
pub fn turn(m: &mut Mix, muted: bool, watching: bool, duck: bool, since_ms: Option<u64>, others: bool) -> (t: Turn)
    ensures
        (*final(m), t) == spec_turn(*old(m), muted, watching, duck, since_ms, others),
{
    if muted {
        let stop = m.running;
        m.running = false;
        return Turn { stop, start: false, rest: true, looked: false, ducking: None };
    }
    let start = !m.running;
    m.running = true;
    let due = match since_ms {
        Some(ms) => ms >= DUCK_POLL_MS,
        None => true,
    };
    if watching && duck && due {
        m.ducked = others;
        Turn { stop: false, start, rest: false, looked: true, ducking: Some(others) }
    } else if watching && !duck && m.ducked {
        m.ducked = false;
        Turn { stop: false, start, rest: false, looked: false, ducking: Some(false) }
    } else {
        Turn { stop: false, start, rest: false, looked: false, ducking: None }
    }
}

} // verus!

//! The decisions the render loop makes on every pass: how fast to draw,
//! whether to draw at all, when to hand the decoders back, when to look at
//! the rules again, which playlists move on, and when the desktop's accent
//! colour is worth rewriting.

use vstd::prelude::*;

use crate::compositor::playback::Playback;
use crate::compositor::rules::Rule;
use crate::compositor::settings::copy_strings;
use crate::compositor::settings::Settings;
use crate::decoder::procedural::{is_shader, spec_is_shader};
use crate::decoder::still::{is_still, spec_is_still};
use crate::text::{same_string, string_views};
use crate::power::battery::PowerState;

verus! {

/// How often the rules are looked at, in milliseconds: well inside a
/// minute, the finest a rule can be set to.
pub const RULES_POLL_MS: u64 = 10_000;

/// How far a colour channel must move before the accent is rewritten: a
/// video's average wanders by a point or two every frame.
pub const ACCENT_STEP: u8 = 12;

/// The frame rate to draw at: the chosen rate, capped on battery, then
/// lowered while the machine is busy. The lower of the two wins: unplugged
/// and busy is no reason to speed up.
pub open spec fn spec_frame_rate<F>(s: Settings<F>, power: PowerState, busy: bool) -> u32 {
    crate::power::load::spec_effective_fps(
        crate::power::battery::spec_effective_fps(s.power, s.fps, power),
        s.busy_fps,
        busy,
    )
}

/// See [`spec_frame_rate`]. Never above the chosen rate; never above the
/// battery cap while unplugged; never above the busy rate while the machine
/// is busy; and never zero while the chosen rate is not.
pub fn frame_rate<F>(s: &Settings<F>, power: PowerState, busy: bool) -> (fps: u32)
    ensures
        fps == spec_frame_rate(*s, power, busy),
        s.fps >= 1 ==> 1 <= fps <= s.fps,
        power.on_battery && s.power.battery_fps > 0 ==> fps <= s.power.battery_fps,
        busy && s.busy_fps > 0 ==> fps <= s.busy_fps,
{
    let unplugged = s.power.effective_fps(s.fps, power);
    crate::power::load::effective_fps(unplugged, s.busy_fps, busy)
}

/// Whether the wallpaper stands still: frozen by hand, an application the
/// user named is in front, nobody is at the machine, Windows is asking for
/// less motion, or battery saver is on and asked to stop it.
pub open spec fn spec_stands_still<F>(
    s: Settings<F>,
    app_in_front: bool,
    away: bool,
    still_wanted: bool,
    power: PowerState,
) -> bool {
    s.frozen || app_in_front || away || still_wanted || (s.power.pause_on_saver && power.saver)
}

/// See [`spec_stands_still`].
pub fn stands_still<F>(s: &Settings<F>, app_in_front: bool, away: bool, still_wanted: bool, power: PowerState) -> (r:
    bool)
    ensures
        r == spec_stands_still(*s, app_in_front, away, still_wanted, power),
{
    s.frozen || app_in_front || away || still_wanted || s.power.should_freeze(power)
}

/// Whether the decoders should be handed back: the feature is on, nothing
/// is being drawn, no frame is still owed to the screen, and it has been
/// that way for `hibernate_secs`. `hidden_ms` is how long nothing has been
/// drawn, if that is the case.
pub open spec fn spec_hibernation_wanted(hibernate_secs: u64, paused: bool, owed: bool, hidden_ms: Option<u64>) -> bool {
    hibernate_secs > 0 && paused && !owed && (hidden_ms matches Some(ms) && ms >= hibernate_secs * 1000)
}

/// See [`spec_hibernation_wanted`].
pub fn hibernation_wanted(hibernate_secs: u64, paused: bool, owed: bool, hidden_ms: Option<u64>) -> (r: bool)
    ensures
        r == spec_hibernation_wanted(hibernate_secs, paused, owed, hidden_ms),
{
    if hibernate_secs == 0 || !paused || owed {
        return false;
    }
    match hidden_ms {
        Some(ms) => {
            let r = ms / 1000 >= hibernate_secs;
            assert(r == (ms >= hibernate_secs * 1000)) by (nonlinear_arith)
                requires
                    r == (ms / 1000 >= hibernate_secs),
            ;
            r
        },
        None => false,
    }
}

/// Whether the rules are due another look: there are some, and they have
/// not been looked at in the last ten seconds. `since_ms` is how long ago
/// they were last looked at, if ever.
pub open spec fn spec_rules_due(rules: nat, since_ms: Option<u64>) -> bool {
    rules > 0 && match since_ms {
        None => true,
        Some(ms) => ms >= RULES_POLL_MS,
    }
}

/// See [`spec_rules_due`].
pub fn rules_due<F>(s: &Settings<F>, since_ms: Option<u64>) -> (r: bool)
    ensures
        r == spec_rules_due(s.rules@.len(), since_ms),
{
    s.rules.len() > 0 && match since_ms {
        None => true,
        Some(ms) => ms >= RULES_POLL_MS,
    }
}

/// The distance between two channel values.
pub open spec fn channel_gap(a: u8, b: u8) -> int {
    if a >= b {
        a - b
    } else {
        b - a
    }
}

/// Whether a sampled colour has moved far enough from the one last put on
/// the desktop to be worth writing: always when there is none yet.
pub open spec fn spec_accent_moved(last: Option<[u8; 3]>, colour: [u8; 3]) -> bool {
    match last {
        None => true,
        Some(l) => exists|i: int| 0 <= i < 3 && channel_gap(l@[i], colour@[i]) > ACCENT_STEP,
    }
}

/// See [`spec_accent_moved`].
pub fn accent_moved(last: Option<[u8; 3]>, colour: [u8; 3]) -> (r: bool)
    ensures
        r == spec_accent_moved(last, colour),
{
    match last {
        None => true,
        Some(l) => {
            let mut i: usize = 0;
            while i < 3
                invariant
                    i <= 3,
                    last == Some(l),
                    forall|k: int| 0 <= k < i ==> channel_gap(l@[k], colour@[k]) <= ACCENT_STEP,
                decreases 3 - i,
            {
                let gap: u8 = if l[i] >= colour[i] {
                    l[i] - colour[i]
                } else {
                    colour[i] - l[i]
                };
                if gap > ACCENT_STEP {
                    assert(channel_gap(l@[i as int], colour@[i as int]) > ACCENT_STEP);
                    return true;
                }
                i = i + 1;
            }
            false
        },
    }
}

/// Whether a monitor's playlist moves on now: it is switched on and has
/// more than one item, and either the interval has passed, or, with no
/// interval, the clip on screen has looped since it started. `elapsed_secs`
/// is how long the current item has been up; `loops` is how many times the
/// clip on screen has looped, if it is open.
pub open spec fn spec_due(p: Playback, interval_secs: u64, elapsed_secs: u64, loops: Option<u32>) -> bool {
    p.enabled && p.items@.len() > 1 && if interval_secs > 0 {
        elapsed_secs >= interval_secs
    } else {
        loops matches Some(count) && count > p.loops_at_start
    }
}

/// See [`spec_due`].
pub fn due(p: &Playback, interval_secs: u64, elapsed_secs: u64, loops: Option<u32>) -> (r: bool)
    ensures
        r == spec_due(*p, interval_secs, elapsed_secs, loops),
{
    if !p.enabled || p.items.len() <= 1 {
        return false;
    }
    if interval_secs > 0 {
        elapsed_secs >= interval_secs
    } else {
        match loops {
            Some(count) => count > p.loops_at_start,
            None => false,
        }
    }
}

/// The loop count a clip has already reached: the first that `counts`
/// gives for `path`, or zero when nothing has it open.
pub open spec fn spec_baseline(counts: Seq<(String, u32)>, path: Seq<char>) -> u32
    decreases counts.len(),
{
    if counts.len() == 0 {
        0
    } else if counts[0].0@ == path {
        counts[0].1
    } else {
        spec_baseline(counts.drop_first(), path)
    }
}

/// `spec_baseline` gives the count of the first entry for the path, and
/// zero when no entry has it.
pub proof fn lemma_baseline_first(counts: Seq<(String, u32)>, path: Seq<char>)
    ensures
        (forall|i: int| 0 <= i < counts.len() ==> (#[trigger] counts[i]).0@ != path) ==> spec_baseline(
            counts,
            path,
        ) == 0,
        (exists|i: int| 0 <= i < counts.len() && (#[trigger] counts[i]).0@ == path) ==> exists|i: int|
            0 <= i < counts.len() && (#[trigger] counts[i]).0@ == path && spec_baseline(counts, path)
                == counts[i].1 && forall|j: int| 0 <= j < i ==> (#[trigger] counts[j]).0@ != path,
    decreases counts.len(),
{
    if counts.len() > 0 {
        let rest = counts.drop_first();
        lemma_baseline_first(rest, path);
        if counts[0].0@ != path {
            assert forall|i: int| 0 <= i < rest.len() implies (#[trigger] rest[i]) == counts[i + 1] by {}
            if exists|i: int| 0 <= i < counts.len() && (#[trigger] counts[i]).0@ == path {
                let i = choose|i: int| 0 <= i < counts.len() && (#[trigger] counts[i]).0@ == path;
                assert(rest[i - 1] == counts[i]);
                let k = choose|k: int|
                    0 <= k < rest.len() && (#[trigger] rest[k]).0@ == path && spec_baseline(rest, path)
                        == rest[k].1 && forall|j: int| 0 <= j < k ==> (#[trigger] rest[j]).0@ != path;
                assert(counts[k + 1] == rest[k]);
                assert forall|j: int| 0 <= j < k + 1 implies (#[trigger] counts[j]).0@ != path by {
                    if j > 0 {
                        assert(counts[j] == rest[j - 1]);
                    }
                }
            }
        }
    }
}

/// See [`spec_baseline`]: the count of the first entry for `path`, or zero.
pub fn baseline(counts: &Vec<(String, u32)>, path: &String) -> (n: u32)
    ensures
        n == spec_baseline(counts@, path@),
        (forall|i: int| 0 <= i < counts@.len() ==> (#[trigger] counts@[i]).0@ != path@) ==> n == 0,
        (exists|i: int| 0 <= i < counts@.len() && (#[trigger] counts@[i]).0@ == path@) ==> exists|i: int|
            0 <= i < counts@.len() && (#[trigger] counts@[i]).0@ == path@ && n == counts@[i].1 && forall|j: int|
                0 <= j < i ==> (#[trigger] counts@[j]).0@ != path@,
{
    proof {
        lemma_baseline_first(counts@, path@);
    }
    let mut i: usize = 0;
    assert(counts@.subrange(0, counts@.len() as int) =~= counts@);
    while i < counts.len()
        invariant
            i <= counts@.len(),
            spec_baseline(counts@.subrange(i as int, counts@.len() as int), path@) == spec_baseline(
                counts@,
                path@,
            ),
        decreases counts@.len() - i,
    {
        let ghost rest = counts@.subrange(i as int, counts@.len() as int);
        assert(rest.drop_first() =~= counts@.subrange(i + 1, counts@.len() as int));
        if same_string(&counts[i].0, path) {
            proof {
                lemma_baseline_first(counts@, path@);
            }
            return counts[i].1;
        }
        i = i + 1;
    }
    assert(counts@.subrange(i as int, counts@.len() as int).len() == 0);
    0
}

/// The item a monitor shows, as text.
pub open spec fn showing(p: Playback) -> Option<Seq<char>> {
    match p.spec_current() {
        Some(i) => Some(p.items@[i]@),
        None => None,
    }
}

/// Move a monitor's playlist on, as the render loop does when it is due:
/// step to the next item, and take as its starting loop count the one its
/// clip has already reached where another monitor has it open, since then
/// it has looped a few times already. `counts` holds the loop count of
/// every open clip. Returns the item to put on screen (`None` inside for
/// nothing), or `None` when the monitor has nothing to play and was left
/// alone.
pub fn advance(state: &mut Playback, shuffle: bool, seed: u64, counts: &Vec<(String, u32)>) -> (shown: Option<
    Option<String>,
>)
    requires
        old(state).wf(),
    ensures
        final(state).wf(),
        old(state).order@.len() == 0 ==> *final(state) == *old(state) && shown is None,
        old(state).order@.len() > 0 ==> {
            &&& (final(state).order@, final(state).index) == old(state).spec_stepped(shuffle, seed)
            &&& final(state).items@ == old(state).items@
            &&& final(state).enabled == old(state).enabled
            &&& final(state).loops_at_start == match showing(*final(state)) {
                Some(path) => spec_baseline(counts@, path),
                None => 0,
            }
            &&& shown matches Some(c) && match showing(*final(state)) {
                Some(path) => c matches Some(s) && s@ == path,
                None => c is None,
            }
        },
{
    if state.order.len() == 0 {
        return None;
    }
    state.step(shuffle, seed);
    let current: Option<String> = match state.current() {
        Some(path) => Some(path.clone()),
        None => None,
    };
    let start: u32 = match &current {
        Some(path) => baseline(counts, path),
        None => 0,
    };
    state.loops_at_start = start;
    Some(current)
}

/// How often a covered desktop is looked at again, in nanoseconds: half a
/// second is nothing to a user coming back from a game.
pub const OCCLUDED_POLL_NS: u64 = 500_000_000;

/// The longest the loop ever waits, in nanoseconds, whatever the wallpaper
/// says it can: the settings window still has to be answered.
pub const MAX_WAIT_NS: u64 = 250_000_000;

/// The next tick of the frame grid, in nanoseconds on the engine's clock:
/// one `budget` on from the last, or, when the loop has fallen more than a
/// whole budget behind (a suspend, a slow decode), one budget on from
/// `now`, rather than catching up on frames nobody saw.
pub fn next_tick(last: u64, now: u64, budget: u64) -> (t: u64)
    requires
        last + budget <= u64::MAX,
        now + budget <= u64::MAX,
    ensures
        t == if last + budget < now {
            now + budget
        } else {
            last + budget
        },
{
    let t = last + budget;
    if t < now {
        now + budget
    } else {
        t
    }
}

/// The sooner of two moments.
pub open spec fn earlier(a: int, b: int) -> int {
    if a <= b {
        a
    } else {
        b
    }
}

/// The soonest of the waits the wallpapers on screen ask for, if any asks.
pub open spec fn soonest(dues: Seq<u64>) -> Option<u64>
    decreases dues.len(),
{
    if dues.len() == 0 {
        None
    } else {
        match soonest(dues.drop_last()) {
            None => Some(dues.last()),
            Some(d) => Some(if dues.last() < d {
                dues.last()
            } else {
                d
            }),
        }
    }
}

/// What `soonest` picks is one of the waits, and none is shorter.
pub proof fn lemma_soonest_is_least(dues: Seq<u64>)
    ensures
        soonest(dues) is None <==> dues.len() == 0,
        soonest(dues) matches Some(d) ==> (exists|i: int| 0 <= i < dues.len() && #[trigger] dues[i] == d)
            && forall|j: int| 0 <= j < dues.len() ==> d <= #[trigger] dues[j],
    decreases dues.len(),
{
    if dues.len() > 0 {
        let init = dues.drop_last();
        lemma_soonest_is_least(init);
        let d = soonest(dues)->0;
        assert(dues[dues.len() - 1] == dues.last());
        if let Some(b) = soonest(init) {
            let i = choose|i: int| 0 <= i < init.len() && #[trigger] init[i] == b;
            assert(dues[i] == init[i]);
        }
        assert forall|j: int| 0 <= j < dues.len() implies d <= #[trigger] dues[j] by {
            if j < dues.len() - 1 {
                assert(dues[j] == init[j]);
            }
        }
    }
}

/// When the loop wakes next, in nanoseconds on the engine's clock. A frozen
/// wallpaper only needs to hear from the settings window and the keyboard.
/// Otherwise the later of the frame grid's `tick` and the soonest moment a
/// wallpaper's next frame is due (`dues`, from `now`) wins: waking on a
/// grid alone holds some frames of a clip for one tick and some for two.
/// Either way, never later than [`MAX_WAIT_NS`] from now.
pub fn deadline(frozen: bool, now: u64, tick: u64, dues: &Vec<u64>) -> (d: u64)
    requires
        now + OCCLUDED_POLL_NS <= u64::MAX,
        forall|i: int| 0 <= i < dues@.len() ==> now + dues@[i] <= u64::MAX,
    ensures
        d == earlier(
            if frozen {
                now + OCCLUDED_POLL_NS
            } else {
                match soonest(dues@) {
                    None => tick as int,
                    Some(due) => if tick >= now + due {
                        tick as int
                    } else {
                        now + due
                    },
                }
            },
            now + MAX_WAIT_NS,
        ),
        // Never later than the longest wait.
        d <= now + MAX_WAIT_NS,
        // No wallpaper is kept waiting past both its own moment and the
        // frame grid's tick.
        !frozen ==> forall|i: int| 0 <= i < dues@.len() ==> d <= tick || d <= now + #[trigger] dues@[i],
        // With nothing asking, the grid decides.
        !frozen && dues@.len() == 0 ==> d == earlier(tick as int, now + MAX_WAIT_NS),
{
    proof {
        lemma_soonest_is_least(dues@);
    }
    let wake: u64 = if frozen {
        now + OCCLUDED_POLL_NS
    } else {
        let mut best: Option<u64> = None;
        let mut i: usize = 0;
        while i < dues.len()
            invariant
                i <= dues@.len(),
                best == soonest(dues@.take(i as int)),
                best matches Some(b) ==> exists|k: int| 0 <= k < i && b == dues@[k],
            decreases dues@.len() - i,
        {
            proof {
                assert(dues@.take(i + 1).drop_last() =~= dues@.take(i as int));
            }
            let d = dues[i];
            best = match best {
                None => Some(d),
                Some(b) => Some(if d < b { d } else { b }),
            };
            i = i + 1;
        }
        proof {
            assert(dues@.take(dues@.len() as int) =~= dues@);
        }
        match best {
            None => tick,
            Some(due) => {
                proof {
                    let k = choose|k: int| 0 <= k < dues@.len() && due == dues@[k];
                    assert(now + dues@[k] <= u64::MAX);
                }
                let at = now + due;
                if tick >= at { tick } else { at }
            },
        }
    };
    let cap = now + MAX_WAIT_NS;
    if wake <= cap {
        wake
    } else {
        cap
    }
}

/// The soundtrack that should be playing: the item on the primary monitor,
/// when sound is switched on, the engine is not hibernating, and that
/// monitor is switched on and showing a clip. A photo has no soundtrack and
/// neither does a shader.
pub open spec fn spec_soundtrack(enabled: bool, hibernating: bool, primary: Option<&Playback>) -> Option<Seq<char>> {
    match primary {
        Some(p) => if enabled && !hibernating && p.enabled {
            match showing(*p) {
                Some(path) => if !spec_is_still(path) && !spec_is_shader(path) {
                    Some(path)
                } else {
                    None
                },
                None => None,
            }
        } else {
            None
        },
        None => None,
    }
}

/// See [`spec_soundtrack`]. `primary` is the playback of the primary
/// monitor, if there is one.
pub fn soundtrack(enabled: bool, hibernating: bool, primary: Option<&Playback>) -> (r: Option<String>)
    ensures
        match spec_soundtrack(enabled, hibernating, primary) {
            Some(path) => r matches Some(s) && s@ == path,
            None => r is None,
        },
{
    if !enabled || hibernating {
        return None;
    }
    let p = match primary {
        Some(p) => p,
        None => return None,
    };
    if !p.enabled {
        return None;
    }
    match p.current() {
        Some(path) => {
            if is_still(path.as_str()) || is_shader(path.as_str()) {
                None
            } else {
                Some(path.clone())
            }
        },
        None => None,
    }
}

/// Whether two lists name the same files in the same order.
pub fn same_list(a: &Vec<String>, b: &Vec<String>) -> (r: bool)
    ensures
        r == (string_views(a@) == string_views(b@)),
{
    if a.len() != b.len() {
        assert(string_views(a@).len() != string_views(b@).len());
        return false;
    }
    let mut i: usize = 0;
    while i < a.len()
        invariant
            a@.len() == b@.len(),
            i <= a@.len(),
            forall|k: int| 0 <= k < i ==> (#[trigger] a@[k])@ == b@[k]@,
        decreases a@.len() - i,
    {
        if !same_string(&a[i], &b[i]) {
            assert(string_views(a@)[i as int] != string_views(b@)[i as int]);
            return false;
        }
        i = i + 1;
    }
    assert(string_views(a@) =~= string_views(b@));
    true
}

/// The list a rule now puts on every screen: the one in force, when it is
/// not the list the rules last put up. Nothing when no rule is in force or
/// the one in force is already showing.
pub fn newly_ruled(ruled: &Option<Vec<String>>, chosen: Option<&Rule>) -> (r: Option<Vec<String>>)
    ensures
        match chosen {
            None => r is None,
            Some(rule) => if ruled matches Some(v) && string_views(v@) == string_views(rule.items@) {
                r is None
            } else {
                r matches Some(items) && items@ == rule.items@
            },
        },
{
    match chosen {
        None => None,
        Some(rule) => {
            let showing_already = match ruled {
                Some(v) => same_list(v, &rule.items),
                None => false,
            };
            if showing_already {
                None
            } else {
                Some(copy_strings(&rule.items))
            }
        },
    }
}

/// What a screen's surface comes to before anything is decoded for it.
#[derive(Debug, Clone, Copy, PartialEq, Eq, Structural)]
pub struct Sight {
    /// Whether the screen is worth drawing on this pass.
    pub visible: bool,
    /// Whether its surface is up.
    pub shown: bool,
    /// Whether it was last found hidden by the compositor.
    pub occluded: bool,
    /// Whether what is on it has to be drawn again whatever the decoder
    /// says.
    pub redraw: bool,
}

/// Whether a screen is drawn on, worked out before decoding: decoding a
/// frame nobody will see is the most expensive mistake there is.
///
/// A screen that is switched off or has nothing assigned has its surface
/// taken down, so the desktop underneath shows; one that just changed
/// either way has not been judged yet and must be drawn in full when it
/// is. A screen whose surface is up is skipped while some window covers
/// it (`covered`), and, while it was last found hidden by the compositor,
/// for as long as a test present still finds it so (`still_occluded`).
/// `covered` matters only for a surface that is up, and `still_occluded`
/// only for one that was found hidden; otherwise they are not looked at.
pub open spec fn spec_sight(
    enabled: bool,
    has_video: bool,
    shown: bool,
    occluded: bool,
    redraw: bool,
    covered: bool,
    still_occluded: bool,
) -> Sight {
    let wanted = enabled && has_video;
    let changed = wanted != shown;
    // Found hidden before, and not put up or taken down since.
    let hidden_before = !changed && occluded;
    let visible = wanted && !covered && !(hidden_before && still_occluded);
    Sight {
        visible,
        shown: wanted,
        occluded: hidden_before && (!wanted || covered || still_occluded),
        redraw: redraw || changed || (visible && hidden_before),
    }
}

/// See [`spec_sight`].
pub fn sight(
    enabled: bool,
    has_video: bool,
    shown: bool,
    occluded: bool,
    redraw: bool,
    covered: bool,
    still_occluded: bool,
) -> (r: Sight)
    ensures
        r == spec_sight(enabled, has_video, shown, occluded, redraw, covered, still_occluded),
{
    let wanted = enabled && has_video;
    let (sh, oc, rd) = if wanted != shown {
        (wanted, false, true)
    } else {
        (shown, occluded, redraw)
    };
    if !wanted || covered {
        Sight { visible: false, shown: sh, occluded: oc, redraw: rd }
    } else if oc && still_occluded {
        Sight { visible: false, shown: sh, occluded: true, redraw: rd }
    } else if oc {
        Sight { visible: true, shown: sh, occluded: false, redraw: true }
    } else {
        Sight { visible: true, shown: sh, occluded: false, redraw: rd }
    }
}

/// What a visible screen does on this pass.
#[derive(Debug, Clone, Copy, PartialEq, Eq, Structural)]
pub enum Present {
    /// Keep what is on the screen, with whether it must be drawn again
    /// when next it may be.
    Hold { redraw: bool },
    /// Draw and present a frame.
    Draw,
}

/// Whether a screen with a frame rate of its own has presented too recently
/// to present again: less than `1 / cap` seconds ago. `since_ns` is how
/// long ago it last presented, if ever.
pub open spec fn too_soon(cap: Option<u32>, since_ns: Option<u64>) -> bool {
    match (cap, since_ns) {
        (Some(c), Some(ns)) => c > 0 && (ns as int) * (c as int) < 1_000_000_000,
        _ => false,
    }
}

/// What a visible screen does on this pass. A screen with a rate of its own
/// (`cap`) holds its frame until that rate allows the next one, and a new
/// frame that arrived meanwhile is remembered (`fresh`), or the screen
/// would keep a stale frame until the next new one happened to land on an
/// allowed tick. A screen whose decoder has no frame yet holds. So does
/// one with no new frame, nothing to redraw, no fade under way and no drift
/// moving its picture: the pixels on it are already the right ones.
/// Anything else is drawn.
pub open spec fn spec_present(
    cap: Option<u32>,
    since_ns: Option<u64>,
    fresh: bool,
    redraw: bool,
    has_frame: bool,
    fading: bool,
    drifting: bool,
) -> Present {
    if !too_soon(cap, since_ns) && has_frame && (fresh || redraw || fading || drifting) {
        Present::Draw
    } else {
        Present::Hold { redraw: redraw || (too_soon(cap, since_ns) && fresh) }
    }
}

/// See [`spec_present`].
pub fn present(
    cap: Option<u32>,
    since_ns: Option<u64>,
    fresh: bool,
    redraw: bool,
    has_frame: bool,
    fading: bool,
    drifting: bool,
) -> (r: Present)
    ensures
        r == spec_present(cap, since_ns, fresh, redraw, has_frame, fading, drifting),
{
    let soon = match (cap, since_ns) {
        (Some(c), Some(ns)) => {
            assert((ns as int) * (c as int) <= u64::MAX as int * u32::MAX as int) by (nonlinear_arith)
                requires
                    ns <= u64::MAX,
                    c <= u32::MAX,
                    0 <= ns,
                    0 <= c,
            ;
            c > 0 && (ns as u128) * (c as u128) < 1_000_000_000
        },
        _ => false,
    };
    if soon {
        Present::Hold { redraw: redraw || fresh }
    } else if !has_frame || (!fresh && !redraw && !fading && !drifting) {
        Present::Hold { redraw }
    } else {
        Present::Draw
    }
}

/// What the render loop carries from one pass to the next, on the engine's
/// clock in milliseconds.
#[derive(Debug, Clone, Copy, PartialEq, Eq)]
pub struct LoopState {
    /// Whether the last pass drew nothing.
    pub paused: bool,
    /// Since when nothing has been drawn, if that is the case.
    pub hidden_since_ms: Option<u64>,
    /// Whether the decoders have been handed back.
    pub hibernating: bool,
    /// The colour last put on the desktop's chrome, if any.
    pub accented: Option<[u8; 3]>,
    /// When the rules were last looked at, if ever.
    pub rules_checked_ms: Option<u64>,
}

/// What happened on a pass.
#[derive(Debug, Clone, Copy, PartialEq, Eq)]
pub struct PassEvent {
    /// The engine's clock now, in milliseconds.
    pub now_ms: u64,
    /// Whether the wallpaper stands still (see [`stands_still`]).
    pub frozen: bool,
    /// How many screens are showing the wallpaper, drawn or holding.
    pub live: u32,
    /// Whether some screen still owes the frame it is to hold.
    pub owed: bool,
    /// How many frames were presented.
    pub presented: u32,
    /// The hibernation setting, in seconds.
    pub hibernate_secs: u64,
    /// Whether the accent colour follows the wallpaper.
    pub accent: bool,
    /// The colour sampled from what the primary screen shows, if it shows
    /// anything and a colour could be read.
    pub sampled: Option<[u8; 3]>,
    /// How many rules there are.
    pub rules: u32,
}

/// What the loop does about a pass.
#[derive(Debug, Clone, Copy, PartialEq, Eq)]
pub struct PassActions {
    /// Whether the pause state just changed, worth saying out loud.
    pub pause_changed: bool,
    /// Hand the decoders back (`Some(true)`) or reopen them
    /// (`Some(false)`).
    pub hibernate: Option<bool>,
    /// Every clip restarts with the decoders, so the playlists' loop
    /// counts and clocks start again.
    pub restart_playlists: bool,
    /// Put this colour on the desktop's chrome.
    pub write_accent: Option<[u8; 3]>,
    /// Look at the rules now.
    pub check_rules: bool,
    /// Whether the settings window needs telling.
    pub changed: bool,
}

/// How long nothing has been drawn, given since when.
pub open spec fn hidden_for(since: Option<u64>, now: u64) -> Option<u64> {
    match since {
        Some(s) => Some(if now >= s { (now - s) as u64 } else { 0 }),
        None => None,
    }
}

/// Everything one pass decides about what the loop carries.
///
/// - Nothing drawn (frozen, or no screen showing) is paused.
/// - While paused, the moment it began is kept; drawing again forgets it.
/// - The decoders are handed back as [`spec_hibernation_wanted`] says of
///   that time, and reopened when it no longer does; reopening restarts
///   every clip, and so every playlist's loop count and clock.
/// - With the accent on, a frame presented and the decoders open, a colour
///   sampled from the primary screen is written when
///   [`spec_accent_moved`] says it moved far enough, and remembered.
/// - The rules are looked at when [`spec_rules_due`] says so, and that
///   moment is remembered.
pub open spec fn spec_step(st: LoopState, ev: PassEvent) -> (LoopState, PassActions) {
    let paused = ev.frozen || ev.live == 0;
    let since = if paused {
        match st.hidden_since_ms {
            Some(s) => Some(s),
            None => Some(ev.now_ms),
        }
    } else {
        None
    };
    let idle = spec_hibernation_wanted(ev.hibernate_secs, paused, ev.owed, hidden_for(since, ev.now_ms));
    let toggled = idle != st.hibernating;
    let write = if ev.accent && ev.presented > 0 && !idle {
        match ev.sampled {
            Some(c) => if spec_accent_moved(st.accented, c) {
                Some(c)
            } else {
                None
            },
            None => None,
        }
    } else {
        None
    };
    let rules = spec_rules_due(ev.rules as nat, hidden_for(st.rules_checked_ms, ev.now_ms));
    (
        LoopState {
            paused,
            hidden_since_ms: since,
            hibernating: idle,
            accented: if write is Some { write } else { st.accented },
            rules_checked_ms: if rules { Some(ev.now_ms) } else { st.rules_checked_ms },
        },
        PassActions {
            pause_changed: paused != st.paused,
            hibernate: if toggled { Some(idle) } else { None },
            restart_playlists: toggled && !idle,
            write_accent: write,
            check_rules: rules,
            changed: paused != st.paused || toggled || write is Some,
        },
    )
}

/// One pass of the render loop's bookkeeping: see [`spec_step`].
pub fn step(st: LoopState, ev: PassEvent) -> (r: (LoopState, PassActions))
    ensures
        r == spec_step(st, ev),
{
    let paused = ev.frozen || ev.live == 0;
    let since: Option<u64> = if paused {
        match st.hidden_since_ms {
            Some(s) => Some(s),
            None => Some(ev.now_ms),
        }
    } else {
        None
    };
    let hidden: Option<u64> = match since {
        Some(s) => Some(if ev.now_ms >= s { ev.now_ms - s } else { 0 }),
        None => None,
    };
    let idle = hibernation_wanted(ev.hibernate_secs, paused, ev.owed, hidden);
    let toggled = idle != st.hibernating;
    let write: Option<[u8; 3]> = if ev.accent && ev.presented > 0 && !idle {
        match ev.sampled {
            Some(c) => if accent_moved(st.accented, c) {
                Some(c)
            } else {
                None
            },
            None => None,
        }
    } else {
        None
    };
    let checked: Option<u64> = match st.rules_checked_ms {
        Some(s) => Some(if ev.now_ms >= s { ev.now_ms - s } else { 0 }),
        None => None,
    };
    let rules = ev.rules > 0 && match checked {
        None => true,
        Some(ms) => ms >= RULES_POLL_MS,
    };
    let accented = match write {
        Some(c) => Some(c),
        None => st.accented,
    };
    (
        LoopState {
            paused,
            hidden_since_ms: since,
            hibernating: idle,
            accented,
            rules_checked_ms: if rules { Some(ev.now_ms) } else { st.rules_checked_ms },
        },
        PassActions {
            pause_changed: paused != st.paused,
            hibernate: if toggled { Some(idle) } else { None },
            restart_playlists: toggled && !idle,
            write_accent: write,
            check_rules: rules,
            changed: paused != st.paused || toggled || write.is_some(),
        },
    )
}

} // verus!

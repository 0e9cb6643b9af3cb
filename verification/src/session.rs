//! What the engine remembers between runs.
//!
//! At logon the engine comes up alone, and a wallpaper engine that starts
//! with no wallpaper is not one anybody would leave switched on. So it keeps
//! its own small file: what is on screen and the settings that shape it, one
//! line per fact, `<key> <value>`.
//!
//! The settings that are fractions (brightness, volume, speed and the rest)
//! are kept in whatever number type `F` the caller uses; reading one from
//! text, telling whether one is below zero and writing one back are the
//! caller's, handed in as functions.

pub mod round_trip;

use vstd::prelude::*;

use crate::compositor::render::{fit_name, spec_fit_parse, Fit, Motion, Overrides, Visual};
use crate::compositor::rules::{rules_view, Rule, Trigger};
use crate::compositor::scenes::{scene_view, Scene};
use crate::compositor::desktop::chars_before;
use crate::compositor::Sound;
use crate::power::apps::spec_parse_list;
use crate::power::battery::PowerPolicy;
use crate::text::{
    decimal, find, join, keep_nonempty, lines, parse_unsigned, push_char, push_decimal, push_str,
    same_str, split, split_once, string_views, views,
};

verus! {

broadcast use vstd::string::group_string_axioms;

// ---------------------------------------------------------------------------
// Reading numbers through the caller's functions
// ---------------------------------------------------------------------------

/// `read` has given `o` for some text with this view.
pub open spec fn gives<F, R: Fn(&str) -> Option<F>>(read: R, t: Seq<char>, o: Option<F>) -> bool {
    exists|a: &str| a@ == t && #[trigger] call_ensures(read, (a,), o)
}

/// What `read` gives for text with this view.
pub open spec fn reading<F, R: Fn(&str) -> Option<F>>(read: R, t: Seq<char>) -> Option<F> {
    choose|o: Option<F>| #[trigger] gives(read, t, o)
}

/// `read` can be asked about any text, and answers by the text alone.
pub open spec fn is_reader<F, R: Fn(&str) -> Option<F>>(read: R) -> bool {
    &&& forall|a: &str| #[trigger] call_requires(read, (a,))
    &&& forall|a: &str, b: &str, x: Option<F>, y: Option<F>|
        a@ == b@ && #[trigger] call_ensures(read, (a,), x) && #[trigger] call_ensures(read, (b,), y)
            ==> x == y
}

/// What the test `at_least_zero` says of `v`.
pub open spec fn holds<F, P: Fn(F) -> bool>(test: P, v: F) -> bool {
    call_ensures(test, (v,), true)
}

/// `test` can be asked about any number, and answers by the number alone.
pub open spec fn is_test<F, P: Fn(F) -> bool>(test: P) -> bool {
    &&& forall|v: F| #[trigger] call_requires(test, (v,))
    &&& forall|v: F, x: bool, y: bool|
        #[trigger] call_ensures(test, (v,), x) && #[trigger] call_ensures(test, (v,), y) ==> x == y
}

/// What `show` writes for `v`.
pub open spec fn shown<F, S: Fn(F) -> String>(show: S, v: F) -> Seq<char> {
    choose|t: Seq<char>| #[trigger] writes(show, v, t)
}

/// `show` has written text with this view for `v`.
pub open spec fn writes<F, S: Fn(F) -> String>(show: S, v: F, t: Seq<char>) -> bool {
    exists|s: String| s@ == t && #[trigger] call_ensures(show, (v,), s)
}

/// `show` can be asked about any number, and writes by the number alone.
pub open spec fn is_writer<F, S: Fn(F) -> String>(show: S) -> bool {
    &&& forall|v: F| #[trigger] call_requires(show, (v,))
    &&& forall|v: F, x: String, y: String|
        #[trigger] call_ensures(show, (v,), x) && #[trigger] call_ensures(show, (v,), y) ==> x@
            == y@
}

// ---------------------------------------------------------------------------
// The session
// ---------------------------------------------------------------------------

/// Everything worth restoring. `None` (or an empty list) is "not written
/// down", which is different from "off": the engine's own default applies.
#[derive(Debug, Clone)]
pub struct Session<F> {
    pub fps: Option<u32>,
    pub fit: Option<Fit>,
    pub interval_secs: Option<u64>,
    /// Whether a playlist plays in a drawn order rather than as written.
    pub shuffle: Option<bool>,
    pub visual: Option<Visual<F>>,
    pub sound: Option<Sound<F>>,
    pub power: Option<PowerPolicy>,
    pub speed: Option<F>,
    /// How long one wallpaper takes to replace another, in milliseconds.
    pub fade_ms: Option<u64>,
    pub span: Option<bool>,
    pub hotkeys: Option<bool>,
    /// How long out of sight before the decoders are handed back.
    pub hibernate_secs: Option<u64>,
    /// How far the wallpaper answers to sound and to the cursor.
    pub motion: Option<Motion<F>>,
    /// A memory budget in megabytes; 0 or absent is none.
    pub memory_mb: Option<u32>,
    /// How long the machine may sit untouched before the wallpaper stands
    /// still.
    pub idle_secs: Option<u64>,
    /// The frame rate while the machine is busy with something else.
    pub busy_fps: Option<u32>,
    /// Whether Windows' reduce-motion setting is honoured.
    pub reduce_motion: Option<bool>,
    /// How far a photograph drifts on its own.
    pub drift: Option<F>,
    /// Whether the Windows accent colour follows the wallpaper.
    pub accent: Option<bool>,
    /// Applications that freeze the wallpaper while they are in front.
    pub apps: Vec<String>,
    /// Wallpapers that change themselves.
    pub rules: Vec<Rule>,
    /// Named arrangements of wallpapers across the screens.
    pub scenes: Vec<Scene>,
    /// Each shader file's own settings, by path; one entry per path, and
    /// one value per setting name.
    pub shader_params: Vec<(String, Vec<(String, F)>)>,
    /// Settings a monitor keeps for itself, by device name; one entry per
    /// name.
    pub overrides: Vec<(String, Overrides<F>)>,
    /// Per monitor: its device name, whether it is on, and its playlist.
    pub monitors: Vec<(String, bool, Vec<String>)>,
}

/// A session as plain values.
pub struct SessionView<F> {
    pub fps: Option<u32>,
    pub fit: Option<Fit>,
    pub interval_secs: Option<u64>,
    pub shuffle: Option<bool>,
    pub visual: Option<Visual<F>>,
    pub sound: Option<Sound<F>>,
    pub power: Option<PowerPolicy>,
    pub speed: Option<F>,
    pub fade_ms: Option<u64>,
    pub span: Option<bool>,
    pub hotkeys: Option<bool>,
    pub hibernate_secs: Option<u64>,
    pub motion: Option<Motion<F>>,
    pub memory_mb: Option<u32>,
    pub idle_secs: Option<u64>,
    pub busy_fps: Option<u32>,
    pub reduce_motion: Option<bool>,
    pub drift: Option<F>,
    pub accent: Option<bool>,
    pub apps: Seq<Seq<char>>,
    pub rules: Seq<(Trigger, Seq<Seq<char>>)>,
    pub scenes: Seq<(Seq<char>, Seq<(Seq<char>, Seq<Seq<char>>)>)>,
    pub shader_params: Seq<(Seq<char>, Seq<(Seq<char>, F)>)>,
    pub overrides: Seq<(Seq<char>, Overrides<F>)>,
    pub monitors: Seq<(Seq<char>, bool, Seq<Seq<char>>)>,
}

/// Pairs keyed by a string, as plain values.
pub open spec fn pairs_view<F>(v: Seq<(String, F)>) -> Seq<(Seq<char>, F)> {
    v.map_values(|e: (String, F)| (e.0@, e.1))
}

pub open spec fn params_view<F>(p: (String, Vec<(String, F)>)) -> (Seq<char>, Seq<(Seq<char>, F)>) {
    (p.0@, p.1@.map_values(|v: (String, F)| (v.0@, v.1)))
}

pub open spec fn all_params_view<F>(v: Seq<(String, Vec<(String, F)>)>) -> Seq<
    (Seq<char>, Seq<(Seq<char>, F)>),
> {
    v.map_values(|p: (String, Vec<(String, F)>)| params_view(p))
}

pub open spec fn monitor_view(m: (String, bool, Vec<String>)) -> (Seq<char>, bool, Seq<Seq<char>>) {
    (m.0@, m.1, string_views(m.2@))
}

pub open spec fn session_view<F>(s: Session<F>) -> SessionView<F> {
    SessionView {
        fps: s.fps,
        fit: s.fit,
        interval_secs: s.interval_secs,
        shuffle: s.shuffle,
        visual: s.visual,
        sound: s.sound,
        power: s.power,
        speed: s.speed,
        fade_ms: s.fade_ms,
        span: s.span,
        hotkeys: s.hotkeys,
        hibernate_secs: s.hibernate_secs,
        motion: s.motion,
        memory_mb: s.memory_mb,
        idle_secs: s.idle_secs,
        busy_fps: s.busy_fps,
        reduce_motion: s.reduce_motion,
        drift: s.drift,
        accent: s.accent,
        apps: string_views(s.apps@),
        rules: rules_view(s.rules@),
        scenes: s.scenes@.map_values(|x: Scene| scene_view(x)),
        shader_params: all_params_view(s.shader_params@),
        overrides: pairs_view(s.overrides@),
        monitors: s.monitors@.map_values(|m: (String, bool, Vec<String>)| monitor_view(m)),
    }
}

/// Nothing written down.
pub open spec fn empty_view<F>() -> SessionView<F> {
    SessionView {
        fps: None,
        fit: None,
        interval_secs: None,
        shuffle: None,
        visual: None,
        sound: None,
        power: None,
        speed: None,
        fade_ms: None,
        span: None,
        hotkeys: None,
        hibernate_secs: None,
        motion: None,
        memory_mb: None,
        idle_secs: None,
        busy_fps: None,
        reduce_motion: None,
        drift: None,
        accent: None,
        apps: Seq::empty(),
        rules: Seq::empty(),
        scenes: Seq::empty(),
        shader_params: Seq::empty(),
        overrides: Seq::empty(),
        monitors: Seq::empty(),
    }
}

// ---------------------------------------------------------------------------
// Reading the file
// ---------------------------------------------------------------------------

/// The numbers among these tokens, in order; a token that is not one is
/// left out.
pub open spec fn numbers<F>(tokens: Seq<Seq<char>>, rd: spec_fn(Seq<char>) -> Option<F>) -> Seq<F>
    decreases tokens.len(),
{
    if tokens.len() == 0 {
        Seq::empty()
    } else {
        let rest = numbers(tokens.drop_last(), rd);
        match rd(tokens.last()) {
            Some(v) => rest.push(v),
            None => rest,
        }
    }
}

/// The keys of a list of entries.
pub open spec fn keys_of<V>(entries: Seq<(Seq<char>, V)>) -> Seq<Seq<char>> {
    entries.map_values(|e: (Seq<char>, V)| e.0)
}

/// The position of the first `key` among `keys`, if there is one.
pub open spec fn key_index(keys: Seq<Seq<char>>, key: Seq<char>) -> Option<int>
    decreases keys.len(),
{
    if keys.len() == 0 {
        None
    } else {
        match key_index(keys.drop_last(), key) {
            Some(i) => Some(i),
            None => if keys.last() == key {
                Some(keys.len() - 1)
            } else {
                None
            },
        }
    }
}

/// `entries` with the value for `key` set: replaced where the key already
/// has an entry, added at the end where it does not.
pub open spec fn put<V>(entries: Seq<(Seq<char>, V)>, key: Seq<char>, value: V) -> Seq<
    (Seq<char>, V),
> {
    match key_index(keys_of(entries), key) {
        Some(i) => entries.update(i, (key, value)),
        None => entries.push((key, value)),
    }
}

/// A shader's settings, `<name>=<value>` each: the last value given for a
/// name is the one kept, and a field that is not a name and a number is
/// skipped.
pub open spec fn param_values<F>(fields: Seq<Seq<char>>, rd: spec_fn(Seq<char>) -> Option<F>) -> Seq<
    (Seq<char>, F),
>
    decreases fields.len(),
{
    if fields.len() == 0 {
        Seq::empty()
    } else {
        let rest = param_values(fields.drop_last(), rd);
        match split_once(fields.last(), '=') {
            Some((name, value)) => match rd(value) {
                Some(v) => put(rest, name, v),
                None => rest,
            },
            None => rest,
        }
    }
}

/// `sound <on|off> <volume> [duck]`. An unreadable volume is a half; a
/// line without the third field is last week's, and ducks.
pub open spec fn sound_line<F>(value: Seq<char>, rd: spec_fn(Seq<char>) -> Option<F>, half: F) -> Option<
    Sound<F>,
> {
    let parts = split(value, ' ');
    if parts.len() < 2 {
        None
    } else {
        Some(
            Sound {
                enabled: parts[0] == "on"@,
                volume: match rd(parts[1]) {
                    Some(v) => v,
                    None => half,
                },
                duck: !(parts.len() >= 3 && parts[2] != "on"@),
            },
        )
    }
}

/// `power <battery_fps> <freeze_on_saver>`; an unreadable rate is 24.
pub open spec fn power_line(value: Seq<char>) -> Option<PowerPolicy> {
    match split_once(value, ' ') {
        Some((fps, freeze)) => Some(
            PowerPolicy {
                battery_fps: match parse_unsigned(fps, u32::MAX as nat) {
                    Some(n) => n as u32,
                    None => 24,
                },
                pause_on_saver: freeze == "on"@,
            },
        ),
        None => None,
    }
}

/// `own <monitor> <fit|-> <fps> <brightness|-> <saturation> <blur>`: the
/// monitor and its settings, or `None` for a line without exactly six
/// fields. A fit that is not one, or a frame rate of zero, is "the
/// desktop's"; so is a brightness that is not a number at least zero.
pub open spec fn own_line<F>(
    value: Seq<char>,
    rd: spec_fn(Seq<char>) -> Option<F>,
    nonneg: spec_fn(F) -> bool,
    one: F,
    zero: F,
) -> Option<(Seq<char>, Overrides<F>)> {
    let parts = split(value, ' ');
    if parts.len() != 6 {
        None
    } else {
        let visual = match rd(parts[3]) {
            Some(b) => if nonneg(b) {
                Some(
                    Visual {
                        brightness: b,
                        saturation: match rd(parts[4]) {
                            Some(v) => v,
                            None => one,
                        },
                        blur: match rd(parts[5]) {
                            Some(v) => v,
                            None => zero,
                        },
                    },
                )
            } else {
                None
            },
            None => None,
        };
        Some(
            (
                parts[0],
                Overrides {
                    fit: spec_fit_parse(parts[1]),
                    fps: match parse_unsigned(parts[2], u32::MAX as nat) {
                        Some(n) => if n > 0 {
                            Some(n as u32)
                        } else {
                            None
                        },
                        None => None,
                    },
                    visual,
                },
            ),
        )
    }
}

/// `monitor <name> <enabled> <path>|<path>`: the playlist may be missing
/// entirely, which is an empty one.
pub open spec fn monitor_line(value: Seq<char>) -> Option<(Seq<char>, bool, Seq<Seq<char>>)> {
    match split_once(value, ' ') {
        None => None,
        Some((name, rest)) => {
            let (enabled, list) = match split_once(rest, ' ') {
                Some((e, l)) => (e, l),
                None => (rest, Seq::empty()),
            };
            Some((name, enabled == "true"@, keep_nonempty(split(list, '|'))))
        },
    }
}

/// `sparam <path>|<name>=<value>|...`: the path and its settings, when the
/// path is there and at least one setting reads.
pub open spec fn sparam_line<F>(value: Seq<char>, rd: spec_fn(Seq<char>) -> Option<F>) -> Option<
    (Seq<char>, Seq<(Seq<char>, F)>),
> {
    let parts = split(value, '|');
    let values = param_values(parts.drop_first(), rd);
    if parts[0].len() == 0 || values.len() == 0 {
        None
    } else {
        Some((parts[0], values))
    }
}

pub open spec fn u32_of(value: Seq<char>) -> Option<u32> {
    match parse_unsigned(value, u32::MAX as nat) {
        Some(n) => Some(n as u32),
        None => None,
    }
}

pub open spec fn u64_of(value: Seq<char>) -> Option<u64> {
    match parse_unsigned(value, u64::MAX as nat) {
        Some(n) => Some(n as u64),
        None => None,
    }
}

/// What one `<key> <value>` line does to what has been read so far.
/// Unknown keys change nothing.
pub open spec fn apply_key<F>(
    s: SessionView<F>,
    key: Seq<char>,
    value: Seq<char>,
    rd: spec_fn(Seq<char>) -> Option<F>,
    nonneg: spec_fn(F) -> bool,
    half: F,
    one: F,
    zero: F,
) -> SessionView<F> {
    if key == "fps"@ {
        SessionView { fps: u32_of(value), ..s }
    } else if key == "fit"@ {
        SessionView { fit: spec_fit_parse(value), ..s }
    } else if key == "interval"@ {
        SessionView { interval_secs: u64_of(value), ..s }
    } else if key == "shuffle"@ {
        SessionView { shuffle: Some(value == "on"@), ..s }
    } else if key == "visual"@ {
        let n = numbers(split(value, ' '), rd);
        if n.len() == 3 {
            SessionView { visual: Some(Visual { brightness: n[0], saturation: n[1], blur: n[2] }), ..s }
        } else {
            s
        }
    } else if key == "sound"@ {
        match sound_line(value, rd, half) {
            Some(sound) => SessionView { sound: Some(sound), ..s },
            None => s,
        }
    } else if key == "power"@ {
        match power_line(value) {
            Some(power) => SessionView { power: Some(power), ..s },
            None => s,
        }
    } else if key == "speed"@ {
        SessionView { speed: rd(value), ..s }
    } else if key == "fade"@ {
        SessionView { fade_ms: u64_of(value), ..s }
    } else if key == "span"@ {
        SessionView { span: Some(value == "on"@), ..s }
    } else if key == "hotkeys"@ {
        SessionView { hotkeys: Some(value == "on"@), ..s }
    } else if key == "hibernate"@ {
        SessionView { hibernate_secs: u64_of(value), ..s }
    } else if key == "memory"@ {
        SessionView { memory_mb: u32_of(value), ..s }
    } else if key == "idle"@ {
        SessionView { idle_secs: u64_of(value), ..s }
    } else if key == "busy"@ {
        SessionView { busy_fps: u32_of(value), ..s }
    } else if key == "reducemotion"@ {
        SessionView { reduce_motion: Some(value == "on"@), ..s }
    } else if key == "drift"@ {
        SessionView { drift: rd(value), ..s }
    } else if key == "accent"@ {
        SessionView { accent: Some(value == "on"@), ..s }
    } else if key == "apps"@ {
        SessionView { apps: spec_parse_list(value), ..s }
    } else if key == "rules"@ {
        SessionView { rules: crate::compositor::rules::spec_parse(value), ..s }
    } else if key == "scene"@ {
        match crate::compositor::scenes::spec_parse(value) {
            Some(scene) => SessionView { scenes: s.scenes.push(scene), ..s },
            None => s,
        }
    } else if key == "sparam"@ {
        match sparam_line(value, rd) {
            Some((path, values)) => SessionView {
                shader_params: put(s.shader_params, path, values),
                ..s
            },
            None => s,
        }
    } else if key == "motion"@ {
        let n = numbers(split(value, ' '), rd);
        if n.len() == 2 {
            SessionView { motion: Some(Motion { reactive: n[0], parallax: n[1] }), ..s }
        } else {
            s
        }
    } else if key == "own"@ {
        match own_line(value, rd, nonneg, one, zero) {
            Some((name, own)) => SessionView { overrides: put(s.overrides, name, own), ..s },
            None => s,
        }
    } else if key == "monitor"@ {
        match monitor_line(value) {
            Some(m) => SessionView { monitors: s.monitors.push(m), ..s },
            None => s,
        }
    } else {
        s
    }
}

/// Every line in turn, from nothing written down. A line without a space
/// is skipped, not fatal: one blank line must not cost every wallpaper.
pub open spec fn read_lines<F>(
    ls: Seq<Seq<char>>,
    rd: spec_fn(Seq<char>) -> Option<F>,
    nonneg: spec_fn(F) -> bool,
    half: F,
    one: F,
    zero: F,
) -> SessionView<F>
    decreases ls.len(),
{
    if ls.len() == 0 {
        empty_view()
    } else {
        let s = read_lines(ls.drop_last(), rd, nonneg, half, one, zero);
        match split_once(ls.last(), ' ') {
            Some((key, value)) => apply_key(s, key, value, rd, nonneg, half, one, zero),
            None => s,
        }
    }
}

/// `read` as a function of the text.
pub open spec fn reader_fn<F, R: Fn(&str) -> Option<F>>(read: R) -> spec_fn(Seq<char>) -> Option<F> {
    |t: Seq<char>| reading(read, t)
}

/// `test` as a function of the number.
pub open spec fn tester_fn<F, P: Fn(F) -> bool>(test: P) -> spec_fn(F) -> bool {
    |v: F| holds(test, v)
}

/// The session a file's text describes.
pub open spec fn spec_parse<F>(
    text: Seq<char>,
    rd: spec_fn(Seq<char>) -> Option<F>,
    nonneg: spec_fn(F) -> bool,
    half: F,
    one: F,
    zero: F,
) -> SessionView<F> {
    read_lines(lines(text), rd, nonneg, half, one, zero)
}

// ---------------------------------------------------------------------------
// Writing the file
// ---------------------------------------------------------------------------

/// `show` as a function of the number.
pub open spec fn writer_fn<F, S: Fn(F) -> String>(show: S) -> spec_fn(F) -> Seq<char> {
    |v: F| shown(show, v)
}

pub open spec fn on_off(b: bool) -> Seq<char> {
    if b {
        "on"@
    } else {
        "off"@
    }
}

pub open spec fn true_false(b: bool) -> Seq<char> {
    if b {
        "true"@
    } else {
        "false"@
    }
}

/// `<key> <n>` and a newline, or nothing for a value not written down.
pub open spec fn number_line(key: Seq<char>, v: Option<nat>) -> Seq<char> {
    match v {
        Some(n) => key + seq![' '] + decimal(n) + seq!['\n'],
        None => Seq::empty(),
    }
}

/// `<key> on` or `<key> off` and a newline, or nothing.
pub open spec fn flag_line(key: Seq<char>, v: Option<bool>) -> Seq<char> {
    match v {
        Some(b) => key + seq![' '] + on_off(b) + seq!['\n'],
        None => Seq::empty(),
    }
}

/// `<key> <number>` and a newline, or nothing.
pub open spec fn fraction_line<F>(key: Seq<char>, v: Option<F>, show: spec_fn(F) -> Seq<char>) -> Seq<
    char,
> {
    match v {
        Some(x) => key + seq![' '] + show(x) + seq!['\n'],
        None => Seq::empty(),
    }
}

pub open spec fn nat_of_u32(v: Option<u32>) -> Option<nat> {
    match v {
        Some(n) => Some(n as nat),
        None => None,
    }
}

pub open spec fn nat_of_u64(v: Option<u64>) -> Option<nat> {
    match v {
        Some(n) => Some(n as nat),
        None => None,
    }
}

pub open spec fn fit_line(fit: Option<Fit>) -> Seq<char> {
    match fit {
        Some(f) => "fit "@ + fit_name(f) + seq!['\n'],
        None => Seq::empty(),
    }
}

pub open spec fn visual_line<F>(visual: Option<Visual<F>>, show3: spec_fn(F) -> Seq<char>) -> Seq<char> {
    match visual {
        Some(v) => "visual "@ + show3(v.brightness) + seq![' '] + show3(v.saturation) + seq![' ']
            + show3(v.blur) + seq!['\n'],
        None => Seq::empty(),
    }
}

pub open spec fn sound_text<F>(sound: Option<Sound<F>>, show3: spec_fn(F) -> Seq<char>) -> Seq<char> {
    match sound {
        Some(v) => "sound "@ + on_off(v.enabled) + seq![' '] + show3(v.volume) + seq![' '] + on_off(
            v.duck,
        ) + seq!['\n'],
        None => Seq::empty(),
    }
}

pub open spec fn power_text(power: Option<PowerPolicy>) -> Seq<char> {
    match power {
        Some(p) => "power "@ + decimal(p.battery_fps as nat) + seq![' '] + on_off(p.pause_on_saver)
            + seq!['\n'],
        None => Seq::empty(),
    }
}

pub open spec fn motion_text<F>(motion: Option<Motion<F>>, show3: spec_fn(F) -> Seq<char>) -> Seq<char> {
    match motion {
        Some(m) => "motion "@ + show3(m.reactive) + seq![' '] + show3(m.parallax) + seq!['\n'],
        None => Seq::empty(),
    }
}

/// The first block: frame rate, fit, interval, shuffle, grade, sound and
/// power. Fractions are written with `show3`.
pub open spec fn first_block<F>(s: SessionView<F>, show3: spec_fn(F) -> Seq<char>) -> Seq<char> {
    number_line("fps"@, nat_of_u32(s.fps)) + fit_line(s.fit) + number_line(
        "interval"@,
        nat_of_u64(s.interval_secs),
    ) + flag_line("shuffle"@, s.shuffle) + visual_line(s.visual, show3) + sound_text(
        s.sound,
        show3,
    ) + power_text(s.power)
}

/// The second block: speed (with `show2`), fade, span, hot keys,
/// hibernation, motion, memory, idling, the busy rate, reduced motion,
/// drift and accent.
pub open spec fn second_block<F>(
    s: SessionView<F>,
    show3: spec_fn(F) -> Seq<char>,
    show2: spec_fn(F) -> Seq<char>,
) -> Seq<char> {
    fraction_line("speed"@, s.speed, show2) + number_line("fade"@, nat_of_u64(s.fade_ms))
        + flag_line("span"@, s.span) + flag_line("hotkeys"@, s.hotkeys) + number_line(
        "hibernate"@,
        nat_of_u64(s.hibernate_secs),
    ) + motion_text(s.motion, show3) + number_line("memory"@, nat_of_u32(s.memory_mb))
        + number_line("idle"@, nat_of_u64(s.idle_secs)) + number_line(
        "busy"@,
        nat_of_u32(s.busy_fps),
    ) + flag_line("reducemotion"@, s.reduce_motion) + fraction_line("drift"@, s.drift, show3)
        + flag_line("accent"@, s.accent)
}

/// Whether a list of texts is in order, each no later than the next.
pub open spec fn is_sorted_texts(t: Seq<Seq<char>>) -> bool {
    forall|i: int, j: int|
        0 <= i < j < t.len() ==> !chars_before(#[trigger] t[j], #[trigger] t[i])
}

/// These texts in order. There is only one such arrangement
/// (`lemma_sorted_texts_unique`).
pub open spec fn sorted_texts(t: Seq<Seq<char>>) -> Seq<Seq<char>> {
    choose|u: Seq<Seq<char>>| is_sorted_texts(u) && u.to_multiset() == t.to_multiset()
}

/// `<name>=<value>` for each setting of a shader, with `show`.
pub open spec fn param_fields<F>(values: Seq<(Seq<char>, F)>, show: spec_fn(F) -> Seq<char>) -> Seq<
    Seq<char>,
> {
    values.map_values(|v: (Seq<char>, F)| v.0 + seq!['='] + show(v.1))
}

/// `sparam <path>|<name>=<value>|...`, the settings sorted so that a file
/// written every time a setting changes does not shuffle its own lines.
pub open spec fn param_line<F>(p: (Seq<char>, Seq<(Seq<char>, F)>), show: spec_fn(F) -> Seq<char>) -> Seq<
    char,
> {
    "sparam "@ + p.0 + seq!['|'] + join(sorted_texts(param_fields(p.1, show)), seq!['|']) + seq![
        '\n',
    ]
}

pub open spec fn param_lines<F>(ps: Seq<(Seq<char>, Seq<(Seq<char>, F)>)>, show: spec_fn(F) -> Seq<char>) -> Seq<
    char,
>
    decreases ps.len(),
{
    if ps.len() == 0 {
        Seq::empty()
    } else {
        param_lines(ps.drop_last(), show) + param_line(ps.last(), show)
    }
}

pub open spec fn scene_lines(scenes: Seq<(Seq<char>, Seq<(Seq<char>, Seq<Seq<char>>)>)>) -> Seq<char>
    decreases scenes.len(),
{
    if scenes.len() == 0 {
        Seq::empty()
    } else {
        scene_lines(scenes.drop_last()) + "scene "@ + crate::compositor::scenes::spec_written_form(
            scenes.last(),
        ) + seq!['\n']
    }
}

/// `own <monitor> <fit|-> <fps> <brightness> <saturation> <blur>`. A
/// monitor without a grade of its own writes `minus_one` for the
/// brightness and the neutral grade (`one`, `one`, `zero`) for the rest.
pub open spec fn own_text<F>(
    o: (Seq<char>, Overrides<F>),
    show3: spec_fn(F) -> Seq<char>,
    minus_one: F,
    one: F,
    zero: F,
) -> Seq<char> {
    let v = match o.1.visual {
        Some(v) => v,
        None => Visual { brightness: minus_one, saturation: one, blur: zero },
    };
    "own "@ + o.0 + seq![' '] + match o.1.fit {
        Some(f) => fit_name(f),
        None => seq!['-'],
    } + seq![' '] + decimal(
        match o.1.fps {
            Some(n) => n as nat,
            None => 0,
        },
    ) + seq![' '] + show3(v.brightness) + seq![' '] + show3(v.saturation) + seq![' '] + show3(
        v.blur,
    ) + seq!['\n']
}

pub open spec fn own_lines<F>(
    os: Seq<(Seq<char>, Overrides<F>)>,
    show3: spec_fn(F) -> Seq<char>,
    minus_one: F,
    one: F,
    zero: F,
) -> Seq<char>
    decreases os.len(),
{
    if os.len() == 0 {
        Seq::empty()
    } else {
        own_lines(os.drop_last(), show3, minus_one, one, zero) + own_text(
            os.last(),
            show3,
            minus_one,
            one,
            zero,
        )
    }
}

pub open spec fn monitor_lines(ms: Seq<(Seq<char>, bool, Seq<Seq<char>>)>) -> Seq<char>
    decreases ms.len(),
{
    if ms.len() == 0 {
        Seq::empty()
    } else {
        monitor_lines(ms.drop_last()) + "monitor "@ + ms.last().0 + seq![' '] + true_false(
            ms.last().1,
        ) + seq![' '] + join(ms.last().2, seq!['|']) + seq!['\n']
    }
}

/// The file's text: one line per setting written down, then the lists.
pub open spec fn spec_written_form<F>(
    s: SessionView<F>,
    show3: spec_fn(F) -> Seq<char>,
    show2: spec_fn(F) -> Seq<char>,
    show: spec_fn(F) -> Seq<char>,
    minus_one: F,
    one: F,
    zero: F,
) -> Seq<char> {
    first_block(s, show3) + second_block(s, show3, show2) + (if s.apps.len() > 0 {
        "apps "@ + join(s.apps, seq!['|']) + seq!['\n']
    } else {
        Seq::empty()
    }) + scene_lines(s.scenes) + param_lines(s.shader_params, show) + (if s.rules.len() > 0 {
        "rules "@ + crate::compositor::rules::spec_written_form(s.rules) + seq!['\n']
    } else {
        Seq::empty()
    }) + own_lines(s.overrides, show3, minus_one, one, zero) + monitor_lines(s.monitors)
}

// ---------------------------------------------------------------------------
// Reading, executably
// ---------------------------------------------------------------------------

pub(crate) proof fn lemma_key_index_bounds(keys: Seq<Seq<char>>, key: Seq<char>)
    ensures
        key_index(keys, key) matches Some(i) ==> 0 <= i < keys.len() && keys[i] == key,
        key_index(keys, key) is None ==> forall|j: int| 0 <= j < keys.len() ==> keys[j] != key,
        key_index(keys, key) matches Some(i) ==> forall|j: int| 0 <= j < i ==> keys[j] != key,
    decreases keys.len(),
{
    if keys.len() > 0 {
        lemma_key_index_bounds(keys.drop_last(), key);
        assert forall|j: int| 0 <= j < keys.len() - 1 implies keys[j] == keys.drop_last()[j] by {}
    }
}

pub(crate) proof fn lemma_key_index_at(keys: Seq<Seq<char>>, key: Seq<char>, i: int)
    requires
        0 <= i < keys.len(),
        keys[i] == key,
        forall|j: int| 0 <= j < i ==> keys[j] != key,
    ensures
        key_index(keys, key) == Some(i),
    decreases keys.len(),
{
    if i < keys.len() - 1 {
        lemma_key_index_at(keys.drop_last(), key, i);
    } else {
        lemma_key_index_bounds(keys.drop_last(), key);
        assert forall|j: int| 0 <= j < keys.len() - 1 implies keys.drop_last()[j] != key by {
            assert(keys.drop_last()[j] == keys[j]);
        }
    }
}

pub(crate) proof fn lemma_key_index_none(keys: Seq<Seq<char>>, key: Seq<char>)
    requires
        forall|j: int| 0 <= j < keys.len() ==> keys[j] != key,
    ensures
        key_index(keys, key) is None,
    decreases keys.len(),
{
    if keys.len() > 0 {
        assert forall|j: int| 0 <= j < keys.len() - 1 implies keys.drop_last()[j] != key by {
            assert(keys.drop_last()[j] == keys[j]);
        }
        lemma_key_index_none(keys.drop_last(), key);
    }
}

/// The device names (or paths, or setting names) of a list of entries.
pub open spec fn string_keys<V>(entries: Seq<(String, V)>) -> Seq<Seq<char>> {
    entries.map_values(|e: (String, V)| e.0@)
}

/// Set the value for `key`: replace it where the key already has an
/// entry, and add it at the end where it does not.
pub(crate) fn put_entry<V>(entries: &mut Vec<(String, V)>, key: String, value: V)
    ensures
        final(entries)@ == match key_index(string_keys(old(entries)@), key@) {
            Some(i) => old(entries)@.update(i, (key, value)),
            None => old(entries)@.push((key, value)),
        },
{
    let ghost keys = string_keys(entries@);
    let n = entries.len();
    let mut i: usize = 0;
    while i < n
        invariant
            n == entries@.len(),
            entries@ == old(entries)@,
            keys == string_keys(entries@),
            i <= n,
            forall|j: int| 0 <= j < i ==> keys[j] != key@,
        decreases n - i,
    {
        let same = crate::text::same_string(&entries[i].0, &key);
        if same {
            proof {
                assert(keys[i as int] == key@);
                lemma_key_index_at(keys, key@, i as int);
            }
            entries.set(i, (key, value));
            return;
        }
        assert(keys[i as int] != key@);
        i = i + 1;
    }
    proof {
        lemma_key_index_none(keys, key@);
    }
    entries.push((key, value));
}

/// What `read` gives for these characters.
pub(crate) fn read_text<F, R: Fn(&str) -> Option<F>>(read: &R, t: &[char]) -> (r: Option<F>)
    requires
        is_reader(*read),
    ensures
        r == reading(*read, t@),
{
    let s = crate::text::string_of(t);
    let o = read(s.as_str());
    proof {
        assert(gives(*read, t@, o));
        let chosen = reading(*read, t@);
        let a = choose|a: &str| a@ == t@ && #[trigger] call_ensures(*read, (a,), chosen);
        assert(call_ensures(*read, (a,), chosen));
    }
    o
}

/// What `test` says of `v`.
pub(crate) fn test_number<F, P: Fn(F) -> bool>(test: &P, v: F) -> (r: bool)
    requires
        is_test(*test),
    ensures
        r == holds(*test, v),
{
    let r = test(v);
    proof {
        if !r {
            if call_ensures(*test, (v,), true) {
                assert(call_ensures(*test, (v,), false));
            }
        }
    }
    r
}


pub(crate) fn u32_exec(value: &[char]) -> (r: Option<u32>)
    ensures
        r == u32_of(value@),
{
    match crate::text::parse_unsigned_vec(value, 0xFFFF_FFFF) {
        Some(n) => Some(n as u32),
        None => None,
    }
}

pub(crate) fn u64_exec(value: &[char]) -> (r: Option<u64>)
    ensures
        r == u64_of(value@),
{
    crate::text::parse_unsigned_vec(value, 0xFFFF_FFFF_FFFF_FFFF)
}

/// The numbers among the tokens, in order.
pub(crate) fn numbers_of<F: Copy, R: Fn(&str) -> Option<F>>(tokens: &Vec<Vec<char>>, read: &R) -> (r: Vec<F>)
    requires
        is_reader(*read),
    ensures
        r@ == numbers(crate::text::views(tokens@), reader_fn(*read)),
{
    let ghost all = crate::text::views(tokens@);
    let mut out: Vec<F> = Vec::new();
    let mut i: usize = 0;
    while i < tokens.len()
        invariant
            i <= tokens@.len(),
            all == crate::text::views(tokens@),
            is_reader(*read),
            out@ == numbers(all.take(i as int), reader_fn(*read)),
        decreases tokens@.len() - i,
    {
        let got = read_text(read, tokens[i].as_slice());
        assert(all.take(i + 1).drop_last() =~= all.take(i as int));
        assert(all.take(i + 1).last() == tokens@[i as int]@);
        match got {
            Some(v) => out.push(v),
            None => {},
        }
        i = i + 1;
    }
    assert(all.take(i as int) =~= all);
    out
}

/// A shader's settings from its `<name>=<value>` fields.
pub(crate) fn param_values_of<F: Copy, R: Fn(&str) -> Option<F>>(
    fields: &Vec<Vec<char>>,
    from: usize,
    read: &R,
) -> (r: Vec<(String, F)>)
    requires
        is_reader(*read),
        from <= fields@.len(),
    ensures
        pairs_view(r@) == param_values(crate::text::views(fields@).skip(from as int), reader_fn(*read)),
{
    let ghost all = crate::text::views(fields@).skip(from as int);
    let mut out: Vec<(String, F)> = Vec::new();
    let mut i: usize = from;
    assert(pairs_view(out@) =~= Seq::<(Seq<char>, F)>::empty());
    while i < fields.len()
        invariant
            from <= i <= fields@.len(),
            all == crate::text::views(fields@).skip(from as int),
            is_reader(*read),
            pairs_view(out@) == param_values(all.take(i - from), reader_fn(*read)),
        decreases fields@.len() - i,
    {
        let ghost before = out@;
        let ghost done = all.take(i - from);
        proof {
            assert(all.take(i - from + 1).drop_last() =~= done);
            assert(all.take(i - from + 1).last() == fields@[i as int]@);
        }
        match crate::text::split_once_vec(fields[i].as_slice(), '=') {
            Some((name, value)) => {
                match read_text(read, value.as_slice()) {
                    Some(v) => {
                        let key = crate::text::string_of(name.as_slice());
                        put_entry(&mut out, key, v);
                        proof {
                            assert(string_keys(before) =~= keys_of(pairs_view(before)));
                            lemma_key_index_bounds(string_keys(before), name@);
                            match key_index(string_keys(before), name@) {
                                Some(k) => {
                                    assert(pairs_view(out@) =~= pairs_view(before).update(k, (name@, v)));
                                },
                                None => {
                                    assert(pairs_view(out@) =~= pairs_view(before).push((name@, v)));
                                },
                            }
                        }
                    },
                    None => {},
                }
            },
            None => {},
        }
        i = i + 1;
    }
    assert(all.take(i - from) =~= all);
    out
}

/// The fit a name stands for.
fn fit_of(value: &[char]) -> (r: Option<Fit>)
    ensures
        r == spec_fit_parse(value@),
{
    let text = crate::text::string_of(value);
    Fit::parse(text.as_str())
}

fn visual_exec<F: Copy, R: Fn(&str) -> Option<F>>(value: &[char], read: &R) -> (r: Option<Visual<F>>)
    requires
        is_reader(*read),
    ensures
        ({
            let n = numbers(split(value@, ' '), reader_fn(*read));
            r == if n.len() == 3 {
                Some(Visual { brightness: n[0], saturation: n[1], blur: n[2] })
            } else {
                None
            }
        }),
{
    let tokens = crate::text::split_vec(value, ' ');
    let n = numbers_of(&tokens, read);
    if n.len() == 3 {
        Some(Visual { brightness: n[0], saturation: n[1], blur: n[2] })
    } else {
        None
    }
}

fn motion_exec<F: Copy, R: Fn(&str) -> Option<F>>(value: &[char], read: &R) -> (r: Option<Motion<F>>)
    requires
        is_reader(*read),
    ensures
        ({
            let n = numbers(split(value@, ' '), reader_fn(*read));
            r == if n.len() == 2 {
                Some(Motion { reactive: n[0], parallax: n[1] })
            } else {
                None
            }
        }),
{
    let tokens = crate::text::split_vec(value, ' ');
    let n = numbers_of(&tokens, read);
    if n.len() == 2 {
        Some(Motion { reactive: n[0], parallax: n[1] })
    } else {
        None
    }
}

fn sound_exec<F: Copy, R: Fn(&str) -> Option<F>>(value: &[char], read: &R, half: F) -> (r: Option<
    Sound<F>,
>)
    requires
        is_reader(*read),
    ensures
        r == sound_line(value@, reader_fn(*read), half),
{
    let parts = crate::text::split_vec(value, ' ');
    let ghost ps = split(value@, ' ');
    assert(crate::text::views(parts@) == ps);
    if parts.len() < 2 {
        return None;
    }
    assert(ps[0] == parts@[0]@ && ps[1] == parts@[1]@);
    let enabled = crate::text::same_str(parts[0].as_slice(), "on");
    let volume = match read_text(read, parts[1].as_slice()) {
        Some(v) => v,
        None => half,
    };
    let duck = if parts.len() >= 3 {
        assert(ps[2] == parts@[2]@);
        crate::text::same_str(parts[2].as_slice(), "on")
    } else {
        true
    };
    Some(Sound { enabled, volume, duck })
}

fn power_exec(value: &[char]) -> (r: Option<PowerPolicy>)
    ensures
        r == power_line(value@),
{
    match crate::text::split_once_vec(value, ' ') {
        Some((fps, freeze)) => {
            let battery_fps = match u32_exec(fps.as_slice()) {
                Some(n) => n,
                None => 24,
            };
            Some(
                PowerPolicy {
                    battery_fps,
                    pause_on_saver: crate::text::same_str(freeze.as_slice(), "on"),
                },
            )
        },
        None => None,
    }
}

fn own_exec<F: Copy, R: Fn(&str) -> Option<F>, P: Fn(F) -> bool>(
    value: &[char],
    read: &R,
    test: &P,
    one: F,
    zero: F,
) -> (r: Option<(String, Overrides<F>)>)
    requires
        is_reader(*read),
        is_test(*test),
    ensures
        match r {
            Some((name, own)) => own_line(value@, reader_fn(*read), tester_fn(*test), one, zero)
                == Some((name@, own)),
            None => own_line(value@, reader_fn(*read), tester_fn(*test), one, zero) is None,
        },
{
    let parts = crate::text::split_vec(value, ' ');
    let ghost ps = split(value@, ' ');
    assert(crate::text::views(parts@) == ps);
    if parts.len() != 6 {
        return None;
    }
    assert(ps[0] == parts@[0]@ && ps[1] == parts@[1]@ && ps[2] == parts@[2]@);
    assert(ps[3] == parts@[3]@ && ps[4] == parts@[4]@ && ps[5] == parts@[5]@);
    let visual = match read_text(read, parts[3].as_slice()) {
        Some(b) => if test_number(test, b) {
            let saturation = match read_text(read, parts[4].as_slice()) {
                Some(v) => v,
                None => one,
            };
            let blur = match read_text(read, parts[5].as_slice()) {
                Some(v) => v,
                None => zero,
            };
            Some(Visual { brightness: b, saturation, blur })
        } else {
            None
        },
        None => None,
    };
    let fps = match u32_exec(parts[2].as_slice()) {
        Some(n) => if n > 0 {
            Some(n)
        } else {
            None
        },
        None => None,
    };
    let fit = fit_of(parts[1].as_slice());
    let name = crate::text::string_of(parts[0].as_slice());
    Some((name, Overrides { fit, fps, visual }))
}

fn monitor_exec(value: &[char]) -> (r: Option<(String, bool, Vec<String>)>)
    ensures
        match r {
            Some(m) => monitor_line(value@) == Some(monitor_view(m)),
            None => monitor_line(value@) is None,
        },
{
    let (name, rest) = match crate::text::split_once_vec(value, ' ') {
        Some(pair) => pair,
        None => {
            return None;
        },
    };
    let (enabled, list) = match crate::text::split_once_vec(rest.as_slice(), ' ') {
        Some(pair) => pair,
        None => (rest, Vec::new()),
    };
    let pieces = crate::text::split_vec(list.as_slice(), '|');
    let ghost ps = split(list@, '|');
    let mut items: Vec<String> = Vec::new();
    let mut i: usize = 0;
    while i < pieces.len()
        invariant
            i <= pieces@.len(),
            crate::text::views(pieces@) == ps,
            string_views(items@) == keep_nonempty(ps.take(i as int)),
        decreases pieces@.len() - i,
    {
        let ghost before = items@;
        proof {
            assert(ps.take(i + 1) =~= ps.take(i as int).push(ps[i as int]));
            crate::text::lemma_keep_nonempty_push(ps.take(i as int), ps[i as int]);
            assert(ps[i as int] == pieces@[i as int]@);
        }
        if pieces[i].len() > 0 {
            items.push(crate::text::string_of(pieces[i].as_slice()));
            assert(string_views(items@) =~= string_views(before).push(ps[i as int]));
        }
        i = i + 1;
    }
    assert(ps.take(i as int) =~= ps);
    let on = crate::text::same_str(enabled.as_slice(), "true");
    Some((crate::text::string_of(name.as_slice()), on, items))
}

fn sparam_exec<F: Copy, R: Fn(&str) -> Option<F>>(value: &[char], read: &R) -> (r: Option<
    (String, Vec<(String, F)>),
>)
    requires
        is_reader(*read),
    ensures
        match r {
            Some((path, values)) => sparam_line(value@, reader_fn(*read)) == Some(
                (path@, pairs_view(values@)),
            ),
            None => sparam_line(value@, reader_fn(*read)) is None,
        },
{
    let parts = crate::text::split_vec(value, '|');
    let ghost ps = split(value@, '|');
    assert(crate::text::views(parts@) == ps);
    assert(ps[0] == parts@[0]@);
    let values = param_values_of(&parts, 1, read);
    assert(ps.skip(1) =~= ps.drop_first());
    if parts[0].len() == 0 || values.len() == 0 {
        return None;
    }
    Some((crate::text::string_of(parts[0].as_slice()), values))
}

/// Set the settings one monitor keeps for itself.
fn put_override<F: Copy>(entries: &mut Vec<(String, Overrides<F>)>, name: String, own: Overrides<F>)
    ensures
        pairs_view(final(entries)@) == put(pairs_view(old(entries)@), name@, own),
{
    let ghost before = entries@;
    let ghost key = name@;
    put_entry(entries, name, own);
    proof {
        assert(string_keys(before) =~= keys_of(pairs_view(before)));
        lemma_key_index_bounds(string_keys(before), key);
        match key_index(string_keys(before), key) {
            Some(k) => {
                assert(pairs_view(entries@) =~= pairs_view(before).update(k, (key, own)));
            },
            None => {
                assert(pairs_view(entries@) =~= pairs_view(before).push((key, own)));
            },
        }
    }
}


/// Set one shader file's settings.
fn put_params<F: Copy>(
    entries: &mut Vec<(String, Vec<(String, F)>)>,
    path: String,
    values: Vec<(String, F)>,
)
    ensures
        all_params_view(final(entries)@) == put(
            all_params_view(old(entries)@),
            path@,
            pairs_view(values@),
        ),
{
    let ghost before = entries@;
    let ghost key = path@;
    let ghost vv = pairs_view(values@);
    put_entry(entries, path, values);
    proof {
        assert(string_keys(before) =~= keys_of(all_params_view(before)));
        lemma_key_index_bounds(string_keys(before), key);
        match key_index(string_keys(before), key) {
            Some(k) => {
                assert(all_params_view(entries@) =~= all_params_view(before).update(k, (key, vv)));
            },
            None => {
                assert(all_params_view(entries@) =~= all_params_view(before).push((key, vv)));
            },
        }
    }
}

/// What one `<key> <value>` line does to the settings that are single
/// values.
fn apply_setting<F: Copy, R: Fn(&str) -> Option<F>>(
    s: &mut Session<F>,
    key: &[char],
    value: &[char],
    read: &R,
    half: F,
) -> (handled: bool)
    requires
        is_reader(*read),
    ensures
        handled <==> (key@ == "fps"@ || key@ == "fit"@ || key@ == "interval"@ || key@ == "shuffle"@
            || key@ == "visual"@ || key@ == "sound"@ || key@ == "power"@ || key@ == "speed"@ || key@
            == "fade"@ || key@ == "span"@ || key@ == "hotkeys"@ || key@ == "hibernate"@ || key@
            == "memory"@ || key@ == "idle"@ || key@ == "busy"@ || key@ == "reducemotion"@ || key@
            == "drift"@ || key@ == "accent"@),
        handled ==> forall|nonneg: spec_fn(F) -> bool, one: F, zero: F|
            session_view(*final(s)) == #[trigger] apply_key(
                session_view(*old(s)),
                key@,
                value@,
                reader_fn(*read),
                nonneg,
                half,
                one,
                zero,
            ),
        !handled ==> *final(s) == *old(s),
{
    if same_str(key, "fps") {
        s.fps = u32_exec(value);
    } else if same_str(key, "fit") {
        s.fit = fit_of(value);
    } else if same_str(key, "interval") {
        s.interval_secs = u64_exec(value);
    } else if same_str(key, "shuffle") {
        s.shuffle = Some(same_str(value, "on"));
    } else if same_str(key, "visual") {
        match visual_exec(value, read) {
            Some(v) => s.visual = Some(v),
            None => {},
        }
    } else if same_str(key, "sound") {
        match sound_exec(value, read, half) {
            Some(v) => s.sound = Some(v),
            None => {},
        }
    } else if same_str(key, "power") {
        match power_exec(value) {
            Some(v) => s.power = Some(v),
            None => {},
        }
    } else if same_str(key, "speed") {
        s.speed = read_text(read, value);
    } else if same_str(key, "fade") {
        s.fade_ms = u64_exec(value);
    } else if same_str(key, "span") {
        s.span = Some(same_str(value, "on"));
    } else if same_str(key, "hotkeys") {
        s.hotkeys = Some(same_str(value, "on"));
    } else if same_str(key, "hibernate") {
        s.hibernate_secs = u64_exec(value);
    } else if same_str(key, "memory") {
        s.memory_mb = u32_exec(value);
    } else if same_str(key, "idle") {
        s.idle_secs = u64_exec(value);
    } else if same_str(key, "busy") {
        s.busy_fps = u32_exec(value);
    } else if same_str(key, "reducemotion") {
        s.reduce_motion = Some(same_str(value, "on"));
    } else if same_str(key, "drift") {
        s.drift = read_text(read, value);
    } else if same_str(key, "accent") {
        s.accent = Some(same_str(value, "on"));
    } else {
        return false;
    }
    true
}

/// What one `<key> <value>` line does to the lists, the motion and the
/// per-monitor settings.
fn apply_list<F: Copy, R: Fn(&str) -> Option<F>, P: Fn(F) -> bool>(
    s: &mut Session<F>,
    key: &[char],
    value: &[char],
    read: &R,
    test: &P,
    half: F,
    one: F,
    zero: F,
)
    requires
        is_reader(*read),
        is_test(*test),
        !(key@ == "fps"@ || key@ == "fit"@ || key@ == "interval"@ || key@ == "shuffle"@ || key@
            == "visual"@ || key@ == "sound"@ || key@ == "power"@ || key@ == "speed"@ || key@
            == "fade"@ || key@ == "span"@ || key@ == "hotkeys"@ || key@ == "hibernate"@ || key@
            == "memory"@ || key@ == "idle"@ || key@ == "busy"@ || key@ == "reducemotion"@ || key@
            == "drift"@ || key@ == "accent"@),
    ensures
        session_view(*final(s)) == apply_key(
            session_view(*old(s)),
            key@,
            value@,
            reader_fn(*read),
            tester_fn(*test),
            half,
            one,
            zero,
        ),
{
    let text = crate::text::string_of(value);
    if same_str(key, "apps") {
        s.apps = crate::power::apps::parse_list(text.as_str());
    } else if same_str(key, "rules") {
        s.rules = crate::compositor::rules::parse(text.as_str());
    } else if same_str(key, "scene") {
        match crate::compositor::scenes::parse(text.as_str()) {
            Some(scene) => {
                let ghost before = s.scenes@;
                s.scenes.push(scene);
                assert(s.scenes@.map_values(|x: Scene| scene_view(x)) =~= before.map_values(
                    |x: Scene| scene_view(x),
                ).push(scene_view(scene)));
            },
            None => {},
        }
    } else if same_str(key, "sparam") {
        match sparam_exec(value, read) {
            Some((path, values)) => put_params(&mut s.shader_params, path, values),
            None => {},
        }
    } else if same_str(key, "motion") {
        match motion_exec(value, read) {
            Some(m) => s.motion = Some(m),
            None => {},
        }
    } else if same_str(key, "own") {
        match own_exec(value, read, test, one, zero) {
            Some((name, own)) => put_override(&mut s.overrides, name, own),
            None => {},
        }
    } else if same_str(key, "monitor") {
        match monitor_exec(value) {
            Some(m) => {
                let ghost before = s.monitors@;
                s.monitors.push(m);
                assert(s.monitors@.map_values(|x: (String, bool, Vec<String>)| monitor_view(x))
                    =~= before.map_values(|x: (String, bool, Vec<String>)| monitor_view(x)).push(
                    monitor_view(m),
                ));
            },
            None => {},
        }
    }
}

impl<F> Session<F> {
    /// Nothing written down.
    pub fn new() -> (s: Self)
        ensures
            session_view(s) == empty_view::<F>(),
    {
        let s = Session {
            fps: None,
            fit: None,
            interval_secs: None,
            shuffle: None,
            visual: None,
            sound: None,
            power: None,
            speed: None,
            fade_ms: None,
            span: None,
            hotkeys: None,
            hibernate_secs: None,
            motion: None,
            memory_mb: None,
            idle_secs: None,
            busy_fps: None,
            reduce_motion: None,
            drift: None,
            accent: None,
            apps: Vec::new(),
            rules: Vec::new(),
            scenes: Vec::new(),
            shader_params: Vec::new(),
            overrides: Vec::new(),
            monitors: Vec::new(),
        };
        proof {
            let v = session_view(s);
            assert(v.apps =~= Seq::<Seq<char>>::empty());
            assert(v.rules =~= Seq::<(Trigger, Seq<Seq<char>>)>::empty());
            assert(v.scenes =~= Seq::<(Seq<char>, Seq<(Seq<char>, Seq<Seq<char>>)>)>::empty());
            assert(v.shader_params =~= Seq::<(Seq<char>, Seq<(Seq<char>, F)>)>::empty());
            assert(v.overrides =~= Seq::<(Seq<char>, Overrides<F>)>::empty());
            assert(v.monitors =~= Seq::<(Seq<char>, bool, Seq<Seq<char>>)>::empty());
        }
        s
    }
}

impl<F> Default for Session<F> {
    fn default() -> (s: Self)
        ensures
            session_view(s) == empty_view::<F>(),
    {
        Session::new()
    }
}

/// Turn the file's text into a session. Every malformed line is skipped;
/// nothing here can fail, because the alternative to a partial restore is
/// no wallpaper at all.
///
/// `read` reads a fraction from its text (or gives `None`), `at_least_zero`
/// tells whether one is zero or more, and `half`, `one` and `zero` are what
/// an unreadable volume, saturation and blur fall back to.
pub fn parse<F: Copy, R: Fn(&str) -> Option<F>, P: Fn(F) -> bool>(
    text: &str,
    read: R,
    at_least_zero: P,
    half: F,
    one: F,
    zero: F,
) -> (s: Session<F>)
    requires
        is_reader(read),
        is_test(at_least_zero),
    ensures
        session_view(s) == spec_parse(
            text@,
            reader_fn(read),
            tester_fn(at_least_zero),
            half,
            one,
            zero,
        ),
{
    let chars = crate::text::chars_of(text);
    let ls = crate::text::lines_vec(chars.as_slice());
    let ghost all = lines(text@);
    let mut s: Session<F> = Session::new();
    let mut i: usize = 0;
    assert(all.take(0) =~= Seq::<Seq<char>>::empty());
    while i < ls.len()
        invariant
            i <= ls@.len(),
            all == crate::text::views(ls@),
            is_reader(read),
            is_test(at_least_zero),
            session_view(s) == read_lines(
                all.take(i as int),
                reader_fn(read),
                tester_fn(at_least_zero),
                half,
                one,
                zero,
            ),
        decreases ls@.len() - i,
    {
        proof {
            assert(all.take(i + 1).drop_last() =~= all.take(i as int));
            assert(all.take(i + 1).last() == ls@[i as int]@);
        }
        match crate::text::split_once_vec(ls[i].as_slice(), ' ') {
            Some((key, value)) => {
                let handled = apply_setting(&mut s, key.as_slice(), value.as_slice(), &read, half);
                if !handled {
                    apply_list(
                        &mut s,
                        key.as_slice(),
                        value.as_slice(),
                        &read,
                        &at_least_zero,
                        half,
                        one,
                        zero,
                    );
                } else {
                    let ghost sv = session_view(s);
                    assert(sv == apply_key(
                        read_lines(
                            all.take(i as int),
                            reader_fn(read),
                            tester_fn(at_least_zero),
                            half,
                            one,
                            zero,
                        ),
                        key@,
                        value@,
                        reader_fn(read),
                        tester_fn(at_least_zero),
                        half,
                        one,
                        zero,
                    ));
                }
            },
            None => {},
        }
        i = i + 1;
    }
    assert(all.take(i as int) =~= all);
    s
}

// ---------------------------------------------------------------------------
// Writing, executably
// ---------------------------------------------------------------------------

/// What `show` writes for `v`.
pub(crate) fn show_text<F: Copy, S: Fn(F) -> String>(show: &S, v: F) -> (r: String)
    requires
        is_writer(*show),
    ensures
        r@ == shown(*show, v),
{
    let t = show(v);
    proof {
        assert(writes(*show, v, t@));
        let chosen = shown(*show, v);
        let w = choose|w: String| w@ == chosen && #[trigger] call_ensures(*show, (v,), w);
        assert(call_ensures(*show, (v,), w));
    }
    t
}

fn push_number_line(out: &mut String, key: &str, v: Option<u64>)
    ensures
        final(out)@ == old(out)@ + number_line(key@, nat_of_u64(v)),
{
    match v {
        Some(n) => {
            let ghost start = out@;
            push_str(out, key);
            push_char(out, ' ');
            push_decimal(out, n);
            push_char(out, '\n');
            assert(out@ =~= start + number_line(key@, nat_of_u64(v)));
        },
        None => {
            assert(out@ + Seq::<char>::empty() =~= out@);
        },
    }
}

fn push_flag_line(out: &mut String, key: &str, v: Option<bool>)
    ensures
        final(out)@ == old(out)@ + flag_line(key@, v),
{
    match v {
        Some(b) => {
            let ghost start = out@;
            push_str(out, key);
            push_char(out, ' ');
            if b {
                push_str(out, "on");
            } else {
                push_str(out, "off");
            }
            push_char(out, '\n');
            assert(out@ =~= start + flag_line(key@, v));
        },
        None => {
            assert(out@ + Seq::<char>::empty() =~= out@);
        },
    }
}

fn push_fraction_line<F: Copy, S: Fn(F) -> String>(out: &mut String, key: &str, v: Option<F>, show: &S)
    requires
        is_writer(*show),
    ensures
        final(out)@ == old(out)@ + fraction_line(key@, v, writer_fn(*show)),
{
    match v {
        Some(x) => {
            let ghost start = out@;
            push_str(out, key);
            push_char(out, ' ');
            let t = show_text(show, x);
            push_str(out, t.as_str());
            push_char(out, '\n');
            assert(out@ =~= start + fraction_line(key@, v, writer_fn(*show)));
        },
        None => {
            assert(out@ + Seq::<char>::empty() =~= out@);
        },
    }
}

fn u32_opt(v: Option<u32>) -> (r: Option<u64>)
    ensures
        nat_of_u64(r) == nat_of_u32(v),
{
    match v {
        Some(n) => Some(n as u64),
        None => None,
    }
}

fn push_on_off(out: &mut String, b: bool)
    ensures
        final(out)@ == old(out)@ + on_off(b),
{
    if b {
        push_str(out, "on");
    } else {
        push_str(out, "off");
    }
}

fn push_fit_line(out: &mut String, fit: Option<Fit>)
    ensures
        final(out)@ == old(out)@ + fit_line(fit),
{
    let ghost start = out@;
    match fit {
        Some(f) => {
            push_str(out, "fit ");
            push_str(out, f.name());
            push_char(out, '\n');
        },
        None => {},
    }
    assert(out@ =~= start + fit_line(fit));
}

fn push_visual_line<F: Copy, S: Fn(F) -> String>(out: &mut String, visual: Option<Visual<F>>, show3: &S)
    requires
        is_writer(*show3),
    ensures
        final(out)@ == old(out)@ + visual_line(visual, writer_fn(*show3)),
{
    let ghost start = out@;
    match visual {
        Some(v) => {
            push_str(out, "visual ");
            let t = show_text(show3, v.brightness);
            push_str(out, t.as_str());
            push_char(out, ' ');
            let t = show_text(show3, v.saturation);
            push_str(out, t.as_str());
            push_char(out, ' ');
            let t = show_text(show3, v.blur);
            push_str(out, t.as_str());
            push_char(out, '\n');
        },
        None => {},
    }
    assert(out@ =~= start + visual_line(visual, writer_fn(*show3)));
}

fn push_sound_line<F: Copy, S: Fn(F) -> String>(out: &mut String, sound: Option<Sound<F>>, show3: &S)
    requires
        is_writer(*show3),
    ensures
        final(out)@ == old(out)@ + sound_text(sound, writer_fn(*show3)),
{
    let ghost start = out@;
    match sound {
        Some(v) => {
            push_str(out, "sound ");
            push_on_off(out, v.enabled);
            push_char(out, ' ');
            let t = show_text(show3, v.volume);
            push_str(out, t.as_str());
            push_char(out, ' ');
            push_on_off(out, v.duck);
            push_char(out, '\n');
        },
        None => {},
    }
    assert(out@ =~= start + sound_text(sound, writer_fn(*show3)));
}

fn push_power_line(out: &mut String, power: Option<PowerPolicy>)
    ensures
        final(out)@ == old(out)@ + power_text(power),
{
    let ghost start = out@;
    match power {
        Some(p) => {
            push_str(out, "power ");
            push_decimal(out, p.battery_fps as u64);
            push_char(out, ' ');
            push_on_off(out, p.pause_on_saver);
            push_char(out, '\n');
        },
        None => {},
    }
    assert(out@ =~= start + power_text(power));
}

fn push_motion_line<F: Copy, S: Fn(F) -> String>(out: &mut String, motion: Option<Motion<F>>, show3: &S)
    requires
        is_writer(*show3),
    ensures
        final(out)@ == old(out)@ + motion_text(motion, writer_fn(*show3)),
{
    let ghost start = out@;
    match motion {
        Some(m) => {
            push_str(out, "motion ");
            let t = show_text(show3, m.reactive);
            push_str(out, t.as_str());
            push_char(out, ' ');
            let t = show_text(show3, m.parallax);
            push_str(out, t.as_str());
            push_char(out, '\n');
        },
        None => {},
    }
    assert(out@ =~= start + motion_text(motion, writer_fn(*show3)));
}

/// Appending is associative.
proof fn lemma_append_assoc(a: Seq<char>, b: Seq<char>, c: Seq<char>)
    ensures
        (a + b) + c == a + (b + c),
{
    assert((a + b) + c =~= a + (b + c));
}

fn push_first_block<F: Copy, S: Fn(F) -> String>(out: &mut String, s: &Session<F>, show3: &S)
    requires
        is_writer(*show3),
    ensures
        final(out)@ == old(out)@ + first_block(session_view(*s), writer_fn(*show3)),
{
    let ghost start = out@;
    let ghost sh = writer_fn(*show3);
    push_number_line(out, "fps", u32_opt(s.fps));
    let ghost mut acc = number_line("fps"@, nat_of_u32(s.fps));
    push_fit_line(out, s.fit);
    proof {
        lemma_append_assoc(start, acc, fit_line(s.fit));
        acc = acc + fit_line(s.fit);
    }
    push_number_line(out, "interval", s.interval_secs);
    proof {
        let l = number_line("interval"@, nat_of_u64(s.interval_secs));
        lemma_append_assoc(start, acc, l);
        acc = acc + l;
    }
    push_flag_line(out, "shuffle", s.shuffle);
    proof {
        let l = flag_line("shuffle"@, s.shuffle);
        lemma_append_assoc(start, acc, l);
        acc = acc + l;
    }
    push_visual_line(out, s.visual, show3);
    proof {
        let l = visual_line(s.visual, sh);
        lemma_append_assoc(start, acc, l);
        acc = acc + l;
    }
    push_sound_line(out, s.sound, show3);
    proof {
        let l = sound_text(s.sound, sh);
        lemma_append_assoc(start, acc, l);
        acc = acc + l;
    }
    push_power_line(out, s.power);
    proof {
        let l = power_text(s.power);
        lemma_append_assoc(start, acc, l);
        acc = acc + l;
    }
}

fn push_second_block<F: Copy, S: Fn(F) -> String, T: Fn(F) -> String>(
    out: &mut String,
    s: &Session<F>,
    show3: &S,
    show2: &T,
)
    requires
        is_writer(*show3),
        is_writer(*show2),
    ensures
        final(out)@ == old(out)@ + second_block(
            session_view(*s),
            writer_fn(*show3),
            writer_fn(*show2),
        ),
{
    let ghost start = out@;
    let ghost sh = writer_fn(*show3);
    push_fraction_line(out, "speed", s.speed, show2);
    let ghost mut acc = fraction_line("speed"@, s.speed, writer_fn(*show2));
    push_number_line(out, "fade", s.fade_ms);
    proof {
        let l = number_line("fade"@, nat_of_u64(s.fade_ms));
        lemma_append_assoc(start, acc, l);
        acc = acc + l;
    }
    push_flag_line(out, "span", s.span);
    proof {
        let l = flag_line("span"@, s.span);
        lemma_append_assoc(start, acc, l);
        acc = acc + l;
    }
    push_flag_line(out, "hotkeys", s.hotkeys);
    proof {
        let l = flag_line("hotkeys"@, s.hotkeys);
        lemma_append_assoc(start, acc, l);
        acc = acc + l;
    }
    push_number_line(out, "hibernate", s.hibernate_secs);
    proof {
        let l = number_line("hibernate"@, nat_of_u64(s.hibernate_secs));
        lemma_append_assoc(start, acc, l);
        acc = acc + l;
    }
    push_motion_line(out, s.motion, show3);
    proof {
        let l = motion_text(s.motion, sh);
        lemma_append_assoc(start, acc, l);
        acc = acc + l;
    }
    push_number_line(out, "memory", u32_opt(s.memory_mb));
    proof {
        let l = number_line("memory"@, nat_of_u32(s.memory_mb));
        lemma_append_assoc(start, acc, l);
        acc = acc + l;
    }
    push_number_line(out, "idle", s.idle_secs);
    proof {
        let l = number_line("idle"@, nat_of_u64(s.idle_secs));
        lemma_append_assoc(start, acc, l);
        acc = acc + l;
    }
    push_number_line(out, "busy", u32_opt(s.busy_fps));
    proof {
        let l = number_line("busy"@, nat_of_u32(s.busy_fps));
        lemma_append_assoc(start, acc, l);
        acc = acc + l;
    }
    push_flag_line(out, "reducemotion", s.reduce_motion);
    proof {
        let l = flag_line("reducemotion"@, s.reduce_motion);
        lemma_append_assoc(start, acc, l);
        acc = acc + l;
    }
    push_fraction_line(out, "drift", s.drift, show3);
    proof {
        let l = fraction_line("drift"@, s.drift, sh);
        lemma_append_assoc(start, acc, l);
        acc = acc + l;
    }
    push_flag_line(out, "accent", s.accent);
    proof {
        let l = flag_line("accent"@, s.accent);
        lemma_append_assoc(start, acc, l);
        acc = acc + l;
    }
}

proof fn lemma_text_order(a: Seq<char>, b: Seq<char>, c: Seq<char>)
    ensures
        !chars_before(a, a),
        chars_before(a, b) && chars_before(b, c) ==> chars_before(a, c),
        a == b || chars_before(a, b) || chars_before(b, a),
{
    crate::compositor::desktop::lemma_chars_before_irreflexive(a);
    crate::compositor::desktop::lemma_chars_before_total(a, b);
    if chars_before(a, b) && chars_before(b, c) {
        crate::compositor::desktop::lemma_chars_before_transitive(a, b, c);
    }
}

/// Texts in order are fixed by which texts they are: two ordered lists of
/// the same texts are the same list.
pub proof fn lemma_sorted_texts_unique(a: Seq<Seq<char>>, b: Seq<Seq<char>>)
    requires
        is_sorted_texts(a),
        is_sorted_texts(b),
        a.to_multiset() == b.to_multiset(),
    ensures
        a == b,
    decreases a.len(),
{
    broadcast use vstd::seq_lib::group_to_multiset_ensures;

    if a.len() == 0 || b.len() == 0 {
        assert(a.to_multiset().len() == a.len());
        assert(b.to_multiset().len() == b.len());
        assert(a =~= b);
    } else {
        assert(a.to_multiset().count(a[0]) > 0);
        assert(b.contains(a[0]));
        let k = choose|k: int| 0 <= k < b.len() && b[k] == a[0];
        assert(b.to_multiset().count(b[0]) > 0);
        assert(a.contains(b[0]));
        let q = choose|q: int| 0 <= q < a.len() && a[q] == b[0];
        lemma_text_order(a[0], b[0], a[0]);
        if a[0] != b[0] {
            if k > 0 {
                assert(!chars_before(b[k], b[0]));
            }
            if q > 0 {
                assert(!chars_before(a[q], a[0]));
            }
            assert(false);
        }
        let a1 = a.drop_first();
        let b1 = b.drop_first();
        assert(a.remove(0) =~= a1);
        assert(b.remove(0) =~= b1);
        vstd::seq_lib::to_multiset_remove(a, 0);
        vstd::seq_lib::to_multiset_remove(b, 0);
        assert forall|i: int, j: int| 0 <= i < j < a1.len() implies !chars_before(
            #[trigger] a1[j],
            #[trigger] a1[i],
        ) by {
            assert(a1[j] == a[j + 1] && a1[i] == a[i + 1]);
        }
        assert forall|i: int, j: int| 0 <= i < j < b1.len() implies !chars_before(
            #[trigger] b1[j],
            #[trigger] b1[i],
        ) by {
            assert(b1[j] == b[j + 1] && b1[i] == b[i + 1]);
        }
        lemma_sorted_texts_unique(a1, b1);
        assert forall|i: int| 0 <= i < a.len() implies a[i] == b[i] by {
            if i > 0 {
                assert(a[i] == a1[i - 1]);
                assert(b[i] == b1[i - 1]);
            }
        }
        assert(a =~= b);
    }
}

/// Put `e` where it belongs among texts in order.
fn insert_text(out: &mut Vec<Vec<char>>, e: Vec<char>)
    requires
        is_sorted_texts(views(old(out)@)),
    ensures
        is_sorted_texts(views(final(out)@)),
        views(final(out)@).to_multiset() == views(old(out)@).to_multiset().insert(e@),
{
    let ghost old_view = views(out@);
    let mut position: usize = 0;
    while position < out.len()
        invariant
            position <= out@.len(),
            views(out@) == old_view,
            forall|k: int| 0 <= k < position ==> !chars_before(e@, #[trigger] old_view[k]),
        ensures
            position <= out@.len(),
            views(out@) == old_view,
            forall|k: int| 0 <= k < position ==> !chars_before(e@, #[trigger] old_view[k]),
            position == out@.len() || chars_before(e@, old_view[position as int]),
        decreases out@.len() - position,
    {
        assert(old_view[position as int] == out@[position as int]@);
        if crate::compositor::desktop::chars_less(&e, &out[position]) {
            break;
        }
        position = position + 1;
    }
    let ghost ev = e@;
    out.insert(position, e);
    proof {
        let v = views(out@);
        assert(v =~= old_view.insert(position as int, ev));
        vstd::seq_lib::to_multiset_insert(old_view, position as int, ev);
        assert forall|i: int, j: int| 0 <= i < j < v.len() implies !chars_before(
            #[trigger] v[j],
            #[trigger] v[i],
        ) by {
            let p = position as int;
            if j < p {
                assert(v[i] == old_view[i] && v[j] == old_view[j]);
            } else if j == p {
                assert(v[j] == ev);
                assert(v[i] == old_view[i]);
                lemma_text_order(ev, old_view[i], ev);
            } else if i == p {
                assert(v[i] == ev);
                assert(v[j] == old_view[j - 1]);
                assert(chars_before(ev, old_view[p]) || p == old_view.len());
                if j - 1 > p {
                    assert(!chars_before(old_view[j - 1], old_view[p]));
                    lemma_text_order(old_view[p], old_view[j - 1], old_view[p]);
                }
                lemma_text_order(ev, old_view[p], old_view[j - 1]);
                lemma_text_order(old_view[j - 1], ev, old_view[p]);
                lemma_text_order(old_view[j - 1], ev, ev);
            } else if i < p {
                assert(v[i] == old_view[i] && v[j] == old_view[j - 1]);
            } else {
                assert(v[i] == old_view[i - 1] && v[j] == old_view[j - 1]);
            }
        }
    }
}

/// Texts in order.
fn sort_texts(items: Vec<Vec<char>>) -> (r: Vec<Vec<char>>)
    ensures
        views(r@) == sorted_texts(views(items@)),
{
    let ghost all = views(items@);
    let mut out: Vec<Vec<char>> = Vec::new();
    let mut i: usize = 0;
    assert(views(out@) =~= Seq::<Seq<char>>::empty());
    assert(all.take(0) =~= Seq::<Seq<char>>::empty());
    while i < items.len()
        invariant
            i <= items@.len(),
            all == views(items@),
            is_sorted_texts(views(out@)),
            views(out@).to_multiset() == all.take(i as int).to_multiset(),
        decreases items@.len() - i,
    {
        let e = items[i].clone();
        proof {
            assert(all.take(i + 1) =~= all.take(i as int).push(all[i as int]));
            vstd::seq_lib::to_multiset_build(all.take(i as int), all[i as int]);
        }
        insert_text(&mut out, e);
        i = i + 1;
    }
    proof {
        assert(all.take(i as int) =~= all);
        lemma_sorted_texts_unique(views(out@), sorted_texts(all));
    }
    out
}

fn push_param_line<F: Copy, S: Fn(F) -> String>(
    out: &mut String,
    entry: &(String, Vec<(String, F)>),
    show: &S,
)
    requires
        is_writer(*show),
    ensures
        final(out)@ == old(out)@ + param_line(params_view(*entry), writer_fn(*show)),
{
    let ghost start = out@;
    let ghost sh = writer_fn(*show);
    let values = &entry.1;
    let ghost pv = pairs_view(values@);
    let mut fields: Vec<Vec<char>> = Vec::new();
    let mut i: usize = 0;
    while i < values.len()
        invariant
            i <= values@.len(),
            pv == pairs_view(values@),
            is_writer(*show),
            sh == writer_fn(*show),
            views(fields@) == param_fields(pv.take(i as int), sh),
        decreases values@.len() - i,
    {
        let mut field = crate::text::chars_of(values[i].0.as_str());
        field.push('=');
        let t = show_text(show, values[i].1);
        let shown_chars = crate::text::chars_of(t.as_str());
        let ghost before = fields@;
        let ghost name = values@[i as int].0@;
        let ghost mut f = field@;
        let mut k: usize = 0;
        while k < shown_chars.len()
            invariant
                k <= shown_chars@.len(),
                field@ == f + shown_chars@.take(k as int),
            decreases shown_chars@.len() - k,
        {
            field.push(shown_chars[k]);
            assert(shown_chars@.take(k + 1) =~= shown_chars@.take(k as int).push(shown_chars@[k as int]));
            k = k + 1;
        }
        assert(shown_chars@.take(k as int) =~= shown_chars@);
        proof {
            assert(f =~= name + seq!['=']);
            assert(sh(values@[i as int].1) == t@);
            assert(field@ =~= name + seq!['='] + sh(values@[i as int].1));
        }
        fields.push(field);
        proof {
            assert(pv[i as int] == (name, values@[i as int].1));
            assert(views(fields@) =~= views(before).push(field@));
            assert(pv.take(i + 1) =~= pv.take(i as int).push(pv[i as int]));
            assert(param_fields(pv.take(i + 1), sh) =~= param_fields(pv.take(i as int), sh).push(
                pv[i as int].0 + seq!['='] + sh(pv[i as int].1),
            ));
            assert(views(fields@) =~= param_fields(pv.take(i + 1), sh));
        }
        i = i + 1;
    }
    assert(pv.take(i as int) =~= pv);
    let sorted = sort_texts(fields);
    push_str(out, "sparam ");
    push_str(out, entry.0.as_str());
    push_char(out, '|');
    let bar = ['|'];
    assert(bar@ =~= seq!['|']);
    crate::text::push_joined(out, &sorted, bar.as_slice());
    push_char(out, '\n');
    assert(out@ =~= start + param_line(params_view(*entry), sh));
}

pub(crate) fn push_own_line<F: Copy, S: Fn(F) -> String>(
    out: &mut String,
    entry: &(String, Overrides<F>),
    show3: &S,
    minus_one: F,
    one: F,
    zero: F,
)
    requires
        is_writer(*show3),
    ensures
        final(out)@ == old(out)@ + own_text(
            (entry.0@, entry.1),
            writer_fn(*show3),
            minus_one,
            one,
            zero,
        ),
{
    let ghost start = out@;
    let own = entry.1;
    let v = match own.visual {
        Some(v) => v,
        None => Visual { brightness: minus_one, saturation: one, blur: zero },
    };
    push_str(out, "own ");
    push_str(out, entry.0.as_str());
    push_char(out, ' ');
    match own.fit {
        Some(f) => push_str(out, f.name()),
        None => push_char(out, '-'),
    }
    push_char(out, ' ');
    let fps: u64 = match own.fps {
        Some(n) => n as u64,
        None => 0,
    };
    push_decimal(out, fps);
    push_char(out, ' ');
    let t = show_text(show3, v.brightness);
    push_str(out, t.as_str());
    push_char(out, ' ');
    let t = show_text(show3, v.saturation);
    push_str(out, t.as_str());
    push_char(out, ' ');
    let t = show_text(show3, v.blur);
    push_str(out, t.as_str());
    push_char(out, '\n');
    assert(out@ =~= start + own_text((entry.0@, entry.1), writer_fn(*show3), minus_one, one, zero));
}

fn push_monitor_line(out: &mut String, m: &(String, bool, Vec<String>))
    ensures
        final(out)@ == old(out)@ + "monitor "@ + m.0@ + seq![' '] + true_false(m.1) + seq![' ']
            + join(string_views(m.2@), seq!['|']) + seq!['\n'],
{
    let ghost start = out@;
    push_str(out, "monitor ");
    push_str(out, m.0.as_str());
    push_char(out, ' ');
    if m.1 {
        push_str(out, "true");
    } else {
        push_str(out, "false");
    }
    push_char(out, ' ');
    let items = crate::text::chars_of_all(m.2.as_slice());
    let bar = ['|'];
    assert(bar@ =~= seq!['|']);
    crate::text::push_joined(out, &items, bar.as_slice());
    push_char(out, '\n');
}

fn push_scene_lines(out: &mut String, scenes: &Vec<Scene>)
    ensures
        final(out)@ == old(out)@ + scene_lines(scenes@.map_values(|x: Scene| scene_view(x))),
{
    let ghost start = out@;
    let ghost all = scenes@.map_values(|x: Scene| scene_view(x));
    let mut i: usize = 0;
    assert(out@ =~= start + scene_lines(all.take(0)));
    while i < scenes.len()
        invariant
            i <= scenes@.len(),
            all == scenes@.map_values(|x: Scene| scene_view(x)),
            out@ == start + scene_lines(all.take(i as int)),
        decreases scenes@.len() - i,
    {
        let ghost before = out@;
        push_str(out, "scene ");
        let t = crate::compositor::scenes::written_form(&scenes[i]);
        push_str(out, t.as_str());
        push_char(out, '\n');
        proof {
            assert(all.take(i + 1).drop_last() =~= all.take(i as int));
            assert(all.take(i + 1).last() == scene_view(scenes@[i as int]));
            assert(out@ =~= start + scene_lines(all.take(i + 1)));
        }
        i = i + 1;
    }
    assert(all.take(i as int) =~= all);
}

fn push_param_lines<F: Copy, S: Fn(F) -> String>(
    out: &mut String,
    params: &Vec<(String, Vec<(String, F)>)>,
    show: &S,
)
    requires
        is_writer(*show),
    ensures
        final(out)@ == old(out)@ + param_lines(all_params_view(params@), writer_fn(*show)),
{
    let ghost start = out@;
    let ghost all = all_params_view(params@);
    let mut i: usize = 0;
    assert(out@ =~= start + param_lines(all.take(0), writer_fn(*show)));
    while i < params.len()
        invariant
            i <= params@.len(),
            is_writer(*show),
            all == all_params_view(params@),
            out@ == start + param_lines(all.take(i as int), writer_fn(*show)),
        decreases params@.len() - i,
    {
        push_param_line(out, &params[i], show);
        proof {
            assert(all.take(i + 1).drop_last() =~= all.take(i as int));
            assert(all.take(i + 1).last() == params_view(params@[i as int]));
            assert(out@ =~= start + param_lines(all.take(i + 1), writer_fn(*show)));
        }
        i = i + 1;
    }
    assert(all.take(i as int) =~= all);
}

fn push_own_lines<F: Copy, S: Fn(F) -> String>(
    out: &mut String,
    overrides: &Vec<(String, Overrides<F>)>,
    show3: &S,
    minus_one: F,
    one: F,
    zero: F,
)
    requires
        is_writer(*show3),
    ensures
        final(out)@ == old(out)@ + own_lines(
            pairs_view(overrides@),
            writer_fn(*show3),
            minus_one,
            one,
            zero,
        ),
{
    let ghost start = out@;
    let ghost all = pairs_view(overrides@);
    let ghost sh = writer_fn(*show3);
    let mut i: usize = 0;
    assert(out@ =~= start + own_lines(all.take(0), sh, minus_one, one, zero));
    while i < overrides.len()
        invariant
            i <= overrides@.len(),
            is_writer(*show3),
            sh == writer_fn(*show3),
            all == pairs_view(overrides@),
            out@ == start + own_lines(all.take(i as int), sh, minus_one, one, zero),
        decreases overrides@.len() - i,
    {
        push_own_line(out, &overrides[i], show3, minus_one, one, zero);
        proof {
            assert(all.take(i + 1).drop_last() =~= all.take(i as int));
            assert(all.take(i + 1).last() == (overrides@[i as int].0@, overrides@[i as int].1));
            assert(out@ =~= start + own_lines(all.take(i + 1), sh, minus_one, one, zero));
        }
        i = i + 1;
    }
    assert(all.take(i as int) =~= all);
}

fn push_monitor_lines(out: &mut String, monitors: &Vec<(String, bool, Vec<String>)>)
    ensures
        final(out)@ == old(out)@ + monitor_lines(
            monitors@.map_values(|m: (String, bool, Vec<String>)| monitor_view(m)),
        ),
{
    let ghost start = out@;
    let ghost all = monitors@.map_values(|m: (String, bool, Vec<String>)| monitor_view(m));
    let mut i: usize = 0;
    assert(out@ =~= start + monitor_lines(all.take(0)));
    while i < monitors.len()
        invariant
            i <= monitors@.len(),
            all == monitors@.map_values(|m: (String, bool, Vec<String>)| monitor_view(m)),
            out@ == start + monitor_lines(all.take(i as int)),
        decreases monitors@.len() - i,
    {
        push_monitor_line(out, &monitors[i]);
        proof {
            assert(all.take(i + 1).drop_last() =~= all.take(i as int));
            assert(all.take(i + 1).last() == monitor_view(monitors@[i as int]));
            assert(out@ =~= start + monitor_lines(all.take(i + 1)));
        }
        i = i + 1;
    }
    assert(all.take(i as int) =~= all);
}

/// The file's text, without the disk. `show3` writes a fraction to three
/// places, `show2` to two, and `show` as briefly as it reads back;
/// `minus_one`, `one` and `zero` are what a monitor without a grade of its
/// own writes in its place.
pub fn written_form<F: Copy, S3: Fn(F) -> String, S2: Fn(F) -> String, S: Fn(F) -> String>(
    session: &Session<F>,
    show3: S3,
    show2: S2,
    show: S,
    minus_one: F,
    one: F,
    zero: F,
) -> (text: String)
    requires
        is_writer(show3),
        is_writer(show2),
        is_writer(show),
    ensures
        text@ == spec_written_form(
            session_view(*session),
            writer_fn(show3),
            writer_fn(show2),
            writer_fn(show),
            minus_one,
            one,
            zero,
        ),
{
    let ghost sv = session_view(*session);
    let mut out = String::new();
    push_first_block(&mut out, session, &show3);
    assert(out@ =~= first_block(sv, writer_fn(show3)));
    push_second_block(&mut out, session, &show3, &show2);
    let ghost a = out@;
    if session.apps.len() > 0 {
        push_str(&mut out, "apps ");
        let names = crate::text::chars_of_all(session.apps.as_slice());
        let bar = ['|'];
        assert(bar@ =~= seq!['|']);
        crate::text::push_joined(&mut out, &names, bar.as_slice());
        push_char(&mut out, '\n');
    }
    proof {
        let l = if sv.apps.len() > 0 {
            "apps "@ + join(sv.apps, seq!['|']) + seq!['\n']
        } else {
            Seq::<char>::empty()
        };
        assert(out@ =~= a + l);
    }
    push_scene_lines(&mut out, &session.scenes);
    push_param_lines(&mut out, &session.shader_params, &show);
    let ghost b = out@;
    if session.rules.len() > 0 {
        push_str(&mut out, "rules ");
        let t = crate::compositor::rules::written_form(session.rules.as_slice());
        push_str(&mut out, t.as_str());
        push_char(&mut out, '\n');
    }
    proof {
        let l = if sv.rules.len() > 0 {
            "rules "@ + crate::compositor::rules::spec_written_form(sv.rules) + seq!['\n']
        } else {
            Seq::<char>::empty()
        };
        assert(out@ =~= b + l);
    }
    push_own_lines(&mut out, &session.overrides, &show3, minus_one, one, zero);
    push_monitor_lines(&mut out, &session.monitors);
    out
}

} // verus!

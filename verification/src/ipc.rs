//! The settings UI's requests, one line each.
//!
//! The protocol is one line per message: a verb, a space, and what the verb
//! takes. Reading a request decides what it asks for: a command for the
//! render loop, a report, or a refusal in words for the user. Carrying the
//! line over the pipe and the command to the render loop is the caller's.
//!
//! Numbers that are fractions (brightness, volume, speed and the rest) are
//! kept in whatever number type `F` the caller uses; reading one from text
//! and comparing two are the caller's, handed in as functions.

use vstd::prelude::*;

use crate::compositor::render::{spec_fit_parse, Fit, Motion, Overrides, Visual};
use crate::compositor::rules::{rules_view, Rule, Trigger};
use crate::compositor::Sound;
use crate::power::battery::PowerPolicy;
use crate::session::{
    gives, is_reader, is_writer, writer_fn, numbers, pairs_view, param_values, reader_fn, reading, u32_of, u64_of,
};
use crate::caps::{AdapterInfo, GpuProfile, MonitorInfo};
use crate::compositor::desktop::all_outputs;
use crate::text::{
    decimal, is_ws, join, lemma_find_after, lemma_trim_end_keeps_nonspace,
    lemma_trim_start_keeps_nonspace, push_char, push_decimal, push_str, split, split_once,
    string_views, trim,
};

verus! {

// ---------------------------------------------------------------------------
// Comparing numbers through the caller's function
// ---------------------------------------------------------------------------

/// What `cmp` says of `a` and `b`.
pub open spec fn relates<F, C: Fn(F, F) -> bool>(cmp: C, a: F, b: F) -> bool {
    call_ensures(cmp, (a, b), true)
}

/// `cmp` can be asked about any two numbers, and answers by them alone.
pub open spec fn is_relation<F, C: Fn(F, F) -> bool>(cmp: C) -> bool {
    &&& forall|a: F, b: F| #[trigger] call_requires(cmp, (a, b))
    &&& forall|a: F, b: F, x: bool, y: bool|
        #[trigger] call_ensures(cmp, (a, b), x) && #[trigger] call_ensures(cmp, (a, b), y) ==> x == y
}

/// `cmp` as a function of the two numbers.
pub open spec fn relation_fn<F, C: Fn(F, F) -> bool>(cmp: C) -> spec_fn(F, F) -> bool {
    |a: F, b: F| relates(cmp, a, b)
}

/// What `cmp` says of `a` and `b`.
pub(crate) fn compare<F: Copy, C: Fn(F, F) -> bool>(cmp: &C, a: F, b: F) -> (r: bool)
    requires
        is_relation(*cmp),
    ensures
        r == relates(*cmp, a, b),
{
    let r = cmp(a, b);
    proof {
        if !r {
            if call_ensures(*cmp, (a, b), true) {
                assert(call_ensures(*cmp, (a, b), false));
            }
        }
    }
    r
}

/// The numbers a request's ranges are drawn with.
#[derive(Clone, Copy)]
pub struct Limits<F> {
    pub zero: F,
    pub quarter: F,
    pub one: F,
    pub two: F,
}

/// `lo <= x <= hi`, by the caller's `<=`.
pub open spec fn within<F>(le: spec_fn(F, F) -> bool, lo: F, x: F, hi: F) -> bool {
    le(lo, x) && le(x, hi)
}

pub(crate) fn within_exec<F: Copy, C: Fn(F, F) -> bool>(le: &C, lo: F, x: F, hi: F) -> (r: bool)
    requires
        is_relation(*le),
    ensures
        r == within(relation_fn(*le), lo, x, hi),
{
    compare(le, lo, x) && compare(le, x, hi)
}

/// A string holding exactly this text.
pub(crate) fn text_of(t: &str) -> (s: String)
    ensures
        s@ == t@,
{
    let mut s = String::new();
    crate::text::push_str(&mut s, t);
    s
}

// ---------------------------------------------------------------------------
// Settings of a monitor's own: `own <monitor> <fit|-> <fps> <bright|-> <sat> <blur>`
// ---------------------------------------------------------------------------

/// A monitor's own settings, or why they are refused. Zero for the frame
/// rate is "follow the desktop"; so is `-` for the fit; and either `-` or a
/// negative number for the brightness is "no grade of its own".
pub open spec fn spec_parse_overrides<F>(
    rest: Seq<char>,
    rd: spec_fn(Seq<char>) -> Option<F>,
    le: spec_fn(F, F) -> bool,
    lt: spec_fn(F, F) -> bool,
    lim: Limits<F>,
) -> Result<(Seq<char>, Overrides<F>), Seq<char>> {
    let parts = split(rest, ' ');
    if parts.len() != 6 {
        Err("usage: own <monitor> <fit|-> <fps> <bright|-> <sat> <blur>"@)
    } else if parts[1] != "-"@ && spec_fit_parse(parts[1]) is None {
        Err("fit must be cover, contain, stretch or -"@)
    } else {
        let fit = if parts[1] == "-"@ {
            None
        } else {
            spec_fit_parse(parts[1])
        };
        match u32_of(parts[2]) {
            Some(n) if n <= 240 => {
                let fps = if n == 0 {
                    None
                } else {
                    Some(n)
                };
                let clearing = parts[3] == "-"@ || (rd(parts[3]) matches Some(v) && lt(v, lim.zero));
                if clearing {
                    Ok((parts[0], Overrides { fit, visual: None, fps }))
                } else {
                    let ns = numbers(seq![parts[3], parts[4], parts[5]], rd);
                    if ns.len() != 3 {
                        Err("brightness, saturation and blur must be numbers"@)
                    } else if !(within(le, lim.zero, ns[0], lim.two) && within(le, lim.zero, ns[1], lim.two)
                        && within(le, lim.zero, ns[2], lim.one)) {
                        Err("brightness and saturation are 0-2, blur is 0-1"@)
                    } else {
                        Ok(
                            (
                                parts[0],
                                Overrides {
                                    fit,
                                    visual: Some(Visual { brightness: ns[0], saturation: ns[1], blur: ns[2] }),
                                    fps,
                                },
                            ),
                        )
                    }
                }
            },
            _ => Err("fps must be 0 (follow the desktop) or 1-240"@),
        }
    }
}

/// A monitor's own settings from `<monitor> <fit|-> <fps> <bright|-> <sat>
/// <blur>`, or why they are refused.
pub fn parse_overrides<F: Copy, R: Fn(&str) -> Option<F>, C: Fn(F, F) -> bool, D: Fn(F, F) -> bool>(
    rest: &str,
    read: &R,
    le: &C,
    lt: &D,
    lim: Limits<F>,
) -> (r: Result<(String, Overrides<F>), String>)
    requires
        is_reader(*read),
        is_relation(*le),
        is_relation(*lt),
    ensures
        match r {
            Ok((name, own)) => spec_parse_overrides(rest@, reader_fn(*read), relation_fn(*le), relation_fn(*lt), lim)
                == Ok::<(Seq<char>, Overrides<F>), Seq<char>>((name@, own)),
            Err(message) => spec_parse_overrides(rest@, reader_fn(*read), relation_fn(*le), relation_fn(*lt), lim)
                == Err::<(Seq<char>, Overrides<F>), Seq<char>>(message@),
        },
{
    let chars = crate::text::chars_of(rest);
    let parts = crate::text::split_vec(chars.as_slice(), ' ');
    let ghost ps = split(rest@, ' ');
    assert(crate::text::views(parts@) == ps);
    if parts.len() != 6 {
        return Err(text_of("usage: own <monitor> <fit|-> <fps> <bright|-> <sat> <blur>"));
    }
    proof {
        assert forall|k: int| 0 <= k < 6 implies ps[k] == (#[trigger] parts@[k])@ by {}
    }
    let dash = crate::text::same_str(parts[1].as_slice(), "-");
    let fit_text = crate::text::string_of(parts[1].as_slice());
    let parsed = Fit::parse(fit_text.as_str());
    if !dash && parsed.is_none() {
        return Err(text_of("fit must be cover, contain, stretch or -"));
    }
    let fit = if dash {
        None
    } else {
        parsed
    };
    let fps_n = match crate::session::u32_exec(parts[2].as_slice()) {
        Some(n) => n,
        None => {
            return Err(text_of("fps must be 0 (follow the desktop) or 1-240"));
        },
    };
    if fps_n > 240 {
        return Err(text_of("fps must be 0 (follow the desktop) or 1-240"));
    }
    let fps = if fps_n == 0 {
        None
    } else {
        Some(fps_n)
    };
    let bright_dash = crate::text::same_str(parts[3].as_slice(), "-");
    let first = crate::session::read_text(read, parts[3].as_slice());
    let clearing = bright_dash || match first {
        Some(v) => compare(lt, v, lim.zero),
        None => false,
    };
    let name = crate::text::string_of(parts[0].as_slice());
    if clearing {
        return Ok((name, Overrides { fit, visual: None, fps }));
    }
    let mut tokens: Vec<Vec<char>> = Vec::new();
    tokens.push(parts[3].clone());
    tokens.push(parts[4].clone());
    tokens.push(parts[5].clone());
    assert(crate::text::views(tokens@) =~= seq![ps[3], ps[4], ps[5]]);
    let ns = crate::session::numbers_of(&tokens, read);
    if ns.len() != 3 {
        return Err(text_of("brightness, saturation and blur must be numbers"));
    }
    if !(within_exec(le, lim.zero, ns[0], lim.two) && within_exec(le, lim.zero, ns[1], lim.two)
        && within_exec(le, lim.zero, ns[2], lim.one)) {
        return Err(text_of("brightness and saturation are 0-2, blur is 0-1"));
    }
    Ok((name, Overrides { fit, visual: Some(Visual { brightness: ns[0], saturation: ns[1], blur: ns[2] }), fps }))
}

// ---------------------------------------------------------------------------
// What a request asks for
// ---------------------------------------------------------------------------

/// What the UI can ask the render loop to do.
pub enum Command<F> {
    /// An empty list clears the monitor; one item is a fixed wallpaper;
    /// more is a playlist.
    SetPlaylist { monitor: String, items: Vec<String> },
    SetEnabled { monitor: String, enabled: bool },
    Next { monitor: String },
    Fps(u32),
    SetFit(Fit),
    Interval(u64),
    /// Whether a playlist plays in a drawn order rather than as written.
    SetShuffle(bool),
    SetVisual(Visual<F>),
    SetSound(Sound<F>),
    SetPower(PowerPolicy),
    /// Playback rate, 1 being the speed the file was authored at.
    SetSpeed(F),
    /// How long one wallpaper takes to replace another, in milliseconds.
    SetFade(u64),
    /// One wallpaper stretched across every screen.
    SetSpan(bool),
    SetHotkeys(bool),
    /// How long out of sight before the decoders are handed back; 0 keeps
    /// them open.
    SetHibernate(u64),
    SetMotion(Motion<F>),
    /// A memory budget in megabytes; 0 leaves the tier's own cap alone.
    SetMemory(u32),
    /// Applications that freeze the wallpaper while they are in front.
    SetApps(Vec<String>),
    /// Wallpapers that change themselves, by clock or by theme.
    SetRules(Vec<Rule>),
    /// How long the machine may sit untouched before the wallpaper stands
    /// still; 0 never.
    SetIdle(u64),
    /// The frame rate while the machine is busy with something else; 0
    /// keeps one rate.
    SetBusyFps(u32),
    SetReduceMotion(bool),
    /// How far a photograph drifts on its own, 0-1.
    SetDrift(F),
    SetAccent(bool),
    /// One shader file's own settings, one value per name.
    SetShaderParams { path: String, values: Vec<(String, F)> },
    SaveScene(String),
    LoadScene(String),
    DeleteScene(String),
    /// Settings one monitor keeps for itself.
    SetOverrides { monitor: String, overrides: Overrides<F> },
    /// Stop everything moving without taking the wallpaper away.
    Freeze(bool),
    Quit,
}

/// A command as plain values.
pub enum CommandView<F> {
    SetPlaylist { monitor: Seq<char>, items: Seq<Seq<char>> },
    SetEnabled { monitor: Seq<char>, enabled: bool },
    Next { monitor: Seq<char> },
    Fps(u32),
    SetFit(Fit),
    Interval(u64),
    SetShuffle(bool),
    SetVisual(Visual<F>),
    SetSound(Sound<F>),
    SetPower(PowerPolicy),
    SetSpeed(F),
    SetFade(u64),
    SetSpan(bool),
    SetHotkeys(bool),
    SetHibernate(u64),
    SetMotion(Motion<F>),
    SetMemory(u32),
    SetApps(Seq<Seq<char>>),
    SetRules(Seq<(Trigger, Seq<Seq<char>>)>),
    SetIdle(u64),
    SetBusyFps(u32),
    SetReduceMotion(bool),
    SetDrift(F),
    SetAccent(bool),
    SetShaderParams { path: Seq<char>, values: Seq<(Seq<char>, F)> },
    SaveScene(Seq<char>),
    LoadScene(Seq<char>),
    DeleteScene(Seq<char>),
    SetOverrides { monitor: Seq<char>, overrides: Overrides<F> },
    Freeze(bool),
    Quit,
}

pub open spec fn command_view<F>(c: Command<F>) -> CommandView<F> {
    match c {
        Command::SetPlaylist { monitor, items } => CommandView::SetPlaylist {
            monitor: monitor@,
            items: string_views(items@),
        },
        Command::SetEnabled { monitor, enabled } => CommandView::SetEnabled { monitor: monitor@, enabled },
        Command::Next { monitor } => CommandView::Next { monitor: monitor@ },
        Command::Fps(n) => CommandView::Fps(n),
        Command::SetFit(f) => CommandView::SetFit(f),
        Command::Interval(n) => CommandView::Interval(n),
        Command::SetShuffle(b) => CommandView::SetShuffle(b),
        Command::SetVisual(v) => CommandView::SetVisual(v),
        Command::SetSound(v) => CommandView::SetSound(v),
        Command::SetPower(p) => CommandView::SetPower(p),
        Command::SetSpeed(x) => CommandView::SetSpeed(x),
        Command::SetFade(n) => CommandView::SetFade(n),
        Command::SetSpan(b) => CommandView::SetSpan(b),
        Command::SetHotkeys(b) => CommandView::SetHotkeys(b),
        Command::SetHibernate(n) => CommandView::SetHibernate(n),
        Command::SetMotion(m) => CommandView::SetMotion(m),
        Command::SetMemory(n) => CommandView::SetMemory(n),
        Command::SetApps(a) => CommandView::SetApps(string_views(a@)),
        Command::SetRules(r) => CommandView::SetRules(rules_view(r@)),
        Command::SetIdle(n) => CommandView::SetIdle(n),
        Command::SetBusyFps(n) => CommandView::SetBusyFps(n),
        Command::SetReduceMotion(b) => CommandView::SetReduceMotion(b),
        Command::SetDrift(x) => CommandView::SetDrift(x),
        Command::SetAccent(b) => CommandView::SetAccent(b),
        Command::SetShaderParams { path, values } => CommandView::SetShaderParams {
            path: path@,
            values: pairs_view(values@),
        },
        Command::SaveScene(n) => CommandView::SaveScene(n@),
        Command::LoadScene(n) => CommandView::LoadScene(n@),
        Command::DeleteScene(n) => CommandView::DeleteScene(n@),
        Command::SetOverrides { monitor, overrides } => CommandView::SetOverrides { monitor: monitor@, overrides },
        Command::Freeze(b) => CommandView::Freeze(b),
        Command::Quit => CommandView::Quit,
    }
}

/// What a request line is answered with.
pub enum Action<F> {
    /// Hand this to the render loop, and answer `ok` (or, if the render
    /// loop is gone, that the engine has stopped).
    Send(Command<F>),
    /// Answer `err <message>`.
    Refuse(String),
    /// Answer with the engine's status.
    Status,
    /// Answer with the displays.
    Monitors,
    /// Start rewriting this clip smaller.
    Optimize(String),
}

pub enum ActionView<F> {
    Send(CommandView<F>),
    Refuse(Seq<char>),
    Status,
    Monitors,
    Optimize(Seq<char>),
}

pub open spec fn action_view<F>(a: Action<F>) -> ActionView<F> {
    match a {
        Action::Send(c) => ActionView::Send(command_view(c)),
        Action::Refuse(m) => ActionView::Refuse(m@),
        Action::Status => ActionView::Status,
        Action::Monitors => ActionView::Monitors,
        Action::Optimize(p) => ActionView::Optimize(p@),
    }
}

/// What a line asks for, before any file it names is looked at.
pub enum Request<F> {
    /// Decided by the line alone.
    Act(ActionView<F>),
    /// A playlist for a monitor; every item must be a file.
    Playlist(Seq<char>, Seq<Seq<char>>),
    /// A clip to rewrite; it must be a file.
    Optimize(Seq<char>),
}

/// `on` or `true`.
pub open spec fn is_on(v: Seq<char>) -> bool {
    v == "on"@ || v == "true"@
}

/// The number a value spells, when it is one within `lo..=hi`.
pub open spec fn count_in<N>(v: Option<N>, ok: spec_fn(N) -> bool) -> Option<N> {
    match v {
        Some(n) => if ok(n) {
            Some(n)
        } else {
            None
        },
        None => None,
    }
}

pub open spec fn send<F>(c: CommandView<F>) -> Request<F> {
    Request::Act(ActionView::Send(c))
}

pub open spec fn refuse<F>(m: Seq<char>) -> Request<F> {
    Request::Act(ActionView::Refuse(m))
}

/// The first verbs: reports, playlists, frame rate, fit, interval and grade.
pub open spec fn first_verbs<F>(
    verb: Seq<char>,
    rest: Seq<char>,
    rd: spec_fn(Seq<char>) -> Option<F>,
    le: spec_fn(F, F) -> bool,
    lt: spec_fn(F, F) -> bool,
    lim: Limits<F>,
    frozen: bool,
) -> Request<F> {
    if verb == "status"@ {
        Request::Act(ActionView::Status)
    } else if verb == "monitors"@ {
        Request::Act(ActionView::Monitors)
    } else if verb == "set"@ {
        match split_once(rest, ' ') {
            // No list at all clears the monitor.
            None => Request::Playlist(rest, Seq::empty()),
            Some((monitor, list)) => Request::Playlist(monitor, crate::power::apps::spec_parse_list(list)),
        }
    } else if verb == "next"@ && rest.len() > 0 {
        send(CommandView::Next { monitor: rest })
    } else if verb == "enable"@ {
        match split_once(rest, ' ') {
            Some((monitor, value)) => send(CommandView::SetEnabled { monitor, enabled: value == "true"@ }),
            None => refuse("usage: enable <monitor> <true|false>"@),
        }
    } else if verb == "fps"@ {
        match u32_of(rest) {
            Some(n) if 1 <= n <= 240 => send(CommandView::Fps(n)),
            _ => refuse("fps must be 1-240"@),
        }
    } else if verb == "fit"@ {
        match spec_fit_parse(rest) {
            Some(f) => send(CommandView::SetFit(f)),
            None => refuse("fit must be cover, contain or stretch"@),
        }
    } else if verb == "shuffle"@ {
        send(CommandView::SetShuffle(is_on(rest)))
    } else if verb == "interval"@ {
        match u64_of(rest) {
            // A minute is the shortest interval that is not just flicker.
            Some(n) if n == 0 || 60 <= n <= 86400 => send(CommandView::Interval(n)),
            _ => refuse("interval must be 0 or 60-86400 seconds"@),
        }
    } else if verb == "visual"@ {
        let ns = numbers(split(rest, ' '), rd);
        if ns.len() != 3 {
            refuse("usage: visual <brightness> <saturation> <blur>"@)
        } else if !(within(le, lim.zero, ns[0], lim.two) && within(le, lim.zero, ns[1], lim.two) && within(
            le,
            lim.zero,
            ns[2],
            lim.one,
        )) {
            refuse("brightness and saturation are 0-2, blur is 0-1"@)
        } else {
            send(CommandView::SetVisual(Visual { brightness: ns[0], saturation: ns[1], blur: ns[2] }))
        }
    } else {
        second_verbs(verb, rest, rd, le, lt, lim, frozen)
    }
}

/// Sound, power, speed, fading, spanning, hot keys, motion, memory and the
/// two lists.
pub open spec fn second_verbs<F>(
    verb: Seq<char>,
    rest: Seq<char>,
    rd: spec_fn(Seq<char>) -> Option<F>,
    le: spec_fn(F, F) -> bool,
    lt: spec_fn(F, F) -> bool,
    lim: Limits<F>,
    frozen: bool,
) -> Request<F> {
    if verb == "sound"@ {
        // `sound <on|off> <volume> [duck]`: the third field is optional, so
        // an older client still works.
        let parts = split(rest, ' ');
        if parts.len() < 2 {
            refuse("usage: sound <on|off> <volume> [duck]"@)
        } else {
            match rd(parts[1]) {
                Some(volume) if within(le, lim.zero, volume, lim.one) => send(
                    CommandView::SetSound(
                        Sound {
                            enabled: parts[0] == "on"@,
                            volume,
                            duck: if parts.len() >= 3 {
                                is_on(parts[2])
                            } else {
                                true
                            },
                        },
                    ),
                ),
                _ => refuse("volume must be 0-1"@),
            }
        }
    } else if verb == "power"@ {
        match split_once(rest, ' ') {
            None => refuse("usage: power <battery_fps> <freeze_on_saver>"@),
            Some((fps, freeze)) => match u32_of(fps) {
                Some(n) if n <= 240 => send(
                    CommandView::SetPower(PowerPolicy { battery_fps: n, pause_on_saver: is_on(freeze) }),
                ),
                _ => refuse("battery fps must be 0 or 1-240"@),
            },
        }
    } else if verb == "speed"@ {
        match rd(rest) {
            Some(rate) if within(le, lim.quarter, rate, lim.two) => send(CommandView::SetSpeed(rate)),
            _ => refuse("speed must be 0.25-2.0"@),
        }
    } else if verb == "fade"@ {
        match u64_of(rest) {
            Some(ms) if ms <= 3000 => send(CommandView::SetFade(ms)),
            _ => refuse("fade must be 0-3000 milliseconds"@),
        }
    } else if verb == "span"@ {
        send(CommandView::SetSpan(is_on(rest)))
    } else if verb == "hotkeys"@ {
        send(CommandView::SetHotkeys(is_on(rest)))
    } else if verb == "motion"@ {
        let ns = numbers(split(rest, ' '), rd);
        if ns.len() != 2 {
            refuse("usage: motion <reactive> <parallax>"@)
        } else if !(within(le, lim.zero, ns[0], lim.one) && within(le, lim.zero, ns[1], lim.one)) {
            refuse("reactive and parallax are 0-1"@)
        } else {
            send(CommandView::SetMotion(Motion { reactive: ns[0], parallax: ns[1] }))
        }
    } else if verb == "memory"@ {
        match u32_of(rest) {
            Some(mb) if mb == 0 || 100 <= mb <= 4096 => send(CommandView::SetMemory(mb)),
            _ => refuse("memory must be 0 or 100-4096 MB"@),
        }
    } else if verb == "apps"@ {
        send(CommandView::SetApps(crate::power::apps::spec_parse_list(rest)))
    } else if verb == "rules"@ {
        send(CommandView::SetRules(crate::compositor::rules::spec_parse(rest)))
    } else {
        third_verbs(verb, rest, rd, le, lt, lim, frozen)
    }
}

/// Idling, the busy rate, reduced motion, drift, accent, shaders, scenes,
/// hibernation, freezing, a monitor's own settings, rewriting and quitting.
pub open spec fn third_verbs<F>(
    verb: Seq<char>,
    rest: Seq<char>,
    rd: spec_fn(Seq<char>) -> Option<F>,
    le: spec_fn(F, F) -> bool,
    lt: spec_fn(F, F) -> bool,
    lim: Limits<F>,
    frozen: bool,
) -> Request<F> {
    if verb == "idle"@ {
        match u64_of(rest) {
            Some(secs) if secs == 0 || 60 <= secs <= 14400 => send(CommandView::SetIdle(secs)),
            _ => refuse("idle must be 0 or 60-14400 seconds"@),
        }
    } else if verb == "busy"@ {
        match u32_of(rest) {
            Some(fps) if fps == 0 || 1 <= fps <= 60 => send(CommandView::SetBusyFps(fps)),
            _ => refuse("busy must be 0 or 1-60 fps"@),
        }
    } else if verb == "reducemotion"@ {
        send(CommandView::SetReduceMotion(is_on(rest)))
    } else if verb == "drift"@ {
        match rd(rest) {
            Some(drift) if within(le, lim.zero, drift, lim.one) => send(CommandView::SetDrift(drift)),
            _ => refuse("drift must be 0-1"@),
        }
    } else if verb == "accent"@ {
        send(CommandView::SetAccent(is_on(rest)))
    } else if verb == "shader"@ {
        // `shader <path>|<name>=<value>|...`: the path first, because it is
        // the only field that may hold spaces.
        let parts = split(rest, '|');
        if parts[0].len() == 0 {
            refuse("usage: shader <path>|<name>=<value>"@)
        } else {
            let values = param_values(parts.drop_first(), rd);
            if values.len() == 0 {
                refuse("no settings in that message"@)
            } else {
                send(CommandView::SetShaderParams { path: parts[0], values })
            }
        }
    } else if verb == "scene"@ {
        match split_once(rest, ' ') {
            Some((action, name)) => if action == "save"@ && crate::compositor::scenes::spec_valid_name(name) {
                send(CommandView::SaveScene(name))
            } else if action == "load"@ {
                send(CommandView::LoadScene(name))
            } else if action == "delete"@ {
                send(CommandView::DeleteScene(name))
            } else {
                refuse("usage: scene <save|load|delete> <name>"@)
            },
            None => refuse("usage: scene <save|load|delete> <name>"@),
        }
    } else if verb == "hibernate"@ {
        match u64_of(rest) {
            // Below five seconds this would fire on an alt-tab; an hour is
            // long enough to mean "never".
            Some(secs) if secs == 0 || 5 <= secs <= 3600 => send(CommandView::SetHibernate(secs)),
            _ => refuse("hibernate must be 0 or 5-3600 seconds"@),
        }
    } else if verb == "freeze"@ {
        if rest == "on"@ || rest == "true"@ {
            send(CommandView::Freeze(true))
        } else if rest == "off"@ || rest == "false"@ {
            send(CommandView::Freeze(false))
        } else if rest == "toggle"@ || rest.len() == 0 {
            send(CommandView::Freeze(!frozen))
        } else {
            refuse("usage: freeze <on|off|toggle>"@)
        }
    } else if verb == "own"@ {
        match spec_parse_overrides(rest, rd, le, lt, lim) {
            Ok((monitor, overrides)) => send(CommandView::SetOverrides { monitor, overrides }),
            Err(message) => refuse(message),
        }
    } else if verb == "optimize"@ && rest.len() > 0 {
        Request::Optimize(rest)
    } else if verb == "quit"@ {
        send(CommandView::Quit)
    } else {
        refuse("unknown command"@)
    }
}

/// What a request line asks for: its verb is what comes before the first
/// space, and what follows is taken trimmed. `frozen` is whether the
/// wallpaper stands still now, which `freeze toggle` turns round.
pub open spec fn spec_request<F>(
    line: Seq<char>,
    rd: spec_fn(Seq<char>) -> Option<F>,
    le: spec_fn(F, F) -> bool,
    lt: spec_fn(F, F) -> bool,
    lim: Limits<F>,
    frozen: bool,
) -> Request<F> {
    let t = trim(line);
    let (verb, rest) = match split_once(t, ' ') {
        Some((v, r)) => (v, trim(r)),
        None => (t, Seq::empty()),
    };
    first_verbs(verb, rest, rd, le, lt, lim, frozen)
}

/// Two words with one space between them, as trimming and splitting at the
/// first space see them.
proof fn lemma_two_words(a: Seq<char>, b: Seq<char>)
    requires
        a.len() > 0,
        !is_ws(a[0]),
        !a.contains(' '),
        b.len() > 0,
        !is_ws(b.last()),
    ensures
        trim(a + seq![' '] + b) == a + seq![' '] + b,
        split_once(a + seq![' '] + b, ' ') == Some((a, b)),
{
    let line = a + seq![' '] + b;
    assert(line[0] == a[0]);
    assert(line.last() == b.last());
    lemma_trim_start_keeps_nonspace(line);
    lemma_trim_end_keeps_nonspace(line);
    lemma_find_after(a, ' ', b);
    assert(line.take(a.len() as int) =~= a);
    assert(line.skip(a.len() as int + 1) =~= b);
}

proof fn lemma_enable_request<F>(
    monitor: Seq<char>,
    value: Seq<char>,
    rd: spec_fn(Seq<char>) -> Option<F>,
    le: spec_fn(F, F) -> bool,
    lt: spec_fn(F, F) -> bool,
    lim: Limits<F>,
    frozen: bool,
)
    requires
        monitor.len() > 0,
        !is_ws(monitor[0]),
        !monitor.contains(' '),
        value.len() > 0,
        !is_ws(value.last()),
    ensures
        spec_request("enable "@ + monitor + " "@ + value, rd, le, lt, lim, frozen) == send::<F>(
            CommandView::SetEnabled { monitor, enabled: value == "true"@ },
        ),
{
    reveal_strlit("enable ");
    reveal_strlit("enable");
    reveal_strlit(" ");
    reveal_strlit("status");
    reveal_strlit("monitors");
    reveal_strlit("set");
    reveal_strlit("next");
    let verb = "enable"@;
    let rest = monitor + seq![' '] + value;
    let line = "enable "@ + monitor + " "@ + value;
    assert(line =~= verb + seq![' '] + rest);
    assert(!verb.contains(' ')) by {
        assert forall|i: int| 0 <= i < verb.len() implies verb[i] != ' ' by {}
    }
    assert(rest[0] == monitor[0]);
    assert(rest.last() == value.last());
    lemma_two_words(verb, rest);
    lemma_two_words(monitor, value);
    assert(verb != "status"@ && verb != "monitors"@ && verb != "set"@ && verb != "next"@) by {
        assert(verb[0] != "status"@[0]);
        assert(verb[0] != "monitors"@[0]);
        assert(verb[0] != "set"@[0]);
        assert(verb[0] != "next"@[0]);
    }
    assert(spec_request(line, rd, le, lt, lim, frozen) == first_verbs(verb, rest, rd, le, lt, lim, frozen));
}

/// `enable <monitor> <value>` switches that monitor on exactly when the
/// value is `true`, and off for any other value.
pub proof fn lemma_enable_line<F>(
    monitor: Seq<char>,
    value: Seq<char>,
    rd: spec_fn(Seq<char>) -> Option<F>,
    le: spec_fn(F, F) -> bool,
    lt: spec_fn(F, F) -> bool,
    lim: Limits<F>,
    frozen: bool,
)
    requires
        monitor.len() > 0,
        !is_ws(monitor[0]),
        !monitor.contains(' '),
        value.len() > 0,
        !is_ws(value.last()),
    ensures
        spec_request("enable "@ + monitor + " "@ + value, rd, le, lt, lim, frozen) == send::<F>(
            CommandView::SetEnabled { monitor, enabled: value == "true"@ },
        ),
        spec_request("enable "@ + monitor + " true"@, rd, le, lt, lim, frozen) == send::<F>(
            CommandView::SetEnabled { monitor, enabled: true },
        ),
{
    reveal_strlit(" true");
    reveal_strlit(" ");
    reveal_strlit("true");
    lemma_enable_request(monitor, value, rd, le, lt, lim, frozen);
    let t = "true"@;
    assert(" true"@ =~= " "@ + t);
    assert("enable "@ + monitor + " true"@ =~= "enable "@ + monitor + " "@ + t);
    assert(t.last() == 'e');
    lemma_enable_request(monitor, t, rd, le, lt, lim, frozen);
}

/// A line of a verb, one space and one word is read as that verb with that
/// word.
proof fn lemma_verb_line<F>(
    verb: Seq<char>,
    arg: Seq<char>,
    rd: spec_fn(Seq<char>) -> Option<F>,
    le: spec_fn(F, F) -> bool,
    lt: spec_fn(F, F) -> bool,
    lim: Limits<F>,
    frozen: bool,
)
    requires
        verb.len() > 0,
        !is_ws(verb[0]),
        !verb.contains(' '),
        arg.len() > 0,
        !is_ws(arg[0]),
        !is_ws(arg.last()),
    ensures
        spec_request(verb + seq![' '] + arg, rd, le, lt, lim, frozen) == first_verbs(verb, arg, rd, le, lt, lim, frozen),
{
    lemma_two_words(verb, arg);
    lemma_trim_start_keeps_nonspace(arg);
    lemma_trim_end_keeps_nonspace(arg);
}

/// A number written in decimal is one word: digits, and nothing to trim.
proof fn lemma_decimal_word(n: nat)
    ensures
        decimal(n).len() > 0,
        !is_ws(decimal(n)[0]),
        !is_ws(decimal(n).last()),
{
    crate::text::lemma_decimal_len(n);
    let d = decimal(n);
    assert(crate::text::is_digit(d[0]));
    assert(crate::text::is_digit(d[d.len() - 1]));
}

/// `fps <n>` sets the frame rate to `n` when it is 1 to 240, and is
/// refused otherwise.
pub proof fn lemma_fps_line<F>(
    n: u32,
    rd: spec_fn(Seq<char>) -> Option<F>,
    le: spec_fn(F, F) -> bool,
    lt: spec_fn(F, F) -> bool,
    lim: Limits<F>,
    frozen: bool,
)
    ensures
        spec_request("fps "@ + decimal(n as nat), rd, le, lt, lim, frozen) == if 1 <= n && n <= 240 {
            send::<F>(CommandView::Fps(n))
        } else {
            refuse::<F>("fps must be 1-240"@)
        },
{
    reveal_strlit("fps ");
    reveal_strlit("fps");
    reveal_strlit("status");
    reveal_strlit("monitors");
    reveal_strlit("set");
    reveal_strlit("next");
    reveal_strlit("enable");
    let verb = "fps"@;
    let arg = decimal(n as nat);
    assert("fps "@ + arg =~= verb + seq![' '] + arg);
    assert(!verb.contains(' ')) by {
        assert forall|i: int| 0 <= i < verb.len() implies verb[i] != ' ' by {}
    }
    lemma_decimal_word(n as nat);
    lemma_verb_line(verb, arg, rd, le, lt, lim, frozen);
    crate::text::lemma_parse_decimal(n as nat, u32::MAX as nat);
    assert(u32_of(arg) == Some(n));
    assert(verb != "status"@ && verb != "monitors"@ && verb != "set"@ && verb != "next"@
        && verb != "enable"@) by {
        assert(verb[0] != "status"@[0]);
        assert(verb[0] != "monitors"@[0]);
        assert(verb[0] != "set"@[0]);
        assert(verb[0] != "next"@[0]);
        assert(verb[0] != "enable"@[0]);
    }
}

/// `interval <n>` sets the time between items to `n` seconds when it is 0
/// (no timer) or a minute to a day, and is refused otherwise.
pub proof fn lemma_interval_line<F>(
    n: u64,
    rd: spec_fn(Seq<char>) -> Option<F>,
    le: spec_fn(F, F) -> bool,
    lt: spec_fn(F, F) -> bool,
    lim: Limits<F>,
    frozen: bool,
)
    ensures
        spec_request("interval "@ + decimal(n as nat), rd, le, lt, lim, frozen) == if n == 0 || (60 <= n
            && n <= 86400) {
            send::<F>(CommandView::Interval(n))
        } else {
            refuse::<F>("interval must be 0 or 60-86400 seconds"@)
        },
{
    reveal_strlit("interval ");
    reveal_strlit("interval");
    reveal_strlit("status");
    reveal_strlit("monitors");
    reveal_strlit("set");
    reveal_strlit("next");
    reveal_strlit("enable");
    reveal_strlit("fps");
    reveal_strlit("fit");
    reveal_strlit("shuffle");
    let verb = "interval"@;
    let arg = decimal(n as nat);
    assert("interval "@ + arg =~= verb + seq![' '] + arg);
    assert(!verb.contains(' ')) by {
        assert forall|i: int| 0 <= i < verb.len() implies verb[i] != ' ' by {}
    }
    lemma_decimal_word(n as nat);
    lemma_verb_line(verb, arg, rd, le, lt, lim, frozen);
    crate::text::lemma_parse_decimal(n as nat, u64::MAX as nat);
    assert(u64_of(arg) == Some(n));
    assert(verb != "status"@ && verb != "monitors"@ && verb != "set"@ && verb != "next"@
        && verb != "enable"@ && verb != "fps"@ && verb != "fit"@ && verb != "shuffle"@) by {
        assert(verb[0] != "status"@[0]);
        assert(verb[0] != "monitors"@[0]);
        assert(verb[0] != "set"@[0]);
        assert(verb[0] != "next"@[0]);
        assert(verb[0] != "enable"@[0]);
        assert(verb[0] != "fps"@[0]);
        assert(verb[0] != "fit"@[0]);
        assert(verb[0] != "shuffle"@[0]);
    }
}

/// What a line asks for, as the library holds it.
enum Asked<F> {
    Act(Action<F>),
    Playlist(String, Vec<String>),
    Optimize(String),
}

spec fn asked_view<F>(a: Asked<F>) -> Request<F> {
    match a {
        Asked::Act(x) => Request::Act(action_view(x)),
        Asked::Playlist(m, items) => Request::Playlist(m@, string_views(items@)),
        Asked::Optimize(p) => Request::Optimize(p@),
    }
}

fn sent<F>(c: Command<F>) -> (r: Asked<F>)
    ensures
        r == Asked::Act(Action::Send(c)),
{
    Asked::Act(Action::Send(c))
}

fn refused<F>(m: &str) -> (r: Asked<F>)
    ensures
        asked_view(r) == refuse::<F>(m@),
{
    Asked::Act(Action::Refuse(text_of(m)))
}

fn flag_on(v: &[char]) -> (r: bool)
    ensures
        r == is_on(v@),
{
    crate::text::same_str(v, "on") || crate::text::same_str(v, "true")
}

fn string_from(v: &[char]) -> (s: String)
    ensures
        s@ == v@,
{
    crate::text::string_of(v)
}

fn first_verbs_exec<F: Copy, R: Fn(&str) -> Option<F>, C: Fn(F, F) -> bool, D: Fn(F, F) -> bool>(
    verb: &[char],
    rest: &[char],
    read: &R,
    le: &C,
    lt: &D,
    lim: Limits<F>,
    frozen: bool,
) -> (r: Asked<F>)
    requires
        is_reader(*read),
        is_relation(*le),
        is_relation(*lt),
    ensures
        asked_view(r) == first_verbs(verb@, rest@, reader_fn(*read), relation_fn(*le), relation_fn(*lt), lim, frozen),
{
    if crate::text::same_str(verb, "status") {
        Asked::Act(Action::Status)
    } else if crate::text::same_str(verb, "monitors") {
        Asked::Act(Action::Monitors)
    } else if crate::text::same_str(verb, "set") {
        match crate::text::split_once_vec(rest, ' ') {
            None => {
                let none: Vec<String> = Vec::new();
                assert(string_views(none@) =~= Seq::<Seq<char>>::empty());
                Asked::Playlist(string_from(rest), none)
            },
            Some((monitor, list)) => {
                let items = crate::power::apps::parse_list(string_from(list.as_slice()).as_str());
                Asked::Playlist(string_from(monitor.as_slice()), items)
            },
        }
    } else if crate::text::same_str(verb, "next") && rest.len() > 0 {
        sent(Command::Next { monitor: string_from(rest) })
    } else if crate::text::same_str(verb, "enable") {
        match crate::text::split_once_vec(rest, ' ') {
            Some((monitor, value)) => sent(
                Command::SetEnabled {
                    monitor: string_from(monitor.as_slice()),
                    enabled: crate::text::same_str(value.as_slice(), "true"),
                },
            ),
            None => refused("usage: enable <monitor> <true|false>"),
        }
    } else if crate::text::same_str(verb, "fps") {
        match crate::session::u32_exec(rest) {
            Some(n) if 1 <= n && n <= 240 => sent(Command::Fps(n)),
            _ => refused("fps must be 1-240"),
        }
    } else if crate::text::same_str(verb, "fit") {
        match Fit::parse(string_from(rest).as_str()) {
            Some(f) => sent(Command::SetFit(f)),
            None => refused("fit must be cover, contain or stretch"),
        }
    } else if crate::text::same_str(verb, "shuffle") {
        sent(Command::SetShuffle(flag_on(rest)))
    } else if crate::text::same_str(verb, "interval") {
        match crate::session::u64_exec(rest) {
            Some(n) if n == 0 || (60 <= n && n <= 86400) => sent(Command::Interval(n)),
            _ => refused("interval must be 0 or 60-86400 seconds"),
        }
    } else if crate::text::same_str(verb, "visual") {
        let tokens = crate::text::split_vec(rest, ' ');
        let ns = crate::session::numbers_of(&tokens, read);
        if ns.len() != 3 {
            refused("usage: visual <brightness> <saturation> <blur>")
        } else if !(within_exec(le, lim.zero, ns[0], lim.two) && within_exec(le, lim.zero, ns[1], lim.two)
            && within_exec(le, lim.zero, ns[2], lim.one)) {
            refused("brightness and saturation are 0-2, blur is 0-1")
        } else {
            sent(Command::SetVisual(Visual { brightness: ns[0], saturation: ns[1], blur: ns[2] }))
        }
    } else {
        second_verbs_exec(verb, rest, read, le, lt, lim, frozen)
    }
}

fn second_verbs_exec<F: Copy, R: Fn(&str) -> Option<F>, C: Fn(F, F) -> bool, D: Fn(F, F) -> bool>(
    verb: &[char],
    rest: &[char],
    read: &R,
    le: &C,
    lt: &D,
    lim: Limits<F>,
    frozen: bool,
) -> (r: Asked<F>)
    requires
        is_reader(*read),
        is_relation(*le),
        is_relation(*lt),
    ensures
        asked_view(r) == second_verbs(verb@, rest@, reader_fn(*read), relation_fn(*le), relation_fn(*lt), lim, frozen),
{
    if crate::text::same_str(verb, "sound") {
        let parts = crate::text::split_vec(rest, ' ');
        let ghost ps = split(rest@, ' ');
        assert(crate::text::views(parts@) == ps);
        if parts.len() < 2 {
            refused("usage: sound <on|off> <volume> [duck]")
        } else {
            assert(ps[1] == parts@[1]@ && ps[0] == parts@[0]@);
            match crate::session::read_text(read, parts[1].as_slice()) {
                Some(volume) if within_exec(le, lim.zero, volume, lim.one) => {
                    let duck = if parts.len() >= 3 {
                        assert(ps[2] == parts@[2]@);
                        flag_on(parts[2].as_slice())
                    } else {
                        true
                    };
                    sent(
                        Command::SetSound(
                            Sound { enabled: crate::text::same_str(parts[0].as_slice(), "on"), volume, duck },
                        ),
                    )
                },
                _ => refused("volume must be 0-1"),
            }
        }
    } else if crate::text::same_str(verb, "power") {
        match crate::text::split_once_vec(rest, ' ') {
            None => refused("usage: power <battery_fps> <freeze_on_saver>"),
            Some((fps, freeze)) => match crate::session::u32_exec(fps.as_slice()) {
                Some(n) if n <= 240 => sent(
                    Command::SetPower(PowerPolicy { battery_fps: n, pause_on_saver: flag_on(freeze.as_slice()) }),
                ),
                _ => refused("battery fps must be 0 or 1-240"),
            },
        }
    } else if crate::text::same_str(verb, "speed") {
        match crate::session::read_text(read, rest) {
            Some(rate) if within_exec(le, lim.quarter, rate, lim.two) => sent(Command::SetSpeed(rate)),
            _ => refused("speed must be 0.25-2.0"),
        }
    } else if crate::text::same_str(verb, "fade") {
        match crate::session::u64_exec(rest) {
            Some(ms) if ms <= 3000 => sent(Command::SetFade(ms)),
            _ => refused("fade must be 0-3000 milliseconds"),
        }
    } else if crate::text::same_str(verb, "span") {
        sent(Command::SetSpan(flag_on(rest)))
    } else if crate::text::same_str(verb, "hotkeys") {
        sent(Command::SetHotkeys(flag_on(rest)))
    } else if crate::text::same_str(verb, "motion") {
        let tokens = crate::text::split_vec(rest, ' ');
        let ns = crate::session::numbers_of(&tokens, read);
        if ns.len() != 2 {
            refused("usage: motion <reactive> <parallax>")
        } else if !(within_exec(le, lim.zero, ns[0], lim.one) && within_exec(le, lim.zero, ns[1], lim.one)) {
            refused("reactive and parallax are 0-1")
        } else {
            sent(Command::SetMotion(Motion { reactive: ns[0], parallax: ns[1] }))
        }
    } else if crate::text::same_str(verb, "memory") {
        match crate::session::u32_exec(rest) {
            Some(mb) if mb == 0 || (100 <= mb && mb <= 4096) => sent(Command::SetMemory(mb)),
            _ => refused("memory must be 0 or 100-4096 MB"),
        }
    } else if crate::text::same_str(verb, "apps") {
        sent(Command::SetApps(crate::power::apps::parse_list(string_from(rest).as_str())))
    } else if crate::text::same_str(verb, "rules") {
        sent(Command::SetRules(crate::compositor::rules::parse(string_from(rest).as_str())))
    } else {
        third_verbs_exec(verb, rest, read, le, lt, lim, frozen)
    }
}

fn third_verbs_exec<F: Copy, R: Fn(&str) -> Option<F>, C: Fn(F, F) -> bool, D: Fn(F, F) -> bool>(
    verb: &[char],
    rest: &[char],
    read: &R,
    le: &C,
    lt: &D,
    lim: Limits<F>,
    frozen: bool,
) -> (r: Asked<F>)
    requires
        is_reader(*read),
        is_relation(*le),
        is_relation(*lt),
    ensures
        asked_view(r) == third_verbs(verb@, rest@, reader_fn(*read), relation_fn(*le), relation_fn(*lt), lim, frozen),
{
    if crate::text::same_str(verb, "idle") {
        match crate::session::u64_exec(rest) {
            Some(secs) if secs == 0 || (60 <= secs && secs <= 14400) => sent(Command::SetIdle(secs)),
            _ => refused("idle must be 0 or 60-14400 seconds"),
        }
    } else if crate::text::same_str(verb, "busy") {
        match crate::session::u32_exec(rest) {
            Some(fps) if fps == 0 || (1 <= fps && fps <= 60) => sent(Command::SetBusyFps(fps)),
            _ => refused("busy must be 0 or 1-60 fps"),
        }
    } else if crate::text::same_str(verb, "reducemotion") {
        sent(Command::SetReduceMotion(flag_on(rest)))
    } else if crate::text::same_str(verb, "drift") {
        match crate::session::read_text(read, rest) {
            Some(drift) if within_exec(le, lim.zero, drift, lim.one) => sent(Command::SetDrift(drift)),
            _ => refused("drift must be 0-1"),
        }
    } else if crate::text::same_str(verb, "accent") {
        sent(Command::SetAccent(flag_on(rest)))
    } else if crate::text::same_str(verb, "shader") {
        let parts = crate::text::split_vec(rest, '|');
        let ghost ps = split(rest@, '|');
        assert(crate::text::views(parts@) == ps);
        assert(ps[0] == parts@[0]@);
        if parts[0].len() == 0 {
            refused("usage: shader <path>|<name>=<value>")
        } else {
            let values = crate::session::param_values_of(&parts, 1, read);
            assert(ps.skip(1) =~= ps.drop_first());
            if values.len() == 0 {
                refused("no settings in that message")
            } else {
                sent(Command::SetShaderParams { path: string_from(parts[0].as_slice()), values })
            }
        }
    } else if crate::text::same_str(verb, "scene") {
        match crate::text::split_once_vec(rest, ' ') {
            Some((action, name)) => {
                let name_text = string_from(name.as_slice());
                if crate::text::same_str(action.as_slice(), "save") && crate::compositor::scenes::valid_name(
                    name_text.as_str(),
                ) {
                    sent(Command::SaveScene(name_text))
                } else if crate::text::same_str(action.as_slice(), "load") {
                    sent(Command::LoadScene(name_text))
                } else if crate::text::same_str(action.as_slice(), "delete") {
                    sent(Command::DeleteScene(name_text))
                } else {
                    refused("usage: scene <save|load|delete> <name>")
                }
            },
            None => refused("usage: scene <save|load|delete> <name>"),
        }
    } else if crate::text::same_str(verb, "hibernate") {
        match crate::session::u64_exec(rest) {
            Some(secs) if secs == 0 || (5 <= secs && secs <= 3600) => sent(Command::SetHibernate(secs)),
            _ => refused("hibernate must be 0 or 5-3600 seconds"),
        }
    } else if crate::text::same_str(verb, "freeze") {
        if crate::text::same_str(rest, "on") || crate::text::same_str(rest, "true") {
            sent(Command::Freeze(true))
        } else if crate::text::same_str(rest, "off") || crate::text::same_str(rest, "false") {
            sent(Command::Freeze(false))
        } else if crate::text::same_str(rest, "toggle") || rest.len() == 0 {
            sent(Command::Freeze(!frozen))
        } else {
            refused("usage: freeze <on|off|toggle>")
        }
    } else if crate::text::same_str(verb, "own") {
        match parse_overrides(string_from(rest).as_str(), read, le, lt, lim) {
            Ok((monitor, overrides)) => sent(Command::SetOverrides { monitor, overrides }),
            Err(message) => Asked::Act(Action::Refuse(message)),
        }
    } else if crate::text::same_str(verb, "optimize") && rest.len() > 0 {
        Asked::Optimize(string_from(rest))
    } else if crate::text::same_str(verb, "quit") {
        sent(Command::Quit)
    } else {
        refused("unknown command")
    }
}

/// `is_file` has answered `b` for a path with this view.
pub open spec fn answered<E: Fn(&str) -> bool>(is_file: E, t: Seq<char>, b: bool) -> bool {
    exists|a: &str| a@ == t && #[trigger] call_ensures(is_file, (a,), b)
}

/// How a playlist is answered, given what was found on disk: set, when
/// every item is a file; refused at the first item that is not.
pub open spec fn playlist_answer<F, E: Fn(&str) -> bool>(
    v: ActionView<F>,
    monitor: Seq<char>,
    items: Seq<Seq<char>>,
    is_file: E,
) -> bool {
    ||| (v == ActionView::Send(CommandView::<F>::SetPlaylist { monitor, items }) && forall|i: int|
        0 <= i < items.len() ==> answered(is_file, #[trigger] items[i], true))
    ||| exists|k: int|
        0 <= k < items.len() && (forall|i: int| 0 <= i < k ==> answered(is_file, #[trigger] items[i], true))
            && answered(is_file, items[k], false) && v == ActionView::<F>::Refuse("no such file: "@ + items[k])
}

/// What a request line is answered with. `frozen` is whether the wallpaper
/// stands still now; `is_file` says whether a path names a file, and is
/// asked of each item of a playlist, in order, until one is not, and of a
/// clip to rewrite.
pub fn decide<
    F: Copy,
    R: Fn(&str) -> Option<F>,
    C: Fn(F, F) -> bool,
    D: Fn(F, F) -> bool,
    E: Fn(&str) -> bool,
>(line: &str, read: &R, le: &C, lt: &D, lim: Limits<F>, frozen: bool, is_file: &E) -> (r: Action<F>)
    requires
        is_reader(*read),
        is_relation(*le),
        is_relation(*lt),
        forall|a: &str| #[trigger] call_requires(*is_file, (a,)),
    ensures
        match spec_request(line@, reader_fn(*read), relation_fn(*le), relation_fn(*lt), lim, frozen) {
            Request::Act(a) => action_view(r) == a,
            Request::Playlist(monitor, items) => playlist_answer(action_view(r), monitor, items, *is_file),
            Request::Optimize(path) => (action_view(r) == ActionView::<F>::Optimize(path) && answered(
                *is_file,
                path,
                true,
            )) || (action_view(r) == ActionView::<F>::Refuse("no such file"@) && answered(*is_file, path, false)),
        },
{
    let chars = crate::text::chars_of(line);
    let t = crate::text::trim_vec(chars.as_slice());
    let (verb, rest) = match crate::text::split_once_vec(t.as_slice(), ' ') {
        Some((v, r)) => (v, crate::text::trim_vec(r.as_slice())),
        None => {
            let nothing: Vec<char> = Vec::new();
            assert(nothing@ =~= Seq::<char>::empty());
            (t, nothing)
        },
    };
    let asked = first_verbs_exec(verb.as_slice(), rest.as_slice(), read, le, lt, lim, frozen);
    let ghost want = spec_request(line@, reader_fn(*read), relation_fn(*le), relation_fn(*lt), lim, frozen);
    assert(asked_view(asked) == want);
    match asked {
        Asked::Act(a) => a,
        Asked::Playlist(monitor, items) => {
            let mut i: usize = 0;
            while i < items.len()
                invariant
                    i <= items@.len(),
                    want == Request::<F>::Playlist(monitor@, string_views(items@)),
                    want == spec_request(line@, reader_fn(*read), relation_fn(*le), relation_fn(*lt), lim, frozen),
                    forall|a: &str| #[trigger] call_requires(*is_file, (a,)),
                    forall|k: int| 0 <= k < i ==> answered(*is_file, #[trigger] string_views(items@)[k], true),
                decreases items@.len() - i,
            {
                let found = is_file(items[i].as_str());
                assert(answered(*is_file, string_views(items@)[i as int], found));
                if !found {
                    let mut message = text_of("no such file: ");
                    crate::text::push_str(&mut message, items[i].as_str());
                    let r = Action::Refuse(message);
                    assert(playlist_answer(action_view(r), monitor@, string_views(items@), *is_file));
                    return r;
                }
                i = i + 1;
            }
            Action::Send(Command::SetPlaylist { monitor, items })
        },
        Asked::Optimize(path) => {
            let found = is_file(path.as_str());
            if found {
                Action::Optimize(path)
            } else {
                Action::Refuse(text_of("no such file"))
            }
        },
    }
}

// ---------------------------------------------------------------------------
// The displays, and the size a clip is rewritten at
// ---------------------------------------------------------------------------

/// An integer in decimal, with a minus sign when it is below zero.
pub open spec fn signed(n: int) -> Seq<char> {
    if n < 0 {
        seq!['-'] + decimal((-n) as nat)
    } else {
        decimal(n as nat)
    }
}

fn push_signed(s: &mut String, n: i32)
    ensures
        final(s)@ == old(s)@ + signed(n as int),
{
    if n < 0 {
        push_char(s, '-');
        let magnitude: i64 = -(n as i64);
        let ghost before = s@;
        push_decimal(s, magnitude as u64);
        assert(s@ =~= old(s)@ + signed(n as int));
    } else {
        push_decimal(s, n as u64);
    }
}

/// `true` or `false`.
pub open spec fn word(b: bool) -> Seq<char> {
    if b {
        "true"@
    } else {
        "false"@
    }
}

fn push_word(s: &mut String, b: bool)
    ensures
        final(s)@ == old(s)@ + word(b),
{
    if b {
        push_str(s, "true");
    } else {
        push_str(s, "false");
    }
}

/// `monitor <name> <x> <y> <w> <h> <hz> <primary> <adapter>`.
pub open spec fn display_line(m: MonitorInfo, adapter: Seq<char>) -> Seq<char> {
    "monitor "@ + m.device_name@ + seq![' '] + signed(m.x as int) + seq![' '] + signed(m.y as int) + seq![' ']
        + decimal(m.width as nat) + seq![' '] + decimal(m.height as nat) + seq![' '] + decimal(
        m.refresh_hz as nat,
    ) + seq![' '] + word(m.primary) + seq![' '] + adapter + seq!['\n']
}

pub open spec fn display_lines(outputs: Seq<MonitorInfo>, adapter: Seq<char>) -> Seq<char>
    decreases outputs.len(),
{
    if outputs.len() == 0 {
        Seq::empty()
    } else {
        display_lines(outputs.drop_last(), adapter) + display_line(outputs.last(), adapter)
    }
}

pub open spec fn adapter_display_lines(adapters: Seq<AdapterInfo>) -> Seq<char>
    decreases adapters.len(),
{
    if adapters.len() == 0 {
        Seq::empty()
    } else {
        adapter_display_lines(adapters.drop_last()) + display_lines(
            adapters.last().outputs@,
            adapters.last().name@,
        )
    }
}

/// The answer to `monitors`: one line per display, adapter by adapter, then
/// `end`.
pub open spec fn spec_monitors_reply(profile: GpuProfile) -> Seq<char> {
    adapter_display_lines(profile.adapters@) + "end\n"@
}

fn push_display_line(s: &mut String, m: &MonitorInfo, adapter: &String)
    ensures
        final(s)@ == old(s)@ + display_line(*m, adapter@),
{
    let ghost start = s@;
    push_str(s, "monitor ");
    push_str(s, m.device_name.as_str());
    push_char(s, ' ');
    push_signed(s, m.x);
    push_char(s, ' ');
    push_signed(s, m.y);
    push_char(s, ' ');
    push_decimal(s, m.width as u64);
    push_char(s, ' ');
    push_decimal(s, m.height as u64);
    push_char(s, ' ');
    push_decimal(s, m.refresh_hz as u64);
    push_char(s, ' ');
    push_word(s, m.primary);
    push_char(s, ' ');
    push_str(s, adapter.as_str());
    push_char(s, '\n');
    assert(s@ =~= start + display_line(*m, adapter@));
}

/// The answer to `monitors`.
pub fn monitors_reply(profile: &GpuProfile) -> (text: String)
    ensures
        text@ == spec_monitors_reply(*profile),
{
    let mut out = String::new();
    let mut a: usize = 0;
    let ghost ads = profile.adapters@;
    while a < profile.adapters.len()
        invariant
            a <= ads.len(),
            ads == profile.adapters@,
            out@ == adapter_display_lines(ads.take(a as int)),
        decreases ads.len() - a,
    {
        let adapter = &profile.adapters[a];
        let ghost before = out@;
        let mut k: usize = 0;
        while k < adapter.outputs.len()
            invariant
                k <= adapter.outputs@.len(),
                out@ == before + display_lines(adapter.outputs@.take(k as int), adapter.name@),
            decreases adapter.outputs@.len() - k,
        {
            push_display_line(&mut out, &adapter.outputs[k], &adapter.name);
            assert(adapter.outputs@.take(k + 1).drop_last() =~= adapter.outputs@.take(k as int));
            k = k + 1;
        }
        assert(adapter.outputs@.take(k as int) =~= adapter.outputs@);
        assert(ads.take(a + 1).drop_last() =~= ads.take(a as int));
        a = a + 1;
    }
    assert(ads.take(a as int) =~= ads);
    push_str(&mut out, "end\n");
    out
}

pub open spec fn area(m: MonitorInfo) -> int {
    m.width as int * m.height as int
}

/// The display with the most pixels; of several alike, the last.
pub open spec fn largest(ms: Seq<MonitorInfo>) -> Option<MonitorInfo>
    decreases ms.len(),
{
    if ms.len() == 0 {
        None
    } else {
        match largest(ms.drop_last()) {
            None => Some(ms.last()),
            Some(best) => if area(ms.last()) >= area(best) {
                Some(ms.last())
            } else {
                Some(best)
            },
        }
    }
}

/// The display `largest` picks is one of them, and none has more pixels.
pub proof fn lemma_largest_has_most_pixels(ms: Seq<MonitorInfo>)
    ensures
        largest(ms) is None <==> ms.len() == 0,
        largest(ms) matches Some(m) ==> (exists|i: int| 0 <= i < ms.len() && #[trigger] ms[i] == m)
            && forall|j: int|
            0 <= j < ms.len() ==> (#[trigger] ms[j]).width as int * ms[j].height as int <= m.width as int
                * m.height as int,
    decreases ms.len(),
{
    if ms.len() > 0 {
        let init = ms.drop_last();
        lemma_largest_has_most_pixels(init);
        let m = largest(ms)->0;
        assert(ms[ms.len() - 1] == ms.last());
        if let Some(best) = largest(init) {
            let i = choose|i: int| 0 <= i < init.len() && #[trigger] init[i] == best;
            assert(ms[i] == init[i]);
        }
        assert forall|j: int| 0 <= j < ms.len() implies (#[trigger] ms[j]).width as int * ms[j].height as int
            <= m.width as int * m.height as int by {
            if j < ms.len() - 1 {
                assert(ms[j] == init[j]);
            }
        }
    }
}

/// The size a clip is rewritten at: the largest screen's, since a clip
/// rewritten for a small monitor would be upscaled on the big one; 1080p
/// where there are no screens at all.
pub open spec fn spec_rewrite_size(profile: GpuProfile) -> (u32, u32) {
    match largest(all_outputs(profile.adapters@)) {
        Some(m) => (m.width, m.height),
        None => (1920, 1080),
    }
}

/// See [`spec_rewrite_size`].
pub fn rewrite_size(profile: &GpuProfile) -> (size: (u32, u32))
    ensures
        size == spec_rewrite_size(*profile),
        // With screens, the size is that of one of them, and no screen has
        // more pixels.
        all_outputs(profile.adapters@).len() > 0 ==> (exists|i: int|
            0 <= i < all_outputs(profile.adapters@).len() && size == ((#[trigger] all_outputs(
                profile.adapters@,
            )[i]).width, all_outputs(profile.adapters@)[i].height)) && forall|j: int|
            0 <= j < all_outputs(profile.adapters@).len() ==> (#[trigger] all_outputs(
                profile.adapters@,
            )[j]).width as int * all_outputs(profile.adapters@)[j].height as int <= size.0 as int
                * size.1 as int,
        // Without any, 1080p.
        all_outputs(profile.adapters@).len() == 0 ==> size == (1920u32, 1080u32),
{
    proof {
        lemma_largest_has_most_pixels(all_outputs(profile.adapters@));
    }
    let ghost ads = profile.adapters@;
    let mut best: Option<(u32, u32)> = None;
    let mut a: usize = 0;
    while a < profile.adapters.len()
        invariant
            a <= ads.len(),
            ads == profile.adapters@,
            match largest(all_outputs(ads.take(a as int))) {
                None => best is None,
                Some(m) => best == Some((m.width, m.height)),
            },
        decreases ads.len() - a,
    {
        let adapter = &profile.adapters[a];
        let ghost before = all_outputs(ads.take(a as int));
        assert(ads.take(a + 1).drop_last() =~= ads.take(a as int));
        assert(all_outputs(ads.take(a + 1)) == before + adapter.outputs@);
        let mut k: usize = 0;
        while k < adapter.outputs.len()
            invariant
                k <= adapter.outputs@.len(),
                match largest(before + adapter.outputs@.take(k as int)) {
                    None => best is None,
                    Some(m) => best == Some((m.width, m.height)),
                },
            decreases adapter.outputs@.len() - k,
        {
            let m = &adapter.outputs[k];
            assert(m.width as u64 * m.height as u64 <= u64::MAX) by (nonlinear_arith)
                requires
                    m.width <= u32::MAX,
                    m.height <= u32::MAX,
            ;
            let here: u64 = m.width as u64 * m.height as u64;
            assert((before + adapter.outputs@.take(k + 1)).drop_last() =~= before + adapter.outputs@.take(k as int));
            assert((before + adapter.outputs@.take(k + 1)).last() == *m);
            best = match best {
                None => Some((m.width, m.height)),
                Some((w, h)) => {
                    assert(w as u64 * h as u64 <= u64::MAX) by (nonlinear_arith)
                        requires
                            w <= u32::MAX,
                            h <= u32::MAX,
                    ;
                    let most: u64 = w as u64 * h as u64;
                    if here >= most {
                        Some((m.width, m.height))
                    } else {
                        Some((w, h))
                    }
                },
            };
            k = k + 1;
        }
        assert(adapter.outputs@.take(k as int) =~= adapter.outputs@);
        a = a + 1;
    }
    assert(ads.take(a as int) =~= ads);
    match best {
        Some((w, h)) => (w, h),
        None => (1920, 1080),
    }
}

// ---------------------------------------------------------------------------
// The engine's status
// ---------------------------------------------------------------------------

/// One display as the status reports it.
#[derive(Clone)]
pub struct MonitorState<F> {
    pub device_name: String,
    pub enabled: bool,
    pub index: usize,
    pub items: Vec<String>,
    /// What this screen has chosen not to share with the others.
    pub overrides: Overrides<F>,
}

/// What the engine tells the UI about itself. `F` is the number type the
/// fractions and rates are kept in.
#[derive(Clone)]
pub struct Status<F> {
    pub fps: u32,
    pub paused: bool,
    /// Stopped on purpose, rather than because nothing is visible.
    pub frozen: bool,
    pub fit: String,
    pub interval_secs: u64,
    pub shuffle: bool,
    pub brightness: F,
    pub saturation: F,
    pub blur: F,
    pub sound: bool,
    pub volume: F,
    /// Whether the soundtrack stands down for other applications...
    pub duck: bool,
    /// ...and whether it is doing so right now.
    pub ducking: bool,
    pub speed: F,
    pub fade_ms: u64,
    pub span: bool,
    pub hotkeys: bool,
    /// How long out of sight before the decoders are handed back; 0 never.
    pub hibernate_secs: u64,
    pub hibernating: bool,
    pub reactive: F,
    pub parallax: F,
    /// The memory budget in megabytes; 0 is none.
    pub memory_mb: u32,
    /// The application list and the rule list, in the written form the
    /// commands take.
    pub apps: String,
    pub rules: String,
    /// One line per saved arrangement, in the form `scene` takes.
    pub scenes: Vec<String>,
    /// One line per shader on screen that declares settings of its own.
    pub shaders: Vec<String>,
    pub idle_secs: u64,
    pub away: bool,
    pub busy_fps: u32,
    pub busy: bool,
    /// How busy the last sample found the machine.
    pub load: F,
    pub reduce_motion: bool,
    pub drift: F,
    pub accent: bool,
    pub uptime_secs: u64,
    pub resting_secs: u64,
    /// The frame rate cap while unplugged; 0 means the same as plugged in.
    pub battery_fps: u32,
    pub pause_on_saver: bool,
    pub on_battery: bool,
    pub saver: bool,
    pub battery_percent: u8,
    /// Share of one core, 0-100.
    pub cpu: F,
    pub ram_mb: u32,
    /// Frames actually presented per second, which is not the target.
    pub real_fps: F,
    /// A clip being rewritten smaller, if one is.
    pub optimize: Option<crate::optimize::Job<F>>,
    /// The last thing that went wrong, in words meant for the user.
    pub error: Option<String>,
    pub monitors: Vec<MonitorState<F>>,
}

impl<F: Copy> Status<F> {
    /// The status before the engine has anything to report: a neutral
    /// grade, half volume with ducking, a 400 ms fade, hot keys on, the
    /// decoders handed back after 20 s out of sight, standing still after
    /// 5 minutes away, 10 fps while busy, reduced motion honoured, 24 fps
    /// and a freeze under battery saver, and a full charge.
    pub fn new(zero: F, half: F, one: F) -> (st: Self)
        ensures
            st.fps == 0 && !st.paused && !st.frozen && st.fit@ == "cover"@ && st.interval_secs == 0,
            !st.shuffle && st.brightness == one && st.saturation == one && st.blur == zero,
            !st.sound && st.volume == half && st.duck && !st.ducking && st.speed == one,
            st.fade_ms == 400 && !st.span && st.hotkeys && st.hibernate_secs == 20 && !st.hibernating,
            st.reactive == zero && st.parallax == zero && st.memory_mb == 0,
            st.apps@.len() == 0 && st.rules@.len() == 0 && st.scenes@.len() == 0 && st.shaders@.len() == 0,
            st.idle_secs == 300 && !st.away && st.busy_fps == 10 && !st.busy && st.load == zero,
            st.reduce_motion && st.drift == zero && !st.accent && st.uptime_secs == 0 && st.resting_secs == 0,
            st.battery_fps == 24 && st.pause_on_saver && !st.on_battery && !st.saver && st.battery_percent == 100,
            st.cpu == zero && st.ram_mb == 0 && st.real_fps == zero,
            st.optimize is None && st.error is None && st.monitors@.len() == 0,
    {
        Status {
            fps: 0,
            paused: false,
            frozen: false,
            fit: text_of(Fit::Cover.name()),
            interval_secs: 0,
            shuffle: false,
            brightness: one,
            saturation: one,
            blur: zero,
            sound: false,
            volume: half,
            duck: true,
            ducking: false,
            speed: one,
            fade_ms: 400,
            span: false,
            hotkeys: true,
            hibernate_secs: 20,
            hibernating: false,
            reactive: zero,
            parallax: zero,
            memory_mb: 0,
            apps: String::new(),
            rules: String::new(),
            scenes: Vec::new(),
            shaders: Vec::new(),
            idle_secs: 300,
            away: false,
            busy_fps: 10,
            busy: false,
            load: zero,
            reduce_motion: true,
            drift: zero,
            accent: false,
            uptime_secs: 0,
            resting_secs: 0,
            battery_fps: 24,
            pause_on_saver: true,
            on_battery: false,
            saver: false,
            battery_percent: 100,
            cpu: zero,
            ram_mb: 0,
            real_fps: zero,
            optimize: None,
            error: None,
            monitors: Vec::new(),
        }
    }
}

pub open spec fn status_a<F>(st: Status<F>, show3: spec_fn(F) -> Seq<char>) -> Seq<char> {
    "ok fps="@ + decimal(st.fps as nat) + " paused="@ + word(st.paused) + " frozen="@ + word(st.frozen) + " fit="@ + st.fit@ + " interval="@ + decimal(st.interval_secs as nat) + " shuffle="@ + word(st.shuffle) + " brightness="@ + show3(st.brightness) + " saturation="@ + show3(st.saturation) + " blur="@ + show3(st.blur) + " sound="@ + word(st.sound)
}

fn status_a_text<F: Copy, SHOW3: Fn(F) -> String>(st: &Status<F>, show3: &SHOW3) -> (r: String)
    requires
        is_writer(*show3),
    ensures
        r@ == status_a(*st, writer_fn(*show3)),
{
    let mut s = String::new();
    push_str(&mut s, "ok fps=");
    assert(s@ =~= "ok fps="@);
    push_decimal(&mut s, st.fps as u64);
    push_str(&mut s, " paused=");
    push_word(&mut s, st.paused);
    push_str(&mut s, " frozen=");
    push_word(&mut s, st.frozen);
    push_str(&mut s, " fit=");
    push_str(&mut s, st.fit.as_str());
    push_str(&mut s, " interval=");
    push_decimal(&mut s, st.interval_secs as u64);
    push_str(&mut s, " shuffle=");
    push_word(&mut s, st.shuffle);
    push_str(&mut s, " brightness=");
    let t = crate::session::show_text(show3, st.brightness);
    push_str(&mut s, t.as_str());
    push_str(&mut s, " saturation=");
    let t = crate::session::show_text(show3, st.saturation);
    push_str(&mut s, t.as_str());
    push_str(&mut s, " blur=");
    let t = crate::session::show_text(show3, st.blur);
    push_str(&mut s, t.as_str());
    push_str(&mut s, " sound=");
    push_word(&mut s, st.sound);
    assert(s@ == status_a(*st, writer_fn(*show3)));
    s
}

pub open spec fn status_b<F>(st: Status<F>, show2: spec_fn(F) -> Seq<char>, show3: spec_fn(F) -> Seq<char>) -> Seq<char> {
    " volume="@ + show3(st.volume) + " duck="@ + word(st.duck) + " ducking="@ + word(st.ducking) + " speed="@ + show2(st.speed) + " fade="@ + decimal(st.fade_ms as nat) + " span="@ + word(st.span) + " hotkeys="@ + word(st.hotkeys) + " hibernate="@ + decimal(st.hibernate_secs as nat) + " hibernating="@ + word(st.hibernating) + " reactive="@ + show2(st.reactive)
}

fn status_b_text<F: Copy, SHOW2: Fn(F) -> String, SHOW3: Fn(F) -> String>(st: &Status<F>, show2: &SHOW2, show3: &SHOW3) -> (r: String)
    requires
        is_writer(*show2),
        is_writer(*show3),
    ensures
        r@ == status_b(*st, writer_fn(*show2), writer_fn(*show3)),
{
    let mut s = String::new();
    push_str(&mut s, " volume=");
    assert(s@ =~= " volume="@);
    let t = crate::session::show_text(show3, st.volume);
    push_str(&mut s, t.as_str());
    push_str(&mut s, " duck=");
    push_word(&mut s, st.duck);
    push_str(&mut s, " ducking=");
    push_word(&mut s, st.ducking);
    push_str(&mut s, " speed=");
    let t = crate::session::show_text(show2, st.speed);
    push_str(&mut s, t.as_str());
    push_str(&mut s, " fade=");
    push_decimal(&mut s, st.fade_ms as u64);
    push_str(&mut s, " span=");
    push_word(&mut s, st.span);
    push_str(&mut s, " hotkeys=");
    push_word(&mut s, st.hotkeys);
    push_str(&mut s, " hibernate=");
    push_decimal(&mut s, st.hibernate_secs as u64);
    push_str(&mut s, " hibernating=");
    push_word(&mut s, st.hibernating);
    push_str(&mut s, " reactive=");
    let t = crate::session::show_text(show2, st.reactive);
    push_str(&mut s, t.as_str());
    assert(s@ == status_b(*st, writer_fn(*show2), writer_fn(*show3)));
    s
}

pub open spec fn status_c<F>(st: Status<F>, show1: spec_fn(F) -> Seq<char>, show2: spec_fn(F) -> Seq<char>) -> Seq<char> {
    " parallax="@ + show2(st.parallax) + " memory="@ + decimal(st.memory_mb as nat) + " batfps="@ + decimal(st.battery_fps as nat) + " batfreeze="@ + word(st.pause_on_saver) + " battery="@ + word(st.on_battery) + " saver="@ + word(st.saver) + " charge="@ + decimal(st.battery_percent as nat) + " cpu="@ + show1(st.cpu) + " ram="@ + decimal(st.ram_mb as nat) + " realfps="@ + show1(st.real_fps)
}

fn status_c_text<F: Copy, SHOW1: Fn(F) -> String, SHOW2: Fn(F) -> String>(st: &Status<F>, show1: &SHOW1, show2: &SHOW2) -> (r: String)
    requires
        is_writer(*show1),
        is_writer(*show2),
    ensures
        r@ == status_c(*st, writer_fn(*show1), writer_fn(*show2)),
{
    let mut s = String::new();
    push_str(&mut s, " parallax=");
    assert(s@ =~= " parallax="@);
    let t = crate::session::show_text(show2, st.parallax);
    push_str(&mut s, t.as_str());
    push_str(&mut s, " memory=");
    push_decimal(&mut s, st.memory_mb as u64);
    push_str(&mut s, " batfps=");
    push_decimal(&mut s, st.battery_fps as u64);
    push_str(&mut s, " batfreeze=");
    push_word(&mut s, st.pause_on_saver);
    push_str(&mut s, " battery=");
    push_word(&mut s, st.on_battery);
    push_str(&mut s, " saver=");
    push_word(&mut s, st.saver);
    push_str(&mut s, " charge=");
    push_decimal(&mut s, st.battery_percent as u64);
    push_str(&mut s, " cpu=");
    let t = crate::session::show_text(show1, st.cpu);
    push_str(&mut s, t.as_str());
    push_str(&mut s, " ram=");
    push_decimal(&mut s, st.ram_mb as u64);
    push_str(&mut s, " realfps=");
    let t = crate::session::show_text(show1, st.real_fps);
    push_str(&mut s, t.as_str());
    assert(s@ == status_c(*st, writer_fn(*show1), writer_fn(*show2)));
    s
}

pub open spec fn status_d<F>(st: Status<F>, show1: spec_fn(F) -> Seq<char>, show2: spec_fn(F) -> Seq<char>) -> Seq<char> {
    " idle="@ + decimal(st.idle_secs as nat) + " away="@ + word(st.away) + " busyfps="@ + decimal(st.busy_fps as nat) + " busy="@ + word(st.busy) + " load="@ + show1(st.load) + " reducemotion="@ + word(st.reduce_motion) + " drift="@ + show2(st.drift) + " accent="@ + word(st.accent) + " uptime="@ + decimal(st.uptime_secs as nat) + " resting="@ + decimal(st.resting_secs as nat) + seq!['\n']
}

fn status_d_text<F: Copy, SHOW1: Fn(F) -> String, SHOW2: Fn(F) -> String>(st: &Status<F>, show1: &SHOW1, show2: &SHOW2) -> (r: String)
    requires
        is_writer(*show1),
        is_writer(*show2),
    ensures
        r@ == status_d(*st, writer_fn(*show1), writer_fn(*show2)),
{
    let mut s = String::new();
    push_str(&mut s, " idle=");
    assert(s@ =~= " idle="@);
    push_decimal(&mut s, st.idle_secs as u64);
    push_str(&mut s, " away=");
    push_word(&mut s, st.away);
    push_str(&mut s, " busyfps=");
    push_decimal(&mut s, st.busy_fps as u64);
    push_str(&mut s, " busy=");
    push_word(&mut s, st.busy);
    push_str(&mut s, " load=");
    let t = crate::session::show_text(show1, st.load);
    push_str(&mut s, t.as_str());
    push_str(&mut s, " reducemotion=");
    push_word(&mut s, st.reduce_motion);
    push_str(&mut s, " drift=");
    let t = crate::session::show_text(show2, st.drift);
    push_str(&mut s, t.as_str());
    push_str(&mut s, " accent=");
    push_word(&mut s, st.accent);
    push_str(&mut s, " uptime=");
    push_decimal(&mut s, st.uptime_secs as u64);
    push_str(&mut s, " resting=");
    push_decimal(&mut s, st.resting_secs as u64);
    push_char(&mut s, '\n');
    assert(s@ == status_d(*st, writer_fn(*show1), writer_fn(*show2)));
    s
}

/// `monitor <name> <enabled> <index> <path>|...` for one display.
pub open spec fn state_line<F>(m: MonitorState<F>) -> Seq<char> {
    "monitor "@ + m.device_name@ + seq![' '] + word(m.enabled) + seq![' '] + decimal(m.index as nat) + seq![' ']
        + join(string_views(m.items@), seq!['|']) + seq!['\n']
}

pub open spec fn state_lines<F>(ms: Seq<MonitorState<F>>) -> Seq<char>
    decreases ms.len(),
{
    if ms.len() == 0 {
        Seq::empty()
    } else {
        state_lines(ms.drop_last()) + state_line(ms.last())
    }
}

/// Whether a display keeps anything for itself.
pub open spec fn has_own<F>(o: Overrides<F>) -> bool {
    o.fit is Some || o.visual is Some || o.fps is Some
}

/// One `own` line per display that keeps anything for itself, in the form
/// the session file uses.
pub open spec fn own_state_lines<F>(
    ms: Seq<MonitorState<F>>,
    show3: spec_fn(F) -> Seq<char>,
    minus_one: F,
    one: F,
    zero: F,
) -> Seq<char>
    decreases ms.len(),
{
    if ms.len() == 0 {
        Seq::empty()
    } else {
        own_state_lines(ms.drop_last(), show3, minus_one, one, zero) + if has_own(ms.last().overrides) {
            crate::session::own_text((ms.last().device_name@, ms.last().overrides), show3, minus_one, one, zero)
        } else {
            Seq::empty()
        }
    }
}

/// `<tag><line>` and a line feed for each line.
pub open spec fn tagged_lines(tag: Seq<char>, ls: Seq<Seq<char>>) -> Seq<char>
    decreases ls.len(),
{
    if ls.len() == 0 {
        Seq::empty()
    } else {
        tagged_lines(tag, ls.drop_last()) + tag + ls.last() + seq!['\n']
    }
}

/// A line when there is something to say, and none when the text is empty.
pub open spec fn optional_line(tag: Seq<char>, t: Seq<char>) -> Seq<char> {
    if t.len() > 0 {
        tag + t + seq!['\n']
    } else {
        Seq::empty()
    }
}

/// `optimize <state> <percent> <source>|<output-or-error>`: done with the
/// output, failed with why, or running.
pub open spec fn job_line<F>(job: Option<crate::optimize::Job<F>>, percent: spec_fn(F) -> Seq<char>) -> Seq<char> {
    match job {
        None => Seq::empty(),
        Some(j) => {
            let (state, detail) = match j.output {
                Some(path) => ("done"@, path@),
                None => match j.error {
                    Some(message) => ("failed"@, message@),
                    None => ("running"@, Seq::<char>::empty()),
                },
            };
            "optimize "@ + state + seq![' '] + percent(j.progress) + seq![' '] + j.source@ + seq!['|'] + detail
                + seq!['\n']
        },
    }
}

pub open spec fn error_line(error: Option<String>) -> Seq<char> {
    match error {
        Some(message) => "error "@ + message@ + seq!['\n'],
        None => Seq::empty(),
    }
}

/// The answer to `status`: the settings and readings as `key=value` on one
/// line; a line per display, and an `own` line per display that keeps
/// settings of its own; the application and rule lists, scenes and shaders
/// when there are any; the clip being rewritten and the last error when
/// there is one; then `end`. Fractions are written with `show3`, the speed,
/// motion and drift with `show2`, the loads and frame rate with `show1`, and
/// the rewrite's progress with `percent`.
pub open spec fn spec_status_reply<F>(
    st: Status<F>,
    show3: spec_fn(F) -> Seq<char>,
    show2: spec_fn(F) -> Seq<char>,
    show1: spec_fn(F) -> Seq<char>,
    percent: spec_fn(F) -> Seq<char>,
    minus_one: F,
    one: F,
    zero: F,
) -> Seq<char> {
    status_a(st, show3) + status_b(st, show2, show3) + status_c(st, show1, show2) + status_d(st, show1, show2)
        + state_lines(st.monitors@) + own_state_lines(st.monitors@, show3, minus_one, one, zero) + optional_line(
        "apps "@,
        st.apps@,
    ) + optional_line("rules "@, st.rules@) + tagged_lines("scene "@, string_views(st.scenes@)) + tagged_lines(
        "shader "@,
        string_views(st.shaders@),
    ) + job_line(st.optimize, percent) + error_line(st.error) + "end\n"@
}

fn push_state_lines<F: Copy>(s: &mut String, ms: &Vec<MonitorState<F>>)
    ensures
        final(s)@ == old(s)@ + state_lines(ms@),
{
    let ghost start = s@;
    let mut i: usize = 0;
    while i < ms.len()
        invariant
            i <= ms@.len(),
            s@ == start + state_lines(ms@.take(i as int)),
        decreases ms@.len() - i,
    {
        let m = &ms[i];
        let ghost before = s@;
        push_str(s, "monitor ");
        push_str(s, m.device_name.as_str());
        push_char(s, ' ');
        push_word(s, m.enabled);
        push_char(s, ' ');
        push_decimal(s, m.index as u64);
        push_char(s, ' ');
        let parts = crate::text::chars_of_all(m.items.as_slice());
        let bar = ['|'];
        assert(bar@ =~= seq!['|']);
        crate::text::push_joined(s, &parts, bar.as_slice());
        push_char(s, '\n');
        assert(s@ =~= before + state_line(*m));
        assert(ms@.take(i + 1).drop_last() =~= ms@.take(i as int));
        i = i + 1;
    }
    assert(ms@.take(i as int) =~= ms@);
}

fn push_own_state_lines<F: Copy, S: Fn(F) -> String>(
    s: &mut String,
    ms: &Vec<MonitorState<F>>,
    show3: &S,
    minus_one: F,
    one: F,
    zero: F,
)
    requires
        is_writer(*show3),
    ensures
        final(s)@ == old(s)@ + own_state_lines(ms@, writer_fn(*show3), minus_one, one, zero),
{
    let ghost start = s@;
    let mut i: usize = 0;
    while i < ms.len()
        invariant
            i <= ms@.len(),
            is_writer(*show3),
            s@ == start + own_state_lines(ms@.take(i as int), writer_fn(*show3), minus_one, one, zero),
        decreases ms@.len() - i,
    {
        let m = &ms[i];
        let ghost before = s@;
        let own = m.overrides;
        if own.fit.is_some() || own.visual.is_some() || own.fps.is_some() {
            let entry = (m.device_name.clone(), own);
            crate::session::push_own_line(s, &entry, show3, minus_one, one, zero);
        }
        assert(ms@.take(i + 1).drop_last() =~= ms@.take(i as int));
        assert(s@ =~= start + own_state_lines(ms@.take(i + 1), writer_fn(*show3), minus_one, one, zero));
        i = i + 1;
    }
    assert(ms@.take(i as int) =~= ms@);
}

fn push_tagged_lines(s: &mut String, tag: &str, ls: &Vec<String>)
    ensures
        final(s)@ == old(s)@ + tagged_lines(tag@, string_views(ls@)),
{
    let ghost start = s@;
    let ghost all = string_views(ls@);
    let mut i: usize = 0;
    while i < ls.len()
        invariant
            i <= ls@.len(),
            all == string_views(ls@),
            s@ == start + tagged_lines(tag@, all.take(i as int)),
        decreases ls@.len() - i,
    {
        let ghost before = s@;
        push_str(s, tag);
        push_str(s, ls[i].as_str());
        push_char(s, '\n');
        assert(all.take(i + 1).drop_last() =~= all.take(i as int));
        assert(all.take(i + 1).last() == ls@[i as int]@);
        assert(s@ =~= start + tagged_lines(tag@, all.take(i + 1)));
        i = i + 1;
    }
    assert(all.take(i as int) =~= all);
}

fn push_optional_line(s: &mut String, tag: &str, t: &String)
    ensures
        final(s)@ == old(s)@ + optional_line(tag@, t@),
{
    if t.as_str().unicode_len() > 0 {
        push_str(s, tag);
        push_str(s, t.as_str());
        push_char(s, '\n');
    } else {
        assert(old(s)@ + optional_line(tag@, t@) =~= old(s)@);
    }
}

fn push_job_line<F: Copy, P: Fn(F) -> String>(s: &mut String, job: &Option<crate::optimize::Job<F>>, percent: &P)
    requires
        is_writer(*percent),
    ensures
        final(s)@ == old(s)@ + job_line(*job, writer_fn(*percent)),
{
    match job {
        None => {
            assert(old(s)@ + job_line(*job, writer_fn(*percent)) =~= old(s)@);
        },
        Some(j) => {
            let ghost start = s@;
            push_str(s, "optimize ");
            match &j.output {
                Some(path) => push_str(s, "done"),
                None => match &j.error {
                    Some(message) => push_str(s, "failed"),
                    None => push_str(s, "running"),
                },
            }
            push_char(s, ' ');
            let t = crate::session::show_text(percent, j.progress);
            push_str(s, t.as_str());
            push_char(s, ' ');
            push_str(s, j.source.as_str());
            push_char(s, '|');
            match &j.output {
                Some(path) => push_str(s, path.as_str()),
                None => match &j.error {
                    Some(message) => push_str(s, message.as_str()),
                    None => {},
                },
            }
            push_char(s, '\n');
            assert(s@ =~= start + job_line(*job, writer_fn(*percent)));
        },
    }
}

/// The answer to `status`.
pub fn status_reply<
    F: Copy,
    S3: Fn(F) -> String,
    S2: Fn(F) -> String,
    S1: Fn(F) -> String,
    P: Fn(F) -> String,
>(st: &Status<F>, show3: &S3, show2: &S2, show1: &S1, percent: &P, minus_one: F, one: F, zero: F) -> (text:
    String)
    requires
        is_writer(*show3),
        is_writer(*show2),
        is_writer(*show1),
        is_writer(*percent),
    ensures
        text@ == spec_status_reply(
            *st,
            writer_fn(*show3),
            writer_fn(*show2),
            writer_fn(*show1),
            writer_fn(*percent),
            minus_one,
            one,
            zero,
        ),
{
    let a = status_a_text(st, show3);
    let b = status_b_text(st, show2, show3);
    let c = status_c_text(st, show1, show2);
    let d = status_d_text(st, show1, show2);
    let mut s = String::new();
    push_str(&mut s, a.as_str());
    assert(s@ =~= a@);
    push_str(&mut s, b.as_str());
    push_str(&mut s, c.as_str());
    push_str(&mut s, d.as_str());
    push_state_lines(&mut s, &st.monitors);
    push_own_state_lines(&mut s, &st.monitors, show3, minus_one, one, zero);
    push_optional_line(&mut s, "apps ", &st.apps);
    push_optional_line(&mut s, "rules ", &st.rules);
    push_tagged_lines(&mut s, "scene ", &st.scenes);
    push_tagged_lines(&mut s, "shader ", &st.shaders);
    push_job_line(&mut s, &st.optimize, percent);
    match &st.error {
        Some(message) => {
            push_str(&mut s, "error ");
            push_str(&mut s, message.as_str());
            push_char(&mut s, '\n');
        },
        None => {},
    }
    push_str(&mut s, "end\n");
    s
}

/// The frame rate a clip is rewritten at: the tier's, and at least one.
pub fn rewrite_fps(profile: &GpuProfile) -> (fps: u32)
    ensures
        fps == if profile.rec.target_fps >= 1 { profile.rec.target_fps } else { 1 },
{
    if profile.rec.target_fps >= 1 {
        profile.rec.target_fps
    } else {
        1
    }
}

} // verus!

//! Everything the user has chosen that is not "which file on which screen":
//! written by the UI's commands, read by the render loop, and kept across a
//! restart in the session file.

use vstd::prelude::*;

use crate::caps::GpuProfile;
use crate::compositor::render::{Fit, Motion, Overrides, Visual};
use crate::compositor::rules::{rule_view, rules_view, Rule, Trigger};
use crate::compositor::scenes::{find_name, monitor_view, scene_view, without, Scene};
use crate::ipc::Command;
use crate::ipc::has_own;
use crate::compositor::Sound;
use crate::power::battery::PowerPolicy;
use crate::session::{all_params_view, key_index, keys_of, pairs_view, put, session_view, Session, SessionView};
use crate::text::string_views;

verus! {

/// The user's choices. `F` is the number type the fractions are kept in.
pub struct Settings<F> {
    pub fps: u32,
    pub fit: Fit,
    /// Zero advances when the clip ends rather than on a clock.
    pub interval_secs: u64,
    /// Whether a playlist plays in a drawn order rather than as written.
    pub shuffle: bool,
    pub visual: Visual<F>,
    pub sound: Sound<F>,
    pub power: PowerPolicy,
    /// Playback rate, 1 being the speed the file was authored at.
    pub speed: F,
    /// How long one wallpaper takes to replace another, in milliseconds;
    /// zero cuts.
    pub fade_ms: u64,
    /// One wallpaper stretched across every screen.
    pub span: bool,
    /// The three desktop-wide shortcuts.
    pub hotkeys: bool,
    /// How long out of sight before the decoders are handed back; zero
    /// never.
    pub hibernate_secs: u64,
    pub motion: Motion<F>,
    /// A memory budget in megabytes; zero leaves the tier's cap alone.
    pub memory_mb: u32,
    /// How long untouched before the wallpaper stands still; zero never.
    pub idle_secs: u64,
    /// The frame rate while the machine is busy; zero keeps one rate.
    pub busy_fps: u32,
    /// Whether to stand still when Windows asks for fewer animations.
    pub reduce_motion: bool,
    /// How far a photograph drifts on its own, 0-1.
    pub drift: F,
    /// Whether the Windows accent colour follows the wallpaper.
    pub accent: bool,
    pub apps: Vec<String>,
    pub rules: Vec<Rule>,
    pub scenes: Vec<Scene>,
    /// Each shader file's own settings, by path.
    pub shader_params: Vec<(String, Vec<(String, F)>)>,
    /// Frozen by the user. Not kept across a restart: coming back already
    /// frozen would look exactly like a broken engine.
    pub frozen: bool,
    /// Settings a monitor keeps for itself, by device name.
    pub overrides: Vec<(String, Overrides<F>)>,
}

/// The frame rate a machine starts at: its tier's, and at least one.
pub open spec fn starting_fps(profile: GpuProfile) -> u32 {
    if profile.rec.target_fps >= 1 {
        profile.rec.target_fps
    } else {
        1
    }
}

/// The settings a machine gets before anybody has chosen anything.
pub open spec fn is_default<F>(s: Settings<F>, profile: GpuProfile, zero: F, half: F, one: F) -> bool {
    &&& s.fps == starting_fps(profile)
    &&& s.fit == Fit::Cover
    &&& s.interval_secs == 0
    // A playlist plays in the order it was written until the user says
    // otherwise.
    &&& !s.shuffle
    &&& s.visual == Visual { brightness: one, saturation: one, blur: zero }
    // Silent until asked, at half volume so the first time is audible
    // without being a shock, and ducking under other sound.
    &&& s.sound == Sound { enabled: false, volume: half, duck: true }
    &&& s.power == PowerPolicy { battery_fps: 24, pause_on_saver: true }
    &&& s.speed == one
    &&& s.fade_ms == 400
    &&& !s.span
    &&& s.hotkeys
    // Twenty seconds is past an alt-tab and inside a loading screen.
    &&& s.hibernate_secs == 20
    &&& s.motion == Motion { reactive: zero, parallax: zero }
    &&& s.memory_mb == 0
    // Five minutes is past a coffee and short of a lunch.
    &&& s.idle_secs == 300
    &&& s.busy_fps == 10
    &&& s.reduce_motion
    &&& s.drift == zero
    &&& !s.accent
    &&& s.apps@.len() == 0
    &&& s.rules@.len() == 0
    &&& s.scenes@.len() == 0
    &&& s.shader_params@.len() == 0
    &&& !s.frozen
    &&& s.overrides@.len() == 0
}

/// `v` where it was written down, and `otherwise` where it was not.
pub open spec fn or_else<T>(v: Option<T>, otherwise: T) -> T {
    match v {
        Some(x) => x,
        None => otherwise,
    }
}

impl<F: Copy> Settings<F> {
    /// The settings this machine gets before anybody has chosen anything.
    pub fn new(profile: &GpuProfile, zero: F, half: F, one: F) -> (s: Self)
        ensures
            is_default(s, *profile, zero, half, one),
    {
        Settings {
            fps: if profile.rec.target_fps >= 1 {
                profile.rec.target_fps
            } else {
                1
            },
            fit: Fit::Cover,
            interval_secs: 0,
            shuffle: false,
            visual: Visual { brightness: one, saturation: one, blur: zero },
            sound: Sound { enabled: false, volume: half, duck: true },
            power: PowerPolicy { battery_fps: 24, pause_on_saver: true },
            speed: one,
            fade_ms: 400,
            span: false,
            hotkeys: true,
            hibernate_secs: 20,
            motion: Motion { reactive: zero, parallax: zero },
            memory_mb: 0,
            idle_secs: 300,
            busy_fps: 10,
            reduce_motion: true,
            drift: zero,
            accent: false,
            apps: Vec::new(),
            rules: Vec::new(),
            scenes: Vec::new(),
            shader_params: Vec::new(),
            frozen: false,
            overrides: Vec::new(),
        }
    }

    /// Whatever the last session chose, over the defaults this machine
    /// would otherwise get. A frame rate of zero is taken as one.
    pub fn restored(profile: &GpuProfile, session: Option<Session<F>>, zero: F, half: F, one: F) -> (s: Self)
        ensures
            session is None ==> is_default(s, *profile, zero, half, one),
            session matches Some(x) ==> settings_view(s) == spec_restored(
                starting_fps(*profile),
                session_view(x),
                zero,
                half,
                one,
            ),
    {
        let x = match session {
            None => {
                return Settings::new(profile, zero, half, one);
            },
            Some(x) => x,
        };
        let starting = if profile.rec.target_fps >= 1 {
            profile.rec.target_fps
        } else {
            1
        };
        Settings {
            fps: match x.fps {
                Some(n) => if n >= 1 {
                    n
                } else {
                    1
                },
                None => starting,
            },
            fit: match x.fit {
                Some(v) => v,
                None => Fit::Cover,
            },
            interval_secs: match x.interval_secs {
                Some(v) => v,
                None => 0,
            },
            shuffle: match x.shuffle {
                Some(v) => v,
                None => false,
            },
            visual: match x.visual {
                Some(v) => v,
                None => Visual { brightness: one, saturation: one, blur: zero },
            },
            // Sound is off until asked for, but a user who asked last time
            // is not asked again.
            sound: match x.sound {
                Some(v) => v,
                None => Sound { enabled: false, volume: half, duck: true },
            },
            power: match x.power {
                Some(v) => v,
                None => PowerPolicy { battery_fps: 24, pause_on_saver: true },
            },
            speed: match x.speed {
                Some(v) => v,
                None => one,
            },
            fade_ms: match x.fade_ms {
                Some(v) => v,
                None => 400,
            },
            span: match x.span {
                Some(v) => v,
                None => false,
            },
            hotkeys: match x.hotkeys {
                Some(v) => v,
                None => true,
            },
            hibernate_secs: match x.hibernate_secs {
                Some(v) => v,
                None => 20,
            },
            motion: match x.motion {
                Some(v) => v,
                None => Motion { reactive: zero, parallax: zero },
            },
            memory_mb: match x.memory_mb {
                Some(v) => v,
                None => 0,
            },
            idle_secs: match x.idle_secs {
                Some(v) => v,
                None => 300,
            },
            busy_fps: match x.busy_fps {
                Some(v) => v,
                None => 10,
            },
            reduce_motion: match x.reduce_motion {
                Some(v) => v,
                None => true,
            },
            drift: match x.drift {
                Some(v) => v,
                None => zero,
            },
            accent: match x.accent {
                Some(v) => v,
                None => false,
            },
            apps: x.apps,
            rules: x.rules,
            scenes: x.scenes,
            shader_params: x.shader_params,
            frozen: false,
            overrides: x.overrides,
        }
    }
}

/// Settings as plain values.
pub struct SettingsView<F> {
    pub fps: u32,
    pub fit: Fit,
    pub interval_secs: u64,
    pub shuffle: bool,
    pub visual: Visual<F>,
    pub sound: Sound<F>,
    pub power: PowerPolicy,
    pub speed: F,
    pub fade_ms: u64,
    pub span: bool,
    pub hotkeys: bool,
    pub hibernate_secs: u64,
    pub motion: Motion<F>,
    pub memory_mb: u32,
    pub idle_secs: u64,
    pub busy_fps: u32,
    pub reduce_motion: bool,
    pub drift: F,
    pub accent: bool,
    pub apps: Seq<Seq<char>>,
    pub rules: Seq<(Trigger, Seq<Seq<char>>)>,
    pub scenes: Seq<(Seq<char>, Seq<(Seq<char>, Seq<Seq<char>>)>)>,
    pub shader_params: Seq<(Seq<char>, Seq<(Seq<char>, F)>)>,
    pub frozen: bool,
    pub overrides: Seq<(Seq<char>, Overrides<F>)>,
}

pub open spec fn settings_view<F>(s: Settings<F>) -> SettingsView<F> {
    SettingsView {
        fps: s.fps,
        fit: s.fit,
        interval_secs: s.interval_secs,
        shuffle: s.shuffle,
        visual: s.visual,
        sound: s.sound,
        power: s.power,
        speed: s.speed,
        fade_ms: s.fade_ms,
        span: s.span,
        hotkeys: s.hotkeys,
        hibernate_secs: s.hibernate_secs,
        motion: s.motion,
        memory_mb: s.memory_mb,
        idle_secs: s.idle_secs,
        busy_fps: s.busy_fps,
        reduce_motion: s.reduce_motion,
        drift: s.drift,
        accent: s.accent,
        apps: string_views(s.apps@),
        rules: rules_view(s.rules@),
        scenes: s.scenes@.map_values(|x: Scene| scene_view(x)),
        shader_params: all_params_view(s.shader_params@),
        frozen: s.frozen,
        overrides: pairs_view(s.overrides@),
    }
}

/// The settings a session restores, over a machine whose tier starts at
/// `starting` frames a second.
pub open spec fn spec_restored<F>(starting: u32, x: SessionView<F>, zero: F, half: F, one: F) -> SettingsView<F> {
    SettingsView {
        fps: match x.fps {
            Some(n) => if n >= 1 {
                n
            } else {
                1
            },
            None => starting,
        },
        fit: or_else(x.fit, Fit::Cover),
        interval_secs: or_else(x.interval_secs, 0),
        shuffle: or_else(x.shuffle, false),
        visual: or_else(x.visual, Visual { brightness: one, saturation: one, blur: zero }),
        sound: or_else(x.sound, Sound { enabled: false, volume: half, duck: true }),
        power: or_else(x.power, PowerPolicy { battery_fps: 24, pause_on_saver: true }),
        speed: or_else(x.speed, one),
        fade_ms: or_else(x.fade_ms, 400),
        span: or_else(x.span, false),
        hotkeys: or_else(x.hotkeys, true),
        hibernate_secs: or_else(x.hibernate_secs, 20),
        motion: or_else(x.motion, Motion { reactive: zero, parallax: zero }),
        memory_mb: or_else(x.memory_mb, 0),
        idle_secs: or_else(x.idle_secs, 300),
        busy_fps: or_else(x.busy_fps, 10),
        reduce_motion: or_else(x.reduce_motion, true),
        drift: or_else(x.drift, zero),
        accent: or_else(x.accent, false),
        apps: x.apps,
        rules: x.rules,
        scenes: x.scenes,
        shader_params: x.shader_params,
        frozen: false,
        overrides: x.overrides,
    }
}

/// What is written down of the settings and the screens: every setting,
/// and each monitor's name, switch and playlist. Whether the wallpaper is
/// frozen is not.
pub open spec fn spec_snapshot<F>(
    v: SettingsView<F>,
    monitors: Seq<(Seq<char>, bool, Seq<Seq<char>>)>,
) -> SessionView<F> {
    SessionView {
        fps: Some(v.fps),
        fit: Some(v.fit),
        interval_secs: Some(v.interval_secs),
        shuffle: Some(v.shuffle),
        visual: Some(v.visual),
        sound: Some(v.sound),
        power: Some(v.power),
        speed: Some(v.speed),
        fade_ms: Some(v.fade_ms),
        span: Some(v.span),
        hotkeys: Some(v.hotkeys),
        hibernate_secs: Some(v.hibernate_secs),
        motion: Some(v.motion),
        memory_mb: Some(v.memory_mb),
        idle_secs: Some(v.idle_secs),
        busy_fps: Some(v.busy_fps),
        reduce_motion: Some(v.reduce_motion),
        drift: Some(v.drift),
        accent: Some(v.accent),
        apps: v.apps,
        rules: v.rules,
        scenes: v.scenes,
        shader_params: v.shader_params,
        overrides: v.overrides,
        monitors,
    }
}

/// What is saved is what comes back: settings written down and restored
/// are the settings they were, except that a frozen wallpaper comes back
/// moving. Holds for settings whose frame rate is at least one, which is
/// every frame rate the settings are ever given.
pub proof fn lemma_restore_snapshot<F>(
    v: SettingsView<F>,
    monitors: Seq<(Seq<char>, bool, Seq<Seq<char>>)>,
    starting: u32,
    zero: F,
    half: F,
    one: F,
)
    requires
        v.fps >= 1,
    ensures
        spec_restored(starting, spec_snapshot(v, monitors), zero, half, one) == (SettingsView { frozen: false, ..v }),
{
}

pub(crate) fn copy_strings(v: &Vec<String>) -> (r: Vec<String>)
    ensures
        r@ == v@,
{
    let mut r: Vec<String> = Vec::new();
    let mut i: usize = 0;
    while i < v.len()
        invariant
            i <= v@.len(),
            r@ == v@.take(i as int),
        decreases v@.len() - i,
    {
        r.push(v[i].clone());
        assert(r@ =~= v@.take(i + 1));
        i = i + 1;
    }
    assert(v@.take(i as int) =~= v@);
    r
}

fn copy_rules(v: &Vec<Rule>) -> (r: Vec<Rule>)
    ensures
        rules_view(r@) == rules_view(v@),
{
    let mut r: Vec<Rule> = Vec::new();
    let mut i: usize = 0;
    while i < v.len()
        invariant
            i <= v@.len(),
            rules_view(r@) == rules_view(v@.take(i as int)),
        decreases v@.len() - i,
    {
        let items = copy_strings(&v[i].items);
        let ghost before = r@;
        r.push(Rule { trigger: v[i].trigger, items });
        assert(v@.take(i + 1) =~= v@.take(i as int).push(v@[i as int]));
        assert(rules_view(r@) =~= rules_view(before).push(rule_view(v@[i as int])));
        assert(rules_view(v@.take(i + 1)) =~= rules_view(v@.take(i as int)).push(rule_view(v@[i as int])));
        i = i + 1;
    }
    assert(v@.take(i as int) =~= v@);
    r
}

fn copy_scene(sc: &Scene) -> (r: Scene)
    ensures
        scene_view(r) == scene_view(*sc),
{
    let mut monitors: Vec<(String, Vec<String>)> = Vec::new();
    let mut i: usize = 0;
    while i < sc.monitors.len()
        invariant
            i <= sc.monitors@.len(),
            monitors@.map_values(|m: (String, Vec<String>)| monitor_view(m)) == sc.monitors@.take(
                i as int,
            ).map_values(|m: (String, Vec<String>)| monitor_view(m)),
        decreases sc.monitors@.len() - i,
    {
        let name = sc.monitors[i].0.clone();
        let items = copy_strings(&sc.monitors[i].1);
        let ghost before = monitors@;
        let ghost m = sc.monitors@[i as int];
        monitors.push((name, items));
        let ghost taken = sc.monitors@.take(i as int);
        assert(sc.monitors@.take(i + 1) =~= taken.push(m));
        assert(monitors@.map_values(|x: (String, Vec<String>)| monitor_view(x)) =~= before.map_values(
            |x: (String, Vec<String>)| monitor_view(x),
        ).push(monitor_view(m)));
        assert(taken.push(m).map_values(|x: (String, Vec<String>)| monitor_view(x)) =~= taken.map_values(
            |x: (String, Vec<String>)| monitor_view(x),
        ).push(monitor_view(m)));
        i = i + 1;
    }
    assert(sc.monitors@.take(i as int) =~= sc.monitors@);
    Scene { name: sc.name.clone(), monitors }
}

fn copy_scenes(v: &Vec<Scene>) -> (r: Vec<Scene>)
    ensures
        r@.map_values(|x: Scene| scene_view(x)) == v@.map_values(|x: Scene| scene_view(x)),
{
    let mut r: Vec<Scene> = Vec::new();
    let mut i: usize = 0;
    while i < v.len()
        invariant
            i <= v@.len(),
            r@.map_values(|x: Scene| scene_view(x)) == v@.take(i as int).map_values(|x: Scene| scene_view(x)),
        decreases v@.len() - i,
    {
        let c = copy_scene(&v[i]);
        let ghost before = r@;
        r.push(c);
        let ghost taken = v@.take(i as int);
        assert(v@.take(i + 1) =~= taken.push(v@[i as int]));
        assert(r@.map_values(|x: Scene| scene_view(x)) =~= before.map_values(|x: Scene| scene_view(x)).push(
            scene_view(v@[i as int]),
        ));
        assert(taken.push(v@[i as int]).map_values(|x: Scene| scene_view(x)) =~= taken.map_values(
            |x: Scene| scene_view(x),
        ).push(scene_view(v@[i as int])));
        i = i + 1;
    }
    assert(v@.take(i as int) =~= v@);
    r
}

fn copy_pairs<F: Copy>(v: &Vec<(String, F)>) -> (r: Vec<(String, F)>)
    ensures
        pairs_view(r@) == pairs_view(v@),
{
    let mut r: Vec<(String, F)> = Vec::new();
    let mut i: usize = 0;
    while i < v.len()
        invariant
            i <= v@.len(),
            pairs_view(r@) == pairs_view(v@.take(i as int)),
        decreases v@.len() - i,
    {
        let ghost before = r@;
        r.push((v[i].0.clone(), v[i].1));
        let ghost taken = v@.take(i as int);
        assert(v@.take(i + 1) =~= taken.push(v@[i as int]));
        assert(pairs_view(r@) =~= pairs_view(before).push((v@[i as int].0@, v@[i as int].1)));
        assert(pairs_view(taken.push(v@[i as int])) =~= pairs_view(taken).push((v@[i as int].0@, v@[i as int].1)));
        i = i + 1;
    }
    assert(v@.take(i as int) =~= v@);
    r
}

fn copy_params<F: Copy>(v: &Vec<(String, Vec<(String, F)>)>) -> (r: Vec<(String, Vec<(String, F)>)>)
    ensures
        all_params_view(r@) == all_params_view(v@),
{
    let mut r: Vec<(String, Vec<(String, F)>)> = Vec::new();
    let mut i: usize = 0;
    while i < v.len()
        invariant
            i <= v@.len(),
            all_params_view(r@) == all_params_view(v@.take(i as int)),
        decreases v@.len() - i,
    {
        let values = copy_pairs(&v[i].1);
        let ghost before = r@;
        r.push((v[i].0.clone(), values));
        let ghost taken = v@.take(i as int);
        assert(v@.take(i + 1) =~= taken.push(v@[i as int]));
        assert(all_params_view(r@) =~= all_params_view(before).push(crate::session::params_view(v@[i as int])));
        assert(all_params_view(taken.push(v@[i as int])) =~= all_params_view(taken).push(
            crate::session::params_view(v@[i as int]),
        ));
        i = i + 1;
    }
    assert(v@.take(i as int) =~= v@);
    r
}

impl<F: Copy> Settings<F> {
    /// What is written down of the settings and the screens, for the
    /// session file.
    pub fn to_session(&self, monitors: Vec<(String, bool, Vec<String>)>) -> (x: Session<F>)
        ensures
            session_view(x) == spec_snapshot(
                settings_view(*self),
                monitors@.map_values(|m: (String, bool, Vec<String>)| crate::session::monitor_view(m)),
            ),
    {
        Session {
            fps: Some(self.fps),
            fit: Some(self.fit),
            interval_secs: Some(self.interval_secs),
            shuffle: Some(self.shuffle),
            visual: Some(self.visual),
            sound: Some(self.sound),
            power: Some(self.power),
            speed: Some(self.speed),
            fade_ms: Some(self.fade_ms),
            span: Some(self.span),
            hotkeys: Some(self.hotkeys),
            hibernate_secs: Some(self.hibernate_secs),
            motion: Some(self.motion),
            memory_mb: Some(self.memory_mb),
            idle_secs: Some(self.idle_secs),
            busy_fps: Some(self.busy_fps),
            reduce_motion: Some(self.reduce_motion),
            drift: Some(self.drift),
            accent: Some(self.accent),
            apps: copy_strings(&self.apps),
            rules: copy_rules(&self.rules),
            scenes: copy_scenes(&self.scenes),
            shader_params: copy_params(&self.shader_params),
            overrides: copy_pairs(&self.overrides),
            monitors,
        }
    }
}

/// `entries` without any entry for `key`.
pub open spec fn remove_key<V>(entries: Seq<(String, V)>, key: Seq<char>) -> Seq<(String, V)>
    decreases entries.len(),
{
    if entries.len() == 0 {
        Seq::empty()
    } else if entries.last().0@ == key {
        remove_key(entries.drop_last(), key)
    } else {
        remove_key(entries.drop_last(), key).push(entries.last())
    }
}

/// `entries` with each of `values` set in turn, the last value for a name
/// winning.
pub open spec fn put_all<V>(entries: Seq<(Seq<char>, V)>, values: Seq<(Seq<char>, V)>) -> Seq<(Seq<char>, V)>
    decreases values.len(),
{
    if values.len() == 0 {
        entries
    } else {
        put(put_all(entries, values.drop_last()), values.last().0, values.last().1)
    }
}

/// A shader's settings merged into what is kept for its path.
pub open spec fn merge_params<F>(
    ps: Seq<(Seq<char>, Seq<(Seq<char>, F)>)>,
    path: Seq<char>,
    values: Seq<(Seq<char>, F)>,
) -> Seq<(Seq<char>, Seq<(Seq<char>, F)>)> {
    match key_index(keys_of(ps), path) {
        Some(i) => ps.update(i, (path, put_all(ps[i].1, values))),
        None => ps.push((path, put_all(Seq::empty(), values))),
    }
}

/// What the render loop has to do about a command, beyond the settings.
pub enum Effect {
    Settled,
    /// A scene that could not be saved or found, in words for the user.
    Failed(String),
    /// Play the scene at this index of the settings' scenes.
    Load(usize),
}

fn without_key<V>(entries: Vec<(String, V)>, key: &String) -> (r: Vec<(String, V)>)
    ensures
        r@ == remove_key(entries@, key@),
{
    let ghost all = entries@;
    let mut kept: Vec<(String, V)> = Vec::new();
    let total: usize = entries.len();
    let mut rest = entries;
    let mut taken: Vec<(String, V)> = Vec::new();
    // Walk from the front by reversing once, so each entry is moved, not
    // copied.
    let ghost n = all.len();
    while rest.len() > 0
        invariant
            all == rest@ + taken@.reverse(),
        decreases rest@.len(),
    {
        let e = rest.pop().unwrap();
        taken.push(e);
        assert(all =~= rest@ + taken@.reverse());
    }
    assert(taken@.reverse() =~= all);
    let mut i: usize = 0;
    let ghost rev = taken@;
    while taken.len() > 0
        invariant
            taken@.len() + i == all.len(),
            all.len() == total,
            taken@ == rev.take(taken@.len() as int),
            rev.reverse() == all,
            kept@ == remove_key(all.take(i as int), key@),
        decreases taken@.len(),
    {
        let e = taken.pop().unwrap();
        assert(e == all[i as int]) by {
            assert(rev[taken@.len() as int] == e);
            assert(rev.reverse()[i as int] == rev[rev.len() - 1 - i]);
        }
        assert(all.take(i + 1).drop_last() =~= all.take(i as int));
        if !crate::text::same_string(&e.0, key) {
            kept.push(e);
        }
        i = i + 1;
        assert(taken@ =~= rev.take(taken@.len() as int));
    }
    assert(all.take(i as int) =~= all);
    kept
}

proof fn lemma_keys_agree<V>(entries: Seq<(String, V)>)
    ensures
        crate::session::string_keys(entries) == keys_of(pairs_view(entries)),
{
    assert(crate::session::string_keys(entries) =~= keys_of(pairs_view(entries)));
}

/// Set a value in settings kept by name, seen as plain values.
fn put_pair<V>(entries: &mut Vec<(String, V)>, key: String, value: V)
    ensures
        pairs_view(final(entries)@) == put(pairs_view(old(entries)@), key@, value),
{
    proof {
        lemma_keys_agree(old(entries)@);
    }
    let ghost before = entries@;
    crate::session::put_entry(entries, key, value);
    proof {
        crate::session::lemma_key_index_bounds(keys_of(pairs_view(before)), key@);
        match key_index(keys_of(pairs_view(before)), key@) {
            Some(i) => {
                assert(pairs_view(entries@) =~= pairs_view(before).update(i, (key@, value)));
            },
            None => {
                assert(pairs_view(entries@) =~= pairs_view(before).push((key@, value)));
            },
        }
    }
}

/// Merge a shader's settings into those kept for its path.
fn merge_into<F: Copy>(ps: &mut Vec<(String, Vec<(String, F)>)>, path: String, values: Vec<(String, F)>)
    ensures
        all_params_view(final(ps)@) == merge_params(all_params_view(old(ps)@), path@, pairs_view(values@)),
{
    let ghost view = all_params_view(ps@);
    let ghost keys = keys_of(view);
    let mut i: usize = 0;
    while i < ps.len()
        invariant
            i <= ps@.len(),
            view == all_params_view(ps@),
            keys == keys_of(view),
            forall|k: int| 0 <= k < i ==> keys[k] != path@,
        ensures
            i <= ps@.len(),
            view == all_params_view(ps@),
            forall|k: int| 0 <= k < i ==> keys[k] != path@,
            i < ps@.len() ==> keys[i as int] == path@,
        decreases ps@.len() - i,
    {
        if crate::text::same_string(&ps[i].0, &path) {
            break;
        }
        i = i + 1;
    }
    let found = i < ps.len();
    let mut inner: Vec<(String, F)> = if found {
        copy_pairs(&ps[i].1)
    } else {
        Vec::new()
    };
    let ghost base = pairs_view(inner@);
    proof {
        if found {
            crate::session::lemma_key_index_at(keys, path@, i as int);
            assert(base == view[i as int].1);
        } else {
            crate::session::lemma_key_index_none(keys, path@);
            assert(base =~= Seq::<(Seq<char>, F)>::empty());
        }
    }
    let ghost vs = pairs_view(values@);
    let mut j: usize = 0;
    while j < values.len()
        invariant
            j <= values@.len(),
            vs == pairs_view(values@),
            pairs_view(inner@) == put_all(base, vs.take(j as int)),
        decreases values@.len() - j,
    {
        assert(vs.take(j + 1).drop_last() =~= vs.take(j as int));
        put_pair(&mut inner, values[j].0.clone(), values[j].1);
        j = j + 1;
    }
    assert(vs.take(j as int) =~= vs);
    let ghost before = ps@;
    if found {
        ps.set(i, (path, inner));
        assert(all_params_view(ps@) =~= view.update(i as int, (path@, put_all(base, vs))));
    } else {
        ps.push((path, inner));
        assert(all_params_view(ps@) =~= view.push((path@, put_all(base, vs))));
    }
}

impl<F: Copy> Settings<F> {
    /// Take in a command from the UI. Says whether the change is worth
    /// remembering across a restart, and what, beyond the settings, the
    /// render loop has to do. `showing` is each monitor's name and playlist,
    /// which is what a saved scene holds.
    ///
    /// Commands about what plays where change no setting but are worth
    /// remembering; freezing is not kept; a scene is saved under a name it
    /// can keep, loaded by finding it, and deleted by name.
    pub fn apply(&mut self, command: Command<F>, showing: Vec<(String, Vec<String>)>) -> (r: (bool, Effect))
        ensures
            match command {
                Command::SetPlaylist { .. } | Command::SetEnabled { .. } | Command::Next { .. } => *final(self)
                    == *old(self) && r.0 && r.1 is Settled,
                Command::Fps(n) => *final(self) == (Settings {
                    fps: if n >= 1 {
                        n
                    } else {
                        1
                    },
                    ..*old(self)
                }) && r.0 && r.1 is Settled,
                Command::SetFit(v) => *final(self) == (Settings { fit: v, ..*old(self) }) && r.0 && r.1 is Settled,
                Command::Interval(v) => *final(self) == (Settings { interval_secs: v, ..*old(self) }) && r.0
                    && r.1 is Settled,
                Command::SetShuffle(v) => *final(self) == (Settings { shuffle: v, ..*old(self) }) && r.0
                    && r.1 is Settled,
                Command::SetVisual(v) => *final(self) == (Settings { visual: v, ..*old(self) }) && r.0
                    && r.1 is Settled,
                Command::SetSound(v) => *final(self) == (Settings { sound: v, ..*old(self) }) && r.0 && r.1 is Settled,
                Command::SetPower(v) => *final(self) == (Settings { power: v, ..*old(self) }) && r.0 && r.1 is Settled,
                Command::SetSpeed(v) => *final(self) == (Settings { speed: v, ..*old(self) }) && r.0 && r.1 is Settled,
                Command::SetFade(v) => *final(self) == (Settings { fade_ms: v, ..*old(self) }) && r.0
                    && r.1 is Settled,
                Command::SetSpan(v) => *final(self) == (Settings { span: v, ..*old(self) }) && r.0 && r.1 is Settled,
                Command::SetHotkeys(v) => *final(self) == (Settings { hotkeys: v, ..*old(self) }) && r.0
                    && r.1 is Settled,
                Command::SetHibernate(v) => *final(self) == (Settings { hibernate_secs: v, ..*old(self) }) && r.0
                    && r.1 is Settled,
                Command::SetMotion(v) => *final(self) == (Settings { motion: v, ..*old(self) }) && r.0
                    && r.1 is Settled,
                Command::SetMemory(v) => *final(self) == (Settings { memory_mb: v, ..*old(self) }) && r.0
                    && r.1 is Settled,
                Command::SetApps(v) => *final(self) == (Settings { apps: v, ..*old(self) }) && r.0 && r.1 is Settled,
                Command::SetRules(v) => *final(self) == (Settings { rules: v, ..*old(self) }) && r.0 && r.1 is Settled,
                Command::SetIdle(v) => *final(self) == (Settings { idle_secs: v, ..*old(self) }) && r.0
                    && r.1 is Settled,
                Command::SetBusyFps(v) => *final(self) == (Settings { busy_fps: v, ..*old(self) }) && r.0
                    && r.1 is Settled,
                Command::SetReduceMotion(v) => *final(self) == (Settings { reduce_motion: v, ..*old(self) })
                    && r.0 && r.1 is Settled,
                Command::SetDrift(v) => *final(self) == (Settings { drift: v, ..*old(self) }) && r.0 && r.1 is Settled,
                Command::SetAccent(v) => *final(self) == (Settings { accent: v, ..*old(self) }) && r.0
                    && r.1 is Settled,
                Command::SetShaderParams { path, values } => *final(self) == (Settings {
                    shader_params: final(self).shader_params,
                    ..*old(self)
                }) && all_params_view(final(self).shader_params@) == merge_params(
                    all_params_view(old(self).shader_params@),
                    path@,
                    pairs_view(values@),
                ) && r.0 && r.1 is Settled,
                Command::SetOverrides { monitor, overrides } => *final(self) == (Settings {
                    overrides: final(self).overrides,
                    ..*old(self)
                }) && (if has_own(overrides) {
                    pairs_view(final(self).overrides@) == put(pairs_view(old(self).overrides@), monitor@, overrides)
                } else {
                    final(self).overrides@ == remove_key(old(self).overrides@, monitor@)
                }) && r.0 && r.1 is Settled,
                Command::SaveScene(name) => *final(self) == (Settings {
                    scenes: final(self).scenes,
                    ..*old(self)
                }) && crate::compositor::scenes::spec_saved(
                    old(self).scenes@,
                    Scene { name, monitors: showing },
                    final(self).scenes@,
                    r.0,
                ) && (
                r.0 ==> r.1 is Settled) && (!r.0 ==> (r.1 matches Effect::Failed(m) && m@
                    == "cannot save the scene "@ + name@)),
                Command::LoadScene(name) => *final(self) == *old(self) && match find_name(old(self).scenes@, name@) {
                    Some(i) => r.0 && r.1 == Effect::Load(i as usize),
                    None => !r.0 && (r.1 matches Effect::Failed(m) && m@ == "no scene called "@ + name@),
                },
                Command::DeleteScene(name) => *final(self) == (Settings {
                    scenes: final(self).scenes,
                    ..*old(self)
                }) && final(self).scenes@ == without(old(self).scenes@, name@) && r.0 == (final(self).scenes@.len()
                    != old(self).scenes@.len()) && r.1 is Settled,
                Command::Freeze(v) => *final(self) == (Settings { frozen: v, ..*old(self) }) && !r.0 && r.1 is Settled,
                Command::Quit => *final(self) == *old(self) && !r.0 && r.1 is Settled,
            },
    {
        match command {
            Command::SetPlaylist { .. } | Command::SetEnabled { .. } | Command::Next { .. } => (true, Effect::Settled),
            Command::Fps(n) => {
                self.fps = if n >= 1 {
                    n
                } else {
                    1
                };
                (true, Effect::Settled)
            },
            Command::SetFit(v) => {
                self.fit = v;
                (true, Effect::Settled)
            },
            Command::Interval(v) => {
                self.interval_secs = v;
                (true, Effect::Settled)
            },
            Command::SetShuffle(v) => {
                self.shuffle = v;
                (true, Effect::Settled)
            },
            Command::SetVisual(v) => {
                self.visual = v;
                (true, Effect::Settled)
            },
            Command::SetSound(v) => {
                self.sound = v;
                (true, Effect::Settled)
            },
            Command::SetPower(v) => {
                self.power = v;
                (true, Effect::Settled)
            },
            Command::SetSpeed(v) => {
                self.speed = v;
                (true, Effect::Settled)
            },
            Command::SetFade(v) => {
                self.fade_ms = v;
                (true, Effect::Settled)
            },
            Command::SetSpan(v) => {
                self.span = v;
                (true, Effect::Settled)
            },
            Command::SetHotkeys(v) => {
                self.hotkeys = v;
                (true, Effect::Settled)
            },
            Command::SetHibernate(v) => {
                self.hibernate_secs = v;
                (true, Effect::Settled)
            },
            Command::SetMotion(v) => {
                self.motion = v;
                (true, Effect::Settled)
            },
            Command::SetMemory(v) => {
                self.memory_mb = v;
                (true, Effect::Settled)
            },
            Command::SetApps(v) => {
                self.apps = v;
                (true, Effect::Settled)
            },
            Command::SetRules(v) => {
                self.rules = v;
                (true, Effect::Settled)
            },
            Command::SetIdle(v) => {
                self.idle_secs = v;
                (true, Effect::Settled)
            },
            Command::SetBusyFps(v) => {
                self.busy_fps = v;
                (true, Effect::Settled)
            },
            Command::SetReduceMotion(v) => {
                self.reduce_motion = v;
                (true, Effect::Settled)
            },
            Command::SetDrift(v) => {
                self.drift = v;
                (true, Effect::Settled)
            },
            Command::SetAccent(v) => {
                self.accent = v;
                (true, Effect::Settled)
            },
            Command::SetShaderParams { path, values } => {
                merge_into(&mut self.shader_params, path, values);
                (true, Effect::Settled)
            },
            Command::SetOverrides { monitor, overrides } => {
                if overrides.fit.is_some() || overrides.visual.is_some() || overrides.fps.is_some() {
                    put_pair(&mut self.overrides, monitor, overrides);
                } else {
                    let mut kept: Vec<(String, Overrides<F>)> = Vec::new();
                    std::mem::swap(&mut kept, &mut self.overrides);
                    self.overrides = without_key(kept, &monitor);
                }
                (true, Effect::Settled)
            },
            Command::SaveScene(name) => {
                let mut message = String::new();
                crate::text::push_str(&mut message, "cannot save the scene ");
                crate::text::push_str(&mut message, name.as_str());
                let stored = crate::compositor::scenes::store(&mut self.scenes, Scene { name, monitors: showing });
                if stored {
                    (true, Effect::Settled)
                } else {
                    (false, Effect::Failed(message))
                }
            },
            Command::LoadScene(name) => {
                match crate::compositor::scenes::find_index_of(&self.scenes, name.as_str()) {
                    Some(i) => (true, Effect::Load(i)),
                    None => {
                        let mut message = String::new();
                        crate::text::push_str(&mut message, "no scene called ");
                        crate::text::push_str(&mut message, name.as_str());
                        (false, Effect::Failed(message))
                    },
                }
            },
            Command::DeleteScene(name) => {
                let removed = crate::compositor::scenes::remove(&mut self.scenes, name.as_str());
                (removed, Effect::Settled)
            },
            Command::Freeze(v) => {
                self.frozen = v;
                (false, Effect::Settled)
            },
            Command::Quit => (false, Effect::Settled),
        }
    }
}

} // verus!

//! What the engine tells the UI about itself, pass by pass: the settings as
//! they stand, and what the render loop found on this pass.

use vstd::prelude::*;

use crate::compositor::desktop::chars_before;
use crate::compositor::playback::Playback;
use crate::compositor::render::{fit_name, Overrides};
use crate::compositor::rules::rules_view;
use crate::compositor::scenes::scene_view;
use crate::compositor::settings::Settings;
use crate::decoder::procedural::ShaderParam;
use crate::ipc::{MonitorState, Status};
use crate::power::battery::PowerState;
use crate::session::{is_writer, key_index, keys_of, pairs_view, writer_fn};
use crate::text::{join, push_str, string_views, views};

verus! {

/// What the render loop found on one pass.
pub struct Report<F> {
    pub paused: bool,
    /// Whether the decoders have been handed back while nobody is looking.
    pub hibernating: bool,
    pub power: PowerState,
    /// Whether the soundtrack is standing down for another application.
    pub ducking: bool,
    /// Whether the wallpaper stands still because nobody is there.
    pub away: bool,
    /// Whether it stands down for a busy machine, and how busy.
    pub busy: bool,
    pub load: F,
    /// How long the engine has been up, and how much of that it rested.
    pub uptime_secs: u64,
    pub resting_secs: u64,
    /// Share of one core, memory in megabytes, and frames presented per
    /// second.
    pub cpu: F,
    pub ram_mb: u32,
    pub real_fps: F,
    /// The last thing that went wrong, in words for the user.
    pub error: Option<String>,
    /// What each monitor is playing, by device name.
    pub playback: Vec<(String, Playback)>,
    /// What every shader on screen declares it wants sliders for, with the
    /// value each slider stands at.
    pub shaders: Vec<(String, Vec<(ShaderParam<F>, F)>)>,
}

/// A display as the status reports it, as plain values.
pub open spec fn state_view<F>(m: MonitorState<F>) -> (Seq<char>, bool, usize, Seq<Seq<char>>, Overrides<F>) {
    (m.device_name@, m.enabled, m.index, string_views(m.items@), m.overrides)
}

/// Which item of a monitor's list is on screen: where in the list, not
/// where in the play order.
pub open spec fn index_shown(p: Playback) -> usize {
    if p.index < p.order@.len() {
        p.order@[p.index as int]
    } else {
        0
    }
}

/// The settings a monitor keeps for itself, or none.
pub open spec fn own_of<F>(overrides: Seq<(String, Overrides<F>)>, name: Seq<char>) -> Overrides<F> {
    match key_index(keys_of(pairs_view(overrides)), name) {
        Some(i) => overrides[i].1,
        None => Overrides { fit: None, visual: None, fps: None },
    }
}

/// Each monitor's state, in the order the report lists them.
pub open spec fn states<F>(
    playback: Seq<(String, Playback)>,
    overrides: Seq<(String, Overrides<F>)>,
) -> Seq<(Seq<char>, bool, usize, Seq<Seq<char>>, Overrides<F>)> {
    playback.map_values(
        |e: (String, Playback)|
            (e.0@, e.1.enabled, index_shown(e.1), string_views(e.1.items@), own_of(overrides, e.0@)),
    )
}

/// In order of device name.
pub open spec fn by_name<F>(ms: Seq<MonitorState<F>>) -> bool {
    forall|i: int, j: int|
        0 <= i < j < ms.len() ==> !chars_before(#[trigger] ms[j].device_name@, #[trigger] ms[i].device_name@)
}

/// `<name>,<min>,<max>,<default>,<value>,<label>` for one slider.
pub open spec fn slider<F>(p: (ShaderParam<F>, F), show: spec_fn(F) -> Seq<char>) -> Seq<char> {
    p.0.name@ + seq![','] + show(p.0.min) + seq![','] + show(p.0.max) + seq![','] + show(p.0.default)
        + seq![','] + show(p.1) + seq![','] + p.0.label@
}

/// `<path>|<slider>|...` for one shader.
pub open spec fn shader_line<F>(s: (String, Vec<(ShaderParam<F>, F)>), show: spec_fn(F) -> Seq<char>) -> Seq<char> {
    s.0@ + seq!['|'] + join(s.1@.map_values(|p: (ShaderParam<F>, F)| slider(p, show)), seq!['|'])
}

proof fn lemma_text_order(a: Seq<char>, b: Seq<char>, c: Seq<char>)
    ensures
        !chars_before(a, a),
        chars_before(a, b) && chars_before(b, c) ==> chars_before(a, c),
        a == b || chars_before(a, b) || chars_before(b, a),
{
    crate::compositor::desktop::lemma_chars_before_irreflexive(a);
    crate::compositor::desktop::lemma_chars_before_total(a, b);
    if chars_before(a, b) && chars_before(b, c) {
        crate::compositor::desktop::lemma_chars_before_transitive(a, b, c);
    }
}

/// Put `m` among displays in name order, after any of the same name.
fn insert_by_name<F>(out: &mut Vec<MonitorState<F>>, m: MonitorState<F>)
    requires
        by_name(old(out)@),
    ensures
        by_name(final(out)@),
        final(out)@.map_values(|x: MonitorState<F>| state_view(x)).to_multiset() == old(out)@.map_values(
            |x: MonitorState<F>| state_view(x),
        ).to_multiset().insert(state_view(m)),
{
    let ghost old_view = out@;
    let key = crate::text::chars_of(m.device_name.as_str());
    let mut position: usize = 0;
    while position < out.len()
        invariant
            position <= out@.len(),
            out@ == old_view,
            key@ == m.device_name@,
            forall|k: int| 0 <= k < position ==> !chars_before(m.device_name@, #[trigger] old_view[k].device_name@),
        ensures
            position <= out@.len(),
            out@ == old_view,
            forall|k: int| 0 <= k < position ==> !chars_before(m.device_name@, #[trigger] old_view[k].device_name@),
            position == out@.len() || chars_before(m.device_name@, old_view[position as int].device_name@),
        decreases out@.len() - position,
    {
        let other = crate::text::chars_of(out[position].device_name.as_str());
        if crate::compositor::desktop::chars_less(&key, &other) {
            break;
        }
        position = position + 1;
    }
    let ghost mv = m;
    out.insert(position, m);
    proof {
        let v = out@;
        let p = position as int;
        assert(v =~= old_view.insert(p, mv));
        let olds = old_view.map_values(|x: MonitorState<F>| state_view(x));
        assert(v.map_values(|x: MonitorState<F>| state_view(x)) =~= olds.insert(p, state_view(mv)));
        vstd::seq_lib::to_multiset_insert(olds, p, state_view(mv));
        assert forall|i: int, j: int| 0 <= i < j < v.len() implies !chars_before(
            #[trigger] v[j].device_name@,
            #[trigger] v[i].device_name@,
        ) by {
            let e = mv.device_name@;
            if j < p {
                assert(v[i] == old_view[i] && v[j] == old_view[j]);
            } else if j == p {
                assert(v[j] == mv);
                assert(v[i] == old_view[i]);
                lemma_text_order(e, old_view[i].device_name@, e);
            } else if i == p {
                assert(v[i] == mv);
                assert(v[j] == old_view[j - 1]);
                let at = old_view[p].device_name@;
                let later = old_view[j - 1].device_name@;
                if j - 1 > p {
                    assert(!chars_before(later, at));
                    lemma_text_order(at, later, at);
                }
                lemma_text_order(e, at, later);
                lemma_text_order(later, e, at);
                lemma_text_order(later, e, e);
            } else if i < p {
                assert(v[i] == old_view[i] && v[j] == old_view[j - 1]);
            } else {
                assert(v[i] == old_view[i - 1] && v[j] == old_view[j - 1]);
            }
        }
    }
}

fn own_for<F: Copy>(overrides: &Vec<(String, Overrides<F>)>, name: &String) -> (r: Overrides<F>)
    ensures
        r == own_of(overrides@, name@),
{
    let ghost keys = keys_of(pairs_view(overrides@));
    let mut i: usize = 0;
    while i < overrides.len()
        invariant
            i <= overrides@.len(),
            keys == keys_of(pairs_view(overrides@)),
            forall|k: int| 0 <= k < i ==> keys[k] != name@,
        decreases overrides@.len() - i,
    {
        assert(keys[i as int] == overrides@[i as int].0@);
        if crate::text::same_string(&overrides[i].0, name) {
            proof {
                crate::session::lemma_key_index_at(keys, name@, i as int);
            }
            return overrides[i].1;
        }
        i = i + 1;
    }
    proof {
        crate::session::lemma_key_index_none(keys, name@);
    }
    Overrides { fit: None, visual: None, fps: None }
}

fn slider_text<F: Copy, S: Fn(F) -> String>(p: &(ShaderParam<F>, F), show: &S) -> (r: Vec<char>)
    requires
        is_writer(*show),
    ensures
        r@ == slider(*p, writer_fn(*show)),
{
    let mut s = String::new();
    push_str(&mut s, p.0.name.as_str());
    assert(s@ =~= p.0.name@);
    crate::text::push_char(&mut s, ',');
    let t = crate::session::show_text(show, p.0.min);
    push_str(&mut s, t.as_str());
    crate::text::push_char(&mut s, ',');
    let t = crate::session::show_text(show, p.0.max);
    push_str(&mut s, t.as_str());
    crate::text::push_char(&mut s, ',');
    let t = crate::session::show_text(show, p.0.default);
    push_str(&mut s, t.as_str());
    crate::text::push_char(&mut s, ',');
    let t = crate::session::show_text(show, p.1);
    push_str(&mut s, t.as_str());
    crate::text::push_char(&mut s, ',');
    push_str(&mut s, p.0.label.as_str());
    assert(s@ =~= slider(*p, writer_fn(*show)));
    crate::text::chars_of(s.as_str())
}

fn shader_text<F: Copy, S: Fn(F) -> String>(sh: &(String, Vec<(ShaderParam<F>, F)>), show: &S) -> (r: String)
    requires
        is_writer(*show),
    ensures
        r@ == shader_line(*sh, writer_fn(*show)),
{
    let ghost want = sh.1@.map_values(|p: (ShaderParam<F>, F)| slider(p, writer_fn(*show)));
    let mut parts: Vec<Vec<char>> = Vec::new();
    let mut i: usize = 0;
    while i < sh.1.len()
        invariant
            i <= sh.1@.len(),
            is_writer(*show),
            want == sh.1@.map_values(|p: (ShaderParam<F>, F)| slider(p, writer_fn(*show))),
            views(parts@) == want.take(i as int),
        decreases sh.1@.len() - i,
    {
        let t = slider_text(&sh.1[i], show);
        let ghost before = views(parts@);
        parts.push(t);
        assert(views(parts@) =~= before.push(t@));
        assert(want[i as int] == slider(sh.1@[i as int], writer_fn(*show)));
        assert(want.take(i + 1) =~= want.take(i as int).push(want[i as int]));
        i = i + 1;
    }
    assert(want.take(i as int) =~= want);
    let mut s = String::new();
    push_str(&mut s, sh.0.as_str());
    assert(s@ =~= sh.0@);
    crate::text::push_char(&mut s, '|');
    let bar = ['|'];
    assert(bar@ =~= seq!['|']);
    crate::text::push_joined(&mut s, &parts, bar.as_slice());
    s
}

/// The states of the monitors, in name order.
fn monitor_states<F: Copy>(playback: Vec<(String, Playback)>, overrides: &Vec<(String, Overrides<F>)>) -> (r: Vec<
    MonitorState<F>,
>)
    ensures
        by_name(r@),
        r@.map_values(|x: MonitorState<F>| state_view(x)).to_multiset() == states(playback@, overrides@).to_multiset(),
{
    broadcast use vstd::multiset::group_multiset_axioms;
    broadcast use vstd::seq_lib::group_to_multiset_ensures;

    let ghost all = states(playback@, overrides@);
    let mut pb = playback;
    let mut out: Vec<MonitorState<F>> = Vec::new();
    assert(out@.map_values(|x: MonitorState<F>| state_view(x)) =~= Seq::<(Seq<char>, bool, usize, Seq<Seq<char>>, Overrides<F>)>::empty());
    while pb.len() > 0
        invariant
            by_name(out@),
            out@.map_values(|x: MonitorState<F>| state_view(x)).to_multiset().add(states(pb@, overrides@).to_multiset())
                == all.to_multiset(),
        decreases pb@.len(),
    {
        let ghost before = pb@;
        let (name, p) = pb.pop().unwrap();
        let ghost e = (name, p);
        proof {
            assert(before =~= pb@.push(e));
            assert(states(before, overrides@) =~= states(pb@, overrides@).push(
                (e.0@, e.1.enabled, index_shown(e.1), string_views(e.1.items@), own_of(overrides@, e.0@)),
            ));
        }
        let index = p.current_index();
        let own = own_for(overrides, &name);
        let m = MonitorState { device_name: name, enabled: p.enabled, index, items: p.items, overrides: own };
        let ghost out_before = out@.map_values(|x: MonitorState<F>| state_view(x)).to_multiset();
        let ghost v = state_view(m);
        let ghost after = states(pb@, overrides@);
        assert(v == (e.0@, e.1.enabled, index_shown(e.1), string_views(e.1.items@), own_of(overrides@, e.0@)));
        assert(states(before, overrides@) == after.push(v));
        proof {
            vstd::seq_lib::to_multiset_build(after, v);
        }
        insert_by_name(&mut out, m);
        assert(out@.map_values(|x: MonitorState<F>| state_view(x)).to_multiset().add(after.to_multiset())
            =~= out_before.add(states(before, overrides@).to_multiset()));
    }
    proof {
        assert(states(pb@, overrides@) =~= Seq::<(Seq<char>, bool, usize, Seq<Seq<char>>, Overrides<F>)>::empty());
    }
    out
}

/// Tell the UI the settings as they stand and what this pass found. What
/// is being rewritten is not the report's to say, and is left as it is.
/// The monitors are listed in name order: the UI shows them as a list, and
/// a list that reshuffles itself between polls is unusable.
pub fn publish<F: Copy, S: Fn(F) -> String>(status: &mut Status<F>, settings: &Settings<F>, report: Report<F>, show: &S)
    requires
        is_writer(*show),
    ensures
        final(status).optimize == old(status).optimize,
        final(status).fps == settings.fps,
        final(status).fit@ == fit_name(settings.fit),
        final(status).interval_secs == settings.interval_secs,
        final(status).shuffle == settings.shuffle,
        final(status).paused == report.paused,
        final(status).frozen == settings.frozen,
        final(status).hibernating == report.hibernating,
        final(status).hibernate_secs == settings.hibernate_secs,
        final(status).reactive == settings.motion.reactive,
        final(status).parallax == settings.motion.parallax,
        final(status).memory_mb == settings.memory_mb,
        final(status).idle_secs == settings.idle_secs,
        final(status).away == report.away,
        final(status).busy_fps == settings.busy_fps,
        final(status).busy == report.busy,
        final(status).load == report.load,
        final(status).reduce_motion == settings.reduce_motion,
        final(status).drift == settings.drift,
        final(status).accent == settings.accent,
        final(status).uptime_secs == report.uptime_secs,
        final(status).resting_secs == report.resting_secs,
        final(status).apps@ == join(string_views(settings.apps@), seq!['|']),
        final(status).rules@ == crate::compositor::rules::spec_written_form(rules_view(settings.rules@)),
        string_views(final(status).scenes@) == settings.scenes@.map_values(
            |sc: crate::compositor::scenes::Scene| crate::compositor::scenes::spec_written_form(scene_view(sc)),
        ),
        string_views(final(status).shaders@) == report.shaders@.map_values(
            |sh: (String, Vec<(ShaderParam<F>, F)>)| shader_line(sh, writer_fn(*show)),
        ),
        final(status).brightness == settings.visual.brightness,
        final(status).saturation == settings.visual.saturation,
        final(status).blur == settings.visual.blur,
        final(status).sound == settings.sound.enabled,
        final(status).volume == settings.sound.volume,
        final(status).duck == settings.sound.duck,
        final(status).ducking == report.ducking,
        final(status).speed == settings.speed,
        final(status).fade_ms == settings.fade_ms,
        final(status).span == settings.span,
        final(status).hotkeys == settings.hotkeys,
        final(status).battery_fps == settings.power.battery_fps,
        final(status).pause_on_saver == settings.power.pause_on_saver,
        final(status).on_battery == report.power.on_battery,
        final(status).saver == report.power.saver,
        final(status).battery_percent == report.power.percent,
        final(status).cpu == report.cpu,
        final(status).ram_mb == report.ram_mb,
        final(status).real_fps == report.real_fps,
        final(status).error == report.error,
        by_name(final(status).monitors@),
        final(status).monitors@.map_values(|x: MonitorState<F>| state_view(x)).to_multiset() == states(
            report.playback@,
            settings.overrides@,
        ).to_multiset(),
{
    let names = crate::text::chars_of_all(settings.apps.as_slice());
    let bar = ['|'];
    assert(bar@ =~= seq!['|']);
    let mut apps = String::new();
    crate::text::push_joined(&mut apps, &names, bar.as_slice());
    assert(apps@ =~= join(string_views(settings.apps@), seq!['|']));
    let rules = crate::compositor::rules::written_form(settings.rules.as_slice());
    let ghost want_scenes = settings.scenes@.map_values(
        |sc: crate::compositor::scenes::Scene| crate::compositor::scenes::spec_written_form(scene_view(sc)),
    );
    let mut scenes: Vec<String> = Vec::new();
    let mut i: usize = 0;
    while i < settings.scenes.len()
        invariant
            i <= settings.scenes@.len(),
            want_scenes == settings.scenes@.map_values(
                |sc: crate::compositor::scenes::Scene| crate::compositor::scenes::spec_written_form(scene_view(sc)),
            ),
            string_views(scenes@) == want_scenes.take(i as int),
        decreases settings.scenes@.len() - i,
    {
        let t = crate::compositor::scenes::written_form(&settings.scenes[i]);
        let ghost before = string_views(scenes@);
        scenes.push(t);
        assert(string_views(scenes@) =~= before.push(t@));
        assert(want_scenes.take(i + 1) =~= want_scenes.take(i as int).push(want_scenes[i as int]));
        i = i + 1;
    }
    assert(want_scenes.take(i as int) =~= want_scenes);
    let ghost want_shaders = report.shaders@.map_values(
        |sh: (String, Vec<(ShaderParam<F>, F)>)| shader_line(sh, writer_fn(*show)),
    );
    let mut shaders: Vec<String> = Vec::new();
    let mut k: usize = 0;
    while k < report.shaders.len()
        invariant
            k <= report.shaders@.len(),
            is_writer(*show),
            want_shaders == report.shaders@.map_values(
                |sh: (String, Vec<(ShaderParam<F>, F)>)| shader_line(sh, writer_fn(*show)),
            ),
            string_views(shaders@) == want_shaders.take(k as int),
        decreases report.shaders@.len() - k,
    {
        let t = shader_text(&report.shaders[k], show);
        let ghost before = string_views(shaders@);
        shaders.push(t);
        assert(string_views(shaders@) =~= before.push(t@));
        assert(want_shaders.take(k + 1) =~= want_shaders.take(k as int).push(want_shaders[k as int]));
        k = k + 1;
    }
    assert(want_shaders.take(k as int) =~= want_shaders);
    let monitors = monitor_states(report.playback, &settings.overrides);
    status.fps = settings.fps;
    status.fit = crate::ipc::text_of(settings.fit.name());
    status.interval_secs = settings.interval_secs;
    status.shuffle = settings.shuffle;
    status.paused = report.paused;
    status.frozen = settings.frozen;
    status.hibernating = report.hibernating;
    status.hibernate_secs = settings.hibernate_secs;
    status.reactive = settings.motion.reactive;
    status.parallax = settings.motion.parallax;
    status.memory_mb = settings.memory_mb;
    status.idle_secs = settings.idle_secs;
    status.away = report.away;
    status.busy_fps = settings.busy_fps;
    status.busy = report.busy;
    status.load = report.load;
    status.reduce_motion = settings.reduce_motion;
    status.drift = settings.drift;
    status.accent = settings.accent;
    status.uptime_secs = report.uptime_secs;
    status.resting_secs = report.resting_secs;
    status.apps = apps;
    status.rules = rules;
    status.scenes = scenes;
    status.shaders = shaders;
    status.brightness = settings.visual.brightness;
    status.saturation = settings.visual.saturation;
    status.blur = settings.visual.blur;
    status.sound = settings.sound.enabled;
    status.volume = settings.sound.volume;
    status.duck = settings.sound.duck;
    status.ducking = report.ducking;
    status.speed = settings.speed;
    status.fade_ms = settings.fade_ms;
    status.span = settings.span;
    status.hotkeys = settings.hotkeys;
    status.battery_fps = settings.power.battery_fps;
    status.pause_on_saver = settings.power.pause_on_saver;
    status.on_battery = report.power.on_battery;
    status.saver = report.power.saver;
    status.battery_percent = report.power.percent;
    status.cpu = report.cpu;
    status.ram_mb = report.ram_mb;
    status.real_fps = report.real_fps;
    status.error = report.error;
    status.monitors = monitors;
}

} // verus!

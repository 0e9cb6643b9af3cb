//! Named sets of wallpapers, one entry per monitor.
//!
//! A scene is an arrangement (this monitor shows that, the other shows
//! this) with a name on it. Scenes carry wallpapers and nothing else.
//!
//! The written form matches the rest of the protocol: `;` between monitors,
//! `|` between paths, `=` between a monitor and its list.

use vstd::prelude::*;

use crate::text::{
    chars_of, chars_of_all, is_ws, join, keep_nonempty, lemma_concat_free, lemma_find_after,
    lemma_find_bounds, lemma_join_free, lemma_keep_nonempty_all, lemma_keep_nonempty_push,
    lemma_split_absent, lemma_split_join, push_joined, same, slice_of, split, split_vec,
    string_of, string_views, trim, trim_vec, views,
};

verus! {

/// One saved arrangement.
#[derive(Debug, Clone, PartialEq, Eq)]
pub struct Scene {
    pub name: String,
    /// Device name, and what that screen was showing. A monitor with nothing
    /// assigned is kept with an empty list: "this screen is bare" is part of
    /// the arrangement.
    pub monitors: Vec<(String, Vec<String>)>,
}

/// How many scenes one desktop may keep.
pub const MAX: usize = 12;

pub open spec fn monitor_view(m: (String, Vec<String>)) -> (Seq<char>, Seq<Seq<char>>) {
    (m.0@, string_views(m.1@))
}

/// A scene as plain values: its name, and each monitor's name and list.
pub open spec fn scene_view(s: Scene) -> (Seq<char>, Seq<(Seq<char>, Seq<Seq<char>>)>) {
    (s.name@, s.monitors@.map_values(|m: (String, Vec<String>)| monitor_view(m)))
}

/// Bytes in the UTF-8 form of one character.
pub open spec fn char_width(c: char) -> nat {
    if (c as u32) < 0x80 {
        1
    } else if (c as u32) < 0x800 {
        2
    } else if (c as u32) < 0x10000 {
        3
    } else {
        4
    }
}

/// Bytes in the UTF-8 form of a string.
pub open spec fn utf8_len(s: Seq<char>) -> nat
    decreases s.len(),
{
    if s.len() == 0 {
        0
    } else {
        utf8_len(s.drop_last()) + char_width(s.last())
    }
}

/// A name that can be written between the separators: not empty, at most
/// forty bytes, none of `; | = \n \r`, and no surrounding whitespace.
pub open spec fn spec_valid_name(name: Seq<char>) -> bool {
    &&& name.len() > 0
    &&& utf8_len(name) <= 40
    &&& !name.contains(';')
    &&& !name.contains('|')
    &&& !name.contains('=')
    &&& !name.contains('\n')
    &&& !name.contains('\r')
    &&& trim(name) == name
}

fn width_exec(c: char) -> (w: u64)
    ensures
        w == char_width(c),
{
    let n = c as u32;
    if n < 0x80 {
        1
    } else if n < 0x800 {
        2
    } else if n < 0x10000 {
        3
    } else {
        4
    }
}

proof fn lemma_utf8_len_grows(s: Seq<char>, k: nat)
    requires
        k <= s.len(),
    ensures
        utf8_len(s.take(k as int)) <= utf8_len(s),
    decreases s.len() - k,
{
    if k < s.len() {
        lemma_utf8_len_grows(s, k + 1);
        assert(s.take(k as int + 1).drop_last() =~= s.take(k as int));
    } else {
        assert(s.take(k as int) =~= s);
    }
}

/// Whether a name can be written between the separators.
pub fn valid_name(name: &str) -> (r: bool)
    ensures
        r == spec_valid_name(name@),
{
    let v = chars_of(name);
    if v.len() == 0 {
        return false;
    }
    let mut bytes: u64 = 0;
    let mut i: usize = 0;
    while i < v.len()
        invariant
            i <= v@.len(),
            v@ == name@,
            bytes == utf8_len(v@.take(i as int)),
            bytes <= 40,
        decreases v@.len() - i,
    {
        assert(v@.take(i + 1).drop_last() =~= v@.take(i as int));
        bytes = bytes + width_exec(v[i]);
        i = i + 1;
        if bytes > 40 {
            proof {
                lemma_utf8_len_grows(v@, i as nat);
            }
            return false;
        }
    }
    assert(v@.take(i as int) =~= v@);
    let s = v.as_slice();
    if crate::text::contains_char(s, ';') || crate::text::contains_char(s, '|')
        || crate::text::contains_char(s, '=') || crate::text::contains_char(s, '\n')
        || crate::text::contains_char(s, '\r') {
        return false;
    }
    let t = trim_vec(s);
    same(t.as_slice(), s)
}

/// A monitor's entry, `<monitor>=<path>|<path>`, if it has an `=`.
pub open spec fn parse_monitor(entry: Seq<char>) -> Option<(Seq<char>, Seq<Seq<char>>)> {
    let eq = crate::text::find(entry, '=');
    if eq < 0 {
        None
    } else {
        Some((entry.take(eq), keep_nonempty(split(entry.skip(eq + 1), '|'))))
    }
}

/// The monitors read from their entries: empty entries, and entries
/// without an `=`, skipped.
pub open spec fn parse_monitors(entries: Seq<Seq<char>>) -> Seq<(Seq<char>, Seq<Seq<char>>)>
    decreases entries.len(),
{
    if entries.len() == 0 {
        Seq::empty()
    } else {
        let rest = parse_monitors(entries.drop_last());
        let e = entries.last();
        if e.len() == 0 {
            rest
        } else {
            match parse_monitor(e) {
                Some(m) => rest.push(m),
                None => rest,
            }
        }
    }
}

/// `<name>;<monitor>=<path>|<path>;<monitor>=` back into a scene.
pub open spec fn spec_parse(text: Seq<char>) -> Option<(Seq<char>, Seq<(Seq<char>, Seq<Seq<char>>)>)> {
    let parts = split(text, ';');
    let name = trim(parts[0]);
    if !spec_valid_name(name) {
        None
    } else {
        Some((name, parse_monitors(parts.drop_first())))
    }
}

pub open spec fn monitor_entry(m: (Seq<char>, Seq<Seq<char>>)) -> Seq<char> {
    m.0 + seq!['='] + join(m.1, seq!['|'])
}

pub open spec fn monitor_entries(ms: Seq<(Seq<char>, Seq<Seq<char>>)>) -> Seq<Seq<char>> {
    ms.map_values(|m: (Seq<char>, Seq<Seq<char>>)| monitor_entry(m))
}

/// One scene as one line's worth of text: the name, then `;` and one
/// entry per monitor.
pub open spec fn spec_written_form(s: (Seq<char>, Seq<(Seq<char>, Seq<Seq<char>>)>)) -> Seq<char> {
    join(seq![s.0] + monitor_entries(s.1), seq![';'])
}

/// A scene that survives being written and read back: a valid name,
/// monitor names without `;` or `=`, and paths that are not empty and hold
/// neither `|` nor `;`.
pub open spec fn writable(s: (Seq<char>, Seq<(Seq<char>, Seq<Seq<char>>)>)) -> bool {
    &&& spec_valid_name(s.0)
    &&& forall|i: int|
        0 <= i < s.1.len() ==> {
            &&& !(#[trigger] s.1[i]).0.contains(';')
            &&& !s.1[i].0.contains('=')
            &&& forall|k: int|
                0 <= k < s.1[i].1.len() ==> {
                    &&& (#[trigger] s.1[i].1[k]).len() > 0
                    &&& !s.1[i].1[k].contains('|')
                    &&& !s.1[i].1[k].contains(';')
                }
        }
}

proof fn lemma_monitor_entry(m: (Seq<char>, Seq<Seq<char>>))
    requires
        !m.0.contains(';'),
        !m.0.contains('='),
        forall|k: int|
            0 <= k < m.1.len() ==> {
                &&& (#[trigger] m.1[k]).len() > 0
                &&& !m.1[k].contains('|')
                &&& !m.1[k].contains(';')
            },
    ensures
        monitor_entry(m).len() > 0,
        !monitor_entry(m).contains(';'),
        parse_monitor(monitor_entry(m)) == Some(m),
{
    let body = join(m.1, seq!['|']);
    let e = monitor_entry(m);
    assert(e[m.0.len() as int] == '=');
    assert forall|k: int| 0 <= k < m.1.len() implies !(#[trigger] m.1[k]).contains(';') by {}
    assert forall|k: int| 0 <= k < m.1.len() implies !(#[trigger] m.1[k]).contains('|') by {}
    lemma_join_free(m.1, seq!['|'], ';');
    lemma_concat_free(m.0, seq!['='], ';');
    lemma_concat_free(m.0 + seq!['='], body, ';');
    lemma_find_after(m.0, '=', body);
    assert(e.take(m.0.len() as int) =~= m.0);
    assert(e.skip(m.0.len() as int + 1) =~= body);
    if m.1.len() == 0 {
        assert(body == Seq::<char>::empty());
        lemma_split_absent(body, '|');
        assert(split(body, '|') =~= seq![Seq::<char>::empty()]);
        assert(keep_nonempty(seq![Seq::<char>::empty()]) == keep_nonempty(
            seq![Seq::<char>::empty()].drop_first(),
        ));
        assert(seq![Seq::<char>::empty()].drop_first() =~= Seq::<Seq<char>>::empty());
        assert(keep_nonempty(Seq::<Seq<char>>::empty()) == Seq::<Seq<char>>::empty());
        assert(m.1 =~= Seq::<Seq<char>>::empty());
    } else {
        lemma_split_join(m.1, '|');
        assert forall|k: int| 0 <= k < m.1.len() implies (#[trigger] m.1[k]).len() > 0 by {}
        lemma_keep_nonempty_all(m.1);
    }
}

proof fn lemma_parse_monitors(ms: Seq<(Seq<char>, Seq<Seq<char>>)>)
    requires
        forall|i: int|
            0 <= i < ms.len() ==> {
                &&& !(#[trigger] ms[i]).0.contains(';')
                &&& !ms[i].0.contains('=')
                &&& forall|k: int|
                    0 <= k < ms[i].1.len() ==> {
                        &&& (#[trigger] ms[i].1[k]).len() > 0
                        &&& !ms[i].1[k].contains('|')
                        &&& !ms[i].1[k].contains(';')
                    }
            },
    ensures
        parse_monitors(monitor_entries(ms)) == ms,
        forall|i: int| 0 <= i < ms.len() ==> !(#[trigger] monitor_entries(ms)[i]).contains(';'),
    decreases ms.len(),
{
    if ms.len() > 0 {
        let es = monitor_entries(ms);
        assert(es.drop_last() =~= monitor_entries(ms.drop_last()));
        lemma_parse_monitors(ms.drop_last());
        lemma_monitor_entry(ms.last());
        assert(ms.drop_last().push(ms.last()) =~= ms);
        assert forall|i: int| 0 <= i < ms.len() implies !(#[trigger] monitor_entries(ms)[i]).contains(
            ';',
        ) by {
            lemma_monitor_entry(ms[i]);
        }
    }
}

/// A scene comes back from its written form as it was, as long as it can
/// be written: a valid name, monitor names without `;` or `=`, and paths
/// that are not empty and hold neither `|` nor `;`. A monitor with nothing
/// on it survives the trip too.
pub proof fn lemma_scene_round_trip(s: (Seq<char>, Seq<(Seq<char>, Seq<Seq<char>>)>))
    requires
        writable(s),
    ensures
        spec_parse(spec_written_form(s)) == Some(s),
{
    lemma_parse_monitors(s.1);
    let parts = seq![s.0] + monitor_entries(s.1);
    assert forall|i: int| 0 <= i < parts.len() implies !(#[trigger] parts[i]).contains(';') by {
        if i > 0 {
            assert(parts[i] == monitor_entries(s.1)[i - 1]);
        }
    }
    lemma_split_join(parts, ';');
    assert(split(spec_written_form(s), ';')[0] == s.0);
    assert(parts.drop_first() =~= monitor_entries(s.1));
}

fn parse_monitor_chars(entry: &[char]) -> (r: Option<(String, Vec<String>)>)
    ensures
        match r {
            Some(m) => parse_monitor(entry@) == Some(monitor_view(m)),
            None => parse_monitor(entry@) is None,
        },
{
    let mut eq: usize = 0;
    while eq < entry.len() && entry[eq] != '='
        invariant
            eq <= entry@.len(),
            forall|j: int| 0 <= j < eq ==> entry@[j] != '=',
        decreases entry@.len() - eq,
    {
        eq = eq + 1;
    }
    proof {
        lemma_find_bounds(entry@, '=');
    }
    if eq == entry.len() {
        assert(!entry@.contains('='));
        return None;
    }
    assert(crate::text::find(entry@, '=') == eq) by {
        let f = crate::text::find(entry@, '=');
        if f != eq {
            if f < eq {
                assert(entry@[f] == '=');
            } else {
                assert(entry@[eq as int] == '=');
            }
        }
    }
    let monitor = slice_of(entry, 0, eq);
    let len = entry.len();
    let list = slice_of(entry, eq + 1, len);
    assert(monitor@ =~= entry@.take(eq as int));
    assert(list@ =~= entry@.skip(eq + 1));
    let pieces = split_vec(list.as_slice(), '|');
    let ghost ps = split(list@, '|');
    let mut items: Vec<String> = Vec::new();
    let mut i: usize = 0;
    assert(ps.take(0) =~= Seq::<Seq<char>>::empty());
    while i < pieces.len()
        invariant
            i <= pieces@.len(),
            views(pieces@) == ps,
            string_views(items@) == keep_nonempty(ps.take(i as int)),
        decreases pieces@.len() - i,
    {
        let p = &pieces[i];
        proof {
            assert(ps.take(i + 1) =~= ps.take(i as int).push(p@));
            lemma_keep_nonempty_push(ps.take(i as int), p@);
        }
        if p.len() > 0 {
            let ghost before = items@;
            items.push(string_of(p.as_slice()));
            assert(string_views(items@) =~= string_views(before).push(p@));
        }
        i = i + 1;
    }
    assert(ps.take(i as int) =~= ps);
    Some((string_of(monitor.as_slice()), items))
}

/// `<name>;<monitor>=<path>|<path>;<monitor>=` back into a scene. `None`
/// when the name is not one `valid_name` accepts.
pub fn parse(text: &str) -> (r: Option<Scene>)
    ensures
        match r {
            Some(s) => spec_parse(text@) == Some(scene_view(s)),
            None => spec_parse(text@) is None,
        },
{
    let v = chars_of(text);
    let parts = split_vec(v.as_slice(), ';');
    let ghost ps = split(text@, ';');
    let name = trim_vec(parts[0].as_slice());
    assert(ps[0] == parts@[0]@);
    let name_text = string_of(name.as_slice());
    if !valid_name(name_text.as_str()) {
        return None;
    }
    let mut monitors: Vec<(String, Vec<String>)> = Vec::new();
    let mut i: usize = 1;
    assert(ps.drop_first().take(0) =~= Seq::<Seq<char>>::empty());
    while i < parts.len()
        invariant
            1 <= i <= parts@.len(),
            views(parts@) == ps,
            monitors@.map_values(|m: (String, Vec<String>)| monitor_view(m)) == parse_monitors(
                ps.drop_first().take(i - 1),
            ),
        decreases parts@.len() - i,
    {
        let e = &parts[i];
        proof {
            assert(ps.drop_first().take(i as int).drop_last() =~= ps.drop_first().take(i - 1));
            assert(ps.drop_first().take(i as int).last() == e@);
        }
        if e.len() > 0 {
            match parse_monitor_chars(e.as_slice()) {
                Some(m) => {
                    let ghost before = monitors@;
                    monitors.push(m);
                    assert(monitors@.map_values(|m: (String, Vec<String>)| monitor_view(m))
                        =~= before.map_values(|m: (String, Vec<String>)| monitor_view(m)).push(
                        monitor_view(m),
                    ));
                },
                None => {},
            }
        }
        i = i + 1;
    }
    assert(ps.drop_first().take(i - 1) =~= ps.drop_first());
    Some(Scene { name: name_text, monitors })
}

/// One scene as one line's worth of text.
pub fn written_form(scene: &Scene) -> (text: String)
    ensures
        text@ == spec_written_form(scene_view(*scene)),
{
    let mut parts: Vec<Vec<char>> = Vec::new();
    parts.push(chars_of(scene.name.as_str()));
    let ghost ms = scene_view(*scene).1;
    let bar = ['|'];
    assert(bar@ =~= seq!['|']);
    let mut i: usize = 0;
    assert(views(parts@) =~= seq![scene.name@] + monitor_entries(ms.take(0)));
    while i < scene.monitors.len()
        invariant
            i <= scene.monitors@.len(),
            bar@ == seq!['|'],
            ms == scene_view(*scene).1,
            views(parts@) == seq![scene.name@] + monitor_entries(ms.take(i as int)),
        decreases scene.monitors@.len() - i,
    {
        let (monitor, items) = &scene.monitors[i];
        let mut e = chars_of(monitor.as_str());
        e.push('=');
        let all = chars_of_all(items.as_slice());
        let body = crate::text::joined(&all, bar.as_slice());
        let mut k: usize = 0;
        let ghost base = e@;
        while k < body.len()
            invariant
                k <= body@.len(),
                e@ == base + body@.take(k as int),
            decreases body@.len() - k,
        {
            e.push(body[k]);
            k = k + 1;
            assert(e@ =~= base + body@.take(k as int));
        }
        assert(body@.take(k as int) =~= body@);
        proof {
            assert(ms[i as int] == monitor_view(scene.monitors@[i as int]));
            assert(e@ =~= monitor_entry(ms[i as int]));
        }
        let ghost before = parts@;
        parts.push(e);
        assert(views(parts@) =~= views(before).push(e@));
        assert(monitor_entries(ms.take(i + 1)) =~= monitor_entries(ms.take(i as int)).push(
            monitor_entry(ms[i as int]),
        ));
        i = i + 1;
    }
    assert(ms.take(i as int) =~= ms);
    let mut out = String::new();
    let semi = [';'];
    assert(semi@ =~= seq![';']);
    push_joined(&mut out, &parts, semi.as_slice());
    out
}

/// The first scene with this name, if there is one.
pub open spec fn find_name(scenes: Seq<Scene>, name: Seq<char>) -> Option<int>
    decreases scenes.len(),
{
    if scenes.len() == 0 {
        None
    } else if scenes[0].name@ == name {
        Some(0)
    } else {
        match find_name(scenes.drop_first(), name) {
            Some(i) => Some(i + 1),
            None => None,
        }
    }
}

/// No two scenes share a name.
pub open spec fn unique_names(scenes: Seq<Scene>) -> bool {
    forall|i: int, j: int| 0 <= i < j < scenes.len() ==> scenes[i].name@ != scenes[j].name@
}

proof fn lemma_find_name(scenes: Seq<Scene>, name: Seq<char>, i: int)
    requires
        0 <= i <= scenes.len(),
        forall|j: int| 0 <= j < i ==> (#[trigger] scenes[j]).name@ != name,
    ensures
        i < scenes.len() && scenes[i].name@ == name ==> find_name(scenes, name) == Some(i),
        i == scenes.len() ==> find_name(scenes, name) is None,
    decreases i,
{
    if i > 0 {
        let rest = scenes.drop_first();
        assert(scenes[0].name@ != name);
        assert forall|j: int| 0 <= j < i - 1 implies (#[trigger] rest[j]).name@ != name by {
            assert(rest[j] == scenes[j + 1]);
        }
        lemma_find_name(rest, name, i - 1);
    } else if scenes.len() == 0 {
    }
}

fn find_index(scenes: &[Scene], name: &[char]) -> (r: Option<usize>)
    ensures
        match r {
            Some(i) => find_name(scenes@, name@) == Some(i as int) && i < scenes@.len(),
            None => find_name(scenes@, name@) is None,
        },
{
    let mut i: usize = 0;
    while i < scenes.len()
        invariant
            i <= scenes@.len(),
            forall|j: int| 0 <= j < i ==> (#[trigger] scenes@[j]).name@ != name@,
        decreases scenes@.len() - i,
    {
        let n = chars_of(scenes[i].name.as_str());
        if same(n.as_slice(), name) {
            proof {
                lemma_find_name(scenes@, name@, i as int);
            }
            return Some(i);
        }
        i = i + 1;
    }
    proof {
        lemma_find_name(scenes@, name@, i as int);
    }
    None
}

/// What saving `scene` does to `before`, giving `after` and whether it was
/// stored: a name that cannot be written is refused; a name already used is
/// saved over; a new name is added while there is room.
pub open spec fn spec_saved(before: Seq<Scene>, scene: Scene, after: Seq<Scene>, stored: bool) -> bool {
    if !spec_valid_name(scene.name@) {
        !stored && after == before
    } else {
        match find_name(before, scene.name@) {
            Some(i) => stored && after == before.update(i, scene),
            None => if before.len() >= MAX {
                !stored && after == before
            } else {
                stored && after == before.push(scene)
            },
        }
    }
}

/// The position of the first scene called `name`, if there is one.
pub fn find_index_of(scenes: &[Scene], name: &str) -> (r: Option<usize>)
    ensures
        match r {
            Some(i) => find_name(scenes@, name@) == Some(i as int) && i < scenes@.len(),
            None => find_name(scenes@, name@) is None,
        },
{
    let target = chars_of(name);
    find_index(scenes, target.as_slice())
}

/// Add a scene, or replace the one already using that name. Saving over a
/// name is what somebody means by saving twice. Refused for a name that
/// cannot be written, and for a new name once the list is full.
pub fn store(scenes: &mut Vec<Scene>, scene: Scene) -> (stored: bool)
    ensures
        !spec_valid_name(scene.name@) ==> !stored && final(scenes)@ == old(scenes)@,
        spec_valid_name(scene.name@) ==> match find_name(old(scenes)@, scene.name@) {
            Some(i) => stored && final(scenes)@ == old(scenes)@.update(i, scene),
            None => if old(scenes)@.len() >= MAX {
                !stored && final(scenes)@ == old(scenes)@
            } else {
                stored && final(scenes)@ == old(scenes)@.push(scene)
            },
        },
        // Saving never makes two scenes share a name, and never grows the
        // list past its end.
        unique_names(old(scenes)@) ==> unique_names(final(scenes)@),
        old(scenes)@.len() <= MAX ==> final(scenes)@.len() <= MAX,
{
    if !valid_name(scene.name.as_str()) {
        return false;
    }
    let name = chars_of(scene.name.as_str());
    match find_index(scenes.as_slice(), name.as_slice()) {
        Some(i) => {
            let ghost before = scenes@;
            scenes.set(i, scene);
            proof {
                lemma_find_name_at(before, name@);
                assert forall|a: int, b: int| 0 <= a < b < scenes@.len() && unique_names(before)
                    implies scenes@[a].name@ != scenes@[b].name@ by {
                    if a != i && b != i {
                        assert(scenes@[a] == before[a]);
                        assert(scenes@[b] == before[b]);
                    } else if a == i {
                        assert(scenes@[b] == before[b]);
                        assert(before[i as int].name@ == name@);
                    } else {
                        assert(scenes@[a] == before[a]);
                        assert(before[i as int].name@ == name@);
                    }
                }
            }
            true
        },
        None => {
            if scenes.len() >= MAX {
                return false;
            }
            let ghost before = scenes@;
            scenes.push(scene);
            proof {
                lemma_find_name_none(before, name@);
                assert forall|a: int, b: int| 0 <= a < b < scenes@.len() && unique_names(before)
                    implies scenes@[a].name@ != scenes@[b].name@ by {
                    if b < before.len() {
                        assert(scenes@[a] == before[a]);
                        assert(scenes@[b] == before[b]);
                    } else {
                        assert(scenes@[a] == before[a]);
                    }
                }
            }
            true
        },
    }
}

proof fn lemma_find_name_at(scenes: Seq<Scene>, name: Seq<char>)
    ensures
        find_name(scenes, name) matches Some(i) ==> 0 <= i < scenes.len() && scenes[i].name@ == name,
    decreases scenes.len(),
{
    if scenes.len() > 0 && scenes[0].name@ != name {
        let rest = scenes.drop_first();
        lemma_find_name_at(rest, name);
        if let Some(i) = find_name(rest, name) {
            assert(rest[i] == scenes[i + 1]);
        }
    }
}

proof fn lemma_find_name_none(scenes: Seq<Scene>, name: Seq<char>)
    ensures
        find_name(scenes, name) is None ==> forall|j: int| 0 <= j < scenes.len() ==> (#[trigger] scenes[j]).name@ != name,
    decreases scenes.len(),
{
    if scenes.len() > 0 && scenes[0].name@ != name {
        let rest = scenes.drop_first();
        lemma_find_name_none(rest, name);
        if find_name(rest, name) is None {
            assert forall|j: int| 0 <= j < scenes.len() implies (#[trigger] scenes[j]).name@ != name by {
                if j > 0 {
                    assert(scenes[j] == rest[j - 1]);
                }
            }
        }
    }
}

/// The scenes without the ones called `name`, in order.
pub open spec fn without(scenes: Seq<Scene>, name: Seq<char>) -> Seq<Scene>
    decreases scenes.len(),
{
    if scenes.len() == 0 {
        Seq::empty()
    } else if scenes.last().name@ == name {
        without(scenes.drop_last(), name)
    } else {
        without(scenes.drop_last(), name).push(scenes.last())
    }
}

/// Take away every scene called `name`, and say whether any was.
pub fn remove(scenes: &mut Vec<Scene>, name: &str) -> (removed: bool)
    ensures
        final(scenes)@ == without(old(scenes)@, name@),
        removed == (final(scenes)@.len() != old(scenes)@.len()),
{
    let target = chars_of(name);
    let mut kept: Vec<Scene> = Vec::new();
    let before = scenes.len();
    let ghost given = scenes@;
    let mut taken: Vec<Scene> = Vec::new();
    std::mem::swap(&mut taken, scenes);
    let mut i: usize = 0;
    assert(given.skip(0) =~= given);
    while taken.len() > 0
        invariant
            i <= given.len(),
            given.len() == before,
            taken@ == given.skip(i as int),
            target@ == name@,
            kept@ == without(given.take(i as int), name@),
        decreases taken@.len(),
    {
        let first = taken.remove(0);
        assert(first == given[i as int]);
        assert(given.take(i + 1).drop_last() =~= given.take(i as int));
        assert(given.take(i + 1).last() == first);
        assert(taken@ =~= given.skip(i + 1));
        let n = chars_of(first.name.as_str());
        if !same(n.as_slice(), target.as_slice()) {
            kept.push(first);
        }
        i = i + 1;
    }
    assert(given.take(i as int) =~= given);
    *scenes = kept;
    scenes.len() != before
}

} // verus!

verus! {

/// The scene called `name`, if there is one.
pub fn find<'a>(scenes: &'a [Scene], name: &str) -> (r: Option<&'a Scene>)
    ensures
        match find_name(scenes@, name@) {
            Some(i) => 0 <= i < scenes@.len() && (r matches Some(s) && *s == scenes@[i]),
            None => r is None,
        },
{
    let target = chars_of(name);
    match find_index(scenes, target.as_slice()) {
        Some(i) => Some(&scenes[i]),
        None => None,
    }
}

} // verus!

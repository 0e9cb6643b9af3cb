//! What the session file promises: a session written out reads back as the
//! same session, as long as every value in it can be written down.

use vstd::prelude::*;

use super::{
    apply_key, empty_view, is_sorted_texts, sorted_texts, spec_parse, spec_written_form, first_block, fit_line, flag_line, fraction_line, motion_text, nat_of_u32,
    monitor_lines, nat_of_u64, own_lines, number_line, on_off, power_text, read_lines, scene_lines, second_block,
    sound_text, true_false, visual_line, SessionView,
};
use crate::compositor::render::{fit_name, spec_fit_parse, Fit, Motion, Overrides, Visual};
use crate::compositor::Sound;
use crate::power::battery::PowerPolicy;
use crate::power::apps::spec_parse_list;
use crate::compositor::desktop::chars_before;
use crate::compositor::rules::Trigger;
use crate::text::{decimal, is_digit, join, keep_nonempty, lemma_keep_nonempty_all, trim, trim_all, lemma_join_push, lemma_split_join, lines, split, split_once, strip_cr};

verus! {

/// Lines, each ended by a line feed.
pub open spec fn unlines(ls: Seq<Seq<char>>) -> Seq<char>
    decreases ls.len(),
{
    if ls.len() == 0 {
        Seq::empty()
    } else {
        unlines(ls.drop_last()) + ls.last() + seq!['\n']
    }
}

/// Text that fits on one line and has no carriage return in it.
pub open spec fn one_line(t: Seq<char>) -> bool {
    !t.contains('\n') && !t.contains('\r')
}

proof fn lemma_unlines_join(ls: Seq<Seq<char>>)
    ensures
        unlines(ls) == join(ls.push(Seq::empty()), seq!['\n']),
    decreases ls.len(),
{
    if ls.len() == 0 {
        assert(ls.push(Seq::<char>::empty()) =~= seq![Seq::<char>::empty()]);
        assert(join(seq![Seq::<char>::empty()], seq!['\n']) == Seq::<char>::empty());
    } else {
        let rest = ls.drop_last();
        lemma_unlines_join(rest);
        assert(rest.push(ls.last()) =~= ls);
        if rest.len() == 0 {
            assert(ls =~= seq![ls.last()]);
            assert(ls.push(Seq::<char>::empty()).drop_first() =~= seq![Seq::<char>::empty()]);
            assert(unlines(rest) =~= Seq::<char>::empty());
            let q = ls.push(Seq::<char>::empty());
            assert(q[0] == ls.last());
            assert(join(q.drop_first(), seq!['\n']) == Seq::<char>::empty());
            assert(join(q, seq!['\n']) == q[0] + seq!['\n'] + join(q.drop_first(), seq!['\n']));
            assert(unlines(ls) =~= ls.last() + seq!['\n'] + Seq::<char>::empty());
        } else {
            lemma_join_push(rest, seq!['\n'], Seq::<char>::empty());
            lemma_join_push(rest, seq!['\n'], ls.last());
            lemma_join_push(ls, seq!['\n'], Seq::<char>::empty());
            assert(join(rest.push(Seq::<char>::empty()), seq!['\n']) =~= join(rest, seq!['\n'])
                + seq!['\n']);
            assert(unlines(ls) =~= join(rest, seq!['\n']) + seq!['\n'] + ls.last() + seq!['\n']);
            assert(join(ls.push(Seq::<char>::empty()), seq!['\n']) =~= join(rest, seq!['\n'])
                + seq!['\n'] + ls.last() + seq!['\n'] + Seq::<char>::empty());
        }
    }
}

/// Lines written one after another read back as the same lines.
pub proof fn lemma_lines_unlines(ls: Seq<Seq<char>>)
    requires
        forall|i: int| 0 <= i < ls.len() ==> one_line(#[trigger] ls[i]),
    ensures
        lines(unlines(ls)) == ls,
{
    lemma_unlines_join(ls);
    let p = ls.push(Seq::<char>::empty());
    assert forall|i: int| 0 <= i < p.len() implies !(#[trigger] p[i]).contains('\n') by {
        if i < ls.len() {
            assert(p[i] == ls[i]);
        }
    }
    lemma_split_join(p, '\n');
    assert(p.drop_last() =~= ls);
    assert forall|i: int| 0 <= i < ls.len() implies strip_cr(#[trigger] ls[i]) == ls[i] by {
        if ls[i].len() > 0 {
            assert(ls[i].contains(ls[i].last()));
        }
    }
    assert(ls.map_values(|x: Seq<char>| strip_cr(x)) =~= ls);
}

/// `unlines` of two runs of lines is the two texts one after the other.
pub proof fn lemma_unlines_add(a: Seq<Seq<char>>, b: Seq<Seq<char>>)
    ensures
        unlines(a + b) == unlines(a) + unlines(b),
    decreases b.len(),
{
    if b.len() == 0 {
        assert(a + b =~= a);
    } else {
        lemma_unlines_add(a, b.drop_last());
        assert((a + b).drop_last() =~= a + b.drop_last());
        assert(unlines(a + b) =~= unlines(a) + unlines(b));
    }
}

/// What one line does to what has been read so far.
pub open spec fn apply_line<F>(
    s: SessionView<F>,
    line: Seq<char>,
    rd: spec_fn(Seq<char>) -> Option<F>,
    nonneg: spec_fn(F) -> bool,
    half: F,
    one: F,
    zero: F,
) -> SessionView<F> {
    match split_once(line, ' ') {
        Some((key, value)) => apply_key(s, key, value, rd, nonneg, half, one, zero),
        None => s,
    }
}

/// Lines in turn, from what has been read so far.
pub open spec fn apply_lines<F>(
    s: SessionView<F>,
    ls: Seq<Seq<char>>,
    rd: spec_fn(Seq<char>) -> Option<F>,
    nonneg: spec_fn(F) -> bool,
    half: F,
    one: F,
    zero: F,
) -> SessionView<F>
    decreases ls.len(),
{
    if ls.len() == 0 {
        s
    } else {
        apply_line(apply_lines(s, ls.drop_last(), rd, nonneg, half, one, zero), ls.last(), rd, nonneg, half, one, zero)
    }
}

#[verifier::spinoff_prover]
proof fn lemma_read_lines_apply<F>(
    ls: Seq<Seq<char>>,
    rd: spec_fn(Seq<char>) -> Option<F>,
    nonneg: spec_fn(F) -> bool,
    half: F,
    one: F,
    zero: F,
)
    ensures
        read_lines(ls, rd, nonneg, half, one, zero) == apply_lines(empty_view(), ls, rd, nonneg, half, one, zero),
    decreases ls.len(),
{
    if ls.len() > 0 {
        lemma_read_lines_apply(ls.drop_last(), rd, nonneg, half, one, zero);
    }
}

/// Reading two runs of lines is reading the first, then the second.
pub proof fn lemma_apply_add<F>(
    s: SessionView<F>,
    a: Seq<Seq<char>>,
    b: Seq<Seq<char>>,
    rd: spec_fn(Seq<char>) -> Option<F>,
    nonneg: spec_fn(F) -> bool,
    half: F,
    one: F,
    zero: F,
)
    ensures
        apply_lines(s, a + b, rd, nonneg, half, one, zero) == apply_lines(
            apply_lines(s, a, rd, nonneg, half, one, zero),
            b,
            rd,
            nonneg,
            half,
            one,
            zero,
        ),
    decreases b.len(),
{
    if b.len() == 0 {
        assert(a + b =~= a);
    } else {
        lemma_apply_add(s, a, b.drop_last(), rd, nonneg, half, one, zero);
        assert((a + b).drop_last() =~= a + b.drop_last());
        assert((a + b).last() == b.last());
    }
}

/// `<key> <value>` splits back into the key and the value.
pub proof fn lemma_split_key(key: Seq<char>, value: Seq<char>)
    requires
        !key.contains(' '),
    ensures
        split_once(key + seq![' '] + value, ' ') == Some((key, value)),
{
    crate::text::lemma_find_after(key, ' ', value);
    let t = key + seq![' '] + value;
    assert(t.take(key.len() as int) =~= key);
    assert(t.skip(key.len() as int + 1) =~= value);
}

proof fn lemma_reveal_keys()
    ensures
        "fps"@ =~= seq!['f', 'p', 's'],
        "fit"@ =~= seq!['f', 'i', 't'],
        "interval"@ =~= seq!['i', 'n', 't', 'e', 'r', 'v', 'a', 'l'],
        "shuffle"@ =~= seq!['s', 'h', 'u', 'f', 'f', 'l', 'e'],
        "visual"@ =~= seq!['v', 'i', 's', 'u', 'a', 'l'],
        "sound"@ =~= seq!['s', 'o', 'u', 'n', 'd'],
        "power"@ =~= seq!['p', 'o', 'w', 'e', 'r'],
        "speed"@ =~= seq!['s', 'p', 'e', 'e', 'd'],
        "fade"@ =~= seq!['f', 'a', 'd', 'e'],
        "span"@ =~= seq!['s', 'p', 'a', 'n'],
        "hotkeys"@ =~= seq!['h', 'o', 't', 'k', 'e', 'y', 's'],
        "hibernate"@ =~= seq!['h', 'i', 'b', 'e', 'r', 'n', 'a', 't', 'e'],
        "memory"@ =~= seq!['m', 'e', 'm', 'o', 'r', 'y'],
        "idle"@ =~= seq!['i', 'd', 'l', 'e'],
        "busy"@ =~= seq!['b', 'u', 's', 'y'],
        "reducemotion"@ =~= seq!['r', 'e', 'd', 'u', 'c', 'e', 'm', 'o', 't', 'i', 'o', 'n'],
        "drift"@ =~= seq!['d', 'r', 'i', 'f', 't'],
        "accent"@ =~= seq!['a', 'c', 'c', 'e', 'n', 't'],
        "apps"@ =~= seq!['a', 'p', 'p', 's'],
        "rules"@ =~= seq!['r', 'u', 'l', 'e', 's'],
        "scene"@ =~= seq!['s', 'c', 'e', 'n', 'e'],
        "sparam"@ =~= seq!['s', 'p', 'a', 'r', 'a', 'm'],
        "motion"@ =~= seq!['m', 'o', 't', 'i', 'o', 'n'],
        "own"@ =~= seq!['o', 'w', 'n'],
        "monitor"@ =~= seq!['m', 'o', 'n', 'i', 't', 'o', 'r'],
{
    reveal_strlit("fps");
    reveal_strlit("fit");
    reveal_strlit("interval");
    reveal_strlit("shuffle");
    reveal_strlit("visual");
    reveal_strlit("sound");
    reveal_strlit("power");
    reveal_strlit("speed");
    reveal_strlit("fade");
    reveal_strlit("span");
    reveal_strlit("hotkeys");
    reveal_strlit("hibernate");
    reveal_strlit("memory");
    reveal_strlit("idle");
    reveal_strlit("busy");
    reveal_strlit("reducemotion");
    reveal_strlit("drift");
    reveal_strlit("accent");
    reveal_strlit("apps");
    reveal_strlit("rules");
    reveal_strlit("scene");
    reveal_strlit("sparam");
    reveal_strlit("motion");
    reveal_strlit("own");
    reveal_strlit("monitor");
}

proof fn lemma_reveal_heads()
    ensures
        "fit "@ =~= "fit"@ + seq![' '],
        "visual "@ =~= "visual"@ + seq![' '],
        "sound "@ =~= "sound"@ + seq![' '],
        "power "@ =~= "power"@ + seq![' '],
        "motion "@ =~= "motion"@ + seq![' '],
        "apps "@ =~= "apps"@ + seq![' '],
        "rules "@ =~= "rules"@ + seq![' '],
        "scene "@ =~= "scene"@ + seq![' '],
        "sparam "@ =~= "sparam"@ + seq![' '],
        "own "@ =~= "own"@ + seq![' '],
        "monitor "@ =~= "monitor"@ + seq![' '],
        "on"@ =~= seq!['o', 'n'],
        "off"@ =~= seq!['o', 'f', 'f'],
        "true"@ =~= seq!['t', 'r', 'u', 'e'],
        "false"@ =~= seq!['f', 'a', 'l', 's', 'e'],
{
    lemma_reveal_keys();
    reveal_strlit("fit ");
    reveal_strlit("visual ");
    reveal_strlit("sound ");
    reveal_strlit("power ");
    reveal_strlit("motion ");
    reveal_strlit("apps ");
    reveal_strlit("rules ");
    reveal_strlit("scene ");
    reveal_strlit("sparam ");
    reveal_strlit("own ");
    reveal_strlit("monitor ");
    reveal_strlit("on");
    reveal_strlit("off");
    reveal_strlit("true");
    reveal_strlit("false");
}

/// `<key> <value>`.
pub open spec fn line_of(key: Seq<char>, value: Seq<char>) -> Seq<char> {
    key + seq![' '] + value
}

/// The line for a value written down, or no line at all.
pub open spec fn opt_line(key: Seq<char>, value: Option<Seq<char>>) -> Seq<Seq<char>> {
    match value {
        Some(v) => seq![line_of(key, v)],
        None => Seq::empty(),
    }
}

proof fn lemma_opt_line_text(key: Seq<char>, value: Option<Seq<char>>)
    ensures
        unlines(opt_line(key, value)) == match value {
            Some(v) => key + seq![' '] + v + seq!['\n'],
            None => Seq::<char>::empty(),
        },
{
    if let Some(v) = value {
        let ls = opt_line(key, value);
        assert(ls.drop_last() =~= Seq::<Seq<char>>::empty());
        assert(ls.last() == line_of(key, v));
        assert(unlines(ls.drop_last()) =~= Seq::<char>::empty());
        assert(unlines(ls) =~= key + seq![' '] + v + seq!['\n']);
    }
}

proof fn lemma_apply_opt<F>(
    t: SessionView<F>,
    key: Seq<char>,
    value: Option<Seq<char>>,
    rd: spec_fn(Seq<char>) -> Option<F>,
    nonneg: spec_fn(F) -> bool,
    half: F,
    one: F,
    zero: F,
)
    requires
        !key.contains(' '),
    ensures
        apply_lines(t, opt_line(key, value), rd, nonneg, half, one, zero) == match value {
            Some(v) => apply_key(t, key, v, rd, nonneg, half, one, zero),
            None => t,
        },
{
    if let Some(v) = value {
        lemma_split_key(key, v);
        let ls = opt_line(key, value);
        assert(ls.drop_last() =~= Seq::<Seq<char>>::empty());
        assert(ls.last() == line_of(key, v));
        assert(apply_lines(t, ls.drop_last(), rd, nonneg, half, one, zero) == t);
    }
}

pub open spec fn num_text(v: Option<nat>) -> Option<Seq<char>> {
    match v {
        Some(n) => Some(decimal(n)),
        None => None,
    }
}

pub open spec fn flag_text(v: Option<bool>) -> Option<Seq<char>> {
    match v {
        Some(b) => Some(on_off(b)),
        None => None,
    }
}

pub open spec fn show_text<F>(v: Option<F>, show: spec_fn(F) -> Seq<char>) -> Option<Seq<char>> {
    match v {
        Some(x) => Some(show(x)),
        None => None,
    }
}

/// The lines of the first block.
pub open spec fn first_lines<F>(s: SessionView<F>, show3: spec_fn(F) -> Seq<char>) -> Seq<Seq<char>> {
    opt_line("fps"@, num_text(nat_of_u32(s.fps))) + opt_line("fit"@, fit_text(s.fit)) + opt_line(
        "interval"@,
        num_text(nat_of_u64(s.interval_secs)),
    ) + opt_line("shuffle"@, flag_text(s.shuffle)) + opt_line("visual"@, visual_text(s.visual, show3))
        + opt_line("sound"@, sound_value(s.sound, show3)) + opt_line("power"@, power_value(s.power))
}

#[verifier::spinoff_prover]
proof fn lemma_first_text<F>(s: SessionView<F>, show3: spec_fn(F) -> Seq<char>)
    ensures
        first_block(s, show3) == unlines(first_lines(s, show3)),
{
    lemma_reveal_heads();
    let a = opt_line("fps"@, num_text(nat_of_u32(s.fps)));
    let b = opt_line("fit"@, fit_text(s.fit));
    let c = opt_line("interval"@, num_text(nat_of_u64(s.interval_secs)));
    let d = opt_line("shuffle"@, flag_text(s.shuffle));
    let e = opt_line("visual"@, visual_text(s.visual, show3));
    let f = opt_line("sound"@, sound_value(s.sound, show3));
    let g = opt_line("power"@, power_value(s.power));
    lemma_opt_line_text("fps"@, num_text(nat_of_u32(s.fps)));
    lemma_opt_line_text("fit"@, fit_text(s.fit));
    lemma_opt_line_text("interval"@, num_text(nat_of_u64(s.interval_secs)));
    lemma_opt_line_text("shuffle"@, flag_text(s.shuffle));
    lemma_opt_line_text("visual"@, visual_text(s.visual, show3));
    lemma_opt_line_text("sound"@, sound_value(s.sound, show3));
    lemma_opt_line_text("power"@, power_value(s.power));
    assert(fit_line(s.fit) =~= unlines(b));
    assert(visual_line(s.visual, show3) =~= unlines(e));
    assert(sound_text(s.sound, show3) =~= unlines(f));
    assert(power_text(s.power) =~= unlines(g));
    assert(number_line("fps"@, nat_of_u32(s.fps)) =~= unlines(a));
    assert(number_line("interval"@, nat_of_u64(s.interval_secs)) =~= unlines(c));
    assert(flag_line("shuffle"@, s.shuffle) =~= unlines(d));
    lemma_unlines_add(a, b);
    lemma_unlines_add(a + b, c);
    lemma_unlines_add(a + b + c, d);
    lemma_unlines_add(a + b + c + d, e);
    lemma_unlines_add(a + b + c + d + e, f);
    lemma_unlines_add(a + b + c + d + e + f, g);
}

/// Plain text for a single token: no space, bar or line break.
pub open spec fn token(t: Seq<char>) -> bool {
    one_line(t) && !t.contains(' ') && !t.contains('|')
}

/// A number that `show` writes as a token and `rd` reads back as itself.
pub open spec fn reads_back<F>(rd: spec_fn(Seq<char>) -> Option<F>, show: spec_fn(F) -> Seq<char>, v: F) -> bool {
    rd(show(v)) == Some(v) && token(show(v))
}

/// Decimal digits are a token.
pub proof fn lemma_decimal_token(n: nat)
    ensures
        token(decimal(n)),
        decimal(n).len() >= 1,
{
    crate::text::lemma_decimal_len(n);
    let d = decimal(n);
    assert(!d.contains(' ')) by {
        if d.contains(' ') {
            let i = choose|i: int| 0 <= i < d.len() && d[i] == ' ';
            assert(is_digit(d[i]));
        }
    }
    assert(!d.contains('|')) by {
        if d.contains('|') {
            let i = choose|i: int| 0 <= i < d.len() && d[i] == '|';
            assert(is_digit(d[i]));
        }
    }
    assert(!d.contains('\n')) by {
        if d.contains('\n') {
            let i = choose|i: int| 0 <= i < d.len() && d[i] == '\n';
            assert(is_digit(d[i]));
        }
    }
    assert(!d.contains('\r')) by {
        if d.contains('\r') {
            let i = choose|i: int| 0 <= i < d.len() && d[i] == '\r';
            assert(is_digit(d[i]));
        }
    }
}

/// "on" and "off" are tokens, and tell their flag apart.
proof fn lemma_on_off(b: bool)
    ensures
        token(on_off(b)),
        (on_off(b) == "on"@) == b,
{
    lemma_reveal_heads();
    if !b {
        assert(on_off(b)[1] != "on"@[1]);
    }
}

/// Three tokens with a character between each split back into the three.
proof fn lemma_split3(a: Seq<char>, b: Seq<char>, c: Seq<char>, ch: char)
    requires
        !a.contains(ch),
        !b.contains(ch),
        !c.contains(ch),
    ensures
        split(a + seq![ch] + b + seq![ch] + c, ch) == seq![a, b, c],
{
    let parts = seq![a, b, c];
    assert forall|i: int| 0 <= i < parts.len() implies !(#[trigger] parts[i]).contains(ch) by {}
    lemma_split_join(parts, ch);
    assert(parts.drop_first() =~= seq![b, c]);
    assert(seq![b, c].drop_first() =~= seq![c]);
    assert(join(seq![c], seq![ch]) == c);
    assert(join(seq![b, c], seq![ch]) == b + seq![ch] + c);
    assert(join(parts, seq![ch]) =~= a + seq![ch] + b + seq![ch] + c);
}

/// Two tokens with a character between split back into the two.
proof fn lemma_split2(a: Seq<char>, b: Seq<char>, ch: char)
    requires
        !a.contains(ch),
        !b.contains(ch),
    ensures
        split(a + seq![ch] + b, ch) == seq![a, b],
{
    let parts = seq![a, b];
    assert forall|i: int| 0 <= i < parts.len() implies !(#[trigger] parts[i]).contains(ch) by {}
    lemma_split_join(parts, ch);
    assert(parts.drop_first() =~= seq![b]);
    assert(join(seq![b], seq![ch]) == b);
    assert(join(parts, seq![ch]) =~= a + seq![ch] + b);
}

/// The first block's numbers are written as single words, whether or not
/// they read back as themselves.
pub open spec fn first_words<F>(s: SessionView<F>, show3: spec_fn(F) -> Seq<char>) -> bool {
    &&& (s.visual matches Some(v) ==> token(show3(v.brightness)) && token(show3(v.saturation)) && token(
        show3(v.blur),
    ))
    &&& (s.sound matches Some(v) ==> token(show3(v.volume)))
}

/// What the first block needs of a session to read back as it was.
pub open spec fn first_writable<F>(
    s: SessionView<F>,
    rd: spec_fn(Seq<char>) -> Option<F>,
    show3: spec_fn(F) -> Seq<char>,
) -> bool {
    &&& (s.visual matches Some(v) ==> reads_back(rd, show3, v.brightness) && reads_back(
        rd,
        show3,
        v.saturation,
    ) && reads_back(rd, show3, v.blur))
    &&& (s.sound matches Some(v) ==> reads_back(rd, show3, v.volume))
}

pub open spec fn fit_text(v: Option<Fit>) -> Option<Seq<char>> {
    match v {
        Some(f) => Some(fit_name(f)),
        None => None,
    }
}

pub open spec fn visual_text<F>(v: Option<Visual<F>>, show3: spec_fn(F) -> Seq<char>) -> Option<Seq<char>> {
    match v {
        Some(w) => Some(show3(w.brightness) + seq![' '] + show3(w.saturation) + seq![' '] + show3(w.blur)),
        None => None,
    }
}

pub open spec fn sound_value<F>(v: Option<Sound<F>>, show3: spec_fn(F) -> Seq<char>) -> Option<Seq<char>> {
    match v {
        Some(w) => Some(on_off(w.enabled) + seq![' '] + show3(w.volume) + seq![' '] + on_off(w.duck)),
        None => None,
    }
}

pub open spec fn power_value(v: Option<PowerPolicy>) -> Option<Seq<char>> {
    match v {
        Some(p) => Some(decimal(p.battery_fps as nat) + seq![' '] + on_off(p.pause_on_saver)),
        None => None,
    }
}

#[verifier::spinoff_prover]
proof fn lemma_read_fps<F>(
    t: SessionView<F>,
    v: Option<u32>,
    rd: spec_fn(Seq<char>) -> Option<F>,
    nonneg: spec_fn(F) -> bool,
    half: F,
    one: F,
    zero: F,
)
    requires
        t.fps is None,
    ensures
        apply_lines(t, opt_line("fps"@, num_text(nat_of_u32(v))), rd, nonneg, half, one, zero) == (SessionView { fps: v, ..t }),
{
    lemma_reveal_keys();
    lemma_apply_opt(t, "fps"@, num_text(nat_of_u32(v)), rd, nonneg, half, one, zero);
    if let Some(n) = v {
        crate::text::lemma_parse_decimal(n as nat, u32::MAX as nat);
    }
}

#[verifier::spinoff_prover]
proof fn lemma_read_fit<F>(
    t: SessionView<F>,
    v: Option<Fit>,
    rd: spec_fn(Seq<char>) -> Option<F>,
    nonneg: spec_fn(F) -> bool,
    half: F,
    one: F,
    zero: F,
)
    requires
        t.fit is None,
    ensures
        apply_lines(t, opt_line("fit"@, fit_text(v)), rd, nonneg, half, one, zero) == (SessionView { fit: v, ..t }),
{
    lemma_reveal_keys();
    lemma_apply_opt(t, "fit"@, fit_text(v), rd, nonneg, half, one, zero);
    if let Some(x) = v {
        crate::compositor::render::lemma_fit_round_trip(x);
    }
}

#[verifier::spinoff_prover]
proof fn lemma_read_interval<F>(
    t: SessionView<F>,
    v: Option<u64>,
    rd: spec_fn(Seq<char>) -> Option<F>,
    nonneg: spec_fn(F) -> bool,
    half: F,
    one: F,
    zero: F,
)
    requires
        t.interval_secs is None,
    ensures
        apply_lines(t, opt_line("interval"@, num_text(nat_of_u64(v))), rd, nonneg, half, one, zero) == (SessionView { interval_secs: v, ..t }),
{
    lemma_reveal_keys();
    lemma_apply_opt(t, "interval"@, num_text(nat_of_u64(v)), rd, nonneg, half, one, zero);
    if let Some(n) = v {
        crate::text::lemma_parse_decimal(n as nat, u64::MAX as nat);
    }
}

#[verifier::spinoff_prover]
proof fn lemma_read_shuffle<F>(
    t: SessionView<F>,
    v: Option<bool>,
    rd: spec_fn(Seq<char>) -> Option<F>,
    nonneg: spec_fn(F) -> bool,
    half: F,
    one: F,
    zero: F,
)
    requires
        t.shuffle is None,
    ensures
        apply_lines(t, opt_line("shuffle"@, flag_text(v)), rd, nonneg, half, one, zero) == (SessionView { shuffle: v, ..t }),
{
    lemma_reveal_keys();
    lemma_apply_opt(t, "shuffle"@, flag_text(v), rd, nonneg, half, one, zero);
    if let Some(x) = v {
        lemma_on_off(x);
    }
}

#[verifier::spinoff_prover]
proof fn lemma_read_visual<F>(
    t: SessionView<F>,
    v: Option<Visual<F>>,
    rd: spec_fn(Seq<char>) -> Option<F>,
    nonneg: spec_fn(F) -> bool,
    half: F,
    one: F,
    zero: F,
    show3: spec_fn(F) -> Seq<char>,
)
    requires
        t.visual is None,
        v matches Some(w) ==> reads_back(rd, show3, w.brightness) && reads_back(rd, show3, w.saturation)
            && reads_back(rd, show3, w.blur),
    ensures
        apply_lines(t, opt_line("visual"@, visual_text(v, show3)), rd, nonneg, half, one, zero) == (SessionView { visual: v, ..t }),
{
    lemma_reveal_keys();
    lemma_apply_opt(t, "visual"@, visual_text(v, show3), rd, nonneg, half, one, zero);
    if let Some(w) = v {
        let (x, y, z) = (show3(w.brightness), show3(w.saturation), show3(w.blur));
        lemma_split3(x, y, z, ' ');
        let toks = seq![x, y, z];
        assert(toks.drop_last() =~= seq![x, y]);
        assert(seq![x, y].drop_last() =~= seq![x]);
        assert(seq![x].drop_last() =~= Seq::<Seq<char>>::empty());
        assert(super::numbers(Seq::<Seq<char>>::empty(), rd) =~= Seq::<F>::empty());
        assert(seq![x].last() == x);
        assert(seq![x, y].last() == y);
        assert(toks.last() == z);
        assert(super::numbers(seq![x], rd) =~= seq![w.brightness]);
        assert(super::numbers(seq![x, y], rd) =~= seq![w.brightness, w.saturation]);
        assert(super::numbers(toks, rd) =~= seq![w.brightness, w.saturation, w.blur]);
    }
}

#[verifier::spinoff_prover]
proof fn lemma_read_sound<F>(
    t: SessionView<F>,
    v: Option<Sound<F>>,
    rd: spec_fn(Seq<char>) -> Option<F>,
    nonneg: spec_fn(F) -> bool,
    half: F,
    one: F,
    zero: F,
    show3: spec_fn(F) -> Seq<char>,
)
    requires
        t.sound is None,
        v matches Some(w) ==> reads_back(rd, show3, w.volume),
    ensures
        apply_lines(t, opt_line("sound"@, sound_value(v, show3)), rd, nonneg, half, one, zero) == (SessionView { sound: v, ..t }),
{
    lemma_reveal_keys();
    lemma_apply_opt(t, "sound"@, sound_value(v, show3), rd, nonneg, half, one, zero);
    if let Some(w) = v {
        lemma_on_off(w.enabled);
        lemma_on_off(w.duck);
        lemma_split3(on_off(w.enabled), show3(w.volume), on_off(w.duck), ' ');
    }
}

#[verifier::spinoff_prover]
proof fn lemma_read_power<F>(
    t: SessionView<F>,
    v: Option<PowerPolicy>,
    rd: spec_fn(Seq<char>) -> Option<F>,
    nonneg: spec_fn(F) -> bool,
    half: F,
    one: F,
    zero: F,
)
    requires
        t.power is None,
    ensures
        apply_lines(t, opt_line("power"@, power_value(v)), rd, nonneg, half, one, zero) == (SessionView { power: v, ..t }),
{
    lemma_reveal_keys();
    lemma_apply_opt(t, "power"@, power_value(v), rd, nonneg, half, one, zero);
    if let Some(p) = v {
        lemma_decimal_token(p.battery_fps as nat);
        lemma_on_off(p.pause_on_saver);
        lemma_split_key(decimal(p.battery_fps as nat), on_off(p.pause_on_saver));
        crate::text::lemma_parse_decimal(p.battery_fps as nat, u32::MAX as nat);
    }
}

proof fn lemma_first_read<F>(
    s: SessionView<F>,
    rd: spec_fn(Seq<char>) -> Option<F>,
    nonneg: spec_fn(F) -> bool,
    half: F,
    one: F,
    zero: F,
    show3: spec_fn(F) -> Seq<char>,
)
    requires
        first_writable(s, rd, show3),
    ensures
        apply_lines(empty_view(), first_lines(s, show3), rd, nonneg, half, one, zero) == (SessionView {
            fps: s.fps,
            fit: s.fit,
            interval_secs: s.interval_secs,
            shuffle: s.shuffle,
            visual: s.visual,
            sound: s.sound,
            power: s.power,
            ..empty_view()
        }),
{
    let a = opt_line("fps"@, num_text(nat_of_u32(s.fps)));
    let b = opt_line("fit"@, fit_text(s.fit));
    let c = opt_line("interval"@, num_text(nat_of_u64(s.interval_secs)));
    let d = opt_line("shuffle"@, flag_text(s.shuffle));
    let e = opt_line("visual"@, visual_text(s.visual, show3));
    let f = opt_line("sound"@, sound_value(s.sound, show3));
    let g = opt_line("power"@, power_value(s.power));
    let e0: SessionView<F> = empty_view();
    lemma_apply_add(e0, a, b, rd, nonneg, half, one, zero);
    lemma_apply_add(e0, a + b, c, rd, nonneg, half, one, zero);
    lemma_apply_add(e0, a + b + c, d, rd, nonneg, half, one, zero);
    lemma_apply_add(e0, a + b + c + d, e, rd, nonneg, half, one, zero);
    lemma_apply_add(e0, a + b + c + d + e, f, rd, nonneg, half, one, zero);
    lemma_apply_add(e0, a + b + c + d + e + f, g, rd, nonneg, half, one, zero);
    let s1 = SessionView { fps: s.fps, ..e0 };
    lemma_read_fps(e0, s.fps, rd, nonneg, half, one, zero);
    let s2 = SessionView { fit: s.fit, ..s1 };
    lemma_read_fit(s1, s.fit, rd, nonneg, half, one, zero);
    let s3 = SessionView { interval_secs: s.interval_secs, ..s2 };
    lemma_read_interval(s2, s.interval_secs, rd, nonneg, half, one, zero);
    let s4 = SessionView { shuffle: s.shuffle, ..s3 };
    lemma_read_shuffle(s3, s.shuffle, rd, nonneg, half, one, zero);
    let s5 = SessionView { visual: s.visual, ..s4 };
    lemma_read_visual(s4, s.visual, rd, nonneg, half, one, zero, show3);
    let s6 = SessionView { sound: s.sound, ..s5 };
    lemma_read_sound(s5, s.sound, rd, nonneg, half, one, zero, show3);
    lemma_read_power(s6, s.power, rd, nonneg, half, one, zero);
}

/// The `visual` line, whatever its numbers read as, sets nothing but `visual`.
#[verifier::spinoff_prover]
proof fn lemma_visual_only<F>(
    t: SessionView<F>,
    v: Option<Visual<F>>,
    rd: spec_fn(Seq<char>) -> Option<F>,
    nonneg: spec_fn(F) -> bool,
    half: F,
    one: F,
    zero: F,
    show3: spec_fn(F) -> Seq<char>,
)
    ensures
        ({
            let r = apply_lines(t, opt_line("visual"@, visual_text(v, show3)), rd, nonneg, half, one, zero);
            r == SessionView { visual: r.visual, ..t }
        }),
{
    lemma_reveal_keys();
    lemma_apply_opt(t, "visual"@, visual_text(v, show3), rd, nonneg, half, one, zero);
}

/// The `sound` line, whatever its numbers read as, sets nothing but `sound`.
#[verifier::spinoff_prover]
proof fn lemma_sound_only<F>(
    t: SessionView<F>,
    v: Option<Sound<F>>,
    rd: spec_fn(Seq<char>) -> Option<F>,
    nonneg: spec_fn(F) -> bool,
    half: F,
    one: F,
    zero: F,
    show3: spec_fn(F) -> Seq<char>,
)
    ensures
        ({
            let r = apply_lines(t, opt_line("sound"@, sound_value(v, show3)), rd, nonneg, half, one, zero);
            r == SessionView { sound: r.sound, ..t }
        }),
{
    lemma_reveal_keys();
    lemma_apply_opt(t, "sound"@, sound_value(v, show3), rd, nonneg, half, one, zero);
}

/// The `speed` line, whatever its numbers read as, sets nothing but `speed`.
#[verifier::spinoff_prover]
proof fn lemma_speed_only<F>(
    t: SessionView<F>,
    v: Option<F>,
    rd: spec_fn(Seq<char>) -> Option<F>,
    nonneg: spec_fn(F) -> bool,
    half: F,
    one: F,
    zero: F,
    show2: spec_fn(F) -> Seq<char>,
)
    ensures
        ({
            let r = apply_lines(t, opt_line("speed"@, show_text(v, show2)), rd, nonneg, half, one, zero);
            r == SessionView { speed: r.speed, ..t }
        }),
{
    lemma_reveal_keys();
    lemma_apply_opt(t, "speed"@, show_text(v, show2), rd, nonneg, half, one, zero);
}

/// The `motion` line, whatever its numbers read as, sets nothing but `motion`.
#[verifier::spinoff_prover]
proof fn lemma_motion_only<F>(
    t: SessionView<F>,
    v: Option<Motion<F>>,
    rd: spec_fn(Seq<char>) -> Option<F>,
    nonneg: spec_fn(F) -> bool,
    half: F,
    one: F,
    zero: F,
    show3: spec_fn(F) -> Seq<char>,
)
    ensures
        ({
            let r = apply_lines(t, opt_line("motion"@, motion_value(v, show3)), rd, nonneg, half, one, zero);
            r == SessionView { motion: r.motion, ..t }
        }),
{
    lemma_reveal_keys();
    lemma_apply_opt(t, "motion"@, motion_value(v, show3), rd, nonneg, half, one, zero);
}

/// The `drift` line, whatever its numbers read as, sets nothing but `drift`.
#[verifier::spinoff_prover]
proof fn lemma_drift_only<F>(
    t: SessionView<F>,
    v: Option<F>,
    rd: spec_fn(Seq<char>) -> Option<F>,
    nonneg: spec_fn(F) -> bool,
    half: F,
    one: F,
    zero: F,
    show3: spec_fn(F) -> Seq<char>,
)
    ensures
        ({
            let r = apply_lines(t, opt_line("drift"@, show_text(v, show3)), rd, nonneg, half, one, zero);
            r == SessionView { drift: r.drift, ..t }
        }),
{
    lemma_reveal_keys();
    lemma_apply_opt(t, "drift"@, show_text(v, show3), rd, nonneg, half, one, zero);
}

/// The first block read back: every setting in it as it was written,
/// except the ones made of numbers, which come back as whatever their
/// words read as and touch nothing else.
proof fn lemma_first_read_any<F>(
    s: SessionView<F>,
    rd: spec_fn(Seq<char>) -> Option<F>,
    nonneg: spec_fn(F) -> bool,
    half: F,
    one: F,
    zero: F,
    show3: spec_fn(F) -> Seq<char>,
)
    ensures
        ({
            let r = apply_lines(empty_view(), first_lines(s, show3), rd, nonneg, half, one, zero);
            r == (SessionView {
                fps: s.fps,
                fit: s.fit,
                interval_secs: s.interval_secs,
                shuffle: s.shuffle,
                visual: r.visual,
                sound: r.sound,
                power: s.power,
                ..empty_view()
            })
        }),
{
    let a = opt_line("fps"@, num_text(nat_of_u32(s.fps)));
    let b = opt_line("fit"@, fit_text(s.fit));
    let c = opt_line("interval"@, num_text(nat_of_u64(s.interval_secs)));
    let d = opt_line("shuffle"@, flag_text(s.shuffle));
    let e = opt_line("visual"@, visual_text(s.visual, show3));
    let f = opt_line("sound"@, sound_value(s.sound, show3));
    let g = opt_line("power"@, power_value(s.power));
    let e0: SessionView<F> = empty_view();
    lemma_apply_add(e0, a, b, rd, nonneg, half, one, zero);
    lemma_apply_add(e0, a + b, c, rd, nonneg, half, one, zero);
    lemma_apply_add(e0, a + b + c, d, rd, nonneg, half, one, zero);
    lemma_apply_add(e0, a + b + c + d, e, rd, nonneg, half, one, zero);
    lemma_apply_add(e0, a + b + c + d + e, f, rd, nonneg, half, one, zero);
    lemma_apply_add(e0, a + b + c + d + e + f, g, rd, nonneg, half, one, zero);
    let s1 = SessionView { fps: s.fps, ..e0 };
    lemma_read_fps(e0, s.fps, rd, nonneg, half, one, zero);
    let s2 = SessionView { fit: s.fit, ..s1 };
    lemma_read_fit(s1, s.fit, rd, nonneg, half, one, zero);
    let s3 = SessionView { interval_secs: s.interval_secs, ..s2 };
    lemma_read_interval(s2, s.interval_secs, rd, nonneg, half, one, zero);
    let s4 = SessionView { shuffle: s.shuffle, ..s3 };
    lemma_read_shuffle(s3, s.shuffle, rd, nonneg, half, one, zero);
    lemma_visual_only(s4, s.visual, rd, nonneg, half, one, zero, show3);
    let s5 = apply_lines(s4, e, rd, nonneg, half, one, zero);
    lemma_sound_only(s5, s.sound, rd, nonneg, half, one, zero, show3);
    let s6 = apply_lines(s5, f, rd, nonneg, half, one, zero);
    lemma_read_power(s6, s.power, rd, nonneg, half, one, zero);
}

/// The second block read back: every setting in it as it was written,
/// except the ones made of numbers, which come back as whatever their
/// words read as and touch nothing else.
proof fn lemma_second_read_any<F>(
    t: SessionView<F>,
    s: SessionView<F>,
    rd: spec_fn(Seq<char>) -> Option<F>,
    nonneg: spec_fn(F) -> bool,
    half: F,
    one: F,
    zero: F,
    show3: spec_fn(F) -> Seq<char>,
    show2: spec_fn(F) -> Seq<char>,
)
    requires
        t.fade_ms is None,
        t.span is None,
        t.hotkeys is None,
        t.hibernate_secs is None,
        t.memory_mb is None,
        t.idle_secs is None,
        t.busy_fps is None,
        t.reduce_motion is None,
        t.accent is None,
    ensures
        ({
            let r = apply_lines(t, second_lines(s, show3, show2), rd, nonneg, half, one, zero);
            r == (SessionView {
                speed: r.speed,
                fade_ms: s.fade_ms,
                span: s.span,
                hotkeys: s.hotkeys,
                hibernate_secs: s.hibernate_secs,
                motion: r.motion,
                memory_mb: s.memory_mb,
                idle_secs: s.idle_secs,
                busy_fps: s.busy_fps,
                reduce_motion: s.reduce_motion,
                drift: r.drift,
                accent: s.accent,
                ..t
            })
        }),
{
    let a = opt_line("speed"@, show_text(s.speed, show2));
    let b = opt_line("fade"@, num_text(nat_of_u64(s.fade_ms)));
    let c = opt_line("span"@, flag_text(s.span));
    let d = opt_line("hotkeys"@, flag_text(s.hotkeys));
    let e = opt_line("hibernate"@, num_text(nat_of_u64(s.hibernate_secs)));
    let f = opt_line("motion"@, motion_value(s.motion, show3));
    let g = opt_line("memory"@, num_text(nat_of_u32(s.memory_mb)));
    let h = opt_line("idle"@, num_text(nat_of_u64(s.idle_secs)));
    let i = opt_line("busy"@, num_text(nat_of_u32(s.busy_fps)));
    let j = opt_line("reducemotion"@, flag_text(s.reduce_motion));
    let k = opt_line("drift"@, show_text(s.drift, show3));
    let l = opt_line("accent"@, flag_text(s.accent));
    lemma_apply_add(t, a, b, rd, nonneg, half, one, zero);
    lemma_apply_add(t, a + b, c, rd, nonneg, half, one, zero);
    lemma_apply_add(t, a + b + c, d, rd, nonneg, half, one, zero);
    lemma_apply_add(t, a + b + c + d, e, rd, nonneg, half, one, zero);
    lemma_apply_add(t, a + b + c + d + e, f, rd, nonneg, half, one, zero);
    lemma_apply_add(t, a + b + c + d + e + f, g, rd, nonneg, half, one, zero);
    lemma_apply_add(t, a + b + c + d + e + f + g, h, rd, nonneg, half, one, zero);
    lemma_apply_add(t, a + b + c + d + e + f + g + h, i, rd, nonneg, half, one, zero);
    lemma_apply_add(t, a + b + c + d + e + f + g + h + i, j, rd, nonneg, half, one, zero);
    lemma_apply_add(t, a + b + c + d + e + f + g + h + i + j, k, rd, nonneg, half, one, zero);
    lemma_apply_add(t, a + b + c + d + e + f + g + h + i + j + k, l, rd, nonneg, half, one, zero);
    lemma_speed_only(t, s.speed, rd, nonneg, half, one, zero, show2);
    let t1 = apply_lines(t, a, rd, nonneg, half, one, zero);
    lemma_read_fade(t1, s.fade_ms, rd, nonneg, half, one, zero);
    let t2 = SessionView { fade_ms: s.fade_ms, ..t1 };
    lemma_read_span(t2, s.span, rd, nonneg, half, one, zero);
    let t3 = SessionView { span: s.span, ..t2 };
    lemma_read_hotkeys(t3, s.hotkeys, rd, nonneg, half, one, zero);
    let t4 = SessionView { hotkeys: s.hotkeys, ..t3 };
    lemma_read_hibernate(t4, s.hibernate_secs, rd, nonneg, half, one, zero);
    let t5 = SessionView { hibernate_secs: s.hibernate_secs, ..t4 };
    lemma_motion_only(t5, s.motion, rd, nonneg, half, one, zero, show3);
    let t6 = apply_lines(t5, f, rd, nonneg, half, one, zero);
    lemma_read_memory(t6, s.memory_mb, rd, nonneg, half, one, zero);
    let t7 = SessionView { memory_mb: s.memory_mb, ..t6 };
    lemma_read_idle(t7, s.idle_secs, rd, nonneg, half, one, zero);
    let t8 = SessionView { idle_secs: s.idle_secs, ..t7 };
    lemma_read_busy(t8, s.busy_fps, rd, nonneg, half, one, zero);
    let t9 = SessionView { busy_fps: s.busy_fps, ..t8 };
    lemma_read_reducemotion(t9, s.reduce_motion, rd, nonneg, half, one, zero);
    let t10 = SessionView { reduce_motion: s.reduce_motion, ..t9 };
    lemma_drift_only(t10, s.drift, rd, nonneg, half, one, zero, show3);
    let t11 = apply_lines(t10, k, rd, nonneg, half, one, zero);
    lemma_read_accent(t11, s.accent, rd, nonneg, half, one, zero);
}

pub open spec fn motion_value<F>(v: Option<Motion<F>>, show3: spec_fn(F) -> Seq<char>) -> Option<Seq<char>> {
    match v {
        Some(w) => Some(show3(w.reactive) + seq![' '] + show3(w.parallax)),
        None => None,
    }
}

#[verifier::spinoff_prover]
proof fn lemma_read_speed<F>(
    t: SessionView<F>,
    v: Option<F>,
    rd: spec_fn(Seq<char>) -> Option<F>,
    nonneg: spec_fn(F) -> bool,
    half: F,
    one: F,
    zero: F,
    show2: spec_fn(F) -> Seq<char>,
)
    requires
        t.speed is None,
        v matches Some(x) ==> reads_back(rd, show2, x),
    ensures
        apply_lines(t, opt_line("speed"@, show_text(v, show2)), rd, nonneg, half, one, zero) == (SessionView { speed: v, ..t }),
{
    lemma_reveal_keys();
    lemma_apply_opt(t, "speed"@, show_text(v, show2), rd, nonneg, half, one, zero);
}

#[verifier::spinoff_prover]
proof fn lemma_read_fade<F>(
    t: SessionView<F>,
    v: Option<u64>,
    rd: spec_fn(Seq<char>) -> Option<F>,
    nonneg: spec_fn(F) -> bool,
    half: F,
    one: F,
    zero: F,
)
    requires
        t.fade_ms is None,
    ensures
        apply_lines(t, opt_line("fade"@, num_text(nat_of_u64(v))), rd, nonneg, half, one, zero) == (SessionView { fade_ms: v, ..t }),
{
    lemma_reveal_keys();
    lemma_apply_opt(t, "fade"@, num_text(nat_of_u64(v)), rd, nonneg, half, one, zero);
    if let Some(n) = v {
        crate::text::lemma_parse_decimal(n as nat, u64::MAX as nat);
    }
}

#[verifier::spinoff_prover]
proof fn lemma_read_span<F>(
    t: SessionView<F>,
    v: Option<bool>,
    rd: spec_fn(Seq<char>) -> Option<F>,
    nonneg: spec_fn(F) -> bool,
    half: F,
    one: F,
    zero: F,
)
    requires
        t.span is None,
    ensures
        apply_lines(t, opt_line("span"@, flag_text(v)), rd, nonneg, half, one, zero) == (SessionView { span: v, ..t }),
{
    lemma_reveal_keys();
    lemma_apply_opt(t, "span"@, flag_text(v), rd, nonneg, half, one, zero);
    if let Some(x) = v {
        lemma_on_off(x);
    }
}

#[verifier::spinoff_prover]
proof fn lemma_read_hotkeys<F>(
    t: SessionView<F>,
    v: Option<bool>,
    rd: spec_fn(Seq<char>) -> Option<F>,
    nonneg: spec_fn(F) -> bool,
    half: F,
    one: F,
    zero: F,
)
    requires
        t.hotkeys is None,
    ensures
        apply_lines(t, opt_line("hotkeys"@, flag_text(v)), rd, nonneg, half, one, zero) == (SessionView { hotkeys: v, ..t }),
{
    lemma_reveal_keys();
    lemma_apply_opt(t, "hotkeys"@, flag_text(v), rd, nonneg, half, one, zero);
    if let Some(x) = v {
        lemma_on_off(x);
    }
}

#[verifier::spinoff_prover]
proof fn lemma_read_hibernate<F>(
    t: SessionView<F>,
    v: Option<u64>,
    rd: spec_fn(Seq<char>) -> Option<F>,
    nonneg: spec_fn(F) -> bool,
    half: F,
    one: F,
    zero: F,
)
    requires
        t.hibernate_secs is None,
    ensures
        apply_lines(t, opt_line("hibernate"@, num_text(nat_of_u64(v))), rd, nonneg, half, one, zero) == (SessionView { hibernate_secs: v, ..t }),
{
    lemma_reveal_keys();
    lemma_apply_opt(t, "hibernate"@, num_text(nat_of_u64(v)), rd, nonneg, half, one, zero);
    if let Some(n) = v {
        crate::text::lemma_parse_decimal(n as nat, u64::MAX as nat);
    }
}

#[verifier::spinoff_prover]
proof fn lemma_read_motion<F>(
    t: SessionView<F>,
    v: Option<Motion<F>>,
    rd: spec_fn(Seq<char>) -> Option<F>,
    nonneg: spec_fn(F) -> bool,
    half: F,
    one: F,
    zero: F,
    show3: spec_fn(F) -> Seq<char>,
)
    requires
        t.motion is None,
        v matches Some(w) ==> reads_back(rd, show3, w.reactive) && reads_back(rd, show3, w.parallax),
    ensures
        apply_lines(t, opt_line("motion"@, motion_value(v, show3)), rd, nonneg, half, one, zero) == (SessionView { motion: v, ..t }),
{
    lemma_reveal_keys();
    lemma_apply_opt(t, "motion"@, motion_value(v, show3), rd, nonneg, half, one, zero);
    if let Some(w) = v {
        let (x, y) = (show3(w.reactive), show3(w.parallax));
        lemma_split2(x, y, ' ');
        let toks = seq![x, y];
        assert(toks.drop_last() =~= seq![x]);
        assert(seq![x].drop_last() =~= Seq::<Seq<char>>::empty());
        assert(super::numbers(Seq::<Seq<char>>::empty(), rd) =~= Seq::<F>::empty());
        assert(seq![x].last() == x);
        assert(toks.last() == y);
        assert(super::numbers(seq![x], rd) =~= seq![w.reactive]);
        assert(super::numbers(toks, rd) =~= seq![w.reactive, w.parallax]);
    }
}

#[verifier::spinoff_prover]
proof fn lemma_read_memory<F>(
    t: SessionView<F>,
    v: Option<u32>,
    rd: spec_fn(Seq<char>) -> Option<F>,
    nonneg: spec_fn(F) -> bool,
    half: F,
    one: F,
    zero: F,
)
    requires
        t.memory_mb is None,
    ensures
        apply_lines(t, opt_line("memory"@, num_text(nat_of_u32(v))), rd, nonneg, half, one, zero) == (SessionView { memory_mb: v, ..t }),
{
    lemma_reveal_keys();
    lemma_apply_opt(t, "memory"@, num_text(nat_of_u32(v)), rd, nonneg, half, one, zero);
    if let Some(n) = v {
        crate::text::lemma_parse_decimal(n as nat, u32::MAX as nat);
    }
}

#[verifier::spinoff_prover]
proof fn lemma_read_idle<F>(
    t: SessionView<F>,
    v: Option<u64>,
    rd: spec_fn(Seq<char>) -> Option<F>,
    nonneg: spec_fn(F) -> bool,
    half: F,
    one: F,
    zero: F,
)
    requires
        t.idle_secs is None,
    ensures
        apply_lines(t, opt_line("idle"@, num_text(nat_of_u64(v))), rd, nonneg, half, one, zero) == (SessionView { idle_secs: v, ..t }),
{
    lemma_reveal_keys();
    lemma_apply_opt(t, "idle"@, num_text(nat_of_u64(v)), rd, nonneg, half, one, zero);
    if let Some(n) = v {
        crate::text::lemma_parse_decimal(n as nat, u64::MAX as nat);
    }
}

#[verifier::spinoff_prover]
proof fn lemma_read_busy<F>(
    t: SessionView<F>,
    v: Option<u32>,
    rd: spec_fn(Seq<char>) -> Option<F>,
    nonneg: spec_fn(F) -> bool,
    half: F,
    one: F,
    zero: F,
)
    requires
        t.busy_fps is None,
    ensures
        apply_lines(t, opt_line("busy"@, num_text(nat_of_u32(v))), rd, nonneg, half, one, zero) == (SessionView { busy_fps: v, ..t }),
{
    lemma_reveal_keys();
    lemma_apply_opt(t, "busy"@, num_text(nat_of_u32(v)), rd, nonneg, half, one, zero);
    if let Some(n) = v {
        crate::text::lemma_parse_decimal(n as nat, u32::MAX as nat);
    }
}

#[verifier::spinoff_prover]
proof fn lemma_read_reducemotion<F>(
    t: SessionView<F>,
    v: Option<bool>,
    rd: spec_fn(Seq<char>) -> Option<F>,
    nonneg: spec_fn(F) -> bool,
    half: F,
    one: F,
    zero: F,
)
    requires
        t.reduce_motion is None,
    ensures
        apply_lines(t, opt_line("reducemotion"@, flag_text(v)), rd, nonneg, half, one, zero) == (SessionView { reduce_motion: v, ..t }),
{
    lemma_reveal_keys();
    lemma_apply_opt(t, "reducemotion"@, flag_text(v), rd, nonneg, half, one, zero);
    if let Some(x) = v {
        lemma_on_off(x);
    }
}

#[verifier::spinoff_prover]
proof fn lemma_read_drift<F>(
    t: SessionView<F>,
    v: Option<F>,
    rd: spec_fn(Seq<char>) -> Option<F>,
    nonneg: spec_fn(F) -> bool,
    half: F,
    one: F,
    zero: F,
    show3: spec_fn(F) -> Seq<char>,
)
    requires
        t.drift is None,
        v matches Some(x) ==> reads_back(rd, show3, x),
    ensures
        apply_lines(t, opt_line("drift"@, show_text(v, show3)), rd, nonneg, half, one, zero) == (SessionView { drift: v, ..t }),
{
    lemma_reveal_keys();
    lemma_apply_opt(t, "drift"@, show_text(v, show3), rd, nonneg, half, one, zero);
}

#[verifier::spinoff_prover]
proof fn lemma_read_accent<F>(
    t: SessionView<F>,
    v: Option<bool>,
    rd: spec_fn(Seq<char>) -> Option<F>,
    nonneg: spec_fn(F) -> bool,
    half: F,
    one: F,
    zero: F,
)
    requires
        t.accent is None,
    ensures
        apply_lines(t, opt_line("accent"@, flag_text(v)), rd, nonneg, half, one, zero) == (SessionView { accent: v, ..t }),
{
    lemma_reveal_keys();
    lemma_apply_opt(t, "accent"@, flag_text(v), rd, nonneg, half, one, zero);
    if let Some(x) = v {
        lemma_on_off(x);
    }
}

/// The lines of the second block.
pub open spec fn second_lines<F>(
    s: SessionView<F>,
    show3: spec_fn(F) -> Seq<char>,
    show2: spec_fn(F) -> Seq<char>,
) -> Seq<Seq<char>> {
    opt_line("speed"@, show_text(s.speed, show2))
        + opt_line("fade"@, num_text(nat_of_u64(s.fade_ms)))
        + opt_line("span"@, flag_text(s.span))
        + opt_line("hotkeys"@, flag_text(s.hotkeys))
        + opt_line("hibernate"@, num_text(nat_of_u64(s.hibernate_secs)))
        + opt_line("motion"@, motion_value(s.motion, show3))
        + opt_line("memory"@, num_text(nat_of_u32(s.memory_mb)))
        + opt_line("idle"@, num_text(nat_of_u64(s.idle_secs)))
        + opt_line("busy"@, num_text(nat_of_u32(s.busy_fps)))
        + opt_line("reducemotion"@, flag_text(s.reduce_motion))
        + opt_line("drift"@, show_text(s.drift, show3))
        + opt_line("accent"@, flag_text(s.accent))
}

#[verifier::spinoff_prover]
#[verifier::rlimit(40)]
proof fn lemma_second_text<F>(
    s: SessionView<F>,
    show3: spec_fn(F) -> Seq<char>,
    show2: spec_fn(F) -> Seq<char>,
)
    ensures
        second_block(s, show3, show2) == unlines(second_lines(s, show3, show2)),
{
    let a = opt_line("speed"@, show_text(s.speed, show2));
    let b = opt_line("fade"@, num_text(nat_of_u64(s.fade_ms)));
    let c = opt_line("span"@, flag_text(s.span));
    let d = opt_line("hotkeys"@, flag_text(s.hotkeys));
    let e = opt_line("hibernate"@, num_text(nat_of_u64(s.hibernate_secs)));
    let f = opt_line("motion"@, motion_value(s.motion, show3));
    let g = opt_line("memory"@, num_text(nat_of_u32(s.memory_mb)));
    let h = opt_line("idle"@, num_text(nat_of_u64(s.idle_secs)));
    let i = opt_line("busy"@, num_text(nat_of_u32(s.busy_fps)));
    let j = opt_line("reducemotion"@, flag_text(s.reduce_motion));
    let k = opt_line("drift"@, show_text(s.drift, show3));
    let l = opt_line("accent"@, flag_text(s.accent));
    assert(fraction_line("speed"@, s.speed, show2) == unlines(a)) by {
            lemma_opt_line_text("speed"@, show_text(s.speed, show2));
            assert(fraction_line("speed"@, s.speed, show2) =~= unlines(a));
    }
    assert(number_line("fade"@, nat_of_u64(s.fade_ms)) == unlines(b)) by {
            lemma_opt_line_text("fade"@, num_text(nat_of_u64(s.fade_ms)));
            assert(number_line("fade"@, nat_of_u64(s.fade_ms)) =~= unlines(b));
    }
    assert(flag_line("span"@, s.span) == unlines(c)) by {
            lemma_opt_line_text("span"@, flag_text(s.span));
            assert(flag_line("span"@, s.span) =~= unlines(c));
    }
    assert(flag_line("hotkeys"@, s.hotkeys) == unlines(d)) by {
            lemma_opt_line_text("hotkeys"@, flag_text(s.hotkeys));
            assert(flag_line("hotkeys"@, s.hotkeys) =~= unlines(d));
    }
    assert(number_line("hibernate"@, nat_of_u64(s.hibernate_secs)) == unlines(e)) by {
            lemma_opt_line_text("hibernate"@, num_text(nat_of_u64(s.hibernate_secs)));
            assert(number_line("hibernate"@, nat_of_u64(s.hibernate_secs)) =~= unlines(e));
    }
    assert(motion_text(s.motion, show3) == unlines(f)) by {
            lemma_reveal_heads();
            lemma_opt_line_text("motion"@, motion_value(s.motion, show3));
            assert(motion_text(s.motion, show3) =~= unlines(f));
    }
    assert(number_line("memory"@, nat_of_u32(s.memory_mb)) == unlines(g)) by {
            lemma_opt_line_text("memory"@, num_text(nat_of_u32(s.memory_mb)));
            assert(number_line("memory"@, nat_of_u32(s.memory_mb)) =~= unlines(g));
    }
    assert(number_line("idle"@, nat_of_u64(s.idle_secs)) == unlines(h)) by {
            lemma_opt_line_text("idle"@, num_text(nat_of_u64(s.idle_secs)));
            assert(number_line("idle"@, nat_of_u64(s.idle_secs)) =~= unlines(h));
    }
    assert(number_line("busy"@, nat_of_u32(s.busy_fps)) == unlines(i)) by {
            lemma_opt_line_text("busy"@, num_text(nat_of_u32(s.busy_fps)));
            assert(number_line("busy"@, nat_of_u32(s.busy_fps)) =~= unlines(i));
    }
    assert(flag_line("reducemotion"@, s.reduce_motion) == unlines(j)) by {
            lemma_reveal_heads();
            lemma_opt_line_text("reducemotion"@, flag_text(s.reduce_motion));
            assert(flag_line("reducemotion"@, s.reduce_motion) =~= unlines(j));
    }
    assert(fraction_line("drift"@, s.drift, show3) == unlines(k)) by {
            lemma_opt_line_text("drift"@, show_text(s.drift, show3));
            assert(fraction_line("drift"@, s.drift, show3) =~= unlines(k));
    }
    assert(flag_line("accent"@, s.accent) == unlines(l)) by {
            lemma_opt_line_text("accent"@, flag_text(s.accent));
            assert(flag_line("accent"@, s.accent) =~= unlines(l));
    }
    lemma_unlines_add(a, b);
    lemma_unlines_add(a + b, c);
    lemma_unlines_add(a + b + c, d);
    lemma_unlines_add(a + b + c + d, e);
    lemma_unlines_add(a + b + c + d + e, f);
    lemma_unlines_add(a + b + c + d + e + f, g);
    lemma_unlines_add(a + b + c + d + e + f + g, h);
    lemma_unlines_add(a + b + c + d + e + f + g + h, i);
    lemma_unlines_add(a + b + c + d + e + f + g + h + i, j);
    lemma_unlines_add(a + b + c + d + e + f + g + h + i + j, k);
    lemma_unlines_add(a + b + c + d + e + f + g + h + i + j + k, l);
}

/// What the second block needs of a session to read back as it was.
/// The second block's numbers are written as single words, whether or not
/// they read back as themselves.
pub open spec fn second_words<F>(
    s: SessionView<F>,
    show3: spec_fn(F) -> Seq<char>,
    show2: spec_fn(F) -> Seq<char>,
) -> bool {
    &&& (s.speed matches Some(x) ==> token(show2(x)))
    &&& (s.motion matches Some(w) ==> token(show3(w.reactive)) && token(show3(w.parallax)))
    &&& (s.drift matches Some(x) ==> token(show3(x)))
}

pub open spec fn second_writable<F>(
    s: SessionView<F>,
    rd: spec_fn(Seq<char>) -> Option<F>,
    show3: spec_fn(F) -> Seq<char>,
    show2: spec_fn(F) -> Seq<char>,
) -> bool {
    &&& (s.speed matches Some(x) ==> reads_back(rd, show2, x))
    &&& (s.motion matches Some(w) ==> reads_back(rd, show3, w.reactive) && reads_back(rd, show3, w.parallax))
    &&& (s.drift matches Some(x) ==> reads_back(rd, show3, x))
}

proof fn lemma_second_read<F>(
    t: SessionView<F>,
    s: SessionView<F>,
    rd: spec_fn(Seq<char>) -> Option<F>,
    nonneg: spec_fn(F) -> bool,
    half: F,
    one: F,
    zero: F,
    show3: spec_fn(F) -> Seq<char>,
    show2: spec_fn(F) -> Seq<char>,
)
    requires
        second_writable(s, rd, show3, show2),
        t.speed is None,
        t.fade_ms is None,
        t.span is None,
        t.hotkeys is None,
        t.hibernate_secs is None,
        t.motion is None,
        t.memory_mb is None,
        t.idle_secs is None,
        t.busy_fps is None,
        t.reduce_motion is None,
        t.drift is None,
        t.accent is None,
    ensures
        apply_lines(t, second_lines(s, show3, show2), rd, nonneg, half, one, zero) == (SessionView {
            speed: s.speed,
            fade_ms: s.fade_ms,
            span: s.span,
            hotkeys: s.hotkeys,
            hibernate_secs: s.hibernate_secs,
            motion: s.motion,
            memory_mb: s.memory_mb,
            idle_secs: s.idle_secs,
            busy_fps: s.busy_fps,
            reduce_motion: s.reduce_motion,
            drift: s.drift,
            accent: s.accent,
            ..t
        }),
{
    let a = opt_line("speed"@, show_text(s.speed, show2));
    let b = opt_line("fade"@, num_text(nat_of_u64(s.fade_ms)));
    let c = opt_line("span"@, flag_text(s.span));
    let d = opt_line("hotkeys"@, flag_text(s.hotkeys));
    let e = opt_line("hibernate"@, num_text(nat_of_u64(s.hibernate_secs)));
    let f = opt_line("motion"@, motion_value(s.motion, show3));
    let g = opt_line("memory"@, num_text(nat_of_u32(s.memory_mb)));
    let h = opt_line("idle"@, num_text(nat_of_u64(s.idle_secs)));
    let i = opt_line("busy"@, num_text(nat_of_u32(s.busy_fps)));
    let j = opt_line("reducemotion"@, flag_text(s.reduce_motion));
    let k = opt_line("drift"@, show_text(s.drift, show3));
    let l = opt_line("accent"@, flag_text(s.accent));
    lemma_apply_add(t, a, b, rd, nonneg, half, one, zero);
    lemma_apply_add(t, a + b, c, rd, nonneg, half, one, zero);
    lemma_apply_add(t, a + b + c, d, rd, nonneg, half, one, zero);
    lemma_apply_add(t, a + b + c + d, e, rd, nonneg, half, one, zero);
    lemma_apply_add(t, a + b + c + d + e, f, rd, nonneg, half, one, zero);
    lemma_apply_add(t, a + b + c + d + e + f, g, rd, nonneg, half, one, zero);
    lemma_apply_add(t, a + b + c + d + e + f + g, h, rd, nonneg, half, one, zero);
    lemma_apply_add(t, a + b + c + d + e + f + g + h, i, rd, nonneg, half, one, zero);
    lemma_apply_add(t, a + b + c + d + e + f + g + h + i, j, rd, nonneg, half, one, zero);
    lemma_apply_add(t, a + b + c + d + e + f + g + h + i + j, k, rd, nonneg, half, one, zero);
    lemma_apply_add(t, a + b + c + d + e + f + g + h + i + j + k, l, rd, nonneg, half, one, zero);
    lemma_read_speed(t, s.speed, rd, nonneg, half, one, zero, show2);
    let t1 = SessionView { speed: s.speed, ..t };
    lemma_read_fade(t1, s.fade_ms, rd, nonneg, half, one, zero);
    let t2 = SessionView { fade_ms: s.fade_ms, ..t1 };
    lemma_read_span(t2, s.span, rd, nonneg, half, one, zero);
    let t3 = SessionView { span: s.span, ..t2 };
    lemma_read_hotkeys(t3, s.hotkeys, rd, nonneg, half, one, zero);
    let t4 = SessionView { hotkeys: s.hotkeys, ..t3 };
    lemma_read_hibernate(t4, s.hibernate_secs, rd, nonneg, half, one, zero);
    let t5 = SessionView { hibernate_secs: s.hibernate_secs, ..t4 };
    lemma_read_motion(t5, s.motion, rd, nonneg, half, one, zero, show3);
    let t6 = SessionView { motion: s.motion, ..t5 };
    lemma_read_memory(t6, s.memory_mb, rd, nonneg, half, one, zero);
    let t7 = SessionView { memory_mb: s.memory_mb, ..t6 };
    lemma_read_idle(t7, s.idle_secs, rd, nonneg, half, one, zero);
    let t8 = SessionView { idle_secs: s.idle_secs, ..t7 };
    lemma_read_busy(t8, s.busy_fps, rd, nonneg, half, one, zero);
    let t9 = SessionView { busy_fps: s.busy_fps, ..t8 };
    lemma_read_reducemotion(t9, s.reduce_motion, rd, nonneg, half, one, zero);
    let t10 = SessionView { reduce_motion: s.reduce_motion, ..t9 };
    lemma_read_drift(t10, s.drift, rd, nonneg, half, one, zero, show3);
    let t11 = SessionView { drift: s.drift, ..t10 };
    lemma_read_accent(t11, s.accent, rd, nonneg, half, one, zero);
}

/// The apps line, when there are applications to name.
pub open spec fn apps_value(apps: Seq<Seq<char>>) -> Option<Seq<char>> {
    if apps.len() > 0 {
        Some(join(apps, seq!['|']))
    } else {
        None
    }
}

/// An application name that reads back as itself from the list.
pub open spec fn app_writable(a: Seq<char>) -> bool {
    a.len() > 0 && trim(a) == a && !a.contains('|') && one_line(a)
}

#[verifier::spinoff_prover]
proof fn lemma_read_apps<F>(
    t: SessionView<F>,
    apps: Seq<Seq<char>>,
    rd: spec_fn(Seq<char>) -> Option<F>,
    nonneg: spec_fn(F) -> bool,
    half: F,
    one: F,
    zero: F,
)
    requires
        t.apps.len() == 0,
        forall|i: int| 0 <= i < apps.len() ==> app_writable(#[trigger] apps[i]),
    ensures
        apply_lines(t, opt_line("apps"@, apps_value(apps)), rd, nonneg, half, one, zero) == (SessionView { apps: apps, ..t }),
{
    lemma_reveal_keys();
    lemma_apply_opt(t, "apps"@, apps_value(apps), rd, nonneg, half, one, zero);
    if apps.len() > 0 {
        assert forall|i: int| 0 <= i < apps.len() implies !(#[trigger] apps[i]).contains('|') by {
            assert(app_writable(apps[i]));
        }
        lemma_split_join(apps, '|');
        assert(trim_all(apps) =~= apps);
        assert forall|i: int| 0 <= i < apps.len() implies (#[trigger] apps[i]).len() > 0 by {
            assert(app_writable(apps[i]));
        }
        lemma_keep_nonempty_all(apps);
    } else {
        assert(t.apps =~= apps);
    }
}

/// The rules line, when there are rules.
pub open spec fn rules_value(rules: Seq<(Trigger, Seq<Seq<char>>)>) -> Option<Seq<char>> {
    if rules.len() > 0 {
        Some(crate::compositor::rules::spec_written_form(rules))
    } else {
        None
    }
}

#[verifier::spinoff_prover]
proof fn lemma_read_rules<F>(
    t: SessionView<F>,
    rules: Seq<(Trigger, Seq<Seq<char>>)>,
    rd: spec_fn(Seq<char>) -> Option<F>,
    nonneg: spec_fn(F) -> bool,
    half: F,
    one: F,
    zero: F,
)
    requires
        t.rules.len() == 0,
        forall|i: int| 0 <= i < rules.len() ==> crate::compositor::rules::writable(#[trigger] rules[i]),
    ensures
        apply_lines(t, opt_line("rules"@, rules_value(rules)), rd, nonneg, half, one, zero) == (SessionView { rules: rules, ..t }),
{
    lemma_reveal_keys();
    lemma_apply_opt(t, "rules"@, rules_value(rules), rd, nonneg, half, one, zero);
    if rules.len() > 0 {
        crate::compositor::rules::lemma_rules_round_trip(rules);
    } else {
        assert(t.rules =~= rules);
    }
}

/// One `scene` line per scene.
pub open spec fn scene_ls(scenes: Seq<(Seq<char>, Seq<(Seq<char>, Seq<Seq<char>>)>)>) -> Seq<Seq<char>> {
    scenes.map_values(|sc: (Seq<char>, Seq<(Seq<char>, Seq<Seq<char>>)>)| line_of("scene"@, crate::compositor::scenes::spec_written_form(sc)))
}

#[verifier::spinoff_prover]
proof fn lemma_scene_text(scenes: Seq<(Seq<char>, Seq<(Seq<char>, Seq<Seq<char>>)>)>)
    ensures
        scene_lines(scenes) == unlines(scene_ls(scenes)),
    decreases scenes.len(),
{
    if scenes.len() > 0 {
        lemma_reveal_heads();
        lemma_scene_text(scenes.drop_last());
        assert(scene_ls(scenes).drop_last() =~= scene_ls(scenes.drop_last()));
        assert(scene_lines(scenes) =~= unlines(scene_ls(scenes)));
    }
}

#[verifier::spinoff_prover]
proof fn lemma_read_scenes<F>(
    t: SessionView<F>,
    scenes: Seq<(Seq<char>, Seq<(Seq<char>, Seq<Seq<char>>)>)>,
    rd: spec_fn(Seq<char>) -> Option<F>,
    nonneg: spec_fn(F) -> bool,
    half: F,
    one: F,
    zero: F,
)
    requires
        forall|i: int| 0 <= i < scenes.len() ==> crate::compositor::scenes::writable(#[trigger] scenes[i]),
    ensures
        apply_lines(t, scene_ls(scenes), rd, nonneg, half, one, zero) == (SessionView { scenes: t.scenes + scenes, ..t }),
    decreases scenes.len(),
{
    if scenes.len() == 0 {
        assert(t.scenes + scenes =~= t.scenes);
    } else {
        let rest = scenes.drop_last();
        lemma_read_scenes(t, rest, rd, nonneg, half, one, zero);
        assert(scene_ls(scenes).drop_last() =~= scene_ls(rest));
        let u = SessionView { scenes: t.scenes + rest, ..t };
        let w = crate::compositor::scenes::spec_written_form(scenes.last());
        lemma_scene_key(u, w, rd, nonneg, half, one, zero);
        assert(!"scene"@.contains(' ')) by {
            lemma_reveal_keys();
        }
        lemma_split_key("scene"@, w);
        crate::compositor::scenes::lemma_scene_round_trip(scenes.last());
        assert((t.scenes + rest).push(scenes.last()) =~= t.scenes + scenes);
        assert(apply_line(u, line_of("scene"@, w), rd, nonneg, half, one, zero) == (SessionView { scenes: t.scenes + scenes, ..t }));
    }
}

/// A monitor's line after its key.
pub open spec fn monitor_value(m: (Seq<char>, bool, Seq<Seq<char>>)) -> Seq<char> {
    m.0 + seq![' '] + true_false(m.1) + seq![' '] + join(m.2, seq!['|'])
}

/// One `monitor` line per monitor.
pub open spec fn monitor_ls(ms: Seq<(Seq<char>, bool, Seq<Seq<char>>)>) -> Seq<Seq<char>> {
    ms.map_values(|m: (Seq<char>, bool, Seq<Seq<char>>)| line_of("monitor"@, monitor_value(m)))
}

#[verifier::spinoff_prover]
proof fn lemma_monitor_text(ms: Seq<(Seq<char>, bool, Seq<Seq<char>>)>)
    ensures
        monitor_lines(ms) == unlines(monitor_ls(ms)),
    decreases ms.len(),
{
    if ms.len() > 0 {
        lemma_reveal_heads();
        lemma_monitor_text(ms.drop_last());
        assert(monitor_ls(ms).drop_last() =~= monitor_ls(ms.drop_last()));
        assert(monitor_lines(ms) =~= unlines(monitor_ls(ms)));
    }
}

/// A monitor that reads back as itself: a name without a space, and a
/// playlist of paths that are not empty and hold no `|`.
pub open spec fn monitor_writable(m: (Seq<char>, bool, Seq<Seq<char>>)) -> bool {
    &&& !m.0.contains(' ')
    &&& one_line(m.0)
    &&& forall|k: int| 0 <= k < m.2.len() ==> (#[trigger] m.2[k]).len() > 0 && !m.2[k].contains('|') && one_line(m.2[k])
}

proof fn lemma_true_false(b: bool)
    ensures
        token(true_false(b)),
        (true_false(b) == "true"@) == b,
{
    lemma_reveal_heads();
    if !b {
        assert(true_false(b)[0] != "true"@[0]);
    }
}

proof fn lemma_monitor_line(m: (Seq<char>, bool, Seq<Seq<char>>))
    requires
        monitor_writable(m),
    ensures
        super::monitor_line(monitor_value(m)) == Some(m),
{
    lemma_true_false(m.1);
    let list = join(m.2, seq!['|']);
    lemma_split_key(m.0, true_false(m.1) + seq![' '] + list);
    assert(monitor_value(m) =~= m.0 + seq![' '] + (true_false(m.1) + seq![' '] + list));
    lemma_split_key(true_false(m.1), list);
    if m.2.len() == 0 {
        assert(list =~= Seq::<char>::empty());
        crate::text::lemma_split_absent(list, '|');
        assert(keep_nonempty(seq![list]) =~= Seq::<Seq<char>>::empty()) by {
            assert(seq![list][0].len() == 0);
            assert(seq![list].drop_first() =~= Seq::<Seq<char>>::empty());
            assert(keep_nonempty(Seq::<Seq<char>>::empty()) =~= Seq::<Seq<char>>::empty());
        }
        assert(m.2 =~= Seq::<Seq<char>>::empty());
    } else {
        assert forall|i: int| 0 <= i < m.2.len() implies !(#[trigger] m.2[i]).contains('|') by {}
        lemma_split_join(m.2, '|');
        assert forall|i: int| 0 <= i < m.2.len() implies (#[trigger] m.2[i]).len() > 0 by {}
        lemma_keep_nonempty_all(m.2);
    }
}

#[verifier::spinoff_prover]
proof fn lemma_read_monitors<F>(
    t: SessionView<F>,
    ms: Seq<(Seq<char>, bool, Seq<Seq<char>>)>,
    rd: spec_fn(Seq<char>) -> Option<F>,
    nonneg: spec_fn(F) -> bool,
    half: F,
    one: F,
    zero: F,
)
    requires
        forall|i: int| 0 <= i < ms.len() ==> monitor_writable(#[trigger] ms[i]),
    ensures
        apply_lines(t, monitor_ls(ms), rd, nonneg, half, one, zero) == (SessionView { monitors: t.monitors + ms, ..t }),
    decreases ms.len(),
{
    if ms.len() == 0 {
        assert(t.monitors + ms =~= t.monitors);
    } else {
        let rest = ms.drop_last();
        lemma_read_monitors(t, rest, rd, nonneg, half, one, zero);
        assert(monitor_ls(ms).drop_last() =~= monitor_ls(rest));
        let u = SessionView { monitors: t.monitors + rest, ..t };
        lemma_monitor_key(u, monitor_value(ms.last()), rd, nonneg, half, one, zero);
        assert(!"monitor"@.contains(' ')) by {
            lemma_reveal_keys();
        }
        lemma_split_key("monitor"@, monitor_value(ms.last()));
        lemma_monitor_line(ms.last());
        assert((t.monitors + rest).push(ms.last()) =~= t.monitors + ms);
        assert(apply_line(u, line_of("monitor"@, monitor_value(ms.last())), rd, nonneg, half, one, zero) == (SessionView {
            monitors: t.monitors + ms,
            ..t
        }));
    }
}

/// The grade a monitor's line writes: its own, or the neutral one with a
/// brightness of `minus_one`.
pub open spec fn written_grade<F>(o: Overrides<F>, minus_one: F, one: F, zero: F) -> Visual<F> {
    match o.visual {
        Some(v) => v,
        None => Visual { brightness: minus_one, saturation: one, blur: zero },
    }
}

/// The six fields of a monitor's own settings.
pub open spec fn own_fields<F>(
    o: (Seq<char>, Overrides<F>),
    show3: spec_fn(F) -> Seq<char>,
    minus_one: F,
    one: F,
    zero: F,
) -> Seq<Seq<char>> {
    let v = written_grade(o.1, minus_one, one, zero);
    seq![
        o.0,
        match o.1.fit {
            Some(f) => fit_name(f),
            None => seq!['-'],
        },
        decimal(
            match o.1.fps {
                Some(n) => n as nat,
                None => 0,
            },
        ),
        show3(v.brightness),
        show3(v.saturation),
        show3(v.blur),
    ]
}

/// One `own` line per monitor with settings of its own.
pub open spec fn own_ls<F>(
    os: Seq<(Seq<char>, Overrides<F>)>,
    show3: spec_fn(F) -> Seq<char>,
    minus_one: F,
    one: F,
    zero: F,
) -> Seq<Seq<char>> {
    os.map_values(|o: (Seq<char>, Overrides<F>)| line_of("own"@, join(own_fields(o, show3, minus_one, one, zero), seq![' '])))
}

proof fn lemma_join6(f: Seq<Seq<char>>, c: Seq<char>)
    requires
        f.len() == 6,
    ensures
        join(f, c) == f[0] + c + f[1] + c + f[2] + c + f[3] + c + f[4] + c + f[5],
{
    let f1 = f.drop_first();
    let f2 = f1.drop_first();
    let f3 = f2.drop_first();
    let f4 = f3.drop_first();
    let f5 = f4.drop_first();
    assert(join(f5, c) == f[5]);
    assert(join(f4, c) == f[4] + c + f[5]);
    assert(join(f3, c) == f[3] + c + join(f4, c));
    assert(join(f2, c) == f[2] + c + join(f3, c));
    assert(join(f1, c) == f[1] + c + join(f2, c));
    assert(join(f, c) =~= f[0] + c + f[1] + c + f[2] + c + f[3] + c + f[4] + c + f[5]);
}

#[verifier::spinoff_prover]
proof fn lemma_own_text<F>(
    os: Seq<(Seq<char>, Overrides<F>)>,
    show3: spec_fn(F) -> Seq<char>,
    minus_one: F,
    one: F,
    zero: F,
)
    ensures
        own_lines(os, show3, minus_one, one, zero) == unlines(own_ls(os, show3, minus_one, one, zero)),
    decreases os.len(),
{
    if os.len() > 0 {
        let l = os.last();
        let f = own_fields(l, show3, minus_one, one, zero);
        assert(super::own_text(l, show3, minus_one, one, zero) == line_of("own"@, join(f, seq![' '])) + seq!['\n']) by {
            lemma_reveal_heads();
            lemma_join6(f, seq![' ']);
            assert(super::own_text(l, show3, minus_one, one, zero) =~= line_of("own"@, join(f, seq![' '])) + seq!['\n']);
        }
        lemma_own_text(os.drop_last(), show3, minus_one, one, zero);
        let ls = own_ls(os, show3, minus_one, one, zero);
        assert(ls.drop_last() =~= own_ls(os.drop_last(), show3, minus_one, one, zero));
        assert(ls.last() == line_of("own"@, join(f, seq![' '])));
        assert(own_lines(os, show3, minus_one, one, zero) =~= unlines(ls));
    }
}

/// Settings of a monitor's own that read back as themselves: a name
/// without a space, a frame rate other than zero, and a grade whose
/// brightness is at least zero and whose numbers read back; a monitor
/// without a grade writes a `minus_one` that reads back below zero.
pub open spec fn own_writable<F>(
    o: (Seq<char>, Overrides<F>),
    rd: spec_fn(Seq<char>) -> Option<F>,
    nonneg: spec_fn(F) -> bool,
    show3: spec_fn(F) -> Seq<char>,
    minus_one: F,
    one: F,
    zero: F,
) -> bool {
    &&& !o.0.contains(' ')
    &&& one_line(o.0)
    &&& o.1.fps != Some(0u32)
    &&& match o.1.visual {
        Some(v) => nonneg(v.brightness) && reads_back(rd, show3, v.brightness) && reads_back(rd, show3, v.saturation)
            && reads_back(rd, show3, v.blur),
        None => reads_back(rd, show3, minus_one) && !nonneg(minus_one) && token(show3(one)) && token(show3(zero)),
    }
}

proof fn lemma_fit_token(f: Option<Fit>)
    ensures
        token(match f {
            Some(g) => fit_name(g),
            None => seq!['-'],
        }),
        spec_fit_parse(match f {
            Some(g) => fit_name(g),
            None => seq!['-'],
        }) == f,
{
    reveal_strlit("cover");
    reveal_strlit("contain");
    reveal_strlit("stretch");
    if let Some(g) = f {
        crate::compositor::render::lemma_fit_round_trip(g);
    } else {
        assert(seq!['-'] != "cover"@) by {
            assert(seq!['-'].len() != "cover"@.len());
        }
        assert(seq!['-'] != "contain"@) by {
            assert(seq!['-'].len() != "contain"@.len());
        }
        assert(seq!['-'] != "stretch"@) by {
            assert(seq!['-'].len() != "stretch"@.len());
        }
    }
}

proof fn lemma_own_line<F>(
    o: (Seq<char>, Overrides<F>),
    rd: spec_fn(Seq<char>) -> Option<F>,
    nonneg: spec_fn(F) -> bool,
    show3: spec_fn(F) -> Seq<char>,
    minus_one: F,
    one: F,
    zero: F,
)
    requires
        own_writable(o, rd, nonneg, show3, minus_one, one, zero),
    ensures
        super::own_line(join(own_fields(o, show3, minus_one, one, zero), seq![' ']), rd, nonneg, one, zero) == Some(o),
{
    let f = own_fields(o, show3, minus_one, one, zero);
    let n: nat = match o.1.fps {
        Some(k) => k as nat,
        None => 0,
    };
    lemma_fit_token(o.1.fit);
    lemma_decimal_token(n);
    crate::text::lemma_parse_decimal(n, u32::MAX as nat);
    assert forall|i: int| 0 <= i < f.len() implies !(#[trigger] f[i]).contains(' ') by {}
    lemma_split_join(f, ' ');
    let r = super::own_line(join(f, seq![' ']), rd, nonneg, one, zero);
    assert(r matches Some(x) && x.0 == o.0 && x.1.fit == o.1.fit && x.1.fps == o.1.fps && x.1.visual == o.1.visual);
}

#[verifier::spinoff_prover]
proof fn lemma_read_own<F>(
    t: SessionView<F>,
    os: Seq<(Seq<char>, Overrides<F>)>,
    rd: spec_fn(Seq<char>) -> Option<F>,
    nonneg: spec_fn(F) -> bool,
    half: F,
    one: F,
    zero: F,
    show3: spec_fn(F) -> Seq<char>,
    minus_one: F,
)
    requires
        t.overrides.len() == 0,
        forall|i: int| 0 <= i < os.len() ==> own_writable(#[trigger] os[i], rd, nonneg, show3, minus_one, one, zero),
        forall|i: int, j: int| 0 <= i < j < os.len() ==> (#[trigger] os[i]).0 != (#[trigger] os[j]).0,
    ensures
        apply_lines(t, own_ls(os, show3, minus_one, one, zero), rd, nonneg, half, one, zero) == (SessionView { overrides: os, ..t }),
    decreases os.len(),
{
    if os.len() == 0 {
        assert(t.overrides =~= os);
    } else {
        let rest = os.drop_last();
        lemma_read_own(t, rest, rd, nonneg, half, one, zero, show3, minus_one);
        assert(own_ls(os, show3, minus_one, one, zero).drop_last() =~= own_ls(rest, show3, minus_one, one, zero));
        let u = SessionView { overrides: rest, ..t };
        let o = os.last();
        let w = join(own_fields(o, show3, minus_one, one, zero), seq![' ']);
        lemma_own_key(u, w, rd, nonneg, half, one, zero);
        assert(!"own"@.contains(' ')) by {
            lemma_reveal_keys();
        }
        lemma_split_key("own"@, w);
        lemma_own_line(o, rd, nonneg, show3, minus_one, one, zero);
        assert forall|k: int| 0 <= k < super::keys_of(rest).len() implies super::keys_of(rest)[k] != o.0 by {
            assert(super::keys_of(rest)[k] == os[k].0);
        }
        super::lemma_key_index_none(super::keys_of(rest), o.0);
        assert(rest.push(o) =~= os);
        assert(apply_line(u, line_of("own"@, w), rd, nonneg, half, one, zero) == (SessionView { overrides: os, ..t }));
    }
}

/// `e` put into texts in order, where it belongs.
proof fn lemma_insert_sorted(u: Seq<Seq<char>>, e: Seq<char>) -> (v: Seq<Seq<char>>)
    requires
        is_sorted_texts(u),
    ensures
        is_sorted_texts(v),
        v.to_multiset() == u.to_multiset().insert(e),
    decreases u.len(),
{
    broadcast use vstd::seq_lib::group_to_multiset_ensures;

    if u.len() == 0 {
        let v = seq![e];
        assert(v =~= u.push(e));
        v
    } else if chars_before(u[0], e) {
        let rest = u.drop_first();
        assert forall|i: int, j: int| 0 <= i < j < rest.len() implies !chars_before(
            #[trigger] rest[j],
            #[trigger] rest[i],
        ) by {
            assert(rest[j] == u[j + 1] && rest[i] == u[i + 1]);
        }
        let w = lemma_insert_sorted(rest, e);
        let v = seq![u[0]] + w;
        assert forall|i: int, j: int| 0 <= i < j < v.len() implies !chars_before(
            #[trigger] v[j],
            #[trigger] v[i],
        ) by {
            if i == 0 {
                assert(v[i] == u[0]);
                assert(v[j] == w[j - 1]);
                assert(w.to_multiset().count(w[j - 1]) > 0);
                assert(w.contains(w[j - 1]));
                if w[j - 1] == e {
                    super::lemma_text_order(e, u[0], e);
                } else {
                    assert(rest.to_multiset().count(w[j - 1]) > 0);
                    assert(rest.contains(w[j - 1]));
                    let k = choose|k: int| 0 <= k < rest.len() && rest[k] == w[j - 1];
                    assert(rest[k] == u[k + 1]);
                    super::lemma_text_order(u[k + 1], u[0], u[k + 1]);
                }
            } else {
                assert(v[i] == w[i - 1] && v[j] == w[j - 1]);
            }
        }
        assert(u =~= seq![u[0]] + rest);
        vstd::seq_lib::lemma_multiset_commutative(seq![u[0]], w);
        vstd::seq_lib::lemma_multiset_commutative(seq![u[0]], rest);
        assert(v.to_multiset() =~= u.to_multiset().insert(e));
        v
    } else {
        let v = seq![e] + u;
        assert forall|i: int, j: int| 0 <= i < j < v.len() implies !chars_before(
            #[trigger] v[j],
            #[trigger] v[i],
        ) by {
            if i == 0 {
                assert(v[i] == e);
                assert(v[j] == u[j - 1]);
                if j - 1 > 0 {
                    assert(!chars_before(u[j - 1], u[0]));
                }
                super::lemma_text_order(u[j - 1], e, u[0]);
                super::lemma_text_order(e, u[0], u[j - 1]);
                super::lemma_text_order(u[0], u[j - 1], e);
                super::lemma_text_order(u[j - 1], u[0], e);
            } else {
                assert(v[i] == u[i - 1] && v[j] == u[j - 1]);
            }
        }
        vstd::seq_lib::lemma_multiset_commutative(seq![e], u);
        assert(v.to_multiset() =~= u.to_multiset().insert(e));
        v
    }
}

/// Any texts can be put in order.
proof fn lemma_sortable(t: Seq<Seq<char>>) -> (u: Seq<Seq<char>>)
    ensures
        is_sorted_texts(u),
        u.to_multiset() == t.to_multiset(),
    decreases t.len(),
{
    broadcast use vstd::seq_lib::group_to_multiset_ensures;

    if t.len() == 0 {
        let u = Seq::<Seq<char>>::empty();
        assert(u.to_multiset() =~= t.to_multiset());
        u
    } else {
        let w = lemma_sortable(t.drop_last());
        let u = lemma_insert_sorted(w, t.last());
        assert(t.drop_last().push(t.last()) =~= t);
        u
    }
}

/// The texts in order are in order, and are the same texts.
pub proof fn lemma_sorted_texts(t: Seq<Seq<char>>)
    ensures
        is_sorted_texts(sorted_texts(t)),
        sorted_texts(t).to_multiset() == t.to_multiset(),
{
    let w = lemma_sortable(t);
    assert(is_sorted_texts(w) && w.to_multiset() == t.to_multiset());
}

proof fn lemma_scene_key<F>(
    u: SessionView<F>,
    w: Seq<char>,
    rd: spec_fn(Seq<char>) -> Option<F>,
    nonneg: spec_fn(F) -> bool,
    half: F,
    one: F,
    zero: F,
)
    ensures
        apply_key(u, "scene"@, w, rd, nonneg, half, one, zero) == match crate::compositor::scenes::spec_parse(w) {
            Some(scene) => SessionView { scenes: u.scenes.push(scene), ..u },
            None => u,
        },
{
    lemma_reveal_keys();
}

proof fn lemma_monitor_key<F>(
    u: SessionView<F>,
    w: Seq<char>,
    rd: spec_fn(Seq<char>) -> Option<F>,
    nonneg: spec_fn(F) -> bool,
    half: F,
    one: F,
    zero: F,
)
    ensures
        apply_key(u, "monitor"@, w, rd, nonneg, half, one, zero) == match super::monitor_line(w) {
            Some(m) => SessionView { monitors: u.monitors.push(m), ..u },
            None => u,
        },
{
    lemma_reveal_keys();
}

proof fn lemma_own_key<F>(
    u: SessionView<F>,
    w: Seq<char>,
    rd: spec_fn(Seq<char>) -> Option<F>,
    nonneg: spec_fn(F) -> bool,
    half: F,
    one: F,
    zero: F,
)
    ensures
        apply_key(u, "own"@, w, rd, nonneg, half, one, zero) == match super::own_line(w, rd, nonneg, one, zero) {
            Some((name, own)) => SessionView { overrides: super::put(u.overrides, name, own), ..u },
            None => u,
        },
{
    lemma_reveal_keys();
}

proof fn lemma_sparam_key<F>(
    u: SessionView<F>,
    w: Seq<char>,
    rd: spec_fn(Seq<char>) -> Option<F>,
    nonneg: spec_fn(F) -> bool,
    half: F,
    one: F,
    zero: F,
)
    ensures
        apply_key(u, "sparam"@, w, rd, nonneg, half, one, zero) == match super::sparam_line(w, rd) {
            Some((path, values)) => SessionView { shader_params: super::put(u.shader_params, path, values), ..u },
            None => u,
        },
{
    lemma_reveal_keys();
}

/// `<name>=<value>` for one setting.
pub open spec fn field_of<F>(pr: (Seq<char>, F), show: spec_fn(F) -> Seq<char>) -> Seq<char> {
    pr.0 + seq!['='] + show(pr.1)
}

/// Settings of a shader that read back as themselves: names without `|`
/// or `=`, no two alike, and values that read back.
/// A shader's path and settings are each written on one line, whatever
/// the numbers read back as.
pub open spec fn param_words<F>(p: (Seq<char>, Seq<(Seq<char>, F)>), show: spec_fn(F) -> Seq<char>) -> bool {
    &&& one_line(p.0)
    &&& forall|k: int| 0 <= k < p.1.len() ==> one_line((#[trigger] p.1[k]).0) && one_line(show(p.1[k].1))
}

pub open spec fn settings_writable<F>(
    values: Seq<(Seq<char>, F)>,
    rd: spec_fn(Seq<char>) -> Option<F>,
    show: spec_fn(F) -> Seq<char>,
) -> bool {
    &&& forall|k: int|
        0 <= k < values.len() ==> !(#[trigger] values[k]).0.contains('|') && !values[k].0.contains('=')
            && one_line(values[k].0) && reads_back(rd, show, values[k].1)
    &&& forall|i: int, k: int| 0 <= i < k < values.len() ==> (#[trigger] values[i]).0 != (#[trigger] values[k]).0
}

/// The same settings, perhaps in another order.
pub open spec fn same_settings<F>(a: Seq<(Seq<char>, F)>, b: Seq<(Seq<char>, F)>) -> bool {
    a.len() == b.len() && forall|pr: (Seq<char>, F)| a.contains(pr) <==> b.contains(pr)
}

proof fn lemma_field_split<F>(pr: (Seq<char>, F), show: spec_fn(F) -> Seq<char>)
    requires
        !pr.0.contains('='),
    ensures
        split_once(field_of(pr, show), '=') == Some((pr.0, show(pr.1))),
{
    crate::text::lemma_find_after(pr.0, '=', show(pr.1));
    let t = field_of(pr, show);
    assert(t.take(pr.0.len() as int) =~= pr.0);
    assert(t.skip(pr.0.len() as int + 1) =~= show(pr.1));
}

proof fn lemma_fields_distinct<F>(
    values: Seq<(Seq<char>, F)>,
    rd: spec_fn(Seq<char>) -> Option<F>,
    show: spec_fn(F) -> Seq<char>,
)
    requires
        settings_writable(values, rd, show),
    ensures
        super::param_fields(values, show).no_duplicates(),
        forall|m: int| 0 <= m < values.len() ==> super::param_fields(values, show)[m] == field_of(#[trigger] values[m], show),
{
    let f = super::param_fields(values, show);
    assert forall|m: int| 0 <= m < values.len() implies f[m] == field_of(#[trigger] values[m], show) by {}
    assert forall|a: int, b: int| 0 <= a < f.len() && 0 <= b < f.len() && a != b implies f[a] != f[b] by {
        lemma_field_split(values[a], show);
        lemma_field_split(values[b], show);
        if a < b {
            assert(values[a].0 != values[b].0);
        } else {
            assert(values[b].0 != values[a].0);
        }
    }
}

/// Reading fields back, each the field of one of `values` and no two
/// alike, gives each field's setting.
proof fn lemma_param_values<F>(
    g: Seq<Seq<char>>,
    values: Seq<(Seq<char>, F)>,
    rd: spec_fn(Seq<char>) -> Option<F>,
    show: spec_fn(F) -> Seq<char>,
)
    requires
        settings_writable(values, rd, show),
        g.no_duplicates(),
        forall|k: int| 0 <= k < g.len() ==> super::param_fields(values, show).contains(#[trigger] g[k]),
    ensures
        super::param_values(g, rd).len() == g.len(),
        forall|k: int|
            0 <= k < g.len() ==> exists|m: int|
                0 <= m < values.len() && g[k] == field_of(values[m], show) && #[trigger] super::param_values(g, rd)[k]
                    == values[m],
    decreases g.len(),
{
    lemma_fields_distinct(values, rd, show);
    let f = super::param_fields(values, show);
    if g.len() > 0 {
        let rest = g.drop_last();
        assert forall|k: int| 0 <= k < rest.len() implies f.contains(#[trigger] rest[k]) by {
            assert(rest[k] == g[k]);
        }
        assert(rest.no_duplicates()) by {
            assert forall|a: int, b: int| 0 <= a < rest.len() && 0 <= b < rest.len() && a != b implies rest[a] != rest[b] by {
                assert(rest[a] == g[a] && rest[b] == g[b]);
            }
        }
        lemma_param_values(rest, values, rd, show);
        let pv = super::param_values(rest, rd);
        assert(f.contains(g[g.len() - 1]));
        let m = choose|m: int| 0 <= m < f.len() && f[m] == g.last();
        lemma_field_split(values[m], show);
        assert(rd(show(values[m].1)) == Some(values[m].1));
        assert forall|k: int| 0 <= k < super::keys_of(pv).len() implies super::keys_of(pv)[k] != values[m].0 by {
            assert(rest[k] == g[k]);
            let mk = choose|mk: int| 0 <= mk < values.len() && rest[k] == field_of(values[mk], show) && pv[k] == values[mk];
            assert(super::keys_of(pv)[k] == pv[k].0);
            assert(g[k] != g[g.len() - 1]);
            if mk < m {
                assert(values[mk].0 != values[m].0);
            } else if m < mk {
                assert(values[m].0 != values[mk].0);
            }
        }
        super::lemma_key_index_none(super::keys_of(pv), values[m].0);
        let r = super::param_values(g, rd);
        assert(r == pv.push((values[m].0, values[m].1)));
        assert forall|k: int| 0 <= k < g.len() implies exists|mm: int|
            0 <= mm < values.len() && g[k] == field_of(values[mm], show) && #[trigger] r[k] == values[mm] by {
            if k < rest.len() {
                assert(r[k] == pv[k]);
                assert(rest[k] == g[k]);
            } else {
                assert(r[k] == values[m]);
            }
        }
    }
}

/// A shader's line after its key.
pub open spec fn param_value<F>(p: (Seq<char>, Seq<(Seq<char>, F)>), show: spec_fn(F) -> Seq<char>) -> Seq<char> {
    p.0 + seq!['|'] + join(sorted_texts(super::param_fields(p.1, show)), seq!['|'])
}

/// One `sparam` line per shader.
pub open spec fn param_ls<F>(ps: Seq<(Seq<char>, Seq<(Seq<char>, F)>)>, show: spec_fn(F) -> Seq<char>) -> Seq<Seq<char>> {
    ps.map_values(|p: (Seq<char>, Seq<(Seq<char>, F)>)| line_of("sparam"@, param_value(p, show)))
}

#[verifier::spinoff_prover]
proof fn lemma_param_text<F>(ps: Seq<(Seq<char>, Seq<(Seq<char>, F)>)>, show: spec_fn(F) -> Seq<char>)
    ensures
        super::param_lines(ps, show) == unlines(param_ls(ps, show)),
    decreases ps.len(),
{
    if ps.len() > 0 {
        lemma_reveal_heads();
        lemma_param_text(ps.drop_last(), show);
        assert(param_ls(ps, show).drop_last() =~= param_ls(ps.drop_last(), show));
        assert(super::param_lines(ps, show) =~= unlines(param_ls(ps, show)));
    }
}

/// A shader's settings that read back: a path that is not empty and holds
/// no `|`, and at least one setting.
pub open spec fn shader_writable<F>(
    p: (Seq<char>, Seq<(Seq<char>, F)>),
    rd: spec_fn(Seq<char>) -> Option<F>,
    show: spec_fn(F) -> Seq<char>,
) -> bool {
    p.0.len() > 0 && !p.0.contains('|') && one_line(p.0) && p.1.len() > 0 && settings_writable(p.1, rd, show)
}

#[verifier::spinoff_prover]
proof fn lemma_sparam_line<F>(
    p: (Seq<char>, Seq<(Seq<char>, F)>),
    rd: spec_fn(Seq<char>) -> Option<F>,
    show: spec_fn(F) -> Seq<char>,
)
    requires
        shader_writable(p, rd, show),
    ensures
        super::sparam_line(param_value(p, show), rd) matches Some(q) && q.0 == p.0 && same_settings(q.1, p.1),
{
    broadcast use vstd::seq_lib::group_to_multiset_ensures;

    let f = super::param_fields(p.1, show);
    let sorted = sorted_texts(f);
    lemma_sorted_texts(f);
    lemma_fields_distinct(p.1, rd, show);
    f.lemma_multiset_has_no_duplicates();
    assert forall|x: Seq<char>| sorted.to_multiset().contains(x) implies sorted.to_multiset().count(x) == 1 by {
        assert(f.to_multiset().contains(x));
    }
    sorted.lemma_multiset_has_no_duplicates_conv();
    assert forall|k: int| 0 <= k < sorted.len() implies f.contains(#[trigger] sorted[k]) by {
        assert(sorted.to_multiset().count(sorted[k]) > 0);
    }
    assert(sorted.to_multiset().len() == sorted.len());
    assert(f.to_multiset().len() == f.len());
    assert(sorted.len() == f.len());
    assert forall|k: int| 0 <= k < sorted.len() implies !(#[trigger] sorted[k]).contains('|') by {
        let m = choose|m: int| 0 <= m < f.len() && f[m] == sorted[k];
        assert(f[m] == field_of(p.1[m], show));
        assert(token(show(p.1[m].1)));
        crate::text::lemma_concat_free(p.1[m].0, seq!['='], '|');
        crate::text::lemma_concat_free(p.1[m].0 + seq!['='], show(p.1[m].1), '|');
    }
    let parts = seq![p.0] + sorted;
    assert forall|k: int| 0 <= k < parts.len() implies !(#[trigger] parts[k]).contains('|') by {
        if k > 0 {
            assert(parts[k] == sorted[k - 1]);
        }
    }
    lemma_split_join(parts, '|');
    assert(parts.drop_first() =~= sorted);
    assert(join(parts, seq!['|']) =~= param_value(p, show));
    assert(split(param_value(p, show), '|') == parts);
    lemma_param_values(sorted, p.1, rd, show);
    let r = super::param_values(sorted, rd);
    assert forall|pr: (Seq<char>, F)| r.contains(pr) <==> p.1.contains(pr) by {
        if r.contains(pr) {
            let k = choose|k: int| 0 <= k < r.len() && r[k] == pr;
            let m = choose|m: int| 0 <= m < p.1.len() && sorted[k] == field_of(p.1[m], show) && r[k] == p.1[m];
            assert(p.1[m] == pr);
        }
        if p.1.contains(pr) {
            let m = choose|m: int| 0 <= m < p.1.len() && p.1[m] == pr;
            assert(f[m] == field_of(p.1[m], show));
            assert(f.to_multiset().count(f[m]) > 0);
            assert(sorted.contains(f[m]));
            let k = choose|k: int| 0 <= k < sorted.len() && sorted[k] == f[m];
            let mk = choose|mk: int| 0 <= mk < p.1.len() && sorted[k] == field_of(p.1[mk], show) && r[k] == p.1[mk];
            assert(f[mk] == field_of(p.1[mk], show));
            assert(f[mk] == f[m]);
            assert(mk == m);
            assert(r[k] == pr);
        }
    }
}

#[verifier::spinoff_prover]
proof fn lemma_read_params<F>(
    t: SessionView<F>,
    ps: Seq<(Seq<char>, Seq<(Seq<char>, F)>)>,
    rd: spec_fn(Seq<char>) -> Option<F>,
    nonneg: spec_fn(F) -> bool,
    half: F,
    one: F,
    zero: F,
    show: spec_fn(F) -> Seq<char>,
)
    requires
        t.shader_params.len() == 0,
        forall|i: int| 0 <= i < ps.len() ==> shader_writable(#[trigger] ps[i], rd, show),
        forall|i: int, j: int| 0 <= i < j < ps.len() ==> (#[trigger] ps[i]).0 != (#[trigger] ps[j]).0,
    ensures
        ({
            let r = apply_lines(t, param_ls(ps, show), rd, nonneg, half, one, zero);
            &&& r == SessionView { shader_params: r.shader_params, ..t }
            &&& r.shader_params.len() == ps.len()
            &&& forall|i: int|
                0 <= i < ps.len() ==> (#[trigger] r.shader_params[i]).0 == ps[i].0 && same_settings(
                    r.shader_params[i].1,
                    ps[i].1,
                )
        }),
    decreases ps.len(),
{
    if ps.len() > 0 {
        let rest = ps.drop_last();
        lemma_read_params(t, rest, rd, nonneg, half, one, zero, show);
        assert(param_ls(ps, show).drop_last() =~= param_ls(rest, show));
        let u = apply_lines(t, param_ls(rest, show), rd, nonneg, half, one, zero);
        let p = ps.last();
        let w = param_value(p, show);
        lemma_sparam_key(u, w, rd, nonneg, half, one, zero);
        assert(!"sparam"@.contains(' ')) by {
            lemma_reveal_keys();
        }
        lemma_split_key("sparam"@, w);
        lemma_sparam_line(p, rd, show);
        let q = super::sparam_line(w, rd)->0;
        assert forall|k: int| 0 <= k < super::keys_of(u.shader_params).len() implies super::keys_of(u.shader_params)[k] != q.0 by {
            assert(u.shader_params[k].0 == rest[k].0);
            assert(rest[k] == ps[k]);
        }
        super::lemma_key_index_none(super::keys_of(u.shader_params), q.0);
        let r = apply_lines(t, param_ls(ps, show), rd, nonneg, half, one, zero);
        assert(r.shader_params == u.shader_params.push(q));
        assert forall|i: int| 0 <= i < ps.len() implies (#[trigger] r.shader_params[i]).0 == ps[i].0 && same_settings(
            r.shader_params[i].1,
            ps[i].1,
        ) by {
            if i < rest.len() {
                assert(r.shader_params[i] == u.shader_params[i]);
                assert(ps[i] == rest[i]);
            }
        }
    }
}

proof fn lemma_one_line_add(a: Seq<char>, b: Seq<char>)
    requires
        one_line(a),
        one_line(b),
    ensures
        one_line(a + b),
{
    crate::text::lemma_concat_free(a, b, '\n');
    crate::text::lemma_concat_free(a, b, '\r');
}

proof fn lemma_one_line_sep(c: char)
    requires
        c != '\n' && c != '\r',
    ensures
        one_line(seq![c]),
{
    assert(!seq![c].contains('\n')) by {
        if seq![c].contains('\n') {
            assert(seq![c][0] == '\n');
        }
    }
    assert(!seq![c].contains('\r')) by {
        if seq![c].contains('\r') {
            assert(seq![c][0] == '\r');
        }
    }
}

proof fn lemma_one_line_join(parts: Seq<Seq<char>>, c: char)
    requires
        c != '\n' && c != '\r',
        forall|i: int| 0 <= i < parts.len() ==> one_line(#[trigger] parts[i]),
    ensures
        one_line(join(parts, seq![c])),
{
    lemma_one_line_sep(c);
    crate::text::lemma_join_free(parts, seq![c], '\n');
    crate::text::lemma_join_free(parts, seq![c], '\r');
}

/// `<key> <value>` fits on one line when the value does.
proof fn lemma_one_line_of(key: Seq<char>, value: Seq<char>)
    requires
        one_line(key),
        one_line(value),
    ensures
        one_line(line_of(key, value)),
{
    lemma_one_line_sep(' ');
    lemma_one_line_add(key, seq![' ']);
    lemma_one_line_add(key + seq![' '], value);
}

/// Every key fits on one line.
proof fn lemma_keys_one_line()
    ensures
        one_line("fps"@), one_line("fit"@), one_line("interval"@), one_line("shuffle"@),
        one_line("visual"@), one_line("sound"@), one_line("power"@), one_line("speed"@),
        one_line("fade"@), one_line("span"@), one_line("hotkeys"@), one_line("hibernate"@),
        one_line("memory"@), one_line("idle"@), one_line("busy"@), one_line("reducemotion"@),
        one_line("drift"@), one_line("accent"@), one_line("apps"@), one_line("rules"@),
        one_line("scene"@), one_line("sparam"@), one_line("own"@), one_line("monitor"@), one_line("motion"@),
{
    lemma_reveal_keys();
}

/// Every line of a run of optional lines fits on one line when each value
/// does.
proof fn lemma_opt_one_line(key: Seq<char>, value: Option<Seq<char>>)
    requires
        one_line(key),
        value matches Some(v) ==> one_line(v),
    ensures
        forall|i: int| 0 <= i < opt_line(key, value).len() ==> one_line(#[trigger] opt_line(key, value)[i]),
{
    if let Some(v) = value {
        lemma_one_line_of(key, v);
    }
}

proof fn lemma_lines_add(a: Seq<Seq<char>>, b: Seq<Seq<char>>)
    requires
        forall|i: int| 0 <= i < a.len() ==> one_line(#[trigger] a[i]),
        forall|i: int| 0 <= i < b.len() ==> one_line(#[trigger] b[i]),
    ensures
        forall|i: int| 0 <= i < (a + b).len() ==> one_line(#[trigger] (a + b)[i]),
{
    assert forall|i: int| 0 <= i < (a + b).len() implies one_line(#[trigger] (a + b)[i]) by {
        if i < a.len() {
            assert((a + b)[i] == a[i]);
        } else {
            assert((a + b)[i] == b[i - a.len()]);
        }
    }
}

proof fn lemma_three_tokens(a: Seq<char>, b: Seq<char>, c: Seq<char>)
    requires
        token(a),
        token(b),
        token(c),
    ensures
        one_line(a + seq![' '] + b + seq![' '] + c),
{
    lemma_one_line_sep(' ');
    lemma_one_line_add(a, seq![' ']);
    lemma_one_line_add(a + seq![' '], b);
    lemma_one_line_add(a + seq![' '] + b, seq![' ']);
    lemma_one_line_add(a + seq![' '] + b + seq![' '], c);
}

proof fn lemma_two_tokens(a: Seq<char>, b: Seq<char>)
    requires
        token(a),
        token(b),
    ensures
        one_line(a + seq![' '] + b),
{
    lemma_one_line_sep(' ');
    lemma_one_line_add(a, seq![' ']);
    lemma_one_line_add(a + seq![' '], b);
}

#[verifier::spinoff_prover]
proof fn lemma_first_one_line<F>(s: SessionView<F>, rd: spec_fn(Seq<char>) -> Option<F>, show3: spec_fn(F) -> Seq<char>)
    requires
        first_words(s, show3),
    ensures
        forall|i: int| 0 <= i < first_lines(s, show3).len() ==> one_line(#[trigger] first_lines(s, show3)[i]),
{
    lemma_keys_one_line();
    if let Some(n) = s.fps {
        lemma_decimal_token(n as nat);
    }
    if let Some(n) = s.interval_secs {
        lemma_decimal_token(n as nat);
    }
    lemma_fit_token(s.fit);
    if let Some(b) = s.shuffle {
        lemma_on_off(b);
    }
    if let Some(v) = s.visual {
        lemma_three_tokens(show3(v.brightness), show3(v.saturation), show3(v.blur));
    }
    if let Some(v) = s.sound {
        lemma_on_off(v.enabled);
        lemma_on_off(v.duck);
        lemma_three_tokens(on_off(v.enabled), show3(v.volume), on_off(v.duck));
    }
    if let Some(p) = s.power {
        lemma_decimal_token(p.battery_fps as nat);
        lemma_on_off(p.pause_on_saver);
        lemma_two_tokens(decimal(p.battery_fps as nat), on_off(p.pause_on_saver));
    }
    let a = opt_line("fps"@, num_text(nat_of_u32(s.fps)));
    let b = opt_line("fit"@, fit_text(s.fit));
    let c = opt_line("interval"@, num_text(nat_of_u64(s.interval_secs)));
    let d = opt_line("shuffle"@, flag_text(s.shuffle));
    let e = opt_line("visual"@, visual_text(s.visual, show3));
    let f = opt_line("sound"@, sound_value(s.sound, show3));
    let g = opt_line("power"@, power_value(s.power));
    lemma_opt_one_line("fps"@, num_text(nat_of_u32(s.fps)));
    lemma_opt_one_line("fit"@, fit_text(s.fit));
    lemma_opt_one_line("interval"@, num_text(nat_of_u64(s.interval_secs)));
    lemma_opt_one_line("shuffle"@, flag_text(s.shuffle));
    lemma_opt_one_line("visual"@, visual_text(s.visual, show3));
    lemma_opt_one_line("sound"@, sound_value(s.sound, show3));
    lemma_opt_one_line("power"@, power_value(s.power));
    lemma_lines_add(a, b);
    lemma_lines_add(a + b, c);
    lemma_lines_add(a + b + c, d);
    lemma_lines_add(a + b + c + d, e);
    lemma_lines_add(a + b + c + d + e, f);
    lemma_lines_add(a + b + c + d + e + f, g);
}

pub open spec fn lines_ok(ls: Seq<Seq<char>>) -> bool {
    forall|i: int| 0 <= i < ls.len() ==> one_line(#[trigger] ls[i])
}

#[verifier::spinoff_prover]
proof fn lemma_second_one_line<F>(
    s: SessionView<F>,
    rd: spec_fn(Seq<char>) -> Option<F>,
    show3: spec_fn(F) -> Seq<char>,
    show2: spec_fn(F) -> Seq<char>,
)
    requires
        second_words(s, show3, show2),
    ensures
        forall|i: int| 0 <= i < second_lines(s, show3, show2).len() ==> one_line(#[trigger] second_lines(s, show3, show2)[i]),
{
    let a = opt_line("speed"@, show_text(s.speed, show2));
    let b = opt_line("fade"@, num_text(nat_of_u64(s.fade_ms)));
    let c = opt_line("span"@, flag_text(s.span));
    let d = opt_line("hotkeys"@, flag_text(s.hotkeys));
    let e = opt_line("hibernate"@, num_text(nat_of_u64(s.hibernate_secs)));
    let f = opt_line("motion"@, motion_value(s.motion, show3));
    let g = opt_line("memory"@, num_text(nat_of_u32(s.memory_mb)));
    let h = opt_line("idle"@, num_text(nat_of_u64(s.idle_secs)));
    let i = opt_line("busy"@, num_text(nat_of_u32(s.busy_fps)));
    let j = opt_line("reducemotion"@, flag_text(s.reduce_motion));
    let k = opt_line("drift"@, show_text(s.drift, show3));
    let l = opt_line("accent"@, flag_text(s.accent));
    assert(lines_ok(a)) by {
        lemma_keys_one_line();
        lemma_opt_one_line("speed"@, show_text(s.speed, show2));
    }
    assert(lines_ok(b)) by {
        lemma_keys_one_line();
        if let Some(n) = s.fade_ms {
            lemma_decimal_token(n as nat);
        }
        lemma_opt_one_line("fade"@, num_text(nat_of_u64(s.fade_ms)));
    }
    assert(lines_ok(c)) by {
        lemma_keys_one_line();
        if let Some(x) = s.span {
            lemma_on_off(x);
        }
        lemma_opt_one_line("span"@, flag_text(s.span));
    }
    assert(lines_ok(d)) by {
        lemma_keys_one_line();
        if let Some(x) = s.hotkeys {
            lemma_on_off(x);
        }
        lemma_opt_one_line("hotkeys"@, flag_text(s.hotkeys));
    }
    assert(lines_ok(e)) by {
        lemma_keys_one_line();
        if let Some(n) = s.hibernate_secs {
            lemma_decimal_token(n as nat);
        }
        lemma_opt_one_line("hibernate"@, num_text(nat_of_u64(s.hibernate_secs)));
    }
    assert(lines_ok(f)) by {
        lemma_keys_one_line();
        if let Some(m) = s.motion {
            lemma_two_tokens(show3(m.reactive), show3(m.parallax));
        }
        lemma_opt_one_line("motion"@, motion_value(s.motion, show3));
    }
    assert(lines_ok(g)) by {
        lemma_keys_one_line();
        if let Some(n) = s.memory_mb {
            lemma_decimal_token(n as nat);
        }
        lemma_opt_one_line("memory"@, num_text(nat_of_u32(s.memory_mb)));
    }
    assert(lines_ok(h)) by {
        lemma_keys_one_line();
        if let Some(n) = s.idle_secs {
            lemma_decimal_token(n as nat);
        }
        lemma_opt_one_line("idle"@, num_text(nat_of_u64(s.idle_secs)));
    }
    assert(lines_ok(i)) by {
        lemma_keys_one_line();
        if let Some(n) = s.busy_fps {
            lemma_decimal_token(n as nat);
        }
        lemma_opt_one_line("busy"@, num_text(nat_of_u32(s.busy_fps)));
    }
    assert(lines_ok(j)) by {
        lemma_keys_one_line();
        if let Some(x) = s.reduce_motion {
            lemma_on_off(x);
        }
        lemma_opt_one_line("reducemotion"@, flag_text(s.reduce_motion));
    }
    assert(lines_ok(k)) by {
        lemma_keys_one_line();
        lemma_opt_one_line("drift"@, show_text(s.drift, show3));
    }
    assert(lines_ok(l)) by {
        lemma_keys_one_line();
        if let Some(x) = s.accent {
            lemma_on_off(x);
        }
        lemma_opt_one_line("accent"@, flag_text(s.accent));
    }
    lemma_lines_add(a, b);
    lemma_lines_add(a + b, c);
    lemma_lines_add(a + b + c, d);
    lemma_lines_add(a + b + c + d, e);
    lemma_lines_add(a + b + c + d + e, f);
    lemma_lines_add(a + b + c + d + e + f, g);
    lemma_lines_add(a + b + c + d + e + f + g, h);
    lemma_lines_add(a + b + c + d + e + f + g + h, i);
    lemma_lines_add(a + b + c + d + e + f + g + h + i, j);
    lemma_lines_add(a + b + c + d + e + f + g + h + i + j, k);
    lemma_lines_add(a + b + c + d + e + f + g + h + i + j + k, l);
}

proof fn lemma_scene_one_line(scenes: Seq<(Seq<char>, Seq<(Seq<char>, Seq<Seq<char>>)>)>)
    requires
        forall|i: int| 0 <= i < scenes.len() ==> one_line(crate::compositor::scenes::spec_written_form(#[trigger] scenes[i])),
    ensures
        forall|i: int| 0 <= i < scene_ls(scenes).len() ==> one_line(#[trigger] scene_ls(scenes)[i]),
{
    lemma_keys_one_line();
    assert forall|i: int| 0 <= i < scene_ls(scenes).len() implies one_line(#[trigger] scene_ls(scenes)[i]) by {
        lemma_one_line_of("scene"@, crate::compositor::scenes::spec_written_form(scenes[i]));
    }
}

proof fn lemma_monitor_one_line(ms: Seq<(Seq<char>, bool, Seq<Seq<char>>)>)
    requires
        forall|i: int| 0 <= i < ms.len() ==> monitor_writable(#[trigger] ms[i]),
    ensures
        forall|i: int| 0 <= i < monitor_ls(ms).len() ==> one_line(#[trigger] monitor_ls(ms)[i]),
{
    lemma_keys_one_line();
    assert forall|i: int| 0 <= i < monitor_ls(ms).len() implies one_line(#[trigger] monitor_ls(ms)[i]) by {
        let m = ms[i];
        assert(monitor_writable(m));
        lemma_true_false(m.1);
        assert forall|k: int| 0 <= k < m.2.len() implies one_line(#[trigger] m.2[k]) by {}
        lemma_one_line_join(m.2, '|');
        lemma_one_line_sep(' ');
        lemma_one_line_add(m.0, seq![' ']);
        lemma_one_line_add(m.0 + seq![' '], true_false(m.1));
        lemma_one_line_add(m.0 + seq![' '] + true_false(m.1), seq![' ']);
        lemma_one_line_add(m.0 + seq![' '] + true_false(m.1) + seq![' '], join(m.2, seq!['|']));
        lemma_one_line_of("monitor"@, monitor_value(m));
    }
}

proof fn lemma_own_one_line<F>(
    os: Seq<(Seq<char>, Overrides<F>)>,
    rd: spec_fn(Seq<char>) -> Option<F>,
    nonneg: spec_fn(F) -> bool,
    show3: spec_fn(F) -> Seq<char>,
    minus_one: F,
    one: F,
    zero: F,
)
    requires
        forall|i: int| 0 <= i < os.len() ==> own_writable(#[trigger] os[i], rd, nonneg, show3, minus_one, one, zero),
    ensures
        forall|i: int| 0 <= i < own_ls(os, show3, minus_one, one, zero).len() ==> one_line(
            #[trigger] own_ls(os, show3, minus_one, one, zero)[i],
        ),
{
    lemma_keys_one_line();
    assert forall|i: int| 0 <= i < own_ls(os, show3, minus_one, one, zero).len() implies one_line(
        #[trigger] own_ls(os, show3, minus_one, one, zero)[i],
    ) by {
        let o = os[i];
        assert(own_writable(o, rd, nonneg, show3, minus_one, one, zero));
        let f = own_fields(o, show3, minus_one, one, zero);
        lemma_fit_token(o.1.fit);
        lemma_decimal_token(match o.1.fps { Some(n) => n as nat, None => 0 });
        assert forall|k: int| 0 <= k < f.len() implies one_line(#[trigger] f[k]) by {}
        lemma_one_line_join(f, ' ');
        lemma_one_line_of("own"@, join(f, seq![' ']));
    }
}

proof fn lemma_param_one_line<F>(
    ps: Seq<(Seq<char>, Seq<(Seq<char>, F)>)>,
    rd: spec_fn(Seq<char>) -> Option<F>,
    show: spec_fn(F) -> Seq<char>,
)
    requires
        forall|i: int| 0 <= i < ps.len() ==> param_words(#[trigger] ps[i], show),
    ensures
        forall|i: int| 0 <= i < param_ls(ps, show).len() ==> one_line(#[trigger] param_ls(ps, show)[i]),
{
    broadcast use vstd::seq_lib::group_to_multiset_ensures;

    lemma_keys_one_line();
    assert forall|i: int| 0 <= i < param_ls(ps, show).len() implies one_line(#[trigger] param_ls(ps, show)[i]) by {
        let p = ps[i];
        assert(param_words(p, show));
        let f = super::param_fields(p.1, show);
        let sorted = sorted_texts(f);
        lemma_sorted_texts(f);
        assert forall|k: int| 0 <= k < sorted.len() implies one_line(#[trigger] sorted[k]) by {
            assert(sorted.to_multiset().count(sorted[k]) > 0);
            assert(f.contains(sorted[k]));
            let m = choose|m: int| 0 <= m < f.len() && f[m] == sorted[k];
            assert(f[m] == p.1[m].0 + seq!['='] + show(p.1[m].1));
            lemma_one_line_sep('=');
            lemma_one_line_add(p.1[m].0, seq!['=']);
            lemma_one_line_add(p.1[m].0 + seq!['='], show(p.1[m].1));
        }
        lemma_one_line_join(sorted, '|');
        lemma_one_line_sep('|');
        lemma_one_line_add(p.0, seq!['|']);
        lemma_one_line_add(p.0 + seq!['|'], join(sorted, seq!['|']));
        lemma_one_line_of("sparam"@, param_value(p, show));
    }
}

/// The lines of the whole file, in the order they are written.
pub open spec fn written_lines<F>(
    s: SessionView<F>,
    show3: spec_fn(F) -> Seq<char>,
    show2: spec_fn(F) -> Seq<char>,
    show: spec_fn(F) -> Seq<char>,
    minus_one: F,
    one: F,
    zero: F,
) -> Seq<Seq<char>> {
    first_lines(s, show3) + second_lines(s, show3, show2) + opt_line("apps"@, apps_value(s.apps)) + scene_ls(
        s.scenes,
    ) + param_ls(s.shader_params, show) + opt_line("rules"@, rules_value(s.rules)) + own_ls(
        s.overrides,
        show3,
        minus_one,
        one,
        zero,
    ) + monitor_ls(s.monitors)
}

#[verifier::spinoff_prover]
proof fn lemma_written_text<F>(
    s: SessionView<F>,
    show3: spec_fn(F) -> Seq<char>,
    show2: spec_fn(F) -> Seq<char>,
    show: spec_fn(F) -> Seq<char>,
    minus_one: F,
    one: F,
    zero: F,
)
    ensures
        spec_written_form(s, show3, show2, show, minus_one, one, zero) == unlines(
            written_lines(s, show3, show2, show, minus_one, one, zero),
        ),
{
    let a = first_lines(s, show3);
    let b = second_lines(s, show3, show2);
    let c = opt_line("apps"@, apps_value(s.apps));
    let d = scene_ls(s.scenes);
    let e = param_ls(s.shader_params, show);
    let f = opt_line("rules"@, rules_value(s.rules));
    let g = own_ls(s.overrides, show3, minus_one, one, zero);
    let h = monitor_ls(s.monitors);
    lemma_first_text(s, show3);
    lemma_second_text(s, show3, show2);
    assert(unlines(c) == (if s.apps.len() > 0 {
        "apps "@ + join(s.apps, seq!['|']) + seq!['\n']
    } else {
        Seq::<char>::empty()
    })) by {
        lemma_reveal_heads();
        lemma_opt_line_text("apps"@, apps_value(s.apps));
    }
    lemma_scene_text(s.scenes);
    lemma_param_text(s.shader_params, show);
    assert(unlines(f) == (if s.rules.len() > 0 {
        "rules "@ + crate::compositor::rules::spec_written_form(s.rules) + seq!['\n']
    } else {
        Seq::<char>::empty()
    })) by {
        lemma_reveal_heads();
        lemma_opt_line_text("rules"@, rules_value(s.rules));
    }
    lemma_own_text(s.overrides, show3, minus_one, one, zero);
    lemma_monitor_text(s.monitors);
    lemma_unlines_add(a, b);
    lemma_unlines_add(a + b, c);
    lemma_unlines_add(a + b + c, d);
    lemma_unlines_add(a + b + c + d, e);
    lemma_unlines_add(a + b + c + d + e, f);
    lemma_unlines_add(a + b + c + d + e + f, g);
    lemma_unlines_add(a + b + c + d + e + f + g, h);
}

/// Everything a session needs to read back as itself: each value that is
/// written down can be, and reads back as what was written.
///
/// Numbers are written with the caller's functions (`show3` for most
/// fractions, `show2` for the speed, `show` for a shader's settings) and
/// must read back through `rd` as themselves, as tokens; a monitor's own
/// grade needs a brightness `nonneg` accepts, and one without a grade
/// writes a `minus_one` that `nonneg` refuses. Names and paths must fit on
/// one line and hold no separator of the line they are on; names in a list
/// keyed by name are all different.
pub open spec fn session_writable<F>(
    s: SessionView<F>,
    rd: spec_fn(Seq<char>) -> Option<F>,
    nonneg: spec_fn(F) -> bool,
    show3: spec_fn(F) -> Seq<char>,
    show2: spec_fn(F) -> Seq<char>,
    show: spec_fn(F) -> Seq<char>,
    minus_one: F,
    one: F,
    zero: F,
) -> bool {
    &&& first_writable(s, rd, show3)
    &&& second_writable(s, rd, show3, show2)
    &&& forall|i: int| 0 <= i < s.apps.len() ==> app_writable(#[trigger] s.apps[i])
    &&& forall|i: int| 0 <= i < s.rules.len() ==> crate::compositor::rules::writable(#[trigger] s.rules[i])
    &&& one_line(crate::compositor::rules::spec_written_form(s.rules))
    &&& forall|i: int|
        0 <= i < s.scenes.len() ==> crate::compositor::scenes::writable(#[trigger] s.scenes[i]) && one_line(
            crate::compositor::scenes::spec_written_form(s.scenes[i]),
        )
    &&& forall|i: int| 0 <= i < s.shader_params.len() ==> shader_writable(#[trigger] s.shader_params[i], rd, show)
    &&& forall|i: int, k: int|
        0 <= i < k < s.shader_params.len() ==> (#[trigger] s.shader_params[i]).0 != (#[trigger] s.shader_params[k]).0
    &&& forall|i: int|
        0 <= i < s.overrides.len() ==> own_writable(#[trigger] s.overrides[i], rd, nonneg, show3, minus_one, one, zero)
    &&& forall|i: int, k: int| 0 <= i < k < s.overrides.len() ==> (#[trigger] s.overrides[i]).0 != (#[trigger] s.overrides[k]).0
    &&& forall|i: int| 0 <= i < s.monitors.len() ==> monitor_writable(#[trigger] s.monitors[i])
}

/// What a session needs for every setting in it that is not a number to
/// read back as written: the numbers need only be written as single words,
/// and each shader's path and settings on one line; everything else as for
/// [`session_writable`].
pub open spec fn fields_writable<F>(
    s: SessionView<F>,
    rd: spec_fn(Seq<char>) -> Option<F>,
    nonneg: spec_fn(F) -> bool,
    show3: spec_fn(F) -> Seq<char>,
    show2: spec_fn(F) -> Seq<char>,
    show: spec_fn(F) -> Seq<char>,
    minus_one: F,
    one: F,
    zero: F,
) -> bool {
    &&& first_words(s, show3)
    &&& second_words(s, show3, show2)
    &&& forall|i: int| 0 <= i < s.apps.len() ==> app_writable(#[trigger] s.apps[i])
    &&& forall|i: int| 0 <= i < s.rules.len() ==> crate::compositor::rules::writable(#[trigger] s.rules[i])
    &&& one_line(crate::compositor::rules::spec_written_form(s.rules))
    &&& forall|i: int|
        0 <= i < s.scenes.len() ==> crate::compositor::scenes::writable(#[trigger] s.scenes[i]) && one_line(
            crate::compositor::scenes::spec_written_form(s.scenes[i]),
        )
    &&& forall|i: int| 0 <= i < s.shader_params.len() ==> param_words(#[trigger] s.shader_params[i], show)
    &&& forall|i: int|
        0 <= i < s.overrides.len() ==> own_writable(#[trigger] s.overrides[i], rd, nonneg, show3, minus_one, one, zero)
    &&& forall|i: int, k: int| 0 <= i < k < s.overrides.len() ==> (#[trigger] s.overrides[i]).0 != (#[trigger] s.overrides[k]).0
    &&& forall|i: int| 0 <= i < s.monitors.len() ==> monitor_writable(#[trigger] s.monitors[i])
}

proof fn lemma_writable_fields<F>(
    s: SessionView<F>,
    rd: spec_fn(Seq<char>) -> Option<F>,
    nonneg: spec_fn(F) -> bool,
    show3: spec_fn(F) -> Seq<char>,
    show2: spec_fn(F) -> Seq<char>,
    show: spec_fn(F) -> Seq<char>,
    minus_one: F,
    one: F,
    zero: F,
)
    requires
        session_writable(s, rd, nonneg, show3, show2, show, minus_one, one, zero),
    ensures
        fields_writable(s, rd, nonneg, show3, show2, show, minus_one, one, zero),
{
    assert forall|i: int| 0 <= i < s.shader_params.len() implies param_words(#[trigger] s.shader_params[i], show) by {
        let p = s.shader_params[i];
        assert(shader_writable(p, rd, show));
        assert forall|k: int| 0 <= k < p.1.len() implies one_line((#[trigger] p.1[k]).0) && one_line(
            show(p.1[k].1),
        ) by {
            assert(reads_back(rd, show, p.1[k].1));
        }
    }
}

#[verifier::spinoff_prover]
proof fn lemma_written_one_line<F>(
    s: SessionView<F>,
    rd: spec_fn(Seq<char>) -> Option<F>,
    nonneg: spec_fn(F) -> bool,
    show3: spec_fn(F) -> Seq<char>,
    show2: spec_fn(F) -> Seq<char>,
    show: spec_fn(F) -> Seq<char>,
    minus_one: F,
    one: F,
    zero: F,
)
    requires
        fields_writable(s, rd, nonneg, show3, show2, show, minus_one, one, zero),
    ensures
        lines_ok(written_lines(s, show3, show2, show, minus_one, one, zero)),
{
    let a = first_lines(s, show3);
    let b = second_lines(s, show3, show2);
    let c = opt_line("apps"@, apps_value(s.apps));
    let d = scene_ls(s.scenes);
    let e = param_ls(s.shader_params, show);
    let f = opt_line("rules"@, rules_value(s.rules));
    let g = own_ls(s.overrides, show3, minus_one, one, zero);
    let h = monitor_ls(s.monitors);
    lemma_first_one_line(s, rd, show3);
    lemma_second_one_line(s, rd, show3, show2);
    assert(lines_ok(c)) by {
        lemma_keys_one_line();
        assert forall|i: int| 0 <= i < s.apps.len() implies one_line(#[trigger] s.apps[i]) by {
            assert(app_writable(s.apps[i]));
        }
        lemma_one_line_join(s.apps, '|');
        lemma_opt_one_line("apps"@, apps_value(s.apps));
    }
    assert forall|i: int| 0 <= i < s.scenes.len() implies one_line(
        crate::compositor::scenes::spec_written_form(#[trigger] s.scenes[i]),
    ) by {}
    lemma_scene_one_line(s.scenes);
    lemma_param_one_line(s.shader_params, rd, show);
    assert(lines_ok(f)) by {
        lemma_keys_one_line();
        lemma_opt_one_line("rules"@, rules_value(s.rules));
    }
    lemma_own_one_line(s.overrides, rd, nonneg, show3, minus_one, one, zero);
    lemma_monitor_one_line(s.monitors);
    lemma_lines_add(a, b);
    lemma_lines_add(a + b, c);
    lemma_lines_add(a + b + c, d);
    lemma_lines_add(a + b + c + d, e);
    lemma_lines_add(a + b + c + d + e, f);
    lemma_lines_add(a + b + c + d + e + f, g);
    lemma_lines_add(a + b + c + d + e + f + g, h);
}

#[verifier::spinoff_prover]
proof fn lemma_read_all<F>(
    s: SessionView<F>,
    rd: spec_fn(Seq<char>) -> Option<F>,
    nonneg: spec_fn(F) -> bool,
    half: F,
    one: F,
    zero: F,
    show3: spec_fn(F) -> Seq<char>,
    show2: spec_fn(F) -> Seq<char>,
    show: spec_fn(F) -> Seq<char>,
    minus_one: F,
)
    requires
        session_writable(s, rd, nonneg, show3, show2, show, minus_one, one, zero),
    ensures
        ({
            let r = apply_lines(empty_view(), written_lines(s, show3, show2, show, minus_one, one, zero), rd, nonneg, half, one, zero);
            &&& r == SessionView { shader_params: r.shader_params, ..s }
            &&& r.shader_params.len() == s.shader_params.len()
            &&& forall|i: int|
                0 <= i < s.shader_params.len() ==> (#[trigger] r.shader_params[i]).0 == s.shader_params[i].0
                    && same_settings(r.shader_params[i].1, s.shader_params[i].1)
        }),
{
    let a = first_lines(s, show3);
    let b = second_lines(s, show3, show2);
    let c = opt_line("apps"@, apps_value(s.apps));
    let d = scene_ls(s.scenes);
    let e = param_ls(s.shader_params, show);
    let f = opt_line("rules"@, rules_value(s.rules));
    let g = own_ls(s.overrides, show3, minus_one, one, zero);
    let h = monitor_ls(s.monitors);
    let e0: SessionView<F> = empty_view();
    lemma_apply_add(e0, a, b, rd, nonneg, half, one, zero);
    lemma_apply_add(e0, a + b, c, rd, nonneg, half, one, zero);
    lemma_apply_add(e0, a + b + c, d, rd, nonneg, half, one, zero);
    lemma_apply_add(e0, a + b + c + d, e, rd, nonneg, half, one, zero);
    lemma_apply_add(e0, a + b + c + d + e, f, rd, nonneg, half, one, zero);
    lemma_apply_add(e0, a + b + c + d + e + f, g, rd, nonneg, half, one, zero);
    lemma_apply_add(e0, a + b + c + d + e + f + g, h, rd, nonneg, half, one, zero);
    lemma_first_read(s, rd, nonneg, half, one, zero, show3);
    let t1 = apply_lines(e0, a, rd, nonneg, half, one, zero);
    lemma_second_read(t1, s, rd, nonneg, half, one, zero, show3, show2);
    let t2 = apply_lines(t1, b, rd, nonneg, half, one, zero);
    lemma_read_apps(t2, s.apps, rd, nonneg, half, one, zero);
    let t3 = apply_lines(t2, c, rd, nonneg, half, one, zero);
    lemma_read_scenes(t3, s.scenes, rd, nonneg, half, one, zero);
    let t4 = apply_lines(t3, d, rd, nonneg, half, one, zero);
    assert(t3.scenes + s.scenes =~= s.scenes);
    lemma_read_params(t4, s.shader_params, rd, nonneg, half, one, zero, show);
    let t5 = apply_lines(t4, e, rd, nonneg, half, one, zero);
    lemma_read_rules(t5, s.rules, rd, nonneg, half, one, zero);
    let t6 = apply_lines(t5, f, rd, nonneg, half, one, zero);
    lemma_read_own(t6, s.overrides, rd, nonneg, half, one, zero, show3, minus_one);
    let t7 = apply_lines(t6, g, rd, nonneg, half, one, zero);
    lemma_read_monitors(t7, s.monitors, rd, nonneg, half, one, zero);
    assert(t7.monitors + s.monitors =~= s.monitors);
}

/// The shader lines, whatever their numbers read as, set nothing but the
/// shader settings.
proof fn lemma_params_only<F>(
    t: SessionView<F>,
    ps: Seq<(Seq<char>, Seq<(Seq<char>, F)>)>,
    rd: spec_fn(Seq<char>) -> Option<F>,
    nonneg: spec_fn(F) -> bool,
    half: F,
    one: F,
    zero: F,
    show: spec_fn(F) -> Seq<char>,
)
    ensures
        ({
            let r = apply_lines(t, param_ls(ps, show), rd, nonneg, half, one, zero);
            r == SessionView { shader_params: r.shader_params, ..t }
        }),
    decreases ps.len(),
{
    if ps.len() > 0 {
        let rest = ps.drop_last();
        lemma_params_only(t, rest, rd, nonneg, half, one, zero, show);
        assert(param_ls(ps, show).drop_last() =~= param_ls(rest, show));
        let u = apply_lines(t, param_ls(rest, show), rd, nonneg, half, one, zero);
        let w = param_value(ps.last(), show);
        lemma_sparam_key(u, w, rd, nonneg, half, one, zero);
        assert(!"sparam"@.contains(' ')) by {
            lemma_reveal_keys();
        }
        lemma_split_key("sparam"@, w);
        assert(param_ls(ps, show).last() == line_of("sparam"@, w));
    }
}

#[verifier::spinoff_prover]
proof fn lemma_read_all_fields<F>(
    s: SessionView<F>,
    rd: spec_fn(Seq<char>) -> Option<F>,
    nonneg: spec_fn(F) -> bool,
    half: F,
    one: F,
    zero: F,
    show3: spec_fn(F) -> Seq<char>,
    show2: spec_fn(F) -> Seq<char>,
    show: spec_fn(F) -> Seq<char>,
    minus_one: F,
)
    requires
        fields_writable(s, rd, nonneg, show3, show2, show, minus_one, one, zero),
    ensures
        ({
            let r = apply_lines(empty_view(), written_lines(s, show3, show2, show, minus_one, one, zero), rd, nonneg, half, one, zero);
            r == SessionView {
                visual: r.visual,
                sound: r.sound,
                speed: r.speed,
                motion: r.motion,
                drift: r.drift,
                shader_params: r.shader_params,
                ..s
            }
        }),
{
    let a = first_lines(s, show3);
    let b = second_lines(s, show3, show2);
    let c = opt_line("apps"@, apps_value(s.apps));
    let d = scene_ls(s.scenes);
    let e = param_ls(s.shader_params, show);
    let f = opt_line("rules"@, rules_value(s.rules));
    let g = own_ls(s.overrides, show3, minus_one, one, zero);
    let h = monitor_ls(s.monitors);
    let e0: SessionView<F> = empty_view();
    lemma_apply_add(e0, a, b, rd, nonneg, half, one, zero);
    lemma_apply_add(e0, a + b, c, rd, nonneg, half, one, zero);
    lemma_apply_add(e0, a + b + c, d, rd, nonneg, half, one, zero);
    lemma_apply_add(e0, a + b + c + d, e, rd, nonneg, half, one, zero);
    lemma_apply_add(e0, a + b + c + d + e, f, rd, nonneg, half, one, zero);
    lemma_apply_add(e0, a + b + c + d + e + f, g, rd, nonneg, half, one, zero);
    lemma_apply_add(e0, a + b + c + d + e + f + g, h, rd, nonneg, half, one, zero);
    lemma_first_read_any(s, rd, nonneg, half, one, zero, show3);
    let t1 = apply_lines(e0, a, rd, nonneg, half, one, zero);
    lemma_second_read_any(t1, s, rd, nonneg, half, one, zero, show3, show2);
    let t2 = apply_lines(t1, b, rd, nonneg, half, one, zero);
    lemma_read_apps(t2, s.apps, rd, nonneg, half, one, zero);
    let t3 = apply_lines(t2, c, rd, nonneg, half, one, zero);
    lemma_read_scenes(t3, s.scenes, rd, nonneg, half, one, zero);
    let t4 = apply_lines(t3, d, rd, nonneg, half, one, zero);
    assert(t3.scenes + s.scenes =~= s.scenes);
    lemma_params_only(t4, s.shader_params, rd, nonneg, half, one, zero, show);
    let t5 = apply_lines(t4, e, rd, nonneg, half, one, zero);
    lemma_read_rules(t5, s.rules, rd, nonneg, half, one, zero);
    let t6 = apply_lines(t5, f, rd, nonneg, half, one, zero);
    lemma_read_own(t6, s.overrides, rd, nonneg, half, one, zero, show3, minus_one);
    let t7 = apply_lines(t6, g, rd, nonneg, half, one, zero);
    lemma_read_monitors(t7, s.monitors, rd, nonneg, half, one, zero);
    assert(t7.monitors + s.monitors =~= s.monitors);
}

/// Every line of a session stands on its own: written out and read back,
/// every setting that is not made of numbers (the frame rate, fit,
/// interval, shuffle, power policy, fade, span, hotkeys, hibernation,
/// memory budget, idle and busy settings, reduced motion, accent, the
/// applications, rules, scenes, per-monitor settings and monitors) comes
/// back as it was, whether or not the numbers beside it read back as
/// themselves. The numbers need only be written as single words
/// (`fields_writable`); what they read back as touches only their own
/// settings (the look, sound, speed, motion, drift and shader settings).
pub proof fn lemma_session_fields_round_trip<F>(
    s: SessionView<F>,
    rd: spec_fn(Seq<char>) -> Option<F>,
    nonneg: spec_fn(F) -> bool,
    half: F,
    one: F,
    zero: F,
    show3: spec_fn(F) -> Seq<char>,
    show2: spec_fn(F) -> Seq<char>,
    show: spec_fn(F) -> Seq<char>,
    minus_one: F,
)
    requires
        fields_writable(s, rd, nonneg, show3, show2, show, minus_one, one, zero),
    ensures
        ({
            let r = spec_parse(spec_written_form(s, show3, show2, show, minus_one, one, zero), rd, nonneg, half, one, zero);
            r == SessionView {
                visual: r.visual,
                sound: r.sound,
                speed: r.speed,
                motion: r.motion,
                drift: r.drift,
                shader_params: r.shader_params,
                ..s
            }
        }),
{
    let w = written_lines(s, show3, show2, show, minus_one, one, zero);
    lemma_written_text(s, show3, show2, show, minus_one, one, zero);
    lemma_written_one_line(s, rd, nonneg, show3, show2, show, minus_one, one, zero);
    lemma_lines_unlines(w);
    lemma_read_lines_apply(w, rd, nonneg, half, one, zero);
    lemma_read_all_fields(s, rd, nonneg, half, one, zero, show3, show2, show, minus_one);
}

/// A session written out and read back is the session it was: every
/// setting, list and monitor comes back as it was written down, and each
/// shader comes back with the same settings, in name order rather than the
/// order they were set in. This holds for every session whose values can
/// be written (`session_writable`), and for any reading and writing of
/// numbers that read back what they write.
pub proof fn lemma_session_round_trip<F>(
    s: SessionView<F>,
    rd: spec_fn(Seq<char>) -> Option<F>,
    nonneg: spec_fn(F) -> bool,
    half: F,
    one: F,
    zero: F,
    show3: spec_fn(F) -> Seq<char>,
    show2: spec_fn(F) -> Seq<char>,
    show: spec_fn(F) -> Seq<char>,
    minus_one: F,
)
    requires
        session_writable(s, rd, nonneg, show3, show2, show, minus_one, one, zero),
    ensures
        ({
            let r = spec_parse(spec_written_form(s, show3, show2, show, minus_one, one, zero), rd, nonneg, half, one, zero);
            &&& r == SessionView { shader_params: r.shader_params, ..s }
            &&& r.shader_params.len() == s.shader_params.len()
            &&& forall|i: int|
                0 <= i < s.shader_params.len() ==> (#[trigger] r.shader_params[i]).0 == s.shader_params[i].0
                    && same_settings(r.shader_params[i].1, s.shader_params[i].1)
        }),
{
    let w = written_lines(s, show3, show2, show, minus_one, one, zero);
    lemma_written_text(s, show3, show2, show, minus_one, one, zero);
    lemma_writable_fields(s, rd, nonneg, show3, show2, show, minus_one, one, zero);
    lemma_written_one_line(s, rd, nonneg, show3, show2, show, minus_one, one, zero);
    lemma_lines_unlines(w);
    lemma_read_lines_apply(w, rd, nonneg, half, one, zero);
    lemma_read_all(s, rd, nonneg, half, one, zero, show3, show2, show, minus_one);
}

} // verus!

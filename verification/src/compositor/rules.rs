//! Wallpapers that change themselves.
//!
//! Two triggers: a time of day, and the Windows theme. Time rules are start
//! times, not ranges: whichever one started most recently is the one in
//! force, so a pair of them (07:00 and 20:00) means "day and night" with no
//! way to leave a gap by mistake. A theme rule beats a time rule.

use vstd::prelude::*;

use crate::text::{
    chars_of, decimal, decimal_vec, is_ws, join, keep_nonempty, lemma_concat_free,
    lemma_decimal_len, lemma_join_free, lemma_join_last, lemma_keep_nonempty_all,
    lemma_keep_nonempty_from, lemma_keep_nonempty_push, lemma_parse_decimal, lemma_split_join,
    lemma_split_pieces, lemma_split_step, lemma_trim_start_keeps_nonspace, parse_unsigned,
    parse_unsigned_vec, push_chars, push_joined, slice_of, split, split_vec, string_of,
    string_views, trim, trim_end, trim_start, trim_vec, views,
};

verus! {

/// What makes a rule apply.
#[derive(Debug, Clone, Copy, PartialEq, Eq, Structural)]
pub enum Trigger {
    /// Minutes since midnight, local time.
    Time(u32),
    /// True for the dark Windows theme.
    Theme(bool),
}

/// One rule: when, and what to put on every screen.
#[derive(Debug, Clone, PartialEq, Eq)]
pub struct Rule {
    pub trigger: Trigger,
    pub items: Vec<String>,
}

/// A rule as plain values.
pub open spec fn rule_view(r: Rule) -> (Trigger, Seq<Seq<char>>) {
    (r.trigger, string_views(r.items@))
}

pub open spec fn rules_view(rs: Seq<Rule>) -> Seq<(Trigger, Seq<Seq<char>>)> {
    rs.map_values(|r: Rule| rule_view(r))
}

// ---------------------------------------------------------------------------
// Which rule is in force
// ---------------------------------------------------------------------------

/// The first theme rule for `dark`, if there is one.
pub open spec fn first_theme(rules: Seq<Rule>, dark: bool) -> Option<int>
    decreases rules.len(),
{
    if rules.len() == 0 {
        None
    } else if rules[0].trigger == Trigger::Theme(dark) {
        Some(0)
    } else {
        match first_theme(rules.drop_first(), dark) {
            Some(i) => Some(i + 1),
            None => None,
        }
    }
}

pub open spec fn time_of(r: Rule) -> u32 {
    match r.trigger {
        Trigger::Time(at) => at,
        Trigger::Theme(_) => 0,
    }
}

/// Among the first `k` rules, the time rule starting latest at or before
/// `limit` (any time, for no limit); of equally late ones, the last.
pub open spec fn latest_upto(rules: Seq<Rule>, k: nat, limit: Option<u32>) -> Option<int>
    decreases k,
{
    if k == 0 || k > rules.len() {
        None
    } else {
        let prev = latest_upto(rules, (k - 1) as nat, limit);
        match rules[k - 1].trigger {
            Trigger::Time(at) => if (limit matches Some(l) ==> at <= l) && (prev matches Some(p)
                ==> at >= time_of(rules[p])) {
                Some(k - 1)
            } else {
                prev
            },
            Trigger::Theme(_) => prev,
        }
    }
}

/// Which rule is in force: a theme rule matching the desktop's theme, or
/// else the time rule that started most recently today, or else (before
/// the first rule of the day) the one that started last night.
pub open spec fn spec_choose(rules: Seq<Rule>, now_minutes: u32, dark: Option<bool>) -> Option<int> {
    let theme = match dark {
        Some(d) => first_theme(rules, d),
        None => None,
    };
    match theme {
        Some(i) => Some(i),
        None => match latest_upto(rules, rules.len(), Some(now_minutes)) {
            Some(i) => Some(i),
            None => latest_upto(rules, rules.len(), None),
        },
    }
}

/// What `latest_upto` picks: a time rule within the limit that no other
/// time rule within the limit starts after.
pub proof fn lemma_latest(rules: Seq<Rule>, k: nat, limit: Option<u32>)
    requires
        k <= rules.len(),
    ensures
        match latest_upto(rules, k, limit) {
            Some(i) => {
                &&& 0 <= i < k
                &&& rules[i].trigger is Time
                &&& (limit matches Some(l) ==> time_of(rules[i]) <= l)
                &&& forall|j: int|
                    0 <= j < k && (#[trigger] rules[j]).trigger is Time && (limit matches Some(l)
                        ==> time_of(rules[j]) <= l) ==> time_of(rules[j]) <= time_of(rules[i])
            },
            None => forall|j: int|
                0 <= j < k && (#[trigger] rules[j]).trigger is Time ==> (limit matches Some(l)
                    && time_of(rules[j]) > l),
        },
    decreases k,
{
    if k > 0 {
        lemma_latest(rules, (k - 1) as nat, limit);
    }
}

/// Whether a theme rule matches the desktop's theme.
pub open spec fn theme_matches(rules: Seq<Rule>, dark: Option<bool>) -> bool {
    dark matches Some(d) && exists|j: int|
        0 <= j < rules.len() && (#[trigger] rules[j]).trigger == Trigger::Theme(d)
}

/// Whether some time rule exists at all.
pub open spec fn has_time_rule(rules: Seq<Rule>) -> bool {
    exists|j: int| 0 <= j < rules.len() && (#[trigger] rules[j]).trigger is Time
}

/// Whether some time rule has started by `now_minutes`.
pub open spec fn started_by(rules: Seq<Rule>, now_minutes: u32) -> bool {
    exists|j: int|
        0 <= j < rules.len() && (#[trigger] rules[j]).trigger is Time && time_of(rules[j])
            <= now_minutes
}

/// The rule in force, when no theme rule matches, is a time rule, and there
/// is one whenever any time rule exists. Once a rule has started today, it is
/// the one that started most recently; before the first rule of the day, it
/// is the rule that starts latest in the day (the one that began last night).
pub proof fn lemma_choose_in_force(rules: Seq<Rule>, now_minutes: u32, dark: Option<bool>)
    ensures
        spec_choose(rules, now_minutes, dark) matches Some(i) ==> 0 <= i < rules.len(),
        !theme_matches(rules, dark) ==> (spec_choose(rules, now_minutes, dark) is Some
            <==> has_time_rule(rules)),
        !theme_matches(rules, dark) && started_by(rules, now_minutes) ==> (spec_choose(
            rules,
            now_minutes,
            dark,
        ) matches Some(i) && rules[i].trigger is Time && time_of(rules[i]) <= now_minutes
            && forall|j: int|
            0 <= j < rules.len() && (#[trigger] rules[j]).trigger is Time && time_of(rules[j])
                <= now_minutes ==> time_of(rules[j]) <= time_of(rules[i])),
        !theme_matches(rules, dark) && !started_by(rules, now_minutes) ==> (spec_choose(
            rules,
            now_minutes,
            dark,
        ) matches Some(i) ==> rules[i].trigger is Time && forall|j: int|
            0 <= j < rules.len() && (#[trigger] rules[j]).trigger is Time ==> time_of(rules[j])
                <= time_of(rules[i])),
{
    lemma_latest(rules, rules.len(), Some(now_minutes));
    lemma_latest(rules, rules.len(), None);
    if let Some(d) = dark {
        lemma_first_theme_is_theme(rules, d);
        if !theme_matches(rules, dark) {
            if let Some(i) = first_theme(rules, d) {
                assert(rules[i].trigger == Trigger::Theme(d));
            }
        }
    }
    if !has_time_rule(rules) {
        if let Some(i) = latest_upto(rules, rules.len(), None) {
            assert(rules[i].trigger is Time);
        }
    }
    if has_time_rule(rules) {
        let j = choose|j: int| 0 <= j < rules.len() && (#[trigger] rules[j]).trigger is Time;
        assert(rules[j].trigger is Time);
    }
    if started_by(rules, now_minutes) {
        let j = choose|j: int|
            0 <= j < rules.len() && (#[trigger] rules[j]).trigger is Time && time_of(rules[j])
                <= now_minutes;
        assert(rules[j].trigger is Time);
    }
}

fn first_theme_exec(rules: &[Rule], dark: bool) -> (r: Option<usize>)
    ensures
        match r {
            Some(i) => first_theme(rules@, dark) == Some(i as int),
            None => first_theme(rules@, dark) is None,
        },
{
    let mut i: usize = 0;
    while i < rules.len()
        invariant
            i <= rules@.len(),
            forall|j: int| 0 <= j < i ==> (#[trigger] rules@[j]).trigger != Trigger::Theme(dark),
        decreases rules@.len() - i,
    {
        if rules[i].trigger == Trigger::Theme(dark) {
            proof {
                lemma_first_theme_at(rules@, dark, i as int);
            }
            return Some(i);
        }
        i = i + 1;
    }
    proof {
        lemma_first_theme_none(rules@, dark);
    }
    None
}

proof fn lemma_first_theme_at(rules: Seq<Rule>, dark: bool, i: int)
    requires
        0 <= i < rules.len(),
        rules[i].trigger == Trigger::Theme(dark),
        forall|j: int| 0 <= j < i ==> (#[trigger] rules[j]).trigger != Trigger::Theme(dark),
    ensures
        first_theme(rules, dark) == Some(i),
    decreases i,
{
    if i > 0 {
        let rest = rules.drop_first();
        assert(rules[0].trigger != Trigger::Theme(dark));
        assert forall|j: int| 0 <= j < i - 1 implies (#[trigger] rest[j]).trigger != Trigger::Theme(
            dark,
        ) by {
            assert(rest[j] == rules[j + 1]);
        }
        lemma_first_theme_at(rest, dark, i - 1);
    }
}

proof fn lemma_first_theme_none(rules: Seq<Rule>, dark: bool)
    requires
        forall|j: int| 0 <= j < rules.len() ==> (#[trigger] rules[j]).trigger != Trigger::Theme(dark),
    ensures
        first_theme(rules, dark) is None,
    decreases rules.len(),
{
    if rules.len() > 0 {
        let rest = rules.drop_first();
        assert(rules[0].trigger != Trigger::Theme(dark));
        assert forall|j: int| 0 <= j < rest.len() implies (#[trigger] rest[j]).trigger
            != Trigger::Theme(dark) by {
            assert(rest[j] == rules[j + 1]);
        }
        lemma_first_theme_none(rest, dark);
    }
}

fn latest_exec(rules: &[Rule], limit: Option<u32>) -> (r: Option<usize>)
    ensures
        match r {
            Some(i) => latest_upto(rules@, rules@.len(), limit) == Some(i as int),
            None => latest_upto(rules@, rules@.len(), limit) is None,
        },
{
    let mut best: Option<usize> = None;
    let mut best_at: u32 = 0;
    let mut k: usize = 0;
    while k < rules.len()
        invariant
            k <= rules@.len(),
            match best {
                Some(i) => latest_upto(rules@, k as nat, limit) == Some(i as int) && i < k
                    && best_at == time_of(rules@[i as int]),
                None => latest_upto(rules@, k as nat, limit) is None,
            },
        decreases rules@.len() - k,
    {
        match rules[k].trigger {
            Trigger::Time(at) => {
                let within = match limit {
                    Some(l) => at <= l,
                    None => true,
                };
                let later = match best {
                    Some(_) => at >= best_at,
                    None => true,
                };
                if within && later {
                    best = Some(k);
                    best_at = at;
                }
            },
            Trigger::Theme(_) => {},
        }
        k = k + 1;
    }
    best
}

/// Which rule is in force, given the clock and the theme.
///
/// `None` means the user's own choice stands: there are no rules that
/// apply. Before the first time rule of the day, the latest rule of the day
/// wins, because it ran the day before and nothing has changed since.
pub fn rule_in_force(rules: &[Rule], now_minutes: u32, dark: Option<bool>) -> (r: Option<&Rule>)
    ensures
        match spec_choose(rules@, now_minutes, dark) {
            Some(i) => 0 <= i < rules@.len() && (r matches Some(x) && *x == rules@[i]),
            None => r is None,
        },
        // A theme rule matching the desktop beats every time rule.
        (dark matches Some(d) && exists|j: int|
            0 <= j < rules@.len() && (#[trigger] rules@[j]).trigger == Trigger::Theme(d)) ==> (r matches Some(
            x) && x.trigger == Trigger::Theme(dark->0)),
        // Otherwise the most recent start at or before now is in force.
        r matches Some(x) ==> (x.trigger is Time && time_of(*x) <= now_minutes ==> forall|j: int|
            0 <= j < rules@.len() && (#[trigger] rules@[j]).trigger is Time && time_of(rules@[j])
                <= now_minutes ==> time_of(rules@[j]) <= time_of(*x)),
        // What is in force is one of the rules.
        r matches Some(x) ==> exists|i: int| 0 <= i < rules@.len() && *x == #[trigger] rules@[i],
        // With no theme rule matching, some rule is in force exactly when a
        // time rule exists.
        !theme_matches(rules@, dark) ==> (r is Some <==> has_time_rule(rules@)),
        // Once a time rule has started today, the latest such start wins.
        !theme_matches(rules@, dark) && started_by(rules@, now_minutes) ==> (r matches Some(x)
            && x.trigger is Time && time_of(*x) <= now_minutes),
        // Before the first rule of the day, the rule starting latest in the
        // day (last night's) stays in force.
        !theme_matches(rules@, dark) && !started_by(rules@, now_minutes) ==> (r matches Some(x)
            ==> x.trigger is Time && forall|j: int|
            0 <= j < rules@.len() && (#[trigger] rules@[j]).trigger is Time ==> time_of(rules@[j])
                <= time_of(*x)),
{
    proof {
        lemma_choose_in_force(rules@, now_minutes, dark);
    }
    proof {
        lemma_latest(rules@, rules@.len(), Some(now_minutes));
        lemma_latest(rules@, rules@.len(), None);
        if let Some(d) = dark {
            if exists|j: int| 0 <= j < rules@.len() && (#[trigger] rules@[j]).trigger == Trigger::Theme(d) {
                if first_theme(rules@, d) is None {
                    let j = choose|j: int| 0 <= j < rules@.len() && (#[trigger] rules@[j]).trigger == Trigger::Theme(d);
                    lemma_first_theme_some(rules@, d, j);
                }
            }
            lemma_first_theme_is_theme(rules@, d);
        }
    }
    if let Some(dark) = dark {
        if let Some(i) = first_theme_exec(rules, dark) {
            return Some(&rules[i]);
        }
    }
    match latest_exec(rules, Some(now_minutes)) {
        Some(i) => Some(&rules[i]),
        None => match latest_exec(rules, None) {
            Some(i) => {
                proof {
                    // Nothing started at or before now, so the rule picked
                    // here started later in the day.
                    assert(rules@[i as int].trigger is Time);
                }
                Some(&rules[i])
            },
            None => None,
        },
    }
}

proof fn lemma_first_theme_some(rules: Seq<Rule>, dark: bool, j: int)
    requires
        0 <= j < rules.len(),
        rules[j].trigger == Trigger::Theme(dark),
    ensures
        first_theme(rules, dark) is Some,
    decreases rules.len(),
{
    if rules[0].trigger != Trigger::Theme(dark) {
        let rest = rules.drop_first();
        assert(rest[j - 1] == rules[j]);
        lemma_first_theme_some(rest, dark, j - 1);
    }
}

proof fn lemma_first_theme_is_theme(rules: Seq<Rule>, dark: bool)
    ensures
        first_theme(rules, dark) matches Some(i) ==> 0 <= i < rules.len() && rules[i].trigger
            == Trigger::Theme(dark),
    decreases rules.len(),
{
    if rules.len() > 0 && rules[0].trigger != Trigger::Theme(dark) {
        let rest = rules.drop_first();
        lemma_first_theme_is_theme(rest, dark);
        if let Some(i) = first_theme(rest, dark) {
            assert(rest[i] == rules[i + 1]);
        }
    }
}

// ---------------------------------------------------------------------------
// The written form
// ---------------------------------------------------------------------------

/// One rule as the settings window and the session file write it:
/// `t<minutes>|<path>|<path>` or `d<0|1>|<path>...`.
pub open spec fn spec_parse_one(entry: Seq<char>) -> Option<(Trigger, Seq<Seq<char>>)> {
    let parts = split(trim(entry), '|');
    let head = parts[0];
    let items = keep_nonempty(parts.drop_first());
    if head.len() == 0 {
        None
    } else {
        let trigger = if head[0] == 't' {
            match parse_unsigned(head.skip(1), u32::MAX as nat) {
                Some(m) => if m < 24 * 60 {
                    Some(Trigger::Time(m as u32))
                } else {
                    None
                },
                None => None,
            }
        } else if head[0] == 'd' {
            Some(Trigger::Theme(head.skip(1) == seq!['1']))
        } else {
            None
        };
        match trigger {
            // A rule with nothing to show is not a rule.
            Some(t) => if items.len() > 0 {
                Some((t, items))
            } else {
                None
            },
            None => None,
        }
    }
}

/// The rules read from a list of entries, malformed ones skipped.
pub open spec fn parse_entries(entries: Seq<Seq<char>>) -> Seq<(Trigger, Seq<Seq<char>>)>
    decreases entries.len(),
{
    if entries.len() == 0 {
        Seq::empty()
    } else {
        let rest = parse_entries(entries.drop_last());
        match spec_parse_one(entries.last()) {
            Some(r) => rest.push(r),
            None => rest,
        }
    }
}

/// Rules separated by `;`.
pub open spec fn spec_parse(text: Seq<char>) -> Seq<(Trigger, Seq<Seq<char>>)> {
    parse_entries(split(text, ';'))
}

pub open spec fn head_of(t: Trigger) -> Seq<char> {
    match t {
        Trigger::Time(at) => seq!['t'] + decimal(at as nat),
        Trigger::Theme(dark) => seq!['d', if dark { '1' } else { '0' }],
    }
}

pub open spec fn entry_of(r: (Trigger, Seq<Seq<char>>)) -> Seq<char> {
    head_of(r.0) + seq!['|'] + join(r.1, seq!['|'])
}

/// Each rule's entry.
pub open spec fn entries_of(rules: Seq<(Trigger, Seq<Seq<char>>)>) -> Seq<Seq<char>> {
    rules.map_values(|r: (Trigger, Seq<Seq<char>>)| entry_of(r))
}

/// The written form `parse` reads back.
pub open spec fn spec_written_form(rules: Seq<(Trigger, Seq<Seq<char>>)>) -> Seq<char> {
    join(entries_of(rules), seq![';'])
}

/// A rule that survives being written and read back: a time within the
/// day, at least one wallpaper, and paths that are not empty, hold neither
/// separator, and do not end in whitespace.
pub open spec fn writable(r: (Trigger, Seq<Seq<char>>)) -> bool {
    &&& (r.0 matches Trigger::Time(at) ==> at < 24 * 60)
    &&& r.1.len() > 0
    &&& forall|i: int|
        0 <= i < r.1.len() ==> {
            &&& (#[trigger] r.1[i]).len() > 0
            &&& !r.1[i].contains('|')
            &&& !r.1[i].contains(';')
            &&& !is_ws(r.1[i].last())
        }
}

/// What `parse` promises of every rule it returns.
pub open spec fn well_formed(r: (Trigger, Seq<Seq<char>>)) -> bool {
    &&& (r.0 matches Trigger::Time(at) ==> at < 24 * 60)
    &&& r.1.len() > 0
    &&& forall|i: int| 0 <= i < r.1.len() ==> (#[trigger] r.1[i]).len() > 0 && !r.1[i].contains('|')
}

proof fn lemma_head_free(t: Trigger)
    ensures
        !head_of(t).contains('|'),
        !head_of(t).contains(';'),
        head_of(t).len() > 0,
        !is_ws(head_of(t)[0]),
{
    match t {
        Trigger::Time(at) => {
            lemma_decimal_len(at as nat);
            let d = decimal(at as nat);
            assert forall|i: int| 0 <= i < head_of(t).len() implies head_of(t)[i] != '|' && head_of(
                t,
            )[i] != ';' by {
                if i > 0 {
                    assert(head_of(t)[i] == d[i - 1]);
                    assert(crate::text::is_digit(d[i - 1]));
                }
            }
        },
        Trigger::Theme(_) => {},
    }
}

proof fn lemma_parse_entry(r: (Trigger, Seq<Seq<char>>))
    requires
        writable(r),
    ensures
        spec_parse_one(entry_of(r)) == Some(r),
        !entry_of(r).contains(';'),
{
    let head = head_of(r.0);
    let body = join(r.1, seq!['|']);
    let e = entry_of(r);
    lemma_head_free(r.0);
    assert forall|i: int| 0 <= i < r.1.len() implies !(#[trigger] r.1[i]).contains('|') by {}
    assert forall|i: int| 0 <= i < r.1.len() implies !(#[trigger] r.1[i]).contains(';') by {}
    assert forall|i: int| 0 <= i < r.1.len() implies (#[trigger] r.1[i]).len() > 0 by {}
    // No `;` anywhere in the entry.
    lemma_join_free(r.1, seq!['|'], ';');
    lemma_concat_free(head, seq!['|'], ';');
    lemma_concat_free(head + seq!['|'], body, ';');
    // Trimming leaves it alone.
    lemma_join_last(r.1, seq!['|']);
    assert(e[0] == head[0]);
    assert(e.last() == body.last());
    assert(!is_ws(r.1.last().last()));
    lemma_trim_start_keeps_nonspace(e);
    assert(trim(e) == e);
    // The pieces are the head and the paths.
    lemma_split_step(head, '|', body);
    lemma_split_join(r.1, '|');
    let parts = split(e, '|');
    assert(parts == seq![head] + r.1);
    assert(parts[0] == head);
    assert(parts.drop_first() =~= r.1);
    lemma_keep_nonempty_all(r.1);
    match r.0 {
        Trigger::Time(at) => {
            assert(head.skip(1) =~= decimal(at as nat));
            lemma_parse_decimal(at as nat, u32::MAX as nat);
        },
        Trigger::Theme(dark) => {
            assert(head.skip(1) =~= seq![if dark { '1' } else { '0' }]);
            if !dark {
                assert(seq!['0'] != seq!['1']) by {
                    assert(seq!['0'][0] != seq!['1'][0]);
                }
            }
        },
    }
}

proof fn lemma_parse_entries(rules: Seq<(Trigger, Seq<Seq<char>>)>)
    requires
        forall|i: int| 0 <= i < rules.len() ==> writable(#[trigger] rules[i]),
    ensures
        parse_entries(entries_of(rules)) == rules,
    decreases rules.len(),
{
    if rules.len() > 0 {
        let es = entries_of(rules);
        assert(es.drop_last() =~= entries_of(rules.drop_last()));
        lemma_parse_entries(rules.drop_last());
        lemma_parse_entry(rules.last());
        assert(rules.drop_last().push(rules.last()) =~= rules);
    }
}

/// Rules come back from their written form as they were, as long as each
/// can be written: a time within the day, at least one wallpaper, and paths
/// that are not empty, hold no separator and do not end in whitespace.
pub proof fn lemma_rules_round_trip(rules: Seq<(Trigger, Seq<Seq<char>>)>)
    requires
        forall|i: int| 0 <= i < rules.len() ==> writable(#[trigger] rules[i]),
    ensures
        spec_parse(spec_written_form(rules)) == rules,
{
    let es = entries_of(rules);
    if rules.len() == 0 {
        assert(es.len() == 0);
        assert(spec_written_form(rules) == Seq::<char>::empty());
        lemma_split_absent_empty();
        assert(split(Seq::<char>::empty(), ';') == seq![Seq::<char>::empty()]);
        assert(seq![Seq::<char>::empty()].drop_last() =~= Seq::<Seq<char>>::empty());
        assert(spec_parse_one(Seq::<char>::empty()) is None) by {
            lemma_split_absent_empty_bar();
        }
        let sp = split(Seq::<char>::empty(), ';');
        assert(parse_entries(sp) == parse_entries(sp.drop_last()));
        assert(parse_entries(sp.drop_last()) == Seq::<(Trigger, Seq<Seq<char>>)>::empty());
        assert(rules =~= Seq::<(Trigger, Seq<Seq<char>>)>::empty());
    } else {
        assert forall|i: int| 0 <= i < es.len() implies !(#[trigger] es[i]).contains(';') by {
            lemma_parse_entry(rules[i]);
        }
        lemma_split_join(es, ';');
        lemma_parse_entries(rules);
        assert(split(spec_written_form(rules), ';') == es);
    }
}

proof fn lemma_split_absent_empty()
    ensures
        split(Seq::<char>::empty(), ';') == seq![Seq::<char>::empty()],
{
    crate::text::lemma_split_absent(Seq::<char>::empty(), ';');
}

proof fn lemma_split_absent_empty_bar()
    ensures
        split(trim(Seq::<char>::empty()), '|')[0].len() == 0,
{
    assert(trim(Seq::<char>::empty()) =~= Seq::<char>::empty());
    crate::text::lemma_split_absent(Seq::<char>::empty(), '|');
}

/// Parsing one entry of the list.
fn parse_one_chars(entry: &[char]) -> (r: Option<Rule>)
    ensures
        match r {
            Some(x) => spec_parse_one(entry@) == Some(rule_view(x)),
            None => spec_parse_one(entry@) is None,
        },
{
    let t = trim_vec(entry);
    let parts = split_vec(t.as_slice(), '|');
    let ghost ps = split(trim(entry@), '|');
    assert(ps[0] == parts@[0]@);
    let head = &parts[0];
    if head.len() == 0 {
        return None;
    }
    let value = slice_of(head.as_slice(), 1, head.len());
    assert(value@ =~= ps[0].skip(1));
    let trigger = if head[0] == 't' {
        match parse_unsigned_vec(value.as_slice(), u32::MAX as u64) {
            Some(m) => {
                if m < 24 * 60 {
                    Trigger::Time(m as u32)
                } else {
                    return None;
                }
            },
            None => {
                return None;
            },
        }
    } else if head[0] == 'd' {
        let one = value.len() == 1 && value[0] == '1';
        proof {
            if one {
                assert(value@ =~= seq!['1']);
            }
            if value@ == seq!['1'] {
                assert(value@[0] == '1');
            }
        }
        Trigger::Theme(one)
    } else {
        return None;
    };
    let mut items: Vec<String> = Vec::new();
    let mut i: usize = 1;
    assert(ps.drop_first().take(0) =~= Seq::<Seq<char>>::empty());
    while i < parts.len()
        invariant
            1 <= i <= parts@.len(),
            views(parts@) == ps,
            string_views(items@) == keep_nonempty(ps.drop_first().take(i - 1)),
        decreases parts@.len() - i,
    {
        let p = &parts[i];
        proof {
            assert(ps.drop_first().take(i as int) =~= ps.drop_first().take(i - 1).push(p@));
            lemma_keep_nonempty_push(ps.drop_first().take(i - 1), p@);
        }
        if p.len() > 0 {
            let ghost before = items@;
            items.push(string_of(p.as_slice()));
            assert(string_views(items@) =~= string_views(before).push(p@));
        }
        i = i + 1;
    }
    assert(ps.drop_first().take(i - 1) =~= ps.drop_first());
    if items.len() == 0 {
        return None;
    }
    Some(Rule { trigger, items })
}

/// Parse one entry: `t<minutes>|<path>...` or `d<0|1>|<path>...`.
pub fn parse_one(entry: &str) -> (r: Option<Rule>)
    ensures
        match r {
            Some(x) => spec_parse_one(entry@) == Some(rule_view(x)),
            None => spec_parse_one(entry@) is None,
        },
{
    let v = chars_of(entry);
    parse_one_chars(v.as_slice())
}

/// `t<minutes>|<path>|<path>` or `d<0|1>|<path>...`, rules separated by
/// `;`. Malformed entries are skipped rather than fatal.
pub fn parse(text: &str) -> (rules: Vec<Rule>)
    ensures
        rules_view(rules@) == spec_parse(text@),
        // Every rule read has a time within the day and something to show.
        forall|i: int| 0 <= i < rules@.len() ==> well_formed(#[trigger] rules_view(rules@)[i]),
{
    let v = chars_of(text);
    let entries = split_vec(v.as_slice(), ';');
    let ghost es = split(text@, ';');
    let mut out: Vec<Rule> = Vec::new();
    let mut i: usize = 0;
    assert(es.take(0) =~= Seq::<Seq<char>>::empty());
    assert(rules_view(out@) =~= Seq::<(Trigger, Seq<Seq<char>>)>::empty());
    while i < entries.len()
        invariant
            i <= entries@.len(),
            views(entries@) == es,
            rules_view(out@) == parse_entries(es.take(i as int)),
            forall|j: int| 0 <= j < out@.len() ==> well_formed(#[trigger] rules_view(out@)[j]),
        decreases entries@.len() - i,
    {
        let parsed = parse_one_chars(entries[i].as_slice());
        proof {
            assert(es.take(i + 1).drop_last() =~= es.take(i as int));
            assert(es.take(i + 1).last() == entries@[i as int]@);
        }
        match parsed {
            Some(rule) => {
                proof {
                    lemma_parse_one_well_formed(entries@[i as int]@);
                }
                let ghost before = out@;
                out.push(rule);
                assert(rules_view(out@) =~= rules_view(before).push(rule_view(rule)));
            },
            None => {},
        }
        i = i + 1;
    }
    assert(es.take(i as int) =~= es);
    out
}

proof fn lemma_parse_one_well_formed(entry: Seq<char>)
    ensures
        spec_parse_one(entry) matches Some(r) ==> well_formed(r),
{
    let parts = split(trim(entry), '|');
    crate::text::lemma_split_len(trim(entry), '|');
    lemma_split_pieces(trim(entry), '|');
    lemma_keep_nonempty_from(parts.drop_first());
    let items = keep_nonempty(parts.drop_first());
    assert forall|i: int| 0 <= i < items.len() implies (#[trigger] items[i]).len() > 0 && !items[i].contains('|') by {
        assert(parts.drop_first().contains(items[i]));
        let k = choose|k: int| 0 <= k < parts.drop_first().len() && parts.drop_first()[k] == items[i];
        assert(parts[k + 1] == items[i]);
    }
}

} // verus!

verus! {

fn entry_chars(rule: &Rule) -> (r: Vec<char>)
    ensures
        r@ == entry_of(rule_view(*rule)),
{
    let mut e: Vec<char> = Vec::new();
    match rule.trigger {
        Trigger::Time(at) => {
            e.push('t');
            let d = decimal_vec(at as u64);
            let mut k: usize = 0;
            while k < d.len()
                invariant
                    k <= d@.len(),
                    e@ == seq!['t'] + d@.take(k as int),
                decreases d@.len() - k,
            {
                e.push(d[k]);
                k = k + 1;
                assert(e@ =~= seq!['t'] + d@.take(k as int));
            }
            assert(d@.take(k as int) =~= d@);
        },
        Trigger::Theme(dark) => {
            e.push('d');
            e.push(if dark { '1' } else { '0' });
            assert(e@ =~= seq!['d', if dark { '1' } else { '0' }]);
        },
    }
    let ghost head = e@;
    e.push('|');
    let items = crate::text::chars_of_all(rule.items.as_slice());
    let bar = ['|'];
    assert(bar@ =~= seq!['|']);
    let body = crate::text::joined(&items, bar.as_slice());
    let mut k: usize = 0;
    let ghost base = e@;
    while k < body.len()
        invariant
            k <= body@.len(),
            e@ == base + body@.take(k as int),
        decreases body@.len() - k,
    {
        e.push(body[k]);
        k = k + 1;
        assert(e@ =~= base + body@.take(k as int));
    }
    assert(body@.take(k as int) =~= body@);
    assert(e@ =~= head + seq!['|'] + body@);
    e
}

/// The written form `parse` reads back.
pub fn written_form(rules: &[Rule]) -> (text: String)
    ensures
        text@ == spec_written_form(rules_view(rules@)),
{
    let mut entries: Vec<Vec<char>> = Vec::new();
    let mut i: usize = 0;
    while i < rules.len()
        invariant
            i <= rules@.len(),
            views(entries@) == entries_of(rules_view(rules@.take(i as int))),
        decreases rules@.len() - i,
    {
        let e = entry_chars(&rules[i]);
        let ghost before = entries@;
        entries.push(e);
        assert(views(entries@) =~= views(before).push(e@));
        assert(entries_of(rules_view(rules@.take(i + 1))) =~= entries_of(rules_view(rules@.take(i as int))).push(entry_of(rule_view(rules@[i as int]))));
        i = i + 1;
    }
    assert(rules@.take(i as int) =~= rules@);
    let mut out = String::new();
    let semi = [';'];
    assert(semi@ =~= seq![';']);
    push_joined(&mut out, &entries, semi.as_slice());
    out
}

} // verus!

//! The desktop as the monitors make it up: the rectangle around all of
//! them, the one Windows calls primary, and the layout as a comparable list.

use vstd::prelude::*;

use super::render::Rect;
use crate::caps::{AdapterInfo, GpuProfile, MonitorInfo};
use crate::text::chars_of;

verus! {

broadcast use vstd::string::group_string_axioms;

/// Every output of every adapter, adapter by adapter.
pub open spec fn all_outputs(adapters: Seq<AdapterInfo>) -> Seq<MonitorInfo>
    decreases adapters.len(),
{
    if adapters.len() == 0 {
        Seq::empty()
    } else {
        all_outputs(adapters.drop_last()) + adapters.last().outputs@
    }
}

/// How far a monitor reaches to the right and down, with its size taken as
/// an `i32` the way the bounds arithmetic takes it.
pub open spec fn right_of(m: MonitorInfo) -> int {
    m.x + (m.width as i32)
}

pub open spec fn bottom_of(m: MonitorInfo) -> int {
    m.y + (m.height as i32)
}

pub open spec fn min_int(a: int, b: int) -> int {
    if b < a {
        b
    } else {
        a
    }
}

pub open spec fn max_int(a: int, b: int) -> int {
    if b > a {
        b
    } else {
        a
    }
}

/// Left, top, right and bottom of the smallest rectangle containing every
/// monitor of a non-empty list.
pub open spec fn extent(ms: Seq<MonitorInfo>) -> (int, int, int, int)
    decreases ms.len(),
{
    if ms.len() <= 1 {
        (ms[0].x as int, ms[0].y as int, right_of(ms[0]), bottom_of(ms[0]))
    } else {
        let (l, t, r, b) = extent(ms.drop_last());
        let m = ms.last();
        (min_int(l, m.x as int), min_int(t, m.y as int), max_int(r, right_of(m)), max_int(
            b,
            bottom_of(m),
        ))
    }
}

/// Whether the bounds of these adapters' monitors can be worked out in
/// `i32` without overflowing.
pub open spec fn bounds_fit(adapters: Seq<AdapterInfo>) -> bool {
    &&& forall|i: int, j: int|
        0 <= i < adapters.len() && 0 <= j < adapters[i].outputs@.len() ==> {
            let m = #[trigger] adapters[i].outputs@[j];
            &&& i32::MIN <= right_of(m) <= i32::MAX
            &&& i32::MIN <= bottom_of(m) <= i32::MAX
        }
    &&& all_outputs(adapters).len() > 0 ==> {
        let (l, t, r, b) = extent(all_outputs(adapters));
        &&& i32::MIN <= r - l <= i32::MAX
        &&& i32::MIN <= b - t <= i32::MAX
    }
}

/// The smallest rectangle containing every monitor, or an empty one at the
/// origin when there is none.
pub open spec fn spec_desktop_bounds(adapters: Seq<AdapterInfo>) -> (int, int, int, int) {
    let ms = all_outputs(adapters);
    if ms.len() == 0 {
        (0, 0, 0, 0)
    } else {
        let (l, t, r, b) = extent(ms);
        (l, t, max_int(r - l, 0), max_int(b - t, 0))
    }
}

proof fn lemma_all_outputs_step(adapters: Seq<AdapterInfo>, i: int)
    requires
        0 <= i < adapters.len(),
    ensures
        all_outputs(adapters.take(i + 1)) == all_outputs(adapters.take(i)) + adapters[i].outputs@,
{
    assert(adapters.take(i + 1).drop_last() =~= adapters.take(i));
}

/// One more monitor taken into the bounds found so far.
fn widen(acc: Option<(i32, i32, i32, i32)>, m: &MonitorInfo, Ghost(seen): Ghost<Seq<MonitorInfo>>) -> (r:
    (i32, i32, i32, i32))
    requires
        i32::MIN <= right_of(*m) <= i32::MAX,
        i32::MIN <= bottom_of(*m) <= i32::MAX,
        acc is None <==> seen.len() == 0,
        acc matches Some(a) ==> (a.0 as int, a.1 as int, a.2 as int, a.3 as int) == extent(seen),
    ensures
        (r.0 as int, r.1 as int, r.2 as int, r.3 as int) == extent(seen.push(*m)),
{
    assert(seen.push(*m).drop_last() =~= seen);
    let right = m.x + m.width as i32;
    let bottom = m.y + m.height as i32;
    match acc {
        None => (m.x, m.y, right, bottom),
        Some((l, t, r, b)) => (
            if m.x < l {
                m.x
            } else {
                l
            },
            if m.y < t {
                m.y
            } else {
                t
            },
            if right > r {
                right
            } else {
                r
            },
            if bottom > b {
                bottom
            } else {
                b
            },
        ),
    }
}

/// The smallest rectangle containing every monitor.
///
/// Not the same as the primary monitor's size, and not the same as any one
/// screen: a wallpaper spanning three displays is cut out of this.
pub fn desktop_bounds(profile: &GpuProfile) -> (rect: Rect)
    requires
        bounds_fit(profile.adapters@),
    ensures
        (rect.x as int, rect.y as int, rect.width as int, rect.height as int)
            == spec_desktop_bounds(profile.adapters@),
{
    let adapters = &profile.adapters;
    let mut acc: Option<(i32, i32, i32, i32)> = None;
    let mut i: usize = 0;
    while i < adapters.len()
        invariant
            i <= adapters@.len(),
            bounds_fit(adapters@),
            acc is None <==> all_outputs(adapters@.take(i as int)).len() == 0,
            acc matches Some(a) ==> (a.0 as int, a.1 as int, a.2 as int, a.3 as int) == extent(
                all_outputs(adapters@.take(i as int)),
            ),
        decreases adapters@.len() - i,
    {
        let outputs = &adapters[i].outputs;
        let ghost before = all_outputs(adapters@.take(i as int));
        let mut j: usize = 0;
        while j < outputs.len()
            invariant
                i < adapters@.len(),
                outputs@ == adapters@[i as int].outputs@,
                j <= outputs@.len(),
                bounds_fit(adapters@),
                acc is None <==> (before + outputs@.take(j as int)).len() == 0,
                acc matches Some(a) ==> (a.0 as int, a.1 as int, a.2 as int, a.3 as int)
                    == extent(before + outputs@.take(j as int)),
            decreases outputs@.len() - j,
        {
            let m = &outputs[j];
            assert(*m == adapters@[i as int].outputs@[j as int]);
            let ghost seen = before + outputs@.take(j as int);
            let next = widen(acc, m, Ghost(seen));
            assert(seen.push(*m) =~= before + outputs@.take(j + 1));
            acc = Some(next);
            j = j + 1;
        }
        proof {
            lemma_all_outputs_step(adapters@, i as int);
            assert(outputs@.take(j as int) =~= outputs@);
        }
        i = i + 1;
    }
    assert(adapters@.take(i as int) =~= adapters@);
    match acc {
        None => Rect { x: 0, y: 0, width: 0, height: 0 },
        Some((left, top, right, bottom)) => {
            let w = right - left;
            let h = bottom - top;
            Rect {
                x: left,
                y: top,
                width: if w > 0 {
                    w as u32
                } else {
                    0
                },
                height: if h > 0 {
                    h as u32
                } else {
                    0
                },
            }
        },
    }
}

// ---------------------------------------------------------------------------
// The primary monitor
// ---------------------------------------------------------------------------

/// The position of the first monitor marked primary.
pub open spec fn first_primary_output(ms: Seq<MonitorInfo>) -> Option<int>
    decreases ms.len(),
{
    if ms.len() == 0 {
        None
    } else if ms[0].primary {
        Some(0)
    } else {
        match first_primary_output(ms.drop_first()) {
            Some(k) => Some(k + 1),
            None => None,
        }
    }
}

/// Which monitor counts as the primary one: the first marked so, or the
/// first of all when none is.
pub open spec fn spec_primary_monitor(ms: Seq<MonitorInfo>) -> Option<int> {
    match first_primary_output(ms) {
        Some(k) => Some(k),
        None => if ms.len() > 0 {
            Some(0)
        } else {
            None
        },
    }
}

proof fn lemma_first_primary_output(ms: Seq<MonitorInfo>, k: int)
    requires
        0 <= k < ms.len(),
        ms[k].primary,
        forall|j: int| 0 <= j < k ==> !(#[trigger] ms[j]).primary,
    ensures
        first_primary_output(ms) == Some(k),
    decreases k,
{
    if k > 0 {
        let rest = ms.drop_first();
        assert forall|j: int| 0 <= j < k - 1 implies !(#[trigger] rest[j]).primary by {
            assert(rest[j] == ms[j + 1]);
        }
        lemma_first_primary_output(rest, k - 1);
    }
}

proof fn lemma_no_primary_output(ms: Seq<MonitorInfo>)
    requires
        forall|j: int| 0 <= j < ms.len() ==> !(#[trigger] ms[j]).primary,
    ensures
        first_primary_output(ms) is None,
    decreases ms.len(),
{
    if ms.len() > 0 {
        let rest = ms.drop_first();
        assert forall|j: int| 0 <= j < rest.len() implies !(#[trigger] rest[j]).primary by {
            assert(rest[j] == ms[j + 1]);
        }
        lemma_no_primary_output(rest);
    }
}

/// The device name of the primary monitor, or of the first monitor when
/// none is marked primary; `None` with no monitors at all.
pub fn primary_monitor(profile: &GpuProfile) -> (r: Option<String>)
    ensures
        match spec_primary_monitor(all_outputs(profile.adapters@)) {
            Some(k) => r matches Some(name) && name@ == all_outputs(
                profile.adapters@,
            )[k].device_name@,
            None => r is None,
        },
{
    let adapters = &profile.adapters;
    let ghost ms = all_outputs(adapters@);
    let mut first: Option<String> = None;
    let mut i: usize = 0;
    while i < adapters.len()
        invariant
            i <= adapters@.len(),
            ms == all_outputs(adapters@),
            ms == all_outputs(profile.adapters@),
            forall|k: int|
                0 <= k < all_outputs(adapters@.take(i as int)).len() ==> !(#[trigger] all_outputs(
                    adapters@.take(i as int),
                )[k]).primary,
            first is None <==> all_outputs(adapters@.take(i as int)).len() == 0,
            first matches Some(f) ==> f@ == all_outputs(adapters@.take(i as int))[0].device_name@,
        decreases adapters@.len() - i,
    {
        let outputs = &adapters[i].outputs;
        let ghost before = all_outputs(adapters@.take(i as int));
        proof {
            lemma_all_outputs_step(adapters@, i as int);
            lemma_prefix_outputs(adapters@, i + 1);
        }
        let mut j: usize = 0;
        while j < outputs.len()
            invariant
                i < adapters@.len(),
                outputs@ == adapters@[i as int].outputs@,
                j <= outputs@.len(),
                ms == all_outputs(adapters@),
                ms == all_outputs(profile.adapters@),
                before == all_outputs(adapters@.take(i as int)),
                all_outputs(adapters@.take(i + 1)) == before + outputs@,
                ms.take((before.len() + outputs@.len()) as int) == before + outputs@,
                before.len() + outputs@.len() <= ms.len(),
                forall|k: int| 0 <= k < before.len() ==> !(#[trigger] before[k]).primary,
                forall|k: int| 0 <= k < j ==> !(#[trigger] outputs@[k]).primary,
                first is None <==> before.len() + j == 0,
                first matches Some(f) ==> f@ == (before + outputs@)[0].device_name@,
            decreases outputs@.len() - j,
        {
            if outputs[j].primary {
                proof {
                    let k = before.len() + j;
                    let whole = before + outputs@;
                    assert(whole[k] == outputs@[j as int]);
                    assert forall|q: int| 0 <= q < k implies !(#[trigger] ms[q]).primary by {
                        assert(ms[q] == whole[q]);
                        if q >= before.len() {
                            assert(whole[q] == outputs@[q - before.len()]);
                        }
                    }
                    assert(ms[k] == whole[k]);
                    lemma_first_primary_output(ms, k);
                }
                return Some(outputs[j].device_name.clone());
            }
            if first.is_none() {
                first = Some(outputs[j].device_name.clone());
            }
            j = j + 1;
        }
        proof {
            let whole = before + outputs@;
            assert forall|k: int| 0 <= k < whole.len() implies !(#[trigger] whole[k]).primary by {
                if k >= before.len() {
                    assert(whole[k] == outputs@[k - before.len()]);
                }
            }
        }
        i = i + 1;
    }
    proof {
        assert(adapters@.take(i as int) =~= adapters@);
        lemma_no_primary_output(ms);
    }
    first
}

proof fn lemma_prefix_outputs(adapters: Seq<AdapterInfo>, i: int)
    requires
        0 <= i <= adapters.len(),
    ensures
        all_outputs(adapters.take(i)).len() <= all_outputs(adapters).len(),
        all_outputs(adapters).take(all_outputs(adapters.take(i)).len() as int) == all_outputs(
            adapters.take(i),
        ),
    decreases adapters.len() - i,
{
    if i == adapters.len() {
        assert(adapters.take(i) =~= adapters);
        assert(all_outputs(adapters).take(all_outputs(adapters).len() as int) =~= all_outputs(
            adapters,
        ));
    } else {
        lemma_prefix_outputs(adapters, i + 1);
        lemma_all_outputs_step(adapters, i);
        let short = all_outputs(adapters.take(i));
        let long = all_outputs(adapters.take(i + 1));
        let all = all_outputs(adapters);
        assert(all.take(long.len() as int).take(short.len() as int) =~= all.take(
            short.len() as int,
        ));
        assert(long.take(short.len() as int) =~= short);
    }
}

// ---------------------------------------------------------------------------
// The layout
// ---------------------------------------------------------------------------

/// One monitor of a layout: device name, position and size.
pub open spec fn monitor_entry(m: MonitorInfo) -> (Seq<char>, i32, i32, u32, u32) {
    (m.device_name@, m.x, m.y, m.width, m.height)
}

/// A layout entry as plain values.
pub open spec fn entry_view(e: (String, i32, i32, u32, u32)) -> (Seq<char>, i32, i32, u32, u32) {
    (e.0@, e.1, e.2, e.3, e.4)
}

pub open spec fn layout_view(v: Seq<(String, i32, i32, u32, u32)>) -> Seq<
    (Seq<char>, i32, i32, u32, u32),
> {
    v.map_values(|e: (String, i32, i32, u32, u32)| entry_view(e))
}

/// Strictly before, character by character, a prefix before what extends
/// it (which is how strings compare: UTF-8 keeps the order of code points).
pub open spec fn chars_before(a: Seq<char>, b: Seq<char>) -> bool
    decreases a.len(),
{
    if a.len() == 0 {
        b.len() > 0
    } else if b.len() == 0 {
        false
    } else if a[0] != b[0] {
        (a[0] as u32) < (b[0] as u32)
    } else {
        chars_before(a.drop_first(), b.drop_first())
    }
}

/// Strictly before, field by field: name, then x, y, width, height.
pub open spec fn entry_before(
    a: (Seq<char>, i32, i32, u32, u32),
    b: (Seq<char>, i32, i32, u32, u32),
) -> bool {
    ||| chars_before(a.0, b.0)
    ||| a.0 == b.0 && a.1 < b.1
    ||| a.0 == b.0 && a.1 == b.1 && a.2 < b.2
    ||| a.0 == b.0 && a.1 == b.1 && a.2 == b.2 && a.3 < b.3
    ||| a.0 == b.0 && a.1 == b.1 && a.2 == b.2 && a.3 == b.3 && a.4 < b.4
}

pub open spec fn is_sorted_layout(s: Seq<(Seq<char>, i32, i32, u32, u32)>) -> bool {
    forall|i: int, j: int| 0 <= i < j < s.len() ==> !entry_before(#[trigger] s[j], #[trigger] s[i])
}

/// The layout of these monitors: their entries, sorted. There is exactly
/// one such list for any collection of entries (`lemma_sorted_unique`), so
/// it depends on which monitors there are and not on their order.
pub open spec fn spec_layout(ms: Seq<MonitorInfo>) -> Seq<(Seq<char>, i32, i32, u32, u32)> {
    choose|s: Seq<(Seq<char>, i32, i32, u32, u32)>|
        is_sorted_layout(s) && s.to_multiset() == layout_entries(ms).to_multiset()
}

/// Each monitor's entry, in the order the monitors come.
pub open spec fn layout_entries(ms: Seq<MonitorInfo>) -> Seq<(Seq<char>, i32, i32, u32, u32)> {
    ms.map_values(|m: MonitorInfo| monitor_entry(m))
}

pub proof fn lemma_chars_before_irreflexive(a: Seq<char>)
    ensures
        !chars_before(a, a),
    decreases a.len(),
{
    if a.len() > 0 {
        lemma_chars_before_irreflexive(a.drop_first());
    }
}

pub proof fn lemma_chars_before_transitive(a: Seq<char>, b: Seq<char>, c: Seq<char>)
    requires
        chars_before(a, b),
        chars_before(b, c),
    ensures
        chars_before(a, c),
    decreases a.len(),
{
    if a.len() > 0 && b.len() > 0 && c.len() > 0 && a[0] == b[0] && b[0] == c[0] {
        lemma_chars_before_transitive(a.drop_first(), b.drop_first(), c.drop_first());
    }
}

pub proof fn lemma_chars_before_total(a: Seq<char>, b: Seq<char>)
    ensures
        a == b || chars_before(a, b) || chars_before(b, a),
    decreases a.len(),
{
    if a.len() > 0 && b.len() > 0 {
        if a[0] == b[0] {
            lemma_chars_before_total(a.drop_first(), b.drop_first());
            if a.drop_first() == b.drop_first() {
                assert(a =~= seq![a[0]] + a.drop_first());
                assert(b =~= seq![b[0]] + b.drop_first());
            }
        } else {
            vstd::utf8::char_u32_cast(a[0], a[0] as u32);
            vstd::utf8::char_u32_cast(b[0], b[0] as u32);
        }
    } else if a.len() == 0 && b.len() == 0 {
        assert(a =~= b);
    }
}

proof fn lemma_entry_order(
    a: (Seq<char>, i32, i32, u32, u32),
    b: (Seq<char>, i32, i32, u32, u32),
    c: (Seq<char>, i32, i32, u32, u32),
)
    ensures
        !entry_before(a, a),
        entry_before(a, b) && entry_before(b, c) ==> entry_before(a, c),
        a == b || entry_before(a, b) || entry_before(b, a),
{
    lemma_chars_before_irreflexive(a.0);
    lemma_chars_before_total(a.0, b.0);
    if chars_before(a.0, b.0) && chars_before(b.0, c.0) {
        lemma_chars_before_transitive(a.0, b.0, c.0);
    }
    if chars_before(a.0, b.0) && chars_before(b.0, a.0) {
        lemma_chars_before_transitive(a.0, b.0, a.0);
    }
}

/// A sorted list is fixed by what it holds: two sorted lists of the same
/// entries, in whatever order they were gathered, are the same list.
pub proof fn lemma_sorted_unique(
    a: Seq<(Seq<char>, i32, i32, u32, u32)>,
    b: Seq<(Seq<char>, i32, i32, u32, u32)>,
)
    requires
        is_sorted_layout(a),
        is_sorted_layout(b),
        a.to_multiset() == b.to_multiset(),
    ensures
        a == b,
    decreases a.len(),
{
    broadcast use vstd::seq_lib::group_to_multiset_ensures;

    if a.len() == 0 || b.len() == 0 {
        assert(a.to_multiset().len() == a.len());
        assert(b.to_multiset().len() == b.len());
        assert(a =~= b);
    } else {
        assert(a.to_multiset().count(a[0]) > 0);
        assert(b.contains(a[0]));
        let k = choose|k: int| 0 <= k < b.len() && b[k] == a[0];
        assert(b.to_multiset().count(b[0]) > 0);
        assert(a.contains(b[0]));
        let q = choose|q: int| 0 <= q < a.len() && a[q] == b[0];
        lemma_entry_order(a[0], b[0], a[0]);
        if a[0] != b[0] {
            if k > 0 {
                assert(!entry_before(b[k], b[0]));
            }
            if q > 0 {
                assert(!entry_before(a[q], a[0]));
            }
            assert(false);
        }
        let a1 = a.drop_first();
        let b1 = b.drop_first();
        assert(a.remove(0) =~= a1);
        assert(b.remove(0) =~= b1);
        vstd::seq_lib::to_multiset_remove(a, 0);
        vstd::seq_lib::to_multiset_remove(b, 0);
        assert forall|i: int, j: int| 0 <= i < j < a1.len() implies !entry_before(
            #[trigger] a1[j],
            #[trigger] a1[i],
        ) by {
            assert(a1[j] == a[j + 1] && a1[i] == a[i + 1]);
        }
        assert forall|i: int, j: int| 0 <= i < j < b1.len() implies !entry_before(
            #[trigger] b1[j],
            #[trigger] b1[i],
        ) by {
            assert(b1[j] == b[j + 1] && b1[i] == b[i + 1]);
        }
        lemma_sorted_unique(a1, b1);
        assert forall|i: int| 0 <= i < a.len() implies a[i] == b[i] by {
            if i > 0 {
                assert(a[i] == a1[i - 1]);
                assert(b[i] == b1[i - 1]);
            }
        }
        assert(a =~= b);
    }
}

/// The layout of two machines (or of one machine, enumerated twice) whose
/// monitors are the same in some order is the same layout.
pub proof fn lemma_layout_ignores_order(p: Seq<MonitorInfo>, q: Seq<MonitorInfo>)
    requires
        layout_entries(p).to_multiset() == layout_entries(q).to_multiset(),
    ensures
        spec_layout(p) == spec_layout(q),
{
}

/// Whether `a` comes strictly before `b` as characters.
pub fn chars_less(a: &Vec<char>, b: &Vec<char>) -> (r: bool)
    ensures
        r == chars_before(a@, b@),
{
    let mut i: usize = 0;
    assert(a@.skip(0) =~= a@);
    assert(b@.skip(0) =~= b@);
    while i < a.len() && i < b.len()
        invariant
            i <= a@.len(),
            i <= b@.len(),
            chars_before(a@, b@) == chars_before(a@.skip(i as int), b@.skip(i as int)),
        decreases a@.len() - i,
    {
        let x = a[i];
        let y = b[i];
        if x != y {
            return (x as u32) < (y as u32);
        }
        assert(a@.skip(i as int).drop_first() =~= a@.skip(i + 1));
        assert(b@.skip(i as int).drop_first() =~= b@.skip(i + 1));
        i = i + 1;
    }
    i < b.len()
}

fn entry_less(a: &(String, i32, i32, u32, u32), b: &(String, i32, i32, u32, u32)) -> (r: bool)
    ensures
        r == entry_before(entry_view(*a), entry_view(*b)),
{
    let an = chars_of(a.0.as_str());
    let bn = chars_of(b.0.as_str());
    if chars_less(&an, &bn) {
        return true;
    }
    proof {
        lemma_chars_before_total(an@, bn@);
    }
    if chars_less(&bn, &an) {
        proof {
            lemma_chars_before_irreflexive(an@);
            if an@ == bn@ {
                assert(false);
            }
        }
        return false;
    }
    if a.1 != b.1 {
        return a.1 < b.1;
    }
    if a.2 != b.2 {
        return a.2 < b.2;
    }
    if a.3 != b.3 {
        return a.3 < b.3;
    }
    a.4 < b.4
}

/// The displays as a comparable list, so a broadcast that changed nothing
/// can be told from one that changed everything. Sorted, because the
/// enumeration order is the driver's business and it is not promised to be
/// stable.
pub fn layout_of(profile: &GpuProfile) -> (layout: Vec<(String, i32, i32, u32, u32)>)
    ensures
        layout_view(layout@) == spec_layout(all_outputs(profile.adapters@)),
        // Sorted, and holding each monitor's entry exactly once.
        is_sorted_layout(layout_view(layout@)),
        layout_view(layout@).to_multiset() == layout_entries(all_outputs(profile.adapters@)).to_multiset(),
{
    let adapters = &profile.adapters;
    let mut layout: Vec<(String, i32, i32, u32, u32)> = Vec::new();
    let mut i: usize = 0;
    assert(layout_view(layout@) =~= Seq::empty());
    assert(adapters@.take(0) =~= Seq::<AdapterInfo>::empty());
    assert(layout_entries(all_outputs(adapters@.take(0))) =~= Seq::empty());
    while i < adapters.len()
        invariant
            i <= adapters@.len(),
            is_sorted_layout(layout_view(layout@)),
            layout_view(layout@).to_multiset() == layout_entries(
                all_outputs(adapters@.take(i as int)),
            ).to_multiset(),
        decreases adapters@.len() - i,
    {
        let outputs = &adapters[i].outputs;
        let ghost before = all_outputs(adapters@.take(i as int));
        assert(before + outputs@.take(0) =~= before);
        let mut j: usize = 0;
        while j < outputs.len()
            invariant
                j <= outputs@.len(),
                is_sorted_layout(layout_view(layout@)),
                layout_view(layout@).to_multiset() == layout_entries(
                    before + outputs@.take(j as int),
                ).to_multiset(),
            decreases outputs@.len() - j,
        {
            let m = &outputs[j];
            let e = (m.device_name.clone(), m.x, m.y, m.width, m.height);
            let ghost seen = before + outputs@.take(j as int);
            insert_sorted(&mut layout, e);
            proof {
                assert(entry_view(e) == monitor_entry(*m));
                assert(seen.push(*m) =~= before + outputs@.take(j + 1));
                assert(layout_entries(seen.push(*m)) =~= layout_entries(seen).push(monitor_entry(*m)));
                vstd::seq_lib::to_multiset_build(layout_entries(seen), monitor_entry(*m));
            }
            j = j + 1;
        }
        proof {
            lemma_all_outputs_step(adapters@, i as int);
            assert(outputs@.take(j as int) =~= outputs@);
        }
        i = i + 1;
    }
    proof {
        assert(adapters@.take(i as int) =~= adapters@);
        let ms = all_outputs(profile.adapters@);
        let found = layout_view(layout@);
        assert(is_sorted_layout(found) && found.to_multiset() == layout_entries(ms).to_multiset());
        let chosen = spec_layout(ms);
        lemma_sorted_unique(found, chosen);
    }
    layout
}

/// Put `e` where it belongs in a sorted list.
fn insert_sorted(layout: &mut Vec<(String, i32, i32, u32, u32)>, e: (String, i32, i32, u32, u32))
    requires
        is_sorted_layout(layout_view(old(layout)@)),
    ensures
        is_sorted_layout(layout_view(final(layout)@)),
        layout_view(final(layout)@).to_multiset() == layout_view(old(layout)@).to_multiset().insert(
            entry_view(e),
        ),
{
    let ghost old_view = layout_view(layout@);
    let mut position: usize = 0;
    while position < layout.len()
        invariant
            position <= layout@.len(),
            layout_view(layout@) == old_view,
            forall|k: int| 0 <= k < position ==> !entry_before(entry_view(e), #[trigger] old_view[k]),
        ensures
            position <= layout@.len(),
            layout_view(layout@) == old_view,
            forall|k: int| 0 <= k < position ==> !entry_before(entry_view(e), #[trigger] old_view[k]),
            position == layout@.len() || entry_before(entry_view(e), old_view[position as int]),
        decreases layout@.len() - position,
    {
        if entry_less(&e, &layout[position]) {
            assert(old_view[position as int] == entry_view(layout@[position as int]));
            break;
        }
        assert(old_view[position as int] == entry_view(layout@[position as int]));
        position = position + 1;
    }
    let ghost ev = entry_view(e);
    layout.insert(position, e);
    proof {
        let v = layout_view(layout@);
        assert(v =~= old_view.insert(position as int, ev));
        vstd::seq_lib::to_multiset_insert(old_view, position as int, ev);
        assert forall|i: int, j: int| 0 <= i < j < v.len() implies !entry_before(
            #[trigger] v[j],
            #[trigger] v[i],
        ) by {
            let p = position as int;
            if j < p {
                assert(v[i] == old_view[i] && v[j] == old_view[j]);
            } else if j == p {
                assert(v[j] == ev);
                assert(v[i] == old_view[i]);
                lemma_entry_order(ev, old_view[i], ev);
            } else if i == p {
                assert(v[i] == ev);
                assert(v[j] == old_view[j - 1]);
                // `e` comes before the entry it was put in front of, and
                // everything after that is no earlier than it.
                assert(entry_before(ev, old_view[p]) || p == old_view.len());
                if j - 1 > p {
                    assert(!entry_before(old_view[j - 1], old_view[p]));
                    lemma_entry_order(old_view[p], old_view[j - 1], old_view[p]);
                }
                lemma_entry_order(ev, old_view[p], old_view[j - 1]);
                lemma_entry_order(old_view[j - 1], ev, old_view[p]);
                lemma_entry_order(old_view[j - 1], ev, ev);
            } else if i < p {
                assert(v[i] == old_view[i] && v[j] == old_view[j - 1]);
            } else {
                assert(v[i] == old_view[i - 1] && v[j] == old_view[j - 1]);
            }
        }
    }
}

} // verus!

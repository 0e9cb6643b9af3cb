//! What every monitor is playing, and what the settings window's requests
//! do to it: a list chosen for one screen or, while a wallpaper spans the
//! desktop, for all of them; a screen switched off or moved on; a shuffle
//! drawn again; a scene or a rule put on screen. Each change says which
//! screens now show what, so the renderers can be pointed at it.

use vstd::prelude::*;

use crate::clock::unix_nanos;
use crate::compositor::order::{seed_from, spec_seed_from, spec_shuffled, spec_straight};
use crate::compositor::pass::{advance, showing, spec_baseline};
use crate::compositor::playback::Playback;
use crate::compositor::settings::copy_strings;
use crate::text::{same_string, string_views};

verus! {

/// Where the seeds for shuffles come from: the clock, mixed with how many
/// seeds were drawn before, so two drawn in the same instant still differ.
pub struct Seeds {
    pub drawn: u64,
}

impl Seeds {
    /// None drawn yet.
    pub fn new() -> (s: Seeds)
        ensures
            s.drawn == 0,
    {
        Seeds { drawn: 0 }
    }

    /// The seed for a clock reading of `clock` (`None` for a clock set
    /// before 1970): the reading mixed with the count so far, which moves
    /// on by one (coming round to zero after the last).
    pub fn draw_at(&mut self, clock: Option<u64>) -> (s: u64)
        ensures
            s == spec_seed_from(clock, old(self).drawn),
            final(self).drawn == if old(self).drawn == u64::MAX {
                0
            } else {
                (old(self).drawn + 1) as u64
            },
    {
        let s = seed_from(clock, self.drawn);
        self.drawn = if self.drawn == u64::MAX {
            0
        } else {
            self.drawn + 1
        };
        s
    }

    /// The next seed: [`Seeds::draw_at`] of the clock, read now.
    pub fn draw(&mut self) -> (s: u64)
        ensures
            exists|clock: Option<u64>| s == spec_seed_from(clock, old(self).drawn),
            final(self).drawn == if old(self).drawn == u64::MAX {
                0
            } else {
                (old(self).drawn + 1) as u64
            },
    {
        let clock = unix_nanos();
        self.draw_at(clock)
    }
}

/// What every monitor is playing, by device name.
pub struct Playlists {
    pub screens: Vec<(String, Playback)>,
}

/// The device names, in order.
pub open spec fn screen_names(s: Seq<(String, Playback)>) -> Seq<Seq<char>> {
    s.map_values(|e: (String, Playback)| e.0@)
}

/// No two screens share a name.
pub open spec fn unique_names(s: Seq<(String, Playback)>) -> bool {
    forall|i: int, j: int| 0 <= i < s.len() && 0 <= j < s.len() && i != j ==> s[i].0@ != s[j].0@
}

/// Where the screen called `name` is, if there is one.
pub open spec fn find_screen(s: Seq<(String, Playback)>, name: Seq<char>) -> Option<int> {
    if exists|k: int| 0 <= k < s.len() && (#[trigger] s[k]).0@ == name {
        Some(choose|k: int| 0 <= k < s.len() && (#[trigger] s[k]).0@ == name)
    } else {
        None
    }
}

/// `p` has just been pointed at `items`, from the top: in the order they
/// were written, or in one drawn from some seed when shuffling.
pub open spec fn started_with(p: Playback, items: Seq<String>, shuffle: bool) -> bool {
    &&& p.wf()
    &&& p.items@ == items
    &&& p.index == 0
    &&& p.loops_at_start == 0
    &&& if shuffle {
        exists|s: u64| p.order@ == spec_shuffled(items.len(), None, s)
    } else {
        p.order@ == spec_straight(items.len())
    }
}

/// A screen and what it now shows, as plain text.
pub open spec fn route_view(r: (String, Option<String>)) -> (Seq<char>, Option<Seq<char>>) {
    (
        r.0@,
        match r.1 {
            Some(s) => Some(s@),
            None => None,
        },
    )
}

/// The screen of `s` at `k` and what it shows.
pub open spec fn route_at(s: Seq<(String, Playback)>, k: int) -> (Seq<char>, Option<Seq<char>>) {
    (s[k].0@, showing(s[k].1))
}

proof fn lemma_find_unique(s: Seq<(String, Playback)>, name: Seq<char>, k: int)
    requires
        unique_names(s),
        0 <= k < s.len(),
        s[k].0@ == name,
    ensures
        find_screen(s, name) == Some(k),
{
    assert(s[k].0@ == name);
    let c = choose|c: int| 0 <= c < s.len() && (#[trigger] s[c]).0@ == name;
    assert(c == k);
}

/// The last of the first `n` entries of a scene that names `name`.
pub open spec fn last_with(ms: Seq<(String, Vec<String>)>, n: int, name: Seq<char>) -> Option<int>
    decreases n,
{
    if n <= 0 {
        None
    } else if ms[n - 1].0@ == name {
        Some(n - 1)
    } else {
        last_with(ms, n - 1, name)
    }
}

proof fn lemma_last_with_bounds(ms: Seq<(String, Vec<String>)>, n: int, name: Seq<char>)
    ensures
        last_with(ms, n, name) matches Some(i) ==> 0 <= i < n && ms[i].0@ == name,
    decreases n,
{
    if n > 0 {
        lemma_last_with_bounds(ms, n - 1, name);
    }
}

/// The entry a saved session holds for `name`: the first by that name.
pub open spec fn saved_for(saved: Seq<(String, bool, Vec<String>)>, name: Seq<char>) -> Option<int> {
    if exists|j: int| 0 <= j < saved.len() && (#[trigger] saved[j]).0@ == name {
        Some(
            choose|j: int|
                0 <= j < saved.len() && (#[trigger] saved[j]).0@ == name && forall|m: int|
                    0 <= m < j ==> (#[trigger] saved[m]).0@ != name,
        )
    } else {
        None
    }
}

/// What a screen starts with: whether it is on, and its list, as saved,
/// or switched on with the path given on the command line, if any.
pub open spec fn start_of(saved: Seq<(String, bool, Vec<String>)>, initial: Option<String>, name: Seq<char>) -> (
    bool,
    Seq<String>,
) {
    match saved_for(saved, name) {
        Some(j) => (saved[j].1, saved[j].2@),
        None => (
            true,
            match initial {
                Some(p) => seq![p],
                None => Seq::empty(),
            },
        ),
    }
}

fn find_saved(saved: &Vec<(String, bool, Vec<String>)>, name: &String) -> (r: Option<usize>)
    ensures
        match r {
            Some(j) => saved_for(saved@, name@) == Some(j as int) && j < saved@.len(),
            None => saved_for(saved@, name@) is None,
        },
{
    let mut j: usize = 0;
    while j < saved.len()
        invariant
            j <= saved@.len(),
            forall|m: int| 0 <= m < j ==> (#[trigger] saved@[m]).0@ != name@,
        decreases saved@.len() - j,
    {
        if same_string(&saved[j].0, name) {
            return Some(j);
        }
        j = j + 1;
    }
    None
}

impl Playlists {
    /// Every screen's playback is sound, and no two screens share a name.
    pub open spec fn wf(&self) -> bool {
        &&& unique_names(self.screens@)
        &&& forall|k: int| 0 <= k < self.screens@.len() ==> (#[trigger] self.screens@[k]).1.wf()
    }

    /// No screens yet.
    pub fn new() -> (p: Playlists)
        ensures
            p.wf(),
            p.screens@.len() == 0,
    {
        Playlists { screens: Vec::new() }
    }

    /// Where the screen called `name` is, if there is one.
    pub fn position(&self, name: &String) -> (r: Option<usize>)
        requires
            self.wf(),
        ensures
            match r {
                Some(k) => find_screen(self.screens@, name@) == Some(k as int) && k < self.screens@.len(),
                None => find_screen(self.screens@, name@) is None,
            },
    {
        let mut k: usize = 0;
        while k < self.screens.len()
            invariant
                self.wf(),
                k <= self.screens@.len(),
                forall|j: int| 0 <= j < k ==> (#[trigger] self.screens@[j]).0@ != name@,
            decreases self.screens@.len() - k,
        {
            if same_string(&self.screens[k].0, name) {
                proof {
                    lemma_find_unique(self.screens@, name@, k as int);
                }
                return Some(k);
            }
            k = k + 1;
        }
        None
    }

    /// The playback of the screen called `name`, if there is one.
    pub fn get(&self, name: &String) -> (r: Option<&Playback>)
        requires
            self.wf(),
        ensures
            match find_screen(self.screens@, name@) {
                Some(k) => r matches Some(p) && *p == self.screens@[k].1,
                None => r is None,
            },
    {
        match self.position(name) {
            Some(k) => Some(&self.screens[k].1),
            None => None,
        }
    }

    /// Point the screen at `k` at `items`, from the top, with a new seed
    /// drawn when shuffling; every other screen is left as it is. Returns
    /// what the screen now shows.
    fn play_at(&mut self, k: usize, items: Vec<String>, shuffle: bool, seeds: &mut Seeds) -> (r: Option<String>)
        requires
            old(self).wf(),
            k < old(self).screens@.len(),
        ensures
            final(self).wf(),
            final(self).screens@.len() == old(self).screens@.len(),
            forall|j: int| 0 <= j < old(self).screens@.len() && j != k ==> final(self).screens@[j] == old(self).screens@[j],
            final(self).screens@[k as int].0 == old(self).screens@[k as int].0,
            started_with(final(self).screens@[k as int].1, items@, shuffle),
            final(self).screens@[k as int].1.enabled == old(self).screens@[k as int].1.enabled,
            route_view((final(self).screens@[k as int].0, r)) == route_at(final(self).screens@, k as int),
    {
        let ghost before = self.screens@;
        let (name, mut p) = self.screens.remove(k);
        let s = seeds.draw();
        p.play(items, shuffle, s);
        let current: Option<String> = match p.current() {
            Some(path) => Some(path.clone()),
            None => None,
        };
        self.screens.insert(k, (name, p));
        proof {
            assert(self.screens@ =~= before.update(k as int, self.screens@[k as int]));
            assert forall|i: int, j: int|
                0 <= i < self.screens@.len() && 0 <= j < self.screens@.len() && i != j implies self.screens@[i].0@
                != self.screens@[j].0@ by {
                assert(before[i].0@ != before[j].0@);
            }
            assert forall|j: int| 0 <= j < self.screens@.len() implies (#[trigger] self.screens@[j]).1.wf() by {
                if j != k {
                    assert(before[j].1.wf());
                }
            }
        }
        current
    }

    /// The place of the screen called `name`, added, switched on and with
    /// nothing to play, if there is none yet.
    fn entry(&mut self, name: &String) -> (k: usize)
        requires
            old(self).wf(),
        ensures
            final(self).wf(),
            k < final(self).screens@.len(),
            final(self).screens@[k as int].0@ == name@,
            match find_screen(old(self).screens@, name@) {
                Some(i) => k == i && final(self).screens@ == old(self).screens@,
                None => {
                    &&& k == old(self).screens@.len()
                    &&& final(self).screens@.drop_last() == old(self).screens@
                    &&& final(self).screens@[k as int].1.items@.len() == 0
                    &&& final(self).screens@[k as int].1.enabled
                },
            },
    {
        match self.position(name) {
            Some(k) => {
                proof {
                    let c = choose|c: int| 0 <= c < self.screens@.len() && (#[trigger] self.screens@[c]).0@ == name@;
                    assert(self.screens@[k as int].0@ == name@);
                }
                k
            },
            None => {
                let ghost before = self.screens@;
                let k = self.screens.len();
                self.screens.push((name.clone(), Playback::blank()));
                proof {
                    assert(self.screens@.drop_last() =~= before);
                    assert forall|i: int, j: int|
                        0 <= i < self.screens@.len() && 0 <= j < self.screens@.len() && i != j implies self.screens@[i].0@
                        != self.screens@[j].0@ by {
                        if i < k && j < k {
                            assert(before[i].0@ != before[j].0@);
                        } else if i < k {
                            assert(before[i] == self.screens@[i]);
                            assert(!(before[i].0@ == name@));
                        } else {
                            assert(before[j] == self.screens@[j]);
                            assert(!(before[j].0@ == name@));
                        }
                    }
                    assert forall|j: int| 0 <= j < self.screens@.len() implies (#[trigger] self.screens@[j]).1.wf() by {
                        if j < k {
                            assert(before[j].1.wf());
                        }
                    }
                }
                k
            },
        }
    }

    /// Point the screen called `name` at `items`, from the top, adding the
    /// screen (switched on) if there is none by that name yet. Every other
    /// screen is left as it is. Returns what the screen now shows.
    pub fn play_on(&mut self, name: &String, items: Vec<String>, shuffle: bool, seeds: &mut Seeds) -> (r: Option<
        String,
    >)
        requires
            old(self).wf(),
        ensures
            final(self).wf(),
            match find_screen(old(self).screens@, name@) {
                Some(i) => {
                    &&& final(self).screens@.len() == old(self).screens@.len()
                    &&& forall|j: int|
                        0 <= j < old(self).screens@.len() && j != i ==> final(self).screens@[j]
                            == old(self).screens@[j]
                    &&& final(self).screens@[i].0 == old(self).screens@[i].0
                    &&& started_with(final(self).screens@[i].1, items@, shuffle)
                    &&& final(self).screens@[i].1.enabled == old(self).screens@[i].1.enabled
                    &&& route_view((final(self).screens@[i].0, r)) == route_at(final(self).screens@, i)
                },
                None => {
                    let i = old(self).screens@.len() as int;
                    &&& final(self).screens@.len() == i + 1
                    &&& final(self).screens@.drop_last() == old(self).screens@
                    &&& final(self).screens@[i].0@ == name@
                    &&& started_with(final(self).screens@[i].1, items@, shuffle)
                    &&& final(self).screens@[i].1.enabled
                    &&& route_view((final(self).screens@[i].0, r)) == route_at(final(self).screens@, i)
                },
            },
    {
        let ghost before = self.screens@;
        let k = self.entry(name);
        let ghost added = self.screens@;
        let r = self.play_at(k, items, shuffle, seeds);
        proof {
            if find_screen(before, name@) is None {
                assert(self.screens@.drop_last() =~= added.drop_last());
            }
        }
        r
    }

    /// Point every screen at `items`, from the top, each drawing its own
    /// seed when shuffling: the spanned wallpaper chosen anywhere, or a
    /// rule come into force. Returns what each screen now shows, in order.
    pub fn play_everywhere(&mut self, items: &Vec<String>, shuffle: bool, seeds: &mut Seeds) -> (routes: Vec<
        (String, Option<String>),
    >)
        requires
            old(self).wf(),
        ensures
            final(self).wf(),
            final(self).screens@.len() == old(self).screens@.len(),
            forall|k: int|
                0 <= k < final(self).screens@.len() ==> {
                    &&& (#[trigger] final(self).screens@[k]).0 == old(self).screens@[k].0
                    &&& started_with(final(self).screens@[k].1, items@, shuffle)
                    &&& final(self).screens@[k].1.enabled == old(self).screens@[k].1.enabled
                },
            routes@.len() == final(self).screens@.len(),
            forall|k: int| 0 <= k < routes@.len() ==> route_view(#[trigger] routes@[k]) == route_at(final(self).screens@, k),
    {
        let ghost before = self.screens@;
        let mut routes: Vec<(String, Option<String>)> = Vec::new();
        let mut k: usize = 0;
        while k < self.screens.len()
            invariant
                self.wf(),
                self.screens@.len() == before.len(),
                k <= before.len(),
                routes@.len() == k,
                forall|j: int|
                    0 <= j < k ==> {
                        &&& (#[trigger] self.screens@[j]).0 == before[j].0
                        &&& started_with(self.screens@[j].1, items@, shuffle)
                        &&& self.screens@[j].1.enabled == before[j].1.enabled
                    },
                forall|j: int| k <= j < before.len() ==> self.screens@[j] == before[j],
                forall|j: int| 0 <= j < k ==> route_view(#[trigger] routes@[j]) == route_at(self.screens@, j),
            decreases before.len() - k,
        {
            let list = copy_strings(items);
            let shown = self.play_at(k, list, shuffle, seeds);
            let name = self.screens[k].0.clone();
            routes.push((name, shown));
            k = k + 1;
        }
        routes
    }

    /// The list the user chose for `monitor`: on that screen alone, or,
    /// while the wallpaper spans the desktop, on every screen there is,
    /// since the slices of a spanned wallpaper have to come from one
    /// picture. Returns what each screen it reached now shows.
    pub fn set_playlist(
        &mut self,
        monitor: &String,
        items: Vec<String>,
        span: bool,
        shuffle: bool,
        seeds: &mut Seeds,
    ) -> (routes: Vec<(String, Option<String>)>)
        requires
            old(self).wf(),
        ensures
            final(self).wf(),
            span ==> {
                &&& final(self).screens@.len() == old(self).screens@.len()
                &&& forall|k: int|
                    0 <= k < final(self).screens@.len() ==> {
                        &&& (#[trigger] final(self).screens@[k]).0 == old(self).screens@[k].0
                        &&& started_with(final(self).screens@[k].1, items@, shuffle)
                        &&& final(self).screens@[k].1.enabled == old(self).screens@[k].1.enabled
                    }
                &&& routes@.len() == final(self).screens@.len()
                &&& forall|k: int|
                    0 <= k < routes@.len() ==> route_view(#[trigger] routes@[k]) == route_at(final(self).screens@, k)
            },
            !span ==> {
                let i = match find_screen(old(self).screens@, monitor@) {
                    Some(i) => i,
                    None => old(self).screens@.len() as int,
                };
                &&& final(self).screens@.len() == if find_screen(old(self).screens@, monitor@) is Some {
                    old(self).screens@.len() as int
                } else {
                    old(self).screens@.len() + 1int
                }
                &&& forall|j: int|
                    0 <= j < old(self).screens@.len() && j != i ==> final(self).screens@[j] == old(self).screens@[j]
                &&& final(self).screens@[i].0@ == monitor@
                &&& started_with(final(self).screens@[i].1, items@, shuffle)
                &&& final(self).screens@[i].1.enabled == (i == old(self).screens@.len() || old(
                    self,
                ).screens@[i].1.enabled)
                &&& routes@.len() == 1
                &&& route_view(routes@[0]) == route_at(final(self).screens@, i)
            },
    {
        if span {
            return self.play_everywhere(&items, shuffle, seeds);
        }
        let ghost before = self.screens@;
        let shown = self.play_on(monitor, items, shuffle, seeds);
        proof {
            if let Some(i) = find_screen(before, monitor@) {
                let c = choose|c: int| 0 <= c < before.len() && (#[trigger] before[c]).0@ == monitor@;
                assert(before[i].0@ == monitor@);
            }
        }
        let mut routes: Vec<(String, Option<String>)> = Vec::new();
        routes.push((monitor.clone(), shown));
        routes
    }

    /// Switch the screen called `monitor` on or off; nothing happens for a
    /// name there is no screen by.
    pub fn set_enabled(&mut self, monitor: &String, enabled: bool)
        requires
            old(self).wf(),
        ensures
            final(self).wf(),
            final(self).screens@.len() == old(self).screens@.len(),
            match find_screen(old(self).screens@, monitor@) {
                Some(i) => final(self).screens@ == old(self).screens@.update(
                    i,
                    (old(self).screens@[i].0, Playback { enabled, ..old(self).screens@[i].1 }),
                ),
                None => final(self).screens@ == old(self).screens@,
            },
    {
        match self.position(monitor) {
            Some(k) => {
                let ghost before = self.screens@;
                let (name, mut p) = self.screens.remove(k);
                p.enabled = enabled;
                self.screens.insert(k, (name, p));
                proof {
                    assert(self.screens@ =~= before.update(k as int, self.screens@[k as int]));
                    assert forall|i: int, j: int|
                        0 <= i < self.screens@.len() && 0 <= j < self.screens@.len() && i != j implies self.screens@[i].0@
                        != self.screens@[j].0@ by {
                        assert(before[i].0@ != before[j].0@);
                    }
                    assert forall|j: int| 0 <= j < self.screens@.len() implies (#[trigger] self.screens@[j]).1.wf() by {
                        assert(before[j].1.wf());
                    }
                }
            },
            None => {},
        }
    }

    /// Move the screen called `monitor` on to its next item: see
    /// [`advance`]. `counts` holds the loop count of every open clip.
    /// Returns what the screen now shows, or `None` when there is no
    /// screen by that name or it has nothing to play.
    pub fn next(&mut self, monitor: &String, shuffle: bool, seeds: &mut Seeds, counts: &Vec<(String, u32)>) -> (r:
        Option<Option<String>>)
        requires
            old(self).wf(),
        ensures
            final(self).wf(),
            final(self).screens@.len() == old(self).screens@.len(),
            match find_screen(old(self).screens@, monitor@) {
                None => final(self).screens@ == old(self).screens@ && r is None,
                Some(i) => {
                    let (before, after) = (old(self).screens@[i].1, final(self).screens@[i].1);
                    &&& forall|j: int|
                        0 <= j < old(self).screens@.len() && j != i ==> final(self).screens@[j]
                            == old(self).screens@[j]
                    &&& final(self).screens@[i].0 == old(self).screens@[i].0
                    &&& before.order@.len() == 0 ==> after == before && r is None
                    &&& before.order@.len() > 0 ==> {
                        &&& exists|s: u64| (after.order@, after.index) == before.spec_stepped(shuffle, s)
                        &&& after.items@ == before.items@
                        &&& after.enabled == before.enabled
                        &&& after.loops_at_start == match showing(after) {
                            Some(path) => spec_baseline(counts@, path),
                            None => 0,
                        }
                        &&& r matches Some(c) && match showing(after) {
                            Some(path) => c matches Some(t) && t@ == path,
                            None => c is None,
                        }
                    }
                },
            },
    {
        match self.position(monitor) {
            Some(k) => {
                let ghost before = self.screens@;
                let (name, mut p) = self.screens.remove(k);
                let s = seeds.draw();
                let r = advance(&mut p, shuffle, s, counts);
                self.screens.insert(k, (name, p));
                proof {
                    assert(self.screens@ =~= before.update(k as int, self.screens@[k as int]));
                    assert forall|i: int, j: int|
                        0 <= i < self.screens@.len() && 0 <= j < self.screens@.len() && i != j implies self.screens@[i].0@
                        != self.screens@[j].0@ by {
                        assert(before[i].0@ != before[j].0@);
                    }
                    assert forall|j: int| 0 <= j < self.screens@.len() implies (#[trigger] self.screens@[j]).1.wf() by {
                        if j != k {
                            assert(before[j].1.wf());
                        }
                    }
                }
                r
            },
            None => None,
        }
    }

    /// Draw every screen's order again, or put each back as written, when
    /// the shuffle setting changes: what is on screen stays there, and only
    /// what comes after it changes.
    pub fn reorder_all(&mut self, shuffle: bool, seeds: &mut Seeds)
        requires
            old(self).wf(),
        ensures
            final(self).wf(),
            final(self).screens@.len() == old(self).screens@.len(),
            forall|k: int|
                0 <= k < final(self).screens@.len() ==> {
                    let (before, after) = (old(self).screens@[k].1, (#[trigger] final(self).screens@[k]).1);
                    &&& final(self).screens@[k].0 == old(self).screens@[k].0
                    &&& after.items@ == before.items@
                    &&& after.spec_current() == before.spec_current()
                    &&& after.enabled == before.enabled
                    &&& after.loops_at_start == before.loops_at_start
                    &&& if shuffle {
                        exists|s: u64| after.order@ == spec_shuffled(before.items@.len(), None, s)
                    } else {
                        after.order@ == spec_straight(before.items@.len())
                    }
                },
    {
        let ghost before = self.screens@;
        let mut k: usize = 0;
        while k < self.screens.len()
            invariant
                self.wf(),
                self.screens@.len() == before.len(),
                k <= before.len(),
                forall|j: int|
                    0 <= j < k ==> {
                        let (b, a) = (before[j].1, (#[trigger] self.screens@[j]).1);
                        &&& self.screens@[j].0 == before[j].0
                        &&& a.items@ == b.items@
                        &&& a.spec_current() == b.spec_current()
                        &&& a.enabled == b.enabled
                        &&& a.loops_at_start == b.loops_at_start
                        &&& if shuffle {
                            exists|s: u64| a.order@ == spec_shuffled(b.items@.len(), None, s)
                        } else {
                            a.order@ == spec_straight(b.items@.len())
                        }
                    },
                forall|j: int| k <= j < before.len() ==> self.screens@[j] == before[j],
            decreases before.len() - k,
        {
            let ghost now = self.screens@;
            let (name, mut p) = self.screens.remove(k);
            let s = seeds.draw();
            p.reorder(shuffle, s);
            self.screens.insert(k, (name, p));
            proof {
                assert(self.screens@ =~= now.update(k as int, self.screens@[k as int]));
                assert forall|i: int, j: int|
                    0 <= i < self.screens@.len() && 0 <= j < self.screens@.len() && i != j implies self.screens@[i].0@
                    != self.screens@[j].0@ by {
                    assert(now[i].0@ != now[j].0@);
                }
                assert forall|j: int| 0 <= j < self.screens@.len() implies (#[trigger] self.screens@[j]).1.wf() by {
                    if j != k {
                        assert(now[j].1.wf());
                    }
                }
            }
            k = k + 1;
        }
    }

    /// What the screen called `primary` is playing, for a wallpaper that
    /// starts to span the desktop; nothing for no such screen.
    pub fn items_of(&self, primary: &Option<String>) -> (items: Vec<String>)
        requires
            self.wf(),
        ensures
            items@ == match primary {
                Some(name) => match find_screen(self.screens@, name@) {
                    Some(k) => self.screens@[k].1.items@,
                    None => Seq::empty(),
                },
                None => Seq::empty(),
            },
    {
        match primary {
            Some(name) => match self.get(name) {
                Some(p) => copy_strings(&p.items),
                None => Vec::new(),
            },
            None => Vec::new(),
        }
    }

    /// Every screen and what its list holds, in order: the arrangement a
    /// scene saves.
    pub fn arrangement(&self) -> (a: Vec<(String, Vec<String>)>)
        ensures
            a@.len() == self.screens@.len(),
            forall|k: int|
                0 <= k < a@.len() ==> (#[trigger] a@[k]).0 == self.screens@[k].0 && a@[k].1@
                    == self.screens@[k].1.items@,
    {
        let mut a: Vec<(String, Vec<String>)> = Vec::new();
        let mut k: usize = 0;
        while k < self.screens.len()
            invariant
                k <= self.screens@.len(),
                a@.len() == k,
                forall|j: int|
                    0 <= j < k ==> (#[trigger] a@[j]).0 == self.screens@[j].0 && a@[j].1@
                        == self.screens@[j].1.items@,
            decreases self.screens@.len() - k,
        {
            let name = self.screens[k].0.clone();
            let items = copy_strings(&self.screens[k].1.items);
            a.push((name, items));
            k = k + 1;
        }
        a
    }

    /// Put a scene on screen: each screen it names plays its list, from the
    /// top, and a screen it names that is not here yet is added, switched
    /// on. Where a scene names a screen twice the later list is the one
    /// left playing. Screens it does not name are left as they are. Returns
    /// each screen of the scene, in order, with what it showed once its
    /// list was put up.
    pub fn load_scene(&mut self, monitors: &Vec<(String, Vec<String>)>, shuffle: bool, seeds: &mut Seeds) -> (routes:
        Vec<(String, Option<String>)>)
        requires
            old(self).wf(),
        ensures
            final(self).wf(),
            final(self).screens@.len() >= old(self).screens@.len(),
            forall|j: int| 0 <= j < old(self).screens@.len() ==> (#[trigger] final(self).screens@[j]).0 == old(self).screens@[j].0,
            forall|k: int|
                0 <= k < final(self).screens@.len() ==> match last_with(
                    monitors@,
                    monitors@.len() as int,
                    (#[trigger] final(self).screens@[k]).0@,
                ) {
                    Some(i) => {
                        &&& started_with(final(self).screens@[k].1, monitors@[i].1@, shuffle)
                        &&& final(self).screens@[k].1.enabled == (k >= old(self).screens@.len()
                            || old(self).screens@[k].1.enabled)
                    },
                    None => k < old(self).screens@.len() && final(self).screens@[k] == old(self).screens@[k],
                },
            routes@.len() == monitors@.len(),
            forall|i: int| 0 <= i < routes@.len() ==> (#[trigger] routes@[i]).0@ == monitors@[i].0@,
    {
        let ghost before = self.screens@;
        let ghost ms = monitors@;
        let mut routes: Vec<(String, Option<String>)> = Vec::new();
        let mut i: usize = 0;
        while i < monitors.len()
            invariant
                self.wf(),
                ms == monitors@,
                i <= ms.len(),
                self.screens@.len() >= before.len(),
                forall|j: int| 0 <= j < before.len() ==> (#[trigger] self.screens@[j]).0 == before[j].0,
                forall|k: int|
                    0 <= k < self.screens@.len() ==> match last_with(ms, i as int, (#[trigger] self.screens@[k]).0@) {
                        Some(m) => {
                            &&& started_with(self.screens@[k].1, ms[m].1@, shuffle)
                            &&& self.screens@[k].1.enabled == (k >= before.len() || before[k].1.enabled)
                        },
                        None => k < before.len() && self.screens@[k] == before[k],
                    },
                routes@.len() == i,
                forall|m: int| 0 <= m < i ==> (#[trigger] routes@[m]).0@ == ms[m].0@,
            decreases ms.len() - i,
        {
            let ghost now = self.screens@;
            let name = &monitors[i].0;
            let list = copy_strings(&monitors[i].1);
            let shown = self.play_on(name, list, shuffle, seeds);
            proof {
                let next = (i + 1) as int;
                assert forall|j: int| 0 <= j < before.len() implies (#[trigger] self.screens@[j]).0 == before[j].0 by {
                    match find_screen(now, name@) {
                        Some(f) => {},
                        None => {
                            assert(self.screens@.drop_last()[j] == now[j]);
                        },
                    }
                }
                assert forall|k: int| 0 <= k < self.screens@.len() implies match last_with(
                    ms,
                    next,
                    (#[trigger] self.screens@[k]).0@,
                ) {
                    Some(m) => {
                        &&& started_with(self.screens@[k].1, ms[m].1@, shuffle)
                        &&& self.screens@[k].1.enabled == (k >= before.len() || before[k].1.enabled)
                    },
                    None => k < before.len() && self.screens@[k] == before[k],
                } by {
                    lemma_last_with_bounds(ms, i as int, self.screens@[k].0@);
                    match find_screen(now, name@) {
                        Some(f) => {
                            let c = choose|c: int| 0 <= c < now.len() && (#[trigger] now[c]).0@ == name@;
                            assert(now[f].0@ == name@);
                            if k == f {
                                assert(self.screens@[k].0@ == ms[i as int].0@);
                                assert(last_with(ms, next, self.screens@[k].0@) == Some(i as int));
                            } else {
                                assert(self.screens@[k] == now[k]);
                                assert(now[k].0@ != now[f].0@);
                                assert(last_with(ms, next, self.screens@[k].0@) == last_with(
                                    ms,
                                    i as int,
                                    self.screens@[k].0@,
                                ));
                            }
                        },
                        None => {
                            let last = now.len() as int;
                            if k == last {
                                assert(self.screens@[k].0@ == ms[i as int].0@);
                                assert(last_with(ms, next, self.screens@[k].0@) == Some(i as int));
                                if k < before.len() {
                                    assert(false);
                                }
                            } else {
                                assert(self.screens@.drop_last()[k] == now[k]);
                                assert(self.screens@[k] == now[k]);
                                if now[k].0@ == name@ {
                                    assert(false);
                                }
                                assert(last_with(ms, next, self.screens@[k].0@) == last_with(
                                    ms,
                                    i as int,
                                    self.screens@[k].0@,
                                ));
                            }
                        },
                    }
                }
            }
            routes.push((name.clone(), shown));
            i = i + 1;
        }
        routes
    }

    /// Every clip starts again, as it does when the decoders come back from
    /// hibernating: the loop counts a playlist measured against are gone
    /// with them, and each item's time on screen starts again.
    pub fn restart_all(&mut self)
        requires
            old(self).wf(),
        ensures
            final(self).wf(),
            final(self).screens@.len() == old(self).screens@.len(),
            forall|k: int|
                0 <= k < final(self).screens@.len() ==> (#[trigger] final(self).screens@[k]).0 == old(
                    self,
                ).screens@[k].0 && final(self).screens@[k].1 == (Playback {
                    loops_at_start: 0,
                    started: final(self).screens@[k].1.started,
                    ..old(self).screens@[k].1
                }),
    {
        let ghost before = self.screens@;
        let mut k: usize = 0;
        while k < self.screens.len()
            invariant
                self.wf(),
                self.screens@.len() == before.len(),
                k <= before.len(),
                forall|j: int|
                    0 <= j < k ==> (#[trigger] self.screens@[j]).0 == before[j].0 && self.screens@[j].1 == (Playback {
                        loops_at_start: 0,
                        started: self.screens@[j].1.started,
                        ..before[j].1
                    }),
                forall|j: int| k <= j < before.len() ==> self.screens@[j] == before[j],
            decreases before.len() - k,
        {
            let ghost now = self.screens@;
            let (name, mut p) = self.screens.remove(k);
            p.loops_at_start = 0;
            p.started = crate::clock::now();
            self.screens.insert(k, (name, p));
            proof {
                assert(self.screens@ =~= now.update(k as int, self.screens@[k as int]));
                assert forall|i: int, j: int|
                    0 <= i < self.screens@.len() && 0 <= j < self.screens@.len() && i != j implies self.screens@[i].0@
                    != self.screens@[j].0@ by {
                    assert(now[i].0@ != now[j].0@);
                }
                assert forall|j: int| 0 <= j < self.screens@.len() implies (#[trigger] self.screens@[j]).1.wf() by {
                    assert(now[j].1.wf());
                }
            }
            k = k + 1;
        }
    }

    /// Switch the screen at `k` on or off, leaving everything else alone.
    fn enable_at(&mut self, k: usize, enabled: bool)
        requires
            old(self).wf(),
            k < old(self).screens@.len(),
        ensures
            final(self).wf(),
            final(self).screens@ == old(self).screens@.update(
                k as int,
                (old(self).screens@[k as int].0, Playback { enabled, ..old(self).screens@[k as int].1 }),
            ),
    {
        let ghost before = self.screens@;
        let (name, mut p) = self.screens.remove(k);
        p.enabled = enabled;
        self.screens.insert(k, (name, p));
        proof {
            assert(self.screens@ =~= before.update(k as int, self.screens@[k as int]));
            assert forall|i: int, j: int|
                0 <= i < self.screens@.len() && 0 <= j < self.screens@.len() && i != j implies self.screens@[i].0@
                != self.screens@[j].0@ by {
                assert(before[i].0@ != before[j].0@);
            }
            assert forall|j: int| 0 <= j < self.screens@.len() implies (#[trigger] self.screens@[j]).1.wf() by {
                assert(before[j].1.wf());
            }
        }
    }

    /// What every monitor plays when the engine starts: each of `names`
    /// (the monitors the machine has) switched on or off and playing what
    /// `saved` holds for it, or, for a monitor it has nothing for, switched
    /// on and playing the path given on the command line, if any.
    pub fn restored(
        names: &Vec<String>,
        saved: &Vec<(String, bool, Vec<String>)>,
        initial: &Option<String>,
        shuffle: bool,
        seeds: &mut Seeds,
    ) -> (p: Playlists)
        ensures
            p.wf(),
            forall|i: int| 0 <= i < names@.len() ==> find_screen(p.screens@, (#[trigger] names@[i])@) is Some,
            forall|k: int|
                0 <= k < p.screens@.len() ==> string_views(names@).contains(
                    (#[trigger] p.screens@[k]).0@,
                ),
            forall|k: int|
                0 <= k < p.screens@.len() ==> {
                    let (on, items) = start_of(saved@, *initial, (#[trigger] p.screens@[k]).0@);
                    &&& p.screens@[k].1.enabled == on
                    &&& started_with(p.screens@[k].1, items, shuffle)
                },
    {
        let mut p = Playlists::new();
        let mut i: usize = 0;
        while i < names.len()
            invariant
                p.wf(),
                i <= names@.len(),
                forall|m: int| 0 <= m < i ==> find_screen(p.screens@, (#[trigger] names@[m])@) is Some,
                forall|k: int|
                    0 <= k < p.screens@.len() ==> exists|m: int|
                        0 <= m < i && (#[trigger] names@[m])@ == (#[trigger] p.screens@[k]).0@,
                forall|k: int|
                    0 <= k < p.screens@.len() ==> {
                        let (on, items) = start_of(saved@, *initial, (#[trigger] p.screens@[k]).0@);
                        &&& p.screens@[k].1.enabled == on
                        &&& started_with(p.screens@[k].1, items, shuffle)
                    },
            decreases names@.len() - i,
        {
            let name = &names[i];
            let ghost before = p.screens@;
            let k = p.entry(name);
            let ghost added = p.screens@;
            let (on, items): (bool, Vec<String>) = match find_saved(saved, name) {
                Some(j) => (saved[j].1, copy_strings(&saved[j].2)),
                None => {
                    let mut v: Vec<String> = Vec::new();
                    match initial {
                        Some(path) => v.push(path.clone()),
                        None => {},
                    }
                    proof {
                        if initial.is_some() {
                            assert(v@ =~= seq![initial.unwrap()]);
                        } else {
                            assert(v@ =~= Seq::<String>::empty());
                        }
                    }
                    (true, v)
                },
            };
            let _shown = p.play_at(k, items, shuffle, seeds);
            let ghost played = p.screens@;
            p.enable_at(k, on);
            proof {
                assert(p.screens@[k as int].0@ == name@);
                lemma_find_unique(p.screens@, name@, k as int);
                assert forall|m: int| 0 <= m <= i implies find_screen(p.screens@, (#[trigger] names@[m])@) is Some by {
                    if m < i {
                        let f = find_screen(before, names@[m]@).unwrap();
                        let c = choose|c: int| 0 <= c < before.len() && (#[trigger] before[c]).0@ == names@[m]@;
                        assert(before[f].0@ == names@[m]@);
                        assert(added[f] == before[f]) by {
                            if find_screen(before, name@) is None {
                                assert(added.drop_last()[f] == before[f]);
                            }
                        }
                        assert(p.screens@[f].0@ == names@[m]@);
                    }
                }
                assert forall|j: int| 0 <= j < p.screens@.len() implies exists|m: int|
                    0 <= m <= i && (#[trigger] names@[m])@ == (#[trigger] p.screens@[j]).0@ by {
                    if j == k {
                        assert(names@[i as int]@ == p.screens@[j].0@);
                    } else {
                        assert(p.screens@[j] == added[j]);
                        if j < before.len() {
                            assert(added[j] == before[j]) by {
                                if find_screen(before, name@) is None {
                                    assert(added.drop_last()[j] == before[j]);
                                }
                            }
                            let m = choose|m: int| 0 <= m < i && (#[trigger] names@[m])@ == before[j].0@;
                            assert(names@[m]@ == p.screens@[j].0@);
                        }
                    }
                }
                assert forall|j: int| 0 <= j < p.screens@.len() implies {
                    let (on, items) = start_of(saved@, *initial, (#[trigger] p.screens@[j]).0@);
                    &&& p.screens@[j].1.enabled == on
                    &&& started_with(p.screens@[j].1, items, shuffle)
                } by {
                    if j != k {
                        assert(p.screens@[j] == added[j]);
                        if j < before.len() {
                            assert(added[j] == before[j]) by {
                                if find_screen(before, name@) is None {
                                    assert(added.drop_last()[j] == before[j]);
                                }
                            }
                        }
                    } else {
                        assert(started_with(played[k as int].1, items@, shuffle));
                    }
                }
            }
            i = i + 1;
        }
        assert forall|k: int| 0 <= k < p.screens@.len() implies string_views(
            names@,
        ).contains((#[trigger] p.screens@[k]).0@) by {
            let m = choose|m: int| 0 <= m < i && (#[trigger] names@[m])@ == (#[trigger] p.screens@[k]).0@;
            assert(string_views(names@)[m] == p.screens@[k].0@);
        }
        p
    }
}

} // verus!

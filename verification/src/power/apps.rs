//! Applications the wallpaper stands down for.
//!
//! While one of the applications the user named is the window in front, the
//! wallpaper freezes. The foreground window rather than every running
//! process: "Photoshop is what I am looking at" is the moment that costs
//! something, and it is the cheaper question by far.

use std::time::Instant;
use vstd::prelude::*;

use crate::clock;
use crate::text::{
    chars_of, keep_nonempty, lemma_keep_nonempty_push, lower, lower_vec, same, slice_of, split, split_vec, string_of,
    string_views, strip_suffix_all, strip_suffix_all_vec, trim, trim_all, trim_vec, views,
};

verus! {

/// How often the foreground application is looked up, in milliseconds.
pub const RECHECK_AFTER_MS: u64 = 500;

/// What a name reduces to before it is compared: trimmed, lowercased, and
/// any run of `.exe` (in any letter case) taken off the end.
pub open spec fn app_key(text: Seq<char>) -> Seq<char> {
    strip_suffix_all(lower(trim(text)), seq!['.', 'e', 'x', 'e'])
}

/// Whether a name the user typed refers to this executable.
pub open spec fn spec_same_app(name: Seq<char>, process: Seq<char>) -> bool {
    app_key(name).len() > 0 && app_key(process) == app_key(name)
}

/// Whether any of the names refers to this executable.
pub open spec fn any_same_app(names: Seq<String>, process: Seq<char>) -> bool {
    exists|i: int| 0 <= i < names.len() && spec_same_app(#[trigger] names[i]@, process)
}

/// The list as the UI and the session file write it: names separated by
/// `|`, each trimmed, blanks dropped.
pub open spec fn spec_parse_list(text: Seq<char>) -> Seq<Seq<char>> {
    keep_nonempty(trim_all(split(text, '|')))
}

fn key(text: &[char]) -> (k: Vec<char>)
    ensures
        k@ == app_key(text@),
{
    let t = trim_vec(text);
    let l = lower_vec(t.as_slice());
    let exe = ['.', 'e', 'x', 'e'];
    assert(exe@ =~= seq!['.', 'e', 'x', 'e']);
    strip_suffix_all_vec(l.as_slice(), exe.as_slice())
}

/// Whether a name the user typed refers to this executable.
///
/// Forgiving on purpose: "Photoshop", "photoshop.exe", "PHOTOSHOP.EXE" and
/// "Photoshop.Exe" all name the same thing: the comparison ignores letter
/// case and a `.exe` on either side. An empty name matches nothing.
pub fn same_app(name: &str, process: &str) -> (same: bool)
    ensures
        same == spec_same_app(name@, process@),
{
    let n = chars_of(name);
    let p = chars_of(process);
    let kn = key(n.as_slice());
    let kp = key(p.as_slice());
    kn.len() > 0 && same(kp.as_slice(), kn.as_slice())
}

/// Parse the list as the UI and the session file write it.
pub fn parse_list(text: &str) -> (names: Vec<String>)
    ensures
        string_views(names@) == spec_parse_list(text@),
{
    let chars = chars_of(text);
    let parts = split_vec(chars.as_slice(), '|');
    let ghost pieces = split(text@, '|');
    let mut out: Vec<String> = Vec::new();
    let mut i: usize = 0;
    while i < parts.len()
        invariant
            i <= parts@.len(),
            views(parts@) == pieces,
            string_views(out@) == keep_nonempty(trim_all(pieces.take(i as int))),
        decreases parts@.len() - i,
    {
        let t = trim_vec(parts[i].as_slice());
        proof {
            assert(pieces[i as int] == parts@[i as int]@);
            assert(trim_all(pieces.take(i + 1)) =~= trim_all(pieces.take(i as int)).push(t@));
            lemma_keep_nonempty_push(trim_all(pieces.take(i as int)), t@);
        }
        if t.len() > 0 {
            let ghost before = out@;
            out.push(string_of(t.as_slice()));
            assert(string_views(out@) =~= string_views(before).push(t@));
        }
        i = i + 1;
    }
    assert(pieces.take(i as int) =~= pieces);
    out
}

/// A path separator, either way round.
pub open spec fn is_separator(c: char) -> bool {
    c == '\\' || c == '/'
}

/// Where the last component of a path begins: just past its last
/// separator, or at the start where it has none.
pub open spec fn name_start(path: Seq<char>) -> int
    decreases path.len(),
{
    if path.len() == 0 {
        0
    } else if is_separator(path.last()) {
        path.len() as int
    } else {
        name_start(path.drop_last())
    }
}

/// The last component of a path: an executable's file name from its full
/// image path.
pub open spec fn spec_file_name(path: Seq<char>) -> Seq<char> {
    path.subrange(name_start(path), path.len() as int)
}

/// See [`spec_file_name`].
pub fn file_name(path: &str) -> (name: String)
    ensures
        name@ == spec_file_name(path@),
{
    let v = chars_of(path);
    let ghost s = path@;
    let mut k: usize = v.len();
    assert(s.take(k as int) =~= s);
    while k > 0 && !(v[k - 1] == '\\' || v[k - 1] == '/')
        invariant
            v@ == s,
            k <= s.len(),
            name_start(s) == name_start(s.take(k as int)),
        decreases k,
    {
        assert(s.take(k as int).drop_last() =~= s.take(k - 1));
        k = k - 1;
    }
    proof {
        if k > 0 {
            assert(s.take(k as int).last() == s[k - 1]);
        }
    }
    string_of(slice_of(v.as_slice(), k, v.len()).as_slice())
}

/// Watches what is in front against a list of names.
pub struct AppWatch {
    matched: bool,
    checked: Option<Instant>,
}

impl AppWatch {
    /// The answer given last.
    pub closed spec fn last(&self) -> bool {
        self.matched
    }

    /// A watch that has not looked yet.
    pub fn new() -> (w: Self)
        ensures
            !w.last(),
    {
        AppWatch { matched: false, checked: None }
    }

    /// When the application in front was last looked up, if ever.
    pub closed spec fn checked_at(&self) -> Option<Instant> {
        self.checked
    }

    /// Whether the window in front belongs to one of `names`, given
    /// `since_ms`, how long ago it was last looked up (`None` for never),
    /// and the clock's reading now, `stamp`.
    ///
    /// An empty list costs nothing at all, not even the lookup, and matches
    /// nothing. Within half a second of the last lookup the answer is the
    /// last one given and nothing changes. Otherwise `foreground` (the
    /// executable name of the process in front, if there is one) is asked,
    /// the answer is worked out from it and kept, and the lookup is stamped.
    pub fn matches_at<F: FnOnce() -> Option<String>>(
        &mut self,
        names: &[String],
        since_ms: Option<u64>,
        stamp: Instant,
        foreground: F,
    ) -> (r: bool)
        requires
            foreground.requires(()),
        ensures
            r == final(self).last(),
            names@.len() == 0 ==> !r && final(self).checked_at() == old(self).checked_at(),
            names@.len() > 0 && clock::within(since_ms, RECHECK_AFTER_MS) ==> *final(self) == *old(self),
            names@.len() > 0 && !clock::within(since_ms, RECHECK_AFTER_MS) ==> {
                &&& final(self).checked_at() == Some(stamp)
                &&& exists|p: Option<String>|
                    foreground.ensures((), p) && r == match p {
                        Some(process) => any_same_app(names@, process@),
                        None => false,
                    }
            },
    {
        if names.len() == 0 {
            self.matched = false;
            return false;
        }
        if let Some(ms) = since_ms {
            if ms < RECHECK_AFTER_MS {
                return self.matched;
            }
        }
        self.checked = Some(stamp);
        let found = foreground();
        let matched = match &found {
            Some(process) => {
                let mut hit = false;
                let mut i: usize = 0;
                while i < names.len()
                    invariant
                        i <= names@.len(),
                        hit == exists|j: int| 0 <= j < i && spec_same_app(#[trigger] names@[j]@, process@),
                    decreases names@.len() - i,
                {
                    if same_app(names[i].as_str(), process.as_str()) {
                        hit = true;
                    }
                    i = i + 1;
                }
                hit
            },
            None => false,
        };
        self.matched = matched;
        matched
    }

    /// Whether the window in front belongs to one of `names`:
    /// [`AppWatch::matches_at`] with the time since the last lookup and the
    /// time now, from the clock.
    pub fn matches<F: FnOnce() -> Option<String>>(&mut self, names: &[String], foreground: F) -> (r:
        bool)
        requires
            foreground.requires(()),
        ensures
            r == final(self).last(),
            names@.len() == 0 ==> !r,
            names@.len() > 0 ==> (r == old(self).last() || exists|p: Option<String>|
                foreground.ensures((), p) && r == match p {
                    Some(process) => any_same_app(names@, process@),
                    None => false,
                }),
    {
        let since = match &self.checked {
            Some(at) => Some(clock::millis_since(at)),
            None => None,
        };
        let stamp = clock::now();
        self.matches_at(names, since, stamp, foreground)
    }
}

} // verus!

//! Windows file names, as the library reads them out of a path: the last
//! component, its stem and its extension.
//!
//! Both `\` and `/` separate components, a leading drive (`C:`) is not a
//! name, `.` components are skipped, and a path ending in `..` has no file
//! name. A name's extension is what follows its last dot, provided something
//! comes before that dot.

use vstd::prelude::*;

use crate::text::{chars_of, lower, lower_vec, same_str, slice_of, split, split_vec, views};

verus! {

pub open spec fn is_sep(c: char) -> bool {
    c == '\\' || c == '/'
}

/// Every `/` read as `\`.
pub open spec fn unify(p: Seq<char>) -> Seq<char> {
    p.map_values(|c: char| if c == '/' { '\\' } else { c })
}

pub open spec fn is_ascii_alpha(c: char) -> bool {
    ('a' <= c && c <= 'z') || ('A' <= c && c <= 'Z')
}

/// The path without a leading drive letter and colon.
pub open spec fn without_drive(p: Seq<char>) -> Seq<char> {
    if p.len() >= 2 && is_ascii_alpha(p[0]) && p[1] == ':' {
        p.skip(2)
    } else {
        p
    }
}

/// The last component that names something, if any.
pub open spec fn last_named(parts: Seq<Seq<char>>) -> Option<Seq<char>>
    decreases parts.len(),
{
    if parts.len() == 0 {
        None
    } else if parts.last().len() == 0 || parts.last() == seq!['.'] {
        last_named(parts.drop_last())
    } else {
        Some(parts.last())
    }
}

/// `Path::file_name`.
pub open spec fn file_name(p: Seq<char>) -> Option<Seq<char>> {
    match last_named(split(unify(without_drive(p)), '\\')) {
        Some(name) => if name == seq!['.', '.'] {
            None
        } else {
            Some(name)
        },
        None => None,
    }
}

/// Position of the last `.` in a name, or -1.
pub open spec fn last_dot(name: Seq<char>) -> int
    decreases name.len(),
{
    if name.len() == 0 {
        -1
    } else if name.last() == '.' {
        name.len() - 1
    } else {
        last_dot(name.drop_last())
    }
}

/// The extension of a file name, without its dot.
pub open spec fn name_extension(name: Seq<char>) -> Option<Seq<char>> {
    let d = last_dot(name);
    if d >= 1 {
        Some(name.skip(d + 1))
    } else {
        None
    }
}

/// The stem of a file name: everything before the extension's dot.
pub open spec fn name_stem(name: Seq<char>) -> Seq<char> {
    let d = last_dot(name);
    if d >= 1 {
        name.take(d)
    } else {
        name
    }
}

/// `Path::extension`, lowercased.
pub open spec fn lower_extension(p: Seq<char>) -> Option<Seq<char>> {
    match file_name(p) {
        Some(name) => match name_extension(name) {
            Some(e) => Some(lower(e)),
            None => None,
        },
        None => None,
    }
}

proof fn lemma_last_dot_bounds(name: Seq<char>)
    ensures
        -1 <= last_dot(name) < name.len(),
        last_dot(name) >= 0 ==> name[last_dot(name)] == '.',
    decreases name.len(),
{
    if name.len() > 0 && name.last() != '.' {
        lemma_last_dot_bounds(name.drop_last());
    }
}

fn last_dot_exec(name: &[char]) -> (d: Option<usize>)
    ensures
        d matches Some(i) ==> last_dot(name@) == i && i < name@.len(),
        d is None ==> last_dot(name@) == -1,
{
    let mut end = name.len();
    assert(name@.take(end as int) =~= name@);
    while end > 0 && name[end - 1] != '.'
        invariant
            end <= name@.len(),
            last_dot(name@) == last_dot(name@.take(end as int)),
        decreases end,
    {
        assert(name@.take(end as int).drop_last() =~= name@.take(end - 1));
        end = end - 1;
    }
    if end == 0 {
        None
    } else {
        Some(end - 1)
    }
}

/// `Path::file_name`.
pub fn file_name_of(p: &[char]) -> (r: Option<Vec<char>>)
    ensures
        match r {
            Some(v) => file_name(p@) == Some(v@),
            None => file_name(p@) is None,
        },
{
    let start: usize = if p.len() >= 2 && (('a' <= p[0] && p[0] <= 'z') || ('A' <= p[0] && p[0]
        <= 'Z')) && p[1] == ':' {
        2
    } else {
        0
    };
    let mut u: Vec<char> = Vec::new();
    let mut i = start;
    while i < p.len()
        invariant
            start <= i <= p@.len(),
            u@ == unify(p@.subrange(start as int, i as int)),
        decreases p@.len() - i,
    {
        let c = if p[i] == '/' {
            '\\'
        } else {
            p[i]
        };
        u.push(c);
        i = i + 1;
        assert(u@ =~= unify(p@.subrange(start as int, i as int)));
    }
    assert(p@.subrange(start as int, p@.len() as int) =~= without_drive(p@));
    let parts = split_vec(u.as_slice(), '\\');
    let ghost pieces = views(parts@);
    let mut n = parts.len();
    assert(pieces.take(n as int) =~= pieces);
    while n > 0 && (parts[n - 1].len() == 0 || (parts[n - 1].len() == 1 && parts[n - 1][0]
        == '.'))
        invariant
            n <= parts@.len(),
            pieces == views(parts@),
            last_named(pieces) == last_named(pieces.take(n as int)),
        decreases n,
    {
        proof {
            let q = pieces.take(n as int);
            assert(q.last() == parts@[n - 1]@);
            if parts@[n - 1]@.len() == 1 {
                assert(parts@[n - 1]@ =~= seq!['.']);
            }
            assert(q.drop_last() =~= pieces.take(n - 1));
        }
        n = n - 1;
    }
    if n == 0 {
        return None;
    }
    let ghost q = pieces.take(n as int);
    assert(q.last() == parts@[n - 1]@);
    assert(q.last() != seq!['.']) by {
        if parts@[n - 1]@.len() == 1 {
            assert(parts@[n - 1]@[0] == q.last()[0]);
        }
    }
    let last = slice_of(parts[n - 1].as_slice(), 0, parts[n - 1].len());
    assert(last@ =~= parts@[n - 1]@);
    if last.len() == 2 && last[0] == '.' && last[1] == '.' {
        assert(last@ =~= seq!['.', '.']);
        return None;
    }
    assert(last@ != seq!['.', '.']) by {
        if last@.len() == 2 {
            assert(seq!['.', '.'][0] == '.');
            assert(seq!['.', '.'][1] == '.');
        }
    }
    Some(last)
}

/// The extension of the file a path names, lowercased.
pub fn lower_extension_of(p: &str) -> (r: Option<Vec<char>>)
    ensures
        match r {
            Some(v) => lower_extension(p@) == Some(v@),
            None => lower_extension(p@) is None,
        },
{
    let chars = chars_of(p);
    match file_name_of(chars.as_slice()) {
        None => None,
        Some(name) => {
            proof {
                lemma_last_dot_bounds(name@);
            }
            match last_dot_exec(name.as_slice()) {
                Some(d) if d >= 1 => {
                    let n = name.len();
                    assert(d < n);
                    let e = slice_of(name.as_slice(), d + 1, n);
                    assert(e@ =~= name@.skip(d + 1));
                    Some(lower_vec(e.as_slice()))
                },
                _ => None,
            }
        },
    }
}

/// The stem of the file a path names.
pub fn stem_of(p: &str) -> (r: Option<Vec<char>>)
    ensures
        match r {
            Some(v) => file_name(p@) matches Some(name) && v@ == name_stem(name),
            None => file_name(p@) is None,
        },
{
    let chars = chars_of(p);
    match file_name_of(chars.as_slice()) {
        None => None,
        Some(name) => {
            proof {
                lemma_last_dot_bounds(name@);
            }
            match last_dot_exec(name.as_slice()) {
                Some(d) if d >= 1 => {
                    let s = slice_of(name.as_slice(), 0, d);
                    assert(s@ =~= name@.take(d as int));
                    Some(s)
                },
                _ => Some(name),
            }
        },
    }
}

/// Whether the lowercased extension is one of `choices`.
pub fn extension_in(p: &str, choices: &[&str]) -> (r: bool)
    ensures
        r == (lower_extension(p@) matches Some(e) && exists|i: int|
            0 <= i < choices@.len() && e == (#[trigger] choices@[i])@),
{
    match lower_extension_of(p) {
        None => false,
        Some(e) => {
            let mut i: usize = 0;
            while i < choices.len()
                invariant
                    i <= choices@.len(),
                    lower_extension(p@) == Some(e@),
                    forall|j: int| 0 <= j < i ==> e@ != (#[trigger] choices@[j])@,
                decreases choices@.len() - i,
            {
                if same_str(e.as_slice(), choices[i]) {
                    assert(e@ == choices@[i as int]@);
                    assert(lower_extension(p@) == Some(e@));
                    assert(0 <= i < choices@.len() && e@ == (choices@[i as int])@);
                    return true;
                }
                i = i + 1;
            }
            false
        },
    }
}

} // verus!

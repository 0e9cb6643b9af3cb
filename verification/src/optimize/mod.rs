//! Rewriting a clip once so it costs less every time it plays: where the
//! rewritten file goes, and what it is encoded at.

pub mod encode;

use vstd::prelude::*;

use crate::paths::{file_name, is_ascii_alpha, is_sep, name_stem, stem_of};
use crate::text::{decimal, push_chars, push_decimal, push_str};

verus! {

broadcast use vstd::string::group_string_axioms;

/// A clip being rewritten smaller. `F` is the number type progress is kept
/// in, 0 to 1, measured against the clip's duration.
#[derive(Clone)]
pub struct Job<F> {
    pub source: String,
    pub progress: F,
    /// Set when the file is finished and ready to be added to the library.
    pub output: Option<String>,
    /// Set when it will not be finished, in words for the user.
    pub error: Option<String>,
}

/// `Path::join` on Windows: a separator goes between the two unless the
/// first is empty, already ends in one, or is a bare drive such as `C:`.
pub open spec fn join_path(dir: Seq<char>, name: Seq<char>) -> Seq<char> {
    if dir.len() == 0 || is_sep(dir.last()) || (dir.len() == 2 && is_ascii_alpha(dir[0]) && dir[1]
        == ':') {
        dir + name
    } else {
        dir + seq!['\\'] + name
    }
}

/// `<stem> <width>x<height>.mp4`: the name carries the size so two desktops
/// with different screens do not fight over one file.
pub open spec fn output_name(stem: Seq<char>, size: (u32, u32)) -> Seq<char> {
    stem + seq![' '] + decimal(size.0 as nat) + seq!['x'] + decimal(size.1 as nat) + ".mp4"@
}

/// Where a rewritten clip of `source` at `size` goes: in `light_dir`, the
/// folder rewritten clips are kept in, and not next to the original. `None`
/// for a source that names no file.
pub open spec fn spec_output_path(light_dir: Seq<char>, source: Seq<char>, size: (u32, u32)) -> Option<
    Seq<char>,
> {
    match file_name(source) {
        Some(name) => Some(join_path(light_dir, output_name(name_stem(name), size))),
        None => None,
    }
}

/// The path a rewritten clip gets.
///
/// Not next to the original: the library is often a read-only folder, a
/// network share, or somewhere the user would not welcome a second file
/// appearing. `light_dir` is the folder beside the session file, so an
/// uninstall takes it with everything else.
pub fn output_path(light_dir: &str, source: &str, size: (u32, u32)) -> (r: Option<String>)
    ensures
        match r {
            Some(p) => spec_output_path(light_dir@, source@, size) == Some(p@),
            None => spec_output_path(light_dir@, source@, size) is None,
        },
{
    let stem = match stem_of(source) {
        Some(s) => s,
        None => {
            return None;
        },
    };
    let dir = crate::text::chars_of(light_dir);
    let mut out = String::new();
    push_chars(&mut out, dir.as_slice());
    let n = dir.len();
    let bare_drive = n == 2 && is_alpha_exec(dir[0]) && dir[1] == ':';
    if !(n == 0 || dir[n - 1] == '\\' || dir[n - 1] == '/' || bare_drive) {
        crate::text::push_char(&mut out, '\\');
    }
    let ghost head = out@;
    push_chars(&mut out, stem.as_slice());
    crate::text::push_char(&mut out, ' ');
    push_decimal(&mut out, size.0 as u64);
    crate::text::push_char(&mut out, 'x');
    push_decimal(&mut out, size.1 as u64);
    push_str(&mut out, ".mp4");
    proof {
        assert(out@ =~= head + output_name(stem@, size));
        if n == 0 || is_sep(dir@.last()) || bare_drive {
            assert(head == light_dir@);
        } else {
            assert(head == light_dir@ + seq!['\\']);
        }
        assert(out@ =~= join_path(light_dir@, output_name(stem@, size)));
    }
    Some(out)
}

fn is_alpha_exec(c: char) -> (r: bool)
    ensures
        r == is_ascii_alpha(c),
{
    ('a' <= c && c <= 'z') || ('A' <= c && c <= 'Z')
}

} // verus!

//! Shadertoy shaders, translated well enough to run.
//!
//! A dialect translator, not a GLSL compiler: it renames the words that
//! differ (`vec3` to `float3`, `mix` to `lerp`) and wraps Shadertoy's
//! `mainImage(out vec4, in vec2)` in the one-argument form the shader
//! wallpaper expects. The translation is line for line, so the compiler's
//! line numbers still belong to the user's file.

use vstd::prelude::*;

use crate::paths::{extension_in, lower_extension};
use crate::text::{
    chars_of, has_sub, has_sub_str, lines, lines_vec, push_char, push_chars, push_str, same_str, starts_with,
    string_of, trim_bounds, trim_start, views,
};

verus! {

broadcast use vstd::string::group_string_axioms;

/// Words that mean the same thing under a different name, tried in order.
pub const RENAMES: [(&'static str, &'static str); 20] = [
    ("vec2", "float2"),
    ("vec3", "float3"),
    ("vec4", "float4"),
    ("ivec2", "int2"),
    ("ivec3", "int3"),
    ("ivec4", "int4"),
    ("bvec2", "bool2"),
    ("bvec3", "bool3"),
    ("bvec4", "bool4"),
    ("mat2", "float2x2"),
    ("mat3", "float3x3"),
    ("mat4", "float4x4"),
    ("mix", "lerp"),
    ("fract", "frac"),
    ("mod", "fmod"),
    ("dFdx", "ddx"),
    ("dFdy", "ddy"),
    ("inversesqrt", "rsqrt"),
    ("atan", "atan2"),
    // Shadertoy's resolution is a float3 and ours a float2; the prelude
    // carries the third component.
    ("iResolution", "iResolutionXYZ"),
];

/// The one-argument entry point appended after the translated body.
pub const WRAPPER: &'static str = "\nfloat4 mainImage(float2 uv)\n{\n    float4 colour = float4(0.0, 0.0, 0.0, 1.0);\n    muivlyShadertoyMain(colour, uv * iResolution);\n    return colour;\n}\n";

/// What a shader that samples a texture channel is told.
pub const NEEDS_CHANNEL: &'static str = "this shader samples a texture channel (iChannel0), and Muivly has nothing to bind to one";

/// What a shader without an entry point is told.
pub const NO_ENTRY: &'static str = "the shader has no mainImage function";

/// The rename table as pairs of character runs.
pub open spec fn renames() -> Seq<(Seq<char>, Seq<char>)> {
    RENAMES@.map_values(|p: (&str, &str)| (p.0@, p.1@))
}

/// The first rename for `word`, if the table has one.
pub open spec fn lookup(table: Seq<(Seq<char>, Seq<char>)>, word: Seq<char>) -> Option<Seq<char>>
    decreases table.len(),
{
    if table.len() == 0 {
        None
    } else if table[0].0 == word {
        Some(table[0].1)
    } else {
        lookup(table.drop_first(), word)
    }
}

/// What one whole word becomes.
pub open spec fn renamed(word: Seq<char>) -> Seq<char> {
    if word == "mainImage"@ {
        "muivlyShadertoyMain"@
    } else {
        match lookup(renames(), word) {
            Some(to) => to,
            None => word,
        }
    }
}

/// A character that can begin a word: an ASCII letter or an underscore.
pub open spec fn is_word_start(c: char) -> bool {
    ('a' <= c && c <= 'z') || ('A' <= c && c <= 'Z') || c == '_'
}

/// A character that can go on with a word: one that can begin one, or an
/// ASCII digit.
pub open spec fn is_word(c: char) -> bool {
    is_word_start(c) || ('0' <= c && c <= '9')
}

/// How many word characters `b` begins with.
pub open spec fn word_len(b: Seq<char>) -> nat
    decreases b.len(),
{
    if b.len() > 0 && is_word(b[0]) {
        1 + word_len(b.drop_first())
    } else {
        0
    }
}

/// One line with every whole word renamed and every other character kept.
pub open spec fn rewrite(b: Seq<char>) -> Seq<char>
    decreases b.len(),
{
    if b.len() == 0 {
        Seq::empty()
    } else if !is_word_start(b[0]) {
        seq![b[0]] + rewrite(b.drop_first())
    } else {
        let n = word_len(b);
        if 0 < n <= b.len() {
            renamed(b.take(n as int)) + rewrite(b.skip(n as int))
        } else {
            Seq::empty()
        }
    }
}

/// What one line of the file becomes: a preprocessor line is kept exactly.
pub open spec fn translate_line(line: Seq<char>) -> Seq<char> {
    if starts_with(trim_start(line), seq!['#']) {
        line
    } else {
        rewrite(line)
    }
}

/// The lines translated, each ended with a newline.
pub open spec fn translate_lines(ls: Seq<Seq<char>>) -> Seq<char>
    decreases ls.len(),
{
    if ls.len() == 0 {
        Seq::empty()
    } else {
        translate_lines(ls.drop_last()) + translate_line(ls.last()) + seq!['\n']
    }
}

/// The whole translation: the body line for line, then the wrapper.
pub open spec fn spec_translate(source: Seq<char>) -> Seq<char> {
    translate_lines(lines(source)) + WRAPPER@
}

/// Whether this file is GLSL rather than HLSL.
pub fn is_glsl(path: &str) -> (r: bool)
    ensures
        r == (lower_extension(path@) matches Some(e) && (e == "glsl"@ || e == "frag"@)),
{
    let choices: [&str; 2] = ["glsl", "frag"];
    let r = extension_in(path, choices.as_slice());
    proof {
        let c = choices@;
        if let Some(e) = lower_extension(path@) {
            if r {
                let i = choose|i: int| 0 <= i < c.len() && e == (#[trigger] c[i])@;
                assert(i == 0 || i == 1);
            }
            if e == "glsl"@ {
                assert(e == c[0]@);
            }
            if e == "frag"@ {
                assert(e == c[1]@);
            }
        }
    }
    r
}

/// The message for a shader this cannot run, or `None` if it looks runnable.
pub fn unsupported(source: &str) -> (r: Option<String>)
    ensures
        has_sub(source@, "iChannel"@) ==> (r matches Some(m) && m@ == NEEDS_CHANNEL@),
        !has_sub(source@, "iChannel"@) && !has_sub(source@, "mainImage"@) ==> (r matches Some(m)
            && m@ == NO_ENTRY@),
        !has_sub(source@, "iChannel"@) && has_sub(source@, "mainImage"@) ==> r is None,
{
    let s = chars_of(source);
    if has_sub_str(s.as_slice(), "iChannel") {
        let m = chars_of(NEEDS_CHANNEL);
        return Some(string_of(m.as_slice()));
    }
    if !has_sub_str(s.as_slice(), "mainImage") {
        let m = chars_of(NO_ENTRY);
        return Some(string_of(m.as_slice()));
    }
    None
}

fn is_word_start_exec(c: char) -> (r: bool)
    ensures
        r == is_word_start(c),
{
    ('a' <= c && c <= 'z') || ('A' <= c && c <= 'Z') || c == '_'
}

fn is_word_exec(c: char) -> (r: bool)
    ensures
        r == is_word(c),
{
    is_word_start_exec(c) || ('0' <= c && c <= '9')
}

/// What a whole word becomes, appended to `out`.
fn push_renamed(out: &mut String, word: &[char])
    ensures
        final(out)@ == old(out)@ + renamed(word@),
{
    if same_str(word, "mainImage") {
        push_str(out, "muivlyShadertoyMain");
        return;
    }
    let ghost table = renames();
    let mut i: usize = 0;
    assert(table.skip(0) =~= table);
    while i < 20
        invariant
            i <= 20,
            out@ == old(out)@,
            table == renames(),
            word@ != "mainImage"@,
            lookup(table, word@) == lookup(table.skip(i as int), word@),
        decreases 20 - i,
    {
        let (from, to) = RENAMES[i];
        assert(table.skip(i as int)[0] == (from@, to@));
        if same_str(word, from) {
            push_str(out, to);
            return;
        }
        assert(table.skip(i as int).drop_first() =~= table.skip(i + 1));
        i = i + 1;
    }
    assert(table.skip(20).len() == 0);
    push_chars(out, word);
}

/// Word replacements inside one line of code, plus the `mainImage` rename.
/// Whole words only: `modifier` survives a rename of `mod`. Every other
/// character is kept as it is.
pub fn rewrite_line(line: &str) -> (r: String)
    ensures
        r@ == rewrite(line@),
{
    let chars = chars_of(line);
    rewrite_chars(chars.as_slice())
}

fn rewrite_chars(line: &[char]) -> (r: String)
    ensures
        r@ == rewrite(line@),
{
    let ghost b = line@;
    let mut out = String::new();
    let mut index: usize = 0;
    assert(b.skip(0) =~= b);
    while index < line.len()
        invariant
            b == line@,
            index <= b.len(),
            out@ + rewrite(b.skip(index as int)) == rewrite(b),
        decreases b.len() - index,
    {
        let ghost rest = b.skip(index as int);
        if !is_word_start_exec(line[index]) {
            push_char(&mut out, line[index]);
            proof {
                assert(rest[0] == b[index as int]);
                assert(rest.drop_first() =~= b.skip(index + 1));
                assert(out@ + rewrite(b.skip(index + 1)) =~= old_plus(out@, rest));
            }
            index = index + 1;
        } else {
            let start = index;
            let mut word: Vec<char> = Vec::new();
            while index < line.len() && is_word_exec(line[index])
                invariant
                    b == line@,
                    start <= index <= b.len(),
                    word_len(b.skip(start as int)) == (index - start) + word_len(b.skip(index as int)),
                    word@ == b.subrange(start as int, index as int),
                decreases b.len() - index,
            {
                assert(b.skip(index as int).drop_first() =~= b.skip(index + 1));
                word.push(line[index]);
                index = index + 1;
                assert(word@ =~= b.subrange(start as int, index as int));
            }
            proof {
                assert(rest[0] == b[start as int]);
                assert(word_len(b.skip(index as int)) == 0);
                assert(rest.take((index - start) as int) =~= b.subrange(start as int, index as int));
                assert(rest.skip((index - start) as int) =~= b.skip(index as int));
            }
            push_renamed(&mut out, word.as_slice());
            proof {
                assert(out@ + rewrite(b.skip(index as int)) =~= old_plus_word(out@, rest));
            }
        }
    }
    assert(b.skip(index as int).len() == 0);
    assert(out@ + rewrite(b.skip(index as int)) =~= out@);
    out
}

spec fn old_plus(x: Seq<char>, rest: Seq<char>) -> Seq<char> {
    x + rewrite(rest.drop_first())
}

spec fn old_plus_word(x: Seq<char>, rest: Seq<char>) -> Seq<char> {
    x + rewrite(rest.skip(word_len(rest) as int))
}

/// One line, translated.
fn translate_one(out: &mut String, line: &[char])
    ensures
        final(out)@ == old(out)@ + translate_line(line@),
{
    let (lo, _hi) = trim_bounds(line);
    let hash = lo < line.len() && line[lo] == '#';
    proof {
        let t = trim_start(line@);
        assert(t == line@.skip(lo as int));
        if hash {
            assert(t.take(1) =~= seq!['#']);
        }
        if !hash && lo < line@.len() {
            assert(t.take(1)[0] == line@[lo as int]);
        }
    }
    if hash {
        push_chars(out, line);
    } else {
        let rewritten = rewrite_chars(line);
        push_str(out, rewritten.as_str());
    }
}

/// Turn a Shadertoy shader into something the shader wallpaper compiles.
/// Every rewrite happens within its own line and the wrapper goes on the
/// end, so a compiler error still points at the line the user wrote.
pub fn translate(source: &str) -> (r: String)
    ensures
        r@ == spec_translate(source@),
{
    let chars = chars_of(source);
    let ls = lines_vec(chars.as_slice());
    let ghost all = views(ls@);
    let mut out = String::new();
    let mut i: usize = 0;
    assert(all.take(0) =~= Seq::<Seq<char>>::empty());
    while i < ls.len()
        invariant
            i <= ls@.len(),
            all == views(ls@),
            out@ == translate_lines(all.take(i as int)),
        decreases ls@.len() - i,
    {
        translate_one(&mut out, ls[i].as_slice());
        push_char(&mut out, '\n');
        proof {
            assert(all.take(i + 1).drop_last() =~= all.take(i as int));
            assert(all.take(i + 1).last() == ls@[i as int]@);
            assert((10u8 as char) == '\n');
        }
        i = i + 1;
    }
    assert(all.take(i as int) =~= all);
    push_str(&mut out, WRAPPER);
    out
}

// ---------------------------------------------------------------------------
// Every rename in the table applies
// ---------------------------------------------------------------------------

/// Length, first and last character: enough to tell the table's words apart.
spec fn shape(w: Seq<char>) -> (nat, char, char) {
    (w.len(), w[0], w[w.len() - 1])
}

spec fn entry_shape(k: int) -> (nat, char, char) {
    if k == 0 {
        (4nat, 'v', '2')
    } else if k == 1 {
        (4nat, 'v', '3')
    } else if k == 2 {
        (4nat, 'v', '4')
    } else if k == 3 {
        (5nat, 'i', '2')
    } else if k == 4 {
        (5nat, 'i', '3')
    } else if k == 5 {
        (5nat, 'i', '4')
    } else if k == 6 {
        (5nat, 'b', '2')
    } else if k == 7 {
        (5nat, 'b', '3')
    } else if k == 8 {
        (5nat, 'b', '4')
    } else if k == 9 {
        (4nat, 'm', '2')
    } else if k == 10 {
        (4nat, 'm', '3')
    } else if k == 11 {
        (4nat, 'm', '4')
    } else if k == 12 {
        (3nat, 'm', 'x')
    } else if k == 13 {
        (5nat, 'f', 't')
    } else if k == 14 {
        (3nat, 'm', 'd')
    } else if k == 15 {
        (4nat, 'd', 'x')
    } else if k == 16 {
        (4nat, 'd', 'y')
    } else if k == 17 {
        (11nat, 'i', 't')
    } else if k == 18 {
        (4nat, 'a', 'n')
    } else {
        (11nat, 'i', 'n')
    }
}

/// A word made of word characters only.
spec fn all_word(w: Seq<char>) -> bool {
    w.len() > 0 && is_word_start(w[0]) && forall|i: int| 0 <= i < w.len() ==> is_word(#[trigger] w[i])
}

proof fn lemma_entry(k: int)
    requires
        0 <= k < 20,
    ensures
        renames().len() == 20,
        shape(renames()[k].0) == entry_shape(k),
        all_word(renames()[k].0),
        renames()[k].0.len() != 9,
        renames()[k] == (RENAMES@[k].0@, RENAMES@[k].1@),
{
    reveal_strlit("vec2");
    reveal_strlit("vec3");
    reveal_strlit("vec4");
    reveal_strlit("ivec2");
    reveal_strlit("ivec3");
    reveal_strlit("ivec4");
    reveal_strlit("bvec2");
    reveal_strlit("bvec3");
    reveal_strlit("bvec4");
    reveal_strlit("mat2");
    reveal_strlit("mat3");
    reveal_strlit("mat4");
    reveal_strlit("mix");
    reveal_strlit("fract");
    reveal_strlit("mod");
    reveal_strlit("dFdx");
    reveal_strlit("dFdy");
    reveal_strlit("inversesqrt");
    reveal_strlit("atan");
    reveal_strlit("iResolution");
    let f = renames()[k].0;
    if k == 0 {
        assert(f == "vec2"@);
    } else if k == 1 {
        assert(f == "vec3"@);
    } else if k == 2 {
        assert(f == "vec4"@);
    } else if k == 3 {
        assert(f == "ivec2"@);
    } else if k == 4 {
        assert(f == "ivec3"@);
    } else if k == 5 {
        assert(f == "ivec4"@);
    } else if k == 6 {
        assert(f == "bvec2"@);
    } else if k == 7 {
        assert(f == "bvec3"@);
    } else if k == 8 {
        assert(f == "bvec4"@);
    } else if k == 9 {
        assert(f == "mat2"@);
    } else if k == 10 {
        assert(f == "mat3"@);
    } else if k == 11 {
        assert(f == "mat4"@);
    } else if k == 12 {
        assert(f == "mix"@);
    } else if k == 13 {
        assert(f == "fract"@);
    } else if k == 14 {
        assert(f == "mod"@);
    } else if k == 15 {
        assert(f == "dFdx"@);
    } else if k == 16 {
        assert(f == "dFdy"@);
    } else if k == 17 {
        assert(f == "inversesqrt"@);
    } else if k == 18 {
        assert(f == "atan"@);
    } else if k == 19 {
        assert(f == "iResolution"@);
    }
}

proof fn lemma_lookup_at(table: Seq<(Seq<char>, Seq<char>)>, w: Seq<char>, k: int)
    requires
        0 <= k < table.len(),
        table[k].0 == w,
        forall|j: int| 0 <= j < k ==> (#[trigger] table[j]).0 != w,
    ensures
        lookup(table, w) == Some(table[k].1),
    decreases k,
{
    if k > 0 {
        let rest = table.drop_first();
        assert(table[0].0 != w);
        assert forall|j: int| 0 <= j < k - 1 implies (#[trigger] rest[j]).0 != w by {
            assert(rest[j] == table[j + 1]);
        }
        lemma_lookup_at(rest, w, k - 1);
    }
}

proof fn lemma_word_len_of(w: Seq<char>, rest: Seq<char>)
    requires
        forall|i: int| 0 <= i < w.len() ==> is_word(#[trigger] w[i]),
        rest.len() == 0 || !is_word(rest[0]),
    ensures
        word_len(w + rest) == w.len(),
    decreases w.len(),
{
    if w.len() == 0 {
        assert(w + rest =~= rest);
    } else {
        assert((w + rest)[0] == w[0]);
        assert((w + rest).drop_first() =~= w.drop_first() + rest);
        assert forall|i: int| 0 <= i < w.drop_first().len() implies is_word(#[trigger] w.drop_first()[i]) by {
            assert(w.drop_first()[i] == w[i + 1]);
        }
        lemma_word_len_of(w.drop_first(), rest);
    }
}

/// Every entry of the rename table takes effect: its word, standing whole
/// at the start of a line, becomes its replacement, and the rest of the
/// line is rewritten as it would be on its own. No entry is hidden behind
/// an earlier one for the same word.
pub proof fn lemma_every_rename_applies(k: int, rest: Seq<char>)
    requires
        0 <= k < RENAMES@.len(),
        rest.len() == 0 || !is_word(rest[0]),
    ensures
        renamed(RENAMES@[k].0@) == RENAMES@[k].1@,
        rewrite(RENAMES@[k].0@ + rest) == RENAMES@[k].1@ + rewrite(rest),
{
    lemma_entry(k);
    let t = renames();
    let from = t[k].0;
    assert forall|j: int| 0 <= j < k implies (#[trigger] t[j]).0 != from by {
        lemma_entry(j);
        assert(entry_shape(j) != entry_shape(k));
    }
    lemma_lookup_at(t, from, k);
    reveal_strlit("mainImage");
    assert(from != "mainImage"@);
    let b = from + rest;
    lemma_word_len_of(from, rest);
    assert(b[0] == from[0]);
    assert(b.take(from.len() as int) =~= from);
    assert(b.skip(from.len() as int) =~= rest);
}

} // verus!

//! Wallpapers that are a program rather than a file of pixels.
//!
//! A `.hlsl` file defines one function, `float4 mainImage(float2 uv)`, and
//! everything else (the vertex shader, the entry point, the constant buffer)
//! is supplied here as a prelude. Because the prelude sits in front of the
//! user's file, the compiler's line numbers have to be moved back before the
//! user reads them.

use vstd::prelude::*;

use crate::ipc::{is_relation, relation_fn};
use crate::paths::{extension_in, lower_extension};
use crate::session::{is_reader, is_test, reader_fn, tester_fn};
use crate::text::{
    chars_of, decimal, decimal_vec, find, join, lines, lines_vec, parse_unsigned,
    parse_unsigned_vec, push_chars, push_joined, slice_of, string_of, trim, trim_vec, views,
    lemma_find_bounds, is_ws, starts_with, trim_start,
};

verus! {

broadcast use vstd::string::group_string_axioms;

/// How many settings one shader may declare.
pub const MAX_PARAMS: usize = 8;

/// The largest a generated frame is ever made.
pub const CEILING: (u32, u32) = (2560, 1440);

/// Everything the user's file may rely on, prepended to it.
pub const PRELUDE: &'static str = r#"
cbuffer Muivly : register(b0)
{
    float2 iResolution;  // the frame size in pixels
    float  iTime;        // seconds since this wallpaper started
    float  iFrame;       // frames drawn since it started
    float2 iMouse;       // the cursor, -1 to 1 across the desktop
    float  iLevel;       // how loud the machine is, 0 to 1
    float  iBandCount;   // how many entries iBands carries
    float4 iBands[2];    // the sound split into bands, bass first, 0 to 1
    float4 muivlyParams[2];
};

#define iResolutionXYZ float3(iResolution, 1.0)

float iBand(int index)
{
    return iBands[index / 4][index % 4];
}

struct MuivlyVSOut
{
    float4 pos : SV_POSITION;
    float2 uv  : TEXCOORD0;
};

MuivlyVSOut vs_main(uint id : SV_VertexID)
{
    MuivlyVSOut o;
    o.uv  = float2((id << 1) & 2, id & 2);
    o.pos = float4(o.uv * float2(2.0, -2.0) + float2(-1.0, 1.0), 0.0, 1.0);
    return o;
}
"#;

/// Whether a file is a shader: its extension says so, in any case.
pub open spec fn spec_is_shader(path: Seq<char>) -> bool {
    lower_extension(path) matches Some(e) && (e == "hlsl"@ || e == "fx"@ || e == "glsl"@ || e == "frag"@)
}

/// Whether this file is a shader rather than something to decode.
pub fn is_shader(path: &str) -> (r: bool)
    ensures
        r == spec_is_shader(path@),
{
    let choices: [&str; 4] = ["hlsl", "fx", "glsl", "frag"];
    let r = extension_in(path, choices.as_slice());
    proof {
        let c = choices@;
        if let Some(e) = lower_extension(path@) {
            if r {
                let i = choose|i: int| 0 <= i < c.len() && e == (#[trigger] c[i])@;
                assert(0 <= i < 4);
            }
            if e == "hlsl"@ {
                assert(e == c[0]@);
            }
            if e == "fx"@ {
                assert(e == c[1]@);
            }
            if e == "glsl"@ {
                assert(e == c[2]@);
            }
            if e == "frag"@ {
                assert(e == c[3]@);
            }
        }
    }
    r
}

pub open spec fn is_ident_start(c: char) -> bool {
    ('a' <= c && c <= 'z') || ('A' <= c && c <= 'Z') || c == '_'
}

pub open spec fn is_ident_char(c: char) -> bool {
    is_ident_start(c) || ('0' <= c && c <= '9')
}

/// A letter or underscore, then letters, digits and underscores.
pub open spec fn spec_is_identifier(name: Seq<char>) -> bool {
    name.len() > 0 && is_ident_start(name[0]) && forall|i: int|
        1 <= i < name.len() ==> is_ident_char(#[trigger] name[i])
}

/// Whether a declared setting's name can be used as a `#define`.
pub fn is_identifier(name: &str) -> (r: bool)
    ensures
        r == spec_is_identifier(name@),
{
    let v = chars_of(name);
    if v.len() == 0 {
        return false;
    }
    let c = v[0];
    if !(('a' <= c && c <= 'z') || ('A' <= c && c <= 'Z') || c == '_') {
        return false;
    }
    let mut i: usize = 1;
    while i < v.len()
        invariant
            1 <= i <= v@.len(),
            v@ == name@,
            forall|j: int| 1 <= j < i ==> is_ident_char(#[trigger] v@[j]),
        decreases v@.len() - i,
    {
        let d = v[i];
        if !(('a' <= d && d <= 'z') || ('A' <= d && d <= 'Z') || d == '_' || ('0' <= d && d
            <= '9')) {
            assert(!is_ident_char(v@[i as int]));
            return false;
        }
        i = i + 1;
    }
    true
}

/// How many lines the prelude adds in front of the user's file.
pub open spec fn spec_prelude_lines() -> nat {
    lines(PRELUDE@).len() + 1
}

/// How many lines the prelude adds in front of the user's file: its own,
/// and the one the file's text is joined on after it.
pub fn prelude_lines() -> (n: usize)
    ensures
        n == spec_prelude_lines(),
{
    let v = chars_of(PRELUDE);
    let ls = lines_vec(v.as_slice());
    assert(views(ls@).len() == ls@.len());
    assert(ls@.len() < 2000) by {
        crate::text::lemma_lines_len(v@);
        // The prelude is a fixed text of well under two thousand characters.
        reveal_strlit(r#"
cbuffer Muivly : register(b0)
{
    float2 iResolution;  // the frame size in pixels
    float  iTime;        // seconds since this wallpaper started
    float  iFrame;       // frames drawn since it started
    float2 iMouse;       // the cursor, -1 to 1 across the desktop
    float  iLevel;       // how loud the machine is, 0 to 1
    float  iBandCount;   // how many entries iBands carries
    float4 iBands[2];    // the sound split into bands, bass first, 0 to 1
    float4 muivlyParams[2];
};

#define iResolutionXYZ float3(iResolution, 1.0)

float iBand(int index)
{
    return iBands[index / 4][index % 4];
}

struct MuivlyVSOut
{
    float4 pos : SV_POSITION;
    float2 uv  : TEXCOORD0;
};

MuivlyVSOut vs_main(uint id : SV_VertexID)
{
    MuivlyVSOut o;
    o.uv  = float2((id << 1) & 2, id & 2);
    o.pos = float4(o.uv * float2(2.0, -2.0) + float2(-1.0, 1.0), 0.0, 1.0);
    return o;
}
"#);
    }
    ls.len() + 1
}

/// The pieces of `some.hlsl(43,7-9): error X3004: ...`: the file name, the
/// line number, everything after the number inside the brackets (comma
/// included), and everything after the closing bracket.
pub struct Location {
    pub name: String,
    pub line: usize,
    pub column: String,
    pub rest: String,
}

/// The pieces of a compiler message line that names a location, if it has
/// one: an opening bracket, a closing bracket after it, and a positive line
/// number (whitespace around it allowed) before any comma between them.
pub open spec fn spec_split_location(line: Seq<char>) -> Option<
    (Seq<char>, nat, Seq<char>, Seq<char>),
> {
    let open = find(line, '(');
    if open < 0 {
        None
    } else {
        let c = find(line.skip(open), ')');
        if c < 0 {
            None
        } else {
            let close = open + c;
            let inside = line.subrange(open + 1, close);
            let comma = find(inside, ',');
            let number = if comma >= 0 {
                inside.take(comma)
            } else {
                inside
            };
            let column = if comma >= 0 {
                inside.skip(comma)
            } else {
                Seq::empty()
            };
            match parse_unsigned(trim(number), usize::MAX as nat) {
                Some(n) => if n > 0 {
                    Some((line.take(open), n, column, line.skip(close + 1)))
                } else {
                    None
                },
                None => None,
            }
        }
    }
}

fn find_exec(v: &[char], from: usize, c: char) -> (r: Option<usize>)
    requires
        from <= v@.len(),
    ensures
        match r {
            Some(i) => from <= i < v@.len() && v@[i as int] == c && find(v@.skip(from as int), c)
                == i - from,
            None => find(v@.skip(from as int), c) < 0,
        },
{
    let mut i = from;
    assert(v@.skip(from as int).skip(0) =~= v@.skip(from as int));
    while i < v.len()
        invariant
            from <= i <= v@.len(),
            forall|j: int| from <= j < i ==> v@[j] != c,
        decreases v@.len() - i,
    {
        if v[i] == c {
            proof {
                lemma_find_bounds(v@.skip(from as int), c);
                let s = v@.skip(from as int);
                let f = find(s, c);
                assert(s[(i - from) as int] == c);
                if f >= 0 && f < i - from {
                    assert(s[f] == v@[from + f]);
                }
            }
            return Some(i);
        }
        i = i + 1;
    }
    proof {
        lemma_find_bounds(v@.skip(from as int), c);
        let s = v@.skip(from as int);
        let f = find(s, c);
        if f >= 0 {
            assert(s[f] == v@[from + f]);
        }
    }
    None
}

/// The pieces of a compiler message line that names a location.
pub fn split_location(line: &str) -> (r: Option<Location>)
    ensures
        match r {
            Some(loc) => spec_split_location(line@) == Some(
                (loc.name@, loc.line as nat, loc.column@, loc.rest@),
            ),
            None => spec_split_location(line@) is None,
        },
{
    let v = chars_of(line);
    let open = match find_exec(v.as_slice(), 0, '(') {
        Some(i) => i,
        None => {
            assert(v@.skip(0) =~= v@);
            return None;
        },
    };
    assert(v@.skip(0) =~= v@);
    let close = match find_exec(v.as_slice(), open, ')') {
        Some(i) => i,
        None => {
            return None;
        },
    };
    let inside = slice_of(v.as_slice(), open + 1, close);
    let (number, column) = match find_exec(inside.as_slice(), 0, ',') {
        Some(comma) => {
            assert(inside@.skip(0) =~= inside@);
            (slice_of(inside.as_slice(), 0, comma), slice_of(inside.as_slice(), comma, inside.len()))
        },
        None => {
            assert(inside@.skip(0) =~= inside@);
            (slice_of(inside.as_slice(), 0, inside.len()), Vec::new())
        },
    };
    proof {
        assert(inside@.take(inside@.len() as int) =~= inside@);
        assert(inside@.skip(inside@.len() as int) =~= Seq::<char>::empty());
        assert(inside@.subrange(0, inside@.len() as int) =~= inside@);
        assert(column@ =~= if find(inside@, ',') >= 0 { inside@.skip(find(inside@, ',')) } else { Seq::<char>::empty() });
        assert(number@ =~= if find(inside@, ',') >= 0 { inside@.take(find(inside@, ',')) } else { inside@ });
    }
    let t = trim_vec(number.as_slice());
    let n = match parse_unsigned_vec(t.as_slice(), usize::MAX as u64) {
        Some(n) if n > 0 => n as usize,
        _ => {
            return None;
        },
    };
    let name = slice_of(v.as_slice(), 0, open);
    let len = v.len();
    assert(close < len);
    let rest = slice_of(v.as_slice(), close + 1, len);
    assert(name@ =~= v@.take(open as int));
    assert(rest@ =~= v@.skip(close + 1));
    Some(
        Location {
            name: string_of(name.as_slice()),
            line: n,
            column: string_of(column.as_slice()),
            rest: string_of(rest.as_slice()),
        },
    )
}

/// One message line with its line number moved back by `offset`, when it
/// names a line past the prelude.
pub open spec fn shift_one(line: Seq<char>, offset: nat) -> Seq<char> {
    match spec_split_location(line) {
        Some((name, n, column, rest)) => if n > offset {
            name + seq!['('] + decimal((n - offset) as nat) + column + seq![')'] + rest
        } else {
            line
        },
        None => line,
    }
}

/// The whole message with every line shifted, joined with newlines.
pub open spec fn spec_shift_line_numbers(message: Seq<char>, extra: nat) -> Seq<char> {
    join(
        lines(message).map_values(|l: Seq<char>| shift_one(l, spec_prelude_lines() + extra)),
        seq!['\n'],
    )
}

fn shift_one_exec(line: &[char], offset: usize) -> (r: Vec<char>)
    ensures
        r@ == shift_one(line@, offset as nat),
{
    let text = string_of(line);
    match split_location(text.as_str()) {
        Some(loc) => {
            if loc.line > offset {
                let mut r = chars_of(loc.name.as_str());
                r.push('(');
                let d = decimal_vec((loc.line - offset) as u64);
                let mut k: usize = 0;
                let ghost base = r@;
                while k < d.len()
                    invariant
                        k <= d@.len(),
                        r@ == base + d@.take(k as int),
                    decreases d@.len() - k,
                {
                    r.push(d[k]);
                    k = k + 1;
                    assert(r@ =~= base + d@.take(k as int));
                }
                assert(d@.take(k as int) =~= d@);
                let c = chars_of(loc.column.as_str());
                let mut k: usize = 0;
                let ghost base = r@;
                while k < c.len()
                    invariant
                        k <= c@.len(),
                        r@ == base + c@.take(k as int),
                    decreases c@.len() - k,
                {
                    r.push(c[k]);
                    k = k + 1;
                    assert(r@ =~= base + c@.take(k as int));
                }
                assert(c@.take(k as int) =~= c@);
                r.push(')');
                let rest = chars_of(loc.rest.as_str());
                let mut k: usize = 0;
                let ghost base = r@;
                while k < rest.len()
                    invariant
                        k <= rest@.len(),
                        r@ == base + rest@.take(k as int),
                    decreases rest@.len() - k,
                {
                    r.push(rest[k]);
                    k = k + 1;
                    assert(r@ =~= base + rest@.take(k as int));
                }
                assert(rest@.take(k as int) =~= rest@);
                assert(r@ =~= loc.name@ + seq!['('] + decimal((loc.line - offset) as nat) + loc.column@
                    + seq![')'] + loc.rest@);
                r
            } else {
                slice_of(line, 0, line.len())
            }
        },
        None => slice_of(line, 0, line.len()),
    }
}

/// Put the compiler's line numbers back into the user's file. `extra` is
/// how many lines the declared settings added between the prelude and the
/// body. A line inside the prelude, or one without a location, is left as
/// it was.
pub fn shift_line_numbers(message: &str, extra: usize) -> (r: String)
    requires
        extra + spec_prelude_lines() <= usize::MAX,
    ensures
        r@ == spec_shift_line_numbers(message@, extra as nat),
{
    let offset = prelude_lines() + extra;
    let v = chars_of(message);
    let ls = lines_vec(v.as_slice());
    let ghost all = views(ls@);
    let mut shifted: Vec<Vec<char>> = Vec::new();
    let mut i: usize = 0;
    while i < ls.len()
        invariant
            i <= ls@.len(),
            all == views(ls@),
            offset == spec_prelude_lines() + extra,
            views(shifted@) == all.take(i as int).map_values(|l: Seq<char>| shift_one(l, offset as nat)),
        decreases ls@.len() - i,
    {
        let one = shift_one_exec(ls[i].as_slice(), offset);
        let ghost before = shifted@;
        shifted.push(one);
        proof {
            assert(all[i as int] == ls@[i as int]@);
            assert(views(shifted@) =~= views(before).push(one@));
        }
        i = i + 1;
        assert(all.take(i as int).map_values(|l: Seq<char>| shift_one(l, offset as nat))
            =~= all.take(i - 1).map_values(|l: Seq<char>| shift_one(l, offset as nat)).push(
            shift_one(all[i - 1], offset as nat),
        ));
    }
    assert(all.take(i as int) =~= all);
    let mut out = String::new();
    let sep = ['\n'];
    assert(sep@ =~= seq!['\n']);
    push_joined(&mut out, &shifted, sep.as_slice());
    assert(out@ =~= join(views(shifted@), seq!['\n']));
    out
}

// ---------------------------------------------------------------------------
// Settings a shader file declares for itself
// ---------------------------------------------------------------------------

/// One setting a shader file declares: `// param <name> <min> <max>
/// <default> [label]`. `F` is the number type the values are kept in.
#[derive(Debug, Clone, PartialEq)]
pub struct ShaderParam<F> {
    pub name: String,
    pub min: F,
    pub max: F,
    pub default: F,
    /// What to call it in the settings window: the name, when the file did
    /// not say.
    pub label: String,
}

pub struct ShaderParamView<F> {
    pub name: Seq<char>,
    pub min: F,
    pub max: F,
    pub default: F,
    pub label: Seq<char>,
}

pub open spec fn param_view<F>(p: ShaderParam<F>) -> ShaderParamView<F> {
    ShaderParamView { name: p.name@, min: p.min, max: p.max, default: p.default, label: p.label@ }
}

pub open spec fn params_view<F>(ps: Seq<ShaderParam<F>>) -> Seq<ShaderParamView<F>> {
    ps.map_values(|p: ShaderParam<F>| param_view(p))
}

/// The pieces of `s` between whitespace, empty ones included, the last
/// one still open.
pub open spec fn ws_pieces(s: Seq<char>) -> Seq<Seq<char>>
    decreases s.len(),
{
    if s.len() == 0 {
        seq![Seq::empty()]
    } else {
        let p = ws_pieces(s.drop_last());
        if is_ws(s.last()) {
            p.push(Seq::empty())
        } else {
            p.update(p.len() - 1, p.last().push(s.last()))
        }
    }
}

/// The pieces that are not empty.
pub open spec fn drop_empty(ps: Seq<Seq<char>>) -> Seq<Seq<char>>
    decreases ps.len(),
{
    if ps.len() == 0 {
        Seq::empty()
    } else if ps.last().len() == 0 {
        drop_empty(ps.drop_last())
    } else {
        drop_empty(ps.drop_last()).push(ps.last())
    }
}

/// `str::split_whitespace`: the runs of characters between whitespace.
pub open spec fn words(s: Seq<char>) -> Seq<Seq<char>> {
    drop_empty(ws_pieces(s))
}

proof fn lemma_ws_pieces_len(s: Seq<char>)
    ensures
        ws_pieces(s).len() >= 1,
    decreases s.len(),
{
    if s.len() > 0 {
        lemma_ws_pieces_len(s.drop_last());
    }
}

/// See [`words`].
fn words_of(v: &[char]) -> (r: Vec<Vec<char>>)
    ensures
        views(r@) == words(v@),
{
    let mut out: Vec<Vec<char>> = Vec::new();
    let mut cur: Vec<char> = Vec::new();
    let mut i: usize = 0;
    proof {
        assert(v@.take(0) =~= Seq::<char>::empty());
        assert(ws_pieces(Seq::<char>::empty()).drop_last() =~= Seq::<Seq<char>>::empty());
    }
    while i < v.len()
        invariant
            i <= v@.len(),
            views(out@) == drop_empty(ws_pieces(v@.take(i as int)).drop_last()),
            cur@ == ws_pieces(v@.take(i as int)).last(),
        decreases v@.len() - i,
    {
        let ghost prefix = v@.take(i as int);
        let ghost p = ws_pieces(prefix);
        proof {
            lemma_ws_pieces_len(prefix);
            assert(v@.take(i + 1).drop_last() =~= prefix);
            assert(v@.take(i + 1).last() == v@[i as int]);
            assert(p =~= p.drop_last().push(p.last()));
        }
        let c = v[i];
        if crate::text::is_whitespace(c) {
            if cur.len() > 0 {
                let ghost before = views(out@);
                out.push(cur);
                assert(views(out@) =~= before.push(p.last()));
            }
            cur = Vec::new();
            proof {
                let q = ws_pieces(v@.take(i + 1));
                assert(q == p.push(Seq::<char>::empty()));
                assert(q.drop_last() =~= p);
                assert(drop_empty(p) == if p.last().len() == 0 {
                    drop_empty(p.drop_last())
                } else {
                    drop_empty(p.drop_last()).push(p.last())
                });
                assert(cur@ =~= q.last());
            }
        } else {
            cur.push(c);
            proof {
                let q = ws_pieces(v@.take(i + 1));
                assert(q == p.update(p.len() - 1, p.last().push(c)));
                assert(q.drop_last() =~= p.drop_last());
            }
        }
        i = i + 1;
    }
    let ghost p = ws_pieces(v@);
    proof {
        assert(v@.take(i as int) =~= v@);
        lemma_ws_pieces_len(v@);
        assert(p =~= p.drop_last().push(p.last()));
    }
    if cur.len() > 0 {
        let ghost before = views(out@);
        out.push(cur);
        assert(views(out@) =~= before.push(p.last()));
    }
    out
}

/// What follows `// param ` on a declaration line, if the line is one.
pub open spec fn declaration(line: Seq<char>) -> Option<Seq<char>> {
    let a = trim_start(line);
    if starts_with(a, "//"@) {
        let b = trim_start(a.skip(2));
        if starts_with(b, "param "@) {
            Some(b.skip(6))
        } else {
            None
        }
    } else {
        None
    }
}

/// `x` held within `lo..=hi`.
pub open spec fn clamped<F>(lt: spec_fn(F, F) -> bool, x: F, lo: F, hi: F) -> F {
    if lt(x, lo) {
        lo
    } else if lt(hi, x) {
        hi
    } else {
        x
    }
}

/// The settings declared by the lines, in order. A line that is not a
/// declaration, or is a malformed one, is skipped: a name that is not an
/// identifier or is already declared, a ninth setting, numbers that do not
/// read or are not finite, or a range that is empty. A default outside its
/// range is pulled back into it.
pub open spec fn declared<F>(
    ls: Seq<Seq<char>>,
    rd: spec_fn(Seq<char>) -> Option<F>,
    finite: spec_fn(F) -> bool,
    lt: spec_fn(F, F) -> bool,
) -> Seq<ShaderParamView<F>>
    decreases ls.len(),
{
    if ls.len() == 0 {
        Seq::empty()
    } else {
        let out = declared(ls.drop_last(), rd, finite, lt);
        match declaration(ls.last()) {
            None => out,
            Some(rest) => {
                let w = words(rest);
                if w.len() < 4 || !spec_is_identifier(w[0]) || (exists|k: int|
                    0 <= k < out.len() && (#[trigger] out[k]).name == w[0]) || out.len() >= MAX_PARAMS {
                    out
                } else {
                    match (rd(w[1]), rd(w[2]), rd(w[3])) {
                        (Some(lo), Some(hi), Some(d)) => if !finite(lo) || !finite(hi) || !finite(d) || !lt(
                            lo,
                            hi,
                        ) {
                            out
                        } else {
                            out.push(
                                ShaderParamView {
                                    name: w[0],
                                    min: lo,
                                    max: hi,
                                    default: clamped(lt, d, lo, hi),
                                    label: if w.len() == 4 {
                                        w[0]
                                    } else {
                                        join(w.skip(4), seq![' '])
                                    },
                                },
                            )
                        },
                        _ => out,
                    }
                }
            },
        }
    }
}

pub open spec fn spec_parse_params<F>(
    source: Seq<char>,
    rd: spec_fn(Seq<char>) -> Option<F>,
    finite: spec_fn(F) -> bool,
    lt: spec_fn(F, F) -> bool,
) -> Seq<ShaderParamView<F>> {
    declared(lines(source), rd, finite, lt)
}

fn declaration_of(line: &[char]) -> (r: Option<Vec<char>>)
    ensures
        match r {
            Some(rest) => declaration(line@) == Some(rest@),
            None => declaration(line@) is None,
        },
{
    proof {
        reveal_strlit("//");
        reveal_strlit("param ");
    }
    let (lo, _) = crate::text::trim_bounds(line);
    let a = slice_of(line, lo, line.len());
    assert(a@ == trim_start(line@));
    if !crate::text::has_prefix(a.as_slice(), "//") {
        return None;
    }
    let after = slice_of(a.as_slice(), 2, a.len());
    assert(after@ =~= a@.skip(2));
    let (lo2, _) = crate::text::trim_bounds(after.as_slice());
    let b = slice_of(after.as_slice(), lo2, after.len());
    assert(b@ == trim_start(after@));
    if !crate::text::has_prefix(b.as_slice(), "param ") {
        return None;
    }
    let rest = slice_of(b.as_slice(), 6, b.len());
    assert(rest@ =~= b@.skip(6));
    Some(rest)
}

fn declared_already<F>(out: &Vec<ShaderParam<F>>, name: &[char]) -> (r: bool)
    ensures
        r == exists|k: int| 0 <= k < out@.len() && (#[trigger] params_view(out@)[k]).name == name@,
{
    let mut k: usize = 0;
    while k < out.len()
        invariant
            k <= out@.len(),
            forall|m: int| 0 <= m < k ==> (#[trigger] params_view(out@)[m]).name != name@,
        decreases out@.len() - k,
    {
        if crate::text::same_str(name, out[k].name.as_str()) {
            assert(params_view(out@)[k as int].name == name@);
            return true;
        }
        k = k + 1;
    }
    false
}

/// The words from the fifth on, with a space between each.
fn label_of(w: &Vec<Vec<char>>) -> (r: Vec<char>)
    requires
        w@.len() > 4,
    ensures
        r@ == join(views(w@).skip(4), seq![' ']),
{
    let mut tail: Vec<Vec<char>> = Vec::new();
    let mut k: usize = 4;
    while k < w.len()
        invariant
            4 <= k <= w@.len(),
            views(tail@) == views(w@).subrange(4, k as int),
        decreases w@.len() - k,
    {
        let piece = slice_of(w[k].as_slice(), 0, w[k].len());
        assert(piece@ =~= w@[k as int]@);
        let ghost before = views(tail@);
        tail.push(piece);
        assert(views(tail@) =~= before.push(w@[k as int]@));
        assert(views(w@)[k as int] == w@[k as int]@);
        assert(views(w@).subrange(4, k + 1) =~= views(w@).subrange(4, k as int).push(views(w@)[k as int]));
        k = k + 1;
    }
    assert(views(w@).subrange(4, k as int) =~= views(w@).skip(4));
    let space = [' '];
    assert(space@ =~= seq![' ']);
    crate::text::joined(&tail, space.as_slice())
}

/// The settings a shader file declares, in the order they appear: `//
/// param <name> <min> <max> <default> [label]`. A malformed line is
/// skipped rather than refused: the alternative is a wallpaper that will
/// not open because of a typo in a comment. `read` reads a number, `finite`
/// says whether one is finite, and `lt` compares two.
pub fn parse_params<
    F: Copy,
    R: Fn(&str) -> Option<F>,
    P: Fn(F) -> bool,
    C: Fn(F, F) -> bool,
>(source: &str, read: &R, finite: &P, lt: &C) -> (r: Vec<ShaderParam<F>>)
    requires
        is_reader(*read),
        is_test(*finite),
        is_relation(*lt),
    ensures
        params_view(r@) == spec_parse_params(source@, reader_fn(*read), tester_fn(*finite), relation_fn(*lt)),
{
    let chars = chars_of(source);
    let ls = lines_vec(chars.as_slice());
    let ghost all = views(ls@);
    let ghost rd = reader_fn(*read);
    let ghost fin = tester_fn(*finite);
    let ghost less = relation_fn(*lt);
    let mut out: Vec<ShaderParam<F>> = Vec::new();
    let mut i: usize = 0;
    assert(params_view(out@) =~= declared(all.take(0), rd, fin, less));
    while i < ls.len()
        invariant
            i <= ls@.len(),
            all == views(ls@),
            all == lines(source@),
            rd == reader_fn(*read),
            fin == tester_fn(*finite),
            less == relation_fn(*lt),
            is_reader(*read),
            is_test(*finite),
            is_relation(*lt),
            params_view(out@) == declared(all.take(i as int), rd, fin, less),
        decreases ls@.len() - i,
    {
        proof {
            assert(all.take(i + 1).drop_last() =~= all.take(i as int));
            assert(all.take(i + 1).last() == ls@[i as int]@);
        }
        match declaration_of(ls[i].as_slice()) {
            None => {},
            Some(rest) => {
                let w = words_of(rest.as_slice());
                let ghost wv = views(w@);
                if w.len() >= 4 {
                    proof {
                        assert forall|k: int| 0 <= k < 4 implies wv[k] == (#[trigger] w@[k])@ by {}
                    }
                    let name = crate::text::string_of(w[0].as_slice());
                    if is_identifier(name.as_str()) && !declared_already(&out, w[0].as_slice()) && out.len()
                        < MAX_PARAMS {
                        let lo = crate::session::read_text(read, w[1].as_slice());
                        let hi = crate::session::read_text(read, w[2].as_slice());
                        let d = crate::session::read_text(read, w[3].as_slice());
                        match (lo, hi, d) {
                            (Some(lo), Some(hi), Some(d)) => {
                                if crate::session::test_number(finite, lo) && crate::session::test_number(finite, hi)
                                    && crate::session::test_number(finite, d) && crate::ipc::compare(lt, lo, hi) {
                                    let default = if crate::ipc::compare(lt, d, lo) {
                                        lo
                                    } else if crate::ipc::compare(lt, hi, d) {
                                        hi
                                    } else {
                                        d
                                    };
                                    let label = if w.len() == 4 {
                                        crate::text::string_of(w[0].as_slice())
                                    } else {
                                        crate::text::string_of(label_of(&w).as_slice())
                                    };
                                    let ghost before = params_view(out@);
                                    out.push(ShaderParam { name, min: lo, max: hi, default, label });
                                    assert(params_view(out@) =~= before.push(param_view(out@.last())));
                                }
                            },
                            _ => {},
                        }
                    }
                }
            },
        }
        i = i + 1;
    }
    assert(all.take(i as int) =~= all);
    out
}

/// `#define <name> (muivlyParams[<index / 4>][<index % 4>])` for one
/// setting: four settings to a register, in the order declared.
pub open spec fn define_line(name: Seq<char>, index: nat) -> Seq<char> {
    "#define "@ + name + " (muivlyParams["@ + decimal(index / 4) + "]["@ + decimal(index % 4) + "])\n"@
}

pub open spec fn spec_defines<F>(ps: Seq<ShaderParamView<F>>) -> Seq<char>
    decreases ps.len(),
{
    if ps.len() == 0 {
        Seq::empty()
    } else {
        spec_defines(ps.drop_last()) + define_line(ps.last().name, (ps.len() - 1) as nat)
    }
}

/// The `#define` for each declared setting, so the file can use its own
/// names. A define rather than a variable: it cannot be optimised away or
/// shadowed by accident, and reads as itself in the compiler's errors.
pub fn defines<F>(params: &[ShaderParam<F>]) -> (text: String)
    ensures
        text@ == spec_defines(params_view(params@)),
{
    let mut out = String::new();
    let ghost all = params_view(params@);
    let mut i: usize = 0;
    while i < params.len()
        invariant
            i <= params@.len(),
            all == params_view(params@),
            out@ == spec_defines(all.take(i as int)),
        decreases params@.len() - i,
    {
        let ghost before = out@;
        crate::text::push_str(&mut out, "#define ");
        crate::text::push_str(&mut out, params[i].name.as_str());
        crate::text::push_str(&mut out, " (muivlyParams[");
        crate::text::push_decimal(&mut out, (i / 4) as u64);
        crate::text::push_str(&mut out, "][");
        crate::text::push_decimal(&mut out, (i % 4) as u64);
        crate::text::push_str(&mut out, "])\n");
        proof {
            let t = all.take(i + 1);
            assert(t.drop_last() =~= all.take(i as int));
            assert(t.last().name == params@[i as int].name@);
            assert(out@ =~= before + define_line(params@[i as int].name@, i as nat));
        }
        i = i + 1;
    }
    assert(all.take(i as int) =~= all);
    out
}

/// The first setting called `name`, if any.
pub open spec fn first_named<F>(params: Seq<ShaderParam<F>>, name: Seq<char>) -> Option<int> {
    if exists|k: int| 0 <= k < params.len() && (#[trigger] params[k]).name@ == name {
        Some(
            choose|k: int|
                0 <= k < params.len() && (#[trigger] params[k]).name@ == name && forall|m: int|
                    0 <= m < k ==> (#[trigger] params[m]).name@ != name,
        )
    } else {
        None
    }
}

/// Move one of a file's own settings: the value of the first setting called
/// `name` becomes `value`, held within the setting's range (whichever way
/// round its ends were written). An unknown name is ignored: the settings
/// window and the file can disagree after an edit, and the file is the one
/// that is right. `values` holds one value for each setting, in order.
pub fn set_param<F: Copy, C: Fn(F, F) -> bool>(
    params: &Vec<ShaderParam<F>>,
    values: &mut Vec<F>,
    name: &str,
    value: F,
    lt: &C,
)
    requires
        is_relation(*lt),
        old(values)@.len() == params@.len(),
    ensures
        final(values)@.len() == old(values)@.len(),
        match first_named(params@, name@) {
            None => final(values)@ == old(values)@,
            Some(k) => {
                let p = params@[k];
                let less = relation_fn(*lt);
                let (lo, hi) = if less(p.max, p.min) {
                    (p.max, p.min)
                } else {
                    (p.min, p.max)
                };
                final(values)@ == old(values)@.update(k, clamped(less, value, lo, hi))
            },
        },
{
    let wanted = chars_of(name);
    let mut k: usize = 0;
    while k < params.len()
        invariant
            k <= params@.len(),
            wanted@ == name@,
            forall|m: int| 0 <= m < k ==> (#[trigger] params@[m]).name@ != name@,
        ensures
            k <= params@.len(),
            forall|m: int| 0 <= m < k ==> (#[trigger] params@[m]).name@ != name@,
            k < params@.len() ==> params@[k as int].name@ == name@,
        decreases params@.len() - k,
    {
        if crate::text::same_str(wanted.as_slice(), params[k].name.as_str()) {
            break;
        }
        k = k + 1;
    }
    if k == params.len() {
        assert(first_named(params@, name@) is None);
        return;
    }
    proof {
        assert(params@[k as int].name@ == name@);
    }
    let p = &params[k];
    let flipped = crate::ipc::compare(lt, p.max, p.min);
    let lo = if flipped { p.max } else { p.min };
    let hi = if flipped { p.min } else { p.max };
    let held = if crate::ipc::compare(lt, value, lo) {
        lo
    } else if crate::ipc::compare(lt, hi, value) {
        hi
    } else {
        value
    };
    values.set(k, held);
}

} // verus!

//! The backup of the user's own accent colours: what was in each registry
//! value before the first colour was written, kept in a small text file so
//! that it can be put back when the setting is switched off, when the
//! engine quits, or on the next start if the engine was killed first.
//!
//! One line a value: `<name>=<value>`, the value as eight lowercase
//! hexadecimal digits for a number, two a byte for the palette, or `-` for
//! a value that was not there (and so is deleted on the way back).

use vstd::prelude::*;
use vstd::utf8::encode_utf8;

use crate::compositor::accent::{decode_hex, encode_hex, lemma_encode_layout, lemma_hex_round_trip, pairs_stop_cleanly, spec_decode_hex, spec_encode_hex, stops_cleanly};
use crate::session::round_trip::{lemma_lines_unlines, one_line, unlines};
use crate::text::{chars_of, lemma_find_after, hex, hex_char, hex_vec, lines, lines_vec, push_chars, push_str, same_str, split_once, split_once_vec, string_of};

verus! {

broadcast use vstd::string::group_string_axioms;

/// Where Windows keeps the accent colour the desktop's chrome draws with.
pub const DWM_KEY: &'static str = "Software\\Microsoft\\Windows\\DWM";

/// Where Windows keeps the colours of Start and the taskbar.
pub const EXPLORER_KEY: &'static str = "Software\\Microsoft\\Windows\\CurrentVersion\\Explorer\\Accent";

/// Every value the accent colour touches: its key, its name, and whether it
/// holds bytes rather than a number. The backup and the restore both go by
/// this list, so they cannot drift apart.
pub const BACKED_UP: [(&'static str, &'static str, bool); 7] = [
    (DWM_KEY, "AccentColor", false),
    (DWM_KEY, "AccentColorInactive", false),
    (DWM_KEY, "ColorizationColor", false),
    (DWM_KEY, "ColorizationAfterglow", false),
    (EXPLORER_KEY, "AccentColorMenu", false),
    (EXPLORER_KEY, "StartColorMenu", false),
    (EXPLORER_KEY, "AccentPalette", true),
];

/// What one value held: a number, bytes, or nothing at all.
#[derive(Debug, Clone, PartialEq, Eq)]
pub enum Saved {
    Number(u32),
    Bytes(Vec<u8>),
    Absent,
}

/// A saved value as plain values.
pub enum SavedView {
    Number(u32),
    Bytes(Seq<u8>),
    Absent,
}

pub open spec fn saved_view(s: Saved) -> SavedView {
    match s {
        Saved::Number(n) => SavedView::Number(n),
        Saved::Bytes(b) => SavedView::Bytes(b@),
        Saved::Absent => SavedView::Absent,
    }
}

/// The backup's entries as plain values.
pub open spec fn entries_view(es: Seq<(String, Saved)>) -> Seq<(Seq<char>, SavedView)> {
    es.map_values(|e: (String, Saved)| (e.0@, saved_view(e.1)))
}

/// Whether `name` is a value the backup keeps, and if so whether it holds
/// bytes.
pub open spec fn known_kind(name: Seq<char>) -> Option<bool> {
    if name == "AccentPalette"@ {
        Some(true)
    } else if name == "AccentColor"@ || name == "AccentColorInactive"@ || name == "ColorizationColor"@
        || name == "ColorizationAfterglow"@ || name == "AccentColorMenu"@ || name == "StartColorMenu"@ {
        Some(false)
    } else {
        None
    }
}

/// How a saved value is written down.
pub open spec fn saved_text(s: SavedView) -> Seq<char> {
    match s {
        SavedView::Number(n) => hex(n as nat, 8),
        SavedView::Bytes(b) => spec_encode_hex(b),
        SavedView::Absent => "-"@,
    }
}

/// One entry's line, without its end.
pub open spec fn entry_line(e: (Seq<char>, SavedView)) -> Seq<char> {
    e.0 + seq!['='] + saved_text(e.1)
}

/// The backup's text: one line for each entry, in order.
pub open spec fn spec_backup_text(es: Seq<(Seq<char>, SavedView)>) -> Seq<char> {
    unlines(es.map_values(|e: (Seq<char>, SavedView)| entry_line(e)))
}

/// The value of one hexadecimal digit, either case.
pub open spec fn char_hex(c: char) -> Option<nat> {
    if '0' <= c && c <= '9' {
        Some((c as nat - 48) as nat)
    } else if 'a' <= c && c <= 'f' {
        Some((c as nat - 87) as nat)
    } else if 'A' <= c && c <= 'F' {
        Some((c as nat - 55) as nat)
    } else {
        None
    }
}

/// The number a run of hexadecimal digits stands for; `Some(0)` for none.
pub open spec fn digits_value(s: Seq<char>) -> Option<nat>
    decreases s.len(),
{
    if s.len() == 0 {
        Some(0)
    } else {
        match (digits_value(s.drop_last()), char_hex(s.last())) {
            (Some(a), Some(d)) => Some(a * 16 + d),
            _ => None,
        }
    }
}

/// A 32-bit number read as hexadecimal, as Rust's `u32::from_str_radix`
/// with radix 16 reads one: an optional `+`, then at least one digit of
/// either case, and a value that fits.
pub open spec fn spec_parse_hex_u32(v: Seq<char>) -> Option<u32> {
    let d = if v.len() > 0 && v[0] == '+' { v.drop_first() } else { v };
    if d.len() == 0 {
        None
    } else {
        match digits_value(d) {
            Some(n) => if n <= u32::MAX {
                Some(n as u32)
            } else {
                None
            },
            None => None,
        }
    }
}

/// What one line of the backup puts back, if anything: a line that is not
/// `<name>=<value>` for a value the backup keeps is passed over. `-` is a
/// value that was not there. Otherwise the value is read as bytes or as a
/// number, as that value holds; one that does not read is taken as not
/// there.
pub open spec fn read_line(l: Seq<char>) -> Option<(Seq<char>, SavedView)> {
    match split_once(l, '=') {
        None => None,
        Some((name, value)) => match known_kind(name) {
            None => None,
            Some(binary) => Some(
                (
                    name,
                    if value == "-"@ {
                        SavedView::Absent
                    } else if binary {
                        match spec_decode_hex(encode_utf8(value)) {
                            Some(b) => SavedView::Bytes(b),
                            None => SavedView::Absent,
                        }
                    } else {
                        match spec_parse_hex_u32(value) {
                            Some(n) => SavedView::Number(n),
                            None => SavedView::Absent,
                        }
                    },
                ),
            ),
        },
    }
}

/// What the lines put back, in order.
pub open spec fn read_lines(ls: Seq<Seq<char>>) -> Seq<(Seq<char>, SavedView)>
    decreases ls.len(),
{
    if ls.len() == 0 {
        Seq::empty()
    } else {
        read_lines(ls.drop_last()) + match read_line(ls.last()) {
            Some(e) => seq![e],
            None => Seq::empty(),
        }
    }
}

/// What a backup's text puts back.
pub open spec fn spec_read_backup(text: Seq<char>) -> Seq<(Seq<char>, SavedView)> {
    read_lines(lines(text))
}

/// Whether a line's bytes, if it is the palette's, can be read two
/// characters at a time without stopping inside a character.
pub open spec fn line_readable(l: Seq<char>) -> bool {
    match split_once(l, '=') {
        Some((name, value)) => (known_kind(name) == Some(true) && value != "-"@) ==> (encode_utf8(value).len() % 2
            != 0 || pairs_stop_cleanly(encode_utf8(value))),
        None => true,
    }
}

/// Whether every line of a backup can be read (text this engine wrote
/// always can).
pub open spec fn backup_readable_spec(text: Seq<char>) -> bool {
    forall|i: int| 0 <= i < lines(text).len() ==> line_readable(#[trigger] lines(text)[i])
}

proof fn lemma_reveal_names()
    ensures
        "AccentPalette"@ =~= seq!['A', 'c', 'c', 'e', 'n', 't', 'P', 'a', 'l', 'e', 't', 't', 'e'],
        "AccentColor"@ =~= seq!['A', 'c', 'c', 'e', 'n', 't', 'C', 'o', 'l', 'o', 'r'],
        "AccentColorInactive"@ =~= seq![
            'A', 'c', 'c', 'e', 'n', 't', 'C', 'o', 'l', 'o', 'r', 'I', 'n', 'a', 'c', 't', 'i', 'v', 'e',
        ],
        "ColorizationColor"@ =~= seq![
            'C', 'o', 'l', 'o', 'r', 'i', 'z', 'a', 't', 'i', 'o', 'n', 'C', 'o', 'l', 'o', 'r',
        ],
        "ColorizationAfterglow"@ =~= seq![
            'C', 'o', 'l', 'o', 'r', 'i', 'z', 'a', 't', 'i', 'o', 'n', 'A', 'f', 't', 'e', 'r', 'g', 'l', 'o', 'w',
        ],
        "AccentColorMenu"@ =~= seq!['A', 'c', 'c', 'e', 'n', 't', 'C', 'o', 'l', 'o', 'r', 'M', 'e', 'n', 'u'],
        "StartColorMenu"@ =~= seq!['S', 't', 'a', 'r', 't', 'C', 'o', 'l', 'o', 'r', 'M', 'e', 'n', 'u'],
        "-"@ =~= seq!['-'],
{
    reveal_strlit("AccentPalette");
    reveal_strlit("AccentColor");
    reveal_strlit("AccentColorInactive");
    reveal_strlit("ColorizationColor");
    reveal_strlit("ColorizationAfterglow");
    reveal_strlit("AccentColorMenu");
    reveal_strlit("StartColorMenu");
    reveal_strlit("-");
}

/// A name the backup keeps is plain letters: no `=`, no line end.
proof fn lemma_known_plain(name: Seq<char>)
    requires
        known_kind(name) is Some,
    ensures
        forall|i: int| 0 <= i < name.len() ==> ('a' <= #[trigger] name[i] <= 'z' || 'A' <= name[i] <= 'Z'),
{
    lemma_reveal_names();
}

proof fn lemma_hex_char_value(d: nat)
    requires
        d < 16,
    ensures
        char_hex(hex_char(d)) == Some(d),
        '0' <= hex_char(d) <= '9' || 'a' <= hex_char(d) <= 'f',
{
}

/// Hexadecimal text reads back as the number it was written from, and is
/// made of digits only.
proof fn lemma_hex_digits(n: nat, w: nat)
    ensures
        digits_value(hex(n, w)) == Some(n),
        hex(n, w).len() >= 1,
        forall|i: int| 0 <= i < hex(n, w).len() ==> char_hex(#[trigger] hex(n, w)[i]) is Some,
    decreases w, n,
{
    if n < 16 && w <= 1 {
        lemma_hex_char_value(n);
        let h = seq![hex_char(n)];
        assert(h.drop_last() =~= Seq::<char>::empty());
        assert(digits_value(h.drop_last()) == Some(0nat));
        assert(h.last() == hex_char(n));
        assert(hex(n, w) == h);
        assert(digits_value(h) == Some(0 * 16 + n));
    } else {
        let w1: nat = if w > 0 { (w - 1) as nat } else { 0 };
        lemma_hex_digits(n / 16, w1);
        lemma_hex_char_value(n % 16);
        let h = hex(n / 16, w1).push(hex_char(n % 16));
        assert(h.drop_last() =~= hex(n / 16, w1));
        assert((n / 16) * 16 + n % 16 == n);
        assert(hex(n, w) == h);
        assert(h.last() == hex_char(n % 16));
        assert(digits_value(h) == Some((n / 16) * 16 + n % 16));
        assert forall|i: int| 0 <= i < h.len() implies char_hex(#[trigger] h[i]) is Some by {
            if i < h.len() - 1 {
                assert(h[i] == hex(n / 16, w1)[i]);
            }
        }
    }
}

/// See [`known_kind`].
pub fn kind_of(name: &[char]) -> (r: Option<bool>)
    ensures
        r == known_kind(name@),
{
    if same_str(name, "AccentPalette") {
        Some(true)
    } else if same_str(name, "AccentColor") || same_str(name, "AccentColorInactive") || same_str(
        name,
        "ColorizationColor",
    ) || same_str(name, "ColorizationAfterglow") || same_str(name, "AccentColorMenu") || same_str(
        name,
        "StartColorMenu",
    ) {
        Some(false)
    } else {
        None
    }
}

fn char_hex_exec(c: char) -> (r: Option<u32>)
    ensures
        match r {
            Some(v) => char_hex(c) == Some(v as nat) && v < 16,
            None => char_hex(c) is None,
        },
{
    if '0' <= c && c <= '9' {
        Some(c as u32 - 48)
    } else if 'a' <= c && c <= 'f' {
        Some(c as u32 - 87)
    } else if 'A' <= c && c <= 'F' {
        Some(c as u32 - 55)
    } else {
        None
    }
}

/// See [`spec_parse_hex_u32`].
pub fn parse_hex_u32(v: &[char]) -> (r: Option<u32>)
    ensures
        r == spec_parse_hex_u32(v@),
{
    let start: usize = if v.len() > 0 && v[0] == '+' { 1 } else { 0 };
    let ghost d = if v@.len() > 0 && v@[0] == '+' { v@.drop_first() } else { v@ };
    assert(d =~= v@.skip(start as int));
    if start == v.len() {
        return None;
    }
    let mut acc: u64 = 0;
    let mut over = false;
    let mut bad = false;
    let mut i: usize = start;
    assert(v@.subrange(start as int, start as int) =~= Seq::<char>::empty());
    while i < v.len()
        invariant
            start <= i <= v@.len(),
            d == v@.skip(start as int),
            !bad && !over ==> digits_value(v@.subrange(start as int, i as int)) == Some(acc as nat) && acc
                <= u32::MAX,
            !bad && over ==> (digits_value(v@.subrange(start as int, i as int)) matches Some(n) && n > u32::MAX),
            bad ==> digits_value(v@.subrange(start as int, i as int)) is None,
        decreases v@.len() - i,
    {
        let ghost pre = v@.subrange(start as int, i as int);
        let ghost next = v@.subrange(start as int, i + 1);
        assert(next.drop_last() =~= pre);
        assert(next.last() == v@[i as int]);
        match char_hex_exec(v[i]) {
            None => {
                bad = true;
            },
            Some(x) => {
                if !bad && !over {
                    let t: u64 = acc * 16 + x as u64;
                    if t > 0xffff_ffff {
                        over = true;
                    } else {
                        acc = t;
                    }
                }
            },
        }
        i = i + 1;
    }
    assert(v@.subrange(start as int, v@.len() as int) =~= d);
    if bad || over {
        None
    } else {
        Some(acc as u32)
    }
}

fn push_saved(out: &mut String, v: &Saved)
    ensures
        final(out)@ == old(out)@ + saved_text(saved_view(*v)),
{
    match v {
        Saved::Number(n) => {
            let h = hex_vec(*n as u64, 8);
            push_chars(out, h.as_slice());
        },
        Saved::Bytes(b) => {
            let t = encode_hex(b.as_slice());
            push_str(out, t.as_str());
        },
        Saved::Absent => {
            push_str(out, "-");
        },
    }
}

/// The backup's text for these entries: `<name>=<value>` a line, in order.
pub fn backup_text(saved: &Vec<(String, Saved)>) -> (t: String)
    ensures
        t@ == spec_backup_text(entries_view(saved@)),
{
    let ghost all = entries_view(saved@).map_values(|e: (Seq<char>, SavedView)| entry_line(e));
    let mut out = String::new();
    let mut i: usize = 0;
    assert(all.take(0) =~= Seq::<Seq<char>>::empty());
    while i < saved.len()
        invariant
            i <= saved@.len(),
            all == entries_view(saved@).map_values(|e: (Seq<char>, SavedView)| entry_line(e)),
            out@ == unlines(all.take(i as int)),
        decreases saved@.len() - i,
    {
        let ghost before = out@;
        push_str(&mut out, saved[i].0.as_str());
        push_str(&mut out, "=");
        push_saved(&mut out, &saved[i].1);
        push_str(&mut out, "\n");
        proof {
            reveal_strlit("=");
            reveal_strlit("\n");
            assert(all.take(i + 1).drop_last() =~= all.take(i as int));
            assert(all.take(i + 1).last() == all[i as int]);
            assert(all[i as int] == entry_line((saved@[i as int].0@, saved_view(saved@[i as int].1))));
            assert(out@ =~= before + all[i as int] + seq!['\n']);
        }
        i = i + 1;
    }
    assert(all.take(i as int) =~= all);
    out
}

/// What one line puts back; see [`read_line`].
fn read_one(line: &[char]) -> (r: Option<(String, Saved)>)
    requires
        line_readable(line@),
    ensures
        match r {
            Some(e) => read_line(line@) == Some((e.0@, saved_view(e.1))),
            None => read_line(line@) is None,
        },
{
    let (name, value) = match split_once_vec(line, '=') {
        Some(p) => p,
        None => return None,
    };
    let binary = match kind_of(name.as_slice()) {
        Some(b) => b,
        None => return None,
    };
    let n = string_of(name.as_slice());
    if same_str(value.as_slice(), "-") {
        return Some((n, Saved::Absent));
    }
    if binary {
        let text = string_of(value.as_slice());
        match decode_hex(text.as_str()) {
            Some(b) => Some((n, Saved::Bytes(b))),
            None => Some((n, Saved::Absent)),
        }
    } else {
        match parse_hex_u32(value.as_slice()) {
            Some(x) => Some((n, Saved::Number(x))),
            None => Some((n, Saved::Absent)),
        }
    }
}

/// What a backup's text puts back, in order of its lines. A line that is
/// not `<name>=<value>` for a value the backup keeps is passed over; `-`
/// is a value that was not there, to be deleted; a value that does not read
/// as what that value holds is taken as not there either.
pub fn read_backup(text: &str) -> (r: Vec<(String, Saved)>)
    requires
        backup_readable_spec(text@),
    ensures
        entries_view(r@) == spec_read_backup(text@),
{
    let chars = chars_of(text);
    let ls = lines_vec(chars.as_slice());
    let ghost all = lines(text@);
    let mut out: Vec<(String, Saved)> = Vec::new();
    let mut i: usize = 0;
    assert(all.take(0) =~= Seq::<Seq<char>>::empty());
    assert(entries_view(out@) =~= Seq::empty());
    while i < ls.len()
        invariant
            i <= ls@.len(),
            crate::text::views(ls@) == all,
            all == lines(text@),
            backup_readable_spec(text@),
            entries_view(out@) == read_lines(all.take(i as int)),
        decreases ls@.len() - i,
    {
        proof {
            assert(all[i as int] == ls@[i as int]@);
            assert(line_readable(lines(text@)[i as int]));
            assert(all.take(i + 1).drop_last() =~= all.take(i as int));
            assert(all.take(i + 1).last() == all[i as int]);
        }
        let ghost before = out@;
        match read_one(ls[i].as_slice()) {
            Some(e) => {
                out.push(e);
                proof {
                    assert(entries_view(out@) =~= entries_view(before) + seq![(e.0@, saved_view(e.1))]);
                }
            },
            None => {},
        }
        proof {
            assert(entries_view(out@) =~= read_lines(all.take(i + 1)));
        }
        i = i + 1;
    }
    assert(all.take(i as int) =~= all);
    out
}

fn line_readable_exec(line: &[char]) -> (r: bool)
    ensures
        r == line_readable(line@),
{
    match split_once_vec(line, '=') {
        None => true,
        Some((name, value)) => {
            if kind_of(name.as_slice()) != Some(true) || same_str(value.as_slice(), "-") {
                return true;
            }
            let text = string_of(value.as_slice());
            let bytes = text.as_str().as_bytes();
            bytes.len() % 2 != 0 || stops_cleanly(text.as_str())
        },
    }
}

/// Whether every line of a backup can be read by [`read_backup`]. A file
/// this engine wrote always can.
pub fn backup_readable(text: &str) -> (r: bool)
    ensures
        r == backup_readable_spec(text@),
{
    let chars = chars_of(text);
    let ls = lines_vec(chars.as_slice());
    let ghost all = lines(text@);
    let mut i: usize = 0;
    while i < ls.len()
        invariant
            i <= ls@.len(),
            crate::text::views(ls@) == all,
            all == lines(text@),
            forall|k: int| 0 <= k < i ==> line_readable(#[trigger] all[k]),
        decreases ls@.len() - i,
    {
        assert(all[i as int] == ls@[i as int]@);
        if !line_readable_exec(ls[i].as_slice()) {
            return false;
        }
        i = i + 1;
    }
    true
}

/// An entry as the backup writes it: a value the backup keeps, holding a
/// number where that value is a number and bytes where it is bytes, or
/// nothing at all.
pub open spec fn writable_entry(e: (Seq<char>, SavedView)) -> bool {
    match known_kind(e.0) {
        None => false,
        Some(binary) => match e.1 {
            SavedView::Number(_) => !binary,
            SavedView::Bytes(_) => binary,
            SavedView::Absent => true,
        },
    }
}

/// One entry's line is one line, reads back as the entry, and can be read.
proof fn lemma_entry_line(e: (Seq<char>, SavedView))
    requires
        writable_entry(e),
    ensures
        one_line(entry_line(e)),
        read_line(entry_line(e)) == Some(e),
        line_readable(entry_line(e)),
{
    lemma_reveal_names();
    lemma_known_plain(e.0);
    let v = saved_text(e.1);
    let l = entry_line(e);
    assert(!e.0.contains('=')) by {
        if e.0.contains('=') {
            let i = choose|i: int| 0 <= i < e.0.len() && e.0[i] == '=';
            assert('a' <= e.0[i] <= 'z' || 'A' <= e.0[i] <= 'Z');
        }
    }
    lemma_find_after(e.0, '=', v);
    assert(l.take(e.0.len() as int) =~= e.0);
    assert(l.skip(e.0.len() + 1int) =~= v);
    assert(split_once(l, '=') == Some((e.0, v)));
    // Every character of the value is a digit, a letter from a to f, or a
    // dash.
    assert(forall|i: int| 0 <= i < v.len() ==> (#[trigger] v[i] != '\n' && v[i] != '\r' && v[i] != '+')) by {
        match e.1 {
            SavedView::Number(n) => {
                lemma_hex_digits(n as nat, 8);
            },
            SavedView::Bytes(b) => {
                lemma_encode_layout(b);
                assert forall|i: int| 0 <= i < v.len() implies (#[trigger] v[i] != '\n' && v[i] != '\r' && v[i] != '+') by {
                    let k = i / 2;
                    assert(i == 2 * k || i == 2 * k + 1);
                    lemma_hex_char_value(b[k] as nat / 16);
                    lemma_hex_char_value(b[k] as nat % 16);
                }
            },
            SavedView::Absent => {},
        }
    }
    assert(!l.contains('\n') && !l.contains('\r')) by {
        if l.contains('\n') || l.contains('\r') {
            let i = choose|i: int| 0 <= i < l.len() && (l[i] == '\n' || l[i] == '\r');
            if i < e.0.len() {
                assert(l[i] == e.0[i]);
                assert('a' <= e.0[i] <= 'z' || 'A' <= e.0[i] <= 'Z');
            } else if i > e.0.len() {
                assert(l[i] == v[i - e.0.len() - 1]);
            }
        }
    }
    match e.1 {
        SavedView::Number(n) => {
            lemma_hex_digits(n as nat, 8);
            assert(v[0] != '+');
            assert(char_hex(v[0]) is Some);
            assert(v != "-"@);
        },
        SavedView::Bytes(b) => {
            lemma_hex_round_trip(b);
            lemma_encode_layout(b);
            if b.len() > 0 {
                lemma_hex_char_value(b[0] as nat / 16);
                assert(v[0] == hex_char(b[0] as nat / 16));
                assert(v != "-"@);
            } else {
                assert(v.len() == 0);
                assert(v != "-"@);
            }
        },
        SavedView::Absent => {},
    }
}

/// What the backup writes is what it reads back: for entries as the
/// backup writes them (each a value it keeps, holding what that value
/// holds), the text it writes can be read, and reading it gives the same
/// entries in the same order.
pub proof fn lemma_backup_round_trip(es: Seq<(Seq<char>, SavedView)>)
    requires
        forall|i: int| 0 <= i < es.len() ==> writable_entry(#[trigger] es[i]),
    ensures
        backup_readable_spec(spec_backup_text(es)),
        spec_read_backup(spec_backup_text(es)) == es,
    decreases es.len(),
{
    let ls = es.map_values(|e: (Seq<char>, SavedView)| entry_line(e));
    assert forall|i: int| 0 <= i < ls.len() implies one_line(#[trigger] ls[i]) by {
        lemma_entry_line(es[i]);
    }
    lemma_lines_unlines(ls);
    assert forall|i: int| 0 <= i < ls.len() implies line_readable(#[trigger] ls[i]) by {
        lemma_entry_line(es[i]);
    }
    lemma_read_entries(es);
}

proof fn lemma_read_entries(es: Seq<(Seq<char>, SavedView)>)
    requires
        forall|i: int| 0 <= i < es.len() ==> writable_entry(#[trigger] es[i]),
    ensures
        read_lines(es.map_values(|e: (Seq<char>, SavedView)| entry_line(e))) == es,
    decreases es.len(),
{
    if es.len() > 0 {
        let ls = es.map_values(|e: (Seq<char>, SavedView)| entry_line(e));
        let rest = es.drop_last();
        lemma_read_entries(rest);
        assert(ls.drop_last() =~= rest.map_values(|e: (Seq<char>, SavedView)| entry_line(e)));
        lemma_entry_line(es.last());
        assert(ls.last() == entry_line(es.last()));
        assert(rest + seq![es.last()] =~= es);
    }
}

} // verus!

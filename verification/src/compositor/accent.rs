//! Taking the Windows accent colour from the wallpaper: the arithmetic.
//!
//! The registry writes and the backup file are the engine's; what lives
//! here is the colour itself (pulled into a band that works against both
//! themes), the packings Windows stores it in, the eight-shade palette, and
//! the hexadecimal text the backup is kept as.

use vstd::prelude::*;
use vstd::string::StringSliceAdditionalSpecFns;
use vstd::utf8::{encode_utf8, is_ascii_chars, is_ascii_chars_encode_utf8};

use crate::decoder::round_div;
use crate::text::{chars_of, hex, hex_char, hex_vec, push_chars};

verus! {

broadcast use vstd::string::group_string_axioms;

/// The colour used when the wallpaper is too close to black to have a hue.
pub const PRODUCT_COLOUR: [u8; 3] = [0x2D, 0xD4, 0xBF];

/// One channel pushed away from grey by 1.35 and clamped, in units of
/// 1/76500 (so 76500 is full brightness).
pub open spec fn lifted(c: u8, sum: int) -> int {
    let s = 405 * (c as int) - 35 * sum;
    if s < 0 {
        0
    } else if s > 76500 {
        76500
    } else {
        s
    }
}

/// The floor and the ceiling of the band, as the single-precision values
/// nearest to 0.32 and 0.70, in units of 1/2^24.
pub const FLOOR_24: u64 = 5368709;

pub const CEILING_24: u64 = 11744051;

/// A colour somebody can read white text on.
///
/// The channels are pushed away from their mean by a factor of 1.35 (the
/// average of a photograph is duller than anything in it), then scaled so
/// that the brightest lies between 0.32 and 0.70 of full (each taken at
/// single precision). A colour whose brightest channel is under 0.02 has no
/// hue worth keeping and becomes the product colour. Each channel is
/// rounded to the nearest step, halves up.
pub open spec fn spec_presentable(rgb: [u8; 3]) -> Seq<nat> {
    let sum = rgb[0] as int + rgb[1] as int + rgb[2] as int;
    let s = seq![lifted(rgb[0], sum), lifted(rgb[1], sum), lifted(rgb[2], sum)];
    let peak = if s[0] >= s[1] && s[0] >= s[2] {
        s[0]
    } else if s[1] >= s[2] {
        s[1]
    } else {
        s[2]
    };
    if peak < 1530 {
        seq![0x2D, 0xD4, 0xBF]
    } else if peak * 0x100_0000 < FLOOR_24 * 76500 {
        s.map_values(|x: int| round_div((x * FLOOR_24 * 255) as nat, (peak * 0x100_0000) as nat))
    } else if peak * 0x100_0000 > CEILING_24 * 76500 {
        s.map_values(|x: int| round_div((x * CEILING_24 * 255) as nat, (peak * 0x100_0000) as nat))
    } else {
        s.map_values(|x: int| round_div(x as nat, 300))
    }
}

fn lifted_exec(c: u8, sum: u32) -> (r: u32)
    requires
        sum <= 765,
    ensures
        r == lifted(c, sum as int),
        r <= 76500,
{
    let up = 405 * (c as u32);
    let down = 35 * sum;
    if up < down {
        0
    } else if up - down > 76500 {
        76500
    } else {
        up - down
    }
}

fn round_div_exec(n: u64, d: u64) -> (r: u64)
    requires
        d > 0,
        n <= 0x100_0000_0000_0000,
        d <= 0x100_0000_0000_0000,
    ensures
        r == round_div(n as nat, d as nat),
{
    (2 * n + d) / (2 * d)
}

/// A colour somebody can read white text on.
pub fn presentable(rgb: [u8; 3]) -> (r: [u8; 3])
    ensures
        r@.map_values(|x: u8| x as nat) == spec_presentable(rgb),
{
    let sum = rgb[0] as u32 + rgb[1] as u32 + rgb[2] as u32;
    let s0 = lifted_exec(rgb[0], sum);
    let s1 = lifted_exec(rgb[1], sum);
    let s2 = lifted_exec(rgb[2], sum);
    let peak = if s0 >= s1 && s0 >= s2 {
        s0
    } else if s1 >= s2 {
        s1
    } else {
        s2
    };
    if peak < 1530 {
        let r = PRODUCT_COLOUR;
        assert(r@.map_values(|x: u8| x as nat) =~= seq![0x2Dnat, 0xD4, 0xBF]);
        return r;
    }
    let p = peak as u64;
    let (num, den): (u64, u64) = if p * 0x100_0000 < FLOOR_24 * 76500 {
        (FLOOR_24 * 255, p * 0x100_0000)
    } else if p * 0x100_0000 > CEILING_24 * 76500 {
        (CEILING_24 * 255, p * 0x100_0000)
    } else {
        (1, 300)
    };
    assert(s0 * num <= 76500 * (CEILING_24 * 255) && s1 * num <= 76500 * (CEILING_24 * 255) && s2
        * num <= 76500 * (CEILING_24 * 255)) by (nonlinear_arith)
        requires
            s0 <= 76500,
            s1 <= 76500,
            s2 <= 76500,
            num <= CEILING_24 * 255,
    ;
    let a = round_div_exec(s0 as u64 * num, den);
    let b = round_div_exec(s1 as u64 * num, den);
    let c = round_div_exec(s2 as u64 * num, den);
    assert(a <= 255 && b <= 255 && c <= 255) by (nonlinear_arith)
        requires
            a == (2 * (s0 * num) + den) / (2 * den),
            b == (2 * (s1 * num) + den) / (2 * den),
            c == (2 * (s2 * num) + den) / (2 * den),
            s0 <= peak,
            s1 <= peak,
            s2 <= peak,
            peak <= 76500,
            peak >= 1530,
            (num == 1 && den == 300) || (num == FLOOR_24 * 255 && den == peak * 0x100_0000
                && peak * 0x100_0000 < FLOOR_24 * 76500) || (num == CEILING_24 * 255 && den
                == peak * 0x100_0000),
    ;
    let r = [a as u8, b as u8, c as u8];
    proof {
        let spec = spec_presentable(rgb);
        let sum = rgb[0] as int + rgb[1] as int + rgb[2] as int;
        assert(s0 == lifted(rgb[0], sum) && s1 == lifted(rgb[1], sum) && s2 == lifted(rgb[2], sum));
        if p * 0x100_0000 < FLOOR_24 * 76500 {
            assert(s0 * num == s0 * FLOOR_24 * 255 && s1 * num == s1 * FLOOR_24 * 255 && s2 * num
                == s2 * FLOOR_24 * 255);
        } else if p * 0x100_0000 > CEILING_24 * 76500 {
            assert(num == CEILING_24 * 255);
            assert(s0 * num == s0 * CEILING_24 * 255 && s1 * num == s1 * CEILING_24 * 255 && s2
                * num == s2 * CEILING_24 * 255) by (nonlinear_arith)
                requires
                    num == CEILING_24 * 255,
            ;
        } else {
            assert(num == 1 && den == 300);
        }
        let ss = seq![s0 as int, s1 as int, s2 as int];
        assert(ss[0] == lifted(rgb[0], sum) && ss[1] == lifted(rgb[1], sum) && ss[2] == lifted(rgb[2], sum));
        assert(peak == if ss[0] >= ss[1] && ss[0] >= ss[2] {
            ss[0]
        } else if ss[1] >= ss[2] {
            ss[1]
        } else {
            ss[2]
        });
        if p * 0x100_0000 < FLOOR_24 * 76500 {
            assert(spec == ss.map_values(|x: int| round_div((x * FLOOR_24 * 255) as nat, (peak * 0x100_0000) as nat)));
        } else if p * 0x100_0000 > CEILING_24 * 76500 {
            assert(spec == ss.map_values(|x: int| round_div((x * CEILING_24 * 255) as nat, (peak * 0x100_0000) as nat)));
        } else {
            assert(spec == ss.map_values(|x: int| round_div(x as nat, 300)));
        }
        assert(spec[0] == a);
        assert(spec[1] == b);
        assert(spec[2] == c);
    }
    assert(r@.map_values(|x: u8| x as nat) =~= spec_presentable(rgb));
    r
}

/// The same colour, darker: each channel times `num / den`, cut down to a
/// whole step and held at or under 255.
pub open spec fn scaled_channel(c: u8, num: nat, den: nat) -> nat {
    let v = (c as nat * num) / den;
    if v > 255 {
        255
    } else {
        v
    }
}

pub fn dim(rgb: [u8; 3], num: u32, den: u32) -> (r: [u8; 3])
    requires
        den > 0,
    ensures
        forall|i: int| 0 <= i < 3 ==> r[i] as nat == scaled_channel(#[trigger] rgb[i], num as nat, den as nat),
{
    let a = scale_one(rgb[0], num, den);
    let b = scale_one(rgb[1], num, den);
    let c = scale_one(rgb[2], num, den);
    [a, b, c]
}

fn scale_one(c: u8, num: u32, den: u32) -> (r: u8)
    requires
        den > 0,
    ensures
        r as nat == scaled_channel(c, num as nat, den as nat),
{
    assert(c * num <= 255 * 0xffff_ffff) by (nonlinear_arith)
        requires
            c <= 255,
            num <= 0xffff_ffff,
    ;
    let v = (c as u64 * num as u64) / den as u64;
    if v > 255 {
        255
    } else {
        v as u8
    }
}

/// The eight shades Windows keeps for the taskbar and Start, in hundredths
/// of the colour: darker through lighter, then the darkest last.
pub open spec fn shades() -> Seq<nat> {
    seq![35, 50, 68, 85, 100, 120, 145, 18]
}

/// Eight entries of four bytes, red first, the last byte unused.
pub open spec fn spec_palette(rgb: [u8; 3]) -> Seq<u8> {
    Seq::new(
        32,
        |k: int|
            if k % 4 == 3 {
                0u8
            } else {
                scaled_channel(rgb[k % 4], shades()[k / 4], 100) as u8
            },
    )
}

/// The eight shades of one colour, packed the way Windows reads them.
pub fn palette(rgb: [u8; 3]) -> (out: [u8; 32])
    ensures
        out@ == spec_palette(rgb),
{
    let shade_table: [u32; 8] = [35, 50, 68, 85, 100, 120, 145, 18];
    assert(shade_table@.map_values(|x: u32| x as nat) =~= shades());
    let mut out = [0u8; 32];
    let mut index: usize = 0;
    while index < 8
        invariant
            index <= 8,
            shade_table@.map_values(|x: u32| x as nat) == shades(),
            forall|k: int| 0 <= k < index * 4 ==> out@[k] == #[trigger] spec_palette(rgb)[k],
        decreases 8 - index,
    {
        let shade = shade_table[index];
        assert(shade as nat == shades()[index as int]);
        let colour = dim(rgb, shade, 100);
        out[index * 4] = colour[0];
        out[index * 4 + 1] = colour[1];
        out[index * 4 + 2] = colour[2];
        out[index * 4 + 3] = 0;
        proof {
            assert forall|k: int| 0 <= k < (index + 1) * 4 implies out@[k] == #[trigger] spec_palette(
                rgb,
            )[k] by {
                if k >= index * 4 {
                    assert(k / 4 == index);
                    assert(k % 4 == k - index * 4);
                }
            }
        }
        index = index + 1;
    }
    assert(out@ =~= spec_palette(rgb));
    out
}

/// `0xAABBGGRR`, which is how DWM and Explorer store a colour.
pub fn pack_abgr(rgb: [u8; 3], alpha: u8) -> (v: u32)
    ensures
        v == alpha as nat * 0x100_0000 + rgb[2] as nat * 0x1_0000 + rgb[1] as nat * 0x100
            + rgb[0] as nat,
{
    let (r, g, b) = (rgb[0], rgb[1], rgb[2]);
    let v = (alpha as u32) << 24 | (b as u32) << 16 | (g as u32) << 8 | r as u32;
    assert(v == alpha as u32 * 0x100_0000 + b as u32 * 0x1_0000 + g as u32 * 0x100 + r as u32)
        by (bit_vector)
        requires
            v == (alpha as u32) << 24 | (b as u32) << 16 | (g as u32) << 8 | r as u32,
    ;
    v
}

/// `0xAARRGGBB`, which is how `ColorizationColor` stores the same thing.
pub fn pack_argb(rgb: [u8; 3], alpha: u8) -> (v: u32)
    ensures
        v == alpha as nat * 0x100_0000 + rgb[0] as nat * 0x1_0000 + rgb[1] as nat * 0x100
            + rgb[2] as nat,
{
    let (r, g, b) = (rgb[0], rgb[1], rgb[2]);
    let v = (alpha as u32) << 24 | (r as u32) << 16 | (g as u32) << 8 | b as u32;
    assert(v == alpha as u32 * 0x100_0000 + r as u32 * 0x1_0000 + g as u32 * 0x100 + b as u32)
        by (bit_vector)
        requires
            v == (alpha as u32) << 24 | (r as u32) << 16 | (g as u32) << 8 | b as u32,
    ;
    v
}

// ---------------------------------------------------------------------------
// The backup's text
// ---------------------------------------------------------------------------

/// Every byte as two lowercase hexadecimal digits.
pub open spec fn spec_encode_hex(bytes: Seq<u8>) -> Seq<char>
    decreases bytes.len(),
{
    if bytes.len() == 0 {
        Seq::empty()
    } else {
        spec_encode_hex(bytes.drop_last()) + hex(bytes.last() as nat, 2)
    }
}

pub fn encode_hex(bytes: &[u8]) -> (s: String)
    ensures
        s@ == spec_encode_hex(bytes@),
{
    let mut s = String::new();
    let mut i: usize = 0;
    while i < bytes.len()
        invariant
            i <= bytes@.len(),
            s@ == spec_encode_hex(bytes@.take(i as int)),
        decreases bytes@.len() - i,
    {
        let h = hex_vec(bytes[i] as u64, 2);
        push_chars(&mut s, h.as_slice());
        assert(bytes@.take(i + 1).drop_last() =~= bytes@.take(i as int));
        i = i + 1;
    }
    assert(bytes@.take(i as int) =~= bytes@);
    s
}

/// The value of one hexadecimal digit byte, either case.
pub open spec fn hex_value(b: u8) -> Option<nat> {
    if 48 <= b && b <= 57 {
        Some((b - 48) as nat)
    } else if 97 <= b && b <= 102 {
        Some((b - 87) as nat)
    } else if 65 <= b && b <= 70 {
        Some((b - 55) as nat)
    } else {
        None
    }
}

/// `u8::from_str_radix(.., 16)` on two bytes: two digits, or a `+` and
/// one digit.
pub open spec fn pair_value(a: u8, b: u8) -> Option<u8> {
    if a == 43 {
        match hex_value(b) {
            Some(v) => Some(v as u8),
            None => None,
        }
    } else {
        match (hex_value(a), hex_value(b)) {
            (Some(x), Some(y)) => Some((x * 16 + y) as u8),
            _ => None,
        }
    }
}

/// The bytes the backup's text stands for, two characters at a time.
pub open spec fn decode_pairs(b: Seq<u8>) -> Option<Seq<u8>>
    decreases b.len(),
{
    if b.len() < 2 {
        Some(Seq::empty())
    } else {
        match pair_value(b[0], b[1]) {
            Some(v) => match decode_pairs(b.skip(2)) {
                Some(rest) => Some(seq![v] + rest),
                None => None,
            },
            None => None,
        }
    }
}

pub open spec fn spec_decode_hex(b: Seq<u8>) -> Option<Seq<u8>> {
    if b.len() % 2 != 0 {
        None
    } else {
        decode_pairs(b)
    }
}

pub open spec fn is_continuation(b: u8) -> bool {
    128 <= b && b < 192
}

/// Whether reading pairs stops cleanly: the pair where reading stops (the
/// first one that is not a number) does not end inside a character.
pub open spec fn pairs_stop_cleanly(b: Seq<u8>) -> bool
    decreases b.len(),
{
    if b.len() < 2 {
        true
    } else {
        (b.len() == 2 || !is_continuation(b[2])) && (pair_value(b[0], b[1]) is Some
            ==> pairs_stop_cleanly(b.skip(2)))
    }
}

proof fn lemma_pair_ascii(a: u8, b: u8)
    ensures
        pair_value(a, b) is Some ==> a < 128 && b < 128,
{
}

/// The bytes the backup's text stands for, or `None` for text that is not
/// an even number of hexadecimal digits.
pub fn decode_hex(text: &str) -> (r: Option<Vec<u8>>)
    requires
        text.spec_bytes().len() % 2 != 0 || pairs_stop_cleanly(text.spec_bytes()),
    ensures
        match r {
            Some(v) => spec_decode_hex(text.spec_bytes()) == Some(v@),
            None => spec_decode_hex(text.spec_bytes()) is None,
        },
{
    let bytes = text.as_bytes();
    let ghost b = bytes@;
    let n = bytes.len();
    if n % 2 != 0 {
        return None;
    }
    let mut out: Vec<u8> = Vec::new();
    let mut i: usize = 0;
    assert(b.skip(0) =~= b);
    while i < n
        invariant
            b == bytes@,
            b == text.spec_bytes(),
            n == b.len(),
            n % 2 == 0,
            i % 2 == 0,
            i <= n,
            decode_pairs(b) == match decode_pairs(b.skip(i as int)) {
                Some(rest) => Some(out@ + rest),
                None => None,
            },
        decreases n - i,
    {
        let ghost rest = b.skip(i as int);
        assert(rest[0] == b[i as int] && rest[1] == b[i + 1]);
        let v = match pair_exec(bytes[i], bytes[i + 1]) {
            Some(v) => v,
            None => {
                assert(rest.len() >= 2);
                assert(decode_pairs(rest) is None);
                return None;
            },
        };
        assert(rest.skip(2) =~= b.skip(i + 2));
        assert(out@.push(v) + decode_pairs(b.skip(i + 2))->0 =~= out@ + (seq![v] + decode_pairs(
            b.skip(i + 2),
        )->0));
        out.push(v);
        i = i + 2;
    }
    assert(b.skip(i as int).len() == 0);
    assert(out@ + Seq::<u8>::empty() =~= out@);
    Some(out)
}

/// Whether `decode_hex` can read this text: reading pairs stops cleanly,
/// so no pair it reads ends inside a character. (Text written by
/// `encode_hex` always can.)
pub fn stops_cleanly(text: &str) -> (r: bool)
    ensures
        r == pairs_stop_cleanly(text.spec_bytes()),
{
    let bytes = text.as_bytes();
    let ghost b = bytes@;
    let n = bytes.len();
    let mut i: usize = 0;
    assert(b.skip(0) =~= b);
    while n - i >= 2
        invariant
            b == bytes@,
            b == text.spec_bytes(),
            n == b.len(),
            i <= n,
            pairs_stop_cleanly(b) == pairs_stop_cleanly(b.skip(i as int)),
        decreases n - i,
    {
        let ghost rest = b.skip(i as int);
        assert(rest[0] == b[i as int] && rest[1] == b[i + 1]);
        if i + 2 < n {
            assert(rest[2] == b[i + 2]);
            if 128 <= bytes[i + 2] && bytes[i + 2] < 192 {
                return false;
            }
        }
        if pair_exec(bytes[i], bytes[i + 1]).is_none() {
            return true;
        }
        assert(rest.skip(2) =~= b.skip(i + 2));
        i = i + 2;
    }
    true
}

fn hex_exec(b: u8) -> (r: Option<u8>)
    ensures
        match r {
            Some(v) => hex_value(b) == Some(v as nat),
            None => hex_value(b) is None,
        },
{
    if 48 <= b && b <= 57 {
        Some(b - 48)
    } else if 97 <= b && b <= 102 {
        Some(b - 87)
    } else if 65 <= b && b <= 70 {
        Some(b - 55)
    } else {
        None
    }
}

fn pair_exec(a: u8, b: u8) -> (r: Option<u8>)
    ensures
        r == pair_value(a, b),
{
    if a == 43 {
        hex_exec(b)
    } else {
        match (hex_exec(a), hex_exec(b)) {
            (Some(x), Some(y)) => Some(x * 16 + y),
            _ => None,
        }
    }
}

pub proof fn lemma_encode_layout(bytes: Seq<u8>)
    ensures
        spec_encode_hex(bytes).len() == 2 * bytes.len(),
        forall|k: int|
            0 <= k < bytes.len() ==> {
                &&& spec_encode_hex(bytes)[2 * k] == hex_char(#[trigger] bytes[k] as nat / 16)
                &&& spec_encode_hex(bytes)[2 * k + 1] == hex_char(bytes[k] as nat % 16)
            },
    decreases bytes.len(),
{
    if bytes.len() > 0 {
        let front = bytes.drop_last();
        lemma_encode_layout(front);
        let b = bytes.last() as nat;
        assert(hex(b, 2) == seq![hex_char(b / 16), hex_char(b % 16)]) by {
            assert(hex(b / 16, 1) == seq![hex_char(b / 16)]);
        }
        assert forall|k: int| 0 <= k < bytes.len() implies {
            &&& spec_encode_hex(bytes)[2 * k] == hex_char(#[trigger] bytes[k] as nat / 16)
            &&& spec_encode_hex(bytes)[2 * k + 1] == hex_char(bytes[k] as nat % 16)
        } by {
            if k < front.len() {
                assert(bytes[k] == front[k]);
            }
        }
    }
}

proof fn lemma_hex_char_ascii(d: nat)
    requires
        d < 16,
    ensures
        hex_char(d) as u32 == (if d < 10 { d + 48 } else { d + 87 }),
        hex_value(hex_char(d) as u8) == Some(d),
{
}

proof fn lemma_decode_pairs_of(x: Seq<u8>, v: Seq<u8>)
    requires
        x.len() == 2 * v.len(),
        forall|k: int| 0 <= k < v.len() ==> pair_value(x[2 * k], x[2 * k + 1]) == Some(#[trigger] v[k]),
    ensures
        decode_pairs(x) == Some(v),
    decreases v.len(),
{
    if v.len() > 0 {
        assert(pair_value(x[0], x[1]) == Some(v[0]));
        let rest = v.drop_first();
        assert forall|k: int| 0 <= k < rest.len() implies pair_value(
            x.skip(2)[2 * k],
            x.skip(2)[2 * k + 1],
        ) == Some(#[trigger] rest[k]) by {
            assert(pair_value(x[2 * (k + 1)], x[2 * (k + 1) + 1]) == Some(v[k + 1]));
        }
        lemma_decode_pairs_of(x.skip(2), rest);
        assert(seq![v[0]] + rest =~= v);
    } else {
        assert(x.len() == 0);
        assert(v =~= Seq::<u8>::empty());
    }
}

proof fn lemma_ascii_stops_cleanly(b: Seq<u8>)
    requires
        forall|i: int| 0 <= i < b.len() ==> #[trigger] b[i] < 128,
    ensures
        pairs_stop_cleanly(b),
    decreases b.len(),
{
    if b.len() >= 2 {
        lemma_ascii_stops_cleanly(b.skip(2));
    }
}

/// The backup's text reads back as the bytes it was written from: whatever
/// bytes `encode_hex` is given, `decode_hex` on its text gives them back,
/// and that text meets what `decode_hex` asks of its input.
pub proof fn lemma_hex_round_trip(bytes: Seq<u8>)
    ensures
        pairs_stop_cleanly(encode_utf8(spec_encode_hex(bytes))),
        encode_utf8(spec_encode_hex(bytes)).len() % 2 == 0,
        spec_decode_hex(encode_utf8(spec_encode_hex(bytes))) == Some(bytes),
{
    let e = spec_encode_hex(bytes);
    lemma_encode_layout(bytes);
    assert forall|i: int| 0 <= i < e.len() implies '\0' <= #[trigger] e[i] <= '\u{7f}' by {
        let k = i / 2;
        assert(i == 2 * k || i == 2 * k + 1);
        lemma_hex_char_ascii(bytes[k] as nat / 16);
        lemma_hex_char_ascii(bytes[k] as nat % 16);
    }
    assert(is_ascii_chars(e));
    is_ascii_chars_encode_utf8(e);
    let x = encode_utf8(e);
    assert forall|k: int| 0 <= k < bytes.len() implies pair_value(x[2 * k], x[2 * k + 1]) == Some(
        #[trigger] bytes[k],
    ) by {
        let b = bytes[k] as nat;
        lemma_hex_char_ascii(b / 16);
        lemma_hex_char_ascii(b % 16);
        assert(x[2 * k] == e[2 * k] as u8);
        assert(x[2 * k + 1] == e[2 * k + 1] as u8);
        assert(x[2 * k] != 43);
        assert((b / 16) * 16 + b % 16 == b);
    }
    lemma_decode_pairs_of(x, bytes);
    assert forall|i: int| 0 <= i < x.len() implies #[trigger] x[i] < 128 by {
        assert(x[i] == e[i] as u8);
        let k = i / 2;
        assert(i == 2 * k || i == 2 * k + 1);
        lemma_hex_char_ascii(bytes[k] as nat / 16);
        lemma_hex_char_ascii(bytes[k] as nat % 16);
    }
    lemma_ascii_stops_cleanly(x);
}

// ---------------------------------------------------------------------------
// Registry names
// ---------------------------------------------------------------------------

/// The UTF-16 units of one character.
pub open spec fn utf16_of(c: char) -> Seq<u16> {
    let v = c as u32;
    if v < 0x10000 {
        seq![v as u16]
    } else {
        let w = (v - 0x10000) as u32;
        seq![(0xD800 + w / 0x400) as u16, (0xDC00 + w % 0x400) as u16]
    }
}

/// A string as UTF-16.
pub open spec fn utf16(s: Seq<char>) -> Seq<u16>
    decreases s.len(),
{
    if s.len() == 0 {
        Seq::empty()
    } else {
        utf16(s.drop_last()) + utf16_of(s.last())
    }
}

/// A string as the zero-terminated UTF-16 the registry calls take.
pub fn wide(text: &str) -> (w: Vec<u16>)
    ensures
        w@ == utf16(text@).push(0),
{
    let v = chars_of(text);
    let mut w: Vec<u16> = Vec::new();
    let mut i: usize = 0;
    while i < v.len()
        invariant
            i <= v@.len(),
            v@ == text@,
            w@ == utf16(v@.take(i as int)),
        decreases v@.len() - i,
    {
        let c = v[i] as u32;
        assert(v@.take(i + 1).drop_last() =~= v@.take(i as int));
        if c < 0x10000 {
            w.push(c as u16);
        } else {
            let x = c - 0x10000;
            assert(x < 0x100000) by {
                vstd::utf8::char_is_scalar(v@[i as int]);
            }
            w.push((0xD800 + x / 0x400) as u16);
            w.push((0xDC00 + x % 0x400) as u16);
        }
        i = i + 1;
        assert(w@ =~= utf16(v@.take(i as int)));
    }
    assert(v@.take(i as int) =~= v@);
    w.push(0);
    w
}

} // verus!

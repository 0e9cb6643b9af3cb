//! The numbers a rewrite is given: the bitrate, and the packing Media
//! Foundation uses for pairs of 32-bit values.

use vstd::prelude::*;

verus! {

/// The least a rewritten clip is given, in bits per second: a small clip
/// must not come out looking worse than the file it replaced.
pub const BITRATE_FLOOR: u32 = 1_500_000;

/// The most: past it the file grows and nothing on screen changes.
pub const BITRATE_CEILING: u32 = 12_000_000;

/// 0.07 bits per pixel per frame, held between the floor and the ceiling.
/// A frame rate of zero counts as one.
pub open spec fn spec_bitrate(size: (u32, u32), fps: u32) -> nat {
    let f = if fps < 1 { 1 } else { fps as nat };
    let raw = (size.0 as nat * size.1 as nat * f * 7) / 100;
    if raw < BITRATE_FLOOR {
        BITRATE_FLOOR as nat
    } else if raw > BITRATE_CEILING {
        BITRATE_CEILING as nat
    } else {
        raw
    }
}

/// More pixels, or more frames a second, never give a clip fewer bits.
pub proof fn lemma_bitrate_monotone(small: (u32, u32), fps_small: u32, large: (u32, u32), fps_large: u32)
    requires
        small.0 <= large.0,
        small.1 <= large.1,
        fps_small <= fps_large,
    ensures
        spec_bitrate(small, fps_small) <= spec_bitrate(large, fps_large),
{
    let fs: nat = if fps_small < 1 { 1 } else { fps_small as nat };
    let fl: nat = if fps_large < 1 { 1 } else { fps_large as nat };
    let a = small.0 as nat * small.1 as nat * fs * 7;
    let b = large.0 as nat * large.1 as nat * fl * 7;
    assert(a <= b) by (nonlinear_arith)
        requires
            small.0 <= large.0,
            small.1 <= large.1,
            fs <= fl,
            a == small.0 as nat * small.1 as nat * fs * 7,
            b == large.0 as nat * large.1 as nat * fl * 7,
    ;
    assert(a / 100 <= b / 100) by (nonlinear_arith)
        requires
            a <= b,
    ;
}

/// The bitrate a rewritten clip is given, in bits per second.
///
/// Bits per pixel per frame, rather than a fixed number: a 720p loop and a
/// 1440p one have nothing in common, and a single bitrate would either
/// starve one or waste space on the other. 0.07 is at the generous end for
/// H.264 — wallpapers are often gradients and slow pans, where banding is
/// the artefact people notice and it is exactly what a tight bitrate
/// produces.
pub fn bitrate_for(size: (u32, u32), fps: u32) -> (bits: u32)
    ensures
        bits == spec_bitrate(size, fps),
        BITRATE_FLOOR <= bits <= BITRATE_CEILING,
{
    let f: u128 = if fps < 1 {
        1
    } else {
        fps as u128
    };
    let w = size.0 as u128;
    let h = size.1 as u128;
    assert(w * h <= 0xFFFF_FFFF * 0xFFFF_FFFF) by (nonlinear_arith)
        requires
            w <= 0xFFFF_FFFF,
            h <= 0xFFFF_FFFF,
    ;
    assert(w * h * f <= 0xFFFF_FFFF * 0xFFFF_FFFF * 0xFFFF_FFFF) by (nonlinear_arith)
        requires
            w * h <= 0xFFFF_FFFF * 0xFFFF_FFFF,
            f <= 0xFFFF_FFFF,
    ;
    let raw = (w * h * f * 7) / 100;
    if raw < BITRATE_FLOOR as u128 {
        BITRATE_FLOOR
    } else if raw > BITRATE_CEILING as u128 {
        BITRATE_CEILING
    } else {
        raw as u32
    }
}

/// Media Foundation packs a pair of 32-bit numbers into one 64-bit
/// attribute, high half first. Sizes, frame rates and aspect ratios all use
/// it.
pub fn packed(high: u32, low: u32) -> (v: u64)
    ensures
        v == high as nat * 0x1_0000_0000 + low as nat,
{
    let v = ((high as u64) << 32u64) | low as u64;
    assert(v == high as u64 * 0x1_0000_0000 + low as u64) by (bit_vector)
        requires
            v == ((high as u64) << 32u64) | low as u64,
    ;
    v
}

/// The two halves of a packed attribute, high first.
pub fn unpack(value: u64) -> (pair: (u32, u32))
    ensures
        pair.0 == value / 0x1_0000_0000,
        pair.1 == value % 0x1_0000_0000,
{
    let high = (value >> 32u64) as u32;
    let low = (value & 0xFFFF_FFFF) as u32;
    assert(high == value / 0x1_0000_0000 && low == value % 0x1_0000_0000) by (bit_vector)
        requires
            high == (value >> 32u64) as u32,
            low == (value & 0xFFFF_FFFF) as u32,
    ;
    (high, low)
}

/// Unpacking gives back what was packed.
pub proof fn lemma_pack_round_trip(high: u32, low: u32)
    ensures
        (high as nat * 0x1_0000_0000 + low as nat) / 0x1_0000_0000 == high,
        (high as nat * 0x1_0000_0000 + low as nat) % 0x1_0000_0000 == low,
{
    vstd::arithmetic::div_mod::lemma_fundamental_div_mod_converse(
        (high as nat * 0x1_0000_0000 + low as nat) as int,
        0x1_0000_0000,
        high as int,
        low as int,
    );
}

} // verus!

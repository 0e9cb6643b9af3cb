//! Hardware video decode capability, as the probe reported it.

use vstd::prelude::*;

use crate::text::{join, push_joined};

verus! {

#[derive(Debug, Clone, Copy, Default, PartialEq, Eq, Structural)]
pub struct DecodeCaps {
    pub h264: bool,
    pub hevc_main: bool,
    pub hevc_main10: bool,
    pub vp9: bool,
    pub av1: bool,
}

/// The names of the decoders present, in a fixed order.
pub open spec fn decoder_names(c: DecodeCaps) -> Seq<Seq<char>> {
    let a = if c.h264 { seq!["h264"@] } else { Seq::empty() };
    let b = if c.hevc_main { a.push("hevc"@) } else { a };
    let d = if c.hevc_main10 { b.push("hevc10"@) } else { b };
    let e = if c.vp9 { d.push("vp9"@) } else { d };
    if c.av1 { e.push("av1"@) } else { e }
}

/// The one-word summary: the decoders joined with `+`, or `none`.
pub open spec fn spec_summary(c: DecodeCaps) -> Seq<char> {
    if decoder_names(c).len() == 0 {
        "none"@
    } else {
        join(decoder_names(c), "+"@)
    }
}

pub open spec fn spec_any(c: DecodeCaps) -> bool {
    c.h264 || c.hevc_main || c.hevc_main10 || c.vp9 || c.av1
}

fn push_name(parts: &mut Vec<Vec<char>>, on: bool, name: &str)
    ensures
        crate::text::views(final(parts)@) == if on {
            crate::text::views(old(parts)@).push(name@)
        } else {
            crate::text::views(old(parts)@)
        },
{
    if on {
        let ghost before = parts@;
        parts.push(crate::text::chars_of(name));
        assert(crate::text::views(parts@) =~= crate::text::views(before).push(name@));
    }
}

impl DecodeCaps {
    /// Nothing plays without at least one hardware decoder.
    pub fn any(&self) -> (r: bool)
        ensures
            r == spec_any(*self),
    {
        self.h264 || self.hevc_main || self.hevc_main10 || self.vp9 || self.av1
    }

    pub fn summary(&self) -> (s: String)
        ensures
            s@ == spec_summary(*self),
    {
        let mut parts: Vec<Vec<char>> = Vec::new();
        assert(crate::text::views(parts@) =~= Seq::<Seq<char>>::empty());
        push_name(&mut parts, self.h264, "h264");
        assert(crate::text::views(parts@) =~= if self.h264 { seq!["h264"@] } else { Seq::empty() });
        push_name(&mut parts, self.hevc_main, "hevc");
        push_name(&mut parts, self.hevc_main10, "hevc10");
        push_name(&mut parts, self.vp9, "vp9");
        push_name(&mut parts, self.av1, "av1");
        let mut s = String::new();
        if parts.len() == 0 {
            crate::text::push_str(&mut s, "none");
        } else {
            let plus = crate::text::chars_of("+");
            push_joined(&mut s, &parts, plus.as_slice());
        }
        s
    }
}

} // verus!

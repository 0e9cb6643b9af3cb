//! What the hidden window has been told since the render loop last asked.

use vstd::prelude::*;

verus! {

/// Every field is one-shot: reading clears it.
#[derive(Debug, Clone, Copy, Default, PartialEq, Eq, Structural)]
pub struct Signals {
    /// A monitor was plugged in, unplugged, or had its resolution changed.
    pub display_changed: bool,
    /// The machine came back from sleep.
    pub resumed: bool,
    pub next: bool,
    pub pause: bool,
    pub mute: bool,
}

impl Signals {
    pub fn any(&self) -> (r: bool)
        ensures
            r == (self.display_changed || self.resumed || self.next || self.pause || self.mute),
    {
        self.display_changed || self.resumed || self.next || self.pause || self.mute
    }
}

} // verus!

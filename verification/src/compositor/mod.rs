//! Deciding what goes on each screen.

pub mod accent;
pub mod backup;
pub mod desktop;
pub mod notify;
pub mod order;
pub mod pass;
pub mod playback;
pub mod playlists;
pub mod render;
pub mod rules;
pub mod scenes;
pub mod report;
pub mod settings;

use vstd::prelude::*;

verus! {

/// Whether the wallpaper is allowed to make noise, and how loudly. `F` is
/// the number type the volume is kept in, 0 to 1.
#[derive(Debug, Clone, Copy, PartialEq)]
pub struct Sound<F> {
    pub enabled: bool,
    /// Independent of the Windows volume, which stays the way the user set
    /// it for everything else.
    pub volume: F,
    /// Whether to stand down while another application is making sound.
    pub duck: bool,
}

} // verus!

//! Memory and power state: the non-GPU half of the profile.

use vstd::prelude::*;

verus! {

#[derive(Debug, Clone, Copy, PartialEq, Eq, Structural)]
pub struct SystemInfo {
    pub total_ram_mb: u64,
    pub on_battery: bool,
}

} // verus!

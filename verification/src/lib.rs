//! Playback policy, parsing and geometry for a live-wallpaper engine.
pub mod audio;
pub mod bench;
pub mod caps;
pub mod clock;
pub mod compositor;
pub mod decoder;
pub mod ipc;
pub mod paths;
pub mod optimize;
pub mod power;
pub mod session;
pub mod text;

//! Clocks, bounded data windows and playback orchestration.

pub mod clock;
pub mod data_plane;
pub mod data_window;
pub mod mcap_playback;
pub mod web_playback;
pub mod window_loader;

//! Playback of recordings that a server holds.

pub mod catalog;
pub mod client;
pub mod control;
pub mod pages;
pub mod playback;
pub mod source;

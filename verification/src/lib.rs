//! Recording access, playback and feature state of an MCAP player.
//!
//! The modules follow the flow of the data. `message` holds time values and the ROS CDR codecs,
//! `recording` serialized messages and where they come from, `playback` clocks and bounded
//! windows. `feature` keeps what the messages of each kind show, and `presentation` decides what is
//! drawn and said of it. `remote` plays recordings of a server, `inspection` examines a file range
//! by range, and `derived` holds bookmarks and previews.

pub mod derived;
pub mod feature;
pub mod inspection;
pub mod message;
pub mod playback;
pub mod presentation;
pub mod recording;
pub mod remote;

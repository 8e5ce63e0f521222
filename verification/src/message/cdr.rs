//! Codecs for the ROS messages that the player reads, in CDR form.
//!
//! Each decoder is described by a spec function from the bytes and a position to what is read
//! there and the position behind it, or to the reason why nothing can be read.

pub mod common;
pub mod image;
pub mod laser_scan;
pub mod odometry;
pub mod path;
pub mod transform;

//! Canonical serialized messages, time types, and concrete ROS CDR codecs.

pub mod cdr;
pub mod float;
pub mod text;
pub mod time;
pub mod payload;
pub mod norm;

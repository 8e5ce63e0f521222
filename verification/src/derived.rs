//! Bounded derived products kept outside continuous feature state.

pub mod bookmark;
pub mod preview;
pub mod source_fingerprint;

//! What the viewer shows: frames for its renderers, layers, camera images and words.

pub mod cameras;
pub mod frames;
pub mod layers;
pub mod surface;
pub mod words;

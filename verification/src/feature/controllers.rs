//! Concrete message reducers for continuous viewer features.

pub mod camera;
pub mod counters;
pub mod odometry;
pub mod path;
pub mod scene;
pub mod transform;

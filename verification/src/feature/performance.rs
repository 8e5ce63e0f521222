//! How many camera frames came in and were shown.

use crate::feature::camera::CameraId;
use crate::feature::controllers::camera::CameraController;
use crate::feature::schedule::{BACKGROUND_INTERVAL_NS, FOCUSED_INTERVAL_NS};
use vstd::prelude::*;

verus! {

/// How many camera frames came in and were shown.
#[derive(Clone, Debug, Eq, PartialEq)]
pub struct PlaybackPerformance {
    pub camera_input_frames: u64,
    pub camera_presented_frames: u64,
    /// The cameras that were shown and how often, in ascending order.
    pub camera_presented_by_id: Vec<(CameraId, u64)>,
}

impl PlaybackPerformance {
    /// The counts of a camera controller.
    pub fn from_controllers(cameras: &CameraController) -> (performance: Self)
        requires
            cameras.well_formed(),
        ensures
            performance.camera_input_frames == cameras.content().schedule.input_frames,
            performance.camera_presented_frames == cameras.content().schedule.presented_frames,
            performance.camera_presented_by_id@
                == cameras.content().schedule.presented_by_id.map_values(
                |entry: (i64, u64)| (CameraId(entry.0 as u16), entry.1),
            ),
    {
        PlaybackPerformance {
            camera_input_frames: cameras.input_frames(),
            camera_presented_frames: cameras.presented_frames(),
            camera_presented_by_id: cameras.presented_by_id(),
        }
    }

    /// How often a second the focused camera is shown at most.
    pub fn focused_camera_hz(&self) -> (hertz: u64)
        ensures
            hertz as int * FOCUSED_INTERVAL_NS == 1_000_000_000,
    {
        CameraController::focused_hz()
    }

    /// How often a second any other camera is shown at most.
    pub fn background_camera_hz(&self) -> (hertz: u64)
        ensures
            hertz as int * BACKGROUND_INTERVAL_NS == 1_000_000_000,
    {
        CameraController::background_hz()
    }
}

} // verus!

//! Decoded odometry state.

use crate::feature::bev::{self, advance_revision};
use crate::message::float::F64;
use crate::message::time::{ArrivalTime, MeasurementTime};
use vstd::prelude::*;

verus! {

/// The vehicle's planar position, attitude and velocity at one time.
#[derive(Clone, Debug, PartialEq)]
pub struct TelemetryFrame {
    pub measurement_time: MeasurementTime,
    pub arrival_time: ArrivalTime,
    pub frame_id: String,
    pub child_frame_id: String,
    pub position_x: F64,
    pub position_y: F64,
    /// Quaternion in ROS x, y, z, w order, from which the yaw follows.
    pub orientation: [F64; 4],
    pub forward_velocity: F64,
    /// Velocity to the left, which with the forward velocity makes the speed.
    pub lateral_velocity: F64,
    pub yaw_rate: F64,
}

/// What a telemetry frame holds.
pub struct TelemetryContent {
    pub measurement_time: MeasurementTime,
    pub arrival_time: ArrivalTime,
    pub frame_id: Seq<char>,
    pub child_frame_id: Seq<char>,
    pub position_x: F64,
    pub position_y: F64,
    pub orientation: [F64; 4],
    pub forward_velocity: F64,
    pub lateral_velocity: F64,
    pub yaw_rate: F64,
}

impl View for TelemetryFrame {
    type V = TelemetryContent;

    open spec fn view(&self) -> TelemetryContent {
        TelemetryContent {
            measurement_time: self.measurement_time,
            arrival_time: self.arrival_time,
            frame_id: self.frame_id@,
            child_frame_id: self.child_frame_id@,
            position_x: self.position_x,
            position_y: self.position_y,
            orientation: self.orientation,
            forward_velocity: self.forward_velocity,
            lateral_velocity: self.lateral_velocity,
            yaw_rate: self.yaw_rate,
        }
    }
}

/// The latest accepted telemetry.
#[derive(Clone, Debug)]
pub struct TelemetryState {
    revision: u64,
    latest: Option<TelemetryFrame>,
}

/// What a telemetry state holds.
pub struct TelemetriesContent {
    pub revision: u64,
    pub latest: Option<TelemetryContent>,
}

impl TelemetriesContent {
    /// Newer telemetry is already there.
    pub open spec fn outdates(self, frame: TelemetryContent) -> bool {
        match self.latest {
            Some(current) => current.arrival_time.0 > frame.arrival_time.0,
            None => false,
        }
    }

    /// The state once telemetry was offered: outdated telemetry changes nothing.
    pub open spec fn offered(self, frame: TelemetryContent) -> TelemetriesContent {
        if self.outdates(frame) {
            self
        } else {
            TelemetriesContent { revision: bev::next_revision(self.revision), latest: Some(frame) }
        }
    }

    /// The state after a jump in time.
    pub open spec fn cold(self) -> TelemetriesContent {
        TelemetriesContent { revision: bev::next_revision(self.revision), latest: None }
    }
}

impl TelemetryState {
    pub closed spec fn content(&self) -> TelemetriesContent {
        TelemetriesContent {
            revision: self.revision,
            latest: match self.latest {
                Some(frame) => Some(frame@),
                None => None,
            },
        }
    }

    /// Offers telemetry. Older telemetry than the current one is refused.
    pub fn apply(&mut self, frame: TelemetryFrame) -> (accepted: bool)
        ensures
            accepted == !old(self).content().outdates(frame@),
            final(self).content() == old(self).content().offered(frame@),
    {
        if let Some(current) = &self.latest {
            if current.arrival_time.0 > frame.arrival_time.0 {
                return false;
            }
        }
        self.latest = Some(frame);
        self.revision = advance_revision(self.revision);
        true
    }

    pub fn cold_seek(&mut self)
        ensures
            final(self).content() == old(self).content().cold(),
    {
        self.revision = advance_revision(self.revision);
        self.latest = None;
    }

    /// The state that `cold_seek` leaves, beside this one.
    pub fn cold_copy(&self) -> (copy: Self)
        ensures
            copy.content() == self.content().cold(),
    {
        TelemetryState { revision: advance_revision(self.revision), latest: None }
    }

    pub fn revision(&self) -> (revision: u64)
        ensures
            revision == self.content().revision,
    {
        self.revision
    }

    pub fn latest(&self) -> (latest: Option<&TelemetryFrame>)
        ensures
            match latest {
                Some(frame) => self.content().latest == Some(frame@),
                None => self.content().latest is None,
            },
    {
        match &self.latest {
            Some(frame) => Some(frame),
            None => None,
        }
    }
}

impl Default for TelemetryState {
    fn default() -> (state: Self)
        ensures
            state.content() == (TelemetriesContent { revision: 0, latest: None }),
    {
        TelemetryState { revision: 0, latest: None }
    }
}

/// Offering telemetry never replaces newer telemetry, and a change changes the revision.
pub proof fn law_offered_telemetry_does_not_go_back(
    state: TelemetriesContent,
    frame: TelemetryContent,
)
    ensures
        state.latest matches Some(current) ==> state.offered(frame).latest matches Some(shown)
            && shown.arrival_time.0 >= current.arrival_time.0,
        state.offered(frame) != state ==> state.offered(frame).revision != state.revision,
        state.cold().latest is None && state.cold().revision != state.revision,
{
}

/// What is offered is shown unless something that arrived later is: the first one, a later one, and one
/// of the same time.
pub proof fn law_the_latest_telemetry_is_shown(state: TelemetriesContent, frame: TelemetryContent)
    ensures
        state.latest is None ==> state.offered(frame).latest == Some(frame),
        state.latest matches Some(current) ==> state.offered(frame).latest == if
            current.arrival_time.0 <= frame.arrival_time.0 {
            Some(frame)
        } else {
            state.latest
        },
{
}

} // verus!

//! Odometry: decoding into telemetry and restoring.

use crate::feature::controllers::counters::ProcessingCounters;
use crate::feature::telemetry::{
    TelemetriesContent, TelemetryContent, TelemetryFrame, TelemetryState,
};
use crate::message::cdr::odometry::{self, decode_odometry, Odometry, OdometryContent};
use crate::message::payload::as_slice;
use crate::feature::schedule::{self, count_up};
use crate::message::cdr::common::{DecodeError, DecodeFault};
use crate::recording::raw::{is_stream, RawContent, RawMessage, StreamId};
use crate::recording::restore::RestoreSemantics;
use crate::recording::session::{self, DomainTarget, RouteContent, SessionPlan};
use vstd::prelude::*;

verus! {

/// The telemetry that a message holds.
pub open spec fn telemetry_in(message: RawContent) -> Result<TelemetryContent, DecodeFault> {
    match odometry::odometry_in(message.payload) {
        Err(fault) => Err(fault),
        Ok(odometry) => Ok(
            TelemetryContent {
                measurement_time: odometry.measurement_time,
                arrival_time: message.arrival_time,
                frame_id: odometry.frame_id,
                child_frame_id: odometry.child_frame_id,
                position_x: odometry.position@[0],
                position_y: odometry.position@[1],
                orientation: odometry.orientation,
                forward_velocity: odometry.linear_velocity@[0],
                lateral_velocity: odometry.linear_velocity@[1],
                yaw_rate: odometry.angular_velocity@[2],
            },
        ),
    }
}

/// Decodes an odometry message.
pub fn decode_telemetry(message: &RawMessage) -> (outcome: Result<TelemetryFrame, DecodeError>)
    ensures
        match outcome {
            Ok(frame) => telemetry_in(message@) == Ok::<TelemetryContent, DecodeFault>(frame@),
            Err(error) => telemetry_in(message@) == Err::<TelemetryContent, DecodeFault>(error@),
        },
{
    let odometry = decode_odometry(as_slice(&message.payload))?;
    Ok(
        TelemetryFrame {
            measurement_time: odometry.measurement_time,
            arrival_time: message.arrival_time,
            frame_id: odometry.frame_id,
            child_frame_id: odometry.child_frame_id,
            position_x: odometry.position[0],
            position_y: odometry.position[1],
            orientation: odometry.orientation,
            forward_velocity: odometry.linear_velocity[0],
            lateral_velocity: odometry.linear_velocity[1],
            yaw_rate: odometry.angular_velocity[2],
        },
    )
}

/// The odometry of a session.
#[derive(Clone, Debug)]
pub struct OdometryController {
    stream: Option<StreamId>,
    state: TelemetryState,
    decoded: u64,
    errors: u64,
}

/// What a controller holds.
pub struct OdometryControllerContent {
    pub stream: Option<StreamId>,
    pub state: TelemetriesContent,
    pub decoded: u64,
    pub errors: u64,
}

impl OdometryControllerContent {
    /// A new controller for the routes of a session.
    pub open spec fn fresh(routes: Seq<RouteContent>) -> Self {
        OdometryControllerContent {
            stream: session::stream_for(routes, DomainTarget::Telemetry),
            state: TelemetriesContent { revision: 0, latest: None },
            decoded: 0,
            errors: 0,
        }
    }

    /// The controller once a message of its stream was decoded. One that cannot be decoded is
    /// counted and leaves what is shown.
    pub open spec fn decoded_message(self, message: RawContent) -> Self {
        match telemetry_in(message) {
            Ok(frame) => OdometryControllerContent {
                state: self.state.offered(frame),
                decoded: schedule::counted(self.decoded),
                ..self
            },
            Err(_) => OdometryControllerContent { errors: schedule::counted(self.errors), ..self },
        }
    }

    /// The controller once a message came in. A message of another stream changes nothing.
    pub open spec fn processed(self, message: RawContent) -> Self {
        if self.stream == Some(message.stream_id) {
            self.decoded_message(message)
        } else {
            self
        }
    }

    /// The controller before a restore: nothing is shown.
    pub open spec fn reset(self) -> Self {
        OdometryControllerContent { state: self.state.cold(), ..self }
    }

    pub open spec fn counters(self) -> ProcessingCounters {
        ProcessingCounters {
            decoded: self.decoded,
            errors: self.errors,
            unknown_streams: 0,
            dropped: 0,
        }
    }
}

impl OdometryController {
    pub closed spec fn content(&self) -> OdometryControllerContent {
        OdometryControllerContent {
            stream: self.stream,
            state: self.state.content(),
            decoded: self.decoded,
            errors: self.errors,
        }
    }

    /// A seek shows the latest odometry before its target.
    pub fn restore_semantics() -> (semantics: RestoreSemantics)
        ensures
            semantics == RestoreSemantics::LatestBefore,
    {
        RestoreSemantics::LatestBefore
    }

    pub fn new(plan: &SessionPlan) -> (controller: Self)
        ensures
            controller.content() == OdometryControllerContent::fresh(plan.content()),
    {
        OdometryController {
            stream: plan.stream_to(DomainTarget::Telemetry),
            state: TelemetryState::default(),
            decoded: 0,
            errors: 0,
        }
    }

    /// Takes a message of the stream, and shows what it holds where it can be decoded.
    pub fn process(&mut self, message: &RawMessage) -> (routed: bool)
        ensures
            routed == (old(self).content().stream == Some(message.stream_id)),
            final(self).content() == old(self).content().processed(message@),
    {
        if !is_stream(self.stream, message.stream_id) {
            return false;
        }
        let _ = self.decode_and_apply(message);
        true
    }

    /// Takes a message of the stream, which must be decodable.
    pub fn restore(&mut self, message: &RawMessage) -> (outcome: Result<bool, DecodeError>)
        ensures
            final(self).content() == old(self).content().processed(message@),
            match outcome {
                Ok(routed) => routed == (old(self).content().stream == Some(message.stream_id)) && (
                routed ==> telemetry_in(message@) is Ok),
                Err(error) => old(self).content().stream == Some(message.stream_id)
                    && telemetry_in(message@) == Err::<TelemetryContent, DecodeFault>(error@),
            },
    {
        if !is_stream(self.stream, message.stream_id) {
            return Ok(false);
        }
        self.decode_and_apply(message)?;
        Ok(true)
    }

    fn decode_and_apply(&mut self, message: &RawMessage) -> (outcome: Result<(), DecodeError>)
        ensures
            final(self).content() == old(self).content().decoded_message(message@),
            match outcome {
                Ok(_) => telemetry_in(message@) is Ok,
                Err(error) => telemetry_in(message@) == Err::<TelemetryContent, DecodeFault>(error@),
            },
    {
        match decode_telemetry(message) {
            Ok(frame) => {
                self.state.apply(frame);
                self.decoded = count_up(self.decoded);
                Ok(())
            },
            Err(error) => {
                self.errors = count_up(self.errors);
                Err(error)
            },
        }
    }

    pub fn reset_for_restore(&mut self)
        ensures
            final(self).content() == old(self).content().reset(),
    {
        self.state.cold_seek();
    }

    /// The controller that `reset_for_restore` leaves, beside this one.
    pub fn reset_copy(&self) -> (copy: Self)
        ensures
            copy.content() == self.content().reset(),
    {
        OdometryController {
            stream: self.stream,
            state: self.state.cold_copy(),
            decoded: self.decoded,
            errors: self.errors,
        }
    }

    pub fn state(&self) -> (state: &TelemetryState)
        ensures
            state.content() == self.content().state,
    {
        &self.state
    }

    pub fn counters(&self) -> (counters: ProcessingCounters)
        ensures
            counters == self.content().counters(),
    {
        ProcessingCounters {
            decoded: self.decoded,
            errors: self.errors,
            unknown_streams: 0,
            dropped: 0,
        }
    }
}

/// Telemetry shows the odometry of its message: where the vehicle is in the plane, how it stands, how
/// fast it goes forward and to the left, and how fast it turns about the upright axis.
pub proof fn law_telemetry_shows_the_odometry(
    message: RawContent,
    odometry: Odometry,
    frame: TelemetryFrame,
)
    requires
        odometry::odometry_in(message.payload) == Ok::<OdometryContent, DecodeFault>(odometry@),
    ensures
        telemetry_in(message) is Ok,
        telemetry_in(message)->Ok_0 == frame@ ==> {
            &&& frame.measurement_time == odometry.measurement_time
            &&& frame.arrival_time == message.arrival_time
            &&& frame.frame_id@ == odometry.frame_id@
            &&& frame.child_frame_id@ == odometry.child_frame_id@
            &&& seq![frame.position_x, frame.position_y] == odometry.position@.take(2)
            &&& frame.orientation@ == odometry.orientation@
            &&& seq![frame.forward_velocity, frame.lateral_velocity]
                == odometry.linear_velocity@.take(2)
            &&& frame.yaw_rate == odometry.angular_velocity@.last()
        },
{
    if telemetry_in(message)->Ok_0 == frame@ {
        assert(seq![frame.position_x, frame.position_y] =~= odometry.position@.take(2));
        assert(seq![frame.forward_velocity, frame.lateral_velocity]
            =~= odometry.linear_velocity@.take(2));
    }
}

} // verus!

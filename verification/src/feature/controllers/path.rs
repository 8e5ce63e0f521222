//! The planned path: decoding and restoring.

use crate::feature::controllers::counters::ProcessingCounters;
use crate::feature::bev::{BevContent, BevPathFrame, BevState, PathFrameContent};
use crate::message::cdr::path::{self, decode_path, PathContent, PathMessage};
use crate::message::float::{self, F32, F64};
use crate::message::payload::as_slice;
use crate::feature::schedule::{self, count_up};
use crate::message::cdr::common::{DecodeError, DecodeFault};
use crate::recording::raw::{is_stream, RawContent, RawMessage, StreamId};
use crate::recording::restore::RestoreSemantics;
use crate::recording::session::{self, DomainTarget, RouteContent, SessionPlan};
use vstd::prelude::*;

verus! {

/// A ROS point, forward and left, as the vehicle-relative point right and forward.
pub open spec fn planned_point(point: [F64; 2]) -> [F32; 2] {
    [point@[1].spec_negated().spec_narrowed(), point@[0].spec_narrowed()]
}

/// The path frame that a message holds.
pub open spec fn path_frame_in(message: RawContent) -> Result<PathFrameContent, DecodeFault> {
    match path::path_in(message.payload) {
        Err(fault) => Err(fault),
        Ok(path) => Ok(
            PathFrameContent {
                measurement_time: path.measurement_time,
                arrival_time: message.arrival_time,
                frame_id: path.frame_id,
                points: path.points.map_values(|point: [F64; 2]| planned_point(point)),
            },
        ),
    }
}

fn planned_points(points: &Vec<[F64; 2]>) -> (planned: Vec<[F32; 2]>)
    requires
        forall|i: int|
            0 <= i < points@.len() ==> (#[trigger] points@[i])@[0].spec_finite()
                && points@[i]@[1].spec_finite(),
    ensures
        planned@ == points@.map_values(|point: [F64; 2]| planned_point(point)),
{
    let mut planned: Vec<[F32; 2]> = Vec::with_capacity(points.len());
    let mut index: usize = 0;
    while index < points.len()
        invariant
            index <= points@.len(),
            forall|i: int|
                0 <= i < points@.len() ==> (#[trigger] points@[i])@[0].spec_finite()
                    && points@[i]@[1].spec_finite(),
            planned@ == points@.take(index as int).map_values(
                |point: [F64; 2]| planned_point(point),
            ),
        decreases points@.len() - index,
    {
        let forward: F64 = points[index][0];
        let left: F64 = points[index][1];
        assert(points@[index as int]@[0].spec_finite());
        planned.push([left.negated().narrowed(), forward.narrowed()]);
        index = index + 1;
        assert(planned@ =~= points@.take(index as int).map_values(
            |point: [F64; 2]| planned_point(point),
        ));
    }
    assert(points@.take(points@.len() as int) =~= points@);
    planned
}

/// Decodes a path message.
pub fn decode_path_frame(message: &RawMessage) -> (outcome: Result<BevPathFrame, DecodeError>)
    ensures
        match outcome {
            Ok(frame) => path_frame_in(message@) == Ok::<PathFrameContent, DecodeFault>(frame@),
            Err(error) => path_frame_in(message@) == Err::<PathFrameContent, DecodeFault>(error@),
        },
{
    let path = decode_path(as_slice(&message.payload))?;
    proof {
        path::law_path_points_are_finite(message@.payload);
    }
    Ok(
        BevPathFrame {
            measurement_time: path.measurement_time,
            arrival_time: message.arrival_time,
            frame_id: path.frame_id,
            points: planned_points(&path.points),
        },
    )
}

/// The planned path of a session.
#[derive(Clone, Debug)]
pub struct PathController {
    stream: Option<StreamId>,
    state: BevState,
    decoded: u64,
    errors: u64,
}

/// What a controller holds.
pub struct PathControllerContent {
    pub stream: Option<StreamId>,
    pub state: BevContent,
    pub decoded: u64,
    pub errors: u64,
}

impl PathControllerContent {
    /// A new controller for the routes of a session.
    pub open spec fn fresh(routes: Seq<RouteContent>) -> Self {
        PathControllerContent {
            stream: session::stream_for(routes, DomainTarget::Path),
            state: BevContent { revision: 0, latest: None },
            decoded: 0,
            errors: 0,
        }
    }

    /// The controller once a message of its stream was decoded. One that cannot be decoded is
    /// counted and leaves what is shown.
    pub open spec fn decoded_message(self, message: RawContent) -> Self {
        match path_frame_in(message) {
            Ok(frame) => PathControllerContent {
                state: self.state.offered(frame),
                decoded: schedule::counted(self.decoded),
                ..self
            },
            Err(_) => PathControllerContent { errors: schedule::counted(self.errors), ..self },
        }
    }

    /// The controller once a message came in. A message of another stream changes nothing.
    pub open spec fn processed(self, message: RawContent) -> Self {
        if self.stream == Some(message.stream_id) {
            self.decoded_message(message)
        } else {
            self
        }
    }

    /// The controller before a restore: nothing is shown.
    pub open spec fn reset(self) -> Self {
        PathControllerContent { state: self.state.cold(), ..self }
    }

    pub open spec fn counters(self) -> ProcessingCounters {
        ProcessingCounters {
            decoded: self.decoded,
            errors: self.errors,
            unknown_streams: 0,
            dropped: 0,
        }
    }
}

impl PathController {
    pub closed spec fn content(&self) -> PathControllerContent {
        PathControllerContent {
            stream: self.stream,
            state: self.state.content(),
            decoded: self.decoded,
            errors: self.errors,
        }
    }

    /// A seek shows the latest path before its target.
    pub fn restore_semantics() -> (semantics: RestoreSemantics)
        ensures
            semantics == RestoreSemantics::LatestBefore,
    {
        RestoreSemantics::LatestBefore
    }

    pub fn new(plan: &SessionPlan) -> (controller: Self)
        ensures
            controller.content() == PathControllerContent::fresh(plan.content()),
    {
        PathController {
            stream: plan.stream_to(DomainTarget::Path),
            state: BevState::default(),
            decoded: 0,
            errors: 0,
        }
    }

    /// Takes a message of the stream, and shows what it holds where it can be decoded.
    pub fn process(&mut self, message: &RawMessage) -> (routed: bool)
        ensures
            routed == (old(self).content().stream == Some(message.stream_id)),
            final(self).content() == old(self).content().processed(message@),
    {
        if !is_stream(self.stream, message.stream_id) {
            return false;
        }
        let _ = self.decode_and_apply(message);
        true
    }

    /// Takes a message of the stream, which must be decodable.
    pub fn restore(&mut self, message: &RawMessage) -> (outcome: Result<bool, DecodeError>)
        ensures
            final(self).content() == old(self).content().processed(message@),
            match outcome {
                Ok(routed) => routed == (old(self).content().stream == Some(message.stream_id)) && (
                routed ==> path_frame_in(message@) is Ok),
                Err(error) => old(self).content().stream == Some(message.stream_id)
                    && path_frame_in(message@) == Err::<PathFrameContent, DecodeFault>(error@),
            },
    {
        if !is_stream(self.stream, message.stream_id) {
            return Ok(false);
        }
        self.decode_and_apply(message)?;
        Ok(true)
    }

    fn decode_and_apply(&mut self, message: &RawMessage) -> (outcome: Result<(), DecodeError>)
        ensures
            final(self).content() == old(self).content().decoded_message(message@),
            match outcome {
                Ok(_) => path_frame_in(message@) is Ok,
                Err(error) => path_frame_in(message@) == Err::<PathFrameContent, DecodeFault>(error@),
            },
    {
        match decode_path_frame(message) {
            Ok(frame) => {
                self.state.apply(frame);
                self.decoded = count_up(self.decoded);
                Ok(())
            },
            Err(error) => {
                self.errors = count_up(self.errors);
                Err(error)
            },
        }
    }

    pub fn reset_for_restore(&mut self)
        ensures
            final(self).content() == old(self).content().reset(),
    {
        self.state.cold_seek();
    }

    /// The controller that `reset_for_restore` leaves, beside this one.
    pub fn reset_copy(&self) -> (copy: Self)
        ensures
            copy.content() == self.content().reset(),
    {
        PathController {
            stream: self.stream,
            state: self.state.cold_copy(),
            decoded: self.decoded,
            errors: self.errors,
        }
    }

    pub fn state(&self) -> (state: &BevState)
        ensures
            state.content() == self.content().state,
    {
        &self.state
    }

    pub fn counters(&self) -> (counters: ProcessingCounters)
        ensures
            counters == self.content().counters(),
    {
        ProcessingCounters {
            decoded: self.decoded,
            errors: self.errors,
            unknown_streams: 0,
            dropped: 0,
        }
    }
}

/// A path is shown as it was planned: each pose is one point, in the same order. What lies left of the
/// vehicle is shown left, with a negative first coordinate, and what lies right is shown right; what
/// lies ahead is shown ahead, with a positive second coordinate. A coordinate of full single precision
/// is off by half a step at most.
#[verifier::rlimit(60)]
pub proof fn law_paths_are_shown_as_planned(
    message: RawContent,
    planned: PathMessage,
    shown: BevPathFrame,
    index: int,
)
    requires
        path::path_in(message.payload) == Ok::<PathContent, DecodeFault>(planned@),
        path_frame_in(message) == Ok::<PathFrameContent, DecodeFault>(shown@),
        0 <= index < planned.points@.len(),
    ensures
        shown.measurement_time == planned.measurement_time,
        shown.arrival_time == message.arrival_time,
        shown.frame_id@ == planned.frame_id@,
        shown.points@.len() == planned.points@.len(),
        ({
            let forward = planned.points@[index]@[0];
            let left = planned.points@[index]@[1];
            let right = shown.points@[index]@[0];
            let ahead = shown.points@[index]@[1];
            &&& left.rank() >= 0 ==> right.rank() <= 0
            &&& left.rank() <= 0 ==> right.rank() >= 0
            &&& left.spec_exponent() >= 874 && left.rank() > 0 ==> right.rank() < 0
            &&& left.spec_exponent() >= 874 && left.rank() < 0 ==> right.rank() > 0
            &&& 897 <= left.spec_exponent() <= 1150 ==> within_half_a_step(
                -left.rank(),
                right.rank(),
            )
            &&& forward.rank() >= 0 ==> ahead.rank() >= 0
            &&& forward.rank() <= 0 ==> ahead.rank() <= 0
            &&& forward.spec_exponent() >= 874 && forward.rank() > 0 ==> ahead.rank() > 0
            &&& forward.spec_exponent() >= 874 && forward.rank() < 0 ==> ahead.rank() < 0
            &&& 897 <= forward.spec_exponent() <= 1150 ==> within_half_a_step(
                forward.rank(),
                ahead.rank(),
            )
        }),
{
    path::law_path_points_are_finite(message.payload);
    let point = planned.points@[index];
    assert(path::path_in(message.payload)->Ok_0.points[index] == point);
    assert(point@[0].spec_finite() && point@[1].spec_finite());
    assert(shown.points@[index] == planned_point(point));
    float::law_narrowing_keeps_the_number(point@[0]);
    float::law_narrowing_keeps_the_number(point@[1]);
}

/// Of a number in double precision and one in single precision, by their ranks: they differ by half
/// the step of the second at most.
pub open spec fn within_half_a_step(exact: int, narrow: int) -> bool {
    let near = if narrow >= 0 {
        narrow * 0x2000_0000 + 896 * 0x10_0000_0000_0000
    } else {
        narrow * 0x2000_0000 - 896 * 0x10_0000_0000_0000
    };
    -0x2000_0000 <= 2 * (exact - near) <= 0x2000_0000
}

} // verus!

//! Laser scans: decoding into point clouds and restoring.

use crate::feature::controllers::counters::ProcessingCounters;
use crate::feature::point_cloud::{
    CloudContent, CloudsContent, PointCloudFrame, PointCloudState, ScanReturn,
};
use crate::message::cdr::laser_scan::{self, decode_laser_scan, LaserScan, ScanContent};
use crate::message::float::F32;
use crate::message::payload::as_slice;
use crate::feature::schedule::{self, count_up};
use crate::message::cdr::common::{DecodeError, DecodeFault};
use crate::recording::raw::{is_stream, RawContent, RawMessage, StreamId};
use crate::recording::restore::RestoreSemantics;
use crate::recording::session::{self, DomainTarget, RouteContent, SessionPlan};
use vstd::prelude::*;

verus! {

/// The range is a number within the sensor's limits.
pub open spec fn usable_range(range: F32, range_min: F32, range_max: F32) -> bool {
    range.spec_finite() && range_min.rank() <= range.rank() <= range_max.rank()
}

/// The usable ones of the first `count` ranges, with their beams.
pub open spec fn usable_echoes(
    ranges: Seq<F32>,
    range_min: F32,
    range_max: F32,
    count: int,
) -> Seq<ScanReturn>
    decreases count,
{
    if count <= 0 {
        Seq::empty()
    } else if usable_range(ranges[count - 1], range_min, range_max) {
        usable_echoes(ranges, range_min, range_max, count - 1).push(
            ScanReturn { beam: (count - 1) as usize, range: ranges[count - 1] },
        )
    } else {
        usable_echoes(ranges, range_min, range_max, count - 1)
    }
}

/// The scan frame that a message holds.
pub open spec fn cloud_in(message: RawContent) -> Result<CloudContent, DecodeFault> {
    match laser_scan::scan_in(message.payload) {
        Err(fault) => Err(fault),
        Ok(scan) => Ok(
            CloudContent {
                measurement_time: scan.measurement_time,
                arrival_time: message.arrival_time,
                frame_id: scan.frame_id,
                angle_min: scan.angle_min,
                angle_increment: scan.angle_increment,
                echoes: usable_echoes(
                    scan.ranges,
                    scan.range_min,
                    scan.range_max,
                    scan.ranges.len() as int,
                ),
            },
        ),
    }
}

fn echoes_of(ranges: &Vec<F32>, range_min: F32, range_max: F32) -> (echoes: Vec<ScanReturn>)
    requires
        range_min.spec_finite(),
        range_max.spec_finite(),
    ensures
        echoes@ == usable_echoes(ranges@, range_min, range_max, ranges@.len() as int),
{
    let mut echoes: Vec<ScanReturn> = Vec::with_capacity(ranges.len());
    let mut beam: usize = 0;
    while beam < ranges.len()
        invariant
            beam <= ranges@.len(),
            range_min.spec_finite(),
            range_max.spec_finite(),
            echoes@ == usable_echoes(ranges@, range_min, range_max, beam as int),
        decreases ranges@.len() - beam,
    {
        let range: F32 = ranges[beam];
        if range.is_finite() && !range.less_than(range_min) && !range_max.less_than(range) {
            echoes.push(ScanReturn { beam, range });
        }
        beam = beam + 1;
    }
    echoes
}

/// Decodes a laser scan message.
pub fn decode_cloud(message: &RawMessage) -> (outcome: Result<PointCloudFrame, DecodeError>)
    ensures
        match outcome {
            Ok(frame) => cloud_in(message@) == Ok::<CloudContent, DecodeFault>(frame@),
            Err(error) => cloud_in(message@) == Err::<CloudContent, DecodeFault>(error@),
        },
{
    let scan = decode_laser_scan(as_slice(&message.payload))?;
    Ok(
        PointCloudFrame {
            measurement_time: scan.measurement_time,
            arrival_time: message.arrival_time,
            frame_id: scan.frame_id,
            angle_min: scan.angle_min,
            angle_increment: scan.angle_increment,
            echoes: echoes_of(&scan.ranges, scan.range_min, scan.range_max),
        },
    )
}

/// The laser scans of a session.
#[derive(Clone, Debug)]
pub struct SceneController {
    stream: Option<StreamId>,
    point_cloud: PointCloudState,
    decoded: u64,
    errors: u64,
}

/// What a controller holds.
pub struct SceneControllerContent {
    pub stream: Option<StreamId>,
    pub state: CloudsContent,
    pub decoded: u64,
    pub errors: u64,
}

impl SceneControllerContent {
    /// A new controller for the routes of a session.
    pub open spec fn fresh(routes: Seq<RouteContent>) -> Self {
        SceneControllerContent {
            stream: session::stream_for(routes, DomainTarget::PointCloud),
            state: CloudsContent { revision: 0, latest: None },
            decoded: 0,
            errors: 0,
        }
    }

    /// The controller once a message of its stream was decoded. One that cannot be decoded is
    /// counted and leaves what is shown.
    pub open spec fn decoded_message(self, message: RawContent) -> Self {
        match cloud_in(message) {
            Ok(frame) => SceneControllerContent {
                state: self.state.offered(frame),
                decoded: schedule::counted(self.decoded),
                ..self
            },
            Err(_) => SceneControllerContent { errors: schedule::counted(self.errors), ..self },
        }
    }

    /// The controller once a message came in. A message of another stream changes nothing.
    pub open spec fn processed(self, message: RawContent) -> Self {
        if self.stream == Some(message.stream_id) {
            self.decoded_message(message)
        } else {
            self
        }
    }

    /// The controller before a restore: nothing is shown.
    pub open spec fn reset(self) -> Self {
        SceneControllerContent { state: self.state.cold(), ..self }
    }

    pub open spec fn counters(self) -> ProcessingCounters {
        ProcessingCounters {
            decoded: self.decoded,
            errors: self.errors,
            unknown_streams: 0,
            dropped: 0,
        }
    }
}

impl SceneController {
    pub closed spec fn content(&self) -> SceneControllerContent {
        SceneControllerContent {
            stream: self.stream,
            state: self.point_cloud.content(),
            decoded: self.decoded,
            errors: self.errors,
        }
    }

    /// A seek shows the latest scan before its target.
    pub fn restore_semantics() -> (semantics: RestoreSemantics)
        ensures
            semantics == RestoreSemantics::LatestBefore,
    {
        RestoreSemantics::LatestBefore
    }

    pub fn new(plan: &SessionPlan) -> (controller: Self)
        ensures
            controller.content() == SceneControllerContent::fresh(plan.content()),
    {
        SceneController {
            stream: plan.stream_to(DomainTarget::PointCloud),
            point_cloud: PointCloudState::default(),
            decoded: 0,
            errors: 0,
        }
    }

    /// Takes a message of the stream, and shows what it holds where it can be decoded.
    pub fn process(&mut self, message: &RawMessage) -> (routed: bool)
        ensures
            routed == (old(self).content().stream == Some(message.stream_id)),
            final(self).content() == old(self).content().processed(message@),
    {
        if !is_stream(self.stream, message.stream_id) {
            return false;
        }
        let _ = self.decode_and_apply(message);
        true
    }

    /// Takes a message of the stream, which must be decodable.
    pub fn restore(&mut self, message: &RawMessage) -> (outcome: Result<bool, DecodeError>)
        ensures
            final(self).content() == old(self).content().processed(message@),
            match outcome {
                Ok(routed) => routed == (old(self).content().stream == Some(message.stream_id)) && (
                routed ==> cloud_in(message@) is Ok),
                Err(error) => old(self).content().stream == Some(message.stream_id)
                    && cloud_in(message@) == Err::<CloudContent, DecodeFault>(error@),
            },
    {
        if !is_stream(self.stream, message.stream_id) {
            return Ok(false);
        }
        self.decode_and_apply(message)?;
        Ok(true)
    }

    fn decode_and_apply(&mut self, message: &RawMessage) -> (outcome: Result<(), DecodeError>)
        ensures
            final(self).content() == old(self).content().decoded_message(message@),
            match outcome {
                Ok(_) => cloud_in(message@) is Ok,
                Err(error) => cloud_in(message@) == Err::<CloudContent, DecodeFault>(error@),
            },
    {
        match decode_cloud(message) {
            Ok(frame) => {
                self.point_cloud.apply(frame);
                self.decoded = count_up(self.decoded);
                Ok(())
            },
            Err(error) => {
                self.errors = count_up(self.errors);
                Err(error)
            },
        }
    }

    pub fn reset_for_restore(&mut self)
        ensures
            final(self).content() == old(self).content().reset(),
    {
        self.point_cloud.cold_seek();
    }

    /// The controller that `reset_for_restore` leaves, beside this one.
    pub fn reset_copy(&self) -> (copy: Self)
        ensures
            copy.content() == self.content().reset(),
    {
        SceneController {
            stream: self.stream,
            point_cloud: self.point_cloud.cold_copy(),
            decoded: self.decoded,
            errors: self.errors,
        }
    }

    pub fn point_cloud(&self) -> (state: &PointCloudState)
        ensures
            state.content() == self.content().state,
    {
        &self.point_cloud
    }

    pub fn counters(&self) -> (counters: ProcessingCounters)
        ensures
            counters == self.content().counters(),
    {
        ProcessingCounters {
            decoded: self.decoded,
            errors: self.errors,
            unknown_streams: 0,
            dropped: 0,
        }
    }
}

#[verifier::rlimit(60)]
proof fn lemma_echoes(ranges: Seq<F32>, range_min: F32, range_max: F32, count: int)
    requires
        0 <= count <= ranges.len() <= usize::MAX,
    ensures
        ({
            let echoes = usable_echoes(ranges, range_min, range_max, count);
            &&& forall|i: int|
                0 <= i < echoes.len() ==> (#[trigger] echoes[i]).beam < count && echoes[i].range
                    == ranges[echoes[i].beam as int] && usable_range(
                    echoes[i].range,
                    range_min,
                    range_max,
                )
            &&& forall|i: int, j: int|
                0 <= i < j < echoes.len() ==> (#[trigger] echoes[i]).beam < (
                #[trigger] echoes[j]).beam
            &&& forall|beam: int|
                0 <= beam < count && usable_range(#[trigger] ranges[beam], range_min, range_max)
                    ==> exists|i: int|
                    0 <= i < echoes.len() && (#[trigger] echoes[i]).beam == beam
        }),
    decreases count,
{
    if count > 0 {
        let front = usable_echoes(ranges, range_min, range_max, count - 1);
        let echoes = usable_echoes(ranges, range_min, range_max, count);
        lemma_echoes(ranges, range_min, range_max, count - 1);
        assert forall|beam: int|
            0 <= beam < count && usable_range(
                #[trigger] ranges[beam],
                range_min,
                range_max,
            ) implies exists|i: int| 0 <= i < echoes.len() && (#[trigger] echoes[i]).beam == beam by {
            if beam < count - 1 {
                let i = choose|i: int| 0 <= i < front.len() && (#[trigger] front[i]).beam == beam;
                assert(echoes[i].beam == beam);
            } else {
                assert(echoes[echoes.len() - 1].beam == beam);
            }
        }
    }
}

/// A scan is shown as it was measured: with its angles, and with a return for each beam whose range
/// is a number from the least to the greatest one that the sensor can measure, in the order of the
/// beams, and none for any other beam.
#[verifier::rlimit(60)]
pub proof fn law_scans_are_shown_as_measured(
    message: RawContent,
    scan: LaserScan,
    frame: PointCloudFrame,
)
    requires
        laser_scan::scan_in(message.payload) == Ok::<ScanContent, DecodeFault>(scan@),
    ensures
        cloud_in(message) is Ok,
        cloud_in(message)->Ok_0 == frame@ ==> {
            &&& frame.measurement_time == scan.measurement_time
            &&& frame.arrival_time == message.arrival_time
            &&& frame.frame_id@ == scan.frame_id@
            &&& frame.angle_min == scan.angle_min
            &&& frame.angle_increment == scan.angle_increment
            &&& forall|i: int|
                0 <= i < frame.echoes@.len() ==> {
                    let echo = #[trigger] frame.echoes@[i];
                    &&& echo.beam < scan.ranges@.len()
                    &&& echo.range == scan.ranges@[echo.beam as int]
                    &&& echo.range.spec_finite()
                    &&& scan.range_min.rank() <= echo.range.rank() <= scan.range_max.rank()
                }
            &&& forall|i: int, j: int|
                0 <= i < j < frame.echoes@.len() ==> (#[trigger] frame.echoes@[i]).beam < (
                #[trigger] frame.echoes@[j]).beam
            &&& forall|beam: int|
                0 <= beam < scan.ranges@.len() && (#[trigger] scan.ranges@[beam]).spec_finite()
                    && scan.range_min.rank() <= scan.ranges@[beam].rank() <= scan.range_max.rank()
                    ==> exists|i: int|
                    0 <= i < frame.echoes@.len() && (#[trigger] frame.echoes@[i]).beam == beam
        },
{
    if cloud_in(message)->Ok_0 == frame@ {
        assert(scan.ranges.len() <= usize::MAX);
        lemma_echoes(
            scan.ranges@,
            scan.range_min,
            scan.range_max,
            scan.ranges@.len() as int,
        );
    }
}

} // verus!

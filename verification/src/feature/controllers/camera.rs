//! Camera frames: admission by schedule, decoding and restoring.

use crate::feature::camera::{self, CameraFrame, CameraId, CameraState, CamerasContent, FrameContent};
use crate::feature::controllers::counters::ProcessingCounters;
use crate::feature::id_map::{self, IdMap};
use crate::feature::schedule::{self, count_up, CameraSchedule, ScheduleContent};
use crate::message::cdr::common::{DecodeError, DecodeFault};
use crate::message::cdr::image::{
    self, decode_compressed_image_bytes, DecodedCompressedImage, ImageContent,
};
use crate::message::payload;
use crate::playback::clock::{self, nanos};
use crate::recording::raw::{RawContent, RawMessage, StreamId};
use crate::recording::restore::RestoreSemantics;
use crate::recording::session::{
    self, camera_ids, copy_topics, DomainRoute, DomainTarget, RouteContent, SessionPlan,
};
use std::time::Duration;
use vstd::prelude::*;

verus! {

/// The cameras of the streams that lead to one. A later route of a stream takes the place of an
/// earlier one.
pub open spec fn camera_streams(routes: Seq<RouteContent>) -> Seq<(i64, CameraId)>
    decreases routes.len(),
{
    if routes.len() == 0 {
        Seq::empty()
    } else {
        match routes.last().target {
            DomainTarget::Camera(camera) => id_map::inserted(
                camera_streams(routes.drop_last()),
                routes.last().stream.id.0 as i64,
                camera,
            ),
            _ => camera_streams(routes.drop_last()),
        }
    }
}

/// The frame that a camera message holds.
pub open spec fn frame_in(camera: CameraId, message: RawContent) -> Result<
    FrameContent,
    DecodeFault,
> {
    match image::image_in(message.payload) {
        Err(fault) => Err(fault),
        Ok(image) => Ok(
            FrameContent {
                camera_id: camera,
                measurement_time: image.measurement_time,
                arrival_time: message.arrival_time,
                frame_id: image.frame_id,
                jpeg: image.jpeg,
            },
        ),
    }
}

/// Decodes a camera message, sharing the payload's allocation.
pub fn decode_frame(camera: CameraId, message: RawMessage) -> (outcome: Result<
    CameraFrame,
    DecodeError,
>)
    ensures
        match outcome {
            Ok(frame) => frame_in(camera, message@) == Ok::<FrameContent, DecodeFault>(frame@),
            Err(error) => frame_in(camera, message@) == Err::<FrameContent, DecodeFault>(error@),
        },
{
    let image = decode_compressed_image_bytes(message.payload)?;
    Ok(
        CameraFrame {
            camera_id: camera,
            measurement_time: image.measurement_time,
            arrival_time: message.arrival_time,
            frame_id: image.frame_id,
            jpeg: image.jpeg,
        },
    )
}

/// Shared camera capability used by all camera panels for one session.
///
/// Admission and coalescing happen on serialized messages. JPEG decoding remains a presentation
/// concern, and the retained JPEG is a slice of the admitted payload.
#[derive(Clone, Debug)]
pub struct CameraController {
    streams: IdMap<CameraId>,
    topics: Vec<(CameraId, String)>,
    schedule: CameraSchedule,
    state: CameraState,
    decoded: u64,
    errors: u64,
}

/// What a camera controller holds.
pub struct CameraControllerContent {
    pub streams: Seq<(i64, CameraId)>,
    pub topics: Seq<(CameraId, Seq<char>)>,
    pub schedule: ScheduleContent,
    pub state: CamerasContent,
    pub decoded: u64,
    pub errors: u64,
}

impl CameraControllerContent {
    /// A new controller for the routes of a session.
    pub open spec fn fresh(routes: Seq<RouteContent>, focused: Option<CameraId>) -> Self {
        let topics = session::cameras_in(routes);
        let cameras = topics.map_values(|topic: (CameraId, Seq<char>)| topic.0);
        CameraControllerContent {
            streams: camera_streams(routes),
            topics,
            schedule: ScheduleContent {
                cameras,
                focused,
                elapsed: 0,
                next: schedule::fresh_turns(cameras, focused),
                pending: Seq::empty(),
                dropped: 0,
                input_frames: 0,
                presented_frames: 0,
                presented_by_id: Seq::empty(),
            },
            state: CamerasContent { latest: Seq::empty(), status: Seq::empty() },
            decoded: 0,
            errors: 0,
        }
    }

    /// The camera that a stream leads to.
    pub open spec fn camera(self, stream: StreamId) -> Option<CameraId> {
        id_map::lookup(self.streams, stream.0 as i64)
    }

    /// The controller once a message of a camera was decoded. One that cannot be decoded is
    /// counted and shows nothing.
    pub open spec fn decoded_message(self, camera: CameraId, message: RawContent) -> Self {
        match frame_in(camera, message) {
            Ok(frame) => CameraControllerContent {
                state: camera::with_frame(self.state, frame),
                decoded: schedule::counted(self.decoded),
                ..self
            },
            Err(_) => CameraControllerContent { errors: schedule::counted(self.errors), ..self },
        }
    }

    /// The controller once the first `count` of some due messages were decoded.
    pub open spec fn decoded_messages(self, due: Seq<(i64, RawContent)>, count: int) -> Self
        decreases count,
    {
        if count <= 0 {
            self
        } else {
            self.decoded_messages(due, count - 1).decoded_message(
                CameraId(due[count - 1].0 as u16),
                due[count - 1].1,
            )
        }
    }

    /// The controller once a message was routed. Only a camera's message is admitted.
    pub open spec fn admitted(self, message: RawContent) -> Self {
        match self.camera(message.stream_id) {
            Some(camera) => CameraControllerContent {
                schedule: self.schedule.admitted(camera, message),
                ..self
            },
            None => self,
        }
    }

    /// The controller once time passed: every due message is decoded.
    pub open spec fn advanced(self, step: u128) -> Self {
        let due = self.schedule.waited(step).due_messages();
        CameraControllerContent {
            schedule: self.schedule.advanced(step),
            ..self
        }.decoded_messages(due, due.len() as int)
    }

    /// The controller once a message was shown without waiting.
    pub open spec fn restored(self, camera: CameraId, message: RawContent) -> Self {
        let decoded = self.decoded_message(camera, message);
        CameraControllerContent {
            schedule: ScheduleContent {
                input_frames: schedule::counted(self.schedule.input_frames),
                ..self.schedule
            }.noted(camera.0 as i64),
            ..decoded
        }
    }

    /// The controller once a message could not be shown.
    pub open spec fn refused(self) -> Self {
        CameraControllerContent {
            schedule: ScheduleContent {
                input_frames: schedule::counted(self.schedule.input_frames),
                ..self.schedule
            },
            errors: schedule::counted(self.errors),
            ..self
        }
    }

    /// The controller before a restore: nothing is shown and nothing waits.
    pub open spec fn reset(self) -> Self {
        CameraControllerContent {
            schedule: self.schedule.restarted(),
            state: camera::cold(self.state),
            ..self
        }
    }

    pub open spec fn counters(self) -> ProcessingCounters {
        ProcessingCounters {
            decoded: self.decoded,
            errors: self.errors,
            unknown_streams: 0,
            dropped: self.schedule.dropped,
        }
    }
}

pub fn route_streams(routes: &[DomainRoute]) -> (streams: IdMap<CameraId>)
    ensures
        streams.well_formed(),
        streams.entries() == camera_streams(session::route_contents(routes@)),
{
    let ghost all = session::route_contents(routes@);
    let mut streams: IdMap<CameraId> = IdMap::new();
    let mut index: usize = 0;
    assert(all.take(0) =~= Seq::<RouteContent>::empty());
    while index < routes.len()
        invariant
            index <= routes@.len(),
            all == session::route_contents(routes@),
            streams.well_formed(),
            streams.entries() == camera_streams(all.take(index as int)),
        decreases routes@.len() - index,
    {
        proof {
            assert(all[index as int] == routes@[index as int]@);
            assert(all.take(index + 1).drop_last() =~= all.take(index as int));
            assert(all.take(index + 1).last() == all[index as int]);
        }
        if let DomainTarget::Camera(camera) = routes[index].target {
            streams.insert(routes[index].stream.id.0 as i64, camera);
        }
        index = index + 1;
    }
    assert(all.take(all.len() as int) =~= all);
    streams
}

fn copy_streams(streams: &IdMap<CameraId>) -> (copy: IdMap<CameraId>)
    requires
        streams.well_formed(),
    ensures
        copy.well_formed(),
        copy.entries() == streams.entries(),
{
    let mut copy: IdMap<CameraId> = IdMap::new();
    let ghost all = streams.entries();
    let mut index: usize = 0;
    assert(copy.entries() =~= all.take(0));
    while index < streams.len()
        invariant
            index <= all.len(),
            all == streams.entries(),
            id_map::ascending(all),
            copy.well_formed(),
            copy.entries() == all.take(index as int),
        decreases all.len() - index,
    {
        let key: i64 = streams.key_at(index);
        let camera: CameraId = *streams.value_at(index);
        proof {
            assert forall|i: int| 0 <= i < copy.entries().len() implies (
            #[trigger] copy.entries()[i]).0 < key by {
                assert(all[i].0 < all[index as int].0);
            }
        }
        copy.push(key, camera);
        index = index + 1;
        assert(copy.entries() =~= all.take(index as int));
    }
    assert(all.take(all.len() as int) =~= all);
    copy
}

impl CameraController {
    pub closed spec fn content(&self) -> CameraControllerContent {
        CameraControllerContent {
            streams: self.streams.entries(),
            topics: session::topic_contents(self.topics@),
            schedule: self.schedule.content(),
            state: self.state.content(),
            decoded: self.decoded,
            errors: self.errors,
        }
    }

    pub closed spec fn well_formed(&self) -> bool {
        self.streams.well_formed() && self.schedule.well_formed() && self.state.well_formed()
    }

    /// A seek shows the latest image before its target.
    pub fn restore_semantics() -> (semantics: RestoreSemantics)
        ensures
            semantics == RestoreSemantics::LatestBefore,
    {
        RestoreSemantics::LatestBefore
    }

    pub fn new(plan: &SessionPlan) -> (controller: Self)
        ensures
            controller.well_formed(),
            controller.content() == CameraControllerContent::fresh(
                plan.content(),
                plan.spec_primary_camera(),
            ),
    {
        let topics: Vec<(CameraId, String)> = plan.camera_topics();
        let cameras: Vec<CameraId> = camera_ids(topics.as_slice());
        CameraController {
            streams: route_streams(plan.domain_routes()),
            topics,
            schedule: CameraSchedule::new(cameras, plan.primary_camera()),
            state: CameraState::default(),
            decoded: 0,
            errors: 0,
        }
    }

    fn camera_of(&self, stream: StreamId) -> (camera: Option<CameraId>)
        requires
            self.well_formed(),
        ensures
            camera == self.content().camera(stream),
    {
        match self.streams.get(stream.0 as i64) {
            Some(camera) => Some(*camera),
            None => None,
        }
    }

    /// Routes and coalesces a serialized camera message without decoding it.
    pub fn admit_message(&mut self, message: &RawMessage) -> (routed: bool)
        requires
            old(self).well_formed(),
        ensures
            final(self).well_formed(),
            routed == (old(self).content().camera(message.stream_id) is Some),
            final(self).content() == old(self).content().admitted(message@),
    {
        match self.camera_of(message.stream_id) {
            Some(camera) => {
                let copy: RawMessage = message.clone();
                self.schedule.admit_message(camera, copy);
                true
            },
            None => false,
        }
    }

    /// Lets time pass and decodes every message whose camera is due.
    pub fn advance(&mut self, elapsed: Duration)
        requires
            old(self).well_formed(),
        ensures
            final(self).well_formed(),
            final(self).content() == old(self).content().advanced(clock::duration_nanos(elapsed)),
    {
        self.advance_nanos(nanos(elapsed));
    }

    /// Lets so many nanoseconds pass and decodes every message whose camera is due.
    pub fn advance_nanos(&mut self, step: u128)
        requires
            old(self).well_formed(),
        ensures
            final(self).well_formed(),
            final(self).content() == old(self).content().advanced(step),
    {
        let due: Vec<(CameraId, RawMessage)> = self.schedule.advance(step);
        let ghost start = self.content();
        let ghost list = schedule::due_contents(due@);
        let mut due: Vec<(CameraId, RawMessage)> = due;
        let count: usize = due.len();
        let mut index: usize = 0;
        while index < count
            invariant
                index <= count == list.len(),
                due@.len() == count - index,
                forall|i: int|
                    0 <= i < due@.len() ==> (
                        (#[trigger] due@[i]).0.0 as i64,
                        due@[i].1@,
                    ) == list[index + i],
                self.well_formed(),
                self.content() == start.decoded_messages(list, index as int),
            decreases count - index,
        {
            let ghost rest = due@;
            let (camera, message) = due.remove(0);
            proof {
                assert(rest[0] == (camera, message));
                assert(list[index as int] == (camera.0 as i64, message@));
                assert forall|i: int| 0 <= i < due@.len() implies (
                    (#[trigger] due@[i]).0.0 as i64,
                    due@[i].1@,
                ) == list[index + 1 + i] by {
                    assert(due@[i] == rest[i + 1]);
                }
            }
            let _ = self.decode_and_apply(camera, message);
            index = index + 1;
        }
    }

    fn decode_and_apply(&mut self, camera: CameraId, message: RawMessage) -> (outcome: Result<
        (),
        DecodeError,
    >)
        requires
            old(self).well_formed(),
        ensures
            final(self).well_formed(),
            final(self).content() == old(self).content().decoded_message(camera, message@),
            match outcome {
                Ok(_) => frame_in(camera, message@) is Ok,
                Err(error) => frame_in(camera, message@) == Err::<FrameContent, DecodeFault>(
                    error@,
                ),
            },
    {
        match decode_frame(camera, message) {
            Ok(frame) => {
                self.state.apply(frame);
                self.decoded = count_up(self.decoded);
                Ok(())
            },
            Err(error) => {
                self.errors = count_up(self.errors);
                Err(error)
            },
        }
    }

    /// Applies one exact seek predecessor immediately, bypassing playback rate scheduling.
    ///
    /// Unlike forward admission, restore is strict: a routed malformed predecessor is an error,
    /// so that a staged runtime can be discarded as a whole.
    pub fn restore(&mut self, message: &RawMessage) -> (outcome: Result<bool, DecodeError>)
        requires
            old(self).well_formed(),
        ensures
            final(self).well_formed(),
            match old(self).content().camera(message.stream_id) {
                None => outcome == Ok::<bool, DecodeError>(false) && final(self).content()
                    == old(self).content(),
                Some(camera) => match outcome {
                    Ok(routed) => routed && frame_in(camera, message@) is Ok && final(
                        self
                    ).content() == old(self).content().restored(camera, message@),
                    Err(error) => frame_in(camera, message@) == Err::<FrameContent, DecodeFault>(
                        error@,
                    ) && final(self).content() == old(self).content().refused(),
                },
            },
    {
        match self.camera_of(message.stream_id) {
            Some(camera) => {
                let copy: RawMessage = message.clone();
                self.schedule.note_input();
                self.decode_and_apply(camera, copy)?;
                self.schedule.note_immediate(camera);
                Ok(true)
            },
            None => Ok(false),
        }
    }

    /// Forgets what is shown and what waits, before a restore.
    pub fn reset_for_restore(&mut self)
        requires
            old(self).well_formed(),
        ensures
            final(self).well_formed(),
            final(self).content() == old(self).content().reset(),
    {
        self.state.cold_seek();
        self.schedule.restart();
    }

    /// The controller that `reset_for_restore` leaves, beside this one.
    pub fn reset_copy(&self) -> (copy: Self)
        requires
            self.well_formed(),
        ensures
            copy.well_formed(),
            copy.content() == self.content().reset(),
    {
        CameraController {
            streams: copy_streams(&self.streams),
            topics: copy_topics(self.topics.as_slice()),
            schedule: self.schedule.restarted_copy(),
            state: self.state.cold_copy(),
            decoded: self.decoded,
            errors: self.errors,
        }
    }

    pub fn set_focused_camera(&mut self, focused_camera: Option<CameraId>)
        requires
            old(self).well_formed(),
        ensures
            final(self).well_formed(),
            final(self).content() == (CameraControllerContent {
                schedule: old(self).content().schedule.focused_on(focused_camera),
                ..old(self).content()
            }),
    {
        self.schedule.set_focused(focused_camera);
    }

    pub fn state(&self) -> (state: &CameraState)
        requires
            self.well_formed(),
        ensures
            state.well_formed(),
            state.content() == self.content().state,
    {
        &self.state
    }

    pub fn topics(&self) -> (topics: &[(CameraId, String)])
        ensures
            session::topic_contents(topics@) == self.content().topics,
    {
        self.topics.as_slice()
    }

    pub fn focused_camera(&self) -> (camera: Option<CameraId>)
        ensures
            camera == self.content().schedule.focused,
    {
        self.schedule.focused()
    }

    pub fn counters(&self) -> (counters: ProcessingCounters)
        ensures
            counters == self.content().counters(),
    {
        ProcessingCounters {
            decoded: self.decoded,
            errors: self.errors,
            unknown_streams: 0,
            dropped: self.schedule.dropped(),
        }
    }

    /// How often a second the focused camera is shown at most.
    pub fn focused_hz() -> (hertz: u64)
        ensures
            hertz as int * schedule::FOCUSED_INTERVAL_NS == 1_000_000_000,
    {
        10
    }

    /// How often a second any other camera is shown at most.
    pub fn background_hz() -> (hertz: u64)
        ensures
            hertz as int * schedule::BACKGROUND_INTERVAL_NS == 1_000_000_000,
    {
        5
    }

    pub fn input_frames(&self) -> (count: u64)
        ensures
            count == self.content().schedule.input_frames,
    {
        self.schedule.input_frames()
    }

    pub fn presented_frames(&self) -> (count: u64)
        ensures
            count == self.content().schedule.presented_frames,
    {
        self.schedule.presented_frames()
    }

    /// The cameras that were presented and how often, in ascending order.
    pub fn presented_by_id(&self) -> (counts: Vec<(CameraId, u64)>)
        requires
            self.well_formed(),
        ensures
            counts@ == self.content().schedule.presented_by_id.map_values(
                |entry: (i64, u64)| (CameraId(entry.0 as u16), entry.1),
            ),
    {
        self.schedule.presented_by_id()
    }
}

/// A camera shows the image of its message: the picture, the frame, and both times.
pub proof fn law_cameras_show_the_image(
    camera: CameraId,
    message: RawContent,
    image: DecodedCompressedImage,
    frame: CameraFrame,
)
    requires
        image::image_in(message.payload) == Ok::<ImageContent, DecodeFault>(image@),
    ensures
        frame_in(camera, message) is Ok,
        frame_in(camera, message)->Ok_0 == frame@ ==> {
            &&& frame.camera_id == camera
            &&& frame.measurement_time == image.measurement_time
            &&& frame.arrival_time == message.arrival_time
            &&& frame.frame_id@ == image.frame_id@
            &&& payload::content(frame.jpeg) == payload::content(image.jpeg)
        },
{
}

/// A stream shows on the camera of the last route that leads it to one; any other stream on none.
pub proof fn law_streams_show_on_their_camera(
    routes: Seq<RouteContent>,
    index: int,
    camera: CameraId,
    other: StreamId,
)
    requires
        0 <= index < routes.len(),
        routes[index].target == DomainTarget::Camera(camera),
        forall|i: int|
            index < i < routes.len() ==> (#[trigger] routes[i]).stream.id
                != routes[index].stream.id || !(routes[i].target is Camera),
        forall|i: int|
            0 <= i < routes.len() && (#[trigger] routes[i]).target is Camera
                ==> routes[i].stream.id != other,
    ensures
        id_map::lookup(camera_streams(routes), routes[index].stream.id.0 as i64) == Some(camera),
        id_map::lookup(camera_streams(routes), other.0 as i64) is None,
    decreases routes.len(),
{
    let front = routes.drop_last();
    let last = routes.last();
    lemma_camera_streams(routes, other);
    lemma_camera_streams(front, other);
    if index < front.len() {
        assert(front[index] == routes[index]);
        assert forall|i: int| index < i < front.len() implies (#[trigger] front[i]).stream.id
            != front[index].stream.id || !(front[i].target is Camera) by {
            assert(front[i] == routes[i]);
        }
        assert forall|i: int|
            0 <= i < front.len() && (#[trigger] front[i]).target is Camera implies front[i].stream.id
            != other by {
            assert(front[i] == routes[i]);
        }
        law_streams_show_on_their_camera(front, index, camera, other);
        assert(routes[routes.len() - 1] == last);
        if let DomainTarget::Camera(shown) = last.target {
            id_map::lemma_inserted(camera_streams(front), last.stream.id.0 as i64, shown);
        }
    } else {
        id_map::lemma_inserted(camera_streams(front), last.stream.id.0 as i64, camera);
    }
}

proof fn lemma_camera_streams(routes: Seq<RouteContent>, other: StreamId)
    requires
        forall|i: int|
            0 <= i < routes.len() && (#[trigger] routes[i]).target is Camera
                ==> routes[i].stream.id != other,
    ensures
        id_map::ascending(camera_streams(routes)),
        id_map::lookup(camera_streams(routes), other.0 as i64) is None,
    decreases routes.len(),
{
    if routes.len() > 0 {
        let front = routes.drop_last();
        assert forall|i: int|
            0 <= i < front.len() && (#[trigger] front[i]).target is Camera implies front[i].stream.id
            != other by {
            assert(front[i] == routes[i]);
        }
        lemma_camera_streams(front, other);
        assert(routes[routes.len() - 1] == routes.last());
        if let DomainTarget::Camera(shown) = routes.last().target {
            id_map::lemma_inserted(camera_streams(front), routes.last().stream.id.0 as i64, shown);
        }
    }
}

} // verus!

//! The features of a session: messages in, states out, and transactional restoring.

use crate::feature::camera::{self, CameraId};
use crate::feature::controllers::camera::{
    self as camera_controller, CameraController, CameraControllerContent,
};
use crate::feature::controllers::counters::ProcessingCounters;
use crate::feature::controllers::odometry::{
    self as odometry_controller, OdometryController, OdometryControllerContent,
};
use crate::feature::controllers::path::{
    self as path_controller, PathController, PathControllerContent,
};
use crate::feature::controllers::scene::{
    self as scene_controller, SceneController, SceneControllerContent,
};
use crate::feature::controllers::transform::{TransformController, TransformControllerContent};
use crate::feature::schedule::{self, count_up};
use crate::message::cdr::common::{DecodeError, DecodeFault};
use crate::message::cdr::transform;
use crate::message::text::{self, push_decimal, push_signed};
use crate::message::time::ArrivalTime;
use crate::playback::clock::{self, nanos};
use crate::recording::raw::{self, RawContent, RawMessage, StreamId};
use crate::recording::session::{RouteContent, SessionPlan};
use std::time::Duration;
use vstd::prelude::*;

verus! {

/// Concrete owner and transactional reducer for continuous feature state.
///
/// Signals, previews and exact range queries remain outside this type. Platform-specific source
/// access, clocks and buffering also remain with the application.
#[derive(Clone)]
pub struct FeatureRuntime {
    cameras: CameraController,
    path: PathController,
    odometry: OdometryController,
    transforms: TransformController,
    scene: Option<SceneController>,
    unknown_streams: u64,
}

/// Why a message could not be restored.
#[derive(Clone, Debug, Eq, PartialEq)]
pub enum FeatureRestoreErrorKind {
    Decode { feature: &'static str, reason: String },
    Unrouted,
}

/// A message that could not be restored.
#[derive(Clone, Debug, Eq, PartialEq)]
pub struct FeatureRestoreError {
    pub stream_id: StreamId,
    pub arrival_time: ArrivalTime,
    pub kind: FeatureRestoreErrorKind,
}

/// What a `FeatureRestoreErrorKind` says.
pub enum RestoreFaultKind {
    Decode { feature: Seq<char>, reason: Seq<char> },
    Unrouted,
}

/// What a `FeatureRestoreError` says.
pub struct RestoreFault {
    pub stream_id: StreamId,
    pub arrival_time: ArrivalTime,
    pub kind: RestoreFaultKind,
}

impl View for FeatureRestoreError {
    type V = RestoreFault;

    open spec fn view(&self) -> RestoreFault {
        RestoreFault {
            stream_id: self.stream_id,
            arrival_time: self.arrival_time,
            kind: match self.kind {
                FeatureRestoreErrorKind::Decode { feature, reason } => RestoreFaultKind::Decode {
                    feature: feature@,
                    reason: reason@,
                },
                FeatureRestoreErrorKind::Unrouted => RestoreFaultKind::Unrouted,
            },
        }
    }
}

impl FeatureRestoreError {
    /// The text that describes a fault.
    pub open spec fn spec_message(fault: RestoreFault) -> Seq<char> {
        let stream = text::decimal(fault.stream_id.0 as nat);
        let time = text::signed_decimal(fault.arrival_time.0 as int);
        match fault.kind {
            RestoreFaultKind::Decode { feature, reason } => "restore decode failed for "@ + feature
                + " stream "@ + stream + " at "@ + time + " ns: "@ + reason,
            RestoreFaultKind::Unrouted => "restore message for stream "@ + stream + " at "@ + time
                + " ns did not route to a continuous feature"@,
        }
    }

    /// The error as a sentence for the user.
    pub fn message(&self) -> (sentence: String)
        ensures
            sentence@ == Self::spec_message(self@),
    {
        match &self.kind {
            FeatureRestoreErrorKind::Decode { feature, reason } => {
                let mut sentence: String = "restore decode failed for ".to_owned();
                sentence.append(feature);
                sentence.append(" stream ");
                push_decimal(&mut sentence, self.stream_id.0 as u64);
                sentence.append(" at ");
                push_signed(&mut sentence, self.arrival_time.0);
                sentence.append(" ns: ");
                sentence.append(reason.as_str());
                sentence
            },
            FeatureRestoreErrorKind::Unrouted => {
                let mut sentence: String = "restore message for stream ".to_owned();
                push_decimal(&mut sentence, self.stream_id.0 as u64);
                sentence.append(" at ");
                push_signed(&mut sentence, self.arrival_time.0);
                sentence.append(" ns did not route to a continuous feature");
                sentence
            },
        }
    }
}

/// The fault of a message that a feature could not decode.
pub open spec fn decode_fault(
    feature: Seq<char>,
    message: RawContent,
    fault: DecodeFault,
) -> RestoreFault {
    RestoreFault {
        stream_id: message.stream_id,
        arrival_time: message.arrival_time,
        kind: RestoreFaultKind::Decode { feature, reason: DecodeError::spec_message(fault) },
    }
}

/// What a runtime holds.
pub struct RuntimeContent {
    pub cameras: CameraControllerContent,
    pub path: PathControllerContent,
    pub odometry: OdometryControllerContent,
    pub transforms: TransformControllerContent,
    pub scene: Option<SceneControllerContent>,
    pub unknown_streams: u64,
}

impl RuntimeContent {
    /// A new runtime for the routes of a session.
    pub open spec fn fresh(
        routes: Seq<RouteContent>,
        primary: Option<CameraId>,
        enable_scene: bool,
    ) -> Self {
        RuntimeContent {
            cameras: CameraControllerContent::fresh(routes, primary),
            path: PathControllerContent::fresh(routes),
            odometry: OdometryControllerContent::fresh(routes),
            transforms: TransformControllerContent::fresh(routes),
            scene: if enable_scene {
                Some(SceneControllerContent::fresh(routes))
            } else {
                None
            },
            unknown_streams: 0,
        }
    }

    /// Some feature takes the messages of the stream.
    pub open spec fn routes(self, stream: StreamId) -> bool {
        ||| self.cameras.camera(stream) is Some
        ||| self.path.stream == Some(stream)
        ||| self.odometry.stream == Some(stream)
        ||| self.transforms.kind(stream) is Some
        ||| self.scene is Some && self.scene->Some_0.stream == Some(stream)
    }

    /// The runtime once a message was played. Every feature sees it; camera images wait for their
    /// turn.
    pub open spec fn played_message(self, message: RawContent) -> Self {
        RuntimeContent {
            cameras: self.cameras.admitted(message),
            path: self.path.processed(message),
            odometry: self.odometry.processed(message),
            transforms: self.transforms.processed(message),
            scene: match self.scene {
                Some(scene) => Some(scene.processed(message)),
                None => None,
            },
            unknown_streams: if self.routes(message.stream_id) {
                self.unknown_streams
            } else {
                schedule::counted(self.unknown_streams)
            },
        }
    }

    /// The runtime once messages were played in order.
    pub open spec fn played_messages(self, messages: Seq<RawContent>) -> Self
        decreases messages.len(),
    {
        if messages.len() == 0 {
            self
        } else {
            self.played_messages(messages.drop_last()).played_message(messages.last())
        }
    }

    /// The runtime once messages were played and time passed.
    pub open spec fn played(self, step: u128, messages: Seq<RawContent>) -> Self {
        let all = self.played_messages(messages);
        RuntimeContent { cameras: all.cameras.advanced(step), ..all }
    }

    /// The runtime before a restore: nothing is shown, and the counts stay.
    pub open spec fn reset(self) -> Self {
        RuntimeContent {
            cameras: self.cameras.reset(),
            path: self.path.reset(),
            odometry: self.odometry.reset(),
            transforms: self.transforms.reset(),
            scene: match self.scene {
                Some(scene) => Some(scene.reset()),
                None => None,
            },
            unknown_streams: self.unknown_streams,
        }
    }

    /// Why a message cannot be restored, if it cannot: the first feature that cannot decode it, or
    /// that no feature takes it.
    #[verifier::opaque]
    pub open spec fn restore_fault(self, message: RawContent) -> Option<RestoreFault> {
        let stream = message.stream_id;
        if self.cameras.camera(stream) is Some && camera_controller::frame_in(
            self.cameras.camera(stream)->Some_0,
            message,
        ) is Err {
            Some(
                decode_fault(
                    "Camera"@,
                    message,
                    camera_controller::frame_in(
                        self.cameras.camera(stream)->Some_0,
                        message,
                    )->Err_0,
                ),
            )
        } else if self.path.stream == Some(stream) && path_controller::path_frame_in(
            message,
        ) is Err {
            Some(decode_fault("Path"@, message, path_controller::path_frame_in(message)->Err_0))
        } else if self.odometry.stream == Some(stream) && odometry_controller::telemetry_in(
            message,
        ) is Err {
            Some(
                decode_fault("Odometry"@, message, odometry_controller::telemetry_in(message)->Err_0),
            )
        } else if self.transforms.kind(stream) is Some && transform::transforms_in(
            message.payload,
        ) is Err {
            Some(
                decode_fault("Transform"@, message, transform::transforms_in(message.payload)->Err_0),
            )
        } else if self.scene is Some && self.scene->Some_0.stream == Some(stream)
            && scene_controller::cloud_in(message) is Err {
            Some(decode_fault("Scene"@, message, scene_controller::cloud_in(message)->Err_0))
        } else if !self.routes(stream) {
            Some(
                RestoreFault {
                    stream_id: stream,
                    arrival_time: message.arrival_time,
                    kind: RestoreFaultKind::Unrouted,
                },
            )
        } else {
            None
        }
    }

    /// The runtime once a message was restored: every feature that takes it shows it.
    #[verifier::opaque]
    pub open spec fn restored_message(self, message: RawContent) -> Self {
        RuntimeContent {
            cameras: match self.cameras.camera(message.stream_id) {
                Some(camera) => self.cameras.restored(camera, message),
                None => self.cameras,
            },
            path: self.path.processed(message),
            odometry: self.odometry.processed(message),
            transforms: self.transforms.processed(message),
            scene: match self.scene {
                Some(scene) => Some(scene.processed(message)),
                None => None,
            },
            unknown_streams: self.unknown_streams,
        }
    }

    /// The runtime once messages were restored in order, or the first fault among them.
    pub open spec fn restored_messages(self, messages: Seq<RawContent>) -> Result<
        Self,
        RestoreFault,
    >
        decreases messages.len(),
    {
        if messages.len() == 0 {
            Ok(self)
        } else {
            match self.restored_messages(messages.drop_last()) {
                Err(fault) => Err(fault),
                Ok(earlier) => match earlier.restore_fault(messages.last()) {
                    Some(fault) => Err(fault),
                    None => Ok(earlier.restored_message(messages.last())),
                },
            }
        }
    }

    /// The runtime that shows what the messages hold and nothing else.
    pub open spec fn restored(self, messages: Seq<RawContent>) -> Result<Self, RestoreFault> {
        self.reset().restored_messages(messages)
    }

    pub open spec fn counters(self) -> ProcessingCounters {
        let continuous = ProcessingCounters {
            decoded: 0,
            errors: 0,
            unknown_streams: self.unknown_streams,
            dropped: 0,
        }.merged(self.cameras.counters()).merged(self.path.counters()).merged(
            self.odometry.counters(),
        ).merged(self.transforms.counters());
        match self.scene {
            Some(scene) => continuous.merged(scene.counters()),
            None => continuous,
        }
    }
}

/// A later message changes nothing of a restore that already failed.
proof fn lemma_fault_stays(runtime: RuntimeContent, messages: Seq<RawContent>, count: int)
    requires
        0 <= count <= messages.len(),
        runtime.restored_messages(messages.take(count)) is Err,
    ensures
        runtime.restored_messages(messages) == runtime.restored_messages(messages.take(count)),
    decreases messages.len() - count,
{
    if count < messages.len() {
        let next = messages.take(count + 1);
        assert(next.drop_last() =~= messages.take(count));
        lemma_fault_stays(runtime, messages, count + 1);
    } else {
        assert(messages.take(count) =~= messages);
    }
}

/// Names the message and the feature of a failed restore.
pub fn restore_one(
    feature: &'static str,
    message: &RawMessage,
    applied: Result<bool, DecodeError>,
) -> (outcome: Result<bool, FeatureRestoreError>)
    ensures
        match applied {
            Ok(matched) => outcome == Ok::<bool, FeatureRestoreError>(matched),
            Err(error) => outcome matches Err(failure) && failure@ == decode_fault(
                feature@,
                message@,
                error@,
            ),
        },
{
    match applied {
        Ok(matched) => Ok(matched),
        Err(error) => Err(
            FeatureRestoreError {
                stream_id: message.stream_id,
                arrival_time: message.arrival_time,
                kind: FeatureRestoreErrorKind::Decode { feature, reason: error.message() },
            },
        ),
    }
}

impl FeatureRuntime {
    pub closed spec fn content(&self) -> RuntimeContent {
        RuntimeContent {
            cameras: self.cameras.content(),
            path: self.path.content(),
            odometry: self.odometry.content(),
            transforms: self.transforms.content(),
            scene: match self.scene {
                Some(scene) => Some(scene.content()),
                None => None,
            },
            unknown_streams: self.unknown_streams,
        }
    }

    pub closed spec fn well_formed(&self) -> bool {
        self.cameras.well_formed() && self.transforms.well_formed()
    }

    pub fn new(plan: &SessionPlan, enable_scene: bool) -> (runtime: Self)
        ensures
            runtime.well_formed(),
            runtime.content() == RuntimeContent::fresh(
                plan.content(),
                plan.spec_primary_camera(),
                enable_scene,
            ),
    {
        FeatureRuntime {
            cameras: CameraController::new(plan),
            path: PathController::new(plan),
            odometry: OdometryController::new(plan),
            transforms: TransformController::new(plan),
            scene: if enable_scene {
                Some(SceneController::new(plan))
            } else {
                None
            },
            unknown_streams: 0,
        }
    }

    fn play_message(&mut self, message: &RawMessage)
        requires
            old(self).well_formed(),
        ensures
            final(self).well_formed(),
            final(self).content() == old(self).content().played_message(message@),
    {
        let camera: bool = self.cameras.admit_message(message);
        let path: bool = self.path.process(message);
        let odometry: bool = self.odometry.process(message);
        let transforms: bool = self.transforms.process(message);
        let scene: bool = match &mut self.scene {
            Some(scene) => scene.process(message),
            None => false,
        };
        if !(camera || path || odometry || transforms || scene) {
            self.unknown_streams = count_up(self.unknown_streams);
        }
    }

    /// Reduces forward messages, and lets time pass for the cameras.
    ///
    /// A routed malformed message increments that controller's error counter and leaves its prior
    /// state visible. Camera images stay serialized until they are due, and only the latest one of
    /// a camera waits.
    pub fn process_messages(&mut self, elapsed: Duration, messages: &[RawMessage])
        requires
            old(self).well_formed(),
        ensures
            final(self).well_formed(),
            final(self).content() == old(self).content().played(
                clock::duration_nanos(elapsed),
                raw::contents(messages@),
            ),
    {
        self.process_nanos(nanos(elapsed), messages);
    }

    /// Reduces forward messages, and lets so many nanoseconds pass for the cameras.
    pub fn process_nanos(&mut self, step: u128, messages: &[RawMessage])
        requires
            old(self).well_formed(),
        ensures
            final(self).well_formed(),
            final(self).content() == old(self).content().played(step, raw::contents(messages@)),
    {
        let ghost before = self.content();
        let ghost all = raw::contents(messages@);
        let mut index: usize = 0;
        assert(all.take(0) =~= Seq::empty());
        while index < messages.len()
            invariant
                index <= messages@.len(),
                all == raw::contents(messages@),
                self.well_formed(),
                self.content() == before.played_messages(all.take(index as int)),
            decreases messages@.len() - index,
        {
            self.play_message(&messages[index]);
            index = index + 1;
            assert(all.take(index as int).drop_last() =~= all.take(index - 1));
        }
        assert(all.take(all.len() as int) =~= all);
        self.cameras.advance_nanos(step);
    }

    fn restore_message(&mut self, message: &RawMessage) -> (outcome: Result<
        (),
        FeatureRestoreError,
    >)
        requires
            old(self).well_formed(),
        ensures
            match outcome {
                Ok(_) => final(self).well_formed() && old(self).content().restore_fault(
                    message@,
                ) is None && final(self).content() == old(self).content().restored_message(
                    message@,
                ),
                Err(error) => old(self).content().restore_fault(message@) == Some(error@),
            },
    {
        proof {
            reveal(RuntimeContent::restore_fault);
            reveal(RuntimeContent::restored_message);
        }
        let camera: bool = restore_one("Camera", message, self.cameras.restore(message))?;
        let path: bool = restore_one("Path", message, self.path.restore(message))?;
        let odometry: bool = restore_one("Odometry", message, self.odometry.restore(message))?;
        let transforms: bool = restore_one("Transform", message, self.transforms.restore(message))?;
        let scene: bool = match &mut self.scene {
            Some(scene) => restore_one("Scene", message, scene.restore(message))?,
            None => false,
        };
        if !(camera || path || odometry || transforms || scene) {
            return Err(
                FeatureRestoreError {
                    stream_id: message.stream_id,
                    arrival_time: message.arrival_time,
                    kind: FeatureRestoreErrorKind::Unrouted,
                },
            );
        }
        Ok(())
    }

    fn reset_copy(&self) -> (copy: Self)
        requires
            self.well_formed(),
        ensures
            copy.well_formed(),
            copy.content() == self.content().reset(),
    {
        FeatureRuntime {
            cameras: self.cameras.reset_copy(),
            path: self.path.reset_copy(),
            odometry: self.odometry.reset_copy(),
            transforms: self.transforms.reset_copy(),
            scene: match &self.scene {
                Some(scene) => Some(scene.reset_copy()),
                None => None,
            },
            unknown_streams: self.unknown_streams,
        }
    }

    /// Builds a complete seek candidate without touching this runtime.
    pub fn stage_restore(&self, _target: ArrivalTime, messages: &[RawMessage]) -> (outcome: Result<
        Self,
        FeatureRestoreError,
    >)
        requires
            self.well_formed(),
        ensures
            match outcome {
                Ok(candidate) => candidate.well_formed() && self.content().restored(
                    raw::contents(messages@),
                ) == Ok::<RuntimeContent, RestoreFault>(candidate.content()),
                Err(error) => self.content().restored(raw::contents(messages@)) == Err::<
                    RuntimeContent,
                    RestoreFault,
                >(error@),
            },
    {
        let ghost start = self.content().reset();
        let ghost all = raw::contents(messages@);
        let mut candidate: FeatureRuntime = self.reset_copy();
        let mut index: usize = 0;
        assert(all.take(0) =~= Seq::empty());
        while index < messages.len()
            invariant
                index <= messages@.len(),
                all == raw::contents(messages@),
                start == self.content().reset(),
                candidate.well_formed(),
                start.restored_messages(all.take(index as int)) == Ok::<
                    RuntimeContent,
                    RestoreFault,
                >(candidate.content()),
            decreases messages@.len() - index,
        {
            assert(all.take(index + 1).drop_last() =~= all.take(index as int));
            if let Err(error) = candidate.restore_message(&messages[index]) {
                proof {
                    lemma_fault_stays(start, all, index + 1);
                }
                return Err(error);
            }
            index = index + 1;
        }
        assert(all.take(all.len() as int) =~= all);
        Ok(candidate)
    }

    /// Puts a candidate in place of this runtime.
    pub fn commit_restore(&mut self, candidate: Self)
        ensures
            *final(self) == candidate,
    {
        *self = candidate;
    }

    /// Shows what the messages hold and nothing else, or changes nothing at all.
    pub fn restore_transactional(
        &mut self,
        target: ArrivalTime,
        messages: &[RawMessage],
    ) -> (outcome: Result<(), FeatureRestoreError>)
        requires
            old(self).well_formed(),
        ensures
            final(self).well_formed(),
            match outcome {
                Ok(_) => old(self).content().restored(raw::contents(messages@)) == Ok::<
                    RuntimeContent,
                    RestoreFault,
                >(final(self).content()),
                Err(error) => *final(self) == *old(self) && old(self).content().restored(
                    raw::contents(messages@),
                ) == Err::<RuntimeContent, RestoreFault>(error@),
            },
    {
        let candidate: FeatureRuntime = self.stage_restore(target, messages)?;
        self.commit_restore(candidate);
        Ok(())
    }

    pub fn cameras(&self) -> (cameras: &CameraController)
        requires
            self.well_formed(),
        ensures
            cameras.well_formed(),
            cameras.content() == self.content().cameras,
    {
        &self.cameras
    }

    pub fn path(&self) -> (path: &PathController)
        ensures
            path.content() == self.content().path,
    {
        &self.path
    }

    pub fn odometry(&self) -> (odometry: &OdometryController)
        ensures
            odometry.content() == self.content().odometry,
    {
        &self.odometry
    }

    pub fn transforms(&self) -> (transforms: &TransformController)
        requires
            self.well_formed(),
        ensures
            transforms.well_formed(),
            transforms.content() == self.content().transforms,
    {
        &self.transforms
    }

    pub fn scene(&self) -> (scene: Option<&SceneController>)
        ensures
            match scene {
                Some(scene) => self.content().scene == Some(scene.content()),
                None => self.content().scene is None,
            },
    {
        match &self.scene {
            Some(scene) => Some(scene),
            None => None,
        }
    }

    pub fn scene_mut(&mut self) -> (scene: Option<&mut SceneController>)
        requires
            old(self).well_formed(),
        ensures
            final(self).well_formed(),
            match scene {
                Some(scene) => old(self).content().scene == Some((*scene).content()) && final(
                    self
                ).content() == (RuntimeContent {
                    scene: Some((*final(scene)).content()),
                    ..old(self).content()
                }),
                None => old(self).content().scene is None && *final(self) == *old(self),
            },
    {
        match &mut self.scene {
            Some(scene) => Some(scene),
            None => None,
        }
    }

    pub fn set_scheduling_priority(&mut self, camera: Option<CameraId>)
        requires
            old(self).well_formed(),
        ensures
            final(self).well_formed(),
            final(self).content() == (RuntimeContent {
                cameras: CameraControllerContent {
                    schedule: old(self).content().cameras.schedule.focused_on(camera),
                    ..old(self).content().cameras
                },
                ..old(self).content()
            }),
    {
        self.cameras.set_focused_camera(camera);
    }

    pub fn scheduling_priority(&self) -> (camera: Option<CameraId>)
        ensures
            camera == self.content().cameras.schedule.focused,
    {
        self.cameras.focused_camera()
    }

    /// The counts of every feature together.
    pub fn counters(&self) -> (counters: ProcessingCounters)
        ensures
            counters == self.content().counters(),
    {
        let mut counters: ProcessingCounters = ProcessingCounters {
            decoded: 0,
            errors: 0,
            unknown_streams: self.unknown_streams,
            dropped: 0,
        };
        counters.merge(self.cameras.counters());
        counters.merge(self.path.counters());
        counters.merge(self.odometry.counters());
        counters.merge(self.transforms.counters());
        if let Some(scene) = &self.scene {
            counters.merge(scene.counters());
        }
        counters
    }
}

/// A restore ends in the same state whatever was shown and whatever waited before, as long as the
/// features take the same streams: only the counters remember.
pub proof fn law_restore_forgets_what_was_shown(
    first: RuntimeContent,
    second: RuntimeContent,
    messages: Seq<RawContent>,
)
    requires
        first.reset() == second.reset(),
    ensures
        first.restored(messages) == second.restored(messages),
{
}

/// A restore fails for every sequence of messages with a stream that no feature takes.
pub proof fn law_an_unknown_stream_fails_a_restore(
    runtime: RuntimeContent,
    messages: Seq<RawContent>,
    index: int,
)
    requires
        0 <= index < messages.len(),
        !runtime.routes(messages[index].stream_id),
    ensures
        runtime.restored(messages) is Err,
{
    reveal(RuntimeContent::restore_fault);
    let start = runtime.reset();
    let upto = messages.take(index + 1);
    assert(upto.drop_last() =~= messages.take(index));
    if start.restored_messages(messages.take(index)) is Ok {
        lemma_routes_stay(start, messages.take(index), messages[index].stream_id);
    }
    lemma_fault_stays(start, messages, index + 1);
}

/// Restoring messages does not change which streams the features take.
proof fn lemma_routes_stay(runtime: RuntimeContent, messages: Seq<RawContent>, stream: StreamId)
    requires
        runtime.restored_messages(messages) is Ok,
    ensures
        runtime.restored_messages(messages)->Ok_0.routes(stream) == runtime.routes(stream),
    decreases messages.len(),
{
    if messages.len() > 0 {
        reveal(RuntimeContent::restored_message);
        lemma_routes_stay(runtime, messages.drop_last(), stream);
    }
}

/// A message reaches the feature that its stream belongs to and no other, is counted once there, and
/// counts as unknown where it belongs to none.
#[verifier::rlimit(60)]
pub proof fn law_messages_reach_their_feature(runtime: RuntimeContent, message: RawContent)
    requires
        runtime.unknown_streams < u64::MAX,
        runtime.path.decoded < u64::MAX,
        runtime.path.errors < u64::MAX,
        runtime.odometry.decoded < u64::MAX,
        runtime.odometry.errors < u64::MAX,
        runtime.transforms.decoded < u64::MAX,
        runtime.transforms.errors < u64::MAX,
    ensures
        ({
            let after = runtime.played_message(message);
            let stream = Some(message.stream_id);
            &&& runtime.path.stream != stream ==> after.path == runtime.path
            &&& runtime.odometry.stream != stream ==> after.odometry == runtime.odometry
            &&& runtime.transforms.static_stream != stream && runtime.transforms.dynamic_stream
                != stream ==> after.transforms == runtime.transforms
            &&& runtime.cameras.camera(message.stream_id) is None ==> after.cameras
                == runtime.cameras
            &&& runtime.path.stream == stream ==> after.path.decoded + after.path.errors
                == runtime.path.decoded + runtime.path.errors + 1
            &&& runtime.odometry.stream == stream ==> after.odometry.decoded
                + after.odometry.errors == runtime.odometry.decoded + runtime.odometry.errors + 1
            &&& runtime.transforms.static_stream == stream ==> after.transforms.decoded
                + after.transforms.errors == runtime.transforms.decoded + runtime.transforms.errors
                + 1
            &&& runtime.routes(message.stream_id) <==> after.unknown_streams
                == runtime.unknown_streams
            &&& runtime.path.stream == stream || runtime.odometry.stream == stream
                || runtime.transforms.static_stream == stream
                || runtime.transforms.dynamic_stream == stream || runtime.cameras.camera(
                message.stream_id,
            ) is Some ==> after.unknown_streams == runtime.unknown_streams
        }),
{
}

/// What the features counted is counted once for all of them.
#[verifier::rlimit(60)]
pub proof fn law_counts_add_up(runtime: RuntimeContent)
    requires
        runtime.scene is None,
        runtime.cameras.decoded + runtime.path.decoded + runtime.odometry.decoded
            + runtime.transforms.decoded <= u64::MAX,
        runtime.cameras.errors + runtime.path.errors + runtime.odometry.errors
            + runtime.transforms.errors <= u64::MAX,
    ensures
        ({
            let counters = runtime.counters();
            &&& counters.decoded == runtime.cameras.decoded + runtime.path.decoded
                + runtime.odometry.decoded + runtime.transforms.decoded
            &&& counters.errors == runtime.cameras.errors + runtime.path.errors
                + runtime.odometry.errors + runtime.transforms.errors
            &&& counters.dropped == runtime.cameras.schedule.dropped
            &&& counters.unknown_streams == runtime.unknown_streams
        }),
{
}

} // verus!

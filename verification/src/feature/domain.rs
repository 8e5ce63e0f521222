//! Decoding of messages into updates, and the state that the updates build.

use crate::feature::bev::{self, BevContent, BevPathFrame, BevState, PathFrameContent};
use crate::feature::camera::{self, CameraFrame, CameraState, CamerasContent, FrameContent};
use crate::feature::controllers::camera::{self as camera_controller, decode_frame};
use crate::feature::controllers::odometry::{self as odometry_controller, decode_telemetry};
use crate::feature::controllers::path::{self as path_controller, decode_path_frame};
use crate::feature::controllers::scene::{self as scene_controller, decode_cloud};
use crate::feature::id_map::{self, IdMap};
use crate::feature::point_cloud::{
    CloudContent, CloudsContent, PointCloudFrame, PointCloudState,
};
use crate::feature::schedule::{self, count_up};
use crate::feature::telemetry::{
    TelemetriesContent, TelemetryContent, TelemetryFrame, TelemetryState,
};
use crate::feature::transform::{
    EdgeContent, TransformBatch, TransformRoute, TransformState, TransformsContent,
};
use crate::message::cdr::common::{DecodeError, DecodeFault};
use crate::message::cdr::transform::{self, decode_tf_message, TransformContent};
use crate::message::payload::as_slice;
use crate::message::time::ArrivalTime;
use crate::recording::raw::{RawContent, RawMessage, StreamId};
use crate::recording::session::{
    self, DomainRoute, DomainTarget, RouteContent, SessionPlan,
};
use vstd::prelude::*;
use vstd::string::*;

verus! {

/// What a message says about one domain.
#[derive(Debug)]
pub enum DomainUpdate {
    Camera(CameraFrame),
    Path(BevPathFrame),
    Telemetry(TelemetryFrame),
    PointCloud(PointCloudFrame),
    Transforms(TransformBatch),
}

/// What an update holds.
pub enum UpdateContent {
    Camera(FrameContent),
    Path(PathFrameContent),
    Telemetry(TelemetryContent),
    PointCloud(CloudContent),
    Transforms {
        arrival_time: ArrivalTime,
        is_static: bool,
        transforms: Seq<TransformContent>,
    },
}

impl View for DomainUpdate {
    type V = UpdateContent;

    open spec fn view(&self) -> UpdateContent {
        match *self {
            DomainUpdate::Camera(frame) => UpdateContent::Camera(frame@),
            DomainUpdate::Path(frame) => UpdateContent::Path(frame@),
            DomainUpdate::Telemetry(frame) => UpdateContent::Telemetry(frame@),
            DomainUpdate::PointCloud(frame) => UpdateContent::PointCloud(frame@),
            DomainUpdate::Transforms(batch) => UpdateContent::Transforms {
                arrival_time: batch.arrival_time,
                is_static: batch.is_static,
                transforms: transform::contents(batch.transforms@),
            },
        }
    }
}

/// What each update of a list holds.
pub open spec fn update_contents(updates: Seq<DomainUpdate>) -> Seq<UpdateContent> {
    updates.map_values(|update: DomainUpdate| update@)
}

/// The update that a message makes.
pub open spec fn update_in(target: DomainTarget, message: RawContent) -> Result<
    UpdateContent,
    DecodeFault,
> {
    match target {
        DomainTarget::Camera(camera) => match camera_controller::frame_in(camera, message) {
            Ok(frame) => Ok(UpdateContent::Camera(frame)),
            Err(fault) => Err(fault),
        },
        DomainTarget::Path => match path_controller::path_frame_in(message) {
            Ok(frame) => Ok(UpdateContent::Path(frame)),
            Err(fault) => Err(fault),
        },
        DomainTarget::Telemetry => match odometry_controller::telemetry_in(message) {
            Ok(frame) => Ok(UpdateContent::Telemetry(frame)),
            Err(fault) => Err(fault),
        },
        DomainTarget::PointCloud => match scene_controller::cloud_in(message) {
            Ok(frame) => Ok(UpdateContent::PointCloud(frame)),
            Err(fault) => Err(fault),
        },
        DomainTarget::Transforms { is_static } => match transform::transforms_in(message.payload) {
            Ok(transforms) => Ok(
                UpdateContent::Transforms {
                    arrival_time: message.arrival_time,
                    is_static,
                    transforms,
                },
            ),
            Err(fault) => Err(fault),
        },
    }
}

/// The update that a message makes.
pub fn decode_update(target: DomainTarget, message: RawMessage) -> (outcome: Result<
    DomainUpdate,
    DecodeError,
>)
    ensures
        match outcome {
            Ok(update) => update_in(target, message@) == Ok::<UpdateContent, DecodeFault>(update@),
            Err(error) => update_in(target, message@) == Err::<UpdateContent, DecodeFault>(error@),
        },
{
    match target {
        DomainTarget::Camera(camera) => {
            let frame: CameraFrame = decode_frame(camera, message)?;
            Ok(DomainUpdate::Camera(frame))
        },
        DomainTarget::Path => {
            let frame: BevPathFrame = decode_path_frame(&message)?;
            Ok(DomainUpdate::Path(frame))
        },
        DomainTarget::Telemetry => {
            let frame: TelemetryFrame = decode_telemetry(&message)?;
            Ok(DomainUpdate::Telemetry(frame))
        },
        DomainTarget::PointCloud => {
            let frame: PointCloudFrame = decode_cloud(&message)?;
            Ok(DomainUpdate::PointCloud(frame))
        },
        DomainTarget::Transforms { is_static } => {
            let transforms = decode_tf_message(as_slice(&message.payload))?;
            Ok(
                DomainUpdate::Transforms(
                    TransformBatch { arrival_time: message.arrival_time, is_static, transforms },
                ),
            )
        },
    }
}

/// How many messages were decoded, refused, not routed, and dropped before decoding.
#[derive(Clone, Copy, Debug, Eq, PartialEq, Structural)]
pub struct PipelineCounters {
    pub decoded: u64,
    pub errors: u64,
    pub unknown_streams: u64,
    /// Camera updates coalesced before presentation.
    pub dropped: u64,
}

impl Default for PipelineCounters {
    fn default() -> (counters: Self)
        ensures
            counters == (PipelineCounters {
                decoded: 0,
                errors: 0,
                unknown_streams: 0,
                dropped: 0,
            }),
    {
        PipelineCounters { decoded: 0, errors: 0, unknown_streams: 0, dropped: 0 }
    }
}

/// A stream that cannot become what a route says, in words.
#[derive(Debug, Eq, PartialEq)]
pub struct DomainPipelineError(String);

impl View for DomainPipelineError {
    type V = Seq<char>;

    closed spec fn view(&self) -> Seq<char> {
        self.0@
    }
}

impl DomainPipelineError {
    /// The words for a route whose stream its target does not read.
    pub open spec fn spec_message(route: RouteContent) -> Seq<char> {
        "stream "@ + route.stream.topic + " ("@ + route.stream.schema + ") cannot target "@
            + route.target.spec_description() + ": expected cdr "@
            + route.target.spec_expected_schema()
    }

    /// The words of the error.
    pub fn message(&self) -> (message: String)
        ensures
            message@ == self@,
    {
        self.0.as_str().to_owned()
    }
}

/// The first route whose stream its target does not read.
pub open spec fn first_unreadable(routes: Seq<RouteContent>) -> Option<RouteContent>
    decreases routes.len(),
{
    if routes.len() == 0 {
        None
    } else if !routes[0].target.spec_accepts(routes[0].stream) {
        Some(routes[0])
    } else {
        first_unreadable(routes.drop_first())
    }
}

/// What the messages of each stream become. The last route of a stream counts.
pub open spec fn targets_of(routes: Seq<RouteContent>) -> Seq<(i64, DomainTarget)>
    decreases routes.len(),
{
    if routes.len() == 0 {
        Seq::empty()
    } else {
        id_map::inserted(
            targets_of(routes.drop_last()),
            routes.last().stream.id.0 as i64,
            routes.last().target,
        )
    }
}

/// What a pipeline set holds.
pub struct PipelinesContent {
    pub targets: Seq<(i64, DomainTarget)>,
    pub counters: PipelineCounters,
}

impl PipelinesContent {
    pub open spec fn target(self, stream: StreamId) -> Option<DomainTarget> {
        id_map::lookup(self.targets, stream.0 as i64)
    }

    /// The set once it was handed a message: it counts what became of it.
    pub open spec fn decoded(self, message: RawContent) -> Self {
        let counters = self.counters;
        PipelinesContent {
            counters: match self.target(message.stream_id) {
                None => PipelineCounters {
                    unknown_streams: schedule::counted(counters.unknown_streams),
                    ..counters
                },
                Some(target) => if update_in(target, message) is Ok {
                    PipelineCounters { decoded: schedule::counted(counters.decoded), ..counters }
                } else {
                    PipelineCounters { errors: schedule::counted(counters.errors), ..counters }
                },
            },
            ..self
        }
    }

    /// The update that a message makes, if it makes one.
    pub open spec fn update(self, message: RawContent) -> Option<UpdateContent> {
        match self.target(message.stream_id) {
            None => None,
            Some(target) => match update_in(target, message) {
                Ok(update) => Some(update),
                Err(_) => None,
            },
        }
    }
}

/// The decoders of a session.
pub struct DomainPipelineSet {
    targets: IdMap<DomainTarget>,
    counters: PipelineCounters,
}

proof fn lemma_readable_prefix(routes: Seq<RouteContent>, count: int)
    requires
        0 <= count < routes.len(),
        forall|i: int|
            0 <= i < count ==> (#[trigger] routes[i]).target.spec_accepts(routes[i].stream),
        !routes[count].target.spec_accepts(routes[count].stream),
    ensures
        first_unreadable(routes) == Some(routes[count]),
    decreases count,
{
    if count > 0 {
        assert(routes[0].target.spec_accepts(routes[0].stream));
        let rest = routes.drop_first();
        assert forall|i: int| 0 <= i < count - 1 implies (
        #[trigger] rest[i]).target.spec_accepts(rest[i].stream) by {
            assert(rest[i] == routes[i + 1]);
        }
        lemma_readable_prefix(rest, count - 1);
    }
}

/// Where every stream can be read as its target asks, none is refused.
pub proof fn lemma_readable(routes: Seq<RouteContent>)
    requires
        forall|i: int|
            0 <= i < routes.len() ==> (#[trigger] routes[i]).target.spec_accepts(routes[i].stream),
    ensures
        first_unreadable(routes) is None,
    decreases routes.len(),
{
    if routes.len() > 0 {
        assert(routes[0].target.spec_accepts(routes[0].stream));
        let rest = routes.drop_first();
        assert forall|i: int| 0 <= i < rest.len() implies (
        #[trigger] rest[i]).target.spec_accepts(rest[i].stream) by {
            assert(rest[i] == routes[i + 1]);
        }
        lemma_readable(rest);
    }
}

impl DomainPipelineSet {
    pub closed spec fn content(&self) -> PipelinesContent {
        PipelinesContent { targets: self.targets.entries(), counters: self.counters }
    }

    pub closed spec fn well_formed(&self) -> bool {
        self.targets.well_formed()
    }

    /// The decoders for some routes. A route whose stream its target does not read is refused.
    pub fn from_routes(routes: &[DomainRoute]) -> (outcome: Result<Self, DomainPipelineError>)
        ensures
            ({
                let all = session::route_contents(routes@);
                match outcome {
                    Ok(set) => set.well_formed() && first_unreadable(all) is None && set.content()
                        == (PipelinesContent {
                        targets: targets_of(all),
                        counters: PipelineCounters {
                            decoded: 0,
                            errors: 0,
                            unknown_streams: 0,
                            dropped: 0,
                        },
                    }),
                    Err(error) => first_unreadable(all) matches Some(route) && error@
                        == DomainPipelineError::spec_message(route),
                }
            }),
    {
        let ghost all = session::route_contents(routes@);
        let mut targets: IdMap<DomainTarget> = IdMap::new();
        let mut index: usize = 0;
        assert(all.take(0) =~= Seq::empty());
        while index < routes.len()
            invariant
                index <= routes@.len(),
                all == session::route_contents(routes@),
                targets.well_formed(),
                targets.entries() == targets_of(all.take(index as int)),
                forall|i: int|
                    0 <= i < index ==> (#[trigger] all[i]).target.spec_accepts(all[i].stream),
            decreases routes@.len() - index,
        {
            let route: &DomainRoute = &routes[index];
            proof {
                assert(all[index as int] == route@);
                assert(all.take(index + 1).drop_last() =~= all.take(index as int));
            }
            if !route.target.accepts_stream(&route.stream) {
                proof {
                    lemma_readable_prefix(all, index as int);
                }
                let mut message: String = "stream ".to_owned();
                message.append(route.stream.topic.as_str());
                message.append(" (");
                message.append(route.stream.schema.as_str());
                message.append(") cannot target ");
                message.append(route.target.description().as_str());
                message.append(": expected cdr ");
                message.append(route.target.expected_schema());
                return Err(DomainPipelineError(message));
            }
            targets.insert(route.stream.id.0 as i64, route.target);
            index = index + 1;
        }
        proof {
            assert(all.take(all.len() as int) =~= all);
            lemma_readable(all);
        }
        Ok(DomainPipelineSet { targets, counters: PipelineCounters::default() })
    }

    /// The decoders for the routes of a plan, which its targets read.
    pub fn new(plan: &SessionPlan) -> (set: Self)
        requires
            first_unreadable(plan.content()) is None,
        ensures
            set.well_formed(),
            set.content() == (PipelinesContent {
                targets: targets_of(plan.content()),
                counters: PipelineCounters {
                    decoded: 0,
                    errors: 0,
                    unknown_streams: 0,
                    dropped: 0,
                },
            }),
    {
        match Self::from_routes(plan.domain_routes()) {
            Ok(set) => set,
            Err(_) => DomainPipelineSet {
                targets: IdMap::new(),
                counters: PipelineCounters::default(),
            },
        }
    }

    fn target_of(&self, stream: StreamId) -> (target: Option<DomainTarget>)
        requires
            self.well_formed(),
        ensures
            target == self.content().target(stream),
    {
        match self.targets.get(stream.0 as i64) {
            Some(target) => Some(*target),
            None => None,
        }
    }

    /// The update that a message makes. What became of the message is counted.
    pub fn decode_one(&mut self, message: RawMessage) -> (update: Option<DomainUpdate>)
        requires
            old(self).well_formed(),
        ensures
            final(self).well_formed(),
            final(self).content() == old(self).content().decoded(message@),
            match update {
                Some(update) => old(self).content().update(message@) == Some(update@),
                None => old(self).content().update(message@) is None,
            },
    {
        let target: DomainTarget = match self.target_of(message.stream_id) {
            Some(target) => target,
            None => {
                self.counters.unknown_streams = count_up(self.counters.unknown_streams);
                return None;
            },
        };
        match decode_update(target, message) {
            Ok(update) => {
                self.counters.decoded = count_up(self.counters.decoded);
                Some(update)
            },
            Err(_) => {
                self.counters.errors = count_up(self.counters.errors);
                None
            },
        }
    }

    /// Appends the update that a message makes. What became of the message is counted.
    pub fn decode(&mut self, message: RawMessage, output: &mut Vec<DomainUpdate>)
        requires
            old(self).well_formed(),
        ensures
            final(self).well_formed(),
            final(self).content() == old(self).content().decoded(message@),
            update_contents(final(output)@) == (match old(self).content().update(message@) {
                Some(update) => update_contents(old(output)@).push(update),
                None => update_contents(old(output)@),
            }),
    {
        let ghost before = output@;
        if let Some(update) = self.decode_one(message) {
            let ghost added = update@;
            output.push(update);
            assert(update_contents(output@) =~= update_contents(before).push(added));
        }
    }

    pub fn counters(&self) -> (counters: PipelineCounters)
        ensures
            counters == self.content().counters,
    {
        self.counters
    }

    /// Adds what another set counted.
    pub fn add_counters(&mut self, counters: PipelineCounters)
        requires
            old(self).well_formed(),
        ensures
            final(self).well_formed(),
            final(self).content() == old(self).content().with_counters(counters),
    {
        self.counters.decoded = self.counters.decoded.saturating_add(counters.decoded);
        self.counters.errors = self.counters.errors.saturating_add(counters.errors);
        self.counters.unknown_streams =
        self.counters.unknown_streams.saturating_add(counters.unknown_streams);
    }
}

/// The sum of two counts, up to the largest count.
pub open spec fn capped_sum(first: u64, second: u64) -> u64 {
    if first + second > u64::MAX {
        u64::MAX
    } else {
        (first + second) as u64
    }
}

impl PipelinesContent {
    /// The set with what another one counted, but for what was dropped.
    pub open spec fn with_counters(self, more: PipelineCounters) -> Self {
        PipelinesContent {
            counters: PipelineCounters {
                decoded: capped_sum(self.counters.decoded, more.decoded),
                errors: capped_sum(self.counters.errors, more.errors),
                unknown_streams: capped_sum(self.counters.unknown_streams, more.unknown_streams),
                ..self.counters
            },
            ..self
        }
    }
}

/// What a domain state holds.
pub struct DomainContent {
    pub camera: CamerasContent,
    pub bev: BevContent,
    pub telemetry: TelemetriesContent,
    pub point_cloud: CloudsContent,
    pub point_cloud_route: Option<(Seq<EdgeContent>, Seq<EdgeContent>)>,
    pub transforms: TransformsContent,
    pub tf_misses: u64,
    pub last_tf_route: Option<Seq<char>>,
}

impl DomainContent {
    /// A state without values.
    pub open spec fn empty() -> Self {
        DomainContent {
            camera: CamerasContent { latest: Seq::empty(), status: Seq::empty() },
            bev: BevContent { revision: 0, latest: None },
            telemetry: TelemetriesContent { revision: 0, latest: None },
            point_cloud: CloudsContent { revision: 0, latest: None },
            point_cloud_route: None,
            transforms: TransformsContent {
                static_edges: Map::empty(),
                dynamic_edges: Map::empty(),
                revision: 0,
            },
            tf_misses: 0,
            last_tf_route: None,
        }
    }

    /// The frame in which scans are shown: that of the vehicle's position.
    pub open spec fn anchor(self) -> Seq<char> {
        match self.telemetry.latest {
            Some(frame) => frame.frame_id,
            None => "odom"@,
        }
    }

    /// The state once a scan came in. It is anchored with the transforms of its measurement time;
    /// one that cannot be is counted and not shown.
    pub open spec fn with_scan(self, frame: CloudContent) -> Self {
        match self.transforms.route(frame.frame_id, self.anchor(), Some(frame.measurement_time)) {
            None => DomainContent { tf_misses: schedule::counted(self.tf_misses), ..self },
            Some(route) => {
                let anchored = CloudContent { frame_id: self.anchor(), ..frame };
                DomainContent {
                    point_cloud: self.point_cloud.offered(anchored),
                    point_cloud_route: if self.point_cloud.outdates(anchored) {
                        self.point_cloud_route
                    } else {
                        Some(route)
                    },
                    last_tf_route: Some(frame.frame_id + " → "@ + self.anchor()),
                    ..self
                }
            },
        }
    }

    /// The state once an update was applied.
    pub open spec fn applied(self, update: UpdateContent) -> Self {
        match update {
            UpdateContent::Camera(frame) => DomainContent {
                camera: camera::with_frame(self.camera, frame),
                ..self
            },
            UpdateContent::Path(frame) => DomainContent { bev: self.bev.offered(frame), ..self },
            UpdateContent::Telemetry(frame) => DomainContent {
                telemetry: self.telemetry.offered(frame),
                ..self
            },
            UpdateContent::PointCloud(frame) => self.with_scan(frame),
            UpdateContent::Transforms { arrival_time, is_static, transforms } => DomainContent {
                transforms: self.transforms.applied(transforms, arrival_time, is_static),
                ..self
            },
        }
    }

    /// The state once updates were applied in order.
    pub open spec fn applied_all(self, updates: Seq<UpdateContent>) -> Self
        decreases updates.len(),
    {
        if updates.len() == 0 {
            self
        } else {
            self.applied_all(updates.drop_last()).applied(updates.last())
        }
    }

    /// The state after a jump in time: only static transforms stay.
    pub open spec fn cold(self) -> Self {
        DomainContent {
            camera: camera::cold(self.camera),
            bev: self.bev.cold(),
            telemetry: self.telemetry.cold(),
            point_cloud: self.point_cloud.cold(),
            point_cloud_route: None,
            transforms: TransformsContent {
                dynamic_edges: Map::empty(),
                revision: bev::next_revision(self.transforms.revision),
                ..self.transforms
            },
            ..self
        }
    }
}

/// Current accepted values for all decoded playback domains.
#[derive(Debug)]
pub struct DomainState {
    pub camera: CameraState,
    pub bev: BevState,
    pub telemetry: TelemetryState,
    pub point_cloud: PointCloudState,
    /// How the points of the scan are brought into the frame in which it is shown.
    pub point_cloud_route: Option<TransformRoute>,
    pub transforms: TransformState,
    pub tf_misses: u64,
    pub last_tf_route: Option<String>,
}

impl Default for DomainState {
    fn default() -> (state: Self)
        ensures
            state.well_formed(),
            state.content() == DomainContent::empty(),
    {
        DomainState {
            camera: CameraState::default(),
            bev: BevState::default(),
            telemetry: TelemetryState::default(),
            point_cloud: PointCloudState::default(),
            point_cloud_route: None,
            transforms: TransformState::default(),
            tf_misses: 0,
            last_tf_route: None,
        }
    }
}

impl DomainState {
    pub open spec fn content(&self) -> DomainContent {
        DomainContent {
            camera: self.camera.content(),
            bev: self.bev.content(),
            telemetry: self.telemetry.content(),
            point_cloud: self.point_cloud.content(),
            point_cloud_route: match self.point_cloud_route {
                Some(route) => Some(route@),
                None => None,
            },
            transforms: self.transforms.content(),
            tf_misses: self.tf_misses,
            last_tf_route: match self.last_tf_route {
                Some(route) => Some(route@),
                None => None,
            },
        }
    }

    pub open spec fn well_formed(&self) -> bool {
        self.camera.well_formed() && self.transforms.well_formed()
    }

    /// Applies an update.
    pub fn apply(&mut self, update: DomainUpdate)
        requires
            old(self).well_formed(),
        ensures
            final(self).well_formed(),
            final(self).content() == old(self).content().applied(update@),
    {
        match update {
            DomainUpdate::Camera(frame) => {
                self.camera.apply(frame);
            },
            DomainUpdate::Path(frame) => {
                self.bev.apply(frame);
            },
            DomainUpdate::Telemetry(frame) => {
                self.telemetry.apply(frame);
            },
            DomainUpdate::PointCloud(frame) => {
                self.apply_point_cloud(frame);
            },
            DomainUpdate::Transforms(batch) => {
                self.transforms.apply(batch);
            },
        }
    }

    /// Applies updates in order.
    pub fn apply_all(&mut self, updates: Vec<DomainUpdate>)
        requires
            old(self).well_formed(),
        ensures
            final(self).well_formed(),
            final(self).content() == old(self).content().applied_all(update_contents(updates@)),
    {
        let ghost start = self.content();
        let ghost all = update_contents(updates@);
        let mut rest: Vec<DomainUpdate> = updates;
        let mut reversed: Vec<DomainUpdate> = Vec::with_capacity(rest.len());
        while rest.len() > 0
            invariant
                all.len() == rest@.len() + reversed@.len(),
                forall|i: int| 0 <= i < rest@.len() ==> (#[trigger] rest@[i])@ == all[i],
                forall|i: int|
                    0 <= i < reversed@.len() ==> (#[trigger] reversed@[i])@ == all[all.len() - 1
                        - i],
            decreases rest@.len(),
        {
            if let Some(update) = rest.pop() {
                reversed.push(update);
            }
        }
        assert(all.take(0) =~= Seq::empty());
        while reversed.len() > 0
            invariant
                reversed@.len() <= all.len(),
                self.well_formed(),
                self.content() == start.applied_all(all.take(all.len() - reversed@.len())),
                forall|i: int|
                    0 <= i < reversed@.len() ==> (#[trigger] reversed@[i])@ == all[all.len() - 1
                        - i],
            decreases reversed@.len(),
        {
            let ghost done = all.len() - reversed@.len();
            proof {
                assert(reversed@[reversed@.len() - 1]@ == all[done]);
                assert(all.take(done + 1).drop_last() =~= all.take(done));
            }
            if let Some(update) = reversed.pop() {
                self.apply(update);
            }
        }
        assert(all.take(all.len() as int) =~= all);
    }

    /// Forgets everything but static transforms and counts.
    pub fn cold_seek(&mut self)
        requires
            old(self).well_formed(),
        ensures
            final(self).well_formed(),
            final(self).content() == old(self).content().cold(),
    {
        self.camera.cold_seek();
        self.bev.cold_seek();
        self.telemetry.cold_seek();
        self.point_cloud.cold_seek();
        self.point_cloud_route = None;
        self.transforms.clear_dynamic();
    }

    /// The state that `cold_seek` leaves, beside this one.
    pub fn cold_copy(&self) -> (copy: Self)
        requires
            self.well_formed(),
        ensures
            copy.well_formed(),
            copy.content() == self.content().cold(),
    {
        DomainState {
            camera: self.camera.cold_copy(),
            bev: self.bev.cold_copy(),
            telemetry: self.telemetry.cold_copy(),
            point_cloud: self.point_cloud.cold_copy(),
            point_cloud_route: None,
            transforms: self.transforms.static_copy(),
            tf_misses: self.tf_misses,
            last_tf_route: match &self.last_tf_route {
                Some(route) => Some(route.as_str().to_owned()),
                None => None,
            },
        }
    }

    fn apply_point_cloud(&mut self, frame: PointCloudFrame)
        requires
            old(self).well_formed(),
        ensures
            final(self).well_formed(),
            final(self).content() == old(self).content().with_scan(frame@),
    {
        let target_frame: String = match self.telemetry.latest() {
            Some(telemetry) => telemetry.frame_id.as_str().to_owned(),
            None => "odom".to_owned(),
        };
        assert(target_frame@ == self.content().anchor());
        let route: TransformRoute = match self.transforms.resolve(
            frame.frame_id.as_str(),
            target_frame.as_str(),
            Some(frame.measurement_time),
        ) {
            Some(route) => route,
            None => {
                self.tf_misses = count_up(self.tf_misses);
                return;
            },
        };
        let mut words: String = frame.frame_id.as_str().to_owned();
        words.append(" → ");
        words.append(target_frame.as_str());
        self.last_tf_route = Some(words);
        let anchored = PointCloudFrame { frame_id: target_frame, ..frame };
        if self.point_cloud.apply(anchored) {
            self.point_cloud_route = Some(route);
        }
    }
}

/// An update changes what it is about and nothing else.
pub proof fn law_updates_change_what_they_are_about(
    state: DomainContent,
    image: FrameContent,
    path: PathFrameContent,
    telemetry: TelemetryContent,
)
    ensures
        ({
            let after = state.applied(UpdateContent::Camera(image));
            &&& after == (DomainContent { camera: after.camera, ..state })
            &&& after.camera == camera::with_frame(state.camera, image)
        }),
        ({
            let after = state.applied(UpdateContent::Path(path));
            &&& after == (DomainContent { bev: after.bev, ..state })
            &&& state.bev.latest is None ==> after.bev.latest == Some(path)
        }),
        ({
            let after = state.applied(UpdateContent::Telemetry(telemetry));
            &&& after == (DomainContent { telemetry: after.telemetry, ..state })
            &&& state.telemetry.latest is None ==> after.telemetry.latest == Some(telemetry)
        }),
{
}

/// A scan is shown in the frame of the vehicle's position, brought there by the transforms of the time
/// that it was measured; one that cannot be is not shown, and is counted.
pub proof fn law_scans_are_shown_in_the_frame_of_the_vehicle(
    state: DomainContent,
    scan: CloudContent,
    vehicle: Seq<char>,
)
    requires
        vehicle == match state.telemetry.latest {
            Some(frame) => frame.frame_id,
            None => "odom"@,
        },
        state.point_cloud.latest is None,
        state.tf_misses < u64::MAX,
    ensures
        ({
            let way = state.transforms.route(scan.frame_id, vehicle, Some(scan.measurement_time));
            let after = state.applied(UpdateContent::PointCloud(scan));
            &&& way is Some ==> {
                &&& after.point_cloud_route == way
                &&& after.tf_misses == state.tf_misses
                &&& after.point_cloud.latest matches Some(shown) && shown.frame_id == vehicle
                    && shown.echoes == scan.echoes && shown.angle_min == scan.angle_min
                    && shown.angle_increment == scan.angle_increment && shown.arrival_time
                    == scan.arrival_time
            }
            &&& way is None ==> after.point_cloud.latest is None && after.tf_misses
                == state.tf_misses + 1
        }),
{
}

/// The messages of a stream become what the last route of it leads to, and each is counted once: as
/// decoded, as an error, or as of an unknown stream.
pub proof fn law_each_message_is_counted_once(pipelines: PipelinesContent, message: RawContent)
    requires
        pipelines.counters.decoded < u64::MAX,
        pipelines.counters.errors < u64::MAX,
        pipelines.counters.unknown_streams < u64::MAX,
    ensures
        ({
            let (before, after) = (pipelines.counters, pipelines.decoded(message).counters);
            let known = id_map::lookup(pipelines.targets, message.stream_id.0 as i64);
            &&& after.decoded + after.errors + after.unknown_streams == before.decoded
                + before.errors + before.unknown_streams + 1
            &&& known is None <==> after.unknown_streams == before.unknown_streams + 1
            &&& pipelines.update(message) is Some <==> after.decoded == before.decoded + 1
            &&& after.dropped == before.dropped
        }),
{
}

/// The messages of a stream become what the last route of the stream leads to; those of a stream without
/// a route become nothing.
pub proof fn law_streams_become_what_their_route_leads_to(
    routes: Seq<RouteContent>,
    index: int,
    other: StreamId,
)
    requires
        0 <= index < routes.len(),
        forall|i: int|
            index < i < routes.len() ==> (#[trigger] routes[i]).stream.id
                != routes[index].stream.id,
        forall|i: int| 0 <= i < routes.len() ==> (#[trigger] routes[i]).stream.id != other,
    ensures
        id_map::ascending(targets_of(routes)),
        id_map::lookup(targets_of(routes), routes[index].stream.id.0 as i64) == Some(
            routes[index].target,
        ),
        id_map::lookup(targets_of(routes), other.0 as i64) is None,
    decreases routes.len(),
{
    let front = routes.drop_last();
    let last = routes.last();
    assert(routes[routes.len() - 1] == last);
    assert forall|i: int| 0 <= i < front.len() implies (#[trigger] front[i]).stream.id != other by {
        assert(front[i] == routes[i]);
    }
    if index < front.len() {
        assert(front[index] == routes[index]);
        assert forall|i: int| index < i < front.len() implies (#[trigger] front[i]).stream.id
            != front[index].stream.id by {
            assert(front[i] == routes[i]);
        }
        law_streams_become_what_their_route_leads_to(front, index, other);
    } else {
        lemma_unrouted(front, other);
    }
    id_map::lemma_inserted(targets_of(front), last.stream.id.0 as i64, last.target);
}

proof fn lemma_unrouted(routes: Seq<RouteContent>, other: StreamId)
    requires
        forall|i: int| 0 <= i < routes.len() ==> (#[trigger] routes[i]).stream.id != other,
    ensures
        id_map::ascending(targets_of(routes)),
        id_map::lookup(targets_of(routes), other.0 as i64) is None,
    decreases routes.len(),
{
    if routes.len() > 0 {
        let front = routes.drop_last();
        let last = routes.last();
        assert(routes[routes.len() - 1] == last);
        assert forall|i: int| 0 <= i < front.len() implies (#[trigger] front[i]).stream.id
            != other by {
            assert(front[i] == routes[i]);
        }
        lemma_unrouted(front, other);
        id_map::lemma_inserted(targets_of(front), last.stream.id.0 as i64, last.target);
    }
}

} // verus!

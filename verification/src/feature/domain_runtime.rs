//! Source-independent reduction of messages into the state of all domains.

use crate::feature::camera::CameraId;
use crate::feature::controllers::camera as camera_controller;
use crate::feature::domain::{
    self, DomainContent, DomainPipelineSet, DomainState, DomainUpdate, PipelineCounters,
    PipelinesContent,
};
use crate::feature::id_map::{self, IdMap};
use crate::feature::schedule::{self, CameraSchedule, ScheduleContent};
use crate::playback::clock::{self, nanos};
use crate::recording::raw::{self, lists, RawContent, RawMessage, StreamId};
use crate::recording::requirements::{
    self, BindingContent, PlaybackRequirements, SessionPlanError, WorkspaceBindings,
};
use crate::recording::session::{
    self, camera_ids, DomainRoute, DomainTarget, RouteContent, SessionPlan, SourceCatalog,
    StreamContent,
};
use std::time::Duration;
use vstd::prelude::*;

verus! {

/// What a runtime holds.
pub struct DomainRuntimeContent {
    pub routes: Seq<RouteContent>,
    pub pipelines: PipelinesContent,
    pub state: DomainContent,
    pub topics: Seq<(CameraId, Seq<char>)>,
    pub schedule: ScheduleContent,
}

/// The streams whose messages are transforms, in the order of the routes.
pub open spec fn transform_streams(routes: Seq<RouteContent>) -> Seq<StreamId>
    decreases routes.len(),
{
    if routes.len() == 0 {
        Seq::empty()
    } else if routes.last().target is Transforms {
        transform_streams(routes.drop_last()).push(routes.last().stream.id)
    } else {
        transform_streams(routes.drop_last())
    }
}

impl DomainRuntimeContent {
    /// A new runtime for some routes.
    pub open spec fn fresh(routes: Seq<RouteContent>, focused: Option<CameraId>) -> Self {
        let topics = session::cameras_in(routes);
        let cameras = topics.map_values(|topic: (CameraId, Seq<char>)| topic.0);
        DomainRuntimeContent {
            routes,
            pipelines: PipelinesContent {
                targets: domain::targets_of(routes),
                counters: PipelineCounters {
                    decoded: 0,
                    errors: 0,
                    unknown_streams: 0,
                    dropped: 0,
                },
            },
            state: DomainContent::empty(),
            topics,
            schedule: ScheduleContent {
                cameras,
                focused,
                elapsed: 0,
                next: schedule::fresh_turns(cameras, focused),
                pending: Seq::empty(),
                dropped: 0,
                input_frames: 0,
                presented_frames: 0,
                presented_by_id: Seq::empty(),
            },
        }
    }

    /// The camera that a stream leads to.
    pub open spec fn camera(self, stream: StreamId) -> Option<CameraId> {
        id_map::lookup(camera_controller::camera_streams(self.routes), stream.0 as i64)
    }

    /// The runtime once a message was decoded and its update applied.
    pub open spec fn reduced(self, message: RawContent) -> Self {
        DomainRuntimeContent {
            pipelines: self.pipelines.decoded(message),
            state: match self.pipelines.update(message) {
                Some(update) => self.state.applied(update),
                None => self.state,
            },
            ..self
        }
    }

    /// The runtime once a message came in: camera images wait, everything else is shown.
    pub open spec fn received(self, message: RawContent) -> Self {
        match self.camera(message.stream_id) {
            Some(camera) => DomainRuntimeContent {
                schedule: self.schedule.admitted(camera, message),
                ..self
            },
            None => self.reduced(message),
        }
    }

    pub open spec fn received_all(self, messages: Seq<RawContent>) -> Self
        decreases messages.len(),
    {
        if messages.len() == 0 {
            self
        } else {
            self.received_all(messages.drop_last()).received(messages.last())
        }
    }

    /// The runtime once the first `count` of some due images were shown.
    pub open spec fn shown(self, due: Seq<(i64, RawContent)>, count: int) -> Self
        decreases count,
    {
        if count <= 0 {
            self
        } else {
            self.shown(due, count - 1).reduced(due[count - 1].1)
        }
    }

    /// The runtime once messages came in and time passed.
    pub open spec fn processed(self, step: u128, messages: Seq<RawContent>) -> Self {
        let all = self.received_all(messages);
        let due = all.schedule.waited(step).due_messages();
        DomainRuntimeContent { schedule: all.schedule.advanced(step), ..all }.shown(
            due,
            due.len() as int,
        )
    }

    /// The runtime before a restore.
    pub open spec fn reset(self) -> Self {
        DomainRuntimeContent {
            state: self.state.cold(),
            schedule: self.schedule.restarted(),
            ..self
        }
    }

    /// The runtime once a message was restored, as far as it holds transforms.
    pub open spec fn transform_restored(self, message: RawContent) -> Self {
        if transform_streams(self.routes).contains(message.stream_id) {
            DomainRuntimeContent {
                pipelines: self.pipelines.decoded(message),
                state: match self.pipelines.update(message) {
                    Some(update) => if update is Transforms {
                        self.state.applied(update)
                    } else {
                        self.state
                    },
                    None => self.state,
                },
                ..self
            }
        } else {
            self
        }
    }

    pub open spec fn transforms_restored(self, messages: Seq<RawContent>) -> Self
        decreases messages.len(),
    {
        if messages.len() == 0 {
            self
        } else {
            self.transforms_restored(messages.drop_last()).transform_restored(messages.last())
        }
    }

    pub open spec fn counters(self) -> PipelineCounters {
        PipelineCounters { dropped: self.schedule.dropped, ..self.pipelines.counters }
    }

    /// A runtime beside this one that shows nothing and has counted nothing.
    pub open spec fn staging(self) -> Self {
        let clean = Self::fresh(self.routes, self.schedule.focused);
        DomainRuntimeContent { state: self.state.cold(), ..clean }
    }

    /// The runtime that shows what a staged one shows, with both counts.
    pub open spec fn committed(self, staged: Self) -> Self {
        DomainRuntimeContent {
            pipelines: self.pipelines.with_counters(staged.pipelines.counters),
            state: staged.state,
            schedule: self.schedule.restarted(),
            ..self
        }
    }
}

/// Source-independent reduction of admitted messages into shared world state.
pub struct DomainRuntime {
    plan: SessionPlan,
    pipelines: DomainPipelineSet,
    state: DomainState,
    transform_streams: Vec<StreamId>,
    camera_streams: IdMap<CameraId>,
    camera_topics: Vec<(CameraId, String)>,
    schedule: CameraSchedule,
}

proof fn lemma_bound_is_readable(streams: Seq<StreamContent>, topic: Seq<char>, target: DomainTarget)
    ensures
        forall|i: int|
            0 <= i < requirements::bound_route(streams, topic, target).len() ==> (
            #[trigger] requirements::bound_route(streams, topic, target)[i]).target.spec_accepts(
                requirements::bound_route(streams, topic, target)[i].stream,
            ),
{
}

proof fn lemma_cameras_are_readable(streams: Seq<StreamContent>)
    ensures
        forall|i: int|
            0 <= i < requirements::camera_routes(streams).len() ==> (
            #[trigger] requirements::camera_routes(streams)[i]).target.spec_accepts(
                requirements::camera_routes(streams)[i].stream,
            ),
    decreases streams.len(),
{
    if streams.len() > 0 {
        lemma_cameras_are_readable(streams.drop_last());
    }
}

/// Every stream of a plan can be read as what the plan makes of it.
pub proof fn law_planned_routes_are_readable(
    streams: Seq<StreamContent>,
    needs: PlaybackRequirements,
    bindings: BindingContent,
)
    ensures
        domain::first_unreadable(requirements::session_routes(streams, needs, bindings)) is None,
{
    lemma_cameras_are_readable(streams);
    lemma_bound_is_readable(streams, bindings.path_topic, DomainTarget::Path);
    lemma_bound_is_readable(streams, bindings.odometry_topic, DomainTarget::Telemetry);
    lemma_bound_is_readable(streams, bindings.point_cloud_topic, DomainTarget::PointCloud);
    lemma_bound_is_readable(
        streams,
        bindings.dynamic_tf_topic,
        DomainTarget::Transforms { is_static: false },
    );
    lemma_bound_is_readable(
        streams,
        bindings.static_tf_topic,
        DomainTarget::Transforms { is_static: true },
    );
    let routes = requirements::session_routes(streams, needs, bindings);
    assert forall|i: int| 0 <= i < routes.len() implies (
    #[trigger] routes[i]).target.spec_accepts(routes[i].stream) by {}
    domain::lemma_readable(routes);
}

fn collect_transform_streams(routes: &[DomainRoute]) -> (streams: Vec<StreamId>)
    ensures
        streams@ == transform_streams(session::route_contents(routes@)),
{
    let ghost all = session::route_contents(routes@);
    let mut streams: Vec<StreamId> = Vec::new();
    let mut index: usize = 0;
    assert(all.take(0) =~= Seq::empty());
    while index < routes.len()
        invariant
            index <= routes@.len(),
            all == session::route_contents(routes@),
            streams@ == transform_streams(all.take(index as int)),
        decreases routes@.len() - index,
    {
        proof {
            assert(all[index as int] == routes@[index as int]@);
            assert(all.take(index + 1).drop_last() =~= all.take(index as int));
        }
        if let DomainTarget::Transforms { is_static: _ } = routes[index].target {
            streams.push(routes[index].stream.id);
        }
        index = index + 1;
    }
    assert(all.take(all.len() as int) =~= all);
    streams
}

impl DomainRuntime {
    pub closed spec fn content(&self) -> DomainRuntimeContent {
        DomainRuntimeContent {
            routes: self.plan.content(),
            pipelines: self.pipelines.content(),
            state: self.state.content(),
            topics: session::topic_contents(self.camera_topics@),
            schedule: self.schedule.content(),
        }
    }

    pub closed spec fn well_formed(&self) -> bool {
        &&& domain::first_unreadable(self.plan.content()) is None
        &&& self.pipelines.well_formed()
        &&& self.state.well_formed()
        &&& self.transform_streams@ == transform_streams(self.plan.content())
        &&& self.camera_streams.well_formed()
        &&& self.camera_streams.entries() == camera_controller::camera_streams(self.plan.content())
        &&& self.schedule.well_formed()
    }

    /// A runtime for what a recording offers of what is needed.
    pub fn from_catalog(
        catalog: &SourceCatalog,
        primary_camera_topic: &str,
        needs: &PlaybackRequirements,
        bindings: &WorkspaceBindings,
    ) -> (outcome: Result<Self, SessionPlanError>)
        ensures
            match outcome {
                Ok(runtime) => {
                    let routes = requirements::session_routes(
                        catalog.content(),
                        *needs,
                        bindings@,
                    );
                    &&& runtime.well_formed()
                    &&& requirements::lack(catalog.content(), *needs, bindings@) is None
                    &&& runtime.content() == DomainRuntimeContent::fresh(
                        routes,
                        requirements::primary_of(routes, primary_camera_topic@),
                    )
                },
                Err(error) => requirements::lack(catalog.content(), *needs, bindings@) == Some(
                    error@,
                ),
            },
    {
        let plan: SessionPlan = SessionPlan::build(
            catalog,
            primary_camera_topic,
            needs,
            bindings,
        )?;
        proof {
            law_planned_routes_are_readable(catalog.content(), *needs, bindings@);
        }
        Ok(Self::new(plan))
    }

    /// A runtime for the routes of a plan, which its targets read.
    pub fn new(plan: SessionPlan) -> (runtime: Self)
        requires
            domain::first_unreadable(plan.content()) is None,
        ensures
            runtime.well_formed(),
            runtime.content() == DomainRuntimeContent::fresh(
                plan.content(),
                plan.spec_primary_camera(),
            ),
    {
        let focused: Option<CameraId> = plan.primary_camera();
        Self::focused_on(plan, focused)
    }

    fn focused_on(plan: SessionPlan, focused: Option<CameraId>) -> (runtime: Self)
        requires
            domain::first_unreadable(plan.content()) is None,
        ensures
            runtime.well_formed(),
            runtime.content() == DomainRuntimeContent::fresh(plan.content(), focused),
    {
        let camera_topics: Vec<(CameraId, String)> = plan.camera_topics();
        let cameras: Vec<CameraId> = camera_ids(camera_topics.as_slice());
        DomainRuntime {
            pipelines: DomainPipelineSet::new(&plan),
            state: DomainState::default(),
            transform_streams: collect_transform_streams(plan.domain_routes()),
            camera_streams: camera_controller::route_streams(plan.domain_routes()),
            camera_topics,
            schedule: CameraSchedule::new(cameras, focused),
            plan,
        }
    }

    fn camera_of(&self, stream: StreamId) -> (camera: Option<CameraId>)
        requires
            self.well_formed(),
        ensures
            camera == self.content().camera(stream),
    {
        match self.camera_streams.get(stream.0 as i64) {
            Some(camera) => Some(*camera),
            None => None,
        }
    }

    fn reduce(&mut self, message: RawMessage)
        requires
            old(self).well_formed(),
        ensures
            final(self).well_formed(),
            final(self).content() == old(self).content().reduced(message@),
    {
        if let Some(update) = self.pipelines.decode_one(message) {
            self.state.apply(update);
        }
    }

    fn receive(&mut self, message: &RawMessage)
        requires
            old(self).well_formed(),
        ensures
            final(self).well_formed(),
            final(self).content() == old(self).content().received(message@),
    {
        let copy: RawMessage = message.clone();
        match self.camera_of(message.stream_id) {
            Some(camera) => {
                self.schedule.admit_message(camera, copy);
            },
            None => {
                self.reduce(copy);
            },
        }
    }

    /// Reduces messages, and shows the images of the cameras that are due after `elapsed`.
    pub fn process(&mut self, elapsed: Duration, messages: &[RawMessage])
        requires
            old(self).well_formed(),
        ensures
            final(self).well_formed(),
            final(self).content() == old(self).content().processed(
                clock::duration_nanos(elapsed),
                raw::contents(messages@),
            ),
    {
        self.process_nanos(nanos(elapsed), messages);
    }

    /// Reduces messages, and shows the images of the cameras that are due after so many
    /// nanoseconds.
    pub fn process_nanos(&mut self, step: u128, messages: &[RawMessage])
        requires
            old(self).well_formed(),
        ensures
            final(self).well_formed(),
            final(self).content() == old(self).content().processed(step, raw::contents(messages@)),
    {
        let ghost start = self.content();
        let ghost all = raw::contents(messages@);
        let mut index: usize = 0;
        assert(all.take(0) =~= Seq::empty());
        while index < messages.len()
            invariant
                index <= messages@.len(),
                all == raw::contents(messages@),
                self.well_formed(),
                self.content() == start.received_all(all.take(index as int)),
            decreases messages@.len() - index,
        {
            self.receive(&messages[index]);
            assert(all.take(index + 1).drop_last() =~= all.take(index as int));
            index = index + 1;
        }
        assert(all.take(all.len() as int) =~= all);
        let due: Vec<(CameraId, RawMessage)> = self.schedule.advance(step);
        self.show(due);
    }

    fn show(&mut self, due: Vec<(CameraId, RawMessage)>)
        requires
            old(self).well_formed(),
        ensures
            final(self).well_formed(),
            final(self).content() == old(self).content().shown(
                schedule::due_contents(due@),
                due@.len() as int,
            ),
    {
        let ghost start = self.content();
        let ghost all = schedule::due_contents(due@);
        let mut index: usize = 0;
        while index < due.len()
            invariant
                index <= due@.len(),
                all == schedule::due_contents(due@),
                self.well_formed(),
                self.content() == start.shown(all, index as int),
            decreases due@.len() - index,
        {
            assert(all[index as int].1 == due@[index as int].1@);
            let message: RawMessage = due[index].1.clone();
            self.reduce(message);
            index = index + 1;
        }
    }

    pub fn reset_for_restore(&mut self)
        requires
            old(self).well_formed(),
        ensures
            final(self).well_formed(),
            final(self).content() == old(self).content().reset(),
    {
        self.state.cold_seek();
        self.schedule.restart();
    }

    /// Applies the transforms among some messages.
    pub fn apply_transform_restore(&mut self, messages: &[RawMessage])
        requires
            old(self).well_formed(),
        ensures
            final(self).well_formed(),
            final(self).content() == old(self).content().transforms_restored(
                raw::contents(messages@),
            ),
    {
        let ghost start = self.content();
        let ghost all = raw::contents(messages@);
        let mut index: usize = 0;
        assert(all.take(0) =~= Seq::empty());
        while index < messages.len()
            invariant
                index <= messages@.len(),
                all == raw::contents(messages@),
                self.well_formed(),
                self.content() == start.transforms_restored(all.take(index as int)),
            decreases messages@.len() - index,
        {
            assert(all.take(index + 1).drop_last() =~= all.take(index as int));
            assert(all[index as int] == messages@[index as int]@);
            if lists(self.transform_streams.as_slice(), messages[index].stream_id) {
                let copy: RawMessage = messages[index].clone();
                if let Some(update) = self.pipelines.decode_one(copy) {
                    let is_transforms: bool = match &update {
                        DomainUpdate::Transforms(_) => true,
                        _ => false,
                    };
                    if is_transforms {
                        self.state.apply(update);
                    }
                }
            }
            index = index + 1;
        }
        assert(all.take(all.len() as int) =~= all);
    }

    pub fn set_focused_camera(&mut self, focused_camera: Option<CameraId>)
        requires
            old(self).well_formed(),
        ensures
            final(self).well_formed(),
            final(self).content() == (DomainRuntimeContent {
                schedule: old(self).content().schedule.focused_on(focused_camera),
                ..old(self).content()
            }),
    {
        self.schedule.set_focused(focused_camera);
    }

    pub fn state(&self) -> (state: &DomainState)
        requires
            self.well_formed(),
        ensures
            state.well_formed(),
            state.content() == self.content().state,
    {
        &self.state
    }

    pub fn camera_topics(&self) -> (topics: &[(CameraId, String)])
        ensures
            session::topic_contents(topics@) == self.content().topics,
    {
        self.camera_topics.as_slice()
    }

    pub fn focused_camera(&self) -> (camera: Option<CameraId>)
        ensures
            camera == self.content().schedule.focused,
    {
        self.schedule.focused()
    }

    pub fn counters(&self) -> (counters: PipelineCounters)
        ensures
            counters == self.content().counters(),
    {
        let mut counters: PipelineCounters = self.pipelines.counters();
        counters.dropped = self.schedule.dropped();
        counters
    }

    pub fn schedule(&self) -> (schedule: &CameraSchedule)
        requires
            self.well_formed(),
        ensures
            schedule.well_formed(),
            schedule.content() == self.content().schedule,
    {
        &self.schedule
    }

    /// A runtime beside this one, to build what a seek will show.
    pub fn staging_for_restore(&self) -> (staged: Self)
        requires
            self.well_formed(),
        ensures
            staged.well_formed(),
            staged.content() == self.content().staging(),
    {
        let plan: SessionPlan = self.plan.clone();
        let mut staged: DomainRuntime = Self::focused_on(plan, self.schedule.focused());
        staged.state = self.state.cold_copy();
        staged
    }

    /// Shows what a staged runtime shows.
    pub fn commit_restore(&mut self, staged: Self)
        requires
            old(self).well_formed(),
            staged.well_formed(),
        ensures
            final(self).well_formed(),
            final(self).content() == old(self).content().committed(staged.content()),
    {
        self.pipelines.add_counters(staged.pipelines.counters());
        self.state = staged.state;
        self.schedule.restart();
    }
}

/// A staged restore leaves nothing of what was shown before but static transforms, and loses no
/// count.
pub proof fn law_staged_restores_keep_counts(
    runtime: DomainRuntimeContent,
    staged: DomainRuntimeContent,
)
    ensures
        runtime.committed(staged).pipelines.counters.decoded
            >= runtime.pipelines.counters.decoded,
        runtime.committed(staged).pipelines.counters.errors >= runtime.pipelines.counters.errors,
        runtime.committed(staged).schedule.dropped == runtime.schedule.dropped,
        runtime.staging().state.transforms.static_edges == runtime.state.transforms.static_edges,
        runtime.staging().state.transforms.dynamic_edges.dom() =~= Set::empty(),
        runtime.staging().state.bev.latest is None,
        runtime.staging().state.telemetry.latest is None,
        runtime.staging().state.point_cloud.latest is None,
{
}

} // verus!

//! Which streams of a recording a session needs, and the plan that follows.

use crate::feature::camera::CameraId;
use crate::feature::transform::DYNAMIC_TF_HISTORY_NS;
use crate::message::text::same_text;
use crate::recording::restore::{RestoreInput, RestoreSemantics};
use crate::recording::session::{
    self, DomainRoute, DomainTarget, RouteContent, SessionPlan, SourceCatalog, StreamContent,
    StreamDescriptor,
};
use vstd::prelude::*;
use vstd::string::*;

verus! {

/// How much a session needs something.
#[derive(Clone, Copy, Debug, Eq, PartialEq, Structural)]
pub enum Need {
    Unused,
    Optional,
    Required,
}

/// What a session needs of a recording.
#[derive(Clone, Copy, Debug, Eq, PartialEq, Structural)]
pub struct PlaybackRequirements {
    pub cameras: Need,
    pub path: Need,
    pub odometry: Need,
    pub point_cloud: Need,
    pub transforms: Need,
}

impl PlaybackRequirements {
    /// No stream at all.
    pub fn empty() -> (requirements: Self)
        ensures
            requirements == (PlaybackRequirements {
                cameras: Need::Unused,
                path: Need::Unused,
                odometry: Need::Unused,
                point_cloud: Need::Unused,
                transforms: Need::Unused,
            }),
    {
        PlaybackRequirements {
            cameras: Need::Unused,
            path: Need::Unused,
            odometry: Need::Unused,
            point_cloud: Need::Unused,
            transforms: Need::Unused,
        }
    }

    pub fn require_all_cameras(&mut self)
        ensures
            *final(self) == (PlaybackRequirements { cameras: Need::Required, ..*old(self) }),
    {
        self.cameras = Need::Required;
    }

    pub fn require_path(&mut self)
        ensures
            *final(self) == (PlaybackRequirements { path: Need::Required, ..*old(self) }),
    {
        self.path = Need::Required;
    }

    pub fn optional_path(&mut self)
        ensures
            *final(self) == (PlaybackRequirements { path: Need::Optional, ..*old(self) }),
    {
        self.path = Need::Optional;
    }

    pub fn require_odometry(&mut self)
        ensures
            *final(self) == (PlaybackRequirements { odometry: Need::Required, ..*old(self) }),
    {
        self.odometry = Need::Required;
    }

    pub fn optional_odometry(&mut self)
        ensures
            *final(self) == (PlaybackRequirements { odometry: Need::Optional, ..*old(self) }),
    {
        self.odometry = Need::Optional;
    }

    pub fn require_point_cloud(&mut self)
        ensures
            *final(self) == (PlaybackRequirements { point_cloud: Need::Required, ..*old(self) }),
    {
        self.point_cloud = Need::Required;
    }

    pub fn require_transforms(&mut self)
        ensures
            *final(self) == (PlaybackRequirements { transforms: Need::Required, ..*old(self) }),
    {
        self.transforms = Need::Required;
    }

    pub fn optional_transforms(&mut self)
        ensures
            *final(self) == (PlaybackRequirements { transforms: Need::Optional, ..*old(self) }),
    {
        self.transforms = Need::Optional;
    }
}

/// What playback in the browser needs: every camera, and what else there is but scans.
pub fn web_playback_requirements() -> (requirements: PlaybackRequirements)
    ensures
        requirements == (PlaybackRequirements {
            cameras: Need::Required,
            path: Need::Optional,
            odometry: Need::Optional,
            point_cloud: Need::Unused,
            transforms: Need::Optional,
        }),
{
    let mut requirements = PlaybackRequirements::empty();
    requirements.require_all_cameras();
    requirements.optional_path();
    requirements.optional_odometry();
    requirements.optional_transforms();
    requirements
}

/// The topics that carry what is not told by its schema alone.
#[derive(Clone, Debug, Eq, PartialEq)]
pub struct WorkspaceBindings {
    pub path_topic: String,
    pub odometry_topic: String,
    pub point_cloud_topic: String,
    pub dynamic_tf_topic: String,
    pub static_tf_topic: String,
}

/// What bindings hold.
pub struct BindingContent {
    pub path_topic: Seq<char>,
    pub odometry_topic: Seq<char>,
    pub point_cloud_topic: Seq<char>,
    pub dynamic_tf_topic: Seq<char>,
    pub static_tf_topic: Seq<char>,
}

impl View for WorkspaceBindings {
    type V = BindingContent;

    open spec fn view(&self) -> BindingContent {
        BindingContent {
            path_topic: self.path_topic@,
            odometry_topic: self.odometry_topic@,
            point_cloud_topic: self.point_cloud_topic@,
            dynamic_tf_topic: self.dynamic_tf_topic@,
            static_tf_topic: self.static_tf_topic@,
        }
    }
}

/// Why a recording cannot be played as required.
#[derive(Clone, Debug, Eq, PartialEq)]
pub enum SessionPlanError {
    NoCamera,
    TooManyCameras,
    MissingStream { topic: String },
}

/// What a `SessionPlanError` says.
pub enum PlanFault {
    NoCamera,
    TooManyCameras,
    MissingStream(Seq<char>),
}

impl View for SessionPlanError {
    type V = PlanFault;

    open spec fn view(&self) -> PlanFault {
        match *self {
            SessionPlanError::NoCamera => PlanFault::NoCamera,
            SessionPlanError::TooManyCameras => PlanFault::TooManyCameras,
            SessionPlanError::MissingStream { topic } => PlanFault::MissingStream(topic@),
        }
    }
}

impl SessionPlanError {
    pub open spec fn spec_message(fault: PlanFault) -> Seq<char> {
        match fault {
            PlanFault::NoCamera => "recording has no supported camera stream"@,
            PlanFault::TooManyCameras => "recording has too many camera streams"@,
            PlanFault::MissingStream(topic) => "recording has no supported stream on "@ + topic,
        }
    }

    /// The error as a sentence for the user.
    pub fn message(&self) -> (sentence: String)
        ensures
            sentence@ == Self::spec_message(self@),
    {
        match self {
            SessionPlanError::NoCamera => "recording has no supported camera stream".to_owned(),
            SessionPlanError::TooManyCameras => "recording has too many camera streams".to_owned(),
            SessionPlanError::MissingStream { topic } => {
                let mut sentence: String = "recording has no supported stream on ".to_owned();
                sentence.append(topic.as_str());
                sentence
            },
        }
    }
}

/// The routes of every camera stream, numbered in order.
pub open spec fn camera_routes(streams: Seq<StreamContent>) -> Seq<RouteContent>
    decreases streams.len(),
{
    if streams.len() == 0 {
        Seq::empty()
    } else {
        let earlier = camera_routes(streams.drop_last());
        let target = DomainTarget::Camera(CameraId(earlier.len() as u16));
        if target.spec_accepts(streams.last()) {
            earlier.push(RouteContent { stream: streams.last(), target })
        } else {
            earlier
        }
    }
}

/// The index of the first stream on a topic, or the number of streams.
pub open spec fn topic_index(streams: Seq<StreamContent>, topic: Seq<char>) -> int
    decreases streams.len(),
{
    if streams.len() == 0 || streams[0].topic == topic {
        0
    } else {
        1 + topic_index(streams.drop_first(), topic)
    }
}

/// The route of a bound topic: the first stream on it, where its messages can be read.
pub open spec fn bound_route(
    streams: Seq<StreamContent>,
    topic: Seq<char>,
    target: DomainTarget,
) -> Seq<RouteContent> {
    let index = topic_index(streams, topic);
    if index < streams.len() && target.spec_accepts(streams[index]) {
        seq![RouteContent { stream: streams[index], target }]
    } else {
        Seq::empty()
    }
}

/// The route of a topic as it is needed.
pub open spec fn needed_route(
    streams: Seq<StreamContent>,
    topic: Seq<char>,
    target: DomainTarget,
    need: Need,
) -> Seq<RouteContent> {
    if need is Unused {
        Seq::empty()
    } else {
        bound_route(streams, topic, target)
    }
}

/// The first thing that a recording lacks.
pub open spec fn lack(
    streams: Seq<StreamContent>,
    requirements: PlaybackRequirements,
    bindings: BindingContent,
) -> Option<PlanFault> {
    let cameras = camera_routes(streams);
    let dynamic = DomainTarget::Transforms { is_static: false };
    let fixed = DomainTarget::Transforms { is_static: true };
    if !(requirements.cameras is Unused) && cameras.len() > 65536 {
        Some(PlanFault::TooManyCameras)
    } else if requirements.cameras is Required && cameras.len() == 0 {
        Some(PlanFault::NoCamera)
    } else if requirements.path is Required && bound_route(
        streams,
        bindings.path_topic,
        DomainTarget::Path,
    ).len() == 0 {
        Some(PlanFault::MissingStream(bindings.path_topic))
    } else if requirements.odometry is Required && bound_route(
        streams,
        bindings.odometry_topic,
        DomainTarget::Telemetry,
    ).len() == 0 {
        Some(PlanFault::MissingStream(bindings.odometry_topic))
    } else if requirements.point_cloud is Required && bound_route(
        streams,
        bindings.point_cloud_topic,
        DomainTarget::PointCloud,
    ).len() == 0 {
        Some(PlanFault::MissingStream(bindings.point_cloud_topic))
    } else if requirements.transforms is Required && bound_route(
        streams,
        bindings.dynamic_tf_topic,
        dynamic,
    ).len() == 0 && bound_route(streams, bindings.static_tf_topic, fixed).len() == 0 {
        Some(PlanFault::MissingStream(bindings.dynamic_tf_topic))
    } else {
        None
    }
}

/// The routes of a session: cameras first.
pub open spec fn session_routes(
    streams: Seq<StreamContent>,
    requirements: PlaybackRequirements,
    bindings: BindingContent,
) -> Seq<RouteContent> {
    (if requirements.cameras is Unused {
        Seq::empty()
    } else {
        camera_routes(streams)
    }) + needed_route(streams, bindings.path_topic, DomainTarget::Path, requirements.path)
        + needed_route(
        streams,
        bindings.odometry_topic,
        DomainTarget::Telemetry,
        requirements.odometry,
    ) + needed_route(
        streams,
        bindings.point_cloud_topic,
        DomainTarget::PointCloud,
        requirements.point_cloud,
    ) + needed_route(
        streams,
        bindings.dynamic_tf_topic,
        DomainTarget::Transforms { is_static: false },
        requirements.transforms,
    ) + needed_route(
        streams,
        bindings.static_tf_topic,
        DomainTarget::Transforms { is_static: true },
        requirements.transforms,
    )
}

/// The camera on a topic, or else the first one.
pub open spec fn primary_of(routes: Seq<RouteContent>, topic: Seq<char>) -> Option<CameraId>
{
    let cameras = session::cameras_in(routes);
    if cameras.len() == 0 {
        None
    } else if exists|i: int| 0 <= i < cameras.len() && (#[trigger] cameras[i]).1 == topic {
        Some(cameras[first_on(cameras, topic)].0)
    } else {
        Some(cameras[0].0)
    }
}

/// The index of the first camera on a topic, or the number of cameras.
pub open spec fn first_on(cameras: Seq<(CameraId, Seq<char>)>, topic: Seq<char>) -> int
    decreases cameras.len(),
{
    if cameras.len() == 0 || cameras[0].1 == topic {
        0
    } else {
        1 + first_on(cameras.drop_first(), topic)
    }
}

proof fn lemma_first_on(cameras: Seq<(CameraId, Seq<char>)>, topic: Seq<char>, index: int)
    requires
        0 <= index <= cameras.len(),
        forall|i: int| 0 <= i < index ==> (#[trigger] cameras[i]).1 != topic,
        index < cameras.len() ==> cameras[index].1 == topic,
    ensures
        first_on(cameras, topic) == index,
    decreases cameras.len(),
{
    if cameras.len() > 0 && index > 0 {
        let rest = cameras.drop_first();
        assert(cameras[0].1 != topic);
        assert forall|i: int| 0 <= i < index - 1 implies (#[trigger] rest[i]).1 != topic by {
            assert(rest[i] == cameras[i + 1]);
        }
        lemma_first_on(rest, topic, index - 1);
    }
}

proof fn lemma_topic_index(streams: Seq<StreamContent>, topic: Seq<char>, index: int)
    requires
        0 <= index <= streams.len(),
        forall|i: int| 0 <= i < index ==> (#[trigger] streams[i]).topic != topic,
        index < streams.len() ==> streams[index].topic == topic,
    ensures
        topic_index(streams, topic) == index,
    decreases streams.len(),
{
    if streams.len() > 0 && index > 0 {
        let rest = streams.drop_first();
        assert(streams[0].topic != topic);
        assert forall|i: int| 0 <= i < index - 1 implies (#[trigger] rest[i]).topic != topic by {
            assert(rest[i] == streams[i + 1]);
        }
        lemma_topic_index(rest, topic, index - 1);
    }
}

fn push_bound(
    routes: &mut Vec<DomainRoute>,
    streams: &Vec<StreamDescriptor>,
    topic: &str,
    target: DomainTarget,
) -> (found: bool)
    ensures
        found == (bound_route(session::stream_contents(streams@), topic@, target).len() > 0),
        session::route_contents(final(routes)@) == session::route_contents(old(routes)@)
            + bound_route(session::stream_contents(streams@), topic@, target),
{
    let ghost all = session::stream_contents(streams@);
    let mut index: usize = 0;
    while index < streams.len() && !same_text(streams[index].topic.as_str(), topic)
        invariant
            index <= streams@.len(),
            all == session::stream_contents(streams@),
            forall|i: int| 0 <= i < index ==> (#[trigger] all[i]).topic != topic@,
        decreases streams@.len() - index,
    {
        assert(all[index as int] == streams@[index as int]@);
        index = index + 1;
    }
    proof {
        if index < streams@.len() {
            assert(all[index as int] == streams@[index as int]@);
        }
        lemma_topic_index(all, topic@, index as int);
    }
    let ghost before = routes@;
    if index < streams.len() && target.accepts_stream(&streams[index]) {
        let stream: StreamDescriptor = streams[index].clone();
        let route = DomainRoute { stream, target };
        routes.push(route);
        proof {
            assert(session::route_contents(routes@) =~= session::route_contents(before)
                + bound_route(all, topic@, target));
        }
        true
    } else {
        assert(session::route_contents(routes@) =~= session::route_contents(before) + bound_route(
            all,
            topic@,
            target,
        ));
        false
    }
}

fn push_needed(
    routes: &mut Vec<DomainRoute>,
    streams: &Vec<StreamDescriptor>,
    topic: &String,
    target: DomainTarget,
    need: Need,
) -> (outcome: Result<(), SessionPlanError>)
    ensures
        match outcome {
            Ok(_) => !(need is Required && bound_route(
                session::stream_contents(streams@),
                topic@,
                target,
            ).len() == 0) && session::route_contents(final(routes)@) == session::route_contents(
                old(routes)@,
            ) + needed_route(session::stream_contents(streams@), topic@, target, need),
            Err(error) => need is Required && bound_route(
                session::stream_contents(streams@),
                topic@,
                target,
            ).len() == 0 && error@ == PlanFault::MissingStream(topic@),
        },
{
    match need {
        Need::Unused => {
            assert(session::route_contents(routes@) =~= session::route_contents(routes@)
                + needed_route(session::stream_contents(streams@), topic@, target, need));
            Ok(())
        },
        Need::Optional => {
            let _ = push_bound(routes, streams, topic.as_str(), target);
            Ok(())
        },
        Need::Required => {
            if push_bound(routes, streams, topic.as_str(), target) {
                Ok(())
            } else {
                Err(SessionPlanError::MissingStream { topic: topic.as_str().to_owned() })
            }
        },
    }
}

fn push_transforms(
    routes: &mut Vec<DomainRoute>,
    streams: &Vec<StreamDescriptor>,
    bindings: &WorkspaceBindings,
    need: Need,
) -> (outcome: Result<(), SessionPlanError>)
    ensures
        ({
            let all = session::stream_contents(streams@);
            let dynamic = DomainTarget::Transforms { is_static: false };
            let fixed = DomainTarget::Transforms { is_static: true };
            let missing = need is Required && bound_route(
                all,
                bindings@.dynamic_tf_topic,
                dynamic,
            ).len() == 0 && bound_route(all, bindings@.static_tf_topic, fixed).len() == 0;
            match outcome {
                Ok(_) => !missing && session::route_contents(final(routes)@)
                    == session::route_contents(old(routes)@) + needed_route(
                    all,
                    bindings@.dynamic_tf_topic,
                    dynamic,
                    need,
                ) + needed_route(all, bindings@.static_tf_topic, fixed, need),
                Err(error) => missing && error@ == PlanFault::MissingStream(
                    bindings@.dynamic_tf_topic,
                ),
            }
        }),
{
    let dynamic = DomainTarget::Transforms { is_static: false };
    let fixed = DomainTarget::Transforms { is_static: true };
    if let Need::Unused = need {
        assert(session::route_contents(routes@) =~= session::route_contents(routes@)
            + needed_route(
            session::stream_contents(streams@),
            bindings@.dynamic_tf_topic,
            dynamic,
            need,
        ) + needed_route(
            session::stream_contents(streams@),
            bindings@.static_tf_topic,
            fixed,
            need,
        ));
        return Ok(());
    }
    let moving: bool = push_bound(routes, streams, bindings.dynamic_tf_topic.as_str(), dynamic);
    let still: bool = push_bound(routes, streams, bindings.static_tf_topic.as_str(), fixed);
    if let Need::Required = need {
        if !moving && !still {
            let topic: String = bindings.dynamic_tf_topic.as_str().to_owned();
            return Err(SessionPlanError::MissingStream { topic });
        }
    }
    Ok(())
}

fn collect_cameras(streams: &Vec<StreamDescriptor>) -> (routes: Option<Vec<DomainRoute>>)
    ensures
        match routes {
            Some(routes) => session::route_contents(routes@) == camera_routes(
                session::stream_contents(streams@),
            ) && routes@.len() <= 65536,
            None => camera_routes(session::stream_contents(streams@)).len() > 65536,
        },
{
    let ghost all = session::stream_contents(streams@);
    let mut routes: Vec<DomainRoute> = Vec::new();
    let mut index: usize = 0;
    assert(session::route_contents(routes@) =~= camera_routes(all.take(0)));
    while index < streams.len()
        invariant
            index <= streams@.len(),
            all == session::stream_contents(streams@),
            routes@.len() <= 65536,
            session::route_contents(routes@) == camera_routes(all.take(index as int)),
        decreases streams@.len() - index,
    {
        proof {
            assert(all.take(index + 1).drop_last() =~= all.take(index as int));
            assert(all[index as int] == streams@[index as int]@);
        }
        let probe = DomainTarget::Camera(CameraId(0));
        if probe.accepts_stream(&streams[index]) {
            if routes.len() == 65536 {
                proof {
                    lemma_more_cameras(all, index + 1);
                }
                return None;
            }
            let stream: StreamDescriptor = streams[index].clone();
            let target = DomainTarget::Camera(CameraId(routes.len() as u16));
            let ghost before = routes@;
            let route = DomainRoute { stream, target };
            routes.push(route);
            assert(session::route_contents(routes@) =~= session::route_contents(before).push(
                route@,
            ));
        }
        index = index + 1;
    }
    assert(all.take(all.len() as int) =~= all);
    Some(routes)
}

proof fn lemma_more_cameras(streams: Seq<StreamContent>, count: int)
    requires
        0 <= count <= streams.len(),
    ensures
        camera_routes(streams.take(count)).len() <= camera_routes(streams).len(),
    decreases streams.len() - count,
{
    if count < streams.len() {
        assert(streams.take(count + 1).drop_last() =~= streams.take(count));
        lemma_more_cameras(streams, count + 1);
    } else {
        assert(streams.take(count) =~= streams);
    }
}

fn choose_primary(topics: &Vec<(CameraId, String)>, topic: &str) -> (camera: Option<CameraId>)
    ensures
        ({
            let cameras = session::topic_contents(topics@);
            camera == (if cameras.len() == 0 {
                None
            } else if exists|i: int| 0 <= i < cameras.len() && (#[trigger] cameras[i]).1
                == topic@ {
                Some(cameras[first_on(cameras, topic@)].0)
            } else {
                Some(cameras[0].0)
            })
        }),
{
    let ghost cameras = session::topic_contents(topics@);
    let mut index: usize = 0;
    while index < topics.len()
        invariant
            index <= topics@.len(),
            cameras == session::topic_contents(topics@),
            forall|i: int| 0 <= i < index ==> (#[trigger] cameras[i]).1 != topic@,
        decreases topics@.len() - index,
    {
        assert(cameras[index as int] == (topics@[index as int].0, topics@[index as int].1@));
        if same_text(topics[index].1.as_str(), topic) {
            proof {
                lemma_first_on(cameras, topic@, index as int);
            }
            return Some(topics[index].0);
        }
        index = index + 1;
    }
    if topics.len() > 0 {
        assert(cameras[0] == (topics@[0].0, topics@[0].1@));
        Some(topics[0].0)
    } else {
        None
    }
}

/// How a seek restores the messages of a target.
pub open spec fn restore_semantics(target: DomainTarget) -> RestoreSemantics {
    match target {
        DomainTarget::Transforms { is_static: true } => RestoreSemantics::Persistent,
        DomainTarget::Transforms { is_static: false } => RestoreSemantics::History(
            DYNAMIC_TF_HISTORY_NS,
        ),
        _ => RestoreSemantics::LatestBefore,
    }
}

/// What a seek has to read, for each route in order.
pub open spec fn restore_inputs_of(routes: Seq<RouteContent>) -> Seq<RestoreInput> {
    routes.map_values(
        |route: RouteContent|
            RestoreInput {
                stream: route.stream.id,
                semantics: restore_semantics(route.target),
            },
    )
}

impl SessionPlan {
    /// The plan for the streams that are required and those that are there.
    pub fn build(
        catalog: &SourceCatalog,
        primary_camera_topic: &str,
        requirements: &PlaybackRequirements,
        bindings: &WorkspaceBindings,
    ) -> (outcome: Result<SessionPlan, SessionPlanError>)
        ensures
            match outcome {
                Ok(plan) => lack(catalog.content(), *requirements, bindings@) is None
                    && plan.content() == session_routes(
                    catalog.content(),
                    *requirements,
                    bindings@,
                ) && plan.spec_primary_camera() == primary_of(
                    plan.content(),
                    primary_camera_topic@,
                ),
                Err(error) => lack(catalog.content(), *requirements, bindings@) == Some(error@),
            },
    {
        let mut routes: Vec<DomainRoute> = Vec::new();
        match requirements.cameras {
            Need::Unused => {
                assert(session::route_contents(routes@) =~= Seq::empty());
            },
            _ => {
                routes = match collect_cameras(&catalog.streams) {
                    Some(cameras) => cameras,
                    None => return Err(SessionPlanError::TooManyCameras),
                };
            },
        }
        if let Need::Required = requirements.cameras {
            if routes.len() == 0 {
                return Err(SessionPlanError::NoCamera);
            }
        }
        push_needed(
            &mut routes,
            &catalog.streams,
            &bindings.path_topic,
            DomainTarget::Path,
            requirements.path,
        )?;
        push_needed(
            &mut routes,
            &catalog.streams,
            &bindings.odometry_topic,
            DomainTarget::Telemetry,
            requirements.odometry,
        )?;
        push_needed(
            &mut routes,
            &catalog.streams,
            &bindings.point_cloud_topic,
            DomainTarget::PointCloud,
            requirements.point_cloud,
        )?;
        push_transforms(&mut routes, &catalog.streams, bindings, requirements.transforms)?;
        let draft: SessionPlan = SessionPlan::from_routes(routes, None);
        let topics: Vec<(CameraId, String)> = draft.camera_topics();
        let primary: Option<CameraId> = choose_primary(&topics, primary_camera_topic);
        Ok(draft.with_primary_camera(primary))
    }

    /// What a seek has to read, for each route in order.
    pub fn restore_inputs(&self) -> (inputs: Vec<RestoreInput>)
        ensures
            inputs@ == restore_inputs_of(self.content()),
    {
        let routes: &[DomainRoute] = self.domain_routes();
        let ghost all = self.content();
        let mut inputs: Vec<RestoreInput> = Vec::with_capacity(routes.len());
        let mut index: usize = 0;
        while index < routes.len()
            invariant
                index <= routes@.len(),
                all == session::route_contents(routes@),
                inputs@ == restore_inputs_of(all.take(index as int)),
            decreases routes@.len() - index,
        {
            assert(all[index as int] == routes@[index as int]@);
            let semantics: RestoreSemantics = match routes[index].target {
                DomainTarget::Transforms { is_static: true } => RestoreSemantics::Persistent,
                DomainTarget::Transforms { is_static: false } => RestoreSemantics::History(
                    DYNAMIC_TF_HISTORY_NS,
                ),
                _ => RestoreSemantics::LatestBefore,
            };
            inputs.push(RestoreInput { stream: routes[index].stream.id, semantics });
            index = index + 1;
            assert(inputs@ =~= restore_inputs_of(all.take(index as int)));
        }
        assert(all.take(all.len() as int) =~= all);
        inputs
    }
}

/// The stream holds compressed images in CDR form.
pub open spec fn holds_images(stream: StreamContent) -> bool {
    stream.message_encoding == "cdr"@ && stream.schema == "sensor_msgs/msg/CompressedImage"@
}

/// Every stream of compressed images in CDR form is a camera, and no other stream is one. The cameras
/// are numbered from zero in the order of the streams.
pub proof fn law_cameras_are_the_image_streams(streams: Seq<StreamContent>)
    requires
        camera_routes(streams).len() <= 65_536,
    ensures
        camera_routes(streams).map_values(|route: RouteContent| route.stream) == streams.filter(
            |stream: StreamContent| holds_images(stream),
        ),
        forall|i: int|
            0 <= i < camera_routes(streams).len() ==> (#[trigger] camera_routes(streams)[i]).target
                == DomainTarget::Camera(CameraId(i as u16)),
    decreases streams.len(),
{
    reveal(Seq::filter);
    let chosen = |stream: StreamContent| holds_images(stream);
    let of = |route: RouteContent| route.stream;
    if streams.len() > 0 {
        let earlier = camera_routes(streams.drop_last());
        law_cameras_are_the_image_streams(streams.drop_last());
        if holds_images(streams.last()) {
            assert(camera_routes(streams).map_values(of) =~= earlier.map_values(of).push(
                streams.last(),
            ));
        }
    } else {
        assert(camera_routes(streams).map_values(of) =~= Seq::empty());
    }
}

/// What the messages of a stream have to be for a target: its ROS type.
pub open spec fn type_for(target: DomainTarget) -> Seq<char> {
    match target {
        DomainTarget::Camera(_) => "sensor_msgs/msg/CompressedImage"@,
        DomainTarget::Path => "nav_msgs/msg/Path"@,
        DomainTarget::Telemetry => "nav_msgs/msg/Odometry"@,
        DomainTarget::PointCloud => "sensor_msgs/msg/LaserScan"@,
        DomainTarget::Transforms { is_static: _ } => "tf2_msgs/msg/TFMessage"@,
    }
}

/// The first stream of a list on a topic is one in CDR form and of a type.
pub open spec fn offers(
    streams: Seq<StreamContent>,
    topic: Seq<char>,
    kind: Seq<char>,
    index: int,
) -> bool {
    &&& 0 <= index < streams.len()
    &&& streams[index].topic == topic
    &&& streams[index].message_encoding == "cdr"@
    &&& streams[index].schema == kind
    &&& forall|i: int| 0 <= i < index ==> (#[trigger] streams[i]).topic != topic
}

/// A bound topic leads to its target exactly where the first stream on it can be read as one.
pub proof fn law_topics_lead_to_their_target(
    streams: Seq<StreamContent>,
    topic: Seq<char>,
    target: DomainTarget,
    index: int,
)
    ensures
        offers(streams, topic, type_for(target), index) ==> bound_route(streams, topic, target)
            == seq![RouteContent { stream: streams[index], target }],
        bound_route(streams, topic, target).len() > 0 ==> exists|i: int|
            #[trigger] offers(streams, topic, type_for(target), i),
{
    if offers(streams, topic, type_for(target), index) {
        lemma_topic_index(streams, topic, index);
    }
    let first = topic_index(streams, topic);
    lemma_topic_found(streams, topic);
    if bound_route(streams, topic, target).len() > 0 {
        assert(offers(streams, topic, type_for(target), first));
    }
}

proof fn lemma_topic_found(streams: Seq<StreamContent>, topic: Seq<char>)
    ensures
        0 <= topic_index(streams, topic) <= streams.len(),
        topic_index(streams, topic) < streams.len() ==> streams[topic_index(streams, topic)].topic
            == topic,
        forall|i: int|
            0 <= i < topic_index(streams, topic) ==> (#[trigger] streams[i]).topic != topic,
    decreases streams.len(),
{
    if streams.len() > 0 && streams[0].topic != topic {
        let rest = streams.drop_first();
        lemma_topic_found(rest, topic);
        assert forall|i: int|
            0 <= i < topic_index(streams, topic) implies (#[trigger] streams[i]).topic != topic by {
            if i > 0 {
                assert(rest[i - 1] == streams[i]);
            }
        }
    }
}

proof fn lemma_stream_for_joined(
    first: Seq<RouteContent>,
    second: Seq<RouteContent>,
    target: DomainTarget,
)
    ensures
        session::stream_for(first + second, target) == match session::stream_for(first, target) {
            Some(stream) => Some(stream),
            None => session::stream_for(second, target),
        },
    decreases first.len(),
{
    if first.len() == 0 {
        assert(first + second =~= second);
    } else {
        assert((first + second)[0] == first[0]);
        assert((first + second).drop_first() =~= first.drop_first() + second);
        lemma_stream_for_joined(first.drop_first(), second, target);
    }
}

proof fn lemma_stream_for_others(routes: Seq<RouteContent>, target: DomainTarget)
    requires
        forall|i: int| 0 <= i < routes.len() ==> (#[trigger] routes[i]).target != target,
    ensures
        session::stream_for(routes, target) is None,
    decreases routes.len(),
{
    if routes.len() > 0 {
        assert(routes[0].target != target);
        assert forall|i: int| 0 <= i < routes.drop_first().len() implies (
        #[trigger] routes.drop_first()[i]).target != target by {
            assert(routes[i + 1].target != target);
        }
        lemma_stream_for_others(routes.drop_first(), target);
    }
}

proof fn lemma_camera_targets(streams: Seq<StreamContent>)
    ensures
        forall|i: int|
            0 <= i < camera_routes(streams).len() ==> (#[trigger] camera_routes(
                streams,
            )[i]).target is Camera,
    decreases streams.len(),
{
    if streams.len() > 0 {
        lemma_camera_targets(streams.drop_last());
    }
}

/// A session reads each thing that it needs from the topic that is bound to it, where the first stream
/// on that topic can be read so, and nothing that it does not need.
#[verifier::rlimit(60)]
pub proof fn law_sessions_read_their_topics(
    streams: Seq<StreamContent>,
    requirements: PlaybackRequirements,
    bindings: WorkspaceBindings,
    index: int,
)
    ensures
        ({
            let routes = session_routes(streams, requirements, bindings@);
            let read = |target: DomainTarget| session::stream_for(routes, target);
            let path = offers(streams, bindings.path_topic@, "nav_msgs/msg/Path"@, index);
            let odometry = offers(
                streams,
                bindings.odometry_topic@,
                "nav_msgs/msg/Odometry"@,
                index,
            );
            let scans = offers(
                streams,
                bindings.point_cloud_topic@,
                "sensor_msgs/msg/LaserScan"@,
                index,
            );
            let dynamic = offers(
                streams,
                bindings.dynamic_tf_topic@,
                "tf2_msgs/msg/TFMessage"@,
                index,
            );
            let fixed = offers(
                streams,
                bindings.static_tf_topic@,
                "tf2_msgs/msg/TFMessage"@,
                index,
            );
            let moving = DomainTarget::Transforms { is_static: false };
            let standing = DomainTarget::Transforms { is_static: true };
            &&& path && requirements.path != Need::Unused ==> read(DomainTarget::Path) == Some(
                streams[index].id,
            )
            &&& odometry && requirements.odometry != Need::Unused ==> read(DomainTarget::Telemetry)
                == Some(streams[index].id)
            &&& scans && requirements.point_cloud != Need::Unused ==> read(
                DomainTarget::PointCloud,
            ) == Some(streams[index].id)
            &&& dynamic && requirements.transforms != Need::Unused ==> read(moving) == Some(
                streams[index].id,
            )
            &&& fixed && requirements.transforms != Need::Unused ==> read(standing) == Some(
                streams[index].id,
            )
            &&& requirements.path == Need::Unused ==> read(DomainTarget::Path) is None
            &&& requirements.odometry == Need::Unused ==> read(DomainTarget::Telemetry) is None
            &&& requirements.point_cloud == Need::Unused ==> read(DomainTarget::PointCloud) is None
            &&& requirements.transforms == Need::Unused ==> read(moving) is None && read(
                standing,
            ) is None
        }),
{
    let about = bindings@;
    let cameras = if requirements.cameras is Unused {
        Seq::empty()
    } else {
        camera_routes(streams)
    };
    let moving = DomainTarget::Transforms { is_static: false };
    let standing = DomainTarget::Transforms { is_static: true };
    let one = needed_route(streams, about.path_topic, DomainTarget::Path, requirements.path);
    let two = needed_route(
        streams,
        about.odometry_topic,
        DomainTarget::Telemetry,
        requirements.odometry,
    );
    let three = needed_route(
        streams,
        about.point_cloud_topic,
        DomainTarget::PointCloud,
        requirements.point_cloud,
    );
    let four = needed_route(streams, about.dynamic_tf_topic, moving, requirements.transforms);
    let five = needed_route(streams, about.static_tf_topic, standing, requirements.transforms);
    lemma_camera_targets(streams);
    lemma_read_of_parts(cameras, one, two, three, four, five, DomainTarget::Path);
    lemma_read_of_parts(cameras, one, two, three, four, five, DomainTarget::Telemetry);
    lemma_read_of_parts(cameras, one, two, three, four, five, DomainTarget::PointCloud);
    lemma_read_of_parts(cameras, one, two, three, four, five, moving);
    lemma_read_of_parts(cameras, one, two, three, four, five, standing);
    law_topics_lead_to_their_target(streams, about.path_topic, DomainTarget::Path, index);
    law_topics_lead_to_their_target(streams, about.odometry_topic, DomainTarget::Telemetry, index);
    law_topics_lead_to_their_target(
        streams,
        about.point_cloud_topic,
        DomainTarget::PointCloud,
        index,
    );
    law_topics_lead_to_their_target(streams, about.dynamic_tf_topic, moving, index);
    law_topics_lead_to_their_target(streams, about.static_tf_topic, standing, index);
}

/// Of routes in parts, of which each leads to one target, a target is read from its part.
#[verifier::rlimit(60)]
proof fn lemma_read_of_parts(
    cameras: Seq<RouteContent>,
    one: Seq<RouteContent>,
    two: Seq<RouteContent>,
    three: Seq<RouteContent>,
    four: Seq<RouteContent>,
    five: Seq<RouteContent>,
    target: DomainTarget,
)
    requires
        forall|i: int| 0 <= i < cameras.len() ==> (#[trigger] cameras[i]).target is Camera,
        one.len() <= 1 && two.len() <= 1 && three.len() <= 1 && four.len() <= 1 && five.len() <= 1,
        one.len() > 0 ==> one[0].target == DomainTarget::Path,
        two.len() > 0 ==> two[0].target == DomainTarget::Telemetry,
        three.len() > 0 ==> three[0].target == DomainTarget::PointCloud,
        four.len() > 0 ==> four[0].target == (DomainTarget::Transforms { is_static: false }),
        five.len() > 0 ==> five[0].target == (DomainTarget::Transforms { is_static: true }),
        !(target is Camera),
    ensures
        ({
            let part = match target {
                DomainTarget::Path => one,
                DomainTarget::Telemetry => two,
                DomainTarget::PointCloud => three,
                DomainTarget::Transforms { is_static } => if is_static {
                    five
                } else {
                    four
                },
                DomainTarget::Camera(_) => cameras,
            };
            session::stream_for(cameras + one + two + three + four + five, target) == if part.len()
                > 0 {
                Some(part[0].stream.id)
            } else {
                None
            }
        }),
{
    lemma_stream_for_others(cameras, target);
    lemma_stream_for_joined(cameras, one, target);
    lemma_stream_for_joined(cameras + one, two, target);
    lemma_stream_for_joined(cameras + one + two, three, target);
    lemma_stream_for_joined(cameras + one + two + three, four, target);
    lemma_stream_for_joined(cameras + one + two + three + four, five, target);
    reveal_with_fuel(session::stream_for, 2);
}

/// A session starts on the first camera on the topic that is asked for, or else on its first camera.
pub proof fn law_sessions_start_on_the_camera_asked_for(
    routes: Seq<RouteContent>,
    topic: Seq<char>,
    index: int,
)
    requires
        0 <= index < session::cameras_in(routes).len(),
        session::cameras_in(routes)[index].1 == topic,
        forall|i: int| 0 <= i < index ==> (#[trigger] session::cameras_in(routes)[i]).1 != topic,
    ensures
        primary_of(routes, topic) == Some(session::cameras_in(routes)[index].0),
        forall|other: Seq<char>|
            (forall|i: int|
                0 <= i < session::cameras_in(routes).len() ==> (#[trigger] session::cameras_in(
                    routes,
                )[i]).1 != other) ==> #[trigger] primary_of(routes, other) == Some(
                session::cameras_in(routes)[0].0,
            ),
{
    lemma_first_on(session::cameras_in(routes), topic, index);
}

/// A seek shows static transforms with everything that was sent of them, others with what was sent
/// within a second, and all else with its latest message.
pub proof fn law_seeks_restore_each_target_in_its_way(routes: Seq<RouteContent>, index: int)
    requires
        0 <= index < routes.len(),
    ensures
        restore_inputs_of(routes).len() == routes.len(),
        restore_inputs_of(routes)[index].stream == routes[index].stream.id,
        match routes[index].target {
            DomainTarget::Transforms { is_static } => restore_inputs_of(routes)[index].semantics
                == if is_static {
                RestoreSemantics::Persistent
            } else {
                RestoreSemantics::History(1_000_000_000)
            },
            _ => restore_inputs_of(routes)[index].semantics == RestoreSemantics::LatestBefore,
        },
{
}

} // verus!

//! What a recording offers, and which of its streams a session plays.

use crate::feature::camera::CameraId;
use crate::message::text::{self, push_decimal, same_text};
use crate::message::time::ArrivalTime;
use crate::recording::raw::StreamId;
use vstd::prelude::*;
use vstd::string::*;

verus! {

#[derive(Clone, Copy, Debug, Eq, PartialEq, Structural)]
pub struct StreamTimingSummary {
    pub message_count: Option<u64>,
}

impl Default for StreamTimingSummary {
    fn default() -> (timing: Self)
        ensures
            timing == (StreamTimingSummary { message_count: None }),
    {
        StreamTimingSummary { message_count: None }
    }
}

/// A stream that a recording offers.
#[derive(Debug, Eq, PartialEq)]
pub struct StreamDescriptor {
    pub id: StreamId,
    pub topic: String,
    pub schema: String,
    pub message_encoding: String,
    pub timing: StreamTimingSummary,
}

/// What a stream descriptor holds.
pub struct StreamContent {
    pub id: StreamId,
    pub topic: Seq<char>,
    pub schema: Seq<char>,
    pub message_encoding: Seq<char>,
    pub timing: StreamTimingSummary,
}

impl View for StreamDescriptor {
    type V = StreamContent;

    open spec fn view(&self) -> StreamContent {
        StreamContent {
            id: self.id,
            topic: self.topic@,
            schema: self.schema@,
            message_encoding: self.message_encoding@,
            timing: self.timing,
        }
    }
}

impl Clone for StreamDescriptor {
    fn clone(&self) -> (copy: Self)
        ensures
            copy@ == self@,
    {
        StreamDescriptor {
            id: self.id,
            topic: self.topic.clone(),
            schema: self.schema.clone(),
            message_encoding: self.message_encoding.clone(),
            timing: self.timing,
        }
    }
}

/// What each descriptor of a list holds.
pub open spec fn stream_contents(streams: Seq<StreamDescriptor>) -> Seq<StreamContent> {
    streams.map_values(|stream: StreamDescriptor| stream@)
}

/// The times that a recording covers, the last of them excluded.
#[derive(Clone, Copy, Debug, Eq, PartialEq, Structural)]
pub struct RecordingTimeRange {
    pub start: ArrivalTime,
    pub end_exclusive: ArrivalTime,
}

/// What a recording offers.
#[derive(Clone, Debug, Eq, PartialEq)]
pub struct SourceCatalog {
    pub time_range: Option<RecordingTimeRange>,
    pub streams: Vec<StreamDescriptor>,
}

impl SourceCatalog {
    pub open spec fn content(&self) -> Seq<StreamContent> {
        stream_contents(self.streams@)
    }

    /// The first stream with an identifier.
    pub fn by_id(&self, id: StreamId) -> (stream: Option<&StreamDescriptor>)
        ensures
            match stream {
                Some(found) => exists|i: int|
                    0 <= i < self.content().len() && (#[trigger] self.content()[i]) == found@
                        && found@.id == id && forall|j: int|
                        0 <= j < i ==> (#[trigger] self.content()[j]).id != id,
                None => forall|i: int|
                    0 <= i < self.content().len() ==> (#[trigger] self.content()[i]).id != id,
            },
    {
        let mut index: usize = 0;
        while index < self.streams.len()
            invariant
                index <= self.streams@.len(),
                forall|i: int| 0 <= i < index ==> (#[trigger] self.content()[i]).id != id,
            decreases self.streams@.len() - index,
        {
            assert(self.content()[index as int] == self.streams@[index as int]@);
            if self.streams[index].id == id {
                return Some(&self.streams[index]);
            }
            index = index + 1;
        }
        None
    }

    /// The first stream with a topic.
    pub fn by_topic(&self, topic: &str) -> (stream: Option<&StreamDescriptor>)
        ensures
            match stream {
                Some(found) => exists|i: int|
                    0 <= i < self.content().len() && (#[trigger] self.content()[i]) == found@
                        && found@.topic == topic@ && forall|j: int|
                        0 <= j < i ==> (#[trigger] self.content()[j]).topic != topic@,
                None => forall|i: int|
                    0 <= i < self.content().len() ==> (#[trigger] self.content()[i]).topic
                        != topic@,
            },
    {
        let mut index: usize = 0;
        while index < self.streams.len()
            invariant
                index <= self.streams@.len(),
                forall|i: int| 0 <= i < index ==> (#[trigger] self.content()[i]).topic != topic@,
            decreases self.streams@.len() - index,
        {
            assert(self.content()[index as int] == self.streams@[index as int]@);
            if same_text(self.streams[index].topic.as_str(), topic) {
                return Some(&self.streams[index]);
            }
            index = index + 1;
        }
        None
    }
}

/// What the messages of a stream become.
#[derive(Clone, Copy, Debug, Eq, PartialEq, Structural)]
pub enum DomainTarget {
    Camera(CameraId),
    Path,
    Telemetry,
    PointCloud,
    Transforms { is_static: bool },
}

impl DomainTarget {
    pub open spec fn spec_expected_schema(self) -> Seq<char> {
        match self {
            DomainTarget::Camera(_) => "sensor_msgs/msg/CompressedImage"@,
            DomainTarget::Path => "nav_msgs/msg/Path"@,
            DomainTarget::Telemetry => "nav_msgs/msg/Odometry"@,
            DomainTarget::PointCloud => "sensor_msgs/msg/LaserScan"@,
            DomainTarget::Transforms { is_static: _ } => "tf2_msgs/msg/TFMessage"@,
        }
    }

    /// The stream is in CDR form and of the schema that the target reads.
    pub open spec fn spec_accepts(self, stream: StreamContent) -> bool {
        stream.message_encoding == "cdr"@ && stream.schema == self.spec_expected_schema()
    }

    pub fn expected_schema(self) -> (schema: &'static str)
        ensures
            schema@ == self.spec_expected_schema(),
    {
        match self {
            DomainTarget::Camera(_) => "sensor_msgs/msg/CompressedImage",
            DomainTarget::Path => "nav_msgs/msg/Path",
            DomainTarget::Telemetry => "nav_msgs/msg/Odometry",
            DomainTarget::PointCloud => "sensor_msgs/msg/LaserScan",
            DomainTarget::Transforms { is_static: _ } => "tf2_msgs/msg/TFMessage",
        }
    }

    /// The target as it is shown to developers.
    pub open spec fn spec_description(self) -> Seq<char> {
        match self {
            DomainTarget::Camera(camera) => "Camera(CameraId("@ + text::decimal(camera.0 as nat)
                + "))"@,
            DomainTarget::Path => "Path"@,
            DomainTarget::Telemetry => "Telemetry"@,
            DomainTarget::PointCloud => "PointCloud"@,
            DomainTarget::Transforms { is_static: true } => "Transforms { is_static: true }"@,
            DomainTarget::Transforms { is_static: false } => "Transforms { is_static: false }"@,
        }
    }

    pub fn description(self) -> (words: String)
        ensures
            words@ == self.spec_description(),
    {
        match self {
            DomainTarget::Camera(camera) => {
                let mut words: String = "Camera(CameraId(".to_owned();
                push_decimal(&mut words, camera.0 as u64);
                words.append("))");
                words
            },
            DomainTarget::Path => "Path".to_owned(),
            DomainTarget::Telemetry => "Telemetry".to_owned(),
            DomainTarget::PointCloud => "PointCloud".to_owned(),
            DomainTarget::Transforms { is_static: true } => {
                "Transforms { is_static: true }".to_owned()
            },
            DomainTarget::Transforms { is_static: false } => {
                "Transforms { is_static: false }".to_owned()
            },
        }
    }

    pub fn accepts_stream(self, stream: &StreamDescriptor) -> (accepted: bool)
        ensures
            accepted == self.spec_accepts(stream@),
    {
        same_text(stream.message_encoding.as_str(), "cdr") && same_text(
            stream.schema.as_str(),
            self.expected_schema(),
        )
    }
}

/// A stream and what its messages become.
#[derive(Debug, Eq, PartialEq)]
pub struct DomainRoute {
    pub stream: StreamDescriptor,
    pub target: DomainTarget,
}

/// What a route holds.
pub struct RouteContent {
    pub stream: StreamContent,
    pub target: DomainTarget,
}

impl View for DomainRoute {
    type V = RouteContent;

    open spec fn view(&self) -> RouteContent {
        RouteContent { stream: self.stream@, target: self.target }
    }
}

impl Clone for DomainRoute {
    fn clone(&self) -> (copy: Self)
        ensures
            copy@ == self@,
    {
        DomainRoute { stream: self.stream.clone(), target: self.target }
    }
}

/// What each route of a list holds.
pub open spec fn route_contents(routes: Seq<DomainRoute>) -> Seq<RouteContent> {
    routes.map_values(|route: DomainRoute| route@)
}

/// The stream of the first route to a target.
pub open spec fn stream_for(routes: Seq<RouteContent>, target: DomainTarget) -> Option<StreamId>
    decreases routes.len(),
{
    if routes.len() == 0 {
        None
    } else if routes[0].target == target {
        Some(routes[0].stream.id)
    } else {
        stream_for(routes.drop_first(), target)
    }
}

/// The camera that a route leads to.
pub open spec fn camera_of(route: RouteContent) -> Option<CameraId> {
    match route.target {
        DomainTarget::Camera(camera) => Some(camera),
        _ => None,
    }
}

/// The cameras of some routes with their topics, in order.
pub open spec fn cameras_in(routes: Seq<RouteContent>) -> Seq<(CameraId, Seq<char>)>
    decreases routes.len(),
{
    if routes.len() == 0 {
        Seq::empty()
    } else {
        match routes.last().target {
            DomainTarget::Camera(camera) => cameras_in(routes.drop_last()).push(
                (camera, routes.last().stream.topic),
            ),
            _ => cameras_in(routes.drop_last()),
        }
    }
}

/// The camera of the last route of a stream that leads to one.
pub open spec fn camera_for(routes: Seq<RouteContent>, stream: StreamId) -> Option<CameraId>
    decreases routes.len(),
{
    if routes.len() == 0 {
        None
    } else if routes.last().stream.id == stream && camera_of(routes.last()) is Some {
        camera_of(routes.last())
    } else {
        camera_for(routes.drop_last(), stream)
    }
}

/// The streams that a session plays, and the camera that it starts on.
#[derive(Debug, Eq, PartialEq)]
pub struct SessionPlan {
    routes: Vec<DomainRoute>,
    primary_camera: Option<CameraId>,
}

impl Clone for SessionPlan {
    fn clone(&self) -> (copy: Self)
        ensures
            copy.content() == self.content(),
            copy.spec_primary_camera() == self.spec_primary_camera(),
    {
        let mut routes: Vec<DomainRoute> = Vec::with_capacity(self.routes.len());
        let ghost all = route_contents(self.routes@);
        let mut index: usize = 0;
        while index < self.routes.len()
            invariant
                index <= self.routes@.len(),
                all == route_contents(self.routes@),
                route_contents(routes@) == all.take(index as int),
            decreases self.routes@.len() - index,
        {
            let copy: DomainRoute = self.routes[index].clone();
            let ghost before = routes@;
            routes.push(copy);
            proof {
                assert(all[index as int] == self.routes@[index as int]@);
                assert(route_contents(routes@) =~= route_contents(before).push(copy@));
                assert(all.take(index + 1) =~= all.take(index as int).push(all[index as int]));
            }
            index = index + 1;
        }
        assert(all.take(all.len() as int) =~= all);
        SessionPlan { routes, primary_camera: self.primary_camera }
    }
}

/// The cameras of a list, with their topics as characters.
pub open spec fn topic_contents(topics: Seq<(CameraId, String)>) -> Seq<(CameraId, Seq<char>)> {
    topics.map_values(|topic: (CameraId, String)| (topic.0, topic.1@))
}

/// The cameras of a list.
pub(crate) fn camera_ids(topics: &[(CameraId, String)]) -> (cameras: Vec<CameraId>)
    ensures
        cameras@ == topic_contents(topics@).map_values(
            |topic: (CameraId, Seq<char>)| topic.0,
        ),
{
    let ghost all = topic_contents(topics@);
    let mut cameras: Vec<CameraId> = Vec::with_capacity(topics.len());
    let mut index: usize = 0;
    while index < topics.len()
        invariant
            index <= topics@.len(),
            all == topic_contents(topics@),
            cameras@ == all.take(index as int).map_values(|topic: (CameraId, Seq<char>)| topic.0),
        decreases topics@.len() - index,
    {
        assert(all[index as int].0 == topics@[index as int].0);
        cameras.push(topics[index].0);
        index = index + 1;
        assert(cameras@ =~= all.take(index as int).map_values(
            |topic: (CameraId, Seq<char>)| topic.0,
        ));
    }
    assert(all.take(all.len() as int) =~= all);
    cameras
}

pub(crate) fn copy_topics(topics: &[(CameraId, String)]) -> (copy: Vec<(CameraId, String)>)
    ensures
        topic_contents(copy@) == topic_contents(topics@),
{
    let ghost all = topic_contents(topics@);
    let mut copy: Vec<(CameraId, String)> = Vec::with_capacity(topics.len());
    let mut index: usize = 0;
    assert(topic_contents(copy@) =~= all.take(0));
    while index < topics.len()
        invariant
            index <= topics@.len(),
            all == topic_contents(topics@),
            topic_contents(copy@) == all.take(index as int),
        decreases topics@.len() - index,
    {
        let ghost before = copy@;
        copy.push((topics[index].0, topics[index].1.as_str().to_owned()));
        index = index + 1;
        proof {
            assert(topic_contents(copy@) =~= topic_contents(before).push(
                all[index - 1],
            ));
            assert(all.take(index as int) =~= all.take(index - 1).push(all[index - 1]));
        }
    }
    assert(all.take(all.len() as int) =~= all);
    copy
}

impl SessionPlan {
    pub closed spec fn content(&self) -> Seq<RouteContent> {
        route_contents(self.routes@)
    }

    pub closed spec fn spec_primary_camera(&self) -> Option<CameraId> {
        self.primary_camera
    }

    /// A plan of given routes.
    pub fn from_routes(routes: Vec<DomainRoute>, primary_camera: Option<CameraId>) -> (plan: Self)
        ensures
            plan.content() == route_contents(routes@),
            plan.spec_primary_camera() == primary_camera,
    {
        SessionPlan { routes, primary_camera }
    }

    /// The same routes with another camera to start on.
    pub fn with_primary_camera(self, primary_camera: Option<CameraId>) -> (plan: Self)
        ensures
            plan.content() == self.content(),
            plan.spec_primary_camera() == primary_camera,
    {
        SessionPlan { routes: self.routes, primary_camera }
    }

    pub fn domain_routes(&self) -> (routes: &[DomainRoute])
        ensures
            route_contents(routes@) == self.content(),
    {
        self.routes.as_slice()
    }

    pub fn primary_camera(&self) -> (camera: Option<CameraId>)
        ensures
            camera == self.spec_primary_camera(),
    {
        self.primary_camera
    }

    /// The stream of the first route to a target.
    pub fn stream_to(&self, target: DomainTarget) -> (stream: Option<StreamId>)
        ensures
            stream == stream_for(self.content(), target),
    {
        let ghost all = self.content();
        let mut index: usize = 0;
        assert(all.skip(0) =~= all);
        while index < self.routes.len()
            invariant
                index <= self.routes@.len(),
                all == route_contents(self.routes@),
                all == self.content(),
                stream_for(all, target) == stream_for(all.skip(index as int), target),
            decreases self.routes@.len() - index,
        {
            proof {
                assert(all[index as int] == self.routes@[index as int]@);
                assert(all.skip(index as int).drop_first() =~= all.skip(index + 1));
            }
            if self.routes[index].target == target {
                return Some(self.routes[index].stream.id);
            }
            index = index + 1;
        }
        None
    }

    /// The cameras of the session with their topics, in order.
    pub fn camera_topics(&self) -> (topics: Vec<(CameraId, String)>)
        ensures
            topic_contents(topics@) == cameras_in(self.content()),
    {
        let ghost all = self.content();
        let mut topics: Vec<(CameraId, String)> = Vec::new();
        let mut index: usize = 0;
        assert(all.take(0) =~= Seq::<RouteContent>::empty());
        assert(topic_contents(topics@) =~= cameras_in(all.take(0)));
        while index < self.routes.len()
            invariant
                index <= self.routes@.len(),
                all == route_contents(self.routes@),
                topic_contents(topics@) == cameras_in(all.take(index as int)),
            decreases self.routes@.len() - index,
        {
            let ghost before = topics@;
            proof {
                assert(all[index as int] == self.routes@[index as int]@);
                assert(all.take(index + 1).drop_last() =~= all.take(index as int));
                assert(all.take(index + 1).last() == all[index as int]);
            }
            if let DomainTarget::Camera(camera) = self.routes[index].target {
                let topic: String = self.routes[index].stream.topic.clone();
                topics.push((camera, topic));
                assert(topic_contents(topics@) =~= topic_contents(before).push((camera, topic@)));
            }
            index = index + 1;
        }
        assert(all.take(all.len() as int) =~= all);
        topics
    }

    /// The identifiers of the streams that are played, in order.
    pub fn selected_stream_ids(&self) -> (ids: Vec<StreamId>)
        ensures
            ids@ == self.content().map_values(|route: RouteContent| route.stream.id),
    {
        let ghost all = self.content();
        let mut ids: Vec<StreamId> = Vec::with_capacity(self.routes.len());
        let mut index: usize = 0;
        while index < self.routes.len()
            invariant
                index <= self.routes@.len(),
                all == route_contents(self.routes@),
                ids@ == all.take(index as int).map_values(|route: RouteContent| route.stream.id),
            decreases self.routes@.len() - index,
        {
            assert(all[index as int] == self.routes@[index as int]@);
            ids.push(self.routes[index].stream.id);
            index = index + 1;
            assert(ids@ =~= all.take(index as int).map_values(
                |route: RouteContent| route.stream.id,
            ));
        }
        assert(all.take(all.len() as int) =~= all);
        ids
    }

    /// The topics that are played, in order.
    pub fn selected_topics(&self) -> (topics: Vec<String>)
        ensures
            topics@.map_values(|topic: String| topic@) == self.content().map_values(
                |route: RouteContent| route.stream.topic,
            ),
    {
        let ghost all = self.content();
        let mut topics: Vec<String> = Vec::with_capacity(self.routes.len());
        let mut index: usize = 0;
        while index < self.routes.len()
            invariant
                index <= self.routes@.len(),
                all == route_contents(self.routes@),
                topics@.map_values(|topic: String| topic@) == all.take(index as int).map_values(
                    |route: RouteContent| route.stream.topic,
                ),
            decreases self.routes@.len() - index,
        {
            let ghost before = topics@;
            assert(all[index as int] == self.routes@[index as int]@);
            topics.push(self.routes[index].stream.topic.clone());
            index = index + 1;
            assert(topics@.map_values(|topic: String| topic@) =~= all.take(
                index as int,
            ).map_values(|route: RouteContent| route.stream.topic)) by {
                assert(topics@.map_values(|topic: String| topic@) =~= before.map_values(
                    |topic: String| topic@,
                ).push(all[index - 1].stream.topic));
            }
        }
        assert(all.take(all.len() as int) =~= all);
        topics
    }
}

/// A target takes a stream only where the stream brings the messages that the target shows.
pub proof fn law_targets_take_their_kind_of_message(
    stream: StreamDescriptor,
    camera: CameraId,
    is_static: bool,
)
    ensures
        stream.message_encoding@ != "cdr"@ ==> forall|target: DomainTarget|
            !(#[trigger] target.spec_accepts(stream@)),
        stream.message_encoding@ == "cdr"@ ==> {
            &&& DomainTarget::Camera(camera).spec_accepts(stream@) <==> stream.schema@
                == "sensor_msgs/msg/CompressedImage"@
            &&& DomainTarget::Path.spec_accepts(stream@) <==> stream.schema@ == "nav_msgs/msg/Path"@
            &&& DomainTarget::Telemetry.spec_accepts(stream@) <==> stream.schema@
                == "nav_msgs/msg/Odometry"@
            &&& DomainTarget::PointCloud.spec_accepts(stream@) <==> stream.schema@
                == "sensor_msgs/msg/LaserScan"@
            &&& (DomainTarget::Transforms { is_static }).spec_accepts(stream@) <==> stream.schema@
                == "tf2_msgs/msg/TFMessage"@
        },
{
}

/// A target is fed by the stream of the first route that leads to it.
pub proof fn law_targets_are_fed_by_their_first_route(
    routes: Seq<DomainRoute>,
    target: DomainTarget,
    first: int,
)
    requires
        0 <= first < routes.len(),
        routes[first].target == target,
        forall|i: int| 0 <= i < first ==> (#[trigger] routes[i]).target != target,
    ensures
        stream_for(route_contents(routes), target) == Some(routes[first].stream.id),
    decreases routes.len(),
{
    let contents = route_contents(routes);
    assert(contents[0] == routes[0]@);
    if first > 0 {
        let rest = routes.drop_first();
        assert(routes[0].target != target);
        assert forall|i: int| 0 <= i < first - 1 implies (#[trigger] rest[i]).target != target by {
            assert(rest[i] == routes[i + 1]);
        }
        law_targets_are_fed_by_their_first_route(rest, target, first - 1);
        assert(contents.drop_first() =~= route_contents(rest));
    }
}

/// A target that no route leads to is not fed.
pub proof fn law_targets_without_a_route_are_not_fed(
    routes: Seq<DomainRoute>,
    target: DomainTarget,
)
    requires
        forall|i: int| 0 <= i < routes.len() ==> (#[trigger] routes[i]).target != target,
    ensures
        stream_for(route_contents(routes), target) is None,
    decreases routes.len(),
{
    if routes.len() > 0 {
        let contents = route_contents(routes);
        let rest = routes.drop_first();
        assert(contents[0] == routes[0]@);
        assert forall|i: int| 0 <= i < rest.len() implies (#[trigger] rest[i]).target != target by {
            assert(rest[i] == routes[i + 1]);
        }
        law_targets_without_a_route_are_not_fed(rest, target);
        assert(contents.drop_first() =~= route_contents(rest));
    }
}

/// Each route to a camera is listed with its topic, in the order of the routes.
pub proof fn law_camera_routes_are_listed(routes: Seq<DomainRoute>)
    ensures
        cameras_in(route_contents(routes)) == routes.filter(
            |route: DomainRoute| route.target is Camera,
        ).map_values(|route: DomainRoute| (route.target->Camera_0, route.stream.topic@)),
    decreases routes.len(),
{
    reveal(Seq::filter);
    let contents = route_contents(routes);
    let shown = |route: DomainRoute| route.target is Camera;
    let named = |route: DomainRoute| (route.target->Camera_0, route.stream.topic@);
    if routes.len() > 0 {
        let rest = routes.drop_last();
        law_camera_routes_are_listed(rest);
        assert(contents.drop_last() =~= route_contents(rest));
        assert(contents.last() == routes.last()@);
        if shown(routes.last()) {
            assert(routes.filter(shown) == rest.filter(shown).push(routes.last()));
            assert(routes.filter(shown).map_values(named) =~= rest.filter(shown).map_values(
                named,
            ).push(named(routes.last())));
        }
    }
    assert(cameras_in(contents) =~= routes.filter(shown).map_values(named));
}

} // verus!

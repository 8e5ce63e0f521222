//! Frames for the renderers, built from the state of the features.

use crate::feature::bev::{self, advance_revision, BevContent, BevState};
use crate::feature::point_cloud::{
    CloudContent, CloudsContent, PointCloudFrame, PointCloudState,
};
use crate::feature::schedule::{self, count_up};
use crate::feature::telemetry::{TelemetriesContent, TelemetryFrame, TelemetryState};
use crate::feature::transform::{
    EdgeContent, TransformRoute, TransformState, TransformsContent,
};
use crate::feature::controllers::path;
use crate::message::float::{self, F32, F64};
use crate::message::text::same_text;
use vstd::prelude::*;
use vstd::string::*;

verus! {

/// What the bird's-eye view shows.
#[derive(Clone, Copy, Debug)]
pub struct BevSnapshot<'a> {
    pub revision: u64,
    /// The planned path, if there is one.
    pub path: Option<&'a [[F32; 2]]>,
}

impl<'a> BevSnapshot<'a> {
    /// The points of the path; none where there is no path.
    pub open spec fn points(self) -> Seq<[F32; 2]> {
        points_of(self.path)
    }
}

/// The points of a path; none where there is no path.
pub open spec fn points_of(path: Option<&[[F32; 2]]>) -> Seq<[F32; 2]> {
    match path {
        Some(points) => points@,
        None => Seq::empty(),
    }
}

/// The points of the latest path.
pub open spec fn latest_points(state: BevContent) -> Seq<[F32; 2]> {
    match state.latest {
        Some(frame) => frame.points,
        None => Seq::empty(),
    }
}

fn path_of<'a>(state: &'a BevState) -> (path: Option<&'a [[F32; 2]]>)
    ensures
        points_of(path) == latest_points(state.content()),
{
    match state.latest() {
        Some(frame) => Some(frame.points.as_slice()),
        None => None,
    }
}

/// Builds what the bird's-eye view shows.
pub struct BevFrameBuilder<'a> {
    state: &'a BevState,
}

impl<'a> BevFrameBuilder<'a> {
    pub closed spec fn content(&self) -> BevContent {
        self.state.content()
    }

    pub fn new(state: &'a BevState) -> (builder: Self)
        ensures
            builder.content() == state.content(),
    {
        BevFrameBuilder { state }
    }

    pub fn build(self) -> (snapshot: BevSnapshot<'a>)
        ensures
            snapshot.revision == self.content().revision,
            snapshot.points() == latest_points(self.content()),
    {
        BevSnapshot { revision: self.state.revision(), path: path_of(self.state) }
    }
}

/// A scan that cannot be placed, as no transform leads from its frame to the shown one.
#[derive(Debug, Eq, PartialEq)]
pub struct SceneTfError {
    pub source_frame: String,
    pub target_frame: String,
}

/// How placing scans went.
#[derive(Debug, Eq, PartialEq)]
pub struct SceneDiagnostics {
    pub tf_misses: u64,
    pub last_tf_route: Option<String>,
    pub current_tf_error: Option<SceneTfError>,
}

/// What diagnostics say.
pub struct SceneDiagnosticsContent {
    pub tf_misses: u64,
    pub last_tf_route: Option<Seq<char>>,
    pub current_tf_error: Option<(Seq<char>, Seq<char>)>,
}

impl View for SceneDiagnostics {
    type V = SceneDiagnosticsContent;

    open spec fn view(&self) -> SceneDiagnosticsContent {
        SceneDiagnosticsContent {
            tf_misses: self.tf_misses,
            last_tf_route: match self.last_tf_route {
                Some(route) => Some(route@),
                None => None,
            },
            current_tf_error: match self.current_tf_error {
                Some(error) => Some((error.source_frame@, error.target_frame@)),
                None => None,
            },
        }
    }
}

impl Default for SceneDiagnostics {
    fn default() -> (diagnostics: Self)
        ensures
            diagnostics@ == SceneDiagnosticsContent::none(),
    {
        SceneDiagnostics { tf_misses: 0, last_tf_route: None, current_tf_error: None }
    }
}

impl SceneDiagnosticsContent {
    pub open spec fn none() -> Self {
        SceneDiagnosticsContent { tf_misses: 0, last_tf_route: None, current_tf_error: None }
    }
}

impl SceneDiagnostics {
    /// The same diagnostics once more.
    pub fn copy(&self) -> (copy: Self)
        ensures
            copy@ == self@,
    {
        SceneDiagnostics {
            tf_misses: self.tf_misses,
            last_tf_route: match &self.last_tf_route {
                Some(route) => Some(route.as_str().to_owned()),
                None => None,
            },
            current_tf_error: match &self.current_tf_error {
                Some(error) => Some(
                    SceneTfError {
                        source_frame: error.source_frame.as_str().to_owned(),
                        target_frame: error.target_frame.as_str().to_owned(),
                    },
                ),
                None => None,
            },
        }
    }
}

/// What the scene shows. The points of the scan lie where the route of the builder takes them.
#[derive(Debug)]
pub struct SceneSnapshot<'a> {
    pub revision: u64,
    pub cloud_revision: u64,
    pub ego_position: [F32; 2],
    /// The vehicle's attitude, from which its yaw follows; it heads forward where there is none.
    pub ego_orientation: Option<[F64; 4]>,
    pub path: Option<&'a [[F32; 2]]>,
    /// The scan, where it can be placed.
    pub cloud: Option<&'a PointCloudFrame>,
    pub accumulate: bool,
    pub diagnostics: SceneDiagnostics,
}

/// What a builder holds.
pub struct SceneBuilderContent {
    pub source_revision: Option<u64>,
    pub transform_revision: u64,
    pub target_frame: Seq<char>,
    pub output_revision: u64,
    pub route: Option<(Seq<EdgeContent>, Seq<EdgeContent>)>,
    pub diagnostics: SceneDiagnosticsContent,
}

/// The frame in which the scene is shown: that of the vehicle's position.
pub open spec fn shown_frame(telemetry: TelemetriesContent) -> Seq<char> {
    match telemetry.latest {
        Some(frame) => frame.frame_id,
        None => "odom"@,
    }
}

impl SceneBuilderContent {
    /// A builder that has built nothing.
    pub open spec fn fresh() -> Self {
        SceneBuilderContent {
            source_revision: None,
            transform_revision: 0,
            target_frame: Seq::empty(),
            output_revision: 0,
            route: None,
            diagnostics: SceneDiagnosticsContent::none(),
        }
    }

    /// There is another scan, or it is shown in another frame.
    pub open spec fn source_changed(self, target: Seq<char>, clouds: CloudsContent) -> bool {
        self.source_revision != Some(clouds.revision) || self.target_frame != target
    }

    /// The scan is to be placed: it changed, or it could not be placed and transforms came in.
    pub open spec fn places(
        self,
        target: Seq<char>,
        clouds: CloudsContent,
        transforms: TransformsContent,
    ) -> bool {
        self.source_changed(target, clouds) || (self.diagnostics.current_tf_error is Some
            && self.transform_revision != transforms.revision)
    }

    /// The builder once a scan was placed, or could not be.
    pub open spec fn with_scan(
        self,
        target: Seq<char>,
        scan: CloudContent,
        counts: bool,
        transforms: TransformsContent,
    ) -> Self {
        match transforms.route(scan.frame_id, target, Some(scan.measurement_time)) {
            Some(route) => SceneBuilderContent {
                route: Some(route),
                diagnostics: SceneDiagnosticsContent {
                    last_tf_route: Some(scan.frame_id + " → "@ + target),
                    current_tf_error: None,
                    ..self.diagnostics
                },
                ..self
            },
            None => SceneBuilderContent {
                route: None,
                diagnostics: SceneDiagnosticsContent {
                    tf_misses: if counts {
                        schedule::counted(self.diagnostics.tf_misses)
                    } else {
                        self.diagnostics.tf_misses
                    },
                    current_tf_error: Some((scan.frame_id, target)),
                    ..self.diagnostics
                },
                ..self
            },
        }
    }

    /// The builder once it was shown the state of the features.
    pub open spec fn built(
        self,
        target: Seq<char>,
        clouds: CloudsContent,
        transforms: TransformsContent,
    ) -> Self {
        if !self.places(target, clouds, transforms) {
            self
        } else {
            let counts = self.source_changed(target, clouds);
            let noted = SceneBuilderContent {
                source_revision: Some(clouds.revision),
                transform_revision: transforms.revision,
                target_frame: target,
                output_revision: bev::next_revision(self.output_revision),
                ..self
            };
            match clouds.latest {
                Some(scan) => noted.with_scan(target, scan, counts, transforms),
                None => SceneBuilderContent {
                    route: None,
                    diagnostics: SceneDiagnosticsContent {
                        current_tf_error: None,
                        ..noted.diagnostics
                    },
                    ..noted
                },
            }
        }
    }
}

/// A number that changes with the path and with the time of the telemetry.
pub open spec fn scene_revision(path: u64, telemetry: u64) -> u64 {
    ((path << 17) | (path >> 47)) ^ telemetry
}

/// A time as an unsigned number: negative times stand behind all others.
pub open spec fn unsigned_time(time: i64) -> u64 {
    if time < 0 {
        (time + 0x1_0000_0000_0000_0000) as u64
    } else {
        time as u64
    }
}

/// The number for the telemetry: its arrival time.
pub open spec fn telemetry_revision(telemetry: TelemetriesContent) -> u64 {
    match telemetry.latest {
        Some(frame) => unsigned_time(frame.arrival_time.0),
        None => 0,
    }
}

/// The position of the vehicle, to single precision.
pub open spec fn ego_position(telemetry: TelemetriesContent) -> Seq<F32> {
    match telemetry.latest {
        Some(frame) => seq![frame.position_x.spec_single(), frame.position_y.spec_single()],
        None => seq![F32(0), F32(0)],
    }
}

/// Builds what the scene shows. A scan is placed once, with the transforms of its time, and stays
/// where it was placed.
#[derive(Debug)]
pub struct SceneFrameBuilder {
    source_revision: Option<u64>,
    transform_revision: u64,
    target_frame: String,
    output_revision: u64,
    route: Option<TransformRoute>,
    diagnostics: SceneDiagnostics,
}

impl Default for SceneFrameBuilder {
    fn default() -> (builder: Self)
        ensures
            builder.content() == SceneBuilderContent::fresh(),
    {
        let target_frame: String = String::new();
        assert(target_frame@ =~= Seq::empty());
        SceneFrameBuilder {
            source_revision: None,
            transform_revision: 0,
            target_frame,
            output_revision: 0,
            route: None,
            diagnostics: SceneDiagnostics::default(),
        }
    }
}

impl SceneFrameBuilder {
    pub closed spec fn content(&self) -> SceneBuilderContent {
        SceneBuilderContent {
            source_revision: self.source_revision,
            transform_revision: self.transform_revision,
            target_frame: self.target_frame@,
            output_revision: self.output_revision,
            route: match self.route {
                Some(route) => Some(route@),
                None => None,
            },
            diagnostics: self.diagnostics@,
        }
    }

    pub fn new() -> (builder: Self)
        ensures
            builder.content() == SceneBuilderContent::fresh(),
    {
        SceneFrameBuilder::default()
    }

    pub fn reset(&mut self)
        ensures
            final(self).content() == SceneBuilderContent::fresh(),
    {
        *self = SceneFrameBuilder::default();
    }

    pub fn diagnostics(&self) -> (diagnostics: &SceneDiagnostics)
        ensures
            diagnostics@ == self.content().diagnostics,
    {
        &self.diagnostics
    }

    /// How the points of the scan get to where they are shown, if the scan can be placed.
    pub fn cloud_route(&self) -> (route: Option<&TransformRoute>)
        ensures
            match route {
                Some(route) => self.content().route == Some(route@),
                None => self.content().route is None,
            },
    {
        match &self.route {
            Some(route) => Some(route),
            None => None,
        }
    }

    fn place_scan(
        &mut self,
        target: &str,
        scan: &PointCloudFrame,
        counts: bool,
        transforms: &TransformState,
    )
        requires
            transforms.well_formed(),
        ensures
            final(self).content() == old(self).content().with_scan(
                target@,
                scan@,
                counts,
                transforms.content(),
            ),
    {
        match transforms.resolve(scan.frame_id.as_str(), target, Some(scan.measurement_time)) {
            Some(route) => {
                self.route = Some(route);
                let mut words: String = scan.frame_id.as_str().to_owned();
                words.append(" → ");
                words.append(target);
                self.diagnostics.last_tf_route = Some(words);
                self.diagnostics.current_tf_error = None;
            },
            None => {
                self.route = None;
                if counts {
                    self.diagnostics.tf_misses = count_up(self.diagnostics.tf_misses);
                }
                self.diagnostics.current_tf_error = Some(
                    SceneTfError {
                        source_frame: scan.frame_id.as_str().to_owned(),
                        target_frame: target.to_owned(),
                    },
                );
            },
        }
    }

    fn update(&mut self, target: &str, point_cloud: &PointCloudState, transforms: &TransformState)
        requires
            transforms.well_formed(),
        ensures
            final(self).content() == old(self).content().built(
                target@,
                point_cloud.content(),
                transforms.content(),
            ),
    {
        let cloud_revision: u64 = point_cloud.revision();
        let transform_revision: u64 = transforms.revision();
        let same_source: bool = match self.source_revision {
            Some(revision) => revision == cloud_revision,
            None => false,
        };
        let source_changed: bool = !same_source || !same_text(self.target_frame.as_str(), target);
        let retry_missing_tf: bool = self.diagnostics.current_tf_error.is_some()
            && self.transform_revision != transform_revision;
        if source_changed || retry_missing_tf {
            self.source_revision = Some(cloud_revision);
            self.transform_revision = transform_revision;
            self.target_frame = target.to_owned();
            self.output_revision = advance_revision(self.output_revision);
            match point_cloud.latest() {
                Some(scan) => {
                    self.place_scan(target, scan, source_changed, transforms);
                },
                None => {
                    self.route = None;
                    self.diagnostics.current_tf_error = None;
                },
            }
        }
    }

    /// What the scene shows of the state of the features.
    pub fn build<'a>(
        &mut self,
        path: &'a BevState,
        telemetry: &'a TelemetryState,
        point_cloud: &'a PointCloudState,
        transforms: &TransformState,
        accumulate: bool,
    ) -> (snapshot: SceneSnapshot<'a>)
        requires
            transforms.well_formed(),
        ensures
            ({
                let after = old(self).content().built(
                    shown_frame(telemetry.content()),
                    point_cloud.content(),
                    transforms.content(),
                );
                &&& final(self).content() == after
                &&& snapshot.revision == scene_revision(
                    path.content().revision,
                    telemetry_revision(telemetry.content()),
                )
                &&& snapshot.cloud_revision == after.output_revision
                &&& snapshot.ego_position@ == ego_position(telemetry.content())
                &&& snapshot.ego_orientation == (match telemetry.content().latest {
                    Some(frame) => Some(frame.orientation),
                    None => None,
                })
                &&& points_of(snapshot.path) == latest_points(path.content())
                &&& match snapshot.cloud {
                    Some(scan) => after.route is Some && point_cloud.content().latest == Some(
                        scan@,
                    ),
                    None => after.route is None || point_cloud.content().latest is None,
                }
                &&& snapshot.accumulate == accumulate
                &&& snapshot.diagnostics@ == after.diagnostics
            }),
    {
        let latest: Option<&TelemetryFrame> = telemetry.latest();
        let target: &str = match latest {
            Some(frame) => frame.frame_id.as_str(),
            None => "odom",
        };
        self.update(target, point_cloud, transforms);
        let telemetry_revision: u64 = match latest {
            Some(frame) => revision_of(frame.arrival_time.0),
            None => 0,
        };
        let path_revision: u64 = path.revision();
        let ego_position: [F32; 2] = match latest {
            Some(frame) => [frame.position_x.single(), frame.position_y.single()],
            None => [F32(0), F32(0)],
        };
        assert(ego_position@ =~= self::ego_position(telemetry.content()));
        SceneSnapshot {
            revision: ((path_revision << 17) | (path_revision >> 47)) ^ telemetry_revision,
            cloud_revision: self.output_revision,
            ego_position,
            ego_orientation: match latest {
                Some(frame) => Some(frame.orientation),
                None => None,
            },
            path: path_of(path),
            cloud: if self.route.is_some() {
                point_cloud.latest()
            } else {
                None
            },
            accumulate,
            diagnostics: self.diagnostics.copy(),
        }
    }
}

fn revision_of(time: i64) -> (revision: u64)
    ensures
        revision == unsigned_time(time),
{
    if time < 0 {
        (time as i128 + 0x1_0000_0000_0000_0000) as u64
    } else {
        time as u64
    }
}

/// A scan that was placed stays where it is while it is the current one and shown in the same
/// frame, whatever transforms come in.
pub proof fn law_placed_scans_stay(
    builder: SceneBuilderContent,
    target: Seq<char>,
    clouds: CloudsContent,
    before: TransformsContent,
    after: TransformsContent,
)
    ensures
        ({
            let first = builder.built(target, clouds, before);
            first.diagnostics.current_tf_error is None ==> first.built(target, clouds, after)
                == first
        }),
{
}

/// A scan that could not be placed is tried again as soon as transforms come in, and is counted
/// only once.
pub proof fn law_missing_transforms_are_retried(
    builder: SceneBuilderContent,
    target: Seq<char>,
    clouds: CloudsContent,
    before: TransformsContent,
    after: TransformsContent,
)
    requires
        builder.source_changed(target, clouds),
        before.revision != after.revision,
    ensures
        ({
            let first = builder.built(target, clouds, before);
            let second = first.built(target, clouds, after);
            first.diagnostics.current_tf_error is Some ==> {
                &&& second.diagnostics.tf_misses == first.diagnostics.tf_misses
                &&& second.output_revision == bev::next_revision(first.output_revision)
                &&& second.route is Some <==> second.diagnostics.current_tf_error is None
            }
        }),
{
}

/// The vehicle stands in the scene where its telemetry says, to single precision: on the same side of
/// both axes, and, with numbers of full precision, off by half a step at most.
pub proof fn law_the_vehicle_stands_where_it_is(telemetry: TelemetriesContent, frame: TelemetryFrame)
    requires
        telemetry.latest == Some(frame@),
        frame.position_x.spec_finite(),
        frame.position_y.spec_finite(),
    ensures
        ({
            let shown = ego_position(telemetry);
            let (x, y) = (frame.position_x, frame.position_y);
            &&& shown.len() == 2
            &&& x.rank() >= 0 ==> shown[0].rank() >= 0
            &&& x.rank() <= 0 ==> shown[0].rank() <= 0
            &&& y.rank() >= 0 ==> shown[1].rank() >= 0
            &&& y.rank() <= 0 ==> shown[1].rank() <= 0
            &&& 897 <= x.spec_exponent() <= 1150 ==> path::within_half_a_step(
                x.rank(),
                shown[0].rank(),
            )
            &&& 897 <= y.spec_exponent() <= 1150 ==> path::within_half_a_step(
                y.rank(),
                shown[1].rank(),
            )
        }),
{
    float::law_narrowing_keeps_the_number(frame.position_x);
    float::law_narrowing_keeps_the_number(frame.position_y);
}

/// A new scan is placed by the way from its own frame to the shown one at the time that it was
/// measured; where there is no way it is not shown, the miss is counted, and the two frames are named.
pub proof fn law_scans_are_placed_at_their_time(
    builder: SceneBuilderContent,
    telemetry: TelemetriesContent,
    clouds: CloudsContent,
    transforms: TransformsContent,
)
    requires
        clouds.latest is Some,
        builder.source_revision != Some(clouds.revision),
        builder.diagnostics.tf_misses < u64::MAX,
    ensures
        ({
            let scan = clouds.latest->0;
            let target = match telemetry.latest {
                Some(frame) => frame.frame_id,
                None => "odom"@,
            };
            let way = transforms.route(scan.frame_id, target, Some(scan.measurement_time));
            let after = builder.built(shown_frame(telemetry), clouds, transforms);
            &&& after.route == way
            &&& after.output_revision != builder.output_revision
            &&& way is Some ==> after.diagnostics.tf_misses == builder.diagnostics.tf_misses
                && after.diagnostics.current_tf_error is None
            &&& way is None ==> after.diagnostics.tf_misses == builder.diagnostics.tf_misses + 1
                && after.diagnostics.current_tf_error == Some((scan.frame_id, target))
        }),
{
}

/// Another path, or telemetry of another time, is another revision of the scene.
pub proof fn law_scenes_are_revised(path: u64, other_path: u64, telemetry: u64, other: u64)
    ensures
        path != other_path ==> scene_revision(path, telemetry) != scene_revision(
            other_path,
            telemetry,
        ),
        telemetry != other ==> scene_revision(path, telemetry) != scene_revision(path, other),
{
    assert(path != other_path ==> ((path << 17) | (path >> 47)) ^ telemetry != ((other_path << 17)
        | (other_path >> 47)) ^ telemetry) by (bit_vector);
    assert(telemetry != other ==> ((path << 17) | (path >> 47)) ^ telemetry != ((path << 17) | (path
        >> 47)) ^ other) by (bit_vector);
}

} // verus!

//! The layers of the renderers: what has to be uploaded, how large the buffers are, and when to
//! render.

use crate::feature::schedule::{self, count_up};
use crate::message::float::F32;
use vstd::arithmetic::power2::*;
use vstd::prelude::*;

verus! {

/// The most points that a scene keeps.
pub const MAX_ACCUMULATED_POINTS: usize = 65_536;

/// The capacity is the smallest power of two that holds so many items.
pub open spec fn fits(capacity: usize, needed: usize) -> bool {
    &&& needed <= capacity
    &&& capacity == 1 || capacity < 2 * needed
    &&& exists|power: nat| capacity == #[trigger] pow2(power)
}

/// The smallest power of two that holds so many items.
pub fn capacity_for(needed: usize) -> (capacity: usize)
    requires
        needed <= isize::MAX,
    ensures
        fits(capacity, needed),
{
    let mut capacity: usize = 1;
    let ghost mut power: nat = 0;
    proof {
        lemma2_to64();
    }
    while capacity < needed
        invariant
            needed <= isize::MAX,
            1 <= capacity,
            capacity == 1 || capacity < 2 * needed,
            capacity == pow2(power),
        decreases 2 * needed - capacity,
    {
        proof {
            lemma_pow2_unfold(power + 1);
            power = power + 1;
        }
        capacity = capacity * 2;
    }
    capacity
}

/// A count as far as a drawing call reaches.
pub open spec fn drawn(count: nat) -> u32 {
    if count > u32::MAX {
        u32::MAX
    } else {
        count as u32
    }
}

fn draw_count(count: usize) -> (drawn_count: u32)
    ensures
        drawn_count == drawn(count as nat),
{
    if count > u32::MAX as usize {
        u32::MAX
    } else {
        count as u32
    }
}

/// A side of a target, which has at least one pixel.
pub open spec fn side(length: u32) -> u32 {
    if length < 1 {
        1
    } else {
        length
    }
}

fn at_least_one(length: u32) -> (result: u32)
    ensures
        result == side(length),
{
    if length < 1 {
        1
    } else {
        length
    }
}

/// What a bird's-eye view did.
#[derive(Clone, Copy, Debug, Eq, PartialEq, Structural)]
pub struct BevMetrics {
    pub target_creations: u64,
    pub layer_uploads: u64,
    pub renders: u64,
}

impl Default for BevMetrics {
    fn default() -> (metrics: Self)
        ensures
            metrics == (BevMetrics { target_creations: 0, layer_uploads: 0, renders: 0 }),
    {
        BevMetrics { target_creations: 0, layer_uploads: 0, renders: 0 }
    }
}

/// The two ends of each piece of a path.
pub open spec fn segments(path: Seq<[F32; 2]>) -> Seq<[F32; 4]> {
    Seq::new(
        if path.len() == 0 {
            0
        } else {
            (path.len() - 1) as nat
        },
        |i: int| [path[i]@[0], path[i]@[1], path[i + 1]@[0], path[i + 1]@[1]],
    )
}

fn path_segments(path: &[[F32; 2]]) -> (pieces: Vec<[F32; 4]>)
    ensures
        pieces@ == segments(path@),
{
    let mut pieces: Vec<[F32; 4]> = Vec::new();
    let mut index: usize = 0;
    if path.len() == 0 {
        assert(pieces@ =~= segments(path@));
        return pieces;
    }
    while index < path.len() - 1
        invariant
            0 < path@.len(),
            index <= path@.len() - 1,
            pieces@ == segments(path@).take(index as int),
        decreases path@.len() - 1 - index,
    {
        pieces.push([path[index][0], path[index][1], path[index + 1][0], path[index + 1][1]]);
        index = index + 1;
        assert(pieces@ =~= segments(path@).take(index as int));
    }
    assert(segments(path@).take(segments(path@).len() as int) =~= segments(path@));
    pieces
}

/// The path of a bird's-eye view that has to be uploaded.
#[derive(Debug)]
pub struct PathUpload {
    pub segments: Vec<[F32; 4]>,
    /// The buffer to make, in segments, where the one that there is is too small.
    pub new_capacity: Option<usize>,
}

/// The path layer of a bird's-eye view and the target that it is drawn on.
#[derive(Clone, Copy, Debug, Eq, PartialEq, Structural)]
pub struct BevLayer {
    pub width: u32,
    pub height: u32,
    pub path_capacity: usize,
    pub path_segment_count: u32,
    pub last_revision: Option<u64>,
    pub metrics: BevMetrics,
}

impl BevLayer {
    pub fn new(width: u32, height: u32) -> (layer: Self)
        ensures
            layer == (BevLayer {
                width: side(width),
                height: side(height),
                path_capacity: 1,
                path_segment_count: 0,
                last_revision: None,
                metrics: BevMetrics { target_creations: 1, layer_uploads: 0, renders: 0 },
            }),
    {
        BevLayer {
            width: at_least_one(width),
            height: at_least_one(height),
            path_capacity: 1,
            path_segment_count: 0,
            last_revision: None,
            metrics: BevMetrics { target_creations: 1, layer_uploads: 0, renders: 0 },
        }
    }

    /// Changes the size. Whether a new target is to be made comes back.
    pub fn resize(&mut self, width: u32, height: u32) -> (resized: bool)
        ensures
            resized == (side(width) != old(self).width || side(height) != old(self).height),
            *final(self) == (if resized {
                BevLayer {
                    width: side(width),
                    height: side(height),
                    metrics: BevMetrics {
                        target_creations: schedule::counted(old(self).metrics.target_creations),
                        ..old(self).metrics
                    },
                    ..*old(self)
                }
            } else {
                *old(self)
            }),
    {
        let width: u32 = at_least_one(width);
        let height: u32 = at_least_one(height);
        if width == self.width && height == self.height {
            return false;
        }
        self.width = width;
        self.height = height;
        self.metrics.target_creations = count_up(self.metrics.target_creations);
        true
    }

    /// The layer shows another revision than this.
    pub open spec fn outdated(self, revision: u64) -> bool {
        self.last_revision != Some(revision)
    }

    pub fn needs_render(&self, revision: u64) -> (needed: bool)
        ensures
            needed == self.outdated(revision),
    {
        match self.last_revision {
            Some(last) => last != revision,
            None => true,
        }
    }

    /// What to upload for a path, where the layer does not show it yet.
    pub fn prepare(&mut self, revision: u64, path: &[[F32; 2]]) -> (upload: Option<PathUpload>)
        requires
            path@.len() <= isize::MAX,
        ensures
            match upload {
                None => !old(self).outdated(revision) && *final(self) == *old(self),
                Some(upload) => {
                    let count = segments(path@).len();
                    &&& old(self).outdated(revision)
                    &&& upload.segments@ == segments(path@)
                    &&& match upload.new_capacity {
                        None => count <= old(self).path_capacity && final(self).path_capacity
                            == old(self).path_capacity,
                        Some(capacity) => count > old(self).path_capacity && fits(
                            capacity,
                            count as usize,
                        ) && final(self).path_capacity == capacity,
                    }
                    &&& *final(self) == (BevLayer {
                        path_capacity: final(self).path_capacity,
                        path_segment_count: drawn(count),
                        metrics: BevMetrics {
                            layer_uploads: schedule::counted(old(self).metrics.layer_uploads),
                            ..old(self).metrics
                        },
                        ..*old(self)
                    })
                },
            },
    {
        if !self.needs_render(revision) {
            return None;
        }
        let segments: Vec<[F32; 4]> = path_segments(path);
        let count: usize = segments.len();
        let new_capacity: Option<usize> = if count > self.path_capacity {
            let capacity: usize = capacity_for(count);
            self.path_capacity = capacity;
            Some(capacity)
        } else {
            None
        };
        self.path_segment_count = draw_count(count);
        self.metrics.layer_uploads = count_up(self.metrics.layer_uploads);
        Some(PathUpload { segments, new_capacity })
    }

    /// Takes note that a revision was rendered.
    pub fn rendered(&mut self, revision: u64)
        ensures
            *final(self) == (BevLayer {
                last_revision: Some(revision),
                metrics: BevMetrics {
                    renders: schedule::counted(old(self).metrics.renders),
                    ..old(self).metrics
                },
                ..*old(self)
            }),
            !final(self).outdated(revision),
    {
        self.last_revision = Some(revision);
        self.metrics.renders = count_up(self.metrics.renders);
    }

    pub fn size(&self) -> (size: (u32, u32))
        ensures
            size == (self.width, self.height),
    {
        (self.width, self.height)
    }

    pub fn metrics(&self) -> (metrics: BevMetrics)
        ensures
            metrics == self.metrics,
    {
        self.metrics
    }
}

/// What a scene did.
#[derive(Clone, Copy, Debug, Eq, PartialEq, Structural)]
pub struct SceneMetrics {
    pub target_creations: u64,
    pub layer_uploads: u64,
    pub point_uploads: u64,
    pub renders: u64,
}

impl Default for SceneMetrics {
    fn default() -> (metrics: Self)
        ensures
            metrics == (SceneMetrics {
                target_creations: 0,
                layer_uploads: 0,
                point_uploads: 0,
                renders: 0,
            }),
    {
        SceneMetrics { target_creations: 0, layer_uploads: 0, point_uploads: 0, renders: 0 }
    }
}

/// A ROS point, forward, left and up, as a point of the scene: right, up and backward.
pub open spec fn world_point(point: [F32; 3]) -> [F32; 3] {
    [point@[1].spec_negated(), point@[2], point@[0].spec_negated()]
}

/// The points of the scene.
pub open spec fn world_points(cloud: Seq<[F32; 3]>) -> Seq<[F32; 3]> {
    cloud.map_values(|point: [F32; 3]| world_point(point))
}

/// The last points, as many as a scene keeps.
pub open spec fn kept(points: Seq<[F32; 3]>) -> Seq<[F32; 3]> {
    if points.len() > MAX_ACCUMULATED_POINTS {
        points.skip(points.len() - MAX_ACCUMULATED_POINTS)
    } else {
        points
    }
}

/// The points that a scene shows once it was shown a scan. Scans are collected, or only the last
/// one is shown. No scan clears them.
pub open spec fn accumulated(
    points: Seq<[F32; 3]>,
    cloud: Seq<[F32; 3]>,
    accumulate: bool,
    cloud_changed: bool,
    mode_changed: bool,
) -> Seq<[F32; 3]> {
    if cloud.len() == 0 {
        Seq::empty()
    } else if cloud_changed {
        kept(
            if accumulate {
                points + world_points(cloud)
            } else {
                world_points(cloud)
            },
        )
    } else if mode_changed && !accumulate {
        kept(world_points(cloud))
    } else {
        kept(points)
    }
}

fn push_world_points(points: &mut Vec<[F32; 3]>, cloud: &[[F32; 3]])
    ensures
        final(points)@ == old(points)@ + world_points(cloud@),
{
    let ghost before = points@;
    let mut index: usize = 0;
    assert(points@ =~= before + world_points(cloud@).take(0));
    while index < cloud.len()
        invariant
            index <= cloud@.len(),
            points@ == before + world_points(cloud@).take(index as int),
        decreases cloud@.len() - index,
    {
        points.push([cloud[index][1].negated(), cloud[index][2], cloud[index][0].negated()]);
        index = index + 1;
        assert(points@ =~= before + world_points(cloud@).take(index as int));
    }
    assert(world_points(cloud@).take(cloud@.len() as int) =~= world_points(cloud@));
}

fn drop_oldest(points: &mut Vec<[F32; 3]>)
    ensures
        final(points)@ == kept(old(points)@),
{
    if points.len() > MAX_ACCUMULATED_POINTS {
        let mut rest: Vec<[F32; 3]> = points.split_off(points.len() - MAX_ACCUMULATED_POINTS);
        std::mem::swap(points, &mut rest);
        assert(points@ =~= kept(old(points)@));
    }
}

/// Brings the points of a scene up to date with a scan.
pub fn update_accumulated_cloud(
    points: &mut Vec<[F32; 3]>,
    cloud: &[[F32; 3]],
    accumulate: bool,
    cloud_changed: bool,
    mode_changed: bool,
)
    ensures
        final(points)@ == accumulated(
            old(points)@,
            cloud@,
            accumulate,
            cloud_changed,
            mode_changed,
        ),
{
    if cloud.len() == 0 {
        points.clear();
        return;
    }
    if cloud_changed {
        if !accumulate {
            points.clear();
        }
        push_world_points(points, cloud);
        assert(!accumulate ==> Seq::<[F32; 3]>::empty() + world_points(cloud@) =~= world_points(
            cloud@,
        ));
    } else if mode_changed && !accumulate {
        points.clear();
        push_world_points(points, cloud);
        assert(Seq::<[F32; 3]>::empty() + world_points(cloud@) =~= world_points(cloud@));
    }
    drop_oldest(points);
}

/// A scene keeps a bounded number of points: the latest ones.
pub proof fn law_scenes_are_bounded(
    points: Seq<[F32; 3]>,
    cloud: Seq<[F32; 3]>,
    accumulate: bool,
    cloud_changed: bool,
    mode_changed: bool,
)
    ensures
        accumulated(points, cloud, accumulate, cloud_changed, mode_changed).len()
            <= MAX_ACCUMULATED_POINTS,
{
}

/// A scene that gets no new scan and stays in its mode keeps its points.
pub proof fn law_poses_do_not_move_points(
    points: Seq<[F32; 3]>,
    cloud: Seq<[F32; 3]>,
    accumulate: bool,
)
    requires
        points.len() <= MAX_ACCUMULATED_POINTS,
        cloud.len() > 0,
    ensures
        accumulated(points, cloud, accumulate, false, false) == points,
{
}

/// What a scene is to show, but for its pose and its lines.
#[derive(Clone, Copy, Debug, Eq, PartialEq, Structural)]
pub struct SceneKey {
    pub revision: u64,
    pub cloud_revision: u64,
    pub accumulate: bool,
}

/// What a scene holds.
pub struct SceneLayersContent {
    pub width: u32,
    pub height: u32,
    pub line_capacity: usize,
    pub line_vertices: u32,
    pub point_capacity: usize,
    pub point_count: u32,
    pub points: Seq<[F32; 3]>,
    pub last_revision: Option<u64>,
    pub last_cloud_revision: Option<u64>,
    pub last_accumulate: bool,
    pub camera_dirty: bool,
    pub metrics: SceneMetrics,
}

impl SceneLayersContent {
    pub open spec fn fresh(width: u32, height: u32) -> Self {
        SceneLayersContent {
            width: side(width),
            height: side(height),
            line_capacity: 1,
            line_vertices: 0,
            point_capacity: 1,
            point_count: 0,
            points: Seq::empty(),
            last_revision: None,
            last_cloud_revision: None,
            last_accumulate: false,
            camera_dirty: true,
            metrics: SceneMetrics {
                target_creations: 1,
                layer_uploads: 0,
                point_uploads: 0,
                renders: 0,
            },
        }
    }

    /// Something to show differs from what is shown.
    pub open spec fn outdated(self, key: SceneKey) -> bool {
        ||| self.last_revision != Some(key.revision)
        ||| self.points_outdated(key)
        ||| self.camera_dirty
    }

    /// Other points are to be shown.
    pub open spec fn points_outdated(self, key: SceneKey) -> bool {
        self.last_cloud_revision != Some(key.cloud_revision) || self.last_accumulate
            != key.accumulate
    }

    /// The points once the scene was shown a scan.
    pub open spec fn points_with(self, key: SceneKey, cloud: Seq<[F32; 3]>) -> Seq<[F32; 3]> {
        accumulated(
            self.points,
            cloud,
            key.accumulate,
            self.last_cloud_revision != Some(key.cloud_revision),
            self.last_accumulate != key.accumulate,
        )
    }
}

/// The lines and points of a scene and the target that they are drawn on.
#[derive(Debug)]
pub struct SceneLayers {
    width: u32,
    height: u32,
    line_capacity: usize,
    line_vertices: u32,
    point_capacity: usize,
    point_count: u32,
    accumulated_points: Vec<[F32; 3]>,
    last_revision: Option<u64>,
    last_cloud_revision: Option<u64>,
    last_accumulate: bool,
    camera_dirty: bool,
    metrics: SceneMetrics,
}

fn differs(last: Option<u64>, revision: u64) -> (is: bool)
    ensures
        is == (last != Some(revision)),
{
    match last {
        Some(last) => last != revision,
        None => true,
    }
}

impl SceneLayers {
    pub closed spec fn content(&self) -> SceneLayersContent {
        SceneLayersContent {
            width: self.width,
            height: self.height,
            line_capacity: self.line_capacity,
            line_vertices: self.line_vertices,
            point_capacity: self.point_capacity,
            point_count: self.point_count,
            points: self.accumulated_points@,
            last_revision: self.last_revision,
            last_cloud_revision: self.last_cloud_revision,
            last_accumulate: self.last_accumulate,
            camera_dirty: self.camera_dirty,
            metrics: self.metrics,
        }
    }

    pub fn new(width: u32, height: u32) -> (layers: Self)
        ensures
            layers.content() == SceneLayersContent::fresh(width, height),
    {
        SceneLayers {
            width: at_least_one(width),
            height: at_least_one(height),
            line_capacity: 1,
            line_vertices: 0,
            point_capacity: 1,
            point_count: 0,
            accumulated_points: Vec::new(),
            last_revision: None,
            last_cloud_revision: None,
            last_accumulate: false,
            camera_dirty: true,
            metrics: SceneMetrics {
                target_creations: 1,
                layer_uploads: 0,
                point_uploads: 0,
                renders: 0,
            },
        }
    }

    /// Changes the size. Whether new targets are to be made comes back.
    pub fn resize(&mut self, width: u32, height: u32) -> (resized: bool)
        ensures
            resized == (side(width) != old(self).content().width || side(height) != old(
                self
            ).content().height),
            final(self).content() == (if resized {
                SceneLayersContent {
                    width: side(width),
                    height: side(height),
                    metrics: SceneMetrics {
                        target_creations: schedule::counted(
                            old(self).content().metrics.target_creations,
                        ),
                        ..old(self).content().metrics
                    },
                    ..old(self).content()
                }
            } else {
                old(self).content()
            }),
    {
        let width: u32 = at_least_one(width);
        let height: u32 = at_least_one(height);
        if width == self.width && height == self.height {
            return false;
        }
        self.width = width;
        self.height = height;
        self.metrics.target_creations = count_up(self.metrics.target_creations);
        true
    }

    pub fn needs_render(&self, key: SceneKey) -> (needed: bool)
        ensures
            needed == self.content().outdated(key),
    {
        differs(self.last_revision, key.revision) || differs(
            self.last_cloud_revision,
            key.cloud_revision,
        ) || self.last_accumulate != key.accumulate || self.camera_dirty
    }

    /// Whether lines are to be uploaded.
    pub fn lines_changed(&self, revision: u64) -> (changed: bool)
        ensures
            changed == (self.content().last_revision != Some(revision)),
    {
        differs(self.last_revision, revision)
    }

    /// Takes note of lines to upload. The buffer to make comes back, in vertices, where the one
    /// that there is is too small.
    pub fn upload_lines(&mut self, vertices: usize) -> (new_capacity: Option<usize>)
        requires
            vertices <= isize::MAX,
        ensures
            match new_capacity {
                None => vertices <= old(self).content().line_capacity
                    && final(self).content().line_capacity == old(self).content().line_capacity,
                Some(capacity) => vertices > old(self).content().line_capacity && fits(
                    capacity,
                    vertices,
                ) && final(self).content().line_capacity == capacity,
            },
            final(self).content() == (SceneLayersContent {
                line_capacity: final(self).content().line_capacity,
                line_vertices: drawn(vertices as nat),
                metrics: SceneMetrics {
                    layer_uploads: schedule::counted(old(self).content().metrics.layer_uploads),
                    ..old(self).content().metrics
                },
                ..old(self).content()
            }),
    {
        let new_capacity: Option<usize> = if vertices > self.line_capacity {
            let capacity: usize = capacity_for(vertices);
            self.line_capacity = capacity;
            Some(capacity)
        } else {
            None
        };
        self.line_vertices = draw_count(vertices);
        self.metrics.layer_uploads = count_up(self.metrics.layer_uploads);
        new_capacity
    }

    /// Brings the points up to date. Whether they are to be uploaded comes back, and the buffer to
    /// make, in points, where the one that there is is too small.
    pub fn update_points(&mut self, key: SceneKey, cloud: &[[F32; 3]]) -> (upload: Option<
        Option<usize>,
    >)
        ensures
            match upload {
                None => !old(self).content().points_outdated(key) && final(self).content() == old(
                    self
                ).content(),
                Some(new_capacity) => {
                    let points = old(self).content().points_with(key, cloud@);
                    &&& old(self).content().points_outdated(key)
                    &&& match new_capacity {
                        None => points.len() <= old(self).content().point_capacity && final(
                            self
                        ).content().point_capacity == old(self).content().point_capacity,
                        Some(capacity) => points.len() > old(self).content().point_capacity && fits(
                            capacity,
                            points.len() as usize,
                        ) && final(self).content().point_capacity == capacity,
                    }
                    &&& final(self).content() == (SceneLayersContent {
                        point_capacity: final(self).content().point_capacity,
                        point_count: drawn(points.len()),
                        points,
                        metrics: SceneMetrics {
                            point_uploads: schedule::counted(
                                old(self).content().metrics.point_uploads,
                            ),
                            ..old(self).content().metrics
                        },
                        ..old(self).content()
                    })
                },
            },
    {
        let cloud_changed: bool = differs(self.last_cloud_revision, key.cloud_revision);
        let mode_changed: bool = self.last_accumulate != key.accumulate;
        if !cloud_changed && !mode_changed {
            return None;
        }
        update_accumulated_cloud(
            &mut self.accumulated_points,
            cloud,
            key.accumulate,
            cloud_changed,
            mode_changed,
        );
        let count: usize = self.accumulated_points.len();
        let new_capacity: Option<usize> = if count > self.point_capacity {
            let capacity: usize = capacity_for(count);
            self.point_capacity = capacity;
            Some(capacity)
        } else {
            None
        };
        self.point_count = draw_count(count);
        self.metrics.point_uploads = count_up(self.metrics.point_uploads);
        Some(new_capacity)
    }

    /// Takes note that the scene was rendered.
    pub fn rendered(&mut self, key: SceneKey)
        ensures
            final(self).content() == (SceneLayersContent {
                last_revision: Some(key.revision),
                last_cloud_revision: Some(key.cloud_revision),
                last_accumulate: key.accumulate,
                camera_dirty: false,
                metrics: SceneMetrics {
                    renders: schedule::counted(old(self).content().metrics.renders),
                    ..old(self).content().metrics
                },
                ..old(self).content()
            }),
            !final(self).content().outdated(key),
    {
        self.last_revision = Some(key.revision);
        self.last_cloud_revision = Some(key.cloud_revision);
        self.last_accumulate = key.accumulate;
        self.camera_dirty = false;
        self.metrics.renders = count_up(self.metrics.renders);
    }

    /// Takes note that the scene is looked at from elsewhere.
    pub fn move_camera(&mut self)
        ensures
            final(self).content() == (SceneLayersContent {
                camera_dirty: true,
                ..old(self).content()
            }),
    {
        self.camera_dirty = true;
    }

    pub fn size(&self) -> (size: (u32, u32))
        ensures
            size == (self.content().width, self.content().height),
    {
        (self.width, self.height)
    }

    /// The points to upload and draw.
    pub fn points(&self) -> (points: &Vec<[F32; 3]>)
        ensures
            points@ == self.content().points,
    {
        &self.accumulated_points
    }

    pub fn point_count(&self) -> (count: u32)
        ensures
            count == self.content().point_count,
    {
        self.point_count
    }

    pub fn line_vertices(&self) -> (count: u32)
        ensures
            count == self.content().line_vertices,
    {
        self.line_vertices
    }

    pub fn metrics(&self) -> (metrics: SceneMetrics)
        ensures
            metrics == self.content().metrics,
    {
        self.metrics
    }

    pub fn visible_points(&self) -> (count: usize)
        ensures
            count == self.content().points.len(),
    {
        self.accumulated_points.len()
    }
}

/// A point of a scan lies in the scene where it was measured: what is left of the vehicle lies left,
/// against the first axis, what is above lies up, and what is ahead lies ahead, against the third.
pub proof fn law_points_lie_where_they_were_measured(cloud: Seq<[F32; 3]>, index: int)
    requires
        0 <= index < cloud.len(),
    ensures
        world_points(cloud).len() == cloud.len(),
        ({
            let (forward, left, up) = (cloud[index]@[0], cloud[index]@[1], cloud[index]@[2]);
            let point = world_points(cloud)[index];
            &&& point@[0].rank() == -left.rank()
            &&& point@[1].rank() == up.rank()
            &&& point@[2].rank() == -forward.rank()
            &&& point@[1] == up
        }),
{
    crate::message::float::law_negation_undoes_itself(cloud[index]@[0]);
    crate::message::float::law_negation_undoes_itself(cloud[index]@[1]);
}

/// A path is drawn as one line: each piece starts at a point of the path and ends at the next one,
/// where the next piece starts.
pub proof fn law_paths_are_one_line(path: Seq<[F32; 2]>, index: int)
    requires
        0 <= index,
        index + 1 < path.len(),
    ensures
        segments(path).len() + 1 == path.len(),
        segments(path)[index]@.take(2) == path[index]@,
        segments(path)[index]@.skip(2) == path[index + 1]@,
{
    assert(segments(path)[index]@.take(2) =~= path[index]@);
    assert(segments(path)[index]@.skip(2) =~= path[index + 1]@);
}

/// What a scene shows is the end of what it showed and the new scan, where scans are collected, and
/// the scan alone where they are not: the last 65536 points of it. Without a scan it shows nothing.
pub proof fn law_scenes_show_the_last_points(
    points: Seq<[F32; 3]>,
    cloud: Seq<[F32; 3]>,
    mode_changed: bool,
)
    requires
        cloud.len() > 0,
    ensures
        ({
            let all = points + world_points(cloud);
            let shown = accumulated(points, cloud, true, true, mode_changed);
            let count = if all.len() > 65_536 {
                65_536
            } else {
                all.len() as int
            };
            shown.len() == count && shown == all.skip(all.len() - count)
        }),
        ({
            let all = world_points(cloud);
            let shown = accumulated(points, cloud, false, true, mode_changed);
            let count = if all.len() > 65_536 {
                65_536
            } else {
                all.len() as int
            };
            shown.len() == count && shown == all.skip(all.len() - count)
        }),
        accumulated(points, cloud, false, false, true) == accumulated(
            points,
            cloud,
            false,
            true,
            true,
        ),
        accumulated(points, Seq::empty(), mode_changed, true, true).len() == 0,
{
    let both = points + world_points(cloud);
    let one = world_points(cloud);
    assert(both.skip(0) =~= both);
    assert(one.skip(0) =~= one);
}

} // verus!

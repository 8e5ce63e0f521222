//! The latest accepted frame of each camera.

use crate::feature::id_map::{self, IdMap};
use crate::message::payload;
use crate::message::time::{ArrivalTime, MeasurementTime};
use bytes::Bytes;
use vstd::prelude::*;

verus! {

/// Identifies a camera within one viewer session.
///
/// This is not a physical camera serial number or a persistent identity across sessions.
#[derive(Clone, Copy, Debug, Eq, Hash, Ord, PartialEq, PartialOrd, Structural)]
pub struct CameraId(pub u16);

impl Default for CameraId {
    fn default() -> (id: Self)
        ensures
            id == CameraId(0),
    {
        CameraId(0)
    }
}

/// One image of a camera.
#[derive(Clone, Debug, Eq, PartialEq)]
pub struct CameraFrame {
    pub camera_id: CameraId,
    pub measurement_time: MeasurementTime,
    pub arrival_time: ArrivalTime,
    pub frame_id: String,
    pub jpeg: Bytes,
}

/// What a frame holds.
pub struct FrameContent {
    pub camera_id: CameraId,
    pub measurement_time: MeasurementTime,
    pub arrival_time: ArrivalTime,
    pub frame_id: Seq<char>,
    pub jpeg: Seq<u8>,
}

impl View for CameraFrame {
    type V = FrameContent;

    open spec fn view(&self) -> FrameContent {
        FrameContent {
            camera_id: self.camera_id,
            measurement_time: self.measurement_time,
            arrival_time: self.arrival_time,
            frame_id: self.frame_id@,
            jpeg: payload::content(self.jpeg),
        }
    }
}

#[derive(Clone, Copy, Debug, Eq, PartialEq, Structural)]
pub enum CameraStatus {
    WaitingForCameraFrame,
    Ready,
    Error,
}

/// The latest frame and the status of every camera that was heard of.
#[derive(Clone, Debug)]
pub struct CameraState {
    latest: IdMap<CameraFrame>,
    status: IdMap<CameraStatus>,
}

/// What a camera state holds, in ascending order of the cameras.
pub struct CamerasContent {
    pub latest: Seq<(i64, FrameContent)>,
    pub status: Seq<(i64, CameraStatus)>,
}

/// The content of a frame, as a function.
pub open spec fn frame_content() -> spec_fn(CameraFrame) -> FrameContent {
    |frame: CameraFrame| frame@
}

/// A newer frame of the same camera is already there.
pub open spec fn outdated(cameras: CamerasContent, frame: FrameContent) -> bool {
    match id_map::lookup(cameras.latest, frame.camera_id.0 as i64) {
        Some(current) => current.arrival_time.0 > frame.arrival_time.0,
        None => false,
    }
}

/// The state once a frame was offered: an outdated one changes nothing.
pub open spec fn with_frame(cameras: CamerasContent, frame: FrameContent) -> CamerasContent {
    if outdated(cameras, frame) {
        cameras
    } else {
        CamerasContent {
            latest: id_map::inserted(cameras.latest, frame.camera_id.0 as i64, frame),
            status: id_map::inserted(
                cameras.status,
                frame.camera_id.0 as i64,
                CameraStatus::Ready,
            ),
        }
    }
}

/// The state after a jump: no frames, and every known camera waits for one.
pub open spec fn cold(cameras: CamerasContent) -> CamerasContent {
    CamerasContent {
        latest: Seq::empty(),
        status: id_map::mapped(
            cameras.status,
            |status: CameraStatus| CameraStatus::WaitingForCameraFrame,
        ),
    }
}

/// The frame that arrived last; among equal arrivals, that of the highest camera.
pub open spec fn newest(frames: Seq<(i64, FrameContent)>) -> Option<FrameContent>
    decreases frames.len(),
{
    if frames.len() == 0 {
        None
    } else {
        match newest(frames.drop_last()) {
            None => Some(frames.last().1),
            Some(best) => if frames.last().1.arrival_time.0 >= best.arrival_time.0 {
                Some(frames.last().1)
            } else {
                Some(best)
            },
        }
    }
}

impl CamerasContent {
    /// Cameras are in order, and each frame stands under its own camera.
    pub open spec fn valid(self) -> bool {
        &&& id_map::ascending(self.latest)
        &&& id_map::ascending(self.status)
        &&& forall|i: int|
            0 <= i < self.latest.len() ==> (#[trigger] self.latest[i]).0
                == self.latest[i].1.camera_id.0
        &&& forall|i: int| 0 <= i < self.status.len() ==> 0 <= (#[trigger] self.status[i]).0 <= u16::MAX
    }
}

/// No frame arrived after the newest, which is one of them.
pub proof fn law_newest_arrived_last(frames: Seq<(i64, FrameContent)>)
    ensures
        frames.len() > 0 <==> newest(frames) is Some,
        frames.len() > 0 ==> exists|i: int|
            0 <= i < frames.len() && (#[trigger] frames[i]).1 == newest(frames)->0,
        newest(frames) matches Some(best) ==> forall|i: int|
            0 <= i < frames.len() ==> (#[trigger] frames[i]).1.arrival_time.0
                <= best.arrival_time.0,
    decreases frames.len(),
{
    if frames.len() > 0 {
        let front = frames.drop_last();
        law_newest_arrived_last(front);
        let last = frames.len() - 1;
        if newest(frames) == Some(frames[last].1) {
            assert(frames[last].1 == newest(frames)->0);
        } else {
            let i = choose|i: int| 0 <= i < front.len() && (#[trigger] front[i]).1 == newest(
                front,
            )->0;
            assert(frames[i].1 == newest(frames)->0);
        }
        assert forall|i: int| 0 <= i < frames.len() implies (
        #[trigger] frames[i]).1.arrival_time.0 <= newest(frames)->0.arrival_time.0 by {
            if i < last {
                assert(front[i].1.arrival_time.0 <= newest(front)->0.arrival_time.0);
            }
        }
    }
}

/// An offered frame is shown unless a newer one of its camera is; it never changes what another
/// camera shows.
pub proof fn law_frames_are_independent(
    cameras: CamerasContent,
    frame: FrameContent,
    other: CameraId,
)
    requires
        cameras.valid(),
        other != frame.camera_id,
    ensures
        with_frame(cameras, frame).valid(),
        id_map::lookup(with_frame(cameras, frame).latest, other.0 as i64) == id_map::lookup(
            cameras.latest,
            other.0 as i64,
        ),
        id_map::lookup(with_frame(cameras, frame).status, other.0 as i64) == id_map::lookup(
            cameras.status,
            other.0 as i64,
        ),
        !outdated(cameras, frame) ==> id_map::lookup(
            with_frame(cameras, frame).latest,
            frame.camera_id.0 as i64,
        ) == Some(frame),
{
    lemma_with_frame_valid(cameras, frame);
    id_map::lemma_inserted(cameras.latest, frame.camera_id.0 as i64, frame);
    id_map::lemma_inserted(cameras.status, frame.camera_id.0 as i64, CameraStatus::Ready);
}

proof fn lemma_with_frame_valid(cameras: CamerasContent, frame: FrameContent)
    requires
        cameras.valid(),
    ensures
        with_frame(cameras, frame).valid(),
{
    let key = frame.camera_id.0 as i64;
    id_map::lemma_inserted(cameras.latest, key, frame);
    id_map::lemma_inserted(cameras.status, key, CameraStatus::Ready);
    id_map::lemma_rank(cameras.latest, key);
    id_map::lemma_rank(cameras.status, key);
    let latest = id_map::inserted(cameras.latest, key, frame);
    let place = id_map::rank_of(cameras.latest, key);
    let present = place < cameras.latest.len() && cameras.latest[place].0 == key;
    assert forall|i: int| 0 <= i < latest.len() implies (#[trigger] latest[i]).0
        == latest[i].1.camera_id.0 by {
        if i != place {
            let k = if present || i < place {
                i
            } else {
                i - 1
            };
            assert(latest[i] == cameras.latest[k]);
        }
    }
    lemma_status_keys(cameras.status, key, CameraStatus::Ready);
}

proof fn lemma_status_keys(statuses: Seq<(i64, CameraStatus)>, key: i64, status: CameraStatus)
    requires
        id_map::ascending(statuses),
        0 <= key <= u16::MAX,
        forall|i: int| 0 <= i < statuses.len() ==> 0 <= (#[trigger] statuses[i]).0 <= u16::MAX,
    ensures
        forall|i: int|
            0 <= i < id_map::inserted(statuses, key, status).len() ==> 0 <= (
            #[trigger] id_map::inserted(statuses, key, status)[i]).0 <= u16::MAX,
{
    id_map::lemma_rank(statuses, key);
    let after = id_map::inserted(statuses, key, status);
    let place = id_map::rank_of(statuses, key);
    let present = place < statuses.len() && statuses[place].0 == key;
    assert forall|i: int| 0 <= i < after.len() implies 0 <= (#[trigger] after[i]).0 <= u16::MAX by {
        if i != place {
            let k = if present || i < place {
                i
            } else {
                i - 1
            };
            assert(after[i] == statuses[k]);
        }
    }
}

impl CameraState {
    pub closed spec fn content(&self) -> CamerasContent {
        CamerasContent {
            latest: id_map::mapped(self.latest.entries(), frame_content()),
            status: self.status.entries(),
        }
    }

    pub closed spec fn well_formed(&self) -> bool {
        self.latest.well_formed() && self.status.well_formed() && self.content().valid()
    }

    /// What a well-formed state holds is valid.
    pub proof fn lemma_valid(&self)
        requires
            self.well_formed(),
        ensures
            self.content().valid(),
    {
    }

    /// Offers a frame. An older one than the current one of its camera is refused.
    pub fn apply(&mut self, frame: CameraFrame) -> (accepted: bool)
        requires
            old(self).well_formed(),
        ensures
            final(self).well_formed(),
            accepted == !outdated(old(self).content(), frame@),
            final(self).content() == with_frame(old(self).content(), frame@),
    {
        let key: i64 = frame.camera_id.0 as i64;
        proof {
            id_map::lemma_mapped_lookup(self.latest.entries(), frame_content(), key);
            id_map::lemma_mapped_inserted(self.latest.entries(), frame_content(), key, frame);
            lemma_with_frame_valid(self.content(), frame@);
        }
        if let Some(current) = self.latest.get(key) {
            if current.arrival_time.0 > frame.arrival_time.0 {
                return false;
            }
        }
        self.latest.insert(key, frame);
        self.status.insert(key, CameraStatus::Ready);
        true
    }

    /// Forgets the frames after a jump in time; every known camera waits for one.
    pub fn cold_seek(&mut self)
        requires
            old(self).well_formed(),
        ensures
            final(self).well_formed(),
            final(self).content() == cold(old(self).content()),
    {
        let status: IdMap<CameraStatus> = waiting(&self.status);
        self.latest.clear();
        self.status = status;
        proof {
            assert(self.content().latest =~= Seq::<(i64, FrameContent)>::empty());
            assert forall|i: int| 0 <= i < self.content().status.len() implies 0 <= (
            #[trigger] self.content().status[i]).0 <= u16::MAX by {
                assert(0 <= old(self).content().status[i].0 <= u16::MAX);
            }
        }
    }

    /// The state that `cold_seek` leaves, beside this one.
    pub fn cold_copy(&self) -> (copy: Self)
        requires
            self.well_formed(),
        ensures
            copy.well_formed(),
            copy.content() == cold(self.content()),
    {
        let copy = CameraState { latest: IdMap::new(), status: waiting(&self.status) };
        proof {
            assert(copy.content().latest =~= Seq::<(i64, FrameContent)>::empty());
            assert forall|i: int| 0 <= i < copy.content().status.len() implies 0 <= (
            #[trigger] copy.content().status[i]).0 <= u16::MAX by {
                assert(0 <= self.content().status[i].0 <= u16::MAX);
            }
        }
        copy
    }

    pub fn latest_for(&self, camera_id: CameraId) -> (frame: Option<&CameraFrame>)
        requires
            self.well_formed(),
        ensures
            match frame {
                Some(found) => id_map::lookup(self.content().latest, camera_id.0 as i64) == Some(
                    found@,
                ),
                None => id_map::lookup(self.content().latest, camera_id.0 as i64) is None,
            },
    {
        proof {
            id_map::lemma_mapped_lookup(
                self.latest.entries(),
                frame_content(),
                camera_id.0 as i64,
            );
        }
        self.latest.get(camera_id.0 as i64)
    }

    /// The frame that arrived last; among equal arrivals, that of the highest camera.
    pub fn latest_by_arrival(&self) -> (frame: Option<&CameraFrame>)
        ensures
            match frame {
                Some(found) => newest(self.content().latest) == Some(found@),
                None => newest(self.content().latest) is None,
            },
    {
        let ghost frames = self.content().latest;
        if self.latest.len() == 0 {
            return None;
        }
        let mut best: &CameraFrame = self.latest.value_at(0);
        let mut index: usize = 1;
        proof {
            assert(frames.take(1).drop_last() =~= Seq::<(i64, FrameContent)>::empty());
            assert(frames.take(1).last() == frames[0]);
            reveal_with_fuel(newest, 2);
        }
        while index < self.latest.len()
            invariant
                1 <= index <= self.latest.entries().len(),
                frames == id_map::mapped(self.latest.entries(), frame_content()),
                newest(frames.take(index as int)) == Some(best@),
            decreases self.latest.entries().len() - index,
        {
            let candidate: &CameraFrame = self.latest.value_at(index);
            proof {
                assert(frames.take(index + 1).drop_last() =~= frames.take(index as int));
                assert(frames[index as int].1 == candidate@);
            }
            if candidate.arrival_time.0 >= best.arrival_time.0 {
                best = candidate;
            }
            index = index + 1;
        }
        assert(frames.take(frames.len() as int) =~= frames);
        Some(best)
    }

    pub fn status_for(&self, camera_id: CameraId) -> (status: CameraStatus)
        requires
            self.well_formed(),
        ensures
            status == match id_map::lookup(self.content().status, camera_id.0 as i64) {
                Some(known) => known,
                None => CameraStatus::WaitingForCameraFrame,
            },
    {
        match self.status.get(camera_id.0 as i64) {
            Some(status) => *status,
            None => CameraStatus::WaitingForCameraFrame,
        }
    }

    pub fn set_error_for(&mut self, camera_id: CameraId)
        requires
            old(self).well_formed(),
        ensures
            final(self).well_formed(),
            final(self).content() == (CamerasContent {
                status: id_map::inserted(
                    old(self).content().status,
                    camera_id.0 as i64,
                    CameraStatus::Error,
                ),
                ..old(self).content()
            }),
    {
        proof {
            lemma_status_keys(self.status.entries(), camera_id.0 as i64, CameraStatus::Error);
        }
        self.status.insert(camera_id.0 as i64, CameraStatus::Error);
    }

    /// Every camera that was heard of, in ascending order.
    pub fn ids(&self) -> (ids: Vec<CameraId>)
        requires
            self.well_formed(),
        ensures
            ids@ == self.content().status.map_values(
                |entry: (i64, CameraStatus)| CameraId(entry.0 as u16),
            ),
    {
        let mut ids: Vec<CameraId> = Vec::new();
        let ghost statuses = self.content().status;
        let mut index: usize = 0;
        while index < self.status.len()
            invariant
                index <= statuses.len(),
                self.well_formed(),
                statuses == self.status.entries(),
                statuses == self.content().status,
                ids@ == statuses.take(index as int).map_values(
                    |entry: (i64, CameraStatus)| CameraId(entry.0 as u16),
                ),
            decreases statuses.len() - index,
        {
            assert(0 <= statuses[index as int].0 <= u16::MAX);
            ids.push(CameraId(self.status.key_at(index) as u16));
            index = index + 1;
            assert(ids@ =~= statuses.take(index as int).map_values(
                |entry: (i64, CameraStatus)| CameraId(entry.0 as u16),
            ));
        }
        assert(statuses.take(statuses.len() as int) =~= statuses);
        ids
    }

    /// How many cameras show a frame.
    pub fn frame_count(&self) -> (count: usize)
        ensures
            count == self.content().latest.len(),
    {
        self.latest.len()
    }

    /// The frame at an index, in ascending order of the cameras.
    pub fn frame_at(&self, index: usize) -> (frame: &CameraFrame)
        requires
            index < self.content().latest.len(),
        ensures
            frame@ == self.content().latest[index as int].1,
    {
        self.latest.value_at(index)
    }

    /// Every shown frame, in ascending order of the cameras.
    pub fn frames(&self) -> (frames: Vec<&CameraFrame>)
        ensures
            frames@.len() == self.content().latest.len(),
            forall|i: int|
                0 <= i < frames@.len() ==> (#[trigger] frames@[i])@ == self.content().latest[i].1,
    {
        let mut frames: Vec<&CameraFrame> = Vec::new();
        let mut index: usize = 0;
        while index < self.latest.len()
            invariant
                index <= self.content().latest.len() == self.latest.entries().len(),
                frames@.len() == index,
                forall|i: int|
                    0 <= i < index ==> (#[trigger] frames@[i])@ == self.content().latest[i].1,
            decreases self.latest.entries().len() - index,
        {
            frames.push(self.frame_at(index));
            index = index + 1;
        }
        frames
    }
}

impl Default for CameraState {
    fn default() -> (state: Self)
        ensures
            state.well_formed(),
            state.content() == (CamerasContent { latest: Seq::empty(), status: Seq::empty() }),
    {
        let state = CameraState { latest: IdMap::new(), status: IdMap::new() };
        assert(state.content().latest =~= Seq::<(i64, FrameContent)>::empty());
        state
    }
}

/// The same cameras, all of them waiting.
fn waiting(statuses: &IdMap<CameraStatus>) -> (waiting: IdMap<CameraStatus>)
    requires
        statuses.well_formed(),
    ensures
        waiting.well_formed(),
        waiting.entries() == id_map::mapped(
            statuses.entries(),
            |status: CameraStatus| CameraStatus::WaitingForCameraFrame,
        ),
{
    let ghost wait = |status: CameraStatus| CameraStatus::WaitingForCameraFrame;
    let ghost all = statuses.entries();
    let mut waiting: IdMap<CameraStatus> = IdMap::new();
    let mut index: usize = 0;
    assert(waiting.entries() =~= id_map::mapped(all.take(0), wait));
    while index < statuses.len()
        invariant
            index <= all.len(),
            all == statuses.entries(),
            id_map::ascending(all),
            wait == (|status: CameraStatus| CameraStatus::WaitingForCameraFrame),
            waiting.well_formed(),
            waiting.entries() == id_map::mapped(all.take(index as int), wait),
        decreases all.len() - index,
    {
        let key: i64 = statuses.key_at(index);
        let ghost before = waiting.entries();
        waiting.insert(key, CameraStatus::WaitingForCameraFrame);
        proof {
            assert forall|i: int| 0 <= i < before.len() implies (#[trigger] before[i]).0 < key by {
                assert(all[i].0 < all[index as int].0);
            }
            id_map::lemma_rank(before, key);
            assert(id_map::rank_of(before, key) == before.len()) by {
                let rank = id_map::rank_of(before, key);
                if rank < before.len() {
                    assert(before[rank].0 < key);
                }
            }
            assert(waiting.entries() =~= id_map::mapped(all.take(index + 1), wait));
        }
        index = index + 1;
    }
    assert(all.take(all.len() as int) =~= all);
    waiting
}

/// An image of a camera is refused exactly where one of that camera that arrived later is shown; one that
/// is not refused is shown, and its camera is ready.
pub proof fn law_later_images_are_shown(cameras: CamerasContent, frame: FrameContent)
    requires
        cameras.valid(),
    ensures
        ({
            let key = frame.camera_id.0 as i64;
            let after = with_frame(cameras, frame);
            match id_map::lookup(cameras.latest, key) {
                Some(current) => if current.arrival_time.0 > frame.arrival_time.0 {
                    after == cameras
                } else {
                    id_map::lookup(after.latest, key) == Some(frame)
                },
                None => id_map::lookup(after.latest, key) == Some(frame) && id_map::lookup(
                    after.status,
                    key,
                ) == Some(CameraStatus::Ready),
            }
        }),
{
    id_map::lemma_inserted(cameras.latest, frame.camera_id.0 as i64, frame);
    id_map::lemma_inserted(cameras.status, frame.camera_id.0 as i64, CameraStatus::Ready);
}

} // verus!

//! Decoded path state used by bird's-eye-view features.

use crate::message::float::F32;
use crate::message::time::{ArrivalTime, MeasurementTime};
use vstd::prelude::*;

verus! {

/// A planned path, relative to the vehicle.
#[derive(Clone, Debug, PartialEq)]
pub struct BevPathFrame {
    pub measurement_time: MeasurementTime,
    pub arrival_time: ArrivalTime,
    pub frame_id: String,
    /// Ego-relative path in metres: +x right, +y forward.
    pub points: Vec<[F32; 2]>,
}

/// What a path frame holds.
pub struct PathFrameContent {
    pub measurement_time: MeasurementTime,
    pub arrival_time: ArrivalTime,
    pub frame_id: Seq<char>,
    pub points: Seq<[F32; 2]>,
}

impl View for BevPathFrame {
    type V = PathFrameContent;

    open spec fn view(&self) -> PathFrameContent {
        PathFrameContent {
            measurement_time: self.measurement_time,
            arrival_time: self.arrival_time,
            frame_id: self.frame_id@,
            points: self.points@,
        }
    }
}

/// The latest accepted path.
#[derive(Clone, Debug)]
pub struct BevState {
    revision: u64,
    latest: Option<BevPathFrame>,
}

/// What a path state holds.
pub struct BevContent {
    pub revision: u64,
    pub latest: Option<PathFrameContent>,
}

/// The number after another, where the last is followed by zero.
pub open spec fn next_revision(revision: u64) -> u64 {
    if revision == u64::MAX {
        0
    } else {
        (revision + 1) as u64
    }
}

/// The number after another, where the last is followed by zero.
pub fn advance_revision(revision: u64) -> (next: u64)
    ensures
        next == next_revision(revision),
        next != revision,
{
    if revision == u64::MAX {
        0
    } else {
        revision + 1
    }
}

impl BevContent {
    /// A newer path is already there.
    pub open spec fn outdates(self, frame: PathFrameContent) -> bool {
        match self.latest {
            Some(current) => current.arrival_time.0 > frame.arrival_time.0,
            None => false,
        }
    }

    /// The state once a path was offered: an outdated one changes nothing.
    pub open spec fn offered(self, frame: PathFrameContent) -> BevContent {
        if self.outdates(frame) {
            self
        } else {
            BevContent { revision: next_revision(self.revision), latest: Some(frame) }
        }
    }

    /// The state after a jump in time.
    pub open spec fn cold(self) -> BevContent {
        BevContent { revision: next_revision(self.revision), latest: None }
    }
}

impl BevState {
    pub closed spec fn content(&self) -> BevContent {
        BevContent {
            revision: self.revision,
            latest: match self.latest {
                Some(frame) => Some(frame@),
                None => None,
            },
        }
    }

    /// Offers a path. An older one than the current one is refused.
    pub fn apply(&mut self, frame: BevPathFrame) -> (accepted: bool)
        ensures
            accepted == !old(self).content().outdates(frame@),
            final(self).content() == old(self).content().offered(frame@),
    {
        if let Some(current) = &self.latest {
            if current.arrival_time.0 > frame.arrival_time.0 {
                return false;
            }
        }
        self.latest = Some(frame);
        self.revision = advance_revision(self.revision);
        true
    }

    pub fn cold_seek(&mut self)
        ensures
            final(self).content() == old(self).content().cold(),
    {
        self.revision = advance_revision(self.revision);
        self.latest = None;
    }

    /// The state that `cold_seek` leaves, beside this one.
    pub fn cold_copy(&self) -> (copy: Self)
        ensures
            copy.content() == self.content().cold(),
    {
        BevState { revision: advance_revision(self.revision), latest: None }
    }

    pub fn revision(&self) -> (revision: u64)
        ensures
            revision == self.content().revision,
    {
        self.revision
    }

    pub fn latest(&self) -> (latest: Option<&BevPathFrame>)
        ensures
            match latest {
                Some(frame) => self.content().latest == Some(frame@),
                None => self.content().latest is None,
            },
    {
        match &self.latest {
            Some(frame) => Some(frame),
            None => None,
        }
    }
}

impl Default for BevState {
    fn default() -> (state: Self)
        ensures
            state.content() == (BevContent { revision: 0, latest: None }),
    {
        BevState { revision: 0, latest: None }
    }
}

/// Offering a path never replaces a newer one, and a change of the path changes the revision.
pub proof fn law_offered_paths_do_not_go_back(state: BevContent, frame: PathFrameContent)
    ensures
        state.latest matches Some(current) ==> state.offered(frame).latest matches Some(shown)
            && shown.arrival_time.0 >= current.arrival_time.0,
        state.offered(frame) != state ==> state.offered(frame).revision != state.revision,
        state.cold().latest is None && state.cold().revision != state.revision,
{
}

/// What is offered is shown unless something that arrived later is: the first one, a later one, and one
/// of the same time.
pub proof fn law_the_latest_path_is_shown(state: BevContent, frame: PathFrameContent)
    ensures
        state.latest is None ==> state.offered(frame).latest == Some(frame),
        state.latest matches Some(current) ==> state.offered(frame).latest == if
            current.arrival_time.0 <= frame.arrival_time.0 {
            Some(frame)
        } else {
            state.latest
        },
{
}

} // verus!

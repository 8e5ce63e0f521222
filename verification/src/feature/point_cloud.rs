//! Decoded laser returns.

use crate::feature::bev::{self, advance_revision};
use crate::message::float::F32;
use crate::message::time::{ArrivalTime, MeasurementTime};
use vstd::prelude::*;

verus! {

/// One usable return of a scan: the beam, counted from the first, and the distance in metres.
#[derive(Clone, Copy, Debug, PartialEq, Eq, Structural)]
pub struct ScanReturn {
    pub beam: usize,
    pub range: F32,
}

/// The usable returns of one scan, in polar form around the sensor.
#[derive(Clone, Debug, PartialEq)]
pub struct PointCloudFrame {
    pub measurement_time: MeasurementTime,
    pub arrival_time: ArrivalTime,
    pub frame_id: String,
    /// Angle of beam zero, in radians from +x forward towards +y left.
    pub angle_min: F32,
    /// Angle from one beam to the next.
    pub angle_increment: F32,
    pub echoes: Vec<ScanReturn>,
}

/// What a scan frame holds.
pub struct CloudContent {
    pub measurement_time: MeasurementTime,
    pub arrival_time: ArrivalTime,
    pub frame_id: Seq<char>,
    pub angle_min: F32,
    pub angle_increment: F32,
    pub echoes: Seq<ScanReturn>,
}

impl View for PointCloudFrame {
    type V = CloudContent;

    open spec fn view(&self) -> CloudContent {
        CloudContent {
            measurement_time: self.measurement_time,
            arrival_time: self.arrival_time,
            frame_id: self.frame_id@,
            angle_min: self.angle_min,
            angle_increment: self.angle_increment,
            echoes: self.echoes@,
        }
    }
}

/// The latest accepted scan.
#[derive(Clone, Debug)]
pub struct PointCloudState {
    revision: u64,
    latest: Option<PointCloudFrame>,
}

/// What a scan state holds.
pub struct CloudsContent {
    pub revision: u64,
    pub latest: Option<CloudContent>,
}

impl CloudsContent {
    /// A newer scan is already there.
    pub open spec fn outdates(self, frame: CloudContent) -> bool {
        match self.latest {
            Some(current) => current.arrival_time.0 > frame.arrival_time.0,
            None => false,
        }
    }

    /// The state once a scan was offered: an outdated one changes nothing.
    pub open spec fn offered(self, frame: CloudContent) -> CloudsContent {
        if self.outdates(frame) {
            self
        } else {
            CloudsContent { revision: bev::next_revision(self.revision), latest: Some(frame) }
        }
    }

    /// The state after a jump in time.
    pub open spec fn cold(self) -> CloudsContent {
        CloudsContent { revision: bev::next_revision(self.revision), latest: None }
    }
}

impl PointCloudState {
    pub closed spec fn content(&self) -> CloudsContent {
        CloudsContent {
            revision: self.revision,
            latest: match self.latest {
                Some(frame) => Some(frame@),
                None => None,
            },
        }
    }

    /// Offers a scan. An older one than the current one is refused.
    pub fn apply(&mut self, frame: PointCloudFrame) -> (accepted: bool)
        ensures
            accepted == !old(self).content().outdates(frame@),
            final(self).content() == old(self).content().offered(frame@),
    {
        if let Some(current) = &self.latest {
            if current.arrival_time.0 > frame.arrival_time.0 {
                return false;
            }
        }
        self.latest = Some(frame);
        self.revision = advance_revision(self.revision);
        true
    }

    pub fn cold_seek(&mut self)
        ensures
            final(self).content() == old(self).content().cold(),
    {
        self.revision = advance_revision(self.revision);
        self.latest = None;
    }

    /// The state that `cold_seek` leaves, beside this one.
    pub fn cold_copy(&self) -> (copy: Self)
        ensures
            copy.content() == self.content().cold(),
    {
        PointCloudState { revision: advance_revision(self.revision), latest: None }
    }

    pub fn revision(&self) -> (revision: u64)
        ensures
            revision == self.content().revision,
    {
        self.revision
    }

    pub fn latest(&self) -> (latest: Option<&PointCloudFrame>)
        ensures
            match latest {
                Some(frame) => self.content().latest == Some(frame@),
                None => self.content().latest is None,
            },
    {
        match &self.latest {
            Some(frame) => Some(frame),
            None => None,
        }
    }
}

impl Default for PointCloudState {
    fn default() -> (state: Self)
        ensures
            state.content() == (CloudsContent { revision: 0, latest: None }),
    {
        PointCloudState { revision: 0, latest: None }
    }
}

/// Offering a scan never replaces a newer one, and a change of the scan changes the revision.
pub proof fn law_offered_scans_do_not_go_back(state: CloudsContent, frame: CloudContent)
    ensures
        state.latest matches Some(current) ==> state.offered(frame).latest matches Some(shown)
            && shown.arrival_time.0 >= current.arrival_time.0,
        state.offered(frame) != state ==> state.offered(frame).revision != state.revision,
        state.cold().latest is None && state.cold().revision != state.revision,
{
}

/// What is offered is shown unless something that arrived later is: the first one, a later one, and one
/// of the same time.
pub proof fn law_the_latest_scan_is_shown(state: CloudsContent, frame: CloudContent)
    ensures
        state.latest is None ==> state.offered(frame).latest == Some(frame),
        state.latest matches Some(current) ==> state.offered(frame).latest == if
            current.arrival_time.0 <= frame.arrival_time.0 {
            Some(frame)
        } else {
            state.latest
        },
{
}

} // verus!

//! Bounded derived preview documents.

use crate::feature::camera::CameraId;
use crate::message::float::{F32, F64};
use crate::message::text::{self, push_decimal, push_signed};
use crate::message::time::{ArrivalTime, MeasurementTime};
use vstd::prelude::*;
use vstd::string::*;

verus! {

pub const CURRENT_PREVIEW_SCHEMA_VERSION: u32 = 1;

/// One of the numbers of a signal bucket.
#[derive(Clone, Copy, Debug, Eq, PartialEq, Structural)]
pub enum BucketNumber {
    First,
    Last,
    Min,
    Max,
}

impl BucketNumber {
    pub open spec fn spec_name(self) -> Seq<char> {
        match self {
            BucketNumber::First => "first"@,
            BucketNumber::Last => "last"@,
            BucketNumber::Min => "min"@,
            BucketNumber::Max => "max"@,
        }
    }

    pub fn name(self) -> (name: &'static str)
        ensures
            name@ == self.spec_name(),
    {
        match self {
            BucketNumber::First => "first",
            BucketNumber::Last => "last",
            BucketNumber::Min => "min",
            BucketNumber::Max => "max",
        }
    }
}

/// Why a part of a preview was refused.
#[derive(Clone, Copy, Debug, Eq, PartialEq, Structural)]
pub enum PreviewValidationError {
    ReversedRange { start: ArrivalTime, end: ArrivalTime },
    ReversedBucket,
    EmptyBucket,
    BucketNumberNotFinite(BucketNumber),
    BucketMinAboveMax,
    BucketFirstOutside,
    BucketLastOutside,
    NothingToMerge,
    MergedCountOverflow,
    EnvelopeNotPositive,
    UnorderedBuckets(usize),
    EmptyCameraSize,
    EmptyCameraBytes,
    PositionNotFinite,
    TrajectoryNotFinite(usize),
    UnorderedTrajectory(usize),
}

impl PreviewValidationError {
    pub open spec fn spec_message(self) -> Seq<char> {
        match self {
            PreviewValidationError::ReversedRange { start, end } => "time range start "@
                + text::signed_decimal(start.0 as int) + " must not exceed end "@
                + text::signed_decimal(end.0 as int),
            PreviewValidationError::ReversedBucket =>
                "signal bucket startTime must not exceed endTime"@,
            PreviewValidationError::EmptyBucket => "signal bucket count must be positive"@,
            PreviewValidationError::BucketNumberNotFinite(number) => "signal bucket "@
                + number.spec_name() + " must be finite"@,
            PreviewValidationError::BucketMinAboveMax => "signal bucket min must not exceed max"@,
            PreviewValidationError::BucketFirstOutside =>
                "signal bucket first must be between min and max"@,
            PreviewValidationError::BucketLastOutside =>
                "signal bucket last must be between min and max"@,
            PreviewValidationError::NothingToMerge => "cannot merge an empty signal bucket list"@,
            PreviewValidationError::MergedCountOverflow =>
                "merged signal bucket count exceeds u32::MAX"@,
            PreviewValidationError::EnvelopeNotPositive =>
                "signal envelope bucketNs must be positive"@,
            PreviewValidationError::UnorderedBuckets(index) =>
                "signal buckets are not time ordered at index "@ + text::decimal(index as nat),
            PreviewValidationError::EmptyCameraSize =>
                "camera preview width and height must be non-zero"@,
            PreviewValidationError::EmptyCameraBytes => "camera preview bytes must not be empty"@,
            PreviewValidationError::PositionNotFinite =>
                "trajectory position coordinates must be finite"@,
            PreviewValidationError::TrajectoryNotFinite(index) => "trajectory position at index "@
                + text::decimal(index as nat) + " must be finite"@,
            PreviewValidationError::UnorderedTrajectory(index) =>
                "trajectory is not time ordered at index "@ + text::decimal(index as nat),
        }
    }

    /// The error as a sentence for the user.
    pub fn message(&self) -> (sentence: String)
        ensures
            sentence@ == self.spec_message(),
    {
        match self {
            PreviewValidationError::ReversedRange { start, end } => {
                let mut sentence: String = "time range start ".to_owned();
                push_signed(&mut sentence, start.0);
                sentence.append(" must not exceed end ");
                push_signed(&mut sentence, end.0);
                sentence
            },
            PreviewValidationError::ReversedBucket =>
                "signal bucket startTime must not exceed endTime".to_owned(),
            PreviewValidationError::EmptyBucket =>
                "signal bucket count must be positive".to_owned(),
            PreviewValidationError::BucketNumberNotFinite(number) => {
                let mut sentence: String = "signal bucket ".to_owned();
                sentence.append(number.name());
                sentence.append(" must be finite");
                sentence
            },
            PreviewValidationError::BucketMinAboveMax =>
                "signal bucket min must not exceed max".to_owned(),
            PreviewValidationError::BucketFirstOutside =>
                "signal bucket first must be between min and max".to_owned(),
            PreviewValidationError::BucketLastOutside =>
                "signal bucket last must be between min and max".to_owned(),
            PreviewValidationError::NothingToMerge =>
                "cannot merge an empty signal bucket list".to_owned(),
            PreviewValidationError::MergedCountOverflow =>
                "merged signal bucket count exceeds u32::MAX".to_owned(),
            PreviewValidationError::EnvelopeNotPositive =>
                "signal envelope bucketNs must be positive".to_owned(),
            PreviewValidationError::UnorderedBuckets(index) => {
                let mut sentence: String =
                    "signal buckets are not time ordered at index ".to_owned();
                push_decimal(&mut sentence, *index as u64);
                sentence
            },
            PreviewValidationError::EmptyCameraSize =>
                "camera preview width and height must be non-zero".to_owned(),
            PreviewValidationError::EmptyCameraBytes =>
                "camera preview bytes must not be empty".to_owned(),
            PreviewValidationError::PositionNotFinite =>
                "trajectory position coordinates must be finite".to_owned(),
            PreviewValidationError::TrajectoryNotFinite(index) => {
                let mut sentence: String = "trajectory position at index ".to_owned();
                push_decimal(&mut sentence, *index as u64);
                sentence.append(" must be finite");
                sentence
            },
            PreviewValidationError::UnorderedTrajectory(index) => {
                let mut sentence: String = "trajectory is not time ordered at index ".to_owned();
                push_decimal(&mut sentence, *index as u64);
                sentence
            },
        }
    }
}

/// The first fault among the first `count` items of a list.
pub open spec fn first_fault(
    fault: spec_fn(int) -> Option<PreviewValidationError>,
    count: int,
) -> Option<PreviewValidationError>
    decreases count,
{
    if count <= 0 {
        None
    } else {
        match first_fault(fault, count - 1) {
            Some(earlier) => Some(earlier),
            None => fault(count - 1),
        }
    }
}

proof fn lemma_first_fault_stays(
    fault: spec_fn(int) -> Option<PreviewValidationError>,
    few: int,
    many: int,
)
    requires
        few <= many,
        first_fault(fault, few) is Some,
    ensures
        first_fault(fault, many) == first_fault(fault, few),
    decreases many - few,
{
    if few < many {
        lemma_first_fault_stays(fault, few, many - 1);
    }
}

proof fn lemma_no_fault(fault: spec_fn(int) -> Option<PreviewValidationError>, count: int)
    requires
        first_fault(fault, count) is None,
    ensures
        forall|i: int| 0 <= i < count ==> (#[trigger] fault(i)) is None,
    decreases count,
{
    if count > 0 {
        lemma_no_fault(fault, count - 1);
    }
}

/// Times from `start` to `end`, both included.
#[derive(Clone, Copy, Debug, Eq, PartialEq, Structural)]
pub struct TimeRange {
    start: ArrivalTime,
    end: ArrivalTime,
}

impl TimeRange {
    pub closed spec fn spec_start(self) -> ArrivalTime {
        self.start
    }

    pub closed spec fn spec_end(self) -> ArrivalTime {
        self.end
    }

    pub fn new(start: ArrivalTime, end: ArrivalTime) -> (outcome: Result<
        Self,
        PreviewValidationError,
    >)
        ensures
            match outcome {
                Ok(range) => start.0 <= end.0 && range.spec_start() == start && range.spec_end()
                    == end,
                Err(error) => start.0 > end.0 && error == (PreviewValidationError::ReversedRange {
                    start,
                    end,
                }),
            },
    {
        if start.0 > end.0 {
            return Err(PreviewValidationError::ReversedRange { start, end });
        }
        Ok(TimeRange { start, end })
    }

    pub fn start(self) -> (start: ArrivalTime)
        ensures
            start == self.spec_start(),
    {
        self.start
    }

    pub fn end(self) -> (end: ArrivalTime)
        ensures
            end == self.spec_end(),
    {
        self.end
    }

    pub fn contains(self, time: ArrivalTime) -> (inside: bool)
        ensures
            inside == (self.spec_start().0 <= time.0 <= self.spec_end().0),
    {
        self.start.0 <= time.0 && time.0 <= self.end.0
    }
}

#[derive(Clone, Copy, Debug, Eq, PartialEq, Structural)]
pub enum DataFidelity {
    Preview,
    Exact,
}

#[derive(Clone, Copy, Debug, Eq, PartialEq, Structural)]
pub enum SignalFidelity {
    Envelope { bucket_ns: i64 },
    Exact,
}

/// A signal that can be plotted.
#[derive(Clone, Copy, Debug, Eq, Hash, Ord, PartialEq, PartialOrd, Structural)]
pub enum SignalId {
    Speed,
    YawRate,
}

#[derive(Clone, Copy, Debug, Eq, PartialEq, Structural)]
pub struct PreviewBudget {
    pub max_camera_frames: usize,
    pub max_signal_buckets_per_signal: usize,
    pub max_trajectory_points: usize,
}

impl Default for PreviewBudget {
    fn default() -> (budget: Self)
        ensures
            budget == (PreviewBudget {
                max_camera_frames: 0,
                max_signal_buckets_per_signal: 0,
                max_trajectory_points: 0,
            }),
    {
        PreviewBudget {
            max_camera_frames: 0,
            max_signal_buckets_per_signal: 0,
            max_trajectory_points: 0,
        }
    }
}

#[derive(Clone, Debug, Eq, PartialEq)]
pub struct PreviewRequest {
    pub range: TimeRange,
    pub target_time: Option<ArrivalTime>,
    pub camera_ids: Vec<CameraId>,
    pub signal_ids: Vec<SignalId>,
    pub budget: PreviewBudget,
}

/// The samples of a span of time, reduced to their envelope.
#[derive(Clone, Copy, Debug, PartialEq, Eq, Structural)]
pub struct SignalBucket {
    start_time: ArrivalTime,
    end_time: ArrivalTime,
    first: F64,
    last: F64,
    min: F64,
    max: F64,
    count: u32,
}

/// What a bucket holds.
pub struct BucketContent {
    pub start_time: ArrivalTime,
    pub end_time: ArrivalTime,
    pub first: F64,
    pub last: F64,
    pub min: F64,
    pub max: F64,
    pub count: u32,
}

impl View for SignalBucket {
    type V = BucketContent;

    closed spec fn view(&self) -> BucketContent {
        BucketContent {
            start_time: self.start_time,
            end_time: self.end_time,
            first: self.first,
            last: self.last,
            min: self.min,
            max: self.max,
            count: self.count,
        }
    }
}

impl BucketContent {
    /// The first thing wrong with the bucket.
    pub open spec fn fault(self) -> Option<PreviewValidationError> {
        if self.start_time.0 > self.end_time.0 {
            Some(PreviewValidationError::ReversedBucket)
        } else if self.count == 0 {
            Some(PreviewValidationError::EmptyBucket)
        } else if !self.first.spec_finite() {
            Some(PreviewValidationError::BucketNumberNotFinite(BucketNumber::First))
        } else if !self.last.spec_finite() {
            Some(PreviewValidationError::BucketNumberNotFinite(BucketNumber::Last))
        } else if !self.min.spec_finite() {
            Some(PreviewValidationError::BucketNumberNotFinite(BucketNumber::Min))
        } else if !self.max.spec_finite() {
            Some(PreviewValidationError::BucketNumberNotFinite(BucketNumber::Max))
        } else if self.min.rank() > self.max.rank() {
            Some(PreviewValidationError::BucketMinAboveMax)
        } else if !(self.min.rank() <= self.first.rank() <= self.max.rank()) {
            Some(PreviewValidationError::BucketFirstOutside)
        } else if !(self.min.rank() <= self.last.rank() <= self.max.rank()) {
            Some(PreviewValidationError::BucketLastOutside)
        } else {
            None
        }
    }
}

impl SignalBucket {
    pub fn new(
        start_time: ArrivalTime,
        end_time: ArrivalTime,
        first: F64,
        last: F64,
        min: F64,
        max: F64,
        count: u32,
    ) -> (outcome: Result<Self, PreviewValidationError>)
        ensures
            ({
                let content = BucketContent {
                    start_time,
                    end_time,
                    first,
                    last,
                    min,
                    max,
                    count,
                };
                match outcome {
                    Ok(bucket) => content.fault() is None && bucket@ == content,
                    Err(error) => content.fault() == Some(error),
                }
            }),
    {
        let bucket = SignalBucket { start_time, end_time, first, last, min, max, count };
        bucket.validate()?;
        Ok(bucket)
    }

    pub fn start_time(self) -> (time: ArrivalTime)
        ensures
            time == self@.start_time,
    {
        self.start_time
    }

    pub fn end_time(self) -> (time: ArrivalTime)
        ensures
            time == self@.end_time,
    {
        self.end_time
    }

    pub fn first(self) -> (value: F64)
        ensures
            value == self@.first,
    {
        self.first
    }

    pub fn last(self) -> (value: F64)
        ensures
            value == self@.last,
    {
        self.last
    }

    pub fn min(self) -> (value: F64)
        ensures
            value == self@.min,
    {
        self.min
    }

    pub fn max(self) -> (value: F64)
        ensures
            value == self@.max,
    {
        self.max
    }

    pub fn count(self) -> (count: u32)
        ensures
            count == self@.count,
    {
        self.count
    }

    pub fn validate(&self) -> (outcome: Result<(), PreviewValidationError>)
        ensures
            match outcome {
                Ok(_) => self@.fault() is None,
                Err(error) => self@.fault() == Some(error),
            },
    {
        if self.start_time.0 > self.end_time.0 {
            return Err(PreviewValidationError::ReversedBucket);
        }
        if self.count == 0 {
            return Err(PreviewValidationError::EmptyBucket);
        }
        if !self.first.is_finite() {
            return Err(PreviewValidationError::BucketNumberNotFinite(BucketNumber::First));
        }
        if !self.last.is_finite() {
            return Err(PreviewValidationError::BucketNumberNotFinite(BucketNumber::Last));
        }
        if !self.min.is_finite() {
            return Err(PreviewValidationError::BucketNumberNotFinite(BucketNumber::Min));
        }
        if !self.max.is_finite() {
            return Err(PreviewValidationError::BucketNumberNotFinite(BucketNumber::Max));
        }
        if self.max.less_than(self.min) {
            return Err(PreviewValidationError::BucketMinAboveMax);
        }
        if self.first.less_than(self.min) || self.max.less_than(self.first) {
            return Err(PreviewValidationError::BucketFirstOutside);
        }
        if self.last.less_than(self.min) || self.max.less_than(self.last) {
            return Err(PreviewValidationError::BucketLastOutside);
        }
        Ok(())
    }
}

/// What each bucket of a list holds.
pub open spec fn bucket_contents(buckets: Seq<SignalBucket>) -> Seq<BucketContent> {
    buckets.map_values(|bucket: SignalBucket| bucket@)
}

/// What is wrong with one bucket of a list: with itself, or that it starts too early.
pub open spec fn bucket_fault(buckets: Seq<BucketContent>, index: int) -> Option<
    PreviewValidationError,
> {
    if buckets[index].fault() is Some {
        buckets[index].fault()
    } else if index > 0 && buckets[index - 1].end_time.0 > buckets[index].start_time.0 {
        Some(PreviewValidationError::UnorderedBuckets(index as usize))
    } else {
        None
    }
}

/// The first thing wrong with a list of buckets.
pub open spec fn buckets_fault(buckets: Seq<BucketContent>) -> Option<PreviewValidationError> {
    first_fault(|index: int| bucket_fault(buckets, index), buckets.len() as int)
}

fn validate_bucket_order(buckets: &[SignalBucket]) -> (outcome: Result<
    (),
    PreviewValidationError,
>)
    ensures
        match outcome {
            Ok(_) => buckets_fault(bucket_contents(buckets@)) is None,
            Err(error) => buckets_fault(bucket_contents(buckets@)) == Some(error),
        },
{
    let ghost list = bucket_contents(buckets@);
    let ghost fault = |index: int| bucket_fault(list, index);
    let mut index: usize = 0;
    while index < buckets.len()
        invariant
            index <= buckets@.len(),
            list == bucket_contents(buckets@),
            fault == (|index: int| bucket_fault(list, index)),
            first_fault(fault, index as int) is None,
        decreases buckets@.len() - index,
    {
        assert(list[index as int] == buckets@[index as int]@);
        assert(fault(index as int) == bucket_fault(list, index as int));
        match buckets[index].validate() {
            Ok(_) => {},
            Err(error) => {
                proof {
                    lemma_first_fault_stays(fault, index + 1, list.len() as int);
                }
                return Err(error);
            },
        }
        if index > 0 {
            assert(list[index - 1] == buckets@[index - 1]@);
            if buckets[index - 1].end_time.0 > buckets[index].start_time.0 {
                proof {
                    lemma_first_fault_stays(fault, index + 1, list.len() as int);
                }
                return Err(PreviewValidationError::UnorderedBuckets(index));
            }
        }
        index = index + 1;
    }
    Ok(())
}

/// How many samples the first `count` buckets stand for.
pub open spec fn total_count(buckets: Seq<BucketContent>, count: int) -> nat
    decreases count,
{
    if count <= 0 {
        0
    } else {
        total_count(buckets, count - 1) + buckets[count - 1].count as nat
    }
}

/// The least of the minima of the first `count` buckets, of which there is at least one.
pub open spec fn least_min(buckets: Seq<BucketContent>, count: int) -> F64
    decreases count,
{
    if count <= 1 {
        buckets[0].min
    } else if buckets[count - 1].min.rank() < least_min(buckets, count - 1).rank() {
        buckets[count - 1].min
    } else {
        least_min(buckets, count - 1)
    }
}

/// The greatest of the maxima of the first `count` buckets, of which there is at least one.
pub open spec fn greatest_max(buckets: Seq<BucketContent>, count: int) -> F64
    decreases count,
{
    if count <= 1 {
        buckets[0].max
    } else if greatest_max(buckets, count - 1).rank() < buckets[count - 1].max.rank() {
        buckets[count - 1].max
    } else {
        greatest_max(buckets, count - 1)
    }
}

/// One bucket for all the samples of a list of buckets.
pub open spec fn merged_bucket(buckets: Seq<BucketContent>) -> BucketContent {
    let count = buckets.len() as int;
    BucketContent {
        start_time: buckets[0].start_time,
        end_time: buckets[count - 1].end_time,
        first: buckets[0].first,
        last: buckets[count - 1].last,
        min: least_min(buckets, count),
        max: greatest_max(buckets, count),
        count: total_count(buckets, count) as u32,
    }
}

/// Why a list of buckets cannot be merged.
pub open spec fn merge_fault(buckets: Seq<BucketContent>) -> Option<PreviewValidationError> {
    if buckets.len() == 0 {
        Some(PreviewValidationError::NothingToMerge)
    } else if buckets_fault(buckets) is Some {
        buckets_fault(buckets)
    } else if total_count(buckets, buckets.len() as int) > u32::MAX {
        Some(PreviewValidationError::MergedCountOverflow)
    } else {
        None
    }
}

proof fn lemma_total_count_grows(buckets: Seq<BucketContent>, few: int, many: int)
    requires
        0 <= few <= many,
    ensures
        total_count(buckets, few) <= total_count(buckets, many),
    decreases many - few,
{
    if few < many {
        lemma_total_count_grows(buckets, few, many - 1);
    }
}

/// The envelope of some buckets encloses each of them, and its ends are theirs.
proof fn lemma_envelope(buckets: Seq<BucketContent>, count: int)
    requires
        1 <= count <= buckets.len(),
        forall|i: int| 0 <= i < count ==> (#[trigger] buckets[i]).fault() is None,
    ensures
        least_min(buckets, count).spec_finite(),
        greatest_max(buckets, count).spec_finite(),
        forall|i: int|
            0 <= i < count ==> least_min(buckets, count).rank() <= (
            #[trigger] buckets[i]).min.rank() && buckets[i].max.rank() <= greatest_max(
                buckets,
                count,
            ).rank(),
        exists|i: int| 0 <= i < count && (#[trigger] buckets[i]).min == least_min(buckets, count),
        exists|i: int|
            0 <= i < count && (#[trigger] buckets[i]).max == greatest_max(buckets, count),
    decreases count,
{
    assert(buckets[count - 1].fault() is None);
    if count == 1 {
        assert(buckets[0].min == least_min(buckets, count));
        assert(buckets[0].max == greatest_max(buckets, count));
    } else {
        lemma_envelope(buckets, count - 1);
        let a = choose|i: int|
            0 <= i < count - 1 && (#[trigger] buckets[i]).min == least_min(buckets, count - 1);
        let b = choose|i: int|
            0 <= i < count - 1 && (#[trigger] buckets[i]).max == greatest_max(buckets, count - 1);
        if least_min(buckets, count) == least_min(buckets, count - 1) {
            assert(buckets[a].min == least_min(buckets, count));
        } else {
            assert(buckets[count - 1].min == least_min(buckets, count));
        }
        if greatest_max(buckets, count) == greatest_max(buckets, count - 1) {
            assert(buckets[b].max == greatest_max(buckets, count));
        } else {
            assert(buckets[count - 1].max == greatest_max(buckets, count));
        }
    }
}

proof fn lemma_bucket_times(buckets: Seq<BucketContent>, count: int)
    requires
        1 <= count <= buckets.len(),
        forall|i: int| 0 <= i < buckets.len() ==> (#[trigger] bucket_fault(buckets, i)) is None,
    ensures
        buckets[0].start_time.0 <= buckets[count - 1].end_time.0,
    decreases count,
{
    assert(bucket_fault(buckets, count - 1) is None);
    if count > 1 {
        lemma_bucket_times(buckets, count - 1);
    }
}

/// Merging keeps the first and the last sample, loses no sample, and its envelope is exactly
/// that of the merged buckets. The merged bucket is valid.
pub proof fn law_merge_keeps_the_envelope(buckets: Seq<BucketContent>)
    requires
        merge_fault(buckets) is None,
    ensures
        merged_bucket(buckets).fault() is None,
        merged_bucket(buckets).count == total_count(buckets, buckets.len() as int),
        forall|i: int|
            0 <= i < buckets.len() ==> merged_bucket(buckets).min.rank() <= (
            #[trigger] buckets[i]).min.rank() && buckets[i].max.rank() <= merged_bucket(
                buckets,
            ).max.rank(),
        exists|i: int|
            0 <= i < buckets.len() && (#[trigger] buckets[i]).min == merged_bucket(buckets).min,
        exists|i: int|
            0 <= i < buckets.len() && (#[trigger] buckets[i]).max == merged_bucket(buckets).max,
{
    let count = buckets.len() as int;
    let fault = |index: int| bucket_fault(buckets, index);
    lemma_no_fault(fault, count);
    assert forall|i: int| 0 <= i < count implies (#[trigger] bucket_fault(buckets, i)) is None by {
        assert(fault(i) is None);
    }
    assert forall|i: int| 0 <= i < count implies (#[trigger] buckets[i]).fault() is None by {
        assert(bucket_fault(buckets, i) is None);
    }
    lemma_envelope(buckets, count);
    lemma_bucket_times(buckets, count);
    lemma_total_count_grows(buckets, 1, count);
    assert(total_count(buckets, 1) == total_count(buckets, 0) + buckets[0].count as nat);
    assert(buckets[0].fault() is None);
    assert(buckets[count - 1].fault() is None);
}

pub fn merge_signal_buckets(buckets: &[SignalBucket]) -> (outcome: Result<
    SignalBucket,
    PreviewValidationError,
>)
    ensures
        match outcome {
            Ok(bucket) => merge_fault(bucket_contents(buckets@)) is None && bucket@
                == merged_bucket(bucket_contents(buckets@)),
            Err(error) => merge_fault(bucket_contents(buckets@)) == Some(error),
        },
{
    let ghost list = bucket_contents(buckets@);
    if buckets.len() == 0 {
        return Err(PreviewValidationError::NothingToMerge);
    }
    validate_bucket_order(buckets)?;
    proof {
        let fault = |index: int| bucket_fault(list, index);
        lemma_no_fault(fault, list.len() as int);
        assert forall|i: int| 0 <= i < list.len() implies (#[trigger] list[i]).fault() is None by {
            assert(fault(i) is None);
        }
        assert(list[0] == buckets@[0]@);
    }
    let first_bucket: SignalBucket = buckets[0];
    let last_bucket: SignalBucket = buckets[buckets.len() - 1];
    let mut count: u32 = first_bucket.count;
    let mut min: F64 = first_bucket.min;
    let mut max: F64 = first_bucket.max;
    let mut index: usize = 1;
    proof {
        assert(total_count(list, 1) == total_count(list, 0) + list[0].count as nat);
    }
    while index < buckets.len()
        invariant
            1 <= index <= buckets@.len(),
            list == bucket_contents(buckets@),
            buckets_fault(list) is None,
            forall|i: int| 0 <= i < list.len() ==> (#[trigger] list[i]).fault() is None,
            count == total_count(list, index as int),
            min == least_min(list, index as int),
            max == greatest_max(list, index as int),
        decreases buckets@.len() - index,
    {
        let bucket: SignalBucket = buckets[index];
        proof {
            assert(list[index as int] == bucket@);
            lemma_envelope(list, index as int);
            assert(bucket@.fault() is None);
        }
        count = match count.checked_add(bucket.count) {
            Some(sum) => sum,
            None => {
                proof {
                    lemma_total_count_grows(list, index + 1, list.len() as int);
                }
                return Err(PreviewValidationError::MergedCountOverflow);
            },
        };
        if bucket.min.less_than(min) {
            min = bucket.min;
        }
        if max.less_than(bucket.max) {
            max = bucket.max;
        }
        index = index + 1;
    }
    proof {
        assert(list[list.len() - 1] == last_bucket@);
        law_merge_keeps_the_envelope(list);
    }
    SignalBucket::new(
        first_bucket.start_time,
        last_bucket.end_time,
        first_bucket.first,
        last_bucket.last,
        min,
        max,
        count,
    )
}

/// The buckets of one signal, in order of time.
#[derive(Clone, Debug, PartialEq)]
pub struct SignalOverview {
    signal_id: SignalId,
    fidelity: SignalFidelity,
    buckets: Vec<SignalBucket>,
}

/// What an overview holds.
pub struct OverviewContent {
    pub signal_id: SignalId,
    pub fidelity: SignalFidelity,
    pub buckets: Seq<BucketContent>,
}

impl View for SignalOverview {
    type V = OverviewContent;

    closed spec fn view(&self) -> OverviewContent {
        OverviewContent {
            signal_id: self.signal_id,
            fidelity: self.fidelity,
            buckets: bucket_contents(self.buckets@),
        }
    }
}

impl OverviewContent {
    pub open spec fn fault(self) -> Option<PreviewValidationError> {
        match self.fidelity {
            SignalFidelity::Envelope { bucket_ns } => if bucket_ns <= 0 {
                Some(PreviewValidationError::EnvelopeNotPositive)
            } else {
                buckets_fault(self.buckets)
            },
            SignalFidelity::Exact => buckets_fault(self.buckets),
        }
    }
}

impl SignalOverview {
    pub fn new(
        signal_id: SignalId,
        fidelity: SignalFidelity,
        buckets: Vec<SignalBucket>,
    ) -> (outcome: Result<Self, PreviewValidationError>)
        ensures
            ({
                let content = OverviewContent {
                    signal_id,
                    fidelity,
                    buckets: bucket_contents(buckets@),
                };
                match outcome {
                    Ok(overview) => content.fault() is None && overview@ == content,
                    Err(error) => content.fault() == Some(error),
                }
            }),
    {
        let overview = SignalOverview { signal_id, fidelity, buckets };
        overview.validate()?;
        Ok(overview)
    }

    pub fn signal_id(&self) -> (id: SignalId)
        ensures
            id == self@.signal_id,
    {
        self.signal_id
    }

    pub fn fidelity(&self) -> (fidelity: SignalFidelity)
        ensures
            fidelity == self@.fidelity,
    {
        self.fidelity
    }

    pub fn buckets(&self) -> (buckets: &[SignalBucket])
        ensures
            bucket_contents(buckets@) == self@.buckets,
    {
        self.buckets.as_slice()
    }

    pub fn validate(&self) -> (outcome: Result<(), PreviewValidationError>)
        ensures
            match outcome {
                Ok(_) => self@.fault() is None,
                Err(error) => self@.fault() == Some(error),
            },
    {
        if let SignalFidelity::Envelope { bucket_ns } = self.fidelity {
            if bucket_ns <= 0 {
                return Err(PreviewValidationError::EnvelopeNotPositive);
            }
        }
        validate_bucket_order(self.buckets.as_slice())
    }
}

#[derive(Clone, Copy, Debug, Eq, PartialEq, Structural)]
pub enum PreviewImageEncoding {
    Jpeg,
}

/// A small image of a camera at one time.
#[derive(Clone, Debug, Eq, PartialEq)]
pub struct CameraPreviewFrame {
    camera_id: CameraId,
    measurement_time: Option<MeasurementTime>,
    arrival_time: ArrivalTime,
    frame_id: String,
    encoding: PreviewImageEncoding,
    width: u32,
    height: u32,
    bytes: Vec<u8>,
}

/// What a preview frame holds.
pub struct PreviewFrameContent {
    pub camera_id: CameraId,
    pub measurement_time: Option<MeasurementTime>,
    pub arrival_time: ArrivalTime,
    pub frame_id: Seq<char>,
    pub encoding: PreviewImageEncoding,
    pub width: u32,
    pub height: u32,
    pub bytes: Seq<u8>,
}

impl View for CameraPreviewFrame {
    type V = PreviewFrameContent;

    closed spec fn view(&self) -> PreviewFrameContent {
        PreviewFrameContent {
            camera_id: self.camera_id,
            measurement_time: self.measurement_time,
            arrival_time: self.arrival_time,
            frame_id: self.frame_id@,
            encoding: self.encoding,
            width: self.width,
            height: self.height,
            bytes: self.bytes@,
        }
    }
}

impl PreviewFrameContent {
    pub open spec fn fault(self) -> Option<PreviewValidationError> {
        if self.width == 0 || self.height == 0 {
            Some(PreviewValidationError::EmptyCameraSize)
        } else if self.bytes.len() == 0 {
            Some(PreviewValidationError::EmptyCameraBytes)
        } else {
            None
        }
    }
}

impl CameraPreviewFrame {
    pub fn new(
        camera_id: CameraId,
        measurement_time: Option<MeasurementTime>,
        arrival_time: ArrivalTime,
        frame_id: String,
        encoding: PreviewImageEncoding,
        width: u32,
        height: u32,
        bytes: Vec<u8>,
    ) -> (outcome: Result<Self, PreviewValidationError>)
        ensures
            ({
                let content = PreviewFrameContent {
                    camera_id,
                    measurement_time,
                    arrival_time,
                    frame_id: frame_id@,
                    encoding,
                    width,
                    height,
                    bytes: bytes@,
                };
                match outcome {
                    Ok(frame) => content.fault() is None && frame@ == content,
                    Err(error) => content.fault() == Some(error),
                }
            }),
    {
        let frame = CameraPreviewFrame {
            camera_id,
            measurement_time,
            arrival_time,
            frame_id,
            encoding,
            width,
            height,
            bytes,
        };
        frame.validate()?;
        Ok(frame)
    }

    pub fn camera_id(&self) -> (id: CameraId)
        ensures
            id == self@.camera_id,
    {
        self.camera_id
    }

    pub fn measurement_time(&self) -> (time: Option<MeasurementTime>)
        ensures
            time == self@.measurement_time,
    {
        self.measurement_time
    }

    pub fn arrival_time(&self) -> (time: ArrivalTime)
        ensures
            time == self@.arrival_time,
    {
        self.arrival_time
    }

    pub fn frame_id(&self) -> (id: &str)
        ensures
            id@ == self@.frame_id,
    {
        self.frame_id.as_str()
    }

    pub fn encoding(&self) -> (encoding: PreviewImageEncoding)
        ensures
            encoding == self@.encoding,
    {
        self.encoding
    }

    pub fn width(&self) -> (width: u32)
        ensures
            width == self@.width,
    {
        self.width
    }

    pub fn height(&self) -> (height: u32)
        ensures
            height == self@.height,
    {
        self.height
    }

    pub fn bytes(&self) -> (bytes: &[u8])
        ensures
            bytes@ == self@.bytes,
    {
        self.bytes.as_slice()
    }

    pub fn validate(&self) -> (outcome: Result<(), PreviewValidationError>)
        ensures
            match outcome {
                Ok(_) => self@.fault() is None,
                Err(error) => self@.fault() == Some(error),
            },
    {
        if self.width == 0 || self.height == 0 {
            return Err(PreviewValidationError::EmptyCameraSize);
        }
        if self.bytes.len() == 0 {
            return Err(PreviewValidationError::EmptyCameraBytes);
        }
        Ok(())
    }
}

/// A planar position at one time.
#[derive(Clone, Copy, Debug, PartialEq)]
pub struct TimedPosition2 {
    time: ArrivalTime,
    position: [F32; 2],
}

/// What a timed position holds.
pub struct PositionContent {
    pub time: ArrivalTime,
    pub position: [F32; 2],
}

impl View for TimedPosition2 {
    type V = PositionContent;

    closed spec fn view(&self) -> PositionContent {
        PositionContent { time: self.time, position: self.position }
    }
}

impl PositionContent {
    pub open spec fn finite(self) -> bool {
        self.position@[0].spec_finite() && self.position@[1].spec_finite()
    }
}

impl TimedPosition2 {
    pub fn new(time: ArrivalTime, position: [F32; 2]) -> (outcome: Result<
        Self,
        PreviewValidationError,
    >)
        ensures
            ({
                let content = PositionContent { time, position };
                match outcome {
                    Ok(timed) => content.finite() && timed@ == content,
                    Err(error) => !content.finite() && error
                        == PreviewValidationError::PositionNotFinite,
                }
            }),
    {
        if !position[0].is_finite() || !position[1].is_finite() {
            return Err(PreviewValidationError::PositionNotFinite);
        }
        Ok(TimedPosition2 { time, position })
    }

    pub fn time(self) -> (time: ArrivalTime)
        ensures
            time == self@.time,
    {
        self.time
    }

    pub fn position(self) -> (position: [F32; 2])
        ensures
            position == self@.position,
    {
        self.position
    }
}

/// What is available at a glance of a range of a recording.
#[derive(Clone, Debug, PartialEq)]
pub struct PreviewSnapshot {
    fidelity: DataFidelity,
    available_range: TimeRange,
    camera_frames: Vec<CameraPreviewFrame>,
    signal_overviews: Vec<SignalOverview>,
    trajectory: Vec<TimedPosition2>,
}

/// What a snapshot holds.
pub struct SnapshotContent {
    pub fidelity: DataFidelity,
    pub available_range: TimeRange,
    pub camera_frames: Seq<PreviewFrameContent>,
    pub signal_overviews: Seq<OverviewContent>,
    pub trajectory: Seq<PositionContent>,
}

pub open spec fn frame_contents(frames: Seq<CameraPreviewFrame>) -> Seq<PreviewFrameContent> {
    frames.map_values(|frame: CameraPreviewFrame| frame@)
}

pub open spec fn overview_contents(overviews: Seq<SignalOverview>) -> Seq<OverviewContent> {
    overviews.map_values(|overview: SignalOverview| overview@)
}

pub open spec fn position_contents(positions: Seq<TimedPosition2>) -> Seq<PositionContent> {
    positions.map_values(|position: TimedPosition2| position@)
}

impl View for PreviewSnapshot {
    type V = SnapshotContent;

    closed spec fn view(&self) -> SnapshotContent {
        SnapshotContent {
            fidelity: self.fidelity,
            available_range: self.available_range,
            camera_frames: frame_contents(self.camera_frames@),
            signal_overviews: overview_contents(self.signal_overviews@),
            trajectory: position_contents(self.trajectory@),
        }
    }
}

/// What is wrong with one position of a trajectory: its numbers, or that it comes too late.
pub open spec fn position_fault(trajectory: Seq<PositionContent>, index: int) -> Option<
    PreviewValidationError,
> {
    if !trajectory[index].finite() {
        Some(PreviewValidationError::TrajectoryNotFinite(index as usize))
    } else if index > 0 && trajectory[index - 1].time.0 > trajectory[index].time.0 {
        Some(PreviewValidationError::UnorderedTrajectory(index as usize))
    } else {
        None
    }
}

pub open spec fn frames_fault(frames: Seq<PreviewFrameContent>) -> Option<PreviewValidationError> {
    first_fault(|index: int| frames[index].fault(), frames.len() as int)
}

pub open spec fn overviews_fault(overviews: Seq<OverviewContent>) -> Option<
    PreviewValidationError,
> {
    first_fault(|index: int| overviews[index].fault(), overviews.len() as int)
}

pub open spec fn trajectory_fault(trajectory: Seq<PositionContent>) -> Option<
    PreviewValidationError,
> {
    first_fault(|index: int| position_fault(trajectory, index), trajectory.len() as int)
}

impl SnapshotContent {
    /// The first thing wrong with the snapshot.
    pub open spec fn fault(self) -> Option<PreviewValidationError> {
        if frames_fault(self.camera_frames) is Some {
            frames_fault(self.camera_frames)
        } else if overviews_fault(self.signal_overviews) is Some {
            overviews_fault(self.signal_overviews)
        } else {
            trajectory_fault(self.trajectory)
        }
    }
}

fn validate_frames(frames: &Vec<CameraPreviewFrame>) -> (outcome: Result<
    (),
    PreviewValidationError,
>)
    ensures
        match outcome {
            Ok(_) => frames_fault(frame_contents(frames@)) is None,
            Err(error) => frames_fault(frame_contents(frames@)) == Some(error),
        },
{
    let ghost list = frame_contents(frames@);
    let ghost fault = |index: int| list[index].fault();
    let mut index: usize = 0;
    while index < frames.len()
        invariant
            index <= frames@.len(),
            list == frame_contents(frames@),
            fault == (|index: int| list[index].fault()),
            first_fault(fault, index as int) is None,
        decreases frames@.len() - index,
    {
        assert(list[index as int] == frames@[index as int]@);
        match frames[index].validate() {
            Ok(_) => {},
            Err(error) => {
                proof {
                    lemma_first_fault_stays(fault, index + 1, list.len() as int);
                }
                return Err(error);
            },
        }
        index = index + 1;
    }
    Ok(())
}

fn validate_overviews(overviews: &Vec<SignalOverview>) -> (outcome: Result<
    (),
    PreviewValidationError,
>)
    ensures
        match outcome {
            Ok(_) => overviews_fault(overview_contents(overviews@)) is None,
            Err(error) => overviews_fault(overview_contents(overviews@)) == Some(error),
        },
{
    let ghost list = overview_contents(overviews@);
    let ghost fault = |index: int| list[index].fault();
    let mut index: usize = 0;
    while index < overviews.len()
        invariant
            index <= overviews@.len(),
            list == overview_contents(overviews@),
            fault == (|index: int| list[index].fault()),
            first_fault(fault, index as int) is None,
        decreases overviews@.len() - index,
    {
        assert(list[index as int] == overviews@[index as int]@);
        match overviews[index].validate() {
            Ok(_) => {},
            Err(error) => {
                proof {
                    lemma_first_fault_stays(fault, index + 1, list.len() as int);
                }
                return Err(error);
            },
        }
        index = index + 1;
    }
    Ok(())
}

fn validate_trajectory(trajectory: &Vec<TimedPosition2>) -> (outcome: Result<
    (),
    PreviewValidationError,
>)
    ensures
        match outcome {
            Ok(_) => trajectory_fault(position_contents(trajectory@)) is None,
            Err(error) => trajectory_fault(position_contents(trajectory@)) == Some(error),
        },
{
    let ghost list = position_contents(trajectory@);
    let ghost fault = |index: int| position_fault(list, index);
    let mut index: usize = 0;
    while index < trajectory.len()
        invariant
            index <= trajectory@.len(),
            list == position_contents(trajectory@),
            fault == (|index: int| position_fault(list, index)),
            first_fault(fault, index as int) is None,
        decreases trajectory@.len() - index,
    {
        let timed: TimedPosition2 = trajectory[index];
        assert(list[index as int] == timed@);
        assert(fault(index as int) == position_fault(list, index as int));
        if !timed.position[0].is_finite() || !timed.position[1].is_finite() {
            proof {
                lemma_first_fault_stays(fault, index + 1, list.len() as int);
            }
            return Err(PreviewValidationError::TrajectoryNotFinite(index));
        }
        if index > 0 {
            assert(list[index - 1] == trajectory@[index - 1]@);
            if trajectory[index - 1].time.0 > timed.time.0 {
                proof {
                    lemma_first_fault_stays(fault, index + 1, list.len() as int);
                }
                return Err(PreviewValidationError::UnorderedTrajectory(index));
            }
        }
        index = index + 1;
    }
    Ok(())
}

impl PreviewSnapshot {
    pub fn new(
        fidelity: DataFidelity,
        available_range: TimeRange,
        camera_frames: Vec<CameraPreviewFrame>,
        signal_overviews: Vec<SignalOverview>,
        trajectory: Vec<TimedPosition2>,
    ) -> (outcome: Result<Self, PreviewValidationError>)
        ensures
            ({
                let content = SnapshotContent {
                    fidelity,
                    available_range,
                    camera_frames: frame_contents(camera_frames@),
                    signal_overviews: overview_contents(signal_overviews@),
                    trajectory: position_contents(trajectory@),
                };
                match outcome {
                    Ok(snapshot) => content.fault() is None && snapshot@ == content,
                    Err(error) => content.fault() == Some(error),
                }
            }),
    {
        let snapshot = PreviewSnapshot {
            fidelity,
            available_range,
            camera_frames,
            signal_overviews,
            trajectory,
        };
        snapshot.validate()?;
        Ok(snapshot)
    }

    pub fn fidelity(&self) -> (fidelity: DataFidelity)
        ensures
            fidelity == self@.fidelity,
    {
        self.fidelity
    }

    pub fn available_range(&self) -> (range: TimeRange)
        ensures
            range == self@.available_range,
    {
        self.available_range
    }

    pub fn camera_frames(&self) -> (frames: &[CameraPreviewFrame])
        ensures
            frame_contents(frames@) == self@.camera_frames,
    {
        self.camera_frames.as_slice()
    }

    pub fn signal_overviews(&self) -> (overviews: &[SignalOverview])
        ensures
            overview_contents(overviews@) == self@.signal_overviews,
    {
        self.signal_overviews.as_slice()
    }

    pub fn trajectory(&self) -> (trajectory: &[TimedPosition2])
        ensures
            position_contents(trajectory@) == self@.trajectory,
    {
        self.trajectory.as_slice()
    }

    pub fn validate(&self) -> (outcome: Result<(), PreviewValidationError>)
        ensures
            match outcome {
                Ok(_) => self@.fault() is None,
                Err(error) => self@.fault() == Some(error),
            },
    {
        validate_frames(&self.camera_frames)?;
        validate_overviews(&self.signal_overviews)?;
        validate_trajectory(&self.trajectory)
    }
}

/// A merged bucket spans from the start of the first bucket to the end of the last one, begins with the
/// first sample and ends with the last one, and stands for as many samples as the buckets together.
pub proof fn law_merge_keeps_the_ends(front: Seq<BucketContent>, last: BucketContent)
    requires
        merge_fault(front.push(last)) is None,
    ensures
        ({
            let all = merged_bucket(front.push(last));
            let rest = merged_bucket(front);
            &&& all.end_time == last.end_time
            &&& all.last == last.last
            &&& front.len() == 0 ==> all == last
            &&& front.len() > 0 ==> all.start_time == rest.start_time && all.first == rest.first
                && all.count == rest.count + last.count
        }),
{
    let all = front.push(last);
    let count = all.len() as int;
    lemma_totals_of_front(front, last, front.len() as int);
    reveal_with_fuel(total_count, 2);
    if front.len() == 0 {
        assert(all[0] == last);
        assert(total_count(all, 1) == last.count);
    } else {
        assert(all[0] == front[0]);
        assert(total_count(all, count) == total_count(front, front.len() as int) + last.count);
    }
}

proof fn lemma_totals_of_front(front: Seq<BucketContent>, last: BucketContent, count: int)
    requires
        0 <= count <= front.len(),
    ensures
        total_count(front.push(last), count) == total_count(front, count),
    decreases count,
{
    if count > 0 {
        lemma_totals_of_front(front, last, count - 1);
    }
}

/// A bucket is valid exactly where it does not end before it starts, stands for a sample, holds finite
/// numbers, and has its first and its last one between its least and its greatest.
pub proof fn law_valid_buckets_hold_their_samples(bucket: BucketContent)
    ensures
        bucket.fault() is None <==> {
            &&& bucket.start_time.0 <= bucket.end_time.0
            &&& bucket.count >= 1
            &&& bucket.first.spec_finite() && bucket.last.spec_finite()
            &&& bucket.min.spec_finite() && bucket.max.spec_finite()
            &&& bucket.min.rank() <= bucket.first.rank() <= bucket.max.rank()
            &&& bucket.min.rank() <= bucket.last.rank() <= bucket.max.rank()
        },
{
}

proof fn lemma_all_faultless(fault: spec_fn(int) -> Option<PreviewValidationError>, count: int)
    requires
        forall|i: int| 0 <= i < count ==> (#[trigger] fault(i)) is None,
    ensures
        first_fault(fault, count) is None,
    decreases count,
{
    if count > 0 {
        lemma_all_faultless(fault, count - 1);
        assert(fault(count - 1) is None);
    }
}

/// A trajectory is valid exactly where its positions are finite and none comes before the one ahead of
/// it.
pub proof fn law_valid_trajectories_go_on_in_time(trajectory: Seq<PositionContent>)
    ensures
        trajectory_fault(trajectory) is None <==> {
            &&& forall|i: int|
                0 <= i < trajectory.len() ==> (#[trigger] trajectory[i]).position@[0].spec_finite()
                    && trajectory[i].position@[1].spec_finite()
            &&& forall|i: int|
                0 < i < trajectory.len() ==> trajectory[i - 1].time.0 <= (
                #[trigger] trajectory[i]).time.0
        },
{
    let fault = |index: int| position_fault(trajectory, index);
    let count = trajectory.len() as int;
    if trajectory_fault(trajectory) is None {
        lemma_no_fault(fault, count);
        assert forall|i: int| 0 <= i < count implies (
        #[trigger] trajectory[i]).position@[0].spec_finite()
            && trajectory[i].position@[1].spec_finite() && (i > 0 ==> trajectory[i - 1].time.0
            <= trajectory[i].time.0) by {
            assert(fault(i) is None);
        }
    } else if (forall|i: int|
        0 <= i < trajectory.len() ==> (#[trigger] trajectory[i]).position@[0].spec_finite()
            && trajectory[i].position@[1].spec_finite()) && (forall|i: int|
        0 < i < trajectory.len() ==> trajectory[i - 1].time.0 <= (
        #[trigger] trajectory[i]).time.0) {
        assert forall|i: int| 0 <= i < count implies (#[trigger] fault(i)) is None by {
            assert(trajectory[i].position@[0].spec_finite());
        }
        lemma_all_faultless(fault, count);
    }
}

/// Buckets are in order exactly where each is valid and none starts before the one ahead of it ends.
pub proof fn law_valid_buckets_follow_each_other(buckets: Seq<BucketContent>)
    ensures
        buckets_fault(buckets) is None <==> {
            &&& forall|i: int| 0 <= i < buckets.len() ==> (#[trigger] buckets[i]).fault() is None
            &&& forall|i: int|
                0 < i < buckets.len() ==> buckets[i - 1].end_time.0 <= (
                #[trigger] buckets[i]).start_time.0
        },
{
    let fault = |index: int| bucket_fault(buckets, index);
    let count = buckets.len() as int;
    if buckets_fault(buckets) is None {
        lemma_no_fault(fault, count);
        assert forall|i: int| 0 <= i < count implies (#[trigger] buckets[i]).fault() is None && (i
            > 0 ==> buckets[i - 1].end_time.0 <= buckets[i].start_time.0) by {
            assert(fault(i) is None);
        }
    } else if (forall|i: int| 0 <= i < buckets.len() ==> (#[trigger] buckets[i]).fault() is None)
        && (forall|i: int|
        0 < i < buckets.len() ==> buckets[i - 1].end_time.0 <= (
        #[trigger] buckets[i]).start_time.0) {
        assert forall|i: int| 0 <= i < count implies (#[trigger] fault(i)) is None by {
            assert(buckets[i].fault() is None);
        }
        lemma_all_faultless(fault, count);
    }
}

} // verus!

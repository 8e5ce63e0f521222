//! What a seek reads of a recording.

use crate::message::text::{self, push_decimal, push_signed};
use crate::message::time::{self, saturating_difference, ArrivalTime};
use crate::playback::data_window::TimeRange;
use crate::recording::raw::StreamId;
use crate::recording::local_restore::lemma_in_pushed;
use crate::recording::session::{RecordingTimeRange, SourceCatalog, StreamContent};
use vstd::prelude::*;
use vstd::string::*;

verus! {

/// What a feature needs of a stream to be shown as of a time.
#[derive(Clone, Copy, Debug, Eq, PartialEq, Structural)]
pub enum RestoreSemantics {
    /// The last message at or before the time.
    LatestBefore,
    /// Every message of so many nanoseconds before the time.
    History(i64),
    /// Every message up to the time.
    Persistent,
}

/// A stream that a seek has to read, and how.
#[derive(Clone, Copy, Debug, Eq, PartialEq, Structural)]
pub struct RestoreInput {
    pub stream: StreamId,
    pub semantics: RestoreSemantics,
}

/// Every message of some streams within a range.
#[derive(Clone, Debug, Eq, PartialEq)]
pub struct RestoreRead {
    pub streams: Vec<StreamId>,
    pub range: TimeRange,
}

/// What to read of a recording to show it as of a time.
#[derive(Clone, Debug, Eq, PartialEq)]
pub struct RestorePlan {
    pub target: ArrivalTime,
    pub latest_before: Vec<StreamId>,
    pub histories: Vec<RestoreRead>,
    pub persistent: Vec<StreamId>,
}

/// What a plan holds. A history is a stream and the range to read of it.
pub struct RestoreContent {
    pub target: ArrivalTime,
    pub latest_before: Seq<StreamId>,
    pub histories: Seq<(Seq<StreamId>, TimeRange)>,
    pub persistent: Seq<StreamId>,
}

/// What each read of a list holds.
pub open spec fn read_contents(reads: Seq<RestoreRead>) -> Seq<(Seq<StreamId>, TimeRange)> {
    reads.map_values(|read: RestoreRead| (read.streams@, read.range))
}

impl View for RestorePlan {
    type V = RestoreContent;

    open spec fn view(&self) -> RestoreContent {
        RestoreContent {
            target: self.target,
            latest_before: self.latest_before@,
            histories: read_contents(self.histories@),
            persistent: self.persistent@,
        }
    }
}

/// Why no plan can be made.
#[derive(Clone, Copy, Debug, Eq, PartialEq, Structural)]
pub enum RestorePlanError {
    NoTimeRange,
    OutsideRecording(ArrivalTime),
    UnknownStream(StreamId),
}

impl RestorePlanError {
    pub open spec fn spec_message(self) -> Seq<char> {
        match self {
            RestorePlanError::NoTimeRange => "recording catalog has no time range"@,
            RestorePlanError::OutsideRecording(target) => "restore target "@
                + text::signed_decimal(target.0 as int) + " is outside the recording"@,
            RestorePlanError::UnknownStream(stream) => "restore references unknown stream "@
                + text::decimal(stream.0 as nat),
        }
    }

    /// The error as a sentence for the user.
    pub fn message(&self) -> (sentence: String)
        ensures
            sentence@ == self.spec_message(),
    {
        match self {
            RestorePlanError::NoTimeRange => "recording catalog has no time range".to_owned(),
            RestorePlanError::OutsideRecording(target) => {
                let mut sentence: String = "restore target ".to_owned();
                push_signed(&mut sentence, target.0);
                sentence.append(" is outside the recording");
                sentence
            },
            RestorePlanError::UnknownStream(stream) => {
                let mut sentence: String = "restore references unknown stream ".to_owned();
                push_decimal(&mut sentence, stream.0 as u64);
                sentence
            },
        }
    }
}

/// The range of a history that ends with the target and starts within the recording.
pub open spec fn history_range(start: ArrivalTime, target: ArrivalTime, length: i64) -> TimeRange {
    let from = time::saturated(target.0 - length);
    TimeRange {
        start: if from < start.0 {
            start
        } else {
            ArrivalTime(from)
        },
        end_exclusive: ArrivalTime((target.0 + 1) as i64),
    }
}

impl RestoreContent {
    /// A plan that reads nothing.
    pub open spec fn nothing(target: ArrivalTime) -> Self {
        RestoreContent {
            target,
            latest_before: Seq::empty(),
            histories: Seq::empty(),
            persistent: Seq::empty(),
        }
    }

    /// The plan with one more input.
    pub open spec fn with(self, start: ArrivalTime, input: RestoreInput) -> Self {
        match input.semantics {
            RestoreSemantics::LatestBefore => RestoreContent {
                latest_before: self.latest_before.push(input.stream),
                ..self
            },
            RestoreSemantics::History(length) => RestoreContent {
                histories: self.histories.push(
                    (seq![input.stream], history_range(start, self.target, length)),
                ),
                ..self
            },
            RestoreSemantics::Persistent => RestoreContent {
                persistent: self.persistent.push(input.stream),
                ..self
            },
        }
    }
}

/// The recording offers the stream.
pub open spec fn offered(streams: Seq<StreamContent>, id: StreamId) -> bool {
    exists|i: int| 0 <= i < streams.len() && (#[trigger] streams[i]).id == id
}

/// The plan for inputs in order, or the first input that the recording does not offer.
pub open spec fn planned(
    streams: Seq<StreamContent>,
    start: ArrivalTime,
    target: ArrivalTime,
    inputs: Seq<RestoreInput>,
) -> Result<RestoreContent, RestorePlanError>
    decreases inputs.len(),
{
    if inputs.len() == 0 {
        Ok(RestoreContent::nothing(target))
    } else {
        match planned(streams, start, target, inputs.drop_last()) {
            Err(error) => Err(error),
            Ok(plan) => if offered(streams, inputs.last().stream) {
                Ok(plan.with(start, inputs.last()))
            } else {
                Err(RestorePlanError::UnknownStream(inputs.last().stream))
            },
        }
    }
}

/// What a plan for a recording comes to.
pub open spec fn plan_outcome(
    range: Option<RecordingTimeRange>,
    streams: Seq<StreamContent>,
    target: ArrivalTime,
    inputs: Seq<RestoreInput>,
) -> Result<RestoreContent, RestorePlanError> {
    match range {
        None => Err(RestorePlanError::NoTimeRange),
        Some(range) => if range.start.0 <= target.0 < range.end_exclusive.0 {
            planned(streams, range.start, target, inputs)
        } else {
            Err(RestorePlanError::OutsideRecording(target))
        },
    }
}

proof fn lemma_unknown_stays(
    streams: Seq<StreamContent>,
    start: ArrivalTime,
    target: ArrivalTime,
    inputs: Seq<RestoreInput>,
    count: int,
)
    requires
        0 <= count <= inputs.len(),
        planned(streams, start, target, inputs.take(count)) is Err,
    ensures
        planned(streams, start, target, inputs) == planned(
            streams,
            start,
            target,
            inputs.take(count),
        ),
    decreases inputs.len() - count,
{
    if count < inputs.len() {
        assert(inputs.take(count + 1).drop_last() =~= inputs.take(count));
        lemma_unknown_stays(streams, start, target, inputs, count + 1);
    } else {
        assert(inputs.take(count) =~= inputs);
    }
}

impl RestorePlan {
    fn add_input(&mut self, start: ArrivalTime, input: RestoreInput)
        requires
            old(self).target.0 < i64::MAX,
        ensures
            final(self)@ == old(self)@.with(start, input),
    {
        match input.semantics {
            RestoreSemantics::LatestBefore => {
                self.latest_before.push(input.stream);
            },
            RestoreSemantics::History(length) => {
                let from: i64 = saturating_difference(self.target.0, length);
                let first: ArrivalTime = if from < start.0 {
                    start
                } else {
                    ArrivalTime(from)
                };
                let mut streams: Vec<StreamId> = Vec::new();
                streams.push(input.stream);
                assert(streams@ =~= seq![input.stream]);
                let range = TimeRange {
                    start: first,
                    end_exclusive: ArrivalTime(self.target.0 + 1),
                };
                let ghost before = self.histories@;
                self.histories.push(RestoreRead { streams, range });
                assert(read_contents(self.histories@) =~= read_contents(before).push(
                    (seq![input.stream], range),
                ));
            },
            RestoreSemantics::Persistent => {
                self.persistent.push(input.stream);
            },
        }
    }
}

/// Plans what a seek reads of a recording.
pub struct RestorePlanner<'a> {
    catalog: &'a SourceCatalog,
}

impl<'a> RestorePlanner<'a> {
    pub closed spec fn spec_catalog(&self) -> SourceCatalog {
        *self.catalog
    }

    pub fn new(catalog: &'a SourceCatalog) -> (planner: Self)
        ensures
            planner.spec_catalog() == *catalog,
    {
        RestorePlanner { catalog }
    }

    /// What to read to show the recording as of a target.
    pub fn plan(&self, target: ArrivalTime, inputs: &[RestoreInput]) -> (outcome: Result<
        RestorePlan,
        RestorePlanError,
    >)
        ensures
            ({
                let expected = plan_outcome(
                    self.spec_catalog().time_range,
                    self.spec_catalog().content(),
                    target,
                    inputs@,
                );
                match outcome {
                    Ok(plan) => expected == Ok::<RestoreContent, RestorePlanError>(plan@),
                    Err(error) => expected == Err::<RestoreContent, RestorePlanError>(error),
                }
            }),
    {
        let range: RecordingTimeRange = match self.catalog.time_range {
            Some(range) => range,
            None => return Err(RestorePlanError::NoTimeRange),
        };
        if target.0 < range.start.0 || target.0 >= range.end_exclusive.0 {
            return Err(RestorePlanError::OutsideRecording(target));
        }
        let ghost streams = self.catalog.content();
        let mut plan = RestorePlan {
            target,
            latest_before: Vec::new(),
            histories: Vec::new(),
            persistent: Vec::new(),
        };
        let mut index: usize = 0;
        proof {
            assert(inputs@.take(0) =~= Seq::empty());
            assert(plan@.histories =~= Seq::empty());
        }
        while index < inputs.len()
            invariant
                index <= inputs@.len(),
                range.start.0 <= target.0 < range.end_exclusive.0,
                self.catalog.time_range == Some(range),
                plan.target == target,
                streams == self.catalog.content(),
                planned(streams, range.start, target, inputs@.take(index as int)) == Ok::<
                    RestoreContent,
                    RestorePlanError,
                >(plan@),
            decreases inputs@.len() - index,
        {
            let input: RestoreInput = inputs[index];
            proof {
                assert(inputs@.take(index + 1).drop_last() =~= inputs@.take(index as int));
            }
            match self.catalog.by_id(input.stream) {
                Some(_) => {
                    plan.add_input(range.start, input);
                },
                None => {
                    proof {
                        lemma_unknown_stays(streams, range.start, target, inputs@, index + 1);
                    }
                    return Err(RestorePlanError::UnknownStream(input.stream));
                },
            }
            assert(plan@.target == target);
            index = index + 1;
        }
        assert(inputs@.take(inputs@.len() as int) =~= inputs@);
        Ok(plan)
    }
}

/// A plan reads each history up to its target and not beyond, and not before the recording starts.
pub proof fn law_histories_end_at_the_target(
    streams: Seq<StreamContent>,
    start: ArrivalTime,
    target: ArrivalTime,
    inputs: Seq<RestoreInput>,
    index: int,
)
    requires
        start.0 <= target.0 < i64::MAX,
        planned(streams, start, target, inputs) is Ok,
        0 <= index < planned(streams, start, target, inputs)->Ok_0.histories.len(),
    ensures
        ({
            let range = planned(streams, start, target, inputs)->Ok_0.histories[index].1;
            start.0 <= range.start.0 && range.end_exclusive.0 == target.0 + 1
        }),
    decreases inputs.len(),
{
    if inputs.len() > 0 {
        let earlier = planned(streams, start, target, inputs.drop_last());
        lemma_plan_keeps_target(streams, start, target, inputs.drop_last());
        if index < earlier->Ok_0.histories.len() {
            law_histories_end_at_the_target(streams, start, target, inputs.drop_last(), index);
        }
    }
}

proof fn lemma_plan_keeps_target(
    streams: Seq<StreamContent>,
    start: ArrivalTime,
    target: ArrivalTime,
    inputs: Seq<RestoreInput>,
)
    requires
        planned(streams, start, target, inputs) is Ok,
    ensures
        planned(streams, start, target, inputs)->Ok_0.target == target,
    decreases inputs.len(),
{
    if inputs.len() > 0 {
        lemma_plan_keeps_target(streams, start, target, inputs.drop_last());
    }
}

/// A plan reads of each input what it needs to be shown as of the target: the latest message of the
/// one, every message of so many nanoseconds up to the target of the other, every message of the
/// third, and nothing else.
#[verifier::rlimit(60)]
pub proof fn law_plans_read_what_each_input_needs(
    streams: Seq<StreamContent>,
    start: ArrivalTime,
    target: ArrivalTime,
    inputs: Seq<RestoreInput>,
    stream: StreamId,
    length: i64,
    range: TimeRange,
)
    requires
        planned(streams, start, target, inputs) is Ok,
        start.0 <= target.0 < i64::MAX,
        0 < length,
        range.start.0 == if target.0 - length < start.0 {
            start.0 as int
        } else {
            target.0 - length
        },
        range.end_exclusive.0 == target.0 + 1,
    ensures
        ({
            let plan = planned(streams, start, target, inputs)->Ok_0;
            &&& plan.target == target
            &&& plan.latest_before.contains(stream) <==> inputs.contains(
                RestoreInput { stream, semantics: RestoreSemantics::LatestBefore },
            )
            &&& plan.persistent.contains(stream) <==> inputs.contains(
                RestoreInput { stream, semantics: RestoreSemantics::Persistent },
            )
            &&& inputs.contains(
                RestoreInput { stream, semantics: RestoreSemantics::History(length) },
            ) ==> plan.histories.contains((seq![stream], range))
            &&& plan.latest_before.len() + plan.persistent.len() + plan.histories.len()
                == inputs.len()
        }),
    decreases inputs.len(),
{
    if inputs.len() > 0 {
        let front = inputs.drop_last();
        let last = inputs.last();
        law_plans_read_what_each_input_needs(
            streams,
            start,
            target,
            front,
            stream,
            length,
            range,
        );
        let before = planned(streams, start, target, front)->Ok_0;
        let after = planned(streams, start, target, inputs)->Ok_0;
        assert(inputs =~= front.push(last));
        let one = RestoreInput { stream, semantics: RestoreSemantics::LatestBefore };
        let two = RestoreInput { stream, semantics: RestoreSemantics::Persistent };
        let three = RestoreInput { stream, semantics: RestoreSemantics::History(length) };
        lemma_in_pushed(front, last, one);
        lemma_in_pushed(front, last, two);
        lemma_in_pushed(front, last, three);
        lemma_in_pushed(before.latest_before, last.stream, stream);
        lemma_in_pushed(before.persistent, last.stream, stream);
        if let RestoreSemantics::History(span) = last.semantics {
            let added = (seq![last.stream], history_range(start, target, span));
            lemma_in_pushed(before.histories, added, (seq![stream], range));
            if last == three {
                assert(history_range(start, target, length) == range);
            }
        }
    }
}

/// A plan is made for every time of the recording and for no other, where the recording offers every
/// stream that is to be read.
pub proof fn law_plans_are_made_within_the_recording(
    range: RecordingTimeRange,
    streams: Seq<StreamContent>,
    target: ArrivalTime,
    inputs: Seq<RestoreInput>,
)
    requires
        forall|i: int| 0 <= i < inputs.len() ==> offered(streams, (#[trigger] inputs[i]).stream),
    ensures
        plan_outcome(Some(range), streams, target, inputs) is Ok <==> range.start.0 <= target.0
            < range.end_exclusive.0,
        plan_outcome(None, streams, target, inputs) is Err,
{
    lemma_offered_inputs_are_planned(streams, range.start, target, inputs);
}

proof fn lemma_offered_inputs_are_planned(
    streams: Seq<StreamContent>,
    start: ArrivalTime,
    target: ArrivalTime,
    inputs: Seq<RestoreInput>,
)
    requires
        forall|i: int| 0 <= i < inputs.len() ==> offered(streams, (#[trigger] inputs[i]).stream),
    ensures
        planned(streams, start, target, inputs) is Ok,
    decreases inputs.len(),
{
    if inputs.len() > 0 {
        assert(offered(streams, inputs[inputs.len() - 1].stream));
        assert forall|i: int| 0 <= i < inputs.drop_last().len() implies offered(
            streams,
            (#[trigger] inputs.drop_last()[i]).stream,
        ) by {
            assert(offered(streams, inputs[i].stream));
        }
        lemma_offered_inputs_are_planned(streams, start, target, inputs.drop_last());
    }
}

} // verus!

//! The catalog of an MCAP file that is read piece by piece.

use crate::message::time::ArrivalTime;
use crate::recording::mcap_facts::{
    self, channels_of, chunks_of, span_of, ChannelContent, ChannelFact, ChunkContent, ChunkFact,
    TimeSpan,
};
use crate::recording::mcap_source::{self, sorted_streams};
use crate::recording::requirements::{
    self, PlaybackRequirements, SessionPlanError, WorkspaceBindings,
};
use crate::recording::session::{
    self, RecordingTimeRange, SessionPlan, SourceCatalog, StreamDescriptor,
};
use mcap::Summary;
use vstd::prelude::*;
use vstd::string::*;

verus! {

/// The chunks, the channels and the time span of a file.
pub struct SummaryFacts {
    chunks: Vec<ChunkFact>,
    channels: Vec<ChannelFact>,
    span: Option<TimeSpan>,
    about: Ghost<Map<u16, ChannelContent>>,
}

/// What the facts say.
pub struct FactsContent {
    pub chunks: Seq<ChunkContent>,
    pub channels: Map<u16, ChannelContent>,
    pub span: Option<TimeSpan>,
}

impl SummaryFacts {
    pub closed spec fn content(&self) -> FactsContent {
        FactsContent {
            chunks: mcap_facts::chunk_contents(self.chunks@),
            channels: self.about@,
            span: self.span,
        }
    }

    /// Each channel is listed once.
    pub closed spec fn well_formed(&self) -> bool {
        mcap_facts::lists_channels(self.channels@, self.about@)
    }

    /// What the index records of a file say.
    pub fn new(summary: &Summary) -> (facts: Self)
        ensures
            facts.well_formed(),
            facts.content() == (FactsContent {
                chunks: mcap_facts::held(*summary).chunks,
                channels: mcap_facts::held(*summary).channels,
                span: mcap_facts::held(*summary).span,
            }),
    {
        SummaryFacts {
            chunks: chunks_of(summary),
            channels: channels_of(summary),
            span: span_of(summary),
            about: Ghost(mcap_facts::held(*summary).channels),
        }
    }

    pub fn chunks(&self) -> (chunks: &Vec<ChunkFact>)
        ensures
            mcap_facts::chunk_contents(chunks@) == self.content().chunks,
    {
        &self.chunks
    }

    pub fn channels(&self) -> (channels: &Vec<ChannelFact>)
        requires
            self.well_formed(),
        ensures
            mcap_facts::lists_channels(channels@, self.content().channels),
    {
        &self.channels
    }

    /// The channel with an identifier, if the file has one.
    pub fn channel(&self, id: u16) -> (channel: Option<&ChannelFact>)
        requires
            self.well_formed(),
        ensures
            match channel {
                Some(channel) => self.content().channels.contains_key(id)
                    && self.content().channels[id] == channel@,
                None => !self.content().channels.contains_key(id),
            },
    {
        let mut index: usize = 0;
        while index < self.channels.len()
            invariant
                index <= self.channels@.len(),
                mcap_facts::lists_channels(self.channels@, self.content().channels),
                forall|i: int| 0 <= i < index ==> (#[trigger] self.channels@[i]).id != id,
            decreases self.channels@.len() - index,
        {
            if self.channels[index].id == id {
                return Some(&self.channels[index]);
            }
            index = index + 1;
        }
        None
    }

    /// The first and the last message time, where the file has statistics.
    pub fn span(&self) -> (span: Option<TimeSpan>)
        ensures
            span == self.content().span,
    {
        self.span
    }

    /// The channels as streams, in order of their identifiers.
    pub fn streams(&self) -> (streams: Vec<StreamDescriptor>)
        requires
            self.well_formed(),
        ensures
            session::stream_contents(streams@) == mcap_source::streams_in(self.content().channels),
    {
        let mut copy: Vec<ChannelFact> = Vec::with_capacity(self.channels.len());
        let mut index: usize = 0;
        while index < self.channels.len()
            invariant
                index <= self.channels@.len(),
                copy@.len() == index,
                forall|i: int|
                    0 <= i < index ==> (#[trigger] copy@[i]).id == self.channels@[i].id && copy@[i]@
                        == self.channels@[i]@,
            decreases self.channels@.len() - index,
        {
            let channel: &ChannelFact = &self.channels[index];
            copy.push(
                ChannelFact {
                    id: channel.id,
                    topic: channel.topic.clone(),
                    schema: channel.schema.clone(),
                    message_encoding: channel.message_encoding.clone(),
                    message_count: channel.message_count,
                },
            );
            index = index + 1;
        }
        proof {
            let channels = self.about@;
            assert forall|i: int| 0 <= i < copy@.len() implies channels.contains_key(
                (#[trigger] copy@[i]).id,
            ) && channels[copy@[i].id] == copy@[i]@ by {
                assert(channels.contains_key(self.channels@[i].id));
            }
            assert forall|i: int, j: int| 0 <= i < j < copy@.len() implies (
            #[trigger] copy@[i]).id != (#[trigger] copy@[j]).id by {
                assert(self.channels@[i].id != self.channels@[j].id);
            }
            assert forall|id: u16| #[trigger] channels.contains_key(id) implies exists|i: int|
                0 <= i < copy@.len() && (#[trigger] copy@[i]).id == id by {
                let i = choose|i: int|
                    0 <= i < self.channels@.len() && (#[trigger] self.channels@[i]).id == id;
                assert(copy@[i].id == id);
            }
        }
        sorted_streams(copy, Ghost(self.about@))
    }
}

/// A recording that is read piece by piece.
#[derive(Debug)]
pub struct LocalCatalog {
    pub core: SourceCatalog,
    pub start: ArrivalTime,
    pub end: ArrivalTime,
    pub end_exclusive: ArrivalTime,
    pub plan: SessionPlan,
    pub selected_topics: Vec<String>,
}

/// Why a file cannot be played piece by piece, in words.
#[derive(Debug, Eq, PartialEq)]
pub struct LocalCatalogError(String);

impl View for LocalCatalogError {
    type V = Seq<char>;

    closed spec fn view(&self) -> Seq<char> {
        self.0@
    }
}

impl LocalCatalogError {
    pub fn new(message: String) -> (error: Self)
        ensures
            error@ == message@,
    {
        LocalCatalogError(message)
    }

    /// The words of the error.
    pub fn message(&self) -> (message: String)
        ensures
            message@ == self@,
    {
        self.0.as_str().to_owned()
    }
}

/// A time of a file as an arrival time.
pub fn to_arrival(value: u64) -> (outcome: Result<ArrivalTime, LocalCatalogError>)
    ensures
        match outcome {
            Ok(time) => mcap_source::arrival_of(value) == Some(time),
            Err(error) => mcap_source::arrival_of(value) is None && error@
                == "MCAP timestamp exceeds signed nanoseconds"@,
        },
{
    if value <= i64::MAX as u64 {
        Ok(ArrivalTime(value as i64))
    } else {
        Err(LocalCatalogError::new("MCAP timestamp exceeds signed nanoseconds".to_owned()))
    }
}

/// The earliest start of some chunks.
pub open spec fn earliest(chunks: Seq<ChunkContent>) -> u64
    decreases chunks.len(),
{
    if chunks.len() <= 1 {
        chunks[0].message_start_time
    } else {
        let rest = earliest(chunks.drop_last());
        if chunks.last().message_start_time < rest {
            chunks.last().message_start_time
        } else {
            rest
        }
    }
}

/// The latest end of some chunks.
pub open spec fn latest(chunks: Seq<ChunkContent>) -> u64
    decreases chunks.len(),
{
    if chunks.len() <= 1 {
        chunks[0].message_end_time
    } else {
        let rest = latest(chunks.drop_last());
        if chunks.last().message_end_time > rest {
            chunks.last().message_end_time
        } else {
            rest
        }
    }
}

/// Every chunk lies between the earliest start and the latest end.
pub proof fn law_chunks_lie_in_the_catalog_range(chunks: Seq<ChunkContent>, index: int)
    requires
        0 <= index < chunks.len(),
    ensures
        earliest(chunks) <= chunks[index].message_start_time,
        chunks[index].message_end_time <= latest(chunks),
    decreases chunks.len(),
{
    if chunks.len() > 1 && index < chunks.len() - 1 {
        law_chunks_lie_in_the_catalog_range(chunks.drop_last(), index);
    }
}

/// Why the chunks give no range to play, if they give none.
pub open spec fn range_fault(chunks: Seq<ChunkContent>) -> Option<Seq<char>> {
    if chunks.len() == 0 {
        Some("browser lazy playback requires MCAP Chunk Index records"@)
    } else if latest(chunks) == u64::MAX {
        Some("MCAP end time cannot be made exclusive"@)
    } else if earliest(chunks) > i64::MAX || latest(chunks) >= i64::MAX {
        Some("MCAP timestamp exceeds signed nanoseconds"@)
    } else if earliest(chunks) > latest(chunks) {
        Some("MCAP indexed time range is empty"@)
    } else {
        None
    }
}

/// The earliest start and the latest end of some chunks.
pub fn chunk_span(chunks: &Vec<ChunkFact>) -> (span: (u64, u64))
    requires
        chunks@.len() > 0,
    ensures
        span.0 == earliest(mcap_facts::chunk_contents(chunks@)),
        span.1 == latest(mcap_facts::chunk_contents(chunks@)),
{
    let ghost all = mcap_facts::chunk_contents(chunks@);
    let mut start: u64 = chunks[0].message_start_time;
    let mut end: u64 = chunks[0].message_end_time;
    let mut index: usize = 1;
    assert(all[0] == chunks@[0]@);
    while index < chunks.len()
        invariant
            1 <= index <= chunks@.len(),
            all == mcap_facts::chunk_contents(chunks@),
            start == earliest(all.take(index as int)),
            end == latest(all.take(index as int)),
        decreases chunks@.len() - index,
    {
        proof {
            assert(all[index as int] == chunks@[index as int]@);
            assert(all.take(index + 1).drop_last() =~= all.take(index as int));
        }
        if chunks[index].message_start_time < start {
            start = chunks[index].message_start_time;
        }
        if chunks[index].message_end_time > end {
            end = chunks[index].message_end_time;
        }
        index = index + 1;
    }
    assert(all.take(all.len() as int) =~= all);
    (start, end)
}

impl LocalCatalog {
    /// The catalog of a file with chunks, and the plan to play it.
    pub fn from_summary(
        facts: &SummaryFacts,
        primary_camera_topic: &str,
        requirements: &PlaybackRequirements,
        bindings: &WorkspaceBindings,
    ) -> (outcome: Result<Self, LocalCatalogError>)
        requires
            facts.well_formed(),
        ensures
            ({
                let chunks = facts.content().chunks;
                let streams = mcap_source::streams_in(facts.content().channels);
                let lack = requirements::lack(streams, *requirements, bindings@);
                match outcome {
                    Ok(catalog) => {
                        &&& range_fault(chunks) is None
                        &&& lack is None
                        &&& catalog.start.0 == earliest(chunks)
                        &&& catalog.end.0 == latest(chunks)
                        &&& catalog.end_exclusive.0 == latest(chunks) + 1
                        &&& catalog.core.time_range == Some(
                            RecordingTimeRange {
                                start: catalog.start,
                                end_exclusive: catalog.end_exclusive,
                            },
                        )
                        &&& catalog.core.content() == streams
                        &&& catalog.plan.content() == requirements::session_routes(
                            streams,
                            *requirements,
                            bindings@,
                        )
                        &&& catalog.plan.spec_primary_camera() == requirements::primary_of(
                            catalog.plan.content(),
                            primary_camera_topic@,
                        )
                        &&& catalog.selected_topics@.map_values(|topic: String| topic@)
                            == catalog.plan.content().map_values(
                            |route: session::RouteContent| route.stream.topic,
                        )
                    },
                    Err(error) => match range_fault(chunks) {
                        Some(words) => error@ == words,
                        None => lack is Some && error@ == SessionPlanError::spec_message(
                            lack->Some_0,
                        ),
                    },
                }
            }),
    {
        if facts.chunks.len() == 0 {
            return Err(
                LocalCatalogError::new(
                    "browser lazy playback requires MCAP Chunk Index records".to_owned(),
                ),
            );
        }
        let (first, last): (u64, u64) = chunk_span(&facts.chunks);
        let behind: u64 = match last.checked_add(1) {
            Some(behind) => behind,
            None => return Err(
                LocalCatalogError::new("MCAP end time cannot be made exclusive".to_owned()),
            ),
        };
        let start: ArrivalTime = to_arrival(first)?;
        let end: ArrivalTime = to_arrival(last)?;
        let end_exclusive: ArrivalTime = to_arrival(behind)?;
        if start.0 >= end_exclusive.0 {
            return Err(LocalCatalogError::new("MCAP indexed time range is empty".to_owned()));
        }
        let core = SourceCatalog {
            time_range: Some(RecordingTimeRange { start, end_exclusive }),
            streams: facts.streams(),
        };
        let plan: SessionPlan = match SessionPlan::build(
            &core,
            primary_camera_topic,
            requirements,
            bindings,
        ) {
            Ok(plan) => plan,
            Err(error) => return Err(LocalCatalogError::new(error.message())),
        };
        let selected_topics: Vec<String> = plan.selected_topics();
        Ok(LocalCatalog { core, start, end, end_exclusive, plan, selected_topics })
    }
}

/// The earliest start is that of a chunk, and so is the latest end.
pub proof fn law_the_catalog_range_is_that_of_chunks(chunks: Seq<ChunkContent>)
    requires
        chunks.len() > 0,
    ensures
        exists|i: int|
            0 <= i < chunks.len() && (#[trigger] chunks[i]).message_start_time == earliest(chunks),
        exists|i: int|
            0 <= i < chunks.len() && (#[trigger] chunks[i]).message_end_time == latest(chunks),
    decreases chunks.len(),
{
    if chunks.len() == 1 {
        assert(chunks[0].message_start_time == earliest(chunks));
        assert(chunks[0].message_end_time == latest(chunks));
    } else {
        let front = chunks.drop_last();
        law_the_catalog_range_is_that_of_chunks(front);
        let one = choose|i: int|
            0 <= i < front.len() && (#[trigger] front[i]).message_start_time == earliest(front);
        let two = choose|i: int|
            0 <= i < front.len() && (#[trigger] front[i]).message_end_time == latest(front);
        let last = chunks.len() - 1;
        if earliest(chunks) == earliest(front) {
            assert(chunks[one].message_start_time == earliest(chunks));
        } else {
            assert(chunks[last].message_start_time == earliest(chunks));
        }
        if latest(chunks) == latest(front) {
            assert(chunks[two].message_end_time == latest(chunks));
        } else {
            assert(chunks[last].message_end_time == latest(chunks));
        }
    }
}

} // verus!

//! Exact reads of single messages and of ranges through the index records of a file.

use super::{
    stream_known, to_arrival, to_arrival_lossy, IndexedContent, IndexedMessages,
    IndexedReadDiagnostics, McapFile, McapOpenError, McapSource, SourceContent, SourceFault,
};
use crate::message::time::ArrivalTime;
use crate::playback::data_window::TimeRange;
use crate::recording::local_restore::{lemma_in_both, lemma_in_pushed};
use crate::recording::mcap_facts::{
    self, read_index_times, stream_chunk, ChunkContent, ChunkFact, ChunkMessage,
    ChunkMessageContent, SummaryContent,
};
use crate::recording::mcap_records::{self, is_chunk_record_sound};
use crate::recording::mcap_source;
use crate::recording::raw::{self, lists, sort_by_time, RawContent, RawMessage, StreamId};
use crate::recording::session::{self, StreamContent, StreamDescriptor};
use mcap::{McapError, Summary};
use vstd::prelude::*;

verus! {

/// The latest of some times that is not after a target.
pub open spec fn latest_time(times: Seq<u64>, target: u64) -> Option<u64>
    decreases times.len(),
{
    if times.len() == 0 {
        None
    } else {
        let earlier = latest_time(times.drop_last(), target);
        if times.last() > target || (earlier is Some && earlier->Some_0 > times.last()) {
            earlier
        } else {
            Some(times.last())
        }
    }
}

/// The chunk and the time of the latest listed message of a channel that is not after a target,
/// among the chunks from `from` on. Chunks that cannot hold a later one are passed over.
pub open spec fn predecessor(
    bytes: Seq<u8>,
    summary: SummaryContent,
    channel: int,
    target: u64,
    from: int,
) -> Result<Option<(int, u64)>, SourceFault>
    decreases summary.chunks.len() - from,
{
    if from >= summary.chunks.len() {
        Ok(None)
    } else {
        match predecessor(bytes, summary, channel, target, from + 1) {
            Err(fault) => Err(fault),
            Ok(best) => {
                let chunk = summary.chunks[from];
                if !chunk.indexes(channel) || chunk.message_start_time > target || (best is Some
                    && chunk.message_end_time <= best->Some_0.1) {
                    Ok(best)
                } else if !chunk.indexes_addressable() || !chunk.indexes_present(bytes) {
                    Err(SourceFault::BadIndex)
                } else {
                    match mcap_facts::index_times(bytes, summary.channels, chunk) {
                        None => Err(SourceFault::Mcap),
                        Some(times) => Ok(better(best, from, channel, times, target)),
                    }
                }
            },
        }
    }
}

/// The better of what was found and what the index of a chunk lists.
pub open spec fn better(
    best: Option<(int, u64)>,
    chunk: int,
    channel: int,
    times: Map<u16, Seq<u64>>,
    target: u64,
) -> Option<(int, u64)> {
    if !times.contains_key(channel as u16) {
        best
    } else {
        match latest_time(times[channel as u16], target) {
            None => best,
            Some(time) => if best is None || time > best->Some_0.1 {
                Some((chunk, time))
            } else {
                best
            },
        }
    }
}

/// No chunk lists the stream.
pub open spec fn unlisted(chunks: Seq<ChunkContent>, stream: StreamId) -> bool {
    forall|i: int| 0 <= i < chunks.len() ==> !(#[trigger] chunks[i]).indexes(stream.0 as int)
}

/// How many messages a catalog tells of a stream.
pub open spec fn told_count(streams: Seq<StreamContent>, id: StreamId) -> Option<u64>
    decreases streams.len(),
{
    if streams.len() == 0 {
        None
    } else if streams[0].id == id {
        streams[0].timing.message_count
    } else {
        told_count(streams.drop_first(), id)
    }
}

/// A message to look for: its chunk, its stream and its time.
pub struct CandidateContent {
    pub chunk: int,
    pub stream: StreamId,
    pub time: u64,
}

/// Some candidate is for the stream.
pub open spec fn sought_stream(candidates: Seq<CandidateContent>, stream: StreamId) -> bool {
    exists|i: int| 0 <= i < candidates.len() && (#[trigger] candidates[i]).stream == stream
}

/// Some candidate lies in the chunk.
pub open spec fn in_chunk(candidates: Seq<CandidateContent>, chunk: int) -> bool {
    exists|i: int| 0 <= i < candidates.len() && (#[trigger] candidates[i]).chunk == chunk
}

/// The latest listed message of each stream that is not after a target, the streams in order. A
/// stream without messages has none; one that no index lists cannot be answered.
pub open spec fn candidates_for(
    bytes: Seq<u8>,
    summary: SummaryContent,
    catalog: Seq<StreamContent>,
    streams: Seq<StreamId>,
    target: u64,
) -> Result<Seq<CandidateContent>, SourceFault>
    decreases streams.len(),
{
    if streams.len() == 0 {
        Ok(Seq::empty())
    } else {
        let stream = streams.last();
        match candidates_for(bytes, summary, catalog, streams.drop_last(), target) {
            Err(fault) => Err(fault),
            Ok(earlier) => if unlisted(summary.chunks, stream) {
                if told_count(catalog, stream) == Some(0u64) {
                    Ok(earlier)
                } else {
                    Err(SourceFault::MessageIndexRequired(stream))
                }
            } else {
                match predecessor(bytes, summary, stream.0 as int, target, 0) {
                    Err(fault) => Err(fault),
                    Ok(None) => Ok(earlier),
                    Ok(Some((chunk, time))) => if sought_stream(earlier, stream) {
                        Ok(earlier)
                    } else {
                        Ok(earlier.push(CandidateContent { chunk, stream, time }))
                    },
                }
            },
        }
    }
}

/// The last message of a chunk with a stream and a time.
pub open spec fn last_match(
    messages: Seq<ChunkMessageContent>,
    stream: StreamId,
    time: u64,
) -> Option<RawContent>
    decreases messages.len(),
{
    if messages.len() == 0 {
        None
    } else if messages.last().channel == stream.0 && messages.last().log_time == time {
        Some(
            RawContent {
                stream_id: stream,
                arrival_time: ArrivalTime(time as i64),
                payload: messages.last().data,
            },
        )
    } else {
        last_match(messages.drop_last(), stream, time)
    }
}

/// The messages of a chunk that the candidates ask for, in the order of the candidates.
pub open spec fn picked(
    candidates: Seq<CandidateContent>,
    chunk: int,
    messages: Seq<ChunkMessageContent>,
) -> Seq<RawContent>
    decreases candidates.len(),
{
    if candidates.len() == 0 {
        Seq::empty()
    } else {
        let earlier = picked(candidates.drop_last(), chunk, messages);
        let last = candidates.last();
        match last_match(messages, last.stream, last.time) {
            Some(message) => if last.chunk == chunk {
                earlier.push(message)
            } else {
                earlier
            },
            None => earlier,
        }
    }
}

/// The messages that the candidates ask for in the first `count` chunks. Each chunk is read once.
pub open spec fn gathered(
    bytes: Seq<u8>,
    summary: SummaryContent,
    candidates: Seq<CandidateContent>,
    count: int,
) -> Result<Seq<RawContent>, SourceFault>
    decreases count,
{
    if count <= 0 {
        Ok(Seq::empty())
    } else {
        match gathered(bytes, summary, candidates, count - 1) {
            Err(fault) => Err(fault),
            Ok(earlier) => if !in_chunk(candidates, count - 1) {
                Ok(earlier)
            } else if !summary.chunks[count - 1].addressable() {
                Err(SourceFault::BadIndex)
            } else if !mcap_records::chunk_record_sound(bytes, summary.chunks[count - 1]) {
                Err(SourceFault::Damaged)
            } else {
                let read = mcap_facts::chunk_messages(
                    bytes,
                    summary.channels,
                    summary.chunks[count - 1],
                );
                if read.1 {
                    Ok(earlier + picked(candidates, count - 1, read.0))
                } else {
                    Err(SourceFault::Mcap)
                }
            },
        }
    }
}

/// How many of the first `count` chunks the candidates need.
pub open spec fn needed_chunks(candidates: Seq<CandidateContent>, count: int) -> nat
    decreases count,
{
    if count <= 0 {
        0
    } else {
        needed_chunks(candidates, count - 1) + (if in_chunk(candidates, count - 1) {
            1nat
        } else {
            0nat
        })
    }
}

/// The chunk may hold messages of the range and of one of the streams.
pub open spec fn relevant(chunk: ChunkContent, streams: Seq<StreamId>, range: TimeRange) -> bool {
    &&& mcap_source::arrival_capped(chunk.message_end_time).0 >= range.start.0
    &&& mcap_source::arrival_capped(chunk.message_start_time).0 < range.end_exclusive.0
    &&& exists|i: int|
        0 <= i < streams.len() && chunk.indexes((#[trigger] streams[i]).0 as int)
}

/// The messages of a list that belong to the streams and the range, or that one of the list has no
/// arrival time.
pub open spec fn in_range(
    messages: Seq<ChunkMessageContent>,
    streams: Seq<StreamId>,
    range: TimeRange,
) -> Result<Seq<RawContent>, SourceFault>
    decreases messages.len(),
{
    if messages.len() == 0 {
        Ok(Seq::empty())
    } else {
        let last = messages.last();
        let stream_id = StreamId(last.channel as u32);
        match in_range(messages.drop_last(), streams, range) {
            Err(fault) => Err(fault),
            Ok(earlier) => match mcap_source::arrival_of(last.log_time) {
                None => Err(SourceFault::TimestampOverflow),
                Some(arrival_time) => if streams.contains(stream_id) && range.spec_contains(
                    arrival_time,
                ) {
                    Ok(earlier.push(RawContent { stream_id, arrival_time, payload: last.data }))
                } else {
                    Ok(earlier)
                },
            },
        }
    }
}

/// The messages of the streams and the range in the first `count` chunks.
pub open spec fn range_gathered(
    bytes: Seq<u8>,
    summary: SummaryContent,
    streams: Seq<StreamId>,
    range: TimeRange,
    count: int,
) -> Result<Seq<RawContent>, SourceFault>
    decreases count,
{
    if count <= 0 {
        Ok(Seq::empty())
    } else {
        match range_gathered(bytes, summary, streams, range, count - 1) {
            Err(fault) => Err(fault),
            Ok(earlier) => if !relevant(summary.chunks[count - 1], streams, range) {
                Ok(earlier)
            } else if !summary.chunks[count - 1].addressable() {
                Err(SourceFault::BadIndex)
            } else if !mcap_records::chunk_record_sound(bytes, summary.chunks[count - 1]) {
                Err(SourceFault::Damaged)
            } else {
                let read = mcap_facts::chunk_messages(
                    bytes,
                    summary.channels,
                    summary.chunks[count - 1],
                );
                match in_range(read.0, streams, range) {
                    Err(fault) => Err(fault),
                    Ok(more) => if read.1 {
                        Ok(earlier + more)
                    } else {
                        Err(SourceFault::Mcap)
                    },
                }
            },
        }
    }
}

/// How many of the first `count` chunks are relevant.
pub open spec fn relevant_chunks(
    chunks: Seq<ChunkContent>,
    streams: Seq<StreamId>,
    range: TimeRange,
    count: int,
) -> nat
    decreases count,
{
    if count <= 0 {
        0
    } else {
        relevant_chunks(chunks, streams, range, count - 1) + (if relevant(
            chunks[count - 1],
            streams,
            range,
        ) {
            1nat
        } else {
            0nat
        })
    }
}

/// The first stream that has messages and no index.
pub open spec fn first_without_index(
    chunks: Seq<ChunkContent>,
    catalog: Seq<StreamContent>,
    streams: Seq<StreamId>,
) -> Option<StreamId>
    decreases streams.len(),
{
    if streams.len() == 0 {
        None
    } else {
        let stream = streams[0];
        if unlisted(chunks, stream) && told_count(catalog, stream) != Some(0u64) {
            Some(stream)
        } else {
            first_without_index(chunks, catalog, streams.drop_first())
        }
    }
}

impl SourceContent {
    /// Why streams cannot be looked up at all, if they cannot: one is unknown, or the file has no
    /// index records.
    pub open spec fn index_fault(self, streams: Seq<StreamId>) -> Option<SourceFault> {
        if exists|i: int| 0 <= i < streams.len() && !mcap_source::known(self.streams, #[trigger] streams[i]) {
            Some(SourceFault::BadIndex)
        } else if self.file.summary is None {
            Some(self.no_index(streams))
        } else {
            None
        }
    }

    pub open spec fn no_index(self, streams: Seq<StreamId>) -> SourceFault {
        if streams.len() == 0 {
            SourceFault::BadIndex
        } else {
            SourceFault::MessageIndexRequired(streams[0])
        }
    }

    /// The last message of each stream up to a target.
    pub open spec fn latest(self, streams: Seq<StreamId>, target: ArrivalTime) -> Result<
        IndexedContent,
        SourceFault,
    > {
        if self.index_fault(streams) is Some {
            Err(self.index_fault(streams)->Some_0)
        } else if target.0 < 0 {
            Err(SourceFault::TimestampOverflow)
        } else {
            let summary = self.file.summary->Some_0;
            match candidates_for(
                self.file.bytes,
                summary,
                self.streams,
                streams,
                target.0 as u64,
            ) {
                Err(fault) => Err(fault),
                Ok(candidates) => match gathered(
                    self.file.bytes,
                    summary,
                    candidates,
                    summary.chunks.len() as int,
                ) {
                    Err(fault) => Err(fault),
                    Ok(messages) => Ok(
                        IndexedContent {
                            messages: raw::time_sorted(messages),
                            chunks_streamed: needed_chunks(
                                candidates,
                                summary.chunks.len() as int,
                            ),
                        },
                    ),
                },
            }
        }
    }

    /// Every message of some streams within a range.
    pub open spec fn ranged(self, streams: Seq<StreamId>, range: TimeRange) -> Result<
        IndexedContent,
        SourceFault,
    > {
        if self.index_fault(streams) is Some {
            Err(self.index_fault(streams)->Some_0)
        } else {
            let summary = self.file.summary->Some_0;
            let count = summary.chunks.len() as int;
            match first_without_index(summary.chunks, self.streams, streams) {
                Some(stream) => Err(SourceFault::MessageIndexRequired(stream)),
                None => match range_gathered(self.file.bytes, summary, streams, range, count) {
                    Err(fault) => Err(fault),
                    Ok(messages) => Ok(
                        IndexedContent {
                            messages: raw::time_sorted(messages),
                            chunks_streamed: relevant_chunks(
                                summary.chunks,
                                streams,
                                range,
                                count,
                            ),
                        },
                    ),
                },
            }
        }
    }

    /// Every message of some streams.
    pub open spec fn everything(self, streams: Seq<StreamId>) -> Result<
        IndexedContent,
        SourceFault,
    > {
        match self.time_range {
            None => Err(self.no_index(streams)),
            Some(range) => self.ranged(
                streams,
                TimeRange { start: range.start, end_exclusive: range.end_exclusive },
            ),
        }
    }
}

#[derive(Clone, Copy)]
struct Candidate {
    chunk: usize,
    stream: StreamId,
    time: u64,
}

spec fn candidate_contents(candidates: Seq<Candidate>) -> Seq<CandidateContent> {
    candidates.map_values(
        |candidate: Candidate|
            CandidateContent {
                chunk: candidate.chunk as int,
                stream: candidate.stream,
                time: candidate.time,
            },
    )
}

/// The latest listed time that is not after a target.
pub fn latest_of(times: &Vec<u64>, target: u64) -> (latest: Option<u64>)
    ensures
        latest == latest_time(times@, target),
{
    let mut latest: Option<u64> = None;
    let mut index: usize = 0;
    assert(times@.take(0) =~= Seq::empty());
    while index < times.len()
        invariant
            index <= times@.len(),
            latest == latest_time(times@.take(index as int), target),
        decreases times@.len() - index,
    {
        assert(times@.take(index + 1).drop_last() =~= times@.take(index as int));
        let time: u64 = times[index];
        let passed: bool = match latest {
            Some(earlier) => earlier > time,
            None => false,
        };
        if time <= target && !passed {
            latest = Some(time);
        }
        index = index + 1;
    }
    assert(times@.take(times@.len() as int) =~= times@);
    latest
}

fn listed_times(lists: &Vec<(u16, Vec<u64>)>, channel: u16, Ghost(times): Ghost<
    Map<u16, Seq<u64>>,
>) -> (index: Option<usize>)
    requires
        mcap_facts::lists_times(lists@, times),
    ensures
        match index {
            Some(index) => index < lists@.len() && times.contains_key(channel) && times[channel]
                == lists@[index as int].1@,
            None => !times.contains_key(channel),
        },
{
    let mut index: usize = 0;
    while index < lists.len()
        invariant
            index <= lists@.len(),
            mcap_facts::lists_times(lists@, times),
            forall|i: int| 0 <= i < index ==> (#[trigger] lists@[i]).0 != channel,
        decreases lists@.len() - index,
    {
        if lists[index].0 == channel {
            return Some(index);
        }
        index = index + 1;
    }
    None
}

fn count_told(streams: &Vec<StreamDescriptor>, id: StreamId) -> (count: Option<u64>)
    ensures
        count == told_count(session::stream_contents(streams@), id),
{
    let ghost all = session::stream_contents(streams@);
    let mut index: usize = 0;
    assert(all.skip(0) =~= all);
    while index < streams.len()
        invariant
            index <= streams@.len(),
            all == session::stream_contents(streams@),
            told_count(all, id) == told_count(all.skip(index as int), id),
        decreases streams@.len() - index,
    {
        proof {
            assert(all[index as int] == streams@[index as int]@);
            assert(all.skip(index as int).drop_first() =~= all.skip(index + 1));
        }
        if streams[index].id == id {
            return streams[index].timing.message_count;
        }
        index = index + 1;
    }
    None
}

fn is_unlisted(chunks: &Vec<ChunkFact>, stream: StreamId) -> (none: bool)
    ensures
        none == unlisted(mcap_facts::chunk_contents(chunks@), stream),
{
    let ghost all = mcap_facts::chunk_contents(chunks@);
    let mut index: usize = 0;
    while index < chunks.len()
        invariant
            index <= chunks@.len(),
            all == mcap_facts::chunk_contents(chunks@),
            forall|i: int| 0 <= i < index ==> !(#[trigger] all[i]).indexes(stream.0 as int),
        decreases chunks@.len() - index,
    {
        assert(all[index as int] == chunks@[index as int]@);
        if chunks[index].indexes_channel(stream.0) {
            return false;
        }
        index = index + 1;
    }
    true
}

proof fn lemma_predecessor_fault_stays(
    bytes: Seq<u8>,
    summary: SummaryContent,
    channel: int,
    target: u64,
    from: int,
)
    requires
        0 <= from <= summary.chunks.len(),
        predecessor(bytes, summary, channel, target, from) is Err,
    ensures
        predecessor(bytes, summary, channel, target, 0) == predecessor(
            bytes,
            summary,
            channel,
            target,
            from,
        ),
    decreases from,
{
    if from > 0 {
        lemma_predecessor_fault_stays(bytes, summary, channel, target, from - 1);
    }
}

impl McapFile {
    fn predecessor_of(&self, summary: &Summary, stream: StreamId, target: u64) -> (outcome: Result<
        Option<(usize, u64)>,
        McapOpenError,
    >)
        requires
            self.well_formed(),
            self.summary == Some(*summary),
        ensures
            ({
                let expected = predecessor(
                    self.content().bytes,
                    mcap_facts::held(*summary),
                    stream.0 as int,
                    target,
                    0,
                );
                match outcome {
                    Ok(Some((chunk, time))) => chunk < self.chunks@.len() && expected == Ok::<
                        Option<(int, u64)>,
                        SourceFault,
                    >(Some((chunk as int, time))),
                    Ok(None) => expected == Ok::<Option<(int, u64)>, SourceFault>(None),
                    Err(error) => expected == Err::<Option<(int, u64)>, SourceFault>(error@),
                }
            }),
    {
        let ghost bytes = self.content().bytes;
        let ghost held = mcap_facts::held(*summary);
        let ghost channel = stream.0 as int;
        let mut best: Option<(usize, u64)> = None;
        let mut from: usize = self.chunks.len();
        while from > 0
            invariant
                from <= self.chunks@.len(),
                self.well_formed(),
                self.summary == Some(*summary),
                bytes == self.content().bytes,
                held == mcap_facts::held(*summary),
                channel == stream.0,
                best matches Some((chunk, _)) ==> chunk < self.chunks@.len(),
                predecessor(bytes, held, channel, target, from as int) == Ok::<
                    Option<(int, u64)>,
                    SourceFault,
                >(
                    match best {
                        Some((chunk, time)) => Some((chunk as int, time)),
                        None => None,
                    },
                ),
            decreases from,
        {
            from = from - 1;
            let chunk: &ChunkFact = &self.chunks[from];
            assert(held.chunks[from as int] == chunk@);
            let passed: bool = match best {
                Some((_, time)) => chunk.message_end_time <= time,
                None => false,
            };
            if !chunk.indexes_channel(stream.0) || chunk.message_start_time > target || passed {
                continue;
            }
            if !chunk.are_indexes_addressable() || !chunk.are_indexes_present(
                self.backing.as_slice(),
            ) {
                proof {
                    lemma_predecessor_fault_stays(bytes, held, channel, target, from as int);
                }
                return Err(McapOpenError::BadIndex);
            }
            match read_index_times(summary, self.backing.as_slice(), from) {
                Err(error) => {
                    proof {
                        lemma_predecessor_fault_stays(bytes, held, channel, target, from as int);
                    }
                    return Err(McapOpenError::Mcap(error));
                },
                Ok(lists) => {
                    let ghost times = mcap_facts::index_times(
                        bytes,
                        held.channels,
                        held.chunks[from as int],
                    )->Some_0;
                    assert(channel < 65536) by {
                        let i = choose|i: int|
                            0 <= i < chunk@.message_index_offsets.len() && (
                            #[trigger] chunk@.message_index_offsets[i]).0 == channel;
                    }
                    let at: Option<usize> = listed_times(&lists, stream.0 as u16, Ghost(times));
                    if let Some(index) = at {
                        if let Some(time) = latest_of(&lists[index].1, target) {
                            let is_better: bool = match best {
                                Some((_, earlier)) => time > earlier,
                                None => true,
                            };
                            if is_better {
                                best = Some((from, time));
                            }
                        }
                    }
                },
            }
        }
        Ok(best)
    }

    fn read_messages(&self, summary: &Summary, index: usize) -> (outcome: Result<
        (Vec<ChunkMessage>, Option<McapError>),
        McapOpenError,
    >)
        requires
            self.well_formed(),
            self.summary == Some(*summary),
            index < self.chunks@.len(),
        ensures
            ({
                let held = mcap_facts::held(*summary);
                let chunk = held.chunks[index as int];
                let bytes = self.content().bytes;
                match outcome {
                    Ok((messages, error)) => {
                        &&& chunk.addressable()
                        &&& mcap_records::chunk_record_sound(bytes, chunk)
                        &&& mcap_facts::chunk_messages(bytes, held.channels, chunk) == (
                            mcap_facts::message_contents(messages@),
                            error is None,
                        )
                    },
                    Err(error) => if chunk.addressable() {
                        !mcap_records::chunk_record_sound(bytes, chunk) && error@ is Damaged
                    } else {
                        error@ is BadIndex
                    },
                }
            }),
    {
        assert(mcap_facts::held(*summary).chunks[index as int] == self.chunks@[index as int]@);
        if !self.chunks[index].is_addressable() {
            return Err(McapOpenError::BadIndex);
        }
        let bytes: &[u8] = self.backing.as_slice();
        if !is_chunk_record_sound(bytes, &self.chunks[index]) {
            return Err(McapOpenError::Damaged);
        }
        Ok(stream_chunk(summary, bytes, index))
    }
}

proof fn lemma_candidates_fault_stays(
    bytes: Seq<u8>,
    summary: SummaryContent,
    catalog: Seq<StreamContent>,
    streams: Seq<StreamId>,
    target: u64,
    count: int,
)
    requires
        0 <= count <= streams.len(),
        candidates_for(bytes, summary, catalog, streams.take(count), target) is Err,
    ensures
        candidates_for(bytes, summary, catalog, streams, target) == candidates_for(
            bytes,
            summary,
            catalog,
            streams.take(count),
            target,
        ),
    decreases streams.len() - count,
{
    if count < streams.len() {
        assert(streams.take(count + 1).drop_last() =~= streams.take(count));
        lemma_candidates_fault_stays(bytes, summary, catalog, streams, target, count + 1);
    } else {
        assert(streams.take(count) =~= streams);
    }
}

fn seeks_stream(candidates: &Vec<Candidate>, stream: StreamId) -> (found: bool)
    ensures
        found == sought_stream(candidate_contents(candidates@), stream),
{
    let ghost all = candidate_contents(candidates@);
    let mut index: usize = 0;
    while index < candidates.len()
        invariant
            index <= candidates@.len(),
            all == candidate_contents(candidates@),
            forall|i: int| 0 <= i < index ==> (#[trigger] all[i]).stream != stream,
        decreases candidates@.len() - index,
    {
        assert(all[index as int].stream == candidates@[index as int].stream);
        if candidates[index].stream == stream {
            return true;
        }
        index = index + 1;
    }
    false
}

fn seeks_chunk(candidates: &Vec<Candidate>, chunk: usize) -> (found: bool)
    ensures
        found == in_chunk(candidate_contents(candidates@), chunk as int),
{
    let ghost all = candidate_contents(candidates@);
    let mut index: usize = 0;
    while index < candidates.len()
        invariant
            index <= candidates@.len(),
            all == candidate_contents(candidates@),
            forall|i: int| 0 <= i < index ==> (#[trigger] all[i]).chunk != chunk,
        decreases candidates@.len() - index,
    {
        assert(all[index as int].chunk == candidates@[index as int].chunk);
        if candidates[index].chunk == chunk {
            return true;
        }
        index = index + 1;
    }
    false
}

/// The last message of a chunk with a stream and a time.
pub fn find_last(messages: &Vec<ChunkMessage>, stream: StreamId, time: u64) -> (found: Option<
    RawMessage,
>)
    requires
        time <= i64::MAX,
    ensures
        match found {
            Some(message) => last_match(mcap_facts::message_contents(messages@), stream, time)
                == Some(message@),
            None => last_match(mcap_facts::message_contents(messages@), stream, time) is None,
        },
{
    let ghost all = mcap_facts::message_contents(messages@);
    let mut count: usize = messages.len();
    assert(all.take(all.len() as int) =~= all);
    while count > 0
        invariant
            count <= messages@.len(),
            time <= i64::MAX,
            all == mcap_facts::message_contents(messages@),
            last_match(all, stream, time) == last_match(all.take(count as int), stream, time),
        decreases count,
    {
        let message: &ChunkMessage = &messages[count - 1];
        proof {
            assert(all[count - 1] == message@);
            assert(all.take(count as int).drop_last() =~= all.take(count - 1));
        }
        if message.channel as u32 == stream.0 && message.log_time == time {
            return Some(
                RawMessage {
                    stream_id: stream,
                    arrival_time: ArrivalTime(time as i64),
                    payload: message.data.clone(),
                },
            );
        }
        count = count - 1;
    }
    None
}

fn push_picked(
    output: &mut Vec<RawMessage>,
    candidates: &Vec<Candidate>,
    chunk: usize,
    messages: &Vec<ChunkMessage>,
)
    requires
        forall|i: int| 0 <= i < candidates@.len() ==> (#[trigger] candidates@[i]).time <= i64::MAX,
    ensures
        raw::contents(final(output)@) == raw::contents(old(output)@) + picked(
            candidate_contents(candidates@),
            chunk as int,
            mcap_facts::message_contents(messages@),
        ),
{
    let ghost all = candidate_contents(candidates@);
    let ghost given = mcap_facts::message_contents(messages@);
    let ghost start = raw::contents(output@);
    let mut index: usize = 0;
    proof {
        assert(all.take(0) =~= Seq::empty());
        assert(start + picked(all.take(0), chunk as int, given) =~= start);
    }
    while index < candidates.len()
        invariant
            index <= candidates@.len(),
            forall|i: int|
                0 <= i < candidates@.len() ==> (#[trigger] candidates@[i]).time <= i64::MAX,
            all == candidate_contents(candidates@),
            given == mcap_facts::message_contents(messages@),
            raw::contents(output@) == start + picked(all.take(index as int), chunk as int, given),
        decreases candidates@.len() - index,
    {
        let candidate: Candidate = candidates[index];
        let ghost before = raw::contents(output@);
        proof {
            assert(all.take(index + 1).drop_last() =~= all.take(index as int));
            assert(all.take(index + 1).last() == all[index as int]);
            assert(all[index as int].chunk == candidate.chunk);
        }
        if candidate.chunk == chunk {
            if let Some(message) = find_last(messages, candidate.stream, candidate.time) {
                let ghost added = message@;
                output.push(message);
                proof {
                    assert(raw::contents(output@) =~= before.push(added));
                    assert(raw::contents(output@) =~= start + picked(
                        all.take(index + 1),
                        chunk as int,
                        given,
                    ));
                }
            }
        }
        index = index + 1;
    }
    assert(all.take(all.len() as int) =~= all);
}

proof fn lemma_gathered_fault_stays(
    bytes: Seq<u8>,
    summary: SummaryContent,
    candidates: Seq<CandidateContent>,
    few: int,
    many: int,
)
    requires
        few <= many,
        gathered(bytes, summary, candidates, few) is Err,
    ensures
        gathered(bytes, summary, candidates, many) == gathered(bytes, summary, candidates, few),
    decreases many - few,
{
    if few < many {
        lemma_gathered_fault_stays(bytes, summary, candidates, few, many - 1);
    }
}

proof fn lemma_range_fault_stays(
    bytes: Seq<u8>,
    summary: SummaryContent,
    streams: Seq<StreamId>,
    range: TimeRange,
    few: int,
    many: int,
)
    requires
        few <= many,
        range_gathered(bytes, summary, streams, range, few) is Err,
    ensures
        range_gathered(bytes, summary, streams, range, many) == range_gathered(
            bytes,
            summary,
            streams,
            range,
            few,
        ),
    decreases many - few,
{
    if few < many {
        lemma_range_fault_stays(bytes, summary, streams, range, few, many - 1);
    }
}

fn is_relevant(chunk: &ChunkFact, streams: &[StreamId], range: TimeRange) -> (is: bool)
    ensures
        is == relevant(chunk@, streams@, range),
{
    if to_arrival_lossy(chunk.message_end_time).0 < range.start.0 || to_arrival_lossy(
        chunk.message_start_time,
    ).0 >= range.end_exclusive.0 {
        return false;
    }
    let mut index: usize = 0;
    while index < streams.len()
        invariant
            index <= streams@.len(),
            mcap_source::arrival_capped(chunk.message_end_time).0 >= range.start.0,
            mcap_source::arrival_capped(chunk.message_start_time).0 < range.end_exclusive.0,
            forall|i: int|
                0 <= i < index ==> !chunk@.indexes((#[trigger] streams@[i]).0 as int),
        decreases streams@.len() - index,
    {
        if chunk.indexes_channel(streams[index].0) {
            assert(chunk@.indexes(streams@[index as int].0 as int));
            return true;
        }
        index = index + 1;
    }
    false
}

proof fn lemma_in_range_fault_stays(
    messages: Seq<ChunkMessageContent>,
    streams: Seq<StreamId>,
    range: TimeRange,
    count: int,
)
    requires
        0 <= count <= messages.len(),
        in_range(messages.take(count), streams, range) is Err,
    ensures
        in_range(messages, streams, range) == in_range(messages.take(count), streams, range),
    decreases messages.len() - count,
{
    if count < messages.len() {
        assert(messages.take(count + 1).drop_last() =~= messages.take(count));
        lemma_in_range_fault_stays(messages, streams, range, count + 1);
    } else {
        assert(messages.take(count) =~= messages);
    }
}

/// Adds the messages of a chunk that belong to some streams and to a range.
pub fn push_in_range(
    output: &mut Vec<RawMessage>,
    messages: &Vec<ChunkMessage>,
    streams: &[StreamId],
    range: TimeRange,
) -> (outcome: Result<(), McapOpenError>)
    ensures
        ({
            let expected = in_range(mcap_facts::message_contents(messages@), streams@, range);
            match outcome {
                Ok(_) => expected is Ok && raw::contents(final(output)@) == raw::contents(
                    old(output)@,
                ) + expected->Ok_0,
                Err(error) => expected == Err::<Seq<RawContent>, SourceFault>(error@),
            }
        }),
{
    let ghost all = mcap_facts::message_contents(messages@);
    let ghost start = raw::contents(output@);
    let mut index: usize = 0;
    proof {
        assert(all.take(0) =~= Seq::empty());
        assert(start + Seq::<RawContent>::empty() =~= start);
    }
    while index < messages.len()
        invariant
            index <= messages@.len(),
            all == mcap_facts::message_contents(messages@),
            in_range(all.take(index as int), streams@, range) is Ok,
            raw::contents(output@) == start + in_range(
                all.take(index as int),
                streams@,
                range,
            )->Ok_0,
        decreases messages@.len() - index,
    {
        let message: &ChunkMessage = &messages[index];
        let ghost before = raw::contents(output@);
        proof {
            assert(all[index as int] == message@);
            assert(all.take(index + 1).drop_last() =~= all.take(index as int));
        }
        let stream_id = StreamId(message.channel as u32);
        let arrival_time: ArrivalTime = match to_arrival(message.log_time) {
            Ok(time) => time,
            Err(error) => {
                proof {
                    lemma_in_range_fault_stays(all, streams@, range, index + 1);
                }
                return Err(error);
            },
        };
        if lists(streams, stream_id) && range.contains(arrival_time) {
            let raw = RawMessage { stream_id, arrival_time, payload: message.data.clone() };
            let ghost added = raw@;
            output.push(raw);
            proof {
                assert(raw::contents(output@) =~= before.push(added));
                assert(raw::contents(output@) =~= start + in_range(
                    all.take(index + 1),
                    streams@,
                    range,
                )->Ok_0);
            }
        }
        index = index + 1;
    }
    assert(all.take(all.len() as int) =~= all);
    Ok(())
}

impl McapSource {
    fn find_candidates(&self, summary: &Summary, streams: &[StreamId], target: u64) -> (outcome:
        Result<Vec<Candidate>, McapOpenError>)
        requires
            self.well_formed(),
            self.file.summary == Some(*summary),
            target <= i64::MAX,
        ensures
            ({
                let expected = candidates_for(
                    self.content().file.bytes,
                    mcap_facts::held(*summary),
                    self.content().streams,
                    streams@,
                    target,
                );
                match outcome {
                    Ok(candidates) => expected == Ok::<Seq<CandidateContent>, SourceFault>(
                        candidate_contents(candidates@),
                    ) && forall|i: int|
                        0 <= i < candidates@.len() ==> (#[trigger] candidates@[i]).time
                            <= i64::MAX,
                    Err(error) => expected == Err::<Seq<CandidateContent>, SourceFault>(error@),
                }
            }),
    {
        let ghost bytes = self.content().file.bytes;
        let ghost held = mcap_facts::held(*summary);
        let ghost catalog = self.content().streams;
        let mut candidates: Vec<Candidate> = Vec::new();
        let mut index: usize = 0;
        proof {
            assert(streams@.take(0) =~= Seq::empty());
            assert(candidate_contents(candidates@) =~= Seq::empty());
        }
        while index < streams.len()
            invariant
                index <= streams@.len(),
                self.well_formed(),
                self.file.summary == Some(*summary),
                target <= i64::MAX,
                bytes == self.content().file.bytes,
                held == mcap_facts::held(*summary),
                catalog == self.content().streams,
                forall|i: int|
                    0 <= i < candidates@.len() ==> (#[trigger] candidates@[i]).time <= i64::MAX,
                candidates_for(bytes, held, catalog, streams@.take(index as int), target) == Ok::<
                    Seq<CandidateContent>,
                    SourceFault,
                >(candidate_contents(candidates@)),
            decreases streams@.len() - index,
        {
            let stream: StreamId = streams[index];
            proof {
                assert(streams@.take(index + 1).drop_last() =~= streams@.take(index as int));
                assert(streams@.take(index + 1).last() == stream);
            }
            if is_unlisted(&self.file.chunks, stream) {
                let count: Option<u64> = count_told(&self.catalog.streams, stream);
                let empty: bool = match count {
                    Some(count) => count == 0,
                    None => false,
                };
                if !empty {
                    proof {
                        lemma_candidates_fault_stays(
                            bytes,
                            held,
                            catalog,
                            streams@,
                            target,
                            index + 1,
                        );
                    }
                    return Err(McapOpenError::MessageIndexRequired(stream));
                }
            } else {
                match self.file.predecessor_of(summary, stream, target) {
                    Err(error) => {
                        proof {
                            lemma_candidates_fault_stays(
                                bytes,
                                held,
                                catalog,
                                streams@,
                                target,
                                index + 1,
                            );
                        }
                        return Err(error);
                    },
                    Ok(None) => {},
                    Ok(Some((chunk, time))) => {
                        proof {
                            lemma_predecessor_is_not_after(
                                bytes,
                                held,
                                stream.0 as int,
                                target,
                                0,
                            );
                        }
                        if !seeks_stream(&candidates, stream) {
                            let candidate = Candidate { chunk, stream, time };
                            let ghost before = candidates@;
                            candidates.push(candidate);
                            assert(candidate_contents(candidates@) =~= candidate_contents(
                                before,
                            ).push(CandidateContent { chunk: chunk as int, stream, time }));
                        }
                    },
                }
            }
            index = index + 1;
        }
        assert(streams@.take(streams@.len() as int) =~= streams@);
        Ok(candidates)
    }

    /// Whether streams can be looked up at all.
    fn check_index(&self, streams: &[StreamId]) -> (outcome: Result<(), McapOpenError>)
        requires
            self.well_formed(),
        ensures
            match outcome {
                Ok(_) => self.content().index_fault(streams@) is None && self.file.summary is Some,
                Err(error) => self.content().index_fault(streams@) == Some(error@),
            },
    {
        let mut index: usize = 0;
        while index < streams.len()
            invariant
                index <= streams@.len(),
                forall|i: int|
                    0 <= i < index ==> mcap_source::known(self.content().streams, #[trigger] streams@[i]),
            decreases streams@.len() - index,
        {
            if !stream_known(&self.catalog.streams, streams[index]) {
                assert(!mcap_source::known(self.content().streams, streams@[index as int]));
                return Err(McapOpenError::BadIndex);
            }
            index = index + 1;
        }
        match &self.file.summary {
            Some(_) => Ok(()),
            None => if streams.len() == 0 {
                Err(McapOpenError::BadIndex)
            } else {
                Err(McapOpenError::MessageIndexRequired(streams[0]))
            },
        }
    }

    /// Finds one exact predecessor per stream using the message indexes of the file.
    ///
    /// Candidates are selected without decompressing chunks, and a chunk is then decompressed at
    /// most once for all of them.
    pub fn latest_before(&self, streams: &[StreamId], target: ArrivalTime) -> (outcome: Result<
        IndexedMessages,
        McapOpenError,
    >)
        requires
            self.well_formed(),
        ensures
            match outcome {
                Ok(found) => self.content().latest(streams@, target) == Ok::<
                    IndexedContent,
                    SourceFault,
                >(found@),
                Err(error) => self.content().latest(streams@, target) == Err::<
                    IndexedContent,
                    SourceFault,
                >(error@),
            },
    {
        self.check_index(streams)?;
        if target.0 < 0 {
            return Err(McapOpenError::TimestampOverflow);
        }
        let summary: &Summary = match &self.file.summary {
            Some(summary) => summary,
            None => return Err(McapOpenError::BadIndex),
        };
        let candidates: Vec<Candidate> = self.find_candidates(summary, streams, target.0 as u64)?;
        let ghost wanted = candidate_contents(candidates@);
        let ghost bytes = self.content().file.bytes;
        let ghost held = mcap_facts::held(*summary);
        let mut messages: Vec<RawMessage> = Vec::new();
        let mut chunks_streamed: usize = 0;
        let mut index: usize = 0;
        assert(raw::contents(messages@) =~= Seq::empty());
        while index < self.file.chunks.len()
            invariant
                index <= self.file.chunks@.len(),
                chunks_streamed <= index,
                self.well_formed(),
                self.file.summary == Some(*summary),
                self.content().index_fault(streams@) is None,
                target.0 >= 0,
                bytes == self.content().file.bytes,
                held == mcap_facts::held(*summary),
                wanted == candidate_contents(candidates@),
                candidates_for(bytes, held, self.content().streams, streams@, target.0 as u64)
                    == Ok::<Seq<CandidateContent>, SourceFault>(wanted),
                forall|i: int|
                    0 <= i < candidates@.len() ==> (#[trigger] candidates@[i]).time <= i64::MAX,
                chunks_streamed == needed_chunks(wanted, index as int),
                gathered(bytes, held, wanted, index as int) == Ok::<Seq<RawContent>, SourceFault>(
                    raw::contents(messages@),
                ),
            decreases self.file.chunks@.len() - index,
        {
            if seeks_chunk(&candidates, index) {
                let fault: Option<McapOpenError> = match self.file.read_messages(summary, index) {
                    Ok((found, None)) => {
                        push_picked(&mut messages, &candidates, index, &found);
                        None
                    },
                    Ok((_, Some(error))) => Some(McapOpenError::Mcap(error)),
                    Err(error) => Some(error),
                };
                if let Some(error) = fault {
                    proof {
                        lemma_gathered_fault_stays(
                            bytes,
                            held,
                            wanted,
                            index + 1,
                            held.chunks.len() as int,
                        );
                    }
                    return Err(error);
                }
                chunks_streamed = chunks_streamed + 1;
            }
            index = index + 1;
        }
        Ok(
            IndexedMessages {
                messages: sort_by_time(messages),
                diagnostics: IndexedReadDiagnostics { chunks_streamed },
            },
        )
    }

    fn missing_index(&self, streams: &[StreamId]) -> (stream: Option<StreamId>)
        requires
            self.well_formed(),
            self.file.summary is Some,
        ensures
            stream == first_without_index(
                self.content().file.summary->Some_0.chunks,
                self.content().streams,
                streams@,
            ),
    {
        let ghost chunks = self.content().file.summary->Some_0.chunks;
        let ghost catalog = self.content().streams;
        let mut index: usize = 0;
        assert(streams@.skip(0) =~= streams@);
        while index < streams.len()
            invariant
                index <= streams@.len(),
                chunks == mcap_facts::chunk_contents(self.file.chunks@),
                chunks == self.content().file.summary->Some_0.chunks,
                catalog == self.catalog.content(),
                first_without_index(chunks, catalog, streams@) == first_without_index(
                    chunks,
                    catalog,
                    streams@.skip(index as int),
                ),
            decreases streams@.len() - index,
        {
            let stream: StreamId = streams[index];
            assert(streams@.skip(index as int).drop_first() =~= streams@.skip(index + 1));
            if is_unlisted(&self.file.chunks, stream) {
                let empty: bool = match count_told(&self.catalog.streams, stream) {
                    Some(count) => count == 0,
                    None => false,
                };
                if !empty {
                    return Some(stream);
                }
            }
            index = index + 1;
        }
        None
    }

    /// Reads an indexed, bounded history without changing where sequential reading stands.
    pub fn indexed_range(&self, streams: &[StreamId], range: TimeRange) -> (outcome: Result<
        IndexedMessages,
        McapOpenError,
    >)
        requires
            self.well_formed(),
        ensures
            match outcome {
                Ok(found) => self.content().ranged(streams@, range) == Ok::<
                    IndexedContent,
                    SourceFault,
                >(found@),
                Err(error) => self.content().ranged(streams@, range) == Err::<
                    IndexedContent,
                    SourceFault,
                >(error@),
            },
    {
        self.check_index(streams)?;
        if let Some(stream) = self.missing_index(streams) {
            return Err(McapOpenError::MessageIndexRequired(stream));
        }
        let summary: &Summary = match &self.file.summary {
            Some(summary) => summary,
            None => return Err(McapOpenError::BadIndex),
        };
        let ghost bytes = self.content().file.bytes;
        let ghost held = mcap_facts::held(*summary);
        let mut messages: Vec<RawMessage> = Vec::new();
        let mut chunks_streamed: usize = 0;
        let mut index: usize = 0;
        assert(raw::contents(messages@) =~= Seq::empty());
        while index < self.file.chunks.len()
            invariant
                index <= self.file.chunks@.len(),
                chunks_streamed <= index,
                self.well_formed(),
                self.file.summary == Some(*summary),
                self.content().index_fault(streams@) is None,
                bytes == self.content().file.bytes,
                held == mcap_facts::held(*summary),
                first_without_index(held.chunks, self.content().streams, streams@) is None,
                chunks_streamed == relevant_chunks(held.chunks, streams@, range, index as int),
                range_gathered(bytes, held, streams@, range, index as int) == Ok::<
                    Seq<RawContent>,
                    SourceFault,
                >(raw::contents(messages@)),
            decreases self.file.chunks@.len() - index,
        {
            assert(held.chunks[index as int] == self.file.chunks@[index as int]@);
            if is_relevant(&self.file.chunks[index], streams, range) {
                let fault: Option<McapOpenError> = match self.file.read_messages(summary, index) {
                    Ok((found, damage)) => match push_in_range(
                        &mut messages,
                        &found,
                        streams,
                        range,
                    ) {
                        Ok(_) => match damage {
                            Some(error) => Some(McapOpenError::Mcap(error)),
                            None => None,
                        },
                        Err(error) => Some(error),
                    },
                    Err(error) => Some(error),
                };
                if let Some(error) = fault {
                    proof {
                        lemma_range_fault_stays(
                            bytes,
                            held,
                            streams@,
                            range,
                            index + 1,
                            held.chunks.len() as int,
                        );
                    }
                    return Err(error);
                }
                chunks_streamed = chunks_streamed + 1;
            }
            index = index + 1;
        }
        Ok(
            IndexedMessages {
                messages: sort_by_time(messages),
                diagnostics: IndexedReadDiagnostics { chunks_streamed },
            },
        )
    }

    /// Reads every message of explicitly persistent streams.
    pub fn indexed_streams(&self, streams: &[StreamId]) -> (outcome: Result<
        IndexedMessages,
        McapOpenError,
    >)
        requires
            self.well_formed(),
        ensures
            match outcome {
                Ok(found) => self.content().everything(streams@) == Ok::<
                    IndexedContent,
                    SourceFault,
                >(found@),
                Err(error) => self.content().everything(streams@) == Err::<
                    IndexedContent,
                    SourceFault,
                >(error@),
            },
    {
        match self.catalog.time_range {
            Some(recording) => self.indexed_range(
                streams,
                TimeRange { start: recording.start, end_exclusive: recording.end_exclusive },
            ),
            None => if streams.len() == 0 {
                Err(McapOpenError::BadIndex)
            } else {
                Err(McapOpenError::MessageIndexRequired(streams[0]))
            },
        }
    }
}

proof fn lemma_latest_time(times: Seq<u64>, target: u64)
    ensures
        latest_time(times, target) matches Some(time) ==> time <= target && times.contains(time),
        forall|i: int|
            0 <= i < times.len() && (#[trigger] times[i]) <= target ==> latest_time(
                times,
                target,
            ) is Some && times[i] <= latest_time(times, target)->Some_0,
    decreases times.len(),
{
    if times.len() > 0 {
        let front = times.drop_last();
        lemma_latest_time(front, target);
        assert forall|i: int|
            0 <= i < times.len() && (#[trigger] times[i]) <= target implies latest_time(
            times,
            target,
        ) is Some && times[i] <= latest_time(times, target)->Some_0 by {
            if i < front.len() {
                assert(front[i] == times[i]);
            }
        }
        if latest_time(front, target) is Some {
            let time = latest_time(front, target)->Some_0;
            let i = choose|i: int| 0 <= i < front.len() && front[i] == time;
            assert(times[i] == time);
        }
        assert(times[times.len() - 1] == times.last());
    }
}

proof fn lemma_predecessor_is_not_after(
    bytes: Seq<u8>,
    summary: SummaryContent,
    channel: int,
    target: u64,
    from: int,
)
    ensures
        predecessor(bytes, summary, channel, target, from) matches Ok(Some((_, time))) ==> time
            <= target,
    decreases summary.chunks.len() - from,
{
    if from < summary.chunks.len() {
        lemma_predecessor_is_not_after(bytes, summary, channel, target, from + 1);
        if let Some(times) = mcap_facts::index_times(bytes, summary.channels, summary.chunks[from]) {
            lemma_latest_time(times[channel as u16], target);
        }
    }
}

/// The times that the index of a chunk lists lie in the span of the chunk.
pub open spec fn index_in_span(bytes: Seq<u8>, summary: SummaryContent, chunk: int) -> bool {
    let about = summary.chunks[chunk];
    forall|channel: u16, i: int|
        #![trigger mcap_facts::index_times(bytes, summary.channels, about)->Some_0[channel][i]]
        mcap_facts::index_times(bytes, summary.channels, about) is Some
            && mcap_facts::index_times(bytes, summary.channels, about)->Some_0.contains_key(channel)
            && 0 <= i < mcap_facts::index_times(
            bytes,
            summary.channels,
            about,
        )->Some_0[channel].len() ==> about.message_start_time <= mcap_facts::index_times(
            bytes,
            summary.channels,
            about,
        )->Some_0[channel][i] <= about.message_end_time
}

/// In a file whose chunks span what they list, a predecessor is exact: no listed message of the
/// stream lies between it and the target, whatever the order of the chunks.
pub proof fn law_predecessors_are_exact(
    bytes: Seq<u8>,
    summary: SummaryContent,
    channel: u16,
    target: u64,
    from: int,
    chunk: int,
    i: int,
)
    requires
        0 <= from <= chunk < summary.chunks.len(),
        forall|k: int|
            0 <= k < summary.chunks.len() ==> #[trigger] index_in_span(bytes, summary, k),
        predecessor(bytes, summary, channel as int, target, from) is Ok,
        summary.chunks[chunk].indexes(channel as int),
        mcap_facts::index_times(bytes, summary.channels, summary.chunks[chunk]) is Some,
        mcap_facts::index_times(
            bytes,
            summary.channels,
            summary.chunks[chunk],
        )->Some_0.contains_key(channel),
        0 <= i < mcap_facts::index_times(
            bytes,
            summary.channels,
            summary.chunks[chunk],
        )->Some_0[channel].len(),
        mcap_facts::index_times(bytes, summary.channels, summary.chunks[chunk])->Some_0[channel][i]
            <= target,
    ensures
        predecessor(bytes, summary, channel as int, target, from)->Ok_0 matches Some((_, time))
            && mcap_facts::index_times(
            bytes,
            summary.channels,
            summary.chunks[chunk],
        )->Some_0[channel][i] <= time <= target,
    decreases summary.chunks.len() - from,
{
    lemma_predecessor_is_not_after(bytes, summary, channel as int, target, from);
    let times = mcap_facts::index_times(bytes, summary.channels, summary.chunks[from]);
    if from < chunk {
        law_predecessors_are_exact(bytes, summary, channel, target, from + 1, chunk, i);
    } else {
        assert(index_in_span(bytes, summary, chunk));
        lemma_latest_time(times->Some_0[channel], target);
        assert(channel as int as u16 == channel);
    }
}

/// How many candidates lie in the first `count` chunks.
spec fn candidates_below(candidates: Seq<CandidateContent>, count: int) -> nat
    decreases candidates.len(),
{
    if candidates.len() == 0 {
        0
    } else {
        candidates_below(candidates.drop_last(), count) + (if 0 <= candidates.last().chunk < count {
            1nat
        } else {
            0nat
        })
    }
}

proof fn lemma_candidates_below(candidates: Seq<CandidateContent>, chunk: int)
    requires
        0 <= chunk,
    ensures
        candidates_below(candidates, chunk + 1) >= candidates_below(candidates, chunk) + (
        if in_chunk(candidates, chunk) {
            1nat
        } else {
            0nat
        }),
        candidates_below(candidates, chunk) <= candidates.len(),
    decreases candidates.len(),
{
    if candidates.len() > 0 {
        let front = candidates.drop_last();
        lemma_candidates_below(front, chunk);
        if in_chunk(candidates, chunk) && candidates.last().chunk != chunk {
            let at = choose|at: int| 0 <= at < candidates.len() && (
            #[trigger] candidates[at]).chunk == chunk;
            assert(front[at] == candidates[at]);
            assert(in_chunk(front, chunk));
        }
    }
}

proof fn lemma_needed_below(candidates: Seq<CandidateContent>, count: int)
    requires
        0 <= count,
    ensures
        needed_chunks(candidates, count) <= candidates_below(candidates, count),
        needed_chunks(candidates, count) <= count,
    decreases count,
{
    if count > 0 {
        lemma_needed_below(candidates, count - 1);
        lemma_candidates_below(candidates, count - 1);
    }
}

/// A search for the latest messages of some streams opens no more chunks than there are streams
/// with one, and none twice: there are never more than the file has.
pub proof fn law_searches_open_few_chunks(candidates: Seq<CandidateContent>, count: int)
    requires
        0 <= count,
    ensures
        needed_chunks(candidates, count) <= candidates.len(),
        needed_chunks(candidates, count) <= count,
{
    lemma_needed_below(candidates, count);
    lemma_candidates_below(candidates, count);
}

/// Of the messages of a chunk those are taken that belong to one of the streams and arrived in the
/// range, each of its stream, at the time of its log and with its data.
#[verifier::rlimit(60)]
pub proof fn law_ranges_take_what_is_in_them(
    messages: Seq<ChunkMessageContent>,
    streams: Seq<StreamId>,
    range: TimeRange,
    message: RawContent,
)
    requires
        in_range(messages, streams, range) is Ok,
    ensures
        in_range(messages, streams, range)->Ok_0.contains(message) <==> exists|i: int|
            0 <= i < messages.len() && (#[trigger] messages[i]).channel == message.stream_id.0
                && messages[i].log_time == message.arrival_time.0 && messages[i].data
                == message.payload && streams.contains(message.stream_id) && range.start.0
                <= message.arrival_time.0 < range.end_exclusive.0,
    decreases messages.len(),
{
    let all = in_range(messages, streams, range)->Ok_0;
    if messages.len() > 0 {
        let front = messages.drop_last();
        let last = messages.last();
        let earlier = in_range(front, streams, range)->Ok_0;
        law_ranges_take_what_is_in_them(front, streams, range, message);
        if all.len() > earlier.len() {
            lemma_in_pushed(earlier, all.last(), message);
            assert(all =~= earlier.push(all.last()));
        }
        if all.contains(message) {
            if earlier.contains(message) {
                let i = choose|i: int|
                    0 <= i < front.len() && (#[trigger] front[i]).channel == message.stream_id.0
                        && front[i].log_time == message.arrival_time.0 && front[i].data
                        == message.payload && streams.contains(message.stream_id) && range.start.0
                        <= message.arrival_time.0 < range.end_exclusive.0;
                assert(messages[i] == front[i]);
            } else {
                assert(messages[messages.len() - 1] == last);
            }
        }
        if exists|i: int|
            0 <= i < messages.len() && (#[trigger] messages[i]).channel == message.stream_id.0
                && messages[i].log_time == message.arrival_time.0 && messages[i].data
                == message.payload && streams.contains(message.stream_id) && range.start.0
                <= message.arrival_time.0 < range.end_exclusive.0 {
            let i = choose|i: int|
                0 <= i < messages.len() && (#[trigger] messages[i]).channel == message.stream_id.0
                    && messages[i].log_time == message.arrival_time.0 && messages[i].data
                    == message.payload && streams.contains(message.stream_id) && range.start.0
                    <= message.arrival_time.0 < range.end_exclusive.0;
            if i < front.len() {
                assert(front[i] == messages[i]);
            } else {
                assert(StreamId(last.channel as u32) == message.stream_id);
                assert(all.last() == message);
            }
        }
    }
}

/// What is gathered of a range is all in it and of its streams, and holds what each chunk that may hold
/// something of it brings.
pub proof fn law_ranges_are_gathered_from_their_chunks(
    bytes: Seq<u8>,
    summary: SummaryContent,
    streams: Seq<StreamId>,
    range: TimeRange,
    count: int,
    chunk: int,
    message: RawContent,
)
    requires
        0 <= chunk < count <= summary.chunks.len(),
        range_gathered(bytes, summary, streams, range, count) is Ok,
        relevant(summary.chunks[chunk], streams, range),
    ensures
        ({
            let read = mcap_facts::chunk_messages(bytes, summary.channels, summary.chunks[chunk]);
            &&& read.1
            &&& in_range(read.0, streams, range) is Ok
            &&& in_range(read.0, streams, range)->Ok_0.contains(message) ==> range_gathered(
                bytes,
                summary,
                streams,
                range,
                count,
            )->Ok_0.contains(message)
        }),
    decreases count,
{
    let all = range_gathered(bytes, summary, streams, range, count)->Ok_0;
    let earlier = range_gathered(bytes, summary, streams, range, count - 1)->Ok_0;
    if chunk < count - 1 {
        law_ranges_are_gathered_from_their_chunks(
            bytes,
            summary,
            streams,
            range,
            count - 1,
            chunk,
            message,
        );
    }
    if relevant(summary.chunks[count - 1], streams, range) {
        let read = mcap_facts::chunk_messages(bytes, summary.channels, summary.chunks[count - 1]);
        lemma_in_both(earlier, in_range(read.0, streams, range)->Ok_0, message);
    }
}

/// A message that is picked for a candidate is of its stream, at its time, with the data of the last
/// such message of the chunk.
#[verifier::rlimit(60)]
pub proof fn law_matches_are_the_last_of_their_time(
    messages: Seq<ChunkMessageContent>,
    stream: StreamId,
    time: u64,
)
    requires
        time <= i64::MAX,
    ensures
        match last_match(messages, stream, time) {
            Some(found) => found.stream_id == stream && found.arrival_time.0 == time && exists|
                i: int,
            |
                0 <= i < messages.len() && (#[trigger] messages[i]).channel == stream.0
                    && messages[i].log_time == time && messages[i].data == found.payload && forall|
                    j: int,
                |
                    i < j < messages.len() ==> (#[trigger] messages[j]).channel != stream.0
                        || messages[j].log_time != time,
            None => forall|i: int|
                0 <= i < messages.len() ==> (#[trigger] messages[i]).channel != stream.0
                    || messages[i].log_time != time,
        },
    decreases messages.len(),
{
    if messages.len() > 0 {
        let last = messages.len() - 1;
        if messages[last].channel == stream.0 && messages[last].log_time == time {
            assert(messages[last].data == last_match(messages, stream, time)->0.payload);
        } else {
            let front = messages.drop_last();
            law_matches_are_the_last_of_their_time(front, stream, time);
            if let Some(found) = last_match(front, stream, time) {
                let i = choose|i: int|
                    0 <= i < front.len() && (#[trigger] front[i]).channel == stream.0
                        && front[i].log_time == time && front[i].data == found.payload && forall|
                        j: int,
                    |
                        i < j < front.len() ==> (#[trigger] front[j]).channel != stream.0
                            || front[j].log_time != time;
                assert(messages[i] == front[i]);
                assert forall|j: int| i < j < messages.len() implies (
                #[trigger] messages[j]).channel != stream.0 || messages[j].log_time != time by {
                    if j < last {
                        assert(front[j] == messages[j]);
                    }
                }
            } else {
                assert forall|i: int| 0 <= i < messages.len() implies (
                #[trigger] messages[i]).channel != stream.0 || messages[i].log_time != time by {
                    if i < last {
                        assert(front[i] == messages[i]);
                    }
                }
            }
        }
    }
}

/// A chunk that may hold a message of a stream in a range is read for it, and one that lies wholly before
/// or behind the range, or lists none of the streams, is not.
pub proof fn law_relevant_chunks_are_read(
    chunk: ChunkContent,
    streams: Seq<StreamId>,
    range: TimeRange,
    time: i64,
    place: int,
)
    requires
        chunk.message_end_time <= i64::MAX,
        chunk.message_start_time <= i64::MAX,
    ensures
        chunk.message_start_time <= time <= chunk.message_end_time && range.start.0 <= time
            < range.end_exclusive.0 && 0 <= place < streams.len() && chunk.indexes(
            streams[place].0 as int,
        ) ==> relevant(chunk, streams, range),
        chunk.message_end_time < range.start.0 || chunk.message_start_time
            >= range.end_exclusive.0 ==> !relevant(chunk, streams, range),
        (forall|i: int|
            0 <= i < streams.len() ==> !chunk.indexes((#[trigger] streams[i]).0 as int))
            ==> !relevant(chunk, streams, range),
{
}

/// The latest of some times that is not after a target is one of them, and none of them lies between it
/// and the target.
pub proof fn law_the_latest_time_is_exact(times: Seq<u64>, target: u64)
    ensures
        match latest_time(times, target) {
            Some(time) => times.contains(time) && time <= target && forall|i: int|
                0 <= i < times.len() ==> (#[trigger] times[i]) <= time || times[i] > target,
            None => forall|i: int| 0 <= i < times.len() ==> (#[trigger] times[i]) > target,
        },
    decreases times.len(),
{
    if times.len() > 0 {
        let front = times.drop_last();
        law_the_latest_time_is_exact(front, target);
        assert(times[times.len() - 1] == times.last());
        if let Some(time) = latest_time(times, target) {
            if front.contains(time) {
                let i = choose|i: int| 0 <= i < front.len() && front[i] == time;
                assert(times[i] == time);
            }
            assert forall|i: int| 0 <= i < times.len() implies (#[trigger] times[i]) <= time
                || times[i] > target by {
                if i < front.len() {
                    assert(front[i] == times[i]);
                }
            }
        } else {
            assert forall|i: int| 0 <= i < times.len() implies (#[trigger] times[i]) > target by {
                if i < front.len() {
                    assert(front[i] == times[i]);
                }
            }
        }
    }
}

} // verus!

//! The index records of an MCAP file as plain values, and the calls that read them.
//!
//! The `mcap` crate parses and decompresses; what it finds is named here, and every decision on it
//! is made elsewhere.
//!
//! On some damage the readers of the crate panic instead of answering with an error. The calls that
//! could meet it ask for bytes that `mcap_records` found sound.

use bytes::Bytes;
use crate::message::payload;
use crate::recording::mcap_records;
use mcap::{McapError, MessageStream, Summary};
use vstd::prelude::*;

verus! {

/// The opcode of a message index record.
pub const MESSAGE_INDEX_OPCODE: u8 = 7;

/// `mcap::Summary`, the index records of a file.
#[verifier::external_type_specification]
#[verifier::external_body]
pub struct ExSummary(Summary);

/// `mcap::McapError`, why a file cannot be read.
#[verifier::external_type_specification]
#[verifier::external_body]
pub struct ExMcapError(McapError);

/// A channel of a file.
#[derive(Clone, Debug, Eq, PartialEq)]
pub struct ChannelFact {
    pub id: u16,
    pub topic: String,
    /// Empty where the channel has no schema.
    pub schema: String,
    pub message_encoding: String,
    /// Where the statistics of the file tell it.
    pub message_count: Option<u64>,
}

/// What a channel is, beside its identifier.
pub struct ChannelContent {
    pub topic: Seq<char>,
    pub schema: Seq<char>,
    pub message_encoding: Seq<char>,
    pub message_count: Option<u64>,
}

impl View for ChannelFact {
    type V = ChannelContent;

    open spec fn view(&self) -> ChannelContent {
        ChannelContent {
            topic: self.topic@,
            schema: self.schema@,
            message_encoding: self.message_encoding@,
            message_count: self.message_count,
        }
    }
}

/// A channel as a file records it.
#[derive(Clone, Debug, Eq, PartialEq)]
pub struct ChannelRecord {
    pub id: u16,
    pub topic: String,
    /// The name of the schema, where the channel has one.
    pub schema: Option<String>,
    pub message_encoding: String,
}

/// What a recorded channel is, beside its identifier.
pub struct ChannelRecordContent {
    pub topic: Seq<char>,
    pub schema: Option<Seq<char>>,
    pub message_encoding: Seq<char>,
}

impl View for ChannelRecord {
    type V = ChannelRecordContent;

    open spec fn view(&self) -> ChannelRecordContent {
        ChannelRecordContent {
            topic: self.topic@,
            schema: match self.schema {
                Some(name) => Some(name@),
                None => None,
            },
            message_encoding: self.message_encoding@,
        }
    }
}

/// A recorded channel with the number of its messages. Without a schema the name of it is empty.
pub open spec fn described(record: ChannelRecordContent, count: Option<u64>) -> ChannelContent {
    ChannelContent {
        topic: record.topic,
        schema: match record.schema {
            Some(name) => name,
            None => Seq::empty(),
        },
        message_encoding: record.message_encoding,
        message_count: count,
    }
}

/// A recorded channel with the number of its messages.
pub fn describe_channel(record: &ChannelRecord, message_count: Option<u64>) -> (channel: ChannelFact)
    ensures
        channel.id == record.id,
        channel@ == described(record@, message_count),
{
    let schema: String = match &record.schema {
        Some(name) => name.clone(),
        None => String::new(),
    };
    let channel = ChannelFact {
        id: record.id,
        topic: record.topic.clone(),
        schema,
        message_encoding: record.message_encoding.clone(),
        message_count,
    };
    assert(channel@.schema =~= described(record@, message_count).schema);
    channel
}

/// A chunk of a file.
#[derive(Clone, Debug, Eq, PartialEq)]
pub struct ChunkFact {
    pub message_start_time: u64,
    pub message_end_time: u64,
    pub chunk_start_offset: u64,
    pub chunk_length: u64,
    /// Where the message index of each channel lies, in order of the channels.
    pub message_index_offsets: Vec<(u16, u64)>,
    /// The size of all message indexes of the chunk.
    pub message_index_length: u64,
    pub compression: String,
    pub compressed_size: u64,
    pub uncompressed_size: u64,
}

/// What a chunk is.
pub struct ChunkContent {
    pub message_start_time: u64,
    pub message_end_time: u64,
    pub chunk_start_offset: u64,
    pub chunk_length: u64,
    pub message_index_offsets: Seq<(u16, u64)>,
    pub message_index_length: u64,
    pub compression: Seq<char>,
    pub compressed_size: u64,
    pub uncompressed_size: u64,
}

impl View for ChunkFact {
    type V = ChunkContent;

    open spec fn view(&self) -> ChunkContent {
        ChunkContent {
            message_start_time: self.message_start_time,
            message_end_time: self.message_end_time,
            chunk_start_offset: self.chunk_start_offset,
            chunk_length: self.chunk_length,
            message_index_offsets: self.message_index_offsets@,
            message_index_length: self.message_index_length,
            compression: self.compression@,
            compressed_size: self.compressed_size,
            uncompressed_size: self.uncompressed_size,
        }
    }
}

/// What each chunk of a list is.
pub open spec fn chunk_contents(chunks: Seq<ChunkFact>) -> Seq<ChunkContent> {
    chunks.map_values(|chunk: ChunkFact| chunk@)
}

/// A message index lies at an offset, unless the file ends before one could.
pub open spec fn index_present(bytes: Seq<u8>, offset: u64) -> bool {
    offset + 15 <= bytes.len() ==> bytes[offset as int] == MESSAGE_INDEX_OPCODE
}

impl ChunkContent {
    /// The chunk lists messages of the channel.
    pub open spec fn indexes(self, channel: int) -> bool {
        exists|i: int|
            0 <= i < self.message_index_offsets.len() && (#[trigger] self.message_index_offsets[i]).0
                == channel
    }

    /// The record of the chunk lies at places that can be addressed.
    pub open spec fn addressable(self) -> bool {
        self.chunk_length >= 9 && self.chunk_start_offset + self.chunk_length <= usize::MAX
    }

    /// The message indexes of the chunk lie at places that can be addressed.
    pub open spec fn indexes_addressable(self) -> bool {
        forall|i: int|
            0 <= i < self.message_index_offsets.len() ==> (
            #[trigger] self.message_index_offsets[i]).1 + 15 <= usize::MAX
    }

    /// Where a message index of the chunk should lie in a file there is one.
    pub open spec fn indexes_present(self, bytes: Seq<u8>) -> bool {
        forall|i: int|
            0 <= i < self.message_index_offsets.len() ==> index_present(
                bytes,
                (#[trigger] self.message_index_offsets[i]).1,
            )
    }
}

impl ChunkFact {
    pub fn indexes_channel(&self, channel: u32) -> (listed: bool)
        ensures
            listed == self@.indexes(channel as int),
    {
        let mut index: usize = 0;
        while index < self.message_index_offsets.len()
            invariant
                index <= self.message_index_offsets@.len(),
                forall|i: int|
                    0 <= i < index ==> (#[trigger] self@.message_index_offsets[i]).0 != channel,
            decreases self.message_index_offsets@.len() - index,
        {
            assert(self@.message_index_offsets[index as int]
                == self.message_index_offsets@[index as int]);
            if self.message_index_offsets[index].0 as u32 == channel {
                return true;
            }
            index = index + 1;
        }
        false
    }

    pub fn is_addressable(&self) -> (addressable: bool)
        ensures
            addressable == self@.addressable(),
    {
        if self.chunk_length < 9 {
            return false;
        }
        match self.chunk_start_offset.checked_add(self.chunk_length) {
            Some(end) => end <= usize::MAX as u64,
            None => false,
        }
    }

    pub fn are_indexes_present(&self, bytes: &[u8]) -> (present: bool)
        requires
            self@.indexes_addressable(),
        ensures
            present == self@.indexes_present(bytes@),
    {
        let mut index: usize = 0;
        while index < self.message_index_offsets.len()
            invariant
                index <= self.message_index_offsets@.len(),
                self@.indexes_addressable(),
                forall|i: int|
                    0 <= i < index ==> index_present(
                        bytes@,
                        (#[trigger] self@.message_index_offsets[i]).1,
                    ),
            decreases self.message_index_offsets@.len() - index,
        {
            let offset: u64 = self.message_index_offsets[index].1;
            assert(self@.message_index_offsets[index as int].1 == offset);
            if offset as usize + 15 <= bytes.len() && bytes[offset as usize]
                != MESSAGE_INDEX_OPCODE {
                return false;
            }
            index = index + 1;
        }
        true
    }

    pub fn are_indexes_addressable(&self) -> (addressable: bool)
        ensures
            addressable == self@.indexes_addressable(),
    {
        let mut index: usize = 0;
        while index < self.message_index_offsets.len()
            invariant
                index <= self.message_index_offsets@.len(),
                forall|i: int|
                    0 <= i < index ==> (#[trigger] self@.message_index_offsets[i]).1 + 15
                        <= usize::MAX,
            decreases self.message_index_offsets@.len() - index,
        {
            let offset: u64 = self.message_index_offsets[index].1;
            assert(self@.message_index_offsets[index as int].1 == offset);
            if offset > usize::MAX as u64 || offset as usize > usize::MAX - 15 {
                return false;
            }
            index = index + 1;
        }
        true
    }
}

/// The first and the last message time of a file.
#[derive(Clone, Copy, Debug, Eq, PartialEq, Structural)]
pub struct TimeSpan {
    pub start: u64,
    pub end: u64,
}

/// What the index records of a file say.
pub struct SummaryContent {
    pub chunks: Seq<ChunkContent>,
    pub channels: Map<u16, ChannelContent>,
    pub span: Option<TimeSpan>,
}

/// The index records of a file as they stand. The message counts are those of the statistics.
pub struct SummaryRecords {
    pub chunks: Seq<ChunkContent>,
    pub channels: Map<u16, ChannelRecordContent>,
    pub counts: Option<Map<u16, u64>>,
    pub span: Option<TimeSpan>,
}

/// How many messages the statistics tell of a channel.
pub open spec fn told(counts: Option<Map<u16, u64>>, id: u16) -> Option<u64> {
    match counts {
        Some(counts) => if counts.contains_key(id) {
            Some(counts[id])
        } else {
            None
        },
        None => None,
    }
}

/// The index records with the message counts at their channels.
pub open spec fn joined(records: SummaryRecords) -> SummaryContent {
    SummaryContent {
        chunks: records.chunks,
        channels: records.channels.map_entries(
            |id: u16, channel: ChannelRecordContent| described(channel, told(records.counts, id)),
        ),
        span: records.span,
    }
}

/// The index records that an `mcap::Summary` holds.
pub uninterp spec fn recorded(summary: Summary) -> SummaryRecords;

/// The chunks, the channels and the time span that an `mcap::Summary` tells.
pub open spec fn held(summary: Summary) -> SummaryContent {
    joined(recorded(summary))
}

/// The index records of a file: none where it cannot be read, and an inner none where it has no
/// summary section.
pub uninterp spec fn summary_records(bytes: Seq<u8>) -> Option<Option<SummaryRecords>>;

/// What the index records of a file tell: none where it cannot be read, and an inner none where it
/// has no summary section.
pub open spec fn summary_in(bytes: Seq<u8>) -> Option<Option<SummaryContent>> {
    match summary_records(bytes) {
        None => None,
        Some(None) => Some(None),
        Some(Some(records)) => Some(Some(joined(records))),
    }
}

/// `Summary::read`: the index records of a file.
#[verifier::external_body]
pub(crate) fn read_summary(bytes: &[u8]) -> (outcome: Result<Option<Summary>, McapError>)
    requires
        mcap_records::summary_sound(bytes@),
    ensures
        match outcome {
            Ok(Some(summary)) => summary_records(bytes@) == Some(Some(recorded(summary))),
            Ok(None) => summary_records(bytes@) == Some(None::<SummaryRecords>),
            Err(_) => summary_records(bytes@) is None,
        },
{
    Summary::read(bytes)
}

/// `Summary::chunk_indexes`: the chunks, in the order of the file.
#[verifier::external_body]
pub(crate) fn chunks_of(summary: &Summary) -> (chunks: Vec<ChunkFact>)
    ensures
        chunk_contents(chunks@) == recorded(*summary).chunks,
{
    let fact = |chunk: &mcap::records::ChunkIndex| ChunkFact {
        message_start_time: chunk.message_start_time,
        message_end_time: chunk.message_end_time,
        chunk_start_offset: chunk.chunk_start_offset,
        chunk_length: chunk.chunk_length,
        message_index_offsets: chunk.message_index_offsets.clone().into_iter().collect(),
        message_index_length: chunk.message_index_length,
        compression: chunk.compression.clone(),
        compressed_size: chunk.compressed_size,
        uncompressed_size: chunk.uncompressed_size,
    };
    summary.chunk_indexes.iter().map(fact).collect()
}

/// Each channel of a map is in the list exactly once, and nothing else.
pub open spec fn lists_channels(facts: Seq<ChannelFact>, channels: Map<u16, ChannelContent>) -> bool {
    &&& forall|i: int|
        0 <= i < facts.len() ==> channels.contains_key((#[trigger] facts[i]).id)
            && channels[facts[i].id] == facts[i]@
    &&& forall|i: int, j: int|
        0 <= i < j < facts.len() ==> (#[trigger] facts[i]).id != (#[trigger] facts[j]).id
    &&& forall|id: u16| #[trigger]
        channels.contains_key(id) ==> exists|i: int|
            0 <= i < facts.len() && (#[trigger] facts[i]).id == id
}

/// Each recorded channel of a map is in the list exactly once, and nothing else.
pub open spec fn lists_records(
    records: Seq<ChannelRecord>,
    channels: Map<u16, ChannelRecordContent>,
) -> bool {
    &&& forall|i: int|
        0 <= i < records.len() ==> channels.contains_key((#[trigger] records[i]).id)
            && channels[records[i].id] == records[i]@
    &&& forall|i: int, j: int|
        0 <= i < j < records.len() ==> (#[trigger] records[i]).id != (#[trigger] records[j]).id
    &&& forall|id: u16| #[trigger]
        channels.contains_key(id) ==> exists|i: int|
            0 <= i < records.len() && (#[trigger] records[i]).id == id
}

/// `Summary::channels`: every channel once, in no particular order.
#[verifier::external_body]
pub(crate) fn channel_records(summary: &Summary) -> (records: Vec<ChannelRecord>)
    ensures
        lists_records(records@, recorded(*summary).channels),
{
    let record = |(id, channel): (&u16, &std::sync::Arc<mcap::Channel<'static>>)| ChannelRecord {
        id: *id,
        topic: channel.topic.clone(),
        schema: channel.schema.as_ref().map(|schema| schema.name.clone()),
        message_encoding: channel.message_encoding.clone(),
    };
    summary.channels.iter().map(record).collect()
}

/// Each count of a map is in the list, and nothing else.
pub open spec fn lists_counts(pairs: Seq<(u16, u64)>, counts: Map<u16, u64>) -> bool {
    &&& forall|i: int|
        0 <= i < pairs.len() ==> counts.contains_key((#[trigger] pairs[i]).0)
            && counts[pairs[i].0] == pairs[i].1
    &&& forall|id: u16| #[trigger]
        counts.contains_key(id) ==> exists|i: int|
            0 <= i < pairs.len() && (#[trigger] pairs[i]).0 == id
}

/// `Statistics::channel_message_counts` of `Summary::stats`: the number of messages of each channel
/// that the statistics tell of, where the file has statistics.
#[verifier::external_body]
pub(crate) fn message_counts(summary: &Summary) -> (counts: Option<Vec<(u16, u64)>>)
    ensures
        match counts {
            Some(pairs) => recorded(*summary).counts matches Some(map) && lists_counts(pairs@, map),
            None => recorded(*summary).counts is None,
        },
{
    let pairs = |stats: &mcap::records::Statistics| {
        stats.channel_message_counts.clone().into_iter().collect()
    };
    summary.stats.as_ref().map(pairs)
}

/// How many messages a list of counts tells of a channel.
fn told_of(pairs: &Vec<(u16, u64)>, id: u16, Ghost(counts): Ghost<Map<u16, u64>>) -> (count: Option<
    u64,
>)
    requires
        lists_counts(pairs@, counts),
    ensures
        count == told(Some(counts), id),
{
    let mut index: usize = 0;
    while index < pairs.len()
        invariant
            index <= pairs@.len(),
            lists_counts(pairs@, counts),
            forall|i: int| 0 <= i < index ==> (#[trigger] pairs@[i]).0 != id,
        decreases pairs@.len() - index,
    {
        if pairs[index].0 == id {
            assert(counts[pairs@[index as int].0] == pairs@[index as int].1);
            return Some(pairs[index].1);
        }
        index = index + 1;
    }
    None
}

/// The channels that the index records of a file tell, with the number of their messages: every
/// channel once, in no particular order.
pub fn channels_of(summary: &Summary) -> (channels: Vec<ChannelFact>)
    ensures
        lists_channels(channels@, held(*summary).channels),
{
    let records: Vec<ChannelRecord> = channel_records(summary);
    let counts: Option<Vec<(u16, u64)>> = message_counts(summary);
    let ghost known = recorded(*summary);
    let mut channels: Vec<ChannelFact> = Vec::with_capacity(records.len());
    let mut index: usize = 0;
    while index < records.len()
        invariant
            index <= records@.len(),
            channels@.len() == index,
            known == recorded(*summary),
            match counts {
                Some(pairs) => known.counts matches Some(map) && lists_counts(pairs@, map),
                None => known.counts is None,
            },
            forall|i: int|
                0 <= i < index ==> (#[trigger] channels@[i]).id == records@[i].id && channels@[i]@
                    == described(records@[i]@, told(known.counts, records@[i].id)),
        decreases records@.len() - index,
    {
        let count: Option<u64> = match &counts {
            Some(pairs) => told_of(pairs, records[index].id, Ghost(known.counts->Some_0)),
            None => None,
        };
        channels.push(describe_channel(&records[index], count));
        index = index + 1;
    }
    proof {
        let all = held(*summary).channels;
        assert forall|i: int| 0 <= i < channels@.len() implies all.contains_key(
            (#[trigger] channels@[i]).id,
        ) && all[channels@[i].id] == channels@[i]@ by {
            assert(known.channels.contains_key(records@[i].id));
        }
        assert forall|i: int, j: int| 0 <= i < j < channels@.len() implies (
        #[trigger] channels@[i]).id != (#[trigger] channels@[j]).id by {
            assert(records@[i].id != records@[j].id);
        }
        assert forall|id: u16| #[trigger] all.contains_key(id) implies exists|i: int|
            0 <= i < channels@.len() && (#[trigger] channels@[i]).id == id by {
            assert(known.channels.contains_key(id));
            let i = choose|i: int| 0 <= i < records@.len() && (#[trigger] records@[i]).id == id;
            assert(channels@[i].id == id);
        }
    }
    channels
}

/// `Summary::stats`: the first and the last message time, where the file has statistics.
#[verifier::external_body]
pub(crate) fn span_of(summary: &Summary) -> (span: Option<TimeSpan>)
    ensures
        span == recorded(*summary).span,
{
    summary.stats.as_ref().map(|stats| TimeSpan {
        start: stats.message_start_time,
        end: stats.message_end_time,
    })
}

/// A message as a file holds it.
#[derive(Clone, Debug)]
pub struct RecordedMessage {
    pub channel: ChannelRecord,
    pub log_time: u64,
    pub data: Bytes,
}

/// What a recorded message is.
pub struct RecordedContent {
    pub channel: u16,
    pub about: ChannelRecordContent,
    pub log_time: u64,
    pub data: Seq<u8>,
}

impl View for RecordedMessage {
    type V = RecordedContent;

    open spec fn view(&self) -> RecordedContent {
        RecordedContent {
            channel: self.channel.id,
            about: self.channel@,
            log_time: self.log_time,
            data: payload::content(self.data),
        }
    }
}

/// What each message of a list is.
pub open spec fn recorded_contents(messages: Seq<RecordedMessage>) -> Seq<RecordedContent> {
    messages.map_values(|message: RecordedMessage| message@)
}

/// A message of a chunk: its channel, its log time and its bytes.
#[derive(Clone, Debug)]
pub struct ChunkMessage {
    pub channel: u16,
    pub log_time: u64,
    pub data: Bytes,
}

/// What a message of a chunk is.
pub struct ChunkMessageContent {
    pub channel: u16,
    pub log_time: u64,
    pub data: Seq<u8>,
}

impl View for ChunkMessage {
    type V = ChunkMessageContent;

    open spec fn view(&self) -> ChunkMessageContent {
        ChunkMessageContent {
            channel: self.channel,
            log_time: self.log_time,
            data: payload::content(self.data),
        }
    }
}

/// What each message of a list is.
pub open spec fn message_contents(messages: Seq<ChunkMessage>) -> Seq<ChunkMessageContent> {
    messages.map_values(|message: ChunkMessage| message@)
}

/// The messages of a chunk, in the order of the file, up to the first record that cannot be read or
/// message that belongs to none of the channels, and whether there is no such.
pub uninterp spec fn chunk_messages(
    bytes: Seq<u8>,
    channels: Map<u16, ChannelContent>,
    chunk: ChunkContent,
) -> (Seq<ChunkMessageContent>, bool);

/// `Summary::stream_chunk` on the file that the summary was read from, up to its first error: the
/// messages before it, and the error.
#[verifier::external_body]
pub(crate) fn stream_chunk(summary: &Summary, bytes: &[u8], index: usize) -> (read: (
    Vec<ChunkMessage>,
    Option<McapError>,
))
    requires
        summary_records(bytes@) == Some(Some(recorded(*summary))),
        index < held(*summary).chunks.len(),
        held(*summary).chunks[index as int].addressable(),
        mcap_records::chunk_record_sound(bytes@, held(*summary).chunks[index as int]),
    ensures
        chunk_messages(
            bytes@,
            held(*summary).channels,
            held(*summary).chunks[index as int],
        ) == (message_contents(read.0@), read.1 is None),
{
    let mut messages = Vec::new();
    let index = &summary.chunk_indexes[index];
    let read = summary.stream_chunk(bytes, index).and_then(|mut stream| {
        stream.try_for_each(|message| message.map(|message| messages.push(ChunkMessage {
            channel: message.channel.id,
            log_time: message.log_time,
            data: Bytes::from(message.data.into_owned()),
        })))
    });
    (messages, read.err())
}

/// The log times that the message indexes of a chunk list for each channel: none where an index
/// cannot be read.
pub uninterp spec fn index_times(
    bytes: Seq<u8>,
    channels: Map<u16, ChannelContent>,
    chunk: ChunkContent,
) -> Option<Map<u16, Seq<u64>>>;

/// Each channel of a map is in the list exactly once, with its times, and nothing else.
pub open spec fn lists_times(lists: Seq<(u16, Vec<u64>)>, times: Map<u16, Seq<u64>>) -> bool {
    &&& forall|i: int|
        0 <= i < lists.len() ==> times.contains_key((#[trigger] lists[i]).0) && times[lists[i].0]
            == lists[i].1@
    &&& forall|id: u16| #[trigger]
        times.contains_key(id) ==> exists|i: int|
            0 <= i < lists.len() && (#[trigger] lists[i]).0 == id
}

/// `Summary::read_message_indexes` on the file that the summary was read from: the listed log times
/// of each channel of a chunk, the channels in no particular order.
#[verifier::external_body]
pub(crate) fn read_index_times(summary: &Summary, bytes: &[u8], index: usize) -> (outcome: Result<
    Vec<(u16, Vec<u64>)>,
    McapError,
>)
    requires
        summary_records(bytes@) == Some(Some(recorded(*summary))),
        index < held(*summary).chunks.len(),
        held(*summary).chunks[index as int].indexes_addressable(),
        held(*summary).chunks[index as int].indexes_present(bytes@),
    ensures
        ({
            let times = index_times(
                bytes@,
                held(*summary).channels,
                held(*summary).chunks[index as int],
            );
            match outcome {
                Ok(lists) => times is Some && lists_times(lists@, times->Some_0),
                Err(_) => times is None,
            }
        }),
{
    let indexes = summary.read_message_indexes(bytes, &summary.chunk_indexes[index])?;
    let times = |entries: Vec<mcap::records::MessageIndexEntry>| {
        entries.into_iter().map(|entry| entry.log_time).collect()
    };
    Ok(indexes.into_iter().map(|(channel, entries)| (channel.id, times(entries))).collect())
}

/// The messages of a file from its start, with their channels, up to the first record that cannot
/// be read or does not fit, and whether there is no such.
pub uninterp spec fn linear_messages(bytes: Seq<u8>) -> (Seq<RecordedContent>, bool);

/// `MessageStream`, read up to its first error: the messages before it, and the error.
#[verifier::external_body]
pub(crate) fn stream_file(bytes: &[u8]) -> (read: (Vec<RecordedMessage>, Option<McapError>))
    requires
        mcap_records::file_sound(bytes@, 8),
    ensures
        linear_messages(bytes@) == (recorded_contents(read.0@), read.1 is None),
{
    let mut messages = Vec::new();
    let fact = |message: mcap::Message<'static>| RecordedMessage {
        channel: ChannelRecord {
            id: message.channel.id,
            topic: message.channel.topic.clone(),
            schema: message.channel.schema.as_ref().map(|schema| schema.name.clone()),
            message_encoding: message.channel.message_encoding.clone(),
        },
        log_time: message.log_time,
        data: Bytes::from(message.data.into_owned()),
    };
    let read = MessageStream::new(bytes).and_then(|mut stream| {
        stream.try_for_each(|message| message.map(|message| messages.push(fact(message))))
    });
    (messages, read.err())
}

/// The words of an `mcap::McapError`, which are the crate's own: nothing is stated of them.
#[verifier::external_body]
pub(crate) fn error_text(error: &McapError) -> (words: String) {
    format!("{error}")
}

/// A channel is described by its record, and counted where the statistics count it.
pub proof fn law_channels_are_described_by_their_record(
    record: ChannelRecord,
    count: Option<u64>,
    channel: ChannelFact,
)
    requires
        channel@ == described(record@, count),
    ensures
        channel.topic@ == record.topic@,
        channel.message_encoding@ == record.message_encoding@,
        channel.message_count == count,
        record.schema is Some ==> channel.schema@ == record.schema->0@,
        record.schema is None ==> channel.schema@.len() == 0,
{
}

/// Each channel of a file is told under its number, with the count that the statistics give for
/// that number.
pub proof fn law_counts_stand_at_their_channels(records: SummaryRecords, id: u16)
    ensures
        joined(records).channels.contains_key(id) <==> records.channels.contains_key(id),
        records.channels.contains_key(id) ==> joined(records).channels[id].topic
            == records.channels[id].topic,
        records.channels.contains_key(id) ==> match joined(records).channels[id].message_count {
            Some(count) => records.counts is Some && records.counts->0.contains_pair(id, count),
            None => records.counts is None || !records.counts->0.contains_key(id),
        },
        joined(records).chunks == records.chunks,
        joined(records).span == records.span,
{
}

} // verus!

//! Random and sequential access to the messages of an MCAP file in memory.

use crate::message::payload;
use crate::message::text::{self, push_decimal};
use crate::message::time::ArrivalTime;
use crate::playback::data_window;
use crate::recording::local_restore::lemma_in_pushed;
use crate::recording::mcap_facts::{
    self, channels_of, chunks_of, describe_channel, error_text, read_summary, span_of, stream_chunk,
    stream_file, ChannelContent, ChannelFact, ChunkContent, ChunkFact, ChunkMessage,
    ChunkMessageContent, RecordedContent, RecordedMessage, SummaryContent, TimeSpan,
};
use crate::recording::mcap_records::{
    self, is_chunk_record_sound, is_file_sound, is_summary_sound,
};
use crate::recording::raw::{self, lists, retain_streams, sort_by_time, RawContent, RawMessage, StreamId};
use crate::recording::session::{
    self, RecordingTimeRange, SourceCatalog, StreamContent, StreamDescriptor, StreamTimingSummary,
};
use mcap::{McapError, Summary};
use vstd::prelude::*;
use vstd::string::*;

pub mod indexed;
pub mod query;

verus! {

/// A file without index records is read as a whole only up to this size.
pub const LINEAR_FALLBACK_LIMIT: usize = 67_108_864;

/// Why a file cannot be read.
#[derive(Debug)]
pub enum McapOpenError {
    Mcap(McapError),
    /// A record of the file is damaged in a way that the readers do not report.
    Damaged,
    BadIndex,
    SummaryRequired(usize),
    MessageIndexRequired(StreamId),
    TimestampOverflow,
}

/// What a `McapOpenError` says, but for the words of the `mcap` crate.
pub enum SourceFault {
    Mcap,
    Damaged,
    BadIndex,
    SummaryRequired(usize),
    MessageIndexRequired(StreamId),
    TimestampOverflow,
}

impl View for McapOpenError {
    type V = SourceFault;

    open spec fn view(&self) -> SourceFault {
        match *self {
            McapOpenError::Mcap(_) => SourceFault::Mcap,
            McapOpenError::Damaged => SourceFault::Damaged,
            McapOpenError::BadIndex => SourceFault::BadIndex,
            McapOpenError::SummaryRequired(size) => SourceFault::SummaryRequired(size),
            McapOpenError::MessageIndexRequired(stream) => SourceFault::MessageIndexRequired(stream),
            McapOpenError::TimestampOverflow => SourceFault::TimestampOverflow,
        }
    }
}

impl McapOpenError {
    /// The sentence for a fault, with the words of the `mcap` crate where it found the fault.
    pub open spec fn spec_message(fault: SourceFault, words: Seq<char>) -> Seq<char> {
        match fault {
            SourceFault::Mcap => "MCAP error: "@ + words,
            SourceFault::Damaged => "MCAP error: a record is damaged"@,
            SourceFault::BadIndex =>
                "MCAP error: Index offset and length didn't point to the expected record type"@,
            SourceFault::SummaryRequired(size) =>
                "MCAP file without a summary is too large for linear fallback ("@ + text::decimal(
                    size as nat,
                ) + " bytes)"@,
            SourceFault::MessageIndexRequired(stream) =>
                "MCAP Message Index is required to restore stream "@ + text::decimal(
                    stream.0 as nat,
                ),
            SourceFault::TimestampOverflow => "MCAP timestamp exceeds signed nanosecond range"@,
        }
    }

    /// The error as a sentence for the user.
    pub fn message(&self) -> (sentence: String)
        ensures
            exists|words: Seq<char>| sentence@ == #[trigger] Self::spec_message(self@, words),
    {
        let mut sentence: String = String::new();
        let ghost mut found: Seq<char> = Seq::empty();
        match self {
            McapOpenError::Mcap(error) => {
                let words: String = error_text(error);
                sentence = "MCAP error: ".to_owned();
                sentence.append(words.as_str());
                proof {
                    found = words@;
                }
            },
            McapOpenError::Damaged => {
                sentence = "MCAP error: a record is damaged".to_owned();
            },
            McapOpenError::BadIndex => {
                sentence =
                "MCAP error: Index offset and length didn't point to the expected record type".to_owned();
            },
            McapOpenError::SummaryRequired(size) => {
                sentence =
                "MCAP file without a summary is too large for linear fallback (".to_owned();
                push_decimal(&mut sentence, *size as u64);
                sentence.append(" bytes)");
            },
            McapOpenError::MessageIndexRequired(stream) => {
                sentence = "MCAP Message Index is required to restore stream ".to_owned();
                push_decimal(&mut sentence, stream.0 as u64);
            },
            McapOpenError::TimestampOverflow => {
                sentence = "MCAP timestamp exceeds signed nanosecond range".to_owned();
            },
        }
        assert(sentence@ == Self::spec_message(self@, found));
        sentence
    }
}

/// A log time as an arrival time, where it fits.
pub open spec fn arrival_of(log_time: u64) -> Option<ArrivalTime> {
    if log_time <= i64::MAX {
        Some(ArrivalTime(log_time as i64))
    } else {
        None
    }
}

/// A log time as an arrival time, or the last one.
pub open spec fn arrival_capped(log_time: u64) -> ArrivalTime {
    if log_time <= i64::MAX {
        ArrivalTime(log_time as i64)
    } else {
        ArrivalTime(i64::MAX)
    }
}

/// A log time as an arrival time.
pub fn to_arrival(log_time: u64) -> (outcome: Result<ArrivalTime, McapOpenError>)
    ensures
        match outcome {
            Ok(time) => arrival_of(log_time) == Some(time),
            Err(error) => arrival_of(log_time) is None && error@ is TimestampOverflow,
        },
{
    if log_time <= i64::MAX as u64 {
        Ok(ArrivalTime(log_time as i64))
    } else {
        Err(McapOpenError::TimestampOverflow)
    }
}

/// A log time as an arrival time, or the last one where it does not fit.
pub fn to_arrival_lossy(log_time: u64) -> (time: ArrivalTime)
    ensures
        time == arrival_capped(log_time),
{
    if log_time <= i64::MAX as u64 {
        ArrivalTime(log_time as i64)
    } else {
        ArrivalTime(i64::MAX)
    }
}

/// The stream is wanted: every stream is, unless some were selected.
pub open spec fn wanted(selected: Option<Seq<StreamId>>, stream: StreamId) -> bool {
    match selected {
        Some(streams) => streams.contains(stream),
        None => true,
    }
}

/// The wanted messages of a list in the order of the list, or that one of them has no arrival
/// time.
pub open spec fn kept(
    messages: Seq<ChunkMessageContent>,
    selected: Option<Seq<StreamId>>,
) -> Result<Seq<RawContent>, SourceFault>
    decreases messages.len(),
{
    if messages.len() == 0 {
        Ok(Seq::empty())
    } else {
        let last = messages.last();
        let stream_id = StreamId(last.channel as u32);
        match kept(messages.drop_last(), selected) {
            Err(fault) => Err(fault),
            Ok(earlier) => if !wanted(selected, stream_id) {
                Ok(earlier)
            } else {
                match arrival_of(last.log_time) {
                    None => Err(SourceFault::TimestampOverflow),
                    Some(arrival_time) => Ok(
                        earlier.push(RawContent { stream_id, arrival_time, payload: last.data }),
                    ),
                }
            },
        }
    }
}

/// The wanted messages of a list in order of time, where the list was read to its end.
pub open spec fn sorted_read(
    messages: Seq<ChunkMessageContent>,
    complete: bool,
    selected: Option<Seq<StreamId>>,
) -> Result<Seq<RawContent>, SourceFault> {
    match kept(messages, selected) {
        Err(fault) => Err(fault),
        Ok(all) => if complete {
            Ok(raw::time_sorted(all))
        } else {
            Err(SourceFault::Mcap)
        },
    }
}

/// The wanted messages of a chunk in order of time.
pub open spec fn chunk_kept(
    bytes: Seq<u8>,
    summary: SummaryContent,
    index: int,
    selected: Option<Seq<StreamId>>,
) -> Result<Seq<RawContent>, SourceFault> {
    if index >= summary.chunks.len() || !summary.chunks[index].addressable() {
        Err(SourceFault::BadIndex)
    } else if !mcap_records::chunk_record_sound(bytes, summary.chunks[index]) {
        Err(SourceFault::Damaged)
    } else {
        let read = mcap_facts::chunk_messages(bytes, summary.channels, summary.chunks[index]);
        sorted_read(read.0, read.1, selected)
    }
}

proof fn lemma_kept_fault_stays(
    messages: Seq<ChunkMessageContent>,
    selected: Option<Seq<StreamId>>,
    count: int,
)
    requires
        0 <= count <= messages.len(),
        kept(messages.take(count), selected) is Err,
    ensures
        kept(messages, selected) == kept(messages.take(count), selected),
    decreases messages.len() - count,
{
    if count < messages.len() {
        assert(messages.take(count + 1).drop_last() =~= messages.take(count));
        lemma_kept_fault_stays(messages, selected, count + 1);
    } else {
        assert(messages.take(count) =~= messages);
    }
}

/// The streams of a selection.
pub open spec fn selection(selected: Option<Vec<StreamId>>) -> Option<Seq<StreamId>> {
    match selected {
        Some(streams) => Some(streams@),
        None => None,
    }
}

fn is_wanted(selected: &Option<Vec<StreamId>>, stream: StreamId) -> (is: bool)
    ensures
        is == wanted(selection(*selected), stream),
{
    match selected {
        Some(streams) => lists(streams.as_slice(), stream),
        None => true,
    }
}

/// The wanted messages of a chunk, in the order of the file.
pub fn keep_messages(messages: Vec<ChunkMessage>, selected: &Option<Vec<StreamId>>) -> (outcome: Result<
    Vec<RawMessage>,
    McapOpenError,
>)
    ensures
        match outcome {
            Ok(all) => kept(mcap_facts::message_contents(messages@), selection(*selected)) == Ok::<
                Seq<RawContent>,
                SourceFault,
            >(raw::contents(all@)),
            Err(error) => kept(mcap_facts::message_contents(messages@), selection(*selected))
                == Err::<Seq<RawContent>, SourceFault>(error@),
        },
{
    let ghost all = mcap_facts::message_contents(messages@);
    let ghost choice = selection(*selected);
    let mut output: Vec<RawMessage> = Vec::with_capacity(messages.len());
    let mut index: usize = 0;
    proof {
        assert(all.take(0) =~= Seq::empty());
        assert(raw::contents(output@) =~= Seq::empty());
    }
    while index < messages.len()
        invariant
            index <= messages@.len(),
            all == mcap_facts::message_contents(messages@),
            choice == selection(*selected),
            kept(all.take(index as int), choice) == Ok::<Seq<RawContent>, SourceFault>(
                raw::contents(output@),
            ),
        decreases messages@.len() - index,
    {
        let message: &ChunkMessage = &messages[index];
        let stream_id = StreamId(message.channel as u32);
        proof {
            assert(all[index as int] == message@);
            assert(all.take(index + 1).drop_last() =~= all.take(index as int));
        }
        if is_wanted(selected, stream_id) {
            let ghost before = output@;
            match to_arrival(message.log_time) {
                Ok(arrival_time) => {
                    let raw = RawMessage { stream_id, arrival_time, payload: message.data.clone() };
                    output.push(raw);
                    assert(raw::contents(output@) =~= raw::contents(before).push(raw@));
                },
                Err(error) => {
                    proof {
                        lemma_kept_fault_stays(all, choice, index + 1);
                    }
                    return Err(error);
                },
            }
        }
        index = index + 1;
    }
    assert(all.take(all.len() as int) =~= all);
    Ok(output)
}

/// The wanted messages of a list in order of time, where the list was read to its end. A message
/// without an arrival time counts before the error that ended the list.
pub fn sort_read(
    messages: Vec<ChunkMessage>,
    error: Option<McapError>,
    selected: &Option<Vec<StreamId>>,
) -> (outcome: Result<Vec<RawMessage>, McapOpenError>)
    ensures
        ({
            let expected = sorted_read(
                mcap_facts::message_contents(messages@),
                error is None,
                selection(*selected),
            );
            match outcome {
                Ok(all) => expected == Ok::<Seq<RawContent>, SourceFault>(raw::contents(all@)),
                Err(error) => expected == Err::<Seq<RawContent>, SourceFault>(error@),
            }
        }),
{
    let all: Vec<RawMessage> = keep_messages(messages, selected)?;
    match error {
        Some(error) => Err(McapOpenError::Mcap(error)),
        None => Ok(sort_by_time(all)),
    }
}

/// Where sequential reading stands: the messages of the current chunk, and how many were read.
#[derive(Debug)]
pub struct ReadCursor {
    cache: Vec<RawMessage>,
    chunk: Option<usize>,
    position: usize,
}

/// What a read cursor holds.
pub struct CursorContent {
    pub cache: Seq<RawContent>,
    pub chunk: Option<nat>,
    pub position: nat,
}

impl ReadCursor {
    pub closed spec fn content(&self) -> CursorContent {
        CursorContent {
            cache: raw::contents(self.cache@),
            chunk: match self.chunk {
                Some(chunk) => Some(chunk as nat),
                None => None,
            },
            position: self.position as nat,
        }
    }

    pub closed spec fn well_formed(&self) -> bool {
        self.position <= self.cache@.len()
    }
}

/// A file: its bytes and its index records.
pub struct FileContent {
    pub bytes: Seq<u8>,
    pub summary: Option<SummaryContent>,
}

impl FileContent {
    /// The messages lie in chunks that the file lists.
    pub open spec fn chunked(self) -> bool {
        self.summary is Some && self.summary->Some_0.chunks.len() > 0
    }

    pub open spec fn chunk_count(self) -> nat {
        match self.summary {
            Some(summary) => summary.chunks.len(),
            None => 0,
        }
    }
}

/// How many messages from the front arrived before a time.
pub open spec fn before(messages: Seq<RawContent>, time: ArrivalTime) -> nat
    decreases messages.len(),
{
    if messages.len() > 0 && messages[0].arrival_time.0 < time.0 {
        1 + before(messages.drop_first(), time)
    } else {
        0
    }
}

/// How many chunks from the front end before a time.
pub open spec fn ended(chunks: Seq<ChunkContent>, time: ArrivalTime) -> nat
    decreases chunks.len(),
{
    if chunks.len() > 0 && arrival_capped(chunks[0].message_end_time).0 < time.0 {
        1 + ended(chunks.drop_first(), time)
    } else {
        0
    }
}

fn count_before(messages: &Vec<RawMessage>, time: ArrivalTime) -> (count: usize)
    ensures
        count == before(raw::contents(messages@), time),
        count <= messages@.len(),
{
    let ghost all = raw::contents(messages@);
    let mut count: usize = 0;
    assert(all.skip(0) =~= all);
    while count < messages.len() && messages[count].arrival_time.0 < time.0
        invariant
            count <= messages@.len(),
            all == raw::contents(messages@),
            before(all, time) == count + before(all.skip(count as int), time),
        decreases messages@.len() - count,
    {
        proof {
            assert(all[count as int] == messages@[count as int]@);
            assert(all.skip(count as int).drop_first() =~= all.skip(count + 1));
        }
        count = count + 1;
    }
    proof {
        if count < messages@.len() {
            assert(all[count as int] == messages@[count as int]@);
        }
    }
    count
}

/// How many chunks from the front end before a time.
pub fn count_ended(chunks: &Vec<ChunkFact>, time: ArrivalTime) -> (count: usize)
    ensures
        count == ended(mcap_facts::chunk_contents(chunks@), time),
        count <= chunks@.len(),
{
    let ghost all = mcap_facts::chunk_contents(chunks@);
    let mut count: usize = 0;
    assert(all.skip(0) =~= all);
    while count < chunks.len() && to_arrival_lossy(chunks[count].message_end_time).0 < time.0
        invariant
            count <= chunks@.len(),
            all == mcap_facts::chunk_contents(chunks@),
            ended(all, time) == count + ended(all.skip(count as int), time),
        decreases chunks@.len() - count,
    {
        proof {
            assert(all[count as int] == chunks@[count as int]@);
            assert(all.skip(count as int).drop_first() =~= all.skip(count + 1));
        }
        count = count + 1;
    }
    proof {
        if count < chunks@.len() {
            assert(all[count as int] == chunks@[count as int]@);
        }
    }
    count
}

/// A channel as a stream of a catalog.
pub open spec fn stream_of(id: u16, channel: ChannelContent) -> StreamContent {
    StreamContent {
        id: StreamId(id as u32),
        topic: channel.topic,
        schema: channel.schema,
        message_encoding: channel.message_encoding,
        timing: StreamTimingSummary { message_count: channel.message_count },
    }
}

/// The channels with identifiers below a limit as streams, in order of their identifiers.
pub open spec fn streams_below(channels: Map<u16, ChannelContent>, limit: nat) -> Seq<StreamContent>
    decreases limit,
{
    if limit == 0 {
        Seq::empty()
    } else {
        let id = (limit - 1) as u16;
        let earlier = streams_below(channels, (limit - 1) as nat);
        if channels.contains_key(id) {
            earlier.push(stream_of(id, channels[id]))
        } else {
            earlier
        }
    }
}

/// All channels as streams, in order of their identifiers.
pub open spec fn streams_in(channels: Map<u16, ChannelContent>) -> Seq<StreamContent> {
    streams_below(channels, 65536)
}

spec fn increasing(streams: Seq<StreamContent>) -> bool {
    forall|i: int, j: int|
        0 <= i < j < streams.len() ==> (#[trigger] streams[i]).id.0 < (#[trigger] streams[j]).id.0
}

spec fn from_channels(streams: Seq<StreamContent>, channels: Map<u16, ChannelContent>) -> bool {
    forall|i: int|
        0 <= i < streams.len() ==> (#[trigger] streams[i]).id.0 < 65536 && channels.contains_key(
            streams[i].id.0 as u16,
        ) && streams[i] == stream_of(
            streams[i].id.0 as u16,
            channels[streams[i].id.0 as u16],
        )
}

proof fn lemma_sorted_streams(
    streams: Seq<StreamContent>,
    channels: Map<u16, ChannelContent>,
    limit: nat,
) -> (count: int)
    requires
        limit <= 65536,
        increasing(streams),
        from_channels(streams, channels),
        forall|id: u16| #[trigger]
            channels.contains_key(id) ==> exists|i: int|
                0 <= i < streams.len() && (#[trigger] streams[i]).id.0 == id,
    ensures
        0 <= count <= streams.len(),
        streams.take(count) == streams_below(channels, limit),
        forall|i: int| 0 <= i < count ==> (#[trigger] streams[i]).id.0 < limit,
        forall|i: int| count <= i < streams.len() ==> (#[trigger] streams[i]).id.0 >= limit,
    decreases limit,
{
    if limit == 0 {
        assert(streams.take(0) =~= Seq::empty());
        0
    } else {
        let id = (limit - 1) as u16;
        let earlier = lemma_sorted_streams(streams, channels, (limit - 1) as nat);
        if channels.contains_key(id) {
            let at = choose|i: int| 0 <= i < streams.len() && (#[trigger] streams[i]).id.0 == id;
            assert(at >= earlier);
            if at > earlier {
                assert(streams[earlier].id.0 < streams[at].id.0);
            }
            assert(streams.take(earlier + 1) =~= streams.take(earlier).push(streams[earlier]));
            assert forall|i: int| earlier + 1 <= i < streams.len() implies (
            #[trigger] streams[i]).id.0 >= limit by {
                assert(streams[earlier].id.0 < streams[i].id.0);
            }
            earlier + 1
        } else {
            assert forall|i: int| earlier <= i < streams.len() implies (
            #[trigger] streams[i]).id.0 >= limit by {
                if streams[i].id.0 == limit - 1 {
                    assert(channels.contains_key(streams[i].id.0 as u16));
                }
            }
            earlier
        }
    }
}

fn place_stream(streams: &mut Vec<StreamDescriptor>, stream: StreamDescriptor)
    requires
        increasing(session::stream_contents(old(streams)@)),
        forall|i: int|
            0 <= i < old(streams)@.len() ==> (#[trigger] session::stream_contents(
                old(streams)@,
            )[i]).id != stream@.id,
    ensures
        increasing(session::stream_contents(final(streams)@)),
        exists|position: int|
            0 <= position <= old(streams)@.len() && session::stream_contents(final(streams)@)
                == #[trigger] session::stream_contents(old(streams)@).insert(position, stream@),
{
    let ghost all = session::stream_contents(streams@);
    let mut position: usize = streams.len();
    while position > 0 && streams[position - 1].id.0 > stream.id.0
        invariant
            position <= streams@.len(),
            all == session::stream_contents(streams@),
            forall|i: int|
                position <= i < all.len() ==> (#[trigger] all[i]).id.0 > stream.id.0,
        decreases position,
    {
        assert(all[position - 1] == streams@[position - 1]@);
        position = position - 1;
    }
    let ghost given = stream@;
    proof {
        if position > 0 {
            assert(all[position - 1] == streams@[position - 1]@);
            assert(all[position - 1].id != given.id);
            assert forall|i: int| 0 <= i < position implies (#[trigger] all[i]).id.0
                < given.id.0 by {
                if i < position - 1 {
                    assert(all[i].id.0 < all[position - 1].id.0);
                }
            }
        }
    }
    streams.insert(position, stream);
    proof {
        let after = session::stream_contents(streams@);
        assert(after =~= all.insert(position as int, given));
        assert forall|i: int, j: int| 0 <= i < j < after.len() implies (
        #[trigger] after[i]).id.0 < (#[trigger] after[j]).id.0 by {
            if j < position {
                assert(after[i] == all[i] && after[j] == all[j]);
            } else if j == position {
                assert(after[i] == all[i]);
            } else if i < position {
                assert(after[i] == all[i] && after[j] == all[j - 1]);
            } else if i == position {
                assert(after[j] == all[j - 1]);
            } else {
                assert(after[i] == all[i - 1] && after[j] == all[j - 1]);
            }
        }
    }
}

fn describe(channel: &ChannelFact) -> (stream: StreamDescriptor)
    ensures
        stream@ == stream_of(channel.id, channel@),
{
    StreamDescriptor {
        id: StreamId(channel.id as u32),
        topic: channel.topic.clone(),
        schema: channel.schema.clone(),
        message_encoding: channel.message_encoding.clone(),
        timing: StreamTimingSummary { message_count: channel.message_count },
    }
}

/// One of the first `count` channels has the identifier.
spec fn listed(facts: Seq<ChannelFact>, count: int, id: StreamId) -> bool {
    exists|i: int| 0 <= i < count && (#[trigger] facts[i]).id == id.0
}

proof fn lemma_placed(
    before: Seq<StreamContent>,
    given: StreamContent,
    position: int,
    channels: Map<u16, ChannelContent>,
)
    requires
        0 <= position <= before.len(),
        from_channels(before, channels),
        given.id.0 < 65536,
        channels.contains_key(given.id.0 as u16),
        given == stream_of(given.id.0 as u16, channels[given.id.0 as u16]),
    ensures
        from_channels(before.insert(position, given), channels),
        forall|id: StreamId| #[trigger]
            known(before.insert(position, given), id) == (known(before, id) || given.id == id),
{
    let after = before.insert(position, given);
    assert forall|j: int| 0 <= j < after.len() implies (#[trigger] after[j]).id.0 < 65536
        && channels.contains_key(after[j].id.0 as u16) && after[j] == stream_of(
        after[j].id.0 as u16,
        channels[after[j].id.0 as u16],
    ) by {
        if j < position {
            assert(after[j] == before[j]);
        } else if j > position {
            assert(after[j] == before[j - 1]);
        }
    }
    assert forall|id: StreamId| #[trigger] known(after, id) == (known(before, id) || given.id
        == id) by {
        if known(after, id) {
            let j = choose|j: int| 0 <= j < after.len() && (#[trigger] after[j]).id == id;
            if j < position {
                assert(before[j].id == id);
            } else if j > position {
                assert(before[j - 1].id == id);
            }
        }
        if known(before, id) {
            let j = choose|j: int| 0 <= j < before.len() && (#[trigger] before[j]).id == id;
            if j < position {
                assert(after[j].id == id);
            } else {
                assert(after[j + 1].id == id);
            }
        }
        if given.id == id {
            assert(after[position].id == id);
        }
    }
}

proof fn lemma_listed_more(facts: Seq<ChannelFact>, count: int)
    requires
        0 <= count < facts.len(),
    ensures
        forall|id: StreamId| #[trigger]
            listed(facts, count + 1, id) == (listed(facts, count, id) || facts[count].id == id.0),
{
    assert forall|id: StreamId| #[trigger] listed(facts, count + 1, id) == (listed(
        facts,
        count,
        id,
    ) || facts[count].id == id.0) by {
        if listed(facts, count + 1, id) {
            let i = choose|i: int| 0 <= i < count + 1 && (#[trigger] facts[i]).id == id.0;
            if i < count {
                assert(facts[i].id == id.0);
            }
        }
        if listed(facts, count, id) {
            let i = choose|i: int| 0 <= i < count && (#[trigger] facts[i]).id == id.0;
            assert(facts[i].id == id.0);
        }
    }
}

proof fn lemma_all_listed(
    streams: Seq<StreamContent>,
    facts: Seq<ChannelFact>,
    channels: Map<u16, ChannelContent>,
)
    requires
        mcap_facts::lists_channels(facts, channels),
        increasing(streams),
        from_channels(streams, channels),
        forall|id: StreamId| #[trigger]
            known(streams, id) == listed(facts, facts.len() as int, id),
    ensures
        streams == streams_in(channels),
{
    assert forall|id: u16| #[trigger] channels.contains_key(id) implies exists|i: int|
        0 <= i < streams.len() && (#[trigger] streams[i]).id.0 == id by {
        let i = choose|i: int| 0 <= i < facts.len() && (#[trigger] facts[i]).id == id;
        assert(facts[i].id == StreamId(id as u32).0);
        assert(known(streams, StreamId(id as u32)));
    }
    let count = lemma_sorted_streams(streams, channels, 65536);
    if count < streams.len() {
        assert(streams[count].id.0 >= 65536);
    }
    assert(streams.take(count) =~= streams);
}

/// The channels as streams, in order of their identifiers.
pub(crate) fn sorted_streams(
    facts: Vec<ChannelFact>,
    Ghost(channels): Ghost<Map<u16, ChannelContent>>,
) -> (streams: Vec<StreamDescriptor>)
    requires
        mcap_facts::lists_channels(facts@, channels),
    ensures
        session::stream_contents(streams@) == streams_in(channels),
{
    let mut streams: Vec<StreamDescriptor> = Vec::with_capacity(facts.len());
    let mut index: usize = 0;
    assert forall|id: StreamId| #[trigger]
        known(session::stream_contents(streams@), id) == listed(facts@, 0, id) by {}
    while index < facts.len()
        invariant
            index <= facts@.len(),
            mcap_facts::lists_channels(facts@, channels),
            increasing(session::stream_contents(streams@)),
            from_channels(session::stream_contents(streams@), channels),
            forall|id: StreamId| #[trigger]
                known(session::stream_contents(streams@), id) == listed(facts@, index as int, id),
        decreases facts@.len() - index,
    {
        let stream: StreamDescriptor = describe(&facts[index]);
        let ghost before = session::stream_contents(streams@);
        let ghost given = stream@;
        proof {
            lemma_listed_more(facts@, index as int);
            assert(channels.contains_key(facts@[index as int].id));
            assert forall|j: int| 0 <= j < streams@.len() implies (#[trigger] before[j]).id
                != given.id by {
                if before[j].id == given.id {
                    assert(known(before, given.id));
                    let i = choose|i: int|
                        0 <= i < index && (#[trigger] facts@[i]).id == given.id.0;
                    assert(facts@[i].id != facts@[index as int].id);
                }
            }
        }
        place_stream(&mut streams, stream);
        proof {
            let after = session::stream_contents(streams@);
            let position = choose|position: int|
                0 <= position <= before.len() && after == #[trigger] before.insert(
                    position,
                    given,
                );
            lemma_placed(before, given, position, channels);
        }
        index = index + 1;
    }
    proof {
        lemma_all_listed(session::stream_contents(streams@), facts@, channels);
    }
    streams
}

/// The earliest start among the chunks that list messages.
pub open spec fn first_start(chunks: Seq<ChunkContent>) -> Option<u64>
    decreases chunks.len(),
{
    if chunks.len() == 0 {
        None
    } else {
        let earlier = first_start(chunks.drop_last());
        let last = chunks.last();
        if last.message_index_offsets.len() == 0 || (earlier is Some && earlier->Some_0
            <= last.message_start_time) {
            earlier
        } else {
            Some(last.message_start_time)
        }
    }
}

/// The latest end among the chunks that list messages.
pub open spec fn last_end(chunks: Seq<ChunkContent>) -> Option<u64>
    decreases chunks.len(),
{
    if chunks.len() == 0 {
        None
    } else {
        let earlier = last_end(chunks.drop_last());
        let last = chunks.last();
        if last.message_index_offsets.len() == 0 || (earlier is Some && earlier->Some_0
            >= last.message_end_time) {
            earlier
        } else {
            Some(last.message_end_time)
        }
    }
}

/// The first and the last message time that a file tells: in its statistics, or else in its
/// chunks.
pub open spec fn span_in(summary: SummaryContent) -> TimeSpan {
    match summary.span {
        Some(span) => span,
        None => {
            let start = match first_start(summary.chunks) {
                Some(start) => start,
                None => 0,
            };
            TimeSpan {
                start,
                end: match last_end(summary.chunks) {
                    Some(end) => end,
                    None => start,
                },
            }
        },
    }
}

/// The time span that the chunks of a file cover.
pub fn indexed_span(chunks: &Vec<ChunkFact>) -> (span: TimeSpan)
    ensures
        ({
            let all = mcap_facts::chunk_contents(chunks@);
            let start = match first_start(all) {
                Some(start) => start,
                None => 0,
            };
            span == (TimeSpan {
                start,
                end: match last_end(all) {
                    Some(end) => end,
                    None => start,
                },
            })
        }),
{
    let ghost all = mcap_facts::chunk_contents(chunks@);
    let mut start: Option<u64> = None;
    let mut end: Option<u64> = None;
    let mut index: usize = 0;
    assert(all.take(0) =~= Seq::empty());
    while index < chunks.len()
        invariant
            index <= chunks@.len(),
            all == mcap_facts::chunk_contents(chunks@),
            start == first_start(all.take(index as int)),
            end == last_end(all.take(index as int)),
        decreases chunks@.len() - index,
    {
        let chunk: &ChunkFact = &chunks[index];
        proof {
            assert(all[index as int] == chunk@);
            assert(all.take(index + 1).drop_last() =~= all.take(index as int));
        }
        if chunk.message_index_offsets.len() > 0 {
            start = match start {
                Some(earlier) => if earlier <= chunk.message_start_time {
                    Some(earlier)
                } else {
                    Some(chunk.message_start_time)
                },
                None => Some(chunk.message_start_time),
            };
            end = match end {
                Some(earlier) => if earlier >= chunk.message_end_time {
                    Some(earlier)
                } else {
                    Some(chunk.message_end_time)
                },
                None => Some(chunk.message_end_time),
            };
        }
        index = index + 1;
    }
    assert(all.take(all.len() as int) =~= all);
    let first: u64 = match start {
        Some(start) => start,
        None => 0,
    };
    TimeSpan {
        start: first,
        end: match end {
            Some(end) => end,
            None => first,
        },
    }
}

/// The times from the first to the last message, the instant behind the last excluded.
pub open spec fn range_of(start: ArrivalTime, end: ArrivalTime) -> Option<RecordingTimeRange> {
    if end.0 == i64::MAX || start.0 >= end.0 + 1 {
        None
    } else {
        Some(RecordingTimeRange { start, end_exclusive: ArrivalTime((end.0 + 1) as i64) })
    }
}

fn recording_range(start: ArrivalTime, end: ArrivalTime) -> (range: Option<RecordingTimeRange>)
    ensures
        range == range_of(start, end),
{
    match end.0.checked_add(1) {
        Some(end_exclusive) => if start.0 < end_exclusive {
            Some(RecordingTimeRange { start, end_exclusive: ArrivalTime(end_exclusive) })
        } else {
            None
        },
        None => None,
    }
}

/// Some stream has the identifier.
pub open spec fn known(streams: Seq<StreamContent>, id: StreamId) -> bool {
    exists|i: int| 0 <= i < streams.len() && (#[trigger] streams[i]).id == id
}

/// The streams of a catalog with those that the messages of a file add.
pub open spec fn with_streams(
    streams: Seq<StreamContent>,
    messages: Seq<RecordedContent>,
) -> Seq<StreamContent>
    decreases messages.len(),
{
    if messages.len() == 0 {
        streams
    } else {
        let earlier = with_streams(streams, messages.drop_last());
        let last = messages.last();
        if known(earlier, StreamId(last.channel as u32)) {
            earlier
        } else {
            earlier.push(stream_of(last.channel, mcap_facts::described(last.about, None)))
        }
    }
}

/// How many messages a stream has in a list.
pub open spec fn occurrences(messages: Seq<RawContent>, id: StreamId) -> nat
    decreases messages.len(),
{
    if messages.len() == 0 {
        0
    } else {
        occurrences(messages.drop_last(), id) + (if messages.last().stream_id == id {
            1nat
        } else {
            0nat
        })
    }
}

/// The streams with the number of their messages, where they have any.
pub open spec fn counted(streams: Seq<StreamContent>, messages: Seq<RawContent>) -> Seq<
    StreamContent,
> {
    streams.map_values(
        |stream: StreamContent|
            StreamContent {
                timing: StreamTimingSummary {
                    message_count: if occurrences(messages, stream.id) == 0 {
                        None
                    } else {
                        Some(occurrences(messages, stream.id) as u64)
                    },
                },
                ..stream
            },
    )
}

/// The messages of a file without their channels.
pub open spec fn plain(messages: Seq<RecordedContent>) -> Seq<ChunkMessageContent> {
    messages.map_values(
        |message: RecordedContent|
            ChunkMessageContent {
                channel: message.channel,
                log_time: message.log_time,
                data: message.data,
            },
    )
}

/// The wanted messages of a whole file in order of time.
pub open spec fn linear_kept(bytes: Seq<u8>, selected: Option<Seq<StreamId>>) -> Result<
    Seq<RawContent>,
    SourceFault,
> {
    if !mcap_records::file_sound(bytes, 8) {
        Err(SourceFault::Damaged)
    } else {
        let read = mcap_facts::linear_messages(bytes);
        sorted_read(plain(read.0), read.1, selected)
    }
}

fn stream_known(streams: &Vec<StreamDescriptor>, id: StreamId) -> (found: bool)
    ensures
        found == known(session::stream_contents(streams@), id),
{
    let ghost all = session::stream_contents(streams@);
    let mut index: usize = 0;
    while index < streams.len()
        invariant
            index <= streams@.len(),
            all == session::stream_contents(streams@),
            forall|i: int| 0 <= i < index ==> (#[trigger] all[i]).id != id,
        decreases streams@.len() - index,
    {
        assert(all[index as int] == streams@[index as int]@);
        if streams[index].id == id {
            return true;
        }
        index = index + 1;
    }
    false
}

fn add_streams(streams: &mut Vec<StreamDescriptor>, messages: &Vec<RecordedMessage>)
    ensures
        session::stream_contents(final(streams)@) == with_streams(
            session::stream_contents(old(streams)@),
            mcap_facts::recorded_contents(messages@),
        ),
{
    let ghost start = session::stream_contents(streams@);
    let ghost all = mcap_facts::recorded_contents(messages@);
    let mut index: usize = 0;
    assert(all.take(0) =~= Seq::empty());
    while index < messages.len()
        invariant
            index <= messages@.len(),
            all == mcap_facts::recorded_contents(messages@),
            session::stream_contents(streams@) == with_streams(start, all.take(index as int)),
        decreases messages@.len() - index,
    {
        let message: &RecordedMessage = &messages[index];
        proof {
            assert(all[index as int] == message@);
            assert(all.take(index + 1).drop_last() =~= all.take(index as int));
        }
        if !stream_known(streams, StreamId(message.channel.id as u32)) {
            let stream: StreamDescriptor = describe(&describe_channel(&message.channel, None));
            let ghost before = streams@;
            streams.push(stream);
            assert(session::stream_contents(streams@) =~= session::stream_contents(before).push(
                stream@,
            ));
        }
        index = index + 1;
    }
    assert(all.take(all.len() as int) =~= all);
}

fn without_channels(messages: Vec<RecordedMessage>) -> (all: Vec<ChunkMessage>)
    ensures
        mcap_facts::message_contents(all@) == plain(mcap_facts::recorded_contents(messages@)),
{
    let ghost given = plain(mcap_facts::recorded_contents(messages@));
    let mut all: Vec<ChunkMessage> = Vec::with_capacity(messages.len());
    let mut index: usize = 0;
    assert(mcap_facts::message_contents(all@) =~= given.take(0));
    while index < messages.len()
        invariant
            index <= messages@.len(),
            given == plain(mcap_facts::recorded_contents(messages@)),
            mcap_facts::message_contents(all@) == given.take(index as int),
        decreases messages@.len() - index,
    {
        let message: &RecordedMessage = &messages[index];
        let copy = ChunkMessage {
            channel: message.channel.id,
            log_time: message.log_time,
            data: message.data.clone(),
        };
        let ghost before = all@;
        all.push(copy);
        proof {
            assert(given[index as int] == copy@);
            assert(mcap_facts::message_contents(all@) =~= mcap_facts::message_contents(
                before,
            ).push(copy@));
            assert(given.take(index + 1) =~= given.take(index as int).push(given[index as int]));
        }
        index = index + 1;
    }
    assert(given.take(given.len() as int) =~= given);
    all
}

fn count_of(messages: &Vec<RawMessage>, id: StreamId) -> (count: usize)
    ensures
        count == occurrences(raw::contents(messages@), id),
{
    let ghost all = raw::contents(messages@);
    let mut count: usize = 0;
    let mut index: usize = 0;
    assert(all.take(0) =~= Seq::empty());
    while index < messages.len()
        invariant
            count <= index <= messages@.len(),
            all == raw::contents(messages@),
            count == occurrences(all.take(index as int), id),
        decreases messages@.len() - index,
    {
        proof {
            assert(all[index as int] == messages@[index as int]@);
            assert(all.take(index + 1).drop_last() =~= all.take(index as int));
        }
        if messages[index].stream_id == id {
            count = count + 1;
        }
        index = index + 1;
    }
    assert(all.take(all.len() as int) =~= all);
    count
}

fn count_streams(streams: Vec<StreamDescriptor>, messages: &Vec<RawMessage>) -> (counts: Vec<
    StreamDescriptor,
>)
    ensures
        session::stream_contents(counts@) == counted(
            session::stream_contents(streams@),
            raw::contents(messages@),
        ),
{
    let ghost all = session::stream_contents(streams@);
    let ghost expected = counted(all, raw::contents(messages@));
    let mut counts: Vec<StreamDescriptor> = Vec::with_capacity(streams.len());
    let mut index: usize = 0;
    assert(session::stream_contents(counts@) =~= expected.take(0));
    while index < streams.len()
        invariant
            index <= streams@.len(),
            all == session::stream_contents(streams@),
            expected == counted(all, raw::contents(messages@)),
            session::stream_contents(counts@) == expected.take(index as int),
        decreases streams@.len() - index,
    {
        let mut stream: StreamDescriptor = streams[index].clone();
        let count: usize = count_of(messages, stream.id);
        stream.timing = StreamTimingSummary {
            message_count: if count == 0 {
                None
            } else {
                Some(count as u64)
            },
        };
        let ghost before = counts@;
        proof {
            assert(all[index as int] == streams@[index as int]@);
            assert(expected[index as int] == stream@);
        }
        counts.push(stream);
        proof {
            assert(session::stream_contents(counts@) =~= session::stream_contents(before).push(
                stream@,
            ));
            assert(expected.take(index + 1) =~= expected.take(index as int).push(
                expected[index as int],
            ));
        }
        index = index + 1;
    }
    assert(expected.take(expected.len() as int) =~= expected);
    counts
}

/// A file in memory, with its index records.
struct McapFile {
    backing: Vec<u8>,
    summary: Option<Summary>,
    chunks: Vec<ChunkFact>,
}

impl McapFile {
    spec fn content(&self) -> FileContent {
        FileContent {
            bytes: self.backing@,
            summary: match self.summary {
                Some(summary) => Some(mcap_facts::held(summary)),
                None => None,
            },
        }
    }

    spec fn well_formed(&self) -> bool {
        match self.summary {
            Some(summary) => {
                &&& mcap_facts::chunk_contents(self.chunks@) == mcap_facts::held(summary).chunks
                &&& mcap_facts::summary_records(self.backing@) == Some(
                    Some(mcap_facts::recorded(summary)),
                )
            },
            None => self.chunks@.len() == 0,
        }
    }

    fn read_chunk(&self, index: usize, selected: &Option<Vec<StreamId>>) -> (outcome: Result<
        Vec<RawMessage>,
        McapOpenError,
    >)
        requires
            self.well_formed(),
            self.summary is Some,
        ensures
            ({
                let expected = chunk_kept(
                    self.content().bytes,
                    self.content().summary->Some_0,
                    index as int,
                    selection(*selected),
                );
                match outcome {
                    Ok(messages) => expected == Ok::<Seq<RawContent>, SourceFault>(
                        raw::contents(messages@),
                    ),
                    Err(error) => expected == Err::<Seq<RawContent>, SourceFault>(error@),
                }
            }),
    {
        if index >= self.chunks.len() {
            return Err(McapOpenError::BadIndex);
        }
        assert(self.content().summary->Some_0.chunks[index as int] == self.chunks@[index as int]@);
        if !self.chunks[index].is_addressable() {
            return Err(McapOpenError::BadIndex);
        }
        let bytes: &[u8] = self.backing.as_slice();
        if !is_chunk_record_sound(bytes, &self.chunks[index]) {
            return Err(McapOpenError::Damaged);
        }
        match &self.summary {
            Some(summary) => {
                let (messages, error): (Vec<ChunkMessage>, Option<McapError>) = stream_chunk(
                    summary,
                    bytes,
                    index,
                );
                sort_read(messages, error, selected)
            },
            None => Err(McapOpenError::BadIndex),
        }
    }

    /// The cursor at the first message that did not arrive before a time.
    fn cursor_at(
        &self,
        selected: &Option<Vec<StreamId>>,
        loaded: &Vec<RawMessage>,
        time: ArrivalTime,
    ) -> (outcome: Result<ReadCursor, McapOpenError>)
        requires
            self.well_formed(),
        ensures
            ({
                let expected = sought(
                    self.content(),
                    selection(*selected),
                    raw::contents(loaded@),
                    time,
                );
                match outcome {
                    Ok(cursor) => cursor.well_formed() && expected == Ok::<
                        CursorContent,
                        SourceFault,
                    >(cursor.content()) && (cursor.chunk matches Some(chunk) ==> chunk
                        < self.chunks@.len()),
                    Err(error) => expected == Err::<CursorContent, SourceFault>(error@),
                }
            }),
    {
        if self.is_chunked() {
            let past: usize = count_ended(&self.chunks, time);
            let chunk: usize = if past < self.chunks.len() {
                past
            } else {
                self.chunks.len() - 1
            };
            let cache: Vec<RawMessage> = self.read_chunk(chunk, selected)?;
            let position: usize = count_before(&cache, time);
            Ok(ReadCursor { cache, chunk: Some(chunk), position })
        } else if loaded.len() > 0 {
            let cache: Vec<RawMessage> = copy_messages(loaded);
            let position: usize = count_before(&cache, time);
            Ok(ReadCursor { cache, chunk: None, position })
        } else {
            let cache: Vec<RawMessage> = self.read_linear(selected)?;
            let position: usize = count_before(&cache, time);
            Ok(ReadCursor { cache, chunk: None, position })
        }
    }

    fn is_chunked(&self) -> (chunked: bool)
        requires
            self.well_formed(),
        ensures
            chunked == self.content().chunked(),
    {
        self.chunks.len() > 0
    }

    fn read_linear(&self, selected: &Option<Vec<StreamId>>) -> (outcome: Result<
        Vec<RawMessage>,
        McapOpenError,
    >)
        ensures
            match outcome {
                Ok(messages) => linear_kept(self.content().bytes, selection(*selected)) == Ok::<
                    Seq<RawContent>,
                    SourceFault,
                >(raw::contents(messages@)),
                Err(error) => linear_kept(self.content().bytes, selection(*selected)) == Err::<
                    Seq<RawContent>,
                    SourceFault,
                >(error@),
            },
    {
        let bytes: &[u8] = self.backing.as_slice();
        if !is_file_sound(bytes, 8) {
            return Err(McapOpenError::Damaged);
        }
        let (messages, error): (Vec<RecordedMessage>, Option<McapError>) = stream_file(bytes);
        sort_read(without_channels(messages), error, selected)
    }
}

/// What a source holds.
pub struct SourceContent {
    pub file: FileContent,
    pub streams: Seq<StreamContent>,
    pub time_range: Option<RecordingTimeRange>,
    pub range: (ArrivalTime, ArrivalTime),
    pub cursor: CursorContent,
    pub selected: Option<Seq<StreamId>>,
}

/// A source once its file was opened: what the index records say, and for a file without chunks
/// what its messages say.
pub open spec fn opened(bytes: Seq<u8>) -> Result<SourceContent, SourceFault> {
    if !mcap_records::summary_sound(bytes) {
        Err(SourceFault::Damaged)
    } else {
        opened_with(bytes, mcap_facts::summary_in(bytes))
    }
}

/// A source once its file was opened, given what its index records tell.
pub open spec fn opened_with(bytes: Seq<u8>, told: Option<Option<SummaryContent>>) -> Result<
    SourceContent,
    SourceFault,
> {
    match told {
        None => Err(SourceFault::Mcap),
        Some(None) => if bytes.len() > LINEAR_FALLBACK_LIMIT {
            Err(SourceFault::SummaryRequired(bytes.len() as usize))
        } else {
            opened_linear(
                FileContent { bytes, summary: None },
                Seq::empty(),
                (ArrivalTime(0), ArrivalTime(0)),
            )
        },
        Some(Some(summary)) => {
            let file = FileContent { bytes, summary: Some(summary) };
            let span = span_in(summary);
            match (arrival_of(span.start), arrival_of(span.end)) {
                (Some(start), Some(end)) => if summary.chunks.len() == 0 {
                    opened_linear(file, streams_in(summary.channels), (start, end))
                } else {
                    Ok(
                        SourceContent {
                            file,
                            streams: streams_in(summary.channels),
                            time_range: range_of(start, end),
                            range: (start, end),
                            cursor: CursorContent {
                                cache: Seq::empty(),
                                chunk: None,
                                position: 0,
                            },
                            selected: None,
                        },
                    )
                },
                _ => Err(SourceFault::TimestampOverflow),
            }
        },
    }
}

/// A source whose file has no chunks: its messages are read at once.
pub open spec fn opened_linear(
    file: FileContent,
    streams: Seq<StreamContent>,
    range: (ArrivalTime, ArrivalTime),
) -> Result<SourceContent, SourceFault> {
    match linear_kept(file.bytes, None) {
        Err(fault) => Err(fault),
        Ok(cache) => {
            let told = if cache.len() == 0 {
                range
            } else {
                (cache[0].arrival_time, cache.last().arrival_time)
            };
            Ok(
                SourceContent {
                    file,
                    streams: counted(
                        with_streams(streams, mcap_facts::linear_messages(file.bytes).0),
                        cache,
                    ),
                    time_range: range_of(told.0, told.1),
                    range: told,
                    cursor: CursorContent { cache, chunk: None, position: 0 },
                    selected: None,
                },
            )
        },
    }
}

impl CursorContent {
    /// The messages at hand are in order, and the cursor stands at one of them or behind them.
    pub open spec fn valid(self) -> bool {
        self.position <= self.cache.len() && raw::ordered(self.cache)
    }

    /// The cursor at the first message of a chunk.
    pub open spec fn at_chunk(cache: Seq<RawContent>, chunk: nat) -> Self {
        CursorContent { cache, chunk: Some(chunk), position: 0 }
    }

    /// Reading on up to a time: where the cursor stands then, and the messages that were read or
    /// why a chunk could not be. The messages of each chunk are in order; chunks follow each other
    /// as in the file.
    pub open spec fn read(
        self,
        file: FileContent,
        selected: Option<Seq<StreamId>>,
        through: ArrivalTime,
    ) -> (Self, Result<Seq<RawContent>, SourceFault>)
        decreases
            (if self.chunk is Some {
                file.chunk_count() - self.chunk->Some_0
            } else {
                0
            }),
    {
        let stop = data_window::reach(self.cache, self.position as int, through);
        let here = self.cache.subrange(self.position as int, stop);
        let moved = CursorContent { position: stop as nat, ..self };
        if stop < self.cache.len() || self.chunk is None || self.chunk->Some_0 + 1
            >= file.chunk_count() {
            (moved, Ok(here))
        } else {
            let next = self.chunk->Some_0 + 1;
            match chunk_kept(file.bytes, file.summary->Some_0, next as int, selected) {
                Err(fault) => (moved, Err(fault)),
                Ok(cache) => {
                    let rest = Self::at_chunk(cache, next).read(file, selected, through);
                    (
                        rest.0,
                        match rest.1 {
                            Err(fault) => Err(fault),
                            Ok(messages) => Ok(here + messages),
                        },
                    )
                },
            }
        }
    }
}

/// The cursor at the first message that did not arrive before a time.
pub open spec fn sought(
    file: FileContent,
    selected: Option<Seq<StreamId>>,
    loaded: Seq<RawContent>,
    time: ArrivalTime,
) -> Result<CursorContent, SourceFault> {
    if file.chunked() {
        let summary = file.summary->Some_0;
        let past = ended(summary.chunks, time) as int;
        let chunk = if past < summary.chunks.len() {
            past
        } else {
            summary.chunks.len() - 1
        };
        match chunk_kept(file.bytes, summary, chunk, selected) {
            Err(fault) => Err(fault),
            Ok(cache) => Ok(
                CursorContent { cache, chunk: Some(chunk as nat), position: before(cache, time) },
            ),
        }
    } else if loaded.len() > 0 {
        Ok(CursorContent { cache: loaded, chunk: None, position: before(loaded, time) })
    } else {
        match linear_kept(file.bytes, selected) {
            Err(fault) => Err(fault),
            Ok(cache) => Ok(CursorContent { cache, chunk: None, position: before(cache, time) }),
        }
    }
}

impl SourceContent {
    /// The source once streams were selected: it starts again at its first message.
    pub open spec fn with_selection(self, streams: Seq<StreamId>) -> Self {
        SourceContent {
            cursor: CursorContent {
                cache: if self.file.chunked() {
                    Seq::empty()
                } else {
                    self.cursor.cache.filter(
                        |message: RawContent| streams.contains(message.stream_id),
                    )
                },
                chunk: if self.file.chunked() {
                    None
                } else {
                    self.cursor.chunk
                },
                position: 0,
            },
            selected: Some(streams),
            ..self
        }
    }

    /// The cursor to read on from: a chunked file starts with its first chunk.
    pub open spec fn start(self) -> Result<CursorContent, SourceFault> {
        if self.file.chunked() && self.cursor.chunk is None {
            match chunk_kept(self.file.bytes, self.file.summary->Some_0, 0, self.selected) {
                Err(fault) => Err(fault),
                Ok(cache) => Ok(CursorContent::at_chunk(cache, 0)),
            }
        } else {
            Ok(self.cursor)
        }
    }

    /// The source at the first message that did not arrive before a time. Where nothing is at hand
    /// of a file without chunks, it is read again and its messages are counted anew.
    pub open spec fn moved_to(self, time: ArrivalTime) -> Result<Self, SourceFault> {
        match sought(self.file, self.selected, self.cursor.cache, time) {
            Err(fault) => Err(fault),
            Ok(cursor) => Ok(
                SourceContent {
                    cursor,
                    streams: if self.file.chunked() || self.cursor.cache.len() > 0 {
                        self.streams
                    } else {
                        counted(
                            with_streams(
                                self.streams,
                                mcap_facts::linear_messages(self.file.bytes).0,
                            ),
                            cursor.cache,
                        )
                    },
                    ..self
                },
            ),
        }
    }

    /// Reading on up to a time: the source then, and what was read.
    pub open spec fn read_until(self, through: ArrivalTime) -> (Self, Result<
        Seq<RawContent>,
        SourceFault,
    >) {
        match self.start() {
            Err(fault) => (self, Err(fault)),
            Ok(cursor) => {
                let done = cursor.read(self.file, self.selected, through);
                (SourceContent { cursor: done.0, ..self }, done.1)
            },
        }
    }
}

/// How many chunks of a file were decompressed to answer.
#[derive(Clone, Copy, Debug, Eq, PartialEq, Structural)]
pub struct IndexedReadDiagnostics {
    pub chunks_streamed: usize,
}

/// Messages that were found through the index records.
#[derive(Debug)]
pub struct IndexedMessages {
    pub messages: Vec<RawMessage>,
    pub diagnostics: IndexedReadDiagnostics,
}

/// What an `IndexedMessages` holds.
pub struct IndexedContent {
    pub messages: Seq<RawContent>,
    pub chunks_streamed: nat,
}

impl View for IndexedMessages {
    type V = IndexedContent;

    open spec fn view(&self) -> IndexedContent {
        IndexedContent {
            messages: raw::contents(self.messages@),
            chunks_streamed: self.diagnostics.chunks_streamed as nat,
        }
    }
}

impl Default for IndexedReadDiagnostics {
    fn default() -> (diagnostics: Self)
        ensures
            diagnostics.chunks_streamed == 0,
    {
        IndexedReadDiagnostics { chunks_streamed: 0 }
    }
}

impl Default for IndexedMessages {
    fn default() -> (found: Self)
        ensures
            found@.messages.len() == 0,
            found@.chunks_streamed == 0,
    {
        IndexedMessages {
            messages: Vec::new(),
            diagnostics: IndexedReadDiagnostics { chunks_streamed: 0 },
        }
    }
}

/// Sequential and indexed access to an MCAP file in memory.
pub struct McapSource {
    file: McapFile,
    catalog: SourceCatalog,
    range: (ArrivalTime, ArrivalTime),
    cursor: ReadCursor,
    selected_streams: Option<Vec<StreamId>>,
}

impl McapSource {
    pub closed spec fn content(&self) -> SourceContent {
        SourceContent {
            file: self.file.content(),
            streams: self.catalog.content(),
            time_range: self.catalog.time_range,
            range: self.range,
            cursor: self.cursor.content(),
            selected: selection(self.selected_streams),
        }
    }

    pub closed spec fn well_formed(&self) -> bool {
        &&& self.file.well_formed()
        &&& self.cursor.well_formed()
        &&& self.cursor.chunk matches Some(chunk) ==> chunk < self.file.chunks@.len()
    }

    /// Opens a copy of a file.
    pub fn new(backing: &[u8]) -> (outcome: Result<Self, McapOpenError>)
        ensures
            match outcome {
                Ok(source) => source.well_formed() && opened(backing@) == Ok::<
                    SourceContent,
                    SourceFault,
                >(source.content()),
                Err(error) => opened(backing@) == Err::<SourceContent, SourceFault>(error@),
            },
    {
        Self::from_owner(vstd::slice::slice_to_vec(backing))
    }

    /// Opens a file without copying it.
    pub fn from_owner(backing: Vec<u8>) -> (outcome: Result<Self, McapOpenError>)
        ensures
            match outcome {
                Ok(source) => source.well_formed() && opened(backing@) == Ok::<
                    SourceContent,
                    SourceFault,
                >(source.content()),
                Err(error) => opened(backing@) == Err::<SourceContent, SourceFault>(error@),
            },
    {
        if !is_summary_sound(backing.as_slice()) {
            return Err(McapOpenError::Damaged);
        }
        let summary: Option<Summary> = match read_summary(backing.as_slice()) {
            Ok(summary) => summary,
            Err(error) => return Err(McapOpenError::Mcap(error)),
        };
        match &summary {
            None => {
                if backing.len() > LINEAR_FALLBACK_LIMIT {
                    return Err(McapOpenError::SummaryRequired(backing.len()));
                }
                let file = McapFile { backing, summary: None, chunks: Vec::new() };
                let streams: Vec<StreamDescriptor> = Vec::new();
                assert(session::stream_contents(streams@) =~= Seq::empty());
                Self::open_linear(file, streams, (ArrivalTime(0), ArrivalTime(0)))
            },
            Some(found) => {
                let chunks: Vec<ChunkFact> = chunks_of(found);
                let channels: Vec<ChannelFact> = channels_of(found);
                let streams: Vec<StreamDescriptor> = sorted_streams(
                    channels,
                    Ghost(mcap_facts::held(*found).channels),
                );
                let span: TimeSpan = match span_of(found) {
                    Some(span) => span,
                    None => indexed_span(&chunks),
                };
                let start: ArrivalTime = to_arrival(span.start)?;
                let end: ArrivalTime = to_arrival(span.end)?;
                let file = McapFile { backing, summary, chunks };
                if file.is_chunked() {
                    let source = McapSource {
                        file,
                        catalog: SourceCatalog { time_range: recording_range(start, end), streams },
                        range: (start, end),
                        cursor: ReadCursor { cache: Vec::new(), chunk: None, position: 0 },
                        selected_streams: None,
                    };
                    assert(source.content().cursor.cache =~= Seq::empty());
                    Ok(source)
                } else {
                    Self::open_linear(file, streams, (start, end))
                }
            },
        }
    }

    fn open_linear(
        file: McapFile,
        streams: Vec<StreamDescriptor>,
        range: (ArrivalTime, ArrivalTime),
    ) -> (outcome: Result<Self, McapOpenError>)
        requires
            file.well_formed(),
        ensures
            match outcome {
                Ok(source) => source.well_formed() && opened_linear(
                    file.content(),
                    session::stream_contents(streams@),
                    range,
                ) == Ok::<SourceContent, SourceFault>(source.content()),
                Err(error) => opened_linear(
                    file.content(),
                    session::stream_contents(streams@),
                    range,
                ) == Err::<SourceContent, SourceFault>(error@),
            },
    {
        let bytes: &[u8] = file.backing.as_slice();
        if !is_file_sound(bytes, 8) {
            return Err(McapOpenError::Damaged);
        }
        let (messages, error): (Vec<RecordedMessage>, Option<McapError>) = stream_file(bytes);
        let mut streams: Vec<StreamDescriptor> = streams;
        add_streams(&mut streams, &messages);
        let cache: Vec<RawMessage> = sort_read(without_channels(messages), error, &None)?;
        let counts: Vec<StreamDescriptor> = count_streams(streams, &cache);
        let told: (ArrivalTime, ArrivalTime) = if cache.len() == 0 {
            range
        } else {
            (cache[0].arrival_time, cache[cache.len() - 1].arrival_time)
        };
        proof {
            if cache@.len() > 0 {
                assert(raw::contents(cache@)[0] == cache@[0]@);
                assert(raw::contents(cache@).last() == cache@[cache@.len() - 1]@);
            }
        }
        Ok(
            McapSource {
                file,
                catalog: SourceCatalog {
                    time_range: recording_range(told.0, told.1),
                    streams: counts,
                },
                range: told,
                cursor: ReadCursor { cache, chunk: None, position: 0 },
                selected_streams: None,
            },
        )
    }

    pub fn catalog(&self) -> (catalog: &SourceCatalog)
        ensures
            catalog.content() == self.content().streams,
            catalog.time_range == self.content().time_range,
    {
        &self.catalog
    }

    pub fn time_range(&self) -> (range: (ArrivalTime, ArrivalTime))
        ensures
            range == self.content().range,
    {
        self.range
    }

    /// Reads only some streams from now on, from the first message again.
    pub fn select_streams(&mut self, streams: Vec<StreamId>)
        requires
            old(self).well_formed(),
        ensures
            final(self).well_formed(),
            final(self).content() == old(self).content().with_selection(streams@),
    {
        if self.file.is_chunked() {
            self.cursor = ReadCursor { cache: Vec::new(), chunk: None, position: 0 };
            assert(self.cursor.content().cache =~= Seq::empty());
        } else {
            let mut cache: Vec<RawMessage> = Vec::new();
            std::mem::swap(&mut cache, &mut self.cursor.cache);
            let pruned: Vec<RawMessage> = retain_streams(cache, &streams);
            self.cursor = ReadCursor { cache: pruned, chunk: self.cursor.chunk, position: 0 };
        }
        self.selected_streams = Some(streams);
    }

    /// The cursor at the first message that did not arrive before a time, without moving there.
    pub fn prepare_seek(&self, time: ArrivalTime) -> (outcome: Result<ReadCursor, McapOpenError>)
        requires
            self.well_formed(),
        ensures
            ({
                let expected = sought(
                    self.content().file,
                    self.content().selected,
                    self.content().cursor.cache,
                    time,
                );
                match outcome {
                    Ok(cursor) => cursor.well_formed() && expected == Ok::<
                        CursorContent,
                        SourceFault,
                    >(cursor.content()),
                    Err(error) => expected == Err::<CursorContent, SourceFault>(error@),
                }
            }),
    {
        self.file.cursor_at(&self.selected_streams, &self.cursor.cache, time)
    }

    /// Moves to a prepared cursor. One that was prepared for another file is not taken.
    pub fn commit_seek(&mut self, cursor: ReadCursor)
        requires
            old(self).well_formed(),
            cursor.well_formed(),
        ensures
            final(self).well_formed(),
            cursor.content().chunk is None || cursor.content().chunk->Some_0 < old(
                self,
            ).content().file.chunk_count() ==> final(self).content() == (SourceContent {
                cursor: cursor.content(),
                ..old(self).content()
            }),
            cursor.content().chunk is Some && cursor.content().chunk->Some_0 >= old(
                self,
            ).content().file.chunk_count() ==> final(self).content() == old(self).content(),
    {
        if let Some(chunk) = cursor.chunk {
            if chunk >= self.file.chunks.len() {
                return;
            }
        }
        self.cursor = cursor;
    }

    /// Moves to the first message that did not arrive before a time. A failure changes nothing. A
    /// file without chunks of which nothing is at hand is read again, and its messages are counted
    /// anew.
    pub fn seek(&mut self, time: ArrivalTime) -> (outcome: Result<(), McapOpenError>)
        requires
            old(self).well_formed(),
        ensures
            final(self).well_formed(),
            match outcome {
                Ok(_) => old(self).content().moved_to(time) == Ok::<SourceContent, SourceFault>(
                    final(self).content(),
                ),
                Err(error) => old(self).content().moved_to(time) == Err::<
                    SourceContent,
                    SourceFault,
                >(error@) && final(self).content() == old(self).content(),
            },
    {
        if self.file.is_chunked() || self.cursor.cache.len() > 0 {
            let cursor: ReadCursor = self.prepare_seek(time)?;
            self.commit_seek(cursor);
            return Ok(());
        }
        let bytes: &[u8] = self.file.backing.as_slice();
        if !is_file_sound(bytes, 8) {
            return Err(McapOpenError::Damaged);
        }
        let (messages, error): (Vec<RecordedMessage>, Option<McapError>) = stream_file(bytes);
        let mut streams: Vec<StreamDescriptor> = self.catalog.streams.clone();
        assert(session::stream_contents(streams@) =~= self.content().streams);
        add_streams(&mut streams, &messages);
        let cache: Vec<RawMessage> = sort_read(
            without_channels(messages),
            error,
            &self.selected_streams,
        )?;
        self.catalog.streams = count_streams(streams, &cache);
        let position: usize = count_before(&cache, time);
        self.cursor = ReadCursor { cache, chunk: None, position };
        Ok(())
    }

    /// The messages from where reading stands up to a time.
    pub fn read_until(&mut self, through: ArrivalTime) -> (outcome: Result<
        Vec<RawMessage>,
        McapOpenError,
    >)
        requires
            old(self).well_formed(),
        ensures
            final(self).well_formed(),
            final(self).content() == old(self).content().read_until(through).0,
            match outcome {
                Ok(messages) => old(self).content().read_until(through).1 == Ok::<
                    Seq<RawContent>,
                    SourceFault,
                >(raw::contents(messages@)),
                Err(error) => old(self).content().read_until(through).1 == Err::<
                    Seq<RawContent>,
                    SourceFault,
                >(error@),
            },
    {
        if self.file.is_chunked() && self.cursor.chunk.is_none() {
            let cache: Vec<RawMessage> = self.file.read_chunk(0, &self.selected_streams)?;
            self.cursor = ReadCursor { cache, chunk: Some(0), position: 0 };
        }
        self.cursor.read(&self.file, &self.selected_streams, through)
    }
}

fn copy_messages(messages: &Vec<RawMessage>) -> (copy: Vec<RawMessage>)
    ensures
        raw::contents(copy@) == raw::contents(messages@),
{
    let mut copy: Vec<RawMessage> = Vec::with_capacity(messages.len());
    push_messages(&mut copy, messages, 0, messages.len());
    assert(raw::contents(copy@) =~= raw::contents(messages@));
    copy
}

fn push_messages(output: &mut Vec<RawMessage>, messages: &Vec<RawMessage>, from: usize, to: usize)
    requires
        from <= to <= messages@.len(),
    ensures
        raw::contents(final(output)@) == raw::contents(old(output)@) + raw::contents(
            messages@,
        ).subrange(from as int, to as int),
{
    let ghost start = raw::contents(output@);
    let ghost all = raw::contents(messages@);
    let mut index: usize = from;
    assert(start + all.subrange(from as int, from as int) =~= start);
    while index < to
        invariant
            from <= index <= to <= messages@.len(),
            all == raw::contents(messages@),
            raw::contents(output@) == start + all.subrange(from as int, index as int),
        decreases to - index,
    {
        let copy: RawMessage = messages[index].clone();
        let ghost before = raw::contents(output@);
        output.push(copy);
        proof {
            assert(all[index as int] == messages@[index as int]@);
            assert(raw::contents(output@) =~= before.push(all[index as int]));
            assert(raw::contents(output@) =~= start + all.subrange(from as int, index + 1));
        }
        index = index + 1;
    }
}

impl ReadCursor {
    /// The index behind the last message up to a time.
    fn stop(&self, through: ArrivalTime) -> (stop: usize)
        requires
            self.well_formed(),
        ensures
            stop == data_window::reach(
                self.content().cache,
                self.content().position as int,
                through,
            ),
            self.position <= stop <= self.cache@.len(),
    {
        let ghost all = raw::contents(self.cache@);
        let mut stop: usize = self.position;
        while stop < self.cache.len() && self.cache[stop].arrival_time.0 <= through.0
            invariant
                self.position <= stop <= self.cache@.len(),
                all == raw::contents(self.cache@),
                data_window::reach(all, self.position as int, through) == data_window::reach(
                    all,
                    stop as int,
                    through,
                ),
            decreases self.cache@.len() - stop,
        {
            assert(all[stop as int] == self.cache@[stop as int]@);
            stop = stop + 1;
        }
        proof {
            if stop < self.cache@.len() {
                assert(all[stop as int] == self.cache@[stop as int]@);
            }
        }
        stop
    }

    fn read(&mut self, file: &McapFile, selected: &Option<Vec<StreamId>>, through: ArrivalTime) -> (
    outcome: Result<Vec<RawMessage>, McapOpenError>)
        requires
            old(self).well_formed(),
            file.well_formed(),
            old(self).chunk matches Some(chunk) ==> chunk < file.chunks@.len(),
        ensures
            final(self).well_formed(),
            final(self).chunk matches Some(chunk) ==> chunk < file.chunks@.len(),
            ({
                let done = old(self).content().read(
                    file.content(),
                    selection(*selected),
                    through,
                );
                &&& final(self).content() == done.0
                &&& match outcome {
                    Ok(messages) => done.1 == Ok::<Seq<RawContent>, SourceFault>(
                        raw::contents(messages@),
                    ),
                    Err(error) => done.1 == Err::<Seq<RawContent>, SourceFault>(error@),
                }
            }),
    {
        let ghost start = self.content();
        let ghost choice = selection(*selected);
        let ghost whole = start.read(file.content(), choice, through);
        let mut output: Vec<RawMessage> = Vec::new();
        assert(raw::contents(output@) =~= Seq::empty());
        proof {
            if whole.1 is Ok {
                assert(Seq::empty() + whole.1->Ok_0 =~= whole.1->Ok_0);
            }
        }
        loop
            invariant
                self.well_formed(),
                file.well_formed(),
                self.chunk matches Some(chunk) ==> chunk < file.chunks@.len(),
                choice == selection(*selected),
                start == old(self).content(),
                whole == start.read(file.content(), choice, through),
                ({
                    let rest = self.content().read(file.content(), choice, through);
                    &&& rest.0 == whole.0
                    &&& match rest.1 {
                        Err(fault) => whole.1 == Err::<Seq<RawContent>, SourceFault>(fault),
                        Ok(messages) => whole.1 == Ok::<Seq<RawContent>, SourceFault>(
                            raw::contents(output@) + messages,
                        ),
                    }
                }),
            decreases
                (if self.chunk is Some {
                    file.chunks@.len() - self.chunk->Some_0
                } else {
                    0
                }),
        {
            let ghost here = self.content();
            let ghost earlier = raw::contents(output@);
            let stop: usize = self.stop(through);
            push_messages(&mut output, &self.cache, self.position, stop);
            self.position = stop;
            if stop < self.cache.len() {
                return Ok(output);
            }
            let count: usize = file.chunks.len();
            let next: usize = match self.chunk {
                Some(chunk) => chunk + 1,
                None => {
                    return Ok(output);
                },
            };
            if next >= count {
                return Ok(output);
            }
            let cache: Vec<RawMessage> = file.read_chunk(next, selected)?;
            *self = ReadCursor { cache, chunk: Some(next), position: 0 };
            proof {
                let rest = self.content().read(file.content(), choice, through);
                let part = here.cache.subrange(here.position as int, stop as int);
                if rest.1 is Ok {
                    assert(earlier + (part + rest.1->Ok_0) =~= (earlier + part) + rest.1->Ok_0);
                }
            }
        }
    }
}

proof fn lemma_reach_in_steps(
    messages: Seq<RawContent>,
    from: int,
    first: ArrivalTime,
    through: ArrivalTime,
)
    requires
        0 <= from <= messages.len(),
        first.0 <= through.0,
    ensures
        data_window::reach(messages, data_window::reach(messages, from, first), through)
            == data_window::reach(messages, from, through),
    decreases messages.len() - from,
{
    if from < messages.len() && messages[from].arrival_time.0 <= first.0 {
        lemma_reach_in_steps(messages, from + 1, first, through);
    }
}

/// How often sequential reading stops on its way changes nothing: the messages of two steps, one
/// after the other, are those of one step, and reading stands at the same place.
pub proof fn law_reading_in_steps(
    cursor: CursorContent,
    file: FileContent,
    selected: Option<Seq<StreamId>>,
    first: ArrivalTime,
    through: ArrivalTime,
)
    requires
        cursor.position <= cursor.cache.len(),
        first.0 <= through.0,
    ensures
        ({
            let step = cursor.read(file, selected, first);
            let rest = step.0.read(file, selected, through);
            let whole = cursor.read(file, selected, through);
            step.1 matches Ok(messages) ==> {
                &&& whole.0 == rest.0
                &&& match rest.1 {
                    Err(fault) => whole.1 == Err::<Seq<RawContent>, SourceFault>(fault),
                    Ok(later) => whole.1 == Ok::<Seq<RawContent>, SourceFault>(messages + later),
                }
            }
        }),
    decreases
        (if cursor.chunk is Some {
            file.chunk_count() - cursor.chunk->Some_0
        } else {
            0
        }),
{
    let from = cursor.position as int;
    let stop = data_window::reach(cursor.cache, from, first);
    let end = data_window::reach(cursor.cache, from, through);
    data_window::lemma_reach_is_an_index(cursor.cache, from, first);
    data_window::lemma_reach_is_an_index(cursor.cache, from, through);
    data_window::lemma_reach_is_an_index(cursor.cache, stop, through);
    lemma_reach_in_steps(cursor.cache, from, first, through);
    let here = cursor.cache.subrange(from, stop);
    let there = cursor.cache.subrange(stop, end);
    assert(here + there =~= cursor.cache.subrange(from, end));
    let next = cursor.chunk->Some_0 + 1;
    if cursor.chunk is Some && next < file.chunk_count() {
        if let Ok(cache) = chunk_kept(file.bytes, file.summary->Some_0, next as int, selected) {
            let fresh = CursorContent::at_chunk(cache, next);
            law_reading_in_steps(fresh, file, selected, first, through);
            let step = fresh.read(file, selected, first);
            let rest = fresh.read(file, selected, through);
            if let Ok(later) = rest.1 {
                assert(here + (there + later) =~= (here + there) + later);
            }
            if let (Ok(messages), Ok(later)) = (
                step.1,
                step.0.read(file, selected, through).1,
            ) {
                assert((here + messages) + later =~= here + (messages + later));
            }
        }
    }
}

/// Sequential reading hands out nothing that arrived after the time it reads up to.
pub proof fn law_reads_stop_at_the_time(
    cursor: CursorContent,
    file: FileContent,
    selected: Option<Seq<StreamId>>,
    through: ArrivalTime,
)
    requires
        cursor.position <= cursor.cache.len(),
    ensures
        cursor.read(file, selected, through).1 matches Ok(messages) ==> forall|i: int|
            0 <= i < messages.len() ==> (#[trigger] messages[i]).arrival_time.0 <= through.0,
    decreases
        (if cursor.chunk is Some {
            file.chunk_count() - cursor.chunk->Some_0
        } else {
            0
        }),
{
    data_window::lemma_reach_is_an_index(cursor.cache, cursor.position as int, through);
    let next = cursor.chunk->Some_0 + 1;
    if cursor.chunk is Some && next < file.chunk_count() {
        if let Ok(cache) = chunk_kept(file.bytes, file.summary->Some_0, next as int, selected) {
            law_reads_stop_at_the_time(
                CursorContent::at_chunk(cache, next),
                file,
                selected,
                through,
            );
        }
    }
}

pub(crate) proof fn lemma_filter_keeps_order(messages: Seq<RawContent>, keep: spec_fn(RawContent) -> bool)
    requires
        raw::ordered(messages),
    ensures
        raw::ordered(messages.filter(keep)),
        forall|i: int|
            0 <= i < messages.filter(keep).len() ==> messages.contains(
                #[trigger] messages.filter(keep)[i],
            ),
    decreases messages.len(),
{
    reveal(Seq::filter);
    if messages.len() > 0 {
        let front = messages.drop_last();
        assert forall|i: int, j: int| 0 <= i <= j < front.len() implies raw::not_after(
            #[trigger] front[i],
            #[trigger] front[j],
        ) by {
            assert(raw::not_after(messages[i], messages[j]));
        }
        lemma_filter_keeps_order(front, keep);
        let some = front.filter(keep);
        assert forall|i: int| 0 <= i < some.len() implies messages.contains(
            #[trigger] some[i],
        ) && raw::not_after(some[i], messages.last()) by {
            let at = choose|at: int| 0 <= at < front.len() && front[at] == some[i];
            assert(messages[at] == some[i]);
            assert(raw::not_after(messages[at], messages[messages.len() - 1]));
        }
        assert(messages[messages.len() - 1] == messages.last());
        assert(messages.contains(messages.last()));
    }
}

/// An opened file holds its messages in order.
pub proof fn law_opened_sources_are_valid(bytes: Seq<u8>)
    ensures
        opened(bytes) matches Ok(source) ==> source.cursor.valid(),
{
    if let Ok(all) = kept(plain(mcap_facts::linear_messages(bytes).0), None) {
        raw::law_sorting_is_stable(all);
    }
}

/// The messages at hand stay in order, whatever is selected or read.
pub proof fn law_sources_stay_valid(
    source: SourceContent,
    streams: Seq<StreamId>,
    through: ArrivalTime,
)
    requires
        source.cursor.valid(),
    ensures
        source.with_selection(streams).cursor.valid(),
        source.read_until(through).0.cursor.valid(),
{
    lemma_filter_keeps_order(
        source.cursor.cache,
        |message: RawContent| streams.contains(message.stream_id),
    );
    lemma_chunks_are_ordered(source.file, source.selected, 0);
    if let Ok(cursor) = source.start() {
        lemma_reads_stay_valid(cursor, source.file, source.selected, through);
    }
}

pub(crate) proof fn lemma_chunks_are_ordered(
    file: FileContent,
    selected: Option<Seq<StreamId>>,
    index: int,
)
    ensures
        chunk_kept(file.bytes, file.summary->Some_0, index, selected) matches Ok(cache)
            ==> raw::ordered(cache),
{
    let summary = file.summary->Some_0;
    let read = mcap_facts::chunk_messages(file.bytes, summary.channels, summary.chunks[index]);
    if let Ok(all) = kept(read.0, selected) {
        raw::law_sorting_is_stable(all);
    }
}

proof fn lemma_reads_stay_valid(
    cursor: CursorContent,
    file: FileContent,
    selected: Option<Seq<StreamId>>,
    through: ArrivalTime,
)
    requires
        cursor.valid(),
    ensures
        cursor.read(file, selected, through).0.valid(),
    decreases
        (if cursor.chunk is Some {
            file.chunk_count() - cursor.chunk->Some_0
        } else {
            0
        }),
{
    data_window::lemma_reach_is_an_index(cursor.cache, cursor.position as int, through);
    let next = cursor.chunk->Some_0 + 1;
    if cursor.chunk is Some && next < file.chunk_count() {
        if let Ok(cache) = chunk_kept(file.bytes, file.summary->Some_0, next as int, selected) {
            lemma_chunks_are_ordered(file, selected, next as int);
            lemma_reads_stay_valid(
                CursorContent::at_chunk(cache, next),
                file,
                selected,
                through,
            );
        }
    }
}

proof fn lemma_before(messages: Seq<RawContent>, time: ArrivalTime)
    requires
        raw::ordered(messages),
    ensures
        before(messages, time) <= messages.len(),
        forall|i: int|
            0 <= i < before(messages, time) ==> (#[trigger] messages[i]).arrival_time.0 < time.0,
        forall|i: int|
            before(messages, time) <= i < messages.len() ==> (
            #[trigger] messages[i]).arrival_time.0 >= time.0,
    decreases messages.len(),
{
    if messages.len() > 0 {
        let rest = messages.drop_first();
        assert forall|i: int, j: int| 0 <= i <= j < rest.len() implies raw::not_after(
            #[trigger] rest[i],
            #[trigger] rest[j],
        ) by {
            assert(raw::not_after(messages[i + 1], messages[j + 1]));
        }
        if messages[0].arrival_time.0 < time.0 {
            lemma_before(rest, time);
            assert forall|i: int| 0 <= i < before(messages, time) implies (
            #[trigger] messages[i]).arrival_time.0 < time.0 by {
                if i > 0 {
                    assert(rest[i - 1] == messages[i]);
                }
            }
            assert forall|i: int| before(messages, time) <= i < messages.len() implies (
            #[trigger] messages[i]).arrival_time.0 >= time.0 by {
                assert(rest[i - 1] == messages[i]);
            }
        } else {
            assert forall|i: int| 0 <= i < messages.len() implies (
            #[trigger] messages[i]).arrival_time.0 >= time.0 by {
                assert(raw::not_after(messages[0], messages[i]));
            }
        }
    }
}

/// A seek lands on the first message at hand that did not arrive before its time.
pub proof fn law_seeks_land_at_their_time(
    file: FileContent,
    selected: Option<Seq<StreamId>>,
    loaded: Seq<RawContent>,
    time: ArrivalTime,
)
    requires
        raw::ordered(loaded),
    ensures
        sought(file, selected, loaded, time) matches Ok(cursor) ==> {
            &&& cursor.valid()
            &&& forall|i: int|
                0 <= i < cursor.position ==> (#[trigger] cursor.cache[i]).arrival_time.0 < time.0
            &&& forall|i: int|
                cursor.position <= i < cursor.cache.len() ==> (
                #[trigger] cursor.cache[i]).arrival_time.0 >= time.0
        },
{
    if let Ok(cursor) = sought(file, selected, loaded, time) {
        if file.chunked() {
            lemma_chunks_are_ordered(file, selected, cursor.chunk->Some_0 as int);
        } else if loaded.len() == 0 {
            let messages = mcap_facts::linear_messages(file.bytes).0;
            raw::law_sorting_is_stable(kept(plain(messages), selected)->Ok_0);
        }
        lemma_before(cursor.cache, time);
    }
}

/// The messages that are read from a cursor on arrived after a time, if those at hand and those of
/// the chunks that follow did.
pub proof fn lemma_reads_follow(
    cursor: CursorContent,
    file: FileContent,
    selected: Option<Seq<StreamId>>,
    time: ArrivalTime,
    through: ArrivalTime,
)
    requires
        cursor.position <= cursor.cache.len(),
        forall|i: int|
            cursor.position <= i < cursor.cache.len() ==> (
            #[trigger] cursor.cache[i]).arrival_time.0 > time.0,
        cursor.chunk matches Some(chunk) ==> follows(file, selected, chunk, time),
    ensures
        cursor.read(file, selected, through).1 matches Ok(messages) ==> forall|i: int|
            0 <= i < messages.len() ==> (#[trigger] messages[i]).arrival_time.0 > time.0,
    decreases
        (if cursor.chunk is Some {
            file.chunk_count() - cursor.chunk->Some_0
        } else {
            0
        }),
{
    data_window::lemma_reach_is_an_index(cursor.cache, cursor.position as int, through);
    let next = cursor.chunk->Some_0 + 1;
    if cursor.chunk is Some && next < file.chunk_count() {
        if let Ok(cache) = chunk_kept(file.bytes, file.summary->Some_0, next as int, selected) {
            assert(all_after(file, selected, next as int, time));
            lemma_reads_follow(
                CursorContent::at_chunk(cache, next),
                file,
                selected,
                time,
                through,
            );
        }
    }
}

/// Every wanted message of a chunk arrived after a time.
pub open spec fn all_after(
    file: FileContent,
    selected: Option<Seq<StreamId>>,
    index: int,
    time: ArrivalTime,
) -> bool {
    chunk_kept(file.bytes, file.summary->Some_0, index, selected) matches Ok(cache) ==> forall|
        i: int,
    |
        0 <= i < cache.len() ==> (#[trigger] cache[i]).arrival_time.0 > time.0
}

/// Every wanted message of the chunks behind one arrived after a time.
pub open spec fn follows(
    file: FileContent,
    selected: Option<Seq<StreamId>>,
    chunk: nat,
    time: ArrivalTime,
) -> bool {
    forall|index: int|
        chunk < index < file.chunk_count() ==> #[trigger] all_after(file, selected, index, time)
}

/// The channels of a file are streams: each under its own number, with its topic, type, form and
/// count, in order of the numbers, and nothing else is one.
pub proof fn law_channels_are_streams(channels: Map<u16, ChannelContent>, id: u16)
    ensures
        channels.contains_key(id) <==> known(streams_in(channels), StreamId(id as u32)),
        forall|i: int|
            0 <= i < streams_in(channels).len() ==> {
                let stream = #[trigger] streams_in(channels)[i];
                &&& stream.id.0 < 65_536
                &&& channels.contains_key(stream.id.0 as u16)
                &&& stream.topic == channels[stream.id.0 as u16].topic
                &&& stream.schema == channels[stream.id.0 as u16].schema
                &&& stream.message_encoding == channels[stream.id.0 as u16].message_encoding
                &&& stream.timing.message_count == channels[stream.id.0 as u16].message_count
            },
        forall|i: int, j: int|
            0 <= i < j < streams_in(channels).len() ==> (#[trigger] streams_in(channels)[i]).id.0 < (
            #[trigger] streams_in(channels)[j]).id.0,
{
    lemma_streams_below(channels, 65536, id);
}

#[verifier::rlimit(60)]
proof fn lemma_streams_below(channels: Map<u16, ChannelContent>, limit: nat, id: u16)
    requires
        limit <= 65536,
    ensures
        ({
            let streams = streams_below(channels, limit);
            &&& channels.contains_key(id) && id < limit <==> known(streams, StreamId(id as u32))
            &&& forall|i: int|
                0 <= i < streams.len() ==> {
                    let stream = #[trigger] streams[i];
                    &&& stream.id.0 < limit
                    &&& channels.contains_key(stream.id.0 as u16)
                    &&& stream.topic == channels[stream.id.0 as u16].topic
                    &&& stream.schema == channels[stream.id.0 as u16].schema
                    &&& stream.message_encoding == channels[stream.id.0 as u16].message_encoding
                    &&& stream.timing.message_count == channels[stream.id.0 as u16].message_count
                }
            &&& forall|i: int, j: int|
                0 <= i < j < streams.len() ==> (#[trigger] streams[i]).id.0 < (
                #[trigger] streams[j]).id.0
        }),
    decreases limit,
{
    if limit > 0 {
        lemma_streams_below(channels, (limit - 1) as nat, id);
        let earlier = streams_below(channels, (limit - 1) as nat);
        let streams = streams_below(channels, limit);
        if known(earlier, StreamId(id as u32)) {
            let i = choose|i: int|
                0 <= i < earlier.len() && (#[trigger] earlier[i]).id == StreamId(id as u32);
            assert(streams[i].id == StreamId(id as u32));
        } else if known(streams, StreamId(id as u32)) {
            let i = choose|i: int|
                0 <= i < streams.len() && (#[trigger] streams[i]).id == StreamId(id as u32);
            if i < earlier.len() {
                assert(earlier[i] == streams[i]);
            }
        } else if channels.contains_key(id) && id == limit - 1 {
            assert(streams[streams.len() - 1].id == StreamId(id as u32));
        }
    }
}

/// A message that was recorded at a time arrives at that time; times that are too large have none.
pub proof fn law_arrivals_are_log_times(log_time: u64)
    ensures
        log_time <= i64::MAX ==> arrival_of(log_time) == Some(ArrivalTime(log_time as i64)),
        log_time > i64::MAX ==> arrival_of(log_time) is None,
        arrival_capped(log_time).0 == if log_time <= i64::MAX {
            log_time as int
        } else {
            i64::MAX as int
        },
{
}

/// Of a list of messages the wanted ones are kept, each of its stream, at the time of its log and with
/// its data, and no other.
#[verifier::rlimit(60)]
pub proof fn law_wanted_messages_are_kept(
    messages: Seq<ChunkMessageContent>,
    selected: Option<Seq<StreamId>>,
    message: RawContent,
)
    requires
        kept(messages, selected) is Ok,
    ensures
        kept(messages, selected)->Ok_0.contains(message) <==> exists|i: int|
            0 <= i < messages.len() && (#[trigger] messages[i]).channel == message.stream_id.0
                && messages[i].log_time == message.arrival_time.0 && messages[i].data
                == message.payload && (selected matches Some(streams) ==> streams.contains(
                message.stream_id,
            )),
    decreases messages.len(),
{
    let all = kept(messages, selected)->Ok_0;
    if messages.len() > 0 {
        let front = messages.drop_last();
        let last = messages.last();
        let earlier = kept(front, selected)->Ok_0;
        law_wanted_messages_are_kept(front, selected, message);
        if all.len() > earlier.len() {
            lemma_in_pushed(earlier, all.last(), message);
            assert(all =~= earlier.push(all.last()));
        }
        if all.contains(message) {
            if earlier.contains(message) {
                let i = choose|i: int|
                    0 <= i < front.len() && (#[trigger] front[i]).channel == message.stream_id.0
                        && front[i].log_time == message.arrival_time.0 && front[i].data
                        == message.payload && (selected matches Some(streams) ==> streams.contains(
                        message.stream_id,
                    ));
                assert(messages[i] == front[i]);
            } else {
                assert(messages[messages.len() - 1] == last);
            }
        }
        if exists|i: int|
            0 <= i < messages.len() && (#[trigger] messages[i]).channel == message.stream_id.0
                && messages[i].log_time == message.arrival_time.0 && messages[i].data
                == message.payload && (selected matches Some(streams) ==> streams.contains(
                message.stream_id,
            )) {
            let i = choose|i: int|
                0 <= i < messages.len() && (#[trigger] messages[i]).channel == message.stream_id.0
                    && messages[i].log_time == message.arrival_time.0 && messages[i].data
                    == message.payload && (selected matches Some(streams) ==> streams.contains(
                    message.stream_id,
                ));
            if i < front.len() {
                assert(front[i] == messages[i]);
            } else {
                assert(StreamId(last.channel as u32) == message.stream_id);
                assert(all.last() == message);
            }
        }
    }
}

/// A recording covers the times from that of its first message to that of its last one.
pub proof fn law_recordings_cover_their_messages(start: ArrivalTime, end: ArrivalTime, time: i64)
    requires
        start.0 <= end.0 < i64::MAX,
    ensures
        range_of(start, end) is Some,
        ({
            let range = range_of(start, end)->0;
            start.0 <= time <= end.0 <==> range.start.0 <= time < range.end_exclusive.0
        }),
{
}

} // verus!

//! Windows of an MCAP file that is read chunk by chunk.

use crate::message::cdr::common::{self, little_word64, Endian};
use crate::message::payload::{self, as_slice, byte_count, share, shared_slice};
use crate::message::text::{self, push_decimal, same_text};
use crate::message::time::ArrivalTime;
use crate::playback::data_window::{self, SerializedWindow, TimeRange};
use crate::playback::window_loader::{
    DataLoadError, LoadedWindow, WindowLoadDiagnostics,
};
use crate::recording::local_catalog::{FactsContent, SummaryFacts};
use crate::recording::mcap_facts::{self, error_text, ChannelContent, ChunkContent, ChunkFact};
use crate::recording::mcap_source;
use crate::recording::raw::{self, sort_by_time, RawContent, RawMessage, StreamId};
use bytes::Bytes;
use mcap::McapError;
use std::collections::VecDeque;
use vstd::prelude::*;
use vstd::string::*;
use vstd::utf8::*;

verus! {

/// The largest integer that a number of JavaScript holds exactly.
pub const JS_MAX_SAFE_INTEGER: u64 = 9_007_199_254_740_991;

/// The opcode of a message record.
pub const MESSAGE_OPCODE: u8 = 5;

/// A range of bytes of a file.
#[derive(Clone, Copy, Debug, Eq, PartialEq, Structural)]
pub struct ByteRange {
    pub offset: u64,
    pub length: usize,
}

impl ByteRange {
    /// The offset behind the last byte.
    pub fn end(self) -> (end: u64)
        requires
            self.offset + self.length <= u64::MAX,
        ensures
            end == self.offset + self.length,
    {
        self.offset + self.length as u64
    }
}

/// Why a range of a file cannot be read, if it cannot.
pub open spec fn range_fault(file_size: u64, offset: u64, length: usize) -> Option<Seq<char>> {
    let end = offset + length;
    if file_size == 0 {
        Some("MCAP file is empty"@)
    } else if file_size > JS_MAX_SAFE_INTEGER {
        Some("MCAP file size exceeds JavaScript's safe integer range"@)
    } else if end > u64::MAX {
        Some("MCAP range end overflow"@)
    } else if end > file_size {
        Some(
            "MCAP range "@ + text::decimal(offset as nat) + ".."@ + text::decimal(end as nat)
                + " exceeds file size "@ + text::decimal(file_size as nat),
        )
    } else {
        None
    }
}

/// A range of a file, where it lies in the file and can be asked for.
pub fn validate_range(file_size: u64, offset: u64, length: usize) -> (outcome: Result<
    ByteRange,
    DataLoadError,
>)
    ensures
        match outcome {
            Ok(range) => range_fault(file_size, offset, length) is None && range == (ByteRange {
                offset,
                length,
            }) && offset + length <= file_size,
            Err(error) => range_fault(file_size, offset, length) == Some(error@),
        },
{
    if file_size == 0 {
        return Err(DataLoadError::new("MCAP file is empty".to_owned()));
    }
    if file_size > JS_MAX_SAFE_INTEGER {
        return Err(
            DataLoadError::new(
                "MCAP file size exceeds JavaScript's safe integer range".to_owned(),
            ),
        );
    }
    let end: u64 = match offset.checked_add(length as u64) {
        Some(end) => end,
        None => return Err(DataLoadError::new("MCAP range end overflow".to_owned())),
    };
    if offset > JS_MAX_SAFE_INTEGER || end > JS_MAX_SAFE_INTEGER || end > file_size {
        let mut message: String = "MCAP range ".to_owned();
        push_decimal(&mut message, offset);
        message.append("..");
        push_decimal(&mut message, end);
        message.append(" exceeds file size ");
        push_decimal(&mut message, file_size);
        return Err(DataLoadError::new(message));
    }
    Ok(ByteRange { offset, length })
}

/// A chunk to read.
#[derive(Debug, Eq, PartialEq)]
pub struct ChunkReadRequest {
    pub offset: u64,
    pub length: usize,
    pub compression: String,
    pub uncompressed_size: usize,
}

/// What a request says.
pub struct RequestContent {
    pub offset: u64,
    pub length: usize,
    pub compression: Seq<char>,
    pub uncompressed_size: usize,
}

impl View for ChunkReadRequest {
    type V = RequestContent;

    open spec fn view(&self) -> RequestContent {
        RequestContent {
            offset: self.offset,
            length: self.length,
            compression: self.compression@,
            uncompressed_size: self.uncompressed_size,
        }
    }
}

/// What each request of a list says.
pub open spec fn request_contents(requests: Seq<ChunkReadRequest>) -> Seq<RequestContent> {
    requests.map_values(|request: ChunkReadRequest| request@)
}

/// Where the data of a chunk starts: behind the header of its record, which holds the name of the
/// compression.
pub open spec fn data_offset(chunk: ChunkContent) -> int {
    chunk.chunk_start_offset + 49 + encode_utf8(chunk.compression).len()
}

/// The request for the data of a chunk.
pub open spec fn request_for(chunk: ChunkContent) -> Result<RequestContent, Seq<char>> {
    if data_offset(chunk) > u64::MAX {
        Err(
            "chunk start offset is out of file range: "@ + text::decimal(
                chunk.chunk_start_offset as nat,
            ),
        )
    } else if chunk.compressed_size > usize::MAX {
        Err("compressed MCAP chunk is too large"@)
    } else if chunk.uncompressed_size > usize::MAX {
        Err("uncompressed MCAP chunk is too large"@)
    } else {
        Ok(
            RequestContent {
                offset: data_offset(chunk) as u64,
                length: chunk.compressed_size as usize,
                compression: chunk.compression,
                uncompressed_size: chunk.uncompressed_size as usize,
            },
        )
    }
}

/// Where the data of a chunk starts, if at a place that can be addressed.
pub fn data_start(chunk: &ChunkFact) -> (start: Option<u64>)
    ensures
        match start {
            Some(offset) => offset == data_offset(chunk@),
            None => data_offset(chunk@) > u64::MAX,
        },
{
    let name: usize = chunk.compression.as_str().as_bytes().len();
    match (name as u64).checked_add(49) {
        Some(header) => chunk.chunk_start_offset.checked_add(header),
        None => None,
    }
}

/// The request for the data of a chunk.
pub fn chunk_request(chunk: &ChunkFact) -> (outcome: Result<ChunkReadRequest, DataLoadError>)
    ensures
        match outcome {
            Ok(request) => request_for(chunk@) == Ok::<RequestContent, Seq<char>>(request@),
            Err(error) => request_for(chunk@) == Err::<RequestContent, Seq<char>>(error@),
        },
{
    let offset: u64 = match data_start(chunk) {
        Some(offset) => offset,
        None => {
            let mut message: String = "chunk start offset is out of file range: ".to_owned();
            push_decimal(&mut message, chunk.chunk_start_offset);
            return Err(DataLoadError::new(message));
        },
    };
    if chunk.compressed_size > usize::MAX as u64 {
        return Err(DataLoadError::new("compressed MCAP chunk is too large".to_owned()));
    }
    if chunk.uncompressed_size > usize::MAX as u64 {
        return Err(DataLoadError::new("uncompressed MCAP chunk is too large".to_owned()));
    }
    Ok(
        ChunkReadRequest {
            offset,
            length: chunk.compressed_size as usize,
            compression: chunk.compression.clone(),
            uncompressed_size: chunk.uncompressed_size as usize,
        },
    )
}

/// Why a load failed: in these words, or in the words of an outside crate.
pub enum LoadFault {
    Words(Seq<char>),
    Outside,
}

/// The error says what the fault says.
pub open spec fn says(error: DataLoadError, fault: LoadFault) -> bool {
    match fault {
        LoadFault::Words(words) => error@ == words,
        LoadFault::Outside => true,
    }
}

/// What a zstd frame holds, where it holds no more than `capacity` bytes and can be read.
pub uninterp spec fn zstd_content(frame: Seq<u8>, capacity: usize) -> Option<Seq<u8>>;

/// `zstd::bulk::decompress`: the bytes of a frame, or why they cannot be had, in words that are
/// zstd's own.
#[verifier::external_body]
pub(crate) fn decompress(frame: &[u8], capacity: usize) -> (outcome: Result<Vec<u8>, String>)
    requires
        capacity <= isize::MAX,
    ensures
        match outcome {
            Ok(bytes) => zstd_content(frame@, capacity) == Some(bytes@),
            Err(_) => zstd_content(frame@, capacity) is None,
        },
{
    zstd::bulk::decompress(frame, capacity).map_err(|error| error.to_string())
}

/// The records of a chunk, and how many bytes had to be decompressed for them.
pub open spec fn backing_of(request: RequestContent, data: Seq<u8>) -> Result<
    (Seq<u8>, nat),
    LoadFault,
> {
    if request.compression.len() == 0 {
        if data.len() != request.uncompressed_size {
            Err(LoadFault::Words("uncompressed MCAP chunk size mismatch"@))
        } else {
            Ok((data, 0))
        }
    } else if request.compression == "zstd"@ {
        if request.uncompressed_size > isize::MAX {
            Err(LoadFault::Words("decompressed MCAP chunk size mismatch"@))
        } else {
            match zstd_content(data, request.uncompressed_size) {
                None => Err(LoadFault::Outside),
                Some(bytes) => if bytes.len() != request.uncompressed_size {
                    Err(LoadFault::Words("decompressed MCAP chunk size mismatch"@))
                } else {
                    Ok((bytes, bytes.len()))
                },
            }
        }
    } else {
        Err(LoadFault::Words("unsupported browser MCAP compression: "@ + request.compression))
    }
}

/// The records of a chunk, and how many bytes had to be decompressed for them.
pub fn decode_chunk_backing(request: &ChunkReadRequest, compressed: Bytes) -> (outcome: Result<
    (Bytes, usize),
    DataLoadError,
>)
    ensures
        match outcome {
            Ok((backing, count)) => backing_of(request@, payload::content(compressed)) == Ok::<
                (Seq<u8>, nat),
                LoadFault,
            >((payload::content(backing), count as nat)),
            Err(error) => backing_of(request@, payload::content(compressed)) matches Err(fault)
                && says(error, fault),
        },
{
    if request.compression.as_str().is_empty() {
        if byte_count(&compressed) != request.uncompressed_size {
            return Err(DataLoadError::new("uncompressed MCAP chunk size mismatch".to_owned()));
        }
        return Ok((compressed, 0));
    }
    if same_text(request.compression.as_str(), "zstd") {
        if request.uncompressed_size > isize::MAX as usize {
            return Err(DataLoadError::new("decompressed MCAP chunk size mismatch".to_owned()));
        }
        let bytes: Vec<u8> = match decompress(as_slice(&compressed), request.uncompressed_size) {
            Ok(bytes) => bytes,
            Err(words) => return Err(DataLoadError::new(words)),
        };
        if bytes.len() != request.uncompressed_size {
            return Err(DataLoadError::new("decompressed MCAP chunk size mismatch".to_owned()));
        }
        let count: usize = bytes.len();
        return Ok((share(bytes), count));
    }
    let mut message: String = "unsupported browser MCAP compression: ".to_owned();
    message.append(request.compression.as_str());
    Err(DataLoadError::new(message))
}

/// The channel and the log time of a message record, and how many bytes its payload has.
#[derive(Clone, Copy, Debug, Eq, PartialEq, Structural)]
pub struct MessageRecord {
    pub channel: u16,
    pub log_time: u64,
    pub payload: usize,
}

/// A message record: two bytes of channel, four of sequence, eight of log time, eight of publish
/// time, all the lowest byte first, and then the payload.
pub open spec fn message_record(body: Seq<u8>) -> Option<MessageRecord> {
    if body.len() < 22 {
        None
    } else {
        Some(
            MessageRecord {
                channel: (body[0] + body[1] * 0x100) as u16,
                log_time: common::word64(body, 6, Endian::Little),
                payload: (body.len() - 22) as usize,
            },
        )
    }
}

/// `mcap::parse_record` of a message record: its header fields and its payload behind them, or an
/// error where the record is shorter than its header.
#[verifier::external_body]
pub(crate) fn parse_message(body: &[u8]) -> (outcome: Result<Option<MessageRecord>, McapError>)
    ensures
        match outcome {
            Ok(record) => record is Some && record == message_record(body@),
            Err(_) => message_record(body@) is None,
        },
{
    Ok(match mcap::parse_record(MESSAGE_OPCODE, body)? {
        mcap::records::Record::Message { header, data } => Some(MessageRecord {
            channel: header.channel_id,
            log_time: header.log_time,
            payload: data.len(),
        }),
        _ => None,
    })
}

/// The channel is selected: every channel is, where none is.
pub open spec fn selects(selected: Seq<u16>, channel: u16) -> bool {
    selected.len() == 0 || selected.contains(channel)
}

/// The messages of selected channels within a range among the records from an offset on.
pub open spec fn messages_from(
    bytes: Seq<u8>,
    selected: Seq<u16>,
    range: TimeRange,
    offset: int,
) -> Result<Seq<RawContent>, LoadFault>
    decreases bytes.len() - offset,
{
    if offset < 0 || offset >= bytes.len() {
        Ok(Seq::empty())
    } else if offset + 9 > bytes.len() {
        Err(LoadFault::Words("truncated MCAP record header in chunk"@))
    } else {
        let length = common::word64(bytes, offset + 1, Endian::Little);
        let end = offset + 9 + length;
        if length > usize::MAX {
            Err(LoadFault::Words("MCAP record body is too large"@))
        } else if end > usize::MAX {
            Err(LoadFault::Words("MCAP record body overflow"@))
        } else if end > bytes.len() {
            Err(LoadFault::Words("truncated MCAP record body in chunk"@))
        } else if bytes[offset] != MESSAGE_OPCODE {
            messages_from(bytes, selected, range, end)
        } else {
            match message_record(bytes.subrange(offset + 9, end)) {
                None => Err(LoadFault::Outside),
                Some(record) => match mcap_source::arrival_of(record.log_time) {
                    None => Err(
                        LoadFault::Words(
                            "browser MCAP timestamp exceeds signed nanoseconds"@,
                        ),
                    ),
                    Some(arrival_time) => match messages_from(bytes, selected, range, end) {
                        Err(fault) => Err(fault),
                        Ok(rest) => if range.spec_contains(arrival_time) && selects(
                            selected,
                            record.channel,
                        ) {
                            Ok(
                                seq![
                                    RawContent {
                                        stream_id: StreamId(record.channel as u32),
                                        arrival_time,
                                        payload: bytes.subrange(end - record.payload, end),
                                    },
                                ] + rest,
                            )
                        } else {
                            Ok(rest)
                        },
                    },
                },
            }
        }
    }
}

/// The messages of a chunk, which share the bytes of the chunk.
#[derive(Debug)]
pub struct ParsedChunk {
    pub backing: Bytes,
    pub messages: Vec<RawMessage>,
}

fn is_selected(selected: &Vec<u16>, channel: u16) -> (is: bool)
    ensures
        is == selects(selected@, channel),
{
    if selected.len() == 0 {
        return true;
    }
    let mut index: usize = 0;
    while index < selected.len()
        invariant
            index <= selected@.len(),
            selected@.len() > 0,
            forall|i: int| 0 <= i < index ==> selected@[i] != channel,
        decreases selected@.len() - index,
    {
        if selected[index] == channel {
            return true;
        }
        index = index + 1;
    }
    false
}

/// The messages of selected channels within a range. They share the bytes of the chunk.
pub fn parse_chunk_backing(backing: Bytes, selected_channels: &Vec<u16>, range: TimeRange) -> (
outcome: Result<ParsedChunk, DataLoadError>)
    ensures
        ({
            let expected = messages_from(
                payload::content(backing),
                selected_channels@,
                range,
                0,
            );
            match outcome {
                Ok(parsed) => parsed.backing == backing && expected == Ok::<
                    Seq<RawContent>,
                    LoadFault,
                >(raw::contents(parsed.messages@)),
                Err(error) => expected matches Err(fault) && says(error, fault),
            }
        }),
{
    let ghost bytes = payload::content(backing);
    let ghost chosen = selected_channels@;
    let ghost whole = messages_from(bytes, chosen, range, 0);
    let length: usize = byte_count(&backing);
    let mut offset: usize = 0;
    let mut messages: Vec<RawMessage> = Vec::new();
    proof {
        assert(raw::contents(messages@) =~= Seq::empty());
        if whole is Ok {
            assert(Seq::empty() + whole->Ok_0 =~= whole->Ok_0);
        }
    }
    while offset < length
        invariant
            offset <= length,
            length == bytes.len(),
            bytes == payload::content(backing),
            chosen == selected_channels@,
            whole == messages_from(bytes, chosen, range, 0),
            match messages_from(bytes, chosen, range, offset as int) {
                Err(fault) => whole == Err::<Seq<RawContent>, LoadFault>(fault),
                Ok(rest) => whole == Ok::<Seq<RawContent>, LoadFault>(
                    raw::contents(messages@) + rest,
                ),
            },
        decreases length - offset,
    {
        let slice: &[u8] = as_slice(&backing);
        if length - offset < 9 {
            return Err(DataLoadError::new("truncated MCAP record header in chunk".to_owned()));
        }
        let header_end: usize = offset + 9;
        let opcode: u8 = slice[offset];
        let body_length: u64 = little_word64(slice, offset + 1);
        if body_length > usize::MAX as u64 {
            return Err(DataLoadError::new("MCAP record body is too large".to_owned()));
        }
        let body_end: usize = match header_end.checked_add(body_length as usize) {
            Some(body_end) => body_end,
            None => return Err(DataLoadError::new("MCAP record body overflow".to_owned())),
        };
        if body_end > length {
            return Err(DataLoadError::new("truncated MCAP record body in chunk".to_owned()));
        }
        let ghost earlier = raw::contents(messages@);
        if opcode == MESSAGE_OPCODE {
            let body: &[u8] = vstd::slice::slice_subrange(slice, header_end, body_end);
            assert(body@ == bytes.subrange(header_end as int, body_end as int));
            let record: MessageRecord = match parse_message(body) {
                Ok(Some(record)) => record,
                Ok(None) => return Err(
                    DataLoadError::new("MCAP message opcode parsed as another record".to_owned()),
                ),
                Err(error) => return Err(DataLoadError::new(error_text(&error))),
            };
            if record.log_time > i64::MAX as u64 {
                return Err(
                    DataLoadError::new(
                        "browser MCAP timestamp exceeds signed nanoseconds".to_owned(),
                    ),
                );
            }
            let arrival_time = ArrivalTime(record.log_time as i64);
            if range.contains(arrival_time) && is_selected(selected_channels, record.channel) {
                let message = RawMessage {
                    stream_id: StreamId(record.channel as u32),
                    arrival_time,
                    payload: shared_slice(&backing, body_end - record.payload, body_end),
                };
                let ghost added = message@;
                messages.push(message);
                proof {
                    assert(raw::contents(messages@) =~= earlier.push(added));
                    let rest = messages_from(bytes, chosen, range, body_end as int);
                    if rest is Ok {
                        assert(earlier + (seq![added] + rest->Ok_0) =~= earlier.push(added)
                            + rest->Ok_0);
                    }
                }
            }
        }
        offset = body_end;
    }
    assert(raw::contents(messages@) + Seq::<RawContent>::empty() =~= raw::contents(messages@));
    Ok(ParsedChunk { backing, messages })
}

/// The chunk may hold messages of the selected channels within a range of times.
pub open spec fn overlaps(chunk: ChunkContent, selected: Seq<u16>, start: u64, end: u64) -> bool {
    &&& chunk.message_end_time >= start
    &&& chunk.message_start_time < end
    &&& selected.len() == 0 || chunk.message_index_offsets.len() == 0 || exists|i: int|
        0 <= i < chunk.message_index_offsets.len() && selected.contains(
            (#[trigger] chunk.message_index_offsets[i]).0,
        )
}

/// Chunks are read in order of their start, and of their place in the file among equal starts.
pub open spec fn chunk_not_after(first: ChunkContent, second: ChunkContent) -> bool {
    first.message_start_time < second.message_start_time || (first.message_start_time
        == second.message_start_time && first.chunk_start_offset <= second.chunk_start_offset)
}

/// Where a chunk goes among ordered chunks: behind every one that is not after it.
pub open spec fn chunk_place(chunks: Seq<ChunkContent>, chunk: ChunkContent) -> int
    decreases chunks.len(),
{
    if chunks.len() == 0 {
        0
    } else if chunk_not_after(chunks.last(), chunk) {
        chunks.len() as int
    } else {
        chunk_place(chunks.drop_last(), chunk)
    }
}

/// The chunks to read for a window, in the order in which they are read.
pub open spec fn chunks_to_read(
    chunks: Seq<ChunkContent>,
    selected: Seq<u16>,
    start: u64,
    end: u64,
) -> Seq<ChunkContent>
    decreases chunks.len(),
{
    if chunks.len() == 0 {
        Seq::empty()
    } else {
        let earlier = chunks_to_read(chunks.drop_last(), selected, start, end);
        if overlaps(chunks.last(), selected, start, end) {
            earlier.insert(chunk_place(earlier, chunks.last()), chunks.last())
        } else {
            earlier
        }
    }
}

/// The requests for chunks in order, or why the first of them cannot be asked for.
pub open spec fn requests_for(chunks: Seq<ChunkContent>) -> Result<Seq<RequestContent>, Seq<char>>
    decreases chunks.len(),
{
    if chunks.len() == 0 {
        Ok(Seq::empty())
    } else {
        match requests_for(chunks.drop_last()) {
            Err(words) => Err(words),
            Ok(earlier) => match request_for(chunks.last()) {
                Err(words) => Err(words),
                Ok(request) => Ok(earlier.push(request)),
            },
        }
    }
}

/// The channel is on one of the topics.
pub open spec fn on_topic(channel: ChannelContent, topics: Seq<Seq<char>>) -> bool {
    topics.contains(channel.topic)
}

/// The channels below a limit that are on one of the topics, in order.
pub open spec fn channels_below(
    channels: Map<u16, ChannelContent>,
    topics: Seq<Seq<char>>,
    limit: nat,
) -> Seq<u16>
    decreases limit,
{
    if limit == 0 {
        Seq::empty()
    } else {
        let id = (limit - 1) as u16;
        let earlier = channels_below(channels, topics, (limit - 1) as nat);
        if channels.contains_key(id) && on_topic(channels[id], topics) {
            earlier.push(id)
        } else {
            earlier
        }
    }
}

/// What each topic of a list is.
pub open spec fn topic_contents(topics: Seq<String>) -> Seq<Seq<char>> {
    topics.map_values(|topic: String| topic@)
}

fn lists_topic(topics: &[String], topic: &str) -> (listed: bool)
    ensures
        listed == topic_contents(topics@).contains(topic@),
{
    let ghost all = topic_contents(topics@);
    let mut index: usize = 0;
    while index < topics.len()
        invariant
            index <= topics@.len(),
            all == topic_contents(topics@),
            forall|i: int| 0 <= i < index ==> all[i] != topic@,
        decreases topics@.len() - index,
    {
        assert(all[index as int] == topics@[index as int]@);
        if same_text(topics[index].as_str(), topic) {
            return true;
        }
        index = index + 1;
    }
    false
}

fn select_channels(facts: &SummaryFacts, topics: &[String]) -> (selected: Vec<u16>)
    requires
        facts.well_formed(),
    ensures
        selected@ == channels_below(facts.content().channels, topic_contents(topics@), 65536),
{
    let ghost about = facts.content().channels;
    let ghost names = topic_contents(topics@);
    let mut selected: Vec<u16> = Vec::new();
    let mut id: u32 = 0;
    while id < 65536
        invariant
            id <= 65536,
            about == facts.content().channels,
            names == topic_contents(topics@),
            facts.well_formed(),
            selected@ == channels_below(about, names, id as nat),
        decreases 65536 - id,
    {
        if let Some(channel) = facts.channel(id as u16) {
            if lists_topic(topics, channel.topic.as_str()) {
                selected.push(id as u16);
            }
        }
        id = id + 1;
    }
    selected
}

fn chunk_overlaps(chunk: &ChunkFact, selected: &Vec<u16>, start: u64, end: u64) -> (is: bool)
    ensures
        is == overlaps(chunk@, selected@, start, end),
{
    if chunk.message_end_time < start || chunk.message_start_time >= end {
        return false;
    }
    if selected.len() == 0 || chunk.message_index_offsets.len() == 0 {
        return true;
    }
    let mut index: usize = 0;
    while index < chunk.message_index_offsets.len()
        invariant
            index <= chunk.message_index_offsets@.len(),
            selected@.len() > 0,
            chunk.message_index_offsets@.len() > 0,
            chunk.message_end_time >= start,
            chunk.message_start_time < end,
            forall|i: int|
                0 <= i < index ==> !selected@.contains(
                    (#[trigger] chunk@.message_index_offsets[i]).0,
                ),
        decreases chunk.message_index_offsets@.len() - index,
    {
        assert(chunk@.message_index_offsets[index as int]
            == chunk.message_index_offsets@[index as int]);
        if is_selected(selected, chunk.message_index_offsets[index].0) {
            return true;
        }
        index = index + 1;
    }
    false
}

/// The chunks that a list of indexes stands for.
spec fn at(chunks: Seq<ChunkContent>, order: Seq<usize>) -> Seq<ChunkContent> {
    order.map_values(|index: usize| chunks[index as int])
}

fn order_chunks(chunks: &Vec<ChunkFact>, selected: &Vec<u16>, start: u64, end: u64) -> (order: Vec<
    usize,
>)
    ensures
        at(mcap_facts::chunk_contents(chunks@), order@) == chunks_to_read(
            mcap_facts::chunk_contents(chunks@),
            selected@,
            start,
            end,
        ),
        forall|i: int| 0 <= i < order@.len() ==> (#[trigger] order@[i]) < chunks@.len(),
{
    let ghost all = mcap_facts::chunk_contents(chunks@);
    let mut order: Vec<usize> = Vec::new();
    let mut index: usize = 0;
    proof {
        assert(all.take(0) =~= Seq::empty());
        assert(at(all, order@) =~= Seq::empty());
    }
    while index < chunks.len()
        invariant
            index <= chunks@.len(),
            all == mcap_facts::chunk_contents(chunks@),
            at(all, order@) == chunks_to_read(all.take(index as int), selected@, start, end),
            forall|i: int| 0 <= i < order@.len() ==> (#[trigger] order@[i]) < chunks@.len(),
        decreases chunks@.len() - index,
    {
        proof {
            assert(all[index as int] == chunks@[index as int]@);
            assert(all.take(index + 1).drop_last() =~= all.take(index as int));
        }
        if chunk_overlaps(&chunks[index], selected, start, end) {
            place_chunk(chunks, &mut order, index);
        }
        index = index + 1;
    }
    assert(all.take(all.len() as int) =~= all);
    order
}

fn place_chunk(chunks: &Vec<ChunkFact>, order: &mut Vec<usize>, index: usize)
    requires
        index < chunks@.len(),
        forall|i: int| 0 <= i < old(order)@.len() ==> (#[trigger] old(order)@[i]) < chunks@.len(),
    ensures
        forall|i: int|
            0 <= i < final(order)@.len() ==> (#[trigger] final(order)@[i]) < chunks@.len(),
        ({
            let all = mcap_facts::chunk_contents(chunks@);
            let earlier = at(all, old(order)@);
            at(all, final(order)@) == earlier.insert(
                chunk_place(earlier, all[index as int]),
                all[index as int],
            )
        }),
{
    let ghost all = mcap_facts::chunk_contents(chunks@);
    let ghost earlier = at(all, order@);
    let ghost chunk = all[index as int];
    let start: u64 = chunks[index].message_start_time;
    let offset: u64 = chunks[index].chunk_start_offset;
    let mut position: usize = order.len();
    proof {
        assert(chunk == chunks@[index as int]@);
        assert(earlier.take(earlier.len() as int) =~= earlier);
    }
    while position > 0
        invariant_except_break
            position <= order@.len(),
            chunk_place(earlier, chunk) == chunk_place(earlier.take(position as int), chunk),
        invariant
            all == mcap_facts::chunk_contents(chunks@),
            earlier == at(all, order@),
            order@ == old(order)@,
            chunk.message_start_time == start,
            chunk.chunk_start_offset == offset,
            forall|i: int| 0 <= i < order@.len() ==> (#[trigger] order@[i]) < chunks@.len(),
        ensures
            position <= order@.len(),
            chunk_place(earlier, chunk) == position,
        decreases position,
    {
        let before: usize = order[position - 1];
        proof {
            assert(earlier[position - 1] == chunks@[before as int]@);
            assert(earlier.take(position as int).drop_last() =~= earlier.take(position - 1));
        }
        if chunks[before].message_start_time < start || (chunks[before].message_start_time == start
            && chunks[before].chunk_start_offset <= offset) {
            break;
        }
        position = position - 1;
    }
    order.insert(position, index);
    assert(at(all, order@) =~= earlier.insert(position as int, chunk));
}

/// What a collector holds.
pub struct CollectorContent {
    pub pending: Seq<RequestContent>,
    pub selected: Seq<u16>,
    pub range: TimeRange,
    pub messages: Seq<RawContent>,
    pub resident_bytes: nat,
    pub decompressed_bytes: nat,
}

impl CollectorContent {
    /// A collector for a window of a file.
    pub open spec fn fresh(facts: FactsContent, topics: Seq<Seq<char>>, range: TimeRange) -> Result<
        Self,
        Seq<char>,
    > {
        if range.start.0 < 0 {
            Err("negative browser MCAP window start"@)
        } else if range.end_exclusive.0 < 0 {
            Err("negative browser MCAP window end"@)
        } else {
            let selected = channels_below(facts.channels, topics, 65536);
            match requests_for(
                chunks_to_read(
                    facts.chunks,
                    selected,
                    range.start.0 as u64,
                    range.end_exclusive.0 as u64,
                ),
            ) {
                Err(words) => Err(words),
                Ok(pending) => Ok(
                    CollectorContent {
                        pending,
                        selected,
                        range,
                        messages: Seq::empty(),
                        resident_bytes: 0,
                        decompressed_bytes: 0,
                    },
                ),
            }
        }
    }

    /// The collector with the messages of one more chunk. A chunk without messages for the window
    /// is not kept.
    pub open spec fn with_chunk(self, request: RequestContent, data: Seq<u8>) -> Result<
        Self,
        LoadFault,
    > {
        if data.len() != request.length {
            Err(LoadFault::Words("browser MCAP chunk range is truncated"@))
        } else {
            match backing_of(request, data) {
                Err(fault) => Err(fault),
                Ok((backing, count)) => if self.decompressed_bytes + count > usize::MAX {
                    Err(LoadFault::Words("decompressed byte count overflow"@))
                } else {
                    match messages_from(backing, self.selected, self.range, 0) {
                        Err(fault) => Err(fault),
                        Ok(messages) => {
                            let kept = if messages.len() == 0 {
                                0
                            } else {
                                backing.len()
                            };
                            if self.resident_bytes + kept > usize::MAX {
                                Err(LoadFault::Words("local resident byte count overflow"@))
                            } else {
                                Ok(
                                    CollectorContent {
                                        messages: self.messages + messages,
                                        resident_bytes: self.resident_bytes + kept,
                                        decompressed_bytes: self.decompressed_bytes + count,
                                        ..self
                                    },
                                )
                            }
                        },
                    }
                },
            }
        }
    }
}

impl CollectorContent {
    /// The collector once a chunk was refused: one that could be decompressed is counted.
    pub open spec fn refused(self, request: RequestContent, data: Seq<u8>) -> Self {
        match backing_of(request, data) {
            Ok((_, count)) => if data.len() == request.length && self.decompressed_bytes + count
                <= usize::MAX {
                CollectorContent { decompressed_bytes: self.decompressed_bytes + count, ..self }
            } else {
                self
            },
            Err(_) => self,
        }
    }
}

/// Collects the messages of a window, one chunk after the other.
#[derive(Debug)]
pub struct OwnedWindowCollector {
    pending_chunks: VecDeque<ChunkReadRequest>,
    selected_channels: Vec<u16>,
    range: TimeRange,
    messages: Vec<RawMessage>,
    resident_bytes: usize,
    decompressed_bytes: usize,
}

proof fn lemma_request_fault_stays(chunks: Seq<ChunkContent>, count: int)
    requires
        0 <= count <= chunks.len(),
        requests_for(chunks.take(count)) is Err,
    ensures
        requests_for(chunks) == requests_for(chunks.take(count)),
    decreases chunks.len() - count,
{
    if count < chunks.len() {
        assert(chunks.take(count + 1).drop_last() =~= chunks.take(count));
        lemma_request_fault_stays(chunks, count + 1);
    } else {
        assert(chunks.take(count) =~= chunks);
    }
}

fn request_chunks(chunks: &Vec<ChunkFact>, order: &Vec<usize>) -> (outcome: Result<
    VecDeque<ChunkReadRequest>,
    DataLoadError,
>)
    requires
        forall|i: int| 0 <= i < order@.len() ==> (#[trigger] order@[i]) < chunks@.len(),
    ensures
        ({
            let expected = requests_for(at(mcap_facts::chunk_contents(chunks@), order@));
            match outcome {
                Ok(requests) => expected == Ok::<Seq<RequestContent>, Seq<char>>(
                    request_contents(requests@),
                ),
                Err(error) => expected == Err::<Seq<RequestContent>, Seq<char>>(error@),
            }
        }),
{
    let ghost all = at(mcap_facts::chunk_contents(chunks@), order@);
    let mut requests: VecDeque<ChunkReadRequest> = VecDeque::new();
    let mut index: usize = 0;
    proof {
        assert(all.take(0) =~= Seq::empty());
        assert(request_contents(requests@) =~= Seq::empty());
    }
    while index < order.len()
        invariant
            index <= order@.len(),
            forall|i: int| 0 <= i < order@.len() ==> (#[trigger] order@[i]) < chunks@.len(),
            all == at(mcap_facts::chunk_contents(chunks@), order@),
            requests_for(all.take(index as int)) == Ok::<Seq<RequestContent>, Seq<char>>(
                request_contents(requests@),
            ),
        decreases order@.len() - index,
    {
        let chunk: usize = order[index];
        proof {
            assert(all[index as int] == chunks@[chunk as int]@);
            assert(all.take(index + 1).drop_last() =~= all.take(index as int));
        }
        match chunk_request(&chunks[chunk]) {
            Ok(request) => {
                let ghost before = requests@;
                let ghost added = request@;
                requests.push_back(request);
                assert(request_contents(requests@) =~= request_contents(before).push(added));
            },
            Err(error) => {
                proof {
                    lemma_request_fault_stays(all, index + 1);
                }
                return Err(error);
            },
        }
        index = index + 1;
    }
    assert(all.take(all.len() as int) =~= all);
    Ok(requests)
}

impl OwnedWindowCollector {
    pub closed spec fn content(&self) -> CollectorContent {
        CollectorContent {
            pending: request_contents(self.pending_chunks@),
            selected: self.selected_channels@,
            range: self.range,
            messages: raw::contents(self.messages@),
            resident_bytes: self.resident_bytes as nat,
            decompressed_bytes: self.decompressed_bytes as nat,
        }
    }

    /// Plans the reads for a window of the messages on some topics.
    pub fn new(facts: &SummaryFacts, topics: &[String], range: TimeRange) -> (outcome: Result<
        Self,
        DataLoadError,
    >)
        requires
            facts.well_formed(),
        ensures
            ({
                let expected = CollectorContent::fresh(
                    facts.content(),
                    topic_contents(topics@),
                    range,
                );
                match outcome {
                    Ok(collector) => expected == Ok::<CollectorContent, Seq<char>>(
                        collector.content(),
                    ),
                    Err(error) => expected == Err::<CollectorContent, Seq<char>>(error@),
                }
            }),
    {
        if range.start.0 < 0 {
            return Err(DataLoadError::new("negative browser MCAP window start".to_owned()));
        }
        if range.end_exclusive.0 < 0 {
            return Err(DataLoadError::new("negative browser MCAP window end".to_owned()));
        }
        let selected_channels: Vec<u16> = select_channels(facts, topics);
        let order: Vec<usize> = order_chunks(
            facts.chunks(),
            &selected_channels,
            range.start.0 as u64,
            range.end_exclusive.0 as u64,
        );
        let pending_chunks: VecDeque<ChunkReadRequest> = request_chunks(facts.chunks(), &order)?;
        let collector = OwnedWindowCollector {
            pending_chunks,
            selected_channels,
            range,
            messages: Vec::new(),
            resident_bytes: 0,
            decompressed_bytes: 0,
        };
        assert(collector.content().messages =~= Seq::empty());
        Ok(collector)
    }

    /// The next chunk to read.
    pub fn next_read(&mut self) -> (request: Option<ChunkReadRequest>)
        ensures
            match request {
                Some(request) => old(self).content().pending.len() > 0 && request@ == old(
                    self,
                ).content().pending[0] && final(self).content() == (CollectorContent {
                    pending: old(self).content().pending.drop_first(),
                    ..old(self).content()
                }),
                None => old(self).content().pending.len() == 0 && final(self).content() == old(
                    self,
                ).content(),
            },
    {
        let ghost before = self.pending_chunks@;
        let request: Option<ChunkReadRequest> = self.pending_chunks.pop_front();
        proof {
            if before.len() > 0 {
                assert(request_contents(self.pending_chunks@) =~= request_contents(
                    before,
                ).drop_first());
            } else {
                assert(request_contents(self.pending_chunks@) =~= request_contents(before));
            }
        }
        request
    }

    /// Adds the messages of a chunk that was read.
    pub fn insert_chunk(&mut self, request: &ChunkReadRequest, compressed: Bytes) -> (outcome: Result<
        (),
        DataLoadError,
    >)
        ensures
            ({
                let expected = old(self).content().with_chunk(
                    request@,
                    payload::content(compressed),
                );
                match outcome {
                    Ok(_) => expected == Ok::<CollectorContent, LoadFault>(final(self).content()),
                    Err(error) => (expected matches Err(fault) && says(error, fault)) && final(
                        self
                    ).content() == old(self).content().refused(
                        request@,
                        payload::content(compressed),
                    ),
                }
            }),
    {
        if byte_count(&compressed) != request.length {
            return Err(DataLoadError::new("browser MCAP chunk range is truncated".to_owned()));
        }
        let (backing, count): (Bytes, usize) = decode_chunk_backing(request, compressed)?;
        self.decompressed_bytes = match self.decompressed_bytes.checked_add(count) {
            Some(total) => total,
            None => return Err(
                DataLoadError::new("decompressed byte count overflow".to_owned()),
            ),
        };
        let parsed: ParsedChunk = parse_chunk_backing(
            backing,
            &self.selected_channels,
            self.range,
        )?;
        if parsed.messages.len() > 0 {
            self.resident_bytes = match self.resident_bytes.checked_add(
                byte_count(&parsed.backing),
            ) {
                Some(total) => total,
                None => return Err(
                    DataLoadError::new("local resident byte count overflow".to_owned()),
                ),
            };
        }
        let ghost before = self.messages@;
        let ghost more = parsed.messages@;
        let mut found: Vec<RawMessage> = parsed.messages;
        self.messages.append(&mut found);
        assert(raw::contents(self.messages@) =~= raw::contents(before) + raw::contents(more));
        Ok(())
    }

    /// How many bytes the collected messages keep resident.
    pub fn resident_bytes(&self) -> (count: usize)
        ensures
            count == self.content().resident_bytes,
    {
        self.resident_bytes
    }

    /// The window, with its messages in order.
    pub fn finish(self, diagnostics: WindowLoadDiagnostics) -> (outcome: Result<
        LoadedWindow,
        DataLoadError,
    >)
        ensures
            ({
                let sorted = raw::time_sorted(self.content().messages);
                let fault = data_window::window_fault(
                    self.content().range,
                    sorted,
                    sorted.len() as int,
                );
                match outcome {
                    Ok(loaded) => {
                        &&& fault is None
                        &&& loaded.window.range == self.content().range
                        &&& raw::contents(loaded.window.messages@) == sorted
                        &&& loaded.window.resident_bytes == self.content().resident_bytes
                        &&& loaded.diagnostics == (WindowLoadDiagnostics {
                            decompressed_bytes: self.content().decompressed_bytes as usize,
                            per_message_copied_bytes: 0,
                            ..diagnostics
                        })
                    },
                    Err(error) => fault matches Some(reason) && error@ == reason.spec_message(),
                }
            }),
    {
        let sorted: Vec<RawMessage> = sort_by_time(self.messages);
        let report = WindowLoadDiagnostics {
            decompressed_bytes: self.decompressed_bytes,
            per_message_copied_bytes: 0,
            ..diagnostics
        };
        match SerializedWindow::new(self.range, sorted, self.resident_bytes) {
            Ok(window) => Ok(LoadedWindow { window, diagnostics: report }),
            Err(error) => Err(DataLoadError::new(error.message())),
        }
    }
}

/// Every message that a collector finds lies in its window and belongs to a selected channel.
pub proof fn law_collected_messages_belong_to_the_window(
    bytes: Seq<u8>,
    selected: Seq<u16>,
    range: TimeRange,
    offset: int,
)
    ensures
        messages_from(bytes, selected, range, offset) matches Ok(messages) ==> forall|i: int|
            0 <= i < messages.len() ==> range.spec_contains(
                (#[trigger] messages[i]).arrival_time,
            ) && messages[i].stream_id.0 < 65536 && selects(
                selected,
                messages[i].stream_id.0 as u16,
            ),
    decreases bytes.len() - offset,
{
    if 0 <= offset && offset + 9 <= bytes.len() {
        let length = common::word64(bytes, offset + 1, Endian::Little);
        let end = offset + 9 + length;
        if end <= bytes.len() {
            law_collected_messages_belong_to_the_window(bytes, selected, range, end);
            if let Ok(messages) = messages_from(bytes, selected, range, offset) {
                let rest = messages_from(bytes, selected, range, end)->Ok_0;
                assert forall|i: int| 0 <= i < messages.len() implies range.spec_contains(
                    (#[trigger] messages[i]).arrival_time,
                ) && messages[i].stream_id.0 < 65536 && selects(
                    selected,
                    messages[i].stream_id.0 as u16,
                ) by {
                    if messages.len() == rest.len() {
                        assert(messages[i] == rest[i]);
                    } else if i > 0 {
                        assert(messages[i] == rest[i - 1]);
                    }
                }
            }
        }
    }
}

proof fn lemma_place_in_range(chunks: Seq<ChunkContent>, chunk: ChunkContent)
    ensures
        0 <= chunk_place(chunks, chunk) <= chunks.len(),
    decreases chunks.len(),
{
    if chunks.len() > 0 {
        lemma_place_in_range(chunks.drop_last(), chunk);
    }
}

/// Of a file, a window takes the chunks that may hold its messages and no others, each once.
pub proof fn law_only_needed_chunks_are_read(
    chunks: Seq<ChunkContent>,
    selected: Seq<u16>,
    start: u64,
    end: u64,
)
    ensures
        chunks_to_read(chunks, selected, start, end).to_multiset() == chunks.filter(
            |chunk: ChunkContent| overlaps(chunk, selected, start, end),
        ).to_multiset(),
    decreases chunks.len(),
{
    let needed = |chunk: ChunkContent| overlaps(chunk, selected, start, end);
    reveal(Seq::filter);
    broadcast use vstd::seq_lib::group_to_multiset_ensures;

    if chunks.len() > 0 {
        let rest = chunks.drop_last();
        law_only_needed_chunks_are_read(rest, selected, start, end);
        let earlier = chunks_to_read(rest, selected, start, end);
        let place = chunk_place(earlier, chunks.last());
        if needed(chunks.last()) {
            lemma_place_in_range(earlier, chunks.last());
            vstd::seq_lib::to_multiset_insert(earlier, place, chunks.last());
            assert(chunks.filter(needed) == rest.filter(needed).push(chunks.last()));
        } else {
            assert(chunks.filter(needed) == rest.filter(needed));
        }
    }
}

/// A message record gives its message: behind the opcode and the length stand the channel, a number,
/// the time at which it was logged and another time, the lowest byte of each first, and then the
/// payload. It is taken where its channel is wanted and its time lies in the range.
#[verifier::rlimit(60)]
pub proof fn law_message_records_give_their_message(
    bytes: Seq<u8>,
    selected: Seq<u16>,
    range: TimeRange,
    offset: int,
    length: int,
    channel: u16,
    time: i64,
)
    requires
        0 <= offset,
        22 <= length,
        offset + 9 + length <= bytes.len() <= usize::MAX,
        bytes[offset] == 5,
        length == common::word64(bytes, offset + 1, Endian::Little),
        channel == bytes[offset + 9] + 256 * bytes[offset + 10],
        0 <= time,
        time == common::word64(bytes, offset + 15, Endian::Little),
        messages_from(bytes, selected, range, offset + 9 + length) is Ok,
    ensures
        ({
            let rest = messages_from(bytes, selected, range, offset + 9 + length)->Ok_0;
            let read = messages_from(bytes, selected, range, offset);
            let wanted = (selected.len() == 0 || selected.contains(channel)) && range.start.0 <= time
                < range.end_exclusive.0;
            &&& read is Ok
            &&& !wanted ==> read->Ok_0 == rest
            &&& wanted ==> {
                &&& read->Ok_0.len() == rest.len() + 1
                &&& read->Ok_0[0].stream_id.0 == channel
                &&& read->Ok_0[0].arrival_time.0 == time
                &&& read->Ok_0[0].payload == bytes.subrange(offset + 31, offset + 9 + length)
                &&& read->Ok_0.drop_first() == rest
            }
        }),
{
    let end = offset + 9 + length;
    let body = bytes.subrange(offset + 9, end);
    assert(body[0] == bytes[offset + 9] && body[1] == bytes[offset + 10]);
    assert forall|i: int| 6 <= i < 14 implies body[i] == bytes[offset + 9 + i] by {}
    assert(common::word64(body, 6, Endian::Little) == common::word64(
        bytes,
        offset + 15,
        Endian::Little,
    ));
    let rest = messages_from(bytes, selected, range, end)->Ok_0;
    let read = messages_from(bytes, selected, range, offset)->Ok_0;
    if read.len() == rest.len() + 1 {
        assert(read.drop_first() =~= rest);
    }
}

/// The data of a chunk is asked for behind the header of its record: an opcode and a length, two times,
/// a size, a checksum, the name of the compression behind its length, and the length of the data.
pub proof fn law_requests_lie_behind_the_header(chunk: ChunkContent, request: ChunkReadRequest)
    requires
        request_for(chunk) == Ok::<RequestContent, Seq<char>>(request@),
    ensures
        request.offset == chunk.chunk_start_offset + (1 + 8) + (8 + 8) + 8 + 4 + (4 + encode_utf8(
            chunk.compression,
        ).len()) + 8,
        request.length == chunk.compressed_size,
        request.compression@ == chunk.compression,
        request.uncompressed_size == chunk.uncompressed_size,
{
}

/// No chunk that may hold a message of a window is passed over, and none is read that lies wholly before
/// or behind it.
pub proof fn law_needed_chunks_are_not_passed_over(
    chunk: ChunkContent,
    selected: Seq<u16>,
    start: u64,
    end: u64,
    time: u64,
    place: int,
)
    ensures
        chunk.message_start_time <= time <= chunk.message_end_time && start <= time < end && (
        selected.len() == 0 || chunk.message_index_offsets.len() == 0 || 0 <= place
            < chunk.message_index_offsets.len() && selected.contains(
            chunk.message_index_offsets[place].0,
        )) ==> overlaps(chunk, selected, start, end),
        chunk.message_end_time < start || chunk.message_start_time >= end ==> !overlaps(
            chunk,
            selected,
            start,
            end,
        ),
        selected.len() > 0 && chunk.message_index_offsets.len() > 0 && (forall|i: int|
            0 <= i < chunk.message_index_offsets.len() ==> !selected.contains(
                (#[trigger] chunk.message_index_offsets[i]).0,
            )) ==> !overlaps(chunk, selected, start, end),
{
}

/// Chunks are read in order of their first messages, and those that start together in the order of the
/// file.
pub proof fn law_chunks_are_read_in_order(
    chunks: Seq<ChunkContent>,
    selected: Seq<u16>,
    start: u64,
    end: u64,
    first: int,
    second: int,
)
    requires
        0 <= first < second < chunks_to_read(chunks, selected, start, end).len(),
    ensures
        ({
            let read = chunks_to_read(chunks, selected, start, end);
            &&& read[first].message_start_time <= read[second].message_start_time
            &&& read[first].message_start_time == read[second].message_start_time
                ==> read[first].chunk_start_offset <= read[second].chunk_start_offset
        }),
{
    lemma_read_in_order(chunks, selected, start, end);
    let read = chunks_to_read(chunks, selected, start, end);
    assert(chunk_not_after(read[first], read[second]));
}

spec fn chunks_ordered(chunks: Seq<ChunkContent>) -> bool {
    forall|i: int, j: int|
        0 <= i <= j < chunks.len() ==> chunk_not_after(#[trigger] chunks[i], #[trigger] chunks[j])
}

#[verifier::rlimit(60)]
proof fn lemma_read_in_order(
    chunks: Seq<ChunkContent>,
    selected: Seq<u16>,
    start: u64,
    end: u64,
)
    ensures
        chunks_ordered(chunks_to_read(chunks, selected, start, end)),
    decreases chunks.len(),
{
    if chunks.len() > 0 {
        let earlier = chunks_to_read(chunks.drop_last(), selected, start, end);
        let last = chunks.last();
        lemma_read_in_order(chunks.drop_last(), selected, start, end);
        if overlaps(last, selected, start, end) {
            let place = chunk_place(earlier, last);
            let all = earlier.insert(place, last);
            lemma_chunk_place(earlier, last);
            assert forall|i: int, j: int| 0 <= i <= j < all.len() implies chunk_not_after(
                #[trigger] all[i],
                #[trigger] all[j],
            ) by {
                if i < place && j < place {
                    assert(chunk_not_after(earlier[i], earlier[j]));
                } else if i < place && j == place {
                    assert(chunk_not_after(earlier[i], last));
                } else if i < place {
                    assert(chunk_not_after(earlier[i], earlier[j - 1]));
                } else if i == place && j > place {
                    assert(!chunk_not_after(earlier[j - 1], last));
                } else if i > place {
                    assert(chunk_not_after(earlier[i - 1], earlier[j - 1]));
                }
            }
        }
    }
}

proof fn lemma_chunk_place(chunks: Seq<ChunkContent>, chunk: ChunkContent)
    requires
        chunks_ordered(chunks),
    ensures
        0 <= chunk_place(chunks, chunk) <= chunks.len(),
        forall|i: int|
            0 <= i < chunk_place(chunks, chunk) ==> chunk_not_after(#[trigger] chunks[i], chunk),
        forall|i: int|
            chunk_place(chunks, chunk) <= i < chunks.len() ==> !chunk_not_after(
                #[trigger] chunks[i],
                chunk,
            ),
    decreases chunks.len(),
{
    if chunks.len() > 0 {
        let front = chunks.drop_last();
        if chunk_not_after(chunks.last(), chunk) {
            assert forall|i: int| 0 <= i < chunks.len() implies chunk_not_after(
                #[trigger] chunks[i],
                chunk,
            ) by {
                assert(chunk_not_after(chunks[i], chunks[chunks.len() - 1]));
            }
        } else {
            assert forall|i: int, j: int| 0 <= i <= j < front.len() implies chunk_not_after(
                #[trigger] front[i],
                #[trigger] front[j],
            ) by {
                assert(chunk_not_after(chunks[i], chunks[j]));
            }
            lemma_chunk_place(front, chunk);
            assert forall|i: int| 0 <= i < chunk_place(chunks, chunk) implies chunk_not_after(
                #[trigger] chunks[i],
                chunk,
            ) by {
                assert(front[i] == chunks[i]);
            }
            assert forall|i: int|
                chunk_place(chunks, chunk) <= i < chunks.len() implies !chunk_not_after(
                #[trigger] chunks[i],
                chunk,
            ) by {
                if i < front.len() {
                    assert(front[i] == chunks[i]);
                }
            }
        }
    }
}

} // verus!

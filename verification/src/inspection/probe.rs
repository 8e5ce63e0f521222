//! One message of a recording, found through its index and decoded.

use crate::feature::camera::CameraId;
use crate::feature::domain::{self, DomainPipelineSet, DomainState, DomainUpdate};
use crate::feature::id_map;
use crate::inspection::ranges::{
    self, resolve_seek, validate_range, ParseFault,
};
use crate::message::payload;
use crate::message::text::{self, push_decimal, same_text};
use crate::message::time::ArrivalTime;
use crate::recording::local_catalog::{self, chunk_span, FactsContent, SummaryFacts};
use crate::recording::local_reads::{self, SeekTarget, SummaryPlace};
use crate::recording::local_window::{self, data_start, ByteRange};
use crate::recording::mcap_facts::{self, ChannelContent, ChannelFact, ChunkContent, ChunkFact};
use crate::recording::mcap_source;
use crate::recording::raw::{RawContent, RawMessage, StreamId};
use crate::recording::session::{
    self, DomainRoute, DomainTarget, StreamContent, StreamDescriptor, StreamTimingSummary,
};
use bytes::Bytes;
use vstd::prelude::*;
use vstd::string::*;

verus! {

/// The topic of the vehicle's odometry.
pub const ODOM_TOPIC: &'static str = "/odom";

/// The schema of camera images.
pub const IMAGE_SCHEMA: &'static str = "sensor_msgs/msg/CompressedImage";

/// How many ranges of a file were asked for, and how many bytes.
#[derive(Clone, Copy, Debug, Eq, PartialEq, Structural)]
pub struct ReadMetrics {
    pub total_bytes_requested: u64,
    pub range_reads: u32,
}

impl Default for ReadMetrics {
    fn default() -> (metrics: Self)
        ensures
            metrics == (ReadMetrics { total_bytes_requested: 0, range_reads: 0 }),
    {
        ReadMetrics { total_bytes_requested: 0, range_reads: 0 }
    }
}

impl ReadMetrics {
    /// Why a range is not read, if it is not.
    pub open spec fn refusal(self, file_size: u64, requested: ByteRange) -> Option<Seq<char>> {
        match ranges::range_fault(file_size, requested.offset, requested.length) {
            Some(fault) => Some(fault.words()),
            None => if requested.length > u32::MAX {
                Some(
                    "range length "@ + text::decimal(requested.length as nat)
                        + " exceeds Uint8Array addressable length"@,
                )
            } else if self.total_bytes_requested + requested.length > u64::MAX {
                Some("total requested byte counter overflow"@)
            } else {
                None
            },
        }
    }

    /// The counts once a range was asked for. One that cannot be asked for is not counted; one that
    /// only the byte counter refuses counts as a read.
    pub open spec fn counted(self, file_size: u64, requested: ByteRange) -> Self {
        if ranges::range_fault(file_size, requested.offset, requested.length) is Some
            || requested.length == 0 || requested.length > u32::MAX {
            self
        } else {
            ReadMetrics {
                range_reads: if self.range_reads == u32::MAX {
                    u32::MAX
                } else {
                    (self.range_reads + 1) as u32
                },
                total_bytes_requested: if self.total_bytes_requested + requested.length
                    > u64::MAX {
                    self.total_bytes_requested
                } else {
                    (self.total_bytes_requested + requested.length) as u64
                },
            }
        }
    }

    /// Counts a range that is about to be read. Nothing is to be read of an empty one.
    pub fn begin_read(&mut self, file_size: u64, requested: ByteRange) -> (outcome: Result<
        Option<ByteRange>,
        String,
    >)
        ensures
            *final(self) == old(self).counted(file_size, requested),
            match outcome {
                Ok(range) => old(self).refusal(file_size, requested) is None && range == (
                if requested.length == 0 {
                    None
                } else {
                    Some(requested)
                }),
                Err(words) => old(self).refusal(file_size, requested) == Some(words@),
            },
    {
        let range: ByteRange = match validate_range(
            file_size,
            requested.offset,
            requested.length,
        ) {
            Ok(range) => range,
            Err(error) => return Err(error.message()),
        };
        if range.length == 0 {
            return Ok(None);
        }
        if range.length > u32::MAX as usize {
            let mut words: String = "range length ".to_owned();
            push_decimal(&mut words, range.length as u64);
            words.append(" exceeds Uint8Array addressable length");
            return Err(words);
        }
        if self.range_reads < u32::MAX {
            self.range_reads = self.range_reads + 1;
        }
        match self.total_bytes_requested.checked_add(range.length as u64) {
            Some(total) => {
                self.total_bytes_requested = total;
            },
            None => return Err("total requested byte counter overflow".to_owned()),
        }
        Ok(Some(range))
    }
}

/// Refuses a read that brought less or more than was asked for.
pub fn check_read(requested: usize, received: usize) -> (outcome: Result<(), String>)
    ensures
        match outcome {
            Ok(_) => received == requested,
            Err(words) => received != requested && words@ == "short range read: requested "@
                + text::decimal(requested as nat) + ", received "@ + text::decimal(received as nat),
        },
{
    if received == requested {
        return Ok(());
    }
    let mut words: String = "short range read: requested ".to_owned();
    push_decimal(&mut words, requested as u64);
    words.append(", received ");
    push_decimal(&mut words, received as u64);
    Err(words)
}

/// The reads of the summary section for a probe.
#[derive(Clone, Copy, Debug, Eq, PartialEq, Structural)]
pub struct SummaryCursor {
    pub place: SummaryPlace,
}

impl SummaryCursor {
    /// The start of a file.
    pub fn new(file_size: u64) -> (cursor: Self)
        ensures
            cursor.place == (SummaryPlace { file_size, position: 0, seek_count: 0 }),
    {
        SummaryCursor { place: SummaryPlace::new(file_size) }
    }

    /// Goes where the reader asks to go.
    pub fn seek(&mut self, target: SeekTarget) -> (outcome: Result<u64, String>)
        ensures
            ({
                let before = old(self).place;
                let place = local_reads::sought(before.file_size, before.position, target);
                match outcome {
                    Ok(position) => {
                        &&& 0 <= place <= before.file_size
                        &&& position == place
                        &&& final(self).place == before.led_to(position)
                    },
                    Err(words) => {
                        &&& final(self).place == before
                        &&& !(0 <= place <= before.file_size)
                        &&& words@ == (ParseFault::RangeOutsideFile {
                            offset: if 0 <= place <= u64::MAX {
                                place as u64
                            } else {
                                before.position
                            },
                            length: 0,
                            file_size: before.file_size,
                        }).words()
                    },
                }
            }),
    {
        match resolve_seek(self.place.file_size, self.place.position, target) {
            Ok(position) => {
                self.place.lead_to(position);
                Ok(position)
            },
            Err(error) => Err(error.message()),
        }
    }

    /// The range to read for a reader that needs so many bytes.
    pub fn read_range(&self, need: usize) -> (outcome: Result<ByteRange, String>)
        ensures
            ({
                let length = local_reads::read_size(self.place, need);
                let fault = ranges::range_fault(
                    self.place.file_size,
                    self.place.position,
                    length,
                );
                match outcome {
                    Ok(range) => fault is None && range == (ByteRange {
                        offset: self.place.position,
                        length,
                    }),
                    Err(words) => fault matches Some(fault) && words@ == fault.words(),
                }
            }),
    {
        match validate_range(
            self.place.file_size,
            self.place.position,
            self.place.length_for(need),
        ) {
            Ok(range) => Ok(range),
            Err(error) => Err(error.message()),
        }
    }

    /// Goes on behind the bytes that were read.
    pub fn advance(&mut self, count: usize) -> (outcome: Result<(), String>)
        ensures
            match outcome {
                Ok(_) => old(self).place.position + count <= u64::MAX && final(self).place == (
                SummaryPlace {
                    position: (old(self).place.position + count) as u64,
                    ..old(self).place
                }),
                Err(words) => {
                    &&& old(self).place.position + count > u64::MAX
                    &&& final(self).place == old(self).place
                    &&& words@ == "SummaryReader position overflow"@
                },
            },
    {
        if self.place.move_on(count) {
            Ok(())
        } else {
            Err("SummaryReader position overflow".to_owned())
        }
    }
}

/// What a message became.
#[derive(Clone, Copy, Debug, Eq, PartialEq, Structural)]
pub struct PipelineProbeResult {
    pub domain: ProbeDomain,
    pub arrival_time: ArrivalTime,
}

/// The domains that a message is tried on.
#[derive(Clone, Copy, Debug, Eq, PartialEq, Structural)]
pub enum ProbeDomain {
    Odometry,
    Camera,
}

impl ProbeDomain {
    pub open spec fn spec_name(self) -> Seq<char> {
        match self {
            ProbeDomain::Odometry => "odometry"@,
            ProbeDomain::Camera => "camera"@,
        }
    }

    pub fn name(self) -> (name: &'static str)
        ensures
            name@ == self.spec_name(),
    {
        match self {
            ProbeDomain::Odometry => "odometry",
            ProbeDomain::Camera => "camera",
        }
    }

    pub open spec fn spec_target(self) -> DomainTarget {
        match self {
            ProbeDomain::Odometry => DomainTarget::Telemetry,
            ProbeDomain::Camera => DomainTarget::Camera(CameraId(0)),
        }
    }

    fn target(self) -> (target: DomainTarget)
        ensures
            target == self.spec_target(),
    {
        match self {
            ProbeDomain::Odometry => DomainTarget::Telemetry,
            ProbeDomain::Camera => DomainTarget::Camera(CameraId(0)),
        }
    }
}

/// The domain of a channel: odometry by its topic, a camera by its schema.
pub open spec fn domain_of(channel: ChannelContent) -> Option<ProbeDomain> {
    if channel.topic == "/odom"@ {
        Some(ProbeDomain::Odometry)
    } else if channel.schema == "sensor_msgs/msg/CompressedImage"@ {
        Some(ProbeDomain::Camera)
    } else {
        None
    }
}

/// The stream of a channel.
pub open spec fn stream_of(id: u16, channel: ChannelContent) -> StreamContent {
    StreamContent {
        id: StreamId(id as u32),
        topic: channel.topic,
        schema: channel.schema,
        message_encoding: channel.message_encoding,
        timing: StreamTimingSummary { message_count: None },
    }
}

/// The words for a message that was not decoded.
pub open spec fn not_decoded(errors: nat) -> Seq<char> {
    "pipeline did not decode exactly one message: decoded=0 errors="@ + text::decimal(errors)
        + " updates=0"@
}

/// What a message of a channel becomes.
pub open spec fn fed(
    channels: Map<u16, ChannelContent>,
    channel_id: u16,
    log_time: u64,
    data: Seq<u8>,
    topic: Seq<char>,
) -> Result<PipelineProbeResult, Seq<char>> {
    let channel = channels[channel_id];
    if !channels.contains_key(channel_id) {
        Err("message references unknown channel "@ + text::decimal(channel_id as nat))
    } else if channel.topic != topic {
        Err("topic filter yielded "@ + channel.topic + ", expected "@ + topic)
    } else {
        match domain_of(channel) {
            None => Err(
                "spike only routes odometry or compressed camera data, got "@ + topic + " ("@
                    + channel.schema + ")"@,
            ),
            Some(probed) => match mcap_source::arrival_of(log_time) {
                None => Err("message log time exceeds ArrivalTime"@),
                Some(arrival_time) => if !probed.spec_target().spec_accepts(
                    stream_of(channel_id, channel),
                ) {
                    Err(not_decoded(0))
                } else if domain::update_in(
                    probed.spec_target(),
                    RawContent {
                        stream_id: StreamId(channel_id as u32),
                        arrival_time,
                        payload: data,
                    },
                ) is Err {
                    Err(not_decoded(1))
                } else {
                    Ok(PipelineProbeResult { domain: probed, arrival_time })
                },
            },
        }
    }
}

fn probe_domain(channel: &ChannelFact) -> (found: Option<ProbeDomain>)
    ensures
        found == domain_of(channel@),
{
    if same_text(channel.topic.as_str(), ODOM_TOPIC) {
        Some(ProbeDomain::Odometry)
    } else if same_text(channel.schema.as_str(), IMAGE_SCHEMA) {
        Some(ProbeDomain::Camera)
    } else {
        None
    }
}

fn words_for_undecoded(errors: u64) -> (words: String)
    ensures
        words@ == not_decoded(errors as nat),
{
    let mut words: String =
        "pipeline did not decode exactly one message: decoded=0 errors=".to_owned();
    push_decimal(&mut words, errors);
    words.append(" updates=0");
    words
}

fn shows(probed: ProbeDomain, state: &DomainState, arrival_time: ArrivalTime) -> (shown: bool)
    requires
        state.well_formed(),
    ensures
        shown == (match probed {
            ProbeDomain::Odometry => state.content().telemetry.latest matches Some(frame)
                && frame.arrival_time == arrival_time,
            ProbeDomain::Camera => id_map::lookup(state.content().camera.latest, 0) matches Some(
                frame,
            ) && frame.arrival_time == arrival_time,
        }),
{
    match probed {
        ProbeDomain::Odometry => match state.telemetry.latest() {
            Some(frame) => frame.arrival_time == arrival_time,
            None => false,
        },
        ProbeDomain::Camera => match state.camera.latest_for(CameraId(0)) {
            Some(frame) => frame.arrival_time == arrival_time,
            None => false,
        },
    }
}

/// Decodes a message of a file and applies it to a fresh state.
pub fn feed_pipeline(
    facts: &SummaryFacts,
    channel_id: u16,
    log_time: u64,
    data: Bytes,
    topic: &str,
) -> (outcome: Result<PipelineProbeResult, String>)
    requires
        facts.well_formed(),
    ensures
        ({
            let result = fed(
                facts.content().channels,
                channel_id,
                log_time,
                payload::content(data),
                topic@,
            );
            match outcome {
                Ok(found) => result == Ok::<PipelineProbeResult, Seq<char>>(found),
                Err(words) => result == Err::<PipelineProbeResult, Seq<char>>(words@),
            }
        }),
{
    let channel: &ChannelFact = match facts.channel(channel_id) {
        Some(channel) => channel,
        None => {
            let mut words: String = "message references unknown channel ".to_owned();
            push_decimal(&mut words, channel_id as u64);
            return Err(words);
        },
    };
    if !same_text(channel.topic.as_str(), topic) {
        let mut words: String = "topic filter yielded ".to_owned();
        words.append(channel.topic.as_str());
        words.append(", expected ");
        words.append(topic);
        return Err(words);
    }
    let probed: ProbeDomain = match probe_domain(channel) {
        Some(probed) => probed,
        None => {
            let mut words: String =
                "spike only routes odometry or compressed camera data, got ".to_owned();
            words.append(topic);
            words.append(" (");
            words.append(channel.schema.as_str());
            words.append(")");
            return Err(words);
        },
    };
    if log_time > i64::MAX as u64 {
        return Err("message log time exceeds ArrivalTime".to_owned());
    }
    let arrival_time: ArrivalTime = ArrivalTime(log_time as i64);
    let stream_id: StreamId = StreamId(channel_id as u32);
    let route: DomainRoute = DomainRoute {
        stream: StreamDescriptor {
            id: stream_id,
            topic: channel.topic.clone(),
            schema: channel.schema.clone(),
            message_encoding: channel.message_encoding.clone(),
            timing: StreamTimingSummary { message_count: None },
        },
        target: probed.target(),
    };
    let routes: [DomainRoute; 1] = [route];
    let mut pipelines: DomainPipelineSet = match DomainPipelineSet::from_routes(
        routes.as_slice(),
    ) {
        Ok(pipelines) => pipelines,
        Err(_) => {
            proof {
                let all = session::route_contents(routes@);
                assert(all[0] == routes@[0]@);
                assert(all[0].stream == stream_of(channel_id, channel@));
                assert(domain::first_unreadable(all.drop_first()) is None);
            }
            return Err(words_for_undecoded(0));
        },
    };
    proof {
        let all = session::route_contents(routes@);
        assert(all[0] == routes@[0]@);
        assert(all.drop_last() =~= Seq::empty());
        assert(domain::targets_of(Seq::empty()) =~= Seq::empty());
        id_map::lemma_inserted(
            Seq::<(i64, DomainTarget)>::empty(),
            stream_id.0 as i64,
            probed.spec_target(),
        );
    }
    let message: RawMessage = RawMessage { stream_id, arrival_time, payload: data };
    let update: DomainUpdate = match pipelines.decode_one(message) {
        Some(update) => update,
        None => return Err(words_for_undecoded(pipelines.counters().errors)),
    };
    let mut state: DomainState = DomainState::default();
    proof {
        if let domain::UpdateContent::Camera(frame) = update@ {
            id_map::lemma_inserted(
                state.content().camera.latest,
                frame.camera_id.0 as i64,
                frame,
            );
        }
    }
    state.apply(update);
    if !shows(probed, &state, arrival_time) {
        let mut words: String = probed.name().to_owned();
        words.append(" PipelineSet did not update DomainState");
        return Err(words);
    }
    Ok(PipelineProbeResult { domain: probed, arrival_time })
}

/// The first chunk that was asked for.
#[derive(Clone, Copy, Debug, Eq, PartialEq, Structural)]
pub struct ProbedChunk {
    pub data_range: ByteRange,
    pub chunk_start_offset: u64,
    pub message_index_length: u64,
}

/// What a probe knows.
pub struct ProbeContent {
    pub facts: FactsContent,
    pub file_size: u64,
    pub channel: u16,
    pub topic: Seq<char>,
    pub log_time: u64,
    pub first_chunk: Option<ProbedChunk>,
    pub offsets_match: bool,
    pub lists_topic: bool,
}

/// The first chunk whose data starts at an offset.
pub open spec fn chunk_at(chunks: Seq<ChunkContent>, offset: u64) -> Option<ChunkContent>
    decreases chunks.len(),
{
    if chunks.len() == 0 {
        None
    } else if local_window::data_offset(chunks[0]) == offset {
        Some(chunks[0])
    } else {
        chunk_at(chunks.drop_first(), offset)
    }
}

/// The time in the middle of a recording.
pub open spec fn middle(facts: FactsContent) -> Option<u64> {
    let range = match facts.span {
        Some(span) => Some((span.start, span.end)),
        None => if facts.chunks.len() == 0 {
            None
        } else {
            Some((local_catalog::earliest(facts.chunks), local_catalog::latest(facts.chunks)))
        },
    };
    match range {
        None => None,
        Some((start, end)) => if end <= start {
            Some(start)
        } else {
            Some((start + (end - start) / 2) as u64)
        },
    }
}

/// The file has a channel of the domain.
pub open spec fn has_domain(channels: Map<u16, ChannelContent>, probed: ProbeDomain) -> bool {
    exists|id: u16| #[trigger]
        channels.contains_key(id) && domain_of(channels[id]) == Some(probed)
}

/// The channel may be probed: one of odometry, or of a camera where there is no odometry.
pub open spec fn probes(channels: Map<u16, ChannelContent>, channel: u16) -> bool {
    &&& channels.contains_key(channel)
    &&& if has_domain(channels, ProbeDomain::Odometry) {
        domain_of(channels[channel]) == Some(ProbeDomain::Odometry)
    } else {
        domain_of(channels[channel]) == Some(ProbeDomain::Camera)
    }
}

impl ProbeContent {
    /// Why a chunk cannot be read, if it cannot.
    pub open spec fn chunk_refusal(self, offset: u64, length: usize) -> Option<Seq<char>> {
        match ranges::range_fault(self.file_size, offset, length) {
            Some(fault) => Some(fault.words()),
            None => if chunk_at(self.facts.chunks, offset) is None {
                Some(
                    "IndexedReader requested unknown chunk data offset "@ + text::decimal(
                        offset as nat,
                    ),
                )
            } else {
                None
            },
        }
    }

    /// The probe once a chunk was asked for.
    pub open spec fn with_chunk(self, offset: u64, length: usize) -> Self {
        match chunk_at(self.facts.chunks, offset) {
            None => self,
            Some(chunk) => ProbeContent {
                first_chunk: match self.first_chunk {
                    Some(first) => Some(first),
                    None => Some(
                        ProbedChunk {
                            data_range: ByteRange { offset, length },
                            chunk_start_offset: chunk.chunk_start_offset,
                            message_index_length: chunk.message_index_length,
                        },
                    ),
                },
                offsets_match: self.offsets_match && chunk.compressed_size == length,
                lists_topic: self.lists_topic || chunk.indexes(self.channel as int),
                ..self
            },
        }
    }

    /// What the probe found in the message that the index led to.
    pub open spec fn found(self, channel: u16, log_time: u64, data: Seq<u8>) -> Result<
        (ProbedChunk, PipelineProbeResult),
        Seq<char>,
    > {
        if log_time < self.log_time {
            Err(
                "IndexedReader yielded "@ + text::decimal(log_time as nat) + " before seek "@
                    + text::decimal(self.log_time as nat),
            )
        } else {
            match fed(self.facts.channels, channel, log_time, data, self.topic) {
                Err(words) => Err(words),
                Ok(result) => match self.first_chunk {
                    None => Err("IndexedReader yielded a message without a chunk read"@),
                    Some(first) => Ok((first, result)),
                },
            }
        }
    }
}

/// What a probe found.
#[derive(Debug)]
pub struct IndexedProbeReport {
    pub target_topic: String,
    pub target_log_time: u64,
    pub message_log_time: u64,
    pub chunk_data_range: ByteRange,
    pub chunk_start_offset: u64,
    pub message_index_length: u64,
    pub message_index_lists_topic: bool,
    pub topic_filter_matched: bool,
    pub absolute_offset_matched: bool,
    pub pipeline: PipelineProbeResult,
    pub summary_range_reads: u32,
    pub summary_bytes_requested: u64,
}

/// A search for one message in the middle of a recording. It says what to read, is told what the
/// reader of the index asks for, and judges the message that comes.
pub struct IndexedProbe {
    facts: SummaryFacts,
    file_size: u64,
    channel: u16,
    topic: String,
    log_time: u64,
    first_chunk: Option<ProbedChunk>,
    offsets_match: bool,
    lists_topic: bool,
    summary_reads: ReadMetrics,
}

fn find_domain(facts: &SummaryFacts, probed: ProbeDomain) -> (channel: Option<&ChannelFact>)
    requires
        facts.well_formed(),
    ensures
        match channel {
            Some(channel) => facts.content().channels.contains_key(channel.id)
                && facts.content().channels[channel.id] == channel@ && domain_of(channel@) == Some(
                probed,
            ),
            None => !has_domain(facts.content().channels, probed),
        },
{
    let channels: &Vec<ChannelFact> = facts.channels();
    let mut index: usize = 0;
    while index < channels.len()
        invariant
            index <= channels@.len(),
            mcap_facts::lists_channels(channels@, facts.content().channels),
            forall|i: int|
                0 <= i < index ==> domain_of((#[trigger] channels@[i])@) != Some(probed),
        decreases channels@.len() - index,
    {
        let found: Option<ProbeDomain> = probe_domain(&channels[index]);
        if let Some(found) = found {
            if found == probed {
                return Some(&channels[index]);
            }
        }
        index = index + 1;
    }
    proof {
        let all = facts.content().channels;
        assert forall|id: u16| #[trigger] all.contains_key(id) implies domain_of(all[id]) != Some(
            probed,
        ) by {
            let i = choose|i: int| 0 <= i < channels@.len() && (#[trigger] channels@[i]).id == id;
            assert(all[channels@[i].id] == channels@[i]@);
        }
    }
    None
}

fn find_chunk(chunks: &Vec<ChunkFact>, offset: u64) -> (found: Option<&ChunkFact>)
    ensures
        match found {
            Some(chunk) => chunk_at(mcap_facts::chunk_contents(chunks@), offset) == Some(chunk@),
            None => chunk_at(mcap_facts::chunk_contents(chunks@), offset) is None,
        },
{
    let ghost all = mcap_facts::chunk_contents(chunks@);
    let mut index: usize = 0;
    assert(all.skip(0) =~= all);
    while index < chunks.len()
        invariant
            index <= chunks@.len(),
            all == mcap_facts::chunk_contents(chunks@),
            chunk_at(all, offset) == chunk_at(all.skip(index as int), offset),
        decreases chunks@.len() - index,
    {
        proof {
            assert(all.skip(index as int)[0] == chunks@[index as int]@);
            assert(all.skip(index as int).drop_first() =~= all.skip(index + 1));
        }
        if let Some(start) = data_start(&chunks[index]) {
            if start == offset {
                return Some(&chunks[index]);
            }
        }
        index = index + 1;
    }
    None
}

fn middle_of(facts: &SummaryFacts) -> (time: Option<u64>)
    ensures
        time == middle(facts.content()),
{
    let (start, end): (u64, u64) = match facts.span() {
        Some(span) => (span.start, span.end),
        None => {
            let chunks: &Vec<ChunkFact> = facts.chunks();
            assert(facts.content().chunks.len() == chunks@.len());
            if chunks.len() == 0 {
                return None;
            }
            chunk_span(chunks)
        },
    };
    if end <= start {
        Some(start)
    } else {
        Some(start + (end - start) / 2)
    }
}

impl IndexedProbe {
    pub closed spec fn content(&self) -> ProbeContent {
        ProbeContent {
            facts: self.facts.content(),
            file_size: self.file_size,
            channel: self.channel,
            topic: self.topic@,
            log_time: self.log_time,
            first_chunk: self.first_chunk,
            offsets_match: self.offsets_match,
            lists_topic: self.lists_topic,
        }
    }

    pub closed spec fn well_formed(&self) -> bool {
        self.facts.well_formed()
    }

    /// What reading the summary section took.
    pub closed spec fn summary_reads(&self) -> ReadMetrics {
        self.summary_reads
    }

    /// Picks the channel and the time to look for. `before` and `after` count what was read before
    /// and after the summary section was.
    pub fn start(facts: SummaryFacts, file_size: u64, before: ReadMetrics, after: ReadMetrics) -> (
        outcome: Result<Self, String>)
        requires
            facts.well_formed(),
        ensures
            ({
                let channels = facts.content().channels;
                match outcome {
                    Ok(probe) => {
                        let content = probe.content();
                        &&& probe.well_formed()
                        &&& content.facts == facts.content()
                        &&& content.file_size == file_size
                        &&& probes(channels, content.channel)
                        &&& content.topic == channels[content.channel].topic
                        &&& middle(facts.content()) == Some(content.log_time)
                        &&& content.first_chunk is None
                        &&& content.offsets_match
                        &&& !content.lists_topic
                        &&& probe.summary_reads() == (ReadMetrics {
                            total_bytes_requested: if after.total_bytes_requested
                                >= before.total_bytes_requested {
                                (after.total_bytes_requested - before.total_bytes_requested) as u64
                            } else {
                                0
                            },
                            range_reads: if after.range_reads >= before.range_reads {
                                (after.range_reads - before.range_reads) as u32
                            } else {
                                0
                            },
                        })
                    },
                    Err(words) => if !has_domain(channels, ProbeDomain::Odometry) && !has_domain(
                        channels,
                        ProbeDomain::Camera,
                    ) {
                        words@ == "Summary contains neither /odom nor CompressedImage"@
                    } else {
                        middle(facts.content()) is None && words@
                            == "Summary contains no indexed time range"@
                    },
                }
            }),
    {
        let found: Option<&ChannelFact> = match find_domain(&facts, ProbeDomain::Odometry) {
            Some(channel) => Some(channel),
            None => find_domain(&facts, ProbeDomain::Camera),
        };
        let (channel, topic): (u16, String) = match found {
            Some(channel) => (channel.id, channel.topic.clone()),
            None => return Err("Summary contains neither /odom nor CompressedImage".to_owned()),
        };
        let log_time: u64 = match middle_of(&facts) {
            Some(log_time) => log_time,
            None => return Err("Summary contains no indexed time range".to_owned()),
        };
        let summary_reads: ReadMetrics = ReadMetrics {
            total_bytes_requested: after.total_bytes_requested.saturating_sub(
                before.total_bytes_requested,
            ),
            range_reads: after.range_reads.saturating_sub(before.range_reads),
        };
        Ok(
            IndexedProbe {
                facts,
                file_size,
                channel,
                topic,
                log_time,
                first_chunk: None,
                offsets_match: true,
                lists_topic: false,
                summary_reads,
            },
        )
    }

    pub fn target_topic(&self) -> (topic: &str)
        ensures
            topic@ == self.content().topic,
    {
        self.topic.as_str()
    }

    pub fn target_log_time(&self) -> (log_time: u64)
        ensures
            log_time == self.content().log_time,
    {
        self.log_time
    }

    /// Takes note of a chunk that the reader of the index asks for. Its data is to be read.
    pub fn request_chunk(&mut self, offset: u64, length: usize) -> (outcome: Result<
        ByteRange,
        String,
    >)
        requires
            old(self).well_formed(),
        ensures
            final(self).well_formed(),
            final(self).summary_reads() == old(self).summary_reads(),
            match outcome {
                Ok(range) => {
                    &&& old(self).content().chunk_refusal(offset, length) is None
                    &&& range == (ByteRange { offset, length })
                    &&& final(self).content() == old(self).content().with_chunk(offset, length)
                },
                Err(words) => {
                    &&& old(self).content().chunk_refusal(offset, length) == Some(words@)
                    &&& final(self).content() == old(self).content()
                },
            },
    {
        let range: ByteRange = match validate_range(self.file_size, offset, length) {
            Ok(range) => range,
            Err(error) => return Err(error.message()),
        };
        match find_chunk(self.facts.chunks(), offset) {
            Some(chunk) => {
                let matches_size: bool = chunk.compressed_size == length as u64;
                let lists: bool = chunk.indexes_channel(self.channel as u32);
                let first: ProbedChunk = ProbedChunk {
                    data_range: range,
                    chunk_start_offset: chunk.chunk_start_offset,
                    message_index_length: chunk.message_index_length,
                };
                self.offsets_match = self.offsets_match && matches_size;
                self.lists_topic = self.lists_topic || lists;
                if self.first_chunk.is_none() {
                    self.first_chunk = Some(first);
                }
                Ok(range)
            },
            None => {
                let mut words: String =
                    "IndexedReader requested unknown chunk data offset ".to_owned();
                push_decimal(&mut words, offset);
                Err(words)
            },
        }
    }

    /// Judges the first message that the reader of the index finds.
    pub fn message(&self, channel: u16, log_time: u64, data: Bytes) -> (outcome: Result<
        IndexedProbeReport,
        String,
    >)
        requires
            self.well_formed(),
        ensures
            ({
                let content = self.content();
                let found = content.found(channel, log_time, payload::content(data));
                match outcome {
                    Ok(report) => {
                        &&& found is Ok
                        &&& report.target_topic@ == content.topic
                        &&& report.target_log_time == content.log_time
                        &&& report.message_log_time == log_time
                        &&& report.chunk_data_range == found->Ok_0.0.data_range
                        &&& report.chunk_start_offset == found->Ok_0.0.chunk_start_offset
                        &&& report.message_index_length == found->Ok_0.0.message_index_length
                        &&& report.message_index_lists_topic == content.lists_topic
                        &&& report.topic_filter_matched
                        &&& report.absolute_offset_matched == content.offsets_match
                        &&& report.pipeline == found->Ok_0.1
                        &&& report.summary_range_reads == self.summary_reads().range_reads
                        &&& report.summary_bytes_requested
                            == self.summary_reads().total_bytes_requested
                    },
                    Err(words) => found == Err::<(ProbedChunk, PipelineProbeResult), Seq<char>>(
                        words@,
                    ),
                }
            }),
    {
        if log_time < self.log_time {
            let mut words: String = "IndexedReader yielded ".to_owned();
            push_decimal(&mut words, log_time);
            words.append(" before seek ");
            push_decimal(&mut words, self.log_time);
            return Err(words);
        }
        let topic_filter_matched: bool = match self.facts.channel(channel) {
            Some(channel) => same_text(channel.topic.as_str(), self.topic.as_str()),
            None => false,
        };
        let pipeline: PipelineProbeResult = feed_pipeline(
            &self.facts,
            channel,
            log_time,
            data,
            self.topic.as_str(),
        )?;
        let first: ProbedChunk = match self.first_chunk {
            Some(first) => first,
            None => {
                return Err("IndexedReader yielded a message without a chunk read".to_owned());
            },
        };
        Ok(
            IndexedProbeReport {
                target_topic: self.topic.clone(),
                target_log_time: self.log_time,
                message_log_time: log_time,
                chunk_data_range: first.data_range,
                chunk_start_offset: first.chunk_start_offset,
                message_index_length: first.message_index_length,
                message_index_lists_topic: self.lists_topic,
                topic_filter_matched,
                absolute_offset_matched: self.offsets_match,
                pipeline,
                summary_range_reads: self.summary_reads.range_reads,
                summary_bytes_requested: self.summary_reads.total_bytes_requested,
            },
        )
    }

    /// The words for a reader that finds no message.
    pub fn exhausted(&self) -> (words: String)
        ensures
            words@ == "IndexedReader found no "@ + self.content().topic
                + " message at or after "@ + text::decimal(self.content().log_time as nat),
    {
        let mut words: String = "IndexedReader found no ".to_owned();
        words.append(self.topic.as_str());
        words.append(" message at or after ");
        push_decimal(&mut words, self.log_time);
        words
    }
}

/// A message that a probe accepts belongs to the topic that it looks for and is not before the time
/// that it looks for.
pub proof fn law_probed_messages_answer_the_search(
    probe: ProbeContent,
    channel: u16,
    log_time: u64,
    data: Seq<u8>,
)
    requires
        probe.found(channel, log_time, data) is Ok,
    ensures
        probe.facts.channels.contains_key(channel),
        probe.facts.channels[channel].topic == probe.topic,
        log_time >= probe.log_time,
        probe.found(channel, log_time, data)->Ok_0.1.arrival_time.0 == log_time,
{
}

/// A search aims at the middle of the recording, rounded down.
pub proof fn law_searches_aim_at_the_middle(facts: FactsContent, start: u64, end: u64)
    requires
        facts.span matches Some(span) && span.start == start && span.end == end,
        start <= end,
    ensures
        middle(facts) matches Some(time) && start <= time <= end && 2 * (time - start) <= end - start
            < 2 * (time - start) + 2,
{
}

} // verus!

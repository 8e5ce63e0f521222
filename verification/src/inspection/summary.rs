//! The records of a summary section, and a look into one chunk.

use crate::inspection::ranges::{
    self, validate_range, ParseFault, SpikeParseError, RECORD_HEADER_LEN,
};
use crate::message::cdr::common::{self, little_word64, Endian};
use crate::message::text::{self, push_decimal, push_hexadecimal};
use crate::recording::local_catalog::{self, chunk_span};
use crate::recording::local_window::{ByteRange, MESSAGE_OPCODE};
use crate::recording::local_restore::lemma_in_pushed;
use crate::recording::mcap_facts::{self, error_text, ChunkContent, ChunkFact, TimeSpan};
use crate::recording::mcap_records::{self, is_chunk_sound, is_file_sound, CHUNK_OPCODE};
use mcap::read::{ChunkReader, LinearReader};
use mcap::records::Record;
use mcap::McapError;
use vstd::prelude::*;
use vstd::slice::*;
use vstd::string::*;
use vstd::utf8::*;

verus! {

/// The opcode of an attachment index record.
pub const ATTACHMENT_INDEX_OPCODE: u8 = 10;

/// The opcode of a metadata index record.
pub const METADATA_INDEX_OPCODE: u8 = 13;

/// A schema of a file.
#[derive(Clone, Debug, Eq, PartialEq)]
pub struct SchemaInfo {
    pub id: u16,
    pub name: String,
    pub encoding: String,
}

/// What a schema is.
pub struct SchemaContent {
    pub id: u16,
    pub name: Seq<char>,
    pub encoding: Seq<char>,
}

impl View for SchemaInfo {
    type V = SchemaContent;

    open spec fn view(&self) -> SchemaContent {
        SchemaContent { id: self.id, name: self.name@, encoding: self.encoding@ }
    }
}

/// What each schema of a list is.
pub open spec fn schema_contents(schemas: Seq<SchemaInfo>) -> Seq<SchemaContent> {
    schemas.map_values(|schema: SchemaInfo| schema@)
}

/// A channel of a file.
#[derive(Clone, Debug, Eq, PartialEq)]
pub struct ChannelInfo {
    pub id: u16,
    pub schema_id: u16,
    pub topic: String,
    pub message_encoding: String,
}

/// What a channel is.
pub struct ChannelInfoContent {
    pub id: u16,
    pub schema_id: u16,
    pub topic: Seq<char>,
    pub message_encoding: Seq<char>,
}

impl View for ChannelInfo {
    type V = ChannelInfoContent;

    open spec fn view(&self) -> ChannelInfoContent {
        ChannelInfoContent {
            id: self.id,
            schema_id: self.schema_id,
            topic: self.topic@,
            message_encoding: self.message_encoding@,
        }
    }
}

/// What each channel of a list is.
pub open spec fn channel_contents(channels: Seq<ChannelInfo>) -> Seq<ChannelInfoContent> {
    channels.map_values(|channel: ChannelInfo| channel@)
}

/// Where the records of one kind lie in the summary section.
#[derive(Clone, Copy, Debug, Eq, PartialEq, Structural)]
pub struct SummaryOffset {
    pub group_opcode: u8,
    pub group_start: u64,
    pub group_length: u64,
}

/// A record of a summary section, its fields in the order of the file.
#[derive(Debug)]
pub enum SummaryRecord {
    Schema(u16, String, String),
    Channel(u16, u16, String, String),
    Statistics(u64, u64),
    Chunk(u64, u64, u64, u64, Vec<(u16, u64)>, u64, String, u64, u64),
    Offset(u8, u64, u64),
    /// A record of another kind, by its opcode.
    Other(u8),
}

/// What a record says.
pub enum RecordContent {
    Schema(SchemaContent),
    Channel(ChannelInfoContent),
    Statistics(TimeSpan),
    Chunk(ChunkContent),
    Offset(SummaryOffset),
    Other(u8),
}

impl View for SummaryRecord {
    type V = RecordContent;

    open spec fn view(&self) -> RecordContent {
        match *self {
            SummaryRecord::Schema(id, name, encoding) => RecordContent::Schema(
                SchemaContent { id, name: name@, encoding: encoding@ },
            ),
            SummaryRecord::Channel(id, schema_id, topic, encoding) => RecordContent::Channel(
                ChannelInfoContent {
                    id,
                    schema_id,
                    topic: topic@,
                    message_encoding: encoding@,
                },
            ),
            SummaryRecord::Statistics(start, end) => RecordContent::Statistics(
                TimeSpan { start, end },
            ),
            SummaryRecord::Chunk(start, end, offset, length, offsets, indexes, name, packed, size) =>
                RecordContent::Chunk(
                ChunkContent {
                    message_start_time: start,
                    message_end_time: end,
                    chunk_start_offset: offset,
                    chunk_length: length,
                    message_index_offsets: offsets@,
                    message_index_length: indexes,
                    compression: name@,
                    compressed_size: packed,
                    uncompressed_size: size,
                },
            ),
            SummaryRecord::Offset(group_opcode, group_start, group_length) => RecordContent::Offset(
                SummaryOffset { group_opcode, group_start, group_length },
            ),
            SummaryRecord::Other(opcode) => RecordContent::Other(opcode),
        }
    }
}

/// What each record of a list says.
pub open spec fn record_contents(records: Seq<SummaryRecord>) -> Seq<RecordContent> {
    records.map_values(|record: SummaryRecord| record@)
}

/// The records that some bytes of a file hold: none where one of them cannot be read.
pub uninterp spec fn records_in(bytes: Seq<u8>) -> Option<Seq<RecordContent>>;

/// `LinearReader::sans_magic`, read to its end: every record, or the first error.
#[verifier::external_body]
pub(crate) fn read_records(bytes: &[u8]) -> (outcome: Result<Vec<SummaryRecord>, McapError>)
    requires
        mcap_records::file_sound(bytes@, 0),
    ensures
        match outcome {
            Ok(records) => records_in(bytes@) == Some(record_contents(records@)),
            Err(_) => records_in(bytes@) is None,
        },
{
    LinearReader::sans_magic(bytes).map(|record| Ok(match record? {
        Record::Schema { header: s, .. } => SummaryRecord::Schema(s.id, s.name, s.encoding),
        Record::Channel(c) => SummaryRecord::Channel(c.id, c.schema_id, c.topic, c.message_encoding),
        Record::Statistics(s) => SummaryRecord::Statistics(s.message_start_time, s.message_end_time),
        Record::ChunkIndex(i) => SummaryRecord::Chunk(i.message_start_time, i.message_end_time,
            i.chunk_start_offset, i.chunk_length, Vec::from_iter(i.message_index_offsets),
            i.message_index_length, i.compression, i.compressed_size, i.uncompressed_size),
        Record::SummaryOffset(o) => SummaryRecord::Offset(o.group_opcode, o.group_start, o.group_length),
        other => SummaryRecord::Other(other.opcode()),
    })).collect()
}

/// What a summary section holds, the schemas and the channels in order of their identifiers.
#[derive(Debug)]
pub struct SummaryCatalog {
    pub schemas: Vec<SchemaInfo>,
    pub channels: Vec<ChannelInfo>,
    pub statistics: Option<TimeSpan>,
    pub chunk_indexes: Vec<ChunkFact>,
    /// How many attachments the section lists.
    pub attachment_indexes: u64,
    /// How many metadata records the section lists.
    pub metadata_indexes: u64,
    pub summary_offsets: Vec<SummaryOffset>,
}

/// What a catalog says.
pub struct SummaryCatalogContent {
    pub schemas: Seq<SchemaContent>,
    pub channels: Seq<ChannelInfoContent>,
    pub statistics: Option<TimeSpan>,
    pub chunk_indexes: Seq<ChunkContent>,
    pub attachment_indexes: nat,
    pub metadata_indexes: nat,
    pub summary_offsets: Seq<SummaryOffset>,
}

impl View for SummaryCatalog {
    type V = SummaryCatalogContent;

    open spec fn view(&self) -> SummaryCatalogContent {
        SummaryCatalogContent {
            schemas: schema_contents(self.schemas@),
            channels: channel_contents(self.channels@),
            statistics: self.statistics,
            chunk_indexes: mcap_facts::chunk_contents(self.chunk_indexes@),
            attachment_indexes: self.attachment_indexes as nat,
            metadata_indexes: self.metadata_indexes as nat,
            summary_offsets: self.summary_offsets@,
        }
    }
}

/// A record that carries an identifier.
pub trait Identified: View + Sized {
    /// The identifier in what the record holds.
    spec fn identifier(content: Self::V) -> u16;

    fn id(&self) -> (id: u16)
        ensures
            id == Self::identifier(self@),
    ;
}

impl Identified for SchemaInfo {
    open spec fn identifier(content: SchemaContent) -> u16 {
        content.id
    }

    fn id(&self) -> (id: u16) {
        self.id
    }
}

impl Identified for ChannelInfo {
    open spec fn identifier(content: ChannelInfoContent) -> u16 {
        content.id
    }

    fn id(&self) -> (id: u16) {
        self.id
    }
}

/// Where a record goes: behind every record with no larger identifier.
pub open spec fn place_of<T: Identified>(records: Seq<T::V>, id: u16) -> int
    decreases records.len(),
{
    if records.len() == 0 {
        0
    } else if T::identifier(records.last()) <= id {
        records.len() as int
    } else {
        place_of::<T>(records.drop_last(), id)
    }
}

/// The records are in order of their identifiers.
pub open spec fn ordered<T: Identified>(records: Seq<T::V>) -> bool {
    forall|i: int, j: int|
        0 <= i <= j < records.len() ==> T::identifier(#[trigger] records[i]) <= T::identifier(
            #[trigger] records[j],
        )
}

impl SummaryCatalogContent {
    /// A catalog of nothing.
    pub open spec fn empty() -> Self {
        SummaryCatalogContent {
            schemas: Seq::empty(),
            channels: Seq::empty(),
            statistics: None,
            chunk_indexes: Seq::empty(),
            attachment_indexes: 0,
            metadata_indexes: 0,
            summary_offsets: Seq::empty(),
        }
    }

    /// The catalog with one more record. The last statistics count.
    pub open spec fn with_record(self, record: RecordContent) -> Self {
        match record {
            RecordContent::Schema(schema) => SummaryCatalogContent {
                schemas: self.schemas.insert(
                    place_of::<SchemaInfo>(self.schemas, schema.id),
                    schema,
                ),
                ..self
            },
            RecordContent::Channel(channel) => SummaryCatalogContent {
                channels: self.channels.insert(
                    place_of::<ChannelInfo>(self.channels, channel.id),
                    channel,
                ),
                ..self
            },
            RecordContent::Statistics(span) => SummaryCatalogContent {
                statistics: Some(span),
                ..self
            },
            RecordContent::Chunk(chunk) => SummaryCatalogContent {
                chunk_indexes: self.chunk_indexes.push(chunk),
                ..self
            },
            RecordContent::Offset(offset) => SummaryCatalogContent {
                summary_offsets: self.summary_offsets.push(offset),
                ..self
            },
            RecordContent::Other(opcode) => if opcode == ATTACHMENT_INDEX_OPCODE {
                SummaryCatalogContent { attachment_indexes: self.attachment_indexes + 1, ..self }
            } else if opcode == METADATA_INDEX_OPCODE {
                SummaryCatalogContent { metadata_indexes: self.metadata_indexes + 1, ..self }
            } else {
                self
            },
        }
    }

    /// The catalog of some records.
    pub open spec fn of(records: Seq<RecordContent>) -> Self
        decreases records.len(),
    {
        if records.len() == 0 {
            Self::empty()
        } else {
            Self::of(records.drop_last()).with_record(records.last())
        }
    }

    pub open spec fn is_empty(self) -> bool {
        &&& self.schemas.len() == 0
        &&& self.channels.len() == 0
        &&& self.statistics is None
        &&& self.chunk_indexes.len() == 0
        &&& self.attachment_indexes == 0
        &&& self.metadata_indexes == 0
        &&& self.summary_offsets.len() == 0
    }

    /// A chunk lists its messages.
    pub open spec fn spec_has_message_indexes(self) -> bool {
        exists|i: int|
            0 <= i < self.chunk_indexes.len() && indexes_messages(#[trigger] self.chunk_indexes[i])
    }

    /// The first and the last message time: those of the statistics, or those of the chunks.
    pub open spec fn spec_time_range(self) -> Option<(u64, u64)> {
        match self.statistics {
            Some(span) => Some((span.start, span.end)),
            None => if self.chunk_indexes.len() == 0 {
                None
            } else {
                Some(
                    (
                        local_catalog::earliest(self.chunk_indexes),
                        local_catalog::latest(self.chunk_indexes),
                    ),
                )
            },
        }
    }
}

/// The chunk lists its messages.
pub open spec fn indexes_messages(chunk: ChunkContent) -> bool {
    chunk.message_index_length > 0 || chunk.message_index_offsets.len() > 0
}

proof fn lemma_place<T: Identified>(records: Seq<T::V>, id: u16)
    ensures
        0 <= place_of::<T>(records, id) <= records.len(),
        ordered::<T>(records) ==> forall|i: int|
            0 <= i < place_of::<T>(records, id) ==> T::identifier(#[trigger] records[i]) <= id,
        forall|i: int|
            place_of::<T>(records, id) <= i < records.len() ==> T::identifier(
                #[trigger] records[i],
            ) > id,
    decreases records.len(),
{
    if records.len() > 0 && T::identifier(records.last()) > id {
        let front = records.drop_last();
        lemma_place::<T>(front, id);
        assert forall|i: int| place_of::<T>(records, id) <= i < records.len() implies T::identifier(
            #[trigger] records[i],
        ) > id by {
            if i < front.len() {
                assert(front[i] == records[i]);
            }
        }
        if ordered::<T>(records) {
            assert(ordered::<T>(front)) by {
                assert forall|i: int, j: int| 0 <= i <= j < front.len() implies T::identifier(
                    #[trigger] front[i],
                ) <= T::identifier(#[trigger] front[j]) by {
                    assert(T::identifier(records[i]) <= T::identifier(records[j]));
                }
            }
            assert forall|i: int| 0 <= i < place_of::<T>(records, id) implies T::identifier(
                #[trigger] records[i],
            ) <= id by {
                assert(front[i] == records[i]);
            }
        }
    }
}

/// The schemas and the channels of a catalog are in order of their identifiers, whatever the order
/// of the records.
pub proof fn law_catalogs_are_ordered(records: Seq<RecordContent>)
    ensures
        ordered::<SchemaInfo>(SummaryCatalogContent::of(records).schemas),
        ordered::<ChannelInfo>(SummaryCatalogContent::of(records).channels),
    decreases records.len(),
{
    if records.len() > 0 {
        let earlier = SummaryCatalogContent::of(records.drop_last());
        law_catalogs_are_ordered(records.drop_last());
        if let RecordContent::Schema(schema) = records.last() {
            lemma_place::<SchemaInfo>(earlier.schemas, schema.id);
        }
        if let RecordContent::Channel(channel) = records.last() {
            lemma_place::<ChannelInfo>(earlier.channels, channel.id);
        }
    }
}

/// Puts a record behind every record of a list with no larger identifier.
fn insert_in_order<T: Identified>(records: &mut Vec<T>, record: T)
    ensures
        final(records)@.map_values(|record: T| record@) == old(records)@.map_values(
            |record: T| record@,
        ).insert(
            place_of::<T>(
                old(records)@.map_values(|record: T| record@),
                T::identifier(record@),
            ),
            record@,
        ),
{
    let ghost all = records@.map_values(|record: T| record@);
    let id: u16 = record.id();
    let mut place: usize = records.len();
    assert(all.take(all.len() as int) =~= all);
    while place > 0 && records[place - 1].id() > id
        invariant
            place <= records@.len(),
            all == records@.map_values(|record: T| record@),
            place_of::<T>(all, id) == place_of::<T>(all.take(place as int), id),
        decreases place,
    {
        assert(all[place - 1] == records@[place - 1]@);
        assert(all.take(place as int).drop_last() =~= all.take(place - 1));
        place = place - 1;
    }
    proof {
        lemma_place::<T>(all, id);
        if place > 0 {
            assert(all[place - 1] == records@[place - 1]@);
            assert(all.take(place as int).last() == all[place - 1]);
        }
    }
    let ghost added = record@;
    records.insert(place, record);
    assert(records@.map_values(|record: T| record@) =~= all.insert(place as int, added));
}

impl Default for SummaryCatalog {
    fn default() -> (catalog: Self)
        ensures
            catalog@ == SummaryCatalogContent::empty(),
    {
        let catalog = SummaryCatalog {
            schemas: Vec::new(),
            channels: Vec::new(),
            statistics: None,
            chunk_indexes: Vec::new(),
            attachment_indexes: 0,
            metadata_indexes: 0,
            summary_offsets: Vec::new(),
        };
        assert(catalog@.schemas =~= Seq::empty());
        assert(catalog@.channels =~= Seq::empty());
        assert(catalog@.chunk_indexes =~= Seq::empty());
        assert(catalog@.summary_offsets =~= Seq::empty());
        catalog
    }
}

impl SummaryCatalog {
    fn add_record(&mut self, record: SummaryRecord)
        requires
            old(self).attachment_indexes < u64::MAX,
            old(self).metadata_indexes < u64::MAX,
        ensures
            final(self)@ == old(self)@.with_record(record@),
            final(self).attachment_indexes <= old(self).attachment_indexes + 1,
            final(self).metadata_indexes <= old(self).metadata_indexes + 1,
    {
        let ghost before = self@;
        let ghost added = record@;
        match record {
            SummaryRecord::Schema(id, name, encoding) => {
                insert_in_order(&mut self.schemas, SchemaInfo { id, name, encoding });
            },
            SummaryRecord::Channel(id, schema_id, topic, message_encoding) => {
                insert_in_order(
                    &mut self.channels,
                    ChannelInfo { id, schema_id, topic, message_encoding },
                );
            },
            SummaryRecord::Statistics(start, end) => {
                self.statistics = Some(TimeSpan { start, end });
            },
            SummaryRecord::Chunk(start, end, offset, length, offsets, indexes, name, packed, size) => {
                self.chunk_indexes.push(
                    ChunkFact {
                        message_start_time: start,
                        message_end_time: end,
                        chunk_start_offset: offset,
                        chunk_length: length,
                        message_index_offsets: offsets,
                        message_index_length: indexes,
                        compression: name,
                        compressed_size: packed,
                        uncompressed_size: size,
                    },
                );
                assert(self@.chunk_indexes =~= before.with_record(added).chunk_indexes);
            },
            SummaryRecord::Offset(group_opcode, group_start, group_length) => {
                self.summary_offsets.push(
                    SummaryOffset { group_opcode, group_start, group_length },
                );
            },
            SummaryRecord::Other(opcode) => {
                if opcode == ATTACHMENT_INDEX_OPCODE {
                    self.attachment_indexes = self.attachment_indexes + 1;
                } else if opcode == METADATA_INDEX_OPCODE {
                    self.metadata_indexes = self.metadata_indexes + 1;
                }
            },
        }
    }

    fn of_records(records: Vec<SummaryRecord>) -> (catalog: Self)
        ensures
            catalog@ == SummaryCatalogContent::of(record_contents(records@)),
    {
        let ghost all = record_contents(records@);
        let mut catalog: SummaryCatalog = SummaryCatalog::default();
        let mut done: usize = 0;
        let total: usize = records.len();
        assert(all.take(0) =~= Seq::empty());
        for record in walk: records
            invariant
                walk.seq() == records@,
                total == records@.len(),
                done == walk.index(),
                all == record_contents(records@),
                catalog@ == SummaryCatalogContent::of(all.take(walk.index())),
                catalog.attachment_indexes <= done,
                catalog.metadata_indexes <= done,
        {
            proof {
                assert(all[walk.index()] == record@);
                assert(all.take(walk.index() + 1).drop_last() =~= all.take(walk.index()));
            }
            catalog.add_record(record);
            done = done + 1;
        }
        assert(all.take(all.len() as int) =~= all);
        catalog
    }

    /// Whether the section holds nothing.
    pub fn is_empty(&self) -> (empty: bool)
        ensures
            empty == self@.is_empty(),
    {
        self.schemas.len() == 0 && self.channels.len() == 0 && self.statistics.is_none()
            && self.chunk_indexes.len() == 0 && self.attachment_indexes == 0
            && self.metadata_indexes == 0 && self.summary_offsets.len() == 0
    }

    /// Whether a chunk lists its messages.
    pub fn has_message_indexes(&self) -> (indexed: bool)
        ensures
            indexed == self@.spec_has_message_indexes(),
    {
        let mut index: usize = 0;
        while index < self.chunk_indexes.len()
            invariant
                index <= self.chunk_indexes@.len(),
                forall|i: int|
                    0 <= i < index ==> !indexes_messages(#[trigger] self@.chunk_indexes[i]),
            decreases self.chunk_indexes@.len() - index,
        {
            assert(self@.chunk_indexes[index as int] == self.chunk_indexes@[index as int]@);
            if self.chunk_indexes[index].message_index_length > 0
                || self.chunk_indexes[index].message_index_offsets.len() > 0 {
                return true;
            }
            index = index + 1;
        }
        false
    }

    /// The first and the last message time.
    pub fn time_range(&self) -> (range: Option<(u64, u64)>)
        ensures
            range == self@.spec_time_range(),
    {
        match self.statistics {
            Some(span) => Some((span.start, span.end)),
            None => if self.chunk_indexes.len() == 0 {
                None
            } else {
                Some(chunk_span(&self.chunk_indexes))
            },
        }
    }

    /// The first chunk and the range of its record.
    pub fn first_chunk(&self, file_size: u64) -> (outcome: Result<(&ChunkFact, ByteRange), String>)
        ensures
            match outcome {
                Ok((chunk, range)) => {
                    &&& self@.chunk_indexes.len() > 0
                    &&& chunk@ == self@.chunk_indexes[0]
                    &&& chunk_range_of(file_size, chunk@) == Ok::<ByteRange, ParseFault>(range)
                },
                Err(words) => if self@.chunk_indexes.len() == 0 {
                    words@ == "Summary contains no Chunk Index"@
                } else {
                    chunk_range_of(file_size, self@.chunk_indexes[0]) matches Err(fault) && words@
                        == fault.words()
                },
            },
    {
        if self.chunk_indexes.len() == 0 {
            return Err("Summary contains no Chunk Index".to_owned());
        }
        let chunk: &ChunkFact = &self.chunk_indexes[0];
        assert(self@.chunk_indexes[0] == chunk@);
        match chunk_range(file_size, chunk) {
            Ok(range) => Ok((chunk, range)),
            Err(error) => Err(error.message()),
        }
    }
}

/// The records that some bytes of a file hold: none where one of them is damaged.
pub open spec fn sound_records(bytes: Seq<u8>) -> Option<Seq<RecordContent>> {
    if mcap_records::file_sound(bytes, 0) {
        records_in(bytes)
    } else {
        None
    }
}

/// What the records of a summary section say, or that one of them is damaged.
pub fn parse_summary_range(bytes: &[u8]) -> (outcome: Result<SummaryCatalog, SpikeParseError>)
    ensures
        match outcome {
            Ok(catalog) => bytes@.len() > 0 && sound_records(bytes@) is Some && catalog@
                == SummaryCatalogContent::of(sound_records(bytes@)->Some_0) && !catalog@.is_empty(),
            Err(error) => if bytes@.len() == 0 {
                error@ == ParseFault::InvalidSummaryRange("summary bytes are empty"@)
            } else {
                match sound_records(bytes@) {
                    None => error@ is Mcap,
                    Some(records) => SummaryCatalogContent::of(records).is_empty() && error@
                        == ParseFault::InvalidSummaryRange(
                        "range contained no summary records"@,
                    ),
                }
            },
        },
{
    if bytes.len() == 0 {
        return Err(SpikeParseError::InvalidSummaryRange("summary bytes are empty".to_owned()));
    }
    if !is_file_sound(bytes, 0) {
        return Err(SpikeParseError::Mcap("a record is damaged".to_owned()));
    }
    match read_records(bytes) {
        Ok(records) => catalog_of(records),
        Err(error) => Err(SpikeParseError::Mcap(error_text(&error))),
    }
}

/// The catalog of the records of a summary section, which may not be empty.
pub fn catalog_of(records: Vec<SummaryRecord>) -> (outcome: Result<SummaryCatalog, SpikeParseError>)
    ensures
        ({
            let content = SummaryCatalogContent::of(record_contents(records@));
            match outcome {
                Ok(catalog) => catalog@ == content && !content.is_empty(),
                Err(error) => content.is_empty() && error@ == ParseFault::InvalidSummaryRange(
                    "range contained no summary records"@,
                ),
            }
        }),
{
    let catalog: SummaryCatalog = SummaryCatalog::of_records(records);
    if catalog.is_empty() {
        return Err(
            SpikeParseError::InvalidSummaryRange("range contained no summary records".to_owned()),
        );
    }
    Ok(catalog)
}

/// The range of the record of a chunk.
pub open spec fn chunk_range_of(file_size: u64, chunk: ChunkContent) -> Result<
    ByteRange,
    ParseFault,
> {
    if chunk.chunk_length > usize::MAX {
        Err(ParseFault::RangeOverflow)
    } else {
        match ranges::range_fault(
            file_size,
            chunk.chunk_start_offset,
            chunk.chunk_length as usize,
        ) {
            Some(fault) => Err(ParseFault::InvalidChunkRange(fault.words())),
            None => Ok(
                ByteRange {
                    offset: chunk.chunk_start_offset,
                    length: chunk.chunk_length as usize,
                },
            ),
        }
    }
}

/// The range of the record of a chunk.
pub fn chunk_range(file_size: u64, chunk: &ChunkFact) -> (outcome: Result<
    ByteRange,
    SpikeParseError,
>)
    ensures
        match outcome {
            Ok(range) => chunk_range_of(file_size, chunk@) == Ok::<ByteRange, ParseFault>(range),
            Err(error) => chunk_range_of(file_size, chunk@) == Err::<ByteRange, ParseFault>(error@),
        },
{
    if chunk.chunk_length > usize::MAX as u64 {
        return Err(SpikeParseError::RangeOverflow);
    }
    match validate_range(file_size, chunk.chunk_start_offset, chunk.chunk_length as usize) {
        Ok(range) => Ok(range),
        Err(error) => Err(SpikeParseError::InvalidChunkRange(error.message())),
    }
}

/// What could be seen of a chunk.
#[derive(Clone, Debug, Eq, PartialEq)]
pub struct ChunkInspection {
    pub record_count: Option<usize>,
    pub message_count: Option<usize>,
    pub status: String,
}

/// What an inspection says.
pub struct InspectionContent {
    pub record_count: Option<usize>,
    pub message_count: Option<usize>,
    pub status: Seq<char>,
}

impl View for ChunkInspection {
    type V = InspectionContent;

    open spec fn view(&self) -> InspectionContent {
        InspectionContent {
            record_count: self.record_count,
            message_count: self.message_count,
            status: self.status@,
        }
    }
}

/// The name of the compression that the body of a chunk record gives. Three numbers of eight bytes
/// and one of four stand in front of it; the size of the data, which must be there, behind it.
pub open spec fn chunk_compression(body: Seq<u8>) -> Option<Seq<char>> {
    let length = common::word32(body, 28, Endian::Little);
    let name = body.subrange(32, 32 + length);
    if body.len() < 32 || body.len() < 40 + length || !valid_utf8(name) || common::word64(
        body,
        32 + length,
        Endian::Little,
    ) > body.len() - 40 - length {
        None
    } else {
        Some(decode_utf8(name))
    }
}

/// `mcap::parse_record` of a chunk record: the compression that its header names, or an error where
/// the header cannot be read or the record lacks some of the data.
#[verifier::external_body]
pub(crate) fn parse_compression(body: &[u8]) -> (outcome: Result<Option<String>, McapError>)
    ensures
        match outcome {
            Ok(name) => name is Some && chunk_compression(body@) == Some(name->Some_0@),
            Err(_) => chunk_compression(body@) is None,
        },
{
    Ok(match mcap::parse_record(CHUNK_OPCODE, body)? {
        Record::Chunk { header, .. } => Some(header.compression),
        _ => None,
    })
}

/// The opcode of each record of a chunk: none where one cannot be read or a checksum is wrong.
pub uninterp spec fn chunk_opcodes(body: Seq<u8>) -> Option<Seq<u8>>;

/// `ChunkReader`, read to its end: the opcode of each record of a chunk, or the first error.
#[verifier::external_body]
pub(crate) fn read_opcodes(body: &[u8]) -> (outcome: Result<Vec<u8>, McapError>)
    requires
        chunk_compression(body@) is Some,
        mcap_records::chunk_sound(body@, false),
    ensures
        match outcome {
            Ok(opcodes) => chunk_opcodes(body@) == Some(opcodes@),
            Err(_) => chunk_opcodes(body@) is None,
        },
{
    match mcap::parse_record(CHUNK_OPCODE, body)? {
        Record::Chunk { header, data } => ChunkReader::new(header, &data)?
            .map(|record| record.map(|record| record.opcode()))
            .collect(),
        _ => Ok(Vec::new()),
    }
}

/// The opcode of each record of a chunk: none where one is damaged.
pub open spec fn sound_opcodes(body: Seq<u8>) -> Option<Seq<u8>> {
    if mcap_records::chunk_sound(body, false) {
        chunk_opcodes(body)
    } else {
        None
    }
}

/// The number of message records among some records.
pub open spec fn messages_among(opcodes: Seq<u8>) -> nat
    decreases opcodes.len(),
{
    if opcodes.len() == 0 {
        0
    } else {
        messages_among(opcodes.drop_last()) + if opcodes.last() == MESSAGE_OPCODE {
            1nat
        } else {
            0nat
        }
    }
}

/// What is wrong with the record around a chunk, if something is.
pub open spec fn chunk_record_fault(bytes: Seq<u8>) -> Option<ParseFault> {
    if bytes.len() < RECORD_HEADER_LEN {
        Some(ParseFault::InvalidChunkRange("chunk record header is truncated"@))
    } else if bytes[0] != CHUNK_OPCODE {
        Some(
            ParseFault::InvalidChunkRange(
                "expected Chunk opcode 0x06, got 0x"@ + text::hexadecimal(bytes[0] as nat, 2),
            ),
        )
    } else if common::word64(bytes, 1, Endian::Little) != bytes.len() - RECORD_HEADER_LEN {
        Some(
            ParseFault::InvalidChunkRange(
                "record body says "@ + text::decimal(
                    common::word64(bytes, 1, Endian::Little) as nat,
                ) + " bytes, range contains "@ + text::decimal(
                    (bytes.len() - RECORD_HEADER_LEN) as nat,
                ),
            ),
        )
    } else {
        None
    }
}

/// What can be said of a chunk that is compressed.
pub open spec fn sealed(compression: Seq<char>) -> InspectionContent {
    InspectionContent {
        record_count: None,
        message_count: None,
        status: "range access succeeded; '"@ + compression
            + "' decompression is outside this spike boundary"@,
    }
}

/// What can be said of a chunk with these records.
pub open spec fn opened(opcodes: Seq<u8>) -> InspectionContent {
    InspectionContent {
        record_count: Some(opcodes.len() as usize),
        message_count: Some(messages_among(opcodes) as usize),
        status: "uncompressed chunk parsed with mcap::ChunkReader"@,
    }
}

/// How many of some records are messages.
pub fn count_messages(opcodes: &Vec<u8>) -> (count: usize)
    ensures
        count == messages_among(opcodes@),
        count <= opcodes@.len(),
{
    let mut count: usize = 0;
    let mut index: usize = 0;
    assert(opcodes@.take(0) =~= Seq::empty());
    while index < opcodes.len()
        invariant
            count <= index <= opcodes@.len(),
            count == messages_among(opcodes@.take(index as int)),
        decreases opcodes@.len() - index,
    {
        assert(opcodes@.take(index + 1).drop_last() =~= opcodes@.take(index as int));
        if opcodes[index] == MESSAGE_OPCODE {
            count = count + 1;
        }
        index = index + 1;
    }
    assert(opcodes@.take(opcodes@.len() as int) =~= opcodes@);
    count
}

fn check_chunk_record(bytes: &[u8]) -> (outcome: Result<(), SpikeParseError>)
    ensures
        match outcome {
            Ok(_) => chunk_record_fault(bytes@) is None,
            Err(error) => chunk_record_fault(bytes@) == Some(error@),
        },
{
    if bytes.len() < RECORD_HEADER_LEN {
        return Err(
            SpikeParseError::InvalidChunkRange("chunk record header is truncated".to_owned()),
        );
    }
    if bytes[0] != CHUNK_OPCODE {
        let mut words: String = "expected Chunk opcode 0x06, got 0x".to_owned();
        push_hexadecimal(&mut words, bytes[0] as u64, 2);
        return Err(SpikeParseError::InvalidChunkRange(words));
    }
    let said: u64 = little_word64(bytes, 1);
    let there: u64 = (bytes.len() - RECORD_HEADER_LEN) as u64;
    if said != there {
        let mut words: String = "record body says ".to_owned();
        push_decimal(&mut words, said);
        words.append(" bytes, range contains ");
        push_decimal(&mut words, there);
        return Err(SpikeParseError::InvalidChunkRange(words));
    }
    Ok(())
}

/// A look at the record of a chunk. One that is not compressed is read whole.
pub fn inspect_chunk(bytes: &[u8]) -> (outcome: Result<ChunkInspection, SpikeParseError>)
    ensures
        ({
            let body = bytes@.skip(RECORD_HEADER_LEN as int);
            match chunk_record_fault(bytes@) {
                Some(fault) => outcome matches Err(error) && error@ == fault,
                None => match chunk_compression(body) {
                    None => outcome matches Err(error) && error@ is Mcap,
                    Some(compression) => if compression.len() > 0 {
                        outcome matches Ok(inspection) && inspection@ == sealed(compression)
                    } else {
                        match sound_opcodes(body) {
                            None => outcome matches Err(error) && error@ is Mcap,
                            Some(opcodes) => outcome matches Ok(inspection) && inspection@
                                == opened(opcodes),
                        }
                    },
                },
            }
        }),
{
    check_chunk_record(bytes)?;
    let body: &[u8] = slice_subrange(bytes, RECORD_HEADER_LEN, bytes.len());
    assert(body@ =~= bytes@.skip(RECORD_HEADER_LEN as int));
    let compression: String = match parse_compression(body) {
        Ok(Some(compression)) => compression,
        Ok(None) => String::new(),
        Err(error) => return Err(SpikeParseError::Mcap(error_text(&error))),
    };
    if !compression.as_str().is_empty() {
        let mut status: String = "range access succeeded; '".to_owned();
        status.append(compression.as_str());
        status.append("' decompression is outside this spike boundary");
        return Ok(ChunkInspection { record_count: None, message_count: None, status });
    }
    if !is_chunk_sound(body, false) {
        return Err(SpikeParseError::Mcap("a record is damaged".to_owned()));
    }
    match read_opcodes(body) {
        Ok(opcodes) => Ok(opened_chunk(&opcodes)),
        Err(error) => Err(SpikeParseError::Mcap(error_text(&error))),
    }
}

/// What can be said of a chunk with these records.
pub fn opened_chunk(opcodes: &Vec<u8>) -> (inspection: ChunkInspection)
    ensures
        inspection@ == opened(opcodes@),
{
    let message_count: usize = count_messages(opcodes);
    ChunkInspection {
        record_count: Some(opcodes.len()),
        message_count: Some(message_count),
        status: "uncompressed chunk parsed with mcap::ChunkReader".to_owned(),
    }
}

/// A catalog holds the schemas, the channels and the chunks of its records, and nothing else.
#[verifier::rlimit(60)]
pub proof fn law_catalogs_hold_their_records(
    records: Seq<RecordContent>,
    schema: SchemaContent,
    channel: ChannelInfoContent,
    chunk: ChunkContent,
)
    ensures
        ({
            let catalog = SummaryCatalogContent::of(records);
            &&& catalog.schemas.contains(schema) <==> records.contains(
                RecordContent::Schema(schema),
            )
            &&& catalog.channels.contains(channel) <==> records.contains(
                RecordContent::Channel(channel),
            )
            &&& catalog.chunk_indexes.contains(chunk) <==> records.contains(
                RecordContent::Chunk(chunk),
            )
            &&& catalog.schemas.len() + catalog.channels.len() + catalog.chunk_indexes.len()
                + catalog.summary_offsets.len() + catalog.attachment_indexes
                + catalog.metadata_indexes <= records.len()
        }),
    decreases records.len(),
{
    if records.len() > 0 {
        let front = records.drop_last();
        let last = records.last();
        let earlier = SummaryCatalogContent::of(front);
        law_catalogs_hold_their_records(front, schema, channel, chunk);
        assert(records =~= front.push(last));
        lemma_in_pushed(front, last, RecordContent::Schema(schema));
        lemma_in_pushed(front, last, RecordContent::Channel(channel));
        lemma_in_pushed(front, last, RecordContent::Chunk(chunk));
        match last {
            RecordContent::Schema(added) => {
                lemma_place::<SchemaInfo>(earlier.schemas, added.id);
                lemma_in_inserted(
                    earlier.schemas,
                    place_of::<SchemaInfo>(earlier.schemas, added.id),
                    added,
                    schema,
                );
            },
            RecordContent::Channel(added) => {
                lemma_place::<ChannelInfo>(earlier.channels, added.id);
                lemma_in_inserted(
                    earlier.channels,
                    place_of::<ChannelInfo>(earlier.channels, added.id),
                    added,
                    channel,
                );
            },
            RecordContent::Chunk(added) => {
                lemma_in_pushed(earlier.chunk_indexes, added, chunk);
            },
            _ => {},
        }
    }
}

proof fn lemma_in_inserted<A>(list: Seq<A>, place: int, added: A, item: A)
    requires
        0 <= place <= list.len(),
    ensures
        list.insert(place, added).contains(item) == (list.contains(item) || item == added),
{
    let longer = list.insert(place, added);
    if list.contains(item) {
        let i = choose|i: int| 0 <= i < list.len() && list[i] == item;
        if i < place {
            assert(longer[i] == item);
        } else {
            assert(longer[i + 1] == item);
        }
    }
    if item == added {
        assert(longer[place] == item);
    }
    if longer.contains(item) {
        let i = choose|i: int| 0 <= i < longer.len() && longer[i] == item;
        if i < place {
            assert(list[i] == item);
        } else if i > place {
            assert(list[i - 1] == item);
        }
    }
}

} // verus!

//! The report on a recording of which only some byte ranges were read.

use crate::inspection::probe::{IndexedProbeReport, ReadMetrics};
use crate::inspection::ranges::FooterInfo;
use crate::inspection::summary::{
    self, ChannelInfo, ChannelInfoContent, ChunkInspection, InspectionContent, SchemaContent,
    SchemaInfo, SummaryCatalog, SummaryCatalogContent, SummaryOffset,
};
use crate::message::text::{self, number, push_decimal, push_hexadecimal, push_signed};
use crate::recording::local_window::ByteRange;
use crate::recording::mcap_facts::{self, ChunkContent, ChunkFact};
use vstd::prelude::*;
use vstd::string::*;

verus! {

/// How long each step took, and how much of the file the catalog took, as numbers in words.
#[derive(Clone, Debug, Eq, PartialEq)]
pub struct ReportNumbers {
    /// A percentage.
    pub catalog_read_ratio: String,
    /// Milliseconds, as the others below.
    pub footer_read: String,
    pub summary_read: String,
    pub summary_parse: String,
    pub chunk_read: String,
    pub chunk_parse: String,
}

/// What was read of a file and what it says.
#[derive(Debug)]
pub struct SpikeReport {
    pub file_name: String,
    pub file_size: u64,
    pub catalog_bytes: u64,
    pub footer: FooterInfo,
    pub catalog: SummaryCatalog,
    pub selected_chunk: ChunkFact,
    pub selected_chunk_range: ByteRange,
    pub chunk_inspection: ChunkInspection,
    pub indexed: IndexedProbeReport,
    pub metrics: ReadMetrics,
    pub numbers: ReportNumbers,
}

/// The text with one more line.
pub open spec fn line(output: Seq<char>, label: Seq<char>, value: Seq<char>) -> Seq<char> {
    output + label + value + "\n"@
}

fn push_line(output: &mut String, label: &str, value: &str)
    ensures
        final(output)@ == line(old(output)@, label@, value@),
{
    output.append(label);
    output.append(value);
    output.append("\n");
}

/// The name of a compression.
pub open spec fn spec_compression_name(compression: Seq<char>) -> Seq<char> {
    if compression.len() == 0 {
        "uncompressed"@
    } else {
        compression
    }
}

/// The name of a compression.
pub fn compression_name(compression: &str) -> (name: &str)
    ensures
        name@ == spec_compression_name(compression@),
{
    if compression.is_empty() {
        "uncompressed"
    } else {
        compression
    }
}

/// A count, if there is one.
pub open spec fn spec_optional_count(count: Option<usize>) -> Seq<char> {
    match count {
        None => "not attempted"@,
        Some(count) => text::decimal(count as nat),
    }
}

/// A count, if there is one.
pub fn optional_count(count: Option<usize>) -> (words: String)
    ensures
        words@ == spec_optional_count(count),
{
    match count {
        None => "not attempted".to_owned(),
        Some(count) => number(count as u64),
    }
}

/// Whether something holds, as a verdict.
pub open spec fn spec_verdict(holds: bool) -> Seq<char> {
    if holds {
        "OK"@
    } else {
        "FAILED"@
    }
}

fn verdict(holds: bool) -> (words: &'static str)
    ensures
        words@ == spec_verdict(holds),
{
    if holds {
        "OK"
    } else {
        "FAILED"
    }
}

/// The checksum of the summary section, which need not be there.
pub open spec fn spec_checksum(crc: u32) -> Seq<char> {
    if crc == 0 {
        "absent (0)"@
    } else {
        "0x"@ + text::hexadecimal(crc as nat, 8)
    }
}

fn checksum(crc: u32) -> (words: String)
    ensures
        words@ == spec_checksum(crc),
{
    if crc == 0 {
        return "absent (0)".to_owned();
    }
    let mut words: String = "0x".to_owned();
    push_hexadecimal(&mut words, crc as u64, 8);
    words
}

/// The first and the last message time, if they are known.
pub open spec fn spec_time_words(range: Option<(u64, u64)>) -> Seq<char> {
    match range {
        None => "unavailable"@,
        Some((start, end)) => text::decimal(start as nat) + ".."@ + text::decimal(end as nat)
            + " ns"@,
    }
}

fn time_words(range: Option<(u64, u64)>) -> (words: String)
    ensures
        words@ == spec_time_words(range),
{
    match range {
        None => "unavailable".to_owned(),
        Some((start, end)) => {
            let mut words: String = number(start);
            words.append("..");
            push_decimal(&mut words, end);
            words.append(" ns");
            words
        },
    }
}

/// Whether something is there.
pub open spec fn presence(present: bool) -> Seq<char> {
    if present {
        "present"@
    } else {
        "absent"@
    }
}

fn presence_words(present: bool) -> (words: &'static str)
    ensures
        words@ == presence(present),
{
    if present {
        "present"
    } else {
        "absent"
    }
}

/// A truth value in words.
pub open spec fn spec_truth(value: bool) -> Seq<char> {
    if value {
        "true"@
    } else {
        "false"@
    }
}

fn truth(value: bool) -> (words: &'static str)
    ensures
        words@ == spec_truth(value),
{
    if value {
        "true"
    } else {
        "false"
    }
}

/// What was read of the file.
pub open spec fn file_lines(output: Seq<char>, report: SpikeReport) -> Seq<char> {
    let output = line(output, "File name: "@, report.file_name@);
    let output = output + "File size: "@;
    let output = output + text::decimal(report.file_size as nat);
    let output = output + " bytes\n"@;
    let output = line(output, "Total bytes requested: "@, text::decimal(report.metrics.total_bytes_requested as nat));
    let output = line(output, "Number of range reads: "@, text::decimal(report.metrics.range_reads as nat));
    output
}

fn push_file_lines(output: &mut String, report: &SpikeReport)
    ensures
        final(output)@ == file_lines(old(output)@, *report),
{
    push_line(output, "File name: ", report.file_name.as_str());
    output.append("File size: ");
    push_decimal(output, report.file_size);
    output.append(" bytes\n");
    push_line(output, "Total bytes requested: ", number(report.metrics.total_bytes_requested).as_str());
    push_line(output, "Number of range reads: ", number(report.metrics.range_reads as u64).as_str());
}

/// Where the summary section lies.
pub open spec fn footer_lines(output: Seq<char>, footer: FooterInfo, summary: ByteRange) -> Seq<char> {
    let output = output + "Footer status: OK\n"@;
    let output = line(output, "Footer offset: "@, text::decimal(footer.footer_offset as nat));
    let output = output + "Summary status: OK\n"@;
    let output = output + "Summary byte range: "@;
    let output = output + text::decimal(summary.offset as nat);
    let output = output + ".."@;
    let output = output + text::decimal((summary.offset + summary.length) as nat);
    let output = output + " ("@;
    let output = output + text::decimal(summary.length as nat);
    let output = output + " bytes)\n"@;
    let output = line(output, "Summary offset section start: "@, text::decimal(footer.summary_offset_start as nat));
    let output = line(output, "Summary CRC: "@, spec_checksum(footer.summary_crc));
    output
}

fn push_footer_lines(output: &mut String, footer: FooterInfo, summary: ByteRange)
    requires
        summary.offset + summary.length <= u64::MAX,
    ensures
        final(output)@ == footer_lines(old(output)@, footer, summary),
{
    output.append("Footer status: OK\n");
    push_line(output, "Footer offset: ", number(footer.footer_offset).as_str());
    output.append("Summary status: OK\n");
    output.append("Summary byte range: ");
    push_decimal(output, summary.offset);
    output.append("..");
    push_decimal(output, summary.end());
    output.append(" (");
    push_decimal(output, summary.length as u64);
    output.append(" bytes)\n");
    push_line(output, "Summary offset section start: ", number(footer.summary_offset_start).as_str());
    push_line(output, "Summary CRC: ", checksum(footer.summary_crc).as_str());
}

/// How much the summary section lists.
pub open spec fn catalog_lines(output: Seq<char>, catalog: SummaryCatalogContent) -> Seq<char> {
    let output = line(output, "Schema count: "@, text::decimal(catalog.schemas.len() as nat));
    let output = line(output, "Channel count: "@, text::decimal(catalog.channels.len() as nat));
    let output = line(output, "Chunk index count: "@, text::decimal(catalog.chunk_indexes.len() as nat));
    let output = line(output, "Attachment index count: "@, text::decimal(catalog.attachment_indexes as nat));
    let output = line(output, "Metadata index count: "@, text::decimal(catalog.metadata_indexes as nat));
    let output = line(output, "Summary offset count: "@, text::decimal(catalog.summary_offsets.len() as nat));
    let output = line(output, "Message index information: "@, presence(catalog.spec_has_message_indexes()));
    let output = line(output, "Time range: "@, spec_time_words(catalog.spec_time_range()));
    output
}

fn push_catalog_lines(output: &mut String, catalog: &SummaryCatalog)
    ensures
        final(output)@ == catalog_lines(old(output)@, catalog@),
{
    push_line(output, "Schema count: ", number(catalog.schemas.len() as u64).as_str());
    push_line(output, "Channel count: ", number(catalog.channels.len() as u64).as_str());
    push_line(output, "Chunk index count: ", number(catalog.chunk_indexes.len() as u64).as_str());
    push_line(output, "Attachment index count: ", number(catalog.attachment_indexes).as_str());
    push_line(output, "Metadata index count: ", number(catalog.metadata_indexes).as_str());
    push_line(output, "Summary offset count: ", number(catalog.summary_offsets.len() as u64).as_str());
    push_line(output, "Message index information: ", presence_words(catalog.has_message_indexes()));
    push_line(output, "Time range: ", time_words(catalog.time_range()).as_str());
}

/// What reading took. Of a file without bytes no share was read.
pub open spec fn cost_lines(output: Seq<char>, report: SpikeReport) -> Seq<char> {
    let output = line(output, "Bytes fetched for catalog: "@, text::decimal(report.catalog_bytes as nat));
    let output = output + "Catalog read ratio: "@;
    let output = output + (if report.file_size == 0 {
        "0.000000"@
    } else {
        report.numbers.catalog_read_ratio@
    });
    let output = output + "%\n"@;
    let output = output + "Footer read: "@;
    let output = output + report.numbers.footer_read@;
    let output = output + " ms\n"@;
    let output = output + "Summary read: "@;
    let output = output + report.numbers.summary_read@;
    let output = output + " ms\n"@;
    let output = output + "Summary parse: "@;
    let output = output + report.numbers.summary_parse@;
    let output = output + " ms\n"@;
    let output = output + "Selected chunk read: "@;
    let output = output + report.numbers.chunk_read@;
    let output = output + " ms\n"@;
    let output = output + "Selected chunk parse/decompress: "@;
    let output = output + report.numbers.chunk_parse@;
    let output = output + " ms\n"@;
    output
}

fn push_cost_lines(output: &mut String, report: &SpikeReport)
    ensures
        final(output)@ == cost_lines(old(output)@, *report),
{
    push_line(output, "Bytes fetched for catalog: ", number(report.catalog_bytes).as_str());
    output.append("Catalog read ratio: ");
    if report.file_size == 0 {
        output.append("0.000000");
    } else {
        output.append(report.numbers.catalog_read_ratio.as_str());
    }
    output.append("%\n");
    output.append("Footer read: ");
    output.append(report.numbers.footer_read.as_str());
    output.append(" ms\n");
    output.append("Summary read: ");
    output.append(report.numbers.summary_read.as_str());
    output.append(" ms\n");
    output.append("Summary parse: ");
    output.append(report.numbers.summary_parse.as_str());
    output.append(" ms\n");
    output.append("Selected chunk read: ");
    output.append(report.numbers.chunk_read.as_str());
    output.append(" ms\n");
    output.append("Selected chunk parse/decompress: ");
    output.append(report.numbers.chunk_parse.as_str());
    output.append(" ms\n");
}

/// One schema.
pub open spec fn schema_line(output: Seq<char>, schema: SchemaContent) -> Seq<char> {
    let output = output + "  id="@;
    let output = output + text::decimal(schema.id as nat);
    let output = output + " name="@;
    let output = output + schema.name;
    let output = output + " encoding="@;
    let output = output + schema.encoding;
    let output = output + "\n"@;
    output
}

fn push_schema_line(output: &mut String, schema: &SchemaInfo)
    ensures
        final(output)@ == schema_line(old(output)@, schema@),
{
    output.append("  id=");
    push_decimal(output, schema.id as u64);
    output.append(" name=");
    output.append(schema.name.as_str());
    output.append(" encoding=");
    output.append(schema.encoding.as_str());
    output.append("\n");
}

/// One channel.
pub open spec fn channel_line(output: Seq<char>, channel: ChannelInfoContent) -> Seq<char> {
    let output = output + "  id="@;
    let output = output + text::decimal(channel.id as nat);
    let output = output + " schema="@;
    let output = output + text::decimal(channel.schema_id as nat);
    let output = output + " topic="@;
    let output = output + channel.topic;
    let output = output + " messageEncoding="@;
    let output = output + channel.message_encoding;
    let output = output + "\n"@;
    output
}

fn push_channel_line(output: &mut String, channel: &ChannelInfo)
    ensures
        final(output)@ == channel_line(old(output)@, channel@),
{
    output.append("  id=");
    push_decimal(output, channel.id as u64);
    output.append(" schema=");
    push_decimal(output, channel.schema_id as u64);
    output.append(" topic=");
    output.append(channel.topic.as_str());
    output.append(" messageEncoding=");
    output.append(channel.message_encoding.as_str());
    output.append("\n");
}

/// One chunk.
pub open spec fn chunk_line(output: Seq<char>, place: nat, chunk: ChunkContent) -> Seq<char> {
    let output = output + "  #"@;
    let output = output + text::decimal(place as nat);
    let output = output + " time="@;
    let output = output + text::decimal(chunk.message_start_time as nat);
    let output = output + ".."@;
    let output = output + text::decimal(chunk.message_end_time as nat);
    let output = output + " offset="@;
    let output = output + text::decimal(chunk.chunk_start_offset as nat);
    let output = output + " length="@;
    let output = output + text::decimal(chunk.chunk_length as nat);
    let output = output + " compression="@;
    let output = output + spec_compression_name(chunk.compression);
    let output = output + " compressed="@;
    let output = output + text::decimal(chunk.compressed_size as nat);
    let output = output + " uncompressed="@;
    let output = output + text::decimal(chunk.uncompressed_size as nat);
    let output = output + " messageIndexLength="@;
    let output = output + text::decimal(chunk.message_index_length as nat);
    let output = output + " messageIndexChannels="@;
    let output = output + text::decimal(chunk.message_index_offsets.len() as nat);
    let output = output + "\n"@;
    output
}

fn push_chunk_line(output: &mut String, place: usize, chunk: &ChunkFact)
    ensures
        final(output)@ == chunk_line(old(output)@, place as nat, chunk@),
{
    output.append("  #");
    push_decimal(output, place as u64);
    output.append(" time=");
    push_decimal(output, chunk.message_start_time);
    output.append("..");
    push_decimal(output, chunk.message_end_time);
    output.append(" offset=");
    push_decimal(output, chunk.chunk_start_offset);
    output.append(" length=");
    push_decimal(output, chunk.chunk_length);
    output.append(" compression=");
    output.append(compression_name(chunk.compression.as_str()));
    output.append(" compressed=");
    push_decimal(output, chunk.compressed_size);
    output.append(" uncompressed=");
    push_decimal(output, chunk.uncompressed_size);
    output.append(" messageIndexLength=");
    push_decimal(output, chunk.message_index_length);
    output.append(" messageIndexChannels=");
    push_decimal(output, chunk.message_index_offsets.len() as u64);
    output.append("\n");
}

/// One group of records.
pub open spec fn offset_line(output: Seq<char>, offset: SummaryOffset) -> Seq<char> {
    let output = output + "  groupOpcode=0x"@;
    let output = output + text::hexadecimal(offset.group_opcode as nat, 2);
    let output = output + " start="@;
    let output = output + text::decimal(offset.group_start as nat);
    let output = output + " length="@;
    let output = output + text::decimal(offset.group_length as nat);
    let output = output + "\n"@;
    output
}

fn push_offset_line(output: &mut String, offset: SummaryOffset)
    ensures
        final(output)@ == offset_line(old(output)@, offset),
{
    output.append("  groupOpcode=0x");
    push_hexadecimal(output, offset.group_opcode as u64, 2);
    output.append(" start=");
    push_decimal(output, offset.group_start);
    output.append(" length=");
    push_decimal(output, offset.group_length);
    output.append("\n");
}

/// The schemas.
pub open spec fn schema_lines(output: Seq<char>, schemas: Seq<SchemaContent>) -> Seq<char>
    decreases schemas.len(),
{
    if schemas.len() == 0 {
        output
    } else {
        schema_line(schema_lines(output, schemas.drop_last()), schemas.last())
    }
}

fn push_schema_lines(output: &mut String, schemas: &Vec<SchemaInfo>)
    ensures
        final(output)@ == schema_lines(old(output)@, summary::schema_contents(schemas@)),
{
    let ghost start = output@;
    let ghost all = summary::schema_contents(schemas@);
    let mut index: usize = 0;
    assert(all.take(0) =~= Seq::empty());
    while index < schemas.len()
        invariant
            index <= schemas@.len(),
            all == summary::schema_contents(schemas@),
            output@ == schema_lines(start, all.take(index as int)),
        decreases schemas@.len() - index,
    {
        proof {
            assert(all[index as int] == schemas@[index as int]@);
            assert(all.take(index + 1).drop_last() =~= all.take(index as int));
        }
        push_schema_line(output, &schemas[index]);
        index = index + 1;
    }
    assert(all.take(all.len() as int) =~= all);
}

/// The channels.
pub open spec fn channel_lines(output: Seq<char>, channels: Seq<ChannelInfoContent>) -> Seq<char>
    decreases channels.len(),
{
    if channels.len() == 0 {
        output
    } else {
        channel_line(channel_lines(output, channels.drop_last()), channels.last())
    }
}

fn push_channel_lines(output: &mut String, channels: &Vec<ChannelInfo>)
    ensures
        final(output)@ == channel_lines(old(output)@, summary::channel_contents(channels@)),
{
    let ghost start = output@;
    let ghost all = summary::channel_contents(channels@);
    let mut index: usize = 0;
    assert(all.take(0) =~= Seq::empty());
    while index < channels.len()
        invariant
            index <= channels@.len(),
            all == summary::channel_contents(channels@),
            output@ == channel_lines(start, all.take(index as int)),
        decreases channels@.len() - index,
    {
        proof {
            assert(all[index as int] == channels@[index as int]@);
            assert(all.take(index + 1).drop_last() =~= all.take(index as int));
        }
        push_channel_line(output, &channels[index]);
        index = index + 1;
    }
    assert(all.take(all.len() as int) =~= all);
}

/// The chunks.
pub open spec fn chunk_lines(output: Seq<char>, chunks: Seq<ChunkContent>) -> Seq<char>
    decreases chunks.len(),
{
    if chunks.len() == 0 {
        output
    } else {
        chunk_line(chunk_lines(output, chunks.drop_last()), (chunks.len() - 1) as nat, chunks.last())
    }
}

fn push_chunk_lines(output: &mut String, chunks: &Vec<ChunkFact>)
    ensures
        final(output)@ == chunk_lines(old(output)@, mcap_facts::chunk_contents(chunks@)),
{
    let ghost start = output@;
    let ghost all = mcap_facts::chunk_contents(chunks@);
    let mut index: usize = 0;
    assert(all.take(0) =~= Seq::empty());
    while index < chunks.len()
        invariant
            index <= chunks@.len(),
            all == mcap_facts::chunk_contents(chunks@),
            output@ == chunk_lines(start, all.take(index as int)),
        decreases chunks@.len() - index,
    {
        proof {
            assert(all[index as int] == chunks@[index as int]@);
            assert(all.take(index + 1).drop_last() =~= all.take(index as int));
        }
        push_chunk_line(output, index, &chunks[index]);
        index = index + 1;
    }
    assert(all.take(all.len() as int) =~= all);
}

/// The groups of records.
pub open spec fn offset_lines(output: Seq<char>, offsets: Seq<SummaryOffset>) -> Seq<char>
    decreases offsets.len(),
{
    if offsets.len() == 0 {
        output
    } else {
        offset_line(offset_lines(output, offsets.drop_last()), offsets.last())
    }
}

fn push_offset_lines(output: &mut String, offsets: &Vec<SummaryOffset>)
    ensures
        final(output)@ == offset_lines(old(output)@, offsets@),
{
    let ghost start = output@;
    let ghost all = offsets@;
    let mut index: usize = 0;
    assert(all.take(0) =~= Seq::empty());
    while index < offsets.len()
        invariant
            index <= offsets@.len(),
            all == offsets@,
            output@ == offset_lines(start, all.take(index as int)),
        decreases offsets@.len() - index,
    {
        proof {
            assert(all.take(index + 1).drop_last() =~= all.take(index as int));
        }
        push_offset_line(output, offsets[index]);
        index = index + 1;
    }
    assert(all.take(all.len() as int) =~= all);
}

/// The chunk that was looked into.
pub open spec fn selected_lines(output: Seq<char>, chunk: ChunkContent, range: ByteRange, seen: InspectionContent) -> Seq<char> {
    let output = output + "\nSelected chunk:\n"@;
    let output = line(output, "  file offset: "@, text::decimal(range.offset as nat));
    let output = line(output, "  requested bytes: "@, text::decimal(range.length as nat));
    let output = line(output, "  compression: "@, spec_compression_name(chunk.compression));
    let output = line(output, "  compressed size: "@, text::decimal(chunk.compressed_size as nat));
    let output = line(output, "  uncompressed size: "@, text::decimal(chunk.uncompressed_size as nat));
    let output = output + "  time range: "@;
    let output = output + text::decimal(chunk.message_start_time as nat);
    let output = output + ".."@;
    let output = output + text::decimal(chunk.message_end_time as nat);
    let output = output + "\n"@;
    let output = line(output, "  status: "@, seen.status);
    let output = line(output, "  parsed records: "@, spec_optional_count(seen.record_count));
    let output = line(output, "  parsed messages: "@, spec_optional_count(seen.message_count));
    output
}

fn push_selected_lines(output: &mut String, chunk: &ChunkFact, range: ByteRange, seen: &ChunkInspection)
    ensures
        final(output)@ == selected_lines(old(output)@, chunk@, range, seen@),
{
    output.append("\nSelected chunk:\n");
    push_line(output, "  file offset: ", number(range.offset).as_str());
    push_line(output, "  requested bytes: ", number(range.length as u64).as_str());
    push_line(output, "  compression: ", compression_name(chunk.compression.as_str()));
    push_line(output, "  compressed size: ", number(chunk.compressed_size).as_str());
    push_line(output, "  uncompressed size: ", number(chunk.uncompressed_size).as_str());
    output.append("  time range: ");
    push_decimal(output, chunk.message_start_time);
    output.append("..");
    push_decimal(output, chunk.message_end_time);
    output.append("\n");
    push_line(output, "  status: ", seen.status.as_str());
    push_line(output, "  parsed records: ", optional_count(seen.record_count).as_str());
    push_line(output, "  parsed messages: ", optional_count(seen.message_count).as_str());
}

/// What the search through the index found.
pub open spec fn probe_lines(output: Seq<char>, probe: IndexedProbeReport) -> Seq<char> {
    let output = output + "\nIndexedReader end-to-end:\n"@;
    let output = output + "  SummaryReader File.slice reads: "@;
    let output = output + text::decimal(probe.summary_range_reads as nat);
    let output = output + " ("@;
    let output = output + text::decimal(probe.summary_bytes_requested as nat);
    let output = output + " bytes)\n"@;
    let output = line(output, "  target topic: "@, probe.target_topic@);
    let output = output + "  arbitrary seek: "@;
    let output = output + text::decimal(probe.target_log_time as nat);
    let output = output + " ns → "@;
    let output = output + text::decimal(probe.message_log_time as nat);
    let output = output + " ns\n"@;
    let output = output + "  chunk record/data offsets: "@;
    let output = output + text::decimal(probe.chunk_start_offset as nat);
    let output = output + " / "@;
    let output = output + text::decimal(probe.chunk_data_range.offset as nat);
    let output = output + "\n"@;
    let output = output + "  chunk payload request: "@;
    let output = output + text::decimal(probe.chunk_data_range.length as nat);
    let output = output + " bytes\n"@;
    let output = line(output, "  absolute file offset mapping: "@, spec_verdict(probe.absolute_offset_matched));
    let output = line(output, "  topic filter: "@, spec_verdict(probe.topic_filter_matched));
    let output = output + "  ChunkIndex message-index map includes topic: "@;
    let output = output + spec_truth(probe.message_index_lists_topic);
    let output = output + " (index bytes="@;
    let output = output + text::decimal(probe.message_index_length as nat);
    let output = output + ")\n"@;
    let output = output + "  DomainPipelineSet → DomainState: OK ("@;
    let output = output + probe.pipeline.domain.spec_name();
    let output = output + " at "@;
    let output = output + text::signed_decimal(probe.pipeline.arrival_time.0 as int);
    let output = output + " ns)\n"@;
    let output = output
        + "  generation replacement: stale reads are discarded after every File.slice await\n"@;
    output
}

fn push_probe_lines(output: &mut String, probe: &IndexedProbeReport)
    ensures
        final(output)@ == probe_lines(old(output)@, *probe),
{
    output.append("\nIndexedReader end-to-end:\n");
    output.append("  SummaryReader File.slice reads: ");
    push_decimal(output, probe.summary_range_reads as u64);
    output.append(" (");
    push_decimal(output, probe.summary_bytes_requested);
    output.append(" bytes)\n");
    push_line(output, "  target topic: ", probe.target_topic.as_str());
    output.append("  arbitrary seek: ");
    push_decimal(output, probe.target_log_time);
    output.append(" ns → ");
    push_decimal(output, probe.message_log_time);
    output.append(" ns\n");
    output.append("  chunk record/data offsets: ");
    push_decimal(output, probe.chunk_start_offset);
    output.append(" / ");
    push_decimal(output, probe.chunk_data_range.offset);
    output.append("\n");
    output.append("  chunk payload request: ");
    push_decimal(output, probe.chunk_data_range.length as u64);
    output.append(" bytes\n");
    push_line(output, "  absolute file offset mapping: ", verdict(probe.absolute_offset_matched));
    push_line(output, "  topic filter: ", verdict(probe.topic_filter_matched));
    output.append("  ChunkIndex message-index map includes topic: ");
    output.append(truth(probe.message_index_lists_topic));
    output.append(" (index bytes=");
    push_decimal(output, probe.message_index_length);
    output.append(")\n");
    output.append("  DomainPipelineSet → DomainState: OK (");
    output.append(probe.pipeline.domain.name());
    output.append(" at ");
    push_signed(output, probe.pipeline.arrival_time.0);
    output.append(" ns)\n");
    output.append("  generation replacement: stale reads are discarded after every File.slice await\n");
}

/// The whole report, line by line.
pub open spec fn report_text(report: SpikeReport, summary: ByteRange) -> Seq<char> {
    let catalog = report.catalog@;
    let output = file_lines(Seq::empty(), report);
    let output = footer_lines(output, report.footer, summary);
    let output = catalog_lines(output, catalog);
    let output = cost_lines(output, report);
    let output = schema_lines(output + "\nSchemas:\n"@, catalog.schemas);
    let output = channel_lines(output + "\nChannels:\n"@, catalog.channels);
    let output = chunk_lines(output + "\nChunk indexes:\n"@, catalog.chunk_indexes);
    let output = offset_lines(output + "\nSummary offsets:\n"@, catalog.summary_offsets);
    let output = selected_lines(
        output,
        report.selected_chunk@,
        report.selected_chunk_range,
        report.chunk_inspection@,
    );
    probe_lines(output, report.indexed)
}

/// The report on a file with a summary section.
pub fn format_report(report: &SpikeReport) -> (output: String)
    requires
        report.footer.summary_range matches Some(summary) && summary.offset + summary.length
            <= u64::MAX,
    ensures
        output@ == report_text(*report, report.footer.summary_range->Some_0),
{
    let mut output: String = String::new();
    assert(output@ =~= Seq::empty());
    push_file_lines(&mut output, report);
    if let Some(summary) = report.footer.summary_range {
        push_footer_lines(&mut output, report.footer, summary);
    }
    push_catalog_lines(&mut output, &report.catalog);
    push_cost_lines(&mut output, report);
    output.append("\nSchemas:\n");
    push_schema_lines(&mut output, &report.catalog.schemas);
    output.append("\nChannels:\n");
    push_channel_lines(&mut output, &report.catalog.channels);
    output.append("\nChunk indexes:\n");
    push_chunk_lines(&mut output, &report.catalog.chunk_indexes);
    output.append("\nSummary offsets:\n");
    push_offset_lines(&mut output, &report.catalog.summary_offsets);
    push_selected_lines(
        &mut output,
        &report.selected_chunk,
        report.selected_chunk_range,
        &report.chunk_inspection,
    );
    push_probe_lines(&mut output, &report.indexed);
    output
}

/// A text holds some words.
#[verifier::opaque]
pub open spec fn tells(text: Seq<char>, words: Seq<char>) -> bool {
    exists|i: int|
        0 <= i <= text.len() - words.len() && #[trigger] text.subrange(i, i + words.len()) == words
}

/// A text begins with another.
#[verifier::opaque]
pub(crate) open spec fn begins(short: Seq<char>, long: Seq<char>) -> bool {
    short.len() <= long.len() && long.take(short.len() as int) == short
}

proof fn lemma_joined(text: Seq<char>, first: Seq<char>, second: Seq<char>)
    ensures
        text + (first + second) == text + first + second,
{
    assert(text + (first + second) =~= text + first + second);
}

pub(crate) proof fn lemma_begins_itself(text: Seq<char>)
    ensures
        begins(text, text),
{
    reveal(begins);
    assert(text.take(text.len() as int) =~= text);
}

pub(crate) proof fn lemma_told(text: Seq<char>, words: Seq<char>, whole: Seq<char>)
    requires
        begins(text + words, whole),
    ensures
        begins(text, whole),
        tells(whole, words),
{
    reveal(begins);
    reveal(tells);
    let longer = text + words;
    assert(whole.take(text.len() as int) =~= longer.take(text.len() as int));
    assert(longer.take(text.len() as int) =~= text);
    let start = text.len() as int;
    assert(whole.subrange(start, start + words.len()) =~= longer.subrange(
        start,
        start + words.len(),
    ));
    assert(longer.subrange(start, start + words.len()) =~= words);
}

proof fn lemma_file_lines(
    output: Seq<char>,
    report: SpikeReport,
    whole: Seq<char>,
)
    requires
        begins(file_lines(output, report), whole),
    ensures
        begins(output, whole),
        tells(whole, "File name: "@ + report.file_name@ + "\n"@),
        tells(whole, "File size: "@ + text::decimal(report.file_size as nat) + " bytes\n"@),
        tells(whole, "Total bytes requested: "@
            + text::decimal(report.metrics.total_bytes_requested as nat) + "\n"@),
        tells(whole, "Number of range reads: "@ + text::decimal(report.metrics.range_reads as nat)
            + "\n"@),
{
    let words_0 = "File name: "@ + report.file_name@ + "\n"@;
    lemma_joined(output, "File name: "@, report.file_name@);
    lemma_joined(output, "File name: "@ + report.file_name@, "\n"@);
    let after_0 = output + words_0;
    let words_1 = "File size: "@ + text::decimal(report.file_size as nat) + " bytes\n"@;
    lemma_joined(after_0, "File size: "@, text::decimal(report.file_size as nat));
    lemma_joined(after_0, "File size: "@ + text::decimal(report.file_size as nat), " bytes\n"@);
    let after_1 = after_0 + words_1;
    let words_2 = "Total bytes requested: "@
        + text::decimal(report.metrics.total_bytes_requested as nat) + "\n"@;
    lemma_joined(after_1, "Total bytes requested: "@, text::decimal(report.metrics.total_bytes_requested as nat));
    lemma_joined(after_1, "Total bytes requested: "@
        + text::decimal(report.metrics.total_bytes_requested as nat), "\n"@);
    let after_2 = after_1 + words_2;
    let words_3 = "Number of range reads: "@ + text::decimal(report.metrics.range_reads as nat)
        + "\n"@;
    lemma_joined(after_2, "Number of range reads: "@, text::decimal(report.metrics.range_reads as nat));
    lemma_joined(after_2, "Number of range reads: "@
        + text::decimal(report.metrics.range_reads as nat), "\n"@);
    let after_3 = after_2 + words_3;
    assert(after_3 == file_lines(output, report));
    lemma_told(after_2, words_3, whole);
    lemma_told(after_1, words_2, whole);
    lemma_told(after_0, words_1, whole);
    lemma_told(output, words_0, whole);
}

proof fn lemma_footer_lines(
    output: Seq<char>,
    footer: FooterInfo,
    summary: ByteRange,
    whole: Seq<char>,
)
    requires
        begins(footer_lines(output, footer, summary), whole),
    ensures
        begins(output, whole),
        tells(whole, "Footer status: OK\n"@),
        tells(whole, "Footer offset: "@ + text::decimal(footer.footer_offset as nat) + "\n"@),
        tells(whole, "Summary status: OK\n"@),
        tells(whole, "Summary byte range: "@ + text::decimal(summary.offset as nat) + ".."@
            + text::decimal((summary.offset + summary.length) as nat) + " ("@
            + text::decimal(summary.length as nat) + " bytes)\n"@),
        tells(whole, "Summary offset section start: "@
            + text::decimal(footer.summary_offset_start as nat) + "\n"@),
        tells(whole, "Summary CRC: "@ + spec_checksum(footer.summary_crc) + "\n"@),
{
    let words_0 = "Footer status: OK\n"@;
    let after_0 = output + words_0;
    let words_1 = "Footer offset: "@ + text::decimal(footer.footer_offset as nat) + "\n"@;
    lemma_joined(after_0, "Footer offset: "@, text::decimal(footer.footer_offset as nat));
    lemma_joined(after_0, "Footer offset: "@ + text::decimal(footer.footer_offset as nat), "\n"@);
    let after_1 = after_0 + words_1;
    let words_2 = "Summary status: OK\n"@;
    let after_2 = after_1 + words_2;
    let words_3 = "Summary byte range: "@ + text::decimal(summary.offset as nat) + ".."@
        + text::decimal((summary.offset + summary.length) as nat) + " ("@
        + text::decimal(summary.length as nat) + " bytes)\n"@;
    lemma_joined(after_2, "Summary byte range: "@, text::decimal(summary.offset as nat));
    lemma_joined(after_2, "Summary byte range: "@ + text::decimal(summary.offset as nat), ".."@);
    lemma_joined(after_2, "Summary byte range: "@ + text::decimal(summary.offset as nat)
        + ".."@, text::decimal((summary.offset + summary.length) as nat));
    lemma_joined(after_2, "Summary byte range: "@ + text::decimal(summary.offset as nat) + ".."@
        + text::decimal((summary.offset + summary.length) as nat), " ("@);
    lemma_joined(after_2, "Summary byte range: "@ + text::decimal(summary.offset as nat) + ".."@
        + text::decimal((summary.offset + summary.length) as nat)
        + " ("@, text::decimal(summary.length as nat));
    lemma_joined(after_2, "Summary byte range: "@ + text::decimal(summary.offset as nat) + ".."@
        + text::decimal((summary.offset + summary.length) as nat) + " ("@
        + text::decimal(summary.length as nat), " bytes)\n"@);
    let after_3 = after_2 + words_3;
    let words_4 = "Summary offset section start: "@
        + text::decimal(footer.summary_offset_start as nat) + "\n"@;
    lemma_joined(after_3, "Summary offset section start: "@, text::decimal(footer.summary_offset_start as nat));
    lemma_joined(after_3, "Summary offset section start: "@
        + text::decimal(footer.summary_offset_start as nat), "\n"@);
    let after_4 = after_3 + words_4;
    let words_5 = "Summary CRC: "@ + spec_checksum(footer.summary_crc) + "\n"@;
    lemma_joined(after_4, "Summary CRC: "@, spec_checksum(footer.summary_crc));
    lemma_joined(after_4, "Summary CRC: "@ + spec_checksum(footer.summary_crc), "\n"@);
    let after_5 = after_4 + words_5;
    assert(after_5 == footer_lines(output, footer, summary));
    lemma_told(after_4, words_5, whole);
    lemma_told(after_3, words_4, whole);
    lemma_told(after_2, words_3, whole);
    lemma_told(after_1, words_2, whole);
    lemma_told(after_0, words_1, whole);
    lemma_told(output, words_0, whole);
}

proof fn lemma_catalog_lines(
    output: Seq<char>,
    catalog: SummaryCatalogContent,
    whole: Seq<char>,
)
    requires
        begins(catalog_lines(output, catalog), whole),
    ensures
        begins(output, whole),
        tells(whole, "Schema count: "@ + text::decimal(catalog.schemas.len() as nat) + "\n"@),
        tells(whole, "Channel count: "@ + text::decimal(catalog.channels.len() as nat) + "\n"@),
        tells(whole, "Chunk index count: "@ + text::decimal(catalog.chunk_indexes.len() as nat)
            + "\n"@),
        tells(whole, "Attachment index count: "@
            + text::decimal(catalog.attachment_indexes as nat) + "\n"@),
        tells(whole, "Metadata index count: "@ + text::decimal(catalog.metadata_indexes as nat)
            + "\n"@),
        tells(whole, "Summary offset count: "@
            + text::decimal(catalog.summary_offsets.len() as nat) + "\n"@),
        tells(whole, "Message index information: "@ + presence(catalog.spec_has_message_indexes())
            + "\n"@),
        tells(whole, "Time range: "@ + spec_time_words(catalog.spec_time_range()) + "\n"@),
{
    let words_0 = "Schema count: "@ + text::decimal(catalog.schemas.len() as nat) + "\n"@;
    lemma_joined(output, "Schema count: "@, text::decimal(catalog.schemas.len() as nat));
    lemma_joined(output, "Schema count: "@ + text::decimal(catalog.schemas.len() as nat), "\n"@);
    let after_0 = output + words_0;
    let words_1 = "Channel count: "@ + text::decimal(catalog.channels.len() as nat) + "\n"@;
    lemma_joined(after_0, "Channel count: "@, text::decimal(catalog.channels.len() as nat));
    lemma_joined(after_0, "Channel count: "@ + text::decimal(catalog.channels.len() as nat), "\n"@);
    let after_1 = after_0 + words_1;
    let words_2 = "Chunk index count: "@ + text::decimal(catalog.chunk_indexes.len() as nat)
        + "\n"@;
    lemma_joined(after_1, "Chunk index count: "@, text::decimal(catalog.chunk_indexes.len() as nat));
    lemma_joined(after_1, "Chunk index count: "@
        + text::decimal(catalog.chunk_indexes.len() as nat), "\n"@);
    let after_2 = after_1 + words_2;
    let words_3 = "Attachment index count: "@ + text::decimal(catalog.attachment_indexes as nat)
        + "\n"@;
    lemma_joined(after_2, "Attachment index count: "@, text::decimal(catalog.attachment_indexes as nat));
    lemma_joined(after_2, "Attachment index count: "@
        + text::decimal(catalog.attachment_indexes as nat), "\n"@);
    let after_3 = after_2 + words_3;
    let words_4 = "Metadata index count: "@ + text::decimal(catalog.metadata_indexes as nat)
        + "\n"@;
    lemma_joined(after_3, "Metadata index count: "@, text::decimal(catalog.metadata_indexes as nat));
    lemma_joined(after_3, "Metadata index count: "@
        + text::decimal(catalog.metadata_indexes as nat), "\n"@);
    let after_4 = after_3 + words_4;
    let words_5 = "Summary offset count: "@ + text::decimal(catalog.summary_offsets.len() as nat)
        + "\n"@;
    lemma_joined(after_4, "Summary offset count: "@, text::decimal(catalog.summary_offsets.len() as nat));
    lemma_joined(after_4, "Summary offset count: "@
        + text::decimal(catalog.summary_offsets.len() as nat), "\n"@);
    let after_5 = after_4 + words_5;
    let words_6 = "Message index information: "@ + presence(catalog.spec_has_message_indexes())
        + "\n"@;
    lemma_joined(after_5, "Message index information: "@, presence(catalog.spec_has_message_indexes()));
    lemma_joined(after_5, "Message index information: "@
        + presence(catalog.spec_has_message_indexes()), "\n"@);
    let after_6 = after_5 + words_6;
    let words_7 = "Time range: "@ + spec_time_words(catalog.spec_time_range()) + "\n"@;
    lemma_joined(after_6, "Time range: "@, spec_time_words(catalog.spec_time_range()));
    lemma_joined(after_6, "Time range: "@ + spec_time_words(catalog.spec_time_range()), "\n"@);
    let after_7 = after_6 + words_7;
    assert(after_7 == catalog_lines(output, catalog));
    lemma_told(after_6, words_7, whole);
    lemma_told(after_5, words_6, whole);
    lemma_told(after_4, words_5, whole);
    lemma_told(after_3, words_4, whole);
    lemma_told(after_2, words_3, whole);
    lemma_told(after_1, words_2, whole);
    lemma_told(after_0, words_1, whole);
    lemma_told(output, words_0, whole);
}

proof fn lemma_cost_lines(
    output: Seq<char>,
    report: SpikeReport,
    whole: Seq<char>,
)
    requires
        begins(cost_lines(output, report), whole),
    ensures
        begins(output, whole),
        tells(whole, "Bytes fetched for catalog: "@ + text::decimal(report.catalog_bytes as nat)
            + "\n"@),
        tells(whole, "Catalog read ratio: "@
            + (if report.file_size == 0 { "0.000000"@ } else { report.numbers.catalog_read_ratio@ })
            + "%\n"@),
        tells(whole, "Footer read: "@ + report.numbers.footer_read@ + " ms\n"@),
        tells(whole, "Summary read: "@ + report.numbers.summary_read@ + " ms\n"@),
        tells(whole, "Summary parse: "@ + report.numbers.summary_parse@ + " ms\n"@),
        tells(whole, "Selected chunk read: "@ + report.numbers.chunk_read@ + " ms\n"@),
        tells(whole, "Selected chunk parse/decompress: "@ + report.numbers.chunk_parse@ + " ms\n"@),
{
    let words_0 = "Bytes fetched for catalog: "@ + text::decimal(report.catalog_bytes as nat)
        + "\n"@;
    lemma_joined(output, "Bytes fetched for catalog: "@, text::decimal(report.catalog_bytes as nat));
    lemma_joined(output, "Bytes fetched for catalog: "@
        + text::decimal(report.catalog_bytes as nat), "\n"@);
    let after_0 = output + words_0;
    let words_1 = "Catalog read ratio: "@
        + (if report.file_size == 0 { "0.000000"@ } else { report.numbers.catalog_read_ratio@ })
        + "%\n"@;
    lemma_joined(after_0, "Catalog read ratio: "@, (if report.file_size == 0 { "0.000000"@ } else { report.numbers.catalog_read_ratio@ }));
    lemma_joined(after_0, "Catalog read ratio: "@
        + (if report.file_size == 0 { "0.000000"@ } else { report.numbers.catalog_read_ratio@ }), "%\n"@);
    let after_1 = after_0 + words_1;
    let words_2 = "Footer read: "@ + report.numbers.footer_read@ + " ms\n"@;
    lemma_joined(after_1, "Footer read: "@, report.numbers.footer_read@);
    lemma_joined(after_1, "Footer read: "@ + report.numbers.footer_read@, " ms\n"@);
    let after_2 = after_1 + words_2;
    let words_3 = "Summary read: "@ + report.numbers.summary_read@ + " ms\n"@;
    lemma_joined(after_2, "Summary read: "@, report.numbers.summary_read@);
    lemma_joined(after_2, "Summary read: "@ + report.numbers.summary_read@, " ms\n"@);
    let after_3 = after_2 + words_3;
    let words_4 = "Summary parse: "@ + report.numbers.summary_parse@ + " ms\n"@;
    lemma_joined(after_3, "Summary parse: "@, report.numbers.summary_parse@);
    lemma_joined(after_3, "Summary parse: "@ + report.numbers.summary_parse@, " ms\n"@);
    let after_4 = after_3 + words_4;
    let words_5 = "Selected chunk read: "@ + report.numbers.chunk_read@ + " ms\n"@;
    lemma_joined(after_4, "Selected chunk read: "@, report.numbers.chunk_read@);
    lemma_joined(after_4, "Selected chunk read: "@ + report.numbers.chunk_read@, " ms\n"@);
    let after_5 = after_4 + words_5;
    let words_6 = "Selected chunk parse/decompress: "@ + report.numbers.chunk_parse@ + " ms\n"@;
    lemma_joined(after_5, "Selected chunk parse/decompress: "@, report.numbers.chunk_parse@);
    lemma_joined(after_5, "Selected chunk parse/decompress: "@
        + report.numbers.chunk_parse@, " ms\n"@);
    let after_6 = after_5 + words_6;
    assert(after_6 == cost_lines(output, report));
    lemma_told(after_5, words_6, whole);
    lemma_told(after_4, words_5, whole);
    lemma_told(after_3, words_4, whole);
    lemma_told(after_2, words_3, whole);
    lemma_told(after_1, words_2, whole);
    lemma_told(after_0, words_1, whole);
    lemma_told(output, words_0, whole);
}

proof fn lemma_selected_lines(
    output: Seq<char>,
    chunk: ChunkContent,
    range: ByteRange,
    seen: InspectionContent,
    whole: Seq<char>,
)
    requires
        begins(selected_lines(output, chunk, range, seen), whole),
    ensures
        begins(output, whole),
        tells(whole, "\nSelected chunk:\n"@),
        tells(whole, "  file offset: "@ + text::decimal(range.offset as nat) + "\n"@),
        tells(whole, "  requested bytes: "@ + text::decimal(range.length as nat) + "\n"@),
        tells(whole, "  compression: "@ + spec_compression_name(chunk.compression) + "\n"@),
        tells(whole, "  compressed size: "@ + text::decimal(chunk.compressed_size as nat) + "\n"@),
        tells(whole, "  uncompressed size: "@ + text::decimal(chunk.uncompressed_size as nat)
            + "\n"@),
        tells(whole, "  time range: "@ + text::decimal(chunk.message_start_time as nat) + ".."@
            + text::decimal(chunk.message_end_time as nat) + "\n"@),
        tells(whole, "  status: "@ + seen.status + "\n"@),
        tells(whole, "  parsed records: "@ + spec_optional_count(seen.record_count) + "\n"@),
        tells(whole, "  parsed messages: "@ + spec_optional_count(seen.message_count) + "\n"@),
{
    let words_0 = "\nSelected chunk:\n"@;
    let after_0 = output + words_0;
    let words_1 = "  file offset: "@ + text::decimal(range.offset as nat) + "\n"@;
    lemma_joined(after_0, "  file offset: "@, text::decimal(range.offset as nat));
    lemma_joined(after_0, "  file offset: "@ + text::decimal(range.offset as nat), "\n"@);
    let after_1 = after_0 + words_1;
    let words_2 = "  requested bytes: "@ + text::decimal(range.length as nat) + "\n"@;
    lemma_joined(after_1, "  requested bytes: "@, text::decimal(range.length as nat));
    lemma_joined(after_1, "  requested bytes: "@ + text::decimal(range.length as nat), "\n"@);
    let after_2 = after_1 + words_2;
    let words_3 = "  compression: "@ + spec_compression_name(chunk.compression) + "\n"@;
    lemma_joined(after_2, "  compression: "@, spec_compression_name(chunk.compression));
    lemma_joined(after_2, "  compression: "@ + spec_compression_name(chunk.compression), "\n"@);
    let after_3 = after_2 + words_3;
    let words_4 = "  compressed size: "@ + text::decimal(chunk.compressed_size as nat) + "\n"@;
    lemma_joined(after_3, "  compressed size: "@, text::decimal(chunk.compressed_size as nat));
    lemma_joined(after_3, "  compressed size: "@
        + text::decimal(chunk.compressed_size as nat), "\n"@);
    let after_4 = after_3 + words_4;
    let words_5 = "  uncompressed size: "@ + text::decimal(chunk.uncompressed_size as nat) + "\n"@;
    lemma_joined(after_4, "  uncompressed size: "@, text::decimal(chunk.uncompressed_size as nat));
    lemma_joined(after_4, "  uncompressed size: "@
        + text::decimal(chunk.uncompressed_size as nat), "\n"@);
    let after_5 = after_4 + words_5;
    let words_6 = "  time range: "@ + text::decimal(chunk.message_start_time as nat) + ".."@
        + text::decimal(chunk.message_end_time as nat) + "\n"@;
    lemma_joined(after_5, "  time range: "@, text::decimal(chunk.message_start_time as nat));
    lemma_joined(after_5, "  time range: "@
        + text::decimal(chunk.message_start_time as nat), ".."@);
    lemma_joined(after_5, "  time range: "@ + text::decimal(chunk.message_start_time as nat)
        + ".."@, text::decimal(chunk.message_end_time as nat));
    lemma_joined(after_5, "  time range: "@ + text::decimal(chunk.message_start_time as nat)
        + ".."@ + text::decimal(chunk.message_end_time as nat), "\n"@);
    let after_6 = after_5 + words_6;
    let words_7 = "  status: "@ + seen.status + "\n"@;
    lemma_joined(after_6, "  status: "@, seen.status);
    lemma_joined(after_6, "  status: "@ + seen.status, "\n"@);
    let after_7 = after_6 + words_7;
    let words_8 = "  parsed records: "@ + spec_optional_count(seen.record_count) + "\n"@;
    lemma_joined(after_7, "  parsed records: "@, spec_optional_count(seen.record_count));
    lemma_joined(after_7, "  parsed records: "@ + spec_optional_count(seen.record_count), "\n"@);
    let after_8 = after_7 + words_8;
    let words_9 = "  parsed messages: "@ + spec_optional_count(seen.message_count) + "\n"@;
    lemma_joined(after_8, "  parsed messages: "@, spec_optional_count(seen.message_count));
    lemma_joined(after_8, "  parsed messages: "@ + spec_optional_count(seen.message_count), "\n"@);
    let after_9 = after_8 + words_9;
    assert(after_9 == selected_lines(output, chunk, range, seen));
    lemma_told(after_8, words_9, whole);
    lemma_told(after_7, words_8, whole);
    lemma_told(after_6, words_7, whole);
    lemma_told(after_5, words_6, whole);
    lemma_told(after_4, words_5, whole);
    lemma_told(after_3, words_4, whole);
    lemma_told(after_2, words_3, whole);
    lemma_told(after_1, words_2, whole);
    lemma_told(after_0, words_1, whole);
    lemma_told(output, words_0, whole);
}

proof fn lemma_probe_lines(
    output: Seq<char>,
    probe: IndexedProbeReport,
    whole: Seq<char>,
)
    requires
        begins(probe_lines(output, probe), whole),
    ensures
        begins(output, whole),
        tells(whole, "\nIndexedReader end-to-end:\n"@),
        tells(whole, "  SummaryReader File.slice reads: "@
            + text::decimal(probe.summary_range_reads as nat) + " ("@
            + text::decimal(probe.summary_bytes_requested as nat) + " bytes)\n"@),
        tells(whole, "  target topic: "@ + probe.target_topic@ + "\n"@),
        tells(whole, "  arbitrary seek: "@ + text::decimal(probe.target_log_time as nat)
            + " ns → "@ + text::decimal(probe.message_log_time as nat) + " ns\n"@),
        tells(whole, "  chunk record/data offsets: "@
            + text::decimal(probe.chunk_start_offset as nat) + " / "@
            + text::decimal(probe.chunk_data_range.offset as nat) + "\n"@),
        tells(whole, "  chunk payload request: "@
            + text::decimal(probe.chunk_data_range.length as nat) + " bytes\n"@),
        tells(whole, "  absolute file offset mapping: "@
            + spec_verdict(probe.absolute_offset_matched) + "\n"@),
        tells(whole, "  topic filter: "@ + spec_verdict(probe.topic_filter_matched) + "\n"@),
        tells(whole, "  ChunkIndex message-index map includes topic: "@
            + spec_truth(probe.message_index_lists_topic) + " (index bytes="@
            + text::decimal(probe.message_index_length as nat) + ")\n"@),
        tells(whole, "  DomainPipelineSet → DomainState: OK ("@
            + probe.pipeline.domain.spec_name() + " at "@
            + text::signed_decimal(probe.pipeline.arrival_time.0 as int) + " ns)\n"@),
        tells(whole, "  generation replacement: stale reads are discarded after every File.slice await\n"@),
{
    let words_0 = "\nIndexedReader end-to-end:\n"@;
    let after_0 = output + words_0;
    let words_1 = "  SummaryReader File.slice reads: "@
        + text::decimal(probe.summary_range_reads as nat) + " ("@
        + text::decimal(probe.summary_bytes_requested as nat) + " bytes)\n"@;
    lemma_joined(after_0, "  SummaryReader File.slice reads: "@, text::decimal(probe.summary_range_reads as nat));
    lemma_joined(after_0, "  SummaryReader File.slice reads: "@
        + text::decimal(probe.summary_range_reads as nat), " ("@);
    lemma_joined(after_0, "  SummaryReader File.slice reads: "@
        + text::decimal(probe.summary_range_reads as nat)
        + " ("@, text::decimal(probe.summary_bytes_requested as nat));
    lemma_joined(after_0, "  SummaryReader File.slice reads: "@
        + text::decimal(probe.summary_range_reads as nat) + " ("@
        + text::decimal(probe.summary_bytes_requested as nat), " bytes)\n"@);
    let after_1 = after_0 + words_1;
    let words_2 = "  target topic: "@ + probe.target_topic@ + "\n"@;
    lemma_joined(after_1, "  target topic: "@, probe.target_topic@);
    lemma_joined(after_1, "  target topic: "@ + probe.target_topic@, "\n"@);
    let after_2 = after_1 + words_2;
    let words_3 = "  arbitrary seek: "@ + text::decimal(probe.target_log_time as nat) + " ns → "@
        + text::decimal(probe.message_log_time as nat) + " ns\n"@;
    lemma_joined(after_2, "  arbitrary seek: "@, text::decimal(probe.target_log_time as nat));
    lemma_joined(after_2, "  arbitrary seek: "@
        + text::decimal(probe.target_log_time as nat), " ns → "@);
    lemma_joined(after_2, "  arbitrary seek: "@ + text::decimal(probe.target_log_time as nat)
        + " ns → "@, text::decimal(probe.message_log_time as nat));
    lemma_joined(after_2, "  arbitrary seek: "@ + text::decimal(probe.target_log_time as nat)
        + " ns → "@ + text::decimal(probe.message_log_time as nat), " ns\n"@);
    let after_3 = after_2 + words_3;
    let words_4 = "  chunk record/data offsets: "@
        + text::decimal(probe.chunk_start_offset as nat) + " / "@
        + text::decimal(probe.chunk_data_range.offset as nat) + "\n"@;
    lemma_joined(after_3, "  chunk record/data offsets: "@, text::decimal(probe.chunk_start_offset as nat));
    lemma_joined(after_3, "  chunk record/data offsets: "@
        + text::decimal(probe.chunk_start_offset as nat), " / "@);
    lemma_joined(after_3, "  chunk record/data offsets: "@
        + text::decimal(probe.chunk_start_offset as nat)
        + " / "@, text::decimal(probe.chunk_data_range.offset as nat));
    lemma_joined(after_3, "  chunk record/data offsets: "@
        + text::decimal(probe.chunk_start_offset as nat) + " / "@
        + text::decimal(probe.chunk_data_range.offset as nat), "\n"@);
    let after_4 = after_3 + words_4;
    let words_5 = "  chunk payload request: "@
        + text::decimal(probe.chunk_data_range.length as nat) + " bytes\n"@;
    lemma_joined(after_4, "  chunk payload request: "@, text::decimal(probe.chunk_data_range.length as nat));
    lemma_joined(after_4, "  chunk payload request: "@
        + text::decimal(probe.chunk_data_range.length as nat), " bytes\n"@);
    let after_5 = after_4 + words_5;
    let words_6 = "  absolute file offset mapping: "@
        + spec_verdict(probe.absolute_offset_matched) + "\n"@;
    lemma_joined(after_5, "  absolute file offset mapping: "@, spec_verdict(probe.absolute_offset_matched));
    lemma_joined(after_5, "  absolute file offset mapping: "@
        + spec_verdict(probe.absolute_offset_matched), "\n"@);
    let after_6 = after_5 + words_6;
    let words_7 = "  topic filter: "@ + spec_verdict(probe.topic_filter_matched) + "\n"@;
    lemma_joined(after_6, "  topic filter: "@, spec_verdict(probe.topic_filter_matched));
    lemma_joined(after_6, "  topic filter: "@ + spec_verdict(probe.topic_filter_matched), "\n"@);
    let after_7 = after_6 + words_7;
    let words_8 = "  ChunkIndex message-index map includes topic: "@
        + spec_truth(probe.message_index_lists_topic) + " (index bytes="@
        + text::decimal(probe.message_index_length as nat) + ")\n"@;
    lemma_joined(after_7, "  ChunkIndex message-index map includes topic: "@, spec_truth(probe.message_index_lists_topic));
    lemma_joined(after_7, "  ChunkIndex message-index map includes topic: "@
        + spec_truth(probe.message_index_lists_topic), " (index bytes="@);
    lemma_joined(after_7, "  ChunkIndex message-index map includes topic: "@
        + spec_truth(probe.message_index_lists_topic)
        + " (index bytes="@, text::decimal(probe.message_index_length as nat));
    lemma_joined(after_7, "  ChunkIndex message-index map includes topic: "@
        + spec_truth(probe.message_index_lists_topic) + " (index bytes="@
        + text::decimal(probe.message_index_length as nat), ")\n"@);
    let after_8 = after_7 + words_8;
    let words_9 = "  DomainPipelineSet → DomainState: OK ("@ + probe.pipeline.domain.spec_name()
        + " at "@ + text::signed_decimal(probe.pipeline.arrival_time.0 as int) + " ns)\n"@;
    lemma_joined(after_8, "  DomainPipelineSet → DomainState: OK ("@, probe.pipeline.domain.spec_name());
    lemma_joined(after_8, "  DomainPipelineSet → DomainState: OK ("@
        + probe.pipeline.domain.spec_name(), " at "@);
    lemma_joined(after_8, "  DomainPipelineSet → DomainState: OK ("@
        + probe.pipeline.domain.spec_name()
        + " at "@, text::signed_decimal(probe.pipeline.arrival_time.0 as int));
    lemma_joined(after_8, "  DomainPipelineSet → DomainState: OK ("@
        + probe.pipeline.domain.spec_name() + " at "@
        + text::signed_decimal(probe.pipeline.arrival_time.0 as int), " ns)\n"@);
    let after_9 = after_8 + words_9;
    let words_10 = "  generation replacement: stale reads are discarded after every File.slice await\n"@;
    let after_10 = after_9 + words_10;
    assert(after_10 == probe_lines(output, probe));
    lemma_told(after_9, words_10, whole);
    lemma_told(after_8, words_9, whole);
    lemma_told(after_7, words_8, whole);
    lemma_told(after_6, words_7, whole);
    lemma_told(after_5, words_6, whole);
    lemma_told(after_4, words_5, whole);
    lemma_told(after_3, words_4, whole);
    lemma_told(after_2, words_3, whole);
    lemma_told(after_1, words_2, whole);
    lemma_told(after_0, words_1, whole);
    lemma_told(output, words_0, whole);
}

proof fn lemma_schema_line(
    output: Seq<char>,
    schema: SchemaContent,
    whole: Seq<char>,
)
    requires
        begins(schema_line(output, schema), whole),
    ensures
        begins(output, whole),
        tells(whole, "  id="@ + text::decimal(schema.id as nat) + " name="@ + schema.name
            + " encoding="@ + schema.encoding + "\n"@),
{
    let words_0 = "  id="@ + text::decimal(schema.id as nat) + " name="@ + schema.name
        + " encoding="@ + schema.encoding + "\n"@;
    lemma_joined(output, "  id="@, text::decimal(schema.id as nat));
    lemma_joined(output, "  id="@ + text::decimal(schema.id as nat), " name="@);
    lemma_joined(output, "  id="@ + text::decimal(schema.id as nat) + " name="@, schema.name);
    lemma_joined(output, "  id="@ + text::decimal(schema.id as nat) + " name="@
        + schema.name, " encoding="@);
    lemma_joined(output, "  id="@ + text::decimal(schema.id as nat) + " name="@ + schema.name
        + " encoding="@, schema.encoding);
    lemma_joined(output, "  id="@ + text::decimal(schema.id as nat) + " name="@ + schema.name
        + " encoding="@ + schema.encoding, "\n"@);
    let after_0 = output + words_0;
    assert(after_0 == schema_line(output, schema));
    lemma_told(output, words_0, whole);
}

proof fn lemma_channel_line(
    output: Seq<char>,
    channel: ChannelInfoContent,
    whole: Seq<char>,
)
    requires
        begins(channel_line(output, channel), whole),
    ensures
        begins(output, whole),
        tells(whole, "  id="@ + text::decimal(channel.id as nat) + " schema="@
            + text::decimal(channel.schema_id as nat) + " topic="@ + channel.topic
            + " messageEncoding="@ + channel.message_encoding + "\n"@),
{
    let words_0 = "  id="@ + text::decimal(channel.id as nat) + " schema="@
        + text::decimal(channel.schema_id as nat) + " topic="@ + channel.topic
        + " messageEncoding="@ + channel.message_encoding + "\n"@;
    lemma_joined(output, "  id="@, text::decimal(channel.id as nat));
    lemma_joined(output, "  id="@ + text::decimal(channel.id as nat), " schema="@);
    lemma_joined(output, "  id="@ + text::decimal(channel.id as nat)
        + " schema="@, text::decimal(channel.schema_id as nat));
    lemma_joined(output, "  id="@ + text::decimal(channel.id as nat) + " schema="@
        + text::decimal(channel.schema_id as nat), " topic="@);
    lemma_joined(output, "  id="@ + text::decimal(channel.id as nat) + " schema="@
        + text::decimal(channel.schema_id as nat) + " topic="@, channel.topic);
    lemma_joined(output, "  id="@ + text::decimal(channel.id as nat) + " schema="@
        + text::decimal(channel.schema_id as nat) + " topic="@
        + channel.topic, " messageEncoding="@);
    lemma_joined(output, "  id="@ + text::decimal(channel.id as nat) + " schema="@
        + text::decimal(channel.schema_id as nat) + " topic="@ + channel.topic
        + " messageEncoding="@, channel.message_encoding);
    lemma_joined(output, "  id="@ + text::decimal(channel.id as nat) + " schema="@
        + text::decimal(channel.schema_id as nat) + " topic="@ + channel.topic
        + " messageEncoding="@ + channel.message_encoding, "\n"@);
    let after_0 = output + words_0;
    assert(after_0 == channel_line(output, channel));
    lemma_told(output, words_0, whole);
}

proof fn lemma_chunk_line(
    output: Seq<char>,
    place: nat,
    chunk: ChunkContent,
    whole: Seq<char>,
)
    requires
        begins(chunk_line(output, place, chunk), whole),
    ensures
        begins(output, whole),
        tells(whole, "  #"@ + text::decimal(place as nat) + " time="@
            + text::decimal(chunk.message_start_time as nat) + ".."@
            + text::decimal(chunk.message_end_time as nat) + " offset="@
            + text::decimal(chunk.chunk_start_offset as nat) + " length="@
            + text::decimal(chunk.chunk_length as nat) + " compression="@
            + spec_compression_name(chunk.compression) + " compressed="@
            + text::decimal(chunk.compressed_size as nat) + " uncompressed="@
            + text::decimal(chunk.uncompressed_size as nat) + " messageIndexLength="@
            + text::decimal(chunk.message_index_length as nat) + " messageIndexChannels="@
            + text::decimal(chunk.message_index_offsets.len() as nat) + "\n"@),
{
    let words_0 = "  #"@ + text::decimal(place as nat) + " time="@
        + text::decimal(chunk.message_start_time as nat) + ".."@
        + text::decimal(chunk.message_end_time as nat) + " offset="@
        + text::decimal(chunk.chunk_start_offset as nat) + " length="@
        + text::decimal(chunk.chunk_length as nat) + " compression="@
        + spec_compression_name(chunk.compression) + " compressed="@
        + text::decimal(chunk.compressed_size as nat) + " uncompressed="@
        + text::decimal(chunk.uncompressed_size as nat) + " messageIndexLength="@
        + text::decimal(chunk.message_index_length as nat) + " messageIndexChannels="@
        + text::decimal(chunk.message_index_offsets.len() as nat) + "\n"@;
    lemma_joined(output, "  #"@, text::decimal(place as nat));
    lemma_joined(output, "  #"@ + text::decimal(place as nat), " time="@);
    lemma_joined(output, "  #"@ + text::decimal(place as nat)
        + " time="@, text::decimal(chunk.message_start_time as nat));
    lemma_joined(output, "  #"@ + text::decimal(place as nat) + " time="@
        + text::decimal(chunk.message_start_time as nat), ".."@);
    lemma_joined(output, "  #"@ + text::decimal(place as nat) + " time="@
        + text::decimal(chunk.message_start_time as nat)
        + ".."@, text::decimal(chunk.message_end_time as nat));
    lemma_joined(output, "  #"@ + text::decimal(place as nat) + " time="@
        + text::decimal(chunk.message_start_time as nat) + ".."@
        + text::decimal(chunk.message_end_time as nat), " offset="@);
    lemma_joined(output, "  #"@ + text::decimal(place as nat) + " time="@
        + text::decimal(chunk.message_start_time as nat) + ".."@
        + text::decimal(chunk.message_end_time as nat)
        + " offset="@, text::decimal(chunk.chunk_start_offset as nat));
    lemma_joined(output, "  #"@ + text::decimal(place as nat) + " time="@
        + text::decimal(chunk.message_start_time as nat) + ".."@
        + text::decimal(chunk.message_end_time as nat) + " offset="@
        + text::decimal(chunk.chunk_start_offset as nat), " length="@);
    lemma_joined(output, "  #"@ + text::decimal(place as nat) + " time="@
        + text::decimal(chunk.message_start_time as nat) + ".."@
        + text::decimal(chunk.message_end_time as nat) + " offset="@
        + text::decimal(chunk.chunk_start_offset as nat)
        + " length="@, text::decimal(chunk.chunk_length as nat));
    lemma_joined(output, "  #"@ + text::decimal(place as nat) + " time="@
        + text::decimal(chunk.message_start_time as nat) + ".."@
        + text::decimal(chunk.message_end_time as nat) + " offset="@
        + text::decimal(chunk.chunk_start_offset as nat) + " length="@
        + text::decimal(chunk.chunk_length as nat), " compression="@);
    lemma_joined(output, "  #"@ + text::decimal(place as nat) + " time="@
        + text::decimal(chunk.message_start_time as nat) + ".."@
        + text::decimal(chunk.message_end_time as nat) + " offset="@
        + text::decimal(chunk.chunk_start_offset as nat) + " length="@
        + text::decimal(chunk.chunk_length as nat)
        + " compression="@, spec_compression_name(chunk.compression));
    lemma_joined(output, "  #"@ + text::decimal(place as nat) + " time="@
        + text::decimal(chunk.message_start_time as nat) + ".."@
        + text::decimal(chunk.message_end_time as nat) + " offset="@
        + text::decimal(chunk.chunk_start_offset as nat) + " length="@
        + text::decimal(chunk.chunk_length as nat) + " compression="@
        + spec_compression_name(chunk.compression), " compressed="@);
    lemma_joined(output, "  #"@ + text::decimal(place as nat) + " time="@
        + text::decimal(chunk.message_start_time as nat) + ".."@
        + text::decimal(chunk.message_end_time as nat) + " offset="@
        + text::decimal(chunk.chunk_start_offset as nat) + " length="@
        + text::decimal(chunk.chunk_length as nat) + " compression="@
        + spec_compression_name(chunk.compression)
        + " compressed="@, text::decimal(chunk.compressed_size as nat));
    lemma_joined(output, "  #"@ + text::decimal(place as nat) + " time="@
        + text::decimal(chunk.message_start_time as nat) + ".."@
        + text::decimal(chunk.message_end_time as nat) + " offset="@
        + text::decimal(chunk.chunk_start_offset as nat) + " length="@
        + text::decimal(chunk.chunk_length as nat) + " compression="@
        + spec_compression_name(chunk.compression) + " compressed="@
        + text::decimal(chunk.compressed_size as nat), " uncompressed="@);
    lemma_joined(output, "  #"@ + text::decimal(place as nat) + " time="@
        + text::decimal(chunk.message_start_time as nat) + ".."@
        + text::decimal(chunk.message_end_time as nat) + " offset="@
        + text::decimal(chunk.chunk_start_offset as nat) + " length="@
        + text::decimal(chunk.chunk_length as nat) + " compression="@
        + spec_compression_name(chunk.compression) + " compressed="@
        + text::decimal(chunk.compressed_size as nat)
        + " uncompressed="@, text::decimal(chunk.uncompressed_size as nat));
    lemma_joined(output, "  #"@ + text::decimal(place as nat) + " time="@
        + text::decimal(chunk.message_start_time as nat) + ".."@
        + text::decimal(chunk.message_end_time as nat) + " offset="@
        + text::decimal(chunk.chunk_start_offset as nat) + " length="@
        + text::decimal(chunk.chunk_length as nat) + " compression="@
        + spec_compression_name(chunk.compression) + " compressed="@
        + text::decimal(chunk.compressed_size as nat) + " uncompressed="@
        + text::decimal(chunk.uncompressed_size as nat), " messageIndexLength="@);
    lemma_joined(output, "  #"@ + text::decimal(place as nat) + " time="@
        + text::decimal(chunk.message_start_time as nat) + ".."@
        + text::decimal(chunk.message_end_time as nat) + " offset="@
        + text::decimal(chunk.chunk_start_offset as nat) + " length="@
        + text::decimal(chunk.chunk_length as nat) + " compression="@
        + spec_compression_name(chunk.compression) + " compressed="@
        + text::decimal(chunk.compressed_size as nat) + " uncompressed="@
        + text::decimal(chunk.uncompressed_size as nat)
        + " messageIndexLength="@, text::decimal(chunk.message_index_length as nat));
    lemma_joined(output, "  #"@ + text::decimal(place as nat) + " time="@
        + text::decimal(chunk.message_start_time as nat) + ".."@
        + text::decimal(chunk.message_end_time as nat) + " offset="@
        + text::decimal(chunk.chunk_start_offset as nat) + " length="@
        + text::decimal(chunk.chunk_length as nat) + " compression="@
        + spec_compression_name(chunk.compression) + " compressed="@
        + text::decimal(chunk.compressed_size as nat) + " uncompressed="@
        + text::decimal(chunk.uncompressed_size as nat) + " messageIndexLength="@
        + text::decimal(chunk.message_index_length as nat), " messageIndexChannels="@);
    lemma_joined(output, "  #"@ + text::decimal(place as nat) + " time="@
        + text::decimal(chunk.message_start_time as nat) + ".."@
        + text::decimal(chunk.message_end_time as nat) + " offset="@
        + text::decimal(chunk.chunk_start_offset as nat) + " length="@
        + text::decimal(chunk.chunk_length as nat) + " compression="@
        + spec_compression_name(chunk.compression) + " compressed="@
        + text::decimal(chunk.compressed_size as nat) + " uncompressed="@
        + text::decimal(chunk.uncompressed_size as nat) + " messageIndexLength="@
        + text::decimal(chunk.message_index_length as nat)
        + " messageIndexChannels="@, text::decimal(chunk.message_index_offsets.len() as nat));
    lemma_joined(output, "  #"@ + text::decimal(place as nat) + " time="@
        + text::decimal(chunk.message_start_time as nat) + ".."@
        + text::decimal(chunk.message_end_time as nat) + " offset="@
        + text::decimal(chunk.chunk_start_offset as nat) + " length="@
        + text::decimal(chunk.chunk_length as nat) + " compression="@
        + spec_compression_name(chunk.compression) + " compressed="@
        + text::decimal(chunk.compressed_size as nat) + " uncompressed="@
        + text::decimal(chunk.uncompressed_size as nat) + " messageIndexLength="@
        + text::decimal(chunk.message_index_length as nat) + " messageIndexChannels="@
        + text::decimal(chunk.message_index_offsets.len() as nat), "\n"@);
    let after_0 = output + words_0;
    assert(after_0 == chunk_line(output, place, chunk));
    lemma_told(output, words_0, whole);
}

proof fn lemma_offset_line(
    output: Seq<char>,
    offset: SummaryOffset,
    whole: Seq<char>,
)
    requires
        begins(offset_line(output, offset), whole),
    ensures
        begins(output, whole),
        tells(whole, "  groupOpcode=0x"@ + text::hexadecimal(offset.group_opcode as nat, 2)
            + " start="@ + text::decimal(offset.group_start as nat) + " length="@
            + text::decimal(offset.group_length as nat) + "\n"@),
{
    let words_0 = "  groupOpcode=0x"@ + text::hexadecimal(offset.group_opcode as nat, 2)
        + " start="@ + text::decimal(offset.group_start as nat) + " length="@
        + text::decimal(offset.group_length as nat) + "\n"@;
    lemma_joined(output, "  groupOpcode=0x"@, text::hexadecimal(offset.group_opcode as nat, 2));
    lemma_joined(output, "  groupOpcode=0x"@
        + text::hexadecimal(offset.group_opcode as nat, 2), " start="@);
    lemma_joined(output, "  groupOpcode=0x"@ + text::hexadecimal(offset.group_opcode as nat, 2)
        + " start="@, text::decimal(offset.group_start as nat));
    lemma_joined(output, "  groupOpcode=0x"@ + text::hexadecimal(offset.group_opcode as nat, 2)
        + " start="@ + text::decimal(offset.group_start as nat), " length="@);
    lemma_joined(output, "  groupOpcode=0x"@ + text::hexadecimal(offset.group_opcode as nat, 2)
        + " start="@ + text::decimal(offset.group_start as nat)
        + " length="@, text::decimal(offset.group_length as nat));
    lemma_joined(output, "  groupOpcode=0x"@ + text::hexadecimal(offset.group_opcode as nat, 2)
        + " start="@ + text::decimal(offset.group_start as nat) + " length="@
        + text::decimal(offset.group_length as nat), "\n"@);
    let after_0 = output + words_0;
    assert(after_0 == offset_line(output, offset));
    lemma_told(output, words_0, whole);
}

proof fn lemma_schema_lines(
    output: Seq<char>,
    schemas: Seq<SchemaContent>,
    index: int,
    whole: Seq<char>,
)
    requires
        begins(schema_lines(output, schemas), whole),
    ensures
        begins(output, whole),
        0 <= index < schemas.len() ==> tells(whole, "  id="@
            + text::decimal(schemas[index].id as nat) + " name="@ + schemas[index].name
            + " encoding="@ + schemas[index].encoding + "\n"@),
    decreases schemas.len(),
{
    if schemas.len() > 0 {
        let last_text = schema_lines(output, schemas.drop_last());
        lemma_schema_line(last_text, schemas.last(), whole);
        lemma_schema_lines(output, schemas.drop_last(), index, whole);
    }
}

proof fn lemma_channel_lines(
    output: Seq<char>,
    channels: Seq<ChannelInfoContent>,
    index: int,
    whole: Seq<char>,
)
    requires
        begins(channel_lines(output, channels), whole),
    ensures
        begins(output, whole),
        0 <= index < channels.len() ==> tells(whole, "  id="@
            + text::decimal(channels[index].id as nat) + " schema="@
            + text::decimal(channels[index].schema_id as nat) + " topic="@ + channels[index].topic
            + " messageEncoding="@ + channels[index].message_encoding + "\n"@),
    decreases channels.len(),
{
    if channels.len() > 0 {
        let last_text = channel_lines(output, channels.drop_last());
        lemma_channel_line(last_text, channels.last(), whole);
        lemma_channel_lines(output, channels.drop_last(), index, whole);
    }
}

proof fn lemma_chunk_lines(
    output: Seq<char>,
    chunks: Seq<ChunkContent>,
    index: int,
    whole: Seq<char>,
)
    requires
        begins(chunk_lines(output, chunks), whole),
    ensures
        begins(output, whole),
        0 <= index < chunks.len() ==> tells(whole, "  #"@ + text::decimal(index as nat)
            + " time="@ + text::decimal(chunks[index].message_start_time as nat) + ".."@
            + text::decimal(chunks[index].message_end_time as nat) + " offset="@
            + text::decimal(chunks[index].chunk_start_offset as nat) + " length="@
            + text::decimal(chunks[index].chunk_length as nat) + " compression="@
            + spec_compression_name(chunks[index].compression) + " compressed="@
            + text::decimal(chunks[index].compressed_size as nat) + " uncompressed="@
            + text::decimal(chunks[index].uncompressed_size as nat) + " messageIndexLength="@
            + text::decimal(chunks[index].message_index_length as nat) + " messageIndexChannels="@
            + text::decimal(chunks[index].message_index_offsets.len() as nat) + "\n"@),
    decreases chunks.len(),
{
    if chunks.len() > 0 {
        let last_text = chunk_lines(output, chunks.drop_last());
        lemma_chunk_line(last_text, (chunks.len() - 1) as nat, chunks.last(), whole);
        lemma_chunk_lines(output, chunks.drop_last(), index, whole);
    }
}

proof fn lemma_offset_lines(
    output: Seq<char>,
    offsets: Seq<SummaryOffset>,
    index: int,
    whole: Seq<char>,
)
    requires
        begins(offset_lines(output, offsets), whole),
    ensures
        begins(output, whole),
        0 <= index < offsets.len() ==> tells(whole, "  groupOpcode=0x"@
            + text::hexadecimal(offsets[index].group_opcode as nat, 2) + " start="@
            + text::decimal(offsets[index].group_start as nat) + " length="@
            + text::decimal(offsets[index].group_length as nat) + "\n"@),
    decreases offsets.len(),
{
    if offsets.len() > 0 {
        let last_text = offset_lines(output, offsets.drop_last());
        lemma_offset_line(last_text, offsets.last(), whole);
        lemma_offset_lines(output, offsets.drop_last(), index, whole);
    }
}

/// A report up to and with one of its parts.
#[verifier::opaque]
spec fn through_file(report: SpikeReport, summary: ByteRange) -> Seq<char> {
    file_lines(Seq::empty(), report)
}

/// A report up to and with one of its parts.
#[verifier::opaque]
spec fn through_footer(report: SpikeReport, summary: ByteRange) -> Seq<char> {
    footer_lines(through_file(report, summary), report.footer, summary)
}

/// A report up to and with one of its parts.
#[verifier::opaque]
spec fn through_catalog(report: SpikeReport, summary: ByteRange) -> Seq<char> {
    catalog_lines(through_footer(report, summary), report.catalog@)
}

/// A report up to and with one of its parts.
#[verifier::opaque]
spec fn through_cost(report: SpikeReport, summary: ByteRange) -> Seq<char> {
    cost_lines(through_catalog(report, summary), report)
}

/// A report up to and with one of its parts.
#[verifier::opaque]
spec fn through_schemas(report: SpikeReport, summary: ByteRange) -> Seq<char> {
    schema_lines(through_cost(report, summary) + "\nSchemas:\n"@, report.catalog@.schemas)
}

/// A report up to and with one of its parts.
#[verifier::opaque]
spec fn through_channels(report: SpikeReport, summary: ByteRange) -> Seq<char> {
    channel_lines(through_schemas(report, summary) + "\nChannels:\n"@, report.catalog@.channels)
}

/// A report up to and with one of its parts.
#[verifier::opaque]
spec fn through_chunks(report: SpikeReport, summary: ByteRange) -> Seq<char> {
    chunk_lines(through_channels(report, summary)
        + "\nChunk indexes:\n"@, report.catalog@.chunk_indexes)
}

/// A report up to and with one of its parts.
#[verifier::opaque]
spec fn through_offsets(report: SpikeReport, summary: ByteRange) -> Seq<char> {
    offset_lines(through_chunks(report, summary)
        + "\nSummary offsets:\n"@, report.catalog@.summary_offsets)
}

/// A report up to and with one of its parts.
#[verifier::opaque]
spec fn through_selected(report: SpikeReport, summary: ByteRange) -> Seq<char> {
    selected_lines(
        through_offsets(report, summary),
        report.selected_chunk@,
        report.selected_chunk_range,
        report.chunk_inspection@,
    )
}

/// A report up to and with one of its parts.
#[verifier::opaque]
spec fn through_probe(report: SpikeReport, summary: ByteRange) -> Seq<char> {
    probe_lines(through_selected(report, summary), report.indexed)
}

proof fn lemma_through_probe(report: SpikeReport, summary: ByteRange)
    ensures
        begins(through_probe(report, summary), report_text(report, summary)),
{
    reveal(through_file);
    reveal(through_footer);
    reveal(through_catalog);
    reveal(through_cost);
    reveal(through_schemas);
    reveal(through_channels);
    reveal(through_chunks);
    reveal(through_offsets);
    reveal(through_selected);
    reveal(through_probe);
    assert(through_probe(report, summary) == report_text(report, summary));
    lemma_begins_itself(report_text(report, summary));
}

proof fn lemma_through_selected(report: SpikeReport, summary: ByteRange, whole: Seq<char>)
    requires
        begins(through_probe(report, summary), whole),
    ensures
        begins(through_selected(report, summary), whole),
{
    reveal(through_probe);
    lemma_probe_lines(through_selected(report, summary), report.indexed, whole);
}

proof fn lemma_through_offsets(report: SpikeReport, summary: ByteRange, whole: Seq<char>)
    requires
        begins(through_probe(report, summary), whole),
    ensures
        begins(through_offsets(report, summary), whole),
{
    lemma_through_selected(report, summary, whole);
    reveal(through_selected);
    lemma_selected_lines(
        through_offsets(report, summary),
        report.selected_chunk@,
        report.selected_chunk_range,
        report.chunk_inspection@,
        whole,
    );
}

proof fn lemma_through_chunks(report: SpikeReport, summary: ByteRange, whole: Seq<char>)
    requires
        begins(through_probe(report, summary), whole),
    ensures
        begins(through_chunks(report, summary), whole),
{
    lemma_through_offsets(report, summary, whole);
    reveal(through_offsets);
    lemma_offset_lines(through_chunks(report, summary)
        + "\nSummary offsets:\n"@, report.catalog@.summary_offsets, 0, whole);
    lemma_told(through_chunks(report, summary), "\nSummary offsets:\n"@, whole);
}

proof fn lemma_through_channels(report: SpikeReport, summary: ByteRange, whole: Seq<char>)
    requires
        begins(through_probe(report, summary), whole),
    ensures
        begins(through_channels(report, summary), whole),
{
    lemma_through_chunks(report, summary, whole);
    reveal(through_chunks);
    lemma_chunk_lines(through_channels(report, summary)
        + "\nChunk indexes:\n"@, report.catalog@.chunk_indexes, 0, whole);
    lemma_told(through_channels(report, summary), "\nChunk indexes:\n"@, whole);
}

proof fn lemma_through_schemas(report: SpikeReport, summary: ByteRange, whole: Seq<char>)
    requires
        begins(through_probe(report, summary), whole),
    ensures
        begins(through_schemas(report, summary), whole),
{
    lemma_through_channels(report, summary, whole);
    reveal(through_channels);
    lemma_channel_lines(through_schemas(report, summary)
        + "\nChannels:\n"@, report.catalog@.channels, 0, whole);
    lemma_told(through_schemas(report, summary), "\nChannels:\n"@, whole);
}

proof fn lemma_through_cost(report: SpikeReport, summary: ByteRange, whole: Seq<char>)
    requires
        begins(through_probe(report, summary), whole),
    ensures
        begins(through_cost(report, summary), whole),
{
    lemma_through_schemas(report, summary, whole);
    reveal(through_schemas);
    lemma_schema_lines(through_cost(report, summary)
        + "\nSchemas:\n"@, report.catalog@.schemas, 0, whole);
    lemma_told(through_cost(report, summary), "\nSchemas:\n"@, whole);
}

proof fn lemma_through_catalog(report: SpikeReport, summary: ByteRange, whole: Seq<char>)
    requires
        begins(through_probe(report, summary), whole),
    ensures
        begins(through_catalog(report, summary), whole),
{
    lemma_through_cost(report, summary, whole);
    reveal(through_cost);
    lemma_cost_lines(through_catalog(report, summary), report, whole);
}

proof fn lemma_through_footer(report: SpikeReport, summary: ByteRange, whole: Seq<char>)
    requires
        begins(through_probe(report, summary), whole),
    ensures
        begins(through_footer(report, summary), whole),
{
    lemma_through_catalog(report, summary, whole);
    reveal(through_catalog);
    lemma_catalog_lines(through_footer(report, summary), report.catalog@, whole);
}

proof fn lemma_through_file(report: SpikeReport, summary: ByteRange, whole: Seq<char>)
    requires
        begins(through_probe(report, summary), whole),
    ensures
        begins(through_file(report, summary), whole),
{
    lemma_through_footer(report, summary, whole);
    reveal(through_footer);
    lemma_footer_lines(through_file(report, summary), report.footer, summary, whole);
}

/// A report tells how the file is named, how large it is, how much of it was read and where its summary
/// lies, each number under its name.
pub proof fn law_reports_tell_of_the_file(report: SpikeReport)
    requires
        report.footer.summary_range is Some,
    ensures
        ({
            let text = report_text(report, report.footer.summary_range->Some_0);
            &&& tells(text, "File name: "@ + report.file_name@ + "\n"@)
            &&& tells(text, "File size: "@ + text::decimal(report.file_size as nat) + " bytes\n"@)
            &&& tells(text, "Total bytes requested: "@
                + text::decimal(report.metrics.total_bytes_requested as nat) + "\n"@)
            &&& tells(text, "Number of range reads: "@
                + text::decimal(report.metrics.range_reads as nat) + "\n"@)
            &&& tells(text, "Footer status: OK\n"@)
            &&& tells(text, "Footer offset: "@ + text::decimal(report.footer.footer_offset as nat)
                + "\n"@)
            &&& tells(text, "Summary status: OK\n"@)
            &&& tells(text, "Summary byte range: "@
                + text::decimal(report.footer.summary_range->Some_0.offset as nat) + ".."@
                + text::decimal((report.footer.summary_range->Some_0.offset
                + report.footer.summary_range->Some_0.length) as nat) + " ("@
                + text::decimal(report.footer.summary_range->Some_0.length as nat) + " bytes)\n"@)
            &&& tells(text, "Summary offset section start: "@
                + text::decimal(report.footer.summary_offset_start as nat) + "\n"@)
            &&& tells(text, "Summary CRC: "@ + spec_checksum(report.footer.summary_crc) + "\n"@)
        }),
{
    let summary = report.footer.summary_range->Some_0;
    let whole = report_text(report, summary);
    lemma_through_probe(report, summary);
    lemma_through_file(report, summary, whole);
    reveal(through_file);
    lemma_file_lines(Seq::empty(), report, whole);
    lemma_through_footer(report, summary, whole);
    reveal(through_footer);
    lemma_footer_lines(through_file(report, summary), report.footer, summary, whole);
}

/// A report tells how much of everything the summary lists, and how long each step took.
pub proof fn law_reports_tell_what_the_summary_lists(report: SpikeReport)
    requires
        report.footer.summary_range is Some,
    ensures
        ({
            let text = report_text(report, report.footer.summary_range->Some_0);
            &&& tells(text, "Schema count: "@
                + text::decimal(report.catalog@.schemas.len() as nat) + "\n"@)
            &&& tells(text, "Channel count: "@
                + text::decimal(report.catalog@.channels.len() as nat) + "\n"@)
            &&& tells(text, "Chunk index count: "@
                + text::decimal(report.catalog@.chunk_indexes.len() as nat) + "\n"@)
            &&& tells(text, "Attachment index count: "@
                + text::decimal(report.catalog@.attachment_indexes as nat) + "\n"@)
            &&& tells(text, "Metadata index count: "@
                + text::decimal(report.catalog@.metadata_indexes as nat) + "\n"@)
            &&& tells(text, "Summary offset count: "@
                + text::decimal(report.catalog@.summary_offsets.len() as nat) + "\n"@)
            &&& tells(text, "Message index information: "@
                + presence(report.catalog@.spec_has_message_indexes()) + "\n"@)
            &&& tells(text, "Time range: "@ + spec_time_words(report.catalog@.spec_time_range())
                + "\n"@)
            &&& tells(text, "Bytes fetched for catalog: "@
                + text::decimal(report.catalog_bytes as nat) + "\n"@)
            &&& tells(text, "Catalog read ratio: "@
                + (if report.file_size == 0 { "0.000000"@ } else { report.numbers.catalog_read_ratio@ })
                + "%\n"@)
            &&& tells(text, "Footer read: "@ + report.numbers.footer_read@ + " ms\n"@)
            &&& tells(text, "Summary read: "@ + report.numbers.summary_read@ + " ms\n"@)
            &&& tells(text, "Summary parse: "@ + report.numbers.summary_parse@ + " ms\n"@)
            &&& tells(text, "Selected chunk read: "@ + report.numbers.chunk_read@ + " ms\n"@)
            &&& tells(text, "Selected chunk parse/decompress: "@ + report.numbers.chunk_parse@
                + " ms\n"@)
        }),
{
    let summary = report.footer.summary_range->Some_0;
    let whole = report_text(report, summary);
    lemma_through_probe(report, summary);
    lemma_through_catalog(report, summary, whole);
    reveal(through_catalog);
    lemma_catalog_lines(through_footer(report, summary), report.catalog@, whole);
    lemma_through_cost(report, summary, whole);
    reveal(through_cost);
    lemma_cost_lines(through_catalog(report, summary), report, whole);
}

/// A report tells what was found in the chunk that was looked into and by the search through the index.
pub proof fn law_reports_tell_of_the_chunk_and_the_search(report: SpikeReport)
    requires
        report.footer.summary_range is Some,
    ensures
        ({
            let text = report_text(report, report.footer.summary_range->Some_0);
            &&& tells(text, "\nSelected chunk:\n"@)
            &&& tells(text, "  file offset: "@
                + text::decimal(report.selected_chunk_range.offset as nat) + "\n"@)
            &&& tells(text, "  requested bytes: "@
                + text::decimal(report.selected_chunk_range.length as nat) + "\n"@)
            &&& tells(text, "  compression: "@
                + spec_compression_name(report.selected_chunk@.compression) + "\n"@)
            &&& tells(text, "  compressed size: "@
                + text::decimal(report.selected_chunk@.compressed_size as nat) + "\n"@)
            &&& tells(text, "  uncompressed size: "@
                + text::decimal(report.selected_chunk@.uncompressed_size as nat) + "\n"@)
            &&& tells(text, "  time range: "@
                + text::decimal(report.selected_chunk@.message_start_time as nat) + ".."@
                + text::decimal(report.selected_chunk@.message_end_time as nat) + "\n"@)
            &&& tells(text, "  status: "@ + report.chunk_inspection@.status + "\n"@)
            &&& tells(text, "  parsed records: "@
                + spec_optional_count(report.chunk_inspection@.record_count) + "\n"@)
            &&& tells(text, "  parsed messages: "@
                + spec_optional_count(report.chunk_inspection@.message_count) + "\n"@)
            &&& tells(text, "\nIndexedReader end-to-end:\n"@)
            &&& tells(text, "  SummaryReader File.slice reads: "@
                + text::decimal(report.indexed.summary_range_reads as nat) + " ("@
                + text::decimal(report.indexed.summary_bytes_requested as nat) + " bytes)\n"@)
            &&& tells(text, "  target topic: "@ + report.indexed.target_topic@ + "\n"@)
            &&& tells(text, "  arbitrary seek: "@
                + text::decimal(report.indexed.target_log_time as nat) + " ns → "@
                + text::decimal(report.indexed.message_log_time as nat) + " ns\n"@)
            &&& tells(text, "  chunk record/data offsets: "@
                + text::decimal(report.indexed.chunk_start_offset as nat) + " / "@
                + text::decimal(report.indexed.chunk_data_range.offset as nat) + "\n"@)
            &&& tells(text, "  chunk payload request: "@
                + text::decimal(report.indexed.chunk_data_range.length as nat) + " bytes\n"@)
            &&& tells(text, "  absolute file offset mapping: "@
                + spec_verdict(report.indexed.absolute_offset_matched) + "\n"@)
            &&& tells(text, "  topic filter: "@
                + spec_verdict(report.indexed.topic_filter_matched) + "\n"@)
            &&& tells(text, "  ChunkIndex message-index map includes topic: "@
                + spec_truth(report.indexed.message_index_lists_topic) + " (index bytes="@
                + text::decimal(report.indexed.message_index_length as nat) + ")\n"@)
            &&& tells(text, "  DomainPipelineSet → DomainState: OK ("@
                + report.indexed.pipeline.domain.spec_name() + " at "@
                + text::signed_decimal(report.indexed.pipeline.arrival_time.0 as int) + " ns)\n"@)
            &&& tells(text, "  generation replacement: stale reads are discarded after every File.slice await\n"@)
        }),
{
    let summary = report.footer.summary_range->Some_0;
    let whole = report_text(report, summary);
    lemma_through_probe(report, summary);
    lemma_through_selected(report, summary, whole);
    reveal(through_selected);
    lemma_selected_lines(
        through_offsets(report, summary),
        report.selected_chunk@,
        report.selected_chunk_range,
        report.chunk_inspection@,
        whole,
    );
    reveal(through_probe);
    lemma_probe_lines(through_selected(report, summary), report.indexed, whole);
}

/// A report tells of every schema that the summary lists.
pub proof fn law_reports_tell_of_every_schema(report: SpikeReport, index: int)
    requires
        report.footer.summary_range is Some,
        0 <= index < report.catalog@.schemas.len(),
    ensures
        ({
            let text = report_text(report, report.footer.summary_range->Some_0);
            &&& tells(text, "  id="@ + text::decimal(report.catalog@.schemas[index].id as nat)
                + " name="@ + report.catalog@.schemas[index].name + " encoding="@
                + report.catalog@.schemas[index].encoding + "\n"@)
        }),
{
    let summary = report.footer.summary_range->Some_0;
    let whole = report_text(report, summary);
    lemma_through_probe(report, summary);
    lemma_through_schemas(report, summary, whole);
    reveal(through_schemas);
    lemma_schema_lines(through_cost(report, summary)
        + "\nSchemas:\n"@, report.catalog@.schemas, index, whole);
}

/// A report tells of every channel that the summary lists.
pub proof fn law_reports_tell_of_every_channel(report: SpikeReport, index: int)
    requires
        report.footer.summary_range is Some,
        0 <= index < report.catalog@.channels.len(),
    ensures
        ({
            let text = report_text(report, report.footer.summary_range->Some_0);
            &&& tells(text, "  id="@ + text::decimal(report.catalog@.channels[index].id as nat)
                + " schema="@ + text::decimal(report.catalog@.channels[index].schema_id as nat)
                + " topic="@ + report.catalog@.channels[index].topic + " messageEncoding="@
                + report.catalog@.channels[index].message_encoding + "\n"@)
        }),
{
    let summary = report.footer.summary_range->Some_0;
    let whole = report_text(report, summary);
    lemma_through_probe(report, summary);
    lemma_through_channels(report, summary, whole);
    reveal(through_channels);
    lemma_channel_lines(through_schemas(report, summary)
        + "\nChannels:\n"@, report.catalog@.channels, index, whole);
}

/// A report tells of every chunk that the summary lists, by its place in the list.
pub proof fn law_reports_tell_of_every_chunk(report: SpikeReport, index: int)
    requires
        report.footer.summary_range is Some,
        0 <= index < report.catalog@.chunk_indexes.len(),
    ensures
        ({
            let text = report_text(report, report.footer.summary_range->Some_0);
            &&& tells(text, "  #"@ + text::decimal(index as nat) + " time="@
                + text::decimal(report.catalog@.chunk_indexes[index].message_start_time as nat)
                + ".."@
                + text::decimal(report.catalog@.chunk_indexes[index].message_end_time as nat)
                + " offset="@
                + text::decimal(report.catalog@.chunk_indexes[index].chunk_start_offset as nat)
                + " length="@
                + text::decimal(report.catalog@.chunk_indexes[index].chunk_length as nat)
                + " compression="@
                + spec_compression_name(report.catalog@.chunk_indexes[index].compression)
                + " compressed="@
                + text::decimal(report.catalog@.chunk_indexes[index].compressed_size as nat)
                + " uncompressed="@
                + text::decimal(report.catalog@.chunk_indexes[index].uncompressed_size as nat)
                + " messageIndexLength="@
                + text::decimal(report.catalog@.chunk_indexes[index].message_index_length as nat)
                + " messageIndexChannels="@
                + text::decimal(report.catalog@.chunk_indexes[index].message_index_offsets.len() as nat)
                + "\n"@)
        }),
{
    let summary = report.footer.summary_range->Some_0;
    let whole = report_text(report, summary);
    lemma_through_probe(report, summary);
    lemma_through_chunks(report, summary, whole);
    reveal(through_chunks);
    lemma_chunk_lines(through_channels(report, summary)
        + "\nChunk indexes:\n"@, report.catalog@.chunk_indexes, index, whole);
}

/// A report tells of every group of records that the summary lists.
pub proof fn law_reports_tell_of_every_group(report: SpikeReport, index: int)
    requires
        report.footer.summary_range is Some,
        0 <= index < report.catalog@.summary_offsets.len(),
    ensures
        ({
            let text = report_text(report, report.footer.summary_range->Some_0);
            &&& tells(text, "  groupOpcode=0x"@
                + text::hexadecimal(report.catalog@.summary_offsets[index].group_opcode as nat, 2)
                + " start="@
                + text::decimal(report.catalog@.summary_offsets[index].group_start as nat)
                + " length="@
                + text::decimal(report.catalog@.summary_offsets[index].group_length as nat)
                + "\n"@)
        }),
{
    let summary = report.footer.summary_range->Some_0;
    let whole = report_text(report, summary);
    lemma_through_probe(report, summary);
    lemma_through_offsets(report, summary, whole);
    reveal(through_offsets);
    lemma_offset_lines(through_chunks(report, summary)
        + "\nSummary offsets:\n"@, report.catalog@.summary_offsets, index, whole);
}

/// Two pieces of a text that stand side by side are told together.
pub(crate) proof fn lemma_two_told(
    text: Seq<char>,
    first: Seq<char>,
    second: Seq<char>,
    whole: Seq<char>,
)
    requires
        begins(text + first + second, whole),
    ensures
        begins(text, whole),
        begins(text + first, whole),
        tells(whole, first + second),
{
    lemma_joined(text, first, second);
    lemma_told(text + first, second, whole);
    lemma_told(text, first + second, whole);
}

/// What holds, is there or is true is told in other words than what is not.
pub proof fn law_answers_are_told_apart(answer: bool)
    ensures
        answer <==> spec_verdict(answer) == "OK"@,
        answer <==> presence(answer) == "present"@,
        answer <==> spec_truth(answer) == "true"@,
{
    reveal_strlit("OK");
    reveal_strlit("FAILED");
    reveal_strlit("present");
    reveal_strlit("absent");
    reveal_strlit("true");
    reveal_strlit("false");
    assert("OK"@.len() == 2 && "FAILED"@.len() == 6);
    assert("present"@.len() == 7 && "absent"@.len() == 6);
    assert("true"@.len() == 4 && "false"@.len() == 5);
}

} // verus!

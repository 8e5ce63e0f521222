//! Byte ranges of a file, and the tail that leads to its summary section.

use crate::message::cdr::common::{self, little_word64, Endian};
use crate::message::text::{self, push_decimal, push_hexadecimal};
use crate::recording::local_reads::{self, seek_place, SeekTarget};
use crate::recording::local_window::{ByteRange, JS_MAX_SAFE_INTEGER};
use crate::recording::mcap_facts::error_text;
use mcap::McapError;
use vstd::prelude::*;
use vstd::slice::*;
use vstd::string::*;

verus! {

/// The opcode and the length in front of a record.
pub const RECORD_HEADER_LEN: usize = 9;

/// The body of a footer record.
pub const FOOTER_BODY_LEN: usize = 20;

/// A footer record and the magic bytes behind it.
pub const FOOTER_TAIL_LEN: usize = 37;

/// The opcode of a footer record.
pub const FOOTER_OPCODE: u8 = 2;

/// The bytes at both ends of a file.
pub const MAGIC: [u8; 8] = [0x89, 0x4d, 0x43, 0x41, 0x50, 0x30, 0x0d, 0x0a];

/// The number of the latest request. What an earlier one brings is stale.
#[derive(Clone, Copy, Debug, Eq, PartialEq, Structural)]
pub struct RequestGeneration {
    current: u64,
}

impl Default for RequestGeneration {
    fn default() -> (generation: Self)
        ensures
            generation.latest() == 0,
    {
        RequestGeneration { current: 0 }
    }
}

impl RequestGeneration {
    pub closed spec fn latest(&self) -> u64 {
        self.current
    }

    /// Starts a request.
    pub fn begin(&mut self) -> (generation: u64)
        ensures
            generation == (if old(self).latest() == u64::MAX {
                0
            } else {
                old(self).latest() + 1
            }),
            final(self).latest() == generation,
    {
        self.current = self.current.wrapping_add(1);
        self.current
    }

    pub fn is_current(self, generation: u64) -> (current: bool)
        ensures
            current == (self.latest() == generation),
    {
        self.current == generation
    }

    /// Refuses what an earlier request brings.
    pub fn ensure_current(self, generation: u64) -> (outcome: Result<(), String>)
        ensures
            match outcome {
                Ok(_) => self.latest() == generation,
                Err(words) => self.latest() != generation && words@
                    == "stale range-read generation"@,
            },
    {
        if self.is_current(generation) {
            Ok(())
        } else {
            Err("stale range-read generation".to_owned())
        }
    }
}

/// A request outdates every earlier one.
pub proof fn law_a_new_request_outdates_the_last(before: u64, after: u64)
    requires
        after == (if before == u64::MAX {
            0
        } else {
            before + 1
        }),
    ensures
        after != before,
{
}

/// Why bytes of a file cannot be read or understood.
#[derive(Clone, Debug, Eq, PartialEq)]
pub enum SpikeParseError {
    RangeOverflow,
    RangeOutsideFile { offset: u64, length: usize, file_size: u64 },
    JavaScriptNumberLimit(u64),
    EmptyFile,
    TruncatedFooter { actual: usize },
    BadTrailingMagic,
    BadFooterOpcode(u8),
    BadFooterLength(u64),
    InvalidSummaryRange(String),
    InvalidChunkRange(String),
    Mcap(String),
}

/// What an error says.
pub enum ParseFault {
    RangeOverflow,
    RangeOutsideFile { offset: u64, length: usize, file_size: u64 },
    JavaScriptNumberLimit(u64),
    EmptyFile,
    TruncatedFooter { actual: usize },
    BadTrailingMagic,
    BadFooterOpcode(u8),
    BadFooterLength(u64),
    InvalidSummaryRange(Seq<char>),
    InvalidChunkRange(Seq<char>),
    Mcap(Seq<char>),
}

impl View for SpikeParseError {
    type V = ParseFault;

    open spec fn view(&self) -> ParseFault {
        match *self {
            SpikeParseError::RangeOverflow => ParseFault::RangeOverflow,
            SpikeParseError::RangeOutsideFile { offset, length, file_size } =>
                ParseFault::RangeOutsideFile { offset, length, file_size },
            SpikeParseError::JavaScriptNumberLimit(value) => ParseFault::JavaScriptNumberLimit(
                value,
            ),
            SpikeParseError::EmptyFile => ParseFault::EmptyFile,
            SpikeParseError::TruncatedFooter { actual } => ParseFault::TruncatedFooter { actual },
            SpikeParseError::BadTrailingMagic => ParseFault::BadTrailingMagic,
            SpikeParseError::BadFooterOpcode(opcode) => ParseFault::BadFooterOpcode(opcode),
            SpikeParseError::BadFooterLength(length) => ParseFault::BadFooterLength(length),
            SpikeParseError::InvalidSummaryRange(words) => ParseFault::InvalidSummaryRange(words@),
            SpikeParseError::InvalidChunkRange(words) => ParseFault::InvalidChunkRange(words@),
            SpikeParseError::Mcap(words) => ParseFault::Mcap(words@),
        }
    }
}

impl ParseFault {
    /// The words for a fault.
    pub open spec fn words(self) -> Seq<char> {
        match self {
            ParseFault::RangeOverflow => "range end overflow"@,
            ParseFault::RangeOutsideFile { offset, length, file_size } => "range "@
                + text::decimal(offset as nat) + "..+"@ + text::decimal(length as nat)
                + " exceeds file size "@ + text::decimal(file_size as nat),
            ParseFault::JavaScriptNumberLimit(value) => "offset "@ + text::decimal(value as nat)
                + " exceeds JavaScript's safe integer range"@,
            ParseFault::EmptyFile => "MCAP file is empty"@,
            ParseFault::TruncatedFooter { actual } =>
                "footer tail is truncated: expected 37 bytes, got "@ + text::decimal(actual as nat),
            ParseFault::BadTrailingMagic => "invalid MCAP trailing magic"@,
            ParseFault::BadFooterOpcode(opcode) => "expected Footer opcode 0x02, got 0x"@
                + text::hexadecimal(opcode as nat, 2),
            ParseFault::BadFooterLength(length) => "expected 20-byte Footer body, got "@
                + text::decimal(length as nat),
            ParseFault::InvalidSummaryRange(words) => "invalid summary range: "@ + words,
            ParseFault::InvalidChunkRange(words) => "invalid chunk range: "@ + words,
            ParseFault::Mcap(words) => "MCAP parse failed: "@ + words,
        }
    }
}

impl SpikeParseError {
    /// The words for the error.
    pub fn message(&self) -> (message: String)
        ensures
            message@ == self@.words(),
    {
        match self {
            SpikeParseError::RangeOverflow => "range end overflow".to_owned(),
            SpikeParseError::RangeOutsideFile { offset, length, file_size } => {
                let mut message: String = "range ".to_owned();
                push_decimal(&mut message, *offset);
                message.append("..+");
                push_decimal(&mut message, *length as u64);
                message.append(" exceeds file size ");
                push_decimal(&mut message, *file_size);
                message
            },
            SpikeParseError::JavaScriptNumberLimit(value) => {
                let mut message: String = "offset ".to_owned();
                push_decimal(&mut message, *value);
                message.append(" exceeds JavaScript's safe integer range");
                message
            },
            SpikeParseError::EmptyFile => "MCAP file is empty".to_owned(),
            SpikeParseError::TruncatedFooter { actual } => {
                let mut message: String =
                    "footer tail is truncated: expected 37 bytes, got ".to_owned();
                push_decimal(&mut message, *actual as u64);
                message
            },
            SpikeParseError::BadTrailingMagic => "invalid MCAP trailing magic".to_owned(),
            SpikeParseError::BadFooterOpcode(opcode) => {
                let mut message: String = "expected Footer opcode 0x02, got 0x".to_owned();
                push_hexadecimal(&mut message, *opcode as u64, 2);
                message
            },
            SpikeParseError::BadFooterLength(length) => {
                let mut message: String = "expected 20-byte Footer body, got ".to_owned();
                push_decimal(&mut message, *length);
                message
            },
            SpikeParseError::InvalidSummaryRange(words) => {
                let mut message: String = "invalid summary range: ".to_owned();
                message.append(words.as_str());
                message
            },
            SpikeParseError::InvalidChunkRange(words) => {
                let mut message: String = "invalid chunk range: ".to_owned();
                message.append(words.as_str());
                message
            },
            SpikeParseError::Mcap(words) => {
                let mut message: String = "MCAP parse failed: ".to_owned();
                message.append(words.as_str());
                message
            },
        }
    }
}

/// Why a range of a file cannot be read, if it cannot.
pub open spec fn range_fault(file_size: u64, offset: u64, length: usize) -> Option<ParseFault> {
    let end = offset + length;
    if file_size == 0 {
        Some(ParseFault::EmptyFile)
    } else if file_size > JS_MAX_SAFE_INTEGER {
        Some(ParseFault::JavaScriptNumberLimit(file_size))
    } else if end > u64::MAX {
        Some(ParseFault::RangeOverflow)
    } else if end > file_size {
        Some(ParseFault::RangeOutsideFile { offset, length, file_size })
    } else {
        None
    }
}

/// A range of a file, where it lies in the file and can be asked for.
pub fn validate_range(file_size: u64, offset: u64, length: usize) -> (outcome: Result<
    ByteRange,
    SpikeParseError,
>)
    ensures
        match outcome {
            Ok(range) => range_fault(file_size, offset, length) is None && range == (ByteRange {
                offset,
                length,
            }) && offset + length <= file_size,
            Err(error) => range_fault(file_size, offset, length) == Some(error@),
        },
{
    if file_size == 0 {
        return Err(SpikeParseError::EmptyFile);
    }
    if file_size > JS_MAX_SAFE_INTEGER {
        return Err(SpikeParseError::JavaScriptNumberLimit(file_size));
    }
    let end: u64 = match offset.checked_add(length as u64) {
        Some(end) => end,
        None => return Err(SpikeParseError::RangeOverflow),
    };
    if end > file_size {
        return Err(SpikeParseError::RangeOutsideFile { offset, length, file_size });
    }
    Ok(ByteRange { offset, length })
}

/// The place that a seek leads to.
pub fn resolve_seek(file_size: u64, current: u64, seek: SeekTarget) -> (outcome: Result<
    u64,
    SpikeParseError,
>)
    ensures
        ({
            let place = local_reads::sought(file_size, current, seek);
            match outcome {
                Ok(resolved) => 0 <= place <= file_size && resolved == place,
                Err(error) => if 0 <= place <= u64::MAX {
                    place > file_size && error@ == (ParseFault::RangeOutsideFile {
                        offset: place as u64,
                        length: 0,
                        file_size,
                    })
                } else {
                    error@ == (ParseFault::RangeOutsideFile {
                        offset: current,
                        length: 0,
                        file_size,
                    })
                },
            }
        }),
{
    let place: i128 = seek_place(file_size, current, seek);
    if place < 0 || place > u64::MAX as i128 {
        return Err(SpikeParseError::RangeOutsideFile { offset: current, length: 0, file_size });
    }
    let resolved: u64 = place as u64;
    if resolved > file_size {
        return Err(SpikeParseError::RangeOutsideFile { offset: resolved, length: 0, file_size });
    }
    Ok(resolved)
}

/// Why the tail of a file of this size cannot be read, if it cannot.
pub open spec fn tail_fault(file_size: u64) -> Option<ParseFault> {
    if file_size == 0 {
        Some(ParseFault::EmptyFile)
    } else if file_size < FOOTER_TAIL_LEN + 8 {
        Some(ParseFault::TruncatedFooter { actual: file_size as usize })
    } else if file_size > JS_MAX_SAFE_INTEGER {
        Some(ParseFault::JavaScriptNumberLimit(file_size))
    } else {
        None
    }
}

/// The range of the footer record and the magic bytes behind it.
pub fn footer_tail_range(file_size: u64) -> (outcome: Result<ByteRange, SpikeParseError>)
    ensures
        match outcome {
            Ok(range) => tail_fault(file_size) is None && range == (ByteRange {
                offset: (file_size - FOOTER_TAIL_LEN) as u64,
                length: FOOTER_TAIL_LEN,
            }),
            Err(error) => tail_fault(file_size) == Some(error@),
        },
{
    if file_size == 0 {
        return Err(SpikeParseError::EmptyFile);
    }
    if file_size < 45 {
        return Err(SpikeParseError::TruncatedFooter { actual: file_size as usize });
    }
    validate_range(file_size, file_size - 37, FOOTER_TAIL_LEN)
}

/// What a footer record says.
#[derive(Clone, Copy, Debug, Eq, PartialEq, Structural)]
pub struct FooterRecord {
    pub summary_start: u64,
    pub summary_offset_start: u64,
    pub summary_crc: u32,
}

/// A footer record: two numbers of eight bytes and one of four, the lowest byte first.
pub open spec fn footer_record(body: Seq<u8>) -> FooterRecord {
    FooterRecord {
        summary_start: common::word64(body, 0, Endian::Little),
        summary_offset_start: common::word64(body, 8, Endian::Little),
        summary_crc: common::word32(body, 16, Endian::Little),
    }
}

/// `mcap::parse_record` of a footer record: its three numbers, or an error where the record is
/// shorter than they are.
#[verifier::external_body]
pub(crate) fn parse_footer(body: &[u8]) -> (outcome: Result<Option<FooterRecord>, McapError>)
    ensures
        match outcome {
            Ok(record) => body@.len() >= FOOTER_BODY_LEN && record == Some(footer_record(body@)),
            Err(_) => body@.len() < FOOTER_BODY_LEN,
        },
{
    Ok(match mcap::parse_record(FOOTER_OPCODE, body)? {
        mcap::records::Record::Footer(footer) => Some(FooterRecord {
            summary_start: footer.summary_start,
            summary_offset_start: footer.summary_offset_start,
            summary_crc: footer.summary_crc,
        }),
        _ => None,
    })
}

/// Where the summary section of a file lies.
#[derive(Clone, Copy, Debug, Eq, PartialEq, Structural)]
pub struct FooterInfo {
    pub footer_offset: u64,
    pub summary_start: u64,
    pub summary_offset_start: u64,
    pub summary_crc: u32,
    pub summary_range: Option<ByteRange>,
}

/// The bytes end with the magic bytes.
pub open spec fn ends_with_magic(tail: Seq<u8>) -> bool {
    tail.len() >= 8 && forall|i: int|
        0 <= i < 8 ==> #[trigger] tail[tail.len() - 8 + i] == MAGIC@[i]
}

/// The range between the start of the summary section and the footer, if there is such a section.
pub open spec fn summary_range_of(file_size: u64, footer: FooterRecord) -> Result<
    Option<ByteRange>,
    ParseFault,
> {
    let footer_offset = (file_size - FOOTER_TAIL_LEN) as u64;
    let length = footer_offset - footer.summary_start;
    if footer.summary_start == 0 {
        Ok(None)
    } else if footer.summary_start >= footer_offset {
        Err(
            ParseFault::InvalidSummaryRange(
                "summary start "@ + text::decimal(footer.summary_start as nat)
                    + " is not before footer "@ + text::decimal(footer_offset as nat),
            ),
        )
    } else if footer.summary_offset_start != 0 && !(footer.summary_start
        <= footer.summary_offset_start < footer_offset) {
        Err(
            ParseFault::InvalidSummaryRange(
                "summary offset start "@ + text::decimal(footer.summary_offset_start as nat)
                    + " is outside "@ + text::decimal(footer.summary_start as nat) + ".."@
                    + text::decimal(footer_offset as nat),
            ),
        )
    } else if length > usize::MAX {
        Err(ParseFault::RangeOverflow)
    } else if file_size > JS_MAX_SAFE_INTEGER {
        Err(ParseFault::JavaScriptNumberLimit(file_size))
    } else {
        Ok(Some(ByteRange { offset: footer.summary_start, length: length as usize }))
    }
}

/// What the tail of a file says.
pub open spec fn footer_of(file_size: u64, tail: Seq<u8>) -> Result<FooterInfo, ParseFault> {
    let body_length = common::word64(tail, 1, Endian::Little);
    let footer = footer_record(
        tail.subrange(RECORD_HEADER_LEN as int, RECORD_HEADER_LEN + FOOTER_BODY_LEN),
    );
    if tail.len() != FOOTER_TAIL_LEN {
        Err(ParseFault::TruncatedFooter { actual: tail.len() as usize })
    } else if file_size < FOOTER_TAIL_LEN + 8 {
        Err(ParseFault::TruncatedFooter { actual: file_size as usize })
    } else if !ends_with_magic(tail) {
        Err(ParseFault::BadTrailingMagic)
    } else if tail[0] != FOOTER_OPCODE {
        Err(ParseFault::BadFooterOpcode(tail[0]))
    } else if body_length != FOOTER_BODY_LEN {
        Err(ParseFault::BadFooterLength(body_length))
    } else {
        match summary_range_of(file_size, footer) {
            Err(fault) => Err(fault),
            Ok(summary_range) => Ok(
                FooterInfo {
                    footer_offset: (file_size - FOOTER_TAIL_LEN) as u64,
                    summary_start: footer.summary_start,
                    summary_offset_start: footer.summary_offset_start,
                    summary_crc: footer.summary_crc,
                    summary_range,
                },
            ),
        }
    }
}

fn has_magic_end(tail: &[u8]) -> (magic: bool)
    requires
        tail@.len() == FOOTER_TAIL_LEN,
    ensures
        magic == ends_with_magic(tail@),
{
    let start: usize = 29;
    let length: usize = tail.len();
    let mut index: usize = 0;
    while index < 8
        invariant
            index <= 8,
            start == 29,
            length == tail@.len() == 37,
            forall|i: int| 0 <= i < index ==> #[trigger] tail@[tail@.len() - 8 + i] == MAGIC@[i],
        decreases 8 - index,
    {
        if tail[start + index] != MAGIC[index] {
            assert(tail@[tail@.len() - 8 + index] != MAGIC@[index as int]);
            return false;
        }
        index = index + 1;
    }
    true
}

fn find_summary(file_size: u64, footer: FooterRecord) -> (outcome: Result<
    Option<ByteRange>,
    SpikeParseError,
>)
    requires
        file_size >= FOOTER_TAIL_LEN + 8,
    ensures
        match outcome {
            Ok(range) => summary_range_of(file_size, footer) == Ok::<Option<ByteRange>, ParseFault>(
                range,
            ),
            Err(error) => summary_range_of(file_size, footer) == Err::<
                Option<ByteRange>,
                ParseFault,
            >(error@),
        },
{
    if footer.summary_start == 0 {
        return Ok(None);
    }
    let footer_offset: u64 = file_size - 37;
    if footer.summary_start >= footer_offset {
        let mut words: String = "summary start ".to_owned();
        push_decimal(&mut words, footer.summary_start);
        words.append(" is not before footer ");
        push_decimal(&mut words, footer_offset);
        return Err(SpikeParseError::InvalidSummaryRange(words));
    }
    if footer.summary_offset_start != 0 && !(footer.summary_start <= footer.summary_offset_start
        && footer.summary_offset_start < footer_offset) {
        let mut words: String = "summary offset start ".to_owned();
        push_decimal(&mut words, footer.summary_offset_start);
        words.append(" is outside ");
        push_decimal(&mut words, footer.summary_start);
        words.append("..");
        push_decimal(&mut words, footer_offset);
        return Err(SpikeParseError::InvalidSummaryRange(words));
    }
    let length: u64 = footer_offset - footer.summary_start;
    if length > usize::MAX as u64 {
        return Err(SpikeParseError::RangeOverflow);
    }
    let range: ByteRange = validate_range(file_size, footer.summary_start, length as usize)?;
    Ok(Some(range))
}

/// What the tail of a file says.
pub fn parse_footer_tail(file_size: u64, tail: &[u8]) -> (outcome: Result<
    FooterInfo,
    SpikeParseError,
>)
    ensures
        match outcome {
            Ok(info) => footer_of(file_size, tail@) == Ok::<FooterInfo, ParseFault>(info),
            Err(error) => footer_of(file_size, tail@) == Err::<FooterInfo, ParseFault>(error@),
        },
{
    if tail.len() != FOOTER_TAIL_LEN {
        return Err(SpikeParseError::TruncatedFooter { actual: tail.len() });
    }
    if file_size < 45 {
        return Err(SpikeParseError::TruncatedFooter { actual: file_size as usize });
    }
    if !has_magic_end(tail) {
        return Err(SpikeParseError::BadTrailingMagic);
    }
    let opcode: u8 = tail[0];
    if opcode != FOOTER_OPCODE {
        return Err(SpikeParseError::BadFooterOpcode(opcode));
    }
    let body_length: u64 = little_word64(tail, 1);
    if body_length != 20 {
        return Err(SpikeParseError::BadFooterLength(body_length));
    }
    let footer: FooterRecord = match parse_footer(slice_subrange(tail, 9, 29)) {
        Ok(Some(footer)) => footer,
        Ok(None) => return Err(SpikeParseError::BadFooterOpcode(opcode)),
        Err(error) => return Err(SpikeParseError::Mcap(error_text(&error))),
    };
    let summary_range: Option<ByteRange> = find_summary(file_size, footer)?;
    Ok(
        FooterInfo {
            footer_offset: file_size - 37,
            summary_start: footer.summary_start,
            summary_offset_start: footer.summary_offset_start,
            summary_crc: footer.summary_crc,
            summary_range,
        },
    )
}

/// A summary range that the tail of a file names lies before the footer.
pub proof fn law_summaries_lie_before_the_footer(file_size: u64, tail: Seq<u8>)
    requires
        footer_of(file_size, tail) matches Ok(info) && info.summary_range is Some,
    ensures
        ({
            let info = footer_of(file_size, tail)->Ok_0;
            let range = info.summary_range->Some_0;
            &&& range.offset == info.summary_start
            &&& range.offset + range.length == info.footer_offset
            &&& info.footer_offset + FOOTER_TAIL_LEN == file_size
            &&& range_fault(file_size, range.offset, range.length) is None
        }),
{
}

/// The numbers of a footer stand in its tail: where the summary starts, where its offsets start and its
/// checksum, the lowest byte of each first. The summary reaches from its start to the footer.
pub proof fn law_footers_tell_where_the_summary_is(file_size: u64, tail: Seq<u8>)
    ensures
        footer_of(file_size, tail) matches Ok(footer) ==> {
            &&& tail.len() == 37
            &&& footer.footer_offset == file_size - 37
            &&& footer.summary_start == common::word64(tail, 9, Endian::Little)
            &&& footer.summary_offset_start == common::word64(tail, 17, Endian::Little)
            &&& footer.summary_crc == common::word32(tail, 25, Endian::Little)
            &&& footer.summary_range is None <==> footer.summary_start == 0
            &&& footer.summary_range matches Some(range) ==> range.offset == footer.summary_start
                && range.offset + range.length == footer.footer_offset
        },
{
    let body = tail.subrange(9, 29);
    if tail.len() == 37 {
        assert forall|i: int| 0 <= i < 20 implies body[i] == tail[9 + i] by {}
    }
}

} // verus!

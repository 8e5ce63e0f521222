//! Whether the records of a file can be handed to the readers of the `mcap` crate.
//!
//! The readers answer damage with an error, with a few exceptions. They panic on an attachment record
//! that ends before its checksum, on a record whose length cannot be added to an offset, and where a
//! record of an uncompressed chunk runs past its chunk while the file goes on. What is sound holds
//! none of these.

use crate::message::cdr::common::{self, little_word32, little_word64, Endian};
use crate::recording::mcap_facts::{ChunkContent, ChunkFact};
use mcap::sans_io::{LinearReadEvent, LinearReader, LinearReaderOptions};
use mcap::McapError;
use vstd::prelude::*;
use vstd::slice::slice_subrange;

verus! {

/// The opcode of a footer record.
pub const FOOTER_OPCODE: u8 = 2;

/// The opcode of a chunk record.
pub const CHUNK_OPCODE: u8 = 6;

/// The opcode of an attachment record.
pub const ATTACHMENT_OPCODE: u8 = 9;

/// The attachment ends before its checksum. Two times stand at its front, then its name, its type
/// and the size of its data.
pub open spec fn cut_short(body: Seq<u8>) -> bool {
    let name = common::word32(body, 16, Endian::Little);
    let kind = common::word32(body, 20 + name, Endian::Little);
    body.len() >= 20 && body.len() >= 24 + name && 32 + name + kind <= body.len() < 36 + name + kind
}

fn is_cut_short(body: &[u8]) -> (is: bool)
    ensures
        is == cut_short(body@),
{
    let length: u64 = body.len() as u64;
    if length < 20 {
        return false;
    }
    let name: u64 = little_word32(body, 16) as u64;
    if length < 24 + name {
        return false;
    }
    let kind: u64 = little_word32(body, (20 + name) as usize) as u64;
    32 + name + kind <= length && length < 36 + name + kind
}

/// A record can be taken apart.
pub open spec fn record_sound(opcode: u8, body: Seq<u8>) -> bool {
    opcode == ATTACHMENT_OPCODE ==> !cut_short(body)
}

fn is_record_sound(opcode: u8, body: &[u8]) -> (is: bool)
    ensures
        is == record_sound(opcode, body@),
{
    opcode != ATTACHMENT_OPCODE || !is_cut_short(body)
}

/// The records of an uncompressed chunk are sound from an offset on. In a file that goes on behind
/// the chunk they have to end with it.
pub open spec fn data_sound(data: Seq<u8>, offset: int, goes_on: bool) -> bool
    decreases data.len() - offset,
{
    if offset < 0 || offset >= data.len() {
        true
    } else if offset + 9 > data.len() {
        !goes_on
    } else {
        let length = common::word64(data, offset + 1, Endian::Little);
        let end = offset + 9 + length;
        if end > data.len() {
            !goes_on && length + 9 <= usize::MAX
        } else {
            record_sound(data[offset], data.subrange(offset + 9, end)) && data_sound(
                data,
                end,
                goes_on,
            )
        }
    }
}

fn is_data_sound(data: &[u8], goes_on: bool) -> (is: bool)
    ensures
        is == data_sound(data@, 0, goes_on),
{
    let mut offset: usize = 0;
    while offset < data.len()
        invariant
            offset <= data@.len(),
            data_sound(data@, 0, goes_on) == data_sound(data@, offset as int, goes_on),
        decreases data@.len() - offset,
    {
        if data.len() - offset < 9 {
            return !goes_on;
        }
        let length: u64 = little_word64(data, offset + 1);
        if length > (data.len() - offset - 9) as u64 {
            return !goes_on && length <= (usize::MAX - 9) as u64;
        }
        let end: usize = offset + 9 + length as usize;
        if !is_record_sound(data[offset], slice_subrange(data, offset + 9, end)) {
            return false;
        }
        offset = end;
    }
    true
}

/// How the records of a compressed chunk end: all were read, one cannot be, or one is larger than
/// allowed.
#[derive(Clone, Copy, Debug, Eq, PartialEq, Structural)]
pub enum Unpacking {
    Complete,
    Damaged,
    TooLarge,
}

/// What each record of a list is: its opcode and its body.
pub open spec fn raw_contents(records: Seq<(u8, Vec<u8>)>) -> Seq<(u8, Seq<u8>)> {
    records.map_values(|record: (u8, Vec<u8>)| (record.0, record.1@))
}

/// The chunk record with a body: its opcode, its length and the body.
pub open spec fn framed(body: Seq<u8>) -> Seq<u8> {
    seq![CHUNK_OPCODE] + vstd::bytes::spec_u64_to_le_bytes(body.len() as u64) + body
}

fn frame(body: &[u8]) -> (record: Vec<u8>)
    ensures
        record@ == framed(body@),
        record@.skip(9) == body@,
{
    proof {
        vstd::bytes::lemma_auto_spec_u64_to_from_le_bytes();
    }
    let mut length: Vec<u8> = vstd::bytes::u64_to_le_bytes(body.len() as u64);
    let mut record: Vec<u8> = Vec::new();
    record.push(CHUNK_OPCODE);
    record.append(&mut length);
    record.extend_from_slice(body);
    assert(record@ =~= framed(body@));
    assert(record@.skip(9) =~= body@);
    record
}

/// The body of a chunk record names a compression.
pub open spec fn compressed(body: Seq<u8>) -> bool {
    body.len() >= 32 && common::word32(body, 28, Endian::Little) > 0
}

/// The records in a chunk record, none longer than a limit, and how they end.
pub uninterp spec fn unpacked(record: Seq<u8>, limit: usize) -> (Seq<(u8, Seq<u8>)>, Unpacking);

/// `mcap::sans_io::LinearReader` with a `record_length_limit`, fed with one compressed chunk record:
/// the opcode and the bytes of each record in the chunk, decompressed and not taken apart, and how
/// they end.
#[verifier::external_body]
pub(crate) fn unpack(record: &[u8], limit: usize) -> (read: (Vec<(u8, Vec<u8>)>, Unpacking))
    requires
        record@ == framed(record@.skip(9)),
        compressed(record@.skip(9)),
        limit + 9 <= isize::MAX,
    ensures
        unpacked(record@, limit) == (raw_contents(read.0@), read.1),
{
    let bare = LinearReaderOptions::default().with_skip_start_magic(true).with_skip_end_magic(true);
    let mut reader = LinearReader::new_with_options(bare.with_record_length_limit(limit));
    let (mut rest, mut records) = (record, Vec::new());
    while let Some(event) = reader.next_event() { match event {
        Ok(LinearReadEvent::Record { opcode, data }) => records.push((opcode, data.to_vec())),
        Ok(LinearReadEvent::ReadRequest(need)) => {
            let count = std::io::Read::read(&mut rest, reader.insert(need)).unwrap_or_default();
            reader.notify_read(count);
        }
        Err(McapError::RecordTooLarge { .. } | McapError::ChunkTooLarge(_)) => {
            return (records, Unpacking::TooLarge);
        }
        Err(_) => return (records, Unpacking::Damaged),
    } }
    (records, Unpacking::Complete)
}

/// The longest record that a chunk can hold by what its body says.
pub open spec fn longest(body: Seq<u8>) -> usize {
    let told = common::word64(body, 16, Endian::Little);
    let wanted = if told > body.len() {
        told as int
    } else {
        body.len() as int
    };
    if wanted + 9 > isize::MAX {
        (isize::MAX - 9) as usize
    } else {
        wanted as usize
    }
}

/// Every record of a list can be taken apart.
pub open spec fn all_sound(records: Seq<(u8, Seq<u8>)>) -> bool {
    forall|i: int|
        0 <= i < records.len() ==> record_sound((#[trigger] records[i]).0, records[i].1)
}

fn are_all_sound(records: &Vec<(u8, Vec<u8>)>) -> (are: bool)
    ensures
        are == all_sound(raw_contents(records@)),
{
    let ghost all = raw_contents(records@);
    let mut index: usize = 0;
    while index < records.len()
        invariant
            index <= records@.len(),
            all == raw_contents(records@),
            forall|i: int| 0 <= i < index ==> record_sound((#[trigger] all[i]).0, all[i].1),
        decreases records@.len() - index,
    {
        assert(all[index as int] == (records@[index as int].0, records@[index as int].1@));
        if !is_record_sound(records[index].0, records[index].1.as_slice()) {
            return false;
        }
        index = index + 1;
    }
    true
}

/// The records of the chunk with a body are sound. A body whose header cannot be read holds none.
pub open spec fn chunk_sound(body: Seq<u8>, goes_on: bool) -> bool {
    if body.len() < 40 {
        true
    } else if compressed(body) {
        let (records, end) = unpacked(framed(body), longest(body));
        end != Unpacking::TooLarge && all_sound(records)
    } else {
        let size = common::word64(body, 32, Endian::Little);
        size <= body.len() - 40 ==> data_sound(body.subrange(40, 40 + size), 0, goes_on)
    }
}

/// Whether the records of the chunk with a body can be handed to the readers.
pub fn is_chunk_sound(body: &[u8], goes_on: bool) -> (is: bool)
    ensures
        is == chunk_sound(body@, goes_on),
{
    if body.len() < 40 {
        return true;
    }
    if little_word32(body, 28) > 0 {
        let most: usize = isize::MAX as usize - 9;
        let told: u64 = little_word64(body, 16);
        let limit: usize = if body.len() >= most || told >= most as u64 {
            most
        } else if told > body.len() as u64 {
            told as usize
        } else {
            body.len()
        };
        let record: Vec<u8> = frame(body);
        let (records, end): (Vec<(u8, Vec<u8>)>, Unpacking) = unpack(record.as_slice(), limit);
        return end != Unpacking::TooLarge && are_all_sound(&records);
    }
    let size: u64 = little_word64(body, 32);
    if size > (body.len() - 40) as u64 {
        return true;
    }
    is_data_sound(slice_subrange(body, 40, 40 + size as usize), goes_on)
}

/// The records of a file are sound from an offset on, up to its footer.
pub open spec fn file_sound(bytes: Seq<u8>, offset: int) -> bool
    decreases bytes.len() - offset,
{
    if offset < 0 || offset + 9 > bytes.len() || bytes[offset] == FOOTER_OPCODE {
        true
    } else {
        let length = common::word64(bytes, offset + 1, Endian::Little);
        let end = offset + 9 + length;
        let body = bytes.subrange(offset + 9, end);
        if end > bytes.len() {
            bytes[offset] != CHUNK_OPCODE && length + 9 <= usize::MAX
        } else if bytes[offset] == CHUNK_OPCODE {
            chunk_sound(body, true) && file_sound(bytes, end)
        } else {
            record_sound(bytes[offset], body) && file_sound(bytes, end)
        }
    }
}

/// Whether the records of a file from an offset on can be handed to the readers.
pub fn is_file_sound(bytes: &[u8], start: usize) -> (is: bool)
    ensures
        is == file_sound(bytes@, start as int),
{
    let mut offset: usize = start;
    while offset <= bytes.len() && bytes.len() - offset >= 9 && bytes[offset] != FOOTER_OPCODE
        invariant
            file_sound(bytes@, start as int) == file_sound(bytes@, offset as int),
        decreases bytes@.len() - offset,
    {
        let opcode: u8 = bytes[offset];
        let length: u64 = little_word64(bytes, offset + 1);
        if length > (bytes.len() - offset - 9) as u64 {
            return opcode != CHUNK_OPCODE && length <= (usize::MAX - 9) as u64;
        }
        let end: usize = offset + 9 + length as usize;
        let body: &[u8] = slice_subrange(bytes, offset + 9, end);
        let sound: bool = if opcode == CHUNK_OPCODE {
            is_chunk_sound(body, true)
        } else {
            is_record_sound(opcode, body)
        };
        if !sound {
            return false;
        }
        offset = end;
    }
    true
}

/// The summary section of a file is sound. The footer, which tells where it starts, has its place at
/// the end of the file.
pub open spec fn summary_sound(bytes: Seq<u8>) -> bool {
    let start = common::word64(bytes, bytes.len() - 28, Endian::Little);
    bytes.len() < 45 || start == 0 || file_sound(bytes, start as int)
}

/// Whether the summary section of a file can be handed to the readers.
pub fn is_summary_sound(bytes: &[u8]) -> (is: bool)
    ensures
        is == summary_sound(bytes@),
{
    if bytes.len() < 45 {
        return true;
    }
    let start: u64 = little_word64(bytes, bytes.len() - 28);
    if start == 0 || start > bytes.len() as u64 {
        return true;
    }
    is_file_sound(bytes, start as usize)
}

/// The record of a chunk that a file lists is sound, unless the file ends before it.
pub open spec fn chunk_record_sound(bytes: Seq<u8>, chunk: ChunkContent) -> bool {
    let end = chunk.chunk_start_offset + chunk.chunk_length;
    end <= bytes.len() ==> chunk_sound(
        bytes.subrange(chunk.chunk_start_offset + 9, end),
        false,
    )
}

/// Whether the record of a chunk that a file lists can be handed to the readers.
pub fn is_chunk_record_sound(bytes: &[u8], chunk: &ChunkFact) -> (is: bool)
    requires
        chunk@.addressable(),
    ensures
        is == chunk_record_sound(bytes@, chunk@),
{
    let start: usize = chunk.chunk_start_offset as usize;
    let end: usize = start + chunk.chunk_length as usize;
    if end > bytes.len() {
        return true;
    }
    is_chunk_sound(slice_subrange(bytes, start + 9, end), false)
}

} // verus!

//! The reads that bring the summary section and the windows of a file, one after the other.

use crate::message::float::F64;
use crate::message::payload::{self, byte_count, shared_slice};
use crate::message::text::{self, push_decimal};
use crate::playback::data_window::{self, TimeRange};
use crate::playback::window_loader::{self, DataLoadError, LoadedWindow, WindowLoadDiagnostics};
use crate::recording::local_catalog::SummaryFacts;
use crate::recording::local_window::{
    self, validate_range, ByteRange, ChunkReadRequest, CollectorContent, LoadFault,
    OwnedWindowCollector, RequestContent,
};
use crate::recording::raw;
use bytes::Bytes;
use vstd::prelude::*;
use vstd::string::*;

verus! {

/// How much more than it needs a reader of the summary section is given.
pub const SUMMARY_READ_AHEAD: usize = 262_144;

/// Where to go in a file: counted from its start, from the current place or from its end.
#[derive(Clone, Copy, Debug, Eq, PartialEq, Structural)]
pub enum SeekTarget {
    Start(u64),
    Current(i64),
    End(i64),
}

/// The place that a seek asks for, which need not lie in the file.
pub open spec fn sought(file_size: u64, current: u64, seek: SeekTarget) -> int {
    match seek {
        SeekTarget::Start(offset) => offset as int,
        SeekTarget::Current(delta) => current + delta,
        SeekTarget::End(delta) => file_size + delta,
    }
}

/// The place that a seek asks for, which need not lie in the file.
pub fn seek_place(file_size: u64, current: u64, seek: SeekTarget) -> (place: i128)
    ensures
        place == sought(file_size, current, seek),
{
    match seek {
        SeekTarget::Start(offset) => offset as i128,
        SeekTarget::Current(delta) => current as i128 + delta as i128,
        SeekTarget::End(delta) => file_size as i128 + delta as i128,
    }
}

/// Where a reader of the summary section stands in the file.
#[derive(Clone, Copy, Debug, Eq, PartialEq, Structural)]
pub struct SummaryPlace {
    pub file_size: u64,
    pub position: u64,
    pub seek_count: u32,
}

/// How many bytes a reader of the summary section is given: more than it needs once it has been
/// led to the section, but no more than there are.
pub open spec fn read_size(place: SummaryPlace, need: usize) -> usize {
    let left = if place.position >= place.file_size {
        0
    } else {
        place.file_size - place.position
    };
    let wanted = if need > SUMMARY_READ_AHEAD {
        need
    } else {
        SUMMARY_READ_AHEAD
    };
    if place.seek_count < 2 {
        need
    } else if wanted <= left {
        wanted
    } else {
        left as usize
    }
}

/// Reading ahead never leaves the file.
pub proof fn law_read_ahead_stays_in_the_file(place: SummaryPlace, need: usize)
    requires
        place.seek_count >= 2,
        place.position <= place.file_size,
    ensures
        place.position + read_size(place, need) <= place.file_size,
{
}

impl SummaryPlace {
    /// The start of a file.
    pub fn new(file_size: u64) -> (place: Self)
        ensures
            place == (SummaryPlace { file_size, position: 0, seek_count: 0 }),
    {
        SummaryPlace { file_size, position: 0, seek_count: 0 }
    }

    /// The place once a seek led elsewhere.
    pub open spec fn led_to(self, position: u64) -> Self {
        SummaryPlace {
            position,
            seek_count: if self.seek_count == u32::MAX {
                u32::MAX
            } else {
                (self.seek_count + 1) as u32
            },
            ..self
        }
    }

    /// Goes to another place.
    pub fn lead_to(&mut self, position: u64)
        ensures
            *final(self) == old(self).led_to(position),
    {
        self.position = position;
        if self.seek_count < u32::MAX {
            self.seek_count = self.seek_count + 1;
        }
    }

    /// How many bytes a reader that needs so many is given.
    pub fn length_for(&self, need: usize) -> (length: usize)
        ensures
            length == read_size(*self, need),
    {
        let left: u64 = if self.position >= self.file_size {
            0
        } else {
            self.file_size - self.position
        };
        let wanted: usize = if need > SUMMARY_READ_AHEAD {
            need
        } else {
            SUMMARY_READ_AHEAD
        };
        if self.seek_count < 2 {
            need
        } else if wanted as u64 <= left {
            wanted
        } else {
            left as usize
        }
    }

    /// Goes on behind the bytes that were read. Whether that is a place comes back.
    pub fn move_on(&mut self, count: usize) -> (moved: bool)
        ensures
            moved == (old(self).position + count <= u64::MAX),
            *final(self) == (if moved {
                SummaryPlace { position: (old(self).position + count) as u64, ..*old(self) }
            } else {
                *old(self)
            }),
    {
        match self.position.checked_add(count as u64) {
            Some(position) => {
                self.position = position;
                true
            },
            None => false,
        }
    }
}

/// The reads of the summary section of a local file.
#[derive(Clone, Copy, Debug, Eq, PartialEq, Structural)]
pub struct LocalSummaryReads {
    pub place: SummaryPlace,
    pub reads: u64,
    pub bytes_read: u64,
}

impl LocalSummaryReads {
    pub fn new(file_size: u64) -> (reading: Self)
        ensures
            reading == (LocalSummaryReads {
                place: SummaryPlace { file_size, position: 0, seek_count: 0 },
                reads: 0,
                bytes_read: 0,
            }),
    {
        LocalSummaryReads { place: SummaryPlace::new(file_size), reads: 0, bytes_read: 0 }
    }

    /// Goes where the reader asks to go.
    pub fn seek(&mut self, target: SeekTarget) -> (outcome: Result<u64, DataLoadError>)
        ensures
            ({
                let place = sought(old(self).place.file_size, old(self).place.position, target);
                match outcome {
                    Ok(position) => {
                        &&& 0 <= place <= old(self).place.file_size
                        &&& position == place
                        &&& *final(self) == (LocalSummaryReads {
                            place: old(self).place.led_to(position),
                            ..*old(self)
                        })
                    },
                    Err(error) => {
                        &&& !(0 <= place <= old(self).place.file_size)
                        &&& error@ == "SummaryReader seek is outside the MCAP file"@
                        &&& *final(self) == *old(self)
                    },
                }
            }),
    {
        let place: i128 = seek_place(self.place.file_size, self.place.position, target);
        if place < 0 || place > self.place.file_size as i128 {
            return Err(
                DataLoadError::new("SummaryReader seek is outside the MCAP file".to_owned()),
            );
        }
        let position: u64 = place as u64;
        self.place.lead_to(position);
        Ok(position)
    }

    /// The range to read for a reader that needs so many bytes.
    pub fn next_range(&self, need: usize) -> (outcome: Result<ByteRange, DataLoadError>)
        ensures
            ({
                let length = read_size(self.place, need);
                let fault = local_window::range_fault(
                    self.place.file_size,
                    self.place.position,
                    length,
                );
                match outcome {
                    Ok(range) => fault is None && range == (ByteRange {
                        offset: self.place.position,
                        length,
                    }),
                    Err(error) => fault == Some(error@),
                }
            }),
    {
        validate_range(self.place.file_size, self.place.position, self.place.length_for(need))
    }

    /// Takes note of the bytes that were read.
    pub fn received(&mut self, count: usize) -> (outcome: Result<(), DataLoadError>)
        ensures
            match outcome {
                Ok(_) => old(self).place.position + count <= u64::MAX && *final(self) == (
                LocalSummaryReads {
                    place: SummaryPlace {
                        position: (old(self).place.position + count) as u64,
                        ..old(self).place
                    },
                    reads: window_loader::grown(old(self).reads, 1),
                    bytes_read: window_loader::grown(old(self).bytes_read, count as int),
                }),
                Err(error) => {
                    &&& old(self).place.position + count > u64::MAX
                    &&& error@ == "SummaryReader position overflow"@
                    &&& *final(self) == *old(self)
                },
            },
    {
        if !self.place.move_on(count) {
            return Err(DataLoadError::new("SummaryReader position overflow".to_owned()));
        }
        self.reads = self.reads.saturating_add(1);
        self.bytes_read = self.bytes_read.saturating_add(count as u64);
        Ok(())
    }
}

/// Why a range of a local file is not read, if it is not.
pub open spec fn read_refusal(file_size: u64, range: ByteRange) -> Option<Seq<char>> {
    match local_window::range_fault(file_size, range.offset, range.length) {
        Some(words) => Some(words),
        None => if range.length > u32::MAX {
            Some("MCAP range exceeds Uint8Array addressable length"@)
        } else {
            None
        },
    }
}

/// The range to read of a local file. Nothing is to be read of an empty one.
pub fn begin_range_read(file_size: u64, range: ByteRange) -> (outcome: Result<
    Option<ByteRange>,
    DataLoadError,
>)
    ensures
        match outcome {
            Ok(found) => read_refusal(file_size, range) is None && found == (if range.length == 0 {
                None
            } else {
                Some(range)
            }),
            Err(error) => read_refusal(file_size, range) == Some(error@),
        },
{
    let range: ByteRange = validate_range(file_size, range.offset, range.length)?;
    if range.length == 0 {
        return Ok(None);
    }
    if range.length > u32::MAX as usize {
        return Err(
            DataLoadError::new("MCAP range exceeds Uint8Array addressable length".to_owned()),
        );
    }
    Ok(Some(range))
}

/// Refuses a read that brought less or more than was asked for.
pub fn check_range_read(requested: usize, received: usize) -> (outcome: Result<(), DataLoadError>)
    ensures
        match outcome {
            Ok(_) => received == requested,
            Err(error) => received != requested && error@ == "short MCAP range read: requested "@
                + text::decimal(requested as nat) + ", received "@ + text::decimal(
                received as nat,
            ),
        },
{
    if received == requested {
        return Ok(());
    }
    let mut words: String = "short MCAP range read: requested ".to_owned();
    push_decimal(&mut words, requested as u64);
    words.append(", received ");
    push_decimal(&mut words, received as u64);
    Err(DataLoadError::new(words))
}

/// What the reads of a window hold.
pub struct WindowReadsContent {
    pub file_size: u64,
    pub collector: CollectorContent,
    pub source_reads: u64,
    pub source_bytes: nat,
}

impl WindowReadsContent {
    /// The reads without the next request.
    pub open spec fn popped(self) -> Self {
        WindowReadsContent {
            collector: CollectorContent {
                pending: self.collector.pending.drop_first(),
                ..self.collector
            },
            ..self
        }
    }

    /// The reads with the messages of one more chunk.
    pub open spec fn with_chunk(self, request: RequestContent, data: Seq<u8>) -> Result<
        Self,
        LoadFault,
    > {
        if self.source_bytes + data.len() > usize::MAX {
            Err(LoadFault::Words("local source byte count overflow"@))
        } else {
            match self.collector.with_chunk(request, data) {
                Err(fault) => Err(fault),
                Ok(collector) => Ok(
                    WindowReadsContent {
                        collector,
                        source_reads: window_loader::grown(self.source_reads, 1),
                        source_bytes: self.source_bytes + data.len(),
                        ..self
                    },
                ),
            }
        }
    }

    /// The reads once a chunk was refused: the read is counted, and its bytes where they can be.
    pub open spec fn refused(self, request: RequestContent, data: Seq<u8>) -> Self {
        let counted = WindowReadsContent {
            source_reads: window_loader::grown(self.source_reads, 1),
            ..self
        };
        if self.source_bytes + data.len() > usize::MAX {
            counted
        } else {
            WindowReadsContent {
                collector: self.collector.refused(request, data),
                source_bytes: self.source_bytes + data.len(),
                ..counted
            }
        }
    }

    /// The reads once everything was read that they ask for.
    pub open spec fn all_read(self, file: Seq<u8>) -> Result<Self, LoadFault>
        decreases self.collector.pending.len(),
    {
        if self.collector.pending.len() == 0 {
            Ok(self)
        } else {
            let request = self.collector.pending[0];
            match local_window::range_fault(self.file_size, request.offset, request.length) {
                Some(words) => Err(LoadFault::Words(words)),
                None => match self.popped().with_chunk(
                    request,
                    file.subrange(request.offset as int, request.offset + request.length),
                ) {
                    Err(fault) => Err(fault),
                    Ok(next) => next.all_read(file),
                },
            }
        }
    }
}

/// The reads that bring a window of a local file. The bytes are the application's: it reads what
/// `next_read` names and hands it to `insert`.
#[derive(Debug)]
pub struct LocalWindowReads {
    file_size: u64,
    collector: OwnedWindowCollector,
    source_reads: u64,
    source_bytes: usize,
}

impl LocalWindowReads {
    pub closed spec fn content(&self) -> WindowReadsContent {
        WindowReadsContent {
            file_size: self.file_size,
            collector: self.collector.content(),
            source_reads: self.source_reads,
            source_bytes: self.source_bytes as nat,
        }
    }

    /// Plans the reads for a window of the messages on some topics.
    pub fn new(facts: &SummaryFacts, topics: &[String], range: TimeRange, file_size: u64) -> (
        outcome: Result<Self, DataLoadError>)
        requires
            facts.well_formed(),
        ensures
            ({
                let expected = CollectorContent::fresh(
                    facts.content(),
                    local_window::topic_contents(topics@),
                    range,
                );
                match outcome {
                    Ok(reading) => expected is Ok && reading.content() == (WindowReadsContent {
                        file_size,
                        collector: expected->Ok_0,
                        source_reads: 0,
                        source_bytes: 0,
                    }),
                    Err(error) => expected == Err::<CollectorContent, Seq<char>>(error@),
                }
            }),
    {
        let collector: OwnedWindowCollector = OwnedWindowCollector::new(facts, topics, range)?;
        Ok(LocalWindowReads { file_size, collector, source_reads: 0, source_bytes: 0 })
    }

    /// The next chunk to read, if one is left and lies in the file.
    pub fn next_read(&mut self) -> (outcome: Result<Option<ChunkReadRequest>, DataLoadError>)
        ensures
            ({
                let before = old(self).content();
                let request = before.collector.pending[0];
                let fault = local_window::range_fault(
                    before.file_size,
                    request.offset,
                    request.length,
                );
                if before.collector.pending.len() == 0 {
                    outcome matches Ok(found) && found is None && final(self).content() == before
                } else {
                    &&& final(self).content() == before.popped()
                    &&& match outcome {
                        Ok(found) => fault is None && found is Some && found->Some_0@ == request,
                        Err(error) => fault == Some(error@),
                    }
                }
            }),
    {
        match self.collector.next_read() {
            Some(request) => {
                let _ = validate_range(self.file_size, request.offset, request.length)?;
                Ok(Some(request))
            },
            None => Ok(None),
        }
    }

    /// Adds the messages of a chunk that was read.
    pub fn insert(&mut self, request: &ChunkReadRequest, bytes: Bytes) -> (outcome: Result<
        (),
        DataLoadError,
    >)
        ensures
            match outcome {
                Ok(_) => old(self).content().with_chunk(request@, payload::content(bytes)) == Ok::<
                    WindowReadsContent,
                    LoadFault,
                >(final(self).content()),
                Err(error) => (old(self).content().with_chunk(
                    request@,
                    payload::content(bytes),
                ) matches Err(fault) && local_window::says(error, fault)) && final(self).content()
                    == old(self).content().refused(request@, payload::content(bytes)),
            },
    {
        self.source_reads = self.source_reads.saturating_add(1);
        self.source_bytes = match self.source_bytes.checked_add(byte_count(&bytes)) {
            Some(total) => total,
            None => {
                return Err(DataLoadError::new("local source byte count overflow".to_owned()));
            },
        };
        self.collector.insert_chunk(request, bytes)
    }

    /// The window, with its messages in order.
    pub fn finish(self, latency_ms: F64, processing_ms: F64) -> (outcome: Result<
        LoadedWindow,
        DataLoadError,
    >)
        ensures
            window_of(self.content(), latency_ms, processing_ms, outcome),
    {
        self.collector.finish(
            WindowLoadDiagnostics {
                source_reads: self.source_reads,
                source_bytes: self.source_bytes,
                decompressed_bytes: 0,
                per_message_copied_bytes: 0,
                latency_ms,
                processing_ms,
            },
        )
    }
}

/// The outcome is the window that the reads make: its messages in order, or what is wrong with
/// them.
pub open spec fn window_of(
    reading: WindowReadsContent,
    latency_ms: F64,
    processing_ms: F64,
    outcome: Result<LoadedWindow, DataLoadError>,
) -> bool {
    let sorted = raw::time_sorted(reading.collector.messages);
    let fault = data_window::window_fault(reading.collector.range, sorted, sorted.len() as int);
    match outcome {
        Ok(loaded) => {
            &&& fault is None
            &&& loaded.window.range == reading.collector.range
            &&& raw::contents(loaded.window.messages@) == sorted
            &&& loaded.window.resident_bytes == reading.collector.resident_bytes
            &&& loaded.diagnostics == (WindowLoadDiagnostics {
                source_reads: reading.source_reads,
                source_bytes: reading.source_bytes as usize,
                decompressed_bytes: reading.collector.decompressed_bytes as usize,
                per_message_copied_bytes: 0,
                latency_ms,
                processing_ms,
            })
        },
        Err(error) => fault matches Some(reason) && error@ == reason.spec_message(),
    }
}

/// A window of the messages on some topics of a file that is in memory. The messages share its
/// bytes where the chunks are not compressed.
pub fn collect_window(facts: &SummaryFacts, topics: &[String], range: TimeRange, file: &Bytes) -> (
    outcome: Result<LoadedWindow, DataLoadError>)
    requires
        facts.well_formed(),
    ensures
        ({
            let bytes = payload::content(*file);
            match CollectorContent::fresh(
                facts.content(),
                local_window::topic_contents(topics@),
                range,
            ) {
                Err(words) => outcome matches Err(error) && error@ == words,
                Ok(collector) => match (WindowReadsContent {
                    file_size: bytes.len() as u64,
                    collector,
                    source_reads: 0,
                    source_bytes: 0,
                }).all_read(bytes) {
                    Err(fault) => outcome matches Err(error) && local_window::says(error, fault),
                    Ok(reading) => window_of(reading, F64(0), F64(0), outcome),
                },
            }
        }),
{
    let ghost bytes = payload::content(*file);
    let file_size: usize = byte_count(file);
    let mut reading: LocalWindowReads = LocalWindowReads::new(
        facts,
        topics,
        range,
        file_size as u64,
    )?;
    let ghost start = reading.content();
    loop
        invariant
            bytes == payload::content(*file),
            file_size == bytes.len(),
            reading.content().file_size == bytes.len(),
            reading.content().all_read(bytes) == start.all_read(bytes),
            CollectorContent::fresh(
                facts.content(),
                local_window::topic_contents(topics@),
                range,
            ) matches Ok(collector) && start == (WindowReadsContent {
                file_size: bytes.len() as u64,
                collector,
                source_reads: 0,
                source_bytes: 0,
            }),
        ensures
            reading.content().all_read(bytes) == start.all_read(bytes),
            reading.content().collector.pending.len() == 0,
        decreases reading.content().collector.pending.len(),
    {
        let request: ChunkReadRequest = match reading.next_read()? {
            Some(request) => request,
            None => {
                break;
            },
        };
        let chunk: Bytes = shared_slice(
            file,
            request.offset as usize,
            request.offset as usize + request.length,
        );
        reading.insert(&request, chunk)?;
    }
    reading.finish(F64(0), F64(0))
}

} // verus!

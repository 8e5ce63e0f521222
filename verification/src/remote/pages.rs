//! Windows that arrive from a server page by page.

use crate::message::float::F64;
use crate::message::payload::{self, byte_count, shared_slice};
use crate::message::time::ArrivalTime;
use crate::playback::data_window::{self, SerializedWindow, TimeRange};
use crate::playback::window_loader::{self, DataLoadError, LoadedWindow, WindowLoadDiagnostics};
use crate::recording::mcap_source;
use crate::recording::raw::{self, RawContent, RawMessage, StreamId};
use crate::remote::client::{
    self, BatchMessage, BatchRequestContent, PageContent, RemoteBatchPage, RemoteBatchRequest,
};
use vstd::prelude::*;
use vstd::string::*;

verus! {

/// What an assembler holds.
pub struct AssemblerContent {
    pub range: TimeRange,
    pub messages: Seq<RawContent>,
    pub pages: u64,
    pub source_bytes: usize,
    pub resident_bytes: usize,
    pub complete: bool,
}

/// The message that a page holds at a time that can be played.
pub open spec fn message_of(body: Seq<u8>, message: BatchMessage) -> RawContent {
    RawContent {
        stream_id: StreamId(message.stream_id),
        arrival_time: ArrivalTime(message.log_time_ns as i64),
        payload: body.subrange(message.payload->Some_0.0 as int, message.payload->Some_0.1 as int),
    }
}

/// The payload of the message lies in the body.
pub open spec fn lies_in(body: Seq<u8>, message: BatchMessage) -> bool {
    message.payload matches Some((start, end)) && start <= end <= body.len()
}

/// Why a message cannot follow others, if it cannot.
pub open spec fn message_fault(
    messages: Seq<RawContent>,
    body: Seq<u8>,
    message: BatchMessage,
) -> Option<Seq<char>> {
    if mcap_source::arrival_of(message.log_time_ns) is None {
        Some("remote timestamp exceeds signed nanoseconds"@)
    } else if messages.len() > 0 && !raw::not_after(messages.last(), message_of(body, message)) {
        Some("remote window messages are not time ordered"@)
    } else if !lies_in(body, message) {
        Some("decoded payload is outside its batch body"@)
    } else {
        None
    }
}

/// The messages with those of a page behind them, up to the first that cannot follow, and why it
/// cannot.
pub open spec fn extended(
    messages: Seq<RawContent>,
    body: Seq<u8>,
    page: Seq<BatchMessage>,
) -> (Seq<RawContent>, Option<Seq<char>>)
    decreases page.len(),
{
    if page.len() == 0 {
        (messages, None)
    } else {
        let (before, fault) = extended(messages, body, page.drop_last());
        if fault is Some {
            (before, fault)
        } else {
            match message_fault(before, body, page.last()) {
                Some(words) => (before, Some(words)),
                None => (before.push(message_of(body, page.last())), None),
            }
        }
    }
}

proof fn lemma_fault_stays(
    messages: Seq<RawContent>,
    body: Seq<u8>,
    page: Seq<BatchMessage>,
    count: int,
)
    requires
        0 <= count <= page.len(),
        extended(messages, body, page.take(count)).1 is Some,
    ensures
        extended(messages, body, page) == extended(messages, body, page.take(count)),
    decreases page.len() - count,
{
    if count < page.len() {
        assert(page.take(count + 1).drop_last() =~= page.take(count));
        lemma_fault_stays(messages, body, page, count + 1);
    } else {
        assert(page.take(count) =~= page);
    }
}

/// Messages that follow each other stay in order.
pub proof fn law_pages_stay_in_order(
    messages: Seq<RawContent>,
    body: Seq<u8>,
    page: Seq<BatchMessage>,
)
    requires
        raw::ordered(messages),
    ensures
        raw::ordered(extended(messages, body, page).0),
    decreases page.len(),
{
    if page.len() > 0 {
        law_pages_stay_in_order(messages, body, page.drop_last());
        let before = extended(messages, body, page.drop_last()).0;
        let after = extended(messages, body, page).0;
        if after != before {
            let added = message_of(body, page.last());
            assert forall|i: int, j: int| 0 <= i <= j < after.len() implies raw::not_after(
                #[trigger] after[i],
                #[trigger] after[j],
            ) by {
                if j < before.len() {
                    assert(raw::not_after(before[i], before[j]));
                } else if i < j {
                    assert(raw::not_after(before[i], before[before.len() - 1]));
                }
            }
        }
    }
}

impl AssemblerContent {
    /// An assembler without pages.
    pub open spec fn fresh(range: TimeRange) -> Self {
        AssemblerContent {
            range,
            messages: Seq::empty(),
            pages: 0,
            source_bytes: 0,
            resident_bytes: 0,
            complete: false,
        }
    }

    /// Why a page is refused, if it is.
    pub open spec fn refusal(self, page: PageContent) -> Option<Seq<char>> {
        let kept = if page.messages.len() == 0 {
            0
        } else {
            page.body.len()
        };
        if self.complete {
            Some("remote window received a page after completion"@)
        } else {
            match extended(self.messages, page.body, page.messages).1 {
                Some(words) => Some(words),
                None => if self.source_bytes + page.body.len() > usize::MAX {
                    Some("remote source byte count overflow"@)
                } else if self.resident_bytes + kept > usize::MAX {
                    Some("remote resident byte count overflow"@)
                } else {
                    None
                },
            }
        }
    }

    /// The assembler once a page was refused: what was taken of it before stays.
    pub open spec fn after_refusal(self, page: PageContent) -> Self {
        let (messages, fault) = extended(self.messages, page.body, page.messages);
        if self.complete {
            self
        } else if fault is Some {
            AssemblerContent { messages, ..self }
        } else if self.source_bytes + page.body.len() > usize::MAX {
            AssemblerContent { messages, pages: window_loader::grown(self.pages, 1), ..self }
        } else {
            AssemblerContent {
                messages,
                pages: window_loader::grown(self.pages, 1),
                source_bytes: (self.source_bytes + page.body.len()) as usize,
                ..self
            }
        }
    }

    /// The assembler with one more page. The body of a page without messages is not kept.
    pub open spec fn with_page(self, page: PageContent) -> Self {
        AssemblerContent {
            messages: extended(self.messages, page.body, page.messages).0,
            pages: window_loader::grown(self.pages, 1),
            source_bytes: (self.source_bytes + page.body.len()) as usize,
            resident_bytes: (self.resident_bytes + if page.messages.len() == 0 {
                0
            } else {
                page.body.len()
            }) as usize,
            complete: page.complete,
            ..self
        }
    }

    /// Why the window cannot be had, if it cannot.
    pub open spec fn lack(self) -> Option<Seq<char>> {
        if !self.complete {
            Some("remote window cannot be published before continuation completes"@)
        } else {
            match data_window::window_fault(
                self.range,
                self.messages,
                self.messages.len() as int,
            ) {
                Some(fault) => Some(fault.spec_message()),
                None => None,
            }
        }
    }
}

fn push_message(messages: &mut Vec<RawMessage>, page: &RemoteBatchPage, index: usize) -> (outcome:
    Result<(), String>)
    requires
        index < page.messages@.len(),
    ensures
        ({
            let before = raw::contents(old(messages)@);
            let after = raw::contents(final(messages)@);
            let message = page@.messages[index as int];
            match outcome {
                Ok(_) => message_fault(before, page@.body, message) is None && after
                    == before.push(message_of(page@.body, message)),
                Err(words) => message_fault(before, page@.body, message) == Some(words@) && after
                    == before,
            }
        }),
{
    let message: BatchMessage = page.messages[index];
    let ghost before = messages@;
    if message.log_time_ns > i64::MAX as u64 {
        return Err("remote timestamp exceeds signed nanoseconds".to_owned());
    }
    let arrival: i64 = message.log_time_ns as i64;
    if messages.len() > 0 {
        let last: &RawMessage = &messages[messages.len() - 1];
        assert(raw::contents(before).last() == last@);
        if arrival < last.arrival_time.0 || (arrival == last.arrival_time.0 && message.stream_id
            < last.stream_id.0) {
            return Err("remote window messages are not time ordered".to_owned());
        }
    }
    let range: Option<(usize, usize)> = match message.payload {
        Some((start, end)) => if start <= end && end <= byte_count(&page.body) {
            Some((start, end))
        } else {
            None
        },
        None => None,
    };
    match range {
        Some((start, end)) => {
            let payload = shared_slice(&page.body, start, end);
            messages.push(
                RawMessage {
                    stream_id: StreamId(message.stream_id),
                    arrival_time: ArrivalTime(arrival),
                    payload,
                },
            );
            assert(raw::contents(messages@) =~= raw::contents(before).push(
                message_of(page@.body, message),
            ));
            Ok(())
        },
        None => Err("decoded payload is outside its batch body".to_owned()),
    }
}

/// Puts the messages of a page behind others, up to the first that cannot follow. Why it cannot
/// comes back.
pub fn push_page_messages(messages: &mut Vec<RawMessage>, page: &RemoteBatchPage) -> (outcome: Result<
    (),
    String,
>)
    ensures
        ({
            let (all, fault) = extended(
                raw::contents(old(messages)@),
                page@.body,
                page@.messages,
            );
            &&& raw::contents(final(messages)@) == all
            &&& match outcome {
                Ok(_) => fault is None,
                Err(words) => fault == Some(words@),
            }
        }),
{
    let ghost before = raw::contents(messages@);
    let ghost all = page@.messages;
    let mut index: usize = 0;
    assert(all.take(0) =~= Seq::empty());
    while index < page.messages.len()
        invariant
            index <= page.messages@.len(),
            before == raw::contents(old(messages)@),
            all == page@.messages,
            extended(before, page@.body, all.take(index as int)) == (
                raw::contents(messages@),
                None::<Seq<char>>,
            ),
        decreases page.messages@.len() - index,
    {
        assert(all.take(index + 1).drop_last() =~= all.take(index as int));
        match push_message(messages, page, index) {
            Ok(_) => {},
            Err(words) => {
                proof {
                    lemma_fault_stays(before, page@.body, all, index + 1);
                }
                return Err(words);
            },
        }
        index = index + 1;
    }
    assert(all.take(all.len() as int) =~= all);
    Ok(())
}

/// The request for a page of a window, behind a cursor or from the start.
pub fn page_request(
    recording_id: &String,
    revision: &String,
    streams: &Vec<u32>,
    range: TimeRange,
    cursor: &Option<String>,
) -> (request: RemoteBatchRequest)
    requires
        range.start.0 >= 0,
        range.end_exclusive.0 >= 0,
    ensures
        request@ == (BatchRequestContent {
            recording_id: recording_id@,
            revision: revision@,
            stream_ids: streams@,
            start_ns: range.start.0 as u64,
            end_ns: range.end_exclusive.0 as u64,
            max_bytes: None,
            max_messages: None,
            cursor: client::optional_text(*cursor),
        }),
{
    let mut stream_ids: Vec<u32> = Vec::with_capacity(streams.len());
    let mut index: usize = 0;
    while index < streams.len()
        invariant
            index <= streams@.len(),
            stream_ids@ == streams@.take(index as int),
        decreases streams@.len() - index,
    {
        stream_ids.push(streams[index]);
        index = index + 1;
        assert(stream_ids@ =~= streams@.take(index as int));
    }
    assert(streams@.take(streams@.len() as int) =~= streams@);
    RemoteBatchRequest {
        recording_id: recording_id.clone(),
        revision: revision.clone(),
        stream_ids,
        start_ns: range.start.0 as u64,
        end_ns: range.end_exclusive.0 as u64,
        max_bytes: None,
        max_messages: None,
        cursor: match cursor {
            Some(cursor) => Some(cursor.clone()),
            None => None,
        },
    }
}

/// A window of which some pages arrived.
#[derive(Debug)]
pub struct WindowAssembler {
    range: TimeRange,
    messages: Vec<RawMessage>,
    pages: u64,
    source_bytes: usize,
    resident_bytes: usize,
    complete: bool,
}

impl WindowAssembler {
    pub closed spec fn content(&self) -> AssemblerContent {
        AssemblerContent {
            range: self.range,
            messages: raw::contents(self.messages@),
            pages: self.pages,
            source_bytes: self.source_bytes,
            resident_bytes: self.resident_bytes,
            complete: self.complete,
        }
    }

    pub fn new(range: TimeRange) -> (assembler: Self)
        ensures
            assembler.content() == AssemblerContent::fresh(range),
    {
        let messages: Vec<RawMessage> = Vec::new();
        assert(raw::contents(messages@) =~= Seq::empty());
        WindowAssembler {
            range,
            messages,
            pages: 0,
            source_bytes: 0,
            resident_bytes: 0,
            complete: false,
        }
    }

    /// The messages that arrived so far.
    pub fn messages(&self) -> (messages: &Vec<RawMessage>)
        ensures
            raw::contents(messages@) == self.content().messages,
    {
        &self.messages
    }

    /// Takes a page. Whether the window is complete with it comes back.
    pub fn push_page(&mut self, page: RemoteBatchPage) -> (outcome: Result<bool, DataLoadError>)
        ensures
            match outcome {
                Ok(complete) => {
                    &&& old(self).content().refusal(page@) is None
                    &&& final(self).content() == old(self).content().with_page(page@)
                    &&& complete == page@.complete
                },
                Err(error) => {
                    &&& old(self).content().refusal(page@) == Some(error@)
                    &&& final(self).content() == old(self).content().after_refusal(page@)
                },
            },
    {
        if self.complete {
            return Err(
                DataLoadError::new("remote window received a page after completion".to_owned()),
            );
        }
        match push_page_messages(&mut self.messages, &page) {
            Ok(_) => {},
            Err(words) => return Err(DataLoadError::new(words)),
        }
        let size: usize = byte_count(&page.body);
        let kept: usize = if page.messages.len() == 0 {
            0
        } else {
            size
        };
        self.pages = self.pages.saturating_add(1);
        self.source_bytes = match self.source_bytes.checked_add(size) {
            Some(total) => total,
            None => {
                return Err(DataLoadError::new("remote source byte count overflow".to_owned()));
            },
        };
        self.resident_bytes = match self.resident_bytes.checked_add(kept) {
            Some(total) => total,
            None => {
                return Err(DataLoadError::new("remote resident byte count overflow".to_owned()));
            },
        };
        self.complete = page.complete;
        Ok(self.complete)
    }

    /// The window, once all of its pages arrived.
    pub fn finish(self, latency_ms: F64) -> (outcome: Result<LoadedWindow, DataLoadError>)
        ensures
            ({
                let content = self.content();
                match outcome {
                    Ok(loaded) => {
                        &&& content.lack() is None
                        &&& loaded.window.range == content.range
                        &&& raw::contents(loaded.window.messages@) == content.messages
                        &&& loaded.window.resident_bytes == content.resident_bytes
                        &&& loaded.diagnostics == (WindowLoadDiagnostics {
                            source_reads: content.pages,
                            source_bytes: content.source_bytes,
                            decompressed_bytes: 0,
                            per_message_copied_bytes: 0,
                            latency_ms,
                            processing_ms: F64(0),
                        })
                    },
                    Err(error) => content.lack() == Some(error@),
                }
            }),
    {
        if !self.complete {
            return Err(
                DataLoadError::new(
                    "remote window cannot be published before continuation completes".to_owned(),
                ),
            );
        }
        assert(raw::contents(self.messages@).len() == self.messages@.len());
        let diagnostics: WindowLoadDiagnostics = WindowLoadDiagnostics {
            source_reads: self.pages,
            source_bytes: self.source_bytes,
            decompressed_bytes: 0,
            per_message_copied_bytes: 0,
            latency_ms,
            processing_ms: F64(0),
        };
        match SerializedWindow::new(self.range, self.messages, self.resident_bytes) {
            Ok(window) => Ok(LoadedWindow { window, diagnostics }),
            Err(error) => Err(DataLoadError::new(error.message())),
        }
    }
}

/// A window that is published holds messages of its range, in order.
pub proof fn law_published_windows_are_valid(assembler: AssemblerContent)
    requires
        assembler.lack() is None,
    ensures
        assembler.complete,
        data_window::window_valid(assembler.range, assembler.messages),
{
    data_window::law_faultless_windows_are_valid(assembler.range, assembler.messages);
}

/// What a fetch holds.
pub struct FetchContent {
    pub recording_id: Seq<char>,
    pub revision: Seq<char>,
    pub streams: Seq<u32>,
    pub cursor: Option<Seq<char>>,
    pub window: AssemblerContent,
}

/// Why a window cannot be fetched, if it cannot.
pub open spec fn fetch_fault(streams: Seq<u32>, range: TimeRange) -> Option<Seq<char>> {
    if streams.len() == 0 {
        Some("remote stream selection is empty"@)
    } else if range.start.0 < 0 {
        Some("negative remote window start"@)
    } else if range.end_exclusive.0 < 0 {
        Some("negative remote window end"@)
    } else {
        None
    }
}

/// A window that is fetched page by page: each page leads to the next until one is the last.
#[derive(Debug)]
pub struct WindowFetch {
    recording_id: String,
    revision: String,
    streams: Vec<u32>,
    cursor: Option<String>,
    assembler: WindowAssembler,
}

impl WindowFetch {
    pub closed spec fn content(&self) -> FetchContent {
        FetchContent {
            recording_id: self.recording_id@,
            revision: self.revision@,
            streams: self.streams@,
            cursor: client::optional_text(self.cursor),
            window: self.assembler.content(),
        }
    }

    /// The window starts and ends at times that the server knows.
    pub closed spec fn well_formed(&self) -> bool {
        self.assembler.range.start.0 >= 0 && self.assembler.range.end_exclusive.0 >= 0
    }

    pub fn new(recording_id: String, revision: String, streams: Vec<u32>, range: TimeRange) -> (
        outcome: Result<Self, DataLoadError>)
        ensures
            match outcome {
                Ok(fetch) => {
                    &&& fetch.well_formed()
                    &&& fetch_fault(streams@, range) is None
                    &&& fetch.content() == (FetchContent {
                        recording_id: recording_id@,
                        revision: revision@,
                        streams: streams@,
                        cursor: None,
                        window: AssemblerContent::fresh(range),
                    })
                },
                Err(error) => fetch_fault(streams@, range) == Some(error@),
            },
    {
        if streams.len() == 0 {
            return Err(DataLoadError::new("remote stream selection is empty".to_owned()));
        }
        if range.start.0 < 0 {
            return Err(DataLoadError::new("negative remote window start".to_owned()));
        }
        if range.end_exclusive.0 < 0 {
            return Err(DataLoadError::new("negative remote window end".to_owned()));
        }
        Ok(
            WindowFetch {
                recording_id,
                revision,
                streams,
                cursor: None,
                assembler: WindowAssembler::new(range),
            },
        )
    }

    /// The page to ask for.
    pub fn next_request(&self) -> (request: RemoteBatchRequest)
        requires
            self.well_formed(),
        ensures
            request@ == (BatchRequestContent {
                recording_id: self.content().recording_id,
                revision: self.content().revision,
                stream_ids: self.content().streams,
                start_ns: self.content().window.range.start.0 as u64,
                end_ns: self.content().window.range.end_exclusive.0 as u64,
                max_bytes: None,
                max_messages: None,
                cursor: self.content().cursor,
            }),
    {
        page_request(
            &self.recording_id,
            &self.revision,
            &self.streams,
            self.assembler.range,
            &self.cursor,
        )
    }

    /// Takes a page, and goes on behind it. Whether the window is complete comes back.
    pub fn receive(&mut self, page: RemoteBatchPage) -> (outcome: Result<bool, DataLoadError>)
        requires
            old(self).well_formed(),
        ensures
            final(self).well_formed(),
            match outcome {
                Ok(complete) => {
                    &&& old(self).content().window.refusal(page@) is None
                    &&& complete == page@.complete
                    &&& final(self).content() == (FetchContent {
                        cursor: page@.next_cursor,
                        window: old(self).content().window.with_page(page@),
                        ..old(self).content()
                    })
                },
                Err(error) => {
                    &&& old(self).content().window.refusal(page@) == Some(error@)
                    &&& final(self).content() == (FetchContent {
                        cursor: page@.next_cursor,
                        window: old(self).content().window.after_refusal(page@),
                        ..old(self).content()
                    })
                },
            },
    {
        self.cursor = match &page.next_cursor {
            Some(cursor) => Some(cursor.clone()),
            None => None,
        };
        self.assembler.push_page(page)
    }

    /// The window, once all of its pages arrived.
    pub fn finish(self, latency_ms: F64) -> (outcome: Result<LoadedWindow, DataLoadError>)
        ensures
            ({
                let content = self.content().window;
                match outcome {
                    Ok(loaded) => {
                        &&& content.lack() is None
                        &&& loaded.window.range == content.range
                        &&& raw::contents(loaded.window.messages@) == content.messages
                        &&& loaded.window.resident_bytes == content.resident_bytes
                        &&& loaded.diagnostics == (WindowLoadDiagnostics {
                            source_reads: content.pages,
                            source_bytes: content.source_bytes,
                            decompressed_bytes: 0,
                            per_message_copied_bytes: 0,
                            latency_ms,
                            processing_ms: F64(0),
                        })
                    },
                    Err(error) => content.lack() == Some(error@),
                }
            }),
    {
        self.assembler.finish(latency_ms)
    }
}

/// A page whose messages can follow brings all of them, behind those that are there and in its order:
/// each of its stream, at its time, with the bytes of the body that belong to it.
pub proof fn law_pages_bring_their_messages(
    messages: Seq<RawContent>,
    body: Seq<u8>,
    page: Seq<BatchMessage>,
    index: int,
)
    requires
        extended(messages, body, page).1 is None,
        0 <= index < page.len(),
    ensures
        ({
            let all = extended(messages, body, page).0;
            let sent = page[index];
            let brought = all[messages.len() + index];
            &&& all.len() == messages.len() + page.len()
            &&& all.take(messages.len() as int) == messages
            &&& brought.stream_id.0 == sent.stream_id
            &&& brought.arrival_time.0 == sent.log_time_ns
            &&& sent.payload matches Some((start, end)) && start <= end <= body.len()
                && brought.payload == body.subrange(start as int, end as int)
        }),
    decreases page.len(),
{
    let front = page.drop_last();
    let before = extended(messages, body, front).0;
    let all = extended(messages, body, page).0;
    lemma_extended_keeps(messages, body, front);
    if index < front.len() {
        law_pages_bring_their_messages(messages, body, front, index);
        assert(page[index] == front[index]);
    }
    assert(all.take(messages.len() as int) =~= messages);
}

proof fn lemma_extended_keeps(messages: Seq<RawContent>, body: Seq<u8>, page: Seq<BatchMessage>)
    requires
        extended(messages, body, page).1 is None,
    ensures
        extended(messages, body, page).0.len() == messages.len() + page.len(),
        extended(messages, body, page).0.take(messages.len() as int) == messages,
    decreases page.len(),
{
    if page.len() > 0 {
        lemma_extended_keeps(messages, body, page.drop_last());
        let before = extended(messages, body, page.drop_last()).0;
        assert(extended(messages, body, page).0.take(messages.len() as int) =~= before.take(
            messages.len() as int,
        ));
    } else {
        assert(messages.take(messages.len() as int) =~= messages);
    }
}

} // verus!

//! Messages of a recording server, fetched window by window ahead of playback.

use crate::message::float::F64;
use crate::message::payload::byte_count;
use crate::message::time::ArrivalTime;
use crate::playback::data_window::TimeRange;
use crate::playback::window_loader;
use crate::recording::raw::{self, RawContent, RawMessage};
use crate::remote::client::{
    self, BatchRequestContent, PageContent, RemoteBatchPage, RemoteBatchRequest,
};
use crate::remote::pages::{self, page_request, push_page_messages};
use std::collections::VecDeque;
use vstd::prelude::*;
use vstd::string::*;

verus! {

/// How much time one request covers, in nanoseconds.
pub const WINDOW_NANOS: i64 = 1_000_000_000;

/// How far ahead of playback windows are fetched, in nanoseconds.
pub const PREFETCH_NANOS: i64 = 2_000_000_000;

/// Why messages cannot be had, in words.
#[derive(Debug, Eq, PartialEq)]
pub struct RemoteSourceError(String);

impl View for RemoteSourceError {
    type V = Seq<char>;

    closed spec fn view(&self) -> Seq<char> {
        self.0@
    }
}

impl RemoteSourceError {
    pub fn new(message: String) -> (error: Self)
        ensures
            error@ == message@,
    {
        RemoteSourceError(message)
    }

    /// The words of the error.
    pub fn message(&self) -> (message: String)
        ensures
            message@ == self@,
    {
        self.0.as_str().to_owned()
    }
}

/// What a source is doing.
#[derive(Debug, Eq, PartialEq)]
pub enum RemoteSourceStatus {
    Idle,
    Fetching { start: ArrivalTime, end: ArrivalTime },
    Ready,
    Failed(String),
}

/// What a status says.
pub enum StatusContent {
    Idle,
    Fetching { start: ArrivalTime, end: ArrivalTime },
    Ready,
    Failed(Seq<char>),
}

impl View for RemoteSourceStatus {
    type V = StatusContent;

    open spec fn view(&self) -> StatusContent {
        match *self {
            RemoteSourceStatus::Idle => StatusContent::Idle,
            RemoteSourceStatus::Fetching { start, end } => StatusContent::Fetching { start, end },
            RemoteSourceStatus::Ready => StatusContent::Ready,
            RemoteSourceStatus::Failed(words) => StatusContent::Failed(words@),
        }
    }
}

/// What a source fetched, and how long it took.
#[derive(Clone, Copy, Debug, Eq, PartialEq, Structural)]
pub struct RemoteSourceMetrics {
    pub requests: u64,
    pub pages: u64,
    pub bytes_received: u64,
    pub messages_received: u64,
    pub request_latency_ms: F64,
    pub last_window_latency_ms: F64,
    pub buffering_count: u64,
    pub stale_results_discarded: u64,
}

/// A request for the messages of a window of time.
#[derive(Clone, Copy, Debug, Eq, PartialEq, Structural)]
pub struct FetchWindow {
    pub generation: u64,
    pub start: ArrivalTime,
    pub end: ArrivalTime,
}

/// The messages of a window, and what it took to get them.
#[derive(Debug)]
pub struct CompletedWindow {
    pub messages: Vec<RawMessage>,
    pub pages: u64,
    pub bytes: u64,
    pub latency_ms: F64,
}

/// What came of a request.
#[derive(Debug)]
pub struct FetchResult {
    pub window: FetchWindow,
    pub result: Result<CompletedWindow, RemoteSourceError>,
}

/// What a window holds.
pub struct CompletedContent {
    pub messages: Seq<RawContent>,
    pub pages: u64,
    pub bytes: u64,
    pub latency_ms: F64,
}

/// What a result says.
pub struct FetchResultContent {
    pub window: FetchWindow,
    pub result: Result<CompletedContent, Seq<char>>,
}

impl View for FetchResult {
    type V = FetchResultContent;

    open spec fn view(&self) -> FetchResultContent {
        FetchResultContent {
            window: self.window,
            result: match self.result {
                Ok(completed) => Ok(
                    CompletedContent {
                        messages: raw::contents(completed.messages@),
                        pages: completed.pages,
                        bytes: completed.bytes,
                        latency_ms: completed.latency_ms,
                    },
                ),
                Err(error) => Err(error@),
            },
        }
    }
}

/// What each result of a list says.
pub open spec fn result_contents(results: Seq<FetchResult>) -> Seq<FetchResultContent> {
    results.map_values(|result: FetchResult| result@)
}

/// What a source holds.
pub struct SourceContent {
    pub ready: Seq<RawContent>,
    pub complete_until: ArrivalTime,
    pub end_exclusive: ArrivalTime,
    pub in_flight: Option<FetchWindow>,
    pub generation: u64,
    pub inbox: Seq<FetchResultContent>,
    pub status: StatusContent,
    pub metrics: RemoteSourceMetrics,
}

/// How many leading messages have arrived by a time.
pub open spec fn arrived(messages: Seq<RawContent>, target: ArrivalTime) -> int
    decreases messages.len(),
{
    if messages.len() == 0 || messages[0].arrival_time.0 > target.0 {
        0
    } else {
        1 + arrived(messages.drop_first(), target)
    }
}

impl SourceContent {
    /// A source that has fetched nothing.
    pub open spec fn fresh(start: ArrivalTime, end_exclusive: ArrivalTime) -> Self {
        SourceContent {
            ready: Seq::empty(),
            complete_until: start,
            end_exclusive,
            in_flight: None,
            generation: 0,
            inbox: Seq::empty(),
            status: StatusContent::Idle,
            metrics: RemoteSourceMetrics {
                requests: 0,
                pages: 0,
                bytes_received: 0,
                messages_received: 0,
                request_latency_ms: F64(0),
                last_window_latency_ms: F64(0),
                buffering_count: 0,
                stale_results_discarded: 0,
            },
        }
    }

    /// A window is to be fetched for a time: none is on its way, none has failed, and the time is
    /// not covered while something is left.
    pub open spec fn wants(self, target: ArrivalTime) -> bool {
        &&& self.in_flight is None
        &&& !(self.status is Failed)
        &&& target.0 >= self.complete_until.0
        &&& self.complete_until.0 < self.end_exclusive.0
    }

    /// The window that follows the complete ones.
    pub open spec fn next_window(self) -> FetchWindow {
        let end = self.complete_until.0 + WINDOW_NANOS;
        FetchWindow {
            generation: client::next_request(self.generation),
            start: self.complete_until,
            end: if end < self.end_exclusive.0 {
                ArrivalTime(end as i64)
            } else {
                self.end_exclusive
            },
        }
    }

    /// The source once that window was asked for.
    pub open spec fn requested(self) -> Self {
        let window = self.next_window();
        SourceContent {
            generation: window.generation,
            in_flight: Some(window),
            status: StatusContent::Fetching { start: window.start, end: window.end },
            metrics: RemoteSourceMetrics {
                requests: window_loader::grown(self.metrics.requests, 1),
                ..self.metrics
            },
            ..self
        }
    }

    /// The result answers the request that is on its way.
    pub open spec fn expects(self, result: FetchResultContent) -> bool {
        result.window.generation == self.generation && self.in_flight == Some(result.window)
    }

    /// The source once a result came in, and whether it brought messages or what went wrong.
    pub open spec fn received(self, result: FetchResultContent) -> (Self, Result<bool, Seq<char>>) {
        if !self.expects(result) {
            (
                SourceContent {
                    metrics: RemoteSourceMetrics {
                        stale_results_discarded: window_loader::grown(
                            self.metrics.stale_results_discarded,
                            1,
                        ),
                        ..self.metrics
                    },
                    ..self
                },
                Ok(false),
            )
        } else {
            let landed = SourceContent { in_flight: None, ..self };
            match result.result {
                Err(words) => (
                    SourceContent { status: StatusContent::Failed(words), ..landed },
                    Err(words),
                ),
                Ok(completed) => if result.window.start != self.complete_until {
                    let words = "completed remote window does not follow committed data"@;
                    (SourceContent { status: StatusContent::Failed(words), ..landed }, Err(words))
                } else {
                    (
                        SourceContent {
                            ready: self.ready + completed.messages,
                            complete_until: result.window.end,
                            status: StatusContent::Ready,
                            metrics: RemoteSourceMetrics {
                                pages: window_loader::grown(
                                    self.metrics.pages,
                                    completed.pages as int,
                                ),
                                bytes_received: window_loader::grown(
                                    self.metrics.bytes_received,
                                    completed.bytes as int,
                                ),
                                messages_received: window_loader::grown(
                                    self.metrics.messages_received,
                                    completed.messages.len() as int,
                                ),
                                request_latency_ms: completed.latency_ms,
                                last_window_latency_ms: completed.latency_ms,
                                ..self.metrics
                            },
                            ..landed
                        },
                        Ok(true),
                    )
                },
            }
        }
    }

    /// The source once the results that came in were looked at, up to the first that failed, and
    /// whether any brought messages. `changed` tells whether an earlier one did.
    pub open spec fn polled(self, changed: bool) -> (Self, Result<bool, Seq<char>>)
        decreases self.inbox.len(),
    {
        if self.inbox.len() == 0 {
            (self, Ok(changed))
        } else {
            let rest = SourceContent { inbox: self.inbox.drop_first(), ..self };
            let (next, outcome) = rest.received(self.inbox[0]);
            match outcome {
                Err(words) => (next, Err(words)),
                Ok(brought) => next.polled(changed || brought),
            }
        }
    }

    /// Every message up to a time is there.
    pub open spec fn complete_through(self, target: ArrivalTime) -> bool {
        target.0 < self.complete_until.0 || (target.0 == self.end_exclusive.0 - 1
            && self.complete_until == self.end_exclusive)
    }

    /// The source without the messages up to a time.
    pub open spec fn drained(self, target: ArrivalTime) -> Self {
        SourceContent { ready: self.ready.skip(arrived(self.ready, target)), ..self }
    }
}

/// Fetches the messages of some streams ahead of playback, one window at a time.
///
/// The requests are the application's: it sends one for each window that
/// `ensure_available_through` names, and hands what came of it to `complete`.
#[derive(Debug)]
pub struct RemoteBatchSource {
    ready_messages: Vec<RawMessage>,
    complete_until: ArrivalTime,
    recording_end_exclusive: ArrivalTime,
    in_flight: Option<FetchWindow>,
    generation: u64,
    inbox: VecDeque<FetchResult>,
    status: RemoteSourceStatus,
    metrics: RemoteSourceMetrics,
}

impl RemoteBatchSource {
    pub closed spec fn content(&self) -> SourceContent {
        SourceContent {
            ready: raw::contents(self.ready_messages@),
            complete_until: self.complete_until,
            end_exclusive: self.recording_end_exclusive,
            in_flight: self.in_flight,
            generation: self.generation,
            inbox: result_contents(self.inbox@),
            status: self.status@,
            metrics: self.metrics,
        }
    }

    /// The recording does not end at the first of all times.
    pub open spec fn well_formed(&self) -> bool {
        self.content().end_exclusive.0 > i64::MIN
    }

    pub fn new(
        selected_streams: &Vec<u32>,
        start: ArrivalTime,
        recording_end_exclusive: ArrivalTime,
    ) -> (outcome: Result<Self, RemoteSourceError>)
        ensures
            match outcome {
                Ok(source) => {
                    &&& source.well_formed()
                    &&& selected_streams@.len() > 0
                    &&& start.0 < recording_end_exclusive.0
                    &&& source.content() == SourceContent::fresh(start, recording_end_exclusive)
                },
                Err(error) => if selected_streams@.len() == 0 {
                    error@ == "remote stream selection is empty"@
                } else {
                    start.0 >= recording_end_exclusive.0 && error@
                        == "remote source range is empty"@
                },
            },
    {
        if selected_streams.len() == 0 {
            return Err(RemoteSourceError::new("remote stream selection is empty".to_owned()));
        }
        if start.0 >= recording_end_exclusive.0 {
            return Err(RemoteSourceError::new("remote source range is empty".to_owned()));
        }
        let ready_messages: Vec<RawMessage> = Vec::new();
        let inbox: VecDeque<FetchResult> = VecDeque::new();
        assert(raw::contents(ready_messages@) =~= Seq::empty());
        assert(result_contents(inbox@) =~= Seq::empty());
        Ok(
            RemoteBatchSource {
                ready_messages,
                complete_until: start,
                recording_end_exclusive,
                in_flight: None,
                generation: 0,
                inbox,
                status: RemoteSourceStatus::Idle,
                metrics: RemoteSourceMetrics {
                    requests: 0,
                    pages: 0,
                    bytes_received: 0,
                    messages_received: 0,
                    request_latency_ms: F64(0),
                    last_window_latency_ms: F64(0),
                    buffering_count: 0,
                    stale_results_discarded: 0,
                },
            },
        )
    }

    /// Names the window to fetch so that the messages up to a time will be there, if one is to be
    /// fetched.
    pub fn ensure_available_through(&mut self, target: ArrivalTime) -> (window: Option<FetchWindow>)
        ensures
            if old(self).content().wants(target) {
                &&& window == Some(old(self).content().next_window())
                &&& final(self).content() == old(self).content().requested()
            } else {
                &&& window is None
                &&& final(self).content() == old(self).content()
            },
    {
        let failed: bool = match &self.status {
            RemoteSourceStatus::Failed(_) => true,
            _ => false,
        };
        if self.in_flight.is_some() || failed || target.0 < self.complete_until.0
            || self.complete_until.0 >= self.recording_end_exclusive.0 {
            return None;
        }
        let start: ArrivalTime = self.complete_until;
        let end: ArrivalTime = match start.0.checked_add(WINDOW_NANOS) {
            Some(end) => if end < self.recording_end_exclusive.0 {
                ArrivalTime(end)
            } else {
                self.recording_end_exclusive
            },
            None => self.recording_end_exclusive,
        };
        self.generation = self.generation.wrapping_add(1);
        let window: FetchWindow = FetchWindow { generation: self.generation, start, end };
        self.in_flight = Some(window);
        self.status = RemoteSourceStatus::Fetching { start, end };
        self.metrics.requests = self.metrics.requests.saturating_add(1);
        Some(window)
    }

    /// Takes what came of a request.
    pub fn complete(&mut self, result: FetchResult)
        ensures
            final(self).content() == (SourceContent {
                inbox: old(self).content().inbox.push(result@),
                ..old(self).content()
            }),
    {
        let ghost before = self.inbox@;
        let ghost added = result@;
        self.inbox.push_back(result);
        assert(result_contents(self.inbox@) =~= result_contents(before).push(added));
    }

    fn receive(&mut self, result: FetchResult) -> (outcome: Result<bool, RemoteSourceError>)
        ensures
            final(self).content() == old(self).content().received(result@).0,
            match outcome {
                Ok(brought) => old(self).content().received(result@).1 == Ok::<bool, Seq<char>>(
                    brought,
                ),
                Err(error) => old(self).content().received(result@).1 == Err::<bool, Seq<char>>(
                    error@,
                ),
            },
    {
        let expected: bool = match self.in_flight {
            Some(window) => window == result.window,
            None => false,
        };
        if result.window.generation != self.generation || !expected {
            self.metrics.stale_results_discarded =
            self.metrics.stale_results_discarded.saturating_add(1);
            return Ok(false);
        }
        self.in_flight = None;
        match result.result {
            Ok(completed) => {
                if result.window.start.0 != self.complete_until.0 {
                    let words: &'static str =
                        "completed remote window does not follow committed data";
                    self.status = RemoteSourceStatus::Failed(words.to_owned());
                    return Err(RemoteSourceError::new(words.to_owned()));
                }
                let ghost before = self.ready_messages@;
                let ghost added = completed.messages@;
                let count: u64 = completed.messages.len() as u64;
                let mut messages: Vec<RawMessage> = completed.messages;
                self.ready_messages.append(&mut messages);
                assert(raw::contents(self.ready_messages@) =~= raw::contents(before)
                    + raw::contents(added));
                self.complete_until = result.window.end;
                self.metrics.pages = self.metrics.pages.saturating_add(completed.pages);
                self.metrics.bytes_received =
                self.metrics.bytes_received.saturating_add(completed.bytes);
                self.metrics.messages_received =
                self.metrics.messages_received.saturating_add(count);
                self.metrics.last_window_latency_ms = completed.latency_ms;
                self.metrics.request_latency_ms = completed.latency_ms;
                self.status = RemoteSourceStatus::Ready;
                Ok(true)
            },
            Err(error) => {
                self.status = RemoteSourceStatus::Failed(error.message());
                Err(error)
            },
        }
    }

    /// Looks at the results that came in. Whether messages came comes back.
    pub fn poll_completed_fetch(&mut self) -> (outcome: Result<bool, RemoteSourceError>)
        ensures
            old(self).well_formed() ==> final(self).well_formed(),
            final(self).content() == old(self).content().polled(false).0,
            match outcome {
                Ok(changed) => old(self).content().polled(false).1 == Ok::<bool, Seq<char>>(
                    changed,
                ),
                Err(error) => old(self).content().polled(false).1 == Err::<bool, Seq<char>>(
                    error@,
                ),
            },
    {
        let mut changed: bool = false;
        loop
            invariant
                self.content().polled(changed) == old(self).content().polled(false),
                old(self).well_formed() ==> self.well_formed(),
            decreases self.inbox@.len(),
        {
            let ghost before = self.content();
            let ghost waiting = self.inbox@;
            let result: FetchResult = match self.inbox.pop_front() {
                Some(result) => result,
                None => return Ok(changed),
            };
            proof {
                assert(before.inbox[0] == result@);
                assert(result_contents(self.inbox@) =~= before.inbox.drop_first());
            }
            let ghost popped = self.inbox@.len();
            let brought: bool = self.receive(result)?;
            assert(self.content().inbox == before.inbox.drop_first());
            assert(self.inbox@.len() == self.content().inbox.len());
            changed = changed || brought;
        }
    }

    pub fn is_complete_through(&self, target: ArrivalTime) -> (complete: bool)
        requires
            self.well_formed(),
        ensures
            complete == self.content().complete_through(target),
    {
        target.0 < self.complete_until.0 || (target.0 == self.recording_end_exclusive.0 - 1
            && self.complete_until.0 == self.recording_end_exclusive.0)
    }

    /// Hands out the messages up to a time.
    pub fn drain_through(&mut self, target: ArrivalTime) -> (messages: Vec<RawMessage>)
        ensures
            raw::contents(messages@) == old(self).content().ready.take(
                arrived(old(self).content().ready, target),
            ),
            final(self).content() == old(self).content().drained(target),
    {
        let ghost all = raw::contents(self.ready_messages@);
        let ghost before = self.ready_messages@;
        let mut count: usize = 0;
        assert(all.skip(0) =~= all);
        while count < self.ready_messages.len() && self.ready_messages[count].arrival_time.0
            <= target.0
            invariant
                count <= self.ready_messages@.len(),
                all == raw::contents(self.ready_messages@),
                arrived(all, target) == count + arrived(all.skip(count as int), target),
            decreases self.ready_messages@.len() - count,
        {
            assert(all.skip(count as int)[0] == self.ready_messages@[count as int]@);
            assert(all.skip(count as int).drop_first() =~= all.skip(count + 1));
            count = count + 1;
        }
        proof {
            if count < self.ready_messages@.len() {
                assert(all.skip(count as int)[0] == self.ready_messages@[count as int]@);
            }
            assert(arrived(all, target) == count);
        }
        let mut rest: Vec<RawMessage> = self.ready_messages.split_off(count);
        std::mem::swap(&mut rest, &mut self.ready_messages);
        assert(raw::contents(rest@) =~= all.take(count as int));
        assert(raw::contents(self.ready_messages@) =~= all.skip(count as int));
        rest
    }

    pub fn metrics(&self) -> (metrics: &RemoteSourceMetrics)
        ensures
            *metrics == self.content().metrics,
    {
        &self.metrics
    }

    /// Counts that playback had to wait.
    pub fn note_buffering(&mut self)
        ensures
            final(self).content() == (SourceContent {
                metrics: RemoteSourceMetrics {
                    buffering_count: window_loader::grown(
                        old(self).content().metrics.buffering_count,
                        1,
                    ),
                    ..old(self).content().metrics
                },
                ..old(self).content()
            }),
    {
        self.metrics.buffering_count = self.metrics.buffering_count.saturating_add(1);
    }

    pub fn complete_until(&self) -> (time: ArrivalTime)
        ensures
            time == self.content().complete_until,
    {
        self.complete_until
    }

    pub fn status(&self) -> (status: &RemoteSourceStatus)
        ensures
            status@ == self.content().status,
    {
        &self.status
    }
}

/// A result that answers no current request leaves the messages and how far they reach alone.
pub proof fn law_stale_windows_change_nothing(source: SourceContent, result: FetchResultContent)
    requires
        !source.expects(result),
    ensures
        source.received(result).0.ready == source.ready,
        source.received(result).0.complete_until == source.complete_until,
        source.received(result).0.in_flight == source.in_flight,
        source.received(result).1 == Ok::<bool, Seq<char>>(false),
{
}

/// A window that is asked for starts where the complete ones end, and its arrival makes everything
/// before its end complete.
pub proof fn law_windows_follow_each_other(
    source: SourceContent,
    target: ArrivalTime,
    completed: CompletedContent,
)
    requires
        source.wants(target),
    ensures
        ({
            let window = source.next_window();
            let result = FetchResultContent { window, result: Ok(completed) };
            let after = source.requested().received(result).0;
            &&& window.start == source.complete_until
            &&& window.start.0 < window.end.0 <= source.end_exclusive.0
            &&& after.complete_until == window.end
            &&& after.ready == source.ready + completed.messages
            &&& source.complete_until.0 > i64::MIN ==> after.complete_through(
                ArrivalTime((window.end.0 - 1) as i64),
            )
        }),
{
}

/// What an assembler holds.
pub struct AssemblerContent {
    pub messages: Seq<RawContent>,
    pub pages: u64,
    pub bytes: u64,
}

impl AssemblerContent {
    /// An assembler without pages.
    pub open spec fn fresh() -> Self {
        AssemblerContent { messages: Seq::empty(), pages: 0, bytes: 0 }
    }

    /// The assembler with one more page.
    pub open spec fn with_page(self, page: PageContent) -> Self {
        AssemblerContent {
            messages: pages::extended(self.messages, page.body, page.messages).0,
            pages: window_loader::grown(self.pages, 1),
            bytes: window_loader::grown(self.bytes, page.body.len() as int),
        }
    }

    /// The assembler once a page was refused: the messages before the one that was stay.
    pub open spec fn after_refusal(self, page: PageContent) -> Self {
        AssemblerContent {
            messages: pages::extended(self.messages, page.body, page.messages).0,
            ..self
        }
    }
}

/// The messages of a window as its pages arrive. What a server sends is taken as it is, wherever in
/// time it lies.
#[derive(Debug)]
pub struct WindowAssembler {
    messages: Vec<RawMessage>,
    pages: u64,
    bytes: u64,
}

impl Default for WindowAssembler {
    fn default() -> (assembler: Self)
        ensures
            assembler.content() == AssemblerContent::fresh(),
    {
        WindowAssembler::new()
    }
}

impl WindowAssembler {
    pub closed spec fn content(&self) -> AssemblerContent {
        AssemblerContent {
            messages: raw::contents(self.messages@),
            pages: self.pages,
            bytes: self.bytes,
        }
    }

    pub fn new() -> (assembler: Self)
        ensures
            assembler.content() == AssemblerContent::fresh(),
    {
        let messages: Vec<RawMessage> = Vec::new();
        assert(raw::contents(messages@) =~= Seq::empty());
        WindowAssembler { messages, pages: 0, bytes: 0 }
    }

    /// The messages that arrived so far.
    pub fn messages(&self) -> (messages: &Vec<RawMessage>)
        ensures
            raw::contents(messages@) == self.content().messages,
    {
        &self.messages
    }

    /// Takes a page. Whether it is the last comes back.
    pub fn push_page(&mut self, page: RemoteBatchPage) -> (outcome: Result<bool, RemoteSourceError>)
        ensures
            ({
                let fault = pages::extended(
                    old(self).content().messages,
                    page@.body,
                    page@.messages,
                ).1;
                match outcome {
                    Ok(complete) => fault is None && complete == page@.complete && final(
                        self
                    ).content() == old(self).content().with_page(page@),
                    Err(error) => fault == Some(error@) && final(self).content() == old(
                        self
                    ).content().after_refusal(page@),
                }
            }),
    {
        match push_page_messages(&mut self.messages, &page) {
            Ok(_) => {},
            Err(words) => return Err(RemoteSourceError::new(words)),
        }
        self.pages = self.pages.saturating_add(1);
        self.bytes = self.bytes.saturating_add(byte_count(&page.body) as u64);
        Ok(page.complete)
    }

    /// The window with the pages that arrived.
    pub fn finish(self, latency_ms: F64) -> (window: CompletedWindow)
        ensures
            raw::contents(window.messages@) == self.content().messages,
            window.pages == self.content().pages,
            window.bytes == self.content().bytes,
            window.latency_ms == latency_ms,
    {
        CompletedWindow {
            messages: self.messages,
            pages: self.pages,
            bytes: self.bytes,
            latency_ms,
        }
    }
}

/// What a fetch holds.
pub struct PagedFetchContent {
    pub recording_id: Seq<char>,
    pub revision: Seq<char>,
    pub streams: Seq<u32>,
    pub start: ArrivalTime,
    pub end: ArrivalTime,
    pub cursor: Option<Seq<char>>,
    pub window: AssemblerContent,
}

/// A window of a source that is fetched page by page: each page leads to the next until one is the
/// last.
#[derive(Debug)]
pub struct PagedFetch {
    recording_id: String,
    revision: String,
    streams: Vec<u32>,
    window: FetchWindow,
    cursor: Option<String>,
    assembler: WindowAssembler,
}

impl PagedFetch {
    pub closed spec fn content(&self) -> PagedFetchContent {
        PagedFetchContent {
            recording_id: self.recording_id@,
            revision: self.revision@,
            streams: self.streams@,
            start: self.window.start,
            end: self.window.end,
            cursor: client::optional_text(self.cursor),
            window: self.assembler.content(),
        }
    }

    /// The window starts and ends at times that the server knows.
    pub closed spec fn well_formed(&self) -> bool {
        self.window.start.0 >= 0 && self.window.end.0 >= 0
    }

    pub fn new(recording_id: String, revision: String, streams: Vec<u32>, window: FetchWindow) -> (
        outcome: Result<Self, RemoteSourceError>)
        ensures
            match outcome {
                Ok(fetch) => {
                    &&& window.start.0 >= 0 && window.end.0 >= 0
                    &&& fetch.well_formed()
                    &&& fetch.content() == (PagedFetchContent {
                        recording_id: recording_id@,
                        revision: revision@,
                        streams: streams@,
                        start: window.start,
                        end: window.end,
                        cursor: None,
                        window: AssemblerContent::fresh(),
                    })
                },
                Err(error) => if window.start.0 < 0 {
                    error@ == "negative remote window start"@
                } else {
                    window.end.0 < 0 && error@ == "negative remote window end"@
                },
            },
    {
        if window.start.0 < 0 {
            return Err(RemoteSourceError::new("negative remote window start".to_owned()));
        }
        if window.end.0 < 0 {
            return Err(RemoteSourceError::new("negative remote window end".to_owned()));
        }
        Ok(
            PagedFetch {
                recording_id,
                revision,
                streams,
                window,
                cursor: None,
                assembler: WindowAssembler::new(),
            },
        )
    }

    /// The page to ask for.
    pub fn next_request(&self) -> (request: RemoteBatchRequest)
        requires
            self.well_formed(),
        ensures
            request@ == (BatchRequestContent {
                recording_id: self.content().recording_id,
                revision: self.content().revision,
                stream_ids: self.content().streams,
                start_ns: self.content().start.0 as u64,
                end_ns: self.content().end.0 as u64,
                max_bytes: None,
                max_messages: None,
                cursor: self.content().cursor,
            }),
    {
        page_request(
            &self.recording_id,
            &self.revision,
            &self.streams,
            TimeRange { start: self.window.start, end_exclusive: self.window.end },
            &self.cursor,
        )
    }

    /// Takes a page, and goes on behind it. Whether it is the last comes back.
    pub fn receive(&mut self, page: RemoteBatchPage) -> (outcome: Result<bool, RemoteSourceError>)
        requires
            old(self).well_formed(),
        ensures
            final(self).well_formed(),
            ({
                let before = old(self).content();
                let fault = pages::extended(before.window.messages, page@.body, page@.messages).1;
                match outcome {
                    Ok(complete) => fault is None && complete == page@.complete && final(
                        self
                    ).content() == (PagedFetchContent {
                        cursor: page@.next_cursor,
                        window: before.window.with_page(page@),
                        ..before
                    }),
                    Err(error) => fault == Some(error@) && final(self).content() == (
                    PagedFetchContent {
                        cursor: page@.next_cursor,
                        window: before.window.after_refusal(page@),
                        ..before
                    }),
                }
            }),
    {
        self.cursor = match &page.next_cursor {
            Some(cursor) => Some(cursor.clone()),
            None => None,
        };
        self.assembler.push_page(page)
    }

    /// The window with the pages that arrived.
    pub fn finish(self, latency_ms: F64) -> (window: CompletedWindow)
        ensures
            raw::contents(window.messages@) == self.content().window.messages,
            window.pages == self.content().window.pages,
            window.bytes == self.content().window.bytes,
            window.latency_ms == latency_ms,
    {
        self.assembler.finish(latency_ms)
    }
}

/// A window is a second long, or ends with the recording.
pub proof fn law_windows_are_a_second_long(source: SourceContent)
    requires
        source.complete_until.0 < source.end_exclusive.0,
    ensures
        ({
            let window = source.next_window();
            let length = window.end.0 - window.start.0;
            &&& window.start == source.complete_until
            &&& length == 1_000_000_000 || (length < 1_000_000_000 && window.end
                == source.end_exclusive)
            &&& window.generation != source.generation
        }),
{
}

/// What is taken up to a time is what had arrived by it, up to the first message that had not; the
/// rest stays.
pub proof fn law_what_had_arrived_is_taken(messages: Seq<RawContent>, target: ArrivalTime)
    ensures
        ({
            let count = arrived(messages, target);
            &&& 0 <= count <= messages.len()
            &&& forall|i: int|
                0 <= i < count ==> (#[trigger] messages[i]).arrival_time.0 <= target.0
            &&& count < messages.len() ==> messages[count].arrival_time.0 > target.0
        }),
    decreases messages.len(),
{
    if messages.len() > 0 && messages[0].arrival_time.0 <= target.0 {
        let rest = messages.drop_first();
        law_what_had_arrived_is_taken(rest, target);
        assert forall|i: int| 0 <= i < arrived(messages, target) implies (
        #[trigger] messages[i]).arrival_time.0 <= target.0 by {
            if i > 0 {
                assert(rest[i - 1] == messages[i]);
            }
        }
    }
}

/// Data that is missing is asked for, one window at a time: where nothing is on its way, nothing failed,
/// and the data neither reaches the time nor the end.
pub proof fn law_missing_data_is_asked_for(source: SourceContent, target: ArrivalTime)
    requires
        source.complete_until.0 <= source.end_exclusive.0,
        i64::MIN < source.end_exclusive.0,
        target.0 < source.end_exclusive.0,
        source.in_flight is None,
        !(source.status is Failed),
    ensures
        source.wants(target) <==> !source.complete_through(target),
        source.complete_through(target) <==> target.0 < source.complete_until.0,
        !source.requested().wants(target),
{
}

} // verus!

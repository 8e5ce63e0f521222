//! Requests for windows of a recording, and the results that come back for them.
//!
//! The fetch itself is the application's: it starts one for `WindowLoader::current_request` and
//! hands what it got to `WindowLoader::complete`. Results of superseded requests are discarded.

use crate::message::float::F64;
use crate::playback::data_window::{SerializedWindow, TimeRange};
use std::collections::VecDeque;
use vstd::prelude::*;

verus! {

/// Why a load failed, in words.
#[derive(Debug, Eq, PartialEq)]
pub struct DataLoadError(String);

impl View for DataLoadError {
    type V = Seq<char>;

    closed spec fn view(&self) -> Seq<char> {
        self.0@
    }
}

impl DataLoadError {
    pub fn new(message: String) -> (error: Self)
        ensures
            error@ == message@,
    {
        DataLoadError(message)
    }

    /// The words of the error.
    pub fn message(&self) -> (message: String)
        ensures
            message@ == self@,
    {
        self.0.as_str().to_owned()
    }

    /// The same error once more.
    pub fn copy(&self) -> (copy: Self)
        ensures
            copy@ == self@,
    {
        DataLoadError(self.message())
    }
}

/// Where windows come from.
#[derive(Clone, Copy, Debug, Eq, PartialEq, Structural)]
pub enum LoadSource {
    Remote,
    LocalFile,
}

impl LoadSource {
    pub open spec fn spec_busy(self) -> Seq<char> {
        match self {
            LoadSource::Remote => "remote window loader is not idle"@,
            LoadSource::LocalFile => "browser MCAP window loader is not idle"@,
        }
    }

    fn busy(self) -> (words: &'static str)
        ensures
            words@ == self.spec_busy(),
    {
        match self {
            LoadSource::Remote => "remote window loader is not idle",
            LoadSource::LocalFile => "browser MCAP window loader is not idle",
        }
    }
}

/// What one load read, and how long it took.
#[derive(Clone, Copy, Debug, PartialEq, Eq, Structural)]
pub struct WindowLoadDiagnostics {
    pub source_reads: u64,
    pub source_bytes: usize,
    pub decompressed_bytes: usize,
    pub per_message_copied_bytes: usize,
    pub latency_ms: F64,
    pub processing_ms: F64,
}

/// What all loads read together, and how long the last one took.
#[derive(Clone, Copy, Debug, PartialEq, Eq, Structural)]
pub struct WindowLoaderMetrics {
    pub load_requests: u64,
    pub source_reads: u64,
    pub source_bytes: u64,
    pub decompressed_bytes: u64,
    pub per_message_copied_bytes: u64,
    pub messages_loaded: u64,
    pub request_latency_ms: F64,
    pub last_window_latency_ms: F64,
    pub last_processing_ms: F64,
    pub stale_results_discarded: u64,
}

/// A count that grew by `more`, as far as the type reaches.
pub open spec fn grown(count: u64, more: int) -> u64 {
    if count + more > u64::MAX {
        u64::MAX
    } else {
        (count + more) as u64
    }
}

impl WindowLoaderMetrics {
    pub open spec fn spec_none() -> Self {
        WindowLoaderMetrics {
            load_requests: 0,
            source_reads: 0,
            source_bytes: 0,
            decompressed_bytes: 0,
            per_message_copied_bytes: 0,
            messages_loaded: 0,
            request_latency_ms: F64(0),
            last_window_latency_ms: F64(0),
            last_processing_ms: F64(0),
            stale_results_discarded: 0,
        }
    }

    /// The counts once a window was loaded. Only local files are decompressed and copied here.
    pub open spec fn loaded(self, source: LoadSource, loaded: LoadedWindow) -> Self {
        let read = loaded.diagnostics;
        WindowLoaderMetrics {
            source_reads: grown(self.source_reads, read.source_reads as int),
            source_bytes: grown(self.source_bytes, read.source_bytes as int),
            decompressed_bytes: if source is LocalFile {
                grown(self.decompressed_bytes, read.decompressed_bytes as int)
            } else {
                self.decompressed_bytes
            },
            per_message_copied_bytes: if source is LocalFile {
                grown(self.per_message_copied_bytes, read.per_message_copied_bytes as int)
            } else {
                self.per_message_copied_bytes
            },
            messages_loaded: grown(self.messages_loaded, loaded.window.messages@.len() as int),
            request_latency_ms: read.latency_ms,
            last_window_latency_ms: read.latency_ms,
            last_processing_ms: read.processing_ms,
            ..self
        }
    }

    fn note_loaded(&mut self, source: LoadSource, loaded: &LoadedWindow)
        ensures
            *final(self) == old(self).loaded(source, *loaded),
    {
        let read: WindowLoadDiagnostics = loaded.diagnostics;
        self.source_reads = self.source_reads.saturating_add(read.source_reads);
        self.source_bytes = self.source_bytes.saturating_add(read.source_bytes as u64);
        if let LoadSource::LocalFile = source {
            self.decompressed_bytes =
            self.decompressed_bytes.saturating_add(read.decompressed_bytes as u64);
            self.per_message_copied_bytes =
            self.per_message_copied_bytes.saturating_add(read.per_message_copied_bytes as u64);
        }
        self.messages_loaded =
        self.messages_loaded.saturating_add(loaded.window.messages.len() as u64);
        self.request_latency_ms = read.latency_ms;
        self.last_window_latency_ms = read.latency_ms;
        self.last_processing_ms = read.processing_ms;
    }
}

impl Default for WindowLoaderMetrics {
    fn default() -> (metrics: Self)
        ensures
            metrics == WindowLoaderMetrics::spec_none(),
    {
        WindowLoaderMetrics {
            load_requests: 0,
            source_reads: 0,
            source_bytes: 0,
            decompressed_bytes: 0,
            per_message_copied_bytes: 0,
            messages_loaded: 0,
            request_latency_ms: F64(0),
            last_window_latency_ms: F64(0),
            last_processing_ms: F64(0),
            stale_results_discarded: 0,
        }
    }
}

/// A window and what it took to load it.
#[derive(Debug)]
pub struct LoadedWindow {
    pub window: SerializedWindow,
    pub diagnostics: WindowLoadDiagnostics,
}

/// A request for a window. The generation tells it from every other request.
#[derive(Clone, Copy, Debug, Eq, PartialEq, Structural)]
pub struct LoadRequest {
    pub generation: u64,
    pub range: TimeRange,
}

/// What came back for a request.
#[derive(Debug)]
pub struct LoadResult {
    pub request: LoadRequest,
    pub result: Result<LoadedWindow, DataLoadError>,
}

#[derive(Debug)]
enum LoadState {
    Idle,
    Loading(LoadRequest),
    Ready(LoadedWindow),
    Failed(DataLoadError),
}

/// What a loader is doing.
pub enum LoadPhase {
    Idle,
    Loading(LoadRequest),
    Ready(LoadedWindow),
    Failed(Seq<char>),
}

/// What a loader holds.
pub struct LoaderContent {
    pub source: LoadSource,
    pub generation: u64,
    pub phase: LoadPhase,
    pub inbox: Seq<LoadResult>,
    pub metrics: WindowLoaderMetrics,
}

/// The generation after another.
pub open spec fn next_generation(generation: u64) -> u64 {
    if generation == u64::MAX {
        0
    } else {
        (generation + 1) as u64
    }
}

impl LoaderContent {
    /// The request is the one that is being waited for.
    pub open spec fn awaits(self, request: LoadRequest) -> bool {
        request.generation == self.generation && self.phase == LoadPhase::Loading(request)
    }

    /// The loader once a window was requested. A loader that is busy refuses.
    pub open spec fn requested(self, range: TimeRange) -> Result<Self, Seq<char>> {
        if self.phase is Idle {
            let generation = next_generation(self.generation);
            Ok(
                LoaderContent {
                    generation,
                    phase: LoadPhase::Loading(LoadRequest { generation, range }),
                    metrics: WindowLoaderMetrics {
                        load_requests: grown(self.metrics.load_requests, 1),
                        ..self.metrics
                    },
                    ..self
                },
            )
        } else {
            Err(self.source.spec_busy())
        }
    }

    /// The loader once results were taken from the inbox, oldest first. Those that nobody waits
    /// for are discarded and counted. A failure ends it, and so does a window of a local file.
    pub open spec fn received(self) -> Self
        decreases self.inbox.len(),
    {
        if self.inbox.len() == 0 {
            self
        } else {
            let next = self.inbox[0];
            let rest = LoaderContent { inbox: self.inbox.drop_first(), ..self };
            if !self.awaits(next.request) {
                LoaderContent {
                    metrics: WindowLoaderMetrics {
                        stale_results_discarded: grown(self.metrics.stale_results_discarded, 1),
                        ..self.metrics
                    },
                    ..rest
                }.received()
            } else {
                match next.result {
                    Err(error) => LoaderContent { phase: LoadPhase::Failed(error@), ..rest },
                    Ok(loaded) => {
                        let ready = LoaderContent {
                            phase: LoadPhase::Ready(loaded),
                            metrics: self.metrics.loaded(self.source, loaded),
                            ..rest
                        };
                        if self.source is Remote {
                            ready.received()
                        } else {
                            ready
                        }
                    },
                }
            }
        }
    }

    /// What polling yields: a window, a failure, or nothing yet.
    pub open spec fn polled(self) -> Option<Result<LoadedWindow, Seq<char>>> {
        match self.after_receiving().phase {
            LoadPhase::Failed(message) => Some(Err(message)),
            LoadPhase::Ready(loaded) => Some(Ok(loaded)),
            _ => None,
        }
    }

    /// A failed loader takes nothing more.
    pub open spec fn after_receiving(self) -> Self {
        if self.phase is Failed {
            self
        } else {
            self.received()
        }
    }

    /// The loader after polling. It is idle once a window was handed out.
    pub open spec fn after_poll(self) -> Self {
        let received = self.after_receiving();
        if received.phase is Ready {
            LoaderContent { phase: LoadPhase::Idle, ..received }
        } else {
            received
        }
    }

    /// The loader once nobody waits any more.
    pub open spec fn cancelled(self) -> Self {
        LoaderContent {
            generation: next_generation(self.generation),
            phase: LoadPhase::Idle,
            ..self
        }
    }
}

/// One load at a time, of windows of a recording.
#[derive(Debug)]
pub struct WindowLoader {
    source: LoadSource,
    generation: u64,
    state: LoadState,
    inbox: VecDeque<LoadResult>,
    metrics: WindowLoaderMetrics,
}

impl WindowLoader {
    pub closed spec fn content(&self) -> LoaderContent {
        LoaderContent {
            source: self.source,
            generation: self.generation,
            phase: match self.state {
                LoadState::Idle => LoadPhase::Idle,
                LoadState::Loading(request) => LoadPhase::Loading(request),
                LoadState::Ready(loaded) => LoadPhase::Ready(loaded),
                LoadState::Failed(error) => LoadPhase::Failed(error@),
            },
            inbox: self.inbox@,
            metrics: self.metrics,
        }
    }

    /// A loader that has already read so much, such as a catalog.
    pub fn new(source: LoadSource, metrics: WindowLoaderMetrics) -> (loader: Self)
        ensures
            loader.content() == (LoaderContent {
                source,
                generation: 0,
                phase: LoadPhase::Idle,
                inbox: Seq::empty(),
                metrics,
            }),
    {
        let loader = WindowLoader {
            source,
            generation: 0,
            state: LoadState::Idle,
            inbox: VecDeque::new(),
            metrics,
        };
        assert(loader.content().inbox =~= Seq::empty());
        loader
    }

    /// Asks for a window. Only one request can be under way.
    pub fn request(&mut self, range: TimeRange) -> (outcome: Result<(), DataLoadError>)
        ensures
            match old(self).content().requested(range) {
                Ok(after) => outcome is Ok && final(self).content() == after,
                Err(message) => outcome matches Err(error) && error@ == message && final(
                    self
                ).content() == old(self).content(),
            },
    {
        if !self.is_idle() {
            return Err(DataLoadError::new(self.source.busy().to_owned()));
        }
        self.generation = self.generation.wrapping_add(1);
        self.state = LoadState::Loading(LoadRequest { generation: self.generation, range });
        self.metrics.load_requests = self.metrics.load_requests.saturating_add(1);
        Ok(())
    }

    /// The request that is under way.
    pub fn current_request(&self) -> (request: Option<LoadRequest>)
        ensures
            request == (match self.content().phase {
                LoadPhase::Loading(request) => Some(request),
                _ => None,
            }),
    {
        match &self.state {
            LoadState::Loading(request) => Some(*request),
            _ => None,
        }
    }

    /// Puts a result into the inbox.
    pub fn complete(
        &mut self,
        request: LoadRequest,
        result: Result<LoadedWindow, DataLoadError>,
    )
        ensures
            final(self).content() == (LoaderContent {
                inbox: old(self).content().inbox.push(LoadResult { request, result }),
                ..old(self).content()
            }),
    {
        self.inbox.push_back(LoadResult { request, result });
    }

    fn awaits(&self, request: LoadRequest) -> (current: bool)
        ensures
            current == self.content().awaits(request),
    {
        match &self.state {
            LoadState::Loading(expected) => *expected == request && request.generation
                == self.generation,
            _ => false,
        }
    }

    fn receive(&mut self)
        ensures
            final(self).content() == old(self).content().received(),
    {
        let ghost start = self.content();
        loop
            invariant_except_break
                self.content().received() == start.received(),
            ensures
                self.content() == start.received(),
            decreases self.inbox@.len(),
        {
            let ghost before = self.content();
            let next: LoadResult = match self.inbox.pop_front() {
                Some(next) => next,
                None => {
                    break;
                },
            };
            assert(self.inbox@ =~= before.inbox.drop_first());
            if !self.awaits(next.request) {
                self.metrics.stale_results_discarded =
                self.metrics.stale_results_discarded.saturating_add(1);
                continue;
            }
            match next.result {
                Ok(loaded) => {
                    self.metrics.note_loaded(self.source, &loaded);
                    self.state = LoadState::Ready(loaded);
                    if let LoadSource::LocalFile = self.source {
                        break;
                    }
                },
                Err(error) => {
                    self.state = LoadState::Failed(error);
                    break;
                },
            }
        }
    }

    fn take_ready(&mut self) -> (ready: Option<LoadedWindow>)
        ensures
            match ready {
                Some(loaded) => old(self).content().phase == LoadPhase::Ready(loaded) && final(
                    self
                ).content() == (LoaderContent { phase: LoadPhase::Idle, ..old(self).content() }),
                None => !(old(self).content().phase is Ready) && final(self).content() == old(
                    self,
                ).content(),
            },
    {
        let mut state: LoadState = LoadState::Idle;
        std::mem::swap(&mut self.state, &mut state);
        match state {
            LoadState::Ready(loaded) => Some(loaded),
            other => {
                self.state = other;
                None
            },
        }
    }

    /// A window or a failure, as soon as the result of the current request is there.
    pub fn poll(&mut self) -> (event: Option<Result<LoadedWindow, DataLoadError>>)
        ensures
            final(self).content() == old(self).content().after_poll(),
            match event {
                None => old(self).content().polled() is None,
                Some(Ok(loaded)) => old(self).content().polled() == Some(
                    Ok::<LoadedWindow, Seq<char>>(loaded),
                ),
                Some(Err(error)) => old(self).content().polled() == Some(
                    Err::<LoadedWindow, Seq<char>>(error@),
                ),
            },
    {
        if let LoadState::Failed(error) = &self.state {
            return Some(Err(error.copy()));
        }
        self.receive();
        if let LoadState::Failed(error) = &self.state {
            return Some(Err(error.copy()));
        }
        match self.take_ready() {
            Some(loaded) => Some(Ok(loaded)),
            None => None,
        }
    }

    /// Forgets the current request, whatever became of it.
    pub fn cancel(&mut self)
        ensures
            final(self).content() == old(self).content().cancelled(),
    {
        self.generation = self.generation.wrapping_add(1);
        self.state = LoadState::Idle;
    }

    pub fn is_idle(&self) -> (idle: bool)
        ensures
            idle == (self.content().phase is Idle),
    {
        match &self.state {
            LoadState::Idle => true,
            _ => false,
        }
    }

    pub fn source(&self) -> (source: LoadSource)
        ensures
            source == self.content().source,
    {
        self.source
    }

    pub fn metrics(&self) -> (metrics: &WindowLoaderMetrics)
        ensures
            *metrics == self.content().metrics,
    {
        &self.metrics
    }
}

/// What comes back for a request after it was cancelled is discarded, even when the same range was
/// requested again in the meantime.
pub proof fn law_a_cancelled_load_is_not_awaited(
    loader: LoaderContent,
    request: LoadRequest,
    range: TimeRange,
)
    requires
        loader.awaits(request),
    ensures
        !loader.cancelled().awaits(request),
        loader.cancelled().requested(range) matches Ok(again) ==> !again.awaits(request),
{
}

/// Nothing but the window that is awaited is ever handed out: results for other requests leave the
/// loader waiting as before.
pub proof fn law_stale_results_are_discarded(loader: LoaderContent)
    requires
        loader.phase is Loading || loader.phase is Idle,
        forall|i: int|
            0 <= i < loader.inbox.len() ==> !loader.awaits((#[trigger] loader.inbox[i]).request),
    ensures
        loader.polled() is None,
        loader.after_poll() == (LoaderContent {
            inbox: Seq::empty(),
            metrics: WindowLoaderMetrics {
                stale_results_discarded: grown(
                    loader.metrics.stale_results_discarded,
                    loader.inbox.len() as int,
                ),
                ..loader.metrics
            },
            ..loader
        }),
    decreases loader.inbox.len(),
{
    if loader.inbox.len() == 0 {
        assert(loader.inbox =~= Seq::empty());
    } else {
        assert(!loader.awaits(loader.inbox[0].request));
        let next = LoaderContent {
            inbox: loader.inbox.drop_first(),
            metrics: WindowLoaderMetrics {
                stale_results_discarded: grown(loader.metrics.stale_results_discarded, 1),
                ..loader.metrics
            },
            ..loader
        };
        assert forall|i: int| 0 <= i < next.inbox.len() implies !next.awaits(
            (#[trigger] next.inbox[i]).request,
        ) by {
            assert(next.inbox[i] == loader.inbox[i + 1]);
            assert(!loader.awaits(loader.inbox[i + 1].request));
        }
        law_stale_results_are_discarded(next);
    }
}

/// A loaded window is counted once: its reads, its bytes and its messages, and how long it took.
pub proof fn law_loads_are_counted(
    metrics: WindowLoaderMetrics,
    source: LoadSource,
    loaded: LoadedWindow,
)
    requires
        metrics.source_reads + loaded.diagnostics.source_reads <= u64::MAX,
        metrics.source_bytes + loaded.diagnostics.source_bytes <= u64::MAX,
        metrics.messages_loaded + loaded.window.messages@.len() <= u64::MAX,
        metrics.decompressed_bytes + loaded.diagnostics.decompressed_bytes <= u64::MAX,
    ensures
        ({
            let after = metrics.loaded(source, loaded);
            &&& after.source_reads == metrics.source_reads + loaded.diagnostics.source_reads
            &&& after.source_bytes == metrics.source_bytes + loaded.diagnostics.source_bytes
            &&& after.messages_loaded == metrics.messages_loaded + loaded.window.messages@.len()
            &&& after.load_requests == metrics.load_requests
            &&& after.stale_results_discarded == metrics.stale_results_discarded
            &&& after.last_window_latency_ms == loaded.diagnostics.latency_ms
            &&& after.last_processing_ms == loaded.diagnostics.processing_ms
            &&& after.decompressed_bytes == metrics.decompressed_bytes + (if source
                == LoadSource::LocalFile {
                loaded.diagnostics.decompressed_bytes as int
            } else {
                0
            })
        }),
{
}

/// A loader that is idle takes a request and then waits for just that window; while it waits it takes
/// no other request.
pub proof fn law_one_window_is_awaited(loader: LoaderContent, range: TimeRange)
    requires
        loader.phase is Idle,
        loader.inbox.len() == 0,
    ensures
        loader.requested(range) is Ok,
        ({
            let waiting = loader.requested(range)->Ok_0;
            &&& waiting.phase matches LoadPhase::Loading(request) && request.range == range
                && request.generation == waiting.generation
            &&& waiting.generation != loader.generation
            &&& waiting.polled() is None
            &&& forall|other: TimeRange| #[trigger] waiting.requested(other) is Err
        }),
{
}

} // verus!

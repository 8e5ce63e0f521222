//! Playback of a recording whose data comes in windows, with seeks that restore every feature or
//! none.

use crate::feature::camera::CameraId;
use crate::feature::controllers::camera::{CameraController, CameraControllerContent};
use crate::feature::controllers::counters::ProcessingCounters;
use crate::feature::controllers::odometry::OdometryController;
use crate::feature::controllers::path::PathController;
use crate::feature::controllers::transform::TransformController;
use crate::feature::runtime::{FeatureRestoreError, FeatureRuntime, RuntimeContent};
use crate::message::time::ArrivalTime;
use crate::playback::clock::{
    self, nanos, PlaybackClock, PlaybackCommand, PlaybackLoadState, PlaybackSpeed, PlaybackView,
};
use crate::playback::data_plane::{
    FetchIntent, PlaneContent, ProfileContent, RecordingDataPlane, RecordingDataPlaneDiagnostics,
};
use crate::playback::window_loader::{self, LoadResult, LoadSource, LoaderContent, WindowLoader};
use crate::recording::raw::{self, copy_streams, sort_by_time, RawContent, RawMessage, StreamId};
use crate::recording::requirements;
use crate::recording::restore::{
    self, RestoreContent, RestoreInput, RestorePlan, RestorePlanner,
};
use crate::recording::session::{
    RecordingTimeRange, RouteContent, SessionPlan, SourceCatalog, StreamContent,
};
use std::collections::VecDeque;
use std::time::Duration;
use vstd::prelude::*;
use vstd::string::*;

verus! {

/// What a command or a tick did beyond moving the cursor.
#[derive(Clone, Copy, Debug, Eq, PartialEq, Structural)]
pub enum PlaybackEffect {
    Nothing,
    Seeked,
}

impl Default for PlaybackEffect {
    fn default() -> (effect: Self)
        ensures
            effect is Nothing,
    {
        PlaybackEffect::Nothing
    }
}

/// Why playback cannot go on, in words.
#[derive(Debug, Eq, PartialEq)]
pub struct WebPlaybackError(String);

impl View for WebPlaybackError {
    type V = Seq<char>;

    closed spec fn view(&self) -> Seq<char> {
        self.0@
    }
}

impl WebPlaybackError {
    pub fn new(message: String) -> (error: Self)
        ensures
            error@ == message@,
    {
        WebPlaybackError(message)
    }

    /// The words of the error.
    pub fn message(&self) -> (message: String)
        ensures
            message@ == self@,
    {
        self.0.as_str().to_owned()
    }
}

/// What came back for a restore request.
#[derive(Debug)]
pub struct RestoreResult {
    pub generation: u64,
    pub result: Result<Vec<RawMessage>, WebPlaybackError>,
}

/// What a `RestoreResult` holds.
pub struct RestoreResultContent {
    pub generation: u64,
    pub result: Result<Seq<RawContent>, Seq<char>>,
}

impl View for RestoreResult {
    type V = RestoreResultContent;

    open spec fn view(&self) -> RestoreResultContent {
        RestoreResultContent {
            generation: self.generation,
            result: match self.result {
                Ok(messages) => Ok(raw::contents(messages@)),
                Err(error) => Err(error@),
            },
        }
    }
}

/// What each result of a list holds.
pub open spec fn result_contents(results: Seq<RestoreResult>) -> Seq<RestoreResultContent> {
    results.map_values(|result: RestoreResult| result@)
}

/// What a restore loader holds.
pub struct RestoreLoaderContent {
    pub generation: u64,
    pub pending: Option<RestoreContent>,
    pub inbox: Seq<RestoreResultContent>,
}

impl RestoreLoaderContent {
    /// The loader once a plan was requested, in place of any earlier one.
    pub open spec fn requested(self, plan: RestoreContent) -> Self {
        RestoreLoaderContent {
            generation: window_loader::next_generation(self.generation),
            pending: Some(plan),
            ..self
        }
    }

    /// The first result in the inbox that belongs to the current request.
    pub open spec fn polled(self) -> Option<Result<Seq<RawContent>, Seq<char>>>
        decreases self.inbox.len(),
    {
        if self.inbox.len() == 0 {
            None
        } else if self.pending is Some && self.inbox[0].generation == self.generation {
            Some(self.inbox[0].result)
        } else {
            RestoreLoaderContent { inbox: self.inbox.drop_first(), ..self }.polled()
        }
    }

    /// The loader without the results up to that one, and without the request that it answers.
    pub open spec fn after_poll(self) -> Self
        decreases self.inbox.len(),
    {
        if self.inbox.len() == 0 {
            self
        } else {
            let rest = RestoreLoaderContent { inbox: self.inbox.drop_first(), ..self };
            if self.pending is Some && self.inbox[0].generation == self.generation {
                RestoreLoaderContent { pending: None, ..rest }
            } else {
                rest.after_poll()
            }
        }
    }
}

/// Requests for the messages of a seek, and the results that come back for them.
///
/// The reads are the application's: it starts them for `current_request` and hands what it got to
/// `complete`. A new request takes the place of an earlier one.
#[derive(Debug)]
pub struct WebRestoreLoader {
    generation: u64,
    pending: Option<RestorePlan>,
    inbox: VecDeque<RestoreResult>,
}

impl WebRestoreLoader {
    pub closed spec fn content(&self) -> RestoreLoaderContent {
        RestoreLoaderContent {
            generation: self.generation,
            pending: match self.pending {
                Some(plan) => Some(plan@),
                None => None,
            },
            inbox: result_contents(self.inbox@),
        }
    }

    pub fn new() -> (loader: Self)
        ensures
            loader.content() == (RestoreLoaderContent {
                generation: 0,
                pending: None,
                inbox: Seq::empty(),
            }),
    {
        let loader = WebRestoreLoader { generation: 0, pending: None, inbox: VecDeque::new() };
        assert(loader.content().inbox =~= Seq::empty());
        loader
    }

    /// Asks for what a plan reads.
    pub fn request(&mut self, plan: RestorePlan)
        ensures
            final(self).content() == old(self).content().requested(plan@),
    {
        self.generation = self.generation.wrapping_add(1);
        self.pending = Some(plan);
    }

    /// The plan whose messages are awaited, and the generation of its request.
    pub fn current_request(&self) -> (request: Option<(u64, &RestorePlan)>)
        ensures
            match request {
                Some((generation, plan)) => generation == self.content().generation
                    && self.content().pending == Some(plan@),
                None => self.content().pending is None,
            },
    {
        match &self.pending {
            Some(plan) => Some((self.generation, plan)),
            None => None,
        }
    }

    /// Puts a result into the inbox.
    pub fn complete(&mut self, result: RestoreResult)
        ensures
            final(self).content() == (RestoreLoaderContent {
                inbox: old(self).content().inbox.push(result@),
                ..old(self).content()
            }),
    {
        let ghost before = self.inbox@;
        self.inbox.push_back(result);
        assert(result_contents(self.inbox@) =~= result_contents(before).push(result@));
    }

    /// The messages of the current request, as soon as they are there.
    pub fn poll(&mut self) -> (event: Option<Result<Vec<RawMessage>, WebPlaybackError>>)
        ensures
            final(self).content() == old(self).content().after_poll(),
            match event {
                None => old(self).content().polled() is None,
                Some(Ok(messages)) => old(self).content().polled() == Some(
                    Ok::<Seq<RawContent>, Seq<char>>(raw::contents(messages@)),
                ),
                Some(Err(error)) => old(self).content().polled() == Some(
                    Err::<Seq<RawContent>, Seq<char>>(error@),
                ),
            },
    {
        let ghost start = self.content();
        loop
            invariant
                self.content().polled() == start.polled(),
                self.content().after_poll() == start.after_poll(),
                start == old(self).content(),
            decreases self.inbox@.len(),
        {
            let ghost before = self.content();
            let next: RestoreResult = match self.inbox.pop_front() {
                Some(next) => next,
                None => return None,
            };
            proof {
                assert(before.inbox[0] == next@);
                assert(result_contents(self.inbox@) =~= before.inbox.drop_first());
            }
            let awaited: bool = match &self.pending {
                Some(_) => true,
                None => false,
            };
            if awaited && next.generation == self.generation {
                self.pending = None;
                return Some(next.result);
            }
        }
    }
}

/// A seek that waits for its messages.
#[derive(Debug, Eq, PartialEq)]
pub struct PendingSeek {
    pub target: ArrivalTime,
    pub persistent_streams: Vec<StreamId>,
    /// The messages of the persistent streams are among those that are awaited.
    pub bootstraps_persistent: bool,
}

/// What a pending seek holds.
pub struct SeekContent {
    pub target: ArrivalTime,
    pub persistent_streams: Seq<StreamId>,
    pub bootstraps_persistent: bool,
}

impl View for PendingSeek {
    type V = SeekContent;

    open spec fn view(&self) -> SeekContent {
        SeekContent {
            target: self.target,
            persistent_streams: self.persistent_streams@,
            bootstraps_persistent: self.bootstraps_persistent,
        }
    }
}

impl SeekContent {
    pub open spec fn persistent(self, message: RawContent) -> bool {
        self.persistent_streams.contains(message.stream_id)
    }

    /// The messages of persistent streams once a seek has got what it waited for.
    pub open spec fn archive(
        self,
        earlier: Option<Seq<RawContent>>,
        loaded: Seq<RawContent>,
    ) -> Option<Seq<RawContent>> {
        if self.bootstraps_persistent {
            Some(loaded.filter(|message: RawContent| self.persistent(message)))
        } else {
            earlier
        }
    }

    /// The messages that a seek restores: what was loaded, and of the archive what had arrived by
    /// the target, all in order.
    pub open spec fn restored(
        self,
        earlier: Option<Seq<RawContent>>,
        loaded: Seq<RawContent>,
    ) -> Seq<RawContent> {
        let fresh = if self.bootstraps_persistent {
            loaded.filter(|message: RawContent| !self.persistent(message))
        } else {
            loaded
        };
        let kept = match self.archive(earlier, loaded) {
            Some(archive) => archive.filter(
                |message: RawContent|
                    self.persistent(message) && message.arrival_time.0 <= self.target.0,
            ),
            None => Seq::empty(),
        };
        raw::time_sorted(fresh + kept)
    }
}

/// What playback is waiting for.
pub enum LoadStateContent {
    Ready,
    Buffering { requested: ArrivalTime, committed: ArrivalTime },
    Seeking { target: ArrivalTime },
    Failed { message: Seq<char> },
}

/// What a load state says.
pub open spec fn state_content(state: PlaybackLoadState) -> LoadStateContent {
    match state {
        PlaybackLoadState::Ready => LoadStateContent::Ready,
        PlaybackLoadState::Buffering { requested, committed } => LoadStateContent::Buffering {
            requested,
            committed,
        },
        PlaybackLoadState::Seeking { target } => LoadStateContent::Seeking { target },
        PlaybackLoadState::Failed { message } => LoadStateContent::Failed { message: message@ },
    }
}

/// What playback holds.
pub struct WebContent {
    pub clock: PlaybackView,
    pub runtime: RuntimeContent,
    pub time_range: Option<RecordingTimeRange>,
    pub streams: Seq<StreamContent>,
    pub restore_inputs: Seq<RestoreInput>,
    pub data: PlaneContent,
    pub restore: RestoreLoaderContent,
    pub archive: Option<Seq<RawContent>>,
    pub load_state: LoadStateContent,
    pub pending_seek: Option<SeekContent>,
    pub buffer_underrun_active: bool,
}

impl WebContent {
    /// Playback from the start of a recording, with nothing loaded.
    pub open spec fn fresh(
        routes: Seq<RouteContent>,
        primary: Option<CameraId>,
        range: RecordingTimeRange,
        streams: Seq<StreamContent>,
        loader: LoaderContent,
    ) -> Self {
        WebContent {
            clock: PlaybackView {
                start: range.start,
                end: ArrivalTime((range.end_exclusive.0 - 1) as i64),
                cursor: range.start,
                playing: false,
                speed: PlaybackSpeed::Normal,
            },
            runtime: RuntimeContent::fresh(routes, primary, false),
            time_range: Some(range),
            streams,
            restore_inputs: requirements::restore_inputs_of(routes),
            data: PlaneContent::fresh(
                ProfileContent::usual(),
                loader,
                range.start,
                range.end_exclusive,
            ),
            restore: RestoreLoaderContent { generation: 0, pending: None, inbox: Seq::empty() },
            archive: None,
            load_state: LoadStateContent::Ready,
            pending_seek: None,
            buffer_underrun_active: false,
        }
    }

    /// What is wanted of the data: playback looks ahead, a pause does not.
    pub open spec fn intent(self) -> FetchIntent {
        if self.clock.playing {
            FetchIntent::PlaybackAhead
        } else {
            FetchIntent::RequiredOnly
        }
    }

    /// Playback once the cursor was offered a place. It takes it where the data is complete, with
    /// every message up to there; otherwise it waits.
    pub open spec fn offered(self, step: u128, requested: ArrivalTime) -> Self {
        if self.data.store.complete_through(requested, self.data.end_exclusive) {
            WebContent {
                clock: clock::committed(self.clock, requested),
                runtime: self.runtime.played(
                    step,
                    self.data.deliverable(self.clock.cursor, requested),
                ),
                data: self.data.delivered(requested),
                buffer_underrun_active: false,
                load_state: LoadStateContent::Ready,
                ..self
            }
        } else {
            let waits = self.clock.playing && requested.0 > self.clock.cursor.0;
            WebContent {
                data: if waits && !self.buffer_underrun_active {
                    self.data.underrun()
                } else {
                    self.data
                },
                buffer_underrun_active: waits,
                load_state: LoadStateContent::Buffering { requested, committed: self.clock.cursor },
                ..self
            }
        }
    }

    /// Playback once data was requested.
    pub open spec fn ensured(
        self,
        committed: ArrivalTime,
        required: ArrivalTime,
        intent: FetchIntent,
    ) -> Self {
        WebContent {
            data: self.data.ensured(
                self.data.demand(committed, required, self.clock.speed, intent),
            ),
            ..self
        }
    }

    /// Playback after time passed without a pending seek.
    pub open spec fn ticked(self, step: u128) -> Result<Self, (Self, Seq<char>)> {
        let polled = WebContent { data: self.data.polled(self.clock.cursor), ..self };
        match polled.data.failed {
            Some(message) => Err(
                (WebContent { load_state: LoadStateContent::Failed { message }, ..polled }, message),
            ),
            None => {
                let requested = clock::cursor_reached(self.clock, step as nat);
                let ready = polled.ensured(self.clock.cursor, requested, self.intent());
                let offered = ready.offered(step, requested);
                if ready.data.store.complete_through(requested, ready.data.end_exclusive) {
                    Ok(offered.ensured(requested, requested, self.intent()))
                } else {
                    Ok(offered)
                }
            },
        }
    }

    /// Playback whose seek failed: everything that is shown stays.
    pub open spec fn seek_failed(self, message: Seq<char>) -> Self {
        WebContent {
            pending_seek: None,
            load_state: LoadStateContent::Failed { message },
            ..self
        }
    }

    /// Playback at the target of a seek.
    pub open spec fn seek_done(
        self,
        seek: SeekContent,
        runtime: RuntimeContent,
        archive: Option<Seq<RawContent>>,
    ) -> Self {
        let there = WebContent {
            clock: PlaybackView {
                cursor: clock::clamped(seek.target, self.clock.start, self.clock.end),
                ..self.clock
            },
            runtime,
            data: self.data.sought(seek.target),
            archive,
            pending_seek: None,
            buffer_underrun_active: false,
            load_state: LoadStateContent::Ready,
            ..self
        };
        if self.clock.playing {
            there.ensured(seek.target, seek.target, FetchIntent::PlaybackAhead)
        } else {
            there
        }
    }

    /// Playback after looking for the messages of a pending seek, and what it did.
    pub open spec fn seek_ticked(self, seek: SeekContent) -> (Self, Result<
        PlaybackEffect,
        Seq<char>,
    >) {
        let waited = WebContent { restore: self.restore.after_poll(), ..self };
        match self.restore.polled() {
            None => (
                WebContent {
                    load_state: LoadStateContent::Seeking { target: seek.target },
                    ..waited
                },
                Ok(PlaybackEffect::Nothing),
            ),
            Some(Err(message)) => (waited.seek_failed(message), Err(message)),
            Some(Ok(loaded)) => match self.runtime.restored(seek.restored(self.archive, loaded)) {
                Err(fault) => (
                    waited.seek_failed(FeatureRestoreError::spec_message(fault)),
                    Err(FeatureRestoreError::spec_message(fault)),
                ),
                Ok(runtime) => (
                    waited.seek_done(seek, runtime, seek.archive(self.archive, loaded)),
                    Ok(PlaybackEffect::Seeked),
                ),
            },
        }
    }

    /// Playback with a new seek, in place of any earlier one.
    pub open spec fn seeking(self, target: ArrivalTime, plan: RestoreContent) -> Self {
        let bootstraps = plan.persistent.len() > 0 && self.archive is None;
        WebContent {
            data: PlaneContent { loader: self.data.loader.cancelled(), ..self.data },
            restore: self.restore.requested(
                if bootstraps {
                    plan
                } else {
                    RestoreContent { persistent: Seq::empty(), ..plan }
                },
            ),
            pending_seek: Some(
                SeekContent {
                    target,
                    persistent_streams: plan.persistent,
                    bootstraps_persistent: bootstraps,
                },
            ),
            buffer_underrun_active: false,
            load_state: LoadStateContent::Seeking { target },
            ..self
        }
    }

    /// Playback after a command. A seek to where one already goes changes nothing.
    pub open spec fn commanded(self, command: PlaybackCommand) -> Result<Self, Seq<char>> {
        match command {
            PlaybackCommand::Toggle => Ok(
                WebContent {
                    clock: PlaybackView { playing: !self.clock.playing, ..self.clock },
                    ..self
                },
            ),
            PlaybackCommand::SetSpeed(speed) => Ok(
                WebContent { clock: PlaybackView { speed, ..self.clock }, ..self },
            ),
            PlaybackCommand::Seek(cursor) => {
                let target = clock::clamped(cursor, self.clock.start, self.clock.end);
                if self.pending_seek is Some && self.pending_seek->Some_0.target == target {
                    Ok(self)
                } else {
                    match restore::plan_outcome(
                        self.time_range,
                        self.streams,
                        target,
                        self.restore_inputs,
                    ) {
                        Err(error) => Err(error.spec_message()),
                        Ok(plan) => Ok(self.seeking(target, plan)),
                    }
                }
            },
        }
    }
}

fn contains_stream(streams: &Vec<StreamId>, stream: StreamId) -> (found: bool)
    ensures
        found == streams@.contains(stream),
{
    let mut index: usize = 0;
    while index < streams.len()
        invariant
            index <= streams@.len(),
            forall|i: int| 0 <= i < index ==> streams@[i] != stream,
        decreases streams@.len() - index,
    {
        if streams[index] == stream {
            return true;
        }
        index = index + 1;
    }
    false
}

impl PendingSeek {
    /// The messages of persistent streams, and the others.
    fn split(&self, messages: Vec<RawMessage>) -> (parts: (Vec<RawMessage>, Vec<RawMessage>))
        ensures
            raw::contents(parts.0@) == raw::contents(messages@).filter(
                |message: RawContent| self@.persistent(message),
            ),
            raw::contents(parts.1@) == raw::contents(messages@).filter(
                |message: RawContent| !self@.persistent(message),
            ),
    {
        let ghost own = |message: RawContent| self@.persistent(message);
        let ghost other = |message: RawContent| !self@.persistent(message);
        let ghost all = raw::contents(messages@);
        let mut archive: Vec<RawMessage> = Vec::new();
        let mut fresh: Vec<RawMessage> = Vec::new();
        let mut index: usize = 0;
        proof {
            reveal(Seq::filter);
            assert(all.take(0) =~= Seq::empty());
            assert(raw::contents(archive@) =~= Seq::empty());
            assert(raw::contents(fresh@) =~= Seq::empty());
        }
        while index < messages.len()
            invariant
                index <= messages@.len(),
                all == raw::contents(messages@),
                own == (|message: RawContent| self@.persistent(message)),
                other == (|message: RawContent| !self@.persistent(message)),
                raw::contents(archive@) == all.take(index as int).filter(own),
                raw::contents(fresh@) == all.take(index as int).filter(other),
            decreases messages@.len() - index,
        {
            let ghost before = (raw::contents(archive@), raw::contents(fresh@));
            let copy: RawMessage = messages[index].clone();
            proof {
                reveal(Seq::filter);
                assert(all.take(index + 1).drop_last() =~= all.take(index as int));
                assert(all[index as int] == messages@[index as int]@);
            }
            if contains_stream(&self.persistent_streams, copy.stream_id) {
                archive.push(copy);
                assert(raw::contents(archive@) =~= before.0.push(all[index as int]));
            } else {
                fresh.push(copy);
                assert(raw::contents(fresh@) =~= before.1.push(all[index as int]));
            }
            index = index + 1;
        }
        assert(all.take(all.len() as int) =~= all);
        (archive, fresh)
    }

    fn push_archived(&self, messages: &mut Vec<RawMessage>, archive: &Vec<RawMessage>)
        ensures
            raw::contents(final(messages)@) == raw::contents(old(messages)@) + raw::contents(
                archive@,
            ).filter(
                |message: RawContent|
                    self@.persistent(message) && message.arrival_time.0 <= self@.target.0,
            ),
    {
        let ghost keep = |message: RawContent|
            self@.persistent(message) && message.arrival_time.0 <= self@.target.0;
        let ghost all = raw::contents(archive@);
        let ghost front = raw::contents(messages@);
        let mut index: usize = 0;
        proof {
            reveal(Seq::filter);
            assert(all.take(0) =~= Seq::empty());
            assert(front + all.take(0).filter(keep) =~= front);
        }
        while index < archive.len()
            invariant
                index <= archive@.len(),
                all == raw::contents(archive@),
                keep == (|message: RawContent|
                    self@.persistent(message) && message.arrival_time.0 <= self@.target.0),
                raw::contents(messages@) == front + all.take(index as int).filter(keep),
            decreases archive@.len() - index,
        {
            let ghost before = raw::contents(messages@);
            let message: &RawMessage = &archive[index];
            proof {
                reveal(Seq::filter);
                assert(all.take(index + 1).drop_last() =~= all.take(index as int));
                assert(all[index as int] == archive@[index as int]@);
            }
            if contains_stream(&self.persistent_streams, message.stream_id)
                && message.arrival_time.0 <= self.target.0 {
                let copy: RawMessage = message.clone();
                messages.push(copy);
                proof {
                    assert(raw::contents(messages@) =~= before.push(all[index as int]));
                    assert(raw::contents(messages@) =~= front + all.take(index + 1).filter(keep));
                }
            } else {
                assert(all.take(index + 1).filter(keep) == all.take(index as int).filter(keep));
            }
            index = index + 1;
        }
        assert(all.take(all.len() as int) =~= all);
    }
}

/// The same state once more.
pub fn copy_state(state: &PlaybackLoadState) -> (copy: PlaybackLoadState)
    ensures
        state_content(copy) == state_content(*state),
{
    match state {
        PlaybackLoadState::Ready => PlaybackLoadState::Ready,
        PlaybackLoadState::Buffering { requested, committed } => PlaybackLoadState::Buffering {
            requested: *requested,
            committed: *committed,
        },
        PlaybackLoadState::Seeking { target } => PlaybackLoadState::Seeking { target: *target },
        PlaybackLoadState::Failed { message } => PlaybackLoadState::Failed {
            message: message.as_str().to_owned(),
        },
    }
}

/// Browser playback shared by local files and recording servers.
pub struct WebPlayback {
    clock: PlaybackClock,
    runtime: FeatureRuntime,
    catalog: SourceCatalog,
    restore_inputs: Vec<RestoreInput>,
    data: RecordingDataPlane,
    restore: WebRestoreLoader,
    persistent_archive: Option<Vec<RawMessage>>,
    load_state: PlaybackLoadState,
    pending_seek: Option<PendingSeek>,
    buffer_underrun_active: bool,
}

impl WebPlayback {
    pub closed spec fn content(&self) -> WebContent {
        WebContent {
            clock: self.clock.model(),
            runtime: self.runtime.content(),
            time_range: self.catalog.time_range,
            streams: self.catalog.content(),
            restore_inputs: self.restore_inputs@,
            data: self.data.content(),
            restore: self.restore.content(),
            archive: match self.persistent_archive {
                Some(archive) => Some(raw::contents(archive@)),
                None => None,
            },
            load_state: state_content(self.load_state),
            pending_seek: match self.pending_seek {
                Some(seek) => Some(seek@),
                None => None,
            },
            buffer_underrun_active: self.buffer_underrun_active,
        }
    }

    /// The clock runs over the recording of the data, and a pending seek goes to a time in it.
    pub closed spec fn well_formed(&self) -> bool {
        &&& self.clock.well_formed()
        &&& self.runtime.well_formed()
        &&& self.data.well_formed()
        &&& self.clock.model().start == self.data.content().start
        &&& self.clock.model().end.0 == self.data.content().end_exclusive.0 - 1
        &&& self.pending_seek matches Some(seek) ==> self.clock.model().start.0 <= seek.target.0
            <= self.clock.model().end.0
    }

    /// Playback from the start of a recording, with nothing loaded.
    pub fn new(plan: &SessionPlan, catalog: SourceCatalog, loader: WindowLoader) -> (outcome: Result<
        Self,
        WebPlaybackError,
    >)
        ensures
            match outcome {
                Ok(playback) => {
                    &&& playback.well_formed()
                    &&& catalog.time_range matches Some(range)
                    &&& range.start.0 < range.end_exclusive.0
                    &&& playback.content() == WebContent::fresh(
                        plan.content(),
                        plan.spec_primary_camera(),
                        range,
                        catalog.content(),
                        loader.content(),
                    )
                },
                Err(error) => if catalog.time_range is None {
                    error@ == "recording catalog has no time range"@
                } else {
                    catalog.time_range->Some_0.start.0
                        >= catalog.time_range->Some_0.end_exclusive.0 && error@
                        == "recording data range is empty"@
                },
            },
    {
        let recording: RecordingTimeRange = match catalog.time_range {
            Some(range) => range,
            None => return Err(
                WebPlaybackError::new("recording catalog has no time range".to_owned()),
            ),
        };
        let data: RecordingDataPlane = match RecordingDataPlane::new(
            loader,
            recording.start,
            recording.end_exclusive,
        ) {
            Ok(data) => data,
            Err(error) => return Err(WebPlaybackError::new(error.message())),
        };
        let end = ArrivalTime(recording.end_exclusive.0 - 1);
        let runtime: FeatureRuntime = FeatureRuntime::new(plan, false);
        let restore_inputs: Vec<RestoreInput> = plan.restore_inputs();
        Ok(
            WebPlayback {
                clock: PlaybackClock::new(recording.start, end),
                runtime,
                catalog,
                restore_inputs,
                data,
                restore: WebRestoreLoader::new(),
                persistent_archive: None,
                load_state: PlaybackLoadState::Ready,
                pending_seek: None,
                buffer_underrun_active: false,
            },
        )
    }

    /// Lets time pass: a pending seek looks for its messages, and otherwise playback goes on as
    /// far as there is data.
    pub fn tick(&mut self, elapsed: Duration) -> (outcome: Result<
        PlaybackEffect,
        WebPlaybackError,
    >)
        requires
            old(self).well_formed(),
        ensures
            final(self).well_formed(),
            match old(self).content().pending_seek {
                Some(seek) => final(self).content() == old(self).content().seek_ticked(seek).0
                    && match outcome {
                    Ok(effect) => old(self).content().seek_ticked(seek).1 == Ok::<
                        PlaybackEffect,
                        Seq<char>,
                    >(effect),
                    Err(error) => old(self).content().seek_ticked(seek).1 == Err::<
                        PlaybackEffect,
                        Seq<char>,
                    >(error@),
                },
                None => match old(self).content().ticked(clock::duration_nanos(elapsed)) {
                    Ok(after) => outcome == Ok::<PlaybackEffect, WebPlaybackError>(
                        PlaybackEffect::Nothing,
                    ) && final(self).content() == after,
                    Err((after, message)) => outcome matches Err(error) && error@ == message
                        && final(self).content() == after,
                },
            },
    {
        self.tick_nanos(nanos(elapsed))
    }

    /// Lets so many nanoseconds pass.
    pub fn tick_nanos(&mut self, step: u128) -> (outcome: Result<PlaybackEffect, WebPlaybackError>)
        requires
            old(self).well_formed(),
        ensures
            final(self).well_formed(),
            match old(self).content().pending_seek {
                Some(seek) => final(self).content() == old(self).content().seek_ticked(seek).0
                    && match outcome {
                    Ok(effect) => old(self).content().seek_ticked(seek).1 == Ok::<
                        PlaybackEffect,
                        Seq<char>,
                    >(effect),
                    Err(error) => old(self).content().seek_ticked(seek).1 == Err::<
                        PlaybackEffect,
                        Seq<char>,
                    >(error@),
                },
                None => match old(self).content().ticked(step) {
                    Ok(after) => outcome == Ok::<PlaybackEffect, WebPlaybackError>(
                        PlaybackEffect::Nothing,
                    ) && final(self).content() == after,
                    Err((after, message)) => outcome matches Err(error) && error@ == message
                        && final(self).content() == after,
                },
            },
    {
        if let Some(seek) = self.pending_seek.take() {
            return self.tick_seek(seek);
        }
        if let Err(error) = self.data.poll(self.clock.cursor()) {
            self.load_state = PlaybackLoadState::Failed { message: error.message() };
            return Err(WebPlaybackError::new(error.message()));
        }
        let requested: ArrivalTime = self.clock.cursor_after_nanos(step);
        let committed: ArrivalTime = self.clock.cursor();
        let speed = self.clock.speed();
        let intent: FetchIntent = if self.clock.is_playing() {
            FetchIntent::PlaybackAhead
        } else {
            FetchIntent::RequiredOnly
        };
        if let Err(error) = self.data.ensure_available_through(committed, requested, speed, intent) {
            return Err(WebPlaybackError::new(error.message()));
        }
        if !self.commit_candidate_nanos(step, requested) {
            return Ok(PlaybackEffect::Nothing);
        }
        if let Err(error) = self.data.ensure_available_through(requested, requested, speed, intent) {
            return Err(WebPlaybackError::new(error.message()));
        }
        Ok(PlaybackEffect::Nothing)
    }

    fn fail_seek(&mut self, message: String)
        requires
            old(self).well_formed(),
        ensures
            final(self).well_formed(),
            final(self).content() == old(self).content().seek_failed(message@),
    {
        self.pending_seek = None;
        self.load_state = PlaybackLoadState::Failed { message };
    }

    fn tick_seek(&mut self, seek: PendingSeek) -> (outcome: Result<
        PlaybackEffect,
        WebPlaybackError,
    >)
        requires
            old(self).well_formed(),
            old(self).content().clock.start.0 <= seek.target.0 <= old(self).content().clock.end.0,
        ensures
            final(self).well_formed(),
            ({
                let before = WebContent { pending_seek: Some(seek@), ..old(self).content() };
                &&& final(self).content() == before.seek_ticked(seek@).0
                &&& match outcome {
                    Ok(effect) => before.seek_ticked(seek@).1 == Ok::<PlaybackEffect, Seq<char>>(
                        effect,
                    ),
                    Err(error) => before.seek_ticked(seek@).1 == Err::<PlaybackEffect, Seq<char>>(
                        error@,
                    ),
                }
            }),
    {
        let target: ArrivalTime = seek.target;
        let loaded: Vec<RawMessage> = match self.restore.poll() {
            None => {
                self.load_state = PlaybackLoadState::Seeking { target };
                self.pending_seek = Some(seek);
                return Ok(PlaybackEffect::Nothing);
            },
            Some(Err(error)) => {
                self.fail_seek(error.message());
                return Err(error);
            },
            Some(Ok(loaded)) => loaded,
        };
        let ghost all = raw::contents(loaded@);
        let ghost earlier = old(self).content().archive;
        let mut fresh_archive: Option<Vec<RawMessage>> = None;
        let mut messages: Vec<RawMessage> = loaded;
        if seek.bootstraps_persistent {
            let (archive, fresh) = seek.split(messages);
            fresh_archive = Some(archive);
            messages = fresh;
        }
        match &fresh_archive {
            Some(archive) => {
                seek.push_archived(&mut messages, archive);
            },
            None => {
                if let Some(archive) = &self.persistent_archive {
                    seek.push_archived(&mut messages, archive);
                } else {
                    assert(raw::contents(messages@) + Seq::<RawContent>::empty()
                        =~= raw::contents(messages@));
                }
            },
        }
        let sorted: Vec<RawMessage> = sort_by_time(messages);
        assert(raw::contents(sorted@) == seek@.restored(earlier, all));
        let candidate: FeatureRuntime = match self.runtime.stage_restore(
            target,
            sorted.as_slice(),
        ) {
            Ok(candidate) => candidate,
            Err(error) => {
                self.fail_seek(error.message());
                return Err(WebPlaybackError::new(error.message()));
            },
        };
        if let Err(error) = self.data.begin_seek(target) {
            return Err(WebPlaybackError::new(error.message()));
        }
        self.runtime.commit_restore(candidate);
        if seek.bootstraps_persistent {
            self.persistent_archive = fresh_archive;
        }
        self.clock.seek(target);
        self.pending_seek = None;
        self.buffer_underrun_active = false;
        self.load_state = PlaybackLoadState::Ready;
        if self.clock.is_playing() {
            if let Err(error) = self.data.ensure_available_through(
                target,
                target,
                self.clock.speed(),
                FetchIntent::PlaybackAhead,
            ) {
                return Err(WebPlaybackError::new(error.message()));
            }
        }
        Ok(PlaybackEffect::Seeked)
    }

    /// Offers the cursor a place, and says whether it took it.
    pub fn commit_candidate(&mut self, elapsed: Duration, requested: ArrivalTime) -> (taken: bool)
        requires
            old(self).well_formed(),
        ensures
            final(self).well_formed(),
            taken == old(self).content().data.store.complete_through(
                requested,
                old(self).content().data.end_exclusive,
            ),
            final(self).content() == old(self).content().offered(
                clock::duration_nanos(elapsed),
                requested,
            ),
    {
        self.commit_candidate_nanos(nanos(elapsed), requested)
    }

    fn commit_candidate_nanos(&mut self, step: u128, requested: ArrivalTime) -> (taken: bool)
        requires
            old(self).well_formed(),
        ensures
            final(self).well_formed(),
            taken == old(self).content().data.store.complete_through(
                requested,
                old(self).content().data.end_exclusive,
            ),
            final(self).content() == old(self).content().offered(step, requested),
    {
        if !self.data.is_complete_through(requested) {
            let is_underrun: bool = self.clock.is_playing() && requested.0
                > self.clock.cursor().0;
            if is_underrun && !self.buffer_underrun_active {
                self.data.note_buffer_underrun();
            }
            self.buffer_underrun_active = is_underrun;
            self.load_state = PlaybackLoadState::Buffering {
                requested,
                committed: self.clock.cursor(),
            };
            return false;
        }
        let messages: Vec<RawMessage> = self.data.messages_through(self.clock.cursor(), requested);
        self.runtime.process_nanos(step, messages.as_slice());
        self.clock.commit_cursor(requested);
        self.buffer_underrun_active = false;
        self.load_state = PlaybackLoadState::Ready;
        true
    }

    /// Does what the user asks for. A seek only starts here: it is done once a tick says so.
    pub fn apply_command(&mut self, command: PlaybackCommand) -> (outcome: Result<
        PlaybackEffect,
        WebPlaybackError,
    >)
        requires
            old(self).well_formed(),
        ensures
            final(self).well_formed(),
            match old(self).content().commanded(command) {
                Ok(after) => outcome == Ok::<PlaybackEffect, WebPlaybackError>(
                    PlaybackEffect::Nothing,
                ) && final(self).content() == after,
                Err(message) => outcome matches Err(error) && error@ == message && final(
                    self
                ).content() == old(self).content(),
            },
    {
        match command {
            PlaybackCommand::Toggle => {
                self.clock.toggle();
                Ok(PlaybackEffect::Nothing)
            },
            PlaybackCommand::SetSpeed(speed) => {
                self.clock.set_speed(speed);
                Ok(PlaybackEffect::Nothing)
            },
            PlaybackCommand::Seek(cursor) => {
                let target: ArrivalTime = if cursor.0 < self.clock.start().0 {
                    self.clock.start()
                } else if cursor.0 > self.clock.end().0 {
                    self.clock.end()
                } else {
                    cursor
                };
                self.seek_to(target)
            },
        }
    }

    fn seek_to(&mut self, target: ArrivalTime) -> (outcome: Result<
        PlaybackEffect,
        WebPlaybackError,
    >)
        requires
            old(self).well_formed(),
            old(self).content().clock.start.0 <= target.0 <= old(self).content().clock.end.0,
        ensures
            final(self).well_formed(),
            match old(self).content().commanded(PlaybackCommand::Seek(target)) {
                Ok(after) => outcome == Ok::<PlaybackEffect, WebPlaybackError>(
                    PlaybackEffect::Nothing,
                ) && final(self).content() == after,
                Err(message) => outcome matches Err(error) && error@ == message && final(
                    self
                ).content() == old(self).content(),
            },
    {
        if let Some(seek) = &self.pending_seek {
            if seek.target == target {
                return Ok(PlaybackEffect::Nothing);
            }
        }
        let planner = RestorePlanner::new(&self.catalog);
        let mut plan: RestorePlan = match planner.plan(target, self.restore_inputs.as_slice()) {
            Ok(plan) => plan,
            Err(error) => return Err(WebPlaybackError::new(error.message())),
        };
        let persistent_streams: Vec<StreamId> = copy_streams(plan.persistent.as_slice());
        let archived: bool = match &self.persistent_archive {
            Some(_) => true,
            None => false,
        };
        let bootstraps_persistent: bool = persistent_streams.len() > 0 && !archived;
        if !bootstraps_persistent {
            plan.persistent = Vec::new();
        }
        self.data.cancel_pending();
        self.restore.request(plan);
        self.pending_seek =
        Some(PendingSeek { target, persistent_streams, bootstraps_persistent });
        self.buffer_underrun_active = false;
        self.load_state = PlaybackLoadState::Seeking { target };
        Ok(PlaybackEffect::Nothing)
    }

    pub fn clock(&self) -> (clock: &PlaybackClock)
        requires
            self.well_formed(),
        ensures
            clock.well_formed(),
            clock.model() == self.content().clock,
    {
        &self.clock
    }

    pub fn cameras(&self) -> (cameras: &CameraController)
        requires
            self.well_formed(),
        ensures
            cameras.well_formed(),
            cameras.content() == self.content().runtime.cameras,
    {
        self.runtime.cameras()
    }

    pub fn path(&self) -> (path: &PathController)
        ensures
            path.content() == self.content().runtime.path,
    {
        self.runtime.path()
    }

    pub fn odometry(&self) -> (odometry: &OdometryController)
        ensures
            odometry.content() == self.content().runtime.odometry,
    {
        self.runtime.odometry()
    }

    pub fn transforms(&self) -> (transforms: &TransformController)
        requires
            self.well_formed(),
        ensures
            transforms.well_formed(),
            transforms.content() == self.content().runtime.transforms,
    {
        self.runtime.transforms()
    }

    pub fn runtime(&self) -> (runtime: &FeatureRuntime)
        requires
            self.well_formed(),
        ensures
            runtime.well_formed(),
            runtime.content() == self.content().runtime,
    {
        &self.runtime
    }

    pub fn set_focused_camera(&mut self, camera: Option<CameraId>)
        requires
            old(self).well_formed(),
        ensures
            final(self).well_formed(),
            final(self).content() == (WebContent {
                runtime: RuntimeContent {
                    cameras: CameraControllerContent {
                        schedule: old(self).content().runtime.cameras.schedule.focused_on(camera),
                        ..old(self).content().runtime.cameras
                    },
                    ..old(self).content().runtime
                },
                ..old(self).content()
            }),
    {
        self.runtime.set_scheduling_priority(camera);
    }

    pub fn counters(&self) -> (counters: ProcessingCounters)
        ensures
            counters == self.content().runtime.counters(),
    {
        self.runtime.counters()
    }

    pub fn load_state(&self) -> (state: PlaybackLoadState)
        ensures
            state_content(state) == self.content().load_state,
    {
        copy_state(&self.load_state)
    }

    pub open spec fn spec_source_label(source: LoadSource) -> Seq<char> {
        match source {
            LoadSource::LocalFile => "Browser file"@,
            LoadSource::Remote => "Recording Server"@,
        }
    }

    /// Where the recording comes from, for the user.
    pub fn source_label(&self) -> (label: &'static str)
        ensures
            label@ == Self::spec_source_label(self.content().data.loader.source),
    {
        match self.data.loader().source() {
            LoadSource::LocalFile => "Browser file",
            LoadSource::Remote => "Recording Server",
        }
    }

    /// How many messages of persistent streams are kept for later seeks.
    pub fn archived_count(&self) -> (count: Option<usize>)
        ensures
            match count {
                Some(count) => self.content().archive matches Some(archive) && archive.len()
                    == count,
                None => self.content().archive is None,
            },
    {
        match &self.persistent_archive {
            Some(archive) => Some(archive.len()),
            None => None,
        }
    }

    pub fn data_plane_diagnostics(&self) -> (report: RecordingDataPlaneDiagnostics)
        requires
            self.well_formed(),
        ensures
            report.content() == self.content().data.report(
                self.content().clock.cursor,
                self.content().clock.speed,
            ),
    {
        self.data.diagnostics(self.clock.cursor(), self.clock.speed())
    }

    /// The data, for the application to see what is requested.
    pub fn data(&self) -> (data: &RecordingDataPlane)
        requires
            self.well_formed(),
        ensures
            data.well_formed(),
            data.content() == self.content().data,
    {
        &self.data
    }

    /// Hands over what was loaded for a request.
    pub fn complete_load(&mut self, result: LoadResult)
        requires
            old(self).well_formed(),
        ensures
            final(self).well_formed(),
            final(self).content() == (WebContent {
                data: PlaneContent {
                    loader: LoaderContent {
                        inbox: old(self).content().data.loader.inbox.push(result),
                        ..old(self).content().data.loader
                    },
                    ..old(self).content().data
                },
                ..old(self).content()
            }),
    {
        self.data.loader_mut().complete(result.request, result.result);
    }

    /// The loader of restores, for the application to see what is requested.
    pub fn restore_loader(&self) -> (loader: &WebRestoreLoader)
        ensures
            loader.content() == self.content().restore,
    {
        &self.restore
    }

    /// Hands over what was read for a restore.
    pub fn complete_restore(&mut self, result: RestoreResult)
        requires
            old(self).well_formed(),
        ensures
            final(self).well_formed(),
            final(self).content() == (WebContent {
                restore: RestoreLoaderContent {
                    inbox: old(self).content().restore.inbox.push(result@),
                    ..old(self).content().restore
                },
                ..old(self).content()
            }),
    {
        self.restore.complete(result);
    }
}

/// A seek is all or nothing: unless it is done, the cursor, every feature, the loaded data and the
/// archive stay as they were.
pub proof fn law_seeks_are_transactional(playback: WebContent, seek: SeekContent)
    ensures
        playback.seek_ticked(seek).1 != Ok::<PlaybackEffect, Seq<char>>(PlaybackEffect::Seeked)
            ==> {
            let after = playback.seek_ticked(seek).0;
            &&& after.clock == playback.clock
            &&& after.runtime == playback.runtime
            &&& after.data == playback.data
            &&& after.archive == playback.archive
        },
{
}

/// A seek that is done leaves the cursor at its target.
pub proof fn law_a_finished_seek_reaches_its_target(playback: WebContent, seek: SeekContent)
    requires
        playback.clock.start.0 <= seek.target.0 <= playback.clock.end.0,
        playback.seek_ticked(seek).1 == Ok::<PlaybackEffect, Seq<char>>(PlaybackEffect::Seeked),
    ensures
        playback.seek_ticked(seek).0.clock.cursor == seek.target,
        playback.seek_ticked(seek).0.pending_seek is None,
        playback.seek_ticked(seek).0.load_state is Ready,
{
}

/// Only the messages of the latest seek count: what comes back for an earlier one is dropped.
pub proof fn law_earlier_restores_are_dropped(
    loader: RestoreLoaderContent,
    plan: RestoreContent,
)
    requires
        forall|i: int|
            0 <= i < loader.inbox.len() ==> (#[trigger] loader.inbox[i]).generation
                == loader.generation,
    ensures
        loader.requested(plan).polled() is None,
        loader.requested(plan).after_poll().pending == Some(plan),
        loader.requested(plan).after_poll().inbox.len() == 0,
{
    lemma_none_awaited(loader.requested(plan));
}

proof fn lemma_none_awaited(loader: RestoreLoaderContent)
    requires
        forall|i: int|
            0 <= i < loader.inbox.len() ==> (#[trigger] loader.inbox[i]).generation
                != loader.generation,
    ensures
        loader.polled() is None,
        loader.after_poll() == (RestoreLoaderContent { inbox: Seq::empty(), ..loader }),
    decreases loader.inbox.len(),
{
    if loader.inbox.len() > 0 {
        assert(loader.inbox[0].generation != loader.generation);
        let rest = RestoreLoaderContent { inbox: loader.inbox.drop_first(), ..loader };
        assert forall|i: int| 0 <= i < rest.inbox.len() implies (
        #[trigger] rest.inbox[i]).generation != rest.generation by {
            assert(rest.inbox[i] == loader.inbox[i + 1]);
            assert(loader.inbox[i + 1].generation != loader.generation);
        }
        lemma_none_awaited(rest);
    } else {
        assert(loader.inbox =~= Seq::empty());
    }
}

/// However often playback finds its data incomplete in a row, it counts one underrun; and a paused
/// one counts none.
pub proof fn law_one_wait_is_one_underrun(
    playback: WebContent,
    step: u128,
    requested: ArrivalTime,
    again: u128,
)
    requires
        !playback.data.store.complete_through(requested, playback.data.end_exclusive),
    ensures
        ({
            let first = playback.offered(step, requested);
            let second = first.offered(again, requested);
            &&& second.data.buffer_underrun_count == first.data.buffer_underrun_count
            &&& !playback.clock.playing ==> first.data.buffer_underrun_count
                == playback.data.buffer_underrun_count
        }),
{
}

/// While data is missing, the cursor and every feature stay as they are.
pub proof fn law_waiting_shows_nothing_new(
    playback: WebContent,
    step: u128,
    requested: ArrivalTime,
)
    requires
        !playback.data.store.complete_through(requested, playback.data.end_exclusive),
    ensures
        playback.offered(step, requested).clock == playback.clock,
        playback.offered(step, requested).runtime == playback.runtime,
        playback.offered(step, requested).load_state == (LoadStateContent::Buffering {
            requested,
            committed: playback.clock.cursor,
        }),
{
}

/// A seek that is asked for shows nothing new yet, and the load under way is forgotten.
pub proof fn law_a_new_seek_keeps_what_is_shown(playback: WebContent, cursor: ArrivalTime)
    ensures
        playback.commanded(PlaybackCommand::Seek(cursor)) matches Ok(after) ==> {
            &&& after.clock == playback.clock
            &&& after.runtime == playback.runtime
            &&& after.archive == playback.archive
        },
{
}

/// A command changes what it names and nothing else of the clock: the button starts and stops it, the
/// speed is the one that was chosen, and a seek leaves the cursor where it is until it is done.
#[verifier::rlimit(60)]
pub proof fn law_commands_do_what_they_name(
    playback: WebContent,
    speed: PlaybackSpeed,
    cursor: ArrivalTime,
)
    ensures
        playback.commanded(PlaybackCommand::Toggle) matches Ok(after) ==> after.clock.playing
            == !playback.clock.playing && after.clock.cursor == playback.clock.cursor
            && after.clock.speed == playback.clock.speed && after.runtime == playback.runtime,
        playback.commanded(PlaybackCommand::SetSpeed(speed)) matches Ok(after) ==> after.clock.speed
            == speed && after.clock.cursor == playback.clock.cursor && after.clock.playing
            == playback.clock.playing && after.runtime == playback.runtime,
        playback.commanded(PlaybackCommand::Seek(cursor)) matches Ok(after) ==> after.clock
            == playback.clock && after.runtime == playback.runtime,
        playback.commanded(PlaybackCommand::Toggle) is Ok,
        playback.commanded(PlaybackCommand::SetSpeed(speed)) is Ok,
{
}

/// What a seek restores is what was loaded for it and, of what is kept of persistent streams, what had
/// arrived by its target; nothing of them that came later.
#[verifier::rlimit(60)]
pub proof fn law_seeks_restore_what_had_arrived(
    seek: SeekContent,
    earlier: Seq<RawContent>,
    loaded: Seq<RawContent>,
    message: RawContent,
)
    requires
        !seek.bootstraps_persistent,
    ensures
        seek.restored(Some(earlier), loaded).contains(message) <==> loaded.contains(message) || (
        earlier.contains(message) && seek.persistent_streams.contains(message.stream_id)
            && message.arrival_time.0 <= seek.target.0),
        raw::ordered(seek.restored(Some(earlier), loaded)),
{
    let keep = |one: RawContent| seek.persistent(one) && one.arrival_time.0 <= seek.target.0;
    let kept = earlier.filter(keep);
    let all = loaded + kept;
    raw::law_sorting_is_stable(all);
    let sorted = raw::time_sorted(all);
    all.to_multiset_ensures();
    sorted.to_multiset_ensures();
    assert(sorted.contains(message) <==> all.contains(message)) by {
        assert(sorted.contains(message) <==> sorted.to_multiset().count(message) > 0);
        assert(all.contains(message) <==> all.to_multiset().count(message) > 0);
    }
    if all.contains(message) {
        let i = choose|i: int| 0 <= i < all.len() && all[i] == message;
        if i < loaded.len() {
            assert(loaded[i] == message);
        } else {
            let k = i - loaded.len();
            assert(kept[k] == message);
            earlier.lemma_filter_pred(keep, k);
            earlier.lemma_filter_contains_rev(keep, message);
        }
    }
    if loaded.contains(message) {
        let i = choose|i: int| 0 <= i < loaded.len() && loaded[i] == message;
        assert(all[i] == message);
    }
    if earlier.contains(message) && keep(message) {
        let i = choose|i: int| 0 <= i < earlier.len() && earlier[i] == message;
        earlier.lemma_filter_contains(keep, i);
        let k = choose|k: int| 0 <= k < kept.len() && kept[k] == message;
        assert(all[loaded.len() + k] == message);
    }
}

/// Time that passes moves the cursor to where the clock says, or leaves it where it is while playback
/// waits for data.
#[verifier::rlimit(60)]
pub proof fn law_ticks_move_the_cursor_or_wait(playback: WebContent, step: u128)
    requires
        clock::in_bounds(playback.clock),
    ensures
        playback.ticked(step) matches Ok(after) ==> {
            let reached = clock::cursor_reached(playback.clock, step as nat);
            &&& after.clock.cursor == reached || after.clock.cursor == playback.clock.cursor
            &&& after.load_state is Ready ==> after.clock.cursor == reached
            &&& after.load_state is Ready || after.load_state is Buffering
            &&& after.clock.speed == playback.clock.speed
        },
{
    clock::law_advance_is_bounded(playback.clock, step as nat);
}

} // verus!

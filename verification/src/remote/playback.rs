//! Playback of a recording that a server holds, at its own speed and without seeks.

use crate::feature::camera::CameraId;
use crate::feature::domain::{DomainState, PipelineCounters};
use crate::feature::domain_runtime::{DomainRuntime, DomainRuntimeContent};
use crate::message::time::{self, ArrivalTime};
use crate::playback::clock::{
    self, nanos, PlaybackClock, PlaybackCommand, PlaybackLoadState, PlaybackSpeed, PlaybackView,
};
use crate::playback::web_playback::{self, copy_state, LoadStateContent, PlaybackEffect};
use crate::playback::window_loader;
use crate::recording::raw::RawMessage;
use crate::recording::requirements::{
    self, PlaybackRequirements, SessionPlanError, WorkspaceBindings,
};
use crate::recording::session;
use crate::remote::catalog::RemoteCatalog;
use crate::remote::source::{
    self, FetchResult, FetchWindow, RemoteBatchSource, RemoteSourceMetrics, SourceContent,
    PREFETCH_NANOS,
};
use std::time::Duration;
use vstd::prelude::*;
use vstd::string::*;

verus! {

/// Why playback failed, in words.
#[derive(Debug, Eq, PartialEq)]
pub struct RemotePlaybackError(String);

impl View for RemotePlaybackError {
    type V = Seq<char>;

    closed spec fn view(&self) -> Seq<char> {
        self.0@
    }
}

impl RemotePlaybackError {
    pub fn new(message: String) -> (error: Self)
        ensures
            error@ == message@,
    {
        RemotePlaybackError(message)
    }

    /// The words of the error.
    pub fn message(&self) -> (message: String)
        ensures
            message@ == self@,
    {
        self.0.as_str().to_owned()
    }
}

/// What a playback holds.
pub struct RemoteContent {
    pub clock: PlaybackView,
    pub core: DomainRuntimeContent,
    pub source: SourceContent,
    pub load_state: LoadStateContent,
}

impl RemoteContent {
    /// The playback once a time was offered to be shown. Where messages up to it are missing, it
    /// waits, and nothing that is shown changes.
    pub open spec fn offered(self, step: u128, requested: ArrivalTime) -> Self {
        if !self.source.complete_through(requested) {
            RemoteContent {
                source: if self.load_state is Buffering {
                    self.source
                } else {
                    SourceContent {
                        metrics: RemoteSourceMetrics {
                            buffering_count: window_loader::grown(
                                self.source.metrics.buffering_count,
                                1,
                            ),
                            ..self.source.metrics
                        },
                        ..self.source
                    }
                },
                load_state: LoadStateContent::Buffering {
                    requested,
                    committed: self.clock.cursor,
                },
                ..self
            }
        } else {
            RemoteContent {
                source: self.source.drained(requested),
                core: self.core.processed(
                    step,
                    self.source.ready.take(source::arrived(self.source.ready, requested)),
                ),
                clock: clock::committed(self.clock, requested),
                load_state: LoadStateContent::Ready,
            }
        }
    }

    /// The playback once the messages up to a time were asked for, if they are to be.
    pub open spec fn asked(self, target: ArrivalTime) -> Self {
        if self.source.wants(target) {
            RemoteContent { source: self.source.requested(), ..self }
        } else {
            self
        }
    }

    /// The window that is asked for then, if one is.
    pub open spec fn asks(self, target: ArrivalTime) -> Option<FetchWindow> {
        if self.source.wants(target) {
            Some(self.source.next_window())
        } else {
            None
        }
    }

    /// The time up to which messages are fetched ahead of another.
    pub open spec fn prefetch(self, requested: ArrivalTime) -> ArrivalTime {
        let ahead = time::saturated(requested.0 + PREFETCH_NANOS);
        if ahead < self.clock.end.0 {
            ArrivalTime(ahead)
        } else {
            self.clock.end
        }
    }

    /// The playback once time passed, and the window to fetch, if one is to be fetched.
    pub open spec fn advanced(self, step: u128) -> (Self, Option<FetchWindow>) {
        let requested = clock::cursor_reached(self.clock, step as nat);
        let asked = self.asked(requested);
        let shown = asked.offered(step, requested);
        let first = self.asks(requested);
        if asked.source.complete_through(requested) {
            let ahead = shown.prefetch(requested);
            (
                shown.asked(ahead),
                if first is Some {
                    first
                } else {
                    shown.asks(ahead)
                },
            )
        } else {
            (shown, first)
        }
    }

    /// The same once the results that came in were looked at. A failed one stops playback.
    pub open spec fn ticked(self, step: u128) -> (Self, Result<Option<FetchWindow>, Seq<char>>) {
        let (source, outcome) = self.source.polled(false);
        let polled = RemoteContent { source, ..self };
        match outcome {
            Err(message) => (
                RemoteContent { load_state: LoadStateContent::Failed { message }, ..polled },
                Err(message),
            ),
            Ok(_) => (polled.advanced(step).0, Ok(polled.advanced(step).1)),
        }
    }
}

/// Playback of a recording that a server holds.
pub struct RemotePlayback {
    clock: PlaybackClock,
    core: DomainRuntime,
    source: RemoteBatchSource,
    load_state: PlaybackLoadState,
}

impl RemotePlayback {
    pub closed spec fn content(&self) -> RemoteContent {
        RemoteContent {
            clock: self.clock.model(),
            core: self.core.content(),
            source: self.source.content(),
            load_state: web_playback::state_content(self.load_state),
        }
    }

    pub closed spec fn well_formed(&self) -> bool {
        self.clock.well_formed() && self.core.well_formed() && self.source.well_formed()
    }

    /// A playback that stands at the start of a recording.
    pub fn new(catalog: &RemoteCatalog, needs: &PlaybackRequirements, bindings: &WorkspaceBindings)
        -> (outcome: Result<Self, RemotePlaybackError>)
        ensures
            ({
                let lack = requirements::lack(catalog.core.content(), *needs, bindings@);
                match outcome {
                    Ok(playback) => {
                        let routes = requirements::session_routes(
                            catalog.core.content(),
                            *needs,
                            bindings@,
                        );
                        &&& playback.well_formed()
                        &&& lack is None
                        &&& catalog.selected_streams@.len() > 0
                        &&& catalog.start.0 < catalog.end_exclusive.0
                        &&& playback.content() == (RemoteContent {
                            clock: PlaybackView {
                                start: catalog.start,
                                end: if catalog.end.0 < catalog.start.0 {
                                    catalog.start
                                } else {
                                    catalog.end
                                },
                                cursor: catalog.start,
                                playing: false,
                                speed: PlaybackSpeed::Normal,
                            },
                            core: DomainRuntimeContent::fresh(
                                routes,
                                requirements::primary_of(routes, catalog.primary_camera_topic@),
                            ),
                            source: SourceContent::fresh(catalog.start, catalog.end_exclusive),
                            load_state: LoadStateContent::Ready,
                        })
                    },
                    Err(error) => match lack {
                        Some(fault) => error@ == SessionPlanError::spec_message(fault),
                        None => if catalog.selected_streams@.len() == 0 {
                            error@ == "remote stream selection is empty"@
                        } else {
                            catalog.start.0 >= catalog.end_exclusive.0 && error@
                                == "remote source range is empty"@
                        },
                    },
                }
            }),
    {
        let core: DomainRuntime = match DomainRuntime::from_catalog(
            &catalog.core,
            catalog.primary_camera_topic.as_str(),
            needs,
            bindings,
        ) {
            Ok(core) => core,
            Err(error) => return Err(RemotePlaybackError::new(error.message())),
        };
        let source: RemoteBatchSource = match RemoteBatchSource::new(
            &catalog.selected_streams,
            catalog.start,
            catalog.end_exclusive,
        ) {
            Ok(source) => source,
            Err(error) => return Err(RemotePlaybackError::new(error.message())),
        };
        Ok(
            RemotePlayback {
                clock: PlaybackClock::new(catalog.start, catalog.end),
                core,
                source,
                load_state: PlaybackLoadState::Ready,
            },
        )
    }

    /// Lets time pass. The window to fetch comes back, if one is to be fetched.
    pub fn tick(&mut self, elapsed: Duration) -> (outcome: Result<
        Option<FetchWindow>,
        RemotePlaybackError,
    >)
        requires
            old(self).well_formed(),
        ensures
            final(self).well_formed(),
            final(self).content() == old(self).content().ticked(clock::duration_nanos(elapsed)).0,
            match outcome {
                Ok(window) => old(self).content().ticked(clock::duration_nanos(elapsed)).1 == Ok::<
                    Option<FetchWindow>,
                    Seq<char>,
                >(window),
                Err(error) => old(self).content().ticked(clock::duration_nanos(elapsed)).1 == Err::<
                    Option<FetchWindow>,
                    Seq<char>,
                >(error@),
            },
    {
        self.tick_nanos(nanos(elapsed))
    }

    /// Lets so many nanoseconds pass. The window to fetch comes back, if one is to be fetched.
    pub fn tick_nanos(&mut self, step: u128) -> (outcome: Result<
        Option<FetchWindow>,
        RemotePlaybackError,
    >)
        requires
            old(self).well_formed(),
        ensures
            final(self).well_formed(),
            final(self).content() == old(self).content().ticked(step).0,
            match outcome {
                Ok(window) => old(self).content().ticked(step).1 == Ok::<
                    Option<FetchWindow>,
                    Seq<char>,
                >(window),
                Err(error) => old(self).content().ticked(step).1 == Err::<
                    Option<FetchWindow>,
                    Seq<char>,
                >(error@),
            },
    {
        if let Err(error) = self.poll_completed_fetch() {
            self.load_state = PlaybackLoadState::Failed { message: error.message() };
            return Err(error);
        }
        Ok(self.advance(step))
    }

    fn advance(&mut self, step: u128) -> (window: Option<FetchWindow>)
        requires
            old(self).well_formed(),
        ensures
            final(self).well_formed(),
            (final(self).content(), window) == old(self).content().advanced(step),
    {
        let requested: ArrivalTime = self.clock.cursor_after_nanos(step);
        let window: Option<FetchWindow> = self.request_through(requested);
        if !self.commit_nanos(step, requested) {
            return window;
        }
        let end: i64 = self.clock.end().0;
        let ahead: i64 = time::saturating_sum(requested.0, PREFETCH_NANOS);
        let prefetch: ArrivalTime = if ahead < end {
            ArrivalTime(ahead)
        } else {
            ArrivalTime(end)
        };
        let further: Option<FetchWindow> = self.request_through(prefetch);
        match window {
            Some(window) => Some(window),
            None => further,
        }
    }

    /// Shows the time `requested` after `elapsed`, where the messages up to it are there.
    pub fn commit_candidate(&mut self, elapsed: Duration, requested: ArrivalTime) -> (shown: bool)
        requires
            old(self).well_formed(),
        ensures
            final(self).well_formed(),
            final(self).content() == old(self).content().offered(
                clock::duration_nanos(elapsed),
                requested,
            ),
            shown == old(self).content().source.complete_through(requested),
    {
        self.commit_nanos(nanos(elapsed), requested)
    }

    fn commit_nanos(&mut self, step: u128, requested: ArrivalTime) -> (shown: bool)
        requires
            old(self).well_formed(),
        ensures
            final(self).well_formed(),
            final(self).content() == old(self).content().offered(step, requested),
            shown == old(self).content().source.complete_through(requested),
    {
        if !self.source.is_complete_through(requested) {
            let waiting: bool = match &self.load_state {
                PlaybackLoadState::Buffering { requested: _, committed: _ } => true,
                _ => false,
            };
            if !waiting {
                self.source.note_buffering();
            }
            self.load_state = PlaybackLoadState::Buffering {
                requested,
                committed: self.clock.cursor(),
            };
            return false;
        }
        let messages: Vec<RawMessage> = self.source.drain_through(requested);
        self.core.process_nanos(step, messages.as_slice());
        self.clock.commit_cursor(requested);
        self.load_state = PlaybackLoadState::Ready;
        true
    }

    /// Takes what came of a request for a window.
    pub fn complete_fetch(&mut self, result: FetchResult)
        requires
            old(self).well_formed(),
        ensures
            final(self).well_formed(),
            final(self).content() == (RemoteContent {
                source: SourceContent {
                    inbox: old(self).content().source.inbox.push(result@),
                    ..old(self).content().source
                },
                ..old(self).content()
            }),
    {
        self.source.complete(result);
    }

    /// Looks at what came of the requests. Whether messages came comes back.
    pub fn poll_completed_fetch(&mut self) -> (outcome: Result<bool, RemotePlaybackError>)
        requires
            old(self).well_formed(),
        ensures
            final(self).well_formed(),
            final(self).content() == (RemoteContent {
                source: old(self).content().source.polled(false).0,
                ..old(self).content()
            }),
            match outcome {
                Ok(changed) => old(self).content().source.polled(false).1 == Ok::<bool, Seq<char>>(
                    changed,
                ),
                Err(error) => old(self).content().source.polled(false).1 == Err::<bool, Seq<char>>(
                    error@,
                ),
            },
    {
        match self.source.poll_completed_fetch() {
            Ok(changed) => Ok(changed),
            Err(error) => Err(RemotePlaybackError::new(error.message())),
        }
    }

    /// Names the window to fetch so that the messages up to a time will be there.
    pub fn request_through(&mut self, target: ArrivalTime) -> (window: Option<FetchWindow>)
        requires
            old(self).well_formed(),
        ensures
            final(self).well_formed(),
            final(self).content() == old(self).content().asked(target),
            window == old(self).content().asks(target),
    {
        self.source.ensure_available_through(target)
    }

    pub fn apply_command(&mut self, command: PlaybackCommand) -> (outcome: Result<
        PlaybackEffect,
        RemotePlaybackError,
    >)
        requires
            old(self).well_formed(),
        ensures
            final(self).well_formed(),
            match command {
                PlaybackCommand::Toggle => {
                    &&& outcome matches Ok(effect) && effect is Nothing
                    &&& final(self).content() == (RemoteContent {
                        clock: PlaybackView {
                            playing: !old(self).content().clock.playing,
                            ..old(self).content().clock
                        },
                        ..old(self).content()
                    })
                },
                PlaybackCommand::SetSpeed(speed) => if speed is Normal {
                    &&& outcome matches Ok(effect) && effect is Nothing
                    &&& final(self).content() == (RemoteContent {
                        clock: PlaybackView { speed, ..old(self).content().clock },
                        ..old(self).content()
                    })
                } else {
                    &&& outcome matches Err(error) && error@
                        == "Remote playback currently supports 1x speed only"@
                    &&& final(self).content() == old(self).content()
                },
                PlaybackCommand::Seek(_) => {
                    &&& outcome matches Err(error) && error@
                        == "Remote exact seek is not implemented yet"@
                    &&& final(self).content() == old(self).content()
                },
            },
    {
        match command {
            PlaybackCommand::Toggle => {
                self.clock.toggle();
                Ok(PlaybackEffect::Nothing)
            },
            PlaybackCommand::SetSpeed(PlaybackSpeed::Normal) => {
                self.clock.set_speed(PlaybackSpeed::Normal);
                Ok(PlaybackEffect::Nothing)
            },
            PlaybackCommand::SetSpeed(_) => Err(
                RemotePlaybackError::new(
                    "Remote playback currently supports 1x speed only".to_owned(),
                ),
            ),
            PlaybackCommand::Seek(_) => Err(
                RemotePlaybackError::new("Remote exact seek is not implemented yet".to_owned()),
            ),
        }
    }

    pub fn clock(&self) -> (clock: &PlaybackClock)
        requires
            self.well_formed(),
        ensures
            clock.well_formed(),
            clock.model() == self.content().clock,
    {
        &self.clock
    }

    pub fn state(&self) -> (state: &DomainState)
        requires
            self.well_formed(),
        ensures
            state.well_formed(),
            state.content() == self.content().core.state,
    {
        self.core.state()
    }

    pub fn camera_topics(&self) -> (topics: &[(CameraId, String)])
        ensures
            session::topic_contents(topics@) == self.content().core.topics,
    {
        self.core.camera_topics()
    }

    pub fn set_focused_camera(&mut self, camera: Option<CameraId>)
        requires
            old(self).well_formed(),
        ensures
            final(self).well_formed(),
            final(self).content() == (RemoteContent {
                core: DomainRuntimeContent {
                    schedule: old(self).content().core.schedule.focused_on(camera),
                    ..old(self).content().core
                },
                ..old(self).content()
            }),
    {
        self.core.set_focused_camera(camera);
    }

    pub fn counters(&self) -> (counters: PipelineCounters)
        ensures
            counters == self.content().core.counters(),
    {
        self.core.counters()
    }

    pub fn load_state(&self) -> (state: PlaybackLoadState)
        ensures
            web_playback::state_content(state) == self.content().load_state,
    {
        copy_state(&self.load_state)
    }

    pub fn metrics(&self) -> (metrics: &RemoteSourceMetrics)
        ensures
            *metrics == self.content().source.metrics,
    {
        self.source.metrics()
    }

    /// How many nanoseconds ahead of the cursor are complete.
    pub fn buffer_ahead(&self) -> (nanos: u64)
        ensures
            ({
                let ahead = time::saturated(
                    self.content().source.complete_until.0 - self.content().clock.cursor.0,
                );
                nanos == (if ahead > 0 {
                    ahead as int
                } else {
                    0
                })
            }),
    {
        let ahead: i64 = time::saturating_difference(
            self.source.complete_until().0,
            self.clock.cursor().0,
        );
        if ahead > 0 {
            ahead as u64
        } else {
            0
        }
    }
}

/// While messages are missing, the cursor and everything that is shown stay as they are.
pub proof fn law_waiting_keeps_what_is_shown(
    playback: RemoteContent,
    step: u128,
    requested: ArrivalTime,
)
    requires
        !playback.source.complete_through(requested),
    ensures
        playback.offered(step, requested).clock == playback.clock,
        playback.offered(step, requested).core == playback.core,
        playback.offered(step, requested).source.ready == playback.source.ready,
        playback.offered(step, requested).load_state is Buffering,
{
}

/// However long playback waits, it counts as one wait.
pub proof fn law_one_wait_counts_once(
    playback: RemoteContent,
    first: u128,
    second: u128,
    requested: ArrivalTime,
    later: ArrivalTime,
)
    requires
        !playback.source.complete_through(requested),
        !playback.source.complete_through(later),
    ensures
        ({
            let once = playback.offered(first, requested);
            once.offered(second, later).source.metrics.buffering_count
                == once.source.metrics.buffering_count
        }),
{
}

/// Messages are fetched up to two seconds ahead of what is shown, and not beyond the end.
pub proof fn law_messages_are_fetched_two_seconds_ahead(
    playback: RemoteContent,
    requested: ArrivalTime,
)
    requires
        requested.0 <= playback.clock.end.0,
    ensures
        playback.prefetch(requested).0 == if requested.0 + 2_000_000_000 < playback.clock.end.0 {
            requested.0 + 2_000_000_000
        } else {
            playback.clock.end.0 as int
        },
{
}

/// Where the messages up to a time are there, what had arrived by it is shown, leaves what waits, and
/// the cursor moves there.
pub proof fn law_complete_times_are_shown(
    playback: RemoteContent,
    step: u128,
    requested: ArrivalTime,
)
    requires
        playback.source.complete_through(requested),
        playback.clock.start.0 <= requested.0 <= playback.clock.end.0,
    ensures
        ({
            let after = playback.offered(step, requested);
            let count = source::arrived(playback.source.ready, requested);
            &&& after.clock.cursor == requested
            &&& after.source.ready == playback.source.ready.skip(count)
            &&& after.core == playback.core.processed(step, playback.source.ready.take(count))
            &&& after.load_state is Ready
        }),
{
}

} // verus!

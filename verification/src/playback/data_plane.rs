//! The data of a recording as playback needs it: windows that are planned, loaded, kept within a
//! budget, and handed out message by message.

use crate::message::text::{self, push_signed};
use crate::message::time::{self, saturating_difference, ArrivalTime};
use crate::playback::clock::{self, PlaybackSpeed};
use crate::playback::data_window::{
    self, duration_ns, DataWindowError, MemoryWindowStore, StoreContent, TimeRange,
};
use crate::playback::window_loader::{
    self, LoadedWindow, LoaderContent, WindowLoader, WindowLoaderMetrics,
};
use crate::recording::raw::{self, RawContent, RawMessage};
use std::time::Duration;
use vstd::prelude::*;
use vstd::string::*;

verus! {

/// One second, in nanoseconds.
const DEFAULT_WINDOW_NS: i64 = 1_000_000_000;

/// Two seconds, in nanoseconds.
const DEFAULT_TARGET_AHEAD_NS: i64 = 2_000_000_000;

const DEFAULT_RESIDENT_BYTES: usize = 268_435_456;

/// Why data is wanted.
#[derive(Clone, Copy, Debug, Eq, PartialEq, Structural)]
pub enum FetchIntent {
    /// Only what is needed to show the required time.
    RequiredOnly,
    /// As far ahead of the cursor as the profile says.
    PlaybackAhead,
}

/// How much to fetch at once, how far ahead, and how much may stay resident.
#[derive(Clone, Copy, Debug, Eq, PartialEq, Structural)]
pub struct FetchProfile {
    window_ns: i64,
    target_ahead_ns: i64,
    max_resident_bytes: usize,
}

/// A profile in numbers.
pub struct ProfileContent {
    pub window_ns: int,
    pub target_ahead_ns: int,
    pub max_resident_bytes: nat,
}

impl ProfileContent {
    /// Windows of a second, two seconds ahead.
    pub open spec fn usual() -> Self {
        ProfileContent {
            window_ns: 1_000_000_000,
            target_ahead_ns: 2_000_000_000,
            max_resident_bytes: 268_435_456,
        }
    }

    /// A profile that can be used.
    pub open spec fn valid(self) -> bool {
        &&& 0 < self.window_ns <= i64::MAX
        &&& 0 < self.target_ahead_ns <= i64::MAX
        &&& 0 < self.max_resident_bytes <= usize::MAX
    }

    /// How far ahead of the cursor data is wanted at a speed: in proportion to the speed.
    pub open spec fn target_ahead(self, speed: PlaybackSpeed) -> int {
        let scaled = self.target_ahead_ns * speed.quarters() / 4;
        if scaled > i64::MAX {
            i64::MAX as int
        } else {
            scaled
        }
    }

    /// The next window to fetch, if one is wanted: it starts where the data ends.
    pub open spec fn wanted(self, demand: WindowDemand) -> Option<TimeRange> {
        let from = demand.complete_until.0;
        let required = demand.required_through.0 >= from;
        let ahead = demand.intent is PlaybackAhead && from - demand.cursor.0 < self.target_ahead(
            demand.playback_speed,
        );
        if from < demand.end_exclusive.0 && (required || ahead) {
            Some(
                TimeRange {
                    start: demand.complete_until,
                    end_exclusive: if from + self.window_ns < demand.end_exclusive.0 {
                        ArrivalTime((from + self.window_ns) as i64)
                    } else {
                        demand.end_exclusive
                    },
                },
            )
        } else {
            None
        }
    }
}

/// Where playback stands, what it needs, and how far its data is complete.
#[derive(Clone, Copy, Debug, Eq, PartialEq, Structural)]
pub struct WindowDemand {
    pub cursor: ArrivalTime,
    pub required_through: ArrivalTime,
    pub complete_until: ArrivalTime,
    pub end_exclusive: ArrivalTime,
    pub playback_speed: PlaybackSpeed,
    pub intent: FetchIntent,
}

impl FetchProfile {
    pub closed spec fn content(&self) -> ProfileContent {
        ProfileContent {
            window_ns: self.window_ns as int,
            target_ahead_ns: self.target_ahead_ns as int,
            max_resident_bytes: self.max_resident_bytes as nat,
        }
    }

    pub fn new(window: Duration, target_ahead: Duration, max_resident_bytes: usize) -> (outcome:
        Result<Self, DataWindowError>)
        ensures
            match outcome {
                Ok(profile) => profile.content().valid() && profile.content() == (ProfileContent {
                    window_ns: data_window::spec_duration_ns(window),
                    target_ahead_ns: data_window::spec_duration_ns(target_ahead),
                    max_resident_bytes: max_resident_bytes as nat,
                }),
                Err(error) => if clock::duration_nanos(window) == 0 {
                    error == DataWindowError::EmptyWindowSize
                } else if clock::duration_nanos(target_ahead) == 0 {
                    error == DataWindowError::EmptyTargetAhead
                } else {
                    max_resident_bytes == 0 && error == DataWindowError::EmptyBudget
                },
            },
    {
        let window_ns: i64 = duration_ns(window);
        let target_ahead_ns: i64 = duration_ns(target_ahead);
        if window_ns == 0 {
            return Err(DataWindowError::EmptyWindowSize);
        }
        if target_ahead_ns == 0 {
            return Err(DataWindowError::EmptyTargetAhead);
        }
        if max_resident_bytes == 0 {
            return Err(DataWindowError::EmptyBudget);
        }
        Ok(FetchProfile { window_ns, target_ahead_ns, max_resident_bytes })
    }

    pub fn max_resident_bytes(&self) -> (count: usize)
        ensures
            count == self.content().max_resident_bytes,
    {
        self.max_resident_bytes
    }

    /// How many nanoseconds ahead of the cursor data is wanted at a speed.
    pub fn target_ahead(&self, speed: PlaybackSpeed) -> (nanoseconds: i64)
        requires
            self.content().valid(),
        ensures
            nanoseconds == self.content().target_ahead(speed),
    {
        let scaled: i128 = self.target_ahead_ns as i128 * speed.factor_quarters() as i128 / 4;
        if scaled > i64::MAX as i128 {
            i64::MAX
        } else {
            scaled as i64
        }
    }

    /// The next window to fetch, if one is wanted.
    pub fn plan(&self, demand: WindowDemand) -> (range: Option<TimeRange>)
        requires
            self.content().valid(),
        ensures
            range == self.content().wanted(demand),
    {
        let from: i64 = demand.complete_until.0;
        if from >= demand.end_exclusive.0 {
            return None;
        }
        let ahead: i128 = from as i128 - demand.cursor.0 as i128;
        let playback: bool = match demand.intent {
            FetchIntent::PlaybackAhead => ahead < self.target_ahead(demand.playback_speed) as i128,
            FetchIntent::RequiredOnly => false,
        };
        if demand.required_through.0 < from && !playback {
            return None;
        }
        let end: i64 = match from.checked_add(self.window_ns) {
            Some(end) => if end < demand.end_exclusive.0 {
                end
            } else {
                demand.end_exclusive.0
            },
            None => demand.end_exclusive.0,
        };
        Some(TimeRange { start: demand.complete_until, end_exclusive: ArrivalTime(end) })
    }
}

impl Default for FetchProfile {
    fn default() -> (profile: Self)
        ensures
            profile.content().valid(),
            profile.content() == ProfileContent::usual(),
    {
        FetchProfile {
            window_ns: DEFAULT_WINDOW_NS,
            target_ahead_ns: DEFAULT_TARGET_AHEAD_NS,
            max_resident_bytes: DEFAULT_RESIDENT_BYTES,
        }
    }
}

/// A wanted window is not empty, starts where the data ends, and does not pass the end of the
/// recording. Data that is required and not there is always wanted; data ahead only for playback.
pub proof fn law_wanted_windows_follow_the_data(profile: ProfileContent, demand: WindowDemand)
    requires
        profile.valid(),
    ensures
        profile.wanted(demand) matches Some(range) ==> {
            &&& range.start == demand.complete_until
            &&& range.start.0 < range.end_exclusive.0 <= demand.end_exclusive.0
        },
        demand.complete_until.0 <= demand.required_through.0 && demand.complete_until.0
            < demand.end_exclusive.0 ==> profile.wanted(demand) is Some,
        demand.required_through.0 < demand.complete_until.0 && demand.intent is RequiredOnly
            ==> profile.wanted(demand) is None,
{
}

/// Why the data plane cannot go on, in words.
#[derive(Debug, Eq, PartialEq)]
pub struct DataPlaneError(String);

impl View for DataPlaneError {
    type V = Seq<char>;

    closed spec fn view(&self) -> Seq<char> {
        self.0@
    }
}

impl DataPlaneError {
    pub fn new(message: String) -> (error: Self)
        ensures
            error@ == message@,
    {
        DataPlaneError(message)
    }

    /// The words of the error.
    pub fn message(&self) -> (message: String)
        ensures
            message@ == self@,
    {
        self.0.as_str().to_owned()
    }

    /// The same error once more.
    pub fn copy(&self) -> (copy: Self)
        ensures
            copy@ == self@,
    {
        DataPlaneError(self.message())
    }
}

/// The messages that arrived after a time, or at it where it is included.
pub open spec fn arrived_from(
    messages: Seq<RawContent>,
    after: ArrivalTime,
    including: bool,
) -> Seq<RawContent> {
    messages.filter(
        |message: RawContent|
            message.arrival_time.0 > after.0 || including && message.arrival_time == after,
    )
}

/// What a data plane holds.
pub struct PlaneContent {
    pub profile: ProfileContent,
    pub store: StoreContent,
    pub loader: LoaderContent,
    pub start: ArrivalTime,
    pub end_exclusive: ArrivalTime,
    pub buffer_underrun_count: u64,
    pub delivery_started: bool,
    pub failed: Option<Seq<char>>,
}

impl PlaneContent {
    /// The plane after looking for a loaded window.
    pub open spec fn polled(self, cursor: ArrivalTime) -> Self {
        if self.failed is Some {
            self
        } else {
            let waited = PlaneContent { loader: self.loader.after_poll(), ..self };
            match self.loader.polled() {
                None => waited,
                Some(Err(message)) => PlaneContent { failed: Some(message), ..waited },
                Some(Ok(loaded)) => match self.store.refusal(loaded.window) {
                    Some(error) => PlaneContent { failed: Some(error.spec_message()), ..waited },
                    None => PlaneContent {
                        store: self.store.with_window(loaded.window).enforced(cursor),
                        ..waited
                    },
                },
            }
        }
    }

    /// Whether a window came in, or why no more can come.
    pub open spec fn poll_outcome(self, cursor: ArrivalTime) -> Result<bool, Seq<char>> {
        match self.polled(cursor).failed {
            Some(message) => Err(message),
            None => Ok(self.loader.polled() is Some),
        }
    }

    pub open spec fn demand(
        self,
        committed: ArrivalTime,
        required_through: ArrivalTime,
        playback_speed: PlaybackSpeed,
        intent: FetchIntent,
    ) -> WindowDemand {
        WindowDemand {
            cursor: committed,
            required_through,
            complete_until: self.store.complete_until,
            end_exclusive: self.end_exclusive,
            playback_speed,
            intent,
        }
    }

    /// The plane once the next wanted window was requested. Nothing is requested while a load is
    /// under way or after a failure.
    pub open spec fn ensured(self, demand: WindowDemand) -> Self {
        match self.profile.wanted(demand) {
            Some(range) => if self.failed is None && self.loader.phase is Idle {
                PlaneContent { loader: self.loader.requested(range)->Ok_0, ..self }
            } else {
                self
            },
            None => self,
        }
    }

    /// The plane from another time on: what was loaded or requested is forgotten.
    pub open spec fn sought(self, target: ArrivalTime) -> Self {
        PlaneContent {
            store: self.store.emptied(target),
            loader: self.loader.cancelled(),
            delivery_started: false,
            failed: None,
            ..self
        }
    }

    /// The time lies in the recording.
    pub open spec fn holds(self, time: ArrivalTime) -> bool {
        self.start.0 <= time.0 < self.end_exclusive.0
    }

    /// The text for a seek out of the recording.
    pub open spec fn outside(self, target: ArrivalTime) -> Seq<char> {
        "seek target "@ + text::signed_decimal(target.0 as int) + " is outside recording ["@
            + text::signed_decimal(self.start.0 as int) + ", "@ + text::signed_decimal(
            self.end_exclusive.0 as int,
        ) + ")"@
    }

    /// The messages up to a time that were not handed out yet.
    pub open spec fn deliverable(self, after: ArrivalTime, through: ArrivalTime) -> Seq<
        RawContent,
    > {
        arrived_from(
            data_window::all_pending(self.store.windows, through),
            after,
            !self.delivery_started,
        )
    }

    /// The plane once they were handed out.
    pub open spec fn delivered(self, through: ArrivalTime) -> Self {
        PlaneContent { store: self.store.taken(through), delivery_started: true, ..self }
    }

    /// How many nanoseconds of data lie ahead of the cursor.
    pub open spec fn ahead(self, cursor: ArrivalTime) -> int {
        if self.store.complete_until.0 <= cursor.0 {
            0
        } else {
            time::saturated(self.store.complete_until.0 - cursor.0) as int
        }
    }

    /// What the plane reports.
    pub open spec fn report(self, cursor: ArrivalTime, speed: PlaybackSpeed) -> ReportContent {
        ReportContent {
            loads: self.loader.metrics,
            buffer_underrun_count: self.buffer_underrun_count,
            window_count: self.store.windows.len(),
            resident_bytes: data_window::total_bytes(self.store.windows),
            logical_payload_bytes: {
                let payload = data_window::payload_bytes(
                    data_window::all_messages(self.store.windows),
                );
                if payload > usize::MAX {
                    usize::MAX as nat
                } else {
                    payload
                }
            },
            target_ahead_ns: self.profile.target_ahead(speed),
            actual_buffer_ahead_ns: self.ahead(cursor),
            eviction_count: self.store.eviction_count,
        }
    }

    /// A plane without data.
    pub open spec fn fresh(
        profile: ProfileContent,
        loader: LoaderContent,
        start: ArrivalTime,
        end_exclusive: ArrivalTime,
    ) -> Self {
        PlaneContent {
            profile,
            store: StoreContent {
                windows: Seq::empty(),
                max_bytes: profile.max_resident_bytes,
                complete_until: start,
                eviction_count: 0,
            },
            loader,
            start,
            end_exclusive,
            buffer_underrun_count: 0,
            delivery_started: false,
            failed: None,
        }
    }

    /// The plane once playback had to wait.
    pub open spec fn underrun(self) -> Self {
        PlaneContent {
            buffer_underrun_count: window_loader::grown(self.buffer_underrun_count, 1),
            ..self
        }
    }
}

/// What the data plane reports.
#[derive(Clone, Copy, Debug, PartialEq, Eq, Structural)]
pub struct RecordingDataPlaneDiagnostics {
    pub loads: WindowLoaderMetrics,
    pub buffer_underrun_count: u64,
    pub window_count: usize,
    pub resident_bytes: usize,
    pub logical_payload_bytes: usize,
    pub target_ahead_ns: i64,
    pub actual_buffer_ahead_ns: i64,
    pub eviction_count: u64,
}

/// A report in numbers.
pub struct ReportContent {
    pub loads: WindowLoaderMetrics,
    pub buffer_underrun_count: u64,
    pub window_count: nat,
    pub resident_bytes: nat,
    pub logical_payload_bytes: nat,
    pub target_ahead_ns: int,
    pub actual_buffer_ahead_ns: int,
    pub eviction_count: u64,
}

impl RecordingDataPlaneDiagnostics {
    pub open spec fn content(self) -> ReportContent {
        ReportContent {
            loads: self.loads,
            buffer_underrun_count: self.buffer_underrun_count,
            window_count: self.window_count as nat,
            resident_bytes: self.resident_bytes as nat,
            logical_payload_bytes: self.logical_payload_bytes as nat,
            target_ahead_ns: self.target_ahead_ns as int,
            actual_buffer_ahead_ns: self.actual_buffer_ahead_ns as int,
            eviction_count: self.eviction_count,
        }
    }

    /// How much memory the messages keep for each byte of their own, as the two numbers to divide:
    /// nothing where the messages have no bytes.
    pub fn retention_ratio(&self) -> (ratio: Option<(usize, usize)>)
        ensures
            ratio == if self.logical_payload_bytes == 0 {
                None
            } else {
                Some((self.resident_bytes, self.logical_payload_bytes))
            },
    {
        if self.logical_payload_bytes == 0 {
            None
        } else {
            Some((self.resident_bytes, self.logical_payload_bytes))
        }
    }
}

fn keep_from(messages: Vec<RawMessage>, after: ArrivalTime, including: bool) -> (kept: Vec<
    RawMessage,
>)
    ensures
        raw::contents(kept@) == arrived_from(raw::contents(messages@), after, including),
{
    let ghost keep = |message: RawContent|
        message.arrival_time.0 > after.0 || including && message.arrival_time == after;
    let ghost all = raw::contents(messages@);
    let mut kept: Vec<RawMessage> = Vec::new();
    let mut index: usize = 0;
    proof {
        assert(all.take(0) =~= Seq::<RawContent>::empty());
        assert(raw::contents(kept@) =~= Seq::<RawContent>::empty());
        assert(all.take(0).filter(keep) =~= Seq::<RawContent>::empty()) by {
            reveal(Seq::filter);
        }
    }
    while index < messages.len()
        invariant
            index <= messages@.len(),
            all == raw::contents(messages@),
            keep == (|message: RawContent|
                message.arrival_time.0 > after.0 || including && message.arrival_time == after),
            raw::contents(kept@) == all.take(index as int).filter(keep),
        decreases messages@.len() - index,
    {
        let message: &RawMessage = &messages[index];
        let ghost before = raw::contents(kept@);
        proof {
            assert(all.take(index + 1).drop_last() =~= all.take(index as int));
            reveal(Seq::filter);
        }
        if message.arrival_time.0 > after.0 || (including && message.arrival_time.0 == after.0) {
            let copy: RawMessage = message.clone();
            kept.push(copy);
            assert(raw::contents(kept@) =~= before.push(all[index as int]));
        }
        index = index + 1;
    }
    assert(all.take(all.len() as int) =~= all);
    kept
}

/// Plans, loads, keeps and hands out the windows of one recording.
#[derive(Debug)]
pub struct RecordingDataPlane {
    profile: FetchProfile,
    store: MemoryWindowStore,
    loader: WindowLoader,
    start: ArrivalTime,
    end_exclusive: ArrivalTime,
    buffer_underrun_count: u64,
    delivery_started: bool,
    failed: Option<DataPlaneError>,
}

impl RecordingDataPlane {
    pub closed spec fn content(&self) -> PlaneContent {
        PlaneContent {
            profile: self.profile.content(),
            store: self.store.content(),
            loader: self.loader.content(),
            start: self.start,
            end_exclusive: self.end_exclusive,
            buffer_underrun_count: self.buffer_underrun_count,
            delivery_started: self.delivery_started,
            failed: match self.failed {
                Some(error) => Some(error@),
                None => None,
            },
        }
    }

    pub closed spec fn well_formed(&self) -> bool {
        &&& self.profile.content().valid()
        &&& self.store.well_formed()
        &&& self.start.0 < self.end_exclusive.0
    }

    /// What a well-formed data plane holds is valid: its profile and its store.
    pub proof fn lemma_valid(&self)
        requires
            self.well_formed(),
        ensures
            self.content().profile.valid(),
            self.content().store.valid(),
    {
        self.store.lemma_valid();
    }

    /// A data plane with the usual profile.
    pub fn new(loader: WindowLoader, start: ArrivalTime, end_exclusive: ArrivalTime) -> (outcome:
        Result<Self, DataPlaneError>)
        ensures
            match outcome {
                Ok(plane) => plane.well_formed() && start.0 < end_exclusive.0 && plane.content()
                    == PlaneContent::fresh(
                    ProfileContent::usual(),
                    loader.content(),
                    start,
                    end_exclusive,
                ),
                Err(error) => start.0 >= end_exclusive.0 && error@
                    == "recording data range is empty"@,
            },
    {
        let profile: FetchProfile = FetchProfile::default();
        Self::with_profile(loader, start, end_exclusive, profile)
    }

    pub fn with_profile(
        loader: WindowLoader,
        start: ArrivalTime,
        end_exclusive: ArrivalTime,
        profile: FetchProfile,
    ) -> (outcome: Result<Self, DataPlaneError>)
        requires
            profile.content().valid(),
        ensures
            match outcome {
                Ok(plane) => plane.well_formed() && start.0 < end_exclusive.0 && plane.content()
                    == PlaneContent::fresh(
                    profile.content(),
                    loader.content(),
                    start,
                    end_exclusive,
                ),
                Err(error) => start.0 >= end_exclusive.0 && error@
                    == "recording data range is empty"@,
            },
    {
        if start.0 >= end_exclusive.0 {
            return Err(DataPlaneError::new("recording data range is empty".to_owned()));
        }
        match MemoryWindowStore::new(start, profile.max_resident_bytes()) {
            Ok(store) => Ok(
                RecordingDataPlane {
                    profile,
                    store,
                    loader,
                    start,
                    end_exclusive,
                    buffer_underrun_count: 0,
                    delivery_started: false,
                    failed: None,
                },
            ),
            Err(error) => Err(DataPlaneError::new(error.message())),
        }
    }

    /// Stores a loaded window, where one is there, and drops old ones over the budget. A failure
    /// stays until the next seek.
    pub fn poll(&mut self, cursor: ArrivalTime) -> (outcome: Result<bool, DataPlaneError>)
        requires
            old(self).well_formed(),
        ensures
            final(self).well_formed(),
            final(self).content() == old(self).content().polled(cursor),
            match outcome {
                Ok(changed) => old(self).content().poll_outcome(cursor) == Ok::<bool, Seq<char>>(
                    changed,
                ),
                Err(error) => old(self).content().poll_outcome(cursor) == Err::<bool, Seq<char>>(
                    error@,
                ),
            },
    {
        if let Some(error) = &self.failed {
            return Err(error.copy());
        }
        let loaded: LoadedWindow = match self.loader.poll() {
            None => return Ok(false),
            Some(Err(error)) => {
                let error = DataPlaneError::new(error.message());
                self.failed = Some(error.copy());
                return Err(error);
            },
            Some(Ok(loaded)) => loaded,
        };
        if let Err(error) = self.store.insert(loaded.window) {
            let error = DataPlaneError::new(error.message());
            self.failed = Some(error.copy());
            return Err(error);
        }
        self.store.enforce_budget(cursor);
        Ok(true)
    }

    /// Requests the next window, where one is wanted and no load is under way.
    pub fn ensure_available_through(
        &mut self,
        committed: ArrivalTime,
        required_through: ArrivalTime,
        playback_speed: PlaybackSpeed,
        intent: FetchIntent,
    ) -> (outcome: Result<(), DataPlaneError>)
        requires
            old(self).well_formed(),
        ensures
            final(self).well_formed(),
            final(self).content() == old(self).content().ensured(
                old(self).content().demand(committed, required_through, playback_speed, intent),
            ),
            match outcome {
                Ok(_) => old(self).content().failed is None,
                Err(error) => old(self).content().failed == Some(error@),
            },
    {
        if let Some(error) = &self.failed {
            return Err(error.copy());
        }
        if !self.loader.is_idle() {
            return Ok(());
        }
        let demand = WindowDemand {
            cursor: committed,
            required_through,
            complete_until: self.store.complete_until(),
            end_exclusive: self.end_exclusive,
            playback_speed,
            intent,
        };
        let range: TimeRange = match self.profile.plan(demand) {
            Some(range) => range,
            None => return Ok(()),
        };
        if let Err(error) = self.loader.request(range) {
            let error = DataPlaneError::new(error.message());
            self.failed = Some(error.copy());
            return Err(error);
        }
        Ok(())
    }

    pub fn is_complete_through(&self, target: ArrivalTime) -> (complete: bool)
        ensures
            complete == self.content().store.complete_through(
                target,
                self.content().end_exclusive,
            ),
    {
        self.store.is_complete_through(target, self.end_exclusive)
    }

    /// Forgets what was loaded, and starts again at a time in the recording.
    pub fn begin_seek(&mut self, target: ArrivalTime) -> (outcome: Result<(), DataPlaneError>)
        requires
            old(self).well_formed(),
        ensures
            final(self).well_formed(),
            match outcome {
                Ok(_) => old(self).content().holds(target) && final(self).content() == old(
                    self,
                ).content().sought(target),
                Err(error) => !old(self).content().holds(target) && error@ == old(
                    self,
                ).content().outside(target) && final(self).content() == old(self).content(),
            },
    {
        if target.0 < self.start.0 || target.0 >= self.end_exclusive.0 {
            let mut message: String = "seek target ".to_owned();
            push_signed(&mut message, target.0);
            message.append(" is outside recording [");
            push_signed(&mut message, self.start.0);
            message.append(", ");
            push_signed(&mut message, self.end_exclusive.0);
            message.append(")");
            return Err(DataPlaneError::new(message));
        }
        self.loader.cancel();
        self.store.reset(target);
        self.delivery_started = false;
        self.failed = None;
        Ok(())
    }

    /// Forgets the load that is under way.
    pub fn cancel_pending(&mut self)
        requires
            old(self).well_formed(),
        ensures
            final(self).well_formed(),
            final(self).content() == (PlaneContent {
                loader: old(self).content().loader.cancelled(),
                ..old(self).content()
            }),
    {
        self.loader.cancel();
    }

    /// Hands out every message up to `through` that was not handed out before.
    pub fn messages_through(&mut self, after: ArrivalTime, through: ArrivalTime) -> (messages: Vec<
        RawMessage,
    >)
        requires
            old(self).well_formed(),
        ensures
            final(self).well_formed(),
            raw::contents(messages@) == old(self).content().deliverable(after, through),
            final(self).content() == old(self).content().delivered(through),
    {
        let pending: Vec<RawMessage> = self.store.take_messages_through(through);
        let messages: Vec<RawMessage> = keep_from(pending, after, !self.delivery_started);
        self.delivery_started = true;
        messages
    }

    /// How many nanoseconds of data lie ahead of the cursor.
    pub fn buffer_ahead(&self, cursor: ArrivalTime) -> (nanoseconds: i64)
        ensures
            nanoseconds == self.content().ahead(cursor),
    {
        let ahead: i64 = saturating_difference(self.store.complete_until().0, cursor.0);
        if ahead < 0 {
            0
        } else {
            ahead
        }
    }

    /// Counts that playback had to wait for data.
    pub fn note_buffer_underrun(&mut self)
        requires
            old(self).well_formed(),
        ensures
            final(self).well_formed(),
            final(self).content() == old(self).content().underrun(),
    {
        self.buffer_underrun_count = self.buffer_underrun_count.saturating_add(1);
    }

    pub fn diagnostics(&self, cursor: ArrivalTime, playback_speed: PlaybackSpeed) -> (report:
        RecordingDataPlaneDiagnostics)
        requires
            self.well_formed(),
        ensures
            report.content() == self.content().report(cursor, playback_speed),
    {
        RecordingDataPlaneDiagnostics {
            loads: *self.loader.metrics(),
            buffer_underrun_count: self.buffer_underrun_count,
            window_count: self.store.window_count(),
            resident_bytes: self.store.resident_bytes(),
            logical_payload_bytes: self.store.logical_payload_bytes(),
            target_ahead_ns: self.profile.target_ahead(playback_speed),
            actual_buffer_ahead_ns: self.buffer_ahead(cursor),
            eviction_count: self.store.eviction_count(),
        }
    }

    /// The loader, for the application to see what is requested.
    pub fn loader(&self) -> (loader: &WindowLoader)
        ensures
            loader.content() == self.content().loader,
    {
        &self.loader
    }

    /// The loader, for the application to hand over what it loaded.
    pub fn loader_mut(&mut self) -> (loader: &mut WindowLoader)
        requires
            old(self).well_formed(),
        ensures
            (*loader).content() == old(self).content().loader,
            final(self).well_formed(),
            final(self).content() == (PlaneContent {
                loader: (*final(loader)).content(),
                ..old(self).content()
            }),
    {
        &mut self.loader
    }

    pub fn resident_bytes(&self) -> (count: usize)
        requires
            self.well_formed(),
        ensures
            count == data_window::total_bytes(self.content().store.windows),
    {
        self.store.resident_bytes()
    }
}

/// A load that failed leaves the stored windows as they were.
pub proof fn law_failed_loads_do_not_reach_the_store(plane: PlaneContent, cursor: ArrivalTime)
    requires
        plane.polled(cursor).failed is Some,
    ensures
        plane.polled(cursor).store == plane.store,
{
}

/// Data is wanted as far ahead as the profile says at normal speed, and at another speed in
/// proportion: a quarter as far, half as far, or twice as far, rounded down.
pub proof fn law_faster_playback_looks_further_ahead(profile: ProfileContent)
    requires
        profile.valid(),
        profile.target_ahead_ns <= i64::MAX / 2,
    ensures
        ({
            let far = profile.target_ahead_ns;
            let quarter = profile.target_ahead(PlaybackSpeed::Quarter);
            let half = profile.target_ahead(PlaybackSpeed::Half);
            &&& 4 * quarter <= far < 4 * quarter + 4
            &&& 2 * half <= far < 2 * half + 2
            &&& profile.target_ahead(PlaybackSpeed::Normal) == far
            &&& profile.target_ahead(PlaybackSpeed::Double) == 2 * far
        }),
{
    let far = profile.target_ahead_ns;
    assert(far * 1 == far && far * 2 == 2 * far && far * 4 == 4 * far && far * 8 == 8 * far);
}

/// A window is as long as the profile says, or ends with the recording. While playback goes on, none
/// is wanted only where the data reaches the end or far enough ahead; where it does not, one is.
pub proof fn law_playback_keeps_its_distance(profile: ProfileContent, demand: WindowDemand)
    requires
        profile.valid(),
    ensures
        profile.wanted(demand) matches Some(range) ==> {
            let length = range.end_exclusive.0 - range.start.0;
            &&& length == profile.window_ns || (length < profile.window_ns && range.end_exclusive
                == demand.end_exclusive)
        },
        demand.intent is PlaybackAhead && demand.required_through.0 < demand.complete_until.0 ==> (
        profile.wanted(demand) is None <==> demand.complete_until.0 >= demand.end_exclusive.0
            || demand.complete_until.0 - demand.cursor.0 >= profile.target_ahead(
            demand.playback_speed,
        )),
{
}

/// What is handed out arrived after the last time that was shown and by the new one; before anything was
/// handed out, also at the last time itself.
pub proof fn law_messages_come_when_their_time_has_come(
    plane: PlaneContent,
    after: ArrivalTime,
    through: ArrivalTime,
    index: int,
)
    requires
        plane.store.valid(),
        0 <= index < plane.deliverable(after, through).len(),
    ensures
        ({
            let time = plane.deliverable(after, through)[index].arrival_time.0;
            &&& time <= through.0
            &&& after.0 <= time
            &&& plane.delivery_started ==> after.0 < time
        }),
{
    let keep = |message: RawContent|
        message.arrival_time.0 > after.0 || !plane.delivery_started && message.arrival_time
            == after;
    let all = data_window::all_pending(plane.store.windows, through);
    all.lemma_filter_pred(keep, index);
    all.lemma_filter_contains_rev(keep, plane.deliverable(after, through)[index]);
    let message = plane.deliverable(after, through)[index];
    let i = choose|i: int| 0 <= i < all.len() && all[i] == message;
    lemma_pending_has_come(plane.store.windows, through, i);
}

proof fn lemma_pending_has_come(
    windows: Seq<data_window::StoredContent>,
    through: ArrivalTime,
    index: int,
)
    requires
        forall|i: int| 0 <= i < windows.len() ==> (#[trigger] windows[i]).valid(),
        0 <= index < data_window::all_pending(windows, through).len(),
    ensures
        data_window::all_pending(windows, through)[index].arrival_time.0 <= through.0,
    decreases windows.len(),
{
    let front = windows.drop_last();
    let earlier = data_window::all_pending(front, through);
    let last = windows.last();
    assert(windows[windows.len() - 1].valid());
    data_window::lemma_reach_is_an_index(last.messages, last.delivered as int, through);
    if index < earlier.len() {
        assert forall|i: int| 0 <= i < front.len() implies (#[trigger] front[i]).valid() by {
            assert(windows[i].valid());
        }
        lemma_pending_has_come(front, through, index);
    } else {
        let own = data_window::pending(last, through);
        let at = index - earlier.len();
        assert(own[at] == last.messages[last.delivered + at]);
    }
}

} // verus!

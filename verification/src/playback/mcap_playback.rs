//! Sequential playback of an MCAP file in memory.

use crate::message::time::{self, saturating_sum, ArrivalTime};
use crate::playback::clock::{self, PlaybackClock, PlaybackView};
use crate::playback::data_window::TimeRange;
use crate::recording::local_restore::lemma_in_both;
use crate::recording::mcap_source::query::{
    QueryContent, QueryFault, RangeQuery, RangeQueryError, RangeQueryResult,
};
use crate::recording::mcap_source::{
    self, IndexedContent, IndexedMessages, McapOpenError, McapSource, ReadCursor, SourceContent,
    SourceFault,
};
use crate::recording::raw::{self, lists, sort_by_time, RawContent, RawMessage, StreamId};
use crate::recording::restore::{self, RestoreContent, RestorePlan, RestoreRead};
use crate::recording::session::SourceCatalog;
use std::time::Duration;
use vstd::prelude::*;

verus! {

/// Why a file cannot be played.
#[derive(Debug)]
pub struct McapPlaybackError(McapOpenError);

impl View for McapPlaybackError {
    type V = SourceFault;

    closed spec fn view(&self) -> SourceFault {
        self.0@
    }
}

impl McapPlaybackError {
    pub closed spec fn wrapping(error: McapOpenError) -> Self {
        McapPlaybackError(error)
    }

    /// The error as a sentence for the user.
    pub fn message(&self) -> (sentence: String)
        ensures
            exists|words: Seq<char>|
                sentence@ == #[trigger] McapOpenError::spec_message(self@, words),
    {
        let sentence: String = self.0.message();
        proof {
            let words = choose|words: Seq<char>|
                sentence@ == #[trigger] McapOpenError::spec_message(self.0@, words);
            assert(sentence@ == McapOpenError::spec_message(self@, words));
        }
        sentence
    }
}

/// What is wrong with the file stays what it is.
pub proof fn law_errors_keep_their_fault(error: McapOpenError)
    ensures
        McapPlaybackError::wrapping(error)@ == error@,
{
}

impl From<McapOpenError> for McapPlaybackError {
    fn from(error: McapOpenError) -> (wrapped: Self) {
        McapPlaybackError(error)
    }
}

impl vstd::std_specs::convert::FromSpecImpl<McapOpenError> for McapPlaybackError {
    open spec fn obeys_from_spec() -> bool {
        true
    }

    open spec fn from_spec(error: McapOpenError) -> Self {
        McapPlaybackError::wrapping(error)
    }
}

/// Why a seek failed: the file could not be read, or what was read could not be shown.
#[derive(Debug)]
pub enum McapSeekError<E> {
    Source(McapOpenError),
    Restore(E),
}

/// Native sequential MCAP transport.
///
/// This type owns physical source traversal and the playback clock, but no decoded state. The
/// caller routes the messages to its feature controllers.
pub struct McapPlayback {
    source: McapSource,
    clock: PlaybackClock,
    persistent_archive: Vec<RawMessage>,
}

/// What playback holds.
pub struct McapPlaybackContent {
    pub source: SourceContent,
    pub clock: PlaybackView,
    pub archive: Seq<RawContent>,
}

/// The messages of several reads, one read after the other.
pub open spec fn histories_read(
    source: SourceContent,
    reads: Seq<(Seq<StreamId>, TimeRange)>,
) -> Result<Seq<RawContent>, SourceFault>
    decreases reads.len(),
{
    if reads.len() == 0 {
        Ok(Seq::empty())
    } else {
        match histories_read(source, reads.drop_last()) {
            Err(fault) => Err(fault),
            Ok(earlier) => match source.ranged(reads.last().0, reads.last().1) {
                Err(fault) => Err(fault),
                Ok(found) => Ok(earlier + found.messages),
            },
        }
    }
}

impl McapPlaybackContent {
    /// The messages that show the recording as of the target of a plan, in order: the latest of
    /// some streams, histories, and what the archive holds of persistent streams.
    pub open spec fn restored(self, plan: RestoreContent) -> Result<Seq<RawContent>, SourceFault> {
        match self.source.latest(plan.latest_before, plan.target) {
            Err(fault) => Err(fault),
            Ok(latest) => match histories_read(self.source, plan.histories) {
                Err(fault) => Err(fault),
                Ok(histories) => Ok(
                    raw::time_sorted(
                        latest.messages + histories + self.archive.filter(
                            |message: RawContent|
                                plan.persistent.contains(message.stream_id)
                                    && message.arrival_time.0 <= plan.target.0,
                        ),
                    ),
                ),
            },
        }
    }

    /// Where reading goes on after a seek: behind the target, which the restore shows.
    pub open spec fn position_after(self, target: ArrivalTime) -> Result<
        mcap_source::CursorContent,
        SourceFault,
    > {
        mcap_source::sought(
            self.source.file,
            self.source.selected,
            self.source.cursor.cache,
            ArrivalTime(time::saturated(target.0 + 1)),
        )
    }

    /// Playback at the target of a plan.
    pub open spec fn at_target(self, target: ArrivalTime) -> Self {
        McapPlaybackContent {
            source: SourceContent { cursor: self.position_after(target)->Ok_0, ..self.source },
            clock: PlaybackView {
                cursor: clock::clamped(target, self.clock.start, self.clock.end),
                ..self.clock
            },
            ..self
        }
    }
}

proof fn lemma_history_fault_stays(
    source: SourceContent,
    reads: Seq<(Seq<StreamId>, TimeRange)>,
    count: int,
)
    requires
        0 <= count <= reads.len(),
        histories_read(source, reads.take(count)) is Err,
    ensures
        histories_read(source, reads) == histories_read(source, reads.take(count)),
    decreases reads.len() - count,
{
    if count < reads.len() {
        assert(reads.take(count + 1).drop_last() =~= reads.take(count));
        lemma_history_fault_stays(source, reads, count + 1);
    } else {
        assert(reads.take(count) =~= reads);
    }
}

fn extend(output: &mut Vec<RawMessage>, more: Vec<RawMessage>)
    ensures
        raw::contents(final(output)@) == raw::contents(old(output)@) + raw::contents(more@),
{
    let ghost start = output@;
    let mut more: Vec<RawMessage> = more;
    let ghost given = more@;
    output.append(&mut more);
    assert(raw::contents(output@) =~= raw::contents(start) + raw::contents(given));
}

/// Playback of a source at its start.
pub open spec fn started(source: SourceContent) -> McapPlaybackContent {
    McapPlaybackContent {
        source,
        clock: PlaybackView {
            start: source.range.0,
            end: if source.range.1.0 < source.range.0.0 {
                source.range.0
            } else {
                source.range.1
            },
            cursor: source.range.0,
            playing: false,
            speed: clock::PlaybackSpeed::Normal,
        },
        archive: Seq::empty(),
    }
}

/// Playback of a file, or why it cannot be played.
pub open spec fn opened(bytes: Seq<u8>) -> Result<McapPlaybackContent, SourceFault> {
    match mcap_source::opened(bytes) {
        Ok(source) => Ok(started(source)),
        Err(fault) => Err(fault),
    }
}

impl McapPlayback {
    pub closed spec fn content(&self) -> McapPlaybackContent {
        McapPlaybackContent {
            source: self.source.content(),
            clock: self.clock.model(),
            archive: raw::contents(self.persistent_archive@),
        }
    }

    pub closed spec fn well_formed(&self) -> bool {
        self.source.well_formed() && self.clock.well_formed()
    }

    /// Opens a copy of a file for playback from its start.
    pub fn new(backing: &[u8]) -> (outcome: Result<Self, McapPlaybackError>)
        ensures
            match outcome {
                Ok(playback) => playback.well_formed() && opened(backing@) == Ok::<
                    McapPlaybackContent,
                    SourceFault,
                >(playback.content()),
                Err(error) => opened(backing@) == Err::<McapPlaybackContent, SourceFault>(error@),
            },
    {
        match McapSource::new(backing) {
            Ok(source) => Ok(Self::from_source(source)),
            Err(error) => Err(McapPlaybackError::from(error)),
        }
    }

    /// Opens a file for playback from its start, without copying it.
    pub fn from_owner(backing: Vec<u8>) -> (outcome: Result<Self, McapPlaybackError>)
        ensures
            match outcome {
                Ok(playback) => playback.well_formed() && opened(backing@) == Ok::<
                    McapPlaybackContent,
                    SourceFault,
                >(playback.content()),
                Err(error) => opened(backing@) == Err::<McapPlaybackContent, SourceFault>(error@),
            },
    {
        match McapSource::from_owner(backing) {
            Ok(source) => Ok(Self::from_source(source)),
            Err(error) => Err(McapPlaybackError::from(error)),
        }
    }

    fn from_source(source: McapSource) -> (playback: Self)
        requires
            source.well_formed(),
        ensures
            playback.well_formed(),
            playback.content() == started(source.content()),
    {
        let (start, end): (ArrivalTime, ArrivalTime) = source.time_range();
        let playback = McapPlayback {
            source,
            clock: PlaybackClock::new(start, end),
            persistent_archive: Vec::new(),
        };
        assert(playback.content().archive =~= Seq::empty());
        playback
    }

    pub fn catalog(&self) -> (catalog: &SourceCatalog)
        ensures
            catalog.content() == self.content().source.streams,
            catalog.time_range == self.content().source.time_range,
    {
        self.source.catalog()
    }

    pub fn select_streams(&mut self, streams: Vec<StreamId>)
        requires
            old(self).well_formed(),
        ensures
            final(self).well_formed(),
            final(self).content() == (McapPlaybackContent {
                source: old(self).content().source.with_selection(streams@),
                ..old(self).content()
            }),
    {
        self.source.select_streams(streams);
    }

    pub fn query_range(&self, query: &RangeQuery) -> (outcome: Result<
        RangeQueryResult,
        RangeQueryError,
    >)
        requires
            self.well_formed(),
        ensures
            ({
                let expected = self.content().source.queried(
                    query.streams@,
                    query.range,
                    query.limits,
                );
                match outcome {
                    Ok(found) => expected == Ok::<QueryContent, QueryFault>(found@),
                    Err(error) => expected == Err::<QueryContent, QueryFault>(error@),
                }
            }),
    {
        self.source.query_range(query)
    }

    /// Loads explicitly persistent inputs once. The archive is small feature data and is replayed
    /// as part of later seeks.
    pub fn bootstrap_persistent(&mut self, streams: &[StreamId]) -> (outcome: Result<
        (),
        McapOpenError,
    >)
        requires
            old(self).well_formed(),
        ensures
            final(self).well_formed(),
            match outcome {
                Ok(_) => final(self).content() == (McapPlaybackContent {
                    archive: final(self).content().archive,
                    ..old(self).content()
                }) && if streams@.len() == 0 {
                    final(self).content().archive.len() == 0
                } else {
                    old(self).content().source.everything(streams@) matches Ok(found)
                        && final(self).content().archive == found.messages
                },
                Err(error) => final(self).content() == old(self).content() && streams@.len() > 0
                    && old(self).content().source.everything(streams@) == Err::<
                    IndexedContent,
                    SourceFault,
                >(error@),
            },
    {
        if streams.len() == 0 {
            self.persistent_archive = Vec::new();
            return Ok(());
        }
        let found: IndexedMessages = self.source.indexed_streams(streams)?;
        self.persistent_archive = found.messages;
        Ok(())
    }

    /// Reads up to where the cursor would stand, lets the caller process it, and then moves the
    /// cursor there. A failed read leaves the cursor where it is and calls nothing.
    pub fn tick<F: FnOnce(Duration, Vec<RawMessage>)>(
        &mut self,
        elapsed: Duration,
        process: F,
    ) -> (outcome: Result<(), McapOpenError>)
        requires
            old(self).well_formed(),
            forall|messages: Vec<RawMessage>| #[trigger]
                call_requires(process, (elapsed, messages)),
        ensures
            final(self).well_formed(),
            ({
                let before = old(self).content();
                let candidate = clock::cursor_reached(
                    before.clock,
                    clock::duration_nanos(elapsed) as nat,
                );
                let read = before.source.read_until(candidate);
                &&& final(self).content().source == read.0
                &&& final(self).content().archive == before.archive
                &&& match outcome {
                    Ok(_) => {
                        &&& final(self).content().clock == clock::committed(
                            before.clock,
                            candidate,
                        )
                        &&& exists|messages: Vec<RawMessage>|
                            read.1 == Ok::<Seq<RawContent>, SourceFault>(
                                raw::contents(messages@),
                            ) && #[trigger] call_ensures(process, (elapsed, messages), ())
                    },
                    Err(error) => final(self).content().clock == before.clock && read.1 == Err::<
                        Seq<RawContent>,
                        SourceFault,
                    >(error@),
                }
            }),
    {
        let candidate: ArrivalTime = self.clock.cursor_after(elapsed);
        let messages: Vec<RawMessage> = self.source.read_until(candidate)?;
        process(elapsed, messages);
        self.clock.commit_cursor(candidate);
        Ok(())
    }

    fn read_histories(&self, messages: &mut Vec<RawMessage>, reads: &Vec<RestoreRead>) -> (outcome:
        Result<(), McapOpenError>)
        requires
            self.well_formed(),
        ensures
            ({
                let expected = histories_read(
                    self.content().source,
                    restore::read_contents(reads@),
                );
                match outcome {
                    Ok(_) => expected is Ok && raw::contents(final(messages)@) == raw::contents(
                        old(messages)@,
                    ) + expected->Ok_0,
                    Err(error) => expected == Err::<Seq<RawContent>, SourceFault>(error@),
                }
            }),
    {
        let ghost source = self.content().source;
        let ghost all = restore::read_contents(reads@);
        let ghost start = raw::contents(messages@);
        let mut index: usize = 0;
        proof {
            assert(all.take(0) =~= Seq::empty());
            assert(start + Seq::<RawContent>::empty() =~= start);
        }
        while index < reads.len()
            invariant
                index <= reads@.len(),
                self.well_formed(),
                source == self.content().source,
                all == restore::read_contents(reads@),
                histories_read(source, all.take(index as int)) is Ok,
                raw::contents(messages@) == start + histories_read(
                    source,
                    all.take(index as int),
                )->Ok_0,
            decreases reads@.len() - index,
        {
            let read: &RestoreRead = &reads[index];
            let ghost earlier = raw::contents(messages@);
            proof {
                assert(all[index as int] == (read.streams@, read.range));
                assert(all.take(index + 1).drop_last() =~= all.take(index as int));
                assert(all.take(index + 1).last() == all[index as int]);
            }
            match self.source.indexed_range(read.streams.as_slice(), read.range) {
                Ok(found) => {
                    let ghost more = found@.messages;
                    extend(messages, found.messages);
                    assert(raw::contents(messages@) =~= start + (histories_read(
                        source,
                        all.take(index as int),
                    )->Ok_0 + more));
                },
                Err(error) => {
                    proof {
                        lemma_history_fault_stays(source, all, index + 1);
                    }
                    return Err(error);
                },
            }
            index = index + 1;
        }
        assert(all.take(all.len() as int) =~= all);
        Ok(())
    }

    fn push_archived(&self, messages: &mut Vec<RawMessage>, plan: &RestorePlan)
        ensures
            raw::contents(final(messages)@) == raw::contents(old(messages)@)
                + self.content().archive.filter(
                |message: RawContent|
                    plan@.persistent.contains(message.stream_id) && message.arrival_time.0
                        <= plan@.target.0,
            ),
    {
        let ghost keep = |message: RawContent|
            plan@.persistent.contains(message.stream_id) && message.arrival_time.0
                <= plan@.target.0;
        let ghost all = self.content().archive;
        let ghost front = raw::contents(messages@);
        let mut index: usize = 0;
        proof {
            reveal(Seq::filter);
            assert(all.take(0) =~= Seq::empty());
            assert(front + all.take(0).filter(keep) =~= front);
        }
        while index < self.persistent_archive.len()
            invariant
                index <= self.persistent_archive@.len(),
                all == raw::contents(self.persistent_archive@),
                keep == (|message: RawContent|
                    plan@.persistent.contains(message.stream_id) && message.arrival_time.0
                        <= plan@.target.0),
                raw::contents(messages@) == front + all.take(index as int).filter(keep),
            decreases self.persistent_archive@.len() - index,
        {
            let ghost before = raw::contents(messages@);
            let message: &RawMessage = &self.persistent_archive[index];
            proof {
                reveal(Seq::filter);
                assert(all.take(index + 1).drop_last() =~= all.take(index as int));
                assert(all[index as int] == message@);
            }
            if lists(plan.persistent.as_slice(), message.stream_id) && message.arrival_time.0
                <= plan.target.0 {
                let copy: RawMessage = message.clone();
                messages.push(copy);
                proof {
                    assert(raw::contents(messages@) =~= before.push(all[index as int]));
                    assert(raw::contents(messages@) =~= front + all.take(index + 1).filter(keep));
                }
            } else {
                assert(all.take(index + 1).filter(keep) == all.take(index as int).filter(keep));
            }
            index = index + 1;
        }
        assert(all.take(all.len() as int) =~= all);
    }

    fn read_restore(&self, plan: &RestorePlan) -> (outcome: Result<
        Vec<RawMessage>,
        McapOpenError,
    >)
        requires
            self.well_formed(),
        ensures
            match outcome {
                Ok(messages) => self.content().restored(plan@) == Ok::<
                    Seq<RawContent>,
                    SourceFault,
                >(raw::contents(messages@)),
                Err(error) => self.content().restored(plan@) == Err::<
                    Seq<RawContent>,
                    SourceFault,
                >(error@),
            },
    {
        let latest: IndexedMessages = self.source.latest_before(
            plan.latest_before.as_slice(),
            plan.target,
        )?;
        let mut messages: Vec<RawMessage> = latest.messages;
        self.read_histories(&mut messages, &plan.histories)?;
        self.push_archived(&mut messages, plan);
        Ok(sort_by_time(messages))
    }

    /// Executes a restore plan transactionally.
    ///
    /// Every read and the new position for sequential reading complete before the caller replaces
    /// what is shown. The message at the target is part of the restore and is skipped by later
    /// forward reading.
    pub fn seek_with<E, F: FnOnce(ArrivalTime, Vec<RawMessage>) -> Result<(), E>>(
        &mut self,
        plan: &RestorePlan,
        apply: F,
    ) -> (outcome: Result<(), McapSeekError<E>>)
        requires
            old(self).well_formed(),
            forall|messages: Vec<RawMessage>| #[trigger]
                call_requires(apply, (plan.target, messages)),
        ensures
            final(self).well_formed(),
            ({
                let before = old(self).content();
                let messages = before.restored(plan@);
                let position = before.position_after(plan.target);
                match outcome {
                    Ok(_) => {
                        &&& messages is Ok
                        &&& position is Ok
                        &&& final(self).content() == before.at_target(plan.target)
                        &&& exists|shown: Vec<RawMessage>, done: Result<(), E>|
                            raw::contents(shown@) == messages->Ok_0 && #[trigger] call_ensures(
                                apply,
                                (plan.target, shown),
                                done,
                            ) && done is Ok
                    },
                    Err(McapSeekError::Source(error)) => final(self).content() == before && (
                    messages == Err::<Seq<RawContent>, SourceFault>(error@) || messages is Ok
                        && position == Err::<mcap_source::CursorContent, SourceFault>(error@)),
                    Err(McapSeekError::Restore(error)) => final(self).content() == before
                        && messages is Ok && position is Ok && exists|
                        shown: Vec<RawMessage>,
                        done: Result<(), E>,
                    |
                        raw::contents(shown@) == messages->Ok_0 && #[trigger] call_ensures(
                            apply,
                            (plan.target, shown),
                            done,
                        ) && done == Err::<(), E>(error),
                }
            }),
    {
        let messages: Vec<RawMessage> = match self.read_restore(plan) {
            Ok(messages) => messages,
            Err(error) => return Err(McapSeekError::Source(error)),
        };
        let after_target = ArrivalTime(saturating_sum(plan.target.0, 1));
        let position: ReadCursor = match self.source.prepare_seek(after_target) {
            Ok(position) => position,
            Err(error) => return Err(McapSeekError::Source(error)),
        };
        let ghost shown = messages;
        let done: Result<(), E> = apply(plan.target, messages);
        assert(call_ensures(apply, (plan.target, shown), done));
        if let Err(error) = done {
            return Err(McapSeekError::Restore(error));
        }
        self.source.commit_seek(position);
        self.clock.seek(plan.target);
        Ok(())
    }

    pub fn clock(&self) -> (clock: &PlaybackClock)
        requires
            self.well_formed(),
        ensures
            clock.well_formed(),
            clock.model() == self.content().clock,
    {
        &self.clock
    }

    pub fn clock_mut(&mut self) -> (clock: &mut PlaybackClock)
        requires
            old(self).well_formed(),
        ensures
            (*clock).well_formed(),
            (*clock).model() == old(self).content().clock,
            (*final(clock)).well_formed() ==> final(self).well_formed(),
            final(self).content() == (McapPlaybackContent {
                clock: (*final(clock)).model(),
                ..old(self).content()
            }),
    {
        &mut self.clock
    }
}

/// What a seek restored is not read again: whatever is read after it arrived after its target. That
/// is so where the chunks behind the one that the seek lands in hold nothing earlier.
pub proof fn law_restored_messages_are_not_read_again(
    playback: McapPlaybackContent,
    target: ArrivalTime,
    through: ArrivalTime,
)
    requires
        raw::ordered(playback.source.cursor.cache),
        target.0 < i64::MAX,
        playback.position_after(target) is Ok,
        playback.position_after(target)->Ok_0.chunk matches Some(chunk) ==> mcap_source::follows(
            playback.source.file,
            playback.source.selected,
            chunk,
            target,
        ),
    ensures
        playback.at_target(target).source.read_until(through).1 matches Ok(messages) ==> forall|
            i: int,
        |
            0 <= i < messages.len() ==> (#[trigger] messages[i]).arrival_time.0 > target.0,
{
    let source = playback.source;
    let behind = ArrivalTime(time::saturated(target.0 + 1));
    mcap_source::law_seeks_land_at_their_time(
        source.file,
        source.selected,
        source.cursor.cache,
        behind,
    );
    mcap_source::lemma_reads_follow(
        playback.position_after(target)->Ok_0,
        source.file,
        source.selected,
        target,
        through,
    );
}

/// A seek shows the latest messages, the histories, and of what is kept of persistent streams what had
/// arrived by its target, all in order; nothing of the latter that came later.
#[verifier::rlimit(60)]
pub proof fn law_seeks_show_what_had_arrived(
    playback: McapPlaybackContent,
    plan: RestoreContent,
    message: RawContent,
)
    requires
        playback.restored(plan) is Ok,
    ensures
        playback.restored(plan)->Ok_0.contains(message) <==> playback.source.latest(
            plan.latest_before,
            plan.target,
        )->Ok_0.messages.contains(message) || histories_read(
            playback.source,
            plan.histories,
        )->Ok_0.contains(message) || (playback.archive.contains(message)
            && plan.persistent.contains(message.stream_id) && message.arrival_time.0
            <= plan.target.0),
        raw::ordered(playback.restored(plan)->Ok_0),
{
    let keep = |one: RawContent|
        plan.persistent.contains(one.stream_id) && one.arrival_time.0 <= plan.target.0;
    let kept = playback.archive.filter(keep);
    let latest = playback.source.latest(plan.latest_before, plan.target)->Ok_0.messages;
    let histories = histories_read(playback.source, plan.histories)->Ok_0;
    let all = latest + histories + kept;
    raw::law_sorting_is_stable(all);
    let sorted = raw::time_sorted(all);
    all.to_multiset_ensures();
    sorted.to_multiset_ensures();
    assert(sorted.contains(message) <==> sorted.to_multiset().count(message) > 0);
    assert(all.contains(message) <==> all.to_multiset().count(message) > 0);
    lemma_in_both(latest, histories, message);
    lemma_in_both(latest + histories, kept, message);
    if kept.contains(message) {
        let i = choose|i: int| 0 <= i < kept.len() && kept[i] == message;
        playback.archive.lemma_filter_pred(keep, i);
        playback.archive.lemma_filter_contains_rev(keep, message);
    }
    if playback.archive.contains(message) && keep(message) {
        let i = choose|i: int| 0 <= i < playback.archive.len() && playback.archive[i] == message;
        playback.archive.lemma_filter_contains(keep, i);
    }
}

/// Playback starts paused at the first time of its file, at normal speed, and ends at the last.
pub proof fn law_playback_starts_at_the_start(source: SourceContent)
    requires
        source.range.0.0 <= source.range.1.0,
    ensures
        ({
            let clock = started(source).clock;
            &&& clock.cursor == source.range.0
            &&& clock.start == source.range.0
            &&& clock.end == source.range.1
            &&& !clock.playing
            &&& clock.speed == clock::PlaybackSpeed::Normal
        }),
{
}

} // verus!

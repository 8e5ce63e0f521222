//! What a seek in a file reads: the latest messages before a time, searched backwards a window at a
//! time.

use crate::message::time::ArrivalTime;
use crate::playback::data_window::TimeRange;
use crate::recording::local_catalog::SummaryFacts;
use crate::recording::local_window;
use crate::recording::mcap_facts::ChannelContent;
use crate::recording::raw::{self, copy_streams, RawContent, RawMessage, StreamId};
use vstd::prelude::*;

verus! {

/// How far back the first window of a search reaches. Each later window is twice as long.
pub const FIRST_SEARCH_SPAN_NS: u64 = 1_000_000_000;

/// The last message of a stream.
pub open spec fn last_of(messages: Seq<RawContent>, stream: StreamId) -> Option<RawContent>
    decreases messages.len(),
{
    if messages.len() == 0 {
        None
    } else if messages.last().stream_id == stream {
        Some(messages.last())
    } else {
        last_of(messages.drop_last(), stream)
    }
}

/// The last message of each stream that has one, in the order of the streams.
pub open spec fn last_messages(streams: Seq<StreamId>, messages: Seq<RawContent>) -> Seq<RawContent>
    decreases streams.len(),
{
    if streams.len() == 0 {
        Seq::empty()
    } else {
        let earlier = last_messages(streams.drop_last(), messages);
        match last_of(messages, streams.last()) {
            Some(message) => earlier.push(message),
            None => earlier,
        }
    }
}

/// The streams without a message, in their order.
pub open spec fn without_messages(streams: Seq<StreamId>, messages: Seq<RawContent>) -> Seq<
    StreamId,
>
    decreases streams.len(),
{
    if streams.len() == 0 {
        Seq::empty()
    } else {
        let earlier = without_messages(streams.drop_last(), messages);
        if last_of(messages, streams.last()) is None {
            earlier.push(streams.last())
        } else {
            earlier
        }
    }
}

/// What a search holds: the streams still without a message, the time at which the recording starts,
/// the time before which nothing was read yet, how far back to go next, and what was found.
pub struct SearchContent {
    pub missing: Seq<StreamId>,
    pub floor: i64,
    pub end: i64,
    pub span: u64,
    pub found: Seq<RawContent>,
}

impl SearchContent {
    /// A search for the latest messages at or before a time.
    pub open spec fn started(
        streams: Seq<StreamId>,
        start: ArrivalTime,
        target: ArrivalTime,
    ) -> Self {
        SearchContent {
            missing: streams,
            floor: start.0,
            end: if target.0 < i64::MAX {
                (target.0 + 1) as i64
            } else {
                i64::MAX
            },
            span: FIRST_SEARCH_SPAN_NS,
            found: Seq::empty(),
        }
    }

    /// The window to read next: none when every stream has its message, and none when the search
    /// has come to the start of the recording.
    pub open spec fn next_range(self) -> Option<TimeRange> {
        if self.missing.len() == 0 || self.end <= self.floor {
            None
        } else {
            Some(
                TimeRange {
                    start: ArrivalTime(
                        if self.end - self.span > self.floor {
                            (self.end - self.span) as i64
                        } else {
                            self.floor
                        },
                    ),
                    end_exclusive: ArrivalTime(self.end),
                },
            )
        }
    }

    /// The search with the messages of its window.
    pub open spec fn received(self, messages: Seq<RawContent>) -> Self {
        match self.next_range() {
            Some(range) => SearchContent {
                missing: without_messages(self.missing, messages),
                end: range.start.0,
                span: if self.span <= u64::MAX / 2 {
                    (self.span * 2) as u64
                } else {
                    u64::MAX
                },
                found: self.found + last_messages(self.missing, messages),
                ..self
            },
            None => self,
        }
    }

    /// The search after so many windows of a recording.
    pub open spec fn after(self, recording: Seq<RawContent>, count: nat) -> Self
        decreases count,
    {
        if count == 0 {
            self
        } else {
            let earlier = self.after(recording, (count - 1) as nat);
            match earlier.next_range() {
                Some(range) => earlier.received(
                    within(recording, range.start.0 as int, range.end_exclusive.0 as int),
                ),
                None => earlier,
            }
        }
    }
}

/// The messages of a recording from a time up to another.
pub open spec fn within(recording: Seq<RawContent>, from: int, to: int) -> Seq<RawContent>
    decreases recording.len(),
{
    if recording.len() == 0 {
        Seq::empty()
    } else {
        let earlier = within(recording.drop_last(), from, to);
        if from <= recording.last().arrival_time.0 < to {
            earlier.push(recording.last())
        } else {
            earlier
        }
    }
}

/// The messages are in order of their times.
pub open spec fn in_order(recording: Seq<RawContent>) -> bool {
    forall|i: int, j: int|
        0 <= i <= j < recording.len() ==> (#[trigger] recording[i]).arrival_time.0 <= (
        #[trigger] recording[j]).arrival_time.0
}

proof fn lemma_nothing_later(recording: Seq<RawContent>, from: int, to: int)
    requires
        in_order(recording),
        recording.len() > 0 ==> recording.last().arrival_time.0 < from,
    ensures
        within(recording, from, to) == Seq::<RawContent>::empty(),
    decreases recording.len(),
{
    if recording.len() > 0 {
        let front = recording.drop_last();
        if front.len() > 0 {
            assert(front.last() == recording[front.len() - 1]);
            assert(recording[front.len() - 1].arrival_time.0
                <= recording[recording.len() - 1].arrival_time.0);
        }
        lemma_front_in_order(recording);
        lemma_nothing_later(front, from, to);
    }
}

proof fn lemma_front_in_order(recording: Seq<RawContent>)
    requires
        in_order(recording),
        recording.len() > 0,
    ensures
        in_order(recording.drop_last()),
{
    let front = recording.drop_last();
    assert forall|i: int, j: int| 0 <= i <= j < front.len() implies (
    #[trigger] front[i]).arrival_time.0 <= (#[trigger] front[j]).arrival_time.0 by {
        assert(front[i] == recording[i] && front[j] == recording[j]);
    }
}

proof fn lemma_within_splits(recording: Seq<RawContent>, from: int, middle: int, to: int)
    requires
        in_order(recording),
        from <= middle <= to,
    ensures
        within(recording, from, to) == within(recording, from, middle) + within(
            recording,
            middle,
            to,
        ),
    decreases recording.len(),
{
    if recording.len() > 0 {
        let last = recording.last();
        let front = recording.drop_last();
        lemma_front_in_order(recording);
        lemma_within_splits(front, from, middle, to);
        if last.arrival_time.0 < middle {
            lemma_nothing_later(recording, middle, to);
            if front.len() > 0 {
                assert(front.last() == recording[front.len() - 1]);
                assert(recording[front.len() - 1].arrival_time.0
                    <= recording[recording.len() - 1].arrival_time.0);
            }
            lemma_nothing_later(front, middle, to);
        }
    }
    assert(within(recording, from, to) =~= within(recording, from, middle) + within(
        recording,
        middle,
        to,
    ));
}

proof fn lemma_last_of_both(first: Seq<RawContent>, second: Seq<RawContent>, stream: StreamId)
    ensures
        last_of(first + second, stream) == match last_of(second, stream) {
            Some(message) => Some(message),
            None => last_of(first, stream),
        },
    decreases second.len(),
{
    if second.len() == 0 {
        assert(first + second =~= first);
    } else {
        assert((first + second).drop_last() =~= first + second.drop_last());
        lemma_last_of_both(first, second.drop_last(), stream);
    }
}

proof fn lemma_last_of_is_own(messages: Seq<RawContent>, stream: StreamId)
    ensures
        last_of(messages, stream) is Some ==> last_of(messages, stream)->0.stream_id == stream,
    decreases messages.len(),
{
    if messages.len() > 0 {
        lemma_last_of_is_own(messages.drop_last(), stream);
    }
}

pub(crate) proof fn lemma_in_pushed<A>(list: Seq<A>, last: A, item: A)
    ensures
        list.push(last).contains(item) == (list.contains(item) || item == last),
{
    let longer = list.push(last);
    if list.contains(item) {
        let i = choose|i: int| 0 <= i < list.len() && list[i] == item;
        assert(longer[i] == item);
    }
    if item == last {
        assert(longer[list.len() as int] == item);
    }
    if longer.contains(item) {
        let i = choose|i: int| 0 <= i < longer.len() && longer[i] == item;
        if i < list.len() {
            assert(list[i] == item);
        }
    }
}

proof fn lemma_parted(streams: Seq<StreamId>, messages: Seq<RawContent>)
    ensures
        forall|stream: StreamId|
            #[trigger] without_messages(streams, messages).contains(stream) <==> streams.contains(
                stream,
            ) && last_of(messages, stream) is None,
        forall|message: RawContent|
            #[trigger] last_messages(streams, messages).contains(message) <==> streams.contains(
                message.stream_id,
            ) && last_of(messages, message.stream_id) == Some(message),
    decreases streams.len(),
{
    let missing = without_messages(streams, messages);
    let found = last_messages(streams, messages);
    if streams.len() > 0 {
        let front = streams.drop_last();
        let last = streams.last();
        lemma_parted(front, messages);
        lemma_last_of_is_own(messages, last);
        assert(streams =~= front.push(last));
        assert forall|stream: StreamId| streams.contains(stream) == (front.contains(stream)
            || stream == last) by {
            lemma_in_pushed(front, last, stream);
        }
        let fewer = without_messages(front, messages);
        let less = last_messages(front, messages);
        assert forall|stream: StreamId| #[trigger]
            missing.contains(stream) <==> streams.contains(stream) && last_of(
            messages,
            stream,
        ) is None by {
            assert(streams.contains(stream) == (front.contains(stream) || stream == last));
            lemma_in_pushed(fewer, last, stream);
        }
        assert forall|message: RawContent| #[trigger]
            found.contains(message) <==> streams.contains(message.stream_id) && last_of(
            messages,
            message.stream_id,
        ) == Some(message) by {
            let stream = message.stream_id;
            assert(streams.contains(stream) == (front.contains(stream) || stream == last));
            if let Some(latest) = last_of(messages, last) {
                lemma_in_pushed(less, latest, message);
            }
        }
    }
}

/// What was found is the latest of what was read, and the streams that are missing have nothing
/// there.
spec fn agrees(
    search: SearchContent,
    streams: Seq<StreamId>,
    recording: Seq<RawContent>,
    to: int,
) -> bool {
    let read = within(recording, search.end as int, to);
    &&& search.end <= to
    &&& search.span >= 1
    &&& forall|stream: StreamId|
        #[trigger] search.missing.contains(stream) <==> streams.contains(stream) && last_of(
            read,
            stream,
        ) is None
    &&& forall|message: RawContent|
        #[trigger] search.found.contains(message) <==> streams.contains(message.stream_id)
            && last_of(read, message.stream_id) == Some(message)
}

proof fn lemma_search_agrees(
    streams: Seq<StreamId>,
    start: ArrivalTime,
    target: ArrivalTime,
    recording: Seq<RawContent>,
    count: nat,
)
    requires
        in_order(recording),
    ensures
        ({
            let begun = SearchContent::started(streams, start, target);
            let search = begun.after(recording, count);
            agrees(search, streams, recording, begun.end as int) && search.floor == start.0
        }),
    decreases count,
{
    let begun = SearchContent::started(streams, start, target);
    let to = begun.end as int;
    let search = begun.after(recording, count);
    if count == 0 {
        lemma_nothing_within(recording, to);
        assert forall|message: RawContent| !(#[trigger] search.found.contains(message)) by {}
    } else {
        let earlier = begun.after(recording, (count - 1) as nat);
        lemma_search_agrees(streams, start, target, recording, (count - 1) as nat);
        if let Some(range) = earlier.next_range() {
            let (from, end) = (range.start.0 as int, range.end_exclusive.0 as int);
            let fresh = within(recording, from, end);
            let known = within(recording, end, to);
            let read = within(recording, from, to);
            lemma_within_splits(recording, from, end, to);
            lemma_parted(earlier.missing, fresh);
            assert forall|stream: StreamId| #[trigger]
                search.missing.contains(stream) <==> streams.contains(stream) && last_of(
                read,
                stream,
            ) is None by {
                lemma_last_of_both(fresh, known, stream);
                assert(earlier.missing.contains(stream) <==> streams.contains(stream) && last_of(
                    known,
                    stream,
                ) is None);
            }
            let more = last_messages(earlier.missing, fresh);
            assert forall|message: RawContent| #[trigger]
                search.found.contains(message) <==> streams.contains(message.stream_id) && last_of(
                read,
                message.stream_id,
            ) == Some(message) by {
                let stream = message.stream_id;
                lemma_last_of_both(fresh, known, stream);
                lemma_in_both(earlier.found, more, message);
                assert(earlier.missing.contains(stream) <==> streams.contains(stream) && last_of(
                    known,
                    stream,
                ) is None);
                assert(earlier.found.contains(message) <==> streams.contains(stream) && last_of(
                    known,
                    stream,
                ) == Some(message));
                assert(more.contains(message) <==> earlier.missing.contains(stream) && last_of(
                    fresh,
                    stream,
                ) == Some(message));
            }
        }
    }
}

pub(crate) proof fn lemma_in_both(first: Seq<RawContent>, second: Seq<RawContent>, message: RawContent)
    ensures
        (first + second).contains(message) == (first.contains(message) || second.contains(message)),
{
    let both = first + second;
    if first.contains(message) {
        let i = choose|i: int| 0 <= i < first.len() && first[i] == message;
        assert(both[i] == message);
    }
    if second.contains(message) {
        let i = choose|i: int| 0 <= i < second.len() && second[i] == message;
        assert(both[first.len() + i] == message);
    }
    if both.contains(message) {
        let i = choose|i: int| 0 <= i < both.len() && both[i] == message;
        if i < first.len() {
            assert(first[i] == message);
        } else {
            assert(second[i - first.len()] == message);
        }
    }
}

proof fn lemma_nothing_within(recording: Seq<RawContent>, time: int)
    ensures
        within(recording, time, time) == Seq::<RawContent>::empty(),
    decreases recording.len(),
{
    if recording.len() > 0 {
        lemma_nothing_within(recording.drop_last(), time);
    }
}

/// A search that is done has found, of each of its streams, the last message from the start of the
/// recording to the target, and nothing else.
pub proof fn law_searches_find_the_latest(
    streams: Seq<StreamId>,
    start: ArrivalTime,
    target: ArrivalTime,
    recording: Seq<RawContent>,
    count: nat,
    message: RawContent,
)
    requires
        in_order(recording),
        start.0 <= target.0 < i64::MAX,
        SearchContent::started(streams, start, target).after(recording, count).next_range() is None,
    ensures
        SearchContent::started(streams, start, target).after(recording, count).found.contains(
            message,
        ) <==> streams.contains(message.stream_id) && last_of(
            within(recording, start.0 as int, target.0 + 1),
            message.stream_id,
        ) == Some(message),
{
    let search = SearchContent::started(streams, start, target).after(recording, count);
    let stream = message.stream_id;
    let to = target.0 + 1;
    lemma_search_agrees(streams, start, target, recording, count);
    lemma_search_bounded(streams, start, target, recording, count);
    lemma_within_splits(recording, start.0 as int, search.end as int, to);
    lemma_last_of_both(
        within(recording, start.0 as int, search.end as int),
        within(recording, search.end as int, to),
        stream,
    );
    if search.end == start.0 {
        lemma_nothing_within(recording, start.0 as int);
    } else {
        assert(!search.missing.contains(stream));
    }
}

proof fn lemma_search_bounded(
    streams: Seq<StreamId>,
    start: ArrivalTime,
    target: ArrivalTime,
    recording: Seq<RawContent>,
    count: nat,
)
    requires
        start.0 <= target.0 < i64::MAX,
    ensures
        SearchContent::started(streams, start, target).after(recording, count).end >= start.0,
        SearchContent::started(streams, start, target).after(recording, count).floor == start.0,
    decreases count,
{
    if count > 0 {
        lemma_search_bounded(streams, start, target, recording, (count - 1) as nat);
    }
}

/// Each window that a search reads is not empty, starts no earlier than the recording, and ends where
/// the one before it started.
pub proof fn law_searches_go_back(search: SearchContent, messages: Seq<RawContent>)
    requires
        search.span >= 1,
        search.next_range() is Some,
    ensures
        search.floor <= search.next_range()->0.start.0 < search.next_range()->0.end_exclusive.0,
        search.next_range()->0.end_exclusive.0 == search.end,
        search.received(messages).end == search.next_range()->0.start.0,
        search.received(messages).span >= 1,
{
}

/// A search for the latest messages of some streams at or before a time.
pub struct LatestSearch {
    missing: Vec<StreamId>,
    floor: i64,
    end: i64,
    span: u64,
    found: Vec<RawMessage>,
}

fn find_last_of(messages: &Vec<RawMessage>, stream: StreamId) -> (place: Option<usize>)
    ensures
        match place {
            Some(place) => place < messages@.len() && last_of(raw::contents(messages@), stream)
                == Some(messages@[place as int]@),
            None => last_of(raw::contents(messages@), stream) is None,
        },
{
    let ghost all = raw::contents(messages@);
    let mut place: usize = messages.len();
    assert(all.take(all.len() as int) =~= all);
    while place > 0
        invariant
            place <= messages@.len(),
            all == raw::contents(messages@),
            last_of(all, stream) == last_of(all.take(place as int), stream),
        decreases place,
    {
        assert(all[place - 1] == messages@[place - 1]@);
        assert(all.take(place as int).last() == all[place - 1]);
        assert(all.take(place as int).drop_last() =~= all.take(place - 1));
        if messages[place - 1].stream_id == stream {
            return Some(place - 1);
        }
        place = place - 1;
    }
    None
}

impl LatestSearch {
    pub closed spec fn content(&self) -> SearchContent {
        SearchContent {
            missing: self.missing@,
            floor: self.floor,
            end: self.end,
            span: self.span,
            found: raw::contents(self.found@),
        }
    }

    /// Starts a search in a recording that starts at a time.
    pub fn new(streams: &[StreamId], start: ArrivalTime, target: ArrivalTime) -> (search: Self)
        ensures
            search.content() == SearchContent::started(streams@, start, target),
    {
        let search: LatestSearch = LatestSearch {
            missing: copy_streams(streams),
            floor: start.0,
            end: if target.0 < i64::MAX {
                target.0 + 1
            } else {
                i64::MAX
            },
            span: FIRST_SEARCH_SPAN_NS,
            found: Vec::new(),
        };
        assert(search.content().found =~= Seq::empty());
        search
    }

    /// The streams still without a message.
    pub fn missing(&self) -> (streams: &[StreamId])
        ensures
            streams@ == self.content().missing,
    {
        self.missing.as_slice()
    }

    /// The window to read next.
    pub fn next_range(&self) -> (range: Option<TimeRange>)
        ensures
            range == self.content().next_range(),
    {
        if self.missing.len() == 0 || self.end <= self.floor {
            return None;
        }
        let start: i64 = if self.end as i128 - self.span as i128 > self.floor as i128 {
            (self.end as i128 - self.span as i128) as i64
        } else {
            self.floor
        };
        Some(
            TimeRange { start: ArrivalTime(start), end_exclusive: ArrivalTime(self.end) },
        )
    }

    /// Takes the messages of the window.
    pub fn receive(&mut self, messages: &Vec<RawMessage>)
        ensures
            final(self).content() == old(self).content().received(raw::contents(messages@)),
    {
        let range: TimeRange = match self.next_range() {
            Some(range) => range,
            None => {
                return ;
            },
        };
        let ghost before = self.content();
        let ghost given = raw::contents(messages@);
        let ghost all = self.missing@;
        let mut missing: Vec<StreamId> = Vec::new();
        let mut index: usize = 0;
        proof {
            assert(all.take(0) =~= Seq::empty());
            assert(before.found + Seq::<RawContent>::empty() =~= before.found);
        }
        while index < self.missing.len()
            invariant
                index <= all.len(),
                all == self.missing@,
                given == raw::contents(messages@),
                before == old(self).content(),
                self.content() == (SearchContent {
                    found: before.found + last_messages(all.take(index as int), given),
                    ..before
                }),
                missing@ == without_messages(all.take(index as int), given),
            decreases all.len() - index,
        {
            let stream: StreamId = self.missing[index];
            let ghost earlier = self.content().found;
            proof {
                assert(all.take(index + 1).drop_last() =~= all.take(index as int));
                assert(all.take(index + 1).last() == stream);
            }
            match find_last_of(messages, stream) {
                Some(place) => {
                    let message: RawMessage = messages[place].clone();
                    self.found.push(message);
                    assert(raw::contents(self.found@) =~= earlier.push(message@));
                    assert(raw::contents(self.found@) =~= before.found + last_messages(
                        all.take(index + 1),
                        given,
                    ));
                },
                None => missing.push(stream),
            }
            index = index + 1;
        }
        assert(all.take(all.len() as int) =~= all);
        self.missing = missing;
        self.end = range.start.0;
        self.span = if self.span <= u64::MAX / 2 {
            self.span * 2
        } else {
            u64::MAX
        };
    }

    /// What was found.
    pub fn finish(self) -> (messages: Vec<RawMessage>)
        ensures
            raw::contents(messages@) == self.content().found,
    {
        self.found
    }
}

/// The topics of the streams that a file has, in the order of the streams.
pub open spec fn stream_topics(
    channels: Map<u16, ChannelContent>,
    streams: Seq<StreamId>,
) -> Seq<Seq<char>>
    decreases streams.len(),
{
    if streams.len() == 0 {
        Seq::empty()
    } else {
        let earlier = stream_topics(channels, streams.drop_last());
        let id = streams.last().0;
        if id <= u16::MAX && channels.contains_key(id as u16) {
            earlier.push(channels[id as u16].topic)
        } else {
            earlier
        }
    }
}

/// The topics to read for some streams of a file.
pub fn topics_of(facts: &SummaryFacts, streams: &[StreamId]) -> (topics: Vec<String>)
    requires
        facts.well_formed(),
    ensures
        local_window::topic_contents(topics@) == stream_topics(
            facts.content().channels,
            streams@,
        ),
{
    let ghost channels = facts.content().channels;
    let mut topics: Vec<String> = Vec::new();
    let mut index: usize = 0;
    proof {
        assert(streams@.take(0) =~= Seq::empty());
        assert(local_window::topic_contents(topics@) =~= Seq::empty());
    }
    while index < streams.len()
        invariant
            index <= streams@.len(),
            facts.well_formed(),
            channels == facts.content().channels,
            local_window::topic_contents(topics@) == stream_topics(
                channels,
                streams@.take(index as int),
            ),
        decreases streams@.len() - index,
    {
        let ghost before = topics@;
        proof {
            assert(streams@.take(index + 1).drop_last() =~= streams@.take(index as int));
            assert(streams@.take(index + 1).last() == streams@[index as int]);
        }
        let id: u32 = streams[index].0;
        if id <= 65535 {
            if let Some(channel) = facts.channel(id as u16) {
                let topic: String = channel.topic.clone();
                topics.push(topic);
                assert(local_window::topic_contents(topics@) =~= local_window::topic_contents(
                    before,
                ).push(channel@.topic));
            }
        }
        index = index + 1;
    }
    assert(streams@.take(streams@.len() as int) =~= streams@);
    topics
}

} // verus!

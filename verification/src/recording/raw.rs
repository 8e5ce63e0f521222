//! Serialized messages as a recording holds them.

use crate::message::payload;
use crate::message::time::ArrivalTime;
use bytes::Bytes;
use vstd::prelude::*;

verus! {

/// A stream of a recording.
#[derive(Clone, Copy, Debug, PartialEq, Eq, PartialOrd, Ord, Hash, Structural)]
pub struct StreamId(pub u32);

/// Whether a stream is the one that a feature follows.
pub(crate) fn is_stream(own: Option<StreamId>, stream: StreamId) -> (same: bool)
    ensures
        same == (own == Some(stream)),
{
    match own {
        Some(id) => id == stream,
        None => false,
    }
}

pub(crate) fn lists(streams: &[StreamId], stream: StreamId) -> (listed: bool)
    ensures
        listed == streams@.contains(stream),
{
    let mut index: usize = 0;
    while index < streams.len()
        invariant
            index <= streams@.len(),
            forall|i: int| 0 <= i < index ==> streams@[i] != stream,
        decreases streams@.len() - index,
    {
        if streams[index] == stream {
            return true;
        }
        index = index + 1;
    }
    false
}

pub(crate) fn copy_streams(streams: &[StreamId]) -> (copy: Vec<StreamId>)
    ensures
        copy@ == streams@,
{
    let mut copy: Vec<StreamId> = Vec::with_capacity(streams.len());
    let mut index: usize = 0;
    while index < streams.len()
        invariant
            index <= streams@.len(),
            copy@ == streams@.take(index as int),
        decreases streams@.len() - index,
    {
        copy.push(streams[index]);
        index = index + 1;
        assert(copy@ =~= streams@.take(index as int));
    }
    assert(streams@.take(streams@.len() as int) =~= streams@);
    copy
}

/// One serialized message. Its payload can share an allocation with other messages.
#[derive(Debug, PartialEq, Eq)]
pub struct RawMessage {
    pub stream_id: StreamId,
    pub arrival_time: ArrivalTime,
    pub payload: Bytes,
}

/// What a message holds.
pub struct RawContent {
    pub stream_id: StreamId,
    pub arrival_time: ArrivalTime,
    pub payload: Seq<u8>,
}

impl View for RawMessage {
    type V = RawContent;

    open spec fn view(&self) -> RawContent {
        RawContent {
            stream_id: self.stream_id,
            arrival_time: self.arrival_time,
            payload: payload::content(self.payload),
        }
    }
}

impl Clone for RawMessage {
    fn clone(&self) -> (copy: Self)
        ensures
            copy@ == self@,
    {
        RawMessage {
            stream_id: self.stream_id,
            arrival_time: self.arrival_time,
            payload: self.payload.clone(),
        }
    }
}

/// What each message of a list holds.
pub open spec fn contents(messages: Seq<RawMessage>) -> Seq<RawContent> {
    messages.map_values(|message: RawMessage| message@)
}

/// Messages are ordered by arrival time, and by stream among equal times.
pub open spec fn not_after(first: RawContent, second: RawContent) -> bool {
    first.arrival_time.0 < second.arrival_time.0 || (first.arrival_time == second.arrival_time
        && first.stream_id.0 <= second.stream_id.0)
}

/// A list in that order.
pub open spec fn ordered(messages: Seq<RawContent>) -> bool {
    forall|i: int, j: int|
        0 <= i <= j < messages.len() ==> not_after(#[trigger] messages[i], #[trigger] messages[j])
}

/// Where a message goes in an ordered list: behind every message that is not after it.
pub open spec fn place(messages: Seq<RawContent>, message: RawContent) -> int
    decreases messages.len(),
{
    if messages.len() == 0 {
        0
    } else if not_after(messages.last(), message) {
        messages.len() as int
    } else {
        place(messages.drop_last(), message)
    }
}

/// The messages in order. Those of equal time and stream keep the order that they have.
pub open spec fn time_sorted(messages: Seq<RawContent>) -> Seq<RawContent>
    decreases messages.len(),
{
    if messages.len() == 0 {
        Seq::empty()
    } else {
        let earlier = time_sorted(messages.drop_last());
        earlier.insert(place(earlier, messages.last()), messages.last())
    }
}

proof fn lemma_place(messages: Seq<RawContent>, message: RawContent)
    requires
        ordered(messages),
    ensures
        0 <= place(messages, message) <= messages.len(),
        forall|i: int|
            0 <= i < place(messages, message) ==> not_after(#[trigger] messages[i], message),
        forall|i: int|
            place(messages, message) <= i < messages.len() ==> !not_after(
                #[trigger] messages[i],
                message,
            ),
    decreases messages.len(),
{
    if messages.len() > 0 {
        let front = messages.drop_last();
        if not_after(messages.last(), message) {
            assert forall|i: int| 0 <= i < messages.len() implies not_after(
                #[trigger] messages[i],
                message,
            ) by {
                assert(not_after(messages[i], messages[messages.len() - 1]));
            }
        } else {
            assert forall|i: int, j: int| 0 <= i <= j < front.len() implies not_after(
                #[trigger] front[i],
                #[trigger] front[j],
            ) by {
                assert(not_after(messages[i], messages[j]));
            }
            lemma_place(front, message);
            assert forall|i: int| 0 <= i < place(messages, message) implies not_after(
                #[trigger] messages[i],
                message,
            ) by {
                assert(front[i] == messages[i]);
            }
            assert forall|i: int|
                place(messages, message) <= i < messages.len() implies !not_after(
                #[trigger] messages[i],
                message,
            ) by {
                if i < front.len() {
                    assert(front[i] == messages[i]);
                }
            }
        }
    }
}

/// Two messages of equal time and stream.
pub open spec fn same_place(first: RawContent, second: RawContent) -> bool {
    first.arrival_time == second.arrival_time && first.stream_id == second.stream_id
}

/// The messages of the same time and stream as another.
pub open spec fn of_place(messages: Seq<RawContent>, kind: RawContent) -> Seq<RawContent> {
    messages.filter(|message: RawContent| same_place(message, kind))
}

/// Sorting puts messages in order, keeps each of them, and keeps the order of those that have
/// equal time and stream.
pub proof fn law_sorting_is_stable(messages: Seq<RawContent>)
    ensures
        ordered(time_sorted(messages)),
        time_sorted(messages).len() == messages.len(),
        time_sorted(messages).to_multiset() == messages.to_multiset(),
        forall|kind: RawContent|
            #[trigger] of_place(time_sorted(messages), kind) == of_place(messages, kind),
    decreases messages.len(),
{
    broadcast use vstd::seq_lib::group_to_multiset_ensures;

    if messages.len() > 0 {
        let front = messages.drop_last();
        let last = messages.last();
        let earlier = time_sorted(front);
        law_sorting_is_stable(front);
        lemma_place(earlier, last);
        let position = place(earlier, last);
        let sorted = earlier.insert(position, last);
        assert forall|i: int, j: int| 0 <= i <= j < sorted.len() implies not_after(
            #[trigger] sorted[i],
            #[trigger] sorted[j],
        ) by {
            if i < position {
                assert(sorted[i] == earlier[i]);
            }
            if i > position {
                assert(sorted[i] == earlier[i - 1]);
            }
            if j > position {
                assert(sorted[j] == earlier[j - 1]);
            }
            if j < position {
                assert(sorted[j] == earlier[j]);
            }
        }
        assert(messages =~= front.push(last));
        assert(sorted.to_multiset() =~= earlier.to_multiset().insert(last));
        assert forall|kind: RawContent| #[trigger] of_place(sorted, kind) == of_place(
            messages,
            kind,
        ) by {
            lemma_insert_is_stable(earlier, last, position, kind);
            assert(of_place(earlier, kind) == of_place(front, kind));
            let keep = |message: RawContent| same_place(message, kind);
            Seq::filter_distributes_over_add(front, seq![last], keep);
            assert(front + seq![last] =~= messages);
        }
    } else {
        assert(time_sorted(messages) =~= messages);
    }
}

pub(crate) proof fn lemma_none_kept(messages: Seq<RawContent>, keep: spec_fn(RawContent) -> bool)
    requires
        forall|i: int| 0 <= i < messages.len() ==> !keep(#[trigger] messages[i]),
    ensures
        messages.filter(keep) == Seq::<RawContent>::empty(),
    decreases messages.len(),
{
    reveal(Seq::filter);
    if messages.len() > 0 {
        lemma_none_kept(messages.drop_last(), keep);
        assert(!keep(messages[messages.len() - 1]));
    }
}

proof fn lemma_insert_is_stable(
    earlier: Seq<RawContent>,
    last: RawContent,
    position: int,
    kind: RawContent,
)
    requires
        0 <= position <= earlier.len(),
        forall|i: int|
            position <= i < earlier.len() ==> !not_after(#[trigger] earlier[i], last),
    ensures
        of_place(earlier.insert(position, last), kind) == of_place(earlier, kind) + of_place(
            seq![last],
            kind,
        ),
{
    let keep = |message: RawContent| same_place(message, kind);
    let head = earlier.take(position);
    let tail = earlier.skip(position);
    assert(earlier =~= head + tail);
    assert(earlier.insert(position, last) =~= (head + seq![last]) + tail);
    Seq::filter_distributes_over_add(head, tail, keep);
    Seq::filter_distributes_over_add(head, seq![last], keep);
    Seq::filter_distributes_over_add(head + seq![last], tail, keep);
    if keep(last) {
        lemma_none_kept(tail, keep);
        assert((head.filter(keep) + seq![last].filter(keep)) + tail.filter(keep) =~= (head.filter(
            keep,
        ) + tail.filter(keep)) + seq![last].filter(keep));
    } else {
        lemma_none_kept(seq![last], keep);
        assert((head.filter(keep) + seq![last].filter(keep)) + tail.filter(keep) =~= (head.filter(
            keep,
        ) + tail.filter(keep)) + seq![last].filter(keep));
    }
}

fn goes_before(first: &RawMessage, second: &RawMessage) -> (before: bool)
    ensures
        before == not_after(first@, second@),
{
    first.arrival_time.0 < second.arrival_time.0 || (first.arrival_time.0 == second.arrival_time.0
        && first.stream_id.0 <= second.stream_id.0)
}

fn insert_in_order(sorted: &mut Vec<RawMessage>, message: RawMessage)
    ensures
        contents(final(sorted)@) == contents(old(sorted)@).insert(
            place(contents(old(sorted)@), message@),
            message@,
        ),
{
    let ghost all = contents(sorted@);
    let mut position: usize = sorted.len();
    assert(all.take(all.len() as int) =~= all);
    while position > 0 && !goes_before(&sorted[position - 1], &message)
        invariant
            position <= sorted@.len(),
            all == contents(sorted@),
            place(all, message@) == place(all.take(position as int), message@),
        decreases position,
    {
        position = position - 1;
        assert(all.take(position + 1).drop_last() =~= all.take(position as int));
    }
    let ghost given = message@;
    sorted.insert(position, message);
    assert(contents(sorted@) =~= all.insert(position as int, given));
}

/// The messages in order of time and stream, in a stable way.
pub fn sort_by_time(messages: Vec<RawMessage>) -> (sorted: Vec<RawMessage>)
    ensures
        contents(sorted@) == time_sorted(contents(messages@)),
{
    let ghost all = contents(messages@);
    let mut sorted: Vec<RawMessage> = Vec::with_capacity(messages.len());
    let mut index: usize = 0;
    assert(contents(sorted@) =~= time_sorted(all.take(0)));
    while index < messages.len()
        invariant
            index <= messages@.len(),
            all == contents(messages@),
            contents(sorted@) == time_sorted(all.take(index as int)),
        decreases messages@.len() - index,
    {
        let copy: RawMessage = messages[index].clone();
        insert_in_order(&mut sorted, copy);
        assert(all.take(index + 1).drop_last() =~= all.take(index as int));
        index = index + 1;
    }
    assert(all.take(all.len() as int) =~= all);
    sorted
}

/// The messages of some streams, in their order.
pub fn retain_streams(messages: Vec<RawMessage>, streams: &[StreamId]) -> (all: Vec<RawMessage>)
    ensures
        contents(all@) == contents(messages@).filter(
            |message: RawContent| streams@.contains(message.stream_id),
        ),
{
    let ghost keep = |message: RawContent| streams@.contains(message.stream_id);
    let ghost given = contents(messages@);
    let mut all: Vec<RawMessage> = Vec::new();
    let mut index: usize = 0;
    proof {
        reveal(Seq::filter);
        assert(given.take(0) =~= Seq::empty());
        assert(contents(all@) =~= Seq::empty());
    }
    while index < messages.len()
        invariant
            index <= messages@.len(),
            given == contents(messages@),
            keep == (|message: RawContent| streams@.contains(message.stream_id)),
            contents(all@) == given.take(index as int).filter(keep),
        decreases messages@.len() - index,
    {
        let ghost before = contents(all@);
        proof {
            reveal(Seq::filter);
            assert(given.take(index + 1).drop_last() =~= given.take(index as int));
            assert(given[index as int] == messages@[index as int]@);
        }
        if lists(streams, messages[index].stream_id) {
            let copy: RawMessage = messages[index].clone();
            all.push(copy);
            assert(contents(all@) =~= before.push(given[index as int]));
        }
        index = index + 1;
    }
    assert(given.take(given.len() as int) =~= given);
    all
}

/// Sorted messages come one after the other in time, and those of one time in order of their streams.
pub proof fn law_sorted_messages_ascend(messages: Seq<RawContent>, first: int, second: int)
    requires
        0 <= first <= second < messages.len(),
    ensures
        ({
            let sorted = time_sorted(messages);
            &&& sorted.len() == messages.len()
            &&& sorted[first].arrival_time.0 <= sorted[second].arrival_time.0
            &&& sorted[first].arrival_time == sorted[second].arrival_time
                ==> sorted[first].stream_id.0 <= sorted[second].stream_id.0
        }),
{
    law_sorting_is_stable(messages);
    let sorted = time_sorted(messages);
    assert(not_after(sorted[first], sorted[second]));
}

} // verus!

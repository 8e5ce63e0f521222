//! Bounded windows of serialized messages, and what to fetch next.

use crate::message::payload::byte_count;
use crate::message::text::{self, push_signed};
use crate::message::time::{self, saturating_difference, ArrivalTime};
use crate::playback::clock::{self, nanos};
use crate::recording::raw::{self, RawContent, RawMessage};
use std::collections::VecDeque;
use std::time::Duration;
use vstd::prelude::*;
use vstd::string::*;

verus! {

/// Why a window, a planner or a store was refused.
#[derive(Clone, Debug, Eq, PartialEq)]
pub enum DataWindowError {
    EmptyRange,
    MessageOutside { time: ArrivalTime, start: ArrivalTime, end_exclusive: ArrivalTime },
    UnorderedMessages,
    EmptyWindowSize,
    EmptyTargetAhead,
    EmptyBudget,
    NotAdjacent { start: ArrivalTime, expected: ArrivalTime },
    ResidentBytesOverflow,
}

impl DataWindowError {
    pub open spec fn spec_message(self) -> Seq<char> {
        match self {
            DataWindowError::EmptyRange => "data window start must precede endExclusive"@,
            DataWindowError::MessageOutside { time, start, end_exclusive } => "message time "@
                + text::signed_decimal(time.0 as int) + " is outside data window ["@
                + text::signed_decimal(start.0 as int) + ", "@ + text::signed_decimal(
                end_exclusive.0 as int,
            ) + ")"@,
            DataWindowError::UnorderedMessages =>
                "data window messages must be ordered by time and stream"@,
            DataWindowError::EmptyWindowSize => "fetch window size must be positive"@,
            DataWindowError::EmptyTargetAhead => "fetch target ahead must be positive"@,
            DataWindowError::EmptyBudget => "memory window store budget must be positive"@,
            DataWindowError::NotAdjacent { start, expected } => "data window starts at "@
                + text::signed_decimal(start.0 as int) + ", expected "@ + text::signed_decimal(
                expected.0 as int,
            ),
            DataWindowError::ResidentBytesOverflow => "resident byte count overflow"@,
        }
    }

    /// The error as a sentence for the user.
    pub fn message(&self) -> (sentence: String)
        ensures
            sentence@ == self.spec_message(),
    {
        match self {
            DataWindowError::EmptyRange => "data window start must precede endExclusive".to_owned(),
            DataWindowError::MessageOutside { time, start, end_exclusive } => {
                let mut sentence: String = "message time ".to_owned();
                push_signed(&mut sentence, time.0);
                sentence.append(" is outside data window [");
                push_signed(&mut sentence, start.0);
                sentence.append(", ");
                push_signed(&mut sentence, end_exclusive.0);
                sentence.append(")");
                sentence
            },
            DataWindowError::UnorderedMessages =>
                "data window messages must be ordered by time and stream".to_owned(),
            DataWindowError::EmptyWindowSize => "fetch window size must be positive".to_owned(),
            DataWindowError::EmptyTargetAhead => "fetch target ahead must be positive".to_owned(),
            DataWindowError::EmptyBudget =>
                "memory window store budget must be positive".to_owned(),
            DataWindowError::NotAdjacent { start, expected } => {
                let mut sentence: String = "data window starts at ".to_owned();
                push_signed(&mut sentence, start.0);
                sentence.append(", expected ");
                push_signed(&mut sentence, expected.0);
                sentence
            },
            DataWindowError::ResidentBytesOverflow => "resident byte count overflow".to_owned(),
        }
    }
}

/// Times from `start` up to, but not with, `end_exclusive`.
#[derive(Clone, Copy, Debug, Eq, PartialEq, Structural)]
pub struct TimeRange {
    pub start: ArrivalTime,
    pub end_exclusive: ArrivalTime,
}

impl TimeRange {
    pub open spec fn spec_contains(self, time: ArrivalTime) -> bool {
        self.start.0 <= time.0 < self.end_exclusive.0
    }

    pub fn new(start: ArrivalTime, end_exclusive: ArrivalTime) -> (range: Result<
        Self,
        DataWindowError,
    >)
        ensures
            range == if start.0 < end_exclusive.0 {
                Ok::<TimeRange, DataWindowError>(TimeRange { start, end_exclusive })
            } else {
                Err(DataWindowError::EmptyRange)
            },
    {
        if start.0 >= end_exclusive.0 {
            return Err(DataWindowError::EmptyRange);
        }
        Ok(TimeRange { start, end_exclusive })
    }

    pub fn contains(self, time: ArrivalTime) -> (inside: bool)
        ensures
            inside == self.spec_contains(time),
    {
        self.start.0 <= time.0 && time.0 < self.end_exclusive.0
    }
}

/// The messages of one range of time.
#[derive(Clone, Debug, Eq, PartialEq)]
pub struct SerializedWindow {
    pub range: TimeRange,
    pub messages: Vec<RawMessage>,
    /// Approximate retained allocation size, including batch framing when known.
    pub resident_bytes: usize,
}

/// The first thing wrong with the first `count` messages of a window.
pub open spec fn window_fault(
    range: TimeRange,
    messages: Seq<RawContent>,
    count: int,
) -> Option<DataWindowError>
    decreases count,
{
    if count <= 0 {
        None
    } else {
        match window_fault(range, messages, count - 1) {
            Some(fault) => Some(fault),
            None => {
                let message = messages[count - 1];
                if !range.spec_contains(message.arrival_time) {
                    Some(
                        DataWindowError::MessageOutside {
                            time: message.arrival_time,
                            start: range.start,
                            end_exclusive: range.end_exclusive,
                        },
                    )
                } else if count >= 2 && !raw::not_after(messages[count - 2], message) {
                    Some(DataWindowError::UnorderedMessages)
                } else {
                    None
                }
            },
        }
    }
}

/// Every message lies in the range, and they are in order.
pub open spec fn window_valid(range: TimeRange, messages: Seq<RawContent>) -> bool {
    &&& raw::ordered(messages)
    &&& forall|i: int|
        0 <= i < messages.len() ==> range.spec_contains((#[trigger] messages[i]).arrival_time)
}

proof fn lemma_fault_stays(
    range: TimeRange,
    messages: Seq<RawContent>,
    few: int,
    many: int,
)
    requires
        few <= many,
        window_fault(range, messages, few) is Some,
    ensures
        window_fault(range, messages, many) == window_fault(range, messages, few),
    decreases many - few,
{
    if few < many {
        lemma_fault_stays(range, messages, few, many - 1);
    }
}

/// A window without a fault holds messages of its range, in order; and such messages make no
/// fault.
pub proof fn law_faultless_windows_are_valid(range: TimeRange, messages: Seq<RawContent>)
    ensures
        window_fault(range, messages, messages.len() as int) is None <==> window_valid(
            range,
            messages,
        ),
{
    if window_fault(range, messages, messages.len() as int) is None {
        lemma_faultless_prefix(range, messages, messages.len() as int);
        assert(messages.take(messages.len() as int) =~= messages);
    }
    if window_valid(range, messages) {
        lemma_valid_has_no_fault(range, messages, messages.len() as int);
    }
}

proof fn lemma_faultless_prefix(range: TimeRange, messages: Seq<RawContent>, count: int)
    requires
        0 <= count <= messages.len(),
        window_fault(range, messages, count) is None,
    ensures
        window_valid(range, messages.take(count)),
    decreases count,
{
    if count > 0 {
        lemma_faultless_prefix(range, messages, count - 1);
        let shorter = messages.take(count - 1);
        let longer = messages.take(count);
        assert forall|i: int| 0 <= i < longer.len() implies range.spec_contains(
            (#[trigger] longer[i]).arrival_time,
        ) by {
            if i < count - 1 {
                assert(longer[i] == shorter[i]);
            }
        }
        assert forall|i: int, j: int| 0 <= i <= j < longer.len() implies raw::not_after(
            #[trigger] longer[i],
            #[trigger] longer[j],
        ) by {
            if j < count - 1 {
                assert(longer[i] == shorter[i] && longer[j] == shorter[j]);
            } else if i < j {
                assert(longer[i] == shorter[i] && longer[count - 2] == shorter[count - 2]);
                assert(raw::not_after(shorter[i], shorter[count - 2]));
            }
        }
    }
}

proof fn lemma_valid_has_no_fault(range: TimeRange, messages: Seq<RawContent>, count: int)
    requires
        0 <= count <= messages.len(),
        window_valid(range, messages),
    ensures
        window_fault(range, messages, count) is None,
    decreases count,
{
    if count > 0 {
        lemma_valid_has_no_fault(range, messages, count - 1);
        assert(range.spec_contains(messages[count - 1].arrival_time));
        if count >= 2 {
            assert(raw::not_after(messages[count - 2], messages[count - 1]));
        }
    }
}

impl SerializedWindow {
    /// Why the window is refused, if it is.
    pub open spec fn fault(&self) -> Option<DataWindowError> {
        window_fault(self.range, raw::contents(self.messages@), self.messages@.len() as int)
    }

    pub fn new(range: TimeRange, messages: Vec<RawMessage>, resident_bytes: usize) -> (outcome:
        Result<Self, DataWindowError>)
        ensures
            match outcome {
                Ok(window) => window == (SerializedWindow { range, messages, resident_bytes })
                    && window.fault() is None,
                Err(error) => window_fault(
                    range,
                    raw::contents(messages@),
                    messages@.len() as int,
                ) == Some(error),
            },
    {
        let window = SerializedWindow { range, messages, resident_bytes };
        window.validate()?;
        Ok(window)
    }

    /// Every message must lie in the range, and none before the one ahead of it.
    pub fn validate(&self) -> (outcome: Result<(), DataWindowError>)
        ensures
            match outcome {
                Ok(_) => self.fault() is None,
                Err(error) => self.fault() == Some(error),
            },
    {
        let ghost list = raw::contents(self.messages@);
        let mut index: usize = 0;
        while index < self.messages.len()
            invariant
                index <= self.messages.len(),
                list == raw::contents(self.messages@),
                window_fault(self.range, list, index as int) is None,
            decreases self.messages.len() - index,
        {
            let message: &RawMessage = &self.messages[index];
            assert(list[index as int] == message@);
            if !self.range.contains(message.arrival_time) {
                proof {
                    lemma_fault_stays(self.range, list, index + 1, list.len() as int);
                }
                return Err(
                    DataWindowError::MessageOutside {
                        time: message.arrival_time,
                        start: self.range.start,
                        end_exclusive: self.range.end_exclusive,
                    },
                );
            }
            if index > 0 {
                let previous: &RawMessage = &self.messages[index - 1];
                assert(list[index - 1] == previous@);
                if message.arrival_time.0 < previous.arrival_time.0 || (message.arrival_time.0
                    == previous.arrival_time.0 && message.stream_id.0 < previous.stream_id.0) {
                    proof {
                        lemma_fault_stays(self.range, list, index + 1, list.len() as int);
                    }
                    return Err(DataWindowError::UnorderedMessages);
                }
            }
            index = index + 1;
        }
        Ok(())
    }
}

/// Where playback stands and how far its data is complete.
#[derive(Clone, Copy, Debug, Eq, PartialEq, Structural)]
pub struct FetchDemand {
    pub cursor: ArrivalTime,
    pub complete_until: ArrivalTime,
    pub end_exclusive: ArrivalTime,
}

/// Decides which window to fetch next.
#[derive(Clone, Copy, Debug, Eq, PartialEq)]
pub struct FetchPlanner {
    window_size: Duration,
    target_ahead: Duration,
}

/// A duration in nanoseconds, as far as the time type reaches.
pub open spec fn spec_duration_ns(duration: Duration) -> int {
    if clock::duration_nanos(duration) > i64::MAX {
        i64::MAX as int
    } else {
        clock::duration_nanos(duration) as int
    }
}

/// A duration in nanoseconds, as far as the time type reaches.
pub fn duration_ns(duration: Duration) -> (count: i64)
    ensures
        count == spec_duration_ns(duration),
{
    let exact: u128 = nanos(duration);
    if exact > i64::MAX as u128 {
        i64::MAX
    } else {
        exact as i64
    }
}

/// The next window of `window` nanoseconds, unless the data reaches far enough ahead or to the
/// end.
pub open spec fn planned(window: int, target: int, demand: FetchDemand) -> Option<TimeRange> {
    let ahead = demand.complete_until.0 - demand.cursor.0;
    if demand.complete_until.0 >= demand.end_exclusive.0 || ahead >= target {
        None
    } else {
        Some(
            TimeRange {
                start: demand.complete_until,
                end_exclusive: if demand.complete_until.0 + window < demand.end_exclusive.0 {
                    ArrivalTime((demand.complete_until.0 + window) as i64)
                } else {
                    demand.end_exclusive
                },
            },
        )
    }
}

impl FetchPlanner {
    pub closed spec fn spec_window_size(&self) -> Duration {
        self.window_size
    }

    pub closed spec fn spec_target_ahead(&self) -> Duration {
        self.target_ahead
    }

    /// Both durations are longer than nothing.
    pub open spec fn well_formed(&self) -> bool {
        clock::duration_nanos(self.spec_window_size()) > 0 && clock::duration_nanos(
            self.spec_target_ahead(),
        ) > 0
    }

    pub fn new(window_size: Duration, target_ahead: Duration) -> (outcome: Result<
        Self,
        DataWindowError,
    >)
        ensures
            match outcome {
                Ok(planner) => planner.well_formed() && planner.spec_window_size() == window_size
                    && planner.spec_target_ahead() == target_ahead,
                Err(error) => if clock::duration_nanos(window_size) == 0 {
                    error == DataWindowError::EmptyWindowSize
                } else {
                    clock::duration_nanos(target_ahead) == 0 && error
                        == DataWindowError::EmptyTargetAhead
                },
            },
    {
        if nanos(window_size) == 0 {
            return Err(DataWindowError::EmptyWindowSize);
        }
        if nanos(target_ahead) == 0 {
            return Err(DataWindowError::EmptyTargetAhead);
        }
        Ok(FetchPlanner { window_size, target_ahead })
    }

    pub fn plan(self, demand: FetchDemand) -> (range: Option<TimeRange>)
        requires
            self.well_formed(),
        ensures
            range == planned(
                spec_duration_ns(self.spec_window_size()),
                spec_duration_ns(self.spec_target_ahead()),
                demand,
            ),
    {
        plan_window(duration_ns(self.window_size), duration_ns(self.target_ahead), demand)
    }

    pub fn window_size(self) -> (window_size: Duration)
        ensures
            window_size == self.spec_window_size(),
    {
        self.window_size
    }

    pub fn target_ahead(self) -> (target_ahead: Duration)
        ensures
            target_ahead == self.spec_target_ahead(),
    {
        self.target_ahead
    }
}

/// The next window, for sizes in nanoseconds.
pub fn plan_window(window: i64, target: i64, demand: FetchDemand) -> (range: Option<TimeRange>)
    requires
        window > 0,
        target > 0,
    ensures
        range == planned(window as int, target as int, demand),
{
    if demand.complete_until.0 >= demand.end_exclusive.0 {
        return None;
    }
    let ahead: i128 = demand.complete_until.0 as i128 - demand.cursor.0 as i128;
    if ahead >= target as i128 {
        return None;
    }
    let end: i64 = match demand.complete_until.0.checked_add(window) {
        Some(end) => if end < demand.end_exclusive.0 {
            end
        } else {
            demand.end_exclusive.0
        },
        None => demand.end_exclusive.0,
    };
    match TimeRange::new(demand.complete_until, ArrivalTime(end)) {
        Ok(range) => Some(range),
        Err(_) => None,
    }
}

/// A planned window starts where the data ends, is not empty, and does not pass the end. Once it
/// is there, the next one starts where it ends.
pub proof fn law_planned_windows_are_adjacent(window: int, target: int, demand: FetchDemand)
    requires
        0 < window <= i64::MAX,
        0 < target <= i64::MAX,
    ensures
        planned(window, target, demand) matches Some(range) ==> {
            &&& range.start == demand.complete_until
            &&& range.start.0 < range.end_exclusive.0 <= demand.end_exclusive.0
            &&& planned(
                window,
                target,
                FetchDemand { complete_until: range.end_exclusive, ..demand },
            ) matches Some(next) ==> next.start == range.end_exclusive
        },
{
}

#[derive(Debug)]
struct StoredWindow {
    window: SerializedWindow,
    next_message: usize,
}

/// A window in a store: what it holds and how many of its messages were handed out.
pub struct StoredContent {
    pub range: TimeRange,
    pub messages: Seq<RawContent>,
    pub resident_bytes: nat,
    pub delivered: nat,
}

impl StoredContent {
    pub open spec fn valid(self) -> bool {
        &&& window_valid(self.range, self.messages)
        &&& self.delivered <= self.messages.len()
    }
}

/// The first index from `from` on whose message arrived after `through`.
pub open spec fn reach(messages: Seq<RawContent>, from: int, through: ArrivalTime) -> int
    decreases messages.len() - from,
{
    if from < messages.len() && messages[from].arrival_time.0 <= through.0 {
        reach(messages, from + 1, through)
    } else {
        from
    }
}

/// The messages that a window still has to hand out up to `through`.
pub open spec fn pending(stored: StoredContent, through: ArrivalTime) -> Seq<RawContent> {
    stored.messages.subrange(
        stored.delivered as int,
        reach(stored.messages, stored.delivered as int, through),
    )
}

/// The window once those messages were handed out.
pub open spec fn handed_out(stored: StoredContent, through: ArrivalTime) -> StoredContent {
    StoredContent {
        delivered: reach(stored.messages, stored.delivered as int, through) as nat,
        ..stored
    }
}

/// What all windows still have to hand out up to `through`, oldest window first.
pub open spec fn all_pending(windows: Seq<StoredContent>, through: ArrivalTime) -> Seq<RawContent>
    decreases windows.len(),
{
    if windows.len() == 0 {
        Seq::empty()
    } else {
        all_pending(windows.drop_last(), through) + pending(windows.last(), through)
    }
}

/// The message arrived after `after` and not after `through`.
pub open spec fn arrived_between(
    message: RawContent,
    after: ArrivalTime,
    through: ArrivalTime,
) -> bool {
    after.0 < message.arrival_time.0 <= through.0
}

/// The messages of a list that arrived after `after` and not after `through`.
pub open spec fn between(
    messages: Seq<RawContent>,
    after: ArrivalTime,
    through: ArrivalTime,
) -> Seq<RawContent> {
    messages.filter(|message: RawContent| arrived_between(message, after, through))
}

/// The messages of all windows, oldest window first.
pub open spec fn all_messages(windows: Seq<StoredContent>) -> Seq<RawContent>
    decreases windows.len(),
{
    if windows.len() == 0 {
        Seq::empty()
    } else {
        all_messages(windows.drop_last()) + windows.last().messages
    }
}

/// How many bytes the windows keep resident.
pub open spec fn total_bytes(windows: Seq<StoredContent>) -> nat
    decreases windows.len(),
{
    if windows.len() == 0 {
        0
    } else {
        windows[0].resident_bytes + total_bytes(windows.drop_first())
    }
}

/// How many bytes the payloads of messages have together.
pub open spec fn payload_bytes(messages: Seq<RawContent>) -> nat
    decreases messages.len(),
{
    if messages.len() == 0 {
        0
    } else {
        payload_bytes(messages.drop_last()) + messages.last().payload.len()
    }
}

proof fn lemma_payload_bytes_join(first: Seq<RawContent>, second: Seq<RawContent>)
    ensures
        payload_bytes(first + second) == payload_bytes(first) + payload_bytes(second),
    decreases second.len(),
{
    if second.len() == 0 {
        assert(first + second =~= first);
    } else {
        assert((first + second).drop_last() =~= first + second.drop_last());
        lemma_payload_bytes_join(first, second.drop_last());
    }
}

fn payload_count(messages: &Vec<RawMessage>) -> (count: usize)
    ensures
        count == (if payload_bytes(raw::contents(messages@)) > usize::MAX {
            usize::MAX as int
        } else {
            payload_bytes(raw::contents(messages@)) as int
        }),
{
    let ghost all = raw::contents(messages@);
    let mut count: usize = 0;
    let mut index: usize = 0;
    assert(all.take(0) =~= Seq::<RawContent>::empty());
    while index < messages.len()
        invariant
            index <= messages@.len(),
            all == raw::contents(messages@),
            count == (if payload_bytes(all.take(index as int)) > usize::MAX {
                usize::MAX as int
            } else {
                payload_bytes(all.take(index as int)) as int
            }),
        decreases messages@.len() - index,
    {
        count = count.saturating_add(byte_count(&messages[index].payload));
        assert(all.take(index + 1).drop_last() =~= all.take(index as int));
        index = index + 1;
    }
    assert(all.take(all.len() as int) =~= all);
    count
}

/// What a store holds.
pub struct StoreContent {
    pub windows: Seq<StoredContent>,
    pub max_bytes: nat,
    pub complete_until: ArrivalTime,
    pub eviction_count: u64,
}

impl StoreContent {
    /// Valid windows without gaps that end where the data ends, within what can be counted.
    pub open spec fn valid(self) -> bool {
        &&& forall|i: int| 0 <= i < self.windows.len() ==> (#[trigger] self.windows[i]).valid()
        &&& forall|i: int, j: int|
            0 <= i && j == i + 1 && j < self.windows.len() ==> (
            #[trigger] self.windows[i]).range.end_exclusive == (
            #[trigger] self.windows[j]).range.start
        &&& self.windows.len() > 0 ==> self.windows.last().range.end_exclusive
            == self.complete_until
        &&& total_bytes(self.windows) <= usize::MAX
        &&& 0 < self.max_bytes <= usize::MAX
    }

    /// Some window holds the time.
    pub open spec fn covers(self, time: ArrivalTime) -> bool {
        exists|i: int|
            0 <= i < self.windows.len() && (#[trigger] self.windows[i]).range.spec_contains(time)
    }

    /// Why a window is refused, if it is.
    pub open spec fn refusal(self, window: SerializedWindow) -> Option<DataWindowError> {
        if window.fault() is Some {
            window.fault()
        } else if window.range.start != self.complete_until {
            Some(
                DataWindowError::NotAdjacent {
                    start: window.range.start,
                    expected: self.complete_until,
                },
            )
        } else if total_bytes(self.windows) + window.resident_bytes > usize::MAX {
            Some(DataWindowError::ResidentBytesOverflow)
        } else {
            None
        }
    }

    /// The store with one more window behind the others.
    pub open spec fn with_window(self, window: SerializedWindow) -> StoreContent {
        StoreContent {
            windows: self.windows.push(
                StoredContent {
                    range: window.range,
                    messages: raw::contents(window.messages@),
                    resident_bytes: window.resident_bytes as nat,
                    delivered: 0,
                },
            ),
            complete_until: window.range.end_exclusive,
            ..self
        }
    }

    /// The store once every message up to `through` was handed out.
    pub open spec fn taken(self, through: ArrivalTime) -> StoreContent {
        StoreContent {
            windows: self.windows.map_values(
                |stored: StoredContent| handed_out(stored, through),
            ),
            ..self
        }
    }

    /// The store within its budget, as far as the cursor lets it.
    pub open spec fn enforced(self, cursor: ArrivalTime) -> StoreContent {
        self.without_oldest(over_budget(self.windows, self.max_bytes, cursor))
    }

    /// Every message up to `target` is there, or all of them.
    pub open spec fn complete_through(self, target: ArrivalTime, end_exclusive: ArrivalTime) -> bool {
        ||| target.0 < self.complete_until.0
        ||| self.complete_until == end_exclusive && target.0 == time::saturated(end_exclusive.0 - 1)
    }

    /// The store without data, from `start` on.
    pub open spec fn emptied(self, start: ArrivalTime) -> StoreContent {
        StoreContent { windows: Seq::empty(), complete_until: start, ..self }
    }

    /// The store without its `count` oldest windows.
    pub open spec fn without_oldest(self, count: int) -> StoreContent {
        StoreContent {
            windows: self.windows.skip(count),
            eviction_count: if self.eviction_count + count > u64::MAX {
                u64::MAX
            } else {
                (self.eviction_count + count) as u64
            },
            ..self
        }
    }
}

/// How many of the oldest windows end at or before `time`.
pub open spec fn expired(windows: Seq<StoredContent>, time: ArrivalTime) -> int
    decreases windows.len(),
{
    if windows.len() > 0 && windows[0].range.end_exclusive.0 <= time.0 {
        1 + expired(windows.drop_first(), time)
    } else {
        0
    }
}

/// How many of the oldest windows go to meet a budget. The window at the cursor stays, and so
/// does everything behind it.
pub open spec fn over_budget(
    windows: Seq<StoredContent>,
    budget: nat,
    cursor: ArrivalTime,
) -> int
    decreases windows.len(),
{
    if windows.len() > 0 && total_bytes(windows) > budget && !windows[0].range.spec_contains(
        cursor,
    ) {
        1 + over_budget(windows.drop_first(), budget, cursor)
    } else {
        0
    }
}

/// Adjacent windows of serialized messages, with a limit on the bytes that stay resident.
#[derive(Debug)]
pub struct MemoryWindowStore {
    windows: VecDeque<StoredWindow>,
    resident_bytes: usize,
    max_bytes: usize,
    complete_until: ArrivalTime,
    eviction_count: u64,
}

impl StoredWindow {
    spec fn content(self) -> StoredContent {
        StoredContent {
            range: self.window.range,
            messages: raw::contents(self.window.messages@),
            resident_bytes: self.window.resident_bytes as nat,
            delivered: self.next_message as nat,
        }
    }
}

spec fn stored_contents(windows: Seq<StoredWindow>) -> Seq<StoredContent> {
    windows.map_values(|stored: StoredWindow| stored.content())
}

proof fn lemma_total_push(windows: Seq<StoredContent>, last: StoredContent)
    ensures
        total_bytes(windows.push(last)) == total_bytes(windows) + last.resident_bytes,
    decreases windows.len(),
{
    if windows.len() == 0 {
        assert(windows.push(last).drop_first() =~= windows);
    } else {
        lemma_total_push(windows.drop_first(), last);
        assert(windows.push(last).drop_first() =~= windows.drop_first().push(last));
    }
}

proof fn lemma_total_depends_on_sizes(first: Seq<StoredContent>, second: Seq<StoredContent>)
    requires
        first.len() == second.len(),
        forall|i: int|
            0 <= i < first.len() ==> (#[trigger] first[i]).resident_bytes
                == second[i].resident_bytes,
    ensures
        total_bytes(first) == total_bytes(second),
    decreases first.len(),
{
    if first.len() > 0 {
        assert forall|i: int| 0 <= i < first.len() - 1 implies (
        #[trigger] first.drop_first()[i]).resident_bytes
            == second.drop_first()[i].resident_bytes by {
            assert(first[i + 1].resident_bytes == second[i + 1].resident_bytes);
        }
        assert(first[0].resident_bytes == second[0].resident_bytes);
        lemma_total_depends_on_sizes(first.drop_first(), second.drop_first());
    }
}

/// What is reached arrived by the time, and the next message after it.
pub proof fn lemma_reach_is_an_index(messages: Seq<RawContent>, from: int, through: ArrivalTime)
    requires
        0 <= from <= messages.len(),
    ensures
        from <= reach(messages, from, through) <= messages.len(),
        forall|i: int|
            from <= i < reach(messages, from, through) ==> (#[trigger] messages[i]).arrival_time.0
                <= through.0,
        reach(messages, from, through) < messages.len() ==> messages[reach(
            messages,
            from,
            through,
        )].arrival_time.0 > through.0,
    decreases messages.len() - from,
{
    if from < messages.len() && messages[from].arrival_time.0 <= through.0 {
        lemma_reach_is_an_index(messages, from + 1, through);
    }
}

proof fn lemma_oldest_goes(windows: Seq<StoredContent>)
    requires
        windows.len() > 0,
    ensures
        total_bytes(windows) == windows[0].resident_bytes + total_bytes(windows.skip(1)),
        windows.drop_first() =~= windows.skip(1),
{
    assert(windows.drop_first() =~= windows.skip(1));
}

impl MemoryWindowStore {
    pub closed spec fn content(&self) -> StoreContent {
        StoreContent {
            windows: stored_contents(self.windows@),
            max_bytes: self.max_bytes as nat,
            complete_until: self.complete_until,
            eviction_count: self.eviction_count,
        }
    }

    /// The windows are valid and the count of resident bytes is theirs.
    pub closed spec fn well_formed(&self) -> bool {
        self.content().valid() && self.resident_bytes == total_bytes(self.content().windows)
    }

    /// What a well-formed store holds is valid.
    pub proof fn lemma_valid(&self)
        requires
            self.well_formed(),
        ensures
            self.content().valid(),
    {
    }

    pub fn new(start: ArrivalTime, max_bytes: usize) -> (outcome: Result<Self, DataWindowError>)
        ensures
            match outcome {
                Ok(store) => max_bytes > 0 && store.well_formed() && store.content() == (
                StoreContent {
                    windows: Seq::empty(),
                    max_bytes: max_bytes as nat,
                    complete_until: start,
                    eviction_count: 0,
                }),
                Err(error) => max_bytes == 0 && error == DataWindowError::EmptyBudget,
            },
    {
        if max_bytes == 0 {
            return Err(DataWindowError::EmptyBudget);
        }
        let store = MemoryWindowStore {
            windows: VecDeque::new(),
            resident_bytes: 0,
            max_bytes,
            complete_until: start,
            eviction_count: 0,
        };
        assert(store.content().windows =~= Seq::<StoredContent>::empty());
        Ok(store)
    }

    /// Appends a window that starts where the data ends. A refused window changes nothing.
    pub fn insert(&mut self, window: SerializedWindow) -> (outcome: Result<(), DataWindowError>)
        requires
            old(self).well_formed(),
        ensures
            final(self).well_formed(),
            match outcome {
                Ok(_) => old(self).content().refusal(window) is None && final(self).content()
                    == old(self).content().with_window(window),
                Err(error) => old(self).content().refusal(window) == Some(error) && final(
                    self
                ).content() == old(self).content(),
            },
    {
        window.validate()?;
        if window.range.start != self.complete_until {
            return Err(
                DataWindowError::NotAdjacent {
                    start: window.range.start,
                    expected: self.complete_until,
                },
            );
        }
        let resident: usize = match self.resident_bytes.checked_add(window.resident_bytes) {
            Some(resident) => resident,
            None => return Err(DataWindowError::ResidentBytesOverflow),
        };
        proof {
            law_faultless_windows_are_valid(window.range, raw::contents(window.messages@));
        }
        self.resident_bytes = resident;
        self.complete_until = window.range.end_exclusive;
        let stored = StoredWindow { window, next_message: 0 };
        let ghost added = stored.content();
        self.windows.push_back(stored);
        proof {
            let before = old(self).content().windows;
            assert(self.content().windows =~= before.push(added));
            lemma_total_push(before, added);
        }
        Ok(())
    }

    /// Whether some window holds the time.
    pub fn contains(&self, time: ArrivalTime) -> (inside: bool)
        ensures
            inside == self.content().covers(time),
    {
        let mut index: usize = 0;
        while index < self.windows.len()
            invariant
                index <= self.windows@.len(),
                forall|i: int|
                    0 <= i < index ==> !(
                    #[trigger] self.content().windows[i]).range.spec_contains(time),
            decreases self.windows@.len() - index,
        {
            assert(self.content().windows[index as int] == self.windows@[index as int].content());
            if self.windows[index].window.range.contains(time) {
                return true;
            }
            index = index + 1;
        }
        false
    }

    pub fn complete_until(&self) -> (time: ArrivalTime)
        ensures
            time == self.content().complete_until,
    {
        self.complete_until
    }

    /// Whether every message up to `target` is there. At the last instant of the recording, which
    /// its exclusive end cannot pass, data up to that end is enough.
    pub fn is_complete_through(
        &self,
        target: ArrivalTime,
        recording_end_exclusive: ArrivalTime,
    ) -> (complete: bool)
        ensures
            complete == self.content().complete_through(target, recording_end_exclusive),
    {
        target.0 < self.complete_until.0 || (target.0 == saturating_difference(
            recording_end_exclusive.0,
            1,
        )
            && self.complete_until == recording_end_exclusive)
    }

    /// Forgets every window, and starts again at a time.
    pub fn reset(&mut self, start: ArrivalTime)
        requires
            old(self).well_formed(),
        ensures
            final(self).well_formed(),
            final(self).content() == old(self).content().emptied(start),
    {
        self.windows = VecDeque::new();
        self.resident_bytes = 0;
        self.complete_until = start;
        assert(self.content().windows =~= Seq::<StoredContent>::empty());
    }

    /// How many bytes the payloads of all retained messages have together, as far as the type
    /// reaches.
    pub fn logical_payload_bytes(&self) -> (count: usize)
        ensures
            count == (if payload_bytes(all_messages(self.content().windows)) > usize::MAX {
                usize::MAX as int
            } else {
                payload_bytes(all_messages(self.content().windows)) as int
            }),
    {
        let ghost windows = self.content().windows;
        let mut count: usize = 0;
        let mut index: usize = 0;
        assert(windows.take(0) =~= Seq::<StoredContent>::empty());
        while index < self.windows.len()
            invariant
                index <= self.windows@.len(),
                windows == self.content().windows,
                count == (if payload_bytes(all_messages(windows.take(index as int))) > usize::MAX {
                    usize::MAX as int
                } else {
                    payload_bytes(all_messages(windows.take(index as int))) as int
                }),
            decreases self.windows@.len() - index,
        {
            let own: usize = payload_count(&self.windows[index].window.messages);
            count = count.saturating_add(own);
            proof {
                let front = windows.take(index as int);
                let longer = windows.take(index + 1);
                assert(longer.drop_last() =~= front);
                assert(longer.last() == self.windows@[index as int].content());
                lemma_payload_bytes_join(all_messages(front), longer.last().messages);
            }
            index = index + 1;
        }
        assert(windows.take(windows.len() as int) =~= windows);
        count
    }

    pub fn resident_bytes(&self) -> (count: usize)
        requires
            self.well_formed(),
        ensures
            count == total_bytes(self.content().windows),
    {
        self.resident_bytes
    }

    pub fn max_bytes(&self) -> (count: usize)
        ensures
            count == self.content().max_bytes,
    {
        self.max_bytes
    }

    pub fn window_count(&self) -> (count: usize)
        ensures
            count == self.content().windows.len(),
    {
        self.windows.len()
    }

    pub fn eviction_count(&self) -> (count: u64)
        ensures
            count == self.content().eviction_count,
    {
        self.eviction_count
    }

    /// The retained messages that arrived after `after` and not after `through`.
    pub fn messages_through(&self, after: ArrivalTime, through: ArrivalTime) -> (messages: Vec<
        RawMessage,
    >)
        ensures
            raw::contents(messages@) == between(
                all_messages(self.content().windows),
                after,
                through,
            ),
    {
        let mut messages: Vec<RawMessage> = Vec::new();
        let ghost windows = self.content().windows;
        let mut index: usize = 0;
        proof {
            assert(windows.take(0) =~= Seq::<StoredContent>::empty());
            assert(raw::contents(messages@) =~= Seq::<RawContent>::empty());
            assert(between(Seq::<RawContent>::empty(), after, through) =~= Seq::<
                RawContent,
            >::empty()) by {
                reveal(Seq::filter);
            }
        }
        while index < self.windows.len()
            invariant
                index <= self.windows@.len(),
                windows == self.content().windows,
                raw::contents(messages@) == between(
                    all_messages(windows.take(index as int)),
                    after,
                    through,
                ),
            decreases self.windows@.len() - index,
        {
            push_between(&mut messages, &self.windows[index].window.messages, after, through);
            proof {
                let front = windows.take(index as int);
                let longer = windows.take(index + 1);
                assert(longer.drop_last() =~= front);
                assert(longer.last() == self.windows@[index as int].content());
                Seq::filter_distributes_over_add(
                    all_messages(front),
                    longer.last().messages,
                    |message: RawContent| arrived_between(message, after, through),
                );
            }
            index = index + 1;
        }
        assert(windows.take(windows.len() as int) =~= windows);
        messages
    }

    /// Returns each retained message at most once while keeping its payload resident.
    pub fn take_messages_through(&mut self, through: ArrivalTime) -> (messages: Vec<RawMessage>)
        requires
            old(self).well_formed(),
        ensures
            final(self).well_formed(),
            raw::contents(messages@) == all_pending(old(self).content().windows, through),
            final(self).content() == old(self).content().taken(through),
    {
        let mut messages: Vec<RawMessage> = Vec::new();
        let ghost windows = self.content().windows;
        let ghost hand = |stored: StoredContent| handed_out(stored, through);
        let count: usize = self.windows.len();
        let mut index: usize = 0;
        proof {
            assert(windows.take(0) =~= Seq::<StoredContent>::empty());
            assert(windows.skip(0) =~= windows);
            assert(raw::contents(messages@) =~= Seq::<RawContent>::empty());
            assert(stored_contents(self.windows@) =~= windows.skip(0) + windows.take(0).map_values(
                hand,
            ));
        }
        while index < count
            invariant
                index <= count == windows.len(),
                old(self).well_formed(),
                windows == old(self).content().windows,
                hand == (|stored: StoredContent| handed_out(stored, through)),
                self.resident_bytes == old(self).resident_bytes,
                self.max_bytes == old(self).max_bytes,
                self.complete_until == old(self).complete_until,
                self.eviction_count == old(self).eviction_count,
                raw::contents(messages@) == all_pending(windows.take(index as int), through),
                stored_contents(self.windows@) == windows.skip(index as int) + windows.take(
                    index as int,
                ).map_values(hand),
            decreases count - index,
        {
            let ghost rest = stored_contents(self.windows@);
            proof {
                assert(rest.len() == count);
                assert(rest[0] == windows[index as int]);
            }
            if let Some(mut stored) = self.windows.pop_front() {
                proof {
                    assert(rest[0] == stored.content());
                    assert(windows[index as int].valid());
                    assert(stored_contents(self.windows@) =~= rest.skip(1));
                }
                let ghost before = stored.content();
                let end: usize = push_pending(
                    &mut messages,
                    &stored.window.messages,
                    stored.next_message,
                    through,
                );
                stored.next_message = end;
                self.windows.push_back(stored);
                proof {
                    assert(stored.content() == hand(before));
                    let longer = windows.take(index + 1);
                    assert(longer.drop_last() =~= windows.take(index as int));
                    assert(longer.last() == before);
                    assert(longer.map_values(hand) =~= windows.take(index as int).map_values(
                        hand,
                    ).push(hand(before)));
                    assert(stored_contents(self.windows@) =~= rest.skip(1).push(hand(before)));
                    assert(rest.skip(1).push(hand(before)) =~= windows.skip(index + 1)
                        + longer.map_values(hand));
                }
            }
            index = index + 1;
        }
        proof {
            let after = self.content();
            assert(windows.take(count as int) =~= windows);
            assert(after.windows =~= windows.map_values(hand));
            lemma_total_depends_on_sizes(after.windows, windows);
            assert forall|i: int| 0 <= i < after.windows.len() implies (
            #[trigger] after.windows[i]).valid() by {
                assert(windows[i].valid());
                lemma_reach_is_an_index(
                    windows[i].messages,
                    windows[i].delivered as int,
                    through,
                );
            }
            assert forall|i: int, j: int|
                0 <= i && j == i + 1 && j < after.windows.len() implies (
            #[trigger] after.windows[i]).range.end_exclusive == (
            #[trigger] after.windows[j]).range.start by {
                assert(windows[i].range.end_exclusive == windows[j].range.start);
            }
        }
        messages
    }

    /// Drops the oldest windows while they end at or before `time`.
    pub fn evict_before(&mut self, time: ArrivalTime)
        requires
            old(self).well_formed(),
        ensures
            final(self).well_formed(),
            final(self).content() == old(self).content().without_oldest(
                expired(old(self).content().windows, time),
            ),
    {
        let ghost start = self.content();
        let ghost mut gone: int = 0;
        proof {
            assert(start.windows.skip(0) =~= start.windows);
            assert(start.without_oldest(0).windows =~= start.windows);
        }
        while self.windows.len() > 0 && self.windows[0].window.range.end_exclusive.0 <= time.0
            invariant
                self.well_formed(),
                0 <= gone <= start.windows.len(),
                start == old(self).content(),
                self.content() == start.without_oldest(gone),
                expired(start.windows, time) == gone + expired(self.content().windows, time),
            decreases self.windows@.len(),
        {
            let ghost current = self.content();
            proof {
                assert(current.windows[0] == self.windows@[0].content());
                lemma_oldest_goes(current.windows);
            }
            self.evict_front();
            proof {
                assert(start.windows.skip(gone).skip(1) =~= start.windows.skip(gone + 1));
                gone = gone + 1;
                assert(self.content() == start.without_oldest(gone));
            }
        }
        assert(self.content().windows.len() > 0 ==> self.content().windows[0]
            == self.windows@[0].content());
    }

    /// Enforces the budget without removing the cursor window or its immediate successor.
    pub fn enforce_budget(&mut self, cursor: ArrivalTime)
        requires
            old(self).well_formed(),
        ensures
            final(self).well_formed(),
            final(self).content() == old(self).content().enforced(cursor),
    {
        let ghost start = self.content();
        let ghost mut gone: int = 0;
        proof {
            assert(start.windows.skip(0) =~= start.windows);
            assert(start.without_oldest(0).windows =~= start.windows);
        }
        while self.resident_bytes > self.max_bytes && self.windows.len() > 0
            && !self.windows[0].window.range.contains(cursor)
            invariant
                self.well_formed(),
                0 <= gone <= start.windows.len(),
                start == old(self).content(),
                self.content() == start.without_oldest(gone),
                over_budget(start.windows, start.max_bytes, cursor) == gone + over_budget(
                    self.content().windows,
                    start.max_bytes,
                    cursor,
                ),
            decreases self.windows@.len(),
        {
            let ghost current = self.content();
            proof {
                assert(current.windows[0] == self.windows@[0].content());
                lemma_oldest_goes(current.windows);
            }
            self.evict_front();
            proof {
                assert(start.windows.skip(gone).skip(1) =~= start.windows.skip(gone + 1));
                gone = gone + 1;
                assert(self.content() == start.without_oldest(gone));
            }
        }
        assert(self.content().windows.len() > 0 ==> self.content().windows[0]
            == self.windows@[0].content());
    }

    fn evict_front(&mut self)
        requires
            old(self).well_formed(),
            old(self).content().windows.len() > 0,
        ensures
            final(self).well_formed(),
            final(self).content() == old(self).content().without_oldest(1),
    {
        let ghost before = self.content();
        if let Some(stored) = self.windows.pop_front() {
            proof {
                lemma_oldest_goes(before.windows);
                assert(before.windows[0] == stored.content());
                assert(stored_contents(self.windows@) =~= before.windows.skip(1));
            }
            self.resident_bytes = self.resident_bytes.saturating_sub(stored.window.resident_bytes);
            self.eviction_count = self.eviction_count.saturating_add(1);
            proof {
                let after = self.content();
                assert(after.windows =~= before.windows.skip(1));
                assert forall|i: int| 0 <= i < after.windows.len() implies (
                #[trigger] after.windows[i]).valid() by {
                    assert(before.windows[i + 1].valid());
                }
                assert forall|i: int, j: int|
                    0 <= i && j == i + 1 && j < after.windows.len() implies (
                #[trigger] after.windows[i]).range.end_exclusive == (
                #[trigger] after.windows[j]).range.start by {
                    assert(before.windows[i + 1].range.end_exclusive
                        == before.windows[j + 1].range.start);
                }
            }
        }
    }
}

/// Appends the messages of a list that arrived after `after` and not after `through`.
fn push_between(
    output: &mut Vec<RawMessage>,
    list: &Vec<RawMessage>,
    after: ArrivalTime,
    through: ArrivalTime,
)
    ensures
        raw::contents(final(output)@) == raw::contents(old(output)@) + between(
            raw::contents(list@),
            after,
            through,
        ),
{
    let ghost all = raw::contents(list@);
    let ghost chosen = |message: RawContent| arrived_between(message, after, through);
    let mut index: usize = 0;
    proof {
        reveal(Seq::filter);
        assert(all.take(0) =~= Seq::<RawContent>::empty());
        assert(raw::contents(output@) =~= raw::contents(old(output)@) + all.take(0).filter(chosen));
    }
    while index < list.len()
        invariant
            index <= list@.len(),
            all == raw::contents(list@),
            chosen == (|message: RawContent| arrived_between(message, after, through)),
            raw::contents(output@) == raw::contents(old(output)@) + all.take(index as int).filter(
                chosen,
            ),
        decreases list@.len() - index,
    {
        let message: &RawMessage = &list[index];
        let ghost before = output@;
        proof {
            reveal(Seq::filter);
            let longer = all.take(index + 1);
            assert(longer.drop_last() =~= all.take(index as int));
            assert(longer.last() == message@);
        }
        if message.arrival_time.0 > after.0 && message.arrival_time.0 <= through.0 {
            let copy: RawMessage = message.clone();
            output.push(copy);
            assert(raw::contents(output@) =~= raw::contents(before).push(message@));
        }
        assert(raw::contents(output@) =~= raw::contents(old(output)@) + all.take(
            index + 1,
        ).filter(chosen));
        index = index + 1;
    }
    assert(all.take(all.len() as int) =~= all);
}

/// Appends the messages from `from` on up to the first that arrived after `through`, and returns
/// its index.
fn push_pending(
    output: &mut Vec<RawMessage>,
    list: &Vec<RawMessage>,
    from: usize,
    through: ArrivalTime,
) -> (end: usize)
    requires
        from <= list@.len(),
    ensures
        end == reach(raw::contents(list@), from as int, through),
        from <= end <= list@.len(),
        raw::contents(final(output)@) == raw::contents(old(output)@) + raw::contents(
            list@,
        ).subrange(from as int, end as int),
{
    let ghost all = raw::contents(list@);
    let mut end: usize = from;
    assert(raw::contents(output@) =~= raw::contents(old(output)@) + all.subrange(
        from as int,
        from as int,
    ));
    while end < list.len() && list[end].arrival_time.0 <= through.0
        invariant
            from <= end <= list@.len(),
            all == raw::contents(list@),
            reach(all, from as int, through) == reach(all, end as int, through),
            raw::contents(output@) == raw::contents(old(output)@) + all.subrange(
                from as int,
                end as int,
            ),
        decreases list@.len() - end,
    {
        let ghost before = output@;
        let copy: RawMessage = list[end].clone();
        output.push(copy);
        proof {
            assert(all[end as int] == list@[end as int]@);
            assert(raw::contents(output@) =~= raw::contents(before).push(all[end as int]));
            assert(all.subrange(from as int, end + 1) =~= all.subrange(
                from as int,
                end as int,
            ).push(all[end as int]));
            assert(raw::contents(output@) =~= raw::contents(old(output)@) + all.subrange(
                from as int,
                end + 1,
            ));
        }
        end = end + 1;
    }
    assert(end < list@.len() ==> all[end as int] == list@[end as int]@);
    end
}

/// What a store hands out up to a time is handed out once: asking again for that time, or for any
/// earlier one, gives nothing.
pub proof fn law_messages_are_taken_once(
    windows: Seq<StoredContent>,
    through: ArrivalTime,
    again: ArrivalTime,
)
    requires
        forall|i: int| 0 <= i < windows.len() ==> (#[trigger] windows[i]).valid(),
        again.0 <= through.0,
    ensures
        all_pending(
            windows.map_values(|stored: StoredContent| handed_out(stored, through)),
            again,
        ) == Seq::<RawContent>::empty(),
    decreases windows.len(),
{
    let hand = |stored: StoredContent| handed_out(stored, through);
    if windows.len() > 0 {
        let front = windows.drop_last();
        assert forall|i: int| 0 <= i < front.len() implies (#[trigger] front[i]).valid() by {
            assert(windows[i].valid());
        }
        law_messages_are_taken_once(front, through, again);
        assert(windows.map_values(hand).drop_last() =~= front.map_values(hand));
        let last = windows.last();
        assert(windows[windows.len() - 1].valid());
        lemma_reach_is_an_index(last.messages, last.delivered as int, through);
        assert(windows.map_values(hand).last() == hand(last));
        assert(pending(hand(last), again) =~= Seq::<RawContent>::empty());
    }
}

/// Nothing that should be handed out stays behind: a message of a valid window that was not yet
/// handed out and arrived by `through` is among the pending ones, and the pending ones are just
/// those.
pub proof fn law_pending_is_complete(stored: StoredContent, through: ArrivalTime)
    requires
        stored.valid(),
    ensures
        forall|i: int|
            stored.delivered <= i < stored.messages.len() ==> ((
            #[trigger] stored.messages[i]).arrival_time.0 <= through.0 <==> i < stored.delivered
                + pending(stored, through).len()),
{
    let from = stored.delivered as int;
    let end = reach(stored.messages, from, through);
    lemma_reach_is_an_index(stored.messages, from, through);
    assert forall|i: int| from <= i < stored.messages.len() implies ((
    #[trigger] stored.messages[i]).arrival_time.0 <= through.0 <==> i < end) by {
        if i >= end {
            assert(raw::not_after(stored.messages[end], stored.messages[i]));
        }
    }
}

/// What a store without gaps hands out is in order.
pub proof fn law_taken_messages_are_ordered(store: StoreContent, through: ArrivalTime)
    requires
        store.valid(),
        forall|i: int|
            0 <= i < store.windows.len() ==> (#[trigger] store.windows[i]).range.start.0
                < store.windows[i].range.end_exclusive.0,
    ensures
        raw::ordered(all_pending(store.windows, through)),
{
    lemma_pending_prefix_ordered(store, through, store.windows.len() as int);
    assert(store.windows.take(store.windows.len() as int) =~= store.windows);
}

proof fn lemma_pending_prefix_ordered(store: StoreContent, through: ArrivalTime, count: int)
    requires
        store.valid(),
        0 <= count <= store.windows.len(),
        forall|i: int|
            0 <= i < store.windows.len() ==> (#[trigger] store.windows[i]).range.start.0
                < store.windows[i].range.end_exclusive.0,
    ensures
        raw::ordered(all_pending(store.windows.take(count), through)),
        count > 0 ==> forall|k: int|
            0 <= k < all_pending(store.windows.take(count), through).len() ==> (
            #[trigger] all_pending(store.windows.take(count), through)[k]).arrival_time.0
                < store.windows[count - 1].range.end_exclusive.0,
    decreases count,
{
    if count > 0 {
        lemma_pending_prefix_ordered(store, through, count - 1);
        let front = all_pending(store.windows.take(count - 1), through);
        let last = store.windows[count - 1];
        assert(store.windows.take(count).drop_last() =~= store.windows.take(count - 1));
        assert(last.valid());
        lemma_reach_is_an_index(last.messages, last.delivered as int, through);
        let tail = pending(last, through);
        let all = front + tail;
        assert(all == all_pending(store.windows.take(count), through));
        assert forall|k: int| 0 <= k < tail.len() implies last.range.spec_contains(
            (#[trigger] tail[k]).arrival_time,
        ) by {
            assert(tail[k] == last.messages[last.delivered + k]);
        }
        assert forall|k: int| 0 <= k < front.len() implies (
        #[trigger] front[k]).arrival_time.0 < last.range.start.0 by {
            if count >= 2 {
                assert(store.windows[count - 2].range.end_exclusive
                    == store.windows[count - 1].range.start);
            }
        }
        assert forall|i: int, j: int| 0 <= i <= j < all.len() implies raw::not_after(
            #[trigger] all[i],
            #[trigger] all[j],
        ) by {
            if j < front.len() {
                assert(raw::not_after(front[i], front[j]));
            } else if i >= front.len() {
                let a = i - front.len();
                let b = j - front.len();
                assert(tail[a] == last.messages[last.delivered + a]);
                assert(tail[b] == last.messages[last.delivered + b]);
                assert(raw::not_after(
                    last.messages[last.delivered + a],
                    last.messages[last.delivered + b],
                ));
            } else {
                let b = j - front.len();
                assert(front[i].arrival_time.0 < last.range.start.0);
                assert(last.range.spec_contains(tail[b].arrival_time));
            }
        }
        assert forall|k: int| 0 <= k < all.len() implies (#[trigger] all[k]).arrival_time.0
            < last.range.end_exclusive.0 by {
            if k < front.len() {
                assert(front[k].arrival_time.0 < last.range.start.0);
            } else {
                assert(last.range.spec_contains(tail[k - front.len()].arrival_time));
            }
        }
    }
}

/// Meeting a budget keeps the window at the cursor and every window behind it, and stops as soon
/// as the budget is met, where it can be.
pub proof fn law_budget_protects_the_cursor(
    windows: Seq<StoredContent>,
    budget: nat,
    cursor: ArrivalTime,
)
    ensures
        0 <= over_budget(windows, budget, cursor) <= windows.len(),
        forall|i: int|
            0 <= i < windows.len() && (#[trigger] windows[i]).range.spec_contains(cursor)
                ==> over_budget(windows, budget, cursor) <= i,
        (forall|i: int|
            0 <= i < windows.len() ==> !(#[trigger] windows[i]).range.spec_contains(cursor))
            ==> total_bytes(windows.skip(over_budget(windows, budget, cursor))) <= budget,
    decreases windows.len(),
{
    let gone = over_budget(windows, budget, cursor);
    if windows.len() > 0 && total_bytes(windows) > budget && !windows[0].range.spec_contains(
        cursor,
    ) {
        let rest = windows.drop_first();
        law_budget_protects_the_cursor(rest, budget, cursor);
        assert forall|i: int|
            0 <= i < windows.len() && (#[trigger] windows[i]).range.spec_contains(
                cursor,
            ) implies gone <= i by {
            assert(rest[i - 1] == windows[i]);
        }
        assert(rest.skip(gone - 1) =~= windows.skip(gone));
        if forall|i: int|
            0 <= i < windows.len() ==> !(#[trigger] windows[i]).range.spec_contains(cursor) {
            assert forall|i: int| 0 <= i < rest.len() implies !(
            #[trigger] rest[i]).range.spec_contains(cursor) by {
                assert(!windows[i + 1].range.spec_contains(cursor));
            }
        }
    } else {
        assert(windows.skip(0) =~= windows);
    }
}

/// A range holds its start and everything before its end.
pub proof fn law_ranges_end_before_their_end(range: TimeRange, time: ArrivalTime)
    ensures
        range.start.0 < range.end_exclusive.0 ==> range.spec_contains(range.start),
        !range.spec_contains(range.end_exclusive),
        range.spec_contains(time) ==> range.start.0 <= time.0 && time.0 < range.end_exclusive.0,
        range.start.0 <= time.0 && time.0 < range.end_exclusive.0 ==> range.spec_contains(time),
{
}

/// A store takes a valid window that starts where its data ends, as far as bytes can be counted, and no
/// other. Its data then ends where the window ends, and all of the window is still to be handed out.
pub proof fn law_windows_join_the_data(store: StoreContent, window: SerializedWindow)
    requires
        window.fault() is None,
        total_bytes(store.windows) + window.resident_bytes <= usize::MAX,
    ensures
        store.refusal(window) is None <==> window.range.start == store.complete_until,
        ({
            let after = store.with_window(window);
            &&& after.complete_until == window.range.end_exclusive
            &&& after.windows.len() == store.windows.len() + 1
            &&& after.windows.drop_last() == store.windows
            &&& after.windows.last().messages == raw::contents(window.messages@)
            &&& after.windows.last().delivered == 0
            &&& after.windows.last().range == window.range
        }),
{
    assert(store.with_window(window).windows.drop_last() =~= store.windows);
}

/// Only the oldest windows go, none while the budget is met, and each that goes is counted.
pub proof fn law_only_the_oldest_windows_go(store: StoreContent, cursor: ArrivalTime)
    requires
        store.eviction_count + store.windows.len() <= u64::MAX,
    ensures
        ({
            let after = store.enforced(cursor);
            let gone = store.windows.len() - after.windows.len();
            &&& gone >= 0
            &&& after.windows == store.windows.skip(gone)
            &&& after.eviction_count == store.eviction_count + gone
            &&& after.complete_until == store.complete_until
            &&& total_bytes(store.windows) <= store.max_bytes ==> gone == 0
            &&& gone > 0 ==> total_bytes(store.windows.skip(gone - 1)) > store.max_bytes
        }),
{
    law_budget_protects_the_cursor(store.windows, store.max_bytes, cursor);
    lemma_last_to_go(store.windows, store.max_bytes, cursor);
}

proof fn lemma_last_to_go(windows: Seq<StoredContent>, budget: nat, cursor: ArrivalTime)
    ensures
        over_budget(windows, budget, cursor) > 0 ==> total_bytes(
            windows.skip(over_budget(windows, budget, cursor) - 1),
        ) > budget,
    decreases windows.len(),
{
    let gone = over_budget(windows, budget, cursor);
    if gone == 1 {
        assert(windows.skip(0) =~= windows);
    } else if gone > 1 {
        law_budget_protects_the_cursor(windows, budget, cursor);
        lemma_last_to_go(windows.drop_first(), budget, cursor);
        assert(windows.drop_first().skip(gone - 2) =~= windows.skip(gone - 1));
    }
}

/// Data is complete through every time before its end, and through no later one, unless it reaches the
/// end of the recording: then the last time of all is there too.
pub proof fn law_complete_data_reaches_its_end(
    store: StoreContent,
    target: ArrivalTime,
    end_exclusive: ArrivalTime,
)
    requires
        i64::MIN < end_exclusive.0,
        store.complete_until.0 <= end_exclusive.0,
    ensures
        store.complete_through(target, end_exclusive) <==> target.0 < store.complete_until.0,
{
}

} // verus!

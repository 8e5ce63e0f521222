//! Bounded queries for every message of some streams within a range.

use super::{
    stream_known, CursorContent, FileContent, McapFile, McapOpenError, McapSource, ReadCursor,
    SourceContent, SourceFault,
};
use crate::message::payload::byte_count;
use crate::message::text::{self, push_decimal};
use crate::message::time::ArrivalTime;
use crate::playback::data_window::{self, TimeRange};
use crate::recording::mcap_facts::{self, ChunkContent, ChunkMessageContent};
use crate::recording::mcap_source;
use crate::recording::raw::{
    self, copy_streams, retain_streams, RawContent, RawMessage, StreamId,
};
use vstd::prelude::*;
use vstd::string::*;

verus! {

/// How much a query may return.
#[derive(Clone, Copy, Debug, Eq, PartialEq, Structural)]
pub struct QueryLimits {
    pub max_messages: usize,
    pub max_payload_bytes: usize,
}

/// A query for every message of some streams within a range.
#[derive(Clone, Debug, Eq, PartialEq)]
pub struct RangeQuery {
    pub streams: Vec<StreamId>,
    pub range: TimeRange,
    pub limits: QueryLimits,
}

/// The messages that were found, and whether there are no more.
#[derive(Debug)]
pub struct RangeQueryResult {
    pub messages: Vec<RawMessage>,
    pub payload_bytes: usize,
    pub complete: bool,
}

/// What a result holds.
pub struct QueryContent {
    pub messages: Seq<RawContent>,
    pub payload_bytes: nat,
    pub complete: bool,
}

impl View for RangeQueryResult {
    type V = QueryContent;

    open spec fn view(&self) -> QueryContent {
        QueryContent {
            messages: raw::contents(self.messages@),
            payload_bytes: self.payload_bytes as nat,
            complete: self.complete,
        }
    }
}

/// Why a query cannot be answered.
#[derive(Debug)]
pub enum RangeQueryError {
    Invalid(String),
    Source(McapOpenError),
}

/// What a `RangeQueryError` says.
pub enum QueryFault {
    Invalid(Seq<char>),
    Source(SourceFault),
}

impl View for RangeQueryError {
    type V = QueryFault;

    open spec fn view(&self) -> QueryFault {
        match *self {
            RangeQueryError::Invalid(message) => QueryFault::Invalid(message@),
            RangeQueryError::Source(error) => QueryFault::Source(error@),
        }
    }
}

impl RangeQueryError {
    /// The error as a sentence for the user.
    pub fn message(&self) -> (sentence: String)
        ensures
            match self@ {
                QueryFault::Invalid(message) => sentence@ == message,
                QueryFault::Source(fault) => exists|words: Seq<char>|
                    sentence@ == #[trigger] McapOpenError::spec_message(fault, words),
            },
    {
        match self {
            RangeQueryError::Invalid(message) => message.as_str().to_owned(),
            RangeQueryError::Source(error) => error.message(),
        }
    }
}

impl QueryLimits {
    /// Limits that let something through.
    pub fn new(max_messages: usize, max_payload_bytes: usize) -> (outcome: Result<
        Self,
        RangeQueryError,
    >)
        ensures
            match outcome {
                Ok(limits) => max_messages > 0 && max_payload_bytes > 0 && limits == (QueryLimits {
                    max_messages,
                    max_payload_bytes,
                }),
                Err(error) => (max_messages == 0 || max_payload_bytes == 0) && error@
                    == QueryFault::Invalid("range query limits must be non-zero"@),
            },
    {
        if max_messages == 0 || max_payload_bytes == 0 {
            return Err(
                RangeQueryError::Invalid("range query limits must be non-zero".to_owned()),
            );
        }
        Ok(QueryLimits { max_messages, max_payload_bytes })
    }
}

/// What a query finds from a cursor on, once it has found `count` messages of `total` bytes. It
/// ends at the first message behind the range, or before the first that is over a limit.
pub open spec fn collected(
    file: FileContent,
    streams: Seq<StreamId>,
    cursor: CursorContent,
    end_exclusive: ArrivalTime,
    limits: QueryLimits,
    count: nat,
    total: nat,
) -> Result<QueryContent, QueryFault>
    decreases
            (if cursor.chunk is Some {
                file.chunk_count() - cursor.chunk->Some_0
            } else {
                0
            }),
            cursor.cache.len() - cursor.position,
{
    if cursor.position < cursor.cache.len() {
        let message = cursor.cache[cursor.position as int];
        let grown = total + message.payload.len();
        if message.arrival_time.0 >= end_exclusive.0 {
            Ok(QueryContent { messages: Seq::empty(), payload_bytes: total, complete: true })
        } else if grown > usize::MAX {
            Err(QueryFault::Invalid("range query payload size overflow"@))
        } else if count == limits.max_messages || grown > limits.max_payload_bytes {
            Ok(QueryContent { messages: Seq::empty(), payload_bytes: total, complete: false })
        } else {
            match collected(
                file,
                streams,
                CursorContent { position: cursor.position + 1, ..cursor },
                end_exclusive,
                limits,
                count + 1,
                grown,
            ) {
                Err(fault) => Err(fault),
                Ok(rest) => Ok(
                    QueryContent { messages: seq![message] + rest.messages, ..rest },
                ),
            }
        }
    } else if cursor.chunk is None || cursor.chunk->Some_0 + 1 >= file.chunk_count() {
        Ok(QueryContent { messages: Seq::empty(), payload_bytes: total, complete: true })
    } else {
        let next = cursor.chunk->Some_0 + 1;
        match mcap_source::chunk_kept(
            file.bytes,
            file.summary->Some_0,
            next as int,
            Some(streams),
        ) {
            Err(fault) => Err(QueryFault::Source(fault)),
            Ok(cache) => collected(
                file,
                streams,
                CursorContent::at_chunk(cache, next),
                end_exclusive,
                limits,
                count,
                total,
            ),
        }
    }
}

/// A query finds no more than its limits, counts the bytes of what it finds, and finds nothing
/// behind its range.
pub proof fn law_queries_keep_their_limits(
    file: FileContent,
    streams: Seq<StreamId>,
    cursor: CursorContent,
    end_exclusive: ArrivalTime,
    limits: QueryLimits,
    count: nat,
    total: nat,
)
    requires
        count <= limits.max_messages,
        total <= limits.max_payload_bytes,
    ensures
        collected(file, streams, cursor, end_exclusive, limits, count, total) matches Ok(found)
            ==> {
            &&& count + found.messages.len() <= limits.max_messages
            &&& found.payload_bytes <= limits.max_payload_bytes
            &&& found.payload_bytes == total + data_window::payload_bytes(found.messages)
            &&& forall|i: int|
                0 <= i < found.messages.len() ==> (#[trigger] found.messages[i]).arrival_time.0
                    < end_exclusive.0
        },
    decreases
            (if cursor.chunk is Some {
                file.chunk_count() - cursor.chunk->Some_0
            } else {
                0
            }),
            cursor.cache.len() - cursor.position,
{
    if cursor.position < cursor.cache.len() {
        let message = cursor.cache[cursor.position as int];
        let grown = total + message.payload.len();
        let next = CursorContent { position: cursor.position + 1, ..cursor };
        if message.arrival_time.0 < end_exclusive.0 && grown <= limits.max_payload_bytes && count
            < limits.max_messages {
            law_queries_keep_their_limits(
                file,
                streams,
                next,
                end_exclusive,
                limits,
                count + 1,
                grown,
            );
            if let Ok(rest) = collected(
                file,
                streams,
                next,
                end_exclusive,
                limits,
                count + 1,
                grown,
            ) {
                lemma_payload_of_first(message, rest.messages);
                let all = seq![message] + rest.messages;
                assert forall|i: int| 0 <= i < all.len() implies (
                #[trigger] all[i]).arrival_time.0 < end_exclusive.0 by {
                    if i > 0 {
                        assert(all[i] == rest.messages[i - 1]);
                    }
                }
            }
        }
    } else if cursor.chunk is Some && cursor.chunk->Some_0 + 1 < file.chunk_count() {
        let next = cursor.chunk->Some_0 + 1;
        if let Ok(cache) = mcap_source::chunk_kept(
            file.bytes,
            file.summary->Some_0,
            next as int,
            Some(streams),
        ) {
            law_queries_keep_their_limits(
                file,
                streams,
                CursorContent::at_chunk(cache, next),
                end_exclusive,
                limits,
                count,
                total,
            );
        }
    }
}

proof fn lemma_payload_of_first(message: RawContent, rest: Seq<RawContent>)
    ensures
        data_window::payload_bytes(seq![message] + rest) == message.payload.len()
            + data_window::payload_bytes(rest),
    decreases rest.len(),
{
    let all = seq![message] + rest;
    assert(all.len() == rest.len() + 1);
    if rest.len() == 0 {
        assert(data_window::payload_bytes(all.drop_last()) == 0);
        assert(all.last() == message);
    } else {
        assert(all.last() == rest.last());
        assert(all.drop_last() =~= seq![message] + rest.drop_last());
        lemma_payload_of_first(message, rest.drop_last());
    }
}

/// Where a query of a file without chunks looks: at the messages of its streams.
pub open spec fn linear_of(bytes: Seq<u8>, streams: Seq<StreamId>) -> Result<
    Seq<RawContent>,
    SourceFault,
> {
    match mcap_source::linear_kept(bytes, None) {
        Err(fault) => Err(fault),
        Ok(all) => Ok(all.filter(|message: RawContent| streams.contains(message.stream_id))),
    }
}

impl SourceContent {
    /// The first stream that the catalog does not know.
    pub open spec fn first_unknown(self, streams: Seq<StreamId>) -> Option<StreamId>
        decreases streams.len(),
    {
        if streams.len() == 0 {
            None
        } else if !mcap_source::known(self.streams, streams[0]) {
            Some(streams[0])
        } else {
            self.first_unknown(streams.drop_first())
        }
    }

    /// Where a query starts.
    pub open spec fn query_start(self, streams: Seq<StreamId>, start: ArrivalTime) -> Result<
        CursorContent,
        SourceFault,
    > {
        let loaded = if self.file.chunked() {
            Ok(Seq::empty())
        } else {
            linear_of(self.file.bytes, streams)
        };
        match loaded {
            Err(fault) => Err(fault),
            Ok(loaded) => mcap_source::sought(self.file, Some(streams), loaded, start),
        }
    }

    /// What a query finds. Where sequential reading stands does not matter.
    pub open spec fn queried(
        self,
        streams: Seq<StreamId>,
        range: TimeRange,
        limits: QueryLimits,
    ) -> Result<QueryContent, QueryFault> {
        if streams.len() == 0 {
            Err(QueryFault::Invalid("range query requires at least one stream"@))
        } else if limits.max_messages == 0 || limits.max_payload_bytes == 0 {
            Err(QueryFault::Invalid("range query limits must be non-zero"@))
        } else {
            match self.first_unknown(streams) {
                Some(unknown) => Err(
                    QueryFault::Invalid(
                        "range query references unknown stream "@ + text::decimal(
                            unknown.0 as nat,
                        ),
                    ),
                ),
                None => match self.query_start(streams, range.start) {
                    Err(fault) => Err(QueryFault::Source(fault)),
                    Ok(cursor) => collected(
                        self.file,
                        streams,
                        cursor,
                        range.end_exclusive,
                        limits,
                        0,
                        0,
                    ),
                },
            }
        }
    }
}

/// Of the wanted messages of a chunk, none arrived after the time at which the file says it ends.
pub open spec fn ends_in_time(file: FileContent, streams: Seq<StreamId>, index: int) -> bool {
    let summary = file.summary->Some_0;
    let end = mcap_source::arrival_capped(summary.chunks[index].message_end_time);
    mcap_source::chunk_kept(file.bytes, summary, index, Some(streams)) matches Ok(cache) ==> forall|
        i: int,
    |
        0 <= i < cache.len() ==> (#[trigger] cache[i]).arrival_time.0 <= end.0
}

/// Of the wanted messages of a chunk, none arrived before the time at which the file says an earlier
/// one ends.
pub open spec fn starts_behind(
    file: FileContent,
    streams: Seq<StreamId>,
    earlier: int,
    index: int,
) -> bool {
    let summary = file.summary->Some_0;
    let end = mcap_source::arrival_capped(summary.chunks[earlier].message_end_time);
    mcap_source::chunk_kept(file.bytes, summary, index, Some(streams)) matches Ok(cache) ==> forall|
        i: int,
    |
        0 <= i < cache.len() ==> (#[trigger] cache[i]).arrival_time.0 >= end.0
}

/// The chunks of a file are in order of time, and end when the file says.
pub open spec fn chunks_in_order(file: FileContent, streams: Seq<StreamId>) -> bool {
    &&& forall|index: int|
        0 <= index < file.chunk_count() ==> #[trigger] ends_in_time(file, streams, index)
    &&& forall|earlier: int, index: int|
        0 <= earlier < index < file.chunk_count() ==> #[trigger] starts_behind(
            file,
            streams,
            earlier,
            index,
        )
}

/// The wanted messages of a chunk, if it can be read.
pub open spec fn chunk_wanted(file: FileContent, streams: Seq<StreamId>, index: int) -> Seq<
    RawContent,
> {
    match mcap_source::chunk_kept(file.bytes, file.summary->Some_0, index, Some(streams)) {
        Ok(cache) => cache,
        Err(_) => Seq::empty(),
    }
}

/// The wanted messages of the chunks of a file from one on.
pub open spec fn chunks_from(file: FileContent, streams: Seq<StreamId>, from: int) -> Seq<
    RawContent,
>
    decreases file.chunk_count() - from,
{
    if from >= file.chunk_count() {
        Seq::empty()
    } else {
        chunk_wanted(file, streams, from) + chunks_from(file, streams, from + 1)
    }
}

/// The messages of some streams that can be read of a file, in order of time within each chunk, or
/// as a whole where there are no chunks.
pub open spec fn messages_of(file: FileContent, streams: Seq<StreamId>) -> Seq<RawContent> {
    if file.chunked() {
        chunks_from(file, streams, 0)
    } else {
        match linear_of(file.bytes, streams) {
            Ok(all) => all,
            Err(_) => Seq::empty(),
        }
    }
}

/// The messages that arrived in a range.
pub open spec fn in_range(messages: Seq<RawContent>, range: TimeRange) -> Seq<RawContent> {
    messages.filter(|message: RawContent| range.spec_contains(message.arrival_time))
}

/// The messages that arrived before a time.
spec fn earlier_than(messages: Seq<RawContent>, end: ArrivalTime) -> Seq<RawContent> {
    messages.filter(|message: RawContent| message.arrival_time.0 < end.0)
}

/// The messages that a cursor has before it.
spec fn ahead(file: FileContent, streams: Seq<StreamId>, cursor: CursorContent) -> Seq<RawContent> {
    cursor.cache.skip(cursor.position as int) + match cursor.chunk {
        Some(chunk) => chunks_from(file, streams, chunk as int + 1),
        None => Seq::empty(),
    }
}

proof fn lemma_chunks_from_start_behind(
    file: FileContent,
    streams: Seq<StreamId>,
    earlier: int,
    from: int,
)
    requires
        chunks_in_order(file, streams),
        0 <= earlier < from,
        earlier < file.chunk_count(),
    ensures
        forall|i: int|
            0 <= i < chunks_from(file, streams, from).len() ==> (
            #[trigger] chunks_from(file, streams, from)[i]).arrival_time.0
                >= mcap_source::arrival_capped(
                file.summary->Some_0.chunks[earlier].message_end_time,
            ).0,
    decreases file.chunk_count() - from,
{
    if from < file.chunk_count() {
        lemma_chunks_from_start_behind(file, streams, earlier, from + 1);
        assert(starts_behind(file, streams, earlier, from));
        let own = chunk_wanted(file, streams, from);
        let rest = chunks_from(file, streams, from + 1);
        let all = chunks_from(file, streams, from);
        let end = mcap_source::arrival_capped(
            file.summary->Some_0.chunks[earlier].message_end_time,
        );
        assert forall|i: int| 0 <= i < all.len() implies (
        #[trigger] all[i]).arrival_time.0 >= end.0 by {
            if i < own.len() {
                assert(all[i] == own[i]);
            } else {
                assert(all[i] == rest[i - own.len()]);
            }
        }
    }
}

#[verifier::rlimit(60)]
proof fn lemma_collected_is_exact(
    file: FileContent,
    streams: Seq<StreamId>,
    cursor: CursorContent,
    end_exclusive: ArrivalTime,
    limits: QueryLimits,
    count: nat,
    total: nat,
)
    requires
        chunks_in_order(file, streams),
        cursor.valid(),
        cursor.chunk matches Some(chunk) ==> chunk < file.chunk_count() && mcap_source::chunk_kept(
            file.bytes,
            file.summary->Some_0,
            chunk as int,
            Some(streams),
        ) == Ok::<Seq<RawContent>, SourceFault>(cursor.cache),
    ensures
        collected(file, streams, cursor, end_exclusive, limits, count, total) matches Ok(found)
            ==> found.complete ==> found.messages == earlier_than(
            ahead(file, streams, cursor),
            end_exclusive,
        ),
    decreases
            (if cursor.chunk is Some {
                file.chunk_count() - cursor.chunk->Some_0
            } else {
                0
            }),
            cursor.cache.len() - cursor.position,
{
    reveal(Seq::filter);
    let keep = |message: RawContent| message.arrival_time.0 < end_exclusive.0;
    let left = ahead(file, streams, cursor);
    let own = cursor.cache.skip(cursor.position as int);
    if cursor.position < cursor.cache.len() {
        let message = cursor.cache[cursor.position as int];
        let next = CursorContent { position: cursor.position + 1, ..cursor };
        if message.arrival_time.0 >= end_exclusive.0 {
            if let Some(chunk) = cursor.chunk {
                assert(ends_in_time(file, streams, chunk as int));
                let cache = mcap_source::chunk_kept(
                    file.bytes,
                    file.summary->Some_0,
                    chunk as int,
                    Some(streams),
                )->Ok_0;
                assert(cache == cursor.cache);
                assert(cache[cursor.position as int] == message);
                assert(cache[cursor.position as int].arrival_time.0 <= mcap_source::arrival_capped(
                    file.summary->Some_0.chunks[chunk as int].message_end_time,
                ).0);
                lemma_chunks_from_start_behind(file, streams, chunk as int, chunk as int + 1);
            } else {
                assert(left =~= own);
            }
            assert forall|i: int| 0 <= i < left.len() implies !keep(#[trigger] left[i]) by {
                if i < own.len() {
                    assert(left[i] == cursor.cache[cursor.position + i]);
                    assert(raw::not_after(
                        cursor.cache[cursor.position as int],
                        cursor.cache[cursor.position + i],
                    ));
                } else {
                    let chunk = cursor.chunk->Some_0 as int;
                    let behind = chunks_from(file, streams, chunk + 1);
                    assert(left[i] == behind[i - own.len()]);
                }
            }
            raw::lemma_none_kept(left, keep);
        } else {
            lemma_collected_is_exact(
                file,
                streams,
                next,
                end_exclusive,
                limits,
                count + 1,
                total + message.payload.len(),
            );
            let rest = ahead(file, streams, next);
            assert(left =~= seq![message] + rest);
            Seq::filter_distributes_over_add(seq![message], rest, keep);
            assert(seq![message].drop_last() =~= Seq::empty());
            assert(seq![message].filter(keep) =~= seq![message]);
        }
    } else if cursor.chunk is None || cursor.chunk->Some_0 + 1 >= file.chunk_count() {
        assert(left =~= Seq::empty());
    } else {
        let next = cursor.chunk->Some_0 + 1;
        if let Ok(cache) = mcap_source::chunk_kept(
            file.bytes,
            file.summary->Some_0,
            next as int,
            Some(streams),
        ) {
            mcap_source::lemma_chunks_are_ordered(file, Some(streams), next as int);
            let behind = CursorContent::at_chunk(cache, next);
            lemma_collected_is_exact(
                file,
                streams,
                behind,
                end_exclusive,
                limits,
                count,
                total,
            );
            assert(cache.skip(0) =~= cache);
            assert(left =~= ahead(file, streams, behind));
        }
    }
}

proof fn lemma_ended(chunks: Seq<ChunkContent>, time: ArrivalTime)
    ensures
        mcap_source::ended(chunks, time) <= chunks.len(),
        forall|i: int|
            0 <= i < mcap_source::ended(chunks, time) ==> mcap_source::arrival_capped(
                (#[trigger] chunks[i]).message_end_time,
            ).0 < time.0,
        mcap_source::ended(chunks, time) < chunks.len() ==> mcap_source::arrival_capped(
            chunks[mcap_source::ended(chunks, time) as int].message_end_time,
        ).0 >= time.0,
    decreases chunks.len(),
{
    if chunks.len() > 0 && mcap_source::arrival_capped(chunks[0].message_end_time).0 < time.0 {
        let rest = chunks.drop_first();
        lemma_ended(rest, time);
        assert forall|i: int| 0 <= i < mcap_source::ended(chunks, time) implies
            mcap_source::arrival_capped((#[trigger] chunks[i]).message_end_time).0 < time.0 by {
            if i > 0 {
                assert(rest[i - 1] == chunks[i]);
            }
        }
    }
}

/// The chunks that end before a range hold nothing of it.
proof fn lemma_ended_hold_nothing(
    file: FileContent,
    streams: Seq<StreamId>,
    range: TimeRange,
    from: int,
    to: int,
)
    requires
        chunks_in_order(file, streams),
        file.chunked(),
        0 <= from <= to <= mcap_source::ended(file.summary->Some_0.chunks, range.start),
    ensures
        in_range(chunks_from(file, streams, from), range) == in_range(
            chunks_from(file, streams, to),
            range,
        ),
    decreases to - from,
{
    let chunks = file.summary->Some_0.chunks;
    lemma_ended(chunks, range.start);
    if from < to {
        let keep = |message: RawContent| range.spec_contains(message.arrival_time);
        let own = chunk_wanted(file, streams, from);
        let rest = chunks_from(file, streams, from + 1);
        assert(ends_in_time(file, streams, from));
        raw::lemma_none_kept(own, keep);
        Seq::filter_distributes_over_add(own, rest, keep);
        assert(Seq::<RawContent>::empty() + rest.filter(keep) =~= rest.filter(keep));
        lemma_ended_hold_nothing(file, streams, range, from + 1, to);
    }
}

proof fn lemma_same_filter(
    messages: Seq<RawContent>,
    one: spec_fn(RawContent) -> bool,
    other: spec_fn(RawContent) -> bool,
)
    requires
        forall|i: int| 0 <= i < messages.len() ==> one(#[trigger] messages[i]) == other(messages[i]),
    ensures
        messages.filter(one) == messages.filter(other),
    decreases messages.len(),
{
    reveal(Seq::filter);
    if messages.len() > 0 {
        let front = messages.drop_last();
        assert forall|i: int| 0 <= i < front.len() implies one(#[trigger] front[i]) == other(
            front[i],
        ) by {
            assert(front[i] == messages[i]);
        }
        lemma_same_filter(front, one, other);
        assert(one(messages[messages.len() - 1]) == other(messages[messages.len() - 1]));
    }
}

/// What lies behind a cursor that was sought is not in the range, and what lies ahead of it is not
/// before the range.
proof fn lemma_sought_parts(
    file: FileContent,
    streams: Seq<StreamId>,
    cursor: CursorContent,
    range: TimeRange,
)
    requires
        cursor.valid(),
        forall|i: int|
            0 <= i < cursor.position ==> (#[trigger] cursor.cache[i]).arrival_time.0
                < range.start.0,
        forall|i: int|
            0 <= i < ahead(file, streams, cursor).len() ==> (
            #[trigger] ahead(file, streams, cursor)[i]).arrival_time.0 >= range.start.0,
    ensures
        in_range(
            cursor.cache.take(cursor.position as int) + ahead(file, streams, cursor),
            range,
        ) == earlier_than(ahead(file, streams, cursor), range.end_exclusive),
{
    let keep = |message: RawContent| range.spec_contains(message.arrival_time);
    let early = |message: RawContent| message.arrival_time.0 < range.end_exclusive.0;
    let past = cursor.cache.take(cursor.position as int);
    let left = ahead(file, streams, cursor);
    raw::lemma_none_kept(past, keep);
    Seq::filter_distributes_over_add(past, left, keep);
    assert(Seq::<RawContent>::empty() + left.filter(keep) =~= left.filter(keep));
    lemma_same_filter(left, keep, early);
}

proof fn lemma_kept_of_streams(messages: Seq<ChunkMessageContent>, streams: Seq<StreamId>)
    requires
        mcap_source::kept(messages, None) is Ok,
    ensures
        mcap_source::kept(messages, Some(streams)) == Ok::<Seq<RawContent>, SourceFault>(
            mcap_source::kept(messages, None)->Ok_0.filter(
                |message: RawContent| streams.contains(message.stream_id),
            ),
        ),
    decreases messages.len(),
{
    reveal(Seq::filter);
    if messages.len() > 0 {
        lemma_kept_of_streams(messages.drop_last(), streams);
        let all = mcap_source::kept(messages, None)->Ok_0;
        assert(all.drop_last() =~= mcap_source::kept(messages.drop_last(), None)->Ok_0);
    }
}

/// A file without chunks and without wanted messages has none when it is read for those alone.
proof fn lemma_linear_has_none(bytes: Seq<u8>, streams: Seq<StreamId>)
    requires
        linear_of(bytes, streams) == Ok::<Seq<RawContent>, SourceFault>(Seq::empty()),
    ensures
        mcap_source::linear_kept(bytes, Some(streams)) == Ok::<Seq<RawContent>, SourceFault>(
            Seq::empty(),
        ),
{
    let keep = |message: RawContent| streams.contains(message.stream_id);
    let messages = mcap_source::plain(mcap_facts::linear_messages(bytes).0);
    let all = mcap_source::kept(messages, None)->Ok_0;
    let sorted = raw::time_sorted(all);
    raw::law_sorting_is_stable(all);
    lemma_kept_of_streams(messages, streams);
    assert forall|i: int| 0 <= i < all.len() implies !keep(#[trigger] all[i]) by {
        all.to_multiset_ensures();
        sorted.to_multiset_ensures();
        assert(all.contains(all[i]));
        assert(sorted.to_multiset().count(all[i]) > 0);
        assert(sorted.contains(all[i]));
        let at = choose|at: int| 0 <= at < sorted.len() && sorted[at] == all[i];
        if keep(sorted[at]) {
            sorted.lemma_filter_contains(keep, at);
            assert(sorted.filter(keep).len() > 0);
        }
    }
    raw::lemma_none_kept(all, keep);
    assert(raw::time_sorted(Seq::<RawContent>::empty()) =~= Seq::empty());
}

#[verifier::rlimit(60)]
proof fn lemma_chunked_start(file: FileContent, streams: Seq<StreamId>, range: TimeRange)
    requires
        chunks_in_order(file, streams),
        file.chunked(),
        mcap_source::sought(file, Some(streams), Seq::empty(), range.start) is Ok,
    ensures
        ({
            let cursor = mcap_source::sought(file, Some(streams), Seq::empty(), range.start)->Ok_0;
            in_range(messages_of(file, streams), range) == earlier_than(
                ahead(file, streams, cursor),
                range.end_exclusive,
            )
        }),
{
    let cursor = mcap_source::sought(file, Some(streams), Seq::empty(), range.start)->Ok_0;
    let chunk = cursor.chunk->Some_0 as int;
    let chunks = file.summary->Some_0.chunks;
    let left = ahead(file, streams, cursor);
    let own = cursor.cache.skip(cursor.position as int);
    let past = cursor.cache.take(cursor.position as int);
    let behind = chunks_from(file, streams, chunk + 1);
    mcap_source::law_seeks_land_at_their_time(file, Some(streams), Seq::empty(), range.start);
    lemma_ended(chunks, range.start);
    lemma_chunks_from_start_behind(file, streams, chunk, chunk + 1);
    lemma_ended_hold_nothing(file, streams, range, 0, chunk);
    assert(chunks_from(file, streams, chunk) =~= past + left);
    assert forall|i: int| 0 <= i < left.len() implies (#[trigger] left[i]).arrival_time.0
        >= range.start.0 by {
        if i < own.len() {
            assert(left[i] == cursor.cache[cursor.position + i]);
        } else {
            assert(left[i] == behind[i - own.len()]);
        }
    }
    lemma_sought_parts(file, streams, cursor, range);
}

#[verifier::rlimit(60)]
proof fn lemma_linear_start(file: FileContent, streams: Seq<StreamId>, range: TimeRange)
    requires
        !file.chunked(),
        linear_of(file.bytes, streams) is Ok,
    ensures
        raw::ordered(linear_of(file.bytes, streams)->Ok_0),
        mcap_source::sought(
            file,
            Some(streams),
            linear_of(file.bytes, streams)->Ok_0,
            range.start,
        ) matches Ok(cursor) ==> cursor.chunk is None && in_range(messages_of(file, streams), range)
            == earlier_than(ahead(file, streams, cursor), range.end_exclusive),
{
    let loaded = linear_of(file.bytes, streams)->Ok_0;
    let messages = mcap_source::plain(mcap_facts::linear_messages(file.bytes).0);
    let all = mcap_source::kept(messages, None)->Ok_0;
    raw::law_sorting_is_stable(all);
    mcap_source::lemma_filter_keeps_order(
        raw::time_sorted(all),
        |message: RawContent| streams.contains(message.stream_id),
    );
    if loaded.len() == 0 {
        assert(loaded =~= Seq::empty());
        lemma_linear_has_none(file.bytes, streams);
    }
    if let Ok(cursor) = mcap_source::sought(file, Some(streams), loaded, range.start) {
        let left = ahead(file, streams, cursor);
        mcap_source::law_seeks_land_at_their_time(file, Some(streams), loaded, range.start);
        assert(loaded =~= cursor.cache.take(cursor.position as int) + left);
        assert forall|i: int| 0 <= i < left.len() implies (#[trigger] left[i]).arrival_time.0
            >= range.start.0 by {
            assert(left[i] == cursor.cache[cursor.position + i]);
        }
        lemma_sought_parts(file, streams, cursor, range);
    }
}

/// A complete answer to a query is exact: it holds the messages of its streams that arrived within
/// its range, from the start on and before the end, all of them and nothing else, where the chunks
/// of the file are in order of time and end when the file says.
#[verifier::rlimit(60)]
pub proof fn law_complete_queries_are_exact(
    source: SourceContent,
    streams: Seq<StreamId>,
    range: TimeRange,
    limits: QueryLimits,
)
    requires
        chunks_in_order(source.file, streams),
    ensures
        source.queried(streams, range, limits) matches Ok(found) ==> found.complete
            ==> found.messages == in_range(messages_of(source.file, streams), range),
{
    let file = source.file;
    if let Ok(cursor) = source.query_start(streams, range.start) {
        let loaded = if file.chunked() {
            Seq::empty()
        } else {
            linear_of(file.bytes, streams)->Ok_0
        };
        if file.chunked() {
            lemma_chunked_start(file, streams, range);
        } else {
            lemma_linear_start(file, streams, range);
        }
        mcap_source::law_seeks_land_at_their_time(file, Some(streams), loaded, range.start);
        lemma_ended(file.summary->Some_0.chunks, range.start);
        lemma_collected_is_exact(file, streams, cursor, range.end_exclusive, limits, 0, 0);
    }
}

impl McapFile {
    fn collect(
        &self,
        from: ReadCursor,
        selected: &Option<Vec<StreamId>>,
        end_exclusive: ArrivalTime,
        limits: QueryLimits,
    ) -> (outcome: Result<RangeQueryResult, RangeQueryError>)
        requires
            self.well_formed(),
            from.well_formed(),
            from.chunk matches Some(chunk) ==> chunk < self.chunks@.len(),
            selected is Some,
        ensures
            ({
                let expected = collected(
                    self.content(),
                    selected->Some_0@,
                    from.content(),
                    end_exclusive,
                    limits,
                    0,
                    0,
                );
                match outcome {
                    Ok(found) => expected == Ok::<QueryContent, QueryFault>(found@),
                    Err(error) => expected == Err::<QueryContent, QueryFault>(error@),
                }
            }),
    {
        let ghost start = from.content();
        let mut cursor: ReadCursor = from;
        let ghost streams = selected->Some_0@;
        let ghost whole = collected(
            self.content(),
            streams,
            cursor.content(),
            end_exclusive,
            limits,
            0,
            0,
        );
        let mut messages: Vec<RawMessage> = Vec::new();
        let mut payload_bytes: usize = 0;
        proof {
            assert(raw::contents(messages@) =~= Seq::empty());
            if whole is Ok {
                assert(Seq::empty() + whole->Ok_0.messages =~= whole->Ok_0.messages);
            }
        }
        loop
            invariant
                self.well_formed(),
                cursor.well_formed(),
                cursor.chunk matches Some(chunk) ==> chunk < self.chunks@.len(),
                *selected is Some,
                streams == selected->Some_0@,
                start == from.content(),
                whole == collected(self.content(), streams, start, end_exclusive, limits, 0, 0),
                ({
                    let rest = collected(
                        self.content(),
                        streams,
                        cursor.content(),
                        end_exclusive,
                        limits,
                        messages@.len(),
                        payload_bytes as nat,
                    );
                    match rest {
                        Err(fault) => whole == Err::<QueryContent, QueryFault>(fault),
                        Ok(found) => whole == Ok::<QueryContent, QueryFault>(
                            QueryContent {
                                messages: raw::contents(messages@) + found.messages,
                                ..found
                            },
                        ),
                    }
                }),
            decreases
                    (if cursor.chunk is Some {
                        self.chunks@.len() - cursor.chunk->Some_0
                    } else {
                        0
                    }),
                    cursor.cache@.len() - cursor.position,
        {
            let ghost here = cursor.content();
            let ghost earlier = raw::contents(messages@);
            if cursor.position < cursor.cache.len() {
                let message: &RawMessage = &cursor.cache[cursor.position];
                assert(here.cache[here.position as int] == message@);
                if message.arrival_time.0 >= end_exclusive.0 {
                    assert(earlier + Seq::<RawContent>::empty() =~= earlier);
                    return Ok(RangeQueryResult { messages, payload_bytes, complete: true });
                }
                let next_bytes: usize = match payload_bytes.checked_add(
                    byte_count(&message.payload),
                ) {
                    Some(next_bytes) => next_bytes,
                    None => return Err(
                        RangeQueryError::Invalid("range query payload size overflow".to_owned()),
                    ),
                };
                if messages.len() == limits.max_messages || next_bytes > limits.max_payload_bytes {
                    assert(earlier + Seq::<RawContent>::empty() =~= earlier);
                    return Ok(RangeQueryResult { messages, payload_bytes, complete: false });
                }
                let copy: RawMessage = message.clone();
                let ghost added = copy@;
                messages.push(copy);
                payload_bytes = next_bytes;
                cursor.position = cursor.position + 1;
                proof {
                    assert(raw::contents(messages@) =~= earlier.push(added));
                    let rest = collected(
                        self.content(),
                        streams,
                        cursor.content(),
                        end_exclusive,
                        limits,
                        messages@.len(),
                        payload_bytes as nat,
                    );
                    if rest is Ok {
                        assert(earlier + (seq![added] + rest->Ok_0.messages) =~= earlier.push(added)
                            + rest->Ok_0.messages);
                    }
                }
                continue;
            }
            let count: usize = self.chunks.len();
            let next: usize = match cursor.chunk {
                Some(chunk) => chunk + 1,
                None => {
                    assert(earlier + Seq::<RawContent>::empty() =~= earlier);
                    return Ok(RangeQueryResult { messages, payload_bytes, complete: true });
                },
            };
            if next >= count {
                assert(earlier + Seq::<RawContent>::empty() =~= earlier);
                return Ok(RangeQueryResult { messages, payload_bytes, complete: true });
            }
            match self.read_chunk(next, selected) {
                Ok(cache) => {
                    cursor = ReadCursor { cache, chunk: Some(next), position: 0 };
                },
                Err(error) => return Err(RangeQueryError::Source(error)),
            }
        }
    }

    fn query_cursor(&self, selected: &Option<Vec<StreamId>>, start: ArrivalTime) -> (outcome:
        Result<ReadCursor, McapOpenError>)
        requires
            self.well_formed(),
            selected is Some,
        ensures
            ({
                let streams = selected->Some_0@;
                let loaded = if self.content().chunked() {
                    Ok(Seq::empty())
                } else {
                    linear_of(self.content().bytes, streams)
                };
                let expected = match loaded {
                    Err(fault) => Err(fault),
                    Ok(loaded) => mcap_source::sought(
                        self.content(),
                        Some(streams),
                        loaded,
                        start,
                    ),
                };
                match outcome {
                    Ok(cursor) => cursor.well_formed() && expected == Ok::<
                        CursorContent,
                        SourceFault,
                    >(cursor.content()) && (cursor.chunk matches Some(chunk) ==> chunk
                        < self.chunks@.len()),
                    Err(error) => expected == Err::<CursorContent, SourceFault>(error@),
                }
            }),
    {
        let mut loaded: Vec<RawMessage> = Vec::new();
        assert(raw::contents(loaded@) =~= Seq::empty());
        if !self.is_chunked() {
            let all: Vec<RawMessage> = self.read_linear(&None)?;
            if let Some(streams) = selected {
                loaded = retain_streams(all, streams);
            }
        }
        self.cursor_at(selected, &loaded, start)
    }
}

impl McapSource {
    /// Executes a bounded exact-message query without moving where sequential reading stands.
    pub fn query_range(&self, query: &RangeQuery) -> (outcome: Result<
        RangeQueryResult,
        RangeQueryError,
    >)
        requires
            self.well_formed(),
        ensures
            ({
                let expected = self.content().queried(query.streams@, query.range, query.limits);
                match outcome {
                    Ok(found) => expected == Ok::<QueryContent, QueryFault>(found@),
                    Err(error) => expected == Err::<QueryContent, QueryFault>(error@),
                }
            }),
    {
        if query.streams.len() == 0 {
            return Err(
                RangeQueryError::Invalid("range query requires at least one stream".to_owned()),
            );
        }
        if query.limits.max_messages == 0 || query.limits.max_payload_bytes == 0 {
            return Err(
                RangeQueryError::Invalid("range query limits must be non-zero".to_owned()),
            );
        }
        if let Some(unknown) = self.find_unknown(&query.streams) {
            let mut message: String = "range query references unknown stream ".to_owned();
            push_decimal(&mut message, unknown.0 as u64);
            return Err(RangeQueryError::Invalid(message));
        }
        let selected: Option<Vec<StreamId>> = Some(copy_streams(query.streams.as_slice()));
        match self.file.query_cursor(&selected, query.range.start) {
            Ok(cursor) => self.file.collect(
                cursor,
                &selected,
                query.range.end_exclusive,
                query.limits,
            ),
            Err(error) => Err(RangeQueryError::Source(error)),
        }
    }

    fn find_unknown(&self, streams: &Vec<StreamId>) -> (unknown: Option<StreamId>)
        ensures
            unknown == self.content().first_unknown(streams@),
    {
        let mut index: usize = 0;
        assert(streams@.skip(0) =~= streams@);
        while index < streams.len()
            invariant
                index <= streams@.len(),
                self.content().first_unknown(streams@) == self.content().first_unknown(
                    streams@.skip(index as int),
                ),
            decreases streams@.len() - index,
        {
            assert(streams@.skip(index as int).drop_first() =~= streams@.skip(index + 1));
            if !stream_known(&self.catalog.streams, streams[index]) {
                return Some(streams[index]);
            }
            index = index + 1;
        }
        None
    }
}

} // verus!

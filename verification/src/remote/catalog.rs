//! The streams that a server offers of a recording, and which of them are played.

use crate::message::text::{self, push_decimal, same_text};
use crate::message::time::ArrivalTime;
use crate::recording::raw::StreamId;
use crate::recording::session::{
    self, RecordingTimeRange, SourceCatalog, StreamContent, StreamDescriptor, StreamTimingSummary,
};
use vstd::prelude::*;
use vstd::string::*;

verus! {

/// A stream that a server offers.
#[derive(Clone, Debug, Eq, PartialEq)]
pub struct RemoteStream {
    pub id: u32,
    pub topic: String,
    pub representation: String,
    pub schema_name: String,
    pub message_encoding: String,
}

/// What a stream is.
pub struct RemoteStreamContent {
    pub id: u32,
    pub topic: Seq<char>,
    pub representation: Seq<char>,
    pub schema_name: Seq<char>,
    pub message_encoding: Seq<char>,
}

impl View for RemoteStream {
    type V = RemoteStreamContent;

    open spec fn view(&self) -> RemoteStreamContent {
        RemoteStreamContent {
            id: self.id,
            topic: self.topic@,
            representation: self.representation@,
            schema_name: self.schema_name@,
            message_encoding: self.message_encoding@,
        }
    }
}

/// What each stream of a list is.
pub open spec fn stream_contents(streams: Seq<RemoteStream>) -> Seq<RemoteStreamContent> {
    streams.map_values(|stream: RemoteStream| stream@)
}

/// What a server says of a recording.
#[derive(Clone, Debug, Eq, PartialEq)]
pub struct CatalogResponse {
    pub recording_id: String,
    pub recording_revision: String,
    pub time_basis: String,
    pub range_semantics: String,
    pub start_ns: u64,
    pub end_ns_exclusive: u64,
    pub streams: Vec<RemoteStream>,
}

/// What an answer says.
pub struct ResponseContent {
    pub recording_id: Seq<char>,
    pub recording_revision: Seq<char>,
    pub time_basis: Seq<char>,
    pub range_semantics: Seq<char>,
    pub start_ns: u64,
    pub end_ns_exclusive: u64,
    pub streams: Seq<RemoteStreamContent>,
}

impl View for CatalogResponse {
    type V = ResponseContent;

    open spec fn view(&self) -> ResponseContent {
        ResponseContent {
            recording_id: self.recording_id@,
            recording_revision: self.recording_revision@,
            time_basis: self.time_basis@,
            range_semantics: self.range_semantics@,
            start_ns: self.start_ns,
            end_ns_exclusive: self.end_ns_exclusive,
            streams: stream_contents(self.streams@),
        }
    }
}

/// Why a recording of a server cannot be played, in words.
#[derive(Debug, Eq, PartialEq)]
pub struct RemoteCatalogError(String);

impl View for RemoteCatalogError {
    type V = Seq<char>;

    closed spec fn view(&self) -> Seq<char> {
        self.0@
    }
}

impl RemoteCatalogError {
    pub fn new(message: String) -> (error: Self)
        ensures
            error@ == message@,
    {
        RemoteCatalogError(message)
    }

    /// The words of the error.
    pub fn message(&self) -> (message: String)
        ensures
            message@ == self@,
    {
        self.0.as_str().to_owned()
    }
}

/// The messages of the stream can be decoded.
pub open spec fn supported(stream: RemoteStreamContent) -> bool {
    stream.representation == "ros2-cdr"@ && stream.message_encoding == "cdr"@
}

/// The streams whose messages can be decoded, in their order.
pub open spec fn supported_streams(streams: Seq<RemoteStreamContent>) -> Seq<RemoteStreamContent> {
    streams.filter(|stream: RemoteStreamContent| supported(stream))
}

/// The first stream of camera images.
pub open spec fn camera_in(streams: Seq<RemoteStreamContent>) -> Option<RemoteStreamContent>
    decreases streams.len(),
{
    if streams.len() == 0 {
        None
    } else if streams[0].schema_name == "sensor_msgs/msg/CompressedImage"@ {
        Some(streams[0])
    } else {
        camera_in(streams.drop_first())
    }
}

/// The topics that are played beside the camera.
pub open spec fn standard_topic(topic: Seq<char>) -> bool {
    ||| topic == "/odom"@
    ||| topic == "/planning/path"@
    ||| topic == "/scan"@
    ||| topic == "/tf"@
    ||| topic == "/tf_static"@
}

/// The identifier is that of the camera or of a stream on a standard topic.
pub open spec fn is_played(streams: Seq<RemoteStreamContent>, camera: u32, id: u32) -> bool {
    id == camera || exists|i: int|
        0 <= i < streams.len() && (#[trigger] streams[i]).id == id && standard_topic(
            streams[i].topic,
        )
}

/// The list holds what is played, each identifier once and in order.
pub open spec fn selects(
    selected: Seq<u32>,
    streams: Seq<RemoteStreamContent>,
    camera: u32,
) -> bool {
    &&& forall|i: int, j: int| 0 <= i < j < selected.len() ==> selected[i] < selected[j]
    &&& forall|id: u32| #[trigger] selected.contains(id) <==> is_played(streams, camera, id)
}

/// A stream as the library describes it.
pub open spec fn described(stream: RemoteStreamContent) -> StreamContent {
    StreamContent {
        id: StreamId(stream.id),
        topic: stream.topic,
        schema: stream.schema_name,
        message_encoding: stream.message_encoding,
        timing: StreamTimingSummary { message_count: None },
    }
}

/// The streams that are played, in their order.
pub open spec fn played_streams(streams: Seq<RemoteStreamContent>, camera: u32) -> Seq<
    StreamContent,
> {
    played_among(streams, streams, camera)
}

/// The streams among some that are played.
pub open spec fn played_among(
    some: Seq<RemoteStreamContent>,
    streams: Seq<RemoteStreamContent>,
    camera: u32,
) -> Seq<StreamContent>
    decreases some.len(),
{
    if some.len() == 0 {
        Seq::empty()
    } else if is_played(streams, camera, some.last().id) {
        played_among(some.drop_last(), streams, camera).push(described(some.last()))
    } else {
        played_among(some.drop_last(), streams, camera)
    }
}

/// A recording of a server, ready to be played.
#[derive(Debug)]
pub struct RemoteCatalog {
    pub core: SourceCatalog,
    pub recording_id: String,
    pub revision: String,
    pub start: ArrivalTime,
    pub end: ArrivalTime,
    pub end_exclusive: ArrivalTime,
    pub primary_camera_topic: String,
    pub selected_streams: Vec<u32>,
}

/// Why a recording of a server cannot be played, if it cannot.
pub open spec fn catalog_fault(remote: ResponseContent) -> Option<Seq<char>> {
    if remote.time_basis != "mcap-log-time"@ || remote.range_semantics
        != "start-inclusive-end-exclusive"@ {
        Some("unsupported remote time or range semantics"@)
    } else if remote.start_ns > i64::MAX || remote.end_ns_exclusive > i64::MAX {
        Some("remote timestamp exceeds signed nanoseconds"@)
    } else if remote.start_ns >= remote.end_ns_exclusive {
        Some("remote time range is empty"@)
    } else if camera_in(supported_streams(remote.streams)) is None {
        Some("remote catalog has no supported camera stream"@)
    } else {
        None
    }
}

fn is_standard_topic(topic: &str) -> (standard: bool)
    ensures
        standard == standard_topic(topic@),
{
    same_text(topic, "/odom") || same_text(topic, "/planning/path") || same_text(topic, "/scan")
        || same_text(topic, "/tf") || same_text(topic, "/tf_static")
}

fn is_supported(stream: &RemoteStream) -> (is: bool)
    ensures
        is == supported(stream@),
{
    same_text(stream.representation.as_str(), "ros2-cdr") && same_text(
        stream.message_encoding.as_str(),
        "cdr",
    )
}

/// The streams that a list of indexes stands for.
spec fn at(streams: Seq<RemoteStream>, order: Seq<usize>) -> Seq<RemoteStreamContent> {
    order.map_values(|index: usize| streams[index as int]@)
}

/// Every index leads to a stream.
spec fn leads(streams: Seq<RemoteStream>, order: Seq<usize>) -> bool {
    forall|i: int| 0 <= i < order.len() ==> (#[trigger] order[i]) < streams.len()
}

fn supported_places(streams: &Vec<RemoteStream>) -> (places: Vec<usize>)
    ensures
        leads(streams@, places@),
        at(streams@, places@) == supported_streams(stream_contents(streams@)),
{
    let ghost all = stream_contents(streams@);
    let ghost test = |stream: RemoteStreamContent| supported(stream);
    let mut places: Vec<usize> = Vec::new();
    let mut index: usize = 0;
    proof {
        reveal(Seq::filter);
        assert(all.take(0) =~= Seq::empty());
        assert(at(streams@, places@) =~= Seq::empty());
    }
    while index < streams.len()
        invariant
            index <= streams@.len(),
            all == stream_contents(streams@),
            test == (|stream: RemoteStreamContent| supported(stream)),
            leads(streams@, places@),
            at(streams@, places@) == all.take(index as int).filter(test),
        decreases streams@.len() - index,
    {
        let ghost before = places@;
        proof {
            reveal(Seq::filter);
            assert(all[index as int] == streams@[index as int]@);
            assert(all.take(index + 1).drop_last() =~= all.take(index as int));
            assert(all.take(index + 1).last() == all[index as int]);
        }
        if is_supported(&streams[index]) {
            places.push(index);
            assert(at(streams@, places@) =~= at(streams@, before).push(all[index as int]));
        }
        index = index + 1;
    }
    assert(all.take(all.len() as int) =~= all);
    places
}

fn find_camera(streams: &Vec<RemoteStream>, places: &Vec<usize>) -> (found: Option<usize>)
    requires
        leads(streams@, places@),
    ensures
        match found {
            Some(index) => index < streams@.len() && camera_in(at(streams@, places@)) == Some(
                streams@[index as int]@,
            ),
            None => camera_in(at(streams@, places@)) is None,
        },
{
    let ghost all = at(streams@, places@);
    let mut index: usize = 0;
    assert(all.skip(0) =~= all);
    while index < places.len()
        invariant
            index <= places@.len(),
            leads(streams@, places@),
            all == at(streams@, places@),
            camera_in(all) == camera_in(all.skip(index as int)),
        decreases places@.len() - index,
    {
        let place: usize = places[index];
        proof {
            assert(all.skip(index as int)[0] == streams@[place as int]@);
            assert(all.skip(index as int).drop_first() =~= all.skip(index + 1));
        }
        if same_text(
            streams[place].schema_name.as_str(),
            "sensor_msgs/msg/CompressedImage",
        ) {
            return Some(place);
        }
        index = index + 1;
    }
    None
}

fn insert_id(selected: &mut Vec<u32>, id: u32)
    requires
        forall|i: int, j: int| 0 <= i < j < old(selected)@.len() ==> old(selected)@[i] < old(
            selected,
        )@[j],
    ensures
        forall|i: int, j: int|
            0 <= i < j < final(selected)@.len() ==> final(selected)@[i] < final(selected)@[j],
        forall|other: u32| #[trigger]
            final(selected)@.contains(other) <==> other == id || old(selected)@.contains(other),
{
    let ghost before = selected@;
    let mut place: usize = 0;
    while place < selected.len() && selected[place] < id
        invariant
            place <= selected@.len(),
            selected@ == before,
            forall|i: int| 0 <= i < place ==> selected@[i] < id,
        decreases selected@.len() - place,
    {
        place = place + 1;
    }
    if place < selected.len() && selected[place] == id {
        assert(before[place as int] == id);
        return;
    }
    selected.insert(place, id);
    proof {
        let after = selected@;
        assert(after[place as int] == id);
        assert forall|other: u32| #[trigger] after.contains(other) implies other == id
            || before.contains(other) by {
            let i = choose|i: int| 0 <= i < after.len() && after[i] == other;
            if i < place {
                assert(before[i] == other);
            } else if i > place {
                assert(before[i - 1] == other);
            }
        }
        assert forall|other: u32| other == id || before.contains(other) implies #[trigger]
        after.contains(other) by {
            if other != id {
                let i = choose|i: int| 0 <= i < before.len() && before[i] == other;
                if i < place {
                    assert(after[i] == other);
                } else {
                    assert(after[i + 1] == other);
                }
            }
        }
    }
}

fn select_streams(streams: &Vec<RemoteStream>, places: &Vec<usize>, camera: u32) -> (selected: Vec<
    u32,
>)
    requires
        leads(streams@, places@),
    ensures
        selects(selected@, at(streams@, places@), camera),
{
    let ghost all = at(streams@, places@);
    let mut selected: Vec<u32> = Vec::new();
    insert_id(&mut selected, camera);
    let mut index: usize = 0;
    while index < places.len()
        invariant
            index <= places@.len(),
            leads(streams@, places@),
            all == at(streams@, places@),
            forall|i: int, j: int| 0 <= i < j < selected@.len() ==> selected@[i] < selected@[j],
            forall|id: u32| #[trigger]
                selected@.contains(id) <==> is_played(all.take(index as int), camera, id),
        decreases places@.len() - index,
    {
        let place: usize = places[index];
        let ghost shorter = all.take(index as int);
        let ghost longer = all.take(index + 1);
        let standard: bool = is_standard_topic(streams[place].topic.as_str());
        proof {
            assert(all[index as int] == streams@[place as int]@);
            let added = streams@[place as int]@;
            assert forall|id: u32| #[trigger]
                is_played(longer, camera, id) <==> is_played(shorter, camera, id) || (id == added.id
                    && standard) by {
                if is_played(longer, camera, id) && id != camera {
                    let i = choose|i: int|
                        0 <= i < longer.len() && (#[trigger] longer[i]).id == id && standard_topic(
                            longer[i].topic,
                        );
                    if i < index {
                        assert(shorter[i] == longer[i]);
                    }
                }
                if is_played(shorter, camera, id) && id != camera {
                    let i = choose|i: int|
                        0 <= i < shorter.len() && (#[trigger] shorter[i]).id == id
                            && standard_topic(shorter[i].topic);
                    assert(shorter[i] == longer[i]);
                }
                if id == added.id && standard {
                    assert(longer[index as int].id == id);
                }
            }
        }
        if standard {
            insert_id(&mut selected, streams[place].id);
        }
        index = index + 1;
    }
    assert(all.take(all.len() as int) =~= all);
    selected
}

fn lists_id(selected: &Vec<u32>, id: u32) -> (listed: bool)
    ensures
        listed == selected@.contains(id),
{
    let mut index: usize = 0;
    while index < selected.len()
        invariant
            index <= selected@.len(),
            forall|i: int| 0 <= i < index ==> selected@[i] != id,
        decreases selected@.len() - index,
    {
        if selected[index] == id {
            return true;
        }
        index = index + 1;
    }
    false
}

fn to_core_descriptor(stream: &RemoteStream) -> (descriptor: StreamDescriptor)
    ensures
        descriptor@ == described(stream@),
{
    StreamDescriptor {
        id: StreamId(stream.id),
        topic: stream.topic.clone(),
        schema: stream.schema_name.clone(),
        message_encoding: stream.message_encoding.clone(),
        timing: StreamTimingSummary { message_count: None },
    }
}

fn describe_selected(
    streams: &Vec<RemoteStream>,
    places: &Vec<usize>,
    selected: &Vec<u32>,
    camera: u32,
) -> (descriptors: Vec<StreamDescriptor>)
    requires
        leads(streams@, places@),
        selects(selected@, at(streams@, places@), camera),
    ensures
        session::stream_contents(descriptors@) == played_streams(at(streams@, places@), camera),
{
    let ghost all = at(streams@, places@);
    let mut descriptors: Vec<StreamDescriptor> = Vec::new();
    let mut index: usize = 0;
    assert(all.take(0) =~= Seq::empty());
    assert(session::stream_contents(descriptors@) =~= Seq::empty());
    while index < places.len()
        invariant
            index <= places@.len(),
            leads(streams@, places@),
            all == at(streams@, places@),
            selects(selected@, all, camera),
            session::stream_contents(descriptors@) == played_among(
                all.take(index as int),
                all,
                camera,
            ),
        decreases places@.len() - index,
    {
        let place: usize = places[index];
        let ghost before = descriptors@;
        proof {
            assert(all[index as int] == streams@[place as int]@);
            assert(all.take(index + 1).drop_last() =~= all.take(index as int));
        }
        if lists_id(selected, streams[place].id) {
            descriptors.push(to_core_descriptor(&streams[place]));
            assert(session::stream_contents(descriptors@) =~= session::stream_contents(
                before,
            ).push(described(all[index as int])));
        }
        index = index + 1;
    }
    assert(all.take(all.len() as int) =~= all);
    descriptors
}

fn fail(words: &str) -> (error: RemoteCatalogError)
    ensures
        error@ == words@,
{
    RemoteCatalogError(words.to_owned())
}

/// The recording that a server describes: its first camera, and the streams on standard topics.
pub fn adapt_catalog(remote: &CatalogResponse) -> (outcome: Result<
    RemoteCatalog,
    RemoteCatalogError,
>)
    ensures
        match outcome {
            Ok(catalog) => {
                let streams = supported_streams(remote@.streams);
                &&& catalog_fault(remote@) is None
                &&& camera_in(streams) matches Some(camera) && {
                    &&& catalog.primary_camera_topic@ == camera.topic
                    &&& selects(catalog.selected_streams@, streams, camera.id)
                    &&& catalog.core.content() == played_streams(streams, camera.id)
                }
                &&& catalog.recording_id@ == remote@.recording_id
                &&& catalog.revision@ == remote@.recording_revision
                &&& catalog.start.0 == remote@.start_ns
                &&& catalog.end_exclusive.0 == remote@.end_ns_exclusive
                &&& catalog.end.0 == remote@.end_ns_exclusive - 1
                &&& catalog.core.time_range == Some(
                    RecordingTimeRange {
                        start: catalog.start,
                        end_exclusive: catalog.end_exclusive,
                    },
                )
            },
            Err(error) => catalog_fault(remote@) == Some(error@),
        },
{
    if !same_text(remote.time_basis.as_str(), "mcap-log-time") || !same_text(
        remote.range_semantics.as_str(),
        "start-inclusive-end-exclusive",
    ) {
        return Err(fail("unsupported remote time or range semantics"));
    }
    if remote.start_ns > i64::MAX as u64 || remote.end_ns_exclusive > i64::MAX as u64 {
        return Err(fail("remote timestamp exceeds signed nanoseconds"));
    }
    let start: ArrivalTime = ArrivalTime(remote.start_ns as i64);
    let end_exclusive: ArrivalTime = ArrivalTime(remote.end_ns_exclusive as i64);
    if start.0 >= end_exclusive.0 {
        return Err(fail("remote time range is empty"));
    }
    let places: Vec<usize> = supported_places(&remote.streams);
    let camera: &RemoteStream = match find_camera(&remote.streams, &places) {
        Some(index) => &remote.streams[index],
        None => return Err(fail("remote catalog has no supported camera stream")),
    };
    let selected_streams: Vec<u32> = select_streams(&remote.streams, &places, camera.id);
    let streams: Vec<StreamDescriptor> = describe_selected(
        &remote.streams,
        &places,
        &selected_streams,
        camera.id,
    );
    Ok(
        RemoteCatalog {
            core: SourceCatalog {
                streams,
                time_range: Some(RecordingTimeRange { start, end_exclusive }),
            },
            recording_id: remote.recording_id.clone(),
            revision: remote.recording_revision.clone(),
            start,
            end: ArrivalTime(end_exclusive.0 - 1),
            end_exclusive,
            primary_camera_topic: camera.topic.clone(),
            selected_streams,
        },
    )
}

/// Every stream that is chosen from can be decoded and is one that the server offers.
pub proof fn law_supported_streams_are_offered(streams: Seq<RemoteStreamContent>, index: int)
    requires
        0 <= index < supported_streams(streams).len(),
    ensures
        supported(supported_streams(streams)[index]),
        streams.contains(supported_streams(streams)[index]),
{
    let test = |stream: RemoteStreamContent| supported(stream);
    streams.lemma_filter_pred(test, index);
    streams.lemma_filter_contains_rev(test, supported_streams(streams)[index]);
}

/// One stream of a list.
pub open spec fn stream_line(stream: RemoteStreamContent) -> Seq<char> {
    text::decimal(stream.id as nat) + " · "@ + stream.topic + " · "@ + stream.schema_name
}

/// The streams of a list, one to a line.
pub open spec fn stream_lines(output: Seq<char>, streams: Seq<RemoteStreamContent>) -> Seq<char>
    decreases streams.len(),
{
    if streams.len() == 0 {
        output
    } else if streams.len() == 1 {
        output + stream_line(streams[0])
    } else {
        stream_lines(output, streams.drop_last()) + "\n"@ + stream_line(streams.last())
    }
}

/// What a server says of a recording, in words.
pub open spec fn catalog_words(remote: ResponseContent) -> Seq<char> {
    stream_lines(
        "recording: "@ + remote.recording_id + "\nrevision: "@ + remote.recording_revision
            + "\nrange: ["@ + text::decimal(remote.start_ns as nat) + ".."@ + text::decimal(
            remote.end_ns_exclusive as nat,
        ) + ")\nstreams: "@ + text::decimal(remote.streams.len()) + "\n"@,
        remote.streams,
    )
}

fn line_of(stream: &RemoteStream) -> (line: String)
    ensures
        line@ == stream_line(stream@),
{
    let mut line: String = text::number(stream.id as u64);
    line.append(" · ");
    line.append(stream.topic.as_str());
    line.append(" · ");
    line.append(stream.schema_name.as_str());
    line
}

/// What a server says of a recording, in words.
pub fn format_catalog(remote: &CatalogResponse) -> (words: String)
    ensures
        words@ == catalog_words(remote@),
{
    let mut words: String = "recording: ".to_owned();
    words.append(remote.recording_id.as_str());
    words.append("\nrevision: ");
    words.append(remote.recording_revision.as_str());
    words.append("\nrange: [");
    push_decimal(&mut words, remote.start_ns);
    words.append("..");
    push_decimal(&mut words, remote.end_ns_exclusive);
    words.append(")\nstreams: ");
    push_decimal(&mut words, remote.streams.len() as u64);
    words.append("\n");
    let ghost start = words@;
    let ghost all = remote@.streams;
    let mut index: usize = 0;
    assert(all.take(0) =~= Seq::empty());
    while index < remote.streams.len()
        invariant
            index <= remote.streams@.len(),
            all == remote@.streams,
            words@ == stream_lines(start, all.take(index as int)),
        decreases remote.streams@.len() - index,
    {
        proof {
            assert(all[index as int] == remote.streams@[index as int]@);
            assert(all.take(index + 1).drop_last() =~= all.take(index as int));
            assert(all.take(index + 1).last() == all[index as int]);
        }
        if index > 0 {
            words.append("\n");
        }
        words.append(line_of(&remote.streams[index]).as_str());
        index = index + 1;
    }
    assert(all.take(all.len() as int) =~= all);
    words
}

/// A stream of a server is described as the server does: with its identifier, topic, type and form.
pub proof fn law_streams_are_described_as_offered(stream: RemoteStream, described_as: StreamDescriptor)
    requires
        described_as@ == described(stream@),
    ensures
        described_as.id.0 == stream.id,
        described_as.topic@ == stream.topic@,
        described_as.schema@ == stream.schema_name@,
        described_as.message_encoding@ == stream.message_encoding@,
        described_as.timing.message_count is None,
{
}

/// Of the streams of a server the first camera and those on the topics of odometry, path, scans and
/// transforms are played, in their order.
pub proof fn law_cameras_and_standard_topics_are_played(
    streams: Seq<RemoteStreamContent>,
    camera: u32,
    index: int,
)
    requires
        0 <= index < streams.len(),
    ensures
        streams[index].id == camera || streams[index].topic == "/odom"@ || streams[index].topic
            == "/planning/path"@ || streams[index].topic == "/scan"@ || streams[index].topic
            == "/tf"@ || streams[index].topic == "/tf_static"@ ==> played_streams(
            streams,
            camera,
        ).contains(described(streams[index])),
{
    if is_played(streams, camera, streams[index].id) {
        lemma_played_among(streams, streams, camera, index);
    }
}

proof fn lemma_played_among(
    some: Seq<RemoteStreamContent>,
    streams: Seq<RemoteStreamContent>,
    camera: u32,
    index: int,
)
    requires
        0 <= index < some.len(),
        is_played(streams, camera, some[index].id),
    ensures
        played_among(some, streams, camera).contains(described(some[index])),
    decreases some.len(),
{
    let played = played_among(some, streams, camera);
    if index == some.len() - 1 {
        assert(played.last() == described(some[index]));
    } else {
        let front = some.drop_last();
        assert(front[index] == some[index]);
        lemma_played_among(front, streams, camera, index);
        let earlier = played_among(front, streams, camera);
        let at = choose|at: int| 0 <= at < earlier.len() && earlier[at] == described(some[index]);
        assert(played[at] == described(some[index]));
    }
}

} // verus!

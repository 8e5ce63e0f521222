//! The words that the viewer shows beside its pictures. Numbers with decimals come in as words.

use crate::inspection::report::{self, tells};
use crate::message::text::{self, push_decimal, same_text};
use crate::message::time::{self, saturating_difference, ArrivalTime};
use crate::playback::clock::{PlaybackLoadState, PlaybackSpeed};
use crate::playback::web_playback::{self, LoadStateContent};
use crate::feature::camera::CameraId;
use crate::feature::domain::PipelineCounters;
use vstd::prelude::*;
use vstd::string::*;

verus! {

/// The speed that a control names; any other name stands for normal speed.
pub open spec fn spec_speed_named(name: Seq<char>) -> PlaybackSpeed {
    if name == "0.25"@ {
        PlaybackSpeed::Quarter
    } else if name == "0.5"@ {
        PlaybackSpeed::Half
    } else if name == "2"@ {
        PlaybackSpeed::Double
    } else {
        PlaybackSpeed::Normal
    }
}

/// The speed that a control names.
pub fn speed_named(name: &str) -> (speed: PlaybackSpeed)
    ensures
        speed == spec_speed_named(name@),
{
    if same_text(name, "0.25") {
        PlaybackSpeed::Quarter
    } else if same_text(name, "0.5") {
        PlaybackSpeed::Half
    } else if same_text(name, "2") {
        PlaybackSpeed::Double
    } else {
        PlaybackSpeed::Normal
    }
}

/// What the button that starts and stops playback says.
pub fn play_label(playing: bool) -> (label: &'static str)
    ensures
        label@ == (if playing {
            "Pause"@
        } else {
            "Play"@
        }),
{
    if playing {
        "Pause"
    } else {
        "Play"
    }
}

/// The name of an element that belongs to a camera.
pub fn camera_element(prefix: &str, camera: CameraId) -> (id: String)
    ensures
        id@ == prefix@ + text::decimal(camera.0 as nat),
{
    let mut id: String = prefix.to_owned();
    push_decimal(&mut id, camera.0 as u64);
    id
}

/// What is said of the large camera: its topic and the state of its overlay.
pub fn focus_words(camera: Option<(&str, &str)>) -> (words: String)
    ensures
        words@ == (match camera {
            Some((topic, overlay)) => topic@ + " · "@ + overlay@,
            None => "waiting"@,
        }),
{
    match camera {
        Some((topic, overlay)) => {
            let mut words: String = topic.to_owned();
            words.append(" · ");
            words.append(overlay);
            words
        },
        None => "waiting".to_owned(),
    }
}

/// What is said of a camera: its topic and its rate.
pub fn camera_words(topic: &str, hertz: &str) -> (words: String)
    ensures
        words@ == topic@ + " · "@ + hertz@ + " Hz"@,
{
    let mut words: String = topic.to_owned();
    words.append(" · ");
    words.append(hertz);
    words.append(" Hz");
    words
}

/// How many nanoseconds of messages playback waits for.
pub open spec fn spec_waiting(state: LoadStateContent) -> i64 {
    match state {
        LoadStateContent::Buffering { requested, committed } => time::saturated(
            requested.0 - committed.0,
        ),
        _ => 0,
    }
}

/// How many nanoseconds of messages playback waits for.
pub fn waiting_nanos(state: &PlaybackLoadState) -> (nanos: i64)
    ensures
        nanos == spec_waiting(web_playback::state_content(*state)),
{
    match state {
        PlaybackLoadState::Buffering { requested, committed } => saturating_difference(
            requested.0,
            committed.0,
        ),
        _ => 0,
    }
}

/// What is said of loading.
pub open spec fn spec_load_words(state: LoadStateContent, waiting: Seq<char>) -> Seq<char> {
    match state {
        LoadStateContent::Ready => "Ready"@,
        LoadStateContent::Buffering { requested, committed } => "Buffering · waiting for +"@
            + waiting + "s"@,
        LoadStateContent::Seeking { target } => "Seeking"@,
        LoadStateContent::Failed { message } => "Failed: "@ + message,
    }
}

/// What is said of loading. `waiting` gives the seconds that playback waits for.
pub fn load_words(state: &PlaybackLoadState, waiting: &str) -> (words: String)
    ensures
        words@ == spec_load_words(web_playback::state_content(*state), waiting@),
{
    match state {
        PlaybackLoadState::Ready => "Ready".to_owned(),
        PlaybackLoadState::Buffering { requested: _, committed: _ } => {
            let mut words: String = "Buffering · waiting for +".to_owned();
            words.append(waiting);
            words.append("s");
            words
        },
        PlaybackLoadState::Seeking { target: _ } => "Seeking".to_owned(),
        PlaybackLoadState::Failed { message } => {
            let mut words: String = "Failed: ".to_owned();
            words.append(message.as_str());
            words
        },
    }
}

/// What is said of playback.
pub open spec fn spec_status_words(
    load: Seq<char>,
    counters: PipelineCounters,
    path_points: nat,
    scan_points: nat,
    cursor: Seq<char>,
) -> Seq<char> {
    load + " · "@ + text::decimal(counters.decoded as nat) + " decoded · "@ + text::decimal(
        counters.errors as nat,
    ) + " errors · "@ + text::decimal(counters.dropped as nat) + " dropped · path "@
        + text::decimal(path_points) + " pts · scan "@ + text::decimal(scan_points) + " pts · "@
        + cursor + "s"@
}

/// What is said of playback. `cursor` gives the seconds from the start. Whether it is a matter of
/// concern comes back too: it is where messages could not be decoded.
pub fn status_words(
    load: &str,
    counters: PipelineCounters,
    path_points: usize,
    scan_points: usize,
    cursor: &str,
) -> (status: (String, bool))
    ensures
        status.0@ == spec_status_words(
            load@,
            counters,
            path_points as nat,
            scan_points as nat,
            cursor@,
        ),
        status.1 == (counters.errors > 0),
{
    let mut words: String = load.to_owned();
    words.append(" · ");
    push_decimal(&mut words, counters.decoded);
    words.append(" decoded · ");
    push_decimal(&mut words, counters.errors);
    words.append(" errors · ");
    push_decimal(&mut words, counters.dropped);
    words.append(" dropped · path ");
    push_decimal(&mut words, path_points as u64);
    words.append(" pts · scan ");
    push_decimal(&mut words, scan_points as u64);
    words.append(" pts · ");
    words.append(cursor);
    words.append("s");
    (words, counters.errors > 0)
}

/// How loading from a server went. Sizes are megabytes, times seconds or milliseconds.
#[derive(Clone, Debug, Eq, PartialEq)]
pub struct RemoteNumbers {
    pub load_requests: u64,
    pub source_reads: u64,
    pub received: String,
    pub window_count: u64,
    pub resident: String,
    pub ahead: String,
    pub evictions: u64,
    pub last_latency: String,
    pub buffering_count: u64,
    pub stale_results: u64,
}

/// What is said of loading from a server.
pub open spec fn spec_remote_words(numbers: RemoteNumbers) -> Seq<char> {
    " · Remote "@ + text::decimal(numbers.load_requests as nat) + " loads/"@ + text::decimal(
        numbers.source_reads as nat,
    ) + " reads · "@ + numbers.received@ + " MB rx · "@ + text::decimal(
        numbers.window_count as nat,
    ) + " windows/"@ + numbers.resident@ + " MB RAM · ahead "@ + numbers.ahead@ + "s · "@
        + text::decimal(numbers.evictions as nat) + " evicted · last "@ + numbers.last_latency@
        + " ms · buffering "@ + text::decimal(numbers.buffering_count as nat) + " · stale "@
        + text::decimal(numbers.stale_results as nat)
}

/// What is said of loading from a server.
pub fn remote_words(numbers: &RemoteNumbers) -> (words: String)
    ensures
        words@ == spec_remote_words(*numbers),
{
    let mut words: String = " · Remote ".to_owned();
    push_decimal(&mut words, numbers.load_requests);
    words.append(" loads/");
    push_decimal(&mut words, numbers.source_reads);
    words.append(" reads · ");
    words.append(numbers.received.as_str());
    words.append(" MB rx · ");
    push_decimal(&mut words, numbers.window_count);
    words.append(" windows/");
    words.append(numbers.resident.as_str());
    words.append(" MB RAM · ahead ");
    words.append(numbers.ahead.as_str());
    words.append("s · ");
    push_decimal(&mut words, numbers.evictions);
    words.append(" evicted · last ");
    words.append(numbers.last_latency.as_str());
    words.append(" ms · buffering ");
    push_decimal(&mut words, numbers.buffering_count);
    words.append(" · stale ");
    push_decimal(&mut words, numbers.stale_results);
    words
}

/// How fast the viewer is: rates, and how many milliseconds each step takes.
#[derive(Clone, Debug, Eq, PartialEq)]
pub struct PerformanceNumbers {
    pub focused_rate: String,
    pub focused_limit: String,
    pub background_limit: String,
    pub jpeg_decode: String,
    pub upload: String,
    pub render: String,
    pub source_read: String,
    pub decode: String,
    pub apply: String,
}

/// What is said of how fast the viewer is.
pub open spec fn spec_performance_words(
    numbers: PerformanceNumbers,
    remote: Option<RemoteNumbers>,
) -> Seq<char> {
    let words = "Focus "@ + numbers.focused_rate@ + "/"@ + numbers.focused_limit@
        + " Hz · others ≤"@ + numbers.background_limit@ + " Hz · JPEG "@ + numbers.jpeg_decode@
        + " ms · canvas "@ + numbers.upload@ + " ms · tick "@ + numbers.render@
        + " ms · source/CDR/state "@ + numbers.source_read@ + "/"@ + numbers.decode@ + "/"@
        + numbers.apply@ + " ms"@;
    match remote {
        Some(remote) => words + spec_remote_words(remote),
        None => words,
    }
}

/// What is said of how fast the viewer is.
pub fn performance_words(numbers: &PerformanceNumbers, remote: &Option<RemoteNumbers>) -> (words:
    String)
    ensures
        words@ == spec_performance_words(*numbers, *remote),
{
    let mut words: String = "Focus ".to_owned();
    words.append(numbers.focused_rate.as_str());
    words.append("/");
    words.append(numbers.focused_limit.as_str());
    words.append(" Hz · others ≤");
    words.append(numbers.background_limit.as_str());
    words.append(" Hz · JPEG ");
    words.append(numbers.jpeg_decode.as_str());
    words.append(" ms · canvas ");
    words.append(numbers.upload.as_str());
    words.append(" ms · tick ");
    words.append(numbers.render.as_str());
    words.append(" ms · source/CDR/state ");
    words.append(numbers.source_read.as_str());
    words.append("/");
    words.append(numbers.decode.as_str());
    words.append("/");
    words.append(numbers.apply.as_str());
    words.append(" ms");
    if let Some(remote) = remote {
        words.append(remote_words(remote).as_str());
    }
    words
}

/// Where the vehicle is and how it moves: metres, degrees, and both per second.
#[derive(Clone, Debug, Eq, PartialEq)]
pub struct TelemetryNumbers {
    pub x: String,
    pub y: String,
    pub yaw: String,
    pub speed: String,
    pub yaw_rate: String,
}

/// What is said of where the vehicle is.
pub open spec fn spec_telemetry_words(numbers: Option<TelemetryNumbers>) -> Seq<char> {
    match numbers {
        None => "Odometry: waiting"@,
        Some(numbers) => "x "@ + numbers.x@ + " m · y "@ + numbers.y@ + " m · yaw "@ + numbers.yaw@
            + "° · "@ + numbers.speed@ + " m/s · yaw rate "@ + numbers.yaw_rate@ + "°/s"@,
    }
}

/// What is said of where the vehicle is.
pub fn telemetry_words(numbers: &Option<TelemetryNumbers>) -> (words: String)
    ensures
        words@ == spec_telemetry_words(*numbers),
{
    match numbers {
        None => "Odometry: waiting".to_owned(),
        Some(numbers) => {
            let mut words: String = "x ".to_owned();
            words.append(numbers.x.as_str());
            words.append(" m · y ");
            words.append(numbers.y.as_str());
            words.append(" m · yaw ");
            words.append(numbers.yaw.as_str());
            words.append("° · ");
            words.append(numbers.speed.as_str());
            words.append(" m/s · yaw rate ");
            words.append(numbers.yaw_rate.as_str());
            words.append("°/s");
            words
        },
    }
}

/// A control names a speed as the speed is labelled, but for the sign behind it.
pub proof fn law_controls_name_the_labelled_speed(speed: PlaybackSpeed, name: Seq<char>)
    requires
        speed.spec_label() == name + "x"@,
    ensures
        spec_speed_named(name) == speed,
{
    reveal_strlit("0.25");
    reveal_strlit("0.5");
    reveal_strlit("1");
    reveal_strlit("2");
    reveal_strlit("x");
    reveal_strlit("0.25x");
    reveal_strlit("0.5x");
    reveal_strlit("1x");
    reveal_strlit("2x");
    let label = speed.spec_label();
    assert(name =~= label.drop_last());
    match speed {
        PlaybackSpeed::Quarter => assert(name =~= "0.25"@),
        PlaybackSpeed::Half => assert(name =~= "0.5"@),
        PlaybackSpeed::Normal => assert(name =~= "1"@),
        PlaybackSpeed::Double => assert(name =~= "2"@),
    }
    assert("0.25"@.len() == 4 && "0.5"@.len() == 3 && "1"@.len() == 1 && "2"@.len() == 1);
    assert("1"@[0] != "2"@[0]);
}

/// Playback waits for what lies between the messages that it has and the time that it goes to.
pub proof fn law_waiting_ends_where_playback_goes(requested: ArrivalTime, committed: ArrivalTime)
    requires
        i64::MIN <= requested.0 - committed.0 <= i64::MAX,
    ensures
        committed.0 + spec_waiting(LoadStateContent::Buffering { requested, committed })
            == requested.0,
        forall|state: LoadStateContent|
            !(state is Buffering) ==> #[trigger] spec_waiting(state) == 0,
{
}

/// The words on playback name each number by what it counts.
#[verifier::rlimit(60)]
pub proof fn law_counts_are_told_by_name(
    load: Seq<char>,
    counters: PipelineCounters,
    path_points: nat,
    scan_points: nat,
    cursor: Seq<char>,
)
    ensures
        ({
            let words = spec_status_words(load, counters, path_points, scan_points, cursor);
            &&& tells(words, load)
            &&& tells(words, text::decimal(counters.decoded as nat) + " decoded · "@)
            &&& tells(words, text::decimal(counters.errors as nat) + " errors · "@)
            &&& tells(words, text::decimal(counters.dropped as nat) + " dropped · path "@)
            &&& tells(words, " dropped · path "@ + text::decimal(path_points))
            &&& tells(words, " pts · scan "@ + text::decimal(scan_points))
            &&& tells(words, " pts · "@ + cursor)
        }),
{
    let words = spec_status_words(load, counters, path_points, scan_points, cursor);
    let decoded = text::decimal(counters.decoded as nat);
    let errors = text::decimal(counters.errors as nat);
    let dropped = text::decimal(counters.dropped as nat);
    let path = text::decimal(path_points);
    let scan = text::decimal(scan_points);
    let at_decoded = load + " · "@;
    let at_errors = at_decoded + decoded + " decoded · "@;
    let at_dropped = at_errors + errors + " errors · "@;
    let at_path = at_dropped + dropped + " dropped · path "@;
    let at_scan = at_path + path + " pts · scan "@;
    let at_cursor = at_scan + scan + " pts · "@;
    report::lemma_begins_itself(words);
    assert(words == at_cursor + cursor + "s"@);
    report::lemma_told(at_cursor + cursor, "s"@, words);
    report::lemma_two_told(at_scan + scan, " pts · "@, cursor, words);
    report::lemma_told(at_scan + scan, " pts · "@, words);
    report::lemma_two_told(at_path + path, " pts · scan "@, scan, words);
    report::lemma_told(at_path + path, " pts · scan "@, words);
    report::lemma_two_told(at_dropped + dropped, " dropped · path "@, path, words);
    report::lemma_two_told(at_dropped, dropped, " dropped · path "@, words);
    report::lemma_two_told(at_errors, errors, " errors · "@, words);
    report::lemma_two_told(at_decoded, decoded, " decoded · "@, words);
    report::lemma_told(load, " · "@, words);
    assert(Seq::<char>::empty() + load =~= load);
    report::lemma_told(Seq::empty(), load, words);
}

/// The words on the vehicle name each number by what it measures.
#[verifier::rlimit(60)]
pub proof fn law_measures_are_told_by_name(numbers: TelemetryNumbers)
    ensures
        ({
            let words = spec_telemetry_words(Some(numbers));
            &&& tells(words, "x "@ + numbers.x@)
            &&& tells(words, " m · y "@ + numbers.y@)
            &&& tells(words, " m · yaw "@ + numbers.yaw@)
            &&& tells(words, numbers.speed@ + " m/s · yaw rate "@)
            &&& tells(words, " m/s · yaw rate "@ + numbers.yaw_rate@)
        }),
{
    let words = spec_telemetry_words(Some(numbers));
    let at_y = "x "@ + numbers.x@;
    let at_yaw = at_y + " m · y "@ + numbers.y@;
    let at_speed = at_yaw + " m · yaw "@ + numbers.yaw@ + "° · "@;
    let at_rate = at_speed + numbers.speed@;
    report::lemma_begins_itself(words);
    assert(words == at_rate + " m/s · yaw rate "@ + numbers.yaw_rate@ + "°/s"@);
    report::lemma_told(at_rate + " m/s · yaw rate "@ + numbers.yaw_rate@, "°/s"@, words);
    report::lemma_two_told(at_rate, " m/s · yaw rate "@, numbers.yaw_rate@, words);
    report::lemma_told(at_rate + " m/s · yaw rate "@, numbers.yaw_rate@, words);
    report::lemma_two_told(at_speed, numbers.speed@, " m/s · yaw rate "@, words);
    report::lemma_told(at_yaw + " m · yaw "@ + numbers.yaw@, "° · "@, words);
    report::lemma_two_told(at_yaw, " m · yaw "@, numbers.yaw@, words);
    report::lemma_two_told(at_y, " m · y "@, numbers.y@, words);
    assert(Seq::<char>::empty() + at_y =~= at_y);
    report::lemma_told(Seq::empty(), at_y, words);
}

} // verus!

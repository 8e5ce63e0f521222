use bytes::Bytes;
use mcap::records::MessageHeader;
use mcap::{Compression, Summary, WriteOptions, Writer};
use mcap_player::feature::bev::BevPathFrame;
use mcap_player::feature::camera::{CameraFrame, CameraId};
use mcap_player::feature::controllers::camera::CameraController;
use mcap_player::feature::controllers::counters::ProcessingCounters;
use mcap_player::feature::controllers::odometry::OdometryController;
use mcap_player::feature::controllers::path::PathController;
use mcap_player::feature::controllers::transform::TransformController;
use mcap_player::feature::domain::PipelineCounters;
use mcap_player::feature::domain_runtime::DomainRuntime;
use mcap_player::feature::point_cloud::PointCloudFrame;
use mcap_player::feature::runtime::{FeatureRestoreErrorKind, FeatureRuntime};
use mcap_player::feature::telemetry::TelemetryFrame;
use mcap_player::message::cdr::common::{align_output, push_string, push_u32};
use mcap_player::message::cdr::image::{
    decode_compressed_image_bytes, encode_compressed_image_cdr, CompressedImage,
};
use mcap_player::message::cdr::transform::{encode_tf_message_cdr, TransformStamped};
use mcap_player::message::float::F64;
use mcap_player::message::time::{ArrivalTime, MeasurementTime};
use mcap_player::playback::data_window::TimeRange;
use mcap_player::playback::mcap_playback::{McapPlayback, McapPlaybackError, McapSeekError};
use mcap_player::playback::window_loader::LoadedWindow;
use mcap_player::recording::local_catalog::{LocalCatalog, SummaryFacts};
use mcap_player::recording::local_reads::{
    begin_range_read, check_range_read, collect_window, LocalSummaryReads, LocalWindowReads,
    SeekTarget,
};
use mcap_player::recording::local_restore::{topics_of, LatestSearch, FIRST_SEARCH_SPAN_NS};
use mcap_player::recording::local_window::{
    chunk_request, decode_chunk_backing, parse_chunk_backing, validate_range, ByteRange,
    ChunkReadRequest, OwnedWindowCollector, ParsedChunk, JS_MAX_SAFE_INTEGER,
};
use mcap_player::recording::mcap_facts::ChunkMessage;
use mcap_player::recording::mcap_source::indexed::{find_last, latest_of, push_in_range};
use mcap_player::recording::mcap_source::query::{QueryLimits, RangeQuery};
use mcap_player::recording::mcap_source::{
    count_ended, indexed_span, keep_messages, McapOpenError, McapSource,
};
use mcap_player::recording::raw::{retain_streams, RawMessage, StreamId};
use mcap_player::recording::requirements::{PlaybackRequirements, WorkspaceBindings};
use mcap_player::recording::restore::{RestorePlan, RestorePlanError, RestorePlanner, RestoreRead};
use mcap_player::recording::session::{
    DomainTarget, RecordingTimeRange, SessionPlan, SourceCatalog,
};
use mcap_player::remote::client::{BatchMessage, RemoteBatchPage};
use mcap_player::remote::pages::WindowAssembler;
use std::collections::BTreeMap;
use std::io::Cursor;
use std::time::Duration;

fn bits(value: f64) -> F64 {
    F64(value.to_bits())
}

fn bindings() -> WorkspaceBindings {
    WorkspaceBindings {
        path_topic: "/planning/path".into(),
        odometry_topic: "/odom".into(),
        point_cloud_topic: "/scan".into(),
        dynamic_tf_topic: "/tf".into(),
        static_tf_topic: "/tf_static".into(),
    }
}

fn camera_requirements() -> PlaybackRequirements {
    let mut requirements = PlaybackRequirements::empty();
    requirements.require_all_cameras();
    requirements
}

fn indexed_fixture(chunk_size: u64, emit_message_indexes: bool) -> Vec<u8> {
    let mut bytes = Cursor::new(Vec::new());
    {
        let options = WriteOptions::new()
            .use_chunks(true)
            .chunk_size(Some(chunk_size))
            .emit_message_indexes(emit_message_indexes);
        let mut writer = Writer::with_options(&mut bytes, options).unwrap();
        let schema = writer
            .add_schema("example/msg/Value", "ros2msg", b"uint8 value\n")
            .unwrap();
        let a = writer
            .add_channel(schema, "/a", "cdr", &BTreeMap::new())
            .unwrap();
        let b = writer
            .add_channel(schema, "/b", "cdr", &BTreeMap::new())
            .unwrap();
        for (sequence, channel, time, marker) in [
            (0, a, 0, 1),
            (0, b, 0, 2),
            (1, a, 1_000_000_000, 3),
            (1, b, 80_000_000_000, 4),
            (2, a, 100_000_000_000, 5),
        ] {
            writer
                .write_to_known_channel(
                    &MessageHeader {
                        channel_id: channel,
                        sequence,
                        log_time: time,
                        publish_time: time,
                    },
                    &[marker],
                )
                .unwrap();
        }
        writer.finish().unwrap();
    }
    bytes.into_inner()
}

fn sparse_restore_fixture() -> Vec<u8> {
    let mut bytes = Cursor::new(Vec::new());
    {
        let mut writer = Writer::with_options(
            &mut bytes,
            WriteOptions::new()
                .use_chunks(true)
                .chunk_size(Some(96))
                .emit_message_indexes(true),
        )
        .unwrap();
        let schema = writer
            .add_schema("example/msg/Value", "ros2msg", b"uint8 value\n")
            .unwrap();
        let camera = writer
            .add_channel(schema, "/camera", "cdr", &BTreeMap::new())
            .unwrap();
        let path = writer
            .add_channel(schema, "/path", "cdr", &BTreeMap::new())
            .unwrap();
        let odometry = writer
            .add_channel(schema, "/odom", "cdr", &BTreeMap::new())
            .unwrap();
        let late = writer
            .add_channel(schema, "/late", "cdr", &BTreeMap::new())
            .unwrap();
        let second = 1_000_000_000_u64;
        let mut messages = vec![
            (camera, 0, 1),
            (camera, second, 2),
            (camera, 100 * second, 3),
            (path, 0, 10),
            (path, 80 * second, 11),
            (odometry, 0, 20),
            (odometry, 10 * second, 21),
            (odometry, 90 * second, 22),
            (late, 10 * second, 30),
        ];
        messages.sort_by_key(|(_, time, _)| *time);
        for (sequence, (channel, time, marker)) in messages.into_iter().enumerate() {
            writer
                .write_to_known_channel(
                    &MessageHeader {
                        channel_id: channel,
                        sequence: sequence as u32,
                        log_time: time,
                        publish_time: time,
                    },
                    &[marker],
                )
                .unwrap();
        }
        writer.finish().unwrap();
    }
    bytes.into_inner()
}

#[test]
fn multi_stream_latest_before_streams_a_shared_chunk_once() {
    let source = McapSource::new(&indexed_fixture(1_000_000, true)).unwrap();
    let a = source.catalog().by_topic("/a").unwrap().id;
    let b = source.catalog().by_topic("/b").unwrap().id;
    let result = source
        .latest_before(&[a, b], ArrivalTime(85_000_000_000))
        .unwrap();
    assert_eq!(result.diagnostics.chunks_streamed, 1);
    assert_eq!(
        result
            .messages
            .iter()
            .map(|message| (message.stream_id, message.arrival_time, message.payload[0]))
            .collect::<Vec<_>>(),
        vec![
            (a, ArrivalTime(1_000_000_000), 3),
            (b, ArrivalTime(80_000_000_000), 4),
        ]
    );
}

#[test]
fn latest_before_is_inclusive_and_can_find_a_previous_chunk() {
    let bytes = indexed_fixture(40, true);
    let summary = Summary::read(&bytes).unwrap().unwrap();
    assert!(summary.chunk_indexes.len() > 1);
    let source = McapSource::new(&bytes).unwrap();
    let a = source.catalog().by_topic("/a").unwrap().id;
    assert_eq!(
        source
            .latest_before(&[a], ArrivalTime(1_000_000_000))
            .unwrap()
            .messages[0]
            .payload[0],
        3
    );
    assert_eq!(
        source
            .latest_before(&[a], ArrivalTime(50_000_000_000))
            .unwrap()
            .messages[0]
            .payload[0],
        3
    );
    assert!(source
        .latest_before(&[a], ArrivalTime(-1))
        .unwrap_err()
        .message()
        .contains("timestamp"));
}

#[test]
fn sparse_multi_feature_predecessors_are_independent_of_seek_history() {
    let source = McapSource::new(&sparse_restore_fixture()).unwrap();
    let streams =
        ["/camera", "/path", "/odom"].map(|topic| source.catalog().by_topic(topic).unwrap().id);
    let second = 1_000_000_000_i64;
    for (target, expected) in [
        (50 * second, [2, 10, 21]),
        (85 * second, [2, 11, 21]),
        (99 * second, [2, 11, 22]),
    ] {
        let messages = source
            .latest_before(&streams, ArrivalTime(target))
            .unwrap()
            .messages;
        assert_eq!(
            streams
                .iter()
                .map(|stream| {
                    messages
                        .iter()
                        .find(|message| message.stream_id == *stream)
                        .unwrap()
                        .payload[0]
                })
                .collect::<Vec<_>>(),
            expected
        );
    }

    let late = source.catalog().by_topic("/late").unwrap().id;
    assert!(
        source
            .latest_before(&[late], ArrivalTime(5 * second))
            .unwrap()
            .messages
            .is_empty(),
        "a stream with no predecessor at T is explicitly unavailable"
    );
}

#[test]
fn restore_reports_missing_message_indexes_instead_of_scanning() {
    let source = McapSource::new(&indexed_fixture(128, false)).unwrap();
    let stream = source.catalog().by_topic("/a").unwrap().id;
    assert!(matches!(
        source.latest_before(&[stream], ArrivalTime(1_000_000_000)),
        Err(McapOpenError::MessageIndexRequired(found)) if found == stream
    ));
}

#[test]
fn reads_summary_bearing_mcap_without_chunks_linearly() {
    let mut bytes = Cursor::new(Vec::new());
    {
        let options = WriteOptions::new().use_chunks(false);
        let mut writer = Writer::with_options(&mut bytes, options).unwrap();
        let schema = writer
            .add_schema("example/msg/Value", "ros2msg", b"uint8 value\n")
            .unwrap();
        let channel = writer
            .add_channel(schema, "/value", "cdr", &BTreeMap::new())
            .unwrap();
        writer
            .write_to_known_channel(
                &MessageHeader {
                    channel_id: channel,
                    sequence: 0,
                    log_time: 20,
                    publish_time: 10,
                },
                &[1, 2, 3],
            )
            .unwrap();
        writer
            .write_to_known_channel(
                &MessageHeader {
                    channel_id: channel,
                    sequence: 1,
                    log_time: 21,
                    publish_time: 11,
                },
                &[4, 5],
            )
            .unwrap();
        writer.finish().unwrap();
    }

    let mut source = McapSource::new(&bytes.into_inner()).unwrap();
    assert_eq!(source.time_range(), (ArrivalTime(20), ArrivalTime(21)));
    let stream = source.catalog().by_topic("/value").unwrap().id;
    let query = RangeQuery {
        streams: vec![stream],
        range: TimeRange::new(ArrivalTime(20), ArrivalTime(21)).unwrap(),
        limits: QueryLimits::new(1, 3).unwrap(),
    };
    let result = source.query_range(&query).unwrap();
    assert!(result.complete);
    assert_eq!(result.payload_bytes, 3);
    assert_eq!(result.messages[0].payload, vec![1, 2, 3]);

    let message_limited = source
        .query_range(&RangeQuery {
            streams: vec![stream],
            range: TimeRange::new(ArrivalTime(20), ArrivalTime(22)).unwrap(),
            limits: QueryLimits::new(1, 16).unwrap(),
        })
        .unwrap();
    assert!(!message_limited.complete);
    assert_eq!(message_limited.messages.len(), 1);

    let too_small = source
        .query_range(&RangeQuery {
            limits: QueryLimits::new(1, 2).unwrap(),
            ..query
        })
        .unwrap();
    assert!(!too_small.complete);
    assert!(too_small.messages.is_empty());

    // The independent bounded query must not move sequential playback state.
    let messages = source.read_until(ArrivalTime(20)).unwrap();
    assert_eq!(messages.len(), 1);
    assert_eq!(messages[0].payload, vec![1, 2, 3]);
}

fn recording(compression: Option<Compression>) -> Vec<u8> {
    let mut output = Cursor::new(Vec::new());
    {
        let options = WriteOptions::new()
            .compression(compression)
            .chunk_size(Some(64));
        let mut writer = Writer::with_options(&mut output, options).unwrap();
        let schema = writer
            .add_schema("sensor_msgs/msg/CompressedImage", "ros2msg", b"schema")
            .unwrap();
        let channel = writer
            .add_channel(schema, "/camera", "cdr", &BTreeMap::new())
            .unwrap();
        for sequence in 0..4 {
            writer
                .write_to_known_channel(
                    &MessageHeader {
                        channel_id: channel,
                        sequence,
                        log_time: 1_000 + u64::from(sequence) * 10,
                        publish_time: 1_000 + u64::from(sequence) * 10,
                    },
                    &[sequence as u8; 16],
                )
                .unwrap();
        }
        writer.finish().unwrap();
    }
    output.into_inner()
}

fn camera_recording(compression: Option<Compression>) -> Vec<u8> {
    let mut output = Cursor::new(Vec::new());
    {
        let options = WriteOptions::new()
            .compression(compression)
            .chunk_size(Some(256));
        let mut writer = Writer::with_options(&mut output, options).unwrap();
        let schema = writer
            .add_schema("sensor_msgs/msg/CompressedImage", "ros2msg", b"schema")
            .unwrap();
        let channel = writer
            .add_channel(schema, "/camera", "cdr", &BTreeMap::new())
            .unwrap();
        for sequence in 0..4 {
            let payload = encode_compressed_image_cdr(&CompressedImage {
                measurement_time: MeasurementTime(1_000 + i64::from(sequence)),
                frame_id: "camera".to_owned(),
                format: "jpeg".to_owned(),
                jpeg: vec![0xff, 0xd8, sequence as u8, 0xff, 0xd9],
            })
            .unwrap();
            writer
                .write_to_known_channel(
                    &MessageHeader {
                        channel_id: channel,
                        sequence,
                        log_time: 1_000 + u64::from(sequence) * 10,
                        publish_time: 1_000 + u64::from(sequence) * 10,
                    },
                    &payload,
                )
                .unwrap();
        }
        writer.finish().unwrap();
    }
    output.into_inner()
}

fn facts_of(bytes: &[u8]) -> SummaryFacts {
    SummaryFacts::new(&Summary::read(bytes).unwrap().unwrap())
}

fn collect(bytes: &[u8]) -> (LoadedWindow, usize) {
    let range = TimeRange::new(ArrivalTime(1_000), ArrivalTime(1_031)).unwrap();
    let loaded = collect_window(
        &facts_of(bytes),
        &["/camera".to_owned()],
        range,
        &Bytes::copy_from_slice(bytes),
    )
    .unwrap();
    let source_bytes = loaded.diagnostics.source_bytes;
    (loaded, source_bytes)
}

fn logical_payload_bytes(loaded: &LoadedWindow) -> usize {
    loaded
        .window
        .messages
        .iter()
        .map(|message| message.payload.len())
        .sum()
}

#[test]
fn uncompressed_windows_retain_shared_chunk_backings_without_message_copies() {
    let bytes = recording(None);
    let (loaded, source_bytes) = collect(&bytes);
    assert_eq!(loaded.window.messages.len(), 4);
    assert!(source_bytes < bytes.len());
    assert_eq!(loaded.window.range.start, ArrivalTime(1_000));
    assert_eq!(loaded.window.range.end_exclusive, ArrivalTime(1_031));
    assert_eq!(loaded.diagnostics.per_message_copied_bytes, 0);
    assert_eq!(logical_payload_bytes(&loaded), 64);
    assert_eq!(loaded.window.resident_bytes, source_bytes);
    assert!(loaded.window.resident_bytes >= logical_payload_bytes(&loaded));
}

#[test]
fn zstd_windows_retain_decompressed_backings_without_message_copies() {
    let bytes = recording(Some(Compression::Zstd));
    let (loaded, source_bytes) = collect(&bytes);
    assert_eq!(loaded.window.messages.len(), 4);
    assert!(source_bytes < bytes.len());
    assert_eq!(loaded.window.messages[0].payload.as_ref(), &[0; 16]);
    assert_eq!(loaded.diagnostics.per_message_copied_bytes, 0);
    assert!(loaded.diagnostics.decompressed_bytes > 0);
    assert_eq!(
        loaded.window.resident_bytes,
        loaded.diagnostics.decompressed_bytes
    );
}

fn first_parsed_chunk(bytes: &[u8]) -> ParsedChunk {
    let facts = facts_of(bytes);
    let range = TimeRange::new(ArrivalTime(1_000), ArrivalTime(1_031)).unwrap();
    let mut collector =
        OwnedWindowCollector::new(&facts, &["/camera".to_owned()], range).unwrap();
    let request = collector.next_read().unwrap();
    let file_range = validate_range(bytes.len() as u64, request.offset, request.length).unwrap();
    let compressed =
        Bytes::copy_from_slice(&bytes[file_range.offset as usize..file_range.end() as usize]);
    let (backing, _) = decode_chunk_backing(&request, compressed).unwrap();
    let selected: Vec<u16> = facts.channels().iter().map(|channel| channel.id).collect();
    parse_chunk_backing(backing, &selected, range).unwrap()
}

fn assert_messages_share_backing(parsed: ParsedChunk) {
    assert!(!parsed.messages.is_empty());
    let backing_start = parsed.backing.as_ptr() as usize;
    let backing_end = backing_start + parsed.backing.len();
    for message in &parsed.messages {
        let payload_start = message.payload.as_ptr() as usize;
        assert!(payload_start >= backing_start);
        assert!(payload_start + message.payload.len() <= backing_end);
    }
    assert!(!parsed.backing.is_unique());
    drop(parsed.messages);
    assert!(parsed.backing.is_unique());
}

#[test]
fn uncompressed_message_slices_share_the_file_range_allocation() {
    assert_messages_share_backing(first_parsed_chunk(&recording(None)));
}

#[test]
fn zstd_message_slices_share_the_decompressed_allocation() {
    assert_messages_share_backing(first_parsed_chunk(&recording(Some(Compression::Zstd))));
}

fn reduce_cameras(bytes: &[u8]) -> (Vec<CameraFrame>, PipelineCounters) {
    let facts = facts_of(bytes);
    let catalog =
        LocalCatalog::from_summary(&facts, "/camera", &camera_requirements(), &bindings()).unwrap();
    let range = TimeRange::new(ArrivalTime(1_000), ArrivalTime(1_031)).unwrap();
    let loaded = collect_window(
        &facts,
        &catalog.selected_topics,
        range,
        &Bytes::copy_from_slice(bytes),
    )
    .unwrap();
    let mut core = DomainRuntime::new(catalog.plan);
    core.process(Duration::from_secs(1), &loaded.window.messages);
    let frames = core
        .state()
        .camera
        .frames()
        .into_iter()
        .cloned()
        .collect();
    (frames, core.counters())
}

#[test]
fn compressed_and_uncompressed_windows_reduce_to_the_same_camera_state() {
    let plain = reduce_cameras(&camera_recording(None));
    assert_eq!(plain.0.len(), 1);
    assert_eq!(
        plain,
        reduce_cameras(&camera_recording(Some(Compression::Zstd)))
    );
}

#[test]
fn local_camera_jpeg_shares_the_chunk_and_cdr_allocation() {
    let bytes = camera_recording(Some(Compression::Zstd));
    let facts = facts_of(&bytes);
    let span = facts.span().unwrap();
    let range = TimeRange::new(
        ArrivalTime(span.start as i64),
        ArrivalTime(span.end as i64 + 1),
    )
    .unwrap();
    let mut collector =
        OwnedWindowCollector::new(&facts, &["/camera".to_owned()], range).unwrap();
    let request = collector.next_read().unwrap();
    let file_range = validate_range(bytes.len() as u64, request.offset, request.length).unwrap();
    let compressed =
        Bytes::copy_from_slice(&bytes[file_range.offset as usize..file_range.end() as usize]);
    let (backing, _) = decode_chunk_backing(&request, compressed).unwrap();
    let parsed = parse_chunk_backing(backing, &vec![], range).unwrap();
    let raw = parsed.messages.into_iter().next().unwrap().payload;
    let raw_start = raw.as_ptr() as usize;
    let raw_end = raw_start + raw.len();
    let image = decode_compressed_image_bytes(raw).unwrap();
    let jpeg_start = image.jpeg.as_ptr() as usize;

    assert!(raw_start >= parsed.backing.as_ptr() as usize);
    assert!(raw_end <= parsed.backing.as_ptr() as usize + parsed.backing.len());
    assert!(jpeg_start >= raw_start);
    assert!(jpeg_start + image.jpeg.len() <= raw_end);
}

#[test]
fn range_validation_rejects_whole_file_api_edge_cases() {
    assert!(validate_range(0, 0, 0).is_err());
    assert!(validate_range(10, 9, 2).is_err());
    assert!(validate_range(10, u64::MAX, 2).is_err());
    assert!(validate_range(JS_MAX_SAFE_INTEGER + 1, 0, 0).is_err());
}

#[test]
fn local_reads_seek_read_ahead_and_count() {
    let mut reading = LocalSummaryReads::new(1_000_000);
    assert_eq!(reading.next_range(8).unwrap().length, 8);
    reading.received(8).unwrap();
    assert_eq!(reading.seek(SeekTarget::End(-37)).unwrap(), 999_963);
    assert_eq!(reading.next_range(37).unwrap().length, 37);
    reading.received(37).unwrap();
    assert_eq!(reading.seek(SeekTarget::Start(100_000)).unwrap(), 100_000);
    assert_eq!(reading.next_range(1).unwrap().length, 262_144);
    assert_eq!(reading.seek(SeekTarget::Start(999_990)).unwrap(), 999_990);
    assert_eq!(reading.next_range(1).unwrap().length, 10);
    assert_eq!(
        reading.seek(SeekTarget::Current(11)).unwrap_err().message(),
        "SummaryReader seek is outside the MCAP file"
    );
    assert_eq!((reading.reads, reading.bytes_read), (2, 45));
    assert!(begin_range_read(10, ByteRange { offset: 10, length: 0 }).unwrap().is_none());
    assert!(begin_range_read(10, ByteRange { offset: 9, length: 1 }).unwrap().is_some());
    assert_eq!(
        check_range_read(3, 2).unwrap_err().message(),
        "short MCAP range read: requested 3, received 2"
    );
    assert!(check_range_read(3, 3).is_ok());
}

#[test]
fn chunks_that_cannot_be_decoded_are_named() {
    let request = |compression: &str, length: usize, size: usize| ChunkReadRequest {
        offset: 0,
        length,
        compression: compression.into(),
        uncompressed_size: size,
    };
    assert_eq!(
        decode_chunk_backing(&request("lz4", 1, 1), Bytes::from_static(b"x"))
            .unwrap_err()
            .message(),
        "unsupported browser MCAP compression: lz4"
    );
    assert_eq!(
        decode_chunk_backing(&request("", 1, 2), Bytes::from_static(b"x"))
            .unwrap_err()
            .message(),
        "uncompressed MCAP chunk size mismatch"
    );
    assert!(decode_chunk_backing(&request("zstd", 1, 2), Bytes::from_static(b"x")).is_err());
    let frame = zstd::bulk::compress(b"hello", 1).unwrap();
    let (backing, count) =
        decode_chunk_backing(&request("zstd", frame.len(), 5), Bytes::from(frame)).unwrap();
    assert_eq!(backing.as_ref(), b"hello");
    assert_eq!(count, 5);
    let range = TimeRange::new(ArrivalTime(0), ArrivalTime(10)).unwrap();
    assert_eq!(
        parse_chunk_backing(Bytes::from_static(&[5, 1]), &vec![], range)
            .unwrap_err()
            .message(),
        "truncated MCAP record header in chunk"
    );
    assert_eq!(
        parse_chunk_backing(Bytes::from_static(&[5, 1, 0, 0, 0, 0, 0, 0, 0]), &vec![], range)
            .unwrap_err()
            .message(),
        "truncated MCAP record body in chunk"
    );
}

#[test]
fn window_reads_go_chunk_by_chunk() {
    let bytes = recording(None);
    let facts = facts_of(&bytes);
    let range = TimeRange::new(ArrivalTime(1_000), ArrivalTime(1_031)).unwrap();
    let mut reading =
        LocalWindowReads::new(&facts, &["/camera".to_owned()], range, bytes.len() as u64).unwrap();
    let mut reads = 0;
    while let Some(request) = reading.next_read().unwrap() {
        let start = request.offset as usize;
        let chunk = Bytes::copy_from_slice(&bytes[start..start + request.length]);
        reading.insert(&request, chunk).unwrap();
        reads += 1;
    }
    let loaded = reading.finish(bits(2.5), bits(0.5)).unwrap();
    assert_eq!(loaded.window.messages.len(), 4);
    assert_eq!(loaded.diagnostics.source_reads, reads);
    assert_eq!(loaded.diagnostics.latency_ms, bits(2.5));
    let negative = TimeRange::new(ArrivalTime(-1), ArrivalTime(5)).unwrap();
    assert_eq!(
        LocalWindowReads::new(&facts, &[], negative, 1).unwrap_err().message(),
        "negative browser MCAP window start"
    );
    let mut short =
        LocalWindowReads::new(&facts, &["/camera".to_owned()], range, 10).unwrap();
    assert!(short.next_read().unwrap_err().message().contains("exceeds file size 10"));
    let first = chunk_request(&facts.chunks()[0]).unwrap();
    assert_eq!(first.compression, "");
}

struct Odometry<'a> {
    frame: &'a str,
    position: [f64; 3],
}

fn odometry_payload(odometry: Odometry<'_>) -> Vec<u8> {
    let mut payload = vec![0, 1, 0, 0];
    push_u32(&mut payload, 20);
    push_u32(&mut payload, 50);
    push_string(&mut payload, odometry.frame).unwrap();
    push_string(&mut payload, "base_footprint").unwrap();
    let mut numbers = odometry.position.to_vec();
    numbers.extend([0.0, 0.0, 0.0, 1.0]);
    numbers.extend([0.0; 36]);
    numbers.extend([0.4, 0.1, 0.0, 0.0, 0.0, -0.2]);
    numbers.extend([0.0; 36]);
    for value in numbers {
        align_output(&mut payload, 8);
        payload.extend_from_slice(&value.to_le_bytes());
    }
    payload
}

fn path_payload() -> Vec<u8> {
    let mut payload = vec![0, 1, 0, 0];
    push_u32(&mut payload, 12);
    push_u32(&mut payload, 34);
    push_string(&mut payload, "base_link").unwrap();
    push_u32(&mut payload, 1);
    push_u32(&mut payload, 12);
    push_u32(&mut payload, 34);
    push_string(&mut payload, "base_link").unwrap();
    for value in [2.0_f64, -1.0, 0.0, 0.0, 0.0, 0.0, 1.0] {
        align_output(&mut payload, 8);
        payload.extend_from_slice(&value.to_le_bytes());
    }
    payload
}

fn scan_payload() -> Vec<u8> {
    let mut payload = vec![0, 1, 0, 0];
    push_u32(&mut payload, 12);
    push_u32(&mut payload, 34);
    push_string(&mut payload, "base_scan").unwrap();
    for value in [-1.0_f32, 1.0, 0.5, 0.0, 0.1, 0.12, 8.0] {
        push_u32(&mut payload, value.to_bits());
    }
    push_u32(&mut payload, 3);
    for value in [1.0_f32, f32::INFINITY, 2.0] {
        push_u32(&mut payload, value.to_bits());
    }
    push_u32(&mut payload, 0);
    payload
}

fn tf_payload(parent: &str, child: &str, time: i64, x: f64) -> Vec<u8> {
    encode_tf_message_cdr(&[TransformStamped {
        measurement_time: MeasurementTime(time),
        frame_id: parent.into(),
        child_frame_id: child.into(),
        translation: [x, 0.0, 0.0].map(bits),
        rotation: [0.0, 0.0, 0.0, 1.0].map(bits),
    }])
    .unwrap()
}

const SECOND: i64 = 1_000_000_000;

/// Five seconds of two cameras and every other kind of stream.
fn full_recording() -> Vec<u8> {
    let mut output = Cursor::new(Vec::new());
    {
        let options = WriteOptions::new()
            .compression(Some(Compression::Zstd))
            .chunk_size(Some(4_096));
        let mut writer = Writer::with_options(&mut output, options).unwrap();
        let mut channel = |topic: &str, schema: &str| {
            let schema = writer.add_schema(schema, "ros2msg", b"schema").unwrap();
            writer
                .add_channel(schema, topic, "cdr", &BTreeMap::new())
                .unwrap()
        };
        let front = channel(
            "/camera/front/image/compressed",
            "sensor_msgs/msg/CompressedImage",
        );
        let rear = channel(
            "/camera/rear/image/compressed",
            "sensor_msgs/msg/CompressedImage",
        );
        let odometry = channel("/odom", "nav_msgs/msg/Odometry");
        let path = channel("/planning/path", "nav_msgs/msg/Path");
        let scan = channel("/scan", "sensor_msgs/msg/LaserScan");
        let tf = channel("/tf", "tf2_msgs/msg/TFMessage");
        let tf_static = channel("/tf_static", "tf2_msgs/msg/TFMessage");
        let mut messages: Vec<(u16, i64, Vec<u8>)> = vec![(
            tf_static,
            SECOND,
            tf_payload("base_link", "base_scan", SECOND, 0.5),
        )];
        for step in 0..50_i64 {
            let time = SECOND + step * 100_000_000;
            for camera in [front, rear] {
                messages.push((
                    camera,
                    time,
                    encode_compressed_image_cdr(&CompressedImage {
                        measurement_time: MeasurementTime(time),
                        frame_id: "camera".into(),
                        format: "jpeg".into(),
                        jpeg: vec![step as u8; 32],
                    })
                    .unwrap(),
                ));
            }
            messages.push((
                odometry,
                time + 1,
                odometry_payload(Odometry {
                    frame: "odom",
                    position: [step as f64, 0.0, 0.0],
                }),
            ));
            messages.push((path, time + 2, path_payload()));
            messages.push((scan, time + 3, scan_payload()));
            messages.push((tf, time + 4, tf_payload("odom", "base_link", time, step as f64)));
        }
        for (sequence, (channel, time, payload)) in messages.into_iter().enumerate() {
            writer
                .write_to_known_channel(
                    &MessageHeader {
                        channel_id: channel,
                        sequence: sequence as u32,
                        log_time: time as u64,
                        publish_time: time as u64,
                    },
                    &payload,
                )
                .unwrap();
        }
        writer.finish().unwrap();
    }
    output.into_inner()
}

fn corrupt_last_chunk(mut bytes: Vec<u8>) -> (Vec<u8>, ArrivalTime) {
    let summary = Summary::read(&bytes).unwrap().unwrap();
    assert!(summary.chunk_indexes.len() > 1);
    let last = summary.chunk_indexes.last().unwrap();
    let offset = usize::try_from(last.compressed_data_offset().unwrap()).unwrap();
    let length = usize::try_from(last.compressed_size).unwrap();
    let target = ArrivalTime(i64::try_from(last.message_end_time).unwrap());
    bytes[offset + length / 2] ^= 0x01;
    (bytes, target)
}

#[test]
fn read_failure_does_not_commit_the_candidate_cursor() {
    let (bytes, _) = corrupt_last_chunk(full_recording());
    let mut playback = McapPlayback::new(&bytes).unwrap();
    playback.clock_mut().toggle();
    let committed = playback.clock().cursor();
    let mut processed = false;

    assert!(playback
        .tick(Duration::from_secs(10), |_, _| processed = true)
        .is_err());
    assert_eq!(playback.clock().cursor(), committed);
    assert!(!processed);
}

#[test]
fn successful_processing_precedes_cursor_commit() {
    let mut playback = McapPlayback::new(&full_recording()).unwrap();
    playback.clock_mut().toggle();
    let committed = playback.clock().cursor();
    let requested = playback.clock().cursor_after(Duration::from_millis(100));
    playback
        .tick(Duration::from_millis(100), |_, messages| {
            assert!(!messages.is_empty());
        })
        .unwrap();
    assert_ne!(playback.clock().cursor(), committed);
    assert_eq!(playback.clock().cursor(), requested);
}

#[test]
fn failed_restore_read_never_calls_restore_or_commits_cursor() {
    let (bytes, corrupt_target) = corrupt_last_chunk(full_recording());
    let mut playback = McapPlayback::new(&bytes).unwrap();
    let committed = playback.clock().cursor();
    let mut restored = false;
    let restore_plan = RestorePlan {
        target: corrupt_target,
        latest_before: Vec::new(),
        histories: vec![RestoreRead {
            streams: playback
                .catalog()
                .streams
                .iter()
                .map(|stream| stream.id)
                .collect(),
            range: TimeRange::new(
                playback.clock().start(),
                ArrivalTime(corrupt_target.0 + 1),
            )
            .unwrap(),
        }],
        persistent: Vec::new(),
    };

    assert!(playback
        .seek_with(&restore_plan, |_, _| {
            restored = true;
            Ok::<(), std::convert::Infallible>(())
        })
        .is_err());
    assert_eq!(playback.clock().cursor(), committed);
    assert!(!restored);
}

#[test]
fn restore_application_failure_preserves_source_position_and_cursor() {
    let mut playback = McapPlayback::new(&full_recording()).unwrap();
    let committed = playback.clock().cursor();
    let target = ArrivalTime((playback.clock().start().0 + playback.clock().end().0) / 2);
    let plan = RestorePlan {
        target,
        latest_before: Vec::new(),
        histories: Vec::new(),
        persistent: Vec::new(),
    };

    let result = playback.seek_with(&plan, |_, _| {
        Err(std::io::Error::other("candidate decode failed"))
    });
    assert!(matches!(result, Err(McapSeekError::Restore(_))));
    assert_eq!(playback.clock().cursor(), committed);

    let mut replayed = Vec::new();
    playback
        .tick(Duration::ZERO, |_, messages| replayed = messages)
        .unwrap();
    assert!(replayed
        .iter()
        .all(|message| message.arrival_time <= committed));
}

#[test]
fn seeks_restore_the_planned_messages() {
    let mut playback = McapPlayback::new(&full_recording()).unwrap();
    let odom = playback.catalog().by_topic("/odom").unwrap().id;
    let tf = playback.catalog().by_topic("/tf").unwrap().id;
    let tf_static = playback.catalog().by_topic("/tf_static").unwrap().id;
    playback.bootstrap_persistent(&[tf_static]).unwrap();
    let target = ArrivalTime(3 * SECOND);
    let plan = RestorePlan {
        target,
        latest_before: vec![odom],
        histories: vec![RestoreRead {
            streams: vec![tf],
            range: TimeRange::new(ArrivalTime(2 * SECOND), ArrivalTime(3 * SECOND + 1)).unwrap(),
        }],
        persistent: vec![tf_static],
    };
    let mut restored = Vec::new();
    playback
        .seek_with(&plan, |at, messages| {
            assert_eq!(at, target);
            restored = messages;
            Ok::<(), std::convert::Infallible>(())
        })
        .unwrap();
    assert_eq!(playback.clock().cursor(), target);
    let count = |stream: StreamId| {
        restored
            .iter()
            .filter(|message| message.stream_id == stream)
            .count()
    };
    assert_eq!((count(odom), count(tf), count(tf_static)), (1, 10, 1));
    assert!(restored.iter().all(|message| message.arrival_time <= target));
}

fn requirements() -> PlaybackRequirements {
    let mut requirements = PlaybackRequirements::empty();
    requirements.require_all_cameras();
    requirements.require_path();
    requirements.require_odometry();
    requirements.require_point_cloud();
    requirements.require_transforms();
    requirements
}

#[derive(Clone, Debug, PartialEq)]
struct VisibleSnapshot {
    cameras: Vec<CameraFrame>,
    path: Option<BevPathFrame>,
    odometry: Option<TelemetryFrame>,
    static_transforms: usize,
    dynamic_transforms: usize,
    transform_revision: u64,
    scene: Option<PointCloudFrame>,
    priority: Option<CameraId>,
    counters: ProcessingCounters,
}

fn snapshot(runtime: &FeatureRuntime) -> VisibleSnapshot {
    VisibleSnapshot {
        cameras: runtime
            .cameras()
            .state()
            .frames()
            .into_iter()
            .cloned()
            .collect(),
        path: runtime.path().state().latest().cloned(),
        odometry: runtime.odometry().state().latest().cloned(),
        static_transforms: runtime.transforms().state().static_len(),
        dynamic_transforms: runtime.transforms().state().dynamic_len(),
        transform_revision: runtime.transforms().state().revision(),
        scene: runtime
            .scene()
            .and_then(|scene| scene.point_cloud().latest())
            .cloned(),
        priority: runtime.scheduling_priority(),
        counters: runtime.counters(),
    }
}

fn populated_runtime() -> (SessionPlan, Vec<RawMessage>, FeatureRuntime) {
    let mut source = McapSource::new(&full_recording()).unwrap();
    let catalog = SourceCatalog {
        time_range: source.catalog().time_range,
        streams: source.catalog().streams.clone(),
    };
    let plan = SessionPlan::build(
        &catalog,
        "/camera/front/image/compressed",
        &requirements(),
        &bindings(),
    )
    .unwrap();
    source.select_streams(plan.selected_stream_ids());
    let (_, end) = source.time_range();
    let messages = source.read_until(end).unwrap();
    let mut runtime = FeatureRuntime::new(&plan, true);
    runtime.process_messages(Duration::from_secs(10), &messages);
    (plan, messages, runtime)
}

fn malformed(stream_id: StreamId, arrival_time: ArrivalTime) -> RawMessage {
    RawMessage {
        stream_id,
        arrival_time,
        payload: Bytes::from_static(&[0xff]),
    }
}

#[test]
fn malformed_restore_for_any_feature_preserves_every_visible_state() {
    let (plan, _, mut runtime) = populated_runtime();
    let before = snapshot(&runtime);
    assert!(before.scene.is_some() && before.odometry.is_some() && before.path.is_some());
    let target = ArrivalTime(5_000_000_000);
    let streams = [
        plan.stream_to(DomainTarget::Camera(CameraId(0))).unwrap(),
        plan.stream_to(DomainTarget::Path).unwrap(),
        plan.stream_to(DomainTarget::Telemetry).unwrap(),
        plan.stream_to(DomainTarget::Transforms { is_static: false })
            .unwrap(),
        plan.stream_to(DomainTarget::PointCloud).unwrap(),
    ];

    for stream in streams {
        let error = runtime
            .restore_transactional(target, &[malformed(stream, target)])
            .unwrap_err();
        assert_eq!(error.stream_id, stream);
        assert!(matches!(error.kind, FeatureRestoreErrorKind::Decode { .. }));
        assert_eq!(
            snapshot(&runtime),
            before,
            "stream {} partially committed",
            stream.0
        );
    }
}

#[test]
fn multi_feature_failure_discards_earlier_successful_candidate_updates() {
    let (plan, messages, mut runtime) = populated_runtime();
    let before = snapshot(&runtime);
    let camera_stream = plan.stream_to(DomainTarget::Camera(CameraId(0))).unwrap();
    let valid_camera = messages
        .iter()
        .rev()
        .find(|message| message.stream_id == camera_stream)
        .unwrap()
        .clone();
    let invalid_path = malformed(
        plan.stream_to(DomainTarget::Path).unwrap(),
        ArrivalTime(valid_camera.arrival_time.0.saturating_add(1)),
    );

    assert!(runtime
        .restore_transactional(invalid_path.arrival_time, &[valid_camera, invalid_path])
        .is_err());
    assert_eq!(snapshot(&runtime), before);
}

#[test]
fn identical_native_and_web_runtime_scenarios_have_one_result() {
    let (plan, messages, _) = populated_runtime();
    let mut native = FeatureRuntime::new(&plan, false);
    let mut web = FeatureRuntime::new(&plan, false);
    native.process_messages(Duration::from_millis(250), &messages);
    web.process_messages(Duration::from_millis(250), &messages);
    assert_eq!(snapshot(&native), snapshot(&web));
}

#[test]
fn a_restore_of_unknown_streams_names_the_stream() {
    let (_, _, mut runtime) = populated_runtime();
    let error = runtime
        .restore_transactional(ArrivalTime(5), &[malformed(StreamId(999), ArrivalTime(5))])
        .unwrap_err();
    assert_eq!(error.stream_id, StreamId(999));
    assert!(matches!(error.kind, FeatureRestoreErrorKind::Unrouted));
    assert!(error.message().contains("999"));
}

#[test]
fn fixture_catalog_keeps_all_cameras_and_standard_streams() {
    let facts = facts_of(&full_recording());
    let catalog = LocalCatalog::from_summary(
        &facts,
        "/camera/front/image/compressed",
        &requirements(),
        &bindings(),
    )
    .unwrap();

    assert_eq!(
        catalog
            .core
            .streams
            .iter()
            .filter(|stream| stream.schema == "sensor_msgs/msg/CompressedImage")
            .count(),
        2
    );
    assert!(catalog.core.by_topic("/odom").is_some());
    assert!(catalog
        .core
        .streams
        .iter()
        .all(|stream| stream.timing.message_count.is_some()));
    assert_eq!(
        catalog.core.time_range,
        Some(RecordingTimeRange {
            start: catalog.start,
            end_exclusive: catalog.end_exclusive,
        })
    );
    assert_eq!(catalog.end_exclusive.0, catalog.end.0 + 1);
    assert_eq!(
        catalog.selected_topics,
        catalog.plan.selected_topics(),
        "loader selection comes only from the shared SessionPlan"
    );
}

#[test]
fn direct_message_reduction_matches_local_playback() {
    let mut source = McapSource::new(&full_recording()).unwrap();
    let mut domain = DomainRuntime::from_catalog(
        source.catalog(),
        "/camera/front/image/compressed",
        &requirements(),
        &bindings(),
    )
    .unwrap();
    let messages = source.read_until(source.time_range().1).unwrap();
    domain.process(Duration::from_secs(10), &messages);

    let mut playback = McapPlayback::new(&full_recording()).unwrap();
    playback.clock_mut().toggle();
    let mut played = Vec::new();
    playback
        .tick(Duration::from_secs(10), |_, messages| played = messages)
        .unwrap();
    let mut other = DomainRuntime::from_catalog(
        playback.catalog(),
        "/camera/front/image/compressed",
        &requirements(),
        &bindings(),
    )
    .unwrap();
    other.process(Duration::from_secs(10), &played);

    assert_eq!(messages.len(), played.len());
    assert_eq!(domain.counters(), other.counters());
    assert_eq!(
        domain
            .state()
            .camera
            .latest_by_arrival()
            .map(|frame| frame.arrival_time),
        other
            .state()
            .camera
            .latest_by_arrival()
            .map(|frame| frame.arrival_time)
    );
    assert_eq!(
        domain.schedule().input_frames(),
        other.schedule().input_frames()
    );
    assert_eq!(
        domain.schedule().presented_frames(),
        other.schedule().presented_frames()
    );
}

#[derive(Debug, PartialEq)]
struct ReducedFeatureState {
    cameras: Vec<CameraFrame>,
    telemetry: Option<TelemetryFrame>,
    path: Option<BevPathFrame>,
    transform_counts: (usize, usize),
    counters: ProcessingCounters,
}

fn reduce_features(plan: &SessionPlan, messages: &[RawMessage]) -> ReducedFeatureState {
    let mut cameras = CameraController::new(plan);
    let mut path = PathController::new(plan);
    let mut odometry = OdometryController::new(plan);
    let mut transforms = TransformController::new(plan);
    for message in messages {
        cameras.admit_message(message);
        path.process(message);
        odometry.process(message);
        transforms.process(message);
    }
    cameras.advance(Duration::from_secs(1));
    let mut counters = cameras.counters();
    counters.merge(path.counters());
    counters.merge(odometry.counters());
    counters.merge(transforms.counters());
    ReducedFeatureState {
        cameras: cameras.state().frames().into_iter().cloned().collect(),
        telemetry: odometry.state().latest().cloned(),
        path: path.state().latest().cloned(),
        transform_counts: (
            transforms.state().static_len(),
            transforms.state().dynamic_len(),
        ),
        counters,
    }
}

#[test]
fn local_indexed_and_remote_batch_windows_reduce_to_the_same_feature_state() {
    let bytes = full_recording();
    let facts = facts_of(&bytes);
    let catalog = LocalCatalog::from_summary(
        &facts,
        "/camera/front/image/compressed",
        &requirements(),
        &bindings(),
    )
    .unwrap();
    let recording = catalog.core.time_range.unwrap();
    let window_end = ArrivalTime(
        recording
            .start
            .0
            .saturating_add(1_000_000_000)
            .min(recording.end_exclusive.0),
    );
    let range = TimeRange::new(recording.start, window_end).unwrap();
    let local = collect_window(&facts, &catalog.selected_topics, range, &Bytes::from(bytes))
        .unwrap();
    let camera_stream = catalog
        .core
        .by_topic("/camera/front/image/compressed")
        .unwrap()
        .id;
    let camera_payload_ranges = local
        .window
        .messages
        .iter()
        .filter(|message| message.stream_id == camera_stream)
        .map(|message| {
            let start = message.payload.as_ptr() as usize;
            start..start + message.payload.len()
        })
        .collect::<Vec<_>>();

    let mut body = Vec::new();
    let mut messages = Vec::new();
    for message in &local.window.messages {
        let start = body.len();
        body.extend_from_slice(&message.payload);
        messages.push(BatchMessage {
            stream_id: message.stream_id.0,
            log_time_ns: message.arrival_time.0 as u64,
            payload: Some((start, body.len())),
        });
    }
    let mut assembler = WindowAssembler::new(range);
    assert!(assembler
        .push_page(RemoteBatchPage {
            body: Bytes::from(body),
            message_count: messages.len(),
            messages,
            complete: true,
            next_cursor: None,
            recording_revision: "test".into(),
        })
        .unwrap());
    let remote = assembler.finish(bits(0.0)).unwrap();
    assert_eq!(local.window.messages, remote.window.messages);

    let local_state = reduce_features(&catalog.plan, &local.window.messages);
    let remote_state = reduce_features(&catalog.plan, &remote.window.messages);
    assert_eq!(local_state.cameras, remote_state.cameras);
    let retained_jpeg = &local_state.cameras.first().unwrap().jpeg;
    let jpeg_start = retained_jpeg.as_ptr() as usize;
    assert!(camera_payload_ranges.iter().any(|payload| {
        jpeg_start >= payload.start && jpeg_start + retained_jpeg.len() <= payload.end
    }));
    assert_eq!(local_state.telemetry, remote_state.telemetry);
    assert_eq!(local_state.path, remote_state.path);
    assert_eq!(local_state.transform_counts, remote_state.transform_counts);
    assert_eq!(local_state.counters, remote_state.counters);
}

#[test]
fn sources_seek_forward_and_back() {
    let mut source = McapSource::new(&full_recording()).unwrap();
    let odom = source.catalog().by_topic("/odom").unwrap().id;
    source.select_streams(vec![odom]);
    let first = source.read_until(ArrivalTime(2 * SECOND)).unwrap();
    assert_eq!(first.len(), 10);
    source.seek(ArrivalTime(SECOND)).unwrap();
    assert_eq!(source.read_until(ArrivalTime(2 * SECOND)).unwrap().len(), 10);
    let later = source.prepare_seek(ArrivalTime(5 * SECOND)).unwrap();
    source.commit_seek(later);
    let rest = source.read_until(source.time_range().1).unwrap();
    assert!(rest.iter().all(|message| message.arrival_time.0 >= 5 * SECOND));
    assert_eq!(rest.len(), 10);
    let history = source
        .indexed_range(
            &[odom],
            TimeRange::new(ArrivalTime(2 * SECOND), ArrivalTime(3 * SECOND)).unwrap(),
        )
        .unwrap();
    assert_eq!(history.messages.len(), 10);
    assert_eq!(source.indexed_streams(&[odom]).unwrap().messages.len(), 50);
}

#[test]
fn playback_owns_a_file_or_says_why_not() {
    let copied = McapPlayback::new(&full_recording()).unwrap();
    let owned = McapPlayback::from_owner(full_recording()).unwrap();
    assert_eq!(copied.clock().start(), owned.clock().start());
    assert_eq!(copied.clock().end(), owned.clock().end());
    assert_eq!(copied.catalog().streams, owned.catalog().streams);
    let Err(error) = McapPlayback::from_owner(b"not a recording".to_vec()) else {
        panic!("opened what is no recording");
    };
    assert!(error.message().starts_with("MCAP error: "));
    let error = McapPlaybackError::from(McapOpenError::TimestampOverflow);
    assert_eq!(error.message(), "MCAP timestamp exceeds signed nanosecond range");
}

#[test]
fn files_that_are_no_recordings_are_refused() {
    assert!(matches!(
        McapSource::new(b"not a recording"),
        Err(McapOpenError::Mcap(_))
    ));
    assert_eq!(
        McapOpenError::TimestampOverflow.message(),
        "MCAP timestamp exceeds signed nanosecond range"
    );
    let planner_catalog = SourceCatalog {
        time_range: None,
        streams: vec![],
    };
    assert!(matches!(
        RestorePlanner::new(&planner_catalog).plan(ArrivalTime(0), &[]),
        Err(RestorePlanError::NoTimeRange)
    ));
}

#[test]
fn steps_of_reading_add_up_to_one_read() {
    let mut whole = McapSource::new(&full_recording()).unwrap();
    let expected = whole.read_until(ArrivalTime(5 * SECOND)).unwrap();
    let mut stepped = McapSource::new(&full_recording()).unwrap();
    let mut read = Vec::new();
    for tenth in 10..=50_i64 {
        let through = ArrivalTime(tenth * SECOND / 10);
        let step = stepped.read_until(through).unwrap();
        assert!(step.iter().all(|message| message.arrival_time <= through));
        read.extend(step);
    }
    assert_eq!(read.len(), 243);
    assert_eq!(read, expected);
    assert_eq!(
        stepped.read_until(ArrivalTime(9 * SECOND)).unwrap(),
        whole.read_until(ArrivalTime(9 * SECOND)).unwrap()
    );
}

#[test]
fn what_a_seek_restored_is_not_read_again() {
    let mut playback = McapPlayback::from_owner(full_recording()).unwrap();
    let odom = playback.catalog().by_topic("/odom").unwrap().id;
    let target = ArrivalTime(3 * SECOND + 1);
    let plan = RestorePlan {
        target,
        latest_before: vec![odom],
        histories: Vec::new(),
        persistent: Vec::new(),
    };
    let mut restored = Vec::new();
    playback
        .seek_with(&plan, |_, messages| {
            restored = messages;
            Ok::<(), std::convert::Infallible>(())
        })
        .unwrap();
    assert_eq!(restored.len(), 1);
    assert_eq!(restored[0].arrival_time, target);
    playback.clock_mut().play();
    let mut read = Vec::new();
    playback
        .tick(Duration::from_millis(100), |_, messages| read = messages)
        .unwrap();
    assert_eq!(
        read.first().map(|message| message.arrival_time),
        Some(ArrivalTime(3 * SECOND + 2))
    );
    assert!(read.iter().all(|message| message.arrival_time > target));
}

#[test]
fn windows_read_the_chunks_they_need_once() {
    let bytes = full_recording();
    let facts = facts_of(&bytes);
    let range = TimeRange::new(ArrivalTime(2 * SECOND), ArrivalTime(3 * SECOND)).unwrap();
    let needed: Vec<u64> = facts
        .chunks()
        .iter()
        .filter(|chunk| {
            chunk.message_end_time >= range.start.0 as u64
                && chunk.message_start_time < range.end_exclusive.0 as u64
        })
        .map(|chunk| chunk_request(chunk).unwrap().offset)
        .collect();
    assert!(needed.len() < facts.chunks().len());
    let mut collector =
        OwnedWindowCollector::new(&facts, &["/odom".to_owned()], range).unwrap();
    let mut read = Vec::new();
    while let Some(request) = collector.next_read() {
        read.push(request.offset);
    }
    assert_eq!(read, needed);
}

#[test]
fn searches_open_no_chunk_twice() {
    let source = McapSource::new(&full_recording()).unwrap();
    let streams: Vec<StreamId> = source.catalog().streams.iter().map(|stream| stream.id).collect();
    let found = source.latest_before(&streams, ArrivalTime(4 * SECOND)).unwrap();
    assert_eq!(found.messages.len(), streams.len());
    assert!(found.diagnostics.chunks_streamed <= streams.len());
    let everything = source.indexed_streams(&streams).unwrap();
    assert!(everything
        .messages
        .windows(2)
        .all(|pair| pair[0].arrival_time <= pair[1].arrival_time));
}

fn chunk_message(channel: u16, log_time: u64, marker: u8) -> ChunkMessage {
    ChunkMessage {
        channel,
        log_time,
        data: Bytes::copy_from_slice(&[marker]),
    }
}

#[test]
fn messages_of_a_chunk_are_kept_by_stream_and_range() {
    let messages = || {
        vec![
            chunk_message(1, 20, 1),
            chunk_message(2, 10, 2),
            chunk_message(1, 30, 3),
            chunk_message(1, 30, 4),
        ]
    };
    let times = |kept: &[RawMessage]| -> Vec<(u32, i64, u8)> {
        kept.iter()
            .map(|message| (message.stream_id.0, message.arrival_time.0, message.payload[0]))
            .collect()
    };
    let all = keep_messages(messages(), &None).unwrap();
    assert_eq!(times(&all), [(1, 20, 1), (2, 10, 2), (1, 30, 3), (1, 30, 4)]);
    let some = keep_messages(messages(), &Some(vec![StreamId(2)])).unwrap();
    assert_eq!(times(&some), [(2, 10, 2)]);
    assert!(matches!(
        keep_messages(vec![chunk_message(1, u64::MAX, 1)], &None),
        Err(McapOpenError::TimestampOverflow)
    ));

    let mut found = Vec::new();
    let range = TimeRange::new(ArrivalTime(15), ArrivalTime(30)).unwrap();
    push_in_range(&mut found, &messages(), &[StreamId(1), StreamId(2)], range).unwrap();
    assert_eq!(times(&found), [(1, 20, 1)]);

    let last = find_last(&messages(), StreamId(1), 30).unwrap();
    assert_eq!(times(&[last]), [(1, 30, 4)]);
    assert!(find_last(&messages(), StreamId(2), 30).is_none());
    assert_eq!(latest_of(&vec![5, 40, 20], 30), Some(20));
    assert_eq!(latest_of(&vec![5, 40], 4), None);
}

#[test]
fn chunks_tell_the_span_of_a_file() {
    let facts = facts_of(&full_recording());
    let span = indexed_span(facts.chunks());
    assert_eq!((span.start, span.end), (1_000_000_000, 5_900_000_004));
    assert_eq!(count_ended(facts.chunks(), ArrivalTime(0)), 0);
    assert_eq!(
        count_ended(facts.chunks(), ArrivalTime(6_000_000_000)),
        facts.chunks().len()
    );
    let empty = indexed_span(&Vec::new());
    assert_eq!((empty.start, empty.end), (0, 0));
}

#[test]
fn searches_for_the_latest_read_back_window_by_window() {
    let bytes = indexed_fixture(128, true);
    let facts = facts_of(&bytes);
    let source = McapSource::new(&bytes).unwrap();
    let streams: Vec<StreamId> = ["/a", "/b"]
        .iter()
        .map(|topic| source.catalog().by_topic(topic).unwrap().id)
        .collect();
    assert_eq!(topics_of(&facts, &streams), ["/a", "/b"]);
    assert!(topics_of(&facts, &[StreamId(99), StreamId(70_000)]).is_empty());
    for target in [0, 999_999_999, 1_000_000_000, 79_999_999_999, 99_000_000_000] {
        let target = ArrivalTime(target);
        let mut search = LatestSearch::new(&streams, ArrivalTime(0), target);
        let mut end = target.0 + 1;
        while let Some(range) = search.next_range() {
            assert_eq!(range.end_exclusive.0, end);
            end = range.start.0;
            let topics = topics_of(&facts, search.missing());
            let file = Bytes::copy_from_slice(&bytes);
            let loaded = collect_window(&facts, &topics, range, &file).unwrap();
            search.receive(&retain_streams(loaded.window.messages, search.missing()));
        }
        let mut found = search.finish();
        found.sort_by_key(|message| message.stream_id);
        let mut expected = source.latest_before(&streams, target).unwrap().messages;
        expected.sort_by_key(|message| message.stream_id);
        assert_eq!(found, expected);
    }
    let mut search = LatestSearch::new(&streams, ArrivalTime(0), ArrivalTime(10_000_000_000));
    let span = FIRST_SEARCH_SPAN_NS as i64;
    assert_eq!(search.next_range().unwrap().start.0, 10_000_000_001 - span);
    search.receive(&Vec::new());
    assert_eq!(search.next_range().unwrap().start.0, 10_000_000_001 - 3 * span);
    assert!(LatestSearch::new(&[], ArrivalTime(0), ArrivalTime(5)).next_range().is_none());
    assert!(LatestSearch::new(&streams, ArrivalTime(6), ArrivalTime(5)).next_range().is_none());
}

#[test]
fn refused_chunks_are_counted() {
    let bytes = recording(None);
    let facts = facts_of(&bytes);
    let range = TimeRange::new(ArrivalTime(1_000), ArrivalTime(1_031)).unwrap();
    let topics = ["/camera".to_owned()];
    let mut reading = LocalWindowReads::new(&facts, &topics, range, bytes.len() as u64).unwrap();
    let request = reading.next_read().unwrap().unwrap();
    let short = Bytes::from_static(&[0; 3]);
    assert_eq!(
        reading.insert(&request, short).unwrap_err().message(),
        "browser MCAP chunk range is truncated"
    );
    let start = request.offset as usize;
    let chunk = Bytes::copy_from_slice(&bytes[start..start + request.length]);
    reading.insert(&request, chunk).unwrap();
    let loaded = reading.finish(bits(0.0), bits(0.0)).unwrap();
    assert_eq!(loaded.diagnostics.source_reads, 2);
    assert_eq!(loaded.diagnostics.source_bytes, request.length + 3);
}

#[test]
fn complete_queries_hold_exactly_the_messages_of_their_range() {
    for chunk_size in [16, 128, 4096] {
        let source = McapSource::new(&indexed_fixture(chunk_size, true)).unwrap();
        let streams: Vec<StreamId> = ["/a", "/b"]
            .iter()
            .map(|topic| source.catalog().by_topic(topic).unwrap().id)
            .collect();
        let all = [
            (0, 0_i64, 1_u8),
            (1, 0, 2),
            (0, 1_000_000_000, 3),
            (1, 80_000_000_000, 4),
            (0, 100_000_000_000, 5),
        ];
        for chosen in [&streams[..], &streams[..1], &streams[1..]] {
            for (start, end) in [
                (0, 1),
                (0, 1_000_000_000),
                (1, 1_000_000_001),
                (1_000_000_000, 80_000_000_000),
                (1_000_000_001, 100_000_000_000),
                (0, 200_000_000_000),
                (100_000_000_001, 200_000_000_000),
            ] {
                let query = RangeQuery {
                    streams: chosen.to_vec(),
                    range: TimeRange::new(ArrivalTime(start), ArrivalTime(end)).unwrap(),
                    limits: QueryLimits::new(10, 100).unwrap(),
                };
                let found = source.query_range(&query).unwrap();
                assert!(found.complete);
                let markers: Vec<u8> = found.messages.iter().map(|m| m.payload[0]).collect();
                let expected: Vec<u8> = all
                    .iter()
                    .filter(|(stream, time, _)| {
                        chosen.contains(&streams[*stream]) && (start..end).contains(time)
                    })
                    .map(|(_, _, marker)| *marker)
                    .collect();
                assert_eq!(markers, expected);
            }
        }
    }
}

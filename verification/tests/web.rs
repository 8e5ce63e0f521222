use bytes::Bytes;
use mcap_player::feature::camera::CameraId;
use mcap_player::feature::transform::TransformRoute;
use mcap_player::message::cdr::image::{encode_compressed_image_cdr, CompressedImage};
use mcap_player::message::cdr::transform::{encode_tf_message_cdr, TransformStamped};
use mcap_player::message::float::F64;
use mcap_player::message::time::{ArrivalTime, MeasurementTime};
use mcap_player::playback::clock::{PlaybackCommand, PlaybackLoadState, PlaybackSpeed};
use mcap_player::playback::data_plane::{FetchIntent, FetchProfile, RecordingDataPlane};
use mcap_player::playback::data_window::{SerializedWindow, TimeRange};
use mcap_player::playback::web_playback::{
    PlaybackEffect, RestoreResult, WebPlayback, WebPlaybackError,
};
use mcap_player::playback::window_loader::{
    DataLoadError, LoadRequest, LoadResult, LoadSource, LoadedWindow, WindowLoadDiagnostics,
    WindowLoader, WindowLoaderMetrics,
};
use mcap_player::recording::raw::{RawMessage, StreamId};
use mcap_player::recording::requirements::{
    web_playback_requirements, PlaybackRequirements, WorkspaceBindings,
};
use mcap_player::recording::session::SessionPlan;
use mcap_player::remote::catalog::{
    adapt_catalog, format_catalog, CatalogResponse, RemoteCatalog, RemoteStream,
};
use mcap_player::remote::client::{
    encode_path_segment, http_error, parse_count, validate_batch_response, validate_schema,
    BatchMessage, BatchResponseMetadata, RemoteApiClient, RemoteBatchPage, RemoteBatchRequest,
    RequestGeneration,
};
use mcap_player::remote::control::{connected_words, RemoteSelection};
use mcap_player::remote::pages::{WindowAssembler, WindowFetch};
use mcap_player::remote::playback::RemotePlayback;
use mcap_player::remote::source::{
    CompletedWindow, FetchResult, FetchWindow, PagedFetch, RemoteBatchSource, RemoteSourceError,
    RemoteSourceStatus, WindowAssembler as SourceAssembler,
};
use std::time::Duration;

const SECOND: i64 = 1_000_000_000;

fn bits(value: f64) -> F64 {
    F64(value.to_bits())
}

fn range(start: i64, end: i64) -> TimeRange {
    TimeRange::new(ArrivalTime(start), ArrivalTime(end)).unwrap()
}

fn data_plane(max_bytes: usize) -> RecordingDataPlane {
    let loader = WindowLoader::new(LoadSource::Remote, WindowLoaderMetrics::default());
    let profile =
        FetchProfile::new(Duration::from_secs(1), Duration::from_secs(2), max_bytes).unwrap();
    RecordingDataPlane::with_profile(loader, ArrivalTime(0), ArrivalTime(4 * SECOND), profile)
        .unwrap()
}

fn loaded(start: i64, end: i64, messages: Vec<RawMessage>, resident_bytes: usize) -> LoadedWindow {
    LoadedWindow {
        window: SerializedWindow::new(range(start, end), messages, resident_bytes).unwrap(),
        diagnostics: WindowLoadDiagnostics {
            source_reads: 1,
            source_bytes: resident_bytes,
            decompressed_bytes: 0,
            per_message_copied_bytes: 0,
            latency_ms: bits(1.0),
            processing_ms: bits(0.0),
        },
    }
}

fn message(time: i64, payload: Bytes) -> RawMessage {
    RawMessage {
        stream_id: StreamId(1),
        arrival_time: ArrivalTime(time),
        payload,
    }
}

fn requested(data: &RecordingDataPlane) -> Option<TimeRange> {
    data.loader().current_request().map(|request| request.range)
}

fn complete_request(data: &mut RecordingDataPlane, loaded: LoadedWindow, cursor: ArrivalTime) {
    let request = data.loader().current_request().unwrap();
    data.loader_mut().complete(request, Ok(loaded));
    assert!(data.poll(cursor).unwrap());
}

#[test]
fn complete_windows_publish_once_without_copying_payloads() {
    let mut data = data_plane(1024);
    data.ensure_available_through(
        ArrivalTime(0),
        ArrivalTime(0),
        PlaybackSpeed::Normal,
        FetchIntent::PlaybackAhead,
    )
    .unwrap();
    let backing = Bytes::from_static(b"batch-payload");
    let payload = backing.slice(6..);
    let pointer = payload.as_ptr();
    complete_request(
        &mut data,
        loaded(0, SECOND, vec![message(0, payload)], backing.len()),
        ArrivalTime(0),
    );

    let messages = data.messages_through(ArrivalTime(0), ArrivalTime(SECOND - 1));
    assert_eq!(messages.len(), 1);
    assert_eq!(messages[0].payload.as_ptr(), pointer);
    let diagnostics = data.diagnostics(ArrivalTime(0), PlaybackSpeed::Normal);
    assert_eq!(diagnostics.logical_payload_bytes, 7);
    assert_eq!(diagnostics.resident_bytes, backing.len());
    assert_eq!(
        diagnostics
            .retention_ratio()
            .map(|(resident, logical)| resident as f64 / logical as f64),
        Some(backing.len() as f64 / 7.0)
    );
    assert_eq!(diagnostics.target_ahead_ns, 2 * SECOND);
    assert_eq!(diagnostics.actual_buffer_ahead_ns, SECOND);
    assert_eq!(diagnostics.buffer_underrun_count, 0);
    assert!(data
        .messages_through(ArrivalTime(0), ArrivalTime(SECOND - 1))
        .is_empty());
    assert!(data.is_complete_through(ArrivalTime(SECOND - 1)));
    assert!(!data.is_complete_through(ArrivalTime(SECOND)));
}

#[test]
fn ram_budget_evicts_old_windows_after_cursor_advances() {
    let mut data = data_plane(8);
    for index in 0..3 {
        let start = index * SECOND;
        data.ensure_available_through(
            ArrivalTime(start),
            ArrivalTime(start),
            PlaybackSpeed::Normal,
            FetchIntent::PlaybackAhead,
        )
        .unwrap();
        complete_request(
            &mut data,
            loaded(start, start + SECOND, vec![], 4),
            ArrivalTime(start),
        );
    }

    let diagnostics = data.diagnostics(ArrivalTime(SECOND + 1), PlaybackSpeed::Normal);
    assert_eq!(diagnostics.window_count, 2);
    assert_eq!(diagnostics.resident_bytes, 8);
    assert_eq!(diagnostics.eviction_count, 1);
}

#[test]
fn loader_failure_never_reaches_the_store() {
    let mut data = data_plane(1024);
    data.ensure_available_through(
        ArrivalTime(0),
        ArrivalTime(0),
        PlaybackSpeed::Normal,
        FetchIntent::PlaybackAhead,
    )
    .unwrap();
    let request = data.loader().current_request().unwrap();
    data.loader_mut().complete(
        request,
        Err(DataLoadError::new("stale or failed load".into())),
    );

    assert!(data.poll(ArrivalTime(0)).is_err());
    assert_eq!(data.resident_bytes(), 0);
}

#[test]
fn seek_cancels_the_old_request_and_rebases_the_next_required_window() {
    let mut data = data_plane(1024);
    data.ensure_available_through(
        ArrivalTime(0),
        ArrivalTime(0),
        PlaybackSpeed::Normal,
        FetchIntent::PlaybackAhead,
    )
    .unwrap();
    assert_eq!(requested(&data), Some(range(0, SECOND)));

    data.begin_seek(ArrivalTime(2 * SECOND)).unwrap();
    assert!(data.loader().is_idle());
    assert!(requested(&data).is_none());
    assert!(!data.is_complete_through(ArrivalTime(2 * SECOND)));

    data.ensure_available_through(
        ArrivalTime(2 * SECOND),
        ArrivalTime(2 * SECOND),
        PlaybackSpeed::Normal,
        FetchIntent::RequiredOnly,
    )
    .unwrap();
    assert_eq!(requested(&data), Some(range(2 * SECOND, 3 * SECOND)));
}

#[test]
fn data_plane_uses_speed_scaled_target_ahead_with_one_loader_request() {
    let mut data = data_plane(1024);
    for index in 0..3 {
        let start = index * SECOND;
        data.ensure_available_through(
            ArrivalTime(0),
            ArrivalTime(start),
            PlaybackSpeed::Normal,
            FetchIntent::PlaybackAhead,
        )
        .unwrap();
        complete_request(
            &mut data,
            loaded(start, start + SECOND, vec![], 0),
            ArrivalTime(0),
        );
    }

    data.ensure_available_through(
        ArrivalTime(0),
        ArrivalTime(0),
        PlaybackSpeed::Normal,
        FetchIntent::PlaybackAhead,
    )
    .unwrap();
    assert!(requested(&data).is_none());

    data.ensure_available_through(
        ArrivalTime(0),
        ArrivalTime(0),
        PlaybackSpeed::Double,
        FetchIntent::PlaybackAhead,
    )
    .unwrap();
    assert_eq!(requested(&data), Some(range(3 * SECOND, 4 * SECOND)));
    let diagnostics = data.diagnostics(ArrivalTime(0), PlaybackSpeed::Double);
    assert_eq!(diagnostics.target_ahead_ns, 4 * SECOND);
    assert_eq!(diagnostics.actual_buffer_ahead_ns, 3 * SECOND);
}

#[test]
fn loaders_take_one_request_and_drop_stale_results() {
    let mut loader = WindowLoader::new(LoadSource::LocalFile, WindowLoaderMetrics::default());
    loader.request(range(0, 10)).unwrap();
    assert_eq!(
        loader.request(range(10, 20)).unwrap_err().message(),
        "browser MCAP window loader is not idle"
    );
    let request = loader.current_request().unwrap();
    let stale = LoadRequest {
        generation: request.generation.wrapping_sub(1),
        ..request
    };
    loader.complete(stale, Ok(loaded(0, 10, vec![], 3)));
    assert!(loader.poll().is_none());
    assert_eq!(loader.metrics().stale_results_discarded, 1);
    loader.complete(request, Ok(loaded(0, 10, vec![], 3)));
    assert_eq!(loader.poll().unwrap().unwrap().window.resident_bytes, 3);
    assert!(loader.is_idle());
    assert_eq!(loader.metrics().source_bytes, 3);
    loader.request(range(10, 20)).unwrap();
    loader.cancel();
    assert!(loader.is_idle());
}

fn bindings() -> WorkspaceBindings {
    WorkspaceBindings {
        path_topic: "/planning/path".into(),
        odometry_topic: "/odom".into(),
        point_cloud_topic: "/scan".into(),
        dynamic_tf_topic: "/tf".into(),
        static_tf_topic: "/tf_static".into(),
    }
}

fn remote_stream(id: u32, topic: &str, schema: &str, representation: &str) -> RemoteStream {
    RemoteStream {
        id,
        topic: topic.into(),
        representation: representation.into(),
        schema_name: schema.into(),
        message_encoding: "cdr".into(),
    }
}

fn response(start: u64, end: u64, streams: Vec<RemoteStream>) -> CatalogResponse {
    CatalogResponse {
        recording_id: "demo".into(),
        recording_revision: "revision".into(),
        time_basis: "mcap-log-time".into(),
        range_semantics: "start-inclusive-end-exclusive".into(),
        start_ns: start,
        end_ns_exclusive: end,
        streams,
    }
}

fn camera_stream() -> RemoteStream {
    remote_stream(1, "/camera", "sensor_msgs/msg/CompressedImage", "ros2-cdr")
}

fn remote_catalog_until(end_ns_exclusive: u64) -> RemoteCatalog {
    adapt_catalog(&response(1_000_000_000, end_ns_exclusive, vec![camera_stream()])).unwrap()
}

fn remote_catalog() -> RemoteCatalog {
    remote_catalog_until(3_000_000_000)
}

fn remote_catalog_with_static_tf() -> RemoteCatalog {
    adapt_catalog(&response(
        1_000_000_000,
        3_000_000_000,
        vec![
            camera_stream(),
            remote_stream(2, "/tf_static", "tf2_msgs/msg/TFMessage", "ros2-cdr"),
        ],
    ))
    .unwrap()
}

fn web_playback(catalog: RemoteCatalog) -> WebPlayback {
    let plan = SessionPlan::build(
        &catalog.core,
        &catalog.primary_camera_topic,
        &web_playback_requirements(),
        &bindings(),
    )
    .unwrap();
    let loader = WindowLoader::new(LoadSource::Remote, WindowLoaderMetrics::default());
    WebPlayback::new(&plan, catalog.core, loader).unwrap()
}

fn camera_message(time: i64) -> RawMessage {
    RawMessage {
        stream_id: StreamId(1),
        arrival_time: ArrivalTime(time),
        payload: Bytes::from(
            encode_compressed_image_cdr(&CompressedImage {
                measurement_time: MeasurementTime(time),
                frame_id: "camera".into(),
                format: "jpeg".into(),
                jpeg: vec![1, 2, 3],
            })
            .unwrap(),
        ),
    }
}

fn static_tf_message(time: i64, x: f64) -> RawMessage {
    RawMessage {
        stream_id: StreamId(2),
        arrival_time: ArrivalTime(time),
        payload: Bytes::from(
            encode_tf_message_cdr(&[TransformStamped {
                measurement_time: MeasurementTime(time),
                frame_id: "map".into(),
                child_frame_id: "base".into(),
                translation: [x, 0.0, 0.0].map(bits),
                rotation: [0.0, 0.0, 0.0, 1.0].map(bits),
            }])
            .unwrap(),
        ),
    }
}

fn loaded_window(start: i64, end_exclusive: i64, messages: Vec<RawMessage>) -> LoadedWindow {
    let resident_bytes = messages.iter().map(|message| message.payload.len()).sum();
    loaded(start, end_exclusive, messages, resident_bytes)
}

fn inject_loaded(playback: &mut WebPlayback, loaded: LoadedWindow) {
    let request = playback.data().loader().current_request().unwrap();
    playback.complete_load(LoadResult {
        request,
        result: Ok(loaded),
    });
}

fn inject_restore(playback: &mut WebPlayback, result: Result<Vec<RawMessage>, WebPlaybackError>) {
    let generation = playback.restore_loader().current_request().unwrap().0;
    playback.complete_restore(RestoreResult { generation, result });
}

fn latest_arrival(playback: &WebPlayback) -> Option<ArrivalTime> {
    playback
        .cameras()
        .state()
        .latest_by_arrival()
        .map(|frame| frame.arrival_time)
}

fn is_buffering(state: PlaybackLoadState) -> bool {
    matches!(state, PlaybackLoadState::Buffering { .. })
}

#[test]
fn buffering_keeps_committed_cursor_and_controller_state_until_window_is_complete() {
    let mut playback = web_playback(remote_catalog());
    playback.apply_command(PlaybackCommand::Toggle).unwrap();
    let elapsed = Duration::from_millis(100);
    let requested = playback.clock().cursor_after(elapsed);

    assert!(!playback.commit_candidate(elapsed, requested));
    assert_eq!(playback.clock().cursor(), ArrivalTime(1_000_000_000));
    assert!(playback.cameras().state().latest_by_arrival().is_none());
    assert!(is_buffering(playback.load_state()));
    assert_eq!(playback.data_plane_diagnostics().buffer_underrun_count, 1);

    assert!(!playback.commit_candidate(elapsed, requested));
    assert_eq!(
        playback.data_plane_diagnostics().buffer_underrun_count,
        1,
        "one continuous buffering period is one underrun"
    );

    playback.tick(Duration::ZERO).unwrap();
    inject_loaded(
        &mut playback,
        loaded(
            1_000_000_000,
            2_000_000_000,
            vec![camera_message(1_050_000_000)],
            64,
        ),
    );
    playback.tick(Duration::ZERO).unwrap();
    assert!(playback.commit_candidate(elapsed, requested));
    assert_eq!(playback.clock().cursor(), requested);
    assert_eq!(latest_arrival(&playback).unwrap(), ArrivalTime(1_050_000_000));
}

#[test]
fn initial_paused_loading_is_not_counted_as_a_buffer_underrun() {
    let mut playback = web_playback(remote_catalog());
    let paused_target = playback.clock().cursor();

    assert!(!playback.commit_candidate(Duration::ZERO, paused_target));
    assert_eq!(playback.data_plane_diagnostics().buffer_underrun_count, 0);

    playback.apply_command(PlaybackCommand::Toggle).unwrap();
    let requested = playback.clock().cursor_after(Duration::from_millis(10));
    assert!(!playback.commit_candidate(Duration::from_millis(10), requested));
    assert_eq!(playback.data_plane_diagnostics().buffer_underrun_count, 1);
}

#[test]
fn paused_playback_stops_after_the_required_window_instead_of_prefetching() {
    let mut playback = web_playback(remote_catalog());

    playback.tick(Duration::ZERO).unwrap();
    inject_loaded(&mut playback, loaded(1_000_000_000, 2_000_000_000, vec![], 0));

    playback.tick(Duration::ZERO).unwrap();

    assert!(
        playback.data().loader().is_idle(),
        "paused playback must not keep filling target-ahead after its cursor is serviceable"
    );
}

#[test]
fn pausing_allows_one_in_flight_window_to_finish_without_starting_another() {
    let mut playback = web_playback(remote_catalog_until(5_000_000_000));
    playback.apply_command(PlaybackCommand::Toggle).unwrap();

    playback.tick(Duration::ZERO).unwrap();
    inject_loaded(&mut playback, loaded_window(1_000_000_000, 2_000_000_000, vec![]));
    playback.tick(Duration::ZERO).unwrap();
    assert!(
        !playback.data().loader().is_idle(),
        "playing should keep one background prefetch active below target-ahead"
    );

    playback.apply_command(PlaybackCommand::Toggle).unwrap();
    inject_loaded(&mut playback, loaded_window(2_000_000_000, 3_000_000_000, vec![]));
    playback.tick(Duration::ZERO).unwrap();

    assert!(
        playback.data().loader().is_idle(),
        "Pause keeps the completed window but must not start another prefetch"
    );
}

#[test]
fn remote_speed_updates_prefetch_target() {
    let mut playback = web_playback(remote_catalog());
    playback
        .apply_command(PlaybackCommand::SetSpeed(PlaybackSpeed::Double))
        .unwrap();
    assert_eq!(playback.clock().speed(), PlaybackSpeed::Double);
    assert_eq!(playback.data_plane_diagnostics().target_ahead_ns, 4 * SECOND);
}

#[test]
fn seek_replaces_old_prefetch_and_commits_only_the_current_generation() {
    const START: i64 = 1_000_000_000;
    const TARGET: i64 = 2_000_000_000;
    let mut playback = web_playback(remote_catalog());

    playback.tick(Duration::ZERO).unwrap();
    inject_loaded(
        &mut playback,
        loaded_window(START, TARGET, vec![camera_message(START)]),
    );
    assert_eq!(playback.tick(Duration::ZERO).unwrap(), PlaybackEffect::Nothing);
    assert_eq!(latest_arrival(&playback).unwrap(), ArrivalTime(START));

    playback.apply_command(PlaybackCommand::Toggle).unwrap();
    playback.tick(Duration::from_millis(10)).unwrap();
    let committed_before_seek = playback.clock().cursor();
    assert!(!playback.data().loader().is_idle());

    assert_eq!(
        playback
            .apply_command(PlaybackCommand::Seek(ArrivalTime(TARGET)))
            .unwrap(),
        PlaybackEffect::Nothing
    );
    assert_eq!(playback.clock().cursor(), committed_before_seek);
    assert_eq!(
        latest_arrival(&playback).unwrap(),
        ArrivalTime(START),
        "committed controller state stays visible while the seek window is loading"
    );
    assert_eq!(
        playback.load_state(),
        PlaybackLoadState::Seeking {
            target: ArrivalTime(TARGET)
        }
    );

    let generation = playback.restore_loader().current_request().unwrap().0;
    playback.complete_restore(RestoreResult {
        generation: generation.wrapping_sub(1),
        result: Ok(vec![camera_message(TARGET)]),
    });
    assert_eq!(playback.tick(Duration::ZERO).unwrap(), PlaybackEffect::Nothing);
    assert_eq!(playback.clock().cursor(), committed_before_seek);

    inject_restore(&mut playback, Ok(vec![camera_message(TARGET)]));
    assert_eq!(playback.tick(Duration::ZERO).unwrap(), PlaybackEffect::Seeked);
    assert_eq!(playback.clock().cursor(), ArrivalTime(TARGET));
    assert_eq!(latest_arrival(&playback).unwrap(), ArrivalTime(TARGET));
    assert_eq!(playback.load_state(), PlaybackLoadState::Ready);
}

fn playback_with_image() -> WebPlayback {
    let mut playback = web_playback(remote_catalog());
    playback.tick(Duration::ZERO).unwrap();
    inject_loaded(
        &mut playback,
        loaded_window(
            1_000_000_000,
            2_000_000_000,
            vec![camera_message(1_000_000_000)],
        ),
    );
    playback.tick(Duration::ZERO).unwrap();
    playback
}

#[test]
fn failed_restore_keeps_the_old_cursor_and_visible_controller_state() {
    let mut playback = playback_with_image();
    let committed = playback.clock().cursor();

    playback
        .apply_command(PlaybackCommand::Seek(ArrivalTime(2_000_000_000)))
        .unwrap();
    inject_restore(
        &mut playback,
        Err(WebPlaybackError::new("indexed restore failed".into())),
    );

    assert!(playback.tick(Duration::ZERO).is_err());
    assert_eq!(playback.clock().cursor(), committed);
    assert_eq!(
        playback
            .cameras()
            .state()
            .latest_for(CameraId(0))
            .unwrap()
            .arrival_time,
        ArrivalTime(1_000_000_000)
    );
}

#[test]
fn malformed_restore_application_keeps_cursor_runtime_and_archive_uncommitted() {
    let mut playback = playback_with_image();
    let committed = playback.clock().cursor();
    let before = playback.cameras().state().latest_for(CameraId(0)).cloned();
    let counters = playback.counters();
    assert!(playback.archived_count().is_none());

    playback
        .apply_command(PlaybackCommand::Seek(ArrivalTime(2_000_000_000)))
        .unwrap();
    inject_restore(
        &mut playback,
        Ok(vec![RawMessage {
            stream_id: StreamId(1),
            arrival_time: ArrivalTime(1_900_000_000),
            payload: Bytes::from_static(&[0xff]),
        }]),
    );

    assert!(playback.tick(Duration::ZERO).is_err());
    assert_eq!(playback.clock().cursor(), committed);
    assert_eq!(
        playback.cameras().state().latest_for(CameraId(0)),
        before.as_ref()
    );
    assert_eq!(playback.counters(), counters);
    assert!(playback.archived_count().is_none());
}

fn only_translation(route: &TransformRoute) -> f64 {
    assert_eq!((route.up.len(), route.down.len()), (1, 0));
    f64::from_bits(route.up[0].translation[0].0)
}

#[test]
fn remote_static_tf_archive_is_bootstrapped_once_and_filtered_per_seek() {
    let mut playback = web_playback(remote_catalog_with_static_tf());

    playback
        .apply_command(PlaybackCommand::Seek(ArrivalTime(1_500_000_000)))
        .unwrap();
    inject_restore(
        &mut playback,
        Ok(vec![
            camera_message(1_400_000_000),
            static_tf_message(1_100_000_000, 1.0),
            static_tf_message(2_500_000_000, 2.0),
        ]),
    );
    assert_eq!(playback.tick(Duration::ZERO).unwrap(), PlaybackEffect::Seeked);
    assert_eq!(playback.archived_count().unwrap(), 2);
    let route = playback.transforms().state().resolve("base", "map", None).unwrap();
    assert_eq!(only_translation(&route), 1.0);

    playback
        .apply_command(PlaybackCommand::Seek(ArrivalTime(2_700_000_000)))
        .unwrap();
    inject_restore(&mut playback, Ok(vec![camera_message(2_600_000_000)]));
    assert_eq!(playback.tick(Duration::ZERO).unwrap(), PlaybackEffect::Seeked);
    assert_eq!(playback.archived_count().unwrap(), 2);
    let route = playback.transforms().state().resolve("base", "map", None).unwrap();
    assert_eq!(only_translation(&route), 2.0);
}

#[test]
fn adapts_supported_streams_and_selects_camera_and_odometry() {
    let adapted = adapt_catalog(&catalog()).unwrap();
    assert_eq!(adapted.start, ArrivalTime(100));
    assert_eq!(adapted.end, ArrivalTime(199));
    assert_eq!(adapted.end_exclusive, ArrivalTime(200));
    assert_eq!(adapted.primary_camera_topic, "/camera");
    assert_eq!(adapted.selected_streams, vec![3, 7]);
    assert_eq!(adapted.core.streams.len(), 2);
}

fn catalog() -> CatalogResponse {
    response(
        100,
        200,
        vec![
            remote_stream(7, "/camera", "sensor_msgs/msg/CompressedImage", "ros2-cdr"),
            remote_stream(3, "/odom", "nav_msgs/msg/Odometry", "ros2-cdr"),
            remote_stream(9, "/future", "example/msg/Future", "viewer.future.v1"),
        ],
    )
}

#[test]
fn rejects_missing_camera_and_timestamp_overflow() {
    let mut value = catalog();
    value.streams.remove(0);
    assert_eq!(
        adapt_catalog(&value).unwrap_err().message(),
        "remote catalog has no supported camera stream"
    );

    let mut value = catalog();
    value.start_ns = i64::MAX as u64 + 1;
    assert_eq!(
        adapt_catalog(&value).unwrap_err().message(),
        "remote timestamp exceeds signed nanoseconds"
    );

    let mut value = catalog();
    value.end_ns_exclusive = 100;
    assert_eq!(
        adapt_catalog(&value).unwrap_err().message(),
        "remote time range is empty"
    );

    let mut value = catalog();
    value.time_basis = "publish-time".into();
    assert_eq!(
        adapt_catalog(&value).unwrap_err().message(),
        "unsupported remote time or range semantics"
    );
}

#[test]
fn catalogs_are_described_line_by_line() {
    assert_eq!(
        format_catalog(&catalog()),
        "recording: demo\nrevision: revision\nrange: [100..200)\nstreams: 3\n\
         7 · /camera · sensor_msgs/msg/CompressedImage\n3 · /odom · nav_msgs/msg/Odometry\n\
         9 · /future · example/msg/Future"
    );
    assert_eq!(connected_words(2), "Connected · 2 recording(s)");
}

#[test]
fn batch_query_preserves_nanoseconds_as_decimal_strings() {
    let request = RemoteBatchRequest {
        recording_id: "run one".into(),
        revision: "revision:value".into(),
        stream_ids: vec![1, 3],
        start_ns: 18_446_744_073_709_551_000,
        end_ns: u64::MAX,
        max_bytes: Some(1024),
        max_messages: Some(10),
        cursor: Some("next/page".into()),
    };
    let pairs = request.query_pairs();
    assert!(pairs.contains(&("start_ns", "18446744073709551000".into())));
    assert!(pairs.contains(&("end_ns", "18446744073709551615".into())));
    assert!(pairs.contains(&("streams", "1,3".into())));
    assert_eq!(pairs.len(), 7);
    assert_eq!(encode_path_segment(&request.recording_id), "run%20one");
    assert_eq!(encode_path_segment("ä/~z"), "%C3%A4%2F~z");
}

fn valid_metadata(complete: bool) -> BatchResponseMetadata {
    BatchResponseMetadata {
        content_type: Some("application/batch".to_owned()),
        recording_revision: Some("revision".to_owned()),
        complete: Some(complete.to_string()),
        next_cursor: (!complete).then_some("cursor".to_owned()),
        message_count: Some("1".to_owned()),
    }
}

fn validate(metadata: BatchResponseMetadata, revision: &str) -> Result<RemoteBatchPage, String> {
    validate_batch_response(
        metadata,
        "application/batch",
        Bytes::from_static(b"cdr"),
        Ok(vec![BatchMessage {
            stream_id: 1,
            log_time_ns: 18_446_744_073_709_551_000,
            payload: Some((0, 3)),
        }]),
        revision,
    )
    .map_err(|error| error.message())
}

#[test]
fn validates_continuation_revision_and_message_count_headers() {
    let page = validate(valid_metadata(false), "revision").unwrap();
    assert!(!page.complete);
    assert_eq!(page.next_cursor.as_deref(), Some("cursor"));
    assert_eq!(page.message_count, 1);

    let mut missing_cursor = valid_metadata(false);
    missing_cursor.next_cursor = None;
    assert!(validate(missing_cursor, "revision").is_err());

    assert!(validate(valid_metadata(true), "stale").is_err());

    let mut wrong_count = valid_metadata(true);
    wrong_count.message_count = Some("2".into());
    assert!(validate(wrong_count, "revision").is_err());
}

#[test]
fn every_header_fault_has_its_words() {
    let refused = |change: fn(&mut BatchResponseMetadata)| {
        let mut metadata = valid_metadata(true);
        change(&mut metadata);
        validate(metadata, "revision").unwrap_err()
    };
    assert_eq!(
        refused(|metadata| metadata.content_type = None),
        "batch response has no Content-Type"
    );
    assert_eq!(
        refused(|metadata| metadata.content_type = Some("text/html".into())),
        "unexpected batch Content-Type: text/html"
    );
    assert_eq!(
        refused(|metadata| metadata.recording_revision = None),
        "batch response has no recording revision"
    );
    assert_eq!(
        refused(|metadata| metadata.complete = Some("yes".into())),
        "invalid batch complete header"
    );
    assert_eq!(
        refused(|metadata| metadata.next_cursor = Some("more".into())),
        "complete batch unexpectedly contains a continuation cursor"
    );
    assert_eq!(
        refused(|metadata| metadata.message_count = None),
        "batch response has no message count"
    );
    assert_eq!(
        refused(|metadata| metadata.message_count = Some("one".into())),
        "invalid batch message count header"
    );
    let undecodable = validate_batch_response(
        valid_metadata(true),
        "application/batch",
        Bytes::new(),
        Err("bad magic".into()),
        "revision",
    );
    assert_eq!(undecodable.unwrap_err().message(), "bad magic");
}

#[test]
fn counts_parse_as_numbers_do() {
    for words in [
        "", "+", "-", "0", "007", "+12", "-1", " 1", "1 ", "18446744073709551615",
        "18446744073709551616", "99999999999999999999999", "1e3", "٣",
    ] {
        assert_eq!(parse_count(words), words.parse::<usize>().ok(), "{words}");
    }
}

#[test]
fn request_generation_rejects_stale_results() {
    let mut generation = RequestGeneration::default();
    let first = generation.next();
    let second = generation.next();
    assert!(!generation.is_current(first));
    assert!(generation.is_current(second));
}

#[test]
fn client_normalizes_base_url_and_rejects_unknown_schema() {
    let client = RemoteApiClient::new("http://localhost:8081/").unwrap();
    assert_eq!(client.base_url(), "http://localhost:8081");
    assert!(RemoteApiClient::new("").is_err());
    assert!(RemoteApiClient::new("//").is_err());
    assert!(validate_schema(1, 1).is_ok());
    assert_eq!(
        validate_schema(2, 1).unwrap_err().message(),
        "unsupported remote schema version: 2"
    );
    assert_eq!(client.recordings_url(), "http://localhost:8081/v1/recordings");
    assert_eq!(
        client.catalog_url("a b"),
        "http://localhost:8081/v1/recordings/a%20b/catalog"
    );
    assert_eq!(
        client.messages_url("x"),
        "http://localhost:8081/v1/recordings/x/messages"
    );
    assert_eq!(http_error(404, "gone").message(), "remote HTTP 404: gone");
}

fn page(messages: &[(u32, u64, &[u8])], complete: bool) -> RemoteBatchPage {
    let mut body = vec![0; 16];
    let mut decoded = Vec::new();
    for (stream_id, time, payload) in messages {
        body.extend_from_slice(&[0; 28]);
        let start = body.len();
        body.extend_from_slice(payload);
        decoded.push(BatchMessage {
            stream_id: *stream_id,
            log_time_ns: *time,
            payload: Some((start, body.len())),
        });
    }
    RemoteBatchPage {
        body: Bytes::from(body),
        messages: decoded,
        complete,
        next_cursor: (!complete).then_some("next".into()),
        message_count: messages.len(),
        recording_revision: "revision".into(),
    }
}

#[test]
fn continuation_pages_only_finish_as_one_serialized_window() {
    let mut partial = WindowAssembler::new(range(10, 20));
    assert!(!partial.push_page(page(&[(1, 10, b"a")], false)).unwrap());
    assert!(partial.finish(bits(1.0)).is_err());

    let mut assembler = WindowAssembler::new(range(10, 20));
    let first = page(&[(1, 10, b"a")], false);
    let first_body = first.body.clone();
    assert!(!assembler.push_page(first).unwrap());
    assert!(assembler.push_page(page(&[(1, 11, b"b")], true)).unwrap());

    let loaded = assembler.finish(bits(5.0)).unwrap();
    assert_eq!(loaded.window.range, range(10, 20));
    assert_eq!(loaded.window.messages.len(), 2);
    assert_eq!(loaded.diagnostics.source_reads, 2);
    assert_eq!(
        loaded.window.messages[0].payload.as_ptr(),
        first_body[44..].as_ptr(),
        "RawMessage must retain a Bytes slice rather than copying payload bytes"
    );
}

#[test]
fn continuation_pages_remain_staged_until_complete() {
    let mut assembler = SourceAssembler::new();
    let first = page(&[(1, 10, b"a")], false);
    let first_body = first.body.clone();
    assert!(!assembler.push_page(first).unwrap());
    assert_eq!(assembler.messages().len(), 1);
    assert_eq!(
        assembler.messages()[0].payload.as_ptr(),
        first_body[44..].as_ptr(),
        "RawMessage must retain a Bytes slice rather than copying payload bytes"
    );
    assert!(assembler.push_page(page(&[(1, 11, b"b")], true)).unwrap());
    let completed = assembler.finish(bits(5.0));
    assert_eq!(completed.messages.len(), 2);
    assert_eq!(completed.pages, 2);
}

#[test]
fn windows_of_a_source_take_what_the_server_sends() {
    let mut assembler = SourceAssembler::new();
    assert!(assembler.push_page(page(&[(1, 40, b"late")], true)).unwrap());
    assert!(assembler.push_page(page(&[], true)).unwrap());
    let completed = assembler.finish(bits(2.0));
    assert_eq!(completed.messages[0].arrival_time, ArrivalTime(40));
    assert_eq!(completed.pages, 2);

    let window = |start: i64, end: i64| FetchWindow {
        generation: 1,
        start: ArrivalTime(start),
        end: ArrivalTime(end),
    };
    let fetch = |window: FetchWindow| {
        PagedFetch::new("demo".into(), "revision".into(), vec![1, 2], window)
    };
    assert_eq!(
        fetch(window(-1, 5)).unwrap_err().message(),
        "negative remote window start"
    );
    assert_eq!(
        fetch(window(1, -5)).unwrap_err().message(),
        "negative remote window end"
    );
    let mut fetching = fetch(window(10, 20)).unwrap();
    let request = fetching.next_request();
    assert_eq!((request.start_ns, request.end_ns), (10, 20));
    assert_eq!(request.cursor, None);
    assert!(!fetching.receive(page(&[(1, 10, b"a")], false)).unwrap());
    assert_eq!(fetching.next_request().cursor.as_deref(), Some("next"));
    assert!(fetching.receive(page(&[(1, 11, b"b")], true)).unwrap());
    assert_eq!(fetching.finish(bits(1.0)).messages.len(), 2);

    let mut finished = WindowAssembler::new(range(10, 20));
    assert!(finished.push_page(page(&[(1, 11, b"b")], true)).unwrap());
    assert_eq!(finished.messages().len(), 1);
    assert_eq!(
        finished.push_page(page(&[], true)).unwrap_err().message(),
        "remote window received a page after completion"
    );
}

#[test]
fn rejects_timestamp_overflow_disorder_and_out_of_window_messages() {
    let mut overflow = WindowAssembler::new(range(10, 20));
    assert!(overflow
        .push_page(page(&[(1, i64::MAX as u64 + 1, b"x")], true))
        .is_err());

    let mut unordered = WindowAssembler::new(range(10, 20));
    unordered.push_page(page(&[(2, 19, b"a")], false)).unwrap();
    assert!(unordered.push_page(page(&[(1, 18, b"b")], true)).is_err());

    let mut outside = WindowAssembler::new(range(10, 20));
    assert!(outside.push_page(page(&[(1, 20, b"x")], true)).unwrap());
    assert!(outside.finish(bits(1.0)).is_err());
}

#[test]
fn rejects_timestamp_overflow_and_cross_page_disorder() {
    let mut overflow = SourceAssembler::new();
    assert_eq!(
        overflow
            .push_page(page(&[(1, i64::MAX as u64 + 1, b"x")], true))
            .unwrap_err()
            .message(),
        "remote timestamp exceeds signed nanoseconds"
    );

    let mut unordered = SourceAssembler::new();
    unordered.push_page(page(&[(2, 20, b"a")], false)).unwrap();
    assert_eq!(
        unordered
            .push_page(page(&[(1, 19, b"b")], true))
            .unwrap_err()
            .message(),
        "remote window messages are not time ordered"
    );
}

#[test]
fn empty_complete_batch_advances_without_retaining_its_body() {
    let mut assembler = WindowAssembler::new(range(10, 20));
    let empty = page(&[], true);
    let source_bytes = empty.body.len();
    assert!(assembler.push_page(empty).unwrap());

    let loaded = assembler.finish(bits(1.0)).unwrap();
    assert!(loaded.window.messages.is_empty());
    assert_eq!(loaded.window.resident_bytes, 0);
    assert_eq!(loaded.diagnostics.source_bytes, source_bytes);
}

#[test]
fn payloads_outside_their_body_are_refused() {
    for payload in [None, Some((3, 2)), Some((0, 99))] {
        let mut bad = page(&[(1, 10, b"a")], true);
        bad.messages[0].payload = payload;
        assert_eq!(
            WindowAssembler::new(range(10, 20)).push_page(bad).unwrap_err().message(),
            "decoded payload is outside its batch body"
        );
    }
}

#[test]
fn fetches_follow_the_cursor_of_each_page() {
    let mut fetch =
        WindowFetch::new("demo".into(), "revision".into(), vec![1, 2], range(10, 20)).unwrap();
    let first = fetch.next_request();
    assert_eq!((first.start_ns, first.end_ns), (10, 20));
    assert_eq!(first.cursor, None);
    assert!(!fetch.receive(page(&[(1, 10, b"a")], false)).unwrap());
    assert_eq!(fetch.next_request().cursor.as_deref(), Some("next"));
    assert!(fetch.receive(page(&[(1, 11, b"b")], true)).unwrap());
    assert_eq!(fetch.finish(bits(3.0)).unwrap().window.messages.len(), 2);
    let refused = |streams: Vec<u32>, range: TimeRange| {
        WindowFetch::new("demo".into(), "revision".into(), streams, range)
            .unwrap_err()
            .message()
    };
    assert_eq!(refused(vec![], range(1, 2)), "remote stream selection is empty");
    assert_eq!(refused(vec![1], range(-2, 2)), "negative remote window start");
    assert_eq!(refused(vec![1], range(-2, -1)), "negative remote window start");
}

fn batch_source() -> RemoteBatchSource {
    RemoteBatchSource::new(&vec![1], ArrivalTime(10), ArrivalTime(30)).unwrap()
}

fn completed(messages: Vec<RawMessage>) -> CompletedWindow {
    CompletedWindow {
        pages: 1,
        bytes: messages.iter().map(|message| message.payload.len() as u64).sum(),
        messages,
        latency_ms: bits(1.0),
    }
}

#[test]
fn stale_window_result_does_not_advance_complete_until() {
    let mut source = batch_source();
    let current = source.ensure_available_through(ArrivalTime(10)).unwrap();
    source.complete(FetchResult {
        window: FetchWindow {
            generation: current.generation.wrapping_sub(1),
            ..current
        },
        result: Ok(completed(vec![])),
    });

    assert!(!source.poll_completed_fetch().unwrap());
    assert_eq!(source.complete_until(), ArrivalTime(10));
    assert_eq!(source.metrics().stale_results_discarded, 1);
}

#[test]
fn empty_complete_window_advances_exclusive_completeness() {
    let mut source =
        RemoteBatchSource::new(&vec![1], ArrivalTime(10), ArrivalTime(3 * SECOND)).unwrap();
    let window = source.ensure_available_through(ArrivalTime(10)).unwrap();
    assert_eq!(window.end, ArrivalTime(SECOND + 10));
    source.complete(FetchResult {
        window,
        result: Ok(completed(vec![])),
    });
    assert!(source.poll_completed_fetch().unwrap());
    assert_eq!(source.complete_until(), ArrivalTime(SECOND + 10));
    assert!(source.is_complete_through(ArrivalTime(SECOND + 9)));
    assert!(!source.is_complete_through(ArrivalTime(SECOND + 10)));
    assert!(source.drain_through(ArrivalTime(SECOND + 9)).is_empty());
}

#[test]
fn batch_sources_hand_out_messages_in_order_and_stop_at_failures() {
    let mut source = batch_source();
    let window = source.ensure_available_through(ArrivalTime(10)).unwrap();
    assert_eq!(window.end, ArrivalTime(30));
    assert!(source.ensure_available_through(ArrivalTime(29)).is_none());
    source.complete(FetchResult {
        window,
        result: Ok(completed(vec![
            message(10, Bytes::from_static(b"ab")),
            message(20, Bytes::from_static(b"c")),
        ])),
    });
    assert!(source.poll_completed_fetch().unwrap());
    assert!(source.is_complete_through(ArrivalTime(29)));
    assert_eq!(source.drain_through(ArrivalTime(15)).len(), 1);
    assert_eq!(source.drain_through(ArrivalTime(20)).len(), 1);
    assert_eq!(source.metrics().bytes_received, 3);
    assert_eq!(source.metrics().messages_received, 2);
    assert_eq!(source.status(), &RemoteSourceStatus::Ready);

    let mut failing = batch_source();
    let window = failing.ensure_available_through(ArrivalTime(10)).unwrap();
    failing.complete(FetchResult {
        window,
        result: Err(RemoteSourceError::new("gone".into())),
    });
    assert_eq!(failing.poll_completed_fetch().unwrap_err().message(), "gone");
    assert!(failing.ensure_available_through(ArrivalTime(10)).is_none());
    let empty: Vec<u32> = vec![];
    assert!(RemoteBatchSource::new(&empty, ArrivalTime(0), ArrivalTime(1)).is_err());
    assert!(RemoteBatchSource::new(&vec![1], ArrivalTime(1), ArrivalTime(1)).is_err());
}

fn camera_needs() -> PlaybackRequirements {
    let mut needs = PlaybackRequirements::empty();
    needs.require_all_cameras();
    needs
}

fn remote_playback() -> RemotePlayback {
    RemotePlayback::new(&remote_catalog(), &camera_needs(), &bindings()).unwrap()
}

#[test]
fn buffering_keeps_committed_cursor_and_domain_until_window_is_complete() {
    let mut playback = remote_playback();
    playback.apply_command(PlaybackCommand::Toggle).unwrap();
    let elapsed = Duration::from_millis(100);
    let requested = playback.clock().cursor_after(elapsed);

    assert!(!playback.commit_candidate(elapsed, requested));
    assert_eq!(playback.clock().cursor(), ArrivalTime(1_000_000_000));
    assert!(playback.state().camera.latest_by_arrival().is_none());
    assert!(is_buffering(playback.load_state()));

    let window = playback.request_through(requested).unwrap();
    assert_eq!(window.end, ArrivalTime(2_000_000_000));
    playback.complete_fetch(FetchResult {
        window,
        result: Ok(completed(vec![camera_message(1_050_000_000)])),
    });
    playback.poll_completed_fetch().unwrap();
    assert!(playback.commit_candidate(elapsed, requested));
    assert_eq!(playback.clock().cursor(), requested);
    assert_eq!(
        playback
            .state()
            .camera
            .latest_by_arrival()
            .unwrap()
            .arrival_time,
        ArrivalTime(1_050_000_000)
    );
}

#[test]
fn remote_seek_and_non_normal_speed_are_explicitly_unsupported() {
    let mut playback = remote_playback();
    assert!(playback
        .apply_command(PlaybackCommand::Seek(ArrivalTime(2)))
        .is_err());
    assert!(playback
        .apply_command(PlaybackCommand::SetSpeed(PlaybackSpeed::Double))
        .is_err());
    assert!(playback
        .apply_command(PlaybackCommand::SetSpeed(PlaybackSpeed::Normal))
        .is_ok());
}

#[test]
fn remote_ticks_name_the_next_window_and_count_one_wait() {
    let mut playback = remote_playback();
    playback.apply_command(PlaybackCommand::Toggle).unwrap();
    let first = playback.tick(Duration::from_millis(10)).unwrap().unwrap();
    assert_eq!(first.start, ArrivalTime(1_000_000_000));
    assert!(playback.tick(Duration::from_millis(10)).unwrap().is_none());
    assert_eq!(playback.metrics().buffering_count, 1);
    playback.complete_fetch(FetchResult {
        window: first,
        result: Ok(completed(vec![])),
    });
    let second = playback.tick(Duration::from_millis(10)).unwrap().unwrap();
    assert_eq!(second.start, ArrivalTime(2_000_000_000));
    assert_eq!(playback.buffer_ahead(), 990_000_000);
    playback.complete_fetch(FetchResult {
        window: second,
        result: Err(RemoteSourceError::new("offline".into())),
    });
    assert_eq!(
        playback.tick(Duration::from_millis(10)).unwrap_err().message(),
        "offline"
    );
    assert_eq!(
        playback.load_state(),
        PlaybackLoadState::Failed {
            message: "offline".into()
        }
    );
}

#[test]
fn selections_drop_stale_catalogs() {
    let mut selection = RemoteSelection::default();
    assert!(selection.begin_request().is_none());
    assert!(selection.connect("/").is_err());
    selection.connect("http://host/").unwrap();
    let (client, first) = selection.begin_request().unwrap();
    assert_eq!(client.base_url(), "http://host");
    let (_, second) = selection.begin_request().unwrap();
    assert!(!selection.apply_catalog(first, catalog()));
    assert!(selection.to_open().is_none());
    assert!(selection.is_current(second));
    assert!(selection.apply_catalog(second, catalog()));
    assert_eq!(selection.to_open().unwrap().1.recording_id, "demo");
    selection.choose_recording();
    assert!(selection.to_open().is_none());
}

#[test]
fn nothing_is_retained_where_messages_have_no_bytes() {
    let data = data_plane(1024);
    let diagnostics = data.diagnostics(ArrivalTime(0), PlaybackSpeed::Normal);
    assert_eq!(diagnostics.logical_payload_bytes, 0);
    assert_eq!(diagnostics.retention_ratio(), None);
}

use mcap_player::feature::camera::CameraId;
use mcap_player::feature::domain::PipelineCounters;
use mcap_player::message::float::{F32, F64};
use mcap_player::message::time::ArrivalTime;
use mcap_player::playback::clock::{PlaybackLoadState, PlaybackSpeed};
use mcap_player::playback::web_playback::PlaybackEffect;
use mcap_player::presentation::cameras::{selected_camera, CameraView, LargeImage};
use mcap_player::presentation::layers::{
    capacity_for, update_accumulated_cloud, BevLayer, BevMetrics, SceneKey, SceneLayers,
};
use mcap_player::presentation::surface::{physical_size, PhysicalSize, MAX_PHYSICAL_SIZE};
use mcap_player::presentation::words::{
    camera_element, camera_words, focus_words, load_words, performance_words, play_label,
    speed_named, status_words, telemetry_words, waiting_nanos, PerformanceNumbers, RemoteNumbers,
    TelemetryNumbers,
};

fn size(width: i32, height: i32, ratio: f64) -> Option<PhysicalSize> {
    physical_size(width, height, F64(ratio.to_bits()))
}

#[test]
fn converts_logical_size_with_dpr() {
    assert_eq!(
        size(320, 180, 2.0),
        Some(PhysicalSize {
            width: 640,
            height: 360,
        })
    );
}

#[test]
fn rejects_zero_size_and_clamps_large_surfaces() {
    assert_eq!(size(0, 180, 2.0), None);
    assert_eq!(size(320, 0, 2.0), None);
    assert_eq!(
        size(10_000, 10_000, 4.0),
        Some(PhysicalSize {
            width: MAX_PHYSICAL_SIZE,
            height: MAX_PHYSICAL_SIZE,
        })
    );
}

#[test]
fn surface_sizes_agree_with_floating_point() {
    let expected = |length: i32, ratio: f64| {
        (f64::from(length) * ratio.clamp(0.25, 4.0)).round().clamp(1.0, 4096.0) as u32
    };
    for ratio in [
        0.0_f64, -1.0, 0.25, 0.3, 0.5, 0.75, 1.0, 1.1, 1.25, 1.5, 1.75, 2.625, 3.0, 3.9999, 4.0,
        17.5, 1.0000000000000002, 0.49999999999999994,
    ] {
        for length in [1, 2, 3, 5, 7, 10, 99, 180, 1023, 4095, 4097, 99_999, i32::MAX] {
            let found = size(length, length, ratio).unwrap();
            assert_eq!(found.width, expected(length, ratio), "{length} {ratio}");
            assert_eq!(found.height, found.width);
        }
    }
    assert_eq!(size(5, 5, f64::NAN), None);
    assert_eq!(size(5, 5, f64::INFINITY), None);
    assert_eq!(size(-5, 5, 1.0), None);
}

fn point2(x: f32, y: f32) -> [F32; 2] {
    [F32(x.to_bits()), F32(y.to_bits())]
}

fn cloud(points: &[[f32; 3]]) -> Vec<[F32; 3]> {
    points
        .iter()
        .map(|point| point.map(|value| F32(value.to_bits())))
        .collect()
}

#[test]
fn revisions_are_stable() {
    let points = [point2(0.0, 0.0), point2(1.0, 2.0)];
    let mut layer = BevLayer::new(0, 3);
    assert_eq!(layer.size(), (1, 3));
    assert!(layer.needs_render(4));
    let upload = layer.prepare(4, &points).unwrap();
    assert_eq!(upload.segments.len(), 1);
    assert_eq!(upload.new_capacity, None);
    layer.rendered(4);
    assert!(!layer.needs_render(4));
    assert!(layer.prepare(4, &points).is_none());
    let longer: Vec<[F32; 2]> = (0..7).map(|i| point2(i as f32, 0.0)).collect();
    let upload = layer.prepare(5, &longer).unwrap();
    assert_eq!(upload.new_capacity, Some(8));
    assert_eq!(layer.path_segment_count, 6);
    assert!(layer.resize(2, 3));
    assert!(!layer.resize(2, 3));
    assert_eq!(
        layer.metrics(),
        BevMetrics {
            target_creations: 2,
            layer_uploads: 2,
            renders: 1,
        }
    );
}

#[test]
fn accumulation_switches_between_history_and_latest() {
    let first = cloud(&[[0.0, 0.1, 1.0], [1.0, 0.1, 1.0]]);
    let second = cloud(&[[0.0, 0.1, 2.0]]);
    let mut accumulated = Vec::new();
    update_accumulated_cloud(&mut accumulated, &first, true, true, true);
    update_accumulated_cloud(&mut accumulated, &second, true, true, false);
    assert_eq!(
        accumulated,
        cloud(&[[-0.1, 1.0, -0.0], [-0.1, 1.0, -1.0], [-0.1, 2.0, -0.0]])
    );

    let snapshot = accumulated.clone();
    update_accumulated_cloud(&mut accumulated, &second, true, false, false);
    assert_eq!(
        accumulated, snapshot,
        "pose-only updates must not move history"
    );

    update_accumulated_cloud(&mut accumulated, &second, false, false, true);
    assert_eq!(accumulated.len(), 1);
    update_accumulated_cloud(&mut accumulated, &[], true, true, false);
    assert!(accumulated.is_empty());
}

#[test]
fn scenes_keep_the_latest_points_only() {
    let many: Vec<[F32; 3]> = (0..40_000_u32).map(|i| [F32(i), F32(0), F32(0)]).collect();
    let mut layers = SceneLayers::new(10, 10);
    let mut key = SceneKey {
        revision: 1,
        cloud_revision: 1,
        accumulate: true,
    };
    assert!(layers.needs_render(key));
    assert_eq!(layers.update_points(key, &many), Some(Some(65_536)));
    assert!(layers.lines_changed(1));
    assert_eq!(layers.upload_lines(26), Some(32));
    assert_eq!(layers.line_vertices(), 26);
    layers.rendered(key);
    assert!(!layers.needs_render(key));
    key.cloud_revision = 2;
    assert_eq!(layers.update_points(key, &many), Some(None));
    assert_eq!(layers.visible_points(), 65_536);
    assert_eq!(layers.point_count(), 65_536);
    let oldest = layers.points()[0][2];
    assert_eq!(oldest, F32(80_000 - 65_536).negated());
    layers.rendered(key);
    layers.move_camera();
    assert!(layers.needs_render(key));
    assert_eq!(layers.update_points(key, &many), None);
    assert_eq!(layers.metrics().point_uploads, 2);
    assert!(layers.resize(0, 0));
    assert_eq!(layers.size(), (1, 1));
}

#[test]
fn capacities_agree_with_powers_of_two() {
    for needed in [0_usize, 1, 2, 3, 4, 5, 1023, 1024, 1025, 1 << 40] {
        assert_eq!(capacity_for(needed), needed.next_power_of_two());
    }
}

fn topics() -> Vec<(CameraId, String)> {
    vec![(CameraId(0), "/front".into()), (CameraId(1), "/rear".into())]
}

#[test]
fn the_chosen_camera_is_selected_while_it_is_there() {
    assert_eq!(selected_camera(Some(CameraId(1)), &topics()), Some(CameraId(1)));
    assert_eq!(selected_camera(Some(CameraId(9)), &topics()), Some(CameraId(0)));
    assert_eq!(selected_camera(None, &topics()), Some(CameraId(0)));
    assert_eq!(selected_camera(Some(CameraId(1)), &[]), None);
}

#[test]
fn images_are_drawn_when_they_change() {
    let front = CameraId(0);
    let mut view = CameraView::default();
    assert!(view.begin_round(&topics(), Some(front)));
    assert_eq!(view.finish_round(None), LargeImage::Keep);

    assert!(!view.begin_round(&topics(), Some(front)));
    assert!(view.needs_image(front, ArrivalTime(5)));
    view.image_drawn(front, ArrivalTime(5));
    assert!(!view.needs_image(front, ArrivalTime(5)));
    assert!(view.has_changed(front));
    assert_eq!(view.finish_round(Some(ArrivalTime(5))), LargeImage::Draw);

    view.begin_round(&topics(), Some(front));
    assert_eq!(view.finish_round(Some(ArrivalTime(5))), LargeImage::Keep);

    view.begin_round(&topics(), Some(front));
    view.overlay_changed(front);
    assert_eq!(view.finish_round(Some(ArrivalTime(5))), LargeImage::Draw);

    view.begin_round(&topics(), Some(front));
    assert_eq!(view.finish_round(Some(ArrivalTime(6))), LargeImage::Clear);

    view.begin_round(&topics(), Some(CameraId(1)));
    assert_eq!(view.finish_round(None), LargeImage::Keep);
    view.begin_round(&topics(), Some(front));
    assert_eq!(view.finish_round(Some(ArrivalTime(5))), LargeImage::Draw);
    view.apply_playback_effect(PlaybackEffect::Nothing);
    assert_eq!(view.camera_topics().len(), 2);
    view.apply_playback_effect(PlaybackEffect::Seeked);
    assert!(view.camera_topics().is_empty());
    view.begin_round(&topics(), Some(front));
    view.reset_for_source();
    assert!(view.needs_image(front, ArrivalTime(5)));
}

#[test]
fn words_read_as_the_viewer_shows_them() {
    assert_eq!(speed_named("0.25"), PlaybackSpeed::Quarter);
    assert_eq!(speed_named("0.5"), PlaybackSpeed::Half);
    assert_eq!(speed_named("2"), PlaybackSpeed::Double);
    assert_eq!(speed_named("1"), PlaybackSpeed::Normal);
    assert_eq!((play_label(true), play_label(false)), ("Pause", "Play"));
    assert_eq!(camera_element("camera-card-", CameraId(12)), "camera-card-12");
    assert_eq!(focus_words(None), "waiting");
    assert_eq!(focus_words(Some(("/a", "ok"))), "/a · ok");
    assert_eq!(camera_words("/a", "9.5"), "/a · 9.5 Hz");
    let buffering = PlaybackLoadState::Buffering {
        requested: ArrivalTime(15),
        committed: ArrivalTime(5),
    };
    assert_eq!(waiting_nanos(&buffering), 10);
    assert_eq!(load_words(&buffering, "0.010"), "Buffering · waiting for +0.010s");
    assert_eq!(load_words(&PlaybackLoadState::Ready, ""), "Ready");
    let seeking = PlaybackLoadState::Seeking {
        target: ArrivalTime(1),
    };
    assert_eq!(load_words(&seeking, ""), "Seeking");
    let failed = PlaybackLoadState::Failed {
        message: "x".into(),
    };
    assert_eq!(load_words(&failed, ""), "Failed: x");
    let counters = PipelineCounters {
        decoded: 3,
        errors: 1,
        unknown_streams: 0,
        dropped: 2,
    };
    assert_eq!(
        status_words("Ready", counters, 4, 5, "1.25"),
        (
            "Ready · 3 decoded · 1 errors · 2 dropped · path 4 pts · scan 5 pts · 1.25s".into(),
            true
        )
    );
    let numbers = PerformanceNumbers {
        focused_rate: "9.8".into(),
        focused_limit: "10".into(),
        background_limit: "5".into(),
        jpeg_decode: "1.00".into(),
        upload: "2.00".into(),
        render: "3.00".into(),
        source_read: "4.00".into(),
        decode: "5.00".into(),
        apply: "6.00".into(),
    };
    let local = "Focus 9.8/10 Hz · others ≤5 Hz · JPEG 1.00 ms · canvas 2.00 ms · tick 3.00 ms · \
                 source/CDR/state 4.00/5.00/6.00 ms";
    assert_eq!(performance_words(&numbers, &None), local);
    let remote = RemoteNumbers {
        load_requests: 1,
        source_reads: 2,
        received: "0.5".into(),
        window_count: 3,
        resident: "0.6".into(),
        ahead: "1.50".into(),
        evictions: 4,
        last_latency: "7.0".into(),
        buffering_count: 5,
        stale_results: 6,
    };
    assert_eq!(
        performance_words(&numbers, &Some(remote)),
        format!(
            "{local} · Remote 1 loads/2 reads · 0.5 MB rx · 3 windows/0.6 MB RAM · ahead 1.50s · \
             4 evicted · last 7.0 ms · buffering 5 · stale 6"
        )
    );
    assert_eq!(telemetry_words(&None), "Odometry: waiting");
    let telemetry = TelemetryNumbers {
        x: "+1.00".into(),
        y: "-2.00".into(),
        yaw: "+3.0".into(),
        speed: "4.00".into(),
        yaw_rate: "-5.0".into(),
    };
    assert_eq!(
        telemetry_words(&Some(telemetry)),
        "x +1.00 m · y -2.00 m · yaw +3.0° · 4.00 m/s · yaw rate -5.0°/s"
    );
}

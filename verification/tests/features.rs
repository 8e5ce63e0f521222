use bytes::Bytes;
use mcap_player::feature::bev::{BevPathFrame, BevState};
use mcap_player::feature::camera::{CameraFrame, CameraId, CameraState, CameraStatus};
use mcap_player::feature::controllers::camera::CameraController;
use mcap_player::feature::controllers::transform::TransformController;
use mcap_player::feature::domain::{DomainPipelineSet, DomainState, DomainUpdate};
use mcap_player::feature::domain_runtime::DomainRuntime;
use mcap_player::feature::performance::PlaybackPerformance;
use mcap_player::feature::point_cloud::{PointCloudFrame, PointCloudState, ScanReturn};
use mcap_player::feature::schedule::{
    CameraSchedule, BACKGROUND_INTERVAL_NS, FOCUSED_INTERVAL_NS,
};
use mcap_player::feature::telemetry::{TelemetryFrame, TelemetryState};
use mcap_player::feature::transform::{
    TransformBatch, TransformRoute, TransformState, DYNAMIC_TF_HISTORY_NS,
};
use mcap_player::message::cdr::image::{encode_compressed_image_cdr, CompressedImage};
use mcap_player::message::cdr::transform::{encode_tf_message_cdr, TransformStamped};
use mcap_player::message::float::{F32, F64};
use mcap_player::message::time::{ArrivalTime, MeasurementTime};
use mcap_player::presentation::frames::{BevFrameBuilder, SceneFrameBuilder};
use mcap_player::recording::raw::{RawMessage, StreamId};
use mcap_player::recording::requirements::{PlaybackRequirements, WorkspaceBindings};
use mcap_player::recording::session::{
    DomainRoute, DomainTarget, SessionPlan, SourceCatalog, StreamDescriptor, StreamTimingSummary,
};
use std::time::Duration;

fn bits(value: f64) -> F64 {
    F64(value.to_bits())
}

fn single(value: f32) -> F32 {
    F32(value.to_bits())
}

fn rotate(rotation: [f64; 4], point: [f64; 3]) -> [f64; 3] {
    let [x, y, z, w] = rotation;
    let norm = (x * x + y * y + z * z + w * w).sqrt();
    let (x, y, z, w) = (x / norm, y / norm, z / norm, w / norm);
    let cross = |a: [f64; 3], b: [f64; 3]| {
        [
            a[1] * b[2] - a[2] * b[1],
            a[2] * b[0] - a[0] * b[2],
            a[0] * b[1] - a[1] * b[0],
        ]
    };
    let axis = [x, y, z];
    let once = cross(axis, point).map(|value| 2.0 * value);
    let twice = cross(axis, once);
    [0, 1, 2].map(|i| point[i] + w * once[i] + twice[i])
}

/// Where a route takes a point.
fn moved(route: &TransformRoute, point: [f32; 3]) -> [f32; 3] {
    let mut point = point.map(f64::from);
    for edge in &route.up {
        let turned = rotate(edge.rotation.map(|value| f64::from_bits(value.0)), point);
        point = [0, 1, 2].map(|i| turned[i] + f64::from_bits(edge.translation[i].0));
    }
    for edge in route.down.iter().rev() {
        let [x, y, z, w] = edge.rotation.map(|value| f64::from_bits(value.0));
        let shifted = [0, 1, 2].map(|i| point[i] - f64::from_bits(edge.translation[i].0));
        point = rotate([-x, -y, -z, w], shifted);
    }
    point.map(|value| value as f32)
}

fn transform_points(
    state: &TransformState,
    source: &str,
    target: &str,
    time: Option<i64>,
    points: &[[f32; 3]],
) -> Option<Vec<[f32; 3]>> {
    let route = state.resolve(source, target, time.map(MeasurementTime))?;
    Some(points.iter().map(|point| moved(&route, *point)).collect())
}

fn scan_points(frame: &PointCloudFrame) -> Vec<[f32; 3]> {
    frame
        .echoes
        .iter()
        .map(|echo| {
            let angle = f32::from_bits(frame.angle_min.0)
                + echo.beam as f32 * f32::from_bits(frame.angle_increment.0);
            let range = f32::from_bits(echo.range.0);
            [range * angle.cos(), range * angle.sin(), 0.0]
        })
        .collect()
}

fn bindings() -> WorkspaceBindings {
    WorkspaceBindings {
        path_topic: "/planning/path".into(),
        odometry_topic: "/odom".into(),
        point_cloud_topic: "/scan".into(),
        dynamic_tf_topic: "/tf".into(),
        static_tf_topic: "/tf_static".into(),
    }
}

fn stream(id: u32, topic: &str, schema: &str) -> StreamDescriptor {
    StreamDescriptor {
        id: StreamId(id),
        topic: topic.into(),
        schema: schema.into(),
        message_encoding: "cdr".into(),
        timing: StreamTimingSummary::default(),
    }
}

fn image(time: i64, jpeg: Vec<u8>) -> Bytes {
    Bytes::from(
        encode_compressed_image_cdr(&CompressedImage {
            measurement_time: MeasurementTime(time),
            frame_id: "camera".into(),
            format: "jpeg".into(),
            jpeg,
        })
        .unwrap(),
    )
}

fn camera_plan() -> SessionPlan {
    let catalog = SourceCatalog {
        time_range: None,
        streams: vec![stream(7, "/camera", "sensor_msgs/msg/CompressedImage")],
    };
    let mut requirements = PlaybackRequirements::empty();
    requirements.require_all_cameras();
    SessionPlan::build(&catalog, "/camera", &requirements, &bindings()).unwrap()
}

#[test]
fn controllers_camera_admission_coalesces_before_decode_and_keeps_bytes_slice() {
    let payload = image(1, vec![1, 2, 3, 4]);
    let mut controller = CameraController::new(&camera_plan());
    for time in [1, 2] {
        assert!(controller.admit_message(&RawMessage {
            stream_id: StreamId(7),
            arrival_time: ArrivalTime(time),
            payload: payload.clone(),
        }));
    }
    controller.advance(Duration::ZERO);
    let frame = controller.state().latest_for(CameraId(0)).unwrap();
    assert_eq!(frame.arrival_time, ArrivalTime(2));
    assert_eq!(controller.counters().dropped, 1);
    let payload_start = payload.as_ptr() as usize;
    let jpeg_start = frame.jpeg.as_ptr() as usize;
    assert!(jpeg_start >= payload_start);
    assert!(jpeg_start + frame.jpeg.len() <= payload_start + payload.len());
}

#[test]
fn controllers_camera_coalescing_discards_malformed_old_cdr_before_decode() {
    let valid = image(2, vec![1, 2, 3]);
    let mut controller = CameraController::new(&camera_plan());
    assert!(controller.admit_message(&RawMessage {
        stream_id: StreamId(7),
        arrival_time: ArrivalTime(1),
        payload: Bytes::from_static(&[0xff]),
    }));
    assert!(controller.admit_message(&RawMessage {
        stream_id: StreamId(7),
        arrival_time: ArrivalTime(2),
        payload: valid,
    }));

    controller.advance(Duration::ZERO);

    assert_eq!(controller.counters().dropped, 1);
    assert_eq!(controller.counters().decoded, 1);
    assert_eq!(controller.counters().errors, 0);
    assert_eq!(
        controller
            .state()
            .latest_for(CameraId(0))
            .unwrap()
            .arrival_time,
        ArrivalTime(2)
    );
}

#[test]
fn controllers_camera_rates_preserve_the_existing_policy() {
    assert_eq!(CameraController::focused_hz() as f64, 10.0);
    assert_eq!(CameraController::background_hz() as f64, 5.0);
}

#[test]
fn controllers_camera_restore_bypasses_playback_scheduler_for_every_selected_camera() {
    let catalog = SourceCatalog {
        time_range: None,
        streams: (0..3)
            .map(|index| {
                stream(
                    7 + index,
                    &format!("/camera/{index}"),
                    "sensor_msgs/msg/CompressedImage",
                )
            })
            .collect(),
    };
    let mut requirements = PlaybackRequirements::empty();
    requirements.require_all_cameras();
    let plan = SessionPlan::build(&catalog, "/camera/0", &requirements, &bindings()).unwrap();
    let mut controller = CameraController::new(&plan);
    for index in 0..3 {
        assert!(controller
            .restore(&RawMessage {
                stream_id: StreamId(7 + index),
                arrival_time: ArrivalTime(i64::from(index)),
                payload: image(i64::from(index), vec![index as u8]),
            })
            .unwrap());
    }

    assert_eq!(controller.state().frames().len(), 3);
    assert_eq!(controller.counters().decoded, 3);
    assert_eq!(controller.counters().dropped, 0);
}

#[test]
fn controllers_repeated_static_transforms_restore_only_updates_valid_at_target() {
    let catalog = SourceCatalog {
        time_range: None,
        streams: vec![stream(9, "/tf_static", "tf2_msgs/msg/TFMessage")],
    };
    let mut requirements = PlaybackRequirements::empty();
    requirements.require_transforms();
    let plan = SessionPlan::build(&catalog, "/unused", &requirements, &bindings()).unwrap();
    let mut controller = TransformController::new(&plan);
    let mut archive = Vec::new();
    for (arrival, x) in [(10, 1.0), (20, 2.0)] {
        let message = RawMessage {
            stream_id: StreamId(9),
            arrival_time: ArrivalTime(arrival),
            payload: encode_tf_message_cdr(&[TransformStamped {
                measurement_time: MeasurementTime(arrival),
                frame_id: "map".into(),
                child_frame_id: "base".into(),
                translation: [x, 0.0, 0.0].map(bits),
                rotation: [0.0, 0.0, 0.0, 1.0].map(bits),
            }])
            .unwrap()
            .into(),
        };
        assert!(controller.process(&message));
        archive.push(message);
    }

    controller.reset_for_restore(ArrivalTime(15));
    for message in archive
        .iter()
        .filter(|message| message.arrival_time.0 <= 15)
    {
        controller.process(message);
    }
    assert_eq!(
        transform_points(controller.state(), "base", "map", None, &[[0.0, 0.0, 0.0]]).unwrap(),
        vec![[1.0, 0.0, 0.0]]
    );
    controller.reset_for_restore(ArrivalTime(25));
    for message in archive
        .iter()
        .filter(|message| message.arrival_time.0 <= 25)
    {
        controller.process(message);
    }
    assert_eq!(
        transform_points(controller.state(), "base", "map", None, &[[0.0, 0.0, 0.0]]).unwrap(),
        vec![[2.0, 0.0, 0.0]]
    );
}

#[test]
fn tests_camera_admission_coalesces_before_decode_and_keeps_bytes_slice() {
    let payload = image(1, vec![1, 2, 3, 4]);
    let mut controller = CameraController::new(&camera_plan());
    for time in [1, 2] {
        assert!(controller.admit_message(&RawMessage {
            stream_id: StreamId(7),
            arrival_time: ArrivalTime(time),
            payload: payload.clone(),
        }));
    }
    controller.advance(Duration::ZERO);
    let frame = controller.state().latest_for(CameraId(0)).unwrap();
    assert_eq!(frame.arrival_time, ArrivalTime(2));
    assert_eq!(controller.counters().dropped, 1);
    let payload_start = payload.as_ptr() as usize;
    let jpeg_start = frame.jpeg.as_ptr() as usize;
    assert!(jpeg_start >= payload_start);
    assert!(jpeg_start + frame.jpeg.len() <= payload_start + payload.len());
}

#[test]
fn tests_camera_coalescing_discards_malformed_old_cdr_before_decode() {
    let valid = image(2, vec![1, 2, 3]);
    let mut controller = CameraController::new(&camera_plan());
    assert!(controller.admit_message(&RawMessage {
        stream_id: StreamId(7),
        arrival_time: ArrivalTime(1),
        payload: Bytes::from_static(&[0xff]),
    }));
    assert!(controller.admit_message(&RawMessage {
        stream_id: StreamId(7),
        arrival_time: ArrivalTime(2),
        payload: valid,
    }));

    controller.advance(Duration::ZERO);

    assert_eq!(controller.counters().dropped, 1);
    assert_eq!(controller.counters().decoded, 1);
    assert_eq!(controller.counters().errors, 0);
    assert_eq!(
        controller
            .state()
            .latest_for(CameraId(0))
            .unwrap()
            .arrival_time,
        ArrivalTime(2)
    );
}

#[test]
fn tests_camera_rates_preserve_the_existing_policy() {
    assert_eq!(CameraController::focused_hz() as f64, 10.0);
    assert_eq!(CameraController::background_hz() as f64, 5.0);
}

#[test]
fn tests_camera_restore_bypasses_playback_scheduler_for_every_selected_camera() {
    let catalog = SourceCatalog {
        time_range: None,
        streams: (0..3)
            .map(|index| {
                stream(
                    7 + index,
                    &format!("/camera/{index}"),
                    "sensor_msgs/msg/CompressedImage",
                )
            })
            .collect(),
    };
    let mut requirements = PlaybackRequirements::empty();
    requirements.require_all_cameras();
    let plan = SessionPlan::build(&catalog, "/camera/0", &requirements, &bindings()).unwrap();
    let mut controller = CameraController::new(&plan);
    for index in 0..3 {
        assert!(controller
            .restore(&RawMessage {
                stream_id: StreamId(7 + index),
                arrival_time: ArrivalTime(i64::from(index)),
                payload: image(i64::from(index), vec![index as u8]),
            })
            .unwrap());
    }

    assert_eq!(controller.state().frames().len(), 3);
    assert_eq!(controller.counters().decoded, 3);
    assert_eq!(controller.counters().dropped, 0);
}

#[test]
fn tests_repeated_static_transforms_restore_only_updates_valid_at_target() {
    let catalog = SourceCatalog {
        time_range: None,
        streams: vec![stream(9, "/tf_static", "tf2_msgs/msg/TFMessage")],
    };
    let mut requirements = PlaybackRequirements::empty();
    requirements.require_transforms();
    let plan = SessionPlan::build(&catalog, "/unused", &requirements, &bindings()).unwrap();
    let mut controller = TransformController::new(&plan);
    let mut archive = Vec::new();
    for (arrival, x) in [(10, 1.0), (20, 2.0)] {
        let message = RawMessage {
            stream_id: StreamId(9),
            arrival_time: ArrivalTime(arrival),
            payload: encode_tf_message_cdr(&[TransformStamped {
                measurement_time: MeasurementTime(arrival),
                frame_id: "map".into(),
                child_frame_id: "base".into(),
                translation: [x, 0.0, 0.0].map(bits),
                rotation: [0.0, 0.0, 0.0, 1.0].map(bits),
            }])
            .unwrap()
            .into(),
        };
        assert!(controller.process(&message));
        archive.push(message);
    }

    controller.reset_for_restore(ArrivalTime(15));
    for message in archive
        .iter()
        .filter(|message| message.arrival_time.0 <= 15)
    {
        controller.process(message);
    }
    assert_eq!(
        transform_points(controller.state(), "base", "map", None, &[[0.0, 0.0, 0.0]]).unwrap(),
        vec![[1.0, 0.0, 0.0]]
    );
    controller.reset_for_restore(ArrivalTime(25));
    for message in archive
        .iter()
        .filter(|message| message.arrival_time.0 <= 25)
    {
        controller.process(message);
    }
    assert_eq!(
        transform_points(controller.state(), "base", "map", None, &[[0.0, 0.0, 0.0]]).unwrap(),
        vec![[2.0, 0.0, 0.0]]
    );
}

fn camera_frame(arrival: i64) -> CameraFrame {
    CameraFrame {
        camera_id: CameraId(0),
        measurement_time: MeasurementTime(0),
        arrival_time: ArrivalTime(arrival),
        frame_id: String::new(),
        jpeg: Bytes::new(),
    }
}

#[test]
fn rejects_old_arrival_and_clears_on_seek() {
    let mut state = CameraState::default();
    assert!(state.apply(camera_frame(2)));
    assert!(!state.apply(camera_frame(1)));
    state.cold_seek();
    assert!(state.latest_for(CameraId(0)).is_none());
    assert!(state.apply(camera_frame(3)));
}

#[test]
fn keeps_frames_independent_by_camera_id() {
    let mut state = CameraState::default();
    let mut rear = camera_frame(1);
    rear.camera_id = CameraId(1);
    assert!(state.apply(camera_frame(2)));
    assert!(state.apply(rear));
    assert!(state.latest_for(CameraId(0)).is_some());
    assert!(state.latest_for(CameraId(1)).is_some());
    assert_eq!(
        state.latest_by_arrival().map(|frame| frame.camera_id),
        Some(CameraId(0))
    );
    assert_eq!(state.ids(), vec![CameraId(0), CameraId(1)]);
}

#[test]
fn errors_and_status_are_scoped_to_one_camera() {
    let mut state = CameraState::default();
    let mut rear = camera_frame(3);
    rear.camera_id = CameraId(1);
    state.apply(camera_frame(2));
    state.apply(rear);

    assert_eq!(
        state.latest_by_arrival().map(|frame| frame.camera_id),
        Some(CameraId(1))
    );
    state.set_error_for(CameraId(1));
    assert_eq!(state.status_for(CameraId(0)), CameraStatus::Ready);
    assert_eq!(state.status_for(CameraId(1)), CameraStatus::Error);
    assert_eq!(
        state.status_for(CameraId(2)),
        CameraStatus::WaitingForCameraFrame
    );
}

fn path_frame(arrival: i64) -> BevPathFrame {
    BevPathFrame {
        measurement_time: MeasurementTime(arrival - 1),
        arrival_time: ArrivalTime(arrival),
        frame_id: "base_link".into(),
        points: vec![[single(1.0), single(2.0)]],
    }
}

#[test]
fn rejects_old_path_and_clears_on_seek() {
    let mut state = BevState::default();
    assert!(state.apply(path_frame(2)));
    assert!(!state.apply(path_frame(1)));
    let revision = state.revision();
    state.cold_seek();
    assert!(state.latest().is_none());
    assert_ne!(state.revision(), revision);
    assert!(state.apply(path_frame(3)));
}

fn scan(time: i64, arrival: i64, frame_id: &str) -> PointCloudFrame {
    PointCloudFrame {
        measurement_time: MeasurementTime(time),
        arrival_time: ArrivalTime(arrival),
        frame_id: frame_id.into(),
        angle_min: single(0.0),
        angle_increment: single(0.1),
        echoes: vec![ScanReturn {
            beam: 0,
            range: single(1.0),
        }],
    }
}

#[test]
fn keeps_latest_scan_and_clears_on_seek() {
    let mut state = PointCloudState::default();
    assert!(state.apply(scan(1, 2, "base_scan")));
    assert!(!state.apply(scan(0, 1, "base_scan")));
    let revision = state.revision();
    state.cold_seek();
    assert!(state.latest().is_none());
    assert_ne!(state.revision(), revision);
    assert!(state.apply(scan(2, 3, "base_scan")));
}

fn timed_transform(
    time: i64,
    parent: &str,
    child: &str,
    translation: [f64; 3],
) -> TransformStamped {
    TransformStamped {
        measurement_time: MeasurementTime(time),
        frame_id: parent.into(),
        child_frame_id: child.into(),
        translation: translation.map(bits),
        rotation: [0.0, 0.0, 0.0, 1.0].map(bits),
    }
}

fn batch(arrival: i64, is_static: bool, transforms: Vec<TransformStamped>) -> TransformBatch {
    TransformBatch {
        arrival_time: ArrivalTime(arrival),
        is_static,
        transforms,
    }
}

#[test]
fn resolves_chain_and_inverse() {
    let mut state = TransformState::default();
    state.apply(batch(
        1,
        true,
        vec![
            timed_transform(0, "base", "sensor", [1.0, 0.0, 0.5]),
            timed_transform(0, "odom", "base", [2.0, 3.0, 0.0]),
        ],
    ));
    let in_odom = transform_points(&state, "sensor", "odom", None, &[[0.0, 0.0, 0.0]]).unwrap();
    assert_eq!(in_odom, vec![[3.0, 3.0, 0.5]]);
    let in_sensor = transform_points(&state, "odom", "sensor", None, &in_odom).unwrap();
    assert_eq!(in_sensor, vec![[0.0, 0.0, 0.0]]);
}

#[test]
fn seek_clear_preserves_static_only() {
    let mut state = TransformState::default();
    state.apply(batch(
        1,
        true,
        vec![timed_transform(0, "base", "sensor", [0.0; 3])],
    ));
    state.apply(batch(
        2,
        false,
        vec![timed_transform(0, "odom", "base", [0.0; 3])],
    ));
    state.clear_dynamic();
    assert_eq!(state.static_len(), 1);
    assert_eq!(state.dynamic_len(), 0);
}

#[test]
fn resolves_dynamic_transform_at_measurement_time_without_using_future() {
    let mut state = TransformState::default();
    for (arrival, measurement, x) in [(10, 100, 1.0), (20, 200, 2.0)] {
        state.apply(batch(
            arrival,
            false,
            vec![timed_transform(measurement, "odom", "base", [x, 0.0, 0.0])],
        ));
    }

    assert!(transform_points(&state, "base", "odom", Some(99), &[[0.0; 3]]).is_none());
    assert_eq!(
        transform_points(&state, "base", "odom", Some(150), &[[0.0; 3]]).unwrap(),
        vec![[1.0, 0.0, 0.0]]
    );
    assert_eq!(
        transform_points(&state, "base", "odom", Some(200), &[[0.0; 3]]).unwrap(),
        vec![[2.0, 0.0, 0.0]]
    );
}

#[test]
fn dynamic_retention_uses_the_same_time_window_as_seek_restore() {
    let mut state = TransformState::default();
    let history_ns = DYNAMIC_TF_HISTORY_NS;
    state.apply(batch(
        0,
        false,
        vec![timed_transform(0, "odom", "base", [1.0, 0.0, 0.0])],
    ));
    state.apply(batch(
        history_ns + 1,
        false,
        vec![timed_transform(
            history_ns + 1,
            "odom",
            "base",
            [2.0, 0.0, 0.0],
        )],
    ));

    assert!(
        transform_points(&state, "base", "odom", Some(0), &[[0.0; 3]]).is_none(),
        "normal playback must not retain more dynamic TF history than seek restores"
    );
    assert_eq!(
        transform_points(&state, "base", "odom", Some(history_ns + 1), &[[0.0; 3]]).unwrap(),
        vec![[2.0, 0.0, 0.0]]
    );
}

#[test]
fn anchors_scan_when_update_is_applied() {
    let mut state = DomainState::default();
    state.apply(DomainUpdate::Transforms(batch(
        1,
        true,
        vec![timed_transform(0, "odom", "scan", [2.0, 3.0, 0.5])],
    )));
    state.apply(DomainUpdate::PointCloud(scan(10, 2, "scan")));

    let cloud = state.point_cloud.latest().unwrap();
    assert_eq!(cloud.frame_id, "odom");
    let route = state.point_cloud_route.as_ref().unwrap();
    let points: Vec<[f32; 3]> = scan_points(cloud)
        .into_iter()
        .map(|point| moved(route, point))
        .collect();
    assert_eq!(points, vec![[3.0, 3.0, 0.5]]);
    assert_eq!(state.last_tf_route.as_deref(), Some("scan → odom"));
}

#[test]
fn camera_pipeline_retains_jpeg_in_raw_message_backing_allocation() {
    let stream_id = StreamId(7);
    let payload = image(42, vec![1, 2, 3, 4]);
    let payload_start = payload.as_ptr() as usize;
    let payload_end = payload_start + payload.len();
    let mut pipelines = DomainPipelineSet::from_routes(&[DomainRoute {
        stream: stream(7, "/camera", "sensor_msgs/msg/CompressedImage"),
        target: DomainTarget::Camera(CameraId(0)),
    }])
    .unwrap();
    let mut updates = Vec::new();

    pipelines.decode(
        RawMessage {
            stream_id,
            arrival_time: ArrivalTime(100),
            payload,
        },
        &mut updates,
    );

    let DomainUpdate::Camera(frame) = updates.pop().unwrap() else {
        panic!("camera pipeline must produce a camera update");
    };
    let jpeg_start = frame.jpeg.as_ptr() as usize;
    assert_eq!(frame.jpeg.as_ref(), [1, 2, 3, 4]);
    assert!(jpeg_start >= payload_start);
    assert!(jpeg_start + frame.jpeg.len() <= payload_end);
}

#[test]
fn invalid_domain_route_is_rejected_instead_of_silently_skipped() {
    let error = DomainPipelineSet::from_routes(&[DomainRoute {
        stream: stream(1, "/odom", "example_msgs/msg/Foo"),
        target: DomainTarget::Telemetry,
    }])
    .err()
    .expect("wrong-schema route must fail");

    assert!(error.message().contains("nav_msgs/msg/Odometry"));
}

#[test]
fn camera_rates_are_derived_from_the_scheduling_intervals() {
    let performance = PlaybackPerformance::from_controllers(&CameraController::new(&camera_plan()));
    assert_eq!(CameraController::focused_hz() as f64, 10.0);
    assert_eq!(CameraController::background_hz() as f64, 5.0);
    assert_eq!(performance.focused_camera_hz(), CameraController::focused_hz());
    assert_eq!(
        performance.background_camera_hz(),
        CameraController::background_hz()
    );
}

fn telemetry(arrival_time: i64, position: [f64; 2]) -> TelemetryFrame {
    TelemetryFrame {
        measurement_time: MeasurementTime(arrival_time),
        arrival_time: ArrivalTime(arrival_time),
        frame_id: "odom".into(),
        child_frame_id: "base_link".into(),
        position_x: bits(position[0]),
        position_y: bits(position[1]),
        orientation: [0.0, 0.0, (0.125_f64).sin(), (0.125_f64).cos()].map(bits),
        forward_velocity: bits(0.0),
        lateral_velocity: bits(0.0),
        yaw_rate: bits(0.0),
    }
}

fn scan_transform(x: f64, y: f64, z: f64) -> TransformBatch {
    batch(1, true, vec![timed_transform(0, "odom", "scan", [x, y, z])])
}

fn shown_cloud(builder: &SceneFrameBuilder, cloud: Option<&PointCloudFrame>) -> Vec<[f32; 3]> {
    match (builder.cloud_route(), cloud) {
        (Some(route), Some(frame)) => scan_points(frame)
            .into_iter()
            .map(|point| moved(route, point))
            .collect(),
        _ => Vec::new(),
    }
}

#[test]
fn builders_select_current_feature_values() {
    let mut path = BevState::default();
    path.apply(BevPathFrame {
        measurement_time: MeasurementTime(1),
        arrival_time: ArrivalTime(2),
        frame_id: "base_link".into(),
        points: vec![[single(0.0), single(1.0)]],
    });
    let mut odometry = TelemetryState::default();
    odometry.apply(telemetry(3, [4.0, 5.0]));
    let mut point_cloud = PointCloudState::default();
    point_cloud.apply(scan(1, 4, "odom"));

    let bev = BevFrameBuilder::new(&path).build();
    assert_eq!(bev.path.unwrap(), [[single(0.0), single(1.0)]]);
    let mut builder = SceneFrameBuilder::new();
    let transforms = TransformState::default();
    let scene = builder.build(&path, &odometry, &point_cloud, &transforms, true);
    assert_eq!(scene.ego_position, [single(4.0), single(5.0)]);
    let [x, y, z, w] = scene
        .ego_orientation
        .unwrap()
        .map(|value| f64::from_bits(value.0));
    let yaw = (2.0 * (w * z + x * y)).atan2(1.0 - 2.0 * (y * y + z * z)) as f32;
    assert_eq!(yaw, 0.25);
    assert_eq!(scene.path.unwrap(), bev.path.unwrap());
    assert_eq!(shown_cloud(&builder, scene.cloud), [[1.0, 0.0, 0.0]]);
    assert!(scene.accumulate);
}

#[test]
fn transforms_each_raw_scan_once_and_keeps_it_fixed_in_world() {
    let mut transforms = TransformState::default();
    transforms.apply(scan_transform(2.0, 3.0, 0.5));
    let mut point_cloud = PointCloudState::default();
    point_cloud.apply(scan(10, 2, "scan"));
    let mut builder = SceneFrameBuilder::new();
    let path = BevState::default();
    let mut odometry = TelemetryState::default();
    let first = builder.build(&path, &odometry, &point_cloud, &transforms, true);
    assert_eq!(shown_cloud(&builder, first.cloud), [[3.0, 3.0, 0.5]]);
    let revision = first.cloud_revision;
    assert_eq!(
        first.diagnostics.last_tf_route.as_deref(),
        Some("scan → odom")
    );

    odometry.apply(telemetry(20, [100.0, -50.0]));
    let second = builder.build(&path, &odometry, &point_cloud, &transforms, true);
    assert_eq!(shown_cloud(&builder, second.cloud), [[3.0, 3.0, 0.5]]);
    assert_eq!(second.cloud_revision, revision);
    let raw = point_cloud.latest().unwrap();
    assert_eq!(raw.frame_id, "scan");
    assert_eq!(scan_points(raw), [[1.0, 0.0, 0.0]]);
}

#[test]
fn retries_a_missing_scan_transform_when_tf_arrives() {
    let path = BevState::default();
    let odometry = TelemetryState::default();
    let mut point_cloud = PointCloudState::default();
    point_cloud.apply(scan(10, 1, "scan"));
    let mut builder = SceneFrameBuilder::new();
    let mut transforms = TransformState::default();
    let missing = builder.build(&path, &odometry, &point_cloud, &transforms, false);
    assert!(shown_cloud(&builder, missing.cloud).is_empty());
    assert_eq!(missing.diagnostics.tf_misses, 1);

    transforms.apply(scan_transform(2.0, 0.0, 0.0));
    let recovered = builder.build(&path, &odometry, &point_cloud, &transforms, false);
    assert_eq!(shown_cloud(&builder, recovered.cloud), [[3.0, 0.0, 0.0]]);
    assert_eq!(recovered.diagnostics.tf_misses, 1);
    assert!(recovered.diagnostics.current_tf_error.is_none());

    builder.reset();
    assert_eq!(builder.diagnostics().tf_misses, 0);
    assert!(builder.cloud_route().is_none());
}

#[test]
fn scene_revisions_mix_path_and_telemetry() {
    let mut path = BevState::default();
    path.apply(path_frame(1));
    let mut odometry = TelemetryState::default();
    odometry.apply(telemetry(-5, [0.0, 0.0]));
    let mut builder = SceneFrameBuilder::new();
    let point_cloud = PointCloudState::default();
    let transforms = TransformState::default();
    let scene = builder.build(&path, &odometry, &point_cloud, &transforms, false);
    assert_eq!(scene.revision, path.revision().rotate_left(17) ^ (-5_i64) as u64);
}

fn camera_runtime() -> DomainRuntime {
    DomainRuntime::new(camera_plan())
}

fn camera_message(time: i64) -> RawMessage {
    RawMessage {
        stream_id: StreamId(7),
        arrival_time: ArrivalTime(time),
        payload: image(time, vec![9]),
    }
}

#[test]
fn domain_runtime_shows_only_due_camera_images() {
    let mut runtime = camera_runtime();
    runtime.process(Duration::ZERO, &[camera_message(1), camera_message(2)]);
    let shown = |runtime: &DomainRuntime| {
        runtime
            .state()
            .camera
            .latest_by_arrival()
            .map(|frame| frame.arrival_time.0)
    };
    assert_eq!(shown(&runtime), Some(2));
    assert_eq!(runtime.counters().dropped, 1);
    assert_eq!(runtime.counters().decoded, 1);
    runtime.process(Duration::from_millis(50), &[camera_message(3)]);
    assert_eq!(shown(&runtime), Some(2));
    runtime.process(Duration::from_millis(50), &[]);
    assert_eq!(shown(&runtime), Some(3));
    assert_eq!(runtime.schedule().input_frames(), 3);
    assert_eq!(runtime.schedule().presented_frames(), 2);
}

#[test]
fn staged_domain_restores_keep_counts_and_replace_what_is_shown() {
    let mut runtime = camera_runtime();
    runtime.process(Duration::ZERO, &[camera_message(1)]);
    let mut staged = runtime.staging_for_restore();
    assert!(staged.state().camera.latest_by_arrival().is_none());
    staged.process(Duration::ZERO, &[camera_message(50)]);
    runtime.commit_restore(staged);
    assert_eq!(
        runtime.state().camera.latest_by_arrival().unwrap().arrival_time,
        ArrivalTime(50)
    );
    assert_eq!(runtime.counters().decoded, 2);
    runtime.reset_for_restore();
    assert!(runtime.state().camera.latest_by_arrival().is_none());
    assert_eq!(runtime.focused_camera(), Some(CameraId(0)));
    assert_eq!(runtime.camera_topics().len(), 1);
}

#[test]
fn domain_restores_take_transforms_only() {
    let catalog = SourceCatalog {
        time_range: None,
        streams: vec![
            stream(7, "/camera", "sensor_msgs/msg/CompressedImage"),
            stream(9, "/tf_static", "tf2_msgs/msg/TFMessage"),
        ],
    };
    let mut needs = PlaybackRequirements::empty();
    needs.require_all_cameras();
    needs.optional_transforms();
    let mut runtime =
        DomainRuntime::from_catalog(&catalog, "/camera", &needs, &bindings()).unwrap();
    let tf = RawMessage {
        stream_id: StreamId(9),
        arrival_time: ArrivalTime(1),
        payload: encode_tf_message_cdr(&[timed_transform(0, "map", "base", [1.0, 0.0, 0.0])])
            .unwrap()
            .into(),
    };
    runtime.apply_transform_restore(&[camera_message(1), tf]);
    assert_eq!(runtime.state().transforms.static_len(), 1);
    assert!(runtime.state().camera.latest_by_arrival().is_none());

    needs.require_odometry();
    assert!(DomainRuntime::from_catalog(&catalog, "/camera", &needs, &bindings()).is_err());
}

#[test]
fn narrowing_agrees_with_floating_point() {
    for value in [
        0.0_f64, -0.0, 1.0, -1.5, 0.1, 1e-45, 1e-46, 7e-46, 1.4e-45, 1e-38, 3.4028235e38,
        3.4028236e38, 1e39, -1e300, 16_777_217.0, 16_777_219.0, 5e-324,
    ] {
        assert_eq!(bits(value).narrowed(), single(value as f32), "{value}");
        assert_eq!(bits(value).single(), single(value as f32));
    }
    assert_eq!(bits(f64::INFINITY).single(), single(f32::INFINITY));
    assert_eq!(bits(f64::NEG_INFINITY).single(), single(f32::NEG_INFINITY));
    assert!(bits(f64::NAN).single().is_nan());
}

#[test]
fn presented_cameras_wait_for_their_next_turn() {
    let (front, rear) = (CameraId(0), CameraId(1));
    let mut schedule = CameraSchedule::new(vec![front, rear], Some(front));
    let message = |time: i64| RawMessage {
        stream_id: StreamId(1),
        arrival_time: ArrivalTime(time),
        payload: Bytes::from_static(b"frame"),
    };
    schedule.admit_message(front, message(1));
    schedule.admit_message(rear, message(2));
    let due: Vec<CameraId> = schedule.advance(0).into_iter().map(|(camera, _)| camera).collect();
    assert_eq!(due, [front, rear]);
    assert_eq!(schedule.pending_count(), 0);

    schedule.admit_message(front, message(3));
    schedule.admit_message(rear, message(4));
    assert!(schedule.advance(FOCUSED_INTERVAL_NS - 1).is_empty());
    let due: Vec<CameraId> = schedule.advance(1).into_iter().map(|(camera, _)| camera).collect();
    assert_eq!(due, [front]);
    let wait = BACKGROUND_INTERVAL_NS - FOCUSED_INTERVAL_NS;
    assert!(schedule.advance(wait - 1).is_empty());
    let due: Vec<CameraId> = schedule.advance(1).into_iter().map(|(camera, _)| camera).collect();
    assert_eq!(due, [rear]);
}

use bytes::Bytes;
use mcap_player::message::cdr::common::{align_output, push_string, push_u32, DecodeError};
use mcap_player::message::cdr::image::{
    decode_compressed_image, decode_compressed_image_bytes, encode_compressed_image_cdr,
    CompressedImage,
};
use mcap_player::message::cdr::laser_scan::decode_laser_scan;
use mcap_player::message::cdr::odometry::decode_odometry;
use mcap_player::message::cdr::path::decode_path;
use mcap_player::message::cdr::transform::{
    decode_tf_message, encode_tf_message_cdr, TransformStamped,
};
use mcap_player::message::float::F64;
use mcap_player::message::time::MeasurementTime;

fn bits(value: f64) -> F64 {
    F64(value.to_bits())
}

fn push_f64(payload: &mut Vec<u8>, value: f64) {
    align_output(payload, 8);
    payload.extend_from_slice(&value.to_le_bytes());
}

#[test]
fn cdr_round_trip_and_normalizes_format() {
    let original = CompressedImage {
        measurement_time: MeasurementTime(12_345_000_006),
        frame_id: "front".into(),
        format: "JPEG compressed bgr8".into(),
        jpeg: vec![0xff, 0xd8, 0xff, 0xd9],
    };
    let decoded =
        decode_compressed_image(&encode_compressed_image_cdr(&original).unwrap()).unwrap();
    assert_eq!(decoded.measurement_time, original.measurement_time);
    assert_eq!(decoded.format, "jpeg");
    assert_eq!(decoded.jpeg, original.jpeg);

    let mut cdr = original;
    cdr.format = "rgb8; jpeg compressed bgr8".into();
    assert_eq!(
        decode_compressed_image(&encode_compressed_image_cdr(&cdr).unwrap())
            .unwrap()
            .format,
        "jpeg"
    );
}

#[test]
fn cdr_tf_message_round_trip() {
    let transforms = vec![TransformStamped {
        measurement_time: MeasurementTime(12_345_000_006),
        frame_id: "base_link".into(),
        child_frame_id: "camera_front_optical_frame".into(),
        translation: [0.2, 0.0, 0.4].map(bits),
        rotation: [-0.5, 0.5, -0.5, 0.5].map(bits),
    }];
    let payload = encode_tf_message_cdr(&transforms).unwrap();
    assert_eq!(decode_tf_message(&payload).unwrap(), transforms);
}

#[test]
fn cdr_rejects_truncation_format_and_huge_lengths() {
    let valid = encode_compressed_image_cdr(&CompressedImage {
        measurement_time: MeasurementTime(0),
        frame_id: "f".into(),
        format: "jpeg".into(),
        jpeg: vec![1],
    })
    .unwrap();
    assert_eq!(
        decode_compressed_image(&valid[..valid.len() - 1]),
        Err(DecodeError::Truncated)
    );
    let mut bad = valid.clone();
    bad[20..24].copy_from_slice(&u32::MAX.to_le_bytes());
    assert!(decode_compressed_image(&bad).is_err());
    let unsupported = encode_compressed_image_cdr(&CompressedImage {
        measurement_time: MeasurementTime(0),
        frame_id: "f".into(),
        format: "png".into(),
        jpeg: vec![],
    })
    .unwrap();
    assert!(matches!(
        decode_compressed_image(&unsupported),
        Err(DecodeError::UnsupportedFormat(_))
    ));

    let mut path = vec![0, 1, 0, 0];
    push_u32(&mut path, 0);
    push_u32(&mut path, 0);
    push_string(&mut path, "map").unwrap();
    push_u32(&mut path, u32::MAX);
    assert!(matches!(decode_path(&path), Err(DecodeError::InvalidLength)));
}

#[test]
fn cdr_reads_big_endian() {
    let payload = [
        0, 0, 0, 0, 0, 0, 0, 1, 0, 0, 0, 2, 0, 0, 0, 1, 0, 0, 0, 0, 0, 0, 0, 5, b'j', b'p', b'e',
        b'g', 0, 0, 0, 0, 0, 0, 0, 0,
    ];
    let decoded = decode_compressed_image(&payload).unwrap();
    assert_eq!(decoded.measurement_time, MeasurementTime(1_000_000_002));
}

#[test]
fn cdr_decodes_little_endian_path() {
    let mut payload = vec![0, 1, 0, 0];
    push_u32(&mut payload, 12);
    push_u32(&mut payload, 34);
    push_string(&mut payload, "base_link").unwrap();
    push_u32(&mut payload, 1);
    push_u32(&mut payload, 12);
    push_u32(&mut payload, 34);
    push_string(&mut payload, "base_link").unwrap();
    for value in [2.0_f64, -1.0, 0.0, 0.0, 0.0, 0.0, 1.0] {
        push_f64(&mut payload, value);
    }

    let path = decode_path(&payload).unwrap();
    assert_eq!(path.measurement_time, MeasurementTime(12_000_000_034));
    assert_eq!(path.frame_id, "base_link");
    assert_eq!(path.points, vec![[2.0, -1.0].map(bits)]);
}

#[test]
fn cdr_decodes_little_endian_odometry() {
    let mut payload = vec![0, 1, 0, 0];
    push_u32(&mut payload, 20);
    push_u32(&mut payload, 50);
    push_string(&mut payload, "odom").unwrap();
    push_string(&mut payload, "base_footprint").unwrap();
    let pose = [1.5_f64, -2.0, 0.0, 0.0, 0.0, 0.1, 0.995];
    for value in pose {
        push_f64(&mut payload, value);
    }
    for _ in 0..36 {
        push_f64(&mut payload, 0.0);
    }
    for value in [0.4_f64, 0.1, 0.0, 0.0, 0.0, -0.2] {
        push_f64(&mut payload, value);
    }
    for _ in 0..36 {
        push_f64(&mut payload, 0.0);
    }

    let odometry = decode_odometry(&payload).unwrap();
    assert_eq!(odometry.measurement_time, MeasurementTime(20_000_000_050));
    assert_eq!(odometry.position, [1.5, -2.0, 0.0].map(bits));
    assert_eq!(odometry.linear_velocity, [0.4, 0.1, 0.0].map(bits));
    assert_eq!(odometry.angular_velocity[2], bits(-0.2));
}

#[test]
fn cdr_decodes_little_endian_laser_scan() {
    let mut payload = vec![0, 1, 0, 0];
    push_u32(&mut payload, 12);
    push_u32(&mut payload, 34);
    push_string(&mut payload, "base_scan").unwrap();
    for value in [-1.0_f32, 1.0, 0.5, 0.0, 0.1, 0.12, 8.0] {
        push_u32(&mut payload, value.to_bits());
    }
    push_u32(&mut payload, 3);
    for value in [1.0_f32, f32::INFINITY, 2.0] {
        push_u32(&mut payload, value.to_bits());
    }
    push_u32(&mut payload, 0);

    let scan = decode_laser_scan(&payload).unwrap();
    assert_eq!(scan.measurement_time, MeasurementTime(12_000_000_034));
    assert_eq!(scan.frame_id, "base_scan");
    assert_eq!(scan.ranges.len(), 3);
}

#[test]
fn cdr_decodes_tf_message() {
    let mut payload = vec![0, 1, 0, 0];
    push_u32(&mut payload, 1);
    push_u32(&mut payload, 2);
    push_u32(&mut payload, 3);
    push_string(&mut payload, "base_link").unwrap();
    push_string(&mut payload, "base_scan").unwrap();
    for value in [0.1_f64, 0.0, 0.2, 0.0, 0.0, 0.0, 1.0] {
        push_f64(&mut payload, value);
    }
    let transforms = decode_tf_message(&payload).unwrap();
    assert_eq!(transforms.len(), 1);
    assert_eq!(transforms[0].frame_id, "base_link");
    assert_eq!(transforms[0].child_frame_id, "base_scan");
    assert_eq!(transforms[0].translation, [0.1, 0.0, 0.2].map(bits));
}

#[test]
fn tests_round_trip_and_normalizes_format() {
    let original = CompressedImage {
        measurement_time: MeasurementTime(12_345_000_006),
        frame_id: "front".into(),
        format: "JPEG compressed bgr8".into(),
        jpeg: vec![0xff, 0xd8, 0xff, 0xd9],
    };
    let decoded =
        decode_compressed_image(&encode_compressed_image_cdr(&original).unwrap()).unwrap();
    assert_eq!(decoded.measurement_time, original.measurement_time);
    assert_eq!(decoded.format, "jpeg");
    assert_eq!(decoded.jpeg, original.jpeg);

    let mut cdr = original;
    cdr.format = "rgb8; jpeg compressed bgr8".into();
    assert_eq!(
        decode_compressed_image(&encode_compressed_image_cdr(&cdr).unwrap())
            .unwrap()
            .format,
        "jpeg"
    );
}

#[test]
fn tests_tf_message_round_trip() {
    let transforms = vec![TransformStamped {
        measurement_time: MeasurementTime(12_345_000_006),
        frame_id: "base_link".into(),
        child_frame_id: "camera_front_optical_frame".into(),
        translation: [0.2, 0.0, 0.4].map(bits),
        rotation: [-0.5, 0.5, -0.5, 0.5].map(bits),
    }];
    let payload = encode_tf_message_cdr(&transforms).unwrap();
    assert_eq!(decode_tf_message(&payload).unwrap(), transforms);
}

#[test]
fn tests_rejects_truncation_format_and_huge_lengths() {
    let valid = encode_compressed_image_cdr(&CompressedImage {
        measurement_time: MeasurementTime(0),
        frame_id: "f".into(),
        format: "jpeg".into(),
        jpeg: vec![1],
    })
    .unwrap();
    assert_eq!(
        decode_compressed_image(&valid[..valid.len() - 1]),
        Err(DecodeError::Truncated)
    );
    let mut bad = valid.clone();
    bad[20..24].copy_from_slice(&u32::MAX.to_le_bytes());
    assert!(decode_compressed_image(&bad).is_err());
    let unsupported = encode_compressed_image_cdr(&CompressedImage {
        measurement_time: MeasurementTime(0),
        frame_id: "f".into(),
        format: "png".into(),
        jpeg: vec![],
    })
    .unwrap();
    assert!(matches!(
        decode_compressed_image(&unsupported),
        Err(DecodeError::UnsupportedFormat(_))
    ));

    let mut path = vec![0, 1, 0, 0];
    push_u32(&mut path, 0);
    push_u32(&mut path, 0);
    push_string(&mut path, "map").unwrap();
    push_u32(&mut path, u32::MAX);
    assert!(matches!(decode_path(&path), Err(DecodeError::InvalidLength)));
}

#[test]
fn tests_reads_big_endian() {
    let payload = [
        0, 0, 0, 0, 0, 0, 0, 1, 0, 0, 0, 2, 0, 0, 0, 1, 0, 0, 0, 0, 0, 0, 0, 5, b'j', b'p', b'e',
        b'g', 0, 0, 0, 0, 0, 0, 0, 0,
    ];
    let decoded = decode_compressed_image(&payload).unwrap();
    assert_eq!(decoded.measurement_time, MeasurementTime(1_000_000_002));
}

#[test]
fn tests_decodes_little_endian_path() {
    let mut payload = vec![0, 1, 0, 0];
    push_u32(&mut payload, 12);
    push_u32(&mut payload, 34);
    push_string(&mut payload, "base_link").unwrap();
    push_u32(&mut payload, 1);
    push_u32(&mut payload, 12);
    push_u32(&mut payload, 34);
    push_string(&mut payload, "base_link").unwrap();
    for value in [2.0_f64, -1.0, 0.0, 0.0, 0.0, 0.0, 1.0] {
        push_f64(&mut payload, value);
    }

    let path = decode_path(&payload).unwrap();
    assert_eq!(path.measurement_time, MeasurementTime(12_000_000_034));
    assert_eq!(path.frame_id, "base_link");
    assert_eq!(path.points, vec![[2.0, -1.0].map(bits)]);
}

#[test]
fn tests_decodes_little_endian_odometry() {
    let mut payload = vec![0, 1, 0, 0];
    push_u32(&mut payload, 20);
    push_u32(&mut payload, 50);
    push_string(&mut payload, "odom").unwrap();
    push_string(&mut payload, "base_footprint").unwrap();
    let pose = [1.5_f64, -2.0, 0.0, 0.0, 0.0, 0.1, 0.995];
    for value in pose {
        push_f64(&mut payload, value);
    }
    for _ in 0..36 {
        push_f64(&mut payload, 0.0);
    }
    for value in [0.4_f64, 0.1, 0.0, 0.0, 0.0, -0.2] {
        push_f64(&mut payload, value);
    }
    for _ in 0..36 {
        push_f64(&mut payload, 0.0);
    }

    let odometry = decode_odometry(&payload).unwrap();
    assert_eq!(odometry.measurement_time, MeasurementTime(20_000_000_050));
    assert_eq!(odometry.position, [1.5, -2.0, 0.0].map(bits));
    assert_eq!(odometry.linear_velocity, [0.4, 0.1, 0.0].map(bits));
    assert_eq!(odometry.angular_velocity[2], bits(-0.2));
}

#[test]
fn tests_decodes_little_endian_laser_scan() {
    let mut payload = vec![0, 1, 0, 0];
    push_u32(&mut payload, 12);
    push_u32(&mut payload, 34);
    push_string(&mut payload, "base_scan").unwrap();
    for value in [-1.0_f32, 1.0, 0.5, 0.0, 0.1, 0.12, 8.0] {
        push_u32(&mut payload, value.to_bits());
    }
    push_u32(&mut payload, 3);
    for value in [1.0_f32, f32::INFINITY, 2.0] {
        push_u32(&mut payload, value.to_bits());
    }
    push_u32(&mut payload, 0);

    let scan = decode_laser_scan(&payload).unwrap();
    assert_eq!(scan.measurement_time, MeasurementTime(12_000_000_034));
    assert_eq!(scan.frame_id, "base_scan");
    assert_eq!(scan.ranges.len(), 3);
}

#[test]
fn tests_decodes_tf_message() {
    let mut payload = vec![0, 1, 0, 0];
    push_u32(&mut payload, 1);
    push_u32(&mut payload, 2);
    push_u32(&mut payload, 3);
    push_string(&mut payload, "base_link").unwrap();
    push_string(&mut payload, "base_scan").unwrap();
    for value in [0.1_f64, 0.0, 0.2, 0.0, 0.0, 0.0, 1.0] {
        push_f64(&mut payload, value);
    }
    let transforms = decode_tf_message(&payload).unwrap();
    assert_eq!(transforms.len(), 1);
    assert_eq!(transforms[0].frame_id, "base_link");
    assert_eq!(transforms[0].child_frame_id, "base_scan");
    assert_eq!(transforms[0].translation, [0.1, 0.0, 0.2].map(bits));
}

#[test]
fn bytes_decoder_retains_jpeg_in_the_cdr_backing_allocation() {
    let payload = Bytes::from(
        encode_compressed_image_cdr(&CompressedImage {
            measurement_time: MeasurementTime(12_345_000_006),
            frame_id: "front".into(),
            format: "jpeg".into(),
            jpeg: vec![0xff, 0xd8, 0x01, 0x02, 0xff, 0xd9],
        })
        .unwrap(),
    );
    let payload_start = payload.as_ptr() as usize;
    let payload_end = payload_start + payload.len();

    let decoded = decode_compressed_image_bytes(payload.clone()).unwrap();
    let jpeg_start = decoded.jpeg.as_ptr() as usize;

    assert_eq!(decoded.jpeg.as_ref(), [0xff, 0xd8, 0x01, 0x02, 0xff, 0xd9]);
    assert!(jpeg_start >= payload_start);
    assert!(jpeg_start + decoded.jpeg.len() <= payload_end);
}

#[test]
fn every_decode_error_has_its_words() {
    let image = |format: &str| CompressedImage {
        measurement_time: MeasurementTime(1),
        frame_id: "f".into(),
        format: format.into(),
        jpeg: vec![7],
    };
    assert_eq!(
        decode_compressed_image(&[0, 9, 0, 0]),
        Err(DecodeError::InvalidEncapsulation)
    );
    assert_eq!(decode_compressed_image(&[0]), Err(DecodeError::Truncated));
    let mut bad_text = encode_compressed_image_cdr(&image("jpeg")).unwrap();
    bad_text[16] = 0xff;
    assert_eq!(decode_compressed_image(&bad_text), Err(DecodeError::InvalidUtf8));
    let mut bad_time = encode_compressed_image_cdr(&image("jpeg")).unwrap();
    bad_time[8..12].copy_from_slice(&1_000_000_000_u32.to_le_bytes());
    assert_eq!(decode_compressed_image(&bad_time), Err(DecodeError::InvalidTimestamp));
    let png = encode_compressed_image_cdr(&image("png")).unwrap();
    assert_eq!(
        decode_compressed_image(&png),
        Err(DecodeError::UnsupportedFormat("png".into()))
    );
    assert!(DecodeError::UnsupportedFormat("png".into()).message().contains("png"));
    for error in [
        DecodeError::Truncated,
        DecodeError::InvalidEncapsulation,
        DecodeError::InvalidLength,
        DecodeError::InvalidUtf8,
        DecodeError::InvalidTimestamp,
    ] {
        assert!(!error.message().is_empty());
    }
}

#[test]
fn transforms_survive_encoding_whatever_their_alignment() {
    for length in 0..9_usize {
        let transforms = vec![
            TransformStamped {
                measurement_time: MeasurementTime(-1),
                frame_id: "x".repeat(length),
                child_frame_id: "ü".into(),
                translation: [1.0, -2.5, 1e-9].map(bits),
                rotation: [0.0, 0.0, 0.6, 0.8].map(bits),
            };
            2
        ];
        let payload = encode_tf_message_cdr(&transforms).unwrap();
        assert_eq!(decode_tf_message(&payload).unwrap(), transforms);
    }
}

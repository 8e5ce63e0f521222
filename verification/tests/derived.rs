use mcap_player::derived::bookmark::{
    Bookmark, BookmarkDocument, BookmarkId, BookmarkValidationError, PreviewBuildInfo,
    SourceFingerprint,
};
use mcap_player::derived::preview::{
    merge_signal_buckets, BucketNumber, CameraPreviewFrame, DataFidelity, PreviewBudget,
    PreviewImageEncoding, PreviewSnapshot, PreviewValidationError, SignalBucket, SignalFidelity,
    SignalId, SignalOverview, TimeRange, TimedPosition2,
};
use mcap_player::derived::source_fingerprint::mcap_summary_fingerprint;
use mcap_player::feature::camera::CameraId;
use mcap_player::message::float::{F32, F64};
use mcap_player::message::time::{ArrivalTime, MeasurementTime};
use mcap_player::recording::identity::McapSummaryIdentity;
use serde_json::Value;

fn f64_bits(value: f64) -> F64 {
    F64(value.to_bits())
}

fn f32_bits(value: f32) -> F32 {
    F32(value.to_bits())
}

fn source() -> SourceFingerprint {
    SourceFingerprint::new("sha256".into(), "0123456789abcdef".into()).unwrap()
}

fn object(fields: Vec<(&str, Value)>) -> Value {
    let mut map = serde_json::Map::new();
    for (name, value) in fields {
        map.insert(name.to_owned(), value);
    }
    Value::Object(map)
}

fn text_of(value: &Value, name: &str) -> String {
    value[name].as_str().unwrap().to_owned()
}

fn fingerprint_value(source: &SourceFingerprint) -> Value {
    object(vec![
        ("algorithm", source.algorithm().into()),
        ("value", source.value().into()),
    ])
}

fn fingerprint_from(value: &Value) -> Result<SourceFingerprint, BookmarkValidationError> {
    SourceFingerprint::new(text_of(value, "algorithm"), text_of(value, "value"))
}

fn document_value(document: &BookmarkDocument) -> Value {
    let bookmarks: Vec<Value> = document
        .bookmarks()
        .iter()
        .map(|bookmark| {
            object(vec![
                ("id", bookmark.id().as_str().into()),
                ("time", bookmark.time().0.into()),
                ("endTime", bookmark.end_time().map(|time| time.0).into()),
                ("label", bookmark.label().into()),
                ("note", bookmark.note().into()),
            ])
        })
        .collect();
    object(vec![
        ("schemaVersion", document.schema_version().into()),
        ("source", fingerprint_value(document.source())),
        ("bookmarks", bookmarks.into()),
    ])
}

fn document_from(value: &Value) -> Result<BookmarkDocument, BookmarkValidationError> {
    let mut bookmarks = Vec::new();
    for entry in value["bookmarks"].as_array().unwrap() {
        bookmarks.push(Bookmark::new(
            BookmarkId::new(text_of(entry, "id"))?,
            ArrivalTime(entry["time"].as_i64().unwrap()),
            entry["endTime"].as_i64().map(ArrivalTime),
            text_of(entry, "label"),
            entry["note"].as_str().map(str::to_owned),
        )?);
    }
    BookmarkDocument::from_parts(
        value["schemaVersion"].as_u64().unwrap() as u32,
        fingerprint_from(&value["source"])?,
        bookmarks,
    )
}

fn build_info_from(value: &Value) -> Result<PreviewBuildInfo, BookmarkValidationError> {
    PreviewBuildInfo::from_parts(
        value["schemaVersion"].as_u64().unwrap() as u32,
        text_of(value, "generatorName"),
        text_of(value, "generatorVersion"),
        fingerprint_from(&value["source"])?,
    )
}

fn parse(json: &str) -> Value {
    serde_json::from_str(json).unwrap()
}

#[test]
fn point_bookmark_json_round_trips_with_integer_time() {
    let document = BookmarkDocument::new(
        source(),
        vec![Bookmark::point(
            BookmarkId::new("point-1".into()).unwrap(),
            ArrivalTime(1_234_567_890),
            "Obstacle".into(),
            Some("inspect camera".to_owned()),
        )
        .unwrap()],
    )
    .unwrap();
    let json = serde_json::to_string_pretty(&document_value(&document)).unwrap();
    assert!(json.contains("\"time\": 1234567890"));
    assert_eq!(document_from(&parse(&json)).unwrap(), document);
}

#[test]
fn interval_bookmark_json_round_trips() {
    let document = BookmarkDocument::new(
        source(),
        vec![Bookmark::interval(
            BookmarkId::new("interval-1".into()).unwrap(),
            ArrivalTime(10),
            ArrivalTime(20),
            "Turn".into(),
            None,
        )
        .unwrap()],
    )
    .unwrap();
    let json = serde_json::to_string(&document_value(&document)).unwrap();
    assert!(json.contains("\"endTime\":20"));
    assert_eq!(document_from(&parse(&json)).unwrap(), document);
}

#[test]
fn rejects_invalid_interval_label_and_id() {
    assert!(BookmarkId::new("  ".into()).is_err());
    assert!(Bookmark::point(
        BookmarkId::new("empty-label".into()).unwrap(),
        ArrivalTime(10),
        "  ".into(),
        None,
    )
    .is_err());
    assert!(Bookmark::interval(
        BookmarkId::new("backwards".into()).unwrap(),
        ArrivalTime(20),
        ArrivalTime(10),
        "Backwards".into(),
        None,
    )
    .is_err());
}

#[test]
fn rejects_duplicate_bookmark_ids() {
    let make = || {
        Bookmark::point(
            BookmarkId::new("duplicate".into()).unwrap(),
            ArrivalTime(10),
            "Same".into(),
            None,
        )
        .unwrap()
    };
    assert!(BookmarkDocument::new(source(), vec![make(), make()]).is_err());
}

#[test]
fn deserialization_rejects_unknown_schema_versions() {
    let bookmark = r#"{
        "schemaVersion": 2,
        "source": {"algorithm":"sha256","value":"abc"},
        "bookmarks": []
    }"#;
    assert!(document_from(&parse(bookmark)).is_err());

    let preview = r#"{
        "schemaVersion": 2,
        "generatorName": "viewer",
        "generatorVersion": "0.1",
        "source": {"algorithm":"sha256","value":"abc"}
    }"#;
    assert!(build_info_from(&parse(preview)).is_err());
}

#[test]
fn source_fingerprint_and_build_info_round_trip() {
    let fingerprint = source();
    let json = serde_json::to_string(&fingerprint_value(&fingerprint)).unwrap();
    assert_eq!(fingerprint_from(&parse(&json)).unwrap(), fingerprint);
    assert!(SourceFingerprint::new("".into(), "abc".into()).is_err());
    assert!(SourceFingerprint::new("sha256".into(), " ".into()).is_err());

    let info = PreviewBuildInfo::new("mcap-viewer".into(), "0.1.0".into(), fingerprint).unwrap();
    let json = serde_json::to_string(&object(vec![
        ("schemaVersion", info.schema_version().into()),
        ("generatorName", info.generator_name().into()),
        ("generatorVersion", info.generator_version().into()),
        ("source", fingerprint_value(info.source())),
    ]))
    .unwrap();
    assert_eq!(build_info_from(&parse(&json)).unwrap(), info);
}

#[test]
fn unknown_fields_are_accepted() {
    let json = r#"{
        "schemaVersion": 1,
        "source": {"algorithm":"sha256","value":"abc","future":true},
        "bookmarks": [],
        "futureField": {"anything": 1}
    }"#;
    assert!(document_from(&parse(json)).is_ok());
}

fn range() -> TimeRange {
    TimeRange::new(ArrivalTime(10), ArrivalTime(20)).unwrap()
}

fn raw_bucket(
    start: i64,
    end: i64,
    first: f64,
    last: f64,
    min: f64,
    max: f64,
    count: u32,
) -> Result<SignalBucket, PreviewValidationError> {
    SignalBucket::new(
        ArrivalTime(start),
        ArrivalTime(end),
        f64_bits(first),
        f64_bits(last),
        f64_bits(min),
        f64_bits(max),
        count,
    )
}

fn bucket(start: i64, end: i64, first: f64, last: f64, min: f64, max: f64) -> SignalBucket {
    raw_bucket(start, end, first, last, min, max, 2).unwrap()
}

#[test]
fn time_range_accepts_ordered_and_rejects_reversed_values() {
    assert!(range().contains(ArrivalTime(15)));
    assert!(TimeRange::new(ArrivalTime(20), ArrivalTime(20)).is_ok());
    assert!(TimeRange::new(ArrivalTime(20), ArrivalTime(10)).is_err());
    let json = parse(r#"{"start":20,"end":10}"#);
    assert!(TimeRange::new(
        ArrivalTime(json["start"].as_i64().unwrap()),
        ArrivalTime(json["end"].as_i64().unwrap()),
    )
    .is_err());
}

#[test]
fn signal_bucket_validates_values_and_finiteness() {
    let value = bucket(10, 11, 2.0, 3.0, 1.0, 4.0);
    assert_eq!(value.count(), 2);
    for invalid in [f64::NAN, f64::INFINITY, f64::NEG_INFINITY] {
        assert!(raw_bucket(10, 11, invalid, 2.0, 1.0, 3.0, 1).is_err());
    }
    assert!(raw_bucket(10, 11, 0.0, 2.0, 1.0, 3.0, 1).is_err());
}

#[test]
fn merges_signal_buckets_without_losing_envelope_semantics() {
    let merged = merge_signal_buckets(&[
        bucket(10, 12, 2.0, 3.0, 1.0, 4.0),
        bucket(12, 14, 5.0, 6.0, -1.0, 7.0),
    ])
    .unwrap();
    assert_eq!(merged.start_time(), ArrivalTime(10));
    assert_eq!(merged.end_time(), ArrivalTime(14));
    assert_eq!(merged.first(), f64_bits(2.0));
    assert_eq!(merged.last(), f64_bits(6.0));
    assert_eq!(merged.min(), f64_bits(-1.0));
    assert_eq!(merged.max(), f64_bits(7.0));
    assert_eq!(merged.count(), 4);
    assert!(merge_signal_buckets(&[]).is_err());
    let overflow = raw_bucket(10, 11, 1.0, 1.0, 1.0, 1.0, u32::MAX).unwrap();
    assert!(merge_signal_buckets(&[overflow, bucket(11, 12, 1.0, 1.0, 1.0, 1.0)]).is_err());
}

#[test]
fn camera_rejects_zero_size_and_empty_bytes() {
    let make = |width, height, bytes| {
        CameraPreviewFrame::new(
            CameraId(0),
            None,
            ArrivalTime(10),
            "camera".to_owned(),
            PreviewImageEncoding::Jpeg,
            width,
            height,
            bytes,
        )
    };
    assert!(make(640, 480, vec![1]).is_ok());
    assert!(make(0, 480, vec![1]).is_err());
    assert!(make(640, 0, vec![1]).is_err());
    assert!(make(640, 480, vec![]).is_err());
}

#[test]
fn trajectory_rejects_non_finite_and_reversed_time() {
    let position = |time, x, y| TimedPosition2::new(ArrivalTime(time), [f32_bits(x), f32_bits(y)]);
    assert!(position(10, f32::NAN, 0.0).is_err());
    assert!(position(10, 0.0, f32::INFINITY).is_err());
    let reversed = PreviewSnapshot::new(
        DataFidelity::Preview,
        range(),
        vec![],
        vec![],
        vec![
            position(12, 0.0, 0.0).unwrap(),
            position(11, 1.0, 0.0).unwrap(),
        ],
    );
    assert!(reversed.is_err());
}

#[test]
fn empty_and_partial_snapshots_are_valid() {
    let empty =
        PreviewSnapshot::new(DataFidelity::Preview, range(), vec![], vec![], vec![]).unwrap();
    assert!(empty.camera_frames().is_empty());

    let signal_only = PreviewSnapshot::new(
        DataFidelity::Preview,
        range(),
        vec![],
        vec![SignalOverview::new(
            SignalId::Speed,
            SignalFidelity::Envelope { bucket_ns: 10 },
            vec![bucket(10, 11, 1.0, 2.0, 1.0, 2.0)],
        )
        .unwrap()],
        vec![],
    )
    .unwrap();
    assert_eq!(signal_only.signal_overviews().len(), 1);
    assert_eq!(
        signal_only.signal_overviews()[0].fidelity(),
        SignalFidelity::Envelope { bucket_ns: 10 }
    );

    let frame = || {
        CameraPreviewFrame::new(
            CameraId(0),
            Some(MeasurementTime(9)),
            ArrivalTime(10),
            "camera".to_owned(),
            PreviewImageEncoding::Jpeg,
            1,
            1,
            vec![1],
        )
        .unwrap()
    };
    let camera_only =
        PreviewSnapshot::new(DataFidelity::Preview, range(), vec![frame()], vec![], vec![])
            .unwrap();
    let again = PreviewSnapshot::new(
        camera_only.fidelity(),
        camera_only.available_range(),
        vec![frame()],
        vec![],
        vec![],
    )
    .unwrap();
    assert_eq!(again, camera_only);
    assert_eq!(camera_only.camera_frames()[0].measurement_time(), Some(MeasurementTime(9)));
}

#[test]
fn signal_overview_rejects_unordered_buckets() {
    let result = SignalOverview::new(
        SignalId::Speed,
        SignalFidelity::Envelope { bucket_ns: 10 },
        vec![
            bucket(12, 14, 1.0, 1.0, 1.0, 1.0),
            bucket(10, 11, 1.0, 1.0, 1.0, 1.0),
        ],
    );
    assert!(result.is_err());
}

#[test]
fn bookmark_errors_name_what_is_wrong() {
    let id = |value: &str| BookmarkId::new(value.into());
    assert_eq!(id("\u{3000}").unwrap_err(), BookmarkValidationError::BlankId);
    let twice = || Bookmark::point(id("a").unwrap(), ArrivalTime(1), "x".into(), None).unwrap();
    let error = BookmarkDocument::new(source(), vec![twice(), twice()]).unwrap_err();
    assert_eq!(error, BookmarkValidationError::DuplicateId("a".into()));
    assert!(error.message().contains("a"));
    assert_eq!(
        BookmarkDocument::from_parts(7, source(), vec![]).unwrap_err(),
        BookmarkValidationError::UnsupportedBookmarkSchema(7)
    );
    assert_eq!(
        PreviewBuildInfo::new(" ".into(), "1".into(), source()).unwrap_err(),
        BookmarkValidationError::BlankGeneratorName
    );
    assert_eq!(
        PreviewBuildInfo::new("n".into(), "".into(), source()).unwrap_err(),
        BookmarkValidationError::BlankGeneratorVersion
    );
    assert_eq!(
        PreviewBuildInfo::from_parts(3, "n".into(), "1".into(), source()).unwrap_err(),
        BookmarkValidationError::UnsupportedPreviewSchema(3)
    );
    assert_eq!(
        Bookmark::interval(id("b").unwrap(), ArrivalTime(2), ArrivalTime(1), "x".into(), None)
            .unwrap_err(),
        BookmarkValidationError::EndBeforeTime
    );
    assert_eq!(
        Bookmark::point(id("b").unwrap(), ArrivalTime(2), "\t".into(), None).unwrap_err(),
        BookmarkValidationError::BlankLabel
    );
}

#[test]
fn blank_text_agrees_with_unicode_white_space() {
    for code in 0..=0x3100_u32 {
        if let Some(c) = char::from_u32(code) {
            let blank = BookmarkId::new(c.to_string()).is_err();
            assert_eq!(blank, c.is_whitespace(), "{code:x}");
        }
    }
}

#[test]
fn preview_errors_name_what_is_wrong() {
    let error = raw_bucket(10, 11, f64::NAN, 2.0, 1.0, 3.0, 1).unwrap_err();
    assert!(error.message().contains(BucketNumber::First.name()));
    let budget = PreviewBudget::default();
    assert_eq!(budget.max_camera_frames, 0);
    let identity = McapSummaryIdentity::new("abc".into());
    let fingerprint = mcap_summary_fingerprint(identity).unwrap();
    assert_eq!(fingerprint.value(), "abc");
}

use bytes::Bytes;
use mcap::records::op;
use mcap::sans_io::{
    IndexedReadEvent, IndexedReader, IndexedReaderOptions, SummaryReadEvent, SummaryReader,
    SummaryReaderOptions,
};
use mcap::{WriteOptions, Writer, MAGIC};
use mcap_player::inspection::probe::{
    check_read, feed_pipeline, IndexedProbe, ProbeDomain, ReadMetrics, SummaryCursor,
};
use mcap_player::inspection::ranges::{
    footer_tail_range, parse_footer_tail, resolve_seek, validate_range, RequestGeneration,
    SpikeParseError, FOOTER_BODY_LEN,
};
use mcap_player::inspection::report::{
    compression_name, format_report, optional_count, ReportNumbers, SpikeReport,
};
use mcap_player::inspection::summary::{
    chunk_range, inspect_chunk, parse_summary_range, ChunkInspection, SummaryCatalog,
};
use mcap_player::message::cdr::image::{encode_compressed_image_cdr, CompressedImage};
use mcap_player::message::time::{ArrivalTime, MeasurementTime};
use mcap_player::recording::local_catalog::SummaryFacts;
use mcap_player::recording::local_reads::SeekTarget;
use mcap_player::recording::local_window::{ByteRange, JS_MAX_SAFE_INTEGER};
use std::borrow::Cow;
use std::collections::BTreeMap;
use std::io::{Cursor, Read, Seek};
use std::sync::Arc;

fn footer_bytes(summary_start: u64, summary_offset_start: u64, crc: u32) -> Vec<u8> {
    let mut bytes = vec![op::FOOTER];
    bytes.extend_from_slice(&(FOOTER_BODY_LEN as u64).to_le_bytes());
    bytes.extend_from_slice(&summary_start.to_le_bytes());
    bytes.extend_from_slice(&summary_offset_start.to_le_bytes());
    bytes.extend_from_slice(&crc.to_le_bytes());
    bytes.extend_from_slice(MAGIC);
    bytes
}

#[test]
fn parses_footer_and_rejects_magic_or_truncation() {
    let file_size = 1_000;
    let bytes = footer_bytes(700, 900, 0x1234_5678);
    let footer = parse_footer_tail(file_size, &bytes).unwrap();
    assert_eq!(footer.footer_offset, 963);
    assert_eq!(
        footer.summary_range,
        Some(ByteRange {
            offset: 700,
            length: 263
        })
    );
    assert_eq!(footer.summary_crc, 0x1234_5678);

    let mut bad_magic = bytes.clone();
    *bad_magic.last_mut().unwrap() = 0;
    assert_eq!(
        parse_footer_tail(file_size, &bad_magic).unwrap_err(),
        SpikeParseError::BadTrailingMagic
    );
    assert!(matches!(
        parse_footer_tail(file_size, &bytes[..bytes.len() - 1]),
        Err(SpikeParseError::TruncatedFooter { .. })
    ));
}

#[test]
fn validates_ranges_without_reading_extra_bytes() {
    let data = b"0123456789";
    let range = validate_range(data.len() as u64, 3, 4).unwrap();
    assert_eq!(&data[range.offset as usize..range.end() as usize], b"3456");
    assert!(matches!(
        validate_range(10, u64::MAX, 2),
        Err(SpikeParseError::RangeOverflow)
    ));
    assert!(matches!(
        validate_range(10, 8, 3),
        Err(SpikeParseError::RangeOutsideFile { .. })
    ));
    assert!(matches!(
        validate_range(JS_MAX_SAFE_INTEGER + 1, 0, 0),
        Err(SpikeParseError::JavaScriptNumberLimit(_))
    ));
    assert_eq!(validate_range(10, 10, 0).unwrap().length, 0);
    assert_eq!(validate_range(0, 0, 0), Err(SpikeParseError::EmptyFile));
}

#[test]
fn resolves_sans_io_seeks_and_rejects_out_of_file_positions() {
    assert_eq!(resolve_seek(1_000, 100, SeekTarget::Start(25)).unwrap(), 25);
    assert_eq!(
        resolve_seek(1_000, 100, SeekTarget::Current(-20)).unwrap(),
        80
    );
    assert_eq!(resolve_seek(1_000, 100, SeekTarget::End(-37)).unwrap(), 963);
    assert!(resolve_seek(1_000, 0, SeekTarget::End(1)).is_err());
    assert!(resolve_seek(1_000, 0, SeekTarget::Current(-1)).is_err());
}

#[test]
fn replacing_generation_invalidates_an_older_seek() {
    let mut generations = RequestGeneration::default();
    let first = generations.begin();
    assert!(generations.is_current(first));
    let replacement = generations.begin();
    assert!(!generations.is_current(first));
    assert!(generations.is_current(replacement));
    assert_eq!(
        generations.ensure_current(first).unwrap_err(),
        "stale range-read generation"
    );
}

fn probe_recording() -> Vec<u8> {
    let schema = Arc::new(mcap::Schema {
        id: 1,
        name: "sensor_msgs/msg/CompressedImage".to_owned(),
        encoding: "ros2msg".to_owned(),
        data: Cow::Borrowed(&[]),
    });
    let camera_channel = Arc::new(mcap::Channel {
        id: 1,
        topic: "/camera/probe/image/compressed".to_owned(),
        schema: Some(schema.clone()),
        message_encoding: "cdr".to_owned(),
        metadata: BTreeMap::new(),
    });
    let ignored_channel = Arc::new(mcap::Channel {
        id: 2,
        topic: "/ignored".to_owned(),
        schema: Some(schema),
        message_encoding: "cdr".to_owned(),
        metadata: BTreeMap::new(),
    });
    let payload = encode_compressed_image_cdr(&CompressedImage {
        measurement_time: MeasurementTime(30),
        frame_id: "probe-camera".to_owned(),
        format: "jpeg".to_owned(),
        jpeg: vec![0xff, 0xd8, 0xff, 0xd9],
    })
    .unwrap();
    let mut writer = WriteOptions::new()
        .compression(None)
        .chunk_size(None)
        .create(Cursor::new(Vec::new()))
        .unwrap();
    for (channel, time, data) in [
        (ignored_channel, 25, vec![0]),
        (camera_channel, 30, payload),
    ] {
        writer
            .write(&mcap::Message {
                channel,
                sequence: 0,
                log_time: time,
                publish_time: time,
                data: Cow::Owned(data),
            })
            .unwrap();
        writer.flush().unwrap();
    }
    writer.finish().unwrap();
    writer.into_inner().into_inner()
}

fn sans_io_summary(bytes: &[u8]) -> mcap::Summary {
    let mut cursor = Cursor::new(bytes);
    let mut summary_reader = SummaryReader::new_with_options(
        SummaryReaderOptions::default().with_file_size(bytes.len() as u64),
    );
    while let Some(event) = summary_reader.next_event() {
        match event.unwrap() {
            SummaryReadEvent::ReadRequest(length) => {
                let read = cursor.read(summary_reader.insert(length)).unwrap();
                summary_reader.notify_read(read);
            }
            SummaryReadEvent::SeekRequest(seek) => {
                let position = cursor.seek(seek).unwrap();
                summary_reader.notify_seeked(position);
            }
        }
    }
    summary_reader.finish().unwrap()
}

#[test]
fn indexed_reader_filters_seeks_and_updates_camera_domain() {
    let camera_topic = "/camera/probe/image/compressed";
    let bytes = probe_recording();
    let summary = sans_io_summary(&bytes);
    let facts = SummaryFacts::new(&summary);
    let options = IndexedReaderOptions::new()
        .include_topics([camera_topic])
        .log_time_on_or_after(20);
    let mut indexed = IndexedReader::new_with_options(&summary, options).unwrap();
    let mut requested = Vec::new();
    let pipeline = loop {
        match indexed.next_event().unwrap().unwrap() {
            IndexedReadEvent::ReadChunkRequest { offset, length } => {
                requested.push((offset, length));
                indexed
                    .insert_chunk_record_data(
                        offset,
                        &bytes[offset as usize..offset as usize + length],
                    )
                    .unwrap();
            }
            IndexedReadEvent::Message { header, data } => {
                assert_eq!(header.log_time, 30);
                break feed_pipeline(
                    &facts,
                    header.channel_id,
                    header.log_time,
                    Bytes::copy_from_slice(data),
                    camera_topic,
                )
                .unwrap();
            }
        }
    };
    assert_eq!(pipeline.domain.name(), "camera");
    assert_eq!(pipeline.arrival_time, ArrivalTime(30));
    assert_eq!(requested.len(), 1, "topic index should prune ignored chunk");
    let requested_offset = requested[0].0;
    let chunk = summary
        .chunk_indexes
        .iter()
        .find(|chunk| {
            chunk
                .compressed_data_offset()
                .is_ok_and(|offset| offset == requested_offset)
        })
        .unwrap();
    assert!(chunk.message_index_offsets.contains_key(&1));
    assert_eq!(requested[0].1 as u64, chunk.compressed_size);
}

#[test]
fn rejects_invalid_summary_ranges() {
    let bytes = footer_bytes(990, 0, 0);
    assert!(matches!(
        parse_footer_tail(1_000, &bytes),
        Err(SpikeParseError::InvalidSummaryRange(_))
    ));
    assert!(matches!(
        parse_summary_range(&[0; 16]),
        Err(SpikeParseError::Mcap(_)) | Err(SpikeParseError::InvalidSummaryRange(_))
    ));
}

fn read_range(bytes: &[u8], range: ByteRange) -> &[u8] {
    &bytes[range.offset as usize..range.end() as usize]
}

fn summary_catalog(bytes: &[u8]) -> (SummaryCatalog, u64) {
    let file_size = bytes.len() as u64;
    let footer_range = footer_tail_range(file_size).unwrap();
    let footer = parse_footer_tail(file_size, read_range(bytes, footer_range)).unwrap();
    let summary_range = footer.summary_range.unwrap();
    (
        parse_summary_range(read_range(bytes, summary_range)).unwrap(),
        footer.summary_start,
    )
}

#[test]
fn reads_only_footer_and_summary_ranges_from_existing_fixture() {
    let bytes = probe_recording();
    let file_size = bytes.len() as u64;
    let (catalog, summary_start) = summary_catalog(&bytes);
    assert!(!catalog.schemas.is_empty());
    assert!(!catalog.channels.is_empty());
    assert!(!catalog.chunk_indexes.is_empty());
    assert_eq!(catalog.time_range(), Some((25, 30)));
    assert!(catalog.has_message_indexes());
    let chunk = chunk_range(file_size, &catalog.chunk_indexes[0]).unwrap();
    assert!(chunk.end() <= summary_start);
    let inspection = inspect_chunk(read_range(&bytes, chunk)).unwrap();
    assert!(!inspection.status.is_empty());
    assert_eq!(inspection.message_count, Some(1));
    assert_eq!(inspection.record_count, Some(3));
    assert_eq!(catalog.first_chunk(file_size).unwrap().1, chunk);
}

#[test]
fn every_range_fault_has_its_words() {
    let words = |error: SpikeParseError| error.message();
    assert_eq!(words(footer_tail_range(0).unwrap_err()), "MCAP file is empty");
    assert_eq!(
        words(footer_tail_range(44).unwrap_err()),
        "footer tail is truncated: expected 37 bytes, got 44"
    );
    assert_eq!(
        words(validate_range(10, 8, 3).unwrap_err()),
        "range 8..+3 exceeds file size 10"
    );
    assert_eq!(words(validate_range(10, u64::MAX, 1).unwrap_err()), "range end overflow");
    assert_eq!(
        words(validate_range(1 << 53, 0, 0).unwrap_err()),
        "offset 9007199254740992 exceeds JavaScript's safe integer range"
    );
    let mut opcode = footer_bytes(0, 0, 0);
    opcode[0] = 0x0f;
    assert_eq!(
        words(parse_footer_tail(100, &opcode).unwrap_err()),
        "expected Footer opcode 0x02, got 0x0f"
    );
    let mut length = footer_bytes(0, 0, 0);
    length[1] = 21;
    assert_eq!(
        words(parse_footer_tail(100, &length).unwrap_err()),
        "expected 20-byte Footer body, got 21"
    );
    assert_eq!(
        words(parse_footer_tail(100, &footer_bytes(63, 0, 0)).unwrap_err()),
        "invalid summary range: summary start 63 is not before footer 63"
    );
    assert_eq!(
        words(parse_footer_tail(100, &footer_bytes(50, 40, 0)).unwrap_err()),
        "invalid summary range: summary offset start 40 is outside 50..63"
    );
    assert!(parse_footer_tail(100, &footer_bytes(0, 0, 0)).unwrap().summary_range.is_none());
    assert_eq!(
        words(inspect_chunk(&[6, 1]).unwrap_err()),
        "invalid chunk range: chunk record header is truncated"
    );
    assert_eq!(
        words(inspect_chunk(&[0xab; 9]).unwrap_err()),
        "invalid chunk range: expected Chunk opcode 0x06, got 0xab"
    );
    assert_eq!(
        words(inspect_chunk(&[6, 1, 0, 0, 0, 0, 0, 0, 0]).unwrap_err()),
        "invalid chunk range: record body says 1 bytes, range contains 0"
    );
    assert!(matches!(
        inspect_chunk(&[6, 0, 0, 0, 0, 0, 0, 0, 0]),
        Err(SpikeParseError::Mcap(_))
    ));
    assert!(matches!(
        parse_summary_range(&[]),
        Err(SpikeParseError::InvalidSummaryRange(_))
    ));
}

#[test]
fn compressed_chunks_stay_closed() {
    let mut output = Cursor::new(Vec::new());
    {
        let options = WriteOptions::new().compression(Some(mcap::Compression::Zstd));
        let mut writer = Writer::with_options(&mut output, options).unwrap();
        let channel = writer.add_channel(0, "/x", "cdr", &BTreeMap::new()).unwrap();
        writer
            .write_to_known_channel(
                &mcap::records::MessageHeader {
                    channel_id: channel,
                    sequence: 0,
                    log_time: 5,
                    publish_time: 5,
                },
                &[1],
            )
            .unwrap();
        writer.finish().unwrap();
    }
    let bytes = output.into_inner();
    let (catalog, _) = summary_catalog(&bytes);
    let range = chunk_range(bytes.len() as u64, &catalog.chunk_indexes[0]).unwrap();
    let inspection = inspect_chunk(read_range(&bytes, range)).unwrap();
    assert_eq!(inspection.record_count, None);
    assert_eq!(
        inspection.status,
        "range access succeeded; 'zstd' decompression is outside this spike boundary"
    );
}

#[test]
fn reads_are_counted_and_checked() {
    let mut metrics = ReadMetrics::default();
    let range = ByteRange { offset: 2, length: 5 };
    assert_eq!(metrics.begin_read(10, range).unwrap(), Some(range));
    assert_eq!(
        metrics.begin_read(10, ByteRange { offset: 2, length: 0 }).unwrap(),
        None
    );
    assert!(metrics.begin_read(6, range).is_err());
    assert_eq!((metrics.range_reads, metrics.total_bytes_requested), (1, 5));
    assert_eq!(
        check_read(4, 3).unwrap_err(),
        "short range read: requested 4, received 3"
    );
    let mut cursor = SummaryCursor::new(1_000);
    assert_eq!(cursor.seek(SeekTarget::End(-37)).unwrap(), 963);
    assert_eq!(cursor.seek(SeekTarget::Start(500)).unwrap(), 500);
    assert_eq!(cursor.read_range(9).unwrap().length, 500);
    cursor.advance(500).unwrap();
    assert!(cursor.seek(SeekTarget::Current(1)).is_err());
}

fn probe_report(bytes: &[u8]) -> SpikeReport {
    let file_size = bytes.len() as u64;
    let footer_range = footer_tail_range(file_size).unwrap();
    let footer = parse_footer_tail(file_size, read_range(bytes, footer_range)).unwrap();
    let (catalog, _) = summary_catalog(bytes);
    let (selected_chunk, selected_chunk_range) = {
        let (chunk, range) = catalog.first_chunk(file_size).unwrap();
        (chunk.clone(), range)
    };
    let chunk_inspection = inspect_chunk(read_range(bytes, selected_chunk_range)).unwrap();
    let summary = sans_io_summary(bytes);
    let read = ReadMetrics {
        total_bytes_requested: 100,
        range_reads: 2,
    };
    let mut probe =
        IndexedProbe::start(SummaryFacts::new(&summary), file_size, ReadMetrics::default(), read)
            .unwrap();
    assert_eq!(probe.target_log_time(), 27);
    let options = IndexedReaderOptions::new()
        .include_topics([probe.target_topic().to_owned()])
        .log_time_on_or_after(probe.target_log_time());
    let mut reader = IndexedReader::new_with_options(&summary, options).unwrap();
    let indexed = loop {
        match reader.next_event().unwrap().unwrap() {
            IndexedReadEvent::ReadChunkRequest { offset, length } => {
                let range = probe.request_chunk(offset, length).unwrap();
                reader
                    .insert_chunk_record_data(offset, read_range(bytes, range))
                    .unwrap();
            }
            IndexedReadEvent::Message { header, data } => {
                break probe
                    .message(
                        header.channel_id,
                        header.log_time,
                        Bytes::copy_from_slice(data),
                    )
                    .unwrap();
            }
        }
    };
    SpikeReport {
        file_name: "probe.mcap".into(),
        file_size,
        catalog_bytes: 40,
        footer,
        catalog,
        selected_chunk,
        selected_chunk_range,
        chunk_inspection,
        indexed,
        metrics: read,
        numbers: ReportNumbers {
            catalog_read_ratio: "1.500000".into(),
            footer_read: "0.100".into(),
            summary_read: "0.200".into(),
            summary_parse: "0.300".into(),
            chunk_read: "0.400".into(),
            chunk_parse: "0.500".into(),
        },
    }
}

fn recording_with_camera_at(times: &[u64]) -> Vec<u8> {
    let mut output = Cursor::new(Vec::new());
    {
        let options = WriteOptions::new().compression(None);
        let mut writer = Writer::with_options(&mut output, options).unwrap();
        let schema = writer
            .add_schema("sensor_msgs/msg/CompressedImage", "ros2msg", b"schema")
            .unwrap();
        let channel = writer
            .add_channel(schema, "/camera", "cdr", &BTreeMap::new())
            .unwrap();
        for time in times {
            let payload = encode_compressed_image_cdr(&CompressedImage {
                measurement_time: MeasurementTime(*time as i64),
                frame_id: "camera".into(),
                format: "jpeg".into(),
                jpeg: vec![1],
            })
            .unwrap();
            writer
                .write_to_known_channel(
                    &mcap::records::MessageHeader {
                        channel_id: channel,
                        sequence: 0,
                        log_time: *time,
                        publish_time: *time,
                    },
                    &payload,
                )
                .unwrap();
        }
        writer.finish().unwrap();
    }
    output.into_inner()
}

#[test]
fn reports_tell_everything_line_by_line() {
    let bytes = recording_with_camera_at(&[25, 28, 30]);
    let report = probe_report(&bytes);
    assert_eq!(report.indexed.message_log_time, 28);
    assert_eq!(report.indexed.pipeline.domain, ProbeDomain::Camera);
    assert!(report.indexed.absolute_offset_matched);
    assert!(report.indexed.message_index_lists_topic);
    let text = format_report(&report);
    let lines: Vec<&str> = text.lines().collect();
    assert_eq!(lines[0], "File name: probe.mcap");
    assert_eq!(lines[1], format!("File size: {} bytes", bytes.len()));
    assert_eq!(lines[2], "Total bytes requested: 100");
    assert_eq!(lines[3], "Number of range reads: 2");
    assert!(lines.contains(&"Schema count: 1"));
    assert!(lines.contains(&"Message index information: present"));
    assert!(lines.contains(&"Time range: 25..30 ns"));
    assert!(lines.contains(&"Catalog read ratio: 1.500000%"));
    assert!(lines.contains(&"  id=1 name=sensor_msgs/msg/CompressedImage encoding=ros2msg"));
    assert!(lines.contains(&"  arbitrary seek: 27 ns → 28 ns"));
    assert!(lines.contains(&"  parsed messages: 3"));
    assert!(lines.contains(&"  DomainPipelineSet → DomainState: OK (camera at 28 ns)"));
    let crc = report.footer.summary_crc;
    assert!(lines.contains(&format!("Summary CRC: {crc:#010x}").as_str()));
    let offset = &report.catalog.summary_offsets[0];
    let group = format!(
        "  groupOpcode={:#04x} start={} length={}",
        offset.group_opcode, offset.group_start, offset.group_length
    );
    assert!(lines.contains(&group.as_str()));
    assert_eq!(
        *lines.last().unwrap(),
        "  generation replacement: stale reads are discarded after every File.slice await"
    );
    assert_eq!(compression_name(""), "uncompressed");
    assert_eq!(optional_count(None), "not attempted");
}

#[test]
fn probes_refuse_what_does_not_answer_the_search() {
    let bytes = recording_with_camera_at(&[25, 28, 30]);
    let facts = || SummaryFacts::new(&sans_io_summary(&bytes));
    let none = ReadMetrics::default();
    let mut probe = IndexedProbe::start(facts(), bytes.len() as u64, none, none).unwrap();
    let image = Bytes::from(
        encode_compressed_image_cdr(&CompressedImage {
            measurement_time: MeasurementTime(1),
            frame_id: "camera".into(),
            format: "jpeg".into(),
            jpeg: vec![1],
        })
        .unwrap(),
    );
    let channel = facts().channels()[0].id;
    assert_eq!(
        probe.message(channel, 26, image.clone()).unwrap_err(),
        "IndexedReader yielded 26 before seek 27"
    );
    assert_eq!(
        probe.message(channel, 28, image.clone()).unwrap_err(),
        "IndexedReader yielded a message without a chunk read"
    );
    assert_eq!(
        probe.message(99, 28, image.clone()).unwrap_err(),
        "message references unknown channel 99"
    );
    assert_eq!(
        probe.message(channel, 28, Bytes::new()).unwrap_err(),
        "pipeline did not decode exactly one message: decoded=0 errors=1 updates=0"
    );
    assert_eq!(
        probe.request_chunk(1, 2).unwrap_err(),
        "IndexedReader requested unknown chunk data offset 1"
    );
    assert_eq!(
        probe.exhausted(),
        "IndexedReader found no /camera message at or after 27"
    );
    assert_eq!(
        feed_pipeline(&facts(), channel, 1, image.clone(), "/other").unwrap_err(),
        "topic filter yielded /camera, expected /other"
    );
    assert_eq!(
        feed_pipeline(&facts(), channel, u64::MAX, image, "/camera").unwrap_err(),
        "message log time exceeds ArrivalTime"
    );
}

#[test]
fn reports_of_a_file_without_bytes_read_no_share_of_it() {
    let mut report = probe_report(&recording_with_camera_at(&[25, 28, 30]));
    report.file_size = 0;
    report.numbers.catalog_read_ratio = "inf".into();
    report.footer.summary_crc = 0;
    report.footer.summary_range = Some(ByteRange {
        offset: 1,
        length: 2,
    });
    report.catalog = SummaryCatalog::default();
    report.chunk_inspection = ChunkInspection {
        record_count: None,
        message_count: Some(0),
        status: String::new(),
    };
    let text = format_report(&report);
    let lines: Vec<&str> = text.lines().collect();
    for expected in [
        "Catalog read ratio: 0.000000%",
        "Summary CRC: absent (0)",
        "Summary byte range: 1..3 (2 bytes)",
        "Time range: unavailable",
        "Message index information: absent",
        "  parsed records: not attempted",
        "  parsed messages: 0",
        "  compression: uncompressed",
    ] {
        assert!(lines.contains(&expected), "{expected}");
    }
}

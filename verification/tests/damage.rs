use mcap::records::MessageHeader;
use mcap::{Compression, Summary, WriteOptions, Writer};
use mcap_player::inspection::summary::{inspect_chunk, parse_summary_range};
use mcap_player::message::cdr::common::DecodeError;
use mcap_player::message::cdr::image::{
    decode_compressed_image, encode_compressed_image_cdr, CompressedImage,
};
use mcap_player::message::time::{ArrivalTime, MeasurementTime};
use mcap_player::recording::mcap_facts::ChunkMessage;
use mcap_player::recording::mcap_source::{sort_read, McapOpenError, McapSource};
use mcap_player::recording::raw::StreamId;
use std::collections::BTreeMap;
use std::io::Cursor;

const MAGIC: [u8; 8] = [0x89, b'M', b'C', b'A', b'P', b'0', b'\r', b'\n'];

fn text(value: &str) -> Vec<u8> {
    [&(value.len() as u32).to_le_bytes()[..], value.as_bytes()].concat()
}

fn record(opcode: u8, body: &[u8]) -> Vec<u8> {
    [&[opcode][..], &(body.len() as u64).to_le_bytes()[..], body].concat()
}

fn schema() -> Vec<u8> {
    let body = [&1_u16.to_le_bytes()[..], &text("example/msg/Value"), &text("ros2msg"), &text("")];
    record(3, &body.concat())
}

fn channel() -> Vec<u8> {
    let ids = [7_u16.to_le_bytes(), 1_u16.to_le_bytes()].concat();
    let body = [&ids[..], &text("/value"), &text("cdr"), &0_u32.to_le_bytes()];
    record(4, &body.concat())
}

fn message(time: u64) -> Vec<u8> {
    let body = [
        &7_u16.to_le_bytes()[..],
        &0_u32.to_le_bytes(),
        &time.to_le_bytes(),
        &time.to_le_bytes(),
        &[9],
    ];
    record(5, &body.concat())
}

/// An attachment with two times, an empty name, an empty type and no data, and with fewer bytes
/// than a checksum takes.
fn short_attachment() -> Vec<u8> {
    record(9, &[0; 34])
}

fn chunk(compression: &str, size: usize, data: &[u8]) -> Vec<u8> {
    let body = [
        &5_u64.to_le_bytes()[..],
        &5_u64.to_le_bytes(),
        &(size as u64).to_le_bytes(),
        &0_u32.to_le_bytes(),
        &text(compression),
        &(data.len() as u64).to_le_bytes(),
        data,
    ];
    record(6, &body.concat())
}

fn stored(records: &[Vec<u8>]) -> Vec<u8> {
    let data = records.concat();
    chunk("", data.len(), &data)
}

fn zstd_chunk(records: &[Vec<u8>]) -> Vec<u8> {
    let data = records.concat();
    chunk("zstd", data.len(), &zstd::bulk::compress(&data, 3).unwrap())
}

/// A frame of one block that is stored as it is.
fn lz4_chunk(records: &[Vec<u8>]) -> Vec<u8> {
    let data = records.concat();
    let frame = [
        &[0x04, 0x22, 0x4d, 0x18, 0x60, 0x40, 0x82][..],
        &(data.len() as u32 | 0x8000_0000).to_le_bytes(),
        &data,
        &0_u32.to_le_bytes(),
    ];
    chunk("lz4", data.len(), &frame.concat())
}

/// A file with some records in its data section and some in its summary.
fn file(data: &[Vec<u8>], summary: &[Vec<u8>]) -> Vec<u8> {
    let header = record(1, &[text(""), text("")].concat());
    let front = [&MAGIC[..], &header, &data.concat(), &record(15, &[0; 4])].concat();
    let start = if summary.is_empty() { 0 } else { front.len() as u64 };
    let footer = [&start.to_le_bytes()[..], &[0; 12]].concat();
    [front, summary.concat(), record(2, &footer), MAGIC.to_vec()].concat()
}

fn messages_in(bytes: &[u8]) -> Result<usize, McapOpenError> {
    let mut source = McapSource::new(bytes)?;
    Ok(source.read_until(ArrivalTime(100))?.len())
}

fn is_damaged(bytes: &[u8]) -> bool {
    matches!(messages_in(bytes), Err(McapOpenError::Damaged))
}

#[test]
fn records_of_every_packing_are_read() {
    let plain = [schema(), channel(), message(5)];
    for data in [plain.concat(), stored(&plain), zstd_chunk(&plain), lz4_chunk(&plain)] {
        assert_eq!(messages_in(&file(&[data], &[])).unwrap(), 1);
    }
}

#[test]
fn attachments_without_a_checksum_are_damage() {
    let short = [schema(), channel(), message(5), short_attachment()];
    for data in [short.concat(), stored(&short), zstd_chunk(&short), lz4_chunk(&short)] {
        assert!(is_damaged(&file(&[data], &[])));
    }
    let in_summary = file(&[], &[short_attachment()]);
    assert!(is_damaged(&in_summary));
    assert_eq!(
        McapSource::new(&in_summary).err().unwrap().message(),
        "MCAP error: a record is damaged"
    );
    let whole = [schema(), channel(), message(5), record(9, &[0; 36])];
    assert!(!is_damaged(&file(&[stored(&whole)], &[])));
}

#[test]
fn records_that_run_out_of_their_chunk_are_damage() {
    let mut long = message(5);
    long[1] = 200;
    let records = [schema(), channel(), long];
    assert!(is_damaged(&file(&[stored(&records), message(5)], &[])));
    let mut endless = message(5);
    endless[1..9].fill(0xff);
    assert!(is_damaged(&file(&[schema(), channel(), endless.clone()], &[])));
    assert!(is_damaged(&file(&[stored(&[schema(), channel(), endless])], &[])));
}

#[test]
fn other_damage_is_told_by_the_readers() {
    let half_a_channel = record(4, &[7, 0]);
    let bytes = file(&[schema(), channel(), message(5), half_a_channel.clone()], &[]);
    assert!(matches!(messages_in(&bytes), Err(McapOpenError::Mcap(_))));
    let mut garbled = zstd_chunk(&[schema(), channel(), message(5)]);
    let end = garbled.len();
    garbled[end - 8..].fill(0xff);
    assert!(matches!(messages_in(&file(&[garbled], &[])), Err(McapOpenError::Mcap(_))));
}

#[test]
fn times_that_are_too_large_count_before_later_damage() {
    let half_a_channel = record(4, &[7, 0]);
    let late = message(u64::MAX);
    let bytes = file(&[schema(), channel(), late, half_a_channel], &[]);
    assert!(matches!(messages_in(&bytes), Err(McapOpenError::TimestampOverflow)));
    let late = || {
        vec![ChunkMessage {
            channel: 7,
            log_time: u64::MAX,
            data: vec![9].into(),
        }]
    };
    let error = || Some(mcap::McapError::UnexpectedEof);
    assert!(matches!(
        sort_read(late(), error(), &None),
        Err(McapOpenError::TimestampOverflow)
    ));
    assert!(matches!(
        sort_read(late(), error(), &Some(vec![StreamId(8)])),
        Err(McapOpenError::Mcap(_))
    ));
    assert!(sort_read(late(), None, &Some(vec![StreamId(8)])).unwrap().is_empty());
}

#[test]
fn summaries_and_chunks_with_damage_are_not_inspected() {
    let words = |error: mcap_player::inspection::ranges::SpikeParseError| error.message();
    assert!(words(parse_summary_range(&short_attachment()).unwrap_err()).contains("damaged"));
    assert!(words(inspect_chunk(&stored(&[short_attachment()])).unwrap_err()).contains("damaged"));
    let packed = inspect_chunk(&zstd_chunk(&[short_attachment()])).unwrap();
    assert_eq!(packed.record_count, None);
    let plain = [schema(), channel(), message(5)];
    for whole in [stored(&plain), zstd_chunk(&plain), lz4_chunk(&plain)] {
        assert!(inspect_chunk(&whole).is_ok());
    }
}

fn recording(chunks: bool) -> Vec<u8> {
    let mut bytes = Cursor::new(Vec::new());
    {
        let options = WriteOptions::new()
            .use_chunks(chunks)
            .compression(Some(Compression::Lz4));
        let mut writer = Writer::with_options(&mut bytes, options).unwrap();
        let schema = writer
            .add_schema("example/msg/Value", "ros2msg", b"uint8 value\n")
            .unwrap();
        let mut channels = Vec::new();
        for topic in ["/a", "/b"] {
            let channel = writer
                .add_channel(schema, topic, "cdr", &BTreeMap::new())
                .unwrap();
            channels.push(channel);
        }
        for (channel, time) in [(0, 10), (1, 11), (0, 12)] {
            let header = MessageHeader {
                channel_id: channels[channel],
                sequence: 0,
                log_time: time,
                publish_time: time,
            };
            writer.write_to_known_channel(&header, &[1]).unwrap();
        }
        writer.finish().unwrap();
    }
    bytes.into_inner()
}

fn counts(source: &McapSource) -> Vec<Option<u64>> {
    ["/a", "/b"]
        .iter()
        .map(|topic| source.catalog().by_topic(topic).unwrap().timing.message_count)
        .collect()
}

#[test]
fn streams_are_counted_by_the_statistics() {
    let mut source = McapSource::new(&recording(true)).unwrap();
    assert_eq!(counts(&source), [Some(2), Some(1)]);
    assert_eq!(source.read_until(ArrivalTime(11)).unwrap().len(), 2);
    source.seek(ArrivalTime(12)).unwrap();
    assert_eq!(counts(&source), [Some(2), Some(1)]);
    assert_eq!(source.read_until(ArrivalTime(20)).unwrap().len(), 1);
}

#[test]
fn a_file_without_chunks_is_counted_anew_where_nothing_is_at_hand() {
    let mut source = McapSource::new(&recording(false)).unwrap();
    assert_eq!(counts(&source), [Some(2), Some(1)]);
    source.seek(ArrivalTime(11)).unwrap();
    assert_eq!(counts(&source), [Some(2), Some(1)]);
    source.select_streams(vec![StreamId(999)]);
    source.seek(ArrivalTime(10)).unwrap();
    assert_eq!(counts(&source), [None, None]);
}

#[test]
fn places_without_an_index_record_are_bad_indexes() {
    let mut bytes = recording(true);
    let summary = Summary::read(&bytes).unwrap().unwrap();
    let stream = McapSource::new(&bytes).unwrap().catalog().by_topic("/a").unwrap().id;
    let place = summary.chunk_indexes[0].message_index_offsets[&(stream.0 as u16)];
    bytes[place as usize] = 8;
    let source = McapSource::new(&bytes).unwrap();
    assert!(matches!(
        source.latest_before(&[stream], ArrivalTime(12)),
        Err(McapOpenError::BadIndex)
    ));
}

#[test]
fn every_strict_prefix_of_an_image_is_truncated() {
    let bytes = encode_compressed_image_cdr(&CompressedImage {
        measurement_time: MeasurementTime(12_345_000_006),
        frame_id: "front".into(),
        format: "jpeg".into(),
        jpeg: vec![0xff, 0xd8, 1, 0xff, 0xd9],
    })
    .unwrap();
    assert!(decode_compressed_image(&bytes).is_ok());
    for length in 0..bytes.len() {
        assert!(matches!(
            decode_compressed_image(&bytes[..length]),
            Err(DecodeError::Truncated)
        ));
    }
}

//! `sensor_msgs/msg/LaserScan`.

use crate::message::cdr::common::{self, DecodeError, DecodeFault, Endian, Reader};
use crate::message::float::F32;
use crate::message::time::MeasurementTime;
use vstd::prelude::*;

verus! {

#[derive(Clone, Debug, PartialEq)]
pub struct LaserScan {
    pub measurement_time: MeasurementTime,
    pub frame_id: String,
    pub angle_min: F32,
    pub angle_increment: F32,
    pub range_min: F32,
    pub range_max: F32,
    pub ranges: Vec<F32>,
}

/// The contents of a laser scan.
pub struct ScanContent {
    pub measurement_time: MeasurementTime,
    pub frame_id: Seq<char>,
    pub angle_min: F32,
    pub angle_increment: F32,
    pub range_min: F32,
    pub range_max: F32,
    pub ranges: Seq<F32>,
}

impl View for LaserScan {
    type V = ScanContent;

    open spec fn view(&self) -> ScanContent {
        ScanContent {
            measurement_time: self.measurement_time,
            frame_id: self.frame_id@,
            angle_min: self.angle_min,
            angle_increment: self.angle_increment,
            range_min: self.range_min,
            range_max: self.range_max,
            ranges: self.ranges@,
        }
    }
}

/// Finite angles that advance, and finite limits in order from zero up.
pub open spec fn usable_geometry(
    angle_min: F32,
    angle_increment: F32,
    range_min: F32,
    range_max: F32,
) -> bool {
    &&& angle_min.spec_finite()
    &&& angle_increment.spec_finite()
    &&& angle_increment.rank() != 0
    &&& range_min.spec_finite()
    &&& range_max.spec_finite()
    &&& 0 <= range_min.rank() <= range_max.rank()
}

/// The laser scan that a payload holds, or why it holds none.
pub open spec fn scan_in(bytes: Seq<u8>) -> Result<ScanContent, DecodeFault> {
    match common::encapsulation(bytes) {
        Err(fault) => Err(fault),
        Ok(endian) => match common::read_stamp(bytes, endian, 4) {
            Err(fault) => Err(fault),
            Ok((stamp, behind_stamp)) => match common::read_string(bytes, endian, behind_stamp) {
                Err(fault) => Err(fault),
                Ok((frame_id, behind_frame)) => match common::read_many(
                    common::u32_reader(bytes, endian),
                    behind_frame,
                    7,
                ) {
                    Err(fault) => Err(fault),
                    Ok((geometry, behind_geometry)) => match common::read_sequence_length(
                        bytes,
                        endian,
                        behind_geometry,
                        4,
                    ) {
                        Err(fault) => Err(fault),
                        Ok((range_count, ranges_start)) => match common::read_many(
                            common::u32_reader(bytes, endian),
                            ranges_start,
                            range_count,
                        ) {
                            Err(fault) => Err(fault),
                            Ok((ranges, behind_ranges)) => match common::read_sequence_length(
                                bytes,
                                endian,
                                behind_ranges,
                                4,
                            ) {
                                Err(fault) => Err(fault),
                                Ok((intensity_count, intensities)) => match common::read_many(
                                    common::u32_reader(bytes, endian),
                                    intensities,
                                    intensity_count,
                                ) {
                                    Err(fault) => Err(fault),
                                    Ok(_) => if usable_geometry(
                                        F32(geometry[0]),
                                        F32(geometry[2]),
                                        F32(geometry[5]),
                                        F32(geometry[6]),
                                    ) {
                                        Ok(
                                            ScanContent {
                                                measurement_time: MeasurementTime(stamp),
                                                frame_id,
                                                angle_min: F32(geometry[0]),
                                                angle_increment: F32(geometry[2]),
                                                range_min: F32(geometry[5]),
                                                range_max: F32(geometry[6]),
                                                ranges: ranges.map_values(|word: u32| F32(word)),
                                            },
                                        )
                                    } else {
                                        Err(DecodeFault::InvalidLength)
                                    },
                                },
                            },
                        },
                    },
                },
            },
        },
    }
}

fn as_floats(words: &Vec<u32>) -> (values: Vec<F32>)
    ensures
        values@ == words@.map_values(|word: u32| F32(word)),
{
    let mut values: Vec<F32> = Vec::with_capacity(words.len());
    let mut index: usize = 0;
    while index < words.len()
        invariant
            index <= words.len(),
            values@ == words@.take(index as int).map_values(|word: u32| F32(word)),
        decreases words.len() - index,
    {
        values.push(F32(words[index]));
        index = index + 1;
        assert(values@ =~= words@.take(index as int).map_values(|word: u32| F32(word)));
    }
    assert(words@.take(words@.len() as int) =~= words@);
    values
}

pub fn decode_laser_scan(bytes: &[u8]) -> (outcome: Result<LaserScan, DecodeError>)
    ensures
        match outcome {
            Ok(scan) => scan_in(bytes@) == Ok::<ScanContent, DecodeFault>(scan@),
            Err(error) => scan_in(bytes@) == Err::<ScanContent, DecodeFault>(error@),
        },
{
    let mut reader: Reader = Reader::new(bytes)?;
    let stamp: i64 = reader.stamp()?;
    let frame_id: String = reader.string()?;
    let geometry: Vec<u32> = reader.u32_sequence(7)?;
    let range_count: usize = reader.sequence_length(4)?;
    let ranges: Vec<u32> = reader.u32_sequence(range_count)?;
    let intensity_count: usize = reader.sequence_length(4)?;
    reader.u32_sequence(intensity_count)?;
    let angle_min: F32 = F32(geometry[0]);
    let angle_increment: F32 = F32(geometry[2]);
    let range_min: F32 = F32(geometry[5]);
    let range_max: F32 = F32(geometry[6]);
    if !angle_min.is_finite() || !angle_increment.is_finite() || angle_increment.is_zero()
        || !range_min.is_finite() || !range_max.is_finite() || range_min.less_than(F32(0))
        || range_max.less_than(range_min) {
        return Err(DecodeError::InvalidLength);
    }
    Ok(
        LaserScan {
            measurement_time: MeasurementTime(stamp),
            frame_id,
            angle_min,
            angle_increment,
            range_min,
            range_max,
            ranges: as_floats(&ranges),
        },
    )
}

/// The output with binary32 numbers behind it.
pub open spec fn with_singles(output: Seq<u8>, numbers: Seq<F32>) -> Seq<u8> {
    common::with_u32s(output, numbers.map_values(|number: F32| number.0))
}

/// The output with a list of binary32 numbers behind it: how many there are, and the numbers.
pub open spec fn with_list(output: Seq<u8>, numbers: Seq<F32>) -> Seq<u8> {
    with_singles(common::with_u32(output, numbers.len() as u32), numbers)
}

proof fn lemma_list_round_trip(output: Seq<u8>, numbers: Seq<F32>, bytes: Seq<u8>)
    requires
        4 <= output.len(),
        numbers.len() <= common::MAX_FIELD_BYTES,
        with_list(output, numbers).is_prefix_of(bytes),
        bytes.len() <= usize::MAX,
    ensures
        output.is_prefix_of(with_list(output, numbers)),
        ({
            let counted = common::with_u32(output, numbers.len() as u32);
            &&& common::read_sequence_length(
                bytes,
                Endian::Little,
                output.len() as int,
                4,
            ) == Ok::<(nat, int), DecodeFault>((numbers.len(), counted.len() as int))
            &&& common::read_many(
                common::u32_reader(bytes, Endian::Little),
                counted.len() as int,
                numbers.len(),
            ) == Ok::<(Seq<u32>, int), DecodeFault>(
                (
                    numbers.map_values(|number: F32| number.0),
                    with_list(output, numbers).len() as int,
                ),
            )
        }),
{
    let words = numbers.map_values(|number: F32| number.0);
    let counted = common::with_u32(output, numbers.len() as u32);
    let all = with_list(output, numbers);
    common::lemma_with_u32_extends(output, numbers.len() as u32);
    common::lemma_with_u32s_extends(counted, words);
    common::lemma_prefix_chain(output, counted, all);
    common::lemma_prefix_chain(counted, all, bytes);
    common::lemma_u32_round_trip(output, numbers.len() as u32, bytes);
    common::lemma_u32s_round_trip(counted, words, bytes);
    assert(all.len() <= bytes.len());
}

/// A scan is read back as it was sent: behind the time stamp and the frame name stand the first
/// angle, the last angle, the angle from beam to beam, the time from beam to beam, the time from
/// scan to scan, the least range and the greatest range, then the ranges and the intensities.
#[verifier::rlimit(60)]
pub proof fn law_scans_are_read_back(
    nanos: i64,
    frame: Seq<char>,
    angle_min: F32,
    angle_max: F32,
    angle_increment: F32,
    time_increment: F32,
    scan_time: F32,
    range_min: F32,
    range_max: F32,
    ranges: Seq<F32>,
    intensities: Seq<F32>,
    bytes: Seq<u8>,
    scan: LaserScan,
)
    requires
        common::head_fits(nanos, frame),
        angle_min.spec_finite(),
        angle_increment.spec_finite(),
        angle_increment.0 != 0 && angle_increment.0 != 0x8000_0000,
        range_min.0 <= range_max.0 < 0x7f80_0000,
        ranges.len() <= common::MAX_FIELD_BYTES,
        intensities.len() <= common::MAX_FIELD_BYTES,
        bytes == with_list(
            with_list(
                with_singles(
                    common::headed(nanos, frame),
                    seq![
                        angle_min,
                        angle_max,
                        angle_increment,
                        time_increment,
                        scan_time,
                        range_min,
                        range_max,
                    ],
                ),
                ranges,
            ),
            intensities,
        ),
        bytes.len() <= usize::MAX,
    ensures
        scan_in(bytes) is Ok,
        scan_in(bytes)->Ok_0 == scan@ ==> {
            &&& scan.measurement_time.0 == nanos
            &&& scan.frame_id@ == frame
            &&& scan.angle_min == angle_min
            &&& scan.angle_increment == angle_increment
            &&& scan.range_min == range_min
            &&& scan.range_max == range_max
            &&& scan.ranges@ == ranges
        },
{
    let geometry = seq![
        angle_min,
        angle_max,
        angle_increment,
        time_increment,
        scan_time,
        range_min,
        range_max,
    ];
    lemma_sent_scan(nanos, frame, geometry, ranges, intensities, bytes);
}

#[verifier::rlimit(60)]
proof fn lemma_sent_scan(
    nanos: i64,
    frame: Seq<char>,
    geometry: Seq<F32>,
    ranges: Seq<F32>,
    intensities: Seq<F32>,
    bytes: Seq<u8>,
)
    requires
        common::head_fits(nanos, frame),
        geometry.len() == 7,
        usable_geometry(geometry[0], geometry[2], geometry[5], geometry[6]),
        ranges.len() <= common::MAX_FIELD_BYTES,
        intensities.len() <= common::MAX_FIELD_BYTES,
        bytes == with_list(
            with_list(with_singles(common::headed(nanos, frame), geometry), ranges),
            intensities,
        ),
        bytes.len() <= usize::MAX,
    ensures
        scan_in(bytes) == Ok::<ScanContent, DecodeFault>(
            ScanContent {
                measurement_time: MeasurementTime(nanos),
                frame_id: frame,
                angle_min: geometry[0],
                angle_increment: geometry[2],
                range_min: geometry[5],
                range_max: geometry[6],
                ranges,
            },
        ),
{
    let headed = common::headed(nanos, frame);
    let shaped = with_singles(headed, geometry);
    let ranged = with_list(shaped, ranges);
    let words = geometry.map_values(|number: F32| number.0);
    let kept = ranges.map_values(|number: F32| number.0);
    lemma_sent_parts(nanos, frame, geometry, ranges, intensities, bytes);
    assert(kept.map_values(|word: u32| F32(word)) =~= ranges);
    assert(F32(words[0]) == geometry[0] && F32(words[2]) == geometry[2]);
    assert(F32(words[5]) == geometry[5] && F32(words[6]) == geometry[6]);
    lemma_scan_of_parts(
        bytes,
        nanos,
        common::read_stamp(bytes, Endian::Little, 4)->Ok_0.1,
        frame,
        headed.len() as int,
        words,
        shaped.len() as int,
        kept,
        common::with_u32(shaped, ranges.len() as u32).len() as int,
        ranged.len() as int,
        intensities.map_values(|number: F32| number.0),
        common::with_u32(ranged, intensities.len() as u32).len() as int,
        bytes.len() as int,
    );
}

#[verifier::rlimit(60)]
proof fn lemma_sent_parts(
    nanos: i64,
    frame: Seq<char>,
    geometry: Seq<F32>,
    ranges: Seq<F32>,
    intensities: Seq<F32>,
    bytes: Seq<u8>,
)
    requires
        common::head_fits(nanos, frame),
        geometry.len() == 7,
        ranges.len() <= common::MAX_FIELD_BYTES,
        intensities.len() <= common::MAX_FIELD_BYTES,
        bytes == with_list(
            with_list(with_singles(common::headed(nanos, frame), geometry), ranges),
            intensities,
        ),
        bytes.len() <= usize::MAX,
    ensures
        ({
            let headed = common::headed(nanos, frame);
            let shaped = with_singles(headed, geometry);
            let ranged = with_list(shaped, ranges);
            let reader = common::u32_reader(bytes, Endian::Little);
            let ranges_start = common::with_u32(shaped, ranges.len() as u32).len() as int;
            let rest_start = common::with_u32(ranged, intensities.len() as u32).len() as int;
            let behind_stamp = common::read_stamp(bytes, Endian::Little, 4)->Ok_0.1;
            &&& common::encapsulation(bytes) == Ok::<Endian, DecodeFault>(Endian::Little)
            &&& common::read_stamp(bytes, Endian::Little, 4) == Ok::<(i64, int), DecodeFault>(
                (nanos, behind_stamp),
            )
            &&& common::read_string(bytes, Endian::Little, behind_stamp) == Ok::<
                (Seq<char>, int),
                DecodeFault,
            >((frame, headed.len() as int))
            &&& common::read_many(reader, headed.len() as int, 7) == Ok::<
                (Seq<u32>, int),
                DecodeFault,
            >((geometry.map_values(|number: F32| number.0), shaped.len() as int))
            &&& common::read_sequence_length(
                bytes,
                Endian::Little,
                shaped.len() as int,
                4,
            ) == Ok::<(nat, int), DecodeFault>((ranges.len(), ranges_start))
            &&& common::read_many(reader, ranges_start, ranges.len()) == Ok::<
                (Seq<u32>, int),
                DecodeFault,
            >((ranges.map_values(|number: F32| number.0), ranged.len() as int))
            &&& common::read_sequence_length(
                bytes,
                Endian::Little,
                ranged.len() as int,
                4,
            ) == Ok::<(nat, int), DecodeFault>((intensities.len(), rest_start))
            &&& common::read_many(reader, rest_start, intensities.len()) == Ok::<
                (Seq<u32>, int),
                DecodeFault,
            >((intensities.map_values(|number: F32| number.0), bytes.len() as int))
        }),
{
    let headed = common::headed(nanos, frame);
    let shaped = with_singles(headed, geometry);
    let ranged = with_list(shaped, ranges);
    let words = geometry.map_values(|number: F32| number.0);
    common::lemma_headed_is_long(nanos, frame);
    common::lemma_with_u32s_extends(headed, words);
    assert(bytes =~= bytes.subrange(0, bytes.len() as int));
    common::lemma_with_u32_extends(shaped, ranges.len() as u32);
    common::lemma_with_u32s_extends(
        common::with_u32(shaped, ranges.len() as u32),
        ranges.map_values(|number: F32| number.0),
    );
    lemma_list_round_trip(ranged, intensities, bytes);
    lemma_list_round_trip(shaped, ranges, bytes);
    common::lemma_prefix_chain(shaped, ranged, bytes);
    common::lemma_prefix_chain(headed, shaped, bytes);
    common::lemma_head_round_trip(nanos, frame, bytes);
    common::lemma_u32s_round_trip(headed, words, bytes);
}

#[verifier::rlimit(60)]
proof fn lemma_scan_of_parts(
    bytes: Seq<u8>,
    nanos: i64,
    behind_stamp: int,
    frame: Seq<char>,
    behind_frame: int,
    geometry: Seq<u32>,
    behind_geometry: int,
    ranges: Seq<u32>,
    ranges_start: int,
    behind_ranges: int,
    intensities: Seq<u32>,
    intensities_start: int,
    end: int,
)
    requires
        common::encapsulation(bytes) == Ok::<Endian, DecodeFault>(Endian::Little),
        common::read_stamp(bytes, Endian::Little, 4) == Ok::<(i64, int), DecodeFault>(
            (nanos, behind_stamp),
        ),
        common::read_string(bytes, Endian::Little, behind_stamp) == Ok::<
            (Seq<char>, int),
            DecodeFault,
        >((frame, behind_frame)),
        common::read_many(common::u32_reader(bytes, Endian::Little), behind_frame, 7) == Ok::<
            (Seq<u32>, int),
            DecodeFault,
        >((geometry, behind_geometry)),
        common::read_sequence_length(bytes, Endian::Little, behind_geometry, 4) == Ok::<
            (nat, int),
            DecodeFault,
        >((ranges.len(), ranges_start)),
        common::read_many(
            common::u32_reader(bytes, Endian::Little),
            ranges_start,
            ranges.len(),
        ) == Ok::<(Seq<u32>, int), DecodeFault>((ranges, behind_ranges)),
        common::read_sequence_length(bytes, Endian::Little, behind_ranges, 4) == Ok::<
            (nat, int),
            DecodeFault,
        >((intensities.len(), intensities_start)),
        common::read_many(
            common::u32_reader(bytes, Endian::Little),
            intensities_start,
            intensities.len(),
        ) == Ok::<(Seq<u32>, int), DecodeFault>((intensities, end)),
        usable_geometry(F32(geometry[0]), F32(geometry[2]), F32(geometry[5]), F32(geometry[6])),
    ensures
        scan_in(bytes) == Ok::<ScanContent, DecodeFault>(
            ScanContent {
                measurement_time: MeasurementTime(nanos),
                frame_id: frame,
                angle_min: F32(geometry[0]),
                angle_increment: F32(geometry[2]),
                range_min: F32(geometry[5]),
                range_max: F32(geometry[6]),
                ranges: ranges.map_values(|word: u32| F32(word)),
            },
        ),
{
}

/// Whatever its byte order, a scan that can be read has its first angle in the first of seven numbers
/// behind the frame name, its step in the third, its limits in the last two, and its ranges behind
/// them and their number.
#[verifier::rlimit(60)]
pub proof fn law_scans_stand_in_their_bytes(bytes: Seq<u8>, scan: LaserScan)
    requires
        scan_in(bytes) == Ok::<ScanContent, DecodeFault>(scan@),
    ensures
        ({
            let order = common::order_of(bytes);
            exists|start: int| #![trigger common::word32(bytes, start, order)]
                {
                    &&& start % 4 == 0
                    &&& scan.angle_min.0 == common::word32(bytes, start, order)
                    &&& scan.angle_increment.0 == common::word32(bytes, start + 4 * 2, order)
                    &&& scan.range_min.0 == common::word32(bytes, start + 4 * 5, order)
                    &&& scan.range_max.0 == common::word32(bytes, start + 4 * 6, order)
                    &&& scan.ranges@.len() == common::word32(bytes, start + 4 * 7, order)
                    &&& forall|i: int|
                        0 <= i < scan.ranges@.len() ==> (#[trigger] scan.ranges@[i]).0
                            == common::word32(bytes, start + 4 * (8 + i), order)
                }
        }),
{
    let endian = common::order_of(bytes);
    let place = lemma_read_geometry(bytes, scan);
    let reader = common::u32_reader(bytes, endian);
    let start = common::aligned(place, 4);
    common::lemma_many_u32(bytes, endian, place, 7);
    let (geometry, behind) = common::read_many(reader, place, 7)->Ok_0;
    let count = scan.ranges@.len();
    lemma_count_stands(bytes, endian, behind);
    common::lemma_many_u32(bytes, endian, behind + 4, count);
    let (ranges, _) = common::read_many(reader, behind + 4, count)->Ok_0;
    assert(common::aligned(behind + 4, 4) == behind + 4);
    assert forall|i: int| 0 <= i < count implies (#[trigger] scan.ranges@[i]).0 == common::word32(
        bytes,
        start + 4 * (8 + i),
        endian,
    ) by {
        assert(ranges[i] == common::word32(bytes, (behind + 4) + 4 * i, endian));
        assert((behind + 4) + 4 * i == start + 4 * (8 + i));
    }
    assert(geometry[0] == common::word32(bytes, start + 4 * 0, endian));
    assert(geometry[2] == common::word32(bytes, start + 4 * 2, endian));
    assert(geometry[5] == common::word32(bytes, start + 4 * 5, endian));
    assert(geometry[6] == common::word32(bytes, start + 4 * 6, endian));
    assert(scan.angle_min.0 == common::word32(bytes, start, endian));
}

proof fn lemma_count_stands(bytes: Seq<u8>, endian: Endian, position: int)
    requires
        position % 4 == 0,
        4 <= position,
    ensures
        common::read_sequence_length(bytes, endian, position, 4) matches Ok((count, end)) ==> count
            == common::word32(bytes, position, endian) && end == position + 4,
{
    assert(common::aligned(position, 4) == position);
}

/// Where the numbers of a scan start, and which of them it keeps.
#[verifier::rlimit(60)]
proof fn lemma_read_geometry(bytes: Seq<u8>, scan: LaserScan) -> (place: int)
    requires
        scan_in(bytes) == Ok::<ScanContent, DecodeFault>(scan@),
    ensures
        4 <= place,
        ({
            let endian = common::order_of(bytes);
            let reader = common::u32_reader(bytes, endian);
            let read = common::read_many(reader, place, 7);
            let (geometry, behind) = read->Ok_0;
            let counted = common::read_sequence_length(bytes, endian, behind, 4);
            let ranges = common::read_many(reader, counted->Ok_0.1, counted->Ok_0.0);
            &&& read is Ok
            &&& scan.angle_min.0 == geometry[0]
            &&& scan.angle_increment.0 == geometry[2]
            &&& scan.range_min.0 == geometry[5]
            &&& scan.range_max.0 == geometry[6]
            &&& counted is Ok
            &&& ranges is Ok
            &&& scan.ranges@.len() == counted->Ok_0.0
            &&& forall|i: int|
                0 <= i < scan.ranges@.len() ==> (#[trigger] scan.ranges@[i]).0
                    == ranges->Ok_0.0[i]
        }),
{
    let endian = common::encapsulation(bytes)->Ok_0;
    let behind_stamp = common::read_stamp(bytes, endian, 4)->Ok_0.1;
    let place = common::read_string(bytes, endian, behind_stamp)->Ok_0.1;
    common::lemma_reads_go_on(bytes, endian, 4);
    common::lemma_reads_go_on(bytes, endian, behind_stamp);
    assert(endian == common::order_of(bytes));
    let reader = common::u32_reader(bytes, endian);
    let behind = common::read_many(reader, place, 7)->Ok_0.1;
    let (count, start) = common::read_sequence_length(bytes, endian, behind, 4)->Ok_0;
    common::lemma_read_many_length(reader, start, count);
    place
}

/// A scan that is read can be shown: its angles are finite and advance, and its limits are finite, not
/// negative and in order.
#[verifier::rlimit(60)]
pub proof fn law_scans_that_are_read_can_be_shown(bytes: Seq<u8>, scan: LaserScan)
    requires
        scan_in(bytes) == Ok::<ScanContent, DecodeFault>(scan@),
    ensures
        scan.angle_min.spec_finite(),
        scan.angle_increment.spec_finite(),
        scan.angle_increment.0 != 0 && scan.angle_increment.0 != 0x8000_0000,
        scan.range_min.spec_finite(),
        scan.range_max.spec_finite(),
        scan.range_min.0 < 0x8000_0000 || scan.range_min.0 == 0x8000_0000,
        scan.range_min.rank() <= scan.range_max.rank(),
{
}

} // verus!

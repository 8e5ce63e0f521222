//! `nav_msgs/msg/Odometry`.

use crate::message::cdr::common::{self, finite_words, DecodeError, DecodeFault, Endian, Reader};
use crate::message::cdr::transform::{self, with_numbers};
use crate::message::float::F64;
use crate::message::time::MeasurementTime;
use vstd::prelude::*;
use vstd::utf8::*;

verus! {

#[derive(Clone, Debug, PartialEq)]
pub struct Odometry {
    pub measurement_time: MeasurementTime,
    pub frame_id: String,
    pub child_frame_id: String,
    pub position: [F64; 3],
    /// Quaternion in ROS x, y, z, w order.
    pub orientation: [F64; 4],
    pub linear_velocity: [F64; 3],
    pub angular_velocity: [F64; 3],
}

/// The contents of an odometry message.
pub struct OdometryContent {
    pub measurement_time: MeasurementTime,
    pub frame_id: Seq<char>,
    pub child_frame_id: Seq<char>,
    pub position: [F64; 3],
    pub orientation: [F64; 4],
    pub linear_velocity: [F64; 3],
    pub angular_velocity: [F64; 3],
}

impl View for Odometry {
    type V = OdometryContent;

    open spec fn view(&self) -> OdometryContent {
        OdometryContent {
            measurement_time: self.measurement_time,
            frame_id: self.frame_id@,
            child_frame_id: self.child_frame_id@,
            position: self.position,
            orientation: self.orientation,
            linear_velocity: self.linear_velocity,
            angular_velocity: self.angular_velocity,
        }
    }
}

/// How many numbers follow the frame names: a pose, its covariance, a twist, its covariance.
pub const ODOMETRY_NUMBERS: usize = 85;

/// Where the linear velocity stands among those numbers.
pub const VELOCITY_START: usize = 43;

/// The pose and the velocities are finite; the covariances may hold anything.
pub open spec fn kept_numbers_finite(numbers: Seq<u64>) -> bool {
    &&& forall|i: int| 0 <= i < 7 ==> F64(#[trigger] numbers[i]).spec_finite()
    &&& forall|i: int|
        VELOCITY_START <= i < VELOCITY_START + 6 ==> F64(#[trigger] numbers[i]).spec_finite()
}

/// The odometry that a payload holds, or why it holds none.
pub open spec fn odometry_in(bytes: Seq<u8>) -> Result<OdometryContent, DecodeFault> {
    match common::encapsulation(bytes) {
        Err(fault) => Err(fault),
        Ok(endian) => match common::read_stamp(bytes, endian, 4) {
            Err(fault) => Err(fault),
            Ok((stamp, behind_stamp)) => match common::read_string(bytes, endian, behind_stamp) {
                Err(fault) => Err(fault),
                Ok((frame_id, behind_frame)) => match common::read_string(
                    bytes,
                    endian,
                    behind_frame,
                ) {
                    Err(fault) => Err(fault),
                    Ok((child_frame_id, start)) => match common::read_many(
                        common::u64_reader(bytes, endian),
                        start,
                        ODOMETRY_NUMBERS as nat,
                    ) {
                        Err(fault) => Err(fault),
                        Ok((numbers, _)) => if kept_numbers_finite(numbers) {
                            Ok(
                                OdometryContent {
                                    measurement_time: MeasurementTime(stamp),
                                    frame_id,
                                    child_frame_id,
                                    position: [F64(numbers[0]), F64(numbers[1]), F64(numbers[2])],
                                    orientation: [
                                        F64(numbers[3]),
                                        F64(numbers[4]),
                                        F64(numbers[5]),
                                        F64(numbers[6]),
                                    ],
                                    linear_velocity: [
                                        F64(numbers[43]),
                                        F64(numbers[44]),
                                        F64(numbers[45]),
                                    ],
                                    angular_velocity: [
                                        F64(numbers[46]),
                                        F64(numbers[47]),
                                        F64(numbers[48]),
                                    ],
                                },
                            )
                        } else {
                            Err(DecodeFault::InvalidLength)
                        },
                    },
                },
            },
        },
    }
}

pub fn decode_odometry(bytes: &[u8]) -> (outcome: Result<Odometry, DecodeError>)
    ensures
        match outcome {
            Ok(odometry) => odometry_in(bytes@) == Ok::<OdometryContent, DecodeFault>(odometry@),
            Err(error) => odometry_in(bytes@) == Err::<OdometryContent, DecodeFault>(error@),
        },
{
    let mut reader: Reader = Reader::new(bytes)?;
    let stamp: i64 = reader.stamp()?;
    let frame_id: String = reader.string()?;
    let child_frame_id: String = reader.string()?;
    let numbers: Vec<u64> = reader.u64_sequence(ODOMETRY_NUMBERS)?;
    if !finite_words(&numbers, 0, 7) || !finite_words(
        &numbers,
        VELOCITY_START,
        VELOCITY_START + 6,
    ) {
        return Err(DecodeError::InvalidLength);
    }
    Ok(
        Odometry {
            measurement_time: MeasurementTime(stamp),
            frame_id,
            child_frame_id,
            position: [F64(numbers[0]), F64(numbers[1]), F64(numbers[2])],
            orientation: [F64(numbers[3]), F64(numbers[4]), F64(numbers[5]), F64(numbers[6])],
            linear_velocity: [F64(numbers[43]), F64(numbers[44]), F64(numbers[45])],
            angular_velocity: [F64(numbers[46]), F64(numbers[47]), F64(numbers[48])],
        },
    )
}

/// A pose or a twist as it is sent: its numbers, then their covariance.
pub open spec fn with_covariance(output: Seq<u8>, numbers: Seq<F64>, covariance: Seq<F64>) -> Seq<
    u8,
> {
    with_numbers(with_numbers(output, numbers), covariance)
}

/// Odometry is read back as it was sent: behind the time stamp and the two frame names stand the
/// position x, y, z, the orientation x, y, z, w and their covariance, then the linear velocity, the
/// angular velocity and theirs. The covariances may hold anything.
#[verifier::rlimit(60)]
pub proof fn law_odometry_is_read_back(
    nanos: i64,
    frame: Seq<char>,
    child: Seq<char>,
    position: [F64; 3],
    orientation: [F64; 4],
    linear: [F64; 3],
    angular: [F64; 3],
    pose_covariance: Seq<F64>,
    twist_covariance: Seq<F64>,
    bytes: Seq<u8>,
    odometry: Odometry,
)
    requires
        common::head_fits(nanos, frame),
        encode_utf8(child).len() < 67_108_864,
        transform::all_finite(position@ + orientation@),
        transform::all_finite(linear@ + angular@),
        pose_covariance.len() == 36,
        twist_covariance.len() == 36,
        bytes == with_covariance(
            with_covariance(
                common::with_string(common::headed(nanos, frame), child),
                position@ + orientation@,
                pose_covariance,
            ),
            linear@ + angular@,
            twist_covariance,
        ),
        bytes.len() <= usize::MAX,
    ensures
        odometry_in(bytes) is Ok,
        odometry_in(bytes)->Ok_0 == odometry@ ==> {
            &&& odometry.measurement_time.0 == nanos
            &&& odometry.frame_id@ == frame
            &&& odometry.child_frame_id@ == child
            &&& odometry.position@ == position@
            &&& odometry.orientation@ == orientation@
            &&& odometry.linear_velocity@ == linear@
            &&& odometry.angular_velocity@ == angular@
        },
{
    let named = common::with_string(common::headed(nanos, frame), child);
    let front = position@ + orientation@ + pose_covariance;
    let middle = front + (linear@ + angular@);
    let numbers = middle + twist_covariance;
    transform::lemma_with_numbers_append(named, position@ + orientation@, pose_covariance);
    transform::lemma_with_numbers_append(named, front, linear@ + angular@);
    transform::lemma_with_numbers_append(named, middle, twist_covariance);
    assert(numbers.subrange(0, 7) =~= position@ + orientation@);
    assert(numbers.subrange(43, 49) =~= linear@ + angular@);
    let words = numbers.map_values(|number: F64| number.0);
    lemma_kept_numbers(words, position, orientation, linear, angular, numbers);
    lemma_sent_odometry(nanos, frame, child, numbers, bytes);
    if odometry_in(bytes)->Ok_0 == odometry@ {
        assert forall|i: int| 0 <= i < 3 implies odometry.position@[i] == position@[i]
            && odometry.linear_velocity@[i] == linear@[i] && odometry.angular_velocity@[i]
            == angular@[i] by {
            assert(odometry@.position@[i] == F64(words[i]));
            assert(odometry@.linear_velocity@[i] == F64(words[43 + i]));
            assert(odometry@.angular_velocity@[i] == F64(words[46 + i]));
        }
        assert forall|i: int| 0 <= i < 4 implies odometry.orientation@[i] == orientation@[i] by {
            assert(odometry@.orientation@[i] == F64(words[3 + i]));
        }
        assert(odometry.position@ =~= position@);
        assert(odometry.orientation@ =~= orientation@);
        assert(odometry.linear_velocity@ =~= linear@);
        assert(odometry.angular_velocity@ =~= angular@);
    }
}

#[verifier::rlimit(60)]
proof fn lemma_sent_odometry(
    nanos: i64,
    frame: Seq<char>,
    child: Seq<char>,
    numbers: Seq<F64>,
    bytes: Seq<u8>,
)
    requires
        common::head_fits(nanos, frame),
        encode_utf8(child).len() < 67_108_864,
        numbers.len() == 85,
        kept_numbers_finite(numbers.map_values(|number: F64| number.0)),
        bytes == with_numbers(common::with_string(common::headed(nanos, frame), child), numbers),
        bytes.len() <= usize::MAX,
    ensures
        ({
            let words = numbers.map_values(|number: F64| number.0);
            let read = odometry_in(bytes)->Ok_0;
            &&& odometry_in(bytes) is Ok
            &&& read.measurement_time.0 == nanos
            &&& read.frame_id == frame
            &&& read.child_frame_id == child
            &&& forall|i: int| 0 <= i < 3 ==> #[trigger] read.position@[i] == F64(words[i])
            &&& forall|i: int| 0 <= i < 4 ==> #[trigger] read.orientation@[i] == F64(words[3 + i])
            &&& forall|i: int|
                0 <= i < 3 ==> #[trigger] read.linear_velocity@[i] == F64(words[43 + i])
            &&& forall|i: int|
                0 <= i < 3 ==> #[trigger] read.angular_velocity@[i] == F64(words[46 + i])
        }),
{
    let headed = common::headed(nanos, frame);
    let named = common::with_string(headed, child);
    common::lemma_headed_is_long(nanos, frame);
    common::lemma_with_string_extends(headed, child);
    transform::lemma_with_numbers_extends(named, numbers);
    common::lemma_prefix_chain(headed, named, bytes);
    assert(bytes =~= bytes.subrange(0, bytes.len() as int));
    common::lemma_head_round_trip(nanos, frame, bytes);
    common::lemma_string_round_trip(headed, child, bytes);
    transform::lemma_numbers_round_trip(named, numbers, bytes);
    lemma_odometry_of_parts(
        bytes,
        nanos,
        common::read_stamp(bytes, Endian::Little, 4)->Ok_0.1,
        frame,
        headed.len() as int,
        child,
        named.len() as int,
        numbers.map_values(|number: F64| number.0),
        bytes.len() as int,
    );
}

proof fn lemma_kept_numbers(
    words: Seq<u64>,
    position: [F64; 3],
    orientation: [F64; 4],
    linear: [F64; 3],
    angular: [F64; 3],
    numbers: Seq<F64>,
)
    requires
        numbers.len() == 85,
        words == numbers.map_values(|number: F64| number.0),
        numbers.subrange(0, 7) == position@ + orientation@,
        numbers.subrange(43, 49) == linear@ + angular@,
        transform::all_finite(position@ + orientation@),
        transform::all_finite(linear@ + angular@),
    ensures
        kept_numbers_finite(words),
        forall|i: int| 0 <= i < 3 ==> F64(#[trigger] words[i]) == position@[i],
        forall|i: int| 3 <= i < 7 ==> F64(#[trigger] words[i]) == orientation@[i - 3],
        forall|i: int| 43 <= i < 46 ==> F64(#[trigger] words[i]) == linear@[i - 43],
        forall|i: int| 46 <= i < 49 ==> F64(#[trigger] words[i]) == angular@[i - 46],
{
    let pose = position@ + orientation@;
    let twist = linear@ + angular@;
    assert forall|i: int| 0 <= i < 7 implies F64(#[trigger] words[i]) == pose[i]
        && pose[i].spec_finite() by {
        assert(numbers.subrange(0, 7)[i] == numbers[i]);
    }
    assert forall|i: int| 43 <= i < 49 implies F64(#[trigger] words[i]) == twist[i - 43]
        && twist[i - 43].spec_finite() by {
        assert(numbers.subrange(43, 49)[i - 43] == numbers[i]);
    }
}

#[verifier::rlimit(60)]
proof fn lemma_odometry_of_parts(
    bytes: Seq<u8>,
    nanos: i64,
    behind_stamp: int,
    frame: Seq<char>,
    behind_frame: int,
    child: Seq<char>,
    start: int,
    words: Seq<u64>,
    end: int,
)
    requires
        common::encapsulation(bytes) == Ok::<Endian, DecodeFault>(Endian::Little),
        common::read_stamp(bytes, Endian::Little, 4) == Ok::<(i64, int), DecodeFault>(
            (nanos, behind_stamp),
        ),
        common::read_string(bytes, Endian::Little, behind_stamp) == Ok::<
            (Seq<char>, int),
            DecodeFault,
        >((frame, behind_frame)),
        common::read_string(bytes, Endian::Little, behind_frame) == Ok::<
            (Seq<char>, int),
            DecodeFault,
        >((child, start)),
        common::read_many(common::u64_reader(bytes, Endian::Little), start, 85) == Ok::<
            (Seq<u64>, int),
            DecodeFault,
        >((words, end)),
        kept_numbers_finite(words),
    ensures
        odometry_in(bytes) is Ok,
        odometry_in(bytes)->Ok_0.measurement_time.0 == nanos,
        odometry_in(bytes)->Ok_0.frame_id == frame,
        odometry_in(bytes)->Ok_0.child_frame_id == child,
        forall|i: int|
            0 <= i < 3 ==> #[trigger] odometry_in(bytes)->Ok_0.position@[i] == F64(words[i]),
        forall|i: int|
            0 <= i < 4 ==> #[trigger] odometry_in(bytes)->Ok_0.orientation@[i] == F64(words[3 + i]),
        forall|i: int|
            0 <= i < 3 ==> #[trigger] odometry_in(bytes)->Ok_0.linear_velocity@[i] == F64(
                words[43 + i],
            ),
        forall|i: int|
            0 <= i < 3 ==> #[trigger] odometry_in(bytes)->Ok_0.angular_velocity@[i] == F64(
                words[46 + i],
            ),
{
}

/// Whatever its byte order, odometry that can be read has its pose in the first seven numbers behind the
/// frame names, and its velocities in the six behind the covariance of the pose.
#[verifier::rlimit(60)]
pub proof fn law_odometry_stands_in_its_bytes(bytes: Seq<u8>, odometry: Odometry)
    requires
        odometry_in(bytes) == Ok::<OdometryContent, DecodeFault>(odometry@),
    ensures
        exists|start: int|
            start % 8 == 4 && #[trigger] common::stand_at(
                bytes,
                start,
                odometry.position@ + odometry.orientation@,
            ) && common::stand_at(
                bytes,
                start + 8 * (7 + 36),
                odometry.linear_velocity@ + odometry.angular_velocity@,
            ),
{
    let endian = common::order_of(bytes);
    let place = lemma_read_numbers(bytes, odometry);
    let (words, _) = common::read_many(common::u64_reader(bytes, endian), place, 85)->Ok_0;
    let start = common::aligned(place, 8);
    common::lemma_many_u64(bytes, endian, place, 85);
    common::lemma_part_stands(
        bytes,
        start,
        words,
        0,
        odometry.position@ + odometry.orientation@,
    );
    common::lemma_part_stands(
        bytes,
        start,
        words,
        43,
        odometry.linear_velocity@ + odometry.angular_velocity@,
    );
}

/// Where the numbers of odometry start, and which of them it keeps.
#[verifier::rlimit(60)]
proof fn lemma_read_numbers(bytes: Seq<u8>, odometry: Odometry) -> (place: int)
    requires
        odometry_in(bytes) == Ok::<OdometryContent, DecodeFault>(odometry@),
    ensures
        4 <= place,
        ({
            let read = common::read_many(
                common::u64_reader(bytes, common::order_of(bytes)),
                place,
                85,
            );
            let pose = odometry.position@ + odometry.orientation@;
            let twist = odometry.linear_velocity@ + odometry.angular_velocity@;
            &&& read is Ok
            &&& pose.len() == 7
            &&& twist.len() == 6
            &&& forall|i: int| 0 <= i < 7 ==> (#[trigger] pose[i]).0 == read->Ok_0.0[i]
            &&& forall|i: int| 0 <= i < 6 ==> (#[trigger] twist[i]).0 == read->Ok_0.0[43 + i]
        }),
{
    let endian = common::encapsulation(bytes)->Ok_0;
    let behind_stamp = common::read_stamp(bytes, endian, 4)->Ok_0.1;
    let behind_frame = common::read_string(bytes, endian, behind_stamp)->Ok_0.1;
    let place = common::read_string(bytes, endian, behind_frame)->Ok_0.1;
    common::lemma_reads_go_on(bytes, endian, 4);
    common::lemma_reads_go_on(bytes, endian, behind_stamp);
    common::lemma_reads_go_on(bytes, endian, behind_frame);
    assert(endian == common::order_of(bytes));
    place
}

/// Odometry that is read has a finite pose and finite velocities.
#[verifier::rlimit(60)]
pub proof fn law_odometry_that_is_read_is_finite(bytes: Seq<u8>, odometry: Odometry)
    requires
        odometry_in(bytes) == Ok::<OdometryContent, DecodeFault>(odometry@),
    ensures
        transform::all_finite(odometry.position@),
        transform::all_finite(odometry.orientation@),
        transform::all_finite(odometry.linear_velocity@),
        transform::all_finite(odometry.angular_velocity@),
{
    let endian = common::encapsulation(bytes)->Ok_0;
    let behind_stamp = common::read_stamp(bytes, endian, 4)->Ok_0.1;
    let behind_frame = common::read_string(bytes, endian, behind_stamp)->Ok_0.1;
    let place = common::read_string(bytes, endian, behind_frame)->Ok_0.1;
    let read = common::read_many(
        common::u64_reader(bytes, endian),
        place,
        ODOMETRY_NUMBERS as nat,
    );
    lemma_finite_parts(read->Ok_0.0, odometry@);
}

proof fn lemma_finite_parts(numbers: Seq<u64>, odometry: OdometryContent)
    requires
        kept_numbers_finite(numbers),
        odometry.position@ =~= seq![F64(numbers[0]), F64(numbers[1]), F64(numbers[2])],
        odometry.orientation@ =~= seq![
            F64(numbers[3]),
            F64(numbers[4]),
            F64(numbers[5]),
            F64(numbers[6]),
        ],
        odometry.linear_velocity@ =~= seq![F64(numbers[43]), F64(numbers[44]), F64(numbers[45])],
        odometry.angular_velocity@ =~= seq![F64(numbers[46]), F64(numbers[47]), F64(numbers[48])],
    ensures
        transform::all_finite(odometry.position@),
        transform::all_finite(odometry.orientation@),
        transform::all_finite(odometry.linear_velocity@),
        transform::all_finite(odometry.angular_velocity@),
{
    assert(F64(numbers[0]).spec_finite() && F64(numbers[1]).spec_finite());
    assert(F64(numbers[2]).spec_finite() && F64(numbers[3]).spec_finite());
    assert(F64(numbers[4]).spec_finite() && F64(numbers[5]).spec_finite());
    assert(F64(numbers[6]).spec_finite() && F64(numbers[43]).spec_finite());
    assert(F64(numbers[44]).spec_finite() && F64(numbers[45]).spec_finite());
    assert(F64(numbers[46]).spec_finite() && F64(numbers[47]).spec_finite());
    assert(F64(numbers[48]).spec_finite());
}

} // verus!

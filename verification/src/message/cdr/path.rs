//! `nav_msgs/msg/Path`.

use crate::message::cdr::common::{self, CdrRead, DecodeError, DecodeFault, Endian, Reader};
use crate::message::cdr::transform::{self, with_numbers};
use crate::message::float::F64;
use crate::message::time::MeasurementTime;
use vstd::prelude::*;

verus! {

#[derive(Clone, Debug, PartialEq)]
pub struct PathMessage {
    pub measurement_time: MeasurementTime,
    pub frame_id: String,
    /// ROS coordinates in metres: +x forward, +y left.
    pub points: Vec<[F64; 2]>,
}

/// The contents of a path.
pub struct PathContent {
    pub measurement_time: MeasurementTime,
    pub frame_id: Seq<char>,
    pub points: Seq<[F64; 2]>,
}

impl View for PathMessage {
    type V = PathContent;

    open spec fn view(&self) -> PathContent {
        PathContent {
            measurement_time: self.measurement_time,
            frame_id: self.frame_id@,
            points: self.points@,
        }
    }
}

/// A stamped pose, of which the planar position is kept. Both coordinates must be finite.
#[verifier::opaque]
pub open spec fn read_pose(bytes: Seq<u8>, endian: Endian, position: int) -> CdrRead<[F64; 2]> {
    match common::read_stamp(bytes, endian, position) {
        Err(fault) => Err(fault),
        Ok((_, behind_stamp)) => match common::read_string(bytes, endian, behind_stamp) {
            Err(fault) => Err(fault),
            Ok((_, behind_frame)) => match common::read_many(
                common::u64_reader(bytes, endian),
                behind_frame,
                7,
            ) {
                Err(fault) => Err(fault),
                Ok((values, end)) => if F64(values[0]).spec_finite() && F64(
                    values[1],
                ).spec_finite() {
                    Ok(([F64(values[0]), F64(values[1])], end))
                } else {
                    Err(DecodeFault::InvalidLength)
                },
            },
        },
    }
}

/// The reader of one pose, for `read_many`.
pub open spec fn pose_reader(bytes: Seq<u8>, endian: Endian) -> spec_fn(int) -> CdrRead<[F64; 2]> {
    |position: int| read_pose(bytes, endian, position)
}

/// The path that a payload holds, or why it holds none.
pub open spec fn path_in(bytes: Seq<u8>) -> Result<PathContent, DecodeFault> {
    match common::encapsulation(bytes) {
        Err(fault) => Err(fault),
        Ok(endian) => match common::read_stamp(bytes, endian, 4) {
            Err(fault) => Err(fault),
            Ok((stamp, behind_stamp)) => match common::read_string(bytes, endian, behind_stamp) {
                Err(fault) => Err(fault),
                Ok((frame_id, behind_frame)) => match common::read_sequence_length(
                    bytes,
                    endian,
                    behind_frame,
                    64,
                ) {
                    Err(fault) => Err(fault),
                    Ok((count, start)) => match common::read_many(
                        pose_reader(bytes, endian),
                        start,
                        count,
                    ) {
                        Err(fault) => Err(fault),
                        Ok((points, _)) => Ok(
                            PathContent {
                                measurement_time: MeasurementTime(stamp),
                                frame_id,
                                points,
                            },
                        ),
                    },
                },
            },
        },
    }
}

fn pose(reader: &mut Reader) -> (outcome: Result<[F64; 2], DecodeError>)
    requires
        old(reader).well_formed(),
    ensures
        final(reader).same_payload(old(reader)),
        outcome is Ok ==> final(reader).well_formed(),
        common::agrees(
            outcome,
            read_pose(old(reader).bytes@, old(reader).endian, old(reader).position as int),
            |value: [F64; 2], expected: [F64; 2]| value == expected,
            final(reader).position as int,
        ),
{
    reveal(read_pose);
    reader.stamp()?;
    reader.string()?;
    let values: Vec<u64> = reader.u64_sequence(7)?;
    let x: F64 = F64(values[0]);
    let y: F64 = F64(values[1]);
    if !x.is_finite() || !y.is_finite() {
        return Err(DecodeError::InvalidLength);
    }
    Ok([x, y])
}

fn poses(reader: &mut Reader, count: usize) -> (outcome: Result<Vec<[F64; 2]>, DecodeError>)
    requires
        old(reader).well_formed(),
    ensures
        common::agrees(
            outcome,
            common::read_many(
                pose_reader(old(reader).bytes@, old(reader).endian),
                old(reader).position as int,
                count as nat,
            ),
            |value: Vec<[F64; 2]>, expected: Seq<[F64; 2]>| value@ == expected,
            final(reader).position as int,
        ),
{
    let mut points: Vec<[F64; 2]> = Vec::with_capacity(count);
    let ghost element = pose_reader(reader.bytes@, reader.endian);
    let ghost start = reader.position as int;
    let mut index: usize = 0;
    while index < count
        invariant
            index <= count,
            reader.well_formed(),
            element == pose_reader(reader.bytes@, reader.endian),
            reader.same_payload(old(reader)),
            start == old(reader).position,
            common::read_many(element, start, index as nat) == Ok::<
                (Seq<[F64; 2]>, int),
                DecodeFault,
            >((points@, reader.position as int)),
        decreases count - index,
    {
        match pose(reader) {
            Ok(point) => points.push(point),
            Err(error) => {
                proof {
                    common::lemma_read_many_fails(
                        element,
                        start,
                        (index + 1) as nat,
                        count as nat,
                    );
                }
                return Err(error);
            },
        }
        index = index + 1;
    }
    Ok(points)
}

pub fn decode_path(bytes: &[u8]) -> (outcome: Result<PathMessage, DecodeError>)
    ensures
        match outcome {
            Ok(path) => path_in(bytes@) == Ok::<PathContent, DecodeFault>(path@),
            Err(error) => path_in(bytes@) == Err::<PathContent, DecodeFault>(error@),
        },
{
    let mut reader: Reader = Reader::new(bytes)?;
    let stamp: i64 = reader.stamp()?;
    let frame_id: String = reader.string()?;
    let count: usize = reader.sequence_length(64)?;
    let points: Vec<[F64; 2]> = poses(&mut reader, count)?;
    Ok(PathMessage { measurement_time: MeasurementTime(stamp), frame_id, points })
}

/// Every point of a decoded path has finite coordinates.
pub proof fn law_path_points_are_finite(bytes: Seq<u8>)
    requires
        path_in(bytes) is Ok,
    ensures
        forall|i: int|
            0 <= i < path_in(bytes)->Ok_0.points.len() ==> (
            #[trigger] path_in(bytes)->Ok_0.points[i])@[0].spec_finite() && path_in(
                bytes,
            )->Ok_0.points[i]@[1].spec_finite(),
{
    let endian = common::encapsulation(bytes)->Ok_0;
    let behind_stamp = common::read_stamp(bytes, endian, 4)->Ok_0.1;
    let behind_frame = common::read_string(bytes, endian, behind_stamp)->Ok_0.1;
    let (count, start) = common::read_sequence_length(bytes, endian, behind_frame, 64)->Ok_0;
    lemma_poses_are_finite(bytes, endian, start, count);
}

proof fn lemma_poses_are_finite(bytes: Seq<u8>, endian: Endian, start: int, count: nat)
    requires
        common::read_many(pose_reader(bytes, endian), start, count) is Ok,
    ensures
        forall|i: int|
            0 <= i < common::read_many(pose_reader(bytes, endian), start, count)->Ok_0.0.len() ==> (
            #[trigger] common::read_many(
                pose_reader(bytes, endian),
                start,
                count,
            )->Ok_0.0[i])@[0].spec_finite() && common::read_many(
                pose_reader(bytes, endian),
                start,
                count,
            )->Ok_0.0[i]@[1].spec_finite(),
    decreases count,
{
    reveal(read_pose);
    if count > 0 {
        lemma_poses_are_finite(bytes, endian, start, (count - 1) as nat);
    }
}

/// A pose as it is sent.
pub struct SentPose {
    pub nanos: i64,
    pub frame: Seq<char>,
    pub position: [F64; 3],
    pub orientation: [F64; 4],
}

impl SentPose {
    /// The pose can be sent and read: its position in the plane is finite.
    pub open spec fn readable(self) -> bool {
        &&& common::head_fits(self.nanos, self.frame)
        &&& self.position@[0].spec_finite()
        &&& self.position@[1].spec_finite()
    }
}

/// The output with a pose behind it: a time stamp, a frame name, the position x, y, z and the
/// orientation x, y, z, w.
pub open spec fn with_pose(output: Seq<u8>, pose: SentPose) -> Seq<u8> {
    with_numbers(
        common::with_string(common::stamped(output, pose.nanos)->Ok_0, pose.frame),
        pose.position@ + pose.orientation@,
    )
}

/// The output with poses behind it.
pub open spec fn with_poses(output: Seq<u8>, poses: Seq<SentPose>) -> Seq<u8>
    decreases poses.len(),
{
    if poses.len() == 0 {
        output
    } else {
        with_pose(with_poses(output, poses.drop_last()), poses.last())
    }
}

proof fn lemma_with_pose_extends(output: Seq<u8>, pose: SentPose)
    requires
        4 <= output.len(),
        pose.readable(),
    ensures
        output.is_prefix_of(with_pose(output, pose)),
        output.len() + 64 <= with_pose(output, pose).len(),
{
    let numbers = pose.position@ + pose.orientation@;
    let stamped = common::stamped(output, pose.nanos)->Ok_0;
    let framed = common::with_string(stamped, pose.frame);
    common::lemma_stamped_extends(output, pose.nanos);
    common::lemma_with_string_extends(stamped, pose.frame);
    transform::lemma_with_numbers_extends(framed, numbers);
    transform::lemma_numbers_take_room(framed, numbers);
    common::lemma_prefix_chain(output, stamped, framed);
    common::lemma_prefix_chain(output, framed, with_pose(output, pose));
    lemma_stamp_takes_room(output, pose.nanos);
}

proof fn lemma_stamp_takes_room(output: Seq<u8>, nanos: i64)
    requires
        4 <= output.len(),
        common::stamped(output, nanos) is Ok,
    ensures
        output.len() + 8 <= common::stamped(output, nanos)->Ok_0.len(),
{
    let seconds = common::as_unsigned(nanos as int / 1_000_000_000);
    common::lemma_with_u32_extends(output, seconds);
    common::lemma_with_u32_extends(
        common::with_u32(output, seconds),
        (nanos as int % 1_000_000_000) as u32,
    );
}

#[verifier::rlimit(60)]
proof fn lemma_pose_round_trip(output: Seq<u8>, pose: SentPose, bytes: Seq<u8>)
    requires
        4 <= output.len(),
        pose.readable(),
        with_pose(output, pose).is_prefix_of(bytes),
        bytes.len() <= usize::MAX,
    ensures
        read_pose(bytes, Endian::Little, output.len() as int) is Ok,
        read_pose(bytes, Endian::Little, output.len() as int)->Ok_0.1 == with_pose(
            output,
            pose,
        ).len(),
        read_pose(bytes, Endian::Little, output.len() as int)->Ok_0.0@[0] == pose.position@[0],
        read_pose(bytes, Endian::Little, output.len() as int)->Ok_0.0@[1] == pose.position@[1],
{
    reveal(read_pose);
    let numbers = pose.position@ + pose.orientation@;
    let stamped = common::stamped(output, pose.nanos)->Ok_0;
    let framed = common::with_string(stamped, pose.frame);
    let written = with_pose(output, pose);
    common::lemma_stamped_extends(output, pose.nanos);
    common::lemma_with_string_extends(stamped, pose.frame);
    transform::lemma_with_numbers_extends(framed, numbers);
    common::lemma_prefix_chain(framed, written, bytes);
    common::lemma_prefix_chain(stamped, framed, bytes);
    common::lemma_stamp_round_trip(output, pose.nanos, bytes);
    common::lemma_string_round_trip(stamped, pose.frame, bytes);
    transform::lemma_numbers_round_trip(framed, numbers, bytes);
    let words = numbers.map_values(|number: F64| number.0);
    assert(F64(words[0]) == pose.position@[0]);
    assert(F64(words[1]) == pose.position@[1]);
}

#[verifier::rlimit(60)]
proof fn lemma_poses_round_trip(output: Seq<u8>, poses: Seq<SentPose>, bytes: Seq<u8>)
    requires
        4 <= output.len(),
        forall|i: int| 0 <= i < poses.len() ==> (#[trigger] poses[i]).readable(),
        with_poses(output, poses).is_prefix_of(bytes),
        bytes.len() <= usize::MAX,
    ensures
        output.is_prefix_of(bytes),
        output.len() + 64 * poses.len() <= with_poses(output, poses).len(),
        ({
            let read = common::read_many(
                pose_reader(bytes, Endian::Little),
                output.len() as int,
                poses.len(),
            );
            &&& read is Ok
            &&& read->Ok_0.0.len() == poses.len()
            &&& read->Ok_0.1 == with_poses(output, poses).len()
            &&& forall|i: int|
                0 <= i < poses.len() ==> (#[trigger] read->Ok_0.0[i])@[0] == poses[i].position@[0]
                    && read->Ok_0.0[i]@[1] == poses[i].position@[1]
        }),
    decreases poses.len(),
{
    if poses.len() > 0 {
        let front = with_poses(output, poses.drop_last());
        assert(poses[poses.len() - 1].readable());
        assert forall|i: int| 0 <= i < poses.drop_last().len() implies (
        #[trigger] poses.drop_last()[i]).readable() by {
            assert(poses[i].readable());
        }
        lemma_with_poses_extends(output, poses.drop_last());
        lemma_with_pose_extends(front, poses.last());
        common::lemma_prefix_chain(front, with_poses(output, poses), bytes);
        lemma_poses_round_trip(output, poses.drop_last(), bytes);
        lemma_pose_round_trip(front, poses.last(), bytes);
        assert(poses =~= poses.drop_last().push(poses.last()));
    }
}

proof fn lemma_with_poses_extends(output: Seq<u8>, poses: Seq<SentPose>)
    requires
        4 <= output.len(),
        forall|i: int| 0 <= i < poses.len() ==> (#[trigger] poses[i]).readable(),
    ensures
        output.len() <= with_poses(output, poses).len(),
    decreases poses.len(),
{
    if poses.len() > 0 {
        assert(poses[poses.len() - 1].readable());
        assert forall|i: int| 0 <= i < poses.drop_last().len() implies (
        #[trigger] poses.drop_last()[i]).readable() by {
            assert(poses[i].readable());
        }
        lemma_with_poses_extends(output, poses.drop_last());
        lemma_with_pose_extends(with_poses(output, poses.drop_last()), poses.last());
    }
}

/// A path is read back as it was sent: its time stamp and frame name, and of each of its poses the
/// position x, y, one point for each pose and in the same order.
#[verifier::rlimit(60)]
pub proof fn law_paths_are_read_back(
    nanos: i64,
    frame: Seq<char>,
    poses: Seq<SentPose>,
    bytes: Seq<u8>,
    path: PathMessage,
)
    requires
        common::head_fits(nanos, frame),
        poses.len() <= common::MAX_FIELD_BYTES,
        forall|i: int| 0 <= i < poses.len() ==> (#[trigger] poses[i]).readable(),
        bytes == with_poses(
            common::with_u32(common::headed(nanos, frame), poses.len() as u32),
            poses,
        ),
        bytes.len() <= usize::MAX,
    ensures
        path_in(bytes) is Ok,
        path_in(bytes)->Ok_0 == path@ ==> {
            &&& path.measurement_time.0 == nanos
            &&& path.frame_id@ == frame
            &&& path.points@.len() == poses.len()
            &&& forall|i: int|
                0 <= i < poses.len() ==> (#[trigger] path.points@[i])@[0] == poses[i].position@[0]
                    && path.points@[i]@[1] == poses[i].position@[1]
        },
{
    let counted = common::with_u32(common::headed(nanos, frame), poses.len() as u32);
    lemma_sent_path(nanos, frame, poses, bytes);
    let behind_stamp = common::read_stamp(bytes, Endian::Little, 4)->Ok_0.1;
    lemma_path_of_parts(
        bytes,
        nanos,
        behind_stamp,
        frame,
        common::headed(nanos, frame).len() as int,
        poses.len(),
        counted.len() as int,
    );
}

#[verifier::rlimit(60)]
proof fn lemma_sent_path(nanos: i64, frame: Seq<char>, poses: Seq<SentPose>, bytes: Seq<u8>)
    requires
        common::head_fits(nanos, frame),
        poses.len() <= common::MAX_FIELD_BYTES,
        forall|i: int| 0 <= i < poses.len() ==> (#[trigger] poses[i]).readable(),
        bytes == with_poses(
            common::with_u32(common::headed(nanos, frame), poses.len() as u32),
            poses,
        ),
        bytes.len() <= usize::MAX,
    ensures
        ({
            let headed = common::headed(nanos, frame);
            let counted = common::with_u32(headed, poses.len() as u32);
            let behind_stamp = common::read_stamp(bytes, Endian::Little, 4)->Ok_0.1;
            let read = common::read_many(
                pose_reader(bytes, Endian::Little),
                counted.len() as int,
                poses.len(),
            );
            &&& common::encapsulation(bytes) == Ok::<Endian, DecodeFault>(Endian::Little)
            &&& common::read_stamp(bytes, Endian::Little, 4) == Ok::<(i64, int), DecodeFault>(
                (nanos, behind_stamp),
            )
            &&& common::read_string(bytes, Endian::Little, behind_stamp) == Ok::<
                (Seq<char>, int),
                DecodeFault,
            >((frame, headed.len() as int))
            &&& common::read_sequence_length(
                bytes,
                Endian::Little,
                headed.len() as int,
                64,
            ) == Ok::<(nat, int), DecodeFault>((poses.len(), counted.len() as int))
            &&& read is Ok
            &&& read->Ok_0.0.len() == poses.len()
            &&& forall|i: int|
                0 <= i < poses.len() ==> (#[trigger] read->Ok_0.0[i])@[0] == poses[i].position@[0]
                    && read->Ok_0.0[i]@[1] == poses[i].position@[1]
        }),
{
    let headed = common::headed(nanos, frame);
    let counted = common::with_u32(headed, poses.len() as u32);
    common::lemma_headed_is_long(nanos, frame);
    common::lemma_with_u32_extends(headed, poses.len() as u32);
    assert(bytes =~= bytes.subrange(0, bytes.len() as int));
    lemma_poses_round_trip(counted, poses, bytes);
    common::lemma_prefix_chain(headed, counted, bytes);
    common::lemma_head_round_trip(nanos, frame, bytes);
    common::lemma_u32_round_trip(headed, poses.len() as u32, bytes);
    assert(poses.len() <= (bytes.len() - counted.len()) / 64);
}

proof fn lemma_path_of_parts(
    bytes: Seq<u8>,
    nanos: i64,
    behind_stamp: int,
    frame: Seq<char>,
    behind_frame: int,
    count: nat,
    start: int,
)
    requires
        common::encapsulation(bytes) == Ok::<Endian, DecodeFault>(Endian::Little),
        common::read_stamp(bytes, Endian::Little, 4) == Ok::<(i64, int), DecodeFault>(
            (nanos, behind_stamp),
        ),
        common::read_string(bytes, Endian::Little, behind_stamp) == Ok::<
            (Seq<char>, int),
            DecodeFault,
        >((frame, behind_frame)),
        common::read_sequence_length(bytes, Endian::Little, behind_frame, 64) == Ok::<
            (nat, int),
            DecodeFault,
        >((count, start)),
        common::read_many(pose_reader(bytes, Endian::Little), start, count) is Ok,
    ensures
        path_in(bytes) == Ok::<PathContent, DecodeFault>(
            PathContent {
                measurement_time: MeasurementTime(nanos),
                frame_id: frame,
                points: common::read_many(
                    pose_reader(bytes, Endian::Little),
                    start,
                    count,
                )->Ok_0.0,
            },
        ),
{
}

/// Whatever its byte order, a pose that is read ends with the three numbers of its position and the four
/// of its orientation, and its point is the first two of them.
#[verifier::rlimit(60)]
pub proof fn law_poses_stand_in_their_bytes(
    bytes: Seq<u8>,
    position: int,
    point: [F64; 2],
    end: int,
)
    requires
        4 <= position,
        common::encapsulation(bytes) is Ok,
        read_pose(bytes, common::encapsulation(bytes)->Ok_0, position) == Ok::<
            ([F64; 2], int),
            DecodeFault,
        >((point, end)),
    ensures
        end % 8 == 4,
        common::stand_at(bytes, end - 8 * 7, point@),
{
    reveal(read_pose);
    let endian = common::encapsulation(bytes)->Ok_0;
    let behind_stamp = common::read_stamp(bytes, endian, position)->Ok_0.1;
    let place = common::read_string(bytes, endian, behind_stamp)->Ok_0.1;
    common::lemma_reads_go_on(bytes, endian, position);
    common::lemma_reads_go_on(bytes, endian, behind_stamp);
    common::lemma_many_u64(bytes, endian, place, 7);
    let (words, _) = common::read_many(common::u64_reader(bytes, endian), place, 7)->Ok_0;
    let start = common::aligned(place, 8);
    assert(endian == common::order_of(bytes));
    assert(words[0] == common::word64(bytes, start + 8 * 0, endian));
    assert(words[1] == common::word64(bytes, start + 8 * 1, endian));
    assert forall|i: int| 0 <= i < 2 implies (#[trigger] point@[i]).0 == common::word64(
        bytes,
        start + 8 * i,
        endian,
    ) by {
        assert(point@[0] == F64(words[0]) && point@[1] == F64(words[1]));
    }
}

} // verus!

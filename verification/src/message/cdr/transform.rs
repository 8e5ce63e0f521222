//! `tf2_msgs/msg/TFMessage`.

use crate::message::cdr::common::{
    self, finite_words, little_endian_output, push_stamp, push_string, push_u32, push_u64, CdrRead,
    DecodeError, DecodeFault, Endian, Reader,
};
use crate::message::float::F64;
use crate::message::time::MeasurementTime;
use vstd::prelude::*;
use vstd::utf8::*;

verus! {

#[derive(Clone, Debug, PartialEq)]
pub struct TransformStamped {
    pub measurement_time: MeasurementTime,
    pub frame_id: String,
    pub child_frame_id: String,
    pub translation: [F64; 3],
    /// Quaternion in ROS x, y, z, w order.
    pub rotation: [F64; 4],
}

/// The contents of a stamped transform; the rotation follows the translation in `numbers`.
pub struct TransformContent {
    pub measurement_time: MeasurementTime,
    pub frame_id: Seq<char>,
    pub child_frame_id: Seq<char>,
    pub numbers: Seq<F64>,
}

impl View for TransformStamped {
    type V = TransformContent;

    open spec fn view(&self) -> TransformContent {
        TransformContent {
            measurement_time: self.measurement_time,
            frame_id: self.frame_id@,
            child_frame_id: self.child_frame_id@,
            numbers: self.translation@ + self.rotation@,
        }
    }
}

/// The contents of each transform of a list.
pub open spec fn contents(transforms: Seq<TransformStamped>) -> Seq<TransformContent> {
    transforms.map_values(|transform: TransformStamped| transform@)
}

/// Most transforms that one message may hold.
pub const MAX_TRANSFORMS: usize = 1_000_000;

pub open spec fn all_finite(numbers: Seq<F64>) -> bool {
    forall|i: int| 0 <= i < numbers.len() ==> (#[trigger] numbers[i]).spec_finite()
}

/// A stamped transform. Each of its numbers must be finite.
#[verifier::opaque]
pub open spec fn read_transform(bytes: Seq<u8>, endian: Endian, position: int) -> CdrRead<
    TransformContent,
> {
    match common::read_stamp(bytes, endian, position) {
        Err(fault) => Err(fault),
        Ok((stamp, behind_stamp)) => match common::read_string(bytes, endian, behind_stamp) {
            Err(fault) => Err(fault),
            Ok((frame_id, behind_frame)) => match common::read_string(
                bytes,
                endian,
                behind_frame,
            ) {
                Err(fault) => Err(fault),
                Ok((child_frame_id, start)) => match common::read_many(
                    common::u64_reader(bytes, endian),
                    start,
                    7,
                ) {
                    Err(fault) => Err(fault),
                    Ok((words, end)) => {
                        let numbers = words.map_values(|word: u64| F64(word));
                        if all_finite(numbers) {
                            Ok(
                                (
                                    TransformContent {
                                        measurement_time: MeasurementTime(stamp),
                                        frame_id,
                                        child_frame_id,
                                        numbers,
                                    },
                                    end,
                                ),
                            )
                        } else {
                            Err(DecodeFault::InvalidLength)
                        }
                    },
                },
            },
        },
    }
}

/// The reader of one transform, for `read_many`.
pub open spec fn transform_reader(bytes: Seq<u8>, endian: Endian) -> spec_fn(int) -> CdrRead<
    TransformContent,
> {
    |position: int| read_transform(bytes, endian, position)
}

/// The transforms that a payload holds, or why it holds none.
pub open spec fn transforms_in(bytes: Seq<u8>) -> Result<Seq<TransformContent>, DecodeFault> {
    match common::encapsulation(bytes) {
        Err(fault) => Err(fault),
        Ok(endian) => match common::read_sequence_length(bytes, endian, 4, 64) {
            Err(fault) => Err(fault),
            Ok((count, start)) => if count > MAX_TRANSFORMS {
                Err(DecodeFault::InvalidLength)
            } else {
                match common::read_many(transform_reader(bytes, endian), start, count) {
                    Err(fault) => Err(fault),
                    Ok((transforms, _)) => Ok(transforms),
                }
            },
        },
    }
}

fn transform(reader: &mut Reader) -> (outcome: Result<TransformStamped, DecodeError>)
    requires
        old(reader).well_formed(),
    ensures
        final(reader).same_payload(old(reader)),
        outcome is Ok ==> final(reader).well_formed(),
        common::agrees(
            outcome,
            read_transform(old(reader).bytes@, old(reader).endian, old(reader).position as int),
            |value: TransformStamped, expected: TransformContent| value@ == expected,
            final(reader).position as int,
        ),
{
    reveal(read_transform);
    let stamp: i64 = reader.stamp()?;
    let frame_id: String = reader.string()?;
    let child_frame_id: String = reader.string()?;
    let words: Vec<u64> = reader.u64_sequence(7)?;
    let ghost numbers = words@.map_values(|word: u64| F64(word));
    let finite: bool = finite_words(&words, 0, 7);
    assert(finite == all_finite(numbers)) by {
        assert(forall|i: int| 0 <= i < 7 ==> #[trigger] numbers[i] == F64(words@[i]));
        if all_finite(numbers) {
            assert forall|i: int| 0 <= i < 7 implies F64(#[trigger] words@[i]).spec_finite() by {
                assert(numbers[i].spec_finite());
            }
        }
    }
    if !finite {
        return Err(DecodeError::InvalidLength);
    }
    let translation: [F64; 3] = [F64(words[0]), F64(words[1]), F64(words[2])];
    let rotation: [F64; 4] = [F64(words[3]), F64(words[4]), F64(words[5]), F64(words[6])];
    assert(translation@ + rotation@ =~= numbers);
    Ok(
        TransformStamped {
            measurement_time: MeasurementTime(stamp),
            frame_id,
            child_frame_id,
            translation,
            rotation,
        },
    )
}

fn transforms(reader: &mut Reader, count: usize) -> (outcome: Result<
    Vec<TransformStamped>,
    DecodeError,
>)
    requires
        old(reader).well_formed(),
    ensures
        common::agrees(
            outcome,
            common::read_many(
                transform_reader(old(reader).bytes@, old(reader).endian),
                old(reader).position as int,
                count as nat,
            ),
            |value: Vec<TransformStamped>, expected: Seq<TransformContent>|
                contents(value@) == expected,
            final(reader).position as int,
        ),
{
    let mut list: Vec<TransformStamped> = Vec::with_capacity(count);
    let ghost element = transform_reader(reader.bytes@, reader.endian);
    let ghost start = reader.position as int;
    let mut index: usize = 0;
    assert(contents(list@) =~= Seq::<TransformContent>::empty());
    while index < count
        invariant
            index <= count,
            reader.well_formed(),
            element == transform_reader(reader.bytes@, reader.endian),
            reader.same_payload(old(reader)),
            start == old(reader).position,
            common::read_many(element, start, index as nat) == Ok::<
                (Seq<TransformContent>, int),
                DecodeFault,
            >((contents(list@), reader.position as int)),
        decreases count - index,
    {
        match transform(reader) {
            Ok(value) => {
                let ghost before = list@;
                list.push(value);
                assert(contents(list@) =~= contents(before).push(value@));
            },
            Err(error) => {
                proof {
                    common::lemma_read_many_fails(
                        element,
                        start,
                        (index + 1) as nat,
                        count as nat,
                    );
                }
                return Err(error);
            },
        }
        index = index + 1;
    }
    Ok(list)
}

pub fn decode_tf_message(bytes: &[u8]) -> (outcome: Result<Vec<TransformStamped>, DecodeError>)
    ensures
        match outcome {
            Ok(list) => transforms_in(bytes@) == Ok::<Seq<TransformContent>, DecodeFault>(
                contents(list@),
            ),
            Err(error) => transforms_in(bytes@) == Err::<Seq<TransformContent>, DecodeFault>(
                error@,
            ),
        },
{
    let mut reader: Reader = Reader::new(bytes)?;
    let count: usize = reader.sequence_length(64)?;
    if count > MAX_TRANSFORMS {
        return Err(DecodeError::InvalidLength);
    }
    transforms(&mut reader, count)
}

/// The output with numbers behind it.
pub open spec fn with_numbers(output: Seq<u8>, numbers: Seq<F64>) -> Seq<u8>
    decreases numbers.len(),
{
    if numbers.len() == 0 {
        output
    } else {
        common::with_u64(with_numbers(output, numbers.drop_last()), numbers.last().0)
    }
}

/// The output with a transform behind it, or why it cannot be written.
#[verifier::opaque]
pub open spec fn with_transform(output: Seq<u8>, transform: TransformContent) -> Result<
    Seq<u8>,
    DecodeFault,
> {
    match common::stamped(output, transform.measurement_time.0) {
        Err(fault) => Err(fault),
        Ok(stamped) => if !common::text_fits(transform.frame_id) || !common::text_fits(
            transform.child_frame_id,
        ) || !all_finite(transform.numbers) {
            Err(DecodeFault::InvalidLength)
        } else {
            Ok(
                with_numbers(
                    common::with_string(
                        common::with_string(stamped, transform.frame_id),
                        transform.child_frame_id,
                    ),
                    transform.numbers,
                ),
            )
        },
    }
}

/// The output with a list of transforms behind it, or why one of them cannot be written.
pub open spec fn with_transforms(output: Seq<u8>, transforms: Seq<TransformContent>) -> Result<
    Seq<u8>,
    DecodeFault,
>
    decreases transforms.len(),
{
    if transforms.len() == 0 {
        Ok(output)
    } else {
        match with_transforms(output, transforms.drop_last()) {
            Err(fault) => Err(fault),
            Ok(front) => with_transform(front, transforms.last()),
        }
    }
}

/// The payload that holds a list of transforms, or why none can.
pub open spec fn encoded_transforms(transforms: Seq<TransformContent>) -> Result<
    Seq<u8>,
    DecodeFault,
> {
    if transforms.len() > u32::MAX {
        Err(DecodeFault::InvalidLength)
    } else {
        with_transforms(
            common::with_u32(common::little_endian_header(), transforms.len() as u32),
            transforms,
        )
    }
}

/// A list that cannot be written stays so when more follows.
proof fn lemma_with_transforms_fails(
    output: Seq<u8>,
    transforms: Seq<TransformContent>,
    count: int,
)
    requires
        0 <= count <= transforms.len(),
        with_transforms(output, transforms.take(count)) is Err,
    ensures
        with_transforms(output, transforms) == with_transforms(output, transforms.take(count)),
    decreases transforms.len() - count,
{
    if count < transforms.len() {
        assert(transforms.take(count + 1).drop_last() =~= transforms.take(count));
        lemma_with_transforms_fails(output, transforms, count + 1);
    } else {
        assert(transforms.take(count) =~= transforms);
    }
}

/// The output only grows.
pub(crate) proof fn lemma_with_numbers_extends(output: Seq<u8>, numbers: Seq<F64>)
    requires
        4 <= output.len(),
    ensures
        output.is_prefix_of(with_numbers(output, numbers)),
    decreases numbers.len(),
{
    if numbers.len() == 0 {
        assert(output =~= output.subrange(0, output.len() as int));
    } else {
        lemma_with_numbers_extends(output, numbers.drop_last());
        let front = with_numbers(output, numbers.drop_last());
        common::lemma_with_u64_extends(front, numbers.last().0);
        common::lemma_prefix_chain(output, front, with_numbers(output, numbers));
    }
}

/// Appends numbers, each of which must be finite.
fn push_numbers(output: &mut Vec<u8>, numbers: &[F64]) -> (outcome: Result<(), DecodeError>)
    requires
        4 <= old(output)@.len(),
    ensures
        4 <= final(output)@.len(),
        match outcome {
            Ok(_) => all_finite(numbers@) && final(output)@ == with_numbers(
                old(output)@,
                numbers@,
            ),
            Err(error) => !all_finite(numbers@) && error@ == DecodeFault::InvalidLength,
        },
{
    let mut index: usize = 0;
    assert(numbers@.take(0) =~= Seq::<F64>::empty());
    while index < numbers.len()
        invariant
            index <= numbers@.len(),
            4 <= old(output)@.len(),
            4 <= output@.len(),
            output@ == with_numbers(old(output)@, numbers@.take(index as int)),
            forall|i: int| 0 <= i < index ==> (#[trigger] numbers@[i]).spec_finite(),
        decreases numbers@.len() - index,
    {
        let value: F64 = numbers[index];
        if !value.is_finite() {
            assert(!numbers@[index as int].spec_finite());
            return Err(DecodeError::InvalidLength);
        }
        push_u64(output, value.0);
        proof {
            assert(numbers@.take(index + 1).drop_last() =~= numbers@.take(index as int));
            lemma_with_numbers_extends(old(output)@, numbers@.take(index + 1));
        }
        index = index + 1;
    }
    assert(numbers@.take(numbers@.len() as int) =~= numbers@);
    Ok(())
}

/// Writing one list of numbers behind another writes both.
pub(crate) proof fn lemma_with_numbers_append(output: Seq<u8>, first: Seq<F64>, second: Seq<F64>)
    ensures
        with_numbers(with_numbers(output, first), second) == with_numbers(output, first + second),
    decreases second.len(),
{
    if second.len() == 0 {
        assert(first + second =~= first);
    } else {
        lemma_with_numbers_append(output, first, second.drop_last());
        assert((first + second).drop_last() =~= first + second.drop_last());
    }
}

fn push_transform(output: &mut Vec<u8>, transform: &TransformStamped) -> (outcome: Result<
    (),
    DecodeError,
>)
    requires
        4 <= old(output)@.len(),
    ensures
        match outcome {
            Ok(_) => 4 <= final(output)@.len() && with_transform(old(output)@, transform@) == Ok::<
                Seq<u8>,
                DecodeFault,
            >(final(output)@),
            Err(error) => with_transform(old(output)@, transform@) == Err::<Seq<u8>, DecodeFault>(
                error@,
            ),
        },
{
    reveal(with_transform);
    push_stamp(output, transform.measurement_time.0)?;
    push_string(output, transform.frame_id.as_str())?;
    push_string(output, transform.child_frame_id.as_str())?;
    let ghost described = output@;
    proof {
        let numbers = transform@.numbers;
        assert(forall|i: int| 0 <= i < 3 ==> numbers[i] == transform.translation@[i]);
        assert(forall|i: int| 0 <= i < 4 ==> numbers[3 + i] == transform.rotation@[i]);
        assert(all_finite(numbers) ==> all_finite(transform.translation@)) by {
            if all_finite(numbers) {
                assert forall|i: int| 0 <= i < 3 implies (
                #[trigger] transform.translation@[i]).spec_finite() by {
                    assert(numbers[i].spec_finite());
                }
            }
        }
        assert(all_finite(numbers) ==> all_finite(transform.rotation@)) by {
            if all_finite(numbers) {
                assert forall|i: int| 0 <= i < 4 implies (
                #[trigger] transform.rotation@[i]).spec_finite() by {
                    assert(numbers[3 + i].spec_finite());
                }
            }
        }
    }
    push_numbers(output, transform.translation.as_slice())?;
    push_numbers(output, transform.rotation.as_slice())?;
    proof {
        lemma_with_numbers_append(described, transform.translation@, transform.rotation@);
    }
    Ok(())
}

fn push_transforms(output: &mut Vec<u8>, list: &[TransformStamped]) -> (outcome: Result<
    (),
    DecodeError,
>)
    requires
        4 <= old(output)@.len(),
    ensures
        match outcome {
            Ok(_) => with_transforms(old(output)@, contents(list@)) == Ok::<Seq<u8>, DecodeFault>(
                final(output)@,
            ),
            Err(error) => with_transforms(old(output)@, contents(list@)) == Err::<
                Seq<u8>,
                DecodeFault,
            >(error@),
        },
{
    let ghost start = output@;
    let ghost all = contents(list@);
    let mut index: usize = 0;
    assert(all.take(0) =~= Seq::<TransformContent>::empty());
    while index < list.len()
        invariant
            index <= list@.len(),
            start == old(output)@,
            all == contents(list@),
            4 <= output@.len(),
            with_transforms(start, all.take(index as int)) == Ok::<Seq<u8>, DecodeFault>(output@),
        decreases list@.len() - index,
    {
        proof {
            assert(all.take(index + 1).drop_last() =~= all.take(index as int));
        }
        match push_transform(output, &list[index]) {
            Ok(_) => {},
            Err(error) => {
                proof {
                    lemma_with_transforms_fails(start, all, index + 1);
                }
                return Err(error);
            },
        }
        index = index + 1;
    }
    assert(all.take(all.len() as int) =~= all);
    Ok(())
}

pub fn encode_tf_message_cdr(transforms: &[TransformStamped]) -> (outcome: Result<
    Vec<u8>,
    DecodeError,
>)
    ensures
        match outcome {
            Ok(output) => encoded_transforms(contents(transforms@)) == Ok::<Seq<u8>, DecodeFault>(
                output@,
            ),
            Err(error) => encoded_transforms(contents(transforms@)) == Err::<Seq<u8>, DecodeFault>(
                error@,
            ),
        },
{
    let mut output: Vec<u8> = little_endian_output();
    let count: usize = transforms.len();
    if count > u32::MAX as usize {
        return Err(DecodeError::InvalidLength);
    }
    push_u32(&mut output, count as u32);
    push_transforms(&mut output, transforms)?;
    Ok(output)
}

/// Numbers that were written are read back.
pub(crate) proof fn lemma_numbers_round_trip(output: Seq<u8>, numbers: Seq<F64>, bytes: Seq<u8>)
    requires
        4 <= output.len(),
        with_numbers(output, numbers).is_prefix_of(bytes),
        bytes.len() <= usize::MAX,
    ensures
        common::read_many(
            common::u64_reader(bytes, Endian::Little),
            output.len() as int,
            numbers.len(),
        ) == Ok::<(Seq<u64>, int), DecodeFault>(
            (
                numbers.map_values(|number: F64| number.0),
                with_numbers(output, numbers).len() as int,
            ),
        ),
    decreases numbers.len(),
{
    if numbers.len() == 0 {
        assert(numbers.map_values(|number: F64| number.0) =~= Seq::<u64>::empty());
    } else {
        let front = with_numbers(output, numbers.drop_last());
        lemma_with_numbers_extends(output, numbers.drop_last());
        common::lemma_with_u64_extends(front, numbers.last().0);
        common::lemma_prefix_chain(front, with_numbers(output, numbers), bytes);
        lemma_numbers_round_trip(output, numbers.drop_last(), bytes);
        common::lemma_u64_round_trip(front, numbers.last().0, bytes);
        assert(numbers.map_values(|number: F64| number.0) =~= numbers.drop_last().map_values(
            |number: F64| number.0,
        ).push(numbers.last().0));
    }
}

/// A decoder accepts the strings of a transform, which has a translation and a rotation.
pub open spec fn decodable(transform: TransformContent) -> bool {
    &&& transform.numbers.len() == 7
    &&& encode_utf8(transform.frame_id).len() + 1 <= common::MAX_FIELD_BYTES
    &&& encode_utf8(transform.child_frame_id).len() + 1 <= common::MAX_FIELD_BYTES
}

/// A transform that was written is read back, and takes at least 64 bytes.
proof fn lemma_transform_round_trip(output: Seq<u8>, transform: TransformContent, bytes: Seq<u8>)
    requires
        4 <= output.len(),
        decodable(transform),
        with_transform(output, transform) is Ok,
        with_transform(output, transform)->Ok_0.is_prefix_of(bytes),
        bytes.len() <= usize::MAX,
    ensures
        output.is_prefix_of(bytes),
        output.len() + 64 <= with_transform(output, transform)->Ok_0.len(),
        read_transform(bytes, Endian::Little, output.len() as int) == Ok::<
            (TransformContent, int),
            DecodeFault,
        >((transform, with_transform(output, transform)->Ok_0.len() as int)),
{
    reveal(with_transform);
    reveal(read_transform);
    let nanos = transform.measurement_time.0;
    let stamped = common::stamped(output, nanos)->Ok_0;
    let framed = common::with_string(stamped, transform.frame_id);
    let named = common::with_string(framed, transform.child_frame_id);
    let written = with_numbers(named, transform.numbers);
    common::lemma_stamped_extends(output, nanos);
    common::lemma_with_string_extends(stamped, transform.frame_id);
    common::lemma_with_string_extends(framed, transform.child_frame_id);
    lemma_with_numbers_extends(named, transform.numbers);
    common::lemma_prefix_chain(named, written, bytes);
    common::lemma_prefix_chain(framed, named, bytes);
    common::lemma_prefix_chain(stamped, framed, bytes);
    common::lemma_stamp_round_trip(output, nanos, bytes);
    common::lemma_string_round_trip(stamped, transform.frame_id, bytes);
    common::lemma_string_round_trip(framed, transform.child_frame_id, bytes);
    lemma_numbers_round_trip(named, transform.numbers, bytes);
    lemma_numbers_take_room(named, transform.numbers);
    let words = transform.numbers.map_values(|number: F64| number.0);
    assert(words.map_values(|word: u64| F64(word)) =~= transform.numbers);
}

pub(crate) proof fn lemma_numbers_take_room(output: Seq<u8>, numbers: Seq<F64>)
    requires
        4 <= output.len(),
    ensures
        output.len() + 8 * numbers.len() <= with_numbers(output, numbers).len(),
    decreases numbers.len(),
{
    if numbers.len() > 0 {
        lemma_numbers_take_room(output, numbers.drop_last());
        common::lemma_with_u64_extends(
            with_numbers(output, numbers.drop_last()),
            numbers.last().0,
        );
    }
}

/// Transforms that were written are read back.
proof fn lemma_transforms_round_trip(
    output: Seq<u8>,
    transforms: Seq<TransformContent>,
    bytes: Seq<u8>,
)
    requires
        4 <= output.len(),
        forall|i: int| 0 <= i < transforms.len() ==> decodable(#[trigger] transforms[i]),
        with_transforms(output, transforms) is Ok,
        with_transforms(output, transforms)->Ok_0.is_prefix_of(bytes),
        bytes.len() <= usize::MAX,
    ensures
        output.is_prefix_of(bytes),
        output.len() + 64 * transforms.len() <= with_transforms(output, transforms)->Ok_0.len(),
        common::read_many(
            transform_reader(bytes, Endian::Little),
            output.len() as int,
            transforms.len(),
        ) == Ok::<(Seq<TransformContent>, int), DecodeFault>(
            (transforms, with_transforms(output, transforms)->Ok_0.len() as int),
        ),
    decreases transforms.len(),
{
    if transforms.len() == 0 {
        assert(transforms =~= Seq::<TransformContent>::empty());
    } else {
        let front = with_transforms(output, transforms.drop_last())->Ok_0;
        lemma_with_transforms_extends(output, transforms.drop_last());
        lemma_transform_round_trip(front, transforms.last(), bytes);
        lemma_transforms_round_trip(output, transforms.drop_last(), bytes);
        assert(transforms =~= transforms.drop_last().push(transforms.last()));
    }
}

proof fn lemma_with_transforms_extends(output: Seq<u8>, transforms: Seq<TransformContent>)
    requires
        4 <= output.len(),
        with_transforms(output, transforms) is Ok,
    ensures
        output.len() <= with_transforms(output, transforms)->Ok_0.len(),
    decreases transforms.len(),
{
    if transforms.len() > 0 {
        lemma_with_transforms_extends(output, transforms.drop_last());
        reveal(with_transform);
        let front = with_transforms(output, transforms.drop_last())->Ok_0;
        let transform = transforms.last();
        let nanos = transform.measurement_time.0;
        common::lemma_stamped_extends(front, nanos);
        let stamped = common::stamped(front, nanos)->Ok_0;
        let framed = common::with_string(stamped, transform.frame_id);
        common::lemma_with_string_extends(stamped, transform.frame_id);
        common::lemma_with_string_extends(framed, transform.child_frame_id);
        lemma_numbers_take_room(
            common::with_string(framed, transform.child_frame_id),
            transform.numbers,
        );
    }
}

/// Decoding an encoded list of transforms gives the list back, where it is no longer and its
/// strings are no longer than a decoder accepts.
pub proof fn law_transforms_round_trip(transforms: Seq<TransformContent>)
    requires
        transforms.len() <= MAX_TRANSFORMS,
        forall|i: int| 0 <= i < transforms.len() ==> decodable(#[trigger] transforms[i]),
        encoded_transforms(transforms) is Ok,
        encoded_transforms(transforms)->Ok_0.len() <= usize::MAX,
    ensures
        transforms_in(encoded_transforms(transforms)->Ok_0) == Ok::<
            Seq<TransformContent>,
            DecodeFault,
        >(transforms),
{
    let header = common::little_endian_header();
    let counted = common::with_u32(header, transforms.len() as u32);
    let bytes = encoded_transforms(transforms)->Ok_0;
    assert(bytes =~= bytes.subrange(0, bytes.len() as int));
    common::lemma_with_u32_extends(header, transforms.len() as u32);
    lemma_transforms_round_trip(counted, transforms, bytes);
    common::lemma_prefix_chain(header, counted, bytes);
    common::lemma_u32_round_trip(header, transforms.len() as u32, bytes);
    assert(transforms.len() <= (bytes.len() - counted.len()) / 64);
}

/// A transform is written as its time stamp, the name of its frame and that of its child frame, then
/// its translation x, y, z and its rotation x, y, z, w.
pub proof fn law_transforms_are_written_in_order(output: Seq<u8>, transform: TransformStamped)
    requires
        i32::MIN <= transform.measurement_time.0 as int / 1_000_000_000 <= i32::MAX,
        common::text_fits(transform.frame_id@),
        common::text_fits(transform.child_frame_id@),
        all_finite(transform.translation@),
        all_finite(transform.rotation@),
    ensures
        with_transform(output, transform@) == Ok::<Seq<u8>, DecodeFault>(
            with_numbers(
                with_numbers(
                    common::with_string(
                        common::with_string(
                            common::stamped(output, transform.measurement_time.0)->Ok_0,
                            transform.frame_id@,
                        ),
                        transform.child_frame_id@,
                    ),
                    transform.translation@,
                ),
                transform.rotation@,
            ),
        ),
{
    reveal(with_transform);
    let named = common::with_string(
        common::with_string(
            common::stamped(output, transform.measurement_time.0)->Ok_0,
            transform.frame_id@,
        ),
        transform.child_frame_id@,
    );
    lemma_with_numbers_append(named, transform.translation@, transform.rotation@);
    let numbers = transform.translation@ + transform.rotation@;
    assert forall|i: int| 0 <= i < numbers.len() implies (
    #[trigger] numbers[i]).spec_finite() by {
        if i < 3 {
            assert(numbers[i] == transform.translation@[i]);
        } else {
            assert(numbers[i] == transform.rotation@[i - 3]);
        }
    }
}

/// Transforms that were sent are read back, each number in its place.
#[verifier::rlimit(60)]
pub proof fn law_transforms_are_read_back(
    sent: Seq<TransformStamped>,
    read: Seq<TransformStamped>,
    index: int,
)
    requires
        sent.len() <= MAX_TRANSFORMS,
        forall|i: int| 0 <= i < sent.len() ==> decodable((#[trigger] sent[i])@),
        encoded_transforms(contents(sent)) is Ok,
        encoded_transforms(contents(sent))->Ok_0.len() <= usize::MAX,
        transforms_in(encoded_transforms(contents(sent))->Ok_0) == Ok::<
            Seq<TransformContent>,
            DecodeFault,
        >(contents(read)),
        0 <= index < sent.len(),
    ensures
        read.len() == sent.len(),
        read[index].measurement_time == sent[index].measurement_time,
        read[index].frame_id@ == sent[index].frame_id@,
        read[index].child_frame_id@ == sent[index].child_frame_id@,
        read[index].translation@ == sent[index].translation@,
        read[index].rotation@ == sent[index].rotation@,
{
    let list = contents(sent);
    assert forall|i: int| 0 <= i < list.len() implies decodable(#[trigger] list[i]) by {
        assert(list[i] == sent[i]@);
    }
    law_transforms_round_trip(list);
    assert(contents(read) == list);
    assert(contents(read).len() == read.len());
    assert(contents(read)[index] == read[index]@ && list[index] == sent[index]@);
    let one = read[index].translation@ + read[index].rotation@;
    let two = sent[index].translation@ + sent[index].rotation@;
    assert(one == two);
    assert forall|i: int| 0 <= i < 3 implies read[index].translation@[i]
        == sent[index].translation@[i] by {
        assert(one[i] == two[i]);
    }
    assert forall|i: int| 0 <= i < 4 implies read[index].rotation@[i]
        == sent[index].rotation@[i] by {
        assert(one[3 + i] == two[3 + i]);
    }
    assert(read[index].translation@ =~= sent[index].translation@);
    assert(read[index].rotation@ =~= sent[index].rotation@);
}

/// Whatever its byte order, a transform that is read ends with its translation x, y, z and its rotation
/// x, y, z, w.
#[verifier::rlimit(60)]
pub proof fn law_transforms_stand_in_their_bytes(
    bytes: Seq<u8>,
    position: int,
    transform: TransformStamped,
    end: int,
)
    requires
        4 <= position,
        common::encapsulation(bytes) is Ok,
        read_transform(bytes, common::encapsulation(bytes)->Ok_0, position) == Ok::<
            (TransformContent, int),
            DecodeFault,
        >((transform@, end)),
    ensures
        end % 8 == 4,
        common::stand_at(bytes, end - 8 * 7, transform.translation@),
        common::stand_at(bytes, end - 8 * 4, transform.rotation@),
{
    let endian = common::order_of(bytes);
    let place = lemma_read_numbers(bytes, position, transform, end);
    let (words, _) = common::read_many(common::u64_reader(bytes, endian), place, 7)->Ok_0;
    let start = common::aligned(place, 8);
    common::lemma_many_u64(bytes, endian, place, 7);
    common::lemma_part_stands(bytes, start, words, 0, transform.translation@);
    common::lemma_part_stands(bytes, start, words, 3, transform.rotation@);
}

/// Where the numbers of a transform start.
#[verifier::rlimit(60)]
proof fn lemma_read_numbers(
    bytes: Seq<u8>,
    position: int,
    transform: TransformStamped,
    end: int,
) -> (place: int)
    requires
        4 <= position,
        common::encapsulation(bytes) is Ok,
        read_transform(bytes, common::encapsulation(bytes)->Ok_0, position) == Ok::<
            (TransformContent, int),
            DecodeFault,
        >((transform@, end)),
    ensures
        4 <= place,
        ({
            let read = common::read_many(
                common::u64_reader(bytes, common::order_of(bytes)),
                place,
                7,
            );
            &&& read is Ok
            &&& read->Ok_0.1 == end
            &&& forall|i: int|
                0 <= i < 3 ==> (#[trigger] transform.translation@[i]).0 == read->Ok_0.0[0 + i]
            &&& forall|i: int|
                0 <= i < 4 ==> (#[trigger] transform.rotation@[i]).0 == read->Ok_0.0[3 + i]
        }),
{
    reveal(read_transform);
    let endian = common::encapsulation(bytes)->Ok_0;
    let behind_stamp = common::read_stamp(bytes, endian, position)->Ok_0.1;
    let behind_frame = common::read_string(bytes, endian, behind_stamp)->Ok_0.1;
    let place = common::read_string(bytes, endian, behind_frame)->Ok_0.1;
    common::lemma_reads_go_on(bytes, endian, position);
    common::lemma_reads_go_on(bytes, endian, behind_stamp);
    common::lemma_reads_go_on(bytes, endian, behind_frame);
    let reader = common::u64_reader(bytes, endian);
    common::lemma_read_many_length(reader, place, 7);
    let (words, _) = common::read_many(reader, place, 7)->Ok_0;
    let numbers = transform.translation@ + transform.rotation@;
    assert(numbers == words.map_values(|word: u64| F64(word)));
    assert(endian == common::order_of(bytes));
    assert forall|i: int| 0 <= i < 3 implies (#[trigger] transform.translation@[i]).0
        == words[0 + i] by {
        assert(numbers[i] == F64(words[i]));
    }
    assert forall|i: int| 0 <= i < 4 implies (#[trigger] transform.rotation@[i]).0
        == words[3 + i] by {
        assert(numbers[3 + i] == F64(words[3 + i]));
    }
    place
}

} // verus!

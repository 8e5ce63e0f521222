//! The reader and the writer that every codec is built from.

use crate::message::float::F64;
use crate::message::time::split_seconds;
use vstd::prelude::*;
use vstd::string::*;
use vstd::utf8::*;

verus! {

/// Longest field or sequence that a payload may announce.
pub const MAX_FIELD_BYTES: usize = 67_108_864;

/// The bytes of the encapsulation header, from which alignment is counted.
pub const HEADER_BYTES: usize = 4;

#[derive(Clone, Debug, Eq, PartialEq)]
pub enum DecodeError {
    Truncated,
    InvalidEncapsulation,
    InvalidLength,
    InvalidUtf8,
    InvalidTimestamp,
    UnsupportedFormat(String),
}

/// What a `DecodeError` says, with text as a sequence of characters.
pub enum DecodeFault {
    Truncated,
    InvalidEncapsulation,
    InvalidLength,
    InvalidUtf8,
    InvalidTimestamp,
    UnsupportedFormat(Seq<char>),
}

impl View for DecodeError {
    type V = DecodeFault;

    open spec fn view(&self) -> DecodeFault {
        match *self {
            DecodeError::Truncated => DecodeFault::Truncated,
            DecodeError::InvalidEncapsulation => DecodeFault::InvalidEncapsulation,
            DecodeError::InvalidLength => DecodeFault::InvalidLength,
            DecodeError::InvalidUtf8 => DecodeFault::InvalidUtf8,
            DecodeError::InvalidTimestamp => DecodeFault::InvalidTimestamp,
            DecodeError::UnsupportedFormat(value) => DecodeFault::UnsupportedFormat(value@),
        }
    }
}

impl DecodeError {
    /// The text that describes a fault.
    pub open spec fn spec_message(fault: DecodeFault) -> Seq<char> {
        match fault {
            DecodeFault::Truncated => "truncated CDR payload"@,
            DecodeFault::InvalidEncapsulation => "unsupported CDR encapsulation"@,
            DecodeFault::InvalidLength => "invalid or excessive CDR field length"@,
            DecodeFault::InvalidUtf8 => "CDR string is not UTF-8"@,
            DecodeFault::InvalidTimestamp => "invalid ROS timestamp"@,
            DecodeFault::UnsupportedFormat(value) => "unsupported image format: "@ + value,
        }
    }

    /// The error as a sentence for the user.
    pub fn message(&self) -> (text: String)
        ensures
            text@ == Self::spec_message(self@),
    {
        match self {
            DecodeError::Truncated => "truncated CDR payload".to_owned(),
            DecodeError::InvalidEncapsulation => "unsupported CDR encapsulation".to_owned(),
            DecodeError::InvalidLength => "invalid or excessive CDR field length".to_owned(),
            DecodeError::InvalidUtf8 => "CDR string is not UTF-8".to_owned(),
            DecodeError::InvalidTimestamp => "invalid ROS timestamp".to_owned(),
            DecodeError::UnsupportedFormat(value) => {
                let mut text: String = "unsupported image format: ".to_owned();
                text.append(value.as_str());
                text
            },
        }
    }
}

/// What is read at a position together with the position behind it, or why it cannot be read.
pub type CdrRead<T> = Result<(T, int), DecodeFault>;

#[derive(Clone, Copy, Debug, PartialEq, Eq, Structural)]
pub enum Endian {
    Little,
    Big,
}

/// The byte order that the encapsulation header announces.
pub open spec fn encapsulation(bytes: Seq<u8>) -> Result<Endian, DecodeFault> {
    if bytes.len() < 4 {
        Err(DecodeFault::Truncated)
    } else if bytes[0] == 0 && (bytes[1] == 0 || bytes[1] == 2) {
        Ok(Endian::Big)
    } else if bytes[0] == 0 && (bytes[1] == 1 || bytes[1] == 3) {
        Ok(Endian::Little)
    } else {
        Err(DecodeFault::InvalidEncapsulation)
    }
}

/// The first position at or behind `position` that is aligned, counted from the header's end.
pub open spec fn aligned(position: int, alignment: int) -> int {
    position + (alignment - (position - 4) % alignment) % alignment
}

/// Where the `length` bytes at `position` end.
pub open spec fn field_end(bytes: Seq<u8>, position: int, length: int) -> Result<int, DecodeFault> {
    if position + length > usize::MAX {
        Err(DecodeFault::InvalidLength)
    } else if position + length > bytes.len() {
        Err(DecodeFault::Truncated)
    } else {
        Ok(position + length)
    }
}

/// Where an aligned field of `alignment` bytes starts.
pub open spec fn field_start(bytes: Seq<u8>, position: int, alignment: int) -> Result<
    int,
    DecodeFault,
> {
    field_end(bytes, position, aligned(position, alignment) - position)
}

/// The number that four bytes hold.
pub open spec fn word32(bytes: Seq<u8>, start: int, endian: Endian) -> u32 {
    match endian {
        Endian::Little => (bytes[start] + bytes[start + 1] * 0x100 + bytes[start + 2] * 0x1_0000
            + bytes[start + 3] * 0x100_0000) as u32,
        Endian::Big => (bytes[start + 3] + bytes[start + 2] * 0x100 + bytes[start + 1] * 0x1_0000
            + bytes[start] * 0x100_0000) as u32,
    }
}

/// The number that eight bytes hold.
pub open spec fn word64(bytes: Seq<u8>, start: int, endian: Endian) -> u64 {
    match endian {
        Endian::Little => (word32(bytes, start, endian) + word32(bytes, start + 4, endian)
            * 0x1_0000_0000) as u64,
        Endian::Big => (word32(bytes, start + 4, endian) + word32(bytes, start, endian)
            * 0x1_0000_0000) as u64,
    }
}

pub open spec fn read_u32(bytes: Seq<u8>, endian: Endian, position: int) -> CdrRead<u32> {
    match field_start(bytes, position, 4) {
        Err(fault) => Err(fault),
        Ok(start) => match field_end(bytes, start, 4) {
            Err(fault) => Err(fault),
            Ok(end) => Ok((word32(bytes, start, endian), end)),
        },
    }
}

pub open spec fn read_u64(bytes: Seq<u8>, endian: Endian, position: int) -> CdrRead<u64> {
    match field_start(bytes, position, 8) {
        Err(fault) => Err(fault),
        Ok(start) => match field_end(bytes, start, 8) {
            Err(fault) => Err(fault),
            Ok(end) => Ok((word64(bytes, start, endian), end)),
        },
    }
}

/// A `u32` read as two's complement.
pub open spec fn as_signed(value: u32) -> int {
    if value < 0x8000_0000 {
        value as int
    } else {
        value - 0x1_0000_0000
    }
}

/// A length field within the limit.
pub open spec fn read_length(bytes: Seq<u8>, endian: Endian, position: int) -> CdrRead<nat> {
    match read_u32(bytes, endian, position) {
        Err(fault) => Err(fault),
        Ok((length, end)) => if length > MAX_FIELD_BYTES {
            Err(DecodeFault::InvalidLength)
        } else {
            Ok((length as nat, end))
        },
    }
}

/// An element count for which the bytes that follow can be enough.
pub open spec fn read_sequence_length(
    bytes: Seq<u8>,
    endian: Endian,
    position: int,
    minimum_element_bytes: int,
) -> CdrRead<nat> {
    match read_length(bytes, endian, position) {
        Err(fault) => Err(fault),
        Ok((length, end)) => if length > (bytes.len() - end) / minimum_element_bytes {
            Err(DecodeFault::InvalidLength)
        } else {
            Ok((length, end))
        },
    }
}

/// A string: its length with the final zero, its UTF-8 bytes, the zero.
pub open spec fn read_string(bytes: Seq<u8>, endian: Endian, position: int) -> CdrRead<Seq<char>> {
    match read_length(bytes, endian, position) {
        Err(fault) => Err(fault),
        Ok((length, start)) => if length == 0 {
            Err(DecodeFault::InvalidLength)
        } else {
            match field_end(bytes, start, length as int) {
                Err(fault) => Err(fault),
                Ok(end) => if bytes[end - 1] != 0 {
                    Err(DecodeFault::InvalidLength)
                } else if !valid_utf8(bytes.subrange(start, end - 1)) {
                    Err(DecodeFault::InvalidUtf8)
                } else {
                    Ok((decode_utf8(bytes.subrange(start, end - 1)), end))
                },
            }
        },
    }
}

/// A ROS time stamp, in nanoseconds.
pub open spec fn read_stamp(bytes: Seq<u8>, endian: Endian, position: int) -> CdrRead<i64> {
    match read_u32(bytes, endian, position) {
        Err(fault) => Err(fault),
        Ok((seconds, middle)) => match read_u32(bytes, endian, middle) {
            Err(fault) => Err(fault),
            Ok((nanos, end)) => if nanos >= 1_000_000_000 {
                Err(DecodeFault::InvalidTimestamp)
            } else {
                Ok(((as_signed(seconds) * 1_000_000_000 + nanos) as i64, end))
            },
        },
    }
}

/// `count` elements that follow one another.
pub open spec fn read_many<T>(
    element: spec_fn(int) -> CdrRead<T>,
    position: int,
    count: nat,
) -> CdrRead<Seq<T>>
    decreases count,
{
    if count == 0 {
        Ok((Seq::empty(), position))
    } else {
        match read_many(element, position, (count - 1) as nat) {
            Err(fault) => Err(fault),
            Ok((front, middle)) => match element(middle) {
                Err(fault) => Err(fault),
                Ok((last, end)) => Ok((front.push(last), end)),
            },
        }
    }
}

/// The reader of one `u64`, for `read_many`.
pub open spec fn u64_reader(bytes: Seq<u8>, endian: Endian) -> spec_fn(int) -> CdrRead<u64> {
    |position: int| read_u64(bytes, endian, position)
}

/// The reader of one `u32`, for `read_many`.
pub open spec fn u32_reader(bytes: Seq<u8>, endian: Endian) -> spec_fn(int) -> CdrRead<u32> {
    |position: int| read_u32(bytes, endian, position)
}

/// A read that fails on some elements fails in the same way on more of them.
pub proof fn lemma_read_many_fails<T>(
    element: spec_fn(int) -> CdrRead<T>,
    position: int,
    few: nat,
    many: nat,
)
    requires
        few <= many,
        read_many(element, position, few) is Err,
    ensures
        read_many(element, position, many) == read_many(element, position, few),
    decreases many,
{
    if few < many {
        lemma_read_many_fails(element, position, few, (many - 1) as nat);
    }
}

/// As many elements come back as were asked for.
pub proof fn lemma_read_many_length<T>(
    element: spec_fn(int) -> CdrRead<T>,
    position: int,
    count: nat,
)
    ensures
        read_many(element, position, count) is Ok ==> read_many(
            element,
            position,
            count,
        )->Ok_0.0.len() == count,
    decreases count,
{
    if count > 0 {
        lemma_read_many_length(element, position, (count - 1) as nat);
    }
}

/// The outcome of a read agrees with what the bytes say.
pub open spec fn agrees<T, U>(
    outcome: Result<T, DecodeError>,
    expected: CdrRead<U>,
    same: spec_fn(T, U) -> bool,
    position: int,
) -> bool {
    match outcome {
        Ok(value) => expected is Ok && same(value, expected->Ok_0.0) && position
            == expected->Ok_0.1,
        Err(error) => expected == Err::<(U, int), DecodeFault>(error@),
    }
}

/// `std::str::Utf8Error`, the error of `std::str::from_utf8`.
#[verifier::external_type_specification]
#[verifier::external_body]
pub struct ExUtf8Error(core::str::Utf8Error);

/// `std::str::from_utf8`: the bytes as text exactly where they are valid UTF-8.
pub assume_specification[ core::str::from_utf8 ](v: &[u8]) -> (decoded: Result<
    &str,
    core::str::Utf8Error,
>)
    ensures
        decoded is Ok <==> valid_utf8(v@),
        decoded is Ok ==> decoded->Ok_0@ == decode_utf8(v@),
;

/// A position in a CDR payload.
pub struct Reader<'a> {
    pub bytes: &'a [u8],
    pub position: usize,
    pub endian: Endian,
}

impl<'a> Reader<'a> {
    /// The position stands behind the header and within the payload.
    pub open spec fn well_formed(&self) -> bool {
        4 <= self.position <= self.bytes@.len()
    }

    /// Another reader of the same payload.
    pub open spec fn same_payload(&self, other: &Self) -> bool {
        self.bytes == other.bytes && self.endian == other.endian
    }

    pub fn new(bytes: &'a [u8]) -> (reader: Result<Self, DecodeError>)
        ensures
            match reader {
                Ok(value) => value.well_formed() && value.position == 4 && value.bytes == bytes
                    && encapsulation(bytes@) == Ok::<Endian, DecodeFault>(value.endian),
                Err(error) => encapsulation(bytes@) == Err::<Endian, DecodeFault>(error@),
            },
    {
        if bytes.len() < HEADER_BYTES {
            return Err(DecodeError::Truncated);
        }
        let first: u8 = bytes[0];
        let second: u8 = bytes[1];
        let endian = if first == 0 && (second == 0 || second == 2) {
            Endian::Big
        } else if first == 0 && (second == 1 || second == 3) {
            Endian::Little
        } else {
            return Err(DecodeError::InvalidEncapsulation);
        };
        Ok(Reader { bytes, position: HEADER_BYTES, endian })
    }

    fn align(&mut self, alignment: usize) -> (outcome: Result<(), DecodeError>)
        requires
            old(self).well_formed(),
            0 < alignment,
        ensures
            final(self).same_payload(old(self)),
            match outcome {
                Ok(_) => final(self).well_formed() && field_start(
                    old(self).bytes@,
                    old(self).position as int,
                    alignment as int,
                ) == Ok::<int, DecodeFault>(final(self).position as int),
                Err(error) => field_start(
                    old(self).bytes@,
                    old(self).position as int,
                    alignment as int,
                ) == Err::<int, DecodeFault>(error@),
            },
    {
        let relative: usize = self.position - HEADER_BYTES;
        let rest: usize = relative % alignment;
        let padding: usize = (alignment - rest) % alignment;
        self.take(padding)?;
        Ok(())
    }

    pub fn take(&mut self, length: usize) -> (outcome: Result<&'a [u8], DecodeError>)
        requires
            old(self).well_formed(),
        ensures
            final(self).same_payload(old(self)),
            match outcome {
                Ok(taken) => final(self).well_formed() && field_end(
                    old(self).bytes@,
                    old(self).position as int,
                    length as int,
                ) == Ok::<int, DecodeFault>(final(self).position as int) && taken@ == old(self).bytes@.subrange(old(self).position as int, final(self).position as int),
                Err(error) => field_end(
                    old(self).bytes@,
                    old(self).position as int,
                    length as int,
                ) == Err::<int, DecodeFault>(error@),
            },
    {
        let end: usize = match self.position.checked_add(length) {
            Some(end) => end,
            None => return Err(DecodeError::InvalidLength),
        };
        if end > self.bytes.len() {
            return Err(DecodeError::Truncated);
        }
        let taken = vstd::slice::slice_subrange(self.bytes, self.position, end);
        self.position = end;
        Ok(taken)
    }

    pub fn u32(&mut self) -> (outcome: Result<u32, DecodeError>)
        requires
            old(self).well_formed(),
        ensures
            final(self).same_payload(old(self)),
            outcome is Ok ==> final(self).well_formed(),
            agrees(
                outcome,
                read_u32(old(self).bytes@, old(self).endian, old(self).position as int),
                |value: u32, expected: u32| value == expected,
                final(self).position as int,
            ),
    {
        self.align(4)?;
        let raw: &[u8] = self.take(4)?;
        Ok(word(raw, 0, self.endian == Endian::Little))
    }

    pub fn u64(&mut self) -> (outcome: Result<u64, DecodeError>)
        requires
            old(self).well_formed(),
        ensures
            final(self).same_payload(old(self)),
            outcome is Ok ==> final(self).well_formed(),
            agrees(
                outcome,
                read_u64(old(self).bytes@, old(self).endian, old(self).position as int),
                |value: u64, expected: u64| value == expected,
                final(self).position as int,
            ),
    {
        self.align(8)?;
        let raw: &[u8] = self.take(8)?;
        let little: bool = self.endian == Endian::Little;
        let first: u32 = word(raw, 0, little);
        let second: u32 = word(raw, 4, little);
        if little {
            Ok(first as u64 + second as u64 * 0x1_0000_0000)
        } else {
            Ok(second as u64 + first as u64 * 0x1_0000_0000)
        }
    }

    pub fn i32(&mut self) -> (outcome: Result<i32, DecodeError>)
        requires
            old(self).well_formed(),
        ensures
            final(self).same_payload(old(self)),
            outcome is Ok ==> final(self).well_formed(),
            agrees(
                outcome,
                read_u32(old(self).bytes@, old(self).endian, old(self).position as int),
                |value: i32, expected: u32| value == as_signed(expected),
                final(self).position as int,
            ),
    {
        let value: u32 = self.u32()?;
        if value < 0x8000_0000 {
            Ok(value as i32)
        } else {
            Ok((value - 0x8000_0000) as i32 - 0x7fff_ffff - 1)
        }
    }

    pub fn length(&mut self) -> (outcome: Result<usize, DecodeError>)
        requires
            old(self).well_formed(),
        ensures
            final(self).same_payload(old(self)),
            outcome is Ok ==> final(self).well_formed(),
            agrees(
                outcome,
                read_length(old(self).bytes@, old(self).endian, old(self).position as int),
                |value: usize, expected: nat| value == expected,
                final(self).position as int,
            ),
    {
        let length: u32 = self.u32()?;
        if length as usize > MAX_FIELD_BYTES {
            return Err(DecodeError::InvalidLength);
        }
        Ok(length as usize)
    }

    pub fn sequence_length(&mut self, minimum_element_bytes: usize) -> (outcome: Result<
        usize,
        DecodeError,
    >)
        requires
            old(self).well_formed(),
            0 < minimum_element_bytes,
        ensures
            final(self).same_payload(old(self)),
            outcome is Ok ==> final(self).well_formed(),
            agrees(
                outcome,
                read_sequence_length(
                    old(self).bytes@,
                    old(self).endian,
                    old(self).position as int,
                    minimum_element_bytes as int,
                ),
                |value: usize, expected: nat| value == expected,
                final(self).position as int,
            ),
    {
        let length: usize = self.length()?;
        let remaining: usize = self.bytes.len() - self.position;
        if length > remaining / minimum_element_bytes {
            return Err(DecodeError::InvalidLength);
        }
        Ok(length)
    }

    pub fn string(&mut self) -> (outcome: Result<String, DecodeError>)
        requires
            old(self).well_formed(),
        ensures
            final(self).same_payload(old(self)),
            outcome is Ok ==> final(self).well_formed(),
            agrees(
                outcome,
                read_string(old(self).bytes@, old(self).endian, old(self).position as int),
                |value: String, expected: Seq<char>| value@ == expected,
                final(self).position as int,
            ),
    {
        let length: usize = self.length()?;
        if length == 0 {
            return Err(DecodeError::InvalidLength);
        }
        let ghost start = self.position as int;
        let taken: &[u8] = self.take(length)?;
        if taken[length - 1] != 0 {
            return Err(DecodeError::InvalidLength);
        }
        let content: &[u8] = vstd::slice::slice_subrange(taken, 0, length - 1);
        assert(content@ =~= self.bytes@.subrange(start, start + length - 1));
        match core::str::from_utf8(content) {
            Ok(text) => Ok(text.to_owned()),
            Err(_) => Err(DecodeError::InvalidUtf8),
        }
    }

    /// A time stamp of whole seconds and nanoseconds below one second.
    pub fn stamp(&mut self) -> (outcome: Result<i64, DecodeError>)
        requires
            old(self).well_formed(),
        ensures
            final(self).same_payload(old(self)),
            outcome is Ok ==> final(self).well_formed(),
            agrees(
                outcome,
                read_stamp(old(self).bytes@, old(self).endian, old(self).position as int),
                |value: i64, expected: i64| value == expected,
                final(self).position as int,
            ),
    {
        let seconds: i32 = self.i32()?;
        let nanos: u32 = self.u32()?;
        if nanos >= 1_000_000_000 {
            return Err(DecodeError::InvalidTimestamp);
        }
        Ok(seconds as i64 * 1_000_000_000 + nanos as i64)
    }

    /// `count` numbers of eight bytes each.
    pub fn u64_sequence(&mut self, count: usize) -> (outcome: Result<Vec<u64>, DecodeError>)
        requires
            old(self).well_formed(),
        ensures
            final(self).same_payload(old(self)),
            outcome is Ok ==> final(self).well_formed(),
            agrees(
                outcome,
                read_many(
                    u64_reader(old(self).bytes@, old(self).endian),
                    old(self).position as int,
                    count as nat,
                ),
                |value: Vec<u64>, expected: Seq<u64>| value@ == expected,
                final(self).position as int,
            ),
            outcome is Ok ==> outcome->Ok_0@.len() == count,
    {
        let mut values: Vec<u64> = Vec::new();
        let ghost element = u64_reader(self.bytes@, self.endian);
        let ghost start = self.position as int;
        let mut index: usize = 0;
        while index < count
            invariant
                index <= count,
                element == u64_reader(self.bytes@, self.endian),
                self.well_formed(),
                self.same_payload(old(self)),
                start == old(self).position,
                values@.len() == index,
                read_many(element, start, index as nat) == Ok::<(Seq<u64>, int), DecodeFault>(
                    (values@, self.position as int),
                ),
            decreases count - index,
        {
            let value: u64 = match self.u64() {
                Ok(value) => value,
                Err(error) => {
                    proof {
                        lemma_read_many_fails(element, start, (index + 1) as nat, count as nat);
                    }
                    return Err(error);
                },
            };
            values.push(value);
            index = index + 1;
        }
        Ok(values)
    }

    /// `count` numbers of four bytes each.
    pub fn u32_sequence(&mut self, count: usize) -> (outcome: Result<Vec<u32>, DecodeError>)
        requires
            old(self).well_formed(),
        ensures
            final(self).same_payload(old(self)),
            outcome is Ok ==> final(self).well_formed(),
            agrees(
                outcome,
                read_many(
                    u32_reader(old(self).bytes@, old(self).endian),
                    old(self).position as int,
                    count as nat,
                ),
                |value: Vec<u32>, expected: Seq<u32>| value@ == expected,
                final(self).position as int,
            ),
            outcome is Ok ==> outcome->Ok_0@.len() == count,
    {
        let mut values: Vec<u32> = Vec::new();
        let ghost element = u32_reader(self.bytes@, self.endian);
        let ghost start = self.position as int;
        let mut index: usize = 0;
        while index < count
            invariant
                index <= count,
                element == u32_reader(self.bytes@, self.endian),
                self.well_formed(),
                self.same_payload(old(self)),
                start == old(self).position,
                values@.len() == index,
                read_many(element, start, index as nat) == Ok::<(Seq<u32>, int), DecodeFault>(
                    (values@, self.position as int),
                ),
            decreases count - index,
        {
            let value: u32 = match self.u32() {
                Ok(value) => value,
                Err(error) => {
                    proof {
                        lemma_read_many_fails(element, start, (index + 1) as nat, count as nat);
                    }
                    return Err(error);
                },
            };
            values.push(value);
            index = index + 1;
        }
        Ok(values)
    }
}

/// The number that the four bytes at `start` hold.
fn word(raw: &[u8], start: usize, little: bool) -> (value: u32)
    requires
        start <= 4,
        start + 4 <= raw@.len(),
    ensures
        value == word32(
            raw@,
            start as int,
            if little {
                Endian::Little
            } else {
                Endian::Big
            },
        ),
{
    if little {
        raw[start] as u32 + raw[start + 1] as u32 * 0x100 + raw[start + 2] as u32 * 0x1_0000
            + raw[start + 3] as u32 * 0x100_0000
    } else {
        raw[start + 3] as u32 + raw[start + 2] as u32 * 0x100 + raw[start + 1] as u32 * 0x1_0000
            + raw[start] as u32 * 0x100_0000
    }
}

/// The number that four bytes hold, the lowest first.
pub fn little_word32(raw: &[u8], start: usize) -> (value: u32)
    requires
        start + 4 <= raw@.len(),
    ensures
        value == word32(raw@, start as int, Endian::Little),
{
    let length: usize = raw.len();
    assert(start + 4 <= length);
    raw[start] as u32 + raw[start + 1] as u32 * 0x100 + raw[start + 2] as u32 * 0x1_0000
        + raw[start + 3] as u32 * 0x100_0000
}

/// The number that the eight bytes at `start` hold, the lowest first.
pub fn little_word64(raw: &[u8], start: usize) -> (value: u64)
    requires
        start + 8 <= raw@.len(),
    ensures
        value == word64(raw@, start as int, Endian::Little),
{
    let length: usize = raw.len();
    assert(start + 8 <= length);
    let low: u32 = raw[start] as u32 + raw[start + 1] as u32 * 0x100 + raw[start + 2] as u32
        * 0x1_0000 + raw[start + 3] as u32 * 0x100_0000;
    let high: u32 = raw[start + 4] as u32 + raw[start + 5] as u32 * 0x100 + raw[start + 6] as u32
        * 0x1_0000 + raw[start + 7] as u32 * 0x100_0000;
    low as u64 + high as u64 * 0x1_0000_0000
}

/// Whether every binary64 number from `start` up to `end` is finite.
pub fn finite_words(words: &Vec<u64>, start: usize, end: usize) -> (finite: bool)
    requires
        start <= end <= words@.len(),
    ensures
        finite == (forall|i: int| start <= i < end ==> F64(#[trigger] words@[i]).spec_finite()),
{
    let mut index: usize = start;
    while index < end
        invariant
            start <= index <= end <= words@.len(),
            forall|i: int| start <= i < index ==> F64(#[trigger] words@[i]).spec_finite(),
        decreases end - index,
    {
        if !F64(words[index]).is_finite() {
            assert(!F64(words@[index as int]).spec_finite());
            return false;
        }
        index = index + 1;
    }
    true
}

/// The output with zeros up to the next aligned position.
pub open spec fn padded(output: Seq<u8>, alignment: int) -> Seq<u8> {
    output + Seq::new(
        (aligned(output.len() as int, alignment) - output.len()) as nat,
        |i: int| 0u8,
    )
}

/// The four bytes of a number, lowest first.
pub open spec fn u32_bytes(value: u32) -> Seq<u8> {
    seq![
        (value % 0x100) as u8,
        (value / 0x100 % 0x100) as u8,
        (value / 0x1_0000 % 0x100) as u8,
        (value / 0x100_0000) as u8,
    ]
}

/// The eight bytes of a number, lowest first.
pub open spec fn u64_bytes(value: u64) -> Seq<u8> {
    u32_bytes((value % 0x1_0000_0000) as u32) + u32_bytes((value / 0x1_0000_0000) as u32)
}

/// The output with an aligned `u32` behind it.
#[verifier::opaque]
pub open spec fn with_u32(output: Seq<u8>, value: u32) -> Seq<u8> {
    padded(output, 4) + u32_bytes(value)
}

/// The output with an aligned `u64` behind it.
#[verifier::opaque]
pub open spec fn with_u64(output: Seq<u8>, value: u64) -> Seq<u8> {
    padded(output, 8) + u64_bytes(value)
}

/// The length field of a text fits, final zero included.
pub open spec fn text_fits(text: Seq<char>) -> bool {
    encode_utf8(text).len() + 1 <= u32::MAX
}

/// The output with a string behind it.
pub open spec fn with_string(output: Seq<u8>, text: Seq<char>) -> Seq<u8> {
    with_u32(output, (encode_utf8(text).len() + 1) as u32) + encode_utf8(text).push(0u8)
}

/// Appends zeros up to the next aligned position.
pub fn align_output(output: &mut Vec<u8>, alignment: usize)
    requires
        4 <= old(output)@.len(),
        0 < alignment,
    ensures
        final(output)@ == padded(old(output)@, alignment as int),
{
    let relative: usize = output.len() - HEADER_BYTES;
    let rest: usize = relative % alignment;
    let padding: usize = (alignment - rest) % alignment;
    let mut written: usize = 0;
    while written < padding
        invariant
            written <= padding,
            output@ == old(output)@ + Seq::new(written as nat, |i: int| 0u8),
        decreases padding - written,
    {
        output.push(0);
        written = written + 1;
        assert(output@ =~= old(output)@ + Seq::new(written as nat, |i: int| 0u8));
    }
}

fn push_word(output: &mut Vec<u8>, value: u32)
    ensures
        final(output)@ == old(output)@ + u32_bytes(value),
{
    output.push((value % 0x100) as u8);
    output.push((value / 0x100 % 0x100) as u8);
    output.push((value / 0x1_0000 % 0x100) as u8);
    output.push((value / 0x100_0000) as u8);
    assert(output@ =~= old(output)@ + u32_bytes(value));
}

pub fn push_u32(output: &mut Vec<u8>, value: u32)
    requires
        4 <= old(output)@.len(),
    ensures
        final(output)@ == with_u32(old(output)@, value),
        4 <= final(output)@.len(),
{
    reveal(with_u32);
    align_output(output, 4);
    push_word(output, value);
}

pub fn push_u64(output: &mut Vec<u8>, value: u64)
    requires
        4 <= old(output)@.len(),
    ensures
        final(output)@ == with_u64(old(output)@, value),
        4 <= final(output)@.len(),
{
    reveal(with_u64);
    align_output(output, 8);
    push_word(output, (value % 0x1_0000_0000) as u32);
    push_word(output, (value / 0x1_0000_0000) as u32);
    assert(output@ =~= with_u64(old(output)@, value));
}

/// Appends bytes.
pub fn push_bytes(output: &mut Vec<u8>, bytes: &[u8])
    ensures
        final(output)@ == old(output)@ + bytes@,
{
    output.extend_from_slice(bytes);
    assert(output@ =~= old(output)@ + bytes@);
}

/// Appends a string, or nothing where its length field does not fit.
pub fn push_string(output: &mut Vec<u8>, value: &str) -> (outcome: Result<(), DecodeError>)
    requires
        4 <= old(output)@.len(),
    ensures
        4 <= final(output)@.len(),
        match outcome {
            Ok(_) => text_fits(value@) && final(output)@ == with_string(old(output)@, value@),
            Err(error) => !text_fits(value@) && error@ == DecodeFault::InvalidLength && final(output)@ == old(output)@,
        },
{
    let content: &[u8] = value.as_bytes();
    let size: usize = content.len();
    if size >= u32::MAX as usize {
        return Err(DecodeError::InvalidLength);
    }
    push_u32(output, (size + 1) as u32);
    push_bytes(output, content);
    output.push(0);
    assert(output@ =~= with_string(old(output)@, value@));
    Ok(())
}

/// The encapsulation header of a little-endian payload.
pub open spec fn little_endian_header() -> Seq<u8> {
    seq![0u8, 1u8, 0u8, 0u8]
}

/// A whole number of seconds as the `u32` that stands for it in two's complement.
pub open spec fn as_unsigned(seconds: int) -> u32 {
    if seconds < 0 {
        (seconds + 0x1_0000_0000) as u32
    } else {
        seconds as u32
    }
}

/// The output with a time stamp behind it, where the seconds fit.
pub open spec fn stamped(output: Seq<u8>, nanos: i64) -> Result<Seq<u8>, DecodeFault> {
    let seconds = nanos as int / 1_000_000_000;
    if i32::MIN <= seconds <= i32::MAX {
        Ok(
            with_u32(
                with_u32(output, as_unsigned(seconds)),
                (nanos as int % 1_000_000_000) as u32,
            ),
        )
    } else {
        Err(DecodeFault::InvalidTimestamp)
    }
}

/// An output that holds the header of a little-endian payload.
pub fn little_endian_output() -> (output: Vec<u8>)
    ensures
        output@ == little_endian_header(),
{
    let mut output: Vec<u8> = Vec::new();
    output.push(0);
    output.push(1);
    output.push(0);
    output.push(0);
    assert(output@ =~= little_endian_header());
    output
}

/// Appends a time stamp, or nothing where its seconds do not fit.
pub fn push_stamp(output: &mut Vec<u8>, nanos: i64) -> (outcome: Result<(), DecodeError>)
    requires
        4 <= old(output)@.len(),
    ensures
        4 <= final(output)@.len(),
        match outcome {
            Ok(_) => stamped(old(output)@, nanos) == Ok::<Seq<u8>, DecodeFault>(final(output)@),
            Err(error) => stamped(old(output)@, nanos) == Err::<Seq<u8>, DecodeFault>(error@)
                && final(output)@ == old(output)@,
        },
{
    let (seconds, rest) = split_seconds(nanos);
    if seconds < i32::MIN as i64 || seconds > i32::MAX as i64 {
        return Err(DecodeError::InvalidTimestamp);
    }
    let word: u32 = if seconds < 0 {
        (seconds + 0x1_0000_0000) as u32
    } else {
        seconds as u32
    };
    push_u32(output, word);
    push_u32(output, rest);
    Ok(())
}

/// A prefix of a prefix is a prefix.
pub proof fn lemma_prefix_chain(short: Seq<u8>, middle: Seq<u8>, long: Seq<u8>)
    requires
        short.is_prefix_of(middle),
        middle.is_prefix_of(long),
    ensures
        short.is_prefix_of(long),
{
    assert forall|i: int| 0 <= i < short.len() implies short[i] == long[i] by {
        assert(short[i] == middle.subrange(0, short.len() as int)[i]);
        assert(middle[i] == long.subrange(0, middle.len() as int)[i]);
    }
    assert(short =~= long.subrange(0, short.len() as int));
}

/// Writing a number keeps what was there.
pub proof fn lemma_with_u32_extends(output: Seq<u8>, value: u32)
    requires
        4 <= output.len(),
    ensures
        output.is_prefix_of(with_u32(output, value)),
        with_u32(output, value).len() == aligned(output.len() as int, 4) + 4,
{
    reveal(with_u32);
    assert(output =~= with_u32(output, value).subrange(0, output.len() as int));
}

/// Writing a number keeps what was there.
pub proof fn lemma_with_u64_extends(output: Seq<u8>, value: u64)
    requires
        4 <= output.len(),
    ensures
        output.is_prefix_of(with_u64(output, value)),
        with_u64(output, value).len() == aligned(output.len() as int, 8) + 8,
{
    reveal(with_u64);
    assert(output =~= with_u64(output, value).subrange(0, output.len() as int));
}

/// Writing a time stamp keeps what was there.
pub proof fn lemma_stamped_extends(output: Seq<u8>, nanos: i64)
    requires
        4 <= output.len(),
        stamped(output, nanos) is Ok,
    ensures
        output.is_prefix_of(stamped(output, nanos)->Ok_0),
        stamped(output, nanos)->Ok_0.len() > output.len(),
{
    let seconds = nanos as int / 1_000_000_000;
    let rest = (nanos as int % 1_000_000_000) as u32;
    let first = with_u32(output, as_unsigned(seconds));
    lemma_with_u32_extends(output, as_unsigned(seconds));
    lemma_with_u32_extends(first, rest);
    lemma_prefix_chain(output, first, with_u32(first, rest));
}

/// Writing a string keeps what was there.
pub proof fn lemma_with_string_extends(output: Seq<u8>, text: Seq<char>)
    requires
        4 <= output.len(),
    ensures
        output.is_prefix_of(with_string(output, text)),
        with_string(output, text).len() > output.len(),
{
    lemma_with_u32_extends(output, (encode_utf8(text).len() + 1) as u32);
    let sized = with_u32(output, (encode_utf8(text).len() + 1) as u32);
    assert(sized =~= with_string(output, text).subrange(0, sized.len() as int));
    lemma_prefix_chain(output, sized, with_string(output, text));
}

/// The four bytes of a number hold that number.
proof fn lemma_word32(bytes: Seq<u8>, start: int, value: u32)
    requires
        0 <= start,
        start + 4 <= bytes.len(),
        bytes.subrange(start, start + 4) == u32_bytes(value),
    ensures
        word32(bytes, start, Endian::Little) == value,
{
    let part = bytes.subrange(start, start + 4);
    assert(bytes[start] == part[0]);
    assert(bytes[start + 1] == part[1]);
    assert(bytes[start + 2] == part[2]);
    assert(bytes[start + 3] == part[3]);
}

/// A number that was written is read back.
pub proof fn lemma_u32_round_trip(output: Seq<u8>, value: u32, bytes: Seq<u8>)
    requires
        4 <= output.len(),
        with_u32(output, value).is_prefix_of(bytes),
        bytes.len() <= usize::MAX,
    ensures
        read_u32(bytes, Endian::Little, output.len() as int) == Ok::<(u32, int), DecodeFault>(
            (value, with_u32(output, value).len() as int),
        ),
{
    reveal(with_u32);
    let written = with_u32(output, value);
    let start = aligned(output.len() as int, 4);
    assert(bytes.subrange(start, start + 4) =~= u32_bytes(value)) by {
        assert forall|i: int| 0 <= i < 4 implies bytes[start + i] == u32_bytes(value)[i] by {
            assert(bytes.subrange(0, written.len() as int)[start + i] == bytes[start + i]);
            assert(written[start + i] == u32_bytes(value)[i]);
        }
    }
    lemma_word32(bytes, start, value);
}

/// A number that was written is read back.
pub proof fn lemma_u64_round_trip(output: Seq<u8>, value: u64, bytes: Seq<u8>)
    requires
        4 <= output.len(),
        with_u64(output, value).is_prefix_of(bytes),
        bytes.len() <= usize::MAX,
    ensures
        read_u64(bytes, Endian::Little, output.len() as int) == Ok::<(u64, int), DecodeFault>(
            (value, with_u64(output, value).len() as int),
        ),
{
    reveal(with_u64);
    let written = with_u64(output, value);
    let start = aligned(output.len() as int, 8);
    let low = (value % 0x1_0000_0000) as u32;
    let high = (value / 0x1_0000_0000) as u32;
    assert forall|i: int| 0 <= i < 8 implies bytes[start + i] == u64_bytes(value)[i] by {
        assert(bytes.subrange(0, written.len() as int)[start + i] == bytes[start + i]);
        assert(written[start + i] == u64_bytes(value)[i]);
    }
    assert(bytes.subrange(start, start + 4) =~= u32_bytes(low)) by {
        assert forall|i: int| 0 <= i < 4 implies bytes[start + i] == u32_bytes(low)[i] by {
            assert(u64_bytes(value)[i] == u32_bytes(low)[i]);
        }
    }
    assert(bytes.subrange(start + 4, start + 8) =~= u32_bytes(high)) by {
        assert forall|i: int| 0 <= i < 4 implies bytes[start + 4 + i] == u32_bytes(high)[i] by {
            assert(u64_bytes(value)[4 + i] == u32_bytes(high)[i]);
            assert(bytes[start + (4 + i)] == u64_bytes(value)[4 + i]);
        }
    }
    lemma_word32(bytes, start, low);
    lemma_word32(bytes, start + 4, high);
}

/// A string that was written is read back.
pub proof fn lemma_string_round_trip(output: Seq<u8>, text: Seq<char>, bytes: Seq<u8>)
    requires
        4 <= output.len(),
        with_string(output, text).is_prefix_of(bytes),
        bytes.len() <= usize::MAX,
        encode_utf8(text).len() + 1 <= MAX_FIELD_BYTES,
    ensures
        read_string(bytes, Endian::Little, output.len() as int) == Ok::<
            (Seq<char>, int),
            DecodeFault,
        >((text, with_string(output, text).len() as int)),
{
    let encoded = encode_utf8(text);
    let size = (encoded.len() + 1) as u32;
    let sized = with_u32(output, size);
    let written = with_string(output, text);
    assert(sized =~= written.subrange(0, sized.len() as int));
    lemma_prefix_chain(sized, written, bytes);
    lemma_u32_round_trip(output, size, bytes);
    let start = sized.len() as int;
    let end = written.len() as int;
    assert(bytes.subrange(start, end - 1) =~= encoded) by {
        assert forall|i: int| 0 <= i < encoded.len() implies bytes[start + i] == encoded[i] by {
            assert(bytes.subrange(0, end)[start + i] == bytes[start + i]);
            assert(written[start + i] == encoded.push(0u8)[i]);
        }
    }
    assert(bytes[end - 1] == 0) by {
        assert(bytes.subrange(0, end)[end - 1] == bytes[end - 1]);
        assert(written[end - 1] == encoded.push(0u8)[encoded.len() as int]);
    }
    encode_utf8_valid_utf8(text);
    encode_utf8_decode_utf8(text);
}

/// A time stamp that was written is read back.
pub proof fn lemma_stamp_round_trip(output: Seq<u8>, nanos: i64, bytes: Seq<u8>)
    requires
        4 <= output.len(),
        stamped(output, nanos) is Ok,
        stamped(output, nanos)->Ok_0.is_prefix_of(bytes),
        bytes.len() <= usize::MAX,
    ensures
        output.is_prefix_of(bytes),
        read_stamp(bytes, Endian::Little, output.len() as int) == Ok::<(i64, int), DecodeFault>(
            (nanos, stamped(output, nanos)->Ok_0.len() as int),
        ),
{
    let seconds = nanos as int / 1_000_000_000;
    let rest = (nanos as int % 1_000_000_000) as u32;
    let first = with_u32(output, as_unsigned(seconds));
    let second = with_u32(first, rest);
    lemma_with_u32_extends(output, as_unsigned(seconds));
    lemma_with_u32_extends(first, rest);
    lemma_prefix_chain(first, second, bytes);
    lemma_prefix_chain(output, first, bytes);
    lemma_u32_round_trip(output, as_unsigned(seconds), bytes);
    lemma_u32_round_trip(first, rest, bytes);
}

/// Of bytes that were cut off, what lies in front of the cut is read as before, and what does not
/// is truncated.
pub open spec fn read_up_to<T>(whole: CdrRead<T>, part: CdrRead<T>, length: int) -> bool {
    whole matches Ok((_, end)) ==> if end <= length {
        part == whole
    } else {
        part == Err::<(T, int), DecodeFault>(DecodeFault::Truncated)
    }
}

/// A number in bytes that were cut off.
pub proof fn lemma_cut_u32(bytes: Seq<u8>, endian: Endian, position: int, length: int)
    requires
        0 <= length <= bytes.len(),
        4 <= position,
    ensures
        read_up_to(
            read_u32(bytes, endian, position),
            read_u32(bytes.take(length), endian, position),
            length,
        ),
{
}

/// A length field in bytes that were cut off.
pub proof fn lemma_cut_length(bytes: Seq<u8>, endian: Endian, position: int, length: int)
    requires
        0 <= length <= bytes.len(),
        4 <= position,
    ensures
        read_up_to(
            read_length(bytes, endian, position),
            read_length(bytes.take(length), endian, position),
            length,
        ),
{
    lemma_cut_u32(bytes, endian, position, length);
}

/// A string in bytes that were cut off.
pub proof fn lemma_cut_string(bytes: Seq<u8>, endian: Endian, position: int, length: int)
    requires
        0 <= length <= bytes.len(),
        4 <= position,
    ensures
        read_up_to(
            read_string(bytes, endian, position),
            read_string(bytes.take(length), endian, position),
            length,
        ),
{
    lemma_cut_length(bytes, endian, position, length);
    if let Ok((_, end)) = read_string(bytes, endian, position) {
        let start = read_length(bytes, endian, position)->Ok_0.1;
        if end <= length {
            assert(bytes.take(length).subrange(start, end - 1) =~= bytes.subrange(start, end - 1));
        }
    }
}

/// A time stamp in bytes that were cut off.
pub proof fn lemma_cut_stamp(bytes: Seq<u8>, endian: Endian, position: int, length: int)
    requires
        0 <= length <= bytes.len(),
        4 <= position,
    ensures
        read_up_to(
            read_stamp(bytes, endian, position),
            read_stamp(bytes.take(length), endian, position),
            length,
        ),
{
    lemma_cut_u32(bytes, endian, position, length);
    if let Ok((_, middle)) = read_u32(bytes, endian, position) {
        lemma_cut_u32(bytes, endian, middle, length);
    }
}

/// A number that is read stands at the first multiple of four behind the header, the lowest byte
/// first in a little-endian payload and last in a big-endian one.
#[verifier::rlimit(60)]
pub proof fn law_words_stand_in_their_bytes(bytes: Seq<u8>, endian: Endian, position: int)
    requires
        4 <= position,
    ensures
        read_u32(bytes, endian, position) matches Ok((value, end)) ==> {
            let first = end - 4;
            let little = endian == Endian::Little;
            &&& position <= first < position + 4
            &&& first % 4 == 0
            &&& end <= bytes.len()
            &&& value % 256 == bytes[if little { first } else { first + 3 }]
            &&& value / 256 % 256 == bytes[if little { first + 1 } else { first + 2 }]
            &&& value / 65_536 % 256 == bytes[if little { first + 2 } else { first + 1 }]
            &&& value / 16_777_216 == bytes[if little { first + 3 } else { first }]
        },
{
    if let Ok((value, end)) = read_u32(bytes, endian, position) {
        lemma_aligned(position, 4);
        lemma_word32_bytes(bytes, end - 4, endian);
    }
}

/// A number of eight bytes is read like one of four, from a multiple of eight behind the header.
#[verifier::rlimit(60)]
pub proof fn law_long_words_stand_in_their_bytes(bytes: Seq<u8>, endian: Endian, position: int)
    requires
        4 <= position,
    ensures
        read_u64(bytes, endian, position) matches Ok((value, end)) ==> {
            let first = end - 8;
            let little = endian == Endian::Little;
            let (low, high) = if little { (first, first + 4) } else { (first + 4, first) };
            &&& position <= first < position + 8
            &&& first % 8 == 4
            &&& end <= bytes.len()
            &&& value % 256 == bytes[if little { first } else { first + 7 }]
            &&& value / 0x100_0000_0000_0000 == bytes[if little { first + 7 } else { first }]
            &&& value % 0x1_0000_0000 == word32(bytes, low, endian)
            &&& value / 0x1_0000_0000 == word32(bytes, high, endian)
        },
{
    if let Ok((value, end)) = read_u64(bytes, endian, position) {
        let first = end - 8;
        let little = endian == Endian::Little;
        let (low, high) = if little { (first, first + 4) } else { (first + 4, first) };
        lemma_aligned(position, 8);
        lemma_word32_bytes(bytes, low, endian);
        lemma_word32_bytes(bytes, high, endian);
        let (least, most) = (word32(bytes, low, endian), word32(bytes, high, endian));
        lemma_long_word(value, least, most);
        lemma_parts_of_a_long_word(value, least, most);
    }
}

proof fn lemma_long_word(value: u64, low: u32, high: u32)
    requires
        value == low + high * 0x1_0000_0000,
    ensures
        value % 0x1_0000_0000 == low,
        value / 0x1_0000_0000 == high,
{
}

/// The number that four bytes hold has those bytes.
pub proof fn lemma_word32_bytes(bytes: Seq<u8>, first: int, endian: Endian)
    ensures
        ({
            let value = word32(bytes, first, endian);
            let little = endian == Endian::Little;
            &&& value % 256 == bytes[if little { first } else { first + 3 }]
            &&& value / 256 % 256 == bytes[if little { first + 1 } else { first + 2 }]
            &&& value / 65_536 % 256 == bytes[if little { first + 2 } else { first + 1 }]
            &&& value / 16_777_216 == bytes[if little { first + 3 } else { first }]
        }),
{
    if endian == Endian::Little {
        lemma_four_bytes(bytes[first], bytes[first + 1], bytes[first + 2], bytes[first + 3]);
    } else {
        lemma_four_bytes(bytes[first + 3], bytes[first + 2], bytes[first + 1], bytes[first]);
    }
}

proof fn lemma_four_bytes(one: u8, two: u8, three: u8, four: u8)
    ensures
        ({
            let value = one + two * 0x100 + three * 0x1_0000 + four * 0x100_0000;
            &&& 0 <= value <= u32::MAX
            &&& value % 256 == one
            &&& value / 256 % 256 == two
            &&& value / 65_536 % 256 == three
            &&& value / 16_777_216 == four
        }),
{
}

proof fn lemma_aligned(position: int, alignment: int)
    requires
        alignment == 4 || alignment == 8,
        4 <= position,
    ensures
        position <= aligned(position, alignment) < position + alignment,
        (aligned(position, alignment) - 4) % alignment == 0,
{
}

/// The header of a payload names its byte order: an even second byte the highest byte first, an odd
/// one the lowest first.
pub proof fn law_headers_name_the_byte_order(bytes: Seq<u8>)
    ensures
        bytes.len() < 4 <==> encapsulation(bytes) == Err::<Endian, DecodeFault>(
            DecodeFault::Truncated,
        ),
        bytes.len() >= 4 ==> (encapsulation(bytes) is Ok <==> bytes[0] == 0 && bytes[1] < 4),
        encapsulation(bytes) is Ok ==> (encapsulation(bytes)->Ok_0 == Endian::Little <==> bytes[1]
            % 2 == 1),
{
}

/// What is written lies behind what was there: zeros up to a multiple of four, then the bytes of the
/// number, the lowest first.
#[verifier::rlimit(60)]
pub proof fn law_words_are_written_lowest_byte_first(output: Seq<u8>, value: u32)
    requires
        4 <= output.len(),
    ensures
        ({
            let written = with_u32(output, value);
            let first = written.len() - 4;
            &&& output.len() <= first < output.len() + 4
            &&& first % 4 == 0
            &&& written.take(output.len() as int) == output
            &&& forall|i: int| output.len() <= i < first ==> written[i] == 0
            &&& written[first] == value % 256
            &&& written[first + 1] == value / 256 % 256
            &&& written[first + 2] == value / 65_536 % 256
            &&& written[first + 3] == value / 16_777_216
        }),
{
    reveal(with_u32);
    lemma_aligned(output.len() as int, 4);
    assert(with_u32(output, value).take(output.len() as int) =~= output);
}

/// A number of eight bytes is written like one of four, on a multiple of eight behind the header.
#[verifier::rlimit(60)]
pub proof fn law_long_words_are_written_lowest_byte_first(output: Seq<u8>, value: u64)
    requires
        4 <= output.len(),
    ensures
        ({
            let written = with_u64(output, value);
            let first = written.len() - 8;
            &&& output.len() <= first < output.len() + 8
            &&& first % 8 == 4
            &&& written.take(output.len() as int) == output
            &&& forall|i: int| output.len() <= i < first ==> written[i] == 0
            &&& written[first] == value % 256
            &&& written[first + 1] == value / 256 % 256
            &&& written[first + 2] == value / 65_536 % 256
            &&& written[first + 3] == value / 16_777_216 % 256
            &&& written[first + 4] == value / 0x1_0000_0000 % 256
            &&& written[first + 5] == value / 0x100_0000_0000 % 256
            &&& written[first + 6] == value / 0x1_0000_0000_0000 % 256
            &&& written[first + 7] == value / 0x100_0000_0000_0000
        }),
{
    reveal(with_u64);
    let written = with_u64(output, value);
    let first = aligned(output.len() as int, 8);
    let low = (value % 0x1_0000_0000) as u32;
    let high = (value / 0x1_0000_0000) as u32;
    lemma_aligned(output.len() as int, 8);
    assert(written.take(output.len() as int) =~= output);
    assert(written.len() == first + 8);
    assert(written[first] == u32_bytes(low)[0]);
    assert(written[first + 1] == u32_bytes(low)[1]);
    assert(written[first + 2] == u32_bytes(low)[2]);
    assert(written[first + 3] == u32_bytes(low)[3]);
    assert(written[first + 4] == u32_bytes(high)[0]);
    assert(written[first + 5] == u32_bytes(high)[1]);
    assert(written[first + 6] == u32_bytes(high)[2]);
    assert(written[first + 7] == u32_bytes(high)[3]);
    lemma_parts_of_a_long_word(value, low, high);
}

proof fn lemma_parts_of_a_long_word(value: u64, low: u32, high: u32)
    requires
        low == value % 0x1_0000_0000,
        high == value / 0x1_0000_0000,
    ensures
        low % 256 == value % 256,
        low / 256 % 256 == value / 256 % 256,
        low / 65_536 % 256 == value / 65_536 % 256,
        low / 16_777_216 == value / 16_777_216 % 256,
        high % 256 == value / 0x1_0000_0000 % 256,
        high / 256 % 256 == value / 0x100_0000_0000 % 256,
        high / 65_536 % 256 == value / 0x1_0000_0000_0000 % 256,
        high / 16_777_216 == value / 0x100_0000_0000_0000,
{
    assert((value % 0x1_0000_0000) % 256 == value % 256 && (value % 0x1_0000_0000) / 256 % 256 == value
        / 256 % 256 && (value % 0x1_0000_0000) / 65_536 % 256 == value / 65_536 % 256 && (value
        % 0x1_0000_0000) / 16_777_216 == value / 16_777_216 % 256) by (bit_vector);
    assert((value / 0x1_0000_0000) / 256 % 256 == value / 0x100_0000_0000 % 256 && (value
        / 0x1_0000_0000) / 65_536 % 256 == value / 0x1_0000_0000_0000 % 256 && (value
        / 0x1_0000_0000) / 16_777_216 == value / 0x100_0000_0000_0000) by (bit_vector);
}

/// A string is written as its length with a final zero, its UTF-8 bytes and the zero; a time stamp
/// as its seconds, rounded down and in two's complement, and the nanoseconds that remain.
pub proof fn law_texts_and_stamps_are_written_in_parts(
    output: Seq<u8>,
    text: Seq<char>,
    seconds: i32,
    word: u32,
    nanos: u32,
)
    requires
        4 <= output.len(),
        text_fits(text),
        word == seconds || word == seconds + 0x1_0000_0000,
        nanos < 1_000_000_000,
    ensures
        ({
            let bytes = encode_utf8(text);
            let sized = with_u32(output, (bytes.len() + 1) as u32);
            &&& with_string(output, text).len() == sized.len() + bytes.len() + 1
            &&& with_string(output, text).take(sized.len() as int) == sized
            &&& with_string(output, text).subrange(
                sized.len() as int,
                sized.len() as int + bytes.len(),
            ) == bytes
            &&& with_string(output, text).last() == 0
        }),
        stamped(output, (seconds * 1_000_000_000 + nanos) as i64) == Ok::<Seq<u8>, DecodeFault>(
            with_u32(with_u32(output, word), nanos),
        ),
{
    let bytes = encode_utf8(text);
    let sized = with_u32(output, (bytes.len() + 1) as u32);
    assert(with_string(output, text).take(sized.len() as int) =~= sized);
    assert(with_string(output, text).subrange(sized.len() as int, sized.len() as int + bytes.len())
        =~= bytes);
}

/// The output with a list of `u32` behind it.
pub open spec fn with_u32s(output: Seq<u8>, words: Seq<u32>) -> Seq<u8>
    decreases words.len(),
{
    if words.len() == 0 {
        output
    } else {
        with_u32(with_u32s(output, words.drop_last()), words.last())
    }
}

/// The output only grows, by four bytes for each number at least.
pub proof fn lemma_with_u32s_extends(output: Seq<u8>, words: Seq<u32>)
    requires
        4 <= output.len(),
    ensures
        output.is_prefix_of(with_u32s(output, words)),
        output.len() + 4 * words.len() <= with_u32s(output, words).len(),
    decreases words.len(),
{
    if words.len() == 0 {
        assert(output =~= output.subrange(0, output.len() as int));
    } else {
        lemma_with_u32s_extends(output, words.drop_last());
        let front = with_u32s(output, words.drop_last());
        lemma_with_u32_extends(front, words.last());
        lemma_prefix_chain(output, front, with_u32s(output, words));
    }
}

/// Numbers that were written are read back.
pub proof fn lemma_u32s_round_trip(output: Seq<u8>, words: Seq<u32>, bytes: Seq<u8>)
    requires
        4 <= output.len(),
        with_u32s(output, words).is_prefix_of(bytes),
        bytes.len() <= usize::MAX,
    ensures
        read_many(u32_reader(bytes, Endian::Little), output.len() as int, words.len()) == Ok::<
            (Seq<u32>, int),
            DecodeFault,
        >((words, with_u32s(output, words).len() as int)),
    decreases words.len(),
{
    if words.len() == 0 {
        assert(words =~= Seq::<u32>::empty());
    } else {
        let front = with_u32s(output, words.drop_last());
        lemma_with_u32s_extends(output, words.drop_last());
        lemma_with_u32_extends(front, words.last());
        lemma_prefix_chain(front, with_u32s(output, words), bytes);
        lemma_u32s_round_trip(output, words.drop_last(), bytes);
        lemma_u32_round_trip(front, words.last(), bytes);
        assert(words =~= words.drop_last().push(words.last()));
    }
}

/// A little-endian payload that starts with a time stamp and a frame name.
pub open spec fn headed(nanos: i64, frame: Seq<char>) -> Seq<u8> {
    with_string(stamped(little_endian_header(), nanos)->Ok_0, frame)
}

/// The seconds of a time stamp fit, and the frame name is no longer than a decoder accepts.
pub open spec fn head_fits(nanos: i64, frame: Seq<char>) -> bool {
    &&& i32::MIN <= nanos as int / 1_000_000_000 <= i32::MAX
    &&& encode_utf8(frame).len() < 67_108_864
}

pub proof fn lemma_headed_is_long(nanos: i64, frame: Seq<char>)
    requires
        head_fits(nanos, frame),
    ensures
        8 <= headed(nanos, frame).len(),
{
    let header = little_endian_header();
    lemma_stamped_extends(header, nanos);
    lemma_with_string_extends(stamped(header, nanos)->Ok_0, frame);
    lemma_with_u32_extends(header, as_unsigned(nanos as int / 1_000_000_000));
    lemma_with_u32_extends(
        with_u32(header, as_unsigned(nanos as int / 1_000_000_000)),
        (nanos as int % 1_000_000_000) as u32,
    );
}

/// A time stamp and a frame name that were written are read back.
#[verifier::rlimit(60)]
pub proof fn lemma_head_round_trip(nanos: i64, frame: Seq<char>, bytes: Seq<u8>)
    requires
        head_fits(nanos, frame),
        headed(nanos, frame).is_prefix_of(bytes),
        bytes.len() <= usize::MAX,
    ensures
        8 <= headed(nanos, frame).len(),
        encapsulation(bytes) == Ok::<Endian, DecodeFault>(Endian::Little),
        read_stamp(bytes, Endian::Little, 4) is Ok,
        read_stamp(bytes, Endian::Little, 4)->Ok_0.0 == nanos,
        read_string(bytes, Endian::Little, read_stamp(bytes, Endian::Little, 4)->Ok_0.1) == Ok::<
            (Seq<char>, int),
            DecodeFault,
        >((frame, headed(nanos, frame).len() as int)),
{
    let header = little_endian_header();
    let first = stamped(header, nanos)->Ok_0;
    lemma_stamped_extends(header, nanos);
    lemma_with_string_extends(first, frame);
    lemma_prefix_chain(first, headed(nanos, frame), bytes);
    lemma_stamp_round_trip(header, nanos, bytes);
    lemma_string_round_trip(first, frame, bytes);
    lemma_with_u32_extends(header, as_unsigned(nanos as int / 1_000_000_000));
    assert forall|i: int| 0 <= i < 4 implies bytes[i] == header[i] by {
        assert(bytes.subrange(0, header.len() as int)[i] == bytes[i]);
    }
}

/// The byte order of a payload, by its header: an odd second byte puts the lowest byte first.
pub open spec fn order_of(bytes: Seq<u8>) -> Endian {
    if bytes[1] % 2 == 1 {
        Endian::Little
    } else {
        Endian::Big
    }
}

/// Numbers stand one behind the other from a place on, each in eight bytes of the order of the payload.
pub open spec fn stand_at(bytes: Seq<u8>, start: int, numbers: Seq<F64>) -> bool {
    forall|i: int|
        0 <= i < numbers.len() ==> (#[trigger] numbers[i]).0 == word64(
            bytes,
            start + 8 * i,
            order_of(bytes),
        )
}

/// Numbers that are read one behind the other stand one behind the other.
#[verifier::rlimit(60)]
pub proof fn lemma_many_u64(bytes: Seq<u8>, endian: Endian, position: int, count: nat)
    requires
        4 <= position,
        read_many(u64_reader(bytes, endian), position, count) is Ok,
    ensures
        ({
            let (words, end) = read_many(u64_reader(bytes, endian), position, count)->Ok_0;
            let first = aligned(position, 8);
            &&& words.len() == count
            &&& first % 8 == 4
            &&& position <= first
            &&& end == if count == 0 {
                position
            } else {
                first + 8 * count
            }
            &&& forall|i: int|
                0 <= i < count ==> #[trigger] words[i] == word64(bytes, first + 8 * i, endian)
        }),
    decreases count,
{
    lemma_aligned(position, 8);
    if count > 0 {
        lemma_many_u64(bytes, endian, position, (count - 1) as nat);
        let (front, middle) = read_many(
            u64_reader(bytes, endian),
            position,
            (count - 1) as nat,
        )->Ok_0;
        assert(aligned(middle, 8) == aligned(position, 8) + 8 * (count - 1)) by {
            lemma_aligned(middle, 8);
        }
    }
}

/// Numbers that are read one behind the other stand one behind the other.
#[verifier::rlimit(60)]
pub proof fn lemma_many_u32(bytes: Seq<u8>, endian: Endian, position: int, count: nat)
    requires
        4 <= position,
        read_many(u32_reader(bytes, endian), position, count) is Ok,
    ensures
        ({
            let (words, end) = read_many(u32_reader(bytes, endian), position, count)->Ok_0;
            let first = aligned(position, 4);
            &&& words.len() == count
            &&& first % 4 == 0
            &&& position <= first
            &&& end == if count == 0 {
                position
            } else {
                first + 4 * count
            }
            &&& forall|i: int|
                0 <= i < count ==> #[trigger] words[i] == word32(bytes, first + 4 * i, endian)
        }),
    decreases count,
{
    lemma_aligned(position, 4);
    if count > 0 {
        lemma_many_u32(bytes, endian, position, (count - 1) as nat);
        let (front, middle) = read_many(
            u32_reader(bytes, endian),
            position,
            (count - 1) as nat,
        )->Ok_0;
        assert(aligned(middle, 4) == aligned(position, 4) + 4 * (count - 1)) by {
            lemma_aligned(middle, 4);
        }
    }
}

/// What is read ends behind where it starts.
#[verifier::rlimit(60)]
pub proof fn lemma_reads_go_on(bytes: Seq<u8>, endian: Endian, position: int)
    requires
        4 <= position,
    ensures
        read_stamp(bytes, endian, position) matches Ok((_, end)) ==> position < end,
        read_string(bytes, endian, position) matches Ok((_, end)) ==> position < end,
{
    lemma_aligned(position, 4);
    if let Ok((_, middle)) = read_u32(bytes, endian, position) {
        lemma_aligned(middle, 4);
    }
}

/// A part of the words that stand one behind the other stands so too.
pub proof fn lemma_part_stands(
    bytes: Seq<u8>,
    start: int,
    words: Seq<u64>,
    offset: int,
    numbers: Seq<F64>,
)
    requires
        0 <= offset,
        offset + numbers.len() <= words.len(),
        forall|i: int|
            0 <= i < words.len() ==> #[trigger] words[i] == word64(
                bytes,
                start + 8 * i,
                order_of(bytes),
            ),
        forall|i: int| 0 <= i < numbers.len() ==> (#[trigger] numbers[i]).0 == words[offset + i],
    ensures
        stand_at(bytes, start + 8 * offset, numbers),
{
    assert forall|i: int| 0 <= i < numbers.len() implies (#[trigger] numbers[i]).0 == word64(
        bytes,
        (start + 8 * offset) + 8 * i,
        order_of(bytes),
    ) by {
        assert(words[offset + i] == word64(bytes, start + 8 * (offset + i), order_of(bytes)));
    }
}

/// A field is read up to 64 MiB long, and refused where it announces more.
pub proof fn law_long_fields_are_refused(bytes: Seq<u8>, endian: Endian, position: int)
    ensures
        read_u32(bytes, endian, position) matches Ok((length, end)) ==> read_length(
            bytes,
            endian,
            position,
        ) == if length <= 64 * 1024 * 1024 {
            Ok::<(nat, int), DecodeFault>((length as nat, end))
        } else {
            Err(DecodeFault::InvalidLength)
        },
        read_u32(bytes, endian, position) is Err ==> read_length(bytes, endian, position) is Err,
{
}

} // verus!

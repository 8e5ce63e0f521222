//! `sensor_msgs/msg/CompressedImage`.

use crate::message::cdr::common::{
    self, little_endian_output, push_bytes, push_stamp, push_string, push_u32, DecodeError,
    DecodeFault, Endian, Reader,
};
use crate::message::payload::{self, as_slice, shared_slice};
use crate::message::text::{self, characters, is_white_space};
use crate::message::time::MeasurementTime;
use bytes::Bytes;
use vstd::prelude::*;
use vstd::utf8::*;

verus! {

#[derive(Clone, Debug, Eq, PartialEq)]
pub struct CompressedImage {
    pub measurement_time: MeasurementTime,
    pub frame_id: String,
    pub format: String,
    pub jpeg: Vec<u8>,
}

/// A compressed image whose JPEG shares the allocation of the payload it came from.
#[derive(Clone, Debug, Eq, PartialEq)]
pub struct DecodedCompressedImage {
    pub measurement_time: MeasurementTime,
    pub frame_id: String,
    pub format: String,
    pub jpeg: Bytes,
}

/// The contents of a compressed image.
pub struct ImageContent {
    pub measurement_time: MeasurementTime,
    pub frame_id: Seq<char>,
    pub format: Seq<char>,
    pub jpeg: Seq<u8>,
}

impl View for CompressedImage {
    type V = ImageContent;

    open spec fn view(&self) -> ImageContent {
        ImageContent {
            measurement_time: self.measurement_time,
            frame_id: self.frame_id@,
            format: self.format@,
            jpeg: self.jpeg@,
        }
    }
}

impl View for DecodedCompressedImage {
    type V = ImageContent;

    open spec fn view(&self) -> ImageContent {
        ImageContent {
            measurement_time: self.measurement_time,
            frame_id: self.frame_id@,
            format: self.format@,
            jpeg: payload::content(self.jpeg),
        }
    }
}

/// A character that ends a word of a format description.
pub open spec fn separates(c: char) -> bool {
    c == ';' || text::white_space(c)
}


/// The word is `jpeg` or `jpg`, in any ASCII case.
pub open spec fn names_jpeg(word: Seq<char>) -> bool {
    let lower = word.map_values(|c: char| text::ascii_lower(c));
    lower == "jpeg"@ || lower == "jpg"@
}

/// Some word between separators is `jpeg` or `jpg`.
pub open spec fn mentions_jpeg(words: Seq<char>) -> bool {
    exists|start: int, end: int|
        0 <= start <= end <= words.len() && starts_word(words, start) && ends_word(words, end)
            && names_jpeg(#[trigger] words.subrange(start, end))
}

pub open spec fn starts_word(words: Seq<char>, place: int) -> bool {
    place == 0 || separates(words[place - 1])
}

pub open spec fn ends_word(words: Seq<char>, place: int) -> bool {
    place == words.len() || separates(words[place])
}

fn is_separator(c: char) -> (separator: bool)
    ensures
        separator == separates(c),
{
    c == ';' || is_white_space(c)
}

fn is_letter(c: char, upper: char, lower: char) -> (same: bool)
    requires
        'A' <= upper <= 'Z',
        lower as u32 == upper as u32 + 32,
    ensures
        same == (text::ascii_lower(c) == lower),
{
    c == upper || c == lower
}

fn is_jpeg_word(letters: &Vec<char>, start: usize, end: usize) -> (jpeg: bool)
    requires
        start <= end <= letters@.len(),
    ensures
        jpeg == names_jpeg(letters@.subrange(start as int, end as int)),
{
    let ghost word = letters@.subrange(start as int, end as int);
    let ghost lower = word.map_values(|c: char| text::ascii_lower(c));
    proof {
        reveal_strlit("jpeg");
        reveal_strlit("jpg");
        assert(lower.len() == end - start);
        assert(forall|i: int|
            0 <= i < lower.len() ==> lower[i] == text::ascii_lower(
                letters@[start + i],
            ));
    }
    if end - start == 4 {
        let jpeg: bool = is_letter(letters[start], 'J', 'j') && is_letter(
            letters[start + 1],
            'P',
            'p',
        ) && is_letter(letters[start + 2], 'E', 'e') && is_letter(letters[start + 3], 'G', 'g');
        proof {
            assert("jpeg"@ =~= seq!['j', 'p', 'e', 'g']);
            assert(lower[0] == text::ascii_lower(letters@[start + 0]));
            assert(lower[1] == text::ascii_lower(letters@[start + 1]));
            assert(lower[2] == text::ascii_lower(letters@[start + 2]));
            assert(lower[3] == text::ascii_lower(letters@[start + 3]));
            if jpeg {
                assert(lower =~= "jpeg"@);
            }
        }
        jpeg
    } else if end - start == 3 {
        let jpg: bool = is_letter(letters[start], 'J', 'j') && is_letter(
            letters[start + 1],
            'P',
            'p',
        ) && is_letter(letters[start + 2], 'G', 'g');
        proof {
            assert("jpg"@ =~= seq!['j', 'p', 'g']);
            assert(lower[0] == text::ascii_lower(letters@[start + 0]));
            assert(lower[1] == text::ascii_lower(letters@[start + 1]));
            assert(lower[2] == text::ascii_lower(letters@[start + 2]));
            if jpg {
                assert(lower =~= "jpg"@);
            }
        }
        jpg
    } else {
        false
    }
}

proof fn lemma_jpeg_word_has_no_separator(words: Seq<char>, start: int, end: int, place: int)
    requires
        0 <= start <= place < end <= words.len(),
        names_jpeg(words.subrange(start, end)),
    ensures
        !separates(words[place]),
{
    reveal_strlit("jpeg");
    reveal_strlit("jpg");
    let word = words.subrange(start, end);
    let lower = word.map_values(|c: char| text::ascii_lower(c));
    assert("jpeg"@ =~= seq!['j', 'p', 'e', 'g']);
    assert("jpg"@ =~= seq!['j', 'p', 'g']);
    assert(lower[place - start] == text::ascii_lower(words[place]));
    assert(lower[place - start] == 'j' || lower[place - start] == 'p' || lower[place - start] == 'e'
        || lower[place - start] == 'g');
}

/// Accepts a description that mentions JPEG, as `jpeg`.
pub fn normalize_format(value: &str) -> (outcome: Result<String, DecodeError>)
    ensures
        match outcome {
            Ok(format) => mentions_jpeg(value@) && format@ == "jpeg"@,
            Err(error) => !mentions_jpeg(value@) && error@
                == DecodeFault::UnsupportedFormat(value@),
        },
{
    let letters: Vec<char> = characters(value);
    let mut start: usize = 0;
    let mut index: usize = 0;
    while index <= letters.len()
        invariant
            letters@ == value@,
            start <= index <= letters.len() + 1,
            start <= letters.len() || index == letters.len() + 1,
            start <= letters.len() ==> starts_word(value@, start as int),
            index == letters.len() + 1 ==> start == index,
            forall|i: int| start <= i < index ==> !separates(#[trigger] value@[i]),
            forall|i: int, j: int|
                0 <= i <= j <= value@.len() && j < index && starts_word(value@, i) && ends_word(
                    value@,
                    j,
                ) ==> !names_jpeg(#[trigger] value@.subrange(i, j)),
        decreases letters.len() + 1 - index,
    {
        let at_end: bool = index == letters.len();
        if at_end || is_separator(letters[index]) {
            if is_jpeg_word(&letters, start, index) {
                return Ok("jpeg".to_owned());
            }
            proof {
                assert forall|i: int, j: int|
                    0 <= i <= j <= value@.len() && j < index + 1 && starts_word(value@, i)
                        && ends_word(value@, j) implies !names_jpeg(
                    #[trigger] value@.subrange(i, j),
                ) by {
                    if j == index && names_jpeg(value@.subrange(i, j)) {
                        if i < start {
                            lemma_jpeg_word_has_no_separator(value@, i, j, start - 1);
                        }
                    }
                }
            }
            if at_end {
                assert(!mentions_jpeg(value@));
                return Err(DecodeError::UnsupportedFormat(value.to_owned()));
            }
            start = index + 1;
        } else {
            assert(!ends_word(value@, index as int));
        }
        index = index + 1;
    }
    Err(DecodeError::UnsupportedFormat(value.to_owned()))
}

/// The image that a payload holds, or why it holds none.
pub open spec fn image_in(bytes: Seq<u8>) -> Result<ImageContent, DecodeFault> {
    match common::encapsulation(bytes) {
        Err(fault) => Err(fault),
        Ok(endian) => match common::read_stamp(bytes, endian, 4) {
            Err(fault) => Err(fault),
            Ok((stamp, behind_stamp)) => match common::read_string(bytes, endian, behind_stamp) {
                Err(fault) => Err(fault),
                Ok((frame_id, behind_frame)) => match common::read_string(
                    bytes,
                    endian,
                    behind_frame,
                ) {
                    Err(fault) => Err(fault),
                    Ok((format, behind_format)) => if !mentions_jpeg(format) {
                        Err(DecodeFault::UnsupportedFormat(format))
                    } else {
                        match common::read_length(bytes, endian, behind_format) {
                            Err(fault) => Err(fault),
                            Ok((length, start)) => match common::field_end(
                                bytes,
                                start,
                                length as int,
                            ) {
                                Err(fault) => Err(fault),
                                Ok(end) => Ok(
                                    ImageContent {
                                        measurement_time: MeasurementTime(stamp),
                                        frame_id,
                                        format: "jpeg"@,
                                        jpeg: bytes.subrange(start, end),
                                    },
                                ),
                            },
                        }
                    },
                },
            },
        },
    }
}

struct CompressedImageParts {
    measurement_time: MeasurementTime,
    frame_id: String,
    format: String,
    jpeg_start: usize,
    jpeg_end: usize,
}

impl CompressedImageParts {
    spec fn content(&self, bytes: Seq<u8>) -> ImageContent {
        ImageContent {
            measurement_time: self.measurement_time,
            frame_id: self.frame_id@,
            format: self.format@,
            jpeg: bytes.subrange(self.jpeg_start as int, self.jpeg_end as int),
        }
    }
}

fn compressed_image_parts(bytes: &[u8]) -> (outcome: Result<CompressedImageParts, DecodeError>)
    ensures
        match outcome {
            Ok(parts) => parts.jpeg_start <= parts.jpeg_end <= bytes@.len() && image_in(bytes@)
                == Ok::<ImageContent, DecodeFault>(parts.content(bytes@)),
            Err(error) => image_in(bytes@) == Err::<ImageContent, DecodeFault>(error@),
        },
{
    let mut reader: Reader = Reader::new(bytes)?;
    let measurement: i64 = reader.stamp()?;
    let frame_id: String = reader.string()?;
    let described: String = reader.string()?;
    let format: String = normalize_format(described.as_str())?;
    let length: usize = reader.length()?;
    let jpeg_start: usize = reader.position;
    reader.take(length)?;
    Ok(
        CompressedImageParts {
            measurement_time: MeasurementTime(measurement),
            frame_id,
            format,
            jpeg_start,
            jpeg_end: reader.position,
        },
    )
}

pub fn decode_compressed_image(bytes: &[u8]) -> (outcome: Result<CompressedImage, DecodeError>)
    ensures
        match outcome {
            Ok(image) => image_in(bytes@) == Ok::<ImageContent, DecodeFault>(image@),
            Err(error) => image_in(bytes@) == Err::<ImageContent, DecodeFault>(error@),
        },
{
    let parts = compressed_image_parts(bytes)?;
    let mut jpeg: Vec<u8> = Vec::new();
    push_bytes(
        &mut jpeg,
        vstd::slice::slice_subrange(bytes, parts.jpeg_start, parts.jpeg_end),
    );
    assert(jpeg@ =~= bytes@.subrange(parts.jpeg_start as int, parts.jpeg_end as int));
    Ok(
        CompressedImage {
            measurement_time: parts.measurement_time,
            frame_id: parts.frame_id,
            format: parts.format,
            jpeg,
        },
    )
}

/// Decodes metadata while retaining the JPEG as a shared slice of the CDR payload.
pub fn decode_compressed_image_bytes(bytes: Bytes) -> (outcome: Result<
    DecodedCompressedImage,
    DecodeError,
>)
    ensures
        match outcome {
            Ok(image) => image_in(payload::content(bytes)) == Ok::<ImageContent, DecodeFault>(
                image@,
            ),
            Err(error) => image_in(payload::content(bytes)) == Err::<ImageContent, DecodeFault>(
                error@,
            ),
        },
{
    let parts = compressed_image_parts(as_slice(&bytes))?;
    Ok(
        DecodedCompressedImage {
            measurement_time: parts.measurement_time,
            frame_id: parts.frame_id,
            format: parts.format,
            jpeg: shared_slice(&bytes, parts.jpeg_start, parts.jpeg_end),
        },
    )
}

/// The payload that holds an image, or why none can.
pub open spec fn encoded_image(image: ImageContent) -> Result<Seq<u8>, DecodeFault> {
    match common::stamped(common::little_endian_header(), image.measurement_time.0) {
        Err(fault) => Err(fault),
        Ok(stamped) => if !common::text_fits(image.frame_id) || !common::text_fits(image.format)
            || image.jpeg.len() > u32::MAX {
            Err(DecodeFault::InvalidLength)
        } else {
            let described = common::with_string(
                common::with_string(stamped, image.frame_id),
                image.format,
            );
            Ok(common::with_u32(described, image.jpeg.len() as u32) + image.jpeg)
        },
    }
}

pub fn encode_compressed_image_cdr(image: &CompressedImage) -> (outcome: Result<
    Vec<u8>,
    DecodeError,
>)
    ensures
        match outcome {
            Ok(output) => encoded_image(image@) == Ok::<Seq<u8>, DecodeFault>(output@),
            Err(error) => encoded_image(image@) == Err::<Seq<u8>, DecodeFault>(error@),
        },
{
    let mut output: Vec<u8> = little_endian_output();
    push_stamp(&mut output, image.measurement_time.0)?;
    push_string(&mut output, image.frame_id.as_str())?;
    push_string(&mut output, image.format.as_str())?;
    let size: usize = image.jpeg.len();
    if size > u32::MAX as usize {
        return Err(DecodeError::InvalidLength);
    }
    push_u32(&mut output, size as u32);
    push_bytes(&mut output, image.jpeg.as_slice());
    Ok(output)
}

/// Decoding an encoded image gives the image back, with its format normalized, where the format
/// mentions JPEG and no field is longer than a decoder accepts.
pub proof fn law_image_round_trip(image: ImageContent)
    requires
        mentions_jpeg(image.format),
        encode_utf8(image.frame_id).len() + 1 <= common::MAX_FIELD_BYTES,
        encode_utf8(image.format).len() + 1 <= common::MAX_FIELD_BYTES,
        image.jpeg.len() <= common::MAX_FIELD_BYTES,
        encoded_image(image) is Ok,
        encoded_image(image)->Ok_0.len() <= usize::MAX,
    ensures
        image_in(encoded_image(image)->Ok_0) == Ok::<ImageContent, DecodeFault>(
            ImageContent { format: "jpeg"@, ..image },
        ),
{
    let header = common::little_endian_header();
    let stamped = common::stamped(header, image.measurement_time.0)->Ok_0;
    let framed = common::with_string(stamped, image.frame_id);
    let described = common::with_string(framed, image.format);
    let sized = common::with_u32(described, image.jpeg.len() as u32);
    let bytes = sized + image.jpeg;
    assert(sized.is_prefix_of(bytes));
    common::lemma_stamped_extends(header, image.measurement_time.0);
    common::lemma_with_string_extends(stamped, image.frame_id);
    common::lemma_with_string_extends(framed, image.format);
    common::lemma_with_u32_extends(described, image.jpeg.len() as u32);
    common::lemma_prefix_chain(described, sized, bytes);
    common::lemma_prefix_chain(framed, described, bytes);
    common::lemma_prefix_chain(stamped, framed, bytes);
    common::lemma_stamp_round_trip(header, image.measurement_time.0, bytes);
    common::lemma_string_round_trip(stamped, image.frame_id, bytes);
    common::lemma_string_round_trip(framed, image.format, bytes);
    common::lemma_u32_round_trip(described, image.jpeg.len() as u32, bytes);
    lemma_header(bytes);
    assert(bytes.subrange(sized.len() as int, bytes.len() as int) =~= image.jpeg);
    lemma_image_of_parts(
        bytes,
        image,
        stamped.len() as int,
        framed.len() as int,
        described.len() as int,
        sized.len() as int,
    );
}

/// An encoded image whose format does not mention JPEG is refused with its format, where neither the
/// frame nor the format is longer than a decoder accepts.
pub proof fn law_other_formats_are_refused(image: ImageContent)
    requires
        !mentions_jpeg(image.format),
        encode_utf8(image.frame_id).len() + 1 <= common::MAX_FIELD_BYTES,
        encode_utf8(image.format).len() + 1 <= common::MAX_FIELD_BYTES,
        encoded_image(image) is Ok,
        encoded_image(image)->Ok_0.len() <= usize::MAX,
    ensures
        image_in(encoded_image(image)->Ok_0) == Err::<ImageContent, DecodeFault>(
            DecodeFault::UnsupportedFormat(image.format),
        ),
{
    let header = common::little_endian_header();
    let stamped = common::stamped(header, image.measurement_time.0)->Ok_0;
    let framed = common::with_string(stamped, image.frame_id);
    let described = common::with_string(framed, image.format);
    let sized = common::with_u32(described, image.jpeg.len() as u32);
    let bytes = sized + image.jpeg;
    assert(sized.is_prefix_of(bytes));
    common::lemma_stamped_extends(header, image.measurement_time.0);
    common::lemma_with_string_extends(stamped, image.frame_id);
    common::lemma_with_string_extends(framed, image.format);
    common::lemma_with_u32_extends(described, image.jpeg.len() as u32);
    common::lemma_prefix_chain(described, sized, bytes);
    common::lemma_prefix_chain(framed, described, bytes);
    common::lemma_prefix_chain(stamped, framed, bytes);
    common::lemma_stamp_round_trip(header, image.measurement_time.0, bytes);
    common::lemma_string_round_trip(stamped, image.frame_id, bytes);
    common::lemma_string_round_trip(framed, image.format, bytes);
    lemma_header(bytes);
}

/// Where the fields of an encoded image that can be decoded end, each behind the other.
proof fn lemma_encoded_ends(image: ImageContent) -> (ends: (int, int, int, int))
    requires
        encoded_image(image) is Ok,
        encoded_image(image)->Ok_0.len() <= usize::MAX,
        image_in(encoded_image(image)->Ok_0) is Ok,
    ensures
        ({
            let bytes = encoded_image(image)->Ok_0;
            &&& common::encapsulation(bytes) == Ok::<Endian, DecodeFault>(Endian::Little)
            &&& common::read_stamp(bytes, Endian::Little, 4) is Ok
            &&& common::read_stamp(bytes, Endian::Little, 4)->Ok_0.1 == ends.0
            &&& common::read_string(bytes, Endian::Little, ends.0) is Ok
            &&& common::read_string(bytes, Endian::Little, ends.0)->Ok_0.1 == ends.1
            &&& common::read_string(bytes, Endian::Little, ends.1) is Ok
            &&& common::read_string(bytes, Endian::Little, ends.1)->Ok_0.1 == ends.2
            &&& mentions_jpeg(common::read_string(bytes, Endian::Little, ends.1)->Ok_0.0)
            &&& common::read_length(bytes, Endian::Little, ends.2) == Ok::<
                (nat, int),
                DecodeFault,
            >((image.jpeg.len(), ends.3))
            &&& 4 <= ends.0 <= ends.1 <= ends.2 <= ends.3
            &&& ends.3 + image.jpeg.len() == bytes.len()
        }),
{
    let header = common::little_endian_header();
    let stamped = common::stamped(header, image.measurement_time.0)->Ok_0;
    let framed = common::with_string(stamped, image.frame_id);
    let described = common::with_string(framed, image.format);
    let sized = common::with_u32(described, image.jpeg.len() as u32);
    let bytes = sized + image.jpeg;
    assert(sized.is_prefix_of(bytes));
    common::lemma_stamped_extends(header, image.measurement_time.0);
    common::lemma_with_string_extends(stamped, image.frame_id);
    common::lemma_with_string_extends(framed, image.format);
    common::lemma_with_u32_extends(described, image.jpeg.len() as u32);
    common::lemma_prefix_chain(described, sized, bytes);
    common::lemma_prefix_chain(framed, described, bytes);
    common::lemma_prefix_chain(stamped, framed, bytes);
    common::lemma_stamp_round_trip(header, image.measurement_time.0, bytes);
    lemma_header(bytes);
    lemma_short_string(stamped, image.frame_id, bytes);
    common::lemma_string_round_trip(stamped, image.frame_id, bytes);
    lemma_short_string(framed, image.format, bytes);
    common::lemma_string_round_trip(framed, image.format, bytes);
    common::lemma_u32_round_trip(described, image.jpeg.len() as u32, bytes);
    (stamped.len() as int, framed.len() as int, described.len() as int, sized.len() as int)
}

/// An encoded string that can be read is no longer than a decoder accepts.
proof fn lemma_short_string(output: Seq<u8>, words: Seq<char>, bytes: Seq<u8>)
    requires
        4 <= output.len(),
        common::with_string(output, words).is_prefix_of(bytes),
        bytes.len() <= usize::MAX,
        common::text_fits(words),
        common::read_string(bytes, Endian::Little, output.len() as int) is Ok,
    ensures
        encode_utf8(words).len() + 1 <= common::MAX_FIELD_BYTES,
{
    let size = (encode_utf8(words).len() + 1) as u32;
    let sized = common::with_u32(output, size);
    let all = common::with_string(output, words);
    assert(sized =~= all.subrange(0, sized.len() as int));
    common::lemma_prefix_chain(sized, all, bytes);
    common::lemma_u32_round_trip(output, size, bytes);
}

/// Of an encoded image that can be decoded, no strict prefix can: each is truncated.
pub proof fn law_prefixes_are_truncated(image: ImageContent, length: int)
    requires
        encoded_image(image) is Ok,
        encoded_image(image)->Ok_0.len() <= usize::MAX,
        image_in(encoded_image(image)->Ok_0) is Ok,
        0 <= length < encoded_image(image)->Ok_0.len(),
    ensures
        image_in(encoded_image(image)->Ok_0.take(length)) == Err::<ImageContent, DecodeFault>(
            DecodeFault::Truncated,
        ),
{
    let bytes = encoded_image(image)->Ok_0;
    let part = bytes.take(length);
    let ends = lemma_encoded_ends(image);
    if length >= 4 {
        assert(part[0] == bytes[0] && part[1] == bytes[1]);
        common::lemma_cut_stamp(bytes, Endian::Little, 4, length);
        common::lemma_cut_string(bytes, Endian::Little, ends.0, length);
        common::lemma_cut_string(bytes, Endian::Little, ends.1, length);
        common::lemma_cut_length(bytes, Endian::Little, ends.2, length);
    }
}

proof fn lemma_header(bytes: Seq<u8>)
    requires
        common::little_endian_header().is_prefix_of(bytes),
    ensures
        common::encapsulation(bytes) == Ok::<Endian, DecodeFault>(Endian::Little),
{
    let header = common::little_endian_header();
    assert(bytes.subrange(0, 4)[0] == header[0] && bytes.subrange(0, 4)[1] == header[1]);
}

/// An image whose fields are read one after another is in the payload.
proof fn lemma_image_of_parts(
    bytes: Seq<u8>,
    image: ImageContent,
    behind_stamp: int,
    behind_frame: int,
    behind_format: int,
    start: int,
)
    requires
        common::encapsulation(bytes) == Ok::<Endian, DecodeFault>(Endian::Little),
        common::read_stamp(bytes, Endian::Little, 4) == Ok::<(i64, int), DecodeFault>(
            (image.measurement_time.0, behind_stamp),
        ),
        common::read_string(bytes, Endian::Little, behind_stamp) == Ok::<
            (Seq<char>, int),
            DecodeFault,
        >((image.frame_id, behind_frame)),
        common::read_string(bytes, Endian::Little, behind_frame) == Ok::<
            (Seq<char>, int),
            DecodeFault,
        >((image.format, behind_format)),
        mentions_jpeg(image.format),
        common::read_u32(bytes, Endian::Little, behind_format) == Ok::<(u32, int), DecodeFault>(
            (image.jpeg.len() as u32, start),
        ),
        image.jpeg.len() <= common::MAX_FIELD_BYTES,
        start + image.jpeg.len() == bytes.len(),
        bytes.len() <= usize::MAX,
        bytes.subrange(start, bytes.len() as int) == image.jpeg,
    ensures
        image_in(bytes) == Ok::<ImageContent, DecodeFault>(
            ImageContent { format: "jpeg"@, ..image },
        ),
{
}

/// An image is written as its time stamp, its frame name and its format, then the number of its bytes
/// and the bytes.
#[verifier::rlimit(60)]
pub proof fn law_images_are_written_in_order(image: CompressedImage)
    requires
        common::head_fits(image.measurement_time.0, image.frame_id@),
        common::text_fits(image.format@),
        image.jpeg@.len() <= u32::MAX,
    ensures
        encoded_image(image@) is Ok,
        ({
            let written = encoded_image(image@)->Ok_0;
            let headed = common::headed(image.measurement_time.0, image.frame_id@);
            let described = common::with_string(headed, image.format@);
            let sized = common::with_u32(described, image.jpeg@.len() as u32);
            &&& written.len() == sized.len() + image.jpeg@.len()
            &&& written.take(sized.len() as int) == sized
            &&& written.skip(sized.len() as int) == image.jpeg@
        }),
{
    let written = encoded_image(image@)->Ok_0;
    let headed = common::headed(image.measurement_time.0, image.frame_id@);
    let sized = common::with_u32(
        common::with_string(headed, image.format@),
        image.jpeg@.len() as u32,
    );
    assert(written.take(sized.len() as int) =~= sized);
    assert(written.skip(sized.len() as int) =~= image.jpeg@);
}

/// An image is read back as it was sent, into fields of its own or into one that shares the payload.
#[verifier::rlimit(60)]
pub proof fn law_images_are_read_back(
    nanos: i64,
    frame: Seq<char>,
    format: Seq<char>,
    jpeg: Seq<u8>,
    bytes: Seq<u8>,
    image: CompressedImage,
    shared: DecodedCompressedImage,
)
    requires
        common::head_fits(nanos, frame),
        mentions_jpeg(format),
        encode_utf8(format).len() < 67_108_864,
        jpeg.len() <= 67_108_864,
        bytes == common::with_u32(
            common::with_string(common::headed(nanos, frame), format),
            jpeg.len() as u32,
        ) + jpeg,
        bytes.len() <= usize::MAX,
    ensures
        image_in(bytes) is Ok,
        image_in(bytes)->Ok_0 == image@ ==> {
            &&& image.measurement_time.0 == nanos
            &&& image.frame_id@ == frame
            &&& image.format@ == "jpeg"@
            &&& image.jpeg@ == jpeg
        },
        image_in(bytes)->Ok_0 == shared@ ==> {
            &&& shared.measurement_time.0 == nanos
            &&& shared.frame_id@ == frame
            &&& shared.format@ == "jpeg"@
            &&& payload::content(shared.jpeg) == jpeg
        },
{
    law_image_round_trip(
        ImageContent { measurement_time: MeasurementTime(nanos), frame_id: frame, format, jpeg },
    );
}

/// A description mentions JPEG where one of its words, between spaces or semicolons, is `jpeg` or
/// `jpg` in letters of any size.
pub proof fn law_formats_name_jpeg_in_a_word(
    before: Seq<char>,
    word: Seq<char>,
    after: Seq<char>,
    short: bool,
)
    requires
        before.len() == 0 || before.last() == ';' || before.last() == ' ',
        after.len() == 0 || after[0] == ';' || after[0] == ' ',
        word.len() == if short {
            3int
        } else {
            4
        },
        word[0] == 'j' || word[0] == 'J',
        word[1] == 'p' || word[1] == 'P',
        short ==> word[2] == 'g' || word[2] == 'G',
        !short ==> (word[2] == 'e' || word[2] == 'E') && (word[3] == 'g' || word[3] == 'G'),
    ensures
        mentions_jpeg(before + word + after),
{
    reveal_strlit("jpeg");
    reveal_strlit("jpg");
    let all = before + word + after;
    let start = before.len() as int;
    let end = start + word.len();
    assert(all.subrange(start, end) =~= word);
    let lower = word.map_values(|c: char| text::ascii_lower(c));
    if short {
        assert(lower =~= "jpg"@);
    } else {
        assert(lower =~= "jpeg"@);
    }
    assert(names_jpeg(all.subrange(start, end)));
    if before.len() > 0 {
        assert(all[start - 1] == before.last());
    }
    if after.len() > 0 {
        assert(all[end] == after[0]);
    }
    assert(starts_word(all, start) && ends_word(all, end));
}

/// A description without a `j` mentions no JPEG.
pub proof fn law_formats_without_the_letter_are_not_jpeg(words: Seq<char>)
    requires
        forall|i: int| 0 <= i < words.len() ==> (#[trigger] words[i]) != 'j' && words[i] != 'J',
    ensures
        !mentions_jpeg(words),
{
    reveal_strlit("jpeg");
    reveal_strlit("jpg");
    if mentions_jpeg(words) {
        let (start, end) = choose|start: int, end: int|
            0 <= start <= end <= words.len() && starts_word(words, start) && ends_word(words, end)
                && names_jpeg(#[trigger] words.subrange(start, end));
        let word = words.subrange(start, end);
        let lower = word.map_values(|c: char| text::ascii_lower(c));
        assert(lower.len() == word.len());
        assert(lower[0] == 'j');
        assert(lower[0] == text::ascii_lower(words[start]));
    }
}

} // verus!

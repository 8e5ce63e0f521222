//! Characters, white space and ASCII case of text.

use vstd::prelude::*;
use vstd::string::*;

verus! {

/// A character with the Unicode property `White_Space`.
pub open spec fn white_space(c: char) -> bool {
    let code = c as u32;
    ||| 0x9 <= code <= 0xd
    ||| code == 0x20
    ||| code == 0x85
    ||| code == 0xa0
    ||| code == 0x1680
    ||| 0x2000 <= code <= 0x200a
    ||| code == 0x2028
    ||| code == 0x2029
    ||| code == 0x202f
    ||| code == 0x205f
    ||| code == 0x3000
}

/// Whether a character has the Unicode property `White_Space`.
pub fn is_white_space(c: char) -> (white: bool)
    ensures
        white == white_space(c),
{
    let code: u32 = c as u32;
    (0x9 <= code && code <= 0xd) || code == 0x20 || code == 0x85 || code == 0xa0 || code == 0x1680
        || (0x2000 <= code && code <= 0x200a) || code == 0x2028 || code == 0x2029 || code == 0x202f
        || code == 0x205f || code == 0x3000
}

/// The text holds nothing but white space.
pub open spec fn blank(text: Seq<char>) -> bool {
    forall|i: int| 0 <= i < text.len() ==> white_space(#[trigger] text[i])
}

/// Whether the text holds nothing but white space.
pub fn is_blank(text: &str) -> (all_white: bool)
    ensures
        all_white == blank(text@),
{
    let letters: Vec<char> = characters(text);
    let mut index: usize = 0;
    while index < letters.len()
        invariant
            index <= letters.len(),
            letters@ == text@,
            forall|i: int| 0 <= i < index ==> white_space(#[trigger] text@[i]),
        decreases letters.len() - index,
    {
        if !is_white_space(letters[index]) {
            assert(!white_space(text@[index as int]));
            return false;
        }
        index = index + 1;
    }
    true
}

/// The ASCII lower case of a character; every other character stands for itself.
pub open spec fn ascii_lower(c: char) -> char {
    if 'A' <= c <= 'Z' {
        ((c as u32) + 32) as char
    } else {
        c
    }
}

/// The characters of a text, in order.
pub fn characters(text: &str) -> (letters: Vec<char>)
    ensures
        letters@ == text@,
{
    let mut letters: Vec<char> = Vec::new();
    for c in walk: text.chars()
        invariant
            walk.seq() == text@,
            letters@ == text@.take(walk.index()),
    {
        proof {
            assert(text@.take(walk.index() + 1) =~= text@.take(walk.index()).push(
                text@[walk.index()],
            ));
        }
        letters.push(c);
    }
    assert(text@.take(text@.len() as int) =~= text@);
    letters
}

/// Whether two texts hold the same characters.
pub fn same_text(first: &str, second: &str) -> (same: bool)
    ensures
        same == (first@ == second@),
{
    let first_bytes: &[u8] = first.as_bytes();
    let second_bytes: &[u8] = second.as_bytes();
    proof {
        vstd::utf8::encode_utf8_decode_utf8(first@);
        vstd::utf8::encode_utf8_decode_utf8(second@);
    }
    if first_bytes.len() != second_bytes.len() {
        return false;
    }
    let mut index: usize = 0;
    while index < first_bytes.len()
        invariant
            index <= first_bytes@.len() == second_bytes@.len(),
            first_bytes@ == first.spec_bytes(),
            second_bytes@ == second.spec_bytes(),
            forall|i: int| 0 <= i < index ==> first_bytes@[i] == second_bytes@[i],
        decreases first_bytes@.len() - index,
    {
        if first_bytes[index] != second_bytes[index] {
            return false;
        }
        index = index + 1;
    }
    assert(first_bytes@ =~= second_bytes@);
    true
}

/// The text without the white space at its start.
pub open spec fn trimmed_start(text: Seq<char>) -> Seq<char>
    decreases text.len(),
{
    if text.len() > 0 && white_space(text[0]) {
        trimmed_start(text.drop_first())
    } else {
        text
    }
}

/// The text without the white space at its end.
pub open spec fn trimmed_end(text: Seq<char>) -> Seq<char>
    decreases text.len(),
{
    if text.len() > 0 && white_space(text.last()) {
        trimmed_end(text.drop_last())
    } else {
        text
    }
}

/// The text without every slash at its start.
pub open spec fn without_slashes(text: Seq<char>) -> Seq<char>
    decreases text.len(),
{
    if text.len() > 0 && text[0] == '/' {
        without_slashes(text.drop_first())
    } else {
        text
    }
}

/// The name of a coordinate frame without surrounding white space and leading slashes.
pub open spec fn frame_name(text: Seq<char>) -> Seq<char> {
    without_slashes(trimmed_end(trimmed_start(text)))
}

/// The name of a coordinate frame without surrounding white space and leading slashes.
pub fn normalize_frame(frame: &str) -> (name: String)
    ensures
        name@ == frame_name(frame@),
{
    let letters: Vec<char> = characters(frame);
    let mut start: usize = 0;
    let mut end: usize = letters.len();
    assert(letters@.subrange(0, end as int) =~= letters@);
    while start < end && is_white_space(letters[start])
        invariant
            start <= end == letters@.len(),
            trimmed_start(letters@) == trimmed_start(letters@.subrange(start as int, end as int)),
        decreases end - start,
    {
        assert(letters@.subrange(start as int, end as int).drop_first() =~= letters@.subrange(
            start + 1,
            end as int,
        ));
        start = start + 1;
    }
    let ghost first = letters@.subrange(start as int, end as int);
    assert(trimmed_start(letters@) == first);
    while start < end && is_white_space(letters[end - 1])
        invariant
            start <= end <= letters@.len(),
            trimmed_end(first) == trimmed_end(letters@.subrange(start as int, end as int)),
        decreases end - start,
    {
        assert(letters@.subrange(start as int, end as int).drop_last() =~= letters@.subrange(
            start as int,
            end - 1,
        ));
        end = end - 1;
    }
    let ghost second = letters@.subrange(start as int, end as int);
    assert(trimmed_end(first) == second);
    while start < end && letters[start] == '/'
        invariant
            start <= end <= letters@.len(),
            without_slashes(second) == without_slashes(
                letters@.subrange(start as int, end as int),
            ),
        decreases end - start,
    {
        assert(letters@.subrange(start as int, end as int).drop_first() =~= letters@.subrange(
            start + 1,
            end as int,
        ));
        start = start + 1;
    }
    let ghost third = letters@.subrange(start as int, end as int);
    let mut name: String = String::new();
    let mut index: usize = start;
    while index < end
        invariant
            start <= index <= end <= letters@.len(),
            name@ == letters@.subrange(start as int, index as int),
        decreases end - index,
    {
        name.push(letters[index]);
        index = index + 1;
        assert(name@ =~= letters@.subrange(start as int, index as int));
    }
    assert(name@ == third);
    name
}

/// `String::push`: the text with one character behind it.
pub assume_specification[ String::push ](s: &mut String, c: char)
    ensures
        final(s)@ == old(s)@.push(c),
;

/// The character that stands for a digit.
pub open spec fn digit(value: nat) -> char {
    if value == 0 {
        '0'
    } else if value == 1 {
        '1'
    } else if value == 2 {
        '2'
    } else if value == 3 {
        '3'
    } else if value == 4 {
        '4'
    } else if value == 5 {
        '5'
    } else if value == 6 {
        '6'
    } else if value == 7 {
        '7'
    } else if value == 8 {
        '8'
    } else if value == 9 {
        '9'
    } else if value == 10 {
        'a'
    } else if value == 11 {
        'b'
    } else if value == 12 {
        'c'
    } else if value == 13 {
        'd'
    } else if value == 14 {
        'e'
    } else {
        'f'
    }
}

/// The decimal digits of a number, without leading zeros.
pub open spec fn decimal(value: nat) -> Seq<char>
    decreases value,
{
    if value < 10 {
        seq![digit(value)]
    } else {
        decimal(value / 10).push(digit(value % 10))
    }
}

/// The decimal digits of a number behind its sign, where it is negative.
pub open spec fn signed_decimal(value: int) -> Seq<char> {
    if value < 0 {
        seq!['-'] + decimal((-value) as nat)
    } else {
        decimal(value as nat)
    }
}

fn digit_char(value: u64) -> (c: char)
    requires
        value < 16,
    ensures
        c == digit(value as nat),
{
    match value {
        0 => '0',
        1 => '1',
        2 => '2',
        3 => '3',
        4 => '4',
        5 => '5',
        6 => '6',
        7 => '7',
        8 => '8',
        9 => '9',
        10 => 'a',
        11 => 'b',
        12 => 'c',
        13 => 'd',
        14 => 'e',
        _ => 'f',
    }
}

/// Appends the decimal digits of a number.
pub fn push_decimal(output: &mut String, value: u64)
    ensures
        final(output)@ == old(output)@ + decimal(value as nat),
    decreases value,
{
    if value >= 10 {
        push_decimal(output, value / 10);
    }
    output.push(digit_char(value % 10));
    assert(output@ =~= old(output)@ + decimal(value as nat));
}

/// The decimal digits of a number.
pub fn number(value: u64) -> (words: String)
    ensures
        words@ == decimal(value as nat),
{
    let mut words: String = String::new();
    push_decimal(&mut words, value);
    assert(words@ =~= decimal(value as nat));
    words
}

/// The lowest hexadecimal digits of a number, so many of them.
pub open spec fn hexadecimal(value: nat, digits: nat) -> Seq<char>
    decreases digits,
{
    if digits == 0 {
        Seq::empty()
    } else {
        hexadecimal(value / 16, (digits - 1) as nat).push(digit(value % 16))
    }
}

/// Appends the lowest hexadecimal digits of a number, so many of them.
pub fn push_hexadecimal(output: &mut String, value: u64, digits: u32)
    ensures
        final(output)@ == old(output)@ + hexadecimal(value as nat, digits as nat),
    decreases digits,
{
    if digits > 0 {
        push_hexadecimal(output, value / 16, digits - 1);
        output.push(digit_char(value % 16));
    }
    assert(output@ =~= old(output)@ + hexadecimal(value as nat, digits as nat));
}

/// Appends a number in decimal, with its sign where it is negative.
pub fn push_signed(output: &mut String, value: i64)
    ensures
        final(output)@ == old(output)@ + signed_decimal(value as int),
{
    if value < 0 {
        output.push('-');
        push_decimal(output, (-(value as i128)) as u64);
    } else {
        push_decimal(output, value as u64);
    }
    assert(output@ =~= old(output)@ + signed_decimal(value as int));
}

proof fn lemma_trimmed_text(name: Seq<char>)
    requires
        name.len() > 0,
        !white_space(name[0]),
        !white_space(name.last()),
    ensures
        trimmed_start(name) == name,
        trimmed_end(name) == name,
{
}

/// A frame name that neither starts nor ends with white space and does not start with a slash names
/// itself, with white space around it and slashes before it too.
pub proof fn law_frame_names_stand_for_themselves(
    name: Seq<char>,
    before: Seq<char>,
    slashes: Seq<char>,
    after: Seq<char>,
)
    requires
        name.len() > 0,
        name[0] != '/',
        !white_space(name[0]),
        !white_space(name.last()),
        blank(before),
        blank(after),
        forall|i: int| 0 <= i < slashes.len() ==> slashes[i] == '/',
    ensures
        frame_name(name) == name,
        frame_name(before + slashes + name + after) == name,
        frame_name(Seq::empty()) == Seq::<char>::empty(),
{
    lemma_trimmed_text(name);
    let core = slashes + name;
    assert(core.last() == name.last());
    if slashes.len() > 0 {
        assert(core[0] == slashes[0]);
    } else {
        assert(core[0] == name[0]);
    }
    lemma_trimmed_text(core);
    assert(before + slashes + name + after =~= before + (core + after));
    lemma_trim_before(before, core + after);
    lemma_trim_after(core, after);
    lemma_trim_slashes(slashes, name);
}

proof fn lemma_trim_before(before: Seq<char>, rest: Seq<char>)
    requires
        blank(before),
        rest.len() > 0,
        !white_space(rest[0]),
    ensures
        trimmed_start(before + rest) == rest,
    decreases before.len(),
{
    if before.len() == 0 {
        assert(before + rest =~= rest);
    } else {
        assert((before + rest)[0] == before[0]);
        assert((before + rest).drop_first() =~= before.drop_first() + rest);
        lemma_trim_before(before.drop_first(), rest);
    }
}

proof fn lemma_trim_after(rest: Seq<char>, after: Seq<char>)
    requires
        blank(after),
        rest.len() > 0,
        !white_space(rest.last()),
    ensures
        trimmed_end(rest + after) == rest,
    decreases after.len(),
{
    if after.len() == 0 {
        assert(rest + after =~= rest);
    } else {
        assert((rest + after).last() == after[after.len() - 1]);
        assert((rest + after).drop_last() =~= rest + after.drop_last());
        lemma_trim_after(rest, after.drop_last());
    }
}

proof fn lemma_trim_slashes(slashes: Seq<char>, rest: Seq<char>)
    requires
        forall|i: int| 0 <= i < slashes.len() ==> slashes[i] == '/',
        rest.len() > 0,
        rest[0] != '/',
    ensures
        without_slashes(slashes + rest) == rest,
    decreases slashes.len(),
{
    if slashes.len() == 0 {
        assert(slashes + rest =~= rest);
    } else {
        assert((slashes + rest)[0] == slashes[0]);
        assert((slashes + rest).drop_first() =~= slashes.drop_first() + rest);
        lemma_trim_slashes(slashes.drop_first(), rest);
    }
}

/// The number that some digits stand for, the last of them the lowest.
pub open spec fn number_of(digits: Seq<char>, base: nat) -> nat
    decreases digits.len(),
{
    if digits.len() == 0 {
        0
    } else {
        number_of(digits.drop_last(), base) * base + value_of(digits.last())
    }
}

/// What a digit is worth: those from nought to nine by their place behind nought, the letters by their
/// place behind `a`, from ten on.
pub open spec fn value_of(digit: char) -> nat {
    if digit as u32 >= 0x61 {
        (digit as u32 - 0x61 + 10) as nat
    } else {
        (digit as u32 - 0x30) as nat
    }
}

proof fn lemma_digit(value: nat)
    requires
        value < 16,
    ensures
        value_of(digit(value)) == value,
{
}

/// The digits of a number stand for it, without a leading zero; those of a negative one stand behind a
/// sign.
pub proof fn law_decimals_stand_for_their_number(value: nat)
    ensures
        number_of(decimal(value), 10) == value,
        decimal(value).len() >= 1,
        value > 0 ==> decimal(value)[0] != '0',
        value > 0 ==> signed_decimal(-value) == seq!['-'] + decimal(value),
        signed_decimal(value as int) == decimal(value),
    decreases value,
{
    if value < 10 {
        lemma_digit(value);
        assert(decimal(value).drop_last() =~= Seq::empty());
        assert(number_of(decimal(value).drop_last(), 10) == 0);
    } else {
        law_decimals_stand_for_their_number(value / 10);
        lemma_digit(value % 10);
        assert(decimal(value).drop_last() =~= decimal(value / 10));
        assert(decimal(value)[0] == decimal(value / 10)[0]);
    }
}

/// The hexadecimal digits of a number stand for it, where there are enough of them.
pub proof fn law_hexadecimals_stand_for_their_number(value: nat, digits: nat)
    ensures
        hexadecimal(value, digits).len() == digits,
        value < vstd::arithmetic::power::pow(16, digits) ==> number_of(
            hexadecimal(value, digits),
            16,
        ) == value,
    decreases digits,
{
    if digits == 0 {
        vstd::arithmetic::power::lemma_pow0(16);
    } else {
        law_hexadecimals_stand_for_their_number(value / 16, (digits - 1) as nat);
        lemma_digit(value % 16);
        assert(hexadecimal(value, digits).drop_last() =~= hexadecimal(
            value / 16,
            (digits - 1) as nat,
        ));
        vstd::arithmetic::power::lemma_pow_positive(16, (digits - 1) as nat);
        assert(vstd::arithmetic::power::pow(16, digits) == 16 * vstd::arithmetic::power::pow(
            16,
            (digits - 1) as nat,
        )) by {
            reveal(vstd::arithmetic::power::pow);
        }
    }
}

} // verus!

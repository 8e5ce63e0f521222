//! Requests to a recording server, and the checks on what it answers.

use crate::message::payload;
use crate::message::text::{self, number, push_decimal, same_text};
use bytes::Bytes;
use vstd::prelude::*;
use vstd::string::*;
use vstd::utf8::*;

verus! {

/// Why a request failed, in words.
#[derive(Debug, Eq, PartialEq)]
pub struct RemoteClientError {
    message: String,
}

impl View for RemoteClientError {
    type V = Seq<char>;

    closed spec fn view(&self) -> Seq<char> {
        self.message@
    }
}

impl RemoteClientError {
    pub fn new(message: String) -> (error: Self)
        ensures
            error@ == message@,
    {
        RemoteClientError { message }
    }

    /// The words of the error.
    pub fn message(&self) -> (message: String)
        ensures
            message@ == self@,
    {
        self.message.as_str().to_owned()
    }
}

/// The number of the latest request. What an earlier one brings is stale.
#[derive(Clone, Copy, Debug, Eq, PartialEq, Structural)]
pub struct RequestGeneration(u64);

impl Default for RequestGeneration {
    fn default() -> (generation: Self)
        ensures
            generation.latest() == 0,
    {
        RequestGeneration(0)
    }
}

impl RequestGeneration {
    pub closed spec fn latest(&self) -> u64 {
        self.0
    }

    /// Starts a request.
    pub fn next(&mut self) -> (generation: u64)
        ensures
            generation == next_request(old(self).latest()),
            final(self).latest() == generation,
    {
        self.0 = self.0.wrapping_add(1);
        self.0
    }

    pub fn is_current(self, generation: u64) -> (current: bool)
        ensures
            current == (self.latest() == generation),
    {
        self.0 == generation
    }
}

/// The number of the request behind one.
pub open spec fn next_request(generation: u64) -> u64 {
    if generation == u64::MAX {
        0
    } else {
        (generation + 1) as u64
    }
}

/// One page of the messages of some streams in a range of time.
#[derive(Clone, Debug, Eq, PartialEq)]
pub struct RemoteBatchRequest {
    pub recording_id: String,
    pub revision: String,
    pub stream_ids: Vec<u32>,
    pub start_ns: u64,
    pub end_ns: u64,
    pub max_bytes: Option<usize>,
    pub max_messages: Option<usize>,
    pub cursor: Option<String>,
}

/// What a request says.
pub struct BatchRequestContent {
    pub recording_id: Seq<char>,
    pub revision: Seq<char>,
    pub stream_ids: Seq<u32>,
    pub start_ns: u64,
    pub end_ns: u64,
    pub max_bytes: Option<usize>,
    pub max_messages: Option<usize>,
    pub cursor: Option<Seq<char>>,
}

impl View for RemoteBatchRequest {
    type V = BatchRequestContent;

    open spec fn view(&self) -> BatchRequestContent {
        BatchRequestContent {
            recording_id: self.recording_id@,
            revision: self.revision@,
            stream_ids: self.stream_ids@,
            start_ns: self.start_ns,
            end_ns: self.end_ns,
            max_bytes: self.max_bytes,
            max_messages: self.max_messages,
            cursor: optional_text(self.cursor),
        }
    }
}

/// A text, if there is one.
pub open spec fn optional_text(words: Option<String>) -> Option<Seq<char>> {
    match words {
        Some(words) => Some(words@),
        None => None,
    }
}

/// Numbers with commas between them.
pub open spec fn comma_separated(ids: Seq<u32>) -> Seq<char>
    decreases ids.len(),
{
    if ids.len() == 0 {
        Seq::empty()
    } else if ids.len() == 1 {
        text::decimal(ids[0] as nat)
    } else {
        comma_separated(ids.drop_last()) + ","@ + text::decimal(ids.last() as nat)
    }
}

/// What each name and value of a list is.
pub open spec fn pair_contents(pairs: Seq<(&'static str, String)>) -> Seq<(Seq<char>, Seq<char>)> {
    pairs.map_values(|pair: (&'static str, String)| (pair.0@, pair.1@))
}

fn join_ids(ids: &Vec<u32>) -> (joined: String)
    ensures
        joined@ == comma_separated(ids@),
{
    let mut joined: String = String::new();
    let mut index: usize = 0;
    assert(joined@ =~= comma_separated(ids@.take(0)));
    while index < ids.len()
        invariant
            index <= ids@.len(),
            joined@ == comma_separated(ids@.take(index as int)),
        decreases ids@.len() - index,
    {
        assert(ids@.take(index + 1).drop_last() =~= ids@.take(index as int));
        if index > 0 {
            joined.append(",");
        }
        let ghost before = joined@;
        push_decimal(&mut joined, ids[index] as u64);
        if index == 0 {
            assert(joined@ =~= text::decimal(ids@[0] as nat));
        }
        index = index + 1;
    }
    assert(ids@.take(ids@.len() as int) =~= ids@);
    joined
}

impl BatchRequestContent {
    /// The names and values of the query. Limits and the cursor are there where they are set.
    pub open spec fn spec_query_pairs(self) -> Seq<(Seq<char>, Seq<char>)> {
        let pairs = seq![
            ("revision"@, self.revision),
            ("streams"@, comma_separated(self.stream_ids)),
            ("start_ns"@, text::decimal(self.start_ns as nat)),
            ("end_ns"@, text::decimal(self.end_ns as nat)),
        ];
        let pairs = match self.max_bytes {
            Some(limit) => pairs.push(("max_bytes"@, text::decimal(limit as nat))),
            None => pairs,
        };
        let pairs = match self.max_messages {
            Some(limit) => pairs.push(("max_messages"@, text::decimal(limit as nat))),
            None => pairs,
        };
        match self.cursor {
            Some(cursor) => pairs.push(("cursor"@, cursor)),
            None => pairs,
        }
    }
}

fn add_pair(pairs: &mut Vec<(&'static str, String)>, name: &'static str, value: String)
    ensures
        pair_contents(final(pairs)@) == pair_contents(old(pairs)@).push((name@, value@)),
{
    let ghost before = pairs@;
    let ghost words = value@;
    pairs.push((name, value));
    assert(pair_contents(pairs@) =~= pair_contents(before).push((name@, words)));
}

impl RemoteBatchRequest {
    /// The names and values of the query.
    pub fn query_pairs(&self) -> (pairs: Vec<(&'static str, String)>)
        ensures
            pair_contents(pairs@) == self@.spec_query_pairs(),
    {
        let mut pairs: Vec<(&'static str, String)> = Vec::new();
        assert(pair_contents(pairs@) =~= Seq::empty());
        add_pair(&mut pairs, "revision", self.revision.clone());
        add_pair(&mut pairs, "streams", join_ids(&self.stream_ids));
        add_pair(&mut pairs, "start_ns", number(self.start_ns));
        add_pair(&mut pairs, "end_ns", number(self.end_ns));
        assert(pair_contents(pairs@) =~= seq![
            ("revision"@, self@.revision),
            ("streams"@, comma_separated(self@.stream_ids)),
            ("start_ns"@, text::decimal(self@.start_ns as nat)),
            ("end_ns"@, text::decimal(self@.end_ns as nat)),
        ]);
        if let Some(limit) = self.max_bytes {
            add_pair(&mut pairs, "max_bytes", number(limit as u64));
        }
        if let Some(limit) = self.max_messages {
            add_pair(&mut pairs, "max_messages", number(limit as u64));
        }
        if let Some(cursor) = &self.cursor {
            add_pair(&mut pairs, "cursor", cursor.clone());
        }
        pairs
    }
}

/// The character may stand in a path as it is.
pub open spec fn unreserved(byte: u8) -> bool {
    ||| 0x30 <= byte <= 0x39
    ||| 0x41 <= byte <= 0x5a
    ||| 0x61 <= byte <= 0x7a
    ||| byte == 0x2d
    ||| byte == 0x5f
    ||| byte == 0x2e
    ||| byte == 0x7e
}

/// A hexadecimal digit with a capital letter.
pub open spec fn capital_digit(value: int) -> char {
    if value < 10 {
        (0x30 + value) as char
    } else {
        (0x37 + value) as char
    }
}

/// The bytes of a segment of a path, each that may not stand there as a percent sign and two
/// hexadecimal digits.
pub open spec fn path_segment(bytes: Seq<u8>) -> Seq<char>
    decreases bytes.len(),
{
    if bytes.len() == 0 {
        Seq::empty()
    } else {
        let byte = bytes.last();
        let encoded = path_segment(bytes.drop_last());
        if unreserved(byte) {
            encoded.push(byte as char)
        } else {
            encoded.push('%').push(capital_digit(byte as int / 16)).push(capital_digit(byte as int % 16))
        }
    }
}

fn push_capital_digit(output: &mut String, value: u8)
    requires
        value < 16,
    ensures
        final(output)@ == old(output)@.push(capital_digit(value as int)),
{
    if value < 10 {
        output.push((0x30 + value) as char);
    } else {
        output.push((0x37 + value) as char);
    }
}

/// A text as a segment of a path.
pub fn encode_path_segment(value: &str) -> (encoded: String)
    ensures
        encoded@ == path_segment(encode_utf8(value@)),
{
    let bytes: &[u8] = value.as_bytes();
    let ghost all = encode_utf8(value@);
    let mut encoded: String = String::new();
    let mut index: usize = 0;
    assert(all.take(0) =~= Seq::empty());
    assert(encoded@ =~= Seq::empty());
    while index < bytes.len()
        invariant
            index <= bytes@.len(),
            bytes@ == all,
            encoded@ == path_segment(all.take(index as int)),
        decreases bytes@.len() - index,
    {
        assert(all.take(index + 1).drop_last() =~= all.take(index as int));
        let byte: u8 = bytes[index];
        if (0x30 <= byte && byte <= 0x39) || (0x41 <= byte && byte <= 0x5a) || (0x61 <= byte && byte
            <= 0x7a) || byte == 0x2d || byte == 0x5f || byte == 0x2e || byte == 0x7e {
            encoded.push(byte as char);
        } else {
            encoded.push('%');
            push_capital_digit(&mut encoded, byte / 16);
            push_capital_digit(&mut encoded, byte % 16);
        }
        index = index + 1;
    }
    assert(all.take(all.len() as int) =~= all);
    encoded
}

/// A text without the slashes at its end.
pub open spec fn without_end_slashes(words: Seq<char>) -> Seq<char>
    decreases words.len(),
{
    if words.len() > 0 && words.last() == '/' {
        without_end_slashes(words.drop_last())
    } else {
        words
    }
}

/// Where a server is reached.
#[derive(Debug, Eq, PartialEq)]
pub struct RemoteApiClient {
    base_url: String,
}

impl View for RemoteApiClient {
    type V = Seq<char>;

    closed spec fn view(&self) -> Seq<char> {
        self.base_url@
    }
}

fn kept_letters(letters: &Vec<char>) -> (count: usize)
    ensures
        count <= letters@.len(),
        letters@.take(count as int) == without_end_slashes(letters@),
{
    let mut count: usize = letters.len();
    assert(letters@.take(letters@.len() as int) =~= letters@);
    while count > 0 && letters[count - 1] == '/'
        invariant
            count <= letters@.len(),
            without_end_slashes(letters@) == without_end_slashes(letters@.take(count as int)),
        decreases count,
    {
        assert(letters@.take(count as int).drop_last() =~= letters@.take(count - 1));
        count = count - 1;
    }
    count
}

impl RemoteApiClient {
    /// A client of the server at a URL, which may end with slashes.
    pub fn new(base_url: &str) -> (outcome: Result<Self, RemoteClientError>)
        ensures
            match outcome {
                Ok(client) => client@ == without_end_slashes(base_url@) && client@.len() > 0,
                Err(error) => without_end_slashes(base_url@).len() == 0 && error@
                    == "remote server URL is empty"@,
            },
    {
        let letters: Vec<char> = text::characters(base_url);
        let count: usize = kept_letters(&letters);
        if count == 0 {
            return Err(RemoteClientError::new("remote server URL is empty".to_owned()));
        }
        let mut kept: String = String::new();
        let mut index: usize = 0;
        assert(kept@ =~= letters@.take(0));
        while index < count
            invariant
                index <= count <= letters@.len(),
                kept@ == letters@.take(index as int),
            decreases count - index,
        {
            kept.push(letters[index]);
            index = index + 1;
            assert(kept@ =~= letters@.take(index as int));
        }
        Ok(RemoteApiClient { base_url: kept })
    }

    pub fn base_url(&self) -> (url: &str)
        ensures
            url@ == self@,
    {
        self.base_url.as_str()
    }

    /// The same client once more.
    pub fn copy(&self) -> (copy: Self)
        ensures
            copy@ == self@,
    {
        RemoteApiClient { base_url: self.base_url.as_str().to_owned() }
    }

    /// Where the recordings are listed.
    pub fn recordings_url(&self) -> (url: String)
        ensures
            url@ == self@ + "/v1/recordings"@,
    {
        let mut url: String = self.base_url.as_str().to_owned();
        url.append("/v1/recordings");
        url
    }

    /// Where the catalog of a recording is.
    pub fn catalog_url(&self, recording_id: &str) -> (url: String)
        ensures
            url@ == self@ + "/v1/recordings/"@ + path_segment(encode_utf8(recording_id@))
                + "/catalog"@,
    {
        let mut url: String = self.base_url.as_str().to_owned();
        url.append("/v1/recordings/");
        url.append(encode_path_segment(recording_id).as_str());
        url.append("/catalog");
        url
    }

    /// Where the messages of a recording are.
    pub fn messages_url(&self, recording_id: &str) -> (url: String)
        ensures
            url@ == self@ + "/v1/recordings/"@ + path_segment(encode_utf8(recording_id@))
                + "/messages"@,
    {
        let mut url: String = self.base_url.as_str().to_owned();
        url.append("/v1/recordings/");
        url.append(encode_path_segment(recording_id).as_str());
        url.append("/messages");
        url
    }
}

/// Refuses an answer of another schema version than the supported one.
pub fn validate_schema(schema_version: u32, supported: u32) -> (outcome: Result<
    (),
    RemoteClientError,
>)
    ensures
        match outcome {
            Ok(_) => schema_version == supported,
            Err(error) => schema_version != supported && error@
                == "unsupported remote schema version: "@ + text::decimal(schema_version as nat),
        },
{
    if schema_version == supported {
        return Ok(());
    }
    let mut message: String = "unsupported remote schema version: ".to_owned();
    push_decimal(&mut message, schema_version as u64);
    Err(RemoteClientError::new(message))
}

/// The words for an answer that reports a failure.
pub fn http_error(status: u16, detail: &str) -> (error: RemoteClientError)
    ensures
        error@ == "remote HTTP "@ + text::decimal(status as nat) + ": "@ + detail@,
{
    let mut message: String = "remote HTTP ".to_owned();
    push_decimal(&mut message, status as u64);
    message.append(": ");
    message.append(detail);
    RemoteClientError::new(message)
}

/// The value of a decimal digit.
pub open spec fn digit_value(c: char) -> Option<nat> {
    if '0' <= c <= '9' {
        Some(((c as u32) - 0x30) as nat)
    } else {
        None
    }
}

/// The number that some decimal digits stand for.
pub open spec fn digits_value(letters: Seq<char>) -> Option<nat>
    decreases letters.len(),
{
    if letters.len() == 0 {
        Some(0)
    } else {
        match (digits_value(letters.drop_last()), digit_value(letters.last())) {
            (Some(value), Some(digit)) => Some(value * 10 + digit),
            _ => None,
        }
    }
}

/// The count that a text stands for: decimal digits, perhaps behind a plus sign.
pub open spec fn count_of(words: Seq<char>) -> Option<usize> {
    let digits = if words.len() > 0 && words[0] == '+' {
        words.drop_first()
    } else {
        words
    };
    match digits_value(digits) {
        Some(value) => if digits.len() > 0 && value <= usize::MAX {
            Some(value as usize)
        } else {
            None
        },
        None => None,
    }
}

proof fn lemma_digits_grow(letters: Seq<char>, count: int)
    requires
        0 <= count <= letters.len(),
    ensures
        digits_value(letters) matches Some(value) ==> (digits_value(letters.take(count)) matches Some(
            part,
        ) && part <= value),
    decreases letters.len(),
{
    if count < letters.len() {
        lemma_digits_grow(letters.drop_last(), count);
        assert(letters.drop_last().take(count) =~= letters.take(count));
    } else {
        assert(letters.take(count) =~= letters);
    }
}

/// The count that a text stands for.
pub fn parse_count(words: &str) -> (count: Option<usize>)
    ensures
        count == count_of(words@),
{
    let letters: Vec<char> = text::characters(words);
    let start: usize = if letters.len() > 0 && letters[0] == '+' {
        1
    } else {
        0
    };
    let ghost digits = letters@.skip(start as int);
    assert(digits =~= if words@.len() > 0 && words@[0] == '+' {
        words@.drop_first()
    } else {
        words@
    });
    if start == letters.len() {
        return None;
    }
    let mut value: usize = 0;
    let mut index: usize = start;
    assert(digits.take(0) =~= Seq::empty());
    while index < letters.len()
        invariant
            start <= index <= letters@.len(),
            digits == letters@.skip(start as int),
            digits.len() > 0,
            count_of(words@) == (match digits_value(digits) {
                Some(value) => if value <= usize::MAX {
                    Some(value as usize)
                } else {
                    None
                },
                None => None,
            }),
            digits_value(digits.take(index - start)) == Some(value as nat),
        decreases letters@.len() - index,
    {
        proof {
            assert(digits.take(index + 1 - start).drop_last() =~= digits.take(index - start));
            assert(digits.take(index + 1 - start).last() == letters@[index as int]);
            lemma_digits_grow(digits, index + 1 - start);
        }
        let letter: char = letters[index];
        if !('0' <= letter && letter <= '9') {
            return None;
        }
        let digit: usize = (letter as u32 - 0x30) as usize;
        if value > usize::MAX / 10 {
            return None;
        }
        if value * 10 > usize::MAX - digit {
            return None;
        }
        value = value * 10 + digit;
        index = index + 1;
    }
    assert(digits.take(digits.len() as int) =~= digits);
    Some(value)
}

/// What the headers of an answer say of a page.
#[derive(Clone, Debug, Eq, PartialEq)]
pub struct BatchResponseMetadata {
    pub content_type: Option<String>,
    pub recording_revision: Option<String>,
    pub complete: Option<String>,
    pub next_cursor: Option<String>,
    pub message_count: Option<String>,
}

/// What headers say.
pub struct MetadataContent {
    pub content_type: Option<Seq<char>>,
    pub recording_revision: Option<Seq<char>>,
    pub complete: Option<Seq<char>>,
    pub next_cursor: Option<Seq<char>>,
    pub message_count: Option<Seq<char>>,
}

impl View for BatchResponseMetadata {
    type V = MetadataContent;

    open spec fn view(&self) -> MetadataContent {
        MetadataContent {
            content_type: optional_text(self.content_type),
            recording_revision: optional_text(self.recording_revision),
            complete: optional_text(self.complete),
            next_cursor: optional_text(self.next_cursor),
            message_count: optional_text(self.message_count),
        }
    }
}

/// A message of a page, and where its payload lies in the body of the page.
#[derive(Clone, Copy, Debug, Eq, PartialEq)]
pub struct BatchMessage {
    pub stream_id: u32,
    pub log_time_ns: u64,
    /// Where the payload starts and ends, if it lies in the body.
    pub payload: Option<(usize, usize)>,
}

/// A page of messages.
#[derive(Clone, Debug, Eq, PartialEq)]
pub struct RemoteBatchPage {
    pub body: Bytes,
    /// The messages that the body holds.
    pub messages: Vec<BatchMessage>,
    pub complete: bool,
    pub next_cursor: Option<String>,
    pub message_count: usize,
    pub recording_revision: String,
}

/// What a page holds.
pub struct PageContent {
    pub body: Seq<u8>,
    pub messages: Seq<BatchMessage>,
    pub complete: bool,
    pub next_cursor: Option<Seq<char>>,
    pub message_count: usize,
    pub recording_revision: Seq<char>,
}

impl View for RemoteBatchPage {
    type V = PageContent;

    open spec fn view(&self) -> PageContent {
        PageContent {
            body: payload::content(self.body),
            messages: self.messages@,
            complete: self.complete,
            next_cursor: optional_text(self.next_cursor),
            message_count: self.message_count,
            recording_revision: self.recording_revision@,
        }
    }
}

/// What the headers of an answer say of a page, where they agree with what was asked for: whether
/// it is the last one, where to go on, and how many messages it has.
pub open spec fn page_headers(
    metadata: MetadataContent,
    content_type: Seq<char>,
    revision: Seq<char>,
) -> Result<(bool, Option<Seq<char>>, usize), Seq<char>> {
    let cursor = match metadata.next_cursor {
        Some(cursor) => if cursor.len() == 0 {
            None
        } else {
            Some(cursor)
        },
        None => None,
    };
    let complete = metadata.complete == Some("true"@);
    if metadata.content_type is None {
        Err("batch response has no Content-Type"@)
    } else if metadata.content_type != Some(content_type) {
        Err("unexpected batch Content-Type: "@ + metadata.content_type->Some_0)
    } else if metadata.recording_revision is None {
        Err("batch response has no recording revision"@)
    } else if metadata.recording_revision != Some(revision) {
        Err("batch recording revision mismatch"@)
    } else if !complete && metadata.complete != Some("false"@) {
        Err("invalid batch complete header"@)
    } else if complete && cursor is Some {
        Err("complete batch unexpectedly contains a continuation cursor"@)
    } else if !complete && cursor is None {
        Err("incomplete batch has no continuation cursor"@)
    } else if metadata.message_count is None {
        Err("batch response has no message count"@)
    } else {
        match count_of(metadata.message_count->Some_0) {
            None => Err("invalid batch message count header"@),
            Some(count) => Ok((complete, cursor, count)),
        }
    }
}

/// The page that an answer makes, given the messages that its body holds, or why they cannot be
/// had.
pub open spec fn page_of(
    metadata: MetadataContent,
    content_type: Seq<char>,
    revision: Seq<char>,
    body: Seq<u8>,
    decoded: Result<Seq<BatchMessage>, Seq<char>>,
) -> Result<PageContent, Seq<char>> {
    match page_headers(metadata, content_type, revision) {
        Err(words) => Err(words),
        Ok((complete, next_cursor, message_count)) => match decoded {
            Err(words) => Err(words),
            Ok(messages) => if messages.len() != message_count {
                Err("batch body and message count header disagree"@)
            } else {
                Ok(
                    PageContent {
                        body,
                        messages,
                        complete,
                        next_cursor,
                        message_count,
                        recording_revision: revision,
                    },
                )
            },
        },
    }
}

fn fail(words: &str) -> (error: RemoteClientError)
    ensures
        error@ == words@,
{
    RemoteClientError::new(words.to_owned())
}

fn check_headers(metadata: &BatchResponseMetadata, content_type: &str, revision: &str) -> (outcome:
    Result<(bool, Option<String>, usize), RemoteClientError>)
    ensures
        match outcome {
            Ok((complete, cursor, count)) => page_headers(metadata@, content_type@, revision@)
                == Ok::<(bool, Option<Seq<char>>, usize), Seq<char>>(
                (complete, optional_text(cursor), count),
            ),
            Err(error) => page_headers(metadata@, content_type@, revision@) == Err::<
                (bool, Option<Seq<char>>, usize),
                Seq<char>,
            >(error@),
        },
{
    match &metadata.content_type {
        None => return Err(fail("batch response has no Content-Type")),
        Some(found) => if !same_text(found.as_str(), content_type) {
            let mut message: String = "unexpected batch Content-Type: ".to_owned();
            message.append(found.as_str());
            return Err(RemoteClientError::new(message));
        },
    }
    match &metadata.recording_revision {
        None => return Err(fail("batch response has no recording revision")),
        Some(found) => if !same_text(found.as_str(), revision) {
            return Err(fail("batch recording revision mismatch"));
        },
    }
    let complete: bool = match &metadata.complete {
        Some(found) => if same_text(found.as_str(), "true") {
            true
        } else if same_text(found.as_str(), "false") {
            proof {
                reveal_strlit("true");
                reveal_strlit("false");
                assert("true"@.len() != "false"@.len());
            }
            false
        } else {
            return Err(fail("invalid batch complete header"));
        },
        None => return Err(fail("invalid batch complete header")),
    };
    let cursor: Option<String> = match &metadata.next_cursor {
        Some(cursor) => if cursor.as_str().is_empty() {
            None
        } else {
            Some(cursor.clone())
        },
        None => None,
    };
    if complete && cursor.is_some() {
        return Err(fail("complete batch unexpectedly contains a continuation cursor"));
    }
    if !complete && cursor.is_none() {
        return Err(fail("incomplete batch has no continuation cursor"));
    }
    let count: Option<usize> = match &metadata.message_count {
        None => return Err(fail("batch response has no message count")),
        Some(words) => parse_count(words.as_str()),
    };
    match count {
        None => Err(fail("invalid batch message count header")),
        Some(count) => Ok((complete, cursor, count)),
    }
}

/// What the messages of a body are, or why they cannot be had.
pub open spec fn decoded_content(decoded: Result<Vec<BatchMessage>, String>) -> Result<
    Seq<BatchMessage>,
    Seq<char>,
> {
    match decoded {
        Ok(messages) => Ok(messages@),
        Err(words) => Err(words@),
    }
}

/// The page that an answer makes. `decoded` is what the body holds, or the decoder's words where it
/// cannot be read.
pub fn validate_batch_response(
    metadata: BatchResponseMetadata,
    content_type: &str,
    body: Bytes,
    decoded: Result<Vec<BatchMessage>, String>,
    expected_revision: &str,
) -> (outcome: Result<RemoteBatchPage, RemoteClientError>)
    ensures
        ({
            let page = page_of(
                metadata@,
                content_type@,
                expected_revision@,
                payload::content(body),
                decoded_content(decoded),
            );
            match outcome {
                Ok(found) => page == Ok::<PageContent, Seq<char>>(found@),
                Err(error) => page == Err::<PageContent, Seq<char>>(error@),
            }
        }),
{
    let (complete, next_cursor, message_count): (bool, Option<String>, usize) = check_headers(
        &metadata,
        content_type,
        expected_revision,
    )?;
    let messages: Vec<BatchMessage> = match decoded {
        Ok(messages) => messages,
        Err(words) => return Err(RemoteClientError::new(words)),
    };
    if messages.len() != message_count {
        return Err(fail("batch body and message count header disagree"));
    }
    Ok(
        RemoteBatchPage {
            body,
            messages,
            complete,
            next_cursor,
            message_count,
            recording_revision: expected_revision.to_owned(),
        },
    )
}

/// A page that is accepted has a cursor exactly where it is not the last one, and as many messages
/// as it says.
pub proof fn law_pages_tell_how_to_go_on(
    metadata: MetadataContent,
    content_type: Seq<char>,
    revision: Seq<char>,
    body: Seq<u8>,
    decoded: Result<Seq<BatchMessage>, Seq<char>>,
)
    requires
        page_of(metadata, content_type, revision, body, decoded) is Ok,
    ensures
        ({
            let page = page_of(metadata, content_type, revision, body, decoded)->Ok_0;
            &&& page.complete <==> page.next_cursor is None
            &&& page.messages.len() == page.message_count
            &&& page.recording_revision == revision
        }),
{
}

/// A count is read back from its digits, with or without a sign before them.
pub proof fn law_counts_are_read_back(count: usize)
    ensures
        count_of(text::decimal(count as nat)) == Some(count),
        count_of(seq!['+'] + text::decimal(count as nat)) == Some(count),
{
    lemma_digits_of(count as nat);
    text::law_decimals_stand_for_their_number(count as nat);
    let digits = text::decimal(count as nat);
    assert((seq!['+'] + digits).drop_first() =~= digits);
    assert(digits[0] != '+') by {
        lemma_first_digit(count as nat);
    }
}

proof fn lemma_digits_of(value: nat)
    ensures
        digits_value(text::decimal(value)) == Some(value),
    decreases value,
{
    if value < 10 {
        assert(text::decimal(value).drop_last() =~= Seq::empty());
        assert(digits_value(text::decimal(value).drop_last()) == Some(0nat));
    } else {
        lemma_digits_of(value / 10);
        assert(text::decimal(value).drop_last() =~= text::decimal(value / 10));
    }
}

proof fn lemma_first_digit(value: nat)
    ensures
        text::decimal(value)[0] != '+',
        text::decimal(value).len() > 0,
    decreases value,
{
    if value >= 10 {
        lemma_first_digit(value / 10);
    }
}

/// A byte of a path stands for itself where it is a letter, a digit or one of `-_.~`, and else as a
/// percent sign with its two hexadecimal digits.
#[verifier::rlimit(60)]
pub proof fn law_paths_spell_their_bytes(bytes: Seq<u8>, byte: u8)
    ensures
        path_segment(Seq::empty()) == Seq::<char>::empty(),
        ({
            let plain = 0x30 <= byte <= 0x39 || 0x41 <= byte <= 0x5a || 0x61 <= byte <= 0x7a || byte
                == 0x2d || byte == 0x2e || byte == 0x5f || byte == 0x7e;
            let before = path_segment(bytes);
            let after = path_segment(bytes.push(byte));
            let high = byte as int / 16;
            let low = byte as int % 16;
            &&& after.take(before.len() as int) == before
            &&& plain ==> after.len() == before.len() + 1 && after.last() as u32 == byte
            &&& !plain ==> {
                &&& after.len() == before.len() + 3
                &&& after[before.len() as int] == '%'
                &&& after[before.len() as int + 1] as u32 == if high < 10 {
                    0x30 + high
                } else {
                    0x41 + high - 10
                }
                &&& after[before.len() as int + 2] as u32 == if low < 10 {
                    0x30 + low
                } else {
                    0x41 + low - 10
                }
            }
        }),
{
    assert(bytes.push(byte).drop_last() =~= bytes);
    let before = path_segment(bytes);
    assert(path_segment(bytes.push(byte)).take(before.len() as int) =~= before);
}

/// A query asks for its streams between its start and its end, with the limits and the cursor that it
/// has, each under its name.
#[verifier::rlimit(60)]
pub proof fn law_queries_ask_for_what_they_hold(request: RemoteBatchRequest)
    ensures
        ({
            let pairs = request@.spec_query_pairs();
            &&& pairs.len() >= 4
            &&& pairs[0] == ("revision"@, request.revision@)
            &&& pairs[1] == ("streams"@, comma_separated(request.stream_ids@))
            &&& pairs[2].0 == "start_ns"@ && text::number_of(pairs[2].1, 10) == request.start_ns
            &&& pairs[3].0 == "end_ns"@ && text::number_of(pairs[3].1, 10) == request.end_ns
            &&& request.max_bytes matches Some(limit) ==> exists|i: int|
                4 <= i < pairs.len() && (#[trigger] pairs[i]).0 == "max_bytes"@ && text::number_of(
                    pairs[i].1,
                    10,
                ) == limit
            &&& request.max_messages matches Some(limit) ==> exists|i: int|
                4 <= i < pairs.len() && (#[trigger] pairs[i]).0 == "max_messages"@
                    && text::number_of(pairs[i].1, 10) == limit
            &&& request.cursor matches Some(cursor) ==> pairs.last() == ("cursor"@, cursor@)
            &&& pairs.len() == 4 + (if request.max_bytes is Some {
                1int
            } else {
                0
            }) + (if request.max_messages is Some {
                1int
            } else {
                0
            }) + (if request.cursor is Some {
                1int
            } else {
                0
            })
        }),
{
    let pairs = request@.spec_query_pairs();
    text::law_decimals_stand_for_their_number(request.start_ns as nat);
    text::law_decimals_stand_for_their_number(request.end_ns as nat);
    if let Some(limit) = request.max_bytes {
        text::law_decimals_stand_for_their_number(limit as nat);
        assert(pairs[4].0 == "max_bytes"@);
    }
    if let Some(limit) = request.max_messages {
        text::law_decimals_stand_for_their_number(limit as nat);
        let place = if request.max_bytes is Some {
            5int
        } else {
            4
        };
        assert(pairs[place].0 == "max_messages"@);
    }
}

/// The identifiers of a list stand one behind the other, with commas between them.
pub proof fn law_lists_are_separated_by_commas(ids: Seq<u32>, last: u32)
    ensures
        comma_separated(seq![last]) == text::decimal(last as nat),
        ids.len() > 0 ==> comma_separated(ids.push(last)) == comma_separated(ids) + ","@
            + text::decimal(last as nat),
{
    assert(ids.push(last).drop_last() =~= ids);
}

} // verus!

//! Persistent user bookmarks and their source identity.

use crate::derived::preview::CURRENT_PREVIEW_SCHEMA_VERSION;
use crate::message::text::{self, is_blank, push_decimal, same_text};
use crate::message::time::ArrivalTime;
use vstd::prelude::*;
use vstd::string::*;

verus! {

pub const CURRENT_BOOKMARK_SCHEMA_VERSION: u32 = 1;

/// Why a bookmark, a fingerprint or a document was refused.
#[derive(Clone, Debug, Eq, PartialEq)]
pub enum BookmarkValidationError {
    BlankId,
    BlankLabel,
    EndBeforeTime,
    BlankAlgorithm,
    BlankFingerprint,
    UnsupportedBookmarkSchema(u32),
    DuplicateId(String),
    UnsupportedPreviewSchema(u32),
    BlankGeneratorName,
    BlankGeneratorVersion,
}

/// What a `BookmarkValidationError` says, with text as a sequence of characters.
pub enum BookmarkFault {
    BlankId,
    BlankLabel,
    EndBeforeTime,
    BlankAlgorithm,
    BlankFingerprint,
    UnsupportedBookmarkSchema(u32),
    DuplicateId(Seq<char>),
    UnsupportedPreviewSchema(u32),
    BlankGeneratorName,
    BlankGeneratorVersion,
}

impl View for BookmarkValidationError {
    type V = BookmarkFault;

    open spec fn view(&self) -> BookmarkFault {
        match *self {
            BookmarkValidationError::BlankId => BookmarkFault::BlankId,
            BookmarkValidationError::BlankLabel => BookmarkFault::BlankLabel,
            BookmarkValidationError::EndBeforeTime => BookmarkFault::EndBeforeTime,
            BookmarkValidationError::BlankAlgorithm => BookmarkFault::BlankAlgorithm,
            BookmarkValidationError::BlankFingerprint => BookmarkFault::BlankFingerprint,
            BookmarkValidationError::UnsupportedBookmarkSchema(version) =>
                BookmarkFault::UnsupportedBookmarkSchema(version),
            BookmarkValidationError::DuplicateId(id) => BookmarkFault::DuplicateId(id@),
            BookmarkValidationError::UnsupportedPreviewSchema(version) =>
                BookmarkFault::UnsupportedPreviewSchema(version),
            BookmarkValidationError::BlankGeneratorName => BookmarkFault::BlankGeneratorName,
            BookmarkValidationError::BlankGeneratorVersion => BookmarkFault::BlankGeneratorVersion,
        }
    }
}

impl BookmarkValidationError {
    pub open spec fn spec_message(fault: BookmarkFault) -> Seq<char> {
        match fault {
            BookmarkFault::BlankId => "bookmark id must not be empty or whitespace"@,
            BookmarkFault::BlankLabel => "bookmark label must not be empty or whitespace"@,
            BookmarkFault::EndBeforeTime => "bookmark endTime must not precede time"@,
            BookmarkFault::BlankAlgorithm => "source fingerprint algorithm must not be empty"@,
            BookmarkFault::BlankFingerprint => "source fingerprint value must not be empty"@,
            BookmarkFault::UnsupportedBookmarkSchema(version) =>
                "unsupported bookmark schema version: "@ + text::decimal(version as nat),
            BookmarkFault::DuplicateId(id) => "duplicate bookmark id: "@ + id,
            BookmarkFault::UnsupportedPreviewSchema(version) =>
                "unsupported preview schema version: "@ + text::decimal(version as nat),
            BookmarkFault::BlankGeneratorName => "preview generatorName must not be empty"@,
            BookmarkFault::BlankGeneratorVersion => "preview generatorVersion must not be empty"@,
        }
    }

    /// The error as a sentence for the user.
    pub fn message(&self) -> (sentence: String)
        ensures
            sentence@ == Self::spec_message(self@),
    {
        match self {
            BookmarkValidationError::BlankId =>
                "bookmark id must not be empty or whitespace".to_owned(),
            BookmarkValidationError::BlankLabel =>
                "bookmark label must not be empty or whitespace".to_owned(),
            BookmarkValidationError::EndBeforeTime =>
                "bookmark endTime must not precede time".to_owned(),
            BookmarkValidationError::BlankAlgorithm =>
                "source fingerprint algorithm must not be empty".to_owned(),
            BookmarkValidationError::BlankFingerprint =>
                "source fingerprint value must not be empty".to_owned(),
            BookmarkValidationError::UnsupportedBookmarkSchema(version) => {
                let mut sentence: String = "unsupported bookmark schema version: ".to_owned();
                push_decimal(&mut sentence, *version as u64);
                sentence
            },
            BookmarkValidationError::DuplicateId(id) => {
                let mut sentence: String = "duplicate bookmark id: ".to_owned();
                sentence.append(id.as_str());
                sentence
            },
            BookmarkValidationError::UnsupportedPreviewSchema(version) => {
                let mut sentence: String = "unsupported preview schema version: ".to_owned();
                push_decimal(&mut sentence, *version as u64);
                sentence
            },
            BookmarkValidationError::BlankGeneratorName =>
                "preview generatorName must not be empty".to_owned(),
            BookmarkValidationError::BlankGeneratorVersion =>
                "preview generatorVersion must not be empty".to_owned(),
        }
    }
}

/// A name for a bookmark that is not blank.
#[derive(Clone, Debug, Eq, Hash, Ord, PartialEq, PartialOrd)]
pub struct BookmarkId(String);

impl View for BookmarkId {
    type V = Seq<char>;

    closed spec fn view(&self) -> Seq<char> {
        self.0@
    }
}

impl BookmarkId {
    pub fn new(value: String) -> (outcome: Result<Self, BookmarkValidationError>)
        ensures
            match outcome {
                Ok(id) => !text::blank(value@) && id@ == value@,
                Err(error) => text::blank(value@) && error@ == BookmarkFault::BlankId,
            },
    {
        if is_blank(value.as_str()) {
            return Err(BookmarkValidationError::BlankId);
        }
        Ok(BookmarkId(value))
    }

    pub fn as_str(&self) -> (value: &str)
        ensures
            value@ == self@,
    {
        self.0.as_str()
    }
}

/// A labelled point or interval of a recording.
#[derive(Clone, Debug, Eq, PartialEq)]
pub struct Bookmark {
    id: BookmarkId,
    time: ArrivalTime,
    end_time: Option<ArrivalTime>,
    label: String,
    note: Option<String>,
}

/// What a bookmark holds.
pub struct BookmarkContent {
    pub id: Seq<char>,
    pub time: ArrivalTime,
    pub end_time: Option<ArrivalTime>,
    pub label: Seq<char>,
    pub note: Option<Seq<char>>,
}

/// The characters of a text that may be absent.
pub open spec fn optional_text(value: Option<String>) -> Option<Seq<char>> {
    match value {
        Some(present) => Some(present@),
        None => None,
    }
}

impl View for Bookmark {
    type V = BookmarkContent;

    closed spec fn view(&self) -> BookmarkContent {
        BookmarkContent {
            id: self.id@,
            time: self.time,
            end_time: self.end_time,
            label: self.label@,
            note: optional_text(self.note),
        }
    }
}

impl BookmarkContent {
    /// The interval ends before it starts.
    pub open spec fn ends_early(self) -> bool {
        match self.end_time {
            Some(end) => end.0 < self.time.0,
            None => false,
        }
    }

    /// What is wrong with the bookmark, if anything is.
    pub open spec fn fault(self) -> Option<BookmarkFault> {
        if text::blank(self.id) {
            Some(BookmarkFault::BlankId)
        } else if text::blank(self.label) {
            Some(BookmarkFault::BlankLabel)
        } else if self.ends_early() {
            Some(BookmarkFault::EndBeforeTime)
        } else {
            None
        }
    }
}

impl Bookmark {
    pub fn new(
        id: BookmarkId,
        time: ArrivalTime,
        end_time: Option<ArrivalTime>,
        label: String,
        note: Option<String>,
    ) -> (outcome: Result<Self, BookmarkValidationError>)
        ensures
            ({
                let content = BookmarkContent {
                    id: id@,
                    time,
                    end_time,
                    label: label@,
                    note: optional_text(note),
                };
                match outcome {
                    Ok(bookmark) => content.fault() is None && bookmark@ == content,
                    Err(error) => content.fault() == Some(error@),
                }
            }),
    {
        let bookmark = Bookmark { id, time, end_time, label, note };
        bookmark.validate()?;
        Ok(bookmark)
    }

    /// A bookmark of one instant.
    pub fn point(id: BookmarkId, time: ArrivalTime, label: String, note: Option<String>) -> (outcome:
        Result<Self, BookmarkValidationError>)
        ensures
            ({
                let content = BookmarkContent {
                    id: id@,
                    time,
                    end_time: None,
                    label: label@,
                    note: optional_text(note),
                };
                match outcome {
                    Ok(bookmark) => content.fault() is None && bookmark@ == content,
                    Err(error) => content.fault() == Some(error@),
                }
            }),
    {
        Self::new(id, time, None, label, note)
    }

    /// A bookmark of a span of time.
    pub fn interval(
        id: BookmarkId,
        time: ArrivalTime,
        end_time: ArrivalTime,
        label: String,
        note: Option<String>,
    ) -> (outcome: Result<Self, BookmarkValidationError>)
        ensures
            ({
                let content = BookmarkContent {
                    id: id@,
                    time,
                    end_time: Some(end_time),
                    label: label@,
                    note: optional_text(note),
                };
                match outcome {
                    Ok(bookmark) => content.fault() is None && bookmark@ == content,
                    Err(error) => content.fault() == Some(error@),
                }
            }),
    {
        Self::new(id, time, Some(end_time), label, note)
    }

    pub fn id(&self) -> (id: &BookmarkId)
        ensures
            id@ == self@.id,
    {
        &self.id
    }

    pub fn time(&self) -> (time: ArrivalTime)
        ensures
            time == self@.time,
    {
        self.time
    }

    pub fn end_time(&self) -> (end_time: Option<ArrivalTime>)
        ensures
            end_time == self@.end_time,
    {
        self.end_time
    }

    pub fn label(&self) -> (label: &str)
        ensures
            label@ == self@.label,
    {
        self.label.as_str()
    }

    pub fn note(&self) -> (note: Option<&str>)
        ensures
            match note {
                Some(present) => self@.note == Some(present@),
                None => self@.note is None,
            },
    {
        match &self.note {
            Some(present) => Some(present.as_str()),
            None => None,
        }
    }

    pub fn validate(&self) -> (outcome: Result<(), BookmarkValidationError>)
        ensures
            match outcome {
                Ok(_) => self@.fault() is None,
                Err(error) => self@.fault() == Some(error@),
            },
    {
        if is_blank(self.id.as_str()) {
            return Err(BookmarkValidationError::BlankId);
        }
        if is_blank(self.label.as_str()) {
            return Err(BookmarkValidationError::BlankLabel);
        }
        if let Some(end) = self.end_time {
            if end.0 < self.time.0 {
                return Err(BookmarkValidationError::EndBeforeTime);
            }
        }
        Ok(())
    }
}

/// What identifies the recording that an artifact belongs to.
#[derive(Clone, Debug, Eq, PartialEq)]
pub struct SourceFingerprint {
    algorithm: String,
    value: String,
}

/// What a fingerprint holds.
pub struct FingerprintContent {
    pub algorithm: Seq<char>,
    pub value: Seq<char>,
}

impl View for SourceFingerprint {
    type V = FingerprintContent;

    closed spec fn view(&self) -> FingerprintContent {
        FingerprintContent { algorithm: self.algorithm@, value: self.value@ }
    }
}

impl FingerprintContent {
    pub open spec fn fault(self) -> Option<BookmarkFault> {
        if text::blank(self.algorithm) {
            Some(BookmarkFault::BlankAlgorithm)
        } else if text::blank(self.value) {
            Some(BookmarkFault::BlankFingerprint)
        } else {
            None
        }
    }
}

impl SourceFingerprint {
    pub fn new(algorithm: String, value: String) -> (outcome: Result<
        Self,
        BookmarkValidationError,
    >)
        ensures
            ({
                let content = FingerprintContent { algorithm: algorithm@, value: value@ };
                match outcome {
                    Ok(fingerprint) => content.fault() is None && fingerprint@ == content,
                    Err(error) => content.fault() == Some(error@),
                }
            }),
    {
        let fingerprint = SourceFingerprint { algorithm, value };
        fingerprint.validate()?;
        Ok(fingerprint)
    }

    pub fn algorithm(&self) -> (algorithm: &str)
        ensures
            algorithm@ == self@.algorithm,
    {
        self.algorithm.as_str()
    }

    pub fn value(&self) -> (value: &str)
        ensures
            value@ == self@.value,
    {
        self.value.as_str()
    }

    pub fn validate(&self) -> (outcome: Result<(), BookmarkValidationError>)
        ensures
            match outcome {
                Ok(_) => self@.fault() is None,
                Err(error) => self@.fault() == Some(error@),
            },
    {
        if is_blank(self.algorithm.as_str()) {
            return Err(BookmarkValidationError::BlankAlgorithm);
        }
        if is_blank(self.value.as_str()) {
            return Err(BookmarkValidationError::BlankFingerprint);
        }
        Ok(())
    }
}

/// The bookmarks of one recording.
#[derive(Clone, Debug, Eq, PartialEq)]
pub struct BookmarkDocument {
    schema_version: u32,
    source: SourceFingerprint,
    bookmarks: Vec<Bookmark>,
}

/// What a document holds.
pub struct DocumentContent {
    pub schema_version: u32,
    pub source: FingerprintContent,
    pub bookmarks: Seq<BookmarkContent>,
}

/// What each bookmark of a list holds.
pub open spec fn bookmark_contents(bookmarks: Seq<Bookmark>) -> Seq<BookmarkContent> {
    bookmarks.map_values(|bookmark: Bookmark| bookmark@)
}

impl View for BookmarkDocument {
    type V = DocumentContent;

    closed spec fn view(&self) -> DocumentContent {
        DocumentContent {
            schema_version: self.schema_version,
            source: self.source@,
            bookmarks: bookmark_contents(self.bookmarks@),
        }
    }
}

/// One of the first `count` bookmarks has the name.
pub open spec fn id_taken(bookmarks: Seq<BookmarkContent>, count: int, id: Seq<char>) -> bool {
    exists|i: int| 0 <= i < count && (#[trigger] bookmarks[i]).id == id
}

/// The first thing wrong with the first `count` bookmarks.
pub open spec fn bookmarks_fault(bookmarks: Seq<BookmarkContent>, count: int) -> Option<
    BookmarkFault,
>
    decreases count,
{
    if count <= 0 {
        None
    } else {
        match bookmarks_fault(bookmarks, count - 1) {
            Some(fault) => Some(fault),
            None => {
                let bookmark = bookmarks[count - 1];
                if bookmark.fault() is Some {
                    bookmark.fault()
                } else if id_taken(bookmarks, count - 1, bookmark.id) {
                    Some(BookmarkFault::DuplicateId(bookmark.id))
                } else {
                    None
                }
            },
        }
    }
}

proof fn lemma_bookmarks_fault_stays(bookmarks: Seq<BookmarkContent>, few: int, many: int)
    requires
        few <= many,
        bookmarks_fault(bookmarks, few) is Some,
    ensures
        bookmarks_fault(bookmarks, many) == bookmarks_fault(bookmarks, few),
    decreases many - few,
{
    if few < many {
        lemma_bookmarks_fault_stays(bookmarks, few, many - 1);
    }
}

impl DocumentContent {
    /// The first thing wrong with the document.
    pub open spec fn fault(self) -> Option<BookmarkFault> {
        if self.schema_version != CURRENT_BOOKMARK_SCHEMA_VERSION {
            Some(BookmarkFault::UnsupportedBookmarkSchema(self.schema_version))
        } else if self.source.fault() is Some {
            self.source.fault()
        } else {
            bookmarks_fault(self.bookmarks, self.bookmarks.len() as int)
        }
    }
}

/// A document without a fault holds valid bookmarks, no two of which share a name.
pub proof fn law_document_ids_are_unique(document: DocumentContent)
    requires
        document.fault() is None,
    ensures
        forall|i: int|
            0 <= i < document.bookmarks.len() ==> (#[trigger] document.bookmarks[i]).fault()
                is None,
        forall|i: int, j: int|
            0 <= i < j < document.bookmarks.len() ==> (#[trigger] document.bookmarks[i]).id != (
            #[trigger] document.bookmarks[j]).id,
{
    lemma_faultless_bookmarks(document.bookmarks, document.bookmarks.len() as int);
}

proof fn lemma_faultless_bookmarks(bookmarks: Seq<BookmarkContent>, count: int)
    requires
        0 <= count <= bookmarks.len(),
        bookmarks_fault(bookmarks, count) is None,
    ensures
        forall|i: int| 0 <= i < count ==> (#[trigger] bookmarks[i]).fault() is None,
        forall|i: int, j: int|
            0 <= i < j < count ==> (#[trigger] bookmarks[i]).id != (#[trigger] bookmarks[j]).id,
    decreases count,
{
    if count > 0 {
        lemma_faultless_bookmarks(bookmarks, count - 1);
        assert(!id_taken(bookmarks, count - 1, bookmarks[count - 1].id));
    }
}

impl BookmarkDocument {
    /// A document of the current version.
    pub fn new(source: SourceFingerprint, bookmarks: Vec<Bookmark>) -> (outcome: Result<
        Self,
        BookmarkValidationError,
    >)
        ensures
            ({
                let content = DocumentContent {
                    schema_version: CURRENT_BOOKMARK_SCHEMA_VERSION,
                    source: source@,
                    bookmarks: bookmark_contents(bookmarks@),
                };
                match outcome {
                    Ok(document) => content.fault() is None && document@ == content,
                    Err(error) => content.fault() == Some(error@),
                }
            }),
    {
        Self::from_parts(CURRENT_BOOKMARK_SCHEMA_VERSION, source, bookmarks)
    }

    /// A document read back, of whatever version it says it is.
    pub fn from_parts(
        schema_version: u32,
        source: SourceFingerprint,
        bookmarks: Vec<Bookmark>,
    ) -> (outcome: Result<Self, BookmarkValidationError>)
        ensures
            ({
                let content = DocumentContent {
                    schema_version,
                    source: source@,
                    bookmarks: bookmark_contents(bookmarks@),
                };
                match outcome {
                    Ok(document) => content.fault() is None && document@ == content,
                    Err(error) => content.fault() == Some(error@),
                }
            }),
    {
        let document = BookmarkDocument { schema_version, source, bookmarks };
        document.validate()?;
        Ok(document)
    }

    pub fn schema_version(&self) -> (version: u32)
        ensures
            version == self@.schema_version,
    {
        self.schema_version
    }

    pub fn source(&self) -> (source: &SourceFingerprint)
        ensures
            source@ == self@.source,
    {
        &self.source
    }

    pub fn bookmarks(&self) -> (bookmarks: &[Bookmark])
        ensures
            bookmark_contents(bookmarks@) == self@.bookmarks,
    {
        self.bookmarks.as_slice()
    }

    pub fn validate(&self) -> (outcome: Result<(), BookmarkValidationError>)
        ensures
            match outcome {
                Ok(_) => self@.fault() is None,
                Err(error) => self@.fault() == Some(error@),
            },
    {
        if self.schema_version != CURRENT_BOOKMARK_SCHEMA_VERSION {
            return Err(BookmarkValidationError::UnsupportedBookmarkSchema(self.schema_version));
        }
        self.source.validate()?;
        validate_bookmarks(&self.bookmarks)
    }
}

/// Whether one of the first `count` bookmarks has the name.
fn is_id_taken(bookmarks: &Vec<Bookmark>, count: usize, id: &str) -> (taken: bool)
    requires
        count <= bookmarks@.len(),
    ensures
        taken == id_taken(bookmark_contents(bookmarks@), count as int, id@),
{
    let ghost list = bookmark_contents(bookmarks@);
    let mut index: usize = 0;
    while index < count
        invariant
            index <= count <= bookmarks@.len(),
            list == bookmark_contents(bookmarks@),
            forall|i: int| 0 <= i < index ==> (#[trigger] list[i]).id != id@,
        decreases count - index,
    {
        assert(list[index as int] == bookmarks@[index as int]@);
        if same_text(bookmarks[index].id.as_str(), id) {
            return true;
        }
        index = index + 1;
    }
    false
}

fn validate_bookmarks(bookmarks: &Vec<Bookmark>) -> (outcome: Result<(), BookmarkValidationError>)
    ensures
        match outcome {
            Ok(_) => bookmarks_fault(
                bookmark_contents(bookmarks@),
                bookmarks@.len() as int,
            ) is None,
            Err(error) => bookmarks_fault(
                bookmark_contents(bookmarks@),
                bookmarks@.len() as int,
            ) == Some(error@),
        },
{
    let ghost list = bookmark_contents(bookmarks@);
    let mut index: usize = 0;
    while index < bookmarks.len()
        invariant
            index <= bookmarks@.len(),
            list == bookmark_contents(bookmarks@),
            bookmarks_fault(list, index as int) is None,
        decreases bookmarks@.len() - index,
    {
        let bookmark: &Bookmark = &bookmarks[index];
        assert(list[index as int] == bookmark@);
        match bookmark.validate() {
            Ok(_) => {},
            Err(error) => {
                proof {
                    lemma_bookmarks_fault_stays(list, index + 1, list.len() as int);
                }
                return Err(error);
            },
        }
        if is_id_taken(bookmarks, index, bookmark.id.as_str()) {
            proof {
                lemma_bookmarks_fault_stays(list, index + 1, list.len() as int);
            }
            return Err(BookmarkValidationError::DuplicateId(bookmark.id.as_str().to_owned()));
        }
        index = index + 1;
    }
    Ok(())
}

/// What built a preview, and of which recording.
#[derive(Clone, Debug, Eq, PartialEq)]
pub struct PreviewBuildInfo {
    schema_version: u32,
    generator_name: String,
    generator_version: String,
    source: SourceFingerprint,
}

/// What a build record holds.
pub struct BuildContent {
    pub schema_version: u32,
    pub generator_name: Seq<char>,
    pub generator_version: Seq<char>,
    pub source: FingerprintContent,
}

impl View for PreviewBuildInfo {
    type V = BuildContent;

    closed spec fn view(&self) -> BuildContent {
        BuildContent {
            schema_version: self.schema_version,
            generator_name: self.generator_name@,
            generator_version: self.generator_version@,
            source: self.source@,
        }
    }
}

impl BuildContent {
    pub open spec fn fault(self) -> Option<BookmarkFault> {
        if self.schema_version != CURRENT_PREVIEW_SCHEMA_VERSION {
            Some(BookmarkFault::UnsupportedPreviewSchema(self.schema_version))
        } else if text::blank(self.generator_name) {
            Some(BookmarkFault::BlankGeneratorName)
        } else if text::blank(self.generator_version) {
            Some(BookmarkFault::BlankGeneratorVersion)
        } else {
            self.source.fault()
        }
    }
}

impl PreviewBuildInfo {
    /// A record of the current version.
    pub fn new(
        generator_name: String,
        generator_version: String,
        source: SourceFingerprint,
    ) -> (outcome: Result<Self, BookmarkValidationError>)
        ensures
            ({
                let content = BuildContent {
                    schema_version: CURRENT_PREVIEW_SCHEMA_VERSION,
                    generator_name: generator_name@,
                    generator_version: generator_version@,
                    source: source@,
                };
                match outcome {
                    Ok(info) => content.fault() is None && info@ == content,
                    Err(error) => content.fault() == Some(error@),
                }
            }),
    {
        Self::from_parts(CURRENT_PREVIEW_SCHEMA_VERSION, generator_name, generator_version, source)
    }

    /// A record read back, of whatever version it says it is.
    pub fn from_parts(
        schema_version: u32,
        generator_name: String,
        generator_version: String,
        source: SourceFingerprint,
    ) -> (outcome: Result<Self, BookmarkValidationError>)
        ensures
            ({
                let content = BuildContent {
                    schema_version,
                    generator_name: generator_name@,
                    generator_version: generator_version@,
                    source: source@,
                };
                match outcome {
                    Ok(info) => content.fault() is None && info@ == content,
                    Err(error) => content.fault() == Some(error@),
                }
            }),
    {
        let info = PreviewBuildInfo { schema_version, generator_name, generator_version, source };
        info.validate()?;
        Ok(info)
    }

    pub fn schema_version(&self) -> (version: u32)
        ensures
            version == self@.schema_version,
    {
        self.schema_version
    }

    pub fn generator_name(&self) -> (name: &str)
        ensures
            name@ == self@.generator_name,
    {
        self.generator_name.as_str()
    }

    pub fn generator_version(&self) -> (version: &str)
        ensures
            version@ == self@.generator_version,
    {
        self.generator_version.as_str()
    }

    pub fn source(&self) -> (source: &SourceFingerprint)
        ensures
            source@ == self@.source,
    {
        &self.source
    }

    pub fn validate(&self) -> (outcome: Result<(), BookmarkValidationError>)
        ensures
            match outcome {
                Ok(_) => self@.fault() is None,
                Err(error) => self@.fault() == Some(error@),
            },
    {
        if self.schema_version != CURRENT_PREVIEW_SCHEMA_VERSION {
            return Err(BookmarkValidationError::UnsupportedPreviewSchema(self.schema_version));
        }
        if is_blank(self.generator_name.as_str()) {
            return Err(BookmarkValidationError::BlankGeneratorName);
        }
        if is_blank(self.generator_version.as_str()) {
            return Err(BookmarkValidationError::BlankGeneratorVersion);
        }
        self.source.validate()
    }
}

/// A bookmark is valid exactly where it has an identifier and a label that are more than white space
/// and does not end before its time.
pub proof fn law_valid_bookmarks_are_named(bookmark: BookmarkContent)
    ensures
        bookmark.fault() is None <==> {
            &&& exists|i: int| 0 <= i < bookmark.id.len() && !text::white_space(
                #[trigger] bookmark.id[i],
            )
            &&& exists|i: int| 0 <= i < bookmark.label.len() && !text::white_space(
                #[trigger] bookmark.label[i],
            )
            &&& bookmark.end_time matches Some(end) ==> bookmark.time.0 <= end.0
        },
{
}

} // verus!

use std::path::PathBuf;
use vstd::prelude::*;

pub mod chunker;
pub mod database;
pub mod features;
pub mod similarity;
pub mod sync;

pub use chunker::DocumentChunker;
pub use database::{DocumentChunk, VaultDatabase};
pub use features::{FeatureVector, TermWeight};
pub use similarity::Similarity;
pub use sync::VaultSync;

verus! {

/// `std::path::PathBuf`, carried through as it is.
#[verifier::external_type_specification]
#[verifier::external_body]
pub struct ExPathBuf(PathBuf);

/// `PathBuf::clone`: the copy is the same path.
#[verifier::external_body]
pub(crate) fn clone_path(p: &PathBuf) -> (r: PathBuf)
    ensures
        r == *p,
{
    p.clone()
}

/// A digit of a number written to the base sixteen in lower case.
pub open spec fn is_hex_digit(c: char) -> bool {
    ('0' <= c && c <= '9') || ('a' <= c && c <= 'f')
}

/// The text of a UUID as it is usually written: thirty-six characters, a
/// hyphen as the ninth, the fourteenth, the nineteenth and the
/// twenty-fourth, lower-case hexadecimal digits elsewhere.
pub open spec fn is_uuid_text(s: Seq<char>) -> bool {
    &&& s.len() == 36
    &&& forall|i: int|
        0 <= i < 36 ==> if i == 8 || i == 13 || i == 18 || i == 23 {
            #[trigger] s[i] == '-'
        } else {
            is_hex_digit(s[i])
        }
}

/// `uuid::Uuid::new_v4`, written out by `to_string`: an id drawn at random.
/// Which id it is, is not claimed, and two calls may give any two; claimed
/// is the form in which uuid writes every id, hyphenated and in lower case.
/// The call panics where the system has no random bytes to give.
#[verifier::external_body]
pub(crate) fn fresh_id() -> (r: String)
    ensures
        is_uuid_text(r@),
{
    uuid::Uuid::new_v4().to_string()
}

/// `chrono::Utc::now`, read by `timestamp` and `timestamp_subsec_nanos`:
/// the time of the call. Nothing is claimed of it. The call panics where
/// the system's clock stands before 1970.
#[verifier::external_body]
pub(crate) fn now() -> (r: Timestamp) {
    let t = chrono::Utc::now();
    Timestamp { secs: t.timestamp(), nanos: t.timestamp_subsec_nanos() }
}

/// Why the store turned a text away.
#[derive(Debug, PartialEq, Eq, Clone, Copy, Structural)]
pub enum StoreError {
    /// The text holds more terms than a feature vector can count.
    TextTooLong,
}

/// A point in time: seconds since the Unix epoch, and nanoseconds within
/// the second.
#[derive(Debug, PartialEq, Eq, Clone, Copy, Structural)]
pub struct Timestamp {
    pub secs: i64,
    pub nanos: u32,
}

/// What is known about a document besides its text.
#[derive(Debug, Clone)]
pub struct DocumentMetadata {
    pub file_path: Option<PathBuf>,
    pub mime_type: Option<String>,
    pub created_at: Timestamp,
    pub tags: Vec<String>,
}

/// The metadata of a document as the contracts see it.
pub struct DocumentMetadataView {
    pub file_path: Option<PathBuf>,
    pub mime_type: Option<Seq<char>>,
    pub created_at: Timestamp,
    pub tags: Seq<Seq<char>>,
}

impl View for DocumentMetadata {
    type V = DocumentMetadataView;

    open spec fn view(&self) -> DocumentMetadataView {
        DocumentMetadataView {
            file_path: self.file_path,
            mime_type: match self.mime_type {
                Some(m) => Some(m@),
                None => None,
            },
            created_at: self.created_at,
            tags: crate::text::strings_of(self.tags@),
        }
    }
}

impl DocumentMetadata {
    /// A copy that holds the same values.
    pub fn duplicate(&self) -> (r: Self)
        ensures
            r@ == self@,
    {
        let file_path = match &self.file_path {
            Some(p) => Some(clone_path(p)),
            None => None,
        };
        let mime_type = match &self.mime_type {
            Some(m) => Some(m.clone()),
            None => None,
        };
        let tags = self.tags.clone();
        assert(crate::text::strings_of(tags@) =~= crate::text::strings_of(self.tags@));
        DocumentMetadata { file_path, mime_type, created_at: self.created_at, tags }
    }
}

/// A text in the store, under the id that its owner gave it.
#[derive(Debug, Clone)]
pub struct Document {
    pub id: String,
    pub content: String,
    pub metadata: DocumentMetadata,
}

/// A document as the contracts see it.
pub struct DocumentView {
    pub id: Seq<char>,
    pub content: Seq<char>,
    pub metadata: DocumentMetadataView,
}

impl View for Document {
    type V = DocumentView;

    open spec fn view(&self) -> DocumentView {
        DocumentView { id: self.id@, content: self.content@, metadata: self.metadata@ }
    }
}

impl Document {
    /// A document for `content`, come by at this moment, under an id of its
    /// own that is drawn at random, a UUID in text. It has no tags.
    pub fn new(content: String, file_path: Option<PathBuf>, mime_type: Option<String>) -> (r:
        Self)
        ensures
            is_uuid_text(r.id@),
            r.content == content,
            r.metadata.file_path == file_path,
            r.metadata.mime_type == mime_type,
            r.metadata.tags@.len() == 0,
    {
        Document {
            id: fresh_id(),
            content,
            metadata: DocumentMetadata {
                file_path,
                mime_type,
                created_at: now(),
                tags: Vec::new(),
            },
        }
    }

    /// A copy that holds the same values.
    pub fn duplicate(&self) -> (r: Self)
        ensures
            r@ == self@,
    {
        Document {
            id: self.id.clone(),
            content: self.content.clone(),
            metadata: self.metadata.duplicate(),
        }
    }
}

/// A document that matched a query, with how well it matched.
#[derive(Debug, Clone)]
pub struct SearchResult {
    pub document: Document,
    pub similarity: Similarity,
}

/// A search result as the contracts see it: the similarity is the
/// square of the cosine as a fraction.
pub struct SearchResultView {
    pub document: DocumentView,
    pub similarity: (nat, nat),
}

impl View for SearchResult {
    type V = SearchResultView;

    open spec fn view(&self) -> SearchResultView {
        SearchResultView { document: self.document@, similarity: self.similarity@ }
    }
}

/// The views of the documents.
pub open spec fn documents_of(v: Seq<Document>) -> Seq<DocumentView> {
    Seq::new(v.len(), |i: int| v[i]@)
}

/// The views of the results.
pub open spec fn results_of(v: Seq<SearchResult>) -> Seq<SearchResultView> {
    Seq::new(v.len(), |i: int| v[i]@)
}

} // verus!

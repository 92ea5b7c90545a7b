//! The registry's data model: documents, their immutable version snapshots,
//! the payload callers hand in, and the error taxonomy.

use vstd::prelude::*;

verus! {

/// Who made a change and why.
#[derive(Clone)]
pub struct DocumentMetadata {
    pub updated_by: String,
    pub change_summary: String,
}

/// Mathematical model of [`DocumentMetadata`].
#[verifier::ext_equal]
pub ghost struct MetadataView {
    pub updated_by: Seq<char>,
    pub change_summary: Seq<char>,
}

impl View for DocumentMetadata {
    type V = MetadataView;

    open spec fn view(&self) -> MetadataView {
        MetadataView {
            updated_by: self.updated_by@,
            change_summary: self.change_summary@,
        }
    }
}

/// An immutable snapshot of a document's content at one version.
#[derive(Clone)]
pub struct DocumentVersion {
    pub version: u64,
    pub title: String,
    pub description: String,
    pub file_url: String,
    pub metadata: DocumentMetadata,
    pub updated_at: u64,
}

/// Mathematical model of [`DocumentVersion`].
#[verifier::ext_equal]
pub ghost struct VersionView {
    pub version: u64,
    pub title: Seq<char>,
    pub description: Seq<char>,
    pub file_url: Seq<char>,
    pub metadata: MetadataView,
    pub updated_at: u64,
}

impl View for DocumentVersion {
    type V = VersionView;

    open spec fn view(&self) -> VersionView {
        VersionView {
            version: self.version,
            title: self.title@,
            description: self.description@,
            file_url: self.file_url@,
            metadata: self.metadata@,
            updated_at: self.updated_at,
        }
    }
}

impl DeepView for DocumentVersion {
    type V = VersionView;

    open spec fn deep_view(&self) -> VersionView {
        self.view()
    }
}

/// External input for creating or updating a document.
#[derive(Clone)]
pub struct DocumentPayload {
    pub title: String,
    pub description: String,
    pub file_url: String,
    pub metadata: DocumentMetadata,
}

/// Mathematical model of [`DocumentPayload`].
#[verifier::ext_equal]
pub ghost struct PayloadView {
    pub title: Seq<char>,
    pub description: Seq<char>,
    pub file_url: Seq<char>,
    pub metadata: MetadataView,
}

impl View for DocumentPayload {
    type V = PayloadView;

    open spec fn view(&self) -> PayloadView {
        PayloadView {
            title: self.title@,
            description: self.description@,
            file_url: self.file_url@,
            metadata: self.metadata@,
        }
    }
}

impl DeepView for DocumentPayload {
    type V = PayloadView;

    open spec fn deep_view(&self) -> PayloadView {
        self.view()
    }
}

/// The unit of storage.
#[derive(Clone)]
pub struct Document {
    pub id: u64,
    pub title: String,
    pub description: String,
    pub file_url: String,
    pub version: u64,
    pub created_at: u64,
    pub updated_at: Option<u64>,
    pub is_deleted: bool,
    pub history: Vec<DocumentVersion>,
}

/// Mathematical model of [`Document`].
#[verifier::ext_equal]
pub ghost struct DocView {
    pub id: u64,
    pub title: Seq<char>,
    pub description: Seq<char>,
    pub file_url: Seq<char>,
    pub version: u64,
    pub created_at: u64,
    pub updated_at: Option<u64>,
    pub is_deleted: bool,
    pub history: Seq<VersionView>,
}

impl View for Document {
    type V = DocView;

    open spec fn view(&self) -> DocView {
        DocView {
            id: self.id,
            title: self.title@,
            description: self.description@,
            file_url: self.file_url@,
            version: self.version,
            created_at: self.created_at,
            updated_at: self.updated_at,
            is_deleted: self.is_deleted,
            history: self.history.deep_view(),
        }
    }
}

impl DeepView for Document {
    type V = DocView;

    open spec fn deep_view(&self) -> DocView {
        self.view()
    }
}

/// Every way an operation can fail, reported as a value to the caller.
#[derive(Clone, Debug)]
pub enum Error {
    /// The referenced id is absent from the store.
    NotFound { msg: String },
    /// The operation is blocked because the target is soft-deleted.
    DocumentDeleted,
    /// `soft_delete` was asked to delete an already-deleted document.
    AlreadyDeleted,
    /// `restore` was asked to restore a document that is not deleted.
    NotDeleted,
    /// The payload failed validation; the caller must fix the input.
    InvalidInput { msg: String },
}

/// The characters `str::trim` strips: the Unicode `White_Space` set.
pub open spec fn is_space(c: char) -> bool {
    let u = c as u32;
    ||| (0x9 <= u && u <= 0xD)
    ||| u == 0x20
    ||| u == 0x85
    ||| u == 0xA0
    ||| u == 0x1680
    ||| (0x2000 <= u && u <= 0x200A)
    ||| u == 0x2028
    ||| u == 0x2029
    ||| u == 0x202F
    ||| u == 0x205F
    ||| u == 0x3000
}

/// True when a string trims to nothing: every character is whitespace.
pub open spec fn is_blank(s: Seq<char>) -> bool {
    forall|i: int| 0 <= i < s.len() ==> is_space(#[trigger] s[i])
}

/// A payload is valid when none of its required fields trims to empty.
pub open spec fn payload_valid(p: PayloadView) -> bool {
    &&& !is_blank(p.title)
    &&& !is_blank(p.description)
    &&& !is_blank(p.file_url)
    &&& !is_blank(p.metadata.change_summary)
}

/// The snapshot that recording `p` as version number `version` at time `at`
/// appends to a document's history.
pub open spec fn snapshot_of(p: PayloadView, version: u64, at: u64) -> VersionView {
    VersionView {
        version: version,
        title: p.title,
        description: p.description,
        file_url: p.file_url,
        metadata: p.metadata,
        updated_at: at,
    }
}

/// The document that creating payload `p` under identifier `id` at time
/// `now` yields: version 1, a one-entry history, not deleted.
pub open spec fn created_doc(id: u64, p: PayloadView, now: u64) -> DocView {
    DocView {
        id: id,
        title: p.title,
        description: p.description,
        file_url: p.file_url,
        version: 1,
        created_at: now,
        updated_at: None,
        is_deleted: false,
        history: seq![snapshot_of(p, 1, now)],
    }
}

/// The document that updating `d` with payload `p` at time `now` yields:
/// the content fields overwritten, the version incremented once, and one
/// snapshot of `p` appended to the history.
pub open spec fn updated_doc(d: DocView, p: PayloadView, now: u64) -> DocView {
    DocView {
        id: d.id,
        title: p.title,
        description: p.description,
        file_url: p.file_url,
        version: (d.version + 1) as u64,
        created_at: d.created_at,
        updated_at: Some(now),
        is_deleted: d.is_deleted,
        history: d.history.push(snapshot_of(p, (d.version + 1) as u64, now)),
    }
}

/// `d` with its soft-delete flag set to `flag` and nothing else changed.
pub open spec fn with_deleted(d: DocView, flag: bool) -> DocView {
    DocView {
        id: d.id,
        title: d.title,
        description: d.description,
        file_url: d.file_url,
        version: d.version,
        created_at: d.created_at,
        updated_at: d.updated_at,
        is_deleted: flag,
        history: d.history,
    }
}

/// A document's internal invariant: at least one version, a history exactly
/// as long as the version number, dense snapshot numbering, and content
/// fields that do not trim to empty.
pub open spec fn doc_wf(d: DocView) -> bool {
    &&& 1 <= d.version
    &&& d.history.len() == d.version
    &&& forall|i: int| 0 <= i < d.history.len() ==> (#[trigger] d.history[i]).version == i + 1
    &&& !is_blank(d.title)
    &&& !is_blank(d.description)
    &&& !is_blank(d.file_url)
}

} // verus!

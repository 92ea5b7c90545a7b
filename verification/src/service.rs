//! The behavioural core: a service that validates payloads, issues
//! identifiers, and orchestrates create, update, soft-delete, restore, get
//! and search against the durable store, keeping each document's full
//! version history.

use vstd::prelude::*;
use crate::types::{
    Document, DocumentVersion, DocumentMetadata, DocumentPayload, Error, DocView, PayloadView,
    payload_valid, doc_wf, created_doc, updated_doc, snapshot_of, with_deleted,
};
use crate::validate::{validate_document_payload, trims_to_empty};
use crate::codec::{dec_doc, lemma_doc_round_trip};
use crate::text::{doc_matches, document_matches};
use crate::issuer::IdIssuer;
use crate::storage::{
    DocStore, IdCell, store_contents, counter_value, storage_new, storage_open, store_get,
    store_insert, store_remove, store_entries,
};

verus! {

/// The document registry: a durable store of encoded documents and a
/// durable identifier counter.
pub struct DocumentService {
    store: DocStore,
    issuer: IdIssuer,
}

/// Copies a metadata value field by field.
fn clone_meta(m: &DocumentMetadata) -> (r: DocumentMetadata)
    ensures
        r@ == m@,
{
    DocumentMetadata { updated_by: m.updated_by.clone(), change_summary: m.change_summary.clone() }
}

/// A valid registry image: every stored byte string decodes to a
/// well-formed document that carries its own key as id, and no stored id
/// is 0 or exceeds the identifier counter.
pub open spec fn valid_image(m: Map<u64, Seq<u8>>, counter: u64) -> bool {
    forall|k: u64| #[trigger]
        m.contains_key(k) ==> {
            let b = m[k];
            &&& dec_doc(b) is Some
            &&& dec_doc(b).unwrap().id == k
            &&& doc_wf(dec_doc(b).unwrap())
            &&& 1 <= k <= counter
        }
}

/// How many payloads at the front of `ps` are valid: the number of
/// documents a batch creation actually commits before it stops.
pub open spec fn valid_prefix_len(ps: Seq<PayloadView>) -> int
    decreases ps.len(),
{
    if ps.len() == 0 {
        0
    } else if !payload_valid(ps[0]) {
        0
    } else {
        1 + valid_prefix_len(ps.drop_first())
    }
}

proof fn lemma_valid_prefix_len(ps: Seq<PayloadView>, n: int)
    requires
        0 <= n <= ps.len(),
        forall|j: int| 0 <= j < n ==> payload_valid(#[trigger] ps[j]),
        n < ps.len() ==> !payload_valid(ps[n]),
    ensures
        valid_prefix_len(ps) == n,
    decreases ps.len(),
{
    if ps.len() == 0 {
    } else if n == 0 {
    } else {
        assert(payload_valid(ps[0]));
        let tail = ps.drop_first();
        assert(forall|j: int| 0 <= j < n - 1 ==> #[trigger] tail[j] == ps[j + 1]);
        lemma_valid_prefix_len(tail, n - 1);
    }
}

impl DocumentService {
    /// The bytes the durable store holds, by identifier.
    pub closed spec fn stored_bytes(self) -> Map<u64, Seq<u8>> {
        store_contents(self.store)
    }

    /// The documents the service holds, as mathematical values.
    pub closed spec fn docs(self) -> Map<u64, DocView> {
        store_contents(self.store).map_values(|b: Seq<u8>| dec_doc(b).unwrap())
    }

    /// The highest identifier issued so far; identifiers count up from 1.
    pub closed spec fn issued(self) -> u64 {
        self.issuer.issued()
    }

    /// The service's invariant: the stored bytes and the counter form a
    /// valid registry image.
    pub closed spec fn wf(self) -> bool {
        valid_image(store_contents(self.store), self.issuer.issued())
    }

    /// The number of identifiers issued so far; the next document gets the
    /// identifier one above this.
    pub fn issued_count(&self) -> (r: u64)
        ensures
            r == self.issued(),
    {
        self.issuer.last_issued()
    }

    /// Every document the service holds is well-formed: at least one
    /// version, a history exactly as long as the version number with dense
    /// snapshot numbering, non-blank content fields, the entry's own key as
    /// its id, and an id between 1 and the identifier counter (ids are
    /// never reused).
    pub proof fn lemma_docs_wf(self, k: u64)
        requires
            self.wf(),
            self.docs().contains_key(k),
        ensures
            doc_wf(self.docs()[k]),
            self.docs()[k].id == k,
            1 <= k <= self.issued(),
            self.stored_bytes().contains_key(k),
            dec_doc(self.stored_bytes()[k]) == Some(self.docs()[k]),
    {
    }

    /// A fresh service: nothing stored, no identifier issued yet.
    pub fn new() -> (s: Self)
        ensures
            s.wf(),
            s.issued() == 0,
            forall|k: u64| !s.docs().contains_key(k),
    {
        let (store, cell) = storage_new();
        DocumentService { store, issuer: IdIssuer::from_cell(cell) }
    }


    /// Checks a document's internal invariant at run time.
    fn check_doc(document: &Document) -> (r: bool)
        ensures
            r == doc_wf(document@),
    {
        if document.version < 1 {
            return false;
        }
        let hl = document.history.len();
        if (hl as u64) != document.version {
            return false;
        }
        let mut i: usize = 0;
        while i < hl
            invariant
                0 <= i <= hl,
                hl == document@.history.len(),
                forall|j: int| 0 <= j < i ==> (#[trigger] document@.history[j]).version == j + 1,
            decreases hl - i,
        {
            if document.history[i].version != (i as u64) + 1 {
                assert(document@.history[i as int].version != i + 1);
                return false;
            }
            i += 1;
        }
        if trims_to_empty(&document.title) {
            return false;
        }
        if trims_to_empty(&document.description) {
            return false;
        }
        if trims_to_empty(&document.file_url) {
            return false;
        }
        true
    }

    /// Builds a service over an already-opened store and counter, checking
    /// that what they hold is a valid registry image; `None` exactly when
    /// it is not. This is the verified half of reopening persisted state:
    /// nothing is assumed of the bytes, everything is checked.
    #[verifier::loop_isolation(false)]
    #[verifier::spinoff_prover]
    #[verifier::rlimit(100)]
    pub fn open_from(store: DocStore, cell: IdCell) -> (r: Option<Self>)
        ensures
            r is Some <==> valid_image(store_contents(store), counter_value(cell)),
            r matches Some(s) ==> {
                &&& s.wf()
                &&& s.stored_bytes() == store_contents(store)
                &&& s.issued() == counter_value(cell)
            },
    {
        let issuer = IdIssuer::from_cell(cell);
        let last = issuer.last_issued();
        let entries = store_entries(&store);
        let n = entries.len();
        let mut i: usize = 0;
        while i < n
            invariant
                0 <= i <= n,
                forall|l: int|
                    0 <= l < i ==> {
                        let k = (#[trigger] entries@[l]).0;
                        let b = store_contents(store)[k];
                        &&& dec_doc(b) is Some
                        &&& dec_doc(b).unwrap().id == k
                        &&& doc_wf(dec_doc(b).unwrap())
                        &&& 1 <= k <= counter_value(cell)
                    },
            decreases n - i,
        {
            let e = &entries[i];
            if e.0 < 1 || e.0 > last {
                return None;
            }
            match Document::from_bytes(e.1.as_slice()) {
                None => {
                    return None;
                },
                Some(document) => {
                    if document.id != e.0 {
                        return None;
                    }
                    if !Self::check_doc(&document) {
                        return None;
                    }
                },
            }
            i += 1;
        }
        proof {
            assert forall|k: u64| #[trigger]
                store_contents(store).contains_key(k) implies {
                let b = store_contents(store)[k];
                &&& dec_doc(b) is Some
                &&& dec_doc(b).unwrap().id == k
                &&& doc_wf(dec_doc(b).unwrap())
                &&& 1 <= k <= counter_value(cell)
            } by {
                let l = choose|l: int| 0 <= l < entries@.len() && (#[trigger] entries@[l]).0 == k;
            };
        }
        Some(DocumentService { store, issuer })
    }

    /// Reopens the registry persisted in stable memory, checking it;
    /// `None` when the persisted bytes are not a valid registry image. On
    /// fresh memory this gives the empty registry.
    pub fn open() -> (r: Option<Self>)
        ensures
            r matches Some(s) ==> s.wf(),
    {
        let (store, cell) = storage_open();
        Self::open_from(store, cell)
    }

    /// Persists `document` under its id, overwriting whatever was there.
    pub fn do_insert_document(&mut self, document: &Document)
        requires
            old(self).wf(),
            doc_wf(document@),
            1 <= document@.id <= old(self).issued(),
        ensures
            final(self).wf(),
            final(self).issued() == old(self).issued(),
            final(self).docs() == old(self).docs().insert(document@.id, document@),
    {
        let bytes = document.to_bytes();
        proof {
            lemma_doc_round_trip(document@);
        }
        store_insert(&mut self.store, document.id, bytes);
        proof {
            let pre = store_contents(old(self).store);
            let post = store_contents(self.store);
            assert forall|k: u64| #[trigger] post.contains_key(k) implies {
                let b = post[k];
                &&& dec_doc(b) is Some
                &&& dec_doc(b).unwrap().id == k
                &&& doc_wf(dec_doc(b).unwrap())
                &&& 1 <= k <= self.issuer.issued()
            } by {
                if k != document@.id {
                    assert(pre.contains_key(k));
                }
            };
            assert(self.docs() =~= old(self).docs().insert(document@.id, document@));
        }
    }

    /// Validates the payload; on success draws a fresh identifier, builds
    /// the version-1 document with a one-entry history, persists it and
    /// returns it.
    pub fn create(&mut self, payload: &DocumentPayload, now: u64) -> (r: Result<Document, Error>)
        requires
            old(self).wf(),
            old(self).issued() < u64::MAX,
        ensures
            final(self).wf(),
            payload_valid(payload@) ==> {
                &&& r matches Ok(d) && {
                    &&& d@ == created_doc((old(self).issued() + 1) as u64, payload@, now)
                    &&& d@.version == 1
                    &&& d@.history.len() == 1
                    &&& !d@.is_deleted
                    &&& !old(self).docs().contains_key(d@.id)
                    &&& final(self).docs() == old(self).docs().insert(d@.id, d@)
                }
                &&& final(self).issued() == old(self).issued() + 1
            },
            !payload_valid(payload@) ==> {
                &&& r matches Err(e) && e is InvalidInput
                &&& final(self).stored_bytes() == old(self).stored_bytes()
                &&& final(self).docs() == old(self).docs()
                &&& final(self).issued() == old(self).issued()
            },
    {
        match validate_document_payload(payload) {
            Err(e) => Err(e),
            Ok(()) => {
                let id = self.issuer.next_id();
                let snapshot = DocumentVersion {
                    version: 1,
                    title: payload.title.clone(),
                    description: payload.description.clone(),
                    file_url: payload.file_url.clone(),
                    metadata: clone_meta(&payload.metadata),
                    updated_at: now,
                };
                let document = Document {
                    id,
                    title: payload.title.clone(),
                    description: payload.description.clone(),
                    file_url: payload.file_url.clone(),
                    version: 1,
                    created_at: now,
                    updated_at: None,
                    is_deleted: false,
                    history: vec![snapshot],
                };
                proof {
                    assert(document@.history =~= created_doc(id, payload@, now).history);
                    assert(document@ =~= created_doc(id, payload@, now));
                    assert(doc_wf(document@));
                }
                self.do_insert_document(&document);
                Ok(document)
            },
        }
    }

    /// Validates the payload; then, on an existing non-deleted document,
    /// overwrites the content fields, increments the version once, appends
    /// one snapshot of the payload to the history, sets the update
    /// timestamp, persists and returns the document.
    pub fn update(&mut self, id: u64, payload: &DocumentPayload, now: u64) -> (r: Result<
        Document,
        Error,
    >)
        requires
            old(self).wf(),
            old(self).docs().contains_key(id) && !old(self).docs()[id].is_deleted ==> old(
                self,
            ).docs()[id].version < u64::MAX,
        ensures
            final(self).wf(),
            final(self).issued() == old(self).issued(),
            !payload_valid(payload@) ==> {
                &&& r matches Err(e) && e is InvalidInput
                &&& final(self).stored_bytes() == old(self).stored_bytes()
                &&& final(self).docs() == old(self).docs()
            },
            payload_valid(payload@) && !old(self).docs().contains_key(id) ==> {
                &&& (r matches Err(Error::NotFound { msg }) && msg@ == "Document not found"@)
                &&& final(self).stored_bytes() == old(self).stored_bytes()
                &&& final(self).docs() == old(self).docs()
            },
            payload_valid(payload@) && old(self).docs().contains_key(id) && old(self).docs()[id]
                .is_deleted ==> {
                &&& r matches Err(e) && e is DocumentDeleted
                &&& final(self).stored_bytes() == old(self).stored_bytes()
                &&& final(self).docs() == old(self).docs()
            },
            payload_valid(payload@) && old(self).docs().contains_key(id) && !old(self).docs()[id]
                .is_deleted ==> {
                &&& r matches Ok(d) && {
                    &&& d@ == updated_doc(old(self).docs()[id], payload@, now)
                    &&& d@.version == old(self).docs()[id].version + 1
                    &&& d@.history.len() == old(self).docs()[id].history.len() + 1
                    &&& d@.history.last() == snapshot_of(payload@, d@.version, now)
                    &&& final(self).docs() == old(self).docs().insert(id, d@)
                }
            },
    {
        match validate_document_payload(payload) {
            Err(e) => Err(e),
            Ok(()) => match store_get(&self.store, id) {
                None => Err(Error::NotFound { msg: "Document not found".to_owned() }),
                Some(bytes) => match Document::from_bytes(bytes.as_slice()) {
                    None => {
                        proof {
                            assert(false);
                        }
                        Err(Error::DocumentDeleted)
                    },
                    Some(mut document) => {
                        if document.is_deleted {
                            Err(Error::DocumentDeleted)
                        } else {
                            let ghost dv = old(self).docs()[id];
                            let new_version = document.version + 1;
                            let snapshot = DocumentVersion {
                                version: new_version,
                                title: payload.title.clone(),
                                description: payload.description.clone(),
                                file_url: payload.file_url.clone(),
                                metadata: clone_meta(&payload.metadata),
                                updated_at: now,
                            };
                            document.history.push(snapshot);
                            document.title = payload.title.clone();
                            document.description = payload.description.clone();
                            document.file_url = payload.file_url.clone();
                            document.version = new_version;
                            document.updated_at = Some(now);
                            proof {
                                assert(document@.history =~= updated_doc(
                                    dv,
                                    payload@,
                                    now,
                                ).history);
                                assert(document@ =~= updated_doc(dv, payload@, now));
                                assert(doc_wf(document@));
                            }
                            self.do_insert_document(&document);
                            Ok(document)
                        }
                    },
                },
            },
        }
    }

    /// Marks an existing non-deleted document as deleted; a document that
    /// is already deleted is put back unchanged and reported as
    /// `AlreadyDeleted`.
    pub fn soft_delete(&mut self, id: u64) -> (r: Result<Document, Error>)
        requires
            old(self).wf(),
        ensures
            final(self).wf(),
            final(self).issued() == old(self).issued(),
            !old(self).docs().contains_key(id) ==> {
                &&& (r matches Err(Error::NotFound { msg }) && msg@ == "Document not found"@)
                &&& final(self).stored_bytes() == old(self).stored_bytes()
                &&& final(self).docs() == old(self).docs()
            },
            old(self).docs().contains_key(id) && old(self).docs()[id].is_deleted ==> {
                &&& r matches Err(e) && e is AlreadyDeleted
                &&& final(self).stored_bytes() == old(self).stored_bytes()
                &&& final(self).docs() == old(self).docs()
            },
            old(self).docs().contains_key(id) && !old(self).docs()[id].is_deleted ==> {
                &&& r matches Ok(d) && {
                    &&& d@ == with_deleted(old(self).docs()[id], true)
                    &&& final(self).docs() == old(self).docs().insert(id, d@)
                }
            },
    {
        match store_remove(&mut self.store, id) {
            None => {
                proof {
                    assert(store_contents(self.store) =~= store_contents(old(self).store));
                    assert(self.docs() =~= old(self).docs());
                }
                Err(Error::NotFound { msg: "Document not found".to_owned() })
            },
            Some(bytes) => match Document::from_bytes(bytes.as_slice()) {
                None => {
                    proof {
                        assert(false);
                    }
                    Err(Error::DocumentDeleted)
                },
                Some(mut document) => {
                    if document.is_deleted {
                        store_insert(&mut self.store, id, bytes);
                        proof {
                            assert(store_contents(self.store) =~= store_contents(
                                old(self).store,
                            ));
                            assert(self.docs() =~= old(self).docs());
                        }
                        Err(Error::AlreadyDeleted)
                    } else {
                        let ghost dv = old(self).docs()[id];
                        document.is_deleted = true;
                        proof {
                            Self::lemma_wf_after_remove(*self, *old(self), id);
                            assert(document@ =~= with_deleted(dv, true));
                            assert(doc_wf(document@));
                            assert(old(self).docs().remove(id).insert(id, document@)
                                =~= old(self).docs().insert(id, document@));
                        }
                        self.do_insert_document(&document);
                        Ok(document)
                    }
                },
            },
        }
    }

    /// Brings a soft-deleted document back; a document that is not deleted
    /// is put back unchanged and reported as `NotDeleted`.
    pub fn restore(&mut self, id: u64) -> (r: Result<Document, Error>)
        requires
            old(self).wf(),
        ensures
            final(self).wf(),
            final(self).issued() == old(self).issued(),
            !old(self).docs().contains_key(id) ==> {
                &&& (r matches Err(Error::NotFound { msg }) && msg@ == "Document not found"@)
                &&& final(self).stored_bytes() == old(self).stored_bytes()
                &&& final(self).docs() == old(self).docs()
            },
            old(self).docs().contains_key(id) && !old(self).docs()[id].is_deleted ==> {
                &&& r matches Err(e) && e is NotDeleted
                &&& final(self).stored_bytes() == old(self).stored_bytes()
                &&& final(self).docs() == old(self).docs()
            },
            old(self).docs().contains_key(id) && old(self).docs()[id].is_deleted ==> {
                &&& r matches Ok(d) && {
                    &&& d@ == with_deleted(old(self).docs()[id], false)
                    &&& final(self).docs() == old(self).docs().insert(id, d@)
                }
            },
    {
        match store_remove(&mut self.store, id) {
            None => {
                proof {
                    assert(store_contents(self.store) =~= store_contents(old(self).store));
                    assert(self.docs() =~= old(self).docs());
                }
                Err(Error::NotFound { msg: "Document not found".to_owned() })
            },
            Some(bytes) => match Document::from_bytes(bytes.as_slice()) {
                None => {
                    proof {
                        assert(false);
                    }
                    Err(Error::DocumentDeleted)
                },
                Some(mut document) => {
                    if !document.is_deleted {
                        store_insert(&mut self.store, id, bytes);
                        proof {
                            assert(store_contents(self.store) =~= store_contents(
                                old(self).store,
                            ));
                            assert(self.docs() =~= old(self).docs());
                        }
                        Err(Error::NotDeleted)
                    } else {
                        let ghost dv = old(self).docs()[id];
                        document.is_deleted = false;
                        proof {
                            Self::lemma_wf_after_remove(*self, *old(self), id);
                            assert(document@ =~= with_deleted(dv, false));
                            assert(doc_wf(document@));
                            assert(old(self).docs().remove(id).insert(id, document@)
                                =~= old(self).docs().insert(id, document@));
                        }
                        self.do_insert_document(&document);
                        Ok(document)
                    }
                },
            },
        }
    }

    /// After a key is removed the invariant still holds: every remaining
    /// entry was already present before.
    proof fn lemma_wf_after_remove(self, pre: Self, id: u64)
        requires
            pre.wf(),
            store_contents(self.store) == store_contents(pre.store).remove(id),
            self.issuer.issued() == pre.issuer.issued(),
        ensures
            self.wf(),
            self.docs() == pre.docs().remove(id),
    {
        assert(self.docs() =~= pre.docs().remove(id));
    }

    /// Applies `create` to each payload in order, stopping at the first
    /// invalid payload with its error; documents created before the stop
    /// stay committed (batch creation is not atomic).
    #[verifier::loop_isolation(false)]
    #[verifier::spinoff_prover]
    #[verifier::rlimit(100)]
    pub fn create_batch(&mut self, payloads: &Vec<DocumentPayload>, now: u64) -> (r: Result<
        Vec<Document>,
        Error,
    >)
        requires
            old(self).wf(),
            old(self).issued() + payloads@.len() <= u64::MAX,
        ensures
            final(self).wf(),
            ({
                let ps = payloads.deep_view();
                let n = valid_prefix_len(ps);
                &&& final(self).issued() == old(self).issued() + n
                &&& (r is Ok <==> n == ps.len())
                &&& (r matches Ok(ds) ==> ds.deep_view().len() == ps.len() && forall|j: int|
                    0 <= j < ps.len() ==> #[trigger] ds.deep_view()[j] == created_doc(
                        (old(self).issued() + j + 1) as u64,
                        ps[j],
                        now,
                    ))
                &&& (r matches Err(e) ==> e is InvalidInput)
                &&& forall|k: u64| #[trigger]
                    old(self).docs().contains_key(k) ==> final(self).docs().contains_key(k)
                        && final(self).docs()[k] == old(self).docs()[k]
                &&& forall|j: int|
                    0 <= j < n ==> {
                        let idj = (old(self).issued() + j + 1) as u64;
                        &&& final(self).docs().contains_key(idj)
                        &&& final(self).docs()[idj] == created_doc(idj, #[trigger] ps[j], now)
                    }
                &&& forall|k: u64| #[trigger]
                    final(self).docs().contains_key(k) ==> old(self).docs().contains_key(k)
                        || old(self).issued() < k <= old(self).issued() + n
            }),
    {
        let ghost ps = payloads.deep_view();
        let ghost base_docs = old(self).docs();
        let ghost base_issued = old(self).issued();
        let n = payloads.len();
        let mut out: Vec<Document> = Vec::new();
        let mut i: usize = 0;
        while i < n
            invariant
                0 <= i <= n,
                self.wf(),
                forall|j: int| 0 <= j < i ==> payload_valid(#[trigger] ps[j]),
                self.issued() == base_issued + i,
                out.deep_view().len() == i,
                forall|j: int|
                    0 <= j < i ==> #[trigger] out.deep_view()[j] == created_doc(
                        (base_issued + j + 1) as u64,
                        ps[j],
                        now,
                    ),
                forall|k: u64| #[trigger]
                    base_docs.contains_key(k) ==> self.docs().contains_key(k) && self.docs()[k]
                        == base_docs[k],
                forall|j: int|
                    0 <= j < i ==> {
                        let idj = (base_issued + j + 1) as u64;
                        &&& self.docs().contains_key(idj)
                        &&& self.docs()[idj] == created_doc(idj, #[trigger] ps[j], now)
                    },
                forall|k: u64| #[trigger]
                    self.docs().contains_key(k) ==> base_docs.contains_key(k) || base_issued < k
                        <= base_issued + i,
            decreases n - i,
        {
            let ghost pre = *self;
            match self.create(&payloads[i], now) {
                Ok(d) => {
                    let ghost prev_dv = out.deep_view();
                    out.push(d);
                    proof {
                        assert(out.deep_view() =~= prev_dv.push(d@));
                    }
                },
                Err(e) => {
                    proof {
                        lemma_valid_prefix_len(ps, i as int);
                    }
                    return Err(e);
                },
            }
            i += 1;
        }
        proof {
            lemma_valid_prefix_len(ps, n as int);
        }
        Ok(out)
    }

    /// Case-insensitive substring search of the query against title or
    /// description, scanning every stored document, the soft-deleted ones
    /// included; matches come back in ascending identifier order.
    #[verifier::loop_isolation(false)]
    #[verifier::spinoff_prover]
    #[verifier::rlimit(100)]
    pub fn search(&self, query: &String) -> (r: Vec<Document>)
        requires
            self.wf(),
        ensures
            forall|i: int|
                0 <= i < r@.len() ==> {
                    let d = (#[trigger] r@[i])@;
                    &&& self.docs().contains_key(d.id)
                    &&& d == self.docs()[d.id]
                    &&& doc_matches(d, query@)
                },
            forall|k: u64|
                self.docs().contains_key(k) && doc_matches(#[trigger] self.docs()[k], query@)
                    ==> exists|i: int| 0 <= i < r@.len() && (#[trigger] r@[i])@.id == k,
            forall|i: int, j: int| 0 <= i < j < r@.len() ==> (#[trigger] r@[i])@.id < (
            #[trigger] r@[j])@.id,
    {
        let entries = store_entries(&self.store);
        let n = entries.len();
        let mut out: Vec<Document> = Vec::new();
        let mut i: usize = 0;
        while i < n
            invariant
                0 <= i <= n,
                forall|j: int|
                    0 <= j < out@.len() ==> {
                        let d = (#[trigger] out@[j])@;
                        &&& self.docs().contains_key(d.id)
                        &&& d == self.docs()[d.id]
                        &&& doc_matches(d, query@)
                    },
                forall|l: int|
                    0 <= l < i && doc_matches(
                        self.docs()[(#[trigger] entries@[l]).0],
                        query@,
                    ) ==> exists|j: int| 0 <= j < out@.len() && (#[trigger] out@[j])@.id
                        == entries@[l].0,
                forall|j: int|
                    0 <= j < out@.len() ==> exists|l: int|
                        0 <= l < i && (#[trigger] entries@[l]).0 == (#[trigger] out@[j])@.id,
                forall|j1: int, j2: int|
                    0 <= j1 < j2 < out@.len() ==> (#[trigger] out@[j1])@.id < (
                    #[trigger] out@[j2])@.id,
            decreases n - i,
        {
            let e = &entries[i];
            match Document::from_bytes(e.1.as_slice()) {
                None => {
                    proof {
                        assert(false);
                    }
                },
                Some(d) => {
                    if document_matches(&d, query) {
                        let ghost prev = out@;
                        proof {
                            assert(d@.id == entries@[i as int].0);
                            assert forall|j: int| 0 <= j < prev.len() implies (
                            #[trigger] prev[j])@.id < d@.id by {
                                let l = choose|l: int|
                                    0 <= l < i && (#[trigger] entries@[l]).0 == prev[j]@.id;
                                assert(entries@[l].0 < entries@[i as int].0);
                            };
                        }
                        out.push(d);
                        proof {
                            let cur = out@;
                            assert forall|l: int|
                                0 <= l < i + 1 && doc_matches(
                                    self.docs()[(#[trigger] entries@[l]).0],
                                    query@,
                                ) implies exists|j: int|
                                0 <= j < cur.len() && (#[trigger] cur[j])@.id == entries@[l].0 by {
                                if l == i as int {
                                    assert(cur[cur.len() - 1]@.id == entries@[l].0);
                                } else {
                                    let j = choose|j: int|
                                        0 <= j < prev.len() && (#[trigger] prev[j])@.id
                                            == entries@[l].0;
                                    assert(cur[j] == prev[j]);
                                }
                            };
                        }
                    }
                },
            }
            i += 1;
        }
        proof {
            assert forall|k: u64|
                self.docs().contains_key(k) && doc_matches(
                    #[trigger] self.docs()[k],
                    query@,
                ) implies exists|j: int| 0 <= j < out@.len() && (#[trigger] out@[j])@.id == k by {
                let l = choose|l: int| 0 <= l < entries@.len() && (#[trigger] entries@[l]).0 == k;
                assert(doc_matches(self.docs()[entries@[l].0], query@));
            };
        }
        out
    }

    /// Fetches a document by id; soft-deleted documents are invisible here
    /// and reported as `DocumentDeleted`.
    pub fn get(&self, id: u64) -> (r: Result<Document, Error>)
        requires
            self.wf(),
        ensures
            match r {
                Ok(d) => {
                    &&& self.docs().contains_key(id)
                    &&& d@ == self.docs()[id]
                    &&& !d@.is_deleted
                },
                Err(e) => {
                    ||| (e matches Error::NotFound { msg } && msg@ == "Document not found"@
                        && !self.docs().contains_key(id))
                    ||| (e is DocumentDeleted && self.docs().contains_key(id)
                        && self.docs()[id].is_deleted)
                },
            },
    {
        match store_get(&self.store, id) {
            None => Err(Error::NotFound { msg: "Document not found".to_owned() }),
            Some(bytes) => match Document::from_bytes(bytes.as_slice()) {
                Some(document) => {
                    if document.is_deleted {
                        Err(Error::DocumentDeleted)
                    } else {
                        Ok(document)
                    }
                },
                None => {
                    proof {
                        assert(false);
                    }
                    Err(Error::DocumentDeleted)
                },
            },
        }
    }
}

} // verus!

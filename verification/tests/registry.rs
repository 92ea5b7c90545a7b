use doc_registry::service::DocumentService;
use doc_registry::types::{Document, DocumentMetadata, DocumentPayload, DocumentVersion, Error};
use doc_registry::validate::validate_document_payload;
use doc_registry::text::contains_chars;

fn payload(title: &str, description: &str, file_url: &str, by: &str, why: &str) -> DocumentPayload {
    DocumentPayload {
        title: title.to_string(),
        description: description.to_string(),
        file_url: file_url.to_string(),
        metadata: DocumentMetadata {
            updated_by: by.to_string(),
            change_summary: why.to_string(),
        },
    }
}

#[test]
fn create_sets_initial_state() {
    let mut svc = DocumentService::new();
    let doc = svc.create(&payload("A", "B", "u", "x", "init"), 77).unwrap();
    assert_eq!(doc.id, 1);
    assert_eq!(doc.version, 1);
    assert_eq!(doc.created_at, 77);
    assert_eq!(doc.updated_at, None);
    assert!(!doc.is_deleted);
    assert_eq!(doc.history.len(), 1);
    assert_eq!(doc.history[0].version, 1);
    assert_eq!(doc.history[0].title, "A");
    assert_eq!(doc.history[0].metadata.change_summary, "init");
    assert_eq!(doc.title, "A");
    assert_eq!(doc.description, "B");
    assert_eq!(doc.file_url, "u");
}

#[test]
fn ids_count_up_from_one() {
    let mut svc = DocumentService::new();
    let a = svc.create(&payload("A", "B", "u", "x", "c"), 1).unwrap();
    let b = svc.create(&payload("C", "D", "v", "x", "c"), 2).unwrap();
    assert_eq!(a.id, 1);
    assert_eq!(b.id, 2);
}

#[test]
fn update_appends_history() {
    let mut svc = DocumentService::new();
    let doc = svc.create(&payload("A", "B", "u", "x", "init"), 1).unwrap();
    let upd = svc
        .update(doc.id, &payload("A2", "B2", "u2", "y", "edit"), 2)
        .unwrap();
    assert_eq!(upd.version, doc.version + 1);
    assert_eq!(upd.history.len(), doc.history.len() + 1);
    let last = upd.history.last().unwrap();
    assert_eq!(last.version, 2);
    assert_eq!(last.title, "A2");
    assert_eq!(last.description, "B2");
    assert_eq!(last.file_url, "u2");
    assert_eq!(last.metadata.updated_by, "y");
    assert_eq!(last.metadata.change_summary, "edit");
    assert_eq!(upd.updated_at, Some(2));
    assert_eq!(upd.created_at, 1);
    assert_eq!(upd.title, "A2");
}

#[test]
fn soft_delete_twice_is_rejected_and_keeps_document() {
    let mut svc = DocumentService::new();
    let doc = svc.create(&payload("A", "B", "u", "x", "init"), 1).unwrap();
    let deleted = svc.soft_delete(doc.id).unwrap();
    assert!(deleted.is_deleted);
    let again = svc.soft_delete(doc.id);
    assert!(matches!(again, Err(Error::AlreadyDeleted)));
    let back = svc.restore(doc.id).unwrap();
    assert!(!back.is_deleted);
    assert_eq!(back.title, doc.title);
    assert_eq!(back.version, doc.version);
    assert_eq!(back.history.len(), doc.history.len());
}

#[test]
fn restore_of_active_document_is_rejected() {
    let mut svc = DocumentService::new();
    let doc = svc.create(&payload("A", "B", "u", "x", "init"), 1).unwrap();
    let r = svc.restore(doc.id);
    assert!(matches!(r, Err(Error::NotDeleted)));
    let fetched = svc.get(doc.id).unwrap();
    assert_eq!(fetched.title, "A");
}

#[test]
fn get_hides_deleted_documents() {
    let mut svc = DocumentService::new();
    let doc = svc.create(&payload("A", "B", "u", "x", "init"), 1).unwrap();
    svc.soft_delete(doc.id).unwrap();
    let r = svc.get(doc.id);
    assert!(matches!(r, Err(Error::DocumentDeleted)));
}

#[test]
fn codec_round_trip() {
    let doc = Document {
        id: 42,
        title: "Grüße 日本".to_string(),
        description: "ünïcödé — description".to_string(),
        file_url: "https://example.test/f".to_string(),
        version: 2,
        created_at: 123456789,
        updated_at: Some(987654321),
        is_deleted: true,
        history: vec![
            DocumentVersion {
                version: 1,
                title: "first".to_string(),
                description: "d1".to_string(),
                file_url: "u1".to_string(),
                metadata: DocumentMetadata {
                    updated_by: "alice".to_string(),
                    change_summary: "init".to_string(),
                },
                updated_at: 11,
            },
            DocumentVersion {
                version: 2,
                title: "Grüße 日本".to_string(),
                description: "d2".to_string(),
                file_url: "u2".to_string(),
                metadata: DocumentMetadata {
                    updated_by: "bob".to_string(),
                    change_summary: "edit".to_string(),
                },
                updated_at: 22,
            },
        ],
    };
    let bytes = doc.to_bytes();
    let back = Document::from_bytes(bytes.as_slice()).unwrap();
    assert_eq!(back.id, doc.id);
    assert_eq!(back.title, doc.title);
    assert_eq!(back.description, doc.description);
    assert_eq!(back.file_url, doc.file_url);
    assert_eq!(back.version, doc.version);
    assert_eq!(back.created_at, doc.created_at);
    assert_eq!(back.updated_at, doc.updated_at);
    assert_eq!(back.is_deleted, doc.is_deleted);
    assert_eq!(back.history.len(), doc.history.len());
    for (a, b) in back.history.iter().zip(doc.history.iter()) {
        assert_eq!(a.version, b.version);
        assert_eq!(a.title, b.title);
        assert_eq!(a.description, b.description);
        assert_eq!(a.file_url, b.file_url);
        assert_eq!(a.metadata.updated_by, b.metadata.updated_by);
        assert_eq!(a.metadata.change_summary, b.metadata.change_summary);
        assert_eq!(a.updated_at, b.updated_at);
    }
}

#[test]
fn codec_layout_starts_with_id_and_title() {
    let doc = Document {
        id: 7,
        title: "A".to_string(),
        description: "B".to_string(),
        file_url: "u".to_string(),
        version: 1,
        created_at: 0,
        updated_at: None,
        is_deleted: false,
        history: vec![],
    };
    let bytes = doc.to_bytes();
    assert_eq!(&bytes[0..8], &7u64.to_le_bytes());
    assert_eq!(&bytes[8..16], &1u64.to_le_bytes());
    assert_eq!(bytes[16], b'A');
}

#[test]
fn from_bytes_rejects_garbage_and_trailing_bytes() {
    assert!(Document::from_bytes(&[1, 2, 3]).is_none());
    let doc = Document {
        id: 1,
        title: "A".to_string(),
        description: "B".to_string(),
        file_url: "u".to_string(),
        version: 1,
        created_at: 0,
        updated_at: None,
        is_deleted: false,
        history: vec![],
    };
    let mut bytes = doc.to_bytes();
    bytes.push(0);
    assert!(Document::from_bytes(bytes.as_slice()).is_none());
}

#[test]
fn search_is_case_insensitive_and_substring_based() {
    let mut svc = DocumentService::new();
    svc.create(&payload("xabcy", "other", "u", "x", "c"), 1).unwrap();
    svc.create(&payload("nothing", "here", "u", "x", "c"), 2).unwrap();
    let hits = svc.search(&"ABC".to_string());
    assert_eq!(hits.len(), 1);
    assert_eq!(hits[0].title, "xabcy");
}

#[test]
fn search_matches_description_and_includes_deleted() {
    let mut svc = DocumentService::new();
    let a = svc.create(&payload("one", "the RED fox", "u", "x", "c"), 1).unwrap();
    svc.create(&payload("two", "a blue fish", "u", "x", "c"), 2).unwrap();
    svc.soft_delete(a.id).unwrap();
    let hits = svc.search(&"red".to_string());
    assert_eq!(hits.len(), 1);
    assert_eq!(hits[0].id, a.id);
    assert!(hits[0].is_deleted);
}

#[test]
fn contains_chars_exact_cases() {
    let hay: Vec<char> = "abc".chars().collect();
    let needle: Vec<char> = "bc".chars().collect();
    assert!(contains_chars(&hay, &needle));
    let empty: Vec<char> = Vec::new();
    assert!(contains_chars(&hay, &empty));
    let long: Vec<char> = "abcd".chars().collect();
    assert!(!contains_chars(&hay, &long));
    let absent: Vec<char> = "ac".chars().collect();
    assert!(!contains_chars(&hay, &absent));
}

#[test]
fn validation_rejects_blank_fields() {
    let mut svc = DocumentService::new();
    let r = svc.create(&payload("", "B", "u", "x", "c"), 1);
    assert!(matches!(r, Err(Error::InvalidInput { .. })));
    let r = svc.create(&payload("  \t ", "B", "u", "x", "c"), 1);
    assert!(matches!(r, Err(Error::InvalidInput { .. })));
    let r = svc.create(&payload("\u{2003}\u{3000}", "B", "u", "x", "c"), 1);
    assert!(matches!(r, Err(Error::InvalidInput { .. })));
    let doc = svc.create(&payload("A", "B", "u", "x", "c"), 1).unwrap();
    let r = svc.update(doc.id, &payload(" ", "B", "u", "x", "c"), 2);
    assert!(matches!(r, Err(Error::InvalidInput { .. })));
    assert!(validate_document_payload(&payload("A", "B", "u", "x", " ")).is_err());
    assert!(validate_document_payload(&payload("A", "B", "u", "", "c")).is_ok());
}

#[test]
fn unknown_id_is_not_found() {
    let mut svc = DocumentService::new();
    svc.create(&payload("A", "B", "u", "x", "c"), 1).unwrap();
    assert!(matches!(svc.get(9999), Err(Error::NotFound { .. })));
    assert!(matches!(
        svc.update(9999, &payload("A", "B", "u", "x", "c"), 2),
        Err(Error::NotFound { .. })
    ));
    assert!(matches!(svc.soft_delete(9999), Err(Error::NotFound { .. })));
    assert!(matches!(svc.restore(9999), Err(Error::NotFound { .. })));
}

#[test]
fn create_batch_commits_prefix_and_stops_at_first_invalid() {
    let mut svc = DocumentService::new();
    let batch = vec![
        payload("one", "B", "u", "x", "c"),
        payload("two", "B", "u", "x", "c"),
        payload("", "B", "u", "x", "c"),
        payload("four", "B", "u", "x", "c"),
    ];
    let r = svc.create_batch(&batch, 5);
    assert!(matches!(r, Err(Error::InvalidInput { .. })));
    assert_eq!(svc.get(1).unwrap().title, "one");
    assert_eq!(svc.get(2).unwrap().title, "two");
    assert!(matches!(svc.get(3), Err(Error::NotFound { .. })));
    let all = svc.create_batch(&batch[0..2].to_vec(), 6).unwrap();
    assert_eq!(all.len(), 2);
    assert_eq!(all[0].id, 3);
    assert_eq!(all[1].id, 4);
}

#[test]
fn lifecycle_scenario() {
    let mut svc = DocumentService::new();
    let doc = svc.create(&payload("A", "B", "u", "x", "init"), 1).unwrap();
    assert_eq!(doc.id, 1);
    assert_eq!(doc.version, 1);
    assert!(!doc.is_deleted);
    let upd = svc.update(1, &payload("A2", "B", "u", "x", "edit"), 2).unwrap();
    assert_eq!(upd.version, 2);
    assert_eq!(upd.history.len(), 2);
    let del = svc.soft_delete(1).unwrap();
    assert!(del.is_deleted);
    assert!(matches!(svc.get(1), Err(Error::DocumentDeleted)));
    let rest = svc.restore(1).unwrap();
    assert!(!rest.is_deleted);
    assert_eq!(svc.get(1).unwrap().title, "A2");
    svc.soft_delete(1).unwrap();
    assert!(matches!(svc.soft_delete(1), Err(Error::AlreadyDeleted)));
}

#[test]
fn update_of_deleted_document_is_blocked() {
    let mut svc = DocumentService::new();
    let doc = svc.create(&payload("A", "B", "u", "x", "init"), 1).unwrap();
    svc.soft_delete(doc.id).unwrap();
    let r = svc.update(doc.id, &payload("A2", "B", "u", "x", "edit"), 2);
    assert!(matches!(r, Err(Error::DocumentDeleted)));
    let rest = svc.restore(doc.id).unwrap();
    assert_eq!(rest.title, "A");
    assert_eq!(rest.version, 1);
}

#[test]
fn open_gives_a_working_registry() {
    let mut svc = DocumentService::open().expect("fresh memory holds the empty registry");
    assert!(matches!(svc.get(1), Err(Error::NotFound { .. })));
    let doc = svc.create(&payload("A", "B", "u", "x", "init"), 1).unwrap();
    assert_eq!(doc.id, 1);
    assert_eq!(svc.get(1).unwrap().title, "A");
}

#[test]
fn validation_messages_name_the_first_failing_field() {
    let r = validate_document_payload(&payload(" ", "", "u", "x", "c"));
    match r {
        Err(Error::InvalidInput { msg }) => assert_eq!(msg, "Title cannot be empty"),
        _ => panic!("expected InvalidInput"),
    }
    let r = validate_document_payload(&payload("A", " ", "", "x", "c"));
    match r {
        Err(Error::InvalidInput { msg }) => assert_eq!(msg, "Description cannot be empty"),
        _ => panic!("expected InvalidInput"),
    }
    let r = validate_document_payload(&payload("A", "B", "\t", "x", "c"));
    match r {
        Err(Error::InvalidInput { msg }) => assert_eq!(msg, "File URL cannot be empty"),
        _ => panic!("expected InvalidInput"),
    }
    let r = validate_document_payload(&payload("A", "B", "u", "x", "  "));
    match r {
        Err(Error::InvalidInput { msg }) => assert_eq!(msg, "Change summary cannot be empty"),
        _ => panic!("expected InvalidInput"),
    }
    let mut svc = DocumentService::new();
    match svc.get(9999) {
        Err(Error::NotFound { msg }) => assert_eq!(msg, "Document not found"),
        _ => panic!("expected NotFound"),
    }
}

use silo::vault::{Document, DocumentMetadata, StoreError, Timestamp, VaultDatabase};
use std::path::PathBuf;

fn doc(id: &str, content: &str) -> Document {
    Document {
        id: id.to_string(),
        content: content.to_string(),
        metadata: DocumentMetadata {
            file_path: None,
            mime_type: None,
            created_at: Timestamp { secs: 0, nanos: 0 },
            tags: vec![],
        },
    }
}

fn same(a: &Document, b: &Document) -> bool {
    a.id == b.id
        && a.content == b.content
        && a.metadata.file_path == b.metadata.file_path
        && a.metadata.mime_type == b.metadata.mime_type
        && a.metadata.created_at == b.metadata.created_at
        && a.metadata.tags == b.metadata.tags
}

fn words(n: usize, prefix: &str) -> String {
    let w: Vec<String> = (0..n).map(|i| format!("{}{}", prefix, i)).collect();
    w.join(" ")
}

#[test]
fn search_finds_the_stored_document() {
    let mut vault = VaultDatabase::new();
    vault
        .add_document(doc("a", "Silo is a privacy-first local agent."))
        .unwrap();
    let found = vault.search("privacy agent", 5).unwrap();
    assert_eq!(found.len(), 1);
    assert_eq!(found[0].document.id, "a");
    assert_eq!(
        found[0].document.content,
        "Silo is a privacy-first local agent."
    );
    let s = found[0].similarity;
    let cosine = (s.numerator() as f64 / s.denominator() as f64).sqrt();
    assert!(cosine > 0.1);
    assert_eq!((s.numerator(), s.denominator()), (1, 12));
}

#[test]
fn a_document_put_in_is_found_as_it_was() {
    let mut vault = VaultDatabase::new();
    let d = Document {
        id: "doc-1".to_string(),
        content: "some text\n\nin two paragraphs".to_string(),
        metadata: DocumentMetadata {
            file_path: Some(PathBuf::from("/tmp/some.txt")),
            mime_type: Some("text/plain".to_string()),
            created_at: Timestamp { secs: 1_700_000_000, nanos: 123_456_789 },
            tags: vec!["x".to_string(), "y".to_string()],
        },
    };
    assert_eq!(vault.add_document(d.clone()), Ok(()));
    let got = vault.get_document("doc-1").unwrap();
    assert!(same(&got, &d));
    assert!(vault.get_document("doc-2").is_none());
    assert_eq!(vault.delete_document("doc-1"), Ok(()));
    assert!(vault.get_document("doc-1").is_none());
    assert_eq!(vault.document_count(), 0);
}

#[test]
fn deleting_twice_is_no_error() {
    let mut vault = VaultDatabase::new();
    vault.add_document(doc("a", "alpha")).unwrap();
    vault.add_document(doc("b", "beta")).unwrap();
    assert_eq!(vault.delete_document("a"), Ok(()));
    assert_eq!(vault.delete_document("a"), Ok(()));
    assert_eq!(vault.delete_document("never there"), Ok(()));
    assert_eq!(vault.document_count(), 1);
    assert!(vault.get_document("b").is_some());
}

#[test]
fn deleting_removes_the_document_from_searches() {
    let mut vault = VaultDatabase::new();
    vault.add_document(doc("a", "alpha beta")).unwrap();
    assert_eq!(vault.search("alpha", 5).unwrap().len(), 1);
    vault.delete_document("a").unwrap();
    assert!(vault.search("alpha", 5).unwrap().is_empty());
}

#[test]
fn a_document_with_a_stored_id_takes_its_place() {
    let mut vault = VaultDatabase::new();
    vault.add_document(doc("a", "first")).unwrap();
    vault.add_document(doc("b", "second")).unwrap();
    vault.add_document(doc("a", "third text here")).unwrap();
    assert_eq!(vault.document_count(), 2);
    assert_eq!(vault.get_document("a").unwrap().content, "third text here");
    let all = vault.list_all_documents();
    let ids: Vec<&str> = all.iter().map(|d| d.id.as_str()).collect();
    assert_eq!(ids, vec!["a", "b"]);
    let found = vault.search("second third", 5).unwrap();
    assert_eq!(found.len(), 2);
    assert_eq!(found[0].document.id, "b");
    assert_eq!(found[1].document.id, "a");
    assert_eq!(found[1].document.content, "third text here");
    assert!(vault.search("first", 5).unwrap().is_empty());
}

#[test]
fn the_empty_id_is_an_id_like_any_other() {
    let mut vault = VaultDatabase::new();
    vault.add_document(doc("", "kept under no name")).unwrap();
    assert_eq!(vault.document_count(), 1);
    assert_eq!(vault.get_document("").unwrap().content, "kept under no name");
    vault.delete_document("").unwrap();
    assert_eq!(vault.document_count(), 0);
}

#[test]
fn documents_are_listed_in_the_order_they_came() {
    let mut vault = VaultDatabase::new();
    assert!(vault.list_all_documents().is_empty());
    for id in ["c", "a", "b"] {
        vault.add_document(doc(id, id)).unwrap();
    }
    let all = vault.list_all_documents();
    let ids: Vec<&str> = all.iter().map(|d| d.id.as_str()).collect();
    assert_eq!(ids, vec!["c", "a", "b"]);
    assert_eq!(vault.document_count(), 3);
}

#[test]
fn search_in_an_empty_store_finds_nothing() {
    let vault = VaultDatabase::new();
    assert!(vault.search("anything", 5).unwrap().is_empty());
}

#[test]
fn search_for_nothing_finds_nothing() {
    let mut vault = VaultDatabase::new();
    vault.add_document(doc("a", "alpha beta")).unwrap();
    assert!(vault.search("", 5).unwrap().is_empty());
    assert!(vault.search("  !!! ", 5).unwrap().is_empty());
}

#[test]
fn search_with_limit_zero_finds_nothing() {
    let mut vault = VaultDatabase::new();
    vault.add_document(doc("a", "alpha beta")).unwrap();
    assert!(vault.search("alpha", 0).unwrap().is_empty());
}

#[test]
fn a_document_without_text_is_never_found() {
    let mut vault = VaultDatabase::new();
    vault.add_document(doc("empty", "")).unwrap();
    vault.add_document(doc("blank", " \n\n ")).unwrap();
    assert_eq!(vault.document_count(), 2);
    assert!(vault.search("alpha", 5).unwrap().is_empty());
}

#[test]
fn search_leaves_out_what_is_not_above_the_threshold() {
    let mut vault = VaultDatabase::new();
    vault.add_document(doc("at", &words(100, "w"))).unwrap();
    vault.add_document(doc("above", &words(99, "w"))).unwrap();
    let found = vault.search("w0", 5).unwrap();
    assert_eq!(found.len(), 1);
    assert_eq!(found[0].document.id, "above");
    assert!(vault.search("w99", 5).unwrap().is_empty());
}

#[test]
fn search_results_are_sorted_and_a_lower_limit_gives_a_prefix() {
    let mut vault = VaultDatabase::new();
    vault.add_document(doc("five", "a b c d e")).unwrap();
    vault.add_document(doc("two", "a b")).unwrap();
    vault.add_document(doc("three", "a b c")).unwrap();
    vault.add_document(doc("one", "a")).unwrap();
    vault.add_document(doc("two again", "x y")).unwrap();
    let all = vault.search("a x", 10).unwrap();
    let ids: Vec<&str> = all.iter().map(|r| r.document.id.as_str()).collect();
    assert_eq!(ids, vec!["one", "two", "two again", "three", "five"]);
    for pair in all.windows(2) {
        assert!(!pair[0].similarity.less_than(&pair[1].similarity));
        let a = pair[0].similarity.numerator() as f64 / pair[0].similarity.denominator() as f64;
        let b = pair[1].similarity.numerator() as f64 / pair[1].similarity.denominator() as f64;
        assert!(a >= b);
    }
    for n in 0..7 {
        let few = vault.search("a x", n).unwrap();
        assert_eq!(few.len(), n.min(5));
        for (i, r) in few.iter().enumerate() {
            assert_eq!(r.document.id, all[i].document.id);
            assert_eq!(r.similarity.numerator(), all[i].similarity.numerator());
            assert_eq!(r.similarity.denominator(), all[i].similarity.denominator());
        }
    }
}

#[test]
fn a_document_matches_as_well_as_its_best_chunk() {
    let mut vault = VaultDatabase::new();
    let first = words(300, "a");
    let second = format!("{} zz", vec!["zz"; 299].join(" "));
    let content = format!("{}\n\n{}", first, second);
    vault.add_document(doc("two chunks", &content)).unwrap();
    let found = vault.search("zz", 5).unwrap();
    assert_eq!(found.len(), 1);
    let s = found[0].similarity;
    assert_eq!(s.numerator(), s.denominator());
    let weak = vault.search("a7 zz", 5).unwrap();
    assert_eq!(weak.len(), 1);
    let s = weak[0].similarity;
    assert_eq!((s.numerator(), s.denominator()), (90_000, 180_000));
    let mut other = VaultDatabase::new();
    other.add_document(doc("first only", &first)).unwrap();
    assert!(other.search("zz", 5).unwrap().is_empty());
    assert!(other.search("a7", 5).unwrap().is_empty());
    assert_eq!(other.search("a7 a8 a9 a10", 5).unwrap().len(), 1);
}

#[test]
fn the_store_knows_no_error_for_texts_of_usual_length() {
    let mut vault = VaultDatabase::new();
    let long = words(20_000, "term");
    assert_eq!(vault.add_document(doc("long", &long)), Ok(()));
    assert!(vault.search(&long, 3).is_ok());
    assert_eq!(StoreError::TextTooLong, StoreError::TextTooLong);
}

#[test]
fn results_are_copies_that_the_store_does_not_follow() {
    let mut vault = VaultDatabase::new();
    vault.add_document(doc("a", "alpha beta")).unwrap();
    let mut found = vault.search("alpha", 5).unwrap();
    found[0].document.content.push_str(" changed");
    assert_eq!(vault.get_document("a").unwrap().content, "alpha beta");
}

#[test]
fn a_new_document_gets_an_id_of_its_own() {
    let a = Document::new(
        "text".to_string(),
        Some(PathBuf::from("/tmp/a.txt")),
        Some("text/plain".to_string()),
    );
    let b = Document::new("text".to_string(), None, None);
    assert_eq!(a.content, "text");
    assert_eq!(a.metadata.file_path, Some(PathBuf::from("/tmp/a.txt")));
    assert_eq!(a.metadata.mime_type, Some("text/plain".to_string()));
    assert!(a.metadata.tags.is_empty());
    assert_eq!(b.metadata.file_path, None);
    assert_eq!(b.metadata.mime_type, None);
    assert!(!a.id.is_empty());
    assert_ne!(a.id, b.id);
    assert!(a.metadata.created_at.secs > 1_600_000_000);
    let mut vault = VaultDatabase::new();
    vault.add_document(a.clone()).unwrap();
    vault.add_document(b).unwrap();
    assert_eq!(vault.document_count(), 2);
    assert!(same(&vault.get_document(&a.id).unwrap(), &a));
}

#[test]
fn the_chunks_of_a_document_are_named_after_it_and_go_with_it() {
    let mut vault = VaultDatabase::new();
    let first = words(300, "a");
    let second = words(300, "b");
    let content = format!("{}\n\n{}\n\nB0 b0", first, second);
    vault.add_document(doc("d", &content)).unwrap();
    let chunks = vault.document_chunks("d");
    assert_eq!(chunks.len(), 2);
    assert_eq!(chunks[0].id, "d_chunk_0");
    assert_eq!(chunks[1].id, "d_chunk_1");
    assert_eq!(chunks[0].document_id, "d");
    assert_eq!(chunks[0].chunk_index, 0);
    assert_eq!(chunks[1].chunk_index, 1);
    assert_eq!(chunks[0].content, first);
    assert_eq!(chunks[1].content, format!("{}\n\nB0 b0", second));
    assert_eq!(chunks[0].features.len(), 100);
    assert_eq!(chunks[1].features.term(0), "b0");
    assert_eq!(chunks[1].features.count(0), 3);
    assert!(vault.document_chunks("other").is_empty());
    vault.add_document(doc("d", "short")).unwrap();
    let chunks = vault.document_chunks("d");
    assert_eq!(chunks.len(), 1);
    assert_eq!(chunks[0].content, "short");
    vault.delete_document("d").unwrap();
    assert!(vault.document_chunks("d").is_empty());
}

#[test]
fn a_document_of_many_paragraphs_has_numbered_chunks() {
    let mut vault = VaultDatabase::new();
    let paragraphs: Vec<String> = (0..12).map(|i| words(499, &format!("w{}x", i))).collect();
    vault.add_document(doc("big", &paragraphs.join("\n\n"))).unwrap();
    let chunks = vault.document_chunks("big");
    assert_eq!(chunks.len(), 12);
    assert_eq!(chunks[9].id, "big_chunk_9");
    assert_eq!(chunks[10].id, "big_chunk_10");
    assert_eq!(chunks[11].id, "big_chunk_11");
    assert_eq!(chunks[11].chunk_index, 11);
}

#[test]
fn a_query_without_a_common_term_finds_nothing() {
    let mut vault = VaultDatabase::new();
    vault.add_document(doc("1", "alpha")).unwrap();
    assert!(vault.search("zebra", 5).unwrap().is_empty());
    assert_eq!(vault.search("Alpha!", 5).unwrap().len(), 1);
}

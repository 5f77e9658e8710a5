use polirag::config::{CachedCredentials, Config};
use polirag::ops::{
    after_sign_in, base_id, begin_sync, chunk_documents, chunk_id_of, env_credentials, full_sync,
    index_batch, is_hidden, pdf_documents, plan_pdf, plan_subject, resolve_credentials,
    subject_document, subject_id_from_summary, Applied, CredentialSource, PendingDocument, SyncBatch,
    SyncError, SyncStart,
};
use polirag::rag::document::{Document, Metadata};
use polirag::rag::hnsw_store::{HnswVectorStore, StoredData};
use polirag::rag::store::{Candidate, LinearVectorStore};
use polirag::rag::system::{RagError, RagSystem};
use polirag::scrapper::auth::AuthCredentials;
use polirag::scrapper::processing::{normalize_text, read_child_output};
use polirag::scrapper::Subject;

fn linear() -> RagSystem<LinearVectorStore> {
    RagSystem::new(LinearVectorStore::new("/tmp/index", None), "test-model")
}

fn embeddings_for(docs: &Vec<PendingDocument>) -> Vec<Option<Vec<u32>>> {
    docs.iter().enumerate().map(|(i, _)| Some(vec![i as u32, 1])).collect()
}

fn rescan(rag: &mut RagSystem<LinearVectorStore>, subject: &str, rel_path: &str, text: &str) -> usize {
    let plan = plan_pdf(rag, subject, subject, rel_path, text);
    let embeddings = embeddings_for(&plan.documents);
    let added = plan.documents.len();
    match index_batch(rag, &plan.remove_legacy, &plan.documents, &embeddings) {
        Ok(Applied::Inserted) => added,
        Ok(Applied::Skipped) => 0,
        Err(e) => panic!("{:?}", e),
    }
}

#[test]
fn ids_of_files_and_chunks() {
    assert_eq!(base_id("CS101", "hello.pdf"), "CS101/hello.pdf");
    assert_eq!(chunk_id_of("CS101/hello.pdf", 0), "CS101/hello.pdf#0");
    assert_eq!(chunk_id_of("CS101/hello.pdf", 12), "CS101/hello.pdf#12");
    assert_eq!(chunk_id_of("x", 1000), "x#1000");
}

#[test]
fn cold_install_single_small_pdf() {
    let printed = "<<<START_CONTENT>>>alpha beta  gamma\n<<<END_CONTENT>>>";
    let text = read_child_output(0, printed).unwrap().unwrap();
    assert_eq!(text, "alpha beta gamma");
    let mut rag = linear();
    assert_eq!(rescan(&mut rag, "CS101", "hello.pdf", &text), 1);
    assert_eq!(rag.count_documents(), 1);
    let all = rag.get_all();
    assert_eq!(all[0].id, "CS101/hello.pdf#0");
    assert_eq!(all[0].metadata.get("type"), Some(&"pdf".to_string()));
    assert_eq!(all[0].metadata.get("filename"), Some(&"hello.pdf".to_string()));
    assert!(all[0].content.starts_with("### DOC: hello.pdf"));
    assert_eq!(all[0].content, "### DOC: hello.pdf (Part 1/1)\nCourse: CS101\n\nalpha beta gamma");
    assert_eq!(all[0].user_id, "user");
    let hits = rag.search(&vec![Candidate { slot: 0, similarity: 640_000 }], "user", 5);
    assert_eq!(hits.len(), 1);
    assert_eq!(hits[0].0.id, "CS101/hello.pdf#0");
    assert!(hits[0].1 > 300_000);
}

#[test]
fn chunking_boundary() {
    let raw = "lorem ".repeat(417);
    let raw = &raw[..2500];
    let text = normalize_text(raw);
    let mut rag = linear();
    assert_eq!(rescan(&mut rag, "CS101", "big.pdf", &text), 3);
    assert!(rag.contains("CS101/big.pdf#0"));
    assert!(rag.contains("CS101/big.pdf#1"));
    assert!(rag.contains("CS101/big.pdf#2"));
    assert!(!rag.contains("CS101/big.pdf#3"));
    assert_eq!(rag.count_documents(), 3);
    let all = rag.get_all();
    let mut bodies = Vec::new();
    for (i, d) in all.iter().enumerate() {
        assert_eq!(d.id, format!("CS101/big.pdf#{}", i));
        assert!(d.content.chars().count() <= 1100);
        let header = format!("### DOC: big.pdf (Part {}/3)\nCourse: CS101\n\n", i + 1);
        assert!(d.content.starts_with(&header));
        let body = &d.content[header.len()..];
        assert!(body.chars().count() <= 1000);
        bodies.push(body.to_string());
    }
    assert_eq!(bodies.join(" "), text);
}

#[test]
fn incremental_skip() {
    let mut rag = linear();
    assert_eq!(rescan(&mut rag, "CS101", "hello.pdf", "alpha beta gamma"), 1);
    let before = rag.count_documents();
    let plan = plan_pdf(&rag, "CS101", "CS101", "hello.pdf", "alpha beta gamma");
    assert!(plan.documents.is_empty());
    assert!(plan.remove_legacy.is_none());
    assert_eq!(rescan(&mut rag, "CS101", "hello.pdf", "alpha beta gamma"), 0);
    assert_eq!(rag.count_documents(), before);
}

#[test]
fn legacy_upgrade() {
    let mut rag = linear();
    rag.add_document("CS101/hello.pdf", "old form", "user", Metadata::new(), vec![]).unwrap();
    let plan = plan_pdf(&rag, "CS101", "CS101", "hello.pdf", "alpha beta gamma");
    assert_eq!(plan.remove_legacy, Some("CS101/hello.pdf".to_string()));
    assert_eq!(rescan(&mut rag, "CS101", "hello.pdf", "alpha beta gamma"), 1);
    assert!(!rag.contains("CS101/hello.pdf"));
    assert!(rag.contains("CS101/hello.pdf#0"));
    assert_eq!(rag.count_documents(), 1);
}

#[test]
fn pdf_without_text_yields_no_chunks() {
    let rag = linear();
    assert_eq!(read_child_output(0, "<<<START_CONTENT>>> \n <<<END_CONTENT>>>"), Ok(None));
    assert!(pdf_documents("CS101", "CS101", "empty.pdf", "").is_empty());
    assert!(pdf_documents("CS101", "CS101", "empty.pdf", "  \n ").is_empty());
    let plan = plan_pdf(&rag, "CS101", "CS101", "empty.pdf", "");
    assert!(plan.documents.is_empty());
    assert!(plan.remove_legacy.is_none());
}

#[test]
fn a_file_below_resources_records_its_own_name() {
    let mut rag = linear();
    assert_eq!(rescan(&mut rag, "CS101", "resources/hello.pdf", "alpha beta gamma"), 1);
    let all = rag.get_all();
    assert_eq!(all.len(), 1);
    assert_eq!(all[0].id, "CS101/resources/hello.pdf#0");
    assert_eq!(all[0].metadata.get("type"), Some(&"pdf".to_string()));
    assert_eq!(all[0].metadata.get("filename"), Some(&"hello.pdf".to_string()));
    assert!(all[0].content.starts_with("### DOC: hello.pdf"));
    assert_eq!(rescan(&mut rag, "CS101", "resources/hello.pdf", "alpha beta gamma"), 0);
    assert_eq!(rag.count_documents(), 1);
}

#[test]
fn chunk_documents_without_chunks_index_the_whole_text() {
    let docs = chunk_documents("S", "Algebra", "dir/a.pdf", "some text", &Vec::new());
    assert_eq!(docs.len(), 1);
    assert_eq!(docs[0].id, "S/dir/a.pdf#0");
    assert_eq!(docs[0].content, "### DOC: a.pdf\nSubject: Algebra\n\nsome text");
    let docs = chunk_documents("S", "Algebra", "dir/a.pdf", "some text", &vec!["some".to_string(), "text".to_string()]);
    assert_eq!(docs.len(), 2);
    assert_eq!(docs[1].id, "S/dir/a.pdf#1");
    assert_eq!(docs[1].content, "### DOC: a.pdf (Part 2/2)\nCourse: Algebra\n\ntext");
    assert_eq!(docs[1].metadata.get("filename"), Some(&"a.pdf".to_string()));
    assert_eq!(docs[1].metadata.get("type"), Some(&"pdf".to_string()));
}

#[test]
fn the_splitter_cuts_long_texts() {
    let text = "word ".repeat(500);
    let docs = pdf_documents("S", "S", "a.pdf", text.trim());
    assert!(docs.len() >= 3);
    for d in &docs {
        let body = d.content.split("\n\n").nth(1).unwrap();
        assert!(body.chars().count() <= 1000);
        assert!(body.starts_with("word"));
        assert_ne!(body, text.trim());
    }
}

#[test]
fn a_batch_enters_whole_or_not_at_all() {
    let mut rag = linear();
    let docs = chunk_documents("S", "S", "a.pdf", "x y z", &vec!["x".to_string(), "y".to_string(), "z".to_string()]);
    let missing = vec![Some(vec![1]), None, Some(vec![3])];
    assert_eq!(index_batch(&mut rag, &None, &docs, &missing), Ok(Applied::Skipped));
    assert_eq!(rag.count_documents(), 0);
    let short = vec![Some(vec![1]), Some(vec![2])];
    assert_eq!(index_batch(&mut rag, &None, &docs, &short), Ok(Applied::Skipped));
    assert_eq!(rag.count_documents(), 0);
    assert_eq!(index_batch(&mut rag, &None, &Vec::new(), &Vec::new()), Ok(Applied::Skipped));
    let all = vec![Some(vec![1]), Some(vec![2]), Some(vec![3])];
    assert_eq!(index_batch(&mut rag, &None, &docs, &all), Ok(Applied::Inserted));
    assert_eq!(rag.count_documents(), 3);
    let stored = rag.get_all();
    assert_eq!(stored.iter().map(|d| d.id.as_str()).collect::<Vec<_>>(), vec!["S/a.pdf#0", "S/a.pdf#1", "S/a.pdf#2"]);
    assert_eq!(stored[1].embedding, vec![2]);
}

#[test]
fn a_skipped_batch_keeps_the_legacy_document() {
    let mut rag = linear();
    rag.add_document("S/a.pdf", "old", "user", Metadata::new(), vec![]).unwrap();
    let docs = chunk_documents("S", "S", "a.pdf", "x", &vec!["x".to_string()]);
    let legacy = Some("S/a.pdf".to_string());
    assert_eq!(index_batch(&mut rag, &legacy, &docs, &vec![None]), Ok(Applied::Skipped));
    assert!(rag.contains("S/a.pdf"));
}

#[test]
fn full_sync_does_not_depend_on_what_was_there() {
    let batch = |subject: &str| SyncBatch {
        documents: chunk_documents(subject, subject, "a.pdf", "x y", &vec!["x".to_string(), "y".to_string()]),
        embeddings: vec![Some(vec![1]), Some(vec![2])],
    };
    let broken = SyncBatch {
        documents: chunk_documents("Z", "Z", "z.pdf", "x", &vec!["x".to_string()]),
        embeddings: vec![None],
    };
    let batches = vec![batch("A"), broken, batch("B"), batch("A")];
    let mut empty = linear();
    let mut used = linear();
    used.add_document("stale", "old", "user", Metadata::new(), vec![]).unwrap();
    used.add_document("A/a.pdf#0", "older", "user", Metadata::new(), vec![]).unwrap();
    assert_eq!(full_sync(&mut empty, &batches), Ok(4));
    assert_eq!(full_sync(&mut used, &batches), Ok(4));
    assert_eq!(empty.count_documents(), used.count_documents());
    assert!(!used.contains("stale"));
    assert!(!used.contains("Z/z.pdf#0"));
    let mut approx = RagSystem::new(HnswVectorStore::new("/tmp/index", None), "test-model");
    approx.add_document("stale", "old", "user", Metadata::new(), vec![]).unwrap();
    assert_eq!(full_sync(&mut approx, &batches), Ok(4));
    assert_eq!(full_sync(&mut approx, &Vec::new()), Ok(0));
}

#[test]
fn subject_summary_document() {
    let subject = Subject {
        id: "GRA_11673_2025".to_string(),
        name: "Algebra".to_string(),
        url: "https://poliformat.upv.es/portal/site/GRA_11673_2025".to_string(),
    };
    let doc = subject_document(&subject, "scraped", &Some(vec!["a.zip".to_string(), "b.pdf".to_string()]));
    assert_eq!(doc.id, "GRA_11673_2025");
    assert_eq!(
        doc.content,
        "Subject: Algebra\nURL: https://poliformat.upv.es/portal/site/GRA_11673_2025\n\nscraped\n\n[Local Files]:\n- a.zip\n- b.pdf\n"
    );
    assert_eq!(doc.metadata.get("type"), Some(&"subject".to_string()));
    assert_eq!(doc.metadata.get("name"), Some(&"Algebra".to_string()));
    let bare = subject_document(&subject, "scraped", &None);
    assert_eq!(bare.content, "Subject: Algebra\nURL: https://poliformat.upv.es/portal/site/GRA_11673_2025\n\nscraped");
    let no_files = subject_document(&subject, "scraped", &Some(Vec::new()));
    assert!(no_files.content.ends_with("scraped\n\n[Local Files]:\n"));
    let mut rag = linear();
    let planned = plan_subject(&rag, &subject, "scraped", &None).unwrap();
    assert_eq!(planned.id, "GRA_11673_2025");
    rag.add_document(&planned.id, &planned.content, "user", planned.metadata, vec![]).unwrap();
    assert!(plan_subject(&rag, &subject, "scraped", &None).is_none());
}

#[test]
fn subject_id_comes_from_the_summary() {
    let summary = "Subject: Algebra\nURL: https://poliformat.upv.es/portal/site/GRA_11673_2025 \n\ntext";
    assert_eq!(subject_id_from_summary(Some(summary), "Algebra"), "GRA_11673_2025");
    assert_eq!(subject_id_from_summary(Some("no address here\nat all"), "Algebra"), "Algebra");
    assert_eq!(subject_id_from_summary(Some("URL: nothing"), "Algebra"), "Algebra");
    assert_eq!(subject_id_from_summary(Some("x\nURL: a/b\nURL: c/d"), "Algebra"), "b");
    assert_eq!(subject_id_from_summary(Some("  URL: a/b"), "Algebra"), "Algebra");
    assert_eq!(subject_id_from_summary(Some(""), "Algebra"), "Algebra");
    assert_eq!(subject_id_from_summary(None, "Algebra"), "Algebra");
    assert!(is_hidden(".git"));
    assert!(!is_hidden("Algebra"));
    assert!(!is_hidden(""));
}

fn creds(u: &str, p: &str) -> AuthCredentials {
    AuthCredentials { username: u.to_string(), pin: p.to_string() }
}

#[test]
fn credentials_come_from_the_cache_first() {
    let cached = || Some(CachedCredentials { username: "cu".to_string(), pin: "cp".to_string() });
    let found = resolve_credentials(cached(), Some(creds("eu", "ep"))).unwrap();
    assert_eq!((found.0.username.as_str(), found.0.pin.as_str(), found.1), ("cu", "cp", CredentialSource::Cached));
    let found = resolve_credentials(None, Some(creds("eu", "ep"))).unwrap();
    assert_eq!((found.0.username.as_str(), found.1), ("eu", CredentialSource::Environment));
    assert!(resolve_credentials(None, None).is_none());
    assert!(matches!(begin_sync(true, None, None), SyncStart::Proceed));
    assert!(matches!(begin_sync(false, None, None), SyncStart::Abort(SyncError::NoCredentials)));
    assert!(matches!(begin_sync(false, cached(), None), SyncStart::SignIn(_, CredentialSource::Cached)));
}

#[test]
fn environment_credentials_need_both_parts() {
    let s = |x: &str| Some(x.to_string());
    let c = env_credentials(s("user"), s("dni"), None, s("pw")).unwrap();
    assert_eq!((c.username.as_str(), c.pin.as_str()), ("user", "pw"));
    let c = env_credentials(None, s("dni"), s("pin"), s("pw")).unwrap();
    assert_eq!((c.username.as_str(), c.pin.as_str()), ("dni", "pin"));
    assert!(env_credentials(None, None, s("pin"), None).is_none());
    assert!(env_credentials(s("user"), None, None, None).is_none());
}

#[test]
fn failed_sign_in_forgets_the_cache() {
    let mut config = Config::default();
    config.save_credentials("old", "0000");
    config.save_model("m");
    assert_eq!(after_sign_in(&mut config, &creds("alice", "1234"), true), Ok(()));
    let c = config.get_credentials().unwrap();
    assert_eq!((c.username.as_str(), c.pin.as_str()), ("alice", "1234"));
    assert_eq!(after_sign_in(&mut config, &creds("alice", "bad"), false), Err(SyncError::LoginFailed));
    assert!(config.cached_credentials.is_none());
    assert_eq!(config.get_last_model(), Some("m".to_string()));
}

fn exhausted() -> RagSystem<HnswVectorStore> {
    let held = Document {
        id: "S/a.pdf#0".to_string(),
        content: "old".to_string(),
        embedding: vec![],
        metadata: Metadata::new(),
        user_id: "user".to_string(),
    };
    let data = StoredData { documents: vec![(0, held)], next_id: usize::MAX };
    RagSystem::new(HnswVectorStore::new("/tmp/index", Some(data)), "test-model")
}

#[test]
fn a_batch_fails_only_for_want_of_room() {
    let docs = chunk_documents("S", "S", "a.pdf", "x y", &vec!["x".to_string(), "y".to_string()]);
    let embeddings = vec![Some(vec![1]), Some(vec![2])];
    let mut rag = exhausted();
    // The first chunk replaces a document that is there; the second needs a new number.
    assert_eq!(index_batch(&mut rag, &None, &docs, &embeddings), Err(RagError::IndexFull));
    assert_eq!(rag.count_documents(), 1);
    assert_eq!(rag.get_all()[0].content, "old");
    // A batch that fails removes nothing either.
    let gone = Some("S/a.pdf#0".to_string());
    assert_eq!(index_batch(&mut rag, &gone, &docs[1..].to_vec(), &embeddings[1..].to_vec()), Err(RagError::IndexFull));
    assert_eq!(rag.count_documents(), 1);
    assert_eq!(rag.get_all()[0].id, "S/a.pdf#0");
    assert_eq!(rag.get_all()[0].content, "old");
    assert_eq!(rag.slot_of("S/a.pdf#0"), Some(0));
    assert_eq!(rag.room_left(), 0);
    let mut rag = exhausted();
    assert_eq!(index_batch(&mut rag, &None, &docs[..1].to_vec(), &embeddings[..1].to_vec()), Ok(Applied::Inserted));
    assert_eq!(rag.get_all()[0].content, "### DOC: a.pdf (Part 1/2)\nCourse: S\n\nx");
}

#[test]
fn room_left_counts_the_numbers_not_given_out() {
    assert_eq!(linear().room_left(), usize::MAX);
    let mut rag = RagSystem::new(HnswVectorStore::new("/tmp/index", None), "test-model");
    assert_eq!(rag.room_left(), usize::MAX);
    let docs = chunk_documents("S", "S", "a.pdf", "x y", &vec!["x".to_string(), "y".to_string()]);
    let embeddings = vec![Some(vec![1]), Some(vec![2])];
    assert_eq!(index_batch(&mut rag, &None, &docs, &embeddings), Ok(Applied::Inserted));
    assert_eq!(rag.room_left(), usize::MAX - 2);
    assert_eq!(index_batch(&mut rag, &None, &docs, &embeddings), Ok(Applied::Inserted));
    assert_eq!(rag.room_left(), usize::MAX - 2);
    assert_eq!(rag.count_documents(), 2);
}

#[test]
fn full_sync_counts_each_id_once() {
    let first = SyncBatch {
        documents: chunk_documents("S", "S", "a.pdf", "x y", &vec!["x".to_string(), "y".to_string()]),
        embeddings: vec![Some(vec![1]), Some(vec![2])],
    };
    let missing = SyncBatch {
        documents: chunk_documents("S", "S", "b.pdf", "x", &vec!["x".to_string()]),
        embeddings: vec![None],
    };
    let again = SyncBatch {
        documents: chunk_documents("S", "S", "a.pdf", "z", &vec!["z".to_string()]),
        embeddings: vec![Some(vec![3])],
    };
    let mut rag = exhausted();
    assert_eq!(full_sync(&mut rag, &vec![first, missing, again]), Ok(2));
    let all = rag.get_all();
    assert_eq!(all.len(), 2);
    assert!(rag.contains("S/a.pdf#0"));
    assert!(rag.contains("S/a.pdf#1"));
    assert!(!rag.contains("S/b.pdf#0"));
    let zero = all.iter().find(|d| d.id == "S/a.pdf#0").unwrap();
    assert_eq!(zero.content, "### DOC: a.pdf (Part 1/1)\nCourse: S\n\nz");
    assert_eq!(zero.embedding, vec![3]);
}

#[test]
fn full_sync_succeeds_on_an_exhausted_index() {
    let batch = SyncBatch {
        documents: chunk_documents("S", "S", "a.pdf", "x y", &vec!["x".to_string(), "y".to_string()]),
        embeddings: vec![Some(vec![1]), Some(vec![2])],
    };
    let mut rag = exhausted();
    assert_eq!(full_sync(&mut rag, &vec![batch]), Ok(2));
    assert_eq!(rag.slot_of("S/a.pdf#1"), Some(1));
}

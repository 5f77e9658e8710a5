use polirag::rag::document::{Document, Metadata, Score};
use polirag::rag::embeddings::{chunk_text, embedding_inputs, EmbedError};
use polirag::rag::hnsw_store::{
    candidates_of, ef_search, startup_plan, HnswVectorStore, Neighbour, Startup, StoredData,
};
use polirag::rag::snippet::{cut_excerpt, extract_relevant_snippet, label_of};
use polirag::rag::stats::RagStats;
use polirag::rag::store::{rank_top, Candidate, LinearVectorStore, VectorStore};
use polirag::rag::system::{RagError, RagSystem};

fn meta(pairs: &[(&str, &str)]) -> Metadata {
    let mut m = Metadata::new();
    for (k, v) in pairs {
        m.insert(k, v);
    }
    m
}

fn doc(id: &str, content: &str, user: &str, pairs: &[(&str, &str)]) -> Document {
    Document {
        id: id.to_string(),
        content: content.to_string(),
        embedding: vec![1, 2, 3],
        metadata: meta(pairs),
        user_id: user.to_string(),
    }
}

fn cand(slot: usize, similarity: Score) -> Candidate {
    Candidate { slot, similarity }
}

fn ids(hits: &Vec<(Document, Score)>) -> Vec<String> {
    hits.iter().map(|h| h.0.id.clone()).collect()
}

fn linear() -> RagSystem<LinearVectorStore> {
    RagSystem::new(LinearVectorStore::new("/tmp/index", None), "test-model")
}

#[test]
fn metadata_keeps_the_last_value_of_a_key() {
    let mut m = Metadata::new();
    assert!(m.get("type").is_none());
    m.insert("type", "pdf");
    m.insert("filename", "a.pdf");
    m.insert("type", "subject");
    assert_eq!(m.get("type"), Some(&"subject".to_string()));
    assert_eq!(m.get("filename"), Some(&"a.pdf".to_string()));
    assert!(m.get("name").is_none());
    let copy = m.duplicate();
    assert_eq!(copy.get("type"), Some(&"subject".to_string()));
}

#[test]
fn ranking_is_descending_and_stable() {
    let pool = vec![cand(0, 5), cand(1, 9), cand(2, 5), cand(3, 9), cand(4, -1)];
    let all = rank_top(pool.clone(), 0);
    assert_eq!(all, vec![cand(1, 9), cand(3, 9), cand(0, 5), cand(2, 5), cand(4, -1)]);
    assert_eq!(rank_top(pool.clone(), 2), vec![cand(1, 9), cand(3, 9)]);
    assert_eq!(rank_top(pool.clone(), 3), vec![cand(1, 9), cand(3, 9), cand(0, 5)]);
    assert_eq!(rank_top(pool, 50).len(), 5);
    assert!(rank_top(Vec::new(), 3).is_empty());
}

#[test]
fn linear_store_replaces_a_document_with_the_same_id() {
    let mut store = LinearVectorStore::new("/tmp/index", None);
    assert_eq!(store.count(), 0);
    store.add_document(doc("a", "first", "user", &[]));
    store.add_document(doc("b", "other", "user", &[]));
    let slot = store.add_document(doc("a", "second", "user", &[]));
    assert_eq!(store.count(), 2);
    assert_eq!(slot, 1);
    let all = store.get_all();
    assert_eq!(all[0].id, "b");
    assert_eq!(all[1].id, "a");
    assert_eq!(all[1].content, "second");
    assert!(store.contains("a"));
    assert!(!store.contains("c"));
    assert_eq!(all.iter().filter(|d| d.id == "a").count(), 1);
    assert_eq!(store.store_type(), "Linear Scan (Exact)");
    assert_eq!(store.storage_path(), "/tmp/index");
}

#[test]
fn linear_store_search_filters_ranks_and_caps() {
    let mut store = LinearVectorStore::new("/tmp/index", None);
    store.add_document(doc("a", "A", "user", &[]));
    store.add_document(doc("b", "B", "other", &[]));
    store.add_document(doc("c", "C", "user", &[]));
    store.add_document(doc("d", "D", "user", &[]));
    let cands = vec![cand(0, 400_000), cand(1, 999_000), cand(2, 900_000), cand(3, 100_000), cand(9, 999_999)];
    let hits = store.search(&cands, "user", 0, 0);
    assert_eq!(ids(&hits), vec!["c", "a", "d"]);
    assert_eq!(hits[0].1, 900_000);
    let hits = store.search(&cands, "user", 2, 0);
    assert_eq!(ids(&hits), vec!["c", "a"]);
    let hits = store.search(&cands, "user", 5, 300_000);
    assert_eq!(ids(&hits), vec!["c", "a"]);
    let hits = store.search(&cands, "user", 5, 400_000);
    assert_eq!(ids(&hits), vec!["c", "a"]);
    let hits = store.search(&cands, "user", 5, 400_001);
    assert_eq!(ids(&hits), vec!["c"]);
    let hits = store.search(&cands, "other", 5, 0);
    assert_eq!(ids(&hits), vec!["b"]);
    assert!(store.search(&cands, "nobody", 5, 0).is_empty());
    assert!(store.search(&Vec::new(), "user", 5, 0).is_empty());
}

#[test]
fn every_search_result_belongs_to_the_asking_user() {
    let mut rag = linear();
    for (i, user) in ["u1", "u2", "u1", "u3", "u1"].iter().enumerate() {
        rag.add_document(&format!("d{}", i), "text", user, Metadata::new(), vec![]).unwrap();
    }
    let cands: Vec<Candidate> = (0..5).map(|i| cand(i, 100 * i as i64)).collect();
    for user in ["u1", "u2", "u3", "u4"] {
        for hit in rag.search(&cands, user, 10) {
            assert_eq!(hit.0.user_id, user);
        }
    }
    assert_eq!(ids(&rag.search(&cands, "u1", 10)), vec!["d4", "d2", "d0"]);
}

#[test]
fn facade_search_with_top_k_zero_is_empty_in_both_backends() {
    let mut a = linear();
    a.add_document("x", "text", "user", Metadata::new(), vec![]).unwrap();
    assert!(a.search(&vec![cand(0, 900_000)], "user", 0).is_empty());
    assert!(a.search_snippets("text", &vec![cand(0, 900_000)], "user", 0).is_empty());
    let mut b = RagSystem::new(HnswVectorStore::new("/tmp/index", None), "test-model");
    let slot = b.add_document("x", "text", "user", Metadata::new(), vec![]).unwrap();
    assert!(b.search(&vec![cand(slot, 900_000)], "user", 0).is_empty());
    assert_eq!(b.search(&vec![cand(slot, 900_000)], "user", 1).len(), 1);
}

#[test]
fn store_search_with_top_k_zero_has_no_cap() {
    let mut store = LinearVectorStore::new("/tmp/index", None);
    store.add_document(doc("a", "A", "user", &[]));
    store.add_document(doc("b", "B", "user", &[]));
    assert_eq!(store.search(&vec![cand(0, 1), cand(1, 2)], "user", 0, 0).len(), 2);
}

#[test]
fn facade_leaves_negative_similarities_out() {
    let mut rag = linear();
    rag.add_document("x", "text", "user", Metadata::new(), vec![]).unwrap();
    assert!(rag.search(&vec![cand(0, -1)], "user", 3).is_empty());
    assert_eq!(rag.search(&vec![cand(0, 0)], "user", 3).len(), 1);
}

#[test]
fn add_then_search_on_an_empty_index_returns_the_document() {
    let mut rag = linear();
    let slot = rag.add_document("only", "the content", "user", Metadata::new(), vec![7, 8]).unwrap();
    let hits = rag.search(&vec![cand(slot, 1_000_000)], "user", 1);
    assert_eq!(hits.len(), 1);
    assert_eq!(hits[0].0.id, "only");
    assert_eq!(hits[0].0.content, "the content");
    assert_eq!(hits[0].0.embedding, vec![7, 8]);
    let mut approx = RagSystem::new(HnswVectorStore::new("/tmp/index", None), "test-model");
    let slot = approx.add_document("only", "the content", "user", Metadata::new(), vec![]).unwrap();
    let hits = approx.search(&vec![cand(slot, 1_000_000)], "user", 1);
    assert_eq!(ids(&hits), vec!["only"]);
}

#[test]
fn add_document_twice_leaves_one_document() {
    let mut rag = linear();
    rag.add_document("id", "one", "user", Metadata::new(), vec![1]).unwrap();
    rag.add_document("id", "two", "user", Metadata::new(), vec![2]).unwrap();
    assert_eq!(rag.count_documents(), 1);
    let all = rag.get_all();
    assert_eq!(all.len(), 1);
    assert_eq!(all[0].content, "two");
    let mut approx = RagSystem::new(HnswVectorStore::new("/tmp/index", None), "test-model");
    let first = approx.add_document("id", "one", "user", Metadata::new(), vec![1]).unwrap();
    let second = approx.add_document("id", "two", "user", Metadata::new(), vec![2]).unwrap();
    assert_eq!(first, second);
    assert_eq!(approx.count_documents(), 1);
    assert_eq!(approx.get_all()[0].content, "two");
}

#[test]
fn remove_and_clear() {
    let mut rag = linear();
    rag.add_document("a", "A", "user", Metadata::new(), vec![]).unwrap();
    rag.add_document("b", "B", "user", Metadata::new(), vec![]).unwrap();
    rag.remove_document("a");
    assert!(!rag.contains("a"));
    assert!(rag.contains("b"));
    rag.remove_document("zzz");
    assert_eq!(rag.count_documents(), 1);
    rag.clear();
    assert_eq!(rag.count_documents(), 0);
    assert!(rag.get_all().is_empty());
}

#[test]
fn reloading_what_get_all_gave_restores_the_store() {
    let mut store = LinearVectorStore::new("/tmp/index", None);
    store.add_document(doc("a", "A", "user", &[("type", "pdf")]));
    store.add_document(doc("b", "B", "user", &[]));
    store.add_document(doc("a", "A2", "user", &[]));
    let saved = store.get_all();
    let loaded = LinearVectorStore::new("/tmp/index", Some(saved.clone()));
    let again = loaded.get_all();
    assert_eq!(again.len(), saved.len());
    for (x, y) in saved.iter().zip(again.iter()) {
        assert_eq!(x.id, y.id);
        assert_eq!(x.content, y.content);
        assert_eq!(x.embedding, y.embedding);
        assert_eq!(x.user_id, y.user_id);
        assert_eq!(x.metadata.entries, y.metadata.entries);
    }
    let missing = LinearVectorStore::new("/tmp/index", None);
    assert_eq!(missing.count(), 0);
}

#[test]
fn linear_store_drops_repeated_ids_on_load() {
    let stored = vec![doc("a", "old", "user", &[]), doc("b", "B", "user", &[]), doc("a", "new", "user", &[])];
    let store = LinearVectorStore::new("/tmp/index", Some(stored));
    let all = store.get_all();
    assert_eq!(all.iter().map(|d| d.id.as_str()).collect::<Vec<_>>(), vec!["b", "a"]);
    assert_eq!(all[1].content, "new");
}

#[test]
fn documents_by_metadata() {
    let mut store = LinearVectorStore::new("/tmp/index", None);
    store.add_document(doc("a", "A", "user", &[("type", "pdf")]));
    store.add_document(doc("b", "B", "user", &[("type", "subject")]));
    store.add_document(doc("c", "C", "user", &[("type", "pdf")]));
    store.add_document(doc("d", "D", "user", &[]));
    let pdfs = store.get_documents_by_metadata("type", "pdf");
    assert_eq!(pdfs.iter().map(|d| d.id.as_str()).collect::<Vec<_>>(), vec!["a", "c"]);
    assert!(store.get_documents_by_metadata("type", "none").is_empty());
    assert!(store.get_documents_by_metadata("missing", "pdf").is_empty());
}

#[test]
fn stats_count_types_and_bytes() {
    let mut store = LinearVectorStore::new("/tmp/index", None);
    store.add_document(doc("a", "héllo", "user", &[("type", "pdf")]));
    store.add_document(doc("b", "xy", "user", &[("type", "subject")]));
    store.add_document(doc("c", "", "user", &[("type", "pdf")]));
    let mut last = doc("d", "z", "user", &[]);
    last.embedding = vec![0; 5];
    store.add_document(last);
    let stats = store.get_stats(4096);
    assert_eq!(stats.document_count, 4);
    assert_eq!(stats.total_content_bytes, 6 + 2 + 0 + 1);
    assert_eq!(stats.embedding_dimensions, 5);
    assert_eq!(stats.file_size_bytes, 4096);
    assert_eq!(
        stats.docs_by_type,
        vec![("pdf".to_string(), 2), ("subject".to_string(), 1), ("unknown".to_string(), 1)]
    );
    let empty = LinearVectorStore::new("/tmp/index", None).get_stats(0);
    assert_eq!(empty.document_count, 0);
    assert_eq!(empty.embedding_dimensions, 0);
    assert!(empty.docs_by_type.is_empty());
}

#[test]
fn facade_stats_name_store_and_model() {
    let mut rag = linear();
    rag.add_document("a", "abc", "user", Metadata::new(), vec![1, 2]).unwrap();
    let stats = rag.get_stats(2048);
    assert_eq!(stats.document_count, 1);
    assert_eq!(stats.store_type, "Linear Scan (Exact)");
    assert_eq!(stats.embedding_model, "test-model");
    assert_eq!(stats.storage_path, "/tmp/index");
    assert_eq!(stats.embedding_dimensions, 2);
    assert_eq!(stats.format_file_size(), "2.00 KB");
    assert_eq!(stats.format_content_size(), "3 B");
}

fn sized(file_size_bytes: u64, total_content_bytes: usize) -> RagStats {
    RagStats {
        document_count: 0,
        docs_by_type: Vec::new(),
        total_content_bytes,
        embedding_dimensions: 0,
        file_size_bytes,
        storage_path: String::new(),
        store_type: String::new(),
        embedding_model: String::new(),
    }
}

fn file_size(bytes: u64) -> String {
    sized(bytes, 0).format_file_size()
}

fn content_size(bytes: usize) -> String {
    sized(0, bytes).format_content_size()
}

#[test]
fn sizes_are_written_with_two_decimals() {
    assert_eq!(file_size(0), "0 B");
    assert_eq!(file_size(1023), "1023 B");
    assert_eq!(file_size(1024), "1.00 KB");
    assert_eq!(file_size(1536), "1.50 KB");
    assert_eq!(file_size(1_048_575), "1024.00 KB");
    assert_eq!(file_size(1_048_576), "1.00 MB");
    assert_eq!(file_size(5_767_168), "5.50 MB");
    assert_eq!(file_size(1_073_741_824), "1.00 GB");
    assert_eq!(content_size(1_073_741_824), "1024.00 MB");
    assert_eq!(content_size(1023), "1023 B");
    assert_eq!(content_size(1536), "1.50 KB");
    assert_eq!(file_size(1_610_612_736), "1.50 GB");
    for bytes in [1u64, 1000, 1025, 1029, 1034, 1039, 123_456, 999_999, 7_777_777, 123_456_789_012] {
        let expected = if bytes < 1024 {
            format!("{} B", bytes)
        } else if bytes < 1024 * 1024 {
            format!("{:.2} KB", bytes as f64 / 1024.0)
        } else if bytes < 1024 * 1024 * 1024 {
            format!("{:.2} MB", bytes as f64 / (1024.0 * 1024.0))
        } else {
            format!("{:.2} GB", bytes as f64 / (1024.0 * 1024.0 * 1024.0))
        };
        assert_eq!(file_size(bytes), expected, "{}", bytes);
    }
}

#[test]
fn rag_stats_from_store() {
    let stats = sized(3_221_225_472, 2_621_440);
    assert_eq!(stats.format_file_size(), "3.00 GB");
    assert_eq!(stats.format_content_size(), "2.50 MB");
}

#[test]
fn hnsw_store_gives_internal_numbers_in_sequence() {
    let mut store = HnswVectorStore::new("/tmp/index", None);
    assert_eq!(store.add_document(doc("a", "A", "user", &[])), 0);
    assert_eq!(store.add_document(doc("b", "B", "user", &[])), 1);
    assert_eq!(store.add_document(doc("a", "A2", "user", &[])), 0);
    assert_eq!(store.add_document(doc("c", "C", "user", &[])), 2);
    assert_eq!(store.count(), 3);
    let all = store.get_all();
    assert_eq!(all.iter().map(|d| d.id.as_str()).collect::<Vec<_>>(), vec!["a", "b", "c"]);
    assert_eq!(all[0].content, "A2");
    store.remove_document("b");
    assert!(!store.contains("b"));
    assert_eq!(store.add_document(doc("b", "B2", "user", &[])), 3);
    assert_eq!(store.store_type(), "HNSW (Approximate)");
    assert!(store.can_add("zzz"));
    store.clear();
    assert_eq!(store.count(), 0);
    assert_eq!(store.add_document(doc("x", "X", "user", &[])), 0);
}

#[test]
fn hnsw_store_search_reads_neighbours() {
    let mut store = HnswVectorStore::new("/tmp/index", None);
    store.add_document(doc("a", "A", "user", &[]));
    store.add_document(doc("b", "B", "other", &[]));
    store.add_document(doc("c", "C", "user", &[]));
    let neighbours = vec![
        Neighbour { id: 2, distance: 600_000 },
        Neighbour { id: 0, distance: 100_000 },
        Neighbour { id: 1, distance: 0 },
        Neighbour { id: 7, distance: 0 },
        Neighbour { id: 0, distance: 1_500_000 },
    ];
    let cands = candidates_of(&neighbours);
    assert_eq!(cands[0], cand(2, 400_000));
    assert_eq!(cands[1], cand(0, 900_000));
    assert_eq!(cands[4], cand(0, -500_000));
    let hits = store.search(&cands, "user", 0, -1_000_000);
    assert_eq!(ids(&hits), vec!["a", "c", "a"]);
    assert_eq!(hits[2].1, -500_000);
    let hits = store.search(&cands, "user", 0, 0);
    assert_eq!(ids(&hits), vec!["a", "c"]);
    let hits = store.search(&cands, "user", 1, 0);
    assert_eq!(ids(&hits), vec!["a"]);
    assert_eq!(ef_search(5), 10);
    assert_eq!(ef_search(0), 0);
    assert_eq!(ef_search(usize::MAX), usize::MAX);
}

#[test]
fn hnsw_store_round_trips_its_stored_data() {
    let mut store = HnswVectorStore::new("/tmp/index", None);
    store.add_document(doc("a", "A", "user", &[]));
    store.add_document(doc("b", "B", "user", &[]));
    store.remove_document("a");
    store.add_document(doc("c", "C", "user", &[]));
    let data = store.stored_data();
    assert_eq!(data.next_id, 3);
    assert_eq!(data.documents.iter().map(|e| e.0).collect::<Vec<_>>(), vec![1, 2]);
    let mut loaded = HnswVectorStore::new("/tmp/index", Some(data));
    assert_eq!(loaded.count(), 2);
    assert!(loaded.contains("b") && loaded.contains("c"));
    assert_eq!(loaded.add_document(doc("d", "D", "user", &[])), 3);
    let hits = loaded.search(&vec![cand(2, 5)], "user", 1, 0);
    assert_eq!(ids(&hits), vec!["c"]);
}

#[test]
fn hnsw_store_starts_empty_on_unsound_data() {
    let repeated_number = StoredData {
        documents: vec![(0, doc("a", "A", "user", &[])), (0, doc("b", "B", "user", &[]))],
        next_id: 2,
    };
    assert_eq!(HnswVectorStore::new("/tmp/index", Some(repeated_number)).count(), 0);
    let repeated_id = StoredData {
        documents: vec![(0, doc("a", "A", "user", &[])), (1, doc("a", "B", "user", &[]))],
        next_id: 2,
    };
    assert_eq!(HnswVectorStore::new("/tmp/index", Some(repeated_id)).count(), 0);
    let number_too_large = StoredData { documents: vec![(5, doc("a", "A", "user", &[]))], next_id: 5 };
    assert_eq!(HnswVectorStore::new("/tmp/index", Some(number_too_large)).count(), 0);
    let sound = StoredData { documents: vec![(4, doc("a", "A", "user", &[]))], next_id: 5 };
    assert_eq!(HnswVectorStore::new("/tmp/index", Some(sound)).count(), 1);
}

#[test]
fn hnsw_store_refuses_when_numbers_run_out() {
    let full = StoredData { documents: vec![(0, doc("a", "A", "user", &[]))], next_id: usize::MAX };
    let store = HnswVectorStore::new("/tmp/index", Some(full));
    assert!(store.can_add("a"));
    assert!(!store.can_add("b"));
    let mut rag = RagSystem::new(store, "test-model");
    assert_eq!(rag.add_document("b", "B", "user", Metadata::new(), vec![]), Err(RagError::IndexFull));
    assert_eq!(rag.count_documents(), 1);
    assert!(rag.add_document("a", "A2", "user", Metadata::new(), vec![]).is_ok());
}

#[test]
fn startup_depends_on_the_files() {
    assert_eq!(startup_plan(false, false), Startup::Fresh);
    assert_eq!(startup_plan(false, true), Startup::Fresh);
    assert_eq!(startup_plan(true, true), Startup::Load);
    assert_eq!(startup_plan(true, false), Startup::Migrate);
}

#[test]
fn migration_puts_every_document_into_the_approximate_store() {
    let mut legacy = LinearVectorStore::new("/tmp/index", None);
    legacy.add_document(doc("a", "A", "user", &[]));
    legacy.add_document(doc("b", "B", "user", &[]));
    let mut store = HnswVectorStore::new("/tmp/index", None);
    let mut numbers = Vec::new();
    for d in legacy.get_all() {
        numbers.push(store.add_document(d));
    }
    assert_eq!(numbers, vec![0, 1]);
    assert_eq!(store.count(), 2);
    assert!(store.contains("a") && store.contains("b"));
}

#[test]
fn reembed_all_replaces_embeddings_and_counts() {
    let mut rag = linear();
    rag.add_document("a", "A", "user", Metadata::new(), vec![1]).unwrap();
    rag.add_document("b", "B", "user", Metadata::new(), vec![2]).unwrap();
    rag.add_document("c", "C", "user", Metadata::new(), vec![3]).unwrap();
    let count = rag.reembed_all(&vec![Some(vec![10, 11]), None, Some(vec![30])]);
    assert_eq!(count, 2);
    assert_eq!(rag.count_documents(), 3);
    let all = rag.get_all();
    let find = |id: &str| all.iter().find(|d| d.id == id).unwrap().clone();
    assert_eq!(find("a").embedding, vec![10, 11]);
    assert_eq!(find("a").content, "A");
    assert_eq!(find("b").embedding, vec![2]);
    assert_eq!(find("c").embedding, vec![30]);
    assert_eq!(rag.reembed_all(&Vec::new()), 0);
}

#[test]
fn source_labels() {
    assert_eq!(label_of(&doc("CS101", "x", "user", &[("type", "subject"), ("name", "Algebra")])), "CS101");
    assert_eq!(label_of(&doc("CS101/a.pdf#0", "x", "user", &[("type", "pdf"), ("filename", "a.pdf")])), "a.pdf");
    assert_eq!(label_of(&doc("CS101/a.pdf#0", "x", "user", &[("type", "pdf")])), "CS101/a.pdf#0");
    assert_eq!(label_of(&doc("raw", "x", "user", &[("filename", "a.pdf")])), "a.pdf");
    assert_eq!(label_of(&doc("raw", "x", "user", &[])), "raw");
    assert_eq!(label_of(&doc("CS101", "x", "user", &[("type", "subject"), ("filename", "a.pdf")])), "CS101");
    assert_eq!(label_of(&doc("n", "x", "user", &[("type", "note"), ("filename", "b.txt")])), "b.txt");
}

fn words_text(n: usize, special_at: Option<(usize, &str)>) -> String {
    let mut words: Vec<String> = (0..n).map(|i| format!("w{:03}", i)).collect();
    if let Some((at, w)) = special_at {
        words[at] = w.to_string();
    }
    words.join(" ")
}

#[test]
fn snippet_without_a_match_is_the_start_of_the_content() {
    let short = "alpha beta gamma";
    assert_eq!(extract_relevant_snippet(short, &vec!["zzz".to_string()], 1500), short);
    assert_eq!(extract_relevant_snippet("  padded  ", &vec!["zzz".to_string()], 1500), "padded");
    let long = words_text(400, None);
    let got = extract_relevant_snippet(&long, &vec!["zzz".to_string()], 100);
    assert_eq!(got, format!("{}...", words_text(20, None)));
    assert!(got.starts_with("w000 w001"));
    assert!(got.ends_with("..."));
    assert!(got.chars().count() <= 103);
    assert_eq!(extract_relevant_snippet("", &vec!["a".to_string()], 10), "");
    assert_eq!(extract_relevant_snippet("abc def", &Vec::new(), 1500), "abc def");
}

#[test]
fn snippet_with_few_words_never_moves() {
    let text = words_text(50, Some((49, "fox")));
    assert_eq!(extract_relevant_snippet(&text, &vec!["fox".to_string()], 1500), text);
}

#[test]
fn snippet_scores_the_last_window() {
    // 101 words; only the window over the last fifty, which begins with word 51 at
    // offset 510, holds the word asked for.
    let text = format!("{}fox", "aaaaaaaaa ".repeat(100));
    let got = extract_relevant_snippet(&text, &vec!["fox".to_string()], 1500);
    assert_eq!(got, format!("...{}fox", "aaaaaaaaa ".repeat(53)));
    // Fifty-one words: the second window is the last, and begins after the first word.
    let tail = format!("{}fox", "w ".repeat(49));
    let text = format!("{} {}", "x".repeat(100), tail);
    let got = extract_relevant_snippet(&text, &vec!["fox".to_string()], 1500);
    assert_eq!(got, format!("...{}", tail));
    // Fifty words: the one window begins at the start.
    let text = format!("{}fox", "aaaaaaaaa ".repeat(49));
    assert_eq!(extract_relevant_snippet(&text, &vec!["fox".to_string()], 1500), text);
    // Forty-nine words make no window.
    let text = format!("{} fox", "aaaaaaaaaaaaaaaaaaaa ".repeat(48).trim_end());
    assert_eq!(extract_relevant_snippet(&text, &vec!["fox".to_string()], 1500), text);
}

#[test]
fn snippet_starts_near_the_first_best_window() {
    let text = words_text(300, Some((200, "needle")));
    let got = extract_relevant_snippet(&text, &vec!["needle".to_string()], 400);
    // The first window that holds word 200 begins with word 151, at offset 151 * 5; the
    // excerpt begins 50 characters earlier and is cut at the first space.
    assert!(got.starts_with("...w142 "), "{}", got);
    assert!(got.contains("needle"));
    assert!(got.ends_with("..."));
    let start = 151 * 5 - 50;
    let raw: String = text.chars().skip(start).take(400).collect();
    let after = &raw[raw.find(' ').unwrap() + 1..];
    let left = format!("...{}", after);
    let cut = &left[..left.rfind(' ').unwrap()];
    assert_eq!(got, format!("{}...", cut));
}

#[test]
fn snippet_counts_distinct_query_words() {
    let mut words: Vec<String> = (0..200).map(|i| format!("w{:03}", i)).collect();
    words[60] = "cat".to_string();
    words[61] = "cat".to_string();
    words[150] = "cat".to_string();
    words[151] = "dog".to_string();
    let text = words.join(" ");
    let query = vec!["cat".to_string(), "dog".to_string(), "cat".to_string()];
    let got = extract_relevant_snippet(&text, &query, 300);
    // Two distinct words occur from the window of word 102 on; repetitions do not count.
    assert!(got.starts_with("...w093 "), "{}", got);
}

#[test]
fn snippet_window_is_compared_in_lowercase() {
    let text = words_text(120, Some((100, "NEEDLE")));
    let got = extract_relevant_snippet(&text, &vec!["needle".to_string()], 200);
    assert!(got.starts_with("...w042 "), "{}", got);
}

#[test]
fn cut_excerpt_marks_both_ends() {
    let content: Vec<char> = "aaaa bbbb cccc dddd eeee ffff gggg hhhh iiii jjjj kkkk llll mmmm".chars().collect();
    let got: String = cut_excerpt(&content, 60, 20).iter().collect();
    assert_eq!(got, "...dddd eeee ffff...");
    let got: String = cut_excerpt(&content, 60, 19).iter().collect();
    assert_eq!(got, "...dddd eeee...");
    let got: String = cut_excerpt(&content, 0, 9).iter().collect();
    assert_eq!(got, "aaaa...");
    let got: String = cut_excerpt(&content, 0, 1000).iter().collect();
    assert_eq!(got, "aaaa bbbb cccc dddd eeee ffff gggg hhhh iiii jjjj kkkk llll mmmm");
    let got: String = cut_excerpt(&content, 1000, 10).iter().collect();
    assert_eq!(got, "...");
}

#[test]
fn search_snippets_returns_sources_above_the_threshold() {
    let mut rag = linear();
    rag.add_document("A", "the quick brown fox", "user", meta(&[("type", "pdf"), ("filename", "fox.pdf")]), vec![]).unwrap();
    rag.add_document("B", "unrelated content", "user", Metadata::new(), vec![]).unwrap();
    rag.add_document("C", "barely related", "user", Metadata::new(), vec![]).unwrap();
    let cands = vec![cand(1, 350_000), cand(0, 910_000), cand(2, 299_999)];
    let got = rag.search_snippets("Fox", &cands, "user", 5);
    assert_eq!(got.len(), 2);
    assert_eq!(got[0].0, "fox.pdf");
    assert!(got[0].1.contains("fox"));
    assert_eq!(got[0].2, 910_000);
    assert_eq!(got[1].0, "B");
    assert_eq!(got[1].1, "unrelated content");
    let got = rag.search_snippets("fox", &cands, "user", 1);
    assert_eq!(got.len(), 1);
    assert_eq!(got[0].0, "fox.pdf");
    let at_threshold = rag.search_snippets("fox", &vec![cand(2, 300_000)], "user", 5);
    assert_eq!(at_threshold.len(), 1);
}

#[test]
fn embedding_inputs_of_short_and_long_texts() {
    assert_eq!(embedding_inputs(""), Err(EmbedError::InvalidInput));
    assert_eq!(embedding_inputs("one\ntwo"), Ok(vec!["one two".to_string()]));
    assert_eq!(embedding_inputs("  "), Ok(vec!["  ".to_string()]));
    let long_blank = " ".repeat(2000);
    assert_eq!(embedding_inputs(&long_blank), Err(EmbedError::InvalidInput));
    let long = "lorem ".repeat(400);
    let parts = embedding_inputs(&long).unwrap();
    assert_eq!(parts.len(), 3);
    for p in &parts {
        assert!(p.chars().count() <= 1024);
        assert!(!p.is_empty());
    }
    assert_eq!(parts.join(" "), long.trim());
    let exactly = "x".repeat(1024);
    assert_eq!(embedding_inputs(&exactly), Ok(vec![exactly.clone()]));
}

#[test]
fn chunk_text_packs_words_greedily() {
    assert!(chunk_text("").is_empty());
    assert_eq!(chunk_text("a b  c"), vec!["a b c".to_string()]);
    let word = "x".repeat(600);
    let text = format!("{} {} {}", word, word, word);
    assert_eq!(chunk_text(&text), vec![word.clone(), word.clone(), word.clone()]);
    let huge = "y".repeat(3000);
    assert_eq!(chunk_text(&format!("a {} b", huge)), vec!["a".to_string(), huge.clone(), "b".to_string()]);
    let w511 = "z".repeat(511);
    assert_eq!(chunk_text(&format!("{} {}", w511, w511)), vec![format!("{} {}", w511, w511)]);
    let w512 = "z".repeat(512);
    assert_eq!(chunk_text(&format!("{} {}", w512, w511)), vec![format!("{} {}", w512, w511)]);
    assert_eq!(chunk_text(&format!("{} {}", w512, w512)), vec![w512.clone(), w512.clone()]);
}

#[test]
fn retrieval_determinism() {
    let mut rag = linear();
    let a = rag.add_document("A", "the quick brown fox", "user", Metadata::new(), vec![]).unwrap();
    let b = rag.add_document("B", "unrelated content", "user", Metadata::new(), vec![]).unwrap();
    let cands = vec![cand(b, 310_000), cand(a, 820_000)];
    for _ in 0..3 {
        let got = rag.search_snippets("fox", &cands, "user", 5);
        assert_eq!(got.len(), 2);
        assert_eq!(got[0].0, "A");
        assert!(got[0].1.contains("fox"));
        assert_eq!(got[1].0, "B");
        assert!(got[0].2 > got[1].2);
    }
}

#[test]
fn slots_name_documents() {
    let mut store = LinearVectorStore::new("/tmp/index", None);
    store.add_document(doc("a", "A", "user", &[]));
    store.add_document(doc("b", "B", "user", &[]));
    assert_eq!(store.slot_of("a"), Some(0));
    assert_eq!(store.slot_of("b"), Some(1));
    assert_eq!(store.slot_of("c"), None);
    let mut approx = HnswVectorStore::new("/tmp/index", None);
    approx.add_document(doc("a", "A", "user", &[]));
    approx.add_document(doc("b", "B", "user", &[]));
    approx.remove_document("a");
    assert_eq!(approx.slot_of("b"), Some(1));
    assert_eq!(approx.slot_of("a"), None);
    let rag = RagSystem::new(approx, "m");
    assert_eq!(rag.slot_of("b"), Some(1));
}

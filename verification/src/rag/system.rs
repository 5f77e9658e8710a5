//! The facade of the index: what the rest of the program asks of it.
//!
//! The facade owns a store. Embedding a text and measuring how near two
//! vectors are is done by the caller: a document comes with its embedding, a
//! query with the candidates that the backend found for it.

use crate::rag::document::{copy_bits, doc_views, find_doc, lemma_find_doc, lemma_position_of, lemma_upserted, position_of, unique_ids, upserted, Document, DocumentView, Metadata, Score};
use crate::rag::snippet::{extract_relevant_snippet, label_of, snippet, source_label};
use crate::rag::stats::RagStats;
use crate::rag::store::{chosen, eligible_among, hit_views, is_eligible, lemma_chosen, lemma_ranked_len, lemma_search_hits, search_hits, Candidate, Table, VectorStore};
use crate::text::{chars_of, lowercase, split_words, str_views, string_of, strings_of, words};
use vstd::prelude::*;

verus! {

/// The least similarity of a document that is shown as a source: 0.3.
pub const SNIPPET_MIN_SCORE: Score = 300_000;

/// Why the index refused a document.
#[derive(Clone, Copy, Debug, PartialEq, Eq, Structural)]
pub enum RagError {
    /// The store has given out every internal number it has.
    IndexFull,
}

/// The number of documents with this id.
pub open spec fn count_with_id(docs: Seq<DocumentView>, id: Seq<char>) -> nat
    decreases docs.len(),
{
    if docs.len() == 0 {
        0
    } else {
        count_with_id(docs.drop_last(), id) + if docs.last().id == id {
            1nat
        } else {
            0nat
        }
    }
}

/// Where no document has the id, the number of documents with it is zero.
pub proof fn lemma_count_none(docs: Seq<DocumentView>, id: Seq<char>)
    requires
        forall|k: int| 0 <= k < docs.len() ==> (#[trigger] docs[k]).id != id,
    ensures
        count_with_id(docs, id) == 0,
    decreases docs.len(),
{
    if docs.len() > 0 {
        let init = docs.drop_last();
        assert forall|k: int| 0 <= k < init.len() implies (#[trigger] init[k]).id != id by {
            assert(init[k] == docs[k]);
        }
        lemma_count_none(init, id);
    }
}

/// Among documents with unique ids, an id that is found is held by exactly
/// one document, and an id that is not found by none.
pub proof fn lemma_count_with_id(docs: Seq<DocumentView>, id: Seq<char>)
    requires
        unique_ids(docs),
    ensures
        count_with_id(docs, id) == if find_doc(docs, id).is_some() {
            1nat
        } else {
            0nat
        },
    decreases docs.len(),
{
    lemma_position_of(docs, id);
    if docs.len() > 0 {
        let init = docs.drop_last();
        assert forall|i: int, j: int| 0 <= i < j < init.len() implies init[i].id != init[j].id by {
            assert(init[i] == docs[i]);
            assert(init[j] == docs[j]);
        }
        if docs.last().id == id {
            assert forall|k: int| 0 <= k < init.len() implies (#[trigger] init[k]).id != id by {
                assert(init[k] == docs[k]);
            }
            lemma_count_none(init, id);
        } else {
            lemma_count_with_id(init, id);
        }
    }
}

/// Putting a document in twice in a row leaves exactly one document with
/// its id.
pub proof fn lemma_add_twice(docs: Seq<DocumentView>, first: DocumentView, second: DocumentView)
    requires
        unique_ids(docs),
        first.id == second.id,
    ensures
        count_with_id(upserted(upserted(docs, first), second), first.id) == 1,
        find_doc(upserted(upserted(docs, first), second), first.id) == Some(second),
{
    lemma_upserted(docs, first);
    lemma_upserted(upserted(docs, first), second);
    lemma_count_with_id(upserted(upserted(docs, first), second), first.id);
}

/// In a store whose only document is `doc`, a search for one result returns
/// `doc`, provided that it belongs to the asking user and that a candidate
/// names its slot with a similarity of at least the threshold.
pub proof fn lemma_only_document_is_top(
    table: Table,
    doc: DocumentView,
    cands: Seq<Candidate>,
    user_id: Seq<char>,
    threshold: Score,
    at: int,
)
    requires
        forall|slot: int| (#[trigger] table(slot)).is_some() ==> table(slot) == Some(doc),
        doc.user_id == user_id,
        0 <= at < cands.len(),
        table(cands[at].slot as int).is_some(),
        cands[at].similarity >= threshold,
    ensures
        search_hits(table, cands, user_id, 1, threshold).len() == 1,
        search_hits(table, cands, user_id, 1, threshold)[0].0 == doc,
        search_hits(table, cands, user_id, 1, threshold)[0].0.id == doc.id,
{
    let e = eligible_among(table, cands, user_id, threshold);
    lemma_eligible_nonempty(table, cands, user_id, threshold, at);
    lemma_ranked_len(e);
    lemma_chosen(table, cands, user_id, 1, threshold);
    let c = chosen(table, cands, user_id, 1, threshold);
    assert(c.len() == 1);
    assert(is_eligible(table, c[0], user_id, threshold));
}

/// An eligible candidate makes the list of eligible candidates non-empty.
pub proof fn lemma_eligible_nonempty(
    table: Table,
    cands: Seq<Candidate>,
    user_id: Seq<char>,
    threshold: Score,
    at: int,
)
    requires
        0 <= at < cands.len(),
        is_eligible(table, cands[at], user_id, threshold),
    ensures
        eligible_among(table, cands, user_id, threshold).len() > 0,
    decreases cands.len(),
{
    if at < cands.len() - 1 {
        let init = cands.drop_last();
        assert(init[at] == cands[at]);
        lemma_eligible_nonempty(table, init, user_id, threshold, at);
    }
}

/// Twice `top_k`, or the greatest number where that is greater.
pub open spec fn doubled(top_k: usize) -> usize {
    if 2 * top_k > usize::MAX {
        usize::MAX
    } else {
        (2 * top_k) as usize
    }
}

/// The sources shown for a query: for each of the first `top_k` results the
/// name of the document, its excerpt for the words of the query in lowercase,
/// and its similarity.
pub open spec fn sources(hits: Seq<(DocumentView, Score)>, query: Seq<char>, top_k: nat) -> Seq<
    (Seq<char>, Seq<char>, Score),
> {
    let n = if top_k < hits.len() {
        top_k
    } else {
        hits.len()
    };
    Seq::new(
        n,
        |i: int|
            (
                source_label(hits[i].0),
                snippet(hits[i].0.content, words(lowercase(query)), 1500),
                hits[i].1,
            ),
    )
}

/// The views of a list of sources.
pub open spec fn source_views(v: Seq<(String, String, Score)>) -> Seq<
    (Seq<char>, Seq<char>, Score),
> {
    Seq::new(v.len(), |i: int| (v[i].0@, v[i].1@, v[i].2))
}

/// `doc` with another embedding.
pub open spec fn with_embedding(doc: DocumentView, embedding: Seq<u32>) -> DocumentView {
    DocumentView {
        id: doc.id,
        content: doc.content,
        embedding,
        metadata: doc.metadata,
        user_id: doc.user_id,
    }
}

/// The views of a list of optional embeddings.
pub open spec fn embedding_views(v: Seq<Option<Vec<u32>>>) -> Seq<Option<Seq<u32>>> {
    Seq::new(
        v.len(),
        |i: int|
            match v[i] {
                Some(e) => Some(e@),
                None => None,
            },
    )
}

/// The number of embeddings among the first `n` results that are there.
pub open spec fn count_some(results: Seq<Option<Seq<u32>>>, n: int) -> nat
    decreases n,
{
    if n <= 0 {
        0
    } else {
        count_some(results, n - 1) + if n - 1 < results.len() && results[n - 1].is_some() {
            1nat
        } else {
            0nat
        }
    }
}

/// What is found for an id after the first `n` documents of `docs` got the
/// embeddings of `results`: a document whose embedding is there has it, and
/// everything else is as it was.
pub open spec fn reembedded(
    docs: Seq<DocumentView>,
    results: Seq<Option<Seq<u32>>>,
    n: int,
    id: Seq<char>,
) -> Option<DocumentView> {
    match position_of(docs, id) {
        Some(k) => if k < n && k < results.len() && results[k].is_some() {
            Some(with_embedding(docs[k], results[k]->0))
        } else {
            Some(docs[k])
        },
        None => None,
    }
}

/// The index: a store, and the name of the model whose embeddings it holds.
pub struct RagSystem<S: VectorStore> {
    store: S,
    embedding_model: String,
}

impl<S: VectorStore> RagSystem<S> {
    /// The index is in order.
    pub closed spec fn wf(&self) -> bool {
        self.store.wf()
    }

    /// The documents of the index.
    pub closed spec fn documents(&self) -> Seq<DocumentView> {
        self.store.documents()
    }

    /// The document in each slot of the store.
    pub closed spec fn table(&self) -> Table {
        self.store.table()
    }

    /// Whether a document with this id can be put in.
    pub closed spec fn has_room(&self, id: Seq<char>) -> bool {
        self.store.has_room(id)
    }

    /// The number of documents with new ids that the index can still take
    /// for certain.
    pub closed spec fn spare(&self) -> nat {
        self.store.spare()
    }

    /// The store of the index.
    pub closed spec fn backend(&self) -> S {
        self.store
    }

    /// The name of the model whose embeddings the index holds.
    pub closed spec fn model(&self) -> Seq<char> {
        self.embedding_model@
    }

    /// In an index whose only document is `doc`, a search for one result
    /// returns `doc`, provided that it belongs to the asking user and that a
    /// candidate names its slot with a similarity of zero or more. This is the
    /// state of an index after `add_document` on an empty index, with the slot
    /// that `add_document` returned.
    pub proof fn lemma_first_document_is_found(
        &self,
        doc: DocumentView,
        cands: Seq<Candidate>,
        user_id: Seq<char>,
        at: int,
    )
        requires
            self.wf(),
            self.documents() == seq![doc],
            doc.user_id == user_id,
            0 <= at < cands.len(),
            self.table()(cands[at].slot as int) == Some(doc),
            cands[at].similarity >= 0,
        ensures
            search_hits(self.table(), cands, user_id, 1, 0).len() == 1,
            search_hits(self.table(), cands, user_id, 1, 0)[0].0 == doc,
    {
        self.lemma_wf();
        let table = self.table();
        assert forall|slot: int| (#[trigger] table(slot)).is_some() implies table(slot) == Some(
            doc,
        ) by {
            let d = table(slot)->0;
            assert(self.documents().contains(d));
            let k = choose|k: int| 0 <= k < self.documents().len() && self.documents()[k] == d;
            assert(k == 0);
        }
        lemma_only_document_is_top(table, doc, cands, user_id, 0, at);
    }

    /// An index in order holds no id twice, and every slot in use holds one
    /// of its documents. A document with an id that the index holds can
    /// always be put in, and any document while the index has room to spare.
    pub proof fn lemma_wf(&self)
        requires
            self.wf(),
        ensures
            unique_ids(self.documents()),
            forall|slot: int|
                (#[trigger] self.table()(slot)).is_some() ==> self.documents().contains(
                    self.table()(slot)->0,
                ),
            forall|id: Seq<char>| self.spare() > 0 ==> #[trigger] self.has_room(id),
            forall|id: Seq<char>|
                find_doc(self.documents(), id).is_some() ==> #[trigger] self.has_room(id),
    {
        self.store.lemma_wf();
        assert forall|id: Seq<char>| find_doc(self.documents(), id).is_some() implies #[trigger] self.has_room(
            id,
        ) by {
            lemma_find_doc(self.documents(), id);
            let d = find_doc(self.documents(), id)->0;
            let k = choose|k: int| 0 <= k < self.documents().len() && self.documents()[k] == d;
            assert(self.store.has_room(self.store.documents()[k].id));
        }
    }

    /// The index over a store.
    pub fn new(store: S, embedding_model: &str) -> (r: Self)
        requires
            store.wf(),
        ensures
            r.wf(),
            r.backend() == store,
            r.documents() == store.documents(),
            r.table() == store.table(),
            r.spare() == store.spare(),
            r.model() == embedding_model@,
    {
        RagSystem { store, embedding_model: string_of(&chars_of(embedding_model)) }
    }

    /// The store, for reading.
    pub fn store(&self) -> (r: &S)
        ensures
            *r == self.backend(),
    {
        &self.store
    }

    /// Puts a document in, with the embedding of its content; a document with
    /// the same id is replaced. The content is kept as it is. Returns the slot
    /// of the document, under which its vector belongs in the backend.
    pub fn add_document(
        &mut self,
        id: &str,
        content: &str,
        user_id: &str,
        metadata: Metadata,
        embedding: Vec<u32>,
    ) -> (r: Result<usize, RagError>)
        requires
            old(self).wf(),
        ensures
            final(self).wf(),
            match r {
                Ok(slot) => {
                    let doc = DocumentView {
                        id: id@,
                        content: content@,
                        embedding: embedding@,
                        metadata: metadata@,
                        user_id: user_id@,
                    };
                    &&& old(self).has_room(id@)
                    &&& find_doc(final(self).documents(), id@) == Some(doc)
                    &&& count_with_id(final(self).documents(), id@) == 1
                    &&& forall|other: Seq<char>|
                        other != id@ ==> find_doc(final(self).documents(), other) == find_doc(
                            old(self).documents(),
                            other,
                        )
                    &&& find_doc(old(self).documents(), id@).is_none() ==> final(self).documents()
                        == old(self).documents().push(doc)
                    &&& final(self).documents().len() == old(self).documents().len() + if find_doc(
                        old(self).documents(),
                        id@,
                    ).is_some() {
                        0int
                    } else {
                        1int
                    }
                    &&& final(self).table()(slot as int) == Some(doc)
                    &&& final(self).spare() >= old(self).spare() - if find_doc(
                        old(self).documents(),
                        id@,
                    ).is_some() {
                        0int
                    } else {
                        1int
                    }
                },
                Err(e) => {
                    &&& !old(self).has_room(id@)
                    &&& e == RagError::IndexFull
                    &&& final(self).documents() == old(self).documents()
                    &&& final(self).table() == old(self).table()
                    &&& final(self).spare() == old(self).spare()
                },
            },
    {
        if !self.store.can_add(id) {
            return Err(RagError::IndexFull);
        }
        Ok(self.put_document(id, content, user_id, metadata, embedding))
    }

    /// Puts a document in where there is room for it, and returns its slot.
    pub(crate) fn put_document(
        &mut self,
        id: &str,
        content: &str,
        user_id: &str,
        metadata: Metadata,
        embedding: Vec<u32>,
    ) -> (slot: usize)
        requires
            old(self).wf(),
            old(self).has_room(id@),
        ensures
            final(self).wf(),
            ({
                let doc = DocumentView {
                    id: id@,
                    content: content@,
                    embedding: embedding@,
                    metadata: metadata@,
                    user_id: user_id@,
                };
                &&& find_doc(final(self).documents(), id@) == Some(doc)
                &&& count_with_id(final(self).documents(), id@) == 1
                &&& forall|other: Seq<char>|
                    other != id@ ==> find_doc(final(self).documents(), other) == find_doc(
                        old(self).documents(),
                        other,
                    )
                &&& find_doc(old(self).documents(), id@).is_none() ==> final(self).documents()
                    == old(self).documents().push(doc)
                &&& final(self).documents().len() == old(self).documents().len() + if find_doc(
                    old(self).documents(),
                    id@,
                ).is_some() {
                    0int
                } else {
                    1int
                }
                &&& final(self).table()(slot as int) == Some(doc)
                &&& final(self).spare() >= old(self).spare() - if find_doc(
                    old(self).documents(),
                    id@,
                ).is_some() {
                    0int
                } else {
                    1int
                }
            }),
    {
        let doc = Document {
            id: string_of(&chars_of(id)),
            content: string_of(&chars_of(content)),
            embedding,
            metadata,
            user_id: string_of(&chars_of(user_id)),
        };
        let slot = self.store.add_document(doc);
        proof {
            self.store.lemma_wf();
            lemma_count_with_id(self.store.documents(), id@);
        }
        slot
    }

    /// The number of documents with new ids that the index can still take
    /// for certain.
    pub fn room_left(&self) -> (r: usize)
        requires
            self.wf(),
        ensures
            r == self.spare(),
    {
        self.store.room_left()
    }

    /// The number of documents.
    pub fn count_documents(&self) -> (r: usize)
        requires
            self.wf(),
        ensures
            r == self.documents().len(),
    {
        self.store.count()
    }

    /// Whether a document has this id.
    pub fn contains(&self, id: &str) -> (r: bool)
        requires
            self.wf(),
        ensures
            r == find_doc(self.documents(), id@).is_some(),
    {
        self.store.contains(id)
    }

    /// The slot of the document with this id, if there is one.
    pub fn slot_of(&self, id: &str) -> (r: Option<usize>)
        requires
            self.wf(),
        ensures
            match r {
                Some(slot) => find_doc(self.documents(), id@).is_some() && self.table()(
                    slot as int,
                ) == find_doc(self.documents(), id@),
                None => find_doc(self.documents(), id@).is_none(),
            },
    {
        self.store.slot_of(id)
    }

    /// Takes the document with this id out, if there is one.
    pub fn remove_document(&mut self, id: &str)
        requires
            old(self).wf(),
        ensures
            final(self).wf(),
            find_doc(final(self).documents(), id@).is_none(),
            forall|other: Seq<char>|
                other != id@ ==> find_doc(final(self).documents(), other) == find_doc(
                    old(self).documents(),
                    other,
                ),
            find_doc(old(self).documents(), id@).is_none() ==> final(self).documents() == old(
                self,
            ).documents(),
            final(self).documents().len() == old(self).documents().len() - if find_doc(
                old(self).documents(),
                id@,
            ).is_some() {
                1int
            } else {
                0int
            },
            final(self).spare() >= old(self).spare(),
    {
        self.store.remove_document(id);
    }

    /// All documents.
    pub fn get_all(&self) -> (r: Vec<Document>)
        requires
            self.wf(),
        ensures
            doc_views(r@) == self.documents(),
    {
        self.store.get_all()
    }

    /// Takes every document out.
    pub fn clear(&mut self)
        requires
            old(self).wf(),
        ensures
            final(self).wf(),
            final(self).documents() == Seq::<DocumentView>::empty(),
            forall|id: Seq<char>| final(self).has_room(id),
            final(self).spare() == usize::MAX,
    {
        self.store.clear();
    }

    /// Figures about the index; the size of its files is handed in.
    pub fn get_stats(&self, file_size_bytes: u64) -> (r: RagStats)
        requires
            self.wf(),
        ensures
            r.document_count == self.documents().len(),
            r.file_size_bytes == file_size_bytes,
            crate::rag::store::tally_view(r.docs_by_type@) == crate::rag::store::type_counts(
                self.documents(),
            ),
            r.total_content_bytes == crate::rag::store::saturated(
                crate::rag::store::content_bytes(self.documents()),
            ),
            r.embedding_dimensions == crate::rag::store::last_dimensions(self.documents()),
            r.storage_path@ == self.backend().location(),
            r.store_type@ == self.backend().kind(),
            r.embedding_model@ == self.model(),
    {
        let stats = self.store.get_stats(file_size_bytes);
        RagStats::from_store(
            stats,
            self.store.storage_path(),
            self.store.store_type(),
            self.embedding_model.clone(),
        )
    }

    /// The documents of the asking user among the candidates, from the most
    /// similar down, at most `top_k` of them; none where `top_k` is zero. A
    /// candidate with a similarity below zero is left out.
    pub fn search(&self, candidates: &Vec<Candidate>, user_id: &str, top_k: usize) -> (r: Vec<
        (Document, Score),
    >)
        requires
            self.wf(),
        ensures
            hit_views(r@) == if top_k == 0 {
                Seq::empty()
            } else {
                search_hits(self.table(), candidates@, user_id@, top_k as nat, 0)
            },
            r@.len() <= top_k,
            forall|i: int| 0 <= i < r@.len() ==> (#[trigger] r@[i]).0@.user_id == user_id@,
            forall|i: int, j: int| 0 <= i < j < r@.len() ==> r@[i].1 >= r@[j].1,
    {
        if top_k == 0 {
            let r: Vec<(Document, Score)> = Vec::new();
            assert(hit_views(r@) =~= Seq::empty());
            return r;
        }
        let r = self.store.search(candidates, user_id, top_k, 0);
        proof {
            lemma_search_hits(self.table(), candidates@, user_id@, top_k as nat, 0);
            let h = hit_views(r@);
            assert forall|i: int| 0 <= i < r@.len() implies (#[trigger] r@[i]).0@.user_id
                == user_id@ by {
                assert(h[i].0 == r@[i].0@);
            }
            assert forall|i: int, j: int| 0 <= i < j < r@.len() implies r@[i].1 >= r@[j].1 by {
                assert(h[i].1 == r@[i].1);
                assert(h[j].1 == r@[j].1);
            }
        }
        r
    }

    /// The sources for a query: up to twice `top_k` documents of the asking
    /// user are taken from the candidates, none less similar than 0.3; of
    /// these the first `top_k` are returned, each with its name, its excerpt
    /// for the query and its similarity.
    pub fn search_snippets(
        &self,
        query: &str,
        candidates: &Vec<Candidate>,
        user_id: &str,
        top_k: usize,
    ) -> (r: Vec<(String, String, Score)>)
        requires
            self.wf(),
        ensures
            source_views(r@) == sources(
                search_hits(
                    self.table(),
                    candidates@,
                    user_id@,
                    doubled(top_k) as nat,
                    SNIPPET_MIN_SCORE,
                ),
                query@,
                top_k as nat,
            ),
            r@.len() <= top_k,
    {
        let wide: usize = if top_k > usize::MAX / 2 {
            usize::MAX
        } else {
            2 * top_k
        };
        let hits = self.store.search(candidates, user_id, wide, SNIPPET_MIN_SCORE);
        let lower = query.to_lowercase();
        let query_words = strings_of(&split_words(&chars_of(lower.as_str())));
        let n: usize = if top_k < hits.len() {
            top_k
        } else {
            hits.len()
        };
        let ghost want = sources(hit_views(hits@), query@, top_k as nat);
        let mut out: Vec<(String, String, Score)> = Vec::new();
        let mut i: usize = 0;
        while i < n
            invariant
                i <= n <= hits.len(),
                n == want.len(),
                str_views(query_words@) == words(lowercase(query@)),
                want == sources(hit_views(hits@), query@, top_k as nat),
                out@.len() == i,
                forall|k: int|
                    0 <= k < i ==> (#[trigger] out@[k]).0@ == want[k].0 && out@[k].1@ == want[k].1
                        && out@[k].2 == want[k].2,
            decreases n - i,
        {
            let doc = &hits[i].0;
            let label = label_of(doc);
            let text = extract_relevant_snippet(doc.content.as_str(), &query_words, 1500);
            assert(hit_views(hits@)[i as int].0 == doc@);
            out.push((label, text, hits[i].1));
            i += 1;
        }
        assert(source_views(out@) =~= want);
        out
    }

    /// Puts new embeddings in: `results` holds, for each document in the
    /// order of `get_all`, its new embedding, or nothing where none could be
    /// made. Such a document stays as it is. Returns the number of documents
    /// that got a new embedding.
    pub fn reembed_all(&mut self, results: &Vec<Option<Vec<u32>>>) -> (count: usize)
        requires
            old(self).wf(),
        ensures
            final(self).wf(),
            count == count_some(
                embedding_views(results@),
                old(self).documents().len() as int,
            ),
            forall|id: Seq<char>|
                find_doc(final(self).documents(), id) == reembedded(
                    old(self).documents(),
                    embedding_views(results@),
                    old(self).documents().len() as int,
                    id,
                ),
    {
        let docs = self.store.get_all();
        let ghost before = self.store.documents();
        let ghost res = embedding_views(results@);
        proof {
            self.store.lemma_wf();
            assert forall|id: Seq<char>| find_doc(self.store.documents(), id) == reembedded(
                before,
                res,
                0,
                id,
            ) by {
                lemma_position_of(before, id);
            }
        }
        let mut count: usize = 0;
        let mut i: usize = 0;
        while i < docs.len()
            invariant
                i <= docs.len(),
                count <= i,
                self.store.wf(),
                doc_views(docs@) == before,
                unique_ids(before),
                res == embedding_views(results@),
                count == count_some(res, i as int),
                forall|id: Seq<char>|
                    find_doc(self.store.documents(), id) == reembedded(before, res, i as int, id),
            decreases docs.len() - i,
        {
            let ghost held = self.store.documents();
            let ghost id = before[i as int].id;
            assert(before[i as int] == docs@[i as int]@);
            if i < results.len() {
                match &results[i] {
                    Some(e) => {
                        let doc = Document {
                            id: docs[i].id.clone(),
                            content: docs[i].content.clone(),
                            embedding: copy_bits(e),
                            metadata: docs[i].metadata.duplicate(),
                            user_id: docs[i].user_id.clone(),
                        };
                        proof {
                            assert(doc@ == with_embedding(before[i as int], res[i as int]->0));
                            crate::rag::document::lemma_position_unique(before, i as int);
                            self.store.lemma_wf();
                            assert(reembedded(before, res, i as int, id).is_some());
                            assert(find_doc(held, id) == reembedded(before, res, i as int, id));
                            lemma_find_doc(held, id);
                            let d = find_doc(held, id)->0;
                            let k = choose|k: int| 0 <= k < held.len() && held[k] == d;
                            assert(self.store.has_room(held[k].id));
                        }
                        self.store.add_document(doc);
                        count += 1;
                        proof {
                            assert forall|other: Seq<char>| find_doc(
                                self.store.documents(),
                                other,
                            ) == reembedded(before, res, i + 1, other) by {
                                lemma_position_of(before, other);
                                assert(find_doc(held, other) == reembedded(
                                    before,
                                    res,
                                    i as int,
                                    other,
                                ));
                                assert(res[i as int] == Some(e@));
                                if other != id {
                                    match position_of(before, other) {
                                        Some(k) => {
                                            assert(k != i);
                                        },
                                        None => {},
                                    }
                                }
                            }
                        }
                    },
                    None => {
                        proof {
                            assert(res[i as int].is_none());
                            assert forall|other: Seq<char>| find_doc(
                                self.store.documents(),
                                other,
                            ) == reembedded(before, res, i + 1, other) by {
                                lemma_position_of(before, other);
                                assert(find_doc(held, other) == reembedded(
                                    before,
                                    res,
                                    i as int,
                                    other,
                                ));
                            }
                        }
                    },
                }
            } else {
                proof {
                    assert forall|other: Seq<char>| find_doc(self.store.documents(), other)
                        == reembedded(before, res, i + 1, other) by {
                        lemma_position_of(before, other);
                        assert(find_doc(held, other) == reembedded(before, res, i as int, other));
                    }
                }
            }
            i += 1;
        }
        count
    }
}

} // verus!

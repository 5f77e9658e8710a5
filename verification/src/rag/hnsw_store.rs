//! The approximate store: the payload side of a nearest-neighbour graph.
//!
//! The graph itself, whose points are vectors of floating-point numbers, is
//! kept by the program around the library. The store decides under which
//! internal number a document is put into the graph, and turns the neighbours
//! that the graph reports into results.

use crate::rag::document::{removed, doc_views, find_doc, index_of_id, lemma_find_doc, lemma_position_of, lemma_position_unique, lemma_removed, position_of, unique_ids, Document, DocumentView, Score, SCORE_ONE};
use crate::rag::store::{
    chosen, duplicate_all, eligible_among, hit_views, is_eligible, lemma_chosen, rank_top,
    search_hits, select_by_metadata, stats_of, Candidate, StoreStats, Table, VectorStore,
};
use crate::text::{chars_of, string_of};
use vstd::prelude::*;

verus! {

/// The number of links a point of the graph keeps to its neighbours.
pub const MAX_CONNECTIONS: usize = 24;

/// The number of candidates weighed when a point is put into the graph.
pub const EF_CONSTRUCTION: usize = 10000;

/// The number of layers of the graph.
pub const MAX_LAYERS: usize = 16;

/// The number of points the graph is first laid out for.
pub const INITIAL_CAPACITY: usize = 200;

/// The number of candidates weighed by a search for `top_k` neighbours: twice
/// as many as are asked for.
pub fn ef_search(top_k: usize) -> (r: usize)
    ensures
        r == if 2 * top_k > usize::MAX {
            usize::MAX
        } else {
            (2 * top_k) as usize
        },
{
    if top_k > usize::MAX / 2 {
        usize::MAX
    } else {
        2 * top_k
    }
}

/// A neighbour as the graph reports it: the internal number of a point and
/// its cosine distance from the query, in millionths.
#[derive(Clone, Copy, Debug, PartialEq, Eq, Structural)]
pub struct Neighbour {
    pub id: usize,
    pub distance: u32,
}

/// The candidate for a neighbour: its similarity is one minus its distance.
pub open spec fn candidate_of(n: Neighbour) -> Candidate {
    Candidate { slot: n.id, similarity: (SCORE_ONE - n.distance) as Score }
}

/// The candidates for the neighbours that the graph reported.
pub fn candidates_of(neighbours: &Vec<Neighbour>) -> (r: Vec<Candidate>)
    ensures
        r@ == Seq::new(neighbours@.len(), |i: int| candidate_of(neighbours@[i])),
{
    let mut out: Vec<Candidate> = Vec::new();
    let mut i: usize = 0;
    while i < neighbours.len()
        invariant
            i <= neighbours.len(),
            out@.len() == i,
            forall|k: int| 0 <= k < i ==> #[trigger] out@[k] == candidate_of(neighbours@[k]),
        decreases neighbours.len() - i,
    {
        let n = neighbours[i];
        let d: i64 = n.distance as i64;
        out.push(Candidate { slot: n.id, similarity: SCORE_ONE - d });
        i += 1;
    }
    assert(out@ =~= Seq::new(neighbours@.len(), |i: int| candidate_of(neighbours@[i])));
    out
}

/// The position of an internal number among the numbers in use.
pub open spec fn slot_index(ids: Seq<usize>, slot: int) -> Option<int>
    decreases ids.len(),
{
    if ids.len() == 0 {
        None
    } else if ids.last() == slot {
        Some(ids.len() - 1)
    } else {
        slot_index(ids.drop_last(), slot)
    }
}

/// `slot_index` finds a position that holds the number, and none exists where
/// it finds none.
pub proof fn lemma_slot_index(ids: Seq<usize>, slot: int)
    ensures
        match slot_index(ids, slot) {
            Some(i) => 0 <= i < ids.len() && ids[i] == slot,
            None => forall|k: int| 0 <= k < ids.len() ==> ids[k] != slot,
        },
    decreases ids.len(),
{
    if ids.len() > 0 && ids.last() != slot {
        let init = ids.drop_last();
        lemma_slot_index(init, slot);
        match slot_index(init, slot) {
            Some(i) => {
                assert(init[i] == ids[i]);
            },
            None => {
                assert forall|k: int| 0 <= k < ids.len() implies ids[k] != slot by {
                    if k < init.len() {
                        assert(init[k] == ids[k]);
                    }
                }
            },
        }
    }
}

/// Among distinct numbers, the position of a number is the one place that
/// holds it.
pub proof fn lemma_slot_unique(ids: Seq<usize>, i: int)
    requires
        distinct(ids),
        0 <= i < ids.len(),
    ensures
        slot_index(ids, ids[i] as int) == Some(i),
{
    lemma_slot_index(ids, ids[i] as int);
}

/// No number occurs twice.
pub open spec fn distinct(ids: Seq<usize>) -> bool {
    forall|i: int, j: int| 0 <= i < j < ids.len() ==> ids[i] != ids[j]
}

/// The table of documents kept under internal numbers.
pub open spec fn numbered(ids: Seq<usize>, docs: Seq<DocumentView>) -> Table {
    |slot: int|
        match slot_index(ids, slot) {
            Some(i) => if i < docs.len() {
                Some(docs[i])
            } else {
                None
            },
            None => None,
        }
}

/// The documents with `doc` in the place of the document that had its id, or
/// at the end where none had it.
pub open spec fn put(docs: Seq<DocumentView>, doc: DocumentView) -> Seq<DocumentView> {
    match position_of(docs, doc.id) {
        Some(i) => docs.update(i, doc),
        None => docs.push(doc),
    }
}

/// Putting a document in keeps the ids unique, makes it the document found
/// for its id, and leaves every other document to be found as before.
pub proof fn lemma_put(docs: Seq<DocumentView>, doc: DocumentView)
    requires
        unique_ids(docs),
    ensures
        unique_ids(put(docs, doc)),
        find_doc(put(docs, doc), doc.id) == Some(doc),
        forall|other: Seq<char>|
            other != doc.id ==> find_doc(put(docs, doc), other) == find_doc(docs, other),
{
    let r = put(docs, doc);
    lemma_position_of(docs, doc.id);
    match position_of(docs, doc.id) {
        Some(i) => {
            assert forall|a: int, b: int| 0 <= a < b < r.len() implies r[a].id != r[b].id by {
                assert(r[a].id == docs[a].id);
                assert(r[b].id == docs[b].id);
            }
            assert(r[i] == doc);
        },
        None => {
            assert forall|a: int, b: int| 0 <= a < b < r.len() implies r[a].id != r[b].id by {
                assert(r[a] == docs[a]);
                if b < docs.len() {
                    assert(r[b] == docs[b]);
                }
            }
            assert(r[docs.len() as int] == doc);
        },
    }
    lemma_find_doc(r, doc.id);
    assert forall|other: Seq<char>| other != doc.id implies find_doc(r, other) == find_doc(
        docs,
        other,
    ) by {
        lemma_find_doc(r, other);
        lemma_find_doc(docs, other);
        match find_doc(docs, other) {
            Some(d) => {
                let k = choose|k: int| 0 <= k < docs.len() && docs[k] == d;
                assert(r[k] == d);
            },
            None => {
                if find_doc(r, other).is_some() {
                    let d = find_doc(r, other)->0;
                    let k = choose|k: int| 0 <= k < r.len() && r[k] == d;
                    if k < docs.len() {
                        assert(r[k].id == docs[k].id);
                    }
                }
            },
        }
    }
}

/// What was read from the file of a store: the documents under their internal
/// numbers, and the number that the next new document gets.
#[derive(Clone, Debug)]
pub struct StoredData {
    pub documents: Vec<(usize, Document)>,
    pub next_id: usize,
}

/// Stored data is sound where no internal number and no document id occurs
/// twice and every internal number is below the next one to be given.
pub open spec fn sound(entries: Seq<(usize, Document)>, next_id: usize) -> bool {
    &&& forall|i: int, j: int| 0 <= i < j < entries.len() ==> entries[i].0 != entries[j].0
    &&& forall|i: int, j: int| 0 <= i < j < entries.len() ==> entries[i].1@.id != entries[j].1@.id
    &&& forall|i: int| 0 <= i < entries.len() ==> (#[trigger] entries[i]).0 < next_id
}

/// Whether the file of a store must be built from the file of an exact store.
#[derive(Clone, Copy, Debug, PartialEq, Eq, Structural)]
pub enum Startup {
    /// Neither file is there: the store starts empty.
    Fresh,
    /// Both files are there: the store is read.
    Load,
    /// The documents are there and the graph is not: every document is put
    /// into a fresh graph, and the store is saved.
    Migrate,
}

/// How the store starts, by the files that are there.
pub fn startup_plan(documents_exist: bool, graph_exists: bool) -> (r: Startup)
    ensures
        r == if !documents_exist {
            Startup::Fresh
        } else if graph_exists {
            Startup::Load
        } else {
            Startup::Migrate
        },
{
    if !documents_exist {
        Startup::Fresh
    } else if graph_exists {
        Startup::Load
    } else {
        Startup::Migrate
    }
}

/// The payload side of the approximate store. The slot of a document is the
/// internal number under which its vector is put into the graph. The
/// documents are kept in the order in which they came, each beside its
/// number, so that `get_all` lists them in that order.
pub struct HnswVectorStore {
    ids: Vec<usize>,
    documents: Vec<Document>,
    next_id: usize,
    storage_path: String,
}

/// The position of an internal number.
fn index_of_slot(ids: &Vec<usize>, slot: usize) -> (r: Option<usize>)
    ensures
        match r {
            Some(i) => i < ids.len() && slot_index(ids@, slot as int) == Some(i as int),
            None => slot_index(ids@, slot as int).is_none(),
        },
{
    let mut i: usize = ids.len();
    assert(ids@.subrange(0, i as int) =~= ids@);
    while i > 0
        invariant
            i <= ids.len(),
            slot_index(ids@, slot as int) == slot_index(ids@.subrange(0, i as int), slot as int),
        decreases i,
    {
        i -= 1;
        assert(ids@.subrange(0, i + 1).drop_last() =~= ids@.subrange(0, i as int));
        assert(ids@.subrange(0, i + 1).last() == ids@[i as int]);
        if ids[i] == slot {
            return Some(i);
        }
    }
    None
}

impl HnswVectorStore {
    /// The number that the next new document gets.
    pub closed spec fn next(&self) -> usize {
        self.next_id
    }

    /// The internal numbers of the documents, in the order of the documents.
    pub closed spec fn numbers(&self) -> Seq<usize> {
        self.ids@
    }

    /// An empty store for `storage_path`.
    pub fn empty(storage_path: &str) -> (r: Self)
        ensures
            r.wf(),
            r.documents() == Seq::<DocumentView>::empty(),
            r.numbers() == Seq::<usize>::empty(),
            r.next() == 0,
            r.location() == storage_path@,
    {
        let r = HnswVectorStore {
            ids: Vec::new(),
            documents: Vec::new(),
            next_id: 0,
            storage_path: string_of(&chars_of(storage_path)),
        };
        assert(doc_views(r.documents@) =~= Seq::<DocumentView>::empty());
        r
    }

    /// The store for `storage_path` with the data that was read from there;
    /// empty where nothing could be read or what was read is not sound.
    pub fn new(storage_path: &str, stored: Option<StoredData>) -> (r: Self)
        ensures
            r.wf(),
            r.location() == storage_path@,
            match stored {
                Some(data) => if sound(data.documents@, data.next_id) {
                    &&& r.next() == data.next_id
                    &&& r.numbers() == Seq::new(
                        data.documents@.len(),
                        |i: int| data.documents@[i].0,
                    )
                    &&& r.documents() == Seq::new(
                        data.documents@.len(),
                        |i: int| data.documents@[i].1@,
                    )
                } else {
                    &&& r.next() == 0
                    &&& r.documents() == Seq::<DocumentView>::empty()
                },
                None => r.next() == 0 && r.documents() == Seq::<DocumentView>::empty(),
            },
    {
        match stored {
            None => HnswVectorStore::empty(storage_path),
            Some(data) => {
                let next_id = data.next_id;
                let mut entries = data.documents;
                let ghost all = entries@;
                let mut ids_rev: Vec<usize> = Vec::new();
                let mut docs_rev: Vec<Document> = Vec::new();
                // The entries are taken from the end; each is held against
                // those taken before it.
                while entries.len() > 0
                    invariant
                        stored == Some(data),
                        all == data.documents@,
                        next_id == data.next_id,
                        entries@.len() + ids_rev@.len() == all.len(),
                        ids_rev@.len() == docs_rev@.len(),
                        forall|k: int| 0 <= k < entries@.len() ==> #[trigger] entries@[k] == all[k],
                        forall|k: int|
                            0 <= k < ids_rev@.len() ==> #[trigger] ids_rev@[k] == all[all.len() - 1
                                - k].0,
                        forall|k: int|
                            0 <= k < docs_rev@.len() ==> (#[trigger] docs_rev@[k])@ == all[all.len()
                                - 1 - k].1@,
                        forall|i: int, j: int|
                            entries@.len() <= i < j < all.len() ==> all[i].0 != all[j].0,
                        forall|i: int, j: int|
                            entries@.len() <= i < j < all.len() ==> all[i].1@.id != all[j].1@.id,
                        forall|i: int|
                            entries@.len() <= i < all.len() ==> (#[trigger] all[i]).0 < next_id,
                    decreases entries@.len(),
                {
                    let ghost at = entries@.len() - 1;
                    let (id, doc) = entries.pop().unwrap();
                    let ghost docs_views = doc_views(docs_rev@);
                    let dup_id = index_of_slot(&ids_rev, id).is_some();
                    let dup_doc = index_of_id(&docs_rev, doc.id.as_str()).is_some();
                    if id >= next_id || dup_id || dup_doc {
                        proof {
                            lemma_slot_index(ids_rev@, id as int);
                            lemma_position_of(docs_views, doc@.id);
                            if id >= next_id {
                                assert(all[at].0 >= next_id);
                            } else if dup_id {
                                let k = slot_index(ids_rev@, id as int)->0;
                                assert(ids_rev@[k] == all[all.len() - 1 - k].0);
                                assert(all[at].0 == all[all.len() - 1 - k].0);
                            } else {
                                let k = position_of(docs_views, doc@.id)->0;
                                assert(docs_views[k] == docs_rev@[k]@);
                                assert(all[at].1@.id == all[all.len() - 1 - k].1@.id);
                            }
                            assert(!sound(all, next_id));
                        }
                        return HnswVectorStore::empty(storage_path);
                    }
                    proof {
                        lemma_slot_index(ids_rev@, id as int);
                        lemma_position_of(docs_views, doc@.id);
                        assert forall|i: int, j: int| at <= i < j < all.len() implies all[i].0
                            != all[j].0 by {
                            if i == at {
                                let k = all.len() - 1 - j;
                                assert(ids_rev@[k] == all[j].0);
                            }
                        }
                        assert forall|i: int, j: int| at <= i < j < all.len() implies all[i].1@.id
                            != all[j].1@.id by {
                            if i == at {
                                let k = all.len() - 1 - j;
                                assert(docs_views[k] == docs_rev@[k]@);
                                assert(docs_rev@[k]@ == all[j].1@);
                            }
                        }
                    }
                    ids_rev.push(id);
                    docs_rev.push(doc);
                }
                assert(sound(all, next_id));
                let mut ids: Vec<usize> = Vec::new();
                let mut documents: Vec<Document> = Vec::new();
                while ids_rev.len() > 0
                    invariant
                        ids_rev@.len() == docs_rev@.len(),
                        ids@.len() == documents@.len(),
                        ids@.len() + ids_rev@.len() == all.len(),
                        forall|k: int|
                            0 <= k < ids_rev@.len() ==> #[trigger] ids_rev@[k] == all[all.len() - 1
                                - k].0,
                        forall|k: int|
                            0 <= k < docs_rev@.len() ==> (#[trigger] docs_rev@[k])@ == all[all.len()
                                - 1 - k].1@,
                        forall|k: int| 0 <= k < ids@.len() ==> #[trigger] ids@[k] == all[k].0,
                        forall|k: int|
                            0 <= k < documents@.len() ==> (#[trigger] documents@[k])@ == all[k].1@,
                    decreases ids_rev@.len(),
                {
                    let id = ids_rev.pop().unwrap();
                    let doc = docs_rev.pop().unwrap();
                    ids.push(id);
                    documents.push(doc);
                }
                let r = HnswVectorStore {
                    ids,
                    documents,
                    next_id,
                    storage_path: string_of(&chars_of(storage_path)),
                };
                proof {
                    assert(r.numbers() =~= Seq::new(all.len(), |i: int| all[i].0));
                    assert(r.documents() =~= Seq::new(all.len(), |i: int| all[i].1@));
                    let d = doc_views(r.documents@);
                    assert forall|i: int, j: int| 0 <= i < j < d.len() implies d[i].id
                        != d[j].id by {
                        assert(d[i] == all[i].1@);
                        assert(d[j] == all[j].1@);
                    }
                    assert forall|i: int| 0 <= i < r.ids@.len() implies (#[trigger] r.ids@[i])
                        < r.next_id by {
                        assert(r.ids@[i] == all[i].0);
                    }
                }
                r
            },
        }
    }

    /// What is written to the file of the store: the documents under their
    /// internal numbers, and the number that the next new document gets.
    pub fn stored_data(&self) -> (r: StoredData)
        requires
            self.wf(),
        ensures
            r.next_id == self.next(),
            r.documents@.len() == self.documents().len(),
            forall|i: int|
                0 <= i < r.documents@.len() ==> (#[trigger] r.documents@[i]).0 == self.numbers()[i]
                    && r.documents@[i].1@ == self.documents()[i],
            sound(r.documents@, r.next_id),
    {
        let mut out: Vec<(usize, Document)> = Vec::new();
        let mut i: usize = 0;
        while i < self.documents.len()
            invariant
                i <= self.documents.len(),
                self.ids@.len() == self.documents@.len(),
                out@.len() == i,
                forall|k: int|
                    0 <= k < i ==> (#[trigger] out@[k]).0 == self.ids@[k] && out@[k].1@
                        == self.documents@[k]@,
            decreases self.documents.len() - i,
        {
            out.push((self.ids[i], self.documents[i].duplicate()));
            i += 1;
        }
        proof {
            let d = doc_views(self.documents@);
            assert forall|a: int, b: int| 0 <= a < b < out@.len() implies out@[a].1@.id
                != out@[b].1@.id by {
                assert(d[a] == self.documents@[a]@);
                assert(d[b] == self.documents@[b]@);
            }
        }
        StoredData { documents: out, next_id: self.next_id }
    }

    /// The slot of a document is its internal number.
    pub proof fn lemma_slots(&self)
        ensures
            self.table() == numbered(self.numbers(), self.documents()),
    {
    }
}

impl VectorStore for HnswVectorStore {
    closed spec fn wf(&self) -> bool {
        &&& self.ids@.len() == self.documents@.len()
        &&& unique_ids(doc_views(self.documents@))
        &&& distinct(self.ids@)
        &&& forall|i: int| 0 <= i < self.ids@.len() ==> (#[trigger] self.ids@[i]) < self.next_id
    }

    closed spec fn documents(&self) -> Seq<DocumentView> {
        doc_views(self.documents@)
    }

    closed spec fn table(&self) -> Table {
        numbered(self.ids@, doc_views(self.documents@))
    }

    closed spec fn has_room(&self, id: Seq<char>) -> bool {
        find_doc(doc_views(self.documents@), id).is_some() || self.next_id < usize::MAX
    }

    closed spec fn spare(&self) -> nat {
        (usize::MAX - self.next_id) as nat
    }

    closed spec fn location(&self) -> Seq<char> {
        self.storage_path@
    }

    open spec fn kind(&self) -> Seq<char> {
        "HNSW (Approximate)"@
    }

    proof fn lemma_wf(&self) {
        let d = self.documents();
        assert forall|slot: int| (#[trigger] self.table()(slot)).is_some() implies d.contains(
            self.table()(slot)->0,
        ) by {
            lemma_slot_index(self.ids@, slot);
            let i = slot_index(self.ids@, slot)->0;
            assert(d[i] == self.table()(slot)->0);
        }
        assert forall|k: int| 0 <= k < d.len() implies self.has_room((#[trigger] d[k]).id) by {
            lemma_position_unique(d, k);
        }
    }

    fn can_add(&self, id: &str) -> (r: bool) {
        index_of_id(&self.documents, id).is_some() || self.next_id < usize::MAX
    }

    fn room_left(&self) -> (r: usize) {
        usize::MAX - self.next_id
    }

    fn add_document(&mut self, doc: Document) -> (slot: usize)
        ensures
            final(self).documents() == put(old(self).documents(), doc@),
            final(self).next() == if find_doc(old(self).documents(), doc@.id).is_some() {
                old(self).next()
            } else {
                (old(self).next() + 1) as usize
            },
            find_doc(old(self).documents(), doc@.id).is_none() ==> slot == old(self).next(),
    {
        let ghost before = doc_views(self.documents@);
        let ghost ids_before = self.ids@;
        proof {
            lemma_put(before, doc@);
            lemma_position_of(before, doc@.id);
        }
        match index_of_id(&self.documents, doc.id.as_str()) {
            Some(i) => {
                let slot = self.ids[i];
                self.documents.set(i, doc);
                proof {
                    assert(doc_views(self.documents@) =~= before.update(i as int, doc@));
                    lemma_slot_unique(self.ids@, i as int);
                }
                slot
            },
            None => {
                let slot = self.next_id;
                self.next_id = self.next_id + 1;
                self.ids.push(slot);
                self.documents.push(doc);
                proof {
                    assert(doc_views(self.documents@) =~= before.push(doc@));
                    assert forall|a: int, b: int| 0 <= a < b < self.ids@.len() implies self.ids@[a]
                        != self.ids@[b] by {
                        assert(self.ids@[a] == ids_before[a]);
                        if b < ids_before.len() {
                            assert(self.ids@[b] == ids_before[b]);
                        }
                    }
                    assert forall|i: int| 0 <= i < self.ids@.len() implies (#[trigger] self.ids@[i])
                        < self.next_id by {
                        if i < ids_before.len() {
                            assert(self.ids@[i] == ids_before[i]);
                        }
                    }
                    lemma_slot_unique(self.ids@, ids_before.len() as int);
                    assert(before.len() == 0 ==> before.push(doc@) =~= seq![doc@]);
                }
                slot
            },
        }
    }

    fn search(
        &self,
        candidates: &Vec<Candidate>,
        user_id: &str,
        top_k: usize,
        min_threshold: Score,
    ) -> (r: Vec<(Document, Score)>) {
        let ghost table = self.table();
        let mut pool: Vec<Candidate> = Vec::new();
        let mut i: usize = 0;
        assert(candidates@.subrange(0, 0) =~= Seq::<Candidate>::empty());
        while i < candidates.len()
            invariant
                i <= candidates.len(),
                self.ids@.len() == self.documents@.len(),
                table == numbered(self.ids@, doc_views(self.documents@)),
                pool@ == eligible_among(
                    table,
                    candidates@.subrange(0, i as int),
                    user_id@,
                    min_threshold,
                ),
            decreases candidates.len() - i,
        {
            let c = candidates[i];
            proof {
                assert(candidates@.subrange(0, i + 1).drop_last() =~= candidates@.subrange(
                    0,
                    i as int,
                ));
                assert(candidates@.subrange(0, i + 1).last() == c);
            }
            let keep = match index_of_slot(&self.ids, c.slot) {
                Some(at) => self.documents[at].user_id.as_str().eq(user_id) && c.similarity
                    >= min_threshold,
                None => false,
            };
            if keep {
                pool.push(c);
            }
            i += 1;
        }
        assert(candidates@.subrange(0, candidates.len() as int) =~= candidates@);
        let top = rank_top(pool, top_k);
        proof {
            lemma_chosen(table, candidates@, user_id@, top_k as nat, min_threshold);
        }
        let ghost want = search_hits(table, candidates@, user_id@, top_k as nat, min_threshold);
        let mut out: Vec<(Document, Score)> = Vec::new();
        let mut j: usize = 0;
        while j < top.len()
            invariant
                j <= top.len(),
                self.ids@.len() == self.documents@.len(),
                table == numbered(self.ids@, doc_views(self.documents@)),
                top@ == chosen(table, candidates@, user_id@, top_k as nat, min_threshold),
                want == search_hits(table, candidates@, user_id@, top_k as nat, min_threshold),
                forall|k: int|
                    0 <= k < top@.len() ==> is_eligible(
                        table,
                        #[trigger] top@[k],
                        user_id@,
                        min_threshold,
                    ),
                out@.len() == j,
                forall|k: int|
                    0 <= k < j ==> (#[trigger] out@[k]).0@ == want[k].0 && out@[k].1 == want[k].1,
            decreases top.len() - j,
        {
            let c = top[j];
            assert(is_eligible(table, top@[j as int], user_id@, min_threshold));
            match index_of_slot(&self.ids, c.slot) {
                Some(at) => {
                    out.push((self.documents[at].duplicate(), c.similarity));
                },
                None => {
                    assert(false);
                },
            }
            j += 1;
        }
        assert(hit_views(out@) =~= want);
        out
    }

    fn get_all(&self) -> (r: Vec<Document>) {
        duplicate_all(&self.documents)
    }

    fn count(&self) -> (r: usize) {
        self.documents.len()
    }

    fn clear(&mut self)
        ensures
            final(self).next() == 0,
    {
        self.ids.clear();
        self.documents.clear();
        self.next_id = 0;
        assert(doc_views(self.documents@) =~= Seq::<DocumentView>::empty());
    }

    fn contains(&self, id: &str) -> (r: bool) {
        index_of_id(&self.documents, id).is_some()
    }

    fn slot_of(&self, id: &str) -> (r: Option<usize>) {
        match index_of_id(&self.documents, id) {
            Some(i) => {
                proof {
                    lemma_slot_unique(self.ids@, i as int);
                }
                Some(self.ids[i])
            },
            None => None,
        }
    }

    fn remove_document(&mut self, id: &str)
        ensures
            final(self).documents() == removed(old(self).documents(), id@),
            final(self).next() == old(self).next(),
    {
        let ghost before = doc_views(self.documents@);
        let ghost ids_before = self.ids@;
        proof {
            lemma_removed(before, id@);
            lemma_position_of(before, id@);
        }
        match index_of_id(&self.documents, id) {
            Some(i) => {
                self.documents.remove(i);
                self.ids.remove(i);
                proof {
                    assert(doc_views(self.documents@) =~= before.remove(i as int));
                    assert forall|a: int, b: int| 0 <= a < b < self.ids@.len() implies self.ids@[a]
                        != self.ids@[b] by {
                        let a0 = if a < i {
                            a
                        } else {
                            a + 1
                        };
                        let b0 = if b < i {
                            b
                        } else {
                            b + 1
                        };
                        assert(self.ids@[a] == ids_before[a0]);
                        assert(self.ids@[b] == ids_before[b0]);
                    }
                    assert forall|k: int| 0 <= k < self.ids@.len() implies (#[trigger] self.ids@[k])
                        < self.next_id by {
                        let k0 = if k < i {
                            k
                        } else {
                            k + 1
                        };
                        assert(self.ids@[k] == ids_before[k0]);
                    }
                }
            },
            None => {},
        }
    }

    fn get_documents_by_metadata(&self, key: &str, value: &str) -> (r: Vec<Document>) {
        select_by_metadata(&self.documents, key, value)
    }

    fn get_stats(&self, file_size_bytes: u64) -> (r: StoreStats) {
        stats_of(&self.documents, file_size_bytes)
    }

    fn storage_path(&self) -> (r: String) {
        self.storage_path.clone()
    }

    fn store_type(&self) -> (r: String) {
        string_of(&chars_of("HNSW (Approximate)"))
    }
}

} // verus!

//! The interface of a vector store, the ranking that every store shares, and
//! the exact store that keeps its documents in a list.

use crate::rag::document::{removed, doc_views, find_doc, index_of_id, lemma_position_of, lemma_removed, lemma_upserted, lemma_upserted_all_identity, lemma_upserted_all_unique, lookup, unique_ids, upserted, upserted_all, Document, DocumentView, Score};
use crate::text::{chars_of, same_chars, string_of};
use vstd::prelude::*;
use vstd::utf8::encode_utf8;

verus! {

// ---------------------------------------------------------------------------
// Ranking
// ---------------------------------------------------------------------------

/// A stored vector that is near the query: the slot the store keeps it in, and
/// how similar it is to the query.
#[derive(Clone, Copy, Debug, PartialEq, Eq, Structural)]
pub struct Candidate {
    pub slot: usize,
    pub similarity: Score,
}

/// The index of the most similar candidate; the first of them where several
/// are equally similar.
pub open spec fn best_index(c: Seq<Candidate>) -> int
    decreases c.len(),
{
    if c.len() <= 1 {
        0
    } else {
        let b = best_index(c.drop_last());
        if c.last().similarity > c[b].similarity {
            c.len() - 1
        } else {
            b
        }
    }
}

/// The candidates from the most similar down; equally similar candidates keep
/// the order they came in.
pub open spec fn ranked(c: Seq<Candidate>) -> Seq<Candidate>
    decreases c.len(),
    via ranked_decreases
{
    if c.len() == 0 {
        Seq::empty()
    } else {
        seq![c[best_index(c)]] + ranked(c.remove(best_index(c)))
    }
}

#[via_fn]
proof fn ranked_decreases(c: Seq<Candidate>) {
    if c.len() > 0 {
        lemma_best_index(c);
    }
}

/// The first `top_k` elements, or all of them where `top_k` is zero.
pub open spec fn capped<T>(s: Seq<T>, top_k: nat) -> Seq<T> {
    if top_k == 0 || top_k >= s.len() {
        s
    } else {
        s.subrange(0, top_k as int)
    }
}

/// The best index is an index, nothing is more similar than the candidate it
/// holds, and everything before it is less similar.
pub proof fn lemma_best_index(c: Seq<Candidate>)
    requires
        c.len() > 0,
    ensures
        0 <= best_index(c) < c.len(),
        forall|j: int|
            0 <= j < c.len() ==> (#[trigger] c[j]).similarity <= c[best_index(c)].similarity,
        forall|j: int|
            0 <= j < best_index(c) ==> (#[trigger] c[j]).similarity < c[best_index(c)].similarity,
    decreases c.len(),
{
    if c.len() > 1 {
        let init = c.drop_last();
        lemma_best_index(init);
        let b = best_index(init);
        assert(init[b] == c[b]);
        assert forall|j: int| 0 <= j < c.len() implies (#[trigger] c[j]).similarity <= c[best_index(
            c,
        )].similarity by {
            if j < init.len() {
                assert(init[j] == c[j]);
            }
        }
        assert forall|j: int| 0 <= j < best_index(c) implies (#[trigger] c[j]).similarity
            < c[best_index(c)].similarity by {
            assert(init[j] == c[j]);
        }
    }
}

/// Ranking keeps the number of candidates.
pub proof fn lemma_ranked_len(c: Seq<Candidate>)
    ensures
        ranked(c).len() == c.len(),
    decreases c.len(),
{
    if c.len() > 0 {
        lemma_best_index(c);
        lemma_ranked_len(c.remove(best_index(c)));
    }
}

/// Whatever holds of every candidate holds of every ranked candidate.
pub proof fn lemma_ranked_keeps(c: Seq<Candidate>, p: spec_fn(Candidate) -> bool)
    requires
        forall|i: int| 0 <= i < c.len() ==> p(#[trigger] c[i]),
    ensures
        forall|i: int| 0 <= i < ranked(c).len() ==> p(#[trigger] ranked(c)[i]),
    decreases c.len(),
{
    if c.len() > 0 {
        lemma_best_index(c);
        let b = best_index(c);
        let rest = c.remove(b);
        assert forall|i: int| 0 <= i < rest.len() implies p(#[trigger] rest[i]) by {
            if i < b {
                assert(rest[i] == c[i]);
            } else {
                assert(rest[i] == c[i + 1]);
            }
        }
        lemma_ranked_keeps(rest, p);
        assert(p(c[b]));
        assert forall|i: int| 0 <= i < ranked(c).len() implies p(#[trigger] ranked(c)[i]) by {
            if i > 0 {
                assert(ranked(c)[i] == ranked(rest)[i - 1]);
            }
        }
    }
}

/// Ranked candidates come in descending order of similarity.
pub proof fn lemma_ranked_descending(c: Seq<Candidate>)
    ensures
        forall|i: int, j: int|
            0 <= i < j < ranked(c).len() ==> ranked(c)[i].similarity >= ranked(c)[j].similarity,
    decreases c.len(),
{
    if c.len() > 0 {
        lemma_best_index(c);
        let b = best_index(c);
        let rest = c.remove(b);
        let top = c[b].similarity;
        lemma_ranked_descending(rest);
        let below = |x: Candidate| x.similarity <= top;
        assert forall|i: int| 0 <= i < rest.len() implies below(#[trigger] rest[i]) by {
            if i < b {
                assert(rest[i] == c[i]);
            } else {
                assert(rest[i] == c[i + 1]);
            }
        }
        lemma_ranked_keeps(rest, below);
        assert forall|i: int, j: int| 0 <= i < j < ranked(c).len() implies ranked(c)[i].similarity
            >= ranked(c)[j].similarity by {
            assert(ranked(c)[j] == ranked(rest)[j - 1]);
            if i == 0 {
                assert(below(ranked(rest)[j - 1]));
            } else {
                assert(ranked(c)[i] == ranked(rest)[i - 1]);
            }
        }
    }
}

/// Ranking neither loses a candidate nor makes one up: the ranked candidates
/// are the candidates, each as often as it came in.
pub proof fn lemma_ranked_permutes(c: Seq<Candidate>)
    ensures
        ranked(c).to_multiset() == c.to_multiset(),
    decreases c.len(),
{
    if c.len() == 0 {
        assert(ranked(c) =~= c);
    } else {
        lemma_best_index(c);
        let b = best_index(c);
        let rest = c.remove(b);
        lemma_ranked_permutes(rest);
        vstd::seq_lib::to_multiset_remove(c, b);
        vstd::seq_lib::to_multiset_insert(ranked(rest), 0, c[b]);
        assert(ranked(rest).insert(0, c[b]) =~= seq![c[b]] + ranked(rest));
        assert(c.to_multiset().count(c[b]) > 0) by {
            vstd::seq_lib::to_multiset_contains(c, c[b]);
            assert(c.contains(c[b]));
        }
        assert(c.to_multiset().remove(c[b]).insert(c[b]) =~= c.to_multiset());
    }
}

/// Takes the most similar candidate out of the pool.
fn take_best(pool: &mut Vec<Candidate>) -> (best: Candidate)
    requires
        old(pool)@.len() > 0,
    ensures
        best == old(pool)@[best_index(old(pool)@)],
        final(pool)@ == old(pool)@.remove(best_index(old(pool)@)),
{
    let mut b: usize = 0;
    let mut i: usize = 1;
    while i < pool.len()
        invariant
            1 <= i <= pool.len(),
            0 <= b < i,
            pool@ == old(pool)@,
            b == best_index(pool@.subrange(0, i as int)),
        decreases pool.len() - i,
    {
        assert(pool@.subrange(0, i + 1).drop_last() =~= pool@.subrange(0, i as int));
        if pool[i].similarity > pool[b].similarity {
            b = i;
        }
        i += 1;
    }
    assert(pool@.subrange(0, pool.len() as int) =~= pool@);
    pool.remove(b)
}

/// Ranks the candidates and keeps the first `top_k`, or all of them where
/// `top_k` is zero.
pub fn rank_top(pool: Vec<Candidate>, top_k: usize) -> (out: Vec<Candidate>)
    ensures
        out@ == capped(ranked(pool@), top_k as nat),
{
    let ghost all = pool@;
    let mut pool = pool;
    let limit: usize = if top_k == 0 || top_k >= pool.len() {
        pool.len()
    } else {
        top_k
    };
    let mut out: Vec<Candidate> = Vec::new();
    proof {
        lemma_ranked_len(all);
        assert(out@ + ranked(pool@) =~= ranked(all));
    }
    while out.len() < limit
        invariant
            out@.len() <= limit <= all.len(),
            out@.len() + pool@.len() == all.len(),
            out@ + ranked(pool@) == ranked(all),
        decreases limit - out@.len(),
    {
        let ghost before = out@;
        let ghost rest = pool@;
        proof {
            lemma_best_index(rest);
        }
        let best = take_best(&mut pool);
        out.push(best);
        assert(before + (seq![best] + ranked(pool@)) =~= before.push(best) + ranked(pool@));
    }
    proof {
        lemma_ranked_len(all);
        lemma_ranked_len(pool@);
        assert(out@ =~= ranked(all).subrange(0, limit as int));
        assert(ranked(all).subrange(0, all.len() as int) =~= ranked(all));
    }
    out
}

// ---------------------------------------------------------------------------
// Search
// ---------------------------------------------------------------------------

/// The document a store keeps in a slot, if it keeps one there.
pub type Table = spec_fn(int) -> Option<DocumentView>;

/// A candidate that may be returned: its slot holds a document of the asking
/// user, and it is at least as similar as the threshold asks.
pub open spec fn is_eligible(table: Table, c: Candidate, user_id: Seq<char>, threshold: Score) -> bool {
    match table(c.slot as int) {
        Some(d) => d.user_id == user_id && c.similarity >= threshold,
        None => false,
    }
}

/// The eligible candidates, in the order they came in.
pub open spec fn eligible_among(
    table: Table,
    cands: Seq<Candidate>,
    user_id: Seq<char>,
    threshold: Score,
) -> Seq<Candidate>
    decreases cands.len(),
{
    if cands.len() == 0 {
        Seq::empty()
    } else {
        let rest = eligible_among(table, cands.drop_last(), user_id, threshold);
        if is_eligible(table, cands.last(), user_id, threshold) {
            rest.push(cands.last())
        } else {
            rest
        }
    }
}

/// The candidates a search returns: the eligible ones, ranked, capped.
pub open spec fn chosen(
    table: Table,
    cands: Seq<Candidate>,
    user_id: Seq<char>,
    top_k: nat,
    threshold: Score,
) -> Seq<Candidate> {
    capped(ranked(eligible_among(table, cands, user_id, threshold)), top_k)
}

/// What a search returns: for each chosen candidate the document in its slot
/// and its similarity.
pub open spec fn search_hits(
    table: Table,
    cands: Seq<Candidate>,
    user_id: Seq<char>,
    top_k: nat,
    threshold: Score,
) -> Seq<(DocumentView, Score)> {
    let c = chosen(table, cands, user_id, top_k, threshold);
    Seq::new(c.len(), |i: int| (table(c[i].slot as int)->0, c[i].similarity))
}

/// The views of what a search returned.
pub open spec fn hit_views(hits: Seq<(Document, Score)>) -> Seq<(DocumentView, Score)> {
    Seq::new(hits.len(), |i: int| (hits[i].0@, hits[i].1))
}

/// Every eligible candidate is eligible.
pub proof fn lemma_eligible_among(
    table: Table,
    cands: Seq<Candidate>,
    user_id: Seq<char>,
    threshold: Score,
)
    ensures
        forall|i: int|
            0 <= i < eligible_among(table, cands, user_id, threshold).len() ==> is_eligible(
                table,
                #[trigger] eligible_among(table, cands, user_id, threshold)[i],
                user_id,
                threshold,
            ),
        eligible_among(table, cands, user_id, threshold).len() <= cands.len(),
    decreases cands.len(),
{
    if cands.len() > 0 {
        lemma_eligible_among(table, cands.drop_last(), user_id, threshold);
    }
}

/// Every chosen candidate is eligible, and no more are chosen than were asked
/// for or came in.
pub proof fn lemma_chosen(
    table: Table,
    cands: Seq<Candidate>,
    user_id: Seq<char>,
    top_k: nat,
    threshold: Score,
)
    ensures
        forall|i: int|
            0 <= i < chosen(table, cands, user_id, top_k, threshold).len() ==> is_eligible(
                table,
                #[trigger] chosen(table, cands, user_id, top_k, threshold)[i],
                user_id,
                threshold,
            ),
        chosen(table, cands, user_id, top_k, threshold).len() <= cands.len(),
        top_k > 0 ==> chosen(table, cands, user_id, top_k, threshold).len() <= top_k,
        forall|i: int, j: int|
            0 <= i < j < chosen(table, cands, user_id, top_k, threshold).len() ==> chosen(
                table,
                cands,
                user_id,
                top_k,
                threshold,
            )[i].similarity >= chosen(table, cands, user_id, top_k, threshold)[j].similarity,
{
    let e = eligible_among(table, cands, user_id, threshold);
    lemma_eligible_among(table, cands, user_id, threshold);
    let p = |c: Candidate| is_eligible(table, c, user_id, threshold);
    assert forall|i: int| 0 <= i < e.len() implies p(#[trigger] e[i]) by {
        assert(is_eligible(table, e[i], user_id, threshold));
    }
    lemma_ranked_keeps(e, p);
    lemma_ranked_len(e);
    lemma_ranked_descending(e);
    let r = ranked(e);
    let c = chosen(table, cands, user_id, top_k, threshold);
    assert forall|i: int| 0 <= i < c.len() implies is_eligible(
        table,
        #[trigger] c[i],
        user_id,
        threshold,
    ) by {
        assert(c[i] == r[i]);
        assert(p(r[i]));
    }
    assert forall|i: int, j: int| 0 <= i < j < c.len() implies c[i].similarity
        >= c[j].similarity by {
        assert(c[i] == r[i]);
        assert(c[j] == r[j]);
    }
}

/// Every document a search returns belongs to the asking user and is at least
/// as similar as the threshold asks; the results come in descending order of
/// similarity; and there are at most `top_k` of them unless `top_k` is zero.
pub proof fn lemma_search_hits(
    table: Table,
    cands: Seq<Candidate>,
    user_id: Seq<char>,
    top_k: nat,
    threshold: Score,
)
    ensures
        forall|i: int|
            0 <= i < search_hits(table, cands, user_id, top_k, threshold).len() ==> {
                &&& (#[trigger] search_hits(table, cands, user_id, top_k, threshold)[i]).0.user_id
                    == user_id
                &&& search_hits(table, cands, user_id, top_k, threshold)[i].1 >= threshold
            },
        forall|i: int, j: int|
            0 <= i < j < search_hits(table, cands, user_id, top_k, threshold).len()
                ==> search_hits(table, cands, user_id, top_k, threshold)[i].1 >= search_hits(
                table,
                cands,
                user_id,
                top_k,
                threshold,
            )[j].1,
        top_k > 0 ==> search_hits(table, cands, user_id, top_k, threshold).len() <= top_k,
{
    lemma_chosen(table, cands, user_id, top_k, threshold);
    let c = chosen(table, cands, user_id, top_k, threshold);
    let h = search_hits(table, cands, user_id, top_k, threshold);
    assert forall|i: int| 0 <= i < h.len() implies (#[trigger] h[i]).0.user_id == user_id && h[i].1
        >= threshold by {
        assert(is_eligible(table, c[i], user_id, threshold));
    }
}

// ---------------------------------------------------------------------------
// Statistics
// ---------------------------------------------------------------------------

/// How many documents there are of each type, in the order in which the types
/// first occur.
pub type Tally = Seq<(Seq<char>, nat)>;

/// The type of a document: what its metadata records under `type`, and
/// `unknown` where it records nothing.
pub open spec fn doc_type(d: DocumentView) -> Seq<char> {
    match lookup(d.metadata, "type"@) {
        Some(t) => t,
        None => "unknown"@,
    }
}

/// The index of the entry for `name`, if there is one.
pub open spec fn tally_index(t: Tally, name: Seq<char>) -> Option<int>
    decreases t.len(),
{
    if t.len() == 0 {
        None
    } else if t.last().0 == name {
        Some(t.len() - 1)
    } else {
        tally_index(t.drop_last(), name)
    }
}

/// The tally with one more document of type `name`.
pub open spec fn tallied(t: Tally, name: Seq<char>) -> Tally {
    match tally_index(t, name) {
        Some(i) => t.update(i, (name, t[i].1 + 1)),
        None => t.push((name, 1)),
    }
}

/// The tally of the types of `docs`.
pub open spec fn type_counts(docs: Seq<DocumentView>) -> Tally
    decreases docs.len(),
{
    if docs.len() == 0 {
        Seq::empty()
    } else {
        tallied(type_counts(docs.drop_last()), doc_type(docs.last()))
    }
}

/// The number of bytes that the contents of `docs` take in UTF-8.
pub open spec fn content_bytes(docs: Seq<DocumentView>) -> nat
    decreases docs.len(),
{
    if docs.len() == 0 {
        0
    } else {
        content_bytes(docs.drop_last()) + encode_utf8(docs.last().content).len()
    }
}

/// `n`, or the greatest `usize` where `n` is greater.
pub open spec fn saturated(n: nat) -> usize {
    if n > usize::MAX {
        usize::MAX
    } else {
        n as usize
    }
}

/// The number of components of the embedding of the last document; zero
/// where there is no document.
pub open spec fn last_dimensions(docs: Seq<DocumentView>) -> nat {
    if docs.len() == 0 {
        0
    } else {
        docs.last().embedding.len()
    }
}

/// The model of a tally held in a vector.
pub open spec fn tally_view(t: Seq<(String, usize)>) -> Tally {
    Seq::new(t.len(), |i: int| (t[i].0@, t[i].1 as nat))
}

/// Figures about the documents of a store.
#[derive(Clone, Debug)]
pub struct StoreStats {
    pub document_count: usize,
    pub docs_by_type: Vec<(String, usize)>,
    pub total_content_bytes: usize,
    pub embedding_dimensions: usize,
    pub file_size_bytes: u64,
}

impl Default for StoreStats {
    fn default() -> (r: Self)
        ensures
            r.document_count == 0,
            r.docs_by_type@.len() == 0,
            r.total_content_bytes == 0,
            r.embedding_dimensions == 0,
            r.file_size_bytes == 0,
    {
        StoreStats {
            document_count: 0,
            docs_by_type: Vec::new(),
            total_content_bytes: 0,
            embedding_dimensions: 0,
            file_size_bytes: 0,
        }
    }
}

/// The figures for `docs` and a file of `file_size_bytes` bytes.
pub open spec fn stats_hold(stats: StoreStats, docs: Seq<DocumentView>, file_size_bytes: u64) -> bool {
    &&& stats.document_count == docs.len()
    &&& tally_view(stats.docs_by_type@) == type_counts(docs)
    &&& stats.total_content_bytes == saturated(content_bytes(docs))
    &&& stats.embedding_dimensions == last_dimensions(docs)
    &&& stats.file_size_bytes == file_size_bytes
}

/// No count of a tally exceeds the number of documents tallied.
pub proof fn lemma_type_counts_bounded(docs: Seq<DocumentView>)
    ensures
        forall|k: int|
            0 <= k < type_counts(docs).len() ==> (#[trigger] type_counts(docs)[k]).1 <= docs.len(),
    decreases docs.len(),
{
    if docs.len() > 0 {
        lemma_type_counts_bounded(docs.drop_last());
        let t = type_counts(docs.drop_last());
        lemma_tally_index(t, doc_type(docs.last()));
    }
}

/// `tally_index` finds an entry for the name, and none exists where it finds
/// none.
pub proof fn lemma_tally_index(t: Tally, name: Seq<char>)
    ensures
        match tally_index(t, name) {
            Some(i) => 0 <= i < t.len() && t[i].0 == name,
            None => forall|k: int| 0 <= k < t.len() ==> (#[trigger] t[k]).0 != name,
        },
    decreases t.len(),
{
    if t.len() > 0 && t.last().0 != name {
        let init = t.drop_last();
        lemma_tally_index(init, name);
        match tally_index(init, name) {
            Some(i) => {
                assert(init[i] == t[i]);
            },
            None => {
                assert forall|k: int| 0 <= k < t.len() implies (#[trigger] t[k]).0 != name by {
                    if k < init.len() {
                        assert(init[k] == t[k]);
                    }
                }
            },
        }
    }
}

/// The index of the entry for `name`.
fn find_tally(t: &Vec<(String, usize)>, name: &Vec<char>) -> (r: Option<usize>)
    ensures
        match r {
            Some(i) => i < t.len() && tally_index(tally_view(t@), name@) == Some(i as int),
            None => tally_index(tally_view(t@), name@).is_none(),
        },
{
    let ghost views = tally_view(t@);
    let mut i: usize = t.len();
    assert(views.subrange(0, i as int) =~= views);
    while i > 0
        invariant
            i <= t.len(),
            views == tally_view(t@),
            tally_index(views, name@) == tally_index(views.subrange(0, i as int), name@),
        decreases i,
    {
        i -= 1;
        assert(views.subrange(0, i + 1).drop_last() =~= views.subrange(0, i as int));
        assert(views.subrange(0, i + 1).last() == views[i as int]);
        let here = chars_of(t[i].0.as_str());
        if same_chars(&here, name) {
            return Some(i);
        }
    }
    None
}

/// The type of a document.
fn type_of(doc: &Document) -> (r: Vec<char>)
    ensures
        r@ == doc_type(doc@),
{
    match doc.metadata.get("type") {
        Some(t) => chars_of(t.as_str()),
        None => chars_of("unknown"),
    }
}

/// Tallies the types of the documents.
pub fn count_by_type(docs: &Vec<Document>) -> (r: Vec<(String, usize)>)
    ensures
        tally_view(r@) == type_counts(doc_views(docs@)),
{
    let ghost views = doc_views(docs@);
    let mut t: Vec<(String, usize)> = Vec::new();
    let mut i: usize = 0;
    assert(views.subrange(0, 0) =~= Seq::<DocumentView>::empty());
    assert(tally_view(t@) =~= Seq::<(Seq<char>, nat)>::empty());
    while i < docs.len()
        invariant
            i <= docs.len(),
            views == doc_views(docs@),
            tally_view(t@) == type_counts(views.subrange(0, i as int)),
        decreases docs.len() - i,
    {
        let name = type_of(&docs[i]);
        let ghost before = tally_view(t@);
        proof {
            assert(views.subrange(0, i + 1).drop_last() =~= views.subrange(0, i as int));
            assert(views.subrange(0, i + 1).last() == docs@[i as int]@);
            lemma_type_counts_bounded(views.subrange(0, i as int));
        }
        match find_tally(&t, &name) {
            Some(k) => {
                proof {
                    lemma_tally_index(before, name@);
                }
                assert(before[k as int].1 <= i);
                let ghost held = t@;
                let (label, n) = t.remove(k);
                assert(label@ == before[k as int].0);
                t.insert(k, (label, n + 1));
                assert(tally_view(t@) =~= before.update(k as int, (name@, before[k as int].1 + 1)));
            },
            None => {
                t.push((string_of(&name), 1));
                assert(tally_view(t@) =~= before.push((name@, 1nat)));
            },
        }
        i += 1;
    }
    assert(views.subrange(0, docs.len() as int) =~= views);
    t
}

/// The bytes of the contents of the documents, added up.
pub fn total_content_bytes(docs: &Vec<Document>) -> (r: usize)
    ensures
        r == saturated(content_bytes(doc_views(docs@))),
{
    let ghost views = doc_views(docs@);
    let mut total: usize = 0;
    let mut i: usize = 0;
    assert(views.subrange(0, 0) =~= Seq::<DocumentView>::empty());
    while i < docs.len()
        invariant
            i <= docs.len(),
            views == doc_views(docs@),
            total == saturated(content_bytes(views.subrange(0, i as int))),
        decreases docs.len() - i,
    {
        proof {
            assert(views.subrange(0, i + 1).drop_last() =~= views.subrange(0, i as int));
            assert(views.subrange(0, i + 1).last() == docs@[i as int]@);
        }
        let n: usize = docs[i].content.as_str().as_bytes().len();
        total = total.saturating_add(n);
        i += 1;
    }
    assert(views.subrange(0, docs.len() as int) =~= views);
    total
}

/// The figures for the documents.
pub fn stats_of(docs: &Vec<Document>, file_size_bytes: u64) -> (r: StoreStats)
    ensures
        stats_hold(r, doc_views(docs@), file_size_bytes),
{
    let dims: usize = if docs.len() == 0 {
        0
    } else {
        docs[docs.len() - 1].embedding.len()
    };
    StoreStats {
        document_count: docs.len(),
        docs_by_type: count_by_type(docs),
        total_content_bytes: total_content_bytes(docs),
        embedding_dimensions: dims,
        file_size_bytes,
    }
}

// ---------------------------------------------------------------------------
// The interface of a store
// ---------------------------------------------------------------------------

/// The documents whose metadata records `value` under `key`, in order.
pub open spec fn with_metadata(docs: Seq<DocumentView>, key: Seq<char>, value: Seq<char>) -> Seq<
    DocumentView,
>
    decreases docs.len(),
{
    if docs.len() == 0 {
        Seq::empty()
    } else {
        let rest = with_metadata(docs.drop_last(), key, value);
        if lookup(docs.last().metadata, key) == Some(value) {
            rest.push(docs.last())
        } else {
            rest
        }
    }
}

/// What every vector store offers. A store keeps documents with unique ids;
/// each document sits in a slot, by which the nearest-neighbour search of the
/// backend names it.
pub trait VectorStore {
    /// The store is in order.
    spec fn wf(&self) -> bool;

    /// The documents, in the order in which `get_all` lists them.
    spec fn documents(&self) -> Seq<DocumentView>;

    /// The document in each slot.
    spec fn table(&self) -> Table;

    /// Whether a document with this id can be put in: the store has a slot for
    /// it or can make one.
    spec fn has_room(&self, id: Seq<char>) -> bool;

    /// The number of documents with new ids that the store can still take
    /// for certain.
    spec fn spare(&self) -> nat;

    /// Where the store is kept.
    spec fn location(&self) -> Seq<char>;

    /// The name of the kind of store.
    spec fn kind(&self) -> Seq<char>;

    /// A store in order holds no id twice, every slot in use holds one of its
    /// documents, an id it holds can always be put in again, and any id can be
    /// put in while the store has room to spare.
    proof fn lemma_wf(&self)
        requires
            self.wf(),
        ensures
            unique_ids(self.documents()),
            forall|id: Seq<char>| self.spare() > 0 ==> #[trigger] self.has_room(id),
            forall|slot: int|
                (#[trigger] self.table()(slot)).is_some() ==> self.documents().contains(
                    self.table()(slot)->0,
                ),
            forall|k: int|
                0 <= k < self.documents().len() ==> self.has_room(
                    (#[trigger] self.documents()[k]).id,
                ),
    ;

    /// Whether a document with this id can be put in.
    fn can_add(&self, id: &str) -> (r: bool)
        requires
            self.wf(),
        ensures
            r == self.has_room(id@),
    ;

    /// The number of documents with new ids that the store can still take
    /// for certain.
    fn room_left(&self) -> (r: usize)
        requires
            self.wf(),
        ensures
            r == self.spare(),
    ;

    /// Puts a document in, in place of the one that had its id, and returns
    /// its slot.
    fn add_document(&mut self, doc: Document) -> (slot: usize)
        requires
            old(self).wf(),
            old(self).has_room(doc@.id),
        ensures
            final(self).wf(),
            find_doc(final(self).documents(), doc@.id) == Some(doc@),
            forall|other: Seq<char>|
                other != doc@.id ==> find_doc(final(self).documents(), other) == find_doc(
                    old(self).documents(),
                    other,
                ),
            find_doc(old(self).documents(), doc@.id).is_none() ==> final(self).documents() == old(
                self,
            ).documents().push(doc@),
            final(self).documents().len() == old(self).documents().len() + if find_doc(
                old(self).documents(),
                doc@.id,
            ).is_some() {
                0int
            } else {
                1int
            },
            final(self).table()(slot as int) == Some(doc@),
            final(self).location() == old(self).location(),
            final(self).spare() >= old(self).spare() - if find_doc(
                old(self).documents(),
                doc@.id,
            ).is_some() {
                0int
            } else {
                1int
            },
    ;

    /// The documents of the asking user among the candidates, at least as
    /// similar as `min_threshold`, from the most similar down, at most `top_k`
    /// of them; all of them where `top_k` is zero.
    fn search(
        &self,
        candidates: &Vec<Candidate>,
        user_id: &str,
        top_k: usize,
        min_threshold: Score,
    ) -> (r: Vec<(Document, Score)>)
        requires
            self.wf(),
        ensures
            hit_views(r@) == search_hits(
                self.table(),
                candidates@,
                user_id@,
                top_k as nat,
                min_threshold,
            ),
    ;

    /// All documents.
    fn get_all(&self) -> (r: Vec<Document>)
        requires
            self.wf(),
        ensures
            doc_views(r@) == self.documents(),
    ;

    /// The number of documents.
    fn count(&self) -> (r: usize)
        requires
            self.wf(),
        ensures
            r == self.documents().len(),
    ;

    /// Takes every document out.
    fn clear(&mut self)
        requires
            old(self).wf(),
        ensures
            final(self).wf(),
            final(self).documents() == Seq::<DocumentView>::empty(),
            forall|id: Seq<char>| final(self).has_room(id),
            final(self).location() == old(self).location(),
            final(self).spare() == usize::MAX,
    ;

    /// Whether a document has this id.
    fn contains(&self, id: &str) -> (r: bool)
        requires
            self.wf(),
        ensures
            r == find_doc(self.documents(), id@).is_some(),
    ;

    /// The slot of the document with this id, if there is one.
    fn slot_of(&self, id: &str) -> (r: Option<usize>)
        requires
            self.wf(),
        ensures
            match r {
                Some(slot) => find_doc(self.documents(), id@).is_some() && self.table()(
                    slot as int,
                ) == find_doc(self.documents(), id@),
                None => find_doc(self.documents(), id@).is_none(),
            },
    ;

    /// Takes the document with this id out, if there is one.
    fn remove_document(&mut self, id: &str)
        requires
            old(self).wf(),
        ensures
            final(self).wf(),
            find_doc(final(self).documents(), id@).is_none(),
            forall|other: Seq<char>|
                other != id@ ==> find_doc(final(self).documents(), other) == find_doc(
                    old(self).documents(),
                    other,
                ),
            find_doc(old(self).documents(), id@).is_none() ==> final(self).documents() == old(
                self,
            ).documents(),
            final(self).documents().len() == old(self).documents().len() - if find_doc(
                old(self).documents(),
                id@,
            ).is_some() {
                1int
            } else {
                0int
            },
            final(self).location() == old(self).location(),
            final(self).spare() >= old(self).spare(),
    ;

    /// The documents whose metadata records `value` under `key`.
    fn get_documents_by_metadata(&self, key: &str, value: &str) -> (r: Vec<Document>)
        requires
            self.wf(),
        ensures
            doc_views(r@) == with_metadata(self.documents(), key@, value@),
    ;

    /// Figures about the documents; the size of the files that hold the store
    /// is handed in.
    fn get_stats(&self, file_size_bytes: u64) -> (r: StoreStats)
        requires
            self.wf(),
        ensures
            stats_hold(r, self.documents(), file_size_bytes),
    ;

    /// Where the store is kept.
    fn storage_path(&self) -> (r: String)
        ensures
            r@ == self.location(),
    ;

    /// The name of the kind of store.
    fn store_type(&self) -> (r: String)
        ensures
            r@ == self.kind(),
    ;
}

/// The documents of a list whose metadata records `value` under `key`.
pub fn select_by_metadata(docs: &Vec<Document>, key: &str, value: &str) -> (r: Vec<Document>)
    ensures
        doc_views(r@) == with_metadata(doc_views(docs@), key@, value@),
{
    let ghost views = doc_views(docs@);
    let want = chars_of(value);
    let mut out: Vec<Document> = Vec::new();
    let mut i: usize = 0;
    assert(views.subrange(0, 0) =~= Seq::<DocumentView>::empty());
    assert(doc_views(out@) =~= Seq::<DocumentView>::empty());
    while i < docs.len()
        invariant
            i <= docs.len(),
            views == doc_views(docs@),
            want@ == value@,
            doc_views(out@) == with_metadata(views.subrange(0, i as int), key@, value@),
        decreases docs.len() - i,
    {
        proof {
            assert(views.subrange(0, i + 1).drop_last() =~= views.subrange(0, i as int));
            assert(views.subrange(0, i + 1).last() == docs@[i as int]@);
        }
        let ghost before = doc_views(out@);
        let matches = match docs[i].metadata.get(key) {
            Some(v) => same_chars(&chars_of(v.as_str()), &want),
            None => false,
        };
        if matches {
            out.push(docs[i].duplicate());
            assert(doc_views(out@) =~= before.push(docs@[i as int]@));
        }
        i += 1;
    }
    assert(views.subrange(0, docs.len() as int) =~= views);
    out
}

/// A copy of every document of a list.
pub fn duplicate_all(docs: &Vec<Document>) -> (r: Vec<Document>)
    ensures
        doc_views(r@) == doc_views(docs@),
{
    let mut out: Vec<Document> = Vec::new();
    let mut i: usize = 0;
    while i < docs.len()
        invariant
            i <= docs.len(),
            out@.len() == i,
            forall|k: int| 0 <= k < i ==> (#[trigger] out@[k])@ == docs@[k]@,
        decreases docs.len() - i,
    {
        out.push(docs[i].duplicate());
        i += 1;
    }
    assert(doc_views(out@) =~= doc_views(docs@));
    out
}

// ---------------------------------------------------------------------------
// The exact store
// ---------------------------------------------------------------------------

/// The store that keeps its documents in a list and is searched by scanning
/// all of them. The slot of a document is its position in the list.
pub struct LinearVectorStore {
    documents: Vec<Document>,
    storage_path: String,
}

/// The table of a list of documents: each position holds its document.
pub open spec fn positions(docs: Seq<DocumentView>) -> Table {
    |slot: int|
        if 0 <= slot < docs.len() {
            Some(docs[slot])
        } else {
            None
        }
}

/// Puts a document into a list, in place of the one that had its id.
pub fn upsert(docs: &mut Vec<Document>, doc: Document)
    ensures
        doc_views(final(docs)@) == upserted(doc_views(old(docs)@), doc@),
{
    let ghost before = doc_views(docs@);
    match index_of_id(docs, doc.id.as_str()) {
        Some(i) => {
            docs.remove(i);
            assert(doc_views(docs@) =~= before.remove(i as int));
        },
        None => {},
    }
    let ghost mid = doc_views(docs@);
    docs.push(doc);
    assert(doc_views(docs@) =~= mid.push(doc@));
}

/// Puts every document of `batch` into a list, in order.
pub fn upsert_all(docs: &mut Vec<Document>, batch: Vec<Document>)
    ensures
        doc_views(final(docs)@) == upserted_all(doc_views(old(docs)@), doc_views(batch@)),
{
    let ghost all = doc_views(batch@);
    let mut batch = batch;
    let total: usize = batch.len();
    let mut staged: Vec<Document> = Vec::new();
    // The batch is taken from its end, so it is turned round first.
    while batch.len() > 0
        invariant
            staged@.len() + batch@.len() == all.len(),
            forall|k: int| 0 <= k < batch@.len() ==> (#[trigger] batch@[k])@ == all[k],
            forall|k: int|
                0 <= k < staged@.len() ==> (#[trigger] staged@[k])@ == all[all.len() - 1 - k],
        decreases batch@.len(),
    {
        let d = batch.pop().unwrap();
        staged.push(d);
    }
    let mut done: usize = 0;
    assert(all.subrange(0, 0) =~= Seq::<DocumentView>::empty());
    while staged.len() > 0
        invariant
            done + staged@.len() == all.len(),
            total == all.len(),
            forall|k: int|
                0 <= k < staged@.len() ==> (#[trigger] staged@[k])@ == all[all.len() - 1 - k],
            doc_views(docs@) == upserted_all(doc_views(old(docs)@), all.subrange(0, done as int)),
        decreases staged@.len(),
    {
        let d = staged.pop().unwrap();
        proof {
            assert(d@ == all[done as int]);
            assert(all.subrange(0, done + 1).drop_last() =~= all.subrange(0, done as int));
            assert(all.subrange(0, done + 1).last() == all[done as int]);
        }
        upsert(docs, d);
        done += 1;
    }
    assert(all.subrange(0, all.len() as int) =~= all);
}

impl LinearVectorStore {
    /// The store for `storage_path`, filled with the documents that were
    /// read from there; empty where nothing could be read. Where the stored
    /// list holds an id more than once, the last document with it stays.
    pub fn new(storage_path: &str, stored: Option<Vec<Document>>) -> (r: Self)
        ensures
            r.wf(),
            r.documents() == match stored {
                Some(docs) => upserted_all(Seq::empty(), doc_views(docs@)),
                None => Seq::empty(),
            },
            r.location() == storage_path@,
    {
        let mut documents: Vec<Document> = Vec::new();
        assert(doc_views(documents@) =~= Seq::<DocumentView>::empty());
        match stored {
            Some(docs) => {
                proof {
                    lemma_upserted_all_unique(Seq::empty(), doc_views(docs@));
                }
                upsert_all(&mut documents, docs);
            },
            None => {},
        }
        LinearVectorStore { documents, storage_path: string_of(&chars_of(storage_path)) }
    }

    /// The slot of a document is its position among the documents.
    pub proof fn lemma_slots(&self)
        ensures
            self.table() == positions(self.documents()),
    {
    }

    /// Reading back what `get_all` gave restores the documents.
    pub proof fn lemma_reload(&self)
        requires
            self.wf(),
        ensures
            upserted_all(Seq::empty(), self.documents()) == self.documents(),
    {
        lemma_upserted_all_identity(self.documents());
    }
}

impl VectorStore for LinearVectorStore {
    closed spec fn wf(&self) -> bool {
        unique_ids(doc_views(self.documents@))
    }

    closed spec fn documents(&self) -> Seq<DocumentView> {
        doc_views(self.documents@)
    }

    closed spec fn table(&self) -> Table {
        positions(doc_views(self.documents@))
    }

    open spec fn has_room(&self, id: Seq<char>) -> bool {
        true
    }

    open spec fn spare(&self) -> nat {
        usize::MAX as nat
    }

    closed spec fn location(&self) -> Seq<char> {
        self.storage_path@
    }

    open spec fn kind(&self) -> Seq<char> {
        "Linear Scan (Exact)"@
    }

    proof fn lemma_wf(&self) {
        let d = self.documents();
        assert forall|slot: int| (#[trigger] self.table()(slot)).is_some() implies d.contains(
            self.table()(slot)->0,
        ) by {
            assert(d[slot] == self.table()(slot)->0);
        }
    }

    fn can_add(&self, id: &str) -> (r: bool) {
        true
    }

    fn room_left(&self) -> (r: usize) {
        usize::MAX
    }

    fn add_document(&mut self, doc: Document) -> (slot: usize)
        ensures
            final(self).documents() == upserted(old(self).documents(), doc@),
            slot == final(self).documents().len() - 1,
    {
        let ghost before = doc_views(self.documents@);
        proof {
            lemma_upserted(before, doc@);
            lemma_position_of(before, doc@.id);
        }
        upsert(&mut self.documents, doc);
        self.documents.len() - 1
    }

    fn search(
        &self,
        candidates: &Vec<Candidate>,
        user_id: &str,
        top_k: usize,
        min_threshold: Score,
    ) -> (r: Vec<(Document, Score)>) {
        let ghost table = self.table();
        let mut pool: Vec<Candidate> = Vec::new();
        let mut i: usize = 0;
        assert(candidates@.subrange(0, 0) =~= Seq::<Candidate>::empty());
        while i < candidates.len()
            invariant
                i <= candidates.len(),
                table == positions(doc_views(self.documents@)),
                pool@ == eligible_among(
                    table,
                    candidates@.subrange(0, i as int),
                    user_id@,
                    min_threshold,
                ),
            decreases candidates.len() - i,
        {
            let c = candidates[i];
            proof {
                assert(candidates@.subrange(0, i + 1).drop_last() =~= candidates@.subrange(
                    0,
                    i as int,
                ));
                assert(candidates@.subrange(0, i + 1).last() == c);
            }
            if c.slot < self.documents.len() && self.documents[c.slot].user_id.as_str().eq(user_id)
                && c.similarity >= min_threshold {
                pool.push(c);
            }
            i += 1;
        }
        assert(candidates@.subrange(0, candidates.len() as int) =~= candidates@);
        let top = rank_top(pool, top_k);
        proof {
            lemma_chosen(table, candidates@, user_id@, top_k as nat, min_threshold);
        }
        let ghost want = search_hits(table, candidates@, user_id@, top_k as nat, min_threshold);
        let mut out: Vec<(Document, Score)> = Vec::new();
        let mut j: usize = 0;
        while j < top.len()
            invariant
                j <= top.len(),
                table == positions(doc_views(self.documents@)),
                top@ == chosen(table, candidates@, user_id@, top_k as nat, min_threshold),
                want == search_hits(table, candidates@, user_id@, top_k as nat, min_threshold),
                forall|k: int|
                    0 <= k < top@.len() ==> is_eligible(
                        table,
                        #[trigger] top@[k],
                        user_id@,
                        min_threshold,
                    ),
                out@.len() == j,
                forall|k: int|
                    0 <= k < j ==> (#[trigger] out@[k]).0@ == want[k].0 && out@[k].1 == want[k].1,
            decreases top.len() - j,
        {
            let c = top[j];
            assert(is_eligible(table, top@[j as int], user_id@, min_threshold));
            out.push((self.documents[c.slot].duplicate(), c.similarity));
            j += 1;
        }
        assert(hit_views(out@) =~= want);
        out
    }

    fn get_all(&self) -> (r: Vec<Document>) {
        duplicate_all(&self.documents)
    }

    fn count(&self) -> (r: usize) {
        self.documents.len()
    }

    fn clear(&mut self) {
        self.documents.clear();
        assert(doc_views(self.documents@) =~= Seq::<DocumentView>::empty());
    }

    fn contains(&self, id: &str) -> (r: bool) {
        index_of_id(&self.documents, id).is_some()
    }

    fn slot_of(&self, id: &str) -> (r: Option<usize>) {
        index_of_id(&self.documents, id)
    }

    fn remove_document(&mut self, id: &str)
        ensures
            final(self).documents() == removed(old(self).documents(), id@),
    {
        let ghost before = doc_views(self.documents@);
        proof {
            lemma_removed(before, id@);
            lemma_position_of(before, id@);
        }
        match index_of_id(&self.documents, id) {
            Some(i) => {
                self.documents.remove(i);
                assert(doc_views(self.documents@) =~= before.remove(i as int));
            },
            None => {},
        }
    }

    fn get_documents_by_metadata(&self, key: &str, value: &str) -> (r: Vec<Document>) {
        select_by_metadata(&self.documents, key, value)
    }

    fn get_stats(&self, file_size_bytes: u64) -> (r: StoreStats) {
        stats_of(&self.documents, file_size_bytes)
    }

    fn storage_path(&self) -> (r: String) {
        self.storage_path.clone()
    }

    fn store_type(&self) -> (r: String) {
        string_of(&chars_of("Linear Scan (Exact)"))
    }
}

} // verus!

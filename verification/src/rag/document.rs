//! The indexed unit and its metadata.

use crate::text::{chars_of, same_chars, string_of};
use vstd::prelude::*;

verus! {

/// A similarity or a distance, in millionths.
pub type Score = i64;

/// The similarity of a vector to itself.
pub const SCORE_ONE: Score = 1_000_000;

/// The metadata of a document as a list of pairs of key and value, oldest
/// first. Where a key occurs more than once, its last pair counts.
pub type MetadataView = Seq<(Seq<char>, Seq<char>)>;

/// The value recorded for `key`: that of its last pair.
pub open spec fn lookup(m: MetadataView, key: Seq<char>) -> Option<Seq<char>>
    decreases m.len(),
{
    if m.len() == 0 {
        None
    } else if m.last().0 == key {
        Some(m.last().1)
    } else {
        lookup(m.drop_last(), key)
    }
}

/// The views of a list of pairs.
pub open spec fn pair_views(pairs: Seq<(String, String)>) -> MetadataView {
    Seq::new(pairs.len(), |i: int| (pairs[i].0@, pairs[i].1@))
}

/// A mapping from string keys to string values.
#[derive(Clone, Debug)]
pub struct Metadata {
    pub entries: Vec<(String, String)>,
}

impl View for Metadata {
    type V = MetadataView;

    open spec fn view(&self) -> MetadataView {
        pair_views(self.entries@)
    }
}

impl Metadata {
    /// The empty mapping.
    pub fn new() -> (r: Self)
        ensures
            r@ == MetadataView::empty(),
    {
        let r = Metadata { entries: Vec::new() };
        assert(r@ =~= MetadataView::empty());
        r
    }

    /// Records `value` for `key`, in place of what was recorded for it.
    pub fn insert(&mut self, key: &str, value: &str)
        ensures
            final(self)@ == old(self)@.push((key@, value@)),
            lookup(final(self)@, key@) == Some(value@),
            forall|other: Seq<char>|
                other != key@ ==> lookup(final(self)@, other) == lookup(old(self)@, other),
    {
        let k = string_of(&chars_of(key));
        let v = string_of(&chars_of(value));
        self.entries.push((k, v));
        assert(self@ =~= old(self)@.push((key@, value@)));
        assert(self@.drop_last() =~= old(self)@);
    }

    /// The value recorded for `key`.
    pub fn get(&self, key: &str) -> (r: Option<&String>)
        ensures
            match r {
                Some(v) => lookup(self@, key@) == Some(v@),
                None => lookup(self@, key@).is_none(),
            },
    {
        let k = chars_of(key);
        let mut i: usize = self.entries.len();
        assert(self@.subrange(0, i as int) =~= self@);
        while i > 0
            invariant
                i <= self.entries.len(),
                k@ == key@,
                lookup(self@, key@) == lookup(self@.subrange(0, i as int), key@),
            decreases i,
        {
            i -= 1;
            assert(self@.subrange(0, i + 1).drop_last() =~= self@.subrange(0, i as int));
            assert(self@.subrange(0, i + 1).last() == self@[i as int]);
            let here = chars_of(self.entries[i].0.as_str());
            if same_chars(&here, &k) {
                return Some(&self.entries[i].1);
            }
        }
        None
    }

    /// A copy of the mapping.
    pub fn duplicate(&self) -> (r: Self)
        ensures
            r@ == self@,
    {
        let mut entries: Vec<(String, String)> = Vec::new();
        let mut i: usize = 0;
        while i < self.entries.len()
            invariant
                i <= self.entries.len(),
                entries@.len() == i,
                forall|j: int|
                    0 <= j < i ==> (#[trigger] entries@[j]).0@ == self.entries@[j].0@
                        && entries@[j].1@ == self.entries@[j].1@,
            decreases self.entries.len() - i,
        {
            let k = self.entries[i].0.clone();
            let v = self.entries[i].1.clone();
            entries.push((k, v));
            i += 1;
        }
        let r = Metadata { entries };
        assert(r@ =~= self@);
        r
    }
}

/// The model of a document.
pub struct DocumentView {
    pub id: Seq<char>,
    pub content: Seq<char>,
    pub embedding: Seq<u32>,
    pub metadata: MetadataView,
    pub user_id: Seq<char>,
}

/// The indexed unit. `embedding` holds the bit patterns of the components of
/// the document's vector.
#[derive(Clone, Debug)]
pub struct Document {
    pub id: String,
    pub content: String,
    pub embedding: Vec<u32>,
    pub metadata: Metadata,
    pub user_id: String,
}

impl View for Document {
    type V = DocumentView;

    open spec fn view(&self) -> DocumentView {
        DocumentView {
            id: self.id@,
            content: self.content@,
            embedding: self.embedding@,
            metadata: self.metadata@,
            user_id: self.user_id@,
        }
    }
}

/// A copy of a vector of numbers.
pub fn copy_bits(v: &Vec<u32>) -> (r: Vec<u32>)
    ensures
        r@ == v@,
{
    let mut r: Vec<u32> = Vec::new();
    let mut i: usize = 0;
    while i < v.len()
        invariant
            i <= v.len(),
            r@ == v@.subrange(0, i as int),
        decreases v.len() - i,
    {
        r.push(v[i]);
        i += 1;
        assert(v@.subrange(0, i as int) =~= v@.subrange(0, i - 1).push(v@[i - 1]));
    }
    assert(v@.subrange(0, v.len() as int) =~= v@);
    r
}

impl Document {
    /// A copy of the document.
    pub fn duplicate(&self) -> (r: Self)
        ensures
            r@ == self@,
    {
        Document {
            id: self.id.clone(),
            content: self.content.clone(),
            embedding: copy_bits(&self.embedding),
            metadata: self.metadata.duplicate(),
            user_id: self.user_id.clone(),
        }
    }
}

/// The views of a sequence of documents.
pub open spec fn doc_views(docs: Seq<Document>) -> Seq<DocumentView> {
    Seq::new(docs.len(), |i: int| docs[i]@)
}

/// No two documents share an id.
pub open spec fn unique_ids(docs: Seq<DocumentView>) -> bool {
    forall|i: int, j: int| 0 <= i < j < docs.len() ==> docs[i].id != docs[j].id
}

/// The position of the document with this id, if there is one.
pub open spec fn position_of(docs: Seq<DocumentView>, id: Seq<char>) -> Option<int>
    decreases docs.len(),
{
    if docs.len() == 0 {
        None
    } else if docs.last().id == id {
        Some(docs.len() - 1)
    } else {
        position_of(docs.drop_last(), id)
    }
}

/// The document with this id, if there is one.
pub open spec fn find_doc(docs: Seq<DocumentView>, id: Seq<char>) -> Option<DocumentView> {
    match position_of(docs, id) {
        Some(i) => Some(docs[i]),
        None => None,
    }
}

/// `position_of` finds a document with the id, and none exists where it finds
/// none.
pub proof fn lemma_position_of(docs: Seq<DocumentView>, id: Seq<char>)
    ensures
        match position_of(docs, id) {
            Some(i) => 0 <= i < docs.len() && docs[i].id == id && forall|j: int|
                i < j < docs.len() ==> docs[j].id != id,
            None => forall|j: int| 0 <= j < docs.len() ==> docs[j].id != id,
        },
    decreases docs.len(),
{
    if docs.len() > 0 && docs.last().id != id {
        let init = docs.drop_last();
        lemma_position_of(init, id);
        match position_of(init, id) {
            Some(i) => {
                assert(init[i] == docs[i]);
                assert forall|j: int| i < j < docs.len() implies docs[j].id != id by {
                    if j < init.len() {
                        assert(init[j] == docs[j]);
                    }
                }
            },
            None => {
                assert forall|j: int| 0 <= j < docs.len() implies docs[j].id != id by {
                    if j < init.len() {
                        assert(init[j] == docs[j]);
                    }
                }
            },
        }
    }
}

/// Among documents with unique ids, the position of an id is the one place
/// that holds it.
pub proof fn lemma_position_unique(docs: Seq<DocumentView>, i: int)
    requires
        unique_ids(docs),
        0 <= i < docs.len(),
    ensures
        position_of(docs, docs[i].id) == Some(i),
{
    lemma_position_of(docs, docs[i].id);
}

/// Among documents with unique ids, the document found for an id is the one
/// document that has it.
pub proof fn lemma_find_doc(docs: Seq<DocumentView>, id: Seq<char>)
    requires
        unique_ids(docs),
    ensures
        match find_doc(docs, id) {
            Some(d) => d.id == id && docs.contains(d),
            None => forall|k: int| 0 <= k < docs.len() ==> (#[trigger] docs[k]).id != id,
        },
        forall|k: int| 0 <= k < docs.len() && (#[trigger] docs[k]).id == id ==> find_doc(docs, id)
            == Some(docs[k]),
{
    lemma_position_of(docs, id);
    assert forall|k: int| 0 <= k < docs.len() && (#[trigger] docs[k]).id == id implies find_doc(
        docs,
        id,
    ) == Some(docs[k]) by {
        lemma_position_unique(docs, k);
    }
}

/// The documents with the one at `position_of(docs, id)` taken out.
pub open spec fn removed(docs: Seq<DocumentView>, id: Seq<char>) -> Seq<DocumentView> {
    match position_of(docs, id) {
        Some(i) => docs.remove(i),
        None => docs,
    }
}

/// The documents with `doc` in place of the document that had its id, at the
/// end.
pub open spec fn upserted(docs: Seq<DocumentView>, doc: DocumentView) -> Seq<DocumentView> {
    removed(docs, doc.id).push(doc)
}

/// Taking a document out keeps the ids unique, loses its id, and leaves every
/// other document to be found as before.
pub proof fn lemma_removed(docs: Seq<DocumentView>, id: Seq<char>)
    requires
        unique_ids(docs),
    ensures
        unique_ids(removed(docs, id)),
        find_doc(removed(docs, id), id).is_none(),
        forall|other: Seq<char>|
            other != id ==> find_doc(removed(docs, id), other) == find_doc(docs, other),
        forall|k: int|
            0 <= k < removed(docs, id).len() ==> docs.contains(#[trigger] removed(docs, id)[k]),
{
    lemma_position_of(docs, id);
    let r = removed(docs, id);
    match position_of(docs, id) {
        Some(i) => {
            assert forall|a: int, b: int| 0 <= a < b < r.len() implies r[a].id != r[b].id by {
                let a0 = if a < i {
                    a
                } else {
                    a + 1
                };
                let b0 = if b < i {
                    b
                } else {
                    b + 1
                };
                assert(r[a] == docs[a0]);
                assert(r[b] == docs[b0]);
            }
            assert forall|k: int| 0 <= k < r.len() implies docs.contains(#[trigger] r[k]) && r[k].id
                != id by {
                let k0 = if k < i {
                    k
                } else {
                    k + 1
                };
                assert(r[k] == docs[k0]);
                if docs[k0].id == id {
                    lemma_position_unique(docs, k0);
                }
            }
            lemma_find_doc(r, id);
            assert forall|other: Seq<char>| other != id implies find_doc(r, other) == find_doc(
                docs,
                other,
            ) by {
                lemma_find_doc(r, other);
                lemma_find_doc(docs, other);
                match find_doc(docs, other) {
                    Some(d) => {
                        let k0 = choose|k0: int| 0 <= k0 < docs.len() && docs[k0] == d;
                        assert(k0 != i);
                        let k = if k0 < i {
                            k0
                        } else {
                            k0 - 1
                        };
                        assert(r[k] == d);
                    },
                    None => {
                        if find_doc(r, other).is_some() {
                            let d = find_doc(r, other)->0;
                            let k = choose|k: int| 0 <= k < r.len() && r[k] == d;
                            assert(docs.contains(r[k]));
                            let k0 = choose|k0: int| 0 <= k0 < docs.len() && docs[k0] == r[k];
                            assert(docs[k0].id == other);
                        }
                    },
                }
            }
        },
        None => {
            lemma_find_doc(docs, id);
            assert forall|k: int| 0 <= k < r.len() implies docs.contains(#[trigger] r[k]) by {
                assert(r[k] == docs[k]);
            }
        },
    }
}

/// Finding in a list with one document more.
pub proof fn lemma_find_push(docs: Seq<DocumentView>, doc: DocumentView, id: Seq<char>)
    ensures
        find_doc(docs.push(doc), id) == if doc.id == id {
            Some(doc)
        } else {
            find_doc(docs, id)
        },
{
    let all = docs.push(doc);
    assert(all.drop_last() =~= docs);
    assert(all.last() == doc);
    if doc.id != id {
        lemma_position_of(docs, id);
        match position_of(docs, id) {
            Some(i) => {
                assert(all[i] == docs[i]);
            },
            None => {},
        }
    }
}

/// Putting a document in keeps the ids unique, makes it the document found
/// for its id, and leaves every other document to be found as before.
pub proof fn lemma_upserted(docs: Seq<DocumentView>, doc: DocumentView)
    requires
        unique_ids(docs),
    ensures
        unique_ids(upserted(docs, doc)),
        find_doc(upserted(docs, doc), doc.id) == Some(doc),
        forall|other: Seq<char>|
            other != doc.id ==> find_doc(upserted(docs, doc), other) == find_doc(docs, other),
{
    let r = removed(docs, doc.id);
    let all = upserted(docs, doc);
    lemma_removed(docs, doc.id);
    lemma_find_doc(r, doc.id);
    assert forall|a: int, b: int| 0 <= a < b < all.len() implies all[a].id != all[b].id by {
        assert(all[a] == r[a]);
        if b < r.len() {
            assert(all[b] == r[b]);
        }
    }
    lemma_find_push(r, doc, doc.id);
    assert forall|other: Seq<char>| other != doc.id implies find_doc(all, other) == find_doc(
        docs,
        other,
    ) by {
        lemma_find_push(r, doc, other);
    }
}

/// Putting every document of `batch` into `docs`, in order.
pub open spec fn upserted_all(docs: Seq<DocumentView>, batch: Seq<DocumentView>) -> Seq<
    DocumentView,
>
    decreases batch.len(),
{
    if batch.len() == 0 {
        docs
    } else {
        upserted(upserted_all(docs, batch.drop_last()), batch.last())
    }
}

/// Putting documents in keeps the ids unique.
pub proof fn lemma_upserted_all_unique(docs: Seq<DocumentView>, batch: Seq<DocumentView>)
    requires
        unique_ids(docs),
    ensures
        unique_ids(upserted_all(docs, batch)),
    decreases batch.len(),
{
    if batch.len() > 0 {
        lemma_upserted_all_unique(docs, batch.drop_last());
        lemma_upserted(upserted_all(docs, batch.drop_last()), batch.last());
    }
}

/// Putting documents with unique ids into an empty list gives the same list.
pub proof fn lemma_upserted_all_identity(batch: Seq<DocumentView>)
    requires
        unique_ids(batch),
    ensures
        upserted_all(Seq::empty(), batch) == batch,
    decreases batch.len(),
{
    if batch.len() > 0 {
        let init = batch.drop_last();
        assert forall|i: int, j: int| 0 <= i < j < init.len() implies init[i].id != init[j].id by {
            assert(init[i] == batch[i]);
            assert(init[j] == batch[j]);
        }
        lemma_upserted_all_identity(init);
        lemma_position_of(init, batch.last().id);
        match position_of(init, batch.last().id) {
            Some(i) => {
                assert(init[i] == batch[i]);
                assert(false);
            },
            None => {},
        }
        assert(init.push(batch.last()) =~= batch);
    } else {
        assert(batch =~= Seq::<DocumentView>::empty());
    }
}

/// The position of the document with this id.
pub fn index_of_id(docs: &Vec<Document>, id: &str) -> (r: Option<usize>)
    ensures
        match r {
            Some(i) => i < docs.len() && position_of(doc_views(docs@), id@) == Some(i as int),
            None => position_of(doc_views(docs@), id@).is_none(),
        },
{
    let ghost views = doc_views(docs@);
    let mut i: usize = docs.len();
    assert(views.subrange(0, i as int) =~= views);
    while i > 0
        invariant
            i <= docs.len(),
            views == doc_views(docs@),
            position_of(views, id@) == position_of(views.subrange(0, i as int), id@),
        decreases i,
    {
        i -= 1;
        assert(views.subrange(0, i + 1).drop_last() =~= views.subrange(0, i as int));
        assert(views.subrange(0, i + 1).last() == docs@[i as int]@);
        if docs[i].id.as_str().eq(id) {
            return Some(i);
        }
    }
    None
}

} // verus!

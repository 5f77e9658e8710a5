//! The ingestion: which documents a subject and its files become, and how
//! they enter the index.
//!
//! A PDF enters the index in chunks. The chunks of one file have the ids
//! `<subject>/<path>#0`, `#1`, and so on; the first of them tells a later run
//! that the file is indexed already. The chunks of a file enter together or
//! not at all.

use crate::rag::document::{copy_bits, find_doc, lemma_position_of, DocumentView, Metadata, MetadataView};
use crate::rag::system::embedding_views;
use crate::config::{CachedCredentials, Config};
use crate::rag::store::VectorStore;
use crate::scrapper::auth::AuthCredentials;
use crate::rag::system::{RagError, RagSystem};
use crate::scrapper::processing::{file_name, file_name_of};
use crate::scrapper::{Subject, SubjectView};
use crate::text::{
    chars_of, decimal, find_char, first_index_of, has_prefix, last_index_of, lemma_first_index_of,
    push_all,
    push_decimal, push_str, rfind_char, slice, split_words, starts_with, str_views, string_of, trim,
    trimmed, words,
};
use vstd::prelude::*;

verus! {

/// The number of characters a chunk of a PDF may have.
pub const CHUNK_CHARS: usize = 1000;

/// The chunks into which the text splitter cuts a text for a capacity.
pub uninterp spec fn split_chunks(text: Seq<char>, capacity: nat) -> Seq<Seq<char>>;

/// Trusted: `text_splitter::TextSplitter::new(capacity).chunks(text)` with the
/// default sizer, which counts characters. The chunks are a function of the
/// text and the capacity; they are named `split_chunks`, and nothing more is
/// claimed of them.
#[verifier::external_body]
fn split_into_chunks(text: &str, capacity: usize) -> (r: Vec<String>)
    requires
        capacity > 0,
    ensures
        str_views(r@) == split_chunks(text@, capacity as nat),
{
    text_splitter::TextSplitter::new(capacity).chunks(text).map(|c| c.to_string()).collect()
}

// ---------------------------------------------------------------------------
// Documents to be indexed
// ---------------------------------------------------------------------------

/// A document that waits for its embedding.
#[derive(Clone, Debug)]
pub struct PendingDocument {
    pub id: String,
    pub content: String,
    pub metadata: Metadata,
}

/// The model of a pending document.
pub struct PendingView {
    pub id: Seq<char>,
    pub content: Seq<char>,
    pub metadata: MetadataView,
}

impl View for PendingDocument {
    type V = PendingView;

    open spec fn view(&self) -> PendingView {
        PendingView { id: self.id@, content: self.content@, metadata: self.metadata@ }
    }
}

/// The views of a list of pending documents.
pub open spec fn pending_views(docs: Seq<PendingDocument>) -> Seq<PendingView> {
    Seq::new(docs.len(), |i: int| docs[i]@)
}

/// The id of a file of a subject, before chunking.
pub open spec fn doc_id(subject_id: Seq<char>, rel_path: Seq<char>) -> Seq<char> {
    subject_id + seq!['/'] + rel_path
}

/// The id of chunk `i` of a file.
pub open spec fn chunk_id(base: Seq<char>, i: nat) -> Seq<char> {
    base + seq!['#'] + decimal(i)
}

/// The content of chunk `i` of `n`: a header that names the file, the part
/// and the course, then the chunk.
pub open spec fn chunk_content(
    filename: Seq<char>,
    i: nat,
    n: nat,
    subject: Seq<char>,
    chunk: Seq<char>,
) -> Seq<char> {
    "### DOC: "@ + filename + " (Part "@ + decimal(i + 1) + seq!['/'] + decimal(n) + ")\nCourse: "@
        + subject + "\n\n"@ + chunk
}

/// The content of a file that is indexed whole.
pub open spec fn whole_content(filename: Seq<char>, subject: Seq<char>, text: Seq<char>) -> Seq<
    char,
> {
    "### DOC: "@ + filename + "\nSubject: "@ + subject + "\n\n"@ + text
}

/// The metadata of the chunks of a file: their kind, and the name of the
/// file without the directories that lead to it.
pub open spec fn pdf_metadata(rel_path: Seq<char>) -> MetadataView {
    seq![("type"@, "pdf"@), ("filename"@, file_name(rel_path))]
}

/// The metadata of the summary of a subject.
pub open spec fn subject_metadata(name: Seq<char>) -> MetadataView {
    seq![("type"@, "subject"@), ("name"@, name)]
}

/// The documents that a file becomes, given the chunks that the splitter cut
/// its text into: none where the text has no word; the whole text as chunk 0
/// where there is no chunk; else one document for each chunk.
pub open spec fn chunked(
    subject_id: Seq<char>,
    subject_name: Seq<char>,
    rel_path: Seq<char>,
    text: Seq<char>,
    parts: Seq<Seq<char>>,
) -> Seq<PendingView> {
    let base = doc_id(subject_id, rel_path);
    let name = file_name(rel_path);
    if words(text).len() == 0 {
        Seq::empty()
    } else if parts.len() == 0 {
        seq![
            PendingView {
                id: chunk_id(base, 0),
                content: whole_content(name, subject_name, text),
                metadata: pdf_metadata(rel_path),
            },
        ]
    } else {
        Seq::new(
            parts.len(),
            |i: int|
                PendingView {
                    id: chunk_id(base, i as nat),
                    content: chunk_content(name, i as nat, parts.len(), subject_name, parts[i]),
                    metadata: pdf_metadata(rel_path),
                },
        )
    }
}

/// The first document of a file is its chunk 0.
pub proof fn lemma_sentinel_first(
    subject_id: Seq<char>,
    subject_name: Seq<char>,
    rel_path: Seq<char>,
    text: Seq<char>,
    parts: Seq<Seq<char>>,
)
    ensures
        chunked(subject_id, subject_name, rel_path, text, parts).len() > 0 ==> chunked(
            subject_id,
            subject_name,
            rel_path,
            text,
            parts,
        )[0].id == chunk_id(doc_id(subject_id, rel_path), 0),
        words(text).len() == 0 <==> chunked(subject_id, subject_name, rel_path, text, parts).len()
            == 0,
{
}

/// Once the documents of a file are in the index, its chunk 0 is there: a
/// later plan for the file finds it and asks for nothing.
pub proof fn lemma_indexed_file_is_skipped(
    index: Seq<DocumentView>,
    subject_id: Seq<char>,
    subject_name: Seq<char>,
    rel_path: Seq<char>,
    text: Seq<char>,
    parts: Seq<Seq<char>>,
)
    requires
        chunked(subject_id, subject_name, rel_path, text, parts).len() > 0,
        forall|k: int|
            0 <= k < chunked(subject_id, subject_name, rel_path, text, parts).len() ==> find_doc(
                index,
                (#[trigger] chunked(subject_id, subject_name, rel_path, text, parts)[k]).id,
            ).is_some(),
    ensures
        find_doc(index, chunk_id(doc_id(subject_id, rel_path), 0)).is_some(),
{
    lemma_sentinel_first(subject_id, subject_name, rel_path, text, parts);
    let docs = chunked(subject_id, subject_name, rel_path, text, parts);
    assert(find_doc(index, docs[0].id).is_some());
}

/// The id of a file of a subject, before chunking.
pub fn base_id(subject_id: &str, rel_path: &str) -> (r: String)
    ensures
        r@ == doc_id(subject_id@, rel_path@),
{
    let mut out = chars_of(subject_id);
    out.push('/');
    push_str(&mut out, rel_path);
    assert(out@ =~= doc_id(subject_id@, rel_path@));
    string_of(&out)
}

/// The id of chunk `i` of the file with id `base`.
pub fn chunk_id_of(base: &str, i: usize) -> (r: String)
    ensures
        r@ == chunk_id(base@, i as nat),
{
    let mut out = chars_of(base);
    out.push('#');
    push_decimal(&mut out, i as u64);
    assert(out@ =~= chunk_id(base@, i as nat));
    string_of(&out)
}

/// The metadata of the chunks of a file.
fn pdf_metadata_of(rel_path: &str) -> (r: Metadata)
    ensures
        r@ == pdf_metadata(rel_path@),
{
    let name = file_name_of(rel_path);
    let mut m = Metadata::new();
    m.insert("type", "pdf");
    m.insert("filename", name.as_str());
    assert(m@ =~= pdf_metadata(rel_path@));
    m
}

/// The documents that a file becomes, given the chunks that its text was cut
/// into.
pub fn chunk_documents(
    subject_id: &str,
    subject_name: &str,
    rel_path: &str,
    text: &str,
    parts: &Vec<String>,
) -> (r: Vec<PendingDocument>)
    ensures
        pending_views(r@) == chunked(
            subject_id@,
            subject_name@,
            rel_path@,
            text@,
            str_views(parts@),
        ),
{
    let ghost want = chunked(subject_id@, subject_name@, rel_path@, text@, str_views(parts@));
    let mut out: Vec<PendingDocument> = Vec::new();
    let body = chars_of(text);
    let ws = split_words(&body);
    if ws.len() == 0 {
        assert(pending_views(out@) =~= want);
        return out;
    }
    let base = base_id(subject_id, rel_path);
    let name = file_name_of(rel_path);
    if parts.len() == 0 {
        let mut content: Vec<char> = Vec::new();
        push_str(&mut content, "### DOC: ");
        push_str(&mut content, name.as_str());
        push_str(&mut content, "\nSubject: ");
        push_str(&mut content, subject_name);
        push_str(&mut content, "\n\n");
        push_all(&mut content, &body);
        assert(content@ =~= whole_content(file_name(rel_path@), subject_name@, text@));
        out.push(
            PendingDocument {
                id: chunk_id_of(base.as_str(), 0),
                content: string_of(&content),
                metadata: pdf_metadata_of(rel_path),
            },
        );
        assert(pending_views(out@) =~= want);
        return out;
    }
    let n: usize = parts.len();
    let mut i: usize = 0;
    while i < n
        invariant
            i <= n,
            n == parts.len(),
            n > 0,
            words(text@).len() > 0,
            base@ == doc_id(subject_id@, rel_path@),
            name@ == file_name(rel_path@),
            want == chunked(subject_id@, subject_name@, rel_path@, text@, str_views(parts@)),
            out@.len() == i,
            forall|k: int| 0 <= k < i ==> (#[trigger] out@[k])@ == want[k],
        decreases n - i,
    {
        let mut content: Vec<char> = Vec::new();
        push_str(&mut content, "### DOC: ");
        push_str(&mut content, name.as_str());
        push_str(&mut content, " (Part ");
        push_decimal(&mut content, i as u64 + 1);
        content.push('/');
        push_decimal(&mut content, n as u64);
        push_str(&mut content, ")\nCourse: ");
        push_str(&mut content, subject_name);
        push_str(&mut content, "\n\n");
        push_str(&mut content, parts[i].as_str());
        assert(content@ =~= chunk_content(
            file_name(rel_path@),
            i as nat,
            n as nat,
            subject_name@,
            str_views(parts@)[i as int],
        ));
        out.push(
            PendingDocument {
                id: chunk_id_of(base.as_str(), i),
                content: string_of(&content),
                metadata: pdf_metadata_of(rel_path),
            },
        );
        i += 1;
    }
    assert(pending_views(out@) =~= want);
    out
}

/// The documents that a file becomes: its text is cut into chunks of at most
/// 1000 characters, and each chunk becomes a document.
pub fn pdf_documents(subject_id: &str, subject_name: &str, rel_path: &str, text: &str) -> (r: Vec<
    PendingDocument,
>)
    ensures
        pending_views(r@) == chunked(
            subject_id@,
            subject_name@,
            rel_path@,
            text@,
            split_chunks(text@, 1000),
        ),
{
    let parts = split_into_chunks(text, CHUNK_CHARS);
    chunk_documents(subject_id, subject_name, rel_path, text, &parts)
}

/// The list of local files as it is appended to a summary.
pub open spec fn file_list(names: Seq<Seq<char>>, n: int) -> Seq<char>
    decreases n,
{
    if n <= 0 {
        "\n\n[Local Files]:\n"@
    } else {
        file_list(names, n - 1) + "- "@ + names[n - 1] + seq!['\n']
    }
}

/// The content of the summary document of a subject: a header with name and
/// address, the scraped summary, and the list of the local files where the
/// subject has a directory for them.
pub open spec fn summary_content(
    subject: SubjectView,
    summary: Seq<char>,
    files: Option<Seq<Seq<char>>>,
) -> Seq<char> {
    "Subject: "@ + subject.name + "\nURL: "@ + subject.url + "\n\n"@ + summary + match files {
        Some(names) => file_list(names, names.len() as int),
        None => Seq::empty(),
    }
}

/// The views of an optional list of names.
pub open spec fn opt_names(files: Option<Vec<String>>) -> Option<Seq<Seq<char>>> {
    match files {
        Some(names) => Some(str_views(names@)),
        None => None,
    }
}

/// The summary document of a subject.
pub fn subject_document(subject: &Subject, summary: &str, files: &Option<Vec<String>>) -> (r:
    PendingDocument)
    ensures
        r@.id == subject@.id,
        r@.content == summary_content(subject@, summary@, opt_names(*files)),
        r@.metadata == subject_metadata(subject@.name),
{
    let mut content: Vec<char> = Vec::new();
    push_str(&mut content, "Subject: ");
    push_str(&mut content, subject.name.as_str());
    push_str(&mut content, "\nURL: ");
    push_str(&mut content, subject.url.as_str());
    push_str(&mut content, "\n\n");
    push_str(&mut content, summary);
    let ghost head = content@;
    match files {
        Some(names) => {
            push_str(&mut content, "\n\n[Local Files]:\n");
            let mut i: usize = 0;
            while i < names.len()
                invariant
                    i <= names.len(),
                    content@ == head + file_list(str_views(names@), i as int),
                decreases names.len() - i,
            {
                let ghost before = content@;
                push_str(&mut content, "- ");
                push_str(&mut content, names[i].as_str());
                content.push('\n');
                i += 1;
                assert(content@ =~= head + file_list(str_views(names@), i as int));
            }
        },
        None => {
            assert(content@ =~= head + Seq::<char>::empty());
        },
    }
    let mut m = Metadata::new();
    m.insert("type", "subject");
    m.insert("name", subject.name.as_str());
    assert(m@ =~= subject_metadata(subject@.name));
    PendingDocument { id: subject.id.clone(), content: string_of(&content), metadata: m }
}

// ---------------------------------------------------------------------------
// The id of a subject on disk
// ---------------------------------------------------------------------------

/// The first line of `text` from character `from` on that begins with
/// `URL:`, without its line feed.
pub open spec fn url_line(text: Seq<char>, from: int) -> Option<Seq<char>>
    decreases text.len() - from,
    via url_line_decreases
{
    if from < 0 || from >= text.len() {
        None
    } else {
        let rest = text.subrange(from, text.len() as int);
        let end = match first_index_of(rest, '\n') {
            Some(i) => from + i,
            None => text.len() as int,
        };
        let line = text.subrange(from, end);
        if has_prefix(line, "URL:"@) {
            Some(line)
        } else if end < text.len() {
            url_line(text, end + 1)
        } else {
            None
        }
    }
}

#[via_fn]
proof fn url_line_decreases(text: Seq<char>, from: int) {
    if 0 <= from < text.len() {
        lemma_first_index_of(text.subrange(from, text.len() as int), '\n');
    }
}

/// The id of the subject whose summary and directory name are given: what
/// follows the last `/` of the first line that begins with `URL:`, trimmed;
/// the name of the directory where there is no such line or no `/` in it.
pub open spec fn subject_id_of(summary: Option<Seq<char>>, dir_name: Seq<char>) -> Seq<char> {
    match summary {
        Some(text) => match url_line(text, 0) {
            Some(line) => match last_index_of(line, '/') {
                Some(i) => trimmed(line.subrange(i + 1, line.len() as int)),
                None => dir_name,
            },
            None => dir_name,
        },
        None => dir_name,
    }
}

/// The first line from `from` on that begins with `URL:`.
fn find_url_line(text: &Vec<char>) -> (r: Option<Vec<char>>)
    ensures
        match r {
            Some(line) => url_line(text@, 0) == Some(line@),
            None => url_line(text@, 0).is_none(),
        },
{
    let prefix = chars_of("URL:");
    let mut from: usize = 0;
    while from < text.len()
        invariant
            from <= text.len(),
            prefix@ == "URL:"@,
            url_line(text@, 0) == url_line(text@, from as int),
        decreases text.len() - from,
    {
        let rest = slice(text, from, text.len());
        let end: usize = match find_char(&rest, '\n') {
            Some(i) => from + i,
            None => text.len(),
        };
        let line = slice(text, from, end);
        if starts_with(&line, &prefix) {
            return Some(line);
        }
        if end >= text.len() {
            return None;
        }
        from = end + 1;
    }
    None
}

/// The id of a subject found on disk.
pub fn subject_id_from_summary(summary: Option<&str>, dir_name: &str) -> (r: String)
    ensures
        r@ == subject_id_of(
            match summary {
                Some(s) => Some(s@),
                None => None,
            },
            dir_name@,
        ),
{
    match summary {
        Some(s) => {
            let text = chars_of(s);
            match find_url_line(&text) {
                Some(line) => match rfind_char(&line, '/') {
                    Some(i) => {
                        let tail = slice(&line, i + 1, line.len());
                        string_of(&trim(&tail))
                    },
                    None => string_of(&chars_of(dir_name)),
                },
                None => string_of(&chars_of(dir_name)),
            }
        },
        None => string_of(&chars_of(dir_name)),
    }
}

/// Whether a directory below the data directory is passed over: its name
/// begins with a dot.
pub fn is_hidden(dir_name: &str) -> (r: bool)
    ensures
        r == has_prefix(dir_name@, seq!['.']),
{
    let name = chars_of(dir_name);
    let mut dot: Vec<char> = Vec::new();
    dot.push('.');
    assert(dot@ =~= seq!['.']);
    starts_with(&name, &dot)
}

// ---------------------------------------------------------------------------
// Planning
// ---------------------------------------------------------------------------

/// What is to be done for one file: the documents that enter the index, and
/// the id of the document of an earlier, unchunked form that leaves it first.
#[derive(Clone, Debug)]
pub struct PdfPlan {
    pub remove_legacy: Option<String>,
    pub documents: Vec<PendingDocument>,
}

/// Plans the indexing of one file. Nothing is to be done where chunk 0 of the
/// file is in the index already. Else the file enters in chunks, and the
/// document under the id of the file itself, if there is one, leaves first.
pub fn plan_pdf<S: VectorStore>(
    rag: &RagSystem<S>,
    subject_id: &str,
    subject_name: &str,
    rel_path: &str,
    text: &str,
) -> (r: PdfPlan)
    requires
        rag.wf(),
    ensures
        ({
            let base = doc_id(subject_id@, rel_path@);
            let docs = chunked(
                subject_id@,
                subject_name@,
                rel_path@,
                text@,
                split_chunks(text@, 1000),
            );
            if find_doc(rag.documents(), chunk_id(base, 0)).is_some() {
                &&& r.documents@.len() == 0
                &&& r.remove_legacy.is_none()
            } else {
                &&& pending_views(r.documents@) == docs
                &&& crate::text::opt_view(r.remove_legacy) == if docs.len() > 0 && find_doc(
                    rag.documents(),
                    base,
                ).is_some() {
                    Some(base)
                } else {
                    None
                }
            }
        }),
{
    let base = base_id(subject_id, rel_path);
    let sentinel = chunk_id_of(base.as_str(), 0);
    if rag.contains(sentinel.as_str()) {
        return PdfPlan { remove_legacy: None, documents: Vec::new() };
    }
    let documents = pdf_documents(subject_id, subject_name, rel_path, text);
    let remove_legacy = if documents.len() > 0 && rag.contains(base.as_str()) {
        Some(base)
    } else {
        None
    };
    PdfPlan { remove_legacy, documents }
}

/// Plans the indexing of the summary of a subject: it enters the index
/// unless a document with the id of the subject is there already.
pub fn plan_subject<S: VectorStore>(
    rag: &RagSystem<S>,
    subject: &Subject,
    summary: &str,
    files: &Option<Vec<String>>,
) -> (r: Option<PendingDocument>)
    requires
        rag.wf(),
    ensures
        r.is_none() == find_doc(rag.documents(), subject@.id).is_some(),
        r.is_some() ==> {
            &&& r->0@.id == subject@.id
            &&& r->0@.content == summary_content(subject@, summary@, opt_names(*files))
            &&& r->0@.metadata == subject_metadata(subject@.name)
        },
{
    if rag.contains(subject.id.as_str()) {
        None
    } else {
        Some(subject_document(subject, summary, files))
    }
}

// ---------------------------------------------------------------------------
// Entering the index
// ---------------------------------------------------------------------------

/// Whether a batch entered the index.
#[derive(Clone, Copy, Debug, PartialEq, Eq, Structural)]
pub enum Applied {
    /// Every document of the batch is in the index.
    Inserted,
    /// The index is as it was.
    Skipped,
}

/// A batch is complete where it holds a document and every document has its
/// embedding.
pub open spec fn complete(docs: Seq<PendingView>, embeddings: Seq<Option<Seq<u32>>>) -> bool {
    &&& docs.len() > 0
    &&& embeddings.len() == docs.len()
    &&& forall|k: int| 0 <= k < embeddings.len() ==> (#[trigger] embeddings[k]).is_some()
}

/// A pending document with its embedding, as the ingestion writes it.
pub open spec fn embedded(doc: PendingView, embedding: Seq<u32>) -> DocumentView {
    DocumentView {
        id: doc.id,
        content: doc.content,
        embedding,
        metadata: doc.metadata,
        user_id: "user"@,
    }
}

/// The document that the first `n` documents of a batch leave under an id:
/// the last of them that has it.
pub open spec fn batch_lookup(
    docs: Seq<PendingView>,
    embeddings: Seq<Option<Seq<u32>>>,
    n: int,
    id: Seq<char>,
) -> Option<DocumentView>
    decreases n,
{
    if n <= 0 {
        None
    } else if docs[n - 1].id == id {
        Some(embedded(docs[n - 1], embeddings[n - 1]->0))
    } else {
        batch_lookup(docs, embeddings, n - 1, id)
    }
}

/// The number of ids among the first `n` documents of a batch that were not
/// present before and occur for the first time.
pub open spec fn fresh_count(
    present: spec_fn(Seq<char>) -> bool,
    docs: Seq<PendingView>,
    embeddings: Seq<Option<Seq<u32>>>,
    n: int,
) -> nat
    decreases n,
{
    if n <= 0 {
        0
    } else {
        fresh_count(present, docs, embeddings, n - 1) + if !present(docs[n - 1].id) && batch_lookup(
            docs,
            embeddings,
            n - 1,
            docs[n - 1].id,
        ).is_none() {
            1nat
        } else {
            0nat
        }
    }
}

/// What is found under an id once a batch has entered: the document of the
/// batch with the id, else nothing for the id that was removed first, else
/// what was there before.
pub open spec fn after_batch(
    before: Seq<DocumentView>,
    remove_first: Option<Seq<char>>,
    docs: Seq<PendingView>,
    embeddings: Seq<Option<Seq<u32>>>,
    id: Seq<char>,
) -> Option<DocumentView> {
    match batch_lookup(docs, embeddings, docs.len() as int, id) {
        Some(d) => Some(d),
        None => if remove_first == Some(id) {
            None
        } else {
            find_doc(before, id)
        },
    }
}

/// No document of the batch has an id that is in the index, or that an
/// earlier document of the batch has.
pub open spec fn all_fresh(before: Seq<DocumentView>, docs: Seq<PendingView>) -> bool {
    &&& forall|k: int| 0 <= k < docs.len() ==> find_doc(before, (#[trigger] docs[k]).id).is_none()
    &&& forall|j: int, k: int| 0 <= j < k < docs.len() ==> docs[j].id != docs[k].id
}

/// The first `n` documents of a batch with their embeddings, in order.
pub open spec fn embedded_batch(
    docs: Seq<PendingView>,
    embeddings: Seq<Option<Seq<u32>>>,
    n: int,
) -> Seq<DocumentView> {
    Seq::new(n as nat, |k: int| embedded(docs[k], embeddings[k]->0))
}

/// No document among the first `n` of a batch has the id.
pub proof fn lemma_batch_lookup_none(
    docs: Seq<PendingView>,
    embeddings: Seq<Option<Seq<u32>>>,
    n: int,
    id: Seq<char>,
)
    requires
        forall|j: int| 0 <= j < n ==> (#[trigger] docs[j]).id != id,
    ensures
        batch_lookup(docs, embeddings, n, id).is_none(),
    decreases n,
{
    if n > 0 {
        lemma_batch_lookup_none(docs, embeddings, n - 1, id);
    }
}

/// Whether an id is present once the document to be removed first has left.
pub open spec fn present_after_removal(before: Seq<DocumentView>, remove_first: Option<Seq<char>>)
    -> spec_fn(Seq<char>) -> bool {
    |id: Seq<char>| remove_first != Some(id) && find_doc(before, id).is_some()
}

/// Whether every document has its embedding.
fn all_embedded(n: usize, embeddings: &Vec<Option<Vec<u32>>>) -> (r: bool)
    ensures
        r == (n > 0 && embeddings@.len() == n && forall|k: int|
            0 <= k < embeddings@.len() ==> (#[trigger] embedding_views(embeddings@)[k]).is_some()),
{
    if n == 0 || embeddings.len() != n {
        return false;
    }
    let mut i: usize = 0;
    while i < embeddings.len()
        invariant
            i <= embeddings.len(),
            forall|k: int| 0 <= k < i ==> (#[trigger] embedding_views(embeddings@)[k]).is_some(),
        decreases embeddings.len() - i,
    {
        if embeddings[i].is_none() {
            assert(embedding_views(embeddings@)[i as int].is_none());
            return false;
        }
        i += 1;
    }
    true
}

/// Enters a batch of documents into the index, under the user `user`. The
/// batch enters whole or not at all: where it is empty, or an embedding is
/// missing, nothing is changed and the batch is skipped; where it brings more
/// new ids than the index has room to spare, nothing is changed and the call
/// fails. Else the document with the id `remove_first` leaves the index, and
/// the documents enter in their order.
pub fn index_batch<S: VectorStore>(
    rag: &mut RagSystem<S>,
    remove_first: &Option<String>,
    docs: &Vec<PendingDocument>,
    embeddings: &Vec<Option<Vec<u32>>>,
) -> (r: Result<Applied, RagError>)
    requires
        old(rag).wf(),
    ensures
        final(rag).wf(),
        match r {
            Ok(Applied::Skipped) => {
                &&& !complete(pending_views(docs@), embedding_views(embeddings@))
                &&& *final(rag) == *old(rag)
            },
            Ok(Applied::Inserted) => {
                &&& complete(pending_views(docs@), embedding_views(embeddings@))
                &&& old(rag).spare() >= fresh_count(
                    present_after_removal(
                        old(rag).documents(),
                        crate::text::opt_view(*remove_first),
                    ),
                    pending_views(docs@),
                    embedding_views(embeddings@),
                    docs@.len() as int,
                )
                &&& forall|id: Seq<char>|
                    find_doc(final(rag).documents(), id) == after_batch(
                        old(rag).documents(),
                        crate::text::opt_view(*remove_first),
                        pending_views(docs@),
                        embedding_views(embeddings@),
                        id,
                    )
                &&& forall|k: int|
                    0 <= k < docs@.len() ==> find_doc(
                        final(rag).documents(),
                        (#[trigger] docs@[k])@.id,
                    ).is_some()
                &&& final(rag).documents().len() == old(rag).documents().len() - (if remove_first.is_some()
                    && find_doc(old(rag).documents(), remove_first->0@).is_some() {
                    1int
                } else {
                    0int
                }) + fresh_count(
                    present_after_removal(
                        old(rag).documents(),
                        crate::text::opt_view(*remove_first),
                    ),
                    pending_views(docs@),
                    embedding_views(embeddings@),
                    docs@.len() as int,
                )
                &&& final(rag).spare() >= old(rag).spare() - fresh_count(
                    present_after_removal(
                        old(rag).documents(),
                        crate::text::opt_view(*remove_first),
                    ),
                    pending_views(docs@),
                    embedding_views(embeddings@),
                    docs@.len() as int,
                )
            },
            Err(e) => {
                &&& e == RagError::IndexFull
                &&& complete(pending_views(docs@), embedding_views(embeddings@))
                &&& old(rag).spare() < fresh_count(
                    present_after_removal(
                        old(rag).documents(),
                        crate::text::opt_view(*remove_first),
                    ),
                    pending_views(docs@),
                    embedding_views(embeddings@),
                    docs@.len() as int,
                )
                &&& *final(rag) == *old(rag)
            },
        },
        r == Ok::<Applied, RagError>(Applied::Inserted) && all_fresh(
            old(rag).documents(),
            pending_views(docs@),
        ) && (remove_first.is_none() || find_doc(old(rag).documents(), remove_first->0@).is_none())
            ==> final(rag).documents() == old(rag).documents() + embedded_batch(
            pending_views(docs@),
            embedding_views(embeddings@),
            docs@.len() as int,
        ),
{
    if !all_embedded(docs.len(), embeddings) {
        return Ok(Applied::Skipped);
    }
    assert(complete(pending_views(docs@), embedding_views(embeddings@)));
    let fresh = count_fresh(rag, remove_first, docs, Ghost(embedding_views(embeddings@)));
    if fresh > rag.room_left() {
        return Err(RagError::IndexFull);
    }
    enter_batch(rag, remove_first, docs, embeddings);
    Ok(Applied::Inserted)
}

/// Whether one of the first `n` documents has the id.
fn holds_id(
    docs: &Vec<PendingDocument>,
    n: usize,
    id: &str,
    Ghost(embeddings): Ghost<Seq<Option<Seq<u32>>>>,
) -> (r: bool)
    requires
        n <= docs@.len(),
    ensures
        r == batch_lookup(pending_views(docs@), embeddings, n as int, id@).is_some(),
{
    let ghost views = pending_views(docs@);
    let mut j: usize = 0;
    while j < n
        invariant
            j <= n <= docs@.len(),
            views == pending_views(docs@),
            forall|k: int| 0 <= k < j ==> (#[trigger] views[k]).id != id@,
        decreases n - j,
    {
        if docs[j].id.as_str().eq(id) {
            proof {
                assert(views[j as int].id == id@);
                lemma_batch_lookup(views, embeddings, n as int, j as int);
            }
            return true;
        }
        j += 1;
    }
    proof {
        lemma_batch_lookup_none(views, embeddings, n as int, id@);
    }
    false
}

/// The number of ids of a batch that are not in the index once the document
/// to be removed first has left, each counted once.
fn count_fresh<S: VectorStore>(
    rag: &RagSystem<S>,
    remove_first: &Option<String>,
    docs: &Vec<PendingDocument>,
    Ghost(embeddings): Ghost<Seq<Option<Seq<u32>>>>,
) -> (r: usize)
    requires
        rag.wf(),
    ensures
        r == fresh_count(
            present_after_removal(rag.documents(), crate::text::opt_view(*remove_first)),
            pending_views(docs@),
            embeddings,
            docs@.len() as int,
        ),
{
    let ghost views = pending_views(docs@);
    let ghost present = present_after_removal(
        rag.documents(),
        crate::text::opt_view(*remove_first),
    );
    let mut count: usize = 0;
    let mut i: usize = 0;
    while i < docs.len()
        invariant
            i <= docs@.len(),
            rag.wf(),
            views == pending_views(docs@),
            present == present_after_removal(
                rag.documents(),
                crate::text::opt_view(*remove_first),
            ),
            count <= i,
            count == fresh_count(present, views, embeddings, i as int),
        decreases docs@.len() - i,
    {
        let id = docs[i].id.as_str();
        assert(views[i as int].id == id@);
        let leaves = match remove_first {
            Some(gone) => gone.as_str().eq(id),
            None => false,
        };
        let there = !leaves && rag.contains(id);
        assert(there == present(id@));
        if !there && !holds_id(docs, i, id, Ghost(embeddings)) {
            count += 1;
        }
        i += 1;
    }
    count
}

/// Enters a complete batch for which the index has room: the document with
/// the id `remove_first` leaves, and the documents enter in their order.
fn enter_batch<S: VectorStore>(
    rag: &mut RagSystem<S>,
    remove_first: &Option<String>,
    docs: &Vec<PendingDocument>,
    embeddings: &Vec<Option<Vec<u32>>>,
)
    requires
        old(rag).wf(),
        complete(pending_views(docs@), embedding_views(embeddings@)),
        old(rag).spare() >= fresh_count(
            present_after_removal(old(rag).documents(), crate::text::opt_view(*remove_first)),
            pending_views(docs@),
            embedding_views(embeddings@),
            docs@.len() as int,
        ),
    ensures
        final(rag).wf(),
        forall|id: Seq<char>|
            find_doc(final(rag).documents(), id) == after_batch(
                old(rag).documents(),
                crate::text::opt_view(*remove_first),
                pending_views(docs@),
                embedding_views(embeddings@),
                id,
            ),
        forall|k: int|
            0 <= k < docs@.len() ==> find_doc(
                final(rag).documents(),
                (#[trigger] docs@[k])@.id,
            ).is_some(),
        final(rag).documents().len() == old(rag).documents().len() - (if remove_first.is_some()
            && find_doc(old(rag).documents(), remove_first->0@).is_some() {
            1int
        } else {
            0int
        }) + fresh_count(
            present_after_removal(old(rag).documents(), crate::text::opt_view(*remove_first)),
            pending_views(docs@),
            embedding_views(embeddings@),
            docs@.len() as int,
        ),
        final(rag).spare() >= old(rag).spare() - fresh_count(
            present_after_removal(old(rag).documents(), crate::text::opt_view(*remove_first)),
            pending_views(docs@),
            embedding_views(embeddings@),
            docs@.len() as int,
        ),
        all_fresh(old(rag).documents(), pending_views(docs@)) && (remove_first.is_none()
            || find_doc(old(rag).documents(), remove_first->0@).is_none())
            ==> final(rag).documents() == old(rag).documents() + embedded_batch(
            pending_views(docs@),
            embedding_views(embeddings@),
            docs@.len() as int,
        ),
{
    let ghost views = pending_views(docs@);
    let ghost embs = embedding_views(embeddings@);
    let ghost before = rag.documents();
    let ghost room = rag.spare();
    match remove_first {
        Some(id) => {
            rag.remove_document(id.as_str());
        },
        None => {},
    }
    let ghost mid = rag.documents();
    let ghost in_order = all_fresh(before, views) && (remove_first.is_none() || find_doc(
        before,
        remove_first->0@,
    ).is_none());
    assert(in_order ==> mid == before);
    assert(mid + embedded_batch(views, embs, 0) =~= mid);
    let ghost present = present_after_removal(before, crate::text::opt_view(*remove_first));
    proof {
        assert forall|id: Seq<char>| #[trigger] present(id) == find_doc(mid, id).is_some() by {}
    }
    let n: usize = docs.len();
    let mut i: usize = 0;
    while i < n
        invariant
            i <= n,
            n == docs@.len(),
            rag.wf(),
            views == pending_views(docs@),
            embs == embedding_views(embeddings@),
            complete(views, embs),
            forall|id: Seq<char>| #[trigger] present(id) == find_doc(mid, id).is_some(),
            forall|id: Seq<char>|
                find_doc(rag.documents(), id) == match batch_lookup(views, embs, i as int, id) {
                    Some(d) => Some(d),
                    None => find_doc(mid, id),
                },
            rag.documents().len() == mid.len() + fresh_count(present, views, embs, i as int),
            present == present_after_removal(before, crate::text::opt_view(*remove_first)),
            before == old(rag).documents(),
            room == old(rag).spare(),
            room >= fresh_count(present, views, embs, n as int),
            rag.spare() >= room - fresh_count(present, views, embs, i as int),
            in_order ==> mid == before && all_fresh(before, views),
            in_order ==> rag.documents() == mid + embedded_batch(views, embs, i as int),
        decreases n - i,
    {
        let d = &docs[i];
        let ghost held = rag.documents();
        let ghost id = d@.id;
        assert(views[i as int] == d@);
        assert(embs[i as int].is_some());
        let e = match &embeddings[i] {
            Some(e) => copy_bits(e),
            None => Vec::new(),
        };
        assert(e@ == embs[i as int]->0);
        proof {
            rag.lemma_wf();
            lemma_fresh_count_grows(present, views, embs, i + 1, n as int);
            assert(find_doc(held, id) == match batch_lookup(views, embs, i as int, id) {
                Some(x) => Some(x),
                None => find_doc(mid, id),
            });
            assert(present(id) == find_doc(mid, id).is_some());
            assert(rag.has_room(id));
        }
        rag.put_document(d.id.as_str(), d.content.as_str(), "user", d.metadata.duplicate(), e);
        proof {
            assert forall|other: Seq<char>| find_doc(rag.documents(), other) == match batch_lookup(
                views,
                embs,
                i + 1,
                other,
            ) {
                Some(x) => Some(x),
                None => find_doc(mid, other),
            } by {
                if other != id {
                    assert(find_doc(held, other) == match batch_lookup(
                        views,
                        embs,
                        i as int,
                        other,
                    ) {
                        Some(x) => Some(x),
                        None => find_doc(mid, other),
                    });
                }
            }
            assert(find_doc(held, id) == match batch_lookup(views, embs, i as int, id) {
                Some(x) => Some(x),
                None => find_doc(mid, id),
            });
            assert(present(id) == find_doc(mid, id).is_some());
            if in_order {
                assert(find_doc(mid, id).is_none());
                assert forall|j: int| 0 <= j < i implies (#[trigger] views[j]).id != id by {
                    assert(views[j].id != views[i as int].id);
                }
                lemma_batch_lookup_none(views, embs, i as int, id);
                assert(find_doc(held, id).is_none());
                assert(held.push(embedded(views[i as int], embs[i as int]->0)) =~= mid
                    + embedded_batch(views, embs, i + 1));
            }
        }
        i += 1;
    }
    proof {
        assert forall|id: Seq<char>| find_doc(rag.documents(), id) == after_batch(
            before,
            crate::text::opt_view(*remove_first),
            views,
            embs,
            id,
        ) by {
            assert(find_doc(rag.documents(), id) == match batch_lookup(views, embs, n as int, id) {
                Some(d) => Some(d),
                None => find_doc(mid, id),
            });
        }
        assert forall|k: int| 0 <= k < docs@.len() implies find_doc(
            rag.documents(),
            (#[trigger] docs@[k])@.id,
        ).is_some() by {
            assert(views[k] == docs@[k]@);
            lemma_batch_lookup(views, embs, n as int, k);
            assert(find_doc(rag.documents(), views[k].id) == match batch_lookup(
                views,
                embs,
                n as int,
                views[k].id,
            ) {
                Some(d) => Some(d),
                None => find_doc(mid, views[k].id),
            });
        }
    }
}

/// The count of fresh ids grows with the number of documents counted.
pub proof fn lemma_fresh_count_grows(
    present: spec_fn(Seq<char>) -> bool,
    docs: Seq<PendingView>,
    embeddings: Seq<Option<Seq<u32>>>,
    n: int,
    m: int,
)
    requires
        n <= m,
    ensures
        fresh_count(present, docs, embeddings, n) <= fresh_count(present, docs, embeddings, m),
    decreases m - n,
{
    if n < m {
        lemma_fresh_count_grows(present, docs, embeddings, n, m - 1);
    }
}

/// Every id of the first `n` documents of a batch is found among them.
pub proof fn lemma_batch_lookup(
    docs: Seq<PendingView>,
    embeddings: Seq<Option<Seq<u32>>>,
    n: int,
    k: int,
)
    requires
        0 <= k < n,
    ensures
        batch_lookup(docs, embeddings, n, docs[k].id).is_some(),
    decreases n,
{
    if k < n - 1 && docs[n - 1].id != docs[k].id {
        lemma_batch_lookup(docs, embeddings, n - 1, k);
    }
}

/// One batch of a full run: documents and their embeddings.
#[derive(Clone, Debug)]
pub struct SyncBatch {
    pub documents: Vec<PendingDocument>,
    pub embeddings: Vec<Option<Vec<u32>>>,
}

/// The model of a batch.
pub struct BatchView {
    pub documents: Seq<PendingView>,
    pub embeddings: Seq<Option<Seq<u32>>>,
}

impl View for SyncBatch {
    type V = BatchView;

    open spec fn view(&self) -> BatchView {
        BatchView {
            documents: pending_views(self.documents@),
            embeddings: embedding_views(self.embeddings@),
        }
    }
}

/// The views of a list of batches.
pub open spec fn batch_views(batches: Seq<SyncBatch>) -> Seq<BatchView> {
    Seq::new(batches.len(), |i: int| batches[i]@)
}

/// What is found under an id once the first `k` batches have entered an
/// empty index; a batch that is not complete leaves no trace.
pub open spec fn synced(batches: Seq<BatchView>, k: int, id: Seq<char>) -> Option<DocumentView>
    decreases k,
{
    if k <= 0 {
        None
    } else {
        let b = batches[k - 1];
        if complete(b.documents, b.embeddings) {
            match batch_lookup(b.documents, b.embeddings, b.documents.len() as int, id) {
                Some(d) => Some(d),
                None => synced(batches, k - 1, id),
            }
        } else {
            synced(batches, k - 1, id)
        }
    }
}

/// The number of documents once the first `k` batches have entered an empty
/// index.
pub open spec fn synced_count(batches: Seq<BatchView>, k: int) -> nat
    decreases k,
{
    if k <= 0 {
        0
    } else {
        let b = batches[k - 1];
        if complete(b.documents, b.embeddings) {
            synced_count(batches, k - 1) + fresh_count(
                |id: Seq<char>| synced(batches, k - 1, id).is_some(),
                b.documents,
                b.embeddings,
                b.documents.len() as int,
            )
        } else {
            synced_count(batches, k - 1)
        }
    }
}

/// The count of fresh ids depends on which ids were present only.
pub proof fn lemma_fresh_count_same(
    p: spec_fn(Seq<char>) -> bool,
    q: spec_fn(Seq<char>) -> bool,
    docs: Seq<PendingView>,
    embeddings: Seq<Option<Seq<u32>>>,
    n: int,
)
    requires
        forall|id: Seq<char>| #[trigger] p(id) == q(id),
    ensures
        fresh_count(p, docs, embeddings, n) == fresh_count(q, docs, embeddings, n),
    decreases n,
{
    if n > 0 {
        lemma_fresh_count_same(p, q, docs, embeddings, n - 1);
    }
}

/// The number of documents grows with the number of batches that entered.
pub proof fn lemma_synced_count_grows(batches: Seq<BatchView>, k: int, m: int)
    requires
        k <= m,
    ensures
        synced_count(batches, k) <= synced_count(batches, m),
    decreases m - k,
{
    if k < m {
        lemma_synced_count_grows(batches, k, m - 1);
    }
}

/// Whether one of the first `k` batches is complete and holds the id.
fn synced_holds(batches: &Vec<SyncBatch>, k: usize, id: &str) -> (r: bool)
    requires
        k <= batches@.len(),
    ensures
        r == synced(batch_views(batches@), k as int, id@).is_some(),
{
    let ghost all = batch_views(batches@);
    let mut found = false;
    let mut j: usize = 0;
    while j < k
        invariant
            j <= k <= batches@.len(),
            all == batch_views(batches@),
            found == synced(all, j as int, id@).is_some(),
        decreases k - j,
    {
        let b = &batches[j];
        assert(all[j as int] == b@);
        if all_embedded(b.documents.len(), &b.embeddings) && holds_id(
            &b.documents,
            b.documents.len(),
            id,
            Ghost(embedding_views(b.embeddings@)),
        ) {
            found = true;
        }
        j += 1;
    }
    found
}

/// The number of documents that the batches leave in an emptied index, where
/// the machine can hold that number.
fn count_synced(batches: &Vec<SyncBatch>) -> (r: Option<usize>)
    ensures
        match r {
            Some(count) => count == synced_count(batch_views(batches@), batches@.len() as int),
            None => synced_count(batch_views(batches@), batches@.len() as int) > usize::MAX,
        },
{
    let ghost all = batch_views(batches@);
    let mut total: usize = 0;
    let mut k: usize = 0;
    while k < batches.len()
        invariant
            k <= batches@.len(),
            all == batch_views(batches@),
            total == synced_count(all, k as int),
        decreases batches@.len() - k,
    {
        let b = &batches[k];
        assert(all[k as int] == b@);
        if all_embedded(b.documents.len(), &b.embeddings) {
            let ghost held = |id: Seq<char>| synced(all, k as int, id).is_some();
            let ghost views = pending_views(b.documents@);
            let ghost embs = embedding_views(b.embeddings@);
            let mut fresh: usize = 0;
            let mut i: usize = 0;
            while i < b.documents.len()
                invariant
                    i <= b.documents@.len(),
                    k < batches@.len(),
                    all == batch_views(batches@),
                    views == pending_views(b.documents@),
                    held == (|id: Seq<char>| synced(all, k as int, id).is_some()),
                    fresh <= i,
                    fresh == fresh_count(held, views, embs, i as int),
                decreases b.documents@.len() - i,
            {
                let id = b.documents[i].id.as_str();
                assert(views[i as int].id == id@);
                let there = synced_holds(batches, k, id);
                assert(there == held(id@));
                if !there && !holds_id(&b.documents, i, id, Ghost(embs)) {
                    fresh += 1;
                }
                i += 1;
            }
            assert(synced_count(all, k + 1) == total + fresh);
            match total.checked_add(fresh) {
                Some(sum) => {
                    total = sum;
                },
                None => {
                    proof {
                        lemma_synced_count_grows(all, k + 1, batches@.len() as int);
                    }
                    return None;
                },
            }
        }
        k += 1;
    }
    Some(total)
}

/// A full run: the index is emptied, then the batches enter in their order,
/// each whole or not at all. Returns the number of documents in the index,
/// which, like the documents themselves, depends on the batches alone and
/// not on what the index held before. The run succeeds whenever the number of
/// documents that the batches leave is one that the machine can hold; where
/// it is not, the run fails, with the index full, and the index is as it
/// was.
pub fn full_sync<S: VectorStore>(rag: &mut RagSystem<S>, batches: &Vec<SyncBatch>) -> (r: Result<
    usize,
    RagError,
>)
    requires
        old(rag).wf(),
    ensures
        final(rag).wf(),
        match r {
            Ok(count) => {
                &&& count == final(rag).documents().len()
                &&& count == synced_count(batch_views(batches@), batches@.len() as int)
                &&& forall|id: Seq<char>|
                    find_doc(final(rag).documents(), id) == synced(
                        batch_views(batches@),
                        batches@.len() as int,
                        id,
                    )
            },
            Err(e) => {
                &&& e == RagError::IndexFull
                &&& synced_count(batch_views(batches@), batches@.len() as int) > usize::MAX
                &&& *final(rag) == *old(rag)
            },
        },
{
    if count_synced(batches).is_none() {
        return Err(RagError::IndexFull);
    }
    rag.clear();
    let ghost all = batch_views(batches@);
    proof {
        assert forall|id: Seq<char>| find_doc(rag.documents(), id) == synced(all, 0, id) by {
            lemma_position_of(rag.documents(), id);
        }
    }
    let none: Option<String> = None;
    let mut k: usize = 0;
    while k < batches.len()
        invariant
            k <= batches.len(),
            rag.wf(),
            none.is_none(),
            all == batch_views(batches@),
            rag.documents().len() == synced_count(all, k as int),
            rag.spare() >= usize::MAX - synced_count(all, k as int),
            synced_count(all, batches@.len() as int) <= usize::MAX,
            forall|id: Seq<char>| find_doc(rag.documents(), id) == synced(all, k as int, id),
        decreases batches.len() - k,
    {
        let b = &batches[k];
        let ghost held = rag.documents();
        assert(all[k as int] == b@);
        proof {
            let bv = all[k as int];
            let p = present_after_removal(held, None);
            let q = |id: Seq<char>| synced(all, k as int, id).is_some();
            assert forall|id: Seq<char>| #[trigger] p(id) == q(id) by {
                assert(find_doc(held, id) == synced(all, k as int, id));
            }
            lemma_fresh_count_same(p, q, bv.documents, bv.embeddings, bv.documents.len() as int);
            lemma_synced_count_grows(all, k + 1, batches@.len() as int);
        }
        if all_embedded(b.documents.len(), &b.embeddings) {
            enter_batch(rag, &none, &b.documents, &b.embeddings);
        }
        proof {
            assert forall|id: Seq<char>| find_doc(rag.documents(), id) == synced(
                all,
                k + 1,
                id,
            ) by {
                assert(find_doc(held, id) == synced(all, k as int, id));
            }
        }
        k += 1;
    }
    Ok(rag.count_documents())
}

// ---------------------------------------------------------------------------
// Credentials
// ---------------------------------------------------------------------------

/// Where credentials were found.
#[derive(Clone, Copy, Debug, PartialEq, Eq, Structural)]
pub enum CredentialSource {
    /// In the cache of the configuration.
    Cached,
    /// In the environment.
    Environment,
}

/// Why a run could not begin.
#[derive(Clone, Copy, Debug, PartialEq, Eq, Structural)]
pub enum SyncError {
    /// There is no session and there are no credentials to sign in with.
    NoCredentials,
    /// Signing in with the credentials that were found failed.
    LoginFailed,
}

/// The first of two values that is there.
fn first_of(a: Option<String>, b: Option<String>) -> (r: Option<String>)
    ensures
        r == if a.is_some() {
            a
        } else {
            b
        },
{
    match a {
        Some(x) => Some(x),
        None => b,
    }
}

/// The credentials that the environment holds: the user name under
/// `POLIFORMAT_USER` or else `POLIFORMAT_DNI`, the PIN under
/// `POLIFORMAT_PIN` or else `POLIFORMAT_PASSWORD`. Both must be there.
pub fn env_credentials(
    user: Option<String>,
    dni: Option<String>,
    pin: Option<String>,
    password: Option<String>,
) -> (r: Option<AuthCredentials>)
    ensures
        match r {
            Some(c) => {
                &&& (user.is_some() || dni.is_some())
                &&& (pin.is_some() || password.is_some())
                &&& c.username == if user.is_some() {
                    user->0
                } else {
                    dni->0
                }
                &&& c.pin == if pin.is_some() {
                    pin->0
                } else {
                    password->0
                }
            },
            None => (user.is_none() && dni.is_none()) || (pin.is_none() && password.is_none()),
        },
{
    match (first_of(user, dni), first_of(pin, password)) {
        (Some(username), Some(pin)) => Some(AuthCredentials { username, pin }),
        _ => None,
    }
}

/// The credentials to sign in with: those of the cache where there are any,
/// else those of the environment. Where there are none, the user must be
/// asked.
pub fn resolve_credentials(cached: Option<CachedCredentials>, env: Option<AuthCredentials>) -> (r:
    Option<(AuthCredentials, CredentialSource)>)
    ensures
        match r {
            Some(found) => match cached {
                Some(c) => found.0.username == c.username && found.0.pin == c.pin && found.1
                    == CredentialSource::Cached,
                None => env == Some(found.0) && found.1 == CredentialSource::Environment,
            },
            None => cached.is_none() && env.is_none(),
        },
{
    match cached {
        Some(c) => Some(
            (AuthCredentials { username: c.username, pin: c.pin }, CredentialSource::Cached),
        ),
        None => match env {
            Some(e) => Some((e, CredentialSource::Environment)),
            None => None,
        },
    }
}

/// What a run does first.
#[derive(Clone, Debug)]
pub enum SyncStart {
    /// There is a session: the run proceeds.
    Proceed,
    /// There is no session: sign in with these credentials first.
    SignIn(AuthCredentials, CredentialSource),
    /// There is no session and nothing to sign in with.
    Abort(SyncError),
}

/// Decides what a run does first.
pub fn begin_sync(
    connected: bool,
    cached: Option<CachedCredentials>,
    env: Option<AuthCredentials>,
) -> (r: SyncStart)
    ensures
        connected ==> r is Proceed,
        !connected && cached.is_none() && env.is_none() ==> r is Abort && r->Abort_0
            == SyncError::NoCredentials,
        !connected && cached.is_some() ==> r is SignIn && r->SignIn_0.username
            == cached->0.username && r->SignIn_0.pin == cached->0.pin && r->SignIn_1
            == CredentialSource::Cached,
        !connected && cached.is_none() && env.is_some() ==> r is SignIn && r->SignIn_0 == env->0
            && r->SignIn_1 == CredentialSource::Environment,
{
    if connected {
        return SyncStart::Proceed;
    }
    match resolve_credentials(cached, env) {
        Some(found) => SyncStart::SignIn(found.0, found.1),
        None => SyncStart::Abort(SyncError::NoCredentials),
    }
}

/// Records how signing in with found credentials ended: credentials that
/// worked are cached, and where signing in failed whatever is cached is
/// forgotten and the run ends.
pub fn after_sign_in(config: &mut Config, credentials: &AuthCredentials, succeeded: bool) -> (r:
    Result<(), SyncError>)
    ensures
        succeeded ==> r.is_ok() && final(config).credentials() == Some(
            (credentials.username@, credentials.pin@),
        ),
        !succeeded ==> r == Err::<(), SyncError>(SyncError::LoginFailed),
        !succeeded ==> final(config).cached_credentials.is_none(),
        final(config).last_model == old(config).last_model,
        final(config).llm_provider == old(config).llm_provider,
        final(config).openrouter_api_key == old(config).openrouter_api_key,
        final(config).openrouter_model == old(config).openrouter_model,
{
    if succeeded {
        config.save_credentials(credentials.username.as_str(), credentials.pin.as_str());
        Ok(())
    } else {
        config.clear_credentials();
        Err(SyncError::LoginFailed)
    }
}

} // verus!

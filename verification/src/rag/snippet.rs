//! Choosing the excerpt of a document that is shown for a query.
//!
//! The document is read as a sequence of words. A window of fifty words slides
//! over it; the window in which the most distinct words of the query occur
//! wins, the first such window where several do. The excerpt starts fifty
//! characters before the winning window and is cut at word boundaries.

use crate::rag::document::{lookup, Document, DocumentView};
use crate::rag::store::saturated;
use crate::text::{char_views, chars_of, chars_of_all, contains, contains_text, find_char, first_index_of, is_space, join, joined, last_index_of, lowercase, push_all, push_str, rfind_char, same_chars, scan, scan_start, scan_step, slice, split_words, str_views, string_of, trim, trimmed, words};
use vstd::prelude::*;

verus! {

/// The number of words in a window.
pub const WINDOW_SIZE: usize = 50;

/// The number of characters before the winning window that the excerpt takes
/// along.
pub const LEAD_CHARS: usize = 50;

/// The number of characters of an excerpt that is shown for a query.
pub const SNIPPET_CHARS: usize = 1500;

/// The window that begins with word `i`, in lowercase.
pub open spec fn window(ws: Seq<Seq<char>>, i: int) -> Seq<char> {
    lowercase(joined(ws.subrange(i, i + 50), seq![' ']))
}

/// Word `k` of the query counts for a window: it occurs in it, and it is not
/// a repetition of an earlier word of the query.
pub open spec fn counts(win: Seq<char>, query: Seq<Seq<char>>, k: int) -> bool {
    &&& contains_text(win, query[k])
    &&& forall|j: int| 0 <= j < k ==> query[j] != query[k]
}

/// The number of distinct words among the first `n` of the query that occur
/// in the window.
pub open spec fn window_score(win: Seq<char>, query: Seq<Seq<char>>, n: int) -> nat
    decreases n,
{
    if n <= 0 {
        0
    } else {
        window_score(win, query, n - 1) + if counts(win, query, n - 1) {
            1nat
        } else {
            0nat
        }
    }
}

/// The number of windows of a document of `n` words: one for each word that
/// has forty-nine words after it, so none for fewer than fifty words.
pub open spec fn window_count(n: nat) -> nat {
    if n >= 50 {
        (n - 49) as nat
    } else {
        0
    }
}

/// The best score among the first `n` windows, and the first window that has
/// it; the score zero and the first window where no word of the query occurs.
pub open spec fn best_window(ws: Seq<Seq<char>>, query: Seq<Seq<char>>, n: int) -> (nat, int)
    decreases n,
{
    if n <= 0 {
        (0, 0)
    } else {
        let before = best_window(ws, query, n - 1);
        let here = window_score(window(ws, n - 1), query, query.len() as int);
        if here > before.0 {
            (here, n - 1)
        } else {
            before
        }
    }
}

/// The character offset given to word `i`: every word before it counts with
/// one separator.
pub open spec fn offset_of(ws: Seq<Seq<char>>, i: int) -> nat
    decreases i,
{
    if i <= 0 {
        0
    } else {
        offset_of(ws, i - 1) + ws[i - 1].len() + 1
    }
}

/// The characters after the first space; all of them where there is no space.
pub open spec fn after_first_space(s: Seq<char>) -> Seq<char> {
    match first_index_of(s, ' ') {
        Some(i) => s.subrange(i + 1, s.len() as int),
        None => s,
    }
}

/// The characters before the last space; all of them where there is no space.
pub open spec fn before_last_space(s: Seq<char>) -> Seq<char> {
    match last_index_of(s, ' ') {
        Some(i) => s.subrange(0, i),
        None => s,
    }
}

/// The excerpt of at most `max_chars` characters that starts fifty characters
/// before `pos`: cut at the first space and marked with three dots where it
/// does not start at the start, cut at the last space and marked with three
/// dots where it does not reach the end, and trimmed.
pub open spec fn excerpt(content: Seq<char>, pos: nat, max_chars: nat) -> Seq<char> {
    let aim = if pos > 50 {
        pos - 50
    } else {
        0
    };
    let start = if aim > content.len() {
        content.len() as int
    } else {
        aim
    };
    let end = if start + max_chars > content.len() {
        content.len() as int
    } else {
        start + max_chars
    };
    let raw = content.subrange(start, end);
    let left = if start > 0 {
        "..."@ + after_first_space(raw)
    } else {
        raw
    };
    let right = if end < content.len() {
        before_last_space(left) + "..."@
    } else {
        left
    };
    trimmed(right)
}

/// The place in `content` that the query points to: the offset of the best
/// window, and the start where no word of the query occurs in any window.
pub open spec fn best_position(content: Seq<char>, query: Seq<Seq<char>>) -> nat {
    let ws = words(content);
    offset_of(ws, best_window(ws, query, window_count(ws.len()) as int).1)
}

/// The excerpt of `content` that is shown for the words of a query.
pub open spec fn snippet(content: Seq<char>, query: Seq<Seq<char>>, max_chars: nat) -> Seq<char> {
    excerpt(content, best_position(content, query), max_chars)
}

/// Where no word of the query occurs in any window, the excerpt is the start
/// of the content: its first `max_chars` characters, cut at the last space and
/// marked with three dots where the content is longer, and trimmed.
pub proof fn lemma_snippet_fallback(content: Seq<char>, query: Seq<Seq<char>>, max_chars: nat)
    requires
        best_window(words(content), query, window_count(words(content).len()) as int).0 == 0,
    ensures
        max_chars >= content.len() ==> snippet(content, query, max_chars) == trimmed(content),
        max_chars < content.len() ==> snippet(content, query, max_chars) == trimmed(
            before_last_space(content.subrange(0, max_chars as int)) + "..."@,
        ),
{
    let ws = words(content);
    lemma_best_window(ws, query, window_count(ws.len()) as int);
    assert(best_position(content, query) == 0);
    assert(content.subrange(0, content.len() as int) =~= content);
}

/// Trimming at the start makes no text longer.
pub proof fn lemma_trimmed_start_len(s: Seq<char>)
    ensures
        crate::text::trimmed_start(s).len() <= s.len(),
    decreases s.len(),
{
    if s.len() > 0 && is_space(s[0]) {
        lemma_trimmed_start_len(s.drop_first());
    }
}

/// Trimming at the end makes no text longer.
pub proof fn lemma_trimmed_end_len(s: Seq<char>)
    ensures
        crate::text::trimmed_end(s).len() <= s.len(),
    decreases s.len(),
{
    if s.len() > 0 && is_space(s.last()) {
        lemma_trimmed_end_len(s.drop_last());
    }
}

/// An excerpt holds at most `max_chars` characters of the content, and the
/// two marks of three dots.
pub proof fn lemma_excerpt_length(content: Seq<char>, pos: nat, max_chars: nat)
    ensures
        excerpt(content, pos, max_chars).len() <= max_chars + 6,
        excerpt(content, pos, max_chars).len() <= content.len() + 6,
{
    reveal_strlit("...");
    let aim = if pos > 50 {
        pos - 50
    } else {
        0
    };
    let start = if aim > content.len() {
        content.len() as int
    } else {
        aim
    };
    let end = if start + max_chars > content.len() {
        content.len() as int
    } else {
        start + max_chars
    };
    let raw = content.subrange(start, end);
    crate::text::lemma_first_index_of(raw, ' ');
    let left = if start > 0 {
        "..."@ + after_first_space(raw)
    } else {
        raw
    };
    crate::text::lemma_last_index_of(left, ' ');
    let right = if end < content.len() {
        before_last_space(left) + "..."@
    } else {
        left
    };
    lemma_trimmed_start_len(right);
    lemma_trimmed_end_len(crate::text::trimmed_start(right));
}

/// The best window has the best score, it is the first that has it, and it is
/// the first window where the score is zero.
pub proof fn lemma_best_window(ws: Seq<Seq<char>>, query: Seq<Seq<char>>, n: int)
    ensures
        n > 0 ==> 0 <= best_window(ws, query, n).1 < n,
        n <= 0 ==> best_window(ws, query, n).1 == 0,
        best_window(ws, query, n).0 == 0 ==> best_window(ws, query, n).1 == 0,
        forall|i: int|
            0 <= i < n ==> window_score(#[trigger] window(ws, i), query, query.len() as int)
                <= best_window(ws, query, n).0,
        forall|i: int|
            0 <= i < best_window(ws, query, n).1 ==> window_score(
                #[trigger] window(ws, i),
                query,
                query.len() as int,
            ) < best_window(ws, query, n).0,
        best_window(ws, query, n).0 > 0 ==> window_score(
            window(ws, best_window(ws, query, n).1),
            query,
            query.len() as int,
        ) == best_window(ws, query, n).0,
    decreases n,
{
    if n > 0 {
        lemma_best_window(ws, query, n - 1);
    }
}

/// Whether word `k` of the query repeats an earlier word of it.
fn repeats(query: &Vec<Vec<char>>, k: usize) -> (r: bool)
    requires
        k < query.len(),
    ensures
        r == !(forall|j: int| 0 <= j < k ==> char_views(query@)[j] != char_views(query@)[k as int]),
{
    let mut j: usize = 0;
    while j < k
        invariant
            j <= k < query.len(),
            forall|i: int| 0 <= i < j ==> char_views(query@)[i] != char_views(query@)[k as int],
        decreases k - j,
    {
        if same_chars(&query[j], &query[k]) {
            assert(char_views(query@)[j as int] == char_views(query@)[k as int]);
            return true;
        }
        j += 1;
    }
    false
}

/// The score of a window.
fn score_window(win: &Vec<char>, query: &Vec<Vec<char>>) -> (r: usize)
    ensures
        r == window_score(win@, char_views(query@), query@.len() as int),
{
    let mut score: usize = 0;
    let mut k: usize = 0;
    while k < query.len()
        invariant
            k <= query.len(),
            score <= k,
            score == window_score(win@, char_views(query@), k as int),
        decreases query.len() - k,
    {
        if contains(win, &query[k]) && !repeats(query, k) {
            score += 1;
        }
        k += 1;
    }
    score
}

/// The window that begins with word `i`, in lowercase.
fn window_at(ws: &Vec<Vec<char>>, i: usize) -> (r: Vec<char>)
    requires
        i + 50 <= ws.len(),
    ensures
        r@ == window(char_views(ws@), i as int),
{
    let mut part: Vec<Vec<char>> = Vec::new();
    let mut k: usize = 0;
    while k < 50
        invariant
            k <= 50,
            i + 50 <= ws.len(),
            part@.len() == k,
            forall|j: int| 0 <= j < k ==> (#[trigger] part@[j])@ == ws@[i + j]@,
        decreases 50 - k,
    {
        part.push(slice(&ws[i + k], 0, ws[i + k].len()));
        assert(ws@[i + k]@.subrange(0, ws@[i + k]@.len() as int) =~= ws@[i + k]@);
        k += 1;
    }
    assert(char_views(part@) =~= char_views(ws@).subrange(i as int, i + 50));
    let mut sep: Vec<char> = Vec::new();
    sep.push(' ');
    assert(sep@ =~= seq![' ']);
    let text = string_of(&join(&part, &sep));
    let lower = text.as_str().to_lowercase();
    chars_of(lower.as_str())
}

/// The place in the content that the query points to.
fn locate(ws: &Vec<Vec<char>>, query: &Vec<Vec<char>>) -> (pos: usize)
    ensures
        pos == saturated(
            offset_of(
                char_views(ws@),
                best_window(
                    char_views(ws@),
                    char_views(query@),
                    window_count(ws@.len()) as int,
                ).1,
            ),
        ),
{
    let ghost w = char_views(ws@);
    let ghost q = char_views(query@);
    let n: usize = if ws.len() >= 50 {
        ws.len() - 49
    } else {
        0
    };
    let mut best_score: usize = 0;
    let mut best_pos: usize = 0;
    let mut here_pos: usize = 0;
    let mut i: usize = 0;
    while i < n
        invariant
            i <= n,
            n + 49 <= ws.len() || n == 0,
            w == char_views(ws@),
            q == char_views(query@),
            best_score == best_window(w, q, i as int).0,
            best_pos == saturated(offset_of(w, best_window(w, q, i as int).1)),
            here_pos == saturated(offset_of(w, i as int)),
        decreases n - i,
    {
        let win = window_at(ws, i);
        let score = score_window(&win, query);
        if score > best_score {
            best_score = score;
            best_pos = here_pos;
        }
        let step: usize = ws[i].len().saturating_add(1);
        here_pos = here_pos.saturating_add(step);
        i += 1;
    }
    best_pos
}

/// The excerpt that starts fifty characters before `pos`.
pub fn cut_excerpt(content: &Vec<char>, pos: usize, max_chars: usize) -> (r: Vec<char>)
    ensures
        r@ == excerpt(content@, pos as nat, max_chars as nat),
{
    let len: usize = content.len();
    let aim: usize = if pos > 50 {
        pos - 50
    } else {
        0
    };
    let start: usize = if aim > len {
        len
    } else {
        aim
    };
    let end: usize = if max_chars > len - start {
        len
    } else {
        start + max_chars
    };
    let raw = slice(content, start, end);
    let left: Vec<char> = if start > 0 {
        let mut out: Vec<char> = Vec::new();
        push_str(&mut out, "...");
        match find_char(&raw, ' ') {
            Some(i) => {
                let tail = slice(&raw, i + 1, raw.len());
                push_all(&mut out, &tail);
            },
            None => {
                push_all(&mut out, &raw);
            },
        }
        out
    } else {
        raw
    };
    let right: Vec<char> = if end < len {
        let mut out: Vec<char> = match rfind_char(&left, ' ') {
            Some(i) => slice(&left, 0, i),
            None => left,
        };
        push_str(&mut out, "...");
        out
    } else {
        left
    };
    trim(&right)
}

/// The offset of a word does not depend on the words after it.
pub proof fn lemma_offset_prefix(a: Seq<Seq<char>>, b: Seq<Seq<char>>, i: int)
    requires
        i <= a.len() <= b.len(),
        forall|k: int| 0 <= k < a.len() ==> a[k] == b[k],
    ensures
        offset_of(a, i) == offset_of(b, i),
    decreases i,
{
    if i > 0 {
        lemma_offset_prefix(a, b, i - 1);
    }
}

/// Offsets grow with the index.
pub proof fn lemma_offset_grows(ws: Seq<Seq<char>>, i: int, j: int)
    requires
        i <= j,
    ensures
        offset_of(ws, i) <= offset_of(ws, j),
    decreases j - i,
{
    if i < j {
        lemma_offset_grows(ws, i, j - 1);
    }
}

/// The words closed by a scan, each with one separator, and the word under
/// way take no more characters than were scanned.
pub proof fn lemma_scan_offsets(s: Seq<char>)
    ensures
        offset_of(scan(scan_start(), s).done, scan(scan_start(), s).done.len() as int) + scan(
            scan_start(),
            s,
        ).word.len() <= s.len(),
    decreases s.len(),
{
    if s.len() > 0 {
        lemma_scan_offsets(s.drop_last());
        let mid = scan(scan_start(), s.drop_last());
        let end = scan_step(mid, s.last());
        if is_space(s.last()) && mid.word.len() > 0 {
            lemma_offset_prefix(mid.done, end.done, mid.done.len() as int);
        }
    }
}

/// The offset of every word of a text is a place in the text.
pub proof fn lemma_offset_in_text(s: Seq<char>, i: int)
    requires
        i < words(s).len(),
    ensures
        offset_of(words(s), i) <= s.len(),
{
    let st = scan(scan_start(), s);
    let ws = words(s);
    lemma_scan_offsets(s);
    if i > 0 {
        if st.word.len() > 0 {
            lemma_offset_prefix(st.done, ws, st.done.len() as int);
            lemma_offset_grows(ws, i, st.done.len() as int);
        } else {
            lemma_offset_grows(ws, i, ws.len() as int);
        }
    }
}

/// The place that a query points to is a place in the content.
pub proof fn lemma_best_position(content: Seq<char>, query: Seq<Seq<char>>)
    ensures
        best_position(content, query) <= content.len(),
{
    let ws = words(content);
    let n = window_count(ws.len()) as int;
    lemma_best_window(ws, query, n);
    if n > 0 {
        lemma_offset_in_text(content, best_window(ws, query, n).1);
    }
}

/// The excerpt of a document that is shown for the words of a query. The
/// words of the query are expected in lowercase.
pub fn extract_relevant_snippet(content: &str, query_words: &Vec<String>, max_chars: usize) -> (r:
    String)
    ensures
        r@ == snippet(content@, str_views(query_words@), max_chars as nat),
{
    let text = chars_of(content);
    let ws = split_words(&text);
    let query = chars_of_all(query_words);
    proof {
        lemma_best_position(content@, str_views(query_words@));
    }
    let pos = locate(&ws, &query);
    string_of(&cut_excerpt(&text, pos, max_chars))
}

/// Whether the document is the summary of a subject.
pub open spec fn is_subject(doc: DocumentView) -> bool {
    lookup(doc.metadata, "type"@) == Some("subject"@)
}

/// The name under which a document is shown as a source: its id for the
/// summary of a subject, else the file name its metadata records, else its
/// id.
pub open spec fn source_label(doc: DocumentView) -> Seq<char> {
    if is_subject(doc) {
        doc.id
    } else {
        match lookup(doc.metadata, "filename"@) {
            Some(f) => f,
            None => doc.id,
        }
    }
}

/// The name under which a document is shown as a source.
pub fn label_of(doc: &Document) -> (r: String)
    ensures
        r@ == source_label(doc@),
{
    let subject = match doc.metadata.get("type") {
        Some(t) => t.as_str().eq("subject"),
        None => false,
    };
    if subject {
        doc.id.clone()
    } else {
        match doc.metadata.get("filename") {
            Some(f) => f.clone(),
            None => doc.id.clone(),
        }
    }
}

} // verus!

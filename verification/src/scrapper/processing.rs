//! Turning downloaded resources into indexable text: the normalisation of text
//! taken from a PDF, the framing of what the extractor process prints, and the
//! decisions taken for each archive entry and each file found.

use crate::text::{chars_of, ends_with, find_from, first_occurrence, has_suffix, join, joined, last_index_of, lemma_words_keep, lemma_words_of_joined, lemma_words_proper, opt_view, push_str, rfind_char, same_chars, slice, split_words, string_of, words};
use vstd::prelude::*;

verus! {

// ---------------------------------------------------------------------------
// Text normalisation
// ---------------------------------------------------------------------------

/// What one character becomes: ligatures and digraphs are spelled out, curly
/// quotes, dashes and the ellipsis become ASCII, the no-break space becomes a
/// space, and every other character stays.
pub open spec fn expansion(c: char) -> Seq<char> {
    let n = c as u32;
    if n == 0xFB00 {
        seq!['f', 'f']
    } else if n == 0xFB01 {
        seq!['f', 'i']
    } else if n == 0xFB02 {
        seq!['f', 'l']
    } else if n == 0xFB03 {
        seq!['f', 'f', 'i']
    } else if n == 0xFB04 {
        seq!['f', 'f', 'l']
    } else if n == 0xFB05 || n == 0xFB06 {
        seq!['s', 't']
    } else if n == 0x0132 {
        seq!['I', 'J']
    } else if n == 0x0133 {
        seq!['i', 'j']
    } else if n == 0x0152 {
        seq!['O', 'E']
    } else if n == 0x0153 {
        seq!['o', 'e']
    } else if n == 0x00C6 {
        seq!['A', 'E']
    } else if n == 0x00E6 {
        seq!['a', 'e']
    } else if n == 0x2018 || n == 0x2019 {
        seq!['\'']
    } else if n == 0x201C || n == 0x201D {
        seq!['"']
    } else if n == 0x2013 || n == 0x2014 {
        seq!['-']
    } else if n == 0x2026 {
        seq!['.', '.', '.']
    } else if n == 0x00A0 {
        seq![' ']
    } else {
        seq![c]
    }
}

/// A character that normalisation leaves as it is.
pub open spec fn is_plain(c: char) -> bool {
    expansion(c) == seq![c]
}

/// The text with every character replaced by its expansion.
pub open spec fn expanded(s: Seq<char>) -> Seq<char>
    decreases s.len(),
{
    if s.len() == 0 {
        Seq::empty()
    } else {
        expanded(s.drop_last()) + expansion(s.last())
    }
}

/// The normal form of a text: every character expanded, then the words joined
/// by single spaces.
pub open spec fn normalized(s: Seq<char>) -> Seq<char> {
    joined(words(expanded(s)), seq![' '])
}

/// Appends the expansion of `c`.
fn push_expansion(out: &mut Vec<char>, c: char)
    ensures
        final(out)@ == old(out)@ + expansion(c),
{
    let n: u32 = c as u32;
    if n == 0xFB00 {
        out.push('f');
        out.push('f');
    } else if n == 0xFB01 {
        out.push('f');
        out.push('i');
    } else if n == 0xFB02 {
        out.push('f');
        out.push('l');
    } else if n == 0xFB03 {
        out.push('f');
        out.push('f');
        out.push('i');
    } else if n == 0xFB04 {
        out.push('f');
        out.push('f');
        out.push('l');
    } else if n == 0xFB05 || n == 0xFB06 {
        out.push('s');
        out.push('t');
    } else if n == 0x0132 {
        out.push('I');
        out.push('J');
    } else if n == 0x0133 {
        out.push('i');
        out.push('j');
    } else if n == 0x0152 {
        out.push('O');
        out.push('E');
    } else if n == 0x0153 {
        out.push('o');
        out.push('e');
    } else if n == 0x00C6 {
        out.push('A');
        out.push('E');
    } else if n == 0x00E6 {
        out.push('a');
        out.push('e');
    } else if n == 0x2018 || n == 0x2019 {
        out.push('\'');
    } else if n == 0x201C || n == 0x201D {
        out.push('"');
    } else if n == 0x2013 || n == 0x2014 {
        out.push('-');
    } else if n == 0x2026 {
        out.push('.');
        out.push('.');
        out.push('.');
    } else if n == 0x00A0 {
        out.push(' ');
    } else {
        out.push(c);
    }
    assert(out@ =~= old(out)@ + expansion(c));
}

/// Normalises text taken from a PDF.
pub fn normalize_chars(text: &Vec<char>) -> (r: Vec<char>)
    ensures
        r@ == normalized(text@),
{
    let mut wide: Vec<char> = Vec::new();
    let mut i: usize = 0;
    assert(text@.subrange(0, 0) =~= Seq::<char>::empty());
    while i < text.len()
        invariant
            i <= text.len(),
            wide@ == expanded(text@.subrange(0, i as int)),
        decreases text.len() - i,
    {
        push_expansion(&mut wide, text[i]);
        i += 1;
        assert(text@.subrange(0, i as int).drop_last() =~= text@.subrange(0, i - 1));
    }
    assert(text@.subrange(0, text.len() as int) =~= text@);
    let ws = split_words(&wide);
    let mut sep: Vec<char> = Vec::new();
    sep.push(' ');
    assert(sep@ =~= seq![' ']);
    join(&ws, &sep)
}

/// Normalises text taken from a PDF: ligatures, quotes, dashes and the ellipsis
/// become ASCII, and every run of white space becomes one space.
pub fn normalize_text(text: &str) -> (r: String)
    ensures
        r@ == normalized(text@),
{
    let v = chars_of(text);
    let n = normalize_chars(&v);
    string_of(&n)
}

/// Every character of an expansion is plain.
pub proof fn lemma_expansion_plain(c: char)
    ensures
        forall|i: int| 0 <= i < expansion(c).len() ==> is_plain(#[trigger] expansion(c)[i]),
{
    let e = expansion(c);
    assert forall|i: int| 0 <= i < e.len() implies is_plain(#[trigger] e[i]) by {
        let d = e[i];
        if e == seq![c] {
            assert(d == c);
        } else {
            assert(d == 'f' || d == 'i' || d == 'l' || d == 's' || d == 't' || d == 'I' || d == 'J'
                || d == 'j' || d == 'O' || d == 'E' || d == 'o' || d == 'e' || d == 'A' || d == 'a'
                || d == '\'' || d == '"' || d == '-' || d == '.' || d == ' ');
        }
    }
}

/// Every character of an expanded text is plain.
pub proof fn lemma_expanded_plain(s: Seq<char>)
    ensures
        forall|i: int| 0 <= i < expanded(s).len() ==> is_plain(#[trigger] expanded(s)[i]),
    decreases s.len(),
{
    if s.len() > 0 {
        lemma_expanded_plain(s.drop_last());
        lemma_expansion_plain(s.last());
        let a = expanded(s.drop_last());
        let b = expansion(s.last());
        assert forall|i: int| 0 <= i < expanded(s).len() implies is_plain(
            #[trigger] expanded(s)[i],
        ) by {
            if i < a.len() {
                assert(expanded(s)[i] == a[i]);
            } else {
                assert(expanded(s)[i] == b[i - a.len()]);
            }
        }
    }
}

/// Expanding a text of plain characters changes nothing.
pub proof fn lemma_expanded_of_plain(s: Seq<char>)
    requires
        forall|i: int| 0 <= i < s.len() ==> is_plain(#[trigger] s[i]),
    ensures
        expanded(s) == s,
    decreases s.len(),
{
    if s.len() > 0 {
        let init = s.drop_last();
        assert forall|i: int| 0 <= i < init.len() implies is_plain(#[trigger] init[i]) by {
            assert(init[i] == s[i]);
        }
        lemma_expanded_of_plain(init);
        assert(is_plain(s[s.len() - 1]));
        assert(init + seq![s.last()] =~= s);
    }
}

/// A predicate that holds of every character of every word and of the
/// separator holds of every character of the joined text.
pub proof fn lemma_joined_keeps(ws: Seq<Seq<char>>, sep: Seq<char>, p: spec_fn(char) -> bool)
    requires
        forall|i: int, j: int| 0 <= i < ws.len() && 0 <= j < ws[i].len() ==> p(#[trigger] ws[i][j]),
        forall|j: int| 0 <= j < sep.len() ==> p(#[trigger] sep[j]),
    ensures
        forall|k: int| 0 <= k < joined(ws, sep).len() ==> p(#[trigger] joined(ws, sep)[k]),
    decreases ws.len(),
{
    if ws.len() == 0 {
    } else if ws.len() == 1 {
        assert forall|k: int| 0 <= k < ws[0].len() implies p(#[trigger] ws[0][k]) by {}
    } else {
        let init = ws.drop_last();
        assert forall|i: int, j: int| 0 <= i < init.len() && 0 <= j < init[i].len() implies p(
            #[trigger] init[i][j],
        ) by {
            assert(init[i] == ws[i]);
            assert(p(ws[i][j]));
        }
        lemma_joined_keeps(init, sep, p);
        let a = joined(init, sep);
        let all = joined(ws, sep);
        let last = ws.last();
        assert forall|k: int| 0 <= k < all.len() implies p(#[trigger] all[k]) by {
            if k < a.len() {
                assert(all[k] == a[k]);
            } else if k < a.len() + sep.len() {
                assert(all[k] == sep[k - a.len()]);
            } else {
                assert(all[k] == last[k - a.len() - sep.len()]);
                assert(last == ws[ws.len() - 1]);
                assert(p(ws[ws.len() - 1][k - a.len() - sep.len()]));
            }
        }
    }
}

/// Normalising a second time changes nothing.
pub proof fn lemma_normalize_idempotent(s: Seq<char>)
    ensures
        normalized(normalized(s)) == normalized(s),
{
    let sep = seq![' '];
    let wide = expanded(s);
    let ws = words(wide);
    let t = joined(ws, sep);
    let p = |c: char| is_plain(c);
    lemma_expanded_plain(s);
    assert forall|i: int| 0 <= i < wide.len() implies p(#[trigger] wide[i]) by {
        assert(is_plain(wide[i]));
    }
    lemma_words_keep(wide, p);
    assert(is_plain(' '));
    assert forall|j: int| 0 <= j < sep.len() implies p(#[trigger] sep[j]) by {
        assert(sep[j] == ' ');
    }
    lemma_joined_keeps(ws, sep, p);
    assert forall|i: int| 0 <= i < t.len() implies is_plain(#[trigger] t[i]) by {
        assert(p(t[i]));
    }
    lemma_expanded_of_plain(t);
    lemma_words_proper(wide);
    lemma_words_of_joined(ws);
}

/// A text without any word has the empty normal form, and only such a text.
pub proof fn lemma_normalized_empty(s: Seq<char>)
    ensures
        normalized(s).len() == 0 <==> words(expanded(s)).len() == 0,
{
    let ws = words(expanded(s));
    lemma_words_proper(expanded(s));
    if ws.len() == 1 {
        assert(ws[0].len() > 0);
    } else if ws.len() > 1 {
        assert(joined(ws, seq![' ']).len() >= 1);
    }
}

// ---------------------------------------------------------------------------
// The extractor process
// ---------------------------------------------------------------------------

/// The mark that precedes the extracted text in what the extractor prints.
pub open spec fn start_marker() -> Seq<char> {
    "<<<START_CONTENT>>>"@
}

/// The mark that follows the extracted text in what the extractor prints.
pub open spec fn end_marker() -> Seq<char> {
    "<<<END_CONTENT>>>"@
}

/// What the extractor prints for a text: the text between the two marks.
pub open spec fn framed(text: Seq<char>) -> Seq<char> {
    start_marker() + text + end_marker()
}

/// Frames an extracted text for standard output.
pub fn frame_content(text: &str) -> (r: String)
    ensures
        r@ == framed(text@),
{
    let mut out: Vec<char> = Vec::new();
    push_str(&mut out, "<<<START_CONTENT>>>");
    push_str(&mut out, text);
    push_str(&mut out, "<<<END_CONTENT>>>");
    assert(out@ =~= framed(text@));
    string_of(&out)
}

/// The region between the first start mark and the first end mark after it;
/// whatever stands outside is ignored.
pub open spec fn content_region(out: Seq<char>) -> Option<Seq<char>> {
    match first_occurrence(out, start_marker(), 0) {
        Some(a) => {
            let from = a + start_marker().len();
            match first_occurrence(out, end_marker(), from) {
                Some(b) => Some(out.subrange(from, b)),
                None => None,
            }
        },
        None => None,
    }
}

/// How a run of the extractor ended, by its exit code.
#[derive(Clone, Copy, Debug, PartialEq, Eq, Structural)]
pub enum ChildExit {
    /// The text was printed between the marks.
    Extracted,
    /// The decoder reported an error.
    Failed,
    /// The decoder aborted.
    Crashed,
}

/// The exit code the extractor process ends with.
pub fn exit_code_of(exit: ChildExit) -> (code: i32)
    ensures
        code == match exit {
            ChildExit::Extracted => 0i32,
            ChildExit::Failed => 1i32,
            ChildExit::Crashed => 2i32,
        },
{
    match exit {
        ChildExit::Extracted => 0,
        ChildExit::Failed => 1,
        ChildExit::Crashed => 2,
    }
}

/// Why a file gave no text.
#[derive(Clone, Copy, Debug, PartialEq, Eq, Structural)]
pub enum ProcessingError {
    /// The extractor process ended with the given nonzero exit code.
    PdfExtractionFailed(i32),
}

/// The text a run of the extractor yields: none on a nonzero exit code, none
/// without a framed region, none where the normal form of the region is empty.
pub open spec fn extracted_text(exit_code: int, out: Seq<char>) -> Option<Seq<char>> {
    if exit_code != 0 {
        None
    } else {
        match content_region(out) {
            Some(raw) => if normalized(raw).len() == 0 {
                None
            } else {
                Some(normalized(raw))
            },
            None => None,
        }
    }
}

/// The region between the marks in what the extractor printed.
pub fn delimited_content(out: &Vec<char>) -> (r: Option<Vec<char>>)
    ensures
        match r {
            Some(t) => content_region(out@) == Some(t@),
            None => content_region(out@).is_none(),
        },
{
    let start = chars_of("<<<START_CONTENT>>>");
    let end = chars_of("<<<END_CONTENT>>>");
    match find_from(out, &start, 0) {
        Some(a) => {
            let from: usize = a + start.len();
            match find_from(out, &end, from) {
                Some(b) => Some(slice(out, from, b)),
                None => None,
            }
        },
        None => None,
    }
}

/// Reads what one run of the extractor left: its exit code and its standard
/// output. A nonzero exit code is an error; otherwise the normalised text of the
/// framed region is returned, or nothing where there is no such region or no
/// text in it.
pub fn read_child_output(exit_code: i32, stdout: &str) -> (r: Result<Option<String>, ProcessingError>)
    ensures
        match r {
            Ok(text) => exit_code == 0 && opt_view(text) == extracted_text(0, stdout@),
            Err(e) => exit_code != 0 && e == ProcessingError::PdfExtractionFailed(exit_code),
        },
{
    if exit_code != 0 {
        return Err(ProcessingError::PdfExtractionFailed(exit_code));
    }
    let out = chars_of(stdout);
    match delimited_content(&out) {
        Some(raw) => {
            let text = normalize_chars(&raw);
            if text.len() == 0 {
                Ok(None)
            } else {
                Ok(Some(string_of(&text)))
            }
        },
        None => Ok(None),
    }
}

// ---------------------------------------------------------------------------
// File names
// ---------------------------------------------------------------------------

/// The extension of a file name: what follows its last dot, unless the name
/// has no dot, begins with its only dot, or is `..`.
pub open spec fn extension(name: Seq<char>) -> Option<Seq<char>> {
    match last_index_of(name, '.') {
        Some(i) => if i == 0 || name == seq!['.', '.'] {
            None
        } else {
            Some(name.subrange(i + 1, name.len() as int))
        },
        None => None,
    }
}

/// The stem of a file name: what precedes the dot of its extension, or the
/// whole name where it has no extension.
pub open spec fn stem(name: Seq<char>) -> Seq<char> {
    match last_index_of(name, '.') {
        Some(i) => if i == 0 || name == seq!['.', '.'] {
            name
        } else {
            name.subrange(0, i)
        },
        None => name,
    }
}

/// The last component of a path written with `/`; the whole path where
/// nothing follows its last `/`.
pub open spec fn file_name(path: Seq<char>) -> Seq<char> {
    match last_index_of(path, '/') {
        Some(i) => if i + 1 == path.len() {
            path
        } else {
            path.subrange(i + 1, path.len() as int)
        },
        None => path,
    }
}

/// Whether `name` is the two-dot name.
fn is_dot_dot(name: &Vec<char>) -> (r: bool)
    ensures
        r == (name@ == seq!['.', '.']),
{
    if name.len() == 2 && name[0] == '.' && name[1] == '.' {
        assert(name@ =~= seq!['.', '.']);
        true
    } else {
        false
    }
}

/// Whether the file name has the given extension.
pub fn has_extension(name: &str, ext: &str) -> (r: bool)
    ensures
        r == (extension(name@) == Some(ext@)),
{
    let n = chars_of(name);
    let e = chars_of(ext);
    match rfind_char(&n, '.') {
        Some(i) => {
            if i == 0 || is_dot_dot(&n) {
                false
            } else {
                let tail = slice(&n, i + 1, n.len());
                same_chars(&tail, &e)
            }
        },
        None => false,
    }
}

/// Whether the file is a ZIP archive by its name.
pub fn is_zip_name(name: &str) -> (r: bool)
    ensures
        r == (extension(name@) == Some("zip"@)),
{
    has_extension(name, "zip")
}

/// Whether the file is a PDF by its name.
pub fn is_pdf_name(name: &str) -> (r: bool)
    ensures
        r == (extension(name@) == Some("pdf"@)),
{
    has_extension(name, "pdf")
}

/// The stem of a file name.
pub fn file_stem(name: &str) -> (r: String)
    ensures
        r@ == stem(name@),
{
    let n = chars_of(name);
    match rfind_char(&n, '.') {
        Some(i) => {
            if i == 0 || is_dot_dot(&n) {
                string_of(&n)
            } else {
                let head = slice(&n, 0, i);
                string_of(&head)
            }
        },
        None => string_of(&n),
    }
}

/// The last component of a path written with `/`.
pub fn file_name_of(path: &str) -> (r: String)
    ensures
        r@ == file_name(path@),
{
    let p = chars_of(path);
    match rfind_char(&p, '/') {
        Some(i) => {
            if i + 1 == p.len() {
                string_of(&p)
            } else {
                let tail = slice(&p, i + 1, p.len());
                string_of(&tail)
            }
        },
        None => string_of(&p),
    }
}

/// `dir` and `name` joined by `/`.
pub open spec fn child_path(dir: Seq<char>, name: Seq<char>) -> Seq<char> {
    dir + seq!['/'] + name
}

/// The path of `name` inside `dir`.
pub fn join_path(dir: &str, name: &str) -> (r: String)
    ensures
        r@ == child_path(dir@, name@),
{
    let mut out = chars_of(dir);
    out.push('/');
    push_str(&mut out, name);
    assert(out@ =~= child_path(dir@, name@));
    string_of(&out)
}

/// The directory of a subject that holds its downloaded files.
pub fn resources_dir(subject_dir: &str) -> (r: String)
    ensures
        r@ == child_path(subject_dir@, "resources"@),
{
    join_path(subject_dir, "resources")
}

/// The directory below which the archives of a subject are unpacked.
pub fn extracted_dir(subject_dir: &str) -> (r: String)
    ensures
        r@ == child_path(child_path(subject_dir@, "resources"@), "extracted"@),
{
    let res = resources_dir(subject_dir);
    join_path(res.as_str(), "extracted")
}

/// The directory into which one archive is unpacked: named by the archive's
/// stem, below the directory for unpacked archives.
pub fn archive_target_dir(subject_dir: &str, archive_name: &str) -> (r: String)
    ensures
        r@ == child_path(
            child_path(child_path(subject_dir@, "resources"@), "extracted"@),
            stem(archive_name@),
        ),
{
    let base = extracted_dir(subject_dir);
    let s = file_stem(archive_name);
    join_path(base.as_str(), s.as_str())
}

// ---------------------------------------------------------------------------
// Archive entries
// ---------------------------------------------------------------------------

/// What is done with one entry of an archive.
#[derive(Clone, Debug)]
pub enum EntryAction {
    /// The entry is left alone: nothing is created or written.
    Refuse,
    /// The directory at this path is created.
    CreateDir(String),
    /// The entry's bytes are written to the file at this path.
    WriteFile(String),
}

/// The model of an `EntryAction`.
pub enum EntryActionView {
    Refuse,
    CreateDir(Seq<char>),
    WriteFile(Seq<char>),
}

impl View for EntryAction {
    type V = EntryActionView;

    open spec fn view(&self) -> EntryActionView {
        match self {
            EntryAction::Refuse => EntryActionView::Refuse,
            EntryAction::CreateDir(p) => EntryActionView::CreateDir(p@),
            EntryAction::WriteFile(p) => EntryActionView::WriteFile(p@),
        }
    }
}

/// How deep below the directory it starts in a path ends after its first `n`
/// components: `..` goes up, `.` and an empty component stay, any other
/// component goes down. Nothing where the path goes above the directory it
/// starts in.
pub open spec fn depth_after(parts: Seq<Seq<char>>, n: int) -> Option<int>
    decreases n,
{
    if n <= 0 {
        Some(0)
    } else {
        match depth_after(parts, n - 1) {
            None => None,
            Some(d) => {
                let part = parts[n - 1];
                if part == seq!['.', '.'] {
                    if d == 0 {
                        None
                    } else {
                        Some(d - 1)
                    }
                } else if part.len() == 0 || part == seq!['.'] {
                    Some(d)
                } else {
                    Some(d + 1)
                }
            },
        }
    }
}

/// The path, resolved against a directory, leaves that directory: it starts
/// at the root, or it goes up further than it went down.
pub open spec fn escapes(path: Seq<char>) -> bool {
    (path.len() > 0 && path[0] == '/') || depth_after(
        crate::text::pieces(path, '/'),
        crate::text::pieces(path, '/').len() as int,
    ).is_none()
}

/// Whether the path, resolved against a directory, leaves that directory.
pub fn path_escapes(path: &str) -> (r: bool)
    ensures
        r == escapes(path@),
{
    let p = chars_of(path);
    if p.len() > 0 && p[0] == '/' {
        return true;
    }
    let parts = crate::text::split_on(&p, '/');
    let ghost views = crate::text::char_views(parts@);
    let mut depth: usize = 0;
    let mut i: usize = 0;
    while i < parts.len()
        invariant
            i <= parts.len(),
            depth <= i,
            views == crate::text::char_views(parts@),
            views == crate::text::pieces(path@, '/'),
            !(path@.len() > 0 && path@[0] == '/'),
            depth_after(views, i as int) == Some(depth as int),
        decreases parts.len() - i,
    {
        let part = &parts[i];
        assert(views[i as int] == part@);
        if is_dot_dot(part) {
            if depth == 0 {
                proof {
                    assert(depth_after(views, i + 1).is_none());
                    lemma_escaped_stays(views, i + 1, parts@.len() as int);
                }
                return true;
            }
            depth -= 1;
        } else if part.len() == 0 || (part.len() == 1 && part[0] == '.') {
            proof {
                if part@.len() == 1 {
                    assert(part@ =~= seq!['.']);
                }
            }
        } else {
            proof {
                if part@ == seq!['.'] {
                    assert(part@.len() == 1);
                }
            }
            depth += 1;
        }
        i += 1;
    }
    false
}

/// A path that has gone above its directory stays a path that leaves it.
pub proof fn lemma_escaped_stays(parts: Seq<Seq<char>>, n: int, m: int)
    requires
        n <= m,
        depth_after(parts, n).is_none(),
    ensures
        depth_after(parts, m).is_none(),
    decreases m - n,
{
    if n < m {
        lemma_escaped_stays(parts, n, m - 1);
    }
}

/// The action for an entry. `enclosed` is the entry's path as far as it stays
/// inside the directory it is unpacked into, and nothing where it would leave
/// that directory; `raw_name` is the entry's name as the archive holds it.
pub open spec fn entry_action(
    enclosed: Option<Seq<char>>,
    raw_name: Seq<char>,
    target_dir: Seq<char>,
) -> EntryActionView {
    match enclosed {
        None => EntryActionView::Refuse,
        Some(p) => if escapes(p) {
            EntryActionView::Refuse
        } else if has_suffix(raw_name, seq!['/']) {
            EntryActionView::CreateDir(child_path(target_dir, p))
        } else {
            EntryActionView::WriteFile(child_path(target_dir, p))
        },
    }
}

/// Decides what is done with one archive entry. An entry whose path would
/// leave the target directory is refused, and nothing is done for it: be it
/// that the archive reader found no enclosed path for it, or that the path it
/// found leaves the directory after all.
pub fn plan_archive_entry(enclosed: Option<String>, raw_name: &str, target_dir: &str) -> (r:
    EntryAction)
    ensures
        r@ == entry_action(opt_view(enclosed), raw_name@, target_dir@),
        enclosed.is_none() || escapes(enclosed->0@) ==> r@ == EntryActionView::Refuse,
{
    match enclosed {
        None => EntryAction::Refuse,
        Some(p) => {
            if path_escapes(p.as_str()) {
                return EntryAction::Refuse;
            }
            let path = join_path(target_dir, p.as_str());
            let raw = chars_of(raw_name);
            let mut slash: Vec<char> = Vec::new();
            slash.push('/');
            assert(slash@ =~= seq!['/']);
            if ends_with(&raw, &slash) {
                EntryAction::CreateDir(path)
            } else {
                EntryAction::WriteFile(path)
            }
        },
    }
}

} // verus!

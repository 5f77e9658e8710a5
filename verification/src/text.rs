//! Character-level text utilities shared by the rest of the library.
//!
//! Strings are modelled by their sequence of characters (`s@`). The executable
//! functions work on `Vec<char>` so that every index is a character index.

use vstd::prelude::*;

verus! {

/// Trusted: `String::push` appends exactly the given character.
pub assume_specification[ String::push ](s: &mut String, c: char)
    ensures
        final(s)@ == old(s)@.push(c),
;

/// Trusted: `str` equality holds exactly when both slices hold the same characters.
pub assume_specification[ <str as PartialEq>::eq ](a: &str, b: &str) -> (r: bool)
    ensures
        r == (a@ == b@),
;

/// The lowercase form of a text as `str::to_lowercase` defines it.
pub uninterp spec fn lowercase(s: Seq<char>) -> Seq<char>;

/// Trusted: `str::to_lowercase` is a function of the characters of its argument;
/// its result is named `lowercase`.
pub assume_specification[ str::to_lowercase ](s: &str) -> (r: String)
    ensures
        r@ == lowercase(s@),
;

// ---------------------------------------------------------------------------
// Conversions
// ---------------------------------------------------------------------------

/// The characters of a string slice, in order.
pub fn chars_of(s: &str) -> (v: Vec<char>)
    ensures
        v@ == s@,
{
    let mut v: Vec<char> = Vec::new();
    for c in it: s.chars()
        invariant
            it.seq() == s@,
            v@ == s@.subrange(0, it.index() as int),
    {
        v.push(c);
    }
    assert(v@ =~= s@);
    v
}

/// The string made of the given characters.
pub fn string_of(v: &Vec<char>) -> (s: String)
    ensures
        s@ == v@,
{
    let mut s = String::new();
    let mut i: usize = 0;
    while i < v.len()
        invariant
            i <= v.len(),
            s@ == v@.subrange(0, i as int),
        decreases v.len() - i,
    {
        s.push(v[i]);
        i += 1;
        assert(v@.subrange(0, i as int) =~= v@.subrange(0, i - 1).push(v@[i - 1]));
    }
    assert(v@.subrange(0, v.len() as int) =~= v@);
    s
}

/// The views of a sequence of character vectors.
pub open spec fn char_views(v: Seq<Vec<char>>) -> Seq<Seq<char>> {
    Seq::new(v.len(), |i: int| v[i]@)
}

/// The views of a sequence of strings.
pub open spec fn str_views(v: Seq<String>) -> Seq<Seq<char>> {
    Seq::new(v.len(), |i: int| v[i]@)
}

/// Converts every vector of characters to a string.
pub fn strings_of(v: &Vec<Vec<char>>) -> (r: Vec<String>)
    ensures
        str_views(r@) == char_views(v@),
{
    let mut r: Vec<String> = Vec::new();
    let mut i: usize = 0;
    while i < v.len()
        invariant
            i <= v.len(),
            r@.len() == i,
            forall|k: int| 0 <= k < i ==> (#[trigger] r@[k])@ == v@[k]@,
        decreases v.len() - i,
    {
        r.push(string_of(&v[i]));
        i += 1;
    }
    assert(str_views(r@) =~= char_views(v@));
    r
}

/// Converts every string to its vector of characters.
pub fn chars_of_all(v: &Vec<String>) -> (r: Vec<Vec<char>>)
    ensures
        char_views(r@) == str_views(v@),
{
    let mut r: Vec<Vec<char>> = Vec::new();
    let mut i: usize = 0;
    while i < v.len()
        invariant
            i <= v.len(),
            r@.len() == i,
            forall|k: int| 0 <= k < i ==> (#[trigger] r@[k])@ == v@[k]@,
        decreases v.len() - i,
    {
        r.push(chars_of(v[i].as_str()));
        i += 1;
    }
    assert(char_views(r@) =~= str_views(v@));
    r
}

/// Appends `src` to `dst`.
pub fn push_all(dst: &mut Vec<char>, src: &Vec<char>)
    ensures
        final(dst)@ == old(dst)@ + src@,
{
    let mut i: usize = 0;
    while i < src.len()
        invariant
            i <= src.len(),
            dst@ == old(dst)@ + src@.subrange(0, i as int),
        decreases src.len() - i,
    {
        dst.push(src[i]);
        i += 1;
        assert(old(dst)@ + src@.subrange(0, i as int) =~= (old(dst)@ + src@.subrange(0, i - 1)).push(
            src@[i - 1],
        ));
    }
    assert(src@.subrange(0, src.len() as int) =~= src@);
}

/// Appends the characters of `src` to `dst`.
pub fn push_str(dst: &mut Vec<char>, src: &str)
    ensures
        final(dst)@ == old(dst)@ + src@,
{
    let v = chars_of(src);
    push_all(dst, &v);
}

/// The characters of `v` from index `from` up to, not including, `to`.
pub fn slice(v: &Vec<char>, from: usize, to: usize) -> (r: Vec<char>)
    requires
        from <= to <= v.len(),
    ensures
        r@ == v@.subrange(from as int, to as int),
{
    let mut r: Vec<char> = Vec::new();
    let mut i: usize = from;
    while i < to
        invariant
            from <= i <= to <= v.len(),
            r@ == v@.subrange(from as int, i as int),
        decreases to - i,
    {
        r.push(v[i]);
        i += 1;
        assert(v@.subrange(from as int, i as int) =~= v@.subrange(from as int, i - 1).push(
            v@[i - 1],
        ));
    }
    r
}

/// Whether two character vectors hold the same text.
pub fn same_chars(a: &Vec<char>, b: &Vec<char>) -> (r: bool)
    ensures
        r == (a@ == b@),
{
    if a.len() != b.len() {
        return false;
    }
    let mut i: usize = 0;
    while i < a.len()
        invariant
            i <= a.len(),
            a.len() == b.len(),
            forall|k: int| 0 <= k < i ==> a@[k] == b@[k],
        decreases a.len() - i,
    {
        if a[i] != b[i] {
            return false;
        }
        i += 1;
    }
    assert(a@ =~= b@);
    true
}

// ---------------------------------------------------------------------------
// Searching
// ---------------------------------------------------------------------------

/// `needle` stands in `hay` at character offset `i`.
pub open spec fn occurs_at(hay: Seq<char>, needle: Seq<char>, i: int) -> bool {
    &&& 0 <= i
    &&& i + needle.len() <= hay.len()
    &&& hay.subrange(i, i + needle.len()) == needle
}

/// `needle` stands somewhere in `hay`.
pub open spec fn contains_text(hay: Seq<char>, needle: Seq<char>) -> bool {
    exists|i: int| occurs_at(hay, needle, i)
}

/// `hay` begins with `prefix`.
pub open spec fn has_prefix(hay: Seq<char>, prefix: Seq<char>) -> bool {
    occurs_at(hay, prefix, 0)
}

/// `hay` ends with `suffix`.
pub open spec fn has_suffix(hay: Seq<char>, suffix: Seq<char>) -> bool {
    occurs_at(hay, suffix, hay.len() - suffix.len())
}

/// Whether `needle` stands in `hay` at offset `i`.
pub fn matches_at(hay: &Vec<char>, needle: &Vec<char>, i: usize) -> (r: bool)
    ensures
        r == occurs_at(hay@, needle@, i as int),
{
    if needle.len() > hay.len() || i > hay.len() - needle.len() {
        return false;
    }
    let mut k: usize = 0;
    while k < needle.len()
        invariant
            k <= needle.len(),
            i + needle.len() <= hay.len(),
            forall|j: int| 0 <= j < k ==> hay@[i + j] == needle@[j],
        decreases needle.len() - k,
    {
        if hay[i + k] != needle[k] {
            assert(hay@.subrange(i as int, i + needle.len())[k as int] != needle@[k as int]);
            return false;
        }
        k += 1;
    }
    assert(hay@.subrange(i as int, i + needle.len()) =~= needle@);
    true
}

/// `i` is the first offset at or after `from` where `needle` stands in `hay`.
pub open spec fn first_at(hay: Seq<char>, needle: Seq<char>, from: int, i: int) -> bool {
    &&& from <= i
    &&& occurs_at(hay, needle, i)
    &&& forall|j: int| from <= j < i ==> !occurs_at(hay, needle, j)
}

/// The first offset at or after `from` where `needle` stands in `hay`, if any.
pub open spec fn first_occurrence(hay: Seq<char>, needle: Seq<char>, from: int) -> Option<int> {
    if exists|i: int| first_at(hay, needle, from, i) {
        Some(choose|i: int| first_at(hay, needle, from, i))
    } else {
        None
    }
}

/// There is at most one first offset.
pub proof fn lemma_first_occurrence_is(hay: Seq<char>, needle: Seq<char>, from: int, i: int)
    requires
        first_at(hay, needle, from, i),
    ensures
        first_occurrence(hay, needle, from) == Some(i),
{
    let k = choose|k: int| first_at(hay, needle, from, k);
    assert(first_at(hay, needle, from, k));
    if k < i {
        assert(!occurs_at(hay, needle, k));
    } else if i < k {
        assert(!occurs_at(hay, needle, i));
    }
}

/// Where `needle` does not stand at or after `from`, there is no first offset.
pub proof fn lemma_first_occurrence_none(hay: Seq<char>, needle: Seq<char>, from: int)
    requires
        forall|j: int| from <= j ==> !occurs_at(hay, needle, j),
    ensures
        first_occurrence(hay, needle, from).is_none(),
{
}

/// A character index as a mathematical integer.
pub open spec fn opt_index(o: Option<usize>) -> Option<int> {
    match o {
        Some(i) => Some(i as int),
        None => None,
    }
}

/// The view of an optional string.
pub open spec fn opt_view(o: Option<String>) -> Option<Seq<char>> {
    match o {
        Some(s) => Some(s@),
        None => None,
    }
}

/// The first offset at or after `from` where `needle` stands in `hay`.
pub fn find_from(hay: &Vec<char>, needle: &Vec<char>, from: usize) -> (r: Option<usize>)
    ensures
        opt_index(r) == first_occurrence(hay@, needle@, from as int),
        r.is_some() ==> from <= r->0 && r->0 + needle@.len() <= hay@.len() <= usize::MAX,
{
    if needle.len() > hay.len() {
        proof {
            lemma_first_occurrence_none(hay@, needle@, from as int);
        }
        return None;
    }
    let last: usize = hay.len() - needle.len();
    let mut i: usize = from;
    while i <= last
        invariant
            from <= i,
            last == hay.len() - needle.len(),
            forall|j: int| from <= j < i ==> !occurs_at(hay@, needle@, j),
        decreases last + 1 - i,
    {
        if matches_at(hay, needle, i) {
            proof {
                lemma_first_occurrence_is(hay@, needle@, from as int, i as int);
            }
            return Some(i);
        }
        if i == last {
            proof {
                lemma_first_occurrence_none(hay@, needle@, from as int);
            }
            return None;
        }
        i += 1;
    }
    proof {
        lemma_first_occurrence_none(hay@, needle@, from as int);
    }
    None
}

/// An offset exists exactly when a first offset exists.
pub proof fn lemma_contains_first(hay: Seq<char>, needle: Seq<char>)
    ensures
        contains_text(hay, needle) == first_occurrence(hay, needle, 0).is_some(),
{
    if contains_text(hay, needle) {
        let i = choose|i: int| occurs_at(hay, needle, i);
        lemma_least_occurrence(hay, needle, i);
    } else {
        assert forall|i: int| !first_at(hay, needle, 0, i) by {
            if first_at(hay, needle, 0, i) {
                assert(occurs_at(hay, needle, i));
            }
        }
    }
}

/// Below any offset where `needle` stands there is a first one.
pub proof fn lemma_least_occurrence(hay: Seq<char>, needle: Seq<char>, i: int)
    requires
        occurs_at(hay, needle, i),
    ensures
        exists|k: int| first_at(hay, needle, 0, k),
    decreases i,
{
    if exists|j: int| 0 <= j < i && occurs_at(hay, needle, j) {
        let j = choose|j: int| 0 <= j < i && occurs_at(hay, needle, j);
        lemma_least_occurrence(hay, needle, j);
    } else {
        assert(first_at(hay, needle, 0, i));
    }
}

/// The first offset where `needle` stands in `hay`.
pub fn find(hay: &Vec<char>, needle: &Vec<char>) -> (r: Option<usize>)
    ensures
        opt_index(r) == first_occurrence(hay@, needle@, 0),
        r.is_some() ==> r->0 + needle@.len() <= hay@.len() <= usize::MAX,
{
    find_from(hay, needle, 0)
}

/// Whether `needle` stands somewhere in `hay`.
pub fn contains(hay: &Vec<char>, needle: &Vec<char>) -> (r: bool)
    ensures
        r == contains_text(hay@, needle@),
{
    proof {
        lemma_contains_first(hay@, needle@);
    }
    find(hay, needle).is_some()
}

/// Whether `hay` begins with `prefix`.
pub fn starts_with(hay: &Vec<char>, prefix: &Vec<char>) -> (r: bool)
    ensures
        r == has_prefix(hay@, prefix@),
{
    matches_at(hay, prefix, 0)
}

/// Whether `hay` ends with `suffix`.
pub fn ends_with(hay: &Vec<char>, suffix: &Vec<char>) -> (r: bool)
    ensures
        r == has_suffix(hay@, suffix@),
{
    if suffix.len() > hay.len() {
        return false;
    }
    matches_at(hay, suffix, hay.len() - suffix.len())
}

/// The index of the first `c` in `s`, if there is one.
pub open spec fn first_index_of(s: Seq<char>, c: char) -> Option<int>
    decreases s.len(),
{
    if s.len() == 0 {
        None
    } else if s[0] == c {
        Some(0)
    } else {
        match first_index_of(s.drop_first(), c) {
            Some(i) => Some(i + 1),
            None => None,
        }
    }
}

/// The index of the last `c` in `s`, if there is one.
pub open spec fn last_index_of(s: Seq<char>, c: char) -> Option<int>
    decreases s.len(),
{
    if s.len() == 0 {
        None
    } else if s.last() == c {
        Some(s.len() - 1)
    } else {
        last_index_of(s.drop_last(), c)
    }
}

/// `first_index_of` finds the least index holding `c`.
pub proof fn lemma_first_index_of(s: Seq<char>, c: char)
    ensures
        match first_index_of(s, c) {
            Some(i) => 0 <= i < s.len() && s[i] == c && forall|j: int|
                0 <= j < i ==> s[j] != c,
            None => forall|j: int| 0 <= j < s.len() ==> s[j] != c,
        },
    decreases s.len(),
{
    if s.len() > 0 && s[0] != c {
        let t = s.drop_first();
        lemma_first_index_of(t, c);
        match first_index_of(t, c) {
            Some(i) => {
                assert forall|j: int| 0 <= j < i + 1 implies s[j] != c by {
                    if j > 0 {
                        assert(t[j - 1] == s[j]);
                    }
                }
            },
            None => {
                assert forall|j: int| 0 <= j < s.len() implies s[j] != c by {
                    if j > 0 {
                        assert(t[j - 1] == s[j]);
                    }
                }
            },
        }
    }
}

/// `last_index_of` finds the greatest index holding `c`.
pub proof fn lemma_last_index_of(s: Seq<char>, c: char)
    ensures
        match last_index_of(s, c) {
            Some(i) => 0 <= i < s.len() && s[i] == c && forall|j: int|
                i < j < s.len() ==> s[j] != c,
            None => forall|j: int| 0 <= j < s.len() ==> s[j] != c,
        },
    decreases s.len(),
{
    if s.len() > 0 && s.last() != c {
        let t = s.drop_last();
        lemma_last_index_of(t, c);
        match last_index_of(t, c) {
            Some(i) => {
                assert forall|j: int| i < j < s.len() implies s[j] != c by {
                    if j < s.len() - 1 {
                        assert(t[j] == s[j]);
                    }
                }
            },
            None => {
                assert forall|j: int| 0 <= j < s.len() implies s[j] != c by {
                    if j < s.len() - 1 {
                        assert(t[j] == s[j]);
                    }
                }
            },
        }
    }
}

/// The index of the first `c` in `v`.
pub fn find_char(v: &Vec<char>, c: char) -> (r: Option<usize>)
    ensures
        match r {
            Some(i) => i < v.len() && v@[i as int] == c && first_index_of(v@, c) == Some(i as int),
            None => first_index_of(v@, c).is_none(),
        },
{
    let mut i: usize = 0;
    while i < v.len()
        invariant
            i <= v.len(),
            forall|j: int| 0 <= j < i ==> v@[j] != c,
        decreases v.len() - i,
    {
        if v[i] == c {
            proof {
                lemma_first_index_of(v@, c);
            }
            return Some(i);
        }
        i += 1;
    }
    proof {
        lemma_first_index_of(v@, c);
    }
    None
}

/// The index of the last `c` in `v`.
pub fn rfind_char(v: &Vec<char>, c: char) -> (r: Option<usize>)
    ensures
        match r {
            Some(i) => i < v.len() && v@[i as int] == c && last_index_of(v@, c) == Some(i as int),
            None => last_index_of(v@, c).is_none(),
        },
{
    let mut i: usize = v.len();
    while i > 0
        invariant
            i <= v.len(),
            forall|j: int| i <= j < v.len() ==> v@[j] != c,
        decreases i,
    {
        i -= 1;
        if v[i] == c {
            proof {
                lemma_last_index_of(v@, c);
            }
            return Some(i);
        }
    }
    proof {
        lemma_last_index_of(v@, c);
    }
    None
}

// ---------------------------------------------------------------------------
// White space, words, trimming
// ---------------------------------------------------------------------------

/// The characters with the Unicode property `White_Space`.
pub open spec fn is_space(c: char) -> bool {
    let n = c as u32;
    ||| 0x09 <= n <= 0x0D
    ||| n == 0x20
    ||| n == 0x85
    ||| n == 0xA0
    ||| n == 0x1680
    ||| 0x2000 <= n <= 0x200A
    ||| n == 0x2028
    ||| n == 0x2029
    ||| n == 0x202F
    ||| n == 0x205F
    ||| n == 0x3000
}

/// Whether `c` is white space.
pub fn is_whitespace(c: char) -> (r: bool)
    ensures
        r == is_space(c),
{
    let n: u32 = c as u32;
    (0x09 <= n && n <= 0x0D) || n == 0x20 || n == 0x85 || n == 0xA0 || n == 0x1680 || (0x2000 <= n
        && n <= 0x200A) || n == 0x2028 || n == 0x2029 || n == 0x202F || n == 0x205F || n == 0x3000
}

/// No character of `s` is white space.
pub open spec fn space_free(s: Seq<char>) -> bool {
    forall|i: int| 0 <= i < s.len() ==> !is_space(#[trigger] s[i])
}

/// The state of a left-to-right scan for words: the words already closed, and
/// the characters of the word under way.
pub struct Scan {
    pub done: Seq<Seq<char>>,
    pub word: Seq<char>,
}

/// The scan before any character.
pub open spec fn scan_start() -> Scan {
    Scan { done: Seq::empty(), word: Seq::empty() }
}

/// One character more: white space closes the word under way, anything else
/// extends it.
pub open spec fn scan_step(st: Scan, c: char) -> Scan {
    if is_space(c) {
        if st.word.len() > 0 {
            Scan { done: st.done.push(st.word), word: Seq::empty() }
        } else {
            st
        }
    } else {
        Scan { done: st.done, word: st.word.push(c) }
    }
}

/// The scan after all of `s`, begun in state `st`.
pub open spec fn scan(st: Scan, s: Seq<char>) -> Scan
    decreases s.len(),
{
    if s.len() == 0 {
        st
    } else {
        scan_step(scan(st, s.drop_last()), s.last())
    }
}

/// The words of a finished scan.
pub open spec fn scan_words(st: Scan) -> Seq<Seq<char>> {
    if st.word.len() > 0 {
        st.done.push(st.word)
    } else {
        st.done
    }
}

/// The maximal runs of characters of `s` that are not white space, in order.
pub open spec fn words(s: Seq<char>) -> Seq<Seq<char>> {
    scan_words(scan(scan_start(), s))
}

/// Every word is non-empty and free of white space.
pub open spec fn proper_words(ws: Seq<Seq<char>>) -> bool {
    forall|i: int| 0 <= i < ws.len() ==> (#[trigger] ws[i]).len() > 0 && space_free(ws[i])
}

/// Scanning `x + y` is scanning `x`, then `y`.
pub proof fn lemma_scan_concat(st: Scan, x: Seq<char>, y: Seq<char>)
    ensures
        scan(st, x + y) == scan(scan(st, x), y),
    decreases y.len(),
{
    if y.len() == 0 {
        assert(x + y =~= x);
    } else {
        lemma_scan_concat(st, x, y.drop_last());
        assert((x + y).drop_last() =~= x + y.drop_last());
        assert((x + y).last() == y.last());
    }
}

/// Scanning one character is one step.
pub proof fn lemma_scan_one(st: Scan, c: char)
    ensures
        scan(st, seq![c]) == scan_step(st, c),
{
    let s = seq![c];
    assert(s.drop_last() =~= Seq::<char>::empty());
    assert(scan(st, s.drop_last()) == st);
}

/// Scanning a run without white space extends the word under way.
pub proof fn lemma_scan_word(st: Scan, w: Seq<char>)
    requires
        space_free(w),
    ensures
        scan(st, w) == (Scan { done: st.done, word: st.word + w }),
    decreases w.len(),
{
    if w.len() == 0 {
        assert(st.word + w =~= st.word);
    } else {
        let init = w.drop_last();
        assert forall|i: int| 0 <= i < init.len() implies !is_space(#[trigger] init[i]) by {
            assert(init[i] == w[i]);
        }
        lemma_scan_word(st, init);
        assert(!is_space(w[w.len() - 1]));
        assert((st.word + init).push(w.last()) =~= st.word + w);
    }
}

/// A scan begun with proper words closes only proper words, and the word under
/// way stays free of white space.
pub proof fn lemma_scan_proper(st: Scan, s: Seq<char>)
    requires
        proper_words(st.done),
        space_free(st.word),
    ensures
        proper_words(scan(st, s).done),
        space_free(scan(st, s).word),
    decreases s.len(),
{
    if s.len() > 0 {
        lemma_scan_proper(st, s.drop_last());
        let mid = scan(st, s.drop_last());
        let c = s.last();
        let end = scan_step(mid, c);
        if is_space(c) {
            if mid.word.len() > 0 {
                assert forall|i: int| 0 <= i < end.done.len() implies (#[trigger] end.done[i]).len()
                    > 0 && space_free(end.done[i]) by {
                    if i < mid.done.len() {
                        assert(end.done[i] == mid.done[i]);
                    }
                }
            }
        } else {
            assert forall|i: int| 0 <= i < end.word.len() implies !is_space(
                #[trigger] end.word[i],
            ) by {
                if i < mid.word.len() {
                    assert(end.word[i] == mid.word[i]);
                }
            }
        }
    }
}

/// The words of any text are proper.
pub proof fn lemma_words_proper(s: Seq<char>)
    ensures
        proper_words(words(s)),
{
    lemma_scan_proper(scan_start(), s);
    let st = scan(scan_start(), s);
    let ws = words(s);
    assert forall|i: int| 0 <= i < ws.len() implies (#[trigger] ws[i]).len() > 0 && space_free(
        ws[i],
    ) by {
        if i < st.done.len() {
            assert(ws[i] == st.done[i]);
        }
    }
}

/// Every character of a closed word, or of the word under way, satisfies a
/// predicate that holds of every character scanned and of the starting state.
pub proof fn lemma_scan_keeps(st: Scan, s: Seq<char>, p: spec_fn(char) -> bool)
    requires
        forall|i: int| 0 <= i < s.len() ==> p(#[trigger] s[i]),
        forall|i: int, j: int|
            0 <= i < st.done.len() && 0 <= j < st.done[i].len() ==> p(#[trigger] st.done[i][j]),
        forall|j: int| 0 <= j < st.word.len() ==> p(#[trigger] st.word[j]),
    ensures
        forall|i: int, j: int|
            0 <= i < scan(st, s).done.len() && 0 <= j < scan(st, s).done[i].len() ==> p(
                #[trigger] scan(st, s).done[i][j],
            ),
        forall|j: int| 0 <= j < scan(st, s).word.len() ==> p(#[trigger] scan(st, s).word[j]),
    decreases s.len(),
{
    if s.len() > 0 {
        let init = s.drop_last();
        assert forall|i: int| 0 <= i < init.len() implies p(#[trigger] init[i]) by {
            assert(init[i] == s[i]);
        }
        lemma_scan_keeps(st, init, p);
        let mid = scan(st, init);
        let c = s.last();
        assert(p(s[s.len() - 1]));
        let end = scan_step(mid, c);
        assert forall|i: int, j: int|
            0 <= i < end.done.len() && 0 <= j < end.done[i].len() implies p(
            #[trigger] end.done[i][j],
        ) by {
            if i < mid.done.len() {
                assert(end.done[i] == mid.done[i]);
                assert(p(mid.done[i][j]));
            } else {
                assert(end.done[i] == mid.word);
                assert(p(mid.word[j]));
            }
        }
        assert forall|j: int| 0 <= j < end.word.len() implies p(#[trigger] end.word[j]) by {
            if j < mid.word.len() {
                assert(p(mid.word[j]));
            }
        }
    }
}

/// Every character of every word of `s` satisfies a predicate that holds of
/// every character of `s`.
pub proof fn lemma_words_keep(s: Seq<char>, p: spec_fn(char) -> bool)
    requires
        forall|i: int| 0 <= i < s.len() ==> p(#[trigger] s[i]),
    ensures
        forall|i: int, j: int|
            0 <= i < words(s).len() && 0 <= j < words(s)[i].len() ==> p(#[trigger] words(s)[i][j]),
{
    lemma_scan_keeps(scan_start(), s, p);
    let st = scan(scan_start(), s);
    let ws = words(s);
    assert forall|i: int, j: int| 0 <= i < ws.len() && 0 <= j < ws[i].len() implies p(
        #[trigger] ws[i][j],
    ) by {
        if i < st.done.len() {
            assert(ws[i] == st.done[i]);
            assert(p(st.done[i][j]));
        } else {
            assert(ws[i] == st.word);
            assert(p(st.word[j]));
        }
    }
}

/// The words of `v`.
pub fn split_words(v: &Vec<char>) -> (r: Vec<Vec<char>>)
    ensures
        char_views(r@) == words(v@),
{
    let mut done: Vec<Vec<char>> = Vec::new();
    let mut word: Vec<char> = Vec::new();
    let mut i: usize = 0;
    assert(char_views(done@) =~= Seq::<Seq<char>>::empty());
    assert(v@.subrange(0, 0) =~= Seq::<char>::empty());
    while i < v.len()
        invariant
            i <= v.len(),
            scan(scan_start(), v@.subrange(0, i as int)) == (Scan {
                done: char_views(done@),
                word: word@,
            }),
        decreases v.len() - i,
    {
        let c = v[i];
        let ghost before = Scan { done: char_views(done@), word: word@ };
        if is_whitespace(c) {
            if word.len() > 0 {
                let ghost old_done = done@;
                done.push(word);
                word = Vec::new();
                assert(char_views(done@) =~= char_views(old_done).push(before.word));
            }
        } else {
            word.push(c);
        }
        i += 1;
        assert(v@.subrange(0, i as int).drop_last() =~= v@.subrange(0, i - 1));
    }
    assert(v@.subrange(0, v.len() as int) =~= v@);
    if word.len() > 0 {
        let ghost old_done = done@;
        let ghost w = word@;
        done.push(word);
        assert(char_views(done@) =~= char_views(old_done).push(w));
    }
    done
}

/// The words joined, with `sep` between neighbours.
pub open spec fn joined(ws: Seq<Seq<char>>, sep: Seq<char>) -> Seq<char>
    decreases ws.len(),
{
    if ws.len() == 0 {
        Seq::empty()
    } else if ws.len() == 1 {
        ws[0]
    } else {
        joined(ws.drop_last(), sep) + sep + ws.last()
    }
}

/// Joins the words, with `sep` between neighbours.
pub fn join(ws: &Vec<Vec<char>>, sep: &Vec<char>) -> (r: Vec<char>)
    ensures
        r@ == joined(char_views(ws@), sep@),
{
    let mut r: Vec<char> = Vec::new();
    let mut i: usize = 0;
    while i < ws.len()
        invariant
            i <= ws.len(),
            r@ == joined(char_views(ws@).subrange(0, i as int), sep@),
        decreases ws.len() - i,
    {
        let ghost upto = char_views(ws@).subrange(0, i + 1);
        assert(upto.drop_last() =~= char_views(ws@).subrange(0, i as int));
        assert(upto.last() == ws@[i as int]@);
        if i > 0 {
            push_all(&mut r, sep);
        } else {
            assert(r@ =~= Seq::<char>::empty());
            assert(r@ + ws@[0]@ =~= ws@[0]@);
        }
        push_all(&mut r, &ws[i]);
        i += 1;
    }
    assert(char_views(ws@).subrange(0, ws.len() as int) =~= char_views(ws@));
    r
}

/// Splitting what was joined with single spaces gives the words back.
pub proof fn lemma_words_of_joined(ws: Seq<Seq<char>>)
    requires
        proper_words(ws),
    ensures
        words(joined(ws, seq![' '])) == ws,
        ws.len() > 0 ==> scan(scan_start(), joined(ws, seq![' '])) == (Scan {
            done: ws.drop_last(),
            word: ws.last(),
        }),
    decreases ws.len(),
{
    let sep = seq![' '];
    if ws.len() == 0 {
    } else if ws.len() == 1 {
        lemma_scan_word(scan_start(), ws[0]);
        assert(Seq::<char>::empty() + ws[0] =~= ws[0]);
        assert(ws.drop_last() =~= Seq::<Seq<char>>::empty());
        assert(ws.drop_last().push(ws.last()) =~= ws);
    } else {
        let init = ws.drop_last();
        assert forall|i: int| 0 <= i < init.len() implies (#[trigger] init[i]).len() > 0
            && space_free(init[i]) by {
            assert(init[i] == ws[i]);
        }
        lemma_words_of_joined(init);
        let j = joined(init, sep);
        let st0 = scan(scan_start(), j);
        assert(st0 == Scan { done: init.drop_last(), word: init.last() });
        lemma_scan_concat(scan_start(), j, sep);
        lemma_scan_one(st0, ' ');
        assert(is_space(' '));
        let st1 = scan(scan_start(), j + sep);
        assert(init.last().len() > 0);
        assert(init.drop_last().push(init.last()) =~= init);
        assert(st1 == Scan { done: init, word: Seq::<char>::empty() });
        lemma_scan_concat(scan_start(), j + sep, ws.last());
        lemma_scan_word(st1, ws.last());
        assert(Seq::<char>::empty() + ws.last() =~= ws.last());
        assert(ws.last().len() > 0);
        assert(init.push(ws.last()) =~= ws);
    }
}

/// `s` without its leading white space.
pub open spec fn trimmed_start(s: Seq<char>) -> Seq<char>
    decreases s.len(),
{
    if s.len() > 0 && is_space(s[0]) {
        trimmed_start(s.drop_first())
    } else {
        s
    }
}

/// `s` without its trailing white space.
pub open spec fn trimmed_end(s: Seq<char>) -> Seq<char>
    decreases s.len(),
{
    if s.len() > 0 && is_space(s.last()) {
        trimmed_end(s.drop_last())
    } else {
        s
    }
}

/// `s` without leading and trailing white space.
pub open spec fn trimmed(s: Seq<char>) -> Seq<char> {
    trimmed_end(trimmed_start(s))
}

/// Trims white space from both ends.
pub fn trim(v: &Vec<char>) -> (r: Vec<char>)
    ensures
        r@ == trimmed(v@),
{
    let mut a: usize = 0;
    assert(v@.subrange(0, v.len() as int) =~= v@);
    while a < v.len() && is_whitespace(v[a])
        invariant
            a <= v.len(),
            trimmed_start(v@) == trimmed_start(v@.subrange(a as int, v.len() as int)),
        decreases v.len() - a,
    {
        assert(v@.subrange(a as int, v.len() as int).drop_first() =~= v@.subrange(
            a + 1,
            v.len() as int,
        ));
        a += 1;
    }
    let ghost rest = v@.subrange(a as int, v.len() as int);
    assert(trimmed_start(v@) == rest) by {
        if a < v.len() {
            assert(rest[0] == v@[a as int]);
        }
    }
    let mut b: usize = v.len();
    while b > a && is_whitespace(v[b - 1])
        invariant
            a <= b <= v.len(),
            trimmed_end(rest) == trimmed_end(v@.subrange(a as int, b as int)),
        decreases b,
    {
        assert(v@.subrange(a as int, b as int).drop_last() =~= v@.subrange(a as int, b - 1));
        b -= 1;
    }
    assert(trimmed_end(rest) == v@.subrange(a as int, b as int)) by {
        if b > a {
            assert(v@.subrange(a as int, b as int).last() == v@[b - 1]);
        }
    }
    slice(v, a, b)
}

// ---------------------------------------------------------------------------
// Numbers
// ---------------------------------------------------------------------------

/// The decimal digit for `d`, which is below ten.
pub open spec fn digit(d: int) -> char {
    ((48 + d) as u8) as char
}

/// The decimal numeral of `n`, without leading zeros.
pub open spec fn decimal(n: nat) -> Seq<char>
    decreases n,
{
    if n < 10 {
        seq![digit(n as int)]
    } else {
        decimal(n / 10).push(digit((n % 10) as int))
    }
}

/// Appends the decimal numeral of `n`.
pub fn push_decimal(out: &mut Vec<char>, n: u64)
    ensures
        final(out)@ == old(out)@ + decimal(n as nat),
    decreases n,
{
    if n >= 10 {
        push_decimal(out, n / 10);
    }
    let d: u8 = (n % 10) as u8;
    let c: char = (48u8 + d) as char;
    out.push(c);
    proof {
        if n < 10 {
            assert(old(out)@.push(c) =~= old(out)@ + decimal(n as nat));
        } else {
            assert((old(out)@ + decimal((n / 10) as nat)).push(c) =~= old(out)@ + decimal(
                n as nat,
            ));
        }
    }
}

// ---------------------------------------------------------------------------
// Pieces, replacement, order
// ---------------------------------------------------------------------------

/// The pieces of `s` between the occurrences of `sep`, in order. There is
/// always at least one piece, and a piece may be empty.
pub open spec fn pieces(s: Seq<char>, sep: char) -> Seq<Seq<char>>
    decreases s.len(),
    via pieces_decreases
{
    match last_index_of(s, sep) {
        Some(i) => pieces(s.subrange(0, i), sep).push(s.subrange(i + 1, s.len() as int)),
        None => seq![s],
    }
}

#[via_fn]
proof fn pieces_decreases(s: Seq<char>, sep: char) {
    lemma_last_index_of(s, sep);
}

/// Splits `v` at every `sep`.
pub fn split_on(v: &Vec<char>, sep: char) -> (r: Vec<Vec<char>>)
    ensures
        char_views(r@) == pieces(v@, sep),
        r@.len() >= 1,
{
    // The pieces are found from the end and turned round afterwards.
    let mut rev: Vec<Vec<char>> = Vec::new();
    let mut end: usize = v.len();
    let ghost mut tail: Seq<Seq<char>> = Seq::empty();
    assert(v@.subrange(0, end as int) =~= v@);
    loop
        invariant_except_break
            pieces(v@, sep) == pieces(v@.subrange(0, end as int), sep) + tail,
        invariant
            end <= v.len(),
            rev@.len() == tail.len(),
            forall|k: int| 0 <= k < rev@.len() ==> (#[trigger] rev@[k])@ == tail[tail.len() - 1 - k],
        ensures
            pieces(v@, sep) == tail,
        decreases end,
    {
        let head = slice(v, 0, end);
        match rfind_char(&head, sep) {
            Some(i) => {
                let piece = slice(&head, i + 1, end);
                proof {
                    let rest = head@.subrange(0, i as int);
                    assert(rest =~= v@.subrange(0, i as int));
                    assert(pieces(head@, sep) == pieces(rest, sep).push(piece@));
                    assert(pieces(rest, sep).push(piece@) + tail =~= pieces(rest, sep) + (
                    seq![piece@] + tail));
                    tail = seq![piece@] + tail;
                }
                rev.push(piece);
                end = i;
            },
            None => {
                proof {
                    assert(pieces(head@, sep) == seq![head@]);
                    tail = seq![head@] + tail;
                }
                rev.push(head);
                break ;
            },
        }
    }
    let mut out: Vec<Vec<char>> = Vec::new();
    while rev.len() > 0
        invariant
            out@.len() + rev@.len() == tail.len(),
            forall|k: int| 0 <= k < rev@.len() ==> (#[trigger] rev@[k])@ == tail[tail.len() - 1 - k],
            forall|k: int| 0 <= k < out@.len() ==> (#[trigger] out@[k])@ == tail[k],
        decreases rev@.len(),
    {
        let piece = rev.pop().unwrap();
        out.push(piece);
    }
    assert(char_views(out@) =~= tail);
    out
}

/// `s` with every `from` replaced by `to`.
pub open spec fn replaced(s: Seq<char>, from: char, to: char) -> Seq<char> {
    Seq::new(
        s.len(),
        |i: int|
            if s[i] == from {
                to
            } else {
                s[i]
            },
    )
}

/// Replaces every `from` by `to`.
pub fn replace_char(v: &Vec<char>, from: char, to: char) -> (r: Vec<char>)
    ensures
        r@ == replaced(v@, from, to),
{
    let mut out: Vec<char> = Vec::new();
    let mut i: usize = 0;
    while i < v.len()
        invariant
            i <= v.len(),
            out@.len() == i,
            forall|k: int| 0 <= k < i ==> out@[k] == replaced(v@, from, to)[k],
        decreases v.len() - i,
    {
        let c = v[i];
        if c == from {
            out.push(to);
        } else {
            out.push(c);
        }
        i += 1;
    }
    assert(out@ =~= replaced(v@, from, to));
    out
}

/// `s` without the character `c`.
pub open spec fn without_char(s: Seq<char>, c: char) -> Seq<char>
    decreases s.len(),
{
    if s.len() == 0 {
        s
    } else if s.last() == c {
        without_char(s.drop_last(), c)
    } else {
        without_char(s.drop_last(), c).push(s.last())
    }
}

/// Takes every `c` out.
pub fn remove_char(v: &Vec<char>, c: char) -> (r: Vec<char>)
    ensures
        r@ == without_char(v@, c),
{
    let mut out: Vec<char> = Vec::new();
    let mut i: usize = 0;
    assert(v@.subrange(0, 0) =~= Seq::<char>::empty());
    while i < v.len()
        invariant
            i <= v.len(),
            out@ == without_char(v@.subrange(0, i as int), c),
        decreases v.len() - i,
    {
        assert(v@.subrange(0, i + 1).drop_last() =~= v@.subrange(0, i as int));
        if v[i] != c {
            out.push(v[i]);
        }
        i += 1;
    }
    assert(v@.subrange(0, v.len() as int) =~= v@);
    out
}

/// The first `n` characters of `s`; all of `s` where it has fewer.
pub open spec fn first_chars(s: Seq<char>, n: nat) -> Seq<char> {
    if n >= s.len() {
        s
    } else {
        s.subrange(0, n as int)
    }
}

/// The first `n` characters.
pub fn take_chars(v: &Vec<char>, n: usize) -> (r: Vec<char>)
    ensures
        r@ == first_chars(v@, n as nat),
{
    if n >= v.len() {
        let r = slice(v, 0, v.len());
        assert(v@.subrange(0, v.len() as int) =~= v@);
        r
    } else {
        slice(v, 0, n)
    }
}

/// `a` comes before `b` in the order of the dictionary, character by
/// character.
pub open spec fn precedes(a: Seq<char>, b: Seq<char>) -> bool
    decreases a.len(),
{
    if b.len() == 0 {
        false
    } else if a.len() == 0 {
        true
    } else if (a[0] as u32) < (b[0] as u32) {
        true
    } else if (a[0] as u32) > (b[0] as u32) {
        false
    } else {
        precedes(a.drop_first(), b.drop_first())
    }
}

/// Whether `a` comes before `b` in the order of the dictionary.
pub fn comes_before(a: &Vec<char>, b: &Vec<char>) -> (r: bool)
    ensures
        r == precedes(a@, b@),
{
    let mut i: usize = 0;
    assert(a@.subrange(0, a.len() as int) =~= a@);
    assert(b@.subrange(0, b.len() as int) =~= b@);
    loop
        invariant
            i <= a.len(),
            i <= b.len(),
            precedes(a@, b@) == precedes(
                a@.subrange(i as int, a.len() as int),
                b@.subrange(i as int, b.len() as int),
            ),
        decreases a.len() - i,
    {
        if i >= b.len() {
            return false;
        }
        if i >= a.len() {
            return true;
        }
        let x: u32 = a[i] as u32;
        let y: u32 = b[i] as u32;
        proof {
            let ra = a@.subrange(i as int, a.len() as int);
            let rb = b@.subrange(i as int, b.len() as int);
            assert(ra[0] == a@[i as int]);
            assert(rb[0] == b@[i as int]);
            assert(ra.drop_first() =~= a@.subrange(i + 1, a.len() as int));
            assert(rb.drop_first() =~= b@.subrange(i + 1, b.len() as int));
        }
        if x < y {
            return true;
        }
        if x > y {
            return false;
        }
        i += 1;
    }
}

/// `line` without a carriage return at its end.
pub open spec fn without_cr(line: Seq<char>) -> Seq<char> {
    if line.len() > 0 && line.last() == '\r' {
        line.drop_last()
    } else {
        line
    }
}

/// The first `n` pieces, each without a carriage return at its end.
pub open spec fn ended_lines(p: Seq<Seq<char>>, n: int) -> Seq<Seq<char>>
    decreases n,
{
    if n <= 0 {
        Seq::empty()
    } else {
        ended_lines(p, n - 1).push(without_cr(p[n - 1]))
    }
}

/// The lines of a text. A line ends with a line feed, or with a carriage
/// return and a line feed; the last line need not end so. What follows the
/// last line feed is a line unless it is empty.
pub open spec fn lines(s: Seq<char>) -> Seq<Seq<char>> {
    let p = pieces(s, '\n');
    let ended = ended_lines(p, p.len() - 1);
    if p.last().len() == 0 {
        ended
    } else {
        ended.push(p.last())
    }
}

/// The lines of a text.
pub fn split_lines(v: &Vec<char>) -> (r: Vec<Vec<char>>)
    ensures
        char_views(r@) == lines(v@),
{
    let parts = split_on(v, '\n');
    let ghost p = char_views(parts@);
    let n: usize = parts.len();
    let mut out: Vec<Vec<char>> = Vec::new();
    let mut i: usize = 0;
    assert(char_views(out@) =~= Seq::<Seq<char>>::empty());
    while i + 1 < n
        invariant
            i + 1 <= n,
            n == parts.len(),
            n >= 1,
            p == char_views(parts@),
            char_views(out@) == ended_lines(p, i as int),
        decreases n - i,
    {
        let ghost before = char_views(out@);
        let piece = &parts[i];
        assert(p[i as int] == piece@);
        let line = if piece.len() > 0 && piece[piece.len() - 1] == '\r' {
            slice(piece, 0, piece.len() - 1)
        } else {
            slice(piece, 0, piece.len())
        };
        assert(piece@.subrange(0, piece@.len() as int) =~= piece@);
        let ghost lv = line@;
        out.push(line);
        assert(char_views(out@) =~= before.push(lv));
        i += 1;
    }
    let last = &parts[n - 1];
    assert(p.last() == last@);
    if last.len() > 0 {
        let ghost before = char_views(out@);
        let line = slice(last, 0, last.len());
        assert(last@.subrange(0, last@.len() as int) =~= last@);
        let ghost lv = line@;
        out.push(line);
        assert(char_views(out@) =~= before.push(lv));
    }
    out
}

/// No text comes before itself.
pub proof fn lemma_precedes_irreflexive(a: Seq<char>)
    ensures
        !precedes(a, a),
    decreases a.len(),
{
    if a.len() > 0 {
        lemma_precedes_irreflexive(a.drop_first());
    }
}

/// What comes before a text that comes before a third comes before the
/// third.
pub proof fn lemma_precedes_transitive(a: Seq<char>, b: Seq<char>, c: Seq<char>)
    requires
        precedes(a, b),
        precedes(b, c),
    ensures
        precedes(a, c),
    decreases a.len(),
{
    if a.len() > 0 && b.len() > 0 && c.len() > 0 {
        if a[0] as u32 == b[0] as u32 && b[0] as u32 == c[0] as u32 {
            lemma_precedes_transitive(a.drop_first(), b.drop_first(), c.drop_first());
        }
    }
}

} // verus!

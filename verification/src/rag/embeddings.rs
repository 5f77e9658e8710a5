//! What is handed to the embedding model for a text.
//!
//! The model takes a bounded number of tokens at a time. A text within the
//! bound is embedded as it is; a longer text is packed, word by word, into
//! chunks within the bound, and the vectors of the chunks are averaged by
//! the caller.

use crate::text::{
    char_views, chars_of, push_all, split_words, str_views, string_of, strings_of, words,
};
use vstd::prelude::*;

verus! {

/// The number of characters reckoned for one token.
pub const CHARS_PER_TOKEN: usize = 2;

/// The number of tokens the model takes at a time.
pub const MAX_TOKENS: usize = 512;

/// The number of characters handed to the model at a time.
pub const MAX_CHUNK_CHARS: usize = 1024;

/// Why a text got no embedding.
#[derive(Clone, Copy, Debug, PartialEq, Eq, Structural)]
pub enum EmbedError {
    /// There is nothing to embed.
    InvalidInput,
    /// The model failed.
    EmbedderError,
}

/// The text with every line feed turned into a space.
pub open spec fn unbroken(text: Seq<char>) -> Seq<char> {
    Seq::new(
        text.len(),
        |i: int|
            if text[i] == '\n' {
                ' '
            } else {
                text[i]
            },
    )
}

/// The state of packing: the chunks that are full, and the chunk under way.
pub struct Pack {
    pub done: Seq<Seq<char>>,
    pub current: Seq<char>,
}

/// One word more: where the chunk under way would pass the bound with it, the
/// chunk is closed first; then the word joins the chunk under way, after a
/// space where the chunk is not empty.
pub open spec fn pack_step(st: Pack, word: Seq<char>) -> Pack {
    let closes = st.current.len() + word.len() + 1 > 1024 && st.current.len() > 0;
    let done = if closes {
        st.done.push(st.current)
    } else {
        st.done
    };
    let current = if closes {
        Seq::empty()
    } else {
        st.current
    };
    Pack {
        done,
        current: if current.len() > 0 {
            current + seq![' '] + word
        } else {
            word
        },
    }
}

/// The state after the first `n` words.
pub open spec fn pack(ws: Seq<Seq<char>>, n: int) -> Pack
    decreases n,
{
    if n <= 0 {
        Pack { done: Seq::empty(), current: Seq::empty() }
    } else {
        pack_step(pack(ws, n - 1), ws[n - 1])
    }
}

/// The chunks of a text: its words packed greedily, each chunk within the
/// bound unless a single word is longer.
pub open spec fn chunks(text: Seq<char>) -> Seq<Seq<char>> {
    let st = pack(words(text), words(text).len() as int);
    if st.current.len() > 0 {
        st.done.push(st.current)
    } else {
        st.done
    }
}

/// What is embedded for a text: the text itself, line feeds turned into
/// spaces, where it is within the bound, else its chunks; nothing where the
/// text is empty or has no word.
pub open spec fn inputs(text: Seq<char>) -> Option<Seq<Seq<char>>> {
    if text.len() == 0 {
        None
    } else if text.len() <= 1024 {
        Some(seq![unbroken(text)])
    } else if chunks(unbroken(text)).len() == 0 {
        None
    } else {
        Some(chunks(unbroken(text)))
    }
}

/// Every chunk holds at least one character.
pub proof fn lemma_pack_nonempty(ws: Seq<Seq<char>>, n: int)
    requires
        n <= ws.len(),
        forall|i: int| 0 <= i < ws.len() ==> (#[trigger] ws[i]).len() > 0,
    ensures
        forall|k: int| 0 <= k < pack(ws, n).done.len() ==> (#[trigger] pack(ws, n).done[k]).len() > 0,
        n > 0 ==> pack(ws, n).current.len() > 0,
    decreases n,
{
    if n > 0 {
        lemma_pack_nonempty(ws, n - 1);
        let before = pack(ws, n - 1);
        let after = pack(ws, n);
        assert forall|k: int| 0 <= k < after.done.len() implies (#[trigger] after.done[k]).len()
            > 0 by {
            if k < before.done.len() {
                assert(after.done[k] == before.done[k]);
            }
        }
    }
}

/// A chunk passes the bound only where it is a single word.
pub proof fn lemma_pack_bounded(ws: Seq<Seq<char>>, n: int)
    requires
        n <= ws.len(),
    ensures
        forall|k: int|
            0 <= k < pack(ws, n).done.len() ==> (#[trigger] pack(ws, n).done[k]).len() <= 1024 || (
            exists|i: int| 0 <= i < n && ws[i] == pack(ws, n).done[k]),
        pack(ws, n).current.len() <= 1024 || (exists|i: int|
            0 <= i < n && ws[i] == pack(ws, n).current),
    decreases n,
{
    if n > 0 {
        lemma_pack_bounded(ws, n - 1);
        let before = pack(ws, n - 1);
        let after = pack(ws, n);
        let word = ws[n - 1];
        assert forall|k: int| 0 <= k < after.done.len() implies (#[trigger] after.done[k]).len()
            <= 1024 || (exists|i: int| 0 <= i < n && ws[i] == after.done[k]) by {
            if k < before.done.len() {
                assert(after.done[k] == before.done[k]);
                if before.done[k].len() > 1024 {
                    let i = choose|i: int| 0 <= i < n - 1 && ws[i] == before.done[k];
                    assert(ws[i] == after.done[k]);
                }
            } else {
                assert(after.done[k] == before.current);
                if before.current.len() > 1024 {
                    let i = choose|i: int| 0 <= i < n - 1 && ws[i] == before.current;
                    assert(ws[i] == after.done[k]);
                }
            }
        }
        if after.current.len() > 1024 {
            assert(after.current == word);
        }
    }
}

/// Every chunk of a text holds at least one character, and a chunk that
/// passes the bound is a single word of the text.
pub proof fn lemma_chunks_bounded(text: Seq<char>)
    ensures
        forall|k: int|
            0 <= k < chunks(text).len() ==> (#[trigger] chunks(text)[k]).len() > 0 && (chunks(
                text,
            )[k].len() <= 1024 || exists|i: int|
                0 <= i < words(text).len() && words(text)[i] == chunks(text)[k]),
{
    let ws = words(text);
    let n = ws.len() as int;
    crate::text::lemma_words_proper(text);
    assert forall|i: int| 0 <= i < ws.len() implies (#[trigger] ws[i]).len() > 0 by {}
    lemma_pack_nonempty(ws, n);
    lemma_pack_bounded(ws, n);
    let st = pack(ws, n);
    let cs = chunks(text);
    assert forall|k: int| 0 <= k < cs.len() implies (#[trigger] cs[k]).len() > 0 && (cs[k].len()
        <= 1024 || exists|i: int| 0 <= i < ws.len() && ws[i] == cs[k]) by {
        if k < st.done.len() {
            assert(cs[k] == st.done[k]);
            if st.done[k].len() > 1024 {
                let i = choose|i: int| 0 <= i < n && ws[i] == st.done[k];
                assert(ws[i] == cs[k]);
            }
        } else {
            assert(cs[k] == st.current);
            if st.current.len() > 1024 {
                let i = choose|i: int| 0 <= i < n && ws[i] == st.current;
                assert(ws[i] == cs[k]);
            }
        }
    }
}

/// The text with every line feed turned into a space.
fn unbreak(text: &Vec<char>) -> (r: Vec<char>)
    ensures
        r@ == unbroken(text@),
{
    let mut out: Vec<char> = Vec::new();
    let mut i: usize = 0;
    while i < text.len()
        invariant
            i <= text.len(),
            out@.len() == i,
            forall|k: int| 0 <= k < i ==> out@[k] == unbroken(text@)[k],
        decreases text.len() - i,
    {
        let c = text[i];
        if c == '\n' {
            out.push(' ');
        } else {
            out.push(c);
        }
        i += 1;
    }
    assert(out@ =~= unbroken(text@));
    out
}

/// Packs the words of a text into chunks.
pub fn chunk_chars(text: &Vec<char>) -> (r: Vec<Vec<char>>)
    ensures
        char_views(r@) == chunks(text@),
{
    let ws = split_words(text);
    let ghost w = char_views(ws@);
    let mut done: Vec<Vec<char>> = Vec::new();
    let mut current: Vec<char> = Vec::new();
    let mut i: usize = 0;
    assert(char_views(done@) =~= Seq::<Seq<char>>::empty());
    while i < ws.len()
        invariant
            i <= ws.len(),
            w == char_views(ws@),
            w == words(text@),
            pack(w, i as int) == (Pack { done: char_views(done@), current: current@ }),
        decreases ws.len() - i,
    {
        let word = &ws[i];
        let ghost before = Pack { done: char_views(done@), current: current@ };
        assert(w[i as int] == word@);
        if current.len() > 0 && (current.len() >= 1024 || word.len() >= 1024 - current.len()) {
            let ghost held = done@;
            done.push(current);
            current = Vec::new();
            assert(char_views(done@) =~= char_views(held).push(before.current));
        }
        if current.len() > 0 {
            current.push(' ');
        }
        push_all(&mut current, word);
        assert(current@ =~= pack_step(before, word@).current);
        i += 1;
    }
    if current.len() > 0 {
        let ghost held = done@;
        let ghost last = current@;
        done.push(current);
        assert(char_views(done@) =~= char_views(held).push(last));
    }
    done
}

/// Packs the words of a text into chunks of at most 1024 characters.
pub fn chunk_text(text: &str) -> (r: Vec<String>)
    ensures
        str_views(r@) == chunks(text@),
{
    let v = chars_of(text);
    strings_of(&chunk_chars(&v))
}

/// The texts that are handed to the model for `text`, one after the other.
/// A text that is empty, or long and without a word, is refused.
pub fn embedding_inputs(text: &str) -> (r: Result<Vec<String>, EmbedError>)
    ensures
        match r {
            Ok(parts) => inputs(text@) == Some(str_views(parts@)),
            Err(e) => inputs(text@).is_none() && e == EmbedError::InvalidInput,
        },
{
    let raw = chars_of(text);
    if raw.len() == 0 {
        return Err(EmbedError::InvalidInput);
    }
    let flat = unbreak(&raw);
    if raw.len() <= MAX_CHUNK_CHARS {
        let mut parts: Vec<String> = Vec::new();
        parts.push(string_of(&flat));
        assert(str_views(parts@) =~= seq![unbroken(text@)]);
        return Ok(parts);
    }
    let parts = strings_of(&chunk_chars(&flat));
    if parts.len() == 0 {
        Err(EmbedError::InvalidInput)
    } else {
        Ok(parts)
    }
}

} // verus!

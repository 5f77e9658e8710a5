//! Preparing the text of an answer for the renderer of the interface.

use crate::text::{
    char_views, chars_of, find, find_from, first_occurrence, has_prefix, lines, opt_view, push_all,
    push_str, same_chars, slice, split_lines, starts_with, str_views, string_of, strings_of, trim,
    trimmed,
};
use vstd::prelude::*;

verus! {

/// The character belongs to a table drawn with box characters.
pub open spec fn is_box_char(c: char) -> bool {
    c == '┌' || c == '│' || c == '└' || c == '├' || c == '─' || c == '┬' || c == '┴' || c == '┼'
}

/// The line holds a box character.
pub open spec fn is_box_line(line: Seq<char>) -> bool {
    exists|i: int| 0 <= i < line.len() && is_box_char(#[trigger] line[i])
}

/// The line opens or closes a block of code.
pub open spec fn is_fence(line: Seq<char>) -> bool {
    has_prefix(trimmed(line), "```"@)
}

/// What has been written for the lines read so far, whether a drawn table is
/// under way, and whether a block of code is.
pub struct Fencing {
    pub out: Seq<char>,
    pub in_table: bool,
    pub in_code: bool,
}

/// One line more. A fence toggles the block of code, and closes a drawn table
/// first. Inside a block of code every line passes as it is. Outside, a line
/// of a drawn table opens a block of its own where none is open, and any
/// other line closes it.
pub open spec fn fence_step(st: Fencing, line: Seq<char>) -> Fencing {
    if is_fence(line) {
        Fencing {
            out: st.out + (if st.in_table {
                "```\n"@
            } else {
                Seq::empty()
            }) + line + seq!['\n'],
            in_table: false,
            in_code: !st.in_code,
        }
    } else if st.in_code {
        Fencing { out: st.out + line + seq!['\n'], in_table: st.in_table, in_code: true }
    } else if is_box_line(line) {
        Fencing {
            out: st.out + (if st.in_table {
                Seq::empty()
            } else {
                "\n```polirag_table\n"@
            }) + line + seq!['\n'],
            in_table: true,
            in_code: false,
        }
    } else {
        Fencing {
            out: st.out + (if st.in_table {
                "```\n"@
            } else {
                Seq::empty()
            }) + line + seq!['\n'],
            in_table: false,
            in_code: false,
        }
    }
}

/// The state after the first `n` lines.
pub open spec fn fenced(ls: Seq<Seq<char>>, n: int) -> Fencing
    decreases n,
{
    if n <= 0 {
        Fencing { out: Seq::empty(), in_table: false, in_code: false }
    } else {
        fence_step(fenced(ls, n - 1), ls[n - 1])
    }
}

/// The text with every table drawn with box characters put into a block of
/// code, so that the renderer leaves it as it is.
pub open spec fn with_tables_fenced(text: Seq<char>) -> Seq<char> {
    let st = fenced(lines(text), lines(text).len() as int);
    if st.in_table {
        st.out + "```\n"@
    } else {
        st.out
    }
}

/// Whether the line holds a box character.
fn box_line(line: &Vec<char>) -> (r: bool)
    ensures
        r == is_box_line(line@),
{
    let mut i: usize = 0;
    while i < line.len()
        invariant
            i <= line.len(),
            forall|k: int| 0 <= k < i ==> !is_box_char(#[trigger] line@[k]),
        decreases line.len() - i,
    {
        let c = line[i];
        if c == '┌' || c == '│' || c == '└' || c == '├' || c == '─' || c == '┬' || c == '┴' || c
            == '┼' {
            return true;
        }
        i += 1;
    }
    false
}

/// Puts every table drawn with box characters into a block of code.
pub fn preprocess_ascii_tables(text: &str) -> (r: String)
    ensures
        r@ == with_tables_fenced(text@),
{
    let ls = split_lines(&chars_of(text));
    let ghost l = char_views(ls@);
    let fence = chars_of("```");
    let mut out: Vec<char> = Vec::new();
    let mut in_table = false;
    let mut in_code = false;
    let mut i: usize = 0;
    while i < ls.len()
        invariant
            i <= ls.len(),
            l == char_views(ls@),
            l == lines(text@),
            fence@ == "```"@,
            fenced(l, i as int) == (Fencing { out: out@, in_table, in_code }),
        decreases ls.len() - i,
    {
        let line = &ls[i];
        assert(l[i as int] == line@);
        let ghost before = Fencing { out: out@, in_table, in_code };
        let t = trim(line);
        if starts_with(&t, &fence) {
            in_code = !in_code;
            if in_table {
                push_str(&mut out, "```\n");
                in_table = false;
            }
            push_all(&mut out, line);
            out.push('\n');
        } else if in_code {
            push_all(&mut out, line);
            out.push('\n');
        } else if box_line(line) {
            if !in_table {
                push_str(&mut out, "\n```polirag_table\n");
                in_table = true;
            }
            push_all(&mut out, line);
            out.push('\n');
        } else {
            if in_table {
                push_str(&mut out, "```\n");
                in_table = false;
            }
            push_all(&mut out, line);
            out.push('\n');
        }
        assert(out@ =~= fence_step(before, line@).out);
        i += 1;
    }
    if in_table {
        push_str(&mut out, "```\n");
    }
    string_of(&out)
}

/// The rows that a line is broken into: the line itself where it has no more
/// than `width` characters, else rows of `width` characters and a last row
/// with the rest.
pub open spec fn broken(line: Seq<char>, width: nat) -> Seq<Seq<char>> {
    if line.len() <= width {
        seq![line]
    } else {
        let st = breaking(line, width, line.len() as int);
        if st.1.len() > 0 {
            st.0.push(st.1)
        } else {
            st.0
        }
    }
}

/// The rows that are full after the first `n` characters of a line, and the
/// row under way.
pub open spec fn breaking(line: Seq<char>, width: nat, n: int) -> (Seq<Seq<char>>, Seq<char>)
    decreases n,
{
    if n <= 0 {
        (Seq::empty(), Seq::empty())
    } else {
        let before = breaking(line, width, n - 1);
        if before.1.len() >= width {
            (before.0.push(before.1), seq![line[n - 1]])
        } else {
            (before.0, before.1.push(line[n - 1]))
        }
    }
}

/// The rows of the first `n` lines.
pub open spec fn wrapped(ls: Seq<Seq<char>>, width: nat, n: int) -> Seq<Seq<char>>
    decreases n,
{
    if n <= 0 {
        Seq::empty()
    } else {
        wrapped(ls, width, n - 1) + broken(ls[n - 1], width)
    }
}

/// Breaks a line into rows.
fn break_line(line: &Vec<char>, width: usize) -> (r: Vec<Vec<char>>)
    ensures
        char_views(r@) == broken(line@, width as nat),
{
    let mut done: Vec<Vec<char>> = Vec::new();
    if line.len() <= width {
        let copy = crate::text::slice(line, 0, line.len());
        assert(line@.subrange(0, line@.len() as int) =~= line@);
        done.push(copy);
        assert(char_views(done@) =~= seq![line@]);
        return done;
    }
    let mut current: Vec<char> = Vec::new();
    let mut i: usize = 0;
    assert(char_views(done@) =~= Seq::<Seq<char>>::empty());
    while i < line.len()
        invariant
            i <= line.len(),
            breaking(line@, width as nat, i as int) == (char_views(done@), current@),
        decreases line.len() - i,
    {
        let ghost held = char_views(done@);
        let ghost cur = current@;
        if current.len() >= width {
            done.push(current);
            current = Vec::new();
            assert(char_views(done@) =~= held.push(cur));
            current.push(line[i]);
            assert(current@ =~= seq![line@[i as int]]);
        } else {
            current.push(line[i]);
        }
        i += 1;
    }
    if current.len() > 0 {
        let ghost held = char_views(done@);
        let ghost cur = current@;
        done.push(current);
        assert(char_views(done@) =~= held.push(cur));
    }
    done
}

/// Breaks every line of a text that is longer than `width` characters into
/// rows of `width` characters.
pub fn wrap_text_simple(text: &str, width: usize) -> (r: Vec<String>)
    ensures
        str_views(r@) == wrapped(lines(text@), width as nat, lines(text@).len() as int),
{
    let ls = split_lines(&chars_of(text));
    let ghost l = char_views(ls@);
    let mut out: Vec<Vec<char>> = Vec::new();
    let mut i: usize = 0;
    assert(char_views(out@) =~= Seq::<Seq<char>>::empty());
    while i < ls.len()
        invariant
            i <= ls.len(),
            l == char_views(ls@),
            char_views(out@) == wrapped(l, width as nat, i as int),
        decreases ls.len() - i,
    {
        assert(l[i as int] == ls@[i as int]@);
        let mut rows = break_line(&ls[i], width);
        let ghost before = char_views(out@);
        let ghost rv = char_views(rows@);
        out.append(&mut rows);
        assert(char_views(out@) =~= before + rv);
        i += 1;
    }
    strings_of(&out)
}

// ---------------------------------------------------------------------------
// The thinking of the model
// ---------------------------------------------------------------------------

/// The thinking that an answer holds: what stands between the first
/// `<think>` and the first `</think>` after it, or everything after the first
/// `<think>` where the thinking is not closed yet. Nothing where the answer
/// holds no `<think>`.
pub open spec fn thinking_of(text: Seq<char>) -> Option<Seq<char>> {
    match first_occurrence(text, "<think>"@, 0) {
        Some(start) => match first_occurrence(text, "</think>"@, start) {
            Some(end) => Some(text.subrange(start + 7, end)),
            None => Some(text.subrange(start + 7, text.len() as int)),
        },
        None => None,
    }
}

/// The answer proper: what follows the thinking; the whole text where it
/// holds no thinking, and nothing where the thinking is not closed yet.
pub open spec fn answer_of(text: Seq<char>) -> Seq<char> {
    match first_occurrence(text, "<think>"@, 0) {
        Some(start) => match first_occurrence(text, "</think>"@, start) {
            Some(end) => text.subrange(end + 8, text.len() as int),
            None => Seq::empty(),
        },
        None => text,
    }
}

/// Parts the thinking of the model from its answer.
pub fn split_thinking(text: &str) -> (r: (Option<String>, String))
    ensures
        opt_view(r.0) == thinking_of(text@),
        r.1@ == answer_of(text@),
{
    let t = chars_of(text);
    let open = chars_of("<think>");
    let close = chars_of("</think>");
    proof {
        reveal_strlit("<think>");
        reveal_strlit("</think>");
    }
    match find(&t, &open) {
        Some(start) => match find_from(&t, &close, start) {
            Some(end) => {
                proof {
                    // The closing tag cannot begin inside the opening tag.
                    let opening = t@.subrange(start as int, start + 7);
                    let closing = t@.subrange(end as int, end + 8);
                    assert(opening == open@);
                    assert(closing == close@);
                    if end < start + 7 {
                        assert(opening[end - start] == closing[0]);
                        if end == start {
                            assert(opening[1] == closing[1]);
                        }
                    }
                }
                (
                    Some(string_of(&slice(&t, start + 7, end))),
                    string_of(&slice(&t, end + 8, t.len())),
                )
            },
            None => (Some(string_of(&slice(&t, start + 7, t.len()))), String::new()),
        },
        None => {
            assert(t@.subrange(0, t@.len() as int) =~= t@);
            (None, string_of(&slice(&t, 0, t.len())))
        },
    }
}

/// Whether a rendered row is shown: the fences of the blocks that were made
/// for drawn tables are not. `in_table` tells whether such a block is open;
/// the second part of the result tells whether one is open after the row.
pub fn row_is_shown(row: &str, in_table: bool) -> (r: (bool, bool))
    ensures
        r == if trimmed(row@) == "```polirag_table"@ {
            (false, true)
        } else if in_table && trimmed(row@) == "```"@ {
            (false, false)
        } else {
            (true, in_table)
        },
{
    let t = trim(&chars_of(row));
    if same_chars(&t, &chars_of("```polirag_table")) {
        (false, true)
    } else if in_table && same_chars(&t, &chars_of("```")) {
        (false, false)
    } else {
        (true, in_table)
    }
}

} // verus!

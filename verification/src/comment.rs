//! Turning lines into comments and back.

use vstd::prelude::*;
use ropey::Rope;
use crate::block::{says, stands};
use crate::buffer::{line_body, Syntax};
use crate::editor::{Editor, EditorView};
use crate::rope::{rope_chars, rope_line_to_char, rope_slice};
use crate::say;
use crate::text::{
    chars_of, copied, joined_with, join_with, lemma_line_starts, line_start, pieces_of, split_on,
    string_between, views,
};

verus! {

/// What a comment round several lines is written with.
pub open spec fn wrapper(syntax: Syntax) -> (Seq<char>, Seq<char>) {
    match syntax {
        Syntax::Typst => ("/* "@, " */"@),
        _ => ("<!-- "@, " -->"@),
    }
}

/// A text as one comment; one that is a comment without its marks.
pub open spec fn wrapped(r: Seq<char>, marks: (Seq<char>, Seq<char>)) -> Seq<char> {
    let (head, tail) = marks;
    if r.len() >= head.len() + tail.len() && head.is_prefix_of(r) && tail.is_suffix_of(r) {
        r.subrange(head.len() as int, r.len() - tail.len())
    } else {
        head + r + tail
    }
}

/// A line as a comment; an empty one stays empty.
pub open spec fn slashed(line: Seq<char>) -> Seq<char> {
    if line.len() == 0 {
        line
    } else {
        "// "@ + line
    }
}

/// A line without the mark of a comment.
pub open spec fn unslashed(line: Seq<char>) -> Seq<char> {
    if stands(line, "// "@, 0) {
        line.skip(3)
    } else if stands(line, "//"@, 0) {
        line.skip(2)
    } else {
        line
    }
}

/// Whether all lines that are not empty are comments, and there is one.
pub open spec fn all_slashed(lines: Seq<Seq<char>>) -> bool {
    &&& forall|k: int|
        0 <= k < lines.len() ==> (#[trigger] lines[k]).len() == 0 || stands(lines[k], "//"@, 0)
    &&& exists|k: int| 0 <= k < lines.len() && (#[trigger] lines[k]).len() > 0
}

/// Lines as comments; lines that all are comments without their marks.
pub open spec fn turned(r: Seq<char>) -> Seq<char> {
    let lines = pieces_of(r, '\n');
    joined_with(
        Seq::new(
            lines.len(),
            |k: int|
                if all_slashed(lines) {
                    unslashed(lines[k])
                } else {
                    slashed(lines[k])
                },
        ),
        "\n"@,
    )
}

impl EditorView {
    /// With the selected lines turned into comments, or back: each of them, or
    /// all as one, as far as the language has both. Plain text has no comments.
    #[verifier::opaque]
    pub open spec fn commenting(self, block: bool) -> EditorView {
        let t = self.text();
        let last = self.last_selected_line();
        let a = line_start(t, self.first_selected_line());
        let b = line_start(t, last) + line_body(t, last).len();
        let syntax = self.buffer().syntax;
        let s = if syntax == Syntax::Typst && !block {
            turned(t.subrange(a, b))
        } else {
            wrapped(t.subrange(a, b), wrapper(syntax))
        };
        if syntax == Syntax::Text {
            self.saying(say::no_comments_text())
        } else {
            self.writing_over(a, b, s, a + s.len())
        }
    }
}

/// Whether `tail` ends `v`.
fn ends_with(v: &Vec<char>, tail: &Vec<char>) -> (r: bool)
    requires
        tail@.len() <= v@.len(),
    ensures
        r == tail@.is_suffix_of(v@),
{
    let at: usize = v.len() - tail.len();
    let r: bool = crate::text::stands_at(v, at, tail);
    assert(v@.skip(at as int).subrange(0, tail@.len() as int) =~= v@.subrange(
        v@.len() - tail@.len(),
        v@.len() as int,
    ));
    r
}

/// A text as one comment, or without the marks of one.
fn wrap(r: &str, head: &str, tail: &str) -> (s: String)
    ensures
        s@ == wrapped(r@, (head@, tail@)),
{
    let v: Vec<char> = chars_of(r);
    let h: Vec<char> = chars_of(head);
    let e: Vec<char> = chars_of(tail);
    assert(v@.skip(0) =~= v@);
    if h.len() <= v.len() && e.len() <= v.len() - h.len() && crate::text::stands_at(&v, 0, &h)
        && ends_with(&v, &e) {
        return string_between(&v, h.len(), v.len() - e.len());
    }
    let mut s: String = copied(head);
    s.push_str(r);
    s.push_str(tail);
    s
}

/// A line as a comment.
fn slash(line: &str) -> (s: String)
    ensures
        s@ == slashed(line@),
{
    if line.unicode_len() == 0 {
        return copied(line);
    }
    let mut s: String = copied("// ");
    s.push_str(line);
    s
}

/// A line without the mark of a comment.
fn unslash(line: &str) -> (s: String)
    ensures
        s@ == unslashed(line@),
{
    proof {
        reveal_strlit("// ");
        reveal_strlit("//");
    }
    let v: Vec<char> = chars_of(line);
    let from: usize = if says(&v, "// ", 0) {
        3
    } else if says(&v, "//", 0) {
        2
    } else {
        0
    };
    let s: String = string_between(&v, from, v.len());
    assert(s@ =~= unslashed(line@));
    s
}

/// Whether all lines that are not empty are comments, and there is one.
fn are_slashed(lines: &Vec<String>) -> (r: bool)
    ensures
        r == all_slashed(views(lines@)),
{
    let ghost all = views(lines@);
    let mut any: bool = false;
    let mut i: usize = 0;
    while i < lines.len()
        invariant
            0 <= i <= lines@.len(),
            all == views(lines@),
            forall|k: int|
                0 <= k < i ==> (#[trigger] all[k]).len() == 0 || stands(all[k], "//"@, 0),
            any == exists|k: int| 0 <= k < i && (#[trigger] all[k]).len() > 0,
        decreases lines@.len() - i,
    {
        let v: Vec<char> = chars_of(lines[i].as_str());
        assert(all[i as int] == v@);
        if v.len() > 0 {
            any = true;
            if !says(&v, "//", 0) {
                return false;
            }
        }
        i += 1;
    }
    any
}

/// Lines as comments, or without their marks.
fn turn(r: &str) -> (s: String)
    ensures
        s@ == turned(r@),
{
    let lines: Vec<String> = split_on(r, '\n');
    let off: bool = are_slashed(&lines);
    let ghost all = views(lines@);
    let mut out: Vec<String> = Vec::new();
    let mut i: usize = 0;
    while i < lines.len()
        invariant
            0 <= i <= lines@.len(),
            all == views(lines@),
            off == all_slashed(all),
            out@.len() == i,
            forall|k: int|
                0 <= k < i ==> (#[trigger] out@[k])@ == (if off {
                    unslashed(all[k])
                } else {
                    slashed(all[k])
                }),
        decreases lines@.len() - i,
    {
        assert(all[i as int] == lines@[i as int]@);
        let line: String = if off {
            unslash(lines[i].as_str())
        } else {
            slash(lines[i].as_str())
        };
        out.push(line);
        i += 1;
    }
    let s: String = join_with(&out, "\n");
    assert(views(out@) =~= Seq::new(
        all.len(),
        |k: int|
            if all_slashed(all) {
                unslashed(all[k])
            } else {
                slashed(all[k])
            },
    ));
    s
}

impl Editor {
    /// `space c` and `space C`: turns the selected lines into comments, or back.
    pub fn toggle_comment(&mut self, block: bool)
        requires
            old(self).wf(),
        ensures
            final(self).wf(),
            final(self)@ == old(self)@.commenting(block),
    {
        proof {
            reveal(EditorView::commenting);
        }
        let syntax: Syntax = self.current_buffer().syntax;
        if syntax == Syntax::Text {
            self.say(say::no_comments());
            return;
        }
        let (first, last) = self.selected_lines();
        let rope: &Rope = self.rope();
        let ghost t = rope_chars(*rope);
        proof {
            lemma_line_starts(t, first as int, last as int);
            lemma_line_starts(t, last as int, last + 1);
        }
        let a: usize = rope_line_to_char(rope, first);
        let start: usize = rope_line_to_char(rope, last);
        let body: Vec<char> = self.current_buffer().line_chars(last);
        let b: usize = start + body.len();
        let r: String = rope_slice(rope, a, b);
        let s: String = if syntax == Syntax::Typst {
            if block {
                wrap(r.as_str(), "/* ", " */")
            } else {
                turn(r.as_str())
            }
        } else {
            wrap(r.as_str(), "<!-- ", " -->")
        };
        let count: usize = crate::text::char_count(s.as_str());
        let ghost before = self@;
        proof {
            crate::text::lemma_spliced(t, a as int, b as int, s@);
        }
        let to: usize = a.saturating_add(count);
        let _ = self.write_over(a, b, s.as_str(), to);
        proof {
            assert(before.writing_over(a as int, b as int, s@, to as int) == before.writing_over(
                a as int,
                b as int,
                s@,
                a + count,
            ));
        }
    }
}

} // verus!

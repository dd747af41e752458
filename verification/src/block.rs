//! What kind of block each line of a text belongs to.

use vstd::prelude::*;
use crate::buffer::{Block, Buffer, line_body, Syntax};
use crate::text::{chars_of, find_stand, line_count, next_stand, stands_at};

verus! {

/// What a line leaves open for the next.
#[derive(Debug, Clone, Copy, PartialEq, Eq, Structural)]
pub enum Open {
    Nothing,
    Fence,
    Comment,
}

/// Where the blanks end that begin at `i`.
pub open spec fn after_blank(s: Seq<char>, i: int) -> int
    decreases s.len() - i,
{
    if i < s.len() && (s[i] == ' ' || s[i] == '\t') {
        after_blank(s, i + 1)
    } else {
        i
    }
}

/// Whether `lit` stands at `i`.
pub open spec fn stands(s: Seq<char>, lit: Seq<char>, i: int) -> bool {
    lit.is_prefix_of(s.skip(i))
}

/// What a comment over several lines begins with.
pub open spec fn comment_head(syntax: Syntax) -> Seq<char> {
    match syntax {
        Syntax::Typst => "/*"@,
        _ => "<!--"@,
    }
}

/// What a comment over several lines ends with.
pub open spec fn comment_tail(syntax: Syntax) -> Seq<char> {
    match syntax {
        Syntax::Typst => "*/"@,
        _ => "-->"@,
    }
}

/// The block of a line, and what it leaves open, where `open` was left open
/// before it. Plain text is prose all over.
pub open spec fn read_line(syntax: Syntax, open: Open, line: Seq<char>) -> (Block, Open) {
    let at = after_blank(line, 0);
    let closed = if next_stand(line, comment_tail(syntax), 0) is Some {
        Open::Nothing
    } else {
        Open::Comment
    };
    if syntax == Syntax::Text {
        (Block::Prose, Open::Nothing)
    } else if open == Open::Fence {
        (
            Block::Literal,
            if stands(line, "```"@, at) {
                Open::Nothing
            } else {
                Open::Fence
            },
        )
    } else if open == Open::Comment {
        (Block::Comment, closed)
    } else if stands(line, "```"@, at) {
        (Block::Literal, Open::Fence)
    } else if stands(line, comment_head(syntax), at) {
        (Block::Comment, closed)
    } else if syntax == Syntax::Typst && stands(line, "//"@, at) {
        (Block::Comment, Open::Nothing)
    } else {
        (Block::Prose, Open::Nothing)
    }
}

/// What is open before line `l`.
pub open spec fn open_before(syntax: Syntax, t: Seq<char>, l: int) -> Open
    decreases l,
{
    if l <= 0 {
        Open::Nothing
    } else {
        read_line(syntax, open_before(syntax, t, l - 1), line_body(t, l - 1)).1
    }
}

/// The block that line `l` belongs to; prose after the end of the text.
pub open spec fn written_block(syntax: Syntax, t: Seq<char>, l: int) -> Block {
    if l < line_count(t) {
        read_line(syntax, open_before(syntax, t, l), line_body(t, l)).0
    } else {
        Block::Prose
    }
}

/// Where the blanks end that the line begins with.
pub fn skip_blank(line: &Vec<char>) -> (at: usize)
    ensures
        at == after_blank(line@, 0),
        at <= line@.len(),
{
    let mut i: usize = 0;
    while i < line.len() && (line[i] == ' ' || line[i] == '\t')
        invariant
            0 <= i <= line@.len(),
            after_blank(line@, 0) == after_blank(line@, i as int),
        decreases line@.len() - i,
    {
        i += 1;
    }
    i
}

/// Whether `lit` stands in the line at `at`.
pub fn says(line: &Vec<char>, lit: &str, at: usize) -> (r: bool)
    requires
        at <= line@.len(),
    ensures
        r == stands(line@, lit@, at as int),
        r ==> at + lit@.len() <= line@.len(),
{
    let lit: Vec<char> = chars_of(lit);
    stands_at(line, at, &lit)
}

/// The block of a line, and what it leaves open.
pub fn see_line(syntax: Syntax, open: Open, line: &Vec<char>) -> (r: (Block, Open))
    ensures
        r == read_line(syntax, open, line@),
{
    if syntax == Syntax::Text {
        return (Block::Prose, Open::Nothing);
    }
    let at: usize = skip_blank(line);
    let fence: bool = says(line, "```", at);
    if open == Open::Fence {
        return (
            Block::Literal,
            if fence {
                Open::Nothing
            } else {
                Open::Fence
            },
        );
    }
    let typst: bool = syntax == Syntax::Typst;
    let tail: Vec<char> = chars_of(
        if typst {
            "*/"
        } else {
            "-->"
        },
    );
    let closed: Open = if find_stand(line, &tail, 0).is_some() {
        Open::Nothing
    } else {
        Open::Comment
    };
    if open == Open::Comment {
        (Block::Comment, closed)
    } else if fence {
        (Block::Literal, Open::Fence)
    } else if says(
        line,
        if typst {
            "/*"
        } else {
            "<!--"
        },
        at,
    ) {
        (Block::Comment, closed)
    } else if typst && says(line, "//", at) {
        (Block::Comment, Open::Nothing)
    } else {
        (Block::Prose, Open::Nothing)
    }
}

impl Buffer {
    /// The block that line `l` belongs to.
    pub fn written_block(&self, l: usize) -> (b: Block)
        ensures
            b == written_block(self@.syntax, self@.text, l as int),
    {
        let n: usize = self.line_count();
        if l >= n {
            return Block::Prose;
        }
        let mut open: Open = Open::Nothing;
        let mut k: usize = 0;
        while k < l
            invariant
                0 <= k <= l < n,
                n == line_count(self@.text),
                open == open_before(self@.syntax, self@.text, k as int),
            decreases l - k,
        {
            let line: Vec<char> = self.line_chars(k);
            let (_, next) = see_line(self.syntax, open, &line);
            open = next;
            k += 1;
        }
        let line: Vec<char> = self.line_chars(l);
        see_line(self.syntax, open, &line).0
    }
}

} // verus!

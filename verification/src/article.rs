//! An entry of the wiki, laid out to be read.

use vstd::prelude::*;
use crate::path::{FilePath, PathView};
use crate::say;
use crate::text::{
    chars_of, copied, join_with, joined_with, stands_at, string_between, trim, trimmed, views,
};

verus! {

/// One entry: the headings above it, and its body with its own headings
/// levelled to it.
#[derive(Debug, Clone, PartialEq, Eq)]
pub struct WikiPart<'a> {
    /// From the global wiki rather than this book's.
    pub global: bool,
    /// The headings above it, outermost first.
    pub trail: &'a [String],
    pub lines: Vec<WikiLine<'a>>,
    /// Where the heading is written.
    pub source: &'a FilePath,
    pub line: usize,
}

/// A line of an entry's body.
#[derive(Debug, Clone, Copy, PartialEq, Eq)]
pub enum WikiLine<'a> {
    /// A heading, at its depth within the entry: 2 is the first level under
    /// the entry itself.
    Heading(usize, &'a str),
    Text(&'a str),
}

/// Every entry of the name the cursor stands on.
#[derive(Debug, Clone, PartialEq, Eq)]
pub struct WikiView<'a> {
    pub name: String,
    /// The book's first, then the global ones.
    pub parts: Vec<WikiPart<'a>>,
}

/// What a [`WikiLine`] says.
pub enum ArticleLine {
    Heading(int, Seq<char>),
    Text(Seq<char>),
}

/// What a [`WikiPart`] says.
#[verifier::ext_equal]
pub struct ArticlePart {
    pub global: bool,
    pub trail: Seq<Seq<char>>,
    pub lines: Seq<ArticleLine>,
    pub source: PathView,
    pub line: int,
}

/// What a [`WikiView`] says.
#[verifier::ext_equal]
pub struct Article {
    pub name: Seq<char>,
    pub parts: Seq<ArticlePart>,
}

impl View for WikiLine<'_> {
    type V = ArticleLine;

    open spec fn view(&self) -> ArticleLine {
        match *self {
            WikiLine::Heading(depth, title) => ArticleLine::Heading(depth as int, title@),
            WikiLine::Text(text) => ArticleLine::Text(text@),
        }
    }
}

/// What lines say.
pub open spec fn line_views(v: Seq<WikiLine<'_>>) -> Seq<ArticleLine> {
    v.map_values(|l: WikiLine<'_>| l@)
}

impl View for WikiPart<'_> {
    type V = ArticlePart;

    open spec fn view(&self) -> ArticlePart {
        ArticlePart {
            global: self.global,
            trail: views(self.trail@),
            lines: line_views(self.lines@),
            source: self.source@,
            line: self.line as int,
        }
    }
}

impl View for WikiView<'_> {
    type V = Article;

    open spec fn view(&self) -> Article {
        Article { name: self.name@, parts: self.parts@.map_values(|p: WikiPart<'_>| p@) }
    }
}

/// The rows of an article so far.
#[verifier::ext_equal]
pub struct Rows {
    pub rows: Seq<Seq<char>>,
    /// How many lines of body there are that take a row.
    pub kept: int,
    /// Whether the global entries were announced.
    pub said: bool,
    /// Whether the limit was reached.
    pub cut: bool,
}

/// `n` number signs.
pub open spec fn hashes(n: int) -> Seq<char> {
    Seq::new(if n > 0 { n as nat } else { 0 }, |i: int| '#')
}

impl ArticleLine {
    /// The line as it is written.
    pub open spec fn row(self) -> Seq<char> {
        match self {
            ArticleLine::Heading(depth, title) => hashes(depth).push(' ') + title,
            ArticleLine::Text(text) => text,
        }
    }

    /// Whether the line takes a row: a blank line takes none.
    pub open spec fn counts(self) -> bool {
        match self {
            ArticleLine::Heading(_, _) => true,
            ArticleLine::Text(text) => trimmed(text).len() > 0,
        }
    }
}

/// With one more line of body, unless the limit was reached.
pub open spec fn with_line(r: Rows, line: ArticleLine, upto: int) -> Rows {
    if r.cut {
        r
    } else if r.kept >= upto {
        Rows { cut: true, ..r }
    } else {
        Rows {
            rows: r.rows.push(line.row()),
            kept: r.kept + if line.counts() { 1int } else { 0int },
            ..r
        }
    }
}

/// With lines of body, up to the limit.
pub open spec fn with_lines(r: Rows, lines: Seq<ArticleLine>, upto: int) -> Rows
    decreases lines.len(),
{
    if lines.len() == 0 {
        r
    } else {
        with_line(with_lines(r, lines.drop_last(), upto), lines.last(), upto)
    }
}

/// Said above the first global entry.
pub open spec fn global_rule() -> Seq<char> {
    "── "@ + say::wiki_global_text() + " ──"@
}

/// With what stands above the body of the part at `i`: an empty row and a rule
/// after another part, the global ones announced where the article has both,
/// and the headings above the entry.
pub open spec fn with_furniture(r: Rows, part: ArticlePart, i: int, mixed: bool) -> Rows {
    let apart = if i > 0 {
        r.rows.push(Seq::empty())
    } else {
        r.rows
    };
    let announced = mixed && part.global && !r.said;
    let ruled = if announced {
        apart.push(global_rule())
    } else if i > 0 {
        apart.push("──"@)
    } else {
        apart
    };
    let rows = if part.trail.len() > 0 {
        ruled.push(joined_with(part.trail, " › "@))
    } else {
        ruled
    };
    Rows { rows, said: r.said || announced, ..r }
}

/// The rows of the parts, with at most `upto` lines of body. What stands above
/// a body is there for every part.
pub open spec fn part_rows(parts: Seq<ArticlePart>, mixed: bool, upto: int) -> Rows
    decreases parts.len(),
{
    if parts.len() == 0 {
        Rows { rows: Seq::empty(), kept: 0, said: false, cut: false }
    } else {
        let r = part_rows(parts.drop_last(), mixed, upto);
        with_lines(
            with_furniture(r, parts.last(), parts.len() - 1, mixed),
            parts.last().lines,
            upto,
        )
    }
}

/// The first position at or after `i` that is not a line break.
pub open spec fn after_breaks(s: Seq<char>, i: int) -> int
    decreases s.len() - i,
{
    if i < s.len() && s[i] == '\n' {
        after_breaks(s, i + 1)
    } else {
        i
    }
}

impl Article {
    /// Whether there are both entries of the book and global ones.
    pub open spec fn mixed(self) -> bool {
        (exists|i: int| 0 <= i < self.parts.len() && (#[trigger] self.parts[i]).global) && (exists|
            i: int,
        |
            0 <= i < self.parts.len() && !(#[trigger] self.parts[i]).global)
    }

    /// The article as prose, with at most `upto` lines of body. What stands
    /// above the bodies is never cut.
    pub open spec fn prose(self, upto: int) -> Seq<char> {
        joined_with(part_rows(self.parts, self.mixed(), upto).rows, "\n"@)
    }

    /// The headings above the entry, where there is one entry and it has any.
    pub open spec fn lede(self) -> Option<Seq<char>> {
        if self.parts.len() == 1 && self.parts[0].trail.len() > 0 {
            Some(joined_with(self.parts[0].trail, " › "@))
        } else {
            None
        }
    }

    /// The article without the line that [`Article::lede`] lifts out.
    pub open spec fn body(self, upto: int) -> Seq<char> {
        let all = self.prose(upto);
        match self.lede() {
            Some(lede) => if lede.is_prefix_of(all) {
                let rest = all.skip(lede.len() as int);
                rest.skip(after_breaks(rest, 0))
            } else {
                all
            },
            None => all,
        }
    }
}

/// Puts a line of body after the others, unless the limit was reached.
fn push_line(out: &mut Vec<String>, kept: usize, said: bool, line: &WikiLine, upto: usize) -> (r: (
    usize,
    bool,
))
    requires
        kept <= upto,
    ensures
        r.0 <= upto,
        (Rows { rows: views(final(out)@), kept: r.0 as int, said, cut: r.1 }) == with_line(
            Rows { rows: views(old(out)@), kept: kept as int, said, cut: false },
            line@,
            upto as int,
        ),
{
    if kept >= upto {
        return (kept, true);
    }
    let ghost before = views(out@);
    match line {
        WikiLine::Heading(depth, title) => {
            let mut row: String = String::new();
            let mut i: usize = 0;
            assert(row@ =~= hashes(0));
            while i < *depth
                invariant
                    0 <= i <= *depth,
                    row@ == hashes(i as int),
                decreases *depth - i,
            {
                row.push('#');
                i += 1;
                assert(row@ =~= hashes(i as int));
            }
            row.push(' ');
            row.push_str(title);
            let ghost said = row@;
            out.push(row);
            assert(views(out@) =~= before.push(said));
            (kept + 1, false)
        },
        WikiLine::Text(text) => {
            out.push(copied(text));
            assert(views(out@) =~= before.push(text@));
            let n: usize = if trim(text).unicode_len() > 0 {
                1
            } else {
                0
            };
            (kept + n, false)
        },
    }
}

proof fn lemma_cut_prefix(r: Rows, lines: Seq<ArticleLine>, n: int, upto: int)
    requires
        0 <= n <= lines.len(),
        with_lines(r, lines.take(n), upto).cut,
    ensures
        with_lines(r, lines, upto) == with_lines(r, lines.take(n), upto),
    decreases lines.len(),
{
    if n == lines.len() {
        assert(lines.take(n) =~= lines);
    } else {
        assert(lines.drop_last().take(n) =~= lines.take(n));
        lemma_cut_prefix(r, lines.drop_last(), n, upto);
    }
}

/// Puts the lines of a body after the rows, up to the limit.
fn push_lines(
    out: &mut Vec<String>,
    kept: usize,
    said: bool,
    cut: bool,
    lines: &Vec<WikiLine>,
    upto: usize,
) -> (r: (usize, bool))
    requires
        kept <= upto,
    ensures
        r.0 <= upto,
        (Rows { rows: views(final(out)@), kept: r.0 as int, said, cut: r.1 }) == with_lines(
            Rows { rows: views(old(out)@), kept: kept as int, said, cut },
            line_views(lines@),
            upto as int,
        ),
{
    let ghost all = line_views(lines@);
    let ghost r0 = Rows { rows: views(out@), kept: kept as int, said, cut };
    if cut {
        proof {
            assert(all.take(0) =~= Seq::empty());
            lemma_cut_prefix(r0, all, 0, upto as int);
        }
        return (kept, true);
    }
    let mut kept_now: usize = kept;
    let mut i: usize = 0;
    assert(all.take(0) =~= Seq::empty());
    while i < lines.len()
        invariant
            0 <= i <= lines@.len(),
            kept_now <= upto,
            r0 == (Rows { rows: views(old(out)@), kept: kept as int, said, cut }),
            !cut,
            all == line_views(lines@),
            (Rows { rows: views(out@), kept: kept_now as int, said, cut: false }) == with_lines(
                r0,
                all.take(i as int),
                upto as int,
            ),
        decreases lines@.len() - i,
    {
        let (n, full) = push_line(out, kept_now, said, &lines[i], upto);
        proof {
            assert(all.take(i + 1).drop_last() =~= all.take(i as int));
            assert(all.take(i + 1).last() == lines@[i as int]@);
        }
        kept_now = n;
        i += 1;
        if full {
            proof {
                lemma_cut_prefix(r0, all, i as int, upto as int);
            }
            return (kept_now, true);
        }
    }
    assert(all.take(lines@.len() as int) =~= all);
    (kept_now, false)
}

impl<'a> WikiView<'a> {
    /// The headings above the entry, where there is one entry and it has any.
    pub fn lede(&self) -> (r: Option<String>)
        ensures
            match r {
                Some(s) => self@.lede() == Some(s@),
                None => self@.lede() is None,
            },
    {
        if self.parts.len() == 1 && self.parts[0].trail.len() > 0 {
            assert(self@.parts[0] == self.parts@[0]@);
            Some(join_with(self.parts[0].trail, " › "))
        } else {
            assert(self.parts@.len() == 1 ==> self@.parts[0] == self.parts@[0]@);
            None
        }
    }

    /// The article without the line that [`WikiView::lede`] lifts out, with at
    /// most `upto` lines of body.
    pub fn body_prose(&self, upto: usize) -> (r: String)
        ensures
            r@ == self@.body(upto as int),
    {
        let all: String = self.prose(upto);
        match self.lede() {
            Some(lede) => {
                let head: Vec<char> = chars_of(lede.as_str());
                let chars: Vec<char> = chars_of(all.as_str());
                assert(chars@.skip(0) =~= chars@);
                if !stands_at(&chars, 0, &head) {
                    return all;
                }
                let ghost rest = chars@.skip(head@.len() as int);
                let mut k: usize = head.len();
                while k < chars.len() && chars[k] == '\n'
                    invariant
                        head@.len() <= k <= chars@.len(),
                        rest == chars@.skip(head@.len() as int),
                        after_breaks(rest, 0) == after_breaks(rest, k - head@.len()),
                    decreases chars@.len() - k,
                {
                    k += 1;
                }
                assert(rest.skip(k - head@.len()) =~= chars@.subrange(
                    k as int,
                    chars@.len() as int,
                ));
                string_between(&chars, k, chars.len())
            },
            None => all,
        }
    }

    /// The whole article as prose: one entry after the other, a rule between,
    /// and the global ones announced.
    pub fn as_prose(&self) -> (r: String)
        ensures
            r@ == self@.prose(usize::MAX as int),
    {
        self.prose(usize::MAX)
    }

    /// Whether there are both entries of the book and global ones.
    fn is_mixed(&self) -> (r: bool)
        ensures
            r == self@.mixed(),
    {
        let mut global: bool = false;
        let mut own: bool = false;
        let mut i: usize = 0;
        while i < self.parts.len()
            invariant
                0 <= i <= self.parts@.len(),
                global == exists|k: int| 0 <= k < i && (#[trigger] self@.parts[k]).global,
                own == exists|k: int| 0 <= k < i && !(#[trigger] self@.parts[k]).global,
            decreases self.parts@.len() - i,
        {
            assert(self@.parts[i as int].global == self.parts@[i as int].global);
            if self.parts[i].global {
                global = true;
            } else {
                own = true;
            }
            i += 1;
        }
        global && own
    }

    /// The article as prose, with at most `upto` lines of body.
    fn prose(&self, upto: usize) -> (r: String)
        ensures
            r@ == self@.prose(upto as int),
    {
        let mixed: bool = self.is_mixed();
        let mut out: Vec<String> = Vec::new();
        let mut said: bool = false;
        let mut kept: usize = 0;
        let mut cut: bool = false;
        let mut i: usize = 0;
        let ghost all = self@.parts;
        proof {
            assert(all.take(0) =~= Seq::empty());
            assert(views(out@) =~= Seq::empty());
            reveal_strlit("");
        }
        while i < self.parts.len()
            invariant
                0 <= i <= self.parts@.len(),
                all == self@.parts,
                kept <= upto,
                ""@.len() == 0,
                part_rows(all.take(i as int), mixed, upto as int) == (Rows {
                    rows: views(out@),
                    kept: kept as int,
                    said,
                    cut,
                }),
            decreases self.parts@.len() - i,
        {
            let part: &WikiPart<'a> = &self.parts[i];
            let ghost r0 = Rows { rows: views(out@), kept: kept as int, said, cut };
            let ghost mut rows = views(out@);
            if i > 0 {
                out.push(copied(""));
                proof {
                    assert(""@ =~= Seq::empty());
                    assert(views(out@) =~= rows.push(Seq::empty()));
                    rows = views(out@);
                }
            }
            if mixed && part.global && !said {
                let mut rule: String = copied("── ");
                rule.push_str(say::wiki_global().as_str());
                rule.push_str(" ──");
                out.push(rule);
                said = true;
                proof {
                    assert(views(out@) =~= rows.push(global_rule()));
                    rows = views(out@);
                }
            } else if i > 0 {
                out.push(copied("──"));
                proof {
                    assert(views(out@) =~= rows.push("──"@));
                    rows = views(out@);
                }
            }
            if part.trail.len() > 0 {
                let trail: String = join_with(part.trail, " › ");
                let ghost t = trail@;
                out.push(trail);
                assert(views(out@) =~= rows.push(t));
            }
            let ghost furnished = Rows { rows: views(out@), kept: kept as int, said, cut };
            assert(furnished =~= with_furniture(r0, part@, i as int, mixed));
            let (n, c) = push_lines(&mut out, kept, said, cut, &part.lines, upto);
            proof {
                assert(all.take(i + 1).drop_last() =~= all.take(i as int));
                assert(all.take(i + 1).last() == part@);
                assert(with_lines(furnished, part@.lines, upto as int) == (Rows {
                    rows: views(out@),
                    kept: n as int,
                    said,
                    cut: c,
                }));
            }
            kept = n;
            cut = c;
            i += 1;
        }
        assert(all.take(all.len() as int) =~= all);
        join_with(out.as_slice(), "\n")
    }
}

} // verus!

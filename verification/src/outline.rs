//! The headings of a text.

use vstd::prelude::*;
use crate::block::{Open, open_before, see_line, written_block};
use crate::buffer::{Block, Buffer, line_body, Syntax};
use crate::editor::{Editor, EditorView, Page, Side};
use crate::range::{number_of, read_number};
use crate::say;
use crate::state::Panels;
use crate::text::{chars_of, line_count, string_between, trim, trimmed};

verus! {

/// How many `c` stand at `i`.
pub open spec fn run_at(s: Seq<char>, c: char, i: int) -> int
    decreases s.len() - i,
{
    if 0 <= i < s.len() && s[i] == c {
        1 + run_at(s, c, i + 1)
    } else {
        0
    }
}

/// What a heading begins with.
pub open spec fn heading_sign(syntax: Syntax) -> Option<char> {
    match syntax {
        Syntax::Text => None,
        Syntax::Markdown => Some('#'),
        Syntax::Typst => Some('='),
    }
}

/// The level and the title of a heading: signs, a space, and the rest.
pub open spec fn heading(syntax: Syntax, line: Seq<char>) -> Option<(int, Seq<char>)> {
    match heading_sign(syntax) {
        Some(c) => {
            let n = run_at(line, c, 0);
            if 1 <= n < line.len() && line[n] == ' ' {
                Some((n, trimmed(line.skip(n))))
            } else {
                None
            }
        },
        None => None,
    }
}

/// A heading: its line, its level and its title.
pub struct HeadingView {
    pub line: int,
    pub level: int,
    pub title: Seq<char>,
}

/// The headings on the lines before `l`; a fence has none.
pub open spec fn headings(syntax: Syntax, t: Seq<char>, l: int) -> Seq<HeadingView>
    decreases l,
{
    if l <= 0 {
        Seq::empty()
    } else {
        let rest = headings(syntax, t, l - 1);
        match heading(syntax, line_body(t, l - 1)) {
            Some(h) => if written_block(syntax, t, l - 1) == Block::Prose {
                rest.push(HeadingView { line: l - 1, level: h.0, title: h.1 })
            } else {
                rest
            },
            None => rest,
        }
    }
}

/// What headings hold.
pub open spec fn heading_views(v: Seq<(usize, usize, String)>) -> Seq<HeadingView> {
    v.map_values(
        |h: (usize, usize, String)|
            HeadingView { line: h.0 as int, level: h.1 as int, title: h.2@ },
    )
}

impl EditorView {
    /// The headings of the text on the page.
    pub open spec fn outline(self) -> Seq<HeadingView> {
        headings(self.buffer().syntax, self.text(), line_count(self.text()))
    }

    /// With the headings shown beside the page; said where there are none.
    #[verifier::opaque]
    pub open spec fn showing_outline(self) -> EditorView {
        let n = self.outline().len();
        if n == 0 {
            self.saying(say::no_headings_text())
        } else {
            EditorView {
                panels: Panels { left: Some(Page::Outline), focus: None, ..self.panels },
                ..self.saying(say::outline_size_text(n))
            }
        }
    }

    /// At the `n`th heading, counted from one; said where there are fewer.
    #[verifier::opaque]
    pub open spec fn at_heading(self, n: int) -> EditorView {
        if 1 <= n <= self.outline().len() {
            self.at_line(self.outline()[n - 1].line + 1)
        } else {
            self.saying(say::no_such_heading_text(n as nat))
        }
    }
}

/// The level and the title of a heading.
fn read_heading(syntax: Syntax, line: &Vec<char>) -> (r: Option<(usize, String)>)
    ensures
        match r {
            Some((n, title)) => heading(syntax, line@) == Some((n as int, title@)),
            None => heading(syntax, line@) is None,
        },
{
    let c: char = match syntax {
        Syntax::Text => {
            return None;
        },
        Syntax::Markdown => '#',
        Syntax::Typst => '=',
    };
    let mut n: usize = 0;
    while n < line.len() && line[n] == c
        invariant
            0 <= n <= line@.len(),
            run_at(line@, c, 0) == n + run_at(line@, c, n as int),
        decreases line@.len() - n,
    {
        n += 1;
    }
    if n >= 1 && n < line.len() && line[n] == ' ' {
        let rest: String = string_between(line, n, line.len());
        assert(rest@ =~= line@.skip(n as int));
        let title: String = crate::text::copied(trim(rest.as_str()));
        Some((n, title))
    } else {
        None
    }
}

impl Editor {
    /// The headings of the text on the page: line, level and title.
    pub fn outline(&self) -> (v: Vec<(usize, usize, String)>)
        requires
            self.wf(),
        ensures
            heading_views(v@) == self@.outline(),
            forall|k: int| 0 <= k < v@.len() ==> (#[trigger] v@[k]).0 < line_count(self@.text()),
    {
        let b: &Buffer = self.current_buffer();
        let ghost t = self@.text();
        let syntax: Syntax = b.syntax;
        let n: usize = b.line_count();
        let mut v: Vec<(usize, usize, String)> = Vec::new();
        let mut open: Open = Open::Nothing;
        let mut l: usize = 0;
        assert(heading_views(v@) =~= Seq::empty());
        while l < n
            invariant
                0 <= l <= n,
                b@ == self@.buffer(),
                t == self@.text(),
                n == line_count(t),
                syntax == self@.buffer().syntax,
                open == open_before(syntax, t, l as int),
                heading_views(v@) == headings(syntax, t, l as int),
                forall|k: int| 0 <= k < v@.len() ==> (#[trigger] v@[k]).0 < n,
            decreases n - l,
        {
            let line: Vec<char> = b.line_chars(l);
            let (block, next) = see_line(syntax, open, &line);
            let ghost before = heading_views(v@);
            match read_heading(syntax, &line) {
                Some((level, title)) => {
                    if block == Block::Prose {
                        let ghost h = HeadingView {
                            line: l as int,
                            level: level as int,
                            title: title@,
                        };
                        v.push((l, level, title));
                        assert(heading_views(v@) =~= before.push(h));
                    }
                },
                None => {},
            }
            open = next;
            l += 1;
        }
        v
    }

    /// Shows the headings beside the page.
    pub fn show_outline(&mut self)
        requires
            old(self).wf(),
        ensures
            final(self).wf(),
            final(self)@ == old(self)@.showing_outline(),
    {
        proof {
            reveal(EditorView::showing_outline);
        }
        let v: Vec<(usize, usize, String)> = self.outline();
        assert(heading_views(v@).len() == v@.len());
        let n: usize = v.len();
        if n == 0 {
            self.say(say::no_headings());
        } else {
            self.status = say::outline_size(n);
            self.panels.left = Some(Page::Outline);
            self.panels.focus = None;
        }
    }

    /// Goes to the `n`th heading, counted from one.
    pub fn go_to_heading(&mut self, n: usize)
        requires
            old(self).wf(),
        ensures
            final(self).wf(),
            final(self)@ == old(self)@.at_heading(n as int),
    {
        proof {
            reveal(EditorView::at_heading);
        }
        let v: Vec<(usize, usize, String)> = self.outline();
        assert(heading_views(v@).len() == v@.len());
        if n >= 1 && n <= v.len() {
            assert(heading_views(v@)[n - 1].line == v@[n - 1].0);
            let _: usize = self.current_buffer().line_count();
            self.goto_line(v[n - 1].0 + 1);
        } else {
            self.say(say::no_such_heading(n));
        }
    }

    /// What the panel on `side` shows.
    pub fn panel(&self, side: Side) -> (r: Option<Page>)
        ensures
            r == (match side {
                Side::Left => self@.panels.left,
                Side::Right => self@.panels.right,
            }),
    {
        match side {
            Side::Left => self.panels.left,
            Side::Right => self.panels.right,
        }
    }
}

// ---- The numbers chapters are counted by ----------------------------------

/// What a character of a number stands for: a digit, or a unit.
pub enum Numeral {
    Digit(int),
    Unit(int),
    Zero,
    Other,
}

/// What a character of a number stands for.
pub open spec fn numeral(c: char) -> Numeral {
    if c == '一' {
        Numeral::Digit(1)
    } else if c == '二' {
        Numeral::Digit(2)
    } else if c == '三' {
        Numeral::Digit(3)
    } else if c == '四' {
        Numeral::Digit(4)
    } else if c == '五' {
        Numeral::Digit(5)
    } else if c == '六' {
        Numeral::Digit(6)
    } else if c == '七' {
        Numeral::Digit(7)
    } else if c == '八' {
        Numeral::Digit(8)
    } else if c == '九' {
        Numeral::Digit(9)
    } else if c == '十' {
        Numeral::Unit(10)
    } else if c == '百' {
        Numeral::Unit(100)
    } else if c == '千' {
        Numeral::Unit(1000)
    } else if c == '零' || c == '〇' {
        Numeral::Zero
    } else {
        Numeral::Other
    }
}

/// The number that the characters from `i` on add to `total`, where `digit`
/// waits for its unit and every unit is less than `least`.
pub open spec fn numbered(s: Seq<char>, i: int, total: int, digit: int, least: int) -> Option<int>
    decreases s.len() - i,
{
    if i >= s.len() {
        Some(total + digit)
    } else {
        match numeral(s[i]) {
            Numeral::Digit(d) => if digit == 0 {
                numbered(s, i + 1, total, d, least)
            } else {
                None
            },
            Numeral::Unit(u) => if u < least {
                numbered(
                    s,
                    i + 1,
                    total + (if digit == 0 {
                        1
                    } else {
                        digit
                    }) * u,
                    0,
                    u,
                )
            } else {
                None
            },
            Numeral::Zero => if digit == 0 {
                numbered(s, i + 1, total, 0, least)
            } else {
                None
            },
            Numeral::Other => None,
        }
    }
}

/// The number that is written in digits or in 漢字, up to the thousands; a unit
/// with nothing before it is one of it.
pub open spec fn chapter_number(s: Seq<char>) -> Option<int> {
    match number_of(s) {
        Some(n) => Some(n as int),
        None => if s.len() == 0 {
            None
        } else {
            numbered(s, 0, 0, 0, 10000)
        },
    }
}

/// The digit that a character stands for.
fn digit_value_of(c: char) -> (d: usize)
    ensures
        d <= 9,
        numeral(c) is Digit <==> d > 0,
        d > 0 ==> numeral(c) == Numeral::Digit(d as int),
{
    if c == '一' {
        1
    } else if c == '二' {
        2
    } else if c == '三' {
        3
    } else if c == '四' {
        4
    } else if c == '五' {
        5
    } else if c == '六' {
        6
    } else if c == '七' {
        7
    } else if c == '八' {
        8
    } else if c == '九' {
        9
    } else {
        0
    }
}

/// The unit that a character stands for.
fn unit_value_of(c: char) -> (u: usize)
    ensures
        u == 0 || u == 10 || u == 100 || u == 1000,
        numeral(c) is Unit <==> u > 0,
        u > 0 ==> numeral(c) == Numeral::Unit(u as int),
{
    if c == '十' {
        10
    } else if c == '百' {
        100
    } else if c == '千' {
        1000
    } else {
        0
    }
}

/// The number that is written in digits or in 漢字.
pub fn chinese_number(s: &str) -> (r: Option<usize>)
    ensures
        match r {
            Some(n) => chapter_number(s@) == Some(n as int),
            None => chapter_number(s@) is None,
        },
{
    match read_number(s) {
        Some(n) => {
            return Some(n);
        },
        None => {},
    }
    let v: Vec<char> = chars_of(s);
    if v.len() == 0 {
        return None;
    }
    let mut total: usize = 0;
    let mut waiting: usize = 0;
    let mut least: usize = 10000;
    let mut i: usize = 0;
    while i < v.len()
        invariant
            0 <= i <= v@.len(),
            v@ == s@,
            number_of(s@) is None,
            s@.len() > 0,
            waiting <= 9,
            least == 10000 || least == 1000 || least == 100 || least == 10,
            least == 10000 ==> total == 0,
            least == 1000 ==> total <= 9000,
            least == 100 ==> total <= 9900,
            least == 10 ==> total <= 9990,
            numbered(s@, 0, 0, 0, 10000) == numbered(
                s@,
                i as int,
                total as int,
                waiting as int,
                least as int,
            ),
        decreases v@.len() - i,
    {
        let c: char = v[i];
        let d: usize = digit_value_of(c);
        let u: usize = unit_value_of(c);
        if d > 0 {
            if waiting != 0 {
                return None;
            }
            waiting = d;
        } else if u > 0 {
            if u >= least {
                return None;
            }
            let times: usize = if waiting == 0 {
                1
            } else {
                waiting
            };
            assert(times * u <= 9 * u) by (nonlinear_arith)
                requires
                    times <= 9,
            ;
            total = total + times * u;
            waiting = 0;
            least = u;
        } else if c == '零' || c == '〇' {
            if waiting != 0 {
                return None;
            }
        } else {
            return None;
        }
        i += 1;
    }
    Some(total + waiting)
}

} // verus!

//! The editor's side of the wiki: the entry under the cursor, and the names on
//! the page.

use vstd::prelude::*;
use crate::article::{Article, ArticleLine, ArticlePart, line_views, WikiLine, WikiPart, WikiView};
use crate::buffer::{Block, Buffer, BufferView, line_body, LineReading, LineView, Syntax};
use crate::block::{Open, open_before, see_line, written_block};
use crate::conflict::{Conflict, conflict_over, Side};
use crate::editor::{Editor, EditorView, least, lemma_buffer_update, Mode};
use crate::rope::rope_line_to_char;
use crate::state::Render;
use crate::text::{
    chars_of, lemma_line_around, line_count, line_start, string_between, trim, trim_start, trimmed,
    trimmed_start,
};
use crate::wiki::{Entry, EntryView, Mark, Wiki, WikiData};

verus! {

// ---- The entry under the cursor -------------------------------------------

/// How many number signs stand at `i`.
pub open spec fn hashes_at(s: Seq<char>, i: int) -> int
    decreases s.len() - i,
{
    if i < s.len() && s[i] == '#' {
        1 + hashes_at(s, i + 1)
    } else {
        0
    }
}

/// A line of the body of an entry whose heading has `depth` number signs: a
/// deeper heading is levelled to the entry.
pub open spec fn line_in_entry(depth: int, text: Seq<char>) -> ArticleLine {
    let s = trimmed_start(text);
    let d = hashes_at(s, 0);
    if d > depth && d < s.len() && s[d] == ' ' {
        ArticleLine::Heading(d - depth + 1, trimmed(s.skip(d)))
    } else {
        ArticleLine::Text(text)
    }
}

/// An entry laid out to be read.
pub open spec fn part_of(entry: EntryView) -> ArticlePart {
    ArticlePart {
        global: entry.global,
        trail: entry.ancestors,
        lines: entry.body.map_values(|text: Seq<char>| line_in_entry(entry.depth, text)),
        source: entry.source,
        line: entry.line,
    }
}

/// The first word at or after `k` that covers `at`, or how many there are.
pub open spec fn word_from(cuts: Seq<(usize, usize)>, at: int, k: int) -> int
    decreases cuts.len() - k,
{
    if k >= cuts.len() {
        cuts.len() as int
    } else if cuts[k].0 <= at < cuts[k].1 {
        k
    } else {
        word_from(cuts, at, k + 1)
    }
}

/// The characters of a word on a line.
pub open spec fn word_text(chars: Seq<char>, word: (usize, usize)) -> Seq<char> {
    chars.subrange(word.0 as int, least(word.1 as int, chars.len() as int))
}

impl EditorView {
    /// The block that line `l` belongs to.
    pub open spec fn block_of(self, l: int) -> Block {
        let k = conflict_over(self.conflicts(), l, 0);
        if k < self.conflicts().len() {
            Block::Conflict(self.conflicts()[k].side_of(l))
        } else {
            written_block(self.buffer().syntax, self.text(), l)
        }
    }

    /// The words that line `l` was cut into.
    pub open spec fn words_of(self, l: int) -> Seq<(usize, usize)> {
        let reading = self.buffer().reading;
        if l < reading.len() {
            reading[l].cuts
        } else {
            Seq::empty()
        }
    }

    /// Whether line `l` quotes rather than says: a fence or a comment.
    pub open spec fn quotes(self, l: int) -> bool {
        self.block_of(l).literal() || self.block_of(l) == Block::Comment
    }

    /// The word under the cursor, where it is longer than one character.
    pub open spec fn word_here(self) -> Option<Seq<char>> {
        let l = self.cursor_line();
        let cuts = self.words_of(l);
        let k = word_from(cuts, self.cursor - line_start(self.text(), l), 0);
        if k < cuts.len() && cuts[k].1 - cuts[k].0 >= 2 {
            Some(word_text(line_body(self.text(), l), cuts[k]))
        } else {
            None
        }
    }

    /// The entries of the word under the cursor.
    pub open spec fn article_here(self) -> Option<Article> {
        if self.wiki.by_name.len() == 0 || self.mode == Mode::Insert || self.quotes(
            self.cursor_line(),
        ) {
            None
        } else {
            match self.word_here() {
                Some(name) => if self.wiki.knows(name) {
                    Some(
                        Article {
                            name,
                            parts: self.wiki.by_name[self.wiki.find(name)].1.map_values(
                                |i: usize| part_of(self.wiki.entries[i as int]),
                            ),
                        },
                    )
                } else {
                    None
                },
                None => None,
            }
        }
    }
}

/// A line of the body of an entry whose heading has `depth` number signs.
fn read_line<'a>(depth: usize, text: &'a str) -> (line: WikiLine<'a>)
    ensures
        line@ == line_in_entry(depth as int, text@),
{
    let s: &'a str = trim_start(text);
    let chars: Vec<char> = chars_of(s);
    let mut d: usize = 0;
    while d < chars.len() && chars[d] == '#'
        invariant
            0 <= d <= chars@.len(),
            chars@ == s@,
            hashes_at(s@, 0) == d + hashes_at(s@, d as int),
        decreases chars@.len() - d,
    {
        d += 1;
    }
    if d > depth && d < chars.len() && chars[d] == ' ' {
        let rest: &'a str = s.substring_char(d, chars.len());
        assert(rest@ =~= s@.skip(d as int));
        WikiLine::Heading(d - depth + 1, trim(rest))
    } else {
        WikiLine::Text(text)
    }
}

/// An entry laid out to be read.
fn read_entry<'a>(entry: &'a Entry) -> (part: WikiPart<'a>)
    ensures
        part@ == part_of(entry@),
{
    let mut lines: Vec<WikiLine<'a>> = Vec::new();
    let ghost want = part_of(entry@).lines;
    let mut i: usize = 0;
    while i < entry.body.len()
        invariant
            0 <= i <= entry.body@.len(),
            want == part_of(entry@).lines,
            line_views(lines@) == want.take(i as int),
        decreases entry.body@.len() - i,
    {
        let ghost before = line_views(lines@);
        let line: WikiLine<'a> = read_line(entry.depth, entry.body[i].as_str());
        lines.push(line);
        assert(line_views(lines@) =~= before.push(line@));
        assert(entry@.body[i as int] == entry.body@[i as int]@);
        assert(want.take(i + 1) =~= before.push(want[i as int]));
        i += 1;
    }
    assert(want.take(want.len() as int) =~= want);
    WikiPart {
        global: entry.global,
        trail: entry.ancestors.as_slice(),
        lines,
        source: &entry.source,
        line: entry.line,
    }
}

impl Editor {
    /// The block that line `l` belongs to.
    pub fn block_of(&self, l: usize) -> (b: Block)
        requires
            self.wf(),
        ensures
            b == self@.block_of(l as int),
    {
        match self.find_conflict_over(l) {
            Some(c) => Block::Conflict(
                if c.head < l && l < c.middle {
                    Some(Side::Ours)
                } else if c.middle < l && l < c.foot {
                    Some(Side::Theirs)
                } else {
                    None
                },
            ),
            None => self.current_buffer().written_block(l),
        }
    }

    /// Which lines quote rather than say.
    pub(crate) fn quoting_lines(&self) -> (v: Vec<bool>)
        requires
            self.wf(),
        ensures
            v@.len() == line_count(self@.text()),
            forall|l: int| 0 <= l < v@.len() ==> (#[trigger] v@[l]) == self@.quotes(l),
    {
        let b: &Buffer = self.current_buffer();
        let ghost t = self@.text();
        let syntax: Syntax = b.syntax;
        let n: usize = b.line_count();
        let conflicts: Vec<Conflict> = b.find_conflicts();
        let mut v: Vec<bool> = Vec::new();
        let mut open: Open = Open::Nothing;
        let mut l: usize = 0;
        while l < n
            invariant
                0 <= l <= n,
                b@ == self@.buffer(),
                t == self@.text(),
                n == line_count(t),
                syntax == self@.buffer().syntax,
                conflicts@ == self@.conflicts(),
                open == open_before(syntax, t, l as int),
                v@.len() == l,
                forall|k: int| 0 <= k < l ==> (#[trigger] v@[k]) == self@.quotes(k),
            decreases n - l,
        {
            let line: Vec<char> = b.line_chars(l);
            let (block, next) = see_line(syntax, open, &line);
            let mut k: usize = 0;
            while k < conflicts.len() && !(conflicts[k].head <= l && l <= conflicts[k].foot)
                invariant
                    0 <= k <= conflicts@.len(),
                    conflict_over(conflicts@, l as int, 0) == conflict_over(
                        conflicts@,
                        l as int,
                        k as int,
                    ),
                decreases conflicts@.len() - k,
            {
                k += 1;
            }
            v.push(k == conflicts.len() && (block == Block::Literal || block == Block::Comment));
            open = next;
            l += 1;
        }
        v
    }

    /// The words that line `l` was cut into.
    pub fn segment_line(&self, l: usize) -> (words: Vec<(usize, usize)>)
        requires
            self.wf(),
        ensures
            words@ == self@.words_of(l as int),
    {
        let buffer: &Buffer = self.current_buffer();
        let mut words: Vec<(usize, usize)> = Vec::new();
        if l < buffer.reading.len() {
            let cuts: &Vec<(usize, usize)> = &buffer.reading[l].cuts;
            assert(self@.buffer().reading[l as int] == buffer.reading@[l as int]@);
            let mut i: usize = 0;
            while i < cuts.len()
                invariant
                    0 <= i <= cuts@.len(),
                    words@ == cuts@.take(i as int),
                decreases cuts@.len() - i,
            {
                words.push(cuts[i]);
                i += 1;
            }
            assert(cuts@.take(cuts@.len() as int) =~= cuts@);
        }
        words
    }

    /// Whether line `l` quotes rather than says.
    pub(crate) fn line_is_literal(&self, l: usize) -> (r: bool)
        requires
            self.wf(),
        ensures
            r == self@.quotes(l as int),
    {
        let block: Block = self.block_of(l);
        block.is_literal() || block == Block::Comment
    }

    /// The entries of the word under the cursor, where it is the name of any.
    pub fn wiki_here(&self) -> (r: Option<WikiView<'_>>)
        requires
            self.wf(),
        ensures
            match r {
                Some(article) => self@.article_here() == Some(article@),
                None => self@.article_here() is None,
            },
    {
        if self.wiki.by_name.len() == 0 || self.mode == Mode::Insert {
            return None;
        }
        let l: usize = self.cursor_line();
        if self.line_is_literal(l) {
            return None;
        }
        let ghost t = self@.text();
        proof {
            lemma_line_around(t, self@.cursor);
        }
        let at: usize = self.cursor - rope_line_to_char(self.rope(), l);
        let chars: Vec<char> = self.current_buffer().line_chars(l);
        let cuts: Vec<(usize, usize)> = self.segment_line(l);
        let mut k: usize = 0;
        while k < cuts.len() && !(cuts[k].0 <= at && at < cuts[k].1)
            invariant
                0 <= k <= cuts@.len(),
                word_from(cuts@, at as int, 0) == word_from(cuts@, at as int, k as int),
            decreases cuts@.len() - k,
        {
            k += 1;
        }
        if k >= cuts.len() {
            return None;
        }
        let (a, b) = cuts[k];
        assert(self@.buffer().wf());
        assert(self@.buffer().reading[l as int].cuts[k as int] == cuts@[k as int]);
        if b - a < 2 {
            return None;
        }
        let end: usize = if b <= chars.len() {
            b
        } else {
            chars.len()
        };
        let name: String = string_between(&chars, a, end);
        let found: usize = self.wiki.find(name.as_str());
        if found >= self.wiki.by_name.len() {
            return None;
        }
        let of: &Vec<usize> = &self.wiki.by_name[found].1;
        let ghost want = self@.article_here()->0.parts;
        proof {
            assert(self@.wiki.by_name[found as int].1 == of@);
            assert(self@.article_here() is Some);
        }
        let mut parts: Vec<WikiPart<'_>> = Vec::new();
        let mut i: usize = 0;
        while i < of.len()
            invariant
                0 <= i <= of@.len(),
                self.wf(),
                found < self.wiki.by_name@.len(),
                *of == self.wiki.by_name@[found as int].1,
                of@ == self@.wiki.by_name[found as int].1,
                want == of@.map_values(|i: usize| part_of(self@.wiki.entries[i as int])),
                parts@.map_values(|p: WikiPart<'_>| p@) == want.take(i as int),
            decreases of@.len() - i,
        {
            let ghost before = parts@.map_values(|p: WikiPart<'_>| p@);
            assert(self@.wiki.by_name[found as int].1[i as int] < self@.wiki.entries.len());
            let part: WikiPart<'_> = read_entry(&self.wiki.entries[of[i]]);
            parts.push(part);
            assert(parts@.map_values(|p: WikiPart<'_>| p@) =~= before.push(part@));
            assert(want.take(i + 1) =~= before.push(want[i as int]));
            i += 1;
        }
        assert(want.take(want.len() as int) =~= want);
        Some(WikiView { name, parts })
    }
}

// ---- The names on the page ------------------------------------------------

/// Whether a word of a line is the name of an entry. One character never is.
pub open spec fn is_name(wiki: WikiData, chars: Seq<char>, word: (usize, usize)) -> bool {
    word.1 - word.0 >= 2 && wiki.knows(word_text(chars, word))
}

/// The words of a line that are names.
pub open spec fn names_among(
    wiki: WikiData,
    chars: Seq<char>,
    cuts: Seq<(usize, usize)>,
) -> Seq<(usize, usize)>
    decreases cuts.len(),
{
    if cuts.len() == 0 {
        Seq::empty()
    } else {
        let rest = names_among(wiki, chars, cuts.drop_last());
        if is_name(wiki, chars, cuts.last()) {
            rest.push(cuts.last())
        } else {
            rest
        }
    }
}

impl EditorView {
    /// Where on line `l` names are.
    pub open spec fn names_on_line(self, l: int) -> Seq<(usize, usize)> {
        if self.quotes(l) {
            Seq::empty()
        } else {
            names_among(self.wiki, line_body(self.text(), l), self.words_of(l))
        }
    }

    /// Whether names are marked on the page at all.
    pub open spec fn marks_visible(self) -> bool {
        self.settings.wiki_mark != Mark::Off && self.wiki.by_name.len() > 0 && self.settings.render
            != Render::Off
    }

    /// Where on line `l` names are marked on the page.
    pub open spec fn marks_on_line(self, l: int) -> Seq<(usize, usize)> {
        if self.marks_visible() {
            self.names_on_line(l)
        } else {
            Seq::empty()
        }
    }
}

impl Editor {
    /// How names are marked on the page.
    pub fn wiki_mark(&self) -> (m: Mark)
        ensures
            m == self@.settings.wiki_mark,
    {
        self.settings.wiki_mark
    }

    /// Whether names are marked on the page at all.
    pub fn wiki_marks_visible(&self) -> (r: bool)
        ensures
            r == self@.marks_visible(),
    {
        self.settings.wiki_mark != Mark::Off && self.wiki.by_name.len() > 0 && self.settings.render
            != Render::Off
    }

    /// Where on line `l` names are marked.
    pub fn wiki_marks_on_line(&self, l: usize) -> (r: Vec<(usize, usize)>)
        requires
            self.wf(),
            l < line_count(self@.text()),
        ensures
            r@ == (if self@.marks_visible() {
                self@.names_on_line(l as int)
            } else {
                Seq::empty()
            }),
            r@ == self@.marks_on_line(l as int),
    {
        if self.wiki_marks_visible() {
            self.wiki_names_on_line(l)
        } else {
            Vec::new()
        }
    }

    /// Where on line `l` names are, marked or not.
    pub(crate) fn wiki_names_on_line(&self, l: usize) -> (r: Vec<(usize, usize)>)
        requires
            self.wf(),
            l < line_count(self@.text()),
        ensures
            r@ == self@.names_on_line(l as int),
    {
        if self.line_is_literal(l) {
            return Vec::new();
        }
        self.names_in_prose(l)
    }

    /// Where on line `l` names are, where it does not quote.
    pub(crate) fn names_in_prose(&self, l: usize) -> (r: Vec<(usize, usize)>)
        requires
            self.wf(),
            l < line_count(self@.text()),
            !self@.quotes(l as int),
        ensures
            r@ == self@.names_on_line(l as int),
    {
        let chars: Vec<char> = self.current_buffer().line_chars(l);
        let cuts: Vec<(usize, usize)> = self.segment_line(l);
        let mut r: Vec<(usize, usize)> = Vec::new();
        let mut i: usize = 0;
        assert(cuts@.take(0) =~= Seq::empty());
        while i < cuts.len()
            invariant
                0 <= i <= cuts@.len(),
                self.wf(),
                chars@ == line_body(self@.text(), l as int),
                cuts@ == self@.words_of(l as int),
                r@ == names_among(self@.wiki, chars@, cuts@.take(i as int)),
            decreases cuts@.len() - i,
        {
            let (a, b) = cuts[i];
            proof {
                assert(cuts@.take(i + 1).drop_last() =~= cuts@.take(i as int));
                assert(self@.buffer().wf());
                assert(self@.buffer().reading[l as int].cuts[i as int] == cuts@[i as int]);
            }
            if b - a >= 2 {
                let end: usize = if b <= chars.len() {
                    b
                } else {
                    chars.len()
                };
                let word: String = string_between(&chars, a, end);
                if self.wiki.knows(word.as_str()) {
                    r.push((a, b));
                }
            }
            i += 1;
        }
        assert(cuts@.take(cuts@.len() as int) =~= cuts@);
        r
    }
}

// ---- What was read outside ------------------------------------------------

impl Editor {
    /// Takes the wiki that was read, unless it does not hold together.
    pub fn take_wiki(&mut self, wiki: Wiki) -> (taken: bool)
        requires
            old(self).wf(),
        ensures
            final(self).wf(),
            taken == wiki@.wf(),
            final(self)@ == (if taken {
                EditorView { wiki: wiki@, ..old(self)@ }
            } else {
                old(self)@
            }),
    {
        if wiki.is_sound() {
            self.wiki = wiki;
            true
        } else {
            false
        }
    }

    /// Takes the words that the lines on the page were cut into, unless they are
    /// not words of these lines.
    pub fn take_reading(&mut self, reading: Vec<LineReading>) -> (taken: bool)
        requires
            old(self).wf(),
        ensures
            final(self).wf(),
            taken == are_words_of(old(self)@.text(), reading_views(reading@)),
            final(self)@ == (if taken {
                old(self)@.with_buffer(
                    BufferView { reading: reading_views(reading@), ..old(self)@.buffer() },
                )
            } else {
                old(self)@
            }),
    {
        if !fit(self.current_buffer(), &reading) {
            return false;
        }
        let i: usize = self.active;
        let ghost before = self.buffers@;
        self.buffers[i].reading = reading;
        proof {
            lemma_buffer_update(before, self.buffers@, i as int);
            let b = BufferView { reading: reading_views(reading@), ..old(self)@.buffer() };
            assert(b.wf());
            assert forall|k: int| 0 <= k < self@.buffers.len() implies (
            #[trigger] self@.buffers[k]).wf() by {
                assert(k != i ==> self@.buffers[k] == old(self)@.buffers[k]);
            }
        }
        true
    }
}

/// What was read of lines.
pub open spec fn reading_views(v: Seq<LineReading>) -> Seq<LineView> {
    v.map_values(|r: LineReading| r@)
}

/// Whether every word is a range that begins on its line, and there are no more
/// lines than the text has.
pub open spec fn are_words_of(t: Seq<char>, reading: Seq<LineView>) -> bool {
    &&& reading.len() <= line_count(t)
    &&& forall|l: int, k: int|
        0 <= l < reading.len() && 0 <= k < reading[l].cuts.len() ==> (
        #[trigger] reading[l].cuts[k]).0 <= reading[l].cuts[k].1 && reading[l].cuts[k].0
            <= line_body(t, l).len()
}

/// Whether every word is a range that begins on its line.
fn fit(b: &Buffer, reading: &Vec<LineReading>) -> (r: bool)
    ensures
        r == are_words_of(b@.text, reading_views(reading@)),
{
    let ghost all = reading_views(reading@);
    let ghost t = b@.text;
    let n: usize = reading.len();
    if n > b.line_count() {
        return false;
    }
    let mut l: usize = 0;
    while l < n
        invariant
            0 <= l <= n <= line_count(t),
            n == reading@.len(),
            t == b@.text,
            all == reading_views(reading@),
            forall|m: int, k: int|
                0 <= m < l && 0 <= k < all[m].cuts.len() ==> (#[trigger] all[m].cuts[k]).0
                    <= all[m].cuts[k].1 && all[m].cuts[k].0 <= line_body(t, m).len(),
        decreases n - l,
    {
        let line: Vec<char> = b.line_chars(l);
        let cuts: &Vec<(usize, usize)> = &reading[l].cuts;
        assert(all[l as int].cuts == cuts@);
        let mut k: usize = 0;
        while k < cuts.len()
            invariant
                0 <= k <= cuts@.len(),
                0 <= l < n,
                n == all.len(),
                t == b@.text,
                all == reading_views(reading@),
                all[l as int].cuts == cuts@,
                line@ == line_body(t, l as int),
                forall|j: int|
                    0 <= j < k ==> (#[trigger] all[l as int].cuts[j]).0 <= all[l as int].cuts[j].1
                        && all[l as int].cuts[j].0 <= line@.len(),
            decreases cuts@.len() - k,
        {
            let (a, z) = cuts[k];
            assert(all[l as int].cuts[k as int] == cuts@[k as int]);
            if a > z || a > line.len() {
                assert(!are_words_of(t, all));
                return false;
            }
            k += 1;
        }
        l += 1;
    }
    true
}

} // verus!

//! What the wiki is for: what stands in the files, told where its names stand in
//! the text.

use vstd::prelude::*;
use crate::article::{
    after_breaks, Article, ArticleLine, ArticlePart, global_rule, part_rows, Rows, with_furniture,
    with_lines,
};
use crate::block::{
    after_blank, comment_head, comment_tail, Open, open_before, stands, written_block,
};
use crate::buffer::{Block, line_body, Syntax};
use crate::conflict::{Conflict, conflict_over};
use crate::editor::{EditorView, Mode, most, Page};
use crate::laws::{
    counting, counting_in, law_the_first_lines_of_body_are_kept,
    law_the_lede_and_the_body_are_the_article, rows_of, shown,
};
use crate::lookup::{hashes_at, is_name, names_among, part_of, word_from};
use crate::missed::{before_from, comes_before, missed_in_line, unmarked_at};
use crate::state::Render;
use crate::text::{
    after_space, before_space, is_space, joined_with, line_count, line_of, line_start, next_stand,
    trimmed, trimmed_start,
};
use crate::wiki::{lemma_name_from, Mark, WikiData};

verus! {

// ---- White space ----------------------------------------------------------

/// Whether all of it is white space.
pub open spec fn is_all_space(s: Seq<char>) -> bool {
    forall|k: int| 0 <= k < s.len() ==> is_space(#[trigger] s[k])
}

/// Whether `x` is `s` without the white space at its ends.
pub open spec fn is_trimmed(s: Seq<char>, x: Seq<char>) -> bool {
    exists|a: int, b: int|
        0 <= a <= b <= s.len() && x == #[trigger] s.subrange(a, b) && is_all_space(s.take(a))
            && is_all_space(s.skip(b)) && (a < b ==> !is_space(s[a]) && !is_space(s[b - 1]))
}

proof fn lemma_after_space(s: Seq<char>, i: int)
    requires
        0 <= i <= s.len(),
    ensures
        i <= after_space(s, i) <= s.len(),
        forall|k: int| i <= k < after_space(s, i) ==> is_space(#[trigger] s[k]),
        after_space(s, i) < s.len() ==> !is_space(s[after_space(s, i)]),
    decreases s.len() - i,
{
    if i < s.len() && is_space(s[i]) {
        lemma_after_space(s, i + 1);
    }
}

proof fn lemma_before_space(s: Seq<char>, i: int, j: int)
    requires
        0 <= i <= j <= s.len(),
    ensures
        i <= before_space(s, i, j) <= j,
        forall|k: int| before_space(s, i, j) <= k < j ==> is_space(#[trigger] s[k]),
        before_space(s, i, j) > i ==> !is_space(s[before_space(s, i, j) - 1]),
    decreases j - i,
{
    if j > i && is_space(s[j - 1]) {
        lemma_before_space(s, i, j - 1);
    }
}

/// Trimming takes the white space at the ends off, and nothing else.
pub proof fn law_trimming_takes_the_ends_off(s: Seq<char>)
    ensures
        is_trimmed(s, trimmed(s)),
{
    let a = after_space(s, 0);
    let b = before_space(s, a, s.len() as int);
    lemma_after_space(s, 0);
    lemma_before_space(s, a, s.len() as int);
    assert(is_all_space(s.take(a)));
    assert(is_all_space(s.skip(b)));
    if a < b {
        assert(!is_space(s[a]));
    }
    assert(trimmed(s) == s.subrange(a, b));
}

/// Where white space ends that is known to.
pub proof fn lemma_space_ends(s: Seq<char>, i: int, n: int)
    requires
        0 <= i <= n <= s.len(),
        forall|k: int| i <= k < n ==> is_space(#[trigger] s[k]),
        n < s.len() ==> !is_space(s[n]),
    ensures
        after_space(s, i) == n,
    decreases n - i,
{
    if i < n {
        assert(is_space(s[i]));
        lemma_space_ends(s, i + 1, n);
    }
}

proof fn lemma_hashes_end(s: Seq<char>, i: int, n: int)
    requires
        0 <= i <= n <= s.len(),
        forall|k: int| i <= k < n ==> s[k] == '#',
        n < s.len() ==> s[n] != '#',
    ensures
        hashes_at(s, i) == n - i,
    decreases n - i,
{
    if i < n {
        lemma_hashes_end(s, i + 1, n);
    }
}

// ---- The entry under the cursor -------------------------------------------

/// Whether the word at `k` among `cuts` is the one over the column `col`: the
/// first that begins at it or before it and ends behind it.
pub open spec fn is_word_at(cuts: Seq<(usize, usize)>, col: int, k: int) -> bool {
    &&& 0 <= k < cuts.len()
    &&& cuts[k].0 <= col < cuts[k].1
    &&& forall|j: int| 0 <= j < k ==> !((#[trigger] cuts[j]).0 <= col && col < cuts[j].1)
}

proof fn lemma_word_at(cuts: Seq<(usize, usize)>, col: int, i: int, k: int)
    requires
        0 <= i <= k,
        is_word_at(cuts, col, k),
    ensures
        word_from(cuts, col, i) == k,
    decreases k - i,
{
    if i < k {
        assert(!(cuts[i].0 <= col && col < cuts[i].1));
        lemma_word_at(cuts, col, i + 1, k);
    }
}

proof fn lemma_no_word_at(cuts: Seq<(usize, usize)>, col: int, i: int)
    requires
        0 <= i <= cuts.len(),
        forall|j: int|
            i <= j < cuts.len() ==> !((#[trigger] cuts[j]).0 <= col && col < cuts[j].1),
    ensures
        word_from(cuts, col, i) == cuts.len(),
    decreases cuts.len() - i,
{
    if i < cuts.len() {
        lemma_no_word_at(cuts, col, i + 1);
    }
}

/// The characters of a word, as far as its line goes.
pub open spec fn letters(chars: Seq<char>, word: (usize, usize)) -> Seq<char> {
    chars.subrange(
        word.0 as int,
        if word.1 < chars.len() {
            word.1 as int
        } else {
            chars.len() as int
        },
    )
}

/// Whether some name of the wiki is `name`.
pub open spec fn has_name(wiki: WikiData, name: Seq<char>) -> bool {
    exists|q: int| 0 <= q < wiki.by_name.len() && (#[trigger] wiki.by_name[q]).0 == name
}

proof fn lemma_knows(wiki: WikiData, name: Seq<char>)
    ensures
        wiki.knows(name) == has_name(wiki, name),
{
    lemma_name_from(wiki.by_name, name, 0);
    let k = wiki.find(name);
    if k < wiki.by_name.len() {
        assert(wiki.by_name[k].0 == name);
    }
}

/// A name that stands once is found where it stands.
pub proof fn lemma_found(wiki: WikiData, name: Seq<char>, q: int)
    requires
        wiki.wf(),
        0 <= q < wiki.by_name.len(),
        wiki.by_name[q].0 == name,
    ensures
        wiki.find(name) == q,
{
    lemma_name_from(wiki.by_name, name, 0);
    let k = wiki.find(name);
    if k < q {
        assert(wiki.by_name[k].0 != wiki.by_name[q].0);
    }
    if k > q {
        assert(wiki.by_name[q].0 != name);
    }
}

/// The entry under the cursor is that of the word that its line was cut into
/// there: a word of two characters or more that is a name of the wiki, on a line
/// that does not quote, while nothing is being typed. It has every entry of the
/// name, in their order, each with what the file says of it.
pub proof fn law_the_entry_is_of_the_word_under_the_cursor(v: EditorView, k: int, q: int)
    requires
        v.wf(),
        ({
            let l = line_of(v.text(), v.cursor);
            &&& l < v.buffer().reading.len()
            &&& is_word_at(
                v.buffer().reading[l].cuts,
                v.cursor - line_start(v.text(), l),
                k,
            )
        }),
        0 <= q < v.wiki.by_name.len(),
        v.mode != Mode::Insert,
        !v.quotes(line_of(v.text(), v.cursor)),
    ensures
        ({
            let l = line_of(v.text(), v.cursor);
            let word = v.buffer().reading[l].cuts[k];
            let name = letters(line_body(v.text(), l), word);
            let found = v.wiki.by_name[q].1;
            if word.1 - word.0 >= 2 && v.wiki.by_name[q].0 == name {
                v.article_here() matches Some(a) && a.name == name && a.parts.len() == found.len()
                    && forall|i: int|
                    #![trigger a.parts[i]]
                    0 <= i < found.len() ==> {
                        let entry = v.wiki.entries[found[i] as int];
                        &&& a.parts[i].global == entry.global
                        &&& a.parts[i].trail == entry.ancestors
                        &&& a.parts[i].source == entry.source
                        &&& a.parts[i].line == entry.line
                        &&& a.parts[i].lines.len() == entry.body.len()
                    }
            } else {
                word.1 - word.0 < 2 || !has_name(v.wiki, name) ==> v.article_here() is None
            }
        }),
{
    let l = line_of(v.text(), v.cursor);
    let cuts = v.buffer().reading[l].cuts;
    lemma_word_at(cuts, v.cursor - line_start(v.text(), l), 0, k);
    let name = letters(line_body(v.text(), l), cuts[k]);
    lemma_knows(v.wiki, name);
    if v.wiki.by_name[q].0 == name {
        lemma_found(v.wiki, name, q);
    }
}

/// Nothing is told while something is being typed, on a line that quotes, where
/// the line was cut into no word at the cursor, or without a wiki.
pub proof fn law_where_no_entry_is_told(v: EditorView)
    requires
        v.wf(),
    ensures
        v.mode == Mode::Insert ==> v.article_here() is None,
        v.quotes(line_of(v.text(), v.cursor)) ==> v.article_here() is None,
        v.wiki.by_name.len() == 0 ==> v.article_here() is None,
        line_of(v.text(), v.cursor) >= v.buffer().reading.len() ==> v.article_here() is None,
        ({
            let l = line_of(v.text(), v.cursor);
            let col = v.cursor - line_start(v.text(), l);
            l < v.buffer().reading.len() && (forall|j: int|
                0 <= j < v.buffer().reading[l].cuts.len() ==> !((
                #[trigger] v.buffer().reading[l].cuts[j]).0 <= col && col
                    < v.buffer().reading[l].cuts[j].1)) ==> v.article_here() is None
        }),
{
    let l = line_of(v.text(), v.cursor);
    let col = v.cursor - line_start(v.text(), l);
    if 0 <= l < v.buffer().reading.len() {
        let cuts = v.buffer().reading[l].cuts;
        if forall|j: int|
            0 <= j < cuts.len() ==> !((#[trigger] cuts[j]).0 <= col && col < cuts[j].1) {
            lemma_no_word_at(cuts, col, 0);
        }
    }
    crate::text::lemma_line_around(v.text(), v.cursor);
}

/// A heading in the body of an entry, `k` number signs and a space, is told at
/// its depth within the entry: one level under the entry is the second, and each
/// sign more is a level more. What is not deeper than the entry, or has no space
/// behind its signs, is a line of text, told as it is written.
pub proof fn law_headings_are_told_at_their_depth_in_the_entry(
    v: EditorView,
    q: int,
    p: int,
    i: int,
    blank: Seq<char>,
    k: nat,
    rest: Seq<char>,
)
    requires
        v.wf(),
        v.article_here() is Some,
        0 <= q < v.wiki.by_name.len(),
        v.wiki.by_name[q].0 == (v.article_here()->0).name,
        0 <= p < v.wiki.by_name[q].1.len(),
        ({
            let entry = v.wiki.entries[v.wiki.by_name[q].1[p] as int];
            &&& 0 <= i < entry.body.len()
            &&& entry.body[i] == blank + Seq::new(k, |j: int| '#') + rest
        }),
        is_all_space(blank),
        rest.len() > 0 ==> rest[0] != '#',
        k == 0 && rest.len() > 0 ==> !is_space(rest[0]),
    ensures
        ({
            let entry = v.wiki.entries[v.wiki.by_name[q].1[p] as int];
            let told = (v.article_here()->0).parts[p].lines[i];
            if k > entry.depth && rest.len() > 0 && rest[0] == ' ' {
                told matches ArticleLine::Heading(level, title) && level == k - entry.depth + 1
                    && is_trimmed(rest, title)
            } else {
                told == ArticleLine::Text(entry.body[i])
            }
        }),
{
    let a = v.article_here()->0;
    lemma_found(v.wiki, a.name, q);
    let entry = v.wiki.entries[v.wiki.by_name[q].1[p] as int];
    assert(a.parts[p] == part_of(entry));
    let text = entry.body[i];
    let signs = Seq::new(k, |j: int| '#');
    let n = blank.len() as int;
    assert forall|j: int| 0 <= j < n implies is_space(#[trigger] text[j]) by {
        assert(text[j] == blank[j]);
    }
    if n < text.len() {
        if k > 0 {
            assert(text[n] == signs[0]);
        } else {
            assert(text[n] == rest[0]);
        }
    }
    lemma_space_ends(text, 0, n);
    let s = trimmed_start(text);
    assert(s =~= signs + rest);
    assert(k < s.len() ==> s[k as int] == rest[0]);
    lemma_hashes_end(s, 0, k as int);
    assert(s.skip(k as int) =~= rest);
    law_trimming_takes_the_ends_off(rest);
}

/// Two headings of an entry are as many levels apart as they are in the file.
pub proof fn law_headings_keep_their_distance(
    v: EditorView,
    q: int,
    p: int,
    i: int,
    j: int,
    k: nat,
    m: nat,
    one: Seq<char>,
    other: Seq<char>,
)
    requires
        v.wf(),
        v.article_here() is Some,
        0 <= q < v.wiki.by_name.len(),
        v.wiki.by_name[q].0 == (v.article_here()->0).name,
        0 <= p < v.wiki.by_name[q].1.len(),
        ({
            let entry = v.wiki.entries[v.wiki.by_name[q].1[p] as int];
            &&& 0 <= i < entry.body.len()
            &&& 0 <= j < entry.body.len()
            &&& entry.body[i] == Seq::new(k, |x: int| '#') + one
            &&& entry.body[j] == Seq::new(m, |x: int| '#') + other
            &&& k > entry.depth
            &&& m > entry.depth
            &&& 0 <= entry.depth
        }),
        one.len() > 0 && one[0] == ' ',
        other.len() > 0 && other[0] == ' ',
    ensures
        ({
            let lines = (v.article_here()->0).parts[p].lines;
            lines[i] matches ArticleLine::Heading(x, _) && lines[j] matches ArticleLine::Heading(
                y,
                _,
            ) && x - y == k - m
        }),
{
    let none = Seq::<char>::empty();
    assert(none + Seq::new(k, |x: int| '#') + one =~= Seq::new(k, |x: int| '#') + one);
    assert(none + Seq::new(m, |x: int| '#') + other =~= Seq::new(m, |x: int| '#') + other);
    law_headings_are_told_at_their_depth_in_the_entry(v, q, p, i, none, k, one);
    law_headings_are_told_at_their_depth_in_the_entry(v, q, p, j, none, m, other);
}

/// An entry floats over the page unless the line names a file, or something
/// explains itself there, or the wiki has a panel of its own; and where it is
/// written is where its first part is.
pub proof fn law_an_entry_floats_where_nothing_else_answers(v: EditorView)
    ensures
        v.named_here() is Some || v.detail is Some || v.panels.left == Some(Page::Wiki)
            || v.panels.right == Some(Page::Wiki) ==> v.article_floating() is None,
        v.named_here() is None && v.detail is None && v.panels.left != Some(Page::Wiki)
            && v.panels.right != Some(Page::Wiki) ==> v.article_floating() == v.article_here(),
        v.article_here() is None ==> v.target_here() is None,
        v.article_here() matches Some(a) ==> (a.parts.len() == 0 ==> v.target_here() is None) && (
        a.parts.len() > 0 ==> v.target_here() == Some((a.parts[0].source, a.parts[0].line))),
{
}

// ---- The names on the page ------------------------------------------------

/// Whether a word of a line is longer than one character and a name of the wiki.
pub open spec fn is_marked(wiki: WikiData, chars: Seq<char>, word: (usize, usize)) -> bool {
    word.1 - word.0 >= 2 && has_name(wiki, letters(chars, word))
}

proof fn lemma_names_among(wiki: WikiData, chars: Seq<char>, cuts: Seq<(usize, usize)>)
    ensures
        names_among(wiki, chars, cuts) == cuts.filter(
            |word: (usize, usize)| is_marked(wiki, chars, word),
        ),
    decreases cuts.len(),
{
    reveal(Seq::filter);
    if cuts.len() > 0 {
        lemma_names_among(wiki, chars, cuts.drop_last());
        lemma_knows(wiki, letters(chars, cuts.last()));
        assert(is_name(wiki, chars, cuts.last()) == is_marked(wiki, chars, cuts.last()));
    } else {
        assert(names_among(wiki, chars, cuts) =~= cuts);
    }
}

/// The names on a line are those of the words that it was cut into that are
/// longer than one character and names of the wiki, in their order; a line that
/// quotes has none. They are marked where names are marked at all: with a wiki, a
/// way to mark them, and a page that is not the file as it is.
pub proof fn law_names_are_marked_among_the_words(v: EditorView, l: int)
    requires
        0 <= l,
    ensures
        v.quotes(l) ==> v.names_on_line(l).len() == 0,
        !v.quotes(l) && l < v.buffer().reading.len() ==> v.names_on_line(l)
            == v.buffer().reading[l].cuts.filter(
            |word: (usize, usize)| is_marked(v.wiki, line_body(v.text(), l), word),
        ),
        l >= v.buffer().reading.len() ==> v.names_on_line(l).len() == 0,
        v.settings.wiki_mark == Mark::Off || v.settings.render == Render::Off
            || v.wiki.by_name.len() == 0 ==> v.marks_on_line(l).len() == 0 && !v.marks_visible(),
        v.settings.wiki_mark != Mark::Off && v.settings.render != Render::Off
            && v.wiki.by_name.len() > 0 ==> v.marks_on_line(l) == v.names_on_line(l)
            && v.marks_visible(),
{
    if l < v.buffer().reading.len() {
        lemma_names_among(v.wiki, line_body(v.text(), l), v.buffer().reading[l].cuts);
    }
}

// ---- An article -----------------------------------------------------------

/// The rows one after the other, with `sep` between every two, from the first on.
pub open spec fn in_turn_with(rows: Seq<Seq<char>>, sep: Seq<char>) -> Seq<char>
    decreases rows.len(),
{
    if rows.len() == 0 {
        Seq::empty()
    } else if rows.len() == 1 {
        rows[0]
    } else {
        rows[0] + sep + in_turn_with(rows.skip(1), sep)
    }
}

/// Joining goes on from any row.
pub proof fn lemma_joined_on(x: Seq<Seq<char>>, y: Seq<Seq<char>>, sep: Seq<char>)
    requires
        x.len() > 0,
        y.len() > 0,
    ensures
        joined_with(x + y, sep) == joined_with(x, sep) + sep + joined_with(y, sep),
    decreases y.len(),
{
    let all = x + y;
    assert(all.drop_last() =~= x + y.drop_last());
    assert(all.last() == y.last());
    if y.len() == 1 {
        assert(x + y.drop_last() =~= x);
        assert(joined_with(y, sep) == y[0]);
    } else {
        lemma_joined_on(x, y.drop_last(), sep);
        assert(joined_with(all, sep) =~= joined_with(x, sep) + sep + joined_with(y, sep));
    }
}

proof fn lemma_joined_in_turn(rows: Seq<Seq<char>>, sep: Seq<char>)
    ensures
        joined_with(rows, sep) == in_turn_with(rows, sep),
    decreases rows.len(),
{
    if rows.len() > 1 {
        let rest = rows.skip(1);
        let one = seq![rows[0]];
        assert(rows =~= one + rest);
        lemma_joined_on(one, rest, sep);
        assert(joined_with(one, sep) == rows[0]);
        lemma_joined_in_turn(rest, sep);
    }
}

/// What stands above the body of the part at `i`: after another part an empty row
/// and a rule; where the article has entries of the book and global ones, the
/// first global one is announced; and the headings above the entry in one row.
pub open spec fn above(parts: Seq<ArticlePart>, i: int, mixed: bool) -> Seq<Seq<char>> {
    let first = forall|j: int| 0 <= j < i ==> !(#[trigger] parts[j]).global;
    let gap = if i > 0 {
        seq![Seq::<char>::empty()]
    } else {
        Seq::empty()
    };
    let rule = if mixed && parts[i].global && first {
        seq!["── "@ + "全局"@ + " ──"@]
    } else if i > 0 {
        seq!["──"@]
    } else {
        Seq::empty()
    };
    let trail = if parts[i].trail.len() > 0 {
        seq![in_turn_with(parts[i].trail, " › "@)]
    } else {
        Seq::empty()
    };
    gap + rule + trail
}

/// A line as it is told: a heading with as many number signs as its level.
pub open spec fn as_told(line: ArticleLine) -> Seq<char> {
    match line {
        ArticleLine::Heading(level, title) => Seq::new(
            if level > 0 {
                level as nat
            } else {
                0
            },
            |i: int| '#',
        ) + seq![' '] + title,
        ArticleLine::Text(text) => text,
    }
}

/// Whether a line takes a row of the room that there is: a blank one takes none.
pub open spec fn takes_a_row(line: ArticleLine) -> bool {
    match line {
        ArticleLine::Heading(_, _) => true,
        ArticleLine::Text(text) => !is_all_space(text),
    }
}

proof fn lemma_takes_a_row(line: ArticleLine)
    ensures
        line.counts() == takes_a_row(line),
        line.row() == as_told(line),
{
    if let ArticleLine::Text(text) = line {
        let a = after_space(text, 0);
        lemma_after_space(text, 0);
        lemma_before_space(text, a, text.len() as int);
        if is_all_space(text) && a < text.len() {
            assert(is_space(text[a]));
        }
        if a < text.len() {
            assert(!is_space(text[a]));
            let b = before_space(text, a, text.len() as int);
            if b == a {
                assert(is_space(text[a]));
            }
        }
    }
    if let ArticleLine::Heading(level, title) = line {
        assert(line.row() =~= as_told(line));
    }
}

/// How many of the first `n` lines take a row.
pub open spec fn rows_taken(lines: Seq<ArticleLine>, n: int) -> int
    decreases n,
{
    if n <= 0 {
        0
    } else {
        rows_taken(lines, n - 1) + if takes_a_row(lines[n - 1]) {
            1int
        } else {
            0int
        }
    }
}

/// How many lines of the first `n` parts take a row.
pub open spec fn rows_taken_in(parts: Seq<ArticlePart>, n: int) -> int
    decreases n,
{
    if n <= 0 {
        0
    } else {
        rows_taken_in(parts, n - 1) + rows_taken(
            parts[n - 1].lines,
            parts[n - 1].lines.len() as int,
        )
    }
}

proof fn lemma_rows_taken(lines: Seq<ArticleLine>, more: Seq<ArticleLine>, n: int)
    requires
        0 <= n <= lines.len(),
        n <= more.len(),
        forall|k: int| 0 <= k < n ==> lines[k] == more[k],
    ensures
        rows_taken(lines, n) == rows_taken(more, n),
        0 <= rows_taken(lines, n) <= n,
    decreases n,
{
    if n > 0 {
        lemma_rows_taken(lines, more, n - 1);
    }
}

proof fn lemma_counting(lines: Seq<ArticleLine>)
    ensures
        counting(lines) == rows_taken(lines, lines.len() as int),
    decreases lines.len(),
{
    if lines.len() > 0 {
        lemma_counting(lines.drop_last());
        lemma_rows_taken(lines.drop_last(), lines, lines.len() - 1);
        lemma_takes_a_row(lines.last());
    }
}

proof fn lemma_counting_in(parts: Seq<ArticlePart>, n: int)
    requires
        0 <= n <= parts.len(),
    ensures
        counting_in(parts.take(n)) == rows_taken_in(parts, n),
        0 <= rows_taken_in(parts, n),
    decreases n,
{
    if n > 0 {
        lemma_counting_in(parts, n - 1);
        assert(parts.take(n).drop_last() =~= parts.take(n - 1));
        lemma_counting(parts[n - 1].lines);
        lemma_rows_taken(
            parts[n - 1].lines,
            parts[n - 1].lines,
            parts[n - 1].lines.len() as int,
        );
    }
}

proof fn lemma_announced(parts: Seq<ArticlePart>, mixed: bool, upto: int)
    ensures
        part_rows(parts, mixed, upto).said == (mixed && exists|j: int|
            0 <= j < parts.len() && (#[trigger] parts[j]).global),
    decreases parts.len(),
{
    if parts.len() > 0 {
        let rest = parts.drop_last();
        lemma_announced(rest, mixed, upto);
        let r = part_rows(rest, mixed, upto);
        let f = with_furniture(r, parts.last(), parts.len() - 1, mixed);
        lemma_lines_say_nothing(f, parts.last().lines, upto);
        if exists|j: int| 0 <= j < rest.len() && (#[trigger] rest[j]).global {
            let j = choose|j: int| 0 <= j < rest.len() && (#[trigger] rest[j]).global;
            assert(parts[j].global);
        }
        if exists|j: int| 0 <= j < parts.len() && (#[trigger] parts[j]).global {
            let j = choose|j: int| 0 <= j < parts.len() && (#[trigger] parts[j]).global;
            if j < rest.len() {
                assert(rest[j].global);
            } else {
                assert(parts.last().global);
            }
        }
        if parts.last().global {
            assert(parts[parts.len() - 1].global);
        }
    }
}

proof fn lemma_lines_say_nothing(r: Rows, lines: Seq<ArticleLine>, upto: int)
    ensures
        with_lines(r, lines, upto).said == r.said,
    decreases lines.len(),
{
    if lines.len() > 0 {
        lemma_lines_say_nothing(r, lines.drop_last(), upto);
    }
}

/// Whether the article has entries of the book and global ones.
pub open spec fn has_both(parts: Seq<ArticlePart>) -> bool {
    &&& exists|i: int| 0 <= i < parts.len() && (#[trigger] parts[i]).global
    &&& exists|i: int| 0 <= i < parts.len() && !(#[trigger] parts[i]).global
}

/// The rows of the first `i` parts of an article.
pub open spec fn rows_upto(a: Article, i: int, upto: int) -> Seq<Seq<char>> {
    part_rows(a.parts.take(i), has_both(a.parts), upto).rows
}

/// Each part of an article comes after those before it, with what stands above
/// it, and its lines as they are told, as many of them as there is room for: a
/// line is there where fewer than `upto` lines before it, in this part and those
/// before, take a row. The rows of all parts, a break between every two, are the
/// article.
pub proof fn law_an_article_is_its_parts_in_turn(a: Article, upto: int, i: int)
    requires
        0 <= upto,
        0 <= i < a.parts.len(),
    ensures
        ({
            let lines = a.parts[i].lines;
            let room = upto - rows_taken_in(a.parts, i);
            exists|n: int|
                #![trigger lines.take(n)]
                {
                    &&& 0 <= n <= lines.len()
                    &&& forall|j: int| 0 <= j < n ==> rows_taken(lines, j) < room
                    &&& n < lines.len() ==> rows_taken(lines, n) >= room
                    &&& rows_upto(a, i + 1, upto) == rows_upto(a, i, upto) + above(
                        a.parts,
                        i,
                        has_both(a.parts),
                    ) + lines.take(n).map_values(|l: ArticleLine| as_told(l))
                }
        }),
        rows_upto(a, 0, upto).len() == 0,
        a.prose(upto) == in_turn_with(rows_upto(a, a.parts.len() as int, upto), "\n"@),
{
    let mixed = has_both(a.parts);
    assert(a.mixed() == mixed);
    assert(a.parts.take(0) =~= Seq::empty());
    assert(a.parts.take(a.parts.len() as int) =~= a.parts);
    lemma_joined_in_turn(part_rows(a.parts, mixed, upto).rows, "\n"@);
    let parts = a.parts.take(i + 1);
    let rest = a.parts.take(i);
    assert(parts.drop_last() =~= rest);
    assert(parts.last() == a.parts[i]);
    let lines = a.parts[i].lines;
    law_the_first_lines_of_body_are_kept(parts, mixed, upto);
    lemma_counting_in(a.parts, i);
    let room = most(upto - counting_in(rest), 0);
    let n = shown(lines, room);
    lemma_shown(lines, room);
    lemma_told(lines.take(n));
    let r = part_rows(rest, mixed, upto);
    lemma_announced(rest, mixed, upto);
    let first = forall|j: int| 0 <= j < i ==> !(#[trigger] a.parts[j]).global;
    assert(r.said == (mixed && !first)) by {
        if exists|j: int| 0 <= j < rest.len() && (#[trigger] rest[j]).global {
            let j = choose|j: int| 0 <= j < rest.len() && (#[trigger] rest[j]).global;
            assert(a.parts[j].global);
        }
        if !first {
            let j = choose|j: int| 0 <= j < i && (#[trigger] a.parts[j]).global;
            assert(rest[j].global);
        }
    }
    lemma_joined_in_turn(a.parts[i].trail, " › "@);
    let f = with_furniture(r, a.parts[i], i, mixed);
    assert(f.rows =~= r.rows + above(a.parts, i, mixed)) by {
        assert(global_rule() == "── "@ + "全局"@ + " ──"@);
    }
    let told = lines.take(n).map_values(|l: ArticleLine| as_told(l));
    assert(told == rows_of(lines.take(n)));
    assert(part_rows(parts, mixed, upto).rows == f.rows + told);
    assert(rows_upto(a, i + 1, upto) == rows_upto(a, i, upto) + above(a.parts, i, mixed) + told);
    assert forall|j: int| 0 <= j < n implies rows_taken(lines, j) < upto - rows_taken_in(
        a.parts,
        i,
    ) by {
        assert(rows_taken(lines, j) < room);
        lemma_rows_taken(lines, lines, j);
    }
    assert(n < lines.len() ==> rows_taken(lines, n) >= upto - rows_taken_in(a.parts, i));
}

proof fn lemma_told(lines: Seq<ArticleLine>)
    ensures
        rows_of(lines) == lines.map_values(|l: ArticleLine| as_told(l)),
{
    assert forall|k: int| 0 <= k < lines.len() implies rows_of(lines)[k] == as_told(lines[k]) by {
        lemma_takes_a_row(lines[k]);
    }
    assert(rows_of(lines) =~= lines.map_values(|l: ArticleLine| as_told(l)));
}

proof fn lemma_shown(lines: Seq<ArticleLine>, room: int)
    requires
        0 <= room,
    ensures
        0 <= shown(lines, room) <= lines.len(),
        forall|j: int| 0 <= j < shown(lines, room) ==> rows_taken(lines, j) < room,
        shown(lines, room) < lines.len() ==> rows_taken(lines, shown(lines, room)) >= room,
    decreases lines.len(),
{
    if lines.len() > 0 {
        let rest = lines.drop_last();
        lemma_shown(rest, room);
        lemma_counting(rest);
        assert forall|j: int| 0 <= j <= rest.len() implies #[trigger] rows_taken(lines, j)
            == rows_taken(rest, j) by {
            lemma_rows_taken(rest, lines, j);
        }
    }
}

/// What is lifted out of an article is the headings above its one entry, ` › `
/// between every two; what is left is the rest behind the breaks. An article of
/// more entries, or without headings above, keeps all of it.
pub proof fn law_what_is_lifted_out_is_the_headings_above(a: Article, upto: int)
    ensures
        a.parts.len() == 1 && a.parts[0].trail.len() > 0 ==> a.lede() == Some(
            in_turn_with(a.parts[0].trail, " › "@),
        ) && ({
            let lede = in_turn_with(a.parts[0].trail, " › "@);
            let body = a.body(upto);
            let gap = a.prose(upto).len() - lede.len() - body.len();
            &&& 0 <= gap
            &&& a.prose(upto) == lede + Seq::new(gap as nat, |i: int| '\n') + body
            &&& body.len() > 0 ==> body[0] != '\n'
        }),
        a.parts.len() != 1 || a.parts[0].trail.len() == 0 ==> a.lede() is None && a.body(upto)
            == a.prose(upto),
{
    if a.parts.len() == 1 && a.parts[0].trail.len() > 0 {
        lemma_joined_in_turn(a.parts[0].trail, " › "@);
        law_the_lede_and_the_body_are_the_article(a, upto);
        let lede = a.lede()->0;
        let all = a.prose(upto);
        let rest = all.skip(lede.len() as int);
        let k = after_breaks(rest, 0);
        lemma_after_breaks(rest, 0);
        assert(all.subrange(0, lede.len() as int) == lede);
        let breaks = Seq::new(k as nat, |i: int| '\n');
        assert(rest =~= breaks + rest.skip(k));
        assert(all =~= lede + rest);
        assert(lede + (breaks + rest.skip(k)) =~= lede + breaks + rest.skip(k));
    }
}

proof fn lemma_after_breaks(s: Seq<char>, i: int)
    requires
        0 <= i <= s.len(),
    ensures
        i <= after_breaks(s, i) <= s.len(),
        forall|k: int| i <= k < after_breaks(s, i) ==> s[k] == '\n',
        after_breaks(s, i) < s.len() ==> s[after_breaks(s, i)] != '\n',
    decreases s.len() - i,
{
    if i < s.len() && s[i] == '\n' {
        lemma_after_breaks(s, i + 1);
    }
}

// ---- Names that are not marked --------------------------------------------

/// Whether `name` stands at `at` in a line, and none of the marks is just there.
pub open spec fn stands_unmarked(
    chars: Seq<char>,
    marks: Seq<(usize, usize)>,
    name: Seq<char>,
    at: int,
) -> bool {
    &&& 0 <= at
    &&& at + name.len() <= chars.len()
    &&& forall|k: int| 0 <= k < name.len() ==> chars[at + k] == #[trigger] name[k]
    &&& forall|k: int|
        0 <= k < marks.len() ==> (#[trigger] marks[k]).0 != at || marks[k].1 != at + name.len()
}

proof fn lemma_unmarked_at(
    chars: Seq<char>,
    marks: Seq<(usize, usize)>,
    name: Seq<char>,
    at: int,
)
    requires
        0 <= at <= chars.len(),
    ensures
        unmarked_at(chars, marks, name, at) == stands_unmarked(chars, marks, name, at),
{
    let rest = chars.skip(at);
    if at + name.len() <= chars.len() && forall|k: int|
        0 <= k < name.len() ==> chars[at + k] == #[trigger] name[k] {
        assert(rest.subrange(0, name.len() as int) =~= name);
    }
    if name.is_prefix_of(rest) {
        assert forall|k: int| 0 <= k < name.len() implies chars[at + k] == #[trigger] name[k] by {
            assert(rest.subrange(0, name.len() as int)[k] == rest[k]);
        }
    }
}

proof fn lemma_missed_in_line_has(
    chars: Seq<char>,
    marks: Seq<(usize, usize)>,
    name: Seq<char>,
    line: int,
    n: int,
)
    requires
        0 <= n <= chars.len(),
    ensures
        missed_in_line(chars, marks, name, line, n).len() > 0 <==> exists|at: int|
            0 <= at < n && #[trigger] stands_unmarked(chars, marks, name, at),
        forall|k: int|
            0 <= k < missed_in_line(chars, marks, name, line, n).len() ==> (
            #[trigger] missed_in_line(chars, marks, name, line, n)[k]) == line,
    decreases n,
{
    if n > 0 {
        lemma_missed_in_line_has(chars, marks, name, line, n - 1);
        lemma_unmarked_at(chars, marks, name, n - 1);
        let rest = missed_in_line(chars, marks, name, line, n - 1);
        let all = missed_in_line(chars, marks, name, line, n);
        assert forall|k: int| 0 <= k < all.len() implies (#[trigger] all[k]) == line by {
            if k < rest.len() {
                assert(all[k] == rest[k]);
            }
        }
        if exists|at: int| 0 <= at < n && #[trigger] stands_unmarked(chars, marks, name, at) {
            let at = choose|at: int|
                0 <= at < n && #[trigger] stands_unmarked(chars, marks, name, at);
            assert(at < n - 1 ==> 0 <= at < n - 1 && stands_unmarked(chars, marks, name, at));
        }
    }
}

/// Whether `name` stands unmarked somewhere on the line with the number `m`,
/// counted from one, and the line does not quote.
pub open spec fn stands_on(v: EditorView, name: Seq<char>, m: int) -> bool {
    !v.quotes(m - 1) && exists|at: int|
        #[trigger] stands_unmarked(
            line_body(v.text(), m - 1),
            v.names_on_line(m - 1),
            name,
            at,
        )
}

proof fn lemma_missed_on_has(v: EditorView, name: Seq<char>, n: int, m: int)
    requires
        name.len() > 0,
    ensures
        v.missed_on(name, n).contains(m) <==> 1 <= m <= n && stands_on(v, name, m),
    decreases n,
{
    if n > 0 {
        lemma_missed_on_has(v, name, n - 1, m);
        let chars = line_body(v.text(), n - 1);
        let marks = v.names_on_line(n - 1);
        lemma_missed_in_line_has(chars, marks, name, n, chars.len() as int);
        let rest = v.missed_on(name, n - 1);
        let new = missed_in_line(chars, marks, name, n, chars.len() as int);
        assert(new.len() > 0 <==> exists|at: int|
            #[trigger] stands_unmarked(chars, marks, name, at)) by {
            if exists|at: int| #[trigger] stands_unmarked(chars, marks, name, at) {
                let at = choose|at: int| #[trigger] stands_unmarked(chars, marks, name, at);
                assert(0 <= at < chars.len());
            }
        }
        if !v.quotes(n - 1) {
            let all = rest + new;
            assert(v.missed_on(name, n) == all);
            if all.contains(m) {
                let k = choose|k: int| 0 <= k < all.len() && all[k] == m;
                if k < rest.len() {
                    assert(rest[k] == m);
                } else {
                    assert(new[k - rest.len()] == m);
                }
            }
            if rest.contains(m) {
                let k = choose|k: int| 0 <= k < rest.len() && rest[k] == m;
                assert(all[k] == m);
            }
            if m == n && new.len() > 0 {
                assert(all[rest.len() as int] == new[0]);
            }
        }
    }
}

/// A name is missed on the lines on which it stands where no mark is, and on no
/// others.
pub proof fn law_a_name_is_missed_where_it_stands_unmarked(
    v: EditorView,
    name: Seq<char>,
    m: int,
)
    requires
        name.len() > 0,
    ensures
        v.missed_lines(name).contains(m) <==> 1 <= m <= line_count(v.text()) && stands_on(
            v,
            name,
            m,
        ),
{
    lemma_missed_on_has(v, name, line_count(v.text()), m);
}

/// Whether the buffer on the page has a file that is not one of the wiki's.
pub open spec fn on_a_chapter(v: EditorView) -> bool {
    v.buffer().path matches Some(path) && !v.is_wiki_file(path)
}

/// The list of what is missed has the names of the wiki that are longer than one
/// character and stand unmarked on some line of a chapter, and no others, each
/// with the first six of its lines, or all. A buffer without a file and a file of
/// the wiki miss nothing.
pub proof fn law_what_is_missed_is_listed(
    v: EditorView,
    list: Seq<(Seq<char>, Seq<int>)>,
    name: Seq<char>,
)
    requires
        v.are_missed(list),
    ensures
        (exists|i: int| 0 <= i < list.len() && (#[trigger] list[i]).0 == name) <==> on_a_chapter(v)
            && has_name(v.wiki, name) && name.len() >= 2 && exists|m: int|
            1 <= m <= line_count(v.text()) && #[trigger] stands_on(v, name, m),
        forall|i: int|
            0 <= i < list.len() ==> {
                let all = v.missed_lines((#[trigger] list[i]).0);
                &&& list[i].1.len() == if all.len() < 6 {
                    all.len() as int
                } else {
                    6
                }
                &&& forall|k: int| 0 <= k < list[i].1.len() ==> list[i].1[k] == all[k]
            },
{
    lemma_knows(v.wiki, name);
    let all = v.missed_lines(name);
    if name.len() >= 2 {
        if all.len() > 0 {
            assert(all.contains(all[0]));
            law_a_name_is_missed_where_it_stands_unmarked(v, name, all[0]);
        }
        if exists|m: int| 1 <= m <= line_count(v.text()) && #[trigger] stands_on(v, name, m) {
            let m = choose|m: int|
                1 <= m <= line_count(v.text()) && #[trigger] stands_on(v, name, m);
            law_a_name_is_missed_where_it_stands_unmarked(v, name, m);
        }
    }
    if has_name(v.wiki, name) && v.is_missed(name) {
        let q = choose|q: int|
            0 <= q < v.wiki.by_name.len() && (#[trigger] v.wiki.by_name[q]).0 == name;
        assert(v.is_missed(v.wiki.by_name[q].0));
    }
}

/// One text comes before another where it is a beginning of it and shorter, or
/// where the first characters in which they differ are so.
pub proof fn law_texts_come_in_the_order_of_their_characters(
    a: Seq<char>,
    b: Seq<char>,
    i: int,
)
    requires
        0 <= i <= a.len(),
        i <= b.len(),
        forall|k: int| 0 <= k < i ==> a[k] == b[k],
        i < a.len() && i < b.len() ==> a[i] != b[i],
    ensures
        i == a.len() && i < b.len() ==> comes_before(a, b),
        i == b.len() ==> !comes_before(a, b),
        i < a.len() && i < b.len() ==> comes_before(a, b) == (a[i] < b[i]),
{
    lemma_before_goes_on(a, b, 0, i);
}

proof fn lemma_before_goes_on(a: Seq<char>, b: Seq<char>, k: int, i: int)
    requires
        0 <= k <= i <= a.len(),
        i <= b.len(),
        forall|j: int| 0 <= j < i ==> a[j] == b[j],
    ensures
        before_from(a, b, k) == before_from(a, b, i),
    decreases i - k,
{
    if k < i {
        lemma_before_goes_on(a, b, k + 1, i);
    }
}

// ---- Lines that quote -----------------------------------------------------

/// Whether a line begins with `lit`, blanks before it or not.
pub open spec fn begins_with(line: Seq<char>, lit: Seq<char>) -> bool {
    exists|i: int|
        0 <= i && i + lit.len() <= line.len() && #[trigger] line.subrange(i, i + lit.len()) == lit
            && forall|k: int| 0 <= k < i ==> line[k] == ' ' || line[k] == '\t'
}

proof fn lemma_after_blank(s: Seq<char>, i: int)
    requires
        0 <= i <= s.len(),
    ensures
        i <= after_blank(s, i) <= s.len(),
        forall|k: int| i <= k < after_blank(s, i) ==> s[k] == ' ' || s[k] == '\t',
        after_blank(s, i) < s.len() ==> s[after_blank(s, i)] != ' ' && s[after_blank(s, i)] != '\t',
    decreases s.len() - i,
{
    if i < s.len() && (s[i] == ' ' || s[i] == '\t') {
        lemma_after_blank(s, i + 1);
    }
}

proof fn lemma_begins_with(line: Seq<char>, lit: Seq<char>)
    requires
        lit.len() > 0,
        lit[0] != ' ' && lit[0] != '\t',
    ensures
        stands(line, lit, after_blank(line, 0)) == begins_with(line, lit),
{
    let at = after_blank(line, 0);
    lemma_after_blank(line, 0);
    let rest = line.skip(at);
    if lit.is_prefix_of(rest) {
        assert(rest.subrange(0, lit.len() as int) =~= line.subrange(at, at + lit.len()));
        assert(begins_with(line, lit));
    }
    if begins_with(line, lit) {
        let i = choose|i: int|
            0 <= i && i + lit.len() <= line.len() && #[trigger] line.subrange(i, i + lit.len())
                == lit && forall|k: int| 0 <= k < i ==> line[k] == ' ' || line[k] == '\t';
        assert(line.subrange(i, i + lit.len())[0] == line[i]);
        assert(i == at);
        assert(rest.subrange(0, lit.len() as int) =~= line.subrange(i, i + lit.len()));
    }
}

/// How many of the lines before line `l` begin with three backticks.
pub open spec fn fences_before(t: Seq<char>, l: int) -> int
    decreases l,
{
    if l <= 0 {
        0
    } else {
        fences_before(t, l - 1) + if begins_with(line_body(t, l - 1), "```"@) {
            1int
        } else {
            0
        }
    }
}

proof fn lemma_open_in_fences(syntax: Syntax, t: Seq<char>, l: int)
    requires
        syntax != Syntax::Text,
        forall|k: int|
            0 <= k < l ==> !begins_with(#[trigger] line_body(t, k), comment_head(syntax)) && !(
            syntax == Syntax::Typst && begins_with(line_body(t, k), "//"@)),
    ensures
        open_before(syntax, t, l) == if fences_before(t, l) % 2 == 1 {
            Open::Fence
        } else {
            Open::Nothing
        },
    decreases l,
{
    if l > 0 {
        lemma_open_in_fences(syntax, t, l - 1);
        let line = line_body(t, l - 1);
        lemma_signs(line);
        lemma_fences_count(t, l - 1);
    }
}

proof fn lemma_fences_count(t: Seq<char>, l: int)
    ensures
        fences_before(t, l) >= 0,
    decreases l,
{
    if l > 0 {
        lemma_fences_count(t, l - 1);
    }
}

proof fn lemma_signs(line: Seq<char>)
    ensures
        stands(line, "```"@, after_blank(line, 0)) == begins_with(line, "```"@),
        stands(line, "<!--"@, after_blank(line, 0)) == begins_with(line, "<!--"@),
        stands(line, "/*"@, after_blank(line, 0)) == begins_with(line, "/*"@),
        stands(line, "//"@, after_blank(line, 0)) == begins_with(line, "//"@),
{
    reveal_strlit("```");
    reveal_strlit("<!--");
    reveal_strlit("/*");
    reveal_strlit("//");
    lemma_begins_with(line, "```"@);
    lemma_begins_with(line, "<!--"@);
    lemma_begins_with(line, "/*"@);
    lemma_begins_with(line, "//"@);
}

/// A line with three backticks opens a fence and the next such line closes it: what
/// is between them quotes, and so do the two. Nothing quotes in plain text.
pub proof fn law_what_is_between_fences_quotes(syntax: Syntax, t: Seq<char>, l: int)
    requires
        0 <= l < line_count(t),
    ensures
        syntax == Syntax::Text ==> written_block(syntax, t, l) == Block::Prose,
        syntax != Syntax::Text && (forall|k: int|
            0 <= k <= l ==> !begins_with(#[trigger] line_body(t, k), comment_head(syntax)) && !(
            syntax == Syntax::Typst && begins_with(line_body(t, k), "//"@))) ==> written_block(
            syntax,
            t,
            l,
        ) == if fences_before(t, l) % 2 == 1 || begins_with(line_body(t, l), "```"@) {
            Block::Literal
        } else {
            Block::Prose
        },
{
    if syntax != Syntax::Text && (forall|k: int|
        0 <= k <= l ==> !begins_with(#[trigger] line_body(t, k), comment_head(syntax)) && !(syntax
            == Syntax::Typst && begins_with(line_body(t, k), "//"@))) {
        lemma_open_in_fences(syntax, t, l);
        lemma_signs(line_body(t, l));
        assert(!begins_with(line_body(t, l), comment_head(syntax)));
    }
}

/// A comment goes on to the line that ends it: from the line that begins with its
/// sign, outside of a fence, to the first with its end, every line is of the
/// comment, and what was before goes on behind it.
pub proof fn law_a_comment_goes_on_to_its_end(syntax: Syntax, t: Seq<char>, l: int, m: int)
    requires
        syntax != Syntax::Text,
        0 <= l <= m < line_count(t),
        open_before(syntax, t, l) == Open::Nothing,
        begins_with(line_body(t, l), comment_head(syntax)),
        forall|k: int|
            l <= k < m ==> next_stand(#[trigger] line_body(t, k), comment_tail(syntax), 0) is None,
    ensures
        written_block(syntax, t, m) == Block::Comment,
        next_stand(line_body(t, m), comment_tail(syntax), 0) is Some ==> open_before(
            syntax,
            t,
            m + 1,
        ) == Open::Nothing,
        next_stand(line_body(t, m), comment_tail(syntax), 0) is None ==> open_before(
            syntax,
            t,
            m + 1,
        ) == Open::Comment,
    decreases m - l,
{
    let line = line_body(t, m);
    lemma_signs(line);
    if l < m {
        law_a_comment_goes_on_to_its_end(syntax, t, l, m - 1);
        assert(next_stand(line_body(t, m - 1), comment_tail(syntax), 0) is None);
    } else {
        reveal_strlit("```");
        reveal_strlit("<!--");
        reveal_strlit("/*");
        assert(!begins_with(line, "```"@)) by {
            lemma_one_beginning(line, "```"@, comment_head(syntax));
        }
    }
}

proof fn lemma_one_beginning(line: Seq<char>, x: Seq<char>, y: Seq<char>)
    requires
        x.len() > 0,
        y.len() > 0,
        x[0] != y[0],
        x[0] != ' ' && x[0] != '\t' && y[0] != ' ' && y[0] != '\t',
        begins_with(line, y),
    ensures
        !begins_with(line, x),
{
    lemma_begins_with(line, x);
    lemma_begins_with(line, y);
    let at = after_blank(line, 0);
    lemma_after_blank(line, 0);
    let rest = line.skip(at);
    if begins_with(line, x) {
        assert(rest.subrange(0, x.len() as int)[0] == rest[0]);
        assert(rest.subrange(0, y.len() as int)[0] == rest[0]);
    }
}

proof fn lemma_conflict_over(v: Seq<Conflict>, l: int, k: int)
    requires
        0 <= k <= v.len(),
    ensures
        k <= conflict_over(v, l, k) <= v.len(),
        conflict_over(v, l, k) < v.len() <==> exists|i: int|
            k <= i < v.len() && (#[trigger] v[i]).head <= l <= v[i].foot,
    decreases v.len() - k,
{
    if k < v.len() && !(v[k].head <= l <= v[k].foot) {
        lemma_conflict_over(v, l, k + 1);
        if exists|i: int| k <= i < v.len() && (#[trigger] v[i]).head <= l <= v[i].foot {
            let i = choose|i: int| k <= i < v.len() && (#[trigger] v[i]).head <= l <= v[i].foot;
            assert(i >= k + 1);
        }
    }
}

/// A line quotes where it is in a fence or in a comment, but for the lines of a
/// conflict, which are somebody's writing.
pub proof fn law_fences_and_comments_quote(v: EditorView, l: int)
    ensures
        (exists|i: int|
            0 <= i < v.conflicts().len() && (#[trigger] v.conflicts()[i]).head <= l
                <= v.conflicts()[i].foot) ==> !v.quotes(l),
        !(exists|i: int|
            0 <= i < v.conflicts().len() && (#[trigger] v.conflicts()[i]).head <= l
                <= v.conflicts()[i].foot) ==> v.quotes(l) == (written_block(
            v.buffer().syntax,
            v.text(),
            l,
        ) == Block::Literal || written_block(v.buffer().syntax, v.text(), l) == Block::Comment),
{
    lemma_conflict_over(v.conflicts(), l, 0);
}

} // verus!

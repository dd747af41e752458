//! Looking for a pattern, and replacing it.

use vstd::prelude::*;
use regex::Regex;
use crate::buffer::line_body;
use crate::case::{capital, is_capital};
use crate::editor::{Editor, EditorView, least, most};
use crate::grapheme::{find_prev_grapheme, prev_grapheme};
use crate::say;
use crate::text::{char_count, chars_of, copied, line_count, line_text, string_between};

verus! {

/// A place where a pattern was found, and what it is replaced by.
#[derive(Debug)]
pub struct Hit {
    pub from: usize,
    pub to: usize,
    pub with: String,
}

/// What a [`Hit`] says.
#[verifier::ext_equal]
pub struct HitView {
    pub from: int,
    pub to: int,
    pub with: Seq<char>,
}

impl View for Hit {
    type V = HitView;

    open spec fn view(&self) -> HitView {
        HitView { from: self.from as int, to: self.to as int, with: self.with@ }
    }
}

/// What hits say.
pub open spec fn hit_views(v: Seq<Hit>) -> Seq<HitView> {
    v.map_values(|h: Hit| h@)
}

/// Where a regular expression is found in a text, counted in bytes, and what a
/// template becomes at each place; none where it is no regular expression.
pub uninterp spec fn regex_hits(
    pattern: Seq<char>,
    text: Seq<char>,
    template: Seq<char>,
) -> Option<Seq<HitView>>;

/// Whether a character means something of its own in a regular expression.
pub open spec fn is_meta(c: char) -> bool {
    c == '\\' || c == '.' || c == '+' || c == '*' || c == '?' || c == '(' || c == ')' || c == '|'
        || c == '[' || c == ']' || c == '{' || c == '}' || c == '^' || c == '$' || c == '#' || c
        == '&' || c == '-' || c == '~'
}

/// A text as a regular expression that finds it and nothing else: with a
/// backslash before what means something of its own.
pub open spec fn regex_literal(text: Seq<char>) -> Seq<char>
    decreases text.len(),
{
    if text.len() == 0 {
        Seq::empty()
    } else {
        let rest = regex_literal(text.drop_last());
        if is_meta(text.last()) {
            rest.push('\\').push(text.last())
        } else {
            rest.push(text.last())
        }
    }
}

/// Whether the hits lie one after the other.
pub open spec fn one_after_another(hits: Seq<HitView>) -> bool {
    &&& forall|k: int| 0 <= k < hits.len() ==> 0 <= (#[trigger] hits[k]).from <= hits[k].to
    &&& forall|j: int, k: int|
        0 <= j < k < hits.len() ==> (#[trigger] hits[j]).to <= (#[trigger] hits[k]).from
}

/// Whether the hits lie in a text of `n` characters, one after the other.
pub open spec fn hits_in_order(hits: Seq<HitView>, n: int) -> bool {
    &&& one_after_another(hits)
    &&& forall|k: int| 0 <= k < hits.len() ==> (#[trigger] hits[k]).to <= n
}

/// `Regex::captures_iter` over a text, and `Captures::expand` of a template at
/// each match, after `Regex::new`; none where that refuses the pattern. The
/// matches do not overlap and come in order. The places are counted in bytes.
#[verifier::external_body]
fn match_bytes(pattern: &str, text: &str, template: &str) -> (r: Option<Vec<Hit>>)
    ensures
        match r {
            Some(v) => regex_hits(pattern@, text@, template@) == Some(hit_views(v@))
                && one_after_another(hit_views(v@)),
            None => regex_hits(pattern@, text@, template@) is None,
        },
{
    let re = Regex::new(pattern).ok()?;
    let hit = |c: regex::Captures| {
        let m = c.get_match();
        let mut with = String::new();
        c.expand(template, &mut with);
        Hit { from: m.start(), to: m.end(), with }
    };
    Some(re.captures_iter(text).map(hit).collect())
}

/// How many bytes a character takes.
pub open spec fn byte_len(c: char) -> int {
    if c <= '\u{7f}' {
        1
    } else if c <= '\u{7ff}' {
        2
    } else if c <= '\u{ffff}' {
        3
    } else {
        4
    }
}

/// How many bytes the first `k` characters take.
pub open spec fn bytes_upto(s: Seq<char>, k: int) -> int
    decreases k,
{
    if k <= 0 {
        0
    } else {
        bytes_upto(s, k - 1) + byte_len(s[k - 1])
    }
}

/// The first place at or after `i` that has `b` bytes before it.
pub open spec fn place_of(s: Seq<char>, b: int, i: int) -> int
    decreases s.len() - i,
{
    if i >= s.len() {
        s.len() as int
    } else if bytes_upto(s, i) >= b {
        i
    } else {
        place_of(s, b, i + 1)
    }
}

/// A hit counted in the characters of `s`.
pub open spec fn in_characters(s: Seq<char>, h: HitView) -> HitView {
    HitView { from: place_of(s, h.from, 0), to: place_of(s, h.to, 0), with: h.with }
}

/// Where a regular expression is found in a text, counted in characters, and
/// what a template becomes at each place.
pub open spec fn found_in(pattern: Seq<char>, text: Seq<char>, template: Seq<char>) -> Option<
    Seq<HitView>,
> {
    match regex_hits(pattern, text, template) {
        Some(hits) => Some(hits.map_values(|h: HitView| in_characters(text, h))),
        None => None,
    }
}

proof fn lemma_place_of(s: Seq<char>, b: int, i: int)
    requires
        0 <= i <= s.len(),
    ensures
        i <= place_of(s, b, i) <= s.len(),
        forall|k: int| i <= k < place_of(s, b, i) ==> bytes_upto(s, k) < b,
        place_of(s, b, i) < s.len() ==> bytes_upto(s, place_of(s, b, i)) >= b,
    decreases s.len() - i,
{
    if i < s.len() && bytes_upto(s, i) < b {
        lemma_place_of(s, b, i + 1);
    }
}

/// A place is looked for from where the one before it was found.
proof fn lemma_place_goes_on(s: Seq<char>, b: int, c: int)
    requires
        b <= c,
    ensures
        place_of(s, b, 0) <= place_of(s, c, 0),
        place_of(s, c, 0) == place_of(s, c, place_of(s, b, 0)),
{
    lemma_place_of(s, b, 0);
    lemma_place_from(s, b, c, 0);
    lemma_place_of(s, c, place_of(s, b, 0));
}

proof fn lemma_place_from(s: Seq<char>, b: int, c: int, i: int)
    requires
        b <= c,
        0 <= i <= s.len(),
    ensures
        place_of(s, c, i) == place_of(s, c, place_of(s, b, i)),
    decreases s.len() - i,
{
    if i < s.len() && bytes_upto(s, i) < b {
        lemma_place_from(s, b, c, i + 1);
    }
}

proof fn lemma_bytes_upto(s: Seq<char>, k: int)
    requires
        0 <= k <= s.len(),
    ensures
        0 <= bytes_upto(s, k) <= 4 * k,
    decreases k,
{
    if k > 0 {
        lemma_bytes_upto(s, k - 1);
    }
}

/// The first place at or after `at` that has `b` bytes before it; `before` is
/// how many are before `at`, and what is before the place comes back too.
fn walk(v: &Vec<char>, at: usize, before: u128, b: usize) -> (r: (usize, u128))
    requires
        at <= v@.len(),
        before == bytes_upto(v@, at as int),
    ensures
        r.0 == place_of(v@, b as int, at as int),
        r.0 <= v@.len(),
        r.1 == bytes_upto(v@, r.0 as int),
{
    let n: usize = v.len();
    let mut i: usize = at;
    let mut bytes: u128 = before;
    while i < n && bytes < b as u128
        invariant
            at <= i <= n,
            n == v@.len(),
            bytes == bytes_upto(v@, i as int),
            place_of(v@, b as int, at as int) == place_of(v@, b as int, i as int),
        decreases n - i,
    {
        let c: char = v[i];
        proof {
            lemma_bytes_upto(v@, i as int);
        }
        bytes = bytes + if c <= '\u{7f}' {
            1
        } else if c <= '\u{7ff}' {
            2
        } else if c <= '\u{ffff}' {
            3
        } else {
            4
        };
        i += 1;
    }
    (i, bytes)
}

/// Where a regular expression is found in a text, counted in characters, and
/// what a template becomes at each place.
pub(crate) fn find_hits(pattern: &str, text: &str, template: &str) -> (r: Option<Vec<Hit>>)
    ensures
        match r {
            Some(v) => found_in(pattern@, text@, template@) == Some(hit_views(v@))
                && hits_in_order(hit_views(v@), text@.len() as int),
            None => found_in(pattern@, text@, template@) is None,
        },
{
    let raw: Vec<Hit> = match match_bytes(pattern, text, template) {
        Some(raw) => raw,
        None => {
            return None;
        },
    };
    let v: Vec<char> = chars_of(text);
    let ghost hits = hit_views(raw@);
    let ghost want = hits.map_values(|h: HitView| in_characters(text@, h));
    let mut out: Vec<Hit> = Vec::new();
    let mut at: usize = 0;
    let mut bytes: u128 = 0;
    let mut k: usize = 0;
    assert(hit_views(out@) =~= want.take(0));
    while k < raw.len()
        invariant
            0 <= k <= raw@.len(),
            v@ == text@,
            hits == hit_views(raw@),
            one_after_another(hits),
            want == hits.map_values(|h: HitView| in_characters(text@, h)),
            at <= v@.len(),
            bytes == bytes_upto(v@, at as int),
            k == 0 ==> at == 0,
            k > 0 ==> at == place_of(text@, hits[k - 1].to, 0),
            hit_views(out@) == want.take(k as int),
        decreases raw@.len() - k,
    {
        let ghost h = hits[k as int];
        assert(h == raw@[k as int]@);
        proof {
            if k > 0 {
                assert(hits[k - 1].to <= hits[k as int].from);
                lemma_place_goes_on(text@, hits[k - 1].to, h.from);
            }
            lemma_place_goes_on(text@, h.from, h.to);
        }
        let (from, upto_from) = walk(&v, at, bytes, raw[k].from);
        let (to, upto_to) = walk(&v, from, upto_from, raw[k].to);
        at = to;
        bytes = upto_to;
        let hit: Hit = Hit { from, to, with: copied(raw[k].with.as_str()) };
        let ghost before = hit_views(out@);
        out.push(hit);
        proof {
            assert(hit@ == in_characters(text@, h));
            assert(hit_views(out@) =~= before.push(hit@));
            assert(want.take(k + 1) =~= want.take(k as int).push(want[k as int]));
        }
        k += 1;
    }
    proof {
        assert(want.take(want.len() as int) =~= want);
        assert forall|j: int| 0 <= j < want.len() implies 0 <= (#[trigger] want[j]).from
            <= want[j].to && want[j].to <= text@.len() by {
            assert(hits[j].from <= hits[j].to);
            lemma_place_goes_on(text@, hits[j].from, hits[j].to);
            lemma_place_of(text@, hits[j].from, 0);
            lemma_place_of(text@, hits[j].to, 0);
        }
        assert forall|i: int, j: int| 0 <= i < j < want.len() implies (#[trigger] want[i]).to <= (
        #[trigger] want[j]).from by {
            assert(hits[i].to <= hits[j].from);
            lemma_place_goes_on(text@, hits[i].to, hits[j].from);
        }
    }
    Some(out)
}

/// `regex::escape` puts a backslash before each character that means something
/// of its own in a regular expression.
#[verifier::external_body]
pub(crate) fn literal(text: &str) -> (s: String)
    ensures
        s@ == regex_literal(text@),
{
    regex::escape(text)
}

/// Whether a pattern has a capital in it.
pub open spec fn has_capital(s: Seq<char>) -> bool {
    exists|k: int| 0 <= k < s.len() && is_capital(#[trigger] s[k])
}

/// The regular expression that a pattern stands for: it is taken as it is, and
/// with `fold` upper and lower case are one.
pub open spec fn expression(pattern: Seq<char>, as_text: bool, fold: bool) -> Seq<char> {
    let p = if as_text {
        regex_literal(pattern)
    } else {
        pattern
    };
    if fold {
        "(?i)"@ + p
    } else {
        p
    }
}

/// The first hit that begins after `at`, else the first of all.
pub open spec fn hit_after(hits: Seq<HitView>, at: int, k: int) -> int
    decreases hits.len() - k,
{
    if k >= hits.len() {
        0
    } else if hits[k].from > at {
        k
    } else {
        hit_after(hits, at, k + 1)
    }
}

/// The last of the first `k` hits that begins before `at`, else the last of
/// all.
pub open spec fn hit_before(hits: Seq<HitView>, at: int, k: int) -> int
    decreases k,
{
    if k <= 0 {
        hits.len() - 1
    } else if hits[k - 1].from < at {
        k - 1
    } else {
        hit_before(hits, at, k - 1)
    }
}

impl EditorView {
    /// Where the pattern is found in the text: a pattern without a capital
    /// finds either case, where that is wanted.
    pub open spec fn hits_of(self, pattern: Seq<char>) -> Option<Seq<HitView>> {
        found_in(
            expression(pattern, false, self.settings.smart_case && !has_capital(pattern)),
            self.text(),
            Seq::empty(),
        )
    }

    /// With a hit selected.
    pub open spec fn selecting_hit(self, hit: HitView) -> EditorView {
        EditorView {
            anchor: hit.from,
            cursor: if hit.from < hit.to {
                most(prev_grapheme(self.text(), hit.to), hit.from)
            } else {
                hit.from
            },
            ..self
        }.aiming_here()
    }

    /// With the next place of the pattern selected, or the one before; round
    /// the end of the text.
    #[verifier::opaque]
    pub open spec fn looking(self, pattern: Seq<char>, forward: bool) -> EditorView {
        match self.hits_of(pattern) {
            None => self.saying(say::bad_pattern_text(pattern)),
            Some(hits) => if hits.len() == 0 {
                self.saying(say::not_found_text(pattern))
            } else if forward {
                self.selecting_hit(hits[hit_after(hits, self.cursor, 0)])
            } else {
                self.selecting_hit(
                    hits[hit_before(hits, self.selection_start(), hits.len() as int)],
                )
            },
        }
    }

    /// Looking for the pattern again that was looked for last.
    #[verifier::opaque]
    pub open spec fn looking_again(self, forward: bool) -> EditorView {
        match self.memory.pattern {
            Some(pattern) => self.looking(pattern, forward),
            None => self.saying(say::nothing_searched_text()),
        }
    }
}

/// Whether a pattern has a capital in it.
fn with_capital(s: &str) -> (r: bool)
    ensures
        r == has_capital(s@),
{
    let chars: Vec<char> = chars_of(s);
    let mut i: usize = 0;
    while i < chars.len()
        invariant
            0 <= i <= chars@.len(),
            chars@ == s@,
            forall|k: int| 0 <= k < i ==> !is_capital(#[trigger] s@[k]),
        decreases chars@.len() - i,
    {
        if capital(chars[i]) {
            assert(is_capital(s@[i as int]));
            return true;
        }
        i += 1;
    }
    false
}

/// The regular expression that a pattern stands for.
fn make_expression(pattern: &str, as_text: bool, fold: bool) -> (s: String)
    ensures
        s@ == expression(pattern@, as_text, fold),
{
    let p: String = if as_text {
        literal(pattern)
    } else {
        copied(pattern)
    };
    if fold {
        let mut s: String = copied("(?i)");
        s.push_str(p.as_str());
        s
    } else {
        p
    }
}

impl Editor {
    /// Selects the next place of the pattern, or the one before.
    pub fn look(&mut self, pattern: &str, forward: bool)
        requires
            old(self).wf(),
        ensures
            final(self).wf(),
            final(self)@ == old(self)@.looking(pattern@, forward),
    {
        proof {
            reveal(EditorView::looking);
        }
        let fold: bool = self.settings.smart_case && !with_capital(pattern);
        let re: String = make_expression(pattern, false, fold);
        let text: String = self.current_buffer().text();
        proof {
            reveal_strlit("");
            assert(""@ =~= Seq::empty());
        }
        match find_hits(re.as_str(), text.as_str(), "") {
            None => {
                self.status = say::bad_pattern(pattern);
            },
            Some(hits) => {
                let ghost all = hit_views(hits@);
                let n: usize = hits.len();
                assert(all.len() == n);
                if n == 0 {
                    self.status = say::not_found(pattern);
                    return;
                }
                let mut k: usize = 0;
                if forward {
                    let at: usize = self.cursor;
                    while k < n && hits[k].from <= at
                        invariant
                            0 <= k <= n == hits@.len(),
                            all == hit_views(hits@),
                            hit_after(all, at as int, 0) == hit_after(all, at as int, k as int),
                        decreases n - k,
                    {
                        assert(all[k as int] == hits@[k as int]@);
                        k += 1;
                    }
                    if k < n {
                        assert(all[k as int] == hits@[k as int]@);
                    } else {
                        k = 0;
                    }
                } else {
                    let (at, _) = self.selection();
                    k = n;
                    while k > 0 && hits[k - 1].from >= at
                        invariant
                            0 <= k <= n == hits@.len(),
                            all == hit_views(hits@),
                            hit_before(all, at as int, n as int) == hit_before(
                                all,
                                at as int,
                                k as int,
                            ),
                        decreases k,
                    {
                        assert(all[k - 1] == hits@[k - 1]@);
                        k -= 1;
                    }
                    if k > 0 {
                        assert(all[k - 1] == hits@[k - 1]@);
                        k = k - 1;
                    } else {
                        k = n - 1;
                    }
                }
                assert(all[k as int] == hits@[k as int]@);
                let (from, to) = (hits[k].from, hits[k].to);
                let mut on: usize = from;
                if from < to {
                    let back: usize = find_prev_grapheme(self.rope(), to);
                    if back >= from {
                        on = back;
                    }
                }
                self.anchor = from;
                self.cursor = on;
                self.refresh_goal_column();
            },
        }
    }

    /// `n` and `N`: looks for the pattern again that was looked for last.
    pub fn look_again(&mut self, forward: bool)
        requires
            old(self).wf(),
        ensures
            final(self).wf(),
            final(self)@ == old(self)@.looking_again(forward),
    {
        proof {
            reveal(EditorView::looking_again);
        }
        let last: Option<String> = match &self.memory.pattern {
            Some(p) => Some(copied(p.as_str())),
            None => None,
        };
        match last {
            Some(p) => {
                self.look(p.as_str(), forward);
            },
            None => {
                self.status = say::nothing_searched();
            },
        }
    }
}

// ---- Replacing ------------------------------------------------------------

/// Which lines are meant, counted from zero.
#[derive(Debug)]
pub enum Lines {
    /// Those that the selection touches.
    Selected,
    All,
    /// From one line to another.
    Span(usize, usize),
    /// These.
    List(Vec<usize>),
}

/// What [`Lines`] says.
pub enum LinesView {
    Selected,
    All,
    Span(int, int),
    List(Seq<usize>),
}

impl View for Lines {
    type V = LinesView;

    open spec fn view(&self) -> LinesView {
        match *self {
            Lines::Selected => LinesView::Selected,
            Lines::All => LinesView::All,
            Lines::Span(a, b) => LinesView::Span(a as int, b as int),
            Lines::List(v) => LinesView::List(v@),
        }
    }
}

/// Whether `l` is one of the numbers.
pub open spec fn is_listed(v: Seq<usize>, l: int) -> bool {
    exists|k: int| 0 <= k < v.len() && #[trigger] v[k] == l
}

/// A replacement to be made.
#[derive(Debug)]
pub struct Substitution {
    pub lines: Lines,
    pub pattern: String,
    pub with: String,
    /// Every place on a line, not only the first.
    pub every: bool,
    /// Upper and lower case are one.
    pub fold: bool,
    /// Both sides are taken as the characters they are.
    pub as_text: bool,
    /// Only count.
    pub count: bool,
}

/// What a [`Substitution`] says.
pub struct SubstitutionView {
    pub lines: LinesView,
    pub pattern: Seq<char>,
    pub with: Seq<char>,
    pub every: bool,
    pub fold: bool,
    pub as_text: bool,
    pub count: bool,
}

impl View for Substitution {
    type V = SubstitutionView;

    open spec fn view(&self) -> SubstitutionView {
        SubstitutionView {
            lines: self.lines@,
            pattern: self.pattern@,
            with: self.with@,
            every: self.every,
            fold: self.fold,
            as_text: self.as_text,
            count: self.count,
        }
    }
}

/// What a replacement says, with `\n` for a line break and `\t` for a tab. With
/// `as_text` a `$` is a `$`.
pub open spec fn template(s: Seq<char>, as_text: bool) -> Seq<char>
    decreases s.len(),
{
    if s.len() == 0 {
        Seq::empty()
    } else if s.len() >= 2 && s[0] == '\\' && s[1] == 'n' {
        seq!['\n'] + template(s.skip(2), as_text)
    } else if s.len() >= 2 && s[0] == '\\' && s[1] == 't' {
        seq!['\t'] + template(s.skip(2), as_text)
    } else if as_text && s[0] == '$' {
        seq!['$', '$'] + template(s.skip(1), as_text)
    } else {
        seq![s[0]] + template(s.skip(1), as_text)
    }
}

/// The first `n` hits replaced in `s`, up to the end of the last of them.
pub open spec fn replaced_upto(s: Seq<char>, hits: Seq<HitView>, n: int) -> Seq<char>
    decreases n,
{
    if n <= 0 {
        Seq::empty()
    } else {
        let from = if n == 1 {
            0
        } else {
            hits[n - 2].to
        };
        replaced_upto(s, hits, n - 1) + s.subrange(from, hits[n - 1].from) + hits[n - 1].with
    }
}

/// The first `n` hits replaced in `s`.
pub open spec fn replaced(s: Seq<char>, hits: Seq<HitView>, n: int) -> Seq<char> {
    if n <= 0 {
        s
    } else {
        replaced_upto(s, hits, n) + s.skip(hits[n - 1].to)
    }
}

/// A text with replacements made, and how many; none where the pattern is no
/// regular expression.
pub struct Done {
    pub text: Seq<char>,
    pub count: int,
}

impl EditorView {
    /// Whether line `l` is meant.
    pub open spec fn means(self, lines: LinesView, l: int) -> bool {
        match lines {
            LinesView::Selected => self.first_selected_line() <= l <= self.last_selected_line(),
            LinesView::All => true,
            LinesView::Span(a, b) => a <= l <= b,
            LinesView::List(v) => is_listed(v, l),
        }
    }

    /// Line `l` with the replacements made in it.
    pub open spec fn substituted_line(self, s: SubstitutionView, l: int) -> Option<Done> {
        let body = line_body(self.text(), l);
        let end = line_text(self.text(), l).skip(body.len() as int);
        if !self.means(s.lines, l) {
            Some(Done { text: line_text(self.text(), l), count: 0 })
        } else {
            match found_in(
                expression(s.pattern, s.as_text, s.fold),
                body,
                template(s.with, s.as_text),
            ) {
                None => None,
                Some(hits) => {
                    let n = if s.every {
                        hits.len() as int
                    } else {
                        least(hits.len() as int, 1)
                    };
                    Some(Done { text: replaced(body, hits, n) + end, count: n })
                },
            }
        }
    }

    /// The first `n` lines with the replacements made in them.
    pub open spec fn substituted(self, s: SubstitutionView, n: int) -> Option<Done>
        decreases n,
    {
        if n <= 0 {
            Some(Done { text: Seq::empty(), count: 0 })
        } else {
            match (self.substituted(s, n - 1), self.substituted_line(s, n - 1)) {
                (Some(a), Some(b)) => Some(
                    Done {
                        text: a.text + b.text,
                        count: least(a.count + b.count, usize::MAX as int),
                    },
                ),
                _ => None,
            }
        }
    }

    /// With the replacements made, as one edit.
    #[verifier::opaque]
    pub open spec fn substituting(self, s: SubstitutionView) -> EditorView {
        match self.substituted(s, line_count(self.text())) {
            None => self.saying(say::bad_pattern_text(s.pattern)),
            Some(done) => if done.count == 0 {
                self.saying(say::not_found_text(s.pattern))
            } else if s.count {
                self.saying(say::counted_places_text(done.count as nat))
            } else if self.buffer().readonly {
                self.saying(say::readonly_text())
            } else {
                EditorView {
                    anchor: self.cursor,
                    extend: false,
                    ..self.announcing().writing(0, self.text().len() as int, done.text)
                }.clamped().saying(say::replaced_places_text(done.count as nat))
            },
        }
    }
}

/// What a replacement says.
fn make_template(s: &str, as_text: bool) -> (r: String)
    ensures
        r@ == template(s@, as_text),
{
    let v: Vec<char> = chars_of(s);
    let n: usize = v.len();
    let mut out: String = String::new();
    let mut i: usize = 0;
    assert(s@.skip(0) =~= s@);
    assert(out@ + template(s@, as_text) =~= template(s@, as_text));
    while i < n
        invariant
            0 <= i <= n,
            n == v@.len(),
            v@ == s@,
            out@ + template(s@.skip(i as int), as_text) == template(s@, as_text),
        decreases n - i,
    {
        let ghost rest = s@.skip(i as int);
        let ghost before = out@;
        assert(rest[0] == v@[i as int]);
        if i + 1 < n && v[i] == '\\' && v[i + 1] == 'n' {
            assert(rest.skip(2) =~= s@.skip(i + 2));
            out.push('\n');
            assert(out@ + template(s@.skip(i + 2), as_text) =~= before + template(rest, as_text));
            i += 2;
        } else if i + 1 < n && v[i] == '\\' && v[i + 1] == 't' {
            assert(rest.skip(2) =~= s@.skip(i + 2));
            out.push('\t');
            assert(out@ + template(s@.skip(i + 2), as_text) =~= before + template(rest, as_text));
            i += 2;
        } else if as_text && v[i] == '$' {
            assert(rest.skip(1) =~= s@.skip(i + 1));
            out.push('$');
            out.push('$');
            assert(out@ + template(s@.skip(i + 1), as_text) =~= before + template(rest, as_text));
            i += 1;
        } else {
            assert(rest.skip(1) =~= s@.skip(i + 1));
            out.push(v[i]);
            assert(out@ + template(s@.skip(i + 1), as_text) =~= before + template(rest, as_text));
            i += 1;
        }
    }
    assert(template(s@.skip(n as int), as_text) =~= Seq::empty());
    assert(out@ =~= template(s@, as_text));
    out
}

/// Puts a text after another with the first `n` hits replaced in it.
fn push_replaced(out: &mut String, body: &Vec<char>, hits: &Vec<Hit>, n: usize)
    requires
        n <= hits@.len(),
        hits_in_order(hit_views(hits@), body@.len() as int),
    ensures
        final(out)@ == old(out)@ + replaced(body@, hit_views(hits@), n as int),
{
    let ghost all = hit_views(hits@);
    let ghost start = out@;
    let mut at: usize = 0;
    let mut k: usize = 0;
    assert(start + replaced_upto(body@, all, 0) =~= start);
    while k < n
        invariant
            0 <= k <= n <= hits@.len(),
            all == hit_views(hits@),
            start == old(out)@,
            hits_in_order(all, body@.len() as int),
            at == (if k == 0 {
                0
            } else {
                all[k - 1].to
            }),
            at <= body@.len(),
            out@ == start + replaced_upto(body@, all, k as int),
        decreases n - k,
    {
        assert(all[k as int] == hits@[k as int]@);
        if k > 0 {
            assert(all[k - 1].to <= all[k as int].from);
        }
        let piece: String = string_between(body, at, hits[k].from);
        out.push_str(piece.as_str());
        out.push_str(hits[k].with.as_str());
        at = hits[k].to;
        assert(out@ =~= start + replaced_upto(body@, all, k + 1));
        k += 1;
    }
    let tail: String = string_between(body, at, body.len());
    out.push_str(tail.as_str());
    proof {
        assert(body@.skip(at as int) =~= tail@);
        assert(out@ =~= start + replaced(body@, all, n as int));
    }
}

/// Whether `l` is one of the numbers.
fn lists(v: &Vec<usize>, l: usize) -> (r: bool)
    ensures
        r == is_listed(v@, l as int),
{
    let mut k: usize = 0;
    while k < v.len()
        invariant
            0 <= k <= v@.len(),
            forall|j: int| 0 <= j < k ==> #[trigger] v@[j] != l,
        decreases v@.len() - k,
    {
        if v[k] == l {
            return true;
        }
        k += 1;
    }
    false
}

impl Editor {
    /// Whether line `l` is meant.
    fn is_meant(&self, lines: &Lines, first: usize, last: usize, l: usize) -> (r: bool)
        requires
            first == self@.first_selected_line(),
            last == self@.last_selected_line(),
        ensures
            r == self@.means(lines@, l as int),
    {
        match lines {
            Lines::Selected => first <= l && l <= last,
            Lines::All => true,
            Lines::Span(a, b) => *a <= l && l <= *b,
            Lines::List(v) => lists(v, l),
        }
    }

    /// `:s`: makes the replacements, as one edit.
    pub fn substitute(&mut self, s: &Substitution)
        requires
            old(self).wf(),
        ensures
            final(self).wf(),
            final(self)@ == old(self)@.substituting(s@),
    {
        proof {
            reveal(EditorView::substituting);
        }
        let re: String = make_expression(s.pattern.as_str(), s.as_text, s.fold);
        let with: String = make_template(s.with.as_str(), s.as_text);
        let (first, last) = self.selected_lines();
        let lines: usize = self.current_buffer().line_count();
        let mut out: String = String::new();
        let mut count: usize = 0;
        let mut l: usize = 0;
        assert(out@ =~= Seq::empty());
        while l < lines
            invariant
                0 <= l <= lines,
                *self == *old(self),
                self.wf(),
                lines == line_count(self@.text()),
                re@ == expression(s@.pattern, s@.as_text, s@.fold),
                with@ == template(s@.with, s@.as_text),
                first == self@.first_selected_line(),
                last == self@.last_selected_line(),
                self@.substituted(s@, l as int) == Some(Done { text: out@, count: count as int }),
            decreases lines - l,
        {
            let ghost before = out@;
            let line: String = crate::rope::rope_line(self.rope(), l);
            if !self.is_meant(&s.lines, first, last, l) {
                out.push_str(line.as_str());
            } else {
                let body: Vec<char> = self.current_buffer().line_chars(l);
                let whole: Vec<char> = chars_of(line.as_str());
                let text: String = string_between(&body, 0, body.len());
                assert(text@ =~= body@);
                match find_hits(re.as_str(), text.as_str(), with.as_str()) {
                    None => {
                        proof {
                            reveal(EditorView::substituting);
                            lemma_no_expression(self@, s@, l + 1, lines as int);
                        }
                        self.status = say::bad_pattern(s.pattern.as_str());
                        return;
                    },
                    Some(hits) => {
                        let n: usize = if s.every || hits.len() == 0 {
                            hits.len()
                        } else {
                            1
                        };
                        assert(hit_views(hits@).len() == hits@.len());
                        push_replaced(&mut out, &body, &hits, n);
                        let end: String = string_between(&whole, body.len(), whole.len());
                        assert(end@ =~= line@.skip(body@.len() as int));
                        out.push_str(end.as_str());
                        count = count.saturating_add(n);
                        assert(out@ =~= before + (replaced(body@, hit_views(hits@), n as int)
                            + end@));
                    },
                }
            }
            l += 1;
        }
        if count == 0 {
            self.status = say::not_found(s.pattern.as_str());
            return;
        }
        if s.count {
            self.status = say::counted_places(count);
            return;
        }
        if self.refuse_readonly() {
            return;
        }
        self.snapshot();
        let n: usize = self.current_buffer().char_count();
        let _ = self.overwrite(0, n, out.as_str());
        self.anchor = self.cursor;
        self.extend = false;
        self.clamp_cursor();
        self.status = say::replaced_places(count);
    }
}

proof fn lemma_no_expression(v: EditorView, s: SubstitutionView, k: int, n: int)
    requires
        0 <= k <= n,
        v.substituted(s, k) is None,
    ensures
        v.substituted(s, n) is None,
    decreases n - k,
{
    if k < n {
        assert(v.substituted(s, k + 1) is None);
        lemma_no_expression(v, s, k + 1, n);
    }
}

} // verus!

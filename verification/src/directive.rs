//! The `[yumete]` line of a wiki, which names another file of it.

use vstd::prelude::*;
use ropey::Rope;
use crate::article::{Article, WikiView};
use crate::editor::{Editor, EditorView, Page};
use crate::path::{FilePath, path_of, PathView};
use crate::rope::{rope_chars, rope_line};
use crate::say;
use crate::text::{
    after_space, chars_of, copied, find_stand, line_count, line_text, next_stand, same_text, space,
    stands_at, string_between, trim, trimmed,
};
use crate::wiki::{Source, SourceView};

verus! {

/// What became of the file that a `[yumete]` line names.
#[derive(Debug, Clone, PartialEq, Eq)]
pub struct WikiInclude {
    /// The name as it is written.
    pub named: String,
    /// The file it stands for, there or not.
    pub path: FilePath,
    /// What the last reading made of it; none where it was not reached for.
    pub state: Option<Source>,
}

/// What a [`WikiInclude`] says.
#[verifier::ext_equal]
pub struct Directive {
    pub named: Seq<char>,
    pub path: PathView,
    pub state: Option<SourceView>,
}

impl View for WikiInclude {
    type V = Directive;

    open spec fn view(&self) -> Directive {
        Directive {
            named: self.named@,
            path: self.path@,
            state: match self.state {
                Some(s) => Some(s@),
                None => None,
            },
        }
    }
}

/// What a line stands in: a comment of the one kind or the other, or none. A
/// comment that holds nothing but white space so far is fresh.
#[derive(Debug, Clone, Copy, PartialEq, Eq, Structural)]
pub enum Within {
    Text,
    Comment { html: bool, fresh: bool },
}

/// Where the text of a comment begins that opens at `i`, and whether it is one
/// of the kind `<!-- -->`; the other kind is `%% %%`.
pub open spec fn comment_at(s: Seq<char>, i: int) -> Option<(int, bool)> {
    if "<!--"@.is_prefix_of(s.skip(i)) {
        Some((i + "<!--"@.len(), true))
    } else if "%%"@.is_prefix_of(s.skip(i)) {
        Some((i + "%%"@.len(), false))
    } else {
        None
    }
}

/// What ends a comment.
pub open spec fn end_of(html: bool) -> Seq<char> {
    if html {
        "-->"@
    } else {
        "%%"@
    }
}

/// Whether there is nothing but white space from `i` on.
pub open spec fn is_blank_from(s: Seq<char>, i: int) -> bool {
    after_space(s, i) >= s.len()
}

/// Where the sign stands in the first comment at or after `i` that begins with
/// it, white space before it or not; `i` is in no comment. A `%%` without
/// another behind it on its line opens a comment where the sign follows or where
/// nothing does, and else none.
pub open spec fn sign_from(s: Seq<char>, sign: Seq<char>, i: int) -> Option<int>
    decreases s.len() - i,
{
    if i < 0 || i >= s.len() {
        None
    } else {
        match comment_at(s, i) {
            None => sign_from(s, sign, i + 1),
            Some((j, html)) => if sign.is_prefix_of(s.skip(after_space(s, j))) {
                Some(after_space(s, j))
            } else {
                proof {
                    lemma_comment_at(s, i);
                    lemma_next_stand(s, end_of(html), j);
                }
                match next_stand(s, end_of(html), j) {
                    None => if html {
                        None
                    } else {
                        sign_from(s, sign, j)
                    },
                    Some(e) => sign_from(s, sign, e + end_of(html).len()),
                }
            },
        }
    }
}

/// What is open behind a line, where no comment is at `i`.
pub open spec fn left_from(s: Seq<char>, i: int) -> Within
    decreases s.len() - i,
{
    if i < 0 || i >= s.len() {
        Within::Text
    } else {
        match comment_at(s, i) {
            None => left_from(s, i + 1),
            Some((j, html)) => {
                proof {
                    lemma_comment_at(s, i);
                    lemma_next_stand(s, end_of(html), j);
                }
                match next_stand(s, end_of(html), j) {
                    Some(e) => left_from(s, e + end_of(html).len()),
                    None => if html || is_blank_from(s, j) {
                        Within::Comment { html, fresh: is_blank_from(s, j) }
                    } else {
                        left_from(s, j)
                    },
                }
            },
        }
    }
}

/// What is open behind a line that stands in `w`.
pub open spec fn left_by(w: Within, s: Seq<char>) -> Within {
    match w {
        Within::Text => left_from(s, 0),
        Within::Comment { html, fresh } => match next_stand(s, end_of(html), 0) {
            Some(e) => left_from(s, e + end_of(html).len()),
            None => Within::Comment { html, fresh: fresh && is_blank_from(s, 0) },
        },
    }
}

/// What line `l` stands in.
pub open spec fn within_before(t: Seq<char>, l: int) -> Within
    decreases l,
{
    if l <= 0 {
        Within::Text
    } else {
        left_by(within_before(t, l - 1), line_text(t, l - 1))
    }
}

/// Where the sign stands on a line that stands in `w`, as the first thing in a
/// comment.
pub open spec fn sign_on(w: Within, s: Seq<char>, sign: Seq<char>) -> Option<int> {
    match w {
        Within::Text => sign_from(s, sign, 0),
        Within::Comment { html, fresh } => if fresh && sign.is_prefix_of(
            s.skip(after_space(s, 0)),
        ) {
            Some(after_space(s, 0))
        } else {
            match next_stand(s, end_of(html), 0) {
                Some(e) => sign_from(s, sign, e + end_of(html).len()),
                None => None,
            }
        },
    }
}

/// What stands in a line after the sign of a comment, up to the next sign.
pub open spec fn after_sign(w: Within, s: Seq<char>, sign: Seq<char>) -> Option<Seq<char>> {
    match sign_on(w, s, sign) {
        None => None,
        Some(i) => {
            let a = i + sign.len();
            match next_stand(s, sign, a) {
                Some(b) => Some(s.subrange(a, b)),
                None => Some(s.skip(a)),
            }
        },
    }
}

/// A comment that opens has its text after where it opens.
pub proof fn lemma_comment_at(s: Seq<char>, i: int)
    requires
        0 <= i <= s.len(),
    ensures
        comment_at(s, i) matches Some((j, html)) ==> i < j <= s.len(),
        end_of(true).len() > 0,
        end_of(false).len() > 0,
{
    reveal_strlit("<!--");
    reveal_strlit("-->");
    reveal_strlit("%%");
}

/// What is found stands where it was looked for, and within the text.
pub proof fn lemma_next_stand(s: Seq<char>, lit: Seq<char>, i: int)
    ensures
        next_stand(s, lit, i) matches Some(e) ==> i <= e && e + lit.len() <= s.len(),
    decreases s.len() - i,
{
    if i + lit.len() <= s.len() && !lit.is_prefix_of(s.skip(i)) {
        lemma_next_stand(s, lit, i + 1);
    }
}

/// `s` without the line ends after it.
pub open spec fn without_line_ends(s: Seq<char>) -> Seq<char>
    decreases s.len(),
{
    if s.len() > 0 && (s.last() == '\n' || s.last() == '\r') {
        without_line_ends(s.drop_last())
    } else {
        s
    }
}

/// `s` without `part` after it, however often it stands there.
pub open spec fn without_end(s: Seq<char>, part: Seq<char>) -> Seq<char>
    decreases s.len(),
{
    if 0 < part.len() <= s.len() && s.skip(s.len() - part.len()) == part {
        without_end(s.take(s.len() - part.len()), part)
    } else {
        s
    }
}

/// The name that a line gives after `[yumete]`, without the end of the comment
/// it stands in; the line itself stands in `w`. Only a comment gives one, and
/// only where the sign is the first thing in it.
pub open spec fn named_by(w: Within, line: Seq<char>) -> Option<Seq<char>> {
    match after_sign(w, line, "[yumete]"@) {
        None => None,
        Some(rest) => {
            let name = trimmed(
                without_end(without_end(without_line_ends(rest), "-->"@), "%%"@),
            );
            if name.len() > 0 {
                Some(name)
            } else {
                None
            }
        },
    }
}

/// Whether a source is the file `path` that was called `named`; `same` says
/// whether the source's path and `path` lead to one file.
pub open spec fn is_source_of(
    source: SourceView,
    named: Seq<char>,
    path: PathView,
    same: bool,
) -> bool {
    match source {
        SourceView::Read { .. } => same,
        SourceView::Missing { path: p } => same || p.same(path),
        SourceView::Unreadable { path: p, .. } => same || p.same(path),
        SourceView::Again { path: p } => same || p.same(path),
        SourceView::Refused { named: n, .. } => n == named,
        SourceView::TooMany { named: n } => n == named,
    }
}

/// The first source at or after `i` that is the file `path`.
pub open spec fn source_from(
    sources: Seq<SourceView>,
    named: Seq<char>,
    path: PathView,
    same: Seq<bool>,
    i: int,
) -> Option<SourceView>
    decreases sources.len() - i,
{
    if i >= sources.len() {
        None
    } else if is_source_of(sources[i], named, path, i < same.len() && same[i]) {
        Some(sources[i])
    } else {
        source_from(sources, named, path, same, i + 1)
    }
}

impl EditorView {
    /// The file that the line under the cursor names: the name, and the path
    /// seen from the file the line is in. Only a file of the wiki names files.
    pub open spec fn named_here(self) -> Option<(Seq<char>, PathView)> {
        match self.buffer().path {
            None => None,
            Some(here) => if !self.is_wiki_file(here) {
                None
            } else {
                match named_by(
                    within_before(self.text(), self.cursor_line()),
                    line_text(self.text(), self.cursor_line()),
                ) {
                    None => None,
                    Some(name) => Some(
                        (
                            name,
                            (match here.parent() {
                                Some(dir) => dir,
                                None => path_of("."@),
                            }).join(path_of(name)),
                        ),
                    ),
                }
            },
        }
    }

    /// What became of the file that the line under the cursor names. For each
    /// source `same` says whether its path and that file's lead to one file.
    pub open spec fn directive_here(self, same: Seq<bool>) -> Option<Directive> {
        match self.named_here() {
            None => None,
            Some((named, path)) => Some(
                Directive {
                    named,
                    path,
                    state: source_from(self.wiki.sources, named, path, same, 0),
                },
            ),
        }
    }

    /// Where the first entry of the word under the cursor is written.
    pub open spec fn target_here(self) -> Option<(PathView, int)> {
        match self.article_here() {
            Some(article) => if article.parts.len() > 0 {
                Some((article.parts[0].source, article.parts[0].line))
            } else {
                None
            },
            None => None,
        }
    }

    /// The entry for the floating panel: none where the cursor stands on what
    /// explains itself, or where the wiki has a panel of its own.
    pub open spec fn article_floating(self) -> Option<Article> {
        if self.named_here() is Some || self.showing(Page::Wiki) is Some || self.detail is Some {
            None
        } else {
            self.article_here()
        }
    }
}

/// Takes `part` off the end of `v`, however often it stands there.
fn strip_end(v: &mut Vec<char>, part: &Vec<char>)
    ensures
        final(v)@ == without_end(old(v)@, part@),
{
    let ghost start = v@;
    while part.len() > 0 && part.len() <= v.len() && stands_at(v, v.len() - part.len(), part)
        invariant
            start == old(v)@,
            without_end(start, part@) == without_end(v@, part@),
        decreases v@.len(),
    {
        let k: usize = v.len() - part.len();
        proof {
            let tail = v@.skip(k as int);
            assert(tail.subrange(0, part@.len() as int) =~= tail);
        }
        v.truncate(k);
    }
    proof {
        if 0 < part@.len() <= v@.len() {
            let tail = v@.skip(v@.len() - part@.len());
            if tail == part@ {
                assert(tail.subrange(0, part@.len() as int) =~= tail);
            }
        }
    }
}

/// The first position at or after `i` that is not white space.
fn skip_space(v: &Vec<char>, i: usize) -> (r: usize)
    requires
        i <= v@.len(),
    ensures
        r == after_space(v@, i as int),
        i <= r <= v@.len(),
{
    let mut k: usize = i;
    while k < v.len() && space(v[k])
        invariant
            i <= k <= v@.len(),
            after_space(v@, i as int) == after_space(v@, k as int),
        decreases v@.len() - k,
    {
        k += 1;
    }
    k
}

/// Whether a comment opens at `i`, where its text begins, and whether it is one
/// of the kind `<!-- -->`.
fn find_comment(v: &Vec<char>, i: usize) -> (r: Option<(usize, bool)>)
    requires
        i <= v@.len(),
    ensures
        match r {
            Some((j, html)) => comment_at(v@, i as int) == Some((j as int, html)) && i < j
                <= v@.len(),
            None => comment_at(v@, i as int) is None,
        },
{
    proof {
        lemma_comment_at(v@, i as int);
    }
    let open: Vec<char> = chars_of("<!--");
    if stands_at(v, i, &open) {
        return Some((i + open.len(), true));
    }
    let both: Vec<char> = chars_of("%%");
    if stands_at(v, i, &both) {
        Some((i + both.len(), false))
    } else {
        None
    }
}

/// Where a comment ends that is open at `i`: behind what ends it.
fn find_comment_end(v: &Vec<char>, html: bool, i: usize) -> (r: Option<usize>)
    requires
        i <= v@.len(),
    ensures
        match r {
            Some(k) => next_stand(v@, end_of(html), i as int) == Some(k - end_of(html).len()) && i
                < k <= v@.len(),
            None => next_stand(v@, end_of(html), i as int) is None,
        },
{
    proof {
        lemma_comment_at(v@, i as int);
    }
    let end: Vec<char> = chars_of(
        if html {
            "-->"
        } else {
            "%%"
        },
    );
    match find_stand(v, &end, i) {
        Some(e) => Some(e + end.len()),
        None => None,
    }
}

/// Where the sign stands in the first comment at or after `from` that begins
/// with it.
fn find_sign(v: &Vec<char>, sign: &Vec<char>, from: usize) -> (r: Option<usize>)
    requires
        from <= v@.len(),
    ensures
        match r {
            Some(k) => sign_from(v@, sign@, from as int) == Some(k as int) && k + sign@.len()
                <= v@.len() <= usize::MAX,
            None => sign_from(v@, sign@, from as int) is None,
        },
{
    let mut i: usize = from;
    while i < v.len()
        invariant
            from <= i <= v@.len(),
            sign_from(v@, sign@, from as int) == sign_from(v@, sign@, i as int),
        decreases v@.len() - i,
    {
        match find_comment(v, i) {
            None => {
                i += 1;
            },
            Some((j, html)) => {
                let k: usize = skip_space(v, j);
                if stands_at(v, k, sign) {
                    return Some(k);
                }
                match find_comment_end(v, html, j) {
                    Some(e) => {
                        i = e;
                    },
                    None => if html {
                        return None;
                    } else {
                        i = j;
                    },
                }
            },
        }
    }
    None
}

/// What is open behind a line, where no comment is at `from`.
fn find_left(v: &Vec<char>, from: usize) -> (w: Within)
    requires
        from <= v@.len(),
    ensures
        w == left_from(v@, from as int),
{
    let mut i: usize = from;
    while i < v.len()
        invariant
            from <= i <= v@.len(),
            left_from(v@, from as int) == left_from(v@, i as int),
        decreases v@.len() - i,
    {
        match find_comment(v, i) {
            None => {
                i += 1;
            },
            Some((j, html)) => match find_comment_end(v, html, j) {
                Some(e) => {
                    i = e;
                },
                None => {
                    let fresh: bool = skip_space(v, j) >= v.len();
                    if html || fresh {
                        return Within::Comment { html, fresh };
                    }
                    i = j;
                },
            },
        }
    }
    Within::Text
}

/// What is open behind a line that stands in `w`.
fn leave_line(w: Within, v: &Vec<char>) -> (r: Within)
    ensures
        r == left_by(w, v@),
{
    match w {
        Within::Text => find_left(v, 0),
        Within::Comment { html, fresh } => match find_comment_end(v, html, 0) {
            Some(e) => find_left(v, e),
            None => {
                let blank: bool = skip_space(v, 0) >= v.len();
                Within::Comment { html, fresh: fresh && blank }
            },
        },
    }
}

/// Where the sign stands on a line that stands in `w`.
fn find_sign_on(w: Within, v: &Vec<char>, sign: &Vec<char>) -> (r: Option<usize>)
    ensures
        match r {
            Some(k) => sign_on(w, v@, sign@) == Some(k as int) && k + sign@.len() <= v@.len()
                <= usize::MAX,
            None => sign_on(w, v@, sign@) is None,
        },
{
    match w {
        Within::Text => find_sign(v, sign, 0),
        Within::Comment { html, fresh } => {
            let k: usize = skip_space(v, 0);
            if fresh && stands_at(v, k, sign) {
                return Some(k);
            }
            match find_comment_end(v, html, 0) {
                Some(e) => find_sign(v, sign, e),
                None => None,
            }
        },
    }
}

/// The name that a line gives after `[yumete]`; the line stands in `w`.
fn read_name(w: Within, line: &str) -> (r: Option<String>)
    ensures
        match r {
            Some(name) => named_by(w, line@) == Some(name@),
            None => named_by(w, line@) is None,
        },
{
    let v: Vec<char> = chars_of(line);
    let sign: Vec<char> = chars_of("[yumete]");
    let i: usize = match find_sign_on(w, &v, &sign) {
        Some(i) => i,
        None => return None,
    };
    let a: usize = i + sign.len();
    let b: usize = match find_stand(&v, &sign, a) {
        Some(b) => b,
        None => v.len(),
    };
    let piece: String = string_between(&v, a, b);
    assert(v@.skip(a as int) =~= v@.subrange(a as int, v@.len() as int));
    let mut rest: Vec<char> = chars_of(piece.as_str());
    let ghost start = rest@;
    assert(after_sign(w, line@, "[yumete]"@) == Some(start));
    while rest.len() > 0 && (rest[rest.len() - 1] == '\n' || rest[rest.len() - 1] == '\r')
        invariant
            without_line_ends(start) == without_line_ends(rest@),
        decreases rest@.len(),
    {
        let _ = rest.pop();
    }
    strip_end(&mut rest, &chars_of("-->"));
    strip_end(&mut rest, &chars_of("%%"));
    let text: String = string_between(&rest, 0, rest.len());
    assert(rest@.subrange(0, rest@.len() as int) =~= rest@);
    let name: &str = trim(text.as_str());
    if name.unicode_len() == 0 {
        None
    } else {
        Some(copied(name))
    }
}

impl Editor {
    /// What line `l` stands in.
    fn find_within(&self, l: usize) -> (w: Within)
        requires
            self.wf(),
            l < line_count(self@.text()),
        ensures
            w == within_before(self@.text(), l as int),
    {
        let rope: &Rope = self.rope();
        let mut w: Within = Within::Text;
        let mut k: usize = 0;
        while k < l
            invariant
                0 <= k <= l < line_count(self@.text()),
                rope_chars(*rope) == self@.text(),
                w == within_before(self@.text(), k as int),
            decreases l - k,
        {
            let line: String = rope_line(rope, k);
            w = leave_line(w, &chars_of(line.as_str()));
            k += 1;
        }
        w
    }

    /// The file that the line under the cursor names: the name, and the path.
    pub fn wiki_named_here(&self) -> (r: Option<(String, FilePath)>)
        requires
            self.wf(),
        ensures
            match r {
                Some((name, path)) => self@.named_here() == Some((name@, path@)),
                None => self@.named_here() is None,
            },
    {
        let here: &FilePath = match &self.current_buffer().path {
            Some(here) => here,
            None => return None,
        };
        if !self.is_wiki_file(here) {
            return None;
        }
        let l: usize = self.cursor_line();
        let line: String = rope_line(self.rope(), l);
        let w: Within = self.find_within(l);
        match read_name(w, line.as_str()) {
            None => None,
            Some(name) => {
                let dir: FilePath = match here.parent() {
                    Some(dir) => dir,
                    None => FilePath::new("."),
                };
                let path: FilePath = dir.join(&FilePath::new(name.as_str()));
                Some((name, path))
            },
        }
    }

    /// The `[yumete]` line under the cursor, in a file of the wiki. For each
    /// source `same` says whether its path and the named file's lead to one
    /// file.
    pub fn wiki_include_here(&self, same: &Vec<bool>) -> (r: Option<WikiInclude>)
        requires
            self.wf(),
        ensures
            match r {
                Some(d) => self@.directive_here(same@) == Some(d@),
                None => self@.directive_here(same@) is None,
            },
    {
        match self.wiki_named_here() {
            None => None,
            Some((named, path)) => {
                let state: Option<Source> = self.find_source(named.as_str(), &path, same);
                Some(WikiInclude { named, path, state })
            },
        }
    }

    /// The first source that is the file `path`.
    fn find_source(&self, named: &str, path: &FilePath, same: &Vec<bool>) -> (r: Option<Source>)
        ensures
            match r {
                Some(s) => source_from(self@.wiki.sources, named@, path@, same@, 0) == Some(s@),
                None => source_from(self@.wiki.sources, named@, path@, same@, 0) is None,
            },
    {
        let ghost all = self@.wiki.sources;
        let mut i: usize = 0;
        while i < self.wiki.sources.len()
            invariant
                0 <= i <= self.wiki.sources@.len(),
                all == self@.wiki.sources,
                source_from(all, named@, path@, same@, 0) == source_from(
                    all,
                    named@,
                    path@,
                    same@,
                    i as int,
                ),
            decreases self.wiki.sources@.len() - i,
        {
            let one: bool = i < same.len() && same[i];
            let source: &Source = &self.wiki.sources[i];
            assert(all[i as int] == source@);
            let is: bool = match source {
                Source::Read { .. } => one,
                Source::Missing { path: p } => one || p.same(path),
                Source::Unreadable { path: p, .. } => one || p.same(path),
                Source::Again { path: p } => one || p.same(path),
                Source::Refused { named: n, .. } => same_text(n.as_str(), named),
                Source::TooMany { named: n } => same_text(n.as_str(), named),
            };
            if is {
                return Some(source.copy());
            }
            i += 1;
        }
        None
    }

    /// The entry for the floating panel.
    pub fn wiki_floating(&self) -> (r: Option<WikiView<'_>>)
        requires
            self.wf(),
        ensures
            match r {
                Some(article) => self@.article_floating() == Some(article@),
                None => self@.article_floating() is None,
            },
    {
        if self.wiki_named_here().is_some() {
            return None;
        }
        if self.showing(Page::Wiki).is_some() || self.detail.is_some() {
            return None;
        }
        self.wiki_here()
    }

    /// Where the first entry of the word under the cursor is written: the file,
    /// and the line counted from zero.
    pub fn wiki_target(&self) -> (r: Option<(FilePath, usize)>)
        requires
            self.wf(),
        ensures
            match self@.article_here() {
                Some(article) => if article.parts.len() > 0 {
                    r matches Some((path, line)) && path@ == article.parts[0].source && line
                        == article.parts[0].line
                } else {
                    r is None
                },
                None => r is None,
            },
            match r {
                Some((path, line)) => self@.target_here() == Some((path@, line as int)),
                None => self@.target_here() is None,
            },
    {
        match self.wiki_here() {
            None => None,
            Some(article) => if article.parts.len() > 0 {
                assert(article@.parts[0] == article.parts@[0]@);
                Some((article.parts[0].source.copy(), article.parts[0].line))
            } else {
                None
            },
        }
    }

    /// Says that the named file could not be opened.
    pub fn wiki_include_failed(&mut self, named: &str, why: &str)
        requires
            old(self).wf(),
        ensures
            final(self).wf(),
            final(self)@ == old(self)@.saying(say::cannot_open_text(named@, why@)),
    {
        self.status = say::cannot_open(named, why);
    }
}

} // verus!

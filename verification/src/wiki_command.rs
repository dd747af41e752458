//! `:wiki`, its report, and the files it opens.

use vstd::prelude::*;
use crate::buffer::{Buffer, BufferView, scratch, Syntax};
use crate::editor::{Editor, EditorView, lemma_buffer_update, Page, Side};
use crate::missed::missed_views;
use crate::number::{decimal, decimal_of};
use crate::path::{FilePath, lemma_parent_is_shorter, path_of, PathView};
use crate::say;
use crate::state::{Panels, Settings};
use crate::text::{copied, joined_with, join_with, same_text, trim, trimmed, views};
use crate::wiki::{Mark, Source, SourceView};

verus! {

// ---- The report -----------------------------------------------------------

/// What the report says of a file that was reached for.
pub open spec fn source_text(source: SourceView, root: PathView) -> Seq<char> {
    match source {
        SourceView::Read { path, entries } => say::wiki_read_text(
            path.under(root).shown(),
            entries as nat,
        ),
        SourceView::Missing { path } => say::wiki_missing_text(path.under(root).shown()),
        SourceView::Unreadable { path, why } => say::wiki_unreadable_text(
            path.under(root).shown(),
            why,
        ),
        SourceView::Refused { named, from } => say::wiki_refused_text(
            named,
            from.under(root).shown(),
        ),
        SourceView::Again { path } => say::wiki_again_text(path.under(root).shown()),
        SourceView::TooMany { named } => say::wiki_too_many_text(named),
    }
}

/// A row of a list.
pub open spec fn item_text(s: Seq<char>) -> Seq<char> {
    "- "@ + s + "\n"@
}

/// What the report says of the files, one row each.
pub open spec fn sources_text(sources: Seq<SourceView>, root: PathView) -> Seq<char>
    decreases sources.len(),
{
    if sources.len() == 0 {
        Seq::empty()
    } else {
        sources_text(sources.drop_last(), root) + item_text(source_text(sources.last(), root))
    }
}

/// The rows of the names that are too short to be marked.
pub open spec fn short_names_text(names: Seq<(Seq<char>, Seq<usize>)>) -> Seq<char>
    decreases names.len(),
{
    if names.len() == 0 {
        Seq::empty()
    } else {
        let rest = short_names_text(names.drop_last());
        if names.last().0.len() < 2 {
            rest + item_text(names.last().0)
        } else {
            rest
        }
    }
}

/// A heading of the report.
pub open spec fn section_text(title: Seq<char>) -> Seq<char> {
    "\n## "@ + title + "\n\n"@
}

/// Five line numbers at most, and a sign where there are more.
pub open spec fn lines_text(lines: Seq<int>) -> Seq<char> {
    let shown = lines.take(crate::editor::least(lines.len() as int, 5)).map_values(
        |n: int| decimal(n as nat),
    );
    joined_with(shown, "、"@) + if lines.len() > 5 {
        "…"@
    } else {
        Seq::empty()
    }
}

/// The rows of the names that stand in the chapter unmarked.
pub open spec fn missed_text(list: Seq<(Seq<char>, Seq<int>)>) -> Seq<char>
    decreases list.len(),
{
    if list.len() == 0 {
        Seq::empty()
    } else {
        missed_text(list.drop_last()) + item_text(
            say::wiki_missed_at_text(list.last().0, lines_text(list.last().1)),
        )
    }
}

impl EditorView {
    /// The report: every file that was reached for and what it gave, the names
    /// that are too short, and those that stand in the chapter unmarked.
    pub open spec fn report(self, book: PathView, missed: Seq<(Seq<char>, Seq<int>)>) -> Seq<char> {
        let short = short_names_text(self.wiki.by_name);
        let head = "# "@ + say::wiki_title_text() + "\n\n"@ + if self.wiki.sources.len() == 0 {
            say::wiki_none_text(book.under(self.places.root).shown()) + "\n"@
        } else {
            Seq::empty()
        };
        let files = head + sources_text(self.wiki.sources, self.places.root);
        let named = if short.len() > 0 {
            files + section_text(say::wiki_unmarkable_text()) + short
        } else {
            files
        };
        if missed.len() > 0 {
            named + section_text(say::wiki_missed_text()) + missed_text(missed)
        } else {
            named
        }
    }
}

/// What the report says of a file that was reached for.
fn say_source(source: &Source, root: &FilePath) -> (s: String)
    ensures
        s@ == source_text(source@, root@),
{
    match source {
        Source::Read { path, entries } => say::wiki_read(
            path.under(root).show().as_str(),
            *entries,
        ),
        Source::Missing { path } => say::wiki_missing(path.under(root).show().as_str()),
        Source::Unreadable { path, why } => say::wiki_unreadable(
            path.under(root).show().as_str(),
            why.as_str(),
        ),
        Source::Refused { named, from } => say::wiki_refused(
            named.as_str(),
            from.under(root).show().as_str(),
        ),
        Source::Again { path } => say::wiki_again(path.under(root).show().as_str()),
        Source::TooMany { named } => say::wiki_too_many(named.as_str()),
    }
}

/// Puts a row of a list after the others.
fn push_item(out: &mut String, s: &str)
    ensures
        final(out)@ == old(out)@ + item_text(s@),
{
    out.push_str("- ");
    out.push_str(s);
    out.push_str("\n");
    assert(out@ =~= old(out)@ + item_text(s@));
}

/// Puts a heading after the rest.
fn push_section(out: &mut String, title: &str)
    ensures
        final(out)@ == old(out)@ + section_text(title@),
{
    out.push_str("\n## ");
    out.push_str(title);
    out.push_str("\n\n");
    assert(out@ =~= old(out)@ + section_text(title@));
}

/// Five line numbers at most, and a sign where there are more.
fn say_lines(lines: &Vec<usize>) -> (s: String)
    ensures
        s@ == lines_text(crate::missed::as_ints(lines@)),
{
    let ghost all = crate::missed::as_ints(lines@);
    let n: usize = if lines.len() < 5 {
        lines.len()
    } else {
        5
    };
    let ghost want = all.take(n as int).map_values(|k: int| decimal(k as nat));
    let mut shown: Vec<String> = Vec::new();
    let mut i: usize = 0;
    while i < n
        invariant
            0 <= i <= n <= lines@.len(),
            all == crate::missed::as_ints(lines@),
            want == all.take(n as int).map_values(|k: int| decimal(k as nat)),
            views(shown@) == want.take(i as int),
        decreases n - i,
    {
        let ghost before = views(shown@);
        shown.push(decimal_of(lines[i] as u64));
        assert(views(shown@) =~= before.push(decimal(lines@[i as int] as nat)));
        assert(want.take(i + 1) =~= before.push(want[i as int]));
        i += 1;
    }
    assert(want.take(n as int) =~= want);
    let mut s: String = join_with(shown.as_slice(), "、");
    if lines.len() > 5 {
        s.push_str("…");
    }
    assert(s@ =~= lines_text(all));
    s
}

impl Editor {
    /// What the report on the wiki says; `book` is where the book's own would
    /// be.
    pub fn wiki_report_text(&self, book: &FilePath) -> (out: String)
        requires
            self.wf(),
        ensures
            exists|missed: Seq<(Seq<char>, Seq<int>)>|
                self@.are_missed(missed) && out@ == #[trigger] self@.report(book@, missed),
    {
        let mut out: String = copied("# ");
        out.push_str(say::wiki_title().as_str());
        out.push_str("\n\n");
        if self.wiki.sources.len() == 0 {
            out.push_str(say::wiki_none(book.under(&self.places.root).show().as_str()).as_str());
            out.push_str("\n");
        }
        let ghost head = out@;
        assert(head =~= "# "@ + say::wiki_title_text() + "\n\n"@
            + if self@.wiki.sources.len() == 0 {
            say::wiki_none_text(book@.under(self@.places.root).shown()) + "\n"@
        } else {
            Seq::empty()
        });
        let ghost sources = self@.wiki.sources;
        let mut i: usize = 0;
        assert(sources.take(0) =~= Seq::empty());
        assert(head + sources_text(sources.take(0), self@.places.root) =~= head);
        while i < self.wiki.sources.len()
            invariant
                0 <= i <= self.wiki.sources@.len(),
                sources == self@.wiki.sources,
                out@ == head + sources_text(sources.take(i as int), self@.places.root),
            decreases self.wiki.sources@.len() - i,
        {
            let line: String = say_source(&self.wiki.sources[i], &self.places.root);
            push_item(&mut out, line.as_str());
            proof {
                assert(sources.take(i + 1).drop_last() =~= sources.take(i as int));
                assert(sources.take(i + 1).last() == self.wiki.sources@[i as int]@);
                assert(out@ =~= head + sources_text(sources.take(i + 1), self@.places.root));
            }
            i += 1;
        }
        assert(sources.take(sources.len() as int) =~= sources);
        let mut short: String = String::new();
        let ghost names = self@.wiki.by_name;
        let mut k: usize = 0;
        assert(names.take(0) =~= Seq::empty());
        assert(short@ =~= Seq::empty());
        while k < self.wiki.by_name.len()
            invariant
                0 <= k <= self.wiki.by_name@.len(),
                names == self@.wiki.by_name,
                short@ == short_names_text(names.take(k as int)),
            decreases self.wiki.by_name@.len() - k,
        {
            let name: &str = self.wiki.by_name[k].0.as_str();
            proof {
                assert(names.take(k + 1).drop_last() =~= names.take(k as int));
                assert(names.take(k + 1).last().0 == name@);
            }
            if name.unicode_len() < 2 {
                push_item(&mut short, name);
            }
            k += 1;
        }
        assert(names.take(names.len() as int) =~= names);
        if short.as_str().unicode_len() > 0 {
            push_section(&mut out, say::wiki_unmarkable().as_str());
            out.push_str(short.as_str());
        }
        let missed: Vec<(String, Vec<usize>)> = self.wiki_missed_here();
        let ghost list = missed_views(missed@);
        if missed.len() > 0 {
            push_section(&mut out, say::wiki_missed().as_str());
            let ghost base = out@;
            let mut m: usize = 0;
            assert(list.take(0) =~= Seq::empty());
            assert(base + missed_text(list.take(0)) =~= base);
            while m < missed.len()
                invariant
                    0 <= m <= missed@.len(),
                    list == missed_views(missed@),
                    out@ == base + missed_text(list.take(m as int)),
                decreases missed@.len() - m,
            {
                let at: String = say_lines(&missed[m].1);
                let line: String = say::wiki_missed_at(missed[m].0.as_str(), at.as_str());
                push_item(&mut out, line.as_str());
                proof {
                    assert(list.take(m + 1).drop_last() =~= list.take(m as int));
                    assert(list.take(m + 1).last() == (
                        missed@[m as int].0@,
                        crate::missed::as_ints(missed@[m as int].1@),
                    ));
                    assert(out@ =~= base + missed_text(list.take(m + 1)));
                }
                m += 1;
            }
            assert(list.take(list.len() as int) =~= list);
        }
        assert(list.len() == missed@.len());
        assert(out@ =~= self@.report(book@, list));
        out
    }

    /// `:wiki` alone: lists the report in a buffer of its own.
    pub fn wiki_report(&mut self, book: &FilePath)
        requires
            old(self).wf(),
        ensures
            final(self).wf(),
            exists|missed: Seq<(Seq<char>, Seq<int>)>|
                old(self)@.are_missed(missed) && final(self)@ == old(self)@.adding(
                    BufferView {
                        text: #[trigger] old(self)@.report(book@, missed),
                        ..scratch()
                    },
                ).saying(say::wiki_title_text()),
    {
        let out: String = self.wiki_report_text(book);
        let b: Buffer = Buffer::from_text(out.as_str());
        self.add_buffer(b);
        self.say(say::wiki_title());
    }
}

// ---- The command ----------------------------------------------------------

/// What is left to be done outside of the editor's state.
#[derive(Debug)]
pub enum WikiStep {
    /// Nothing.
    Done,
    /// Find the book's own wiki and open it.
    EditBook,
    /// Open this file of the wiki.
    Open(FilePath),
    /// Read the wiki again, and then say so.
    Reload,
    /// Find the book's own wiki and show the report.
    Report,
}

/// What a [`WikiStep`] says.
pub enum StepView {
    Done,
    EditBook,
    Open(PathView),
    Reload,
    Report,
}

impl View for WikiStep {
    type V = StepView;

    open spec fn view(&self) -> StepView {
        match *self {
            WikiStep::Done => StepView::Done,
            WikiStep::EditBook => StepView::EditBook,
            WikiStep::Open(path) => StepView::Open(path@),
            WikiStep::Reload => StepView::Reload,
            WikiStep::Report => StepView::Report,
        }
    }
}

impl EditorView {
    /// The panel that shows `page`.
    pub open spec fn showing(self, page: Page) -> Option<Side> {
        if self.panels.left == Some(page) {
            Some(Side::Left)
        } else if self.panels.right == Some(page) {
            Some(Side::Right)
        } else {
            None
        }
    }

    /// With the panel on `side` closed, and the keys back in the writing where
    /// they went to it.
    pub open spec fn closing_panel(self, side: Side) -> EditorView {
        EditorView {
            panels: Panels {
                left: if side == Side::Left {
                    None
                } else {
                    self.panels.left
                },
                right: if side == Side::Right {
                    None
                } else {
                    self.panels.right
                },
                focus: if self.panels.focus == Some(side) {
                    None
                } else {
                    self.panels.focus
                },
            },
            ..self
        }
    }

    /// With the wiki's panel put up, or taken down; the keys stay in the
    /// writing.
    pub open spec fn toggling_wiki_panel(self) -> EditorView {
        match self.showing(Page::Wiki) {
            Some(side) => self.closing_panel(side),
            None => EditorView {
                panels: Panels { left: Some(Page::Wiki), focus: None, ..self.panels },
                ..self
            },
        }
    }

    /// With names marked so, and that said.
    pub open spec fn marking(self, mark: Mark, said: Seq<char>) -> EditorView {
        EditorView {
            settings: Settings { wiki_mark: mark, ..self.settings },
            status: said,
            ..self
        }
    }

    /// Where the global wiki is.
    pub open spec fn global_wiki(self) -> Option<PathView> {
        match self.places.data_dir {
            Some(dir) => Some(dir.join(path_of("wiki.md"@))),
            None => None,
        }
    }

    /// What `:wiki` with a word does, and what is left to be done.
    pub open spec fn wiki_step(self, what: Option<Seq<char>>) -> (EditorView, StepView) {
        match what {
            None => (self, StepView::Report),
            Some(word) => if word == "edit"@ {
                (self, StepView::EditBook)
            } else if word == "panel"@ {
                (self.toggling_wiki_panel(), StepView::Done)
            } else if word == "hide"@ {
                (self.marking(Mark::Off, say::wiki_marks_off_text()), StepView::Done)
            } else if word == "color"@ {
                (self.marking(Mark::Color, say::wiki_marks_color_text()), StepView::Done)
            } else if word == "line"@ {
                (self.marking(Mark::Line, say::wiki_marks_line_text()), StepView::Done)
            } else if word == "global"@ {
                match self.global_wiki() {
                    Some(path) => (self, StepView::Open(path)),
                    None => (self.saying(say::no_data_directory_text()), StepView::Done),
                }
            } else {
                (self, StepView::Reload)
            },
        }
    }
}

impl Editor {
    /// The panel that shows `page`.
    pub fn showing(&self, page: Page) -> (side: Option<Side>)
        ensures
            side == self@.showing(page),
    {
        if self.panels.left == Some(page) {
            Some(Side::Left)
        } else if self.panels.right == Some(page) {
            Some(Side::Right)
        } else {
            None
        }
    }

    /// Closes the panel on `side`.
    pub fn close_panel(&mut self, side: Side)
        requires
            old(self).wf(),
        ensures
            final(self).wf(),
            final(self)@ == old(self)@.closing_panel(side),
    {
        match side {
            Side::Left => {
                self.panels.left = None;
            },
            Side::Right => {
                self.panels.right = None;
            },
        }
        if self.panels.focus == Some(side) {
            self.panels.focus = None;
        }
    }

    /// Puts the wiki's panel up, or takes it down.
    fn show_wiki_panel(&mut self)
        requires
            old(self).wf(),
        ensures
            final(self).wf(),
            final(self)@ == old(self)@.toggling_wiki_panel(),
    {
        match self.showing(Page::Wiki) {
            Some(side) => self.close_panel(side),
            None => {
                self.panels.left = Some(Page::Wiki);
                self.panels.focus = None;
            },
        }
    }

    /// Where the global wiki is.
    pub fn global_wiki_path(&self) -> (r: Option<FilePath>)
        ensures
            match r {
                Some(path) => self@.global_wiki() == Some(path@),
                None => self@.global_wiki() is None,
            },
    {
        match &self.places.data_dir {
            Some(dir) => Some(dir.join(&FilePath::new("wiki.md"))),
            None => None,
        }
    }

    /// Marks the names of the wiki by `mark`, and says so.
    fn mark_names(&mut self, mark: Mark, s: String)
        requires
            old(self).wf(),
        ensures
            final(self).wf(),
            final(self)@ == old(self)@.marking(mark, s@),
    {
        self.settings.wiki_mark = mark;
        self.status = s;
    }

    /// `:wiki` with a word, or alone.
    pub fn wiki_command(&mut self, what: Option<&str>) -> (step: WikiStep)
        requires
            old(self).wf(),
        ensures
            final(self).wf(),
            (final(self)@, step@) == old(self)@.wiki_step(
                match what {
                    Some(word) => Some(word@),
                    None => None,
                },
            ),
    {
        match what {
            None => WikiStep::Report,
            Some(word) => if same_text(word, "edit") {
                WikiStep::EditBook
            } else if same_text(word, "panel") {
                self.show_wiki_panel();
                WikiStep::Done
            } else if same_text(word, "hide") {
                self.mark_names(Mark::Off, say::wiki_marks_off());
                WikiStep::Done
            } else if same_text(word, "color") {
                self.mark_names(Mark::Color, say::wiki_marks_color());
                WikiStep::Done
            } else if same_text(word, "line") {
                self.mark_names(Mark::Line, say::wiki_marks_line());
                WikiStep::Done
            } else if same_text(word, "global") {
                match self.global_wiki_path() {
                    Some(path) => WikiStep::Open(path),
                    None => {
                        self.say(say::no_data_directory());
                        WikiStep::Done
                    },
                }
            } else {
                WikiStep::Reload
            },
        }
    }

    /// Says what the wiki holds that was read again.
    pub fn wiki_reloaded(&mut self)
        requires
            old(self).wf(),
        ensures
            final(self).wf(),
            final(self)@ == old(self)@.saying(
                say::wiki_reloaded_text(
                    old(self)@.wiki.entries.len(),
                    crate::wiki::files_read(old(self)@.wiki.sources) as nat,
                ),
            ),
    {
        let files: usize = self.wiki.files();
        self.status = say::wiki_reloaded(self.wiki.entries.len(), files);
    }
}

// ---- The book's own wiki --------------------------------------------------

/// The directories from `dir` up, nearest first.
pub open spec fn upward(dir: PathView) -> Seq<PathView>
    decreases dir.parts.len(),
{
    match dir.parent() {
        Some(up) => {
            proof {
                lemma_parent_is_shorter(dir);
            }
            seq![dir] + upward(up)
        },
        None => seq![dir],
    }
}

/// A file of the wiki kept in `dir`.
pub open spec fn kept_in(dir: PathView, name: Seq<char>) -> PathView {
    dir.join(path_of(".yumete"@)).join(path_of(name))
}

/// The first directory at or after `i` in which a wiki was found, or how many
/// there are.
pub open spec fn found_from(found: Seq<(bool, bool)>, n: int, i: int) -> int
    decreases n - i,
{
    if i >= n || i >= found.len() {
        n
    } else if found[i].0 || found[i].1 {
        i
    } else {
        found_from(found, n, i + 1)
    }
}

impl EditorView {
    /// The directory from which the book's own wiki is looked for: that of the
    /// file on the page, else the working directory `cwd`.
    pub open spec fn looks_from(self, cwd: PathView) -> PathView {
        match self.buffer().path {
            Some(path) => match path.parent() {
                Some(dir) => dir,
                None => cwd,
            },
            None => cwd,
        }
    }

    /// The book's own wiki, as it is spelled where it was found. For each
    /// directory upward `found` says whether a `wiki.md` is there, and whether
    /// a `wiki.txt` is.
    pub open spec fn book_wiki(self, cwd: PathView, found: Seq<(bool, bool)>) -> PathView {
        let dirs = upward(self.looks_from(cwd));
        let i = found_from(found, dirs.len() as int, 0);
        if i >= dirs.len() {
            kept_in(self.places.root, "wiki.md"@)
        } else if found[i].0 {
            kept_in(dirs[i], "wiki.md"@)
        } else {
            kept_in(dirs[i], "wiki.txt"@)
        }
    }
}

/// A file of the wiki kept in `dir`.
fn file_kept_in(dir: &FilePath, name: &str) -> (r: FilePath)
    ensures
        r@ == kept_in(dir@, name@),
{
    dir.join(&FilePath::new(".yumete")).join(&FilePath::new(name))
}

/// What paths say.
pub open spec fn path_views(v: Seq<FilePath>) -> Seq<PathView> {
    v.map_values(|p: FilePath| p@)
}

impl Editor {
    /// The directories in which to look for the book's own wiki, nearest first.
    pub fn wiki_directories(&self, cwd: &FilePath) -> (dirs: Vec<FilePath>)
        requires
            self.wf(),
        ensures
            path_views(dirs@) == upward(self@.looks_from(cwd@)),
    {
        let from: FilePath = match &self.current_buffer().path {
            Some(path) => match path.parent() {
                Some(dir) => dir,
                None => cwd.copy(),
            },
            None => cwd.copy(),
        };
        let ghost start = from@;
        assert(start == self@.looks_from(cwd@));
        let mut dirs: Vec<FilePath> = Vec::new();
        let mut dir: FilePath = from;
        assert(path_views(dirs@) + upward(dir@) =~= upward(start));
        loop
            invariant
                path_views(dirs@) + upward(dir@) == upward(start),
                start == self@.looks_from(cwd@),
            decreases dir@.parts.len(),
        {
            let up: Option<FilePath> = dir.parent();
            let ghost before = path_views(dirs@);
            let ghost d = dir@;
            dirs.push(dir);
            assert(path_views(dirs@) =~= before.push(d));
            match up {
                Some(p) => {
                    proof {
                        lemma_parent_is_shorter(d);
                    }
                    assert(before + upward(d) =~= before.push(d) + upward(p@));
                    dir = p;
                },
                None => {
                    assert(before + upward(d) =~= before.push(d));
                    return dirs;
                },
            }
        }
    }

    /// The book's own wiki. For each of [`Editor::wiki_directories`] `found`
    /// says whether a `wiki.md` is there, and whether a `wiki.txt` is.
    pub fn book_wiki_path(&self, cwd: &FilePath, found: &Vec<(bool, bool)>) -> (r: FilePath)
        requires
            self.wf(),
        ensures
            r@ == self@.book_wiki(cwd@, found@),
    {
        let dirs: Vec<FilePath> = self.wiki_directories(cwd);
        let n: usize = dirs.len();
        let ghost all = path_views(dirs@);
        let mut i: usize = 0;
        while i < n && i < found.len()
            invariant
                0 <= i <= n,
                n == dirs@.len() == all.len(),
                all == path_views(dirs@),
                all == upward(self@.looks_from(cwd@)),
                found_from(found@, n as int, 0) == found_from(found@, n as int, i as int),
            decreases n - i,
        {
            assert(all[i as int] == dirs@[i as int]@);
            if found[i].0 {
                return file_kept_in(&dirs[i], "wiki.md");
            }
            if found[i].1 {
                return file_kept_in(&dirs[i], "wiki.txt");
            }
            i += 1;
        }
        file_kept_in(&self.places.root, "wiki.md")
    }

    /// A file of the wiki has come on the page: it is Markdown, whatever it is
    /// called, and where it holds nothing that is said.
    pub fn wiki_file_opened(&mut self, path: &FilePath)
        requires
            old(self).wf(),
        ensures
            final(self).wf(),
            final(self)@ == ({
                let read = old(self)@.with_buffer(
                    BufferView { syntax: Syntax::Markdown, ..old(self)@.buffer() },
                );
                if trimmed(old(self)@.text()).len() == 0 {
                    read.saying(say::wiki_opened_empty_text(path@.shown()))
                } else {
                    read
                }
            }),
    {
        let i: usize = self.active;
        let ghost before = self.buffers@;
        self.buffers[i].set_syntax(Syntax::Markdown);
        proof {
            lemma_buffer_update(before, self.buffers@, i as int);
        }
        let text: String = self.buffers[i].text();
        if trim(text.as_str()).unicode_len() == 0 {
            self.status = say::wiki_opened_empty(path.show().as_str());
        }
    }

    /// The names of the wiki, for whoever cuts the text into words.
    pub fn wiki_words(&self) -> (words: Vec<String>)
        ensures
            views(words@) == self@.wiki.words(),
    {
        let ghost want = self@.wiki.words();
        let mut words: Vec<String> = Vec::new();
        let mut i: usize = 0;
        while i < self.wiki.by_name.len()
            invariant
                0 <= i <= self.wiki.by_name@.len(),
                want == self@.wiki.words(),
                views(words@) == want.take(i as int),
            decreases self.wiki.by_name@.len() - i,
        {
            let ghost before = views(words@);
            words.push(copied(self.wiki.by_name[i].0.as_str()));
            assert(views(words@) =~= before.push(self.wiki.by_name@[i as int].0@));
            assert(want.take(i + 1) =~= before.push(want[i as int]));
            i += 1;
        }
        assert(want.take(want.len() as int) =~= want);
        words
    }
}

} // verus!

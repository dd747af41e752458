//! The wiki of a book: its entries, the names they are found by, and the files
//! they were read from.

use vstd::prelude::*;
use crate::path::{FilePath, PathView};
use crate::text::{copied, same_text, views};

verus! {

/// How names are marked on the page.
#[derive(Debug, Clone, Copy, PartialEq, Eq, Structural)]
pub enum Mark {
    Off,
    Color,
    Line,
}

/// What became of a file that the wiki reached for.
#[derive(Debug, Clone, PartialEq, Eq)]
pub enum Source {
    /// It was read, and gave so many entries.
    Read { path: FilePath, entries: usize },
    /// It is not there.
    Missing { path: FilePath },
    /// It is there and could not be read.
    Unreadable { path: FilePath, why: String },
    /// The file `from` names a file that must not be read.
    Refused { named: String, from: FilePath },
    /// It was read before.
    Again { path: FilePath },
    /// There were too many files before it.
    TooMany { named: String },
}

/// What a [`Source`] says.
pub enum SourceView {
    Read { path: PathView, entries: int },
    Missing { path: PathView },
    Unreadable { path: PathView, why: Seq<char> },
    Refused { named: Seq<char>, from: PathView },
    Again { path: PathView },
    TooMany { named: Seq<char> },
}

impl View for Source {
    type V = SourceView;

    open spec fn view(&self) -> SourceView {
        match *self {
            Source::Read { path, entries } => SourceView::Read {
                path: path@,
                entries: entries as int,
            },
            Source::Missing { path } => SourceView::Missing { path: path@ },
            Source::Unreadable { path, why } => SourceView::Unreadable { path: path@, why: why@ },
            Source::Refused { named, from } => SourceView::Refused { named: named@, from: from@ },
            Source::Again { path } => SourceView::Again { path: path@ },
            Source::TooMany { named } => SourceView::TooMany { named: named@ },
        }
    }
}

impl Source {
    /// A copy of the source.
    pub fn copy(&self) -> (r: Source)
        ensures
            r@ == self@,
    {
        match self {
            Source::Read { path, entries } => Source::Read { path: path.copy(), entries: *entries },
            Source::Missing { path } => Source::Missing { path: path.copy() },
            Source::Unreadable { path, why } => Source::Unreadable {
                path: path.copy(),
                why: copied(why.as_str()),
            },
            Source::Refused { named, from } => Source::Refused {
                named: copied(named.as_str()),
                from: from.copy(),
            },
            Source::Again { path } => Source::Again { path: path.copy() },
            Source::TooMany { named } => Source::TooMany { named: copied(named.as_str()) },
        }
    }
}

/// One entry: a heading and what stands under it.
#[derive(Debug)]
pub struct Entry {
    /// How many number signs its heading has.
    pub depth: usize,
    /// The headings above it, outermost first.
    pub ancestors: Vec<String>,
    pub body: Vec<String>,
    /// The file it is written in, and the line of its heading.
    pub source: FilePath,
    pub line: usize,
    /// From the global wiki rather than this book's.
    pub global: bool,
}

/// What an [`Entry`] says.
#[verifier::ext_equal]
pub struct EntryView {
    pub depth: int,
    pub ancestors: Seq<Seq<char>>,
    pub body: Seq<Seq<char>>,
    pub source: PathView,
    pub line: int,
    pub global: bool,
}

impl View for Entry {
    type V = EntryView;

    open spec fn view(&self) -> EntryView {
        EntryView {
            depth: self.depth as int,
            ancestors: views(self.ancestors@),
            body: views(self.body@),
            source: self.source@,
            line: self.line as int,
            global: self.global,
        }
    }
}

/// The wiki of a book and the global one.
#[derive(Debug)]
pub struct Wiki {
    /// In the order they were read.
    pub entries: Vec<Entry>,
    /// Each name once, with the entries it is the name of.
    pub by_name: Vec<(String, Vec<usize>)>,
    /// Every file that was reached for, in that order.
    pub sources: Vec<Source>,
}

/// What a [`Wiki`] says.
#[verifier::ext_equal]
pub struct WikiData {
    pub entries: Seq<EntryView>,
    pub by_name: Seq<(Seq<char>, Seq<usize>)>,
    pub sources: Seq<SourceView>,
}

impl View for Wiki {
    type V = WikiData;

    open spec fn view(&self) -> WikiData {
        WikiData {
            entries: self.entries@.map_values(|e: Entry| e@),
            by_name: self.by_name@.map_values(|n: (String, Vec<usize>)| (n.0@, n.1@)),
            sources: self.sources@.map_values(|s: Source| s@),
        }
    }
}

/// The first name at or after `i` that is `name`, or how many there are.
pub open spec fn name_from(names: Seq<(Seq<char>, Seq<usize>)>, name: Seq<char>, i: int) -> int
    decreases names.len() - i,
{
    if i >= names.len() {
        names.len() as int
    } else if names[i].0 == name {
        i
    } else {
        name_from(names, name, i + 1)
    }
}

/// Whether `a` comes before `b` where both have one name: an entry of the book
/// before a global one, of two others the less deep one first, and of two that
/// are as deep the one that was read first, which has the lower number.
pub open spec fn in_turn(a: EntryView, i: usize, b: EntryView, j: usize) -> bool {
    if a.global != b.global {
        b.global
    } else if a.depth != b.depth {
        a.depth < b.depth
    } else {
        i < j
    }
}

impl WikiData {
    /// Every name stands once, and for entries that are there, each in its turn.
    pub open spec fn wf(self) -> bool {
        &&& forall|i: int, j: int|
            0 <= i < j < self.by_name.len() ==> (#[trigger] self.by_name[i]).0
                != (#[trigger] self.by_name[j]).0
        &&& forall|i: int, k: int|
            0 <= i < self.by_name.len() && 0 <= k < self.by_name[i].1.len()
                ==> #[trigger] self.by_name[i].1[k] < self.entries.len()
        &&& forall|i: int|
            0 <= i < self.by_name.len() ==> self.are_in_turn((#[trigger] self.by_name[i]).1)
    }

    /// Whether each of these entries comes in its turn.
    pub open spec fn are_in_turn(self, found: Seq<usize>) -> bool {
        forall|a: int, b: int|
            0 <= a < b < found.len() ==> in_turn(
                self.entries[#[trigger] found[a] as int],
                found[a],
                self.entries[#[trigger] found[b] as int],
                found[b],
            )
    }

    /// Where `name` stands among the names, or how many there are.
    pub open spec fn find(self, name: Seq<char>) -> int {
        name_from(self.by_name, name, 0)
    }

    /// Whether `name` is the name of an entry.
    pub open spec fn knows(self, name: Seq<char>) -> bool {
        self.find(name) < self.by_name.len()
    }

    /// Whether `path` is one of the files that were read.
    pub open spec fn came_from(self, path: PathView) -> bool {
        exists|i: int|
            0 <= i < self.sources.len() && (#[trigger] self.sources[i] matches SourceView::Read {
                path: p,
                ..
            } && p.same(path))
    }

    /// The names, in their order.
    pub open spec fn words(self) -> Seq<Seq<char>> {
        self.by_name.map_values(|n: (Seq<char>, Seq<usize>)| n.0)
    }
}

/// What is found is the name, and nothing before it is.
pub proof fn lemma_name_from(names: Seq<(Seq<char>, Seq<usize>)>, name: Seq<char>, i: int)
    requires
        0 <= i <= names.len(),
    ensures
        i <= name_from(names, name, i) <= names.len(),
        name_from(names, name, i) < names.len() ==> names[name_from(names, name, i)].0 == name,
        forall|k: int| i <= k < name_from(names, name, i) ==> (#[trigger] names[k]).0 != name,
    decreases names.len() - i,
{
    if i < names.len() && names[i].0 != name {
        lemma_name_from(names, name, i + 1);
    }
}

impl Wiki {
    /// A wiki with nothing in it.
    pub fn new() -> (w: Wiki)
        ensures
            w@ == (WikiData { entries: Seq::empty(), by_name: Seq::empty(), sources: Seq::empty() }),
            w@.wf(),
    {
        let w: Wiki = Wiki { entries: Vec::new(), by_name: Vec::new(), sources: Vec::new() };
        assert(w@ =~= (WikiData {
            entries: Seq::empty(),
            by_name: Seq::empty(),
            sources: Seq::empty(),
        }));
        w
    }

    /// Where `name` stands among the names, or how many there are.
    pub fn find(&self, name: &str) -> (i: usize)
        ensures
            i == self@.find(name@),
            i <= self.by_name@.len(),
    {
        let ghost all = self@.by_name;
        let mut i: usize = 0;
        while i < self.by_name.len()
            invariant
                0 <= i <= self.by_name@.len(),
                all == self@.by_name,
                name_from(all, name@, 0) == name_from(all, name@, i as int),
            decreases self.by_name@.len() - i,
        {
            assert(all[i as int].0 == self.by_name@[i as int].0@);
            if same_text(self.by_name[i].0.as_str(), name) {
                return i;
            }
            i += 1;
        }
        i
    }

    /// Whether `name` is the name of an entry.
    pub fn knows(&self, name: &str) -> (r: bool)
        ensures
            r == self@.knows(name@),
    {
        self.find(name) < self.by_name.len()
    }

    /// Whether `path` is one of the files that were read.
    pub fn came_from(&self, path: &FilePath) -> (r: bool)
        ensures
            r == self@.came_from(path@),
    {
        let mut i: usize = 0;
        while i < self.sources.len()
            invariant
                0 <= i <= self.sources@.len(),
                forall|k: int|
                    0 <= k < i ==> !(#[trigger] self@.sources[k] matches SourceView::Read {
                        path: p,
                        ..
                    } && p.same(path@)),
            decreases self.sources@.len() - i,
        {
            assert(self@.sources[i as int] == self.sources@[i as int]@);
            match &self.sources[i] {
                Source::Read { path: p, .. } => {
                    if p.same(path) {
                        return true;
                    }
                },
                _ => {},
            }
            i += 1;
        }
        false
    }

    /// How many files were read.
    pub fn files(&self) -> (n: usize)
        ensures
            n == files_read(self@.sources),
    {
        let ghost all = self@.sources;
        let mut n: usize = 0;
        let mut i: usize = 0;
        assert(all.take(0) =~= Seq::empty());
        while i < self.sources.len()
            invariant
                0 <= n <= i <= self.sources@.len(),
                all == self@.sources,
                n == files_read(all.take(i as int)),
            decreases self.sources@.len() - i,
        {
            assert(all.take(i + 1).drop_last() =~= all.take(i as int));
            assert(all.take(i + 1).last() == self.sources@[i as int]@);
            match &self.sources[i] {
                Source::Read { .. } => {
                    n += 1;
                },
                _ => {},
            }
            i += 1;
        }
        assert(all.take(self.sources@.len() as int) =~= all);
        n
    }
}

/// How many of the sources were read.
pub open spec fn files_read(sources: Seq<SourceView>) -> int
    decreases sources.len(),
{
    if sources.len() == 0 {
        0
    } else {
        files_read(sources.drop_last()) + if sources.last() is Read {
            1int
        } else {
            0int
        }
    }
}

impl Wiki {
    /// Whether each of these entries comes in its turn.
    fn check_turns(&self, found: &Vec<usize>) -> (r: bool)
        requires
            forall|k: int| 0 <= k < found@.len() ==> (#[trigger] found@[k]) < self@.entries.len(),
        ensures
            r == self@.are_in_turn(found@),
    {
        let ghost all = self@.entries;
        let mut a: usize = 0;
        while a < found.len()
            invariant
                0 <= a <= found@.len(),
                all == self@.entries,
                forall|k: int| 0 <= k < found@.len() ==> (#[trigger] found@[k]) < all.len(),
                forall|x: int, y: int|
                    0 <= x < y < found@.len() && x < a ==> in_turn(
                        all[#[trigger] found@[x] as int],
                        found@[x],
                        all[#[trigger] found@[y] as int],
                        found@[y],
                    ),
            decreases found@.len() - a,
        {
            let x: &Entry = &self.entries[found[a]];
            assert(all[found@[a as int] as int] == x@);
            let mut b: usize = a + 1;
            while b < found.len()
                invariant
                    a < b <= found@.len(),
                    all == self@.entries,
                    x@ == all[found@[a as int] as int],
                    forall|k: int| 0 <= k < found@.len() ==> (#[trigger] found@[k]) < all.len(),
                    forall|y: int|
                        a < y < b ==> in_turn(
                            all[found@[a as int] as int],
                            found@[a as int],
                            all[#[trigger] found@[y] as int],
                            found@[y],
                        ),
                decreases found@.len() - b,
            {
                let y: &Entry = &self.entries[found[b]];
                assert(all[found@[b as int] as int] == y@);
                let turn: bool = if x.global != y.global {
                    y.global
                } else if x.depth != y.depth {
                    x.depth < y.depth
                } else {
                    found[a] < found[b]
                };
                if !turn {
                    assert(!in_turn(x@, found@[a as int], y@, found@[b as int]));
                    return false;
                }
                b += 1;
            }
            a += 1;
        }
        true
    }

    /// Whether every name stands once, and for entries that are there, each in
    /// its turn.
    pub fn is_sound(&self) -> (r: bool)
        ensures
            r == self@.wf(),
    {
        let ghost names = self@.by_name;
        let n: usize = self.by_name.len();
        let entries: usize = self.entries.len();
        let mut i: usize = 0;
        while i < n
            invariant
                0 <= i <= n,
                n == self.by_name@.len(),
                names == self@.by_name,
                entries == self@.entries.len(),
                forall|a: int, b: int|
                    0 <= a < b < n && a < i ==> (#[trigger] names[a]).0 != (
                    #[trigger] names[b]).0,
                forall|a: int, k: int|
                    0 <= a < i && 0 <= k < names[a].1.len() ==> #[trigger] names[a].1[k]
                        < entries,
                forall|a: int| 0 <= a < i ==> self@.are_in_turn((#[trigger] names[a]).1),
            decreases n - i,
        {
            assert(names[i as int] == (self.by_name@[i as int].0@, self.by_name@[i as int].1@));
            let mut j: usize = i + 1;
            while j < n
                invariant
                    i < j <= n,
                    n == self.by_name@.len(),
                    names == self@.by_name,
                    forall|b: int| i < b < j ==> names[i as int].0 != (#[trigger] names[b]).0,
                decreases n - j,
            {
                assert(names[i as int].0 == self.by_name@[i as int].0@);
                assert(names[j as int].0 == self.by_name@[j as int].0@);
                if same_text(self.by_name[i].0.as_str(), self.by_name[j].0.as_str()) {
                    assert(!self@.wf());
                    return false;
                }
                j += 1;
            }
            let found: &Vec<usize> = &self.by_name[i].1;
            let mut k: usize = 0;
            while k < found.len()
                invariant
                    0 <= k <= found@.len(),
                    0 <= i < n,
                    n == self.by_name@.len(),
                    names == self@.by_name,
                    found@ == names[i as int].1,
                    entries == self@.entries.len(),
                    forall|m: int|
                        0 <= m < k ==> (#[trigger] names[i as int].1[m]) < entries,
                decreases found@.len() - k,
            {
                assert(names[i as int].1[k as int] == found@[k as int]);
                if found[k] >= entries {
                    assert(!self@.wf());
                    return false;
                }
                k += 1;
            }
            if !self.check_turns(found) {
                assert(!self@.are_in_turn(names[i as int].1));
                return false;
            }
            i += 1;
        }
        true
    }
}

} // verus!

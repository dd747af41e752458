//! The names that stand in a chapter and are not marked there.

use vstd::prelude::*;
use crate::buffer::line_body;
use crate::editor::{Editor, EditorView, least};
use crate::path::{FilePath, PathView};
use crate::text::{chars_of, copied, line_count, stands_at};
use crate::wiki::lemma_name_from;

verus! {

/// Whether `a` comes before `b` in the order of their characters, compared
/// from position `i` on.
pub open spec fn before_from(a: Seq<char>, b: Seq<char>, i: int) -> bool
    decreases b.len() - i,
{
    if i >= b.len() {
        false
    } else if i >= a.len() {
        true
    } else if a[i] != b[i] {
        a[i] < b[i]
    } else {
        before_from(a, b, i + 1)
    }
}

/// Whether `a` comes before `b` in the order of their characters.
pub open spec fn comes_before(a: Seq<char>, b: Seq<char>) -> bool {
    before_from(a, b, 0)
}

proof fn lemma_before_total(a: Seq<char>, b: Seq<char>, i: int)
    requires
        0 <= i <= a.len(),
        i <= b.len(),
        forall|k: int| 0 <= k < i ==> a[k] == b[k],
        a != b,
    ensures
        before_from(a, b, i) || before_from(b, a, i),
    decreases a.len() - i,
{
    if i == a.len() && i == b.len() {
        assert(a =~= b);
    } else if i < a.len() && i < b.len() && a[i] == b[i] {
        lemma_before_total(a, b, i + 1);
    }
}

/// The order of names goes on from one to the next.
pub proof fn lemma_before_transitive(a: Seq<char>, b: Seq<char>, c: Seq<char>, i: int)
    requires
        before_from(a, b, i),
        before_from(b, c, i),
    ensures
        before_from(a, c, i),
    decreases c.len() - i,
{
    if i < a.len() && i < b.len() && i < c.len() && a[i] == b[i] && b[i] == c[i] {
        lemma_before_transitive(a, b, c, i + 1);
    }
}

/// Whether `name` stands in a line at `at` and is no mark there.
pub open spec fn unmarked_at(
    chars: Seq<char>,
    marks: Seq<(usize, usize)>,
    name: Seq<char>,
    at: int,
) -> bool {
    &&& name.is_prefix_of(chars.skip(at))
    &&& !exists|k: int|
        0 <= k < marks.len() && (#[trigger] marks[k]).0 == at && marks[k].1 == at + name.len()
}

/// `line` once for every place before `at` at which `name` stands unmarked.
pub open spec fn missed_in_line(
    chars: Seq<char>,
    marks: Seq<(usize, usize)>,
    name: Seq<char>,
    line: int,
    at: int,
) -> Seq<int>
    decreases at,
{
    if at <= 0 {
        Seq::empty()
    } else {
        let rest = missed_in_line(chars, marks, name, line, at - 1);
        if unmarked_at(chars, marks, name, at - 1) {
            rest.push(line)
        } else {
            rest
        }
    }
}

impl EditorView {
    /// The numbers of the first `lines` lines, counted from one, on which
    /// `name` stands unmarked: as often as it does.
    pub open spec fn missed_on(self, name: Seq<char>, lines: int) -> Seq<int>
        decreases lines,
    {
        if lines <= 0 {
            Seq::empty()
        } else {
            let rest = self.missed_on(name, lines - 1);
            let chars = line_body(self.text(), lines - 1);
            if self.quotes(lines - 1) {
                rest
            } else {
                rest + missed_in_line(
                    chars,
                    self.names_on_line(lines - 1),
                    name,
                    lines,
                    chars.len() as int,
                )
            }
        }
    }

    /// The numbers of the lines on which `name` stands unmarked.
    pub open spec fn missed_lines(self, name: Seq<char>) -> Seq<int> {
        self.missed_on(name, line_count(self.text()))
    }

    /// Whether the buffer on the page has a file, and it is not one of the
    /// wiki's own.
    pub open spec fn is_chapter(self) -> bool {
        match self.buffer().path {
            Some(path) => !self.is_wiki_file(path),
            None => false,
        }
    }

    /// Whether `path` is one of the files of the wiki, or would be.
    pub open spec fn is_wiki_file(self, path: PathView) -> bool {
        ||| self.wiki.came_from(path)
        ||| path.file_name() == Some("wiki.md"@) && (path.parent() matches Some(dir)
            && dir.file_name() == Some(".yumete"@))
    }

    /// Whether the list holds exactly the names of the wiki that stand in the
    /// chapter unmarked, in their order, each with the first lines of it.
    pub open spec fn are_missed(self, list: Seq<(Seq<char>, Seq<int>)>) -> bool {
        &&& forall|i: int, j: int|
            0 <= i < j < list.len() ==> comes_before(
                (#[trigger] list[i]).0,
                (#[trigger] list[j]).0,
            )
        &&& forall|i: int|
            0 <= i < list.len() ==> self.wiki.knows((#[trigger] list[i]).0) && self.is_missed(
                list[i].0,
            ) && list[i].1 == first_six(self.missed_lines(list[i].0))
        &&& forall|k: int|
            0 <= k < self.wiki.by_name.len() && self.is_missed((#[trigger] self.wiki.by_name[k]).0)
                ==> exists|i: int| 0 <= i < list.len() && (#[trigger] list[i]).0
                == self.wiki.by_name[k].0
    }

    /// Whether `name` is long enough to be marked, and stands in the chapter
    /// unmarked.
    pub open spec fn is_missed(self, name: Seq<char>) -> bool {
        self.is_chapter() && name.len() >= 2 && self.missed_lines(name).len() > 0
    }
}

/// The first lines of a list: enough to say that there are more than five.
pub open spec fn first_six(lines: Seq<int>) -> Seq<int> {
    lines.take(least(lines.len() as int, 6))
}

/// Line numbers as numbers.
pub open spec fn as_ints(v: Seq<usize>) -> Seq<int> {
    v.map_values(|n: usize| n as int)
}

/// Names with line numbers as they are.
pub open spec fn missed_views(v: Seq<(String, Vec<usize>)>) -> Seq<(Seq<char>, Seq<int>)> {
    v.map_values(|m: (String, Vec<usize>)| (m.0@, as_ints(m.1@)))
}

/// Whether `a` comes before `b` in the order of their characters.
fn precedes(a: &str, b: &str) -> (r: bool)
    ensures
        r == comes_before(a@, b@),
{
    let x: Vec<char> = chars_of(a);
    let y: Vec<char> = chars_of(b);
    let mut i: usize = 0;
    while i < x.len() && i < y.len() && x[i] == y[i]
        invariant
            0 <= i <= x@.len(),
            i <= y@.len(),
            x@ == a@,
            y@ == b@,
            comes_before(a@, b@) == before_from(a@, b@, i as int),
        decreases x@.len() - i,
    {
        i += 1;
    }
    if i >= y.len() {
        false
    } else if i >= x.len() {
        true
    } else {
        x[i] < y[i]
    }
}

/// Puts `line` after the others while there are fewer than six.
fn note_line(seen: &mut Vec<usize>, line: usize, Ghost(all): Ghost<Seq<int>>)
    requires
        as_ints(old(seen)@) == first_six(all),
    ensures
        as_ints(final(seen)@) == first_six(all.push(line as int)),
{
    let ghost before = as_ints(seen@);
    if seen.len() < 6 {
        seen.push(line);
        assert(as_ints(seen@) =~= before.push(line as int));
        assert(first_six(all) =~= all);
        assert(first_six(all.push(line as int)) =~= all.push(line as int));
    } else {
        assert(before.len() == 6);
        assert(first_six(all.push(line as int)) =~= first_six(all));
    }
}

/// Whether the names come one before the other.
pub open spec fn in_order(v: Seq<(String, Vec<usize>)>) -> bool {
    forall|a: int, b: int|
        0 <= a < b < v.len() ==> comes_before((#[trigger] v[a]).0@, (#[trigger] v[b]).0@)
}

/// Puts `item` where its name belongs; gives the place.
fn insert_in_order(r: &mut Vec<(String, Vec<usize>)>, item: (String, Vec<usize>)) -> (at: usize)
    requires
        in_order(old(r)@),
        forall|a: int| 0 <= a < old(r)@.len() ==> (#[trigger] old(r)@[a]).0@ != item.0@,
    ensures
        in_order(final(r)@),
        at <= old(r)@.len(),
        final(r)@ == old(r)@.insert(at as int, item),
{
    let ghost had = r@;
    let ghost name = item.0@;
    let mut at: usize = 0;
    while at < r.len() && precedes(r[at].0.as_str(), item.0.as_str())
        invariant
            0 <= at <= r@.len(),
            r@ == had,
            name == item.0@,
            forall|a: int| 0 <= a < at ==> comes_before((#[trigger] had[a]).0@, name),
        decreases r@.len() - at,
    {
        at += 1;
    }
    proof {
        assert forall|a: int| at <= a < had.len() implies comes_before(
            name,
            (#[trigger] had[a]).0@,
        ) by {
            assert(had[at as int].0@ != name);
            lemma_before_total(had[at as int].0@, name, 0);
            if a > at {
                lemma_before_transitive(name, had[at as int].0@, had[a].0@, 0);
            }
        }
    }
    r.insert(at, item);
    proof {
        assert forall|a: int, b: int| 0 <= a < b < r@.len() implies comes_before(
            (#[trigger] r@[a]).0@,
            (#[trigger] r@[b]).0@,
        ) by {
            assert(a < at ==> r@[a] == had[a]);
            assert(a > at ==> r@[a] == had[a - 1]);
            assert(b < at ==> r@[b] == had[b]);
            assert(b > at ==> r@[b] == had[b - 1]);
        }
    }
    at
}

impl Editor {
    /// Whether `path` is one of the files of the wiki, or would be: saving it
    /// means reading the wiki again.
    pub fn is_wiki_file(&self, path: &FilePath) -> (r: bool)
        ensures
            r == self@.is_wiki_file(path@),
    {
        if self.wiki.came_from(path) {
            return true;
        }
        proof {
            reveal_strlit("wiki.md");
            reveal_strlit(".yumete");
            assert("wiki.md"@[0] == 'w');
            assert(".yumete"@.len() == 7);
        }
        if !path.is_named("wiki.md") {
            return false;
        }
        match path.parent() {
            Some(dir) => dir.is_named(".yumete"),
            None => false,
        }
    }

    /// Notes the places on line `l` at which `name` stands unmarked.
    fn note_missed(
        &self,
        name: &Vec<char>,
        l: usize,
        seen: &mut Vec<usize>,
        Ghost(all): Ghost<Seq<int>>,
    )
        requires
            self.wf(),
            l < line_count(self@.text()) <= usize::MAX,
            !self@.quotes(l as int),
            as_ints(old(seen)@) == first_six(all),
        ensures
            as_ints(final(seen)@) == first_six(
                all + missed_in_line(
                    line_body(self@.text(), l as int),
                    self@.names_on_line(l as int),
                    name@,
                    l + 1,
                    line_body(self@.text(), l as int).len() as int,
                ),
            ),
    {
        let chars: Vec<char> = self.current_buffer().line_chars(l);
        let ghost c = chars@;
        let ghost m = self@.names_on_line(l as int);
        let mut at: usize = 0;
        assert(all + missed_in_line(c, m, name@, l + 1, 0) =~= all);
        while at < chars.len()
            invariant
                0 <= at <= c.len(),
                self.wf(),
                l < line_count(self@.text()),
                !self@.quotes(l as int),
                c == chars@,
                m == self@.names_on_line(l as int),
                l < usize::MAX,
                as_ints(seen@) == first_six(all + missed_in_line(c, m, name@, l + 1, at as int)),
            decreases c.len() - at,
        {
            let ghost so_far = all + missed_in_line(c, m, name@, l + 1, at as int);
            if stands_at(&chars, at, name) {
                let marks: Vec<(usize, usize)> = self.names_in_prose(l);
                let mut marked: bool = false;
                let mut k: usize = 0;
                while k < marks.len()
                    invariant
                        0 <= k <= m.len(),
                        m == marks@,
                        at + name@.len() <= chars@.len(),
                        marked == exists|j: int|
                            0 <= j < k && (#[trigger] m[j]).0 == at && m[j].1 == at + name@.len(),
                    decreases m.len() - k,
                {
                    let _end: usize = chars.len();
                    if marks[k].0 == at && marks[k].1 == at + name.len() {
                        marked = true;
                    }
                    k += 1;
                }
                if !marked {
                    note_line(seen, l + 1, Ghost(so_far));
                    assert(so_far.push(l + 1) =~= all + missed_in_line(
                        c,
                        m,
                        name@,
                        l + 1,
                        at + 1,
                    ));
                }
            }
            at += 1;
        }
    }

    /// The first numbers of the lines on which `name` stands unmarked.
    fn find_missed(&self, name: &Vec<char>, quoting: &Vec<bool>) -> (seen: Vec<usize>)
        requires
            self.wf(),
            quoting@.len() == line_count(self@.text()),
            forall|l: int| 0 <= l < quoting@.len() ==> (#[trigger] quoting@[l]) == self@.quotes(l),
        ensures
            as_ints(seen@) == first_six(self@.missed_lines(name@)),
    {
        let lines: usize = self.current_buffer().line_count();
        let mut seen: Vec<usize> = Vec::new();
        let mut l: usize = 0;
        assert(as_ints(seen@) =~= first_six(Seq::empty()));
        while l < lines
            invariant
                0 <= l <= lines,
                self.wf(),
                lines == line_count(self@.text()),
                quoting@.len() == lines,
                forall|k: int|
                    0 <= k < quoting@.len() ==> (#[trigger] quoting@[k]) == self@.quotes(k),
                as_ints(seen@) == first_six(self@.missed_on(name@, l as int)),
            decreases lines - l,
        {
            if !quoting[l] {
                self.note_missed(name, l, &mut seen, Ghost(self@.missed_on(name@, l as int)));
            }
            l += 1;
        }
        seen
    }

    /// The names of the wiki that stand in the chapter on the page and are not
    /// marked there, each with the first lines of it.
    pub fn wiki_missed_here(&self) -> (r: Vec<(String, Vec<usize>)>)
        requires
            self.wf(),
        ensures
            self@.are_missed(missed_views(r@)),
    {
        let mut r: Vec<(String, Vec<usize>)> = Vec::new();
        let chapter: bool = match &self.current_buffer().path {
            Some(here) => !self.is_wiki_file(here),
            None => false,
        };
        assert(chapter == self@.is_chapter());
        if !chapter {
            return r;
        }
        let quoting: Vec<bool> = self.quoting_lines();
        let mut i: usize = 0;
        assert(gathered(self@, r@, 0)) by {
            reveal(gathered);
        }
        while i < self.wiki.by_name.len()
            invariant
                0 <= i <= self.wiki.by_name@.len(),
                self.wf(),
                self@.is_chapter(),
                in_order(r@),
                gathered(self@, r@, i as int),
                quoting@.len() == line_count(self@.text()),
                forall|l: int|
                    0 <= l < quoting@.len() ==> (#[trigger] quoting@[l]) == self@.quotes(l),
            decreases self.wiki.by_name@.len() - i,
        {
            let ghost had = r@;
            let name: &str = self.wiki.by_name[i].0.as_str();
            assert(self@.wiki.by_name[i as int].0 == name@);
            let chars: Vec<char> = chars_of(name);
            let mut lines: Vec<usize> = Vec::new();
            if chars.len() >= 2 {
                lines = self.find_missed(&chars, &quoting);
                assert(as_ints(lines@).len() == lines@.len());
            }
            if lines.len() > 0 {
                let item: (String, Vec<usize>) = (copied(name), lines);
                proof {
                    lemma_not_gathered(self@, had, i as int);
                }
                let at: usize = insert_in_order(&mut r, item);
                proof {
                    lemma_gather(self@, had, item, at as int, i as int);
                }
            } else {
                proof {
                    lemma_pass_by(self@, had, i as int);
                }
            }
            i += 1;
        }
        proof {
            lemma_gathered(self@, r@);
        }
        r
    }
}

/// Whether the list holds what the first `i` names ask for.
#[verifier::opaque]
pub open spec fn gathered(v: EditorView, r: Seq<(String, Vec<usize>)>, i: int) -> bool {
    &&& forall|a: int|
        0 <= a < r.len() ==> v.is_missed((#[trigger] r[a]).0@) && as_ints(r[a].1@) == first_six(
            v.missed_lines(r[a].0@),
        )
    &&& forall|a: int|
        0 <= a < r.len() ==> exists|k: int|
            0 <= k < i && (#[trigger] v.wiki.by_name[k]).0 == (#[trigger] r[a]).0@
    &&& forall|k: int|
        0 <= k < i && v.is_missed((#[trigger] v.wiki.by_name[k]).0) ==> exists|a: int|
            0 <= a < r.len() && (#[trigger] r[a]).0@ == v.wiki.by_name[k].0
}

proof fn lemma_not_gathered(v: EditorView, r: Seq<(String, Vec<usize>)>, i: int)
    requires
        v.wiki.wf(),
        0 <= i < v.wiki.by_name.len(),
        gathered(v, r, i),
    ensures
        forall|a: int| 0 <= a < r.len() ==> (#[trigger] r[a]).0@ != v.wiki.by_name[i].0,
{
    reveal(gathered);
    assert forall|a: int| 0 <= a < r.len() implies (#[trigger] r[a]).0@ != v.wiki.by_name[i].0 by {
        let k = choose|k: int| 0 <= k < i && (#[trigger] v.wiki.by_name[k]).0 == r[a].0@;
        assert(v.wiki.by_name[k].0 != v.wiki.by_name[i].0);
    }
}

proof fn lemma_pass_by(v: EditorView, r: Seq<(String, Vec<usize>)>, i: int)
    requires
        0 <= i < v.wiki.by_name.len(),
        gathered(v, r, i),
        !v.is_missed(v.wiki.by_name[i].0),
    ensures
        gathered(v, r, i + 1),
{
    reveal(gathered);
    assert forall|a: int| 0 <= a < r.len() implies exists|k: int|
        0 <= k < i + 1 && (#[trigger] v.wiki.by_name[k]).0 == (#[trigger] r[a]).0@ by {
        let k = choose|k: int| 0 <= k < i && (#[trigger] v.wiki.by_name[k]).0 == r[a].0@;
        assert(v.wiki.by_name[k].0 == r[a].0@);
    }
}

proof fn lemma_gather(
    v: EditorView,
    had: Seq<(String, Vec<usize>)>,
    item: (String, Vec<usize>),
    at: int,
    i: int,
)
    requires
        0 <= at <= had.len(),
        0 <= i < v.wiki.by_name.len(),
        v.wiki.by_name[i].0 == item.0@,
        v.is_missed(item.0@),
        as_ints(item.1@) == first_six(v.missed_lines(item.0@)),
        gathered(v, had, i),
    ensures
        gathered(v, had.insert(at, item), i + 1),
{
    reveal(gathered);
    let r = had.insert(at, item);
    assert forall|a: int| 0 <= a < r.len() implies v.is_missed((#[trigger] r[a]).0@) && as_ints(
        r[a].1@,
    ) == first_six(v.missed_lines(r[a].0@)) && exists|k: int|
        0 <= k < i + 1 && (#[trigger] v.wiki.by_name[k]).0 == r[a].0@ by {
        if a == at {
            assert(r[a] == item);
            assert(v.wiki.by_name[i].0 == r[a].0@);
        } else {
            let b = if a < at {
                a
            } else {
                a - 1
            };
            assert(r[a] == had[b]);
            let k = choose|k: int| 0 <= k < i && (#[trigger] v.wiki.by_name[k]).0 == had[b].0@;
            assert(v.wiki.by_name[k].0 == r[a].0@);
        }
    }
    assert forall|k: int| 0 <= k < i + 1 && v.is_missed((#[trigger] v.wiki.by_name[k]).0) implies
        exists|a: int| 0 <= a < r.len() && (#[trigger] r[a]).0@ == v.wiki.by_name[k].0 by {
        if k == i {
            assert(r[at] == item);
        } else {
            let a = choose|a: int|
                0 <= a < had.len() && (#[trigger] had[a]).0@ == v.wiki.by_name[k].0;
            if a < at {
                assert(r[a] == had[a]);
            } else {
                assert(r[a + 1] == had[a]);
            }
        }
    }
}

proof fn lemma_gathered(v: EditorView, r: Seq<(String, Vec<usize>)>)
    requires
        in_order(r),
        gathered(v, r, v.wiki.by_name.len() as int),
    ensures
        v.are_missed(missed_views(r)),
{
    reveal(gathered);
    let list = missed_views(r);
    assert forall|a: int| 0 <= a < list.len() implies v.wiki.knows((#[trigger] list[a]).0)
        && v.is_missed(list[a].0) && list[a].1 == first_six(v.missed_lines(list[a].0)) by {
        assert(list[a] == (r[a].0@, as_ints(r[a].1@)));
        let k = choose|k: int|
            0 <= k < v.wiki.by_name.len() && (#[trigger] v.wiki.by_name[k]).0 == r[a].0@;
        lemma_name_from(v.wiki.by_name, list[a].0, 0);
    }
    assert forall|k: int|
        0 <= k < v.wiki.by_name.len() && v.is_missed(
            (#[trigger] v.wiki.by_name[k]).0,
        ) implies exists|a: int|
        0 <= a < list.len() && (#[trigger] list[a]).0 == v.wiki.by_name[k].0 by {
        let a = choose|a: int| 0 <= a < r.len() && (#[trigger] r[a]).0@ == v.wiki.by_name[k].0;
        assert(list[a].0 == r[a].0@);
    }
    assert forall|a: int, b: int| 0 <= a < b < list.len() implies comes_before(
        (#[trigger] list[a]).0,
        (#[trigger] list[b]).0,
    ) by {
        assert(list[a].0 == r[a].0@);
        assert(list[b].0 == r[b].0@);
    }
}

} // verus!

//! Paths, as the names they are made of.

use vstd::prelude::*;
use crate::text::{copied, joined_with, join_with, pieces_of, same_text, split_on, views};

verus! {

/// A path as it is written: whether it begins at the root, and what stands
/// between the slashes after that.
#[derive(Debug, Clone, Eq)]
pub struct FilePath {
    pub absolute: bool,
    pub parts: Vec<String>,
}

/// What a [`FilePath`] says.
#[verifier::ext_equal]
pub struct PathView {
    pub absolute: bool,
    pub parts: Seq<Seq<char>>,
}

/// Whether a name between two slashes is a step of the path. An empty name is
/// none, and `.` is none but at the very beginning of a relative path.
pub open spec fn is_step(absolute: bool, at: int, name: Seq<char>) -> bool {
    name.len() > 0 && (name != seq!['.'] || (at == 0 && !absolute))
}

/// The steps among the names.
pub open spec fn steps(absolute: bool, names: Seq<Seq<char>>) -> Seq<Seq<char>>
    decreases names.len(),
{
    if names.len() == 0 {
        Seq::empty()
    } else {
        let rest = steps(absolute, names.drop_last());
        if is_step(absolute, names.len() - 1, names.last()) {
            rest.push(names.last())
        } else {
            rest
        }
    }
}

/// The names up to the last step, that with them.
pub open spec fn upto_last_step(absolute: bool, names: Seq<Seq<char>>) -> Seq<Seq<char>>
    decreases names.len(),
{
    if names.len() == 0 || is_step(absolute, names.len() - 1, names.last()) {
        names
    } else {
        upto_last_step(absolute, names.drop_last())
    }
}

/// Where the names go on behind the first `n` steps: at the next step from `i`
/// on, or behind the last name.
pub open spec fn behind_steps(absolute: bool, names: Seq<Seq<char>>, n: int, i: int) -> int
    decreases names.len() - i,
{
    if i >= names.len() {
        names.len() as int
    } else if !is_step(absolute, i, names[i]) {
        behind_steps(absolute, names, n, i + 1)
    } else if n > 0 {
        behind_steps(absolute, names, n - 1, i + 1)
    } else {
        i
    }
}

/// The path that a text is.
pub open spec fn path_of(s: Seq<char>) -> PathView {
    if s.len() > 0 && s[0] == '/' {
        PathView { absolute: true, parts: pieces_of(s.skip(1), '/') }
    } else {
        PathView { absolute: false, parts: pieces_of(s, '/') }
    }
}

impl PathView {
    /// The steps of the path.
    pub open spec fn steps(self) -> Seq<Seq<char>> {
        steps(self.absolute, self.parts)
    }

    /// Whether two paths have the same steps from the same beginning, however
    /// they are written.
    pub open spec fn same(self, other: PathView) -> bool {
        self.absolute == other.absolute && self.steps() == other.steps()
    }

    /// The last step, where it names something.
    pub open spec fn file_name(self) -> Option<Seq<char>> {
        let all = self.steps();
        if all.len() > 0 && all.last() != seq!['.', '.'] && all.last() != seq!['.'] {
            Some(all.last())
        } else {
            None
        }
    }

    /// The path without its last step.
    pub open spec fn parent(self) -> Option<PathView> {
        let upto = upto_last_step(self.absolute, self.parts);
        if upto.len() > 0 {
            Some(
                PathView {
                    absolute: self.absolute,
                    parts: upto_last_step(self.absolute, upto.drop_last()),
                },
            )
        } else {
            None
        }
    }

    /// `other` written behind this path, with one slash between; an absolute
    /// path stands for itself.
    pub open spec fn join(self, other: PathView) -> PathView {
        if other.absolute {
            other
        } else {
            PathView {
                absolute: self.absolute,
                parts: without_last_slash(self.parts) + if other.parts.len() > 0 {
                    other.parts
                } else {
                    seq![Seq::empty()]
                },
            }
        }
    }

    /// The path without the steps of `root` in front, where they are in front.
    pub open spec fn under(self, root: PathView) -> PathView {
        if self.absolute == root.absolute && root.steps().is_prefix_of(self.steps()) {
            let upto = upto_last_step(self.absolute, self.parts);
            PathView {
                absolute: false,
                parts: upto.skip(
                    behind_steps(self.absolute, upto, root.steps().len() as int, 0),
                ),
            }
        } else {
            self
        }
    }

    /// The path as it is written.
    pub open spec fn shown(self) -> Seq<char> {
        (if self.absolute {
            seq!['/']
        } else {
            Seq::empty()
        }) + joined_with(self.parts, seq!['/'])
    }
}

/// Names without the empty one that a slash at the end leaves.
pub open spec fn without_last_slash(names: Seq<Seq<char>>) -> Seq<Seq<char>> {
    if names.len() > 0 && names.last().len() == 0 {
        names.drop_last()
    } else {
        names
    }
}

impl View for FilePath {
    type V = PathView;

    open spec fn view(&self) -> PathView {
        PathView { absolute: self.absolute, parts: views(self.parts@) }
    }
}

/// A copy of the strings from `a` on.
pub fn copied_from(v: &Vec<String>, a: usize) -> (r: Vec<String>)
    requires
        a <= v@.len(),
    ensures
        views(r@) == views(v@).skip(a as int),
{
    let mut out: Vec<String> = Vec::new();
    let mut i: usize = a;
    while i < v.len()
        invariant
            a <= i <= v@.len(),
            views(out@) == views(v@).subrange(a as int, i as int),
        decreases v@.len() - i,
    {
        let ghost before = views(out@);
        out.push(copied(v[i].as_str()));
        assert(views(out@) =~= before.push(v@[i as int]@));
        assert(views(v@).subrange(a as int, i + 1) =~= before.push(v@[i as int]@));
        i += 1;
    }
    assert(views(v@).subrange(a as int, v@.len() as int) =~= views(v@).skip(a as int));
    out
}

/// Whether a name between two slashes is a step of the path.
fn steps_on(absolute: bool, at: usize, name: &str) -> (r: bool)
    ensures
        r == is_step(absolute, at as int, name@),
{
    proof {
        reveal_strlit(".");
        assert("."@ =~= seq!['.']);
    }
    name.unicode_len() > 0 && (!same_text(name, ".") || (at == 0 && !absolute))
}

/// How many names there are up to the last step.
fn count_upto_last_step(absolute: bool, parts: &Vec<String>, n: usize) -> (r: usize)
    requires
        n <= parts@.len(),
    ensures
        r <= n,
        upto_last_step(absolute, views(parts@).take(n as int)) == views(parts@).take(r as int),
        r > 0 ==> is_step(absolute, r - 1, views(parts@)[r - 1]),
{
    let ghost all = views(parts@);
    let mut k: usize = n;
    while k > 0 && !steps_on(absolute, k - 1, parts[k - 1].as_str())
        invariant
            0 <= k <= n <= parts@.len(),
            all == views(parts@),
            upto_last_step(absolute, all.take(n as int)) == upto_last_step(
                absolute,
                all.take(k as int),
            ),
        decreases k,
    {
        assert(all.take(k as int).drop_last() =~= all.take(k - 1));
        assert(all.take(k as int).last() == parts@[k - 1]@);
        k -= 1;
    }
    assert(k > 0 ==> all.take(k as int).last() == parts@[k - 1]@);
    k
}

/// Names that are no steps behind the last step are none of the steps.
pub proof fn lemma_upto_last_step(absolute: bool, names: Seq<Seq<char>>)
    ensures
        upto_last_step(absolute, names).len() <= names.len(),
        steps(absolute, upto_last_step(absolute, names)) == steps(absolute, names),
        upto_last_step(absolute, names).len() == 0 ==> steps(absolute, names).len() == 0,
        upto_last_step(absolute, names).len() > 0 ==> steps(absolute, names).len() > 0 && steps(
            absolute,
            names,
        ).last() == upto_last_step(absolute, names).last(),
    decreases names.len(),
{
    if names.len() > 0 && !is_step(absolute, names.len() - 1, names.last()) {
        lemma_upto_last_step(absolute, names.drop_last());
    }
}

/// The parent of a path has fewer names.
pub proof fn lemma_parent_is_shorter(p: PathView)
    ensures
        p.parent() matches Some(up) ==> up.parts.len() < p.parts.len(),
{
    lemma_upto_last_step(p.absolute, p.parts);
    let upto = upto_last_step(p.absolute, p.parts);
    if upto.len() > 0 {
        lemma_upto_last_step(p.absolute, upto.drop_last());
    }
}

impl PartialEq for FilePath {
    /// Whether two paths have the same steps, however they are written.
    fn eq(&self, other: &FilePath) -> (r: bool) {
        self.same(other)
    }
}

impl vstd::std_specs::cmp::PartialEqSpecImpl for FilePath {
    open spec fn obeys_eq_spec() -> bool {
        true
    }

    open spec fn eq_spec(&self, other: &FilePath) -> bool {
        self@.same(other@)
    }
}

impl FilePath {
    /// The path that a text is.
    pub fn new(s: &str) -> (r: FilePath)
        ensures
            r@ == path_of(s@),
    {
        let n: usize = s.unicode_len();
        let absolute: bool = n > 0 && s.get_char(0) == '/';
        if absolute {
            let rest: &str = s.substring_char(1, n);
            assert(rest@ =~= s@.skip(1));
            FilePath { absolute, parts: split_on(rest, '/') }
        } else {
            FilePath { absolute, parts: split_on(s, '/') }
        }
    }

    /// A copy of the path.
    pub fn copy(&self) -> (r: FilePath)
        ensures
            r@ == self@,
    {
        let parts: Vec<String> = copied_from(&self.parts, 0);
        assert(views(self.parts@).skip(0) =~= views(self.parts@));
        FilePath { absolute: self.absolute, parts }
    }

    /// How many names there are up to the last step.
    fn count_steps_end(&self) -> (n: usize)
        ensures
            n <= self.parts@.len(),
            self@.parts.take(n as int) == upto_last_step(self@.absolute, self@.parts),
            n > 0 ==> self@.steps().len() > 0 && self@.steps().last() == self.parts@[n - 1]@,
            n == 0 ==> self@.steps().len() == 0,
    {
        let n: usize = count_upto_last_step(self.absolute, &self.parts, self.parts.len());
        proof {
            let all = self@.parts;
            assert(all.take(all.len() as int) =~= all);
            lemma_upto_last_step(self@.absolute, all);
            assert(n > 0 ==> all.take(n as int).last() == self.parts@[n - 1]@);
        }
        n
    }

    /// Whether the last step is `name`.
    pub fn is_named(&self, name: &str) -> (r: bool)
        requires
            name@ != seq!['.'],
            name@ != seq!['.', '.'],
        ensures
            r == (self@.file_name() == Some(name@)),
    {
        let n: usize = self.count_steps_end();
        if n == 0 {
            false
        } else {
            same_text(self.parts[n - 1].as_str(), name)
        }
    }

    /// The last step, where it names something.
    pub fn file_name(&self) -> (r: Option<String>)
        ensures
            match r {
                Some(s) => self@.file_name() == Some(s@),
                None => self@.file_name() is None,
            },
    {
        proof {
            reveal_strlit(".");
            reveal_strlit("..");
            assert("."@ =~= seq!['.']);
            assert(".."@ =~= seq!['.', '.']);
        }
        let n: usize = self.count_steps_end();
        if n == 0 {
            return None;
        }
        let last: &str = self.parts[n - 1].as_str();
        if same_text(last, ".") || same_text(last, "..") {
            None
        } else {
            Some(copied(last))
        }
    }

    /// The path without its last step.
    pub fn parent(&self) -> (r: Option<FilePath>)
        ensures
            match r {
                Some(p) => self@.parent() == Some(p@),
                None => self@.parent() is None,
            },
    {
        let n: usize = self.count_steps_end();
        if n == 0 {
            assert(self@.parts.take(0).len() == 0);
            return None;
        }
        let k: usize = count_upto_last_step(self.absolute, &self.parts, n - 1);
        let mut p: FilePath = self.copy();
        p.parts.truncate(k);
        proof {
            let all = self@.parts;
            assert(all.take(n as int).drop_last() =~= all.take(n - 1));
            assert(p@.parts =~= all.take(k as int));
        }
        Some(p)
    }

    /// `other` seen from here.
    pub fn join(&self, other: &FilePath) -> (r: FilePath)
        ensures
            r@ == self@.join(other@),
    {
        if other.absolute {
            return other.copy();
        }
        let mut p: FilePath = self.copy();
        let n: usize = p.parts.len();
        assert(n > 0 ==> p@.parts.last() == p.parts@[n - 1]@);
        if n > 0 && p.parts[n - 1].as_str().unicode_len() == 0 {
            let _ = p.parts.pop();
        }
        assert(p@.parts =~= without_last_slash(self@.parts));
        let mut more: Vec<String> = copied_from(&other.parts, 0);
        if more.len() == 0 {
            more.push(String::new());
            assert(views(more@) =~= seq![Seq::empty()]);
        }
        let ghost before = p.parts@;
        let ghost added = more@;
        p.parts.append(&mut more);
        assert(views(p.parts@) =~= views(before) + views(added));
        assert(views(other.parts@).skip(0) =~= views(other.parts@));
        p
    }

    /// The steps of the path.
    fn list_steps(&self) -> (v: Vec<String>)
        ensures
            views(v@) == self@.steps(),
    {
        let ghost all = self@.parts;
        let mut out: Vec<String> = Vec::new();
        let mut i: usize = 0;
        assert(all.take(0) =~= Seq::empty());
        assert(views(out@) =~= Seq::empty());
        while i < self.parts.len()
            invariant
                0 <= i <= self.parts@.len(),
                all == self@.parts,
                views(out@) == steps(self@.absolute, all.take(i as int)),
            decreases self.parts@.len() - i,
        {
            let ghost before = views(out@);
            let name: &str = self.parts[i].as_str();
            assert(all.take(i + 1).drop_last() =~= all.take(i as int));
            assert(all.take(i + 1).last() == name@);
            if steps_on(self.absolute, i, name) {
                out.push(copied(name));
                assert(views(out@) =~= before.push(name@));
            }
            i += 1;
        }
        assert(all.take(all.len() as int) =~= all);
        out
    }

    /// Whether two paths have the same steps, however they are written.
    pub fn same(&self, other: &FilePath) -> (r: bool)
        ensures
            r == self@.same(other@),
    {
        let a: Vec<String> = self.list_steps();
        let b: Vec<String> = other.list_steps();
        proof {
            assert(views(a@).subrange(0, a@.len() as int) =~= views(a@));
        }
        self.absolute == other.absolute && a.len() == b.len() && begins_with(&a, &b)
    }

    /// The path without the steps of `root` in front, where they are in front.
    pub fn under(&self, root: &FilePath) -> (r: FilePath)
        ensures
            r@ == self@.under(root@),
    {
        let of_root: Vec<String> = root.list_steps();
        if self.absolute != root.absolute || !begins_with(&self.list_steps(), &of_root) {
            return self.copy();
        }
        let end: usize = self.count_steps_end();
        let ghost upto = self@.parts.take(end as int);
        let mut n: usize = of_root.len();
        let mut i: usize = 0;
        while i < end && (n > 0 || !steps_on(self.absolute, i, self.parts[i].as_str()))
            invariant
                0 <= i <= end <= self.parts@.len(),
                upto == self@.parts.take(end as int),
                behind_steps(self@.absolute, upto, of_root@.len() as int, 0) == behind_steps(
                    self@.absolute,
                    upto,
                    n as int,
                    i as int,
                ),
            decreases end - i,
        {
            assert(upto[i as int] == self.parts@[i as int]@);
            if steps_on(self.absolute, i, self.parts[i].as_str()) {
                n -= 1;
            }
            i += 1;
        }
        assert(i < end ==> upto[i as int] == self.parts@[i as int]@);
        let mut p: FilePath = self.copy();
        p.parts.truncate(end);
        assert(views(p.parts@) =~= upto);
        FilePath { absolute: false, parts: copied_from(&p.parts, i) }
    }

    /// The path as it is written.
    pub fn show(&self) -> (r: String)
        ensures
            r@ == self@.shown(),
    {
        proof {
            reveal_strlit("/");
            assert("/"@ =~= seq!['/']);
        }
        let names: String = join_with(self.parts.as_slice(), "/");
        let mut out: String = String::new();
        if self.absolute {
            out.push('/');
        }
        out.push_str(names.as_str());
        assert(out@ =~= self@.shown());
        out
    }
}

/// Whether the strings of `root` are the first strings of `all`.
fn begins_with(all: &Vec<String>, root: &Vec<String>) -> (r: bool)
    ensures
        r == views(root@).is_prefix_of(views(all@)),
        r && all@.len() == root@.len() ==> views(all@) == views(root@),
{
    if root.len() > all.len() {
        return false;
    }
    let ghost a = views(all@);
    let ghost b = views(root@);
    let mut i: usize = 0;
    while i < root.len()
        invariant
            0 <= i <= root@.len() <= all@.len(),
            a == views(all@),
            b == views(root@),
            forall|k: int| 0 <= k < i ==> a[k] == b[k],
        decreases root@.len() - i,
    {
        if !same_text(all[i].as_str(), root[i].as_str()) {
            assert(a[i as int] != b[i as int]);
            assert(a.subrange(0, b.len() as int)[i as int] == a[i as int]);
            return false;
        }
        i += 1;
    }
    assert(a.subrange(0, b.len() as int) =~= b);
    true
}

} // verus!

//! Where the files of the wiki are, and what `:wiki` does.

use vstd::prelude::*;
use crate::directive::{
    after_sign, comment_at, end_of, is_source_of, left_by, left_from, lemma_comment_at,
    lemma_next_stand, named_by, sign_from, source_from, Within, without_end, without_line_ends,
};
use crate::editor::{EditorView, Page, Side};
use crate::laws_of_wiki::{has_name, is_all_space, lemma_found, lemma_joined_on, lemma_space_ends};
use crate::number::decimal;
use crate::path::{
    behind_steps, is_step, lemma_parent_is_shorter, lemma_upto_last_step, path_of, PathView, steps,
    upto_last_step, without_last_slash,
};
use crate::say::{
    wiki_missed_at_text, wiki_missed_text, wiki_none_text, wiki_title_text, wiki_unmarkable_text,
};
use crate::state::{Render, Settings};
use crate::text::{
    after_space, before_space, is_space, joined_with, next_stand, pieces_of, trimmed,
};
use crate::wiki::{Mark, SourceView, WikiData};
use crate::wiki_command::{
    found_from, item_text, kept_in, lines_text, missed_text, section_text, short_names_text,
    source_text, sources_text, StepView, upward,
};

verus! {

// ---- Paths ----------------------------------------------------------------

proof fn lemma_joined_back(s: Seq<char>, sep: char)
    ensures
        pieces_of(s, sep).len() > 0,
        joined_with(pieces_of(s, sep), seq![sep]) == s,
        forall|k: int|
            0 <= k < pieces_of(s, sep).len() ==> !(#[trigger] pieces_of(s, sep)[k]).contains(sep),
    decreases s.len(),
{
    let all = pieces_of(s, sep);
    if s.len() == 0 {
        assert(joined_with(all, seq![sep]) =~= s);
        assert(!all[0].contains(sep));
    } else {
        let rest = pieces_of(s.drop_last(), sep);
        lemma_joined_back(s.drop_last(), sep);
        if s.last() == sep {
            assert(all.drop_last() =~= rest);
            assert(joined_with(all, seq![sep]) =~= s);
            assert forall|k: int| 0 <= k < all.len() implies !(#[trigger] all[k]).contains(sep) by {
                if k < rest.len() {
                    assert(all[k] == rest[k]);
                }
            }
        } else {
            assert(all.drop_last() =~= rest.drop_last());
            assert(all.last() == rest.last().push(s.last()));
            assert(s.drop_last().push(s.last()) =~= s);
            if rest.len() == 1 {
                assert(all[0] == rest[0].push(s.last()));
            } else {
                let head = joined_with(rest.drop_last(), seq![sep]) + seq![sep];
                assert(head + rest.last().push(s.last()) =~= (head + rest.last()).push(s.last()));
            }
            assert forall|k: int| 0 <= k < all.len() implies !(#[trigger] all[k]).contains(sep) by {
                if k < rest.len() - 1 {
                    assert(all[k] == rest[k]);
                } else {
                    assert(!rest[k].contains(sep));
                    assert(all[k] == rest[k].push(s.last()));
                    if all[k].contains(sep) {
                        let i = choose|i: int| 0 <= i < all[k].len() && all[k][i] == sep;
                        assert(rest[k][i] == sep);
                    }
                }
            }
        }
    }
}

/// A path is shown as it is written, and the names in it hold no slash.
pub proof fn law_a_path_is_shown_as_it_is_written(s: Seq<char>)
    ensures
        path_of(s).shown() == s,
        path_of(s).absolute == (s.len() > 0 && s[0] == '/'),
        forall|k: int|
            0 <= k < path_of(s).parts.len() ==> !(#[trigger] path_of(s).parts[k]).contains('/'),
{
    if s.len() > 0 && s[0] == '/' {
        lemma_joined_back(s.skip(1), '/');
        assert(seq!['/'] + s.skip(1) =~= s);
    } else {
        lemma_joined_back(s, '/');
        assert(Seq::<char>::empty() + s =~= s);
    }
}

/// Whether the name at `i` leads anywhere: one that is empty does not, and `.`
/// does not but at the beginning of a relative path.
pub open spec fn leads_on(p: PathView, i: int) -> bool {
    &&& 0 <= i < p.parts.len()
    &&& p.parts[i].len() > 0
    &&& p.parts[i] == seq!['.'] ==> i == 0 && !p.absolute
}

/// Whether `at` has the places of the names that lead on, in their order, and of
/// no others.
pub open spec fn are_places(p: PathView, at: Seq<int>) -> bool {
    &&& forall|a: int, b: int| 0 <= a < b < at.len() ==> #[trigger] at[a] < #[trigger] at[b]
    &&& forall|k: int| 0 <= k < at.len() ==> leads_on(p, #[trigger] at[k])
    &&& forall|i: int| #[trigger] leads_on(p, i) ==> at.contains(i)
}

proof fn lemma_places(p: PathView) -> (at: Seq<int>)
    ensures
        are_places(p, at),
        at.len() == p.steps().len(),
        forall|k: int| 0 <= k < at.len() ==> p.steps()[k] == p.parts[#[trigger] at[k]],
    decreases p.parts.len(),
{
    let n = p.parts.len() as int;
    if n == 0 {
        assert(are_places(p, Seq::<int>::empty()));
        Seq::empty()
    } else {
        let less = PathView { absolute: p.absolute, parts: p.parts.drop_last() };
        let rest = lemma_places(less);
        assert forall|i: int| 0 <= i < n - 1 implies leads_on(p, i) == #[trigger] leads_on(
            less,
            i,
        ) by {
            assert(less.parts[i] == p.parts[i]);
        }
        assert forall|k: int| 0 <= k < rest.len() implies 0 <= #[trigger] rest[k] < n - 1
            && p.parts[rest[k]] == less.parts[rest[k]] by {
            assert(leads_on(less, rest[k]));
        }
        let at = if leads_on(p, n - 1) {
            rest.push(n - 1)
        } else {
            rest
        };
        assert(is_step(p.absolute, n - 1, p.parts.last()) == leads_on(p, n - 1));
        assert forall|k: int| 0 <= k < at.len() implies leads_on(p, #[trigger] at[k])
            && p.steps()[k] == p.parts[at[k]] by {
            if k < rest.len() {
                assert(at[k] == rest[k]);
                assert(leads_on(less, rest[k]));
                assert(p.steps()[k] == less.steps()[k]);
            }
        }
        assert forall|i: int| #[trigger] leads_on(p, i) implies at.contains(i) by {
            if i < n - 1 {
                assert(leads_on(less, i));
                let k = choose|k: int| 0 <= k < rest.len() && rest[k] == i;
                assert(at[k] == i);
            } else {
                assert(at[at.len() - 1] == i);
            }
        }
        at
    }
}

/// The steps of a path are the names in it that lead on, in their order.
pub proof fn law_steps_are_the_names_that_lead_on(p: PathView)
    ensures
        exists|at: Seq<int>| #[trigger]
            are_places(p, at) && at.len() == p.steps().len() && forall|k: int|
                0 <= k < at.len() ==> p.steps()[k] == p.parts[#[trigger] at[k]],
{
    let at = lemma_places(p);
    assert(are_places(p, at));
}

/// The parent of a path has its steps but the last, and a path without steps has
/// none. The last step is the name of the file, but for `.` and `..`.
pub proof fn law_a_parent_has_one_step_less(p: PathView)
    ensures
        p.parent() is Some == (p.steps().len() > 0),
        p.parent() matches Some(up) ==> up.steps() == p.steps().drop_last() && up.absolute
            == p.absolute,
        p.file_name() matches Some(name) ==> p.steps().len() > 0 && name == p.steps().last(),
        p.file_name() is None == (p.steps().len() == 0 || p.steps().last() == seq!['.']
            || p.steps().last() == seq!['.', '.']),
{
    lemma_upto_last_step(p.absolute, p.parts);
    let upto = upto_last_step(p.absolute, p.parts);
    if upto.len() > 0 {
        lemma_upto_last_step(p.absolute, upto.drop_last());
        lemma_ends_in_step(p.absolute, p.parts);
        assert(steps(p.absolute, upto) =~= steps(p.absolute, upto.drop_last()).push(upto.last()));
        assert(p.steps().drop_last() =~= steps(p.absolute, upto.drop_last()));
    }
}

proof fn lemma_ends_in_step(absolute: bool, names: Seq<Seq<char>>)
    ensures
        ({
            let upto = upto_last_step(absolute, names);
            &&& upto.len() > 0 ==> is_step(absolute, upto.len() - 1, upto.last())
            &&& upto == names.take(upto.len() as int)
            &&& upto.len() <= names.len()
        }),
    decreases names.len(),
{
    if names.len() > 0 && !is_step(absolute, names.len() - 1, names.last()) {
        lemma_ends_in_step(absolute, names.drop_last());
        let upto = upto_last_step(absolute, names);
        assert(names.drop_last().take(upto.len() as int) =~= names.take(upto.len() as int));
    } else {
        assert(names.take(names.len() as int) =~= names);
    }
}

/// Whether a text that is not empty ends in a slash.
pub open spec fn ends_in_slash(s: Seq<char>) -> bool {
    s.len() > 0 && s.last() == '/'
}

/// A relative path that is joined to another is written behind it, with a slash
/// between where there is none; an absolute one stands for itself.
pub proof fn law_a_joined_path_is_written_behind(s: Seq<char>, t: Seq<char>)
    ensures
        path_of(s).join(path_of(t)).shown() == if t.len() > 0 && t[0] == '/' {
            t
        } else if s.len() == 0 || ends_in_slash(s) {
            s + t
        } else {
            s + seq!['/'] + t
        },
{
    law_a_path_is_shown_as_it_is_written(s);
    law_a_path_is_shown_as_it_is_written(t);
    let p = path_of(s);
    let q = path_of(t);
    let sep = seq!['/'];
    lemma_joined_back(s, '/');
    lemma_joined_back(s.skip(1), '/');
    lemma_joined_back(t, '/');
    if !q.absolute {
        let head = without_last_slash(p.parts);
        let written = joined_with(p.parts, sep);
        assert(p.join(q).parts == head + q.parts);
        if p.parts.last().len() == 0 {
            if head.len() == 0 {
                assert(p.parts.len() == 1);
                assert(head + q.parts =~= q.parts);
                assert(written.len() == 0);
                assert(p.join(q).shown() =~= s + t);
            } else {
                lemma_joined_on(head, q.parts, sep);
                assert(written =~= joined_with(head, sep) + sep);
                assert(s.last() == '/');
                assert(p.join(q).shown() =~= s + t);
            }
        } else {
            lemma_joined_on(p.parts, q.parts, sep);
            assert(!ends_in_slash(s)) by {
                let last = p.parts.last();
                assert(written.len() >= last.len());
                if p.parts.len() > 1 {
                    assert(written.last() == last.last());
                }
                assert(last.last() != '/') by {
                    assert(!p.parts[p.parts.len() - 1].contains('/'));
                    assert(last.contains(last.last()));
                }
                assert(s.last() == written.last());
            }
            assert(p.join(q).shown() =~= s + sep + t);
        }
    }
}

/// What is joined to a path that says where it is leads on from there: its steps
/// come behind the path's own.
pub proof fn law_a_joined_path_leads_on(p: PathView, q: PathView)
    requires
        !q.absolute,
        q.parts.len() > 0 ==> q.parts[0] != seq!['.'],
    ensures
        p.join(q).steps() == p.steps() + q.steps(),
        p.join(q).absolute == p.absolute,
{
    let head = without_last_slash(p.parts);
    if p.parts.len() > 0 && p.parts.last().len() == 0 {
        assert(steps(p.absolute, p.parts) == steps(p.absolute, head));
    }
    let tail = if q.parts.len() > 0 {
        q.parts
    } else {
        seq![Seq::<char>::empty()]
    };
    assert(seq!['.'].len() == 1);
    lemma_steps_behind(p.absolute, head, tail);
    if q.parts.len() == 0 {
        assert(tail.drop_last() =~= q.parts);
        assert(steps(false, tail) == steps(false, q.parts));
    }
}

proof fn lemma_steps_behind(absolute: bool, head: Seq<Seq<char>>, tail: Seq<Seq<char>>)
    requires
        tail.len() > 0 ==> tail[0] != seq!['.'],
    ensures
        steps(absolute, head + tail) == steps(absolute, head) + steps(false, tail),
    decreases tail.len(),
{
    let all = head + tail;
    if tail.len() == 0 {
        assert(all =~= head);
        assert(steps(absolute, head) + steps(false, tail) =~= steps(absolute, head));
    } else {
        let less = tail.drop_last();
        assert(all.drop_last() =~= head + less);
        lemma_steps_behind(absolute, head, less);
        assert(is_step(absolute, all.len() - 1, all.last()) == is_step(
            false,
            tail.len() - 1,
            tail.last(),
        ));
        assert(steps(absolute, all) =~= steps(absolute, head) + steps(false, tail));
    }
}

/// A path that has the steps of another in front is shown without them; any other
/// is shown as it is.
pub proof fn law_what_is_under_a_path_is_what_comes_behind(p: PathView, root: PathView)
    ensures
        p.absolute == root.absolute && root.steps().is_prefix_of(p.steps()) ==> !p.under(
            root,
        ).absolute && p.under(root).steps() == p.steps().skip(root.steps().len() as int),
        !(p.absolute == root.absolute && root.steps().is_prefix_of(p.steps())) ==> p.under(root)
            == p,
{
    if p.absolute == root.absolute && root.steps().is_prefix_of(p.steps()) {
        let upto = upto_last_step(p.absolute, p.parts);
        let n = root.steps().len() as int;
        lemma_upto_last_step(p.absolute, p.parts);
        lemma_behind(p.absolute, upto, n, 0);
        let b = behind_steps(p.absolute, upto, n, 0);
        let (head, tail) = (upto.take(b), upto.skip(b));
        assert(head + tail =~= upto);
        assert(upto.take(0) =~= Seq::<Seq<char>>::empty());
        assert(upto.subrange(0, b) =~= head);
        if b > 0 || p.absolute {
            if tail.len() > 0 {
                assert(tail[0] == upto[b]);
                assert(is_step(p.absolute, b, upto[b]));
            }
            lemma_steps_behind(p.absolute, head, tail);
        } else {
            assert(tail =~= upto);
            assert(head =~= Seq::<Seq<char>>::empty());
        }
        assert(steps(p.absolute, head).len() == n);
        assert(steps(p.absolute, upto) == p.steps());
        assert(steps(false, tail) =~= p.steps().skip(n));
    }
}

/// Behind so many steps there are so many in front.
proof fn lemma_behind(absolute: bool, names: Seq<Seq<char>>, n: int, i: int)
    requires
        0 <= i <= names.len(),
        0 <= n <= steps(absolute, names).len() - steps(absolute, names.take(i)).len(),
    ensures
        i <= behind_steps(absolute, names, n, i) <= names.len(),
        ({
            let b = behind_steps(absolute, names, n, i);
            &&& steps(absolute, names.take(b)).len() == steps(absolute, names.take(i)).len() + n
            &&& b < names.len() ==> is_step(absolute, b, names[b])
        }),
    decreases names.len() - i,
{
    assert(names.take(names.len() as int) =~= names);
    if i < names.len() {
        let next = names.take(i + 1);
        assert(next.drop_last() =~= names.take(i));
        assert(next.last() == names[i]);
        if !is_step(absolute, i, names[i]) {
            lemma_behind(absolute, names, n, i + 1);
        } else if n > 0 {
            lemma_behind(absolute, names, n - 1, i + 1);
        }
    }
}

// ---- The files of the wiki ------------------------------------------------

/// Whether the steps of two paths are the same from the same beginning.
pub open spec fn leads_the_same(p: PathView, q: PathView) -> bool {
    p.absolute == q.absolute && p.steps() == q.steps()
}

/// A file is one of the wiki's where it was read for it, however its path is
/// spelled, or where it is a `wiki.md` in a directory `.yumete`.
pub proof fn law_a_file_of_the_wiki_was_read_or_could_be(v: EditorView, path: PathView)
    ensures
        v.is_wiki_file(path) <==> {
            let names = path.steps();
            let n = names.len() as int;
            ||| exists|i: int|
                0 <= i < v.wiki.sources.len() && (
                #[trigger] v.wiki.sources[i] matches SourceView::Read { path: p, .. }
                    && leads_the_same(p, path))
            ||| n >= 2 && names[n - 1] == "wiki.md"@ && names[n - 2] == ".yumete"@
        },
{
    law_a_parent_has_one_step_less(path);
    reveal_strlit("wiki.md");
    reveal_strlit(".yumete");
    assert("wiki.md"@.len() == 7);
    assert(".yumete"@.len() == 7);
    assert(seq!['.'].len() == 1);
    assert(seq!['.', '.'].len() == 2);
    match path.parent() {
        Some(dir) => {
            law_a_parent_has_one_step_less(dir);
        },
        None => {},
    }
    if v.wiki.came_from(path) {
        let i = choose|i: int|
            0 <= i < v.wiki.sources.len() && (
            #[trigger] v.wiki.sources[i] matches SourceView::Read { path: p, .. } && p.same(path));
        assert(v.wiki.sources[i] matches SourceView::Read { path: p, .. } && leads_the_same(
            p,
            path,
        ));
    }
    if exists|i: int|
        0 <= i < v.wiki.sources.len() && (
        #[trigger] v.wiki.sources[i] matches SourceView::Read { path: p, .. } && leads_the_same(
            p,
            path,
        )) {
        let i = choose|i: int|
            0 <= i < v.wiki.sources.len() && (
            #[trigger] v.wiki.sources[i] matches SourceView::Read { path: p, .. }
                && leads_the_same(p, path));
        assert(v.wiki.sources[i] matches SourceView::Read { path: p, .. } && p.same(path));
    }
}

/// The directories upward begin with the directory itself, each has one step less
/// than the one before, and the last has none.
pub proof fn law_the_way_up_is_a_step_at_a_time(dir: PathView)
    ensures
        upward(dir).len() == dir.steps().len() + 1,
        upward(dir)[0] == dir,
        forall|k: int|
            0 <= k < upward(dir).len() ==> (#[trigger] upward(dir)[k]).absolute == dir.absolute
                && upward(dir)[k].steps() == dir.steps().take(dir.steps().len() - k),
    decreases dir.parts.len(),
{
    law_a_parent_has_one_step_less(dir);
    let all = upward(dir);
    let n = dir.steps().len() as int;
    assert(dir.steps().take(n) =~= dir.steps());
    match dir.parent() {
        Some(up) => {
            lemma_parent_is_shorter(dir);
            law_the_way_up_is_a_step_at_a_time(up);
            assert forall|k: int| 0 <= k < all.len() implies (#[trigger] all[k]).absolute
                == dir.absolute && all[k].steps() == dir.steps().take(n - k) by {
                if k > 0 {
                    assert(all[k] == upward(up)[k - 1]);
                    assert(up.steps().take(n - 1 - (k - 1)) =~= dir.steps().take(n - k));
                }
            }
        },
        None => {},
    }
}

/// Whether the first directory with a wiki in it is the one at `i`.
pub open spec fn is_first_found(found: Seq<(bool, bool)>, i: int) -> bool {
    &&& 0 <= i < found.len()
    &&& found[i].0 || found[i].1
    &&& forall|j: int| 0 <= j < i ==> !(#[trigger] found[j]).0 && !found[j].1
}

proof fn lemma_first_found(found: Seq<(bool, bool)>, n: int, i: int, k: int)
    requires
        0 <= k <= i,
        i < n ==> is_first_found(found, i),
        i >= n ==> i == n && forall|j: int|
            0 <= j < n && j < found.len() ==> !(#[trigger] found[j]).0 && !found[j].1,
    ensures
        found_from(found, n, k) == i,
    decreases i - k,
{
    if k < i && k < found.len() {
        assert(!found[k].0 && !found[k].1);
        lemma_first_found(found, n, i, k + 1);
    }
}

proof fn lemma_kept_in(dir: PathView, name: Seq<char>)
    requires
        name == "wiki.md"@ || name == "wiki.txt"@,
    ensures
        kept_in(dir, name).absolute == dir.absolute,
        kept_in(dir, name).steps() == dir.steps() + seq![".yumete"@, name],
{
    reveal_strlit(".yumete");
    reveal_strlit("wiki.md");
    reveal_strlit("wiki.txt");
    lemma_one_name(".yumete"@);
    lemma_one_name(name);
    let there = dir.join(path_of(".yumete"@));
    law_a_joined_path_leads_on(dir, path_of(".yumete"@));
    law_a_joined_path_leads_on(there, path_of(name));
    assert(kept_in(dir, name).steps() =~= dir.steps() + seq![".yumete"@, name]);
}

/// A text without a slash is a path of one name.
proof fn lemma_one_name(s: Seq<char>)
    requires
        s.len() > 1,
        forall|k: int| 0 <= k < s.len() ==> s[k] != '/',
    ensures
        !path_of(s).absolute,
        path_of(s).parts == seq![s],
        path_of(s).steps() == seq![s],
        s != seq!['.'],
{
    lemma_no_cut(s, '/');
    assert(seq!['.'].len() == 1);
    let names = seq![s];
    assert(names.drop_last() =~= Seq::<Seq<char>>::empty());
    assert(steps(false, names.drop_last()).len() == 0);
    assert(is_step(false, 0, s));
    assert(steps(false, names) =~= names);
}

proof fn lemma_no_cut(s: Seq<char>, sep: char)
    requires
        forall|k: int| 0 <= k < s.len() ==> s[k] != sep,
    ensures
        pieces_of(s, sep) == seq![s],
    decreases s.len(),
{
    if s.len() > 0 {
        lemma_no_cut(s.drop_last(), sep);
        assert(s.drop_last().push(s.last()) =~= s);
        let rest = pieces_of(s.drop_last(), sep);
        assert(rest.last() == s.drop_last());
        assert(pieces_of(s, sep) == rest.drop_last().push(s));
        assert(pieces_of(s, sep) =~= seq![s]);
    } else {
        assert(s =~= Seq::<char>::empty());
        assert(pieces_of(s, sep) =~= seq![s]);
    }
}

/// The book's own wiki is in the directory `.yumete` nearest to the file on the
/// page, going up from the directory the file is in: its `wiki.md`, or else its
/// `wiki.txt`. Where there is none, it will be the `wiki.md` under the root of the
/// book.
pub proof fn law_the_nearest_wiki_is_the_books(
    v: EditorView,
    cwd: PathView,
    found: Seq<(bool, bool)>,
    i: int,
)
    requires
        i >= 0,
    ensures
        ({
            let (absolute, way) = match v.buffer().path {
                Some(path) => if path.steps().len() > 0 {
                    (path.absolute, path.steps().drop_last())
                } else {
                    (cwd.absolute, cwd.steps())
                },
                None => (cwd.absolute, cwd.steps()),
            };
            let r = v.book_wiki(cwd, found);
            &&& i <= way.len() && is_first_found(found, i) ==> r.absolute == absolute
                && r.steps() == way.take(way.len() - i) + seq![
                ".yumete"@,
                if found[i].0 {
                    "wiki.md"@
                } else {
                    "wiki.txt"@
                },
            ]
            &&& (forall|j: int|
                0 <= j <= way.len() && j < found.len() ==> !(#[trigger] found[j]).0
                    && !found[j].1) ==> r.absolute == v.places.root.absolute && r.steps()
                == v.places.root.steps() + seq![".yumete"@, "wiki.md"@]
        }),
{
    match v.buffer().path {
        Some(path) => {
            law_a_parent_has_one_step_less(path);
        },
        None => {},
    }
    let dir = v.looks_from(cwd);
    law_the_way_up_is_a_step_at_a_time(dir);
    let dirs = upward(dir);
    let n = dirs.len() as int;
    if i < n && is_first_found(found, i) {
        lemma_first_found(found, n, i, 0);
        lemma_kept_in(dirs[i], if found[i].0 {
            "wiki.md"@
        } else {
            "wiki.txt"@
        });
    }
    if forall|j: int|
        0 <= j < n && j < found.len() ==> !(#[trigger] found[j]).0 && !found[j].1 {
        lemma_first_found(found, n, n, 0);
        lemma_kept_in(v.places.root, "wiki.md"@);
    }
}

/// The global wiki is the `wiki.md` in the data directory, where there is one.
pub proof fn law_the_global_wiki_is_in_the_data_directory(v: EditorView)
    ensures
        v.global_wiki() is Some == v.places.data_dir is Some,
        v.global_wiki() matches Some(path) ==> path.absolute == (v.places.data_dir->0).absolute
            && path.steps() == (v.places.data_dir->0).steps().push("wiki.md"@),
{
    match v.places.data_dir {
        Some(dir) => {
            reveal_strlit("wiki.md");
            lemma_one_name("wiki.md"@);
            law_a_joined_path_leads_on(dir, path_of("wiki.md"@));
            assert(dir.steps() + seq!["wiki.md"@] =~= dir.steps().push("wiki.md"@));
        },
        None => {},
    }
}

// ---- `:wiki` --------------------------------------------------------------

/// Whether nothing but the panels, the way names are marked and what is said may
/// be different.
pub open spec fn writes_nothing(v: EditorView, w: EditorView) -> bool {
    w == (EditorView {
        panels: w.panels,
        settings: w.settings,
        status: w.status,
        ..v
    }) && w.settings == (Settings { wiki_mark: w.settings.wiki_mark, ..v.settings })
}

/// No word behind `:wiki` changes what is written. `hide`, `color` and `line` say
/// how names are marked, and nothing else does; `edit` and `global` open a file,
/// and the latter the global wiki, where it can be; alone it reports, and any other
/// word has the wiki read again.
pub proof fn law_wiki_and_a_word(v: EditorView, word: Seq<char>)
    ensures
        ({
            let (w, step) = v.wiki_step(Some(word));
            let marks = word == "hide"@ || word == "color"@ || word == "line"@;
            &&& writes_nothing(v, w)
            &&& word == "hide"@ ==> w.settings.wiki_mark == Mark::Off
            &&& word == "color"@ ==> w.settings.wiki_mark == Mark::Color
            &&& word == "line"@ ==> w.settings.wiki_mark == Mark::Line
            &&& !marks ==> w.settings == v.settings
            &&& word != "panel"@ ==> w.panels == v.panels
            &&& (marks || word == "panel"@) ==> step == StepView::Done
            &&& step == StepView::EditBook <==> word == "edit"@
            &&& word == "global"@ ==> step == match v.global_wiki() {
                Some(path) => StepView::Open(path),
                None => StepView::Done,
            }
            &&& step == StepView::Reload <==> !marks && word != "panel"@ && word != "edit"@ && word
                != "global"@
            &&& step != StepView::Report
            &&& step != StepView::Done ==> w == v
        }),
        v.wiki_step(None) == (v, StepView::Report),
{
    reveal_strlit("edit");
    reveal_strlit("panel");
    reveal_strlit("hide");
    reveal_strlit("color");
    reveal_strlit("line");
    reveal_strlit("global");
    assert("edit"@[0] == 'e' && "panel"@[0] == 'p' && "hide"@[0] == 'h' && "color"@[0] == 'c'
        && "line"@[0] == 'l' && "global"@[0] == 'g');
}

/// Names that are hidden are marked nowhere.
pub proof fn law_hidden_names_are_not_marked(v: EditorView, l: int)
    ensures
        v.wiki_step(Some("hide"@)).0.marks_on_line(l).len() == 0,
        v.wiki.by_name.len() > 0 && v.settings.render != Render::Off ==> v.wiki_step(
            Some("color"@),
        ).0.marks_on_line(l) == v.names_on_line(l) && v.wiki_step(Some("line"@)).0.marks_on_line(l)
            == v.names_on_line(l),
{
    law_wiki_and_a_word(v, "hide"@);
    law_wiki_and_a_word(v, "color"@);
    law_wiki_and_a_word(v, "line"@);
    reveal_strlit("edit");
    reveal_strlit("panel");
    reveal_strlit("hide");
    reveal_strlit("color");
    reveal_strlit("line");
    reveal_strlit("global");
    assert("edit"@[0] == 'e' && "panel"@[0] == 'p' && "hide"@[0] == 'h' && "color"@[0] == 'c'
        && "line"@[0] == 'l' && "global"@[0] == 'g');
}

/// The wiki's panel is put up where it is not, on the left, and taken down where
/// it is; the other side stays, and the keys are never left in the panel: they stay
/// in the writing, or where they were on the other side.
pub proof fn law_the_panel_goes_up_and_comes_down(v: EditorView)
    ensures
        ({
            let (w, step) = v.wiki_step(Some("panel"@));
            let (was, is) = (v.panels, w.panels);
            &&& step == StepView::Done
            &&& was.left == Some(Page::Wiki) ==> is.left is None && is.right == was.right
                && is.focus == if was.focus == Some(Side::Left) {
                None
            } else {
                was.focus
            }
            &&& was.left != Some(Page::Wiki) && was.right == Some(Page::Wiki) ==> is.right is None
                && is.left == was.left && is.focus == if was.focus == Some(Side::Right) {
                None
            } else {
                was.focus
            }
            &&& was.left != Some(Page::Wiki) && was.right != Some(Page::Wiki) ==> is.left == Some(
                Page::Wiki,
            ) && is.right == was.right && is.focus is None
            &&& w == (EditorView { panels: is, ..v })
        }),
{
    reveal_strlit("edit");
    reveal_strlit("panel");
    assert("edit"@[0] == 'e' && "panel"@[0] == 'p');
}

// ---- A line that names a file ---------------------------------------------

/// Whether `lit` stands at `i`.
pub open spec fn is_at(s: Seq<char>, lit: Seq<char>, i: int) -> bool {
    &&& 0 <= i
    &&& i + lit.len() <= s.len()
    &&& forall|k: int| 0 <= k < lit.len() ==> s[i + k] == #[trigger] lit[k]
}

proof fn lemma_is_at(s: Seq<char>, lit: Seq<char>, i: int)
    requires
        0 <= i <= s.len(),
    ensures
        lit.is_prefix_of(s.skip(i)) == is_at(s, lit, i),
{
    let rest = s.skip(i);
    if is_at(s, lit, i) {
        assert(rest.subrange(0, lit.len() as int) =~= lit);
    }
    if lit.is_prefix_of(rest) {
        assert forall|k: int| 0 <= k < lit.len() implies s[i + k] == #[trigger] lit[k] by {
            assert(rest.subrange(0, lit.len() as int)[k] == rest[k]);
        }
    }
}

/// Where a thing stands nowhere from a place on, none is found there.
proof fn lemma_none_stands(s: Seq<char>, lit: Seq<char>, i: int)
    requires
        0 <= i <= s.len(),
        forall|k: int| i <= k ==> !#[trigger] is_at(s, lit, k),
    ensures
        next_stand(s, lit, i) is None,
    decreases s.len() - i,
{
    if i + lit.len() <= s.len() {
        lemma_is_at(s, lit, i);
        if i < s.len() {
            lemma_none_stands(s, lit, i + 1);
        } else {
            assert(is_at(s, lit, i));
        }
    }
}

/// Whether a comment opens at `i`, in either way.
pub open spec fn opens_at(s: Seq<char>, i: int) -> bool {
    is_at(s, "<!--"@, i) || is_at(s, "%%"@, i)
}

proof fn lemma_comment_opens(s: Seq<char>, i: int)
    requires
        0 <= i <= s.len(),
    ensures
        comment_at(s, i) is Some == opens_at(s, i),
        is_at(s, "<!--"@, i) ==> comment_at(s, i) == Some((i + 4, true)),
        is_at(s, "%%"@, i) ==> comment_at(s, i) == Some((i + 2, false)),
{
    reveal_strlit("<!--");
    reveal_strlit("%%");
    lemma_is_at(s, "<!--"@, i);
    lemma_is_at(s, "%%"@, i);
    if is_at(s, "%%"@, i) {
        assert(s[i + 0] == "%%"@[0]);
        if is_at(s, "<!--"@, i) {
            assert(s[i + 0] == "<!--"@[0]);
        }
    }
}

/// The sign in the first comment of a line is found.
proof fn lemma_sign_found(s: Seq<char>, sign: Seq<char>, i: int, open: int, p: int)
    requires
        0 <= i <= open < p,
        p + sign.len() <= s.len(),
        forall|k: int| 0 <= k < open ==> !#[trigger] opens_at(s, k),
        is_at(s, "<!--"@, open) && open + 4 <= p && after_space(s, open + 4) == p || is_at(
            s,
            "%%"@,
            open,
        ) && open + 2 <= p && after_space(s, open + 2) == p,
        is_at(s, sign, p),
    ensures
        sign_from(s, sign, i) == Some(p),
    decreases open - i,
{
    lemma_comment_opens(s, i);
    if i < open {
        assert(!opens_at(s, i));
        lemma_sign_found(s, sign, i + 1, open, p);
    } else {
        lemma_is_at(s, sign, p);
    }
}

/// Where no comment opens there is no sign.
proof fn lemma_no_sign(s: Seq<char>, sign: Seq<char>, i: int)
    requires
        0 <= i <= s.len(),
        forall|k: int| i <= k < s.len() ==> !#[trigger] opens_at(s, k),
    ensures
        sign_from(s, sign, i) is None,
    decreases s.len() - i,
{
    if i < s.len() {
        lemma_comment_opens(s, i);
        assert(!opens_at(s, i));
        lemma_no_sign(s, sign, i + 1);
    }
}

/// A sign that stands nowhere is not found.
proof fn lemma_sign_stands_nowhere(s: Seq<char>, sign: Seq<char>, i: int)
    requires
        forall|k: int| !#[trigger] is_at(s, sign, k),
    ensures
        sign_from(s, sign, i) is None,
    decreases s.len() - i,
{
    if 0 <= i < s.len() {
        lemma_comment_at(s, i);
        match comment_at(s, i) {
            None => {
                lemma_sign_stands_nowhere(s, sign, i + 1);
            },
            Some((j, html)) => {
                lemma_reach_of_space(s, j);
                lemma_is_at(s, sign, after_space(s, j));
                assert(!is_at(s, sign, after_space(s, j)));
                lemma_next_stand(s, end_of(html), j);
                match next_stand(s, end_of(html), j) {
                    None => {
                        lemma_sign_stands_nowhere(s, sign, j);
                    },
                    Some(e) => {
                        lemma_sign_stands_nowhere(s, sign, e + end_of(html).len());
                    },
                }
            },
        }
    }
}

proof fn lemma_reach_of_space(s: Seq<char>, i: int)
    requires
        0 <= i <= s.len(),
    ensures
        i <= after_space(s, i) <= s.len(),
    decreases s.len() - i,
{
    if i < s.len() && is_space(s[i]) {
        lemma_reach_of_space(s, i + 1);
    }
}

proof fn lemma_line_ends_off(s: Seq<char>, end: Seq<char>)
    requires
        s.len() > 0 ==> s.last() != '\n' && s.last() != '\r',
        forall|k: int| 0 <= k < end.len() ==> end[k] == '\n' || end[k] == '\r',
    ensures
        without_line_ends(s + end) == s,
    decreases end.len(),
{
    if end.len() > 0 {
        assert((s + end).drop_last() =~= s + end.drop_last());
        assert((s + end).last() == end.last());
        assert(end.last() == end[end.len() - 1]);
        lemma_line_ends_off(s, end.drop_last());
    } else {
        assert(s + end =~= s);
    }
}

proof fn lemma_end_off(s: Seq<char>, part: Seq<char>)
    requires
        part.len() > 0,
    ensures
        without_end(s + part, part) == without_end(s, part),
{
    let all = s + part;
    assert(all.skip(all.len() - part.len()) =~= part);
    assert(all.take(all.len() - part.len()) =~= s);
}

/// Whether `s` ends in `part`.
pub open spec fn ends_with(s: Seq<char>, part: Seq<char>) -> bool {
    is_at(s, part, s.len() - part.len())
}

proof fn lemma_end_stays(s: Seq<char>, part: Seq<char>)
    requires
        !ends_with(s, part),
    ensures
        without_end(s, part) == s,
{
    if 0 < part.len() <= s.len() && s.skip(s.len() - part.len()) == part {
        assert forall|k: int| 0 <= k < part.len() implies s[s.len() - part.len() + k]
            == #[trigger] part[k] by {
            assert(s.skip(s.len() - part.len())[k] == s[s.len() - part.len() + k]);
        }
    }
}

/// Whether a line names `name`, in its first comment: `[yumete]` is the first
/// thing in the comment, the name is what follows, without white space around it
/// and without the end of the comment, and that ends the line.
pub open spec fn names_a_file(
    line: Seq<char>,
    pre: Seq<char>,
    html: bool,
    gap: Seq<char>,
    before: Seq<char>,
    name: Seq<char>,
    after: Seq<char>,
    end: Seq<char>,
) -> bool {
    let open = if html {
        "<!--"@
    } else {
        "%%"@
    };
    let close = if html {
        "-->"@
    } else {
        "%%"@
    };
    &&& line == pre + open + gap + "[yumete]"@ + (before + name + after + close + end)
    &&& forall|k: int| 0 <= k < pre.len() ==> !#[trigger] opens_at(line, k)
    &&& is_all_space(gap)
    &&& is_all_space(before)
    &&& is_all_space(after)
    &&& name.len() > 0
    &&& !is_space(name[0])
    &&& !is_space(name.last())
    &&& !ends_with(before + name + after, "-->"@)
    &&& !ends_with(before + name + after, "%%"@)
    &&& forall|k: int|
        pre.len() + open.len() + gap.len() + 8 <= k ==> !#[trigger] is_at(line, "[yumete]"@, k)
    &&& forall|k: int| 0 <= k < end.len() ==> end[k] == '\n' || end[k] == '\r'
}

proof fn lemma_trimmed_to(before: Seq<char>, name: Seq<char>, after: Seq<char>)
    requires
        is_all_space(before),
        is_all_space(after),
        name.len() > 0,
        !is_space(name[0]),
        !is_space(name.last()),
    ensures
        trimmed(before + name + after) == name,
{
    let s = before + name + after;
    let a = before.len() as int;
    let b = a + name.len();
    assert forall|k: int| 0 <= k < a implies is_space(#[trigger] s[k]) by {
        assert(s[k] == before[k]);
    }
    assert forall|k: int| b <= k < s.len() implies is_space(#[trigger] s[k]) by {
        assert(s[k] == after[k - b]);
    }
    assert(s[a] == name[0]);
    assert(s[b - 1] == name.last());
    lemma_space_ends(s, 0, a);
    lemma_space_begins(s, a, s.len() as int, b);
    assert(s.subrange(a, b) =~= name);
}

proof fn lemma_space_begins(s: Seq<char>, i: int, j: int, b: int)
    requires
        0 <= i < b <= j <= s.len(),
        forall|k: int| b <= k < j ==> is_space(#[trigger] s[k]),
        !is_space(s[b - 1]),
    ensures
        before_space(s, i, j) == b,
    decreases j - b,
{
    if j > b {
        assert(is_space(s[j - 1]));
        lemma_space_begins(s, i, j - 1, b);
    }
}

/// A comment that begins with `[yumete]` names what follows, in either way of
/// writing a comment.
pub proof fn law_a_comment_names_a_file(
    line: Seq<char>,
    pre: Seq<char>,
    html: bool,
    gap: Seq<char>,
    before: Seq<char>,
    name: Seq<char>,
    after: Seq<char>,
    end: Seq<char>,
)
    requires
        names_a_file(line, pre, html, gap, before, name, after, end),
    ensures
        named_by(Within::Text, line) == Some(name),
{
    reveal_strlit("<!--");
    reveal_strlit("-->");
    reveal_strlit("%%");
    reveal_strlit("[yumete]");
    let sign = "[yumete]"@;
    let open = if html {
        "<!--"@
    } else {
        "%%"@
    };
    let close = if html {
        "-->"@
    } else {
        "%%"@
    };
    let rest = before + name + after + close + end;
    let at = pre.len() as int;
    let j = at + open.len();
    let p = j + gap.len();
    assert forall|k: int| 0 <= k < open.len() implies line[at + k] == #[trigger] open[k] by {}
    assert(is_at(line, open, at));
    assert forall|k: int| 0 <= k < sign.len() implies line[p + k] == #[trigger] sign[k] by {}
    assert(is_at(line, sign, p));
    assert forall|k: int| j <= k < p implies is_space(#[trigger] line[k]) by {
        assert(line[k] == gap[k - j]);
    }
    assert(line[p] == sign[0]);
    lemma_space_ends(line, j, p);
    lemma_sign_found(line, sign, 0, at, p);
    lemma_none_stands(line, sign, p + 8);
    assert(line.skip(p + 8) =~= rest);
    let named = before + name + after;
    let whole = named + close;
    assert(whole.last() == close.last());
    lemma_line_ends_off(whole, end);
    if html {
        lemma_end_off(named, "-->"@);
        lemma_end_stays(named, "-->"@);
        lemma_end_stays(named, "%%"@);
    } else {
        assert(!ends_with(whole, "-->"@)) by {
            if ends_with(whole, "-->"@) {
                assert(whole[whole.len() - 3 + 2] == "-->"@[2]);
            }
        }
        lemma_end_stays(whole, "-->"@);
        lemma_end_off(named, "%%"@);
        lemma_end_stays(named, "%%"@);
    }
    lemma_trimmed_to(before, name, after);
}

/// A line without `[yumete]` names nothing, and neither does one outside of a
/// comment.
pub proof fn law_only_a_comment_names_a_file(w: Within, line: Seq<char>)
    ensures
        (forall|k: int| !#[trigger] is_at(line, "[yumete]"@, k)) ==> named_by(w, line) is None,
        (forall|k: int| !#[trigger] opens_at(line, k)) ==> named_by(Within::Text, line) is None,
{
    let sign = "[yumete]"@;
    if forall|k: int| !#[trigger] is_at(line, sign, k) {
        lemma_sign_stands_nowhere(line, sign, 0);
        lemma_reach_of_space(line, 0);
        lemma_is_at(line, sign, after_space(line, 0));
        assert(!is_at(line, sign, after_space(line, 0)));
        match w {
            Within::Text => {},
            Within::Comment { html, fresh } => {
                match next_stand(line, end_of(html), 0) {
                    Some(e) => {
                        lemma_sign_stands_nowhere(line, sign, e + end_of(html).len());
                    },
                    None => {},
                }
            },
        }
    }
    if forall|k: int| !#[trigger] opens_at(line, k) {
        lemma_no_sign(line, sign, 0);
    }
}

/// A file is named from where the line is written: the path goes on from the
/// directory of the file that the line is in. Only a file of the wiki names files.
pub proof fn law_a_name_leads_on_from_the_file_it_is_in(v: EditorView)
    ensures
        v.buffer().path is None ==> v.named_here() is None,
        v.buffer().path matches Some(here) ==> !v.is_wiki_file(here) ==> v.named_here() is None,
        v.named_here() matches Some((name, path)) ==> {
            let here = v.buffer().path->0;
            let to = path_of(name);
            &&& name.len() > 0
            &&& to.absolute ==> path == to
            &&& !to.absolute && here.steps().len() > 0 && to.parts[0] != seq!['.'] ==> path.absolute
                == here.absolute && path.steps() == here.steps().drop_last() + to.steps()
        },
{
    match v.named_here() {
        Some((name, path)) => {
            let here = v.buffer().path->0;
            law_a_parent_has_one_step_less(here);
            lemma_joined_back(name, '/');
            if !path_of(name).absolute && here.steps().len() > 0 && path_of(name).parts[0]
                != seq!['.'] {
                law_a_joined_path_leads_on(here.parent()->0, path_of(name));
            }
        },
        None => {},
    }
}

/// Whether the source at `i` is the file that was named: of one that was read, or
/// was to be, its path leads there; of one that was turned away the name is the
/// same.
pub open spec fn answers(
    sources: Seq<SourceView>,
    i: int,
    named: Seq<char>,
    path: PathView,
    same: Seq<bool>,
) -> bool {
    let one = i < same.len() && same[i];
    &&& sources[i] is Refused ==> sources[i]->Refused_named == named
    &&& sources[i] is TooMany ==> sources[i]->TooMany_named == named
    &&& sources[i] is Read ==> one
    &&& sources[i] is Missing ==> one || leads_the_same(sources[i]->Missing_path, path)
    &&& sources[i] is Unreadable ==> one || leads_the_same(sources[i]->Unreadable_path, path)
    &&& sources[i] is Again ==> one || leads_the_same(sources[i]->Again_path, path)
}

proof fn lemma_source_from(
    sources: Seq<SourceView>,
    named: Seq<char>,
    path: PathView,
    same: Seq<bool>,
    k: int,
    i: int,
)
    requires
        0 <= k <= i <= sources.len(),
        forall|j: int| k <= j < i ==> !#[trigger] answers(sources, j, named, path, same),
        i < sources.len() ==> answers(sources, i, named, path, same),
    ensures
        source_from(sources, named, path, same, k) == if i < sources.len() {
            Some(sources[i])
        } else {
            None
        },
    decreases i - k,
{
    if k < sources.len() {
        assert(is_source_of(sources[k], named, path, k < same.len() && same[k]) == answers(
            sources,
            k,
            named,
            path,
            same,
        ));
    }
    if k < i {
        assert(!answers(sources, k, named, path, same));
        lemma_source_from(sources, named, path, same, k + 1, i);
    }
}

/// What became of a file that is named is what the first source says that is that
/// file; where none is, nothing is known of it.
pub proof fn law_what_became_of_a_named_file(v: EditorView, same: Seq<bool>, i: int)
    requires
        v.named_here() is Some,
        0 <= i <= v.wiki.sources.len(),
        ({
            let (named, path) = v.named_here()->0;
            &&& forall|j: int|
                0 <= j < i ==> !#[trigger] answers(v.wiki.sources, j, named, path, same)
            &&& i < v.wiki.sources.len() ==> answers(v.wiki.sources, i, named, path, same)
        }),
    ensures
        v.directive_here(same) matches Some(d) && d.named == (v.named_here()->0).0 && d.path == (
        v.named_here()->0).1 && d.state == if i < v.wiki.sources.len() {
            Some(v.wiki.sources[i])
        } else {
            None
        },
{
    let (named, path) = v.named_here()->0;
    lemma_source_from(v.wiki.sources, named, path, same, 0, i);
}

/// Going after the word under the cursor goes to where its first entry is written,
/// and there is nowhere to go where there is no entry.
pub proof fn law_following_goes_to_the_first_entry(v: EditorView, q: int)
    requires
        v.wf(),
    ensures
        v.article_here() is None ==> v.target_here() is None,
        v.article_here() is Some && 0 <= q < v.wiki.by_name.len() && v.wiki.by_name[q].0 == (
        v.article_here()->0).name && v.wiki.by_name[q].1.len() > 0 ==> {
            let entry = v.wiki.entries[v.wiki.by_name[q].1[0] as int];
            v.target_here() == Some((entry.source, entry.line as int))
        },
{
    if v.article_here() is Some && 0 <= q < v.wiki.by_name.len() && v.wiki.by_name[q].0 == (
    v.article_here()->0).name {
        lemma_found(v.wiki, (v.article_here()->0).name, q);
    }
}

/// The words of the wiki are its names, each once for each time it stands there.
pub proof fn law_the_words_are_the_names(v: EditorView, name: Seq<char>)
    ensures
        v.wiki.words().contains(name) == has_name(v.wiki, name),
        v.wiki.words().len() == v.wiki.by_name.len(),
{
    let words = v.wiki.words();
    if words.contains(name) {
        let q = choose|q: int| 0 <= q < words.len() && words[q] == name;
        assert(v.wiki.by_name[q].0 == name);
    }
    if has_name(v.wiki, name) {
        let q = choose|q: int|
            0 <= q < v.wiki.by_name.len() && (#[trigger] v.wiki.by_name[q]).0 == name;
        assert(words[q] == name);
    }
}

/// A comment that opens at the end of one line, with nothing in it yet, names a
/// file on the next.
pub proof fn law_a_comment_goes_on_to_the_next_line(
    first: Seq<char>,
    pre: Seq<char>,
    html: bool,
    blank: Seq<char>,
    line: Seq<char>,
    gap: Seq<char>,
    rest: Seq<char>,
)
    requires
        first == pre + (if html {
            "<!--"@
        } else {
            "%%"@
        }) + blank,
        forall|k: int| 0 <= k < pre.len() ==> !#[trigger] opens_at(first, k),
        is_all_space(blank),
        line == gap + "[yumete]"@ + rest,
        is_all_space(gap),
        forall|k: int| gap.len() + 8 <= k ==> !#[trigger] is_at(line, "[yumete]"@, k),
    ensures
        after_sign(left_by(Within::Text, first), line, "[yumete]"@) == Some(rest),
{
    reveal_strlit("<!--");
    reveal_strlit("-->");
    reveal_strlit("%%");
    reveal_strlit("[yumete]");
    let open = if html {
        "<!--"@
    } else {
        "%%"@
    };
    let sign = "[yumete]"@;
    let at = pre.len() as int;
    let j = at + open.len();
    assert forall|k: int| 0 <= k < open.len() implies first[at + k] == #[trigger] open[k] by {}
    assert(is_at(first, open, at));
    assert forall|k: int| j <= k < first.len() implies is_space(#[trigger] first[k]) by {
        assert(first[k] == blank[k - j]);
    }
    lemma_space_ends(first, j, first.len() as int);
    assert forall|k: int| j <= k implies !#[trigger] is_at(first, end_of(html), k) by {
        if is_at(first, end_of(html), k) {
            assert(first[k + 0] == end_of(html)[0]);
            assert(is_space(first[k]));
        }
    }
    lemma_none_stands(first, end_of(html), j);
    lemma_left_open(first, 0, at, j, html);
    let n = gap.len() as int;
    assert forall|k: int| 0 <= k < n implies is_space(#[trigger] line[k]) by {
        assert(line[k] == gap[k]);
    }
    assert(line[n] == sign[0]);
    lemma_space_ends(line, 0, n);
    assert forall|k: int| 0 <= k < sign.len() implies line[n + k] == #[trigger] sign[k] by {}
    assert(is_at(line, sign, n));
    lemma_is_at(line, sign, n);
    lemma_none_stands(line, sign, n + 8);
    assert(line.skip(n + 8) =~= rest);
}

proof fn lemma_left_open(s: Seq<char>, i: int, at: int, j: int, html: bool)
    requires
        0 <= i <= at < j <= s.len(),
        forall|k: int| 0 <= k < at ==> !#[trigger] opens_at(s, k),
        html ==> is_at(s, "<!--"@, at) && j == at + 4,
        !html ==> is_at(s, "%%"@, at) && j == at + 2,
        next_stand(s, end_of(html), j) is None,
        after_space(s, j) == s.len(),
    ensures
        left_from(s, i) == (Within::Comment { html, fresh: true }),
    decreases at - i,
{
    lemma_comment_opens(s, i);
    if i < at {
        assert(!opens_at(s, i));
        lemma_left_open(s, i + 1, at, j, html);
    }
}

// ---- The report -----------------------------------------------------------

/// Whether `x` stands somewhere in `s`.
pub open spec fn holds(s: Seq<char>, x: Seq<char>) -> bool {
    exists|a: Seq<char>, b: Seq<char>| s == #[trigger] (a + x + b)
}

proof fn lemma_holds(s: Seq<char>, a: Seq<char>, x: Seq<char>, b: Seq<char>)
    requires
        s == a + x + b,
    ensures
        holds(s, x),
{
}

/// What stands in a part stands in the whole.
proof fn lemma_holds_on(s: Seq<char>, a: Seq<char>, part: Seq<char>, b: Seq<char>, x: Seq<char>)
    requires
        s == a + part + b,
        holds(part, x),
    ensures
        holds(s, x),
{
    let (c, d) = choose|c: Seq<char>, d: Seq<char>| part == #[trigger] (c + x + d);
    assert(s =~= (a + c) + x + (d + b));
}

proof fn lemma_source_has_row(sources: Seq<SourceView>, root: PathView, i: int)
    requires
        0 <= i < sources.len(),
    ensures
        holds(sources_text(sources, root), "- "@ + source_text(sources[i], root) + "\n"@),
    decreases sources.len(),
{
    let less = sources_text(sources.drop_last(), root);
    let row = "- "@ + source_text(sources[i], root) + "\n"@;
    let all = sources_text(sources, root);
    if i < sources.len() - 1 {
        lemma_source_has_row(sources.drop_last(), root, i);
        let last = item_text(source_text(sources.last(), root));
        assert(all =~= Seq::<char>::empty() + less + last);
        lemma_holds_on(all, Seq::empty(), less, last, row);
    } else {
        assert(all =~= less + row + Seq::<char>::empty());
        lemma_holds(all, less, row, Seq::empty());
    }
}

proof fn lemma_short_name_has_row(names: Seq<(Seq<char>, Seq<usize>)>, i: int)
    requires
        0 <= i < names.len(),
        names[i].0.len() < 2,
    ensures
        short_names_text(names).len() > 0,
        holds(short_names_text(names), "- "@ + names[i].0 + "\n"@),
    decreases names.len(),
{
    let less = short_names_text(names.drop_last());
    let row = "- "@ + names[i].0 + "\n"@;
    let all = short_names_text(names);
    reveal_strlit("\n");
    if i < names.len() - 1 {
        lemma_short_name_has_row(names.drop_last(), i);
        let last = if names.last().0.len() < 2 {
            item_text(names.last().0)
        } else {
            Seq::empty()
        };
        assert(all =~= Seq::<char>::empty() + less + last);
        lemma_holds_on(all, Seq::empty(), less, last, row);
    } else {
        assert(all =~= less + row + Seq::<char>::empty());
        lemma_holds(all, less, row, Seq::empty());
    }
}

proof fn lemma_missed_has_row(list: Seq<(Seq<char>, Seq<int>)>, i: int)
    requires
        0 <= i < list.len(),
    ensures
        holds(missed_text(list), list[i].0),
        holds(missed_text(list), lines_text(list[i].1)),
    decreases list.len(),
{
    let less = missed_text(list.drop_last());
    let all = missed_text(list);
    let last = item_text(wiki_missed_at_text(list.last().0, lines_text(list.last().1)));
    if i < list.len() - 1 {
        lemma_missed_has_row(list.drop_last(), i);
        assert(all =~= Seq::<char>::empty() + less + last);
        lemma_holds_on(all, Seq::empty(), less, last, list[i].0);
        lemma_holds_on(all, Seq::empty(), less, last, lines_text(list[i].1));
    } else {
        lemma_missed_row(list[i].0, lines_text(list[i].1));
        assert(all =~= less + last + Seq::<char>::empty());
        lemma_holds_on(all, less, last, Seq::empty(), list[i].0);
        lemma_holds_on(all, less, last, Seq::empty(), lines_text(list[i].1));
    }
}

proof fn lemma_missed_row(name: Seq<char>, lines: Seq<char>)
    ensures
        holds(item_text(wiki_missed_at_text(name, lines)), name),
        holds(item_text(wiki_missed_at_text(name, lines)), lines),
{
    let row = item_text(wiki_missed_at_text(name, lines));
    let (a, b) = ("：第 "@, " 行"@);
    assert(row =~= "- "@ + name + (a + lines + b + "\n"@));
    lemma_holds(row, "- "@, name, a + lines + b + "\n"@);
    assert(row =~= ("- "@ + name + a) + lines + (b + "\n"@));
    lemma_holds(row, "- "@ + name + a, lines, b + "\n"@);
}

/// Whether a text tells of a source what there is to know: the path as it is seen
/// from the root of the book, or the name that was turned away; how many entries
/// were read, or why none could be.
pub open spec fn tells_of(s: Seq<char>, source: SourceView, root: PathView) -> bool {
    match source {
        SourceView::Read { path, entries } => holds(s, path.under(root).shown()) && holds(
            s,
            decimal(entries as nat),
        ),
        SourceView::Missing { path } => holds(s, path.under(root).shown()),
        SourceView::Unreadable { path, why } => holds(s, path.under(root).shown()) && holds(s, why),
        SourceView::Refused { named, from } => holds(s, named) && holds(
            s,
            from.under(root).shown(),
        ),
        SourceView::Again { path } => holds(s, path.under(root).shown()),
        SourceView::TooMany { named } => holds(s, named),
    }
}

proof fn lemma_begins_and_holds(a: Seq<char>, b: Seq<char>, c: Seq<char>, d: Seq<char>)
    ensures
        holds(a + b + c + d, a),
        holds(a + b + c + d, c),
{
    let s = a + b + c + d;
    assert(s =~= Seq::<char>::empty() + a + (b + c + d));
    lemma_holds(s, Seq::empty(), a, b + c + d);
    assert(s =~= (a + b) + c + d);
    lemma_holds(s, a + b, c, d);
}

proof fn lemma_begins(a: Seq<char>, b: Seq<char>)
    ensures
        holds(a + b, a),
{
    assert(a + b =~= Seq::<char>::empty() + a + b);
    lemma_holds(a + b, Seq::empty(), a, b);
}

/// The report has a row for every file that was reached for, whatever became of
/// it, and the row tells of the file.
pub proof fn law_the_report_tells_of_every_file(
    v: EditorView,
    book: PathView,
    missed: Seq<(Seq<char>, Seq<int>)>,
    i: int,
)
    requires
        0 <= i < v.wiki.sources.len(),
    ensures
        exists|said: Seq<char>|
            #![trigger tells_of(said, v.wiki.sources[i], v.places.root)]
            tells_of(said, v.wiki.sources[i], v.places.root) && holds(
                v.report(book, missed),
                "- "@ + said + "\n"@,
            ),
{
    let root = v.places.root;
    let source = v.wiki.sources[i];
    let said = source_text(source, root);
    let row = "- "@ + said + "\n"@;
    match source {
        SourceView::Read { path, entries } => {
            lemma_begins_and_holds(
                path.under(root).shown(),
                "："@,
                decimal(entries as nat),
                " 條"@,
            );
        },
        SourceView::Missing { path } => {
            lemma_begins(path.under(root).shown(), "：沒有這個檔案"@);
        },
        SourceView::Unreadable { path, why } => {
            lemma_begins_and_holds(path.under(root).shown(), "：讀不了（"@, why, "）"@);
        },
        SourceView::Refused { named, from } => {
            lemma_begins_and_holds(
                named,
                "：不在這本書裏，不讀（"@,
                from.under(root).shown(),
                " 寫的）"@,
            );
        },
        SourceView::Again { path } => {
            lemma_begins(path.under(root).shown(), "：已經讀過"@);
        },
        SourceView::TooMany { named } => {
            lemma_begins(named, "：檔案太多，沒有讀"@);
        },
    }
    assert(tells_of(said, source, root));
    lemma_source_has_row(v.wiki.sources, root, i);
    let rows = sources_text(v.wiki.sources, root);
    let (head, tail) = lemma_report_parts(v, book, missed);
    lemma_holds_on(v.report(book, missed), head, rows, tail, row);
}

/// The report is what stands above the rows of the files, those rows, and what
/// stands below.
proof fn lemma_report_parts(
    v: EditorView,
    book: PathView,
    missed: Seq<(Seq<char>, Seq<int>)>,
) -> (parts: (Seq<char>, Seq<char>))
    ensures
        v.report(book, missed) == parts.0 + sources_text(v.wiki.sources, v.places.root) + parts.1,
        parts.1 == below_files(v, missed),
{
    let head = "# "@ + wiki_title_text() + "\n\n"@ + if v.wiki.sources.len() == 0 {
        wiki_none_text(book.under(v.places.root).shown()) + "\n"@
    } else {
        Seq::empty()
    };
    let rows = sources_text(v.wiki.sources, v.places.root);
    let tail = below_files(v, missed);
    assert(v.report(book, missed) =~= head + rows + tail);
    (head, tail)
}

/// What stands below the rows of the files: the names that are too short under a
/// heading, and those that are missed under another, where there are any.
spec fn below_files(v: EditorView, missed: Seq<(Seq<char>, Seq<int>)>) -> Seq<char> {
    let short = short_names_text(v.wiki.by_name);
    (if short.len() > 0 {
        section_text(wiki_unmarkable_text()) + short
    } else {
        Seq::empty()
    }) + if missed.len() > 0 {
        section_text(wiki_missed_text()) + missed_text(missed)
    } else {
        Seq::empty()
    }
}

/// The report has a row for every name that is too short to be marked, and tells
/// every name that is missed with its lines.
pub proof fn law_the_report_tells_what_is_not_marked(
    v: EditorView,
    book: PathView,
    missed: Seq<(Seq<char>, Seq<int>)>,
    i: int,
)
    ensures
        0 <= i < v.wiki.by_name.len() && v.wiki.by_name[i].0.len() < 2 ==> holds(
            v.report(book, missed),
            "- "@ + v.wiki.by_name[i].0 + "\n"@,
        ),
        0 <= i < missed.len() ==> holds(v.report(book, missed), missed[i].0) && holds(
            v.report(book, missed),
            lines_text(missed[i].1),
        ),
{
    let r = v.report(book, missed);
    let short = short_names_text(v.wiki.by_name);
    let (head, tail) = lemma_report_parts(v, book, missed);
    let rows = sources_text(v.wiki.sources, v.places.root);
    let none = Seq::<char>::empty();
    let upper = if short.len() > 0 {
        section_text(wiki_unmarkable_text()) + short
    } else {
        none
    };
    let lower = if missed.len() > 0 {
        section_text(wiki_missed_text()) + missed_text(missed)
    } else {
        none
    };
    if 0 <= i < v.wiki.by_name.len() && v.wiki.by_name[i].0.len() < 2 {
        lemma_short_name_has_row(v.wiki.by_name, i);
        let above = head + rows + section_text(wiki_unmarkable_text());
        assert(r =~= above + short + lower);
        lemma_holds_on(r, above, short, lower, "- "@ + v.wiki.by_name[i].0 + "\n"@);
    }
    if 0 <= i < missed.len() {
        lemma_missed_has_row(missed, i);
        let above = head + rows + upper + section_text(wiki_missed_text());
        assert(r =~= above + missed_text(missed) + none);
        lemma_holds_on(r, above, missed_text(missed), none, missed[i].0);
        lemma_holds_on(r, above, missed_text(missed), none, lines_text(missed[i].1));
    }
}

proof fn lemma_no_short_names(names: Seq<(Seq<char>, Seq<usize>)>)
    requires
        forall|i: int| 0 <= i < names.len() ==> (#[trigger] names[i]).0.len() >= 2,
    ensures
        short_names_text(names).len() == 0,
    decreases names.len(),
{
    if names.len() > 0 {
        assert(names.last() == names[names.len() - 1]);
        lemma_no_short_names(names.drop_last());
    }
}

/// Of names that can be marked the report says nothing, and where nothing is
/// missed it says nothing of that: it is then the title and the rows of the files,
/// or the title and where a wiki would be.
pub proof fn law_the_report_says_nothing_of_what_is_well(
    v: EditorView,
    book: PathView,
    source: SourceView,
)
    requires
        forall|i: int|
            0 <= i < v.wiki.by_name.len() ==> (#[trigger] v.wiki.by_name[i]).0.len() >= 2,
    ensures
        v.wiki.sources.len() == 0 ==> v.report(book, Seq::empty()) == "# "@ + wiki_title_text()
            + "\n\n"@ + wiki_none_text(book.under(v.places.root).shown()) + "\n"@,
        v.wiki.sources == seq![source] ==> v.report(book, Seq::empty()) == "# "@
            + wiki_title_text() + "\n\n"@ + "- "@ + source_text(source, v.places.root) + "\n"@,
{
    lemma_no_short_names(v.wiki.by_name);
    let none = Seq::<(Seq<char>, Seq<int>)>::empty();
    let title = "# "@ + wiki_title_text() + "\n\n"@;
    if v.wiki.sources.len() == 0 {
        assert(v.report(book, none) =~= title + wiki_none_text(
            book.under(v.places.root).shown(),
        ) + "\n"@);
    }
    if v.wiki.sources == seq![source] {
        let root = v.places.root;
        assert(v.wiki.sources.drop_last() =~= Seq::<SourceView>::empty());
        assert(sources_text(v.wiki.sources.drop_last(), root).len() == 0);
        assert(v.wiki.sources.last() == source);
        assert(sources_text(v.wiki.sources, root) =~= item_text(source_text(source, root)));
        assert(v.report(book, none) =~= title + "- "@ + source_text(source, root) + "\n"@);
    }
}

/// A file more is a row more, below the rows of the files before it.
pub proof fn law_a_file_more_is_a_row_more(
    v: EditorView,
    source: SourceView,
    book: PathView,
    missed: Seq<(Seq<char>, Seq<int>)>,
)
    requires
        v.wiki.sources.len() > 0,
    ensures
        ({
            let w = EditorView {
                wiki: WikiData { sources: v.wiki.sources.push(source), ..v.wiki },
                ..v
            };
            exists|a: Seq<char>, b: Seq<char>|
                #![trigger a + b]
                v.report(book, missed) == a + b && w.report(book, missed) == a + ("- "@
                    + source_text(source, v.places.root) + "\n"@) + b
        }),
{
    let w = EditorView {
        wiki: WikiData { sources: v.wiki.sources.push(source), ..v.wiki },
        ..v
    };
    let root = v.places.root;
    let (head, tail) = lemma_report_parts(v, book, missed);
    let rows = sources_text(v.wiki.sources, root);
    let row = "- "@ + source_text(source, root) + "\n"@;
    assert(w.wiki.sources.drop_last() =~= v.wiki.sources);
    assert(w.wiki.sources.last() == source);
    assert(sources_text(w.wiki.sources, root) =~= rows + row);
    let title = "# "@ + wiki_title_text() + "\n\n"@;
    let a = title + rows;
    assert(v.report(book, missed) =~= a + tail);
    assert(w.report(book, missed) =~= a + row + tail);
}

/// Of the lines of a name five are told, and that there are more.
pub proof fn law_five_lines_are_told(lines: Seq<int>, n: int)
    ensures
        lines.len() == 0 ==> lines_text(lines) == Seq::<char>::empty(),
        lines_text(seq![n]) == decimal(n as nat),
        0 < lines.len() < 5 ==> lines_text(lines.push(n)) == lines_text(lines) + "、"@ + decimal(
            n as nat,
        ),
        lines.len() == 5 ==> lines_text(lines.push(n)) == lines_text(lines) + "…"@,
        lines.len() > 5 ==> lines_text(lines.push(n)) == lines_text(lines),
{
    let f = |m: int| decimal(m as nat);
    assert(lines_text(lines).len() >= 0);
    if lines.len() == 0 {
        assert(lines_text(lines) =~= Seq::<char>::empty());
    }
    assert(seq![n].take(1).map_values(f) =~= seq![decimal(n as nat)]);
    assert(lines_text(seq![n]) =~= decimal(n as nat));
    if 0 < lines.len() < 5 {
        let more = lines.push(n);
        let told = more.take(more.len() as int).map_values(f);
        assert(told.drop_last() =~= lines.take(lines.len() as int).map_values(f));
        assert(told.last() == decimal(n as nat));
        assert(lines_text(more) =~= lines_text(lines) + "、"@ + decimal(n as nat));
    } else if lines.len() >= 5 {
        assert(lines.push(n).take(5) =~= lines.take(5));
        assert(lines_text(lines) + "…"@ =~= joined_with(lines.take(5).map_values(f), "、"@) + (
        if lines.len() > 5 {
            "…"@
        } else {
            Seq::empty()
        }) + "…"@);
        if lines.len() == 5 {
            assert(lines_text(lines) =~= joined_with(lines.take(5).map_values(f), "、"@));
        }
    }
}

} // verus!

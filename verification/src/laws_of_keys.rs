//! What holds of the editor whatever key is pressed.

use vstd::prelude::*;
use crate::buffer::PointView;
use crate::case::Case;
use crate::editor::{EditorView, Key, least, Mode, most};
use crate::grapheme::{lemma_next_grapheme, lemma_prev_grapheme};
use crate::keymap::{Act, bound, Pending};
use crate::laws::{edits_in_place, law_a_count_is_one_undo_point};
use crate::moves::Motion;
use crate::repeats::InputView;
use crate::search::{hit_after, HitView, SubstitutionView};
use crate::text::{last_line, lemma_line_end, lemma_spliced, line_end, line_of, line_start};
use crate::verbs::{after_indentation, glue, stood_still, WRITING_MAX};

verus! {

// ---- A locked text --------------------------------------------------------

/// Whether the text that was on the page, and what it was, are as they were.
pub open spec fn keeps(v: EditorView, w: EditorView) -> bool {
    &&& w.buffers.len() == v.buffers.len()
    &&& w.active == v.active
    &&& w.buffer().text == v.buffer().text
    &&& w.buffer().past == v.buffer().past
    &&& w.buffer().future == v.buffer().future
    &&& w.buffer().readonly == v.buffer().readonly
}

/// A state with a locked buffer on the page.
pub open spec fn locked(v: EditorView) -> bool {
    0 <= v.active < v.buffers.len() && v.buffer().readonly
}

/// Whether `step` keeps every locked text.
pub open spec fn keeps_locked(step: spec_fn(EditorView) -> EditorView) -> bool {
    forall|v: EditorView| locked(v) ==> keeps(v, #[trigger] step(v))
}

proof fn lemma_running_keeps(v: EditorView, step: spec_fn(EditorView) -> EditorView, n: int)
    requires
        locked(v),
        keeps_locked(step),
    ensures
        keeps(v, v.running(step, n)),
    decreases n,
{
    if n > 0 {
        let w = step(v);
        assert(keeps(v, w));
        if !stood_still(v, w) {
            lemma_running_keeps(w, step, n - 1);
        }
    }
}

proof fn lemma_counted_keeps(v: EditorView, step: spec_fn(EditorView) -> EditorView, n: int)
    requires
        locked(v),
        keeps_locked(step),
    ensures
        keeps(v, v.counted(step, n)),
        keeps(v, v.counted_writing(step, n)),
{
    reveal(EditorView::counted_writing);
    lemma_counted_once(v, step, n);
    lemma_counted_once(v, step, least(n, WRITING_MAX as int));
}

proof fn lemma_counted_once(v: EditorView, step: spec_fn(EditorView) -> EditorView, n: int)
    requires
        locked(v),
        keeps_locked(step),
    ensures
        keeps(v, v.counted(step, n)),
{
    reveal(EditorView::counted);
    if n > 0 {
        let first = step(v);
        assert(keeps(v, first));
        if !stood_still(v, first) {
            lemma_running_keeps(first.grouping(true), step, n - 1);
        }
    }
}

proof fn lemma_motions_keep(v: EditorView, m: Motion, half: bool, on: bool)
    requires
        locked(v),
    ensures
        keeps(v, v.moving(m)),
        keeps(v, v.paging(half, on)),
        keeps(v, v.at_counted_line(on)),
{
    reveal(EditorView::paging);
    reveal(EditorView::at_counted_line);
    reveal(EditorView::at_line);
    lemma_moving_keeps(v, m);
    let n = v.page_step(half) as usize;
    lemma_moving_keeps(
        v,
        if on {
            Motion::Down(n)
        } else {
            Motion::Up(n)
        },
    );
}

proof fn lemma_moving_keeps(v: EditorView, m: Motion)
    requires
        locked(v),
    ensures
        keeps(v, v.moving(m)),
{
    reveal(EditorView::moving);
    let step = |w: EditorView| w.stepping(m);
    assert(keeps_locked(step)) by {
        reveal(EditorView::stepping);
    }
    lemma_counted_keeps(v.uncounted(), step, v.count_or_one());
}

proof fn lemma_typing_keeps(v: EditorView, at: int, on: bool, n: int)
    requires
        locked(v),
    ensures
        keeps(v, v.inserting_at(at)),
        keeps(v, v.opening(on)),
        keeps(v, v.reaching(n)),
        keeps(v, v.reaching(n).changing(on)),
        keeps(v, v.reaching(n).removing(on)),
        keeps(v, v.reaching(n).yanking()),
{
    reveal(EditorView::inserting_at);
    reveal(EditorView::opening);
    reveal(EditorView::reaching);
    reveal(EditorView::changing);
    reveal(EditorView::removing);
    reveal(EditorView::yanking);
}

proof fn lemma_counts_keep(v: EditorView, on: bool, n: int)
    requires
        locked(v),
    ensures
        keeps(v, v.counted_writing(|w: EditorView| w.pasting(on), n)),
        keeps(v, v.counted(|w: EditorView| w.selecting_line(), n)),
        keeps(v, v.counted_writing(|w: EditorView| w.indenting(on), n)),
        keeps(v, v.counted_writing(|w: EditorView| w.joining(), n)),
{
    let paste = |w: EditorView| w.pasting(on);
    assert(keeps_locked(paste)) by {
        reveal(EditorView::pasting);
    }
    lemma_counted_keeps(v, paste, n);
    let line = |w: EditorView| w.selecting_line();
    assert(keeps_locked(line)) by {
        reveal(EditorView::selecting_line);
    }
    lemma_counted_keeps(v, line, n);
    let indent = |w: EditorView| w.indenting(on);
    assert forall|w: EditorView| locked(w) implies keeps(w, #[trigger] indent(w)) by {
        lemma_indenting_keeps(w, on);
    }
    lemma_counted_keeps(v, indent, n);
    let join = |w: EditorView| w.joining();
    assert(keeps_locked(join)) by {
        reveal(EditorView::joining);
    }
    lemma_counted_keeps(v, join, n);
}

proof fn lemma_indenting_lines_keeps(v: EditorView, add: bool, first: int, last: int)
    requires
        locked(v),
    ensures
        keeps(v, v.indenting_lines(add, first, last)),
    decreases last - first + 1,
{
    if last >= first {
        lemma_indenting_lines_keeps(v.indenting_line(add, last), add, first, last - 1);
    }
}

proof fn lemma_indenting_keeps(v: EditorView, add: bool)
    requires
        locked(v),
    ensures
        keeps(v, v.indenting(add)),
{
    reveal(EditorView::indenting);
    lemma_indenting_lines_keeps(
        v.announcing(),
        add,
        v.first_selected_line(),
        v.last_selected_line(),
    );
}

proof fn lemma_selections_keep(v: EditorView, case: Case, up: bool)
    requires
        locked(v),
    ensures
        keeps(v, v.selecting_lines()),
        keeps(v, v.selecting_all()),
        keeps(v, v.flipped()),
        keeps(v, v.casing(case)),
        keeps(v, v.replacing_with_register()),
        keeps(v, v.bumping_by_count(up)),
        keeps(v, v.undone()),
        keeps(v, v.redone()),
{
    reveal(EditorView::selecting_lines);
    reveal(EditorView::selecting_all);
    reveal(EditorView::flipped);
    reveal(EditorView::casing);
    reveal(EditorView::mapping);
    reveal(EditorView::replacing_with_register);
    reveal(EditorView::bumping_by_count);
    reveal(EditorView::bumping);
    reveal(EditorView::undone);
    reveal(EditorView::redone);
}

proof fn lemma_others_keep(v: EditorView, act: Act)
    requires
        locked(v),
        !(act is Turn),
    ensures
        keeps(v, v.finding_again()),
        act matches Act::Again(forward) ==> keeps(v, v.looking_again(forward)),
        keeps(v, v.asking(Mode::Search)),
        keeps(v, v.asking(Mode::Command)),
        keeps(v, v.escaping()),
        keeps(v, v.at_match()),
        keeps(v, v.unsurrounding()),
        keeps(v, v.handing_over()),
        keeps(v, v.asking_reading()),
        keeps(v, v.choosing_buffer()),
        act matches Act::Comment(block) ==> keeps(v, v.commenting(block)),
        act matches Act::Keep(keep) ==> keeps(v, v.keeping_side(keep)),
        act matches Act::Conflict(forward) ==> keeps(v, v.at_conflict(forward)),
{
    reveal(EditorView::finding_again);
    reveal(EditorView::finding);
    reveal(EditorView::looking_again);
    reveal(EditorView::looking);
    reveal(EditorView::asking);
    reveal(EditorView::escaping);
    reveal(EditorView::at_match);
    reveal(EditorView::unsurrounding);
    reveal(EditorView::handing_over);
    reveal(EditorView::yanking);
    reveal(EditorView::asking_reading);
    reveal(EditorView::choosing_buffer);
    reveal(EditorView::commenting);
    reveal(EditorView::keeping_side);
    reveal(EditorView::at_conflict);
    reveal(EditorView::at_line);
}

/// Whatever a key does on its own, a locked text and its history stay as they
/// are.
pub proof fn law_no_act_changes_a_locked_text(v: EditorView, act: Act)
    requires
        v.wf(),
        v.buffer().readonly,
    ensures
        v.doing(act).buffers.len() == v.buffers.len(),
        v.doing(act).buffers[v.active].text == v.text(),
        v.doing(act).buffers[v.active].past == v.buffer().past,
        v.doing(act).buffers[v.active].future == v.buffer().future,
{
    let n = v.count_or_one();
    let u = v.uncounted();
    match act {
        Act::Turn(forward) => {
            reveal(EditorView::turning);
        },
        Act::Move(m) => {
            lemma_motions_keep(v, m, true, true);
        },
        Act::HalfPage(down) => {
            lemma_motions_keep(v, Motion::Left, true, down);
        },
        Act::WholePage(down) => {
            lemma_motions_keep(v, Motion::Left, false, down);
        },
        Act::ToFirst => {
            lemma_motions_keep(v, Motion::Left, true, false);
        },
        Act::ToLast => {
            lemma_motions_keep(v, Motion::Left, true, true);
        },
        Act::Insert => {
            lemma_typing_keeps(u, u.selection_start(), true, n);
        },
        Act::Append => {
            lemma_typing_keeps(u, u.selection_end(), true, n);
        },
        Act::InsertText => {
            lemma_typing_keeps(
                u,
                crate::moves::text_from(
                    u.text(),
                    line_start(u.text(), u.cursor_line()),
                    line_end(u.text(), line_start(u.text(), u.cursor_line())),
                ),
                true,
                n,
            );
        },
        Act::AppendEnd => {
            lemma_typing_keeps(u, line_end(u.text(), u.cursor), true, n);
        },
        Act::Open(below) => {
            lemma_typing_keeps(u, 0, below, n);
        },
        Act::Change(keep) => {
            lemma_typing_keeps(u, 0, keep, n);
        },
        Act::Delete(keep) => {
            lemma_typing_keeps(u, 0, keep, n);
        },
        Act::Yank => {
            lemma_typing_keeps(u, 0, true, n);
        },
        Act::Paste(after) => {
            lemma_counts_keep(u, after, n);
        },
        Act::SelectLine => {
            lemma_counts_keep(u, true, n);
        },
        Act::Indent(add) => {
            lemma_counts_keep(u, add, n);
        },
        Act::Join => {
            lemma_counts_keep(u, true, n);
        },
        Act::Casing(case) => {
            lemma_selections_keep(u, case, true);
        },
        Act::Bump(up) => {
            lemma_selections_keep(v, Case::Swap, up);
        },
        Act::SelectLines => {
            lemma_selections_keep(u, Case::Swap, true);
        },
        Act::SelectAll => {
            lemma_selections_keep(u, Case::Swap, true);
        },
        Act::Flip => {
            lemma_selections_keep(u, Case::Swap, true);
        },
        Act::ReplaceRegister => {
            lemma_selections_keep(u, Case::Swap, true);
        },
        Act::Undo => {
            lemma_selections_keep(u, Case::Swap, true);
        },
        Act::Redo => {
            lemma_selections_keep(u, Case::Swap, true);
        },
        _ => {
            lemma_others_keep(v, act);
            lemma_others_keep(u, act);
        },
    }
}

/// A locked text refuses the characters that commands wait for, and text from
/// outside, too.
pub proof fn law_no_character_changes_a_locked_text(v: EditorView, c: char, s: Seq<char>)
    requires
        v.wf(),
        v.buffer().readonly,
    ensures
        v.given_character(c).buffers[v.active].text == v.text(),
        v.typing(s).buffers[v.active].text == v.text(),
        v.pasting_over(s).buffers[v.active].text == v.text(),
        v.submitting_reading().buffers[v.active].text == v.text(),
{
    reveal(EditorView::given_character);
    reveal(EditorView::putting);
    reveal(EditorView::pasting_over);
    reveal(EditorView::submitting_reading);
    let w = v.idle();
    match v.pending {
        Pending::Goto => {
            law_no_act_changes_a_locked_text(w, crate::keymap::bound_goto(c));
        },
        Pending::Space => {
            law_no_act_changes_a_locked_text(w, crate::keymap::bound_space(c));
        },
        Pending::Match => {
            law_no_act_changes_a_locked_text(w, crate::keymap::bound_match(c));
        },
        Pending::Case => {
            law_no_act_changes_a_locked_text(w, crate::keymap::bound_case(c));
        },
        Pending::Merge => {
            law_no_act_changes_a_locked_text(w, crate::keymap::bound_merge(c));
        },
        Pending::Next => {
            law_no_act_changes_a_locked_text(w, crate::keymap::bound_bracket(c, true));
        },
        Pending::Previous => {
            law_no_act_changes_a_locked_text(w, crate::keymap::bound_bracket(c, false));
        },
        _ => {
            reveal(EditorView::finding);
            reveal(EditorView::replacing_chars);
            reveal(EditorView::selecting_pair);
            reveal(EditorView::surrounding);
            reveal(EditorView::resurrounding);
        },
    }
}

/// A locked text refuses a substitution, whatever it finds.
pub proof fn law_no_substitution_changes_a_locked_text(v: EditorView, s: SubstitutionView)
    requires
        v.wf(),
        v.buffer().readonly,
    ensures
        v.substituting(s).buffers == v.buffers,
{
    reveal(EditorView::substituting);
}

// ---- Buffers --------------------------------------------------------------

/// Undoing and redoing are of the buffer on the page: no other is touched.
pub proof fn law_undo_is_of_the_buffer_on_the_page(v: EditorView, k: int)
    requires
        v.wf(),
        0 <= k < v.buffers.len(),
        k != v.active,
    ensures
        v.undone().buffers[k] == v.buffers[k],
        v.redone().buffers[k] == v.buffers[k],
{
    reveal(EditorView::undone);
    reveal(EditorView::redone);
}

/// Turning to the next buffer and back comes to the place that was left.
pub proof fn law_turning_there_and_back(v: EditorView)
    requires
        v.wf(),
    ensures
        v.turning(true).turning(false).active == v.active,
        v.turning(true).turning(false).text() == v.text(),
        v.turning(true).turning(false).cursor == v.cursor,
{
    reveal(EditorView::turning);
}

// ---- Looking for a pattern ------------------------------------------------

/// The next place of a pattern is the first one after the cursor; where there
/// is none, the search goes round to the first of all.
pub proof fn law_a_search_goes_round(hits: Seq<HitView>, at: int)
    requires
        hits.len() > 0,
    ensures
        0 <= hit_after(hits, at, 0) < hits.len(),
        hits[hit_after(hits, at, 0)].from > at || hit_after(hits, at, 0) == 0,
        forall|j: int|
            0 <= j < hits.len() && (j < hit_after(hits, at, 0) || hits[hit_after(hits, at, 0)].from
                <= at) ==> (#[trigger] hits[j]).from <= at,
{
    lemma_hit_after_from(hits, at, 0);
}

proof fn lemma_hit_after_from(hits: Seq<HitView>, at: int, k: int)
    requires
        hits.len() > 0,
        0 <= k <= hits.len(),
        forall|j: int| 0 <= j < k ==> (#[trigger] hits[j]).from <= at,
    ensures
        0 <= hit_after(hits, at, k) < hits.len(),
        hits[hit_after(hits, at, k)].from > at || hit_after(hits, at, k) == 0,
        forall|j: int|
            0 <= j < hits.len() && (j < hit_after(hits, at, k) || hits[hit_after(hits, at, k)].from
                <= at) ==> (#[trigger] hits[j]).from <= at,
    decreases hits.len() - k,
{
    if k < hits.len() && hits[k].from <= at {
        lemma_hit_after_from(hits, at, k + 1);
    }
}

// ---- Coming back ----------------------------------------------------------

/// The escape key leads back to where a key is a command, and nothing is waited
/// for; it writes nothing.
pub proof fn law_escape_leads_back(v: EditorView)
    requires
        v.wf(),
    ensures
        v.keyed(Key::Esc).0.mode == Mode::Normal,
        v.mode == Mode::Normal ==> v.keyed(Key::Esc).0.pending == Pending::Idle && v.keyed(
            Key::Esc,
        ).0.count is None,
        v.keyed(Key::Esc).0.text() == v.text(),
        v.keyed(Key::Esc).0.cursor == v.cursor,
{
    reveal(EditorView::entered);
    reveal(EditorView::taking_in);
    reveal(EditorView::taking_in_first);
    reveal(EditorView::taking_in_times);
    reveal(EditorView::insert_key);
    reveal(EditorView::prompt_key);
    reveal(EditorView::escaping);
    let i = InputView::Key(Key::Esc);
    let w = v.saying(Seq::empty()).noting(i);
    assert(!w.is_count(Key::Esc));
    assert(bound(Key::Esc, w.settings.layout) == Act::Escape);
    assert(w.again_by(Key::Esc) is None);
}

// ---- Counts ---------------------------------------------------------------

proof fn lemma_joining_in_place()
    ensures
        edits_in_place(|w: EditorView| w.joining()),
{
    reveal(EditorView::joining);
    let step = |w: EditorView| w.joining();
    assert forall|v: EditorView| v.wf() implies ({
        let w = #[trigger] step(v);
        &&& w.wf()
        &&& w.active == v.active
        &&& w.buffer().readonly == v.buffer().readonly
        &&& w.buffer().grouped == v.buffer().grouped
        &&& v.buffer().grouped && v.buffer().announced is None ==> w.buffer().past
            == v.buffer().past && w.buffer().announced is None
    }) by {
        let t = v.text();
        lemma_line_end(t, v.selection_start());
        lemma_edit_keeps_sound(
            v,
            line_end(t, v.selection_start()),
            after_indentation(t, line_end(t, v.selection_start()) + 1),
            glue(
                t,
                line_end(t, v.selection_start()),
                after_indentation(t, line_end(t, v.selection_start()) + 1),
            ),
        );
    }
}

proof fn lemma_edit_keeps_sound(v: EditorView, a: int, b: int, s: Seq<char>)
    requires
        v.sound(),
    ensures
        v.announcing().writing(a, b, s).sound(),
        v.announcing().sound(),
{
    let w = v.announcing().writing(a, b, s);
    assert forall|k: int| 0 <= k < w.buffers.len() implies (#[trigger] w.buffers[k]).wf() by {
        assert(v.buffers[k].wf());
    }
    let u = v.announcing();
    assert forall|k: int| 0 <= k < u.buffers.len() implies (#[trigger] u.buffers[k]).wf() by {
        assert(v.buffers[k].wf());
    }
}

proof fn lemma_after_indentation(t: Seq<char>, i: int)
    ensures
        after_indentation(t, i) >= i,
    decreases t.len() - i,
{
    if i < t.len() && crate::verbs::is_indentation(t[i]) {
        lemma_after_indentation(t, i + 1);
    }
}

/// However many lines a count joins, one undo parts them again.
pub proof fn law_a_counted_join_is_one_undo_point(v: EditorView, n: int)
    requires
        v.wf(),
        !v.buffer().readonly,
        !v.buffer().grouped,
        line_of(v.text(), v.selection_start()) < last_line(v.text()),
        n >= 1,
    ensures
        v.counted_writing(|w: EditorView| w.joining(), n).undone().text() == v.text(),
        v.counted_writing(|w: EditorView| w.joining(), n).undone().cursor == v.cursor,
{
    reveal(EditorView::joining);
    reveal(EditorView::counted_writing);
    reveal(EditorView::undone);
    lemma_joining_in_place();
    let step = |w: EditorView| w.joining();
    lemma_after_indentation(v.text(), line_end(v.text(), v.selection_start()) + 1);
    law_a_count_is_one_undo_point(v, step, least(n, WRITING_MAX as int));
}

proof fn lemma_pasting_in_place(after: bool)
    ensures
        edits_in_place(|w: EditorView| w.pasting(after)),
{
    reveal(EditorView::pasting);
    let step = |w: EditorView| w.pasting(after);
    assert forall|v: EditorView| v.wf() implies ({
        let w = #[trigger] step(v);
        &&& w.wf()
        &&& w.active == v.active
        &&& w.buffer().readonly == v.buffer().readonly
        &&& w.buffer().grouped == v.buffer().grouped
        &&& v.buffer().grouped && v.buffer().announced is None ==> w.buffer().past
            == v.buffer().past && w.buffer().announced is None
    }) by {
        lemma_paste_in_place(v, after);
    }
}

proof fn lemma_paste_in_place(v: EditorView, after: bool)
    requires
        v.wf(),
    ensures
        v.pasting(after).wf(),
        v.pasting(after).active == v.active,
        v.pasting(after).buffer().readonly == v.buffer().readonly,
        v.pasting(after).buffer().grouped == v.buffer().grouped,
        v.buffer().grouped && v.buffer().announced is None ==> v.pasting(after).buffer().past
            == v.buffer().past && v.pasting(after).buffer().announced is None,
        v.recalled().len() > 0 && !v.buffer().readonly && !v.buffer().grouped ==> v.pasting(
            after,
        ).buffer().past == v.buffer().past.push(PointView { text: v.text(), at: v.cursor })
            && v.pasting(after).buffer().announced is None,
{
    reveal(EditorView::pasting);
    let t = v.text();
    let s = v.recalled();
    let asked = v.asking_for_none();
    let at = v.paste_at(s, after);
    lemma_next_grapheme(t, most(v.anchor, v.cursor));
    crate::text::lemma_line_around(t, v.selection_start());
    crate::text::lemma_line_of_monotone(
        t,
        0,
        most(v.selection_end() - 1, v.selection_start()),
    );
    crate::text::lemma_line_start(t, most(v.last_selected_line() + 1, 0));
    crate::text::lemma_line_start(t, v.first_selected_line());
    lemma_edit_keeps_sound(asked, at, at, s);
    lemma_edit_keeps_sound(asked, at, at, seq!['\n'] + s.drop_last());
    lemma_spliced(t, at, at, s);
    lemma_spliced(t, at, at, seq!['\n'] + s.drop_last());
    if s.len() > 0 && !v.buffer().readonly {
        let w = v.pasting(after);
        let u = w.text();
        lemma_prev_grapheme(u, least(at + s.len(), u.len() as int));
    }
}

/// However often a count puts the register in, one undo takes it all out.
pub proof fn law_a_counted_paste_is_one_undo_point(v: EditorView, after: bool, n: int)
    requires
        v.wf(),
        !v.buffer().readonly,
        !v.buffer().grouped,
        v.recalled().len() > 0,
        n >= 1,
    ensures
        v.counted_writing(|w: EditorView| w.pasting(after), n).undone().text() == v.text(),
        v.counted_writing(|w: EditorView| w.pasting(after), n).undone().cursor == v.cursor,
{
    reveal(EditorView::counted_writing);
    reveal(EditorView::undone);
    lemma_pasting_in_place(after);
    lemma_paste_in_place(v, after);
    let step = |w: EditorView| w.pasting(after);
    law_a_count_is_one_undo_point(v, step, least(n, WRITING_MAX as int));
}

} // verus!

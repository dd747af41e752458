//! Undo, redo, and leaving.

use vstd::prelude::*;
use crate::buffer::{Buffer, BufferView, scratch};
use crate::editor::{buffer_views, Editor, EditorView, least, lemma_buffer_update, most};
use crate::outcome::{CommandOutcome, EditorError, ending, ErrorView};
use crate::say;

verus! {

/// The first buffer at or after `i` with changes that were not saved, or how
/// many buffers there are.
pub open spec fn unsaved_from(buffers: Seq<BufferView>, i: int) -> int
    decreases buffers.len() - i,
{
    if i >= buffers.len() {
        buffers.len() as int
    } else if buffers[i].modified {
        i
    } else {
        unsaved_from(buffers, i + 1)
    }
}

impl EditorView {
    /// Without the recovery copies that this session wrote.
    pub open spec fn swept(self) -> EditorView {
        EditorView { buffers: self.buffers.map_values(|b: BufferView| b.swept()), ..self }
    }

    /// Leaving, however many buffers there are. What was not saved holds it
    /// up: its buffer comes on the page.
    pub open spec fn leaving_all(self, force: bool) -> (
        EditorView,
        Result<CommandOutcome, ErrorView>,
    ) {
        let i = unsaved_from(self.buffers, 0);
        if !force && i < self.buffers.len() {
            (self.showing_buffer(i), Err(ErrorView::UnsavedChanges))
        } else {
            (self.swept(), Ok(CommandOutcome::Quit))
        }
    }

    /// Without the buffer on the page; the one before it takes its place. The
    /// last buffer is emptied.
    pub open spec fn closing(self) -> EditorView {
        if self.buffers.len() == 1 {
            EditorView {
                buffers: seq![scratch()],
                cursor: 0,
                anchor: 0,
                extend: false,
                ..self
            }
        } else {
            let rest = self.buffers.remove(self.active);
            let i = most(self.active - 1, 0);
            let at = least(rest[i].place, rest[i].text.len() as int);
            EditorView { buffers: rest, active: i, cursor: at, anchor: at, extend: false, ..self }
        }
    }

    /// Closing the buffer on the page, unless it was not saved.
    pub open spec fn leaving_buffer(self, force: bool) -> (
        EditorView,
        Result<CommandOutcome, ErrorView>,
    ) {
        if !force && self.buffer().modified {
            (self, Err(ErrorView::UnsavedChanges))
        } else {
            (self.closing(), Ok(CommandOutcome::Continue))
        }
    }

    /// Closing the buffer on the page; leaving where it is the last one.
    pub open spec fn leaving(self, force: bool) -> (
        EditorView,
        Result<CommandOutcome, ErrorView>,
    ) {
        if self.buffers.len() > 1 {
            self.leaving_buffer(force)
        } else {
            self.leaving_all(force)
        }
    }

    /// Back to the state before the last change of the buffer on the page.
    #[verifier::opaque]
    pub open spec fn undone(self) -> EditorView {
        if self.buffer().readonly {
            self.saying(say::readonly_text())
        } else if self.buffer().past.len() == 0 {
            self.saying(say::undo_at_oldest_text())
        } else {
            let at = self.buffer().past.last().at;
            EditorView {
                cursor: at,
                anchor: at,
                ..self.with_buffer(self.buffer().undone(self.cursor))
            }.clamped()
        }
    }

    /// Forward to the state that was undone last.
    #[verifier::opaque]
    pub open spec fn redone(self) -> EditorView {
        if self.buffer().readonly {
            self.saying(say::readonly_text())
        } else if self.buffer().future.len() == 0 {
            self.saying(say::redo_at_newest_text())
        } else {
            let at = self.buffer().future.last().at;
            EditorView {
                cursor: at,
                anchor: at,
                ..self.with_buffer(self.buffer().redone(self.cursor))
            }.clamped()
        }
    }
}

impl Editor {
    /// `:q`: closes the buffer on the page, and leaves where it is the last.
    pub fn quit(&mut self, force: bool) -> (r: Result<CommandOutcome, EditorError>)
        requires
            old(self).wf(),
        ensures
            final(self).wf(),
            (final(self)@, ending(r)) == old(self)@.leaving(force),
    {
        if self.buffers.len() > 1 {
            return self.close_buffer(force);
        }
        self.quit_all(force)
    }

    /// `:qa`: leaves, however many buffers there are.
    pub fn quit_all(&mut self, force: bool) -> (r: Result<CommandOutcome, EditorError>)
        requires
            old(self).wf(),
        ensures
            final(self).wf(),
            (final(self)@, ending(r)) == old(self)@.leaving_all(force),
    {
        if force {
            self.drop_recovery_copies();
            return Ok(CommandOutcome::Quit);
        }
        let mut i: usize = 0;
        while i < self.buffers.len()
            invariant
                !force,
                self.wf(),
                *self == *old(self),
                0 <= i <= self.buffers@.len(),
                unsaved_from(self@.buffers, 0) == unsaved_from(self@.buffers, i as int),
            decreases self.buffers@.len() - i,
        {
            assert(self@.buffers[i as int] == self.buffers@[i as int]@);
            if self.buffers[i].is_modified() {
                self.show_buffer(i);
                return Err(EditorError::UnsavedChanges);
            }
            i += 1;
        }
        self.drop_recovery_copies();
        Ok(CommandOutcome::Quit)
    }

    /// Gives up the recovery copies that this session wrote.
    fn drop_recovery_copies(&mut self)
        requires
            old(self).wf(),
        ensures
            final(self).wf(),
            final(self)@ == old(self)@.swept(),
    {
        let ghost had = self@.buffers;
        let mut i: usize = 0;
        while i < self.buffers.len()
            invariant
                0 <= i <= self.buffers@.len(),
                had.len() == self.buffers@.len(),
                had == old(self)@.buffers,
                self@ == (EditorView { buffers: self@.buffers, ..old(self)@ }),
                forall|k: int| 0 <= k < i ==> (#[trigger] self@.buffers[k]) == had[k].swept(),
                forall|k: int| i <= k < had.len() ==> (#[trigger] self@.buffers[k]) == had[k],
            decreases self.buffers@.len() - i,
        {
            let ghost before = self.buffers@;
            self.buffers[i].clear_swap();
            proof {
                lemma_buffer_update(before, self.buffers@, i as int);
                assert(buffer_views(before)[i as int] == had[i as int]);
            }
            i += 1;
        }
        assert(self@.buffers =~= old(self)@.swept().buffers);
        assert(self@ =~= old(self)@.swept());
        assert(forall|k: int|
            0 <= k < had.len() ==> (#[trigger] self@.buffers[k]) == had[k].swept());
    }

    /// Closes the buffer on the page, unless it was not saved.
    pub fn close_buffer(&mut self, force: bool) -> (r: Result<CommandOutcome, EditorError>)
        requires
            old(self).wf(),
        ensures
            final(self).wf(),
            (final(self)@, ending(r)) == old(self)@.leaving_buffer(force),
    {
        let i: usize = self.active;
        if !force && self.buffers[i].is_modified() {
            return Err(EditorError::UnsavedChanges);
        }
        if self.buffers.len() == 1 {
            let mut buffers: Vec<Buffer> = Vec::new();
            buffers.push(Buffer::new());
            self.buffers = buffers;
            self.cursor = 0;
            self.anchor = 0;
            self.extend = false;
            assert(buffer_views(self.buffers@) =~= seq![scratch()]);
            assert(self@ =~= old(self)@.closing());
            return Ok(CommandOutcome::Continue);
        }
        let ghost had = self@.buffers;
        let _ = self.buffers.remove(i);
        assert(buffer_views(self.buffers@) =~= had.remove(i as int));
        let to: usize = if i > 0 {
            i - 1
        } else {
            0
        };
        self.active = to;
        let n: usize = self.buffers[to].char_count();
        let place: usize = self.buffers[to].place;
        let at: usize = if place <= n {
            place
        } else {
            n
        };
        self.cursor = at;
        self.anchor = at;
        self.extend = false;
        proof {
            assert(self@.buffers[to as int] == self.buffers@[to as int]@);
            assert(self@ =~= old(self)@.closing());
            assert forall|k: int| 0 <= k < self@.buffers.len() implies (
            #[trigger] self@.buffers[k]).wf() by {
                assert(self@.buffers[k] == if k < i {
                    had[k]
                } else {
                    had[k + 1]
                });
            }
        }
        Ok(CommandOutcome::Continue)
    }

    /// `u`: undoes the last change of the buffer on the page.
    pub fn undo(&mut self)
        requires
            old(self).wf(),
        ensures
            final(self).wf(),
            final(self)@ == old(self)@.undone(),
    {
        proof {
            reveal(EditorView::undone);
        }
        if self.refuse_readonly() {
            return;
        }
        let at: usize = self.cursor;
        let i: usize = self.active;
        let ghost before = self.buffers@;
        let back: Option<usize> = self.buffers[i].undo(at);
        proof {
            lemma_buffer_update(before, self.buffers@, i as int);
        }
        match back {
            Some(cursor) => {
                self.cursor = cursor;
                self.anchor = cursor;
                self.clamp_cursor();
                assert(self@ =~= old(self)@.undone());
            },
            None => {
                assert(self@.buffers =~= old(self)@.buffers);
                self.status = say::undo_at_oldest();
                assert(self@ =~= old(self)@.undone());
            },
        }
    }

    /// `U`: redoes what was undone last in the buffer on the page.
    pub fn redo(&mut self)
        requires
            old(self).wf(),
        ensures
            final(self).wf(),
            final(self)@ == old(self)@.redone(),
    {
        proof {
            reveal(EditorView::redone);
        }
        if self.refuse_readonly() {
            return;
        }
        let at: usize = self.cursor;
        let i: usize = self.active;
        let ghost before = self.buffers@;
        let back: Option<usize> = self.buffers[i].redo(at);
        proof {
            lemma_buffer_update(before, self.buffers@, i as int);
        }
        match back {
            Some(cursor) => {
                self.cursor = cursor;
                self.anchor = cursor;
                self.clamp_cursor();
                assert(self@ =~= old(self)@.redone());
            },
            None => {
                assert(self@.buffers =~= old(self)@.buffers);
                self.status = say::redo_at_newest();
                assert(self@ =~= old(self)@.redone());
            },
        }
    }
}

} // verus!

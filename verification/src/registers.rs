//! Registers: what was taken out of a text or copied from it.

use vstd::prelude::*;
use crate::editor::{Editor, EditorView};
use crate::state::{RegistersView, shelf_views};
use crate::text::{copied, same_text, views};

verus! {

/// The first named register at or after `i` with the name `c`, or how many
/// there are.
pub open spec fn slot_from(shelf: Seq<(char, Seq<char>)>, c: char, i: int) -> int
    decreases shelf.len() - i,
{
    if i >= shelf.len() {
        shelf.len() as int
    } else if shelf[i].0 == c {
        i
    } else {
        slot_from(shelf, c, i + 1)
    }
}

/// What the named register `c` holds; nothing where there is none.
pub open spec fn shelved(shelf: Seq<(char, Seq<char>)>, c: char) -> Seq<char> {
    let i = slot_from(shelf, c, 0);
    if i < shelf.len() {
        shelf[i].1
    } else {
        Seq::empty()
    }
}

/// The named registers with `s` in the one called `c`.
pub open spec fn with_shelved(
    shelf: Seq<(char, Seq<char>)>,
    c: char,
    s: Seq<char>,
) -> Seq<(char, Seq<char>)> {
    let i = slot_from(shelf, c, 0);
    if i < shelf.len() {
        shelf.update(i, (c, s))
    } else {
        shelf.push((c, s))
    }
}

/// What was taken, with `s` as the latest; the same thing is not taken twice
/// over.
pub open spec fn with_taken(ring: Seq<Seq<char>>, s: Seq<char>) -> Seq<Seq<char>> {
    if ring.len() > 0 && ring.last() == s {
        ring
    } else {
        ring.push(s)
    }
}

impl EditorView {
    /// With `s` in the register that was asked for; the asking is over.
    pub open spec fn keeping(self, s: Seq<char>) -> EditorView {
        match self.registers.asked {
            Some(c) => EditorView {
                registers: RegistersView {
                    shelf: with_shelved(self.registers.shelf, c, s),
                    asked: None,
                    ..self.registers
                },
                ..self
            },
            None => EditorView {
                registers: RegistersView {
                    ring: with_taken(self.registers.ring, s),
                    ..self.registers
                },
                ..self
            },
        }
    }

    /// With no register asked for.
    pub open spec fn asking_for_none(self) -> EditorView {
        EditorView { registers: RegistersView { asked: None, ..self.registers }, ..self }
    }

    /// What the register holds that the next operation was told to use; what
    /// was taken last where it was told of none.
    pub open spec fn recalled(self) -> Seq<char> {
        match self.registers.asked {
            Some(c) => shelved(self.registers.shelf, c),
            None => if self.registers.ring.len() > 0 {
                self.registers.ring.last()
            } else {
                Seq::empty()
            },
        }
    }
}

/// Where the named register `c` is, or how many there are.
pub(crate) fn find_slot(shelf: &Vec<(char, String)>, c: char) -> (i: usize)
    ensures
        i == slot_from(shelf_views(shelf@), c, 0),
        i <= shelf@.len(),
{
    let ghost all = shelf_views(shelf@);
    let mut i: usize = 0;
    while i < shelf.len()
        invariant
            0 <= i <= shelf@.len(),
            all == shelf_views(shelf@),
            slot_from(all, c, 0) == slot_from(all, c, i as int),
        decreases shelf@.len() - i,
    {
        assert(all[i as int].0 == shelf@[i as int].0);
        if shelf[i].0 == c {
            return i;
        }
        i += 1;
    }
    i
}

impl Editor {
    /// What the register holds that was asked for; the asking is over.
    pub fn recall(&mut self) -> (s: String)
        requires
            old(self).wf(),
        ensures
            final(self).wf(),
            s@ == old(self)@.recalled(),
            final(self)@ == old(self)@.asking_for_none(),
    {
        let named: Option<char> = self.registers.asked;
        self.registers.asked = None;
        match named {
            Some(c) => {
                let i: usize = find_slot(&self.registers.shelf, c);
                if i < self.registers.shelf.len() {
                    assert(self@.registers.shelf[i as int].1 == self.registers.shelf@[i as int].1@);
                    copied(self.registers.shelf[i].1.as_str())
                } else {
                    let s: String = String::new();
                    assert(s@ =~= Seq::empty());
                    s
                }
            },
            None => {
                let n: usize = self.registers.ring.len();
                if n > 0 {
                    assert(self@.registers.ring.last() == self.registers.ring@[n - 1]@);
                    copied(self.registers.ring[n - 1].as_str())
                } else {
                    let s: String = String::new();
                    assert(s@ =~= Seq::empty());
                    s
                }
            },
        }
    }

    /// Puts `s` into the register that was asked for; the asking is over.
    pub fn keep(&mut self, s: &str)
        requires
            old(self)@.sound(),
        ensures
            final(self)@ == old(self)@.keeping(s@),
    {
        match self.registers.asked {
            Some(c) => {
                self.registers.asked = None;
                let i: usize = find_slot(&self.registers.shelf, c);
                let ghost before = shelf_views(self.registers.shelf@);
                if i < self.registers.shelf.len() {
                    self.registers.shelf[i] = (c, copied(s));
                    assert(shelf_views(self.registers.shelf@) =~= before.update(i as int, (c, s@)));
                } else {
                    self.registers.shelf.push((c, copied(s)));
                    assert(shelf_views(self.registers.shelf@) =~= before.push((c, s@)));
                }
            },
            None => {
                let n: usize = self.registers.ring.len();
                let ghost before = views(self.registers.ring@);
                if n > 0 && same_text(self.registers.ring[n - 1].as_str(), s) {
                    assert(before.last() == self.registers.ring@[n - 1]@);
                } else {
                    assert(n > 0 ==> before.last() == self.registers.ring@[n - 1]@);
                    self.registers.ring.push(copied(s));
                    assert(views(self.registers.ring@) =~= before.push(s@));
                }
            },
        }
    }
}

} // verus!

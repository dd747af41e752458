//! Choosing one of the open buffers by name.

use vstd::prelude::*;
use crate::buffer::BufferView;
use crate::editor::{Editor, EditorView, Mode};
use crate::text::{chars_of, find_stand, next_stand};

verus! {

/// The buffers among the first `k` in whose names the query stands.
pub open spec fn offered(buffers: Seq<BufferView>, query: Seq<char>, k: int) -> Seq<int>
    decreases k,
{
    if k <= 0 {
        Seq::empty()
    } else if next_stand(buffers[k - 1].display_name(), query, 0) is Some {
        offered(buffers, query, k - 1).push(k - 1)
    } else {
        offered(buffers, query, k - 1)
    }
}

impl EditorView {
    /// The buffers to choose from.
    pub open spec fn choices(self) -> Seq<int> {
        offered(self.buffers, self.prompt.line, self.buffers.len() as int)
    }

    /// One of the open buffers is to be chosen.
    #[verifier::opaque]
    pub open spec fn choosing_buffer(self) -> EditorView {
        EditorView {
            mode: Mode::Picker,
            prompt: self.prompt.cleared(),
            chosen: 0,
            ..self.uncounted()
        }
    }

    /// With the next choice chosen, or the one before; there is none beyond the
    /// ends.
    pub open spec fn choosing(self, down: bool) -> EditorView {
        EditorView {
            chosen: if down {
                if self.chosen + 1 < self.choices().len() {
                    self.chosen + 1
                } else {
                    self.chosen
                }
            } else if self.chosen > 0 {
                self.chosen - 1
            } else {
                0
            },
            ..self
        }
    }

    /// With the chosen buffer on the page.
    #[verifier::opaque]
    pub open spec fn taking_choice(self) -> EditorView {
        let v = EditorView { mode: Mode::Normal, prompt: self.prompt.cleared(), ..self };
        if self.chosen < self.choices().len() {
            v.showing_buffer(self.choices()[self.chosen])
        } else {
            v
        }
    }
}

/// What is to be chosen from.
#[derive(Debug)]
pub struct Picker {
    pub query: String,
    pub caret: usize,
    /// How many there are, whatever the query.
    pub total: usize,
    /// The names that are offered.
    pub names: Vec<String>,
    pub chosen: usize,
}

impl Picker {
    /// What was typed.
    pub fn query(&self) -> (s: &str)
        ensures
            s@ == self.query@,
    {
        self.query.as_str()
    }

    /// Where the caret is in what was typed.
    pub fn caret(&self) -> (i: usize)
        ensures
            i == self.caret,
    {
        self.caret
    }

    /// How many there are, whatever the query.
    pub fn total(&self) -> (n: usize)
        ensures
            n == self.total,
    {
        self.total
    }
}

impl Editor {
    /// The buffers to choose from.
    fn find_choices(&self) -> (r: Vec<usize>)
        requires
            self.wf(),
        ensures
            r@.map_values(|i: usize| i as int) == self@.choices(),
            forall|k: int| 0 <= k < r@.len() ==> (#[trigger] r@[k]) < self.buffers@.len(),
    {
        let mut r: Vec<usize> = Vec::new();
        let mut k: usize = 0;
        let ghost all = self@.buffers;
        let ghost query = self.prompt.line@;
        assert(r@.map_values(|i: usize| i as int) =~= Seq::empty());
        while k < self.buffers.len()
            invariant
                0 <= k <= self.buffers@.len(),
                all == self@.buffers,
                all.len() == self.buffers@.len(),
                query == self.prompt.line@,
                r@.map_values(|i: usize| i as int) == offered(all, query, k as int),
                forall|j: int| 0 <= j < r@.len() ==> (#[trigger] r@[j]) < self.buffers@.len(),
            decreases self.buffers@.len() - k,
        {
            let name: Vec<char> = chars_of(self.buffers[k].display_name().as_str());
            assert(all[k as int] == self.buffers@[k as int]@);
            let ghost before = r@.map_values(|i: usize| i as int);
            if find_stand(&name, &self.prompt.line, 0).is_some() {
                r.push(k);
                assert(r@.map_values(|i: usize| i as int) =~= before.push(k as int));
            }
            k += 1;
        }
        r
    }

    /// `space b`: one of the open buffers is to be chosen.
    pub fn open_buffer_picker(&mut self)
        requires
            old(self).wf(),
        ensures
            final(self).wf(),
            final(self)@ == old(self)@.choosing_buffer(),
    {
        proof {
            reveal(EditorView::choosing_buffer);
        }
        self.count = None;
        self.mode = Mode::Picker;
        self.prompt.clear();
        self.chosen = 0;
    }

    /// Chooses the next one, or the one before.
    pub(crate) fn move_choice(&mut self, down: bool)
        requires
            old(self).wf(),
        ensures
            final(self).wf(),
            final(self)@ == old(self)@.choosing(down),
    {
        let v: Vec<usize> = self.find_choices();
        assert(v@.map_values(|i: usize| i as int).len() == v@.len());
        let n: usize = v.len();
        if down {
            if self.chosen < n && self.chosen + 1 < n {
                self.chosen = self.chosen + 1;
            }
        } else if self.chosen > 0 {
            self.chosen = self.chosen - 1;
        } else {
            self.chosen = 0;
        }
    }

    /// Puts the chosen buffer on the page.
    pub(crate) fn take_choice(&mut self)
        requires
            old(self).wf(),
        ensures
            final(self).wf(),
            final(self)@ == old(self)@.taking_choice(),
    {
        proof {
            reveal(EditorView::taking_choice);
        }
        let v: Vec<usize> = self.find_choices();
        assert(v@.map_values(|i: usize| i as int).len() == v@.len());
        self.mode = Mode::Normal;
        self.prompt.clear();
        if self.chosen < v.len() {
            assert(v@.map_values(|i: usize| i as int)[self.chosen as int] == v@[self.chosen as int]);
            self.show_buffer(v[self.chosen]);
        }
    }

    /// What is to be chosen from, where something is.
    pub fn picker(&self) -> (r: Option<Picker>)
        requires
            self.wf(),
        ensures
            r is Some <==> self@.mode == Mode::Picker,
            r matches Some(p) ==> p.query@ == self@.prompt.line && p.caret == self@.prompt.caret
                && p.total == self@.buffers.len() && p.chosen == self@.chosen && p.names@.len()
                == self@.choices().len() && forall|k: int|
                0 <= k < p.names@.len() ==> (#[trigger] p.names@[k])@
                    == self@.buffers[self@.choices()[k]].display_name(),
    {
        if self.mode != Mode::Picker {
            return None;
        }
        let v: Vec<usize> = self.find_choices();
        let ghost all = v@.map_values(|i: usize| i as int);
        let mut names: Vec<String> = Vec::new();
        let mut k: usize = 0;
        while k < v.len()
            invariant
                0 <= k <= v@.len(),
                all == v@.map_values(|i: usize| i as int),
                all == self@.choices(),
                forall|j: int| 0 <= j < v@.len() ==> (#[trigger] v@[j]) < self.buffers@.len(),
                names@.len() == k,
                forall|j: int|
                    0 <= j < k ==> (#[trigger] names@[j])@
                        == self@.buffers[all[j]].display_name(),
            decreases v@.len() - k,
        {
            assert(all[k as int] == v@[k as int]);
            assert(self@.buffers[v@[k as int] as int] == self.buffers@[v@[k as int] as int]@);
            let name: String = self.buffers[v[k]].display_name();
            names.push(name);
            k += 1;
        }
        let total: usize = self.buffers.len();
        Some(
            Picker {
                query: self.prompt.text(),
                caret: self.prompt.caret,
                total,
                names,
                chosen: self.chosen,
            },
        )
    }
}

} // verus!

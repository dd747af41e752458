//! What was pressed, for doing it again.

use vstd::prelude::*;
use crate::editor::Key;
use crate::text::copied;

verus! {

/// One thing that came in: a key, or text that an input method gave.
#[derive(Debug)]
pub enum Input {
    Key(Key),
    Text(String),
}

/// What an [`Input`] says.
pub enum InputView {
    Key(Key),
    Text(Seq<char>),
}

impl View for Input {
    type V = InputView;

    open spec fn view(&self) -> InputView {
        match *self {
            Input::Key(k) => InputView::Key(k),
            Input::Text(s) => InputView::Text(s@),
        }
    }
}

/// What inputs say.
pub open spec fn input_views(v: Seq<Input>) -> Seq<InputView> {
    v.map_values(|i: Input| i@)
}

impl Input {
    /// A copy of the input.
    pub fn copy(&self) -> (r: Input)
        ensures
            r@ == self@,
    {
        match self {
            Input::Key(k) => Input::Key(*k),
            Input::Text(s) => Input::Text(copied(s.as_str())),
        }
    }
}

/// A copy of inputs.
pub fn copied_inputs(v: &Vec<Input>) -> (r: Vec<Input>)
    ensures
        input_views(r@) == input_views(v@),
{
    let mut r: Vec<Input> = Vec::new();
    let mut i: usize = 0;
    while i < v.len()
        invariant
            0 <= i <= v@.len(),
            input_views(r@) == input_views(v@).take(i as int),
        decreases v@.len() - i,
    {
        let ghost before = input_views(r@);
        let one: Input = v[i].copy();
        r.push(one);
        assert(input_views(r@) =~= before.push(v@[i as int]@));
        assert(input_views(v@).take(i + 1) =~= before.push(v@[i as int]@));
        i += 1;
    }
    assert(input_views(v@).take(v@.len() as int) =~= input_views(v@));
    r
}

/// The command under way, the last change, and the macro.
#[derive(Debug)]
pub struct Repeats {
    /// What came in since the command under way began.
    pub watch: Vec<Input>,
    /// The buffer it began in, and how often that had changed.
    pub buffer: usize,
    pub revision: u64,
    /// What came in for the last change.
    pub change: Vec<Input>,
    /// What came in since the recording began.
    pub recording: Option<Vec<Input>>,
    /// What was recorded.
    pub recorded: Vec<Input>,
}

/// What [`Repeats`] holds.
#[verifier::ext_equal]
pub struct RepeatsView {
    pub watch: Seq<InputView>,
    pub buffer: int,
    pub revision: int,
    pub change: Seq<InputView>,
    pub recording: Option<Seq<InputView>>,
    pub recorded: Seq<InputView>,
}

impl View for Repeats {
    type V = RepeatsView;

    open spec fn view(&self) -> RepeatsView {
        RepeatsView {
            watch: input_views(self.watch@),
            buffer: self.buffer as int,
            revision: self.revision as int,
            change: input_views(self.change@),
            recording: match self.recording {
                Some(v) => Some(input_views(v@)),
                None => None,
            },
            recorded: input_views(self.recorded@),
        }
    }
}

/// Whether a key of the count comes in.
pub open spec fn is_count_key(i: InputView) -> bool {
    i matches InputView::Key(Key::Char(c)) && '0' <= c && c <= '9'
}

/// The first input that is no part of a count.
pub open spec fn head_of(inputs: Seq<InputView>, k: int) -> Option<InputView>
    decreases inputs.len() - k,
{
    if k >= inputs.len() {
        None
    } else if is_count_key(inputs[k]) {
        head_of(inputs, k + 1)
    } else {
        Some(inputs[k])
    }
}

/// Whether what came in is no change to be done again, whatever it did: going
/// back and forth, doing something again, and what is asked for by name.
pub open spec fn is_no_change(inputs: Seq<InputView>) -> bool {
    match head_of(inputs, 0) {
        Some(InputView::Key(Key::Char(c))) => c == '.' || c == 'u' || c == 'U' || c == 'q' || c
            == 'Q' || c == ':',
        Some(_) => false,
        None => true,
    }
}

/// Whether what came in is no change to be done again.
pub fn makes_no_change(inputs: &Vec<Input>) -> (r: bool)
    ensures
        r == is_no_change(input_views(inputs@)),
{
    let ghost all = input_views(inputs@);
    let mut k: usize = 0;
    while k < inputs.len()
        invariant
            0 <= k <= inputs@.len(),
            all == input_views(inputs@),
            head_of(all, 0) == head_of(all, k as int),
        decreases inputs@.len() - k,
    {
        assert(all[k as int] == inputs@[k as int]@);
        match &inputs[k] {
            Input::Key(Key::Char(c)) => {
                let c: char = *c;
                if !('0' <= c && c <= '9') {
                    return c == '.' || c == 'u' || c == 'U' || c == 'q' || c == 'Q' || c == ':';
                }
            },
            _ => {
                return false;
            },
        }
        k += 1;
    }
    true
}

impl RepeatsView {
    /// With one more input of the command under way.
    pub open spec fn watching(self, i: InputView) -> RepeatsView {
        RepeatsView { watch: self.watch.push(i), ..self }
    }

    /// With a command beginning in a buffer.
    pub open spec fn beginning(self, i: InputView, buffer: int, revision: int) -> RepeatsView {
        RepeatsView { watch: seq![i], buffer, revision, ..self }
    }

    /// With one more input recorded, where there is a recording.
    pub open spec fn recording(self, i: InputView) -> RepeatsView {
        match self.recording {
            Some(v) => RepeatsView { recording: Some(v.push(i)), ..self },
            None => self,
        }
    }

    /// With the recording begun, or ended and kept.
    pub open spec fn toggling(self) -> RepeatsView {
        match self.recording {
            Some(v) => RepeatsView { recording: None, recorded: v, ..self },
            None => RepeatsView { recording: Some(Seq::empty()), ..self },
        }
    }

    /// With the command done: where it changed the buffer it began in, it is
    /// the last change.
    pub open spec fn settling(self, buffer: int, revision: int) -> RepeatsView {
        if self.watch.len() > 0 && buffer == self.buffer && revision != self.revision
            && !is_no_change(self.watch) {
            RepeatsView { change: self.watch, watch: Seq::empty(), ..self }
        } else {
            RepeatsView { watch: Seq::empty(), ..self }
        }
    }
}

impl Repeats {
    /// Nothing was pressed.
    pub fn new() -> (r: Repeats)
        ensures
            r@ == (RepeatsView {
                watch: Seq::empty(),
                buffer: 0,
                revision: 0,
                change: Seq::empty(),
                recording: None,
                recorded: Seq::empty(),
            }),
    {
        let r: Repeats = Repeats {
            watch: Vec::new(),
            buffer: 0,
            revision: 0,
            change: Vec::new(),
            recording: None,
            recorded: Vec::new(),
        };
        assert(input_views(r.watch@) =~= Seq::empty());
        assert(input_views(r.change@) =~= Seq::empty());
        assert(input_views(r.recorded@) =~= Seq::empty());
        r
    }

    /// One more input of the command under way.
    pub fn watch(&mut self, i: Input)
        ensures
            final(self)@ == old(self)@.watching(i@),
    {
        let ghost before = input_views(self.watch@);
        self.watch.push(i);
        assert(input_views(self.watch@) =~= before.push(i@));
    }

    /// A command begins in a buffer.
    pub fn begin(&mut self, i: Input, buffer: usize, revision: u64)
        ensures
            final(self)@ == old(self)@.beginning(i@, buffer as int, revision as int),
    {
        let mut watch: Vec<Input> = Vec::new();
        watch.push(i);
        self.watch = watch;
        self.buffer = buffer;
        self.revision = revision;
        assert(input_views(self.watch@) =~= seq![i@]);
    }

    /// Records one more input, where there is a recording.
    pub fn record(&mut self, i: Input)
        ensures
            final(self)@ == old(self)@.recording(i@),
    {
        match &mut self.recording {
            Some(v) => {
                let ghost before = input_views(v@);
                v.push(i);
                assert(input_views(v@) =~= before.push(i@));
            },
            None => {},
        }
    }

    /// Begins the recording, or ends and keeps it.
    pub fn toggle(&mut self)
        ensures
            final(self)@ == old(self)@.toggling(),
    {
        match self.recording.take() {
            Some(v) => {
                self.recorded = v;
            },
            None => {
                let v: Vec<Input> = Vec::new();
                assert(input_views(v@) =~= Seq::empty());
                self.recording = Some(v);
            },
        }
    }

    /// The command is done.
    pub fn settle(&mut self, buffer: usize, revision: u64)
        ensures
            final(self)@ == old(self)@.settling(buffer as int, revision as int),
    {
        let changed: bool = self.watch.len() > 0 && buffer == self.buffer && revision
            != self.revision && !makes_no_change(&self.watch);
        if changed {
            self.change = copied_inputs(&self.watch);
        }
        self.watch = Vec::new();
        assert(input_views(self.watch@) =~= Seq::empty());
        assert(self@ =~= old(self)@.settling(buffer as int, revision as int));
    }
}

} // verus!

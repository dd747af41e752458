//! Where things are in a text.

use vstd::prelude::*;
use ropey::Rope;
use crate::rope::{
    rope_char, rope_char_to_line, rope_chars, rope_len, rope_line_to_char, rope_lines,
};
use crate::text::{
    last_line as last_line_of, lemma_line_around, lemma_line_of_monotone, line_end as line_end_of,
    line_of, line_start as line_start_of,
};

verus! {

/// Where the line that `i` is on ends: its break, or the end of the text.
pub fn line_end(rope: &Rope, i: usize) -> (r: usize)
    requires
        i <= rope_chars(*rope).len(),
    ensures
        r == line_end_of(rope_chars(*rope), i as int),
        i <= r <= rope_chars(*rope).len(),
{
    let n: usize = rope_len(rope);
    let mut k: usize = i;
    while k < n && rope_char(rope, k) != '\n'
        invariant
            i <= k <= n,
            n == rope_chars(*rope).len(),
            line_end_of(rope_chars(*rope), i as int) == line_end_of(rope_chars(*rope), k as int),
        decreases n - k,
    {
        k += 1;
    }
    k
}

/// Where the line that `i` is on begins.
pub fn line_start(rope: &Rope, i: usize) -> (r: usize)
    requires
        i <= rope_chars(*rope).len(),
    ensures
        r == line_start_of(rope_chars(*rope), line_of(rope_chars(*rope), i as int)),
{
    proof {
        lemma_line_around(rope_chars(*rope), i as int);
    }
    let line: usize = rope_char_to_line(rope, i);
    rope_line_to_char(rope, line)
}

/// The last line that holds text.
pub fn last_line(rope: &Rope) -> (r: usize)
    ensures
        r == last_line_of(rope_chars(*rope)),
{
    let ghost t = rope_chars(*rope);
    let n: usize = rope_len(rope);
    let lines: usize = rope_lines(rope);
    proof {
        lemma_line_of_monotone(t, 0, t.len() as int);
        if t.len() > 0 {
            lemma_line_of_monotone(t, 0, t.len() - 1);
        }
    }
    if n > 0 && rope_char(rope, n - 1) == '\n' {
        lines - 2
    } else {
        lines - 1
    }
}

} // verus!

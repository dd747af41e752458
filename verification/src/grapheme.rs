//! Graphemes: what a reader takes for one character.
//!
//! The `unicode-segmentation` crate cuts a text into them. A line break always
//! ends one, so a position's neighbours are found on its own line.

use vstd::prelude::*;
use ropey::Rope;
use unicode_segmentation::UnicodeSegmentation;
use crate::rope::{rope_char_to_line, rope_chars, rope_len, rope_line, rope_line_to_char};
use crate::text::{
    char_count, lemma_line_around, lemma_line_of_monotone, lemma_line_start, line_of, line_start,
    line_text, views,
};

verus! {

/// The graphemes of a text, first to last, as `graphemes(true)` cuts them.
pub uninterp spec fn graphemes(t: Seq<char>) -> Seq<Seq<char>>;

/// Whether a line break in a piece is the whole of it, but for a carriage return
/// before it.
pub open spec fn breaks_alone(piece: Seq<char>) -> bool {
    piece.contains('\n') ==> piece == seq!['\n'] || piece == seq!['\r', '\n']
}

/// `UnicodeSegmentation::graphemes(true)`: the extended grapheme clusters of
/// `s`. None is empty, one after the other they are the whole of `s`, and a line
/// break is a cluster of its own, or with the carriage return before it.
#[verifier::external_body]
pub(crate) fn cut_graphemes(s: &str) -> (v: Vec<String>)
    ensures
        views(v@) == graphemes(s@),
        views(v@).flatten() == s@,
        forall|k: int|
            0 <= k < views(v@).len() ==> (#[trigger] views(v@)[k]).len() > 0 && breaks_alone(
                views(v@)[k],
            ),
{
    s.graphemes(true).map(|g| g.to_string()).collect()
}

/// The first end of a piece after `k`. A position that no piece covers is
/// passed by itself.
pub open spec fn cut_after(pieces: Seq<Seq<char>>, k: int) -> int
    decreases pieces.len(),
{
    if pieces.len() == 0 {
        k + 1
    } else if pieces[0].len() > k {
        pieces[0].len() as int
    } else {
        pieces[0].len() + cut_after(pieces.skip(1), k - pieces[0].len())
    }
}

/// The last beginning of a piece before `k`.
pub open spec fn cut_before(pieces: Seq<Seq<char>>, k: int) -> int
    decreases pieces.len(),
{
    if pieces.len() == 0 || pieces[0].len() >= k {
        0
    } else {
        pieces[0].len() + cut_before(pieces.skip(1), k - pieces[0].len())
    }
}

/// The position after the grapheme that `i` is in.
pub open spec fn next_grapheme(t: Seq<char>, i: int) -> int {
    if i >= t.len() {
        t.len() as int
    } else {
        let l = line_of(t, i);
        let at = line_start(t, l) + cut_after(graphemes(line_text(t, l)), i - line_start(t, l));
        if at <= t.len() {
            at
        } else {
            t.len() as int
        }
    }
}

/// The position at which the grapheme before `i` begins.
pub open spec fn prev_grapheme(t: Seq<char>, i: int) -> int {
    if i <= 0 {
        0
    } else {
        let l = line_of(t, i - 1);
        line_start(t, l) + cut_before(graphemes(line_text(t, l)), i - line_start(t, l))
    }
}

proof fn lemma_cut_after(pieces: Seq<Seq<char>>, k: int)
    requires
        k >= 0,
    ensures
        cut_after(pieces, k) > k,
    decreases pieces.len(),
{
    if pieces.len() > 0 && pieces[0].len() <= k {
        lemma_cut_after(pieces.skip(1), k - pieces[0].len());
    }
}

proof fn lemma_cut_before(pieces: Seq<Seq<char>>, k: int)
    requires
        k > 0,
    ensures
        0 <= cut_before(pieces, k) < k,
    decreases pieces.len(),
{
    if pieces.len() > 0 && pieces[0].len() < k {
        lemma_cut_before(pieces.skip(1), k - pieces[0].len());
    }
}

/// The piece that begins last ends where the pieces end.
proof fn lemma_last_piece(pieces: Seq<Seq<char>>)
    requires
        pieces.len() > 0,
        forall|k: int| 0 <= k < pieces.len() ==> (#[trigger] pieces[k]).len() > 0,
    ensures
        pieces.flatten().len() > 0,
        0 <= cut_before(pieces, pieces.flatten().len() as int),
        cut_after(pieces, cut_before(pieces, pieces.flatten().len() as int))
            == pieces.flatten().len(),
    decreases pieces.len(),
{
    let rest = pieces.skip(1);
    assert(pieces.drop_first() =~= rest);
    assert(pieces.flatten() == pieces[0] + rest.flatten());
    assert forall|k: int| 0 <= k < rest.len() implies (#[trigger] rest[k]).len() > 0 by {
        assert(rest[k] == pieces[k + 1]);
    }
    if rest.len() > 0 {
        lemma_last_piece(rest);
    } else {
        assert(rest.flatten().len() == 0);
    }
}

/// The next grapheme is further on, except at the end of the text.
pub proof fn lemma_next_grapheme(t: Seq<char>, i: int)
    requires
        0 <= i <= t.len(),
    ensures
        i <= next_grapheme(t, i) <= t.len(),
        i < t.len() ==> i < next_grapheme(t, i),
{
    if i < t.len() {
        let l = line_of(t, i);
        lemma_line_around(t, i);
        lemma_cut_after(graphemes(line_text(t, l)), i - line_start(t, l));
    }
}

/// The grapheme before begins further back, except at the beginning, and on the
/// line of the character before.
pub proof fn lemma_prev_grapheme(t: Seq<char>, i: int)
    requires
        0 <= i <= t.len(),
    ensures
        0 <= prev_grapheme(t, i) <= i,
        i > 0 ==> line_start(t, line_of(t, i - 1)) <= prev_grapheme(t, i) < i,
{
    if i > 0 {
        let l = line_of(t, i - 1);
        lemma_line_around(t, i - 1);
        lemma_cut_before(graphemes(line_text(t, l)), i - line_start(t, l));
    }
}

/// The first end of a piece of `pieces` after `k`, where there is one.
fn find_cut_after(pieces: &Vec<String>, k: usize) -> (r: usize)
    requires
        k < views(pieces@).flatten().len() <= usize::MAX,
    ensures
        r == cut_after(views(pieces@), k as int),
        k < r <= views(pieces@).flatten().len(),
{
    let ghost all = views(pieces@);
    let mut acc: usize = 0;
    let mut j: usize = 0;
    assert(all.skip(0) =~= all);
    while j < pieces.len()
        invariant
            0 <= j <= pieces@.len(),
            all == views(pieces@),
            acc <= k < all.flatten().len() <= usize::MAX,
            acc + all.skip(j as int).flatten().len() == all.flatten().len(),
            cut_after(all, k as int) == acc + cut_after(all.skip(j as int), k - acc),
        decreases pieces@.len() - j,
    {
        let n: usize = char_count(pieces[j].as_str());
        proof {
            let rest = all.skip(j as int);
            assert(rest[0] == all[j as int]);
            assert(rest.skip(1) =~= all.skip(j + 1));
            assert(rest.drop_first() =~= rest.skip(1));
        }
        acc += n;
        if acc > k {
            return acc;
        }
        j += 1;
    }
    assert(all.skip(j as int).len() == 0);
    assert(false);
    0
}

/// The last beginning of a piece of `pieces` before `k`.
fn find_cut_before(pieces: &Vec<String>, k: usize) -> (r: usize)
    requires
        0 < k,
    ensures
        r == cut_before(views(pieces@), k as int),
        r < k,
{
    let ghost all = views(pieces@);
    let mut acc: usize = 0;
    let mut j: usize = 0;
    assert(all.skip(0) =~= all);
    while j < pieces.len()
        invariant
            0 <= j <= pieces@.len(),
            all == views(pieces@),
            acc < k,
            cut_before(all, k as int) == acc + cut_before(all.skip(j as int), k - acc),
        decreases pieces@.len() - j,
    {
        let n: usize = char_count(pieces[j].as_str());
        proof {
            let rest = all.skip(j as int);
            assert(rest[0] == all[j as int]);
            assert(rest.skip(1) =~= all.skip(j + 1));
        }
        if n >= k - acc {
            return acc;
        }
        acc += n;
        j += 1;
    }
    acc
}

/// The position after the grapheme that `i` is in.
pub fn find_next_grapheme(rope: &Rope, i: usize) -> (r: usize)
    requires
        i <= rope_chars(*rope).len(),
    ensures
        r == next_grapheme(rope_chars(*rope), i as int),
        i <= r <= rope_chars(*rope).len(),
        i < rope_chars(*rope).len() ==> i < r,
{
    let ghost t = rope_chars(*rope);
    let n: usize = rope_len(rope);
    if i >= n {
        return n;
    }
    let l: usize = rope_char_to_line(rope, i);
    proof {
        lemma_line_around(t, i as int);
        lemma_line_start(t, l + 1);
    }
    let s: usize = rope_line_to_char(rope, l);
    let line: String = rope_line(rope, l);
    let pieces: Vec<String> = cut_graphemes(line.as_str());
    let k: usize = find_cut_after(&pieces, i - s);
    s + k
}

/// The position at which the grapheme before `i` begins. The last one of a line
/// ends where the line ends.
pub fn find_prev_grapheme(rope: &Rope, i: usize) -> (r: usize)
    requires
        i <= rope_chars(*rope).len(),
    ensures
        r == prev_grapheme(rope_chars(*rope), i as int),
        r <= i,
        0 < i ==> r < i,
        0 < i && i == line_start(rope_chars(*rope), line_of(rope_chars(*rope), i - 1) + 1)
            ==> next_grapheme(rope_chars(*rope), r as int) == i,
{
    let ghost t = rope_chars(*rope);
    if i == 0 {
        return 0;
    }
    let l: usize = rope_char_to_line(rope, i - 1);
    proof {
        lemma_line_around(t, i - 1);
        lemma_line_start(t, l + 1);
    }
    let s: usize = rope_line_to_char(rope, l);
    let line: String = rope_line(rope, l);
    let pieces: Vec<String> = cut_graphemes(line.as_str());
    let k: usize = find_cut_before(&pieces, i - s);
    proof {
        if i == line_start(t, l + 1) {
            let all = views(pieces@);
            assert(all.flatten() == line_text(t, l as int));
            if all.len() == 0 {
                assert(all.flatten().len() == 0);
            }
            lemma_last_piece(all);
            lemma_line_start(t, l as int);
            lemma_line_of_monotone(t, s as int, s + k);
            lemma_line_of_monotone(t, s + k, i - 1);
        }
    }
    s + k
}

} // verus!

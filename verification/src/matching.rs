//! Loop boundaries of a balanced program: the scans that execution makes at
//! a bracket end at the bracket's partner.

use vstd::prelude::*;
use crate::opcode::{Instructions, bracket_delta, nesting, balanced};
use crate::execute::{skip_forward, seek_backward, lemma_end_loop_not_first};

verus! {

/// The `BeginLoop` at `i` and the `EndLoop` at `j` delimit one loop: between
/// them the loop stays open, and `j` is where it closes.
pub open spec fn matched(p: Seq<Instructions>, i: int, j: int) -> bool {
    &&& 0 <= i < j < p.len()
    &&& p[i] == Instructions::BeginLoop
    &&& p[j] == Instructions::EndLoop
    &&& nesting(p.subrange(i, j + 1)) == 0
    &&& forall|k: int| i < k <= j ==> #[trigger] nesting(p.subrange(i, k)) > 0
}

/// The nesting of a stretch is the sum of the nestings of its two parts.
pub proof fn lemma_span_split(p: Seq<Instructions>, a: int, b: int, c: int)
    requires
        0 <= a <= b <= c <= p.len(),
    ensures
        nesting(p.subrange(a, c)) == nesting(p.subrange(a, b)) + nesting(p.subrange(b, c)),
    decreases c - b,
{
    if b < c {
        lemma_span_split(p, a, b, c - 1);
        assert(p.subrange(a, c).drop_last() =~= p.subrange(a, c - 1));
        assert(p.subrange(b, c).drop_last() =~= p.subrange(b, c - 1));
    }
}

/// The nesting of a single opcode is its bracket delta.
pub proof fn lemma_span_single(p: Seq<Instructions>, a: int)
    requires
        0 <= a < p.len(),
    ensures
        nesting(p.subrange(a, a + 1)) == bracket_delta(p[a]),
{
    let one = p.subrange(a, a + 1);
    assert(one.drop_last().len() == 0);
    assert(nesting(one.drop_last()) == 0);
    assert(one.last() == p[a]);
}

/// A forward scan that has kept the loop opened at `i` open up to `pos`
/// either ends right after the `EndLoop` that closes it, or reaches the end
/// of the program with the loop still open.
pub proof fn lemma_skip_forward_finds(p: Seq<Instructions>, i: int, pos: int, d: int)
    requires
        0 <= i < pos <= p.len(),
        d == nesting(p.subrange(i, pos)),
        forall|k: int| i < k <= pos ==> #[trigger] nesting(p.subrange(i, k)) > 0,
    ensures
        ({
            let t = skip_forward(p, pos, d);
            &&& pos <= t <= p.len()
            &&& forall|k: int| i < k < t ==> #[trigger] nesting(p.subrange(i, k)) > 0
            &&& {
                ||| (pos < t && p[t - 1] == Instructions::EndLoop && nesting(p.subrange(i, t))
                    == 0)
                ||| (t == p.len() && nesting(p.subrange(i, t)) > 0)
            }
        }),
    decreases p.len() - pos,
{
    if pos < p.len() {
        assert(p.subrange(i, pos + 1).drop_last() =~= p.subrange(i, pos));
        assert(p.subrange(i, pos + 1).last() == p[pos]);
        let next = d + bracket_delta(p[pos]);
        assert(nesting(p.subrange(i, pos + 1)) == next);
        if next != 0 {
            lemma_skip_forward_finds(p, i, pos + 1, next);
        }
    }
}

/// A backward scan from the `EndLoop` at `j` that has found the loop still
/// unopened down to `pos + 1` ends at the `BeginLoop` that opens it.
pub proof fn lemma_seek_backward_finds(p: Seq<Instructions>, j: int, pos: int, d: int)
    requires
        balanced(p),
        0 <= pos < j < p.len(),
        d == -nesting(p.subrange(pos + 1, j + 1)),
        forall|m: int| pos < m <= j ==> #[trigger] nesting(p.subrange(m, j + 1)) < 0,
    ensures
        ({
            let t = seek_backward(p, pos, d);
            &&& 0 <= t <= pos
            &&& p[t] == Instructions::BeginLoop
            &&& nesting(p.subrange(t, j + 1)) == 0
            &&& forall|m: int| t < m <= j ==> #[trigger] nesting(p.subrange(m, j + 1)) < 0
        }),
    decreases pos,
{
    assert(nesting(p.subrange(pos + 1, j + 1)) < 0);
    lemma_span_split(p, pos, pos + 1, j + 1);
    lemma_span_single(p, pos);
    let next = d - bracket_delta(p[pos]);
    assert(nesting(p.subrange(pos, j + 1)) == -next);
    if pos == 0 {
        assert(p.subrange(0, j + 1) =~= p.take(j + 1));
        assert(nesting(p.take(j + 1)) >= 0);
    } else if next != 0 {
        lemma_seek_backward_finds(p, j, pos - 1, next);
    }
}

/// In a balanced program, skipping a loop from its `BeginLoop` lands right
/// after the `EndLoop` that closes this very loop, inside the program or at
/// its end; the scan never runs off the end unmatched.
pub proof fn lemma_forward_jump_matches(p: Seq<Instructions>, i: int)
    requires
        balanced(p),
        0 <= i < p.len(),
        p[i] == Instructions::BeginLoop,
    ensures
        i + 1 < skip_forward(p, i + 1, 1) <= p.len(),
        matched(p, i, skip_forward(p, i + 1, 1) - 1),
{
    lemma_span_single(p, i);
    lemma_skip_forward_finds(p, i, i + 1, 1);
    let t = skip_forward(p, i + 1, 1);
    if t == p.len() && nesting(p.subrange(i, t)) > 0 {
        lemma_span_split(p, 0, i, p.len() as int);
        assert(p.subrange(0, p.len() as int) =~= p);
        assert(p.subrange(0, i) =~= p.take(i));
        assert(nesting(p.take(i)) >= 0);
        assert(false);
    }
}

/// In a balanced program, jumping back from an `EndLoop` lands on the
/// `BeginLoop` that opens this very loop, also where that is the first
/// opcode of the program.
pub proof fn lemma_backward_jump_matches(p: Seq<Instructions>, j: int)
    requires
        balanced(p),
        0 <= j < p.len(),
        p[j] == Instructions::EndLoop,
    ensures
        matched(p, seek_backward(p, j - 1, 1), j),
{
    lemma_end_loop_not_first(p, j);
    lemma_span_single(p, j);
    lemma_seek_backward_finds(p, j, j - 1, 1);
    let t = seek_backward(p, j - 1, 1);
    assert forall|k: int| t < k <= j implies #[trigger] nesting(p.subrange(t, k)) > 0 by {
        lemma_span_split(p, t, k, j + 1);
        assert(nesting(p.subrange(k, j + 1)) < 0);
    }
}

/// A `BeginLoop` has one partner only.
pub proof fn lemma_match_unique(p: Seq<Instructions>, i: int, j1: int, j2: int)
    requires
        matched(p, i, j1),
        matched(p, i, j2),
    ensures
        j1 == j2,
{
    if j1 < j2 {
        assert(nesting(p.subrange(i, j1 + 1)) > 0);
    } else if j2 < j1 {
        assert(nesting(p.subrange(i, j2 + 1)) > 0);
    }
}

} // verus!

//! Translation of source text into a validated opcode sequence.

use vstd::prelude::*;
use crate::opcode::{
    Instructions, ValidationError, balanced, bracket_delta, decode, nesting, never_negative,
    opcode_of,
};

verus! {

/// The opcodes that `s` denotes, in order; characters outside the eight
/// symbols contribute nothing.
pub open spec fn opcodes(s: Seq<char>) -> Seq<Instructions>
    decreases s.len(),
{
    if s.len() == 0 {
        Seq::empty()
    } else {
        match opcode_of(s.last()) {
            Some(op) => opcodes(s.drop_last()).push(op),
            None => opcodes(s.drop_last()),
        }
    }
}

/// Number of `[` minus number of `]` in `s`.
pub open spec fn depth(s: Seq<char>) -> int
    decreases s.len(),
{
    if s.len() == 0 {
        0
    } else {
        depth(s.drop_last()) + (if s.last() == '[' {
            1int
        } else if s.last() == ']' {
            -1int
        } else {
            0int
        })
    }
}

/// Some `]` of `s` stands where no `[` is open.
pub open spec fn close_unmatched(s: Seq<char>) -> bool {
    exists|k: int| 0 <= k <= s.len() && #[trigger] depth(s.take(k)) < 0
}

/// What translating `s` yields.
pub open spec fn translation(s: Seq<char>) -> Result<Seq<Instructions>, ValidationError> {
    if close_unmatched(s) {
        Err(ValidationError::UnmatchedCloseBracket)
    } else if depth(s) != 0 {
        Err(ValidationError::UnmatchedOpenBracket)
    } else {
        Ok(opcodes(s))
    }
}

/// The view of a translation result.
pub open spec fn outcome(r: Result<Vec<Instructions>, ValidationError>) -> Result<
    Seq<Instructions>,
    ValidationError,
> {
    match r {
        Ok(p) => Ok(p@),
        Err(e) => Err(e),
    }
}

/// Appending an opcode that keeps the open-loop count non-negative keeps
/// every prefix non-negative.
pub proof fn lemma_nesting_push(p: Seq<Instructions>, op: Instructions)
    requires
        never_negative(p),
        nesting(p) + bracket_delta(op) >= 0,
    ensures
        never_negative(p.push(op)),
        nesting(p.push(op)) == nesting(p) + bracket_delta(op),
{
    let q = p.push(op);
    assert(q.drop_last() =~= p);
    assert forall|k: int| 0 <= k <= q.len() implies #[trigger] nesting(q.take(k)) >= 0 by {
        if k <= p.len() {
            assert(q.take(k) =~= p.take(k));
        } else {
            assert(q.take(k) =~= q);
        }
    }
}

/// Extending a source prefix by one character extends its opcodes and depth
/// by what that character denotes.
pub proof fn lemma_prefix_step(s: Seq<char>, i: int)
    requires
        0 <= i < s.len(),
    ensures
        opcodes(s.take(i + 1)) == match opcode_of(s[i]) {
            Some(op) => opcodes(s.take(i)).push(op),
            None => opcodes(s.take(i)),
        },
        depth(s.take(i + 1)) == depth(s.take(i)) + match opcode_of(s[i]) {
            Some(op) => bracket_delta(op),
            None => 0,
        },
{
    assert(s.take(i + 1).drop_last() =~= s.take(i));
    assert(s.take(i + 1).last() == s[i]);
}

/// The opcodes of a text in which no `]` stands where nothing is open never
/// close more loops than they opened, and leave as many open as the text does.
pub proof fn lemma_opcodes_nesting(s: Seq<char>)
    requires
        !close_unmatched(s),
    ensures
        never_negative(opcodes(s)),
        nesting(opcodes(s)) == depth(s),
    decreases s.len(),
{
    if s.len() == 0 {
        assert(opcodes(s).take(0) =~= opcodes(s));
    } else {
        let init = s.drop_last();
        assert forall|k: int| 0 <= k <= init.len() implies #[trigger] depth(init.take(k)) >= 0 by {
            assert(init.take(k) =~= s.take(k));
        }
        lemma_opcodes_nesting(init);
        assert(s.take(s.len() as int) =~= s);
        assert(depth(s) >= 0);
        match opcode_of(s.last()) {
            Some(op) => {
                lemma_nesting_push(opcodes(init), op);
            },
            None => {},
        }
    }
}

/// Whatever translation accepts is balanced.
pub proof fn lemma_translation_balanced(s: Seq<char>)
    ensures
        translation(s) matches Ok(p) ==> balanced(p),
{
    if !close_unmatched(s) {
        lemma_opcodes_nesting(s);
    }
}

/// Translates source text into an opcode sequence, checking that its brackets
/// balance. Characters other than the eight symbols are skipped.
pub fn parse_instructions(input: &str) -> (r: Result<Vec<Instructions>, ValidationError>)
    ensures
        outcome(r) == translation(input@),
        r matches Ok(p) ==> balanced(p@),
{
    let mut instructions: Vec<Instructions> = Vec::new();
    let mut loop_counter: usize = 0;
    assert(input@.take(0) =~= Seq::<char>::empty());

    for c in it: input.chars()
        invariant
            it.seq() == input@,
            instructions@ == opcodes(input@.take(it.index())),
            loop_counter == depth(input@.take(it.index())),
            loop_counter <= instructions@.len(),
            forall|k: int| 0 <= k <= it.index() ==> #[trigger] depth(input@.take(k)) >= 0,
    {
        proof {
            lemma_prefix_step(input@, it.index());
        }
        match decode(c) {
            Some(Instructions::BeginLoop) => {
                instructions.push(Instructions::BeginLoop);
                assert(loop_counter < instructions.len());
                loop_counter += 1;
            },
            Some(Instructions::EndLoop) => {
                if loop_counter == 0 {
                    assert(depth(input@.take(it.index() + 1)) < 0);
                    return Err(ValidationError::UnmatchedCloseBracket);
                }
                instructions.push(Instructions::EndLoop);
                loop_counter -= 1;
            },
            Some(op) => {
                instructions.push(op);
            },
            None => {},
        }
    }

    proof {
        assert(input@.take(input@.len() as int) =~= input@);
        lemma_translation_balanced(input@);
    }
    if loop_counter != 0 {
        Err(ValidationError::UnmatchedOpenBracket)
    } else {
        Ok(instructions)
    }
}

/// Whether every `BeginLoop` of `instructions` has its `EndLoop` and vice
/// versa, which is what execution relies on.
pub fn is_balanced(instructions: &Vec<Instructions>) -> (b: bool)
    ensures
        b == balanced(instructions@),
{
    let mut open: usize = 0;
    let mut i: usize = 0;
    assert(instructions@.take(0).len() == 0);
    while i < instructions.len()
        invariant
            i <= instructions.len(),
            open <= i,
            open == nesting(instructions@.take(i as int)),
            forall|k: int| 0 <= k <= i ==> #[trigger] nesting(instructions@.take(k)) >= 0,
        decreases instructions.len() - i,
    {
        assert(instructions@.take(i + 1).drop_last() =~= instructions@.take(i as int));
        match instructions[i] {
            Instructions::BeginLoop => {
                open += 1;
            },
            Instructions::EndLoop => {
                if open == 0 {
                    assert(nesting(instructions@.take(i + 1)) < 0);
                    return false;
                }
                open -= 1;
            },
            _ => {},
        }
        i += 1;
    }
    assert(instructions@.take(instructions@.len() as int) =~= instructions@);
    open == 0
}

/// The depth of a text is that of a prefix plus that of the rest.
pub proof fn lemma_depth_split(s: Seq<char>, i: int)
    requires
        0 <= i <= s.len(),
    ensures
        depth(s) == depth(s.take(i)) + depth(s.subrange(i, s.len() as int)),
    decreases s.len(),
{
    if i == s.len() {
        assert(s.take(i) =~= s);
    } else {
        let init = s.drop_last();
        lemma_depth_split(init, i);
        assert(init.take(i) =~= s.take(i));
        assert(s.subrange(i, s.len() as int).drop_last() =~= init.subrange(i, init.len() as int));
    }
}

/// A text without brackets has depth zero and denotes no loop opcode.
pub proof fn lemma_bracket_free(s: Seq<char>)
    requires
        forall|i: int| 0 <= i < s.len() ==> s[i] != '[' && s[i] != ']',
    ensures
        depth(s) == 0,
        forall|j: int|
            0 <= j < opcodes(s).len() ==> bracket_delta(#[trigger] opcodes(s)[j]) == 0,
    decreases s.len(),
{
    if s.len() > 0 {
        let rest = opcodes(s.drop_last());
        lemma_bracket_free(s.drop_last());
        assert forall|j: int| 0 <= j < opcodes(s).len() implies bracket_delta(
            #[trigger] opcodes(s)[j],
        ) == 0 by {
            if j < rest.len() {
                assert(opcodes(s)[j] == rest[j]);
            }
        }
    }
}

/// A text made only of characters outside the eight symbols denotes no
/// opcode at all.
pub proof fn lemma_ignored_only(s: Seq<char>)
    requires
        forall|i: int| 0 <= i < s.len() ==> opcode_of(#[trigger] s[i]) is None,
    ensures
        opcodes(s) == Seq::<Instructions>::empty(),
    decreases s.len(),
{
    if s.len() > 0 {
        lemma_ignored_only(s.drop_last());
    }
}

/// Translation of a text without brackets succeeds; the program holds the
/// opcodes of the symbols present, none of them a loop opcode. Where the
/// text holds none of the eight symbols, the program is empty.
pub proof fn lemma_bracket_free_translates(s: Seq<char>)
    requires
        forall|i: int| 0 <= i < s.len() ==> s[i] != '[' && s[i] != ']',
    ensures
        translation(s) == Ok::<Seq<Instructions>, ValidationError>(opcodes(s)),
        forall|j: int|
            0 <= j < opcodes(s).len() ==> bracket_delta(#[trigger] opcodes(s)[j]) == 0,
        (forall|i: int| 0 <= i < s.len() ==> opcode_of(#[trigger] s[i]) is None) ==> opcodes(s)
            == Seq::<Instructions>::empty(),
{
    lemma_bracket_free(s);
    assert forall|k: int| 0 <= k <= s.len() implies #[trigger] depth(s.take(k)) == 0 by {
        lemma_bracket_free(s.take(k));
    }
    if forall|i: int| 0 <= i < s.len() ==> opcode_of(#[trigger] s[i]) is None {
        lemma_ignored_only(s);
    }
}

/// A `]` at a place where as many `]` as `[` came before it (or more) makes
/// translation fail with `UnmatchedCloseBracket`, whatever follows.
pub proof fn lemma_early_close_rejected(s: Seq<char>, i: int)
    requires
        0 <= i < s.len(),
        s[i] == ']',
        depth(s.take(i)) <= 0,
    ensures
        translation(s) == Err::<Seq<Instructions>, ValidationError>(
            ValidationError::UnmatchedCloseBracket,
        ),
{
    lemma_prefix_step(s, i);
    assert(depth(s.take(i + 1)) < 0);
}

/// The `[` at `i` is never closed: from it onwards the depth stays positive
/// to the end of the text.
pub open spec fn open_unclosed(s: Seq<char>, i: int) -> bool {
    &&& 0 <= i < s.len()
    &&& s[i] == '['
    &&& forall|j: int| i < j <= s.len() ==> #[trigger] depth(s.subrange(i, j)) > 0
}

/// A text with a `[` that is never closed does not translate.
pub proof fn lemma_unclosed_never_translates(s: Seq<char>, i: int)
    requires
        open_unclosed(s, i),
    ensures
        translation(s) is Err,
{
    if !close_unmatched(s) {
        lemma_unclosed_open_rejected(s, i);
    }
}

/// A text with a `[` that is never closed, and in which no `]` stands where
/// nothing is open, fails with `UnmatchedOpenBracket`.
pub proof fn lemma_unclosed_open_rejected(s: Seq<char>, i: int)
    requires
        open_unclosed(s, i),
        !close_unmatched(s),
    ensures
        translation(s) == Err::<Seq<Instructions>, ValidationError>(
            ValidationError::UnmatchedOpenBracket,
        ),
{
    lemma_depth_split(s, i);
    assert(depth(s.take(i)) >= 0);
    assert(depth(s.subrange(i, s.len() as int)) > 0);
}

/// Translation depends on the text alone: equal texts have equal
/// translations.
pub proof fn lemma_translation_deterministic(a: Seq<char>, b: Seq<char>)
    requires
        a =~= b,
    ensures
        translation(a) == translation(b),
{
}

} // verus!
